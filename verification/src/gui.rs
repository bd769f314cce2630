//! What the window shows: texts, colours and points. Drawing them is left to
//! the caller.
use vstd::prelude::*;

pub mod handel;
pub mod innstillinger;
pub mod portefolje;

use crate::belop;
use crate::marketdata::KursSyn;
use crate::number_text;
use crate::state;
use crate::state::{Flags, UiState};
use crate::strategy;
use crate::text;
use crate::text::{string_of, three, two};
use crate::types;
use crate::types::{Order, OrderStatus, Quote};

verus! {

/// The colours of the window.
#[derive(Debug, Clone, Copy, PartialEq, Eq, Structural)]
pub enum Farge {
    Gronn,
    Rod,
    Gul,
    Blaa,
    Graa,
    Hvit,
}

/// The colour of a gain or a loss.
pub open spec fn opp_ned(v: int) -> Farge {
    if v >= 0 {
        Farge::Gronn
    } else {
        Farge::Rod
    }
}

pub fn updown(v: i128) -> (r: Farge)
    ensures
        r == opp_ned(v as int),
{
    if v >= 0 {
        Farge::Gronn
    } else {
        Farge::Rod
    }
}

// ---------------------------------------------------------------------------
// Numbers
// ---------------------------------------------------------------------------

/// A value in whole units with a space between the thousands.
pub open spec fn tusener(v: int) -> Seq<char> {
    if v < 0 {
        seq!['-'] + belop::grupper(number_text::decimal(((-v + 5_000_000_000_000_000) / 10_000_000_000_000_000) as nat))
    } else {
        belop::grupper(number_text::decimal(((v + 5_000_000_000_000_000) / 10_000_000_000_000_000) as nat))
    }
}

/// 1234567.8 as `1 234 568`, for a product of a price and a quantity.
pub fn fmt_verdi(v: i128) -> (r: String)
    ensures
        r@ == tusener(v as int),
{
    let n: u128 = if v < 0 {
        (-(v + 1)) as u128 + 1
    } else {
        v as u128
    };
    let hele: u128 = (n + 5_000_000_000_000_000) / 10_000_000_000_000_000;
    let t: String = belop::med_skilletegn(hele);
    if v < 0 {
        let r: String = two("-", t.as_str());
        proof {
            reveal_strlit("-");
            assert("-"@ =~= seq!['-']);
        }
        r
    } else {
        t
    }
}

/// The same with a plus sign before what is no loss.
pub open spec fn tusener_med_fortegn(v: int) -> Seq<char> {
    if v >= 0 {
        "+"@ + tusener(v)
    } else {
        tusener(v)
    }
}

pub fn fmt_med_fortegn(v: i128) -> (r: String)
    ensures
        r@ == tusener_med_fortegn(v as int),
{
    let t: String = fmt_verdi(v);
    if v >= 0 {
        two("+", t.as_str())
    } else {
        t
    }
}

/// A percentage with its sign.
pub open spec fn pct_tekst(v: int, des: nat) -> Seq<char> {
    belop::med_fortegn(v, des) + " %"@
}

pub fn skriv_pct(v: i128, des: u8) -> (r: String)
    requires
        des <= 8,
    ensures
        r@ == pct_tekst(v as int, des as nat),
{
    let cs: Vec<char> = belop::skriv_med_fortegn(v, des);
    let t: String = string_of(cs.as_slice());
    two(t.as_str(), " %")
}

/// A turnover in thousands of millions, or in millions.
pub open spec fn omsetning_tekst(v: int) -> Seq<char> {
    if v >= 10_000_000_000_000_000_000_000_000 {
        belop::verdi_tekst(belop::kvotient(v, 1_000_000_000), 1) + " mrd"@
    } else {
        belop::verdi_tekst(belop::kvotient(v, 1_000_000), 0) + " mill"@
    }
}

pub fn fmt_turnover(v: i128) -> (r: String)
    requires
        v > i128::MIN,
    ensures
        r@ == omsetning_tekst(v as int),
{
    if v >= 10_000_000_000_000_000_000_000_000 {
        let cs: Vec<char> = belop::skriv(belop::del(v, 1_000_000_000), 16, 1);
        let t: String = string_of(cs.as_slice());
        two(t.as_str(), " mrd")
    } else {
        let cs: Vec<char> = belop::skriv(belop::del(v, 1_000_000), 16, 0);
        let t: String = string_of(cs.as_slice());
        two(t.as_str(), " mill")
    }
}

// ---------------------------------------------------------------------------
// Orders
// ---------------------------------------------------------------------------

/// Which orders are shown.
#[derive(Debug, Clone, Copy, PartialEq, Eq, Structural)]
pub enum OrderFilter {
    Alle,
    Aktive,
    Fullforte,
    Kansellerte,
}

impl OrderFilter {
    pub open spec fn slipper(self, s: OrderStatus) -> bool {
        match self {
            OrderFilter::Alle => true,
            OrderFilter::Aktive => s == OrderStatus::Submitted,
            OrderFilter::Fullforte => s == OrderStatus::Filled,
            OrderFilter::Kansellerte => s == OrderStatus::Cancelled || s == OrderStatus::Rejected,
        }
    }

    pub fn matches(self, status: OrderStatus) -> (r: bool)
        ensures
            r == self.slipper(status),
    {
        match self {
            OrderFilter::Alle => true,
            OrderFilter::Aktive => status == OrderStatus::Submitted,
            OrderFilter::Fullforte => status == OrderStatus::Filled,
            OrderFilter::Kansellerte => status == OrderStatus::Cancelled || status == OrderStatus::Rejected,
        }
    }
}

/// The places of the orders that are shown.
pub open spec fn viste(l: Seq<Order>, f: OrderFilter) -> Seq<int>
    decreases l.len(),
{
    if l.len() == 0 {
        Seq::empty()
    } else if f.slipper(l.last().status) {
        viste(l.drop_last(), f).push(l.len() - 1)
    } else {
        viste(l.drop_last(), f)
    }
}

pub open spec fn plasser(l: Seq<usize>) -> Seq<int> {
    Seq::new(l.len(), |i: int| l[i] as int)
}

/// The places of the orders that a filter lets through; how many they are is
/// what its button shows.
pub fn viste_ordrer(l: &Vec<Order>, f: OrderFilter) -> (r: Vec<usize>)
    ensures
        plasser(r@) == viste(l@, f),
        forall|i: int| 0 <= i < r@.len() ==> (#[trigger] r@[i]) < l@.len(),
{
    let mut ut: Vec<usize> = Vec::new();
    let mut i: usize = 0;
    assert(l@.take(0) =~= Seq::empty());
    assert(plasser(ut@) =~= Seq::empty());
    while i < l.len()
        invariant
            i <= l@.len(),
            plasser(ut@) == viste(l@.take(i as int), f),
            forall|k: int| 0 <= k < ut@.len() ==> (#[trigger] ut@[k]) < i,
        decreases l.len() - i,
    {
        proof {
            assert(l@.take(i + 1).drop_last() =~= l@.take(i as int));
            assert(l@.take(i + 1).last() == l@[i as int]);
        }
        let ghost for_ = plasser(ut@);
        if f.matches(l[i].status) {
            ut.push(i);
            assert(plasser(ut@) =~= for_.push(i as int));
        }
        i += 1;
    }
    assert(l@.take(i as int) =~= l@);
    ut
}

/// Every order is under exactly one of the three filters.
pub proof fn law_filtrene_deler(s: OrderStatus)
    ensures
        OrderFilter::Alle.slipper(s),
        OrderFilter::Aktive.slipper(s) || OrderFilter::Fullforte.slipper(s) || OrderFilter::Kansellerte.slipper(s),
        !(OrderFilter::Aktive.slipper(s) && OrderFilter::Fullforte.slipper(s)),
        !(OrderFilter::Aktive.slipper(s) && OrderFilter::Kansellerte.slipper(s)),
        !(OrderFilter::Fullforte.slipper(s) && OrderFilter::Kansellerte.slipper(s)),
{
}

// ---------------------------------------------------------------------------
// The chart
// ---------------------------------------------------------------------------

/// How far back the chart goes.
#[derive(Debug, Clone, Copy, PartialEq, Eq, Structural)]
pub enum ChartRange {
    Week,
    Month,
    ThreeMonths,
    Year,
    All,
}

impl ChartRange {
    pub open spec fn sekunder(self) -> Option<i64> {
        match self {
            ChartRange::Week => Some(604_800),
            ChartRange::Month => Some(2_592_000),
            ChartRange::ThreeMonths => Some(7_948_800),
            ChartRange::Year => Some(31_536_000),
            ChartRange::All => None,
        }
    }

    /// The seconds that are shown; none for all of them.
    pub fn seconds(self) -> (r: Option<i64>)
        ensures
            r == self.sekunder(),
    {
        match self {
            ChartRange::Week => Some(604_800),
            ChartRange::Month => Some(2_592_000),
            ChartRange::ThreeMonths => Some(7_948_800),
            ChartRange::Year => Some(31_536_000),
            ChartRange::All => None,
        }
    }

    /// Whether a time is shown.
    pub open spec fn viser(self, ts: int, naa: int) -> bool {
        match self.sekunder() {
            Some(s) => ts >= naa - s,
            None => true,
        }
    }

    pub fn innenfor(self, ts: i64, naa: i64) -> (r: bool)
        ensures
            r == self.viser(ts as int, naa as int),
    {
        match self.seconds() {
            Some(s) => ts as i128 >= naa as i128 - s as i128,
            None => true,
        }
    }
}

/// The points that a range shows.
pub open spec fn synlige(l: Seq<(i64, i64)>, r: ChartRange, naa: int) -> Seq<(i64, i64)>
    decreases l.len(),
{
    if l.len() == 0 {
        l
    } else if r.viser(l.last().0 as int, naa) {
        synlige(l.drop_last(), r, naa).push(l.last())
    } else {
        synlige(l.drop_last(), r, naa)
    }
}

pub fn synlige_punkter(l: &Vec<(i64, i64)>, range: ChartRange, naa: i64) -> (r: Vec<(i64, i64)>)
    ensures
        r@ == synlige(l@, range, naa as int),
{
    let mut ut: Vec<(i64, i64)> = Vec::new();
    let mut i: usize = 0;
    assert(l@.take(0) =~= Seq::empty());
    while i < l.len()
        invariant
            i <= l@.len(),
            ut@ == synlige(l@.take(i as int), range, naa as int),
        decreases l.len() - i,
    {
        proof {
            assert(l@.take(i + 1).drop_last() =~= l@.take(i as int));
            assert(l@.take(i + 1).last() == l@[i as int]);
        }
        if range.innenfor(l[i].0, naa) {
            ut.push(l[i]);
        }
        i += 1;
    }
    assert(l@.take(i as int) =~= l@);
    ut
}

/// The mean of the last `n` prices at a place.
pub open spec fn snitt_ved(h: Seq<(i64, i64)>, n: nat, i: int) -> (i64, i64) {
    (
        h[i].0,
        belop::kvotient(strategy::sum(state::priser(h).subrange(i + 1 - n, i + 1)), n as int) as i64,
    )
}

/// The rolling mean, from the first place that has `n` prices on.
pub open spec fn sma(h: Seq<(i64, i64)>, n: nat) -> Seq<(i64, i64)> {
    if n == 0 || h.len() < n {
        Seq::empty()
    } else {
        Seq::new((h.len() - n + 1) as nat, |k: int| snitt_ved(h, n, k + n - 1))
    }
}

/// The rolling mean over a history, the same that the strategy sees.
pub fn sma_series(history: &Vec<(i64, i64)>, window: usize) -> (r: Vec<(i64, i64)>)
    requires
        window <= strategy::LENGSTE_VINDU,
    ensures
        r@ == sma(history@, window as nat),
{
    let m: usize = history.len();
    let mut ut: Vec<(i64, i64)> = Vec::new();
    if window == 0 || m < window {
        assert(ut@ =~= sma(history@, window as nat));
        return ut;
    }
    let ghost p = state::priser(history@);
    let mut s: i128 = 0;
    let mut i: usize = 0;
    assert(p.subrange(0, 0) =~= Seq::empty());
    while i < window
        invariant
            i <= window <= m,
            m == history@.len(),
            window <= strategy::LENGSTE_VINDU,
            p == state::priser(history@),
            s == strategy::sum(p.subrange(0, i as int)),
        decreases window - i,
    {
        proof {
            strategy::lemma_sum(p.subrange(0, i as int));
            assert(p.subrange(0, i + 1).drop_last() =~= p.subrange(0, i as int));
            assert(p.subrange(0, i + 1).last() == history@[i as int].1);
        }
        s = s + history[i].1 as i128;
        i += 1;
    }
    let mut k: usize = window;
    proof {
        assert(sma(history@, window as nat).take(0) =~= Seq::empty());
        strategy::lemma_sum(p.subrange(0, window as int));
        lemma_snitt(p.subrange(0, window as int));
    }
    let forste: i64 = belop::del(s, window as i128) as i64;
    ut.push((history[window - 1].0, forste));
    assert(ut@ =~= sma(history@, window as nat).take(1));
    while k < m
        invariant
            0 < window <= k <= m,
            m == history@.len(),
            window <= strategy::LENGSTE_VINDU,
            p == state::priser(history@),
            s == strategy::sum(p.subrange(k - window, k as int)),
            ut@ == sma(history@, window as nat).take(k - window + 1),
        decreases m - k,
    {
        let ghost w = p.subrange(k - window, k as int);
        let ghost ny = p.subrange(k + 1 - window, k + 1);
        proof {
            strategy::lemma_sum(w);
            strategy::lemma_sum_uten_forste(w);
            assert(ny.drop_last() =~= w.skip(1));
            assert(ny.last() == history@[k as int].1);
            assert(w[0] == history@[k - window].1);
            strategy::lemma_sum(ny);
            lemma_snitt(ny);
        }
        s = s + (history[k].1 as i128 - history[k - window].1 as i128);
        let v: i64 = belop::del(s, window as i128) as i64;
        ut.push((history[k].0, v));
        assert(ut@ =~= sma(history@, window as nat).take(k - window + 2));
        k += 1;
    }
    assert(sma(history@, window as nat).take(k - window + 1) =~= sma(history@, window as nat));
    ut
}

/// A mean of prices is a price.
proof fn lemma_snitt(s: Seq<i64>)
    requires
        s.len() > 0,
    ensures
        i64::MIN <= belop::kvotient(strategy::sum(s), s.len() as int) <= i64::MAX,
{
    strategy::lemma_sum(s);
    let v = strategy::sum(s);
    let n = s.len() as int;
    if v < 0 {
        assert(0 <= (-v) / n <= 0x8000_0000_0000_0000) by (nonlinear_arith)
            requires
                n > 0,
                0 < -v <= 0x8000_0000_0000_0000 * n,
        ;
    } else {
        assert(0 <= v / n <= 0x7fff_ffff_ffff_ffff) by (nonlinear_arith)
            requires
                n > 0,
                0 <= v <= 0x7fff_ffff_ffff_ffff * n,
        ;
    }
}

/// The colour of a candle: whether it closed at or above where it opened.
pub fn lysfarge(open: i64, close: i64) -> (r: Farge)
    ensures
        r == opp_ned(close - open),
{
    if close >= open {
        Farge::Gronn
    } else {
        Farge::Rod
    }
}

// ---------------------------------------------------------------------------
// The bar at the top
// ---------------------------------------------------------------------------

/// Whether the prices are fresh.
#[derive(Debug)]
pub enum Ferskhet {
    /// None have come yet.
    Venter,
    Fersk,
    /// So it is said that none have come for long.
    Gammel(String),
}

/// How old prices may be: four rounds, of fifteen seconds at least.
pub open spec fn frist(poll_secs: u64) -> int {
    (if poll_secs < 15 {
        15
    } else {
        poll_secs as int
    }) * 4
}

pub fn ferskhet(last_tick: Option<i64>, naa: i64, poll_secs: u64) -> (r: Ferskhet)
    ensures
        (match last_tick {
            None => r is Venter,
            Some(ts) => if naa - ts > frist(poll_secs) {
                r is Gammel && r->Gammel_0@ == "⚠ ingen ferske kurser på "@ + number_text::decimal(
                    (naa - ts) as nat,
                ) + " s"@
            } else {
                r is Fersk
            },
        }),
{
    match last_tick {
        None => Ferskhet::Venter,
        Some(ts) => {
            let alder: i128 = naa as i128 - ts as i128;
            let runde: i128 = if poll_secs < 15 {
                15
            } else {
                poll_secs as i128
            };
            if alder > runde * 4 {
                let t: String = number_text::decimal_text(alder as u128);
                Ferskhet::Gammel(three("⚠ ingen ferske kurser på ", t.as_str(), " s"))
            } else {
                Ferskhet::Fersk
            }
        },
    }
}

/// What the button of the kill switch says.
pub fn kill_tekst(killed: bool) -> (r: &'static str)
    ensures
        r@ == (if killed {
            "HANDEL STOPPET — klikk for å gjenoppta"@
        } else {
            "⛔ KILL SWITCH"@
        }),
{
    if killed {
        "HANDEL STOPPET — klikk for å gjenoppta"
    } else {
        "⛔ KILL SWITCH"
    }
}

/// What the button of the pause says.
pub fn pause_tekst(paused: bool) -> (r: &'static str)
    ensures
        r@ == (if paused {
            "▶ Fortsett strategi"@
        } else {
            "⏸ Pause strategi"@
        }),
{
    if paused {
        "▶ Fortsett strategi"
    } else {
        "⏸ Pause strategi"
    }
}

/// What the strategy is doing, and its colour. The kill switch goes before the
/// pause.
pub open spec fn lage(f: Flags) -> (Seq<char>, Farge) {
    if f.killed {
        ("STOPPET"@, Farge::Rod)
    } else if f.paused {
        ("PAUSE"@, Farge::Gul)
    } else {
        ("AKTIV"@, Farge::Gronn)
    }
}

pub fn strategilage(f: &Flags) -> (r: (&'static str, Farge))
    ensures
        (r.0@, r.1) == lage(*f),
{
    if f.killed {
        ("STOPPET", Farge::Rod)
    } else if f.paused {
        ("PAUSE", Farge::Gul)
    } else {
        ("AKTIV", Farge::Gronn)
    }
}

/// A card: its title, its value and its colour.
#[derive(Debug)]
pub struct Kort {
    pub tittel: &'static str,
    pub verdi: String,
    pub farge: Farge,
}

#[verifier::ext_equal]
pub struct KortSyn {
    pub tittel: Seq<char>,
    pub verdi: Seq<char>,
    pub farge: Farge,
}

impl View for Kort {
    type V = KortSyn;

    open spec fn view(&self) -> KortSyn {
        KortSyn { tittel: self.tittel@, verdi: self.verdi@, farge: self.farge }
    }
}

pub open spec fn kortene(l: Seq<Kort>) -> Seq<KortSyn> {
    Seq::new(l.len(), |i: int| l[i]@)
}

pub open spec fn nokkeltall_av(st: UiState, f: Flags) -> Seq<KortSyn> {
    seq![
        KortSyn { tittel: "Kontanter"@, verdi: tusener(st.cash as int) + " kr"@, farge: Farge::Hvit },
        KortSyn { tittel: "Egenkapital"@, verdi: tusener(st.equity as int) + " kr"@, farge: Farge::Hvit },
        KortSyn {
            tittel: "P&L siden start"@,
            verdi: tusener_med_fortegn(st.drawdown as int) + " kr"@,
            farge: opp_ned(st.drawdown as int),
        },
        KortSyn {
            tittel: "Posisjoner"@,
            verdi: number_text::decimal(st.positions@.len()),
            farge: Farge::Blaa,
        },
        KortSyn { tittel: "Strategi"@, verdi: lage(f).0, farge: lage(f).1 },
    ]
}

/// The cards at the top.
pub fn nokkeltall(st: &UiState, f: &Flags) -> (r: Vec<Kort>)
    ensures
        kortene(r@) == nokkeltall_av(*st, *f),
{
    let kontanter: String = fmt_verdi(st.cash);
    let egenkapital: String = fmt_verdi(st.equity);
    let resultat: String = fmt_med_fortegn(st.drawdown);
    let (lage_tekst, lage_farge): (&'static str, Farge) = strategilage(f);
    let l: Vec<Kort> = vec![
        Kort { tittel: "Kontanter", verdi: two(kontanter.as_str(), " kr"), farge: Farge::Hvit },
        Kort { tittel: "Egenkapital", verdi: two(egenkapital.as_str(), " kr"), farge: Farge::Hvit },
        Kort { tittel: "P&L siden start", verdi: two(resultat.as_str(), " kr"), farge: updown(st.drawdown) },
        Kort {
            tittel: "Posisjoner",
            verdi: number_text::decimal_text(st.positions.len() as u128),
            farge: Farge::Blaa,
        },
        Kort { tittel: "Strategi", verdi: lage_tekst.to_owned(), farge: lage_farge },
    ];
    assert(kortene(l@) =~= nokkeltall_av(*st, *f));
    l
}

// ---------------------------------------------------------------------------
// The week
// ---------------------------------------------------------------------------

/// What a score means.
pub open spec fn dom(score: int) -> (Seq<char>, Farge) {
    if score >= 2 {
        ("Positiv 📈"@, Farge::Gronn)
    } else if score <= -2 {
        ("Svak 📉"@, Farge::Rod)
    } else {
        ("Nøytral ➖"@, Farge::Graa)
    }
}

pub fn verdict_for(score: i32) -> (r: (&'static str, Farge))
    ensures
        (r.0@, r.1) == dom(score as int),
{
    if score >= 2 {
        ("Positiv 📈", Farge::Gronn)
    } else if score <= -2 {
        ("Svak 📉", Farge::Rod)
    } else {
        ("Nøytral ➖", Farge::Graa)
    }
}

/// The colour of an RSI: whether it is far to one side.
pub fn rsi_farge(rsi: i64) -> (r: Farge)
    ensures
        r == (if rsi > 7_000_000_000 || rsi < 3_000_000_000 {
            Farge::Gul
        } else {
            Farge::Graa
        }),
{
    if rsi > 7_000_000_000 || rsi < 3_000_000_000 {
        Farge::Gul
    } else {
        Farge::Graa
    }
}

/// The colour of the time to an event: whether it is within a week.
pub fn dagerfarge(dager: i64) -> (r: Farge)
    ensures
        r == (if dager <= 7 {
            Farge::Gul
        } else {
            Farge::Graa
        }),
{
    if dager <= 7 {
        Farge::Gul
    } else {
        Farge::Graa
    }
}

/// The colour of an event of the calendar.
pub fn hendelsesfarge(kind: &str) -> (r: Farge)
    ensures
        r == (if kind@ == "Kvartalsrapport"@ {
            Farge::Blaa
        } else if kind@ == "Eks-utbytte"@ {
            Farge::Gul
        } else {
            Farge::Gronn
        }),
{
    if text::same(kind, "Kvartalsrapport") {
        Farge::Blaa
    } else if text::same(kind, "Eks-utbytte") {
        Farge::Gul
    } else {
        Farge::Gronn
    }
}

// ---------------------------------------------------------------------------
// A quote
// ---------------------------------------------------------------------------

/// The change of a quote with an arrow.
pub open spec fn endringstekst(q: KursSyn) -> Seq<char> {
    let pct = types::endring_pct(q.last, q.prev_close);
    (if pct >= 0 {
        "▲ "@
    } else {
        "▼ "@
    }) + pct_tekst(pct, 2)
}

pub fn skriv_endring(q: &Quote) -> (r: (String, Farge))
    ensures
        r.0@ == endringstekst(q@),
        r.1 == opp_ned(types::endring_pct(q.last as int, q.prev_close as int)),
{
    let pct: i128 = q.change_pct();
    let t: String = skriv_pct(pct, 2);
    if pct >= 0 {
        (two("▲ ", t.as_str()), Farge::Gronn)
    } else {
        (two("▼ ", t.as_str()), Farge::Rod)
    }
}

/// The heading of the chart: the price and the change.
pub fn grafoverskrift(q: &Quote) -> (r: String)
    ensures
        r@ == belop::belop_tekst(q.last as int, 2) + "  ("@ + (pct_tekst(
            types::endring_pct(q.last as int, q.prev_close as int),
            2,
        ) + ")"@),
{
    let siste: String = belop::som_tekst(q.last, 2);
    let pct: String = skriv_pct(q.change_pct(), 2);
    let hale: String = two(pct.as_str(), ")");
    three(siste.as_str(), "  (", hale.as_str())
}

/// The orders shown are the places of those that pass the filter, in order.
pub proof fn law_viste_ordrer(l: Seq<Order>, f: OrderFilter)
    ensures
        forall|i: int| #[trigger] viste(l, f).contains(i) <==> 0 <= i < l.len() && f.slipper(l[i].status),
        forall|a: int, b: int| 0 <= a < b < viste(l, f).len() ==> #[trigger] viste(l, f)[a] < #[trigger] viste(l, f)[b],
    decreases l.len(),
{
    if l.len() > 0 {
        let d = l.drop_last();
        let v = viste(d, f);
        law_viste_ordrer(d, f);
        assert forall|k: int| 0 <= k < v.len() implies 0 <= #[trigger] v[k] < d.len() by {
            assert(v.contains(v[k]));
        }
        assert forall|i: int| #[trigger] viste(l, f).contains(i) <==> 0 <= i < l.len() && f.slipper(l[i].status) by {
            let n = l.len() - 1;
            if v.contains(i) {
                let k = choose|k: int| 0 <= k < v.len() && v[k] == i;
                assert(viste(l, f)[k] == i);
            }
            if i == n && f.slipper(l[n].status) {
                assert(viste(l, f)[v.len() as int] == n);
            }
            if viste(l, f).contains(i) && i != n {
                let k = choose|k: int| 0 <= k < viste(l, f).len() && viste(l, f)[k] == i;
                assert(v[k] == i);
            }
        }
    }
}

/// What passes each filter.
pub proof fn law_filtrene(s: OrderStatus)
    ensures
        OrderFilter::Aktive.slipper(s) <==> s == OrderStatus::Submitted,
        OrderFilter::Fullforte.slipper(s) <==> s == OrderStatus::Filled,
{
}

/// A chart shows the points of the last 7, 30, 92 or 365 days, or all of them.
pub proof fn law_synlige_punkter(l: Seq<(i64, i64)>, naa: int)
    ensures
        synlige(l, ChartRange::Week, naa) == l.filter(|p: (i64, i64)| p.0 >= naa - 7 * 24 * 3600),
        synlige(l, ChartRange::Month, naa) == l.filter(|p: (i64, i64)| p.0 >= naa - 30 * 24 * 3600),
        synlige(l, ChartRange::ThreeMonths, naa) == l.filter(|p: (i64, i64)| p.0 >= naa - 92 * 24 * 3600),
        synlige(l, ChartRange::Year, naa) == l.filter(|p: (i64, i64)| p.0 >= naa - 365 * 24 * 3600),
        synlige(l, ChartRange::All, naa) == l,
    decreases l.len(),
{
    reveal(Seq::filter);
    if l.len() > 0 {
        law_synlige_punkter(l.drop_last(), naa);
    }
}

/// Each point of the average stands at the time of the last price that it is
/// made of, and is the mean of that price and those before it, cut off.
pub proof fn law_snittlinjen(h: Seq<(i64, i64)>, n: nat, k: int)
    requires
        0 < n <= h.len(),
        0 <= k <= h.len() - n,
        forall|i: int| 0 <= i < h.len() ==> 0 <= (#[trigger] h[i]).1,
    ensures
        sma(h, n).len() == h.len() - n + 1,
        sma(h, n)[k].0 == h[k + n - 1].0,
        ({
            let vindu = h.subrange(k, k + n).map_values(|p: (i64, i64)| p.1 as int);
            let sum = vindu.fold_left(0, |a: int, b: int| a + b);
            sma(h, n)[k].1 * n <= sum < (sma(h, n)[k].1 + 1) * n
        }),
{
    let p = state::priser(h).subrange(k, k + n);
    let v = h.subrange(k, k + n).map_values(|p: (i64, i64)| p.1 as int);
    assert(p.map_values(|x: i64| x as int) =~= v);
    let s = strategy::sum(p);
    lemma_sum_av_vindu(p);
    belop::law_kvotient(s, n as int);
    let q = belop::kvotient(s, n as int);
    assert(q <= i64::MAX) by (nonlinear_arith)
        requires
            q * n <= s,
            s <= n * i64::MAX,
            n > 0,
    ;
}

proof fn lemma_sum_av_vindu(p: Seq<i64>)
    requires
        forall|i: int| 0 <= i < p.len() ==> 0 <= #[trigger] p[i],
    ensures
        strategy::sum(p) == p.map_values(|x: i64| x as int).fold_left(0, |a: int, b: int| a + b),
        0 <= strategy::sum(p) <= p.len() * i64::MAX,
    decreases p.len(),
{
    let v = p.map_values(|x: i64| x as int);
    reveal(Seq::fold_left);
    if p.len() > 0 {
        lemma_sum_av_vindu(p.drop_last());
        assert(v.drop_last() =~= p.drop_last().map_values(|x: i64| x as int));
    }
}

/// A value in wholes is the nearest one, with a blank between the thousands and
/// nowhere else.
pub proof fn law_hele_kroner(v: nat)
    ensures
        exists|n: nat|
            belop::uten_mellomrom(tusener(v as int)) == #[trigger] number_text::decimal(n) && n * 10_000_000_000_000_000 <= v
                + 5_000_000_000_000_000 < (n + 1) * 10_000_000_000_000_000,
        v > 0 ==> tusener(-(v as int)) == seq!['-'] + tusener(v as int),
{
    let n = ((v + 5_000_000_000_000_000) / 10_000_000_000_000_000) as nat;
    number_text::lemma_decimal(n);
    belop::law_grupper_mister_ingenting(number_text::decimal(n));
}

/// Prices are taken to have stopped after four rounds, and never before a
/// minute has gone.
pub proof fn law_fristen(poll_secs: u64)
    ensures
        frist(poll_secs) >= 60,
        poll_secs >= 15 ==> frist(poll_secs) == 4 * poll_secs,
        poll_secs <= 15 ==> frist(poll_secs) == 60,
{
}

}
