//! The day trader: trades in a few symbols within a small, hard budget that they
//! share. What it orders goes through the rules on risk like every other order.
use vstd::prelude::*;

use crate::belop;
use crate::broker::multi;
use crate::config;
use crate::config::{AutopilotCfg, BacktestCfg};
use crate::engine;
use crate::engine::{finn_posisjon, holdt_antall};
use crate::engine::ordrer;
use crate::json;
use crate::json::{Json, JsonView};
use crate::market;
use crate::marketdata;
use crate::morgan;
use crate::morgan::{AutopilotDecision, Backend, Beslutning, Oppdrag};
use crate::morgan::kontekst;
use crate::number_text;
use crate::state;
use crate::state::{behold_siste, hent_priser, hent_sluttkurser, Flags, UiState};
use crate::tabell::Tabell;
use crate::text;
use crate::text::{same, string_of, text_has, three, two};
use crate::types;
use crate::types::{Quote, Side};

verus! {

/// What the day trader remembers from pulse to pulse. Times are in nanoseconds
/// of a clock that never goes back.
#[derive(Debug)]
pub struct Autopilot {
    pub trades_today: u32,
    pub trades_date: String,
    /// What the sales of the day have brought, about.
    pub day_realized: i128,
    /// What it has bought itself, by symbol.
    pub own: Tabell<Egne>,
    pub cooldown_until: Option<u64>,
    /// The last decisions, the oldest first.
    pub last_reasons: Vec<String>,
}

/// How many of a symbol it has bought itself, and their mean price.
#[derive(Debug, Clone, Copy, PartialEq, Eq, Structural)]
pub struct Egne {
    pub antall: i64,
    pub snitt: i64,
}

/// What it remembers, for use in contracts.
#[verifier::ext_equal]
pub struct Minne {
    pub handler: int,
    pub dato: Seq<char>,
    pub realisert: int,
    pub egne: Map<Seq<char>, Egne>,
    pub kjoletid: Option<u64>,
    pub grunner: Seq<Seq<char>>,
}

/// What it remembers that a decision on one symbol rests on.
#[verifier::ext_equal]
pub struct Tilstand {
    pub handler: int,
    pub dato: Seq<char>,
    pub realisert: int,
    pub snitt: int,
    pub egne: int,
    pub kjoletid: Option<u64>,
    pub grunner: Seq<Seq<char>>,
}

impl View for Autopilot {
    type V = Minne;

    open spec fn view(&self) -> Minne {
        Minne {
            handler: self.trades_today as int,
            dato: self.trades_date@,
            realisert: self.day_realized as int,
            egne: self.own@,
            kjoletid: self.cooldown_until,
            grunner: text::views(self.last_reasons@),
        }
    }
}

impl Minne {
    /// What it has bought of a symbol itself: nothing at first.
    pub open spec fn egne_av(self, symbol: Seq<char>) -> Egne {
        if self.egne.dom().contains(symbol) {
            self.egne[symbol]
        } else {
            Egne { antall: 0, snitt: 0 }
        }
    }

    pub open spec fn ved(self, symbol: Seq<char>) -> Tilstand {
        Tilstand {
            handler: self.handler,
            dato: self.dato,
            realisert: self.realisert,
            snitt: self.egne_av(symbol).snitt as int,
            egne: self.egne_av(symbol).antall as int,
            kjoletid: self.kjoletid,
            grunner: self.grunner,
        }
    }

    /// Whether it has the same of every symbol but one.
    pub open spec fn like_utenom(self, m: Minne, symbol: Seq<char>) -> bool {
        forall|s: Seq<char>| s != symbol ==> #[trigger] self.egne_av(s) == m.egne_av(s)
    }
}

/// How many decisions are remembered.
pub const MEST_GRUNNER: usize = 6;

/// How many lines the journal keeps.
pub const MEST_JOURNAL: usize = 100;

impl Tilstand {
    pub open spec fn gyldig(self) -> bool {
        self.egne >= 0 && self.grunner.len() <= MEST_GRUNNER
    }
}

impl Autopilot {
    /// What it has bought is never below nothing, and it remembers few decisions.
    pub open spec fn gyldig(&self) -> bool {
        &&& self.own.ordnet()
        &&& forall|s: Seq<char>| #[trigger] self.own@.dom().contains(s) ==> self.own@[s].antall >= 0
        &&& self@.grunner.len() <= MEST_GRUNNER
    }

    pub fn new() -> (r: Autopilot)
        ensures
            r.gyldig(),
            r@ == (Minne {
                handler: 0,
                dato: Seq::empty(),
                realisert: 0,
                egne: Map::empty(),
                kjoletid: None,
                grunner: Seq::empty(),
            }),
    {
        let r: Autopilot = Autopilot {
            trades_today: 0,
            trades_date: string_of(&[]),
            day_realized: 0,
            own: Tabell::ny(),
            cooldown_until: None,
            last_reasons: Vec::new(),
        };
        assert(text::views(r.last_reasons@) =~= Seq::empty());
        r
    }

    fn finn_egne(&self, symbol: &str) -> (r: Egne)
        requires
            self.own.ordnet(),
        ensures
            r == self@.egne_av(symbol@),
    {
        match self.own.hent(symbol) {
            Some(e) => *e,
            None => Egne { antall: 0, snitt: 0 },
        }
    }
}

// ---------------------------------------------------------------------------
// The journal
// ---------------------------------------------------------------------------

/// Writes a line in the journal of the day, and as the state that the screen
/// shows.
pub fn journal(st: &mut UiState, klokke: &str, tekst: &str)
    ensures
        final(st).autopilot_status is Some,
        final(st).autopilot_status->0@ == klokke@ + " "@ + tekst@,
        text::views(final(st).autopilot_journal@) == state::siste(
            text::views(old(st).autopilot_journal@).push(klokke@ + "  "@ + tekst@),
            MEST_JOURNAL as nat,
        ),
        *final(st) == (UiState {
            autopilot_status: final(st).autopilot_status,
            autopilot_journal: final(st).autopilot_journal,
            ..*old(st)
        }),
{
    let ghost for_ = text::views(st.autopilot_journal@);
    st.autopilot_status = Some(three(klokke, " ", tekst));
    st.autopilot_journal.push(three(klokke, "  ", tekst));
    let ghost alle = st.autopilot_journal@;
    assert(text::views(alle) =~= for_.push(klokke@ + "  "@ + tekst@));
    behold_siste(&mut st.autopilot_journal, MEST_JOURNAL);
    assert(text::views(st.autopilot_journal@) =~= state::siste(text::views(alle), MEST_JOURNAL as nat));
}

/// The brains as the log names them.
pub open spec fn hjernetekst(speider: Option<Seq<char>>, sjef: Seq<char>) -> Seq<char> {
    match speider {
        Some(s) => s + " speider → "@ + (sjef + " beslutter"@),
        None => sjef,
    }
}

pub open spec fn minst_fem(n: u64) -> u64 {
    if n < 5 {
        5
    } else {
        n
    }
}

/// Minutes between two pulses: at least five.
pub fn pulsminutter(ap: &AutopilotCfg) -> (r: u64)
    ensures
        r == minst_fem(ap.interval_min),
{
    if ap.interval_min < 5 {
        5
    } else {
        ap.interval_min
    }
}

pub open spec fn starttekst(ap: AutopilotCfg, hjerne: Seq<char>) -> Seq<char> {
    text::joined(
        seq![
            "🤖 Morgan Daytrader PÅ: "@,
            text::joined(config::rene(ap.skrevne()), ", "@),
            " · budsjett "@,
            belop::belop_tekst(ap.budget_kr as int, 0),
            " kr · hvert "@,
            number_text::decimal(minst_fem(ap.interval_min) as nat),
            ". min · maks "@,
            number_text::decimal(ap.max_trades_per_day as nat),
            " handler/dag · "@,
            hjerne,
            "."@,
        ],
        Seq::empty(),
    )
}

/// What the log says when the day trader begins; `modell` is the model in the
/// cloud.
pub fn skriv_start(ap: &AutopilotCfg, sjef: &Backend, speider: &Option<Backend>, modell: &str) -> (r: String)
    ensures
        r@ == starttekst(*ap, hjernetekst(merkelapp_av(*speider, modell@), morgan::merkelapp(sjef@, modell@))),
{
    let st: String = sjef.label(modell);
    let hjerne: String = match speider {
        Some(b) => {
            let sp: String = b.label(modell);
            let hale: String = two(st.as_str(), " beslutter");
            three(sp.as_str(), " speider → ", hale.as_str())
        },
        None => st,
    };
    let deler: Vec<String> = vec![
        "🤖 Morgan Daytrader PÅ: ".to_owned(),
        text::join_text(&ap.active_symbols(), ", "),
        " · budsjett ".to_owned(),
        belop::som_tekst(ap.budget_kr, 0),
        " kr · hvert ".to_owned(),
        number_text::decimal_text(pulsminutter(ap) as u128),
        ". min · maks ".to_owned(),
        number_text::decimal_text(ap.max_trades_per_day as u128),
        " handler/dag · ".to_owned(),
        hjerne,
        ".".to_owned(),
    ];
    let tom: String = string_of(&[]);
    assert(tom@ =~= Seq::empty());
    assert(text::views(deler@) =~= seq![
        "🤖 Morgan Daytrader PÅ: "@,
        text::joined(config::rene(ap.skrevne()), ", "@),
        " · budsjett "@,
        belop::belop_tekst(ap.budget_kr as int, 0),
        " kr · hvert "@,
        number_text::decimal(minst_fem(ap.interval_min) as nat),
        ". min · maks "@,
        number_text::decimal(ap.max_trades_per_day as nat),
        " handler/dag · "@,
        hjernetekst(merkelapp_av(*speider, modell@), morgan::merkelapp(sjef@, modell@)),
        "."@,
    ]);
    text::join_text(&deler, tom.as_str())
}

pub open spec fn merkelapp_av(o: Option<Backend>, modell: Seq<char>) -> Option<Seq<char>> {
    match o {
        Some(b) => Some(morgan::merkelapp(b@, modell)),
        None => None,
    }
}

// ---------------------------------------------------------------------------
// A new day
// ---------------------------------------------------------------------------

impl Autopilot {
    /// Begins the day, if it is a new one: the counts start over, and the old
    /// journal is handed to the model to learn from where there is enough of it.
    pub fn begynn_dag(&mut self, i_dag: &str, journal: &mut Vec<String>) -> (r: Option<Oppdrag>)
        requires
            old(self).gyldig(),
        ensures
            final(self).gyldig(),
            final(self)@ == dag_begynt(old(self)@, i_dag@),
            old(self)@.dato == i_dag@ ==> r is None && final(self)@ == old(self)@ && final(journal)@ == old(
                journal,
            )@,
            old(self)@.dato != i_dag@ ==> {
                &&& final(self)@ == (Minne {
                    handler: 0,
                    dato: i_dag@,
                    realisert: 0,
                    grunner: Seq::empty(),
                    ..old(self)@
                })
                &&& final(self)@ == dag_begynt(old(self)@, i_dag@)
                &&& final(journal)@.len() == 0
                &&& r is Some == (old(self)@.dato.len() > 0 && old(journal)@.len() > 2)
                &&& r matches Some(o) ==> o.system@ == morgan::prompter::REVIEW_PROMPT@ && o.max_tokens == 400
                    && o.user@ == morgan::tilbakeblikk_tekst(
                    old(self)@.dato,
                    old(self)@.realisert,
                    text::views(old(journal)@),
                )
            },
    {
        if same(self.trades_date.as_str(), i_dag) {
            return None;
        }
        let r: Option<Oppdrag> = if self.trades_date.as_str().unicode_len() > 0 && journal.len() > 2 {
            Some(morgan::self_review(self.trades_date.as_str(), self.day_realized, journal))
        } else {
            None
        };
        self.trades_date = i_dag.to_owned();
        self.trades_today = 0;
        self.day_realized = 0;
        self.last_reasons = Vec::new();
        *journal = Vec::new();
        assert(text::views(self.last_reasons@) =~= Seq::empty());
        r
    }
}

/// Whether the loss of the day stops the day trader.
#[derive(Debug)]
pub enum Brems {
    Nei,
    /// It rests, and has said so.
    Hviler,
    /// It rests, and writes this in the journal.
    Slo(String),
}

pub open spec fn bremset(maks: int, realisert: int) -> bool {
    maks > 0 && realisert <= -(maks * 100_000_000)
}

impl Autopilot {
    /// The brake on losses: once the day has lost so much, no more trades.
    pub fn dagstap(&self, maks: i64, status: &Option<String>) -> (r: Brems)
        ensures
            r is Nei == !bremset(maks as int, self@.realisert),
            bremset(maks as int, self@.realisert) ==> (match r {
                Brems::Nei => false,
                Brems::Hviler => *status is Some && text::has(status->0@, "dagstap"@),
                Brems::Slo(t) => !(*status is Some && text::has(status->0@, "dagstap"@)) && t@ == dagstap_tekst(
                    self@.realisert,
                ),
            }),
    {
        if maks <= 0 || self.day_realized > -(maks as i128 * 100_000_000) {
            return Brems::Nei;
        }
        if let Some(s) = status {
            if text_has(s.as_str(), "dagstap") {
                return Brems::Hviler;
            }
        }
        let cs: Vec<char> = belop::skriv(self.day_realized, 16, 0);
        let kr: String = string_of(cs.as_slice());
        Brems::Slo(three("🛑 Dagstap-bremsen slo inn (", kr.as_str(), " kr) — hviler til i morgen."))
    }

    /// The quota of the day: what the journal says once it is used up.
    pub fn kvote(&self, ap: &AutopilotCfg) -> (r: Option<&'static str>)
        ensures
            r is Some == (self@.handler >= ap.max_trades_per_day),
            r matches Some(t) ==> t@ == kvotetekst(),
    {
        if self.trades_today >= ap.max_trades_per_day {
            Some("Dagens handelskvote er brukt — hviler til i morgen.")
        } else {
            None
        }
    }
}

/// Whether the scout lets the chief sleep: nothing of interest, and nothing
/// held to look after. What the journal then says.
pub fn speider_filter(interessant: bool, hvorfor: &str, holdt: i64) -> (r: Option<String>)
    ensures
        r is Some == (!interessant && holdt <= 0),
        r matches Some(t) ==> t@ == "🔍 Speider: rolig — "@ + hvorfor@ + " (sparer Anthropic-kallet)."@,
{
    if !interessant && holdt <= 0 {
        Some(three("🔍 Speider: rolig — ", hvorfor, " (sparer Anthropic-kallet)."))
    } else {
        None
    }
}

// ---------------------------------------------------------------------------
// The picture
// ---------------------------------------------------------------------------

/// What a decision rests on, all in the currency of the account.
#[derive(Debug, Clone, Copy, PartialEq, Eq, Structural)]
pub struct Puls {
    pub pris: i64,
    pub holdt: i64,
    /// What the other symbols that it trades in hold of the budget.
    pub andre: i128,
    pub kontanter: i128,
}

/// The rate of a currency, one where it is not known.
pub open spec fn kurs_paa(fx: Map<Seq<char>, i64>, valuta: Seq<char>) -> int {
    if fx.dom().contains(valuta) {
        fx[valuta] as int
    } else {
        100_000_000
    }
}

fn finn_kurs_paa(fx: &Tabell<i64>, valuta: &str) -> (r: i64)
    requires
        fx.ordnet(),
    ensures
        r == kurs_paa(fx@, valuta@),
{
    match fx.hent(valuta) {
        Some(k) => *k,
        None => 100_000_000,
    }
}

/// The cash in the currency of the account; none where it cannot be counted.
pub open spec fn kontanter_i_kr(st: UiState) -> Option<int> {
    if st.cash_currency@.len() == 0 || st.cash_currency@ == "kr"@ {
        Some(st.cash as int)
    } else {
        let p = st.cash * kurs_paa(st.fx_rates@, st.cash_currency@);
        if i128::MIN < p <= i128::MAX {
            Some(belop::kvotient(p, 100_000_000))
        } else {
            None
        }
    }
}

fn finn_kontanter(st: &UiState) -> (r: Option<i128>)
    requires
        st.gyldig(),
    ensures
        (match r {
            Some(v) => kontanter_i_kr(*st) == Some(v as int),
            None => kontanter_i_kr(*st) is None,
        }),
{
    if st.cash_currency.as_str().unicode_len() == 0 || same(st.cash_currency.as_str(), "kr") {
        return Some(st.cash);
    }
    let k: i64 = finn_kurs_paa(&st.fx_rates, st.cash_currency.as_str());
    match st.cash.checked_mul(k as i128) {
        Some(p) => if p == i128::MIN {
            None
        } else {
            Some(belop::del(p, 100_000_000))
        },
        None => None,
    }
}

/// The price of a symbol in the currency of the account; none without a quote.
pub open spec fn pris_i_kr(st: UiState, symbol: Seq<char>) -> Option<int> {
    if !st.quotes@.dom().contains(symbol) {
        None
    } else {
        let q = st.quotes@[symbol];
        let kurs = if q.currency@.len() == 0 {
            100_000_000
        } else {
            kurs_paa(st.fx_rates@, q.currency@)
        };
        multi::omregnet(q.last as int, kurs)
    }
}

fn finn_pris(st: &UiState, symbol: &str) -> (r: Option<i64>)
    requires
        st.gyldig(),
    ensures
        r is Some == pris_i_kr(*st, symbol@) is Some,
        r matches Some(p) ==> pris_i_kr(*st, symbol@) == Some(p as int),
{
    let q: &Quote = match st.quotes.hent(symbol) {
        Some(q) => q,
        None => return None,
    };
    let kurs: i64 = if q.currency.as_str().unicode_len() == 0 {
        100_000_000
    } else {
        finn_kurs_paa(&st.fx_rates, q.currency.as_str())
    };
    multi::omregn(q.last, kurs)
}

/// What is held of a symbol is worth, and none where it is held without a price.
pub open spec fn verdi_i_kr(st: UiState, symbol: Seq<char>) -> Option<int> {
    let n = engine::antall_av(types::posisjoner(st.positions@), symbol);
    if n <= 0 {
        Some(0)
    } else {
        match pris_i_kr(st, symbol) {
            Some(p) => if p > 0 {
                Some(n * p)
            } else {
                Some(0)
            },
            None => None,
        }
    }
}

fn finn_verdi(st: &UiState, symbol: &str) -> (r: Option<i128>)
    requires
        st.gyldig(),
    ensures
        r is Some == verdi_i_kr(*st, symbol@) is Some,
        r matches Some(v) ==> verdi_i_kr(*st, symbol@) == Some(v as int) && v >= 0,
{
    let n: i64 = holdt_antall(&st.positions, symbol);
    if n <= 0 {
        return Some(0);
    }
    match finn_pris(st, symbol) {
        Some(p) => if p > 0 {
            proof {
                types::lemma_produkt(n as int, p as int);
                assert(n * p >= 0) by (nonlinear_arith)
                    requires
                        n > 0,
                        p > 0,
                ;
            }
            Some(n as i128 * p as i128)
        } else {
            Some(0)
        },
        None => None,
    }
}

/// What the symbols of a list but one hold together; none where it cannot be
/// counted.
pub open spec fn andre_verdier(st: UiState, l: Seq<Seq<char>>, symbol: Seq<char>) -> Option<int>
    decreases l.len(),
{
    if l.len() == 0 {
        Some(0)
    } else {
        let denne = if l.last() == symbol {
            Some(0int)
        } else {
            verdi_i_kr(st, l.last())
        };
        match (andre_verdier(st, l.drop_last(), symbol), denne) {
            (Some(a), Some(b)) => if a + b <= i128::MAX {
                Some(a + b)
            } else {
                None
            },
            _ => None,
        }
    }
}

fn finn_andre(st: &UiState, l: &Vec<String>, symbol: &str) -> (r: Option<i128>)
    requires
        st.gyldig(),
    ensures
        r is Some == andre_verdier(*st, text::views(l@), symbol@) is Some,
        r matches Some(v) ==> andre_verdier(*st, text::views(l@), symbol@) == Some(v as int) && v >= 0,
{
    let ghost alle = text::views(l@);
    let mut sum: Option<i128> = Some(0);
    let mut i: usize = 0;
    assert(alle.take(0) =~= Seq::empty());
    while i < l.len()
        invariant
            i <= l@.len(),
            st.gyldig(),
            alle == text::views(l@),
            sum is Some == andre_verdier(*st, alle.take(i as int), symbol@) is Some,
            sum matches Some(v) ==> andre_verdier(*st, alle.take(i as int), symbol@) == Some(v as int) && v >= 0,
        decreases l.len() - i,
    {
        proof {
            assert(alle.take(i + 1).drop_last() =~= alle.take(i as int));
            assert(alle.take(i + 1).last() == l@[i as int]@);
        }
        let denne: Option<i128> = if same(l[i].as_str(), symbol) {
            Some(0)
        } else {
            finn_verdi(st, l[i].as_str())
        };
        sum = match (sum, denne) {
            (Some(a), Some(b)) => a.checked_add(b),
            _ => None,
        };
        i += 1;
    }
    assert(alle.take(i as int) =~= alle);
    sum
}

/// What a decision on a symbol rests on; none without a quote.
pub open spec fn puls_av(st: UiState, ap: AutopilotCfg, symbol: Seq<char>) -> Option<Puls> {
    match (pris_i_kr(st, symbol), andre_verdier(st, config::rene(ap.skrevne()), symbol), kontanter_i_kr(st)) {
        (Some(p), Some(a), Some(c)) => Some(
            Puls {
                pris: p as i64,
                holdt: engine::antall_av(types::posisjoner(st.positions@), symbol) as i64,
                andre: a as i128,
                kontanter: c as i128,
            },
        ),
        _ => None,
    }
}

pub fn finn_puls(st: &UiState, ap: &AutopilotCfg, symbol: &str) -> (r: Option<Puls>)
    requires
        st.gyldig(),
    ensures
        r == puls_av(*st, *ap, symbol@),
{
    match (finn_pris(st, symbol), finn_andre(st, &ap.active_symbols(), symbol), finn_kontanter(st)) {
        (Some(pris), Some(andre), Some(kontanter)) => Some(
            Puls { pris, holdt: holdt_antall(&st.positions, symbol), andre, kontanter },
        ),
        _ => None,
    }
}

/// The prices that the day trader looks at: the last sixty candles of five
/// minutes, or the last sixty prices where there are none.
pub open spec fn lysene(st: UiState, symbol: Seq<char>) -> Seq<i64> {
    let c = if st.candles_intraday@.dom().contains(symbol) {
        state::sluttkurser(st.candles_intraday@[symbol]@)
    } else {
        Seq::empty()
    };
    if c.len() > 0 {
        state::siste(c, 60)
    } else if st.history@.dom().contains(symbol) {
        state::siste(state::priser(st.history@[symbol]@), 60)
    } else {
        Seq::empty()
    }
}

fn finn_lys(st: &UiState, symbol: &str) -> (r: Vec<i64>)
    requires
        st.gyldig(),
    ensures
        r@ == lysene(*st, symbol@),
{
    if let Some(c) = st.candles_intraday.hent(symbol) {
        if c.len() > 0 {
            let mut v: Vec<i64> = hent_sluttkurser(c);
            behold_siste(&mut v, 60);
            return v;
        }
    }
    if let Some(h) = st.history.hent(symbol) {
        let mut v: Vec<i64> = hent_priser(h);
        behold_siste(&mut v, 60);
        return v;
    }
    let tom: Vec<i64> = Vec::new();
    assert(tom@ =~= lysene(*st, symbol@));
    tom
}

/// Candles of an hour: the last of every twelve.
pub open spec fn timelys(l: Seq<i64>) -> Seq<i64> {
    Seq::new(
        ((l.len() + 11) / 12) as nat,
        |i: int|
            if 12 * i + 11 < l.len() {
                l[12 * i + 11]
            } else {
                l.last()
            },
    )
}

pub fn til_timer(l: &Vec<i64>) -> (r: Vec<i64>)
    ensures
        r@ == timelys(l@),
{
    let mut ut: Vec<i64> = Vec::new();
    let mut i: usize = 0;
    while i < l.len()
        invariant
            i <= l@.len(),
            i < l@.len() ==> i == 12 * ut@.len(),
            i == l@.len() ==> ut@.len() == (l@.len() + 11) / 12,
            ut@.len() <= (l@.len() + 11) / 12,
            ut@ =~= timelys(l@).take(ut@.len() as int),
        decreases l@.len() - i,
    {
        let igjen: usize = l.len() - i;
        if igjen >= 12 {
            ut.push(l[i + 11]);
            i += 12;
        } else {
            ut.push(l[l.len() - 1]);
            i = l.len();
        }
    }
    assert(ut@ =~= timelys(l@));
    ut
}

/// Which way the hours go.
pub open spec fn trend(l: Seq<i64>) -> Seq<char> {
    if l.len() > 0 && l.last() > l[0] {
        "opp"@
    } else if l.len() > 0 && l.last() < l[0] {
        "ned"@
    } else {
        "flat/ukjent"@
    }
}

pub fn finn_trend(l: &Vec<i64>) -> (r: &'static str)
    ensures
        r@ == trend(l@),
{
    let n: usize = l.len();
    if n > 0 && l[n - 1] > l[0] {
        "opp"
    } else if n > 0 && l[n - 1] < l[0] {
        "ned"
    } else {
        "flat/ukjent"
    }
}

/// The budget that is left to all its symbols: never over the cash.
pub open spec fn ledig(budsjett: int, p: Puls) -> int {
    let igjen = budsjett * 100_000_000 - p.holdt * p.pris - p.andre;
    let plass = if igjen > 0 {
        igjen
    } else {
        0
    };
    if plass < p.kontanter {
        plass
    } else {
        p.kontanter as int
    }
}

fn regn_ledig(budsjett: i64, p: Puls) -> (r: i128)
    ensures
        r == ledig(budsjett as int, p),
{
    proof {
        types::lemma_produkt(p.holdt as int, p.pris as int);
    }
    let uten_andre: i128 = budsjett as i128 * 100_000_000 - p.holdt as i128 * p.pris as i128;
    let igjen: i128 = match uten_andre.checked_sub(p.andre) {
        Some(v) => v,
        None => if p.andre > 0 {
            0
        } else {
            i128::MAX
        },
    };
    let plass: i128 = if igjen > 0 {
        igjen
    } else {
        0
    };
    if plass < p.kontanter {
        plass
    } else {
        p.kontanter
    }
}

/// A percentage with two decimals, half away from nothing.
pub open spec fn to_desimaler(v: int) -> int {
    if v < 0 {
        -((-v + 500_000) / 1_000_000 * 1_000_000)
    } else {
        (v + 500_000) / 1_000_000 * 1_000_000
    }
}

fn rund(v: i128) -> (r: i128)
    requires
        -0x10_0000_0000_0000_0000 <= v <= 0x10_0000_0000_0000_0000,
    ensures
        r == to_desimaler(v as int),
{
    if v < 0 {
        -((-v + 500_000) / 1_000_000 * 1_000_000)
    } else {
        (v + 500_000) / 1_000_000 * 1_000_000
    }
}

/// What a purchase and a sale cost, in per cent: the fee twice and the slip
/// once, and the spread where it is known.
pub open spec fn rundtur(b: BacktestCfg, spread: Option<i64>) -> int {
    b.commission_pct * 2 + b.slippage_pct + (match spread {
        Some(s) => s as int,
        None => 0,
    })
}

pub open spec fn tallrekke(l: Seq<i64>) -> JsonView {
    JsonView::Arr(Seq::new(l.len(), |i: int| kontekst::tall(l[i] as int)))
}

fn lag_tallrekke(l: &Vec<i64>) -> (r: Json)
    ensures
        r@ == tallrekke(l@),
{
    let mut ut: Vec<Json> = Vec::new();
    let mut i: usize = 0;
    while i < l.len()
        invariant
            i <= l@.len(),
            ut@.len() == i,
            forall|k: int| 0 <= k < i ==> (#[trigger] ut@[k])@ == kontekst::tall(l@[k] as int),
        decreases l.len() - i,
    {
        ut.push(kontekst::lag_tall(l[i] as i128));
        i += 1;
    }
    assert(json::syner(ut@) =~= tallrekke(l@)->Arr_0);
    json::liste_av(ut)
}

pub open spec fn urealisert(st: UiState, symbol: Seq<char>) -> int {
    match crate::broker::paper::holdt(types::posisjoner(st.positions@), symbol) {
        Some(p) => kontekst::gevinst(p),
        None => 0,
    }
}

pub open spec fn posisjon_json(st: UiState, symbol: Seq<char>, p: Puls, t: Tilstand) -> JsonView {
    JsonView::Obj(
        seq![
            ("antall"@, kontekst::tall(p.holdt as int)),
            ("verdi_kr"@, kontekst::verdi(p.holdt * p.pris)),
            ("urealisert_kr"@, kontekst::verdi(urealisert(st, symbol))),
            (
                "min_snittkurs_kr"@,
                if t.egne > 0 {
                    kontekst::tall(t.snitt)
                } else {
                    JsonView::Null
                },
            ),
        ],
    )
}

pub open spec fn puls_json(
    st: UiState,
    ap: AutopilotCfg,
    symbol: Seq<char>,
    kost: BacktestCfg,
    p: Puls,
    t: Tilstand,
    spread: Option<i64>,
    laerdom: Seq<char>,
) -> JsonView {
    let q = st.quotes@[symbol]@;
    let lys = lysene(st, symbol);
    JsonView::Obj(
        seq![
            ("symbol"@, JsonView::Str(symbol)),
            ("kurs"@, kontekst::tall(q.last)),
            ("valuta"@, JsonView::Str(q.currency)),
            ("endring_i_dag_pct"@, kontekst::tall(types::endring_pct(q.last, q.prev_close))),
            ("rsi_14"@, kontekst::kanskje_tall(market::rsi_verdi(lys, 14))),
            ("siste_5min_lys"@, tallrekke(state::siste(lys, 24))),
            ("storbilde_1time_trend"@, JsonView::Str(trend(timelys(lys)))),
            ("storbilde_1time_lys"@, tallrekke(timelys(lys))),
            ("rundtur_kostnad_pct"@, kontekst::tall(to_desimaler(rundtur(kost, spread)))),
            (
                "spread_pct_naa"@,
                match spread {
                    Some(s) => kontekst::tall(to_desimaler(s as int)),
                    None => JsonView::Null,
                },
            ),
            ("posisjon"@, posisjon_json(st, symbol, p, t)),
            ("budsjett_kr"@, kontekst::tall(ap.budget_kr as int)),
            ("ledig_budsjett_kr"@, kontekst::verdi(ledig(ap.budget_kr as int, p))),
            ("kontanter_kr"@, kontekst::verdi(p.kontanter as int)),
            ("handler_i_dag"@, JsonView::Hel(t.handler)),
            ("maks_handler_per_dag"@, JsonView::Hel(ap.max_trades_per_day as int)),
            ("ca_realisert_i_dag_kr"@, kontekst::verdi(t.realisert)),
            ("min_laerdom_hittil"@, JsonView::Str(laerdom)),
            (
                "mine_siste_beslutninger"@,
                JsonView::Arr(Seq::new(t.grunner.len(), |i: int| JsonView::Str(t.grunner[i]))),
            ),
        ],
    )
}

impl Autopilot {
    fn lag_posisjon(&self, st: &UiState, symbol: &str, p: Puls) -> (r: Json)
        requires
            self.own.ordnet(),
        ensures
            r@ == posisjon_json(*st, symbol@, p, self@.ved(symbol@)),
    {
        proof {
            types::lemma_produkt(p.holdt as int, p.pris as int);
        }
        let ur: i128 = match finn_posisjon(&st.positions, symbol) {
            Some(x) => x.unrealized(),
            None => 0,
        };
        let e: Egne = self.finn_egne(symbol);
        let snitt: Json = if e.antall > 0 {
            kontekst::lag_tall(e.snitt as i128)
        } else {
            Json::Null
        };
        let verdi: i128 = p.holdt as i128 * p.pris as i128;
        let l: Vec<(String, Json)> = vec![
            json::felt_av("antall", kontekst::lag_tall(p.holdt as i128)),
            json::felt_av("verdi_kr", kontekst::lag_verdi(verdi)),
            json::felt_av("urealisert_kr", kontekst::lag_verdi(ur)),
            json::felt_av("min_snittkurs_kr", snitt),
        ];
        assert(json::par(l@) =~= posisjon_json(*st, symbol@, p, self@.ved(symbol@))->Obj_0);
        json::objekt(l)
    }

    /// The picture that a decision is made on. It takes a quote of the symbol.
    #[verifier::spinoff_prover]
    #[verifier::rlimit(30)]
    pub fn kontekst(
        &self,
        st: &UiState,
        ap: &AutopilotCfg,
        symbol: &str,
        kost: &BacktestCfg,
        p: Puls,
        spread: Option<i64>,
        laerdom: &str,
    ) -> (r: Option<String>)
        requires
            st.gyldig(),
            self.own.ordnet(),
        ensures
            r is Some == st.quotes@.dom().contains(symbol@),
            r matches Some(t) ==> t@ == json::json_kompakt(
                json::lagt(puls_json(*st, *ap, symbol@, *kost, p, self@.ved(symbol@), spread, laerdom@)),
            ),
    {
        let q: &Quote = match st.quotes.hent(symbol) {
            Some(q) => q,
            None => return None,
        };
        let ghost hele = puls_json(*st, *ap, symbol@, *kost, p, self@.ved(symbol@), spread, laerdom@)->Obj_0;
        let lys: Vec<i64> = finn_lys(st, symbol);
        assert(lys@.len() <= 60);
        let timer: Vec<i64> = til_timer(&lys);
        let mut siste: Vec<i64> = finn_lys(st, symbol);
        behold_siste(&mut siste, 24);
        let fast: i128 = kost.commission_pct as i128 * 2 + kost.slippage_pct as i128;
        let tur: i128 = match spread {
            Some(s) => fast + s as i128,
            None => fast,
        };
        let sp: Json = match spread {
            Some(s) => kontekst::lag_tall(rund(s as i128)),
            None => Json::Null,
        };
        let l: Vec<(String, Json)> = vec![
            json::felt_av("symbol", json::tekst(symbol)),
            json::felt_av("kurs", kontekst::lag_tall(q.last as i128)),
            json::felt_av("valuta", json::tekst(q.currency.as_str())),
            json::felt_av("endring_i_dag_pct", kontekst::lag_tall(q.change_pct())),
            json::felt_av("rsi_14", kontekst::lag_kanskje_tall(market::rsi(lys.as_slice(), 14))),
            json::felt_av("siste_5min_lys", lag_tallrekke(&siste)),
            json::felt_av("storbilde_1time_trend", json::tekst(finn_trend(&timer))),
            json::felt_av("storbilde_1time_lys", lag_tallrekke(&timer)),
            json::felt_av("rundtur_kostnad_pct", kontekst::lag_tall(rund(tur))),
            json::felt_av("spread_pct_naa", sp),
            json::felt_av("posisjon", self.lag_posisjon(st, symbol, p)),
            json::felt_av("budsjett_kr", kontekst::lag_tall(ap.budget_kr as i128)),
            json::felt_av("ledig_budsjett_kr", kontekst::lag_verdi(regn_ledig(ap.budget_kr, p))),
            json::felt_av("kontanter_kr", kontekst::lag_verdi(p.kontanter)),
            json::felt_av("handler_i_dag", Json::Hel(self.trades_today as i128)),
            json::felt_av("maks_handler_per_dag", Json::Hel(ap.max_trades_per_day as i128)),
            json::felt_av("ca_realisert_i_dag_kr", kontekst::lag_verdi(self.day_realized)),
            json::felt_av("min_laerdom_hittil", json::tekst(laerdom)),
            json::felt_av("mine_siste_beslutninger", kontekst::lag_tekster(&self.last_reasons)),
        ];
        proof {
            assert(l@[18].1@->Arr_0 =~= hele[18].1->Arr_0);
            assert(json::par(l@).len() == hele.len());
            assert(json::par(l@) =~= hele);
        }
        Some(json::skriv(&json::objekt(l)))
    }
}

// ---------------------------------------------------------------------------
// A pulse
// ---------------------------------------------------------------------------

/// What a pulse comes to before the model is asked.
#[derive(Debug)]
pub enum Pulssteg {
    Ingenting,
    /// It writes this in the journal and rests.
    Journal(String),
    /// The model is asked, with this picture.
    Spor { kontekst: String, puls: Puls },
}

/// The quota of the day is used up.
pub open spec fn kvotetekst() -> Seq<char> {
    "Dagens handelskvote er brukt — hviler til i morgen."@
}

pub open spec fn dagstap_tekst(realisert: int) -> Seq<char> {
    "🛑 Dagstap-bremsen slo inn ("@ + belop::verdi_tekst(realisert, 0) + " kr) — hviler til i morgen."@
}

/// Whether the screen says already that the loss of the day stopped it.
pub open spec fn meldt_dagstap(st: UiState) -> bool {
    st.autopilot_status matches Some(s) && text::has(s@, "dagstap"@)
}

impl Autopilot {
    /// A pulse for one symbol: the model is asked only where neither the kill
    /// switch nor the pause is on, the symbol is one of those that are traded,
    /// the day has not lost too much, the exchange of the symbol is open, the
    /// symbol has a price, and the quota is not used up.
    pub fn pulsslag(
        &self,
        st: &UiState,
        flags: &Flags,
        ap: &AutopilotCfg,
        symbol: &str,
        kost: &BacktestCfg,
        spread: Option<i64>,
        laerdom: &str,
        naa: i64,
    ) -> (r: Pulssteg)
        requires
            st.gyldig(),
            self.gyldig(),
        ensures
            (match puls_av(*st, *ap, symbol@) {
                _ if flags.killed || flags.paused => r is Ingenting,
                _ if !config::rene(ap.skrevne()).contains(symbol@) => r is Ingenting,
                _ if bremset(ap.max_day_loss_kr as int, self@.realisert) => if meldt_dagstap(*st) {
                    r is Ingenting
                } else {
                    r is Journal && r->Journal_0@ == dagstap_tekst(self@.realisert)
                },
                _ if !marketdata::aapent_ved(symbol@, naa as int) => r is Ingenting,
                None => r is Ingenting,
                Some(p) => if p.pris <= 0 {
                    r is Ingenting
                } else if self@.handler >= ap.max_trades_per_day {
                    r is Journal && r->Journal_0@ == kvotetekst()
                } else {
                    r is Spor && r->puls == p && r->kontekst@ == json::json_kompakt(
                        json::lagt(
                            puls_json(*st, *ap, symbol@, *kost, p, self@.ved(symbol@), spread, laerdom@),
                        ),
                    )
                },
            }),
            r is Spor == sporres(self@, *st, *flags, *ap, symbol@, naa as int),
    {
        if flags.killed || flags.paused {
            return Pulssteg::Ingenting;
        }
        if !text::holds(&ap.active_symbols(), symbol) {
            return Pulssteg::Ingenting;
        }
        match self.dagstap(ap.max_day_loss_kr, &st.autopilot_status) {
            Brems::Nei => {},
            Brems::Hviler => return Pulssteg::Ingenting,
            Brems::Slo(t) => return Pulssteg::Journal(t),
        }
        if !marketdata::is_trading_open(symbol, naa) {
            return Pulssteg::Ingenting;
        }
        let p: Puls = match finn_puls(st, ap, symbol) {
            Some(p) => p,
            None => return Pulssteg::Ingenting,
        };
        if p.pris <= 0 {
            return Pulssteg::Ingenting;
        }
        if let Some(t) = self.kvote(ap) {
            return Pulssteg::Journal(t.to_owned());
        }
        match self.kontekst(st, ap, symbol, kost, p, spread, laerdom) {
            Some(kontekst) => Pulssteg::Spor { kontekst, puls: p },
            None => Pulssteg::Ingenting,
        }
    }
}

// ---------------------------------------------------------------------------
// Decisions
// ---------------------------------------------------------------------------

/// What a decision leads to.
#[derive(Debug)]
pub struct Handling {
    pub journal: String,
    pub ordre: Option<(String, Side, i64)>,
    pub toast: Option<String>,
}

#[verifier::ext_equal]
pub struct HandlingSyn {
    pub journal: Seq<char>,
    pub ordre: Option<(Seq<char>, Side, int)>,
    pub toast: Option<Seq<char>>,
}

pub open spec fn ordresyn(o: Option<(String, Side, i64)>) -> Option<(Seq<char>, Side, int)> {
    match o {
        Some(p) => Some((p.0@, p.1, p.2 as int)),
        None => None,
    }
}

impl View for Handling {
    type V = HandlingSyn;

    open spec fn view(&self) -> HandlingSyn {
        HandlingSyn {
            journal: self.journal@,
            ordre: ordresyn(self.ordre),
            toast: ordrer::valgfri(self.toast),
        }
    }
}

/// The decisions with one more; the oldest give way.
pub open spec fn husket(l: Seq<Seq<char>>, ny: Seq<char>) -> Seq<Seq<char>> {
    state::siste(l.push(ny), MEST_GRUNNER as nat)
}

pub open spec fn bare_journal(t: Seq<char>) -> HandlingSyn {
    HandlingSyn { journal: t, ordre: None, toast: None }
}

pub open spec fn en_til(n: int) -> int {
    if n < u32::MAX {
        n + 1
    } else {
        n
    }
}

/// To wait.
pub open spec fn avventet(t: Tilstand, grunn: Seq<char>, klokke: Seq<char>) -> (Tilstand, HandlingSyn) {
    (
        Tilstand { grunner: husket(t.grunner, klokke + " AVVENT: "@ + grunn), ..t },
        bare_journal("AVVENT — "@ + grunn),
    )
}

/// How many an amount buys.
pub open spec fn kjopsantall(sum: int, pris: int, krypto: bool) -> int {
    if krypto {
        ordrer::klemt(belop::kvotient(sum, pris))
    } else {
        ordrer::klemt(belop::kvotient(sum, pris * 100_000_000) * 100_000_000)
    }
}

/// What a purchase is for: never more than the budget or the cash allow.
pub open spec fn kjopesum(belop_kr: int, budsjett: int, p: Puls) -> int {
    if belop_kr * 100_000_000 < ledig(budsjett, p) {
        belop_kr * 100_000_000
    } else {
        ledig(budsjett, p)
    }
}

pub open spec fn i_kjoletid(t: Tilstand, naa: u64) -> bool {
    t.kjoletid matches Some(til) && naa < til
}

/// To buy.
pub open spec fn kjopt(
    t: Tilstand,
    belop_kr: int,
    grunn: Seq<char>,
    ap: AutopilotCfg,
    symbol: Seq<char>,
    p: Puls,
    klokke: Seq<char>,
    naa: u64,
) -> (Tilstand, HandlingSyn) {
    let sum = kjopesum(belop_kr, ap.budget_kr as int, p);
    let n = kjopsantall(sum, p.pris as int, types::krypto(symbol));
    if i_kjoletid(t, naa) {
        (t, bare_journal("Kjøletid etter tap — hopper over kjøp. ("@ + grunn + ")"@))
    } else if n > 0 && sum > 10_000_000_000_000_000 {
        (
            Tilstand {
                handler: en_til(t.handler),
                snitt: belop::kvotient(t.snitt * t.egne + p.pris * n, t.egne + n),
                egne: ordrer::klemt(t.egne + n),
                grunner: husket(t.grunner, klokke + " KJØP: "@ + grunn),
                ..t
            },
            HandlingSyn {
                journal: "🟢 KJØP for "@ + belop::verdi_tekst(sum, 0) + (" kr @ "@ + belop::belop_tekst(
                    p.pris as int,
                    0,
                ) + (" — "@ + grunn)),
                ordre: Some((symbol, Side::Buy, n)),
                toast: Some("🤖 Daytrader: KJØP "@ + symbol + (" for "@ + belop::verdi_tekst(sum, 0) + " kr"@)),
            },
        )
    } else {
        (t, bare_journal("Ville kjøpt, men budsjettet er fullt — "@ + grunn))
    }
}

/// How many are sold: all of them where nine tenths or more are meant.
pub open spec fn salgsantall(belop_kr: int, p: Puls, krypto: bool) -> int {
    let onsket = ordrer::klemt(belop::kvotient(belop_kr * 100_000_000, p.pris as int));
    let n = if onsket * 10 >= p.holdt * 9 {
        p.holdt as int
    } else {
        onsket
    };
    if krypto {
        n
    } else {
        belop::kvotient(n, 100_000_000) * 100_000_000
    }
}

/// What a sale brings against the mean price of what was bought.
pub open spec fn salgsgevinst(t: Tilstand, pris: int, n: int) -> int {
    (pris - t.snitt) * (if n < t.egne {
        n
    } else {
        t.egne
    })
}

pub open spec fn lagt_sammen(a: int, b: int) -> int {
    if a + b > i128::MAX {
        i128::MAX as int
    } else if a + b < i128::MIN {
        i128::MIN as int
    } else {
        a + b
    }
}

/// A time so many minutes on.
pub open spec fn om_minutter(naa: u64, minutter: u64) -> u64 {
    if naa + minutter * 60_000_000_000 > u64::MAX {
        u64::MAX
    } else {
        (naa + minutter * 60_000_000_000) as u64
    }
}

pub open spec fn resultat_tekst(t: Tilstand, realisert: int) -> Seq<char> {
    if t.egne <= 0 {
        " ("@ + engine::rapport::verdi_med_fortegn(realisert) + " kr realisert)"@
    } else {
        Seq::empty()
    }
}

/// What is remembered after a sale of so many.
pub open spec fn etter_salg(t: Tilstand, n: int, ap: AutopilotCfg, p: Puls, naa: u64) -> Tilstand {
    let realisert = salgsgevinst(t, p.pris as int, n);
    let igjen = if t.egne > n {
        t.egne - n
    } else {
        0
    };
    if t.egne > 0 {
        Tilstand {
            handler: en_til(t.handler),
            realisert: lagt_sammen(t.realisert, realisert),
            egne: igjen,
            snitt: if igjen <= 0 {
                0
            } else {
                t.snitt
            },
            kjoletid: if realisert < 0 && ap.cooldown_min > 0 {
                Some(om_minutter(naa, ap.cooldown_min))
            } else {
                t.kjoletid
            },
            ..t
        }
    } else {
        Tilstand { handler: en_til(t.handler), ..t }
    }
}

/// To sell.
pub open spec fn solgt(
    t: Tilstand,
    belop_kr: int,
    grunn: Seq<char>,
    ap: AutopilotCfg,
    symbol: Seq<char>,
    p: Puls,
    klokke: Seq<char>,
    naa: u64,
) -> (Tilstand, HandlingSyn) {
    let n = salgsantall(belop_kr, p, types::krypto(symbol));
    if n > 0 && p.holdt > 0 {
        let e = etter_salg(t, n, ap, p, naa);
        (
            Tilstand { grunner: husket(t.grunner, klokke + " SELG: "@ + grunn), ..e },
            HandlingSyn {
                journal: "🔴 SELG for ca. "@ + belop::verdi_tekst(n * p.pris, 0) + (" kr"@ + resultat_tekst(
                    e,
                    salgsgevinst(t, p.pris as int, n),
                ) + (" — "@ + grunn)),
                ordre: Some((symbol, Side::Sell, n)),
                toast: Some("🤖 Daytrader: SELG "@ + symbol),
            },
        )
    } else {
        (t, bare_journal("Ville solgt, men eier ingenting — "@ + grunn))
    }
}

/// What a decision does.
pub open spec fn besluttet(
    t: Tilstand,
    d: Beslutning,
    ap: AutopilotCfg,
    symbol: Seq<char>,
    p: Puls,
    klokke: Seq<char>,
    naa: u64,
) -> (Tilstand, HandlingSyn) {
    match d {
        Beslutning::Hold { reason } => avventet(t, reason, klokke),
        Beslutning::Buy { amount_kr, reason } => kjopt(t, amount_kr, reason, ap, symbol, p, klokke, naa),
        Beslutning::Sell { amount_kr, reason } => solgt(t, amount_kr, reason, ap, symbol, p, klokke, naa),
    }
}

fn regn_kjopsantall(sum: i128, pris: i64, krypto: bool) -> (r: i64)
    requires
        pris > 0,
        sum > i128::MIN,
    ensures
        r == kjopsantall(sum as int, pris as int, krypto),
{
    let v: i128 = if krypto {
        belop::del(sum, pris as i128)
    } else {
        let d: i128 = belop::del(sum, pris as i128 * 100_000_000);
        proof {
            lemma_hele(sum as int, pris as int);
        }
        d * 100_000_000
    };
    if v > i64::MAX as i128 {
        i64::MAX
    } else if v < i64::MIN as i128 {
        i64::MIN
    } else {
        v as i64
    }
}

proof fn lemma_hele(sum: int, pris: int)
    requires
        pris > 0,
        i128::MIN < sum <= i128::MAX,
    ensures
        i128::MIN < belop::kvotient(sum, pris * 100_000_000) * 100_000_000 <= i128::MAX,
{
    let m = if sum < 0 {
        -sum
    } else {
        sum
    };
    let e = pris * 100_000_000;
    let q = m / e;
    assert(0 <= q && q * 100_000_000 <= m) by (nonlinear_arith)
        requires
            q == m / e,
            e >= 100_000_000,
            m >= 0,
    ;
}

fn minutter_frem(naa: u64, minutter: u64) -> (r: u64)
    ensures
        r == om_minutter(naa, minutter),
{
    let t: u128 = naa as u128 + minutter as u128 * 60_000_000_000;
    if t > u64::MAX as u128 {
        u64::MAX
    } else {
        t as u64
    }
}

impl Autopilot {
    fn husk(&mut self, klokke: &str, ord: &str, grunn: &str)
        ensures
            final(self)@ == (Minne { grunner: husket(old(self)@.grunner, klokke@ + ord@ + grunn@), ..old(self)@ }),
            final(self).own == old(self).own,
    {
        let ghost for_ = text::views(self.last_reasons@);
        self.last_reasons.push(three(klokke, ord, grunn));
        let ghost alle = self.last_reasons@;
        assert(text::views(alle) =~= for_.push(klokke@ + ord@ + grunn@));
        behold_siste(&mut self.last_reasons, MEST_GRUNNER);
        assert(text::views(self.last_reasons@) =~= state::siste(text::views(alle), MEST_GRUNNER as nat));
    }

    fn tell_handel(&mut self)
        ensures
            final(self)@ == (Minne { handler: en_til(old(self)@.handler), ..old(self)@ }),
            final(self).own == old(self).own,
    {
        if self.trades_today < u32::MAX {
            self.trades_today = self.trades_today + 1;
        }
    }

    fn kjop(
        &mut self,
        belop_kr: i64,
        grunn: &str,
        ap: &AutopilotCfg,
        symbol: &str,
        p: Puls,
        klokke: &str,
        naa: u64,
    ) -> (r: Handling)
        requires
            old(self).gyldig(),
            p.pris > 0,
        ensures
            final(self).gyldig(),
            (final(self)@.ved(symbol@), r@) == kjopt(
                old(self)@.ved(symbol@),
                belop_kr as int,
                grunn@,
                *ap,
                symbol@,
                p,
                klokke@,
                naa,
            ),
            final(self)@.like_utenom(old(self)@, symbol@),
    {
        if let Some(til) = self.cooldown_until {
            if naa < til {
                return Handling {
                    journal: three("Kjøletid etter tap — hopper over kjøp. (", grunn, ")"),
                    ordre: None,
                    toast: None,
                };
            }
        }
        let plass: i128 = regn_ledig(ap.budget_kr, p);
        let onsket: i128 = belop_kr as i128 * 100_000_000;
        let sum: i128 = if onsket < plass {
            onsket
        } else {
            plass
        };
        let n: i64 = if sum > 10_000_000_000_000_000 {
            regn_kjopsantall(sum, p.pris, types::is_crypto(symbol))
        } else {
            0
        };
        if n > 0 {
            self.tell_handel();
            let e: Egne = self.finn_egne(symbol);
            let total: i128 = e.antall as i128 + n as i128;
            proof {
                lemma_snitt(e.snitt as int, e.antall as int, p.pris as int, n as int);
            }
            let vekt: i128 = e.snitt as i128 * e.antall as i128 + p.pris as i128 * n as i128;
            let ny: i128 = belop::del(vekt, total);
            let antall: i64 = if total > i64::MAX as i128 {
                i64::MAX
            } else {
                total as i64
            };
            self.own.sett(symbol, Egne { antall, snitt: ny as i64 });
            self.husk(klokke, " KJØP: ", grunn);
            let sc: Vec<char> = belop::skriv(sum, 16, 0);
            let st: String = string_of(sc.as_slice());
            let pt: String = belop::som_tekst(p.pris, 0);
            let c: String = two(" — ", grunn);
            let b: String = three(" kr @ ", pt.as_str(), c.as_str());
            let th: String = three(" for ", st.as_str(), " kr");
            let r: Handling = Handling {
                journal: three("🟢 KJØP for ", st.as_str(), b.as_str()),
                ordre: Some((symbol.to_owned(), Side::Buy, n)),
                toast: Some(three("🤖 Daytrader: KJØP ", symbol, th.as_str())),
            };
            assert(self@.ved(symbol@) =~= kjopt(
                old(self)@.ved(symbol@),
                belop_kr as int,
                grunn@,
                *ap,
                symbol@,
                p,
                klokke@,
                naa,
            ).0);
            r
        } else {
            Handling { journal: two("Ville kjøpt, men budsjettet er fullt — ", grunn), ordre: None, toast: None }
        }
    }

    fn selg(
        &mut self,
        belop_kr: i64,
        grunn: &str,
        ap: &AutopilotCfg,
        symbol: &str,
        p: Puls,
        klokke: &str,
        naa: u64,
    ) -> (r: Handling)
        requires
            old(self).gyldig(),
            p.pris > 0,
        ensures
            final(self).gyldig(),
            (final(self)@.ved(symbol@), r@) == solgt(
                old(self)@.ved(symbol@),
                belop_kr as int,
                grunn@,
                *ap,
                symbol@,
                p,
                klokke@,
                naa,
            ),
            final(self)@.like_utenom(old(self)@, symbol@),
    {
        let v: i128 = belop::del(belop_kr as i128 * 100_000_000, p.pris as i128);
        let onsket: i128 = if v > i64::MAX as i128 {
            i64::MAX as i128
        } else if v < i64::MIN as i128 {
            i64::MIN as i128
        } else {
            v
        };
        let m: i128 = if onsket * 10 >= p.holdt as i128 * 9 {
            p.holdt as i128
        } else {
            onsket
        };
        let n: i128 = if types::is_crypto(symbol) {
            m
        } else {
            belop::del(m, 100_000_000) * 100_000_000
        };
        assert(n == salgsantall(belop_kr as int, p, types::krypto(symbol@)));
        if n <= 0 || p.holdt <= 0 {
            return Handling { journal: two("Ville solgt, men eier ingenting — ", grunn), ordre: None, toast: None };
        }
        let antall: i64 = n as i64;
        self.tell_handel();
        let e: Egne = self.finn_egne(symbol);
        let del_av: i64 = if antall < e.antall {
            antall
        } else {
            e.antall
        };
        let d: i128 = p.pris as i128 - e.snitt as i128;
        assert(i128::MIN <= d * del_av <= i128::MAX) by (nonlinear_arith)
            requires
                -0xffff_ffff_ffff_ffff <= d <= 0xffff_ffff_ffff_ffff,
                0 <= del_av <= 0x7fff_ffff_ffff_ffff,
        ;
        let realisert: i128 = d * del_av as i128;
        let igjen: i64 = if e.antall > antall {
            e.antall - antall
        } else {
            0
        };
        if e.antall > 0 {
            self.day_realized = match self.day_realized.checked_add(realisert) {
                Some(s) => s,
                None => if realisert > 0 {
                    i128::MAX
                } else {
                    i128::MIN
                },
            };
            let snitt: i64 = if igjen <= 0 {
                0
            } else {
                e.snitt
            };
            self.own.sett(symbol, Egne { antall: igjen, snitt });
            if realisert < 0 && ap.cooldown_min > 0 {
                self.cooldown_until = Some(minutter_frem(naa, ap.cooldown_min));
            }
        }
        assert(self@.ved(symbol@) =~= etter_salg(old(self)@.ved(symbol@), n as int, *ap, p, naa));
        let tom: String = string_of(&[]);
        assert(tom@ =~= Seq::empty());
        let res: String = if igjen <= 0 {
            let sc: Vec<char> = belop::skriv(realisert, 16, 0);
            let st: String = string_of(sc.as_slice());
            if realisert < 0 {
                three(" (", st.as_str(), " kr realisert)")
            } else {
                let pt: String = two("+", st.as_str());
                three(" (", pt.as_str(), " kr realisert)")
            }
        } else {
            tom
        };
        self.husk(klokke, " SELG: ", grunn);
        proof {
            types::lemma_produkt(antall as int, p.pris as int);
        }
        let kc: Vec<char> = belop::skriv(antall as i128 * p.pris as i128, 16, 0);
        let kt: String = string_of(kc.as_slice());
        let c: String = two(" — ", grunn);
        let b: String = three(" kr", res.as_str(), c.as_str());
        Handling {
            journal: three("🔴 SELG for ca. ", kt.as_str(), b.as_str()),
            ordre: Some((symbol.to_owned(), Side::Sell, antall)),
            toast: Some(two("🤖 Daytrader: SELG ", symbol)),
        }
    }

    /// Carries out a decision on one of the symbols that are traded: what is
    /// written, what is ordered, and what is remembered. What was bought of the
    /// other symbols stays as it is.
    pub fn utfor(
        &mut self,
        d: &AutopilotDecision,
        ap: &AutopilotCfg,
        symbol: &str,
        p: Puls,
        klokke: &str,
        naa: u64,
    ) -> (r: Handling)
        requires
            old(self).gyldig(),
            config::rene(ap.skrevne()).contains(symbol@),
            p.pris > 0,
        ensures
            final(self).gyldig(),
            (final(self)@.ved(symbol@), r@) == besluttet(old(self)@.ved(symbol@), d@, *ap, symbol@, p, klokke@, naa),
            final(self)@.like_utenom(old(self)@, symbol@),
            r@.ordre matches Some(o) ==> config::rene(ap.skrevne()).contains(o.0),
    {
        match d {
            AutopilotDecision::Hold { reason } => {
                self.husk(klokke, " AVVENT: ", reason.as_str());
                Handling { journal: two("AVVENT — ", reason.as_str()), ordre: None, toast: None }
            },
            AutopilotDecision::Buy { amount_kr, reason } => {
                self.kjop(*amount_kr, reason.as_str(), ap, symbol, p, klokke, naa)
            },
            AutopilotDecision::Sell { amount_kr, reason } => {
                self.selg(*amount_kr, reason.as_str(), ap, symbol, p, klokke, naa)
            },
        }
    }
}

/// A weighted mean lies between what it is the mean of.
proof fn lemma_snitt(a: int, m: int, b: int, n: int)
    requires
        i64::MIN <= a <= i64::MAX,
        0 <= m <= i64::MAX,
        0 < b <= i64::MAX,
        0 < n <= i64::MAX,
    ensures
        i128::MIN < a * m + b * n <= i128::MAX,
        -0x8000_0000_0000_0000int * 0x7fff_ffff_ffff_ffff <= a * m <= 0x7fff_ffff_ffff_ffff * 0x7fff_ffff_ffff_ffff,
        0 <= b * n <= 0x7fff_ffff_ffff_ffff * 0x7fff_ffff_ffff_ffff,
        i64::MIN <= belop::kvotient(a * m + b * n, m + n) <= i64::MAX,
{
    assert(-0x8000_0000_0000_0000int * 0x7fff_ffff_ffff_ffff <= a * m <= 0x7fff_ffff_ffff_ffff
        * 0x7fff_ffff_ffff_ffff) by (nonlinear_arith)
        requires
            -0x8000_0000_0000_0000 <= a <= 0x7fff_ffff_ffff_ffff,
            0 <= m <= 0x7fff_ffff_ffff_ffff,
    ;
    assert(0 <= b * n <= 0x7fff_ffff_ffff_ffff * 0x7fff_ffff_ffff_ffff) by (nonlinear_arith)
        requires
            0 < b <= 0x7fff_ffff_ffff_ffff,
            0 < n <= 0x7fff_ffff_ffff_ffff,
    ;
    let v = a * m + b * n;
    let t = m + n;
    assert(v <= 0x7fff_ffff_ffff_ffff * t && v >= -0x8000_0000_0000_0000 * t) by (nonlinear_arith)
        requires
            v == a * m + b * n,
            t == m + n,
            -0x8000_0000_0000_0000 <= a <= 0x7fff_ffff_ffff_ffff,
            0 < b <= 0x7fff_ffff_ffff_ffff,
            m >= 0,
            n > 0,
    ;
    if v < 0 {
        assert((-v) / t <= 0x8000_0000_0000_0000 && (-v) / t >= 0) by (nonlinear_arith)
            requires
                v < 0,
                t > 0,
                v >= -0x8000_0000_0000_0000 * t,
        ;
    } else {
        assert(v / t <= 0x7fff_ffff_ffff_ffff && v / t >= 0) by (nonlinear_arith)
            requires
                v >= 0,
                t > 0,
                v <= 0x7fff_ffff_ffff_ffff * t,
        ;
    }
}

// ---------------------------------------------------------------------------
// What always holds
// ---------------------------------------------------------------------------

/// The budget is shared: what any of the other symbols holds is taken from what
/// is left of it.
pub proof fn law_budsjettet_deles(st: UiState, ap: AutopilotCfg, symbol: Seq<char>, annen: Seq<char>)
    requires
        puls_av(st, ap, symbol) is Some,
        config::rene(ap.skrevne()).contains(annen),
        annen != symbol,
    ensures
        0 <= andre_verdier(st, config::rene(ap.skrevne()), symbol)->0,
        verdi_i_kr(st, annen) is Some,
        0 <= verdi_i_kr(st, annen)->0 <= andre_verdier(st, config::rene(ap.skrevne()), symbol)->0,
{
    let l = config::rene(ap.skrevne());
    let i = choose|i: int| 0 <= i < l.len() && l[i] == annen;
    lemma_andre(st, l, symbol, i);
}

proof fn lemma_verdi(st: UiState, symbol: Seq<char>)
    ensures
        verdi_i_kr(st, symbol) matches Some(v) ==> v >= 0,
{
    let n = engine::antall_av(types::posisjoner(st.positions@), symbol);
    if n > 0 && pris_i_kr(st, symbol) is Some && pris_i_kr(st, symbol)->0 > 0 {
        let p = pris_i_kr(st, symbol)->0;
        assert(n * p >= 0) by (nonlinear_arith)
            requires
                n > 0,
                p > 0,
        ;
    }
}

proof fn lemma_andre(st: UiState, l: Seq<Seq<char>>, symbol: Seq<char>, i: int)
    requires
        andre_verdier(st, l, symbol) is Some,
    ensures
        andre_verdier(st, l, symbol)->0 >= 0,
        0 <= i < l.len() && l[i] != symbol ==> verdi_i_kr(st, l[i]) is Some && 0 <= verdi_i_kr(st, l[i])->0
            <= andre_verdier(st, l, symbol)->0,
    decreases l.len(),
{
    if l.len() > 0 {
        lemma_andre(st, l.drop_last(), symbol, i);
        lemma_verdi(st, l.last());
        if 0 <= i < l.len() - 1 {
            assert(l.drop_last()[i] == l[i]);
        }
    }
}

/// A purchase never exceeds the budget, counted with what is held already, nor
/// the cash, and none is made while the day trader cools down.
pub proof fn law_innenfor_budsjettet(
    t: Tilstand,
    belop_kr: int,
    grunn: Seq<char>,
    ap: AutopilotCfg,
    symbol: Seq<char>,
    p: Puls,
    klokke: Seq<char>,
    naa: u64,
)
    requires
        p.pris > 0,
    ensures
        kjopt(t, belop_kr, grunn, ap, symbol, p, klokke, naa).1.ordre matches Some((s, side, n)) ==> {
            &&& s == symbol
            &&& side == Side::Buy
            &&& n > 0
            &&& !i_kjoletid(t, naa)
            &&& n * p.pris <= p.kontanter
            &&& (p.holdt + n) * p.pris + p.andre <= ap.budget_kr * 100_000_000
            &&& n * p.pris <= belop_kr * 100_000_000
        },
{
    let sum = kjopesum(belop_kr, ap.budget_kr as int, p);
    let krypto = types::krypto(symbol);
    let pris = p.pris as int;
    let n = kjopsantall(sum, pris, krypto);
    if n > 0 && sum > 10_000_000_000_000_000 {
        if krypto {
            let q = sum / pris;
            assert(q * pris <= sum) by (nonlinear_arith)
                requires
                    q == sum / pris,
                    pris > 0,
                    sum >= 0,
            ;
            assert(n * pris <= q * pris) by (nonlinear_arith)
                requires
                    n <= q,
                    pris > 0,
            ;
        } else {
            let e = pris * 100_000_000;
            let q = sum / e;
            assert(q * e <= sum) by (nonlinear_arith)
                requires
                    q == sum / e,
                    e > 0,
                    sum >= 0,
            ;
            let hele = q * 100_000_000;
            assert(hele * pris == q * e) by (nonlinear_arith)
                requires
                    hele == q * 100_000_000,
                    e == pris * 100_000_000,
            ;
            assert(n * pris <= hele * pris) by (nonlinear_arith)
                requires
                    n <= hele,
                    pris > 0,
            ;
        }
        assert(n * pris <= sum);
        assert((p.holdt + n) * pris == p.holdt * pris + n * pris) by (nonlinear_arith);
    }
}

/// A sale never exceeds what is held.
pub proof fn law_selger_ikke_mer(
    t: Tilstand,
    belop_kr: int,
    grunn: Seq<char>,
    ap: AutopilotCfg,
    symbol: Seq<char>,
    p: Puls,
    klokke: Seq<char>,
    naa: u64,
)
    requires
        p.pris > 0,
        belop_kr >= 0,
    ensures
        solgt(t, belop_kr, grunn, ap, symbol, p, klokke, naa).1.ordre matches Some((s, side, n)) ==> s == symbol && side == Side::Sell && 0 < n <= p.holdt,
{
    let onsket = ordrer::klemt(belop::kvotient(belop_kr * 100_000_000, p.pris as int));
    assert(belop_kr * 100_000_000 / p.pris as int >= 0) by (nonlinear_arith)
        requires
            belop_kr >= 0,
            p.pris > 0,
    ;
    let n = salgsantall(belop_kr, p, types::krypto(symbol));
    if p.holdt > 0 {
        assert(onsket * 10 < p.holdt * 9 ==> onsket <= p.holdt);
    }
}

/// A sale at a loss starts the time to cool down, and no purchase is made
/// before it is over.
pub proof fn law_tap_gir_kjoletid(
    t: Tilstand,
    belop_kr: int,
    grunn: Seq<char>,
    ap: AutopilotCfg,
    symbol: Seq<char>,
    p: Puls,
    klokke: Seq<char>,
    naa: u64,
    senere: u64,
    kjop_kr: int,
    q: Puls,
)
    requires
        t.egne > 0,
        ap.cooldown_min > 0,
        solgt(t, belop_kr, grunn, ap, symbol, p, klokke, naa).1.ordre is Some,
        p.pris < t.snitt,
        naa <= senere,
        senere < om_minutter(naa, ap.cooldown_min),
    ensures
        ({
            let e = solgt(t, belop_kr, grunn, ap, symbol, p, klokke, naa).0;
            kjopt(e, kjop_kr, grunn, ap, symbol, q, klokke, senere) == (
                e,
                bare_journal("Kjøletid etter tap — hopper over kjøp. ("@ + grunn + ")"@),
            )
        }),
{
    let n = salgsantall(belop_kr, p, types::krypto(symbol));
    let m = if n < t.egne {
        n
    } else {
        t.egne
    };
    assert((p.pris - t.snitt) * m < 0) by (nonlinear_arith)
        requires
            p.pris - t.snitt < 0,
            m > 0,
    ;
}

/// Whatever is decided, a decision counts as one trade where it orders
/// something and as none where it does not.
pub proof fn law_en_handel_per_ordre(
    t: Tilstand,
    d: Beslutning,
    ap: AutopilotCfg,
    symbol: Seq<char>,
    p: Puls,
    klokke: Seq<char>,
    naa: u64,
)
    requires
        t.handler < u32::MAX,
    ensures
        ({
            let (e, h) = besluttet(t, d, ap, symbol, p, klokke, naa);
            e.handler == t.handler + (if h.ordre is Some {
                1int
            } else {
                0int
            })
        }),
{
}

// ---------------------------------------------------------------------------
// What a decision comes to, in numbers
// ---------------------------------------------------------------------------

/// What is free of the budget: what neither the symbol nor the others hold of it,
/// never below nothing and never over the cash.
pub proof fn law_ledig(budsjett: int, p: Puls)
    requires
        p.kontanter >= 0,
    ensures
        ({
            let l = ledig(budsjett, p);
            let igjen = budsjett * 100_000_000 - p.holdt * p.pris - p.andre;
            &&& 0 <= l <= p.kontanter
            &&& l > 0 ==> l <= igjen
            &&& l == p.kontanter || l == igjen || (l == 0 && igjen <= 0)
        }),
{
}

/// A purchase is made exactly when no loss is cooling down and what may be spent, the
/// least of what was asked, what is free of the budget and the cash, is more than a
/// krone and pays for something; then it spends all of that but what does not pay for
/// one more unit. It is counted, and what it has bought has cost what it cost before
/// and what this cost, to within the smallest unit on each.
pub proof fn law_kjopet_blir_gjort(
    t: Tilstand,
    belop_kr: int,
    grunn: Seq<char>,
    ap: AutopilotCfg,
    symbol: Seq<char>,
    p: Puls,
    klokke: Seq<char>,
    naa: u64,
)
    requires
        p.pris > 0,
        p.kontanter >= 0,
        belop_kr >= 0,
        t.egne >= 0,
        t.snitt >= 0,
    ensures
        ({
            let (e, h) = kjopt(t, belop_kr, grunn, ap, symbol, p, klokke, naa);
            let enhet = if types::krypto(symbol) {
                1int
            } else {
                100_000_000
            };
            let fri = ledig(ap.budget_kr as int, p);
            let sum = if belop_kr * 100_000_000 < fri {
                belop_kr * 100_000_000
            } else {
                fri
            };
            let venter = t.kjoletid matches Some(til) && naa < til;
            &&& h.ordre is Some <==> !venter && sum > 10_000_000_000_000_000 && sum >= enhet * p.pris
            &&& h.ordre is None ==> e == t
            &&& h.ordre matches Some((s, side, n)) ==> {
                &&& s == symbol && side == Side::Buy && n > 0
                &&& n * p.pris <= sum
                &&& n < i64::MAX ==> (n + enhet) * p.pris > sum
                &&& n % enhet == 0 || n == i64::MAX
                &&& t.egne + n <= i64::MAX ==> e.egne == t.egne + n
                &&& e.snitt * (t.egne + n) <= t.snitt * t.egne + p.pris * n < (e.snitt + 1) * (t.egne + n)
                &&& t.handler < u32::MAX ==> e.handler == t.handler + 1
                &&& e.realisert == t.realisert && e.kjoletid == t.kjoletid
            }
        }),
{
    let pris = p.pris as int;
    let krypto = types::krypto(symbol);
    let sum = kjopesum(belop_kr, ap.budget_kr as int, p);
    let n = kjopsantall(sum, pris, krypto);
    law_ledig(ap.budget_kr as int, p);
    assert(sum >= 0);
    if krypto {
        belop::law_kvotient(sum, pris);
        let q = belop::kvotient(sum, pris);
        assert(q > 0 <==> sum >= pris) by (nonlinear_arith)
            requires
                q >= 0,
                q * pris <= sum,
                sum < (q + 1) * pris,
                pris > 0,
        ;
        if n == i64::MAX {
            assert(n * pris <= q * pris) by (nonlinear_arith)
                requires
                    n <= q,
                    pris > 0,
            ;
        }
    } else {
        let d = pris * 100_000_000;
        belop::law_kvotient(sum, d);
        let q = belop::kvotient(sum, d);
        assert(q > 0 <==> sum >= d) by (nonlinear_arith)
            requires
                q >= 0,
                q * d <= sum,
                sum < (q + 1) * d,
                d > 0,
        ;
        assert((q * 100_000_000) * pris == q * d && (q * 100_000_000 + 100_000_000) * pris == (q + 1) * d)
            by (nonlinear_arith)
            requires
                d == pris * 100_000_000,
        ;
        if n == i64::MAX {
            assert(n * pris <= (q * 100_000_000) * pris) by (nonlinear_arith)
                requires
                    n <= q * 100_000_000,
                    pris > 0,
            ;
        } else {
            assert(n == q * 100_000_000);
        }
    }
    if n > 0 {
        let kost = t.snitt * t.egne + pris * n;
        assert(kost >= 0) by (nonlinear_arith)
            requires
                kost == t.snitt * t.egne + pris * n,
                t.snitt >= 0,
                t.egne >= 0,
                pris > 0,
                n > 0,
        ;
        belop::law_kvotient(kost, t.egne + n);
    }
}

/// A sale is made exactly when something is held and what is meant comes to at least
/// one unit: all of it where nine tenths or more are meant, else as many as the amount
/// is worth. What it gains against the mean price is added to the day, what is left
/// keeps its mean price, and only a loss starts the time to cool down.
pub proof fn law_salget_blir_gjort(
    t: Tilstand,
    belop_kr: int,
    grunn: Seq<char>,
    ap: AutopilotCfg,
    symbol: Seq<char>,
    p: Puls,
    klokke: Seq<char>,
    naa: u64,
)
    requires
        p.pris > 0,
        belop_kr >= 0,
        t.egne >= 0,
        belop_kr * 100_000_000 < 0x7fff_ffff_ffff_ffff * p.pris,
    ensures
        ({
            let (e, h) = solgt(t, belop_kr, grunn, ap, symbol, p, klokke, naa);
            let verd = belop_kr * 100_000_000;
            &&& p.holdt <= 0 ==> h.ordre is None
            &&& h.ordre is None ==> e == t
            &&& p.holdt > 0 && types::krypto(symbol) ==> (h.ordre is Some <==> verd >= p.pris || 10 * (verd / p.pris as int)
                >= 9 * p.holdt)
            &&& h.ordre matches Some((s, side, n)) ==> {
                let m = if n < t.egne {
                    n
                } else {
                    t.egne
                };
                let gevinst = m * p.pris - m * t.snitt;
                &&& s == symbol && side == Side::Sell && 0 < n <= p.holdt
                &&& types::krypto(symbol) && 10 * (verd / p.pris as int) >= 9 * p.holdt ==> n == p.holdt
                &&& types::krypto(symbol) && 10 * (verd / p.pris as int) < 9 * p.holdt ==> n * p.pris <= verd < (n + 1)
                    * p.pris
                &&& !types::krypto(symbol) ==> n % 100_000_000 == 0
                &&& !types::krypto(symbol) && 10 * (verd / p.pris as int) >= 9 * p.holdt ==> n <= p.holdt < n
                    + 100_000_000
                &&& !types::krypto(symbol) && 10 * (verd / p.pris as int) < 9 * p.holdt ==> n * p.pris <= verd < (n
                    + 100_000_000) * p.pris
                &&& t.handler < u32::MAX ==> e.handler == t.handler + 1
                &&& e.egne == t.egne - m
                &&& e.egne > 0 ==> e.snitt == t.snitt
                &&& i128::MIN <= t.realisert + gevinst <= i128::MAX ==> e.realisert == t.realisert + gevinst
                &&& gevinst >= 0 ==> e.kjoletid == t.kjoletid
                &&& gevinst < 0 && ap.cooldown_min > 0 && naa + ap.cooldown_min * 60_000_000_000 <= u64::MAX
                    ==> e.kjoletid == Some((naa + ap.cooldown_min * 60_000_000_000) as u64)
            }
        }),
{
    let pris = p.pris as int;
    let verd = belop_kr * 100_000_000;
    let krypto = types::krypto(symbol);
    belop::law_kvotient(verd, pris);
    let q = belop::kvotient(verd, pris);
    assert(q == verd / pris);
    assert(0 <= q < 0x7fff_ffff_ffff_ffff) by (nonlinear_arith)
        requires
            q * pris <= verd,
            verd < 0x7fff_ffff_ffff_ffff * pris,
            pris > 0,
            q >= 0,
    ;
    assert(q > 0 <==> verd >= pris) by (nonlinear_arith)
        requires
            q >= 0,
            q * pris <= verd,
            verd < (q + 1) * pris,
            pris > 0,
    ;
    let n = salgsantall(belop_kr, p, krypto);
    if p.holdt > 0 {
        law_selger_ikke_mer(t, belop_kr, grunn, ap, symbol, p, klokke, naa);
        if !krypto {
            let raa = if q * 10 >= p.holdt * 9 {
                p.holdt as int
            } else {
                q
            };
            belop::law_kvotient(raa, 100_000_000);
            if q * 10 < p.holdt * 9 {
                assert(n * pris <= q * pris && (q + 1) * pris <= (n + 100_000_000) * pris) by (nonlinear_arith)
                    requires
                        n <= q,
                        q + 1 <= n + 100_000_000,
                        pris > 0,
                ;
            }
        }
        let m = if n < t.egne {
            n
        } else {
            t.egne
        };
        assert((pris - t.snitt) * m == m * pris - m * t.snitt) by (nonlinear_arith);
        if m == 0 {
            assert(m * pris == 0 && m * t.snitt == 0) by (nonlinear_arith)
                requires
                    m == 0,
            ;
        }
    }
}

/// To wait trades nothing and forgets nothing but the oldest reason.
pub proof fn law_avvent_gjor_ingenting(t: Tilstand, grunn: Seq<char>, klokke: Seq<char>)
    ensures
        ({
            let (e, h) = avventet(t, grunn, klokke);
            &&& h.ordre is None && h.toast is None
            &&& e.handler == t.handler && e.realisert == t.realisert && e.egne == t.egne && e.snitt == t.snitt
                && e.kjoletid == t.kjoletid && e.dato == t.dato
            &&& e.grunner.len() > 0 && e.grunner.last() == klokke + " AVVENT: "@ + grunn
        }),
{
}

/// A decision does what it says: to hold orders nothing, to buy never sells and to
/// sell never buys.
pub proof fn law_beslutningen_folges(
    t: Tilstand,
    d: Beslutning,
    ap: AutopilotCfg,
    symbol: Seq<char>,
    p: Puls,
    klokke: Seq<char>,
    naa: u64,
)
    ensures
        ({
            let h = besluttet(t, d, ap, symbol, p, klokke, naa).1;
            &&& d is Hold ==> h.ordre is None
            &&& d is Buy ==> (h.ordre matches Some((s, side, n)) ==> s == symbol && side == Side::Buy && n > 0)
            &&& d is Sell ==> (h.ordre matches Some((s, side, n)) ==> s == symbol && side == Side::Sell && n > 0)
        }),
{
}

/// The brake is on exactly when a limit is set and the day has lost that much or
/// more; it stays on as long as the day only loses more.
pub proof fn law_bremsen(maks: int, realisert: int, senere: int)
    ensures
        bremset(maks, realisert) <==> maks > 0 && realisert + maks * 100_000_000 <= 0,
        bremset(maks, realisert) && senere <= realisert ==> bremset(maks, senere),
        maks <= 0 ==> !bremset(maks, realisert),
{
}

/// What the others hold of the budget is what each of them but the symbol itself is
/// worth, added up.
pub proof fn law_andre_verdier(st: UiState, l: Seq<Seq<char>>, symbol: Seq<char>)
    ensures
        andre_verdier(st, l, symbol) matches Some(v) ==> v == l.filter(|s: Seq<char>| s != symbol).fold_left(
            0int,
            |a: int, s: Seq<char>| a + verdi_i_kr(st, s)->0,
        ),
    decreases l.len(),
{
    let p = |s: Seq<char>| s != symbol;
    reveal(Seq::filter);
    if l.len() > 0 {
        law_andre_verdier(st, l.drop_last(), symbol);
        let d = l.drop_last().filter(p);
        assert(d.push(l.last()).drop_last() =~= d);
    }
}

/// What is held of a symbol is worth as many as are held times its price, and a
/// price in another currency is that price times the rate.
pub proof fn law_verdi_i_kr(st: UiState, symbol: Seq<char>)
    ensures
        ({
            let n = engine::antall_av(types::posisjoner(st.positions@), symbol);
            &&& n <= 0 ==> verdi_i_kr(st, symbol) == Some(0int)
            &&& n > 0 ==> (pris_i_kr(st, symbol) matches Some(p) ==> (p > 0 ==> verdi_i_kr(st, symbol) == Some(
                p * n,
            )))
            &&& n > 0 && pris_i_kr(st, symbol) is None ==> verdi_i_kr(st, symbol) is None
        }),
        !st.quotes@.dom().contains(symbol) ==> pris_i_kr(st, symbol) is None,
        st.quotes@.dom().contains(symbol) && !st.fx_rates@.dom().contains(st.quotes@[symbol].currency@) ==> pris_i_kr(
            st,
            symbol,
        ) == Some(st.quotes@[symbol].last as int),
        st.quotes@.dom().contains(symbol) && st.quotes@[symbol].currency@.len() > 0 && st.fx_rates@.dom().contains(
            st.quotes@[symbol].currency@,
        ) && st.quotes@[symbol].last >= 0 && st.fx_rates@[st.quotes@[symbol].currency@] >= 0 ==> (pris_i_kr(
            st,
            symbol,
        ) matches Some(p) ==> p * 100_000_000 <= st.quotes@[symbol].last * st.fx_rates@[st.quotes@[symbol].currency@]
            < (p + 1) * 100_000_000),
{
    let n = engine::antall_av(types::posisjoner(st.positions@), symbol);
    if let Some(p) = pris_i_kr(st, symbol) {
        assert(n * p == p * n) by (nonlinear_arith);
    }
    let q = st.quotes@[symbol].last as int;
    belop::law_kvotient(q * 100_000_000, 100_000_000);
    let r = st.fx_rates@[st.quotes@[symbol].currency@] as int;
    if q >= 0 && r >= 0 {
        assert(q * r >= 0) by (nonlinear_arith)
            requires
                q >= 0,
                r >= 0,
        ;
        belop::law_kvotient(q * r, 100_000_000);
    }
}

/// Two decimals are the nearest there are.
pub proof fn law_to_desimaler(v: int)
    ensures
        to_desimaler(v) % 1_000_000 == 0,
        -500_000 <= to_desimaler(v) - v <= 500_000,
{
}

/// The hours rise exactly when the last is above the first and fall exactly when it is
/// below; a round trip costs the fee both ways, the slip, and the spread where it is
/// known.
pub proof fn law_storbildet(l: Seq<i64>, b: BacktestCfg, s: i64)
    requires
        l.len() > 0,
    ensures
        trend(l) == "opp"@ <==> l[0] < l.last(),
        trend(l) == "ned"@ <==> l[0] > l.last(),
        rundtur(b, None) == b.commission_pct + b.slippage_pct + b.commission_pct,
        rundtur(b, Some(s)) == rundtur(b, None) + s,
{
    reveal_strlit("opp");
    reveal_strlit("ned");
    reveal_strlit("flat/ukjent");
    assert("opp"@.len() == 3 && "flat/ukjent"@.len() == 11 && "ned"@.len() == 3);
    assert("opp"@[0] == 'o' && "ned"@[0] == 'n');
}

/// What is remembered once a day has begun: on the same day all of it, on a new
/// one no trades, no result and no reasons.
pub open spec fn dag_begynt(m: Minne, i_dag: Seq<char>) -> Minne {
    if m.dato == i_dag {
        m
    } else {
        Minne { handler: 0, dato: i_dag, realisert: 0, grunner: Seq::empty(), ..m }
    }
}

/// A new day starts at nothing and keeps what is held and when it was bought;
/// beginning the same day again changes nothing.
pub proof fn law_ny_dag(m: Minne, i_dag: Seq<char>)
    ensures
        dag_begynt(m, i_dag).dato == i_dag,
        dag_begynt(m, i_dag).egne == m.egne,
        dag_begynt(m, i_dag).kjoletid == m.kjoletid,
        m.dato != i_dag ==> dag_begynt(m, i_dag).handler == 0 && dag_begynt(m, i_dag).realisert == 0 && dag_begynt(
            m,
            i_dag,
        ).grunner.len() == 0,
        m.dato == i_dag ==> dag_begynt(m, i_dag).handler == m.handler && dag_begynt(m, i_dag).realisert == m.realisert,
        dag_begynt(dag_begynt(m, i_dag), i_dag) == dag_begynt(m, i_dag),
{
}

/// Whether the model is asked about a symbol.
pub open spec fn sporres(m: Minne, st: UiState, f: Flags, ap: AutopilotCfg, symbol: Seq<char>, naa: int) -> bool {
    !f.killed && !f.paused && config::rene(ap.skrevne()).contains(symbol) && !bremset(
        ap.max_day_loss_kr as int,
        m.realisert,
    ) && marketdata::aapent_ved(symbol, naa) && (puls_av(st, ap, symbol) matches Some(p) && p.pris > 0) && m.handler
        < ap.max_trades_per_day
}

/// The model is not asked while anything forbids a trade: the kill switch, the
/// pause, a symbol that is not traded, a loss of the day over its limit, a
/// closed exchange, no price, or a quota used up.
pub proof fn law_naar_modellen_ikke_sporres(
    m: Minne,
    st: UiState,
    f: Flags,
    ap: AutopilotCfg,
    symbol: Seq<char>,
    naa: int,
)
    requires
        sporres(m, st, f, ap, symbol, naa),
    ensures
        !f.killed && !f.paused,
        exists|i: int| 0 <= i < ap.skrevne().len() && text::trimmed(#[trigger] ap.skrevne()[i]) == symbol,
        ap.max_day_loss_kr > 0 ==> m.realisert + ap.max_day_loss_kr * 100_000_000 > 0,
        m.handler < ap.max_trades_per_day,
        marketdata::aapent_ved(symbol, naa),
        puls_av(st, ap, symbol) is Some,
{
    config::law_symboler_rene(ap.skrevne());
}

}
