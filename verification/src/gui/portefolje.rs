//! The portfolio, the history of orders and the settings, as they are shown.
use vstd::prelude::*;

use crate::belop;
use crate::engine::rapport;
use crate::engine::rapport::STORST;
use crate::gui;
use crate::gui::{fmt_med_fortegn, fmt_verdi, skriv_pct, updown, Farge, Kort, KortSyn};
use crate::pnl;
use crate::pnl::RealizedTrade;
use crate::state::{TxRow, UiState};
use crate::text;
use crate::text::{same, string_of, text_replace, three, two};
use crate::types;
use crate::types::{Position, PosisjonSyn};

verus! {

// ---------------------------------------------------------------------------
// Sums
// ---------------------------------------------------------------------------

/// A sum that stays within bounds.
pub open spec fn lagt_til(sum: Option<int>, v: int) -> Option<int> {
    match sum {
        Some(s) => if -STORST <= v <= STORST && -STORST <= s + v <= STORST {
            Some(s + v)
        } else {
            None
        },
        None => None,
    }
}

fn legg_til(sum: Option<i128>, v: i128) -> (r: Option<i128>)
    requires
        sum matches Some(s) ==> -STORST <= s <= STORST,
    ensures
        verdisyn(r) == lagt_til(verdisyn(sum), v as int),
        r matches Some(s) ==> -STORST <= s <= STORST,
{
    match sum {
        Some(s) => if -STORST <= v && v <= STORST && -STORST <= s + v && s + v <= STORST {
            Some(s + v)
        } else {
            None
        },
        None => None,
    }
}

pub open spec fn verdisyn(o: Option<i128>) -> Option<int> {
    match o {
        Some(v) => Some(v as int),
        None => None,
    }
}

/// What the day has done to a position, in its own currency.
pub open spec fn dagens_bevegelse(st: UiState, p: PosisjonSyn) -> Option<int> {
    if st.quotes@.dom().contains(p.symbol) {
        Some(p.qty * (st.quotes@[p.symbol].last - st.quotes@[p.symbol].prev_close))
    } else {
        None
    }
}

fn finn_bevegelse(st: &UiState, p: &Position) -> (r: Option<i128>)
    requires
        st.gyldig(),
    ensures
        verdisyn(r) == dagens_bevegelse(*st, p@),
{
    match st.quotes.hent(p.symbol.as_str()) {
        Some(q) => {
            let d: i128 = q.last as i128 - q.prev_close as i128;
            let n: i128 = p.qty as i128;
            assert(i128::MIN <= n * d <= i128::MAX) by (nonlinear_arith)
                requires
                    -0xffff_ffff_ffff_ffff <= d <= 0xffff_ffff_ffff_ffff,
                    -0x8000_0000_0000_0000 <= n <= 0x7fff_ffff_ffff_ffff,
            ;
            Some(n * d)
        },
        None => None,
    }
}

/// What the day has done to all positions; none where it is past counting.
pub open spec fn dagens_sum(st: UiState, l: Seq<PosisjonSyn>) -> Option<int>
    decreases l.len(),
{
    if l.len() == 0 {
        Some(0)
    } else {
        match dagens_bevegelse(st, l.last()) {
            Some(v) => lagt_til(dagens_sum(st, l.drop_last()), v),
            None => dagens_sum(st, l.drop_last()),
        }
    }
}

/// What all positions are worth together; none where it is past counting.
pub open spec fn investert(l: Seq<PosisjonSyn>) -> Option<int>
    decreases l.len(),
{
    if l.len() == 0 {
        Some(0)
    } else {
        lagt_til(investert(l.drop_last()), l.last().qty * l.last().last)
    }
}

/// The dividends of a year on a position.
pub open spec fn utbytte(st: UiState, p: PosisjonSyn) -> Option<int> {
    if st.dividends@.dom().contains(p.symbol) {
        Some(st.dividends@[p.symbol] * p.qty)
    } else {
        None
    }
}

pub open spec fn samlet_utbytte(st: UiState, l: Seq<PosisjonSyn>) -> Option<int>
    decreases l.len(),
{
    if l.len() == 0 {
        Some(0)
    } else {
        match utbytte(st, l.last()) {
            Some(v) => lagt_til(samlet_utbytte(st, l.drop_last()), v),
            None => samlet_utbytte(st, l.drop_last()),
        }
    }
}

fn finn_utbytte(st: &UiState, p: &Position) -> (r: Option<i128>)
    requires
        st.gyldig(),
    ensures
        verdisyn(r) == utbytte(*st, p@),
{
    match st.dividends.hent(p.symbol.as_str()) {
        Some(d) => {
            proof {
                types::lemma_produkt(*d as int, p.qty as int);
            }
            Some(*d as i128 * p.qty as i128)
        },
        None => None,
    }
}

pub fn sum_i_dag(st: &UiState) -> (r: Option<i128>)
    requires
        st.gyldig(),
    ensures
        verdisyn(r) == dagens_sum(*st, types::posisjoner(st.positions@)),
        r matches Some(s) ==> -STORST <= s <= STORST,
{
    let ghost alle = types::posisjoner(st.positions@);
    let mut sum: Option<i128> = Some(0);
    let mut i: usize = 0;
    assert(alle.take(0) =~= Seq::empty());
    while i < st.positions.len()
        invariant
            i <= st.positions@.len(),
            st.gyldig(),
            alle == types::posisjoner(st.positions@),
            verdisyn(sum) == dagens_sum(*st, alle.take(i as int)),
            sum matches Some(s) ==> -STORST <= s <= STORST,
        decreases st.positions.len() - i,
    {
        proof {
            assert(alle.take(i + 1).drop_last() =~= alle.take(i as int));
            assert(alle.take(i + 1).last() == st.positions@[i as int]@);
        }
        if let Some(v) = finn_bevegelse(st, &st.positions[i]) {
            sum = legg_til(sum, v);
        }
        i += 1;
    }
    assert(alle.take(i as int) =~= alle);
    sum
}

pub fn sum_investert(l: &Vec<Position>) -> (r: Option<i128>)
    ensures
        verdisyn(r) == investert(types::posisjoner(l@)),
        r matches Some(s) ==> -STORST <= s <= STORST,
{
    let ghost alle = types::posisjoner(l@);
    let mut sum: Option<i128> = Some(0);
    let mut i: usize = 0;
    assert(alle.take(0) =~= Seq::empty());
    while i < l.len()
        invariant
            i <= l@.len(),
            alle == types::posisjoner(l@),
            verdisyn(sum) == investert(alle.take(i as int)),
            sum matches Some(s) ==> -STORST <= s <= STORST,
        decreases l.len() - i,
    {
        proof {
            assert(alle.take(i + 1).drop_last() =~= alle.take(i as int));
            assert(alle.take(i + 1).last() == l@[i as int]@);
        }
        sum = legg_til(sum, l[i].market_value());
        i += 1;
    }
    assert(alle.take(i as int) =~= alle);
    sum
}

pub fn sum_utbytte(st: &UiState) -> (r: Option<i128>)
    requires
        st.gyldig(),
    ensures
        verdisyn(r) == samlet_utbytte(*st, types::posisjoner(st.positions@)),
{
    let ghost alle = types::posisjoner(st.positions@);
    let mut sum: Option<i128> = Some(0);
    let mut i: usize = 0;
    assert(alle.take(0) =~= Seq::empty());
    while i < st.positions.len()
        invariant
            i <= st.positions@.len(),
            st.gyldig(),
            alle == types::posisjoner(st.positions@),
            verdisyn(sum) == samlet_utbytte(*st, alle.take(i as int)),
            sum matches Some(s) ==> -STORST <= s <= STORST,
        decreases st.positions.len() - i,
    {
        proof {
            assert(alle.take(i + 1).drop_last() =~= alle.take(i as int));
            assert(alle.take(i + 1).last() == st.positions@[i as int]@);
        }
        if let Some(v) = finn_utbytte(st, &st.positions[i]) {
            sum = legg_til(sum, v);
        }
        i += 1;
    }
    assert(alle.take(i as int) =~= alle);
    sum
}

// ---------------------------------------------------------------------------
// The account
// ---------------------------------------------------------------------------

/// An amount with its sign, and a percentage with its sign behind it.
pub open spec fn kr_og_pct(kr: int, pct: int) -> Seq<char> {
    gui::tusener_med_fortegn(kr) + " kr ("@ + (gui::pct_tekst(pct, 2) + ")"@)
}

fn skriv_kr_og_pct(kr: i128, pct: i128) -> (r: String)
    ensures
        r@ == kr_og_pct(kr as int, pct as int),
{
    let a: String = fmt_med_fortegn(kr);
    let p: String = skriv_pct(pct, 2);
    let b: String = two(p.as_str(), ")");
    three(a.as_str(), " kr (", b.as_str())
}

/// What the day is in per cent of the equity before it.
pub open spec fn dagens_pct(equity: int, kr: int) -> int {
    if equity - kr > 0 {
        rapport::andel_pct(kr, equity - kr)
    } else {
        0
    }
}

/// What the whole is in per cent of what it began with.
pub open spec fn total_pct(equity: int, start: int) -> int {
    if start > 0 {
        rapport::andel_pct(equity - start, start)
    } else {
        0
    }
}

pub open spec fn kontokort_av(st: UiState, i_dag: int) -> Seq<KortSyn> {
    let total = st.equity - st.start_cash;
    seq![
        KortSyn { tittel: "Egenkapital"@, verdi: gui::tusener(st.equity as int) + " kr"@, farge: Farge::Hvit },
        KortSyn { tittel: "Kontanter"@, verdi: gui::tusener(st.cash as int) + " kr"@, farge: Farge::Graa },
        KortSyn {
            tittel: "I dag"@,
            verdi: kr_og_pct(i_dag, dagens_pct(st.equity as int, i_dag)),
            farge: gui::opp_ned(i_dag),
        },
        KortSyn {
            tittel: "Total avkastning"@,
            verdi: kr_og_pct(total, total_pct(st.equity as int, st.start_cash as int)),
            farge: gui::opp_ned(total),
        },
    ]
}

/// Whether the account can be summed up.
pub open spec fn tellelig(st: UiState) -> bool {
    -STORST <= st.equity <= STORST && -STORST <= st.start_cash <= STORST && dagens_sum(
        st,
        types::posisjoner(st.positions@),
    ) is Some
}

/// The lines of the account; none where its sums are past counting.
pub fn kontokort(st: &UiState) -> (r: Option<Vec<Kort>>)
    requires
        st.gyldig(),
    ensures
        r is Some == tellelig(*st),
        r matches Some(l) ==> gui::kortene(l@) == kontokort_av(
            *st,
            dagens_sum(*st, types::posisjoner(st.positions@))->0,
        ),
{
    let kr: i128 = match sum_i_dag(st) {
        Some(s) => s,
        None => return None,
    };
    if st.equity < -STORST || st.equity > STORST || st.start_cash < -STORST || st.start_cash > STORST {
        return None;
    }
    let pct: i128 = if st.equity - kr > 0 {
        rapport::regn_andel(kr, st.equity - kr)
    } else {
        0
    };
    let total: i128 = st.equity - st.start_cash;
    let tp: i128 = if st.start_cash > 0 {
        rapport::regn_andel(total, st.start_cash)
    } else {
        0
    };
    let ek: String = fmt_verdi(st.equity);
    let ko: String = fmt_verdi(st.cash);
    let l: Vec<Kort> = vec![
        Kort { tittel: "Egenkapital", verdi: two(ek.as_str(), " kr"), farge: Farge::Hvit },
        Kort { tittel: "Kontanter", verdi: two(ko.as_str(), " kr"), farge: Farge::Graa },
        Kort { tittel: "I dag", verdi: skriv_kr_og_pct(kr, pct), farge: updown(kr) },
        Kort { tittel: "Total avkastning", verdi: skriv_kr_og_pct(total, tp), farge: updown(total) },
    ];
    assert(gui::kortene(l@) =~= kontokort_av(*st, kr as int));
    Some(l)
}

// ---------------------------------------------------------------------------
// The holdings
// ---------------------------------------------------------------------------

/// One line of the holdings.
#[derive(Debug)]
pub struct Beholdning {
    pub symbol: String,
    pub antall: String,
    pub snitt: String,
    pub siste: String,
    pub verdi: String,
    pub urealisert: (String, Farge),
    pub i_dag: (String, Farge),
    pub utbytte: (String, Farge),
    pub andel: String,
}

#[verifier::ext_equal]
pub struct BeholdningSyn {
    pub symbol: Seq<char>,
    pub antall: Seq<char>,
    pub snitt: Seq<char>,
    pub siste: Seq<char>,
    pub verdi: Seq<char>,
    pub urealisert: (Seq<char>, Farge),
    pub i_dag: (Seq<char>, Farge),
    pub utbytte: (Seq<char>, Farge),
    pub andel: Seq<char>,
}

impl View for Beholdning {
    type V = BeholdningSyn;

    open spec fn view(&self) -> BeholdningSyn {
        BeholdningSyn {
            symbol: self.symbol@,
            antall: self.antall@,
            snitt: self.snitt@,
            siste: self.siste@,
            verdi: self.verdi@,
            urealisert: (self.urealisert.0@, self.urealisert.1),
            i_dag: (self.i_dag.0@, self.i_dag.1),
            utbytte: (self.utbytte.0@, self.utbytte.1),
            andel: self.andel@,
        }
    }
}

pub open spec fn urealisert_tekst(p: PosisjonSyn) -> Seq<char> {
    rapport::verdi_med_fortegn((p.last - p.avg_price) * p.qty) + " kr ("@ + (gui::pct_tekst(
        types::endring_pct(p.last as int, p.avg_price as int),
        1,
    ) + ")"@)
}

/// A line of the holdings, as a part of what is invested.
pub open spec fn beholdning_av(st: UiState, p: PosisjonSyn, invested: int) -> BeholdningSyn {
    BeholdningSyn {
        symbol: p.symbol,
        antall: belop::belop_tekst(p.qty as int, 0),
        snitt: belop::belop_tekst(p.avg_price as int, 2),
        siste: belop::belop_tekst(p.last as int, 2),
        verdi: gui::tusener(p.qty * p.last),
        urealisert: (urealisert_tekst(p), gui::opp_ned((p.last - p.avg_price) * p.qty)),
        i_dag: match dagens_bevegelse(st, p) {
            Some(d) => (rapport::verdi_med_fortegn(d) + " kr"@, gui::opp_ned(d)),
            None => ("–"@, Farge::Hvit),
        },
        utbytte: if st.dividends@.dom().contains(p.symbol) && st.dividends@[p.symbol] > 0 {
            (belop::verdi_tekst(st.dividends@[p.symbol] * p.qty, 0) + " kr"@, Farge::Gul)
        } else {
            ("–"@, Farge::Hvit)
        },
        andel: belop::belop_tekst(rapport::andel_pct(p.qty * p.last, invested), 1) + " %"@,
    }
}

fn skriv_fortegn(v: i128) -> (r: String)
    ensures
        r@ == rapport::verdi_med_fortegn(v as int),
{
    let cs: Vec<char> = belop::skriv(v, 16, 0);
    let t: String = string_of(cs.as_slice());
    if v < 0 {
        t
    } else {
        two("+", t.as_str())
    }
}

/// A line of the holdings, as a part of what is invested.
pub fn beholdning(st: &UiState, p: &Position, invested: i128) -> (r: Option<Beholdning>)
    requires
        st.gyldig(),
        invested > i128::MIN,
    ensures
        r is Some == (-STORST <= p.qty * p.last <= STORST),
        r matches Some(b) ==> b@ == beholdning_av(*st, p@, invested as int),
{
    let v: i128 = p.market_value();
    if v < -STORST || v > STORST {
        return None;
    }
    let u: i128 = p.unrealized();
    let ut: String = skriv_fortegn(u);
    let up: String = skriv_pct(types::endring(p.last, p.avg_price), 1);
    let ub: String = two(up.as_str(), ")");
    let i_dag: (String, Farge) = match finn_bevegelse(st, p) {
        Some(d) => {
            let t: String = skriv_fortegn(d);
            (two(t.as_str(), " kr"), updown(d))
        },
        None => ("–".to_owned(), Farge::Hvit),
    };
    let utb: (String, Farge) = match st.dividends.hent(p.symbol.as_str()) {
        Some(d) => if *d > 0 {
            proof {
                types::lemma_produkt(*d as int, p.qty as int);
            }
            let cs: Vec<char> = belop::skriv(*d as i128 * p.qty as i128, 16, 0);
            let t: String = string_of(cs.as_slice());
            (two(t.as_str(), " kr"), Farge::Gul)
        } else {
            ("–".to_owned(), Farge::Hvit)
        },
        None => ("–".to_owned(), Farge::Hvit),
    };
    let ac: Vec<char> = belop::skriv(rapport::regn_andel(v, invested), 8, 1);
    let at: String = string_of(ac.as_slice());
    let b: Beholdning = Beholdning {
        symbol: text::copy_text(&p.symbol),
        antall: belop::som_tekst(p.qty, 0),
        snitt: belop::som_tekst(p.avg_price, 2),
        siste: belop::som_tekst(p.last, 2),
        verdi: fmt_verdi(v),
        urealisert: (three(ut.as_str(), " kr (", ub.as_str()), updown(u)),
        i_dag,
        utbytte: utb,
        andel: two(at.as_str(), " %"),
    };
    assert(b@ =~= beholdning_av(*st, p@, invested as int));
    Some(b)
}

/// The share of a part in a whole, in per cent, and the text of its bar.
pub open spec fn fordeling_tekst(navn: Seq<char>, v: int, total: int) -> Seq<char> {
    navn + "  "@ + (belop::belop_tekst(rapport::andel_pct(v, total), 1) + " %  ("@ + (gui::tusener(v) + " kr)"@))
}

pub fn fordeling(navn: &str, v: i128, total: i128) -> (r: (i128, String))
    requires
        -STORST <= v <= STORST,
        total > i128::MIN,
    ensures
        r.0 == rapport::andel_pct(v as int, total as int),
        r.1@ == fordeling_tekst(navn@, v as int, total as int),
{
    let pct: i128 = rapport::regn_andel(v, total);
    let pc: Vec<char> = belop::skriv(pct, 8, 1);
    let pt: String = string_of(pc.as_slice());
    let vt: String = fmt_verdi(v);
    let c: String = two(vt.as_str(), " kr)");
    let b: String = three(pt.as_str(), " %  (", c.as_str());
    (pct, three(navn, "  ", b.as_str()))
}

/// The line on realised gains.
pub fn realisert_tekst(trades: &[RealizedTrade], year: i32) -> (r: Option<(String, Farge)>)
    ensures
        r is Some == pnl::kan_summeres(pnl::handler(trades@), year as int),
        r matches Some(p) ==> p.0@ == gui::tusener_med_fortegn(pnl::gevinst(pnl::handler(trades@), year as int))
            + " kr"@ && p.1 == gui::opp_ned(pnl::gevinst(pnl::handler(trades@), year as int)),
{
    match pnl::total_gain(trades, year) {
        Some(g) => {
            let t: String = fmt_med_fortegn(g);
            Some((two(t.as_str(), " kr"), updown(g)))
        },
        None => None,
    }
}

/// The line on dividends, where there are any.
pub fn utbyttelinje(sum: i128) -> (r: Option<String>)
    ensures
        r is Some == (sum > 0),
        r matches Some(t) ==> t@ == "💰 Utbytte: beholdningen din betalte "@ + gui::tusener(sum as int)
            + " kr siste 12 mnd (indikasjon på årlig utbytteinntekt)."@,
{
    if sum > 0 {
        let t: String = fmt_verdi(sum);
        Some(
            three(
                "💰 Utbytte: beholdningen din betalte ",
                t.as_str(),
                " kr siste 12 mnd (indikasjon på årlig utbytteinntekt).",
            ),
        )
    } else {
        None
    }
}

// ---------------------------------------------------------------------------
// The history
// ---------------------------------------------------------------------------

/// The columns of an order in the file.
pub open spec fn kolonner(t: TxRow) -> Seq<Seq<char>> {
    seq![
        t.ts@,
        t.side@,
        t.symbol@,
        belop::belop_tekst(t.qty as int, 4),
        belop::belop_tekst(t.price as int, 4),
        belop::verdi_tekst(t.qty * t.price, 2),
        t.status@,
        t.broker@,
        text::replaced(t.note@, ";"@, ","@),
    ]
}

pub const OVERSKRIFT: &'static str = "Tidspunkt;Side;Symbol;Antall;Kurs;Beløp;Status;Megler;Merknad\n";

/// The file of the orders: a heading, and a line for each.
pub open spec fn csv(l: Seq<TxRow>) -> Seq<char>
    decreases l.len(),
{
    if l.len() == 0 {
        OVERSKRIFT@
    } else {
        csv(l.drop_last()) + text::joined(kolonner(l.last()), ";"@) + "\n"@
    }
}

/// The whole history as a file that opens in a spreadsheet.
pub fn export_transactions_csv(txs: &Vec<TxRow>) -> (r: String)
    ensures
        r@ == csv(txs@),
{
    let mut ut: String = OVERSKRIFT.to_owned();
    let mut i: usize = 0;
    assert(txs@.take(0) =~= Seq::empty());
    while i < txs.len()
        invariant
            i <= txs@.len(),
            ut@ == csv(txs@.take(i as int)),
        decreases txs.len() - i,
    {
        let t: &TxRow = &txs[i];
        proof {
            assert(txs@.take(i + 1).drop_last() =~= txs@.take(i as int));
            assert(txs@.take(i + 1).last() == *t);
            types::lemma_produkt(t.qty as int, t.price as int);
            reveal_strlit(";");
        }
        let bc: Vec<char> = belop::skriv(t.qty as i128 * t.price as i128, 16, 2);
        let felt: Vec<String> = vec![
            text::copy_text(&t.ts),
            text::copy_text(&t.side),
            text::copy_text(&t.symbol),
            belop::som_tekst(t.qty, 4),
            belop::som_tekst(t.price, 4),
            string_of(bc.as_slice()),
            text::copy_text(&t.status),
            text::copy_text(&t.broker),
            text_replace(t.note.as_str(), ";", ","),
        ];
        assert(text::views(felt@) =~= kolonner(*t));
        let linje: String = text::join_text(&felt, ";");
        ut = three(ut.as_str(), linje.as_str(), "\n");
        i += 1;
    }
    assert(txs@.take(i as int) =~= txs@);
    ut
}

/// The amount of an order in the history, and the colour of its side.
pub fn transaksjonsbelop(t: &TxRow) -> (r: (String, Farge))
    ensures
        r.0@ == gui::tusener(t.qty * t.price),
        r.1 == (if t.side@ == "KJØP"@ {
            Farge::Gronn
        } else {
            Farge::Rod
        }),
{
    proof {
        types::lemma_produkt(t.qty as int, t.price as int);
    }
    let v: String = fmt_verdi(t.qty as i128 * t.price as i128);
    if same(t.side.as_str(), "KJØP") {
        (v, Farge::Gronn)
    } else {
        (v, Farge::Rod)
    }
}

/// One holding more adds its value at the last price.
pub proof fn law_investert(l: Seq<PosisjonSyn>, p: PosisjonSyn, sum: int)
    requires
        investert(l.push(p)) == Some(sum),
    ensures
        investert(l) == Some(sum - p.qty * p.last),
        investert(Seq::empty()) == Some(0int),
{
    assert(l.push(p).drop_last() =~= l);
}

/// One holding more adds how far its price has moved since the close of the
/// day before, times how many are held; one without a quote adds nothing.
pub proof fn law_dagens_sum(st: UiState, l: Seq<PosisjonSyn>, p: PosisjonSyn, sum: int)
    requires
        dagens_sum(st, l.push(p)) == Some(sum),
    ensures
        st.quotes@.dom().contains(p.symbol) ==> dagens_sum(st, l) == Some(
            sum - p.qty * st.quotes@[p.symbol].last + p.qty * st.quotes@[p.symbol].prev_close,
        ),
        !st.quotes@.dom().contains(p.symbol) ==> dagens_sum(st, l) == Some(sum),
        dagens_sum(st, Seq::empty()) == Some(0int),
{
    assert(l.push(p).drop_last() =~= l);
    let q = st.quotes@[p.symbol];
    assert(p.qty * (q.last - q.prev_close) == p.qty * q.last - p.qty * q.prev_close) by (nonlinear_arith);
}

/// One holding more adds its dividend for each share, times how many are held.
pub proof fn law_samlet_utbytte(st: UiState, l: Seq<PosisjonSyn>, p: PosisjonSyn, sum: int)
    requires
        samlet_utbytte(st, l.push(p)) == Some(sum),
    ensures
        st.dividends@.dom().contains(p.symbol) ==> samlet_utbytte(st, l) == Some(
            sum - p.qty * st.dividends@[p.symbol],
        ),
        !st.dividends@.dom().contains(p.symbol) ==> samlet_utbytte(st, l) == Some(sum),
        samlet_utbytte(st, Seq::empty()) == Some(0int),
{
    assert(l.push(p).drop_last() =~= l);
    let d = st.dividends@[p.symbol];
    assert(d * p.qty == p.qty * d) by (nonlinear_arith);
}

/// The move of the day is in per cent of the equity before it, and the return
/// in per cent of the cash at the start, both counted in wholes.
pub proof fn law_prosentene(equity: int, kr: int, start: int)
    requires
        0 <= kr,
        kr + 100_000_000 <= equity,
        100_000_000 <= start <= equity,
    ensures
        ({
            let for_ = (equity - kr) / 100_000_000;
            let p = dagens_pct(equity, kr);
            p * for_ <= (kr / 100_000_000) * 10_000_000_000 < (p + 1) * for_
        }),
        ({
            let p = total_pct(equity, start);
            p * (start / 100_000_000) <= ((equity - start) / 100_000_000) * 10_000_000_000 < (p + 1) * (start / 100_000_000)
        }),
{
    rapport::law_andelen(kr, equity - kr);
    rapport::law_andelen(equity - start, start);
}

}
