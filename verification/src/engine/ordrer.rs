//! Orders: those that wait for a price, those that come every month, those of
//! the user and those of the strategies.
use vstd::prelude::*;

use crate::belop;
use crate::engine;
use crate::engine::{finn_kurs, holdt_antall, Engine};
use crate::marketdata::KursSyn;
use crate::number_text;
use crate::risk;
use crate::risk::RiskVerdict;
use crate::state::{LimitOrder, SavingsPlan, TxRow};
use crate::text;
use crate::text::{copy_text, same, three, two};
use crate::types;
use crate::types::{Order, OrderStatus, Position, PosisjonSyn, Quote, Side};

verus! {

// ---------------------------------------------------------------------------
// How many
// ---------------------------------------------------------------------------

/// A number within what can be counted.
pub open spec fn klemt(v: int) -> int {
    if v > i64::MAX {
        i64::MAX as int
    } else if v < i64::MIN {
        i64::MIN as int
    } else {
        v
    }
}

/// How many an amount buys at a price: fractions of a pair, whole shares. None
/// at a price of nothing.
pub open spec fn antall_for(belop_kr: int, pris: int, krypto: bool) -> int {
    if pris <= 0 {
        0
    } else if krypto {
        klemt(belop::kvotient(belop_kr * 100_000_000, pris))
    } else {
        klemt(belop::kvotient(belop_kr, pris) * 100_000_000)
    }
}

pub fn antall(belop_kr: i64, pris: i64, krypto: bool) -> (r: i64)
    ensures
        r == antall_for(belop_kr as int, pris as int, krypto),
{
    if pris <= 0 {
        return 0;
    }
    let v: i128 = if krypto {
        belop::del(belop_kr as i128 * 100_000_000, pris as i128)
    } else {
        belop::del(belop_kr as i128, pris as i128) * 100_000_000
    };
    if v > i64::MAX as i128 {
        i64::MAX
    } else if v < i64::MIN as i128 {
        i64::MIN
    } else {
        v as i64
    }
}

/// The size of a purchase: for a fixed amount, or a fixed number where the
/// amount is 0.
pub fn order_size(order_value: i64, order_qty: i64, pris: i64, krypto: bool) -> (r: i64)
    ensures
        r == (if order_value > 0 {
            antall_for(order_value as int, pris as int, krypto)
        } else {
            order_qty as int
        }),
{
    if order_value > 0 {
        antall(order_value, pris, krypto)
    } else {
        order_qty
    }
}

/// Shares are bought whole, and what is bought never costs more than the
/// amount.
pub proof fn law_aldri_over_belopet(belop_kr: int, pris: int, krypto: bool)
    requires
        belop_kr >= 0,
        pris > 0,
    ensures
        antall_for(belop_kr, pris, krypto) >= 0,
        antall_for(belop_kr, pris, krypto) * pris <= belop_kr * 100_000_000,
        !krypto && belop_kr / pris * 100_000_000 <= i64::MAX ==> antall_for(belop_kr, pris, krypto) % 100_000_000
            == 0,
{
    let q = belop_kr * 100_000_000 / pris;
    assert(q >= 0 && q * pris <= belop_kr * 100_000_000) by (nonlinear_arith)
        requires
            q == (belop_kr * 100_000_000) / pris,
            pris > 0,
            belop_kr >= 0,
    ;
    let h = belop_kr / pris;
    assert(h >= 0 && h * pris <= belop_kr) by (nonlinear_arith)
        requires
            h == belop_kr / pris,
            pris > 0,
            belop_kr >= 0,
    ;
    assert((h * 100_000_000) * pris <= belop_kr * 100_000_000) by (nonlinear_arith)
        requires
            h * pris <= belop_kr,
    ;
    let a = antall_for(belop_kr, pris, krypto);
    let full = if krypto {
        q
    } else {
        h * 100_000_000
    };
    assert(0 <= a <= full);
    assert(a * pris <= full * pris) by (nonlinear_arith)
        requires
            0 <= a <= full,
            pris > 0,
    ;
}

// ---------------------------------------------------------------------------
// Orders that wait for a price
// ---------------------------------------------------------------------------

#[verifier::ext_equal]
pub struct LimitSyn {
    pub symbol: Seq<char>,
    pub side: Side,
    pub qty: int,
    pub amount_kr: int,
    pub level: int,
}

impl View for LimitOrder {
    type V = LimitSyn;

    open spec fn view(&self) -> LimitSyn {
        LimitSyn {
            symbol: self.symbol@,
            side: self.side,
            qty: self.qty as int,
            amount_kr: self.amount_kr as int,
            level: self.level as int,
        }
    }
}

pub open spec fn limiter(l: Seq<LimitOrder>) -> Seq<LimitSyn> {
    Seq::new(l.len(), |i: int| l[i]@)
}

/// The quote that sets an order off, if one does.
pub open spec fn utlosende(lo: LimitSyn, ferske: Seq<KursSyn>) -> Option<KursSyn> {
    match engine::kurs_for(ferske, lo.symbol, 0) {
        None => None,
        Some(q) => if (lo.side == Side::Buy && q.last <= lo.level) || (lo.side == Side::Sell && q.last
            >= lo.level) {
            Some(q)
        } else {
            None
        },
    }
}

/// The orders that go on waiting.
pub open spec fn ventende(l: Seq<LimitSyn>, ferske: Seq<KursSyn>) -> Seq<LimitSyn>
    decreases l.len(),
{
    if l.len() == 0 {
        l
    } else if utlosende(l.last(), ferske) is Some {
        ventende(l.drop_last(), ferske)
    } else {
        ventende(l.drop_last(), ferske).push(l.last())
    }
}

/// What becomes of an order that was set off.
#[derive(Debug)]
pub enum LimitUtfall {
    /// Nothing but a line in the log.
    Logg(String),
    /// It goes to the orders of the user.
    Ordre { symbol: String, side: Side, qty: i64, melding: String, toast: String },
}

pub enum LimitDom {
    Logg(Seq<char>),
    Ordre { symbol: Seq<char>, side: Side, qty: int, melding: Seq<char>, toast: Seq<char> },
}

pub open spec fn utfall_er(u: LimitUtfall, d: LimitDom) -> bool {
    match d {
        LimitDom::Logg(t) => u is Logg && u->Logg_0@ == t,
        LimitDom::Ordre { symbol: s, side: sd, qty: q, melding: m, toast: t } => match u {
            LimitUtfall::Logg(_) => false,
            LimitUtfall::Ordre { symbol, side, qty, melding, toast } => symbol@ == s && side == sd && qty == q
                && melding@ == m && toast@ == t,
        },
    }
}

/// How many an order is for, at a price and with so many held.
pub open spec fn limitantall(lo: LimitSyn, pris: int, holdt: int) -> int {
    let q = if lo.qty > 0 {
        lo.qty
    } else {
        antall_for(lo.amount_kr, pris, types::krypto(lo.symbol))
    };
    if lo.side == Side::Sell && holdt < q {
        holdt
    } else {
        q
    }
}

pub open spec fn uten_valuta_tekst(symbol: Seq<char>) -> Seq<char> {
    "💤 Limit-ordre for "@ + symbol + " utløst, men valutakursen mangler — ordren er fjernet."@
}

pub open spec fn null_tekst(symbol: Seq<char>, belop_kr: int, kurs: int) -> Seq<char> {
    "💤 Limit-ordre for "@ + symbol + (" utløst, men ga 0 i antall (beløp "@ + belop::belop_tekst(belop_kr, 0) + (
    " kr, kurs "@ + belop::belop_tekst(kurs, 2) + ") — fjernet."@))
}

pub open spec fn utlost_tekst(lo: LimitSyn, antall: int, kurs: int) -> Seq<char> {
    "💤 Limit-ordre utløst: "@ + lo.side.tekst_spec() + (" "@ + lo.symbol + (" x"@ + belop::belop_tekst(antall, 4) + (
    " — kursen nådde "@ + belop::belop_tekst(kurs, 2) + (" (nivå "@ + belop::belop_tekst(lo.level, 2) + ")."@))))
}

pub open spec fn limit_toast(lo: LimitSyn) -> Seq<char> {
    "💤 Limit: "@ + lo.side.tekst_spec() + (" "@ + lo.symbol + " utløst."@)
}

/// What becomes of an order that a quote sets off.
pub open spec fn limitdom(
    lo: LimitSyn,
    q: KursSyn,
    eide: Seq<PosisjonSyn>,
    base: Seq<char>,
    fx: Map<Seq<char>, (i64, u64)>,
) -> LimitDom {
    match engine::grunnpris(q, base, fx) {
        None => LimitDom::Logg(uten_valuta_tekst(lo.symbol)),
        Some(px) => {
            let n = limitantall(lo, px, engine::antall_av(eide, lo.symbol));
            if n <= 0 {
                LimitDom::Logg(null_tekst(lo.symbol, lo.amount_kr, q.last))
            } else {
                LimitDom::Ordre {
                    symbol: lo.symbol,
                    side: lo.side,
                    qty: n,
                    melding: utlost_tekst(lo, n, q.last),
                    toast: limit_toast(lo),
                }
            }
        },
    }
}

/// What becomes of the orders that are set off, in their order.
pub open spec fn limitdommer(
    l: Seq<LimitSyn>,
    ferske: Seq<KursSyn>,
    eide: Seq<PosisjonSyn>,
    base: Seq<char>,
    fx: Map<Seq<char>, (i64, u64)>,
) -> Seq<LimitDom>
    decreases l.len(),
{
    if l.len() == 0 {
        Seq::empty()
    } else {
        let for_ = limitdommer(l.drop_last(), ferske, eide, base, fx);
        match utlosende(l.last(), ferske) {
            Some(q) => for_.push(limitdom(l.last(), q, eide, base, fx)),
            None => for_,
        }
    }
}

fn kopi(lo: &LimitOrder) -> (r: LimitOrder)
    ensures
        r@ == lo@,
{
    LimitOrder {
        symbol: copy_text(&lo.symbol),
        side: lo.side,
        qty: lo.qty,
        amount_kr: lo.amount_kr,
        level: lo.level,
    }
}

fn skriv_utlost(lo: &LimitOrder, n: i64, kurs: i64) -> (r: String)
    ensures
        r@ == utlost_tekst(lo@, n as int, kurs as int),
{
    let nivaa: String = belop::som_tekst(lo.level, 2);
    let e: String = three(" (nivå ", nivaa.as_str(), ").");
    let k: String = belop::som_tekst(kurs, 2);
    let d: String = three(" — kursen nådde ", k.as_str(), e.as_str());
    let a: String = belop::som_tekst(n, 4);
    let c: String = three(" x", a.as_str(), d.as_str());
    let b: String = three(" ", lo.symbol.as_str(), c.as_str());
    three("💤 Limit-ordre utløst: ", lo.side.tekst(), b.as_str())
}

fn skriv_null(symbol: &str, belop_kr: i64, kurs: i64) -> (r: String)
    ensures
        r@ == null_tekst(symbol@, belop_kr as int, kurs as int),
{
    let k: String = belop::som_tekst(kurs, 2);
    let c: String = three(" kr, kurs ", k.as_str(), ") — fjernet.");
    let a: String = belop::som_tekst(belop_kr, 0);
    let b: String = three(" utløst, men ga 0 i antall (beløp ", a.as_str(), c.as_str());
    three("💤 Limit-ordre for ", symbol, b.as_str())
}

impl Engine {
    fn dom_limit(&self, lo: &LimitOrder, q: &Quote, positions: &Vec<Position>) -> (r: LimitUtfall)
        requires
            self.gyldig(),
        ensures
            utfall_er(
                r,
                limitdom(lo@, q@, types::posisjoner(positions@), self.cfg.base_currency@, self.fx@),
            ),
    {
        let px: i64 = match self.base_price(q) {
            Some(p) => p,
            None => return LimitUtfall::Logg(
                three(
                    "💤 Limit-ordre for ",
                    lo.symbol.as_str(),
                    " utløst, men valutakursen mangler — ordren er fjernet.",
                ),
            ),
        };
        let mut n: i64 = if lo.qty > 0 {
            lo.qty
        } else {
            antall(lo.amount_kr, px, types::is_crypto(lo.symbol.as_str()))
        };
        match lo.side {
            Side::Sell => {
                let holdt: i64 = holdt_antall(positions, lo.symbol.as_str());
                if holdt < n {
                    n = holdt;
                }
            },
            Side::Buy => {},
        }
        if n <= 0 {
            return LimitUtfall::Logg(skriv_null(lo.symbol.as_str(), lo.amount_kr, q.last));
        }
        let hale: String = three(" ", lo.symbol.as_str(), " utløst.");
        LimitUtfall::Ordre {
            symbol: copy_text(&lo.symbol),
            side: lo.side,
            qty: n,
            melding: skriv_utlost(lo, n, q.last),
            toast: three("💤 Limit: ", lo.side.tekst(), hale.as_str()),
        }
    }

    /// Holds the waiting orders to the prices: those that are set off leave the
    /// list, and what becomes of them is handed back.
    pub fn check_limit_orders(
        &self,
        limit_orders: &mut Vec<LimitOrder>,
        fresh: &Vec<Quote>,
        positions: &Vec<Position>,
    ) -> (r: Vec<LimitUtfall>)
        requires
            self.gyldig(),
        ensures
            limiter(final(limit_orders)@) == ventende(limiter(old(limit_orders)@), engine::kurser(fresh@)),
            ({
                let d = limitdommer(
                    limiter(old(limit_orders)@),
                    engine::kurser(fresh@),
                    types::posisjoner(positions@),
                    self.cfg.base_currency@,
                    self.fx@,
                );
                r@.len() == d.len() && forall|i: int| 0 <= i < d.len() ==> utfall_er(#[trigger] r@[i], d[i])
            }),
    {
        let ghost alle = limiter(limit_orders@);
        let ghost ferske = engine::kurser(fresh@);
        let ghost eide = types::posisjoner(positions@);
        let mut venter: Vec<LimitOrder> = Vec::new();
        let mut ut: Vec<LimitUtfall> = Vec::new();
        let mut i: usize = 0;
        assert(alle.take(0) =~= Seq::empty());
        assert(limiter(venter@) =~= Seq::empty());
        while i < limit_orders.len()
            invariant
                i <= limit_orders@.len(),
                self.gyldig(),
                alle == limiter(limit_orders@),
                ferske == engine::kurser(fresh@),
                eide == types::posisjoner(positions@),
                limiter(venter@) == ventende(alle.take(i as int), ferske),
                ({
                    let d = limitdommer(alle.take(i as int), ferske, eide, self.cfg.base_currency@, self.fx@);
                    ut@.len() == d.len() && forall|k: int| 0 <= k < d.len() ==> utfall_er(#[trigger] ut@[k], d[k])
                }),
            decreases limit_orders.len() - i,
        {
            let lo: &LimitOrder = &limit_orders[i];
            proof {
                assert(alle.take(i + 1).drop_last() =~= alle.take(i as int));
                assert(alle.take(i + 1).last() == lo@);
            }
            let ghost for_ = limiter(venter@);
            let mut traff: Option<&Quote> = None;
            if let Some(q) = finn_kurs(fresh, lo.symbol.as_str()) {
                let naadd: bool = match lo.side {
                    Side::Buy => q.last <= lo.level,
                    Side::Sell => q.last >= lo.level,
                };
                if naadd {
                    traff = Some(q);
                }
            }
            match traff {
                Some(q) => {
                    let u: LimitUtfall = self.dom_limit(lo, q, positions);
                    ut.push(u);
                },
                None => {
                    venter.push(kopi(lo));
                    assert(limiter(venter@) =~= for_.push(lo@));
                },
            }
            i += 1;
        }
        assert(alle.take(i as int) =~= alle);
        *limit_orders = venter;
        ut
    }
}

/// An order that is set off never sells more than is held.
pub proof fn law_selger_ikke_mer_enn_eid(
    lo: LimitSyn,
    q: KursSyn,
    eide: Seq<PosisjonSyn>,
    base: Seq<char>,
    fx: Map<Seq<char>, (i64, u64)>,
)
    requires
        lo.side == Side::Sell,
    ensures
        limitdom(lo, q, eide, base, fx) matches LimitDom::Ordre { qty, .. } ==> qty <= engine::antall_av(
            eide,
            lo.symbol,
        ),
{
}

/// Every order either goes on waiting or is dealt with, never both.
pub proof fn law_venter_eller_utlost(
    l: Seq<LimitSyn>,
    ferske: Seq<KursSyn>,
    eide: Seq<PosisjonSyn>,
    base: Seq<char>,
    fx: Map<Seq<char>, (i64, u64)>,
)
    ensures
        ventende(l, ferske).len() + limitdommer(l, ferske, eide, base, fx).len() == l.len(),
    decreases l.len(),
{
    if l.len() > 0 {
        law_venter_eller_utlost(l.drop_last(), ferske, eide, base, fx);
    }
}

// ---------------------------------------------------------------------------
// Savings plans
// ---------------------------------------------------------------------------

#[verifier::ext_equal]
pub struct PlanSyn {
    pub symbol: Seq<char>,
    pub amount_kr: int,
    pub day: int,
    pub last_run: Seq<char>,
}

impl View for SavingsPlan {
    type V = PlanSyn;

    open spec fn view(&self) -> PlanSyn {
        PlanSyn {
            symbol: self.symbol@,
            amount_kr: self.amount_kr as int,
            day: self.day as int,
            last_run: self.last_run@,
        }
    }
}

pub open spec fn planer(l: Seq<SavingsPlan>) -> Seq<PlanSyn> {
    Seq::new(l.len(), |i: int| l[i]@)
}

/// Whether a plan is due: not yet this month, and the day has come.
pub open spec fn forfalt(p: PlanSyn, maaned: Seq<char>, dag: int) -> bool {
    p.last_run != maaned && dag >= p.day
}

/// The plans with those that are due marked as carried out.
pub open spec fn markert(l: Seq<PlanSyn>, maaned: Seq<char>, dag: int) -> Seq<PlanSyn> {
    l.map_values(
        |p: PlanSyn|
            if forfalt(p, maaned, dag) {
                PlanSyn { last_run: maaned, ..p }
            } else {
                p
            },
    )
}

/// The plans that are due, as they are marked.
pub open spec fn forfalte(l: Seq<PlanSyn>, maaned: Seq<char>, dag: int) -> Seq<PlanSyn>
    decreases l.len(),
{
    if l.len() == 0 {
        l
    } else if forfalt(l.last(), maaned, dag) {
        forfalte(l.drop_last(), maaned, dag).push(PlanSyn { last_run: maaned, ..l.last() })
    } else {
        forfalte(l.drop_last(), maaned, dag)
    }
}

fn plankopi(p: &SavingsPlan, last_run: &str) -> (r: SavingsPlan)
    ensures
        r@ == (PlanSyn { last_run: last_run@, ..p@ }),
{
    SavingsPlan {
        symbol: copy_text(&p.symbol),
        amount_kr: p.amount_kr,
        day: p.day,
        last_run: last_run.to_owned(),
    }
}

/// Takes the plans that are due this month, and marks them.
pub fn ta_forfalte(plans: &mut Vec<SavingsPlan>, maaned: &str, dag: u32) -> (r: Vec<SavingsPlan>)
    ensures
        planer(final(plans)@) == markert(planer(old(plans)@), maaned@, dag as int),
        planer(r@) == forfalte(planer(old(plans)@), maaned@, dag as int),
{
    let ghost alle = planer(plans@);
    let mut ut: Vec<SavingsPlan> = Vec::new();
    let mut i: usize = 0;
    assert(alle.take(0) =~= Seq::empty());
    assert(planer(ut@) =~= Seq::empty());
    while i < plans.len()
        invariant
            i <= plans@.len(),
            plans@.len() == alle.len(),
            forall|k: int| i <= k < alle.len() ==> (#[trigger] plans@[k])@ == alle[k],
            forall|k: int| 0 <= k < i ==> (#[trigger] plans@[k])@ == markert(alle, maaned@, dag as int)[k],
            planer(ut@) == forfalte(alle.take(i as int), maaned@, dag as int),
        decreases alle.len() - i,
    {
        proof {
            assert(alle.take(i + 1).drop_last() =~= alle.take(i as int));
            assert(alle.take(i + 1).last() == plans@[i as int]@);
        }
        let ghost for_ = planer(ut@);
        let ghost denne = plans@[i as int]@;
        if !same(plans[i].last_run.as_str(), maaned) && dag >= plans[i].day {
            let a: SavingsPlan = plankopi(&plans[i], maaned);
            let b: SavingsPlan = plankopi(&plans[i], maaned);
            ut.push(a);
            assert(planer(ut@) =~= for_.push(PlanSyn { last_run: maaned@, ..denne }));
            plans.set(i, b);
        }
        assert(plans@[i as int]@ =~= markert(alle, maaned@, dag as int)[i as int]);
        i += 1;
    }
    assert(alle.take(i as int) =~= alle);
    assert(planer(plans@) =~= markert(alle, maaned@, dag as int));
    ut
}

/// The plans with the first of a symbol and a day marked as never carried out.
pub open spec fn angret(l: Seq<PlanSyn>, symbol: Seq<char>, dag: int) -> Seq<PlanSyn>
    decreases l.len(),
{
    if l.len() == 0 {
        l
    } else if l[0].symbol == symbol && l[0].day == dag {
        seq![PlanSyn { last_run: ""@, ..l[0] }] + l.skip(1)
    } else {
        seq![l[0]] + angret(l.skip(1), symbol, dag)
    }
}

/// A plan that could not be carried out for want of a price is tried again.
pub fn angre(plans: &mut Vec<SavingsPlan>, symbol: &str, dag: u32)
    ensures
        planer(final(plans)@) == angret(planer(old(plans)@), symbol@, dag as int),
{
    let ghost alle = planer(plans@);
    let mut i: usize = 0;
    assert(alle.skip(0) =~= alle);
    assert(alle.take(0) + angret(alle.skip(0), symbol@, dag as int) =~= angret(alle, symbol@, dag as int));
    while i < plans.len()
        invariant
            i <= plans@.len(),
            alle == planer(plans@),
            alle == planer(old(plans)@),
            alle.take(i as int) + angret(alle.skip(i as int), symbol@, dag as int) == angret(
                alle,
                symbol@,
                dag as int,
            ),
        decreases plans.len() - i,
    {
        let ghost rest = alle.skip(i as int);
        proof {
            assert(rest[0] == alle[i as int]);
            assert(rest.skip(1) =~= alle.skip(i + 1));
        }
        if plans[i].day == dag && same(plans[i].symbol.as_str(), symbol) {
            let p: SavingsPlan = plankopi(&plans[i], "");
            plans.set(i, p);
            assert(planer(plans@) =~= alle.take(i as int) + angret(rest, symbol@, dag as int));
            return;
        }
        assert(alle.take(i + 1) + angret(alle.skip(i + 1), symbol@, dag as int) =~= alle.take(i as int) + angret(
            rest,
            symbol@,
            dag as int,
        ));
        i += 1;
    }
    assert(alle.take(i as int) + angret(alle.skip(i as int), symbol@, dag as int) =~= alle);
}

/// What becomes of a plan that is due.
#[derive(Debug)]
pub enum PlanUtfall {
    /// The amount does not reach.
    ForLite(String),
    Kjop { qty: i64, melding: String, toast: String },
}

pub open spec fn for_lite_tekst(p: PlanSyn, kurs: int) -> Seq<char> {
    "📅 Spareavtale "@ + p.symbol + (": "@ + belop::belop_tekst(p.amount_kr, 0) + (
    " kr rekker ikke til én aksje (kurs "@ + belop::belop_tekst(kurs, 2) + ") — hoppet over denne måneden."@))
}

pub open spec fn sparekjop_tekst(p: PlanSyn, n: int) -> Seq<char> {
    "📅 Spareavtale: kjøper "@ + p.symbol + (" x"@ + belop::belop_tekst(n, 4) + (" for ca. "@
        + belop::belop_tekst(p.amount_kr, 0) + (" kr (dag "@ + number_text::decimal(p.day as nat)
        + " i måneden)."@)))
}

/// What becomes of a plan that is due, at a price in its own currency and in
/// that of the account.
pub fn utfor_plan(p: &SavingsPlan, kurs: i64, px: i64) -> (r: PlanUtfall)
    ensures
        ({
            let n = antall_for(p.amount_kr as int, px as int, types::krypto(p.symbol@));
            match r {
                PlanUtfall::ForLite(t) => n <= 0 && t@ == for_lite_tekst(p@, kurs as int),
                PlanUtfall::Kjop { qty, melding, toast } => n > 0 && qty == n && melding@ == sparekjop_tekst(p@, n)
                    && toast@ == "📅 Spareavtale: kjøper "@ + p.symbol@ + "."@,
            }
        }),
{
    let n: i64 = antall(p.amount_kr, px, types::is_crypto(p.symbol.as_str()));
    let belop_tekst: String = belop::som_tekst(p.amount_kr, 0);
    if n <= 0 {
        let k: String = belop::som_tekst(kurs, 2);
        let c: String = three(
            " kr rekker ikke til én aksje (kurs ",
            k.as_str(),
            ") — hoppet over denne måneden.",
        );
        let b: String = three(": ", belop_tekst.as_str(), c.as_str());
        return PlanUtfall::ForLite(three("📅 Spareavtale ", p.symbol.as_str(), b.as_str()));
    }
    let d: String = number_text::decimal_text(p.day as u128);
    let e: String = three(" kr (dag ", d.as_str(), " i måneden).");
    let c: String = three(" for ca. ", belop_tekst.as_str(), e.as_str());
    let a: String = belop::som_tekst(n, 4);
    let b: String = three(" x", a.as_str(), c.as_str());
    PlanUtfall::Kjop {
        qty: n,
        melding: three("📅 Spareavtale: kjøper ", p.symbol.as_str(), b.as_str()),
        toast: three("📅 Spareavtale: kjøper ", p.symbol.as_str(), "."),
    }
}

/// A plan is carried out at most once a month: after those that are due have
/// been taken, none is due.
pub proof fn law_en_gang_i_maaneden(l: Seq<PlanSyn>, maaned: Seq<char>, dag: int)
    ensures
        forfalte(markert(l, maaned, dag), maaned, dag) == Seq::<PlanSyn>::empty(),
    decreases l.len(),
{
    let m = markert(l, maaned, dag);
    if l.len() > 0 {
        law_en_gang_i_maaneden(l.drop_last(), maaned, dag);
        assert(m.drop_last() =~= markert(l.drop_last(), maaned, dag));
        assert(!forfalt(m.last(), maaned, dag));
    }
}

// ---------------------------------------------------------------------------
// Orders of the user
// ---------------------------------------------------------------------------

/// What becomes of an order of the user.
#[derive(Debug)]
pub enum ManuellUtfall {
    /// Nothing but a line in the log.
    Logg(String),
    /// It is sent at this price.
    Send(i64),
}

/// The value of the position after an order.
pub open spec fn verdi_etter(side: Side, holdt: int, antall: int, pris: int) -> int {
    match side {
        Side::Buy => (holdt + antall) * pris,
        Side::Sell => if holdt - antall > 0 {
            (holdt - antall) * pris
        } else {
            0
        },
    }
}

fn regn_verdi_etter(side: Side, holdt: i64, antall: i64, pris: i64) -> (r: i128)
    requires
        antall > i64::MIN,
    ensures
        r == verdi_etter(side, holdt as int, antall as int, pris as int),
{
    match side {
        Side::Buy => {
            let n: i128 = holdt as i128 + antall as i128;
            assert(i128::MIN <= n * pris <= i128::MAX) by (nonlinear_arith)
                requires
                    -0xffff_ffff_ffff_ffff <= n <= 0xffff_ffff_ffff_fffe,
                    -0x8000_0000_0000_0000 <= pris <= 0x7fff_ffff_ffff_ffff,
            ;
            n * pris as i128
        },
        Side::Sell => {
            let n: i128 = holdt as i128 - antall as i128;
            if n > 0 {
                assert(i128::MIN <= n * pris <= i128::MAX) by (nonlinear_arith)
                    requires
                        0 <= n <= 0xffff_ffff_ffff_ffff,
                        -0x8000_0000_0000_0000 <= pris <= 0x7fff_ffff_ffff_ffff,
                ;
                n * pris as i128
            } else {
                0
            }
        },
    }
}

pub open spec fn forkastet_tekst(side: Side, symbol: Seq<char>) -> Seq<char> {
    "Manuell ordre "@ + side.tekst_spec() + (" "@ + symbol + " forkastet — kill switch er på."@)
}

pub open spec fn uten_kurs_tekst(symbol: Seq<char>) -> Seq<char> {
    "Manuell ordre: mangler kurs eller valutakurs for "@ + symbol + "."@
}

pub open spec fn manuell_blokkert(side: Side, symbol: Seq<char>, grunn: Seq<char>) -> Seq<char> {
    "Manuell "@ + side.tekst_spec() + (" "@ + symbol + (" blokkert av risikoregel: "@ + grunn))
}

impl Engine {
    /// Decides on an order of the user: the kill switch stops it, a price must
    /// be known, and it must pass the rules.
    pub fn vurder_manuell(
        &mut self,
        symbol: &str,
        side: Side,
        qty: i64,
        killed: bool,
        quote: Option<&Quote>,
        held: i64,
        equity: i128,
        naa: u64,
    ) -> (r: ManuellUtfall)
        requires
            old(self).gyldig(),
            qty > i64::MIN,
            old(self).risk.kan_maale(equity as int),
        ensures
            final(self).gyldig(),
            *final(self) == (Engine { risk: final(self).risk, ..*old(self) }),
            final(self).risk.cfg == old(self).risk.cfg && final(self).risk.start_equity
                == old(self).risk.start_equity,
            killed ==> r is Logg && r->Logg_0@ == forkastet_tekst(side, symbol@) && final(self).risk
                == old(self).risk,
            !killed ==> (match (match quote {
                Some(q) => engine::grunnpris((*q)@, old(self).cfg.base_currency@, old(self).fx@),
                None => None,
            }) {
                None => r is Logg && r->Logg_0@ == uten_kurs_tekst(symbol@) && final(self).risk == old(self).risk,
                Some(px) => match old(self).risk.dom_over(
                    qty * px,
                    verdi_etter(side, held as int, qty as int, px),
                    equity as int,
                    naa,
                ) {
                    Some(grunn) => r is Logg && r->Logg_0@ == manuell_blokkert(side, symbol@, grunn),
                    None => r is Send && r->Send_0 == px,
                },
            }),
            !killed ==> (match (match quote {
                Some(q) => engine::grunnpris((*q)@, old(self).cfg.base_currency@, old(self).fx@),
                None => None,
            }) {
                None => true,
                Some(px) => final(self).risk.order_times@ == old(self).risk.tider(
                    qty * px,
                    verdi_etter(side, held as int, qty as int, px),
                    equity as int,
                    naa,
                ),
            }),
    {
        if killed {
            let b: String = three(" ", symbol, " forkastet — kill switch er på.");
            return ManuellUtfall::Logg(three("Manuell ordre ", side.tekst(), b.as_str()));
        }
        let pris: Option<i64> = match quote {
            Some(q) => self.base_price(q),
            None => None,
        };
        let px: i64 = match pris {
            Some(p) => p,
            None => return ManuellUtfall::Logg(
                three("Manuell ordre: mangler kurs eller valutakurs for ", symbol, "."),
            ),
        };
        proof {
            types::lemma_produkt(qty as int, px as int);
        }
        let etter: i128 = regn_verdi_etter(side, held, qty, px);
        match self.risk.check(qty as i128 * px as i128, etter, equity, naa) {
            RiskVerdict::Blocked(grunn) => {
                let c: String = two(" blokkert av risikoregel: ", grunn.as_str());
                let b: String = three(" ", symbol, c.as_str());
                ManuellUtfall::Logg(three("Manuell ", side.tekst(), b.as_str()))
            },
            RiskVerdict::Cleared => ManuellUtfall::Send(px),
        }
    }
}

// ---------------------------------------------------------------------------
// Orders of the strategies
// ---------------------------------------------------------------------------

/// What becomes of a signal.
#[derive(Debug)]
pub enum SignalUtfall {
    Ingenting,
    /// The amount does not reach.
    ForLite(String),
    /// A line in the log, and perhaps a message to the telephone.
    Blokkert(String, Option<String>),
    /// So many are ordered.
    Send(i64),
}

/// How many a signal is for: a purchase only with nothing held, a sale of
/// everything that is held.
pub open spec fn signalantall(side: Side, holdt: int, order_value: int, order_qty: int, pris: int, krypto: bool) -> Option<
    int,
> {
    match side {
        Side::Buy => if holdt <= 0 {
            Some(
                if order_value > 0 {
                    antall_for(order_value, pris, krypto)
                } else {
                    order_qty
                },
            )
        } else {
            None
        },
        Side::Sell => if holdt > 0 {
            Some(holdt)
        } else {
            None
        },
    }
}

pub open spec fn rekker_ikke_tekst(symbol: Seq<char>, order_value: int, pris: int) -> Seq<char> {
    symbol + ": order_value "@ + (belop::belop_tekst(order_value, 0) + (" rekker ikke til én enhet (kurs "@
        + belop::belop_tekst(pris, 2) + ") — hopper over."@))
}

/// What is said of a signal that the rules block. A loss limit is serious
/// enough to wake the telephone.
pub open spec fn blokkert_varsel(grunn: Seq<char>) -> Option<Seq<char>> {
    if text::has(grunn, "tapsgrense"@) {
        Some("🛑 "@ + grunn)
    } else {
        None
    }
}

pub open spec fn signal_blokkert(side: Side, symbol: Seq<char>, grunn: Seq<char>) -> Seq<char> {
    side.tekst_spec() + " "@ + (symbol + (" blokkert av risikoregel: "@ + grunn))
}

/// The value of the position after the order of a signal.
pub open spec fn signalverdi(side: Side, holdt: int, antall: int, pris: int) -> int {
    match side {
        Side::Buy => (holdt + antall) * pris,
        Side::Sell => 0,
    }
}

pub open spec fn valgfri(o: Option<String>) -> Option<Seq<char>> {
    match o {
        Some(s) => Some(s@),
        None => None,
    }
}

impl Engine {
    /// Decides on a signal for a symbol at a price in the currency of the
    /// account.
    pub fn vurder_signal(&mut self, symbol: &str, side: Side, px: i64, held: i64, equity: i128, naa: u64) -> (r:
        SignalUtfall)
        requires
            old(self).gyldig(),
            old(self).risk.kan_maale(equity as int),
        ensures
            final(self).gyldig(),
            *final(self) == (Engine { risk: final(self).risk, ..*old(self) }),
            final(self).risk.cfg == old(self).risk.cfg && final(self).risk.start_equity
                == old(self).risk.start_equity,
            ({
                let c = old(self).cfg.strategy;
                match signalantall(
                    side,
                    held as int,
                    c.order_value as int,
                    c.order_qty as int,
                    px as int,
                    types::krypto(symbol@),
                ) {
                    None => r is Ingenting && final(self).risk == old(self).risk,
                    Some(n) => if n <= 0 {
                        r is ForLite && r->ForLite_0@ == rekker_ikke_tekst(symbol@, c.order_value as int, px as int)
                            && final(self).risk == old(self).risk
                    } else {
                        let etter = signalverdi(side, held as int, n, px as int);
                        &&& final(self).risk.order_times@ == old(self).risk.tider(n * px, etter, equity as int, naa)
                        &&& match old(self).risk.dom_over(n * px, etter, equity as int, naa) {
                            Some(grunn) => r is Blokkert && r->Blokkert_0@ == signal_blokkert(side, symbol@, grunn)
                                && valgfri(r->Blokkert_1) == blokkert_varsel(grunn),
                            None => r is Send && r->Send_0 == n,
                        }
                    },
                }
            }),
    {
        let n: i64 = match side {
            Side::Buy => if held <= 0 {
                order_size(
                    self.cfg.strategy.order_value,
                    self.cfg.strategy.order_qty,
                    px,
                    types::is_crypto(symbol),
                )
            } else {
                return SignalUtfall::Ingenting;
            },
            Side::Sell => if held > 0 {
                held
            } else {
                return SignalUtfall::Ingenting;
            },
        };
        if n <= 0 {
            let k: String = belop::som_tekst(px, 2);
            let c: String = three(" rekker ikke til én enhet (kurs ", k.as_str(), ") — hopper over.");
            let v: String = belop::som_tekst(self.cfg.strategy.order_value, 0);
            let b: String = two(v.as_str(), c.as_str());
            return SignalUtfall::ForLite(three(symbol, ": order_value ", b.as_str()));
        }
        proof {
            types::lemma_produkt(n as int, px as int);
        }
        let etter: i128 = match side {
            Side::Buy => regn_verdi_etter(Side::Buy, held, n, px),
            Side::Sell => 0,
        };
        match self.risk.check(n as i128 * px as i128, etter, equity, naa) {
            RiskVerdict::Blocked(grunn) => {
                let varsel: Option<String> = if text::text_has(grunn.as_str(), "tapsgrense") {
                    Some(two("🛑 ", grunn.as_str()))
                } else {
                    None
                };
                let c: String = two(" blokkert av risikoregel: ", grunn.as_str());
                let b: String = two(symbol, c.as_str());
                SignalUtfall::Blokkert(three(side.tekst(), " ", b.as_str()), varsel)
            },
            RiskVerdict::Cleared => SignalUtfall::Send(n),
        }
    }
}

// ---------------------------------------------------------------------------
// Orders that were sent
// ---------------------------------------------------------------------------

/// An order on one line.
pub open spec fn ordrelinje(o: Order) -> Seq<char> {
    o.side.tekst_spec() + " "@ + (o.symbol@ + (" x"@ + belop::belop_tekst(o.qty as int, 0) + (" @ "@
        + belop::belop_tekst(o.avg_price as int, 2) + (" ["@ + o.status.tekst_spec() + "]"@))))
}

fn skriv_ordrelinje(o: &Order) -> (r: String)
    ensures
        r@ == ordrelinje(*o),
{
    let e: String = three(" [", o.status.tekst(), "]");
    let p: String = belop::som_tekst(o.avg_price, 2);
    let d: String = three(" @ ", p.as_str(), e.as_str());
    let q: String = belop::som_tekst(o.qty, 0);
    let c: String = three(" x", q.as_str(), d.as_str());
    let b: String = two(o.symbol.as_str(), c.as_str());
    three(o.side.tekst(), " ", b.as_str())
}

/// What the log says of an order.
pub fn ordrelogg(o: &Order) -> (r: String)
    ensures
        r@ == (if o.status == OrderStatus::Rejected {
            "AVVIST: "@
        } else {
            "ORDRE: "@
        }) + ordrelinje(*o),
{
    let l: String = skriv_ordrelinje(o);
    match o.status {
        OrderStatus::Rejected => two("AVVIST: ", l.as_str()),
        _ => two("ORDRE: ", l.as_str()),
    }
}

/// What the telephone is told of an order; nothing of one that was refused.
pub fn ordrevarsel(o: &Order) -> (r: Option<String>)
    ensures
        (match r {
            Some(t) => o.status != OrderStatus::Rejected && t@ == ordrelinje(*o) + " — "@ + o.note@,
            None => o.status == OrderStatus::Rejected,
        }),
{
    match o.status {
        OrderStatus::Rejected => None,
        _ => {
            let l: String = skriv_ordrelinje(o);
            Some(three(l.as_str(), " — ", o.note.as_str()))
        },
    }
}

/// The line of an order in the history, at a time that is written already.
pub fn transaksjon(o: &Order, ts: &str, megler: &str) -> (r: TxRow)
    ensures
        r.ts@ == ts@,
        r.symbol@ == o.symbol@,
        r.side@ == o.side.tekst_spec(),
        r.qty == o.qty,
        r.price == o.avg_price,
        r.status@ == o.status.tekst_spec(),
        r.broker@ == megler@,
        r.note@ == o.note@,
{
    TxRow {
        ts: ts.to_owned(),
        symbol: copy_text(&o.symbol),
        side: o.side.tekst().to_owned(),
        qty: o.qty,
        price: o.avg_price,
        status: o.status.tekst().to_owned(),
        broker: megler.to_owned(),
        note: copy_text(&o.note),
    }
}

// ---------------------------------------------------------------------------
// What sets an order off, and how large it is
// ---------------------------------------------------------------------------

/// An amount buys as much as it pays for: one more of the smallest unit, or one more
/// whole share, would cost more than the amount.
pub proof fn law_belopet_brukes(belop_kr: int, pris: int, krypto: bool)
    requires
        0 <= belop_kr,
        pris > 0,
        antall_for(belop_kr, pris, krypto) < i64::MAX,
    ensures
        antall_for(belop_kr, pris, krypto) * pris <= belop_kr * 100_000_000,
        krypto ==> (antall_for(belop_kr, pris, krypto) + 1) * pris > belop_kr * 100_000_000,
        !krypto ==> (antall_for(belop_kr, pris, krypto) + 100_000_000) * pris > belop_kr * 100_000_000,
        !krypto ==> antall_for(belop_kr, pris, krypto) % 100_000_000 == 0,
{
    law_aldri_over_belopet(belop_kr, pris, krypto);
    belop::law_kvotient(belop_kr * 100_000_000, pris);
    belop::law_kvotient(belop_kr, pris);
    let h = belop::kvotient(belop_kr, pris);
    assert((h * 100_000_000 + 100_000_000) * pris == ((h + 1) * pris) * 100_000_000) by (nonlinear_arith);
    if !krypto {
        assert(antall_for(belop_kr, pris, krypto) == h * 100_000_000);
    }
}

/// A waiting purchase is set off exactly when the price of its symbol has come down
/// to its level, a waiting sale exactly when it has come up to it.
pub proof fn law_nivaaet_utloser(lo: LimitSyn, ferske: Seq<KursSyn>, k: int)
    requires
        0 <= k < ferske.len(),
        ferske[k].symbol == lo.symbol,
        forall|j: int| 0 <= j < k ==> (#[trigger] ferske[j]).symbol != lo.symbol,
    ensures
        lo.side == Side::Buy ==> (utlosende(lo, ferske) is Some <==> ferske[k].last <= lo.level),
        lo.side == Side::Sell ==> (utlosende(lo, ferske) is Some <==> ferske[k].last >= lo.level),
        utlosende(lo, ferske) matches Some(q) ==> q == ferske[k],
{
    engine::law_forste_kurs(ferske, lo.symbol, k);
}

/// Without a price of its symbol an order goes on waiting.
pub proof fn law_uten_kurs_venter(lo: LimitSyn, ferske: Seq<KursSyn>)
    requires
        forall|j: int| 0 <= j < ferske.len() ==> (#[trigger] ferske[j]).symbol != lo.symbol,
    ensures
        utlosende(lo, ferske) is None,
{
    engine::law_forste_kurs(ferske, lo.symbol, ferske.len() as int);
}

/// The orders that wait are exactly those that are not set off, in their order.
pub proof fn law_resten_venter(l: Seq<LimitSyn>, ferske: Seq<KursSyn>)
    ensures
        ventende(l, ferske) == l.filter(|lo: LimitSyn| utlosende(lo, ferske) is None),
    decreases l.len(),
{
    reveal(Seq::filter);
    if l.len() > 0 {
        law_resten_venter(l.drop_last(), ferske);
    }
}

/// An order that is set off is for what was asked: so many, or as many as the amount
/// pays for where no number was given; a sale never for more than is held, and for
/// all that is held where more was asked. It keeps its symbol and its side.
pub proof fn law_limitordren(
    lo: LimitSyn,
    q: KursSyn,
    eide: Seq<PosisjonSyn>,
    base: Seq<char>,
    fx: Map<Seq<char>, (i64, u64)>,
)
    ensures
        ({
            let holdt = engine::antall_av(eide, lo.symbol);
            match (engine::grunnpris(q, base, fx), limitdom(lo, q, eide, base, fx)) {
                (None, d) => d is Logg,
                (Some(px), LimitDom::Ordre { symbol, side, qty, .. }) => {
                    &&& symbol == lo.symbol
                    &&& side == lo.side
                    &&& qty > 0
                    &&& side == Side::Sell ==> qty <= holdt
                    &&& lo.qty > 0 && (side == Side::Buy || lo.qty <= holdt) ==> qty == lo.qty
                    &&& lo.qty > 0 && side == Side::Sell && lo.qty > holdt ==> qty == holdt
                    &&& lo.qty <= 0 && lo.amount_kr >= 0 ==> qty * px <= lo.amount_kr * 100_000_000
                    &&& lo.qty <= 0 && lo.amount_kr >= 0 && side == Side::Buy && qty < i64::MAX ==> (qty + (
                    if types::krypto(lo.symbol) {
                        1int
                    } else {
                        100_000_000
                    })) * px > lo.amount_kr * 100_000_000
                },
                (Some(px), LimitDom::Logg(_)) => {
                    &&& !(lo.qty > 0 && (lo.side == Side::Buy || holdt > 0))
                },
            }
        }),
{
    if let Some(px) = engine::grunnpris(q, base, fx) {
        let krypto = types::krypto(lo.symbol);
        let n = antall_for(lo.amount_kr, px, krypto);
        if lo.amount_kr >= 0 && px > 0 {
            law_aldri_over_belopet(lo.amount_kr, px, krypto);
            if n < i64::MAX {
                law_belopet_brukes(lo.amount_kr, px, krypto);
            }
            let m = limitantall(lo, px, engine::antall_av(eide, lo.symbol));
            if lo.qty <= 0 {
                assert(m <= n);
                assert(m * px <= n * px) by (nonlinear_arith)
                    requires
                        m <= n,
                        px > 0,
                ;
            }
        }
    }
}

/// A plan is due exactly when it has not been carried out this month and its day has
/// come or passed; those that are due are taken, all of them and in their order, and
/// marked with the month.
pub proof fn law_forfalte_planer(l: Seq<PlanSyn>, maaned: Seq<char>, dag: int)
    ensures
        forfalte(l, maaned, dag) == l.filter(|p: PlanSyn| p.last_run != maaned && p.day <= dag).map_values(
            |p: PlanSyn| PlanSyn { last_run: maaned, ..p },
        ),
        markert(l, maaned, dag).len() == l.len(),
        forall|i: int|
            0 <= i < l.len() ==> {
                let m = #[trigger] markert(l, maaned, dag)[i];
                &&& m.symbol == l[i].symbol && m.amount_kr == l[i].amount_kr && m.day == l[i].day
                &&& l[i].day <= dag ==> m.last_run == maaned
                &&& l[i].day > dag ==> m.last_run == l[i].last_run
            },
    decreases l.len(),
{
    let p = |p: PlanSyn| p.last_run != maaned && p.day <= dag;
    let f = |p: PlanSyn| PlanSyn { last_run: maaned, ..p };
    reveal(Seq::filter);
    if l.len() > 0 {
        law_forfalte_planer(l.drop_last(), maaned, dag);
        let d = l.drop_last().filter(p);
        if p(l.last()) {
            assert(d.push(l.last()).map_values(f) =~= d.map_values(f).push(f(l.last())));
        }
    }
    assert(forfalte(l, maaned, dag) =~= l.filter(p).map_values(f));
}

/// A plan that is undone is due again in the same month, and no other plan changes.
pub proof fn law_angret_forfaller_igjen(l: Seq<PlanSyn>, k: int, maaned: Seq<char>, dag: int)
    requires
        0 <= k < l.len(),
        forall|j: int|
            0 <= j < k ==> !((#[trigger] l[j]).symbol == l[k].symbol && l[j].day == l[k].day),
        maaned.len() > 0,
        l[k].day <= dag,
    ensures
        angret(l, l[k].symbol, l[k].day).len() == l.len(),
        forall|j: int|
            0 <= j < l.len() && j != k ==> #[trigger] angret(l, l[k].symbol, l[k].day)[j] == l[j],
        angret(l, l[k].symbol, l[k].day)[k].symbol == l[k].symbol,
        angret(l, l[k].symbol, l[k].day)[k].amount_kr == l[k].amount_kr,
        angret(l, l[k].symbol, l[k].day)[k].day == l[k].day,
        forfalt(angret(l, l[k].symbol, l[k].day)[k], maaned, dag),
    decreases l.len(),
{
    reveal_strlit("");
    let s = l[k].symbol;
    let d = l[k].day;
    if k > 0 {
        assert(!(l[0].symbol == s && l[0].day == d));
        let r = l.skip(1);
        assert(r[k - 1] == l[k]);
        assert forall|j: int| 0 <= j < k - 1 implies !((#[trigger] r[j]).symbol == s && r[j].day == d) by {
            assert(r[j] == l[j + 1]);
        }
        law_angret_forfaller_igjen(r, k - 1, maaned, dag);
        let a = angret(l, s, d);
        assert forall|j: int| 0 <= j < l.len() && j != k implies #[trigger] a[j] == l[j] by {
            if j > 0 {
                assert(a[j] == angret(r, s, d)[j - 1]);
                assert(r[j - 1] == l[j]);
            }
        }
    }
}

/// After an order the position is worth what is then held at the price: more after a
/// purchase, less after a sale, and never less than nothing by a sale at a price.
pub proof fn law_verdien_etter(holdt: int, antall: int, pris: int)
    requires
        antall >= 0,
        pris >= 0,
    ensures
        verdi_etter(Side::Buy, holdt, antall, pris) == holdt * pris + antall * pris,
        verdi_etter(Side::Sell, holdt, antall, pris) >= 0,
        antall <= holdt ==> verdi_etter(Side::Sell, holdt, antall, pris) + antall * pris == holdt * pris,
        antall >= holdt ==> verdi_etter(Side::Sell, holdt, antall, pris) == 0,
        signalverdi(Side::Buy, holdt, antall, pris) == holdt * pris + antall * pris,
        signalverdi(Side::Sell, holdt, holdt, pris) == 0,
{
    assert((holdt + antall) * pris == holdt * pris + antall * pris) by (nonlinear_arith);
    assert((holdt - antall) * pris == holdt * pris - antall * pris) by (nonlinear_arith);
    if holdt >= antall {
        assert((holdt - antall) * pris >= 0) by (nonlinear_arith)
            requires
                holdt >= antall,
                pris >= 0,
        ;
    }
    assert(0 * pris == 0);
}

/// A signal buys only where nothing is held, for no more than the amount that is set
/// and not a unit less than it pays for, or the fixed number where no amount is set;
/// it sells all that is held, and nothing where nothing is.
pub proof fn law_signalet(holdt: int, order_value: int, order_qty: int, pris: int, krypto: bool)
    requires
        pris > 0,
    ensures
        holdt > 0 ==> signalantall(Side::Buy, holdt, order_value, order_qty, pris, krypto) is None,
        holdt > 0 ==> signalantall(Side::Sell, holdt, order_value, order_qty, pris, krypto) == Some(holdt),
        holdt <= 0 ==> signalantall(Side::Sell, holdt, order_value, order_qty, pris, krypto) is None,
        holdt <= 0 && order_value <= 0 ==> signalantall(Side::Buy, holdt, order_value, order_qty, pris, krypto) == Some(
            order_qty,
        ),
        holdt <= 0 && order_value > 0 ==> (signalantall(Side::Buy, holdt, order_value, order_qty, pris, krypto) matches Some(
            n,
        ) && n >= 0 && n * pris <= order_value * 100_000_000 && (n < i64::MAX ==> (n + (if krypto {
            1int
        } else {
            100_000_000
        })) * pris > order_value * 100_000_000)),
{
    if order_value > 0 {
        law_aldri_over_belopet(order_value, pris, krypto);
        if antall_for(order_value, pris, krypto) < i64::MAX {
            law_belopet_brukes(order_value, pris, krypto);
        }
    }
}

}
