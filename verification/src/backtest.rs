//! A strategy run over past days: everything in on a buy, everything out on a
//! sale, with commission and slippage.
use vstd::prelude::*;

use crate::belop;
use crate::config::{BacktestCfg, StrategyCfg};
use crate::strategy;
use crate::strategy::Strategy;
use crate::types::{Candle, Side};

verus! {

/// The cash at the start.
pub const START_CASH: i128 = 10_000_000_000_000;

/// The largest amount, up or down, that is counted with: sums of a few of them
/// fit in 128 bits.
pub const GRENSE: i128 = 0x1000_0000_0000_0000_0000_0000_0000_0000;

/// One whole in per cent.
pub const HUNDRE: i128 = 10_000_000_000;

/// One trade that has been closed.
#[derive(Debug, Clone, Copy, PartialEq, Eq, Structural)]
pub struct TradeRec {
    pub entry_ts: i64,
    pub exit_ts: i64,
    pub entry: i128,
    pub exit: i128,
    pub pnl_pct: i128,
}

#[derive(Debug)]
pub struct BacktestResult {
    pub strategy: String,
    pub symbol: String,
    pub trades: Vec<TradeRec>,
    /// The entry price of a position that is still open at the end.
    pub open_entry: Option<i128>,
    /// What the strategy returned, in per cent, after costs.
    pub return_pct: i128,
    /// What buying and holding returned.
    pub buy_hold_pct: i128,
    /// The worst fall from a peak, a negative number of per cent.
    pub max_drawdown_pct: i128,
    /// Commission and slippage paid.
    pub costs_paid: i128,
    /// The equity day by day.
    pub equity_curve: Vec<(i64, i128)>,
}

/// How many of the trades gained.
pub open spec fn gevinster(l: Seq<TradeRec>) -> nat
    decreases l.len(),
{
    if l.len() == 0 {
        0
    } else {
        gevinster(l.drop_last()) + (if l.last().pnl_pct > 0 {
            1nat
        } else {
            0
        })
    }
}

impl BacktestResult {
    /// How many of the trades gained.
    pub fn wins(&self) -> (r: usize)
        ensures
            r == gevinster(self.trades@),
    {
        let mut n: usize = 0;
        let mut i: usize = 0;
        while i < self.trades.len()
            invariant
                i <= self.trades@.len(),
                n <= i,
                n == gevinster(self.trades@.take(i as int)),
            decreases self.trades.len() - i,
        {
            assert(self.trades@.take(i + 1).drop_last() =~= self.trades@.take(i as int));
            if self.trades[i].pnl_pct > 0 {
                n += 1;
            }
            i += 1;
        }
        assert(self.trades@.take(i as int) =~= self.trades@);
        n
    }
}

// ---------------------------------------------------------------------------
// The account
// ---------------------------------------------------------------------------

pub open spec fn innen(v: int) -> bool {
    -GRENSE <= v <= GRENSE
}

/// How far `a` is over `b`, in per cent; 0 where `b` is not positive.
pub open spec fn prosent(a: int, b: int) -> int {
    if b > 0 {
        belop::kvotient((a - b) * HUNDRE, b)
    } else {
        0
    }
}

/// The account as the days go by.
#[verifier::ext_equal]
pub struct Konto {
    pub cash: int,
    pub qty: int,
    /// When and at what price the open position was bought.
    pub entry: Option<(i64, int)>,
    pub trades: Seq<TradeRec>,
    pub costs: int,
    pub peak: int,
    pub drawdown: int,
    pub curve: Seq<(i64, i128)>,
}

pub open spec fn start() -> Konto {
    Konto {
        cash: START_CASH as int,
        qty: 0,
        entry: None,
        trades: Seq::empty(),
        costs: 0,
        peak: START_CASH as int,
        drawdown: 0,
        curve: Seq::empty(),
    }
}

/// The commission on a value.
pub open spec fn kurtasje(verdi: int, c: BacktestCfg) -> int {
    belop::kvotient(verdi * c.commission_pct, HUNDRE as int)
}

/// The value of `qty` at a price.
pub open spec fn verdi(qty: int, pris: int) -> int {
    belop::kvotient(qty * pris, 100_000_000)
}

/// The price that a purchase gets: a little over the close.
pub open spec fn kjopskurs(close: int, c: BacktestCfg) -> int {
    belop::kvotient(close * (HUNDRE + c.slippage_pct), HUNDRE as int)
}

/// The price that a sale gets: a little under the close.
pub open spec fn salgskurs(close: int, c: BacktestCfg) -> int {
    belop::kvotient(close * (HUNDRE - c.slippage_pct), HUNDRE as int)
}

/// How many the cash pays for, with commission.
pub open spec fn raad_til(cash: int, kurs: int, c: BacktestCfg) -> int {
    belop::kvotient(cash * 1_000_000_000_000_000_000, kurs * (HUNDRE + c.commission_pct))
}

/// All of the cash put into shares; none where a number grows out of bounds or
/// there is no price to buy at.
pub open spec fn kjopt(k: Konto, d: Candle, c: BacktestCfg) -> Option<Konto> {
    let kurs = kjopskurs(d.close as int, c);
    let qty = raad_til(k.cash, kurs, c);
    let gebyr = kurtasje(verdi(qty, kurs), c);
    let glid = verdi(qty, kurs - d.close);
    if kurs <= 0 || HUNDRE + c.commission_pct <= 0 || !innen(kurs * (HUNDRE + c.commission_pct)) || !innen(qty)
        || !innen(verdi(qty, kurs))
        || !innen(gebyr) || !innen(glid) || !innen(k.costs + gebyr + glid) {
        None
    } else {
        Some(
            Konto {
                cash: 0,
                qty,
                entry: Some((d.ts, kurs)),
                costs: k.costs + gebyr + glid,
                ..k
            },
        )
    }
}

/// Whether the gain of a trade that was entered, if any, stays within bounds.
pub open spec fn maalbar(entry: Option<(i64, int)>, kurs: int) -> bool {
    match entry {
        Some((_, pris)) => innen(prosent(kurs, pris)),
        None => true,
    }
}

/// All of the shares sold; none where a number grows out of bounds.
pub open spec fn solgt(k: Konto, d: Candle, c: BacktestCfg) -> Option<Konto> {
    let kurs = salgskurs(d.close as int, c);
    let inn = verdi(k.qty, kurs);
    let gebyr = kurtasje(inn, c);
    let glid = verdi(k.qty, d.close - kurs);
    if !innen(inn) || !innen(gebyr) || !innen(glid) || !innen(k.costs + gebyr + glid) || !innen(inn - gebyr)
        || !maalbar(k.entry, kurs) {
        None
    } else {
        Some(
            Konto {
                cash: inn - gebyr,
                qty: 0,
                entry: None,
                trades: match k.entry {
                    Some((ts, pris)) => k.trades.push(
                        TradeRec {
                            entry_ts: ts,
                            exit_ts: d.ts,
                            entry: pris as i128,
                            exit: kurs as i128,
                            pnl_pct: prosent(kurs, pris) as i128,
                        },
                    ),
                    None => k.trades,
                },
                costs: k.costs + gebyr + glid,
                ..k
            },
        )
    }
}

/// What the signal of the day does to the account: it buys only without
/// shares, and sells only with them.
pub open spec fn handlet(k: Konto, d: Candle, signal: Option<Side>, c: BacktestCfg) -> Option<Konto> {
    match signal {
        Some(Side::Buy) => if k.qty == 0 {
            kjopt(k, d, c)
        } else {
            Some(k)
        },
        Some(Side::Sell) => if k.qty > 0 {
            solgt(k, d, c)
        } else {
            Some(k)
        },
        None => Some(k),
    }
}

/// The account at the close of the day.
pub open spec fn gjort_opp(k: Konto, d: Candle) -> Option<Konto> {
    let equity = k.cash + verdi(k.qty, d.close as int);
    let peak = if equity > k.peak {
        equity
    } else {
        k.peak
    };
    let fall = prosent(equity, peak);
    if !innen(verdi(k.qty, d.close as int)) || !innen(equity) || !innen(fall) {
        None
    } else {
        Some(
            Konto {
                peak,
                drawdown: if fall < k.drawdown {
                    fall
                } else {
                    k.drawdown
                },
                curve: k.curve.push((d.ts, equity as i128)),
                ..k
            },
        )
    }
}

pub open spec fn dag(k: Konto, d: Candle, signal: Option<Side>, c: BacktestCfg) -> Option<Konto> {
    match handlet(k, d, signal, c) {
        Some(k2) => gjort_opp(k2, d),
        None => None,
    }
}

/// What the strategy remembers and what the account holds after the days;
/// none where a number grew out of bounds.
pub open spec fn forlop(o: strategy::Oppsett, dager: Seq<Candle>, c: BacktestCfg) -> Option<(strategy::Minne, Konto)>
    decreases dager.len(),
{
    if dager.len() == 0 {
        Some((o.blankt(), start()))
    } else {
        match forlop(o, dager.drop_last(), c) {
            None => None,
            Some((m, k)) => {
                let d = dager.last();
                let (m2, signal) = o.steg(m, d.close);
                match dag(k, d, signal, c) {
                    Some(k2) => Some((m2, k2)),
                    None => None,
                }
            },
        }
    }
}

/// What a run comes to, for an account after all of the days.
pub open spec fn oppsummert(r: BacktestResult, k: Konto, dager: Seq<Candle>) -> bool {
    &&& r.trades@ == k.trades
    &&& r.open_entry == (match k.entry {
        Some((ts, pris)) => Some(pris as i128),
        None => None,
    })
    &&& r.return_pct == prosent(k.curve.last().1 as int, START_CASH as int)
    &&& r.buy_hold_pct == prosent(dager.last().close as int, dager[0].close as int)
    &&& r.max_drawdown_pct == k.drawdown
    &&& r.costs_paid == k.costs
    &&& r.equity_curve@ == k.curve
}

// ---------------------------------------------------------------------------
// The run
// ---------------------------------------------------------------------------

struct Regnskap {
    cash: i128,
    qty: i128,
    entry: Option<(i64, i128)>,
    trades: Vec<TradeRec>,
    costs: i128,
    peak: i128,
    drawdown: i128,
    curve: Vec<(i64, i128)>,
}

impl Regnskap {
    spec fn syn(&self) -> Konto {
        Konto {
            cash: self.cash as int,
            qty: self.qty as int,
            entry: match self.entry {
                Some((ts, pris)) => Some((ts, pris as int)),
                None => None,
            },
            trades: self.trades@,
            costs: self.costs as int,
            peak: self.peak as int,
            drawdown: self.drawdown as int,
            curve: self.curve@,
        }
    }

    spec fn holder(&self) -> bool {
        &&& innen(self.cash as int)
        &&& innen(self.qty as int)
        &&& innen(self.costs as int)
        &&& START_CASH <= self.peak <= GRENSE
        &&& self.entry matches Some((_, pris)) ==> 0 < pris <= 0x1_0000_0000_0000_0000_0000_0000
    }
}

fn holdt(v: i128) -> (r: bool)
    ensures
        r == innen(v as int),
{
    -GRENSE <= v && v <= GRENSE
}

proof fn lemma_gang(a: int, b: int)
    requires
        i64::MIN <= a <= i64::MAX,
        -0x1_0000_0000_0000_0000 < b < 0x1_0000_0000_0000_0000,
    ensures
        i128::MIN < a * b <= i128::MAX,
{
    assert(-0x8000_0000_0000_0000_0000_0000_0000_0000 < a * b <= 0x7fff_ffff_ffff_ffff_ffff_ffff_ffff_ffff)
        by (nonlinear_arith)
        requires
            -0x8000_0000_0000_0000 <= a <= 0x7fff_ffff_ffff_ffff,
            -0x1_0000_0000_0000_0000 < b < 0x1_0000_0000_0000_0000,
    ;
}

fn regn_verdi(qty: i128, pris: i128) -> (r: Option<i128>)
    requires
        innen(qty as int),
        pris > i128::MIN,
    ensures
        er_talt(r, verdi(qty as int, pris as int)),
{
    talt(belop::gang_del(qty, pris, 100_000_000))
}

fn regn_kurtasje(v: i128, c: &BacktestCfg) -> (r: Option<i128>)
    requires
        innen(v as int),
    ensures
        er_talt(r, kurtasje(v as int, *c)),
{
    talt(belop::gang_del(v, c.commission_pct as i128, HUNDRE))
}

/// Whether a number has been counted: it is there just where it is within
/// bounds.
spec fn er_talt(r: Option<i128>, v: int) -> bool {
    match r {
        Some(x) => x == v && innen(v),
        None => !innen(v),
    }
}

fn talt(v: Option<i128>) -> (r: Option<i128>)
    ensures
        (match v {
            Some(x) => er_talt(r, x as int),
            None => r is None,
        }),
{
    match v {
        Some(x) => if holdt(x) {
            Some(x)
        } else {
            None
        },
        None => None,
    }
}

fn regn_prosent(a: i128, b: i128) -> (r: Option<i128>)
    requires
        innen(a as int),
        innen(b as int),
    ensures
        er_talt(r, prosent(a as int, b as int)),
{
    if b > 0 {
        talt(belop::gang_del(a - b, HUNDRE, b))
    } else {
        Some(0)
    }
}

/// A price with slippage is no more than this.
proof fn lemma_kurs(close: int, andel: int)
    requires
        i64::MIN <= close <= i64::MAX,
        -0x1_0000_0000_0000_0000 < andel < 0x1_0000_0000_0000_0000,
    ensures
        -0x1_0000_0000_0000_0000_0000_0000 < belop::kvotient(close * andel, HUNDRE as int)
            < 0x1_0000_0000_0000_0000_0000_0000,
{
    lemma_gang(close, andel);
    let x = close * andel;
    let y = if x < 0 {
        -x
    } else {
        x
    };
    assert(0 <= y / 10_000_000_000 < 0x1_0000_0000_0000_0000_0000_0000) by (nonlinear_arith)
        requires
            0 <= y <= 0x7fff_ffff_ffff_ffff_ffff_ffff_ffff_ffff,
    ;
}

fn kjop(k: Regnskap, d: &Candle, c: &BacktestCfg) -> (r: Option<Regnskap>)
    requires
        k.holder(),
    ensures
        r is Some == kjopt(k.syn(), *d, *c) is Some,
        r matches Some(k2) ==> k2.holder() && Some(k2.syn()) == kjopt(k.syn(), *d, *c),
{
    proof {
        lemma_gang(d.close as int, HUNDRE + c.slippage_pct);
        lemma_kurs(d.close as int, HUNDRE + c.slippage_pct);
    }
    let kurs: i128 = belop::del(d.close as i128 * (HUNDRE + c.slippage_pct as i128), HUNDRE);
    let andel: i128 = HUNDRE + c.commission_pct as i128;
    if kurs <= 0 || andel <= 0 {
        return None;
    }
    let full: i128 = match talt(belop::gang_del(kurs, andel, 1)) {
        Some(p) => p,
        None => return None,
    };
    assert(full == kurs * andel && full > 0) by (nonlinear_arith)
        requires
            full == belop::kvotient(kurs * andel, 1),
            kurs > 0,
            andel > 0,
    ;
    let qty: i128 = match talt(belop::gang_del(k.cash, 1_000_000_000_000_000_000, full)) {
        Some(q) => q,
        None => return None,
    };
    let v: i128 = match regn_verdi(qty, kurs) {
        Some(v) => v,
        None => return None,
    };
    let gebyr: i128 = match regn_kurtasje(v, c) {
        Some(g) => g,
        None => return None,
    };
    let glid: i128 = match regn_verdi(qty, kurs - d.close as i128) {
        Some(g) => g,
        None => return None,
    };
    if !holdt(k.costs + gebyr + glid) {
        return None;
    }
    let ut: Regnskap = Regnskap {
        cash: 0,
        qty,
        entry: Some((d.ts, kurs)),
        trades: k.trades,
        costs: k.costs + gebyr + glid,
        peak: k.peak,
        drawdown: k.drawdown,
        curve: k.curve,
    };
    assert(Some(ut.syn()) =~= kjopt(k.syn(), *d, *c));
    Some(ut)
}

fn selg(k: Regnskap, d: &Candle, c: &BacktestCfg) -> (r: Option<Regnskap>)
    requires
        k.holder(),
    ensures
        r is Some == solgt(k.syn(), *d, *c) is Some,
        r matches Some(k2) ==> k2.holder() && Some(k2.syn()) == solgt(k.syn(), *d, *c),
{
    proof {
        lemma_gang(d.close as int, HUNDRE - c.slippage_pct);
        lemma_kurs(d.close as int, HUNDRE - c.slippage_pct);
    }
    let kurs: i128 = belop::del(d.close as i128 * (HUNDRE - c.slippage_pct as i128), HUNDRE);
    let inn: i128 = match regn_verdi(k.qty, kurs) {
        Some(v) => v,
        None => return None,
    };
    let gebyr: i128 = match regn_kurtasje(inn, c) {
        Some(g) => g,
        None => return None,
    };
    let glid: i128 = match regn_verdi(k.qty, d.close as i128 - kurs) {
        Some(g) => g,
        None => return None,
    };
    if !holdt(k.costs + gebyr + glid) || !holdt(inn - gebyr) {
        return None;
    }
    let mut trades: Vec<TradeRec> = k.trades;
    if let Some((ts, pris)) = k.entry {
        let pnl_pct: i128 = match regn_prosent(kurs, pris) {
            Some(p) => p,
            None => return None,
        };
        trades.push(TradeRec { entry_ts: ts, exit_ts: d.ts, entry: pris, exit: kurs, pnl_pct });
    }
    let ut: Regnskap = Regnskap {
        cash: inn - gebyr,
        qty: 0,
        entry: None,
        trades,
        costs: k.costs + gebyr + glid,
        peak: k.peak,
        drawdown: k.drawdown,
        curve: k.curve,
    };
    assert(Some(ut.syn()) =~= solgt(k.syn(), *d, *c));
    Some(ut)
}

fn gjor_opp(k: Regnskap, d: &Candle) -> (r: Option<Regnskap>)
    requires
        k.holder(),
    ensures
        r is Some == gjort_opp(k.syn(), *d) is Some,
        r matches Some(k2) ==> k2.holder() && Some(k2.syn()) == gjort_opp(k.syn(), *d),
{
    let v: i128 = match regn_verdi(k.qty, d.close as i128) {
        Some(v) => v,
        None => return None,
    };
    let equity: i128 = k.cash + v;
    if !holdt(equity) {
        return None;
    }
    let peak: i128 = if equity > k.peak {
        equity
    } else {
        k.peak
    };
    let fall: i128 = match regn_prosent(equity, peak) {
        Some(f) => f,
        None => return None,
    };
    let mut curve: Vec<(i64, i128)> = k.curve;
    curve.push((d.ts, equity));
    let ut: Regnskap = Regnskap {
        cash: k.cash,
        qty: k.qty,
        entry: k.entry,
        trades: k.trades,
        costs: k.costs,
        peak,
        drawdown: if fall < k.drawdown {
            fall
        } else {
            k.drawdown
        },
        curve,
    };
    assert(Some(ut.syn()) =~= gjort_opp(k.syn(), *d));
    Some(ut)
}

fn en_dag(k: Regnskap, d: &Candle, signal: Option<Side>, c: &BacktestCfg) -> (r: Option<Regnskap>)
    requires
        k.holder(),
    ensures
        r is Some == dag(k.syn(), *d, signal, *c) is Some,
        r matches Some(k2) ==> k2.holder() && Some(k2.syn()) == dag(k.syn(), *d, signal, *c),
{
    let etter: Option<Regnskap> = match signal {
        Some(Side::Buy) => if k.qty == 0 {
            kjop(k, d, c)
        } else {
            Some(k)
        },
        Some(Side::Sell) => if k.qty > 0 {
            selg(k, d, c)
        } else {
            Some(k)
        },
        None => Some(k),
    };
    match etter {
        Some(k2) => gjor_opp(k2, d),
        None => None,
    }
}

proof fn lemma_avbrutt(o: strategy::Oppsett, dager: Seq<Candle>, c: BacktestCfg, n: int)
    requires
        0 <= n <= dager.len(),
        forlop(o, dager.take(n), c) is None,
    ensures
        forlop(o, dager, c) is None,
    decreases dager.len() - n,
{
    if n < dager.len() {
        assert(dager.take(n + 1).drop_last() =~= dager.take(n));
        lemma_avbrutt(o, dager, c, n + 1);
    } else {
        assert(dager.take(n) =~= dager);
    }
}

proof fn lemma_kurve(o: strategy::Oppsett, dager: Seq<Candle>, c: BacktestCfg)
    ensures
        forlop(o, dager, c) matches Some((m, k)) ==> k.curve.len() == dager.len() && (forall|i: int|
            0 <= i < dager.len() ==> (#[trigger] k.curve[i]).0 == dager[i].ts && innen(k.curve[i].1 as int)),
    decreases dager.len(),
{
    if dager.len() > 0 {
        lemma_kurve(o, dager.drop_last(), c);
    }
}

/// Runs a strategy over the days. There must be days to run it over, the name
/// must be one of the known, and the numbers must stay within bounds.
pub fn run(symbol: &str, candles: &[Candle], strategy_name: &str, base_cfg: &StrategyCfg, costs: &BacktestCfg) -> (r:
    Result<BacktestResult, String>)
    requires
        base_cfg.holdbar(),
    ensures
        candles@.len() == 0 ==> r is Err && r->Err_0@ == "ingen historikk å teste på"@,
        candles@.len() > 0 ==> (match strategy::oppsett_av(strategy_name@, base_cfg) {
            None => r is Err && r->Err_0@ == "ukjent strategi: "@ + strategy_name@,
            Some(o) => match forlop(o, candles@, *costs) {
                None => r is Err && r->Err_0@ == "tallene ble for store"@,
                Some((m, k)) => r is Ok && oppsummert(r->Ok_0, k, candles@) && r->Ok_0.strategy@ == strategy_name@
                    && r->Ok_0.symbol@ == symbol@,
            },
        }),
        r is Ok ==> r->Ok_0.equity_curve@.len() == candles@.len(),
{
    if candles.len() == 0 {
        return Err("ingen historikk å teste på".to_owned());
    }
    let mut strat: Strategy = match strategy::build_named(strategy_name, base_cfg) {
        Ok(s) => s,
        Err(e) => return Err(e),
    };
    let ghost o = strat.oppsett();
    let mut k: Regnskap = Regnskap {
        cash: START_CASH,
        qty: 0,
        entry: None,
        trades: Vec::new(),
        costs: 0,
        peak: START_CASH,
        drawdown: 0,
        curve: Vec::new(),
    };
    assert(k.syn() =~= start());
    assert(strat.om(symbol@) == o.blankt());
    assert(candles@.take(0) =~= Seq::<Candle>::empty());
    let mut i: usize = 0;
    while i < candles.len()
        invariant
            i <= candles@.len(),
            strategy::oppsett_av(strategy_name@, base_cfg) == Some(o),
            strat.gyldig(),
            strat.oppsett() == o,
            k.holder(),
            forlop(o, candles@.take(i as int), *costs) == Some((strat.om(symbol@), k.syn())),
        decreases candles.len() - i,
    {
        proof {
            assert(candles@.take(i + 1).drop_last() =~= candles@.take(i as int));
            assert(candles@.take(i + 1).last() == candles@[i as int]);
        }
        let signal: Option<Side> = strat.on_price(symbol, candles[i].close);
        match en_dag(k, &candles[i], signal, costs) {
            Some(k2) => {
                k = k2;
            },
            None => {
                proof {
                    lemma_avbrutt(o, candles@, *costs, i + 1);
                }
                return Err("tallene ble for store".to_owned());
            },
        }
        i += 1;
    }
    proof {
        assert(candles@.take(i as int) =~= candles@);
        lemma_kurve(o, candles@, *costs);
    }
    let n: usize = candles.len();
    let siste: i128 = k.curve[n - 1].1;
    let res: BacktestResult = BacktestResult {
        strategy: strategy_name.to_owned(),
        symbol: symbol.to_owned(),
        open_entry: match k.entry {
            Some((_, pris)) => Some(pris),
            None => None,
        },
        return_pct: avkastning(siste),
        buy_hold_pct: kurs_prosent(candles[n - 1].close, candles[0].close),
        max_drawdown_pct: k.drawdown,
        costs_paid: k.costs,
        trades: k.trades,
        equity_curve: k.curve,
    };
    Ok(res)
}

/// The return of an equity on the cash at the start.
fn avkastning(equity: i128) -> (r: i128)
    requires
        innen(equity as int),
    ensures
        r == prosent(equity as int, START_CASH as int),
{
    let d: i128 = equity - START_CASH;
    proof {
        lemma_tusendel(d as int);
        lemma_tusendel(-d);
    }
    belop::del(d, 1000)
}

/// A hundred per cent of the cash at the start is a thousand times as fine as
/// the cash.
proof fn lemma_tusendel(x: int)
    ensures
        x >= 0 ==> (x * HUNDRE) / (START_CASH as int) == x / 1000,
{
    if x >= 0 {
        let q = x / 1000;
        let r = x % 1000;
        assert(x * 10_000_000_000 == q * 10_000_000_000_000 + r * 10_000_000_000);
    }
}

fn kurs_prosent(a: i64, b: i64) -> (r: i128)
    ensures
        r == prosent(a as int, b as int),
{
    if b > 0 {
        belop::del((a as i128 - b as i128) * HUNDRE, b as i128)
    } else {
        0
    }
}

// ---------------------------------------------------------------------------
// Laws
// ---------------------------------------------------------------------------

/// What holds of the account after any days: the peak is at least the start
/// and at least the equity, the worst fall is no gain and at least the present
/// one, and cash and shares are never held together.
pub open spec fn sunn(k: Konto) -> bool {
    &&& k.peak >= START_CASH
    &&& k.drawdown <= 0
    &&& k.qty != 0 ==> k.cash == 0
    &&& k.curve.len() > 0 ==> k.curve.last().1 <= k.peak && k.drawdown <= prosent(
        k.curve.last().1 as int,
        k.peak,
    )
}

/// An account is sound after any days.
pub proof fn law_konto_sunn(o: strategy::Oppsett, dager: Seq<Candle>, c: BacktestCfg)
    ensures
        forlop(o, dager, c) matches Some((m, k)) ==> sunn(k),
    decreases dager.len(),
{
    if dager.len() > 0 {
        law_konto_sunn(o, dager.drop_last(), c);
    }
}

proof fn lemma_andel(a: int, b: int, c: int, d: int)
    requires
        b > 0,
        d > 0,
        a * d >= c * b,
        c >= 0,
    ensures
        a / b >= c / d,
{
    let q = c / d;
    assert(q * d <= c) by (nonlinear_arith)
        requires
            q == c / d,
            d > 0,
    ;
    assert(q * b <= a) by (nonlinear_arith)
        requires
            q * d <= c,
            a * d >= c * b,
            b > 0,
            d > 0,
    {
        assert((q * d) * b <= c * b);
        assert((q * b) * d == (q * d) * b);
    }
    assert(q <= a / b) by (nonlinear_arith)
        requires
            q * b <= a,
            b > 0,
    ;
}

/// A run that lost has fallen at least as far from its peak as it lost from
/// the start.
pub proof fn law_fallet_er_minst_tapet(k: Konto)
    requires
        sunn(k),
        k.curve.len() > 0,
        0 <= k.curve.last().1 < START_CASH,
    ensures
        k.drawdown <= prosent(k.curve.last().1 as int, START_CASH as int),
{
    let e = k.curve.last().1 as int;
    let s = START_CASH as int;
    let p = k.peak;
    assert(e * p >= e * s) by (nonlinear_arith)
        requires
            e >= 0,
            p >= s,
    ;
    assert(((p - e) * HUNDRE) * s >= ((s - e) * HUNDRE) * p) by (nonlinear_arith)
        requires
            e * p >= e * s,
            HUNDRE == 10_000_000_000,
    ;
    lemma_andel((p - e) * HUNDRE, p, (s - e) * HUNDRE, s);
    assert((e - p) * HUNDRE == -((p - e) * HUNDRE));
    assert((e - s) * HUNDRE == -((s - e) * HUNDRE));
}

/// What the account holds after the days.
pub open spec fn konto_etter(o: strategy::Oppsett, dager: Seq<Candle>, c: BacktestCfg) -> Konto {
    let (m, k) = forlop(o, dager, c)->0;
    k
}

/// What the strategy remembers after the days.
spec fn minne_etter(o: strategy::Oppsett, dager: Seq<Candle>, c: BacktestCfg) -> strategy::Minne {
    let (m, k) = forlop(o, dager, c)->0;
    m
}

/// Costs between nothing and the whole.
pub open spec fn rimelige(c: BacktestCfg) -> bool {
    0 <= c.commission_pct <= HUNDRE && 0 <= c.slippage_pct <= HUNDRE
}

/// Whether one account is worth no more than another, whatever the price.
spec fn ikke_over(dyr: Konto, billig: Konto) -> bool {
    &&& 0 <= dyr.cash <= billig.cash
    &&& 0 <= dyr.qty <= billig.qty
    &&& billig.qty > 0 ==> dyr.cash == 0
    &&& dyr.curve.len() == billig.curve.len()
    &&& forall|i: int| 0 <= i < dyr.curve.len() ==> (#[trigger] dyr.curve[i]).1 <= (#[trigger] billig.curve[i]).1
}

proof fn lemma_kvotient_stiger(a: int, b: int, n: int)
    requires
        0 <= a <= b,
        n > 0,
    ensures
        0 <= belop::kvotient(a, n) <= belop::kvotient(b, n),
{
    assert(0 <= a / n <= b / n) by (nonlinear_arith)
        requires
            0 <= a <= b,
            n > 0,
    ;
}

proof fn lemma_verdi_stiger(a: int, b: int, p: int, q: int)
    requires
        0 <= a <= b,
        0 <= p <= q,
    ensures
        0 <= verdi(a, p) <= verdi(b, q),
{
    assert(0 <= a * p <= b * q) by (nonlinear_arith)
        requires
            0 <= a <= b,
            0 <= p <= q,
    ;
    lemma_kvotient_stiger(a * p, b * q, 100_000_000);
}

/// Less money, a higher price and more commission buy no more.
proof fn lemma_raad_til(penger: int, flere: int, kurs: int, lavere: int, c: BacktestCfg, d: BacktestCfg)
    requires
        0 <= penger <= flere,
        0 < lavere <= kurs,
        0 <= c.commission_pct <= d.commission_pct,
    ensures
        0 <= raad_til(penger, kurs, d) <= raad_til(flere, lavere, c),
{
    let a = penger * 1_000_000_000_000_000_000;
    let b = flere * 1_000_000_000_000_000_000;
    let x = kurs * (HUNDRE + d.commission_pct);
    let y = lavere * (HUNDRE + c.commission_pct);
    let m = HUNDRE + d.commission_pct;
    let n = HUNDRE + c.commission_pct;
    assert(0 < lavere * n <= kurs * m) by (nonlinear_arith)
        requires
            0 < lavere <= kurs,
            0 < n <= m,
    ;
    assert(0 <= a / x <= b / y) by (nonlinear_arith)
        requires
            0 <= a <= b,
            0 < y <= x,
    ;
}

proof fn lemma_kjopskurs(close: int, c: BacktestCfg, d: BacktestCfg)
    requires
        close >= 0,
        0 <= c.slippage_pct <= d.slippage_pct,
    ensures
        0 <= kjopskurs(close, c) <= kjopskurs(close, d),
{
    let m = HUNDRE + c.slippage_pct;
    let n = HUNDRE + d.slippage_pct;
    assert(0 <= close * m <= close * n) by (nonlinear_arith)
        requires
            close >= 0,
            0 <= m <= n,
    ;
    lemma_kvotient_stiger(close * m, close * n, HUNDRE as int);
}

proof fn lemma_salgskurs(close: int, c: BacktestCfg, d: BacktestCfg)
    requires
        close >= 0,
        c.slippage_pct <= d.slippage_pct <= HUNDRE,
    ensures
        0 <= salgskurs(close, d) <= salgskurs(close, c),
{
    let m = HUNDRE - d.slippage_pct;
    let n = HUNDRE - c.slippage_pct;
    assert(0 <= close * m <= close * n) by (nonlinear_arith)
        requires
            close >= 0,
            0 <= m <= n,
    ;
    lemma_kvotient_stiger(close * m, close * n, HUNDRE as int);
}

/// What is left of a sale after commission rises with the sale and falls with
/// the commission.
proof fn lemma_etter_kurtasje(mindre: int, mer: int, c: BacktestCfg, d: BacktestCfg)
    requires
        0 <= mindre <= mer,
        0 <= c.commission_pct <= d.commission_pct <= HUNDRE,
    ensures
        0 <= mindre - kurtasje(mindre, d) <= mer - kurtasje(mer, c),
{
    let p = c.commission_pct as int;
    let q = d.commission_pct as int;
    let h = HUNDRE as int;
    assert(0 <= mindre * p <= mindre * q && mindre * q <= mindre * h && mer * p <= mindre * p + (mer - mindre) * h
        && 0 <= mer * p) by (nonlinear_arith)
        requires
            0 <= mindre <= mer,
            0 <= p <= q <= h,
    ;
    lemma_kvotient_stiger(mindre * p, mindre * q, h);
    lemma_kvotient_stiger(mindre * q, mindre * h, h);
    assert((mindre * h) / h == mindre) by (nonlinear_arith)
        requires
            h == 10_000_000_000,
    ;
    let trinn = (mer - mindre) * h;
    lemma_kvotient_stiger(mer * p, mindre * p + trinn, h);
    assert((mindre * p + trinn) / h == (mindre * p) / h + (mer - mindre)) by (nonlinear_arith)
        requires
            trinn == (mer - mindre) * h,
            h == 10_000_000_000,
    ;
}

proof fn lemma_dag(dyr: Konto, billig: Konto, dag_: Candle, signal: Option<Side>, c: BacktestCfg, d: BacktestCfg)
    requires
        ikke_over(dyr, billig),
        rimelige(c),
        rimelige(d),
        c.commission_pct <= d.commission_pct,
        c.slippage_pct <= d.slippage_pct,
        dag_.close >= 0,
        dag(dyr, dag_, signal, d) is Some,
        dag(billig, dag_, signal, c) is Some,
    ensures
        ikke_over(dag(dyr, dag_, signal, d)->0, dag(billig, dag_, signal, c)->0),
{
    let pris = dag_.close as int;
    lemma_kjopskurs(pris, c, d);
    lemma_salgskurs(pris, c, d);
    let x = handlet(dyr, dag_, signal, d)->0;
    let y = handlet(billig, dag_, signal, c)->0;
    match signal {
        Some(Side::Buy) => {
            if billig.qty == 0 {
                lemma_raad_til(dyr.cash, billig.cash, kjopskurs(pris, d), kjopskurs(pris, c), c, d);
            } else if dyr.qty == 0 {
                lemma_raad_til(dyr.cash, 0, kjopskurs(pris, d), kjopskurs(pris, d), d, d);
                let kurs = kjopskurs(pris, d);
                let andel = HUNDRE + d.commission_pct;
                assert(0int / (kurs * andel) == 0) by (nonlinear_arith)
                    requires
                        kurs > 0,
                        andel > 0,
                ;
            }
        },
        Some(Side::Sell) => {
            if billig.qty > 0 {
                lemma_verdi_stiger(dyr.qty, billig.qty, salgskurs(pris, d), salgskurs(pris, c));
                lemma_etter_kurtasje(
                    verdi(dyr.qty, salgskurs(pris, d)),
                    verdi(billig.qty, salgskurs(pris, c)),
                    c,
                    d,
                );
            }
        },
        None => {},
    }
    assert(0 <= x.cash <= y.cash && 0 <= x.qty <= y.qty);
    lemma_verdi_stiger(x.qty, y.qty, pris, pris);
}

/// Of two runs of one strategy over the same days, the one with the higher
/// costs is never worth more, on any day, and so returns no more at the end.
pub proof fn law_kostnader_gir_aldri_mer(o: strategy::Oppsett, dager: Seq<Candle>, c: BacktestCfg, d: BacktestCfg)
    requires
        rimelige(c),
        rimelige(d),
        c.commission_pct <= d.commission_pct,
        c.slippage_pct <= d.slippage_pct,
        forall|i: int| 0 <= i < dager.len() ==> (#[trigger] dager[i]).close >= 0,
        forlop(o, dager, c) is Some,
        forlop(o, dager, d) is Some,
    ensures
        konto_etter(o, dager, d).curve.len() == konto_etter(o, dager, c).curve.len(),
        forall|i: int|
            0 <= i < dager.len() ==> (#[trigger] konto_etter(o, dager, d).curve[i]).1 <= (
            #[trigger] konto_etter(o, dager, c).curve[i]).1,
        dager.len() > 0 ==> prosent(konto_etter(o, dager, d).curve.last().1 as int, START_CASH as int) <= prosent(
            konto_etter(o, dager, c).curve.last().1 as int,
            START_CASH as int,
        ),
{
    lemma_forlop(o, dager, c, d);
    lemma_kurve(o, dager, c);
    if dager.len() > 0 {
        let n = dager.len() - 1;
        let a = konto_etter(o, dager, d).curve[n].1 as int;
        let b = konto_etter(o, dager, c).curve[n].1 as int;
        let s = START_CASH as int;
        let x = (a - s) * HUNDRE;
        let y = (b - s) * HUNDRE;
        assert(a <= b);
        if x >= 0 {
            lemma_kvotient_stiger(x, y, s);
        } else if y < 0 {
            lemma_kvotient_stiger(-y, -x, s);
        } else {
            lemma_kvotient_stiger(0, -x, s);
            lemma_kvotient_stiger(0, y, s);
        }
    }
}

proof fn lemma_forlop(o: strategy::Oppsett, dager: Seq<Candle>, c: BacktestCfg, d: BacktestCfg)
    requires
        rimelige(c),
        rimelige(d),
        c.commission_pct <= d.commission_pct,
        c.slippage_pct <= d.slippage_pct,
        forall|i: int| 0 <= i < dager.len() ==> (#[trigger] dager[i]).close >= 0,
        forlop(o, dager, c) is Some,
        forlop(o, dager, d) is Some,
    ensures
        minne_etter(o, dager, c) == minne_etter(o, dager, d),
        ikke_over(konto_etter(o, dager, d), konto_etter(o, dager, c)),
    decreases dager.len(),
{
    if dager.len() > 0 {
        let f = dager.drop_last();
        assert forall|i: int| 0 <= i < f.len() implies (#[trigger] f[i]).close >= 0 by {
            assert(f[i] == dager[i]);
        }
        lemma_forlop(o, f, c, d);
        let m = minne_etter(o, f, c);
        let billig = konto_etter(o, f, c);
        let dyr = konto_etter(o, f, d);
        let siste = dager.last();
        assert(siste == dager[dager.len() - 1]);
        lemma_dag(dyr, billig, siste, o.steg(m, siste.close).1, c, d);
    }
}

/// A run without costs pays none.
pub proof fn law_uten_kostnader(o: strategy::Oppsett, dager: Seq<Candle>, c: BacktestCfg)
    requires
        c.commission_pct == 0,
        c.slippage_pct == 0,
    ensures
        forlop(o, dager, c) matches Some((m, k)) ==> k.costs == 0,
    decreases dager.len(),
{
    if dager.len() > 0 {
        law_uten_kostnader(o, dager.drop_last(), c);
        if let Some((m, k)) = forlop(o, dager.drop_last(), c) {
            let pris = dager.last().close as int;
            assert(kjopskurs(pris, c) == pris);
            assert(salgskurs(pris, c) == pris);
            let q = raad_til(k.cash, pris, c);
            assert(q * 0 == 0 && k.qty * 0 == 0) by (nonlinear_arith);
            let v = verdi(q, pris);
            let w = verdi(k.qty, pris);
            assert(v * 0 == 0 && w * 0 == 0) by (nonlinear_arith);
        }
    }
}

/// Whether the account holds something whenever a position is open: no purchase
/// has been rounded down to nothing.
pub open spec fn holder_noe(o: strategy::Oppsett, dager: Seq<Candle>, c: BacktestCfg) -> bool {
    forall|n: int|
        0 <= n <= dager.len() ==> (#[trigger] konto_etter(o, dager.take(n), c)).entry is Some ==> konto_etter(
            o,
            dager.take(n),
            c,
        ).qty > 0
}

/// Whether two accounts have made their trades at the same times, and have a
/// position open since the same time or none.
pub open spec fn samtidige(a: Konto, b: Konto) -> bool {
    &&& a.trades.len() == b.trades.len()
    &&& forall|i: int|
        0 <= i < a.trades.len() ==> (#[trigger] a.trades[i]).entry_ts == (#[trigger] b.trades[i]).entry_ts
            && a.trades[i].exit_ts == b.trades[i].exit_ts
    &&& match (a.entry, b.entry) {
        (Some((x, _)), Some((y, _))) => x == y,
        (None, None) => true,
        _ => false,
    }
}

spec fn ingen_uten(k: Konto) -> bool {
    (k.entry is None ==> k.qty == 0) && k.qty >= 0
}

proof fn lemma_samtidige(o: strategy::Oppsett, dager: Seq<Candle>, c: BacktestCfg, d: BacktestCfg)
    requires
        rimelige(c),
        rimelige(d),
        c.commission_pct <= d.commission_pct,
        c.slippage_pct <= d.slippage_pct,
        forall|i: int| 0 <= i < dager.len() ==> (#[trigger] dager[i]).close >= 0,
        forlop(o, dager, c) is Some,
        forlop(o, dager, d) is Some,
        holder_noe(o, dager, d),
    ensures
        samtidige(konto_etter(o, dager, d), konto_etter(o, dager, c)),
        ingen_uten(konto_etter(o, dager, d)),
        ingen_uten(konto_etter(o, dager, c)),
    decreases dager.len(),
{
    if dager.len() > 0 {
        let f = dager.drop_last();
        assert forall|i: int| 0 <= i < f.len() implies (#[trigger] f[i]).close >= 0 by {
            assert(f[i] == dager[i]);
        }
        assert forall|n: int|
            0 <= n <= f.len() && (#[trigger] konto_etter(o, f.take(n), d)).entry is Some implies konto_etter(
            o,
            f.take(n),
            d,
        ).qty > 0 by {
            assert(f.take(n) =~= dager.take(n));
        }
        lemma_samtidige(o, f, c, d);
        lemma_forlop(o, f, c, d);
        lemma_forlop(o, dager, c, d);
        assert(dager.take(dager.len() as int) =~= dager);
        assert(f.take(f.len() as int) =~= f);
        assert(konto_etter(o, f.take(f.len() as int), d).entry is Some ==> konto_etter(o, f, d).qty > 0);
        assert(konto_etter(o, dager.take(dager.len() as int), d).entry is Some ==> konto_etter(o, dager, d).qty > 0);
    }
}

/// Of two runs of one strategy over the same days that differ in their costs
/// alone, both trade at the same times, as long as the dearer one is never left
/// with a purchase of nothing.
pub proof fn law_samme_handler(o: strategy::Oppsett, dager: Seq<Candle>, c: BacktestCfg, d: BacktestCfg)
    requires
        rimelige(c),
        rimelige(d),
        c.commission_pct <= d.commission_pct,
        c.slippage_pct <= d.slippage_pct,
        forall|i: int| 0 <= i < dager.len() ==> (#[trigger] dager[i]).close >= 0,
        forlop(o, dager, c) is Some,
        forlop(o, dager, d) is Some,
        holder_noe(o, dager, d),
    ensures
        samtidige(konto_etter(o, dager, d), konto_etter(o, dager, c)),
{
    lemma_samtidige(o, dager, c, d);
}

/// The price of the last purchase, with commission.
pub open spec fn fullpris(k: Konto, c: BacktestCfg) -> int {
    (match k.entry {
        Some((_, pris)) => pris,
        None => k.trades.last().entry as int,
    }) * (HUNDRE + c.commission_pct)
}

/// The price that the account is worth something by: the close while a position
/// is open, else what the last one was sold at.
pub open spec fn gjeldende_kurs(k: Konto, close: int) -> int {
    match k.entry {
        Some(_) => close,
        None => k.trades.last().exit as int,
    }
}

/// The price of the open position.
spec fn kjopt_for(k: Konto) -> int {
    match k.entry {
        Some((_, pris)) => pris,
        None => 0,
    }
}

/// How the dearer account is tied to the cheaper by their last purchases.
spec fn knyttet(dyr: Konto, billig: Konto, c: BacktestCfg, d: BacktestCfg) -> bool {
    let x = fullpris(dyr, d);
    let y = fullpris(billig, c);
    if dyr.entry is Some {
        &&& 0 < y <= x
        &&& dyr.cash == 0 && billig.cash == 0
        &&& dyr.qty * x <= (billig.qty + 1) * y
        &&& 0 < kjopt_for(dyr) <= GRENSE
        &&& 0 < kjopt_for(billig) <= GRENSE
    } else if dyr.trades.len() > 0 {
        0 < y <= x && 0 <= billig.trades.last().exit && dyr.cash * x <= billig.cash * y + x * (
        billig.trades.last().exit as int / 100_000_000 + 4)
    } else {
        true
    }
}

proof fn lemma_knyttet_kjop(m: int, n: int, x: int, y: int, a: int, b: int)
    requires
        0 <= m <= n,
        0 < y <= x,
        a == belop::kvotient(m * 1_000_000_000_000_000_000, x),
        b == belop::kvotient(n * 1_000_000_000_000_000_000, y),
    ensures
        a * x <= (b + 1) * y,
{
    let p = m * 1_000_000_000_000_000_000;
    let q = n * 1_000_000_000_000_000_000;
    assert(a * x <= p) by (nonlinear_arith)
        requires
            a == p / x,
            x > 0,
    ;
    assert(q <= (b + 1) * y) by (nonlinear_arith)
        requires
            b == q / y,
            y > 0,
    ;
}

/// What a sale brings, of two holdings that are tied.
proof fn lemma_knyttet_inn(a: int, b: int, x: int, y: int, sd: int, sc: int)
    requires
        0 <= a,
        0 <= b,
        0 < y <= x,
        0 <= sd <= sc,
        a * x <= (b + 1) * y,
    ensures
        (verdi(a, sd) * 100_000_000) * x <= y * ((verdi(b, sc) + 1) * 100_000_000 + sc),
        0 <= verdi(a, sd),
        0 <= verdi(b, sc),
{
    let i = verdi(a, sd);
    let j = verdi(b, sc);
    assert(0 <= a * sd && a * sd <= a * sc && 0 <= b * sc) by (nonlinear_arith)
        requires
            0 <= a,
            0 <= b,
            0 <= sd <= sc,
    ;
    let u = a * sc;
    let v = b * sc;
    assert(i * 100_000_000 <= u);
    assert(v <= (j + 1) * 100_000_000);
    assert((i * 100_000_000) * x <= u * x) by (nonlinear_arith)
        requires
            i * 100_000_000 <= u,
            x > 0,
    ;
    assert(u * x <= y * (v + sc)) by (nonlinear_arith)
        requires
            a * x <= (b + 1) * y,
            sc >= 0,
            u == a * sc,
            v == b * sc,
    {
        assert((a * x) * sc <= ((b + 1) * y) * sc);
        assert(u * x == (a * x) * sc);
        assert(((b + 1) * y) * sc == y * (b * sc + sc));
    }
    assert(y * (v + sc) <= y * ((j + 1) * 100_000_000 + sc)) by (nonlinear_arith)
        requires
            v <= (j + 1) * 100_000_000,
            y > 0,
    ;
}

/// What is left of a sale is its share after commission, to within one.
proof fn lemma_rest_av_salg(inn: int, c: BacktestCfg)
    requires
        0 <= inn,
        0 <= c.commission_pct <= HUNDRE,
    ensures
        inn * (HUNDRE - c.commission_pct) <= (inn - kurtasje(inn, c)) * HUNDRE,
        (inn - kurtasje(inn, c)) * HUNDRE <= inn * (HUNDRE - c.commission_pct) + HUNDRE,
{
    let p = c.commission_pct as int;
    let h = HUNDRE as int;
    let t = inn * p;
    assert(t >= 0) by (nonlinear_arith)
        requires
            t == inn * p,
            inn >= 0,
            p >= 0,
    ;
    let g = t / h;
    assert(g * h <= t && t <= g * h + h);
    assert(inn * (h - p) == inn * h - t) by (nonlinear_arith)
        requires
            t == inn * p,
    ;
}

/// The cash after a sale, of two holdings that are tied.
proof fn lemma_knyttet_salg(i: int, j: int, x: int, y: int, sc: int, e: int, f: int, p: int)
    requires
        0 <= i,
        0 <= j,
        0 < y <= x,
        0 <= sc,
        0 <= p <= HUNDRE,
        (i * 100_000_000) * x <= y * ((j + 1) * 100_000_000 + sc),
        e * HUNDRE <= i * (HUNDRE - p) + HUNDRE,
        j * (HUNDRE - p) <= f * HUNDRE,
    ensures
        e * x <= f * y + x * (sc / 100_000_000 + 4),
{
    let h = HUNDRE as int;
    let n = h - p;
    let m: int = 100_000_000;
    let venstre = (i * m) * x;
    let hoyre = y * ((j + 1) * m + sc);
    assert(n * venstre <= n * hoyre) by (nonlinear_arith)
        requires
            venstre <= hoyre,
            n >= 0,
    ;
    assert((e * h) * (m * x) <= n * venstre + h * (m * x)) by (nonlinear_arith)
        requires
            e * h <= i * n + h,
            m * x > 0,
            venstre == (i * m) * x,
    {
        assert((e * h) * (m * x) <= (i * n + h) * (m * x));
        assert((i * n + h) * (m * x) == n * ((i * m) * x) + h * (m * x));
    }
    assert(n * hoyre <= h * (y * (f * m)) + h * (y * (m + sc))) by (nonlinear_arith)
        requires
            hoyre == y * ((j + 1) * m + sc),
            j * n <= f * h,
            0 <= n <= h,
            y > 0,
            m == 100_000_000,
            sc >= 0,
    {
        assert(hoyre == y * (j * m) + y * (m + sc));
        assert(n * (y * (j * m)) == (j * n) * (y * m));
        assert((j * n) * (y * m) <= (f * h) * (y * m));
        assert((f * h) * (y * m) == h * (y * (f * m)));
        assert(y * (m + sc) >= 0);
        assert(n * (y * (m + sc)) <= h * (y * (m + sc)));
        assert(n * hoyre == n * (y * (j * m)) + n * (y * (m + sc)));
    }
    let alt = y * (f * m) + y * (m + sc) + m * x;
    assert(h * ((e * m) * x) <= h * alt) by (nonlinear_arith)
        requires
            (e * h) * (m * x) <= h * (y * (f * m)) + h * (y * (m + sc)) + h * (m * x),
            alt == y * (f * m) + y * (m + sc) + m * x,
    {
        assert(h * ((e * m) * x) == (e * h) * (m * x));
        assert(h * alt == h * (y * (f * m)) + h * (y * (m + sc)) + h * (m * x));
    }
    assert((e * m) * x <= alt) by (nonlinear_arith)
        requires
            h * ((e * m) * x) <= h * alt,
            h == 10_000_000_000,
    ;
    let t = sc / 100_000_000;
    assert(m + sc <= (t + 2) * m);
    assert(y * (m + sc) <= x * ((t + 2) * m)) by (nonlinear_arith)
        requires
            0 < y <= x,
            0 <= m + sc <= (t + 2) * m,
    ;
    assert(m * (e * x) <= m * (f * y + x * (t + 3))) by (nonlinear_arith)
        requires
            (e * m) * x <= alt,
            alt == y * (f * m) + y * (m + sc) + m * x,
            y * (m + sc) <= x * ((t + 2) * m),
    {
        assert((e * m) * x == m * (e * x));
        assert(y * (f * m) == m * (f * y));
        assert(x * ((t + 2) * m) == m * (x * (t + 2)));
        assert(x * (t + 3) == x * (t + 2) + x);
    }
    assert(e * x <= f * y + x * (t + 3)) by (nonlinear_arith)
        requires
            m * (e * x) <= m * (f * y + x * (t + 3)),
            m == 100_000_000,
    ;
    assert(x * (t + 4) == x * (t + 3) + x) by (nonlinear_arith);
}

proof fn lemma_knyttet_dag(dyr: Konto, billig: Konto, dag_: Candle, signal: Option<Side>, c: BacktestCfg, d: BacktestCfg)
    requires
        ikke_over(dyr, billig),
        samtidige(dyr, billig),
        ingen_uten(dyr),
        ingen_uten(billig),
        dyr.entry is Some ==> dyr.qty > 0,
        knyttet(dyr, billig, c, d),
        rimelige(c),
        rimelige(d),
        c.commission_pct <= d.commission_pct,
        c.slippage_pct <= d.slippage_pct,
        dag_.close >= 0,
        dag(dyr, dag_, signal, d) is Some,
        dag(billig, dag_, signal, c) is Some,
    ensures
        knyttet(dag(dyr, dag_, signal, d)->0, dag(billig, dag_, signal, c)->0, c, d),
{
    let pris = dag_.close as int;
    lemma_kjopskurs(pris, c, d);
    lemma_salgskurs(pris, c, d);
    let x = handlet(dyr, dag_, signal, d)->0;
    let y = handlet(billig, dag_, signal, c)->0;
    match signal {
        Some(Side::Buy) => {
            if billig.qty == 0 {
                let kd = kjopskurs(pris, d);
                let kc = kjopskurs(pris, c);
                let nd = HUNDRE + d.commission_pct;
                let nc = HUNDRE + c.commission_pct;
                assert(0 < kc * nc <= kd * nd) by (nonlinear_arith)
                    requires
                        0 < kc <= kd,
                        0 < nc <= nd,
                ;
                assert(kd <= kd * nd && kc <= kc * nc) by (nonlinear_arith)
                    requires
                        0 < kc,
                        0 < kd,
                        0 < nc <= nd,
                ;
                lemma_knyttet_kjop(dyr.cash, billig.cash, kd * nd, kc * nc, x.qty, y.qty);
            }
        },
        Some(Side::Sell) => {
            if billig.qty > 0 && dyr.qty > 0 {
                let fd = fullpris(dyr, d);
                let fc = fullpris(billig, c);
                let sd = salgskurs(pris, d);
                let sc = salgskurs(pris, c);
                let i = verdi(dyr.qty, sd);
                let j = verdi(billig.qty, sc);
                lemma_knyttet_inn(dyr.qty, billig.qty, fd, fc, sd, sc);
                lemma_rest_av_salg(j, c);
                lemma_rest_av_salg(i, c);
                lemma_etter_kurtasje(i, i, c, d);
                lemma_knyttet_salg(i, j, fd, fc, sc, x.cash, y.cash, c.commission_pct as int);
                lemma_kurs(pris, HUNDRE - c.slippage_pct);
                lemma_kurs(pris, HUNDRE - d.slippage_pct);
                assert(y.trades.last().exit == sc);
                assert(y.trades.last().entry == kjopt_for(billig));
                assert(x.trades.last().entry == kjopt_for(dyr));
            }
        },
        None => {},
    }
}

proof fn lemma_knyttet(o: strategy::Oppsett, dager: Seq<Candle>, c: BacktestCfg, d: BacktestCfg)
    requires
        rimelige(c),
        rimelige(d),
        c.commission_pct <= d.commission_pct,
        c.slippage_pct <= d.slippage_pct,
        forall|i: int| 0 <= i < dager.len() ==> (#[trigger] dager[i]).close >= 0,
        forlop(o, dager, c) is Some,
        forlop(o, dager, d) is Some,
        holder_noe(o, dager, d),
    ensures
        knyttet(konto_etter(o, dager, d), konto_etter(o, dager, c), c, d),
    decreases dager.len(),
{
    if dager.len() > 0 {
        let f = dager.drop_last();
        assert forall|i: int| 0 <= i < f.len() implies (#[trigger] f[i]).close >= 0 by {
            assert(f[i] == dager[i]);
        }
        assert forall|n: int|
            0 <= n <= f.len() && (#[trigger] konto_etter(o, f.take(n), d)).entry is Some implies konto_etter(
            o,
            f.take(n),
            d,
        ).qty > 0 by {
            assert(f.take(n) =~= dager.take(n));
        }
        lemma_knyttet(o, f, c, d);
        lemma_forlop(o, f, c, d);
        lemma_samtidige(o, f, c, d);
        assert(f.take(f.len() as int) =~= f);
        assert(konto_etter(o, f.take(f.len() as int), d).entry is Some ==> konto_etter(o, f, d).qty > 0);
        let siste = dager.last();
        assert(siste == dager[dager.len() - 1]);
        lemma_knyttet_dag(
            konto_etter(o, f, d),
            konto_etter(o, f, c),
            siste,
            o.steg(minne_etter(o, f, c), siste.close).1,
            c,
            d,
        );
    }
}

/// Where what is tied differs in price by more than rounding can hide, the
/// dearer account ends lower by two thousand of the smallest unit.
proof fn lemma_forskjell(e: int, f: int, x: int, y: int, t: int)
    requires
        0 < y <= x,
        e * x <= f * y + x * (t + 4),
        f * (x - y) >= x * (t + 2004),
    ensures
        e <= f - 2000,
{
    assert(e * x <= (f - 2000) * x) by (nonlinear_arith)
        requires
            e * x <= f * y + x * (t + 4),
            f * (x - y) >= x * (t + 2004),
    {
        assert(f * (x - y) == f * x - f * y);
        assert(x * (t + 2004) == x * (t + 4) + 2000 * x);
        assert((f - 2000) * x == f * x - 2000 * x);
    }
    assert(e <= f - 2000) by (nonlinear_arith)
        requires
            e * x <= (f - 2000) * x,
            x > 0,
    ;
}

/// Whether both accounts have bought, and the dearer one's last purchase cost more
/// by a share of the account that rounding to the smallest unit cannot hide.
pub open spec fn merkbart_dyrere(dyr: Konto, billig: Konto, close: int, c: BacktestCfg, d: BacktestCfg) -> bool {
    &&& billig.entry is Some || billig.trades.len() > 0
    &&& billig.curve.last().1 * (fullpris(dyr, d) - fullpris(billig, c)) >= fullpris(dyr, d) * (gjeldende_kurs(
        billig,
        close,
    ) / 100_000_000 + 2004)
}

/// What costs take is lost: of two runs of one strategy over the same days, both
/// of which have bought, the one whose last purchase was dearer, by a share of
/// the account that rounding to the smallest unit cannot hide, returns less.
pub proof fn law_kostnader_gir_mindre(o: strategy::Oppsett, dager: Seq<Candle>, c: BacktestCfg, d: BacktestCfg)
    requires
        rimelige(c),
        rimelige(d),
        c.commission_pct <= d.commission_pct,
        c.slippage_pct <= d.slippage_pct,
        dager.len() > 0,
        forall|i: int| 0 <= i < dager.len() ==> (#[trigger] dager[i]).close >= 0,
        forlop(o, dager, c) is Some,
        forlop(o, dager, d) is Some,
        holder_noe(o, dager, d),
        merkbart_dyrere(konto_etter(o, dager, d), konto_etter(o, dager, c), dager.last().close as int, c, d),
    ensures
        prosent(konto_etter(o, dager, d).curve.last().1 as int, START_CASH as int) < prosent(
            konto_etter(o, dager, c).curve.last().1 as int,
            START_CASH as int,
        ),
{
    let dyr = konto_etter(o, dager, d);
    let billig = konto_etter(o, dager, c);
    let x = fullpris(dyr, d);
    let y = fullpris(billig, c);
    let close = dager.last().close as int;
    assert(close == dager[dager.len() - 1].close);
    lemma_knyttet(o, dager, c, d);
    lemma_samtidige(o, dager, c, d);
    let e = dyr.curve.last().1 as int;
    let f = billig.curve.last().1 as int;
    assert(0 * close == 0);
    if dyr.entry is Some {
        lemma_knyttet_inn(dyr.qty, billig.qty, x, y, close, close);
        let i = verdi(dyr.qty, close);
        let j = verdi(billig.qty, close);
        assert(e == dyr.cash + i);
        assert(f == billig.cash + j);
        lemma_knyttet_salg(i, j, x, y, close, i, j, 0);
    }
    lemma_forskjell(e, f, x, y, gjeldende_kurs(billig, close) / 100_000_000);
    let s = START_CASH as int;
    assert(s == 10_000_000_000_000);
}

/// Of two results for the same days, buying and holding returned the same, the
/// dearer one returned no more, and less where its last purchase was dearer by
/// more than rounding hides. Both traded at the same times, as long as the dearer
/// one is never left with a purchase of nothing. Both have a point for each day,
/// and the worst fall is no gain.
pub proof fn law_kostnader_i_resultatet(
    billig: BacktestResult,
    dyr: BacktestResult,
    o: strategy::Oppsett,
    dager: Seq<Candle>,
    c: BacktestCfg,
    d: BacktestCfg,
)
    requires
        rimelige(c),
        rimelige(d),
        c.commission_pct <= d.commission_pct,
        c.slippage_pct <= d.slippage_pct,
        dager.len() > 0,
        forall|i: int| 0 <= i < dager.len() ==> (#[trigger] dager[i]).close >= 0,
        forlop(o, dager, c) is Some,
        forlop(o, dager, d) is Some,
        oppsummert(billig, konto_etter(o, dager, c), dager),
        oppsummert(dyr, konto_etter(o, dager, d), dager),
    ensures
        dyr.return_pct <= billig.return_pct,
        holder_noe(o, dager, d) && merkbart_dyrere(
            konto_etter(o, dager, d),
            konto_etter(o, dager, c),
            dager.last().close as int,
            c,
            d,
        ) ==> dyr.return_pct < billig.return_pct,
        holder_noe(o, dager, d) ==> {
            &&& dyr.trades@.len() == billig.trades@.len()
            &&& dyr.open_entry is Some == billig.open_entry is Some
            &&& forall|i: int|
                0 <= i < dyr.trades@.len() ==> (#[trigger] dyr.trades@[i]).entry_ts == (
                #[trigger] billig.trades@[i]).entry_ts && dyr.trades@[i].exit_ts == billig.trades@[i].exit_ts
        },
        dyr.buy_hold_pct == billig.buy_hold_pct,
        billig.equity_curve@.len() == dager.len(),
        dyr.equity_curve@.len() == dager.len(),
        billig.max_drawdown_pct <= 0,
        dyr.max_drawdown_pct <= 0,
        c.commission_pct == 0 && c.slippage_pct == 0 ==> billig.costs_paid == 0,
{
    law_kostnader_gir_aldri_mer(o, dager, c, d);
    lemma_kurve(o, dager, c);
    law_konto_sunn(o, dager, c);
    law_konto_sunn(o, dager, d);
    if holder_noe(o, dager, d) {
        law_samme_handler(o, dager, c, d);
        if merkbart_dyrere(
            konto_etter(o, dager, d),
            konto_etter(o, dager, c),
            dager.last().close as int,
            c,
            d,
        ) {
            law_kostnader_gir_mindre(o, dager, c, d);
        }
    }
    if c.commission_pct == 0 && c.slippage_pct == 0 {
        law_uten_kostnader(o, dager, c);
    }
}

// ---------------------------------------------------------------------------
// What a run reports
// ---------------------------------------------------------------------------

/// What the account was worth: the cash at the start, and then day by day.
pub open spec fn verdier(curve: Seq<(i64, i128)>) -> Seq<int> {
    seq![10_000_000_000_000int] + curve.map_values(|p: (i64, i128)| p.1 as int)
}

/// Whether, of the worths from the first to `j`, that at `i` is the highest.
pub open spec fn er_topp(e: Seq<int>, i: int, j: int) -> bool {
    forall|k: int| 0 <= k <= j ==> #[trigger] e[k] <= e[i]
}

/// Whether `fall` bounds every fall from a worth to a later one.
spec fn verst(e: Seq<int>, fall: int) -> bool {
    forall|i: int, j: int|
        #![trigger e[i], e[j]]
        0 <= i <= j < e.len() && e[i] > 0 && (e[j] >= 0 || er_topp(e, i, j)) ==> 10_000_000_000 * (e[j] - e[i]) > (fall
            - 1) * e[i]
}

/// Whether some worth fell that much to a later one.
spec fn naadd(e: Seq<int>, fall: int) -> bool {
    exists|i: int, j: int|
        #![trigger e[i], e[j]]
        0 <= i <= j < e.len() && e[i] > 0 && 10_000_000_000 * (e[j] - e[i]) <= fall * e[i]
}

spec fn har_topp(e: Seq<int>, peak: int) -> bool {
    &&& exists|i: int| 0 <= i < e.len() && #[trigger] e[i] == peak
    &&& forall|i: int| 0 <= i < e.len() ==> #[trigger] e[i] <= peak
}

proof fn lemma_verste_fall(e: Seq<int>, peak: int, dd: int, x: int, peak2: int, dd2: int)
    requires
        peak > 0,
        dd <= 0,
        har_topp(e, peak),
        verst(e, dd),
        dd == 0 || naadd(e, dd),
        peak2 == if x > peak {
            x
        } else {
            peak
        },
        dd2 == if prosent(x, peak2) < dd {
            prosent(x, peak2)
        } else {
            dd
        },
    ensures
        har_topp(e.push(x), peak2),
        verst(e.push(x), dd2),
        dd2 == 0 || naadd(e.push(x), dd2),
        dd2 <= 0,
{
    let f = e.push(x);
    let n = e.len() as int;
    let h = 10_000_000_000int;
    let fall = prosent(x, peak2);
    belop::law_kvotient((x - peak2) * HUNDRE, peak2);
    let t = choose|i: int| 0 <= i < e.len() && #[trigger] e[i] == peak;
    assert(f[t] == peak && f[n] == x);
    assert forall|i: int| 0 <= i < f.len() implies #[trigger] f[i] <= peak2 by {
        if i < n {
            assert(e[i] <= peak);
        }
    }
    assert forall|i: int, j: int|
        #![trigger f[i], f[j]]
        0 <= i <= j < f.len() && f[i] > 0 && (f[j] >= 0 || er_topp(f, i, j)) implies h * (f[j] - f[i]) > (dd2 - 1)
        * f[i] by {
        if j < n {
            if e[j] < 0 {
                assert forall|k: int| 0 <= k <= j implies #[trigger] e[k] <= e[i] by {
                    assert(f[k] <= f[i]);
                }
            }
            assert(h * (e[j] - e[i]) > (dd - 1) * e[i]);
            assert((dd2 - 1) * e[i] <= (dd - 1) * e[i]) by (nonlinear_arith)
                requires
                    dd2 <= dd,
                    e[i] > 0,
            ;
        } else {
            let a = f[i];
            let s = fall - 1 + h;
            if x < 0 {
                assert(f[t] <= f[i]);
                assert(a == peak2);
            }
            assert(s * peak2 < x * h) by (nonlinear_arith)
                requires
                    s == fall - 1 + h,
                    (fall - 1) * peak2 < (x - peak2) * h,
            ;
            assert(s * a < x * h) by (nonlinear_arith)
                requires
                    s * peak2 < x * h,
                    0 < a <= peak2,
                    x >= 0 || a == peak2,
                    h > 0,
            ;
            assert((dd2 - 1) * a <= (fall - 1) * a) by (nonlinear_arith)
                requires
                    dd2 <= fall,
                    a > 0,
            ;
            assert((fall - 1) * a < h * (x - a)) by (nonlinear_arith)
                requires
                    s * a < x * h,
                    s == fall - 1 + h,
            ;
        }
    }
    if dd2 != dd {
        let i = if x > peak {
            n
        } else {
            t
        };
        assert(f[i] == peak2);
        assert(h * (f[n] - f[i]) <= dd2 * f[i]);
        assert(naadd(f, dd2));
    } else if dd != 0 {
        let (i, j) = choose|i: int, j: int|
            #![trigger e[i], e[j]]
            0 <= i <= j < e.len() && e[i] > 0 && h * (e[j] - e[i]) <= dd * e[i];
        assert(f[i] == e[i] && f[j] == e[j]);
        assert(naadd(f, dd2));
    }
}

proof fn lemma_fallet(o: strategy::Oppsett, dager: Seq<Candle>, c: BacktestCfg)
    requires
        forlop(o, dager, c) is Some,
    ensures
        ({
            let k = konto_etter(o, dager, c);
            let e = verdier(k.curve);
            &&& k.peak > 0
            &&& k.drawdown <= 0
            &&& har_topp(e, k.peak)
            &&& verst(e, k.drawdown)
            &&& k.drawdown == 0 || naadd(e, k.drawdown)
        }),
    decreases dager.len(),
{
    let k = konto_etter(o, dager, c);
    let e = verdier(k.curve);
    if dager.len() == 0 {
        assert(e =~= seq![10_000_000_000_000int]);
        assert(e[0] == k.peak);
        assert forall|i: int, j: int|
            #![trigger e[i], e[j]]
            0 <= i <= j < e.len() && e[i] > 0 && (e[j] >= 0 || er_topp(e, i, j)) implies 10_000_000_000 * (e[j] - e[i])
            > (k.drawdown - 1) * e[i] by {
            assert(i == 0 && j == 0);
        }
    } else {
        let f = dager.drop_last();
        lemma_fallet(o, f, c);
        let k0 = konto_etter(o, f, c);
        let x = k.curve.last().1 as int;
        assert(k.curve == k0.curve.push(k.curve.last()));
        assert(e =~= verdier(k0.curve).push(x));
        lemma_verste_fall(verdier(k0.curve), k0.peak, k0.drawdown, x, k.peak, k.drawdown);
    }
}

/// The worst fall is the worst of the whole run: no worth, the cash at the start
/// among them, ever fell by a larger share to a later one, and unless nothing fell
/// some worth did fall by that share. So a fall that was made good is not forgotten.
pub proof fn law_verste_fall_underveis(r: BacktestResult, o: strategy::Oppsett, dager: Seq<Candle>, c: BacktestCfg)
    requires
        forlop(o, dager, c) is Some,
        oppsummert(r, konto_etter(o, dager, c), dager),
    ensures
        r.max_drawdown_pct <= 0,
        forall|i: int, j: int|
            #![trigger verdier(r.equity_curve@)[i], verdier(r.equity_curve@)[j]]
            0 <= i <= j <= r.equity_curve@.len() && verdier(r.equity_curve@)[i] > 0 && (verdier(r.equity_curve@)[j] >= 0
                || er_topp(verdier(r.equity_curve@), i, j)) ==> 10_000_000_000 * (verdier(r.equity_curve@)[j] - verdier(
                r.equity_curve@,
            )[i]) > (r.max_drawdown_pct - 1) * verdier(r.equity_curve@)[i],
        r.max_drawdown_pct == 0 || exists|i: int, j: int|
            #![trigger verdier(r.equity_curve@)[i], verdier(r.equity_curve@)[j]]
            0 <= i <= j <= r.equity_curve@.len() && verdier(r.equity_curve@)[i] > 0 && 10_000_000_000 * (verdier(
                r.equity_curve@,
            )[j] - verdier(r.equity_curve@)[i]) <= r.max_drawdown_pct * verdier(r.equity_curve@)[i],
{
    lemma_fallet(o, dager, c);
}

/// The worst fall never gets better from one day to the next, and a day's worth
/// never changes once the day is over: what a run knows after the first days is what
/// it still knows after all of them.
pub proof fn law_fremtiden_endrer_ingenting(o: strategy::Oppsett, dager: Seq<Candle>, c: BacktestCfg, n: int)
    requires
        0 <= n <= dager.len(),
        forlop(o, dager, c) is Some,
    ensures
        forlop(o, dager.take(n), c) is Some,
        konto_etter(o, dager, c).drawdown <= konto_etter(o, dager.take(n), c).drawdown,
        konto_etter(o, dager, c).peak >= konto_etter(o, dager.take(n), c).peak,
        konto_etter(o, dager, c).curve.len() == dager.len(),
        konto_etter(o, dager, c).curve.take(n) == konto_etter(o, dager.take(n), c).curve,
        konto_etter(o, dager.take(n), c).trades.is_prefix_of(konto_etter(o, dager, c).trades),
        n < dager.len() ==> konto_etter(o, dager, c).curve[n].0 == dager[n].ts,
    decreases dager.len(),
{
    if n == dager.len() {
        assert(dager.take(n) =~= dager);
        lemma_kurve(o, dager, c);
        assert(konto_etter(o, dager, c).curve.take(n) =~= konto_etter(o, dager, c).curve);
        let t = konto_etter(o, dager, c).trades;
        assert(t.take(t.len() as int) =~= t);
    } else {
        let f = dager.drop_last();
        assert(f.take(n) =~= dager.take(n));
        law_fremtiden_endrer_ingenting(o, f, c, n);
        let k = konto_etter(o, dager, c);
        let k0 = konto_etter(o, f, c);
        assert(k.curve == k0.curve.push(k.curve.last()));
        assert(k.curve.take(n) =~= k0.curve.take(n));
        let forste = konto_etter(o, dager.take(n), c).trades;
        assert(k.trades.take(k0.trades.len() as int) =~= k0.trades);
        assert(forste =~= k.trades.take(forste.len() as int)) by {
            assert forall|i: int| 0 <= i < forste.len() implies forste[i] == k.trades[i] by {
                assert(k0.trades.take(forste.len() as int)[i] == k0.trades[i]);
            }
        }
        if n < f.len() {
            assert(f[n] == dager[n]);
        }
    }
}

/// The closing prices of the days.
pub open spec fn slutter(dager: Seq<Candle>) -> Seq<i64> {
    dager.map_values(|d: Candle| d.close)
}

proof fn lemma_minnet(o: strategy::Oppsett, dager: Seq<Candle>, c: BacktestCfg)
    requires
        forlop(o, dager, c) is Some,
    ensures
        forall|pris: i64|
            #![trigger o.steg(minne_etter(o, dager, c), pris)]
            o.steg(minne_etter(o, dager, c), pris) == o.steg(o.saadd(o.blankt(), slutter(dager)), pris),
    decreases dager.len(),
{
    if dager.len() == 0 {
        assert(slutter(dager) =~= Seq::<i64>::empty());
        assert forall|pris: i64|
            #![trigger o.steg(minne_etter(o, dager, c), pris)]
            o.steg(minne_etter(o, dager, c), pris) == o.steg(o.saadd(o.blankt(), slutter(dager)), pris) by {
            strategy::law_ingenting_saadd(o, pris);
        }
    } else {
        let f = dager.drop_last();
        lemma_minnet(o, f, c);
        assert(slutter(dager) =~= slutter(f).push(dager.last().close));
        strategy::law_saadd_er_steg(o, slutter(f), dager.last().close);
        assert(o.steg(minne_etter(o, f, c), dager.last().close) == o.steg(
            o.saadd(o.blankt(), slutter(f)),
            dager.last().close,
        ));
    }
}

/// The signal of the strategy on the last day, from the closing prices alone.
pub open spec fn dagens_signal(o: strategy::Oppsett, dager: Seq<Candle>) -> Option<Side> {
    o.steg(o.saadd(o.blankt(), slutter(dager.drop_last())), dager.last().close).1
}

/// A day follows the strategy's signal and nothing else: a purchase opens a position
/// where nothing is held, a sale closes one where something is held, and otherwise
/// cash, holding, trades and costs stay as they were.
pub proof fn law_dagen_folger_signalet(o: strategy::Oppsett, dager: Seq<Candle>, c: BacktestCfg)
    requires
        dager.len() > 0,
        forlop(o, dager, c) is Some,
    ensures
        forlop(o, dager.drop_last(), c) is Some,
        ({
            let k0 = konto_etter(o, dager.drop_last(), c);
            let k = konto_etter(o, dager, c);
            let s = dagens_signal(o, dager);
            if s == Some(Side::Buy) && k0.qty == 0 {
                &&& k.entry matches Some((ts, _)) && ts == dager.last().ts
                &&& k.cash == 0
                &&& k.trades == k0.trades
            } else if s == Some(Side::Sell) && k0.qty > 0 {
                &&& k.entry is None
                &&& k.qty == 0
                &&& k.trades.len() == k0.trades.len() + (if k0.entry is Some {
                    1int
                } else {
                    0
                })
            } else {
                k.cash == k0.cash && k.qty == k0.qty && k.entry == k0.entry && k.trades == k0.trades && k.costs
                    == k0.costs
            }
        }),
{
    let f = dager.drop_last();
    lemma_minnet(o, f, c);
    assert(o.steg(minne_etter(o, f, c), dager.last().close).1 == dagens_signal(o, dager));
}

/// What a purchase does with the money: the price is the close with slippage on it,
/// as many are bought as the cash pays for with commission, not one more, and the
/// costs grow by the commission and the slippage.
pub proof fn law_kjopet(k: Konto, d: Candle, c: BacktestCfg)
    requires
        rimelige(c),
        d.close >= 0,
        k.cash >= 0,
        kjopt(k, d, c) is Some,
    ensures
        kjopt(k, d, c) matches Some(k2) && k2.entry matches Some((ts, pris)) && {
            let full = pris * (10_000_000_000 + c.commission_pct);
            let kost = k2.costs - k.costs;
            let regnet = k2.qty * (pris * c.commission_pct) + (k2.qty * (pris - d.close)) * 10_000_000_000;
            &&& ts == d.ts
            &&& pris > 0
            &&& pris * 10_000_000_000 <= d.close * (10_000_000_000 + c.slippage_pct) < (pris + 1) * 10_000_000_000
            &&& k2.cash == 0
            &&& k2.qty >= 0
            &&& k2.qty * full <= k.cash * 1_000_000_000_000_000_000 < (k2.qty + 1) * full
            &&& kost >= 0
            &&& kost * 1_000_000_000_000_000_000 <= regnet < (kost + 3) * 1_000_000_000_000_000_000
            &&& k2.trades == k.trades
            &&& k2.curve == k.curve
        },
{
    let h = 10_000_000_000int;
    let close = d.close as int;
    let pris = kjopskurs(close, c);
    let full = pris * (HUNDRE + c.commission_pct);
    let q = raad_til(k.cash, pris, c);
    let p = c.commission_pct as int;
    assert(close * (HUNDRE + c.slippage_pct) >= 0 && close * (HUNDRE + c.slippage_pct) >= close * h) by (nonlinear_arith)
        requires
            close >= 0,
            c.slippage_pct >= 0,
            HUNDRE == 10_000_000_000,
            h == 10_000_000_000,
    ;
    belop::law_kvotient(close * (HUNDRE + c.slippage_pct), HUNDRE as int);
    assert(full > 0) by (nonlinear_arith)
        requires
            full == pris * (HUNDRE + p),
            pris > 0,
            p >= 0,
            HUNDRE == 10_000_000_000,
    ;
    belop::law_kvotient(k.cash * 1_000_000_000_000_000_000, full);
    assert(pris >= close);
    let v = verdi(q, pris);
    assert(q * pris >= 0 && q * (pris - close) >= 0) by (nonlinear_arith)
        requires
            q >= 0,
            pris >= close,
            pris > 0,
    ;
    belop::law_kvotient(q * pris, 100_000_000);
    belop::law_kvotient(q * (pris - close), 100_000_000);
    lemma_kostnad(q * pris, v, p, kurtasje(v, c), q * (pris - close), verdi(q, pris - close));
    assert(q * (pris * p) == (q * pris) * p) by (nonlinear_arith);
}

/// Commission and slippage added up, each cut off on its own.
proof fn lemma_kostnad(qp: int, v: int, p: int, g: int, qs: int, s: int)
    requires
        0 <= qp,
        0 <= v,
        0 <= qs,
        v * 100_000_000 <= qp < (v + 1) * 100_000_000,
        s * 100_000_000 <= qs < (s + 1) * 100_000_000,
        0 <= p <= 10_000_000_000,
        g == belop::kvotient(v * p, HUNDRE as int),
    ensures
        0 <= g,
        0 <= s,
        (g + s) * 1_000_000_000_000_000_000 <= qp * p + qs * 10_000_000_000 < (g + s + 3) * 1_000_000_000_000_000_000,
{
    let h = 10_000_000_000int;
    assert(v * p >= 0) by (nonlinear_arith)
        requires
            v >= 0,
            p >= 0,
    ;
    belop::law_kvotient(v * p, HUNDRE as int);
    assert((v * p) * 100_000_000 <= qp * p && qp * p <= (v * p + p) * 100_000_000) by (nonlinear_arith)
        requires
            v * 100_000_000 <= qp < (v + 1) * 100_000_000,
            p >= 0,
    ;
}

/// What a sale does with the shares: the price is the close with slippage taken off,
/// all are sold, the cash is what they bring without commission, to within the
/// smallest unit, and the trade is written down with the prices and what it gained.
pub proof fn law_salget(k: Konto, d: Candle, c: BacktestCfg)
    requires
        rimelige(c),
        d.close >= 0,
        k.qty >= 0,
        k.entry matches Some((_, pris)) ==> 0 < pris <= i128::MAX,
        k.entry is Some,
        solgt(k, d, c) is Some,
    ensures
        solgt(k, d, c) matches Some(k2) && k.entry matches Some((ts, pris)) && {
            let t = k2.trades.last();
            let brakt = k.qty * (t.exit * (10_000_000_000 - c.commission_pct));
            let kost = k2.costs - k.costs;
            let regnet = k.qty * (t.exit * c.commission_pct) + (k.qty * (d.close - t.exit)) * 10_000_000_000;
            &&& k2.qty == 0
            &&& k2.entry is None
            &&& k2.trades.len() == k.trades.len() + 1
            &&& k2.trades.drop_last() == k.trades
            &&& t.entry_ts == ts
            &&& t.exit_ts == d.ts
            &&& t.entry == pris
            &&& 0 <= t.exit * 10_000_000_000 <= d.close * (10_000_000_000 - c.slippage_pct) < (t.exit + 1)
                * 10_000_000_000
            &&& t.exit >= t.entry ==> t.pnl_pct >= 0 && t.pnl_pct * t.entry <= 10_000_000_000 * (t.exit - t.entry) < (
            t.pnl_pct + 1) * t.entry
            &&& t.exit <= t.entry ==> t.pnl_pct <= 0 && (t.pnl_pct - 1) * t.entry < 10_000_000_000 * (t.exit - t.entry)
                <= t.pnl_pct * t.entry
            &&& (k2.cash - 1) * 1_000_000_000_000_000_000 <= brakt < (k2.cash + 1) * 1_000_000_000_000_000_000
            &&& kost >= 0
            &&& kost * 1_000_000_000_000_000_000 <= regnet < (kost + 3) * 1_000_000_000_000_000_000
            &&& k2.curve == k.curve
        },
{
    let h = 10_000_000_000int;
    let close = d.close as int;
    let kurs = salgskurs(close, c);
    let p = c.commission_pct as int;
    let q = k.qty;
    let k2 = solgt(k, d, c)->0;
    assert(0 <= close * (HUNDRE - c.slippage_pct) <= close * h) by (nonlinear_arith)
        requires
            close >= 0,
            0 <= c.slippage_pct <= HUNDRE,
            HUNDRE == 10_000_000_000,
            h == 10_000_000_000,
    ;
    belop::law_kvotient(close * (HUNDRE - c.slippage_pct), HUNDRE as int);
    assert(0 <= kurs <= close);
    let v = verdi(q, kurs);
    assert(q * kurs >= 0 && q * (close - kurs) >= 0) by (nonlinear_arith)
        requires
            q >= 0,
            0 <= kurs <= close,
    ;
    belop::law_kvotient(q * kurs, 100_000_000);
    belop::law_kvotient(q * (close - kurs), 100_000_000);
    let g = kurtasje(v, c);
    lemma_kostnad(q * kurs, v, p, g, q * (close - kurs), verdi(q, close - kurs));
    lemma_brakt(q * kurs, v, p, g);
    assert(q * (kurs * p) == (q * kurs) * p) by (nonlinear_arith);
    assert(q * (kurs * (h - p)) == (q * kurs) * (h - p)) by (nonlinear_arith);
    if let Some((ts, pris)) = k.entry {
        belop::law_kvotient((kurs - pris) * HUNDRE, pris);
        let t = k2.trades.last();
        assert(k2.trades.drop_last() =~= k.trades);
        assert(t.exit == kurs && t.entry == pris && t.pnl_pct == prosent(kurs, pris));
    }
}

proof fn lemma_brakt(qp: int, v: int, p: int, g: int)
    requires
        0 <= qp,
        0 <= v,
        v * 100_000_000 <= qp < (v + 1) * 100_000_000,
        0 <= p <= 10_000_000_000,
        g == belop::kvotient(v * p, HUNDRE as int),
    ensures
        (v - g - 1) * 1_000_000_000_000_000_000 <= qp * (10_000_000_000 - p) < (v - g + 1) * 1_000_000_000_000_000_000,
{
    let h = 10_000_000_000int;
    assert(v * p >= 0) by (nonlinear_arith)
        requires
            v >= 0,
            p >= 0,
    ;
    belop::law_kvotient(v * p, HUNDRE as int);
    let r = qp - v * 100_000_000;
    assert(qp * (h - p) == (v * h - v * p) * 100_000_000 + r * (h - p)) by (nonlinear_arith)
        requires
            r == qp - v * 100_000_000,
    ;
    assert(0 <= r * (h - p) <= 99_999_999 * h) by (nonlinear_arith)
        requires
            0 <= r <= 99_999_999,
            0 <= h - p <= h,
    ;
}

/// At the close of a day the account is worth its cash and its shares at the closing
/// price, and that is what stands in the curve for the day. The highest worth so far
/// is kept.
pub proof fn law_oppgjoret(k: Konto, d: Candle)
    requires
        d.close >= 0,
        k.qty >= 0,
        gjort_opp(k, d) is Some,
    ensures
        gjort_opp(k, d) matches Some(k2) && {
            let e = k2.curve.last().1 as int;
            &&& k2.cash == k.cash && k2.qty == k.qty && k2.entry == k.entry && k2.trades == k.trades && k2.costs
                == k.costs
            &&& k2.curve.drop_last() == k.curve
            &&& k2.curve.last().0 == d.ts
            &&& (e - k.cash) * 100_000_000 <= k.qty * d.close < (e - k.cash + 1) * 100_000_000
            &&& k2.peak >= k.peak && k2.peak >= e && (k2.peak == k.peak || k2.peak == e)
            &&& k2.drawdown <= k.drawdown
        },
{
    let q = k.qty;
    let close = d.close as int;
    assert(q * close >= 0) by (nonlinear_arith)
        requires
            q >= 0,
            close >= 0,
    ;
    belop::law_kvotient(q * close, 100_000_000);
    let k2 = gjort_opp(k, d)->0;
    assert(k2.curve.drop_last() =~= k.curve);
}

/// What a result says of the whole run: the return is what the last worth is over the
/// cash at the start, and buying and holding returned what the last close is over the
/// first, both in per cent with what is behind the last decimal cut off.
pub proof fn law_avkastningen(r: BacktestResult, k: Konto, dager: Seq<Candle>)
    requires
        dager.len() > 0,
        oppsummert(r, k, dager),
        r.equity_curve@.len() > 0,
    ensures
        ({
            let e = r.equity_curve@.last().1 as int;
            let s = 10_000_000_000_000int;
            &&& e >= s ==> 0 <= r.return_pct && r.return_pct * s <= 10_000_000_000 * (e - s) < (r.return_pct + 1) * s
            &&& e <= s ==> r.return_pct <= 0 && (r.return_pct - 1) * s < 10_000_000_000 * (e - s) <= r.return_pct * s
        }),
        ({
            let a = dager[0].close as int;
            let b = dager.last().close as int;
            let h = r.buy_hold_pct as int;
            &&& a > 0 && b >= a ==> 0 <= h && h * a <= 10_000_000_000 * (b - a) < (h + 1) * a
            &&& a > 0 && b <= a ==> h <= 0 && (h - 1) * a < 10_000_000_000 * (b - a) <= h * a
        }),
        r.open_entry is Some == k.entry is Some,
{
    belop::law_kvotient((r.equity_curve@.last().1 - START_CASH) * HUNDRE, START_CASH as int);
    if dager[0].close > 0 {
        belop::law_kvotient((dager.last().close - dager[0].close) * HUNDRE, dager[0].close as int);
    }
}

/// The trades that count as won are those that gained.
pub proof fn law_vunne_handler(l: Seq<TradeRec>)
    ensures
        gevinster(l) == l.filter(|t: TradeRec| t.pnl_pct > 0).len(),
    decreases l.len(),
{
    reveal(Seq::filter);
    if l.len() > 0 {
        law_vunne_handler(l.drop_last());
    }
}

/// Every trade was entered on one of the days and left on a later one, at the closes
/// of those days but for slippage.
pub proof fn law_handlene_er_dagenes(o: strategy::Oppsett, dager: Seq<Candle>, c: BacktestCfg, t: int)
    requires
        rimelige(c),
        forall|i: int| 0 <= i < dager.len() ==> (#[trigger] dager[i]).close >= 0,
        forlop(o, dager, c) is Some,
        0 <= t < konto_etter(o, dager, c).trades.len(),
    ensures
        exists|i: int, j: int| 0 <= i < j < dager.len() && #[trigger] fra_til(konto_etter(o, dager, c).trades[t], dager[i], dager[j], c),
    decreases dager.len(),
{
    let f = dager.drop_last();
    let k0 = konto_etter(o, f, c);
    let k = konto_etter(o, dager, c);
    assert forall|i: int| 0 <= i < f.len() implies (#[trigger] f[i]).close >= 0 by {
        assert(f[i] == dager[i]);
    }
    lemma_inngangen(o, f, c);
    if t < k0.trades.len() {
        law_handlene_er_dagenes(o, f, c, t);
        let (i, j) = choose|i: int, j: int| 0 <= i < j < f.len() && #[trigger] fra_til(k0.trades[t], f[i], f[j], c);
        assert(f[i] == dager[i] && f[j] == dager[j]);
        assert(k.trades[t] == k0.trades[t]);
        assert(fra_til(k.trades[t], dager[i], dager[j], c));
    } else {
        let d = dager.last();
        assert(d == dager[dager.len() - 1]);
        law_konto_sunn(o, f, c);
        lemma_ikke_under(o, f, c);
        law_salget(k0, d, c);
        let i = choose|i: int| 0 <= i < f.len() && #[trigger] inngang(k0, f[i], c);
        assert(f[i] == dager[i]);
        assert(fra_til(k.trades[t], dager[i], dager[dager.len() - 1], c));
    }
}

/// Whether a trade was entered at the close of one day and left at that of another,
/// with slippage on the one and taken off the other.
pub open spec fn fra_til(t: TradeRec, inn: Candle, ut: Candle, c: BacktestCfg) -> bool {
    &&& t.entry_ts == inn.ts
    &&& t.exit_ts == ut.ts
    &&& t.entry * 10_000_000_000 <= inn.close * (10_000_000_000 + c.slippage_pct) < (t.entry + 1) * 10_000_000_000
    &&& t.exit * 10_000_000_000 <= ut.close * (10_000_000_000 - c.slippage_pct) < (t.exit + 1) * 10_000_000_000
}

spec fn inngang(k: Konto, d: Candle, c: BacktestCfg) -> bool {
    k.entry matches Some((ts, pris)) && ts == d.ts && 0 < pris <= GRENSE && pris * 10_000_000_000 <= d.close * (
    10_000_000_000 + c.slippage_pct) < (pris + 1) * 10_000_000_000
}

proof fn lemma_ikke_under(o: strategy::Oppsett, dager: Seq<Candle>, c: BacktestCfg)
    requires
        rimelige(c),
        forall|i: int| 0 <= i < dager.len() ==> (#[trigger] dager[i]).close >= 0,
        forlop(o, dager, c) is Some,
    ensures
        konto_etter(o, dager, c).qty >= 0,
        konto_etter(o, dager, c).cash >= 0,
{
    lemma_forlop(o, dager, c, c);
}

proof fn lemma_inngangen(o: strategy::Oppsett, dager: Seq<Candle>, c: BacktestCfg)
    requires
        rimelige(c),
        forall|i: int| 0 <= i < dager.len() ==> (#[trigger] dager[i]).close >= 0,
        forlop(o, dager, c) is Some,
    ensures
        konto_etter(o, dager, c).entry is Some ==> exists|i: int|
            0 <= i < dager.len() && #[trigger] inngang(konto_etter(o, dager, c), dager[i], c),
    decreases dager.len(),
{
    if dager.len() > 0 {
        let f = dager.drop_last();
        assert forall|i: int| 0 <= i < f.len() implies (#[trigger] f[i]).close >= 0 by {
            assert(f[i] == dager[i]);
        }
        lemma_inngangen(o, f, c);
        lemma_ikke_under(o, f, c);
        let k0 = konto_etter(o, f, c);
        let k = konto_etter(o, dager, c);
        let n = dager.len() - 1;
        let d = dager.last();
        assert(d == dager[n]);
        if k.entry is Some {
            if k.entry == k0.entry {
                let i = choose|i: int| 0 <= i < f.len() && #[trigger] inngang(k0, f[i], c);
                assert(f[i] == dager[i]);
                assert(inngang(k, dager[i], c));
            } else {
                law_kjopet(k0, d, c);
                let pris = kjopskurs(d.close as int, c);
                let m = HUNDRE + c.commission_pct;
                assert(pris <= pris * m) by (nonlinear_arith)
                    requires
                        pris > 0,
                        m >= 1,
                ;
                assert(inngang(k, dager[n], c));
            }
        }
    }
}

}
