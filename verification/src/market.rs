//! The overview of the market: what is traded most, what moves most, funds, and
//! a simple technical reading of the week.
use vstd::prelude::*;

use crate::belop;
use crate::order;
use crate::strategy;
use crate::text::copy_text;
use crate::types;
use crate::types::Candle;

verus! {

/// The largest shares of the Oslo exchange: symbol and name.
pub const UNIVERSE: [(&'static str, &'static str); 25] = [
    ("EQNR.OL", "Equinor"),
    ("DNB.OL", "DNB Bank"),
    ("NHY.OL", "Norsk Hydro"),
    ("TEL.OL", "Telenor"),
    ("MOWI.OL", "Mowi"),
    ("YAR.OL", "Yara International"),
    ("AKRBP.OL", "Aker BP"),
    ("ORK.OL", "Orkla"),
    ("SALM.OL", "SalMar"),
    ("STB.OL", "Storebrand"),
    ("SUBC.OL", "Subsea 7"),
    ("TOM.OL", "Tomra Systems"),
    ("KOG.OL", "Kongsberg Gruppen"),
    ("NOD.OL", "Nordic Semiconductor"),
    ("FRO.OL", "Frontline"),
    ("GOGL.OL", "Golden Ocean"),
    ("NAS.OL", "Norwegian Air Shuttle"),
    ("SCATC.OL", "Scatec"),
    ("TGS.OL", "TGS"),
    ("AKSO.OL", "Aker Solutions"),
    ("BAKKA.OL", "Bakkafrost"),
    ("LSG.OL", "Lerøy Seafood"),
    ("MPCC.OL", "MPC Container Ships"),
    ("HAFNI.OL", "Hafnia"),
    ("VAR.OL", "Vår Energi"),
];

/// Index funds with live prices: symbol and name.
pub const FUNDS: [(&'static str, &'static str); 6] = [
    ("EUNL.DE", "iShares Core MSCI World"),
    ("VWCE.DE", "Vanguard FTSE All-World"),
    ("SXR8.DE", "iShares Core S&P 500"),
    ("IS3N.DE", "iShares Core MSCI EM"),
    ("EUNK.DE", "iShares Core MSCI Europe"),
    ("XDWT.DE", "Xtrackers MSCI World IT"),
];

/// What the overview needs of one symbol: the price, the volume of the day and
/// the daily prices.
#[derive(Debug)]
pub struct Snapshot {
    pub last: i64,
    pub volume: i64,
    pub candles: Vec<Candle>,
}

#[derive(Debug)]
pub struct MarketRow {
    pub symbol: String,
    pub name: String,
    pub last: i64,
    pub day_pct: i128,
    pub week_pct: i128,
    /// The price times the volume of the day.
    pub turnover: i128,
    /// The mean of the daily spans over the last ten days, in per cent.
    pub range_pct: i128,
}

#[verifier::ext_equal]
pub struct RadSyn {
    pub symbol: Seq<char>,
    pub name: Seq<char>,
    pub last: i64,
    pub day_pct: i128,
    pub week_pct: i128,
    pub turnover: i128,
    pub range_pct: i128,
}

impl View for MarketRow {
    type V = RadSyn;

    open spec fn view(&self) -> RadSyn {
        RadSyn {
            symbol: self.symbol@,
            name: self.name@,
            last: self.last,
            day_pct: self.day_pct,
            week_pct: self.week_pct,
            turnover: self.turnover,
            range_pct: self.range_pct,
        }
    }
}

pub open spec fn rader(l: Seq<MarketRow>) -> Seq<RadSyn> {
    Seq::new(l.len(), |i: int| l[i]@)
}

#[derive(Debug)]
pub struct WeekRow {
    pub symbol: String,
    pub name: String,
    pub last: i64,
    pub week_pct: i128,
    pub rsi: i64,
    pub trend_up: bool,
    pub range_pct: i128,
    /// The sum of the signals, from -3 to 3.
    pub score: i32,
}

#[verifier::ext_equal]
pub struct UkeSyn {
    pub symbol: Seq<char>,
    pub name: Seq<char>,
    pub last: i64,
    pub week_pct: i128,
    pub rsi: int,
    pub trend_up: bool,
    pub range_pct: i128,
    pub score: int,
}

impl View for WeekRow {
    type V = UkeSyn;

    open spec fn view(&self) -> UkeSyn {
        UkeSyn {
            symbol: self.symbol@,
            name: self.name@,
            last: self.last,
            week_pct: self.week_pct,
            rsi: self.rsi as int,
            trend_up: self.trend_up,
            range_pct: self.range_pct,
            score: self.score as int,
        }
    }
}

pub open spec fn uker(l: Seq<WeekRow>) -> Seq<UkeSyn> {
    Seq::new(l.len(), |i: int| l[i]@)
}

#[derive(Debug)]
pub struct MarketOverview {
    pub most_traded: Vec<MarketRow>,
    pub day_trade: Vec<MarketRow>,
    pub funds: Vec<MarketRow>,
    pub week: Vec<WeekRow>,
    /// When it was made, in seconds since 1970.
    pub updated: Option<i64>,
}

impl Default for MarketOverview {
    fn default() -> (r: MarketOverview)
        ensures
            r.most_traded@.len() == 0,
            r.day_trade@.len() == 0,
            r.funds@.len() == 0,
            r.week@.len() == 0,
            r.updated is None,
    {
        MarketOverview {
            most_traded: Vec::new(),
            day_trade: Vec::new(),
            funds: Vec::new(),
            week: Vec::new(),
            updated: None,
        }
    }
}

// ---------------------------------------------------------------------------
// Rows
// ---------------------------------------------------------------------------

/// The relative strength in per cent, cut off at the hundred-millionth.
pub open spec fn rsi_verdi(v: Seq<i64>, period: nat) -> Option<int> {
    if v.len() < period + 1 {
        None
    } else {
        let w = strategy::siste(v, period + 1);
        let opp = strategy::oppgang(w);
        let ned = strategy::nedgang(w);
        if ned == 0 {
            Some(10_000_000_000)
        } else {
            Some((10_000_000_000 * opp) as int / (opp + ned) as int)
        }
    }
}

pub fn rsi(closes: &[i64], period: usize) -> (r: Option<i64>)
    requires
        period < strategy::LENGSTE_VINDU,
    ensures
        r is Some == rsi_verdi(closes@, period as nat) is Some,
        r matches Some(v) ==> rsi_verdi(closes@, period as nat) == Some(v as int) && 0 <= v <= 10_000_000_000,
{
    match strategy::opp_og_ned(closes, period) {
        None => None,
        Some((opp, ned)) => if ned == 0 {
            Some(10_000_000_000)
        } else {
            let q: i128 = 10_000_000_000 * opp / (opp + ned);
            assert(0 <= q <= 10_000_000_000) by (nonlinear_arith)
                requires
                    q == (10_000_000_000 * opp) / (opp + ned),
                    opp >= 0,
                    ned > 0,
            ;
            Some(q as i64)
        },
    }
}

/// `a` in per cent of `b`, with the sign of both; 0 where `b` is nothing.
pub open spec fn andel(a: int, b: int) -> int {
    if b > 0 {
        belop::kvotient(a * 10_000_000_000, b)
    } else if b < 0 {
        belop::kvotient(-a * 10_000_000_000, -b)
    } else {
        0
    }
}

fn regn_andel(a: i128, b: i64) -> (r: i128)
    requires
        -0x1_0000_0000_0000_0000 <= a <= 0x1_0000_0000_0000_0000,
    ensures
        r == andel(a as int, b as int),
        -0x1_0000_0000_0000_0000 * 10_000_000_000 <= r <= 0x1_0000_0000_0000_0000 * 10_000_000_000,
{
    if b > 0 {
        belop::del(a * 10_000_000_000, b as i128)
    } else if b < 0 {
        belop::del(-a * 10_000_000_000, -(b as i128))
    } else {
        0
    }
}

/// How much a price is over a close, in per cent of the close.
pub open spec fn endring_fra(naa: int, for_: int) -> int {
    andel(naa - for_, for_)
}

/// The span of a day in per cent of its close.
pub open spec fn utslag(c: Candle) -> int {
    andel(c.high - c.low, c.close as int)
}

pub open spec fn sum_utslag(l: Seq<Candle>) -> int
    decreases l.len(),
{
    if l.len() == 0 {
        0
    } else {
        sum_utslag(l.drop_last()) + utslag(l.last())
    }
}

/// The last ten days, or all where there are fewer.
pub open spec fn siste_ti(l: Seq<Candle>) -> Seq<Candle> {
    if l.len() <= 10 {
        l
    } else {
        l.skip(l.len() - 10)
    }
}

/// What a snapshot makes of a symbol; a week of prices must be there.
pub open spec fn rad_av(symbol: Seq<char>, name: Seq<char>, s: Snapshot) -> Option<RadSyn> {
    let c = s.candles@;
    let n = c.len() as int;
    if n < 7 {
        None
    } else {
        Some(
            RadSyn {
                symbol,
                name,
                last: s.last,
                day_pct: endring_fra(s.last as int, c[n - 2].close as int) as i128,
                week_pct: endring_fra(s.last as int, c[n - 6].close as int) as i128,
                turnover: (s.last * s.volume) as i128,
                range_pct: belop::kvotient(sum_utslag(siste_ti(c)), siste_ti(c).len() as int) as i128,
            },
        )
    }
}

/// Bounds that the numbers of a row keep.
pub open spec fn rimelig(r: RadSyn) -> bool {
    &&& r.turnover > i128::MIN
    &&& r.range_pct > i128::MIN
    &&& -0x1_0000_0000_0000_0000_0000_0000_0000 < r.week_pct < 0x1_0000_0000_0000_0000_0000_0000_0000
}

fn regn_utslag(c: &Candle) -> (r: i128)
    ensures
        r == utslag(*c),
        -184_467_440_737_095_516_160_000_000_000 <= r <= 184_467_440_737_095_516_160_000_000_000,
{
    regn_andel(c.high as i128 - c.low as i128, c.close)
}

/// The row of a symbol.
pub fn build_row(symbol: &str, name: &str, snap: &Snapshot) -> (r: Option<MarketRow>)
    ensures
        (match rad_av(symbol@, name@, *snap) {
            Some(x) => r is Some && r->0@ == x,
            None => r is None,
        }),
        r matches Some(x) ==> rimelig(x@),
{
    let n: usize = snap.candles.len();
    if n < 7 {
        return None;
    }
    let start: usize = if n <= 10 {
        0
    } else {
        n - 10
    };
    let ghost siste = siste_ti(snap.candles@);
    let mut sum: i128 = 0;
    let mut i: usize = start;
    assert(siste.take(0) =~= Seq::empty());
    while i < n
        invariant
            start <= i <= n,
            n == snap.candles@.len(),
            n - start <= 10,
            siste == siste_ti(snap.candles@),
            siste.len() == n - start,
            forall|k: int| 0 <= k < siste.len() ==> #[trigger] siste[k] == snap.candles@[start + k],
            sum == sum_utslag(siste.take(i - start)),
            -184_467_440_737_095_516_160_000_000_000 * (i - start) <= sum <= 184_467_440_737_095_516_160_000_000_000
                * (i - start),
        decreases n - i,
    {
        proof {
            assert(siste.take(i + 1 - start).drop_last() =~= siste.take(i - start));
            assert(siste.take(i + 1 - start).last() == snap.candles@[i as int]);
        }
        sum = sum + regn_utslag(&snap.candles[i]);
        i += 1;
    }
    proof {
        assert(siste.take(i - start) =~= siste);
        types::lemma_produkt(snap.last as int, snap.volume as int);
    }
    let ut: MarketRow = MarketRow {
        symbol: symbol.to_owned(),
        name: name.to_owned(),
        last: snap.last,
        day_pct: regn_andel(snap.last as i128 - snap.candles[n - 2].close as i128, snap.candles[n - 2].close),
        week_pct: regn_andel(snap.last as i128 - snap.candles[n - 6].close as i128, snap.candles[n - 6].close),
        turnover: snap.last as i128 * snap.volume as i128,
        range_pct: belop::del(sum, (n - start) as i128),
    };
    assert(Some(ut@) =~= rad_av(symbol@, name@, *snap));
    Some(ut)
}

/// The score of a week: the trend, the change of the week beyond two per cent,
/// and the relative strength below 30 or above 70 each count for one.
pub open spec fn poeng(trend_up: bool, week_pct: int, under30: bool, over70: bool) -> int {
    (if trend_up {
        1int
    } else {
        -1
    }) + (if week_pct > 200_000_000 {
        1int
    } else if week_pct < -200_000_000 {
        -1
    } else {
        0
    }) + (if under30 {
        1int
    } else if over70 {
        -1
    } else {
        0
    })
}

pub open spec fn uke_av(r: RadSyn, closes: Seq<i64>) -> Option<UkeSyn> {
    match (
        strategy::rask_over(closes, 5, 20),
        strategy::styrke(closes, 14, 3_000_000_000, 7_000_000_000),
        rsi_verdi(closes, 14),
    ) {
        (Some(opp), Some(s), Some(rsi)) => Some(
            UkeSyn {
                symbol: r.symbol,
                name: r.name,
                last: r.last,
                week_pct: r.week_pct,
                rsi,
                trend_up: opp,
                range_pct: r.range_pct,
                score: poeng(opp, r.week_pct as int, s.0, s.1),
            },
        ),
        _ => None,
    }
}

/// A simple technical reading of the coming week; no advice.
pub fn analyze_week(row: &MarketRow, closes: &[i64]) -> (r: Option<WeekRow>)
    ensures
        (match uke_av(row@, closes@) {
            Some(x) => r is Some && r->0@ == x,
            None => r is None,
        }),
        r matches Some(x) ==> -3 <= x.score <= 3,
{
    let opp: bool = match strategy::er_over(closes, 5, 20) {
        Some(o) => o,
        None => return None,
    };
    let (gevinst, tap): (i128, i128) = match strategy::opp_og_ned(closes, 14) {
        Some(p) => p,
        None => return None,
    };
    let (under30, over70): (bool, bool) = strategy::rsi_mot(gevinst, tap, 3_000_000_000, 7_000_000_000);
    let styrke: i64 = match rsi(closes, 14) {
        Some(s) => s,
        None => return None,
    };
    let mut score: i32 = if opp {
        1
    } else {
        -1
    };
    if row.week_pct > 200_000_000 {
        score += 1;
    } else if row.week_pct < -200_000_000 {
        score -= 1;
    }
    if under30 {
        score += 1;
    } else if over70 {
        score -= 1;
    }
    let ut: WeekRow = WeekRow {
        symbol: copy_text(&row.symbol),
        name: copy_text(&row.name),
        last: row.last,
        week_pct: row.week_pct,
        rsi: styrke,
        trend_up: opp,
        range_pct: row.range_pct,
        score,
    };
    assert(Some(ut@) =~= uke_av(row@, closes@));
    Some(ut)
}

/// A score lies between -3 and 3.
pub proof fn law_poeng(trend_up: bool, week_pct: int, under30: bool, over70: bool)
    ensures
        -3 <= poeng(trend_up, week_pct, under30, over70) <= 3,
{
}

// ---------------------------------------------------------------------------
// The overview
// ---------------------------------------------------------------------------

/// The largest first, those of the same size in their old order.
pub open spec fn storste_forst(l: Seq<RadSyn>, storrelse: Seq<i128>) -> Seq<RadSyn> {
    order::order_of(storrelse.map_values(|v: i128| (-v) as i128)).map_values(|i: int| l[i])
}

pub open spec fn omsetninger(l: Seq<RadSyn>) -> Seq<i128> {
    l.map_values(|r: RadSyn| r.turnover)
}

pub open spec fn bevegelser(l: Seq<RadSyn>) -> Seq<i128> {
    l.map_values(|r: RadSyn| r.range_pct)
}

pub open spec fn hoyst(l: Seq<RadSyn>, n: nat) -> Seq<RadSyn> {
    if l.len() <= n {
        l
    } else {
        l.take(n as int)
    }
}

/// The middle one of the turnovers in their order; 0 where there are none.
pub open spec fn median(l: Seq<RadSyn>) -> int {
    let o = order::order_of(omsetninger(l));
    if o.len() == 0 {
        0
    } else {
        l[o[(o.len() / 2) as int]].turnover as int
    }
}

/// The rows with at least so much turnover.
pub open spec fn likvide(l: Seq<RadSyn>, grense: int) -> Seq<RadSyn> {
    l.filter(|r: RadSyn| r.turnover >= grense)
}

/// The weeks with the highest score first, and within a score the largest rise
/// first.
pub open spec fn ukenokkel(u: UkeSyn) -> i128 {
    (-(u.score * 0x1_0000_0000_0000_0000_0000_0000_0000 + u.week_pct)) as i128
}

pub open spec fn ukeorden(l: Seq<UkeSyn>) -> Seq<UkeSyn> {
    order::order_of(l.map_values(|u: UkeSyn| ukenokkel(u))).map_values(|i: int| l[i])
}

fn kopi(r: &MarketRow) -> (k: MarketRow)
    ensures
        k@ == r@,
{
    MarketRow {
        symbol: copy_text(&r.symbol),
        name: copy_text(&r.name),
        last: r.last,
        day_pct: r.day_pct,
        week_pct: r.week_pct,
        turnover: r.turnover,
        range_pct: r.range_pct,
    }
}

fn ukekopi(r: &WeekRow) -> (k: WeekRow)
    ensures
        k@ == r@,
{
    WeekRow {
        symbol: copy_text(&r.symbol),
        name: copy_text(&r.name),
        last: r.last,
        week_pct: r.week_pct,
        rsi: r.rsi,
        trend_up: r.trend_up,
        range_pct: r.range_pct,
        score: r.score,
    }
}

/// The first `n` of the rows with the largest sizes.
fn plukk(l: &Vec<MarketRow>, storrelse: &Vec<i128>, n: usize) -> (r: Vec<MarketRow>)
    requires
        storrelse@.len() == l@.len(),
        forall|i: int| 0 <= i < storrelse@.len() ==> #[trigger] storrelse@[i] > i128::MIN,
    ensures
        rader(r@) == hoyst(storste_forst(rader(l@), storrelse@), n as nat),
{
    let mut keys: Vec<i128> = Vec::new();
    let mut i: usize = 0;
    while i < storrelse.len()
        invariant
            i <= storrelse@.len(),
            keys@.len() == i,
            forall|k: int| 0 <= k < storrelse@.len() ==> #[trigger] storrelse@[k] > i128::MIN,
            forall|k: int| 0 <= k < i ==> #[trigger] keys@[k] == -storrelse@[k],
        decreases storrelse.len() - i,
    {
        keys.push(-storrelse[i]);
        i += 1;
    }
    let ghost k = storrelse@.map_values(|v: i128| (-v) as i128);
    assert(keys@ =~= k);
    let o: Vec<usize> = order::stable_order(&keys);
    let ghost p = order::positions(o@);
    let ghost alle = storste_forst(rader(l@), storrelse@);
    assert(alle.len() == o@.len());
    let m: usize = if o.len() <= n {
        o.len()
    } else {
        n
    };
    let mut ut: Vec<MarketRow> = Vec::new();
    let mut j: usize = 0;
    while j < m
        invariant
            j <= m <= o@.len(),
            ut@.len() == j,
            o@.len() == l@.len(),
            p == order::positions(o@),
            p == order::order_of(k),
            alle == p.map_values(|i: int| rader(l@)[i]),
            forall|i: int| 0 <= i < o@.len() ==> (#[trigger] o@[i]) < l@.len(),
            forall|i: int| 0 <= i < j ==> (#[trigger] ut@[i])@ == alle[i],
        decreases m - j,
    {
        assert(p[j as int] == o@[j as int]);
        ut.push(kopi(&l[o[j]]));
        j += 1;
    }
    assert(rader(ut@) =~= hoyst(alle, n as nat));
    ut
}

fn finn_median(l: &Vec<MarketRow>) -> (r: i128)
    ensures
        r == median(rader(l@)),
{
    let mut keys: Vec<i128> = Vec::new();
    let mut i: usize = 0;
    while i < l.len()
        invariant
            i <= l@.len(),
            keys@.len() == i,
            forall|k: int| 0 <= k < i ==> #[trigger] keys@[k] == l@[k].turnover,
        decreases l.len() - i,
    {
        keys.push(l[i].turnover);
        i += 1;
    }
    assert(keys@ =~= omsetninger(rader(l@)));
    let o: Vec<usize> = order::stable_order(&keys);
    assert(o@.len() == order::positions(o@).len());
    if o.len() == 0 {
        0
    } else {
        let m: usize = o.len() / 2;
        assert(order::positions(o@)[m as int] == o@[m as int]);
        l[o[m]].turnover
    }
}

fn velg_likvide(l: &Vec<MarketRow>, grense: i128) -> (r: Vec<MarketRow>)
    ensures
        rader(r@) == likvide(rader(l@), grense as int),
{
    let ghost alle = rader(l@);
    let ghost holder = |r: RadSyn| r.turnover >= grense;
    let mut ut: Vec<MarketRow> = Vec::new();
    let mut i: usize = 0;
    proof {
        reveal(Seq::filter);
        assert(rader(ut@) =~= alle.take(0).filter(holder));
    }
    while i < l.len()
        invariant
            i <= l@.len(),
            alle == rader(l@),
            holder == (|r: RadSyn| r.turnover >= grense),
            rader(ut@) == alle.take(i as int).filter(holder),
        decreases l.len() - i,
    {
        let ghost for_ = rader(ut@);
        proof {
            reveal(Seq::filter);
            assert(alle.take(i + 1).drop_last() =~= alle.take(i as int));
            assert(alle.take(i + 1).last() == l@[i as int]@);
        }
        if l[i].turnover >= grense {
            ut.push(kopi(&l[i]));
            assert(rader(ut@) =~= for_.push(l@[i as int]@));
        }
        i += 1;
    }
    assert(alle.take(i as int) =~= alle);
    assert(likvide(alle, grense as int) =~= alle.filter(holder));
    ut
}

fn ordne_uker(l: &Vec<WeekRow>) -> (r: Vec<WeekRow>)
    requires
        forall|i: int|
            0 <= i < l@.len() ==> -3 <= (#[trigger] l@[i]).score <= 3 && -0x1_0000_0000_0000_0000_0000_0000_0000
                < l@[i].week_pct < 0x1_0000_0000_0000_0000_0000_0000_0000,
    ensures
        uker(r@) == ukeorden(uker(l@)),
{
    let mut keys: Vec<i128> = Vec::new();
    let mut i: usize = 0;
    while i < l.len()
        invariant
            i <= l@.len(),
            keys@.len() == i,
            forall|k: int|
                0 <= k < l@.len() ==> -3 <= (#[trigger] l@[k]).score <= 3
                    && -0x1_0000_0000_0000_0000_0000_0000_0000 < l@[k].week_pct
                    < 0x1_0000_0000_0000_0000_0000_0000_0000,
            forall|k: int| 0 <= k < i ==> #[trigger] keys@[k] == ukenokkel(l@[k]@),
        decreases l.len() - i,
    {
        keys.push(-(l[i].score as i128 * 0x1_0000_0000_0000_0000_0000_0000_0000 + l[i].week_pct));
        i += 1;
    }
    let ghost k = uker(l@).map_values(|u: UkeSyn| ukenokkel(u));
    assert(keys@ =~= k);
    let o: Vec<usize> = order::stable_order(&keys);
    let ghost p = order::positions(o@);
    let mut ut: Vec<WeekRow> = Vec::new();
    let mut j: usize = 0;
    assert(p.len() == o@.len());
    while j < o.len()
        invariant
            j <= o@.len(),
            ut@.len() == j,
            o@.len() == l@.len(),
            p == order::positions(o@),
            forall|i: int| 0 <= i < o@.len() ==> (#[trigger] o@[i]) < l@.len(),
            forall|i: int| 0 <= i < j ==> (#[trigger] ut@[i])@ == uker(l@)[p[i]],
        decreases o.len() - j,
    {
        assert(p[j as int] == o@[j as int]);
        ut.push(ukekopi(&l[o[j]]));
        j += 1;
    }
    assert(uker(ut@) =~= ukeorden(uker(l@)));
    ut
}

/// Puts the overview together: the ten with the largest turnover; the ten that
/// move most among those with at least the median turnover, since movement
/// without turnover is a trap; the funds; and the weeks, best first.
pub fn oversikt(stocks: Vec<MarketRow>, week: Vec<WeekRow>, funds: Vec<MarketRow>, naa: i64) -> (r: MarketOverview)
    requires
        forall|i: int| 0 <= i < stocks@.len() ==> rimelig((#[trigger] stocks@[i])@),
        forall|i: int|
            0 <= i < week@.len() ==> -3 <= (#[trigger] week@[i]).score <= 3
                && -0x1_0000_0000_0000_0000_0000_0000_0000 < week@[i].week_pct
                < 0x1_0000_0000_0000_0000_0000_0000_0000,
    ensures
        rader(r.most_traded@) == hoyst(storste_forst(rader(stocks@), omsetninger(rader(stocks@))), 10),
        ({
            let l = likvide(rader(stocks@), median(rader(stocks@)));
            rader(r.day_trade@) == hoyst(storste_forst(l, bevegelser(l)), 10)
        }),
        r.funds == funds,
        uker(r.week@) == ukeorden(uker(week@)),
        r.updated == Some(naa),
{
    let ghost s = rader(stocks@);
    let mut omsetning: Vec<i128> = Vec::new();
    let mut i: usize = 0;
    while i < stocks.len()
        invariant
            i <= stocks@.len(),
            omsetning@.len() == i,
            forall|k: int| 0 <= k < stocks@.len() ==> rimelig((#[trigger] stocks@[k])@),
            forall|k: int| 0 <= k < i ==> #[trigger] omsetning@[k] == stocks@[k].turnover,
        decreases stocks.len() - i,
    {
        omsetning.push(stocks[i].turnover);
        i += 1;
    }
    assert(omsetning@ =~= omsetninger(s));
    assert forall|k: int| 0 <= k < omsetning@.len() implies #[trigger] omsetning@[k] > i128::MIN by {
        assert(omsetning@[k] == stocks@[k].turnover);
    }
    let most_traded: Vec<MarketRow> = plukk(&stocks, &omsetning, 10);
    let grense: i128 = finn_median(&stocks);
    let utvalg: Vec<MarketRow> = velg_likvide(&stocks, grense);
    let ghost u = rader(utvalg@);
    proof {
        lemma_fra(s, grense as int);
        assert forall|k: int| 0 <= k < u.len() implies (#[trigger] u[k]).range_pct > i128::MIN by {
            assert(u.contains(u[k]));
            let j = choose|j: int| 0 <= j < s.len() && s[j] == u[k];
            assert(stocks@[j]@ == s[j]);
        }
    }
    let mut bevegelse: Vec<i128> = Vec::new();
    let mut j: usize = 0;
    while j < utvalg.len()
        invariant
            j <= utvalg@.len(),
            bevegelse@.len() == j,
            u == rader(utvalg@),
            forall|k: int| 0 <= k < u.len() ==> (#[trigger] u[k]).range_pct > i128::MIN,
            forall|k: int| 0 <= k < j ==> #[trigger] bevegelse@[k] == u[k].range_pct,
        decreases utvalg.len() - j,
    {
        assert(u[j as int] == utvalg@[j as int]@);
        bevegelse.push(utvalg[j].range_pct);
        j += 1;
    }
    assert(bevegelse@ =~= bevegelser(u));
    assert forall|k: int| 0 <= k < bevegelse@.len() implies #[trigger] bevegelse@[k] > i128::MIN by {
        assert(bevegelse@[k] == u[k].range_pct);
    }
    let day_trade: Vec<MarketRow> = plukk(&utvalg, &bevegelse, 10);
    let ordnet: Vec<WeekRow> = ordne_uker(&week);
    MarketOverview { most_traded, day_trade, funds, week: ordnet, updated: Some(naa) }
}

proof fn lemma_fra(l: Seq<RadSyn>, grense: int)
    ensures
        forall|r: RadSyn| #[trigger] likvide(l, grense).contains(r) ==> l.contains(r) && r.turnover >= grense,
    decreases l.len(),
{
    reveal(Seq::filter);
    let f = likvide(l, grense);
    if l.len() > 0 {
        let d = l.drop_last();
        lemma_fra(d, grense);
        assert forall|r: RadSyn| #[trigger] f.contains(r) implies l.contains(r) && r.turnover >= grense by {
            let i = choose|i: int| 0 <= i < f.len() && f[i] == r;
            let g = likvide(d, grense);
            if i < g.len() {
                assert(g[i] == r);
                assert(g.contains(r));
                let j = choose|j: int| 0 <= j < d.len() && d[j] == r;
                assert(l[j] == r);
            } else {
                assert(l[l.len() - 1] == r);
            }
        }
    }
}

/// What is traded most comes first, and what moves most is traded enough: every
/// row of the second list has at least the median turnover.
pub proof fn law_likvide(l: Seq<RadSyn>)
    ensures
        forall|i: int|
            0 <= i < likvide(l, median(l)).len() ==> (#[trigger] likvide(l, median(l))[i]).turnover >= median(l),
{
    lemma_fra(l, median(l));
    let f = likvide(l, median(l));
    assert forall|i: int| 0 <= i < f.len() implies (#[trigger] f[i]).turnover >= median(l) by {
        assert(f.contains(f[i]));
    }
}

/// The list of the largest is in falling order.
pub proof fn law_storste_forst(l: Seq<RadSyn>)
    requires
        forall|i: int| 0 <= i < l.len() ==> (#[trigger] l[i]).turnover > i128::MIN,
    ensures
        storste_forst(l, omsetninger(l)).len() == l.len(),
        forall|i: int, j: int|
            0 <= i < j < l.len() ==> (#[trigger] storste_forst(l, omsetninger(l))[i]).turnover >= (
            #[trigger] storste_forst(l, omsetninger(l))[j]).turnover,
{
    let k = omsetninger(l).map_values(|v: i128| (-v) as i128);
    order::law_order_is_stable(k);
    let o = order::order_of(k);
    let s = storste_forst(l, omsetninger(l));
    assert forall|i: int, j: int| 0 <= i < j < l.len() implies (#[trigger] s[i]).turnover >= (
    #[trigger] s[j]).turnover by {
        assert(order::earlier(k, o[i], o[j]));
        assert(s[i] == l[o[i]] && s[j] == l[o[j]]);
        assert(k[o[i]] == -l[o[i]].turnover && k[o[j]] == -l[o[j]].turnover);
    }
}

/// The relative strength is the share of the gains in gains and losses over the last
/// steps, in per cent with what is behind the last decimal cut off; the whole where
/// nothing was lost.
pub proof fn law_rsi_verdi(v: Seq<i64>, period: nat)
    ensures
        v.len() <= period ==> rsi_verdi(v, period) is None,
        v.len() > period ==> ({
            let (a, b) = strategy::styrkebrok(v.skip(v.len() - period - 1));
            rsi_verdi(v, period) matches Some(r) && r * b <= 10_000_000_000 * a < (r + 1) * b
        }),
{
    if v.len() > period {
        let w = v.skip(v.len() - period - 1);
        assert(strategy::siste(v, period + 1) =~= w);
        let opp = strategy::oppgang(w) as int;
        let ned = strategy::nedgang(w) as int;
        if ned > 0 {
            belop::law_kvotient(10_000_000_000 * opp, opp + ned);
        } else {
            let b = strategy::styrkebrok(w).1;
            assert(10_000_000_000 * b == 10_000_000_000 && 10_000_000_001 * b == 10_000_000_001);
        }
    }
}

/// A share of a close in per cent, of a close below nothing too: as much of the close
/// as makes up the part, with what is behind the last decimal cut off.
pub proof fn law_andel(a: int, b: int)
    ensures
        b == 0 ==> andel(a, b) == 0,
        b > 0 && a >= 0 ==> andel(a, b) >= 0 && andel(a, b) * b <= a * 10_000_000_000 < (andel(a, b) + 1) * b,
        b > 0 && a <= 0 ==> andel(a, b) <= 0 && (andel(a, b) - 1) * b < a * 10_000_000_000 <= andel(a, b) * b,
        b != 0 ==> andel(-a, b) == -andel(a, b) && andel(a, -b) == -andel(a, b),
{
    if b > 0 {
        belop::law_kvotient(a * 10_000_000_000, b);
    }
}

proof fn lemma_andel_innen(a: int, b: int)
    requires
        -0x1_0000_0000_0000_0000 <= a <= 0x1_0000_0000_0000_0000,
    ensures
        i128::MIN <= andel(a, b) <= i128::MAX,
{
    let p = if b < 0 {
        -b
    } else {
        b
    };
    if b != 0 {
        let t = if b < 0 {
            -a * 10_000_000_000
        } else {
            a * 10_000_000_000
        };
        belop::law_kvotient(t, p);
        let q = belop::kvotient(t, p);
        assert(t >= 0 ==> q <= q * p) by (nonlinear_arith)
            requires
                t >= 0 ==> q >= 0,
                p >= 1,
        ;
        assert(t <= 0 ==> q * p <= q) by (nonlinear_arith)
            requires
                t <= 0 ==> q <= 0,
                p >= 1,
        ;
    }
}

/// The change of the day is counted from the close before the last, that of the week
/// from the close five days before that day, and the turnover is the price times the
/// volume. With fewer than seven days there is no row.
pub proof fn law_raden(symbol: Seq<char>, name: Seq<char>, s: Snapshot)
    ensures
        s.candles@.len() < 7 ==> rad_av(symbol, name, s) is None,
        s.candles@.len() >= 7 ==> ({
            let n = s.candles@.len() as int;
            let i_gaar = s.candles@[n - 2].close as int;
            let for_en_uke = s.candles@[n - 6].close as int;
            rad_av(symbol, name, s) matches Some(r) && {
                &&& r.symbol == symbol && r.name == name && r.last == s.last
                &&& r.day_pct == andel(s.last - i_gaar, i_gaar)
                &&& r.week_pct == andel(s.last - for_en_uke, for_en_uke)
                &&& r.turnover == s.volume * s.last
            }
        }),
{
    if s.candles@.len() >= 7 {
        let n = s.candles@.len() as int;
        lemma_andel_innen(s.last - s.candles@[n - 2].close, s.candles@[n - 2].close as int);
        lemma_andel_innen(s.last - s.candles@[n - 6].close, s.candles@[n - 6].close as int);
        let a = s.last as int;
        let b = s.volume as int;
        crate::types::lemma_produkt(a, b);
        assert(a * b == b * a) by (nonlinear_arith);
    }
}

/// The span is the mean over the last ten days, or all where there are fewer, of how
/// far each day's high was over its low, in per cent of its close.
pub proof fn law_utslaget(l: Seq<Candle>)
    ensures
        sum_utslag(l) == l.fold_left(0int, |s: int, c: Candle| s + andel(c.high - c.low, c.close as int)),
        siste_ti(l).len() <= 10,
        l.len() >= 10 ==> siste_ti(l).len() == 10 && forall|i: int|
            0 <= i < 10 ==> #[trigger] siste_ti(l)[i] == l[l.len() - 10 + i],
        l.len() <= 10 ==> siste_ti(l) == l,
    decreases l.len(),
{
    if l.len() > 0 {
        law_utslaget(l.drop_last());
    }
    if l.len() == 10 {
        assert(l.skip(0) =~= l);
    }
}

/// A rising trend is worth two more than a falling one; a week that rose more than two
/// per cent one more, and one that fell more than two per cent one less, than a quiet
/// one; a strength under 30 one more, and else one over 70 one less, than one between.
/// A rising trend in an otherwise quiet week is worth one.
pub proof fn law_poengene(t: bool, w: int, u: bool, o: bool)
    ensures
        poeng(true, 0, false, false) == 1,
        poeng(true, w, u, o) == poeng(false, w, u, o) + 2,
        w > 200_000_000 ==> poeng(t, w, u, o) == poeng(t, 0, u, o) + 1,
        w < -200_000_000 ==> poeng(t, w, u, o) == poeng(t, 0, u, o) - 1,
        -200_000_000 <= w <= 200_000_000 ==> poeng(t, w, u, o) == poeng(t, 0, u, o),
        poeng(t, w, true, o) == poeng(t, w, false, false) + 1,
        poeng(t, w, false, true) == poeng(t, w, false, false) - 1,
{
}

/// The reading of a week goes by the last twenty closes: the trend is up exactly when
/// the mean of the last five is over that of the last twenty, and the limits of the
/// strength are 30 and 70 over the last fourteen steps.
pub proof fn law_ukelesningen(r: RadSyn, closes: Seq<i64>)
    ensures
        closes.len() < 20 ==> uke_av(r, closes) is None,
        closes.len() >= 20 ==> ({
            let (a, b) = strategy::styrkebrok(closes.skip(closes.len() - 15));
            let opp = strategy::sum_nyeste(closes, 5) * 20 > strategy::sum_nyeste(closes, 20) * 5;
            uke_av(r, closes) matches Some(x) && {
                &&& x.symbol == r.symbol && x.name == r.name && x.last == r.last && x.week_pct == r.week_pct
                    && x.range_pct == r.range_pct
                &&& x.trend_up == opp
                &&& x.score == poeng(opp, r.week_pct as int, a * 100 < b * 30, a * 100 > b * 70)
                &&& x.rsi * b <= 10_000_000_000 * a < (x.rsi + 1) * b
            }
        }),
{
    if closes.len() >= 20 {
        let n = closes.len();
        law_rsi_verdi(closes, 14);
        let w = closes.skip(n - 15);
        assert(strategy::siste(closes, 15) =~= w);
        assert(strategy::siste(closes, 5) =~= strategy::nyeste(closes, 5));
        assert(strategy::siste(closes, 20) =~= strategy::nyeste(closes, 20));
        strategy::law_sum(strategy::nyeste(closes, 5));
        strategy::law_sum(strategy::nyeste(closes, 20));
    }
}

/// The list of those that move most is in falling order, the list is made of the rows
/// that were given, and a short list is the head of the long one.
pub proof fn law_bevegelse_forst(l: Seq<RadSyn>, n: nat)
    requires
        forall|i: int| 0 <= i < l.len() ==> (#[trigger] l[i]).range_pct > i128::MIN,
    ensures
        storste_forst(l, bevegelser(l)).len() == l.len(),
        forall|i: int, j: int|
            0 <= i < j < l.len() ==> (#[trigger] storste_forst(l, bevegelser(l))[i]).range_pct >= (
            #[trigger] storste_forst(l, bevegelser(l))[j]).range_pct,
        forall|r: RadSyn| #[trigger] l.contains(r) ==> storste_forst(l, bevegelser(l)).contains(r),
        hoyst(l, n).len() == (if l.len() < n {
            l.len()
        } else {
            n
        }),
        hoyst(l, n).is_prefix_of(l),
{
    let k = bevegelser(l).map_values(|v: i128| (-v) as i128);
    order::law_order_is_stable(k);
    let o = order::order_of(k);
    let s = storste_forst(l, bevegelser(l));
    assert forall|i: int, j: int| 0 <= i < j < l.len() implies (#[trigger] s[i]).range_pct >= (
    #[trigger] s[j]).range_pct by {
        assert(order::earlier(k, o[i], o[j]));
        assert(s[i] == l[o[i]] && s[j] == l[o[j]]);
        assert(k[o[i]] == -l[o[i]].range_pct && k[o[j]] == -l[o[j]].range_pct);
    }
    assert forall|r: RadSyn| #[trigger] l.contains(r) implies s.contains(r) by {
        let i = choose|i: int| 0 <= i < l.len() && l[i] == r;
        assert(o.contains(i));
        let j = choose|j: int| 0 <= j < o.len() && o[j] == i;
        assert(s[j] == r);
    }
    assert(l.take(l.len() as int) =~= l);
}

/// The median is the turnover of one of the rows, and of the rows in the order of
/// their turnover those up to the middle one are not over it and those from it on are
/// not under it.
pub proof fn law_median(l: Seq<RadSyn>, i: int)
    requires
        0 <= i < l.len(),
    ensures
        ({
            let o = order::order_of(omsetninger(l));
            &&& o.len() == l.len()
            &&& i <= l.len() / 2 ==> l[o[i]].turnover <= median(l)
            &&& i >= l.len() / 2 ==> l[o[i]].turnover >= median(l)
        }),
{
    let k = omsetninger(l);
    order::law_order_is_stable(k);
    let o = order::order_of(k);
    let m = (l.len() / 2) as int;
    assert(k[o[m]] == l[o[m]].turnover && k[o[i]] == l[o[i]].turnover);
    if i < m {
        assert(order::earlier(k, o[i], o[m]));
    } else if i > m {
        assert(order::earlier(k, o[m], o[i]));
    }
}

/// The weeks stand with the highest score first, and with the same score the largest
/// rise first.
pub proof fn law_ukeorden(l: Seq<UkeSyn>, i: int, j: int)
    requires
        forall|k: int|
            0 <= k < l.len() ==> -3 <= (#[trigger] l[k]).score <= 3 && -0x7000_0000_0000_0000_0000_0000_0000
                < l[k].week_pct < 0x7000_0000_0000_0000_0000_0000_0000,
        0 <= i < j < l.len(),
    ensures
        ukeorden(l).len() == l.len(),
        ukeorden(l)[i].score >= ukeorden(l)[j].score,
        ukeorden(l)[i].score == ukeorden(l)[j].score ==> ukeorden(l)[i].week_pct >= ukeorden(l)[j].week_pct,
{
    let k = l.map_values(|u: UkeSyn| ukenokkel(u));
    order::law_order_is_stable(k);
    let o = order::order_of(k);
    assert(order::earlier(k, o[i], o[j]));
    let a = l[o[i]];
    let b = l[o[j]];
    assert(k[o[i]] == ukenokkel(a) && k[o[j]] == ukenokkel(b));
    assert(ukeorden(l)[i] == a && ukeorden(l)[j] == b);
}

/// A row stays exactly where as much is traded of it as is asked for, or more.
pub proof fn law_nok_omsetning(l: Seq<RadSyn>, grense: int, i: int)
    requires
        0 <= i < l.len(),
    ensures
        l[i].turnover == grense || l[i].turnover > grense ==> likvide(l, grense).contains(l[i]),
        l[i].turnover < grense ==> !likvide(l, grense).contains(l[i]),
{
    let p = |r: RadSyn| r.turnover >= grense;
    let f = l.filter(p);
    assert(likvide(l, grense) == f);
    if p(l[i]) {
        l.lemma_filter_contains(p, i);
    } else if f.contains(l[i]) {
        let k = choose|k: int| 0 <= k < f.len() && f[k] == l[i];
        l.lemma_filter_pred(p, k);
    }
}

}
