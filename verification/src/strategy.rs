//! Strategies: a price goes in, and perhaps a signal comes out.
use vstd::prelude::*;

use crate::config::StrategyCfg;
use crate::number_text;
use crate::tabell::Tabell;
use crate::text::{push_text, same, string_of, two};
use crate::types::Side;

verus! {

/// The longest window whose sums of prices can be held against each other, and
/// against a limit in per cent, in 128 bits.
pub const LENGSTE_VINDU: usize = 0xfff_ffff;

// ---------------------------------------------------------------------------
// Windows of prices
// ---------------------------------------------------------------------------

/// A price put behind the window; the oldest goes where it holds more than `n`.
pub open spec fn skjovet(v: Seq<i64>, pris: i64, n: nat) -> Seq<i64> {
    let w = v.push(pris);
    if w.len() > n {
        w.skip(1)
    } else {
        w
    }
}

/// All prices put behind the window, the first one first.
pub open spec fn skjovet_alle(v: Seq<i64>, priser: Seq<i64>, n: nat) -> Seq<i64>
    decreases priser.len(),
{
    if priser.len() == 0 {
        v
    } else {
        skjovet(skjovet_alle(v, priser.drop_last(), n), priser.last(), n)
    }
}

fn skyv(v: &mut Vec<i64>, pris: i64, n: usize)
    ensures
        final(v)@ == skjovet(old(v)@, pris, n as nat),
{
    let ghost gammel = v@;
    v.push(pris);
    if v.len() > n {
        v.remove(0);
        assert(v@ =~= gammel.push(pris).skip(1));
    }
}

pub open spec fn sum(s: Seq<i64>) -> int
    decreases s.len(),
{
    if s.len() == 0 {
        0
    } else {
        sum(s.drop_last()) + s.last()
    }
}

/// The last `n` prices.
pub open spec fn siste(v: Seq<i64>, n: nat) -> Seq<i64> {
    v.skip(v.len() - n)
}

pub proof fn lemma_sum(s: Seq<i64>)
    ensures
        -0x8000_0000_0000_0000 * s.len() <= sum(s) <= 0x7fff_ffff_ffff_ffff * s.len(),
    decreases s.len(),
{
    if s.len() > 0 {
        lemma_sum(s.drop_last());
    }
}

/// A sum without its first.
pub proof fn lemma_sum_uten_forste(s: Seq<i64>)
    requires
        s.len() > 0,
    ensures
        sum(s.skip(1)) == sum(s) - s[0],
    decreases s.len(),
{
    if s.len() == 1 {
        assert(s.drop_last() =~= Seq::empty());
        assert(s.skip(1) =~= Seq::empty());
        assert(sum(s.drop_last()) == 0);
    } else {
        lemma_sum_uten_forste(s.drop_last());
        assert(s.skip(1).drop_last() =~= s.drop_last().skip(1));
        assert(s.skip(1).last() == s.last());
    }
}

/// The sum of the last `n` prices; none where there are fewer.
pub fn sum_siste(v: &[i64], n: usize) -> (r: Option<i128>)
    requires
        n <= LENGSTE_VINDU,
    ensures
        r is Some == (v@.len() >= n),
        r matches Some(s) ==> s == sum(siste(v@, n as nat)) && -0x800_0000_0000_0000_0000_0000 <= s
            <= 0x800_0000_0000_0000_0000_0000,
{
    if v.len() < n {
        return None;
    }
    let m: usize = v.len();
    let start: usize = m - n;
    let ghost w = siste(v@, n as nat);
    let mut s: i128 = 0;
    let mut i: usize = 0;
    while i < n
        invariant
            i <= n <= LENGSTE_VINDU,
            start + n == m == v@.len(),
            w == siste(v@, n as nat),
            s == sum(w.take(i as int)),
        decreases n - i,
    {
        proof {
            lemma_sum(w.take(i as int));
            assert(w.take(i + 1).drop_last() =~= w.take(i as int));
            assert(w.take(i + 1).last() == v@[start + i]);
        }
        s = s + v[start + i] as i128;
        i += 1;
    }
    proof {
        assert(w.take(i as int) =~= w);
        lemma_sum(w);
    }
    Some(s)
}

/// What the prices gained from one to the next, in all.
pub open spec fn oppgang(s: Seq<i64>) -> nat
    decreases s.len(),
{
    if s.len() < 2 {
        0
    } else {
        let d = s.last() - s[s.len() - 2];
        oppgang(s.drop_last()) + (if d >= 0 {
            d as nat
        } else {
            0
        })
    }
}

/// What the prices lost from one to the next, in all.
pub open spec fn nedgang(s: Seq<i64>) -> nat
    decreases s.len(),
{
    if s.len() < 2 {
        0
    } else {
        let d = s.last() - s[s.len() - 2];
        nedgang(s.drop_last()) + (if d < 0 {
            (-d) as nat
        } else {
            0
        })
    }
}

/// The gains and the losses over the last `period` steps; none where there
/// are not so many.
pub fn opp_og_ned(v: &[i64], period: usize) -> (r: Option<(i128, i128)>)
    requires
        period < LENGSTE_VINDU,
    ensures
        r is Some == (v@.len() >= period + 1),
        r matches Some(p) ==> p.0 == oppgang(siste(v@, (period + 1) as nat)) && p.1 == nedgang(
            siste(v@, (period + 1) as nat),
        ) && p.0 <= 0x1000_0000_0000_0000_0000_0000 && p.1 <= 0x1000_0000_0000_0000_0000_0000,
{
    let n: usize = period + 1;
    if v.len() < n {
        return None;
    }
    let m: usize = v.len();
    let start: usize = m - n;
    let ghost w = siste(v@, n as nat);
    let mut opp: i128 = 0;
    let mut ned: i128 = 0;
    let mut i: usize = 1;
    proof {
        reveal_with_fuel(oppgang, 2);
        reveal_with_fuel(nedgang, 2);
    }
    while i < n
        invariant
            1 <= i <= n <= LENGSTE_VINDU,
            start + n == m == v@.len(),
            w == siste(v@, n as nat),
            opp == oppgang(w.take(i as int)),
            ned == nedgang(w.take(i as int)),
            0 <= opp <= 0x1_0000_0000_0000_0000 * i,
            0 <= ned <= 0x1_0000_0000_0000_0000 * i,
        decreases n - i,
    {
        let d: i128 = v[start + i] as i128 - v[start + i - 1] as i128;
        proof {
            let t = w.take(i + 1);
            assert(t.drop_last() =~= w.take(i as int));
            assert(t.last() == v@[start + i]);
            assert(t[t.len() - 2] == v@[start + i - 1]);
        }
        if d >= 0 {
            opp = opp + d;
        } else {
            ned = ned - d;
        }
        i += 1;
    }
    assert(w.take(i as int) =~= w);
    Some((opp, ned))
}

/// Whether the relative strength, 100 times the gains over gains and losses,
/// is under a limit; without losses it is 100.
pub open spec fn rsi_under(opp: int, ned: int, grense: int) -> bool {
    if ned == 0 {
        10_000_000_000 < grense
    } else {
        10_000_000_000 * opp < grense * (opp + ned)
    }
}

/// Whether the relative strength is over a limit.
pub open spec fn rsi_over(opp: int, ned: int, grense: int) -> bool {
    if ned == 0 {
        10_000_000_000 > grense
    } else {
        10_000_000_000 * opp > grense * (opp + ned)
    }
}

/// Where the relative strength stands to two limits: whether it is under the
/// first, and whether it is over the second.
pub fn rsi_mot(opp: i128, ned: i128, lav: i64, hoy: i64) -> (r: (bool, bool))
    requires
        0 <= opp <= 0x1000_0000_0000_0000_0000_0000,
        0 <= ned <= 0x1000_0000_0000_0000_0000_0000,
    ensures
        r == (rsi_under(opp as int, ned as int, lav as int), rsi_over(opp as int, ned as int, hoy as int)),
{
    (under(opp, ned, lav), over(opp, ned, hoy))
}

fn under(opp: i128, ned: i128, grense: i64) -> (r: bool)
    requires
        0 <= opp <= 0x1000_0000_0000_0000_0000_0000,
        0 <= ned <= 0x1000_0000_0000_0000_0000_0000,
    ensures
        r == rsi_under(opp as int, ned as int, grense as int),
{
    if ned == 0 {
        10_000_000_000 < grense
    } else if grense <= 0 {
        assert(grense * (opp + ned) <= 0) by (nonlinear_arith)
            requires
                grense <= 0,
                opp + ned >= 0,
        ;
        false
    } else if grense > 10_000_000_000 {
        assert(10_000_000_000 * opp < grense * (opp + ned)) by (nonlinear_arith)
            requires
                grense > 10_000_000_000,
                opp >= 0,
                ned > 0,
        ;
        true
    } else {
        assert(0 <= grense * (opp + ned) <= 10_000_000_000 * (opp + ned)) by (nonlinear_arith)
            requires
                0 < grense <= 10_000_000_000,
                opp >= 0,
                ned > 0,
        ;
        10_000_000_000 * opp < grense as i128 * (opp + ned)
    }
}

fn over(opp: i128, ned: i128, grense: i64) -> (r: bool)
    requires
        0 <= opp <= 0x1000_0000_0000_0000_0000_0000,
        0 <= ned <= 0x1000_0000_0000_0000_0000_0000,
    ensures
        r == rsi_over(opp as int, ned as int, grense as int),
{
    if ned == 0 {
        10_000_000_000 > grense
    } else if grense < 0 {
        assert(grense * (opp + ned) < 0) by (nonlinear_arith)
            requires
                grense < 0,
                opp + ned > 0,
        ;
        true
    } else if grense > 10_000_000_000 {
        assert(10_000_000_000 * opp < grense * (opp + ned)) by (nonlinear_arith)
            requires
                grense > 10_000_000_000,
                opp >= 0,
                ned > 0,
        ;
        false
    } else {
        assert(0 <= grense * (opp + ned) <= 10_000_000_000 * (opp + ned)) by (nonlinear_arith)
            requires
                0 <= grense <= 10_000_000_000,
                opp >= 0,
                ned > 0,
        ;
        10_000_000_000 * opp > grense as i128 * (opp + ned)
    }
}

// ---------------------------------------------------------------------------
// Crossing moving averages
// ---------------------------------------------------------------------------

/// Whether the mean of the last `rask` prices is over that of the last
/// `treg`; none where there are too few.
pub open spec fn rask_over(v: Seq<i64>, rask: nat, treg: nat) -> Option<bool> {
    if v.len() < rask || v.len() < treg {
        None
    } else {
        Some(sum(siste(v, rask)) * treg > sum(siste(v, treg)) * rask)
    }
}

/// Whether the mean of the last `rask` prices is over that of the last `treg`.
pub fn er_over(v: &[i64], rask: usize, treg: usize) -> (r: Option<bool>)
    requires
        rask <= LENGSTE_VINDU,
        treg <= LENGSTE_VINDU,
    ensures
        r == rask_over(v@, rask as nat, treg as nat),
{
    let f: i128 = match sum_siste(v, rask) {
        Some(f) => f,
        None => return None,
    };
    let s: i128 = match sum_siste(v, treg) {
        Some(s) => s,
        None => return None,
    };
    proof {
        lemma_innen(f as int, treg as int);
        lemma_innen(s as int, rask as int);
    }
    Some(f * treg as i128 > s * rask as i128)
}

proof fn lemma_innen(s: int, n: int)
    requires
        -0x800_0000_0000_0000_0000_0000 <= s <= 0x800_0000_0000_0000_0000_0000,
        0 <= n <= LENGSTE_VINDU,
    ensures
        -0x80_0000_0000_0000_0000_0000_0000_0000 <= s * n <= 0x80_0000_0000_0000_0000_0000_0000_0000,
{
    assert(-0x80_0000_0000_0000_0000_0000_0000_0000 <= s * n <= 0x80_0000_0000_0000_0000_0000_0000_0000)
        by (nonlinear_arith)
        requires
            -0x800_0000_0000_0000_0000_0000 <= s <= 0x800_0000_0000_0000_0000_0000,
            0 <= n <= 0xfff_ffff,
    ;
}

/// What a strategy remembers of a symbol, and what it answers next.
#[verifier::ext_equal]
pub struct SmaSyn {
    pub vindu: Seq<i64>,
    /// Whether the fast mean was over the slow one when they were last known.
    pub over: Option<bool>,
}

pub open spec fn sma_steg(t: SmaSyn, pris: i64, rask: nat, treg: nat) -> (SmaSyn, Option<Side>) {
    let vindu = skjovet(t.vindu, pris, treg + 1);
    match rask_over(vindu, rask, treg) {
        None => (SmaSyn { vindu, over: t.over }, None),
        Some(over) => (
            SmaSyn { vindu, over: Some(over) },
            if t.over == Some(false) && over {
                Some(Side::Buy)
            } else if t.over == Some(true) && !over {
                Some(Side::Sell)
            } else {
                None
            },
        ),
    }
}

pub open spec fn sma_saadd(t: SmaSyn, priser: Seq<i64>, rask: nat, treg: nat) -> SmaSyn {
    let vindu = skjovet_alle(t.vindu, priser, treg + 1);
    SmaSyn {
        vindu,
        over: match rask_over(vindu, rask, treg) {
            Some(over) => Some(over),
            None => t.over,
        },
    }
}

#[derive(Debug)]
pub struct SmaTilstand {
    pub vindu: Vec<i64>,
    pub over: Option<bool>,
}

impl View for SmaTilstand {
    type V = SmaSyn;

    open spec fn view(&self) -> SmaSyn {
        SmaSyn { vindu: self.vindu@, over: self.over }
    }
}

/// Crossing moving averages: buy when the fast one rises over the slow one,
/// sell when it falls under it.
#[derive(Debug)]
pub struct SmaCross {
    pub fast: usize,
    pub slow: usize,
    pub rader: Tabell<SmaTilstand>,
}

impl SmaCross {
    pub open spec fn gyldig(&self) -> bool {
        self.fast <= LENGSTE_VINDU && self.slow < LENGSTE_VINDU && self.rader.ordnet()
    }

    /// What is remembered of a symbol.
    pub open spec fn om(&self, symbol: Seq<char>) -> SmaSyn {
        if self.rader@.dom().contains(symbol) {
            self.rader@[symbol]@
        } else {
            SmaSyn { vindu: Seq::empty(), over: None }
        }
    }

    pub fn new(cfg: &StrategyCfg) -> (r: SmaCross)
        requires
            cfg.fast <= LENGSTE_VINDU,
            cfg.slow < LENGSTE_VINDU,
        ensures
            r.gyldig(),
            r.fast == cfg.fast,
            r.slow == cfg.slow,
            forall|s: Seq<char>| #[trigger] r.om(s) == (SmaSyn { vindu: Seq::empty(), over: None }),
    {
        SmaCross { fast: cfg.fast, slow: cfg.slow, rader: Tabell::ny() }
    }

    pub fn name(&self) -> (r: &'static str)
        ensures
            r@ == "sma_cross"@,
    {
        "sma_cross"
    }

    fn ta(&mut self, symbol: &str) -> (r: SmaTilstand)
        requires
            old(self).gyldig(),
        ensures
            final(self).gyldig(),
            final(self).fast == old(self).fast,
            final(self).slow == old(self).slow,
            final(self).rader@ == old(self).rader@.remove(symbol@),
            r@ == old(self).om(symbol@),
    {
        match self.rader.ta(symbol) {
            Some(t) => t,
            None => {
                let t: SmaTilstand = SmaTilstand { vindu: Vec::new(), over: None };
                assert(t@ =~= old(self).om(symbol@));
                t
            },
        }
    }

    /// Fills the window with past closing prices, the oldest first.
    pub fn seed(&mut self, symbol: &str, closes: &[i64])
        requires
            old(self).gyldig(),
        ensures
            final(self).gyldig(),
            final(self).fast == old(self).fast,
            final(self).slow == old(self).slow,
            final(self).om(symbol@) == sma_saadd(
                old(self).om(symbol@),
                closes@,
                old(self).fast as nat,
                old(self).slow as nat,
            ),
            forall|s: Seq<char>| s != symbol@ ==> #[trigger] final(self).om(s) == old(self).om(s),
    {
        let ghost gammel = *self;
        let mut t: SmaTilstand = self.ta(symbol);
        let ghost for_ = t@;
        skyv_alle(&mut t.vindu, closes, self.slow + 1);
        if let Some(over) = er_over(t.vindu.as_slice(), self.fast, self.slow) {
            t.over = Some(over);
        }
        proof {
            assert(t@ =~= sma_saadd(for_, closes@, self.fast as nat, self.slow as nat));
        }
        self.rader.sett(symbol, t);
    }

    /// The signal that a new price gives.
    pub fn on_price(&mut self, symbol: &str, price: i64) -> (r: Option<Side>)
        requires
            old(self).gyldig(),
        ensures
            final(self).gyldig(),
            final(self).fast == old(self).fast,
            final(self).slow == old(self).slow,
            (final(self).om(symbol@), r) == sma_steg(
                old(self).om(symbol@),
                price,
                old(self).fast as nat,
                old(self).slow as nat,
            ),
            forall|s: Seq<char>| s != symbol@ ==> #[trigger] final(self).om(s) == old(self).om(s),
    {
        let mut t: SmaTilstand = self.ta(symbol);
        let ghost for_ = t@;
        skyv(&mut t.vindu, price, self.slow + 1);
        let var: Option<bool> = t.over;
        let r: Option<Side> = match er_over(t.vindu.as_slice(), self.fast, self.slow) {
            None => None,
            Some(over) => {
                t.over = Some(over);
                match var {
                    Some(false) => if over {
                        Some(Side::Buy)
                    } else {
                        None
                    },
                    Some(true) => if over {
                        None
                    } else {
                        Some(Side::Sell)
                    },
                    None => None,
                }
            },
        };
        proof {
            assert(t@ =~= sma_steg(for_, price, self.fast as nat, self.slow as nat).0);
        }
        self.rader.sett(symbol, t);
        r
    }
}

fn skyv_alle(v: &mut Vec<i64>, priser: &[i64], n: usize)
    ensures
        final(v)@ == skjovet_alle(old(v)@, priser@, n as nat),
{
    let ghost gammel = v@;
    let mut i: usize = 0;
    assert(priser@.take(0) =~= Seq::<i64>::empty());
    while i < priser.len()
        invariant
            i <= priser@.len(),
            v@ == skjovet_alle(gammel, priser@.take(i as int), n as nat),
        decreases priser.len() - i,
    {
        proof {
            assert(priser@.take(i + 1).drop_last() =~= priser@.take(i as int));
        }
        skyv(v, priser[i], n);
        i += 1;
    }
    assert(priser@.take(i as int) =~= priser@);
}

// ---------------------------------------------------------------------------
// Relative strength
// ---------------------------------------------------------------------------

#[verifier::ext_equal]
pub struct RsiSyn {
    pub vindu: Seq<i64>,
    /// Whether the strength, when it was last known, was under the limit for
    /// buying and over that for selling.
    pub sist: Option<(bool, bool)>,
}

/// Where the strength of a window stands to the two limits; none where the
/// window is too short.
pub open spec fn styrke(v: Seq<i64>, period: nat, lav: int, hoy: int) -> Option<(bool, bool)> {
    if v.len() < period + 1 {
        None
    } else {
        let w = siste(v, period + 1);
        Some(
            (
                rsi_under(oppgang(w) as int, nedgang(w) as int, lav),
                rsi_over(oppgang(w) as int, nedgang(w) as int, hoy),
            ),
        )
    }
}

pub open spec fn rsi_skjovet(t: RsiSyn, pris: i64, period: nat, lav: int, hoy: int) -> RsiSyn {
    let vindu = skjovet(t.vindu, pris, period + 1);
    RsiSyn {
        vindu,
        sist: match styrke(vindu, period, lav, hoy) {
            Some(s) => Some(s),
            None => t.sist,
        },
    }
}

pub open spec fn rsi_saadd(t: RsiSyn, priser: Seq<i64>, period: nat, lav: int, hoy: int) -> RsiSyn
    decreases priser.len(),
{
    if priser.len() == 0 {
        t
    } else {
        rsi_skjovet(rsi_saadd(t, priser.drop_last(), period, lav, hoy), priser.last(), period, lav, hoy)
    }
}

/// Buys when the strength falls under the lower limit, sells when it rises
/// over the upper one.
pub open spec fn rsi_signal(t: RsiSyn, pris: i64, period: nat, lav: int, hoy: int) -> Option<Side> {
    match (t.sist, styrke(skjovet(t.vindu, pris, period + 1), period, lav, hoy)) {
        (Some(var), Some(er)) => if !var.0 && er.0 {
            Some(Side::Buy)
        } else if !var.1 && er.1 {
            Some(Side::Sell)
        } else {
            None
        },
        _ => None,
    }
}

#[derive(Debug)]
pub struct RsiTilstand {
    pub vindu: Vec<i64>,
    pub sist: Option<(bool, bool)>,
}

impl View for RsiTilstand {
    type V = RsiSyn;

    open spec fn view(&self) -> RsiSyn {
        RsiSyn { vindu: self.vindu@, sist: self.sist }
    }
}

/// Relative strength: buy what has been sold too much, sell what has been
/// bought too much.
#[derive(Debug)]
pub struct Rsi {
    pub period: usize,
    pub buy_below: i64,
    pub sell_above: i64,
    pub rader: Tabell<RsiTilstand>,
}

fn skyv_rsi(t: &mut RsiTilstand, pris: i64, period: usize, lav: i64, hoy: i64) -> (r: Option<(bool, bool)>)
    requires
        period < LENGSTE_VINDU,
    ensures
        final(t)@ == rsi_skjovet(old(t)@, pris, period as nat, lav as int, hoy as int),
        r == styrke(final(t)@.vindu, period as nat, lav as int, hoy as int),
{
    let ghost for_ = t@;
    skyv(&mut t.vindu, pris, period + 1);
    let s: Option<(bool, bool)> = match opp_og_ned(t.vindu.as_slice(), period) {
        Some((opp, ned)) => Some(rsi_mot(opp, ned, lav, hoy)),
        None => None,
    };
    if s.is_some() {
        t.sist = s;
    }
    assert(t@ =~= rsi_skjovet(for_, pris, period as nat, lav as int, hoy as int));
    s
}

impl Rsi {
    pub open spec fn gyldig(&self) -> bool {
        self.period < LENGSTE_VINDU && self.rader.ordnet()
    }

    /// What is remembered of a symbol.
    pub open spec fn om(&self, symbol: Seq<char>) -> RsiSyn {
        if self.rader@.dom().contains(symbol) {
            self.rader@[symbol]@
        } else {
            RsiSyn { vindu: Seq::empty(), sist: None }
        }
    }

    pub open spec fn samme_oppsett(&self, b: Rsi) -> bool {
        self.period == b.period && self.buy_below == b.buy_below && self.sell_above == b.sell_above
    }

    pub fn new(cfg: &StrategyCfg) -> (r: Rsi)
        requires
            cfg.rsi_period < LENGSTE_VINDU,
        ensures
            r.gyldig(),
            r.period == cfg.rsi_period,
            r.buy_below == cfg.rsi_buy_below,
            r.sell_above == cfg.rsi_sell_above,
            forall|s: Seq<char>| #[trigger] r.om(s) == (RsiSyn { vindu: Seq::empty(), sist: None }),
    {
        Rsi {
            period: cfg.rsi_period,
            buy_below: cfg.rsi_buy_below,
            sell_above: cfg.rsi_sell_above,
            rader: Tabell::ny(),
        }
    }

    pub fn name(&self) -> (r: &'static str)
        ensures
            r@ == "rsi"@,
    {
        "rsi"
    }

    fn ta(&mut self, symbol: &str) -> (r: RsiTilstand)
        requires
            old(self).gyldig(),
        ensures
            final(self).gyldig(),
            final(self).samme_oppsett(*old(self)),
            final(self).rader@ == old(self).rader@.remove(symbol@),
            r@ == old(self).om(symbol@),
    {
        match self.rader.ta(symbol) {
            Some(t) => t,
            None => {
                let t: RsiTilstand = RsiTilstand { vindu: Vec::new(), sist: None };
                assert(t@ =~= old(self).om(symbol@));
                t
            },
        }
    }

    /// Fills the window with past closing prices, the oldest first.
    pub fn seed(&mut self, symbol: &str, closes: &[i64])
        requires
            old(self).gyldig(),
        ensures
            final(self).gyldig(),
            final(self).samme_oppsett(*old(self)),
            final(self).om(symbol@) == rsi_saadd(
                old(self).om(symbol@),
                closes@,
                old(self).period as nat,
                old(self).buy_below as int,
                old(self).sell_above as int,
            ),
            forall|s: Seq<char>| s != symbol@ ==> #[trigger] final(self).om(s) == old(self).om(s),
    {
        let mut t: RsiTilstand = self.ta(symbol);
        let ghost for_ = t@;
        let period: usize = self.period;
        let lav: i64 = self.buy_below;
        let hoy: i64 = self.sell_above;
        let mut i: usize = 0;
        assert(closes@.take(0) =~= Seq::<i64>::empty());
        while i < closes.len()
            invariant
                i <= closes@.len(),
                period < LENGSTE_VINDU,
                t@ == rsi_saadd(for_, closes@.take(i as int), period as nat, lav as int, hoy as int),
            decreases closes.len() - i,
        {
            proof {
                assert(closes@.take(i + 1).drop_last() =~= closes@.take(i as int));
            }
            skyv_rsi(&mut t, closes[i], period, lav, hoy);
            i += 1;
        }
        assert(closes@.take(i as int) =~= closes@);
        self.rader.sett(symbol, t);
    }

    /// The signal that a new price gives.
    pub fn on_price(&mut self, symbol: &str, price: i64) -> (r: Option<Side>)
        requires
            old(self).gyldig(),
        ensures
            final(self).gyldig(),
            final(self).samme_oppsett(*old(self)),
            final(self).om(symbol@) == rsi_skjovet(
                old(self).om(symbol@),
                price,
                old(self).period as nat,
                old(self).buy_below as int,
                old(self).sell_above as int,
            ),
            r == rsi_signal(
                old(self).om(symbol@),
                price,
                old(self).period as nat,
                old(self).buy_below as int,
                old(self).sell_above as int,
            ),
            forall|s: Seq<char>| s != symbol@ ==> #[trigger] final(self).om(s) == old(self).om(s),
    {
        let mut t: RsiTilstand = self.ta(symbol);
        let var: Option<(bool, bool)> = t.sist;
        let er: Option<(bool, bool)> = skyv_rsi(&mut t, price, self.period, self.buy_below, self.sell_above);
        self.rader.sett(symbol, t);
        match (var, er) {
            (Some(v), Some(e)) => if !v.0 && e.0 {
                Some(Side::Buy)
            } else if !v.1 && e.1 {
                Some(Side::Sell)
            } else {
                None
            },
            _ => None,
        }
    }
}

// ---------------------------------------------------------------------------
// Momentum
// ---------------------------------------------------------------------------

/// Buys above every price of a full window, sells below every one.
pub open spec fn brudd_signal(v: Seq<i64>, pris: i64, n: nat) -> Option<Side> {
    if v.len() < n {
        None
    } else if forall|i: int| 0 <= i < v.len() ==> pris > #[trigger] v[i] {
        Some(Side::Buy)
    } else if forall|i: int| 0 <= i < v.len() ==> pris < #[trigger] v[i] {
        Some(Side::Sell)
    } else {
        None
    }
}

/// Breakouts: buy when the price passes the highest of the window, sell when
/// it passes the lowest.
#[derive(Debug)]
pub struct Momentum {
    pub window: usize,
    pub rader: Tabell<Vec<i64>>,
}

fn brudd(v: &[i64], pris: i64, n: usize) -> (r: Option<Side>)
    ensures
        r == brudd_signal(v@, pris, n as nat),
{
    if v.len() < n {
        return None;
    }
    let mut hoyest: bool = true;
    let mut lavest: bool = true;
    let mut i: usize = 0;
    while i < v.len()
        invariant
            i <= v@.len(),
            hoyest == (forall|k: int| 0 <= k < i ==> pris > #[trigger] v@[k]),
            lavest == (forall|k: int| 0 <= k < i ==> pris < #[trigger] v@[k]),
        decreases v.len() - i,
    {
        if pris <= v[i] {
            hoyest = false;
        }
        if pris >= v[i] {
            lavest = false;
        }
        i += 1;
    }
    if hoyest {
        Some(Side::Buy)
    } else if lavest {
        Some(Side::Sell)
    } else {
        None
    }
}

impl Momentum {
    pub open spec fn gyldig(&self) -> bool {
        self.rader.ordnet()
    }

    /// The window of a symbol.
    pub open spec fn om(&self, symbol: Seq<char>) -> Seq<i64> {
        if self.rader@.dom().contains(symbol) {
            self.rader@[symbol]@
        } else {
            Seq::empty()
        }
    }

    pub fn new(cfg: &StrategyCfg) -> (r: Momentum)
        ensures
            r.gyldig(),
            r.window == cfg.momentum_window,
            forall|s: Seq<char>| #[trigger] r.om(s) == Seq::<i64>::empty(),
    {
        Momentum { window: cfg.momentum_window, rader: Tabell::ny() }
    }

    pub fn name(&self) -> (r: &'static str)
        ensures
            r@ == "momentum"@,
    {
        "momentum"
    }

    fn ta(&mut self, symbol: &str) -> (r: Vec<i64>)
        requires
            old(self).gyldig(),
        ensures
            final(self).gyldig(),
            final(self).window == old(self).window,
            final(self).rader@ == old(self).rader@.remove(symbol@),
            r@ == old(self).om(symbol@),
    {
        match self.rader.ta(symbol) {
            Some(t) => t,
            None => Vec::new(),
        }
    }

    /// Fills the window with past closing prices, the oldest first.
    pub fn seed(&mut self, symbol: &str, closes: &[i64])
        requires
            old(self).gyldig(),
        ensures
            final(self).gyldig(),
            final(self).window == old(self).window,
            final(self).om(symbol@) == skjovet_alle(old(self).om(symbol@), closes@, old(self).window as nat),
            forall|s: Seq<char>| s != symbol@ ==> #[trigger] final(self).om(s) == old(self).om(s),
    {
        let mut v: Vec<i64> = self.ta(symbol);
        skyv_alle(&mut v, closes, self.window);
        self.rader.sett(symbol, v);
    }

    /// The signal that a new price gives.
    pub fn on_price(&mut self, symbol: &str, price: i64) -> (r: Option<Side>)
        requires
            old(self).gyldig(),
        ensures
            final(self).gyldig(),
            final(self).window == old(self).window,
            r == brudd_signal(old(self).om(symbol@), price, old(self).window as nat),
            final(self).om(symbol@) == skjovet(old(self).om(symbol@), price, old(self).window as nat),
            forall|s: Seq<char>| s != symbol@ ==> #[trigger] final(self).om(s) == old(self).om(s),
    {
        let mut v: Vec<i64> = self.ta(symbol);
        let r: Option<Side> = brudd(v.as_slice(), price, self.window);
        skyv(&mut v, price, self.window);
        self.rader.sett(symbol, v);
        r
    }
}

// ---------------------------------------------------------------------------
// The strategies to choose from
// ---------------------------------------------------------------------------

/// The names that can be chosen.
pub const AVAILABLE: [&'static str; 3] = ["sma_cross", "rsi", "momentum"];

/// One of the strategies.
#[derive(Debug)]
pub enum Strategy {
    SmaCross(SmaCross),
    Rsi(Rsi),
    Momentum(Momentum),
}

/// What a strategy remembers of a symbol.
#[verifier::ext_equal]
pub enum Minne {
    Sma(SmaSyn),
    Rsi(RsiSyn),
    Momentum(Seq<i64>),
}

/// Where a strategy stands on a symbol, in words; none before it has formed a
/// view.
pub open spec fn staasted(m: Minne) -> Option<Seq<char>> {
    match m {
        Minne::Sma(t) => match t.over {
            Some(true) => Some("raskt snitt over tregt"@),
            Some(false) => Some("raskt snitt under tregt"@),
            None => None,
        },
        Minne::Rsi(t) => match t.sist {
            Some((true, _)) => Some("oversolgt"@),
            Some((false, true)) => Some("overkjøpt"@),
            Some((false, false)) => Some("nøytral"@),
            None => None,
        },
        Minne::Momentum(v) => if v.len() > 0 {
            Some(number_text::decimal(v.len()) + " kurser i vinduet"@)
        } else {
            None
        },
    }
}

/// What a strategy goes by.
pub enum Oppsett {
    Sma { fast: nat, slow: nat },
    Rsi { period: nat, lav: int, hoy: int },
    Momentum { window: nat },
}

impl Oppsett {
    /// What is remembered before the first price.
    pub open spec fn blankt(self) -> Minne {
        match self {
            Oppsett::Sma { .. } => Minne::Sma(SmaSyn { vindu: Seq::empty(), over: None }),
            Oppsett::Rsi { .. } => Minne::Rsi(RsiSyn { vindu: Seq::empty(), sist: None }),
            Oppsett::Momentum { .. } => Minne::Momentum(Seq::empty()),
        }
    }

    /// What is remembered after a price, and the signal that it gives.
    pub open spec fn steg(self, m: Minne, pris: i64) -> (Minne, Option<Side>) {
        match (self, m) {
            (Oppsett::Sma { fast, slow }, Minne::Sma(t)) => {
                let (n, s) = sma_steg(t, pris, fast, slow);
                (Minne::Sma(n), s)
            },
            (Oppsett::Rsi { period, lav, hoy }, Minne::Rsi(t)) => (
                Minne::Rsi(rsi_skjovet(t, pris, period, lav, hoy)),
                rsi_signal(t, pris, period, lav, hoy),
            ),
            (Oppsett::Momentum { window }, Minne::Momentum(v)) => (
                Minne::Momentum(skjovet(v, pris, window)),
                brudd_signal(v, pris, window),
            ),
            _ => (m, None),
        }
    }

    /// What is remembered after past closing prices.
    pub open spec fn saadd(self, m: Minne, priser: Seq<i64>) -> Minne {
        match (self, m) {
            (Oppsett::Sma { fast, slow }, Minne::Sma(t)) => Minne::Sma(sma_saadd(t, priser, fast, slow)),
            (Oppsett::Rsi { period, lav, hoy }, Minne::Rsi(t)) => Minne::Rsi(
                rsi_saadd(t, priser, period, lav, hoy),
            ),
            (Oppsett::Momentum { window }, Minne::Momentum(v)) => Minne::Momentum(
                skjovet_alle(v, priser, window),
            ),
            _ => m,
        }
    }
}

/// The parameters of the strategy with a name; none for an unknown name.
pub open spec fn oppsett_av(navn: Seq<char>, cfg: &StrategyCfg) -> Option<Oppsett> {
    if navn == "sma_cross"@ {
        Some(Oppsett::Sma { fast: cfg.fast as nat, slow: cfg.slow as nat })
    } else if navn == "rsi"@ {
        Some(
            Oppsett::Rsi {
                period: cfg.rsi_period as nat,
                lav: cfg.rsi_buy_below as int,
                hoy: cfg.rsi_sell_above as int,
            },
        )
    } else if navn == "momentum"@ {
        Some(Oppsett::Momentum { window: cfg.momentum_window as nat })
    } else {
        None
    }
}

impl StrategyCfg {
    /// Whether the windows can be held.
    pub open spec fn holdbar(&self) -> bool {
        self.fast <= LENGSTE_VINDU && self.slow < LENGSTE_VINDU && self.rsi_period < LENGSTE_VINDU
    }
}

impl Strategy {
    pub open spec fn gyldig(&self) -> bool {
        match self {
            Strategy::SmaCross(s) => s.gyldig(),
            Strategy::Rsi(s) => s.gyldig(),
            Strategy::Momentum(s) => s.gyldig(),
        }
    }

    pub open spec fn oppsett(&self) -> Oppsett {
        match self {
            Strategy::SmaCross(s) => Oppsett::Sma { fast: s.fast as nat, slow: s.slow as nat },
            Strategy::Rsi(s) => Oppsett::Rsi {
                period: s.period as nat,
                lav: s.buy_below as int,
                hoy: s.sell_above as int,
            },
            Strategy::Momentum(s) => Oppsett::Momentum { window: s.window as nat },
        }
    }

    /// What is remembered of a symbol.
    pub open spec fn om(&self, symbol: Seq<char>) -> Minne {
        match self {
            Strategy::SmaCross(s) => Minne::Sma(s.om(symbol)),
            Strategy::Rsi(s) => Minne::Rsi(s.om(symbol)),
            Strategy::Momentum(s) => Minne::Momentum(s.om(symbol)),
        }
    }

    pub fn name(&self) -> (r: &'static str)
        ensures
            r@ == (match self {
                Strategy::SmaCross(_) => "sma_cross"@,
                Strategy::Rsi(_) => "rsi"@,
                Strategy::Momentum(_) => "momentum"@,
            }),
    {
        match self {
            Strategy::SmaCross(s) => s.name(),
            Strategy::Rsi(s) => s.name(),
            Strategy::Momentum(s) => s.name(),
        }
    }

    /// Where it stands on a symbol, in words.
    pub fn status(&self, symbol: &str) -> (r: Option<String>)
        requires
            self.gyldig(),
        ensures
            (match staasted(self.om(symbol@)) {
                Some(t) => r is Some && r->0@ == t,
                None => r is None,
            }),
    {
        match self {
            Strategy::SmaCross(s) => match s.rader.hent(symbol) {
                Some(t) => match t.over {
                    Some(true) => Some("raskt snitt over tregt".to_owned()),
                    Some(false) => Some("raskt snitt under tregt".to_owned()),
                    None => None,
                },
                None => None,
            },
            Strategy::Rsi(s) => match s.rader.hent(symbol) {
                Some(t) => match t.sist {
                    Some((true, _)) => Some("oversolgt".to_owned()),
                    Some((false, true)) => Some("overkjøpt".to_owned()),
                    Some((false, false)) => Some("nøytral".to_owned()),
                    None => None,
                },
                None => None,
            },
            Strategy::Momentum(s) => match s.rader.hent(symbol) {
                Some(v) => if v.len() > 0 {
                    let n: String = number_text::decimal_text(v.len() as u128);
                    Some(two(n.as_str(), " kurser i vinduet"))
                } else {
                    None
                },
                None => None,
            },
        }
    }

    /// Fills the memory with past closing prices, the oldest first.
    pub fn seed(&mut self, symbol: &str, closes: &[i64])
        requires
            old(self).gyldig(),
        ensures
            final(self).gyldig(),
            final(self).oppsett() == old(self).oppsett(),
            final(self).om(symbol@) == old(self).oppsett().saadd(old(self).om(symbol@), closes@),
            forall|s: Seq<char>| s != symbol@ ==> #[trigger] final(self).om(s) == old(self).om(s),
    {
        match self {
            Strategy::SmaCross(s) => s.seed(symbol, closes),
            Strategy::Rsi(s) => s.seed(symbol, closes),
            Strategy::Momentum(s) => s.seed(symbol, closes),
        }
    }

    /// The signal that a new price gives.
    pub fn on_price(&mut self, symbol: &str, price: i64) -> (r: Option<Side>)
        requires
            old(self).gyldig(),
        ensures
            final(self).gyldig(),
            final(self).oppsett() == old(self).oppsett(),
            (final(self).om(symbol@), r) == old(self).oppsett().steg(old(self).om(symbol@), price),
            forall|s: Seq<char>| s != symbol@ ==> #[trigger] final(self).om(s) == old(self).om(s),
    {
        match self {
            Strategy::SmaCross(s) => s.on_price(symbol, price),
            Strategy::Rsi(s) => s.on_price(symbol, price),
            Strategy::Momentum(s) => s.on_price(symbol, price),
        }
    }
}

/// The strategy with a name, with the parameters of the settings.
pub fn build_named(navn: &str, cfg: &StrategyCfg) -> (r: Result<Strategy, String>)
    requires
        cfg.holdbar(),
    ensures
        (match oppsett_av(navn@, cfg) {
            Some(o) => r is Ok && r->Ok_0.gyldig() && r->Ok_0.oppsett() == o && (forall|s: Seq<char>| #[trigger]
                r->Ok_0.om(s) == o.blankt()),
            None => r is Err && r->Err_0@ == "ukjent strategi: "@ + navn@,
        }),
{
    if same(navn, "sma_cross") {
        Ok(Strategy::SmaCross(SmaCross::new(cfg)))
    } else if same(navn, "rsi") {
        Ok(Strategy::Rsi(Rsi::new(cfg)))
    } else if same(navn, "momentum") {
        Ok(Strategy::Momentum(Momentum::new(cfg)))
    } else {
        let mut ut: Vec<char> = Vec::new();
        push_text(&mut ut, "ukjent strategi: ");
        push_text(&mut ut, navn);
        assert(ut@ =~= "ukjent strategi: "@ + navn@);
        Err(string_of(ut.as_slice()))
    }
}

/// The strategy of the settings.
pub fn build(cfg: &StrategyCfg) -> (r: Result<Strategy, String>)
    requires
        cfg.holdbar(),
    ensures
        (match oppsett_av(cfg.name@, cfg) {
            Some(o) => r is Ok && r->Ok_0.gyldig() && r->Ok_0.oppsett() == o && (forall|s: Seq<char>| #[trigger]
                r->Ok_0.om(s) == o.blankt()),
            None => r is Err && r->Err_0@ == "ukjent strategi: "@ + cfg.name@,
        }),
{
    build_named(cfg.name.as_str(), cfg)
}

/// Crossing averages never give the same signal twice in a row: after a
/// purchase the next signal is a sale, and after a sale a purchase.
pub proof fn law_sma_signaler_veksler(t: SmaSyn, priser: Seq<i64>, i: int, j: int, rask: nat, treg: nat)
    requires
        0 <= i < j < priser.len(),
        sma_signal_ved(t, priser, i, rask, treg) is Some,
        sma_signal_ved(t, priser, j, rask, treg) is Some,
        forall|k: int| i < k < j ==> #[trigger] sma_signal_ved(t, priser, k, rask, treg) is None,
    ensures
        sma_signal_ved(t, priser, i, rask, treg) != sma_signal_ved(t, priser, j, rask, treg),
{
    let over = sma_etter(t, priser, i + 1, rask, treg).over;
    assert(over == Some(sma_signal_ved(t, priser, i, rask, treg) == Some(Side::Buy)));
    lemma_over_uendret(t, priser, i + 1, j, rask, treg);
}

/// What is remembered after the first `n` prices.
pub open spec fn sma_etter(t: SmaSyn, priser: Seq<i64>, n: int, rask: nat, treg: nat) -> SmaSyn
    decreases n,
{
    if n <= 0 {
        t
    } else {
        sma_steg(sma_etter(t, priser, n - 1, rask, treg), priser[n - 1], rask, treg).0
    }
}

/// The signal that price number `n` gives.
pub open spec fn sma_signal_ved(t: SmaSyn, priser: Seq<i64>, n: int, rask: nat, treg: nat) -> Option<Side> {
    sma_steg(sma_etter(t, priser, n, rask, treg), priser[n], rask, treg).1
}

proof fn lemma_over_uendret(t: SmaSyn, priser: Seq<i64>, a: int, b: int, rask: nat, treg: nat)
    requires
        0 <= a <= b < priser.len(),
        sma_etter(t, priser, a, rask, treg).over is Some,
        forall|k: int| a <= k < b ==> #[trigger] sma_signal_ved(t, priser, k, rask, treg) is None,
    ensures
        sma_etter(t, priser, b, rask, treg).over == sma_etter(t, priser, a, rask, treg).over,
    decreases b - a,
{
    if a < b {
        lemma_over_uendret(t, priser, a, b - 1, rask, treg);
        assert(sma_signal_ved(t, priser, b - 1, rask, treg) is None);
    }
}

/// A window never holds more than its length once it is within it, and it
/// always ends with the newest price.
pub proof fn law_vindu(v: Seq<i64>, pris: i64, n: nat)
    requires
        v.len() <= n,
    ensures
        skjovet(v, pris, n).len() <= n,
        n > 0 ==> skjovet(v, pris, n).last() == pris,
{
}

// ---------------------------------------------------------------------------
// What the signals mean, over a whole history of prices
// ---------------------------------------------------------------------------

/// The newest `n` prices of a history; all of it where it is shorter.
pub open spec fn nyeste(priser: Seq<i64>, n: nat) -> Seq<i64> {
    if priser.len() <= n {
        priser
    } else {
        priser.skip(priser.len() - n)
    }
}

/// A window that prices are put behind, one after the other, holds the newest.
pub proof fn law_vinduet_er_de_nyeste(priser: Seq<i64>, n: nat)
    ensures
        skjovet_alle(Seq::empty(), priser, n) == nyeste(priser, n),
    decreases priser.len(),
{
    if priser.len() > 0 {
        law_vinduet_er_de_nyeste(priser.drop_last(), n);
    }
    assert(skjovet_alle(Seq::empty(), priser, n) =~= nyeste(priser, n));
}

/// A sum is the prices added up, each once.
pub proof fn law_sum(s: Seq<i64>)
    ensures
        sum(s) == s.fold_left(0int, |a: int, p: i64| a + p),
    decreases s.len(),
{
    if s.len() > 0 {
        law_sum(s.drop_last());
    }
}

/// Gains and losses are counted step by step: a single step that rises is a gain of
/// the difference and no loss, one that falls is the opposite, and a row of prices
/// gains and loses what its parts do. So gains less losses are the way from the
/// first price to the last.
pub proof fn law_opp_og_ned(s: Seq<i64>, k: int, a: i64, b: i64)
    requires
        0 <= k < s.len(),
    ensures
        a <= b ==> oppgang(seq![a, b]) == b - a && nedgang(seq![a, b]) == 0,
        a >= b ==> nedgang(seq![a, b]) == a - b && oppgang(seq![a, b]) == 0,
        oppgang(s) == oppgang(s.take(k + 1)) + oppgang(s.skip(k)),
        nedgang(s) == nedgang(s.take(k + 1)) + nedgang(s.skip(k)),
        oppgang(s) - nedgang(s) == s.last() - s[0],
    decreases s.len(),
{
    reveal_with_fuel(oppgang, 2);
    reveal_with_fuel(nedgang, 2);
    assert(seq![a, b].drop_last() =~= seq![a]);
    if k == s.len() - 1 {
        assert(s.take(k + 1) =~= s);
        if s.len() > 1 {
            let d = s.drop_last();
            law_opp_og_ned(d, d.len() - 1, a, b);
            assert(d[0] == s[0]);
        }
    } else {
        let d = s.drop_last();
        law_opp_og_ned(d, k, a, b);
        assert(d.take(k + 1) =~= s.take(k + 1));
        assert(s.skip(k).drop_last() =~= d.skip(k));
        assert(s.skip(k).last() == s.last());
        assert(s.skip(k)[s.skip(k).len() - 2] == s[s.len() - 2]);
        assert(d[0] == s[0]);
    }
}

/// The relative strength of a row of prices as a fraction of the whole: gains over
/// gains and losses, and the whole where nothing was lost.
pub open spec fn styrkebrok(w: Seq<i64>) -> (int, int) {
    if nedgang(w) == 0 {
        (1, 1)
    } else {
        (oppgang(w) as int, (oppgang(w) + nedgang(w)) as int)
    }
}

proof fn lemma_rsi_saadd(priser: Seq<i64>, period: nat, lav: int, hoy: int)
    ensures
        ({
            let t = rsi_saadd(RsiSyn { vindu: Seq::empty(), sist: None }, priser, period, lav, hoy);
            &&& t.vindu == nyeste(priser, period + 1)
            &&& t.sist == styrke(nyeste(priser, period + 1), period, lav, hoy)
        }),
    decreases priser.len(),
{
    let t = rsi_saadd(RsiSyn { vindu: Seq::empty(), sist: None }, priser, period, lav, hoy);
    if priser.len() > 0 {
        lemma_rsi_saadd(priser.drop_last(), period, lav, hoy);
    }
    assert(t.vindu =~= nyeste(priser, period + 1));
}

/// Relative strength, after any history: a sale is signalled exactly when the
/// strength was known and not over the upper limit before the price, and is over it
/// now, unless it fell under the lower limit with the same price; a purchase exactly
/// when it was known and not under the lower limit, and is under it now.
pub proof fn law_rsi_signal(priser: Seq<i64>, pris: i64, period: nat, lav: int, hoy: int)
    ensures
        ({
            let o = Oppsett::Rsi { period, lav, hoy };
            let signal = o.steg(o.saadd(o.blankt(), priser), pris).1;
            let n = priser.len();
            let (a, b) = styrkebrok(priser.skip(n - period - 1));
            let (c, d) = styrkebrok(priser.push(pris).skip(n - period));
            let var_over = 10_000_000_000 * a > hoy * b;
            let er_over = 10_000_000_000 * c > hoy * d;
            let var_under = 10_000_000_000 * a < lav * b;
            let er_under = 10_000_000_000 * c < lav * d;
            &&& n <= period ==> signal is None
            &&& n > period ==> (signal == Some(Side::Sell) <==> !var_over && er_over && (var_under || !er_under))
            &&& n > period ==> (signal == Some(Side::Buy) <==> !var_under && er_under)
        }),
{
    lemma_rsi_saadd(priser, period, lav, hoy);
    let n = priser.len();
    let v = nyeste(priser, period + 1);
    let alle = priser.push(pris);
    if n > period {
        assert(v =~= priser.skip(n - period - 1));
        assert(siste(v, period + 1) =~= v);
        let w = skjovet(v, pris, period + 1);
        assert(w =~= alle.skip(n - period));
        assert(siste(w, period + 1) =~= w);
        lemma_styrkebrok(v, lav);
        lemma_styrkebrok(v, hoy);
        lemma_styrkebrok(w, lav);
        lemma_styrkebrok(w, hoy);
    }
}

proof fn lemma_styrkebrok(w: Seq<i64>, grense: int)
    ensures
        ({
            let (a, b) = styrkebrok(w);
            &&& rsi_under(oppgang(w) as int, nedgang(w) as int, grense) == (10_000_000_000 * a < grense * b)
            &&& rsi_over(oppgang(w) as int, nedgang(w) as int, grense) == (10_000_000_000 * a > grense * b)
        }),
{
    assert(grense * 1 == grense);
}

/// What a price is remembered as does not depend on whether it was seeded or came
/// as a new one.
pub proof fn law_saadd_er_steg(o: Oppsett, priser: Seq<i64>, pris: i64)
    ensures
        o.steg(o.saadd(o.blankt(), priser), pris).0 == o.saadd(o.blankt(), priser.push(pris)),
{
    let alle = priser.push(pris);
    assert(alle.drop_last() =~= priser);
    match o {
        Oppsett::Sma { fast, slow } => {
            lemma_sma_saadd(priser, fast, slow);
            lemma_sma_saadd(alle, fast, slow);
            law_vinduet_er_de_nyeste(priser, slow + 1);
            law_vinduet_er_de_nyeste(alle, slow + 1);
        },
        Oppsett::Rsi { period, lav, hoy } => {},
        Oppsett::Momentum { window } => {},
    }
}

proof fn lemma_sma_saadd(priser: Seq<i64>, rask: nat, treg: nat)
    ensures
        ({
            let t = sma_saadd(SmaSyn { vindu: Seq::empty(), over: None }, priser, rask, treg);
            &&& t.vindu == nyeste(priser, treg + 1)
            &&& t.over == rask_over(nyeste(priser, treg + 1), rask, treg)
        }),
{
    law_vinduet_er_de_nyeste(priser, treg + 1);
}

/// What the newest `n` prices of a history add up to.
pub open spec fn sum_nyeste(priser: Seq<i64>, n: nat) -> int {
    nyeste(priser, n).fold_left(0int, |a: int, p: i64| a + p)
}

/// Crossing averages, after any history: a purchase is signalled exactly when both
/// means were known, the fast one was not over the slow one before the price, and is
/// over it now; a sale exactly when it was over it and no longer is.
pub proof fn law_sma_signal(priser: Seq<i64>, pris: i64, rask: nat, treg: nat)
    requires
        rask <= treg + 1,
    ensures
        ({
            let o = Oppsett::Sma { fast: rask, slow: treg };
            let signal = o.steg(o.saadd(o.blankt(), priser), pris).1;
            let alle = priser.push(pris);
            let kjent = priser.len() >= rask && priser.len() >= treg;
            let var_over = sum_nyeste(priser, rask) * treg > sum_nyeste(priser, treg) * rask;
            let er_over = sum_nyeste(alle, rask) * treg > sum_nyeste(alle, treg) * rask;
            &&& signal == Some(Side::Buy) <==> kjent && !var_over && er_over
            &&& signal == Some(Side::Sell) <==> kjent && var_over && !er_over
        }),
{
    let alle = priser.push(pris);
    lemma_sma_saadd(priser, rask, treg);
    let v = nyeste(priser, treg + 1);
    let w = skjovet(v, pris, treg + 1);
    assert(w =~= nyeste(alle, treg + 1));
    lemma_nyeste_sum(priser, rask, treg);
    lemma_nyeste_sum(alle, rask, treg);
}

proof fn lemma_nyeste_sum(priser: Seq<i64>, rask: nat, treg: nat)
    requires
        rask <= treg + 1,
    ensures
        rask_over(nyeste(priser, treg + 1), rask, treg) == (if priser.len() >= rask && priser.len() >= treg {
            Some(sum_nyeste(priser, rask) * treg > sum_nyeste(priser, treg) * rask)
        } else {
            None
        }),
{
    let v = nyeste(priser, treg + 1);
    if priser.len() >= rask && priser.len() >= treg {
        assert(siste(v, rask) =~= nyeste(priser, rask));
        assert(siste(v, treg) =~= nyeste(priser, treg));
        law_sum(nyeste(priser, rask));
        law_sum(nyeste(priser, treg));
    }
}

/// Breakouts, after any history: a purchase is signalled exactly when the price is
/// above each of the newest prices before it, as many as the window is long, and a
/// sale exactly when it is below each of them.
pub proof fn law_momentum_signal(priser: Seq<i64>, pris: i64, window: nat)
    requires
        window > 0,
    ensures
        ({
            let o = Oppsett::Momentum { window };
            let signal = o.steg(o.saadd(o.blankt(), priser), pris).1;
            let n = priser.len();
            &&& signal == Some(Side::Buy) <==> n >= window && (forall|i: int|
                n - window <= i < n ==> #[trigger] priser[i] < pris)
            &&& signal == Some(Side::Sell) <==> n >= window && (forall|i: int|
                n - window <= i < n ==> #[trigger] priser[i] > pris)
        }),
{
    law_vinduet_er_de_nyeste(priser, window);
    let n = priser.len();
    let v = nyeste(priser, window);
    if n >= window {
        lemma_nyeste_alle(priser, window, pris);
        assert(!(v[0] < pris && v[0] > pris));
    }
}

proof fn lemma_nyeste_alle(priser: Seq<i64>, n: nat, pris: i64)
    requires
        n <= priser.len(),
    ensures
        nyeste(priser, n).len() == n,
        (forall|i: int| 0 <= i < n ==> pris > #[trigger] nyeste(priser, n)[i]) <==> (forall|i: int|
            priser.len() - n <= i < priser.len() ==> #[trigger] priser[i] < pris),
        (forall|i: int| 0 <= i < n ==> pris < #[trigger] nyeste(priser, n)[i]) <==> (forall|i: int|
            priser.len() - n <= i < priser.len() ==> #[trigger] priser[i] > pris),
{
    let v = nyeste(priser, n);
    let m = priser.len();
    assert(v =~= priser.subrange(m - n, m as int));
    if forall|i: int| m - n <= i < m ==> #[trigger] priser[i] < pris {
        assert forall|i: int| 0 <= i < n implies pris > #[trigger] v[i] by {
            assert(priser[m - n + i] < pris);
        }
    }
    if forall|i: int| m - n <= i < m ==> #[trigger] priser[i] > pris {
        assert forall|i: int| 0 <= i < n implies pris < #[trigger] v[i] by {
            assert(priser[m - n + i] > pris);
        }
    }
    if forall|i: int| 0 <= i < n ==> pris > #[trigger] v[i] {
        assert forall|i: int| m - n <= i < m implies #[trigger] priser[i] < pris by {
            assert(pris > v[i - (m - n)]);
        }
    }
    if forall|i: int| 0 <= i < n ==> pris < #[trigger] v[i] {
        assert forall|i: int| m - n <= i < m implies #[trigger] priser[i] > pris by {
            assert(pris < v[i - (m - n)]);
        }
    }
}

/// The settings that a strategy goes by are those that bear its name.
pub proof fn law_oppsettet_er_innstillingene(cfg: &StrategyCfg)
    ensures
        oppsett_av("sma_cross"@, cfg) == Some(Oppsett::Sma { fast: cfg.fast as nat, slow: cfg.slow as nat }),
        oppsett_av("rsi"@, cfg) matches Some(Oppsett::Rsi { period, lav, hoy }) && period == cfg.rsi_period && lav
            == cfg.rsi_buy_below && hoy == cfg.rsi_sell_above,
        oppsett_av("momentum"@, cfg) == Some(Oppsett::Momentum { window: cfg.momentum_window as nat }),
{
    reveal_strlit("sma_cross");
    reveal_strlit("rsi");
    reveal_strlit("momentum");
    assert("sma_cross"@.len() == 9);
    assert("rsi"@.len() == 3);
    assert("momentum"@.len() == 8);
}

/// A memory that nothing was seeded into answers the first price as a blank one
/// does.
pub proof fn law_ingenting_saadd(o: Oppsett, pris: i64)
    ensures
        o.steg(o.saadd(o.blankt(), Seq::empty()), pris) == o.steg(o.blankt(), pris),
{
    if let Oppsett::Sma { fast, slow } = o {
        let tom = Seq::<i64>::empty();
        let v = skjovet(tom, pris, slow + 1);
        if fast == 0 && slow == 0 {
            assert(siste(v, 0) =~= tom);
            assert(siste(tom, 0) =~= tom);
        }
        assert(o.steg(o.saadd(o.blankt(), tom), pris).0->Sma_0 =~= o.steg(o.blankt(), pris).0->Sma_0);
    }
}

}
