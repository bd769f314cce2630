//! The rules that every order must pass, and the sales that protect a position.
use vstd::prelude::*;

use crate::belop;
use crate::config::RiskCfg;
use crate::number_text;
use crate::text::{push_all, push_text, string_of};
use crate::types;

verus! {

/// The outcome of a check: cleared, or blocked with the reason.
#[derive(Debug)]
pub enum RiskVerdict {
    Cleared,
    Blocked(String),
}

// ---------------------------------------------------------------------------
// Exits per position
// ---------------------------------------------------------------------------

/// The reason with the percentage behind it.
pub open spec fn exit_tekst(grunn: Seq<char>, pct: int) -> Seq<char> {
    grunn + " ("@ + belop::med_fortegn(pct, 1) + " %)"@
}

/// Whether `last` is at least `pct` per cent below `fra`.
pub open spec fn falt(fra: int, last: int, pct: int) -> bool {
    (fra - last) * 10_000_000_000 >= pct * fra
}

/// Whether `last` is at least `pct` per cent above `fra`.
pub open spec fn steg(fra: int, last: int, pct: int) -> bool {
    (last - fra) * 10_000_000_000 >= pct * fra
}

/// The reason to sell a position bought at `avg`: it has fallen to the
/// stop-loss or risen to the take-profit. A limit of 0 is switched off, and a
/// price that is not known never sells.
pub open spec fn vern(avg: int, last: int, stop: int, profit: int) -> Option<Seq<char>> {
    if avg <= 0 || last <= 0 {
        None
    } else if stop > 0 && falt(avg, last, stop) {
        Some(exit_tekst("Stop-loss"@, types::endring_pct(last, avg)))
    } else if profit > 0 && steg(avg, last, profit) {
        Some(exit_tekst("Take-profit"@, types::endring_pct(last, avg)))
    } else {
        None
    }
}

fn skriv_exit(grunn: &str, pct: i128) -> (r: String)
    ensures
        r@ == exit_tekst(grunn@, pct as int),
{
    let mut ut: Vec<char> = Vec::new();
    push_text(&mut ut, grunn);
    push_text(&mut ut, " (");
    let p: Vec<char> = belop::skriv_med_fortegn(pct, 1);
    push_all(&mut ut, p.as_slice());
    push_text(&mut ut, " %)");
    assert(ut@ =~= exit_tekst(grunn@, pct as int));
    string_of(ut.as_slice())
}

/// Whether a position should be sold to protect it, and why. These sales pass
/// by the order rules: they reduce the risk and must never be blocked.
pub fn protective_exit(avg_price: i64, last: i64, stop_loss_pct: i64, take_profit_pct: i64) -> (r: Option<String>)
    ensures
        r is Some == vern(avg_price as int, last as int, stop_loss_pct as int, take_profit_pct as int) is Some,
        r matches Some(t) ==> vern(avg_price as int, last as int, stop_loss_pct as int, take_profit_pct as int)
            == Some(t@),
{
    if avg_price <= 0 || last <= 0 {
        return None;
    }
    proof {
        types::lemma_produkt(stop_loss_pct as int, avg_price as int);
        types::lemma_produkt(take_profit_pct as int, avg_price as int);
    }
    if stop_loss_pct > 0 && (avg_price as i128 - last as i128) * 10_000_000_000 >= stop_loss_pct as i128
        * avg_price as i128 {
        return Some(skriv_exit("Stop-loss", types::endring(last, avg_price)));
    }
    if take_profit_pct > 0 && (last as i128 - avg_price as i128) * 10_000_000_000 >= take_profit_pct as i128
        * avg_price as i128 {
        return Some(skriv_exit("Take-profit", types::endring(last, avg_price)));
    }
    None
}

/// The reason to sell a position whose price has fallen `trail` per cent from
/// its peak.
pub open spec fn halevern(peak: int, last: int, trail: int) -> Option<Seq<char>> {
    if trail <= 0 || peak <= 0 || last <= 0 || !falt(peak, last, trail) {
        None
    } else {
        Some(
            "Trailing stop (−"@ + belop::belop_tekst(-types::endring_pct(last, peak), 1) + " % fra topp "@
                + belop::belop_tekst(peak, 2) + ")"@,
        )
    }
}

/// Trailing stop: guards a gain that has been made already. A share bought at
/// 100 that rose to 140 is sold at about 128 with a trail of 8 per cent.
pub fn trailing_exit(peak: i64, last: i64, trail_pct: i64) -> (r: Option<String>)
    ensures
        r is Some == halevern(peak as int, last as int, trail_pct as int) is Some,
        r matches Some(t) ==> halevern(peak as int, last as int, trail_pct as int) == Some(t@),
{
    if trail_pct <= 0 || peak <= 0 || last <= 0 {
        return None;
    }
    proof {
        types::lemma_produkt(trail_pct as int, peak as int);
    }
    if (peak as i128 - last as i128) * 10_000_000_000 >= trail_pct as i128 * peak as i128 {
        let mut ut: Vec<char> = Vec::new();
        push_text(&mut ut, "Trailing stop (−");
        let fall: Vec<char> = belop::skriv(-types::endring(last, peak), 8, 1);
        push_all(&mut ut, fall.as_slice());
        push_text(&mut ut, " % fra topp ");
        let topp: Vec<char> = belop::skriv_belop(peak, 2);
        push_all(&mut ut, topp.as_slice());
        push_text(&mut ut, ")");
        assert(Some(ut@) =~= halevern(peak as int, last as int, trail_pct as int)) by {
            assert(ut@ =~= "Trailing stop (−"@ + belop::belop_tekst(-types::endring_pct(last as int, peak as int), 1)
                + " % fra topp "@ + belop::belop_tekst(peak as int, 2) + ")"@);
        }
        return Some(string_of(ut.as_slice()));
    }
    None
}

/// A stop-loss never sells what stands above its limit, and a take-profit
/// never sells what stands below its own: with the two switched on, a price
/// strictly between the two limits keeps the position.
pub proof fn law_mellom_grensene_beholdes(avg: int, last: int, stop: int, profit: int)
    requires
        avg > 0,
        !falt(avg, last, stop),
        !steg(avg, last, profit),
    ensures
        vern(avg, last, stop, profit) is None,
{
}

/// The lower the price, the sooner it sells: where a stop-loss or a trailing
/// stop sells at a price, it sells at every lower one.
pub proof fn law_lavere_selger_ogsaa(fra: int, last: int, lavere: int, pct: int)
    requires
        falt(fra, last, pct),
        lavere <= last,
    ensures
        falt(fra, lavere, pct),
{
}

// ---------------------------------------------------------------------------
// Orders
// ---------------------------------------------------------------------------

/// A minute in nanoseconds.
pub const MINUTT: u64 = 60_000_000_000;

/// The approved orders without those at the front that are more than a minute
/// old.
pub open spec fn ferske(tider: Seq<u64>, naa: u64) -> Seq<u64>
    decreases tider.len(),
{
    if tider.len() > 0 && naa - tider[0] > MINUTT {
        ferske(tider.skip(1), naa)
    } else {
        tider
    }
}

pub open spec fn tapsgrense_tekst(tap: int, grense: int) -> Seq<char> {
    "tapsgrense nådd ("@ + belop::verdi_tekst(tap, 0) + " >= "@ + belop::belop_tekst(grense, 0)
        + ") — handel stoppet"@
}

pub open spec fn ordre_tekst(verdi: int, grense: int) -> Seq<char> {
    "ordreverdi "@ + belop::verdi_tekst(verdi, 0) + " over maks "@ + belop::belop_tekst(grense, 0)
}

pub open spec fn posisjon_tekst(verdi: int, grense: int) -> Seq<char> {
    "posisjonsverdi "@ + belop::verdi_tekst(verdi, 0) + " ville oversteget maks "@ + belop::belop_tekst(
        grense,
        0,
    )
}

pub open spec fn takt_tekst(antall: nat) -> Seq<char> {
    "ratebegrensning: "@ + number_text::decimal(antall) + " ordrer siste minutt"@
}

/// The limit that an order breaks, looked at in this order: the loss since the
/// start, the value of the order, the value of the position after it.
pub open spec fn brudd(cfg: RiskCfg, start: Option<i128>, ordre: int, posisjon: int, egenkapital: int) -> Option<
    Seq<char>,
> {
    if start is Some && start->0 - egenkapital >= cfg.max_daily_loss * 100_000_000 {
        Some(tapsgrense_tekst(start->0 - egenkapital, cfg.max_daily_loss as int))
    } else if ordre > cfg.max_order_value * 100_000_000 {
        Some(ordre_tekst(ordre, cfg.max_order_value as int))
    } else if posisjon > cfg.max_position_value * 100_000_000 {
        Some(posisjon_tekst(posisjon, cfg.max_position_value as int))
    } else {
        None
    }
}

/// The reason that an order is blocked for, given when the last ones were
/// cleared; none where it is cleared.
pub open spec fn dom(
    cfg: RiskCfg,
    start: Option<i128>,
    tider: Seq<u64>,
    ordre: int,
    posisjon: int,
    egenkapital: int,
    naa: u64,
) -> Option<Seq<char>> {
    match brudd(cfg, start, ordre, posisjon, egenkapital) {
        Some(t) => Some(t),
        None => if ferske(tider, naa).len() >= cfg.max_orders_per_min {
            Some(takt_tekst(ferske(tider, naa).len()))
        } else {
            None
        },
    }
}

/// When orders were cleared, after one more has been looked at.
pub open spec fn tider_etter(
    cfg: RiskCfg,
    start: Option<i128>,
    tider: Seq<u64>,
    ordre: int,
    posisjon: int,
    egenkapital: int,
    naa: u64,
) -> Seq<u64> {
    if brudd(cfg, start, ordre, posisjon, egenkapital) is Some {
        tider
    } else if ferske(tider, naa).len() >= cfg.max_orders_per_min {
        ferske(tider, naa)
    } else {
        ferske(tider, naa).push(naa)
    }
}

/// Every order must pass this before it reaches the broker. The rules are
/// simple and hard on purpose: they stop a strategy that runs wild.
#[derive(Debug)]
pub struct RiskManager {
    pub cfg: RiskCfg,
    /// When the orders of the last minute were approved, in nanoseconds of a
    /// clock that never goes back.
    pub order_times: Vec<u64>,
    /// The equity that losses are counted from.
    pub start_equity: Option<i128>,
}

fn skriv_grense(forst: &str, verdi: i128, midt: &str, grense: i64, sist: &str) -> (r: String)
    ensures
        r@ == forst@ + belop::verdi_tekst(verdi as int, 0) + midt@ + belop::belop_tekst(grense as int, 0) + sist@,
{
    let mut ut: Vec<char> = Vec::new();
    push_text(&mut ut, forst);
    let v: Vec<char> = belop::skriv(verdi, 16, 0);
    push_all(&mut ut, v.as_slice());
    push_text(&mut ut, midt);
    let g: Vec<char> = belop::skriv_belop(grense, 0);
    push_all(&mut ut, g.as_slice());
    push_text(&mut ut, sist);
    assert(ut@ =~= forst@ + belop::verdi_tekst(verdi as int, 0) + midt@ + belop::belop_tekst(grense as int, 0)
        + sist@);
    string_of(ut.as_slice())
}

impl RiskManager {
    /// No more orders are on record than a minute may hold.
    pub open spec fn innen_takten(&self) -> bool {
        self.order_times@.len() <= self.cfg.max_orders_per_min
    }

    /// The reason that an order would be blocked for just now.
    pub open spec fn dom_over(&self, ordre: int, posisjon: int, egenkapital: int, naa: u64) -> Option<Seq<char>> {
        dom(self.cfg, self.start_equity, self.order_times@, ordre, posisjon, egenkapital, naa)
    }

    /// When orders were cleared, after one more has been looked at just now.
    pub open spec fn tider(&self, ordre: int, posisjon: int, egenkapital: int, naa: u64) -> Seq<u64> {
        tider_etter(self.cfg, self.start_equity, self.order_times@, ordre, posisjon, egenkapital, naa)
    }

    /// Whether the loss against an equity can be counted.
    pub open spec fn kan_maale(&self, egenkapital: int) -> bool {
        self.start_equity matches Some(s) ==> i128::MIN <= s - egenkapital <= i128::MAX
    }

    pub fn new(cfg: RiskCfg) -> (r: RiskManager)
        ensures
            r.cfg == cfg,
            r.order_times@ == Seq::<u64>::empty(),
            r.start_equity is None,
            r.innen_takten(),
    {
        RiskManager { cfg, order_times: Vec::new(), start_equity: None }
    }

    /// Called on every tick with the equity, cash and positions together. The
    /// first call sets what losses are counted from.
    pub fn observe_equity(&mut self, equity: i128)
        ensures
            final(self).cfg == old(self).cfg,
            final(self).order_times == old(self).order_times,
            final(self).start_equity == (match old(self).start_equity {
                Some(s) => Some(s),
                None => Some(equity),
            }),
            final(self).start_equity == start_etter(old(self).start_equity, equity),
    {
        if self.start_equity.is_none() {
            self.start_equity = Some(equity);
        }
    }

    /// What has been gained, or lost, since the start.
    pub fn drawdown(&self, equity: i128) -> (r: i128)
        requires
            self.start_equity matches Some(s) ==> i128::MIN <= equity - s <= i128::MAX,
        ensures
            r == (match self.start_equity {
                Some(s) => equity - s,
                None => 0,
            }),
            r == utvikling(self.start_equity, equity as int),
    {
        match self.start_equity {
            Some(s) => equity - s,
            None => 0,
        }
    }

    /// Whether an order may be sent, and if not, why. A cleared order is
    /// recorded at `now`; at most so many are cleared in a minute.
    pub fn check(&mut self, order_value: i128, position_value_after: i128, current_equity: i128, now: u64) -> (r:
        RiskVerdict)
        requires
            old(self).kan_maale(current_equity as int),
        ensures
            final(self).cfg == old(self).cfg,
            final(self).start_equity == old(self).start_equity,
            old(self).innen_takten() ==> final(self).innen_takten(),
            (match old(self).dom_over(order_value as int, position_value_after as int, current_equity as int, now) {
                Some(t) => r is Blocked && r->Blocked_0@ == t,
                None => r is Cleared,
            }),
            final(self).order_times@ == old(self).tider(
                order_value as int,
                position_value_after as int,
                current_equity as int,
                now,
            ),
    {
        if let Some(start) = self.start_equity {
            let loss: i128 = start - current_equity;
            if loss >= self.cfg.max_daily_loss as i128 * 100_000_000 {
                let t: String = skriv_grense(
                    "tapsgrense nådd (",
                    loss,
                    " >= ",
                    self.cfg.max_daily_loss,
                    ") — handel stoppet",
                );
                return RiskVerdict::Blocked(t);
            }
        }
        if order_value > self.cfg.max_order_value as i128 * 100_000_000 {
            let t: String = skriv_grense("ordreverdi ", order_value, " over maks ", self.cfg.max_order_value, "");
            proof {
                reveal_strlit("");
                assert(t@ =~= ordre_tekst(order_value as int, self.cfg.max_order_value as int));
            }
            return RiskVerdict::Blocked(t);
        }
        if position_value_after > self.cfg.max_position_value as i128 * 100_000_000 {
            let t: String = skriv_grense(
                "posisjonsverdi ",
                position_value_after,
                " ville oversteget maks ",
                self.cfg.max_position_value,
                "",
            );
            proof {
                reveal_strlit("");
                assert(t@ =~= posisjon_tekst(position_value_after as int, self.cfg.max_position_value as int));
            }
            return RiskVerdict::Blocked(t);
        }
        let ghost siste = ferske(self.order_times@, now);
        let ghost gammel = *self;
        while self.order_times.len() > 0 && now > self.order_times[0] && now - self.order_times[0] > MINUTT
            invariant
                ferske(self.order_times@, now) == siste,
                self.order_times@.len() <= gammel.order_times@.len(),
                self.cfg == gammel.cfg,
                self.start_equity == gammel.start_equity,
            decreases self.order_times@.len(),
        {
            let ghost for_ = self.order_times@;
            self.order_times.remove(0);
            assert(self.order_times@ =~= for_.skip(1));
        }
        if self.order_times.len() as u64 >= self.cfg.max_orders_per_min as u64 {
            let mut ut: Vec<char> = Vec::new();
            push_text(&mut ut, "ratebegrensning: ");
            let n: Vec<char> = number_text::write_decimal(self.order_times.len() as u128);
            push_all(&mut ut, n.as_slice());
            push_text(&mut ut, " ordrer siste minutt");
            assert(ut@ =~= takt_tekst(siste.len()));
            return RiskVerdict::Blocked(string_of(ut.as_slice()));
        }
        self.order_times.push(now);
        RiskVerdict::Cleared
    }
}

/// On a clock that never goes back, the orders that are kept are exactly those
/// of the last minute.
pub proof fn law_ferske_er_siste_minutt(tider: Seq<u64>, naa: u64)
    requires
        forall|i: int, j: int| 0 <= i <= j < tider.len() ==> tider[i] <= tider[j],
    ensures
        forall|i: int| 0 <= i < ferske(tider, naa).len() ==> naa - (#[trigger] ferske(tider, naa)[i]) <= MINUTT,
        forall|t: u64| #[trigger] tider.contains(t) && naa - t <= MINUTT ==> ferske(tider, naa).contains(t),
    decreases tider.len(),
{
    if tider.len() > 0 && naa - tider[0] > MINUTT {
        let resten = tider.skip(1);
        law_ferske_er_siste_minutt(resten, naa);
        assert forall|i: int| 0 <= i < ferske(tider, naa).len() implies naa - (#[trigger] ferske(tider, naa)[i])
            <= MINUTT by {
            assert(ferske(tider, naa)[i] == ferske(resten, naa)[i]);
        }
        assert forall|t: u64| #[trigger] tider.contains(t) && naa - t <= MINUTT implies ferske(tider, naa).contains(
            t,
        ) by {
            let i = choose|i: int| 0 <= i < tider.len() && tider[i] == t;
            assert(i > 0);
            assert(resten[i - 1] == t);
            assert(resten.contains(t));
        }
    } else {
        assert forall|i: int| 0 <= i < tider.len() implies naa - (#[trigger] tider[i]) <= MINUTT by {
            assert(tider[0] <= tider[i]);
        }
    }
}

/// An order that breaks no limit leaves the loss under its limit, and the
/// value of the order and of the position within theirs.
pub proof fn law_klarert_holder_grensene(
    cfg: RiskCfg,
    start: Option<i128>,
    ordre: int,
    posisjon: int,
    egenkapital: int,
)
    requires
        brudd(cfg, start, ordre, posisjon, egenkapital) is None,
    ensures
        start matches Some(s) ==> s - egenkapital < cfg.max_daily_loss * 100_000_000,
        ordre <= cfg.max_order_value * 100_000_000,
        posisjon <= cfg.max_position_value * 100_000_000,
{
}

/// With known prices, a stop-loss that is switched on sells whenever the price has
/// fallen its share of the mean price, whatever the take-profit is, and says so; a
/// take-profit that is switched on sells whenever the price has risen its share,
/// whatever the stop-loss is. Nothing else sells.
pub proof fn law_grensene_selger(avg: int, last: int, stop: int, profit: int)
    ensures
        avg > 0 && last > 0 && stop > 0 && last * 10_000_000_000 <= avg * (10_000_000_000 - stop) ==> (vern(
            avg,
            last,
            stop,
            profit,
        ) matches Some(t) && "Stop-loss ("@.is_prefix_of(t)),
        avg > 0 && last > 0 && profit > 0 && last * 10_000_000_000 >= avg * (10_000_000_000 + profit) ==> (vern(
            avg,
            last,
            stop,
            profit,
        ) matches Some(t) && "Take-profit ("@.is_prefix_of(t)),
        vern(avg, last, stop, profit) is Some ==> avg > 0 && last > 0 && ((stop > 0 && last * 10_000_000_000 <= avg * (
        10_000_000_000 - stop)) || (profit > 0 && last * 10_000_000_000 >= avg * (10_000_000_000 + profit))),
{
    reveal_strlit("Stop-loss");
    reveal_strlit("Stop-loss (");
    reveal_strlit("Take-profit");
    reveal_strlit("Take-profit (");
    reveal_strlit(" (");
    let h = 10_000_000_000int;
    assert(avg * (h - stop) == avg * h - stop * avg) by (nonlinear_arith);
    assert(avg * (h + profit) == avg * h + profit * avg) by (nonlinear_arith);
    if avg > 0 {
        if stop > 0 {
            assert(stop * avg > 0) by (nonlinear_arith)
                requires
                    stop > 0,
                    avg > 0,
            ;
        }
        if profit > 0 {
            assert(profit * avg > 0) by (nonlinear_arith)
                requires
                    profit > 0,
                    avg > 0,
            ;
        }
    }
    if let Some(t) = vern(avg, last, stop, profit) {
        let p = belop::med_fortegn(types::endring_pct(last, avg), 1);
        if last * h <= avg * (h - stop) && stop > 0 {
            assert(t.take(11) =~= "Stop-loss ("@);
            assert(t =~= "Stop-loss ("@ + p + " %)"@);
        }
        if last * h >= avg * (h + profit) && profit > 0 {
            assert(t =~= "Take-profit ("@ + p + " %)"@);
        }
    }
}

/// With a known price and a peak, a trailing stop that is switched on sells
/// whenever the price has fallen its share of the peak, and only then.
pub proof fn law_halen_selger(peak: int, last: int, trail: int)
    ensures
        halevern(peak, last, trail) is Some <==> trail > 0 && peak > 0 && last > 0 && last * 10_000_000_000 <= peak * (
        10_000_000_000 - trail),
{
    assert(peak * (10_000_000_000 - trail) == peak * 10_000_000_000 - trail * peak) by (nonlinear_arith);
}

/// Every limit stops an order that breaks it, whatever the others say, and an
/// order within all of them is cleared while the minute has room.
pub proof fn law_grensene_stopper(
    cfg: RiskCfg,
    start: Option<i128>,
    tider: Seq<u64>,
    ordre: int,
    posisjon: int,
    egenkapital: int,
    naa: u64,
)
    requires
        forall|i: int, j: int| 0 <= i <= j < tider.len() ==> tider[i] <= tider[j],
        forall|i: int| 0 <= i < tider.len() ==> #[trigger] tider[i] <= naa,
    ensures
        (start matches Some(s) && s - egenkapital >= cfg.max_daily_loss * 100_000_000) ==> dom(
            cfg,
            start,
            tider,
            ordre,
            posisjon,
            egenkapital,
            naa,
        ) is Some,
        ordre > cfg.max_order_value * 100_000_000 ==> dom(cfg, start, tider, ordre, posisjon, egenkapital, naa) is Some,
        posisjon > cfg.max_position_value * 100_000_000 ==> dom(
            cfg,
            start,
            tider,
            ordre,
            posisjon,
            egenkapital,
            naa,
        ) is Some,
        tider.filter(|t: u64| naa - t <= 60_000_000_000).len() >= cfg.max_orders_per_min ==> dom(
            cfg,
            start,
            tider,
            ordre,
            posisjon,
            egenkapital,
            naa,
        ) is Some,
        (start matches Some(s) ==> s - egenkapital < cfg.max_daily_loss * 100_000_000) && ordre <= cfg.max_order_value
            * 100_000_000 && posisjon <= cfg.max_position_value * 100_000_000 && tider.filter(
            |t: u64| naa - t <= 60_000_000_000,
        ).len() < cfg.max_orders_per_min ==> dom(cfg, start, tider, ordre, posisjon, egenkapital, naa) is None,
{
    lemma_ferske_filtrert(tider, naa);
}

proof fn lemma_ferske_filtrert(tider: Seq<u64>, naa: u64)
    requires
        forall|i: int, j: int| 0 <= i <= j < tider.len() ==> tider[i] <= tider[j],
    ensures
        ferske(tider, naa) == tider.filter(|t: u64| naa - t <= 60_000_000_000),
    decreases tider.len(),
{
    let p = |t: u64| naa - t <= 60_000_000_000;
    if tider.len() > 0 && naa - tider[0] > MINUTT {
        let resten = tider.skip(1);
        assert forall|i: int, j: int| 0 <= i <= j < resten.len() implies resten[i] <= resten[j] by {
            assert(resten[i] == tider[i + 1] && resten[j] == tider[j + 1]);
        }
        lemma_ferske_filtrert(resten, naa);
        assert(tider =~= seq![tider[0]] + resten);
        assert(seq![tider[0]].filter(p) =~= Seq::<u64>::empty()) by {
            reveal_with_fuel(Seq::filter, 2);
            assert(seq![tider[0]].drop_last() =~= Seq::empty());
        }
        Seq::<u64>::filter_distributes_over_add(seq![tider[0]], resten, p);
        assert(tider.filter(p) =~= resten.filter(p));
    } else {
        assert forall|i: int| 0 <= i < tider.len() implies p(#[trigger] tider[i]) by {
            assert(tider[0] <= tider[i]);
        }
        lemma_alle_filtrert(tider, p);
    }
}

proof fn lemma_alle_filtrert(s: Seq<u64>, p: spec_fn(u64) -> bool)
    requires
        forall|i: int| 0 <= i < s.len() ==> p(#[trigger] s[i]),
    ensures
        s.filter(p) == s,
    decreases s.len(),
{
    reveal(Seq::filter);
    if s.len() > 0 {
        assert forall|i: int| 0 <= i < s.drop_last().len() implies p(#[trigger] s.drop_last()[i]) by {
            assert(s.drop_last()[i] == s[i]);
        }
        lemma_alle_filtrert(s.drop_last(), p);
        assert(s.drop_last().push(s.last()) =~= s);
    }
    assert(s.filter(p) =~= s);
}

/// Cleared orders are counted and blocked ones are not: after an order the record
/// holds those of the last minute from before, and the new one exactly where it was
/// cleared, so that no minute holds more than are allowed.
pub proof fn law_takten_telles(
    cfg: RiskCfg,
    start: Option<i128>,
    tider: Seq<u64>,
    ordre: int,
    posisjon: int,
    egenkapital: int,
    naa: u64,
)
    requires
        forall|i: int, j: int| 0 <= i <= j < tider.len() ==> tider[i] <= tider[j],
        forall|i: int| 0 <= i < tider.len() ==> #[trigger] tider[i] <= naa,
    ensures
        ({
            let etter = tider_etter(cfg, start, tider, ordre, posisjon, egenkapital, naa);
            let siste = tider.filter(|t: u64| naa - t <= 60_000_000_000);
            let klarert = dom(cfg, start, tider, ordre, posisjon, egenkapital, naa) is None;
            &&& klarert ==> etter == siste.push(naa) && etter.len() <= cfg.max_orders_per_min
            &&& !klarert ==> etter == siste || etter == tider
        }),
{
    lemma_ferske_filtrert(tider, naa);
}

/// What losses are counted from, once an equity has been seen.
pub open spec fn start_etter(start: Option<i128>, equity: i128) -> Option<i128> {
    match start {
        Some(s) => Some(s),
        None => Some(equity),
    }
}

/// What losses are counted from, once a row of equities has been seen.
pub open spec fn start_gjennom(l: Seq<i128>) -> Option<i128>
    decreases l.len(),
{
    if l.len() == 0 {
        None
    } else {
        start_etter(start_gjennom(l.drop_last()), l.last())
    }
}

/// How far the equity has come from the start.
pub open spec fn utvikling(start: Option<i128>, equity: int) -> int {
    match start {
        Some(s) => equity - s,
        None => 0,
    }
}

/// Losses are counted from the first equity that was seen, whatever came after.
pub proof fn law_forste_egenkapital_teller(l: Seq<i128>)
    requires
        l.len() > 0,
    ensures
        start_gjennom(l) == Some(l[0]),
        utvikling(start_gjennom(l), l.last() as int) + l[0] == l.last(),
    decreases l.len(),
{
    reveal_with_fuel(start_gjennom, 2);
    if l.len() > 1 {
        law_forste_egenkapital_teller(l.drop_last());
    } else {
        assert(l.drop_last() =~= Seq::<i128>::empty());
    }
}

}
