//! The form of the settings: how far each may go, and how they are stored.
use vstd::prelude::*;

use crate::config::{Config, RiskCfg, StrategyCfg};
use crate::text::{three, two};

verus! {

// ---------------------------------------------------------------------------
// Limits
// ---------------------------------------------------------------------------

/// A number moved to the nearest end of a range where it is outside.
pub open spec fn klemt(v: int, minst: int, mest: int) -> int {
    if v < minst {
        minst
    } else if v > mest {
        mest
    } else {
        v
    }
}

fn klem(v: i64, minst: i64, mest: i64) -> (r: i64)
    ensures
        r == klemt(v as int, minst as int, mest as int),
{
    if v < minst {
        minst
    } else if v > mest {
        mest
    } else {
        v
    }
}

fn klem_vindu(v: usize, minst: usize, mest: usize) -> (r: usize)
    ensures
        r == klemt(v as int, minst as int, mest as int),
{
    if v < minst {
        minst
    } else if v > mest {
        mest
    } else {
        v
    }
}

/// Whether the strategy of `b` is that of `a` within the ranges of the form.
pub open spec fn strategi_innenfor(a: StrategyCfg, b: StrategyCfg) -> bool {
    &&& b.name == a.name
    &&& b.timeframe_min == a.timeframe_min
    &&& b.fast == klemt(a.fast as int, 2, 100)
    &&& b.slow == klemt(a.slow as int, 3, 400)
    &&& b.order_value == klemt(a.order_value as int, 0, 1_000_000_000_000_000)
    &&& b.order_qty == klemt(a.order_qty as int, 100_000_000, 100_000_000_000_000)
    &&& b.rsi_period == klemt(a.rsi_period as int, 2, 50)
    &&& b.rsi_buy_below == klemt(a.rsi_buy_below as int, 100_000_000, 5_000_000_000)
    &&& b.rsi_sell_above == klemt(a.rsi_sell_above as int, 5_000_000_000, 9_900_000_000)
    &&& b.momentum_window == klemt(a.momentum_window as int, 3, 200)
}

/// Whether the rules on risk of `b` are those of `a` within the ranges of the
/// form.
pub open spec fn risiko_innenfor(a: RiskCfg, b: RiskCfg) -> bool {
    &&& b.max_order_value == klemt(a.max_order_value as int, 10_000_000_000, 10_000_000_000_000_000)
    &&& b.max_position_value == klemt(a.max_position_value as int, 10_000_000_000, 10_000_000_000_000_000)
    &&& b.max_orders_per_min == klemt(a.max_orders_per_min as int, 1, 60)
    &&& b.max_daily_loss == klemt(a.max_daily_loss as int, 10_000_000_000, 10_000_000_000_000_000)
    &&& b.stop_loss_pct == klemt(a.stop_loss_pct as int, 0, 9_000_000_000)
    &&& b.take_profit_pct == klemt(a.take_profit_pct as int, 0, 50_000_000_000)
    &&& b.trailing_stop_pct == klemt(a.trailing_stop_pct as int, 0, 9_000_000_000)
}

/// Moves the settings that the form shows into their ranges; the others stay.
pub fn begrens(cfg: &mut Config)
    ensures
        final(cfg).poll_secs == klemt(old(cfg).poll_secs as int, 10, 300),
        final(cfg).starting_cash == klemt(
            old(cfg).starting_cash as int,
            100_000_000_000,
            10_000_000_000_000_000,
        ),
        strategi_innenfor(old(cfg).strategy, final(cfg).strategy),
        risiko_innenfor(old(cfg).risk, final(cfg).risk),
        *final(cfg) == (Config {
            poll_secs: final(cfg).poll_secs,
            starting_cash: final(cfg).starting_cash,
            strategy: final(cfg).strategy,
            risk: final(cfg).risk,
            ..*old(cfg)
        }),
{
    if cfg.poll_secs < 10 {
        cfg.poll_secs = 10;
    } else if cfg.poll_secs > 300 {
        cfg.poll_secs = 300;
    }
    cfg.starting_cash = klem(cfg.starting_cash, 100_000_000_000, 10_000_000_000_000_000);
    cfg.strategy.fast = klem_vindu(cfg.strategy.fast, 2, 100);
    cfg.strategy.slow = klem_vindu(cfg.strategy.slow, 3, 400);
    cfg.strategy.order_value = klem(cfg.strategy.order_value, 0, 1_000_000_000_000_000);
    cfg.strategy.order_qty = klem(cfg.strategy.order_qty, 100_000_000, 100_000_000_000_000);
    cfg.strategy.rsi_period = klem_vindu(cfg.strategy.rsi_period, 2, 50);
    cfg.strategy.rsi_buy_below = klem(cfg.strategy.rsi_buy_below, 100_000_000, 5_000_000_000);
    cfg.strategy.rsi_sell_above = klem(cfg.strategy.rsi_sell_above, 5_000_000_000, 9_900_000_000);
    cfg.strategy.momentum_window = klem_vindu(cfg.strategy.momentum_window, 3, 200);
    cfg.risk.max_order_value = klem(cfg.risk.max_order_value, 10_000_000_000, 10_000_000_000_000_000);
    cfg.risk.max_position_value = klem(cfg.risk.max_position_value, 10_000_000_000, 10_000_000_000_000_000);
    if cfg.risk.max_orders_per_min < 1 {
        cfg.risk.max_orders_per_min = 1;
    } else if cfg.risk.max_orders_per_min > 60 {
        cfg.risk.max_orders_per_min = 60;
    }
    cfg.risk.max_daily_loss = klem(cfg.risk.max_daily_loss, 10_000_000_000, 10_000_000_000_000_000);
    cfg.risk.stop_loss_pct = klem(cfg.risk.stop_loss_pct, 0, 9_000_000_000);
    cfg.risk.take_profit_pct = klem(cfg.risk.take_profit_pct, 0, 50_000_000_000);
    cfg.risk.trailing_stop_pct = klem(cfg.risk.trailing_stop_pct, 0, 9_000_000_000);
}

/// Settings that were moved into their ranges stay where they are.
pub proof fn law_grenser_en_gang(a: StrategyCfg, b: StrategyCfg, c: StrategyCfg)
    requires
        strategi_innenfor(a, b),
        strategi_innenfor(b, c),
    ensures
        c == b,
{
}

// ---------------------------------------------------------------------------
// Storing
// ---------------------------------------------------------------------------

/// Why the settings of the form cannot be stored.
pub fn innstillingsfeil(cfg: &Config) -> (r: Option<&'static str>)
    ensures
        r is Some == (cfg.strategy.fast >= cfg.strategy.slow),
        r matches Some(t) ==> t@ == "SMA rask må være mindre enn treg — ikke lagret."@,
{
    if cfg.strategy.fast >= cfg.strategy.slow {
        Some("SMA rask må være mindre enn treg — ikke lagret.")
    } else {
        None
    }
}

/// The file of the settings: a heading, and the settings.
pub fn innstillingsfil(kropp: &str) -> (r: String)
    ensures
        r@ == "# b-rs-konfigurasjon — skrevet av Innstillinger-fanen i appen.\n# Full dokumentasjon: config.example.toml i prosjektmappen.\n\n"@
            + kropp@,
{
    two(
        "# b-rs-konfigurasjon — skrevet av Innstillinger-fanen i appen.\n# Full dokumentasjon: config.example.toml i prosjektmappen.\n\n",
        kropp,
    )
}

/// The script that starts the program together with the machine.
pub fn autostart_skript(exe: &str) -> (r: String)
    ensures
        r@ == "@echo off\r\nstart \"\" \""@ + exe@ + "\"\r\n"@,
{
    three("@echo off\r\nstart \"\" \"", exe, "\"\r\n")
}

/// What is within its bounds stays as it is; what is outside goes to the
/// nearest bound.
pub proof fn law_klemt(v: int, minst: int, mest: int)
    requires
        minst <= mest,
    ensures
        minst <= klemt(v, minst, mest) <= mest,
        minst <= v <= mest ==> klemt(v, minst, mest) == v,
        v <= minst ==> klemt(v, minst, mest) == minst,
        v >= mest ==> klemt(v, minst, mest) == mest,
{
}

/// Limits that were already sensible are not touched, and a stop can be turned
/// off.
pub proof fn law_risiko_beholdes(a: RiskCfg, b: RiskCfg)
    requires
        risiko_innenfor(a, b),
    ensures
        1 <= b.max_orders_per_min <= 60,
        b.max_order_value >= 100 * 100_000_000 && b.max_position_value >= 100 * 100_000_000 && b.max_daily_loss >= 100
            * 100_000_000,
        0 <= a.stop_loss_pct <= 90 * 100_000_000 ==> b.stop_loss_pct == a.stop_loss_pct,
        0 <= a.take_profit_pct <= 500 * 100_000_000 ==> b.take_profit_pct == a.take_profit_pct,
        0 <= a.trailing_stop_pct <= 90 * 100_000_000 ==> b.trailing_stop_pct == a.trailing_stop_pct,
        1 <= a.max_orders_per_min <= 60 ==> b.max_orders_per_min == a.max_orders_per_min,
{
}

}
