//! The settings of the application, what they are when left out, and which
//! combinations are refused.
use vstd::prelude::*;

use crate::text;
use crate::text::{holds, same, text_trim};

verus! {

/// Everything in the settings file.
#[derive(Debug)]
pub struct Config {
    /// "paper" (simulation) or "live" (real orders at the chosen broker).
    pub mode: String,
    /// "paper", "ibkr", "revolutx" or "multi".
    pub broker: String,
    /// Seconds between two updates of the prices.
    pub poll_secs: u64,
    /// Symbols such as "EQNR.OL".
    pub watchlist: Vec<String>,
    pub starting_cash: i64,
    /// Starts the paper portfolio afresh; else it is restored.
    pub paper_reset: bool,
    /// The currency of the account.
    pub base_currency: String,
    /// The strategy trades only while the exchange is open.
    pub market_hours_only: bool,
    pub db_path: String,
    /// Asked for by the window application before it trades for real.
    pub live_ok: bool,
    pub strategy: StrategyCfg,
    pub risk: RiskCfg,
    pub ibkr: Option<IbkrCfg>,
    pub revolutx: Option<RevolutXCfg>,
    pub nordnet: NordnetCfg,
    pub notify: NotifyCfg,
    pub backtest: BacktestCfg,
    pub goal: GoalCfg,
    /// The index to compare with; empty switches it off.
    pub benchmark: String,
    pub morgan: MorganCfg,
    pub uno_x: UnoXCfg,
    /// Read where the broker is "multi".
    pub multi: MultiCfg,
}

/// Two brokers at a time: pairs go to one, shares and funds to the other.
#[derive(Debug)]
pub struct MultiCfg {
    /// "paper" or "revolutx".
    pub crypto: String,
    /// "paper" or "ibkr".
    pub stocks: String,
}

impl Default for MultiCfg {
    fn default() -> (r: MultiCfg)
        ensures
            r.crypto@ == "paper"@,
            r.stocks@ == "paper"@,
    {
        MultiCfg {
            crypto: default_paper(),
            stocks: default_paper(),
        }
    }
}

/// What the adviser thinks with.
#[derive(Debug)]
pub struct MorganCfg {
    /// "ollama"; any other word: a model in the cloud.
    pub provider: String,
    pub ollama_url: String,
    pub ollama_model: String,
    pub autopilot: AutopilotCfg,
}

impl Default for MorganCfg {
    fn default() -> (r: MorganCfg)
        ensures
            r.provider@ == "anthropic"@,
            r.ollama_url@ == "http://localhost:11434"@,
            r.ollama_model@ == "llama3.1:8b"@,
            !r.autopilot.enabled,
            r.autopilot.symbol@ == "BTC-USD"@,
            r.autopilot.symbols@.len() == 0,
    {
        MorganCfg {
            provider: default_morgan_provider(),
            ollama_url: default_ollama_url(),
            ollama_model: default_ollama_model(),
            autopilot: AutopilotCfg::default(),
        }
    }
}

/// The team that looks for candidates every day.
#[derive(Debug)]
pub struct UnoXCfg {
    pub enabled: bool,
    /// The hour, 0 to 23, of the daily run.
    pub hour: u32,
    /// Empty: as the adviser.
    pub provider: String,
    /// Rounds that are merged; 1 is off.
    pub passes: u32,
}

impl Default for UnoXCfg {
    fn default() -> (r: UnoXCfg)
        ensures
            r.enabled == false,
            r.hour == 17,
            r.provider@ == "ollama"@,
            r.passes == 1,
    {
        UnoXCfg {
            enabled: false,
            hour: default_uno_x_hour(),
            provider: default_uno_x_provider(),
            passes: default_uno_x_passes(),
        }
    }
}

/// Lets the adviser trade within a small, hard budget.
#[derive(Debug)]
pub struct AutopilotCfg {
    pub enabled: bool,
    pub symbol: String,
    /// Several symbols; empty: `symbol` alone.
    pub symbols: Vec<String>,
    /// The holding never exceeds this.
    pub budget_kr: i64,
    /// Minutes between two decisions.
    pub interval_min: u64,
    pub max_trades_per_day: u32,
    /// Empty: as the adviser; "ollama", "duo", or the family of the model in the
    /// cloud.
    pub provider: String,
    /// Benched for the day once it has lost this; 0 is off.
    pub max_day_loss_kr: i64,
    /// Minutes without buying after a loss; 0 is off.
    pub cooldown_min: u64,
}

impl Default for AutopilotCfg {
    fn default() -> (r: AutopilotCfg)
        ensures
            r.enabled == false,
            r.symbol@ == "BTC-USD"@,
            r.symbols@.len() == 0,
            r.budget_kr == 100_000_000_000,
            r.interval_min == 60,
            r.max_trades_per_day == 4,
            r.provider@ == ""@,
            r.max_day_loss_kr == 30_000_000_000,
            r.cooldown_min == 30,
    {
        AutopilotCfg {
            enabled: false,
            symbol: default_autopilot_symbol(),
            symbols: Vec::new(),
            budget_kr: default_autopilot_budget(),
            interval_min: default_autopilot_interval(),
            max_trades_per_day: default_autopilot_max_trades(),
            provider: "".to_owned(),
            max_day_loss_kr: default_autopilot_day_loss(),
            cooldown_min: default_autopilot_cooldown(),
        }
    }
}

/// A savings goal; an amount of 0 is off.
#[derive(Debug, Clone, Copy, PartialEq, Eq, Structural)]
pub struct GoalCfg {
    pub amount: i64,
    pub year: i32,
}

impl Default for GoalCfg {
    fn default() -> (r: GoalCfg)
        ensures
            r.amount == 0,
            r.year == 0,
    {
        GoalCfg {
            amount: 0,
            year: 0,
        }
    }
}

/// What a trade costs in a backtest, in per cent of its value.
#[derive(Debug, Clone, Copy, PartialEq, Eq, Structural)]
pub struct BacktestCfg {
    pub commission_pct: i64,
    pub slippage_pct: i64,
}

impl Default for BacktestCfg {
    fn default() -> (r: BacktestCfg)
        ensures
            r.commission_pct == 15_000_000,
            r.slippage_pct == 5_000_000,
    {
        BacktestCfg {
            commission_pct: default_commission_pct(),
            slippage_pct: default_slippage_pct(),
        }
    }
}

/// Messages to a telephone.
#[derive(Debug)]
pub struct NotifyCfg {
    pub enabled: bool,
    /// "ntfy" or "telegram".
    pub provider: String,
    pub ntfy_server: String,
    pub ntfy_topic: String,
    pub telegram_chat_id: String,
    /// Commands from the telephone.
    pub remote_control: bool,
    /// Empty: the topic with "-styr" behind it.
    pub control_topic: String,
    pub sound: bool,
    pub daily_summary: bool,
    /// Warns when something held falls so much in a day; 0 is off.
    pub day_move_alarm_pct: i64,
}

impl Default for NotifyCfg {
    fn default() -> (r: NotifyCfg)
        ensures
            r.enabled == false,
            r.provider@ == "ntfy"@,
            r.ntfy_server@ == "https://ntfy.sh"@,
            r.ntfy_topic@ == ""@,
            r.telegram_chat_id@ == ""@,
            r.remote_control == false,
            r.control_topic@ == ""@,
            r.sound == true,
            r.daily_summary == false,
            r.day_move_alarm_pct == 0,
    {
        NotifyCfg {
            enabled: false,
            provider: default_notify_provider(),
            ntfy_server: default_ntfy_server(),
            ntfy_topic: "".to_owned(),
            telegram_chat_id: "".to_owned(),
            remote_control: false,
            control_topic: "".to_owned(),
            sound: true,
            daily_summary: false,
            day_move_alarm_pct: 0,
        }
    }
}

/// The strategy and its parameters.
#[derive(Debug)]
pub struct StrategyCfg {
    pub name: String,
    /// The window of the fast moving average.
    pub fast: usize,
    /// The window of the slow one.
    pub slow: usize,
    /// Buy for this amount; 0: buy `order_qty`.
    pub order_value: i64,
    pub order_qty: i64,
    /// Minutes that one signal covers; 0: every tick.
    pub timeframe_min: u64,
    pub rsi_period: usize,
    pub rsi_buy_below: i64,
    pub rsi_sell_above: i64,
    pub momentum_window: usize,
}

impl Default for StrategyCfg {
    fn default() -> (r: StrategyCfg)
        ensures
            r.name@ == "sma_cross"@,
            r.fast == 5,
            r.slow == 20,
            r.order_value == 0,
            r.order_qty == 1_000_000_000,
            r.timeframe_min == 0,
            r.rsi_period == 14,
            r.rsi_buy_below == 3_000_000_000,
            r.rsi_sell_above == 7_000_000_000,
            r.momentum_window == 20,
    {
        StrategyCfg {
            name: default_strategy_name(),
            fast: default_fast(),
            slow: default_slow(),
            order_value: 0,
            order_qty: default_order_qty(),
            timeframe_min: 0,
            rsi_period: default_rsi_period(),
            rsi_buy_below: default_rsi_buy_below(),
            rsi_sell_above: default_rsi_sell_above(),
            momentum_window: default_momentum_window(),
        }
    }
}

/// The limits on orders and positions; a percentage of 0 is off.
#[derive(Debug, Clone, Copy, PartialEq, Eq, Structural)]
pub struct RiskCfg {
    pub max_order_value: i64,
    pub max_position_value: i64,
    pub max_orders_per_min: u32,
    pub max_daily_loss: i64,
    pub stop_loss_pct: i64,
    pub take_profit_pct: i64,
    pub trailing_stop_pct: i64,
}

impl Default for RiskCfg {
    fn default() -> (r: RiskCfg)
        ensures
            r.max_order_value == 1_000_000_000_000,
            r.max_position_value == 2_500_000_000_000,
            r.max_orders_per_min == 4,
            r.max_daily_loss == 500_000_000_000,
            r.stop_loss_pct == 800_000_000,
            r.take_profit_pct == 0,
            r.trailing_stop_pct == 0,
    {
        RiskCfg {
            max_order_value: default_max_order_value(),
            max_position_value: default_max_position_value(),
            max_orders_per_min: default_max_orders_per_min(),
            max_daily_loss: default_max_daily_loss(),
            stop_loss_pct: default_stop_loss_pct(),
            take_profit_pct: 0,
            trailing_stop_pct: 0,
        }
    }
}

/// The gateway of Interactive Brokers.
#[derive(Debug)]
pub struct IbkrCfg {
    pub base_url: String,
    pub account: String,
    pub accept_invalid_certs: bool,
    pub limit_orders: bool,
    pub limit_slippage_pct: i64,
    pub realtime_quotes: bool,
}

/// The account at Revolut X.
#[derive(Debug)]
pub struct RevolutXCfg {
    pub base_url: String,
    pub private_key_path: String,
    pub quote_currency: String,
}

/// The portfolio read from Nordnet.
#[derive(Debug)]
pub struct NordnetCfg {
    pub enabled: bool,
    pub base_url: String,
    pub poll_secs: u64,
}

impl Default for NordnetCfg {
    fn default() -> (r: NordnetCfg)
        ensures
            r.enabled == false,
            r.base_url@ == "https://www.nordnet.no/api/2"@,
            r.poll_secs == 300,
    {
        NordnetCfg {
            enabled: false,
            base_url: default_nordnet_base(),
            poll_secs: default_nordnet_poll(),
        }
    }
}

pub fn default_mode() -> (r: String)
    ensures
        r@ == "paper"@,
{
    "paper".to_owned()
}

pub fn default_base_currency() -> (r: String)
    ensures
        r@ == "NOK"@,
{
    "NOK".to_owned()
}

pub fn default_broker() -> (r: String)
    ensures
        r@ == "paper"@,
{
    "paper".to_owned()
}

pub fn default_poll_secs() -> (r: u64)
    ensures
        r == 15,
{
    15
}

pub fn default_starting_cash() -> (r: i64)
    ensures
        r == 10_000_000_000_000,
{
    10_000_000_000_000
}

pub fn default_db_path() -> (r: String)
    ensures
        r@ == "b-rs.db"@,
{
    "b-rs.db".to_owned()
}

pub fn default_strategy_name() -> (r: String)
    ensures
        r@ == "sma_cross"@,
{
    "sma_cross".to_owned()
}

pub fn default_fast() -> (r: usize)
    ensures
        r == 5,
{
    5
}

pub fn default_slow() -> (r: usize)
    ensures
        r == 20,
{
    20
}

pub fn default_order_qty() -> (r: i64)
    ensures
        r == 1_000_000_000,
{
    1_000_000_000
}

pub fn default_rsi_period() -> (r: usize)
    ensures
        r == 14,
{
    14
}

pub fn default_rsi_buy_below() -> (r: i64)
    ensures
        r == 3_000_000_000,
{
    3_000_000_000
}

pub fn default_rsi_sell_above() -> (r: i64)
    ensures
        r == 7_000_000_000,
{
    7_000_000_000
}

pub fn default_momentum_window() -> (r: usize)
    ensures
        r == 20,
{
    20
}

pub fn default_max_order_value() -> (r: i64)
    ensures
        r == 1_000_000_000_000,
{
    1_000_000_000_000
}

pub fn default_max_position_value() -> (r: i64)
    ensures
        r == 2_500_000_000_000,
{
    2_500_000_000_000
}

pub fn default_max_orders_per_min() -> (r: u32)
    ensures
        r == 4,
{
    4
}

pub fn default_max_daily_loss() -> (r: i64)
    ensures
        r == 500_000_000_000,
{
    500_000_000_000
}

pub fn default_stop_loss_pct() -> (r: i64)
    ensures
        r == 800_000_000,
{
    800_000_000
}

pub fn default_commission_pct() -> (r: i64)
    ensures
        r == 15_000_000,
{
    15_000_000
}

pub fn default_slippage_pct() -> (r: i64)
    ensures
        r == 5_000_000,
{
    5_000_000
}

pub fn default_ibkr_base() -> (r: String)
    ensures
        r@ == "https://localhost:5000/v1/api"@,
{
    "https://localhost:5000/v1/api".to_owned()
}

pub fn default_revolutx_base() -> (r: String)
    ensures
        r@ == "https://revx.revolut.com/api/1.0"@,
{
    "https://revx.revolut.com/api/1.0".to_owned()
}

pub fn default_revolutx_quote() -> (r: String)
    ensures
        r@ == "USD"@,
{
    "USD".to_owned()
}

pub fn default_true() -> (r: bool)
    ensures
        r == true,
{
    true
}

pub fn default_nordnet_base() -> (r: String)
    ensures
        r@ == "https://www.nordnet.no/api/2"@,
{
    "https://www.nordnet.no/api/2".to_owned()
}

pub fn default_notify_provider() -> (r: String)
    ensures
        r@ == "ntfy"@,
{
    "ntfy".to_owned()
}

pub fn default_ntfy_server() -> (r: String)
    ensures
        r@ == "https://ntfy.sh"@,
{
    "https://ntfy.sh".to_owned()
}

pub fn default_nordnet_poll() -> (r: u64)
    ensures
        r == 300,
{
    300
}

pub fn default_paper() -> (r: String)
    ensures
        r@ == "paper"@,
{
    "paper".to_owned()
}

pub fn default_uno_x_hour() -> (r: u32)
    ensures
        r == 17,
{
    17
}

pub fn default_uno_x_provider() -> (r: String)
    ensures
        r@ == "ollama"@,
{
    "ollama".to_owned()
}

pub fn default_uno_x_passes() -> (r: u32)
    ensures
        r == 1,
{
    1
}

pub fn default_autopilot_day_loss() -> (r: i64)
    ensures
        r == 30_000_000_000,
{
    30_000_000_000
}

pub fn default_autopilot_cooldown() -> (r: u64)
    ensures
        r == 30,
{
    30
}

pub fn default_autopilot_symbol() -> (r: String)
    ensures
        r@ == "BTC-USD"@,
{
    "BTC-USD".to_owned()
}

pub fn default_autopilot_budget() -> (r: i64)
    ensures
        r == 100_000_000_000,
{
    100_000_000_000
}

pub fn default_autopilot_interval() -> (r: u64)
    ensures
        r == 60,
{
    60
}

pub fn default_autopilot_max_trades() -> (r: u32)
    ensures
        r == 4,
{
    4
}

pub fn default_morgan_provider() -> (r: String)
    ensures
        r@ == "anthropic"@,
{
    "anthropic".to_owned()
}

pub fn default_ollama_url() -> (r: String)
    ensures
        r@ == "http://localhost:11434"@,
{
    "http://localhost:11434".to_owned()
}

pub fn default_ollama_model() -> (r: String)
    ensures
        r@ == "llama3.1:8b"@,
{
    "llama3.1:8b".to_owned()
}

pub fn default_benchmark() -> (r: String)
    ensures
        r@ == "^OSEAX"@,
{
    "^OSEAX".to_owned()
}

pub fn default_limit_slippage() -> (r: i64)
    ensures
        r == 30_000_000,
{
    30_000_000
}

// ---------------------------------------------------------------------------
// The symbols of the autopilot
// ---------------------------------------------------------------------------

/// The texts trimmed, in order, without the empty ones and without those that
/// came before.
pub open spec fn rene(l: Seq<Seq<char>>) -> Seq<Seq<char>>
    decreases l.len(),
{
    if l.len() == 0 {
        Seq::empty()
    } else {
        let for_ = rene(l.drop_last());
        let s = text::trimmed(l.last());
        if s.len() == 0 || for_.contains(s) {
            for_
        } else {
            for_.push(s)
        }
    }
}

impl AutopilotCfg {
    /// The symbols that were written: the list, or the single one where the
    /// list is empty.
    pub open spec fn skrevne(&self) -> Seq<Seq<char>> {
        if self.symbols@.len() == 0 {
            seq![self.symbol@]
        } else {
            text::views(self.symbols@)
        }
    }

    /// The symbols that are traded.
    pub fn active_symbols(&self) -> (r: Vec<String>)
        ensures
            text::views(r@) == rene(self.skrevne()),
    {
        let mut ut: Vec<String> = Vec::new();
        assert(text::views(ut@) =~= Seq::<Seq<char>>::empty());
        if self.symbols.len() == 0 {
            let s: String = text_trim(self.symbol.as_str());
            let ghost alle = self.skrevne();
            proof {
                assert(alle.drop_last() =~= Seq::<Seq<char>>::empty());
                reveal_with_fuel(rene, 2);
            }
            if s.as_str().unicode_len() > 0 {
                ut.push(s);
                assert(text::views(ut@) =~= rene(alle));
            }
            return ut;
        }
        let ghost alle = text::views(self.symbols@);
        let mut i: usize = 0;
        while i < self.symbols.len()
            invariant
                i <= self.symbols@.len(),
                alle == text::views(self.symbols@),
                text::views(ut@) == rene(alle.take(i as int)),
            decreases self.symbols.len() - i,
        {
            let s: String = text_trim(self.symbols[i].as_str());
            let ghost for_ = ut@;
            proof {
                assert(alle.take(i + 1).drop_last() =~= alle.take(i as int));
                assert(alle.take(i + 1).last() == self.symbols@[i as int]@);
            }
            if s.as_str().unicode_len() > 0 && !holds(&ut, s.as_str()) {
                ut.push(s);
                assert(text::views(ut@) =~= text::views(for_).push(s@));
            }
            i += 1;
        }
        assert(alle.take(i as int) =~= alle);
        ut
    }
}

/// Nothing that is traded is empty, and nothing is traded twice.
pub proof fn law_symboler_rene(l: Seq<Seq<char>>)
    ensures
        forall|i: int| 0 <= i < rene(l).len() ==> (#[trigger] rene(l)[i]).len() > 0,
        rene(l).no_duplicates(),
        forall|s: Seq<char>| #[trigger] rene(l).contains(s) ==> exists|i: int|
            0 <= i < l.len() && text::trimmed(#[trigger] l[i]) == s,
    decreases l.len(),
{
    if l.len() > 0 {
        law_symboler_rene(l.drop_last());
        let for_ = rene(l.drop_last());
        let s = text::trimmed(l.last());
        assert forall|t: Seq<char>| #[trigger] rene(l).contains(t) implies exists|i: int|
            0 <= i < l.len() && text::trimmed(#[trigger] l[i]) == t by {
            if for_.contains(t) {
                let i = choose|i: int|
                    0 <= i < l.drop_last().len() && text::trimmed(#[trigger] l.drop_last()[i]) == t;
                assert(l[i] == l.drop_last()[i]);
            } else {
                assert(t == s) by {
                    let j = choose|j: int| 0 <= j < rene(l).len() && rene(l)[j] == t;
                    if j < for_.len() {
                        assert(for_[j] == t);
                    }
                }
                assert(l[l.len() - 1] == l.last());
            }
        }
    }
}

// ---------------------------------------------------------------------------
// Which settings are refused
// ---------------------------------------------------------------------------

impl Config {
    pub open spec fn live(&self) -> bool {
        self.mode@ == "live"@
    }

    /// The first thing that is wrong with the settings.
    pub open spec fn feil(&self) -> Option<Seq<char>> {
        if self.watchlist@.len() == 0 {
            Some("watchlist kan ikke være tom"@)
        } else if self.strategy.fast >= self.strategy.slow {
            Some("strategy.fast må være mindre enn strategy.slow"@)
        } else if self.live() && self.broker@ == "ibkr"@ && self.ibkr is None {
            Some("mode=live med broker=ibkr krever [ibkr]-seksjon"@)
        } else if self.live() && self.broker@ == "revolutx"@ && self.revolutx is None {
            Some("mode=live med broker=revolutx krever [revolutx]-seksjon"@)
        } else if self.broker@ == "multi"@ {
            self.multifeil()
        } else {
            None
        }
    }

    /// The first thing that is wrong where two brokers are used at a time.
    pub open spec fn multifeil(&self) -> Option<Seq<char>> {
        let krypto = self.multi.crypto@;
        let aksjer = self.multi.stocks@;
        if krypto == "paper"@ && aksjer == "paper"@ {
            Some(
                "[multi] med både crypto=paper og stocks=paper er det samme som broker=\"paper\" — bruk det i stedet"@,
            )
        } else if krypto != "paper"@ && krypto != "revolutx"@ {
            Some("[multi] crypto må være \"paper\" eller \"revolutx\""@)
        } else if aksjer != "paper"@ && aksjer != "ibkr"@ {
            Some("[multi] stocks må være \"paper\" eller \"ibkr\""@)
        } else if self.live() && krypto == "revolutx"@ && self.revolutx is None {
            Some("[multi] crypto=revolutx i live-modus krever [revolutx]-seksjon"@)
        } else if self.live() && aksjer == "ibkr"@ && self.ibkr is None {
            Some("[multi] stocks=ibkr i live-modus krever [ibkr]-seksjon"@)
        } else {
            None
        }
    }

    /// Whether real orders are meant.
    pub fn is_live(&self) -> (r: bool)
        ensures
            r == self.live(),
    {
        same(self.mode.as_str(), "live")
    }

    fn sjekk_multi(&self) -> (r: Option<&'static str>)
        ensures
            r is Some == self.multifeil() is Some,
            r matches Some(t) ==> self.multifeil() == Some(t@),
    {
        let krypto: &str = self.multi.crypto.as_str();
        let aksjer: &str = self.multi.stocks.as_str();
        if same(krypto, "paper") && same(aksjer, "paper") {
            Some(
                "[multi] med både crypto=paper og stocks=paper er det samme som broker=\"paper\" — bruk det i stedet",
            )
        } else if !same(krypto, "paper") && !same(krypto, "revolutx") {
            Some("[multi] crypto må være \"paper\" eller \"revolutx\"")
        } else if !same(aksjer, "paper") && !same(aksjer, "ibkr") {
            Some("[multi] stocks må være \"paper\" eller \"ibkr\"")
        } else if self.is_live() && same(krypto, "revolutx") && self.revolutx.is_none() {
            Some("[multi] crypto=revolutx i live-modus krever [revolutx]-seksjon")
        } else if self.is_live() && same(aksjer, "ibkr") && self.ibkr.is_none() {
            Some("[multi] stocks=ibkr i live-modus krever [ibkr]-seksjon")
        } else {
            None
        }
    }

    /// Settings as they were read from the file, or what is wrong with them.
    pub fn parse(lest: Config) -> (r: Result<Config, &'static str>)
        ensures
            (match lest.feil() {
                Some(t) => r is Err && r->Err_0@ == t,
                None => r == Ok::<Config, &'static str>(lest),
            }),
    {
        if lest.watchlist.len() == 0 {
            return Err("watchlist kan ikke være tom");
        }
        if lest.strategy.fast >= lest.strategy.slow {
            return Err("strategy.fast må være mindre enn strategy.slow");
        }
        if lest.is_live() && same(lest.broker.as_str(), "ibkr") && lest.ibkr.is_none() {
            return Err("mode=live med broker=ibkr krever [ibkr]-seksjon");
        }
        if lest.is_live() && same(lest.broker.as_str(), "revolutx") && lest.revolutx.is_none() {
            return Err("mode=live med broker=revolutx krever [revolutx]-seksjon");
        }
        if same(lest.broker.as_str(), "multi") {
            if let Some(t) = lest.sjekk_multi() {
                return Err(t);
            }
        }
        Ok(lest)
    }
}

/// Settings that pass hold what real trading at their brokers needs: the
/// section of every broker that real orders would go to.
pub proof fn law_live_har_seksjonene(c: Config)
    requires
        c.feil() is None,
        c.live(),
    ensures
        c.broker@ == "ibkr"@ ==> c.ibkr is Some,
        c.broker@ == "revolutx"@ ==> c.revolutx is Some,
        c.broker@ == "multi"@ && c.multi.crypto@ == "revolutx"@ ==> c.revolutx is Some,
        c.broker@ == "multi"@ && c.multi.stocks@ == "ibkr"@ ==> c.ibkr is Some,
{
    reveal_strlit("ibkr");
    reveal_strlit("multi");
    reveal_strlit("paper");
    reveal_strlit("revolutx");
    assert("ibkr"@.len() == 4 && "multi"@.len() == 5 && "revolutx"@.len() == 8);
    assert("multi"@[0] != "paper"@[0]);
}

/// Every symbol that was written, however often and with whatever blanks
/// around it, is among those that are used.
pub proof fn law_ingen_symboler_glemmes(l: Seq<Seq<char>>, i: int)
    requires
        0 <= i < l.len(),
        text::trimmed(l[i]).len() > 0,
    ensures
        rene(l).contains(text::trimmed(l[i])),
    decreases l.len(),
{
    let for_ = rene(l.drop_last());
    let s = text::trimmed(l.last());
    let x = text::trimmed(l[i]);
    if i < l.len() - 1 {
        law_ingen_symboler_glemmes(l.drop_last(), i);
        let k = choose|k: int| 0 <= k < for_.len() && for_[k] == x;
        assert(rene(l)[k] == x);
    } else if !for_.contains(s) {
        assert(rene(l)[for_.len() as int] == x);
    }
}

/// Settings pass exactly where something is watched, the short average is
/// shorter than the long one, every broker of real orders has its section, and
/// two brokers at a time are two that are known, not both of paper.
pub proof fn law_gyldige_innstillinger(c: Config)
    ensures
        c.feil() is None <==> {
            &&& c.watchlist@.len() > 0
            &&& c.strategy.fast < c.strategy.slow
            &&& c.mode@ == "live"@ && c.broker@ == "ibkr"@ ==> c.ibkr is Some
            &&& c.mode@ == "live"@ && c.broker@ == "revolutx"@ ==> c.revolutx is Some
            &&& c.broker@ == "multi"@ ==> {
                &&& c.multi.crypto@ == "paper"@ || c.multi.crypto@ == "revolutx"@
                &&& c.multi.stocks@ == "paper"@ || c.multi.stocks@ == "ibkr"@
                &&& c.multi.crypto@ != "paper"@ || c.multi.stocks@ != "paper"@
                &&& c.mode@ == "live"@ && c.multi.crypto@ == "revolutx"@ ==> c.revolutx is Some
                &&& c.mode@ == "live"@ && c.multi.stocks@ == "ibkr"@ ==> c.ibkr is Some
            }
        },
{
    reveal_strlit("ibkr");
    reveal_strlit("multi");
    reveal_strlit("paper");
    reveal_strlit("revolutx");
    assert("ibkr"@.len() == 4 && "multi"@.len() == 5 && "paper"@.len() == 5 && "revolutx"@.len() == 8);
    assert("multi"@[0] == 'm' && "paper"@[0] == 'p');
}

}
