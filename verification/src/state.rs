//! What the screen shows, and the flags between screen and engine.
use vstd::prelude::*;

use crate::belop;
use crate::calendar::CalendarEvent;
use crate::config::{BacktestCfg, StrategyCfg};
use crate::market::MarketOverview;
use crate::tabell::Tabell;
use crate::text;
use crate::text::{copy_text, holds, push_text, string_of, two};
use crate::types::{Candle, ExternalPosition, Order, OrderStatus, Position, Quote, Side};

verus! {

/// Flags that the screen sets and the engine reads.
#[derive(Debug, Clone, Copy, PartialEq, Eq, Structural)]
pub struct Flags {
    pub quit: bool,
    /// Kill switch: all trading stops and open orders are cancelled.
    pub killed: bool,
    /// The strategy rests, but prices are still fetched.
    pub paused: bool,
}

impl Default for Flags {
    fn default() -> (r: Flags)
        ensures
            !r.quit,
            !r.killed,
            !r.paused,
    {
        Flags { quit: false, killed: false, paused: false }
    }
}

impl Flags {
    pub fn quit(&self) -> (r: bool)
        ensures
            r == self.quit,
    {
        self.quit
    }

    pub fn killed(&self) -> (r: bool)
        ensures
            r == self.killed,
    {
        self.killed
    }

    pub fn paused(&self) -> (r: bool)
        ensures
            r == self.paused,
    {
        self.paused
    }

    /// What the screen says of the trading.
    pub fn status(&self) -> (r: &'static str)
        ensures
            r@ == (if self.killed {
                "STOPPET"@
            } else if self.paused {
                "PAUSE"@
            } else {
                "AKTIV"@
            }),
    {
        if self.killed {
            "STOPPET"
        } else if self.paused {
            "PAUSE"
        } else {
            "AKTIV"
        }
    }
}

/// An order that waits for a price: a purchase for the price to fall to the
/// level, a sale for it to rise to it. The level is in the currency of the
/// instrument, the amount in that of the account.
#[derive(Debug)]
pub struct LimitOrder {
    pub symbol: String,
    pub side: Side,
    /// How many; 0 where the order is for an amount.
    pub qty: i64,
    /// For how much; 0 where the order is for a number.
    pub amount_kr: i64,
    pub level: i64,
}

/// A fixed purchase on a fixed day of the month.
#[derive(Debug)]
pub struct SavingsPlan {
    pub symbol: String,
    pub amount_kr: i64,
    /// The day of the month, 1 to 28.
    pub day: u32,
    /// The month when it was last carried out, `2026-07`; empty: never.
    pub last_run: String,
}

/// One piece of news.
#[derive(Debug)]
pub struct NewsItem {
    pub title: String,
    pub publisher: String,
    pub url: String,
    /// When it was published, in seconds since 1970.
    pub ts: i64,
}

/// An alarm on a price.
#[derive(Debug)]
pub struct Alarm {
    pub symbol: String,
    pub level: i64,
    /// Whether it goes off above the level; else below.
    pub above: bool,
    pub triggered: bool,
}

/// One line of the history of orders, as it is shown.
#[derive(Debug)]
pub struct TxRow {
    pub ts: String,
    pub symbol: String,
    pub side: String,
    pub qty: i64,
    pub price: i64,
    pub status: String,
    pub broker: String,
    pub note: String,
}

/// Everything the screen shows. The engine writes, the screen reads. Times are
/// in seconds since 1970.
#[derive(Debug)]
pub struct UiState {
    pub mode: String,
    pub broker_name: String,
    pub cash: i128,
    pub equity: i128,
    pub drawdown: i128,
    /// The accounts of the broker: name, cash and currency.
    pub accounts: Vec<(String, i128, String)>,
    /// The currency of the cash; empty: that of the account.
    pub cash_currency: String,
    pub quotes: Tabell<Quote>,
    /// Prices by symbol, the oldest first.
    pub history: Tabell<Vec<(i64, i64)>>,
    pub positions: Vec<Position>,
    pub nordnet_positions: Vec<ExternalPosition>,
    pub nordnet_enabled: bool,
    /// The newest first.
    pub orders: Vec<Order>,
    /// The newest first.
    pub logs: Vec<(i64, String)>,
    pub last_tick: Option<i64>,
    pub equity_history: Vec<(i64, i128)>,
    /// Orders of the user, for the engine to carry out.
    pub manual_orders: Vec<(String, Side, i64)>,
    pub sma_windows: (usize, usize),
    pub candles: Tabell<Vec<Candle>>,
    pub candles_intraday: Tabell<Vec<Candle>>,
    pub strategy_name: String,
    /// The strategy that the user wants instead.
    pub strategy_request: Option<String>,
    pub strategy_cfg: StrategyCfg,
    pub backtest_cfg: BacktestCfg,
    pub watchlist: Vec<String>,
    pub market: MarketOverview,
    pub start_cash: i128,
    /// Dividends per share over a year.
    pub dividends: Tabell<i64>,
    /// The newest first.
    pub transactions: Vec<TxRow>,
    pub calendar: Vec<CalendarEvent>,
    pub calendar_note: Option<String>,
    pub alarms: Vec<Alarm>,
    /// The strategy of a symbol, where it is another than the usual.
    pub symbol_strategy: Tabell<String>,
    pub fx_rates: Tabell<i64>,
    pub poll_secs: u64,
    pub log_path: Option<String>,
    /// Small cards: when each goes away, and what it says.
    pub toasts: Vec<(i64, String)>,
    /// Symbol, description and kind.
    pub search_results: Vec<(String, String, String)>,
    pub search_pending: bool,
    /// A newer version and where to get it.
    pub update_available: Option<(String, String)>,
    pub morgan_report: Option<String>,
    pub morgan_error: Option<String>,
    pub morgan_pending: bool,
    pub limit_orders: Vec<LimitOrder>,
    pub savings_plans: Vec<SavingsPlan>,
    pub news_symbol: String,
    pub news: Vec<NewsItem>,
    pub news_pending: bool,
    /// Number, time and title of the reports.
    pub morgan_archive: Vec<(i64, String, String)>,
    pub autopilot_status: Option<String>,
    pub autopilot_journal: Vec<String>,
    pub strategy_status: Tabell<String>,
    pub equity_daily: Vec<(i64, i128)>,
    pub benchmark: Vec<(i64, i64)>,
    pub benchmark_name: String,
}

// ---------------------------------------------------------------------------
// Lists that forget
// ---------------------------------------------------------------------------

/// The last `n` of a list.
pub open spec fn siste<T>(l: Seq<T>, n: nat) -> Seq<T> {
    if l.len() <= n {
        l
    } else {
        l.skip(l.len() - n)
    }
}

/// The first `n` of a list.
pub open spec fn forste<T>(l: Seq<T>, n: nat) -> Seq<T> {
    if l.len() <= n {
        l
    } else {
        l.take(n as int)
    }
}

/// Keeps the last `n` of a list.
pub fn behold_siste<T>(l: &mut Vec<T>, n: usize)
    ensures
        final(l)@ == siste(old(l)@, n as nat),
{
    let ghost alle = l@;
    assert(alle.skip(0) =~= alle);
    while l.len() > n
        invariant
            l@.len() <= alle.len(),
            l@ == alle.skip(alle.len() - l@.len()),
            alle.len() <= n ==> l@ == alle,
            alle.len() > n ==> l@.len() >= n,
        decreases l@.len(),
    {
        let ghost k = alle.len() - l@.len();
        l.remove(0);
        assert(l@ =~= alle.skip(k + 1));
    }
}

/// Keeps the first `n` of a list.
pub fn behold_forste<T>(l: &mut Vec<T>, n: usize)
    ensures
        final(l)@ == forste(old(l)@, n as nat),
{
    let ghost alle = l@;
    assert(alle.take(alle.len() as int) =~= alle);
    while l.len() > n
        invariant
            l@.len() <= alle.len(),
            l@ == alle.take(l@.len() as int),
            alle.len() <= n ==> l@ == alle,
            alle.len() > n ==> l@.len() >= n,
        decreases l@.len(),
    {
        let ghost k = l@.len();
        l.pop();
        assert(l@ =~= alle.take(k - 1));
    }
}

/// The prices of a history.
pub open spec fn priser(h: Seq<(i64, i64)>) -> Seq<i64> {
    h.map_values(|p: (i64, i64)| p.1)
}

pub fn hent_priser(h: &Vec<(i64, i64)>) -> (r: Vec<i64>)
    ensures
        r@ == priser(h@),
{
    let mut ut: Vec<i64> = Vec::new();
    let mut i: usize = 0;
    while i < h.len()
        invariant
            i <= h@.len(),
            ut@ =~= priser(h@).take(i as int),
        decreases h.len() - i,
    {
        ut.push(h[i].1);
        i += 1;
    }
    assert(ut@ =~= priser(h@));
    ut
}

/// The closing prices of candles.
pub open spec fn sluttkurser(l: Seq<Candle>) -> Seq<i64> {
    l.map_values(|c: Candle| c.close)
}

pub fn hent_sluttkurser(l: &Vec<Candle>) -> (r: Vec<i64>)
    ensures
        r@ == sluttkurser(l@),
{
    let mut ut: Vec<i64> = Vec::new();
    let mut i: usize = 0;
    while i < l.len()
        invariant
            i <= l@.len(),
            ut@ =~= sluttkurser(l@).take(i as int),
        decreases l.len() - i,
    {
        ut.push(l[i].close);
        i += 1;
    }
    assert(ut@ =~= sluttkurser(l@));
    ut
}

pub open spec fn meldinger(l: Seq<(i64, String)>) -> Seq<(i64, Seq<char>)> {
    Seq::new(l.len(), |i: int| (l[i].0, l[i].1@))
}

/// How long a card stays, in seconds.
pub const TOASTTID: i64 = 6;

pub const MEST_TOASTS: usize = 5;

pub const MEST_TRANSAKSJONER: usize = 1000;

pub const MEST_PUNKTER: usize = 5000;

pub const MEST_LOGG: usize = 200;

pub const MEST_ORDRER: usize = 100;

/// The line of a card on an order.
pub open spec fn ordrekort(o: Order) -> Seq<char> {
    (if o.status == OrderStatus::Rejected {
        "❌ "@
    } else {
        "✅ "@
    }) + (o.side.tekst_spec() + (" "@ + (o.symbol@ + (" x"@ + (belop::kort_tekst(o.qty as int) + (" @ "@
        + belop::belop_tekst(o.avg_price as int, 2)))))))
}

fn skriv_ordrekort(o: &Order) -> (r: String)
    ensures
        r@ == ordrekort(*o),
{
    let mut ut: Vec<char> = Vec::new();
    let ikon: &str = match o.status {
        OrderStatus::Rejected => "❌ ",
        _ => "✅ ",
    };
    push_text(&mut ut, ikon);
    let ghost a = ut@;
    let mut hale: Vec<char> = Vec::new();
    push_text(&mut hale, o.side.tekst());
    push_text(&mut hale, " ");
    push_text(&mut hale, o.symbol.as_str());
    push_text(&mut hale, " x");
    let q: String = belop::kort(o.qty);
    push_text(&mut hale, q.as_str());
    push_text(&mut hale, " @ ");
    let p: String = belop::som_tekst(o.avg_price, 2);
    push_text(&mut hale, p.as_str());
    assert(hale@ =~= o.side.tekst_spec() + (" "@ + (o.symbol@ + (" x"@ + (belop::kort_tekst(o.qty as int) + (" @ "@
        + belop::belop_tekst(o.avg_price as int, 2)))))));
    text::push_all(&mut ut, hale.as_slice());
    assert(ut@ =~= ordrekort(*o));
    string_of(ut.as_slice())
}

impl UiState {
    /// Whether every table has one row for each key.
    pub open spec fn gyldig(&self) -> bool {
        self.quotes.ordnet() && self.history.ordnet() && self.candles.ordnet() && self.candles_intraday.ordnet()
            && self.dividends.ordnet() && self.symbol_strategy.ordnet() && self.fx_rates.ordnet()
            && self.strategy_status.ordnet()
    }

    /// An empty screen.
    pub fn new(mode: &str, broker_name: &str, nordnet_enabled: bool) -> (r: UiState)
        ensures
            r.gyldig(),
            r.mode@ == mode@,
            r.broker_name@ == broker_name@,
            r.nordnet_enabled == nordnet_enabled,
            r.cash == 0 && r.equity == 0 && r.drawdown == 0 && r.start_cash == 0,
            r.quotes@ == Map::<Seq<char>, Quote>::empty(),
            r.history@ == Map::<Seq<char>, Vec<(i64, i64)>>::empty(),
            r.fx_rates@ == Map::<Seq<char>, i64>::empty(),
            r.positions@.len() == 0 && r.orders@.len() == 0 && r.logs@.len() == 0 && r.toasts@.len() == 0,
            r.watchlist@.len() == 0 && r.alarms@.len() == 0 && r.limit_orders@.len() == 0,
            r.savings_plans@.len() == 0 && r.manual_orders@.len() == 0 && r.transactions@.len() == 0,
            r.sma_windows == (5usize, 20usize),
            r.poll_secs == 15,
            r.last_tick is None,
            r.strategy_request is None,
            r.cash_currency@ == ""@ && r.strategy_name@ == ""@ && r.news_symbol@ == ""@ && r.benchmark_name@ == ""@,
            r.accounts@.len() == 0 && r.nordnet_positions@.len() == 0 && r.equity_history@.len() == 0,
            r.candles@ == Map::<Seq<char>, Vec<Candle>>::empty(),
            r.candles_intraday@ == Map::<Seq<char>, Vec<Candle>>::empty(),
            r.strategy_cfg.name@ == "sma_cross"@ && r.strategy_cfg.fast == 5 && r.strategy_cfg.slow == 20,
            r.strategy_cfg.order_value == 0 && r.strategy_cfg.order_qty == 1_000_000_000,
            r.strategy_cfg.timeframe_min == 0 && r.strategy_cfg.momentum_window == 20,
            r.strategy_cfg.rsi_period == 14 && r.strategy_cfg.rsi_buy_below == 3_000_000_000,
            r.strategy_cfg.rsi_sell_above == 7_000_000_000,
            r.backtest_cfg.commission_pct == 15_000_000 && r.backtest_cfg.slippage_pct == 5_000_000,
            r.market.most_traded@.len() == 0 && r.market.day_trade@.len() == 0 && r.market.funds@.len() == 0,
            r.market.week@.len() == 0 && r.market.updated is None,
            r.dividends@ == Map::<Seq<char>, i64>::empty(),
            r.symbol_strategy@ == Map::<Seq<char>, String>::empty(),
            r.strategy_status@ == Map::<Seq<char>, String>::empty(),
            r.calendar@.len() == 0 && r.calendar_note is None && r.log_path is None,
            r.search_results@.len() == 0 && !r.search_pending && r.update_available is None,
            r.morgan_report is None && r.morgan_error is None && !r.morgan_pending && r.morgan_archive@.len() == 0,
            r.news@.len() == 0 && !r.news_pending,
            r.autopilot_status is None && r.autopilot_journal@.len() == 0,
            r.equity_daily@.len() == 0 && r.benchmark@.len() == 0,
    {
        UiState {
            mode: mode.to_owned(),
            broker_name: broker_name.to_owned(),
            cash: 0,
            equity: 0,
            drawdown: 0,
            accounts: Vec::new(),
            cash_currency: "".to_owned(),
            quotes: Tabell::ny(),
            history: Tabell::ny(),
            positions: Vec::new(),
            nordnet_positions: Vec::new(),
            nordnet_enabled,
            orders: Vec::new(),
            logs: Vec::new(),
            last_tick: None,
            equity_history: Vec::new(),
            manual_orders: Vec::new(),
            sma_windows: (5, 20),
            candles: Tabell::ny(),
            candles_intraday: Tabell::ny(),
            strategy_name: "".to_owned(),
            strategy_request: None,
            strategy_cfg: StrategyCfg::default(),
            backtest_cfg: BacktestCfg::default(),
            watchlist: Vec::new(),
            market: MarketOverview::default(),
            start_cash: 0,
            dividends: Tabell::ny(),
            transactions: Vec::new(),
            calendar: Vec::new(),
            calendar_note: None,
            alarms: Vec::new(),
            symbol_strategy: Tabell::ny(),
            fx_rates: Tabell::ny(),
            poll_secs: 15,
            log_path: None,
            toasts: Vec::new(),
            search_results: Vec::new(),
            search_pending: false,
            update_available: None,
            morgan_report: None,
            morgan_error: None,
            morgan_pending: false,
            limit_orders: Vec::new(),
            savings_plans: Vec::new(),
            news_symbol: "".to_owned(),
            news: Vec::new(),
            news_pending: false,
            morgan_archive: Vec::new(),
            autopilot_status: None,
            autopilot_journal: Vec::new(),
            strategy_status: Tabell::ny(),
            equity_daily: Vec::new(),
            benchmark: Vec::new(),
            benchmark_name: "".to_owned(),
        }
    }

    /// Shows a small card for six seconds; only the last five stay.
    pub fn toast(&mut self, msg: &str, naa: i64)
        requires
            naa <= i64::MAX - TOASTTID,
        ensures
            meldinger(final(self).toasts@) == siste(
                meldinger(old(self).toasts@).push(((naa + TOASTTID) as i64, msg@)),
                MEST_TOASTS as nat,
            ),
            *final(self) == (UiState { toasts: final(self).toasts, ..*old(self) }),
    {
        let ghost for_ = meldinger(self.toasts@);
        self.toasts.push((naa + TOASTTID, msg.to_owned()));
        let ghost alle = self.toasts@;
        assert(meldinger(alle) =~= for_.push(((naa + TOASTTID) as i64, msg@)));
        behold_siste(&mut self.toasts, MEST_TOASTS);
        assert(meldinger(self.toasts@) =~= siste(meldinger(alle), MEST_TOASTS as nat));
    }

    /// Drops the cards whose time is up.
    pub fn rydd_toasts(&mut self, naa: i64)
        ensures
            meldinger(final(self).toasts@) == levende(meldinger(old(self).toasts@), naa),
            *final(self) == (UiState { toasts: final(self).toasts, ..*old(self) }),
    {
        let ghost alle = meldinger(self.toasts@);
        let mut ut: Vec<(i64, String)> = Vec::new();
        let mut i: usize = 0;
        assert(alle.take(0) =~= Seq::empty());
        assert(meldinger(ut@) =~= Seq::empty());
        while i < self.toasts.len()
            invariant
                i <= self.toasts@.len(),
                alle == meldinger(self.toasts@),
                *self == *old(self),
                meldinger(ut@) == levende(alle.take(i as int), naa),
            decreases self.toasts.len() - i,
        {
            proof {
                assert(alle.take(i + 1).drop_last() =~= alle.take(i as int));
                assert(alle.take(i + 1).last() == (self.toasts@[i as int].0, self.toasts@[i as int].1@));
            }
            let ghost for_ = meldinger(ut@);
            if self.toasts[i].0 > naa {
                let t: String = copy_text(&self.toasts[i].1);
                ut.push((self.toasts[i].0, t));
                assert(meldinger(ut@) =~= for_.push((self.toasts@[i as int].0, self.toasts@[i as int].1@)));
            }
            i += 1;
        }
        assert(alle.take(i as int) =~= alle);
        self.toasts = ut;
    }

    /// Puts an order into the history, which holds a thousand.
    pub fn push_transaction(&mut self, tx: TxRow)
        ensures
            final(self).transactions@ == forste(
                old(self).transactions@.insert(0, tx),
                MEST_TRANSAKSJONER as nat,
            ),
            *final(self) == (UiState { transactions: final(self).transactions, ..*old(self) }),
    {
        self.transactions.insert(0, tx);
        behold_forste(&mut self.transactions, MEST_TRANSAKSJONER);
    }

    /// Writes a line into the log, which holds two hundred, the newest first.
    pub fn log(&mut self, msg: &str, naa: i64)
        ensures
            meldinger(final(self).logs@) == forste(
                meldinger(old(self).logs@).insert(0, (naa, msg@)),
                MEST_LOGG as nat,
            ),
            *final(self) == (UiState { logs: final(self).logs, ..*old(self) }),
    {
        let ghost for_ = meldinger(self.logs@);
        self.logs.insert(0, (naa, msg.to_owned()));
        let ghost alle = self.logs@;
        assert(meldinger(alle) =~= for_.insert(0, (naa, msg@)));
        behold_forste(&mut self.logs, MEST_LOGG);
        assert(meldinger(self.logs@) =~= forste(meldinger(alle), MEST_LOGG as nat));
    }

    /// Puts a symbol on the list, unless it is there, and says so in the log.
    pub fn follow(&mut self, symbol: &str, naa: i64)
        ensures
            text::views(old(self).watchlist@).contains(symbol@) ==> *final(self) == *old(self),
            !text::views(old(self).watchlist@).contains(symbol@) ==> text::views(final(self).watchlist@)
                == text::views(old(self).watchlist@).push(symbol@) && meldinger(final(self).logs@) == forste(
                meldinger(old(self).logs@).insert(0, (naa, symbol@ + " lagt til i watchlisten."@)),
                MEST_LOGG as nat,
            ),
            *final(self) == (UiState {
                watchlist: final(self).watchlist,
                logs: final(self).logs,
                ..*old(self)
            }),
    {
        if !holds(&self.watchlist, symbol) {
            let ghost for_ = text::views(self.watchlist@);
            self.watchlist.push(symbol.to_owned());
            assert(text::views(self.watchlist@) =~= for_.push(symbol@));
            let m: String = two(symbol, " lagt til i watchlisten.");
            self.log(m.as_str(), naa);
        }
    }

    /// Takes a symbol off the list.
    pub fn unfollow(&mut self, symbol: &str)
        ensures
            text::views(final(self).watchlist@) == uten(text::views(old(self).watchlist@), symbol@),
            *final(self) == (UiState { watchlist: final(self).watchlist, ..*old(self) }),
    {
        let ghost alle = text::views(self.watchlist@);
        let mut ut: Vec<String> = Vec::new();
        let mut i: usize = 0;
        assert(alle.take(0) =~= Seq::empty());
        assert(text::views(ut@) =~= Seq::empty());
        while i < self.watchlist.len()
            invariant
                i <= self.watchlist@.len(),
                alle == text::views(self.watchlist@),
                *self == *old(self),
                text::views(ut@) == uten(alle.take(i as int), symbol@),
            decreases self.watchlist.len() - i,
        {
            proof {
                assert(alle.take(i + 1).drop_last() =~= alle.take(i as int));
                assert(alle.take(i + 1).last() == self.watchlist@[i as int]@);
            }
            let ghost for_ = text::views(ut@);
            if !text::same(self.watchlist[i].as_str(), symbol) {
                ut.push(copy_text(&self.watchlist[i]));
                assert(text::views(ut@) =~= for_.push(self.watchlist@[i as int]@));
            }
            i += 1;
        }
        assert(alle.take(i as int) =~= alle);
        self.watchlist = ut;
    }

    /// Puts the equity of a moment behind the others.
    pub fn push_equity(&mut self, ts: i64, equity: i128)
        ensures
            final(self).equity_history@ == siste(old(self).equity_history@.push((ts, equity)), MEST_PUNKTER as nat),
            *final(self) == (UiState { equity_history: final(self).equity_history, ..*old(self) }),
    {
        self.equity_history.push((ts, equity));
        behold_siste(&mut self.equity_history, MEST_PUNKTER);
    }

    /// The prices of a symbol.
    pub open spec fn kurser(&self, symbol: Seq<char>) -> Seq<(i64, i64)> {
        if self.history@.dom().contains(symbol) {
            self.history@[symbol]@
        } else {
            Seq::empty()
        }
    }

    /// Puts a price behind the others of its symbol.
    pub fn push_price(&mut self, symbol: &str, ts: i64, price: i64)
        requires
            old(self).gyldig(),
        ensures
            final(self).gyldig(),
            final(self).kurser(symbol@) == siste(old(self).kurser(symbol@).push((ts, price)), MEST_PUNKTER as nat),
            forall|s: Seq<char>| s != symbol@ ==> #[trigger] final(self).kurser(s) == old(self).kurser(s),
            *final(self) == (UiState { history: final(self).history, ..*old(self) }),
    {
        let mut h: Vec<(i64, i64)> = match self.history.ta(symbol) {
            Some(h) => h,
            None => Vec::new(),
        };
        h.push((ts, price));
        behold_siste(&mut h, MEST_PUNKTER);
        self.history.sett(symbol, h);
    }

    /// Shows an order: on a card, and first in the list, which holds a hundred.
    pub fn push_order(&mut self, order: Order, naa: i64)
        requires
            naa <= i64::MAX - TOASTTID,
        ensures
            meldinger(final(self).toasts@) == siste(
                meldinger(old(self).toasts@).push(((naa + TOASTTID) as i64, ordrekort(order))),
                MEST_TOASTS as nat,
            ),
            final(self).orders@ == forste(old(self).orders@.insert(0, order), MEST_ORDRER as nat),
            *final(self) == (UiState { toasts: final(self).toasts, orders: final(self).orders, ..*old(self) }),
    {
        let kort: String = skriv_ordrekort(&order);
        self.toast(kort.as_str(), naa);
        self.orders.insert(0, order);
        behold_forste(&mut self.orders, MEST_ORDRER);
    }
}

/// The cards whose time is not up.
pub open spec fn levende(l: Seq<(i64, Seq<char>)>, naa: i64) -> Seq<(i64, Seq<char>)>
    decreases l.len(),
{
    if l.len() == 0 {
        l
    } else if l.last().0 > naa {
        levende(l.drop_last(), naa).push(l.last())
    } else {
        levende(l.drop_last(), naa)
    }
}

/// A list without the occurrences of a text.
pub open spec fn uten(l: Seq<Seq<char>>, s: Seq<char>) -> Seq<Seq<char>>
    decreases l.len(),
{
    if l.len() == 0 {
        l
    } else if l.last() == s {
        uten(l.drop_last(), s)
    } else {
        uten(l.drop_last(), s).push(l.last())
    }
}

/// What is taken off the list is off it, and what else was on it still is.
pub proof fn law_uten(l: Seq<Seq<char>>, s: Seq<char>)
    ensures
        !uten(l, s).contains(s),
        forall|x: Seq<char>| x != s && #[trigger] l.contains(x) ==> uten(l, s).contains(x),
    decreases l.len(),
{
    if l.len() > 0 {
        let d = l.drop_last();
        law_uten(d, s);
        let u = uten(d, s);
        if l.last() != s {
            assert(!u.push(l.last()).contains(s)) by {
                if u.push(l.last()).contains(s) {
                    let i = choose|i: int| 0 <= i < u.len() + 1 && u.push(l.last())[i] == s;
                    assert(u[i] == s);
                }
            }
        }
        assert forall|x: Seq<char>| x != s && #[trigger] l.contains(x) implies uten(l, s).contains(x) by {
            let i = choose|i: int| 0 <= i < l.len() && l[i] == x;
            if i < d.len() {
                assert(d[i] == x);
                assert(d.contains(x));
                let j = choose|j: int| 0 <= j < u.len() && u[j] == x;
                if l.last() != s {
                    assert(u.push(l.last())[j] == x);
                }
            } else {
                assert(u.push(l.last())[u.len() as int] == x);
            }
        }
    }
}

/// A list that forgets never grows past its bound, and keeps the newest.
pub proof fn law_lister_glemmer<T>(l: Seq<T>, x: T, n: nat)
    requires
        n > 0,
    ensures
        siste(l.push(x), n).len() <= n,
        siste(l.push(x), n).last() == x,
        forste(l.insert(0, x), n).len() <= n,
        forste(l.insert(0, x), n)[0] == x,
{
}

/// The cards left are those whose time has not come, in their order.
pub proof fn law_levende_kort(l: Seq<(i64, Seq<char>)>, naa: i64)
    ensures
        levende(l, naa) == l.filter(|k: (i64, Seq<char>)| naa < k.0),
    decreases l.len(),
{
    reveal(Seq::filter);
    if l.len() > 0 {
        law_levende_kort(l.drop_last(), naa);
    }
}

/// Taking a text out of a list leaves all the others, in their order.
pub proof fn law_uten_er_resten(l: Seq<Seq<char>>, s: Seq<char>)
    ensures
        uten(l, s) == l.filter(|x: Seq<char>| x != s),
    decreases l.len(),
{
    reveal(Seq::filter);
    if l.len() > 0 {
        law_uten_er_resten(l.drop_last(), s);
    }
}

/// A list that is cut keeps its end or its beginning, whole where there is
/// room.
pub proof fn law_kuttet<T>(l: Seq<T>, n: nat)
    ensures
        siste(l, n).is_suffix_of(l),
        forste(l, n).is_prefix_of(l),
        l.len() <= n ==> siste(l, n) == l && forste(l, n) == l,
        l.len() > n ==> siste(l, n).len() == n && forste(l, n).len() == n,
{
}

}
