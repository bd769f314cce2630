//! The engine: prices in, decisions out. What it fetches and sends is done by
//! its caller, one step at a time.
use vstd::prelude::*;

pub mod ordrer;
pub mod rapport;
pub mod tikk;
pub mod vakt;

use crate::belop;
use crate::broker::multi;
use crate::broker::paper;
use crate::config::Config;
use crate::marketdata::KursSyn;
use crate::risk::RiskManager;
use crate::strategy;
use crate::strategy::Strategy;
use crate::tabell::Tabell;
use crate::text;
use crate::text::{copy_text, holds, same, three, two};
use crate::types;
use crate::types::{Position, PosisjonSyn, Quote, Side};

verus! {

/// The state that the engine keeps from tick to tick. Times are in nanoseconds
/// of a clock that never goes back.
#[derive(Debug)]
pub struct Engine {
    pub cfg: Config,
    /// The strategies in use, by name.
    pub strategies: Tabell<Strategy>,
    /// The pairs of strategy and symbol that past prices have been given to.
    pub strategy_seeded: Vec<(String, String)>,
    pub risk: RiskManager,
    pub was_killed: bool,
    /// The symbols whose protective sale is under way.
    pub protected: Vec<String>,
    /// The highest price of each position since it was bought.
    pub peaks: Tabell<i64>,
    /// The rate of each currency, and when it was fetched.
    pub fx: Tabell<(i64, u64)>,
    /// The currencies whose rate could not be fetched.
    pub fx_failed: Vec<String>,
    /// How many ticks in a row brought no price at all.
    pub fail_streak: u32,
    pub last_equity_write: Option<u64>,
    /// The pairs of date and symbol that have been warned of.
    pub day_move_alerted: Vec<(String, String)>,
    pub cash_error_logged: bool,
    /// The candle of each symbol that is being filled: its number and its last
    /// price.
    pub tf_buckets: Tabell<(i64, i64)>,
}

// ---------------------------------------------------------------------------
// Candles
// ---------------------------------------------------------------------------

/// The candle after a price, and the close of the one that it ended.
pub open spec fn rullet(prev: Option<(i64, i64)>, bucket: i64, price: i64) -> ((i64, i64), Option<i64>) {
    match prev {
        None => ((bucket, price), None),
        Some((b, close)) => if b == bucket {
            ((bucket, price), None)
        } else {
            ((bucket, price), Some(close))
        },
    }
}

/// Puts a price into the candle of its time. A candle that is over gives its
/// last price.
pub fn roll_bucket(prev: Option<(i64, i64)>, bucket: i64, price: i64) -> (r: ((i64, i64), Option<i64>))
    ensures
        r == rullet(prev, bucket, price),
{
    match prev {
        None => ((bucket, price), None),
        Some((b, close)) => if b == bucket {
            ((bucket, price), None)
        } else {
            ((bucket, price), Some(close))
        },
    }
}

/// The candle after a row of prices with their times.
pub open spec fn rullet_gjennom(l: Seq<(i64, i64)>) -> (Option<(i64, i64)>, Seq<i64>)
    decreases l.len(),
{
    if l.len() == 0 {
        (None, Seq::empty())
    } else {
        let (c, ut) = rullet_gjennom(l.drop_last());
        let (ny, lukket) = rullet(c, l.last().0, l.last().1);
        (
            Some(ny),
            match lukket {
                Some(p) => ut.push(p),
                None => ut,
            },
        )
    }
}

/// Within one candle nothing is closed, and a new candle closes the one before
/// it, once, at its last price.
pub proof fn law_lys_lukkes_en_gang(l: Seq<(i64, i64)>)
    requires
        l.len() > 0,
    ensures
        rullet_gjennom(l).0 == Some(l.last()),
        l.len() == 1 ==> rullet_gjennom(l).1.len() == 0,
        l.len() > 1 ==> rullet_gjennom(l).1 == (if l[l.len() - 2].0 == l.last().0 {
            rullet_gjennom(l.drop_last()).1
        } else {
            rullet_gjennom(l.drop_last()).1.push(l[l.len() - 2].1)
        }),
    decreases l.len(),
{
    reveal_with_fuel(rullet_gjennom, 2);
    if l.len() > 1 {
        law_lys_lukkes_en_gang(l.drop_last());
        assert(l.drop_last().last() == l[l.len() - 2]);
    }
}

// ---------------------------------------------------------------------------
// Looking up
// ---------------------------------------------------------------------------

pub open spec fn kurser(l: Seq<Quote>) -> Seq<KursSyn> {
    Seq::new(l.len(), |i: int| l[i]@)
}

/// The first quote of a symbol.
pub open spec fn kurs_for(l: Seq<KursSyn>, symbol: Seq<char>, i: int) -> Option<KursSyn>
    decreases l.len() - i,
{
    if i < 0 || i >= l.len() {
        None
    } else if l[i].symbol == symbol {
        Some(l[i])
    } else {
        kurs_for(l, symbol, i + 1)
    }
}

pub fn finn_kurs<'a>(l: &'a Vec<Quote>, symbol: &str) -> (r: Option<&'a Quote>)
    ensures
        (match kurs_for(kurser(l@), symbol@, 0) {
            Some(k) => r is Some && (*r->0)@ == k && r->0.symbol@ == symbol@,
            None => r is None,
        }),
{
    let ghost alle = kurser(l@);
    let mut i: usize = 0;
    while i < l.len()
        invariant
            i <= l@.len(),
            alle == kurser(l@),
            kurs_for(alle, symbol@, 0) == kurs_for(alle, symbol@, i as int),
        decreases l.len() - i,
    {
        assert(alle[i as int] == l@[i as int]@);
        if same(l[i].symbol.as_str(), symbol) {
            return Some(&l[i]);
        }
        i += 1;
    }
    None
}

/// The first position in a symbol.
pub fn finn_posisjon<'a>(l: &'a Vec<Position>, symbol: &str) -> (r: Option<&'a Position>)
    ensures
        (match paper::holdt(types::posisjoner(l@), symbol@) {
            Some(p) => r is Some && (*r->0)@ == p,
            None => r is None,
        }),
{
    let ghost alle = types::posisjoner(l@);
    let mut i: usize = 0;
    assert(alle.skip(0) =~= alle);
    while i < l.len()
        invariant
            i <= l@.len(),
            alle == types::posisjoner(l@),
            paper::holdt(alle, symbol@) == paper::holdt(alle.skip(i as int), symbol@),
        decreases l.len() - i,
    {
        proof {
            assert(alle.skip(i as int)[0] == l@[i as int]@);
            assert(alle.skip(i as int).skip(1) =~= alle.skip(i + 1));
        }
        if same(l[i].symbol.as_str(), symbol) {
            return Some(&l[i]);
        }
        i += 1;
    }
    None
}

/// How many are held of a symbol.
pub open spec fn antall_av(l: Seq<PosisjonSyn>, symbol: Seq<char>) -> int {
    match paper::holdt(l, symbol) {
        Some(p) => p.qty as int,
        None => 0,
    }
}

pub fn holdt_antall(l: &Vec<Position>, symbol: &str) -> (r: i64)
    ensures
        r == antall_av(types::posisjoner(l@), symbol@),
{
    match finn_posisjon(l, symbol) {
        Some(p) => p.qty,
        None => 0,
    }
}

// ---------------------------------------------------------------------------
// Currencies
// ---------------------------------------------------------------------------

/// How long a rate is good for: fifteen minutes.
pub const KURSTID: u64 = 900_000_000_000;

/// A quote in the currency of the account; none where the rate is not known.
pub open spec fn grunnpris(q: KursSyn, base: Seq<char>, fx: Map<Seq<char>, (i64, u64)>) -> Option<int> {
    if q.currency.len() == 0 || q.currency == base {
        Some(q.last)
    } else if fx.dom().contains(q.currency) {
        multi::omregnet(q.last, fx[q.currency].0 as int)
    } else {
        None
    }
}

/// The other currencies of the quotes, each once, in the order of the quotes.
pub open spec fn fremmede(l: Seq<KursSyn>, base: Seq<char>) -> Seq<Seq<char>>
    decreases l.len(),
{
    if l.len() == 0 {
        Seq::empty()
    } else {
        let for_ = fremmede(l.drop_last(), base);
        let c = l.last().currency;
        if c.len() == 0 || c == base || for_.contains(c) {
            for_
        } else {
            for_.push(c)
        }
    }
}

pub open spec fn valutakurs_tekst(valuta: Seq<char>, base: Seq<char>, kurs: int) -> Seq<char> {
    "Valutakurs "@ + valuta + ("/"@ + base + (": "@ + belop::belop_tekst(kurs, 3)))
}

pub open spec fn valutafeil_tekst(valuta: Seq<char>, base: Seq<char>) -> Seq<char> {
    "Fikk ikke valutakurs "@ + valuta + ("/"@ + base + (" — hopper over handel i "@ + valuta
        + "-instrumenter inntil videre."@))
}

/// What the kill switch did.
#[derive(Debug, Clone, Copy, PartialEq, Eq, Structural)]
pub enum Bryter {
    Uendret,
    /// It was switched on: open orders are cancelled, once.
    Paa,
    Av,
}

impl Engine {
    pub open spec fn gyldig(&self) -> bool {
        &&& self.strategies.ordnet()
        &&& self.peaks.ordnet()
        &&& self.fx.ordnet()
        &&& self.tf_buckets.ordnet()
        &&& self.cfg.strategy.holdbar()
        &&& forall|n: Seq<char>|
            #![trigger self.strategies@.dom().contains(n)]
            self.strategies@.dom().contains(n) ==> self.strategies@[n].gyldig() && strategy::oppsett_av(
                n,
                &self.cfg.strategy,
            ) == Some(self.strategies@[n].oppsett())
    }

    /// An engine for the settings. An unknown strategy stops it here, and not
    /// in the middle of a day.
    pub fn new(cfg: Config) -> (r: Result<Engine, String>)
        requires
            cfg.strategy.holdbar(),
        ensures
            (match strategy::oppsett_av(cfg.strategy.name@, &cfg.strategy) {
                None => r is Err && r->Err_0@ == "ukjent strategi: "@ + cfg.strategy.name@,
                Some(o) => {
                    &&& r is Ok
                    &&& r->Ok_0.gyldig()
                    &&& r->Ok_0.cfg == cfg
                    &&& r->Ok_0.strategies@.dom() =~= set![cfg.strategy.name@]
                    &&& r->Ok_0.risk.cfg == cfg.risk
                    &&& forall|s: Seq<char>| #[trigger] r->Ok_0.strategies@[cfg.strategy.name@].om(s) == o.blankt()
                    &&& r->Ok_0.risk.start_equity is None
                    &&& r->Ok_0.risk.order_times@.len() == 0
                    &&& r->Ok_0.strategy_seeded@.len() == 0
                    &&& r->Ok_0.fx_failed@.len() == 0
                    &&& r->Ok_0.day_move_alerted@.len() == 0
                    &&& r->Ok_0.last_equity_write is None
                    &&& r->Ok_0.tf_buckets@ == Map::<Seq<char>, (i64, i64)>::empty()
                    &&& !r->Ok_0.cash_error_logged
                    &&& !r->Ok_0.was_killed
                    &&& r->Ok_0.fail_streak == 0
                    &&& r->Ok_0.protected@.len() == 0
                    &&& r->Ok_0.fx@ == Map::<Seq<char>, (i64, u64)>::empty()
                    &&& r->Ok_0.peaks@ == Map::<Seq<char>, i64>::empty()
                },
            }),
    {
        let s: Strategy = match strategy::build(&cfg.strategy) {
            Ok(s) => s,
            Err(e) => return Err(e),
        };
        let mut strategies: Tabell<Strategy> = Tabell::ny();
        strategies.sett(cfg.strategy.name.as_str(), s);
        assert(strategies@.dom() =~= set![cfg.strategy.name@]);
        let risk: RiskManager = RiskManager::new(cfg.risk);
        Ok(
            Engine {
                cfg,
                strategies,
                strategy_seeded: Vec::new(),
                risk,
                was_killed: false,
                protected: Vec::new(),
                peaks: Tabell::ny(),
                fx: Tabell::ny(),
                fx_failed: Vec::new(),
                fail_streak: 0,
                last_equity_write: None,
                day_move_alerted: Vec::new(),
                cash_error_logged: false,
                tf_buckets: Tabell::ny(),
            },
        )
    }

    /// A quote in the currency of the account; none where the rate is missing.
    pub fn base_price(&self, q: &Quote) -> (r: Option<i64>)
        requires
            self.gyldig(),
        ensures
            r is Some == grunnpris(q@, self.cfg.base_currency@, self.fx@) is Some,
            r matches Some(p) ==> grunnpris(q@, self.cfg.base_currency@, self.fx@) == Some(p as int),
    {
        if q.currency.as_str().unicode_len() == 0 || same(
            q.currency.as_str(),
            self.cfg.base_currency.as_str(),
        ) {
            return Some(q.last);
        }
        match self.fx.hent(q.currency.as_str()) {
            Some(k) => multi::omregn(q.last, k.0),
            None => None,
        }
    }

    /// The currencies whose rates the quotes need.
    pub fn valutaer(&self, fresh: &Vec<Quote>) -> (r: Vec<String>)
        ensures
            text::views(r@) == fremmede(kurser(fresh@), self.cfg.base_currency@),
    {
        let ghost alle = kurser(fresh@);
        let mut ut: Vec<String> = Vec::new();
        let mut i: usize = 0;
        assert(alle.take(0) =~= Seq::empty());
        assert(text::views(ut@) =~= Seq::empty());
        while i < fresh.len()
            invariant
                i <= fresh@.len(),
                alle == kurser(fresh@),
                text::views(ut@) == fremmede(alle.take(i as int), self.cfg.base_currency@),
            decreases fresh.len() - i,
        {
            proof {
                assert(alle.take(i + 1).drop_last() =~= alle.take(i as int));
                assert(alle.take(i + 1).last() == fresh@[i as int]@);
            }
            let ghost for_ = text::views(ut@);
            let c: &String = &fresh[i].currency;
            if c.as_str().unicode_len() > 0 && !same(c.as_str(), self.cfg.base_currency.as_str()) && !holds(
                &ut,
                c.as_str(),
            ) {
                ut.push(copy_text(c));
                assert(text::views(ut@) =~= for_.push(c@));
            }
            i += 1;
        }
        assert(alle.take(i as int) =~= alle);
        ut
    }

    /// Whether a rate must be fetched: it is not known, or it is old.
    pub fn trenger_kurs(&self, valuta: &str, naa: u64) -> (r: bool)
        requires
            self.gyldig(),
        ensures
            r == !(self.fx@.dom().contains(valuta@) && naa - self.fx@[valuta@].1 < KURSTID),
            r == kurs_mangler(self.fx@, valuta@, naa),
    {
        match self.fx.hent(valuta) {
            Some(k) => naa >= k.1 && naa - k.1 >= KURSTID,
            None => true,
        }
    }

    /// Takes in a rate that was fetched, or that it could not be, and says what
    /// the log should say: a new currency, or the first failure.
    pub fn valuta_hentet(&mut self, valuta: &str, kurs: Option<i64>, naa: u64) -> (r: Option<String>)
        requires
            old(self).gyldig(),
        ensures
            final(self).gyldig(),
            (kurs matches Some(k) && k > 0) ==> final(self).fx@ == old(self).fx@.insert(valuta@, (kurs->0, naa))
                && (match r {
                Some(t) => !old(self).fx@.dom().contains(valuta@) && t@ == valutakurs_tekst(
                    valuta@,
                    old(self).cfg.base_currency@,
                    kurs->0 as int,
                ),
                None => old(self).fx@.dom().contains(valuta@),
            }) && text::views(final(self).fx_failed@) == crate::state::uten(
                text::views(old(self).fx_failed@),
                valuta@,
            ),
            !(kurs matches Some(k) && k > 0) ==> final(self).fx@ == old(self).fx@ && (match r {
                Some(t) => !text::views(old(self).fx_failed@).contains(valuta@) && t@ == valutafeil_tekst(
                    valuta@,
                    old(self).cfg.base_currency@,
                ) && text::views(final(self).fx_failed@) == text::views(old(self).fx_failed@).push(valuta@),
                None => text::views(old(self).fx_failed@).contains(valuta@) && text::views(final(self).fx_failed@)
                    == text::views(old(self).fx_failed@),
            }),
            *final(self) == (Engine { fx: final(self).fx, fx_failed: final(self).fx_failed, ..*old(self) }),
    {
        if let Some(k) = kurs {
            if k > 0 {
                let ny: bool = self.fx.hent(valuta).is_none();
                self.fx.sett(valuta, (k, naa));
                fjern(&mut self.fx_failed, valuta);
                if ny {
                    let tall: String = belop::som_tekst(k, 3);
                    let a: String = two(": ", tall.as_str());
                    let b: String = three("/", self.cfg.base_currency.as_str(), a.as_str());
                    return Some(three("Valutakurs ", valuta, b.as_str()));
                }
                return None;
            }
        }
        if holds(&self.fx_failed, valuta) {
            return None;
        }
        let ghost for_ = text::views(self.fx_failed@);
        self.fx_failed.push(valuta.to_owned());
        assert(text::views(self.fx_failed@) =~= for_.push(valuta@));
        let a: String = three(" — hopper over handel i ", valuta, "-instrumenter inntil videre.");
        let b: String = three("/", self.cfg.base_currency.as_str(), a.as_str());
        Some(three("Fikk ikke valutakurs ", valuta, b.as_str()))
    }

    // -----------------------------------------------------------------------
    // Watching
    // -----------------------------------------------------------------------

    /// Watches the stream of prices: a warning when the fifth tick in a row
    /// brings none.
    pub fn vakthund(&mut self, ferske: usize, symboler: usize) -> (r: Option<&'static str>)
        ensures
            final(self).fail_streak == (if ferske == 0 && symboler > 0 {
                if old(self).fail_streak == u32::MAX {
                    u32::MAX
                } else {
                    (old(self).fail_streak + 1) as u32
                }
            } else {
                0
            }),
            r is Some == (ferske == 0 && symboler > 0 && old(self).fail_streak == 4),
            final(self).fail_streak == tause(old(self).fail_streak as int, ferske as int, symboler as int),
            r is Some == mistet(old(self).fail_streak as int, ferske as int, symboler as int),
            r matches Some(t) ==> t@ == "⚠ Mistet kursdata — fem runder på rad uten svar fra Yahoo."@,
            *final(self) == (Engine { fail_streak: final(self).fail_streak, ..*old(self) }),
    {
        if ferske == 0 && symboler > 0 {
            if self.fail_streak < u32::MAX {
                self.fail_streak = self.fail_streak + 1;
            }
            if self.fail_streak == 5 {
                return Some("⚠ Mistet kursdata — fem runder på rad uten svar fra Yahoo.");
            }
            None
        } else {
            self.fail_streak = 0;
            None
        }
    }

    /// Follows the kill switch: what changed since the last tick.
    pub fn handle_kill_switch(&mut self, killed: bool) -> (r: Bryter)
        ensures
            final(self).was_killed == killed,
            r == (if killed && !old(self).was_killed {
                Bryter::Paa
            } else if !killed && old(self).was_killed {
                Bryter::Av
            } else {
                Bryter::Uendret
            }),
            r == skiftet(old(self).was_killed, killed),
            *final(self) == (Engine { was_killed: killed, ..*old(self) }),
    {
        let var: bool = self.was_killed;
        self.was_killed = killed;
        if killed && !var {
            Bryter::Paa
        } else if !killed && var {
            Bryter::Av
        } else {
            Bryter::Uendret
        }
    }

    /// Takes in whether the cash could be fetched: a failure is told once, until
    /// it goes well again.
    pub fn kontantfeil(&mut self, feilet: bool) -> (r: bool)
        ensures
            r == (feilet && !old(self).cash_error_logged),
            final(self).cash_error_logged == feilet,
            *final(self) == (Engine { cash_error_logged: feilet, ..*old(self) }),
    {
        let r: bool = feilet && !self.cash_error_logged;
        self.cash_error_logged = feilet;
        r
    }

    // -----------------------------------------------------------------------
    // Signals
    // -----------------------------------------------------------------------

    /// Makes sure that a strategy is there; false where its name is unknown.
    pub fn ensure_strategy(&mut self, name: &str) -> (r: bool)
        requires
            old(self).gyldig(),
        ensures
            final(self).gyldig(),
            r == (old(self).strategies@.dom().contains(name@) || strategy::oppsett_av(
                name@,
                &old(self).cfg.strategy,
            ) is Some),
            r ==> final(self).strategies@.dom().contains(name@),
            old(self).strategies@.dom().contains(name@) || !r ==> *final(self) == *old(self),
            (r && !old(self).strategies@.dom().contains(name@)) ==> final(self).strategies@.dom() == old(
                self,
            ).strategies@.dom().insert(name@) && (forall|s: Seq<char>| #[trigger]
                final(self).strategies@[name@].om(s) == strategy::oppsett_av(
                    name@,
                    &old(self).cfg.strategy,
                )->0.blankt()) && (forall|n: Seq<char>|
                n != name@ && old(self).strategies@.dom().contains(n) ==> #[trigger] final(self).strategies@[n]
                    == old(self).strategies@[n]),
            *final(self) == (Engine { strategies: final(self).strategies, ..*old(self) }),
    {
        if self.strategies.hent(name).is_some() {
            return true;
        }
        match strategy::build_named(name, &self.cfg.strategy) {
            Ok(s) => {
                self.strategies.sett(name, s);
                true
            },
            Err(_) => false,
        }
    }

    /// Whether past prices have been given to a strategy for a symbol.
    pub open spec fn er_saadd(&self, name: Seq<char>, symbol: Seq<char>) -> bool {
        parene(self.strategy_seeded@).contains((name, symbol))
    }

    /// Gives a strategy the past prices of a symbol, the first time that there
    /// are any.
    pub fn seed_if_needed(&mut self, name: &str, symbol: &str, closes: &[i64])
        requires
            old(self).gyldig(),
            old(self).strategies@.dom().contains(name@),
        ensures
            final(self).gyldig(),
            (old(self).er_saadd(name@, symbol@) || closes@.len() == 0) ==> *final(self) == *old(self),
            (!old(self).er_saadd(name@, symbol@) && closes@.len() > 0) ==> parene(
                final(self).strategy_seeded@,
            ) == parene(old(self).strategy_seeded@).push((name@, symbol@)) && final(self).er_saadd(name@, symbol@)
                && final(self).strategies@.dom() == old(self).strategies@.dom() && final(self).strategies@[name@].om(
                symbol@,
            ) == old(self).strategies@[name@].oppsett().saadd(
                old(self).strategies@[name@].om(symbol@),
                closes@,
            ),
            final(self).strategies@.dom() == old(self).strategies@.dom(),
            urort_uten(*old(self), *final(self), name@, symbol@),
            *final(self) == (Engine {
                strategies: final(self).strategies,
                strategy_seeded: final(self).strategy_seeded,
                ..*old(self)
            }),
    {
        if har_par(&self.strategy_seeded, name, symbol) || closes.len() == 0 {
            return;
        }
        let ghost for_ = parene(self.strategy_seeded@);
        if let Some(mut s) = self.strategies.ta(name) {
            s.seed(symbol, closes);
            self.strategies.sett(name, s);
        }
        self.strategy_seeded.push((name.to_owned(), symbol.to_owned()));
        proof {
            assert(parene(self.strategy_seeded@) =~= for_.push((name@, symbol@)));
            let p = parene(self.strategy_seeded@);
            assert(p[p.len() - 1] == (name@, symbol@));
            assert(self.strategies@.dom() =~= old(self).strategies@.dom());
        }
    }

    /// The signal of a strategy for a price.
    pub fn signal_for(&mut self, name: &str, symbol: &str, price: i64) -> (r: Option<Side>)
        requires
            old(self).gyldig(),
            old(self).strategies@.dom().contains(name@),
        ensures
            final(self).gyldig(),
            final(self).strategies@.dom() == old(self).strategies@.dom(),
            (final(self).strategies@[name@].om(symbol@), r) == old(self).strategies@[name@].oppsett().steg(
                old(self).strategies@[name@].om(symbol@),
                price,
            ),
            urort_uten(*old(self), *final(self), name@, symbol@),
            *final(self) == (Engine { strategies: final(self).strategies, ..*old(self) }),
    {
        match self.strategies.ta(name) {
            Some(mut s) => {
                let r: Option<Side> = s.on_price(symbol, price);
                self.strategies.sett(name, s);
                assert(self.strategies@.dom() =~= old(self).strategies@.dom());
                r
            },
            None => None,
        }
    }

    /// The price that the strategy sees of a tick: every one, or, where signals
    /// cover some minutes each, the close of a candle that is over.
    pub fn pris_for_signal(&mut self, symbol: &str, price: i64, naa: i64) -> (r: Option<i64>)
        requires
            old(self).gyldig(),
        ensures
            final(self).gyldig(),
            old(self).cfg.strategy.timeframe_min == 0 ==> r == Some(price) && *final(self) == *old(self),
            old(self).cfg.strategy.timeframe_min > 0 ==> ({
                let lys = rullet(
                    old(self).lys(symbol@),
                    belop::kvotient(naa as int, old(self).cfg.strategy.timeframe_min * 60) as i64,
                    price,
                );
                final(self).tf_buckets@ == old(self).tf_buckets@.insert(symbol@, lys.0) && r == lys.1
            }),
            *final(self) == (Engine { tf_buckets: final(self).tf_buckets, ..*old(self) }),
    {
        let n: u64 = self.cfg.strategy.timeframe_min;
        if n == 0 {
            return Some(price);
        }
        let bucket: i128 = belop::del(naa as i128, n as i128 * 60);
        let prev: Option<(i64, i64)> = match self.tf_buckets.hent(symbol) {
            Some(l) => Some(*l),
            None => None,
        };
        let (ny, lukket): ((i64, i64), Option<i64>) = roll_bucket(prev, bucket as i64, price);
        self.tf_buckets.sett(symbol, ny);
        lukket
    }

    /// The candle of a symbol that is being filled.
    pub open spec fn lys(&self, symbol: Seq<char>) -> Option<(i64, i64)> {
        if self.tf_buckets@.dom().contains(symbol) {
            Some(self.tf_buckets@[symbol])
        } else {
            None
        }
    }
}

/// Whether a strategy remembers the same of every other symbol, and every other
/// strategy is as it was.
pub open spec fn urort_uten(a: Engine, b: Engine, name: Seq<char>, symbol: Seq<char>) -> bool {
    &&& forall|n: Seq<char>|
        n != name && a.strategies@.dom().contains(n) ==> #[trigger] b.strategies@[n] == a.strategies@[n]
    &&& forall|s: Seq<char>| s != symbol ==> #[trigger] b.strategies@[name].om(s) == a.strategies@[name].om(s)
}

pub open spec fn parene(l: Seq<(String, String)>) -> Seq<(Seq<char>, Seq<char>)> {
    Seq::new(l.len(), |i: int| (l[i].0@, l[i].1@))
}

/// Whether a pair is in a list.
pub fn har_par(l: &Vec<(String, String)>, a: &str, b: &str) -> (r: bool)
    ensures
        r == parene(l@).contains((a@, b@)),
{
    let ghost p = parene(l@);
    let mut i: usize = 0;
    while i < l.len()
        invariant
            i <= l@.len(),
            p == parene(l@),
            forall|k: int| 0 <= k < i ==> #[trigger] p[k] != (a@, b@),
        decreases l.len() - i,
    {
        assert(p[i as int] == (l@[i as int].0@, l@[i as int].1@));
        if same(l[i].0.as_str(), a) && same(l[i].1.as_str(), b) {
            return true;
        }
        i += 1;
    }
    false
}

/// Takes the occurrences of a text out of a list.
pub fn fjern(l: &mut Vec<String>, s: &str)
    ensures
        text::views(final(l)@) == crate::state::uten(text::views(old(l)@), s@),
{
    let ghost alle = text::views(l@);
    let mut ut: Vec<String> = Vec::new();
    let mut i: usize = 0;
    assert(alle.take(0) =~= Seq::empty());
    assert(text::views(ut@) =~= Seq::empty());
    while i < l.len()
        invariant
            i <= l@.len(),
            alle == text::views(l@),
            text::views(ut@) == crate::state::uten(alle.take(i as int), s@),
        decreases l.len() - i,
    {
        proof {
            assert(alle.take(i + 1).drop_last() =~= alle.take(i as int));
            assert(alle.take(i + 1).last() == l@[i as int]@);
        }
        let ghost for_ = text::views(ut@);
        if !same(l[i].as_str(), s) {
            ut.push(copy_text(&l[i]));
            assert(text::views(ut@) =~= for_.push(l@[i as int]@));
        }
        i += 1;
    }
    assert(alle.take(i as int) =~= alle);
    *l = ut;
}

/// The strategy of a symbol: its own, or the usual.
pub open spec fn strategi_for(egne: Map<Seq<char>, String>, standard: Seq<char>, symbol: Seq<char>) -> Seq<char> {
    if egne.dom().contains(symbol) {
        egne[symbol]@
    } else {
        standard
    }
}

pub fn velg_strategi(egne: &Tabell<String>, standard: &str, symbol: &str) -> (r: String)
    requires
        egne.ordnet(),
    ensures
        r@ == strategi_for(egne@, standard@, symbol@),
{
    match egne.hent(symbol) {
        Some(s) => copy_text(s),
        None => standard.to_owned(),
    }
}

/// What the screen says of the view that a strategy takes of a symbol.
pub open spec fn visning(name: Seq<char>, timeframe_min: u64, status: Seq<char>) -> Seq<char> {
    "["@ + name + (" · "@ + (if timeframe_min > 0 {
        crate::number_text::decimal(timeframe_min as nat) + " min-lys"@
    } else {
        "hvert tikk"@
    }) + ("] "@ + status))
}

pub fn skriv_visning(name: &str, timeframe_min: u64, status: &str) -> (r: String)
    ensures
        r@ == visning(name@, timeframe_min, status@),
{
    let ramme: String = if timeframe_min > 0 {
        let n: String = crate::number_text::decimal_text(timeframe_min as u128);
        two(n.as_str(), " min-lys")
    } else {
        "hvert tikk".to_owned()
    };
    let c: String = two("] ", status);
    let b: String = three(" · ", ramme.as_str(), c.as_str());
    three("[", name, b.as_str())
}

/// The value of an account: the cash and the positions together; none where it
/// grows out of bounds.
pub open spec fn egenkapital(cash: int, l: Seq<PosisjonSyn>) -> Option<int>
    decreases l.len(),
{
    if l.len() == 0 {
        Some(cash)
    } else {
        match egenkapital(cash, l.drop_last()) {
            None => None,
            Some(e) => {
                let s = e + l.last().qty * l.last().last;
                if i128::MIN <= s <= i128::MAX {
                    Some(s)
                } else {
                    None
                }
            },
        }
    }
}

proof fn lemma_egenkapital(cash: int, l: Seq<PosisjonSyn>, n: int)
    requires
        0 <= n <= l.len(),
        egenkapital(cash, l.take(n)) is None,
    ensures
        egenkapital(cash, l) is None,
    decreases l.len() - n,
{
    if n < l.len() {
        assert(l.take(n + 1).drop_last() =~= l.take(n));
        lemma_egenkapital(cash, l, n + 1);
    } else {
        assert(l.take(n) =~= l);
    }
}

/// The value of an account.
pub fn equity(cash: i128, positions: &Vec<Position>) -> (r: Option<i128>)
    ensures
        r is Some == egenkapital(cash as int, types::posisjoner(positions@)) is Some,
        r matches Some(e) ==> egenkapital(cash as int, types::posisjoner(positions@)) == Some(e as int),
{
    let ghost alle = types::posisjoner(positions@);
    let mut sum: i128 = cash;
    let mut i: usize = 0;
    assert(alle.take(0) =~= Seq::empty());
    while i < positions.len()
        invariant
            i <= positions@.len(),
            alle == types::posisjoner(positions@),
            egenkapital(cash as int, alle.take(i as int)) == Some(sum as int),
        decreases positions.len() - i,
    {
        proof {
            assert(alle.take(i + 1).drop_last() =~= alle.take(i as int));
            assert(alle.take(i + 1).last() == positions@[i as int]@);
        }
        let v: i128 = positions[i].market_value();
        match sum.checked_add(v) {
            Some(s) => {
                sum = s;
            },
            None => {
                proof {
                    lemma_egenkapital(cash as int, alle, i + 1);
                }
                return None;
            },
        }
        i += 1;
    }
    assert(alle.take(i as int) =~= alle);
    Some(sum)
}

// ---------------------------------------------------------------------------
// Laws
// ---------------------------------------------------------------------------

/// The quote that counts for a symbol is the first that has it; where none has it
/// there is none.
pub proof fn law_forste_kurs(l: Seq<KursSyn>, symbol: Seq<char>, k: int)
    requires
        0 <= k <= l.len(),
        forall|j: int| 0 <= j < k ==> (#[trigger] l[j]).symbol != symbol,
        k < l.len() ==> l[k].symbol == symbol,
    ensures
        k < l.len() ==> kurs_for(l, symbol, 0) == Some(l[k]),
        k == l.len() ==> kurs_for(l, symbol, 0) is None,
{
    lemma_kurs_fra(l, symbol, 0, k);
}

proof fn lemma_kurs_fra(l: Seq<KursSyn>, symbol: Seq<char>, i: int, k: int)
    requires
        0 <= i <= k <= l.len(),
        forall|j: int| 0 <= j < k ==> (#[trigger] l[j]).symbol != symbol,
        k < l.len() ==> l[k].symbol == symbol,
    ensures
        kurs_for(l, symbol, i) == (if k < l.len() {
            Some(l[k])
        } else {
            None
        }),
    decreases k - i,
{
    if i < k {
        assert(l[i].symbol != symbol);
        lemma_kurs_fra(l, symbol, i + 1, k);
    }
}

/// An account is worth its cash and, for each position, as many as are held at their
/// last price.
pub proof fn law_egenkapital(cash: int, l: Seq<PosisjonSyn>)
    ensures
        egenkapital(cash, l) matches Some(e) ==> e == l.fold_left(cash, |s: int, p: PosisjonSyn| s + p.last * p.qty),
    decreases l.len(),
{
    if l.len() > 0 {
        law_egenkapital(cash, l.drop_last());
        let p = l.last();
        assert(p.qty * p.last == p.last * p.qty) by (nonlinear_arith);
    }
}

/// A quote in the currency of the account stands as it is; in another it is the
/// price times the rate of that currency, with what is behind the last decimal cut
/// off, and without a rate it is not known.
pub proof fn law_grunnpris(q: KursSyn, base: Seq<char>, fx: Map<Seq<char>, (i64, u64)>)
    ensures
        q.currency == base ==> grunnpris(q, base, fx) == Some(q.last),
        q.currency.len() == 0 ==> grunnpris(q, base, fx) == Some(q.last),
        q.currency.len() > 0 && q.currency != base && !fx.dom().contains(q.currency) ==> grunnpris(q, base, fx) is None,
        q.currency.len() > 0 && q.currency != base && fx.dom().contains(q.currency) && q.last >= 0 && fx[q.currency].0
            >= 0 ==> (grunnpris(q, base, fx) matches Some(x) ==> x * 100_000_000 <= q.last * fx[q.currency].0 < (x + 1)
            * 100_000_000),
        q.currency.len() > 0 && q.currency != base && fx.dom().contains(q.currency) && q.last >= 0 && fx[q.currency].0
            >= 0 && q.last * fx[q.currency].0 < 0x8000_0000_0000_0000 * 100_000_000 ==> grunnpris(q, base, fx) is Some,
{
    let r = fx[q.currency].0 as int;
    if q.last >= 0 && r >= 0 {
        assert(q.last * r >= 0) by (nonlinear_arith)
            requires
                q.last >= 0,
                r >= 0,
        ;
        belop::law_kvotient(q.last * r, 100_000_000);
    }
}

/// The other currencies are those of the quotes that are neither blank nor that of
/// the account, all of them, and each once.
pub proof fn law_fremmede(l: Seq<KursSyn>, base: Seq<char>)
    ensures
        forall|i: int, j: int| 0 <= i < j < fremmede(l, base).len() ==> fremmede(l, base)[i] != fremmede(l, base)[j],
        forall|c: Seq<char>| #[trigger] fremmede(l, base).contains(c) ==> c.len() > 0 && c != base && exists|i: int|
            0 <= i < l.len() && (#[trigger] l[i]).currency == c,
        forall|i: int|
            0 <= i < l.len() && (#[trigger] l[i]).currency.len() > 0 && l[i].currency != base ==> fremmede(
                l,
                base,
            ).contains(l[i].currency),
    decreases l.len(),
{
    let f = fremmede(l, base);
    if l.len() > 0 {
        let d = l.drop_last();
        law_fremmede(d, base);
        let g = fremmede(d, base);
        let c = l.last().currency;
        assert forall|x: Seq<char>| #[trigger] f.contains(x) implies x.len() > 0 && x != base && exists|i: int|
            0 <= i < l.len() && (#[trigger] l[i]).currency == x by {
            if g.contains(x) {
                let i = choose|i: int| 0 <= i < d.len() && (#[trigger] d[i]).currency == x;
                assert(l[i].currency == x);
            } else {
                let k = choose|k: int| 0 <= k < f.len() && f[k] == x;
                assert(k == g.len());
                assert(l[l.len() - 1].currency == x);
            }
        }
        assert forall|i: int|
            0 <= i < l.len() && (#[trigger] l[i]).currency.len() > 0 && l[i].currency != base implies f.contains(
            l[i].currency,
        ) by {
            if i < d.len() {
                assert(d[i] == l[i]);
                let k = choose|k: int| 0 <= k < g.len() && g[k] == l[i].currency;
                assert(f[k] == l[i].currency);
            } else if !g.contains(c) {
                assert(f[g.len() as int] == c);
            }
        }
        assert forall|i: int, j: int| 0 <= i < j < f.len() implies f[i] != f[j] by {
            if j == g.len() {
                assert(g.contains(g[i]));
            }
        }
    }
}

/// Whether a rate must be fetched.
pub open spec fn kurs_mangler(fx: Map<Seq<char>, (i64, u64)>, valuta: Seq<char>, naa: u64) -> bool {
    !(fx.dom().contains(valuta) && naa - fx[valuta].1 < KURSTID)
}

/// A rate is fetched where there is none, and again once it is a quarter of an
/// hour old.
pub proof fn law_kursen_hentes_paa_nytt(fx: Map<Seq<char>, (i64, u64)>, valuta: Seq<char>, kurs: i64, da: u64, naa: u64)
    ensures
        kurs_mangler(fx.remove(valuta), valuta, naa),
        kurs_mangler(fx.insert(valuta, (kurs, da)), valuta, naa) <==> naa >= da + 15 * 60 * 1_000_000_000,
{
}

/// How many rounds in a row have brought no price.
pub open spec fn tause(for_: int, ferske: int, symboler: int) -> int {
    if ferske == 0 && symboler > 0 {
        if for_ == u32::MAX {
            for_
        } else {
            for_ + 1
        }
    } else {
        0
    }
}

/// Whether a round is the one that is told of.
pub open spec fn mistet(for_: int, ferske: int, symboler: int) -> bool {
    ferske == 0 && symboler > 0 && for_ == 4
}

/// How many rounds in a row have brought no price, after `n` such rounds.
pub open spec fn tause_runder(n: nat, symboler: int) -> int
    decreases n,
{
    if n == 0 {
        0
    } else {
        tause(tause_runder((n - 1) as nat, symboler), 0, symboler)
    }
}

/// A silence is told of once, in its fifth round, and a price ends it.
pub proof fn law_stillheten_meldes_en_gang(n: nat, symboler: int, ferske: int)
    requires
        n < u32::MAX,
        symboler > 0,
        ferske > 0,
    ensures
        tause_runder(n, symboler) == n,
        mistet(tause_runder(n, symboler), 0, symboler) <==> n + 1 == 5,
        tause(tause_runder(n, symboler), ferske, symboler) == 0,
        !mistet(tause_runder(n, symboler), ferske, symboler),
    decreases n,
{
    if n > 0 {
        law_stillheten_meldes_en_gang((n - 1) as nat, symboler, ferske);
    }
}

/// What has happened to the kill switch between two rounds.
pub open spec fn skiftet(var: bool, er: bool) -> Bryter {
    if er && !var {
        Bryter::Paa
    } else if !er && var {
        Bryter::Av
    } else {
        Bryter::Uendret
    }
}

/// The switch is told of when it is turned, on or off, and not while it stays.
pub proof fn law_bryteren(var: bool, er: bool)
    ensures
        skiftet(var, er) == Bryter::Uendret <==> var == er,
        skiftet(var, er) == Bryter::Paa ==> er,
        skiftet(var, er) == Bryter::Av ==> !er,
{
}

}
