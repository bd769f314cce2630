//! One tick of the strategies, and what the engine says of itself.
use vstd::prelude::*;

use crate::belop;
use crate::config::Config;
use crate::engine;
use crate::engine::ordrer;
use crate::engine::ordrer::{ManuellUtfall, SignalUtfall};
use crate::engine::{finn_kurs, holdt_antall, velg_strategi, Engine};
use crate::marketdata;
use crate::marketdata::{is_trading_open, KursSyn};
use crate::number_text;
use crate::state;
use crate::state::{hent_priser, hent_sluttkurser, Flags, UiState};
use crate::strategy;
use crate::strategy::Minne;
use crate::text::{copy_text, three, two};
use crate::types;
use crate::types::{Position, Quote, Side};

verus! {

/// The past prices that a strategy is given: candles where signals cover some
/// minutes each, else the history.
pub open spec fn saakurser(st: UiState, timeframe_min: u64, symbol: Seq<char>) -> Seq<i64> {
    if timeframe_min > 0 {
        if st.candles_intraday@.dom().contains(symbol) {
            state::sluttkurser(st.candles_intraday@[symbol]@)
        } else {
            Seq::empty()
        }
    } else if st.history@.dom().contains(symbol) {
        state::priser(st.history@[symbol]@)
    } else {
        Seq::empty()
    }
}

fn finn_saakurser(st: &UiState, timeframe_min: u64, symbol: &str) -> (r: Vec<i64>)
    requires
        st.gyldig(),
    ensures
        r@ == saakurser(*st, timeframe_min, symbol@),
{
    if timeframe_min > 0 {
        if let Some(c) = st.candles_intraday.hent(symbol) {
            return hent_sluttkurser(c);
        }
    } else if let Some(h) = st.history.hent(symbol) {
        return hent_priser(h);
    }
    let tom: Vec<i64> = Vec::new();
    assert(tom@ =~= saakurser(*st, timeframe_min, symbol@));
    tom
}

/// What a strategy remembers of a symbol; nothing yet where it is not in use.
pub open spec fn minne(e: Engine, name: Seq<char>, symbol: Seq<char>) -> Minne {
    if e.strategies@.dom().contains(name) {
        e.strategies@[name].om(symbol)
    } else {
        strategy::oppsett_av(name, &e.cfg.strategy)->0.blankt()
    }
}

/// What a strategy remembers of a symbol once it has been given past prices.
pub open spec fn saadd_minne(e: Engine, name: Seq<char>, symbol: Seq<char>, closes: Seq<i64>) -> Minne {
    if e.er_saadd(name, symbol) || closes.len() == 0 {
        minne(e, name, symbol)
    } else {
        strategy::oppsett_av(name, &e.cfg.strategy)->0.saadd(minne(e, name, symbol), closes)
    }
}

/// The price that a tick shows the strategy, if any.
pub open spec fn sett_pris(e: Engine, symbol: Seq<char>, price: i64, naa: i64) -> Option<i64> {
    if e.cfg.strategy.timeframe_min == 0 {
        Some(price)
    } else {
        engine::rullet(
            e.lys(symbol),
            belop::kvotient(naa as int, e.cfg.strategy.timeframe_min * 60) as i64,
            price,
        ).1
    }
}

/// The candle that a tick leaves being filled, for each symbol.
pub open spec fn lys_etter(e: Engine, symbol: Seq<char>, price: i64, naa: i64) -> Map<Seq<char>, (i64, i64)> {
    if e.cfg.strategy.timeframe_min == 0 {
        e.tf_buckets@
    } else {
        e.tf_buckets@.insert(
            symbol,
            engine::rullet(
                e.lys(symbol),
                belop::kvotient(naa as int, e.cfg.strategy.timeframe_min * 60) as i64,
                price,
            ).0,
        )
    }
}

/// The strategy of a symbol on a screen.
pub open spec fn navn_for(st: UiState, symbol: Seq<char>) -> Seq<char> {
    engine::strategi_for(st.symbol_strategy@, st.strategy_name@, symbol)
}

/// What a strategy remembers of a symbol after a tick, and its signal: none
/// where it sees no price or is not known.
pub open spec fn steg_av(e: Engine, st: UiState, symbol: Seq<char>, price: i64, naa: i64) -> Option<
    (Minne, Option<Side>),
> {
    let name = navn_for(st, symbol);
    match (sett_pris(e, symbol, price, naa), strategy::oppsett_av(name, &e.cfg.strategy)) {
        (Some(p), Some(o)) => Some(
            o.steg(saadd_minne(e, name, symbol, saakurser(st, e.cfg.strategy.timeframe_min, symbol)), p),
        ),
        _ => None,
    }
}

/// The signal of a tick.
pub open spec fn signal_av(e: Engine, st: UiState, symbol: Seq<char>, price: i64, naa: i64) -> Option<Side> {
    match steg_av(e, st, symbol, price, naa) {
        Some((_, s)) => s,
        None => None,
    }
}

/// Whether a tick shows a price to a strategy that is not known.
pub open spec fn ukjent(e: Engine, st: UiState, symbol: Seq<char>, price: i64, naa: i64) -> bool {
    sett_pris(e, symbol, price, naa) is Some && strategy::oppsett_av(navn_for(st, symbol), &e.cfg.strategy) is None
}

/// What the log says of a strategy that is not known.
pub open spec fn ukjent_tekst(name: Seq<char>) -> Seq<char> {
    "Ukjent strategi "@ + name + (": ukjent strategi: "@ + name)
}

/// Whether a tick of a symbol leaves the engine as it should: the strategy that
/// saw the price remembers it, and nothing else is touched.
pub open spec fn etter_tikk(e: Engine, f: Engine, st: UiState, symbol: Seq<char>, price: i64, naa: i64) -> bool {
    let name = navn_for(st, symbol);
    &&& f.tf_buckets@ == lys_etter(e, symbol, price, naa)
    &&& match steg_av(e, st, symbol, price, naa) {
        Some((m, _)) => {
            &&& f.strategies@.dom() == e.strategies@.dom().insert(name)
            &&& minne(f, name, symbol) == m
            &&& forall|s: Seq<char>| s != symbol ==> #[trigger] minne(f, name, s) == minne(e, name, s)
            &&& forall|n: Seq<char>|
                n != name && e.strategies@.dom().contains(n) ==> #[trigger] f.strategies@[n] == e.strategies@[n]
            &&& engine::parene(f.strategy_seeded@) == (if e.er_saadd(name, symbol) || saakurser(
                st,
                e.cfg.strategy.timeframe_min,
                symbol,
            ).len() == 0 {
                engine::parene(e.strategy_seeded@)
            } else {
                engine::parene(e.strategy_seeded@).push((name, symbol))
            })
        },
        None => f.strategies@ == e.strategies@ && f.strategy_seeded == e.strategy_seeded,
    }
}

/// Whether the engine is as before, but that a strategy has been made where it
/// was missing and been given the past prices of a symbol.
pub open spec fn etter_saaing(e: Engine, f: Engine, st: UiState, symbol: Seq<char>) -> bool {
    let name = navn_for(st, symbol);
    let closes = saakurser(st, e.cfg.strategy.timeframe_min, symbol);
    if strategy::oppsett_av(name, &e.cfg.strategy) is None {
        f == e
    } else {
        &&& f.strategies@.dom() == e.strategies@.dom().insert(name)
        &&& minne(f, name, symbol) == saadd_minne(e, name, symbol, closes)
        &&& forall|s: Seq<char>| s != symbol ==> #[trigger] minne(f, name, s) == minne(e, name, s)
        &&& forall|n: Seq<char>|
            n != name && e.strategies@.dom().contains(n) ==> #[trigger] f.strategies@[n] == e.strategies@[n]
        &&& engine::parene(f.strategy_seeded@) == (if e.er_saadd(name, symbol) || closes.len() == 0 {
            engine::parene(e.strategy_seeded@)
        } else {
            engine::parene(e.strategy_seeded@).push((name, symbol))
        })
    }
}

impl Engine {
    /// Where the strategy of a symbol stands on it, for the screen; none where
    /// the strategy is not known or has no view yet.
    pub fn strategy_view(&mut self, st: &UiState, symbol: &str) -> (r: Option<String>)
        requires
            old(self).gyldig(),
            st.gyldig(),
        ensures
            final(self).gyldig(),
            etter_saaing(*old(self), *final(self), *st, symbol@),
            ({
                let name = navn_for(*st, symbol@);
                let ramme = old(self).cfg.strategy.timeframe_min;
                let m = saadd_minne(*old(self), name, symbol@, saakurser(*st, ramme, symbol@));
                match (strategy::oppsett_av(name, &old(self).cfg.strategy), strategy::staasted(m)) {
                    (Some(_), Some(t)) => r is Some && r->0@ == engine::visning(name, ramme, t),
                    _ => r is None,
                }
            }),
            *final(self) == (Engine {
                strategies: final(self).strategies,
                strategy_seeded: final(self).strategy_seeded,
                ..*old(self)
            }),
    {
        let name: String = velg_strategi(&st.symbol_strategy, st.strategy_name.as_str(), symbol);
        if !self.ensure_strategy(name.as_str()) {
            return None;
        }
        let ghost e1 = *self;
        assert(minne(e1, name@, symbol@) == minne(*old(self), name@, symbol@));
        assert(e1.strategies@.dom().contains(name@));
        assert(strategy::oppsett_av(name@, &e1.cfg.strategy) == Some(e1.strategies@[name@].oppsett()));
        assert(e1.strategies@.dom() =~= old(self).strategies@.dom().insert(name@));
        let closes: Vec<i64> = finn_saakurser(st, self.cfg.strategy.timeframe_min, symbol);
        self.seed_if_needed(name.as_str(), symbol, closes.as_slice());
        proof {
            assert(self.strategies@.dom().contains(name@));
            assert forall|s: Seq<char>| s != symbol@ implies #[trigger] minne(*self, name@, s) == minne(
                *old(self),
                name@,
                s,
            ) by {
                assert(self.strategies@[name@].om(s) == e1.strategies@[name@].om(s));
            }
            assert forall|n: Seq<char>|
                n != name@ && old(self).strategies@.dom().contains(n) implies #[trigger] self.strategies@[n] == old(
                self,
            ).strategies@[n] by {
                assert(e1.strategies@[n] == old(self).strategies@[n]);
            }
        }
        let status: Option<String> = match self.strategies.hent(name.as_str()) {
            Some(s) => s.status(symbol),
            None => None,
        };
        match status {
            Some(t) => Some(engine::skriv_visning(name.as_str(), self.cfg.strategy.timeframe_min, t.as_str())),
            None => None,
        }
    }

    /// The signal of a tick: the symbol's own strategy, or the usual one, sees
    /// the price, or the close of a candle that is over. It is given past prices
    /// the first time that it is used for the symbol. Where the strategy is not
    /// known, what the log says of it.
    pub fn signal_on_tick(&mut self, st: &UiState, symbol: &str, price: i64, naa: i64) -> (r: Result<
        Option<(Side, String)>,
        String,
    >)
        requires
            old(self).gyldig(),
            st.gyldig(),
        ensures
            final(self).gyldig(),
            etter_tikk(*old(self), *final(self), *st, symbol@, price, naa),
            ukjent(*old(self), *st, symbol@, price, naa) ==> r is Err && r->Err_0@ == ukjent_tekst(
                navn_for(*st, symbol@),
            ),
            !ukjent(*old(self), *st, symbol@, price, naa) ==> (match signal_av(
                *old(self),
                *st,
                symbol@,
                price,
                naa,
            ) {
                Some(side) => r is Ok && r->Ok_0 is Some && (r->Ok_0->0).0 == side && (r->Ok_0->0).1@ == navn_for(
                    *st,
                    symbol@,
                ),
                None => r is Ok && r->Ok_0 is None,
            }),
            *final(self) == (Engine {
                strategies: final(self).strategies,
                strategy_seeded: final(self).strategy_seeded,
                tf_buckets: final(self).tf_buckets,
                ..*old(self)
            }),
    {
        let p: i64 = match self.pris_for_signal(symbol, price, naa) {
            Some(p) => p,
            None => return Ok(None),
        };
        let name: String = velg_strategi(&st.symbol_strategy, st.strategy_name.as_str(), symbol);
        let ghost e0 = *self;
        assert(e0.strategies == old(self).strategies);
        if !self.ensure_strategy(name.as_str()) {
            assert(strategy::oppsett_av(name@, &old(self).cfg.strategy) is None);
            let hale: String = two(": ukjent strategi: ", name.as_str());
            return Err(three("Ukjent strategi ", name.as_str(), hale.as_str()));
        }
        let ghost e1 = *self;
        assert(minne(e1, name@, symbol@) == minne(*old(self), name@, symbol@));
        assert(e1.strategies@.dom().contains(name@));
        assert(strategy::oppsett_av(name@, &e1.cfg.strategy) == Some(e1.strategies@[name@].oppsett()));
        assert(e1.strategies@.dom() =~= old(self).strategies@.dom().insert(name@));
        let closes: Vec<i64> = finn_saakurser(st, self.cfg.strategy.timeframe_min, symbol);
        self.seed_if_needed(name.as_str(), symbol, closes.as_slice());
        let ghost e2 = *self;
        assert(e2.strategies@.dom().contains(name@));
        assert(strategy::oppsett_av(name@, &e2.cfg.strategy) == Some(e2.strategies@[name@].oppsett()));
        let signal: Option<Side> = self.signal_for(name.as_str(), symbol, p);
        proof {
            assert forall|s: Seq<char>| s != symbol@ implies #[trigger] minne(*self, name@, s) == minne(
                *old(self),
                name@,
                s,
            ) by {
                assert(self.strategies@[name@].om(s) == e2.strategies@[name@].om(s));
                assert(e2.strategies@[name@].om(s) == e1.strategies@[name@].om(s));
            }
            assert forall|n: Seq<char>|
                n != name@ && old(self).strategies@.dom().contains(n) implies #[trigger] self.strategies@[n] == old(
                self,
            ).strategies@[n] by {
                assert(e1.strategies@[n] == old(self).strategies@[n]);
                assert(e2.strategies@[n] == e1.strategies@[n]);
            }
        }
        match signal {
            Some(side) => Ok(Some((side, name))),
            None => Ok(None),
        }
    }

    /// Changes the usual strategy where the user has asked for another. What the
    /// log says.
    pub fn handle_strategy_switch(&mut self, st: &mut UiState) -> (r: Option<String>)
        requires
            old(self).gyldig(),
        ensures
            final(self).gyldig(),
            final(st).strategy_request is None,
            (match old(st).strategy_request {
                None => r is None && final(st).strategy_name == old(st).strategy_name && *final(self) == *old(self),
                Some(name) => if strategy::oppsett_av(name@, &old(self).cfg.strategy) is Some {
                    r is Some && r->0@ == "Standardstrategi byttet til "@ + name@ + "."@
                        && final(st).strategy_name@ == name@ && final(self).strategies@.dom() == old(
                        self,
                    ).strategies@.dom().insert(name@) && (!old(self).strategies@.dom().contains(name@) ==> (forall|
                        s: Seq<char>,
                    | #[trigger]
                        minne(*final(self), name@, s) == strategy::oppsett_av(
                            name@,
                            &old(self).cfg.strategy,
                        )->0.blankt()))
                } else {
                    r is Some && r->0@ == ukjent_tekst(name@)
                        && final(st).strategy_name == old(st).strategy_name && *final(self) == *old(self)
                },
            }),
            forall|n: Seq<char>| #[trigger]
                old(self).strategies@.dom().contains(n) ==> final(self).strategies@.dom().contains(n)
                    && final(self).strategies@[n] == old(self).strategies@[n],
            *final(st) == (UiState {
                strategy_request: None,
                strategy_name: final(st).strategy_name,
                ..*old(st)
            }),
            *final(self) == (Engine { strategies: final(self).strategies, ..*old(self) }),
    {
        let name: String = match st.strategy_request.as_ref() {
            Some(n) => copy_text(n),
            None => return None,
        };
        st.strategy_request = None;
        if self.ensure_strategy(name.as_str()) {
            proof {
                if old(self).strategies@.dom().contains(name@) {
                    assert(strategy::oppsett_av(name@, &old(self).cfg.strategy) is Some);
                }
            }
            st.strategy_name = copy_text(&name);
            Some(three("Standardstrategi byttet til ", name.as_str(), "."))
        } else {
            proof {
                assert(strategy::oppsett_av(name@, &old(self).cfg.strategy) is None);
            }
            let b: String = two(": ukjent strategi: ", name.as_str());
            Some(three("Ukjent strategi ", name.as_str(), b.as_str()))
        }
    }
}

// ---------------------------------------------------------------------------
// From a price to an order
// ---------------------------------------------------------------------------

/// What a price leads to.
#[derive(Debug)]
pub enum Tikkutfall {
    Ingenting,
    /// A line in the log, and perhaps a message to the telephone.
    Logg(String, Option<String>),
    /// An order, with its price in the currency of the account and its reason.
    Ordre { side: Side, qty: i64, price: i64, note: String },
}

/// Whether strategies may trade in a symbol: neither the kill switch nor the
/// pause is on, and the exchange is open where that matters.
pub open spec fn handler(e: Engine, f: Flags, symbol: Seq<char>, sekund: i64) -> bool {
    !f.killed && !f.paused && (e.cfg.market_hours_only ==> marketdata::aapent_ved(symbol, sekund as int))
}

/// What a price leads to, by the signal, the price in the currency of the
/// account, and what is held.
pub open spec fn utfall_av(
    e: Engine,
    signal: Option<Side>,
    name: Seq<char>,
    pris: Option<int>,
    symbol: Seq<char>,
    holdt: int,
    equity: int,
    naa: u64,
    r: Tikkutfall,
) -> bool {
    let c = e.cfg.strategy;
    match (signal, pris) {
        (Some(side), Some(px)) => match ordrer::signalantall(
            side,
            holdt,
            c.order_value as int,
            c.order_qty as int,
            px,
            types::krypto(symbol),
        ) {
            None => r is Ingenting,
            Some(n) => if n <= 0 {
                r is Logg && r->Logg_0@ == ordrer::rekker_ikke_tekst(symbol, c.order_value as int, px)
                    && r->Logg_1 is None
            } else {
                match e.risk.dom_over(n * px, ordrer::signalverdi(side, holdt, n, px), equity, naa) {
                    Some(grunn) => r is Logg && r->Logg_0@ == ordrer::signal_blokkert(side, symbol, grunn)
                        && ordrer::valgfri(r->Logg_1) == ordrer::blokkert_varsel(grunn),
                    None => match r {
                        Tikkutfall::Ordre { side: s, qty, price, note } => s == side && qty == n && price == px
                            && note@ == "signal fra "@ + name,
                        _ => false,
                    },
                }
            },
        },
        _ => r is Ingenting,
    }
}

/// The times of cleared orders after a price.
pub open spec fn tider_av(
    e: Engine,
    signal: Option<Side>,
    pris: Option<int>,
    symbol: Seq<char>,
    holdt: int,
    equity: int,
    naa: u64,
) -> Seq<u64> {
    let c = e.cfg.strategy;
    match (signal, pris) {
        (Some(side), Some(px)) => match ordrer::signalantall(
            side,
            holdt,
            c.order_value as int,
            c.order_qty as int,
            px,
            types::krypto(symbol),
        ) {
            Some(n) => if n > 0 {
                e.risk.tider(n * px, ordrer::signalverdi(side, holdt, n, px), equity, naa)
            } else {
                e.risk.order_times@
            },
            None => e.risk.order_times@,
        },
        _ => e.risk.order_times@,
    }
}

impl Engine {
    /// What a fresh price leads to. While the kill switch or the pause is on, or
    /// the exchange is closed, the strategy does not even see it.
    pub fn tikk_kurs(
        &mut self,
        st: &UiState,
        flags: &Flags,
        q: &Quote,
        positions: &Vec<Position>,
        equity: i128,
        sekund: i64,
        naa: u64,
    ) -> (r: Tikkutfall)
        requires
            old(self).gyldig(),
            st.gyldig(),
            old(self).risk.kan_maale(equity as int),
        ensures
            final(self).gyldig(),
            !handler(*old(self), *flags, q.symbol@, sekund) ==> r is Ingenting && *final(self) == *old(self),
            handler(*old(self), *flags, q.symbol@, sekund) ==> ({
                let signal = signal_av(*old(self), *st, q.symbol@, q.last, sekund);
                let pris = engine::grunnpris(q@, old(self).cfg.base_currency@, old(self).fx@);
                let holdt = engine::antall_av(types::posisjoner(positions@), q.symbol@);
                &&& ukjent(*old(self), *st, q.symbol@, q.last, sekund) ==> r is Logg && r->Logg_0@ == ukjent_tekst(
                    navn_for(*st, q.symbol@),
                ) && r->Logg_1 is None
                &&& !ukjent(*old(self), *st, q.symbol@, q.last, sekund) ==> utfall_av(
                    *old(self),
                    signal,
                    navn_for(*st, q.symbol@),
                    pris,
                    q.symbol@,
                    holdt,
                    equity as int,
                    naa,
                    r,
                )
                &&& etter_tikk(*old(self), *final(self), *st, q.symbol@, q.last, sekund)
                &&& final(self).risk.order_times@ == tider_av(
                    *old(self),
                    signal,
                    pris,
                    q.symbol@,
                    holdt,
                    equity as int,
                    naa,
                )
            }),
            final(self).risk.cfg == old(self).risk.cfg && final(self).risk.start_equity
                == old(self).risk.start_equity,
            *final(self) == (Engine {
                strategies: final(self).strategies,
                strategy_seeded: final(self).strategy_seeded,
                tf_buckets: final(self).tf_buckets,
                risk: final(self).risk,
                ..*old(self)
            }),
    {
        if flags.killed || flags.paused {
            return Tikkutfall::Ingenting;
        }
        if self.cfg.market_hours_only && !is_trading_open(q.symbol.as_str(), sekund) {
            return Tikkutfall::Ingenting;
        }
        let (side, name): (Side, String) = match self.signal_on_tick(st, q.symbol.as_str(), q.last, sekund) {
            Ok(Some(t)) => t,
            Ok(None) => return Tikkutfall::Ingenting,
            Err(t) => return Tikkutfall::Logg(t, None),
        };
        let px: i64 = match self.base_price(q) {
            Some(p) => p,
            None => return Tikkutfall::Ingenting,
        };
        let held: i64 = holdt_antall(positions, q.symbol.as_str());
        let ghost midt = *self;
        let u: SignalUtfall = self.vurder_signal(q.symbol.as_str(), side, px, held, equity, naa);
        assert(etter_tikk(*old(self), *self, *st, q.symbol@, q.last, sekund)) by {
            assert(etter_tikk(*old(self), midt, *st, q.symbol@, q.last, sekund));
            assert(self.strategies == midt.strategies && self.cfg == midt.cfg);
            let name = navn_for(*st, q.symbol@);
            assert forall|s: Seq<char>| #[trigger] minne(*self, name, s) == minne(midt, name, s) by {}
        }
        match u {
            SignalUtfall::Ingenting => Tikkutfall::Ingenting,
            SignalUtfall::ForLite(t) => Tikkutfall::Logg(t, None),
            SignalUtfall::Blokkert(t, v) => Tikkutfall::Logg(t, v),
            SignalUtfall::Send(n) => {
                let note: String = two("signal fra ", name.as_str());
                Tikkutfall::Ordre { side, qty: n, price: px, note }
            },
        }
    }

    /// The quote that an order of the user goes by: the fresh one, or the last
    /// known.
    pub open spec fn kurs_for_manuell(fresh: Seq<KursSyn>, st: UiState, symbol: Seq<char>) -> Option<KursSyn> {
        match engine::kurs_for(fresh, symbol, 0) {
            Some(q) => Some(q),
            None => if st.quotes@.dom().contains(symbol) {
                Some(st.quotes@[symbol]@)
            } else {
                None
            },
        }
    }

    /// What becomes of an order of the user, by the fresh quotes or the last
    /// known one, and what is held.
    pub fn tikk_manuell(
        &mut self,
        st: &UiState,
        flags: &Flags,
        ordre: &(String, Side, i64),
        fresh: &Vec<Quote>,
        positions: &Vec<Position>,
        equity: i128,
        naa: u64,
    ) -> (r: ManuellUtfall)
        requires
            old(self).gyldig(),
            st.gyldig(),
            ordre.2 > i64::MIN,
            old(self).risk.kan_maale(equity as int),
        ensures
            final(self).gyldig(),
            flags.killed ==> r is Logg && r->Logg_0@ == ordrer::forkastet_tekst(ordre.1, ordre.0@) && *final(self)
                == *old(self),
            !flags.killed ==> (match (match Self::kurs_for_manuell(engine::kurser(fresh@), *st, ordre.0@) {
                Some(q) => engine::grunnpris(q, old(self).cfg.base_currency@, old(self).fx@),
                None => None,
            }) {
                None => r is Logg && r->Logg_0@ == ordrer::uten_kurs_tekst(ordre.0@) && *final(self) == *old(self),
                Some(px) => {
                    let etter = ordrer::verdi_etter(
                        ordre.1,
                        engine::antall_av(types::posisjoner(positions@), ordre.0@),
                        ordre.2 as int,
                        px,
                    );
                    &&& final(self).risk.order_times@ == old(self).risk.tider(ordre.2 * px, etter, equity as int, naa)
                    &&& match old(self).risk.dom_over(ordre.2 * px, etter, equity as int, naa) {
                        Some(grunn) => r is Logg && r->Logg_0@ == ordrer::manuell_blokkert(ordre.1, ordre.0@, grunn),
                        None => r is Send && r->Send_0 == px,
                    }
                },
            }),
            final(self).risk.cfg == old(self).risk.cfg && final(self).risk.start_equity
                == old(self).risk.start_equity,
            *final(self) == (Engine { risk: final(self).risk, ..*old(self) }),
    {
        let symbol: &str = ordre.0.as_str();
        let kurs: Option<&Quote> = match finn_kurs(fresh, symbol) {
            Some(q) => Some(q),
            None => st.quotes.hent(symbol),
        };
        let held: i64 = holdt_antall(positions, symbol);
        self.vurder_manuell(symbol, ordre.1, ordre.2, flags.killed, kurs, held, equity, naa)
    }
}

// ---------------------------------------------------------------------------
// What the engine says
// ---------------------------------------------------------------------------

/// What the log says when the engine begins.
pub fn startlogg(cfg: &Config, megler: &str) -> (r: String)
    ensures
        r@ == "Engine startet — modus="@ + cfg.mode@ + (", megler="@ + megler@ + (", strategi="@ + cfg.strategy.name@)),
{
    let c: String = two(", strategi=", cfg.strategy.name.as_str());
    let b: String = three(", megler=", megler, c.as_str());
    three("Engine startet — modus=", cfg.mode.as_str(), b.as_str())
}

/// What the telephone is told when the engine begins.
pub fn startvarsel(cfg: &Config, megler: &str) -> (r: String)
    ensures
        r@ == "Startet i "@ + cfg.mode@ + ("-modus (megler: "@ + megler@ + (", strategi: "@ + cfg.strategy.name@
            + ")."@)),
{
    let c: String = three(", strategi: ", cfg.strategy.name.as_str(), ").");
    let b: String = three("-modus (megler: ", megler, c.as_str());
    three("Startet i ", cfg.mode.as_str(), b.as_str())
}

/// What the log says of a history that was fetched: how long it is, or that it
/// is empty.
pub fn historikklogg(symbol: &str, dager: usize) -> (r: String)
    ensures
        r@ == (if dager > 0 {
            symbol@ + ": sådd med "@ + (number_text::decimal(dager as nat) + " dagers historikk"@)
        } else {
            symbol@ + ": tom historikk fra Yahoo"@
        }),
{
    if dager > 0 {
        let n: String = number_text::decimal_text(dager as u128);
        let b: String = two(n.as_str(), " dagers historikk");
        three(symbol, ": sådd med ", b.as_str())
    } else {
        two(symbol, ": tom historikk fra Yahoo")
    }
}

/// What the log says of candles that were fetched, or were not.
pub fn intradaglogg(symbol: &str, lys: usize) -> (r: String)
    ensures
        r@ == (if lys > 0 {
            symbol@ + ": "@ + (number_text::decimal(lys as nat) + " intradag-lys (5 min) til tidsramme-strategien"@)
        } else {
            symbol@ + ": fikk ikke intradag-historikk — strategien varmes opp av live-lys i stedet"@
        }),
{
    if lys > 0 {
        let n: String = number_text::decimal_text(lys as u128);
        let b: String = two(n.as_str(), " intradag-lys (5 min) til tidsramme-strategien");
        three(symbol, ": ", b.as_str())
    } else {
        two(symbol, ": fikk ikke intradag-historikk — strategien varmes opp av live-lys i stedet")
    }
}

/// The symbol under which the rate of a currency is quoted.
pub fn valutasymbol(valuta: &str, base: &str) -> (r: String)
    ensures
        r@ == valuta@ + base@ + "=X"@,
{
    three(valuta, base, "=X")
}

/// Nothing is traded with the kill switch on or the strategy at rest, nor, where
/// the hours are kept, while the exchange is closed; otherwise it is.
pub proof fn law_naar_det_handles(e: Engine, f: Flags, symbol: Seq<char>, sekund: i64)
    ensures
        f.killed || f.paused ==> !handler(e, f, symbol, sekund),
        e.cfg.market_hours_only && !marketdata::aapent_ved(symbol, sekund as int) ==> !handler(e, f, symbol, sekund),
        !f.killed && !f.paused && marketdata::aapent_ved(symbol, sekund as int) ==> handler(e, f, symbol, sekund),
        !f.killed && !f.paused && !e.cfg.market_hours_only ==> handler(e, f, symbol, sekund),
{
}

/// Without candles a strategy sees every price. With candles it sees none while
/// one lasts, and the last price of it when the next begins.
pub proof fn law_prisen_som_ses(e: Engine, symbol: Seq<char>, price: i64, naa: i64)
    requires
        naa >= 0,
        e.cfg.strategy.timeframe_min <= 0x7fff_ffff,
    ensures
        e.cfg.strategy.timeframe_min == 0 ==> sett_pris(e, symbol, price, naa) == Some(price),
        e.cfg.strategy.timeframe_min > 0 && e.lys(symbol) is None ==> sett_pris(e, symbol, price, naa) is None,
        e.cfg.strategy.timeframe_min > 0 ==> (e.lys(symbol) matches Some(l) ==> {
            let lengde = e.cfg.strategy.timeframe_min * 60;
            &&& l.0 * lengde <= naa < (l.0 + 1) * lengde ==> sett_pris(e, symbol, price, naa) is None
            &&& !(l.0 * lengde <= naa < (l.0 + 1) * lengde) ==> sett_pris(e, symbol, price, naa) == Some(l.1)
        }),
{
    let t = e.cfg.strategy.timeframe_min as int;
    if t > 0 {
        let lengde = t * 60;
        belop::law_kvotient(naa as int, lengde);
        let q = belop::kvotient(naa as int, lengde);
        assert(0 <= q <= naa) by (nonlinear_arith)
            requires
                0 <= q,
                q * lengde <= naa,
                lengde >= 1,
        ;
        match e.lys(symbol) {
            Some(l) => {
                let b = l.0 as int;
                assert((b * lengde <= naa < (b + 1) * lengde) <==> b == q) by (nonlinear_arith)
                    requires
                        q * lengde <= naa < (q + 1) * lengde,
                        lengde > 0,
                ;
            },
            None => {},
        }
    }
}

/// An order follows a signal and is for its side: a purchase only where nothing
/// is held, a sale of all that is. It is within the limit of an order, of a
/// position and of the loss of the day.
pub proof fn law_ordren_folger_signalet(
    e: Engine,
    signal: Option<Side>,
    name: Seq<char>,
    pris: Option<int>,
    symbol: Seq<char>,
    holdt: int,
    equity: int,
    naa: u64,
    r: Tikkutfall,
)
    requires
        utfall_av(e, signal, name, pris, symbol, holdt, equity, naa, r),
        pris matches Some(px) ==> px > 0,
    ensures
        signal is None || pris is None ==> r is Ingenting,
        signal == Some(Side::Buy) && holdt > 0 ==> r is Ingenting,
        signal == Some(Side::Sell) && holdt <= 0 ==> r is Ingenting,
        r matches Tikkutfall::Ordre { side, qty, price, note } ==> {
            &&& signal == Some(side)
            &&& pris == Some(price as int)
            &&& qty > 0
            &&& side == Side::Sell ==> qty == holdt
            &&& side == Side::Buy && e.cfg.strategy.order_value <= 0 ==> qty == e.cfg.strategy.order_qty
            &&& side == Side::Buy && e.cfg.strategy.order_value > 0 ==> qty * price <= e.cfg.strategy.order_value
                * 100_000_000
            &&& qty * price <= e.risk.cfg.max_order_value * 100_000_000
            &&& side == Side::Buy ==> holdt * price + qty * price <= e.risk.cfg.max_position_value * 100_000_000
            &&& e.risk.start_equity matches Some(s) ==> s - equity < e.risk.cfg.max_daily_loss * 100_000_000
        },
{
    let c = e.cfg.strategy;
    match pris {
        Some(px) => {
            ordrer::law_signalet(holdt, c.order_value as int, c.order_qty as int, px, types::krypto(symbol));
            match r {
                Tikkutfall::Ordre { side, qty, price, note } => {
                    ordrer::law_verdien_etter(holdt, qty as int, price as int);
                },
                _ => {},
            }
        },
        None => {},
    }
}

}
