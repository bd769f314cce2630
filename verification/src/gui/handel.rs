//! The view for trading: the watchlist, strategies and backtests, quick orders
//! and alarms.
use vstd::prelude::*;

use crate::backtest;
use crate::backtest::BacktestResult;
use crate::belop;
use crate::engine::vakt;
use crate::gui;
use crate::gui::{fmt_verdi, updown, Farge};
use crate::number_text;
use crate::state;
use crate::state::{behold_siste, Alarm, UiState};
use crate::strategy;
use crate::text;
use crate::text::{copy_text, same, string_of, three, two};
use crate::types::{Candle, ExternalPosition, Position, Quote, Side};

verus! {

// ---------------------------------------------------------------------------
// The watchlist
// ---------------------------------------------------------------------------

pub open spec fn tekst_av(o: Option<String>) -> Option<Seq<char>> {
    match o {
        Some(s) => Some(s@),
        None => None,
    }
}

/// The first symbol that has a quote.
pub open spec fn forste(st: UiState) -> Option<Seq<char>> {
    if st.quotes.rader@.len() > 0 {
        Some(st.quotes.rader@[0].0@)
    } else {
        None
    }
}

pub fn forste_symbol(st: &UiState) -> (r: Option<String>)
    ensures
        tekst_av(r) == forste(*st),
{
    if st.quotes.rader.len() > 0 {
        Some(copy_text(&st.quotes.rader[0].0))
    } else {
        None
    }
}

/// The last thirty prices of a symbol, for the small curve, and its colour.
pub open spec fn kurve(st: UiState, symbol: Seq<char>) -> Seq<(i64, i64)> {
    if st.history@.dom().contains(symbol) {
        state::siste(st.history@[symbol]@, 30)
    } else {
        Seq::empty()
    }
}

pub open spec fn kurvefarge(l: Seq<(i64, i64)>) -> Farge {
    if l.len() == 0 {
        Farge::Graa
    } else {
        gui::opp_ned(l.last().1 - l[0].1)
    }
}

pub fn sparkline(st: &UiState, symbol: &str) -> (r: (Vec<(i64, i64)>, Farge))
    requires
        st.gyldig(),
    ensures
        r.0@ == kurve(*st, symbol@),
        r.1 == kurvefarge(kurve(*st, symbol@)),
{
    let mut l: Vec<(i64, i64)> = Vec::new();
    if let Some(h) = st.history.hent(symbol) {
        let mut i: usize = 0;
        while i < h.len()
            invariant
                i <= h@.len(),
                l@ =~= h@.take(i as int),
            decreases h.len() - i,
        {
            l.push(h[i]);
            i += 1;
        }
        assert(l@ =~= h@);
        behold_siste(&mut l, 30);
    }
    let n: usize = l.len();
    let f: Farge = if n == 0 {
        Farge::Graa
    } else if l[n - 1].1 >= l[0].1 {
        Farge::Gronn
    } else {
        Farge::Rod
    };
    (l, f)
}

/// Takes a symbol off the watchlist, with its quote. Where it was the chosen
/// one, the first that is left is chosen.
pub fn fjern_symbol(st: &mut UiState, valgt: &mut Option<String>, symbol: &str, naa: i64)
    requires
        old(st).gyldig(),
    ensures
        final(st).gyldig(),
        text::views(final(st).watchlist@) == state::uten(text::views(old(st).watchlist@), symbol@),
        final(st).quotes@ == old(st).quotes@.remove(symbol@),
        state::meldinger(final(st).logs@) == state::forste(
            state::meldinger(old(st).logs@).insert(0, (naa, symbol@ + " fjernet fra watchlisten."@)),
            state::MEST_LOGG as nat,
        ),
        tekst_av(*final(valgt)) == (if tekst_av(*old(valgt)) == Some(symbol@) {
            forste(*final(st))
        } else {
            tekst_av(*old(valgt))
        }),
        *final(st) == (UiState {
            watchlist: final(st).watchlist,
            quotes: final(st).quotes,
            logs: final(st).logs,
            ..*old(st)
        }),
{
    st.unfollow(symbol);
    let _ = st.quotes.ta(symbol);
    let var_valgt: bool = match valgt.as_ref() {
        Some(v) => same(v.as_str(), symbol),
        None => false,
    };
    let m: String = two(symbol, " fjernet fra watchlisten.");
    st.log(m.as_str(), naa);
    if var_valgt {
        *valgt = forste_symbol(st);
    }
}

// ---------------------------------------------------------------------------
// Strategies
// ---------------------------------------------------------------------------

/// Gives a symbol a strategy of its own, or the usual one for "standard".
/// Whether anything changed.
pub fn bruk_strategi(st: &mut UiState, symbol: &str, navn: &str, naa: i64) -> (r: bool)
    requires
        old(st).gyldig(),
    ensures
        final(st).gyldig(),
        navn@ == "standard"@ ==> final(st).symbol_strategy@ == old(st).symbol_strategy@.remove(symbol@) && r
            == old(st).symbol_strategy@.dom().contains(symbol@) && final(st).logs == old(st).logs,
        navn@ != "standard"@ ==> r && final(st).symbol_strategy@.dom() == old(st).symbol_strategy@.dom().insert(
            symbol@,
        ) && final(st).symbol_strategy@[symbol@]@ == navn@ && (forall|s: Seq<char>|
            s != symbol@ && #[trigger] old(st).symbol_strategy@.dom().contains(s) ==> final(st).symbol_strategy@[s]
                == old(st).symbol_strategy@[s]) && state::meldinger(final(st).logs@) == state::forste(
            state::meldinger(old(st).logs@).insert(
                0,
                (naa, symbol@ + " bruker nå strategien "@ + (navn@ + "."@)),
            ),
            state::MEST_LOGG as nat,
        ),
        *final(st) == (UiState { symbol_strategy: final(st).symbol_strategy, logs: final(st).logs, ..*old(st) }),
{
    if same(navn, "standard") {
        return st.symbol_strategy.ta(symbol).is_some();
    }
    st.symbol_strategy.sett(symbol, navn.to_owned());
    let b: String = two(navn, ".");
    let m: String = three(symbol, " bruker nå strategien ", b.as_str());
    st.log(m.as_str(), naa);
    assert(st.symbol_strategy@.dom() =~= old(st).symbol_strategy@.dom().insert(symbol@));
    true
}

/// A backtest of a strategy on the chosen symbol, over its candles.
pub fn run_backtest(selected: Option<&str>, strategy_name: &str, st: &UiState) -> (r: Result<BacktestResult, String>)
    requires
        st.gyldig(),
        st.strategy_cfg.holdbar(),
    ensures
        (match selected {
            None => r is Err && r->Err_0@ == "Velg et symbol i watchlisten først."@,
            Some(s) => if st.candles@.dom().contains(s@) {
                testet(r, s@, st.candles@[s@]@, strategy_name@, *st)
            } else {
                r is Err && r->Err_0@ == "Ingen historikk ennå — vent til kursene er lastet."@
            },
        }),
{
    let symbol: &str = match selected {
        Some(s) => s,
        None => return Err("Velg et symbol i watchlisten først.".to_owned()),
    };
    let candles: &Vec<Candle> = match st.candles.hent(symbol) {
        Some(c) => c,
        None => return Err("Ingen historikk ennå — vent til kursene er lastet.".to_owned()),
    };
    backtest::run(symbol, candles.as_slice(), strategy_name, &st.strategy_cfg, &st.backtest_cfg)
}

/// Whether a result is that of a backtest over candles.
pub open spec fn testet(
    r: Result<BacktestResult, String>,
    symbol: Seq<char>,
    candles: Seq<Candle>,
    navn: Seq<char>,
    st: UiState,
) -> bool {
    if candles.len() == 0 {
        r is Err && r->Err_0@ == "ingen historikk å teste på"@
    } else {
        match strategy::oppsett_av(navn, &st.strategy_cfg) {
            None => r is Err && r->Err_0@ == "ukjent strategi: "@ + navn,
            Some(o) => match backtest::forlop(o, candles, st.backtest_cfg) {
                None => r is Err && r->Err_0@ == "tallene ble for store"@,
                Some((m, k)) => r is Ok && backtest::oppsummert(r->Ok_0, k, candles) && r->Ok_0.strategy@ == navn
                    && r->Ok_0.symbol@ == symbol,
            },
        }
    }
}

/// The best return among the results that there are.
pub open spec fn beste(l: Seq<Result<BacktestResult, String>>) -> Option<i128>
    decreases l.len(),
{
    if l.len() == 0 {
        None
    } else {
        let for_ = beste(l.drop_last());
        match l.last() {
            Err(_) => for_,
            Ok(r) => match for_ {
                Some(b) => if b >= r.return_pct {
                    Some(b)
                } else {
                    Some(r.return_pct)
                },
                None => Some(r.return_pct),
            },
        }
    }
}

pub fn beste_avkastning(l: &Vec<Result<BacktestResult, String>>) -> (r: Option<i128>)
    ensures
        r == beste(l@),
{
    let mut ut: Option<i128> = None;
    let mut i: usize = 0;
    assert(l@.take(0) =~= Seq::empty());
    while i < l.len()
        invariant
            i <= l@.len(),
            ut == beste(l@.take(i as int)),
        decreases l.len() - i,
    {
        proof {
            assert(l@.take(i + 1).drop_last() =~= l@.take(i as int));
            assert(l@.take(i + 1).last() == l@[i as int]);
        }
        if let Ok(r) = &l[i] {
            ut = match ut {
                Some(b) => if b >= r.return_pct {
                    Some(b)
                } else {
                    Some(r.return_pct)
                },
                None => Some(r.return_pct),
            };
        }
        i += 1;
    }
    assert(l@.take(i as int) =~= l@);
    ut
}

/// The best is one of the returns, and none is above it.
pub proof fn law_beste_er_best(l: Seq<Result<BacktestResult, String>>)
    ensures
        beste(l) is Some == (exists|i: int| 0 <= i < l.len() && (#[trigger] l[i]) is Ok),
        beste(l) matches Some(b) ==> (exists|i: int| 0 <= i < l.len() && (#[trigger] l[i]) is Ok && l[i]->Ok_0.return_pct == b)
            && forall|i: int| 0 <= i < l.len() && (#[trigger] l[i]) is Ok ==> l[i]->Ok_0.return_pct <= b,
    decreases l.len(),
{
    if l.len() > 0 {
        let d = l.drop_last();
        law_beste_er_best(d);
        assert(l[l.len() - 1] == l.last());
        assert forall|i: int| 0 <= i < d.len() implies #[trigger] l[i] == d[i] by {}
        if beste(d) is Some {
            let i = choose|i: int| 0 <= i < d.len() && (#[trigger] d[i]) is Ok && d[i]->Ok_0.return_pct == beste(d)->0;
            assert(l[i] == d[i]);
        }
        if l.last() is Ok {
            assert(l[l.len() - 1] is Ok);
        }
    }
}

/// How many trades won, of how many.
pub open spec fn treff(r: BacktestResult) -> Seq<char> {
    if r.trades@.len() == 0 {
        "–"@
    } else {
        number_text::decimal(backtest::gevinster(r.trades@)) + "/"@ + number_text::decimal(r.trades@.len())
    }
}

pub fn skriv_treff(r: &BacktestResult) -> (t: String)
    ensures
        t@ == treff(*r),
{
    if r.trades.len() == 0 {
        return "–".to_owned();
    }
    let a: String = number_text::decimal_text(r.wins() as u128);
    let b: String = number_text::decimal_text(r.trades.len() as u128);
    three(a.as_str(), "/", b.as_str())
}

/// The line under a backtest.
pub open spec fn oppsummering(r: BacktestResult) -> Seq<char> {
    number_text::decimal(r.trades@.len()) + " handler, "@ + (number_text::decimal(backtest::gevinster(r.trades@))
        + " med gevinst"@ + ((if r.open_entry is Some {
        " (én fortsatt åpen)"@
    } else {
        Seq::empty()
    }) + " — kostnader: "@ + (belop::belop_tekst(r.costs_paid as int, 0) + " kr"@)))
}

pub fn skriv_oppsummering(r: &BacktestResult) -> (t: String)
    ensures
        t@ == oppsummering(*r),
{
    let kc: Vec<char> = belop::skriv(r.costs_paid, 8, 0);
    let kt: String = string_of(kc.as_slice());
    let d: String = two(kt.as_str(), " kr");
    let tom: String = string_of(&[]);
    assert(tom@ =~= Seq::empty());
    let aapen: String = match r.open_entry {
        Some(_) => " (én fortsatt åpen)".to_owned(),
        None => tom,
    };
    let c: String = three(aapen.as_str(), " — kostnader: ", d.as_str());
    let w: String = number_text::decimal_text(r.wins() as u128);
    let b: String = three(w.as_str(), " med gevinst", c.as_str());
    let n: String = number_text::decimal_text(r.trades.len() as u128);
    three(n.as_str(), " handler, ", b.as_str())
}

// ---------------------------------------------------------------------------
// Quick orders
// ---------------------------------------------------------------------------

pub open spec fn ko_tekst(symbol: Seq<char>, side: Side, qty: int) -> Seq<char> {
    "Manuell "@ + side.tekst_spec() + (" "@ + symbol + (" x"@ + belop::belop_tekst(qty, 0) + " lagt i kø."@))
}

/// Puts an order of the user in the queue; the engine takes it at its next
/// tick, through the rules on risk.
pub fn legg_i_ko(st: &mut UiState, symbol: &str, side: Side, qty: i64, naa: i64)
    ensures
        final(st).manual_orders@.len() == old(st).manual_orders@.len() + 1,
        final(st).manual_orders@.drop_last() == old(st).manual_orders@,
        final(st).manual_orders@.last().0@ == symbol@,
        final(st).manual_orders@.last().1 == side,
        final(st).manual_orders@.last().2 == qty,
        state::meldinger(final(st).logs@) == state::forste(
            state::meldinger(old(st).logs@).insert(0, (naa, ko_tekst(symbol@, side, qty as int))),
            state::MEST_LOGG as nat,
        ),
        *final(st) == (UiState { manual_orders: final(st).manual_orders, logs: final(st).logs, ..*old(st) }),
{
    st.manual_orders.push((symbol.to_owned(), side, qty));
    let q: String = belop::som_tekst(qty, 0);
    let c: String = three(" x", q.as_str(), " lagt i kø.");
    let b: String = three(" ", symbol, c.as_str());
    let m: String = three("Manuell ", side.tekst(), b.as_str());
    st.log(m.as_str(), naa);
    assert(st.manual_orders@.drop_last() =~= old(st).manual_orders@);
}

// ---------------------------------------------------------------------------
// Alarms
// ---------------------------------------------------------------------------

/// A price with two decimals, half away from nothing.
pub open spec fn to_desimaler(v: int) -> int {
    if v < 0 {
        -((-v + 500_000) / 1_000_000 * 1_000_000)
    } else {
        (v + 500_000) / 1_000_000 * 1_000_000
    }
}

/// The level that the form begins with: the price, where none was chosen.
pub fn alarmforslag(nivaa: i64, q: Option<&Quote>) -> (r: i128)
    ensures
        r == (if nivaa <= 0 && q is Some {
            to_desimaler(q->0.last as int)
        } else {
            nivaa as int
        }),
{
    if nivaa > 0 {
        return nivaa as i128;
    }
    match q {
        Some(k) => {
            let v: i128 = k.last as i128;
            if v < 0 {
                -((-v + 500_000) / 1_000_000 * 1_000_000)
            } else {
                (v + 500_000) / 1_000_000 * 1_000_000
            }
        },
        None => nivaa as i128,
    }
}

pub open spec fn retning(above: bool) -> Seq<char> {
    if above {
        "over"@
    } else {
        "under"@
    }
}

fn retningstekst(above: bool) -> (r: &'static str)
    ensures
        r@ == retning(above),
{
    if above {
        "over"
    } else {
        "under"
    }
}

pub open spec fn alarmlinje(symbol: Seq<char>, above: bool, level: int) -> Seq<char> {
    symbol + " "@ + (retning(above) + " "@ + belop::belop_tekst(level, 2))
}

fn skriv_alarmlinje(symbol: &str, above: bool, level: i64) -> (r: String)
    ensures
        r@ == alarmlinje(symbol@, above, level as int),
{
    let n: String = belop::som_tekst(level, 2);
    let b: String = three(retningstekst(above), " ", n.as_str());
    three(symbol, " ", b.as_str())
}

/// Adds an alarm at a level above nothing. Whether it was added.
pub fn legg_til_alarm(st: &mut UiState, symbol: &str, level: i64, above: bool, naa: i64) -> (r: bool)
    ensures
        r == (level > 0),
        !r ==> *final(st) == *old(st),
        r ==> vakt::alarmer(final(st).alarms@) == vakt::alarmer(old(st).alarms@).push(
            vakt::AlarmSyn { symbol: symbol@, level: level as int, above, triggered: false },
        ) && state::meldinger(final(st).logs@) == state::forste(
            state::meldinger(old(st).logs@).insert(
                0,
                (naa, "Alarm lagt til: "@ + alarmlinje(symbol@, above, level as int)),
            ),
            state::MEST_LOGG as nat,
        ),
        *final(st) == (UiState { alarms: final(st).alarms, logs: final(st).logs, ..*old(st) }),
{
    if level <= 0 {
        return false;
    }
    let ghost for_ = vakt::alarmer(st.alarms@);
    let ghost ny = vakt::AlarmSyn { symbol: symbol@, level: level as int, above, triggered: false };
    st.alarms.push(Alarm { symbol: symbol.to_owned(), level, above, triggered: false });
    assert(vakt::alarmer(st.alarms@) =~= for_.push(ny));
    let l: String = skriv_alarmlinje(symbol, above, level);
    let m: String = two("Alarm lagt til: ", l.as_str());
    st.log(m.as_str(), naa);
    true
}

/// An alarm in the list, and its colour; one that has gone off says so.
pub fn vis_alarm(a: &Alarm) -> (r: (String, Farge))
    ensures
        r.0@ == (if a.triggered {
            alarmlinje(a.symbol@, a.above, a.level as int) + " — utløst ✔"@
        } else {
            alarmlinje(a.symbol@, a.above, a.level as int)
        }),
        r.1 == (if a.triggered {
            Farge::Graa
        } else {
            Farge::Gul
        }),
{
    let l: String = skriv_alarmlinje(a.symbol.as_str(), a.above, a.level);
    if a.triggered {
        (two(l.as_str(), " — utløst ✔"), Farge::Graa)
    } else {
        (l, Farge::Gul)
    }
}

// ---------------------------------------------------------------------------
// Positions
// ---------------------------------------------------------------------------

/// One line of the positions: how many, what they are worth, and the gain.
#[derive(Debug)]
pub struct Posisjonslinje {
    pub navn: String,
    pub antall: String,
    pub verdi: String,
    pub gevinst: String,
    pub farge: Farge,
}

pub fn posisjonslinje(p: &Position) -> (r: Posisjonslinje)
    ensures
        ({
            let u = (p.last - p.avg_price) * p.qty;
            &&& r.navn@ == p.symbol@
            &&& r.antall@ == belop::belop_tekst(p.qty as int, 0)
            &&& r.verdi@ == gui::tusener(p.qty * p.last)
            &&& r.gevinst@ == crate::engine::rapport::verdi_med_fortegn(u)
            &&& r.farge == gui::opp_ned(u)
        }),
{
    let u: i128 = p.unrealized();
    let uc: Vec<char> = belop::skriv(u, 16, 0);
    let ut: String = string_of(uc.as_slice());
    let gevinst: String = if u < 0 {
        ut
    } else {
        two("+", ut.as_str())
    };
    Posisjonslinje {
        navn: copy_text(&p.symbol),
        antall: belop::som_tekst(p.qty, 0),
        verdi: fmt_verdi(p.market_value()),
        gevinst,
        farge: updown(u),
    }
}

/// What a position that is only read is called: its symbol, or its name where
/// the symbol is not known.
pub fn ekstern_navn(p: &ExternalPosition) -> (r: String)
    ensures
        r@ == "[NN] "@ + (if p.symbol@ == "?"@ {
            p.name@
        } else {
            p.symbol@
        }),
{
    if same(p.symbol.as_str(), "?") {
        two("[NN] ", p.name.as_str())
    } else {
        two("[NN] ", p.symbol.as_str())
    }
}

/// An amount with two decimals is the nearest there is: no more than half of
/// the last one away, and the same below nothing as above it.
pub proof fn law_to_desimaler(v: int)
    ensures
        to_desimaler(v) % 1_000_000 == 0,
        v >= 0 ==> -500_000 < to_desimaler(v) - v <= 500_000,
        to_desimaler(-v) == -to_desimaler(v),
{
}

/// A curve is green where the last price is not under the first.
pub proof fn law_kurvefarge(l: Seq<(i64, i64)>)
    requires
        l.len() > 0,
    ensures
        kurvefarge(l) == Farge::Gronn <==> l.last().1 >= l[0].1,
        kurvefarge(l) == Farge::Rod <==> l.last().1 < l[0].1,
{
}

}
