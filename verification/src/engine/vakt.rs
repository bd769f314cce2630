//! Alarms on prices, and the sales that protect positions.
use vstd::prelude::*;

use crate::belop;
use crate::engine;
use crate::engine::{finn_kurs, fjern, har_par, Engine};
use crate::marketdata::KursSyn;
use crate::risk;
use crate::state;
use crate::state::Alarm;
use crate::text;
use crate::text::{copy_text, holds, same, string_of, three, two};
use crate::types;
use crate::types::{OrderStatus, Position, PosisjonSyn, Quote};

verus! {

// ---------------------------------------------------------------------------
// Alarms
// ---------------------------------------------------------------------------

#[verifier::ext_equal]
pub struct AlarmSyn {
    pub symbol: Seq<char>,
    pub level: int,
    pub above: bool,
    pub triggered: bool,
}

impl View for Alarm {
    type V = AlarmSyn;

    open spec fn view(&self) -> AlarmSyn {
        AlarmSyn {
            symbol: self.symbol@,
            level: self.level as int,
            above: self.above,
            triggered: self.triggered,
        }
    }
}

pub open spec fn alarmer(l: Seq<Alarm>) -> Seq<AlarmSyn> {
    Seq::new(l.len(), |i: int| l[i]@)
}

pub open spec fn alarmtekst(a: AlarmSyn, last: int) -> Seq<char> {
    "🔔 Alarm: "@ + a.symbol + ((if a.above {
        " over "@
    } else {
        " under "@
    }) + belop::belop_tekst(a.level, 2) + (" (kurs nå "@ + belop::belop_tekst(last, 2) + ")"@))
}

/// What an alarm says to the prices: it has not gone off before, and the price
/// of its symbol has reached its level.
pub open spec fn slaar_ut(a: AlarmSyn, ferske: Seq<KursSyn>) -> Option<Seq<char>> {
    if a.triggered {
        None
    } else {
        match engine::kurs_for(ferske, a.symbol, 0) {
            None => None,
            Some(q) => if (a.above && q.last >= a.level) || (!a.above && q.last <= a.level) {
                Some(alarmtekst(a, q.last))
            } else {
                None
            },
        }
    }
}

/// The alarms after the prices: those that went off are marked.
pub open spec fn etter_kurser(l: Seq<AlarmSyn>, ferske: Seq<KursSyn>) -> Seq<AlarmSyn> {
    l.map_values(
        |a: AlarmSyn| AlarmSyn { triggered: a.triggered || slaar_ut(a, ferske) is Some, ..a },
    )
}

/// What the alarms say, in their order.
pub open spec fn alarmmeldinger(l: Seq<AlarmSyn>, ferske: Seq<KursSyn>) -> Seq<Seq<char>>
    decreases l.len(),
{
    if l.len() == 0 {
        Seq::empty()
    } else {
        match slaar_ut(l.last(), ferske) {
            Some(t) => alarmmeldinger(l.drop_last(), ferske).push(t),
            None => alarmmeldinger(l.drop_last(), ferske),
        }
    }
}

fn skriv_alarm(a: &Alarm, last: i64) -> (r: String)
    ensures
        r@ == alarmtekst(a@, last as int),
{
    let retning: &str = if a.above {
        " over "
    } else {
        " under "
    };
    let kurs: String = belop::som_tekst(last, 2);
    let c: String = three(" (kurs nå ", kurs.as_str(), ")");
    let nivaa: String = belop::som_tekst(a.level, 2);
    let b: String = three(retning, nivaa.as_str(), c.as_str());
    three("🔔 Alarm: ", a.symbol.as_str(), b.as_str())
}

/// Holds the alarms to the prices: those that go off are marked, and what they
/// say is handed back.
pub fn sjekk_alarmer(alarms: &mut Vec<Alarm>, fresh: &Vec<Quote>) -> (r: Vec<String>)
    ensures
        alarmer(final(alarms)@) == etter_kurser(alarmer(old(alarms)@), engine::kurser(fresh@)),
        text::views(r@) == alarmmeldinger(alarmer(old(alarms)@), engine::kurser(fresh@)),
{
    let ghost alle = alarmer(alarms@);
    let ghost ferske = engine::kurser(fresh@);
    let mut ut: Vec<String> = Vec::new();
    let mut i: usize = 0;
    assert(alle.take(0) =~= Seq::empty());
    assert(text::views(ut@) =~= Seq::empty());
    while i < alarms.len()
        invariant
            i <= alarms@.len(),
            alarms@.len() == alle.len(),
            ferske == engine::kurser(fresh@),
            forall|k: int| i <= k < alle.len() ==> (#[trigger] alarms@[k])@ == alle[k],
            forall|k: int| 0 <= k < i ==> (#[trigger] alarms@[k])@ == etter_kurser(alle, ferske)[k],
            text::views(ut@) == alarmmeldinger(alle.take(i as int), ferske),
        decreases alle.len() - i,
    {
        proof {
            assert(alle.take(i + 1).drop_last() =~= alle.take(i as int));
            assert(alle.take(i + 1).last() == alarms@[i as int]@);
        }
        let ghost for_ = text::views(ut@);
        let ghost denne = alarms@[i as int]@;
        let mut traff: Option<i64> = None;
        if !alarms[i].triggered {
            if let Some(q) = finn_kurs(fresh, alarms[i].symbol.as_str()) {
                let hit: bool = if alarms[i].above {
                    q.last >= alarms[i].level
                } else {
                    q.last <= alarms[i].level
                };
                if hit {
                    traff = Some(q.last);
                }
            }
        }
        if let Some(last) = traff {
            let m: String = skriv_alarm(&alarms[i], last);
            ut.push(m);
            assert(text::views(ut@) =~= for_.push(alarmtekst(denne, last as int)));
            let ny: Alarm = Alarm {
                symbol: copy_text(&alarms[i].symbol),
                level: alarms[i].level,
                above: alarms[i].above,
                triggered: true,
            };
            alarms.set(i, ny);
        }
        assert(alarms@[i as int]@ =~= etter_kurser(alle, ferske)[i as int]);
        i += 1;
    }
    assert(alle.take(i as int) =~= alle);
    assert(alarmer(alarms@) =~= etter_kurser(alle, ferske));
    ut
}

/// An alarm goes off once: held to the same prices again, none says anything,
/// and none changes.
pub proof fn law_alarm_en_gang(l: Seq<AlarmSyn>, ferske: Seq<KursSyn>)
    ensures
        alarmmeldinger(etter_kurser(l, ferske), ferske) == Seq::<Seq<char>>::empty(),
        etter_kurser(etter_kurser(l, ferske), ferske) == etter_kurser(l, ferske),
    decreases l.len(),
{
    let e = etter_kurser(l, ferske);
    assert(etter_kurser(e, ferske) =~= e) by {
        assert forall|i: int| 0 <= i < e.len() implies #[trigger] etter_kurser(e, ferske)[i] == e[i] by {
            assert(slaar_ut(e[i], ferske) is None);
            assert(etter_kurser(e, ferske)[i] =~= e[i]);
        }
    }
    if l.len() > 0 {
        law_alarm_en_gang(l.drop_last(), ferske);
        assert(e.drop_last() =~= etter_kurser(l.drop_last(), ferske));
        assert(slaar_ut(e.last(), ferske) is None);
    }
}

// ---------------------------------------------------------------------------
// Falls within a day
// ---------------------------------------------------------------------------

pub open spec fn dagsfalltekst(symbol: Seq<char>, q: KursSyn) -> Seq<char> {
    "⚠ "@ + symbol + (" er ned "@ + belop::belop_tekst(-types::endring_pct(q.last, q.prev_close), 1)
        + (" % i dag (kurs "@ + belop::belop_tekst(q.last, 2) + ")."@))
}

/// Whether a position has fallen so many per cent since the last close.
pub open spec fn dagsfall(p: PosisjonSyn, ferske: Seq<KursSyn>, grense: int) -> Option<KursSyn> {
    if p.qty <= 0 {
        None
    } else {
        match engine::kurs_for(ferske, p.symbol, 0) {
            None => None,
            Some(q) => if q.prev_close > 0 && risk::falt(q.prev_close, q.last, grense) {
                Some(q)
            } else {
                None
            },
        }
    }
}

/// The pairs of a date.
pub open spec fn fra_dato(l: Seq<(Seq<char>, Seq<char>)>, dato: Seq<char>) -> Seq<(Seq<char>, Seq<char>)>
    decreases l.len(),
{
    if l.len() == 0 {
        l
    } else if l.last().0 == dato {
        fra_dato(l.drop_last(), dato).push(l.last())
    } else {
        fra_dato(l.drop_last(), dato)
    }
}

/// What has been warned of after the positions, and what the warnings say: at
/// most one for each symbol and day.
pub open spec fn dagsvarsler(
    l: Seq<PosisjonSyn>,
    ferske: Seq<KursSyn>,
    grense: int,
    dato: Seq<char>,
    varslet: Seq<(Seq<char>, Seq<char>)>,
) -> (Seq<(Seq<char>, Seq<char>)>, Seq<Seq<char>>)
    decreases l.len(),
{
    if l.len() == 0 {
        (varslet, Seq::empty())
    } else {
        let (v, m) = dagsvarsler(l.drop_last(), ferske, grense, dato, varslet);
        match dagsfall(l.last(), ferske, grense) {
            Some(q) => if v.contains((dato, l.last().symbol)) {
                (v, m)
            } else {
                (v.push((dato, l.last().symbol)), m.push(dagsfalltekst(l.last().symbol, q)))
            },
            None => (v, m),
        }
    }
}

fn skriv_dagsfall(symbol: &str, q: &Quote) -> (r: String)
    ensures
        r@ == dagsfalltekst(symbol@, q@),
{
    let kurs: String = belop::som_tekst(q.last, 2);
    let c: String = three(" % i dag (kurs ", kurs.as_str(), ").");
    let fall: Vec<char> = belop::skriv(-types::endring(q.last, q.prev_close), 8, 1);
    let f: String = string_of(fall.as_slice());
    let b: String = three(" er ned ", f.as_str(), c.as_str());
    three("⚠ ", symbol, b.as_str())
}

fn behold_dato(l: &mut Vec<(String, String)>, dato: &str)
    ensures
        engine::parene(final(l)@) == fra_dato(engine::parene(old(l)@), dato@),
{
    let ghost alle = engine::parene(l@);
    let mut ut: Vec<(String, String)> = Vec::new();
    let mut i: usize = 0;
    assert(alle.take(0) =~= Seq::empty());
    assert(engine::parene(ut@) =~= Seq::empty());
    while i < l.len()
        invariant
            i <= l@.len(),
            alle == engine::parene(l@),
            engine::parene(ut@) == fra_dato(alle.take(i as int), dato@),
        decreases l.len() - i,
    {
        proof {
            assert(alle.take(i + 1).drop_last() =~= alle.take(i as int));
            assert(alle.take(i + 1).last() == (l@[i as int].0@, l@[i as int].1@));
        }
        let ghost for_ = engine::parene(ut@);
        if same(l[i].0.as_str(), dato) {
            let a: String = copy_text(&l[i].0);
            let b: String = copy_text(&l[i].1);
            ut.push((a, b));
            assert(engine::parene(ut@) =~= for_.push((l@[i as int].0@, l@[i as int].1@)));
        }
        i += 1;
    }
    assert(alle.take(i as int) =~= alle);
    *l = ut;
}

fn har_falt(q: &Quote, grense: i64) -> (r: bool)
    ensures
        r == (q.prev_close > 0 && risk::falt(q.prev_close as int, q.last as int, grense as int)),
{
    proof {
        types::lemma_produkt(grense as int, q.prev_close as int);
    }
    q.prev_close > 0 && (q.prev_close as i128 - q.last as i128) * 10_000_000_000 >= grense as i128
        * q.prev_close as i128
}

impl Engine {
    /// Warns of positions that have fallen more than the limit since the last
    /// close, once a day for each. A limit of 0 is off.
    pub fn check_day_moves(&mut self, fresh: &Vec<Quote>, positions: &Vec<Position>, today: &str) -> (r: Vec<String>)
        requires
            old(self).gyldig(),
        ensures
            final(self).gyldig(),
            old(self).cfg.notify.day_move_alarm_pct <= 0 ==> r@.len() == 0 && *final(self) == *old(self),
            old(self).cfg.notify.day_move_alarm_pct > 0 ==> (
                engine::parene(final(self).day_move_alerted@),
                text::views(r@),
            ) == dagsvarsler(
                types::posisjoner(positions@),
                engine::kurser(fresh@),
                old(self).cfg.notify.day_move_alarm_pct as int,
                today@,
                fra_dato(engine::parene(old(self).day_move_alerted@), today@),
            ),
            *final(self) == (Engine { day_move_alerted: final(self).day_move_alerted, ..*old(self) }),
    {
        let grense: i64 = self.cfg.notify.day_move_alarm_pct;
        let mut ut: Vec<String> = Vec::new();
        if grense <= 0 {
            return ut;
        }
        behold_dato(&mut self.day_move_alerted, today);
        let ghost alle = types::posisjoner(positions@);
        let ghost ferske = engine::kurser(fresh@);
        let ghost start = engine::parene(self.day_move_alerted@);
        let ghost midt = *self;
        let mut i: usize = 0;
        assert(alle.take(0) =~= Seq::empty());
        assert(text::views(ut@) =~= Seq::empty());
        while i < positions.len()
            invariant
                i <= positions@.len(),
                alle == types::posisjoner(positions@),
                ferske == engine::kurser(fresh@),
                (engine::parene(self.day_move_alerted@), text::views(ut@)) == dagsvarsler(
                    alle.take(i as int),
                    ferske,
                    grense as int,
                    today@,
                    start,
                ),
                *self == (Engine { day_move_alerted: self.day_move_alerted, ..midt }),
            decreases positions.len() - i,
        {
            let p: &Position = &positions[i];
            proof {
                assert(alle.take(i + 1).drop_last() =~= alle.take(i as int));
                assert(alle.take(i + 1).last() == p@);
            }
            let ghost v = engine::parene(self.day_move_alerted@);
            let ghost m = text::views(ut@);
            if p.qty > 0 {
                if let Some(q) = finn_kurs(fresh, p.symbol.as_str()) {
                    if har_falt(q, grense) && !har_par(&self.day_move_alerted, today, p.symbol.as_str()) {
                        let symbol: String = copy_text(&p.symbol);
                        self.day_move_alerted.push((today.to_owned(), symbol));
                        ut.push(skriv_dagsfall(p.symbol.as_str(), q));
                        assert(engine::parene(self.day_move_alerted@) =~= v.push((today@, p.symbol@)));
                        assert(text::views(ut@) =~= m.push(dagsfalltekst(p.symbol@, q@)));
                    }
                }
            }
            i += 1;
        }
        assert(alle.take(i as int) =~= alle);
        ut
    }
}

// ---------------------------------------------------------------------------
// Protective sales
// ---------------------------------------------------------------------------

/// Whether something is held of a symbol.
pub open spec fn eid(l: Seq<PosisjonSyn>, symbol: Seq<char>) -> bool {
    exists|i: int| 0 <= i < l.len() && (#[trigger] l[i]).symbol == symbol && l[i].qty > 0
}

fn er_eid(l: &Vec<Position>, symbol: &str) -> (r: bool)
    ensures
        r == eid(types::posisjoner(l@), symbol@),
{
    let ghost alle = types::posisjoner(l@);
    let mut i: usize = 0;
    while i < l.len()
        invariant
            i <= l@.len(),
            alle == types::posisjoner(l@),
            forall|k: int| 0 <= k < i ==> !((#[trigger] alle[k]).symbol == symbol@ && alle[k].qty > 0),
        decreases l.len() - i,
    {
        assert(alle[i as int] == l@[i as int]@);
        if l[i].qty > 0 && same(l[i].symbol.as_str(), symbol) {
            return true;
        }
        i += 1;
    }
    false
}

/// The symbols of which something is still held.
pub open spec fn fortsatt_eid(l: Seq<Seq<char>>, eide: Seq<PosisjonSyn>) -> Seq<Seq<char>>
    decreases l.len(),
{
    if l.len() == 0 {
        l
    } else if eid(eide, l.last()) {
        fortsatt_eid(l.drop_last(), eide).push(l.last())
    } else {
        fortsatt_eid(l.drop_last(), eide)
    }
}

/// The price of a position in the currency of the account: the fresh one, or
/// the last known.
pub open spec fn siste_pris(
    p: PosisjonSyn,
    ferske: Seq<KursSyn>,
    base: Seq<char>,
    fx: Map<Seq<char>, (i64, u64)>,
) -> int {
    match engine::kurs_for(ferske, p.symbol, 0) {
        Some(q) => match engine::grunnpris(q, base, fx) {
            Some(x) => x,
            None => p.last as int,
        },
        None => p.last as int,
    }
}

pub open spec fn storst(a: int, b: int) -> int {
    if a > b {
        a
    } else {
        b
    }
}

/// The peaks after the prices of the positions: a position without one begins
/// at its mean price or its last one, whichever is higher.
pub open spec fn hevet(
    topper: Map<Seq<char>, i64>,
    l: Seq<PosisjonSyn>,
    ferske: Seq<KursSyn>,
    base: Seq<char>,
    fx: Map<Seq<char>, (i64, u64)>,
) -> Map<Seq<char>, i64>
    decreases l.len(),
{
    if l.len() == 0 {
        topper
    } else {
        let t = hevet(topper, l.drop_last(), ferske, base, fx);
        let p = l.last();
        if p.qty <= 0 {
            t
        } else {
            let siste = siste_pris(p, ferske, base, fx);
            let for_ = if t.dom().contains(p.symbol) {
                t[p.symbol] as int
            } else {
                p.avg_price as int
            };
            t.insert(p.symbol, storst(for_, siste) as i64)
        }
    }
}

/// A sale of a whole position, with its reason.
#[derive(Debug)]
pub struct Exit {
    pub symbol: String,
    pub qty: i64,
    pub price: i64,
    pub reason: String,
}

#[verifier::ext_equal]
pub struct ExitSyn {
    pub symbol: Seq<char>,
    pub qty: int,
    pub price: int,
    pub reason: Seq<char>,
}

impl View for Exit {
    type V = ExitSyn;

    open spec fn view(&self) -> ExitSyn {
        ExitSyn {
            symbol: self.symbol@,
            qty: self.qty as int,
            price: self.price as int,
            reason: self.reason@,
        }
    }
}

pub open spec fn exits_syn(l: Seq<Exit>) -> Seq<ExitSyn> {
    Seq::new(l.len(), |i: int| l[i]@)
}

/// What the protective rules go by.
pub struct Vern {
    pub stop: int,
    pub profit: int,
    pub trail: int,
    pub base: Seq<char>,
    pub fx: Map<Seq<char>, (i64, u64)>,
    pub topper: Map<Seq<char>, i64>,
    pub underveis: Seq<Seq<char>>,
}

/// The protective sale of a position, if it is time for one: by its mean price,
/// or else by its peak. One that is under way is not sold again.
pub open spec fn exit_for(p: PosisjonSyn, ferske: Seq<KursSyn>, v: Vern) -> Option<ExitSyn> {
    if p.qty <= 0 || v.underveis.contains(p.symbol) {
        None
    } else {
        match engine::kurs_for(ferske, p.symbol, 0) {
            None => None,
            Some(q) => match engine::grunnpris(q, v.base, v.fx) {
                None => None,
                Some(px) => {
                    let grunn = match risk::vern(p.avg_price as int, px, v.stop, v.profit) {
                        Some(g) => Some(g),
                        None => if v.topper.dom().contains(p.symbol) {
                            risk::halevern(v.topper[p.symbol] as int, px, v.trail)
                        } else {
                            None
                        },
                    };
                    match grunn {
                        Some(reason) => Some(ExitSyn { symbol: p.symbol, qty: p.qty as int, price: px, reason }),
                        None => None,
                    }
                },
            },
        }
    }
}

pub open spec fn exits_for(l: Seq<PosisjonSyn>, ferske: Seq<KursSyn>, v: Vern) -> Seq<ExitSyn>
    decreases l.len(),
{
    if l.len() == 0 {
        Seq::empty()
    } else {
        match exit_for(l.last(), ferske, v) {
            Some(e) => exits_for(l.drop_last(), ferske, v).push(e),
            None => exits_for(l.drop_last(), ferske, v),
        }
    }
}

impl Exit {
    /// What the log says of the sale.
    pub fn logg(&self) -> (r: String)
        ensures
            r@ == self.reason@ + " utløst for "@ + (self.symbol@ + " — selger hele posisjonen."@),
    {
        let b: String = two(self.symbol.as_str(), " — selger hele posisjonen.");
        three(self.reason.as_str(), " utløst for ", b.as_str())
    }

    /// What the telephone is told of the sale.
    pub fn varsel(&self) -> (r: String)
        ensures
            r@ == "🛡️ "@ + self.reason@ + (": selger "@ + self.symbol@),
    {
        let b: String = two(": selger ", self.symbol.as_str());
        three("🛡️ ", self.reason.as_str(), b.as_str())
    }
}

/// Whether a table is a part of another.
pub open spec fn delkart(a: Map<Seq<char>, i64>, b: Map<Seq<char>, i64>) -> bool {
    forall|s: Seq<char>| #[trigger] a.dom().contains(s) ==> b.dom().contains(s) && a[s] == b[s]
}

impl Engine {
    /// What the protective rules go by just now.
    pub open spec fn vern(&self) -> Vern {
        Vern {
            stop: self.cfg.risk.stop_loss_pct as int,
            profit: self.cfg.risk.take_profit_pct as int,
            trail: self.cfg.risk.trailing_stop_pct as int,
            base: self.cfg.base_currency@,
            fx: self.fx@,
            topper: self.peaks@,
            underveis: text::views(self.protected@),
        }
    }

    fn behold_eide(&mut self, positions: &Vec<Position>)
        requires
            old(self).gyldig(),
        ensures
            final(self).gyldig(),
            final(self).peaks@ == old(self).peaks@.restrict(
                Set::new(|s: Seq<char>| eid(types::posisjoner(positions@), s)),
            ),
            *final(self) == (Engine { peaks: final(self).peaks, ..*old(self) }),
    {
        let ghost eide = Set::new(|s: Seq<char>| eid(types::posisjoner(positions@), s));
        let ghost start = self.peaks@;
        let mut i: usize = 0;
        proof {
            assert(self.peaks@ =~= start);
        }
        while i < self.peaks.rader.len()
            invariant
                i <= self.peaks.rader@.len(),
                self.peaks.ordnet(),
                eide == Set::new(|s: Seq<char>| eid(types::posisjoner(positions@), s)),
                forall|s: Seq<char>| eide.contains(s) ==> self.peaks@.dom().contains(s) == start.dom().contains(s),
                delkart(self.peaks@, start),
                forall|k: int| 0 <= k < i ==> eide.contains((#[trigger] self.peaks.rader@[k]).0@),
                *self == (Engine { peaks: self.peaks, ..*old(self) }),
            decreases self.peaks.rader.len() - i,
        {
            let holdes: bool = er_eid(positions, self.peaks.rader[i].0.as_str());
            if holdes {
                i += 1;
            } else {
                let ghost for_ = self.peaks;
                self.peaks.fjern_rad(i);
                proof {
                    assert forall|k: int| 0 <= k < i implies eide.contains(
                        (#[trigger] self.peaks.rader@[k]).0@,
                    ) by {
                        assert(self.peaks.rader@[k] == for_.rader@[k]);
                    }
                    assert(self.peaks@ == for_@.remove(for_.rader@[i as int].0@));
                }
            }
        }
        proof {
            assert forall|s: Seq<char>| self.peaks@.dom().contains(s) implies eide.contains(s) by {
                let k = self.peaks.rad(s);
                assert(eide.contains(self.peaks.rader@[k].0@));
            }
            assert(self.peaks@ =~= start.restrict(eide));
        }
    }

    /// Follows the positions: what is no longer held is forgotten, and the peaks
    /// rise with the prices.
    pub fn folg_posisjoner(&mut self, fresh: &Vec<Quote>, positions: &Vec<Position>)
        requires
            old(self).gyldig(),
        ensures
            final(self).gyldig(),
            text::views(final(self).protected@) == fortsatt_eid(
                text::views(old(self).protected@),
                types::posisjoner(positions@),
            ),
            final(self).peaks@ == hevet(
                old(self).peaks@.restrict(Set::new(|s: Seq<char>| eid(types::posisjoner(positions@), s))),
                types::posisjoner(positions@),
                engine::kurser(fresh@),
                old(self).cfg.base_currency@,
                old(self).fx@,
            ),
            *final(self) == (Engine {
                protected: final(self).protected,
                peaks: final(self).peaks,
                ..*old(self)
            }),
    {
        let ghost alle_p = text::views(self.protected@);
        let mut beholdt: Vec<String> = Vec::new();
        let mut i: usize = 0;
        assert(alle_p.take(0) =~= Seq::empty());
        assert(text::views(beholdt@) =~= Seq::empty());
        while i < self.protected.len()
            invariant
                i <= self.protected@.len(),
                alle_p == text::views(self.protected@),
                *self == *old(self),
                text::views(beholdt@) == fortsatt_eid(alle_p.take(i as int), types::posisjoner(positions@)),
            decreases self.protected.len() - i,
        {
            proof {
                assert(alle_p.take(i + 1).drop_last() =~= alle_p.take(i as int));
                assert(alle_p.take(i + 1).last() == self.protected@[i as int]@);
            }
            let ghost for_ = text::views(beholdt@);
            if er_eid(positions, self.protected[i].as_str()) {
                beholdt.push(copy_text(&self.protected[i]));
                assert(text::views(beholdt@) =~= for_.push(self.protected@[i as int]@));
            }
            i += 1;
        }
        assert(alle_p.take(i as int) =~= alle_p);
        self.protected = beholdt;
        self.behold_eide(positions);
        let ghost start = self.peaks@;
        let ghost alle = types::posisjoner(positions@);
        let ghost ferske = engine::kurser(fresh@);
        let ghost midt = *self;
        let mut j: usize = 0;
        assert(alle.take(0) =~= Seq::empty());
        while j < positions.len()
            invariant
                j <= positions@.len(),
                alle == types::posisjoner(positions@),
                ferske == engine::kurser(fresh@),
                self.gyldig(),
                self.peaks@ == hevet(start, alle.take(j as int), ferske, midt.cfg.base_currency@, midt.fx@),
                *self == (Engine { peaks: self.peaks, ..midt }),
            decreases positions.len() - j,
        {
            let p: &Position = &positions[j];
            proof {
                assert(alle.take(j + 1).drop_last() =~= alle.take(j as int));
                assert(alle.take(j + 1).last() == p@);
            }
            if p.qty > 0 {
                let siste: i64 = match finn_kurs(fresh, p.symbol.as_str()) {
                    Some(q) => match self.base_price(q) {
                        Some(x) => x,
                        None => p.last,
                    },
                    None => p.last,
                };
                let for_: i64 = match self.peaks.hent(p.symbol.as_str()) {
                    Some(t) => *t,
                    None => p.avg_price,
                };
                let topp: i64 = if for_ > siste {
                    for_
                } else {
                    siste
                };
                self.peaks.sett(p.symbol.as_str(), topp);
            }
            j += 1;
        }
        assert(alle.take(j as int) =~= alle);
    }

    /// The protective sales that are due; none while the kill switch is on.
    pub fn exits(&self, killed: bool, fresh: &Vec<Quote>, positions: &Vec<Position>) -> (r: Vec<Exit>)
        requires
            self.gyldig(),
        ensures
            killed ==> r@.len() == 0,
            !killed ==> exits_syn(r@) == exits_for(
                types::posisjoner(positions@),
                engine::kurser(fresh@),
                self.vern(),
            ),
    {
        let mut ut: Vec<Exit> = Vec::new();
        if killed {
            return ut;
        }
        let ghost alle = types::posisjoner(positions@);
        let ghost ferske = engine::kurser(fresh@);
        let ghost v = self.vern();
        let mut i: usize = 0;
        assert(alle.take(0) =~= Seq::empty());
        assert(exits_syn(ut@) =~= Seq::empty());
        while i < positions.len()
            invariant
                i <= positions@.len(),
                self.gyldig(),
                alle == types::posisjoner(positions@),
                ferske == engine::kurser(fresh@),
                v == self.vern(),
                exits_syn(ut@) == exits_for(alle.take(i as int), ferske, v),
            decreases positions.len() - i,
        {
            proof {
                assert(alle.take(i + 1).drop_last() =~= alle.take(i as int));
                assert(alle.take(i + 1).last() == positions@[i as int]@);
            }
            let ghost for_ = exits_syn(ut@);
            if let Some(e) = self.exit(&positions[i], fresh) {
                ut.push(e);
                assert(exits_syn(ut@) =~= for_.push(e@));
            }
            i += 1;
        }
        assert(alle.take(i as int) =~= alle);
        ut
    }

    fn exit(&self, p: &Position, fresh: &Vec<Quote>) -> (r: Option<Exit>)
        requires
            self.gyldig(),
        ensures
            (match exit_for(p@, engine::kurser(fresh@), self.vern()) {
                Some(e) => r is Some && r->0@ == e,
                None => r is None,
            }),
    {
        if p.qty <= 0 || holds(&self.protected, p.symbol.as_str()) {
            return None;
        }
        let q: &Quote = match finn_kurs(fresh, p.symbol.as_str()) {
            Some(q) => q,
            None => return None,
        };
        let px: i64 = match self.base_price(q) {
            Some(x) => x,
            None => return None,
        };
        let grunn: Option<String> = match risk::protective_exit(
            p.avg_price,
            px,
            self.cfg.risk.stop_loss_pct,
            self.cfg.risk.take_profit_pct,
        ) {
            Some(g) => Some(g),
            None => match self.peaks.hent(p.symbol.as_str()) {
                Some(topp) => risk::trailing_exit(*topp, px, self.cfg.risk.trailing_stop_pct),
                None => None,
            },
        };
        match grunn {
            Some(reason) => {
                let e: Exit = Exit { symbol: copy_text(&p.symbol), qty: p.qty, price: px, reason };
                assert(Some(e@) =~= exit_for(p@, engine::kurser(fresh@), self.vern()));
                Some(e)
            },
            None => None,
        }
    }

    /// A protective sale is sent: it is not sent again while it is under way.
    pub fn exit_sendt(&mut self, symbol: &str)
        ensures
            text::views(final(self).protected@) == (if text::views(old(self).protected@).contains(symbol@) {
                text::views(old(self).protected@)
            } else {
                text::views(old(self).protected@).push(symbol@)
            }),
            text::views(final(self).protected@).contains(symbol@),
            *final(self) == (Engine { protected: final(self).protected, ..*old(self) }),
    {
        if !holds(&self.protected, symbol) {
            let ghost for_ = text::views(self.protected@);
            self.protected.push(symbol.to_owned());
            assert(text::views(self.protected@) =~= for_.push(symbol@));
            assert(text::views(self.protected@)[for_.len() as int] == symbol@);
        }
    }

    /// What became of a protective sale: one that did not get through is tried
    /// again on the next tick.
    pub fn exit_resultat(&mut self, symbol: &str, status: Option<OrderStatus>)
        ensures
            (status is None || status == Some(OrderStatus::Rejected)) ==> text::views(final(self).protected@)
                == state::uten(text::views(old(self).protected@), symbol@),
            !(status is None || status == Some(OrderStatus::Rejected)) ==> *final(self) == *old(self),
            *final(self) == (Engine { protected: final(self).protected, ..*old(self) }),
    {
        let igjen: bool = match status {
            None => true,
            Some(OrderStatus::Rejected) => true,
            _ => false,
        };
        if igjen {
            fjern(&mut self.protected, symbol);
        }
    }
}

/// A protective sale sells the whole of a position that is held, and never one
/// that is being sold already.
pub proof fn law_exit_selger_hele(p: PosisjonSyn, ferske: Seq<KursSyn>, v: Vern)
    ensures
        exit_for(p, ferske, v) matches Some(e) ==> e.qty == p.qty && e.qty > 0 && e.symbol == p.symbol
            && !v.underveis.contains(p.symbol),
{
}

/// A peak never falls while the position is held.
pub proof fn law_toppen_faller_aldri(
    topper: Map<Seq<char>, i64>,
    l: Seq<PosisjonSyn>,
    ferske: Seq<KursSyn>,
    base: Seq<char>,
    fx: Map<Seq<char>, (i64, u64)>,
    symbol: Seq<char>,
)
    requires
        topper.dom().contains(symbol),
        forall|i: int| 0 <= i < ferske.len() ==> i64::MIN <= (#[trigger] ferske[i]).last <= i64::MAX,
    ensures
        hevet(topper, l, ferske, base, fx).dom().contains(symbol),
        hevet(topper, l, ferske, base, fx)[symbol] >= topper[symbol],
    decreases l.len(),
{
    if l.len() > 0 {
        law_toppen_faller_aldri(topper, l.drop_last(), ferske, base, fx, symbol);
        let p = l.last();
        let siste = siste_pris(p, ferske, base, fx);
        lemma_pris_innen(p, ferske, base, fx);
    }
}

/// The peak of a position is never under its price.
pub proof fn law_toppen_aldri_under_kursen(
    topper: Map<Seq<char>, i64>,
    l: Seq<PosisjonSyn>,
    ferske: Seq<KursSyn>,
    base: Seq<char>,
    fx: Map<Seq<char>, (i64, u64)>,
    k: int,
)
    requires
        0 <= k < l.len(),
        l[k].qty > 0,
        forall|i: int| 0 <= i < ferske.len() ==> i64::MIN <= (#[trigger] ferske[i]).last <= i64::MAX,
    ensures
        hevet(topper, l, ferske, base, fx).dom().contains(l[k].symbol),
        hevet(topper, l, ferske, base, fx)[l[k].symbol] >= siste_pris(l[k], ferske, base, fx),
    decreases l.len(),
{
    let p = l.last();
    lemma_pris_innen(p, ferske, base, fx);
    if k < l.len() - 1 {
        law_toppen_aldri_under_kursen(topper, l.drop_last(), ferske, base, fx, k);
    }
}

proof fn lemma_pris_innen(p: PosisjonSyn, ferske: Seq<KursSyn>, base: Seq<char>, fx: Map<Seq<char>, (i64, u64)>)
    ensures
        (forall|i: int| 0 <= i < ferske.len() ==> i64::MIN <= (#[trigger] ferske[i]).last <= i64::MAX) ==> i64::MIN
            <= siste_pris(p, ferske, base, fx) <= i64::MAX,
{
    if forall|i: int| 0 <= i < ferske.len() ==> i64::MIN <= (#[trigger] ferske[i]).last <= i64::MAX {
        lemma_kurs_i(ferske, p.symbol, 0);
    }
}

proof fn lemma_kurs_i(l: Seq<KursSyn>, symbol: Seq<char>, i: int)
    requires
        0 <= i,
    ensures
        engine::kurs_for(l, symbol, i) matches Some(q) ==> exists|k: int|
            i <= k < l.len() && #[trigger] l[k] == q && q.symbol == symbol,
    decreases l.len() - i,
{
    if i < l.len() {
        if l[i].symbol == symbol {
            assert(l[i] == l[i]);
        } else {
            lemma_kurs_i(l, symbol, i + 1);
        }
    }
}

// ---------------------------------------------------------------------------
// What sets an alarm, a warning or a sale off
// ---------------------------------------------------------------------------

/// An alarm that has not gone off goes off exactly when the price of its symbol has
/// reached its level from the side that it watches; one that has is silent.
pub proof fn law_alarmen_slaar_ut(a: AlarmSyn, ferske: Seq<KursSyn>, k: int)
    requires
        0 <= k < ferske.len(),
        ferske[k].symbol == a.symbol,
        forall|j: int| 0 <= j < k ==> (#[trigger] ferske[j]).symbol != a.symbol,
    ensures
        !a.triggered && a.above ==> (slaar_ut(a, ferske) is Some <==> ferske[k].last >= a.level),
        !a.triggered && !a.above ==> (slaar_ut(a, ferske) is Some <==> ferske[k].last <= a.level),
        a.triggered ==> slaar_ut(a, ferske) is None,
{
    engine::law_forste_kurs(ferske, a.symbol, k);
}

/// As many messages are sent as alarms went off: each alarm that was silent before
/// and is marked afterwards, and no other. Nothing else of an alarm changes.
pub proof fn law_en_melding_per_alarm(l: Seq<AlarmSyn>, ferske: Seq<KursSyn>)
    ensures
        alarmmeldinger(l, ferske).len() + l.filter(|a: AlarmSyn| a.triggered).len() == etter_kurser(l, ferske).filter(
            |a: AlarmSyn| a.triggered,
        ).len(),
        etter_kurser(l, ferske).len() == l.len(),
        forall|i: int|
            0 <= i < l.len() ==> {
                let b = #[trigger] etter_kurser(l, ferske)[i];
                b.symbol == l[i].symbol && b.level == l[i].level && b.above == l[i].above && (l[i].triggered
                    ==> b.triggered) && (b.triggered ==> l[i].triggered || slaar_ut(l[i], ferske) is Some)
            },
    decreases l.len(),
{
    reveal(Seq::filter);
    if l.len() > 0 {
        let d = l.drop_last();
        law_en_melding_per_alarm(d, ferske);
        assert(etter_kurser(l, ferske).drop_last() =~= etter_kurser(d, ferske));
    }
}

/// A position that is held is warned of exactly when its price has fallen the limit's
/// share of the last close.
pub proof fn law_dagsfallet(p: PosisjonSyn, ferske: Seq<KursSyn>, grense: int, k: int)
    requires
        0 <= k < ferske.len(),
        ferske[k].symbol == p.symbol,
        forall|j: int| 0 <= j < k ==> (#[trigger] ferske[j]).symbol != p.symbol,
    ensures
        dagsfall(p, ferske, grense) is Some <==> p.qty > 0 && ferske[k].prev_close > 0 && ferske[k].last
            * 10_000_000_000 <= ferske[k].prev_close * (10_000_000_000 - grense),
{
    engine::law_forste_kurs(ferske, p.symbol, k);
    let f = ferske[k].prev_close;
    assert(f * (10_000_000_000 - grense) == f * 10_000_000_000 - grense * f) by (nonlinear_arith);
}

/// Every position that has fallen so far is on record as warned of after the round,
/// with one message for each that was not on record before; so a second round over
/// the same prices on the same day says nothing.
pub proof fn law_ett_varsel_om_dagen(
    l: Seq<PosisjonSyn>,
    ferske: Seq<KursSyn>,
    grense: int,
    dato: Seq<char>,
    varslet: Seq<(Seq<char>, Seq<char>)>,
)
    ensures
        ({
            let (v, m) = dagsvarsler(l, ferske, grense, dato, varslet);
            &&& m.len() == v.len() - varslet.len()
            &&& varslet.is_prefix_of(v)
            &&& forall|i: int|
                0 <= i < l.len() && dagsfall(#[trigger] l[i], ferske, grense) is Some ==> v.contains(
                    (dato, l[i].symbol),
                )
            &&& forall|x: (Seq<char>, Seq<char>)| #[trigger]
                v.contains(x) && !varslet.contains(x) ==> x.0 == dato && exists|i: int|
                    0 <= i < l.len() && (#[trigger] l[i]).symbol == x.1 && dagsfall(l[i], ferske, grense) is Some
        }),
    decreases l.len(),
{
    let (v, m) = dagsvarsler(l, ferske, grense, dato, varslet);
    if l.len() == 0 {
        assert(varslet =~= v.take(varslet.len() as int));
    } else {
        let d = l.drop_last();
        law_ett_varsel_om_dagen(d, ferske, grense, dato, varslet);
        let (w, _m) = dagsvarsler(d, ferske, grense, dato, varslet);
        let p = l.last();
        assert(p == l[l.len() - 1]);
        assert(varslet =~= v.take(varslet.len() as int)) by {
            assert(varslet == w.take(varslet.len() as int));
        }
        assert forall|i: int|
            0 <= i < l.len() && dagsfall(#[trigger] l[i], ferske, grense) is Some implies v.contains(
            (dato, l[i].symbol),
        ) by {
            if i < d.len() {
                assert(d[i] == l[i]);
                let k = choose|k: int| 0 <= k < w.len() && w[k] == (dato, l[i].symbol);
                assert(v[k] == (dato, l[i].symbol));
            } else if !w.contains((dato, p.symbol)) {
                assert(v[w.len() as int] == (dato, p.symbol));
            }
        }
        assert forall|x: (Seq<char>, Seq<char>)| #[trigger] v.contains(x) && !varslet.contains(x) implies x.0 == dato
            && exists|i: int|
            0 <= i < l.len() && (#[trigger] l[i]).symbol == x.1 && dagsfall(l[i], ferske, grense) is Some by {
            if w.contains(x) {
                let i = choose|i: int|
                    0 <= i < d.len() && (#[trigger] d[i]).symbol == x.1 && dagsfall(d[i], ferske, grense) is Some;
                assert(l[i] == d[i]);
            } else {
                let k = choose|k: int| 0 <= k < v.len() && v[k] == x;
                assert(k == w.len());
                assert(l[l.len() - 1].symbol == x.1);
            }
        }
    }
}

/// What is warned of on other days is forgotten, and nothing of this day is.
pub proof fn law_fra_dato(l: Seq<(Seq<char>, Seq<char>)>, dato: Seq<char>)
    ensures
        fra_dato(l, dato) == l.filter(|x: (Seq<char>, Seq<char>)| x.0 == dato),
    decreases l.len(),
{
    reveal(Seq::filter);
    if l.len() > 0 {
        law_fra_dato(l.drop_last(), dato);
    }
}

/// A position that is held and not being sold already, at a price in the currency of
/// the account, is sold whole at that price exactly when the stop-loss, the
/// take-profit or the trailing stop is switched on and reached; none of the three is
/// in the way of another.
pub proof fn law_vernet_selger(p: PosisjonSyn, ferske: Seq<KursSyn>, v: Vern, k: int)
    requires
        0 <= k < ferske.len(),
        ferske[k].symbol == p.symbol,
        forall|j: int| 0 <= j < k ==> (#[trigger] ferske[j]).symbol != p.symbol,
        ferske[k].currency == v.base,
        p.qty > 0,
        ferske[k].last > 0,
    ensures
        ({
            let px = ferske[k].last;
            let stop = v.stop > 0 && p.avg_price > 0 && px * 10_000_000_000 <= p.avg_price * (10_000_000_000 - v.stop);
            let profit = v.profit > 0 && p.avg_price > 0 && px * 10_000_000_000 >= p.avg_price * (10_000_000_000
                + v.profit);
            let hale = v.trail > 0 && v.topper.dom().contains(p.symbol) && v.topper[p.symbol] > 0 && px * 10_000_000_000
                <= v.topper[p.symbol] * (10_000_000_000 - v.trail);
            &&& exit_for(p, ferske, v) is Some <==> !v.underveis.contains(p.symbol) && (stop || profit || hale)
            &&& exit_for(p, ferske, v) matches Some(e) ==> e.symbol == p.symbol && e.qty == p.qty && e.price == px
        }),
{
    engine::law_forste_kurs(ferske, p.symbol, k);
    engine::law_grunnpris(ferske[k], v.base, v.fx);
    let px = ferske[k].last;
    risk::law_grensene_selger(p.avg_price as int, px, v.stop, v.profit);
    if v.topper.dom().contains(p.symbol) {
        risk::law_halen_selger(v.topper[p.symbol] as int, px, v.trail);
    }
}

/// Every position that is due is sold, and no other: the sales are those of the
/// positions that have one, in their order.
pub proof fn law_alle_exits(l: Seq<PosisjonSyn>, ferske: Seq<KursSyn>, v: Vern)
    ensures
        exits_for(l, ferske, v) == l.filter(|p: PosisjonSyn| exit_for(p, ferske, v) is Some).map_values(
            |p: PosisjonSyn| exit_for(p, ferske, v)->0,
        ),
    decreases l.len(),
{
    let p = |p: PosisjonSyn| exit_for(p, ferske, v) is Some;
    let f = |p: PosisjonSyn| exit_for(p, ferske, v)->0;
    reveal(Seq::filter);
    if l.len() > 0 {
        law_alle_exits(l.drop_last(), ferske, v);
        let d = l.drop_last().filter(p);
        if p(l.last()) {
            assert(d.push(l.last()).map_values(f) =~= d.map_values(f).push(f(l.last())));
        }
    }
    assert(exits_for(l, ferske, v) =~= l.filter(p).map_values(f));
}

/// The peak of a position is its old peak or, without one, its mean price, unless the
/// price of the day is higher, which it then is. Positions in other symbols do not
/// touch it.
pub proof fn law_toppen(
    topper: Map<Seq<char>, i64>,
    l: Seq<PosisjonSyn>,
    ferske: Seq<KursSyn>,
    base: Seq<char>,
    fx: Map<Seq<char>, (i64, u64)>,
    k: int,
)
    requires
        0 <= k < l.len(),
        l[k].qty > 0,
        forall|i: int| 0 <= i < l.len() && i != k ==> (#[trigger] l[i]).symbol != l[k].symbol,
        forall|i: int| 0 <= i < ferske.len() ==> i64::MIN <= (#[trigger] ferske[i]).last <= i64::MAX,
    ensures
        ({
            let s = l[k].symbol;
            let for_ = if topper.dom().contains(s) {
                topper[s] as int
            } else {
                l[k].avg_price as int
            };
            let pris = siste_pris(l[k], ferske, base, fx);
            let t = hevet(topper, l, ferske, base, fx)[s] as int;
            t >= for_ && t >= pris && (t == for_ || t == pris)
        }),
    decreases l.len(),
{
    let d = l.drop_last();
    let s = l[k].symbol;
    lemma_pris_innen(l.last(), ferske, base, fx);
    if k < d.len() {
        assert forall|i: int| 0 <= i < d.len() && i != k implies (#[trigger] d[i]).symbol != d[k].symbol by {
            assert(d[i] == l[i]);
        }
        law_toppen(topper, d, ferske, base, fx, k);
        assert(l[l.len() - 1].symbol != s);
        law_toppen_aldri_under_kursen(topper, d, ferske, base, fx, k);
    } else {
        assert forall|i: int| 0 <= i < d.len() implies (#[trigger] d[i]).symbol != s by {
            assert(d[i] == l[i]);
        }
        lemma_urort_topp(topper, d, ferske, base, fx, s);
    }
}

proof fn lemma_urort_topp(
    topper: Map<Seq<char>, i64>,
    l: Seq<PosisjonSyn>,
    ferske: Seq<KursSyn>,
    base: Seq<char>,
    fx: Map<Seq<char>, (i64, u64)>,
    symbol: Seq<char>,
)
    requires
        forall|i: int| 0 <= i < l.len() ==> (#[trigger] l[i]).symbol != symbol,
    ensures
        hevet(topper, l, ferske, base, fx).dom().contains(symbol) == topper.dom().contains(symbol),
        topper.dom().contains(symbol) ==> hevet(topper, l, ferske, base, fx)[symbol] == topper[symbol],
    decreases l.len(),
{
    if l.len() > 0 {
        let d = l.drop_last();
        assert forall|i: int| 0 <= i < d.len() implies (#[trigger] d[i]).symbol != symbol by {
            assert(d[i] == l[i]);
        }
        lemma_urort_topp(topper, d, ferske, base, fx, symbol);
        assert(l[l.len() - 1].symbol != symbol);
    }
}

/// The price of a position is the fresh one of its symbol in the currency of the
/// account; without a fresh one it is the last known.
pub proof fn law_siste_pris(
    p: PosisjonSyn,
    ferske: Seq<KursSyn>,
    base: Seq<char>,
    fx: Map<Seq<char>, (i64, u64)>,
    k: int,
)
    requires
        0 <= k <= ferske.len(),
        forall|j: int| 0 <= j < k ==> (#[trigger] ferske[j]).symbol != p.symbol,
        k < ferske.len() ==> ferske[k].symbol == p.symbol,
    ensures
        k == ferske.len() ==> siste_pris(p, ferske, base, fx) == p.last,
        k < ferske.len() && ferske[k].currency == base ==> siste_pris(p, ferske, base, fx) == ferske[k].last,
{
    engine::law_forste_kurs(ferske, p.symbol, k);
    if k < ferske.len() {
        engine::law_grunnpris(ferske[k], base, fx);
    }
}

/// Of the symbols that are being sold, those stay of which something is still held.
pub proof fn law_fortsatt_eid(l: Seq<Seq<char>>, eide: Seq<PosisjonSyn>)
    ensures
        fortsatt_eid(l, eide) == l.filter(
            |s: Seq<char>| exists|i: int| 0 <= i < eide.len() && (#[trigger] eide[i]).symbol == s && eide[i].qty > 0,
        ),
    decreases l.len(),
{
    let p = |s: Seq<char>| exists|i: int| 0 <= i < eide.len() && (#[trigger] eide[i]).symbol == s && eide[i].qty > 0;
    reveal(Seq::filter);
    if l.len() > 0 {
        law_fortsatt_eid(l.drop_last(), eide);
        assert(p(l.last()) == eid(eide, l.last()));
    }
}

/// A symbol of which nothing is held keeps the peak it had, and gets none.
pub proof fn law_topp_uten_beholdning(
    topper: Map<Seq<char>, i64>,
    l: Seq<PosisjonSyn>,
    ferske: Seq<KursSyn>,
    base: Seq<char>,
    fx: Map<Seq<char>, (i64, u64)>,
    symbol: Seq<char>,
)
    requires
        forall|i: int| 0 <= i < l.len() ==> (#[trigger] l[i]).symbol != symbol || l[i].qty <= 0,
    ensures
        hevet(topper, l, ferske, base, fx).dom().contains(symbol) == topper.dom().contains(symbol),
        topper.dom().contains(symbol) ==> hevet(topper, l, ferske, base, fx)[symbol] == topper[symbol],
    decreases l.len(),
{
    if l.len() > 0 {
        let d = l.drop_last();
        assert forall|i: int| 0 <= i < d.len() implies (#[trigger] d[i]).symbol != symbol || d[i].qty <= 0 by {
            assert(d[i] == l[i]);
        }
        law_topp_uten_beholdning(topper, d, ferske, base, fx, symbol);
        assert(l[l.len() - 1].symbol != symbol || l[l.len() - 1].qty <= 0);
    }
}

}
