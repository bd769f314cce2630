//! Reports: the week, the day, and the long curve of the equity.
use vstd::prelude::*;

use crate::belop;
use crate::engine;
use crate::engine::{finn_kurs, Engine};
use crate::marketdata::KursSyn;
use crate::number_text;
use crate::order;
use crate::state::TxRow;
use crate::tabell::Tabell;
use crate::text;
use crate::text::{chars_of, copy_text, same, string_of, text_starts, three, two};
use crate::types;
use crate::types::{Position, PosisjonSyn, Quote};

verus! {

/// The largest value, up or down, whose shares in per cent can be reckoned in
/// 128 bits.
pub const STORST: i128 = 850_000_000_000_000_000_000_000_000_000_000_000;

/// `a` in per cent of `b`, which are values; 0 where `b` is nothing.
pub open spec fn andel_pct(a: int, b: int) -> int {
    let hel = belop::kvotient(b, 100_000_000);
    if hel > 0 {
        belop::kvotient(belop::kvotient(a, 100_000_000) * 10_000_000_000, hel)
    } else {
        0
    }
}

pub(crate) fn regn_andel(a: i128, b: i128) -> (r: i128)
    requires
        -2 * STORST <= a <= 2 * STORST,
        i128::MIN < b,
    ensures
        r == andel_pct(a as int, b as int),
{
    let hel: i128 = belop::del(b, 100_000_000);
    if hel > 0 {
        let d: i128 = belop::del(a, 100_000_000);
        belop::del(d * 10_000_000_000, hel)
    } else {
        0
    }
}

/// A value with its sign, in whole units.
pub open spec fn verdi_med_fortegn(v: int) -> Seq<char> {
    if v < 0 {
        belop::verdi_tekst(v, 0)
    } else {
        "+"@ + belop::verdi_tekst(v, 0)
    }
}

fn skriv_verdi(v: i128, des: u8) -> (r: String)
    requires
        des <= 16,
    ensures
        r@ == belop::verdi_tekst(v as int, des as nat),
{
    let cs: Vec<char> = belop::skriv(v, 16, des);
    string_of(cs.as_slice())
}

fn skriv_verdi_med_fortegn(v: i128) -> (r: String)
    ensures
        r@ == verdi_med_fortegn(v as int),
{
    let t: String = skriv_verdi(v, 0);
    if v < 0 {
        t
    } else {
        two("+", t.as_str())
    }
}

/// A symbol and a percentage with its sign, as one sentence after `navn`.
pub open spec fn bevegelsestekst(navn: Seq<char>, b: (Seq<char>, int)) -> Seq<char> {
    navn + b.0 + (" "@ + belop::med_fortegn(b.1, 1) + " %."@)
}

fn skriv_bevegelse(navn: &str, symbol: &str, pct: i128) -> (r: String)
    ensures
        r@ == bevegelsestekst(navn@, (symbol@, pct as int)),
{
    let cs: Vec<char> = belop::skriv_med_fortegn(pct, 1);
    let p: String = string_of(cs.as_slice());
    let hale: String = three(" ", p.as_str(), " %.");
    three(navn, symbol, hale.as_str())
}

pub open spec fn bevegelser(l: Seq<(String, i128)>) -> Seq<(Seq<char>, int)> {
    Seq::new(l.len(), |i: int| (l[i].0@, l[i].1 as int))
}

// ---------------------------------------------------------------------------
// The week
// ---------------------------------------------------------------------------

/// A week of a year, such as `2026-W07`.
pub open spec fn ukenokkel(aar: int, uke: nat) -> Seq<char> {
    number_text::signed_decimal(aar) + "-W"@ + number_text::padded(uke, 2)
}

pub fn skriv_ukenokkel(aar: i32, uke: u32) -> (r: String)
    ensures
        r@ == ukenokkel(aar as int, uke as nat),
{
    let a: Vec<char> = number_text::write_signed(aar as i128);
    let u: Vec<char> = number_text::write_padded(uke as u128, 2);
    let at: String = string_of(a.as_slice());
    let ut: String = string_of(u.as_slice());
    three(at.as_str(), "-W", ut.as_str())
}

/// What is stored of the equity at the start of a week.
pub open spec fn startnotat(nokkel: Seq<char>, equity: int) -> Seq<char> {
    nokkel + ":"@ + belop::verdi_tekst(equity, 8)
}

/// The equity at the start of the week: what was stored this week, or else the
/// equity now.
pub open spec fn ukestart(lagret: Option<Seq<char>>, nokkel: Seq<char>, equity: int) -> int {
    match lagret {
        Some(v) => {
            let deler = text::split_on(v, ':');
            if text::starts(v, nokkel) && deler.len() > 1 {
                match belop::belop_av(deler[1]) {
                    Some(b) => b * 100_000_000,
                    None => equity,
                }
            } else {
                equity
            }
        },
        None => equity,
    }
}

/// Whether the start of the week is still to be stored.
pub open spec fn ny_uke(lagret: Option<Seq<char>>, nokkel: Seq<char>) -> bool {
    match lagret {
        Some(v) => !text::starts(v, nokkel),
        None => true,
    }
}

pub open spec fn tekstsyn(o: Option<&str>) -> Option<Seq<char>> {
    match o {
        Some(s) => Some(s@),
        None => None,
    }
}

fn les_ukestart(lagret: Option<&str>, nokkel: &str, equity: i128) -> (r: i128)
    ensures
        r == ukestart(tekstsyn(lagret), nokkel@, equity as int),
        r == equity || -0x8000_0000_0000_0000 * 100_000_000 <= r <= 0x8000_0000_0000_0000 * 100_000_000,
{
    if let Some(v) = lagret {
        if text_starts(v, nokkel) {
            let cs: Vec<char> = chars_of(v);
            let deler: Vec<Vec<char>> = text::split(cs.as_slice(), ':');
            assert(text::seqs(deler@).len() == deler@.len());
            if deler.len() > 1 {
                assert(text::seqs(deler@)[1] == deler@[1]@);
                if let Some(b) = belop::les_belop(deler[1].as_slice()) {
                    return b as i128 * 100_000_000;
                }
            }
        }
    }
    equity
}

/// The first price at or after a time.
pub open spec fn pris_fra(h: Seq<(i64, i64)>, siden: int, i: int) -> Option<int>
    decreases h.len() - i,
{
    if i < 0 || i >= h.len() {
        None
    } else if h[i].0 >= siden {
        Some(h[i].1 as int)
    } else {
        pris_fra(h, siden, i + 1)
    }
}

/// How a price has moved since a time, in per cent.
pub open spec fn ukesendring(h: Seq<(i64, i64)>, siden: int) -> Option<int> {
    match pris_fra(h, siden, 0) {
        Some(p) => if p > 0 {
            Some(types::endring_pct(h.last().1 as int, p))
        } else {
            None
        },
        None => None,
    }
}

fn finn_ukesendring(h: &Vec<(i64, i64)>, siden: i64) -> (r: Option<i128>)
    ensures
        r is Some == ukesendring(h@, siden as int) is Some,
        r matches Some(v) ==> ukesendring(h@, siden as int) == Some(v as int),
{
    let mut i: usize = 0;
    while i < h.len()
        invariant
            i <= h@.len(),
            pris_fra(h@, siden as int, 0) == pris_fra(h@, siden as int, i as int),
        decreases h.len() - i,
    {
        if h[i].0 >= siden {
            if h[i].1 > 0 {
                return Some(types::endring(h[h.len() - 1].1, h[i].1));
            }
            return None;
        }
        i += 1;
    }
    None
}

/// The moves of the positions whose prices go back far enough.
pub open spec fn ukesbevegelser(
    l: Seq<PosisjonSyn>,
    historie: Map<Seq<char>, Vec<(i64, i64)>>,
    siden: int,
) -> Seq<(Seq<char>, int)>
    decreases l.len(),
{
    if l.len() == 0 {
        Seq::empty()
    } else {
        let for_ = ukesbevegelser(l.drop_last(), historie, siden);
        let s = l.last().symbol;
        if historie.dom().contains(s) {
            match ukesendring(historie[s]@, siden) {
                Some(p) => for_.push((s, p)),
                None => for_,
            }
        } else {
            for_
        }
    }
}

/// The first of those that rose the most.
pub open spec fn beste(l: Seq<(Seq<char>, int)>) -> Option<(Seq<char>, int)>
    decreases l.len(),
{
    if l.len() == 0 {
        None
    } else {
        match beste(l.drop_last()) {
            Some(b) => if l.last().1 > b.1 {
                Some(l.last())
            } else {
                Some(b)
            },
            None => Some(l.last()),
        }
    }
}

/// The first of those that rose the least.
pub open spec fn svakeste(l: Seq<(Seq<char>, int)>) -> Option<(Seq<char>, int)>
    decreases l.len(),
{
    if l.len() == 0 {
        None
    } else {
        match svakeste(l.drop_last()) {
            Some(b) => if l.last().1 < b.1 {
                Some(l.last())
            } else {
                Some(b)
            },
            None => Some(l.last()),
        }
    }
}

/// The best and the weakest are among the moves, and no move is outside them.
pub proof fn law_beste_og_svakeste(l: Seq<(Seq<char>, int)>)
    ensures
        beste(l) is Some == (l.len() > 0),
        svakeste(l) is Some == (l.len() > 0),
        beste(l) matches Some(b) ==> l.contains(b) && forall|i: int| 0 <= i < l.len() ==> (#[trigger] l[i]).1 <= b.1,
        svakeste(l) matches Some(b) ==> l.contains(b) && forall|i: int|
            0 <= i < l.len() ==> (#[trigger] l[i]).1 >= b.1,
    decreases l.len(),
{
    if l.len() > 0 {
        let d = l.drop_last();
        law_beste_og_svakeste(d);
        assert(l[l.len() - 1] == l.last());
        assert forall|i: int| 0 <= i < l.len() - 1 implies #[trigger] l[i] == d[i] by {}
        if d.len() > 0 {
            let b = beste(d)->0;
            let s = svakeste(d)->0;
            let i = choose|i: int| 0 <= i < d.len() && d[i] == b;
            assert(l[i] == b);
            let j = choose|j: int| 0 <= j < d.len() && d[j] == s;
            assert(l[j] == s);
        }
    }
}

/// What the report on the week says.
pub open spec fn ukesmelding(equity: int, start: int, l: Seq<(Seq<char>, int)>) -> Seq<char> {
    let diff = equity - start;
    let hode = "📊 Ukesrapport: porteføljen "@ + belop::med_fortegn(andel_pct(diff, start), 1) + (" % ("@
        + verdi_med_fortegn(diff) + (" kr) denne uken. Egenkapital: "@ + belop::verdi_tekst(equity, 0) + " kr."@));
    hode + (match beste(l) {
        Some(b) => bevegelsestekst(" Beste: "@, b),
        None => Seq::empty(),
    }) + (match svakeste(l) {
        Some(b) => bevegelsestekst(" Svakeste: "@, b),
        None => Seq::empty(),
    })
}

fn finn_bevegelser(positions: &Vec<Position>, history: &Tabell<Vec<(i64, i64)>>, siden: i64) -> (r: Vec<(String, i128)>)
    requires
        history.ordnet(),
    ensures
        bevegelser(r@) == ukesbevegelser(types::posisjoner(positions@), history@, siden as int),
{
    let ghost alle = types::posisjoner(positions@);
    let mut ut: Vec<(String, i128)> = Vec::new();
    let mut i: usize = 0;
    assert(alle.take(0) =~= Seq::empty());
    assert(bevegelser(ut@) =~= Seq::empty());
    while i < positions.len()
        invariant
            i <= positions@.len(),
            history.ordnet(),
            alle == types::posisjoner(positions@),
            bevegelser(ut@) == ukesbevegelser(alle.take(i as int), history@, siden as int),
        decreases positions.len() - i,
    {
        let p: &Position = &positions[i];
        proof {
            assert(alle.take(i + 1).drop_last() =~= alle.take(i as int));
            assert(alle.take(i + 1).last() == p@);
        }
        let ghost for_ = bevegelser(ut@);
        if let Some(h) = history.hent(p.symbol.as_str()) {
            if let Some(pct) = finn_ukesendring(h, siden) {
                ut.push((copy_text(&p.symbol), pct));
                assert(bevegelser(ut@) =~= for_.push((p.symbol@, pct as int)));
            }
        }
        i += 1;
    }
    assert(alle.take(i as int) =~= alle);
    ut
}

/// Where the best or the weakest of a list stands.
fn finn_ytterste(l: &Vec<(String, i128)>, hoyest: bool) -> (r: Option<usize>)
    ensures
        (match r {
            Some(i) => i < l@.len() && Some(bevegelser(l@)[i as int]) == (if hoyest {
                beste(bevegelser(l@))
            } else {
                svakeste(bevegelser(l@))
            }),
            None => l@.len() == 0,
        }),
{
    let ghost alle = bevegelser(l@);
    if l.len() == 0 {
        return None;
    }
    let mut best: usize = 0;
    let mut i: usize = 1;
    proof {
        reveal_with_fuel(beste, 2);
        reveal_with_fuel(svakeste, 2);
        assert(alle.take(1).drop_last() =~= Seq::empty());
        assert(alle.take(1).last() == alle[0]);
    }
    while i < l.len()
        invariant
            1 <= i <= l@.len(),
            best < i,
            alle == bevegelser(l@),
            Some(alle[best as int]) == (if hoyest {
                beste(alle.take(i as int))
            } else {
                svakeste(alle.take(i as int))
            }),
        decreases l.len() - i,
    {
        proof {
            assert(alle.take(i + 1).drop_last() =~= alle.take(i as int));
            assert(alle.take(i + 1).last() == alle[i as int]);
        }
        if (hoyest && l[i].1 > l[best].1) || (!hoyest && l[i].1 < l[best].1) {
            best = i;
        }
        i += 1;
    }
    assert(alle.take(i as int) =~= alle);
    Some(best)
}

fn skriv_ukesmelding(equity: i128, start: i128, l: &Vec<(String, i128)>) -> (r: String)
    requires
        0 < equity <= STORST,
        -STORST <= start <= STORST,
    ensures
        r@ == ukesmelding(equity as int, start as int, bevegelser(l@)),
{
    let diff: i128 = equity - start;
    let ek: String = skriv_verdi(equity, 0);
    let d: String = three(" kr) denne uken. Egenkapital: ", ek.as_str(), " kr.");
    let dt: String = skriv_verdi_med_fortegn(diff);
    let c: String = three(" % (", dt.as_str(), d.as_str());
    let pct: i128 = regn_andel(diff, start);
    let pc: Vec<char> = belop::skriv_med_fortegn(pct, 1);
    let pt: String = string_of(pc.as_slice());
    let hode: String = three("📊 Ukesrapport: porteføljen ", pt.as_str(), c.as_str());
    proof {
        law_beste_og_svakeste(bevegelser(l@));
    }
    match (finn_ytterste(l, true), finn_ytterste(l, false)) {
        (Some(b), Some(s)) => {
            let bt: String = skriv_bevegelse(" Beste: ", l[b].0.as_str(), l[b].1);
            let st: String = skriv_bevegelse(" Svakeste: ", l[s].0.as_str(), l[s].1);
            three(hode.as_str(), bt.as_str(), st.as_str())
        },
        _ => {
            assert(hode@ =~= ukesmelding(equity as int, start as int, bevegelser(l@)));
            hode
        },
    }
}

/// What the report on the week asks for.
#[derive(Debug)]
pub struct Ukesvar {
    /// What to store as the start of the week.
    pub start: Option<String>,
    /// The report, and the week that it is for.
    pub rapport: Option<(String, String)>,
}

/// A week in seconds.
pub const UKE: i64 = 604_800;

/// The report on the week: on Friday from four in the afternoon, once. The
/// first tick of a week stores the equity that the week is measured by.
pub fn ukesrapport(
    equity: i128,
    nokkel: &str,
    ukedag: u32,
    time: u32,
    lagret_start: Option<&str>,
    sist: Option<&str>,
    positions: &Vec<Position>,
    history: &Tabell<Vec<(i64, i64)>>,
    naa: i64,
) -> (r: Ukesvar)
    requires
        history.ordnet(),
        naa >= i64::MIN + UKE,
    ensures
        !(0 < equity <= STORST) ==> r.start is None && r.rapport is None,
        0 < equity <= STORST ==> {
            &&& r.start is Some == ny_uke(tekstsyn(lagret_start), nokkel@)
            &&& r.start matches Some(t) ==> t@ == startnotat(nokkel@, equity as int)
            &&& r.rapport is Some == (ukedag == 4 && time >= 16 && tekstsyn(sist) != Some(nokkel@))
            &&& r.rapport is Some == ukeslutt(ukedag as int, time as int, tekstsyn(sist), nokkel@)
            &&& r.rapport matches Some(p) ==> p.1@ == nokkel@ && p.0@ == ukesmelding(
                equity as int,
                ukestart(tekstsyn(lagret_start), nokkel@, equity as int),
                ukesbevegelser(types::posisjoner(positions@), history@, naa - UKE),
            )
        },
{
    if equity <= 0 || equity > STORST {
        return Ukesvar { start: None, rapport: None };
    }
    let ny: bool = match lagret_start {
        Some(v) => !text_starts(v, nokkel),
        None => true,
    };
    let start: Option<String> = if ny {
        let t: String = skriv_verdi(equity, 8);
        Some(three(nokkel, ":", t.as_str()))
    } else {
        None
    };
    let gjort: bool = match sist {
        Some(s) => same(s, nokkel),
        None => false,
    };
    if ukedag != 4 || time < 16 || gjort {
        return Ukesvar { start, rapport: None };
    }
    let fra: i128 = les_ukestart(lagret_start, nokkel, equity);
    let l: Vec<(String, i128)> = finn_bevegelser(positions, history, naa - UKE);
    let melding: String = skriv_ukesmelding(equity, fra, &l);
    Ukesvar { start, rapport: Some((melding, nokkel.to_owned())) }
}

// ---------------------------------------------------------------------------
// The day
// ---------------------------------------------------------------------------

/// The rate of a currency, one where it is not known.
pub open spec fn rate(fx: Map<Seq<char>, (i64, u64)>, valuta: Seq<char>) -> int {
    if fx.dom().contains(valuta) {
        fx[valuta].0 as int
    } else {
        100_000_000
    }
}

/// What the day has done to a position, in the currency of the account.
pub open spec fn dagsverdi(p: PosisjonSyn, q: KursSyn, fx: Map<Seq<char>, (i64, u64)>) -> int {
    belop::kvotient(p.qty * (q.last - q.prev_close) * rate(fx, q.currency), 100_000_000)
}

/// What the day has done to the positions, and how much each has moved; none
/// where it cannot be counted.
pub open spec fn dagens(l: Seq<PosisjonSyn>, ferske: Seq<KursSyn>, fx: Map<Seq<char>, (i64, u64)>) -> Option<
    (int, Seq<(Seq<char>, int)>),
>
    decreases l.len(),
{
    if l.len() == 0 {
        Some((0, Seq::empty()))
    } else {
        let p = l.last();
        match dagens(l.drop_last(), ferske, fx) {
            None => None,
            Some((sum, m)) => if p.qty <= 0 {
                Some((sum, m))
            } else {
                match engine::kurs_for(ferske, p.symbol, 0) {
                    None => Some((sum, m)),
                    Some(q) => if -STORST <= dagsverdi(p, q, fx) <= STORST && -STORST <= sum + dagsverdi(p, q, fx)
                        <= STORST {
                        Some((sum + dagsverdi(p, q, fx), m.push((p.symbol, types::endring_pct(q.last, q.prev_close)))))
                    } else {
                        None
                    },
                }
            },
        }
    }
}

/// The keys that put the largest moves first.
pub open spec fn vekter(l: Seq<(Seq<char>, int)>) -> Seq<i128> {
    Seq::new(
        l.len(),
        |i: int|
            (if l[i].1 < 0 {
                l[i].1
            } else {
                -l[i].1
            }) as i128,
    )
}

/// The four largest moves, as sentences.
pub open spec fn storste_tekst(l: Seq<(Seq<char>, int)>, n: nat) -> Seq<char>
    decreases n,
{
    if n == 0 {
        Seq::empty()
    } else {
        storste_tekst(l, (n - 1) as nat) + bevegelsestekst(" "@, l[order::order_of(vekter(l))[n - 1]])
    }
}

/// How many of the orders of a day were filled.
pub open spec fn fylte(l: Seq<TxRow>, dato: Seq<char>) -> nat
    decreases l.len(),
{
    if l.len() == 0 {
        0
    } else {
        fylte(l.drop_last(), dato) + (if text::starts(l.last().ts@, dato) && l.last().status@ == "FYLT"@ {
            1nat
        } else {
            0nat
        })
    }
}

pub open spec fn minste(a: nat, b: nat) -> nat {
    if a < b {
        a
    } else {
        b
    }
}

/// What the report on the day says.
pub open spec fn dagsmelding(equity: int, kr: int, l: Seq<(Seq<char>, int)>, handler: nat) -> Seq<char> {
    let pct = if equity - kr > 0 {
        andel_pct(kr, equity - kr)
    } else {
        0
    };
    let hode = "🌇 Dagen: "@ + belop::med_fortegn(pct, 1) + (" % ("@ + verdi_med_fortegn(kr) + (" kr). Egenkapital: "@
        + belop::verdi_tekst(equity, 0) + " kr."@));
    hode + storste_tekst(l, minste(4, l.len())) + (if handler > 0 {
        " "@ + number_text::decimal(handler) + " handler i dag."@
    } else {
        Seq::empty()
    })
}

fn tell_fylte(l: &Vec<TxRow>, dato: &str) -> (r: usize)
    ensures
        r == fylte(l@, dato@),
{
    let mut n: usize = 0;
    let mut i: usize = 0;
    assert(l@.take(0) =~= Seq::empty());
    while i < l.len()
        invariant
            i <= l@.len(),
            n <= i,
            n == fylte(l@.take(i as int), dato@),
        decreases l.len() - i,
    {
        proof {
            assert(l@.take(i + 1).drop_last() =~= l@.take(i as int));
            assert(l@.take(i + 1).last() == l@[i as int]);
        }
        if text_starts(l[i].ts.as_str(), dato) && same(l[i].status.as_str(), "FYLT") {
            n += 1;
        }
        i += 1;
    }
    assert(l@.take(i as int) =~= l@);
    n
}

fn skriv_storste(l: &Vec<(String, i128)>) -> (r: String)
    requires
        forall|i: int| 0 <= i < l@.len() ==> i128::MIN < (#[trigger] l@[i]).1,
    ensures
        r@ == storste_tekst(bevegelser(l@), minste(4, l@.len())),
{
    let ghost alle = bevegelser(l@);
    let mut keys: Vec<i128> = Vec::new();
    let mut i: usize = 0;
    while i < l.len()
        invariant
            i <= l@.len(),
            alle == bevegelser(l@),
            keys@ =~= vekter(alle).take(i as int),
            forall|i: int| 0 <= i < l@.len() ==> i128::MIN < (#[trigger] l@[i]).1,
        decreases l.len() - i,
    {
        let v: i128 = l[i].1;
        assert(alle[i as int].1 == v);
        let k: i128 = if v < 0 {
            v
        } else {
            -v
        };
        keys.push(k);
        assert(vekter(alle)[i as int] == k);
        i += 1;
    }
    assert(keys@ =~= vekter(alle));
    let rekkefolge: Vec<usize> = order::stable_order(&keys);
    let mut deler: String = "".to_owned();
    let mut n: usize = 0;
    proof {
        reveal_strlit("");
        assert(deler@ =~= Seq::empty());
    }
    while n < l.len() && n < 4
        invariant
            n <= l@.len(),
            n <= 4,
            alle == bevegelser(l@),
            keys@ == vekter(alle),
            rekkefolge@.len() == l@.len(),
            forall|i: int| 0 <= i < rekkefolge@.len() ==> (#[trigger] rekkefolge@[i]) < l@.len(),
            order::positions(rekkefolge@) == order::order_of(keys@),
            deler@ == storste_tekst(alle, n as nat),
        decreases l.len() - n,
    {
        let j: usize = rekkefolge[n];
        assert(order::positions(rekkefolge@)[n as int] == j);
        let t: String = skriv_bevegelse(" ", l[j].0.as_str(), l[j].1);
        deler = two(deler.as_str(), t.as_str());
        n += 1;
    }
    deler
}

impl Engine {
    fn regn_dagens(&self, fresh: &Vec<Quote>, positions: &Vec<Position>) -> (r: Option<(i128, Vec<(String, i128)>)>)
        requires
            self.gyldig(),
        ensures
            (match dagens(types::posisjoner(positions@), engine::kurser(fresh@), self.fx@) {
                None => r is None,
                Some((sum, m)) => r is Some && (r->0).0 == sum && bevegelser((r->0).1@) == m,
            }),
            r matches Some(p) ==> -STORST <= p.0 <= STORST && forall|i: int|
                0 <= i < p.1@.len() ==> i128::MIN < (#[trigger] p.1@[i]).1,
    {
        let ghost alle = types::posisjoner(positions@);
        let ghost ferske = engine::kurser(fresh@);
        let mut sum: i128 = 0;
        let mut ut: Vec<(String, i128)> = Vec::new();
        let mut i: usize = 0;
        assert(alle.take(0) =~= Seq::empty());
        assert(bevegelser(ut@) =~= Seq::empty());
        while i < positions.len()
            invariant
                i <= positions@.len(),
                self.gyldig(),
                alle == types::posisjoner(positions@),
                ferske == engine::kurser(fresh@),
                -STORST <= sum <= STORST,
                dagens(alle.take(i as int), ferske, self.fx@) == Some((sum as int, bevegelser(ut@))),
                forall|k: int| 0 <= k < ut@.len() ==> i128::MIN < (#[trigger] ut@[k]).1,
            decreases positions.len() - i,
        {
            let p: &Position = &positions[i];
            proof {
                assert(alle.take(i + 1).drop_last() =~= alle.take(i as int));
                assert(alle.take(i + 1).last() == p@);
            }
            let ghost for_ = bevegelser(ut@);
            if p.qty > 0 {
                if let Some(q) = finn_kurs(fresh, p.symbol.as_str()) {
                    let kurs: i64 = match self.fx.hent(q.currency.as_str()) {
                        Some(k) => k.0,
                        None => 100_000_000,
                    };
                    let v: Option<i128> = dagsverdi_av(p.qty, q.last, q.prev_close, kurs);
                    let ny: Option<i128> = match v {
                        Some(v) => if -STORST <= sum + v && sum + v <= STORST {
                            Some(sum + v)
                        } else {
                            None
                        },
                        None => None,
                    };
                    match ny {
                        Some(s) => {
                            sum = s;
                            let pct: i128 = types::endring(q.last, q.prev_close);
                            ut.push((copy_text(&p.symbol), pct));
                            assert(bevegelser(ut@) =~= for_.push((p.symbol@, pct as int)));
                        },
                        None => {
                            proof {
                                assert(dagens(alle.take(i + 1), ferske, self.fx@) is None);
                                lemma_dagens_ingen(alle, ferske, self.fx@, i + 1);
                            }
                            return None;
                        },
                    }
                }
            }
            i += 1;
        }
        assert(alle.take(i as int) =~= alle);
        Some((sum, ut))
    }

    /// The report on the day: on weekdays from half past four, once. None where
    /// it is switched off, or its sums are past counting.
    pub fn dagsoppsummering(
        &self,
        equity: i128,
        ukedag: u32,
        time: u32,
        minutt: u32,
        i_dag: &str,
        sist: Option<&str>,
        fresh: &Vec<Quote>,
        positions: &Vec<Position>,
        transactions: &Vec<TxRow>,
        dato: &str,
    ) -> (r: Option<String>)
        requires
            self.gyldig(),
        ensures
            ({
                let klar = self.cfg.notify.daily_summary && 0 < equity <= STORST && ukedag < 5 && (time > 16 || (time
                    == 16 && minutt >= 30)) && tekstsyn(sist) != Some(i_dag@);
                let d = dagens(types::posisjoner(positions@), engine::kurser(fresh@), self.fx@);
                match r {
                    Some(t) => klar && d is Some && t@ == dagsmelding(
                        equity as int,
                        (d->0).0,
                        (d->0).1,
                        fylte(transactions@, dato@),
                    ),
                    None => !klar || d is None,
                }
            }),
            r is Some ==> self.cfg.notify.daily_summary && dagslutt(
                ukedag as int,
                time as int,
                minutt as int,
                tekstsyn(sist),
                i_dag@,
            ),
            self.cfg.notify.daily_summary && dagslutt(
                ukedag as int,
                time as int,
                minutt as int,
                tekstsyn(sist),
                i_dag@,
            ) && 0 < equity <= STORST && dagens(types::posisjoner(positions@), engine::kurser(fresh@), self.fx@) is Some
                ==> r is Some,
    {
        if !self.cfg.notify.daily_summary || equity <= 0 || equity > STORST || ukedag >= 5 {
            return None;
        }
        if time < 16 || (time == 16 && minutt < 30) {
            return None;
        }
        if let Some(s) = sist {
            if same(s, i_dag) {
                return None;
            }
        }
        let (kr, l): (i128, Vec<(String, i128)>) = match self.regn_dagens(fresh, positions) {
            Some(p) => p,
            None => return None,
        };
        let pct: i128 = if equity - kr > 0 {
            regn_andel(kr, equity - kr)
        } else {
            0
        };
        let ek: String = skriv_verdi(equity, 0);
        let d: String = three(" kr). Egenkapital: ", ek.as_str(), " kr.");
        let kt: String = skriv_verdi_med_fortegn(kr);
        let c: String = three(" % (", kt.as_str(), d.as_str());
        let pc: Vec<char> = belop::skriv_med_fortegn(pct, 1);
        let pt: String = string_of(pc.as_slice());
        let hode: String = three("🌇 Dagen: ", pt.as_str(), c.as_str());
        let storste: String = skriv_storste(&l);
        let n: usize = tell_fylte(transactions, dato);
        assert(bevegelser(l@).len() == l@.len());
        if n > 0 {
            let nt: String = number_text::decimal_text(n as u128);
            let hale: String = three(" ", nt.as_str(), " handler i dag.");
            Some(three(hode.as_str(), storste.as_str(), hale.as_str()))
        } else {
            let t: String = two(hode.as_str(), storste.as_str());
            assert(t@ =~= dagsmelding(equity as int, kr as int, bevegelser(l@), fylte(transactions@, dato@)));
            Some(t)
        }
    }
}

fn dagsverdi_av(qty: i64, last: i64, prev: i64, kurs: i64) -> (r: Option<i128>)
    requires
        qty > 0,
    ensures
        ({
            let v = belop::kvotient(qty * (last - prev) * kurs, 100_000_000);
            match r {
                Some(x) => x == v && -STORST <= v <= STORST,
                None => !(-STORST <= v <= STORST),
            }
        }),
{
    let d: i128 = last as i128 - prev as i128;
    assert(-0x7fff_ffff_ffff_ffff * 0x1_0000_0000_0000_0000 <= qty * d <= 0x7fff_ffff_ffff_ffff
        * 0x1_0000_0000_0000_0000) by (nonlinear_arith)
        requires
            0 < qty <= 0x7fff_ffff_ffff_ffff,
            -0x1_0000_0000_0000_0000 <= d <= 0x1_0000_0000_0000_0000,
    ;
    match belop::gang_del(qty as i128 * d, kurs as i128, 100_000_000) {
        Some(v) => if -STORST <= v && v <= STORST {
            Some(v)
        } else {
            None
        },
        None => None,
    }
}

proof fn lemma_dagens_ingen(l: Seq<PosisjonSyn>, ferske: Seq<KursSyn>, fx: Map<Seq<char>, (i64, u64)>, n: int)
    requires
        0 <= n <= l.len(),
        dagens(l.take(n), ferske, fx) is None,
    ensures
        dagens(l, ferske, fx) is None,
    decreases l.len() - n,
{
    if n < l.len() {
        assert(l.take(n + 1).drop_last() =~= l.take(n));
        lemma_dagens_ingen(l, ferske, fx, n + 1);
    } else {
        assert(l.take(n) =~= l);
    }
}

// ---------------------------------------------------------------------------
// The long curve
// ---------------------------------------------------------------------------

/// Five minutes, in nanoseconds.
pub const SKRIVETID: u64 = 300_000_000_000;

impl Engine {
    /// Whether the equity is to be stored now: it is something, and more than
    /// five minutes have passed.
    pub fn skal_lagre(&mut self, equity: i128, naa: u64) -> (r: bool)
        ensures
            r == (equity > 0 && (old(self).last_equity_write matches Some(t) ==> naa - t > SKRIVETID)),
            r == skrives(old(self).last_equity_write, equity as int, naa),
            final(self).last_equity_write == (if r {
                Some(naa)
            } else {
                old(self).last_equity_write
            }),
            *final(self) == (Engine { last_equity_write: final(self).last_equity_write, ..*old(self) }),
    {
        if equity <= 0 {
            return false;
        }
        if let Some(t) = self.last_equity_write {
            if naa < t || naa - t <= SKRIVETID {
                return false;
            }
        }
        self.last_equity_write = Some(naa);
        true
    }
}

/// The curve with the point of today: in place of the last one where that is of
/// today too, or behind it.
pub open spec fn med_dagens_punkt(l: Seq<(i64, i128)>, siste_i_dag: bool, p: (i64, i128)) -> Seq<(i64, i128)> {
    if siste_i_dag && l.len() > 0 {
        l.drop_last().push(p)
    } else {
        l.push(p)
    }
}

/// Puts the point of today on the curve. `siste_dato` is the date of its last
/// point.
pub fn speil_dag(l: &mut Vec<(i64, i128)>, siste_dato: Option<&str>, i_dag: &str, ts: i64, equity: i128)
    ensures
        final(l)@ == med_dagens_punkt(old(l)@, tekstsyn(siste_dato) == Some(i_dag@), (ts, equity)),
{
    let samme: bool = match siste_dato {
        Some(d) => same(d, i_dag),
        None => false,
    };
    if samme && l.len() > 0 {
        l.pop();
    }
    l.push((ts, equity));
}

/// A day has one point: however often it is put, the last value wins.
pub proof fn law_ett_punkt_om_dagen(l: Seq<(i64, i128)>, siste_i_dag: bool, a: (i64, i128), b: (i64, i128))
    ensures
        med_dagens_punkt(med_dagens_punkt(l, siste_i_dag, a), true, b) == med_dagens_punkt(l, siste_i_dag, b),
{
    assert(med_dagens_punkt(med_dagens_punkt(l, siste_i_dag, a), true, b) =~= med_dagens_punkt(l, siste_i_dag, b));
}

// ---------------------------------------------------------------------------
// The portfolio that is only read
// ---------------------------------------------------------------------------

/// What the log says after a round with Nordnet: that it works again, how many
/// positions came, or a failure that is not the same as last time.
pub fn nordnet_runde(siste_feil: &mut Option<String>, antall: Option<usize>, feil: &str) -> (r: Vec<String>)
    ensures
        (match antall {
            Some(n) => {
                let hentet = "Nordnet: hentet "@ + number_text::decimal(n as nat) + " posisjoner"@;
                &&& *final(siste_feil) == None::<String>
                &&& text::views(r@) == (if *old(siste_feil) is Some {
                    seq!["Nordnet-lesemodus: tilkobling gjenopprettet."@, hentet]
                } else {
                    seq![hentet]
                })
            },
            None => if (*old(siste_feil) matches Some(f) && f@ == feil@) {
                *final(siste_feil) == *old(siste_feil) && r@.len() == 0
            } else {
                *final(siste_feil) is Some && final(siste_feil)->0@ == feil@ && text::views(r@)
                    == seq!["Nordnet-lesemodus: "@ + feil@]
            },
        }),
{
    let mut ut: Vec<String> = Vec::new();
    match antall {
        Some(n) => {
            if siste_feil.is_some() {
                ut.push("Nordnet-lesemodus: tilkobling gjenopprettet.".to_owned());
            }
            *siste_feil = None;
            let t: String = number_text::decimal_text(n as u128);
            ut.push(three("Nordnet: hentet ", t.as_str(), " posisjoner"));
            let ghost hentet = "Nordnet: hentet "@ + number_text::decimal(n as nat) + " posisjoner"@;
            assert(text::views(ut@) =~= (if *old(siste_feil) is Some {
                seq!["Nordnet-lesemodus: tilkobling gjenopprettet."@, hentet]
            } else {
                seq![hentet]
            }));
        },
        None => {
            let samme: bool = match siste_feil.as_ref() {
                Some(f) => same(f.as_str(), feil),
                None => false,
            };
            if !samme {
                ut.push(two("Nordnet-lesemodus: ", feil));
                *siste_feil = Some(feil.to_owned());
                assert(text::views(ut@) =~= seq!["Nordnet-lesemodus: "@ + feil@]);
            }
        },
    }
    ut
}

// ---------------------------------------------------------------------------
// What the numbers of the reports are
// ---------------------------------------------------------------------------

/// A share in per cent, of whole units: as much of the whole as makes up the part,
/// with what is behind the last decimal cut off.
pub proof fn law_andelen(a: int, b: int)
    requires
        a >= 0,
        b >= 100_000_000,
    ensures
        ({
            let del = a / 100_000_000;
            let hel = b / 100_000_000;
            let p = andel_pct(a, b);
            p >= 0 && p * hel <= del * 10_000_000_000 < (p + 1) * hel && andel_pct(-a, b) == -p
        }),
{
    belop::law_kvotient((a / 100_000_000) * 10_000_000_000, b / 100_000_000);
}

/// A price's move since a time is counted from the first price at or after it to the
/// newest one.
pub proof fn law_ukesendringen(h: Seq<(i64, i64)>, siden: int, k: int)
    requires
        0 <= k <= h.len(),
        forall|j: int| 0 <= j < k ==> (#[trigger] h[j]).0 < siden,
        k < h.len() ==> h[k].0 >= siden,
    ensures
        k == h.len() || h[k].1 <= 0 ==> ukesendring(h, siden) is None,
        k < h.len() && h[k].1 > 0 ==> (ukesendring(h, siden) matches Some(p) && (h.last().1 >= h[k].1 ==> p >= 0 && h[k].1
            * p <= 10_000_000_000 * (h.last().1 - h[k].1) < h[k].1 * (p + 1)) && (h.last().1 <= h[k].1 ==> p <= 0
            && h[k].1 * (p - 1) < 10_000_000_000 * (h.last().1 - h[k].1) <= h[k].1 * p)),
{
    lemma_pris_fra(h, siden, 0, k);
    if k < h.len() && h[k].1 > 0 {
        types::law_endring_pct(h.last().1 as int, h[k].1 as int);
    }
}

proof fn lemma_pris_fra(h: Seq<(i64, i64)>, siden: int, i: int, k: int)
    requires
        0 <= i <= k <= h.len(),
        forall|j: int| 0 <= j < k ==> (#[trigger] h[j]).0 < siden,
        k < h.len() ==> h[k].0 >= siden,
    ensures
        pris_fra(h, siden, i) == (if k < h.len() {
            Some(h[k].1 as int)
        } else {
            None
        }),
    decreases k - i,
{
    if i < k {
        assert(h[i].0 < siden);
        lemma_pris_fra(h, siden, i + 1, k);
    }
}

/// The moves of the week are those of the positions whose prices go back that far,
/// all of them and in their order.
pub proof fn law_ukesbevegelsene(l: Seq<PosisjonSyn>, historie: Map<Seq<char>, Vec<(i64, i64)>>, siden: int)
    ensures
        ukesbevegelser(l, historie, siden) == l.filter(
            |p: PosisjonSyn|
                historie.dom().contains(p.symbol) && ukesendring(historie[p.symbol]@, siden) is Some,
        ).map_values(|p: PosisjonSyn| (p.symbol, ukesendring(historie[p.symbol]@, siden)->0)),
    decreases l.len(),
{
    let p = |p: PosisjonSyn| historie.dom().contains(p.symbol) && ukesendring(historie[p.symbol]@, siden) is Some;
    let f = |p: PosisjonSyn| (p.symbol, ukesendring(historie[p.symbol]@, siden)->0);
    reveal(Seq::filter);
    if l.len() > 0 {
        law_ukesbevegelsene(l.drop_last(), historie, siden);
        let d = l.drop_last().filter(p);
        if p(l.last()) {
            assert(d.push(l.last()).map_values(f) =~= d.map_values(f).push(f(l.last())));
        }
    }
    assert(ukesbevegelser(l, historie, siden) =~= l.filter(p).map_values(f));
}

/// What the day has done to a position in the currency of the account, or in one
/// whose rate is not known: as many as are held times what the price has moved since
/// the last close.
pub proof fn law_dagsverdien(p: PosisjonSyn, q: KursSyn, fx: Map<Seq<char>, (i64, u64)>)
    ensures
        !fx.dom().contains(q.currency) ==> dagsverdi(p, q, fx) == p.qty * (q.last - q.prev_close),
        fx.dom().contains(q.currency) && p.qty >= 0 && q.last >= q.prev_close && fx[q.currency].0 >= 0 ==> dagsverdi(
            p,
            q,
            fx,
        ) * 100_000_000 <= p.qty * (q.last - q.prev_close) * fx[q.currency].0 < (dagsverdi(p, q, fx) + 1) * 100_000_000,
        fx.dom().contains(q.currency) && p.qty >= 0 && q.last <= q.prev_close && fx[q.currency].0 >= 0 ==> (dagsverdi(
            p,
            q,
            fx,
        ) - 1) * 100_000_000 < p.qty * (q.last - q.prev_close) * fx[q.currency].0 <= dagsverdi(p, q, fx) * 100_000_000,
{
    let x = p.qty * (q.last - q.prev_close);
    let r = rate(fx, q.currency);
    belop::law_kvotient(x * r, 100_000_000);
    if !fx.dom().contains(q.currency) {
        belop::law_kvotient(x * 100_000_000, 100_000_000);
    } else if p.qty >= 0 && r >= 0 {
        let d = q.last - q.prev_close;
        let n = p.qty as int;
        if d >= 0 {
            assert((n * d) * r >= 0) by (nonlinear_arith)
                requires
                    n >= 0,
                    d >= 0,
                    r >= 0,
            ;
        }
        if d <= 0 {
            assert((n * d) * r <= 0) by (nonlinear_arith)
                requires
                    n >= 0,
                    d <= 0,
                    r >= 0,
            ;
        }
    }
}

/// The day's sum is what it did to each position that is held and has a price, added
/// up, and each of those has a move in the list.
pub proof fn law_dagens_sum(l: Seq<PosisjonSyn>, ferske: Seq<KursSyn>, fx: Map<Seq<char>, (i64, u64)>)
    ensures
        dagens(l, ferske, fx) matches Some((sum, m)) ==> {
            let med = l.filter(|p: PosisjonSyn| p.qty > 0 && engine::kurs_for(ferske, p.symbol, 0) is Some);
            &&& sum == med.fold_left(
                0int,
                |s: int, p: PosisjonSyn| s + dagsverdi(p, engine::kurs_for(ferske, p.symbol, 0)->0, fx),
            )
            &&& m.len() == med.len()
            &&& forall|i: int| 0 <= i < m.len() ==> (#[trigger] m[i]).0 == med[i].symbol
        },
    decreases l.len(),
{
    let p = |p: PosisjonSyn| p.qty > 0 && engine::kurs_for(ferske, p.symbol, 0) is Some;
    reveal(Seq::filter);
    if l.len() > 0 {
        law_dagens_sum(l.drop_last(), ferske, fx);
        let d = l.drop_last().filter(p);
        assert(d.push(l.last()).drop_last() =~= d);
    }
}

/// The trades of the day are the orders that were filled on its date.
pub proof fn law_fylte(l: Seq<TxRow>, dato: Seq<char>)
    ensures
        fylte(l, dato) == l.filter(|t: TxRow| dato.is_prefix_of(t.ts@) && t.status@ == "FYLT"@).len(),
    decreases l.len(),
{
    let p = |t: TxRow| dato.is_prefix_of(t.ts@) && t.status@ == "FYLT"@;
    reveal(Seq::filter);
    if l.len() > 0 {
        law_fylte(l.drop_last(), dato);
        let t = l.last().ts@;
        if dato.len() <= t.len() {
            assert(t.take(dato.len() as int) =~= t.subrange(0, dato.len() as int));
        }
        assert(text::starts(t, dato) == dato.is_prefix_of(t));
    }
}

/// The largest moves of the day, up or down, stand first.
pub proof fn law_storste_bevegelser_forst(l: Seq<(Seq<char>, int)>, a: int, b: int)
    requires
        0 <= a < b < l.len(),
        forall|i: int| 0 <= i < l.len() ==> -0x7fff_ffff_ffff_ffff_ffff_ffff_ffff_ffff <= (#[trigger] l[i]).1
            <= 0x7fff_ffff_ffff_ffff_ffff_ffff_ffff_ffff,
    ensures
        ({
            let x = l[order::order_of(vekter(l))[a]].1;
            let y = l[order::order_of(vekter(l))[b]].1;
            (x >= y || -x >= y) && (x >= -y || -x >= -y)
        }),
{
    let v = vekter(l);
    let i = order::order_of(v)[a];
    let j = order::order_of(v)[b];
    order::law_order_is_stable(v);
    assert(v[i] <= v[j]);
}

/// The week begins anew exactly when what is stored is not of the week, and a week
/// without anything stored begins at the equity now.
pub proof fn law_ukestart(lagret: Option<Seq<char>>, nokkel: Seq<char>, equity: int)
    ensures
        ny_uke(lagret, nokkel) <==> !(lagret matches Some(v) && nokkel.is_prefix_of(v)),
        ny_uke(lagret, nokkel) ==> ukestart(lagret, nokkel, equity) == equity,
{
    if let Some(v) = lagret {
        if nokkel.len() <= v.len() {
            assert(v.take(nokkel.len() as int) =~= v.subrange(0, nokkel.len() as int));
        }
        assert(text::starts(v, nokkel) == nokkel.is_prefix_of(v));
    }
}

/// Whether the week is to be told of.
pub open spec fn ukeslutt(ukedag: int, time: int, sist: Option<Seq<char>>, uke: Seq<char>) -> bool {
    ukedag == 4 && time >= 16 && sist != Some(uke)
}

/// Whether the day is to be told of.
pub open spec fn dagslutt(ukedag: int, time: int, minutt: int, sist: Option<Seq<char>>, dag: Seq<char>) -> bool {
    ukedag < 5 && (time > 16 || (time == 16 && minutt >= 30)) && sist != Some(dag)
}

/// Whether the equity is to be stored.
pub open spec fn skrives(sist: Option<u64>, equity: int, naa: u64) -> bool {
    equity > 0 && (sist matches Some(t) ==> naa - t > SKRIVETID)
}

/// The week is told of on a Friday from four in the afternoon, and the day on a
/// weekday from half past four, both once.
pub proof fn law_rapportene_kommer_en_gang(
    ukedag: int,
    time: int,
    minutt: int,
    sist: Option<Seq<char>>,
    merke: Seq<char>,
)
    requires
        0 <= ukedag <= 6,
        0 <= time <= 23,
        0 <= minutt <= 59,
    ensures
        ukeslutt(ukedag, time, sist, merke) ==> ukedag == 4 && 60 * time + minutt >= 16 * 60,
        !ukeslutt(ukedag, time, Some(merke), merke),
        ukedag == 4 && time >= 16 && sist is None ==> ukeslutt(ukedag, time, sist, merke),
        dagslutt(ukedag, time, minutt, sist, merke) ==> ukedag != 5 && ukedag != 6 && 60 * time + minutt >= 16 * 60 + 30,
        !dagslutt(ukedag, time, minutt, Some(merke), merke),
        ukedag <= 4 && 60 * time + minutt >= 16 * 60 + 30 && sist is None ==> dagslutt(
            ukedag,
            time,
            minutt,
            sist,
            merke,
        ),
{
}

/// The equity is stored at once, and then no more often than every five
/// minutes.
pub proof fn law_egenkapitalen_lagres(sist: u64, equity: int, naa: u64)
    requires
        equity > 0,
    ensures
        skrives(None, equity, naa),
        skrives(Some(sist), equity, naa) <==> naa > sist + 5 * 60 * 1_000_000_000,
        !skrives(None, 0, naa),
{
}

/// Of moves that are equal the first is told of.
pub proof fn law_forste_av_like(l: Seq<(Seq<char>, int)>, k: int)
    requires
        0 <= k < l.len(),
    ensures
        (forall|i: int| 0 <= i < k ==> (#[trigger] l[i]).1 < l[k].1) && (forall|i: int|
            k <= i < l.len() ==> (#[trigger] l[i]).1 <= l[k].1) ==> beste(l) == Some(l[k]),
        (forall|i: int| 0 <= i < k ==> (#[trigger] l[i]).1 > l[k].1) && (forall|i: int|
            k <= i < l.len() ==> (#[trigger] l[i]).1 >= l[k].1) ==> svakeste(l) == Some(l[k]),
    decreases l.len(),
{
    let d = l.drop_last();
    law_beste_og_svakeste(d);
    assert forall|i: int| 0 <= i < d.len() implies #[trigger] d[i] == l[i] by {}
    if k < d.len() {
        law_forste_av_like(d, k);
        if forall|i: int| k <= i < l.len() ==> (#[trigger] l[i]).1 <= l[k].1 {
            assert(l[l.len() - 1].1 <= l[k].1);
        }
        if forall|i: int| k <= i < l.len() ==> (#[trigger] l[i]).1 >= l[k].1 {
            assert(l[l.len() - 1].1 >= l[k].1);
        }
    } else if d.len() > 0 {
        let b = beste(d)->0;
        let s = svakeste(d)->0;
        let i = choose|i: int| 0 <= i < d.len() && d[i] == b;
        let j = choose|j: int| 0 <= j < d.len() && d[j] == s;
        assert(l[i] == b && l[j] == s);
    }
}

/// The point of a new day goes behind the others; one of the same day takes the
/// place of the last.
pub proof fn law_dagens_punkt(l: Seq<(i64, i128)>, p: (i64, i128))
    ensures
        med_dagens_punkt(l, false, p) == l.push(p),
        l.len() > 0 ==> med_dagens_punkt(l, true, p).len() == l.len() && med_dagens_punkt(l, true, p).last() == p
            && med_dagens_punkt(l, true, p).drop_last() == l.drop_last(),
        med_dagens_punkt(Seq::empty(), true, p) == seq![p],
{
    assert(Seq::<(i64, i128)>::empty().push(p) =~= seq![p]);
    if l.len() > 0 {
        assert(med_dagens_punkt(l, true, p).drop_last() =~= l.drop_last());
    }
}

}
