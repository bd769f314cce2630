//! Coming events of companies: reports and dividends.
use vstd::prelude::*;

use crate::dato;
use crate::json;
use crate::json::{Json, JsonView};
use crate::number_text;
use crate::order;
use crate::text;
use crate::text::{copy_text, push_all, push_text, string_of};

verus! {

#[derive(Debug)]
pub struct CalendarEvent {
    /// In seconds since 1970.
    pub date: i64,
    pub symbol: String,
    pub name: String,
    /// "Kvartalsrapport", "Eks-utbytte" or "Utbytte utbetales".
    pub kind: &'static str,
}

#[verifier::ext_equal]
pub struct HendelseSyn {
    pub date: i64,
    pub symbol: Seq<char>,
    pub name: Seq<char>,
    pub kind: Seq<char>,
}

impl View for CalendarEvent {
    type V = HendelseSyn;

    open spec fn view(&self) -> HendelseSyn {
        HendelseSyn { date: self.date, symbol: self.symbol@, name: self.name@, kind: self.kind@ }
    }
}

pub open spec fn hendelser(l: Seq<CalendarEvent>) -> Seq<HendelseSyn> {
    Seq::new(l.len(), |i: int| l[i]@)
}

/// Whether the calendar has a day for a number of seconds since 1970.
pub open spec fn har_dag(ts: int) -> bool {
    dato::FORSTE_DAG <= dato::EPOKEDAG + ts / 86400 <= dato::SISTE_DAG
}

/// The number in the field `raw`.
pub open spec fn raa(v: Option<JsonView>) -> Option<int> {
    match v {
        Some(x) => match x.felt("raw"@) {
            Some(r) => r.som_i64(),
            None => None,
        },
        None => None,
    }
}

/// The list with an event behind it, where there is a time for it.
pub open spec fn lagt_til(
    l: Seq<HendelseSyn>,
    ts: Option<int>,
    symbol: Seq<char>,
    name: Seq<char>,
    kind: Seq<char>,
) -> Seq<HendelseSyn> {
    match ts {
        Some(t) => if har_dag(t) {
            l.push(HendelseSyn { date: t as i64, symbol, name, kind })
        } else {
            l
        },
        None => l,
    }
}

/// The calendar in an answer.
pub open spec fn kalender_i(v: JsonView) -> Option<JsonView> {
    match v.felt("quoteSummary"@) {
        Some(q) => match q.felt("result"@) {
            Some(r) => match r.ledd_null() {
                Some(x) => x.felt("calendarEvents"@),
                None => None,
            },
            None => None,
        },
        None => None,
    }
}

pub open spec fn rapportdato(cal: JsonView) -> Option<JsonView> {
    match cal.felt("earnings"@) {
        Some(e) => match e.felt("earningsDate"@) {
            Some(d) => d.ledd_null(),
            None => None,
        },
        None => None,
    }
}

pub open spec fn hendelser_i(symbol: Seq<char>, name: Seq<char>, v: JsonView) -> Seq<HendelseSyn> {
    match kalender_i(v) {
        None => Seq::empty(),
        Some(cal) => {
            let a = lagt_til(Seq::empty(), raa(rapportdato(cal)), symbol, name, "Kvartalsrapport"@);
            let b = lagt_til(a, raa(cal.felt("exDividendDate"@)), symbol, name, "Eks-utbytte"@);
            lagt_til(b, raa(cal.felt("dividendDate"@)), symbol, name, "Utbytte utbetales"@)
        },
    }
}

fn legg_til(l: &mut Vec<CalendarEvent>, felt: Option<&Json>, symbol: &str, name: &str, kind: &'static str)
    ensures
        hendelser(final(l)@) == lagt_til(hendelser(old(l)@), raa(json::syn(felt)), symbol@, name@, kind@),
{
    let ghost for_ = hendelser(l@);
    let ts: Option<i64> = match felt {
        Some(x) => match x.felt("raw") {
            Some(r) => r.som_i64(),
            None => None,
        },
        None => None,
    };
    if let Some(t) = ts {
        if dato::fra_epoke(t).is_some() {
            l.push(CalendarEvent { date: t, symbol: symbol.to_owned(), name: name.to_owned(), kind });
            assert(hendelser(l@) =~= lagt_til(for_, Some(t as int), symbol@, name@, kind@));
        }
    }
}

/// The events that an answer tells of.
pub fn parse_events(symbol: &str, name: &str, v: &Json) -> (r: Vec<CalendarEvent>)
    ensures
        hendelser(r@) == hendelser_i(symbol@, name@, v@),
{
    let mut ut: Vec<CalendarEvent> = Vec::new();
    assert(hendelser(ut@) =~= Seq::empty());
    let kalender: Option<&Json> = match v.felt("quoteSummary") {
        Some(q) => match q.felt("result") {
            Some(r) => match r.ledd_null() {
                Some(x) => x.felt("calendarEvents"),
                None => None,
            },
            None => None,
        },
        None => None,
    };
    if let Some(cal) = kalender {
        let rapport: Option<&Json> = match cal.felt("earnings") {
            Some(e) => match e.felt("earningsDate") {
                Some(d) => d.ledd_null(),
                None => None,
            },
            None => None,
        };
        legg_til(&mut ut, rapport, symbol, name, "Kvartalsrapport");
        legg_til(&mut ut, cal.felt("exDividendDate"), symbol, name, "Eks-utbytte");
        legg_til(&mut ut, cal.felt("dividendDate"), symbol, name, "Utbytte utbetales");
    }
    ut
}

/// A day in seconds.
pub const DOGN: i64 = 86_400;

/// Whether an event is near: from a day ago to 120 days from now.
pub open spec fn naer(date: int, naa: int) -> bool {
    naa - DOGN <= date <= naa + 120 * DOGN
}

pub open spec fn naere(l: Seq<HendelseSyn>, naa: int) -> Seq<HendelseSyn>
    decreases l.len(),
{
    if l.len() == 0 {
        l
    } else if naer(l.last().date as int, naa) {
        naere(l.drop_last(), naa).push(l.last())
    } else {
        naere(l.drop_last(), naa)
    }
}

/// In the order of their dates, those of one date in their old order.
pub open spec fn etter_dato(l: Seq<HendelseSyn>) -> Seq<HendelseSyn> {
    order::order_of(l.map_values(|h: HendelseSyn| h.date as i128)).map_values(|i: int| l[i])
}

fn kopi(e: &CalendarEvent) -> (r: CalendarEvent)
    ensures
        r@ == e@,
{
    CalendarEvent { date: e.date, symbol: copy_text(&e.symbol), name: copy_text(&e.name), kind: e.kind }
}

fn velg_naere(l: &Vec<CalendarEvent>, naa: i64) -> (r: Vec<CalendarEvent>)
    ensures
        hendelser(r@) == naere(hendelser(l@), naa as int),
{
    let ghost alle = hendelser(l@);
    let mut ut: Vec<CalendarEvent> = Vec::new();
    let mut i: usize = 0;
    assert(alle.take(0) =~= Seq::empty());
    assert(hendelser(ut@) =~= Seq::empty());
    while i < l.len()
        invariant
            i <= l@.len(),
            alle == hendelser(l@),
            hendelser(ut@) == naere(alle.take(i as int), naa as int),
        decreases l.len() - i,
    {
        proof {
            assert(alle.take(i + 1).drop_last() =~= alle.take(i as int));
            assert(alle.take(i + 1).last() == l@[i as int]@);
        }
        let ghost for_ = hendelser(ut@);
        let d: i128 = l[i].date as i128;
        if naa as i128 - DOGN as i128 <= d && d <= naa as i128 + 120 * DOGN as i128 {
            ut.push(kopi(&l[i]));
            assert(hendelser(ut@) =~= for_.push(l@[i as int]@));
        }
        i += 1;
    }
    assert(alle.take(i as int) =~= alle);
    ut
}

/// The events that are near, in the order of their dates.
pub fn kommende(l: &Vec<CalendarEvent>, naa: i64) -> (r: Vec<CalendarEvent>)
    ensures
        hendelser(r@) == etter_dato(naere(hendelser(l@), naa as int)),
{
    let n: Vec<CalendarEvent> = velg_naere(l, naa);
    let ghost s = hendelser(n@);
    let mut keys: Vec<i128> = Vec::new();
    let mut i: usize = 0;
    while i < n.len()
        invariant
            i <= n@.len(),
            keys@.len() == i,
            forall|k: int| 0 <= k < i ==> #[trigger] keys@[k] == n@[k].date,
        decreases n.len() - i,
    {
        keys.push(n[i].date as i128);
        i += 1;
    }
    assert(keys@ =~= s.map_values(|h: HendelseSyn| h.date as i128));
    let o: Vec<usize> = order::stable_order(&keys);
    let ghost p = order::positions(o@);
    assert(p.len() == o@.len());
    let mut ut: Vec<CalendarEvent> = Vec::new();
    let mut j: usize = 0;
    while j < o.len()
        invariant
            j <= o@.len(),
            ut@.len() == j,
            o@.len() == n@.len(),
            p == order::positions(o@),
            s == hendelser(n@),
            forall|i: int| 0 <= i < o@.len() ==> (#[trigger] o@[i]) < n@.len(),
            forall|i: int| 0 <= i < j ==> (#[trigger] ut@[i])@ == s[p[i]],
        decreases o.len() - j,
    {
        assert(p[j as int] == o@[j as int]);
        ut.push(kopi(&n[o[j]]));
        j += 1;
    }
    assert(hendelser(ut@) =~= etter_dato(s));
    ut
}

/// What is said where no event was found.
pub fn merknad(antall: usize) -> (r: Option<&'static str>)
    ensures
        r is Some == (antall == 0),
        r matches Some(t) ==> t@
            == "Ingen kommende hendelser funnet — Yahoo kan mangle datoer for norske selskaper."@,
{
    if antall == 0 {
        Some("Ingen kommende hendelser funnet — Yahoo kan mangle datoer for norske selskaper.")
    } else {
        None
    }
}

/// Whether the answer is a token of the service, and no page.
pub fn gyldig_crumb(s: &str) -> (r: bool)
    ensures
        r == (s@.len() > 0 && !s@.contains('<')),
{
    let cs: Vec<char> = text::chars_of(s);
    proof {
        text::lemma_first_char(cs@, '<', 0);
    }
    cs.len() > 0 && text::find_char(cs.as_slice(), '<', 0).is_none()
}

/// How far away an event is, for the screen.
pub open spec fn naar_tekst(dager: int) -> Seq<char> {
    if dager <= 0 {
        "i dag"@
    } else if dager == 1 {
        "i morgen"@
    } else {
        "om "@ + number_text::decimal(dager as nat) + " dager"@
    }
}

/// How far away an event is, for the screen.
pub fn naar(dager: i64) -> (r: String)
    ensures
        r@ == naar_tekst(dager as int),
{
    if dager <= 0 {
        "i dag".to_owned()
    } else if dager == 1 {
        "i morgen".to_owned()
    } else {
        let mut ut: Vec<char> = Vec::new();
        push_text(&mut ut, "om ");
        let n: Vec<char> = number_text::write_decimal(dager as u128);
        push_all(&mut ut, n.as_slice());
        push_text(&mut ut, " dager");
        assert(ut@ =~= naar_tekst(dager as int));
        string_of(ut.as_slice())
    }
}

/// Nothing that is shown lies more than a day back or more than 120 days ahead.
pub proof fn law_bare_naere(l: Seq<HendelseSyn>, naa: int)
    ensures
        forall|i: int| 0 <= i < naere(l, naa).len() ==> naer((#[trigger] naere(l, naa)[i]).date as int, naa),
    decreases l.len(),
{
    if l.len() > 0 {
        law_bare_naere(l.drop_last(), naa);
        let n = naere(l, naa);
        let d = naere(l.drop_last(), naa);
        assert forall|i: int| 0 <= i < n.len() implies naer((#[trigger] n[i]).date as int, naa) by {
            if i < d.len() {
                assert(n[i] == d[i]);
            }
        }
    }
}

/// The events shown are those from a day ago to a hundred and twenty days
/// ahead, in their old order.
pub proof fn law_naere_er_de_i_vinduet(l: Seq<HendelseSyn>, naa: int)
    ensures
        naere(l, naa) == l.filter(
            |h: HendelseSyn| naa - 24 * 3600 <= h.date && h.date <= naa + 120 * 24 * 3600,
        ),
    decreases l.len(),
{
    reveal(Seq::filter);
    if l.len() > 0 {
        law_naere_er_de_i_vinduet(l.drop_last(), naa);
    }
}

/// The events stand by their date, the first to come first, and none is lost.
pub proof fn law_forste_hendelse_forst(l: Seq<HendelseSyn>)
    ensures
        etter_dato(l).len() == l.len(),
        forall|a: int, b: int|
            0 <= a < b < l.len() ==> (#[trigger] etter_dato(l)[a]).date <= (#[trigger] etter_dato(l)[b]).date,
        forall|i: int| 0 <= i < l.len() ==> etter_dato(l).contains(#[trigger] l[i]),
{
    let v = l.map_values(|h: HendelseSyn| h.date as i128);
    let r = order::order_of(v);
    order::law_order_is_stable(v);
    assert forall|a: int, b: int| 0 <= a < b < l.len() implies (#[trigger] etter_dato(l)[a]).date <= (
    #[trigger] etter_dato(l)[b]).date by {
        assert(v[r[a]] <= v[r[b]]);
    }
    assert forall|i: int| 0 <= i < l.len() implies etter_dato(l).contains(#[trigger] l[i]) by {
        assert(r.contains(i));
        let k = choose|k: int| 0 <= k < r.len() && r[k] == i;
        assert(etter_dato(l)[k] == l[i]);
    }
}

/// A calendar tells of at most one report and two dates of a dividend; each
/// that has a time is told of under its own name.
pub proof fn law_hendelsene_i_kalenderen(
    symbol: Seq<char>,
    name: Seq<char>,
    v: JsonView,
    cal: JsonView,
    rapport: int,
    eks: int,
    utbetalt: int,
)
    requires
        kalender_i(v) == Some(cal),
        raa(rapportdato(cal)) == Some(rapport),
        raa(cal.felt("exDividendDate"@)) == Some(eks),
        raa(cal.felt("dividendDate"@)) == Some(utbetalt),
        har_dag(rapport) && har_dag(eks) && har_dag(utbetalt),
    ensures
        hendelser_i(symbol, name, v) == seq![
            HendelseSyn { date: rapport as i64, symbol, name, kind: "Kvartalsrapport"@ },
            HendelseSyn { date: eks as i64, symbol, name, kind: "Eks-utbytte"@ },
            HendelseSyn { date: utbetalt as i64, symbol, name, kind: "Utbytte utbetales"@ },
        ],
{
}

}
