//! Calendar dates, as day numbers of the Gregorian calendar.
use chrono::Datelike;
use vstd::prelude::*;

use crate::number_text;

verus! {

/// First and last day of the calendar: 1 January of the year -262143 and
/// 31 December of the year 262142.
pub const FORSTE_DAG: i32 = -95_746_129;

pub const SISTE_DAG: i32 = 95_745_399;

/// Day number of 1 January 1970.
pub const EPOKEDAG: i32 = 719_163;

/// A calendar date: the number of days since 31 December of the year 0.
#[derive(Debug, Clone, Copy, PartialEq, Eq, Structural, Hash)]
pub struct Dato {
    pub dag: i32,
}

impl Dato {
    /// Whether the date lies within the calendar.
    pub open spec fn gyldig(self) -> bool {
        FORSTE_DAG <= self.dag <= SISTE_DAG
    }
}

pub open spec fn skuddaar(aar: int) -> bool {
    aar % 4 == 0 && (aar % 100 != 0 || aar % 400 == 0)
}

/// The number of days before 1 January of the year, counted from the year 1.
pub open spec fn dager_for_aar(aar: int) -> int {
    let y = aar - 1;
    365 * y + y / 4 - y / 100 + y / 400
}

pub open spec fn dager_i_maaned(aar: int, maaned: int) -> int {
    if maaned == 2 {
        if skuddaar(aar) {
            29
        } else {
            28
        }
    } else if maaned == 4 || maaned == 6 || maaned == 9 || maaned == 11 {
        30
    } else {
        31
    }
}

/// The number of days of the year before the first of the month.
pub open spec fn dager_for_maaned(aar: int, maaned: int) -> int
    decreases maaned,
{
    if maaned <= 1 {
        0
    } else {
        dager_for_maaned(aar, maaned - 1) + dager_i_maaned(aar, maaned - 1)
    }
}

/// Whether the calendar has such a date.
pub open spec fn finnes(aar: int, maaned: int, dag: int) -> bool {
    -262143 <= aar <= 262142 && 1 <= maaned <= 12 && 1 <= dag <= dager_i_maaned(aar, maaned)
}

/// The day number of a date.
pub open spec fn dagnummer(aar: int, maaned: int, dag: int) -> int {
    dager_for_aar(aar) + dager_for_maaned(aar, maaned) + dag
}

/// The weekday of a day number: 0 for Monday to 6 for Sunday.
pub open spec fn ukedag(dag: int) -> int {
    (dag - 1) % 7
}

/// Whether the day lies in the given year.
pub open spec fn i_aar(dag: int, aar: int) -> bool {
    dager_for_aar(aar) < dag <= dager_for_aar(aar + 1)
}

/// The year that a day lies in.
pub open spec fn aar_av(dag: int) -> int {
    choose|aar: int| #[trigger] i_aar(dag, aar)
}

/// A day lies in one year only.
pub proof fn law_ett_aar(dag: int, a: int, b: int)
    requires
        i_aar(dag, a),
        i_aar(dag, b),
    ensures
        a == b,
        aar_av(dag) == a,
{
    lemma_aarene_stiger(a + 1, b);
    lemma_aarene_stiger(b + 1, a);
    let c = aar_av(dag);
    lemma_aarene_stiger(a + 1, c);
    lemma_aarene_stiger(c + 1, a);
}

proof fn lemma_aarene_stiger(a: int, b: int)
    ensures
        a <= b ==> dager_for_aar(a) <= dager_for_aar(b),
{
}

proof fn lemma_maanedene_stiger(aar: int, a: int, b: int)
    requires
        1 <= a <= b,
    ensures
        0 <= dager_for_maaned(aar, a) <= dager_for_maaned(aar, b),
        a < b ==> dager_for_maaned(aar, a) + dager_i_maaned(aar, a) <= dager_for_maaned(aar, b),
    decreases b,
{
    if a < b {
        lemma_maanedene_stiger(aar, a, b - 1);
    } else if a > 1 {
        lemma_maanedene_stiger(aar, a - 1, a - 1);
    }
}

proof fn lemma_dato_i_aar(y: int, m: int, d: int)
    requires
        finnes(y, m, d),
    ensures
        i_aar(dagnummer(y, m, d), y),
{
    reveal_with_fuel(dager_for_maaned, 13);
    lemma_maanedene_stiger(y, 1, m);
    lemma_maanedene_stiger(y, m, 13);
    assert(dager_for_maaned(y, 13) == if skuddaar(y) {
        366int
    } else {
        365
    });
}

/// Two dates of the calendar have different day numbers.
pub proof fn law_en_dato(y: int, m: int, d: int, y2: int, m2: int, d2: int)
    requires
        finnes(y, m, d),
        finnes(y2, m2, d2),
        dagnummer(y, m, d) == dagnummer(y2, m2, d2),
    ensures
        y == y2,
        m == m2,
        d == d2,
{
    lemma_dato_i_aar(y, m, d);
    lemma_dato_i_aar(y2, m2, d2);
    law_ett_aar(dagnummer(y, m, d), y, y2);
    if m < m2 {
        lemma_maanedene_stiger(y, m, m2);
    } else if m2 < m {
        lemma_maanedene_stiger(y, m2, m);
    }
}

/// The number of the day's week within the year of the week.
pub open spec fn ukenummer(dag: int) -> nat {
    ((torsdag(dag) - dager_for_aar(aar_av(torsdag(dag))) - 1) / 7 + 1) as nat
}

/// The Thursday of the day's week; a week belongs to the year of its Thursday.
pub open spec fn torsdag(dag: int) -> int {
    dag - ukedag(dag) + 3
}

/// A year with four digits, and with a sign before it where it has more or is
/// before the year 0.
pub open spec fn aarstekst(aar: int) -> Seq<char> {
    if aar < 0 {
        seq!['-'] + number_text::padded((-aar) as nat, 4)
    } else if aar > 9999 {
        seq!['+'] + number_text::padded(aar as nat, 4)
    } else {
        number_text::padded(aar as nat, 4)
    }
}

/// `aar-maaned-dag` with four, two and two digits.
pub open spec fn iso_tekst(aar: int, maaned: int, dag: int) -> Seq<char> {
    aarstekst(aar) + seq!['-'] + number_text::padded(maaned as nat, 2) + seq!['-']
        + number_text::padded(dag as nat, 2)
}

/// Whether `s` is the date of the day number as `aar-maaned-dag`.
pub open spec fn er_iso_tekst(s: Seq<char>, nummer: int) -> bool {
    exists|y: int, m: int, d: int|
        finnes(y, m, d) && dagnummer(y, m, d) == nummer && s == #[trigger] iso_tekst(y, m, d)
}

/// The day number that a text stands for under a date pattern.
pub uninterp spec fn dato_lest(tekst: Seq<char>, format: Seq<char>) -> Option<int>;

/// Year, month and day of a day number.
pub open spec fn ymd(nummer: int) -> (int, int, int) {
    choose|y: int, m: int, d: int| #[trigger] dagnummer(y, m, d) == nummer && finnes(y, m, d)
}

/// The date of a day number as `aar-maaned-dag`.
pub open spec fn dato_skrevet(nummer: int) -> Seq<char> {
    let (y, m, d) = ymd(nummer);
    iso_tekst(y, m, d)
}

/// Whether a text is a point in time under RFC 3339.
pub uninterp spec fn rfc3339(tekst: Seq<char>) -> bool;

/// Whether a text begins with a year of four digits, a month and a day of two
/// digits each, with hyphens between, and behind one more character an hour and
/// a minute of two digits each, with a colon between.
pub open spec fn begynner_med_tid(s: Seq<char>) -> bool {
    &&& s.len() >= 19
    &&& number_text::all_digits(s.subrange(0, 4))
    &&& s[4] == '-'
    &&& number_text::all_digits(s.subrange(5, 7))
    &&& s[7] == '-'
    &&& number_text::all_digits(s.subrange(8, 10))
    &&& number_text::all_digits(s.subrange(11, 13))
    &&& s[13] == ':'
    &&& number_text::all_digits(s.subrange(14, 16))
}

/// `chrono::DateTime::parse_from_rfc3339`: whether the text is a point in
/// time. One that is begins with its date and time of day; what else it takes is
/// left unsaid.
#[verifier::external_body]
pub(crate) fn er_rfc3339(tekst: &str) -> (r: bool)
    ensures
        r == rfc3339(tekst@),
        r ==> begynner_med_tid(tekst@),
{
    chrono::DateTime::parse_from_rfc3339(tekst).is_ok()
}

/// `chrono::NaiveDate::from_ymd_opt`: the date where the calendar has it.
#[verifier::external_body]
pub(crate) fn fra_kalender(aar: i32, maaned: u32, dag: u32) -> (r: Option<Dato>)
    ensures
        r is Some == finnes(aar as int, maaned as int, dag as int),
        r is Some ==> r->0.dag == dagnummer(aar as int, maaned as int, dag as int) && r->0.gyldig(),
{
    match chrono::NaiveDate::from_ymd_opt(aar, maaned, dag) {
        Some(d) => Some(Dato { dag: d.num_days_from_ce() }),
        None => None,
    }
}

/// `chrono::NaiveDate::parse_from_str`: what a text stands for under a
/// pattern is a function of the two texts; a date that comes out is one of the
/// calendar.
#[verifier::external_body]
pub(crate) fn les_dato(tekst: &str, format: &str) -> (r: Option<Dato>)
    ensures
        (match r {
            Some(d) => dato_lest(tekst@, format@) == Some(d.dag as int),
            None => dato_lest(tekst@, format@) is None,
        }),
        r is Some ==> r->0.gyldig(),
{
    match chrono::NaiveDate::parse_from_str(tekst, format) {
        Ok(d) => Some(Dato { dag: d.num_days_from_ce() }),
        Err(_) => None,
    }
}

/// `chrono::NaiveDate::format` with `%Y-%m-%d`: year, month and day with
/// hyphens between them, in four, two and two digits, the year with a sign where
/// it does not lie from 0 to 9999. Reading the text under the same pattern gives
/// the date back.
#[verifier::external_body]
pub(crate) fn skriv_dato(dato: Dato) -> (r: String)
    requires
        dato.gyldig(),
    ensures
        dato_lest(r@, "%Y-%m-%d"@) == Some(dato.dag as int),
        er_iso_tekst(r@, dato.dag as int),
{
    let d = chrono::NaiveDate::from_num_days_from_ce_opt(dato.dag).unwrap();
    d.format("%Y-%m-%d").to_string()
}

/// `chrono::DateTime::from_timestamp`: the day of a count of seconds since
/// 1 January 1970, where the calendar has that day.
#[verifier::external_body]
pub(crate) fn fra_epoke(sekunder: i64) -> (r: Option<Dato>)
    ensures
        r is Some == (FORSTE_DAG <= EPOKEDAG + sekunder as int / 86400 <= SISTE_DAG),
        r is Some ==> r->0.dag == EPOKEDAG + sekunder as int / 86400,
{
    match chrono::DateTime::from_timestamp(sekunder, 0) {
        Some(t) => Some(Dato { dag: t.date_naive().num_days_from_ce() }),
        None => None,
    }
}

/// `chrono::NaiveDate::iso_week`: the year of the week's Thursday, and the
/// number of that Thursday among the Thursdays of the year.
#[verifier::external_body]
pub(crate) fn iso_uke(dato: Dato) -> (r: (i32, u32))
    requires
        dato.gyldig(),
    ensures
        i_aar(torsdag(dato.dag as int), r.0 as int),
        r.1 == (torsdag(dato.dag as int) - dager_for_aar(r.0 as int) - 1) / 7 + 1,
        1 <= r.1 <= 53,
        -262144 <= r.0 <= 262143,
{
    let uke = chrono::NaiveDate::from_num_days_from_ce_opt(dato.dag).unwrap().iso_week();
    (uke.year(), uke.week())
}

impl Dato {
    /// The date, where the calendar has it.
    pub fn fra_ymd(aar: i32, maaned: u32, dag: u32) -> (r: Option<Dato>)
        ensures
            r is Some == finnes(aar as int, maaned as int, dag as int),
            r is Some ==> r->0.dag == dagnummer(aar as int, maaned as int, dag as int)
                && r->0.gyldig(),
    {
        fra_kalender(aar, maaned, dag)
    }

    /// The date `dager` days later, where the calendar has it.
    pub fn pluss_dager(self, dager: i32) -> (r: Option<Dato>)
        ensures
            r is Some == (FORSTE_DAG <= self.dag + dager <= SISTE_DAG),
            r is Some ==> r->0.dag == self.dag + dager && r->0.gyldig(),
    {
        let n: i64 = self.dag as i64 + dager as i64;
        if FORSTE_DAG as i64 <= n && n <= SISTE_DAG as i64 {
            Some(Dato { dag: n as i32 })
        } else {
            None
        }
    }

    /// The date as `yyyy-mm-dd`.
    pub fn som_tekst(self) -> (r: String)
        requires
            self.gyldig(),
        ensures
            r@ == dato_skrevet(self.dag as int),
            dato_lest(r@, "%Y-%m-%d"@) == Some(self.dag as int),
            er_iso_tekst(r@, self.dag as int),
    {
        let r: String = skriv_dato(self);
        proof {
            let nummer = self.dag as int;
            let (y, m, d) = choose|y: int, m: int, d: int|
                finnes(y, m, d) && dagnummer(y, m, d) == nummer && r@ == #[trigger] iso_tekst(y, m, d);
            assert(dagnummer(y, m, d) == nummer && finnes(y, m, d));
            let (y2, m2, d2) = ymd(nummer);
            law_en_dato(y, m, d, y2, m2, d2);
        }
        r
    }
}

/// One day follows another: within a month, from the end of one month to the
/// next, and from the end of a year to the next.
pub proof fn law_neste_dag(aar: int, maaned: int, dag: int)
    requires
        1 <= maaned <= 12,
        1 <= dag <= dager_i_maaned(aar, maaned),
    ensures
        dagnummer(aar, maaned, dag + 1) == dagnummer(aar, maaned, dag) + 1,
        maaned < 12 ==> dagnummer(aar, maaned + 1, 1) == dagnummer(aar, maaned, dager_i_maaned(aar, maaned)) + 1,
        dagnummer(aar + 1, 1, 1) == dagnummer(aar, 12, 31) + 1,
{
    reveal_with_fuel(dager_for_maaned, 13);
    let y = aar - 1;
    assert(aar % 4 == 0 <==> aar / 4 == y / 4 + 1);
    assert(aar % 4 != 0 <==> aar / 4 == y / 4);
    assert(aar % 100 == 0 <==> aar / 100 == y / 100 + 1);
    assert(aar % 100 != 0 <==> aar / 100 == y / 100);
    assert(aar % 400 == 0 <==> aar / 400 == y / 400 + 1);
    assert(aar % 400 != 0 <==> aar / 400 == y / 400);
    assert(aar % 100 == 0 ==> aar % 4 == 0);
    assert(aar % 400 == 0 ==> aar % 100 == 0);
}

/// Every fourth year has a day more, but of the years that end a century only
/// every fourth.
pub proof fn law_skuddaar(aar: int)
    ensures
        dager_for_aar(aar + 1) - dager_for_aar(aar) == 366 <==> (aar % 4 == 0 && aar % 100 != 0) || aar % 400 == 0,
        dager_for_aar(aar + 1) - dager_for_aar(aar) == 365 || dager_for_aar(aar + 1) - dager_for_aar(aar) == 366,
        dager_for_aar(aar + 400) - dager_for_aar(aar) == 146_097,
        dager_i_maaned(aar, 2) == 28 + (dager_for_aar(aar + 1) - dager_for_aar(aar) - 365),
{
    let y = aar - 1;
    assert(aar % 4 == 0 <==> aar / 4 == y / 4 + 1);
    assert(aar % 4 != 0 <==> aar / 4 == y / 4);
    assert(aar % 100 == 0 <==> aar / 100 == y / 100 + 1);
    assert(aar % 100 != 0 <==> aar / 100 == y / 100);
    assert(aar % 400 == 0 <==> aar / 400 == y / 400 + 1);
    assert(aar % 400 != 0 <==> aar / 400 == y / 400);
    assert(aar % 100 == 0 ==> aar % 4 == 0);
    assert(aar % 400 == 0 ==> aar % 100 == 0);
}

/// A week goes from Monday to Sunday and has one number throughout, the first
/// of January 1970 was a Thursday, and the week of the fourth of January is the
/// first.
pub proof fn law_ukene(dag: int, aar: int)
    ensures
        0 <= ukedag(dag) <= 6,
        ukedag(dag) < 6 ==> ukedag(dag + 1) == ukedag(dag) + 1,
        ukedag(dag) == 6 ==> ukedag(dag + 1) == 0,
        ukedag(dagnummer(1970, 1, 1)) == 3,
        ukedag(dag) < 6 ==> ukenummer(dag + 1) == ukenummer(dag),
        ukenummer(dagnummer(aar, 1, 4)) == 1,
{
    assert(ukedag(dag) < 6 ==> torsdag(dag + 1) == torsdag(dag));
    let d = dagnummer(aar, 1, 4);
    assert(d == dager_for_aar(aar) + 4);
    let t = torsdag(d);
    assert(dager_for_aar(aar) + 1 <= t <= dager_for_aar(aar) + 7);
    law_skuddaar(aar);
    assert(i_aar(t, aar));
    law_ett_aar(t, aar, aar);
}

}
