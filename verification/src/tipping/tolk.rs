//! Reading draws out of JSON replies, whatever their fields are called.
use vstd::prelude::*;

use crate::dato;
use crate::dato::{fra_epoke, les_dato, Dato};
use crate::json;
use crate::json::{Json, JsonView};
use crate::number_text;
use crate::text;
use crate::text::{chars_of, string_of};
use crate::tipping::historikk;
use crate::tipping::historikk::{tall_liste, Trekning, TrekningInnhold};
use crate::tipping::rekker;
use crate::tipping::rekker::sorter_tall;
use crate::tipping::spill::Spill;

verus! {

// ---------------------------------------------------------------------------
// Fields by name
// ---------------------------------------------------------------------------

pub open spec fn navn_av(l: Seq<&'static str>) -> Seq<Seq<char>> {
    l.map_values(|s: &'static str| s@)
}

/// Whether a name is among those looked for, whatever the case of its letters.
pub open spec fn treffer(navn: Seq<char>, nokler: Seq<Seq<char>>) -> bool {
    exists|i: int| 0 <= i < nokler.len() && text::ascii_lower(#[trigger] nokler[i]) == text::ascii_lower(navn)
}

pub open spec fn antall_barn(v: JsonView) -> int {
    match v {
        JsonView::Obj(k) => k.len() as int,
        JsonView::Arr(l) => l.len() as int,
        _ => 0,
    }
}

/// From position `i` on: the value of the first field with one of the names.
pub open spec fn direkte(kart: Seq<(Seq<char>, JsonView)>, nokler: Seq<Seq<char>>, i: int) -> Option<JsonView>
    decreases kart.len() - i,
{
    if i < 0 || i >= kart.len() {
        None
    } else if treffer(kart[i].0, nokler) {
        Some(kart[i].1)
    } else {
        direkte(kart, nokler, i + 1)
    }
}

/// The first field with one of the names: an object's own fields before those
/// of its children, and the children in their order.
pub open spec fn felt(v: JsonView, nokler: Seq<Seq<char>>) -> Option<JsonView>
    decreases v, antall_barn(v) + 1,
{
    match v {
        JsonView::Obj(kart) => match direkte(kart, nokler, 0) {
            Some(x) => Some(x),
            None => felt_i_barn(v, nokler, 0),
        },
        JsonView::Arr(_) => felt_i_barn(v, nokler, 0),
        _ => None,
    }
}

/// The first such field in the children from position `i` on.
pub open spec fn felt_i_barn(v: JsonView, nokler: Seq<Seq<char>>, i: int) -> Option<JsonView>
    decreases v, antall_barn(v) - i,
{
    if i < 0 || i >= antall_barn(v) {
        None
    } else {
        match v {
            JsonView::Obj(k) => match felt(k[i].1, nokler) {
                Some(x) => Some(x),
                None => felt_i_barn(v, nokler, i + 1),
            },
            JsonView::Arr(l) => match felt(l[i], nokler) {
                Some(x) => Some(x),
                None => felt_i_barn(v, nokler, i + 1),
            },
            _ => None,
        }
    }
}

fn treffer_navn(navn: &str, nokler: &Vec<&'static str>) -> (r: bool)
    ensures
        r == treffer(navn@, navn_av(nokler@)),
{
    let ghost n = navn_av(nokler@);
    let mut i: usize = 0;
    while i < nokler.len()
        invariant
            i <= nokler@.len(),
            n == navn_av(nokler@),
            forall|j: int| 0 <= j < i ==> text::ascii_lower(#[trigger] n[j]) != text::ascii_lower(navn@),
        decreases nokler.len() - i,
    {
        assert(n[i as int] == nokler@[i as int]@);
        if text::same_ignoring_case(nokler[i], navn) {
            return true;
        }
        i += 1;
    }
    false
}

/// The first field with one of the names, at any depth.
pub fn finn_felt<'a>(v: &'a Json, nokler: &Vec<&'static str>) -> (r: Option<&'a Json>)
    ensures
        json::syn(r) == felt(v@, navn_av(nokler@)),
    decreases v@, 1int,
{
    match v {
        Json::Obj(kart) => {
            let ghost k = v@->Obj_0;
            let ghost n = navn_av(nokler@);
            let mut i: usize = 0;
            while i < kart.len()
                invariant
                    i <= kart@.len(),
                    v@ == JsonView::Obj(k),
                    n == navn_av(nokler@),
                    k.len() == kart@.len(),
                    forall|j: int|
                        0 <= j < kart@.len() ==> #[trigger] k[j] == (kart@[j].0@, kart@[j].1@),
                    direkte(k, n, 0) == direkte(k, n, i as int),
                decreases kart.len() - i,
            {
                assert(k[i as int] == (kart@[i as int].0@, kart@[i as int].1@));
                if treffer_navn(kart[i].0.as_str(), nokler) {
                    return Some(&kart[i].1);
                }
                i += 1;
            }
            let mut j: usize = 0;
            while j < kart.len()
                invariant
                    j <= kart@.len(),
                    v@ == JsonView::Obj(k),
                    n == navn_av(nokler@),
                    k.len() == kart@.len(),
                    forall|q: int|
                        0 <= q < kart@.len() ==> #[trigger] k[q] == (kart@[q].0@, kart@[q].1@),
                    direkte(k, n, 0) is None,
                    felt_i_barn(v@, n, 0) == felt_i_barn(v@, n, j as int),
                decreases kart.len() - j,
            {
                assert(k[j as int] == (kart@[j as int].0@, kart@[j as int].1@));
                assert(decreases_to!(v@ => v@->Obj_0[j as int].1));
                match finn_felt(&kart[j].1, nokler) {
                    Some(x) => {
                        return Some(x);
                    },
                    None => {},
                }
                j += 1;
            }
            None
        },
        Json::Arr(liste) => {
            let ghost l = v@->Arr_0;
            let ghost n = navn_av(nokler@);
            let mut j: usize = 0;
            while j < liste.len()
                invariant
                    j <= liste@.len(),
                    v@ == JsonView::Arr(l),
                    n == navn_av(nokler@),
                    l.len() == liste@.len(),
                    forall|q: int| 0 <= q < liste@.len() ==> #[trigger] l[q] == liste@[q]@,
                    felt_i_barn(v@, n, 0) == felt_i_barn(v@, n, j as int),
                decreases liste.len() - j,
            {
                assert(l[j as int] == liste@[j as int]@);
                assert(decreases_to!(v@ => v@->Arr_0[j as int]));
                match finn_felt(&liste[j], nokler) {
                    Some(x) => {
                        return Some(x);
                    },
                    None => {},
                }
                j += 1;
            }
            None
        },
        _ => None,
    }
}

// ---------------------------------------------------------------------------
// Numbers
// ---------------------------------------------------------------------------

/// The whole number that a value stands for, as a number or as text.
pub open spec fn heltall(v: JsonView) -> Option<int> {
    match v {
        JsonView::Hel(_) => v.som_i64(),
        JsonView::Str(s) => number_text::within(
            number_text::int_of(text::trimmed(s)),
            i64::MIN as int,
            i64::MAX as int,
        ),
        _ => None,
    }
}

pub open spec fn tall_felt(v: JsonView, nokler: Seq<Seq<char>>) -> Option<int> {
    match felt(v, nokler) {
        Some(x) => heltall(x),
        None => None,
    }
}

/// The low eight bits of a whole number.
pub open spec fn lave_bits(n: int) -> u8 {
    (n % 256) as u8
}

fn lav_byte(n: i64) -> (r: u8)
    ensures
        r == lave_bits(n as int),
{
    if n >= 0 {
        (n % 256) as u8
    } else {
        let m: i64 = -(n + 1);
        assert(n as int % 256 == 255 - m as int % 256) by {
            let q = m as int / 256;
            assert(m == 256 * q + m as int % 256);
            assert(n == 256 * (-q - 1) + (255 - m as int % 256));
        }
        (255 - m % 256) as u8
    }
}

/// The whole number of the first field with one of the names.
pub fn finn_tall_felt(v: &Json, nokler: &Vec<&'static str>) -> (r: Option<i64>)
    ensures
        r is Some == tall_felt(v@, navn_av(nokler@)) is Some,
        r is Some ==> tall_felt(v@, navn_av(nokler@)) == Some(r->0 as int),
{
    match finn_felt(v, nokler) {
        Some(x) => match x {
            Json::Hel(_) => x.som_i64(),
            Json::Str(s) => {
                let cs: Vec<char> = chars_of(s.as_str());
                let t: Vec<char> = text::trim(cs.as_slice());
                number_text::read_i64(t.as_slice())
            },
            _ => None,
        },
        None => None,
    }
}

pub open spec fn nummernokler() -> Seq<Seq<char>> {
    seq!["number"@, "value"@, "tall"@]
}

fn nummernokler_liste() -> (r: Vec<&'static str>)
    ensures
        navn_av(r@) == nummernokler(),
{
    let r: Vec<&'static str> = vec!["number", "value", "tall"];
    assert(navn_av(r@) =~= nummernokler());
    r
}

/// The number that an element of a list stands for.
pub open spec fn element_tall(e: JsonView) -> Option<u8> {
    match e {
        JsonView::Hel(_) => match e.som_u64() {
            Some(n) => Some(lave_bits(n)),
            None => None,
        },
        JsonView::Str(s) => match number_text::at_most(number_text::nat_of(text::trimmed(s)), 255) {
            Some(n) => Some(n as u8),
            None => None,
        },
        JsonView::Obj(_) => match tall_felt(e, nummernokler()) {
            Some(n) => Some(lave_bits(n)),
            None => None,
        },
        _ => None,
    }
}

pub open spec fn liste_tall(l: Seq<JsonView>) -> Seq<u8>
    decreases l.len(),
{
    if l.len() == 0 {
        Seq::empty()
    } else {
        match element_tall(l.last()) {
            Some(n) => liste_tall(l.drop_last()).push(n),
            None => liste_tall(l.drop_last()),
        }
    }
}

/// The numbers of a value: a list, a text with commas, or one number.
pub open spec fn serie(v: JsonView) -> Seq<u8> {
    match v {
        JsonView::Arr(l) => liste_tall(l),
        JsonView::Str(s) => historikk::tall_i(s),
        JsonView::Hel(_) => match v.som_u64() {
            Some(n) => seq![lave_bits(n)],
            None => Seq::empty(),
        },
        _ => Seq::empty(),
    }
}

pub open spec fn tall_serie(v: JsonView, nokler: Seq<Seq<char>>) -> Option<Seq<u8>> {
    match felt(v, nokler) {
        Some(x) => if serie(x).len() == 0 {
            None
        } else {
            Some(serie(x))
        },
        None => None,
    }
}

fn les_element(e: &Json) -> (r: Option<u8>)
    ensures
        r == element_tall(e@),
{
    match e {
        Json::Hel(_) => match e.som_u64() {
            Some(n) => Some((n % 256) as u8),
            None => None,
        },
        Json::Str(s) => {
            let cs: Vec<char> = chars_of(s.as_str());
            let t: Vec<char> = text::trim(cs.as_slice());
            number_text::read_u8(t.as_slice())
        },
        Json::Obj(_) => match finn_tall_felt(e, &nummernokler_liste()) {
            Some(n) => Some(lav_byte(n)),
            None => None,
        },
        _ => None,
    }
}

fn les_serie(v: &Json) -> (r: Vec<u8>)
    ensures
        r@ == serie(v@),
{
    match v {
        Json::Arr(liste) => {
            let ghost l = v@->Arr_0;
            let mut ut: Vec<u8> = Vec::new();
            let mut i: usize = 0;
            assert(l.take(0) =~= Seq::empty());
            while i < liste.len()
                invariant
                    i <= liste@.len(),
                    l.len() == liste@.len(),
                    forall|q: int| 0 <= q < liste@.len() ==> #[trigger] l[q] == liste@[q]@,
                    ut@ == liste_tall(l.take(i as int)),
                decreases liste.len() - i,
            {
                assert(l.take(i + 1).drop_last() =~= l.take(i as int));
                assert(l.take(i + 1).last() == liste@[i as int]@);
                match les_element(&liste[i]) {
                    Some(n) => {
                        ut.push(n);
                    },
                    None => {},
                }
                i += 1;
            }
            assert(l.take(i as int) =~= l);
            ut
        },
        Json::Str(s) => {
            let cs: Vec<char> = chars_of(s.as_str());
            tall_liste(cs.as_slice())
        },
        Json::Hel(_) => match v.som_u64() {
            Some(n) => {
                let mut ut: Vec<u8> = Vec::new();
                ut.push((n % 256) as u8);
                assert(ut@ =~= seq![lave_bits(n as int)]);
                ut
            },
            None => Vec::new(),
        },
        _ => Vec::new(),
    }
}

/// The numbers of the first field with one of the names: `[1,2,3]`,
/// `["1","2"]`, `"1,2,3"` or one number.
pub fn finn_tall_serie(v: &Json, nokler: &Vec<&'static str>) -> (r: Option<Vec<u8>>)
    ensures
        (match r {
            Some(s) => tall_serie(v@, navn_av(nokler@)) == Some(s@),
            None => tall_serie(v@, navn_av(nokler@)) is None,
        }),
{
    match finn_felt(v, nokler) {
        Some(x) => {
            let s: Vec<u8> = les_serie(x);
            if s.len() == 0 {
                None
            } else {
                Some(s)
            }
        },
        None => None,
    }
}

// ---------------------------------------------------------------------------
// Dates
// ---------------------------------------------------------------------------

/// The first ten bytes of a text, or all of a shorter one; none where a
/// character lies across the tenth byte.
pub open spec fn ti_byte(s: Seq<char>) -> Option<Seq<char>> {
    let k = text::clipped(s, 10);
    if k.len() == s.len() || text::byte_len(k) == 10 {
        Some(k)
    } else {
        None
    }
}

/// The day that a text gives in one of the patterns.
pub open spec fn dag_av_tekst(s: Seq<char>) -> Option<int> {
    match ti_byte(text::trimmed(s)) {
        Some(t) => match dato::dato_lest(t, "%Y-%m-%d"@) {
            Some(d) => Some(d),
            None => match dato::dato_lest(t, "%d.%m.%Y"@) {
                Some(d) => Some(d),
                None => dato::dato_lest(t, "%d.%m.%y"@),
            },
        },
        None => None,
    }
}

/// A count of seconds; a count too large for seconds is one of milliseconds.
pub open spec fn sekunder(n: int) -> int {
    if n > 100_000_000_000 {
        n / 1000
    } else {
        n
    }
}

pub open spec fn dag_av_epoke(n: int) -> Option<int> {
    let d = dato::EPOKEDAG + sekunder(n) / 86400;
    if dato::FORSTE_DAG <= d <= dato::SISTE_DAG {
        Some(d)
    } else {
        None
    }
}

pub open spec fn datonokler() -> Seq<Seq<char>> {
    seq!["drawDate"@, "drawTime"@, "date"@, "trekningsdato"@, "drawDateTime"@]
}

fn datonokler_liste() -> (r: Vec<&'static str>)
    ensures
        navn_av(r@) == datonokler(),
{
    let r: Vec<&'static str> = vec!["drawDate", "drawTime", "date", "trekningsdato", "drawDateTime"];
    assert(navn_av(r@) =~= datonokler());
    r
}

/// The day of a draw.
pub open spec fn dag_av(v: JsonView) -> Option<int> {
    match felt(v, datonokler()) {
        Some(x) => match x {
            JsonView::Hel(_) => match x.som_i64() {
                Some(n) => dag_av_epoke(n),
                None => None,
            },
            JsonView::Str(s) => dag_av_tekst(s),
            _ => None,
        },
        None => None,
    }
}

pub open spec fn dag_syn(d: Option<Dato>) -> Option<int> {
    match d {
        Some(x) => Some(x.dag as int),
        None => None,
    }
}

/// The date that a text gives: `yyyy-mm-dd`, with or without a time behind it,
/// `dd.mm.yyyy` or `dd.mm.yy`.
pub fn tolk_dato_tekst(s: &str) -> (r: Option<Dato>)
    ensures
        dag_syn(r) == dag_av_tekst(s@),
        r is Some ==> r->0.gyldig(),
{
    let cs: Vec<char> = chars_of(s);
    let t: Vec<char> = text::trim(cs.as_slice());
    assert(t@.skip(0) =~= t@);
    let (n, b): (usize, usize) = text::fit(t.as_slice(), 0, 10);
    if n != t.len() && b != 10 {
        return None;
    }
    let del: Vec<char> = text::slice(t.as_slice(), 0, n);
    assert(del@ =~= text::clipped(t@, 10));
    let tekst: String = string_of(del.as_slice());
    match les_dato(tekst.as_str(), "%Y-%m-%d") {
        Some(d) => Some(d),
        None => match les_dato(tekst.as_str(), "%d.%m.%Y") {
            Some(d) => Some(d),
            None => les_dato(tekst.as_str(), "%d.%m.%y"),
        },
    }
}

/// The date of a count of seconds, or of milliseconds, since 1970.
pub fn tolk_epoke(n: i64) -> (r: Option<Dato>)
    ensures
        dag_syn(r) == dag_av_epoke(n as int),
        r is Some ==> r->0.gyldig(),
{
    let s: i64 = if n > 100_000_000_000 {
        n / 1000
    } else {
        n
    };
    fra_epoke(s)
}

pub fn finn_dato(v: &Json) -> (r: Option<Dato>)
    ensures
        dag_syn(r) == dag_av(v@),
        r is Some ==> r->0.gyldig(),
{
    match finn_felt(v, &datonokler_liste()) {
        Some(x) => match x {
            Json::Hel(_) => match x.som_i64() {
                Some(n) => tolk_epoke(n),
                None => None,
            },
            Json::Str(s) => tolk_dato_tekst(s.as_str()),
            _ => None,
        },
        None => None,
    }
}

// ---------------------------------------------------------------------------
// Draws
// ---------------------------------------------------------------------------

pub open spec fn vinnernokler() -> Seq<Seq<char>> {
    seq!["winnerNumber"@, "winnerNumbers"@]
}

fn vinnernokler_liste() -> (r: Vec<&'static str>)
    ensures
        navn_av(r@) == vinnernokler(),
{
    let r: Vec<&'static str> = vec!["winnerNumber", "winnerNumbers"];
    assert(navn_av(r@) =~= vinnernokler());
    r
}

/// Whether an object of the list is an additional number: by its type, or by
/// its name.
pub open spec fn tillegg(e: JsonView) -> bool {
    let type_ = match tall_felt(e, seq!["type"@]) {
        Some(n) => n,
        None => 1,
    };
    let navn = match felt(e, seq!["name"@]) {
        Some(JsonView::Str(s)) => s,
        _ => Seq::empty(),
    };
    type_ >= 2 || text::has(text::lowercase(navn), "tilleggstall"@)
}

/// The main numbers (`ekstra` false) or the additional ones (`ekstra` true)
/// among the objects.
pub open spec fn vinnertall(l: Seq<JsonView>, ekstra: bool) -> Seq<u8>
    decreases l.len(),
{
    if l.len() == 0 {
        Seq::empty()
    } else {
        let foran = vinnertall(l.drop_last(), ekstra);
        match tall_felt(l.last(), nummernokler()) {
            Some(n) => if tillegg(l.last()) == ekstra {
                foran.push(lave_bits(n))
            } else {
                foran
            },
            None => foran,
        }
    }
}

pub open spec fn vinnerobjekter(v: JsonView) -> Option<(Seq<u8>, Seq<u8>)> {
    match felt(v, vinnernokler()) {
        Some(JsonView::Arr(l)) => if vinnertall(l, false).len() == 0 {
            None
        } else {
            Some((vinnertall(l, false), vinnertall(l, true)))
        },
        _ => None,
    }
}

fn er_tillegg(e: &Json) -> (r: bool)
    ensures
        r == tillegg(e@),
{
    let typenokler: Vec<&'static str> = vec!["type"];
    assert(navn_av(typenokler@) =~= seq!["type"@]);
    let navnenokler: Vec<&'static str> = vec!["name"];
    assert(navn_av(navnenokler@) =~= seq!["name"@]);
    let type_: i64 = match finn_tall_felt(e, &typenokler) {
        Some(n) => n,
        None => 1,
    };
    let mut navn: String = String::new();
    match finn_felt(e, &navnenokler) {
        Some(x) => match x {
            Json::Str(s) => {
                navn = text::copy_text(s);
            },
            _ => {},
        },
        None => {},
    }
    assert(felt(e@, seq!["name"@]) is None || !(felt(e@, seq!["name"@])->0 is Str) ==> navn@
        =~= Seq::empty());
    let lav: String = text::to_lowercase(navn.as_str());
    type_ >= 2 || text::text_has(lav.as_str(), "tilleggstall")
}

/// The numbers of a list of objects with `number`, `type` (1 for a winning
/// number, 2 for an additional one) and `name`.
pub fn tolk_vinnertall_objekter(v: &Json) -> (r: Option<(Vec<u8>, Vec<u8>)>)
    ensures
        (match r {
            Some((h, e)) => vinnerobjekter(v@) == Some((h@, e@)),
            None => vinnerobjekter(v@) is None,
        }),
{
    let f: &Json = match finn_felt(v, &vinnernokler_liste()) {
        Some(f) => f,
        None => {
            return None;
        },
    };
    match f {
        Json::Arr(liste) => {
            let ghost l = f@->Arr_0;
            let mut hoved: Vec<u8> = Vec::new();
            let mut ekstra: Vec<u8> = Vec::new();
            let mut i: usize = 0;
            assert(l.take(0) =~= Seq::empty());
            while i < liste.len()
                invariant
                    i <= liste@.len(),
                    l.len() == liste@.len(),
                    forall|q: int| 0 <= q < liste@.len() ==> #[trigger] l[q] == liste@[q]@,
                    hoved@ == vinnertall(l.take(i as int), false),
                    ekstra@ == vinnertall(l.take(i as int), true),
                decreases liste.len() - i,
            {
                assert(l.take(i + 1).drop_last() =~= l.take(i as int));
                assert(l.take(i + 1).last() == liste@[i as int]@);
                match finn_tall_felt(&liste[i], &nummernokler_liste()) {
                    Some(n) => if er_tillegg(&liste[i]) {
                        ekstra.push(lav_byte(n));
                    } else {
                        hoved.push(lav_byte(n));
                    },
                    None => {},
                }
                i += 1;
            }
            assert(l.take(i as int) =~= l);
            if hoved.len() == 0 {
                None
            } else {
                Some((hoved, ekstra))
            }
        },
        _ => None,
    }
}

pub open spec fn hovednokler() -> Seq<Seq<char>> {
    seq![
        "winningNumbers"@,
        "mainNumbers"@,
        "vinnertall"@,
        "hovedtall"@,
        "primary"@,
        "drawNumbers"@,
        "winningNumberList"@,
        "lottoNumbers"@,
        "numbers"@,
    ]
}

pub open spec fn ekstranokler() -> Seq<Seq<char>> {
    seq![
        "vikingNumbers"@,
        "vikingNumber"@,
        "vikingtall"@,
        "starNumbers"@,
        "euroNumbers"@,
        "stjernetall"@,
        "additionalNumbers"@,
        "bonusNumbers"@,
        "tilleggstall"@,
        "secondary"@,
    ]
}

fn hovednokler_liste() -> (r: Vec<&'static str>)
    ensures
        navn_av(r@) == hovednokler(),
{
    let r: Vec<&'static str> = vec![
        "winningNumbers",
        "mainNumbers",
        "vinnertall",
        "hovedtall",
        "primary",
        "drawNumbers",
        "winningNumberList",
        "lottoNumbers",
        "numbers",
    ];
    assert(navn_av(r@) =~= hovednokler());
    r
}

fn ekstranokler_liste() -> (r: Vec<&'static str>)
    ensures
        navn_av(r@) == ekstranokler(),
{
    let r: Vec<&'static str> = vec![
        "vikingNumbers",
        "vikingNumber",
        "vikingtall",
        "starNumbers",
        "euroNumbers",
        "stjernetall",
        "additionalNumbers",
        "bonusNumbers",
        "tilleggstall",
        "secondary",
    ];
    assert(navn_av(r@) =~= ekstranokler());
    r
}

/// The numbers of a draw: main numbers in order, cut to as many as the game
/// has, and extra numbers as they came. None where there are too few.
pub open spec fn tall_av(v: JsonView, spill: Spill) -> Option<(Seq<u8>, Seq<u8>)> {
    let n = spill.antall_spec();
    match vinnerobjekter(v) {
        Some((h, e)) => if h.len() < n {
            None
        } else {
            Some((rekker::sortert_tall(h.take(n as int)), e))
        },
        None => match tall_serie(v, hovednokler()) {
            Some(h) => if h.len() < n {
                None
            } else {
                Some(
                    (
                        rekker::sortert_tall(h.take(n as int)),
                        match tall_serie(v, ekstranokler()) {
                            Some(e) => e,
                            None => Seq::empty(),
                        },
                    ),
                )
            },
            None => None,
        },
    }
}

/// Whether a draw has as many main numbers as its game, in order.
pub open spec fn fullt(t: TrekningInnhold, spill: Spill) -> bool {
    t.hovedtall.len() == spill.antall_spec() && (forall|i: int, j: int|
        0 <= i < j < t.hovedtall.len() ==> (#[trigger] t.hovedtall[i]) <= (#[trigger] t.hovedtall[j]))
}

/// A draw that a reply tells of has as many main numbers as its game, in order.
pub proof fn law_trekning_er_full(v: JsonView, spill: Spill)
    ensures
        trekning_av(v, spill) is Some ==> fullt(trekning_av(v, spill)->0, spill),
{
    let n = spill.antall_spec() as int;
    match vinnerobjekter(v) {
        Some((h, _)) => {
            if h.len() >= n {
                rekker::lemma_i_orden(h.take(n));
            }
        },
        None => {
            if let Some(h) = tall_serie(v, hovednokler()) {
                if h.len() >= n {
                    rekker::lemma_i_orden(h.take(n));
                }
            }
        },
    }
}

/// The draw that a reply tells of.
pub open spec fn trekning_av(v: JsonView, spill: Spill) -> Option<TrekningInnhold> {
    match dag_av(v) {
        Some(dag) => trekning_paa(v, spill, dag),
        None => None,
    }
}

/// The draw of a given day that a reply tells of.
pub open spec fn trekning_paa(v: JsonView, spill: Spill, dag: int) -> Option<TrekningInnhold> {
    match tall_av(v, spill) {
        Some((h, e)) => Some(TrekningInnhold { dag, hovedtall: h, ekstra: e }),
        None => None,
    }
}

pub open spec fn trekning_syn(t: Option<Trekning>) -> Option<TrekningInnhold> {
    match t {
        Some(x) => Some(x@),
        None => None,
    }
}

/// The draw of a given day that a reply tells of.
pub fn tolk_tall(v: &Json, spill: Spill, dato: Dato) -> (r: Option<Trekning>)
    ensures
        trekning_syn(r) == trekning_paa(v@, spill, dato.dag as int),
        r is Some ==> r->0.dato == dato,
{
    let n: usize = spill.hovedtall_antall();
    match tolk_vinnertall_objekter(v) {
        Some((h, e)) => {
            if h.len() < n {
                return None;
            }
            let mut hoved: Vec<u8> = h;
            let ghost h0 = hoved@;
            hoved.truncate(n);
            assert(hoved@ =~= h0.take(n as int));
            Some(Trekning { dato, hovedtall: sorter_tall(hoved.as_slice()), ekstra: e })
        },
        None => match finn_tall_serie(v, &hovednokler_liste()) {
            Some(h) => {
                if h.len() < n {
                    return None;
                }
                let mut hoved: Vec<u8> = h;
                let ghost h0 = hoved@;
                hoved.truncate(n);
                assert(hoved@ =~= h0.take(n as int));
                let ekstra: Vec<u8> = match finn_tall_serie(v, &ekstranokler_liste()) {
                    Some(e) => e,
                    None => Vec::new(),
                };
                assert(tall_serie(v@, ekstranokler()) is None ==> ekstra@ =~= Seq::empty());
                Some(Trekning { dato, hovedtall: sorter_tall(hoved.as_slice()), ekstra })
            },
            None => None,
        },
    }
}

/// The draw that a reply tells of, whatever its fields are called.
pub fn tolk_trekning(v: &Json, spill: Spill) -> (r: Option<Trekning>)
    ensures
        trekning_syn(r) == trekning_av(v@, spill),
        r is Some ==> r->0.dato.gyldig(),
{
    match finn_dato(v) {
        Some(dato) => tolk_tall(v, spill, dato),
        None => None,
    }
}

pub open spec fn trekninger_i(l: Seq<JsonView>, spill: Spill) -> Seq<TrekningInnhold>
    decreases l.len(),
{
    if l.len() == 0 {
        Seq::empty()
    } else {
        match trekning_av(l.last(), spill) {
            Some(t) => trekninger_i(l.drop_last(), spill).push(t),
            None => trekninger_i(l.drop_last(), spill),
        }
    }
}

/// The draws of a reply: a list of draws, an object with a list `draws`, or
/// one draw.
pub open spec fn alle_trekninger(v: JsonView, spill: Spill) -> Seq<TrekningInnhold> {
    match v {
        JsonView::Arr(l) => trekninger_i(l, spill),
        JsonView::Obj(_) => match v.felt("draws"@) {
            Some(JsonView::Arr(l)) => trekninger_i(l, spill),
            _ => match trekning_av(v, spill) {
                Some(t) => seq![t],
                None => Seq::empty(),
            },
        },
        _ => Seq::empty(),
    }
}

fn tolk_liste(liste: &Vec<Json>, spill: Spill, Ghost(l): Ghost<Seq<JsonView>>) -> (r: Vec<Trekning>)
    requires
        l.len() == liste@.len(),
        forall|q: int| 0 <= q < liste@.len() ==> #[trigger] l[q] == liste@[q]@,
    ensures
        historikk::innhold(r@) == trekninger_i(l, spill),
        historikk::gyldige(r@),
{
    let mut ut: Vec<Trekning> = Vec::new();
    let mut i: usize = 0;
    assert(l.take(0) =~= Seq::empty());
    assert(historikk::innhold(ut@) =~= trekninger_i(l.take(0), spill));
    while i < liste.len()
        invariant
            i <= liste@.len(),
            l.len() == liste@.len(),
            forall|q: int| 0 <= q < liste@.len() ==> #[trigger] l[q] == liste@[q]@,
            historikk::innhold(ut@) == trekninger_i(l.take(i as int), spill),
            historikk::gyldige(ut@),
        decreases liste.len() - i,
    {
        assert(l.take(i + 1).drop_last() =~= l.take(i as int));
        assert(l.take(i + 1).last() == liste@[i as int]@);
        let ghost before = historikk::innhold(ut@);
        match tolk_trekning(&liste[i], spill) {
            Some(t) => {
                let ghost tv = t@;
                ut.push(t);
                assert(historikk::innhold(ut@) =~= before.push(tv));
            },
            None => {},
        }
        i += 1;
    }
    assert(l.take(i as int) =~= l);
    ut
}

/// The draws of a reply that may hold several.
pub fn tolk_trekninger_liste(v: &Json, spill: Spill) -> (r: Vec<Trekning>)
    ensures
        historikk::innhold(r@) == alle_trekninger(v@, spill),
        historikk::gyldige(r@),
{
    match v {
        Json::Arr(liste) => tolk_liste(liste, spill, Ghost(v@->Arr_0)),
        Json::Obj(_) => {
            match v.felt("draws") {
                Some(f) => match f {
                    Json::Arr(liste) => {
                        return tolk_liste(liste, spill, Ghost(f@->Arr_0));
                    },
                    _ => {},
                },
                None => {},
            }
            let mut ut: Vec<Trekning> = Vec::new();
            match tolk_trekning(v, spill) {
                Some(t) => {
                    let ghost tv = t@;
                    ut.push(t);
                    assert(historikk::innhold(ut@) =~= seq![tv]);
                },
                None => {
                    assert(historikk::innhold(ut@) =~= Seq::empty());
                },
            }
            ut
        },
        _ => {
            let ut: Vec<Trekning> = Vec::new();
            assert(historikk::innhold(ut@) =~= Seq::empty());
            ut
        },
    }
}

/// A field of an object is the first whose name is one of those looked for, in
/// letters of either size, and it goes before all that lies deeper.
pub proof fn law_felt_i_objektet(kart: Seq<(Seq<char>, JsonView)>, nokler: Seq<Seq<char>>, k: int)
    requires
        0 <= k < kart.len(),
        treffer(kart[k].0, nokler),
        forall|i: int| 0 <= i < k ==> !treffer((#[trigger] kart[i]).0, nokler),
    ensures
        felt(JsonView::Obj(kart), nokler) == Some(kart[k].1),
{
    lemma_direkte(kart, nokler, 0, k);
}

proof fn lemma_direkte(kart: Seq<(Seq<char>, JsonView)>, nokler: Seq<Seq<char>>, j: int, k: int)
    requires
        0 <= j <= k <= kart.len(),
        k < kart.len() ==> treffer(kart[k].0, nokler),
        forall|i: int| 0 <= i < k ==> !treffer((#[trigger] kart[i]).0, nokler),
    ensures
        direkte(kart, nokler, j) == (if k < kart.len() {
            Some(kart[k].1)
        } else {
            None
        }),
    decreases k - j,
{
    if j < k {
        assert(!treffer(kart[j].0, nokler));
        lemma_direkte(kart, nokler, j + 1, k);
    }
}

/// Where no field of an object has such a name, the first that holds one
/// somewhere inside gives it; so it is in a list.
pub proof fn law_felt_lenger_inne(kart: Seq<(Seq<char>, JsonView)>, l: Seq<JsonView>, nokler: Seq<Seq<char>>, k: int)
    ensures
        (0 <= k < kart.len() && (forall|i: int| 0 <= i < kart.len() ==> !treffer((#[trigger] kart[i]).0, nokler)) && felt(
            kart[k].1,
            nokler,
        ) is Some && (forall|i: int| 0 <= i < k ==> felt((#[trigger] kart[i]).1, nokler) is None)) ==> felt(
            JsonView::Obj(kart),
            nokler,
        ) == felt(kart[k].1, nokler),
        (0 <= k < l.len() && felt(l[k], nokler) is Some && (forall|i: int|
            0 <= i < k ==> felt(#[trigger] l[i], nokler) is None)) ==> felt(JsonView::Arr(l), nokler) == felt(
            l[k],
            nokler,
        ),
{
    if 0 <= k < kart.len() && (forall|i: int| 0 <= i < kart.len() ==> !treffer((#[trigger] kart[i]).0, nokler)) && felt(
        kart[k].1,
        nokler,
    ) is Some && (forall|i: int| 0 <= i < k ==> felt((#[trigger] kart[i]).1, nokler) is None) {
        lemma_direkte(kart, nokler, 0, kart.len() as int);
        lemma_barn_i_objekt(kart, nokler, 0, k);
    }
    if 0 <= k < l.len() && felt(l[k], nokler) is Some && (forall|i: int|
        0 <= i < k ==> felt(#[trigger] l[i], nokler) is None) {
        lemma_barn_i_liste(l, nokler, 0, k);
    }
}

proof fn lemma_barn_i_objekt(kart: Seq<(Seq<char>, JsonView)>, nokler: Seq<Seq<char>>, j: int, k: int)
    requires
        0 <= j <= k < kart.len(),
        felt(kart[k].1, nokler) is Some,
        forall|i: int| 0 <= i < k ==> felt((#[trigger] kart[i]).1, nokler) is None,
    ensures
        felt_i_barn(JsonView::Obj(kart), nokler, j) == felt(kart[k].1, nokler),
    decreases k - j,
{
    if j < k {
        assert(felt(kart[j].1, nokler) is None);
        lemma_barn_i_objekt(kart, nokler, j + 1, k);
    }
}

proof fn lemma_barn_i_liste(l: Seq<JsonView>, nokler: Seq<Seq<char>>, j: int, k: int)
    requires
        0 <= j <= k < l.len(),
        felt(l[k], nokler) is Some,
        forall|i: int| 0 <= i < k ==> felt(#[trigger] l[i], nokler) is None,
    ensures
        felt_i_barn(JsonView::Arr(l), nokler, j) == felt(l[k], nokler),
    decreases k - j,
{
    if j < k {
        assert(felt(l[j], nokler) is None);
        lemma_barn_i_liste(l, nokler, j + 1, k);
    }
}

/// Each winning number is counted once: among the extra ones where it is marked
/// as such, and among the main ones where it is not.
pub proof fn law_vinnertallene(l: Seq<JsonView>, e: JsonView, n: int)
    requires
        tall_felt(e, nummernokler()) == Some(n),
        0 <= n <= 255,
    ensures
        tillegg(e) ==> vinnertall(l.push(e), true) == vinnertall(l, true).push(n as u8) && vinnertall(l.push(e), false)
            == vinnertall(l, false),
        !tillegg(e) ==> vinnertall(l.push(e), false) == vinnertall(l, false).push(n as u8) && vinnertall(l.push(e), true)
            == vinnertall(l, true),
{
    assert(l.push(e).drop_last() =~= l);
    assert(n % 256 == n);
}

/// A time in seconds since 1970 is on the day that many times 86 400 have gone
/// to, and one in milliseconds on the same day as its seconds.
pub proof fn law_dagen_av_tiden(n: int, d: int)
    requires
        n >= 0,
        dag_av_epoke(n) == Some(d),
    ensures
        n <= 100_000_000_000 ==> (d - dato::EPOKEDAG) * 86_400 <= n < (d - dato::EPOKEDAG + 1) * 86_400,
        n > 100_000_000_000 ==> (d - dato::EPOKEDAG) * 86_400_000 <= n < (d - dato::EPOKEDAG + 1) * 86_400_000,
{
}

/// The numbers of a list are those that can be read, in their order.
pub proof fn law_tallene_i_listen(l: Seq<JsonView>, e: JsonView)
    ensures
        element_tall(e) matches Some(n) ==> liste_tall(l.push(e)) == liste_tall(l).push(n),
        element_tall(e) is None ==> liste_tall(l.push(e)) == liste_tall(l),
{
    assert(l.push(e).drop_last() =~= l);
}

/// Every draw of an answer that is whole is among the draws read, and no other.
pub proof fn law_alle_trekninger_leses(l: Seq<JsonView>, spill: Spill, i: int)
    requires
        0 <= i < l.len(),
        trekning_av(l[i], spill) is Some,
    ensures
        trekninger_i(l, spill).contains(trekning_av(l[i], spill)->0),
        trekninger_i(l, spill).len() <= l.len(),
    decreases l.len(),
{
    let t = trekning_av(l[i], spill)->0;
    let d = l.drop_last();
    let a = trekninger_i(d, spill);
    lemma_hoyst_saa_mange(l, spill);
    if i < d.len() {
        law_alle_trekninger_leses(d, spill, i);
        let k = choose|k: int| 0 <= k < a.len() && a[k] == t;
        assert(trekninger_i(l, spill)[k] == t);
    } else {
        assert(trekninger_i(l, spill)[a.len() as int] == t);
    }
}

proof fn lemma_hoyst_saa_mange(l: Seq<JsonView>, spill: Spill)
    ensures
        trekninger_i(l, spill).len() <= l.len(),
    decreases l.len(),
{
    if l.len() > 0 {
        lemma_hoyst_saa_mange(l.drop_last(), spill);
    }
}

}
