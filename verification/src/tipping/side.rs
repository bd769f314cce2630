//! Finding draws, excerpts and addresses in web pages.
use vstd::prelude::*;

use crate::json;
use crate::json::Json;
use crate::text;
use crate::text::{chars_of, push_all, push_text, string_of};
use crate::tipping::historikk;
use crate::tipping::historikk::{fjern_gjentak, sorter, Trekning, TrekningInnhold};
use crate::tipping::historikk_lover;
use crate::tipping::spill::Spill;
use crate::tipping::tolk;
use crate::tipping::tolk::tolk_trekning;

verus! {

// ---------------------------------------------------------------------------
// The object round a position
// ---------------------------------------------------------------------------

/// How many backslashes stand right before a position.
pub open spec fn skraastreker(s: Seq<char>, i: int) -> nat
    decreases i,
{
    if i <= 0 || s[i - 1] != '\\' {
        0
    } else {
        1 + skraastreker(s, i - 1)
    }
}

/// Whether a quotation mark stands at a position that begins or ends a string:
/// one that no backslash escapes.
pub open spec fn strengmerke(s: Seq<char>, i: int) -> bool {
    s[i] == '"' && skraastreker(s, i) % 2 == 0
}

/// Going back from position `i` with `dybde` closed objects passed, in a string
/// or not: the brace that opens the object round the position.
pub open spec fn aapner(s: Seq<char>, i: int, dybde: int, i_streng: bool) -> Option<int>
    decreases i,
{
    if i <= 0 {
        None
    } else if strengmerke(s, i - 1) {
        aapner(s, i - 1, dybde, !i_streng)
    } else if i_streng {
        aapner(s, i - 1, dybde, true)
    } else if s[i - 1] == '}' {
        aapner(s, i - 1, dybde + 1, false)
    } else if s[i - 1] == '{' {
        if dybde == 0 {
            Some(i - 1)
        } else {
            aapner(s, i - 1, dybde - 1, false)
        }
    } else {
        aapner(s, i - 1, dybde, false)
    }
}

/// The object round a position that stands in a string or not.
pub open spec fn objekt_ved(s: Seq<char>, midt: int, i_streng: bool) -> Option<Seq<char>> {
    match aapner(s, midt, 0, i_streng) {
        Some(a) => match json::lukker(s, a, 0, false, false) {
            Some(b) => if midt <= b {
                Some(s.subrange(a, b + 1))
            } else {
                None
            },
            None => None,
        },
        None => None,
    }
}

/// The object that stands round a position: one between whose tokens the
/// position lies, or else one in a string of which it lies.
pub open spec fn objekt(s: Seq<char>, midt: int) -> Option<Seq<char>> {
    match objekt_ved(s, midt, false) {
        Some(o) => Some(o),
        None => objekt_ved(s, midt, true),
    }
}

fn er_strengmerke(s: &[char], i: usize) -> (r: bool)
    requires
        i < s@.len(),
    ensures
        r == strengmerke(s@, i as int),
{
    if s[i] != '"' {
        return false;
    }
    let mut j: usize = i;
    let mut like: bool = true;
    while j > 0 && s[j - 1] == '\\'
        invariant
            j <= i < s@.len(),
            skraastreker(s@, i as int) == (i - j) + skraastreker(s@, j as int),
            like == ((i - j) % 2 == 0),
        decreases j,
    {
        j -= 1;
        like = !like;
    }
    like
}

fn finn_aapner(s: &[char], midt: usize, i_streng: bool) -> (r: Option<usize>)
    requires
        midt <= s@.len(),
    ensures
        r is Some == aapner(s@, midt as int, 0, i_streng) is Some,
        r matches Some(a) ==> aapner(s@, midt as int, 0, i_streng) == Some(a as int) && a < midt && s@[a as int]
            == '{',
{
    let mut i: usize = midt;
    let mut dybde: usize = 0;
    let mut inni: bool = i_streng;
    while i > 0
        invariant
            i <= midt <= s@.len(),
            dybde <= midt - i,
            aapner(s@, midt as int, 0, i_streng) == aapner(s@, i as int, dybde as int, inni),
        decreases i,
    {
        let c: char = s[i - 1];
        if er_strengmerke(s, i - 1) {
            inni = !inni;
        } else if !inni {
            if c == '}' {
                dybde += 1;
            } else if c == '{' {
                if dybde == 0 {
                    return Some(i - 1);
                }
                dybde -= 1;
            }
        }
        i -= 1;
    }
    None
}

fn finn_objekt_ved(tekst: &[char], midt: usize, i_streng: bool) -> (r: Option<Vec<char>>)
    requires
        midt <= tekst@.len(),
    ensures
        chars_syn(r) == objekt_ved(tekst@, midt as int, i_streng),
{
    let _lengde: usize = tekst.len();
    match finn_aapner(tekst, midt, i_streng) {
        Some(a) => match json::finn_lukker(tekst, a) {
            Some(b) => if midt <= b {
                Some(text::slice(tekst, a, b + 1))
            } else {
                None
            },
            None => None,
        },
        None => None,
    }
}

pub open spec fn chars_syn(o: Option<Vec<char>>) -> Option<Seq<char>> {
    match o {
        Some(v) => Some(v@),
        None => None,
    }
}

/// The object that stands round position `midt`: back to its opening brace and
/// on to the brace that closes it, past the braces inside strings.
pub fn objekt_rundt(tekst: &[char], midt: usize) -> (r: Option<Vec<char>>)
    requires
        midt <= tekst@.len(),
    ensures
        chars_syn(r) == objekt(tekst@, midt as int),
{
    match finn_objekt_ved(tekst, midt, false) {
        Some(o) => Some(o),
        None => finn_objekt_ved(tekst, midt, true),
    }
}

/// The object is a piece of the text from a brace before the position to a brace
/// at or behind it.
pub proof fn law_objekt(s: Seq<char>, midt: int)
    requires
        0 <= midt <= s.len(),
    ensures
        objekt(s, midt) matches Some(o) ==> o.len() >= 2 && o[0] == '{' && o.last() == '}' && (exists|a: int|
            0 <= a < midt < a + o.len() <= s.len() && o == #[trigger] s.subrange(a, a + o.len())),
{
    assert forall|i_streng: bool| #[trigger] objekt_ved(s, midt, i_streng) is Some implies {
        let o = objekt_ved(s, midt, i_streng)->0;
        &&& o.len() >= 2 && o[0] == '{' && o.last() == '}'
        &&& exists|a: int| 0 <= a < midt < a + o.len() <= s.len() && o == #[trigger] s.subrange(a, a + o.len())
    } by {
        lemma_aapner(s, midt, 0, i_streng);
        let a = aapner(s, midt, 0, i_streng)->0;
        json::lemma_lukker(s, a, 0, false, false);
        let o = objekt_ved(s, midt, i_streng)->0;
        assert(o == s.subrange(a, a + o.len()));
    }
}

proof fn lemma_aapner(s: Seq<char>, i: int, dybde: int, i_streng: bool)
    requires
        0 <= i <= s.len(),
    ensures
        aapner(s, i, dybde, i_streng) matches Some(a) ==> 0 <= a < i && s[a] == '{',
    decreases i,
{
    if i > 0 {
        lemma_aapner(s, i - 1, dybde, !i_streng);
        lemma_aapner(s, i - 1, dybde, true);
        lemma_aapner(s, i - 1, dybde + 1, false);
        lemma_aapner(s, i - 1, dybde - 1, false);
        lemma_aapner(s, i - 1, dybde, false);
    }
}

// ---------------------------------------------------------------------------
// Draws in a page
// ---------------------------------------------------------------------------

/// The draw of an object's text.
pub open spec fn trekning_i_tekst(o: Seq<char>, spill: Spill) -> Option<TrekningInnhold> {
    match json::json_lest(o) {
        Some(v) => tolk::trekning_av(v, spill),
        None => None,
    }
}

/// The draw of the object round a position.
pub open spec fn trekning_ved(s: Seq<char>, spill: Spill, midt: int) -> Option<TrekningInnhold> {
    match objekt(s, midt) {
        Some(o) => trekning_i_tekst(o, spill),
        None => None,
    }
}

pub open spec fn datomerke() -> Seq<char> {
    "\"drawDate\""@
}

/// The draws of the objects round each date field from position `fra` on.
pub open spec fn innbakte(s: Seq<char>, spill: Spill, fra: int) -> Seq<TrekningInnhold>
    decreases s.len() + 1 - fra,
{
    match text::first_at(s, datomerke(), fra) {
        Some(midt) => if fra <= midt && 0 < datomerke().len() && midt + datomerke().len() <= s.len() {
            let rest = innbakte(s, spill, midt + datomerke().len());
            match trekning_ved(s, spill, midt) {
                Some(t) => seq![t] + rest,
                None => rest,
            }
        } else {
            Seq::empty()
        },
        None => Seq::empty(),
    }
}

/// A page with its quotes unescaped.
pub open spec fn renset(html: Seq<char>) -> Seq<char> {
    text::replaced(html, "\\\""@, "\""@)
}

/// A page with its quotes unescaped.
pub fn rens(html: &str) -> (r: Vec<char>)
    ensures
        r@ == renset(html@),
{
    proof {
        reveal_strlit("\\\"");
    }
    let cs: Vec<char> = chars_of(html);
    let p: Vec<char> = chars_of("\\\"");
    let w: Vec<char> = chars_of("\"");
    text::replace(cs.as_slice(), p.as_slice(), w.as_slice())
}

/// A page with its quotes escaped, as inside a script.
pub open spec fn skjermet(html: Seq<char>) -> Seq<char>
    decreases html.len(),
{
    if html.len() == 0 {
        html
    } else {
        (if html[0] == '"' {
            seq!['\\', '"']
        } else {
            seq![html[0]]
        }) + skjermet(html.skip(1))
    }
}

proof fn lemma_renset(html: Seq<char>)
    requires
        !html.contains('\\'),
    ensures
        renset(html) == html,
        renset(skjermet(html)) == html,
    decreases html.len(),
{
    reveal_strlit("\\\"");
    reveal_strlit("\"");
    let p = "\\\""@;
    let w = "\""@;
    if html.len() > 0 {
        let rest = html.skip(1);
        let sk = skjermet(html);
        assert forall|i: int| 0 <= i < rest.len() implies rest[i] != '\\' by {
            assert(rest[i] == html[i + 1]);
        }
        lemma_renset(rest);
        assert(html[0] != '\\');
        text::lemma_replaced_stays(html, p, w);
        assert(html =~= seq![html[0]] + rest);
        if html[0] == '"' {
            assert(sk.skip(2) =~= skjermet(rest));
            assert(sk.subrange(0, 2) =~= p);
            assert(text::at(sk, p, 0));
            assert(text::first_at(sk, p, 0) == Some(0int));
            assert(text::replaced(sk, p, w) =~= w + text::replaced(sk.skip(2), p, w));
            assert(w + rest =~= html);
        } else {
            assert(sk.skip(1) =~= skjermet(rest));
            text::lemma_replaced_stays(sk, p, w);
        }
    } else {
        assert(text::first_at(html, p, 0) is None);
    }
}

/// A page whose quotes are escaped holds the same draws as the page itself.
pub proof fn law_skjermet_side(html: Seq<char>, spill: Spill)
    requires
        !html.contains('\\'),
    ensures
        renset(skjermet(html)) == renset(html),
        sidens_trekninger(skjermet(html), spill) == sidens_trekninger(html, spill),
{
    lemma_renset(html);
}

proof fn lemma_innbakte_fulle(s: Seq<char>, spill: Spill, fra: int)
    ensures
        forall|i: int|
            0 <= i < innbakte(s, spill, fra).len() ==> tolk::fullt(#[trigger] innbakte(s, spill, fra)[i], spill),
    decreases s.len() + 1 - fra,
{
    if let Some(midt) = text::first_at(s, datomerke(), fra) {
        if fra <= midt && 0 < datomerke().len() && midt + datomerke().len() <= s.len() {
            let rest = innbakte(s, spill, midt + datomerke().len());
            lemma_innbakte_fulle(s, spill, midt + datomerke().len() as int);
            if let Some(o) = objekt(s, midt) {
                if let Some(v) = json::json_lest(o) {
                    tolk::law_trekning_er_full(v, spill);
                }
            }
            let r = innbakte(s, spill, fra);
            assert forall|i: int| 0 <= i < r.len() implies tolk::fullt(#[trigger] r[i], spill) by {
                if trekning_ved(s, spill, midt) is Some {
                    if i > 0 {
                        assert(r[i] == rest[i - 1]);
                    }
                } else {
                    assert(r[i] == rest[i]);
                }
            }
        }
    }
}

/// The draws in a page.
pub open spec fn sidens_trekninger(html: Seq<char>, spill: Spill) -> Seq<TrekningInnhold> {
    historikk::uten_gjentak(historikk::sortert(innbakte(renset(html), spill, 0)))
}

fn les_objekt(o: &Vec<char>, spill: Spill) -> (r: Option<Trekning>)
    ensures
        tolk::trekning_syn(r) == trekning_i_tekst(o@, spill),
        r is Some ==> r->0.dato.gyldig(),
{
    let t: String = string_of(o.as_slice());
    match json::les(t.as_str()) {
        Some(v) => tolk_trekning(&v, spill),
        None => None,
    }
}

/// The draws in a page: the objects round its date fields, in order of date,
/// one for each date, each with as many main numbers as the game has.
pub fn trekk_ut_innbakte_trekninger(html: &str, spill: Spill) -> (r: Vec<Trekning>)
    ensures
        historikk::innhold(r@) == sidens_trekninger(html@, spill),
        historikk::gyldige(r@),
        historikk_lover::stigende(historikk::innhold(r@)),
        forall|i: int| 0 <= i < r@.len() ==> tolk::fullt((#[trigger] r@[i])@, spill),
{
    let tekst: Vec<char> = rens(html);
    let merke: Vec<char> = chars_of("\"drawDate\"");
    proof {
        reveal_strlit("\"drawDate\"");
    }
    let mut ut: Vec<Trekning> = Vec::new();
    let mut fra: usize = 0;
    let ghost alle = innbakte(tekst@, spill, 0);
    assert(historikk::innhold(ut@) + innbakte(tekst@, spill, 0) =~= alle);
    loop
        invariant
            fra <= tekst@.len(),
            merke@ == datomerke(),
            merke@.len() > 0,
            alle == innbakte(tekst@, spill, 0),
            historikk::innhold(ut@) + innbakte(tekst@, spill, fra as int) == alle,
            historikk::gyldige(ut@),
        ensures
            historikk::innhold(ut@) == alle,
            historikk::gyldige(ut@),
        decreases tekst.len() - fra,
    {
        match text::find(tekst.as_slice(), merke.as_slice(), fra) {
            Some(midt) => {
                let ghost before = historikk::innhold(ut@);
                let ghost rest = innbakte(tekst@, spill, midt + merke@.len());
                match objekt_rundt(tekst.as_slice(), midt) {
                    Some(o) => match les_objekt(&o, spill) {
                        Some(t) => {
                            let ghost tv = t@;
                            ut.push(t);
                            assert(historikk::innhold(ut@) =~= before.push(tv));
                            assert(historikk::innhold(ut@) + rest =~= before + (seq![tv] + rest));
                        },
                        None => {},
                    },
                    None => {},
                }
                fra = midt + merke.len();
            },
            None => {
                assert(historikk::innhold(ut@) + innbakte(tekst@, spill, fra as int)
                    =~= historikk::innhold(ut@));
                break;
            },
        }
    }
    proof {
        assert(historikk_lover::datoer(alle)) by {
            assert forall|i: int| 0 <= i < alle.len() implies i32::MIN <= (#[trigger] alle[i]).dag <= i32::MAX by {
                assert(alle[i] == ut@[i]@);
            }
        }
        historikk_lover::law_en_for_hver_dato(alle);
        lemma_innbakte_fulle(tekst@, spill, 0);
    }
    let s: Vec<Trekning> = sorter(&ut);
    let r: Vec<Trekning> = fjern_gjentak(&s);
    proof {
        let ferdig = historikk::innhold(r@);
        assert forall|i: int| 0 <= i < r@.len() implies tolk::fullt((#[trigger] r@[i])@, spill) by {
            assert(ferdig[i] == r@[i]@);
            historikk_lover::lemma_hentet(alle, i);
        }
    }
    r
}

// ---------------------------------------------------------------------------
// Replies
// ---------------------------------------------------------------------------

/// A text without the repeats of `p` at its start.
pub open spec fn uten_start(s: Seq<char>, p: Seq<char>) -> Seq<char>
    decreases s.len(),
{
    if p.len() > 0 && text::starts(s, p) {
        uten_start(s.skip(p.len() as int), p)
    } else {
        s
    }
}

fn fjern_start(s: &[char], p: &[char]) -> (r: Vec<char>)
    ensures
        r@ == uten_start(s@, p@),
{
    let mut fra: usize = 0;
    assert(s@.skip(0) =~= s@);
    if p.len() == 0 {
        return text::slice(s, 0, s.len());
    }
    while text::is_at(s, p, fra)
        invariant
            fra <= s@.len(),
            p@.len() > 0,
            uten_start(s@, p@) == uten_start(s@.skip(fra as int), p@),
        decreases s.len() - fra,
    {
        let ghost t = s@.skip(fra as int);
        assert(t.subrange(0, p@.len() as int) =~= s@.subrange(fra as int, fra + p@.len()));
        assert(t.skip(p@.len() as int) =~= s@.skip(fra + p@.len()));
        fra = fra + p.len();
    }
    let ghost t = s@.skip(fra as int);
    proof {
        if text::starts(t, p@) {
            assert(t.subrange(0, p@.len() as int) =~= s@.subrange(fra as int, fra + p@.len()));
        }
    }
    let r: Vec<char> = text::slice(s, fra, s.len());
    assert(r@ =~= t);
    r
}

/// The outermost object or list of a text: from the first opening to the last
/// closing mark, of the kind that opens first; all of the text where there is
/// neither.
pub open spec fn ytterste(s: Seq<char>) -> Seq<char> {
    let of = text::first_char(s, '{', 0);
    let ot = text::last_char(s, '}');
    let lf = text::first_char(s, '[', 0);
    let lt = text::last_char(s, ']');
    let obj = of is Some && ot is Some;
    let liste = lf is Some && lt is Some;
    if obj && liste && lf->0 < of->0 {
        if lf->0 <= lt->0 {
            s.subrange(lf->0, lt->0 + 1)
        } else {
            s
        }
    } else if obj && ot->0 > of->0 {
        s.subrange(of->0, ot->0 + 1)
    } else if liste && lt->0 > lf->0 {
        s.subrange(lf->0, lt->0 + 1)
    } else {
        s
    }
}

/// The JSON part of a reply: without what is put in front to keep it from
/// being run, and without what stands round the outermost object or list.
pub open spec fn json_del(s: Seq<char>) -> Seq<char> {
    ytterste(
        text::trimmed(
            uten_start(uten_start(uten_start(s, "while(true);"@), "/* 0;"@), "/* */"@),
        ),
    )
}

fn klipp_ytterste(s: &[char]) -> (r: Vec<char>)
    ensures
        r@ == ytterste(s@),
{
    let of: Option<usize> = text::find_char(s, '{', 0);
    let ot: Option<usize> = text::rfind_char(s, '}');
    let lf: Option<usize> = text::find_char(s, '[', 0);
    let lt: Option<usize> = text::rfind_char(s, ']');
    let hele: Vec<char> = text::slice(s, 0, s.len());
    assert(hele@ =~= s@);
    match (of, ot) {
        (Some(a), Some(b)) => match (lf, lt) {
            (Some(c), Some(d)) => {
                if c < a {
                    if c <= d {
                        text::slice(s, c, d + 1)
                    } else {
                        hele
                    }
                } else if b > a {
                    text::slice(s, a, b + 1)
                } else if d > c {
                    text::slice(s, c, d + 1)
                } else {
                    hele
                }
            },
            _ => {
                if b > a {
                    text::slice(s, a, b + 1)
                } else {
                    hele
                }
            },
        },
        _ => match (lf, lt) {
            (Some(c), Some(d)) => {
                if d > c {
                    text::slice(s, c, d + 1)
                } else {
                    hele
                }
            },
            _ => hele,
        },
    }
}

/// The JSON part of a reply.
pub fn rens_svar(tekst: &str) -> (r: String)
    ensures
        r@ == json_del(tekst@),
{
    let cs: Vec<char> = chars_of(tekst);
    let p: Vec<char> = chars_of("while(true);");
    let q: Vec<char> = chars_of("/* 0;");
    let t: Vec<char> = chars_of("/* */");
    let a: Vec<char> = fjern_start(cs.as_slice(), p.as_slice());
    let b: Vec<char> = fjern_start(a.as_slice(), q.as_slice());
    let c: Vec<char> = fjern_start(b.as_slice(), t.as_slice());
    let d: Vec<char> = text::trim(c.as_slice());
    let e: Vec<char> = klipp_ytterste(d.as_slice());
    string_of(e.as_slice())
}

/// The document in a reply.
pub fn les_svar(tekst: &str) -> (r: Option<Json>)
    ensures
        (match r {
            Some(j) => json::json_lest(json_del(tekst@)) == Some(j@),
            None => json::json_lest(json_del(tekst@)) is None,
        }),
{
    let del: String = rens_svar(tekst);
    json::les(del.as_str())
}

// ---------------------------------------------------------------------------
// Excerpts
// ---------------------------------------------------------------------------

/// A text with its line breaks turned into spaces.
pub open spec fn paa_en_linje(s: Seq<char>) -> Seq<char> {
    s.map_values(
        |c: char|
            if c == '\n' || c == '\r' {
                ' '
            } else {
                c
            },
    )
}

/// A text with its line breaks turned into spaces.
pub fn legg_paa_linje(s: &[char]) -> (r: Vec<char>)
    ensures
        r@ == paa_en_linje(s@),
{
    let mut ut: Vec<char> = Vec::new();
    let mut i: usize = 0;
    while i < s.len()
        invariant
            i <= s@.len(),
            ut@ == paa_en_linje(s@.take(i as int)),
        decreases s.len() - i,
    {
        let c: char = s[i];
        ut.push(
            if c == '\n' || c == '\r' {
                ' '
            } else {
                c
            },
        );
        i += 1;
        assert(ut@ =~= paa_en_linje(s@.take(i as int)));
    }
    assert(s@.take(i as int) =~= s@);
    ut
}

/// From position `fra` on, at most `igjen` excerpts: each begins with the
/// marker, takes at most `lengde` bytes and stands on one line; the search goes
/// on behind it.
pub open spec fn utdrag(s: Seq<char>, marker: Seq<char>, lengde: nat, fra: int, igjen: nat) -> Seq<Seq<char>>
    decreases igjen,
{
    if igjen == 0 {
        Seq::empty()
    } else {
        match text::first_at(s, marker, fra) {
            Some(i) => {
                let k = text::clipped(s.skip(i), lengde);
                seq![paa_en_linje(k)] + utdrag(s, marker, lengde, i + k.len(), (igjen - 1) as nat)
            },
            None => Seq::empty(),
        }
    }
}

pub open spec fn par_syn(l: Seq<(String, String)>) -> Seq<(Seq<char>, Seq<char>)> {
    l.map_values(|p: (String, String)| (p.0@, p.1@))
}

pub open spec fn med_merke(marker: Seq<char>, l: Seq<Seq<char>>) -> Seq<(Seq<char>, Seq<char>)> {
    l.map_values(|u: Seq<char>| (marker, u))
}

/// Up to four short excerpts from where a marker stands, each with the marker.
pub fn finn_utdrag(tekst: &str, marker: &str, lengde: usize) -> (r: Vec<(String, String)>)
    ensures
        par_syn(r@) == med_merke(marker@, utdrag(tekst@, marker@, lengde as nat, 0, 4)),
{
    let s: Vec<char> = chars_of(tekst);
    let m: Vec<char> = chars_of(marker);
    let mut ut: Vec<(String, String)> = Vec::new();
    let mut fra: usize = 0;
    let mut igjen: usize = 4;
    let alt: usize = s.len();
    let ghost alle = med_merke(m@, utdrag(s@, m@, lengde as nat, 0, 4));
    assert(par_syn(ut@) + alle =~= alle);
    while igjen > 0
        invariant
            fra <= s@.len(),
            alt == s@.len(),
            igjen <= 4,
            s@ == tekst@,
            m@ == marker@,
            alle == med_merke(m@, utdrag(s@, m@, lengde as nat, 0, 4)),
            par_syn(ut@) + med_merke(m@, utdrag(s@, m@, lengde as nat, fra as int, igjen as nat)) == alle,
        decreases igjen,
    {
        let ghost before = par_syn(ut@);
        match text::find(s.as_slice(), m.as_slice(), fra) {
            Some(i) => {
                let (n, _): (usize, usize) = text::fit(s.as_slice(), i, lengde);
                let del: Vec<char> = text::slice(s.as_slice(), i, i + n);
                let ghost k = text::clipped(s@.skip(i as int), lengde as nat);
                assert(del@ =~= k);
                let linje: Vec<char> = legg_paa_linje(del.as_slice());
                let ghost rest = utdrag(s@, m@, lengde as nat, i + k.len(), (igjen - 1) as nat);
                let par: (String, String) = (string_of(m.as_slice()), string_of(linje.as_slice()));
                ut.push(par);
                assert(par_syn(ut@) =~= before.push((m@, paa_en_linje(k))));
                assert(par_syn(ut@) + med_merke(m@, rest) =~= before + med_merke(
                    m@,
                    seq![paa_en_linje(k)] + rest,
                ));
                fra = i + n;
            },
            None => {
                assert(par_syn(ut@) =~= before + med_merke(m@, Seq::empty()));
                return ut;
            },
        }
        igjen -= 1;
    }
    assert(par_syn(ut@) =~= par_syn(ut@) + med_merke(m@, Seq::empty()));
    ut
}

// ---------------------------------------------------------------------------
// Scripts
// ---------------------------------------------------------------------------

/// The list with each text once, where it first stood.
pub open spec fn unike(l: Seq<Seq<char>>) -> Seq<Seq<char>>
    decreases l.len(),
{
    if l.len() == 0 {
        Seq::empty()
    } else {
        let u = unike(l.drop_last());
        if u.contains(l.last()) {
            u
        } else {
            u.push(l.last())
        }
    }
}

/// Going back from position `i`: the position behind the nearest quote, or
/// `ellers`.
pub open spec fn etter_fnutt(s: Seq<char>, i: int, ellers: int) -> int
    decreases i,
{
    if i <= 0 {
        ellers
    } else if s[i - 1] == '"' || s[i - 1] == '\'' {
        i
    } else {
        etter_fnutt(s, i - 1, ellers)
    }
}

pub open spec fn uten_skraastrek(s: Seq<char>) -> Seq<char>
    decreases s.len(),
{
    if s.len() > 0 && s.last() == '/' {
        uten_skraastrek(s.drop_last())
    } else {
        s
    }
}

/// The full address of a script that a page names.
pub open spec fn full_adresse(k: Seq<char>, side_url: Seq<char>) -> Seq<char> {
    if text::starts(k, "http"@) {
        k
    } else if text::starts(k, "//"@) {
        "https:"@ + k
    } else if text::starts(k, "/"@) {
        "https://www.norsk-tipping.no"@ + k
    } else {
        uten_skraastrek(side_url) + "/"@ + k
    }
}

/// The addresses of scripts from position `fra` on, with repeats: each runs
/// from the nearest quote up to `.js`; those with a space in them, or of four
/// bytes or less, do not count.
pub open spec fn skript(s: Seq<char>, side_url: Seq<char>, fra: int) -> Seq<Seq<char>>
    decreases s.len() + 1 - fra,
{
    match text::first_at(s, ".js"@, fra) {
        Some(i) => if fra <= i && i + 3 <= s.len() {
            let k = s.subrange(etter_fnutt(s, i + 3, i + 3), i + 3);
            let rest = skript(s, side_url, i + 3);
            if !k.contains(' ') && text::byte_len(k) > 4 {
                seq![full_adresse(k, side_url)] + rest
            } else {
                rest
            }
        } else {
            Seq::empty()
        },
        None => Seq::empty(),
    }
}

fn finn_fnutt(s: &[char], slutt: usize) -> (r: usize)
    requires
        slutt <= s@.len(),
    ensures
        r == etter_fnutt(s@, slutt as int, slutt as int),
        r <= slutt,
{
    let mut i: usize = slutt;
    while i > 0
        invariant
            i <= slutt <= s@.len(),
            etter_fnutt(s@, slutt as int, slutt as int) == etter_fnutt(s@, i as int, slutt as int),
        decreases i,
    {
        if s[i - 1] == '"' || s[i - 1] == '\'' {
            return i;
        }
        i -= 1;
    }
    slutt
}

fn bytes(s: &[char]) -> (r: usize)
    ensures
        r == text::byte_len(s@) || (r == usize::MAX && text::byte_len(s@) >= usize::MAX),
{
    let mut n: usize = 0;
    let mut i: usize = 0;
    while i < s.len()
        invariant
            i <= s@.len(),
            n == text::byte_len(s@.take(i as int)),
        decreases s.len() - i,
    {
        assert(s@.take(i + 1).drop_last() =~= s@.take(i as int));
        let w: usize = text::width(s[i]);
        if w >= usize::MAX - n {
            proof {
                lemma_bytes_prefiks(s@, i + 1);
            }
            return usize::MAX;
        }
        n += w;
        i += 1;
    }
    assert(s@.take(i as int) =~= s@);
    n
}

proof fn lemma_bytes_prefiks(s: Seq<char>, i: int)
    requires
        0 <= i <= s.len(),
    ensures
        text::byte_len(s.take(i)) <= text::byte_len(s),
    decreases s.len() - i,
{
    if i == s.len() {
        assert(s.take(i) =~= s);
    } else {
        lemma_bytes_prefiks(s, i + 1);
        assert(s.take(i + 1).drop_last() =~= s.take(i));
    }
}

fn lag_adresse(k: &[char], side_url: &[char]) -> (r: String)
    ensures
        r@ == full_adresse(k@, side_url@),
{
    let http: Vec<char> = chars_of("http");
    let to: Vec<char> = chars_of("//");
    let en: Vec<char> = chars_of("/");
    let mut ut: Vec<char> = Vec::new();
    if text::starts_with(k, http.as_slice()) {
    } else if text::starts_with(k, to.as_slice()) {
        push_text(&mut ut, "https:");
    } else if text::starts_with(k, en.as_slice()) {
        push_text(&mut ut, "https://www.norsk-tipping.no");
    } else {
        let mut n: usize = side_url.len();
        assert(side_url@.take(n as int) =~= side_url@);
        while n > 0 && side_url[n - 1] == '/'
            invariant
                n <= side_url@.len(),
                uten_skraastrek(side_url@) == uten_skraastrek(side_url@.take(n as int)),
            decreases n,
        {
            assert(side_url@.take(n as int).drop_last() =~= side_url@.take(n - 1));
            n -= 1;
        }
        let start: Vec<char> = text::slice(side_url, 0, n);
        assert(start@ =~= side_url@.take(n as int));
        assert(start@ == uten_skraastrek(side_url@));
        push_all(&mut ut, start.as_slice());
        push_text(&mut ut, "/");
        assert(ut@ =~= uten_skraastrek(side_url@) + "/"@);
    }
    let ghost foran = ut@;
    push_all(&mut ut, k);
    proof {
        if text::starts(k@, "http"@) {
            assert(ut@ =~= k@);
        } else if text::starts(k@, "//"@) {
            assert(foran =~= "https:"@);
        } else if text::starts(k@, "/"@) {
            assert(foran =~= "https://www.norsk-tipping.no"@);
        }
        assert(ut@ =~= full_adresse(k@, side_url@));
    }
    string_of(ut.as_slice())
}

/// The addresses of the scripts that a page names, each once.
pub fn finn_js_urler(html: &str, side_url: &str) -> (r: Vec<String>)
    ensures
        text::views(r@) == unike(skript(html@, side_url@, 0)),
{
    let s: Vec<char> = chars_of(html);
    let side: Vec<char> = chars_of(side_url);
    let js: Vec<char> = chars_of(".js");
    proof {
        reveal_strlit(".js");
    }
    let mut ut: Vec<String> = Vec::new();
    let mut fra: usize = 0;
    let ghost alle = skript(s@, side@, 0);
    let ghost mut sett: Seq<Seq<char>> = Seq::empty();
    assert(text::views(ut@) =~= unike(sett));
    assert(sett + alle =~= alle);
    loop
        invariant
            fra <= s@.len(),
            s@ == html@,
            side@ == side_url@,
            js@ == ".js"@,
            js@.len() == 3,
            alle == skript(s@, side@, 0),
            text::views(ut@) == unike(sett),
            sett + skript(s@, side@, fra as int) == alle,
        decreases s.len() - fra,
    {
        match text::find(s.as_slice(), js.as_slice(), fra) {
            Some(i) => {
                let slutt: usize = i + 3;
                let start: usize = finn_fnutt(s.as_slice(), slutt);
                let k: Vec<char> = text::slice(s.as_slice(), start, slutt);
                let ghost rest = skript(s@, side@, slutt as int);
                let mellomrom: bool = text::find_char(k.as_slice(), ' ', 0).is_some();
                proof {
                    text::lemma_first_char(k@, ' ', 0);
                    assert(mellomrom == k@.contains(' '));
                }
                if !mellomrom && bytes(k.as_slice()) > 4 {
                    let full: String = lag_adresse(k.as_slice(), side.as_slice());
                    let ghost f = full@;
                    let ghost before = text::views(ut@);
                    if !text::holds(&ut, full.as_str()) {
                        ut.push(full);
                        assert(text::views(ut@) =~= before.push(f));
                    }
                    proof {
                        assert(sett.push(f).drop_last() =~= sett);
                        assert(sett.push(f) + rest =~= sett + (seq![f] + rest));
                        sett = sett.push(f);
                    }
                }
                fra = slutt;
            },
            None => {
                assert(sett + skript(s@, side@, fra as int) =~= sett);
                return ut;
            },
        }
    }
}

/// Whether a character ends a token of a script.
pub open spec fn skille(c: char) -> bool {
    c == '"' || c == '\'' || c == '`' || text::is_space(c)
}

fn er_skille(c: char) -> (r: bool)
    ensures
        r == skille(c),
{
    c == '"' || c == '\'' || c == '`' || text::space(c)
}

/// Going back from position `i`: where the token begins.
pub open spec fn token_start(s: Seq<char>, i: int) -> int
    decreases i,
{
    if i <= 0 || skille(s[i - 1]) {
        i
    } else {
        token_start(s, i - 1)
    }
}

/// Going on from position `i`: where the token ends.
pub open spec fn token_slutt(s: Seq<char>, i: int) -> int
    decreases s.len() - i,
{
    if i < 0 || i >= s.len() || skille(s[i]) {
        i
    } else {
        token_slutt(s, i + 1)
    }
}

/// Whether a token, with its lower-case form, looks like the address of a
/// service with results: a path that speaks of results, draws or lotto, or the
/// name of such a service.
pub open spec fn interessant(token: Seq<char>, lav: Seq<char>) -> bool {
    ||| (text::has(lav, "result"@) || text::has(lav, "draw"@) || text::has(lav, "lotto"@)) && (
    text::starts(token, "/"@) || text::starts(token, "http"@))
    ||| text::has(lav, "gameresult"@)
    ||| text::has(lav, "getresult"@)
    ||| text::has(lav, "drawgame"@)
    ||| text::has(lav, "lotteryresult"@)
}

/// Adds to `ut` the tokens round `api` from position `fra` on, each once, up
/// to eighty in all; tokens of more than 160 bytes do not count.
pub open spec fn tokener(s: Seq<char>, fra: int, ut: Seq<Seq<char>>) -> Seq<Seq<char>>
    decreases s.len() + 1 - fra,
{
    match text::first_at(text::ascii_lower(s), "api"@, fra) {
        Some(midt) => {
            let start = token_start(s, midt);
            let slutt = token_slutt(s, midt);
            let videre = if slutt >= midt + 3 {
                slutt
            } else {
                midt + 3
            };
            if fra <= midt && midt < videre <= s.len() {
                let token = s.subrange(start, slutt);
                if slutt <= start || text::byte_len(token) > 160 {
                    tokener(s, videre, ut)
                } else {
                    let ny = if interessant(token, text::lowercase(token)) && !ut.contains(token) {
                        ut.push(token)
                    } else {
                        ut
                    };
                    if ny.len() >= 80 {
                        ny
                    } else {
                        tokener(s, videre, ny)
                    }
                }
            } else {
                ut
            }
        },
        None => ut,
    }
}

/// Whether a token looks like the address of a service with results.
pub fn er_interessant(token: &str, lav: &str) -> (r: bool)
    ensures
        r == interessant(token@, lav@),
{
    let sti: bool = (text::text_has(lav, "result") || text::text_has(lav, "draw") || text::text_has(
        lav,
        "lotto",
    )) && (text::text_starts(token, "/") || text::text_starts(token, "http"));
    sti || text::text_has(lav, "gameresult") || text::text_has(lav, "getresult") || text::text_has(
        lav,
        "drawgame",
    ) || text::text_has(lav, "lotteryresult")
}

fn finn_token_start(s: &[char], midt: usize) -> (r: usize)
    requires
        midt <= s@.len(),
    ensures
        r == token_start(s@, midt as int),
        r <= midt,
{
    let mut i: usize = midt;
    while i > 0 && !er_skille(s[i - 1])
        invariant
            i <= midt <= s@.len(),
            token_start(s@, midt as int) == token_start(s@, i as int),
        decreases i,
    {
        i -= 1;
    }
    i
}

fn finn_token_slutt(s: &[char], midt: usize) -> (r: usize)
    requires
        midt <= s@.len(),
    ensures
        r == token_slutt(s@, midt as int),
        midt <= r <= s@.len(),
{
    let mut i: usize = midt;
    while i < s.len() && !er_skille(s[i])
        invariant
            midt <= i <= s@.len(),
            token_slutt(s@, midt as int) == token_slutt(s@, i as int),
        decreases s.len() - i,
    {
        i += 1;
    }
    i
}

/// The tokens of a script that look like addresses of services with results.
pub fn finn_api_tokener(js: &str) -> (r: Vec<String>)
    ensures
        text::views(r@) == tokener(js@, 0, Seq::empty()),
{
    let s: Vec<char> = chars_of(js);
    let lav: Vec<char> = text::lower_all(s.as_slice());
    let api: Vec<char> = chars_of("api");
    proof {
        reveal_strlit("api");
    }
    let mut ut: Vec<String> = Vec::new();
    let mut fra: usize = 0;
    assert(text::views(ut@) =~= Seq::empty());
    loop
        invariant
            fra <= s@.len(),
            s@ == js@,
            lav@ == text::ascii_lower(s@),
            lav@.len() == s@.len(),
            api@ == "api"@,
            api@.len() == 3,
            tokener(s@, fra as int, text::views(ut@)) == tokener(js@, 0, Seq::empty()),
        decreases s.len() - fra,
    {
        match text::find(lav.as_slice(), api.as_slice(), fra) {
            None => {
                return ut;
            },
            Some(midt) => {
                let start: usize = finn_token_start(s.as_slice(), midt);
                let slutt: usize = finn_token_slutt(s.as_slice(), midt);
                let videre: usize = if slutt >= midt + 3 {
                    slutt
                } else {
                    midt + 3
                };
                let token: Vec<char> = text::slice(s.as_slice(), start, slutt);
                if slutt > start && bytes(token.as_slice()) <= 160 {
                    let t: String = string_of(token.as_slice());
                    let tl: String = text::to_lowercase(t.as_str());
                    let ghost before = text::views(ut@);
                    let ghost tv = t@;
                    if er_interessant(t.as_str(), tl.as_str()) && !text::holds(&ut, t.as_str()) {
                        ut.push(t);
                        assert(text::views(ut@) =~= before.push(tv));
                    }
                    if ut.len() >= 80 {
                        return ut;
                    }
                }
                fra = videre;
            },
        }
    }
}

/// No token is found twice.
pub proof fn law_unike(l: Seq<Seq<char>>)
    ensures
        forall|i: int, j: int| 0 <= i < j < unike(l).len() ==> unike(l)[i] != unike(l)[j],
        forall|i: int| 0 <= i < l.len() ==> unike(l).contains(#[trigger] l[i]),
    decreases l.len(),
{
    if l.len() > 0 {
        let d = l.drop_last();
        law_unike(d);
        let u = unike(d);
        let r = unike(l);
        assert forall|i: int| 0 <= i < l.len() implies r.contains(#[trigger] l[i]) by {
            if i < l.len() - 1 {
                assert(d[i] == l[i]);
                let k = choose|k: int| 0 <= k < u.len() && u[k] == l[i];
                assert(r[k] == l[i]);
            } else if !u.contains(l.last()) {
                assert(r[r.len() - 1] == l[i]);
            }
        }
    }
}

/// A guard in front of an answer is taken away, however often it stands there,
/// and an answer without one is left as it is.
pub proof fn law_vernet_fjernes(s: Seq<char>, p: Seq<char>)
    requires
        p.len() > 0,
    ensures
        uten_start(p + s, p) == uten_start(s, p),
        !text::starts(s, p) ==> uten_start(s, p) == s,
        json_del("while(true);"@ + s) == json_del(s),
{
    lemma_vern(s, p);
    reveal_strlit("while(true);");
    assert("while(true);"@.len() == 12);
    lemma_vern(s, "while(true);"@);
}

proof fn lemma_vern(s: Seq<char>, p: Seq<char>)
    requires
        p.len() > 0,
    ensures
        uten_start(p + s, p) == uten_start(s, p),
{
    let t = p + s;
    assert(t.subrange(0, p.len() as int) =~= p);
    assert(text::starts(t, p));
    assert(t.skip(p.len() as int) =~= s);
}

/// A text on one line has no line ends and is as long as it was.
pub proof fn law_paa_en_linje(s: Seq<char>)
    ensures
        paa_en_linje(s).len() == s.len(),
        !paa_en_linje(s).contains('\n') && !paa_en_linje(s).contains('\r'),
        forall|i: int|
            0 <= i < s.len() && s[i] != '\n' && s[i] != '\r' ==> #[trigger] paa_en_linje(s)[i] == s[i],
{
    assert forall|i: int| 0 <= i < s.len() implies #[trigger] paa_en_linje(s)[i] != '\n' && paa_en_linje(s)[i] != '\r' by {}
}

}
