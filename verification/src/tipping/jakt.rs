//! The hunt for a new source: what a page and its scripts give away.
use vstd::prelude::*;

use crate::json;
use crate::number_text;
use crate::text;
use crate::text::{chars_of, copy_text, push_all, push_text, string_of};
use crate::tipping::side;
use crate::tipping::side::{finn_api_tokener, finn_utdrag, objekt_rundt};

verus! {

/// The page that is searched.
pub const JAKTSIDE: &'static str = "https://www.norsk-tipping.no/lotteri/lotto/resultater";

/// How many scripts are searched at most.
pub const MAKS_SKRIPT: usize = 40;

/// How many tokens are reported at most.
pub const MAKS_KANDIDATER: usize = 60;

/// The words that a page with draws in it may hold.
pub open spec fn merker() -> Seq<Seq<char>> {
    seq![
        "__NEXT_DATA__"@,
        "winningNumbers"@,
        "mainNumbers"@,
        "vinnertall"@,
        "umbers"@,
        "tilleggstall"@,
        "prizeLevel"@,
    ]
}

pub open spec fn hoyst(n: nat, l: Seq<Seq<char>>) -> Seq<Seq<char>> {
    l.take(if l.len() < n {
        l.len() as int
    } else {
        n as int
    })
}

pub open spec fn funnlinje(merke: Seq<char>, utdrag: Seq<char>) -> Seq<char> {
    "  fant «"@ + merke + "» i HTML: …"@ + utdrag + "…"@
}

/// The lines for one word: its first two excerpts.
pub open spec fn merkelinjer(html: Seq<char>, merke: Seq<char>) -> Seq<Seq<char>> {
    hoyst(2, side::utdrag(html, merke, 300, 0, 4)).map_values(|u: Seq<char>| funnlinje(merke, u))
}

/// The lines for the first `n` words.
pub open spec fn alle_merkelinjer(html: Seq<char>, n: nat) -> Seq<Seq<char>>
    decreases n,
{
    if n == 0 {
        Seq::empty()
    } else {
        alle_merkelinjer(html, (n - 1) as nat) + merkelinjer(html, merker()[n - 1])
    }
}

/// The lines for the whole of the first draw, of which at most 4000 characters
/// are shown.
pub open spec fn objektlinjer(html: Seq<char>) -> Seq<Seq<char>> {
    let s = side::renset(html);
    match text::first_at(s, side::datomerke(), 0) {
        Some(pos) => match side::objekt(s, pos) {
            Some(o) => {
                let pen = json::pent(o);
                let forste = seq![
                    "Hele første trekningsobjekt:\n"@ + pen.take(
                        if pen.len() < 4000 {
                            pen.len() as int
                        } else {
                            4000
                        },
                    ),
                ];
                if text::byte_len(pen) > 4000 {
                    forste.push("  … (kuttet ved 4000 tegn)"@)
                } else {
                    forste
                }
            },
            None => seq!["Fant drawDate, men klarte ikke avgrense objektet."@],
        },
        None => seq!["Ingen drawDate i HTML-en — trekningene lastes trolig via API."@],
    }
}

fn merkeliste() -> (r: Vec<&'static str>)
    ensures
        r@.len() == merker().len(),
        forall|i: int| 0 <= i < r@.len() ==> (#[trigger] r@[i])@ == merker()[i],
{
    let r: Vec<&'static str> = vec![
        "__NEXT_DATA__",
        "winningNumbers",
        "mainNumbers",
        "vinnertall",
        "umbers",
        "tilleggstall",
        "prizeLevel",
    ];
    r
}

fn legg_til_merkelinjer(ut: &mut Vec<String>, html: &str, merke: &str)
    ensures
        text::views(final(ut)@) == text::views(old(ut)@) + merkelinjer(html@, merke@),
{
    let funn: Vec<(String, String)> = finn_utdrag(html, merke, 300);
    let ghost u = side::utdrag(html@, merke@, 300, 0, 4);
    let ghost start = text::views(ut@);
    let n: usize = if funn.len() < 2 {
        funn.len()
    } else {
        2
    };
    assert(side::par_syn(funn@).len() == u.len());
    let mut i: usize = 0;
    assert(text::views(ut@) =~= start + merkelinjer(html@, merke@).take(0));
    while i < n
        invariant
            i <= n <= funn@.len(),
            u == side::utdrag(html@, merke@, 300, 0, 4),
            side::par_syn(funn@) == side::med_merke(merke@, u),
            u.len() == funn@.len(),
            n == (if u.len() < 2 { u.len() as int } else { 2 }),
            text::views(ut@) == start + merkelinjer(html@, merke@).take(i as int),
        decreases n - i,
    {
        let ghost before = text::views(ut@);
        assert(side::par_syn(funn@)[i as int] == (funn@[i as int].0@, funn@[i as int].1@));
        assert(side::med_merke(merke@, u)[i as int] == (merke@, u[i as int]));
        let mut linje: Vec<char> = chars_of("  fant «");
        push_text(&mut linje, funn[i].0.as_str());
        push_text(&mut linje, "» i HTML: …");
        push_text(&mut linje, funn[i].1.as_str());
        push_text(&mut linje, "…");
        ut.push(string_of(linje.as_slice()));
        assert(text::views(ut@) =~= before.push(funnlinje(merke@, u[i as int])));
        assert(merkelinjer(html@, merke@)[i as int] == funnlinje(merke@, u[i as int]));
        i += 1;
        assert(text::views(ut@) =~= start + merkelinjer(html@, merke@).take(i as int));
    }
    assert(merkelinjer(html@, merke@).take(i as int) =~= merkelinjer(html@, merke@));
}

fn storre_enn(s: &[char], n: usize) -> (r: bool)
    ensures
        r == (text::byte_len(s@) > n),
{
    assert(s@.skip(0) =~= s@);
    let (k, b): (usize, usize) = text::fit(s, 0, n);
    proof {
        text::lemma_fitting(s@, n as nat, 0);
        lemma_alt_faar_plass(s@, n as nat, 0);
        assert(s@.take(s@.len() as int) =~= s@);
    }
    k < s.len()
}

proof fn lemma_alt_faar_plass(s: Seq<char>, n: nat, k: int)
    requires
        0 <= k <= s.len(),
        text::byte_len(s.take(k)) <= n,
    ensures
        (text::fitting(s, n, k) == s.len()) == (text::byte_len(s) <= n),
    decreases s.len() - k,
{
    if k == s.len() {
        assert(s.take(k) =~= s);
    } else if text::byte_len(s.take(k + 1)) <= n {
        lemma_alt_faar_plass(s, n, k + 1);
    } else {
        lemma_vokser(s, k + 1);
    }
}

proof fn lemma_vokser(s: Seq<char>, i: int)
    requires
        0 <= i <= s.len(),
    ensures
        text::byte_len(s.take(i)) <= text::byte_len(s),
    decreases s.len() - i,
{
    if i == s.len() {
        assert(s.take(i) =~= s);
    } else {
        lemma_vokser(s, i + 1);
        assert(s.take(i + 1).drop_last() =~= s.take(i));
    }
}

fn legg_til_objektlinjer(ut: &mut Vec<String>, html: &str)
    ensures
        text::views(final(ut)@) == text::views(old(ut)@) + objektlinjer(html@),
{
    let ghost start = text::views(ut@);
    let s: Vec<char> = side::rens(html);
    let merke: Vec<char> = chars_of("\"drawDate\"");
    match text::find(s.as_slice(), merke.as_slice(), 0) {
        Some(pos) => match objekt_rundt(s.as_slice(), pos) {
            Some(o) => {
                let tekst: String = string_of(o.as_slice());
                let pen: String = json::pen_tekst(tekst.as_str());
                let cs: Vec<char> = chars_of(pen.as_str());
                let n: usize = if cs.len() < 4000 {
                    cs.len()
                } else {
                    4000
                };
                let del: Vec<char> = text::slice(cs.as_slice(), 0, n);
                assert(del@ =~= cs@.take(n as int));
                let mut linje: Vec<char> = chars_of("Hele første trekningsobjekt:\n");
                push_all(&mut linje, del.as_slice());
                ut.push(string_of(linje.as_slice()));
                assert(text::views(ut@) =~= start.push(linje@));
                if storre_enn(cs.as_slice(), 4000) {
                    ut.push("  … (kuttet ved 4000 tegn)".to_owned());
                    assert(text::views(ut@) =~= start + objektlinjer(html@));
                }
                assert(text::views(ut@) =~= start + objektlinjer(html@));
            },
            None => {
                ut.push("Fant drawDate, men klarte ikke avgrense objektet.".to_owned());
                assert(text::views(ut@) =~= start + objektlinjer(html@));
            },
        },
        None => {
            ut.push("Ingen drawDate i HTML-en — trekningene lastes trolig via API.".to_owned());
            assert(text::views(ut@) =~= start + objektlinjer(html@));
        },
    }
}

/// What a page gives away: excerpts round telling words, and the whole of the
/// first draw in it.
pub fn jakt_i_side(html: &str) -> (r: Vec<String>)
    ensures
        text::views(r@) == alle_merkelinjer(html@, merker().len()) + objektlinjer(html@),
{
    let ord: Vec<&'static str> = merkeliste();
    let mut ut: Vec<String> = Vec::new();
    let mut i: usize = 0;
    assert(text::views(ut@) =~= alle_merkelinjer(html@, 0));
    while i < ord.len()
        invariant
            i <= ord@.len(),
            ord@.len() == merker().len(),
            forall|j: int| 0 <= j < ord@.len() ==> (#[trigger] ord@[j])@ == merker()[j],
            text::views(ut@) == alle_merkelinjer(html@, i as nat),
        decreases ord.len() - i,
    {
        legg_til_merkelinjer(&mut ut, html, ord[i]);
        i += 1;
    }
    legg_til_objektlinjer(&mut ut, html);
    ut
}

/// The list with those tokens added that are not in it yet.
pub open spec fn utvidet(l: Seq<Seq<char>>, nye: Seq<Seq<char>>) -> Seq<Seq<char>>
    decreases nye.len(),
{
    if nye.len() == 0 {
        l
    } else {
        let u = utvidet(l, nye.drop_last());
        if u.contains(nye.last()) {
            u
        } else {
            u.push(nye.last())
        }
    }
}

/// Adds the tokens of a script that are not in the list yet.
pub fn legg_til_kandidater(kandidater: &mut Vec<String>, js: &str)
    ensures
        text::views(final(kandidater)@) == utvidet(
            text::views(old(kandidater)@),
            side::tokener(js@, 0, Seq::empty()),
        ),
{
    let funn: Vec<String> = finn_api_tokener(js);
    let ghost f = text::views(funn@);
    let ghost start = text::views(kandidater@);
    let mut i: usize = 0;
    assert(f.take(0) =~= Seq::empty());
    while i < funn.len()
        invariant
            i <= funn@.len(),
            f == text::views(funn@),
            text::views(kandidater@) == utvidet(start, f.take(i as int)),
        decreases funn.len() - i,
    {
        assert(f.take(i + 1).drop_last() =~= f.take(i as int));
        assert(f.take(i + 1).last() == funn@[i as int]@);
        let ghost before = text::views(kandidater@);
        if !text::holds(kandidater, funn[i].as_str()) {
            kandidater.push(copy_text(&funn[i]));
            assert(text::views(kandidater@) =~= before.push(funn@[i as int]@));
        }
        i += 1;
    }
    assert(f.take(i as int) =~= f);
}

/// The lines for the tokens, of which at most sixty are listed.
pub open spec fn kandidatlinjer(l: Seq<Seq<char>>) -> Seq<Seq<char>> {
    let k = hoyst(MAKS_KANDIDATER as nat, l);
    if k.len() == 0 {
        seq!["Ingen API-stier funnet i bundlene."@]
    } else {
        seq!["Mulige API-stier ("@ + number_text::decimal(k.len()) + "):"@] + k.map_values(
            |t: Seq<char>| "  "@ + t,
        )
    }
}

/// The lines for the tokens that the scripts gave.
pub fn jakt_slutt(kandidater: &Vec<String>) -> (r: Vec<String>)
    ensures
        text::views(r@) == kandidatlinjer(text::views(kandidater@)),
{
    let ghost l = text::views(kandidater@);
    let n: usize = if kandidater.len() < MAKS_KANDIDATER {
        kandidater.len()
    } else {
        MAKS_KANDIDATER
    };
    let ghost k = hoyst(MAKS_KANDIDATER as nat, l);
    let mut ut: Vec<String> = Vec::new();
    if n == 0 {
        ut.push("Ingen API-stier funnet i bundlene.".to_owned());
        assert(text::views(ut@) =~= kandidatlinjer(l));
        return ut;
    }
    let mut hode: Vec<char> = chars_of("Mulige API-stier (");
    let tall: Vec<char> = number_text::write_decimal(n as u128);
    push_all(&mut hode, tall.as_slice());
    push_text(&mut hode, "):");
    ut.push(string_of(hode.as_slice()));
    let ghost m = k.map_values(|t: Seq<char>| "  "@ + t);
    assert(text::views(ut@) =~= seq![hode@] + m.take(0));
    let mut i: usize = 0;
    while i < n
        invariant
            i <= n <= kandidater@.len(),
            n == k.len(),
            l == text::views(kandidater@),
            k == hoyst(MAKS_KANDIDATER as nat, l),
            m == k.map_values(|t: Seq<char>| "  "@ + t),
            text::views(ut@) == seq![hode@] + m.take(i as int),
        decreases n - i,
    {
        let ghost before = text::views(ut@);
        let mut linje: Vec<char> = chars_of("  ");
        push_text(&mut linje, kandidater[i].as_str());
        assert(k[i as int] == kandidater@[i as int]@);
        ut.push(string_of(linje.as_slice()));
        assert(text::views(ut@) =~= before.push("  "@ + k[i as int]));
        i += 1;
        assert(text::views(ut@) =~= seq![hode@] + m.take(i as int));
    }
    assert(m.take(i as int) =~= m);
    ut
}

/// What is shown of a reply: its first 160 characters on one line.
pub fn kort_svar(tekst: &str) -> (r: String)
    ensures
        r@ == side::paa_en_linje(
            tekst@.take(
                if tekst@.len() < 160 {
                    tekst@.len() as int
                } else {
                    160
                },
            ),
        ),
{
    let cs: Vec<char> = chars_of(tekst);
    let n: usize = if cs.len() < 160 {
        cs.len()
    } else {
        160
    };
    let del: Vec<char> = text::slice(cs.as_slice(), 0, n);
    assert(del@ =~= tekst@.take(n as int));
    let l: Vec<char> = side::legg_paa_linje(del.as_slice());
    string_of(l.as_slice())
}

/// A list that is added to keeps what it had, in its place, holds all that is
/// new, and holds nothing twice that it did not hold twice before.
pub proof fn law_utvidet(l: Seq<Seq<char>>, nye: Seq<Seq<char>>)
    ensures
        l.is_prefix_of(utvidet(l, nye)),
        forall|i: int| 0 <= i < nye.len() ==> utvidet(l, nye).contains(#[trigger] nye[i]),
        forall|i: int|
            l.len() <= i < utvidet(l, nye).len() ==> nye.contains(#[trigger] utvidet(l, nye)[i]),
        l.no_duplicates() ==> utvidet(l, nye).no_duplicates(),
    decreases nye.len(),
{
    if nye.len() > 0 {
        let d = nye.drop_last();
        let u = utvidet(l, d);
        let v = utvidet(l, nye);
        law_utvidet(l, d);
        assert(l =~= u.subrange(0, l.len() as int));
        assert(l =~= v.subrange(0, l.len() as int)) by {
            assert forall|i: int| 0 <= i < l.len() implies v[i] == l[i] by {
                assert(u.subrange(0, l.len() as int)[i] == u[i]);
            }
        }
        assert forall|i: int| 0 <= i < nye.len() implies v.contains(#[trigger] nye[i]) by {
            if i < d.len() {
                assert(u.contains(d[i]));
                let k = choose|k: int| 0 <= k < u.len() && u[k] == d[i];
                assert(v[k] == nye[i]);
            } else if !u.contains(nye.last()) {
                assert(v[u.len() as int] == nye[i]);
            }
        }
        assert forall|i: int| l.len() <= i < v.len() implies nye.contains(#[trigger] v[i]) by {
            if i < u.len() {
                assert(d.contains(u[i]));
                let k = choose|k: int| 0 <= k < d.len() && d[k] == u[i];
                assert(nye[k] == v[i]);
            } else {
                assert(nye[nye.len() - 1] == v[i]);
            }
        }
        if l.no_duplicates() && !u.contains(nye.last()) {
            assert forall|i: int, j: int| 0 <= i < v.len() && 0 <= j < v.len() && i != j implies v[i] != v[j] by {
                if i < u.len() && j < u.len() {
                } else if i < u.len() {
                    assert(u.contains(u[i]));
                } else {
                    assert(u.contains(u[j]));
                }
            }
        }
    }
}

}
