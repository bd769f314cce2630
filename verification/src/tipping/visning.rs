//! How statistics and rows are shown.
use vstd::prelude::*;

use crate::belop;
use crate::number_text;
use crate::order;
use crate::text;
use crate::text::{push_all, push_text, string_of, three, two};
use crate::tipping::analyse::TallStatistikk;
use crate::tipping::kupong::Kupong;
use crate::tipping::rekker::Rekke;
use crate::tipping::spill::Spill;

verus! {

pub open spec fn synkende(l: Seq<TallStatistikk>) -> Seq<i128> {
    l.map_values(|s: TallStatistikk| (-(s.antall as int)) as i128)
}

/// The numbers from the most to the least often drawn; equal counts by number.
pub open spec fn rangert(l: Seq<TallStatistikk>) -> Seq<TallStatistikk> {
    order::order_of(synkende(l)).map_values(|i: int| l[i])
}

/// A number and how often it was drawn: `7 (12×)`.
pub open spec fn antall_tekst(s: TallStatistikk) -> Seq<char> {
    number_text::decimal(s.tall as nat) + " ("@ + number_text::decimal(s.antall as nat) + "×)"@
}

/// The first `n` of a list, or all of a shorter one.
pub open spec fn forste_n(l: Seq<TallStatistikk>, n: nat) -> Seq<TallStatistikk> {
    l.take(
        if l.len() < n {
            l.len() as int
        } else {
            n as int
        },
    )
}

pub open spec fn antall_tekster(l: Seq<TallStatistikk>) -> Seq<Seq<char>> {
    l.map_values(|s: TallStatistikk| antall_tekst(s))
}

fn ranger(l: &Vec<TallStatistikk>) -> (r: Vec<usize>)
    ensures
        order::positions(r@) == order::order_of(synkende(l@)),
        r@.len() == l@.len(),
        forall|i: int| 0 <= i < r@.len() ==> (#[trigger] r@[i]) < l@.len(),
{
    let mut keys: Vec<i128> = Vec::new();
    let mut i: usize = 0;
    while i < l.len()
        invariant
            i <= l@.len(),
            keys@ == synkende(l@).take(i as int),
        decreases l.len() - i,
    {
        keys.push(-(l[i].antall as i128));
        i += 1;
        assert(keys@ =~= synkende(l@).take(i as int));
    }
    assert(keys@ =~= synkende(l@));
    let r: Vec<usize> = order::stable_order(&keys);
    assert(r@.len() == order::positions(r@).len());
    r
}

fn skriv_antall(s: &TallStatistikk) -> (r: Vec<char>)
    ensures
        r@ == antall_tekst(*s),
{
    let mut ut: Vec<char> = number_text::write_decimal(s.tall as u128);
    push_text(&mut ut, " (");
    let n: Vec<char> = number_text::write_decimal(s.antall as u128);
    push_all(&mut ut, n.as_slice());
    push_text(&mut ut, "×)");
    ut
}

fn to_mellomrom() -> (r: Vec<char>)
    ensures
        r@ == seq![' ', ' '],
{
    let mut r: Vec<char> = Vec::new();
    r.push(' ');
    r.push(' ');
    assert(r@ =~= seq![' ', ' ']);
    r
}

/// The numbers drawn most often.
pub fn oftest(l: &Vec<TallStatistikk>, n: usize) -> (r: String)
    ensures
        r@ == text::joined(antall_tekster(forste_n(rangert(l@), n as nat)), seq![' ', ' ']),
{
    let o: Vec<usize> = ranger(l);
    let ghost s = rangert(l@);
    let m: usize = if o.len() < n {
        o.len()
    } else {
        n
    };
    let ghost f = antall_tekster(forste_n(s, n as nat));
    let mut deler: Vec<Vec<char>> = Vec::new();
    let mut i: usize = 0;
    while i < m
        invariant
            i <= m <= o@.len(),
            o@.len() == l@.len(),
            s == rangert(l@),
            m == f.len(),
            f == antall_tekster(forste_n(s, n as nat)),
            order::positions(o@) == order::order_of(synkende(l@)),
            forall|j: int| 0 <= j < o@.len() ==> (#[trigger] o@[j]) < l@.len(),
            text::seqs(deler@) == f.take(i as int),
        decreases m - i,
    {
        let ghost before = text::seqs(deler@);
        assert(order::positions(o@)[i as int] == o@[i as int] as int);
        assert(s[i as int] == l@[o@[i as int] as int]);
        deler.push(skriv_antall(&l[o[i]]));
        assert(f[i as int] == antall_tekst(s[i as int]));
        i += 1;
        assert(text::seqs(deler@) =~= before.push(f[i - 1]));
        assert(text::seqs(deler@) =~= f.take(i as int));
    }
    assert(text::seqs(deler@) =~= f);
    let u: Vec<char> = text::join(&deler, to_mellomrom().as_slice());
    string_of(u.as_slice())
}

/// The numbers drawn least often, the least first.
pub fn sjeldnest(l: &Vec<TallStatistikk>, n: usize) -> (r: String)
    ensures
        r@ == text::joined(
            antall_tekster(forste_n(rangert(l@).reverse(), n as nat)),
            seq![' ', ' '],
        ),
{
    let o: Vec<usize> = ranger(l);
    let ghost s = rangert(l@).reverse();
    let m: usize = if o.len() < n {
        o.len()
    } else {
        n
    };
    let ghost f = antall_tekster(forste_n(s, n as nat));
    let mut deler: Vec<Vec<char>> = Vec::new();
    let mut i: usize = 0;
    while i < m
        invariant
            i <= m <= o@.len(),
            o@.len() == l@.len(),
            s == rangert(l@).reverse(),
            m == f.len(),
            f == antall_tekster(forste_n(s, n as nat)),
            order::positions(o@) == order::order_of(synkende(l@)),
            forall|j: int| 0 <= j < o@.len() ==> (#[trigger] o@[j]) < l@.len(),
            text::seqs(deler@) == f.take(i as int),
        decreases m - i,
    {
        let ghost before = text::seqs(deler@);
        let k: usize = o.len() - 1 - i;
        assert(order::positions(o@)[k as int] == o@[k as int] as int);
        assert(s[i as int] == rangert(l@)[k as int]);
        assert(s[i as int] == l@[o@[k as int] as int]);
        deler.push(skriv_antall(&l[o[k]]));
        assert(f[i as int] == antall_tekst(s[i as int]));
        i += 1;
        assert(text::seqs(deler@) =~= before.push(f[i - 1]));
        assert(text::seqs(deler@) =~= f.take(i as int));
    }
    assert(text::seqs(deler@) =~= f);
    let u: Vec<char> = text::join(&deler, to_mellomrom().as_slice());
    string_of(u.as_slice())
}

/// A number with a space before it up to two places.
pub open spec fn hoyrestilt(n: nat) -> Seq<char> {
    if n < 10 {
        seq![' '] + number_text::decimal(n)
    } else {
        number_text::decimal(n)
    }
}

pub open spec fn tallrekke(l: Seq<u8>, i: nat, hoyre: bool, skille: Seq<char>) -> Seq<char>
    decreases i,
{
    if i == 0 {
        Seq::empty()
    } else {
        tallrekke(l, (i - 1) as nat, hoyre, skille) + (if i > 1 {
            skille
        } else {
            Seq::empty()
        }) + (if hoyre {
            hoyrestilt(l[i - 1] as nat)
        } else {
            number_text::decimal(l[i - 1] as nat)
        })
    }
}

/// The numbers with `skille` between them, right-aligned to two places or not.
pub open spec fn tall_paa_rad(l: Seq<u8>, hoyre: bool, skille: Seq<char>) -> Seq<char> {
    tallrekke(l, l.len(), hoyre, skille)
}

fn skriv_rad(l: &Vec<u8>, hoyre: bool, skille: &str) -> (r: Vec<char>)
    ensures
        r@ == tall_paa_rad(l@, hoyre, skille@),
{
    let mut ut: Vec<char> = Vec::new();
    let mut i: usize = 0;
    while i < l.len()
        invariant
            i <= l@.len(),
            ut@ == tallrekke(l@, i as nat, hoyre, skille@),
        decreases l.len() - i,
    {
        let ghost before = ut@;
        if i > 0 {
            push_text(&mut ut, skille);
        }
        let ghost midt = ut@;
        assert(midt =~= before + (if i > 0 {
            skille@
        } else {
            Seq::empty()
        }));
        let t: Vec<char> = number_text::write_decimal(l[i] as u128);
        if hoyre && l[i] < 10 {
            ut.push(' ');
            push_all(&mut ut, t.as_slice());
            assert(ut@ =~= midt + hoyrestilt(l@[i as int] as nat));
        } else {
            push_all(&mut ut, t.as_slice());
        }
        i += 1;
    }
    ut
}

/// A row in the list of the terminal: `   1.  2  9 17  +[3,5]   (sum 28, …)`.
pub open spec fn rekkelinje(nr: nat, hoved: Seq<u8>, ekstra: Seq<u8>, grunn: Seq<char>) -> Seq<char> {
    "  "@ + hoyrestilt(nr) + ". "@ + tall_paa_rad(hoved, true, " "@) + (if ekstra.len() == 0 {
        Seq::empty()
    } else {
        "  +["@ + tall_paa_rad(ekstra, false, ","@) + "]"@
    }) + "   ("@ + grunn + ")"@
}

pub fn rekke_linje(nr: usize, r: &Rekke) -> (t: String)
    ensures
        t@ == rekkelinje(nr as nat, r.hovedtall@, r.ekstra@, r.begrunnelse@),
{
    let mut ut: Vec<char> = text::chars_of("  ");
    let n: Vec<char> = number_text::write_decimal(nr as u128);
    let ghost a = ut@;
    if nr < 10 {
        ut.push(' ');
    }
    push_all(&mut ut, n.as_slice());
    assert(ut@ =~= a + hoyrestilt(nr as nat));
    push_text(&mut ut, ". ");
    let h: Vec<char> = skriv_rad(&r.hovedtall, true, " ");
    push_all(&mut ut, h.as_slice());
    let ghost b = ut@;
    if r.ekstra.len() > 0 {
        push_text(&mut ut, "  +[");
        let e: Vec<char> = skriv_rad(&r.ekstra, false, ",");
        push_all(&mut ut, e.as_slice());
        push_text(&mut ut, "]");
        assert(ut@ =~= b + ("  +["@ + tall_paa_rad(r.ekstra@, false, ","@) + "]"@));
    } else {
        assert(ut@ =~= b + Seq::<char>::empty());
    }
    push_text(&mut ut, "   (");
    push_text(&mut ut, r.begrunnelse.as_str());
    push_text(&mut ut, ")");
    string_of(ut.as_slice())
}

/// A row as it is copied: `2 9 17 + 3 5`.
pub open spec fn rekkekopi(hoved: Seq<u8>, ekstra: Seq<u8>) -> Seq<char> {
    tall_paa_rad(hoved, false, " "@) + (if ekstra.len() == 0 {
        Seq::empty()
    } else {
        " + "@ + tall_paa_rad(ekstra, false, " "@)
    })
}

fn skriv_kopi(r: &Rekke) -> (t: Vec<char>)
    ensures
        t@ == rekkekopi(r.hovedtall@, r.ekstra@),
{
    let mut ut: Vec<char> = skriv_rad(&r.hovedtall, false, " ");
    let ghost a = ut@;
    if r.ekstra.len() > 0 {
        push_text(&mut ut, " + ");
        let e: Vec<char> = skriv_rad(&r.ekstra, false, " ");
        push_all(&mut ut, e.as_slice());
        assert(ut@ =~= a + (" + "@ + tall_paa_rad(r.ekstra@, false, " "@)));
    } else {
        assert(ut@ =~= a + Seq::<char>::empty());
    }
    ut
}

/// All rows as they are copied, one to a line.
pub fn kopi_tekst(rekker: &Vec<Rekke>) -> (t: String)
    ensures
        t@ == text::joined(
            rekker@.map_values(|r: Rekke| rekkekopi(r.hovedtall@, r.ekstra@)),
            seq!['\n'],
        ),
{
    let ghost alle = rekker@.map_values(|r: Rekke| rekkekopi(r.hovedtall@, r.ekstra@));
    let mut deler: Vec<Vec<char>> = Vec::new();
    let mut i: usize = 0;
    while i < rekker.len()
        invariant
            i <= rekker@.len(),
            alle == rekker@.map_values(|r: Rekke| rekkekopi(r.hovedtall@, r.ekstra@)),
            text::seqs(deler@) == alle.take(i as int),
        decreases rekker.len() - i,
    {
        let ghost before = text::seqs(deler@);
        deler.push(skriv_kopi(&rekker[i]));
        i += 1;
        assert(text::seqs(deler@) =~= before.push(alle[i - 1]));
        assert(text::seqs(deler@) =~= alle.take(i as int));
    }
    assert(text::seqs(deler@) =~= alle);
    let mut n: Vec<char> = Vec::new();
    n.push('\n');
    assert(n@ =~= seq!['\n']);
    let u: Vec<char> = text::join(&deler, n.as_slice());
    string_of(u.as_slice())
}

/// The seed of the next set of rows.
pub fn neste_fro(fro: u64) -> (r: u64)
    ensures
        r == fro.wrapping_mul(6364136223846793005).wrapping_add(1),
{
    fro.wrapping_mul(6364136223846793005).wrapping_add(1)
}

/// What the chi-square says.
pub fn dom(innenfor_tilfeldighet: bool) -> (r: &'static str)
    ensures
        r@ == (if innenfor_tilfeldighet {
            "helt forenlig med ren tilfeldighet — «varme» og «kalde» tall er støy"@
        } else {
            "større avvik enn ventet — sjekk datakvaliteten før du tolker noe"@
        }),
{
    if innenfor_tilfeldighet {
        "helt forenlig med ren tilfeldighet — «varme» og «kalde» tall er støy"
    } else {
        "større avvik enn ventet — sjekk datakvaliteten før du tolker noe"
    }
}

/// What the chi-square says, in the window.
pub fn vindusdom(innenfor_tilfeldighet: bool) -> (r: &'static str)
    ensures
        r@ == (if innenfor_tilfeldighet {
            "Avvikene er helt forenlige med ren tilfeldighet — «varme» og «kalde» tall er støy, ikke signal."@
        } else {
            "Større avvik enn ren tilfeldighet skulle tilsi — sjekk datakvaliteten (regelendringer i historikken?) før du tolker noe som helst."@
        }),
{
    if innenfor_tilfeldighet {
        "Avvikene er helt forenlige med ren tilfeldighet — «varme» og «kalde» tall er støy, ikke signal."
    } else {
        "Større avvik enn ren tilfeldighet skulle tilsi — sjekk datakvaliteten (regelendringer i historikken?) før du tolker noe som helst."
    }
}

/// The chances of a game, with a space between the thousands.
pub open spec fn odds(spill: Spill) -> Seq<char> {
    belop::grupper(number_text::decimal(spill.rekker_spec()))
}

/// The heading of a game in the terminal.
pub fn spilloverskrift(spill: Spill) -> (r: String)
    ensures
        r@ == "━━━ "@ + spill.navn_spec() + (" — 1 : "@ + odds(spill) + " per rekke ━━━"@),
{
    let o: String = belop::med_skilletegn(spill.kombinasjoner());
    let b: String = three(" — 1 : ", o.as_str(), " per rekke ━━━");
    three("━━━ ", spill.navn(), b.as_str())
}

/// The reminder that stands first in the window.
pub fn paaminnelse(spill: Spill) -> (r: String)
    ensures
        r@ == "Alle rekker har nøyaktig samme vinnersjanse: 1 : "@ + odds(spill) + (" for førstepremien i "@
            + spill.navn_spec()
            + ". Historikken kan ikke forutsi neste trekning. Det eneste som kan optimaliseres er premiedeling — å velge rekker få andre spiller, så du deler potten med færrest mulig hvis du først vinner."@),
{
    let o: String = belop::med_skilletegn(spill.kombinasjoner());
    let b: String = three(
        " for førstepremien i ",
        spill.navn(),
        ". Historikken kan ikke forutsi neste trekning. Det eneste som kan optimaliseres er premiedeling — å velge rekker få andre spiller, så du deler potten med færrest mulig hvis du først vinner.",
    );
    three("Alle rekker har nøyaktig samme vinnersjanse: 1 : ", o.as_str(), b.as_str())
}

/// How long a history is, and from when to when.
pub fn historikklinje(antall: usize, forste: &str, siste: &str) -> (r: String)
    ensures
        r@ == number_text::decimal(antall as nat) + " trekninger, "@ + (forste@ + " – "@ + siste@),
{
    let n: String = number_text::decimal_text(antall as u128);
    let b: String = three(forste, " – ", siste);
    three(n.as_str(), " trekninger, ", b.as_str())
}

/// The same, in the window.
pub fn historikk_i_vinduet(antall: usize, forste: &str, siste: &str) -> (r: String)
    ensures
        r@ == number_text::decimal(antall as nat) + " trekninger · "@ + (forste@ + " – "@ + siste@),
{
    let n: String = number_text::decimal_text(antall as u128);
    let b: String = three(forste, " – ", siste);
    three(n.as_str(), " trekninger · ", b.as_str())
}

/// The numbers of a coupon in the window: `3 7 11  + 5`.
pub open spec fn kupongtall(hoved: Seq<u8>, ekstra: Seq<u8>) -> Seq<char> {
    tall_paa_rad(hoved, false, " "@) + (if ekstra.len() == 0 {
        Seq::empty()
    } else {
        "  + "@ + tall_paa_rad(ekstra, false, " "@)
    })
}

pub fn kupong_tall(k: &Kupong) -> (r: String)
    ensures
        r@ == kupongtall(k.hovedtall@, k.ekstra@),
{
    let mut ut: Vec<char> = skriv_rad(&k.hovedtall, false, " ");
    let ghost a = ut@;
    if k.ekstra.len() > 0 {
        push_text(&mut ut, "  + ");
        let e: Vec<char> = skriv_rad(&k.ekstra, false, " ");
        push_all(&mut ut, e.as_slice());
        assert(ut@ =~= a + ("  + "@ + tall_paa_rad(k.ekstra@, false, " "@)));
    } else {
        assert(ut@ =~= a + Seq::<char>::empty());
    }
    string_of(ut.as_slice())
}

/// What the extra numbers of a game are called.
pub fn ekstranavn(spill: Spill) -> (r: &'static str)
    ensures
        r@ == (match spill {
            Spill::Vikinglotto => "Vikingtall"@,
            Spill::Eurojackpot => "Stjernetall"@,
            Spill::Lotto => "Tilleggstall"@,
        }),
{
    match spill {
        Spill::Vikinglotto => "Vikingtall",
        Spill::Eurojackpot => "Stjernetall",
        Spill::Lotto => "Tilleggstall",
    }
}

/// What the player has won or lost in all; true where nothing was lost.
pub fn nettotekst(netto: i128) -> (r: (String, bool))
    ensures
        r.0@ == "Netto: "@ + (if netto >= 0 {
            "+"@ + belop::belop_tekst(netto as int, 0)
        } else {
            belop::belop_tekst(netto as int, 0)
        }) + " kr"@,
        r.1 == (netto >= 0),
{
    let cs: Vec<char> = belop::skriv(netto, 8, 0);
    let t: String = string_of(cs.as_slice());
    if netto >= 0 {
        let p: String = two("+", t.as_str());
        (three("Netto: ", p.as_str(), " kr"), true)
    } else {
        (three("Netto: ", t.as_str(), " kr"), false)
    }
}

/// What is said when the fetching is over; true where all went well.
pub fn hentet_melding(feil: &Vec<String>) -> (r: (String, bool))
    ensures
        r.0@ == (if feil@.len() == 0 {
            "Historikk hentet og lagret ✓"@
        } else {
            "Delvis hentet — feil: "@ + text::joined(text::views(feil@), " · "@)
        }),
        r.1 == (feil@.len() == 0),
{
    if feil.len() == 0 {
        ("Historikk hentet og lagret ✓".to_owned(), true)
    } else {
        let l: String = text::join_text(feil, " · ");
        (two("Delvis hentet — feil: ", l.as_str()), false)
    }
}

/// The ranking goes from the most to the least often drawn, numbers drawn
/// equally often in the order that they came in, and leaves none out.
pub proof fn law_rangert(l: Seq<TallStatistikk>)
    ensures
        rangert(l).len() == l.len(),
        forall|a: int, b: int|
            0 <= a < b < l.len() ==> (#[trigger] rangert(l)[a]).antall >= (#[trigger] rangert(l)[b]).antall,
        forall|i: int| 0 <= i < l.len() ==> rangert(l).contains(#[trigger] l[i]),
        (forall|i: int, j: int| 0 <= i < j < l.len() ==> (#[trigger] l[i]).tall < (#[trigger] l[j]).tall) ==> (forall|
            a: int,
            b: int,
        |
            0 <= a < b < l.len() && (#[trigger] rangert(l)[a]).antall == (#[trigger] rangert(l)[b]).antall
                ==> rangert(l)[a].tall < rangert(l)[b].tall),
{
    let v = synkende(l);
    let r = order::order_of(v);
    order::law_order_is_stable(v);
    assert forall|a: int, b: int| 0 <= a < b < l.len() implies order::earlier(v, #[trigger] r[a], #[trigger] r[b]) by {}
    assert forall|i: int| 0 <= i < l.len() implies rangert(l).contains(#[trigger] l[i]) by {
        assert(r.contains(i));
        let k = choose|k: int| 0 <= k < r.len() && r[k] == i;
        assert(rangert(l)[k] == l[i]);
    }
    assert forall|a: int, b: int| 0 <= a < b < l.len() implies (#[trigger] rangert(l)[a]).antall >= (
    #[trigger] rangert(l)[b]).antall by {
        assert(order::earlier(v, r[a], r[b]));
    }
    if forall|i: int, j: int| 0 <= i < j < l.len() ==> (#[trigger] l[i]).tall < (#[trigger] l[j]).tall {
        assert forall|a: int, b: int|
            0 <= a < b < l.len() && (#[trigger] rangert(l)[a]).antall == (#[trigger] rangert(l)[b]).antall implies rangert(
            l,
        )[a].tall < rangert(l)[b].tall by {
            assert(order::earlier(v, r[a], r[b]));
            assert(l[r[a]].tall < l[r[b]].tall);
        }
    }
}

/// Numbers in a row are the numbers, one after the other, with the mark between
/// each two.
pub proof fn law_tall_paa_rad(l: Seq<u8>, skille: Seq<char>)
    ensures
        tall_paa_rad(l, false, skille) == text::joined(
            l.map_values(|t: u8| number_text::decimal(t as nat)),
            skille,
        ),
{
    lemma_tallrekke(l, l.len(), skille);
    assert(l.take(l.len() as int) =~= l);
}

proof fn lemma_tallrekke(l: Seq<u8>, n: nat, skille: Seq<char>)
    requires
        n <= l.len(),
    ensures
        tallrekke(l, n, false, skille) == text::joined(
            l.take(n as int).map_values(|t: u8| number_text::decimal(t as nat)),
            skille,
        ),
    decreases n,
{
    let f = |t: u8| number_text::decimal(t as nat);
    let d = l.take(n as int).map_values(f);
    if n > 0 {
        lemma_tallrekke(l, (n - 1) as nat, skille);
        assert(d.drop_last() =~= l.take(n - 1).map_values(f));
        assert(d.last() == number_text::decimal(l[n - 1] as nat));
        if n == 1 {
            assert(tallrekke(l, 0, false, skille) =~= Seq::<char>::empty());
            assert(tallrekke(l, 1, false, skille) =~= d[0]);
        }
    }
}

}
