//! The player's own coupons.
use vstd::prelude::*;

use crate::belop;
use crate::dato;
use crate::dato::{les_dato, Dato};
use crate::number_text;
use crate::text;
use crate::text::{chars_of, push_all, push_text, string_of};
use crate::tipping::historikk;
use crate::tipping::spill::Spill;

verus! {

/// A coupon that was played. Amounts are in hundred-millionths of a krone.
#[derive(Debug)]
pub struct Kupong {
    pub dato: Dato,
    pub spill: Spill,
    pub hovedtall: Vec<u8>,
    pub ekstra: Vec<u8>,
    pub innsats: i64,
    pub gevinst: i64,
}

/// What is wrong with a form.
#[derive(Debug)]
pub enum KupongFeil {
    Dato,
    /// The number of main numbers that were written.
    Antall(usize),
}

/// From position `i` on: the first character that is no digit.
pub open spec fn forste_ikke_siffer(s: Seq<char>, i: int) -> int
    decreases s.len() - i,
{
    if i < 0 || i >= s.len() || !number_text::is_digit(s[i]) {
        i
    } else {
        forste_ikke_siffer(s, i + 1)
    }
}

/// From position `i` on: the runs of digits, with empty runs between
/// neighbouring other characters.
pub open spec fn siffergrupper(s: Seq<char>, i: int) -> Seq<Seq<char>>
    decreases s.len() + 1 - i,
{
    let n = forste_ikke_siffer(s, i);
    if i < 0 || i > s.len() || n < i {
        Seq::empty()
    } else if n >= s.len() {
        seq![s.subrange(i, s.len() as int)]
    } else {
        seq![s.subrange(i, n)] + siffergrupper(s, n + 1)
    }
}

/// The numbers, from 0 to 255, among the runs of digits.
pub open spec fn tallene(s: Seq<char>) -> Seq<u8> {
    historikk::tall_blant(siffergrupper(s, 0))
}

/// The amount in a field; 0 where it gives none.
pub open spec fn felt_belop(s: Seq<char>) -> int {
    match belop::belop_av(text::replaced(text::trimmed(s), seq![','], seq!['.'])) {
        Some(n) => n,
        None => 0,
    }
}

proof fn lemma_ikke_siffer(s: Seq<char>, i: int)
    requires
        0 <= i <= s.len(),
    ensures
        i <= forste_ikke_siffer(s, i) <= s.len(),
    decreases s.len() - i,
{
    if i < s.len() && number_text::is_digit(s[i]) {
        lemma_ikke_siffer(s, i + 1);
    }
}

proof fn lemma_tall_blant_push(l: Seq<Seq<char>>, x: Seq<char>)
    ensures
        historikk::tall_blant(l.push(x)) == (match number_text::at_most(
            number_text::nat_of(text::trimmed(x)),
            255,
        ) {
            Some(n) => historikk::tall_blant(l).push(n as u8),
            None => historikk::tall_blant(l),
        }),
{
    assert(l.push(x).drop_last() =~= l);
}

/// The numbers in a field; anything but a digit stands between them.
pub fn les_tall(felt: &str) -> (r: Vec<u8>)
    ensures
        r@ == tallene(felt@),
{
    let s: Vec<char> = chars_of(felt);
    let mut ut: Vec<u8> = Vec::new();
    let mut i: usize = 0;
    let ghost alle = siffergrupper(s@, 0);
    let ghost mut sett: Seq<Seq<char>> = Seq::empty();
    assert(sett + alle =~= alle);
    assert(ut@ =~= historikk::tall_blant(sett));
    loop
        invariant
            i <= s@.len(),
            s@ == felt@,
            alle == siffergrupper(s@, 0),
            sett + siffergrupper(s@, i as int) == alle,
            ut@ == historikk::tall_blant(sett),
        decreases s@.len() + 1 - i,
    {
        let mut n: usize = i;
        proof {
            lemma_ikke_siffer(s@, i as int);
        }
        while n < s.len() && '0' <= s[n] && s[n] <= '9'
            invariant
                i <= n <= s@.len(),
                forste_ikke_siffer(s@, i as int) == forste_ikke_siffer(s@, n as int),
            decreases s.len() - n,
        {
            n += 1;
        }
        let del: Vec<char> = text::slice(s.as_slice(), i, n);
        let trimmet: Vec<char> = text::trim(del.as_slice());
        proof {
            lemma_tall_blant_push(sett, del@);
        }
        match number_text::read_u8(trimmet.as_slice()) {
            Some(x) => {
                ut.push(x);
            },
            None => {},
        }
        if n >= s.len() {
            assert(sett + seq![del@] =~= sett.push(del@));
            return ut;
        }
        proof {
            assert(sett.push(del@) + siffergrupper(s@, n + 1) =~= sett + (seq![del@] + siffergrupper(
                s@,
                n + 1,
            )));
            sett = sett.push(del@);
        }
        i = n + 1;
    }
}

fn les_belop_felt(felt: &str) -> (r: i64)
    ensures
        r == felt_belop(felt@),
{
    let cs: Vec<char> = chars_of(felt);
    let t: Vec<char> = text::trim(cs.as_slice());
    let mut komma: Vec<char> = Vec::new();
    komma.push(',');
    let mut punktum: Vec<char> = Vec::new();
    punktum.push('.');
    assert(komma@ =~= seq![',']);
    assert(punktum@ =~= seq!['.']);
    let u: Vec<char> = text::replace(t.as_slice(), komma.as_slice(), punktum.as_slice());
    match belop::les_belop(u.as_slice()) {
        Some(n) => n,
        None => 0,
    }
}

/// Reads the form for a coupon: the date must be one, and the main numbers as
/// many as the game has.
pub fn tolk_kupong(
    dato_felt: &str,
    spill: Spill,
    hoved: &str,
    ekstra: &str,
    innsats: &str,
    gevinst: &str,
) -> (r: Result<Kupong, KupongFeil>)
    ensures
        (match dato::dato_lest(text::trimmed(dato_felt@), "%Y-%m-%d"@) {
            None => r == Err::<Kupong, KupongFeil>(KupongFeil::Dato),
            Some(dag) => if tallene(hoved@).len() != spill.antall_spec() {
                r == Err::<Kupong, KupongFeil>(KupongFeil::Antall(tallene(hoved@).len() as usize))
            } else {
                r matches Ok(k) && k.dato.dag == dag && k.spill == spill && k.hovedtall@ == tallene(
                    hoved@,
                ) && k.ekstra@ == tallene(ekstra@) && k.innsats == felt_belop(innsats@) && k.gevinst
                    == felt_belop(gevinst@)
            },
        }),
{
    let d: String = text::text_trim(dato_felt);
    match les_dato(d.as_str(), "%Y-%m-%d") {
        None => Err(KupongFeil::Dato),
        Some(dato) => {
            let hovedtall: Vec<u8> = les_tall(hoved);
            if hovedtall.len() != spill.hovedtall_antall() {
                return Err(KupongFeil::Antall(hovedtall.len()));
            }
            Ok(
                Kupong {
                    dato,
                    spill,
                    hovedtall,
                    ekstra: les_tall(ekstra),
                    innsats: les_belop_felt(innsats),
                    gevinst: les_belop_felt(gevinst),
                },
            )
        },
    }
}

/// The message for a form that cannot be read.
pub fn feil_tekst(feil: &KupongFeil, spill: Spill) -> (r: String)
    ensures
        r@ == (match feil {
            KupongFeil::Dato => "Ugyldig dato — bruk ÅÅÅÅ-MM-DD"@,
            KupongFeil::Antall(n) => spill.navn_spec() + " skal ha "@ + number_text::decimal(
                spill.antall_spec(),
            ) + " hovedtall (du skrev "@ + number_text::decimal(*n as nat) + ")"@,
        }),
{
    match feil {
        KupongFeil::Dato => "Ugyldig dato — bruk ÅÅÅÅ-MM-DD".to_owned(),
        KupongFeil::Antall(n) => {
            let mut ut: Vec<char> = chars_of(spill.navn());
            push_text(&mut ut, " skal ha ");
            let a: Vec<char> = number_text::write_decimal(spill.hovedtall_antall() as u128);
            push_all(&mut ut, a.as_slice());
            push_text(&mut ut, " hovedtall (du skrev ");
            let b: Vec<char> = number_text::write_decimal(*n as u128);
            push_all(&mut ut, b.as_slice());
            push_text(&mut ut, ")");
            string_of(ut.as_slice())
        },
    }
}

pub open spec fn sum_innsats(l: Seq<Kupong>) -> int
    decreases l.len(),
{
    if l.len() == 0 {
        0
    } else {
        sum_innsats(l.drop_last()) + l.last().innsats
    }
}

pub open spec fn sum_gevinst(l: Seq<Kupong>) -> int
    decreases l.len(),
{
    if l.len() == 0 {
        0
    } else {
        sum_gevinst(l.drop_last()) + l.last().gevinst
    }
}

/// What was staked in all, what was won, and the difference.
pub fn totaler(kuponger: &Vec<Kupong>) -> (r: (i128, i128, i128))
    requires
        kuponger@.len() <= isize::MAX,
    ensures
        r.0 == sum_innsats(kuponger@),
        r.1 == sum_gevinst(kuponger@),
        r.2 == sum_gevinst(kuponger@) - sum_innsats(kuponger@),
{
    let mut innsats: i128 = 0;
    let mut gevinst: i128 = 0;
    let mut i: usize = 0;
    while i < kuponger.len()
        invariant
            i <= kuponger@.len(),
            kuponger@.len() <= isize::MAX,
            innsats == sum_innsats(kuponger@.take(i as int)),
            gevinst == sum_gevinst(kuponger@.take(i as int)),
            -0x8000_0000_0000_0000 * i <= innsats <= 0x8000_0000_0000_0000 * i,
            -0x8000_0000_0000_0000 * i <= gevinst <= 0x8000_0000_0000_0000 * i,
        decreases kuponger.len() - i,
    {
        assert(kuponger@.take(i + 1).drop_last() =~= kuponger@.take(i as int));
        innsats = innsats + kuponger[i].innsats as i128;
        gevinst = gevinst + kuponger[i].gevinst as i128;
        i += 1;
    }
    assert(kuponger@.take(i as int) =~= kuponger@);
    (innsats, gevinst, gevinst - innsats)
}

/// What is said under the totals of one who has played and lost.
pub fn tapsnote(kuponger: &Vec<Kupong>) -> (r: Option<&'static str>)
    requires
        kuponger@.len() <= isize::MAX,
    ensures
        match r {
            Some(t) => kuponger@.len() > 0 && sum_gevinst(kuponger@) < sum_innsats(kuponger@) && t@
                == "Akkurat som matematikken forutsier: over tid taper alle på lotteri. Det er prisen for spenningen — hold den innenfor et budsjett."@,
            None => kuponger@.len() == 0 || sum_gevinst(kuponger@) >= sum_innsats(kuponger@),
        },
{
    let (innsats, gevinst, _netto): (i128, i128, i128) = totaler(kuponger);
    if kuponger.len() > 0 && gevinst < innsats {
        Some(
            "Akkurat som matematikken forutsier: over tid taper alle på lotteri. Det er prisen for spenningen — hold den innenfor et budsjett.",
        )
    } else {
        None
    }
}

/// How many of the numbers were drawn.
pub open spec fn antall_treff(mine: Seq<u8>, trukket: Seq<u8>) -> nat {
    mine.filter(|t: u8| trukket.contains(t)).len()
}

/// How many of the numbers were drawn.
pub fn treff(mine: &Vec<u8>, trukket: &Vec<u8>) -> (r: usize)
    ensures
        r == antall_treff(mine@, trukket@),
{
    let ghost p = |t: u8| trukket@.contains(t);
    let mut n: usize = 0;
    let mut i: usize = 0;
    reveal(Seq::filter);
    assert(mine@.take(0).filter(p) =~= Seq::empty());
    while i < mine.len()
        invariant
            i <= mine@.len(),
            p == (|t: u8| trukket@.contains(t)),
            n == mine@.take(i as int).filter(p).len(),
            n <= i,
        decreases mine.len() - i,
    {
        reveal(Seq::filter);
        assert(mine@.take(i + 1).drop_last() =~= mine@.take(i as int));
        if er_trukket(trukket, mine[i]) {
            n += 1;
        }
        i += 1;
    }
    assert(mine@.take(i as int) =~= mine@);
    n
}

fn er_trukket(trukket: &Vec<u8>, t: u8) -> (r: bool)
    ensures
        r == trukket@.contains(t),
{
    let mut i: usize = 0;
    while i < trukket.len()
        invariant
            i <= trukket@.len(),
            forall|j: int| 0 <= j < i ==> trukket@[j] != t,
        decreases trukket.len() - i,
    {
        if trukket[i] == t {
            return true;
        }
        i += 1;
    }
    false
}

/// What a checked coupon came to.
pub open spec fn resultat(hovedtreff: nat, ekstratreff: nat, premie: Option<Seq<char>>) -> Seq<char> {
    let treff = number_text::decimal(hovedtreff) + " hovedtreff"@ + (if ekstratreff > 0 {
        " + "@ + number_text::decimal(ekstratreff) + " ekstra"@
    } else {
        Seq::empty()
    });
    match premie {
        Some(p) => "✓ "@ + treff + " — GEVINST: "@ + p,
        None => treff + " — ingen premie"@,
    }
}

pub fn resultat_tekst(hovedtreff: usize, ekstratreff: usize, premie: Option<&str>) -> (r: String)
    ensures
        r@ == resultat(
            hovedtreff as nat,
            ekstratreff as nat,
            match premie {
                Some(p) => Some(p@),
                None => None,
            },
        ),
{
    let mut treff: Vec<char> = number_text::write_decimal(hovedtreff as u128);
    push_text(&mut treff, " hovedtreff");
    let ghost a = treff@;
    if ekstratreff > 0 {
        push_text(&mut treff, " + ");
        let e: Vec<char> = number_text::write_decimal(ekstratreff as u128);
        push_all(&mut treff, e.as_slice());
        push_text(&mut treff, " ekstra");
        assert(treff@ =~= a + (" + "@ + number_text::decimal(ekstratreff as nat) + " ekstra"@));
    } else {
        assert(treff@ =~= a + Seq::<char>::empty());
    }
    match premie {
        Some(p) => {
            let mut ut: Vec<char> = chars_of("✓ ");
            push_all(&mut ut, treff.as_slice());
            push_text(&mut ut, " — GEVINST: ");
            push_text(&mut ut, p);
            string_of(ut.as_slice())
        },
        None => {
            push_text(&mut treff, " — ingen premie");
            string_of(treff.as_slice())
        },
    }
}

/// The stakes and the winnings are counted over all coupons: one more adds its
/// own, and two lists together come to what they come to apart.
pub proof fn law_kupongene_summeres(a: Seq<Kupong>, b: Seq<Kupong>, k: Kupong)
    ensures
        sum_innsats(a.push(k)) == sum_innsats(a) + k.innsats,
        sum_gevinst(a.push(k)) == sum_gevinst(a) + k.gevinst,
        sum_innsats(a + b) == sum_innsats(a) + sum_innsats(b),
        sum_gevinst(a + b) == sum_gevinst(a) + sum_gevinst(b),
        sum_innsats(Seq::empty()) == 0 && sum_gevinst(Seq::empty()) == 0,
    decreases b.len(),
{
    assert(a.push(k).drop_last() =~= a);
    if b.len() == 0 {
        assert(a + b =~= a);
    } else {
        law_kupongene_summeres(a, b.drop_last(), k);
        assert((a + b).drop_last() =~= a + b.drop_last());
        assert((a + b).last() == b.last());
    }
}

/// A number counts as a hit exactly where it was drawn: one that was adds one,
/// one that was not adds nothing.
pub proof fn law_treffene(mine: Seq<u8>, t: u8, trukket: Seq<u8>)
    ensures
        trukket.contains(t) ==> antall_treff(mine.push(t), trukket) == antall_treff(mine, trukket) + 1,
        !trukket.contains(t) ==> antall_treff(mine.push(t), trukket) == antall_treff(mine, trukket),
        antall_treff(Seq::empty(), trukket) == 0,
        antall_treff(mine, trukket) <= mine.len(),
{
    reveal(Seq::filter);
    assert(mine.push(t).drop_last() =~= mine);
    lemma_treff_hoyst(mine, trukket);
}

proof fn lemma_treff_hoyst(mine: Seq<u8>, trukket: Seq<u8>)
    ensures
        antall_treff(mine, trukket) <= mine.len(),
    decreases mine.len(),
{
    reveal(Seq::filter);
    if mine.len() > 0 {
        lemma_treff_hoyst(mine.drop_last(), trukket);
    }
}

proof fn lemma_siffergruppe(g: Seq<char>, c: char, rest: Seq<char>, i: int)
    requires
        number_text::all_digits(g),
        !number_text::is_digit(c),
        0 <= i <= g.len(),
    ensures
        forste_ikke_siffer(g + seq![c] + rest, i) == g.len(),
    decreases g.len() - i,
{
    let s = g + seq![c] + rest;
    if i < g.len() {
        assert(s[i] == g[i]);
        assert(number_text::is_digit(g[i]));
        lemma_siffergruppe(g, c, rest, i + 1);
    } else {
        assert(s[i] == c);
    }
}

proof fn lemma_flyttet_siffer(s: Seq<char>, k: int, i: int)
    requires
        0 <= k <= s.len(),
        0 <= i,
    ensures
        i <= s.len() - k ==> forste_ikke_siffer(s.skip(k), i) + k == forste_ikke_siffer(s, i + k),
    decreases s.len() - i,
{
    if i + k < s.len() && number_text::is_digit(s[i + k]) {
        lemma_flyttet_siffer(s, k, i + 1);
    }
}

proof fn lemma_flyttede_grupper(s: Seq<char>, k: int, i: int)
    requires
        0 <= k <= s.len(),
        0 <= i <= s.len() - k,
    ensures
        siffergrupper(s.skip(k), i) == siffergrupper(s, i + k),
    decreases s.len() - k - i,
{
    let t = s.skip(k);
    lemma_flyttet_siffer(s, k, i);
    lemma_siffer_fram(t, i);
    let n = forste_ikke_siffer(t, i);
    if n >= t.len() {
        assert(t.subrange(i, t.len() as int) =~= s.subrange(i + k, s.len() as int));
    } else {
        lemma_flyttede_grupper(s, k, n + 1);
        assert(t.subrange(i, n) =~= s.subrange(i + k, n + k));
    }
}

proof fn lemma_siffer_fram(s: Seq<char>, i: int)
    requires
        0 <= i <= s.len(),
    ensures
        i <= forste_ikke_siffer(s, i) <= s.len(),
    decreases s.len() - i,
{
    if i < s.len() && number_text::is_digit(s[i]) {
        lemma_siffer_fram(s, i + 1);
    }
}

/// What is typed is cut wherever something other than a digit stands: the
/// digits before the first such mark are one group, and the rest is cut in the
/// same way.
pub proof fn law_siffergrupper(g: Seq<char>, c: char, rest: Seq<char>)
    requires
        number_text::all_digits(g),
        !number_text::is_digit(c),
    ensures
        siffergrupper(g + seq![c] + rest, 0) == seq![g] + siffergrupper(rest, 0),
        siffergrupper(g, 0) == seq![g],
{
    let s = g + seq![c] + rest;
    lemma_siffergruppe(g, c, rest, 0);
    assert(s.subrange(0, g.len() as int) =~= g);
    assert(s.skip(g.len() as int + 1) =~= rest);
    lemma_flyttede_grupper(s, g.len() as int + 1, 0);
    lemma_bare_siffer(g, 0);
    assert(g.subrange(0, g.len() as int) =~= g);
}

proof fn lemma_bare_siffer(g: Seq<char>, i: int)
    requires
        number_text::all_digits(g),
        0 <= i <= g.len(),
    ensures
        forste_ikke_siffer(g, i) == g.len(),
    decreases g.len() - i,
{
    if i < g.len() {
        assert(number_text::is_digit(g[i]));
        lemma_bare_siffer(g, i + 1);
    }
}

}
