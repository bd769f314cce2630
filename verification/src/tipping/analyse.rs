//! Counting the history and holding it against pure chance.
use vstd::prelude::*;

use crate::dato::Dato;
use crate::text::{chars_of, push_text, string_of};
use crate::tipping::historikk;
use crate::tipping::historikk::{Trekning, TrekningInnhold};
use crate::tipping::spill::Spill;

verus! {

/// A fraction; the denominator is never 0.
#[derive(Debug, Clone, Copy, PartialEq, Eq, Structural)]
pub struct Brok {
    pub teller: u128,
    pub nevner: u128,
}

/// Statistics of one number.
#[derive(Debug, Clone)]
pub struct TallStatistikk {
    pub tall: u8,
    pub antall: usize,
    /// How often the number is expected.
    pub forventet: Brok,
    /// The square of the standard deviation from what is expected.
    pub varians: Brok,
    pub sist_trukket: Option<Dato>,
}

#[derive(Debug, Clone)]
pub struct Analyse {
    pub spill: Spill,
    pub antall_trekninger: usize,
    pub forste: Dato,
    pub siste: Dato,
    pub hovedtall: Vec<TallStatistikk>,
    pub ekstra: Vec<TallStatistikk>,
    /// Chi-square of the main numbers against an even spread.
    pub chi2: Brok,
    pub chi2_frihetsgrader: usize,
    /// Whether the deviations lie well within what pure chance gives.
    pub innenfor_tilfeldighet: bool,
}

/// The main numbers or the extra numbers of a draw.
pub open spec fn felt(t: TrekningInnhold, ekstra: bool) -> Seq<u8> {
    if ekstra {
        t.ekstra
    } else {
        t.hovedtall
    }
}

pub open spec fn forekomster(s: Seq<u8>, tall: int) -> nat
    decreases s.len(),
{
    if s.len() == 0 {
        0
    } else {
        forekomster(s.drop_last(), tall) + (if s.last() == tall {
            1nat
        } else {
            0nat
        })
    }
}

/// How often a number was drawn.
pub open spec fn antall_av(ts: Seq<TrekningInnhold>, ekstra: bool, tall: int) -> nat
    decreases ts.len(),
{
    if ts.len() == 0 {
        0
    } else {
        antall_av(ts.drop_last(), ekstra, tall) + forekomster(felt(ts.last(), ekstra), tall)
    }
}

pub open spec fn innenfor(s: Seq<u8>, maks: int) -> nat
    decreases s.len(),
{
    if s.len() == 0 {
        0
    } else {
        innenfor(s.drop_last(), maks) + (if 1 <= s.last() <= maks {
            1nat
        } else {
            0nat
        })
    }
}

/// How many numbers from 1 to `maks` were drawn in all; numbers from older
/// rules are not counted.
pub open spec fn gyldige_trekk(ts: Seq<TrekningInnhold>, ekstra: bool, maks: int) -> nat
    decreases ts.len(),
{
    if ts.len() == 0 {
        0
    } else {
        gyldige_trekk(ts.drop_last(), ekstra, maks) + innenfor(felt(ts.last(), ekstra), maks)
    }
}

/// The last day on which a number was drawn.
pub open spec fn sist(ts: Seq<TrekningInnhold>, ekstra: bool, tall: int) -> Option<int>
    decreases ts.len(),
{
    if ts.len() == 0 {
        None
    } else {
        let p = sist(ts.drop_last(), ekstra, tall);
        if forekomster(felt(ts.last(), ekstra), tall) == 0 {
            p
        } else {
            match p {
                Some(d) => if ts.last().dag > d {
                    Some(ts.last().dag)
                } else {
                    Some(d)
                },
                None => Some(ts.last().dag),
            }
        }
    }
}

/// The counts of the numbers from 1 to `maks`, added up.
pub open spec fn sum_antall(ts: Seq<TrekningInnhold>, ekstra: bool, maks: nat) -> nat
    decreases maks,
{
    if maks == 0 {
        0
    } else {
        sum_antall(ts, ekstra, (maks - 1) as nat) + antall_av(ts, ekstra, maks as int)
    }
}

proof fn lemma_sum_en(s: Seq<u8>, maks: nat)
    ensures
        sum_forekomster(s, maks) == innenfor(s, maks as int),
    decreases s.len(),
{
    if s.len() == 0 {
        lemma_sum_tom(s, maks);
    } else {
        lemma_sum_en(s.drop_last(), maks);
        lemma_sum_siste(s, maks);
    }
}

spec fn sum_forekomster(s: Seq<u8>, maks: nat) -> nat
    decreases maks,
{
    if maks == 0 {
        0
    } else {
        sum_forekomster(s, (maks - 1) as nat) + forekomster(s, maks as int)
    }
}

proof fn lemma_sum_tom(s: Seq<u8>, maks: nat)
    requires
        s.len() == 0,
    ensures
        sum_forekomster(s, maks) == 0,
    decreases maks,
{
    if maks > 0 {
        lemma_sum_tom(s, (maks - 1) as nat);
    }
}

proof fn lemma_sum_siste(s: Seq<u8>, maks: nat)
    requires
        s.len() > 0,
    ensures
        sum_forekomster(s, maks) == sum_forekomster(s.drop_last(), maks) + (if 1 <= s.last() <= maks {
            1nat
        } else {
            0nat
        }),
    decreases maks,
{
    if maks > 0 {
        lemma_sum_siste(s, (maks - 1) as nat);
    }
}

proof fn lemma_sum_legg_til(ts: Seq<TrekningInnhold>, ekstra: bool, maks: nat)
    requires
        ts.len() > 0,
    ensures
        sum_antall(ts, ekstra, maks) == sum_antall(ts.drop_last(), ekstra, maks) + sum_forekomster(
            felt(ts.last(), ekstra),
            maks,
        ),
    decreases maks,
{
    if maks > 0 {
        lemma_sum_legg_til(ts, ekstra, (maks - 1) as nat);
    }
}

/// The counts of the single numbers add up to the number of valid draws.
pub proof fn law_antallene_summerer(ts: Seq<TrekningInnhold>, ekstra: bool, maks: nat)
    ensures
        sum_antall(ts, ekstra, maks) == gyldige_trekk(ts, ekstra, maks as int),
    decreases ts.len(),
{
    if ts.len() == 0 {
        lemma_sum_null(ts, ekstra, maks);
    } else {
        law_antallene_summerer(ts.drop_last(), ekstra, maks);
        lemma_sum_legg_til(ts, ekstra, maks);
        lemma_sum_en(felt(ts.last(), ekstra), maks);
    }
}

proof fn lemma_sum_null(ts: Seq<TrekningInnhold>, ekstra: bool, maks: nat)
    requires
        ts.len() == 0,
    ensures
        sum_antall(ts, ekstra, maks) == 0,
    decreases maks,
{
    if maks > 0 {
        lemma_sum_null(ts, ekstra, (maks - 1) as nat);
    }
}

/// A number was last drawn on some day if and only if it was drawn at all, and
/// no draw of it is later.
pub proof fn law_sist_trukket(ts: Seq<TrekningInnhold>, ekstra: bool, tall: int)
    ensures
        sist(ts, ekstra, tall) is Some == (antall_av(ts, ekstra, tall) > 0),
        sist(ts, ekstra, tall) matches Some(d) ==> forall|i: int|
            0 <= i < ts.len() && forekomster(felt(#[trigger] ts[i], ekstra), tall) > 0 ==> ts[i].dag
                <= d,
    decreases ts.len(),
{
    if ts.len() > 0 {
        let d = ts.drop_last();
        law_sist_trukket(d, ekstra, tall);
        assert forall|i: int| 0 <= i < ts.len() - 1 implies ts[i] == #[trigger] d[i] by {}
        if let Some(s) = sist(ts, ekstra, tall) {
            assert forall|i: int|
                0 <= i < ts.len() && forekomster(felt(#[trigger] ts[i], ekstra), tall) > 0 implies ts[i].dag
                <= s by {
                if i < ts.len() - 1 {
                    assert(ts[i] == d[i]);
                    lemma_talt(d, ekstra, tall, i);
                }
            }
        }
    }
}

proof fn lemma_talt(ts: Seq<TrekningInnhold>, ekstra: bool, tall: int, i: int)
    requires
        0 <= i < ts.len(),
        forekomster(felt(ts[i], ekstra), tall) > 0,
    ensures
        antall_av(ts, ekstra, tall) > 0,
    decreases ts.len(),
{
    if i < ts.len() - 1 {
        lemma_talt(ts.drop_last(), ekstra, tall, i);
    }
}

pub open spec fn statistikk(
    s: TallStatistikk,
    ts: Seq<TrekningInnhold>,
    ekstra: bool,
    tall: int,
    maks: nat,
    antall: nat,
) -> bool {
    let g = gyldige_trekk(ts, ekstra, maks as int);
    &&& s.tall == tall
    &&& s.antall == antall_av(ts, ekstra, tall)
    &&& s.forventet.teller == g
    &&& s.forventet.nevner == maks
    &&& s.varians.teller == g * (maks - antall)
    &&& s.varians.nevner == maks * maks
    &&& (match s.sist_trukket {
        Some(d) => sist(ts, ekstra, tall) == Some(d.dag as int),
        None => sist(ts, ekstra, tall) is None,
    })
}

/// The numerator of chi-square over the numbers from 1 to `tall`: the squared
/// deviations, each taken `maks` times.
pub open spec fn avvik(ts: Seq<TrekningInnhold>, maks: nat, tall: nat) -> nat
    decreases tall,
{
    if tall == 0 {
        0
    } else {
        let d = maks * antall_av(ts, false, tall as int) - gyldige_trekk(ts, false, maks as int);
        avvik(ts, maks, (tall - 1) as nat) + (d * d) as nat
    }
}

/// Whether chi-square is less than three standard deviations above its mean:
/// `chi2 < f + 3 * sqrt(2 * f)`, with f degrees of freedom.
pub open spec fn under_grensen(teller: int, nevner: int, f: int) -> bool {
    let x = teller - f * nevner;
    x < 0 || x * x < 18 * f * (nevner * nevner)
}

pub open spec fn alle_tall(ts: Seq<TrekningInnhold>) -> nat
    decreases ts.len(),
{
    if ts.len() == 0 {
        0
    } else {
        alle_tall(ts.drop_last()) + ts.last().hovedtall.len() + ts.last().ekstra.len()
    }
}

pub open spec fn forste_dag(ts: Seq<TrekningInnhold>, d: int) -> bool {
    (exists|i: int| 0 <= i < ts.len() && (#[trigger] ts[i]).dag == d) && (forall|i: int|
        0 <= i < ts.len() ==> d <= (#[trigger] ts[i]).dag)
}

pub open spec fn siste_dag(ts: Seq<TrekningInnhold>, d: int) -> bool {
    (exists|i: int| 0 <= i < ts.len() && (#[trigger] ts[i]).dag == d) && (forall|i: int|
        0 <= i < ts.len() ==> (#[trigger] ts[i]).dag <= d)
}

/// More numbers than any machine holds; up to this many, chi-square can be held
/// against its bound in 128 bits.
pub const MEST: u64 = 0x4_0000_0000_0000;

fn tell_i(s: &Vec<u8>, tall: u8) -> (r: usize)
    ensures
        r == forekomster(s@, tall as int),
        r <= s@.len(),
{
    let mut n: usize = 0;
    let mut i: usize = 0;
    while i < s.len()
        invariant
            i <= s@.len(),
            n == forekomster(s@.take(i as int), tall as int),
            n <= i,
        decreases s.len() - i,
    {
        assert(s@.take(i + 1).drop_last() =~= s@.take(i as int));
        if s[i] == tall {
            n += 1;
        }
        i += 1;
    }
    assert(s@.take(i as int) =~= s@);
    n
}

fn tell_innenfor(s: &Vec<u8>, maks: u8) -> (r: usize)
    ensures
        r == innenfor(s@, maks as int),
        r <= s@.len(),
{
    let mut n: usize = 0;
    let mut i: usize = 0;
    while i < s.len()
        invariant
            i <= s@.len(),
            n == innenfor(s@.take(i as int), maks as int),
            n <= i,
        decreases s.len() - i,
    {
        assert(s@.take(i + 1).drop_last() =~= s@.take(i as int));
        if 1 <= s[i] && s[i] <= maks {
            n += 1;
        }
        i += 1;
    }
    assert(s@.take(i as int) =~= s@);
    n
}

proof fn lemma_alle_tall(ts: Seq<TrekningInnhold>, i: int)
    requires
        0 <= i <= ts.len(),
    ensures
        alle_tall(ts.take(i)) <= alle_tall(ts),
    decreases ts.len() - i,
{
    if i == ts.len() {
        assert(ts.take(i) =~= ts);
    } else {
        lemma_alle_tall(ts, i + 1);
        assert(ts.take(i + 1).drop_last() =~= ts.take(i));
    }
}

/// Goes through the history once for one number.
fn tell(trekninger: &Vec<Trekning>, ekstra: bool, tall: u8) -> (r: (usize, Option<Dato>))
    requires
        alle_tall(historikk::innhold(trekninger@)) <= MEST,
        alle_tall(historikk::innhold(trekninger@)) <= usize::MAX,
    ensures
        r.0 == antall_av(historikk::innhold(trekninger@), ekstra, tall as int),
        r.0 <= MEST,
        (match r.1 {
            Some(d) => sist(historikk::innhold(trekninger@), ekstra, tall as int) == Some(d.dag as int),
            None => sist(historikk::innhold(trekninger@), ekstra, tall as int) is None,
        }),
{
    let ghost ts = historikk::innhold(trekninger@);
    let mut n: usize = 0;
    let mut d: Option<Dato> = None;
    let mut i: usize = 0;
    assert(ts.take(0) =~= Seq::empty());
    while i < trekninger.len()
        invariant
            i <= trekninger@.len(),
            ts == historikk::innhold(trekninger@),
            alle_tall(ts) <= MEST,
            alle_tall(ts) <= usize::MAX,
            n == antall_av(ts.take(i as int), ekstra, tall as int),
            n <= alle_tall(ts.take(i as int)),
            (match d {
                Some(x) => sist(ts.take(i as int), ekstra, tall as int) == Some(x.dag as int),
                None => sist(ts.take(i as int), ekstra, tall as int) is None,
            }),
        decreases trekninger.len() - i,
    {
        let t: &Trekning = &trekninger[i];
        proof {
            assert(ts.take(i + 1).drop_last() =~= ts.take(i as int));
            assert(ts.take(i + 1).last() == t@);
            lemma_alle_tall(ts, i + 1);
        }
        let her: usize = if ekstra {
            tell_i(&t.ekstra, tall)
        } else {
            tell_i(&t.hovedtall, tall)
        };
        n += her;
        if her > 0 {
            d = match d {
                Some(x) => if t.dato.dag > x.dag {
                    Some(t.dato)
                } else {
                    Some(x)
                },
                None => Some(t.dato),
            };
        }
        i += 1;
    }
    assert(ts.take(i as int) =~= ts);
    (n, d)
}

fn tell_gyldige(trekninger: &Vec<Trekning>, ekstra: bool, maks: u8) -> (r: usize)
    requires
        alle_tall(historikk::innhold(trekninger@)) <= MEST,
        alle_tall(historikk::innhold(trekninger@)) <= usize::MAX,
    ensures
        r == gyldige_trekk(historikk::innhold(trekninger@), ekstra, maks as int),
        r <= MEST,
{
    let ghost ts = historikk::innhold(trekninger@);
    let mut n: usize = 0;
    let mut i: usize = 0;
    assert(ts.take(0) =~= Seq::empty());
    while i < trekninger.len()
        invariant
            i <= trekninger@.len(),
            ts == historikk::innhold(trekninger@),
            alle_tall(ts) <= MEST,
            alle_tall(ts) <= usize::MAX,
            n == gyldige_trekk(ts.take(i as int), ekstra, maks as int),
            n <= alle_tall(ts.take(i as int)),
        decreases trekninger.len() - i,
    {
        let t: &Trekning = &trekninger[i];
        proof {
            assert(ts.take(i + 1).drop_last() =~= ts.take(i as int));
            assert(ts.take(i + 1).last() == t@);
            lemma_alle_tall(ts, i + 1);
        }
        let her: usize = if ekstra {
            tell_innenfor(&t.ekstra, maks)
        } else {
            tell_innenfor(&t.hovedtall, maks)
        };
        n += her;
        i += 1;
    }
    assert(ts.take(i as int) =~= ts);
    n
}

/// The statistics of the numbers from 1 to `maks`.
fn tell_opp(trekninger: &Vec<Trekning>, ekstra: bool, maks: u8, antall: usize) -> (r: Vec<TallStatistikk>)
    requires
        alle_tall(historikk::innhold(trekninger@)) <= MEST,
        alle_tall(historikk::innhold(trekninger@)) <= usize::MAX,
        antall <= maks,
        maks < 255,
    ensures
        r@.len() == maks,
        forall|i: int|
            0 <= i < r@.len() ==> statistikk(
                #[trigger] r@[i],
                historikk::innhold(trekninger@),
                ekstra,
                i + 1,
                maks as nat,
                antall as nat,
            ),
        forall|i: int| 0 <= i < r@.len() ==> (#[trigger] r@[i]).antall <= MEST,
{
    let g: usize = tell_gyldige(trekninger, ekstra, maks);
    let mut ut: Vec<TallStatistikk> = Vec::new();
    let mut tall: u8 = 1;
    while tall <= maks
        invariant
            1 <= tall <= maks + 1,
            maks < 255,
            antall <= maks,
            alle_tall(historikk::innhold(trekninger@)) <= MEST,
        alle_tall(historikk::innhold(trekninger@)) <= usize::MAX,
            g == gyldige_trekk(historikk::innhold(trekninger@), ekstra, maks as int),
            g <= MEST,
            ut@.len() == tall - 1,
            forall|i: int|
                0 <= i < ut@.len() ==> statistikk(
                    #[trigger] ut@[i],
                    historikk::innhold(trekninger@),
                    ekstra,
                    i + 1,
                    maks as nat,
                    antall as nat,
                ),
            forall|i: int| 0 <= i < ut@.len() ==> (#[trigger] ut@[i]).antall <= MEST,
        decreases maks + 1 - tall,
    {
        let (n, d): (usize, Option<Dato>) = tell(trekninger, ekstra, tall);
        assert(g * (maks - antall) <= 0x4_0000_0000_0000 * 255) by (nonlinear_arith)
            requires
                g <= 0x4_0000_0000_0000,
                0 <= maks - antall <= 255,
        ;
        assert(maks * maks <= 255 * 255) by (nonlinear_arith)
            requires
                0 <= maks < 255,
        ;
        let s: TallStatistikk = TallStatistikk {
            tall,
            antall: n,
            forventet: Brok { teller: g as u128, nevner: maks as u128 },
            varians: Brok {
                teller: g as u128 * (maks as usize - antall) as u128,
                nevner: maks as u128 * maks as u128,
            },
            sist_trukket: d,
        };
        ut.push(s);
        tall += 1;
    }
    ut
}

fn forste_og_siste(trekninger: &Vec<Trekning>) -> (r: (Dato, Dato))
    requires
        trekninger@.len() > 0,
    ensures
        forste_dag(historikk::innhold(trekninger@), r.0.dag as int),
        siste_dag(historikk::innhold(trekninger@), r.1.dag as int),
{
    let ghost ts = historikk::innhold(trekninger@);
    let mut a: usize = 0;
    let mut b: usize = 0;
    let mut i: usize = 0;
    while i < trekninger.len()
        invariant
            i <= trekninger@.len(),
            trekninger@.len() > 0,
            a < trekninger@.len(),
            b < trekninger@.len(),
            forall|j: int| 0 <= j < i ==> trekninger@[a as int].dato.dag <= (#[trigger] trekninger@[j]).dato.dag,
            forall|j: int| 0 <= j < i ==> trekninger@[b as int].dato.dag >= (#[trigger] trekninger@[j]).dato.dag,
        decreases trekninger.len() - i,
    {
        if trekninger[i].dato.dag < trekninger[a].dato.dag {
            a = i;
        }
        if trekninger[i].dato.dag > trekninger[b].dato.dag {
            b = i;
        }
        i += 1;
    }
    assert(ts[a as int].dag == trekninger@[a as int].dato.dag);
    assert(ts[b as int].dag == trekninger@[b as int].dato.dag);
    assert forall|j: int| 0 <= j < ts.len() implies trekninger@[a as int].dato.dag <= (#[trigger] ts[j]).dag
        && ts[j].dag <= trekninger@[b as int].dato.dag by {
        assert(ts[j].dag == trekninger@[j].dato.dag);
    }
    (trekninger[a].dato, trekninger[b].dato)
}

/// The sum of the squared deviations.
fn sum_avvik(hovedtall: &Vec<TallStatistikk>, Ghost(ts): Ghost<Seq<TrekningInnhold>>, maks: u8, g: usize) -> (r: u128)
    requires
        hovedtall@.len() == maks,
        maks <= 50,
        g <= MEST,
        g == gyldige_trekk(ts, false, maks as int),
        forall|i: int|
            0 <= i < hovedtall@.len() ==> (#[trigger] hovedtall@[i]).antall == antall_av(ts, false, i + 1)
                && hovedtall@[i].antall <= MEST,
    ensures
        r == avvik(ts, maks as nat, maks as nat),
        r <= 50 * 0x1_0000_0000_0000_0000_0000_0000_0000,
{
    let mut sum: u128 = 0;
    let mut i: usize = 0;
    while i < hovedtall.len()
        invariant
            i <= hovedtall@.len(),
            hovedtall@.len() == maks,
            maks <= 50,
            g <= MEST,
            g == gyldige_trekk(ts, false, maks as int),
            forall|j: int|
                0 <= j < hovedtall@.len() ==> (#[trigger] hovedtall@[j]).antall == antall_av(
                    ts,
                    false,
                    j + 1,
                ) && hovedtall@[j].antall <= MEST,
            sum == avvik(ts, maks as nat, i as nat),
            sum <= i * 0x1_0000_0000_0000_0000_0000_0000_0000,
        decreases hovedtall.len() - i,
    {
        let n: usize = hovedtall[i].antall;
        assert(0 <= maks * n <= 0x100_0000_0000_0000) by (nonlinear_arith)
            requires
                0 <= maks <= 50,
                0 <= n <= 0x4_0000_0000_0000,
        ;
        let d: i128 = maks as i128 * n as i128 - g as i128;
        assert(-0x100_0000_0000_0000 <= d <= 0x100_0000_0000_0000);
        assert(0 <= d * d <= 0x1_0000_0000_0000_0000_0000_0000_0000) by (nonlinear_arith)
            requires
                -0x100_0000_0000_0000 <= d <= 0x100_0000_0000_0000,
        ;
        assert(maks * antall_av(ts, false, i + 1) == maks * n);
        sum += (d * d) as u128;
        i += 1;
    }
    sum
}

fn grense(teller: u128, nevner: u128, f: usize) -> (r: bool)
    requires
        teller <= 50 * 0x1_0000_0000_0000_0000_0000_0000_0000,
        nevner <= 0x100_0000_0000_0000,
        f <= 49,
    ensures
        r == under_grensen(teller as int, nevner as int, f as int),
{
    assert(0 <= f * nevner <= 49 * 0x100_0000_0000_0000) by (nonlinear_arith)
        requires
            0 <= f <= 49,
            0 <= nevner <= 0x100_0000_0000_0000,
    ;
    let x: i128 = teller as i128 - (f as i128) * (nevner as i128);
    if x < 0 {
        return true;
    }
    let n: i128 = nevner as i128;
    assert(0 <= n * n <= 0x100_0000_0000_0000 * 0x100_0000_0000_0000) by (nonlinear_arith)
        requires
            0 <= n <= 0x100_0000_0000_0000,
    ;
    assert(0 <= 18 * f * (n * n) <= 900 * (n * n)) by (nonlinear_arith)
        requires
            0 <= f <= 49,
            0 <= n * n,
    ;
    // Far above: 18 times 49 is less than the square of 30.
    if x >= 30 * n {
        assert(x * x >= 900 * (n * n)) by (nonlinear_arith)
            requires
                x >= 30 * n,
                n >= 0,
        ;
        return false;
    }
    assert(0 <= x * x <= 900 * (n * n)) by (nonlinear_arith)
        requires
            0 <= x < 30 * n,
    ;
    x * x < 18 * (f as i128) * (n * n)
}

/// What an analysis says of a history.
pub open spec fn er_analyse(a: Analyse, spill: Spill, ts: Seq<TrekningInnhold>) -> bool {
    let maks = spill.maks_spec();
    let g = gyldige_trekk(ts, false, maks as int);
    &&& a.spill == spill
    &&& a.antall_trekninger == ts.len()
    &&& forste_dag(ts, a.forste.dag as int)
    &&& siste_dag(ts, a.siste.dag as int)
    &&& a.hovedtall@.len() == maks
    &&& forall|i: int|
        0 <= i < a.hovedtall@.len() ==> statistikk(
            #[trigger] a.hovedtall@[i],
            ts,
            false,
            i + 1,
            maks,
            spill.antall_spec(),
        )
    &&& a.ekstra@.len() == spill.ekstra_maks_spec()
    &&& forall|i: int|
        0 <= i < a.ekstra@.len() ==> statistikk(
            #[trigger] a.ekstra@[i],
            ts,
            true,
            i + 1,
            spill.ekstra_maks_spec(),
            spill.ekstra_antall_spec(),
        )
    &&& a.chi2.teller == avvik(ts, maks, maks)
    &&& a.chi2.nevner == (if g == 0 {
        1
    } else {
        maks * g
    })
    &&& a.chi2_frihetsgrader == maks - 1
    &&& a.innenfor_tilfeldighet == under_grensen(
        a.chi2.teller as int,
        a.chi2.nevner as int,
        maks - 1,
    )
}

/// Counts the history. Numbers outside today's range are not counted. There is
/// nothing to say of a history without draws.
pub fn analyser(spill: Spill, trekninger: &Vec<Trekning>) -> (r: Result<Analyse, String>)
    requires
        alle_tall(historikk::innhold(trekninger@)) <= MEST,
        alle_tall(historikk::innhold(trekninger@)) <= usize::MAX,
    ensures
        match r {
            Ok(a) => trekninger@.len() > 0 && er_analyse(a, spill, historikk::innhold(trekninger@)),
            Err(e) => trekninger@.len() == 0 && e@ == "ingen trekninger å analysere for "@ + spill.navn_spec(),
        },
{
    if trekninger.len() == 0 {
        let mut ut: Vec<char> = chars_of("ingen trekninger å analysere for ");
        push_text(&mut ut, spill.navn());
        return Err(string_of(ut.as_slice()));
    }
    let ghost ts = historikk::innhold(trekninger@);
    let maks: u8 = spill.hovedtall_maks();
    let g: usize = tell_gyldige(trekninger, false, maks);
    let hovedtall: Vec<TallStatistikk> = tell_opp(trekninger, false, maks, spill.hovedtall_antall());
    let ekstra: Vec<TallStatistikk> = tell_opp(trekninger, true, spill.ekstra_maks(), spill.ekstra_antall());
    let (forste, siste): (Dato, Dato) = forste_og_siste(trekninger);
    assert forall|i: int| 0 <= i < hovedtall@.len() implies (#[trigger] hovedtall@[i]).antall == antall_av(ts, false, i + 1)
        && hovedtall@[i].antall <= MEST by {
        assert(statistikk(hovedtall@[i], ts, false, i + 1, maks as nat, spill.antall_spec()));
    }
    let teller: u128 = sum_avvik(&hovedtall, Ghost(ts), maks, g);
    assert(0 <= maks * g <= 0x100_0000_0000_0000) by (nonlinear_arith)
        requires
            0 <= maks <= 50,
            0 <= g <= 0x4_0000_0000_0000,
    ;
    let nevner: u128 = if g == 0 {
        1
    } else {
        maks as u128 * g as u128
    };
    let f: usize = maks as usize - 1;
    let innenfor_her: bool = grense(teller, nevner, f);
    Ok(
        Analyse {
            spill,
            antall_trekninger: trekninger.len(),
            forste,
            siste,
            hovedtall,
            ekstra,
            chi2: Brok { teller, nevner },
            chi2_frihetsgrader: f,
            innenfor_tilfeldighet: innenfor_her,
        },
    )
}

// ---------------------------------------------------------------------------
// What the counts are
// ---------------------------------------------------------------------------

/// A number is counted as often as it stands among the numbers that were drawn.
pub proof fn law_forekomster(s: Seq<u8>, tall: int)
    ensures
        forekomster(s, tall) == s.filter(|t: u8| t == tall).len(),
    decreases s.len(),
{
    reveal(Seq::filter);
    if s.len() > 0 {
        law_forekomster(s.drop_last(), tall);
    }
}

/// Draws are counted one by one: what two histories hold of a number together is what
/// the one and the other hold of it, and one draw holds it as often as it stands among
/// its main numbers, or its extra ones.
pub proof fn law_antall_legges_sammen(a: Seq<TrekningInnhold>, b: Seq<TrekningInnhold>, t: TrekningInnhold, tall: int)
    ensures
        antall_av(a + b, false, tall) == antall_av(a, false, tall) + antall_av(b, false, tall),
        antall_av(a + b, true, tall) == antall_av(a, true, tall) + antall_av(b, true, tall),
        antall_av(seq![t], false, tall) == t.hovedtall.filter(|x: u8| x == tall).len(),
        antall_av(seq![t], true, tall) == t.ekstra.filter(|x: u8| x == tall).len(),
    decreases b.len(),
{
    reveal_with_fuel(antall_av, 2);
    law_forekomster(t.hovedtall, tall);
    law_forekomster(t.ekstra, tall);
    assert(seq![t].drop_last() =~= Seq::empty());
    if b.len() == 0 {
        assert(a + b =~= a);
    } else {
        law_antall_legges_sammen(a, b.drop_last(), t, tall);
        assert((a + b).drop_last() =~= a + b.drop_last());
        assert((a + b).last() == b.last());
    }
}

/// The day on which a number was last drawn is the day of a draw that holds it.
pub proof fn law_sist_var_en_trekning(ts: Seq<TrekningInnhold>, ekstra: bool, tall: int)
    ensures
        sist(ts, ekstra, tall) matches Some(d) ==> exists|i: int|
            0 <= i < ts.len() && (#[trigger] ts[i]).dag == d && forekomster(felt(ts[i], ekstra), tall) > 0,
    decreases ts.len(),
{
    if ts.len() > 0 {
        let d = ts.drop_last();
        law_sist_var_en_trekning(d, ekstra, tall);
        if let Some(dag) = sist(ts, ekstra, tall) {
            if sist(d, ekstra, tall) == Some(dag) {
                let i = choose|i: int|
                    0 <= i < d.len() && (#[trigger] d[i]).dag == dag && forekomster(felt(d[i], ekstra), tall) > 0;
                assert(ts[i] == d[i]);
            } else {
                assert(ts[ts.len() - 1].dag == dag);
            }
        }
    }
}

/// How often the numbers of an analysis were drawn, added up.
pub open spec fn trukket_i_alt(l: Seq<TallStatistikk>) -> int {
    l.fold_left(0int, |s: int, t: TallStatistikk| s + t.antall)
}

/// The squared deviations of the counts from what each number is expected to have,
/// each taken as many times as there are numbers.
pub open spec fn kvadrater(l: Seq<TallStatistikk>, maks: int, alle: int) -> int {
    l.fold_left(0int, |s: int, t: TallStatistikk| s + (maks * t.antall - alle) * (maks * t.antall - alle))
}

/// An analysis answers to its own counts: every number is expected an equal share of
/// all that were drawn, and chi-square is the squared deviations from that share over
/// the share, added up.
pub proof fn law_chi_kvadrat(a: Analyse, spill: Spill, ts: Seq<TrekningInnhold>, i: int)
    requires
        er_analyse(a, spill, ts),
        0 <= i < a.hovedtall@.len(),
    ensures
        ({
            let maks = a.hovedtall@.len() as int;
            let alle = trukket_i_alt(a.hovedtall@);
            &&& a.hovedtall@[i].forventet.teller * maks == alle * a.hovedtall@[i].forventet.nevner
            &&& a.chi2_frihetsgrader == maks - 1
            &&& alle > 0 ==> a.chi2.teller * (maks * alle) == kvadrater(a.hovedtall@, maks, alle) * a.chi2.nevner
        }),
{
    let maks = spill.maks_spec();
    let g = gyldige_trekk(ts, false, maks as int);
    law_antallene_summerer(ts, false, maks);
    lemma_summene(a.hovedtall@, ts, spill, maks);
    assert(a.hovedtall@.take(maks as int) =~= a.hovedtall@);
    assert(statistikk(a.hovedtall@[i], ts, false, i + 1, maks, spill.antall_spec()));
    assert(g * maks == maks * g) by (nonlinear_arith);
}

proof fn lemma_summene(l: Seq<TallStatistikk>, ts: Seq<TrekningInnhold>, spill: Spill, n: nat)
    requires
        n <= l.len(),
        l.len() == spill.maks_spec(),
        forall|i: int|
            0 <= i < l.len() ==> statistikk(
                #[trigger] l[i],
                ts,
                false,
                i + 1,
                spill.maks_spec(),
                spill.antall_spec(),
            ),
    ensures
        trukket_i_alt(l.take(n as int)) == sum_antall(ts, false, n),
        kvadrater(l.take(n as int), spill.maks_spec() as int, gyldige_trekk(ts, false, spill.maks_spec() as int) as int)
            == avvik(ts, spill.maks_spec(), n),
    decreases n,
{
    if n > 0 {
        lemma_summene(l, ts, spill, (n - 1) as nat);
        let t = l.take(n as int);
        assert(t.drop_last() =~= l.take(n - 1));
        assert(t.last() == l[n - 1]);
        assert(statistikk(l[n - 1], ts, false, n as int, spill.maks_spec(), spill.antall_spec()));
        let d = spill.maks_spec() * antall_av(ts, false, n as int) - gyldige_trekk(
            ts,
            false,
            spill.maks_spec() as int,
        );
        assert(d * d >= 0) by (nonlinear_arith);
    }
}

/// Chi-square is within chance exactly when it is less than three standard deviations
/// over its mean: below every fraction that is at most the root, over the mean, it is
/// within, and from every fraction that is at least the root on it is not.
pub proof fn law_grensen_er_roten(teller: int, nevner: int, f: int, p: int, q: int)
    requires
        nevner > 0,
        f >= 0,
        p >= 0,
        q > 0,
    ensures
        p * p <= 18 * f * (q * q) && (teller - f * nevner) * q < p * nevner ==> under_grensen(teller, nevner, f),
        p * p >= 18 * f * (q * q) && (teller - f * nevner) * q >= p * nevner ==> !under_grensen(teller, nevner, f),
{
    let x = teller - f * nevner;
    let g = 18 * f;
    if x >= 0 {
        let a = x * q;
        let b = p * nevner;
        assert(a >= 0 && b >= 0) by (nonlinear_arith)
            requires
                a == x * q,
                b == p * nevner,
                x >= 0,
                q > 0,
                p >= 0,
                nevner > 0,
        ;
        assert(a * a == (x * x) * (q * q) && b * b == (p * p) * (nevner * nevner)) by (nonlinear_arith)
            requires
                a == x * q,
                b == p * nevner,
        ;
        let n2 = nevner * nevner;
        let q2 = q * q;
        assert(n2 > 0 && q2 > 0) by (nonlinear_arith)
            requires
                n2 == nevner * nevner,
                q2 == q * q,
                nevner > 0,
                q > 0,
        ;
        let x2 = x * x;
        let p2 = p * p;
        if p2 <= g * q2 && a < b {
            assert(a * a < b * b) by (nonlinear_arith)
                requires
                    0 <= a < b,
            ;
            assert(x2 < g * n2) by (nonlinear_arith)
                requires
                    x2 * q2 < p2 * n2,
                    p2 <= g * q2,
                    n2 > 0,
                    q2 > 0,
            {
                assert(p2 * n2 <= (g * q2) * n2);
                assert((g * q2) * n2 == (g * n2) * q2);
            }
        }
        if p2 >= g * q2 && a >= b {
            assert(a * a >= b * b) by (nonlinear_arith)
                requires
                    a >= b,
                    b >= 0,
            ;
            assert(x2 >= g * n2) by (nonlinear_arith)
                requires
                    x2 * q2 >= p2 * n2,
                    p2 >= g * q2,
                    n2 > 0,
                    q2 > 0,
            {
                assert(p2 * n2 >= (g * q2) * n2);
                assert((g * q2) * n2 == (g * n2) * q2);
            }
        }
    } else {
        assert(x * q < 0 && p * nevner >= 0) by (nonlinear_arith)
            requires
                x < 0,
                q > 0,
                p >= 0,
                nevner > 0,
        ;
    }
}

}
