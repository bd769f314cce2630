//! Rows that few others play.
use vstd::prelude::*;

use crate::number_text;
use crate::order;
use crate::text;
use crate::text::{push_all, push_text, string_of};
use crate::tipping::historikk::kopi_tall;
use crate::tipping::spill::Spill;

verus! {

// ---------------------------------------------------------------------------
// Random numbers
// ---------------------------------------------------------------------------

/// The state after one step of xorshift64.
pub open spec fn neste_tilstand(x: u64) -> u64 {
    let a = x ^ (x >> 12);
    let b = a ^ (a << 25);
    b ^ (b >> 27)
}

/// The number that a state gives out.
pub open spec fn utdata(x: u64) -> u64 {
    x.wrapping_mul(0x2545F4914F6CDD1D)
}

/// xorshift64*: quick, and the same numbers for the same seed.
pub struct Rng {
    pub tilstand: u64,
}

impl Rng {
    /// A generator for a seed; the seed 0 counts as 1.
    pub fn ny(fro: u64) -> (r: Rng)
        ensures
            r.tilstand == (if fro == 0 { 1 } else { fro }),
    {
        if fro == 0 {
            Rng { tilstand: 1 }
        } else {
            Rng { tilstand: fro }
        }
    }

    pub fn neste(&mut self) -> (r: u64)
        ensures
            final(self).tilstand == neste_tilstand(old(self).tilstand),
            r == utdata(neste_tilstand(old(self).tilstand)),
    {
        let x: u64 = self.tilstand;
        let a: u64 = x ^ (x >> 12);
        let b: u64 = a ^ (a << 25);
        let c: u64 = b ^ (b >> 27);
        self.tilstand = c;
        c.wrapping_mul(0x2545F4914F6CDD1D)
    }

    /// A number from 1 to `maks`.
    pub fn tall(&mut self, maks: u8) -> (r: u8)
        requires
            maks > 0,
        ensures
            final(self).tilstand == neste_tilstand(old(self).tilstand),
            r == trukket_tall(final(self).tilstand, maks),
            1 <= r <= maks,
    {
        let n: u64 = self.neste();
        (n % maks as u64) as u8 + 1
    }
}

/// The number from 1 to `maks` that a state gives.
pub open spec fn trukket_tall(tilstand: u64, maks: u8) -> u8 {
    (utdata(tilstand) % (maks as u64) + 1) as u8
}

/// A generator that does not stand at 0 never comes to 0, where it would stop.
pub proof fn law_tilstand_aldri_null(x: u64)
    requires
        x != 0,
    ensures
        neste_tilstand(x) != 0,
{
    assert(({
        let a = x ^ (x >> 12);
        let b = a ^ (a << 25);
        b ^ (b >> 27)
    }) != 0) by (bit_vector)
        requires
            x != 0,
    ;
}

// ---------------------------------------------------------------------------
// Popularity
// ---------------------------------------------------------------------------

pub open spec fn som_nokler(s: Seq<u8>) -> Seq<i128> {
    s.map_values(|t: u8| t as i128)
}

/// The numbers in order.
pub open spec fn sortert_tall(s: Seq<u8>) -> Seq<u8> {
    order::order_of(som_nokler(s)).map_values(|i: int| s[i])
}

pub open spec fn lykketall(t: u8) -> bool {
    t == 3 || t == 7 || t == 11 || t == 13 || t == 17
}

/// Points, in tenths, for a main number: days and months of birth, and the
/// numbers that people call lucky.
pub open spec fn tallpoeng(t: u8) -> nat {
    (if t <= 12 {
        20nat
    } else if t <= 31 {
        10nat
    } else {
        0nat
    }) + (if lykketall(t) {
        5nat
    } else {
        0nat
    })
}

/// Points, in tenths, for an extra number.
pub open spec fn ekstrapoeng(t: u8) -> nat {
    (if t <= 12 {
        5nat
    } else {
        0nat
    }) + (if lykketall(t) {
        3nat
    } else {
        0nat
    })
}

pub open spec fn sum_tallpoeng(s: Seq<u8>) -> nat
    decreases s.len(),
{
    if s.len() == 0 {
        0
    } else {
        sum_tallpoeng(s.drop_last()) + tallpoeng(s.last())
    }
}

pub open spec fn sum_ekstrapoeng(s: Seq<u8>) -> nat
    decreases s.len(),
{
    if s.len() == 0 {
        0
    } else {
        sum_ekstrapoeng(s.drop_last()) + ekstrapoeng(s.last())
    }
}

/// How many neighbours follow each other directly.
pub open spec fn nabopar(s: Seq<u8>) -> nat
    decreases s.len(),
{
    if s.len() < 2 {
        0
    } else {
        nabopar(s.drop_last()) + (if s.last() == s[s.len() - 2] + 1 {
            1nat
        } else {
            0nat
        })
    }
}

/// How many of the numbers end in the digit.
pub open spec fn med_sluttsiffer(s: Seq<u8>, siffer: int) -> nat
    decreases s.len(),
{
    if s.len() == 0 {
        0
    } else {
        med_sluttsiffer(s.drop_last(), siffer) + (if s.last() % 10 == siffer {
            1nat
        } else {
            0nat
        })
    }
}

/// Points for the digits below `siffer` that three or more numbers end in.
pub open spec fn sifferpoeng(s: Seq<u8>, siffer: nat) -> nat
    decreases siffer,
{
    if siffer == 0 {
        0
    } else {
        let n = med_sluttsiffer(s, siffer - 1);
        sifferpoeng(s, (siffer - 1) as nat) + (if n >= 3 {
            ((n - 2) * 15) as nat
        } else {
            0nat
        })
    }
}

/// Whether all neighbours lie equally far apart.
pub open spec fn jevn_avstand(s: Seq<u8>) -> bool {
    forall|i: int| 0 <= i < s.len() - 1 ==> #[trigger] avstand(s, i) == avstand(s, 0)
}

pub open spec fn avstand(s: Seq<u8>, i: int) -> int {
    s[i + 1] - s[i]
}

pub open spec fn antall_odde(s: Seq<u8>) -> nat
    decreases s.len(),
{
    if s.len() == 0 {
        0
    } else {
        antall_odde(s.drop_last()) + (if s.last() % 2 == 1 {
            1nat
        } else {
            0nat
        })
    }
}

/// Twice the distance from half odd and half even.
pub open spec fn skjevhet(s: Seq<u8>) -> nat {
    let d = 2 * antall_odde(s) - s.len();
    if d < 0 {
        (-d) as nat
    } else {
        d as nat
    }
}

pub open spec fn spredning(s: Seq<u8>) -> int {
    if s.len() == 0 {
        0
    } else {
        s.last() - s[0]
    }
}

/// Points for the patterns that numbers in order make.
pub open spec fn monsterpoeng(s: Seq<u8>) -> nat {
    15 * nabopar(s) + sifferpoeng(s, 10) + (if s.len() >= 3 && jevn_avstand(s) {
        100nat
    } else {
        0nat
    }) + (if spredning(s) < 3 * s.len() {
        30nat
    } else {
        0nat
    }) + (if skjevhet(s) > 3 {
        5 * skjevhet(s)
    } else {
        0nat
    })
}

/// How popular a row is, in tenths of a point for the whole row.
pub open spec fn poeng(hovedtall: Seq<u8>, ekstra: Seq<u8>) -> nat {
    sum_tallpoeng(hovedtall) + monsterpoeng(sortert_tall(hovedtall)) + sum_ekstrapoeng(ekstra)
}

/// Sorts numbers.
pub fn sorter_tall(s: &[u8]) -> (r: Vec<u8>)
    ensures
        r@ == sortert_tall(s@),
        r@.len() == s@.len(),
{
    let mut keys: Vec<i128> = Vec::new();
    let mut i: usize = 0;
    while i < s.len()
        invariant
            i <= s@.len(),
            keys@ == som_nokler(s@).take(i as int),
        decreases s.len() - i,
    {
        keys.push(s[i] as i128);
        i += 1;
        assert(keys@ =~= som_nokler(s@).take(i as int));
    }
    assert(keys@ =~= som_nokler(s@));
    let o: Vec<usize> = order::stable_order(&keys);
    let mut ut: Vec<u8> = Vec::new();
    let mut k: usize = 0;
    while k < o.len()
        invariant
            k <= o@.len(),
            keys@.len() == s@.len(),
            forall|j: int| 0 <= j < o@.len() ==> (#[trigger] o@[j]) < keys@.len(),
            ut@.len() == k,
            forall|j: int| 0 <= j < k ==> (#[trigger] ut@[j]) == s@[o@[j] as int],
        decreases o.len() - k,
    {
        ut.push(s[o[k]]);
        k += 1;
    }
    proof {
        let p = order::positions(o@);
        assert forall|j: int| 0 <= j < ut@.len() implies ut@[j] == sortert_tall(s@)[j] by {
            assert(p[j] == o@[j] as int);
        }
        assert(ut@ =~= sortert_tall(s@));
    }
    ut
}

fn lykkelig(t: u8) -> (r: bool)
    ensures
        r == lykketall(t),
{
    t == 3 || t == 7 || t == 11 || t == 13 || t == 17
}

fn poeng_for_tall(s: &[u8]) -> (r: u64)
    requires
        s@.len() <= 0x7f_ffff_ffff_ffff,
    ensures
        r == sum_tallpoeng(s@),
        r <= 25 * s@.len(),
{
    let mut sum: u64 = 0;
    let mut i: usize = 0;
    while i < s.len()
        invariant
            i <= s@.len(),
            s@.len() <= 0x7f_ffff_ffff_ffff,
            sum == sum_tallpoeng(s@.take(i as int)),
            sum <= 25 * i,
        decreases s.len() - i,
    {
        assert(s@.take(i + 1).drop_last() =~= s@.take(i as int));
        let t: u8 = s[i];
        if t <= 12 {
            sum += 20;
        } else if t <= 31 {
            sum += 10;
        }
        if lykkelig(t) {
            sum += 5;
        }
        i += 1;
    }
    assert(s@.take(i as int) =~= s@);
    sum
}

fn poeng_for_ekstra(s: &[u8]) -> (r: u64)
    requires
        s@.len() <= 0x7f_ffff_ffff_ffff,
    ensures
        r == sum_ekstrapoeng(s@),
        r <= 8 * s@.len(),
{
    let mut sum: u64 = 0;
    let mut i: usize = 0;
    while i < s.len()
        invariant
            i <= s@.len(),
            s@.len() <= 0x7f_ffff_ffff_ffff,
            sum == sum_ekstrapoeng(s@.take(i as int)),
            sum <= 8 * i,
        decreases s.len() - i,
    {
        assert(s@.take(i + 1).drop_last() =~= s@.take(i as int));
        let t: u8 = s[i];
        if t <= 12 {
            sum += 5;
        }
        if lykkelig(t) {
            sum += 3;
        }
        i += 1;
    }
    assert(s@.take(i as int) =~= s@);
    sum
}

fn tell_nabopar(s: &[u8]) -> (r: u64)
    requires
        s@.len() <= 0x7f_ffff_ffff_ffff,
    ensures
        r == nabopar(s@),
        r <= s@.len(),
{
    let mut n: u64 = 0;
    let mut i: usize = 0;
    while i < s.len()
        invariant
            i <= s@.len(),
            s@.len() <= 0x7f_ffff_ffff_ffff,
            n == nabopar(s@.take(i as int)),
            n <= i,
        decreases s.len() - i,
    {
        let ghost t = s@.take(i + 1);
        assert(t.drop_last() =~= s@.take(i as int));
        if i > 0 {
            assert(t[t.len() - 2] == s@[i - 1]);
            if s[i] as u32 == s[i - 1] as u32 + 1 {
                n += 1;
            }
        }
        i += 1;
    }
    assert(s@.take(i as int) =~= s@);
    n
}

fn tell_sluttsiffer(s: &[u8], siffer: u8) -> (r: u64)
    requires
        s@.len() <= 0x7f_ffff_ffff_ffff,
    ensures
        r == med_sluttsiffer(s@, siffer as int),
        r <= s@.len(),
{
    let mut n: u64 = 0;
    let mut i: usize = 0;
    while i < s.len()
        invariant
            i <= s@.len(),
            s@.len() <= 0x7f_ffff_ffff_ffff,
            n == med_sluttsiffer(s@.take(i as int), siffer as int),
            n <= i,
        decreases s.len() - i,
    {
        assert(s@.take(i + 1).drop_last() =~= s@.take(i as int));
        if s[i] % 10 == siffer {
            n += 1;
        }
        i += 1;
    }
    assert(s@.take(i as int) =~= s@);
    n
}

fn poeng_for_siffer(s: &[u8]) -> (r: u64)
    requires
        s@.len() <= 0x7f_ffff_ffff_ffff,
    ensures
        r == sifferpoeng(s@, 10),
        r <= 150 * s@.len(),
{
    let mut sum: u64 = 0;
    let mut d: u8 = 0;
    while d < 10
        invariant
            d <= 10,
            s@.len() <= 0x7f_ffff_ffff_ffff,
            sum == sifferpoeng(s@, d as nat),
            sum <= d * 15 * s@.len(),
        decreases 10 - d,
    {
        let n: u64 = tell_sluttsiffer(s, d);
        let ghost gammel = sum;
        if n >= 3 {
            assert(gammel <= 150 * 0x7f_ffff_ffff_ffff) by (nonlinear_arith)
                requires
                    gammel <= d * 15 * s@.len(),
                    d < 10,
                    s@.len() <= 0x7f_ffff_ffff_ffff,
            ;
            sum += (n - 2) * 15;
        }
        assert(sum <= (d + 1) * 15 * s@.len()) by (nonlinear_arith)
            requires
                gammel <= d * 15 * s@.len(),
                sum <= gammel + 15 * s@.len(),
        ;
        d += 1;
    }
    assert(sum <= 150 * s@.len()) by (nonlinear_arith)
        requires
            sum <= d * 15 * s@.len(),
            d == 10,
    ;
    sum
}

fn er_jevn(s: &[u8]) -> (r: bool)
    requires
        s@.len() >= 3,
    ensures
        r == jevn_avstand(s@),
{
    let forste: i32 = s[1] as i32 - s[0] as i32;
    assert(avstand(s@, 0) == forste);
    let mut i: usize = 0;
    while i < s.len() - 1
        invariant
            s@.len() >= 3,
            i <= s@.len() - 1,
            forste == avstand(s@, 0),
            forall|j: int| 0 <= j < i ==> #[trigger] avstand(s@, j) == avstand(s@, 0),
        decreases s.len() - i,
    {
        if s[i + 1] as i32 - s[i] as i32 != forste {
            assert(avstand(s@, i as int) != avstand(s@, 0));
            return false;
        }
        i += 1;
    }
    true
}

fn tell_odde(s: &[u8]) -> (r: usize)
    ensures
        r == antall_odde(s@),
        r <= s@.len(),
{
    let mut n: usize = 0;
    let mut i: usize = 0;
    while i < s.len()
        invariant
            i <= s@.len(),
            n == antall_odde(s@.take(i as int)),
            n <= i,
        decreases s.len() - i,
    {
        assert(s@.take(i + 1).drop_last() =~= s@.take(i as int));
        if s[i] % 2 == 1 {
            n += 1;
        }
        i += 1;
    }
    assert(s@.take(i as int) =~= s@);
    n
}

fn poeng_for_monster(s: &[u8]) -> (r: u64)
    requires
        s@.len() <= 0x7f_ffff_ffff_ffff,
    ensures
        r == monsterpoeng(s@),
        r <= 170 * s@.len() + 130,
{
    let mut sum: u64 = 15 * tell_nabopar(s) + poeng_for_siffer(s);
    if s.len() >= 3 && er_jevn(s) {
        sum += 100;
    }
    let avstand: i64 = if s.len() == 0 {
        0
    } else {
        s[s.len() - 1] as i64 - s[0] as i64
    };
    if avstand < 3 * (s.len() as i64) {
        sum += 30;
    }
    let odde: i64 = tell_odde(s) as i64;
    let d: i64 = 2 * odde - s.len() as i64;
    let skjev: u64 = if d < 0 {
        (-d) as u64
    } else {
        d as u64
    };
    assert(skjev == skjevhet(s@));
    if skjev > 3 {
        sum += 5 * skjev;
    }
    sum
}

/// How popular a row is: tenths of a point, shared out over the main numbers of
/// the game so that the games can be compared.
#[derive(Debug, Clone, Copy, PartialEq, Eq, Structural)]
pub struct Poengsum {
    pub tideler: u64,
    pub delt_paa: usize,
}

impl Poengsum {
    /// Whether this is more popular than `andre`.
    pub fn over(self, andre: Poengsum) -> (r: bool)
        ensures
            r == (self.tideler * andre.delt_paa > andre.tideler * self.delt_paa),
    {
        assert(self.tideler * andre.delt_paa <= u64::MAX * u64::MAX) by (nonlinear_arith)
            requires
                0 <= self.tideler <= u64::MAX,
                0 <= andre.delt_paa <= u64::MAX,
        ;
        assert(andre.tideler * self.delt_paa <= u64::MAX * u64::MAX) by (nonlinear_arith)
            requires
                0 <= andre.tideler <= u64::MAX,
                0 <= self.delt_paa <= u64::MAX,
        ;
        self.tideler as u128 * andre.delt_paa as u128 > andre.tideler as u128 * self.delt_paa as u128
    }
}

fn tideler(hovedtall: &[u8], ekstra: &[u8]) -> (r: u64)
    requires
        hovedtall@.len() <= 0x7f_ffff_ffff_ffff,
        ekstra@.len() <= 0x7f_ffff_ffff_ffff,
    ensures
        r == poeng(hovedtall@, ekstra@),
        r <= 195 * hovedtall@.len() + 130 + 8 * ekstra@.len(),
{
    let sortert: Vec<u8> = sorter_tall(hovedtall);
    poeng_for_tall(hovedtall) + poeng_for_monster(sortert.as_slice()) + poeng_for_ekstra(ekstra)
}

/// How popular a row is: how many others probably play it. People play
/// birthdays, lucky numbers and patterns. Lower is better.
pub fn popularitet(hovedtall: &[u8], ekstra: &[u8], spill: Spill) -> (r: Poengsum)
    requires
        hovedtall@.len() <= 0x7f_ffff_ffff_ffff,
        ekstra@.len() <= 0x7f_ffff_ffff_ffff,
    ensures
        r.tideler == poeng(hovedtall@, ekstra@),
        r.delt_paa == spill.antall_spec(),
{
    Poengsum { tideler: tideler(hovedtall, ekstra), delt_paa: spill.hovedtall_antall() }
}

// ---------------------------------------------------------------------------
// Candidates
// ---------------------------------------------------------------------------

/// How many rows are drawn before the least popular are picked.
pub const FORSOK: usize = 30_000;

/// A row: main numbers and extra numbers, each in order.
pub struct Kandidat {
    pub hovedtall: Vec<u8>,
    pub ekstra: Vec<u8>,
}

pub struct KandidatInnhold {
    pub hovedtall: Seq<u8>,
    pub ekstra: Seq<u8>,
}

impl View for Kandidat {
    type V = KandidatInnhold;

    open spec fn view(&self) -> KandidatInnhold {
        KandidatInnhold { hovedtall: self.hovedtall@, ekstra: self.ekstra@ }
    }
}

pub open spec fn kandidat_innhold(s: Seq<Kandidat>) -> Seq<KandidatInnhold> {
    s.map_values(|k: Kandidat| k@)
}

/// Draws until there are `n` different numbers, at most `igjen` more times: the
/// state after it and the numbers in the order in which they came.
pub open spec fn trukket(tilstand: u64, tall: Seq<u8>, n: nat, maks: u8, igjen: nat) -> (u64, Seq<u8>)
    decreases igjen,
{
    if tall.len() >= n || igjen == 0 {
        (tilstand, tall)
    } else {
        let s = neste_tilstand(tilstand);
        let t = trukket_tall(s, maks);
        trukket(
            s,
            if tall.contains(t) {
                tall
            } else {
                tall.push(t)
            },
            n,
            maks,
            (igjen - 1) as nat,
        )
    }
}

/// The bound on the draws for one row.
pub const TREKKGRENSE: u64 = 0xffff_ffff_ffff_ffff;

pub open spec fn ekstra_tak(spill: Spill) -> u8 {
    if spill.ekstra_maks_spec() == 0 {
        1
    } else {
        spill.ekstra_maks_spec() as u8
    }
}

/// The state and the rows after `k` drawings from a state.
pub open spec fn kandidater(spill: Spill, tilstand: u64, k: nat) -> (u64, Seq<KandidatInnhold>)
    decreases k,
{
    if k == 0 {
        (tilstand, Seq::empty())
    } else {
        let (s, l) = kandidater(spill, tilstand, (k - 1) as nat);
        let (s1, h) = trukket(s, Seq::empty(), spill.antall_spec(), spill.maks_spec() as u8, TREKKGRENSE as nat);
        let (s2, e) = trukket(s1, Seq::empty(), spill.ekstra_antall_spec(), ekstra_tak(spill), TREKKGRENSE as nat);
        (
            s2,
            if h.len() == spill.antall_spec() && e.len() == spill.ekstra_antall_spec() {
                l.push(KandidatInnhold { hovedtall: sortert_tall(h), ekstra: sortert_tall(e) })
            } else {
                l
            },
        )
    }
}

fn inneholder(s: &Vec<u8>, t: u8) -> (r: bool)
    ensures
        r == s@.contains(t),
{
    let mut i: usize = 0;
    while i < s.len()
        invariant
            i <= s@.len(),
            forall|j: int| 0 <= j < i ==> s@[j] != t,
        decreases s.len() - i,
    {
        if s[i] == t {
            return true;
        }
        i += 1;
    }
    false
}

fn trekk(rng: &mut Rng, n: usize, maks: u8) -> (r: Vec<u8>)
    requires
        maks > 0,
    ensures
        (final(rng).tilstand, r@) == trukket(
            old(rng).tilstand,
            Seq::empty(),
            n as nat,
            maks,
            TREKKGRENSE as nat,
        ),
{
    let mut ut: Vec<u8> = Vec::new();
    let mut igjen: u64 = TREKKGRENSE;
    assert(ut@ =~= Seq::<u8>::empty());
    while ut.len() < n && igjen > 0
        invariant
            maks > 0,
            trukket(rng.tilstand, ut@, n as nat, maks, igjen as nat) == trukket(
                old(rng).tilstand,
                Seq::empty(),
                n as nat,
                maks,
                TREKKGRENSE as nat,
            ),
        decreases igjen,
    {
        let t: u8 = rng.tall(maks);
        if !inneholder(&ut, t) {
            ut.push(t);
        }
        igjen -= 1;
    }
    ut
}

fn trekk_kandidater(spill: Spill, rng: &mut Rng) -> (r: Vec<Kandidat>)
    ensures
        kandidat_innhold(r@) == kandidater(spill, old(rng).tilstand, FORSOK as nat).1,
{
    let n: usize = spill.hovedtall_antall();
    let m: usize = spill.ekstra_antall();
    let maks: u8 = spill.hovedtall_maks();
    let tak: u8 = if spill.ekstra_maks() == 0 {
        1
    } else {
        spill.ekstra_maks()
    };
    let mut ut: Vec<Kandidat> = Vec::new();
    let mut k: usize = 0;
    assert(kandidat_innhold(ut@) =~= Seq::empty());
    while k < FORSOK
        invariant
            k <= FORSOK,
            n == spill.antall_spec(),
            m == spill.ekstra_antall_spec(),
            maks == spill.maks_spec(),
            maks > 0,
            tak == ekstra_tak(spill),
            tak > 0,
            (rng.tilstand, kandidat_innhold(ut@)) == kandidater(spill, old(rng).tilstand, k as nat),
        decreases FORSOK - k,
    {
        let ghost before = kandidat_innhold(ut@);
        let h: Vec<u8> = trekk(rng, n, maks);
        let e: Vec<u8> = trekk(rng, m, tak);
        if h.len() == n && e.len() == m {
            let ny: Kandidat = Kandidat { hovedtall: sorter_tall(h.as_slice()), ekstra: sorter_tall(e.as_slice()) };
            let ghost nyv = ny@;
            ut.push(ny);
            assert(kandidat_innhold(ut@) =~= before.push(nyv));
        }
        k += 1;
    }
    ut
}

// ---------------------------------------------------------------------------
// The pick
// ---------------------------------------------------------------------------

/// How many numbers of `a` are in `b` too.
pub open spec fn felles(a: Seq<u8>, b: Seq<u8>) -> nat
    decreases a.len(),
{
    if a.len() == 0 {
        0
    } else {
        felles(a.drop_last(), b) + (if b.contains(a.last()) {
            1nat
        } else {
            0nat
        })
    }
}

/// Whether a row shares more than two main numbers with one that was picked.
pub open spec fn for_lik(valgte: Seq<KandidatInnhold>, k: KandidatInnhold) -> bool {
    exists|i: int| 0 <= i < valgte.len() && felles((#[trigger] valgte[i]).hovedtall, k.hovedtall) > 2
}

pub open spec fn kandidat_poeng(ks: Seq<KandidatInnhold>) -> Seq<i128> {
    ks.map_values(|k: KandidatInnhold| poeng(k.hovedtall, k.ekstra) as i128)
}

/// The candidates, the least popular first.
pub open spec fn etter_popularitet(ks: Seq<KandidatInnhold>) -> Seq<KandidatInnhold> {
    order::order_of(kandidat_poeng(ks)).map_values(|i: int| ks[i])
}

/// What is picked of the first `i` candidates: each that is not too like one
/// picked before it, until there are enough.
pub open spec fn plukket(ks: Seq<KandidatInnhold>, antall: nat, i: nat) -> Seq<KandidatInnhold>
    decreases i,
{
    if i == 0 {
        Seq::empty()
    } else {
        let v = plukket(ks, antall, (i - 1) as nat);
        if v.len() >= antall || for_lik(v, ks[i - 1]) {
            v
        } else {
            v.push(ks[i - 1])
        }
    }
}

/// The rows that are picked for a seed.
pub open spec fn valgte_rekker(spill: Spill, antall: nat, fro: u64) -> Seq<KandidatInnhold> {
    let start = if fro == 0 {
        1
    } else {
        fro
    };
    let ks = etter_popularitet(kandidater(spill, start, FORSOK as nat).1);
    plukket(ks, antall, ks.len())
}

/// A row that is put forward, with its points and the grounds for it.
#[derive(Debug, Clone)]
pub struct Rekke {
    pub hovedtall: Vec<u8>,
    pub ekstra: Vec<u8>,
    /// Lower means fewer to share with.
    pub popularitet: Poengsum,
    pub begrunnelse: String,
}

pub open spec fn rekke_innhold(s: Seq<Rekke>) -> Seq<KandidatInnhold> {
    s.map_values(|r: Rekke| KandidatInnhold { hovedtall: r.hovedtall@, ekstra: r.ekstra@ })
}

fn tell_felles(a: &Vec<u8>, b: &Vec<u8>) -> (r: usize)
    ensures
        r == felles(a@, b@),
{
    let mut n: usize = 0;
    let mut i: usize = 0;
    while i < a.len()
        invariant
            i <= a@.len(),
            n == felles(a@.take(i as int), b@),
            n <= i,
        decreases a.len() - i,
    {
        assert(a@.take(i + 1).drop_last() =~= a@.take(i as int));
        if inneholder(b, a[i]) {
            n += 1;
        }
        i += 1;
    }
    assert(a@.take(i as int) =~= a@);
    n
}

fn ligner(valgte: &Vec<Rekke>, hovedtall: &Vec<u8>, Ghost(k): Ghost<KandidatInnhold>) -> (r: bool)
    requires
        k.hovedtall == hovedtall@,
    ensures
        r == for_lik(rekke_innhold(valgte@), k),
{
    let ghost v = rekke_innhold(valgte@);
    let mut i: usize = 0;
    while i < valgte.len()
        invariant
            i <= valgte@.len(),
            k.hovedtall == hovedtall@,
            v == rekke_innhold(valgte@),
            forall|j: int| 0 <= j < i ==> felles((#[trigger] v[j]).hovedtall, k.hovedtall) <= 2,
        decreases valgte.len() - i,
    {
        assert(v[i as int].hovedtall == valgte@[i as int].hovedtall@);
        if tell_felles(&valgte[i].hovedtall, hovedtall) > 2 {
            return true;
        }
        i += 1;
    }
    false
}

/// `antall` rows that few others play, the same for the same seed. No two of
/// them have more than two main numbers in common.
pub fn beste_rekker(spill: Spill, antall: usize, fro: u64) -> (r: Vec<Rekke>)
    ensures
        rekke_innhold(r@) == valgte_rekker(spill, antall as nat, fro),
        forall|i: int|
            0 <= i < r@.len() ==> (#[trigger] r@[i]).popularitet.tideler == poeng(
                r@[i].hovedtall@,
                r@[i].ekstra@,
            ) && r@[i].popularitet.delt_paa == spill.antall_spec() && r@[i].begrunnelse@ == beskrivelse(r@[i].hovedtall@, spill),
        forall|a: int, b: int|
            0 <= a < b < r@.len() ==> (#[trigger] r@[a]).popularitet.tideler <= (#[trigger] r@[b]).popularitet.tideler,
{
    let mut rng: Rng = Rng::ny(fro);
    let ghost start = rng.tilstand;
    let kandidater_her: Vec<Kandidat> = trekk_kandidater(spill, &mut rng);
    let ghost ks = kandidat_innhold(kandidater_her@);
    proof {
        lemma_kandidater(spill, start, FORSOK as nat);
    }
    let mut keys: Vec<i128> = Vec::new();
    let mut i: usize = 0;
    while i < kandidater_her.len()
        invariant
            i <= kandidater_her@.len(),
            ks == kandidat_innhold(kandidater_her@),
            forall|j: int| 0 <= j < ks.len() ==> riktig_rekke(spill, #[trigger] ks[j]),
            keys@ == kandidat_poeng(ks).take(i as int),
        decreases kandidater_her.len() - i,
    {
        let k: &Kandidat = &kandidater_her[i];
        assert(ks[i as int] == k@);
        assert(riktig_rekke(spill, ks[i as int]));
        let p: u64 = tideler(k.hovedtall.as_slice(), k.ekstra.as_slice());
        keys.push(p as i128);
        i += 1;
        assert(keys@ =~= kandidat_poeng(ks).take(i as int));
    }
    assert(keys@ =~= kandidat_poeng(ks));
    let o: Vec<usize> = order::stable_order(&keys);
    let ghost sortert = etter_popularitet(ks);
    let mut valgte: Vec<Rekke> = Vec::new();
    let mut n: usize = 0;
    assert(rekke_innhold(valgte@) =~= Seq::empty());
    while n < o.len()
        invariant
            n <= o@.len(),
            o@.len() == ks.len(),
            keys@.len() == ks.len(),
            ks == kandidat_innhold(kandidater_her@),
            sortert == etter_popularitet(ks),
            sortert.len() == o@.len(),
            order::positions(o@) == order::order_of(kandidat_poeng(ks)),
            forall|j: int| 0 <= j < o@.len() ==> (#[trigger] o@[j]) < keys@.len(),
            forall|j: int| 0 <= j < ks.len() ==> riktig_rekke(spill, #[trigger] ks[j]),
            rekke_innhold(valgte@) == plukket(sortert, antall as nat, n as nat),
            forall|j: int|
                0 <= j < valgte@.len() ==> (#[trigger] valgte@[j]).popularitet.tideler == poeng(
                    valgte@[j].hovedtall@,
                    valgte@[j].ekstra@,
                ) && valgte@[j].popularitet.delt_paa == spill.antall_spec() && valgte@[j].begrunnelse@ == beskrivelse(valgte@[j].hovedtall@, spill),
        decreases o.len() - n,
    {
        let k: &Kandidat = &kandidater_her[o[n]];
        let ghost before = rekke_innhold(valgte@);
        proof {
            assert(order::positions(o@)[n as int] == o@[n as int] as int);
            assert(ks[o@[n as int] as int] == k@);
            assert(sortert[n as int] == k@);
            assert(riktig_rekke(spill, ks[o@[n as int] as int]));
        }
        if valgte.len() < antall && !ligner(&valgte, &k.hovedtall, Ghost(k@)) {
            let ny: Rekke = Rekke {
                hovedtall: kopi_tall(&k.hovedtall),
                ekstra: kopi_tall(&k.ekstra),
                popularitet: popularitet(k.hovedtall.as_slice(), k.ekstra.as_slice(), spill),
                begrunnelse: beskriv(k.hovedtall.as_slice(), spill),
            };
            valgte.push(ny);
            assert(rekke_innhold(valgte@) =~= before.push(k@));
        }
        n += 1;
    }
    proof {
        lemma_rekker_stiger(spill, antall as nat, fro);
        let w = valgte_rekker(spill, antall as nat, fro);
        assert forall|a: int, b: int| 0 <= a < b < valgte@.len() implies (#[trigger] valgte@[a]).popularitet.tideler <= (
        #[trigger] valgte@[b]).popularitet.tideler by {
            assert(w[a] == rekke_innhold(valgte@)[a] && w[b] == rekke_innhold(valgte@)[b]);
            assert(poengtall(w[a]) <= poengtall(w[b]));
        }
    }
    valgte
}

// ---------------------------------------------------------------------------
// The grounds
// ---------------------------------------------------------------------------

pub open spec fn over_31(s: Seq<u8>) -> nat
    decreases s.len(),
{
    if s.len() == 0 {
        0
    } else {
        over_31(s.drop_last()) + (if s.last() > 31 {
            1nat
        } else {
            0nat
        })
    }
}

pub open spec fn tallsum(s: Seq<u8>) -> nat
    decreases s.len(),
{
    if s.len() == 0 {
        0
    } else {
        tallsum(s.drop_last()) + s.last() as nat
    }
}

/// The grounds for a row: how many numbers are over 31, their sum, and how
/// many are odd and even.
pub open spec fn beskrivelse(hoved: Seq<u8>, spill: Spill) -> Seq<char> {
    (if spill.maks_spec() > 31 && over_31(hoved) > 0 {
        number_text::decimal(over_31(hoved)) + " tall over 31 (unngår bursdagsrekker), "@
    } else {
        Seq::empty()
    }) + "sum "@ + number_text::decimal(tallsum(hoved)) + ", "@ + number_text::decimal(
        antall_odde(hoved),
    ) + " odde/"@ + number_text::decimal((hoved.len() - antall_odde(hoved)) as nat) + " par"@
}

pub fn beskriv(hoved: &[u8], spill: Spill) -> (r: String)
    requires
        hoved@.len() <= 0x7f_ffff_ffff_ffff,
    ensures
        r@ == beskrivelse(hoved@, spill),
{
    let mut over: u64 = 0;
    let mut sum: u64 = 0;
    let mut i: usize = 0;
    while i < hoved.len()
        invariant
            i <= hoved@.len(),
            hoved@.len() <= 0x7f_ffff_ffff_ffff,
            over == over_31(hoved@.take(i as int)),
            over <= i,
            sum == tallsum(hoved@.take(i as int)),
            sum <= 255 * i,
        decreases hoved.len() - i,
    {
        assert(hoved@.take(i + 1).drop_last() =~= hoved@.take(i as int));
        if hoved[i] > 31 {
            over += 1;
        }
        sum += hoved[i] as u64;
        i += 1;
    }
    assert(hoved@.take(i as int) =~= hoved@);
    let odde: usize = tell_odde(hoved);
    let mut ut: Vec<char> = Vec::new();
    if spill.hovedtall_maks() > 31 && over > 0 {
        let t: Vec<char> = number_text::write_decimal(over as u128);
        push_all(&mut ut, t.as_slice());
        push_text(&mut ut, " tall over 31 (unngår bursdagsrekker), ");
        assert(ut@ =~= number_text::decimal(over as nat) + " tall over 31 (unngår bursdagsrekker), "@);
    }
    push_text(&mut ut, "sum ");
    let s: Vec<char> = number_text::write_decimal(sum as u128);
    push_all(&mut ut, s.as_slice());
    push_text(&mut ut, ", ");
    let o: Vec<char> = number_text::write_decimal(odde as u128);
    push_all(&mut ut, o.as_slice());
    push_text(&mut ut, " odde/");
    let p: Vec<char> = number_text::write_decimal((hoved.len() - odde) as u128);
    push_all(&mut ut, p.as_slice());
    push_text(&mut ut, " par");
    string_of(ut.as_slice())
}

// ---------------------------------------------------------------------------
// Laws
// ---------------------------------------------------------------------------

/// Whether the numbers stand in order, none twice, each from 1 to `maks`.
pub open spec fn gyldige_tall(s: Seq<u8>, n: nat, maks: nat) -> bool {
    &&& s.len() == n
    &&& forall|i: int| 0 <= i < s.len() ==> 1 <= #[trigger] s[i] <= maks
    &&& forall|i: int, j: int| 0 <= i < j < s.len() ==> (#[trigger] s[i]) < (#[trigger] s[j])
}

/// Whether a row is one that can be handed in.
pub open spec fn riktig_rekke(spill: Spill, k: KandidatInnhold) -> bool {
    gyldige_tall(k.hovedtall, spill.antall_spec(), spill.maks_spec()) && gyldige_tall(
        k.ekstra,
        spill.ekstra_antall_spec(),
        spill.ekstra_maks_spec(),
    )
}

spec fn uten_dubletter(s: Seq<u8>, maks: nat) -> bool {
    &&& forall|i: int| 0 <= i < s.len() ==> 1 <= #[trigger] s[i] <= maks
    &&& forall|i: int, j: int| 0 <= i < j < s.len() ==> (#[trigger] s[i]) != (#[trigger] s[j])
}

proof fn lemma_trukket(tilstand: u64, tall: Seq<u8>, n: nat, maks: u8, igjen: nat)
    requires
        maks > 0,
        uten_dubletter(tall, maks as nat),
        tall.len() <= n,
    ensures
        uten_dubletter(trukket(tilstand, tall, n, maks, igjen).1, maks as nat),
        trukket(tilstand, tall, n, maks, igjen).1.len() <= n,
    decreases igjen,
{
    if tall.len() < n && igjen > 0 {
        let s = neste_tilstand(tilstand);
        let t = trukket_tall(s, maks);
        let u = utdata(s) % (maks as u64);
        assert(0 <= u < maks);
        let ny = if tall.contains(t) {
            tall
        } else {
            tall.push(t)
        };
        assert(uten_dubletter(ny, maks as nat));
        lemma_trukket(s, ny, n, maks, (igjen - 1) as nat);
    }
}

/// Sorting keeps the count and puts the numbers in order.
pub proof fn lemma_i_orden(s: Seq<u8>)
    ensures
        sortert_tall(s).len() == s.len(),
        forall|i: int, j: int|
            0 <= i < j < s.len() ==> (#[trigger] sortert_tall(s)[i]) <= (#[trigger] sortert_tall(s)[j]),
{
    let k = som_nokler(s);
    order::law_order_is_stable(k);
    let o = order::order_of(k);
    let r = sortert_tall(s);
    assert forall|i: int, j: int| 0 <= i < j < s.len() implies (#[trigger] r[i]) <= (#[trigger] r[j]) by {
        assert(order::earlier(k, o[i], o[j]));
        assert(0 <= o[i] < s.len() && 0 <= o[j] < s.len());
    }
}

proof fn lemma_sortert_tall(s: Seq<u8>, maks: nat)
    requires
        uten_dubletter(s, maks),
    ensures
        gyldige_tall(sortert_tall(s), s.len(), maks),
{
    let k = som_nokler(s);
    order::law_order_is_stable(k);
    let o = order::order_of(k);
    let r = sortert_tall(s);
    assert forall|i: int| 0 <= i < r.len() implies 1 <= #[trigger] r[i] <= maks by {
        assert(0 <= o[i] < k.len());
        assert(r[i] == s[o[i]]);
    }
    assert forall|i: int, j: int| 0 <= i < j < r.len() implies (#[trigger] r[i]) < (#[trigger] r[j]) by {
        assert(order::earlier(k, o[i], o[j]));
        assert(0 <= o[i] < k.len() && 0 <= o[j] < k.len());
        assert(r[i] == s[o[i]] && r[j] == s[o[j]]);
        assert(k[o[i]] == s[o[i]] as i128 && k[o[j]] == s[o[j]] as i128);
        assert(s[o[i]] != s[o[j]]);
    }
}

proof fn lemma_kandidater(spill: Spill, tilstand: u64, k: nat)
    ensures
        forall|i: int|
            0 <= i < kandidater(spill, tilstand, k).1.len() ==> riktig_rekke(
                spill,
                #[trigger] kandidater(spill, tilstand, k).1[i],
            ),
    decreases k,
{
    if k > 0 {
        lemma_kandidater(spill, tilstand, (k - 1) as nat);
        let (s, l) = kandidater(spill, tilstand, (k - 1) as nat);
        let (s1, h) = trukket(s, Seq::empty(), spill.antall_spec(), spill.maks_spec() as u8, TREKKGRENSE as nat);
        let (s2, e) = trukket(s1, Seq::empty(), spill.ekstra_antall_spec(), ekstra_tak(spill), TREKKGRENSE as nat);
        lemma_trukket(s, Seq::empty(), spill.antall_spec(), spill.maks_spec() as u8, TREKKGRENSE as nat);
        lemma_trukket(s1, Seq::empty(), spill.ekstra_antall_spec(), ekstra_tak(spill), TREKKGRENSE as nat);
        lemma_sortert_tall(h, spill.maks_spec());
        lemma_sortert_tall(e, ekstra_tak(spill) as nat);
        let r = kandidater(spill, tilstand, k).1;
        assert forall|i: int| 0 <= i < r.len() implies riktig_rekke(spill, #[trigger] r[i]) by {
            if i < l.len() {
                assert(r[i] == l[i]);
            }
        }
    }
}

proof fn lemma_plukket(ks: Seq<KandidatInnhold>, antall: nat, i: nat)
    requires
        i <= ks.len(),
    ensures
        plukket(ks, antall, i).len() <= antall,
        forall|j: int| 0 <= j < plukket(ks, antall, i).len() ==> ks.contains(#[trigger] plukket(ks, antall, i)[j]),
        forall|a: int, b: int|
            0 <= a < b < plukket(ks, antall, i).len() ==> felles(
                (#[trigger] plukket(ks, antall, i)[a]).hovedtall,
                (#[trigger] plukket(ks, antall, i)[b]).hovedtall,
            ) <= 2,
    decreases i,
{
    if i > 0 {
        lemma_plukket(ks, antall, (i - 1) as nat);
        let v = plukket(ks, antall, (i - 1) as nat);
        let r = plukket(ks, antall, i);
        assert forall|j: int| 0 <= j < r.len() implies ks.contains(#[trigger] r[j]) by {
            if j < v.len() {
                assert(r[j] == v[j]);
            } else {
                assert(r[j] == ks[i - 1]);
            }
        }
        assert forall|a: int, b: int| 0 <= a < b < r.len() implies felles(
            (#[trigger] r[a]).hovedtall,
            (#[trigger] r[b]).hovedtall,
        ) <= 2 by {
            assert(r[a] == v[a]);
            if b < v.len() {
                assert(r[b] == v[b]);
            }
        }
    }
}

/// What is picked keeps the order of the candidates.
proof fn lemma_plukket_stiger(ks: Seq<KandidatInnhold>, antall: nat, i: nat)
    requires
        i <= ks.len(),
        forall|a: int, b: int|
            0 <= a < b < ks.len() ==> poengtall(#[trigger] ks[a]) <= poengtall(#[trigger] ks[b]),
    ensures
        forall|a: int, j: int|
            0 <= a < plukket(ks, antall, i).len() && i <= j < ks.len() ==> poengtall(
                #[trigger] plukket(ks, antall, i)[a],
            ) <= poengtall(#[trigger] ks[j]),
        forall|a: int, b: int|
            0 <= a < b < plukket(ks, antall, i).len() ==> poengtall(#[trigger] plukket(ks, antall, i)[a]) <= poengtall(
                #[trigger] plukket(ks, antall, i)[b],
            ),
    decreases i,
{
    if i > 0 {
        lemma_plukket_stiger(ks, antall, (i - 1) as nat);
        let v = plukket(ks, antall, (i - 1) as nat);
        let r = plukket(ks, antall, i);
        assert forall|a: int, j: int| 0 <= a < r.len() && i <= j < ks.len() implies poengtall(#[trigger] r[a])
            <= poengtall(#[trigger] ks[j]) by {
            if a < v.len() {
                assert(r[a] == v[a]);
            } else {
                assert(r[a] == ks[i - 1]);
            }
        }
        assert forall|a: int, b: int| 0 <= a < b < r.len() implies poengtall(#[trigger] r[a]) <= poengtall(
            #[trigger] r[b],
        ) by {
            assert(r[a] == v[a]);
            if b < v.len() {
                assert(r[b] == v[b]);
            } else {
                assert(r[b] == ks[i - 1]);
            }
        }
    }
}

/// The points of a candidate as it is sorted by.
pub open spec fn poengtall(k: KandidatInnhold) -> i128 {
    poeng(k.hovedtall, k.ekstra) as i128
}

/// The rows that are picked stand in order, the least popular first.
proof fn lemma_rekker_stiger(spill: Spill, antall: nat, fro: u64)
    ensures
        forall|a: int, b: int|
            0 <= a < b < valgte_rekker(spill, antall, fro).len() ==> poengtall(
                #[trigger] valgte_rekker(spill, antall, fro)[a],
            ) <= poengtall(#[trigger] valgte_rekker(spill, antall, fro)[b]),
{
    let start = if fro == 0 {
        1
    } else {
        fro
    };
    let k = kandidater(spill, start, FORSOK as nat).1;
    let p = kandidat_poeng(k);
    let ks = etter_popularitet(k);
    order::law_order_is_stable(p);
    let o = order::order_of(p);
    assert forall|a: int, b: int| 0 <= a < b < ks.len() implies poengtall(#[trigger] ks[a]) <= poengtall(
        #[trigger] ks[b],
    ) by {
        assert(order::earlier(p, o[a], o[b]));
        assert(0 <= o[a] < k.len() && 0 <= o[b] < k.len());
        assert(ks[a] == k[o[a]] && ks[b] == k[o[b]]);
        assert(p[o[a]] == poengtall(k[o[a]]) && p[o[b]] == poengtall(k[o[b]]));
    }
    lemma_plukket_stiger(ks, antall, ks.len());
}

/// Every row that is picked can be handed in, no two share more than two main
/// numbers, and there are no more of them than were asked for.
pub proof fn law_rekker_gyldige_og_ulike(spill: Spill, antall: nat, fro: u64)
    ensures
        valgte_rekker(spill, antall, fro).len() <= antall,
        forall|i: int|
            0 <= i < valgte_rekker(spill, antall, fro).len() ==> riktig_rekke(
                spill,
                #[trigger] valgte_rekker(spill, antall, fro)[i],
            ),
        forall|a: int, b: int|
            0 <= a < b < valgte_rekker(spill, antall, fro).len() ==> felles(
                (#[trigger] valgte_rekker(spill, antall, fro)[a]).hovedtall,
                (#[trigger] valgte_rekker(spill, antall, fro)[b]).hovedtall,
            ) <= 2,
{
    let start = if fro == 0 {
        1
    } else {
        fro
    };
    let k = kandidater(spill, start, FORSOK as nat).1;
    lemma_kandidater(spill, start, FORSOK as nat);
    let ks = etter_popularitet(k);
    order::law_order_is_stable(kandidat_poeng(k));
    let o = order::order_of(kandidat_poeng(k));
    lemma_plukket(ks, antall, ks.len());
    let r = valgte_rekker(spill, antall, fro);
    assert forall|i: int| 0 <= i < r.len() implies riktig_rekke(spill, #[trigger] r[i]) by {
        assert(ks.contains(r[i]));
        let j = choose|j: int| 0 <= j < ks.len() && ks[j] == r[i];
        assert(0 <= o[j] < k.len());
        assert(ks[j] == k[o[j]]);
    }
}

// ---------------------------------------------------------------------------
// What makes a row popular, and which rows are picked
// ---------------------------------------------------------------------------

/// A drawn number lies from 1 to the highest, as far into that range as the
/// generator's number reaches after whole rounds through it.
pub proof fn law_trukket_tall(tilstand: u64, maks: u8)
    requires
        maks > 0,
    ensures
        1 <= trukket_tall(tilstand, maks) <= maks,
        (utdata(tilstand) - (trukket_tall(tilstand, maks) - 1)) % (maks as int) == 0,
{
    let u = utdata(tilstand) as int;
    let m = maks as int;
    assert((u - u % m) % m == 0) by (nonlinear_arith)
        requires
            m > 0,
    {
        assert(u == m * (u / m) + u % m);
        assert((m * (u / m)) % m == 0) by (nonlinear_arith)
            requires
                m > 0,
        ;
    }
}

/// A number that can be a day and a month of birth counts for one point more than one
/// that can be a day only, and that for one more than one that can be neither; a lucky
/// number counts for half a point more. Order does not matter: a row of numbers counts
/// for what its numbers do.
pub proof fn law_bursdager_og_lykketall(a: Seq<u8>, b: Seq<u8>, t: u8)
    ensures
        sum_tallpoeng(a + b) == sum_tallpoeng(a) + sum_tallpoeng(b),
        sum_tallpoeng(a + b) == sum_tallpoeng(b + a),
        sum_tallpoeng(seq![t]) == (if t > 31 {
            0int
        } else if t > 12 {
            10
        } else {
            20
        }) + (if [3u8, 7, 11, 13, 17]@.contains(t) {
            5int
        } else {
            0
        }),
        sum_ekstrapoeng(a + b) == sum_ekstrapoeng(a) + sum_ekstrapoeng(b),
        sum_ekstrapoeng(seq![t]) == (if t > 12 {
            0int
        } else {
            5
        }) + (if [3u8, 7, 11, 13, 17]@.contains(t) {
            3int
        } else {
            0
        }),
{
    lemma_poeng_sammen(a, b);
    lemma_poeng_sammen(b, a);
    reveal_with_fuel(sum_tallpoeng, 2);
    reveal_with_fuel(sum_ekstrapoeng, 2);
    assert(seq![t].drop_last() =~= Seq::empty());
    let l = [3u8, 7, 11, 13, 17]@;
    assert(l[0] == 3 && l[1] == 7 && l[2] == 11 && l[3] == 13 && l[4] == 17);
    assert(lykketall(t) == l.contains(t));
}

proof fn lemma_poeng_sammen(a: Seq<u8>, b: Seq<u8>)
    ensures
        sum_tallpoeng(a + b) == sum_tallpoeng(a) + sum_tallpoeng(b),
        sum_ekstrapoeng(a + b) == sum_ekstrapoeng(a) + sum_ekstrapoeng(b),
    decreases b.len(),
{
    if b.len() == 0 {
        assert(a + b =~= a);
    } else {
        lemma_poeng_sammen(a, b.drop_last());
        assert((a + b).drop_last() =~= a + b.drop_last());
        assert((a + b).last() == b.last());
    }
}

/// The places of a row at which the next number follows directly.
pub open spec fn naboplasser(s: Seq<u8>) -> Seq<int> {
    Seq::new((s.len() - 1) as nat, |i: int| i).filter(|i: int| s[i + 1] == s[i] + 1)
}

/// Neighbours, end digits and odd numbers are counted, each once.
pub proof fn law_monstre_telles(s: Seq<u8>, siffer: int)
    ensures
        s.len() > 0 ==> nabopar(s) == naboplasser(s).len(),
        s.len() == 0 ==> nabopar(s) == 0,
        med_sluttsiffer(s, siffer) == s.filter(|t: u8| t % 10 == siffer).len(),
        antall_odde(s) == s.filter(|t: u8| t % 2 == 1).len(),
        over_31(s) == s.filter(|t: u8| t > 31).len(),
        tallsum(s) == s.fold_left(0int, |a: int, t: u8| a + t),
    decreases s.len(),
{
    reveal(Seq::filter);
    if s.len() > 0 {
        let d = s.drop_last();
        law_monstre_telles(d, siffer);
        let p = |i: int| s[i + 1] == s[i] + 1;
        let q = |i: int| d[i + 1] == d[i] + 1;
        let alle = Seq::new((s.len() - 1) as nat, |i: int| i);
        if s.len() > 1 {
            let for_ = Seq::new((d.len() - 1) as nat, |i: int| i);
            assert(alle.drop_last() =~= for_);
            assert(alle.last() == s.len() - 2);
            lemma_samme_filter(for_, p, q, d.len() - 1);
        } else {
            assert(alle.len() == 0);
        }
    }
}

proof fn lemma_samme_filter(l: Seq<int>, p: spec_fn(int) -> bool, q: spec_fn(int) -> bool, n: int)
    requires
        forall|i: int| 0 <= i < l.len() ==> 0 <= #[trigger] l[i] < n,
        forall|x: int| 0 <= x < n ==> #[trigger] p(x) == q(x),
    ensures
        l.filter(p) == l.filter(q),
    decreases l.len(),
{
    reveal(Seq::filter);
    if l.len() > 0 {
        let d = l.drop_last();
        assert forall|i: int| 0 <= i < d.len() implies 0 <= #[trigger] d[i] < n by {
            assert(d[i] == l[i]);
        }
        lemma_samme_filter(d, p, q, n);
        assert(0 <= l[l.len() - 1] < n);
        assert(p(l.last()) == q(l.last()));
    }
}

/// Patterns cost: each pair of neighbours a point and a half, each number beyond the
/// second with the same end digit as much, ten points for equal steps throughout, three
/// for numbers that lie close together, and half a point for each that odd and even are
/// apart where they are more than three apart. Nothing else does.
pub proof fn law_monstre_koster(s: Seq<u8>)
    requires
        s.len() > 0,
    ensures
        ({
            let odde = s.filter(|t: u8| t % 2 == 1).len();
            let par = s.len() - odde;
            let ulikt = if odde > par {
                odde - par
            } else {
                par - odde
            };
            let jevnt = s.len() >= 3 && forall|i: int|
                0 <= i < s.len() - 1 ==> #[trigger] s[i + 1] - s[i] == s[1] - s[0];
            monsterpoeng(s) == 15 * naboplasser(s).len() + sifferpoeng(s, 10) + (if jevnt {
                100int
            } else {
                0
            }) + (if s.last() - s[0] < 3 * s.len() {
                30int
            } else {
                0
            }) + (if ulikt > 3 {
                5 * ulikt
            } else {
                0
            })
        }),
{
    law_monstre_telles(s, 0);
    lemma_odde_hoyst(s);
    assert forall|i: int| 0 <= i < s.len() - 1 implies #[trigger] s[i + 1] - s[i] == avstand(s, i) by {}
    if s.len() >= 3 {
        if jevn_avstand(s) {
            assert forall|i: int| 0 <= i < s.len() - 1 implies #[trigger] s[i + 1] - s[i] == s[1] - s[0] by {
                assert(avstand(s, i) == avstand(s, 0));
            }
        }
        if forall|i: int| 0 <= i < s.len() - 1 ==> #[trigger] s[i + 1] - s[i] == s[1] - s[0] {
            assert forall|i: int| 0 <= i < s.len() - 1 implies #[trigger] avstand(s, i) == avstand(s, 0) by {
                assert(s[i + 1] - s[i] == s[1] - s[0]);
            }
        }
    }
}

proof fn lemma_odde_hoyst(s: Seq<u8>)
    ensures
        antall_odde(s) <= s.len(),
    decreases s.len(),
{
    if s.len() > 0 {
        lemma_odde_hoyst(s.drop_last());
    }
}

/// Each digit that three or more numbers end in costs a point and a half for every
/// number beyond the second.
pub proof fn law_sluttsifre_koster(s: Seq<u8>, siffer: nat)
    ensures
        sifferpoeng(s, 0) == 0,
        ({
            let n = s.filter(|t: u8| t % 10 == siffer).len();
            sifferpoeng(s, siffer + 1) - sifferpoeng(s, siffer) == (if n > 2 {
                15 * (n - 2)
            } else {
                0
            })
        }),
{
    law_monstre_telles(s, siffer as int);
}

/// A row is as popular as its numbers, the pattern that they make in order, and its
/// extra numbers together.
pub proof fn law_popularitet(hovedtall: Seq<u8>, ekstra: Seq<u8>)
    ensures
        poeng(hovedtall, Seq::empty()) == sum_tallpoeng(hovedtall) + monsterpoeng(sortert_tall(hovedtall)),
        poeng(hovedtall, ekstra) == poeng(hovedtall, Seq::empty()) + sum_ekstrapoeng(ekstra),
{
}

/// What two rows share is counted.
pub proof fn law_felles(a: Seq<u8>, b: Seq<u8>)
    ensures
        felles(a, b) == a.filter(|t: u8| b.contains(t)).len(),
    decreases a.len(),
{
    reveal(Seq::filter);
    if a.len() > 0 {
        law_felles(a.drop_last(), b);
    }
}

/// Why a candidate is not among the rows that were picked: one of them is too like it
/// and no more popular, or there were enough already and none of them is more popular.
pub open spec fn har_sin_grunn(valgte: Seq<KandidatInnhold>, k: KandidatInnhold, antall: nat) -> bool {
    ||| exists|i: int|
        0 <= i < valgte.len() && felles((#[trigger] valgte[i]).hovedtall, k.hovedtall) > 2 && poeng(
            valgte[i].hovedtall,
            valgte[i].ekstra,
        ) <= poeng(k.hovedtall, k.ekstra)
    ||| valgte.len() >= antall && forall|i: int|
        0 <= i < valgte.len() ==> poeng((#[trigger] valgte[i]).hovedtall, valgte[i].ekstra) <= poeng(
            k.hovedtall,
            k.ekstra,
        )
}

spec fn ordnet_etter_poeng(ks: Seq<KandidatInnhold>) -> bool {
    forall|i: int, j: int|
        0 <= i <= j < ks.len() ==> poeng((#[trigger] ks[i]).hovedtall, ks[i].ekstra) <= poeng(
            (#[trigger] ks[j]).hovedtall,
            ks[j].ekstra,
        )
}

proof fn lemma_plukket_under(ks: Seq<KandidatInnhold>, antall: nat, i: nat, j: int)
    requires
        ordnet_etter_poeng(ks),
        i <= j < ks.len(),
    ensures
        forall|a: int|
            0 <= a < plukket(ks, antall, i).len() ==> poeng(
                (#[trigger] plukket(ks, antall, i)[a]).hovedtall,
                plukket(ks, antall, i)[a].ekstra,
            ) <= poeng(ks[j].hovedtall, ks[j].ekstra),
    decreases i,
{
    if i > 0 {
        lemma_plukket_under(ks, antall, (i - 1) as nat, j);
        assert(poeng(ks[i - 1].hovedtall, ks[i - 1].ekstra) <= poeng(ks[j].hovedtall, ks[j].ekstra));
        let v = plukket(ks, antall, (i - 1) as nat);
        let w = plukket(ks, antall, i);
        assert forall|a: int| 0 <= a < w.len() implies poeng((#[trigger] w[a]).hovedtall, w[a].ekstra) <= poeng(
            ks[j].hovedtall,
            ks[j].ekstra,
        ) by {
            if a < v.len() {
                assert(w[a] == v[a]);
            }
        }
    }
}

proof fn lemma_graadig(ks: Seq<KandidatInnhold>, antall: nat, i: nat, j: int)
    requires
        ordnet_etter_poeng(ks),
        0 <= j < i <= ks.len(),
    ensures
        plukket(ks, antall, i).contains(ks[j]) || har_sin_grunn(plukket(ks, antall, i), ks[j], antall),
    decreases i,
{
    let v = plukket(ks, antall, (i - 1) as nat);
    let w = plukket(ks, antall, i);
    if j == i - 1 {
        lemma_plukket_under(ks, antall, (i - 1) as nat, j);
        if v.len() < antall && !for_lik(v, ks[j]) {
            assert(w[v.len() as int] == ks[j]);
        }
    } else {
        lemma_graadig(ks, antall, (i - 1) as nat, j);
        if w != v {
            if v.contains(ks[j]) {
                let a = choose|a: int| 0 <= a < v.len() && v[a] == ks[j];
                assert(w[a] == ks[j]);
            } else {
                let a = choose|a: int|
                    0 <= a < v.len() && felles((#[trigger] v[a]).hovedtall, ks[j].hovedtall) > 2 && poeng(
                        v[a].hovedtall,
                        v[a].ekstra,
                    ) <= poeng(ks[j].hovedtall, ks[j].ekstra);
                assert(w[a] == v[a]);
            }
        }
    }
}

/// The rows that are picked are the least popular that may stand together: every row
/// that was drawn is among them, or one of them is too like it and no more popular, or
/// there were enough and none of them is more popular.
pub proof fn law_ingen_bedre_rekke_glemt(spill: Spill, antall: nat, fro: u64, k: int)
    requires
        0 <= k < kandidater(
            spill,
            if fro == 0 {
                1
            } else {
                fro
            },
            FORSOK as nat,
        ).1.len(),
    ensures
        ({
            let l = kandidater(
                spill,
                if fro == 0 {
                    1
                } else {
                    fro
                },
                FORSOK as nat,
            ).1;
            let r = valgte_rekker(spill, antall, fro);
            r.contains(l[k]) || har_sin_grunn(r, l[k], antall)
        }),
{
    let start = if fro == 0 {
        1
    } else {
        fro
    };
    let l = kandidater(spill, start, FORSOK as nat).1;
    let ks = etter_popularitet(l);
    let n = kandidat_poeng(l);
    order::law_order_is_stable(n);
    let o = order::order_of(n);
    lemma_kandidater(spill, start, FORSOK as nat);
    assert forall|i: int, j: int| 0 <= i <= j < ks.len() implies poeng((#[trigger] ks[i]).hovedtall, ks[i].ekstra)
        <= poeng((#[trigger] ks[j]).hovedtall, ks[j].ekstra) by {
        if i < j {
            assert(order::earlier(n, o[i], o[j]));
        }
        assert(ks[i] == l[o[i]] && ks[j] == l[o[j]]);
        lemma_poeng_innen(spill, l[o[i]]);
        lemma_poeng_innen(spill, l[o[j]]);
        assert(n[o[i]] == poeng(ks[i].hovedtall, ks[i].ekstra) && n[o[j]] == poeng(ks[j].hovedtall, ks[j].ekstra));
    }
    assert(o.contains(k));
    let j = choose|j: int| 0 <= j < o.len() && o[j] == k;
    assert(ks[j] == l[k]);
    lemma_graadig(ks, antall, ks.len(), j);
}

proof fn lemma_poeng_hoyst(s: Seq<u8>, siffer: nat)
    ensures
        sum_tallpoeng(s) <= 25 * s.len(),
        sum_ekstrapoeng(s) <= 8 * s.len(),
        nabopar(s) <= s.len(),
        antall_odde(s) <= s.len(),
        med_sluttsiffer(s, siffer as int) <= s.len(),
    decreases s.len(),
{
    if s.len() > 0 {
        lemma_poeng_hoyst(s.drop_last(), siffer);
    }
}

proof fn lemma_siffer_hoyst(s: Seq<u8>, siffer: nat)
    ensures
        sifferpoeng(s, siffer) <= 15 * s.len() * siffer,
    decreases siffer,
{
    if siffer > 0 {
        lemma_siffer_hoyst(s, (siffer - 1) as nat);
        lemma_poeng_hoyst(s, (siffer - 1) as nat);
        assert(15 * s.len() * siffer == 15 * s.len() * (siffer - 1) + 15 * s.len()) by (nonlinear_arith);
    }
}

proof fn lemma_poeng_innen(spill: Spill, k: KandidatInnhold)
    requires
        riktig_rekke(spill, k),
    ensures
        poeng(k.hovedtall, k.ekstra) <= i128::MAX,
{
    let s = sortert_tall(k.hovedtall);
    order::law_order_is_stable(som_nokler(k.hovedtall));
    lemma_poeng_hoyst(k.hovedtall, 0);
    lemma_poeng_hoyst(k.ekstra, 0);
    lemma_poeng_hoyst(s, 0);
    lemma_siffer_hoyst(s, 10);
}

}
