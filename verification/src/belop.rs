//! Prices, quantities and amounts as whole numbers of hundred-millionths.
use vstd::prelude::*;

use crate::number_text;
use crate::text;
use crate::text::{chars_of, push_all, string_of};

verus! {

/// One whole: prices and quantities are counted in hundred-millionths.
pub const HEL: i64 = 100_000_000;

/// One whole of a product of two such numbers.
pub const HEL2: i128 = 10_000_000_000_000_000;

// ---------------------------------------------------------------------------
// Reading
// ---------------------------------------------------------------------------

/// The number of the first `n` digits, with zeros behind the last.
pub open spec fn forste_siffer(d: Seq<char>, n: int) -> nat
    decreases n,
{
    if n <= 0 {
        0
    } else {
        forste_siffer(d, n - 1) * 10 + (if n - 1 < d.len() {
            number_text::digit_value(d[n - 1])
        } else {
            0
        })
    }
}

/// The position of the exponent mark, or the length.
pub open spec fn eksponentmerke(s: Seq<char>, i: int) -> int
    decreases s.len() - i,
{
    if i < 0 || i >= s.len() || s[i] == 'e' || s[i] == 'E' {
        i
    } else {
        eksponentmerke(s, i + 1)
    }
}

/// The exponent that the text behind the mark gives.
pub open spec fn eksponent(s: Seq<char>) -> Option<int> {
    number_text::within(number_text::int_of(s), i64::MIN as int, i64::MAX as int)
}

/// The digits before and behind the decimal point.
pub open spec fn punktum(s: Seq<char>) -> (Seq<char>, Seq<char>) {
    match text::first_char(s, '.', 0) {
        Some(i) => (s.take(i), s.skip(i + 1)),
        None => (s, Seq::empty()),
    }
}

/// The amount, in hundred-millionths and cut off there, that digits with a
/// decimal point and an exponent stand for.
pub open spec fn storrelse(s: Seq<char>) -> Option<nat> {
    let m = eksponentmerke(s, 0);
    let (h, b) = punktum(s.take(m));
    if !number_text::all_digits(h) || !number_text::all_digits(b) || h.len() + b.len() == 0 {
        None
    } else if m >= s.len() {
        Some(forste_siffer(h + b, h.len() as int + 8))
    } else {
        match eksponent(s.skip(m + 1)) {
            Some(e) => Some(forste_siffer(h + b, h.len() as int + e + 8)),
            None => None,
        }
    }
}

/// The amount that a text stands for, with a sign before it or none; none
/// where the text is no number, or the amount is too large.
pub open spec fn belop_av(s: Seq<char>) -> Option<int> {
    let neg = s.len() > 0 && s[0] == '-';
    let t = if s.len() > 0 && (s[0] == '-' || s[0] == '+') {
        s.skip(1)
    } else {
        s
    };
    match storrelse(t) {
        Some(n) => if n > i64::MAX {
            None
        } else if neg {
            Some(-(n as int))
        } else {
            Some(n as int)
        },
        None => None,
    }
}

proof fn lemma_forste_siffer_okser(d: Seq<char>, n: int, m: int)
    requires
        n <= m,
        number_text::all_digits(d),
    ensures
        forste_siffer(d, n) <= forste_siffer(d, m),
    decreases m - n,
{
    if n < m {
        lemma_forste_siffer_okser(d, n, m - 1);
    }
}

proof fn lemma_bare_nuller(d: Seq<char>, k: int, n: int)
    requires
        d.len() <= k <= n,
        forste_siffer(d, k) == 0,
    ensures
        forste_siffer(d, n) == 0,
    decreases n - k,
{
    if k < n {
        lemma_bare_nuller(d, k, n - 1);
    }
}

fn les_siffer(d: &Vec<char>, n: i128) -> (r: Option<i64>)
    requires
        number_text::all_digits(d@),
    ensures
        r is Some == (forste_siffer(d@, n as int) <= i64::MAX),
        r matches Some(v) ==> v == forste_siffer(d@, n as int) && v >= 0,
{
    if n <= 0 {
        return Some(0);
    }
    let mut v: i64 = 0;
    let mut k: i128 = 0;
    while k < n
        invariant
            0 <= k <= n,
            number_text::all_digits(d@),
            v == forste_siffer(d@, k as int),
            v >= 0,
        decreases n - k,
    {
        if v == 0 && k >= d.len() as i128 {
            proof {
                lemma_bare_nuller(d@, k as int, n as int);
            }
            return Some(0);
        }
        let s: i64 = if k < d.len() as i128 {
            assert(number_text::is_digit(d@[k as int]));
            d[k as usize] as i64 - 48
        } else {
            0
        };
        assert(forste_siffer(d@, k + 1) == v * 10 + s);
        if v > (0x7fff_ffff_ffff_ffff - s) / 10 {
            proof {
                lemma_forste_siffer_okser(d@, k + 1, n as int);
            }
            return None;
        }
        v = v * 10 + s;
        k += 1;
    }
    Some(v)
}

fn bare_siffer(s: &[char]) -> (r: bool)
    ensures
        r == number_text::all_digits(s@),
{
    let mut i: usize = 0;
    while i < s.len()
        invariant
            i <= s@.len(),
            forall|j: int| 0 <= j < i ==> number_text::is_digit(#[trigger] s@[j]),
        decreases s.len() - i,
    {
        let c: char = s[i];
        if !('0' <= c && c <= '9') {
            assert(!number_text::is_digit(s@[i as int]));
            return false;
        }
        i += 1;
    }
    true
}

fn les_storrelse(s: &[char]) -> (r: Option<i64>)
    ensures
        r is Some == (storrelse(s@) is Some && storrelse(s@)->0 <= i64::MAX),
        r matches Some(v) ==> v >= 0 && storrelse(s@) == Some(v as nat),
{
    let mut m: usize = 0;
    while m < s.len() && s[m] != 'e' && s[m] != 'E'
        invariant
            m <= s@.len(),
            eksponentmerke(s@, 0) == eksponentmerke(s@, m as int),
        decreases s.len() - m,
    {
        m += 1;
    }
    let mantisse: Vec<char> = text::slice(s, 0, m);
    assert(mantisse@ =~= s@.take(m as int));
    let mut h: Vec<char> = Vec::new();
    let mut b: Vec<char> = Vec::new();
    match text::find_char(mantisse.as_slice(), '.', 0) {
        Some(i) => {
            h = text::slice(mantisse.as_slice(), 0, i);
            b = text::slice(mantisse.as_slice(), i + 1, mantisse.len());
            assert(h@ =~= mantisse@.take(i as int));
            assert(b@ =~= mantisse@.skip(i + 1));
        },
        None => {
            h = text::slice(mantisse.as_slice(), 0, mantisse.len());
            assert(h@ =~= mantisse@);
            assert(b@ =~= Seq::empty());
        },
    }
    assert((h@, b@) == punktum(s@.take(m as int)));
    if !bare_siffer(h.as_slice()) || !bare_siffer(b.as_slice()) || (h.len() == 0 && b.len() == 0) {
        return None;
    }
    let foran: i128 = h.len() as i128;
    let mut d: Vec<char> = h;
    push_all(&mut d, b.as_slice());
    assert(number_text::all_digits(d@));
    if m >= s.len() {
        les_siffer(&d, foran + 8)
    } else {
        let e: Vec<char> = text::slice(s, m + 1, s.len());
        assert(e@ =~= s@.skip(m + 1));
        match number_text::read_i64(e.as_slice()) {
            Some(x) => les_siffer(&d, foran + x as i128 + 8),
            None => None,
        }
    }
}

/// The amount, in hundred-millionths, that a text stands for.
pub fn les_belop(s: &[char]) -> (r: Option<i64>)
    ensures
        r is Some == belop_av(s@) is Some,
        r matches Some(v) ==> belop_av(s@) == Some(v as int),
{
    if s.len() > 0 && (s[0] == '-' || s[0] == '+') {
        let t: Vec<char> = text::slice(s, 1, s.len());
        assert(t@ =~= s@.skip(1));
        match les_storrelse(t.as_slice()) {
            Some(v) => if s[0] == '-' {
                Some(-v)
            } else {
                Some(v)
            },
            None => None,
        }
    } else {
        les_storrelse(s)
    }
}

// ---------------------------------------------------------------------------
// Writing
// ---------------------------------------------------------------------------

pub open spec fn tierpotens(n: nat) -> nat
    decreases n,
{
    if n == 0 {
        1
    } else {
        10 * tierpotens((n - 1) as nat)
    }
}

/// `v` divided by `enhet`, to the nearest whole; half goes to the even one.
pub open spec fn avrundet(v: nat, enhet: nat) -> nat {
    let q = v / enhet;
    let r = v % enhet;
    if 2 * r > enhet || (2 * r == enhet && q % 2 == 1) {
        q + 1
    } else {
        q
    }
}

/// The digits of a number that counts parts of ten to the power `skala`, with
/// `des` decimals.
pub open spec fn siffertekst(v: nat, skala: nat, des: nat) -> Seq<char> {
    let q = avrundet(v, tierpotens((skala - des) as nat));
    if des == 0 {
        number_text::decimal(q)
    } else {
        number_text::decimal(q / tierpotens(des)) + seq!['.'] + number_text::padded(
            q % tierpotens(des),
            des,
        )
    }
}

pub open spec fn desimaltekst(v: int, skala: nat, des: nat) -> Seq<char> {
    if v < 0 {
        seq!['-'] + siffertekst((-v) as nat, skala, des)
    } else {
        siffertekst(v as nat, skala, des)
    }
}

/// A price, a quantity or a percentage with `des` decimals.
pub open spec fn belop_tekst(v: int, des: nat) -> Seq<char> {
    desimaltekst(v, 8, des)
}

/// A product of a price and a quantity with `des` decimals.
pub open spec fn verdi_tekst(v: int, des: nat) -> Seq<char> {
    desimaltekst(v, 16, des)
}

/// A number with its sign, plus or minus, and `des` decimals.
pub open spec fn med_fortegn(v: int, des: nat) -> Seq<char> {
    if v < 0 {
        belop_tekst(v, des)
    } else {
        seq!['+'] + belop_tekst(v, des)
    }
}

fn potens(n: u8) -> (r: u128)
    requires
        n <= 16,
    ensures
        r == tierpotens(n as nat),
        1 <= r <= 10_000_000_000_000_000,
    decreases n,
{
    if n == 0 {
        1
    } else {
        let p: u128 = potens(n - 1);
        proof {
            lemma_potens((n - 1) as nat);
        }
        10 * p
    }
}

proof fn lemma_potens(n: nat)
    ensures
        n <= 15 ==> tierpotens(n) <= 1_000_000_000_000_000,
        n <= 16 ==> tierpotens(n) <= 10_000_000_000_000_000,
        tierpotens(n) >= 1,
    decreases n,
{
    reveal_with_fuel(tierpotens, 17);
    if n > 0 {
        lemma_potens((n - 1) as nat);
    }
}

fn skriv_siffer(v: u128, skala: u8, des: u8) -> (r: Vec<char>)
    requires
        des <= skala <= 16,
    ensures
        r@ == siffertekst(v as nat, skala as nat, des as nat),
{
    let enhet: u128 = potens(skala - des);
    let mut q: u128 = v / enhet;
    let rest: u128 = v % enhet;
    proof {
        if enhet >= 2 {
            assert(v as int / enhet as int <= v as int / 2) by (nonlinear_arith)
                requires
                    enhet >= 2,
                    v >= 0,
            ;
        }
    }
    if 2 * rest > enhet || (2 * rest == enhet && q % 2 == 1) {
        q = q + 1;
    }
    assert(q == avrundet(v as nat, tierpotens((skala - des) as nat)));
    if des == 0 {
        number_text::write_decimal(q)
    } else {
        let p: u128 = potens(des);
        let mut ut: Vec<char> = number_text::write_decimal(q / p);
        ut.push('.');
        let b: Vec<char> = number_text::write_padded(q % p, des as usize);
        push_all(&mut ut, b.as_slice());
        assert(ut@ =~= siffertekst(v as nat, skala as nat, des as nat));
        ut
    }
}

/// An amount with as many decimals as it needs.
pub open spec fn kort_tekst(v: int) -> Seq<char> {
    let n = if v < 0 {
        (-v) as nat
    } else {
        v as nat
    };
    let hel = number_text::decimal(n / 100_000_000);
    let tall = if n % 100_000_000 == 0 {
        hel
    } else {
        hel + seq!['.'] + text::strip_end(number_text::padded(n % 100_000_000, 8), '0')
    };
    if v < 0 {
        seq!['-'] + tall
    } else {
        tall
    }
}

/// Writes an amount with as many decimals as it needs.
pub fn kort(v: i64) -> (r: String)
    ensures
        r@ == kort_tekst(v as int),
{
    let n: u128 = if v < 0 {
        (-(v as i128)) as u128
    } else {
        v as u128
    };
    let mut ut: Vec<char> = Vec::new();
    if v < 0 {
        ut.push('-');
    }
    let hel: Vec<char> = number_text::write_decimal(n / 100_000_000);
    push_all(&mut ut, hel.as_slice());
    if n % 100_000_000 != 0 {
        let d: Vec<char> = number_text::write_padded(n % 100_000_000, 8);
        let desimaler: String = string_of(d.as_slice());
        let korte: String = text::without_end(desimaler.as_str(), '0');
        ut.push('.');
        text::push_text(&mut ut, korte.as_str());
    }
    assert(ut@ =~= kort_tekst(v as int));
    string_of(ut.as_slice())
}

/// Writes a number that counts parts of ten to the power `skala`.
pub fn skriv(v: i128, skala: u8, des: u8) -> (r: Vec<char>)
    requires
        des <= skala <= 16,
    ensures
        r@ == desimaltekst(v as int, skala as nat, des as nat),
{
    if v < 0 {
        let mut ut: Vec<char> = Vec::new();
        ut.push('-');
        let storrelse: u128 = (-(v + 1)) as u128 + 1;
        let s: Vec<char> = skriv_siffer(storrelse, skala, des);
        push_all(&mut ut, s.as_slice());
        assert(ut@ =~= seq!['-'] + siffertekst((-v) as nat, skala as nat, des as nat));
        ut
    } else {
        skriv_siffer(v as u128, skala, des)
    }
}

/// Writes a price, a quantity or a percentage.
pub fn skriv_belop(v: i64, des: u8) -> (r: Vec<char>)
    requires
        des <= 8,
    ensures
        r@ == belop_tekst(v as int, des as nat),
{
    skriv(v as i128, 8, des)
}

/// Writes a number with its sign.
pub fn skriv_med_fortegn(v: i128, des: u8) -> (r: Vec<char>)
    requires
        des <= 8,
    ensures
        r@ == med_fortegn(v as int, des as nat),
{
    if v < 0 {
        skriv(v, 8, des)
    } else {
        let mut ut: Vec<char> = Vec::new();
        ut.push('+');
        let s: Vec<char> = skriv(v, 8, des);
        push_all(&mut ut, s.as_slice());
        assert(ut@ =~= seq!['+'] + belop_tekst(v as int, des as nat));
        ut
    }
}

/// The amount with `des` decimals.
pub fn som_tekst(v: i64, des: u8) -> (r: String)
    requires
        des <= 8,
    ensures
        r@ == belop_tekst(v as int, des as nat),
{
    let cs: Vec<char> = skriv_belop(v, des);
    string_of(cs.as_slice())
}

/// The amount that the text of a form or a file gives.
pub fn fra_tekst(s: &str) -> (r: Option<i64>)
    ensures
        r is Some == belop_av(s@) is Some,
        r matches Some(v) ==> belop_av(s@) == Some(v as int),
{
    let cs: Vec<char> = chars_of(s);
    les_belop(cs.as_slice())
}

// ---------------------------------------------------------------------------
// Rounding quotients
// ---------------------------------------------------------------------------

/// `a` divided by `b`, cut off towards zero.
pub open spec fn kvotient(a: int, b: int) -> int
    recommends
        b > 0,
{
    if a < 0 {
        -((-a) / b)
    } else {
        a / b
    }
}

proof fn lemma_dobbelt(a: int, b: int, n: int, q: int, rest: int)
    requires
        q * n + rest == a * (b / 2),
    ensures
        (2 * q) * n + 2 * rest + (b % 2) * a == a * b,
{
    let h = b / 2;
    let o = b % 2;
    assert(a * b == 2 * (a * h) + o * a) by (nonlinear_arith)
        requires
            b == 2 * h + o,
    ;
    assert((2 * q) * n == 2 * (q * n)) by (nonlinear_arith);
}

proof fn lemma_overlop(q: int, n: int, rest: int, prod: int)
    requires
        q * n + rest <= prod,
        q >= 0x1_0000_0000_0000_0000_0000_0000_0000_0000,
        n > 0,
        rest >= 0,
    ensures
        prod >= 0x1_0000_0000_0000_0000_0000_0000_0000_0000 * n,
{
    assert(q * n >= 0x1_0000_0000_0000_0000_0000_0000_0000_0000 * n) by (nonlinear_arith)
        requires
            q >= 0x1_0000_0000_0000_0000_0000_0000_0000_0000,
            n > 0,
    ;
}

/// How many times `n` goes into the product of `a` and `b`, and what is left; none
/// where that is more than 128 bits hold. The product itself may be.
fn delt_produkt(a: u128, b: u128, n: u128) -> (r: Option<(u128, u128)>)
    requires
        0 < n <= 0x8000_0000_0000_0000_0000_0000_0000_0000,
    ensures
        r matches Some((q, rest)) ==> q * n + rest == a * b && rest < n,
        r is None ==> a * b >= 0x1_0000_0000_0000_0000_0000_0000_0000_0000 * n,
    decreases b,
{
    if b == 0 {
        assert(a * b == 0) by (nonlinear_arith)
            requires
                b == 0,
        ;
        assert(0 * n == 0) by (nonlinear_arith);
        return Some((0, 0));
    }
    let halv: u128 = b / 2;
    let (q, rest): (u128, u128) = match delt_produkt(a, halv, n) {
        Some(p) => p,
        None => {
            assert(a * b >= a * halv) by (nonlinear_arith)
                requires
                    b >= halv,
                    a >= 0,
            ;
            return None;
        },
    };
    proof {
        lemma_dobbelt(a as int, b as int, n as int, q as int, rest as int);
        assert((b % 2) * a >= 0) by (nonlinear_arith)
            requires
                b >= 0,
                a >= 0,
        ;
    }
    if q >= 0x8000_0000_0000_0000_0000_0000_0000_0000 {
        proof {
            lemma_overlop(2 * q, n as int, 2 * rest, a * b);
        }
        return None;
    }
    let mut q2: u128 = 2 * q;
    let mut r2: u128 = 2 * rest;
    if r2 >= n {
        assert((2 * q + 1) * n == (2 * q) * n + n) by (nonlinear_arith);
        q2 = q2 + 1;
        r2 = r2 - n;
    }
    let odde: u128 = b % 2;
    if odde == 0 {
        assert(odde * a == 0) by (nonlinear_arith)
            requires
                odde == 0,
        ;
        return Some((q2, r2));
    }
    let qa: u128 = a / n;
    let ra: u128 = a % n;
    assert(a == qa * n + ra) by (nonlinear_arith)
        requires
            qa == a / n,
            ra == a % n,
            n > 0,
    ;
    assert((q2 + qa) * n == q2 * n + qa * n) by (nonlinear_arith);
    assert(odde * a == a) by (nonlinear_arith)
        requires
            odde == 1,
    ;
    let mut q3: u128 = match q2.checked_add(qa) {
        Some(x) => x,
        None => {
            proof {
                lemma_overlop(q2 + qa, n as int, r2 + ra, a * b);
            }
            return None;
        },
    };
    let mut r3: u128 = r2 + ra;
    if r3 >= n {
        assert((q3 + 1) * n == q3 * n + n) by (nonlinear_arith);
        if q3 == 0xffff_ffff_ffff_ffff_ffff_ffff_ffff_ffff {
            proof {
                lemma_overlop(q3 + 1, n as int, r3 - n, a * b);
            }
            return None;
        }
        q3 = q3 + 1;
        r3 = r3 - n;
    }
    Some((q3, r3))
}

fn storrelsen(v: i128) -> (r: u128)
    requires
        v > i128::MIN,
    ensures
        v >= 0 ==> r == v,
        v < 0 ==> r == -v,
        r <= i128::MAX,
{
    if v < 0 {
        (-v) as u128
    } else {
        v as u128
    }
}

/// The product of `a` and `b` divided by `n`, cut off towards zero; none where
/// that is more than 128 bits hold.
pub fn gang_del(a: i128, b: i128, n: i128) -> (r: Option<i128>)
    requires
        a > i128::MIN,
        b > i128::MIN,
        n > 0,
    ensures
        r matches Some(x) ==> x == kvotient(a * b, n as int) && x > i128::MIN,
        r is None ==> !(-i128::MAX <= kvotient(a * b, n as int) <= i128::MAX),
{
    let minus: bool = (a < 0) != (b < 0);
    let x: u128 = storrelsen(a);
    let y: u128 = storrelsen(b);
    proof {
        if minus {
            assert(a * b == -(x * y)) by (nonlinear_arith)
                requires
                    (a == -x && b == y) || (a == x && b == -y),
            ;
        } else {
            assert(a * b == x * y) by (nonlinear_arith)
                requires
                    (a == -x && b == -y) || (a == x && b == y),
            ;
        }
        assert(x * y >= 0) by (nonlinear_arith)
            requires
                x >= 0,
                y >= 0,
        ;
    }
    match delt_produkt(x, y, n as u128) {
        Some((q, rest)) => {
            assert((x * y) / (n as int) == q) by (nonlinear_arith)
                requires
                    q * n + rest == x * y,
                    0 <= rest < n,
            ;
            if q > i128::MAX as u128 {
                return None;
            }
            if minus {
                Some(-(q as i128))
            } else {
                Some(q as i128)
            }
        },
        None => {
            assert((x * y) / (n as int) >= 0x1_0000_0000_0000_0000_0000_0000_0000_0000) by (nonlinear_arith)
                requires
                    x * y >= 0x1_0000_0000_0000_0000_0000_0000_0000_0000 * n,
                    n > 0,
            ;
            None
        },
    }
}

pub fn del(a: i128, b: i128) -> (r: i128)
    requires
        b > 0,
        a > i128::MIN,
    ensures
        r == kvotient(a as int, b as int),
        a >= 0 ==> 0 <= r <= a,
        a < 0 ==> a <= r <= 0,
{
    if a < 0 {
        let p: i128 = -a;
        assert(0 <= p as int / b as int <= p) by (nonlinear_arith)
            requires
                b >= 1,
                p >= 0,
        ;
        -(p / b)
    } else {
        assert(0 <= a as int / b as int <= a) by (nonlinear_arith)
            requires
                b >= 1,
                a >= 0,
        ;
        a / b
    }
}

// ---------------------------------------------------------------------------
// Thousands
// ---------------------------------------------------------------------------

/// Digits in groups of three from the right, with a space between the groups.
pub open spec fn grupper(s: Seq<char>) -> Seq<char>
    decreases s.len(),
{
    if s.len() <= 3 {
        s
    } else {
        grupper(s.take(s.len() - 3)) + seq![' '] + s.skip(s.len() - 3)
    }
}

fn grupper_siffer(s: &Vec<char>) -> (r: Vec<char>)
    ensures
        r@ == grupper(s@),
    decreases s@.len(),
{
    let n: usize = s.len();
    if n <= 3 {
        let r: Vec<char> = text::slice(s.as_slice(), 0, n);
        assert(r@ =~= s@);
        return r;
    }
    let foran: Vec<char> = text::slice(s.as_slice(), 0, n - 3);
    assert(foran@ =~= s@.take(n - 3));
    let bak: Vec<char> = text::slice(s.as_slice(), n - 3, n);
    assert(bak@ =~= s@.skip(n - 3));
    let mut ut: Vec<char> = grupper_siffer(&foran);
    ut.push(' ');
    let ghost midt = ut@;
    push_all(&mut ut, bak.as_slice());
    assert(ut@ =~= grupper(s@.take(n - 3)) + seq![' '] + s@.skip(n - 3));
    ut
}

/// The nearest whole; half goes away from zero.
pub open spec fn nermeste(v: nat) -> nat {
    (v + 50_000_000) / 100_000_000
}

/// An amount in wholes with a space between the thousands.
pub open spec fn tusener(v: int) -> Seq<char> {
    if v < 0 {
        seq!['-'] + grupper(number_text::decimal(nermeste((-v) as nat)))
    } else {
        grupper(number_text::decimal(nermeste(v as nat)))
    }
}

/// 1234567.8 as `1 234 568`.
pub fn fmt_thousands(v: i128) -> (r: String)
    requires
        -0x4000_0000_0000_0000_0000_0000_0000_0000 < v < 0x4000_0000_0000_0000_0000_0000_0000_0000,
    ensures
        r@ == tusener(v as int),
{
    let n: u128 = if v < 0 {
        (-v) as u128
    } else {
        v as u128
    };
    let hele: u128 = (n + 50_000_000) / 100_000_000;
    let siffer: Vec<char> = number_text::write_decimal(hele);
    let g: Vec<char> = grupper_siffer(&siffer);
    if v < 0 {
        let mut ut: Vec<char> = Vec::new();
        ut.push('-');
        push_all(&mut ut, g.as_slice());
        assert(ut@ =~= tusener(v as int));
        string_of(ut.as_slice())
    } else {
        string_of(g.as_slice())
    }
}

/// A whole number with a space between the thousands.
pub fn med_skilletegn(n: u128) -> (r: String)
    ensures
        r@ == grupper(number_text::decimal(n as nat)),
{
    let siffer: Vec<char> = number_text::write_decimal(n);
    let g: Vec<char> = grupper_siffer(&siffer);
    string_of(g.as_slice())
}

pub open spec fn uten_mellomrom(s: Seq<char>) -> Seq<char> {
    s.filter(|c: char| c != ' ')
}

/// Taking the spaces out of grouped digits gives the digits back.
pub proof fn law_grupper_mister_ingenting(s: Seq<char>)
    requires
        number_text::all_digits(s),
    ensures
        uten_mellomrom(grupper(s)) == s,
    decreases s.len(),
{
    let p = |c: char| c != ' ';
    if s.len() <= 3 {
        lemma_filter_alt(s);
    } else {
        let a = s.take(s.len() - 3);
        let b = s.skip(s.len() - 3);
        assert(number_text::all_digits(a));
        assert(number_text::all_digits(b));
        law_grupper_mister_ingenting(a);
        lemma_filter_alt(b);
        let m = seq![' '];
        assert(m.filter(p) =~= Seq::empty()) by {
            reveal_with_fuel(Seq::filter, 2);
        }
        Seq::filter_distributes_over_add(grupper(a) + m, b, p);
        Seq::filter_distributes_over_add(grupper(a), m, p);
        assert(uten_mellomrom(grupper(s)) =~= a + b);
        assert(a + b =~= s);
    }
}

proof fn lemma_filter_alt(s: Seq<char>)
    requires
        number_text::all_digits(s),
    ensures
        s.filter(|c: char| c != ' ') == s,
    decreases s.len(),
{
    reveal(Seq::filter);
    if s.len() > 0 {
        let d = s.drop_last();
        assert(number_text::all_digits(d));
        lemma_filter_alt(d);
        assert(number_text::is_digit(s[s.len() - 1]));
        assert(d.push(s.last()) =~= s);
    }
}

/// A quotient is the fraction with what is behind the point cut off: it never
/// leaves a whole divisor over, and never lies further from zero than the fraction.
pub proof fn law_kvotient(a: int, b: int)
    requires
        b > 0,
    ensures
        a >= 0 ==> 0 <= kvotient(a, b) && kvotient(a, b) * b <= a < (kvotient(a, b) + 1) * b,
        a <= 0 ==> kvotient(a, b) <= 0 && (kvotient(a, b) - 1) * b < a <= kvotient(a, b) * b,
{
    let m = if a < 0 {
        -a
    } else {
        a
    };
    let q = m / b;
    assert(0 <= q && q * b <= m && m < (q + 1) * b) by (nonlinear_arith)
        requires
            q == m / b,
            m >= 0,
            b > 0,
    ;
    assert((-q) * b == -(q * b) && (-q - 1) * b == -((q + 1) * b)) by (nonlinear_arith);
}

/// Rounding goes to the nearest whole, and from the middle to the even one.
pub proof fn law_avrundet(v: nat, enhet: nat)
    requires
        enhet > 0,
    ensures
        2 * v <= (2 * avrundet(v, enhet) + 1) * enhet,
        (2 * avrundet(v, enhet) - 1) * enhet <= 2 * v,
        2 * v == (2 * avrundet(v, enhet) + 1) * enhet || 2 * v == (2 * avrundet(v, enhet) - 1) * enhet
            ==> avrundet(v, enhet) % 2 == 0,
{
    let q = v / enhet;
    let r = v % enhet;
    let a = avrundet(v, enhet);
    assert(v == q * enhet + r) by {
        vstd::arithmetic::div_mod::lemma_fundamental_div_mod(v as int, enhet as int);
        assert(enhet * q == q * enhet) by (nonlinear_arith);
    }
    assert((2 * q + 1) * enhet == 2 * (q * enhet) + enhet && (2 * q - 1) * enhet == 2 * (q * enhet) - enhet && (2 * q
        + 3) * enhet == 2 * (q * enhet) + 3 * enhet) by (nonlinear_arith);
    assert(a == q || a == q + 1);
    if a == q + 1 {
        assert((2 * a - 1) * enhet == (2 * q + 1) * enhet && (2 * a + 1) * enhet == (2 * q + 3) * enhet);
    }
}

/// An amount in wholes is the nearest one, and from the middle the one away
/// from nothing.
pub proof fn law_nermeste(v: nat)
    ensures
        nermeste(v) * 100_000_000 <= v + 50_000_000 < (nermeste(v) + 1) * 100_000_000,
{
}

proof fn lemma_siffer_foran(d: Seq<char>, n: int)
    requires
        0 <= n <= d.len(),
    ensures
        forste_siffer(d, n) == number_text::digits_value(d.take(n)),
    decreases n,
{
    if n > 0 {
        lemma_siffer_foran(d, n - 1);
        assert(d.take(n).drop_last() =~= d.take(n - 1));
        assert(d.take(n).last() == d[n - 1]);
    } else {
        assert(d.take(0) =~= Seq::empty());
    }
}

proof fn lemma_flere_plasser(d: Seq<char>, n: int, k: nat)
    requires
        0 <= n,
        d.len() <= n,
    ensures
        forste_siffer(d, n + k) == forste_siffer(d, n) * tierpotens(k),
    decreases k,
{
    let f = forste_siffer(d, n);
    if k > 0 {
        let p = tierpotens((k - 1) as nat);
        lemma_flere_plasser(d, n, (k - 1) as nat);
        assert((f * p) * 10 == f * (10 * p)) by (nonlinear_arith);
        assert(forste_siffer(d, n + k) == forste_siffer(d, n + (k - 1)) * 10);
    } else {
        assert(f * 1 == f);
    }
}

proof fn lemma_uten_merke(s: Seq<char>, i: int)
    requires
        0 <= i <= s.len(),
        forall|j: int| 0 <= j < s.len() ==> #[trigger] s[j] != 'e' && s[j] != 'E',
    ensures
        eksponentmerke(s, i) == s.len(),
    decreases s.len() - i,
{
    if i < s.len() {
        lemma_uten_merke(s, i + 1);
    }
}

proof fn lemma_merket(s: Seq<char>, i: int, k: int)
    requires
        0 <= i <= k < s.len(),
        s[k] == 'e',
        forall|j: int| 0 <= j < k ==> #[trigger] s[j] != 'e' && s[j] != 'E',
    ensures
        eksponentmerke(s, i) == k,
    decreases k - i,
{
    if i < k {
        assert(s[i] != 'e');
        lemma_merket(s, i + 1, k);
    }
}

proof fn lemma_delt(h: Seq<char>, b: Seq<char>)
    requires
        number_text::all_digits(h),
        number_text::all_digits(b),
    ensures
        punktum(h + seq!['.'] + b) == (h, b),
        punktum(h) == (h, Seq::<char>::empty()),
{
    let s = h + seq!['.'] + b;
    assert forall|j: int| 0 <= j < h.len() implies s[j] != '.' by {
        assert(number_text::is_digit(h[j]));
    }
    text::lemma_first_char_is(s, '.', 0, h.len() as int);
    assert(s.take(h.len() as int) =~= h);
    assert(s.skip(h.len() as int + 1) =~= b);
    text::lemma_first_char(h, '.', 0);
    match text::first_char(h, '.', 0) {
        Some(i) => {
            assert(number_text::is_digit(h[i]));
        },
        None => {},
    }
}

/// Digits with a decimal point among them stand for the number that they
/// spell together, moved down by as many places as stand behind the point;
/// what stands behind the eighth of those is cut off.
pub proof fn law_tall_leses(h: Seq<char>, b: Seq<char>)
    requires
        number_text::all_digits(h),
        number_text::all_digits(b),
        h.len() + b.len() > 0,
    ensures
        b.len() <= 8 ==> storrelse(h + seq!['.'] + b) == Some(
            number_text::digits_value(h + b) * tierpotens((8 - b.len()) as nat),
        ),
        b.len() > 8 ==> storrelse(h + seq!['.'] + b) == Some(number_text::digits_value(h + b.take(8))),
        h.len() > 0 ==> storrelse(h) == Some(number_text::digits_value(h) * 100_000_000),
{
    let s = h + seq!['.'] + b;
    let d = h + b;
    lemma_delt(h, b);
    assert forall|j: int| 0 <= j < s.len() implies #[trigger] s[j] != 'e' && s[j] != 'E' by {
        if j < h.len() {
            assert(number_text::is_digit(h[j]));
        } else if j > h.len() {
            assert(number_text::is_digit(b[j - h.len() - 1]));
        }
    }
    lemma_uten_merke(s, 0);
    assert(s.take(s.len() as int) =~= s);
    if b.len() <= 8 {
        lemma_siffer_foran(d, d.len() as int);
        assert(d.take(d.len() as int) =~= d);
        lemma_flere_plasser(d, d.len() as int, (8 - b.len()) as nat);
        assert(d.len() + (8 - b.len()) == h.len() + 8);
    } else {
        lemma_siffer_foran(d, h.len() as int + 8);
        assert(d.take(h.len() as int + 8) =~= h + b.take(8));
    }
    if h.len() > 0 {
        assert forall|j: int| 0 <= j < h.len() implies #[trigger] h[j] != 'e' && h[j] != 'E' by {
            assert(number_text::is_digit(h[j]));
        }
        lemma_uten_merke(h, 0);
        assert(h.take(h.len() as int) =~= h);
        assert(h + Seq::<char>::empty() =~= h);
        lemma_siffer_foran(h, h.len() as int);
        lemma_flere_plasser(h, h.len() as int, 8);
        reveal_with_fuel(tierpotens, 9);
    }
}

/// A power of ten behind the digits makes the number so many times larger.
pub proof fn law_tierpotens_leses(h: Seq<char>, x: Seq<char>, e: nat)
    requires
        number_text::all_digits(h),
        h.len() > 0,
        number_text::int_of(x) == Some(e as int),
        e <= i64::MAX,
    ensures
        storrelse(h + seq!['e'] + x) == Some(number_text::digits_value(h) * 100_000_000 * tierpotens(e)),
{
    let s = h + seq!['e'] + x;
    assert forall|j: int| 0 <= j < h.len() implies #[trigger] s[j] != 'e' && s[j] != 'E' by {
        assert(number_text::is_digit(h[j]));
    }
    lemma_merket(s, 0, h.len() as int);
    assert(s.take(h.len() as int) =~= h);
    assert(s.skip(h.len() as int + 1) =~= x);
    lemma_delt(h, Seq::empty());
    assert(h + Seq::<char>::empty() =~= h);
    lemma_siffer_foran(h, h.len() as int);
    assert(h.take(h.len() as int) =~= h);
    lemma_flere_plasser(h, h.len() as int, 8);
    lemma_flere_plasser(h, h.len() as int + 8, e);
    reveal_with_fuel(tierpotens, 9);
}

/// A sign before an amount that has none: a minus turns it about and a plus
/// leaves it.
pub proof fn law_fortegn_leses(t: Seq<char>)
    requires
        t.len() > 0,
        t[0] != '-' && t[0] != '+',
    ensures
        belop_av(seq!['+'] + t) == belop_av(t),
        belop_av(seq!['-'] + t) == (match belop_av(t) {
            Some(v) => Some(-v),
            None => None::<int>,
        }),
{
    assert((seq!['+'] + t).skip(1) =~= t);
    assert((seq!['-'] + t).skip(1) =~= t);
}

proof fn lemma_verdi_av_to(a: Seq<char>, b: Seq<char>)
    ensures
        number_text::digits_value(a + b) == number_text::digits_value(a) * tierpotens(b.len())
            + number_text::digits_value(b),
    decreases b.len(),
{
    let x = number_text::digits_value(a);
    if b.len() == 0 {
        assert(a + b =~= a);
        assert(x * 1 == x);
    } else {
        lemma_verdi_av_to(a, b.drop_last());
        assert((a + b).drop_last() =~= a + b.drop_last());
        assert((a + b).last() == b.last());
        let p = tierpotens((b.len() - 1) as nat);
        assert((x * p) * 10 == x * (10 * p)) by (nonlinear_arith);
    }
}

proof fn lemma_bare_null(k: nat)
    ensures
        number_text::digits_value(number_text::zeros(k as int)) == 0,
        number_text::all_digits(number_text::zeros(k as int)),
    decreases k,
{
    if k > 0 {
        lemma_bare_null((k - 1) as nat);
        assert(number_text::zeros(k as int).drop_last() =~= number_text::zeros(k - 1));
        assert(number_text::zeros(k as int).last() == '0');
    }
}

proof fn lemma_saa_mange(n: nat, k: nat)
    requires
        n < tierpotens(k),
        k > 0,
    ensures
        number_text::decimal(n).len() <= k,
    decreases k,
{
    if n >= 10 {
        if k == 1 {
            reveal_with_fuel(tierpotens, 2);
        } else {
            assert(n / 10 < tierpotens((k - 1) as nat));
            lemma_saa_mange(n / 10, (k - 1) as nat);
        }
    }
}

/// A number written with leading zeros has the length that was asked for and
/// is that number.
pub proof fn law_utfylt(n: nat, k: nat)
    requires
        n < tierpotens(k),
        k > 0,
    ensures
        number_text::padded(n, k).len() == k,
        number_text::all_digits(number_text::padded(n, k)),
        number_text::digits_value(number_text::padded(n, k)) == n,
{
    let d = number_text::decimal(n);
    number_text::lemma_decimal(n);
    lemma_saa_mange(n, k);
    let z = number_text::zeros(k - d.len());
    lemma_bare_null((k - d.len()) as nat);
    lemma_verdi_av_to(z, d);
    assert(0 * tierpotens(d.len()) == 0);
    assert forall|j: int| 0 <= j < (z + d).len() implies number_text::is_digit(#[trigger] (z + d)[j]) by {
        if j < z.len() {
            assert(number_text::is_digit(z[j]));
        } else {
            assert(number_text::is_digit(d[j - z.len()]));
        }
    }
}

/// An amount written with all its decimals is read back as it was.
pub proof fn law_belop_leses_tilbake(v: int)
    requires
        -i64::MAX <= v <= i64::MAX,
    ensures
        belop_av(belop_tekst(v, 8)) == Some(v),
{
    let n = if v < 0 {
        (-v) as nat
    } else {
        v as nat
    };
    reveal_with_fuel(tierpotens, 9);
    assert(tierpotens(0) == 1);
    assert(tierpotens(8) == 100_000_000);
    assert(avrundet(n, 1) == n);
    let h = number_text::decimal(n / 100_000_000);
    let b = number_text::padded(n % 100_000_000, 8);
    number_text::lemma_decimal(n / 100_000_000);
    law_utfylt(n % 100_000_000, 8);
    law_tall_leses(h, b);
    lemma_verdi_av_to(h, b);
    let t = h + seq!['.'] + b;
    assert(siffertekst(n, 8, 8) =~= t);
    assert(storrelse(t) == Some(n));
    assert(number_text::is_digit(h[0]));
    assert(t[0] == h[0]);
    law_fortegn_leses(t);
}

}
