//! Numbers written out and read back as text.
use crate::text::{push_all, string_of};
use vstd::prelude::*;

verus! {

pub open spec fn is_digit(c: char) -> bool {
    '0' <= c && c <= '9'
}

pub open spec fn digit_value(c: char) -> nat {
    ((c as u32) - 48) as nat
}

pub open spec fn digit_char(d: nat) -> char {
    ((d + 48) as u32) as char
}

pub open spec fn all_digits(s: Seq<char>) -> bool {
    forall|i: int| 0 <= i < s.len() ==> is_digit(#[trigger] s[i])
}

/// The number that a run of decimal digits stands for.
pub open spec fn digits_value(s: Seq<char>) -> nat
    decreases s.len(),
{
    if s.len() == 0 {
        0
    } else {
        digits_value(s.drop_last()) * 10 + digit_value(s.last())
    }
}

/// A number in decimal digits, without leading zeros.
pub open spec fn decimal(n: nat) -> Seq<char>
    decreases n,
{
    if n < 10 {
        seq![digit_char(n)]
    } else {
        decimal(n / 10).push(digit_char(n % 10))
    }
}

/// A whole number in decimal digits, with a minus sign where it is negative.
pub open spec fn signed_decimal(n: int) -> Seq<char> {
    if n < 0 {
        seq!['-'] + decimal((-n) as nat)
    } else {
        decimal(n as nat)
    }
}

/// A number in decimal digits with zeros in front up to `width` digits.
pub open spec fn padded(n: nat, width: nat) -> Seq<char> {
    zeros((width - decimal(n).len()) as int) + decimal(n)
}

pub open spec fn zeros(k: int) -> Seq<char> {
    Seq::new(if k > 0 { k as nat } else { 0 }, |i: int| '0')
}

fn digit(d: u8) -> (r: char)
    requires
        d < 10,
    ensures
        r == digit_char(d as nat),
        is_digit(r),
        digit_value(r) == d,
{
    (48 + d) as char
}

fn value(c: char) -> (r: u8)
    requires
        is_digit(c),
    ensures
        r == digit_value(c),
        r < 10,
{
    (c as u8) - 48
}

/// Writing a digit and reading it gives the digit back.
proof fn lemma_digit(d: nat)
    requires
        d < 10,
    ensures
        is_digit(digit_char(d)),
        digit_value(digit_char(d)) == d,
{
}

/// What `decimal` writes are digits, at least one, and their value is the number.
pub proof fn lemma_decimal(n: nat)
    ensures
        all_digits(decimal(n)),
        decimal(n).len() >= 1,
        digits_value(decimal(n)) == n,
    decreases n,
{
    if n < 10 {
        lemma_digit(n);
        reveal_with_fuel(digits_value, 2);
        assert(decimal(n).drop_last() =~= Seq::<char>::empty());
    } else {
        lemma_decimal(n / 10);
        lemma_digit(n % 10);
        assert(decimal(n).drop_last() =~= decimal(n / 10));
    }
}

pub fn write_decimal(n: u128) -> (r: Vec<char>)
    ensures
        r@ == decimal(n as nat),
    decreases n,
{
    if n < 10 {
        let c: char = digit(n as u8);
        let mut ut: Vec<char> = Vec::new();
        ut.push(c);
        assert(ut@ =~= seq![c]);
        ut
    } else {
        let mut ut: Vec<char> = write_decimal(n / 10);
        ut.push(digit((n % 10) as u8));
        ut
    }
}

/// The number in decimal digits.
pub fn decimal_text(n: u128) -> (r: String)
    ensures
        r@ == decimal(n as nat),
{
    let cs: Vec<char> = write_decimal(n);
    string_of(cs.as_slice())
}

/// The whole number in decimal digits.
pub fn write_signed(n: i128) -> (r: Vec<char>)
    requires
        n > i128::MIN,
    ensures
        r@ == signed_decimal(n as int),
{
    if n < 0 {
        let mut ut: Vec<char> = Vec::new();
        ut.push('-');
        let siffer: Vec<char> = write_decimal((-n) as u128);
        push_all(&mut ut, siffer.as_slice());
        assert(ut@ =~= seq!['-'] + decimal((-n) as nat));
        ut
    } else {
        write_decimal(n as u128)
    }
}

/// The number with zeros in front up to `width` digits.
pub fn write_padded(n: u128, width: usize) -> (r: Vec<char>)
    ensures
        r@ == padded(n as nat, width as nat),
{
    let siffer: Vec<char> = write_decimal(n);
    let mut ut: Vec<char> = Vec::new();
    if siffer.len() < width {
        let k: usize = width - siffer.len();
        let mut i: usize = 0;
        while i < k
            invariant
                i <= k,
                ut@ == zeros(i as int),
            decreases k - i,
        {
            ut.push('0');
            i += 1;
            assert(ut@ =~= zeros(i as int));
        }
    }
    assert(ut@ =~= zeros((width - siffer@.len()) as int));
    push_all(&mut ut, siffer.as_slice());
    ut
}

// ---------------------------------------------------------------------------
// Reading
// ---------------------------------------------------------------------------

/// The number that a text stands for: digits, at least one, with a plus sign
/// before them or none.
pub open spec fn nat_of(s: Seq<char>) -> Option<nat> {
    let t = if s.len() > 0 && s[0] == '+' {
        s.skip(1)
    } else {
        s
    };
    if t.len() > 0 && all_digits(t) {
        Some(digits_value(t))
    } else {
        None
    }
}

/// The whole number that a text stands for: digits, at least one, with a plus
/// or a minus sign before them or none.
pub open spec fn int_of(s: Seq<char>) -> Option<int> {
    if s.len() > 0 && s[0] == '-' {
        let t = s.skip(1);
        if t.len() > 0 && all_digits(t) {
            Some(-(digits_value(t) as int))
        } else {
            None
        }
    } else {
        match nat_of(s) {
            Some(n) => Some(n as int),
            None => None,
        }
    }
}

/// The number if it is at most `max`.
pub open spec fn at_most(n: Option<nat>, max: nat) -> Option<nat> {
    match n {
        Some(x) => if x <= max {
            Some(x)
        } else {
            None
        },
        None => None,
    }
}

/// The number if it lies from `min` to `max`.
pub open spec fn within(n: Option<int>, min: int, max: int) -> Option<int> {
    match n {
        Some(x) => if min <= x <= max {
            Some(x)
        } else {
            None
        },
        None => None,
    }
}

pub proof fn lemma_digits_prefix(s: Seq<char>, i: int)
    requires
        0 <= i <= s.len(),
    ensures
        digits_value(s.take(i)) <= digits_value(s),
    decreases s.len() - i,
{
    if i == s.len() {
        assert(s.take(i) =~= s);
    } else {
        lemma_digits_prefix(s, i + 1);
        assert(s.take(i + 1).drop_last() =~= s.take(i));
    }
}

/// Reads the digits from `from` on; `None` where a character is no digit or
/// the number is over `max`.
pub fn read_digits(s: &[char], from: usize, max: u128) -> (r: Option<u128>)
    requires
        from <= s@.len(),
        max <= 0x7fff_ffff_ffff_ffff_ffff_ffff_ffff_ffff,
    ensures
        r is Some == (all_digits(s@.skip(from as int)) && digits_value(s@.skip(from as int)) <= max),
        r is Some ==> r->0 == digits_value(s@.skip(from as int)),
{
    let ghost t = s@.skip(from as int);
    let mut n: u128 = 0;
    let mut i: usize = from;
    assert(t.take(0) =~= Seq::<char>::empty());
    while i < s.len()
        invariant
            from <= i <= s@.len(),
            max <= 0x7fff_ffff_ffff_ffff_ffff_ffff_ffff_ffff,
            t == s@.skip(from as int),
            all_digits(t.take(i - from)),
            n == digits_value(t.take(i - from)),
            n <= max,
        decreases s.len() - i,
    {
        assert(t.take(i + 1 - from).drop_last() =~= t.take(i - from));
        assert(t[i - from] == s@[i as int]);
        let c: char = s[i];
        if !('0' <= c && c <= '9') {
            assert(!is_digit(t[i - from]));
            return None;
        }
        let d: u128 = value(c) as u128;
        proof {
            lemma_digits_prefix(t, i + 1 - from);
            assert(t.take(i + 1 - from).last() == t[i - from]);
        }
        if n > (max - if d <= max { d } else { max }) / 10 {
            assert(n * 10 + d > max);
            return None;
        }
        if n * 10 + d > max {
            return None;
        }
        n = n * 10 + d;
        i += 1;
    }
    assert(t.take(i - from) =~= t);
    Some(n)
}

/// Reads a number of at most `max`.
pub fn read_nat(s: &[char], max: u128) -> (r: Option<u128>)
    requires
        max <= 0x7fff_ffff_ffff_ffff_ffff_ffff_ffff_ffff,
    ensures
        r is Some == at_most(nat_of(s@), max as nat) is Some,
        r is Some ==> nat_of(s@) == Some(r->0 as nat) && r->0 <= max,
{
    let from: usize = if s.len() > 0 && s[0] == '+' {
        1
    } else {
        0
    };
    assert(s@.skip(0) =~= s@);
    if from >= s.len() {
        return None;
    }
    read_digits(s, from, max)
}

/// Reads a `u8`.
pub fn read_u8(s: &[char]) -> (r: Option<u8>)
    ensures
        r is Some == at_most(nat_of(s@), 255) is Some,
        r is Some ==> nat_of(s@) == Some(r->0 as nat),
{
    match read_nat(s, 255) {
        Some(n) => Some(n as u8),
        None => None,
    }
}

/// Reads a `u64`.
pub fn read_u64(s: &[char]) -> (r: Option<u64>)
    ensures
        r is Some == at_most(nat_of(s@), u64::MAX as nat) is Some,
        r is Some ==> nat_of(s@) == Some(r->0 as nat),
{
    match read_nat(s, 0xffff_ffff_ffff_ffff) {
        Some(n) => Some(n as u64),
        None => None,
    }
}

/// Reads an `i64`.
pub fn read_i64(s: &[char]) -> (r: Option<i64>)
    ensures
        r is Some == within(int_of(s@), i64::MIN as int, i64::MAX as int) is Some,
        r is Some ==> int_of(s@) == Some(r->0 as int),
{
    if s.len() > 0 && s[0] == '-' {
        if s.len() == 1 {
            return None;
        }
        match read_digits(s, 1, 0x8000_0000_0000_0000) {
            Some(n) => Some((-(n as i128)) as i64),
            None => None,
        }
    } else {
        match read_nat(s, 0x7fff_ffff_ffff_ffff) {
            Some(n) => Some(n as i64),
            None => None,
        }
    }
}

/// A number that is written out and read gives the number back.
pub proof fn law_decimal_read_back(n: nat)
    ensures
        nat_of(decimal(n)) == Some(n),
{
    lemma_decimal(n);
    assert(is_digit(decimal(n)[0]));
}

}
