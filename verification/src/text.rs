//! Text as sequences of characters: searching, splitting, numbers.
use vstd::prelude::*;
use vstd::std_specs::iter::*;

verus! {

/// `String::push`: appends one character to the end of the string.
pub assume_specification[ String::push ](s: &mut String, c: char)
    ensures
        final(s)@ == old(s)@.push(c),
;

/// The lower-case form of a text, by the Unicode tables.
pub uninterp spec fn lowercase(s: Seq<char>) -> Seq<char>;

/// The upper-case form of a text, by the Unicode tables.
pub uninterp spec fn uppercase(s: Seq<char>) -> Seq<char>;

pub open spec fn ascii(s: Seq<char>) -> bool {
    forall|i: int| 0 <= i < s.len() ==> (#[trigger] s[i] as u32) < 128
}

pub open spec fn lower_char(c: char) -> char {
    if 'A' <= c && c <= 'Z' {
        ((c as u32) + 32) as char
    } else {
        c
    }
}

pub open spec fn upper_char(c: char) -> char {
    if 'a' <= c && c <= 'z' {
        ((c as u32) - 32) as char
    } else {
        c
    }
}

/// A text with its letters A to Z in lower case and everything else as it is.
pub open spec fn ascii_lower(s: Seq<char>) -> Seq<char> {
    s.map_values(|c: char| lower_char(c))
}

/// A text with its letters a to z in upper case and everything else as it is.
pub open spec fn ascii_upper(s: Seq<char>) -> Seq<char> {
    s.map_values(|c: char| upper_char(c))
}

/// `str::to_lowercase`: the result is a function of the text alone; on a text of
/// ASCII characters it changes the letters A to Z and nothing else.
#[verifier::external_body]
pub(crate) fn to_lowercase(s: &str) -> (r: String)
    ensures
        r@ == lowercase(s@),
        ascii(s@) ==> r@ == ascii_lower(s@),
{
    s.to_lowercase()
}

/// `str::to_uppercase`: the result is a function of the text alone; on a text of
/// ASCII characters it changes the letters a to z and nothing else.
#[verifier::external_body]
pub(crate) fn to_uppercase(s: &str) -> (r: String)
    ensures
        r@ == uppercase(s@),
        ascii(s@) ==> r@ == ascii_upper(s@),
{
    s.to_uppercase()
}

/// The characters of a text, in order.
pub fn chars_of(s: &str) -> (r: Vec<char>)
    ensures
        r@ == s@,
{
    broadcast use vstd::string::axiom_spec_iter;
    let mut out: Vec<char> = Vec::new();
    for c in it: s.chars()
        invariant
            out@ == it.seq().take(it.index() as int),
    {
        out.push(c);
    }
    out
}

/// A string made of the given characters.
pub fn string_of(cs: &[char]) -> (r: String)
    ensures
        r@ == cs@,
{
    let mut out: String = String::new();
    let n: usize = cs.len();
    let mut i: usize = 0;
    while i < n
        invariant
            i <= n,
            n == cs@.len(),
            out@ == cs@.take(i as int),
        decreases n - i,
    {
        out.push(cs[i]);
        i += 1;
        assert(cs@.take(i as int) =~= cs@.take(i - 1).push(cs@[i - 1]));
    }
    assert(cs@.take(n as int) =~= cs@);
    out
}

/// Appends `tail` to `out`.
pub fn push_all(out: &mut Vec<char>, tail: &[char])
    ensures
        final(out)@ == old(out)@ + tail@,
{
    let n: usize = tail.len();
    let mut i: usize = 0;
    while i < n
        invariant
            i <= n,
            n == tail@.len(),
            out@ == old(out)@ + tail@.take(i as int),
        decreases n - i,
    {
        out.push(tail[i]);
        i += 1;
        assert(tail@.take(i as int) =~= tail@.take(i - 1).push(tail@[i - 1]));
        assert(out@ =~= old(out)@ + tail@.take(i as int));
    }
    assert(tail@.take(n as int) =~= tail@);
}

/// Appends the characters of `tail` to `out`.
pub fn push_text(out: &mut Vec<char>, tail: &str)
    ensures
        final(out)@ == old(out)@ + tail@,
{
    let cs: Vec<char> = chars_of(tail);
    push_all(out, cs.as_slice());
}

/// The part of `cs` from `a` up to, not including, `b`.
pub fn slice(cs: &[char], a: usize, b: usize) -> (r: Vec<char>)
    requires
        a <= b <= cs@.len(),
    ensures
        r@ == cs@.subrange(a as int, b as int),
{
    let mut out: Vec<char> = Vec::new();
    let mut i: usize = a;
    while i < b
        invariant
            a <= i <= b <= cs@.len(),
            out@ == cs@.subrange(a as int, i as int),
        decreases b - i,
    {
        out.push(cs[i]);
        i += 1;
        assert(cs@.subrange(a as int, i as int) =~= cs@.subrange(a as int, i - 1).push(cs@[i - 1]));
    }
    out
}

/// Whether two texts are the same.
pub fn same_chars(a: &[char], b: &[char]) -> (r: bool)
    ensures
        r == (a@ == b@),
{
    if a.len() != b.len() {
        return false;
    }
    let n: usize = a.len();
    let mut i: usize = 0;
    while i < n
        invariant
            i <= n,
            n == a@.len(),
            n == b@.len(),
            forall|j: int| 0 <= j < i ==> a@[j] == b@[j],
        decreases n - i,
    {
        if a[i] != b[i] {
            assert(a@[i as int] != b@[i as int]);
            return false;
        }
        i += 1;
    }
    assert(a@ =~= b@);
    true
}

/// Whether two texts are the same.
pub fn same(a: &str, b: &str) -> (r: bool)
    ensures
        r == (a@ == b@),
{
    let x: Vec<char> = chars_of(a);
    let y: Vec<char> = chars_of(b);
    same_chars(x.as_slice(), y.as_slice())
}

/// Whether `list` holds the text `s`.
pub fn holds(list: &Vec<String>, s: &str) -> (r: bool)
    ensures
        r == views(list@).contains(s@),
{
    let mut i: usize = 0;
    while i < list.len()
        invariant
            i <= list@.len(),
            forall|j: int| 0 <= j < i ==> views(list@)[j] != s@,
        decreases list.len() - i,
    {
        if same(list[i].as_str(), s) {
            assert(views(list@)[i as int] == s@);
            return true;
        }
        i += 1;
    }
    false
}

/// The texts that a list of strings holds.
pub open spec fn views(l: Seq<String>) -> Seq<Seq<char>> {
    l.map_values(|s: String| s@)
}

/// The texts that a list of character lists holds.
pub open spec fn seqs(l: Seq<Vec<char>>) -> Seq<Seq<char>> {
    l.map_values(|s: Vec<char>| s@)
}

pub fn copy_text(s: &String) -> (r: String)
    ensures
        r@ == s@,
{
    s.clone()
}

// ---------------------------------------------------------------------------
// Searching
// ---------------------------------------------------------------------------

/// Whether `p` stands in `s` from position `i` on.
pub open spec fn at(s: Seq<char>, p: Seq<char>, i: int) -> bool {
    0 <= i && i + p.len() <= s.len() && s.subrange(i, i + p.len()) == p
}

/// The first position from `from` on at which `p` stands in `s`.
pub open spec fn first_at(s: Seq<char>, p: Seq<char>, from: int) -> Option<int>
    decreases s.len() + 1 - from,
{
    if from < 0 || from + p.len() > s.len() {
        None
    } else if at(s, p, from) {
        Some(from)
    } else {
        first_at(s, p, from + 1)
    }
}

/// Whether `p` stands anywhere in `s`.
pub open spec fn has(s: Seq<char>, p: Seq<char>) -> bool {
    exists|i: int| at(s, p, i)
}

pub open spec fn starts(s: Seq<char>, p: Seq<char>) -> bool {
    at(s, p, 0)
}

pub fn is_at(s: &[char], p: &[char], i: usize) -> (r: bool)
    ensures
        r == at(s@, p@, i as int),
{
    let n: usize = s.len();
    let m: usize = p.len();
    if i > n || m > n - i {
        return false;
    }
    let mut k: usize = 0;
    while k < m
        invariant
            k <= m,
            m == p@.len(),
            n == s@.len(),
            i + m <= n,
            forall|j: int| 0 <= j < k ==> s@[i + j] == p@[j],
        decreases m - k,
    {
        if s[i + k] != p[k] {
            assert(s@.subrange(i as int, i + m)[k as int] != p@[k as int]);
            return false;
        }
        k += 1;
    }
    assert(s@.subrange(i as int, i + m) =~= p@);
    true
}

pub fn starts_with(s: &[char], p: &[char]) -> (r: bool)
    ensures
        r == starts(s@, p@),
{
    is_at(s, p, 0)
}

/// Whether the text begins with `p`.
pub fn text_starts(s: &str, p: &str) -> (r: bool)
    ensures
        r == starts(s@, p@),
{
    let x: Vec<char> = chars_of(s);
    let y: Vec<char> = chars_of(p);
    starts_with(x.as_slice(), y.as_slice())
}

pub fn find(s: &[char], p: &[char], from: usize) -> (r: Option<usize>)
    ensures
        r is Some == first_at(s@, p@, from as int) is Some,
        r is Some ==> first_at(s@, p@, from as int) == Some(r->0 as int) && at(s@, p@, r->0 as int)
            && from <= r->0,
{
    let n: usize = s.len();
    let m: usize = p.len();
    let mut i: usize = from;
    while i <= n && m <= n - i
        invariant
            n == s@.len(),
            m == p@.len(),
            from <= i,
            first_at(s@, p@, from as int) == first_at(s@, p@, i as int),
        decreases n + 1 - i,
    {
        if is_at(s, p, i) {
            return Some(i);
        }
        if i == n {
            assert(first_at(s@, p@, i + 1) is None);
            return None;
        }
        i += 1;
    }
    None
}

/// What the search gives: the first occurrence at or after `from`.
pub proof fn lemma_first_at(s: Seq<char>, p: Seq<char>, from: int)
    requires
        0 <= from,
    ensures
        first_at(s, p, from) matches Some(i) ==> from <= i && at(s, p, i) && (forall|j: int|
            from <= j < i ==> !at(s, p, j)),
        first_at(s, p, from) is None ==> (forall|j: int| from <= j ==> !at(s, p, j)),
    decreases s.len() + 1 - from,
{
    if from + p.len() > s.len() {
    } else if at(s, p, from) {
    } else {
        lemma_first_at(s, p, from + 1);
    }
}

pub fn contains(s: &[char], p: &[char]) -> (r: bool)
    ensures
        r == has(s@, p@),
{
    let r: Option<usize> = find(s, p, 0);
    proof {
        lemma_first_at(s@, p@, 0);
    }
    r.is_some()
}

/// Whether the text holds `p` somewhere.
pub fn text_has(s: &str, p: &str) -> (r: bool)
    ensures
        r == has(s@, p@),
{
    let x: Vec<char> = chars_of(s);
    let y: Vec<char> = chars_of(p);
    contains(x.as_slice(), y.as_slice())
}

/// The first position from `from` on that holds `c`.
pub open spec fn first_char(s: Seq<char>, c: char, from: int) -> Option<int>
    decreases s.len() - from,
{
    if from < 0 || from >= s.len() {
        None
    } else if s[from] == c {
        Some(from)
    } else {
        first_char(s, c, from + 1)
    }
}

pub fn find_char(s: &[char], c: char, from: usize) -> (r: Option<usize>)
    ensures
        r is Some == first_char(s@, c, from as int) is Some,
        r is Some ==> first_char(s@, c, from as int) == Some(r->0 as int) && from <= r->0 < s@.len()
            && s@[r->0 as int] == c,
{
    let mut i: usize = from;
    while i < s.len()
        invariant
            from <= i,
            first_char(s@, c, from as int) == first_char(s@, c, i as int),
        decreases s.len() - i,
    {
        if s[i] == c {
            return Some(i);
        }
        i += 1;
    }
    None
}

/// The last position that holds `c`.
pub open spec fn last_char(s: Seq<char>, c: char) -> Option<int>
    decreases s.len(),
{
    if s.len() == 0 {
        None
    } else if s.last() == c {
        Some(s.len() - 1)
    } else {
        last_char(s.drop_last(), c)
    }
}

pub fn rfind_char(s: &[char], c: char) -> (r: Option<usize>)
    ensures
        r is Some == last_char(s@, c) is Some,
        r is Some ==> last_char(s@, c) == Some(r->0 as int) && r->0 < s@.len() && s@[r->0 as int] == c,
{
    let mut i: usize = s.len();
    assert(s@.take(i as int) =~= s@);
    while i > 0
        invariant
            i <= s@.len(),
            last_char(s@, c) == last_char(s@.take(i as int), c),
        decreases i,
    {
        assert(s@.take(i as int).drop_last() =~= s@.take(i - 1));
        if s[i - 1] == c {
            return Some(i - 1);
        }
        i -= 1;
    }
    None
}

/// `s` with every `p` in it, from the left, replaced by `w`.
pub open spec fn replaced(s: Seq<char>, p: Seq<char>, w: Seq<char>) -> Seq<char>
    decreases s.len(),
{
    if p.len() == 0 {
        s
    } else {
        match first_at(s, p, 0) {
            Some(i) => if 0 <= i && i + p.len() <= s.len() {
                s.take(i) + w + replaced(s.skip(i + p.len()), p, w)
            } else {
                s
            },
            None => s,
        }
    }
}

proof fn lemma_first_at_shift(s: Seq<char>, p: Seq<char>, k: int, from: int)
    requires
        0 <= k <= s.len(),
        0 <= from,
    ensures
        first_at(s.skip(k), p, from) == (match first_at(s, p, from + k) {
            Some(i) => Some(i - k),
            None => None::<int>,
        }),
    decreases s.len() + 1 - k - from,
{
    if from + p.len() <= s.len() - k {
        assert(s.skip(k).subrange(from, from + p.len()) =~= s.subrange(
            from + k,
            from + k + p.len(),
        ));
        if !at(s.skip(k), p, from) {
            lemma_first_at_shift(s, p, k, from + 1);
        }
    }
}

pub fn replace(s: &[char], p: &[char], w: &[char]) -> (r: Vec<char>)
    requires
        p@.len() > 0,
    ensures
        r@ == replaced(s@, p@, w@),
{
    let mut out: Vec<char> = Vec::new();
    let mut from: usize = 0;
    assert(s@.skip(0) =~= s@);
    while from < s.len()
        invariant
            p@.len() > 0,
            from <= s@.len(),
            out@ + replaced(s@.skip(from as int), p@, w@) == replaced(s@, p@, w@),
        decreases s.len() - from,
    {
        proof {
            lemma_first_at_shift(s@, p@, from as int, 0);
        }
        let funn: Option<usize> = find(s, p, from);
        match funn {
            Some(i) => {
                let ghost rest = s@.skip(from as int);
                assert(rest.take(i - from) =~= s@.subrange(from as int, i as int));
                assert(rest.skip(i - from + p@.len()) =~= s@.skip(i + p@.len()));
                let del: Vec<char> = slice(s, from, i);
                let ghost before = out@;
                push_all(&mut out, del.as_slice());
                push_all(&mut out, w);
                assert(out@ + replaced(s@.skip(i + p@.len()), p@, w@) =~= before + (rest.take(
                    i - from,
                ) + w@ + replaced(rest.skip(i - from + p@.len()), p@, w@)));
                from = i + p.len();
            },
            None => {
                let del: Vec<char> = slice(s, from, s.len());
                assert(del@ =~= s@.skip(from as int));
                push_all(&mut out, del.as_slice());
                return out;
            },
        }
    }
    assert(s@.skip(from as int).len() == 0);
    assert(out@ =~= out@ + replaced(s@.skip(from as int), p@, w@));
    out
}

/// The text with every `p` in it replaced by `w`.
pub fn text_replace(s: &str, p: &str, w: &str) -> (r: String)
    requires
        p@.len() > 0,
    ensures
        r@ == replaced(s@, p@, w@),
{
    let x: Vec<char> = chars_of(s);
    let y: Vec<char> = chars_of(p);
    let z: Vec<char> = chars_of(w);
    let u: Vec<char> = replace(x.as_slice(), y.as_slice(), z.as_slice());
    string_of(u.as_slice())
}

// ---------------------------------------------------------------------------
// White space
// ---------------------------------------------------------------------------

/// The characters with the Unicode property White_Space.
pub open spec fn is_space(c: char) -> bool {
    let u = c as u32;
    ||| 0x09 <= u <= 0x0d
    ||| u == 0x20
    ||| u == 0x85
    ||| u == 0xa0
    ||| u == 0x1680
    ||| 0x2000 <= u <= 0x200a
    ||| u == 0x2028
    ||| u == 0x2029
    ||| u == 0x202f
    ||| u == 0x205f
    ||| u == 0x3000
}

pub fn space(c: char) -> (r: bool)
    ensures
        r == is_space(c),
{
    let u: u32 = c as u32;
    (0x09 <= u && u <= 0x0d) || u == 0x20 || u == 0x85 || u == 0xa0 || u == 0x1680 || (0x2000 <= u
        && u <= 0x200a) || u == 0x2028 || u == 0x2029 || u == 0x202f || u == 0x205f || u == 0x3000
}

/// A text without the white space at its start.
pub open spec fn ltrim(s: Seq<char>) -> Seq<char>
    decreases s.len(),
{
    if s.len() > 0 && is_space(s[0]) {
        ltrim(s.skip(1))
    } else {
        s
    }
}

/// A text without the white space at its end.
pub open spec fn rtrim(s: Seq<char>) -> Seq<char>
    decreases s.len(),
{
    if s.len() > 0 && is_space(s.last()) {
        rtrim(s.drop_last())
    } else {
        s
    }
}

/// A text without the white space at either end.
pub open spec fn trimmed(s: Seq<char>) -> Seq<char> {
    rtrim(ltrim(s))
}

/// A character that cannot begin the pattern stays where it is.
pub proof fn lemma_replaced_stays(s: Seq<char>, p: Seq<char>, w: Seq<char>)
    requires
        s.len() > 0,
        p.len() > 0,
        s[0] != p[0],
    ensures
        replaced(s, p, w) == seq![s[0]] + replaced(s.skip(1), p, w),
{
    lemma_first_at_shift(s, p, 1, 0);
    let t = s.skip(1);
    if p.len() <= s.len() {
        assert(s.subrange(0, p.len() as int)[0] == s[0]);
    }
    lemma_first_at(s, p, 1);
    match first_at(t, p, 0) {
        Some(i) => {
            assert(first_at(s, p, 0) == Some(i + 1));
            assert(s.skip(i + 1 + p.len()) =~= t.skip(i + p.len()));
            assert(s.take(i + 1) =~= seq![s[0]] + t.take(i));
            assert(replaced(s, p, w) =~= seq![s[0]] + replaced(t, p, w));
        },
        None => {
            assert(first_at(s, p, 0) is None);
            assert(s =~= seq![s[0]] + t);
        },
    }
}

/// Whether a text is nothing but white space.
pub open spec fn blank(s: Seq<char>) -> bool {
    forall|i: int| 0 <= i < s.len() ==> is_space(#[trigger] s[i])
}

/// Trimming takes away the blanks round a text, and nothing of the text.
pub proof fn law_trimmed(a: Seq<char>, s: Seq<char>, b: Seq<char>)
    requires
        blank(a),
        blank(b),
        s.len() > 0,
        !is_space(s[0]),
        !is_space(s.last()),
    ensures
        trimmed(a + s + b) == s,
    decreases a.len() + b.len(),
{
    let t = a + s + b;
    if a.len() > 0 {
        assert(t[0] == a[0]);
        assert(is_space(a[0]));
        let r = a.skip(1);
        assert forall|i: int| 0 <= i < r.len() implies is_space(#[trigger] r[i]) by {
            assert(r[i] == a[i + 1]);
        }
        law_trimmed(r, s, b);
        assert(t.skip(1) =~= r + s + b);
    } else {
        assert(t =~= s + b);
        assert(t[0] == s[0]);
        assert(ltrim(t) == t);
        if b.len() > 0 {
            let r = b.drop_last();
            assert(is_space(b[b.len() - 1]));
            assert forall|i: int| 0 <= i < r.len() implies is_space(#[trigger] r[i]) by {
                assert(r[i] == b[i]);
            }
            law_trimmed(a, s, r);
            assert(t.drop_last() =~= a + s + r);
            assert((a + s + r)[0] == s[0]);
            assert(ltrim(a + s + r) == a + s + r);
        } else {
            assert(t =~= s);
        }
    }
}

pub fn trim(s: &[char]) -> (r: Vec<char>)
    ensures
        r@ == trimmed(s@),
{
    let mut a: usize = 0;
    assert(s@.skip(0) =~= s@);
    while a < s.len() && space(s[a])
        invariant
            a <= s@.len(),
            ltrim(s@) == ltrim(s@.skip(a as int)),
        decreases s.len() - a,
    {
        assert(s@.skip(a as int).skip(1) =~= s@.skip(a + 1));
        a += 1;
    }
    let ghost t = s@.skip(a as int);
    let mut b: usize = s.len();
    assert(t =~= s@.subrange(a as int, b as int));
    while b > a && space(s[b - 1])
        invariant
            a <= b <= s@.len(),
            rtrim(t) == rtrim(s@.subrange(a as int, b as int)),
        decreases b - a,
    {
        assert(s@.subrange(a as int, b as int).drop_last() =~= s@.subrange(a as int, b - 1));
        assert(s@.subrange(a as int, b as int).last() == s@[b - 1]);
        b -= 1;
    }
    slice(s, a, b)
}

/// The text without the white space at either end.
pub fn text_trim(s: &str) -> (r: String)
    ensures
        r@ == trimmed(s@),
{
    let x: Vec<char> = chars_of(s);
    let y: Vec<char> = trim(x.as_slice());
    string_of(y.as_slice())
}

/// A text that begins and ends with something else than white space is its own trim.
pub proof fn lemma_trim_none(s: Seq<char>)
    requires
        s.len() > 0 ==> !is_space(s[0]) && !is_space(s.last()),
    ensures
        trimmed(s) == s,
{
}

// ---------------------------------------------------------------------------
// Splitting and joining
// ---------------------------------------------------------------------------

/// The parts of `s` between the separators; a text without one is a single part.
pub open spec fn split_on(s: Seq<char>, sep: char) -> Seq<Seq<char>>
    decreases s.len(),
{
    match first_char(s, sep, 0) {
        Some(i) => if 0 <= i < s.len() {
            seq![s.take(i)] + split_on(s.skip(i + 1), sep)
        } else {
            seq![s]
        },
        None => seq![s],
    }
}

proof fn lemma_first_char_shift(s: Seq<char>, c: char, k: int, from: int)
    requires
        0 <= k <= s.len(),
        0 <= from,
    ensures
        first_char(s.skip(k), c, from) == (match first_char(s, c, from + k) {
            Some(i) => Some(i - k),
            None => None::<int>,
        }),
    decreases s.len() - k - from,
{
    if from < s.len() - k && s.skip(k)[from] != c {
        lemma_first_char_shift(s, c, k, from + 1);
    }
}

pub fn split(s: &[char], sep: char) -> (r: Vec<Vec<char>>)
    ensures
        seqs(r@) == split_on(s@, sep),
        r@.len() >= 1,
{
    let mut out: Vec<Vec<char>> = Vec::new();
    let mut from: usize = 0;
    assert(s@.skip(0) =~= s@);
    assert(seqs(out@) + split_on(s@, sep) =~= split_on(s@, sep));
    loop
        invariant
            from <= s@.len(),
            seqs(out@) + split_on(s@.skip(from as int), sep) == split_on(s@, sep),
        decreases s.len() - from,
    {
        proof {
            lemma_first_char_shift(s@, sep, from as int, 0);
        }
        let ghost rest = s@.skip(from as int);
        let ghost before = seqs(out@);
        match find_char(s, sep, from) {
            Some(i) => {
                assert(rest.take(i - from) =~= s@.subrange(from as int, i as int));
                assert(rest.skip(i - from + 1) =~= s@.skip(i + 1));
                out.push(slice(s, from, i));
                assert(seqs(out@) =~= before.push(rest.take(i - from)));
                assert(seqs(out@) + split_on(s@.skip(i + 1), sep) =~= before + (seq![
                    rest.take(i - from),
                ] + split_on(rest.skip(i - from + 1), sep)));
                from = i + 1;
            },
            None => {
                out.push(slice(s, from, s.len()));
                assert(rest =~= s@.subrange(from as int, s@.len() as int));
                assert(seqs(out@) =~= before + seq![rest]);
                return out;
            },
        }
    }
}

/// The parts one after the other with `sep` between them.
pub open spec fn joined(parts: Seq<Seq<char>>, sep: Seq<char>) -> Seq<char>
    decreases parts.len(),
{
    if parts.len() == 0 {
        Seq::empty()
    } else if parts.len() == 1 {
        parts[0]
    } else {
        joined(parts.drop_last(), sep) + sep + parts.last()
    }
}

pub fn join(parts: &Vec<Vec<char>>, sep: &[char]) -> (r: Vec<char>)
    ensures
        r@ == joined(seqs(parts@), sep@),
{
    let mut out: Vec<char> = Vec::new();
    let mut i: usize = 0;
    while i < parts.len()
        invariant
            i <= parts@.len(),
            out@ == joined(seqs(parts@).take(i as int), sep@),
        decreases parts.len() - i,
    {
        let ghost p = seqs(parts@);
        if i > 0 {
            push_all(&mut out, sep);
        }
        push_all(&mut out, parts[i].as_slice());
        assert(p.take(i + 1).drop_last() =~= p.take(i as int));
        assert(p.take(i + 1).last() == parts@[i as int]@);
        if i == 0 {
            assert(p.take(0) =~= Seq::empty());
            assert(out@ =~= parts@[0]@);
        }
        i += 1;
    }
    assert(seqs(parts@).take(i as int) =~= seqs(parts@));
    out
}

/// Joins strings.
pub fn join_text(parts: &Vec<String>, sep: &str) -> (r: String)
    ensures
        r@ == joined(views(parts@), sep@),
{
    let mut deler: Vec<Vec<char>> = Vec::new();
    let mut i: usize = 0;
    while i < parts.len()
        invariant
            i <= parts@.len(),
            seqs(deler@) == views(parts@).take(i as int),
        decreases parts.len() - i,
    {
        let ghost before = seqs(deler@);
        deler.push(chars_of(parts[i].as_str()));
        i += 1;
        assert(seqs(deler@) =~= before.push(parts@[i - 1]@));
        assert(seqs(deler@) =~= views(parts@).take(i as int));
    }
    assert(views(parts@).take(i as int) =~= views(parts@));
    let s: Vec<char> = chars_of(sep);
    let u: Vec<char> = join(&deler, s.as_slice());
    string_of(u.as_slice())
}

/// A line without the carriage return that may end it.
pub open spec fn without_cr(s: Seq<char>) -> Seq<char> {
    if s.len() > 0 && s.last() == '\r' {
        s.drop_last()
    } else {
        s
    }
}

/// The lines of a text: what stands between line feeds, each without the
/// carriage return before its line feed; nothing stands for the part after a
/// closing line feed.
pub open spec fn lines_of(s: Seq<char>) -> Seq<Seq<char>>
    decreases s.len(),
{
    if s.len() == 0 {
        Seq::empty()
    } else {
        match first_char(s, '\n', 0) {
            Some(i) => if 0 <= i < s.len() {
                seq![without_cr(s.take(i))] + lines_of(s.skip(i + 1))
            } else {
                seq![s]
            },
            None => seq![s],
        }
    }
}

pub fn lines(s: &[char]) -> (r: Vec<Vec<char>>)
    ensures
        seqs(r@) == lines_of(s@),
{
    let mut out: Vec<Vec<char>> = Vec::new();
    let mut from: usize = 0;
    assert(s@.skip(0) =~= s@);
    assert(seqs(out@) + lines_of(s@) =~= lines_of(s@));
    while from < s.len()
        invariant
            from <= s@.len(),
            seqs(out@) + lines_of(s@.skip(from as int)) == lines_of(s@),
        decreases s.len() - from,
    {
        proof {
            lemma_first_char_shift(s@, '\n', from as int, 0);
        }
        let ghost rest = s@.skip(from as int);
        let ghost before = seqs(out@);
        match find_char(s, '\n', from) {
            Some(i) => {
                assert(rest.take(i - from) =~= s@.subrange(from as int, i as int));
                assert(rest.skip(i - from + 1) =~= s@.skip(i + 1));
                let mut slutt: usize = i;
                if i > from && s[i - 1] == '\r' {
                    slutt = i - 1;
                    assert(rest.take(i - from).last() == '\r');
                    assert(rest.take(i - from).drop_last() =~= s@.subrange(from as int, i - 1));
                }
                out.push(slice(s, from, slutt));
                assert(out@.last()@ =~= without_cr(rest.take(i - from)));
                assert(seqs(out@) =~= before.push(without_cr(rest.take(i - from))));
                assert(seqs(out@) + lines_of(s@.skip(i + 1)) =~= before + (seq![
                    without_cr(rest.take(i - from)),
                ] + lines_of(rest.skip(i - from + 1))));
                from = i + 1;
            },
            None => {
                out.push(slice(s, from, s.len()));
                assert(rest =~= s@.subrange(from as int, s@.len() as int));
                assert(seqs(out@) =~= before + seq![rest]);
                return out;
            },
        }
    }
    assert(seqs(out@) + lines_of(s@.skip(from as int)) =~= seqs(out@));
    out
}

// ---------------------------------------------------------------------------
// Case
// ---------------------------------------------------------------------------

pub fn lower(c: char) -> (r: char)
    ensures
        r == lower_char(c),
{
    if 'A' <= c && c <= 'Z' {
        (c as u8 + 32) as char
    } else {
        c
    }
}

pub fn lower_all(s: &[char]) -> (r: Vec<char>)
    ensures
        r@ == ascii_lower(s@),
{
    let mut out: Vec<char> = Vec::new();
    let mut i: usize = 0;
    while i < s.len()
        invariant
            i <= s@.len(),
            out@ == ascii_lower(s@.take(i as int)),
        decreases s.len() - i,
    {
        out.push(lower(s[i]));
        i += 1;
        assert(out@ =~= ascii_lower(s@.take(i as int)));
    }
    assert(s@.take(i as int) =~= s@);
    out
}

/// Whether two texts are the same but for the case of the letters A to Z.
pub fn same_ignoring_case(a: &str, b: &str) -> (r: bool)
    ensures
        r == (ascii_lower(a@) == ascii_lower(b@)),
{
    let x: Vec<char> = chars_of(a);
    let y: Vec<char> = chars_of(b);
    let u: Vec<char> = lower_all(x.as_slice());
    let v: Vec<char> = lower_all(y.as_slice());
    same_chars(u.as_slice(), v.as_slice())
}

// ---------------------------------------------------------------------------
// Size in bytes
// ---------------------------------------------------------------------------

/// How many bytes a character takes in UTF-8.
pub open spec fn char_bytes(c: char) -> nat {
    let u = c as u32;
    if u < 0x80 {
        1
    } else if u < 0x800 {
        2
    } else if u < 0x10000 {
        3
    } else {
        4
    }
}

/// How many bytes a text takes in UTF-8.
pub open spec fn byte_len(s: Seq<char>) -> nat
    decreases s.len(),
{
    if s.len() == 0 {
        0
    } else {
        byte_len(s.drop_last()) + char_bytes(s.last())
    }
}

/// From `k` on: the number of leading characters that fit in `n` bytes.
pub open spec fn fitting(s: Seq<char>, n: nat, k: int) -> int
    decreases s.len() - k,
{
    if 0 <= k < s.len() && byte_len(s.take(k + 1)) <= n {
        fitting(s, n, k + 1)
    } else {
        k
    }
}

/// The longest start of `s` that fits in `n` bytes.
pub open spec fn clipped(s: Seq<char>, n: nat) -> Seq<char> {
    s.take(fitting(s, n, 0))
}

pub fn width(c: char) -> (r: usize)
    ensures
        r == char_bytes(c),
        1 <= r <= 4,
{
    let u: u32 = c as u32;
    if u < 0x80 {
        1
    } else if u < 0x800 {
        2
    } else if u < 0x10000 {
        3
    } else {
        4
    }
}

/// How many characters from `from` on fit in `n` bytes, and the bytes they take.
pub fn fit(s: &[char], from: usize, n: usize) -> (r: (usize, usize))
    requires
        from <= s@.len(),
    ensures
        r.0 == fitting(s@.skip(from as int), n as nat, 0),
        from + r.0 <= s@.len(),
        r.1 == byte_len(s@.skip(from as int).take(r.0 as int)),
        r.1 <= n,
{
    let ghost t = s@.skip(from as int);
    let mut k: usize = 0;
    let mut b: usize = 0;
    assert(t.take(0) =~= Seq::<char>::empty());
    while k < s.len() - from
        invariant
            from + k <= s@.len(),
            t == s@.skip(from as int),
            b == byte_len(t.take(k as int)),
            b <= n,
            fitting(t, n as nat, 0) == fitting(t, n as nat, k as int),
        decreases s.len() - from - k,
    {
        let w: usize = width(s[from + k]);
        assert(t.take(k + 1).drop_last() =~= t.take(k as int));
        assert(t.take(k + 1).last() == s@[from + k]);
        if w > n - b {
            return (k, b);
        }
        b += w;
        k += 1;
    }
    (k, b)
}

/// A text fits where its bytes do.
pub proof fn lemma_fitting(s: Seq<char>, n: nat, k: int)
    requires
        0 <= k <= s.len(),
    ensures
        k <= fitting(s, n, k) <= s.len(),
    decreases s.len() - k,
{
    if k < s.len() && byte_len(s.take(k + 1)) <= n {
        lemma_fitting(s, n, k + 1);
    }
}

// ---------------------------------------------------------------------------
// Laws of splitting
// ---------------------------------------------------------------------------

/// A search for a character finds the first one, or there is none.
pub proof fn lemma_first_char(s: Seq<char>, c: char, from: int)
    requires
        0 <= from,
    ensures
        first_char(s, c, from) matches Some(i) ==> from <= i < s.len() && s[i] == c && (forall|j: int|
            from <= j < i ==> s[j] != c),
        first_char(s, c, from) is None ==> (forall|j: int| from <= j < s.len() ==> s[j] != c),
    decreases s.len() - from,
{
    if from < s.len() && s[from] != c {
        lemma_first_char(s, c, from + 1);
    }
}

/// A position that holds the character, with none before it, is the first.
pub proof fn lemma_first_char_is(s: Seq<char>, c: char, from: int, i: int)
    requires
        0 <= from <= i < s.len(),
        s[i] == c,
        forall|j: int| from <= j < i ==> s[j] != c,
    ensures
        first_char(s, c, from) == Some(i),
    decreases i - from,
{
    if from < i {
        lemma_first_char_is(s, c, from + 1, i);
    }
}

/// Splitting a text with a separator in it splits what stands on both sides.
pub proof fn law_split_concat(x: Seq<char>, sep: char, y: Seq<char>)
    ensures
        split_on(x + seq![sep] + y, sep) == split_on(x, sep) + split_on(y, sep),
    decreases x.len(),
{
    let s = x + seq![sep] + y;
    lemma_first_char(x, sep, 0);
    match first_char(x, sep, 0) {
        Some(i) => {
            assert forall|j: int| 0 <= j < i implies s[j] != sep by {
                assert(s[j] == x[j]);
            }
            assert(s[i] == x[i]);
            lemma_first_char_is(s, sep, 0, i);
            assert(s.take(i) =~= x.take(i));
            assert(s.skip(i + 1) =~= x.skip(i + 1) + seq![sep] + y);
            law_split_concat(x.skip(i + 1), sep, y);
            assert(split_on(s, sep) =~= split_on(x, sep) + split_on(y, sep));
        },
        None => {
            assert forall|j: int| 0 <= j < x.len() implies s[j] != sep by {
                assert(s[j] == x[j]);
            }
            assert(s[x.len() as int] == sep);
            lemma_first_char_is(s, sep, 0, x.len() as int);
            assert(s.take(x.len() as int) =~= x);
            assert(s.skip(x.len() as int + 1) =~= y);
        },
    }
}

/// A text without the separator is one part.
pub proof fn lemma_split_none(x: Seq<char>, sep: char)
    requires
        !x.contains(sep),
    ensures
        split_on(x, sep) == seq![x],
{
    lemma_first_char(x, sep, 0);
}

/// Joining parts that hold no separator and splitting gives the parts back.
pub proof fn law_split_join(parts: Seq<Seq<char>>, sep: char)
    requires
        parts.len() > 0,
        forall|i: int| 0 <= i < parts.len() ==> !(#[trigger] parts[i]).contains(sep),
    ensures
        split_on(joined(parts, seq![sep]), sep) == parts,
    decreases parts.len(),
{
    if parts.len() == 1 {
        lemma_split_none(parts[0], sep);
        assert(seq![parts[0]] =~= parts);
    } else {
        let d = parts.drop_last();
        assert forall|i: int| 0 <= i < d.len() implies !(#[trigger] d[i]).contains(sep) by {
            assert(d[i] == parts[i]);
        }
        law_split_join(d, sep);
        assert(!parts[parts.len() - 1].contains(sep));
        law_split_concat(joined(d, seq![sep]), sep, parts.last());
        lemma_split_none(parts.last(), sep);
        assert(d + seq![parts.last()] =~= parts);
    }
}

/// A line of its own stands before the lines of the rest.
pub proof fn law_lines_concat(x: Seq<char>, y: Seq<char>)
    requires
        !x.contains('\n'),
    ensures
        lines_of(x + seq!['\n'] + y) == seq![without_cr(x)] + lines_of(y),
{
    let s = x + seq!['\n'] + y;
    assert forall|j: int| 0 <= j < x.len() implies s[j] != '\n' by {
        assert(s[j] == x[j]);
    }
    assert(s[x.len() as int] == '\n');
    lemma_first_char_is(s, '\n', 0, x.len() as int);
    assert(s.take(x.len() as int) =~= x);
    assert(s.skip(x.len() as int + 1) =~= y);
}

// ---------------------------------------------------------------------------
// Order
// ---------------------------------------------------------------------------

/// Whether a text comes before another by the code points of their characters.
pub open spec fn before(a: Seq<char>, b: Seq<char>) -> bool
    decreases a.len(),
{
    if b.len() == 0 {
        false
    } else if a.len() == 0 {
        true
    } else if a[0] == b[0] {
        before(a.skip(1), b.skip(1))
    } else {
        a[0] < b[0]
    }
}

/// Of two texts, one comes before the other, or they are the same; never both.
pub proof fn law_before_total(a: Seq<char>, b: Seq<char>)
    ensures
        a != b ==> before(a, b) || before(b, a),
        before(a, b) ==> a != b && !before(b, a),
    decreases a.len(),
{
    if a.len() == 0 || b.len() == 0 {
        if a.len() == 0 && b.len() == 0 {
            assert(a =~= b);
        }
    } else if a[0] == b[0] {
        law_before_total(a.skip(1), b.skip(1));
        if a.skip(1) == b.skip(1) {
            assert(a =~= seq![a[0]] + a.skip(1));
            assert(b =~= seq![b[0]] + b.skip(1));
        }
    }
}

/// What comes before something comes before all that follows it.
pub proof fn law_before_transitive(a: Seq<char>, b: Seq<char>, c: Seq<char>)
    requires
        before(a, b),
        before(b, c),
    ensures
        before(a, c),
    decreases a.len(),
{
    if a.len() > 0 && b.len() > 0 && c.len() > 0 && a[0] == b[0] && b[0] == c[0] {
        law_before_transitive(a.skip(1), b.skip(1), c.skip(1));
    }
}

/// Whether a text comes before another.
pub fn is_before(a: &str, b: &str) -> (r: bool)
    ensures
        r == before(a@, b@),
{
    let x: Vec<char> = chars_of(a);
    let y: Vec<char> = chars_of(b);
    let mut i: usize = 0;
    assert(a@.skip(0) =~= a@);
    assert(b@.skip(0) =~= b@);
    while i < x.len() && i < y.len() && x[i] == y[i]
        invariant
            i <= x@.len(),
            i <= y@.len(),
            x@ == a@,
            y@ == b@,
            before(a@, b@) == before(a@.skip(i as int), b@.skip(i as int)),
        decreases x.len() - i,
    {
        assert(a@.skip(i as int).skip(1) =~= a@.skip(i + 1));
        assert(b@.skip(i as int).skip(1) =~= b@.skip(i + 1));
        i += 1;
    }
    if i >= y.len() {
        false
    } else if i >= x.len() {
        true
    } else {
        x[i] < y[i]
    }
}

// ---------------------------------------------------------------------------
// Stripping
// ---------------------------------------------------------------------------

/// A text without the occurrences of `c` at its end.
pub open spec fn strip_end(s: Seq<char>, c: char) -> Seq<char>
    decreases s.len(),
{
    if s.len() > 0 && s.last() == c {
        strip_end(s.drop_last(), c)
    } else {
        s
    }
}

/// A text without the occurrences of `c` at its start.
pub open spec fn strip_start(s: Seq<char>, c: char) -> Seq<char>
    decreases s.len(),
{
    if s.len() > 0 && s[0] == c {
        strip_start(s.skip(1), c)
    } else {
        s
    }
}

pub fn without_end(s: &str, c: char) -> (r: String)
    ensures
        r@ == strip_end(s@, c),
{
    let cs: Vec<char> = chars_of(s);
    let mut n: usize = cs.len();
    assert(s@.take(n as int) =~= s@);
    while n > 0 && cs[n - 1] == c
        invariant
            n <= cs@.len(),
            cs@ == s@,
            strip_end(s@, c) == strip_end(s@.take(n as int), c),
        decreases n,
    {
        assert(s@.take(n as int).drop_last() =~= s@.take(n - 1));
        n -= 1;
    }
    let ut: Vec<char> = slice(cs.as_slice(), 0, n);
    assert(ut@ =~= s@.take(n as int));
    string_of(ut.as_slice())
}

pub fn without_start(s: &str, c: char) -> (r: String)
    ensures
        r@ == strip_start(s@, c),
{
    let cs: Vec<char> = chars_of(s);
    let mut i: usize = 0;
    assert(s@.skip(0) =~= s@);
    while i < cs.len() && cs[i] == c
        invariant
            i <= cs@.len(),
            cs@ == s@,
            strip_start(s@, c) == strip_start(s@.skip(i as int), c),
        decreases cs.len() - i,
    {
        assert(s@.skip(i as int).skip(1) =~= s@.skip(i + 1));
        i += 1;
    }
    let ut: Vec<char> = slice(cs.as_slice(), i, cs.len());
    assert(ut@ =~= s@.skip(i as int));
    string_of(ut.as_slice())
}

/// Two texts, one behind the other.
pub fn two(a: &str, b: &str) -> (r: String)
    ensures
        r@ == a@ + b@,
{
    let mut ut: Vec<char> = chars_of(a);
    push_text(&mut ut, b);
    string_of(ut.as_slice())
}

/// Three texts, one behind the other.
pub fn three(a: &str, b: &str, c: &str) -> (r: String)
    ensures
        r@ == a@ + b@ + c@,
{
    let mut ut: Vec<char> = chars_of(a);
    push_text(&mut ut, b);
    push_text(&mut ut, c);
    string_of(ut.as_slice())
}

/// The last place of a character holds it, and no place behind does.
pub proof fn law_last_char(x: Seq<char>, c: char, y: Seq<char>)
    requires
        !y.contains(c),
    ensures
        last_char(x + seq![c] + y, c) == Some(x.len() as int),
        last_char(y, c) is None,
    decreases y.len(),
{
    let s = x + seq![c] + y;
    if y.len() > 0 {
        assert(y[y.len() - 1] != c);
        assert(s.last() == y.last());
        assert(s.drop_last() =~= x + seq![c] + y.drop_last());
        assert forall|i: int| 0 <= i < y.len() - 1 implies #[trigger] y.drop_last()[i] != c by {
            assert(y[i] != c);
        }
        law_last_char(x, c, y.drop_last());
    }
}

/// Of two texts that agree as far as the first that differs, the one with the
/// lower character there comes before; a text comes before what begins with it.
pub proof fn law_before_first_difference(p: Seq<char>, a: char, b: char, x: Seq<char>, y: Seq<char>)
    ensures
        a < b ==> before(p + seq![a] + x, p + seq![b] + y),
        before(p, p + seq![a] + x),
        !before(p + x, p),
    decreases p.len(),
{
    let s = p + seq![a] + x;
    let t = p + seq![b] + y;
    if p.len() > 0 {
        let q = p.skip(1);
        law_before_first_difference(q, a, b, x, y);
        assert(s.skip(1) =~= q + seq![a] + x);
        assert(t.skip(1) =~= q + seq![b] + y);
        assert((p + x).skip(1) =~= q + x);
    }
}

/// Stripping takes away every such character from that end, and nothing else.
pub proof fn law_stripped(s: Seq<char>, c: char)
    ensures
        strip_end(s.push(c), c) == strip_end(s, c),
        strip_start(seq![c] + s, c) == strip_start(s, c),
        s.len() > 0 && s.last() != c ==> strip_end(s, c) == s,
        s.len() > 0 && s[0] != c ==> strip_start(s, c) == s,
        strip_end(s, c).is_prefix_of(s),
        strip_start(s, c).is_suffix_of(s),
    decreases s.len(),
{
    assert(s.push(c).drop_last() =~= s);
    assert((seq![c] + s).skip(1) =~= s);
    if s.len() > 0 {
        law_stripped(s.drop_last(), c);
        law_stripped(s.skip(1), c);
    }
}

/// Replacing one character by another changes each of them and no other.
pub proof fn law_replaced_char(s: Seq<char>, a: char, b: char)
    ensures
        replaced(s, seq![a], seq![b]) == s.map_values(
            |c: char|
                if c == a {
                    b
                } else {
                    c
                },
        ),
    decreases s.len(),
{
    let f = |c: char|
        if c == a {
            b
        } else {
            c
        };
    let p = seq![a];
    lemma_first_at(s, p, 0);
    match first_at(s, p, 0) {
        Some(i) => {
            assert(s.subrange(i, i + 1)[0] == s[i]);
            assert(s[i] == a);
            let r = s.skip(i + 1);
            law_replaced_char(r, a, b);
            assert forall|j: int| 0 <= j < i implies s[j] != a by {
                if s[j] == a {
                    assert(s.subrange(j, j + 1) =~= p);
                    assert(at(s, p, j));
                }
            }
            assert(s.take(i) + seq![b] + r.map_values(f) =~= s.map_values(f));
        },
        None => {
            assert forall|j: int| 0 <= j < s.len() implies s[j] != a by {
                if s[j] == a {
                    assert(s.subrange(j, j + 1) =~= p);
                    assert(at(s, p, j));
                }
            }
            assert(s.map_values(f) =~= s);
        },
    }
}

/// A text that is clipped is the longest beginning that fits.
pub proof fn law_clipped(s: Seq<char>, n: nat)
    ensures
        clipped(s, n).is_prefix_of(s),
        byte_len(clipped(s, n)) <= n,
        clipped(s, n).len() < s.len() ==> byte_len(s.take(clipped(s, n).len() as int + 1)) > n,
{
    lemma_clipped(s, n, 0);
    lemma_fitting(s, n, 0);
    assert(s.take(0) =~= Seq::empty());
}

proof fn lemma_clipped(s: Seq<char>, n: nat, k: int)
    requires
        0 <= k <= s.len(),
        byte_len(s.take(k)) <= n,
    ensures
        byte_len(s.take(fitting(s, n, k))) <= n,
        fitting(s, n, k) < s.len() ==> byte_len(s.take(fitting(s, n, k) + 1)) > n,
    decreases s.len() - k,
{
    if k < s.len() && byte_len(s.take(k + 1)) <= n {
        lemma_clipped(s, n, k + 1);
    }
}

}
