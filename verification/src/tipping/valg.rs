//! The command line of the lottery tool, and text for a terminal.
use vstd::prelude::*;

use crate::number_text;
use crate::text;
use crate::text::{chars_of, copy_text, push_all, push_text, string_of};
use crate::tipping::spill::Spill;

verus! {

/// What the command line asks for.
#[derive(Debug)]
pub struct Valg {
    pub spill: Vec<Spill>,
    pub mappe: String,
    pub fra_aar: i32,
    pub endepunkt: Option<String>,
    pub rekker: usize,
    pub fro: u64,
}

pub struct ValgInnhold {
    pub spill: Seq<Spill>,
    pub mappe: Seq<char>,
    pub fra_aar: int,
    pub endepunkt: Option<Seq<char>>,
    pub rekker: nat,
    pub fro: nat,
}

impl View for Valg {
    type V = ValgInnhold;

    open spec fn view(&self) -> ValgInnhold {
        ValgInnhold {
            spill: self.spill@,
            mappe: self.mappe@,
            fra_aar: self.fra_aar as int,
            endepunkt: match self.endepunkt {
                Some(e) => Some(e@),
                None => None,
            },
            rekker: self.rekker as nat,
            fro: self.fro as nat,
        }
    }
}

/// What is wrong with a command line.
#[derive(Debug)]
pub enum ValgFeil {
    /// The flag stands last and has no value.
    ManglerVerdi(String),
    /// The value of the flag is not a number that fits, and why.
    IkkeTall(String),
    /// Neither a flag nor a game.
    Ukjent(String),
}

pub enum ValgFeilInnhold {
    ManglerVerdi(Seq<char>),
    IkkeTall(Seq<char>),
    Ukjent(Seq<char>),
}

impl View for ValgFeil {
    type V = ValgFeilInnhold;

    open spec fn view(&self) -> ValgFeilInnhold {
        match self {
            ValgFeil::ManglerVerdi(a) => ValgFeilInnhold::ManglerVerdi(a@),
            ValgFeil::IkkeTall(a) => ValgFeilInnhold::IkkeTall(a@),
            ValgFeil::Ukjent(a) => ValgFeilInnhold::Ukjent(a@),
        }
    }
}

impl ValgFeil {
    /// The message for the user.
    pub fn tekst(&self) -> (r: String)
        ensures
            r@ == (match self@ {
                ValgFeilInnhold::ManglerVerdi(a) => a + " mangler verdi"@,
                ValgFeilInnhold::IkkeTall(grunn) => grunn,
                ValgFeilInnhold::Ukjent(a) => "ukjent spill/flagg: "@ + a
                    + " (prøv `b-tipping` for hjelp)"@,
            }),
    {
        match self {
            ValgFeil::ManglerVerdi(a) => {
                let mut ut: Vec<char> = chars_of(a.as_str());
                push_text(&mut ut, " mangler verdi");
                string_of(ut.as_slice())
            },
            ValgFeil::IkkeTall(grunn) => copy_text(grunn),
            ValgFeil::Ukjent(a) => {
                let mut ut: Vec<char> = chars_of("ukjent spill/flagg: ");
                push_text(&mut ut, a.as_str());
                push_text(&mut ut, " (prøv `b-tipping` for hjelp)");
                string_of(ut.as_slice())
            },
        }
    }
}

pub open spec fn alle_spill() -> Seq<Spill> {
    seq![Spill::Lotto, Spill::Vikinglotto, Spill::Eurojackpot]
}

pub open spec fn flagg(a: Seq<char>) -> bool {
    a == "--mappe"@ || a == "--fra-aar"@ || a == "--endepunkt"@ || a == "--rekker"@ || a == "--fro"@ || a
        == "--frø"@
}

/// Why a text is no number of 32 bits with a sign; none where it is one.
pub uninterp spec fn i32_feil(s: Seq<char>) -> Option<Seq<char>>;

/// `str::parse` to an `i32`: it fails on what is not digits with a sign before
/// them or none, and on what does not fit. The words of the error are a function
/// of the text.
#[verifier::external_body]
fn feil_i32(s: &str) -> (r: Option<String>)
    ensures
        r is None == number_text::within(number_text::int_of(s@), i32::MIN as int, i32::MAX as int) is Some,
        (match r {
            Some(t) => i32_feil(s@) == Some(t@),
            None => i32_feil(s@) is None,
        }),
{
    match s.parse::<i32>() {
        Ok(_) => None,
        Err(e) => Some(e.to_string()),
    }
}

/// Why a text is no number of 64 bits without a sign; none where it is one.
pub uninterp spec fn u64_feil(s: Seq<char>) -> Option<Seq<char>>;

/// `str::parse` to a `u64`: it fails on what is not digits with a plus sign
/// before them or none, and on what does not fit. The words of the error are a
/// function of the text.
#[verifier::external_body]
fn feil_u64(s: &str) -> (r: Option<String>)
    ensures
        r is None == number_text::at_most(number_text::nat_of(s@), u64::MAX as nat) is Some,
        (match r {
            Some(t) => u64_feil(s@) == Some(t@),
            None => u64_feil(s@) is None,
        }),
{
    match s.parse::<u64>() {
        Ok(_) => None,
        Err(e) => Some(e.to_string()),
    }
}

/// A number that is too large for 64 bits.
pub const FOR_STORT: &'static str = "18446744073709551616";

/// Why a text is no number of rows: why it is no number, or that it is too large.
pub open spec fn antall_feil(s: Seq<char>) -> Option<Seq<char>> {
    match u64_feil(s) {
        Some(t) => Some(t),
        None => u64_feil(FOR_STORT@),
    }
}

pub open spec fn eller_tom(t: Option<Seq<char>>) -> Seq<char> {
    match t {
        Some(s) => s,
        None => Seq::empty(),
    }
}

fn tekst_eller_tom(t: Option<String>) -> (r: String)
    ensures
        (match t {
            Some(s) => r@ == s@,
            None => r@ == Seq::<char>::empty(),
        }),
{
    match t {
        Some(s) => s,
        None => {
            let r: String = string_of(&[]);
            assert(r@ =~= Seq::<char>::empty());
            r
        },
    }
}

/// The choice after a flag and its value.
pub open spec fn med_flagg(v: ValgInnhold, a: Seq<char>, verdi: Seq<char>) -> Result<ValgInnhold, ValgFeilInnhold> {
    if a == "--mappe"@ {
        Ok(ValgInnhold { mappe: verdi, ..v })
    } else if a == "--fra-aar"@ {
        match number_text::within(number_text::int_of(verdi), i32::MIN as int, i32::MAX as int) {
            Some(n) => Ok(ValgInnhold { fra_aar: n, ..v }),
            None => Err(ValgFeilInnhold::IkkeTall(eller_tom(i32_feil(verdi)))),
        }
    } else if a == "--endepunkt"@ {
        Ok(ValgInnhold { endepunkt: Some(verdi), ..v })
    } else if a == "--rekker"@ {
        match number_text::at_most(number_text::nat_of(verdi), usize::MAX as nat) {
            Some(n) => Ok(ValgInnhold { rekker: n, ..v }),
            None => Err(ValgFeilInnhold::IkkeTall(eller_tom(antall_feil(verdi)))),
        }
    } else {
        match number_text::at_most(number_text::nat_of(verdi), u64::MAX as nat) {
            Some(n) => Ok(ValgInnhold { fro: n, ..v }),
            None => Err(ValgFeilInnhold::IkkeTall(eller_tom(u64_feil(verdi)))),
        }
    }
}

/// The choice after the arguments from position `i` on, each flag with the
/// argument behind it; later ones count over earlier ones.
pub open spec fn valgt(args: Seq<Seq<char>>, i: int, v: ValgInnhold) -> Result<ValgInnhold, ValgFeilInnhold>
    decreases args.len() - i,
{
    if i < 0 || i >= args.len() {
        Ok(v)
    } else if flagg(args[i]) {
        if i + 1 >= args.len() {
            Err(ValgFeilInnhold::ManglerVerdi(args[i]))
        } else {
            match med_flagg(v, args[i], args[i + 1]) {
                Ok(w) => valgt(args, i + 2, w),
                Err(e) => Err(e),
            }
        }
    } else if args[i] == "alle"@ {
        valgt(args, i + 1, ValgInnhold { spill: alle_spill(), ..v })
    } else {
        match Spill::av_lavt_navn(text::lowercase(args[i])) {
            Some(s) => valgt(args, i + 1, ValgInnhold { spill: seq![s], ..v }),
            None => Err(ValgFeilInnhold::Ukjent(args[i])),
        }
    }
}

/// What holds before the first argument: all games, thirty years back, ten
/// rows, and a seed that is new each day.
pub open spec fn utgangspunkt(aar: int, dag: nat, mappe: Seq<char>) -> ValgInnhold {
    ValgInnhold {
        spill: alle_spill(),
        mappe,
        fra_aar: aar - 30,
        endepunkt: None,
        rekker: 10,
        fro: dag,
    }
}

pub open spec fn valg_syn(r: Result<Valg, ValgFeil>) -> Result<ValgInnhold, ValgFeilInnhold> {
    match r {
        Ok(v) => Ok(v@),
        Err(e) => Err(e@),
    }
}

fn er_flagg(a: &str) -> (r: bool)
    ensures
        r == flagg(a@),
{
    text::same(a, "--mappe") || text::same(a, "--fra-aar") || text::same(a, "--endepunkt") || text::same(
        a,
        "--rekker",
    ) || text::same(a, "--fro") || text::same(a, "--frø")
}

fn sett_flagg(valg: &mut Valg, a: &str, verdi: &str) -> (r: Result<(), ValgFeil>)
    ensures
        (match r {
            Ok(_) => med_flagg(old(valg)@, a@, verdi@) == Ok::<ValgInnhold, ValgFeilInnhold>(final(valg)@),
            Err(e) => med_flagg(old(valg)@, a@, verdi@) == Err::<ValgInnhold, ValgFeilInnhold>(e@),
        }),
{
    let cs: Vec<char> = chars_of(verdi);
    if text::same(a, "--mappe") {
        valg.mappe = verdi.to_owned();
        Ok(())
    } else if text::same(a, "--fra-aar") {
        match number_text::read_i64(cs.as_slice()) {
            Some(n) => if -0x8000_0000 <= n && n <= 0x7fff_ffff {
                valg.fra_aar = n as i32;
                Ok(())
            } else {
                Err(ValgFeil::IkkeTall(tekst_eller_tom(feil_i32(verdi))))
            },
            None => Err(ValgFeil::IkkeTall(tekst_eller_tom(feil_i32(verdi)))),
        }
    } else if text::same(a, "--endepunkt") {
        valg.endepunkt = Some(verdi.to_owned());
        Ok(())
    } else if text::same(a, "--rekker") {
        match number_text::read_nat(cs.as_slice(), usize::MAX as u128) {
            Some(n) => {
                valg.rekker = n as usize;
                Ok(())
            },
            None => {
                let grunn: Option<String> = match feil_u64(verdi) {
                    Some(t) => Some(t),
                    None => feil_u64(FOR_STORT),
                };
                Err(ValgFeil::IkkeTall(tekst_eller_tom(grunn)))
            },
        }
    } else {
        match number_text::read_u64(cs.as_slice()) {
            Some(n) => {
                valg.fro = n;
                Ok(())
            },
            None => Err(ValgFeil::IkkeTall(tekst_eller_tom(feil_u64(verdi)))),
        }
    }
}

/// Reads the command line, for a day in the given year.
pub fn tolk_valg(args: &Vec<String>, aar: i32, dag: u64, standard_mappe: &str) -> (r: Result<Valg, ValgFeil>)
    requires
        aar >= i32::MIN + 30,
    ensures
        valg_syn(r) == valgt(
            text::views(args@),
            0,
            utgangspunkt(aar as int, dag as nat, standard_mappe@),
        ),
{
    let ghost a = text::views(args@);
    let mut valg: Valg = Valg {
        spill: Spill::alle(),
        mappe: standard_mappe.to_owned(),
        fra_aar: aar - 30,
        endepunkt: None,
        rekker: 10,
        fro: dag,
    };
    let mut i: usize = 0;
    let ghost start = utgangspunkt(aar as int, dag as nat, standard_mappe@);
    assert(valg@.spill =~= start.spill);
    while i < args.len()
        invariant
            i <= args@.len(),
            a == text::views(args@),
            start == utgangspunkt(aar as int, dag as nat, standard_mappe@),
            valgt(a, 0, start) == valgt(a, i as int, valg@),
        decreases args.len() - i,
    {
        assert(a[i as int] == args@[i as int]@);
        if er_flagg(args[i].as_str()) {
            if args.len() - i < 2 {
                return Err(ValgFeil::ManglerVerdi(copy_text(&args[i])));
            }
            assert(a[i + 1] == args@[i + 1]@);
            match sett_flagg(&mut valg, args[i].as_str(), args[i + 1].as_str()) {
                Ok(_) => {},
                Err(e) => {
                    return Err(e);
                },
            }
            i += 2;
        } else if text::same(args[i].as_str(), "alle") {
            valg.spill = Spill::alle();
            i += 1;
        } else {
            match Spill::fra_navn(args[i].as_str()) {
                Some(s) => {
                    let mut en: Vec<Spill> = Vec::new();
                    en.push(s);
                    assert(en@ =~= seq![s]);
                    valg.spill = en;
                },
                None => {
                    return Err(ValgFeil::Ukjent(copy_text(&args[i])));
                },
            }
            i += 1;
        }
    }
    Ok(valg)
}

// ---------------------------------------------------------------------------
// Breaking lines
// ---------------------------------------------------------------------------

/// From position `i` on: where the word ends.
pub open spec fn ordslutt(s: Seq<char>, i: int) -> int
    decreases s.len() - i,
{
    if i < 0 || i >= s.len() || text::is_space(s[i]) {
        i
    } else {
        ordslutt(s, i + 1)
    }
}

/// The words from position `i` on: what stands between white space.
pub open spec fn ord_fra(s: Seq<char>, i: int) -> Seq<Seq<char>>
    decreases s.len() - i,
{
    if i < 0 || i >= s.len() {
        Seq::empty()
    } else if text::is_space(s[i]) {
        ord_fra(s, i + 1)
    } else {
        let n = ordslutt(s, i);
        if i < n <= s.len() {
            seq![s.subrange(i, n)] + ord_fra(s, n)
        } else {
            Seq::empty()
        }
    }
}

proof fn lemma_ordslutt(s: Seq<char>, i: int)
    requires
        0 <= i <= s.len(),
    ensures
        i <= ordslutt(s, i) <= s.len(),
        i < s.len() && !text::is_space(s[i]) ==> i < ordslutt(s, i),
        forall|j: int| i <= j < ordslutt(s, i) ==> !text::is_space(#[trigger] s[j]),
    decreases s.len() - i,
{
    if i < s.len() && !text::is_space(s[i]) {
        lemma_ordslutt(s, i + 1);
    }
}

/// The words of a text.
pub fn ord_i(s: &[char]) -> (r: Vec<Vec<char>>)
    ensures
        text::seqs(r@) == ord_fra(s@, 0),
{
    let mut ut: Vec<Vec<char>> = Vec::new();
    let mut i: usize = 0;
    let ghost alle = ord_fra(s@, 0);
    assert(text::seqs(ut@) + ord_fra(s@, 0) =~= alle);
    while i < s.len()
        invariant
            i <= s@.len(),
            alle == ord_fra(s@, 0),
            text::seqs(ut@) + ord_fra(s@, i as int) == alle,
        decreases s.len() - i,
    {
        if text::space(s[i]) {
            i += 1;
        } else {
            proof {
                lemma_ordslutt(s@, i as int);
            }
            let mut n: usize = i;
            while n < s.len() && !text::space(s[n])
                invariant
                    i <= n <= s@.len(),
                    ordslutt(s@, i as int) == ordslutt(s@, n as int),
                decreases s.len() - n,
            {
                n += 1;
            }
            let ghost before = text::seqs(ut@);
            let o: Vec<char> = text::slice(s, i, n);
            let ghost ov = o@;
            ut.push(o);
            assert(text::seqs(ut@) =~= before.push(ov));
            assert(text::seqs(ut@) + ord_fra(s@, n as int) =~= before + (seq![ov] + ord_fra(
                s@,
                n as int,
            )));
            i = n;
        }
    }
    assert(text::seqs(ut@) =~= text::seqs(ut@) + ord_fra(s@, i as int));
    ut
}

/// A line with one more word on it.
pub open spec fn med_ord(linje: Seq<char>, o: Seq<char>) -> Seq<char> {
    if linje.len() > 0 {
        linje + seq![' '] + o
    } else {
        o
    }
}

/// The finished lines and the line begun after the first `n` words: a word goes
/// on the line where there is room for it.
pub open spec fn brutt(o: Seq<Seq<char>>, bredde: nat, n: nat) -> (Seq<Seq<char>>, Seq<char>)
    decreases n,
{
    if n == 0 {
        (Seq::empty(), Seq::empty())
    } else {
        let (f, l) = brutt(o, bredde, (n - 1) as nat);
        let w = o[n - 1];
        if l.len() > 0 && l.len() + 1 + w.len() > bredde {
            (f.push(l), w)
        } else {
            (f, med_ord(l, w))
        }
    }
}

/// The lines of the words.
pub open spec fn linjer_av(o: Seq<Seq<char>>, bredde: nat) -> Seq<Seq<char>> {
    let (f, l) = brutt(o, bredde, o.len());
    if l.len() > 0 {
        f.push(l)
    } else {
        f
    }
}

/// Breaks a text into lines of at most `bredde` characters, where the words
/// allow it, with `innrykk` before every line but the first.
pub fn ombryt(tekst: &str, bredde: usize, innrykk: &str) -> (r: String)
    ensures
        r@ == text::joined(linjer_av(ord_fra(tekst@, 0), bredde as nat), seq!['\n'] + innrykk@),
{
    let cs: Vec<char> = chars_of(tekst);
    let o: Vec<Vec<char>> = ord_i(cs.as_slice());
    let ghost ov = text::seqs(o@);
    let mut linjer: Vec<Vec<char>> = Vec::new();
    let mut linje: Vec<char> = Vec::new();
    let mut i: usize = 0;
    assert((text::seqs(linjer@), linje@) == brutt(ov, bredde as nat, 0)) by {
        assert(text::seqs(linjer@) =~= Seq::empty());
        assert(linje@ =~= Seq::empty());
    }
    while i < o.len()
        invariant
            i <= o@.len(),
            ov == text::seqs(o@),
            (text::seqs(linjer@), linje@) == brutt(ov, bredde as nat, i as nat),
        decreases o.len() - i,
    {
        assert(ov[i as int] == o@[i as int]@);
        let w: usize = o[i].len();
        let ghost before = text::seqs(linjer@);
        let ghost gammel = linje@;
        if linje.len() > 0 && (w >= bredde || linje.len() >= bredde - w) {
            linjer.push(linje);
            assert(text::seqs(linjer@) =~= before.push(gammel));
            linje = text::slice(o[i].as_slice(), 0, w);
            assert(linje@ =~= ov[i as int]);
        } else {
            if linje.len() > 0 {
                linje.push(' ');
                assert(linje@ =~= gammel + seq![' ']);
            }
            push_all(&mut linje, o[i].as_slice());
            assert(linje@ =~= med_ord(gammel, ov[i as int]));
        }
        i += 1;
    }
    let ghost before = text::seqs(linjer@);
    let ghost siste = linje@;
    if linje.len() > 0 {
        linjer.push(linje);
        assert(text::seqs(linjer@) =~= before.push(siste));
    }
    let mut skille: Vec<char> = Vec::new();
    skille.push('\n');
    push_text(&mut skille, innrykk);
    assert(skille@ =~= seq!['\n'] + innrykk@);
    let u: Vec<char> = text::join(&linjer, skille.as_slice());
    string_of(u.as_slice())
}

proof fn lemma_brutt(o: Seq<Seq<char>>, bredde: nat, n: nat)
    requires
        n <= o.len(),
        forall|i: int| 0 <= i < o.len() ==> (#[trigger] o[i]).len() > 0,
    ensures
        n > 0 ==> brutt(o, bredde, n).1.len() > 0,
        n == 0 ==> brutt(o, bredde, n).0.len() == 0,
        n > 0 ==> text::joined(brutt(o, bredde, n).0.push(brutt(o, bredde, n).1), seq![' '])
            == text::joined(o.take(n as int), seq![' ']),
        forall|i: int|
            0 <= i < brutt(o, bredde, n).0.len() ==> (#[trigger] brutt(o, bredde, n).0[i]).len() <= bredde
                || o.contains(brutt(o, bredde, n).0[i]),
        brutt(o, bredde, n).1.len() <= bredde || o.contains(brutt(o, bredde, n).1),
    decreases n,
{
    if n > 0 {
        lemma_brutt(o, bredde, (n - 1) as nat);
        let (f, l) = brutt(o, bredde, (n - 1) as nat);
        let w = o[n - 1];
        let (f2, l2) = brutt(o, bredde, n);
        assert(o.contains(w));
        assert(o.take(n as int).drop_last() =~= o.take(n - 1));
        assert(o.take(n as int).last() == w);
        if n == 1 {
            assert(o.take(1) =~= seq![w]);
            assert(f2.push(l2) =~= seq![w]);
        } else {
            let j = text::joined(o.take(n - 1), seq![' ']);
            assert(text::joined(o.take(n as int), seq![' ']) == j + seq![' '] + w);
            if l.len() + 1 + w.len() > bredde {
                let p = f.push(l).push(w);
                assert(f2.push(l2) =~= p);
                assert(p.drop_last() =~= f.push(l));
            } else {
                let p = f.push(l2);
                assert(p.drop_last() =~= f);
                assert(f.push(l).drop_last() =~= f);
                if f.len() == 0 {
                    assert(p.len() == 1);
                    assert(text::joined(p, seq![' ']) == l2);
                } else {
                    let a = text::joined(f, seq![' ']);
                    assert(text::joined(f.push(l), seq![' ']) == a + seq![' '] + l);
                    assert(text::joined(p, seq![' ']) == a + seq![' '] + l2);
                    assert(a + seq![' '] + l2 =~= (a + seq![' '] + l) + seq![' '] + w);
                }
            }
        }
    }
}

proof fn lemma_ord_ikke_tomme(s: Seq<char>, i: int)
    requires
        0 <= i,
    ensures
        forall|j: int| 0 <= j < ord_fra(s, i).len() ==> (#[trigger] ord_fra(s, i)[j]).len() > 0,
    decreases s.len() - i,
{
    if i < s.len() {
        if text::is_space(s[i]) {
            lemma_ord_ikke_tomme(s, i + 1);
            assert(ord_fra(s, i) == ord_fra(s, i + 1));
        } else {
            lemma_ordslutt(s, i);
            let n = ordslutt(s, i);
            lemma_ord_ikke_tomme(s, n);
            let r = ord_fra(s, i);
            let rest = ord_fra(s, n);
            assert(r == seq![s.subrange(i, n)] + rest);
            assert forall|j: int| 0 <= j < r.len() implies (#[trigger] r[j]).len() > 0 by {
                if j == 0 {
                    assert(r[0] == s.subrange(i, n));
                } else {
                    assert(r[j] == rest[j - 1]);
                }
            }
        }
    }
}

/// Breaking lines keeps every word, in order, and makes no line longer than
/// `bredde` unless it is a single word that is.
pub proof fn law_ombryt(tekst: Seq<char>, bredde: nat)
    ensures
        text::joined(linjer_av(ord_fra(tekst, 0), bredde), seq![' ']) == text::joined(
            ord_fra(tekst, 0),
            seq![' '],
        ),
        forall|i: int|
            0 <= i < linjer_av(ord_fra(tekst, 0), bredde).len() ==> (#[trigger] linjer_av(
                ord_fra(tekst, 0),
                bredde,
            )[i]).len() <= bredde || ord_fra(tekst, 0).contains(
                linjer_av(ord_fra(tekst, 0), bredde)[i],
            ),
{
    let o = ord_fra(tekst, 0);
    lemma_ord_ikke_tomme(tekst, 0);
    lemma_brutt(o, bredde, o.len());
    assert(o.take(o.len() as int) =~= o);
    let (f, l) = brutt(o, bredde, o.len());
    let r = linjer_av(o, bredde);
    if o.len() == 0 {
        assert(r =~= o);
    }
    assert forall|i: int| 0 <= i < r.len() implies (#[trigger] r[i]).len() <= bredde || o.contains(r[i]) by {
        if i < f.len() {
            assert(r[i] == f[i]);
        }
    }
}

/// The line that the words from `a` to before `b` make.
pub open spec fn linje_av(o: Seq<Seq<char>>, a: int, b: int) -> Seq<char> {
    text::joined(o.subrange(a, b), seq![' '])
}

/// Where line number `j` begins, in a layout given by where its lines end.
pub open spec fn linjestart(ender: Seq<int>, j: int) -> int {
    if j <= 0 {
        0
    } else {
        ender[j - 1]
    }
}

/// Whether the first `n` words can stand in lines that end where `ender` says:
/// each line has a word, and is no longer than `bredde` unless it is a single
/// word.
pub open spec fn kan_staa(o: Seq<Seq<char>>, bredde: nat, ender: Seq<int>, n: int) -> bool {
    &&& ender.len() > 0
    &&& ender.last() == n
    &&& forall|j: int|
        0 <= j < ender.len() ==> linjestart(ender, j) < #[trigger] ender[j] && ender[j] <= n && (ender[j]
            - linjestart(ender, j) == 1 || linje_av(o, linjestart(ender, j), ender[j]).len() <= bredde)
}

/// Where the line begins that has been begun after the first `n` words.
spec fn begynt(o: Seq<Seq<char>>, bredde: nat, n: nat) -> int
    decreases n,
{
    if n == 0 {
        0
    } else {
        let l = brutt(o, bredde, (n - 1) as nat).1;
        if l.len() > 0 && l.len() + 1 + o[n - 1].len() > bredde {
            n - 1
        } else {
            begynt(o, bredde, (n - 1) as nat)
        }
    }
}

/// One word more makes a line longer by the word and a blank.
proof fn lemma_linje_lengre(o: Seq<Seq<char>>, a: int, b: int)
    requires
        0 <= a < b < o.len(),
    ensures
        linje_av(o, a, b + 1) == linje_av(o, a, b) + seq![' '] + o[b],
{
    let s = o.subrange(a, b + 1);
    assert(s.drop_last() =~= o.subrange(a, b));
    assert(s.last() == o[b]);
}

/// A line that begins later is no longer.
proof fn lemma_linje_kortere(o: Seq<Seq<char>>, a: int, c: int, b: int)
    requires
        0 <= a <= c < b <= o.len(),
    ensures
        linje_av(o, c, b).len() <= linje_av(o, a, b).len(),
    decreases b,
{
    if a < c {
        if c + 1 < b {
            lemma_linje_kortere(o, a, c, b - 1);
            lemma_linje_lengre(o, a, b - 1);
            lemma_linje_lengre(o, c, b - 1);
        } else {
            lemma_linje_lengre(o, a, b - 1);
            assert(o.subrange(c, b) =~= seq![o[c]]);
        }
    }
}

proof fn lemma_begynt(o: Seq<Seq<char>>, bredde: nat, n: nat)
    requires
        0 < n <= o.len(),
        forall|i: int| 0 <= i < o.len() ==> (#[trigger] o[i]).len() > 0,
    ensures
        0 <= begynt(o, bredde, n) < n,
        brutt(o, bredde, n).1 == linje_av(o, begynt(o, bredde, n), n as int),
        brutt(o, bredde, n).1.len() > 0,
    decreases n,
{
    let a = begynt(o, bredde, n);
    if n == 1 {
        reveal_with_fuel(begynt, 2);
        reveal_with_fuel(brutt, 2);
        assert(brutt(o, bredde, 0).1.len() == 0);
        assert(o.subrange(0, 1) =~= seq![o[0]]);
    } else {
        lemma_begynt(o, bredde, (n - 1) as nat);
        if a == n - 1 {
            assert(o.subrange(n - 1, n as int) =~= seq![o[n - 1]]);
        } else {
            lemma_linje_lengre(o, a, n - 1);
        }
    }
}

/// A layout whose last line is a single word is one of the other words without
/// that line.
proof fn lemma_uten_linje(o: Seq<Seq<char>>, bredde: nat, n: int, ender: Seq<int>)
    requires
        1 < n <= o.len(),
        kan_staa(o, bredde, ender, n),
        linjestart(ender, ender.len() - 1) == n - 1,
    ensures
        kan_staa(o, bredde, ender.drop_last(), n - 1),
{
    let m = ender.len() as int;
    let kort = ender.drop_last();
    assert(m > 1);
    assert(kort.last() == ender[m - 2]);
    assert forall|j: int| 0 <= j < kort.len() implies linjestart(kort, j) < #[trigger] kort[j] && kort[j] <= n - 1 && (
    kort[j] - linjestart(kort, j) == 1 || linje_av(o, linjestart(kort, j), kort[j]).len() <= bredde) by {
        assert(kort[j] == ender[j]);
        assert(linjestart(kort, j) == linjestart(ender, j));
        lemma_enden_stiger(o, bredde, ender, n, j, m - 2);
    }
}

/// A layout whose last line has more words is one of the other words without the
/// last of them.
proof fn lemma_uten_ord(o: Seq<Seq<char>>, bredde: nat, n: int, ender: Seq<int>)
    requires
        1 < n <= o.len(),
        kan_staa(o, bredde, ender, n),
        linjestart(ender, ender.len() - 1) < n - 1,
    ensures
        kan_staa(o, bredde, ender.update(ender.len() - 1, n - 1), n - 1),
        0 <= linjestart(ender, ender.len() - 1),
        linje_av(o, linjestart(ender, ender.len() - 1), n).len() <= bredde,
{
    let m = ender.len() as int;
    let p = linjestart(ender, m - 1);
    let kort = ender.update(m - 1, n - 1);
    assert(ender[m - 1] == n);
    if m > 1 {
        assert(linjestart(ender, 0) < ender[0]);
        lemma_enden_stiger(o, bredde, ender, n, 0, m - 2);
    }
    lemma_linje_lengre(o, p, n - 1);
    assert forall|j: int| 0 <= j < kort.len() implies linjestart(kort, j) < #[trigger] kort[j] && kort[j] <= n - 1 && (
    kort[j] - linjestart(kort, j) == 1 || linje_av(o, linjestart(kort, j), kort[j]).len() <= bredde) by {
        assert(linjestart(kort, j) == linjestart(ender, j));
        assert(ender[j] <= n);
        if j < m - 1 {
            assert(kort[j] == ender[j]);
            lemma_enden_stiger(o, bredde, ender, n, j, m - 2);
        }
    }
}

/// Of the layouts of the first `n` words, filling each line has the fewest lines
/// and, among those with as few, the shortest last line.
proof fn lemma_faerrest(o: Seq<Seq<char>>, bredde: nat, n: nat, ender: Seq<int>)
    requires
        0 < n <= o.len(),
        forall|i: int| 0 <= i < o.len() ==> (#[trigger] o[i]).len() > 0,
        kan_staa(o, bredde, ender, n as int),
    ensures
        brutt(o, bredde, n).0.len() + 1 <= ender.len(),
        brutt(o, bredde, n).0.len() + 1 == ender.len() ==> linjestart(ender, ender.len() - 1) <= begynt(o, bredde, n),
    decreases n,
{
    let m = ender.len() as int;
    let p = linjestart(ender, m - 1);
    assert(ender[m - 1] == n);
    assert(p < n);
    lemma_begynt(o, bredde, n);
    if n > 1 {
        let f = (n - 1) as nat;
        lemma_begynt(o, bredde, f);
        if p == n - 1 {
            lemma_uten_linje(o, bredde, n as int, ender);
            lemma_faerrest(o, bredde, f, ender.drop_last());
        } else {
            lemma_uten_ord(o, bredde, n as int, ender);
            let kort = ender.update(m - 1, n - 1);
            lemma_faerrest(o, bredde, f, kort);
            assert(linjestart(kort, m - 1) == p);
            let a = begynt(o, bredde, f);
            if p <= a {
                lemma_linje_kortere(o, p, a, n as int);
                lemma_linje_lengre(o, a, n - 1);
            }
        }
    } else {
        reveal_with_fuel(brutt, 2);
        if m > 1 {
            assert(linjestart(ender, 0) < ender[0]);
            lemma_enden_stiger(o, bredde, ender, n as int, 0, m - 2);
        }
    }
}

proof fn lemma_enden_stiger(o: Seq<Seq<char>>, bredde: nat, ender: Seq<int>, n: int, i: int, j: int)
    requires
        kan_staa(o, bredde, ender, n),
        0 <= i <= j < ender.len(),
    ensures
        ender[i] <= ender[j],
    decreases j - i,
{
    if i < j {
        lemma_enden_stiger(o, bredde, ender, n, i, j - 1);
        assert(linjestart(ender, j) == ender[j - 1]);
    }
}

/// No layout of the words within the width has fewer lines.
pub proof fn law_ombryt_faerrest_linjer(tekst: Seq<char>, bredde: nat, ender: Seq<int>)
    requires
        kan_staa(ord_fra(tekst, 0), bredde, ender, ord_fra(tekst, 0).len() as int),
    ensures
        linjer_av(ord_fra(tekst, 0), bredde).len() <= ender.len(),
{
    let o = ord_fra(tekst, 0);
    lemma_ord_ikke_tomme(tekst, 0);
    assert(linjestart(ender, 0) < ender[0]);
    lemma_faerrest(o, bredde, o.len(), ender);
}

/// Each flag sets the one thing it is for and leaves the rest.
pub proof fn law_flagget_setter_sitt(v: ValgInnhold, a: Seq<char>, verdi: Seq<char>, w: ValgInnhold)
    requires
        flagg(a),
        med_flagg(v, a, verdi) == Ok::<ValgInnhold, ValgFeilInnhold>(w),
    ensures
        w.spill == v.spill,
        w.mappe == (if a == "--mappe"@ {
            verdi
        } else {
            v.mappe
        }),
        w.endepunkt == (if a == "--endepunkt"@ {
            Some(verdi)
        } else {
            v.endepunkt
        }),
        a == "--fra-aar"@ ==> number_text::int_of(verdi) == Some(w.fra_aar),
        a != "--fra-aar"@ ==> w.fra_aar == v.fra_aar,
        a == "--rekker"@ ==> number_text::nat_of(verdi) == Some(w.rekker),
        a != "--rekker"@ ==> w.rekker == v.rekker,
        a == "--fro"@ || a == "--frø"@ ==> number_text::nat_of(verdi) == Some(w.fro),
        a != "--fro"@ && a != "--frø"@ ==> w.fro == v.fro,
{
    reveal_strlit("--mappe");
    reveal_strlit("--fra-aar");
    reveal_strlit("--endepunkt");
    reveal_strlit("--rekker");
    reveal_strlit("--fro");
    reveal_strlit("--frø");
    assert("--mappe"@.len() == 7 && "--fra-aar"@.len() == 9 && "--endepunkt"@.len() == 11 && "--rekker"@.len() == 8
        && "--fro"@.len() == 5 && "--frø"@.len() == 5);
}

/// Without arguments all games are meant, thirty years back, with ten rows and
/// the seed of the day.
pub proof fn law_uten_argumenter(aar: int, dag: nat, mappe: Seq<char>)
    ensures
        ({
            let v = valgt(Seq::empty(), 0, utgangspunkt(aar, dag, mappe));
            v matches Ok(u) && u.spill == seq![Spill::Lotto, Spill::Vikinglotto, Spill::Eurojackpot] && u.fra_aar + 30
                == aar && u.rekker == 10 && u.fro == dag && u.mappe == mappe && u.endepunkt is None
        }),
{
}

proof fn lemma_ord_og_blank(o: Seq<char>, c: char, rest: Seq<char>, i: int)
    requires
        forall|j: int| 0 <= j < o.len() ==> !text::is_space(#[trigger] o[j]),
        text::is_space(c),
        0 <= i <= o.len(),
    ensures
        ordslutt(o + seq![c] + rest, i) == o.len(),
        ordslutt(o, i) == o.len(),
    decreases o.len() - i,
{
    let s = o + seq![c] + rest;
    if i < o.len() {
        assert(s[i] == o[i]);
        assert(!text::is_space(o[i]));
        lemma_ord_og_blank(o, c, rest, i + 1);
    } else {
        assert(s[i] == c);
    }
}

proof fn lemma_flyttet_slutt(s: Seq<char>, k: int, i: int)
    requires
        0 <= k <= s.len(),
        0 <= i <= s.len() - k,
    ensures
        ordslutt(s.skip(k), i) + k == ordslutt(s, i + k),
        i <= ordslutt(s.skip(k), i) <= s.len() - k,
    decreases s.len() - k - i,
{
    if i + k < s.len() && !text::is_space(s[i + k]) {
        lemma_flyttet_slutt(s, k, i + 1);
    }
}

proof fn lemma_flyttede_ord(s: Seq<char>, k: int, i: int)
    requires
        0 <= k <= s.len(),
        0 <= i <= s.len() - k,
    ensures
        ord_fra(s.skip(k), i) == ord_fra(s, i + k),
    decreases s.len() - k - i,
{
    let t = s.skip(k);
    if i < t.len() {
        if text::is_space(t[i]) {
            lemma_flyttede_ord(s, k, i + 1);
        } else {
            let n = ordslutt(t, i);
            lemma_flyttet_slutt(s, k, i);
            lemma_flyttet_slutt(s, k, i + 1);
            assert(n > i);
            lemma_flyttede_ord(s, k, n);
            assert(t.subrange(i, n) =~= s.subrange(i + k, n + k));
        }
    }
}

/// The words of a text are what stands between blanks: the first word, and then
/// the words of what follows it.
pub proof fn law_ordene(o: Seq<char>, c: char, rest: Seq<char>)
    requires
        forall|j: int| 0 <= j < o.len() ==> !text::is_space(#[trigger] o[j]),
        text::is_space(c),
    ensures
        o.len() > 0 ==> ord_fra(o + seq![c] + rest, 0) == seq![o] + ord_fra(rest, 0),
        o.len() == 0 ==> ord_fra(o + seq![c] + rest, 0) == ord_fra(rest, 0),
        o.len() > 0 ==> ord_fra(o, 0) == seq![o],
{
    let s = o + seq![c] + rest;
    let n = o.len() as int;
    lemma_ord_og_blank(o, c, rest, 0);
    assert(s.subrange(0, n) =~= o);
    assert(o.subrange(0, n) =~= o);
    assert(s[n] == c);
    assert(s.skip(n + 1) =~= rest);
    lemma_flyttede_ord(s, n + 1, 0);
    if n > 0 {
        assert(s[0] == o[0]);
        assert(!text::is_space(o[0]));
        assert(ord_fra(s, n) == ord_fra(s, n + 1));
        assert(ord_fra(o, n) =~= Seq::<Seq<char>>::empty());
        assert(ord_fra(o, 0) =~= seq![o]);
    }
}

}
