//! The games and their rules.
use vstd::prelude::*;

use crate::text;
use crate::text::{push_text, string_of};

verus! {

/// The games that are analysed, with today's rules.
#[derive(Debug, Clone, Copy, PartialEq, Eq, Structural)]
pub enum Spill {
    /// 7 of 34.
    Lotto,
    /// 6 of 48, and 1 Viking number of 5.
    Vikinglotto,
    /// 5 of 50, and 2 star numbers of 12.
    Eurojackpot,
}

/// "n over k": the number of ways to choose k of n, by Pascal's rule.
pub open spec fn binom(n: nat, k: nat) -> nat
    decreases n,
{
    if k == 0 {
        1
    } else if n == 0 {
        0
    } else {
        binom((n - 1) as nat, (k - 1) as nat) + binom((n - 1) as nat, k)
    }
}

/// Choosing more than there is cannot be done.
pub proof fn law_binom_over(n: nat, k: nat)
    requires
        k > n,
    ensures
        binom(n, k) == 0,
    decreases n,
{
    if n > 0 {
        law_binom_over((n - 1) as nat, (k - 1) as nat);
        law_binom_over((n - 1) as nat, k);
    }
}

/// There is one way to choose everything.
proof fn lemma_binom_all(n: nat)
    ensures
        binom(n, n) == 1,
    decreases n,
{
    if n > 0 {
        lemma_binom_all((n - 1) as nat);
        law_binom_over((n - 1) as nat, n);
    }
}

/// Choosing what to take is choosing what to leave.
pub proof fn law_binom_symmetric(n: nat, k: nat)
    requires
        k <= n,
    ensures
        binom(n, k) == binom(n, (n - k) as nat),
    decreases n,
{
    lemma_binom_all(n);
    if n > 0 && 0 < k < n {
        law_binom_symmetric((n - 1) as nat, (k - 1) as nat);
        law_binom_symmetric((n - 1) as nat, k);
    }
}

/// The next number of ways follows from the last by one multiplication and
/// one exact division.
proof fn lemma_binom_step(n: nat, k: nat)
    requires
        k < n,
    ensures
        binom(n, k + 1) * (k + 1) == binom(n, k) * (n - k),
    decreases n,
{
    let m = (n - 1) as nat;
    if k == 0 {
        lemma_binom_one(n);
        assert(binom(n, 1) * 1 == binom(n, 0) * (n - 0)) by (nonlinear_arith)
            requires
                binom(n, 1) == n,
                binom(n, 0) == 1,
        ;
    } else {
        let a = binom(m, (k - 1) as nat) as int;
        let b = binom(m, k) as int;
        let c = binom(m, k + 1) as int;
        lemma_binom_step(m, (k - 1) as nat);
        assert(b * k == a * (m - (k - 1)));
        if k < m {
            lemma_binom_step(m, k);
        } else {
            law_binom_over(m, k + 1);
        }
        assert(c * (k + 1) == b * (m - k)) by (nonlinear_arith)
            requires
                c * (k + 1) == b * (m - k) || (c == 0 && k == m),
        ;
        assert((b + c) * (k + 1) == (a + b) * (n - k)) by (nonlinear_arith)
            requires
                m == n - 1,
                b * k == a * (m - (k - 1)),
                c * (k + 1) == b * (m - k),
        ;
    }
}

proof fn lemma_binom_one(n: nat)
    ensures
        binom(n, 1) == n,
    decreases n,
{
    if n > 0 {
        reveal_with_fuel(binom, 2);
        lemma_binom_one((n - 1) as nat);
    }
}

proof fn lemma_binom_bound(n: nat, k: nat)
    ensures
        binom(n, k) <= vstd::arithmetic::power2::pow2(n),
    decreases n,
{
    vstd::arithmetic::power2::lemma_pow2_pos(n);
    if k > 0 && n > 0 {
        lemma_binom_bound((n - 1) as nat, (k - 1) as nat);
        lemma_binom_bound((n - 1) as nat, k);
        vstd::arithmetic::power2::lemma_pow2_unfold(n);
    }
}

pub open spec fn minst(a: nat, b: nat) -> nat {
    if a <= b {
        a
    } else {
        b
    }
}

/// Whether every product on the way to "n over k" fits in 128 bits.
pub open spec fn faar_plass(n: nat, k: nat) -> bool {
    forall|i: nat| i < minst(k, (n - k) as nat) ==> #[trigger] binom(n, i) * (n - i) <= u128::MAX
}

/// "n over k": the number of ways to choose k of n.
pub fn kombinasjoner(n: u128, k: u128) -> (r: u128)
    requires
        k <= n ==> faar_plass(n as nat, k as nat),
    ensures
        r == binom(n as nat, k as nat),
{
    if k > n {
        proof {
            law_binom_over(n as nat, k as nat);
        }
        return 0;
    }
    let m: u128 = if k <= n - k {
        k
    } else {
        n - k
    };
    let mut resultat: u128 = 1;
    let mut i: u128 = 0;
    while i < m
        invariant
            i <= m,
            m == minst(k as nat, (n - k) as nat),
            m <= n,
            faar_plass(n as nat, k as nat),
            resultat == binom(n as nat, i as nat),
        decreases m - i,
    {
        proof {
            let x = binom(n as nat, i as nat);
            assert(x * (n - i) <= u128::MAX);
            lemma_binom_step(n as nat, i as nat);
            let y = binom(n as nat, (i + 1) as nat) as int;
            assert((y * (i + 1)) / (i + 1) == y) by {
                vstd::arithmetic::div_mod::lemma_div_multiples_vanish(y, i + 1);
                assert(y * (i + 1) == (i + 1) * y) by (nonlinear_arith);
            }
        }
        resultat = resultat * (n - i) / (i + 1);
        i += 1;
    }
    proof {
        law_binom_symmetric(n as nat, k as nat);
    }
    resultat
}

impl Spill {
    pub open spec fn navn_spec(self) -> Seq<char> {
        match self {
            Spill::Lotto => "Lotto"@,
            Spill::Vikinglotto => "Vikinglotto"@,
            Spill::Eurojackpot => "Eurojackpot"@,
        }
    }

    pub open spec fn api_navn_spec(self) -> Seq<char> {
        match self {
            Spill::Lotto => "lotto"@,
            Spill::Vikinglotto => "vikinglotto"@,
            Spill::Eurojackpot => "eurojackpot"@,
        }
    }

    pub open spec fn antall_spec(self) -> nat {
        match self {
            Spill::Lotto => 7,
            Spill::Vikinglotto => 6,
            Spill::Eurojackpot => 5,
        }
    }

    pub open spec fn maks_spec(self) -> nat {
        match self {
            Spill::Lotto => 34,
            Spill::Vikinglotto => 48,
            Spill::Eurojackpot => 50,
        }
    }

    pub open spec fn ekstra_antall_spec(self) -> nat {
        match self {
            Spill::Lotto => 0,
            Spill::Vikinglotto => 1,
            Spill::Eurojackpot => 2,
        }
    }

    pub open spec fn ekstra_maks_spec(self) -> nat {
        match self {
            Spill::Lotto => 0,
            Spill::Vikinglotto => 5,
            Spill::Eurojackpot => 12,
        }
    }

    /// The number of rows a player can hand in.
    pub open spec fn rekker_spec(self) -> nat {
        binom(self.maks_spec(), self.antall_spec()) * binom(
            self.ekstra_maks_spec(),
            self.ekstra_antall_spec(),
        )
    }

    /// The game that a lower-case name stands for.
    pub open spec fn av_lavt_navn(s: Seq<char>) -> Option<Spill> {
        if s == "lotto"@ {
            Some(Spill::Lotto)
        } else if s == "vikinglotto"@ || s == "viking"@ {
            Some(Spill::Vikinglotto)
        } else if s == "eurojackpot"@ || s == "euro"@ {
            Some(Spill::Eurojackpot)
        } else {
            None
        }
    }

    /// All games.
    pub fn alle() -> (r: Vec<Spill>)
        ensures
            r@ == seq![Spill::Lotto, Spill::Vikinglotto, Spill::Eurojackpot],
    {
        let mut ut: Vec<Spill> = Vec::new();
        ut.push(Spill::Lotto);
        ut.push(Spill::Vikinglotto);
        ut.push(Spill::Eurojackpot);
        assert(ut@ =~= seq![Spill::Lotto, Spill::Vikinglotto, Spill::Eurojackpot]);
        ut
    }

    pub fn navn(self) -> (r: &'static str)
        ensures
            r@ == self.navn_spec(),
    {
        match self {
            Spill::Lotto => "Lotto",
            Spill::Vikinglotto => "Vikinglotto",
            Spill::Eurojackpot => "Eurojackpot",
        }
    }

    /// The name in addresses and file names.
    pub fn api_navn(self) -> (r: &'static str)
        ensures
            r@ == self.api_navn_spec(),
    {
        match self {
            Spill::Lotto => "lotto",
            Spill::Vikinglotto => "vikinglotto",
            Spill::Eurojackpot => "eurojackpot",
        }
    }

    /// The game of that name in lower case, in full or, but for Lotto, short.
    pub fn fra_lavt_navn(s: &str) -> (r: Option<Spill>)
        ensures
            r == Spill::av_lavt_navn(s@),
    {
        if text::same(s, "lotto") {
            Some(Spill::Lotto)
        } else if text::same(s, "vikinglotto") || text::same(s, "viking") {
            Some(Spill::Vikinglotto)
        } else if text::same(s, "eurojackpot") || text::same(s, "euro") {
            Some(Spill::Eurojackpot)
        } else {
            None
        }
    }

    /// The game of that name, in full or short, in upper or lower case.
    pub fn fra_navn(s: &str) -> (r: Option<Spill>)
        ensures
            r == Spill::av_lavt_navn(text::lowercase(s@)),
            text::ascii(s@) ==> r == Spill::av_lavt_navn(text::ascii_lower(s@)),
    {
        let lav: String = text::to_lowercase(s);
        Spill::fra_lavt_navn(lav.as_str())
    }

    /// How many main numbers the player picks.
    pub fn hovedtall_antall(self) -> (r: usize)
        ensures
            r == self.antall_spec(),
    {
        match self {
            Spill::Lotto => 7,
            Spill::Vikinglotto => 6,
            Spill::Eurojackpot => 5,
        }
    }

    /// The highest main number; the lowest is 1.
    pub fn hovedtall_maks(self) -> (r: u8)
        ensures
            r == self.maks_spec(),
    {
        match self {
            Spill::Lotto => 34,
            Spill::Vikinglotto => 48,
            Spill::Eurojackpot => 50,
        }
    }

    /// How many extra numbers the player picks. Lotto's additional number is
    /// drawn by the machine and picked by nobody.
    pub fn ekstra_antall(self) -> (r: usize)
        ensures
            r == self.ekstra_antall_spec(),
    {
        match self {
            Spill::Lotto => 0,
            Spill::Vikinglotto => 1,
            Spill::Eurojackpot => 2,
        }
    }

    /// The highest extra number; 0 where the player picks none.
    pub fn ekstra_maks(self) -> (r: u8)
        ensures
            r == self.ekstra_maks_spec(),
    {
        match self {
            Spill::Lotto => 0,
            Spill::Vikinglotto => 5,
            Spill::Eurojackpot => 12,
        }
    }

    /// The number of possible rows, which is one over the chance of the first
    /// prize.
    pub fn kombinasjoner(self) -> (r: u128)
        ensures
            r == self.rekker_spec(),
    {
        proof {
            vstd::arithmetic::power2::lemma2_to64();
            assert forall|n: nat, i: nat| n <= 50 && i <= n implies #[trigger] binom(n, i) * (n - i)
                <= 50 * 0x1_0000_0000_0000_0000 by {
                lemma_binom_bound(n, i);
                vstd::arithmetic::power2::lemma_pow2_strictly_increases(n, 64);
                assert(binom(n, i) * (n - i) <= 0x1_0000_0000_0000_0000 * 50) by (nonlinear_arith)
                    requires
                        binom(n, i) <= 0x1_0000_0000_0000_0000,
                        0 <= n - i <= 50,
                ;
            }
            lemma_binom_bound(self.maks_spec(), self.antall_spec());
            lemma_binom_bound(12, 2);
            lemma_binom_bound(5, 1);
            vstd::arithmetic::power2::lemma_pow2_strictly_increases(self.maks_spec(), 64);
        }
        let hoved: u128 = kombinasjoner(
            self.hovedtall_maks() as u128,
            self.hovedtall_antall() as u128,
        );
        let ekstra: u128 = if self.ekstra_antall() == 0 {
            1
        } else {
            kombinasjoner(self.ekstra_maks() as u128, self.ekstra_antall() as u128)
        };
        assert(hoved * ekstra <= 0x1_0000_0000_0000_0000 * 4096) by (nonlinear_arith)
            requires
                hoved <= 0x1_0000_0000_0000_0000,
                ekstra <= 4096,
        ;
        hoved * ekstra
    }

    /// About how much of the stakes goes back to the players, in per cent: the
    /// lotteries pay out half of them.
    pub fn tilbakebetaling(self) -> (r: u32)
        ensures
            r == 50,
    {
        50
    }

    /// The names of the game at Veikkaus; none where the draw is not shared.
    pub fn veikkaus_navn(self) -> (r: Vec<&'static str>)
        ensures
            r@.len() == self.veikkaus_spec().len(),
            forall|i: int| 0 <= i < r@.len() ==> (#[trigger] r@[i])@ == self.veikkaus_spec()[i],
    {
        let mut ut: Vec<&'static str> = Vec::new();
        match self {
            Spill::Lotto => {},
            Spill::Vikinglotto => {
                ut.push("VIKING");
            },
            Spill::Eurojackpot => {
                ut.push("EJACKPOT");
            },
        }
        ut
    }

    pub open spec fn veikkaus_spec(self) -> Seq<Seq<char>> {
        match self {
            Spill::Lotto => Seq::empty(),
            Spill::Vikinglotto => seq!["VIKING"@],
            Spill::Eurojackpot => seq!["EJACKPOT"@],
        }
    }
}

/// A file of the given name in a directory.
pub open spec fn i_mappe(mappe: Seq<char>, fil: Seq<char>) -> Seq<char> {
    if mappe.len() == 0 || mappe.last() == '/' {
        mappe + fil
    } else {
        mappe + seq!['/'] + fil
    }
}

/// Where the history of a game is kept under the data directory.
pub fn csv_sti(mappe: &str, spill: Spill) -> (r: String)
    ensures
        r@ == i_mappe(mappe@, spill.api_navn_spec() + ".csv"@),
{
    let mut ut: Vec<char> = text::chars_of(mappe);
    if ut.len() > 0 && ut[ut.len() - 1] != '/' {
        ut.push('/');
        assert(ut@ =~= mappe@ + seq!['/']);
    }
    let ghost start = ut@;
    push_text(&mut ut, spill.api_navn());
    push_text(&mut ut, ".csv");
    assert(ut@ =~= start + (spill.api_navn_spec() + ".csv"@));
    string_of(ut.as_slice())
}

/// The page with the results of a game.
pub fn nt_side_url(spill: Spill) -> (r: String)
    ensures
        r@ == "https://www.norsk-tipping.no/lotteri/"@ + spill.api_navn_spec() + "/resultater"@,
{
    let mut ut: Vec<char> = text::chars_of("https://www.norsk-tipping.no/lotteri/");
    push_text(&mut ut, spill.api_navn());
    push_text(&mut ut, "/resultater");
    string_of(ut.as_slice())
}

}
