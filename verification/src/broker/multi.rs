//! Two brokers at a time, chosen by the kind of symbol: pairs such as
//! `BTC-USD` go to one, everything else to the other. Positions and cash are
//! counted in the currency of the account.
use vstd::prelude::*;

use crate::belop;
use crate::tabell::Tabell;
use crate::text;
use crate::text::{copy_text, two};
use crate::types;
use crate::types::{Position, PosisjonSyn};

verus! {

/// The broker that an order goes to.
#[derive(Debug, Clone, Copy, PartialEq, Eq, Structural)]
pub enum Rute {
    Aksjer,
    Krypto,
}

/// What the two brokers together need to know.
#[derive(Debug)]
pub struct MultiBroker {
    /// The currency of the broker for pairs; empty: that of the account.
    pub crypto_currency: String,
}

/// An amount in another currency, cut off at the hundred-millionth; none where
/// it grows out of bounds.
pub open spec fn omregnet(v: int, kurs: int) -> Option<int> {
    let r = belop::kvotient(v * kurs, 100_000_000);
    if i64::MIN <= r <= i64::MAX {
        Some(r)
    } else {
        None
    }
}

pub fn omregn(v: i64, kurs: i64) -> (r: Option<i64>)
    ensures
        r is Some == omregnet(v as int, kurs as int) is Some,
        r matches Some(x) ==> omregnet(v as int, kurs as int) == Some(x as int),
{
    proof {
        types::lemma_produkt(v as int, kurs as int);
    }
    let x: i128 = belop::del(v as i128 * kurs as i128, 100_000_000);
    if x >= i64::MIN as i128 && x <= i64::MAX as i128 {
        Some(x as i64)
    } else {
        None
    }
}

/// A holding with its prices in the currency of the account.
pub open spec fn omregnet_posisjon(p: PosisjonSyn, kurs: int) -> Option<PosisjonSyn> {
    match (omregnet(p.avg_price as int, kurs), omregnet(p.last as int, kurs)) {
        (Some(a), Some(l)) => Some(PosisjonSyn { avg_price: a as i64, last: l as i64, ..p }),
        _ => None,
    }
}

/// Holdings with their prices in the currency of the account; none where one
/// of them grows out of bounds.
pub open spec fn omregnede(l: Seq<PosisjonSyn>, kurs: int) -> Option<Seq<PosisjonSyn>>
    decreases l.len(),
{
    if l.len() == 0 {
        Some(l)
    } else {
        match (omregnede(l.drop_last(), kurs), omregnet_posisjon(l.last(), kurs)) {
            (Some(for_), Some(p)) => Some(for_.push(p)),
            _ => None,
        }
    }
}

/// The cash of two brokers in the currency of the account; none where it
/// grows out of bounds.
pub open spec fn samlede_kontanter(aksjer: int, krypto: int, kurs: int) -> Option<int> {
    let sum = aksjer + belop::kvotient(krypto * kurs, 100_000_000);
    if i128::MIN < krypto * kurs <= i128::MAX && i128::MIN <= sum <= i128::MAX {
        Some(sum)
    } else {
        None
    }
}

/// What is said of an attempt to cancel at both brokers.
pub open spec fn kansellering(a: Option<Seq<char>>, b: Option<Seq<char>>) -> Option<Seq<char>> {
    match (a, b) {
        (None, None) => None,
        (Some(e), None) => Some("aksjemegleren: "@ + e),
        (None, Some(e)) => Some("kryptomegleren: "@ + e),
        (Some(e1), Some(e2)) => Some("kryptomegleren feilet også: "@ + (e2 + (": "@ + e1))),
    }
}

/// What is said when cancelling failed; the kill switch reaches both brokers,
/// so that both errors are told.
pub fn kansellert(aksjer: Option<&str>, krypto: Option<&str>) -> (r: Option<String>)
    ensures
        (match kansellering(crate::json::tekst_syn(aksjer), crate::json::tekst_syn(krypto)) {
            Some(t) => r is Some && r->0@ == t,
            None => r is None,
        }),
{
    match (aksjer, krypto) {
        (None, None) => None,
        (Some(e), None) => Some(two("aksjemegleren: ", e)),
        (None, Some(e)) => Some(two("kryptomegleren: ", e)),
        (Some(e1), Some(e2)) => {
            let hale: String = two(": ", e1);
            let rest: String = two(e2, hale.as_str());
            Some(two("kryptomegleren feilet også: ", rest.as_str()))
        },
    }
}

impl MultiBroker {
    pub open spec fn kurs(&self, kurser: Tabell<i64>) -> int {
        if self.crypto_currency@.len() == 0 || !kurser@.dom().contains(self.crypto_currency@) {
            100_000_000
        } else {
            kurser@[self.crypto_currency@] as int
        }
    }

    pub fn new(crypto_currency: String) -> (r: MultiBroker)
        ensures
            r.crypto_currency == crypto_currency,
    {
        MultiBroker { crypto_currency }
    }

    pub fn name(&self) -> (r: &'static str)
        ensures
            r@ == "multi"@,
    {
        "multi"
    }

    /// The rate from the currency of the broker for pairs; one whole until it
    /// is known.
    pub fn crypto_rate(&self, kurser: &Tabell<i64>) -> (r: i64)
        requires
            kurser.ordnet(),
        ensures
            r == self.kurs(*kurser),
    {
        if self.crypto_currency.as_str().unicode_len() == 0 {
            return belop::HEL;
        }
        match kurser.hent(self.crypto_currency.as_str()) {
            Some(k) => *k,
            None => belop::HEL,
        }
    }

    /// The broker of a symbol.
    pub fn route(&self, symbol: &str) -> (r: Rute)
        ensures
            r == (if types::krypto(symbol@) {
                Rute::Krypto
            } else {
                Rute::Aksjer
            }),
    {
        if types::is_crypto(symbol) {
            Rute::Krypto
        } else {
            Rute::Aksjer
        }
    }

    /// The holdings of both brokers, those of pairs in the currency of the
    /// account.
    pub fn positions(&self, aksjer: Vec<Position>, krypto: &Vec<Position>, kurser: &Tabell<i64>) -> (r: Option<
        Vec<Position>,
    >)
        requires
            kurser.ordnet(),
        ensures
            (match omregnede(types::posisjoner(krypto@), self.kurs(*kurser)) {
                Some(k) => r is Some && types::posisjoner(r->0@) == types::posisjoner(aksjer@) + k,
                None => r is None,
            }),
    {
        let kurs: i64 = self.crypto_rate(kurser);
        let ghost forst = types::posisjoner(aksjer@);
        let ghost alle = types::posisjoner(krypto@);
        let mut ut: Vec<Position> = aksjer;
        let mut i: usize = 0;
        assert(alle.take(0) =~= Seq::empty());
        assert(types::posisjoner(ut@) =~= forst + omregnede(alle.take(0), kurs as int)->0);
        while i < krypto.len()
            invariant
                i <= krypto@.len(),
                alle == types::posisjoner(krypto@),
                omregnede(alle.take(i as int), kurs as int) is Some,
                types::posisjoner(ut@) == forst + omregnede(alle.take(i as int), kurs as int)->0,
                kurs == self.kurs(*kurser),
                forst == types::posisjoner(aksjer@),
            decreases krypto.len() - i,
        {
            let p: &Position = &krypto[i];
            proof {
                assert(alle.take(i + 1).drop_last() =~= alle.take(i as int));
                assert(alle.take(i + 1).last() == p@);
            }
            match (omregn(p.avg_price, kurs), omregn(p.last, kurs)) {
                (Some(avg_price), Some(last)) => {
                    let ghost for_ = types::posisjoner(ut@);
                    let ny: Position = Position { symbol: copy_text(&p.symbol), qty: p.qty, avg_price, last };
                    assert(Some(ny@) =~= omregnet_posisjon(p@, kurs as int));
                    ut.push(ny);
                    assert(types::posisjoner(ut@) =~= for_.push(ny@));
                    assert(types::posisjoner(ut@) =~= forst + omregnede(alle.take(i + 1), kurs as int)->0);
                },
                _ => {
                    proof {
                        lemma_ingen(alle, kurs as int, i + 1);
                    }
                    return None;
                },
            }
            i += 1;
        }
        assert(alle.take(i as int) =~= alle);
        Some(ut)
    }

    /// The cash of both brokers in the currency of the account.
    pub fn cash(&self, aksjer: i128, krypto: i128, kurser: &Tabell<i64>) -> (r: Option<i128>)
        requires
            kurser.ordnet(),
        ensures
            r is Some == samlede_kontanter(aksjer as int, krypto as int, self.kurs(*kurser)) is Some,
            r matches Some(s) ==> samlede_kontanter(aksjer as int, krypto as int, self.kurs(*kurser)) == Some(
                s as int,
            ),
    {
        let kurs: i64 = self.crypto_rate(kurser);
        match krypto.checked_mul(kurs as i128) {
            Some(p) => if p == i128::MIN {
                None
            } else {
                let d: i128 = belop::del(p, 100_000_000);
                aksjer.checked_add(d)
            },
            None => None,
        }
    }

    /// The accounts for the screen: the name, the cash and the currency of
    /// each.
    pub fn accounts(&self, aksjenavn: &str, aksjer: i128, kryptonavn: &str, krypto: i128) -> (r: Vec<
        (String, i128, String),
    >)
        ensures
            r@.len() == 2,
            r@[0].0@ == aksjenavn@ + " (aksjer)"@,
            r@[0].1 == aksjer,
            r@[0].2@ == "kr"@,
            r@[1].0@ == kryptonavn@ + " (krypto)"@,
            r@[1].1 == krypto,
            r@[1].2@ == (if self.crypto_currency@.len() == 0 {
                "kr"@
            } else {
                self.crypto_currency@
            }),
    {
        let valuta: String = if self.crypto_currency.as_str().unicode_len() == 0 {
            "kr".to_owned()
        } else {
            copy_text(&self.crypto_currency)
        };
        let mut ut: Vec<(String, i128, String)> = Vec::new();
        ut.push((two(aksjenavn, " (aksjer)"), aksjer, "kr".to_owned()));
        ut.push((two(kryptonavn, " (krypto)"), krypto, valuta));
        ut
    }
}

proof fn lemma_ingen(l: Seq<PosisjonSyn>, kurs: int, n: int)
    requires
        0 <= n <= l.len(),
        omregnede(l.take(n), kurs) is None,
    ensures
        omregnede(l, kurs) is None,
    decreases l.len() - n,
{
    if n < l.len() {
        assert(l.take(n + 1).drop_last() =~= l.take(n));
        lemma_ingen(l, kurs, n + 1);
    } else {
        assert(l.take(n) =~= l);
    }
}

/// Converting changes prices, never how many are held or of what.
pub proof fn law_antall_omregnes_ikke(l: Seq<PosisjonSyn>, kurs: int)
    ensures
        omregnede(l, kurs) matches Some(k) ==> k.len() == l.len() && (forall|i: int|
            0 <= i < l.len() ==> (#[trigger] k[i]).qty == l[i].qty && k[i].symbol == l[i].symbol),
    decreases l.len(),
{
    if l.len() > 0 {
        law_antall_omregnes_ikke(l.drop_last(), kurs);
    }
}

/// What an amount in the other currency is worth: the amount times the rate,
/// rounded toward nothing.
pub proof fn law_omregnet(v: int, kurs: int, r: int)
    requires
        omregnet(v, kurs) == Some(r),
    ensures
        v * kurs >= 0 ==> r * 100_000_000 <= v * kurs < (r + 1) * 100_000_000,
        v * kurs <= 0 ==> (r - 1) * 100_000_000 < v * kurs <= r * 100_000_000,
        kurs == 100_000_000 ==> r == v,
{
    belop::law_kvotient(v * kurs, 100_000_000);
}

/// The cash of two brokers is that of the one and, at the rate of the day,
/// that of the other.
pub proof fn law_samlede_kontanter(aksjer: int, krypto: int, kurs: int, sum: int)
    requires
        samlede_kontanter(aksjer, krypto, kurs) == Some(sum),
    ensures
        krypto * kurs >= 0 ==> (sum - aksjer) * 100_000_000 <= krypto * kurs < (sum - aksjer + 1) * 100_000_000,
        krypto * kurs <= 0 ==> (sum - aksjer - 1) * 100_000_000 < krypto * kurs <= (sum - aksjer) * 100_000_000,
        kurs == 100_000_000 ==> sum == aksjer + krypto,
{
    belop::law_kvotient(krypto * kurs, 100_000_000);
}

/// Each holding keeps its place, and both of its prices are converted at the
/// rate.
pub proof fn law_prisene_omregnes(l: Seq<PosisjonSyn>, kurs: int, i: int)
    requires
        omregnede(l, kurs) is Some,
        0 <= i < l.len(),
        l[i].avg_price >= 0,
        l[i].last >= 0,
        kurs >= 0,
    ensures
        omregnede(l, kurs)->0.len() == l.len(),
        omregnede(l, kurs)->0[i].avg_price * 100_000_000 <= l[i].avg_price * kurs < (omregnede(
            l,
            kurs,
        )->0[i].avg_price + 1) * 100_000_000,
        omregnede(l, kurs)->0[i].last * 100_000_000 <= l[i].last * kurs < (omregnede(l, kurs)->0[i].last + 1)
            * 100_000_000,
    decreases l.len(),
{
    law_antall_omregnes_ikke(l, kurs);
    law_antall_omregnes_ikke(l.drop_last(), kurs);
    if i < l.len() - 1 {
        law_prisene_omregnes(l.drop_last(), kurs, i);
        assert(omregnede(l, kurs)->0[i] == omregnede(l.drop_last(), kurs)->0[i]);
    } else {
        let p = l.last();
        assert(p.avg_price * kurs >= 0 && p.last * kurs >= 0) by (nonlinear_arith)
            requires
                p.avg_price >= 0,
                p.last >= 0,
                kurs >= 0,
        ;
        law_omregnet(p.avg_price as int, kurs, omregnet(p.avg_price as int, kurs)->0);
        law_omregnet(p.last as int, kurs, omregnet(p.last as int, kurs)->0);
    }
}

/// Nothing is told where both brokers cancelled; a broker that did not is
/// told of with its reason, and none hides the other.
pub proof fn law_begge_feil_fortelles(a: Option<Seq<char>>, b: Option<Seq<char>>)
    ensures
        kansellering(a, b) is None <==> a is None && b is None,
        a matches Some(e) ==> e.is_suffix_of(kansellering(a, b)->0),
        b matches Some(e) ==> (exists|k: int|
            0 <= k && k + e.len() <= kansellering(a, b)->0.len() && #[trigger] kansellering(a, b)->0.subrange(
                k,
                k + e.len(),
            ) == e),
{
    match b {
        Some(e2) => match a {
            Some(e1) => {
                let t = kansellering(a, b)->0;
                let k = "kryptomegleren feilet også: "@.len() as int;
                assert(t.subrange(k, k + e2.len()) =~= e2);
            },
            None => {
                let t = kansellering(a, b)->0;
                let k = "kryptomegleren: "@.len() as int;
                assert(t.subrange(k, k + e2.len()) =~= e2);
            },
        },
        None => {},
    }
}

}
