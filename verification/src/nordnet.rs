//! The portfolio at Nordnet, which is only read.
use vstd::prelude::*;

use crate::json;
use crate::json::{Json, JsonView};
use crate::number_text;
use crate::text;
use crate::text::{push_all, push_text, string_of};
use crate::types::ExternalPosition;

verus! {

/// The number of an account.
pub open spec fn kontonummer(v: JsonView) -> Option<int> {
    match v.felt("accid"@) {
        Some(a) => a.som_i64(),
        None => None,
    }
}

pub open spec fn kontonumre(l: Seq<JsonView>) -> Seq<int>
    decreases l.len(),
{
    if l.len() == 0 {
        Seq::empty()
    } else {
        match kontonummer(l.last()) {
            Some(n) => kontonumre(l.drop_last()).push(n),
            None => kontonumre(l.drop_last()),
        }
    }
}

/// The path of the positions of an account.
pub open spec fn posisjonssti(n: int) -> Seq<char> {
    "/accounts/"@ + number_text::signed_decimal(n) + "/positions"@
}

/// The paths of the positions of the accounts that an answer tells of.
pub fn kontostier(v: &Json) -> (r: Vec<String>)
    ensures
        text::views(r@) == kontonumre(v@.elementer()).map_values(|n: int| posisjonssti(n)),
{
    let l: &[Json] = v.elementer();
    let ghost alle = v@.elementer();
    let mut ut: Vec<String> = Vec::new();
    let mut i: usize = 0;
    assert(alle.take(0) =~= Seq::empty());
    assert(text::views(ut@) =~= kontonumre(alle.take(0)).map_values(|n: int| posisjonssti(n)));
    while i < l.len()
        invariant
            i <= l@.len(),
            alle == json::syner(l@),
            text::views(ut@) == kontonumre(alle.take(i as int)).map_values(|n: int| posisjonssti(n)),
        decreases l.len() - i,
    {
        proof {
            assert(alle.take(i + 1).drop_last() =~= alle.take(i as int));
            assert(alle.take(i + 1).last() == l@[i as int]@);
        }
        let ghost for_ = text::views(ut@);
        if let Some(a) = l[i].felt("accid") {
            if let Some(n) = a.som_i64() {
                let mut sti: Vec<char> = Vec::new();
                push_text(&mut sti, "/accounts/");
                let t: Vec<char> = number_text::write_signed(n as i128);
                push_all(&mut sti, t.as_slice());
                push_text(&mut sti, "/positions");
                assert(sti@ =~= posisjonssti(n as int));
                ut.push(string_of(sti.as_slice()));
                assert(text::views(ut@) =~= for_.push(posisjonssti(n as int)));
                assert(text::views(ut@) =~= kontonumre(alle.take(i + 1)).map_values(|n: int| posisjonssti(n)));
            }
        }
        i += 1;
    }
    assert(alle.take(i as int) =~= alle);
    ut
}

#[verifier::ext_equal]
pub struct EksternSyn {
    pub symbol: Seq<char>,
    pub name: Seq<char>,
    pub qty: int,
    pub market_value: int,
}

impl View for ExternalPosition {
    type V = EksternSyn;

    open spec fn view(&self) -> EksternSyn {
        EksternSyn {
            symbol: self.symbol@,
            name: self.name@,
            qty: self.qty as int,
            market_value: self.market_value as int,
        }
    }
}

pub open spec fn belop_i(v: Option<JsonView>) -> int {
    match v {
        Some(x) => match x.som_belop() {
            Some(b) => b,
            None => 0,
        },
        None => 0,
    }
}

/// What is reached by two names, one after the other.
pub open spec fn under(v: JsonView, a: Seq<char>, b: Seq<char>) -> Option<JsonView> {
    match v.felt(a) {
        Some(x) => x.felt(b),
        None => None,
    }
}

/// The position that an entry tells of. The names of its fields vary, so that
/// each is looked for under both.
pub open spec fn posisjon_av(p: JsonView) -> EksternSyn {
    let instrument = match p.felt("instrument"@) {
        Some(i) => i,
        None => JsonView::Null,
    };
    let symbol = match instrument.felt_tekst("symbol"@) {
        Some(s) => s,
        None => "?"@,
    };
    EksternSyn {
        symbol,
        name: match instrument.felt_tekst("name"@) {
            Some(s) => s,
            None => symbol,
        },
        qty: belop_i(
            match p.felt("qty"@) {
                Some(q) => Some(q),
                None => p.felt("quantity"@),
            },
        ),
        market_value: belop_i(
            match under(p, "market_value_acc"@, "value"@) {
                Some(q) => Some(q),
                None => under(p, "market_value"@, "value"@),
            },
        ),
    }
}

fn les_belop(v: Option<&Json>) -> (r: i64)
    ensures
        r == belop_i(json::syn(v)),
{
    match v {
        Some(x) => match x.som_belop() {
            Some(b) => b,
            None => 0,
        },
        None => 0,
    }
}

fn les_under<'a>(v: &'a Json, a: &str, b: &str) -> (r: Option<&'a Json>)
    ensures
        json::syn(r) == under(v@, a@, b@),
{
    match v.felt(a) {
        Some(x) => x.felt(b),
        None => None,
    }
}

pub fn parse_position(pos: &Json) -> (r: ExternalPosition)
    ensures
        r@ == posisjon_av(pos@),
{
    let tom: Json = Json::Null;
    let instrument: &Json = match pos.felt("instrument") {
        Some(i) => i,
        None => &tom,
    };
    let symbol: &str = match instrument.felt_tekst("symbol") {
        Some(s) => s,
        None => "?",
    };
    let name: &str = match instrument.felt_tekst("name") {
        Some(s) => s,
        None => symbol,
    };
    let antall: Option<&Json> = match pos.felt("qty") {
        Some(q) => Some(q),
        None => pos.felt("quantity"),
    };
    let verdi: Option<&Json> = match les_under(pos, "market_value_acc", "value") {
        Some(q) => Some(q),
        None => les_under(pos, "market_value", "value"),
    };
    let ut: ExternalPosition = ExternalPosition {
        symbol: symbol.to_owned(),
        name: name.to_owned(),
        qty: les_belop(antall),
        market_value: les_belop(verdi),
    };
    assert(ut@ =~= posisjon_av(pos@));
    ut
}

/// The body of a login.
pub open spec fn innlogging(bruker: Seq<char>, passord: Seq<char>) -> JsonView {
    JsonView::Obj(seq![("username"@, JsonView::Str(bruker)), ("password"@, JsonView::Str(passord))])
}

pub fn innlogging_kropp(bruker: &str, passord: &str) -> (r: String)
    ensures
        r@ == json::json_kompakt(json::lagt(innlogging(bruker@, passord@))),
{
    let l: Vec<(String, Json)> = vec![
        json::felt_av("username", json::tekst(bruker)),
        json::felt_av("password", json::tekst(passord)),
    ];
    assert(json::par(l@) =~= innlogging(bruker@, passord@)->Obj_0);
    json::skriv(&json::objekt(l))
}

/// The session with the service: whether one is logged in.
#[derive(Debug, Clone, Copy, PartialEq, Eq, Structural)]
pub struct Okt {
    pub logged_in: bool,
    /// Whether a login has been tried again already in this round.
    pub gjentatt: bool,
}

/// What to do next in a round.
#[derive(Debug, Clone, Copy, PartialEq, Eq, Structural)]
pub enum Neste {
    LoggInn,
    Hent,
    GiOpp,
}

impl Okt {
    pub fn ny() -> (r: Okt)
        ensures
            !r.logged_in,
            !r.gjentatt,
    {
        Okt { logged_in: false, gjentatt: false }
    }

    /// A round begins: log in where that is needed, else fetch.
    pub fn begynn(&mut self) -> (r: Neste)
        ensures
            final(self).logged_in == old(self).logged_in,
            !final(self).gjentatt,
            r == (if old(self).logged_in {
                Neste::Hent
            } else {
                Neste::LoggInn
            }),
    {
        self.gjentatt = false;
        if self.logged_in {
            Neste::Hent
        } else {
            Neste::LoggInn
        }
    }

    /// After a login: fetch where it succeeded.
    pub fn innlogget(&mut self, ok: bool) -> (r: Neste)
        ensures
            final(self).logged_in == ok,
            final(self).gjentatt == old(self).gjentatt,
            r == (if ok {
                Neste::Hent
            } else {
                Neste::GiOpp
            }),
    {
        self.logged_in = ok;
        if ok {
            Neste::Hent
        } else {
            Neste::GiOpp
        }
    }

    /// After a fetch that failed: the session may have run out, so that one
    /// more login is tried, once.
    pub fn feilet(&mut self) -> (r: Neste)
        ensures
            !old(self).gjentatt ==> r == Neste::LoggInn && !final(self).logged_in && final(self).gjentatt,
            old(self).gjentatt ==> r == Neste::GiOpp && *final(self) == *old(self),
    {
        if self.gjentatt {
            Neste::GiOpp
        } else {
            self.gjentatt = true;
            self.logged_in = false;
            Neste::LoggInn
        }
    }
}

/// Every account that has a number is asked for its positions.
pub proof fn law_alle_kontoer(l: Seq<JsonView>, n: int)
    ensures
        kontonumre(l).contains(n) <==> (exists|i: int| 0 <= i < l.len() && kontonummer(#[trigger] l[i]) == Some(n)),
    decreases l.len(),
{
    if l.len() > 0 {
        let d = l.drop_last();
        let a = kontonumre(d);
        law_alle_kontoer(d, n);
        if exists|i: int| 0 <= i < d.len() && kontonummer(#[trigger] d[i]) == Some(n) {
            let i = choose|i: int| 0 <= i < d.len() && kontonummer(#[trigger] d[i]) == Some(n);
            assert(kontonummer(l[i]) == Some(n));
        }
        if exists|i: int| 0 <= i < l.len() && kontonummer(#[trigger] l[i]) == Some(n) {
            let i = choose|i: int| 0 <= i < l.len() && kontonummer(#[trigger] l[i]) == Some(n);
            if i < d.len() {
                assert(kontonummer(d[i]) == Some(n));
            }
        }
        assert(l[l.len() - 1] == l.last());
        match kontonummer(l.last()) {
            Some(x) => {
                if a.contains(n) {
                    let k = choose|k: int| 0 <= k < a.len() && a[k] == n;
                    assert(a.push(x)[k] == n);
                }
                if x == n {
                    assert(a.push(x)[a.len() as int] == n);
                }
                if a.push(x).contains(n) {
                    let k = choose|k: int| 0 <= k < a.len() + 1 && a.push(x)[k] == n;
                    if k < a.len() {
                        assert(a[k] == n);
                    }
                }
            },
            None => {},
        }
    }
}

/// A position has the quantity and the value in the currency of the account
/// that the entry gives.
pub proof fn law_ekstern_posisjon(p: JsonView, q: int, v: int)
    requires
        p.felt_belop("qty"@) == Some(q),
        p.felt("market_value_acc"@) is Some,
        p.felt("market_value_acc"@)->0.felt_belop("value"@) == Some(v),
    ensures
        posisjon_av(p).qty == q,
        posisjon_av(p).market_value == v,
{
}

}
