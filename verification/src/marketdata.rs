//! Prices from the open services: how their answers are read, and when an
//! exchange is open.
use vstd::prelude::*;

use chrono::Datelike;
use chrono::Timelike;

use crate::belop;
use crate::json;
use crate::json::{Json, JsonView};
use crate::market::Snapshot;
use crate::order;
use crate::state::NewsItem;
use crate::text;
use crate::text::{chars_of, copy_text, same, slice, string_of, three, two};
use crate::tipping::valg;
use crate::types;
use crate::types::{Candle, Quote};

verus! {

// ---------------------------------------------------------------------------
// Asking
// ---------------------------------------------------------------------------

/// The least number of milliseconds between two requests.
pub const MELLOMROM: u64 = 250;

/// How long to wait before a request, so many milliseconds after the last.
pub fn ventetid(siden: u64) -> (r: u64)
    ensures
        r == (if siden < MELLOMROM {
            (MELLOMROM - siden) as u64
        } else {
            0
        }),
{
    if siden < MELLOMROM {
        MELLOMROM - siden
    } else {
        0
    }
}

/// Whether an answer is tried once more: too many requests, or an error of the
/// server.
pub fn prov_igjen(status: u16) -> (r: bool)
    ensures
        r == (status == 429 || 500 <= status <= 599),
{
    status == 429 || (500 <= status && status <= 599)
}

/// The address of the prices of a symbol.
pub fn chart_url(symbol: &str, range: &str, interval: &str) -> (r: String)
    ensures
        r@ == "https://query1.finance.yahoo.com/v8/finance/chart/"@ + symbol@ + ("?range="@ + range@
            + ("&interval="@ + interval@)),
{
    let b: String = two("&interval=", interval);
    let a: String = three("?range=", range, b.as_str());
    three("https://query1.finance.yahoo.com/v8/finance/chart/", symbol, a.as_str())
}

/// What an answer with prices holds of its symbol, or what is wrong with it.
pub open spec fn chart_av(v: JsonView, symbol: Seq<char>) -> Result<JsonView, Seq<char>> {
    let chart = v.felt("chart"@);
    let feil = match chart {
        Some(c) => c.felt("error"@),
        None => None,
    };
    if feil is Some && feil != Some(JsonView::Null) {
        Err("Yahoo-feil for "@ + symbol + (": "@ + json::json_kompakt(json::lagt(feil->0))))
    } else {
        let res = match chart {
            Some(c) => match c.felt("result"@) {
                Some(l) => l.ledd_null(),
                None => None,
            },
            None => None,
        };
        match res {
            Some(r) => Ok(r),
            None => Err("tomt Yahoo-svar for "@ + symbol),
        }
    }
}

/// What an answer with prices holds of its symbol.
pub fn chart<'a>(v: &'a Json, symbol: &str) -> (r: Result<&'a Json, String>)
    ensures
        (match chart_av(v@, symbol@) {
            Ok(x) => r is Ok && r->Ok_0@ == x,
            Err(e) => r is Err && r->Err_0@ == e,
        }),
{
    let chart: Option<&Json> = v.felt("chart");
    let feil: Option<&Json> = match chart {
        Some(c) => c.felt("error"),
        None => None,
    };
    if let Some(e) = feil {
        match e {
            Json::Null => {},
            _ => {
                let s: String = json::skriv(e);
                let hale: String = two(": ", s.as_str());
                return Err(three("Yahoo-feil for ", symbol, hale.as_str()));
            },
        }
    }
    let res: Option<&Json> = match chart {
        Some(c) => match c.felt("result") {
            Some(l) => l.ledd_null(),
            None => None,
        },
        None => None,
    };
    match res {
        Some(r) => Ok(r),
        None => Err(two("tomt Yahoo-svar for ", symbol)),
    }
}

// ---------------------------------------------------------------------------
// Quotes
// ---------------------------------------------------------------------------

/// A quote, seen from outside.
#[verifier::ext_equal]
pub struct KursSyn {
    pub symbol: Seq<char>,
    pub last: int,
    pub prev_close: int,
    pub currency: Seq<char>,
    pub ts: int,
}

impl View for Quote {
    type V = KursSyn;

    open spec fn view(&self) -> KursSyn {
        KursSyn {
            symbol: self.symbol@,
            last: self.last as int,
            prev_close: self.prev_close as int,
            currency: self.currency@,
            ts: self.ts as int,
        }
    }
}

/// The quote that an answer tells of: the price must be there; the last close
/// is taken to be the price where it is missing.
pub open spec fn kurs_av(symbol: Seq<char>, v: JsonView, naa: int) -> Result<KursSyn, Seq<char>> {
    match v.felt("meta"@) {
        None => Err("mangler meta for "@ + symbol),
        Some(meta) => match meta.felt_belop("regularMarketPrice"@) {
            None => Err("mangler kurs for "@ + symbol),
            Some(last) => Ok(
                KursSyn {
                    symbol,
                    last,
                    prev_close: match (match meta.felt("chartPreviousClose"@) {
                        Some(p) => Some(p),
                        None => meta.felt("previousClose"@),
                    }) {
                        Some(p) => match p.som_belop() {
                            Some(b) => b,
                            None => last,
                        },
                        None => last,
                    },
                    currency: match meta.felt_tekst("currency"@) {
                        Some(s) => s,
                        None => ""@,
                    },
                    ts: naa,
                },
            ),
        },
    }
}

pub fn parse_quote(symbol: &str, result: &Json, naa: i64) -> (r: Result<Quote, String>)
    ensures
        (match kurs_av(symbol@, result@, naa as int) {
            Ok(x) => r is Ok && r->Ok_0@ == x,
            Err(e) => r is Err && r->Err_0@ == e,
        }),
{
    let meta: &Json = match result.felt("meta") {
        Some(m) => m,
        None => return Err(two("mangler meta for ", symbol)),
    };
    let last: i64 = match meta.felt_belop("regularMarketPrice") {
        Some(l) => l,
        None => return Err(two("mangler kurs for ", symbol)),
    };
    let slutt: Option<&Json> = match meta.felt("chartPreviousClose") {
        Some(p) => Some(p),
        None => meta.felt("previousClose"),
    };
    let prev_close: i64 = match slutt {
        Some(p) => match p.som_belop() {
            Some(b) => b,
            None => last,
        },
        None => last,
    };
    let currency: String = match meta.felt_tekst("currency") {
        Some(s) => s.to_owned(),
        None => "".to_owned(),
    };
    let q: Quote = Quote { symbol: symbol.to_owned(), last, prev_close, currency, ts: naa };
    assert(Ok::<KursSyn, Seq<char>>(q@) =~= kurs_av(symbol@, result@, naa as int));
    Ok(q)
}

/// The two currencies of a pair, split at the first hyphen.
pub open spec fn par_av(symbol: Seq<char>) -> Option<(Seq<char>, Seq<char>)> {
    match text::first_char(symbol, '-', 0) {
        Some(i) => Some((symbol.take(i), symbol.skip(i + 1))),
        None => None,
    }
}

/// The name of a pair at Kraken, where Bitcoin is XBT.
pub open spec fn kraken_par(base: Seq<char>, quote: Seq<char>) -> Seq<char> {
    (if base == "BTC"@ {
        "XBT"@
    } else {
        base
    }) + quote
}

/// The name of a pair at Kraken, and the currency that it is quoted in.
pub fn kraken_sporring(symbol: &str) -> (r: Option<(String, String)>)
    ensures
        (match par_av(symbol@) {
            Some((b, q)) => r is Some && (r->0).0@ == kraken_par(b, q) && (r->0).1@ == q,
            None => r is None,
        }),
{
    let cs: Vec<char> = chars_of(symbol);
    let n: usize = cs.len();
    match text::find_char(cs.as_slice(), '-', 0) {
        None => None,
        Some(i) => {
            proof {
                text::lemma_first_char(cs@, '-', 0);
            }
            let b: Vec<char> = slice(cs.as_slice(), 0, i);
            let q: Vec<char> = slice(cs.as_slice(), i + 1, n);
            assert(b@ =~= cs@.take(i as int));
            assert(q@ =~= cs@.skip(i + 1));
            let base: String = string_of(b.as_slice());
            let quote: String = string_of(q.as_slice());
            let navn: String = if same(base.as_str(), "BTC") {
                two("XBT", quote.as_str())
            } else {
                two(base.as_str(), quote.as_str())
            };
            Some((navn, quote))
        },
    }
}

/// What went wrong, as a list of debug forms.
pub open spec fn feilliste(l: Seq<JsonView>) -> Seq<char> {
    "["@ + text::joined(l.map_values(|v: JsonView| json::json_feilsok(json::lagt(v))), ", "@) + "]"@
}

fn skriv_feilliste(l: &[Json]) -> (r: String)
    ensures
        r@ == feilliste(json::syner(l@)),
{
    let mut deler: Vec<String> = Vec::new();
    let mut i: usize = 0;
    while i < l.len()
        invariant
            i <= l@.len(),
            deler@.len() == i,
            forall|k: int| 0 <= k < i ==> (#[trigger] deler@[k])@ == json::json_feilsok(json::lagt(l@[k]@)),
        decreases l.len() - i,
    {
        deler.push(json::skriv_feilsok(&l[i]));
        i += 1;
    }
    assert(text::views(deler@) =~= json::syner(l@).map_values(|v: JsonView| json::json_feilsok(json::lagt(v))));
    let t: String = text::join_text(&deler, ", ");
    three("[", t.as_str(), "]")
}

/// The quote of a pair that Kraken tells of: the last price, which must be
/// more than nothing, and the opening price of the day.
pub open spec fn kraken_kurs(symbol: Seq<char>, quote: Seq<char>, v: JsonView, naa: int) -> Result<KursSyn, Seq<char>> {
    if v.felt_liste("error"@).len() > 0 {
        Err("Kraken: "@ + feilliste(v.felt_liste("error"@)))
    } else {
        match v.felt("result"@) {
            Some(JsonView::Obj(o)) => if o.len() == 0 {
                Err("tomt svar fra Kraken"@)
            } else {
                let t = o[0].1;
                let siste = match t.felt("c"@) {
                    Some(c) => match c.ledd_null() {
                        Some(JsonView::Str(s)) => belop::belop_av(s),
                        _ => None,
                    },
                    None => None,
                };
                match siste {
                    None => Err("mangler siste kurs for "@ + symbol),
                    Some(last) => if last <= 0 {
                        Err("ugyldig kurs for "@ + symbol)
                    } else {
                        Ok(
                            KursSyn {
                                symbol,
                                last,
                                prev_close: match t.felt_tekst("o"@) {
                                    Some(s) => match belop::belop_av(s) {
                                        Some(b) => b,
                                        None => last,
                                    },
                                    None => last,
                                },
                                currency: quote,
                                ts: naa,
                            },
                        )
                    },
                }
            },
            _ => Err("uventet svar fra Kraken"@),
        }
    }
}

pub fn parse_kraken_quote(symbol: &str, quote_cur: &str, v: &Json, naa: i64) -> (r: Result<Quote, String>)
    ensures
        (match kraken_kurs(symbol@, quote_cur@, v@, naa as int) {
            Ok(x) => r is Ok && r->Ok_0@ == x,
            Err(e) => r is Err && r->Err_0@ == e,
        }),
{
    let feil: &[Json] = v.felt_liste("error");
    assert(json::syner(feil@).len() == feil@.len());
    if feil.len() > 0 {
        let s: String = skriv_feilliste(feil);
        return Err(two("Kraken: ", s.as_str()));
    }
    let res: &Json = match v.felt("result") {
        Some(r) => r,
        None => return Err("uventet svar fra Kraken".to_owned()),
    };
    let t: &Json = match res {
        Json::Obj(o) => {
            assert(res@->Obj_0.len() == o@.len());
            if o.len() == 0 {
                return Err("tomt svar fra Kraken".to_owned());
            }
            assert(res@->Obj_0[0] == (o@[0].0@, o@[0].1@));
            &o[0].1
        },
        _ => return Err("uventet svar fra Kraken".to_owned()),
    };
    let siste: Option<i64> = match t.felt("c") {
        Some(c) => match c.ledd_null() {
            Some(x) => match x.som_tekst() {
                Some(s) => belop::fra_tekst(s),
                None => None,
            },
            None => None,
        },
        None => None,
    };
    let last: i64 = match siste {
        Some(l) => l,
        None => return Err(two("mangler siste kurs for ", symbol)),
    };
    if last <= 0 {
        return Err(two("ugyldig kurs for ", symbol));
    }
    let open: i64 = match t.felt_tekst("o") {
        Some(s) => match belop::fra_tekst(s) {
            Some(b) => b,
            None => last,
        },
        None => last,
    };
    let q: Quote = Quote {
        symbol: symbol.to_owned(),
        last,
        prev_close: open,
        currency: quote_cur.to_owned(),
        ts: naa,
    };
    assert(Ok::<KursSyn, Seq<char>>(q@) =~= kraken_kurs(symbol@, quote_cur@, v@, naa as int));
    Ok(q)
}

/// The first price of a list that Kraken gives under a name.
pub open spec fn kraken_pris(t: JsonView, navn: Seq<char>) -> Option<int> {
    match t.felt(navn) {
        Some(c) => match c.ledd_null() {
            Some(JsonView::Str(s)) => belop::belop_av(s),
            _ => None,
        },
        None => None,
    }
}

/// How far the best offer is over the best bid, in per cent of the price midway
/// between them; none where either is missing or is nothing.
pub open spec fn kraken_spread(v: JsonView) -> Option<int> {
    if v.felt_liste("error"@).len() > 0 {
        None
    } else {
        match v.felt("result"@) {
            Some(JsonView::Obj(o)) => if o.len() == 0 {
                None
            } else {
                match (kraken_pris(o[0].1, "a"@), kraken_pris(o[0].1, "b"@)) {
                    (Some(a), Some(b)) => if a > 0 && b > 0 {
                        Some(belop::kvotient((a - b) * 20_000_000_000, a + b))
                    } else {
                        None
                    },
                    _ => None,
                }
            },
            _ => None,
        }
    }
}

fn les_kraken_pris(t: &Json, navn: &str) -> (r: Option<i64>)
    ensures
        (match kraken_pris(t@, navn@) {
            Some(p) => r is Some && r->0 == p,
            None => r is None,
        }),
{
    match t.felt(navn) {
        Some(c) => match c.ledd_null() {
            Some(x) => match x.som_tekst() {
                Some(s) => belop::fra_tekst(s),
                None => None,
            },
            None => None,
        },
        None => None,
    }
}

/// The gap between offer and bid that Kraken tells of, in per cent.
pub fn parse_kraken_spread(v: &Json) -> (r: Option<i64>)
    ensures
        (match kraken_spread(v@) {
            Some(p) => r is Some && r->0 == p,
            None => r is None,
        }),
{
    let feil: &[Json] = v.felt_liste("error");
    assert(json::syner(feil@).len() == feil@.len());
    if feil.len() > 0 {
        return None;
    }
    let res: &Json = match v.felt("result") {
        Some(r) => r,
        None => return None,
    };
    match res {
        Json::Obj(o) => {
            assert(res@->Obj_0.len() == o@.len());
            if o.len() == 0 {
                return None;
            }
            assert(res@->Obj_0[0] == (o@[0].0@, o@[0].1@));
            match (les_kraken_pris(&o[0].1, "a"), les_kraken_pris(&o[0].1, "b")) {
                (Some(a), Some(b)) => {
                    if a <= 0 || b <= 0 {
                        return None;
                    }
                    let over: i128 = (a as i128 - b as i128) * 20_000_000_000;
                    let sum: i128 = a as i128 + b as i128;
                    proof {
                        lemma_spread(a as int, b as int);
                    }
                    let p: i128 = belop::del(over, sum);
                    Some(p as i64)
                },
                _ => None,
            }
        },
        _ => None,
    }
}

proof fn lemma_spread(a: int, b: int)
    requires
        a > 0,
        b > 0,
    ensures
        -20_000_000_000 <= belop::kvotient((a - b) * 20_000_000_000, a + b) <= 20_000_000_000,
{
    let s = a + b;
    if a >= b {
        let x = (a - b) * 20_000_000_000;
        assert(0 <= x / s <= 20_000_000_000) by (nonlinear_arith)
            requires
                0 <= x <= s * 20_000_000_000,
                s > 0,
        ;
    } else {
        let x = (b - a) * 20_000_000_000;
        assert(-((a - b) * 20_000_000_000) == x);
        assert(0 <= x / s <= 20_000_000_000) by (nonlinear_arith)
            requires
                0 <= x <= s * 20_000_000_000,
                s > 0,
        ;
    }
}

/// A price of nothing or less never comes through from Kraken.
pub proof fn law_kraken_kurs_positiv(symbol: Seq<char>, quote: Seq<char>, v: JsonView, naa: int)
    ensures
        kraken_kurs(symbol, quote, v, naa) matches Ok(k) ==> k.last > 0,
{
}

// ---------------------------------------------------------------------------
// Daily prices
// ---------------------------------------------------------------------------

/// The amount at a position of a list.
pub open spec fn belop_ved(l: Seq<JsonView>, i: int) -> Option<int> {
    if 0 <= i < l.len() {
        l[i].som_belop()
    } else {
        None
    }
}

/// The prices at a position, where all of them are there.
pub open spec fn stolpe(
    tider: Seq<JsonView>,
    o: Seq<JsonView>,
    h: Seq<JsonView>,
    l: Seq<JsonView>,
    c: Seq<JsonView>,
    i: int,
) -> Option<Candle> {
    match (tider[i].som_i64(), belop_ved(o, i), belop_ved(h, i), belop_ved(l, i), belop_ved(c, i)) {
        (Some(ts), Some(o), Some(h), Some(l), Some(c)) => Some(
            Candle { ts: ts as i64, open: o as i64, high: h as i64, low: l as i64, close: c as i64 },
        ),
        _ => None,
    }
}

/// The prices at the first `n` positions; days without trade are left out.
pub open spec fn stolper(
    tider: Seq<JsonView>,
    o: Seq<JsonView>,
    h: Seq<JsonView>,
    l: Seq<JsonView>,
    c: Seq<JsonView>,
    n: nat,
) -> Seq<Candle>
    decreases n,
{
    if n == 0 {
        Seq::empty()
    } else {
        let for_ = stolper(tider, o, h, l, c, (n - 1) as nat);
        match stolpe(tider, o, h, l, c, n - 1) {
            Some(s) => for_.push(s),
            None => for_,
        }
    }
}

/// The series of that name, where it is a list.
pub open spec fn serie(v: JsonView, navn: Seq<char>) -> Option<Seq<JsonView>> {
    match v.felt(navn) {
        Some(JsonView::Arr(l)) => Some(l),
        _ => None,
    }
}

pub open spec fn historikk_av(symbol: Seq<char>, v: JsonView) -> Result<Seq<Candle>, Seq<char>> {
    match serie(v, "timestamp"@) {
        None => Err("mangler tidsstempler for "@ + symbol),
        Some(tider) => {
            let kurser = match v.felt("indicators"@) {
                Some(i) => match i.felt("quote"@) {
                    Some(q) => q.ledd_null(),
                    None => None,
                },
                None => None,
            };
            match kurser {
                None => Err("mangler historikk for "@ + symbol),
                Some(k) => match (serie(k, "open"@), serie(k, "high"@), serie(k, "low"@), serie(k, "close"@)) {
                    (Some(o), Some(h), Some(l), Some(c)) => Ok(stolper(tider, o, h, l, c, tider.len())),
                    _ => Err("mangler OHLC-serier for "@ + symbol),
                },
            }
        },
    }
}

fn les_serie<'a>(v: &'a Json, navn: &str) -> (r: Option<&'a Vec<Json>>)
    ensures
        (match serie(v@, navn@) {
            Some(l) => r is Some && json::syner(r->0@) == l,
            None => r is None,
        }),
{
    match v.felt(navn) {
        Some(x) => match x.liste() {
            Some(l) => {
                assert(json::syner(l@) =~= x@->Arr_0);
                Some(l)
            },
            None => None,
        },
        None => None,
    }
}

fn les_ved(l: &Vec<Json>, i: usize) -> (r: Option<i64>)
    ensures
        r is Some == belop_ved(json::syner(l@), i as int) is Some,
        r matches Some(v) ==> belop_ved(json::syner(l@), i as int) == Some(v as int),
{
    if i < l.len() {
        assert(json::syner(l@)[i as int] == l@[i as int]@);
        l[i].som_belop()
    } else {
        None
    }
}

/// The daily prices, the oldest first.
pub fn parse_history(symbol: &str, result: &Json) -> (r: Result<Vec<Candle>, String>)
    ensures
        (match historikk_av(symbol@, result@) {
            Ok(x) => r is Ok && r->Ok_0@ == x,
            Err(e) => r is Err && r->Err_0@ == e,
        }),
{
    let tider: &Vec<Json> = match les_serie(result, "timestamp") {
        Some(t) => t,
        None => return Err(two("mangler tidsstempler for ", symbol)),
    };
    let kurser: Option<&Json> = match result.felt("indicators") {
        Some(i) => match i.felt("quote") {
            Some(q) => q.ledd_null(),
            None => None,
        },
        None => None,
    };
    let k: &Json = match kurser {
        Some(k) => k,
        None => return Err(two("mangler historikk for ", symbol)),
    };
    match (les_serie(k, "open"), les_serie(k, "high"), les_serie(k, "low"), les_serie(k, "close")) {
        (Some(o), Some(h), Some(l), Some(c)) => {
            let ghost t = json::syner(tider@);
            let ghost sd = (json::syner(o@), json::syner(h@), json::syner(l@), json::syner(c@));
            let mut ut: Vec<Candle> = Vec::new();
            let mut i: usize = 0;
            while i < tider.len()
                invariant
                    i <= tider@.len(),
                    t == json::syner(tider@),
                    sd == (json::syner(o@), json::syner(h@), json::syner(l@), json::syner(c@)),
                    ut@ == stolper(t, sd.0, sd.1, sd.2, sd.3, i as nat),
                decreases tider.len() - i,
            {
                assert(t[i as int] == tider@[i as int]@);
                match (tider[i].som_i64(), les_ved(o, i), les_ved(h, i), les_ved(l, i), les_ved(c, i)) {
                    (Some(ts), Some(open), Some(high), Some(low), Some(close)) => {
                        ut.push(Candle { ts, open, high, low, close });
                    },
                    _ => {},
                }
                i += 1;
            }
            Ok(ut)
        },
        _ => Err(two("mangler OHLC-serier for ", symbol)),
    }
}

pub open spec fn oyeblikk_av(symbol: Seq<char>, v: JsonView) -> Result<(int, int, Seq<Candle>), Seq<char>> {
    match v.felt("meta"@) {
        None => Err("mangler meta for "@ + symbol),
        Some(meta) => match meta.felt_belop("regularMarketPrice"@) {
            None => Err("mangler kurs for "@ + symbol),
            Some(last) => match historikk_av(symbol, v) {
                Err(e) => Err(e),
                Ok(c) => Ok(
                    (
                        last,
                        match meta.felt_belop("regularMarketVolume"@) {
                            Some(b) => b,
                            None => 0,
                        },
                        c,
                    ),
                ),
            },
        },
    }
}

/// The price, the volume of the day and the daily prices of a symbol.
pub fn parse_snapshot(symbol: &str, result: &Json) -> (r: Result<Snapshot, String>)
    ensures
        (match oyeblikk_av(symbol@, result@) {
            Ok((last, volum, c)) => r is Ok && r->Ok_0.last == last && r->Ok_0.volume == volum && r->Ok_0.candles@ == c,
            Err(e) => r is Err && r->Err_0@ == e,
        }),
{
    let meta: &Json = match result.felt("meta") {
        Some(m) => m,
        None => return Err(two("mangler meta for ", symbol)),
    };
    let last: i64 = match meta.felt_belop("regularMarketPrice") {
        Some(l) => l,
        None => return Err(two("mangler kurs for ", symbol)),
    };
    let volume: i64 = match meta.felt_belop("regularMarketVolume") {
        Some(b) => b,
        None => 0,
    };
    match parse_history(symbol, result) {
        Ok(candles) => Ok(Snapshot { last, volume, candles }),
        Err(e) => Err(e),
    }
}

/// The amounts of the fields together.
pub open spec fn sum_utbytte(o: Seq<(Seq<char>, JsonView)>, n: nat) -> int
    decreases n,
{
    if n == 0 {
        0
    } else {
        sum_utbytte(o, (n - 1) as nat) + (match o[n - 1].1.felt_belop("amount"@) {
            Some(b) => b,
            None => 0,
        })
    }
}

pub open spec fn utbytte_av(v: JsonView) -> int {
    match v.felt("events"@) {
        Some(e) => match e.felt("dividends"@) {
            Some(JsonView::Obj(o)) => sum_utbytte(o, o.len()),
            _ => 0,
        },
        None => 0,
    }
}

/// The dividends together; 0 where there are none.
pub fn parse_dividends(result: &Json) -> (r: i128)
    ensures
        r == utbytte_av(result@),
{
    let d: &Json = match result.felt("events") {
        Some(e) => match e.felt("dividends") {
            Some(d) => d,
            None => return 0,
        },
        None => return 0,
    };
    match d {
        Json::Obj(o) => {
            let ghost alle = d@->Obj_0;
            let mut sum: i128 = 0;
            let n: usize = o.len();
            let mut i: usize = 0;
            while i < n
                invariant
                    i <= n,
                    n == o@.len(),
                    alle == d@->Obj_0,
                    *d == Json::Obj(*o),
                    alle.len() == o@.len(),
                    sum == sum_utbytte(alle, i as nat),
                    -0x8000_0000_0000_0000 * i <= sum <= 0x8000_0000_0000_0000 * i,
                decreases n - i,
            {
                assert(alle[i as int] == (o@[i as int].0@, o@[i as int].1@));
                if let Some(b) = o[i].1.felt_belop("amount") {
                    sum = sum + b as i128;
                }
                i += 1;
            }
            sum
        },
        _ => 0,
    }
}

// ---------------------------------------------------------------------------
// Searching
// ---------------------------------------------------------------------------

/// The address with a query of names and values.
pub uninterp spec fn url_med(base: Seq<char>, par: Seq<(Seq<char>, Seq<char>)>) -> Option<Seq<char>>;

pub open spec fn parsyn(l: Seq<(&str, &str)>) -> Seq<(Seq<char>, Seq<char>)> {
    Seq::new(l.len(), |i: int| (l[i].0@, l[i].1@))
}

pub open spec fn tekstsyn(o: Option<String>) -> Option<Seq<char>> {
    match o {
        Some(s) => Some(s@),
        None => None,
    }
}

/// `reqwest::Url::parse_with_params`: the address is a function of the base and
/// the names and values.
#[verifier::external_body]
fn lag_url(base: &str, par: &Vec<(&str, &str)>) -> (r: Option<String>)
    ensures
        tekstsyn(r) == url_med(base@, parsyn(par@)),
{
    match reqwest::Url::parse_with_params(base, par.iter()) {
        Ok(u) => Some(u.to_string()),
        Err(_) => None,
    }
}

/// The address of a search for `antall` instruments or so many news.
pub fn sok_url(query: &str, instrumenter: &str, nyheter: &str) -> (r: Option<String>)
    ensures
        tekstsyn(r) == url_med(
            "https://query1.finance.yahoo.com/v1/finance/search"@,
            seq![("q"@, query@), ("quotesCount"@, instrumenter@), ("newsCount"@, nyheter@)],
        ),
{
    let par: Vec<(&str, &str)> = vec![("q", query), ("quotesCount", instrumenter), ("newsCount", nyheter)];
    assert(parsyn(par@) =~= seq![("q"@, query@), ("quotesCount"@, instrumenter@), ("newsCount"@, nyheter@)]);
    lag_url("https://query1.finance.yahoo.com/v1/finance/search", &par)
}

/// Words that a search does better without.
pub open spec fn fyllord(s: Seq<char>) -> bool {
    let l = text::lowercase(s);
    l == "fond"@ || l == "fund"@ || l == "aksje"@ || l == "aksjer"@ || l == "etf"@
}

pub open spec fn uten_fyllord(l: Seq<Seq<char>>) -> Seq<Seq<char>>
    decreases l.len(),
{
    if l.len() == 0 {
        l
    } else if fyllord(l.last()) {
        uten_fyllord(l.drop_last())
    } else {
        uten_fyllord(l.drop_last()).push(l.last())
    }
}

/// What to search for when the first search found nothing: the query without
/// its filler words, unless nothing is left or nothing has changed.
pub open spec fn nytt_sok(query: Seq<char>) -> Option<Seq<char>> {
    let renset = text::joined(uten_fyllord(valg::ord_fra(query, 0)), " "@);
    if renset.len() > 0 && renset != query {
        Some(renset)
    } else {
        None
    }
}

pub fn sok_uten_fyllord(query: &str) -> (r: Option<String>)
    ensures
        tekstsyn(r) == nytt_sok(query@),
{
    let cs: Vec<char> = chars_of(query);
    let o: Vec<Vec<char>> = valg::ord_i(cs.as_slice());
    let ghost alle = valg::ord_fra(query@, 0);
    let mut ut: Vec<String> = Vec::new();
    let mut i: usize = 0;
    assert(alle.take(0) =~= Seq::empty());
    assert(text::views(ut@) =~= Seq::empty());
    while i < o.len()
        invariant
            i <= o@.len(),
            text::seqs(o@) == alle,
            text::views(ut@) == uten_fyllord(alle.take(i as int)),
        decreases o.len() - i,
    {
        proof {
            assert(alle.take(i + 1).drop_last() =~= alle.take(i as int));
            assert(alle.take(i + 1).last() == o@[i as int]@);
        }
        let ghost for_ = text::views(ut@);
        let w: String = string_of(o[i].as_slice());
        let l: String = text::to_lowercase(w.as_str());
        if !same(l.as_str(), "fond") && !same(l.as_str(), "fund") && !same(l.as_str(), "aksje") && !same(
            l.as_str(),
            "aksjer",
        ) && !same(l.as_str(), "etf") {
            ut.push(w);
            assert(text::views(ut@) =~= for_.push(w@));
        }
        i += 1;
    }
    assert(alle.take(i as int) =~= alle);
    let renset: String = text::join_text(&ut, " ");
    if renset.as_str().unicode_len() > 0 && !same(renset.as_str(), query) {
        Some(renset)
    } else {
        None
    }
}

/// The kind of an instrument, for those that are shown.
pub open spec fn kategori_av(kind: Seq<char>) -> Option<Seq<char>> {
    if kind == "EQUITY"@ {
        Some("Aksje"@)
    } else if kind == "ETF"@ || kind == "MUTUALFUND"@ {
        Some("Fond/ETF"@)
    } else if kind == "CRYPTOCURRENCY"@ {
        Some("Krypto"@)
    } else if kind == "INDEX"@ {
        Some("Indeks"@)
    } else {
        None
    }
}

pub fn kategori(kind: &str) -> (r: Option<&'static str>)
    ensures
        json::tekst_syn(r) == kategori_av(kind@),
{
    if same(kind, "EQUITY") {
        Some("Aksje")
    } else if same(kind, "ETF") || same(kind, "MUTUALFUND") {
        Some("Fond/ETF")
    } else if same(kind, "CRYPTOCURRENCY") {
        Some("Krypto")
    } else if same(kind, "INDEX") {
        Some("Indeks")
    } else {
        None
    }
}

pub open spec fn tekst_eller_tom(v: JsonView, navn: Seq<char>) -> Seq<char> {
    match v.felt_tekst(navn) {
        Some(s) => s,
        None => ""@,
    }
}

fn les_tekst<'a>(v: &'a Json, navn: &str) -> (r: &'a str)
    ensures
        r@ == tekst_eller_tom(v@, navn@),
{
    match v.felt_tekst(navn) {
        Some(s) => s,
        None => "",
    }
}

/// The symbol, the description and the kind of what a search found.
pub open spec fn treff(q: JsonView) -> Option<(Seq<char>, Seq<char>, Seq<char>)> {
    match (q.felt_tekst("symbol"@), kategori_av(tekst_eller_tom(q, "quoteType"@))) {
        (Some(symbol), Some(kategori)) => {
            let navn = match (match q.felt("shortname"@) {
                Some(v) => Some(v),
                None => q.felt("longname"@),
            }) {
                Some(JsonView::Str(s)) => s,
                _ => symbol,
            };
            Some((symbol, navn + " ("@ + (tekst_eller_tom(q, "exchDisp"@) + ")"@), kategori))
        },
        _ => None,
    }
}

pub open spec fn alle_treff(l: Seq<JsonView>) -> Seq<(Seq<char>, Seq<char>, Seq<char>)>
    decreases l.len(),
{
    if l.len() == 0 {
        Seq::empty()
    } else {
        match treff(l.last()) {
            Some(t) => alle_treff(l.drop_last()).push(t),
            None => alle_treff(l.drop_last()),
        }
    }
}

pub open spec fn treffsyn(l: Seq<(String, String, String)>) -> Seq<(Seq<char>, Seq<char>, Seq<char>)> {
    Seq::new(l.len(), |i: int| (l[i].0@, l[i].1@, l[i].2@))
}

fn les_treff(q: &Json) -> (r: Option<(String, String, String)>)
    ensures
        (match treff(q@) {
            Some(t) => r is Some && ((r->0).0@, (r->0).1@, (r->0).2@) == t,
            None => r is None,
        }),
{
    let symbol: &str = match q.felt_tekst("symbol") {
        Some(s) => s,
        None => return None,
    };
    let kat: &'static str = match kategori(les_tekst(q, "quoteType")) {
        Some(k) => k,
        None => return None,
    };
    let felt: Option<&Json> = match q.felt("shortname") {
        Some(v) => Some(v),
        None => q.felt("longname"),
    };
    let navn: &str = match felt {
        Some(v) => match v.som_tekst() {
            Some(s) => s,
            None => symbol,
        },
        None => symbol,
    };
    let hale: String = two(les_tekst(q, "exchDisp"), ")");
    Some((symbol.to_owned(), three(navn, " (", hale.as_str()), kat.to_owned()))
}

/// What a search found: symbol, description and kind.
pub fn tolk_sok(v: &Json) -> (r: Vec<(String, String, String)>)
    ensures
        treffsyn(r@) == alle_treff(v@.felt_liste("quotes"@)),
{
    let l: &[Json] = v.felt_liste("quotes");
    let ghost alle = v@.felt_liste("quotes"@);
    let mut ut: Vec<(String, String, String)> = Vec::new();
    let mut i: usize = 0;
    assert(alle.take(0) =~= Seq::empty());
    assert(treffsyn(ut@) =~= Seq::empty());
    while i < l.len()
        invariant
            i <= l@.len(),
            alle == json::syner(l@),
            treffsyn(ut@) == alle_treff(alle.take(i as int)),
        decreases l.len() - i,
    {
        proof {
            assert(alle.take(i + 1).drop_last() =~= alle.take(i as int));
            assert(alle.take(i + 1).last() == l@[i as int]@);
        }
        let ghost for_ = treffsyn(ut@);
        if let Some(t) = les_treff(&l[i]) {
            ut.push(t);
            assert(treffsyn(ut@) =~= for_.push((t.0@, t.1@, t.2@)));
        }
        i += 1;
    }
    assert(alle.take(i as int) =~= alle);
    ut
}

// ---------------------------------------------------------------------------
// News
// ---------------------------------------------------------------------------

#[verifier::ext_equal]
pub struct NyhetSyn {
    pub title: Seq<char>,
    pub publisher: Seq<char>,
    pub url: Seq<char>,
    pub ts: int,
}

impl View for NewsItem {
    type V = NyhetSyn;

    open spec fn view(&self) -> NyhetSyn {
        NyhetSyn { title: self.title@, publisher: self.publisher@, url: self.url@, ts: self.ts as int }
    }
}

pub open spec fn nyheter(l: Seq<NewsItem>) -> Seq<NyhetSyn> {
    Seq::new(l.len(), |i: int| l[i]@)
}

pub open spec fn nyhet(n: JsonView) -> Option<NyhetSyn> {
    match (n.felt_tekst("title"@), n.felt_tekst("link"@)) {
        (Some(title), Some(url)) => Some(
            NyhetSyn {
                title,
                publisher: tekst_eller_tom(n, "publisher"@),
                url,
                ts: match n.felt("providerPublishTime"@) {
                    Some(t) => match t.som_i64() {
                        Some(x) => x,
                        None => 0,
                    },
                    None => 0,
                },
            },
        ),
        _ => None,
    }
}

pub open spec fn alle_nyheter(l: Seq<JsonView>) -> Seq<NyhetSyn>
    decreases l.len(),
{
    if l.len() == 0 {
        Seq::empty()
    } else {
        match nyhet(l.last()) {
            Some(t) => alle_nyheter(l.drop_last()).push(t),
            None => alle_nyheter(l.drop_last()),
        }
    }
}

/// The newest first, those of the same time in their old order.
pub open spec fn nyeste_forst(l: Seq<NyhetSyn>) -> Seq<NyhetSyn> {
    order::order_of(l.map_values(|n: NyhetSyn| (-n.ts) as i128)).map_values(|i: int| l[i])
}

fn les_nyhet(n: &Json) -> (r: Option<NewsItem>)
    ensures
        (match nyhet(n@) {
            Some(t) => r is Some && r->0@ == t,
            None => r is None,
        }),
{
    match (n.felt_tekst("title"), n.felt_tekst("link")) {
        (Some(title), Some(url)) => {
            let ts: i64 = match n.felt("providerPublishTime") {
                Some(t) => match t.som_i64() {
                    Some(x) => x,
                    None => 0,
                },
                None => 0,
            };
            let ut: NewsItem = NewsItem {
                title: title.to_owned(),
                publisher: les_tekst(n, "publisher").to_owned(),
                url: url.to_owned(),
                ts,
            };
            assert(Some(ut@) =~= nyhet(n@));
            Some(ut)
        },
        _ => None,
    }
}

fn samle_nyheter(v: &Json) -> (r: Vec<NewsItem>)
    ensures
        nyheter(r@) == alle_nyheter(v@.felt_liste("news"@)),
{
    let l: &[Json] = v.felt_liste("news");
    let ghost alle = v@.felt_liste("news"@);
    let mut ut: Vec<NewsItem> = Vec::new();
    let mut i: usize = 0;
    assert(alle.take(0) =~= Seq::empty());
    assert(nyheter(ut@) =~= Seq::empty());
    while i < l.len()
        invariant
            i <= l@.len(),
            alle == json::syner(l@),
            nyheter(ut@) == alle_nyheter(alle.take(i as int)),
        decreases l.len() - i,
    {
        proof {
            assert(alle.take(i + 1).drop_last() =~= alle.take(i as int));
            assert(alle.take(i + 1).last() == l@[i as int]@);
        }
        let ghost for_ = nyheter(ut@);
        if let Some(t) = les_nyhet(&l[i]) {
            ut.push(t);
            assert(nyheter(ut@) =~= for_.push(t@));
        }
        i += 1;
    }
    assert(alle.take(i as int) =~= alle);
    ut
}

/// The news of an answer, the newest first.
pub fn tolk_nyheter(v: &Json) -> (r: Vec<NewsItem>)
    ensures
        nyheter(r@) == nyeste_forst(alle_nyheter(v@.felt_liste("news"@))),
{
    let l: Vec<NewsItem> = samle_nyheter(v);
    let ghost s = nyheter(l@);
    let mut keys: Vec<i128> = Vec::new();
    let mut i: usize = 0;
    while i < l.len()
        invariant
            i <= l@.len(),
            keys@.len() == i,
            forall|k: int| 0 <= k < i ==> #[trigger] keys@[k] == -l@[k].ts,
        decreases l.len() - i,
    {
        keys.push(-(l[i].ts as i128));
        i += 1;
    }
    assert(keys@ =~= s.map_values(|n: NyhetSyn| (-n.ts) as i128));
    let o: Vec<usize> = order::stable_order(&keys);
    let ghost p = order::positions(o@);
    assert(p.len() == o@.len());
    let mut ut: Vec<NewsItem> = Vec::new();
    let mut j: usize = 0;
    while j < o.len()
        invariant
            j <= o@.len(),
            ut@.len() == j,
            o@.len() == l@.len(),
            p == order::positions(o@),
            s == nyheter(l@),
            forall|i: int| 0 <= i < o@.len() ==> (#[trigger] o@[i]) < l@.len(),
            forall|i: int| 0 <= i < j ==> (#[trigger] ut@[i])@ == s[p[i]],
        decreases o.len() - j,
    {
        assert(p[j as int] == o@[j as int]);
        let n: &NewsItem = &l[o[j]];
        let k: NewsItem = NewsItem {
            title: copy_text(&n.title),
            publisher: copy_text(&n.publisher),
            url: copy_text(&n.url),
            ts: n.ts,
        };
        assert(k@ =~= s[p[j as int]]);
        ut.push(k);
        j += 1;
    }
    assert(nyheter(ut@) =~= nyeste_forst(s));
    ut
}

// ---------------------------------------------------------------------------
// Opening hours
// ---------------------------------------------------------------------------

/// The time zone of an exchange, and when it opens and closes, in minutes of
/// the day.
pub open spec fn bors(symbol: Seq<char>) -> (Seq<char>, int, int) {
    let endelse = match text::last_char(symbol, '.') {
        Some(i) => Some(symbol.skip(i + 1)),
        None => None,
    };
    if endelse == Some("OL"@) {
        ("Europe/Oslo"@, 540, 990)
    } else if endelse == Some("DE"@) {
        ("Europe/Berlin"@, 540, 1050)
    } else if endelse == Some("L"@) {
        ("Europe/London"@, 480, 990)
    } else if endelse == Some("ST"@) {
        ("Europe/Stockholm"@, 540, 1050)
    } else if endelse == Some("CO"@) {
        ("Europe/Copenhagen"@, 540, 1020)
    } else {
        ("America/New_York"@, 570, 960)
    }
}

/// Whether an exchange is open on a day of the week, 0 for Monday, at a minute
/// of the day by its own clock.
pub open spec fn aapent(symbol: Seq<char>, ukedag: int, minutt: int) -> bool {
    types::krypto(symbol) || (ukedag < 5 && bors(symbol).1 <= minutt < bors(symbol).2)
}

fn finn_bors(symbol: &str) -> (r: (&'static str, u32, u32))
    ensures
        (r.0@, r.1 as int, r.2 as int) == bors(symbol@),
{
    let cs: Vec<char> = chars_of(symbol);
    let n: usize = cs.len();
    let endelse: Option<String> = match text::rfind_char(cs.as_slice(), '.') {
        Some(i) => {
            let e: Vec<char> = slice(cs.as_slice(), i + 1, n);
            assert(e@ =~= cs@.skip(i + 1));
            Some(string_of(e.as_slice()))
        },
        None => None,
    };
    match endelse {
        None => ("America/New_York", 570, 960),
        Some(e) => if same(e.as_str(), "OL") {
            ("Europe/Oslo", 540, 990)
        } else if same(e.as_str(), "DE") {
            ("Europe/Berlin", 540, 1050)
        } else if same(e.as_str(), "L") {
            ("Europe/London", 480, 990)
        } else if same(e.as_str(), "ST") {
            ("Europe/Stockholm", 540, 1050)
        } else if same(e.as_str(), "CO") {
            ("Europe/Copenhagen", 540, 1020)
        } else {
            ("America/New_York", 570, 960)
        },
    }
}

/// Whether the exchange of a symbol is open on a day of the week, 0 for Monday,
/// at a minute of the day by its own clock. Pairs are always traded.
pub fn er_aapent(symbol: &str, ukedag: u32, minutt: u32) -> (r: bool)
    ensures
        r == aapent(symbol@, ukedag as int, minutt as int),
{
    if types::is_crypto(symbol) {
        return true;
    }
    let (_, open, close): (&'static str, u32, u32) = finn_bors(symbol);
    ukedag < 5 && open <= minutt && minutt < close
}

/// The day of the week, 0 for Monday, the hour and the minute that a time zone
/// has at a number of seconds since 1970.
pub uninterp spec fn lokaltid(sone: Seq<char>, ts: int) -> Option<(int, int, int)>;

pub open spec fn tidsyn(o: Option<(u32, u32, u32)>) -> Option<(int, int, int)> {
    match o {
        Some((a, b, c)) => Some((a as int, b as int, c as int)),
        None => None,
    }
}

/// `chrono::DateTime::from_timestamp`, seen in a zone of `chrono_tz`: the day of
/// the week, the hour and the minute are a function of the zone and the time,
/// by the tables that the crate carries.
#[verifier::external_body]
fn les_lokaltid(sone: &str, ts: i64) -> (r: Option<(u32, u32, u32)>)
    ensures
        tidsyn(r) == lokaltid(sone@, ts as int),
        r matches Some(t) ==> t.0 <= 6 && t.1 <= 23 && t.2 <= 59,
{
    let tz: chrono_tz::Tz = sone.parse().ok()?;
    let t = chrono::DateTime::from_timestamp(ts, 0)?.with_timezone(&tz);
    Some((t.weekday().num_days_from_monday(), t.hour(), t.minute()))
}

/// Whether the exchange of a symbol is open at a number of seconds since 1970.
pub open spec fn aapent_ved(symbol: Seq<char>, ts: int) -> bool {
    types::krypto(symbol) || (match lokaltid(bors(symbol).0, ts) {
        Some((ukedag, time, minutt)) => aapent(symbol, ukedag, time * 60 + minutt),
        None => false,
    })
}

pub fn is_trading_open(symbol: &str, now: i64) -> (r: bool)
    ensures
        r == aapent_ved(symbol@, now as int),
{
    if types::is_crypto(symbol) {
        return true;
    }
    let (sone, _, _): (&'static str, u32, u32) = finn_bors(symbol);
    match les_lokaltid(sone, now) {
        Some((ukedag, time, minutt)) => er_aapent(symbol, ukedag, time * 60 + minutt),
        None => false,
    }
}

/// Only pairs are traded at the weekend.
pub proof fn law_helgen_stengt(symbol: Seq<char>, ukedag: int, minutt: int)
    requires
        ukedag >= 5,
        !types::krypto(symbol),
    ensures
        !aapent(symbol, ukedag, minutt),
{
}

proof fn lemma_siste_punktum(x: Seq<char>, e: Seq<char>)
    requires
        !e.contains('.'),
    ensures
        text::last_char(x + seq!['.'] + e, '.') == Some(x.len() as int),
        (x + seq!['.'] + e).skip(x.len() as int + 1) == e,
    decreases e.len(),
{
    let s = x + seq!['.'] + e;
    assert(s.skip(x.len() as int + 1) =~= e);
    if e.len() > 0 {
        assert(s.last() == e.last());
        assert(e[e.len() - 1] == e.last());
        assert(s.drop_last() =~= x + seq!['.'] + e.drop_last());
        assert forall|i: int| 0 <= i < e.len() - 1 implies #[trigger] e.drop_last()[i] != '.' by {
            assert(e[i] != '.');
        }
        lemma_siste_punktum(x, e.drop_last());
    }
}

/// The opening hours, from Monday to Friday and by the clock of the place:
/// Oslo from nine to half past four, Frankfurt and Stockholm from nine to half
/// past five, London from eight to half past four, Copenhagen from nine to
/// five, and New York from half past nine to four.
pub proof fn law_aapningstider(x: Seq<char>, ukedag: int, minutt: int)
    ensures
        aapent(x + seq!['.'] + "OL"@, ukedag, minutt) <==> ukedag < 5 && 9 * 60 <= minutt < 16 * 60 + 30,
        aapent(x + seq!['.'] + "DE"@, ukedag, minutt) <==> ukedag < 5 && 9 * 60 <= minutt < 17 * 60 + 30,
        aapent(x + seq!['.'] + "ST"@, ukedag, minutt) <==> ukedag < 5 && 9 * 60 <= minutt < 17 * 60 + 30,
        aapent(x + seq!['.'] + "L"@, ukedag, minutt) <==> ukedag < 5 && 8 * 60 <= minutt < 16 * 60 + 30,
        aapent(x + seq!['.'] + "CO"@, ukedag, minutt) <==> ukedag < 5 && 9 * 60 <= minutt < 17 * 60,
        !x.contains('.') && !x.contains('-') ==> (aapent(x, ukedag, minutt) <==> ukedag < 5 && 9 * 60 + 30 <= minutt < 16
            * 60),
        x.contains('-') && !x.contains('.') ==> aapent(x, ukedag, minutt),
{
    reveal_strlit("OL");
    reveal_strlit("DE");
    reveal_strlit("ST");
    reveal_strlit("L");
    reveal_strlit("CO");
    assert("OL"@ =~= seq!['O', 'L'] && "DE"@ =~= seq!['D', 'E'] && "ST"@ =~= seq!['S', 'T'] && "L"@ =~= seq!['L']
        && "CO"@ =~= seq!['C', 'O']);
    assert("OL"@[0] == 'O' && "DE"@[0] == 'D' && "ST"@[0] == 'S' && "L"@[0] == 'L' && "CO"@[0] == 'C');
    lemma_siste_punktum(x, "OL"@);
    lemma_siste_punktum(x, "DE"@);
    lemma_siste_punktum(x, "ST"@);
    lemma_siste_punktum(x, "L"@);
    lemma_siste_punktum(x, "CO"@);
    assert((x + seq!['.'] + "OL"@)[x.len() as int] == '.');
    assert((x + seq!['.'] + "DE"@)[x.len() as int] == '.');
    assert((x + seq!['.'] + "ST"@)[x.len() as int] == '.');
    assert((x + seq!['.'] + "L"@)[x.len() as int] == '.');
    assert((x + seq!['.'] + "CO"@)[x.len() as int] == '.');
    if !x.contains('.') {
        lemma_uten_punktum(x);
    }
}

proof fn lemma_uten_punktum(x: Seq<char>)
    requires
        !x.contains('.'),
    ensures
        text::last_char(x, '.') is None,
    decreases x.len(),
{
    if x.len() > 0 {
        assert(x[x.len() - 1] != '.');
        assert forall|i: int| 0 <= i < x.len() - 1 implies #[trigger] x.drop_last()[i] != '.' by {
            assert(x[i] != '.');
        }
        lemma_uten_punktum(x.drop_last());
    }
}

/// The clock that the opening hours go by is the one of the place, in winter
/// as in summer.
pub proof fn law_klokken(x: Seq<char>, ts: int)
    ensures
        aapent_ved(x + seq!['.'] + "OL"@, ts) <==> (lokaltid("Europe/Oslo"@, ts) matches Some(t) && aapent(
            x + seq!['.'] + "OL"@,
            t.0,
            60 * t.1 + t.2,
        )),
        aapent_ved(x + seq!['.'] + "L"@, ts) <==> (lokaltid("Europe/London"@, ts) matches Some(t) && aapent(
            x + seq!['.'] + "L"@,
            t.0,
            60 * t.1 + t.2,
        )),
        !x.contains('.') && !x.contains('-') ==> (aapent_ved(x, ts) <==> (lokaltid("America/New_York"@, ts) matches Some(
            t,
        ) && aapent(x, t.0, 60 * t.1 + t.2))),
{
    reveal_strlit("OL");
    reveal_strlit("L");
    assert("OL"@ =~= seq!['O', 'L'] && "L"@ =~= seq!['L']);
    reveal_strlit("DE");
    reveal_strlit("ST");
    reveal_strlit("CO");
    assert("DE"@ =~= seq!['D', 'E'] && "ST"@ =~= seq!['S', 'T'] && "CO"@ =~= seq!['C', 'O']);
    lemma_siste_punktum(x, "OL"@);
    lemma_siste_punktum(x, "L"@);
    assert((x + seq!['.'] + "OL"@)[x.len() as int] == '.');
    assert((x + seq!['.'] + "L"@)[x.len() as int] == '.');
    if !x.contains('.') {
        lemma_uten_punktum(x);
    }
}

/// The spread is what lies between the best offer and the best bid, in per
/// cent of the price midway between them.
pub proof fn law_spread(v: JsonView, o: Seq<(Seq<char>, JsonView)>, a: int, b: int)
    requires
        v.felt_liste("error"@).len() == 0,
        v.felt("result"@) == Some(JsonView::Obj(o)),
        o.len() > 0,
        kraken_pris(o[0].1, "a"@) == Some(a),
        kraken_pris(o[0].1, "b"@) == Some(b),
        a >= b > 0,
    ensures
        kraken_spread(v) is Some,
        kraken_spread(v)->0 * (a + b) <= 2 * (a - b) * 10_000_000_000 < (kraken_spread(v)->0 + 1) * (a + b),
        a == b ==> kraken_spread(v) == Some(0int),
{
    belop::law_kvotient((a - b) * 20_000_000_000, a + b);
    let q = kraken_spread(v)->0;
    if a == b {
        assert(q == 0) by (nonlinear_arith)
            requires
                q * (a + b) <= 0,
                q >= 0,
                a + b > 0,
        ;
    }
}

/// A day on which every price is given has its bar, with the prices of that
/// day.
pub proof fn law_dagen_har_sin_stolpe(
    tider: Seq<JsonView>,
    o: Seq<JsonView>,
    h: Seq<JsonView>,
    l: Seq<JsonView>,
    c: Seq<JsonView>,
    n: nat,
    i: int,
)
    requires
        0 <= i < n,
        i < o.len() && i < h.len() && i < l.len() && i < c.len(),
        tider[i].som_i64() is Some,
        o[i].som_belop() is Some,
        h[i].som_belop() is Some,
        l[i].som_belop() is Some,
        c[i].som_belop() is Some,
    ensures
        exists|k: int|
            0 <= k < stolper(tider, o, h, l, c, n).len() && {
                let s = #[trigger] stolper(tider, o, h, l, c, n)[k];
                s.ts == tider[i].som_i64()->0 as i64 && s.open == o[i].som_belop()->0 as i64 && s.high
                    == h[i].som_belop()->0 as i64 && s.low == l[i].som_belop()->0 as i64 && s.close
                    == c[i].som_belop()->0 as i64
            },
    decreases n,
{
    let for_ = stolper(tider, o, h, l, c, (n - 1) as nat);
    let alle = stolper(tider, o, h, l, c, n);
    if i == n - 1 {
        let k = for_.len() as int;
        assert(alle[k].ts == tider[i].som_i64()->0 as i64);
    } else {
        law_dagen_har_sin_stolpe(tider, o, h, l, c, (n - 1) as nat, i);
        let k = choose|k: int|
            0 <= k < for_.len() && {
                let s = #[trigger] for_[k];
                s.ts == tider[i].som_i64()->0 as i64 && s.open == o[i].som_belop()->0 as i64 && s.high
                    == h[i].som_belop()->0 as i64 && s.low == l[i].som_belop()->0 as i64 && s.close
                    == c[i].som_belop()->0 as i64
            };
        assert(alle[k] == for_[k]);
    }
}

/// One dividend more adds what it pays.
pub proof fn law_ett_utbytte_til(o: Seq<(Seq<char>, JsonView)>, navn: Seq<char>, v: JsonView, b: int)
    requires
        v.felt_belop("amount"@) == Some(b),
    ensures
        sum_utbytte(o.push((navn, v)), o.len() + 1) == sum_utbytte(o, o.len()) + b,
        sum_utbytte(Seq::empty(), 0) == 0,
{
    lemma_samme_utbytte(o, o.push((navn, v)), o.len());
}

proof fn lemma_samme_utbytte(a: Seq<(Seq<char>, JsonView)>, b: Seq<(Seq<char>, JsonView)>, n: nat)
    requires
        n <= a.len(),
        n <= b.len(),
        forall|i: int| 0 <= i < n ==> a[i] == b[i],
    ensures
        sum_utbytte(a, n) == sum_utbytte(b, n),
    decreases n,
{
    if n > 0 {
        lemma_samme_utbytte(a, b, (n - 1) as nat);
    }
}

/// A search without filler words keeps all other words, in their order.
pub proof fn law_fyllord(l: Seq<Seq<char>>)
    ensures
        uten_fyllord(l) == l.filter(|s: Seq<char>| !fyllord(s)),
    decreases l.len(),
{
    reveal(Seq::filter);
    if l.len() > 0 {
        law_fyllord(l.drop_last());
    }
}

/// The news stand by their time, the newest first, and none is lost.
pub proof fn law_nyeste_nyhet_forst(l: Seq<NyhetSyn>)
    requires
        forall|i: int| 0 <= i < l.len() ==> i64::MIN <= (#[trigger] l[i]).ts <= i64::MAX,
    ensures
        nyeste_forst(l).len() == l.len(),
        forall|a: int, b: int|
            0 <= a < b < l.len() ==> (#[trigger] nyeste_forst(l)[a]).ts >= (#[trigger] nyeste_forst(l)[b]).ts,
        forall|i: int| 0 <= i < l.len() ==> nyeste_forst(l).contains(#[trigger] l[i]),
{
    let v = l.map_values(|n: NyhetSyn| (-n.ts) as i128);
    let r = order::order_of(v);
    order::law_order_is_stable(v);
    assert forall|a: int, b: int| 0 <= a < b < l.len() implies (#[trigger] nyeste_forst(l)[a]).ts >= (
    #[trigger] nyeste_forst(l)[b]).ts by {
        assert(v[r[a]] <= v[r[b]]);
        assert(i64::MIN <= l[r[a]].ts <= i64::MAX);
        assert(i64::MIN <= l[r[b]].ts <= i64::MAX);
    }
    assert forall|i: int| 0 <= i < l.len() implies nyeste_forst(l).contains(#[trigger] l[i]) by {
        assert(r.contains(i));
        let k = choose|k: int| 0 <= k < r.len() && r[k] == i;
        assert(nyeste_forst(l)[k] == l[i]);
    }
}

/// A quote has the price of the market and, where it is given, the close of the
/// day before; where it is not, the price stands for it.
pub proof fn law_kursen(symbol: Seq<char>, v: JsonView, meta: JsonView, last: int, naa: int)
    requires
        v.felt("meta"@) == Some(meta),
        meta.felt_belop("regularMarketPrice"@) == Some(last),
    ensures
        kurs_av(symbol, v, naa) is Ok,
        kurs_av(symbol, v, naa)->Ok_0.last == last,
        kurs_av(symbol, v, naa)->Ok_0.symbol == symbol,
        meta.felt_belop("chartPreviousClose"@) matches Some(p) ==> kurs_av(symbol, v, naa)->Ok_0.prev_close == p,
        meta.felt("chartPreviousClose"@) is None && meta.felt("previousClose"@) is None ==> kurs_av(
            symbol,
            v,
            naa,
        )->Ok_0.prev_close == last,
{
}

}
