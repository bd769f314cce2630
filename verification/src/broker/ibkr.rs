//! Interactive Brokers: how its answers are read and its questions answered.
use vstd::prelude::*;

use crate::belop;
use crate::json;
use crate::json::{Json, JsonView};
use crate::number_text;
use crate::text;
use crate::text::{chars_of, same, without_end, without_start};
use crate::types;
use crate::types::{Order, OrderRequest, OrderStatus, Position, PosisjonSyn, Side};

verus! {

/// The symbol without its exchange: the part before the first full stop.
pub open spec fn symboldel(s: Seq<char>) -> Seq<char> {
    match text::first_char(s, '.', 0) {
        Some(i) => s.take(i),
        None => s,
    }
}

pub fn ibkr_symbol(yahoo_symbol: &str) -> (r: String)
    ensures
        r@ == symboldel(yahoo_symbol@),
{
    let cs: Vec<char> = chars_of(yahoo_symbol);
    match text::find_char(cs.as_slice(), '.', 0) {
        Some(i) => {
            let del: Vec<char> = text::slice(cs.as_slice(), 0, i);
            assert(del@ =~= cs@.take(i as int));
            text::string_of(del.as_slice())
        },
        None => yahoo_symbol.to_owned(),
    }
}

/// The number of an instrument, written as a number or as a text.
pub open spec fn conid_av(v: JsonView) -> Option<int> {
    match v {
        JsonView::Hel(_) => v.som_i64(),
        JsonView::Str(s) => number_text::within(number_text::int_of(s), i64::MIN as int, i64::MAX as int),
        _ => None,
    }
}

/// What a search for an instrument found.
pub enum Oppslag {
    Funnet(int),
    /// There is none.
    Ingen,
    /// There is one, but its number cannot be read.
    Ugyldig,
}

pub open spec fn oppslag(v: JsonView) -> Oppslag {
    match v.element(0) {
        None => Oppslag::Ingen,
        Some(forste) => match forste.felt("conid"@) {
            None => Oppslag::Ugyldig,
            Some(c) => match conid_av(c) {
                Some(n) => Oppslag::Funnet(n),
                None => Oppslag::Ugyldig,
            },
        },
    }
}

/// The number of the first instrument of a search, or what is wrong.
pub fn tolk_conid(v: &Json, symbol: &str) -> (r: Result<i64, String>)
    ensures
        (match oppslag(v@) {
            Oppslag::Funnet(n) => r is Ok && r->Ok_0 == n,
            Oppslag::Ingen => r is Err && r->Err_0@ == "fant ingen IBKR-instrument for "@ + symbol@,
            Oppslag::Ugyldig => r is Err && r->Err_0@ == "ugyldig conid for "@ + symbol@,
        }),
{
    match v.element(0) {
        None => Err(text::two("fant ingen IBKR-instrument for ", symbol)),
        Some(forste) => {
            let n: Option<i64> = match forste.felt("conid") {
                None => None,
                Some(c) => match c {
                    Json::Hel(_) => c.som_i64(),
                    Json::Str(s) => {
                        let cs: Vec<char> = chars_of(s.as_str());
                        number_text::read_i64(cs.as_slice())
                    },
                    _ => None,
                },
            };
            match n {
                Some(n) => Ok(n),
                None => Err(text::two("ugyldig conid for ", symbol)),
            }
        },
    }
}

/// A price as it is written, with or without the letter in front that marks one
/// from the day before or from a halted trade.
pub open spec fn merket_pris(s: Seq<char>) -> Option<int> {
    if s.len() > 0 && (s[0] == 'C' || s[0] == 'H') {
        belop::belop_av(s.skip(1))
    } else {
        belop::belop_av(s)
    }
}

/// The last price of the first instrument of a snapshot; none where there is no
/// price above nothing, as without a subscription.
pub open spec fn sanntidspris(v: JsonView) -> Option<int> {
    let pris = match v.element(0) {
        Some(e) => match e.felt("31"@) {
            Some(JsonView::Str(s)) => merket_pris(s),
            Some(t) => t.som_belop(),
            None => None,
        },
        None => None,
    };
    match pris {
        Some(p) => if p > 0 {
            Some(p)
        } else {
            None
        },
        None => None,
    }
}

/// The last price of the first instrument of a snapshot.
pub fn tolk_sanntid(v: &Json) -> (r: Option<i64>)
    ensures
        (match sanntidspris(v@) {
            Some(p) => r is Some && r->0 == p,
            None => r is None,
        }),
{
    let pris: Option<i64> = match v.element(0) {
        Some(e) => match e.felt("31") {
            Some(t) => match t {
                Json::Str(s) => {
                    let cs: Vec<char> = chars_of(s.as_str());
                    if cs.len() > 0 && (cs[0] == 'C' || cs[0] == 'H') {
                        let n: usize = cs.len();
                        let uten: Vec<char> = text::slice(cs.as_slice(), 1, n);
                        assert(uten@ =~= cs@.skip(1));
                        belop::les_belop(uten.as_slice())
                    } else {
                        belop::les_belop(cs.as_slice())
                    }
                },
                _ => t.som_belop(),
            },
            None => None,
        },
        None => None,
    };
    match pris {
        Some(p) => if p > 0 {
            Some(p)
        } else {
            None
        },
        None => None,
    }
}

/// The price of a limit order: the last price and so many per cent of it past
/// it, up for a purchase and down for a sale.
pub open spec fn limitpris(side: Side, ref_price: int, slippage_pct: int) -> int {
    belop::kvotient(
        ref_price * (10_000_000_000 + (if side == Side::Buy {
            slippage_pct
        } else {
            -slippage_pct
        })),
        10_000_000_000,
    )
}

fn regn_limitpris(side: Side, ref_price: i64, slippage_pct: i64) -> (r: i128)
    ensures
        r == limitpris(side, ref_price as int, slippage_pct as int),
{
    let f: i128 = match side {
        Side::Buy => 10_000_000_000 + slippage_pct as i128,
        Side::Sell => 10_000_000_000 - slippage_pct as i128,
    };
    assert(-0x7000_0000_0000_0000_0000_0000_0000_0000 < ref_price * f < 0x7000_0000_0000_0000_0000_0000_0000_0000)
        by (nonlinear_arith)
        requires
            -0x8000_0000_0000_0000 <= ref_price <= 0x7fff_ffff_ffff_ffff,
            -0x8000_0003_0000_0000 <= f <= 0x8000_0003_0000_0000,
    ;
    belop::del(ref_price as i128 * f, 10_000_000_000)
}

/// What is sent of the kind of an order: the price where it is a limit order.
pub open spec fn slag(req: OrderRequest, limit_orders: bool, slippage_pct: int) -> Seq<(Seq<char>, JsonView)> {
    if limit_orders {
        seq![
            ("orderType"@, JsonView::Str("LMT"@)),
            (
                "price"@,
                JsonView::Des(belop::belop_tekst(limitpris(req.side, req.ref_price as int, slippage_pct), 8)),
            ),
        ]
    } else {
        seq![("orderType"@, JsonView::Str("MKT"@))]
    }
}

pub open spec fn sidetekst(side: Side) -> Seq<char> {
    if side == Side::Buy {
        "BUY"@
    } else {
        "SELL"@
    }
}

/// An order for the day: by default one with a limit so many per cent past the
/// last price, which is filled near the market and never at a wild price.
pub open spec fn ordre_json(conid: int, req: OrderRequest, limit_orders: bool, slippage_pct: int) -> JsonView {
    JsonView::Obj(
        seq![
            (
                "orders"@,
                JsonView::Arr(
                    seq![
                        JsonView::Obj(
                            seq![("conid"@, JsonView::Hel(conid))] + slag(req, limit_orders, slippage_pct) + seq![
                                ("side"@, JsonView::Str(sidetekst(req.side))),
                                ("quantity"@, JsonView::Des(belop::belop_tekst(req.qty as int, 8))),
                                ("tif"@, JsonView::Str("DAY"@)),
                            ],
                        ),
                    ],
                ),
            ),
        ],
    )
}

/// The body of an order.
pub fn ordre_kropp(conid: i64, req: &OrderRequest, limit_orders: bool, limit_slippage_pct: i64) -> (r: String)
    ensures
        r@ == json::json_kompakt(
            json::lagt(ordre_json(conid as int, *req, limit_orders, limit_slippage_pct as int)),
        ),
{
    let ghost hele = ordre_json(conid as int, *req, limit_orders, limit_slippage_pct as int);
    let side: &str = match req.side {
        Side::Buy => "BUY",
        Side::Sell => "SELL",
    };
    let mut ordre: Vec<(String, Json)> = Vec::new();
    ordre.push(json::felt_av("conid", Json::Hel(conid as i128)));
    if limit_orders {
        let pris: i128 = regn_limitpris(req.side, req.ref_price, limit_slippage_pct);
        let cs: Vec<char> = belop::skriv(pris, 8, 8);
        ordre.push(json::felt_av("orderType", json::tekst("LMT")));
        ordre.push(json::felt_av("price", Json::Des(text::string_of(cs.as_slice()))));
    } else {
        ordre.push(json::felt_av("orderType", json::tekst("MKT")));
    }
    ordre.push(json::felt_av("side", json::tekst(side)));
    ordre.push(json::felt_av("quantity", Json::Des(belop::som_tekst(req.qty, 8))));
    ordre.push(json::felt_av("tif", json::tekst("DAY")));
    assert(json::par(ordre@) =~= hele->Obj_0[0].1->Arr_0[0]->Obj_0);
    let liste: Vec<Json> = vec![json::objekt(ordre)];
    assert(json::syner(liste@) =~= hele->Obj_0[0].1->Arr_0);
    let ytre: Vec<(String, Json)> = vec![json::felt_av("orders", json::liste_av(liste))];
    assert(json::par(ytre@) =~= hele->Obj_0);
    json::skriv(&json::objekt(ytre))
}

/// A limit never lies on the wrong side of the last price, and without a
/// percentage it lies at it.
pub proof fn law_limit_paa_rett_side(ref_price: int, slippage_pct: int)
    requires
        ref_price >= 0,
        0 <= slippage_pct <= 10_000_000_000,
    ensures
        limitpris(Side::Sell, ref_price, slippage_pct) <= ref_price <= limitpris(Side::Buy, ref_price, slippage_pct),
        0 <= limitpris(Side::Sell, ref_price, slippage_pct),
        slippage_pct == 0 ==> limitpris(Side::Sell, ref_price, 0) == ref_price && limitpris(Side::Buy, ref_price, 0)
            == ref_price,
{
    let h = 10_000_000_000int;
    let op = ref_price * (h + slippage_pct);
    let ned = ref_price * (h - slippage_pct);
    assert(ref_price * h <= op && 0 <= ned <= ref_price * h) by (nonlinear_arith)
        requires
            op == ref_price * (h + slippage_pct),
            ned == ref_price * (h - slippage_pct),
            ref_price >= 0,
            0 <= slippage_pct <= h,
    ;
}

/// What to do with an answer to an order.
#[derive(Debug)]
pub enum Steg {
    /// Nothing more is asked.
    Ferdig,
    /// A question that must be confirmed first.
    Bekreft(String),
    Uventet,
}

pub open spec fn steg_er(s: Steg, v: JsonView) -> bool {
    match v.element(0) {
        None => s is Ferdig,
        Some(forste) => if forste.felt("order_id"@) is Some {
            s is Ferdig
        } else {
            match forste.felt_tekst("id"@) {
                Some(id) => s is Bekreft && s->Bekreft_0@ == id,
                None => s is Uventet,
            }
        },
    }
}

/// What to do with an answer to an order: the broker may ask whether one is
/// sure, a few times over.
pub fn neste_steg(v: &Json) -> (r: Steg)
    ensures
        steg_er(r, v@),
{
    match v.element(0) {
        None => Steg::Ferdig,
        Some(forste) => {
            if forste.felt("order_id").is_some() {
                return Steg::Ferdig;
            }
            match forste.felt_tekst("id") {
                Some(id) => Steg::Bekreft(id.to_owned()),
                None => Steg::Uventet,
            }
        },
    }
}

/// How many questions are answered before the broker is given up.
pub const MEST_SPORSMAAL: u32 = 3;

/// A number or a name as it is written, without quotation marks round it.
pub open spec fn navn_av(v: JsonView) -> Seq<char> {
    text::strip_end(text::strip_start(json::json_kompakt(json::lagt(v)), '"'), '"')
}

fn skriv_navn(v: &Json) -> (r: String)
    ensures
        r@ == navn_av(v@),
{
    let s: String = json::skriv(v);
    let t: String = without_start(s.as_str(), '"');
    without_end(t.as_str(), '"')
}

/// The order that the last answer tells of, or why there is none.
pub fn tolk_ordresvar(v: &Json, req: OrderRequest, naa: i64) -> (r: Result<Order, &'static str>)
    ensures
        (match v@.element(0) {
            None => r is Err && r->Err_0@ == "tomt ordresvar fra IBKR"@,
            Some(forste) => match forste.felt("order_id"@) {
                None => r is Err && r->Err_0@ == "ordre ikke bekreftet av IBKR"@,
                Some(id) => r is Ok && r->Ok_0.id@ == navn_av(id) && r->Ok_0.symbol@ == req.symbol@ && r->Ok_0.side
                    == req.side && r->Ok_0.qty == req.qty && r->Ok_0.status == OrderStatus::Submitted
                    && r->Ok_0.avg_price == req.ref_price && r->Ok_0.created == naa && r->Ok_0.note@ == req.note@,
            },
        }),
{
    match v.element(0) {
        None => Err("tomt ordresvar fra IBKR"),
        Some(forste) => match forste.felt("order_id") {
            None => Err("ordre ikke bekreftet av IBKR"),
            Some(id) => Ok(
                Order {
                    id: skriv_navn(id),
                    symbol: req.symbol,
                    side: req.side,
                    qty: req.qty,
                    status: OrderStatus::Submitted,
                    avg_price: req.ref_price,
                    created: naa,
                    note: req.note,
                },
            ),
        },
    }
}

/// Whether an order is still open, and has a number to cancel it by.
pub open spec fn aapen(o: JsonView) -> Option<Seq<char>> {
    let status = match o.felt_tekst("status"@) {
        Some(s) => s,
        None => ""@,
    };
    if status == "Filled"@ || status == "Cancelled"@ || status == "Inactive"@ {
        None
    } else {
        match o.felt("orderId"@) {
            Some(id) => Some(navn_av(id)),
            None => None,
        }
    }
}

pub open spec fn aapne(l: Seq<JsonView>) -> Seq<Seq<char>>
    decreases l.len(),
{
    if l.len() == 0 {
        Seq::empty()
    } else {
        match aapen(l.last()) {
            Some(id) => aapne(l.drop_last()).push(id),
            None => aapne(l.drop_last()),
        }
    }
}

/// The numbers of the orders to cancel.
pub fn tolk_aapne(v: &Json) -> (r: Vec<String>)
    ensures
        text::views(r@) == aapne(v@.felt_liste("orders"@)),
{
    let l: &[Json] = v.felt_liste("orders");
    let ghost alle = v@.felt_liste("orders"@);
    let mut ut: Vec<String> = Vec::new();
    let mut i: usize = 0;
    assert(alle.take(0) =~= Seq::empty());
    assert(text::views(ut@) =~= Seq::empty());
    while i < l.len()
        invariant
            i <= l@.len(),
            alle == json::syner(l@),
            text::views(ut@) == aapne(alle.take(i as int)),
        decreases l.len() - i,
    {
        proof {
            assert(alle.take(i + 1).drop_last() =~= alle.take(i as int));
            assert(alle.take(i + 1).last() == l@[i as int]@);
        }
        let ghost for_ = text::views(ut@);
        let status: &str = match l[i].felt_tekst("status") {
            Some(s) => s,
            None => "",
        };
        if !same(status, "Filled") && !same(status, "Cancelled") && !same(status, "Inactive") {
            if let Some(id) = l[i].felt("orderId") {
                let navn: String = skriv_navn(id);
                ut.push(navn);
                assert(text::views(ut@) =~= for_.push(navn@));
            }
        }
        i += 1;
    }
    assert(alle.take(i as int) =~= alle);
    ut
}

pub open spec fn belop_eller_null(v: JsonView, navn: Seq<char>) -> int {
    match v.felt_belop(navn) {
        Some(b) => b,
        None => 0,
    }
}

fn les_belop(v: &Json, navn: &str) -> (r: i64)
    ensures
        r == belop_eller_null(v@, navn@),
{
    match v.felt_belop(navn) {
        Some(b) => b,
        None => 0,
    }
}

/// The holding that an entry tells of; none where nothing is held.
pub open spec fn beholdning(p: JsonView) -> Option<PosisjonSyn> {
    if belop_eller_null(p, "position"@) == 0 {
        None
    } else {
        let felt = match p.felt("ticker"@) {
            Some(v) => Some(v),
            None => p.felt("contractDesc"@),
        };
        Some(
            PosisjonSyn {
                symbol: match felt {
                    Some(JsonView::Str(s)) => s,
                    _ => "?"@,
                },
                qty: belop_eller_null(p, "position"@) as i64,
                avg_price: belop_eller_null(p, "avgCost"@) as i64,
                last: belop_eller_null(p, "mktPrice"@) as i64,
            },
        )
    }
}

pub open spec fn beholdninger(l: Seq<JsonView>) -> Seq<PosisjonSyn>
    decreases l.len(),
{
    if l.len() == 0 {
        Seq::empty()
    } else {
        match beholdning(l.last()) {
            Some(p) => beholdninger(l.drop_last()).push(p),
            None => beholdninger(l.drop_last()),
        }
    }
}

fn les_symbol(p: &Json) -> (r: String)
    ensures
        r@ == (match (match p@.felt("ticker"@) {
            Some(v) => Some(v),
            None => p@.felt("contractDesc"@),
        }) {
            Some(JsonView::Str(s)) => s,
            _ => "?"@,
        }),
{
    let felt: Option<&Json> = match p.felt("ticker") {
        Some(v) => Some(v),
        None => p.felt("contractDesc"),
    };
    match felt {
        Some(v) => match v.som_tekst() {
            Some(s) => s.to_owned(),
            None => "?".to_owned(),
        },
        None => "?".to_owned(),
    }
}

/// The holdings that an answer tells of.
pub fn tolk_beholdninger(v: &Json) -> (r: Vec<Position>)
    ensures
        types::posisjoner(r@) == beholdninger(v@.elementer()),
{
    let l: &[Json] = v.elementer();
    let ghost alle = v@.elementer();
    let mut ut: Vec<Position> = Vec::new();
    let mut i: usize = 0;
    assert(alle.take(0) =~= Seq::empty());
    assert(types::posisjoner(ut@) =~= Seq::empty());
    while i < l.len()
        invariant
            i <= l@.len(),
            alle == json::syner(l@),
            types::posisjoner(ut@) == beholdninger(alle.take(i as int)),
        decreases l.len() - i,
    {
        proof {
            assert(alle.take(i + 1).drop_last() =~= alle.take(i as int));
            assert(alle.take(i + 1).last() == l@[i as int]@);
        }
        let ghost for_ = types::posisjoner(ut@);
        let qty: i64 = les_belop(&l[i], "position");
        if qty != 0 {
            let p: Position = Position {
                symbol: les_symbol(&l[i]),
                qty,
                avg_price: les_belop(&l[i], "avgCost"),
                last: les_belop(&l[i], "mktPrice"),
            };
            assert(Some(p@) =~= beholdning(l@[i as int]@));
            ut.push(p);
            assert(types::posisjoner(ut@) =~= for_.push(p@));
        }
        i += 1;
    }
    assert(alle.take(i as int) =~= alle);
    ut
}

/// The cash that a ledger tells of.
pub open spec fn kontanter(v: JsonView) -> Option<int> {
    match v.felt("BASE"@) {
        Some(b) => b.felt_belop("cashbalance"@),
        None => None,
    }
}

pub fn tolk_kontanter(v: &Json) -> (r: Result<i64, &'static str>)
    ensures
        (match kontanter(v@) {
            Some(b) => r is Ok && r->Ok_0 == b,
            None => r is Err && r->Err_0@ == "fant ikke kontantsaldo i IBKR-ledger"@,
        }),
{
    let b: Option<i64> = match v.felt("BASE") {
        Some(b) => b.felt_belop("cashbalance"),
        None => None,
    };
    match b {
        Some(b) => Ok(b),
        None => Err("fant ikke kontantsaldo i IBKR-ledger"),
    }
}

/// A limit lies so many per cent of the last price above it for a buy, and as
/// many below it for a sale.
pub proof fn law_limitprisen(ref_price: int, slippage_pct: int)
    requires
        ref_price >= 0,
        0 <= slippage_pct <= 10_000_000_000,
    ensures
        (limitpris(Side::Buy, ref_price, slippage_pct) - ref_price) * 10_000_000_000 <= ref_price * slippage_pct < (
        limitpris(Side::Buy, ref_price, slippage_pct) - ref_price + 1) * 10_000_000_000,
        (ref_price - limitpris(Side::Sell, ref_price, slippage_pct) - 1) * 10_000_000_000 < ref_price * slippage_pct
            <= (ref_price - limitpris(Side::Sell, ref_price, slippage_pct)) * 10_000_000_000,
{
    let h = 10_000_000_000int;
    let op = ref_price * (h + slippage_pct);
    let ned = ref_price * (h - slippage_pct);
    assert(op == ref_price * h + ref_price * slippage_pct && ned == ref_price * h - ref_price * slippage_pct && op >= 0
        && ned >= 0) by (nonlinear_arith)
        requires
            op == ref_price * (h + slippage_pct),
            ned == ref_price * (h - slippage_pct),
            ref_price >= 0,
            0 <= slippage_pct <= h,
    ;
    belop::law_kvotient(op, h);
    belop::law_kvotient(ned, h);
}

/// Whether an order has that number and is neither filled nor cancelled nor
/// asleep.
pub open spec fn venter(o: JsonView, id: Seq<char>) -> bool {
    &&& o.felt("orderId"@) is Some
    &&& navn_av(o.felt("orderId"@)->0) == id
    &&& o.felt_tekst("status"@) != Some("Filled"@)
    &&& o.felt_tekst("status"@) != Some("Cancelled"@)
    &&& o.felt_tekst("status"@) != Some("Inactive"@)
}

/// The numbers of the orders that wait are those to cancel, and no other is.
pub proof fn law_aapne_ordrer(l: Seq<JsonView>, id: Seq<char>)
    ensures
        aapne(l).contains(id) <==> (exists|i: int| 0 <= i < l.len() && venter(#[trigger] l[i], id)),
    decreases l.len(),
{
    reveal_strlit("");
    reveal_strlit("Filled");
    reveal_strlit("Cancelled");
    reveal_strlit("Inactive");
    assert(""@.len() == 0 && "Filled"@.len() == 6 && "Cancelled"@.len() == 9 && "Inactive"@.len() == 8);
    if l.len() > 0 {
        let d = l.drop_last();
        let n = l.len() - 1;
        law_aapne_ordrer(d, id);
        assert(aapen(l[n]) == Some(id) <==> venter(l[n], id));
        if exists|i: int| 0 <= i < d.len() && venter(#[trigger] d[i], id) {
            let i = choose|i: int| 0 <= i < d.len() && venter(#[trigger] d[i], id);
            assert(venter(l[i], id));
        }
        if exists|i: int| 0 <= i < l.len() && venter(#[trigger] l[i], id) {
            let i = choose|i: int| 0 <= i < l.len() && venter(#[trigger] l[i], id);
            if i < n {
                assert(venter(d[i], id));
            }
        }
        let a = aapne(d);
        match aapen(l.last()) {
            Some(x) => {
                if a.contains(id) {
                    let k = choose|k: int| 0 <= k < a.len() && a[k] == id;
                    assert(a.push(x)[k] == id);
                }
                if x == id {
                    assert(a.push(x)[a.len() as int] == id);
                }
                if a.push(x).contains(id) {
                    let k = choose|k: int| 0 <= k < a.len() + 1 && a.push(x)[k] == id;
                    if k < a.len() {
                        assert(a[k] == id);
                    }
                }
            },
            None => {},
        }
    }
}

/// Each entry of which anything is held is a holding, with the quantity, the
/// average cost and the price of the market that it gives.
pub proof fn law_beholdningene(l: Seq<JsonView>, i: int)
    requires
        0 <= i < l.len(),
        l[i].felt_belop("position"@) is Some,
        l[i].felt_belop("position"@)->0 != 0,
        l[i].felt_tekst("ticker"@) is Some,
        l[i].felt_belop("avgCost"@) is Some,
        l[i].felt_belop("mktPrice"@) is Some,
    ensures
        beholdninger(l).contains(
            PosisjonSyn {
                symbol: l[i].felt_tekst("ticker"@)->0,
                qty: l[i].felt_belop("position"@)->0 as i64,
                avg_price: l[i].felt_belop("avgCost"@)->0 as i64,
                last: l[i].felt_belop("mktPrice"@)->0 as i64,
            },
        ),
    decreases l.len(),
{
    let d = l.drop_last();
    let a = beholdninger(d);
    let p = PosisjonSyn {
        symbol: l[i].felt_tekst("ticker"@)->0,
        qty: l[i].felt_belop("position"@)->0 as i64,
        avg_price: l[i].felt_belop("avgCost"@)->0 as i64,
        last: l[i].felt_belop("mktPrice"@)->0 as i64,
    };
    if i < d.len() {
        law_beholdningene(d, i);
        let k = choose|k: int| 0 <= k < a.len() && a[k] == p;
        match beholdning(l.last()) {
            Some(x) => {
                assert(a.push(x)[k] == p);
            },
            None => {},
        }
    } else {
        assert(beholdning(l.last()) == Some(p));
        assert(a.push(p)[a.len() as int] == p);
    }
}

}
