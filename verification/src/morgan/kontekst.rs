//! What the models are told of the market and the portfolio, as JSON.
use vstd::prelude::*;

use crate::belop;
use crate::broker::paper;
use crate::engine::finn_posisjon;
use crate::json;
use crate::json::{Json, JsonView};
use crate::market;
use crate::market::{MarketRow, RadSyn, UkeSyn, WeekRow};
use crate::marketdata::KursSyn;
use crate::state;
use crate::state::{hent_priser, UiState};
use crate::text;
use crate::text::{copy_text, same, string_of};
use crate::types;
use crate::types::{Position, PosisjonSyn, Quote};

verus! {

// ---------------------------------------------------------------------------
// Numbers
// ---------------------------------------------------------------------------

/// A price, a quantity or a percentage.
pub open spec fn tall(v: int) -> JsonView {
    JsonView::Des(belop::belop_tekst(v, 8))
}

/// A product of a price and a quantity.
pub open spec fn verdi(v: int) -> JsonView {
    JsonView::Des(belop::verdi_tekst(v, 16))
}

pub open spec fn kanskje_tall(o: Option<int>) -> JsonView {
    match o {
        Some(v) => tall(v),
        None => JsonView::Null,
    }
}

pub fn lag_tall(v: i128) -> (r: Json)
    ensures
        r@ == tall(v as int),
{
    let cs: Vec<char> = belop::skriv(v, 8, 8);
    Json::Des(string_of(cs.as_slice()))
}

pub fn lag_verdi(v: i128) -> (r: Json)
    ensures
        r@ == verdi(v as int),
{
    let cs: Vec<char> = belop::skriv(v, 16, 16);
    Json::Des(string_of(cs.as_slice()))
}

pub open spec fn heltall(o: Option<i64>) -> Option<int> {
    match o {
        Some(v) => Some(v as int),
        None => None,
    }
}

pub fn lag_kanskje_tall(o: Option<i64>) -> (r: Json)
    ensures
        r@ == kanskje_tall(heltall(o)),
{
    match o {
        Some(v) => lag_tall(v as i128),
        None => Json::Null,
    }
}

// ---------------------------------------------------------------------------
// The market
// ---------------------------------------------------------------------------

pub open spec fn kurs_json(q: KursSyn) -> JsonView {
    JsonView::Obj(
        seq![
            ("symbol"@, JsonView::Str(q.symbol)),
            ("siste"@, tall(q.last)),
            ("endring_pct"@, tall(types::endring_pct(q.last, q.prev_close))),
            ("valuta"@, JsonView::Str(q.currency)),
        ],
    )
}

fn lag_kurs(q: &Quote) -> (r: Json)
    ensures
        r@ == kurs_json(q@),
{
    let l: Vec<(String, Json)> = vec![
        json::felt_av("symbol", json::tekst(q.symbol.as_str())),
        json::felt_av("siste", lag_tall(q.last as i128)),
        json::felt_av("endring_pct", lag_tall(q.change_pct())),
        json::felt_av("valuta", json::tekst(q.currency.as_str())),
    ];
    assert(json::par(l@) =~= kurs_json(q@)->Obj_0);
    json::objekt(l)
}

pub open spec fn uke_json(w: UkeSyn) -> JsonView {
    JsonView::Obj(
        seq![
            ("symbol"@, JsonView::Str(w.symbol)),
            ("navn"@, JsonView::Str(w.name)),
            ("kurs"@, tall(w.last as int)),
            ("uke_pct"@, tall(w.week_pct as int)),
            ("rsi"@, tall(w.rsi)),
            ("trend_opp"@, JsonView::Bool(w.trend_up)),
            ("sving_pct"@, tall(w.range_pct as int)),
        ],
    )
}

fn lag_uke(w: &WeekRow) -> (r: Json)
    ensures
        r@ == uke_json(w@),
{
    let l: Vec<(String, Json)> = vec![
        json::felt_av("symbol", json::tekst(w.symbol.as_str())),
        json::felt_av("navn", json::tekst(w.name.as_str())),
        json::felt_av("kurs", lag_tall(w.last as i128)),
        json::felt_av("uke_pct", lag_tall(w.week_pct)),
        json::felt_av("rsi", lag_tall(w.rsi as i128)),
        json::felt_av("trend_opp", Json::Bool(w.trend_up)),
        json::felt_av("sving_pct", lag_tall(w.range_pct)),
    ];
    assert(json::par(l@) =~= uke_json(w@)->Obj_0);
    json::objekt(l)
}

pub open spec fn rad_json(r: RadSyn) -> JsonView {
    JsonView::Obj(
        seq![
            ("symbol"@, JsonView::Str(r.symbol)),
            ("navn"@, JsonView::Str(r.name)),
            ("kurs"@, tall(r.last as int)),
            ("dag_pct"@, tall(r.day_pct as int)),
            ("uke_pct"@, tall(r.week_pct as int)),
            ("omsetning"@, verdi(r.turnover as int)),
        ],
    )
}

fn lag_rad(m: &MarketRow) -> (r: Json)
    ensures
        r@ == rad_json(m@),
{
    let l: Vec<(String, Json)> = vec![
        json::felt_av("symbol", json::tekst(m.symbol.as_str())),
        json::felt_av("navn", json::tekst(m.name.as_str())),
        json::felt_av("kurs", lag_tall(m.last as i128)),
        json::felt_av("dag_pct", lag_tall(m.day_pct)),
        json::felt_av("uke_pct", lag_tall(m.week_pct)),
        json::felt_av("omsetning", lag_verdi(m.turnover)),
    ];
    assert(json::par(l@) =~= rad_json(m@)->Obj_0);
    json::objekt(l)
}

pub open spec fn fond_json(r: RadSyn) -> JsonView {
    JsonView::Obj(
        seq![
            ("symbol"@, JsonView::Str(r.symbol)),
            ("navn"@, JsonView::Str(r.name)),
            ("kurs"@, tall(r.last as int)),
            ("uke_pct"@, tall(r.week_pct as int)),
        ],
    )
}

fn lag_fond(m: &MarketRow) -> (r: Json)
    ensures
        r@ == fond_json(m@),
{
    let l: Vec<(String, Json)> = vec![
        json::felt_av("symbol", json::tekst(m.symbol.as_str())),
        json::felt_av("navn", json::tekst(m.name.as_str())),
        json::felt_av("kurs", lag_tall(m.last as i128)),
        json::felt_av("uke_pct", lag_tall(m.week_pct)),
    ];
    assert(json::par(l@) =~= fond_json(m@)->Obj_0);
    json::objekt(l)
}

pub open spec fn kurser_json(l: Seq<(String, Quote)>) -> JsonView {
    JsonView::Arr(Seq::new(l.len(), |i: int| kurs_json(l[i].1@)))
}

pub open spec fn uker_json(l: Seq<WeekRow>) -> JsonView {
    JsonView::Arr(Seq::new(l.len(), |i: int| uke_json(l[i]@)))
}

pub open spec fn rader_json(l: Seq<MarketRow>) -> JsonView {
    JsonView::Arr(Seq::new(l.len(), |i: int| rad_json(l[i]@)))
}

pub open spec fn alle_fond_json(l: Seq<MarketRow>) -> JsonView {
    JsonView::Arr(Seq::new(l.len(), |i: int| fond_json(l[i]@)))
}

fn lag_kurser(l: &Vec<(String, Quote)>) -> (r: Json)
    ensures
        r@ == kurser_json(l@),
{
    let mut ut: Vec<Json> = Vec::new();
    let mut i: usize = 0;
    while i < l.len()
        invariant
            i <= l@.len(),
            ut@.len() == i,
            forall|k: int| 0 <= k < i ==> (#[trigger] ut@[k])@ == kurs_json(l@[k].1@),
        decreases l.len() - i,
    {
        ut.push(lag_kurs(&l[i].1));
        i += 1;
    }
    assert(json::syner(ut@) =~= kurser_json(l@)->Arr_0);
    json::liste_av(ut)
}

fn lag_uker(l: &Vec<WeekRow>) -> (r: Json)
    ensures
        r@ == uker_json(l@),
{
    let mut ut: Vec<Json> = Vec::new();
    let mut i: usize = 0;
    while i < l.len()
        invariant
            i <= l@.len(),
            ut@.len() == i,
            forall|k: int| 0 <= k < i ==> (#[trigger] ut@[k])@ == uke_json(l@[k]@),
        decreases l.len() - i,
    {
        ut.push(lag_uke(&l[i]));
        i += 1;
    }
    assert(json::syner(ut@) =~= uker_json(l@)->Arr_0);
    json::liste_av(ut)
}

fn lag_rader(l: &Vec<MarketRow>) -> (r: Json)
    ensures
        r@ == rader_json(l@),
{
    let mut ut: Vec<Json> = Vec::new();
    let mut i: usize = 0;
    while i < l.len()
        invariant
            i <= l@.len(),
            ut@.len() == i,
            forall|k: int| 0 <= k < i ==> (#[trigger] ut@[k])@ == rad_json(l@[k]@),
        decreases l.len() - i,
    {
        ut.push(lag_rad(&l[i]));
        i += 1;
    }
    assert(json::syner(ut@) =~= rader_json(l@)->Arr_0);
    json::liste_av(ut)
}

fn lag_alle_fond(l: &Vec<MarketRow>) -> (r: Json)
    ensures
        r@ == alle_fond_json(l@),
{
    let mut ut: Vec<Json> = Vec::new();
    let mut i: usize = 0;
    while i < l.len()
        invariant
            i <= l@.len(),
            ut@.len() == i,
            forall|k: int| 0 <= k < i ==> (#[trigger] ut@[k])@ == fond_json(l@[k]@),
        decreases l.len() - i,
    {
        ut.push(lag_fond(&l[i]));
        i += 1;
    }
    assert(json::syner(ut@) =~= alle_fond_json(l@)->Arr_0);
    json::liste_av(ut)
}

pub open spec fn marked_json(st: UiState, dato: Seq<char>) -> JsonView {
    JsonView::Obj(
        seq![
            ("dato"@, JsonView::Str(dato)),
            ("merknad"@, JsonView::Str("Kurser fra Yahoo Finance, ca. 15 min forsinket."@)),
            ("watchlist_kurser"@, kurser_json(st.quotes.rader@)),
            ("oslo_bors_teknisk_analyse"@, uker_json(st.market.week@)),
            ("dagens_mest_omsatte"@, rader_json(st.market.most_traded@)),
            ("fond_og_etf"@, alle_fond_json(st.market.funds@)),
        ],
    )
}

/// A picture of the market.
pub fn market_context(st: &UiState, dato: &str) -> (r: String)
    ensures
        r@ == json::json_kompakt(json::lagt(marked_json(*st, dato@))),
{
    let l: Vec<(String, Json)> = vec![
        json::felt_av("dato", json::tekst(dato)),
        json::felt_av("merknad", json::tekst("Kurser fra Yahoo Finance, ca. 15 min forsinket.")),
        json::felt_av("watchlist_kurser", lag_kurser(&st.quotes.rader)),
        json::felt_av("oslo_bors_teknisk_analyse", lag_uker(&st.market.week)),
        json::felt_av("dagens_mest_omsatte", lag_rader(&st.market.most_traded)),
        json::felt_av("fond_og_etf", lag_alle_fond(&st.market.funds)),
    ];
    assert(json::par(l@) =~= marked_json(*st, dato@)->Obj_0);
    json::skriv(&json::objekt(l))
}

// ---------------------------------------------------------------------------
// One share
// ---------------------------------------------------------------------------

/// The highest price at or after a time, or the lowest.
pub open spec fn ytterst(h: Seq<(i64, i64)>, siden: int, hoyest: bool) -> Option<int>
    decreases h.len(),
{
    if h.len() == 0 {
        None
    } else {
        let for_ = ytterst(h.drop_last(), siden, hoyest);
        let p = h.last().1 as int;
        if h.last().0 < siden {
            for_
        } else {
            match for_ {
                Some(v) => if (hoyest && v >= p) || (!hoyest && v <= p) {
                    Some(v)
                } else {
                    Some(p)
                },
                None => Some(p),
            }
        }
    }
}

fn finn_ytterst(h: &Vec<(i64, i64)>, siden: i64, hoyest: bool) -> (r: Option<i64>)
    ensures
        heltall(r) == ytterst(h@, siden as int, hoyest),
{
    let mut ut: Option<i64> = None;
    let mut i: usize = 0;
    assert(h@.take(0) =~= Seq::empty());
    while i < h.len()
        invariant
            i <= h@.len(),
            heltall(ut) == ytterst(h@.take(i as int), siden as int, hoyest),
        decreases h.len() - i,
    {
        proof {
            assert(h@.take(i + 1).drop_last() =~= h@.take(i as int));
            assert(h@.take(i + 1).last() == h@[i as int]);
        }
        if h[i].0 >= siden {
            let p: i64 = h[i].1;
            ut = match ut {
                Some(v) => if (hoyest && v >= p) || (!hoyest && v <= p) {
                    Some(v)
                } else {
                    Some(p)
                },
                None => Some(p),
            };
        }
        i += 1;
    }
    assert(h@.take(i as int) =~= h@);
    ut
}

/// A year, in seconds.
pub const AAR: i64 = 31_536_000;

pub open spec fn historikk_json(h: Seq<(i64, i64)>, naa: int) -> JsonView {
    JsonView::Obj(
        seq![
            ("hoyeste_52_uker"@, kanskje_tall(ytterst(h, naa - AAR, true))),
            ("laveste_52_uker"@, kanskje_tall(ytterst(h, naa - AAR, false))),
            ("rsi_14"@, kanskje_tall(market::rsi_verdi(state::priser(h), 14))),
            ("antall_dager_historikk"@, JsonView::Hel(h.len() as int)),
        ],
    )
}

fn lag_historikk(h: &Vec<(i64, i64)>, naa: i64) -> (r: Json)
    requires
        naa >= i64::MIN + AAR,
    ensures
        r@ == historikk_json(h@, naa as int),
{
    let p: Vec<i64> = hent_priser(h);
    let siden: i64 = naa - AAR;
    let l: Vec<(String, Json)> = vec![
        json::felt_av("hoyeste_52_uker", lag_kanskje_tall(finn_ytterst(h, siden, true))),
        json::felt_av("laveste_52_uker", lag_kanskje_tall(finn_ytterst(h, siden, false))),
        json::felt_av("rsi_14", lag_kanskje_tall(market::rsi(p.as_slice(), 14))),
        json::felt_av("antall_dager_historikk", Json::Hel(h.len() as i128)),
    ];
    assert(json::par(l@) =~= historikk_json(h@, naa as int)->Obj_0);
    json::objekt(l)
}

/// The first row of the week's analysis of a symbol.
pub open spec fn uke_for(l: Seq<WeekRow>, symbol: Seq<char>, i: int) -> Option<UkeSyn>
    decreases l.len() - i,
{
    if i < 0 || i >= l.len() {
        None
    } else if l[i].symbol@ == symbol {
        Some(l[i]@)
    } else {
        uke_for(l, symbol, i + 1)
    }
}

pub open spec fn kort_uke_json(w: UkeSyn) -> JsonView {
    JsonView::Obj(
        seq![
            ("uke_pct"@, tall(w.week_pct as int)),
            ("rsi"@, tall(w.rsi)),
            ("trend_opp"@, JsonView::Bool(w.trend_up)),
            ("sving_pct_per_dag"@, tall(w.range_pct as int)),
        ],
    )
}

pub open spec fn ukesanalyse_json(l: Seq<WeekRow>, symbol: Seq<char>) -> JsonView {
    match uke_for(l, symbol, 0) {
        Some(w) => kort_uke_json(w),
        None => JsonView::Null,
    }
}

fn lag_ukesanalyse(l: &Vec<WeekRow>, symbol: &str) -> (r: Json)
    ensures
        r@ == ukesanalyse_json(l@, symbol@),
{
    let mut i: usize = 0;
    while i < l.len()
        invariant
            i <= l@.len(),
            uke_for(l@, symbol@, 0) == uke_for(l@, symbol@, i as int),
        decreases l.len() - i,
    {
        let w: &WeekRow = &l[i];
        if same(w.symbol.as_str(), symbol) {
            let f: Vec<(String, Json)> = vec![
                json::felt_av("uke_pct", lag_tall(w.week_pct)),
                json::felt_av("rsi", lag_tall(w.rsi as i128)),
                json::felt_av("trend_opp", Json::Bool(w.trend_up)),
                json::felt_av("sving_pct_per_dag", lag_tall(w.range_pct)),
            ];
            assert(json::par(f@) =~= kort_uke_json(w@)->Obj_0);
            return json::objekt(f);
        }
        i += 1;
    }
    Json::Null
}

pub open spec fn enkel_kurs_json(q: KursSyn) -> JsonView {
    JsonView::Obj(
        seq![
            ("siste"@, tall(q.last)),
            ("endring_i_dag_pct"@, tall(types::endring_pct(q.last, q.prev_close))),
            ("valuta"@, JsonView::Str(q.currency)),
        ],
    )
}

pub open spec fn gevinst(p: PosisjonSyn) -> int {
    (p.last - p.avg_price) * p.qty
}

pub open spec fn egen_posisjon_json(p: PosisjonSyn) -> JsonView {
    JsonView::Obj(
        seq![
            ("antall"@, tall(p.qty as int)),
            ("snittkurs"@, tall(p.avg_price as int)),
            ("urealisert_gevinst"@, verdi(gevinst(p))),
        ],
    )
}

fn lag_egen_posisjon(p: &Position) -> (r: Json)
    ensures
        r@ == egen_posisjon_json(p@),
{
    let f: Vec<(String, Json)> = vec![
        json::felt_av("antall", lag_tall(p.qty as i128)),
        json::felt_av("snittkurs", lag_tall(p.avg_price as i128)),
        json::felt_av("urealisert_gevinst", lag_verdi(p.unrealized())),
    ];
    assert(json::par(f@) =~= egen_posisjon_json(p@)->Obj_0);
    json::objekt(f)
}

/// What is known of a symbol in a table, or nothing.
pub open spec fn symbol_json(st: UiState, symbol: Seq<char>, dato: Seq<char>, naa: int) -> JsonView {
    JsonView::Obj(
        seq![
            ("dato"@, JsonView::Str(dato)),
            ("symbol"@, JsonView::Str(symbol)),
            ("merknad"@, JsonView::Str("Kurser fra Yahoo Finance, ca. 15 min forsinket."@)),
            (
                "kurs"@,
                if st.quotes@.dom().contains(symbol) {
                    enkel_kurs_json(st.quotes@[symbol]@)
                } else {
                    JsonView::Null
                },
            ),
            (
                "historikk"@,
                if st.history@.dom().contains(symbol) {
                    historikk_json(st.history@[symbol]@, naa)
                } else {
                    JsonView::Null
                },
            ),
            ("ukesanalyse"@, ukesanalyse_json(st.market.week@, symbol)),
            (
                "brukerens_posisjon"@,
                match paper::holdt(types::posisjoner(st.positions@), symbol) {
                    Some(p) => egen_posisjon_json(p),
                    None => JsonView::Null,
                },
            ),
            ("utbytte_siste_12mnd_per_aksje"@, utbytte_json(st, symbol)),
        ],
    )
}

pub open spec fn utbytte_json(st: UiState, symbol: Seq<char>) -> JsonView {
    if st.dividends@.dom().contains(symbol) {
        tall(st.dividends@[symbol] as int)
    } else {
        JsonView::Null
    }
}

fn lag_utbytte(st: &UiState, symbol: &str) -> (r: Json)
    requires
        st.gyldig(),
    ensures
        r@ == utbytte_json(*st, symbol@),
{
    match st.dividends.hent(symbol) {
        Some(v) => lag_tall(*v as i128),
        None => Json::Null,
    }
}

/// A picture of one share: its price, its year, the week, and what is held.
pub fn symbol_context(st: &UiState, symbol: &str, dato: &str, naa: i64) -> (r: String)
    requires
        st.gyldig(),
        naa >= i64::MIN + AAR,
    ensures
        r@ == json::json_kompakt(json::lagt(symbol_json(*st, symbol@, dato@, naa as int))),
{
    let kurs: Json = match st.quotes.hent(symbol) {
        Some(q) => {
            let f: Vec<(String, Json)> = vec![
                json::felt_av("siste", lag_tall(q.last as i128)),
                json::felt_av("endring_i_dag_pct", lag_tall(q.change_pct())),
                json::felt_av("valuta", json::tekst(q.currency.as_str())),
            ];
            assert(json::par(f@) =~= enkel_kurs_json(q@)->Obj_0);
            json::objekt(f)
        },
        None => Json::Null,
    };
    let historikk: Json = match st.history.hent(symbol) {
        Some(h) => lag_historikk(h, naa),
        None => Json::Null,
    };
    let posisjon: Json = match finn_posisjon(&st.positions, symbol) {
        Some(p) => lag_egen_posisjon(p),
        None => Json::Null,
    };
    let l: Vec<(String, Json)> = vec![
        json::felt_av("dato", json::tekst(dato)),
        json::felt_av("symbol", json::tekst(symbol)),
        json::felt_av("merknad", json::tekst("Kurser fra Yahoo Finance, ca. 15 min forsinket.")),
        json::felt_av("kurs", kurs),
        json::felt_av("historikk", historikk),
        json::felt_av("ukesanalyse", lag_ukesanalyse(&st.market.week, symbol)),
        json::felt_av("brukerens_posisjon", posisjon),
        json::felt_av("utbytte_siste_12mnd_per_aksje", lag_utbytte(st, symbol)),
    ];
    assert(json::par(l@) =~= symbol_json(*st, symbol@, dato@, naa as int)->Obj_0);
    json::skriv(&json::objekt(l))
}

// ---------------------------------------------------------------------------
// The portfolio
// ---------------------------------------------------------------------------

/// The currency of a symbol and its change today, empty and nothing where no
/// quote is known.
pub open spec fn valuta_og_dag(st: UiState, symbol: Seq<char>) -> (Seq<char>, int) {
    if st.quotes@.dom().contains(symbol) {
        let q = st.quotes@[symbol]@;
        (q.currency, types::endring_pct(q.last, q.prev_close))
    } else {
        (Seq::empty(), 0)
    }
}

pub open spec fn beholdning_json(st: UiState, p: PosisjonSyn) -> JsonView {
    JsonView::Obj(
        seq![
            ("symbol"@, JsonView::Str(p.symbol)),
            ("antall"@, tall(p.qty as int)),
            ("snittkurs"@, tall(p.avg_price as int)),
            ("siste_kurs"@, tall(p.last as int)),
            ("verdi"@, verdi(p.qty * p.last)),
            ("urealisert_gevinst"@, verdi(gevinst(p))),
            ("valuta"@, JsonView::Str(valuta_og_dag(st, p.symbol).0)),
            ("endring_i_dag_pct"@, tall(valuta_og_dag(st, p.symbol).1)),
            ("utbytte_12mnd_per_aksje"@, utbytte_json(st, p.symbol)),
        ],
    )
}

fn lag_beholdning(st: &UiState, p: &Position) -> (r: Json)
    requires
        st.gyldig(),
    ensures
        r@ == beholdning_json(*st, p@),
{
    let (valuta, dag): (String, i128) = match st.quotes.hent(p.symbol.as_str()) {
        Some(q) => (copy_text(&q.currency), q.change_pct()),
        None => (string_of(&[]), 0),
    };
    assert(valuta@ =~= valuta_og_dag(*st, p.symbol@).0);
    let l: Vec<(String, Json)> = vec![
        json::felt_av("symbol", json::tekst(p.symbol.as_str())),
        json::felt_av("antall", lag_tall(p.qty as i128)),
        json::felt_av("snittkurs", lag_tall(p.avg_price as i128)),
        json::felt_av("siste_kurs", lag_tall(p.last as i128)),
        json::felt_av("verdi", lag_verdi(p.market_value())),
        json::felt_av("urealisert_gevinst", lag_verdi(p.unrealized())),
        json::felt_av("valuta", json::tekst(valuta.as_str())),
        json::felt_av("endring_i_dag_pct", lag_tall(dag)),
        json::felt_av("utbytte_12mnd_per_aksje", lag_utbytte(st, p.symbol.as_str())),
    ];
    assert(json::par(l@) =~= beholdning_json(*st, p@)->Obj_0);
    json::objekt(l)
}

/// The symbols that are followed and not held.
pub open spec fn ikke_eid(l: Seq<Seq<char>>, eide: Seq<PosisjonSyn>) -> Seq<JsonView>
    decreases l.len(),
{
    if l.len() == 0 {
        Seq::empty()
    } else if paper::holdt(eide, l.last()) is Some {
        ikke_eid(l.drop_last(), eide)
    } else {
        ikke_eid(l.drop_last(), eide).push(JsonView::Str(l.last()))
    }
}

fn lag_ikke_eid(l: &Vec<String>, positions: &Vec<Position>) -> (r: Json)
    ensures
        r@ == JsonView::Arr(ikke_eid(text::views(l@), types::posisjoner(positions@))),
{
    let ghost alle = text::views(l@);
    let ghost eide = types::posisjoner(positions@);
    let mut ut: Vec<Json> = Vec::new();
    let mut i: usize = 0;
    assert(alle.take(0) =~= Seq::empty());
    assert(json::syner(ut@) =~= Seq::empty());
    while i < l.len()
        invariant
            i <= l@.len(),
            alle == text::views(l@),
            eide == types::posisjoner(positions@),
            json::syner(ut@) == ikke_eid(alle.take(i as int), eide),
        decreases l.len() - i,
    {
        proof {
            assert(alle.take(i + 1).drop_last() =~= alle.take(i as int));
            assert(alle.take(i + 1).last() == l@[i as int]@);
        }
        let ghost for_ = json::syner(ut@);
        if finn_posisjon(positions, l[i].as_str()).is_none() {
            ut.push(json::tekst(l[i].as_str()));
            assert(json::syner(ut@) =~= for_.push(JsonView::Str(l@[i as int]@)));
        }
        i += 1;
    }
    assert(alle.take(i as int) =~= alle);
    json::liste_av(ut)
}

pub open spec fn portefolje_json(st: UiState, dato: Seq<char>) -> JsonView {
    JsonView::Obj(
        seq![
            ("dato"@, JsonView::Str(dato)),
            ("merknad"@, JsonView::Str("Verdier i posisjonens egen valuta. Kurser ca. 15 min forsinket."@)),
            ("kontanter"@, verdi(st.cash as int)),
            ("egenkapital"@, verdi(st.equity as int)),
            (
                "posisjoner"@,
                JsonView::Arr(Seq::new(st.positions@.len(), |i: int| beholdning_json(st, st.positions@[i]@))),
            ),
            (
                "watchlist_ikke_eid"@,
                JsonView::Arr(ikke_eid(text::views(st.watchlist@), types::posisjoner(st.positions@))),
            ),
        ],
    )
}

/// A picture of the portfolio: what is held, the cash, and what is followed but
/// not held.
pub fn portfolio_context(st: &UiState, dato: &str) -> (r: String)
    requires
        st.gyldig(),
    ensures
        r@ == json::json_kompakt(json::lagt(portefolje_json(*st, dato@))),
{
    let ghost hele = portefolje_json(*st, dato@)->Obj_0;
    let mut pos: Vec<Json> = Vec::new();
    let mut i: usize = 0;
    while i < st.positions.len()
        invariant
            i <= st.positions@.len(),
            st.gyldig(),
            pos@.len() == i,
            forall|k: int| 0 <= k < i ==> (#[trigger] pos@[k])@ == beholdning_json(*st, st.positions@[k]@),
        decreases st.positions.len() - i,
    {
        pos.push(lag_beholdning(st, &st.positions[i]));
        i += 1;
    }
    assert(json::syner(pos@) =~= hele[4].1->Arr_0);
    let l: Vec<(String, Json)> = vec![
        json::felt_av("dato", json::tekst(dato)),
        json::felt_av("merknad", json::tekst("Verdier i posisjonens egen valuta. Kurser ca. 15 min forsinket.")),
        json::felt_av("kontanter", lag_verdi(st.cash)),
        json::felt_av("egenkapital", lag_verdi(st.equity)),
        json::felt_av("posisjoner", json::liste_av(pos)),
        json::felt_av("watchlist_ikke_eid", lag_ikke_eid(&st.watchlist, &st.positions)),
    ];
    assert(json::par(l@) =~= hele);
    json::skriv(&json::objekt(l))
}

// ---------------------------------------------------------------------------
// The council
// ---------------------------------------------------------------------------

pub open spec fn raads_posisjon_json(p: PosisjonSyn) -> JsonView {
    JsonView::Obj(
        seq![
            ("symbol"@, JsonView::Str(p.symbol)),
            ("antall"@, tall(p.qty as int)),
            ("verdi"@, verdi(p.qty * p.last)),
            ("urealisert"@, verdi(gevinst(p))),
        ],
    )
}

pub open spec fn raads_uke_json(w: UkeSyn) -> JsonView {
    JsonView::Obj(
        seq![
            ("symbol"@, JsonView::Str(w.symbol)),
            ("uke_pct"@, tall(w.week_pct as int)),
            ("rsi"@, tall(w.rsi)),
            ("trend_opp"@, JsonView::Bool(w.trend_up)),
        ],
    )
}

pub open spec fn raads_portefolje_json(st: UiState) -> JsonView {
    JsonView::Obj(
        seq![
            ("egenkapital"@, verdi(st.equity as int)),
            ("kontanter"@, verdi(st.cash as int)),
            ("antall_posisjoner"@, JsonView::Hel(st.positions@.len() as int)),
            (
                "posisjoner"@,
                JsonView::Arr(Seq::new(st.positions@.len(), |i: int| raads_posisjon_json(st.positions@[i]@))),
            ),
        ],
    )
}

pub open spec fn daytrader_json(st: UiState, laerdom: Seq<char>) -> JsonView {
    JsonView::Obj(
        seq![
            (
                "aktiv_symbol"@,
                if st.quotes.rader@.len() > 0 {
                    JsonView::Str(st.quotes.rader@[0].0@)
                } else {
                    JsonView::Null
                },
            ),
            (
                "dagens_journal"@,
                JsonView::Arr(Seq::new(st.autopilot_journal@.len(), |i: int| JsonView::Str(st.autopilot_journal@[i]@))),
            ),
            (
                "siste_status"@,
                match st.autopilot_status {
                    Some(s) => JsonView::Str(s@),
                    None => JsonView::Null,
                },
            ),
            ("laerdom_hittil"@, JsonView::Str(laerdom)),
        ],
    )
}

/// The first eight rows of the week's analysis.
pub open spec fn raads_marked_json(l: Seq<WeekRow>) -> JsonView {
    JsonView::Arr(
        Seq::new(
            if l.len() < 8 {
                l.len()
            } else {
                8
            },
            |i: int| raads_uke_json(l[i]@),
        ),
    )
}

pub open spec fn raad_json(st: UiState, dato: Seq<char>, laerdom: Seq<char>) -> JsonView {
    JsonView::Obj(
        seq![
            ("dato"@, JsonView::Str(dato)),
            ("portefolje"@, raads_portefolje_json(st)),
            ("daytrader"@, daytrader_json(st, laerdom)),
            ("marked"@, raads_marked_json(st.market.week@)),
        ],
    )
}

/// A list of texts.
pub fn lag_tekster(l: &Vec<String>) -> (r: Json)
    ensures
        r@ == JsonView::Arr(Seq::new(l@.len(), |i: int| JsonView::Str(l@[i]@))),
{
    let mut ut: Vec<Json> = Vec::new();
    let mut i: usize = 0;
    while i < l.len()
        invariant
            i <= l@.len(),
            ut@.len() == i,
            forall|k: int| 0 <= k < i ==> (#[trigger] ut@[k])@ == JsonView::Str(l@[k]@),
        decreases l.len() - i,
    {
        ut.push(json::tekst(l[i].as_str()));
        i += 1;
    }
    assert(json::syner(ut@) =~= Seq::new(l@.len(), |i: int| JsonView::Str(l@[i]@)));
    json::liste_av(ut)
}

fn lag_raads_portefolje(st: &UiState) -> (r: Json)
    ensures
        r@ == raads_portefolje_json(*st),
{
    let ghost hele = raads_portefolje_json(*st)->Obj_0;
    let mut pos: Vec<Json> = Vec::new();
    let mut i: usize = 0;
    while i < st.positions.len()
        invariant
            i <= st.positions@.len(),
            pos@.len() == i,
            forall|k: int| 0 <= k < i ==> (#[trigger] pos@[k])@ == raads_posisjon_json(st.positions@[k]@),
        decreases st.positions.len() - i,
    {
        let p: &Position = &st.positions[i];
        let f: Vec<(String, Json)> = vec![
            json::felt_av("symbol", json::tekst(p.symbol.as_str())),
            json::felt_av("antall", lag_tall(p.qty as i128)),
            json::felt_av("verdi", lag_verdi(p.market_value())),
            json::felt_av("urealisert", lag_verdi(p.unrealized())),
        ];
        assert(json::par(f@) =~= raads_posisjon_json(p@)->Obj_0);
        pos.push(json::objekt(f));
        i += 1;
    }
    assert(json::syner(pos@) =~= hele[3].1->Arr_0);
    let l: Vec<(String, Json)> = vec![
        json::felt_av("egenkapital", lag_verdi(st.equity)),
        json::felt_av("kontanter", lag_verdi(st.cash)),
        json::felt_av("antall_posisjoner", Json::Hel(st.positions.len() as i128)),
        json::felt_av("posisjoner", json::liste_av(pos)),
    ];
    assert(json::par(l@) =~= hele);
    json::objekt(l)
}

fn lag_daytrader(st: &UiState, laerdom: &str) -> (r: Json)
    ensures
        r@ == daytrader_json(*st, laerdom@),
{
    let aktiv: Json = if st.quotes.rader.len() > 0 {
        json::tekst(st.quotes.rader[0].0.as_str())
    } else {
        Json::Null
    };
    let status: Json = match &st.autopilot_status {
        Some(s) => json::tekst(s.as_str()),
        None => Json::Null,
    };
    let l: Vec<(String, Json)> = vec![
        json::felt_av("aktiv_symbol", aktiv),
        json::felt_av("dagens_journal", lag_tekster(&st.autopilot_journal)),
        json::felt_av("siste_status", status),
        json::felt_av("laerdom_hittil", json::tekst(laerdom)),
    ];
    assert(json::par(l@) =~= daytrader_json(*st, laerdom@)->Obj_0);
    json::objekt(l)
}

fn lag_raads_marked(l: &Vec<WeekRow>) -> (r: Json)
    ensures
        r@ == raads_marked_json(l@),
{
    let mut ut: Vec<Json> = Vec::new();
    let mut i: usize = 0;
    while i < l.len() && i < 8
        invariant
            i <= l@.len(),
            i <= 8,
            ut@.len() == i,
            forall|k: int| 0 <= k < i ==> (#[trigger] ut@[k])@ == raads_uke_json(l@[k]@),
        decreases l.len() - i,
    {
        let w: &WeekRow = &l[i];
        let f: Vec<(String, Json)> = vec![
            json::felt_av("symbol", json::tekst(w.symbol.as_str())),
            json::felt_av("uke_pct", lag_tall(w.week_pct)),
            json::felt_av("rsi", lag_tall(w.rsi as i128)),
            json::felt_av("trend_opp", Json::Bool(w.trend_up)),
        ];
        assert(json::par(f@) =~= raads_uke_json(w@)->Obj_0);
        ut.push(json::objekt(f));
        i += 1;
    }
    assert(json::syner(ut@) =~= raads_marked_json(l@)->Arr_0);
    json::liste_av(ut)
}

/// A picture for the council: the portfolio, the day trader's tracks, and the
/// market.
pub fn council_context(st: &UiState, dato: &str, daytrader_lesson: &str) -> (r: String)
    ensures
        r@ == json::json_kompakt(json::lagt(raad_json(*st, dato@, daytrader_lesson@))),
{
    let l: Vec<(String, Json)> = vec![
        json::felt_av("dato", json::tekst(dato)),
        json::felt_av("portefolje", lag_raads_portefolje(st)),
        json::felt_av("daytrader", lag_daytrader(st, daytrader_lesson)),
        json::felt_av("marked", lag_raads_marked(&st.market.week)),
    ];
    assert(json::par(l@) =~= raad_json(*st, dato@, daytrader_lesson@)->Obj_0);
    json::skriv(&json::objekt(l))
}

/// The highest price since a time is one of the prices since then, and none of
/// them is above it; so with the lowest, and none below.
pub proof fn law_ytterst(h: Seq<(i64, i64)>, siden: int, hoyest: bool)
    ensures
        ytterst(h, siden, hoyest) is None <==> (forall|i: int| 0 <= i < h.len() ==> (#[trigger] h[i]).0 < siden),
        ytterst(h, siden, hoyest) matches Some(v) ==> (exists|i: int|
            0 <= i < h.len() && (#[trigger] h[i]).0 >= siden && h[i].1 == v),
        ytterst(h, siden, hoyest) matches Some(v) ==> (forall|i: int|
            0 <= i < h.len() && (#[trigger] h[i]).0 >= siden ==> if hoyest {
                h[i].1 <= v
            } else {
                h[i].1 >= v
            }),
    decreases h.len(),
{
    if h.len() > 0 {
        let d = h.drop_last();
        law_ytterst(d, siden, hoyest);
        assert forall|i: int| 0 <= i < d.len() implies #[trigger] h[i] == d[i] by {}
        assert(h[h.len() - 1] == h.last());
        match ytterst(d, siden, hoyest) {
            Some(v) => {
                let i = choose|i: int| 0 <= i < d.len() && (#[trigger] d[i]).0 >= siden && d[i].1 == v;
                assert(h[i] == d[i]);
            },
            None => {
                if h.last().0 < siden {
                    assert forall|i: int| 0 <= i < h.len() implies (#[trigger] h[i]).0 < siden by {
                        if i < d.len() {
                            assert(d[i].0 < siden);
                        }
                    }
                }
            },
        }
    }
}

/// A gain is what a holding is worth less what it cost.
pub proof fn law_gevinst(p: PosisjonSyn)
    ensures
        gevinst(p) + p.qty * p.avg_price == p.qty * p.last,
{
    assert((p.last - p.avg_price) * p.qty + p.qty * p.avg_price == p.qty * p.last) by (nonlinear_arith);
}

/// What is watched and not held is told of, in the order that it is watched.
pub proof fn law_ikke_eid(l: Seq<Seq<char>>, eide: Seq<PosisjonSyn>)
    ensures
        ikke_eid(l, eide) == l.filter(
            |s: Seq<char>| forall|i: int| 0 <= i < eide.len() ==> (#[trigger] eide[i]).symbol != s,
        ).map_values(|s: Seq<char>| JsonView::Str(s)),
    decreases l.len(),
{
    let p = |s: Seq<char>| forall|i: int| 0 <= i < eide.len() ==> (#[trigger] eide[i]).symbol != s;
    let f = |s: Seq<char>| JsonView::Str(s);
    reveal(Seq::filter);
    if l.len() > 0 {
        law_ikke_eid(l.drop_last(), eide);
        lemma_holdt(eide, l.last());
        let q = l.drop_last().filter(p);
        assert(q.push(l.last()).map_values(f) =~= q.map_values(f).push(f(l.last())));
    } else {
        assert(l.filter(p).map_values(f) =~= Seq::<JsonView>::empty());
    }
}

proof fn lemma_holdt(l: Seq<PosisjonSyn>, symbol: Seq<char>)
    ensures
        paper::holdt(l, symbol) is None <==> (forall|i: int| 0 <= i < l.len() ==> (#[trigger] l[i]).symbol != symbol),
    decreases l.len(),
{
    if l.len() > 0 {
        let r = l.skip(1);
        lemma_holdt(r, symbol);
        if forall|i: int| 0 <= i < l.len() ==> (#[trigger] l[i]).symbol != symbol {
            assert forall|i: int| 0 <= i < r.len() implies (#[trigger] r[i]).symbol != symbol by {
                assert(l[i + 1].symbol != symbol);
            }
            assert(l[0].symbol != symbol);
        }
        if l[0].symbol != symbol && (forall|i: int| 0 <= i < r.len() ==> (#[trigger] r[i]).symbol != symbol) {
            assert forall|i: int| 0 <= i < l.len() implies (#[trigger] l[i]).symbol != symbol by {
                if i > 0 {
                    assert(r[i - 1].symbol != symbol);
                }
            }
        }
    }
}

}
