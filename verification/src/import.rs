//! Trades read from the export of Nordnet: a table with tabulators or
//! semicolons, in UTF-8 or UTF-16, its columns known by their names.
use vstd::prelude::*;

use crate::belop;
use crate::dato;
use crate::dato::Dato;
use crate::number_text;
use crate::order;
use crate::text;
use crate::text::{chars_of, copy_text, string_of, two};

verus! {

/// One trade of the file, ready to be saved as a filled order.
#[derive(Debug)]
pub struct ImportedTrade {
    /// The same for the same trade, so that it is not saved twice.
    pub id: String,
    pub ts_rfc3339: String,
    /// The name of the paper as it is written.
    pub symbol: String,
    pub is_buy: bool,
    pub qty: i64,
    pub price: i64,
}

#[verifier::ext_equal]
pub struct ImportSyn {
    pub id: Seq<char>,
    pub ts: Seq<char>,
    pub symbol: Seq<char>,
    pub is_buy: bool,
    pub qty: int,
    pub price: int,
    /// The number of the day.
    pub dag: int,
}

/// Whether a trade is what a contract says of it.
pub open spec fn svarer(t: ImportedTrade, s: ImportSyn) -> bool {
    t.id@ == s.id && t.ts_rfc3339@ == s.ts && t.symbol@ == s.symbol && t.is_buy == s.is_buy && t.qty == s.qty
        && t.price == s.price
}

// ---------------------------------------------------------------------------
// Bytes
// ---------------------------------------------------------------------------

/// Bytes as text, with a mark for what is no UTF-8.
pub uninterp spec fn utf8_tekst(b: Seq<u8>) -> Seq<char>;

/// `String::from_utf8_lossy`: a function of the bytes; valid UTF-8 gives the
/// text that it encodes.
#[verifier::external_body]
fn fra_utf8(b: &[u8]) -> (r: String)
    ensures
        r@ == utf8_tekst(b@),
        vstd::utf8::valid_utf8(b@) ==> r@ == vstd::utf8::decode_utf8(b@),
{
    String::from_utf8_lossy(b).into_owned()
}

/// The first half of a pair.
pub open spec fn forste_halvdel(u: u16) -> bool {
    0xD800 <= u <= 0xDBFF
}

/// The second half of a pair.
pub open spec fn andre_halvdel(u: u16) -> bool {
    0xDC00 <= u <= 0xDFFF
}

/// The code that a pair stands for.
pub open spec fn par_kode(a: u16, b: u16) -> int {
    0x10000 + (a - 0xD800) * 0x400 + (b - 0xDC00)
}

/// UTF-16 as text: a pair is one character, half of one by itself is the
/// replacement mark, and any other unit is the code of its character.
pub open spec fn utf16_tekst(b: Seq<u16>) -> Seq<char>
    decreases b.len(),
{
    if b.len() == 0 {
        Seq::empty()
    } else if b.len() >= 2 && forste_halvdel(b[0]) && andre_halvdel(b[1]) {
        seq![par_kode(b[0], b[1]) as char] + utf16_tekst(b.skip(2))
    } else if forste_halvdel(b[0]) || andre_halvdel(b[0]) {
        seq!['\u{FFFD}'] + utf16_tekst(b.skip(1))
    } else {
        seq![b[0] as char] + utf16_tekst(b.skip(1))
    }
}

/// `String::from_utf16_lossy`: pairs are put together, and half of a pair by
/// itself becomes the replacement mark.
#[verifier::external_body]
fn fra_utf16(b: &Vec<u16>) -> (r: String)
    ensures
        r@ == utf16_tekst(b@),
{
    String::from_utf16_lossy(b)
}

/// The units of bytes, two for each; a byte left over is dropped.
pub open spec fn enheter(b: Seq<u8>, lav_forst: bool) -> Seq<u16>
    decreases b.len(),
{
    if b.len() < 2 {
        Seq::empty()
    } else {
        let u = if lav_forst {
            b[0] + 256 * b[1]
        } else {
            b[1] + 256 * b[0]
        };
        seq![u as u16] + enheter(b.skip(2), lav_forst)
    }
}

/// The text of a file: UTF-16 with its mark in front, low or high byte first,
/// or UTF-8.
pub open spec fn dekodet(b: Seq<u8>) -> Seq<char> {
    if b.len() >= 2 && b[0] == 0xFF && b[1] == 0xFE {
        utf16_tekst(enheter(b.skip(2), true))
    } else if b.len() >= 2 && b[0] == 0xFE && b[1] == 0xFF {
        utf16_tekst(enheter(b.skip(2), false))
    } else {
        utf8_tekst(b)
    }
}

fn les_enheter(b: &[u8], lav_forst: bool) -> (r: Vec<u16>)
    requires
        b@.len() >= 2,
    ensures
        r@ == enheter(b@.skip(2), lav_forst),
{
    let n: usize = b.len();
    let mut ut: Vec<u16> = Vec::new();
    let mut i: usize = 2;
    assert(ut@ + enheter(b@.skip(2), lav_forst) =~= enheter(b@.skip(2), lav_forst));
    while n - i >= 2
        invariant
            2 <= i <= n,
            n == b@.len(),
            ut@ + enheter(b@.skip(i as int), lav_forst) == enheter(b@.skip(2), lav_forst),
        decreases n - i,
    {
        let u: u16 = if lav_forst {
            b[i] as u16 + 256 * b[i + 1] as u16
        } else {
            b[i + 1] as u16 + 256 * b[i] as u16
        };
        let ghost for_ = ut@;
        proof {
            assert(b@.skip(i as int).skip(2) =~= b@.skip(i + 2));
            assert(b@.skip(i as int)[0] == b@[i as int]);
            assert(b@.skip(i as int)[1] == b@[i + 1]);
        }
        ut.push(u);
        assert(ut@ + enheter(b@.skip(i + 2), lav_forst) =~= for_ + enheter(b@.skip(i as int), lav_forst));
        i += 2;
    }
    assert(ut@ + enheter(b@.skip(i as int), lav_forst) =~= ut@);
    ut
}

/// The units that a text is written with.
pub open spec fn utf16_av(s: Seq<char>) -> Seq<u16>
    decreases s.len(),
{
    if s.len() == 0 {
        Seq::empty()
    } else {
        let k = s[0] as int;
        if k < 0x10000 {
            seq![k as u16] + utf16_av(s.skip(1))
        } else {
            seq![(0xD800 + (k - 0x10000) / 0x400) as u16, (0xDC00 + (k - 0x10000) % 0x400) as u16] + utf16_av(
                s.skip(1),
            )
        }
    }
}

/// The bytes of units, low or high byte first.
pub open spec fn byter_av(u: Seq<u16>, lav_forst: bool) -> Seq<u8>
    decreases u.len(),
{
    if u.len() == 0 {
        Seq::empty()
    } else {
        let lav = (u[0] % 256) as u8;
        let hoy = (u[0] / 256) as u8;
        (if lav_forst {
            seq![lav, hoy]
        } else {
            seq![hoy, lav]
        }) + byter_av(u.skip(1), lav_forst)
    }
}

/// The mark in front of UTF-16.
pub open spec fn merke(lav_forst: bool) -> Seq<u8> {
    if lav_forst {
        seq![0xFF, 0xFE]
    } else {
        seq![0xFE, 0xFF]
    }
}

proof fn lemma_enheter_tilbake(u: Seq<u16>, lav_forst: bool, rest: Seq<u8>)
    requires
        rest.len() < 2,
    ensures
        enheter(byter_av(u, lav_forst) + rest, lav_forst) == u,
    decreases u.len(),
{
    let b = byter_av(u, lav_forst);
    if u.len() > 0 {
        lemma_enheter_tilbake(u.skip(1), lav_forst, rest);
        assert((b + rest).skip(2) =~= byter_av(u.skip(1), lav_forst) + rest);
        assert((u[0] % 256) + 256 * (u[0] / 256) == u[0]);
        assert(enheter(b + rest, lav_forst) =~= u);
    } else {
        assert(enheter(b + rest, lav_forst) =~= u);
    }
}

proof fn lemma_utf16_tilbake(s: Seq<char>)
    ensures
        utf16_tekst(utf16_av(s)) == s,
    decreases s.len(),
{
    if s.len() > 0 {
        let u = utf16_av(s);
        let k = s[0] as int;
        let kode = s[0] as u32;
        lemma_utf16_tilbake(s.skip(1));
        vstd::utf8::char_is_scalar(s[0]);
        vstd::utf8::char_u32_cast(s[0], kode);
        assert(kode == k);
        if k < 0x10000 {
            assert(u.skip(1) =~= utf16_av(s.skip(1)));
            assert(u[0] == k);
            assert(u[0] as char == s[0]);
        } else {
            assert(u.skip(2) =~= utf16_av(s.skip(1)));
            assert(par_kode(u[0], u[1]) == k);
            assert(par_kode(u[0], u[1]) as char == s[0]);
        }
        assert(utf16_tekst(u) =~= s);
    }
}

/// A text that was saved as UTF-16, low or high byte first and with its mark in
/// front, is read back as it was; an odd byte at the end is passed over.
pub proof fn law_utf16_leses_tilbake(s: Seq<char>, lav_forst: bool, rest: Seq<u8>)
    requires
        rest.len() < 2,
    ensures
        dekodet(merke(lav_forst) + byter_av(utf16_av(s), lav_forst) + rest) == s,
{
    let kropp = byter_av(utf16_av(s), lav_forst) + rest;
    let b = merke(lav_forst) + byter_av(utf16_av(s), lav_forst) + rest;
    assert(b.skip(2) =~= kropp);
    assert(b[0] == merke(lav_forst)[0] && b[1] == merke(lav_forst)[1]);
    lemma_enheter_tilbake(utf16_av(s), lav_forst, rest);
    lemma_utf16_tilbake(s);
}

/// UTF-8 never begins with the bytes of a mark.
proof fn lemma_utf8_uten_merke(b: Seq<u8>)
    requires
        vstd::utf8::valid_utf8(b),
        b.len() > 0,
    ensures
        b[0] != 0xFF,
        b[0] != 0xFE,
{
    vstd::utf8::utf8_byte_ranges_bitwise(b[0]);
}

/// The text of a file. One that was saved as UTF-8 is read back as it was.
pub fn decode(bytes: &[u8]) -> (r: String)
    ensures
        r@ == dekodet(bytes@),
        vstd::utf8::valid_utf8(bytes@) ==> r@ == vstd::utf8::decode_utf8(bytes@),
        forall|s: Seq<char>| bytes@ == #[trigger] vstd::utf8::encode_utf8(s) ==> r@ == s,
{
    proof {
        if vstd::utf8::valid_utf8(bytes@) && bytes@.len() > 0 {
            lemma_utf8_uten_merke(bytes@);
        }
        assert forall|s: Seq<char>| bytes@ == #[trigger] vstd::utf8::encode_utf8(s) implies vstd::utf8::valid_utf8(
            bytes@,
        ) && vstd::utf8::decode_utf8(bytes@) == s by {
            vstd::utf8::encode_utf8_valid_utf8(s);
            vstd::utf8::encode_utf8_decode_utf8(s);
        }
    }
    if bytes.len() >= 2 && bytes[0] == 0xFF && bytes[1] == 0xFE {
        let u: Vec<u16> = les_enheter(bytes, true);
        return fra_utf16(&u);
    }
    if bytes.len() >= 2 && bytes[0] == 0xFE && bytes[1] == 0xFF {
        let u: Vec<u16> = les_enheter(bytes, false);
        return fra_utf16(&u);
    }
    fra_utf8(bytes)
}

// ---------------------------------------------------------------------------
// Numbers
// ---------------------------------------------------------------------------

/// A number without its spaces and with a full stop for its comma.
pub open spec fn renset_tall(s: Seq<char>) -> Seq<char>
    decreases s.len(),
{
    if s.len() == 0 {
        s
    } else {
        let for_ = renset_tall(s.drop_last());
        let c = s.last();
        if c == ' ' || c == '\u{a0}' {
            for_
        } else if c == ',' {
            for_.push('.')
        } else {
            for_.push(c)
        }
    }
}

pub open spec fn norsk_tall(s: Seq<char>) -> int {
    match belop::belop_av(renset_tall(s)) {
        Some(b) => b,
        None => 0,
    }
}

fn les_norsk(s: &[char]) -> (r: i64)
    ensures
        r == norsk_tall(s@),
        r > i64::MIN,
{
    let mut ut: Vec<char> = Vec::new();
    let mut i: usize = 0;
    assert(s@.take(0) =~= Seq::empty());
    while i < s.len()
        invariant
            i <= s@.len(),
            ut@ == renset_tall(s@.take(i as int)),
        decreases s.len() - i,
    {
        assert(s@.take(i + 1).drop_last() =~= s@.take(i as int));
        let c: char = s[i];
        if c == ' ' || c == '\u{a0}' {
        } else if c == ',' {
            ut.push('.');
        } else {
            ut.push(c);
        }
        i += 1;
    }
    assert(s@.take(i as int) =~= s@);
    match belop::les_belop(ut.as_slice()) {
        Some(b) => b,
        None => 0,
    }
}

/// A number as it is written in Norwegian, `1 234,56`; 0 where it is none.
pub fn parse_norwegian_number(s: &str) -> (r: i64)
    ensures
        r == norsk_tall(s@),
{
    let cs: Vec<char> = chars_of(s);
    les_norsk(cs.as_slice())
}

// ---------------------------------------------------------------------------
// Columns
// ---------------------------------------------------------------------------

/// What stands in a cell: without white space and quotation marks round it.
pub open spec fn celle(s: Seq<char>) -> Seq<char> {
    text::strip_end(text::strip_start(text::trimmed(s), '"'), '"')
}

fn les_celle(s: &[char]) -> (r: String)
    ensures
        r@ == celle(s@),
{
    let t: Vec<char> = text::trim(s);
    let a: String = string_of(t.as_slice());
    let b: String = text::without_start(a.as_str(), '"');
    text::without_end(b.as_str(), '"')
}

/// The names of the columns, in lower case.
pub open spec fn kolonner(hode: Seq<char>, skille: char) -> Seq<Seq<char>> {
    text::split_on(hode, skille).map_values(|s: Seq<char>| text::lowercase(celle(s)))
}

pub open spec fn forste_lik(l: Seq<Seq<char>>, navn: Seq<char>, i: int) -> Option<int>
    decreases l.len() - i,
{
    if i < 0 || i >= l.len() {
        None
    } else if l[i] == navn {
        Some(i)
    } else {
        forste_lik(l, navn, i + 1)
    }
}

fn finn_kolonne(l: &Vec<String>, navn: &str) -> (r: Option<usize>)
    ensures
        (match forste_lik(text::views(l@), navn@, 0) {
            Some(i) => r == Some(i as usize) && i <= usize::MAX,
            None => r is None,
        }),
{
    let ghost alle = text::views(l@);
    let mut i: usize = 0;
    while i < l.len()
        invariant
            i <= l@.len(),
            alle == text::views(l@),
            forste_lik(alle, navn@, 0) == forste_lik(alle, navn@, i as int),
        decreases l.len() - i,
    {
        assert(alle[i as int] == l@[i as int]@);
        if text::same(l[i].as_str(), navn) {
            return Some(i);
        }
        i += 1;
    }
    None
}

/// Where the columns stand that a trade is read from.
#[derive(Debug, Clone, Copy, PartialEq, Eq, Structural)]
pub struct Plasser {
    pub i_type: usize,
    pub i_paper: usize,
    pub i_qty: usize,
    pub i_price: usize,
    pub i_date: usize,
    pub i_id: Option<usize>,
}

pub open spec fn eller(a: Option<int>, b: Option<int>) -> Option<int> {
    match a {
        Some(i) => Some(i),
        None => b,
    }
}

pub open spec fn plasser_av(k: Seq<Seq<char>>) -> Result<Plasser, Seq<char>> {
    let i_id = eller(
        forste_lik(k, "id"@, 0),
        eller(forste_lik(k, "transaksjons-id"@, 0), forste_lik(k, "verifikationsnummer"@, 0)),
    );
    match forste_lik(k, "transaksjonstype"@, 0) {
        None => Err("fant ikke kolonnen Transaksjonstype — er dette en Nordnet-eksport?"@),
        Some(t) => match forste_lik(k, "verdipapir"@, 0) {
            None => Err("fant ikke kolonnen Verdipapir"@),
            Some(p) => match forste_lik(k, "antall"@, 0) {
                None => Err("fant ikke kolonnen Antall"@),
                Some(q) => match forste_lik(k, "kurs"@, 0) {
                    None => Err("fant ikke kolonnen Kurs"@),
                    Some(pr) => match eller(
                        forste_lik(k, "handelsdag"@, 0),
                        forste_lik(k, "bokføringsdag"@, 0),
                    ) {
                        None => Err("fant ikke Handelsdag/Bokføringsdag"@),
                        Some(d) => Ok(
                            Plasser {
                                i_type: t as usize,
                                i_paper: p as usize,
                                i_qty: q as usize,
                                i_price: pr as usize,
                                i_date: d as usize,
                                i_id: match i_id {
                                    Some(i) => Some(i as usize),
                                    None => None,
                                },
                            },
                        ),
                    },
                },
            },
        },
    }
}

fn finn_plasser(k: &Vec<String>) -> (r: Result<Plasser, &'static str>)
    ensures
        (match plasser_av(text::views(k@)) {
            Ok(p) => r == Ok::<Plasser, &'static str>(p),
            Err(e) => r is Err && r->Err_0@ == e,
        }),
{
    let i_type: usize = match finn_kolonne(k, "transaksjonstype") {
        Some(i) => i,
        None => return Err("fant ikke kolonnen Transaksjonstype — er dette en Nordnet-eksport?"),
    };
    let i_paper: usize = match finn_kolonne(k, "verdipapir") {
        Some(i) => i,
        None => return Err("fant ikke kolonnen Verdipapir"),
    };
    let i_qty: usize = match finn_kolonne(k, "antall") {
        Some(i) => i,
        None => return Err("fant ikke kolonnen Antall"),
    };
    let i_price: usize = match finn_kolonne(k, "kurs") {
        Some(i) => i,
        None => return Err("fant ikke kolonnen Kurs"),
    };
    let dato_kolonne: Option<usize> = match finn_kolonne(k, "handelsdag") {
        Some(i) => Some(i),
        None => finn_kolonne(k, "bokføringsdag"),
    };
    let i_date: usize = match dato_kolonne {
        Some(i) => i,
        None => return Err("fant ikke Handelsdag/Bokføringsdag"),
    };
    let i_id: Option<usize> = match finn_kolonne(k, "id") {
        Some(i) => Some(i),
        None => match finn_kolonne(k, "transaksjons-id") {
            Some(i) => Some(i),
            None => finn_kolonne(k, "verifikationsnummer"),
        },
    };
    Ok(Plasser { i_type, i_paper, i_qty, i_price, i_date, i_id })
}

// ---------------------------------------------------------------------------
// Lines
// ---------------------------------------------------------------------------

/// The cell at a position of a line; empty where there is none.
pub open spec fn celle_ved(felter: Seq<Seq<char>>, i: int) -> Seq<char> {
    if 0 <= i < felter.len() {
        celle(felter[i])
    } else {
        ""@
    }
}

fn les_ved(felter: &Vec<Vec<char>>, i: usize) -> (r: String)
    ensures
        r@ == celle_ved(text::seqs(felter@), i as int),
{
    if i < felter.len() {
        assert(text::seqs(felter@)[i as int] == felter@[i as int]@);
        les_celle(felter[i].as_slice())
    } else {
        "".to_owned()
    }
}

/// What a line comes to.
pub enum Linje {
    /// No trade: a dividend, a deposit, a fee, or something that is not whole.
    Annet,
    UgyldigDato(Seq<char>),
    Handel(ImportSyn),
}

pub open spec fn absolutt(v: int) -> int {
    if v < 0 {
        -v
    } else {
        v
    }
}

/// The day that a date stands for, written with the year or the day first.
pub open spec fn dag_av(s: Seq<char>) -> Option<int> {
    match dato::dato_lest(s, "%Y-%m-%d"@) {
        Some(d) => Some(d),
        None => dato::dato_lest(s, "%d.%m.%Y"@),
    }
}

pub open spec fn handel_id(
    nid: Seq<char>,
    dato: Seq<char>,
    symbol: Seq<char>,
    ttype: Seq<char>,
    qty: int,
    price: int,
) -> Seq<char> {
    if nid.len() > 0 {
        "NN-"@ + nid
    } else {
        "NN-"@ + text::joined(
            seq![dato, symbol, ttype, belop::kort_tekst(qty), belop::kort_tekst(price)],
            "-"@,
        )
    }
}

pub open spec fn linje_av(felter: Seq<Seq<char>>, p: Plasser) -> Linje {
    let ttype = text::uppercase(celle_ved(felter, p.i_type as int));
    let kjop = text::starts(ttype, "KJØP"@) || text::starts(ttype, "KJOP"@);
    let salg = text::starts(ttype, "SOLGT"@) || text::starts(ttype, "SALG"@);
    let symbol = celle_ved(felter, p.i_paper as int);
    let qty = absolutt(norsk_tall(celle_ved(felter, p.i_qty as int)));
    let price = norsk_tall(celle_ved(felter, p.i_price as int));
    let dato = celle_ved(felter, p.i_date as int);
    let nid = match p.i_id {
        Some(i) => celle_ved(felter, i as int),
        None => ""@,
    };
    if (!kjop && !salg) || symbol.len() == 0 || qty <= 0 || price <= 0 {
        Linje::Annet
    } else {
        match dag_av(dato) {
            None => Linje::UgyldigDato(dato),
            Some(d) => Linje::Handel(
                ImportSyn {
                    id: handel_id(nid, dato, symbol, ttype, qty, price),
                    ts: dato::dato_skrevet(d) + "T12:00:00+00:00"@,
                    symbol,
                    is_buy: kjop,
                    qty,
                    price,
                    dag: d,
                },
            ),
        }
    }
}

/// What a line comes to, as it is read.
enum Lest {
    Annet,
    UgyldigDato(String),
    Handel(ImportedTrade, i32),
}

spec fn lest_er(l: Lest, s: Linje) -> bool {
    match s {
        Linje::Annet => l is Annet,
        Linje::UgyldigDato(d) => l is UgyldigDato && l->UgyldigDato_0@ == d,
        Linje::Handel(t) => l is Handel && svarer(l->Handel_0, t) && l->Handel_1 == t.dag,
    }
}

fn lag_id(nid: &str, dag: &str, symbol: &str, ttype: &str, qty: i64, price: i64) -> (r: String)
    ensures
        r@ == handel_id(nid@, dag@, symbol@, ttype@, qty as int, price as int),
{
    if nid.unicode_len() > 0 {
        two("NN-", nid)
    } else {
        let deler: Vec<String> = vec![
            dag.to_owned(),
            symbol.to_owned(),
            ttype.to_owned(),
            belop::kort(qty),
            belop::kort(price),
        ];
        assert(text::views(deler@) =~= seq![
            dag@,
            symbol@,
            ttype@,
            belop::kort_tekst(qty as int),
            belop::kort_tekst(price as int),
        ]);
        let s: String = text::join_text(&deler, "-");
        two("NN-", s.as_str())
    }
}

fn les_linje(felter: &Vec<Vec<char>>, p: &Plasser) -> (r: Lest)
    ensures
        lest_er(r, linje_av(text::seqs(felter@), *p)),
{
    let typecelle: String = les_ved(felter, p.i_type);
    let ttype: String = text::to_uppercase(typecelle.as_str());
    let is_buy: bool = text::text_starts(ttype.as_str(), "KJØP") || text::text_starts(ttype.as_str(), "KJOP");
    let is_sell: bool = text::text_starts(ttype.as_str(), "SOLGT") || text::text_starts(ttype.as_str(), "SALG");
    if !is_buy && !is_sell {
        return Lest::Annet;
    }
    let symbol: String = les_ved(felter, p.i_paper);
    let antall: String = les_ved(felter, p.i_qty);
    let a: Vec<char> = chars_of(antall.as_str());
    let q: i64 = les_norsk(a.as_slice());
    let qty: i64 = if q < 0 {
        -q
    } else {
        q
    };
    let kurs: String = les_ved(felter, p.i_price);
    let price: i64 = parse_norwegian_number(kurs.as_str());
    if symbol.as_str().unicode_len() == 0 || qty <= 0 || price <= 0 {
        return Lest::Annet;
    }
    let dag: String = les_ved(felter, p.i_date);
    let d: Option<Dato> = match dato::les_dato(dag.as_str(), "%Y-%m-%d") {
        Some(d) => Some(d),
        None => dato::les_dato(dag.as_str(), "%d.%m.%Y"),
    };
    match d {
        None => Lest::UgyldigDato(dag),
        Some(d) => {
            let nid: String = match p.i_id {
                Some(i) => les_ved(felter, i),
                None => "".to_owned(),
            };
            let dagtekst: String = d.som_tekst();
            let t: ImportedTrade = ImportedTrade {
                id: lag_id(nid.as_str(), dag.as_str(), symbol.as_str(), ttype.as_str(), qty, price),
                ts_rfc3339: two(dagtekst.as_str(), "T12:00:00+00:00"),
                symbol,
                is_buy,
                qty,
                price,
            };
            Lest::Handel(t, d.dag)
        },
    }
}

/// The lines that hold something.
pub open spec fn fylte(l: Seq<Seq<char>>) -> Seq<Seq<char>>
    decreases l.len(),
{
    if l.len() == 0 {
        l
    } else if text::trimmed(l.last()).len() == 0 {
        fylte(l.drop_last())
    } else {
        fylte(l.drop_last()).push(l.last())
    }
}

pub open spec fn skilletegn(hode: Seq<char>) -> char {
    if hode.contains('\t') {
        '\t'
    } else {
        ';'
    }
}

/// The trades of the first `n` lines below the heading, or what is wrong with
/// the first line that cannot be read.
pub open spec fn handler_av(linjer: Seq<Seq<char>>, skille: char, p: Plasser, n: nat) -> Result<
    Seq<ImportSyn>,
    Seq<char>,
>
    decreases n,
{
    if n == 0 {
        Ok(Seq::empty())
    } else {
        match handler_av(linjer, skille, p, (n - 1) as nat) {
            Err(e) => Err(e),
            Ok(for_) => match linje_av(text::split_on(linjer[n as int], skille), p) {
                Linje::Annet => Ok(for_),
                Linje::UgyldigDato(d) => Err(
                    "ugyldig dato «"@ + d + ("» på linje "@ + number_text::decimal(n + 1)),
                ),
                Linje::Handel(t) => Ok(for_.push(t)),
            },
        }
    }
}

/// The oldest first, those of one day in the order of the file.
pub open spec fn eldste_forst(l: Seq<ImportSyn>) -> Seq<ImportSyn> {
    order::order_of(l.map_values(|t: ImportSyn| t.dag as i128)).map_values(|i: int| l[i])
}

/// The trades of a file, or what is wrong with it.
pub open spec fn import_av(tekst: Seq<char>) -> Result<Seq<ImportSyn>, Seq<char>> {
    let linjer = fylte(text::lines_of(tekst));
    if linjer.len() == 0 {
        Err("tom fil"@)
    } else {
        let skille = skilletegn(linjer[0]);
        match plasser_av(kolonner(linjer[0], skille)) {
            Err(e) => Err(e),
            Ok(p) => match handler_av(linjer, skille, p, (linjer.len() - 1) as nat) {
                Err(e) => Err(e),
                Ok(l) => Ok(eldste_forst(l)),
            },
        }
    }
}

fn velg_fylte(l: Vec<Vec<char>>) -> (r: Vec<Vec<char>>)
    ensures
        text::seqs(r@) == fylte(text::seqs(l@)),
{
    let ghost alle = text::seqs(l@);
    let mut ut: Vec<Vec<char>> = Vec::new();
    let mut i: usize = 0;
    assert(alle.take(0) =~= Seq::empty());
    assert(text::seqs(ut@) =~= Seq::empty());
    while i < l.len()
        invariant
            i <= l@.len(),
            alle == text::seqs(l@),
            text::seqs(ut@) == fylte(alle.take(i as int)),
        decreases l.len() - i,
    {
        proof {
            assert(alle.take(i + 1).drop_last() =~= alle.take(i as int));
            assert(alle.take(i + 1).last() == l@[i as int]@);
        }
        let ghost for_ = text::seqs(ut@);
        let t: Vec<char> = text::trim(l[i].as_slice());
        if t.len() > 0 {
            let k: Vec<char> = text::slice(l[i].as_slice(), 0, l[i].len());
            assert(k@ =~= l@[i as int]@);
            ut.push(k);
            assert(text::seqs(ut@) =~= for_.push(l@[i as int]@));
        }
        i += 1;
    }
    assert(alle.take(i as int) =~= alle);
    ut
}

fn les_kolonner(hode: &Vec<char>, skille: char) -> (r: Vec<String>)
    ensures
        text::views(r@) == kolonner(hode@, skille),
{
    let deler: Vec<Vec<char>> = text::split(hode.as_slice(), skille);
    let mut ut: Vec<String> = Vec::new();
    let mut i: usize = 0;
    while i < deler.len()
        invariant
            i <= deler@.len(),
            ut@.len() == i,
            text::seqs(deler@) == text::split_on(hode@, skille),
            forall|k: int| 0 <= k < i ==> (#[trigger] ut@[k])@ == text::lowercase(celle(deler@[k]@)),
        decreases deler.len() - i,
    {
        let c: String = les_celle(deler[i].as_slice());
        ut.push(text::to_lowercase(c.as_str()));
        i += 1;
    }
    assert forall|k: int| 0 <= k < ut@.len() implies text::views(ut@)[k] == #[trigger] kolonner(hode@, skille)[k] by {
        assert(text::seqs(deler@)[k] == deler@[k]@);
    }
    assert(text::views(ut@) =~= kolonner(hode@, skille)) by {
        assert(text::seqs(deler@).len() == deler@.len());
    }
    ut
}

proof fn lemma_feil(linjer: Seq<Seq<char>>, skille: char, p: Plasser, m: nat, n: nat)
    requires
        m <= n,
        handler_av(linjer, skille, p, m) is Err,
    ensures
        handler_av(linjer, skille, p, n) == handler_av(linjer, skille, p, m),
    decreases n,
{
    if m < n {
        lemma_feil(linjer, skille, p, m, (n - 1) as nat);
    }
}

fn dato_feil(dag: &str, linje: u128) -> (r: String)
    ensures
        r@ == "ugyldig dato «"@ + dag@ + ("» på linje "@ + number_text::decimal(linje as nat)),
{
    let n: String = number_text::decimal_text(linje);
    let hale: String = two("» på linje ", n.as_str());
    text::three("ugyldig dato «", dag, hale.as_str())
}

pub open spec fn alle_svarer(l: Seq<ImportedTrade>, s: Seq<ImportSyn>) -> bool {
    l.len() == s.len() && forall|i: int| 0 <= i < l.len() ==> svarer(#[trigger] l[i], s[i])
}

fn kopi(t: &ImportedTrade) -> (r: ImportedTrade)
    ensures
        forall|s: ImportSyn| svarer(*t, s) ==> #[trigger] svarer(r, s),
{
    ImportedTrade {
        id: copy_text(&t.id),
        ts_rfc3339: copy_text(&t.ts_rfc3339),
        symbol: copy_text(&t.symbol),
        is_buy: t.is_buy,
        qty: t.qty,
        price: t.price,
    }
}

/// Reads a text as an export.
pub fn les_tekst(tekst: &str) -> (r: Result<Vec<ImportedTrade>, String>)
    ensures
        (match import_av(tekst@) {
            Ok(l) => r is Ok && alle_svarer(r->Ok_0@, l),
            Err(e) => r is Err && r->Err_0@ == e,
        }),
{
    let cs: Vec<char> = chars_of(tekst);
    let linjer: Vec<Vec<char>> = velg_fylte(text::lines(cs.as_slice()));
    let ghost l = fylte(text::lines_of(tekst@));
    assert(text::seqs(linjer@) == l);
    assert(l.len() == linjer@.len());
    if linjer.len() == 0 {
        return Err("tom fil".to_owned());
    }
    let n: usize = linjer.len();
    assert(l[0] == linjer@[0]@);
    proof {
        text::lemma_first_char(linjer@[0]@, '\t', 0);
    }
    let skille: char = if text::find_char(linjer[0].as_slice(), '\t', 0).is_some() {
        '\t'
    } else {
        ';'
    };
    let k: Vec<String> = les_kolonner(&linjer[0], skille);
    let p: Plasser = match finn_plasser(&k) {
        Ok(p) => p,
        Err(e) => return Err(e.to_owned()),
    };
    let mut ut: Vec<ImportedTrade> = Vec::new();
    let mut dager: Vec<i128> = Vec::new();
    let ghost mut lest: Seq<ImportSyn> = Seq::empty();
    let mut i: usize = 1;
    while i < n
        invariant
            1 <= i <= n,
            n == linjer@.len(),
            text::seqs(linjer@) == l,
            l.len() == n,
            l == fylte(text::lines_of(tekst@)),
            skille == skilletegn(l[0]),
            plasser_av(kolonner(l[0], skille)) == Ok::<Plasser, Seq<char>>(p),
            handler_av(l, skille, p, (i - 1) as nat) == Ok::<Seq<ImportSyn>, Seq<char>>(lest),
            alle_svarer(ut@, lest),
            dager@.len() == lest.len(),
            forall|j: int| 0 <= j < lest.len() ==> #[trigger] dager@[j] == lest[j].dag,
            forall|j: int| 0 <= j < lest.len() ==> i32::MIN <= (#[trigger] lest[j]).dag <= i32::MAX,
        decreases n - i,
    {
        assert(l[i as int] == linjer@[i as int]@);
        let felter: Vec<Vec<char>> = text::split(linjer[i].as_slice(), skille);
        match les_linje(&felter, &p) {
            Lest::Annet => {},
            Lest::UgyldigDato(d) => {
                proof {
                    lemma_feil(l, skille, p, i as nat, (n - 1) as nat);
                }
                return Err(dato_feil(d.as_str(), i as u128 + 1));
            },
            Lest::Handel(t, dag) => {
                proof {
                    let s = linje_av(text::split_on(l[i as int], skille), p)->Handel_0;
                    lest = lest.push(s);
                }
                ut.push(t);
                dager.push(dag as i128);
            },
        }
        i += 1;
    }
    assert(dager@ =~= lest.map_values(|t: ImportSyn| t.dag as i128));
    let o: Vec<usize> = order::stable_order(&dager);
    let ghost orden = order::positions(o@);
    assert(orden.len() == o@.len());
    let mut ordnet: Vec<ImportedTrade> = Vec::new();
    let mut j: usize = 0;
    while j < o.len()
        invariant
            j <= o@.len(),
            ordnet@.len() == j,
            o@.len() == ut@.len(),
            orden == order::positions(o@),
            alle_svarer(ut@, lest),
            forall|i: int| 0 <= i < o@.len() ==> (#[trigger] o@[i]) < ut@.len(),
            forall|i: int| 0 <= i < j ==> svarer(#[trigger] ordnet@[i], lest[orden[i]]),
        decreases o.len() - j,
    {
        assert(orden[j as int] == o@[j as int]);
        let t: ImportedTrade = kopi(&ut[o[j]]);
        assert(svarer(ut@[o@[j as int] as int], lest[orden[j as int]]));
        ordnet.push(t);
        j += 1;
    }
    proof {
        let e = eldste_forst(lest);
        assert forall|i: int| 0 <= i < ordnet@.len() implies svarer(#[trigger] ordnet@[i], e[i]) by {
            assert(e[i] == lest[orden[i]]);
        }
    }
    Ok(ordnet)
}

/// Reads the export of Nordnet. What is neither a purchase nor a sale is
/// skipped; the oldest trade comes first, however the file is sorted.
pub fn parse_nordnet_csv(bytes: &[u8]) -> (r: Result<Vec<ImportedTrade>, String>)
    ensures
        (match import_av(dekodet(bytes@)) {
            Ok(l) => r is Ok && alle_svarer(r->Ok_0@, l),
            Err(e) => r is Err && r->Err_0@ == e,
        }),
{
    let tekst: String = decode(bytes);
    les_tekst(tekst.as_str())
}

/// Every trade that is read is of something, for more than nothing, at a price
/// above nothing.
pub proof fn law_bare_hele_handler(linjer: Seq<Seq<char>>, skille: char, p: Plasser, n: nat)
    ensures
        handler_av(linjer, skille, p, n) matches Ok(l) ==> forall|i: int|
            0 <= i < l.len() ==> (#[trigger] l[i]).qty > 0 && l[i].price > 0 && l[i].symbol.len() > 0,
    decreases n,
{
    if n > 0 {
        law_bare_hele_handler(linjer, skille, p, (n - 1) as nat);
    }
}

/// The same trade of the same export always gets the same number: where the
/// file gives one, it alone decides.
pub proof fn law_id_fra_filen(
    nid: Seq<char>,
    d1: Seq<char>,
    s1: Seq<char>,
    t1: Seq<char>,
    q1: int,
    p1: int,
    d2: Seq<char>,
    s2: Seq<char>,
    t2: Seq<char>,
    q2: int,
    p2: int,
)
    requires
        nid.len() > 0,
    ensures
        handel_id(nid, d1, s1, t1, q1, p1) == handel_id(nid, d2, s2, t2, q2, p2),
{
}

/// A number of the export is read without its blanks, and with a point for
/// each comma.
pub proof fn law_renset_tall(s: Seq<char>)
    ensures
        renset_tall(s) == s.filter(|c: char| c != ' ' && c != '\u{a0}').map_values(
            |c: char|
                if c == ',' {
                    '.'
                } else {
                    c
                },
        ),
    decreases s.len(),
{
    reveal(Seq::filter);
    if s.len() > 0 {
        law_renset_tall(s.drop_last());
        let f = |c: char|
            if c == ',' {
                '.'
            } else {
                c
            };
        let p = s.drop_last().filter(|c: char| c != ' ' && c != '\u{a0}');
        assert(p.push(s.last()).map_values(f) =~= p.map_values(f).push(f(s.last())));
    } else {
        assert(s.filter(|c: char| c != ' ' && c != '\u{a0}') =~= Seq::<char>::empty());
    }
}

/// Blank lines are left out, and all others stay in their order.
pub proof fn law_fylte_linjer(l: Seq<Seq<char>>)
    ensures
        fylte(l) == l.filter(|s: Seq<char>| text::trimmed(s).len() > 0),
    decreases l.len(),
{
    reveal(Seq::filter);
    if l.len() > 0 {
        law_fylte_linjer(l.drop_last());
    }
}

proof fn lemma_forste_lik(l: Seq<Seq<char>>, navn: Seq<char>, i: int)
    requires
        0 <= i,
    ensures
        forste_lik(l, navn, i) matches Some(k) ==> i <= k < l.len() && l[k] == navn && (forall|j: int|
            i <= j < k ==> l[j] != navn),
        forste_lik(l, navn, i) is None ==> (forall|j: int| i <= j < l.len() ==> l[j] != navn),
    decreases l.len() - i,
{
    if i < l.len() && l[i] != navn {
        lemma_forste_lik(l, navn, i + 1);
    }
}

/// The columns are found by their names, each the first of its name, whatever
/// their order; a file without one of them is refused.
pub proof fn law_kolonnene(k: Seq<Seq<char>>)
    requires
        k.len() <= usize::MAX,
    ensures
        plasser_av(k) matches Ok(p) ==> p.i_type < k.len() && k[p.i_type as int] == "transaksjonstype"@ && p.i_paper
            < k.len() && k[p.i_paper as int] == "verdipapir"@ && p.i_qty < k.len() && k[p.i_qty as int] == "antall"@
            && p.i_price < k.len() && k[p.i_price as int] == "kurs"@ && p.i_date < k.len() && (k[p.i_date as int]
            == "handelsdag"@ || (k[p.i_date as int] == "bokføringsdag"@ && !k.contains("handelsdag"@))),
        plasser_av(k) is Ok <==> k.contains("transaksjonstype"@) && k.contains("verdipapir"@) && k.contains("antall"@)
            && k.contains("kurs"@) && (k.contains("handelsdag"@) || k.contains("bokføringsdag"@)),
{
    lemma_forste_lik(k, "transaksjonstype"@, 0);
    lemma_forste_lik(k, "verdipapir"@, 0);
    lemma_forste_lik(k, "antall"@, 0);
    lemma_forste_lik(k, "kurs"@, 0);
    lemma_forste_lik(k, "handelsdag"@, 0);
    lemma_forste_lik(k, "bokføringsdag"@, 0);
}

/// A line that is a buy or a sale becomes a trade of that side, with the symbol
/// and the price of the line and as many as it counts, whether it counts them
/// up or down; one that is neither becomes none.
pub proof fn law_linjen(felter: Seq<Seq<char>>, p: Plasser)
    ensures
        ({
            let ttype = text::uppercase(celle_ved(felter, p.i_type as int));
            let kjop = "KJØP"@.is_prefix_of(ttype) || "KJOP"@.is_prefix_of(ttype);
            let salg = "SOLGT"@.is_prefix_of(ttype) || "SALG"@.is_prefix_of(ttype);
            let q = norsk_tall(celle_ved(felter, p.i_qty as int));
            let pris = norsk_tall(celle_ved(felter, p.i_price as int));
            let symbol = celle_ved(felter, p.i_paper as int);
            &&& !kjop && !salg ==> linje_av(felter, p) is Annet
            &&& linje_av(felter, p) matches Linje::Handel(t) ==> t.is_buy == kjop && t.symbol == symbol && t.price == pris
                && pris > 0 && (t.qty == q || t.qty == -q) && t.qty > 0
            &&& (kjop || salg) && symbol.len() > 0 && q != 0 && pris > 0 ==> linje_av(felter, p) !is Annet
        }),
{
    let ttype = text::uppercase(celle_ved(felter, p.i_type as int));
    lemma_starter(ttype, "KJØP"@);
    lemma_starter(ttype, "KJOP"@);
    lemma_starter(ttype, "SOLGT"@);
    lemma_starter(ttype, "SALG"@);
}

proof fn lemma_starter(s: Seq<char>, p: Seq<char>)
    ensures
        text::starts(s, p) == p.is_prefix_of(s),
{
    if p.len() <= s.len() {
        assert(s.take(p.len() as int) =~= s.subrange(0, p.len() as int));
    }
}

/// Every line below the heading that is a trade is among the trades of the
/// file.
pub proof fn law_alle_linjer_leses(linjer: Seq<Seq<char>>, skille: char, p: Plasser, n: nat, i: int)
    requires
        1 <= i <= n,
        handler_av(linjer, skille, p, n) is Ok,
        linje_av(text::split_on(linjer[i], skille), p) is Handel,
    ensures
        handler_av(linjer, skille, p, n)->Ok_0.contains(
            linje_av(text::split_on(linjer[i], skille), p)->Handel_0,
        ),
    decreases n,
{
    let t = linje_av(text::split_on(linjer[i], skille), p)->Handel_0;
    let f = handler_av(linjer, skille, p, (n - 1) as nat)->Ok_0;
    let alle = handler_av(linjer, skille, p, n)->Ok_0;
    if i == n {
        assert(alle[f.len() as int] == t);
    } else {
        law_alle_linjer_leses(linjer, skille, p, (n - 1) as nat, i);
        let k = choose|k: int| 0 <= k < f.len() && f[k] == t;
        assert(alle[k] == t);
    }
}

/// The trades stand by their day, the oldest first, and none is lost.
pub proof fn law_eldste_forst(l: Seq<ImportSyn>)
    requires
        forall|i: int| 0 <= i < l.len() ==> i128::MIN <= (#[trigger] l[i]).dag <= i128::MAX,
    ensures
        eldste_forst(l).len() == l.len(),
        forall|a: int, b: int|
            0 <= a < b < l.len() ==> (#[trigger] eldste_forst(l)[a]).dag <= (#[trigger] eldste_forst(l)[b]).dag,
        forall|i: int| 0 <= i < l.len() ==> eldste_forst(l).contains(#[trigger] l[i]),
{
    let v = l.map_values(|t: ImportSyn| t.dag as i128);
    let r = order::order_of(v);
    order::law_order_is_stable(v);
    assert forall|a: int, b: int| 0 <= a < b < l.len() implies (#[trigger] eldste_forst(l)[a]).dag <= (
    #[trigger] eldste_forst(l)[b]).dag by {
        assert(v[r[a]] <= v[r[b]]);
        assert(i128::MIN <= l[r[a]].dag <= i128::MAX);
        assert(i128::MIN <= l[r[b]].dag <= i128::MAX);
    }
    assert forall|i: int| 0 <= i < l.len() implies eldste_forst(l).contains(#[trigger] l[i]) by {
        assert(r.contains(i));
        let k = choose|k: int| 0 <= k < r.len() && r[k] == i;
        assert(eldste_forst(l)[k] == l[i]);
    }
}

}
