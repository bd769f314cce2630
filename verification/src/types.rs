//! Orders, quotes and positions. Prices and quantities are counted in
//! hundred-millionths, values (a price times a quantity) in the square of that.
use vstd::prelude::*;

use crate::belop;
use crate::text;

verus! {

#[derive(Debug, Clone, Copy, PartialEq, Eq, Structural)]
pub enum Side {
    Buy,
    Sell,
}

impl Side {
    pub open spec fn tekst_spec(self) -> Seq<char> {
        match self {
            Side::Buy => "KJØP"@,
            Side::Sell => "SELG"@,
        }
    }

    pub fn tekst(self) -> (r: &'static str)
        ensures
            r@ == self.tekst_spec(),
    {
        match self {
            Side::Buy => "KJØP",
            Side::Sell => "SELG",
        }
    }
}

#[derive(Debug, Clone, Copy, PartialEq, Eq, Structural)]
pub enum OrderStatus {
    Submitted,
    Filled,
    Rejected,
    Cancelled,
}

impl OrderStatus {
    pub open spec fn tekst_spec(self) -> Seq<char> {
        match self {
            OrderStatus::Submitted => "SENDT"@,
            OrderStatus::Filled => "FYLT"@,
            OrderStatus::Rejected => "AVVIST"@,
            OrderStatus::Cancelled => "KANSELLERT"@,
        }
    }

    pub fn tekst(self) -> (r: &'static str)
        ensures
            r@ == self.tekst_spec(),
    {
        match self {
            OrderStatus::Submitted => "SENDT",
            OrderStatus::Filled => "FYLT",
            OrderStatus::Rejected => "AVVIST",
            OrderStatus::Cancelled => "KANSELLERT",
        }
    }
}

#[derive(Debug)]
pub struct Quote {
    pub symbol: String,
    pub last: i64,
    pub prev_close: i64,
    /// The currency of the instrument; empty where it is not known, and then
    /// taken for that of the account.
    pub currency: String,
    /// Seconds since 1970.
    pub ts: i64,
}

/// How much `naa` is over `for_`, in per cent; 0 where there is nothing to
/// compare with.
pub open spec fn endring_pct(naa: int, for_: int) -> int {
    if for_ > 0 {
        belop::kvotient((naa - for_) * 100 * 100_000_000, for_)
    } else {
        0
    }
}

/// How much a price is over another, in per cent.
pub fn endring(naa: i64, for_: i64) -> (r: i128)
    ensures
        r == endring_pct(naa as int, for_ as int),
        -0x1_0000_0000_0000_0000 * 10_000_000_000 <= r <= 0x1_0000_0000_0000_0000 * 10_000_000_000,
{
    if for_ > 0 {
        belop::del((naa as i128 - for_ as i128) * 100 * 100_000_000, for_ as i128)
    } else {
        0
    }
}

impl Quote {
    /// The change since the last close, in per cent.
    pub fn change_pct(&self) -> (r: i128)
        ensures
            r == endring_pct(self.last as int, self.prev_close as int),
    {
        endring(self.last, self.prev_close)
    }
}

/// A pair such as `BTC-USD`: a hyphen, and no exchange behind a full stop.
/// Pairs are traded round the clock and in fractions.
pub open spec fn krypto(symbol: Seq<char>) -> bool {
    symbol.contains('-') && !symbol.contains('.')
}

pub fn is_crypto(symbol: &str) -> (r: bool)
    ensures
        r == krypto(symbol@),
{
    let cs: Vec<char> = text::chars_of(symbol);
    proof {
        text::lemma_first_char(cs@, '-', 0);
        text::lemma_first_char(cs@, '.', 0);
    }
    text::find_char(cs.as_slice(), '-', 0).is_some() && text::find_char(cs.as_slice(), '.', 0).is_none()
}

#[derive(Debug)]
pub struct OrderRequest {
    pub symbol: String,
    pub side: Side,
    pub qty: i64,
    /// The last known price.
    pub ref_price: i64,
    pub note: String,
}

#[derive(Debug)]
pub struct Order {
    pub id: String,
    pub symbol: String,
    pub side: Side,
    pub qty: i64,
    pub status: OrderStatus,
    pub avg_price: i64,
    /// Seconds since 1970.
    pub created: i64,
    pub note: String,
}

#[derive(Debug)]
pub struct Position {
    pub symbol: String,
    pub qty: i64,
    pub avg_price: i64,
    pub last: i64,
}

#[verifier::ext_equal]
pub struct PosisjonSyn {
    pub symbol: Seq<char>,
    pub qty: i64,
    pub avg_price: i64,
    pub last: i64,
}

impl View for Position {
    type V = PosisjonSyn;

    open spec fn view(&self) -> PosisjonSyn {
        PosisjonSyn { symbol: self.symbol@, qty: self.qty, avg_price: self.avg_price, last: self.last }
    }
}

pub open spec fn posisjoner(l: Seq<Position>) -> Seq<PosisjonSyn> {
    Seq::new(l.len(), |i: int| l[i]@)
}

/// A product of two 64-bit numbers fits in 128 bits with room to spare.
pub proof fn lemma_produkt(a: int, b: int)
    requires
        i64::MIN <= a <= i64::MAX,
        i64::MIN <= b <= i64::MAX,
    ensures
        -0x4000_0000_0000_0000_0000_0000_0000_0000 <= a * b <= 0x4000_0000_0000_0000_0000_0000_0000_0000,
{
    assert(-0x4000_0000_0000_0000_0000_0000_0000_0000 <= a * b
        <= 0x4000_0000_0000_0000_0000_0000_0000_0000) by (nonlinear_arith)
        requires
            -0x8000_0000_0000_0000 <= a <= 0x7fff_ffff_ffff_ffff,
            -0x8000_0000_0000_0000 <= b <= 0x7fff_ffff_ffff_ffff,
    ;
}

impl Position {
    pub fn kopi(&self) -> (r: Position)
        ensures
            r@ == self@,
    {
        Position {
            symbol: text::copy_text(&self.symbol),
            qty: self.qty,
            avg_price: self.avg_price,
            last: self.last,
        }
    }

    /// What the position is worth.
    pub fn market_value(&self) -> (r: i128)
        ensures
            r == self.qty * self.last,
    {
        proof {
            lemma_produkt(self.qty as int, self.last as int);
        }
        self.qty as i128 * self.last as i128
    }

    /// The gain that a sale would realise.
    pub fn unrealized(&self) -> (r: i128)
        ensures
            r == (self.last - self.avg_price) * self.qty,
    {
        let d: i128 = self.last as i128 - self.avg_price as i128;
        let n: i128 = self.qty as i128;
        assert(i128::MIN <= d * n <= i128::MAX) by (nonlinear_arith)
            requires
                -0xffff_ffff_ffff_ffff <= d <= 0xffff_ffff_ffff_ffff,
                -0x8000_0000_0000_0000 <= n <= 0x7fff_ffff_ffff_ffff,
        ;
        d * n
    }
}

/// The prices of one day.
#[derive(Debug, Clone, Copy, PartialEq, Eq, Structural)]
pub struct Candle {
    /// Seconds since 1970.
    pub ts: i64,
    pub open: i64,
    pub high: i64,
    pub low: i64,
    pub close: i64,
}

/// A position read from Nordnet, where nothing is traded.
#[derive(Debug)]
pub struct ExternalPosition {
    pub symbol: String,
    pub name: String,
    pub qty: i64,
    pub market_value: i64,
}

/// A change in per cent, of a price that is known: as much of what was before as
/// makes up the difference, with what is behind the last decimal cut off.
pub proof fn law_endring_pct(naa: int, for_: int)
    requires
        for_ > 0,
    ensures
        naa >= for_ ==> endring_pct(naa, for_) >= 0 && for_ * endring_pct(naa, for_) <= 10_000_000_000 * (naa - for_)
            < for_ * (endring_pct(naa, for_) + 1),
        naa <= for_ ==> endring_pct(naa, for_) <= 0 && for_ * (endring_pct(naa, for_) - 1) < 10_000_000_000 * (naa
            - for_) <= for_ * endring_pct(naa, for_),
{
    let q = endring_pct(naa, for_);
    belop::law_kvotient((naa - for_) * 100 * 100_000_000, for_);
    assert(for_ * q == q * for_ && for_ * (q + 1) == (q + 1) * for_ && for_ * (q - 1) == (q - 1) * for_)
        by (nonlinear_arith);
}

}
