//! The rows of the database, and what is made of them.
use vstd::prelude::*;

use crate::dato;
use crate::pnl::{Fill, FillSyn};
use crate::state::{Alarm, LimitOrder};
use crate::text;
use crate::text::{chars_of, copy_text, same, slice, string_of};
use crate::types::{Order, OrderStatus, Position, PosisjonSyn, Side};
use crate::engine::ordrer::LimitSyn;
use crate::engine::vakt::AlarmSyn;

verus! {

/// The side that a column names: the word for a purchase, or else a sale.
pub open spec fn side_av(tekst: Seq<char>) -> Side {
    if tekst == "KJØP"@ {
        Side::Buy
    } else {
        Side::Sell
    }
}

pub fn les_side(tekst: &str) -> (r: Side)
    ensures
        r == side_av(tekst@),
{
    if same(tekst, "KJØP") {
        Side::Buy
    } else {
        Side::Sell
    }
}

/// A side is read back as it was written.
pub proof fn law_side_leses_tilbake(s: Side)
    ensures
        side_av(s.tekst_spec()) == s,
{
    reveal_strlit("KJØP");
    reveal_strlit("SELG");
    assert("KJØP"@[0] == 'K' && "SELG"@[0] == 'S');
}

/// A point in time as the history shows it: `07.11.2026 16:30`. What is no point
/// in time is shown as it is.
pub open spec fn vist_tid(ts: Seq<char>) -> Seq<char> {
    if dato::rfc3339(ts) {
        ts.subrange(8, 10) + seq!['.'] + ts.subrange(5, 7) + seq!['.'] + ts.subrange(0, 4) + seq![' ']
            + ts.subrange(11, 13) + seq![':'] + ts.subrange(14, 16)
    } else {
        ts
    }
}

pub fn format_ts(raw: &str) -> (r: String)
    ensures
        r@ == vist_tid(raw@),
{
    if !dato::er_rfc3339(raw) {
        return raw.to_owned();
    }
    let cs: Vec<char> = chars_of(raw);
    let mut ut: Vec<char> = slice(cs.as_slice(), 8, 10);
    ut.push('.');
    let m: Vec<char> = slice(cs.as_slice(), 5, 7);
    text::push_all(&mut ut, m.as_slice());
    ut.push('.');
    let a: Vec<char> = slice(cs.as_slice(), 0, 4);
    text::push_all(&mut ut, a.as_slice());
    ut.push(' ');
    let t: Vec<char> = slice(cs.as_slice(), 11, 13);
    text::push_all(&mut ut, t.as_slice());
    ut.push(':');
    let mi: Vec<char> = slice(cs.as_slice(), 14, 16);
    text::push_all(&mut ut, mi.as_slice());
    assert(ut@ =~= vist_tid(raw@));
    string_of(ut.as_slice())
}

// ---------------------------------------------------------------------------
// Rows
// ---------------------------------------------------------------------------

/// A row of the orders that wait for a price.
#[derive(Debug)]
pub struct LimitRad {
    pub symbol: String,
    pub side: String,
    pub qty: i64,
    pub amount_kr: i64,
    pub level: i64,
}

impl LimitRad {
    /// The order that the row stands for.
    pub open spec fn ordre(&self) -> LimitSyn {
        LimitSyn {
            symbol: self.symbol@,
            side: side_av(self.side@),
            qty: self.qty as int,
            amount_kr: self.amount_kr as int,
            level: self.level as int,
        }
    }

    /// The row of an order, which reads back as the order.
    pub fn fra(o: &LimitOrder) -> (r: LimitRad)
        ensures
            r.side@ == o.side.tekst_spec(),
            r.ordre() == o@,
    {
        proof {
            law_side_leses_tilbake(o.side);
        }
        LimitRad {
            symbol: copy_text(&o.symbol),
            side: o.side.tekst().to_owned(),
            qty: o.qty,
            amount_kr: o.amount_kr,
            level: o.level,
        }
    }

    pub fn les(&self) -> (r: LimitOrder)
        ensures
            r@ == self.ordre(),
    {
        LimitOrder {
            symbol: copy_text(&self.symbol),
            side: les_side(self.side.as_str()),
            qty: self.qty,
            amount_kr: self.amount_kr,
            level: self.level,
        }
    }
}

/// A row of the alarms: truth is 1, and everything but 0 is read as truth.
#[derive(Debug)]
pub struct AlarmRad {
    pub symbol: String,
    pub level: i64,
    pub above: i32,
    pub triggered: i32,
}

impl AlarmRad {
    /// The alarm that the row stands for.
    pub open spec fn alarm(&self) -> AlarmSyn {
        AlarmSyn {
            symbol: self.symbol@,
            level: self.level as int,
            above: self.above != 0,
            triggered: self.triggered != 0,
        }
    }

    /// The row of an alarm, which reads back as the alarm.
    pub fn fra(a: &Alarm) -> (r: AlarmRad)
        ensures
            r.above == (if a.above {
                1int
            } else {
                0int
            }) && r.triggered == (if a.triggered {
                1int
            } else {
                0int
            }),
            r.alarm() == a@,
    {
        AlarmRad {
            symbol: copy_text(&a.symbol),
            level: a.level,
            above: if a.above {
                1
            } else {
                0
            },
            triggered: if a.triggered {
                1
            } else {
                0
            },
        }
    }

    pub fn les(&self) -> (r: Alarm)
        ensures
            r@ == self.alarm(),
    {
        Alarm {
            symbol: copy_text(&self.symbol),
            level: self.level,
            above: self.above != 0,
            triggered: self.triggered != 0,
        }
    }
}

/// A position as it is stored: the last price is fetched afresh, and is taken
/// to be the mean price until then.
pub fn les_posisjon(symbol: &str, qty: i64, avg_price: i64) -> (r: Position)
    ensures
        r@ == (PosisjonSyn { symbol: symbol@, qty, avg_price, last: avg_price }),
{
    Position { symbol: symbol.to_owned(), qty, avg_price, last: avg_price }
}

/// A filled order as it is read for the tax return.
pub fn les_fill(ts: &str, symbol: &str, side: &str, qty: i64, price: i64) -> (r: Fill)
    ensures
        r@ == (FillSyn { ts: ts@, symbol: symbol@, is_buy: side_av(side@) == Side::Buy, qty, price }),
{
    let is_buy: bool = same(side, "KJØP");
    Fill { ts_rfc3339: ts.to_owned(), symbol: symbol.to_owned(), is_buy, qty, price }
}

/// A row of the orders.
#[derive(Debug)]
pub struct OrdreRad {
    pub id: String,
    pub ts: String,
    pub symbol: String,
    pub side: String,
    pub qty: i64,
    pub price: i64,
    pub status: String,
    pub broker: String,
    pub note: String,
}

/// The row of an order, at a time that is written already.
pub fn ordre_rad(o: &Order, ts: &str, broker: &str) -> (r: OrdreRad)
    ensures
        r.id@ == o.id@ && r.ts@ == ts@ && r.symbol@ == o.symbol@ && r.side@ == o.side.tekst_spec(),
        r.qty == o.qty && r.price == o.avg_price && r.status@ == o.status.tekst_spec(),
        r.broker@ == broker@ && r.note@ == o.note@,
{
    OrdreRad {
        id: copy_text(&o.id),
        ts: ts.to_owned(),
        symbol: copy_text(&o.symbol),
        side: o.side.tekst().to_owned(),
        qty: o.qty,
        price: o.avg_price,
        status: o.status.tekst().to_owned(),
        broker: broker.to_owned(),
        note: copy_text(&o.note),
    }
}

/// Whether a row counts as filled.
pub fn er_fylt(r: &OrdreRad) -> (b: bool)
    ensures
        b == (r.status@ == "FYLT"@),
{
    same(r.status.as_str(), "FYLT")
}

/// An order is filled exactly where its row says so.
pub proof fn law_fylt_leses_tilbake(s: OrderStatus)
    ensures
        (s.tekst_spec() == "FYLT"@) == (s == OrderStatus::Filled),
{
    reveal_strlit("FYLT");
    reveal_strlit("SENDT");
    reveal_strlit("AVVIST");
    reveal_strlit("KANSELLERT");
    assert("FYLT"@.len() == 4 && "SENDT"@.len() == 5 && "AVVIST"@.len() == 6 && "KANSELLERT"@.len() == 10);
}

/// A point in time is shown with the day before the month and the year, and the
/// time of day to the minute.
pub proof fn law_vist_tid(aar: Seq<char>, mnd: Seq<char>, dag: Seq<char>, time: Seq<char>, minutt: Seq<char>, rest: Seq<char>)
    requires
        aar.len() == 4,
        mnd.len() == 2,
        dag.len() == 2,
        time.len() == 2,
        minutt.len() == 2,
        dato::rfc3339(aar + seq!['-'] + mnd + seq!['-'] + dag + seq!['T'] + time + seq![':'] + minutt + rest),
    ensures
        vist_tid(aar + seq!['-'] + mnd + seq!['-'] + dag + seq!['T'] + time + seq![':'] + minutt + rest) == dag + seq!['.']
            + mnd + seq!['.'] + aar + seq![' '] + time + seq![':'] + minutt,
{
    let s = aar + seq!['-'] + mnd + seq!['-'] + dag + seq!['T'] + time + seq![':'] + minutt + rest;
    assert(s.subrange(0, 4) =~= aar);
    assert(s.subrange(5, 7) =~= mnd);
    assert(s.subrange(8, 10) =~= dag);
    assert(s.subrange(11, 13) =~= time);
    assert(s.subrange(14, 16) =~= minutt);
}

}
