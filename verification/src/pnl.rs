//! Realised gains and losses, first in, first out, from the orders that were
//! filled.
use vstd::prelude::*;

use crate::belop;
use crate::dato;
use crate::number_text;
use crate::tabell::Tabell;
use crate::text;
use crate::text::{chars_of, copy_text, push_all, push_text, slice, string_of};

verus! {

/// One filled order, in the order of time.
#[derive(Debug)]
pub struct Fill {
    pub ts_rfc3339: String,
    pub symbol: String,
    pub is_buy: bool,
    pub qty: i64,
    pub price: i64,
}

#[verifier::ext_equal]
pub struct FillSyn {
    pub ts: Seq<char>,
    pub symbol: Seq<char>,
    pub is_buy: bool,
    pub qty: i64,
    pub price: i64,
}

impl View for Fill {
    type V = FillSyn;

    open spec fn view(&self) -> FillSyn {
        FillSyn {
            ts: self.ts_rfc3339@,
            symbol: self.symbol@,
            is_buy: self.is_buy,
            qty: self.qty,
            price: self.price,
        }
    }
}

pub open spec fn fyllinger(l: Seq<Fill>) -> Seq<FillSyn> {
    Seq::new(l.len(), |i: int| l[i]@)
}

/// A sale, or the part of one, that used up one purchase or a part of it.
#[derive(Debug)]
pub struct RealizedTrade {
    pub date: String,
    pub year: i32,
    pub symbol: String,
    pub qty: i64,
    pub buy_price: i64,
    pub sell_price: i64,
    pub gain: i128,
}

#[verifier::ext_equal]
pub struct HandelSyn {
    pub date: Seq<char>,
    pub year: int,
    pub symbol: Seq<char>,
    pub qty: int,
    pub buy_price: int,
    pub sell_price: int,
    pub gain: int,
}

impl View for RealizedTrade {
    type V = HandelSyn;

    open spec fn view(&self) -> HandelSyn {
        HandelSyn {
            date: self.date@,
            year: self.year as int,
            symbol: self.symbol@,
            qty: self.qty as int,
            buy_price: self.buy_price as int,
            sell_price: self.sell_price as int,
            gain: self.gain as int,
        }
    }
}

pub open spec fn handler(l: Seq<RealizedTrade>) -> Seq<HandelSyn> {
    Seq::new(l.len(), |i: int| l[i]@)
}

// ---------------------------------------------------------------------------
// First in, first out
// ---------------------------------------------------------------------------

/// The date of a sale, day, month and year, and the year; the text itself and
/// 0 where it is no point in time.
pub open spec fn salgsdato(ts: Seq<char>) -> (Seq<char>, int) {
    if dato::rfc3339(ts) {
        (
            ts.subrange(8, 10) + seq!['.'] + ts.subrange(5, 7) + seq!['.'] + ts.subrange(0, 4),
            number_text::digits_value(ts.subrange(0, 4)) as int,
        )
    } else {
        (ts, 0)
    }
}

/// One purchase, or what is left of it: how many, and at what price.
pub type Post = (i64, i64);

/// The part of a sale that `antall` from a purchase make up.
pub open spec fn handel(f: FillSyn, antall: int, kjopspris: int) -> HandelSyn {
    HandelSyn {
        date: salgsdato(f.ts).0,
        year: salgsdato(f.ts).1,
        symbol: f.symbol,
        qty: antall,
        buy_price: kjopspris,
        sell_price: f.price as int,
        gain: (f.price - kjopspris) * antall,
    }
}

/// What a sale of `rest` leaves of the purchases, and the trades that it
/// makes: the oldest purchase goes first, and what was never bought is
/// skipped.
pub open spec fn salg(poster: Seq<Post>, rest: int, f: FillSyn) -> (Seq<Post>, Seq<HandelSyn>)
    decreases poster.len(),
{
    if rest <= 0 || poster.len() == 0 {
        (poster, Seq::empty())
    } else {
        let (antall, pris) = poster[0];
        if antall <= rest {
            let (igjen, resten) = salg(poster.skip(1), rest - antall, f);
            (igjen, seq![handel(f, antall as int, pris as int)] + resten)
        } else {
            (
                poster.update(0, ((antall - rest) as i64, pris)),
                seq![handel(f, rest, pris as int)],
            )
        }
    }
}

/// The purchases of a symbol that are left after the orders.
pub open spec fn beholdning(ordrer: Seq<FillSyn>, symbol: Seq<char>) -> Seq<Post>
    decreases ordrer.len(),
{
    if ordrer.len() == 0 {
        Seq::empty()
    } else {
        let f = ordrer.last();
        let for_ = beholdning(ordrer.drop_last(), symbol);
        if f.symbol != symbol {
            for_
        } else if f.is_buy {
            for_.push((f.qty, f.price))
        } else {
            salg(for_, f.qty as int, f).0
        }
    }
}

/// The trades that the orders realise.
pub open spec fn realisert(ordrer: Seq<FillSyn>) -> Seq<HandelSyn>
    decreases ordrer.len(),
{
    if ordrer.len() == 0 {
        Seq::empty()
    } else {
        let f = ordrer.last();
        let for_ = realisert(ordrer.drop_last());
        if f.is_buy {
            for_
        } else {
            for_ + salg(beholdning(ordrer.drop_last(), f.symbol), f.qty as int, f).1
        }
    }
}

fn les_salgsdato(ts: &String) -> (r: (String, i32))
    ensures
        r.0@ == salgsdato(ts@).0,
        r.1 == salgsdato(ts@).1,
{
    if dato::er_rfc3339(ts.as_str()) {
        let cs: Vec<char> = chars_of(ts.as_str());
        let aar: Vec<char> = slice(cs.as_slice(), 0, 4);
        let maaned: Vec<char> = slice(cs.as_slice(), 5, 7);
        let mut ut: Vec<char> = slice(cs.as_slice(), 8, 10);
        ut.push('.');
        push_all(&mut ut, maaned.as_slice());
        ut.push('.');
        push_all(&mut ut, aar.as_slice());
        assert(ut@ =~= salgsdato(ts@).0);
        let tall: i32 = aarstall(&aar);
        (string_of(ut.as_slice()), tall)
    } else {
        (copy_text(ts), 0)
    }
}

fn aarstall(aar: &Vec<char>) -> (r: i32)
    requires
        aar@.len() == 4,
        number_text::all_digits(aar@),
    ensures
        r == number_text::digits_value(aar@),
        0 <= r <= 9999,
{
    proof {
        reveal_with_fuel(number_text::digits_value, 5);
        assert(aar@.drop_last()[0] == aar@[0]);
        assert(aar@.drop_last().drop_last()[1] == aar@[1]);
        assert(number_text::is_digit(aar@[0]) && number_text::is_digit(aar@[1]) && number_text::is_digit(aar@[2])
            && number_text::is_digit(aar@[3]));
    }
    (aar[0] as i32 - 48) * 1000 + (aar[1] as i32 - 48) * 100 + (aar[2] as i32 - 48) * 10 + (aar[3] as i32 - 48)
}

/// Makes the trades of one sale.
fn selg(poster: &mut Vec<Post>, f: &Fill, ut: &mut Vec<RealizedTrade>)
    ensures
        final(poster)@ == salg(old(poster)@, f.qty as int, f@).0,
        handler(final(ut)@) == handler(old(ut)@) + salg(old(poster)@, f.qty as int, f@).1,
{
    let (dag, aar): (String, i32) = les_salgsdato(&f.ts_rfc3339);
    let mut rest: u128 = if f.qty > 0 {
        f.qty as u128
    } else {
        0
    };
    let ghost alle = salg(poster@, f.qty as int, f@);
    let ghost for_ = handler(ut@);
    let ghost n: nat = poster@.len();
    let _lengde: usize = poster.len();
    assert(for_ + alle.1 =~= handler(ut@) + salg(poster@, rest as int, f@).1);
    while rest > 0 && poster.len() > 0
        invariant
            alle.0 == salg(poster@, rest as int, f@).0,
            for_ + alle.1 == handler(ut@) + salg(poster@, rest as int, f@).1,
            dag@ == salgsdato(f.ts_rfc3339@).0,
            aar == salgsdato(f.ts_rfc3339@).1,
            poster@.len() <= n <= usize::MAX,
            rest <= 0x8000_0000_0000_0000 * (1 + n - poster@.len()),
        decreases poster@.len(), rest,
    {
        let (antall, pris): Post = poster[0];
        let ghost gamle = poster@;
        let ghost gamle_ut = handler(ut@);
        let ghost gammel_rest = rest as int;
        let tatt: i64 = if antall < 0 || antall as u128 <= rest {
            antall
        } else {
            rest as i64
        };
        proof {
            let d = f.price - pris;
            assert(i128::MIN <= d * tatt <= i128::MAX) by (nonlinear_arith)
                requires
                    -0xffff_ffff_ffff_ffff <= d <= 0xffff_ffff_ffff_ffff,
                    -0x8000_0000_0000_0000 <= tatt <= 0x7fff_ffff_ffff_ffff,
            ;
        }
        let t: RealizedTrade = RealizedTrade {
            date: copy_text(&dag),
            year: aar,
            symbol: copy_text(&f.symbol),
            qty: tatt,
            buy_price: pris,
            sell_price: f.price,
            gain: (f.price as i128 - pris as i128) * tatt as i128,
        };
        assert(t@ =~= handel(f@, tatt as int, pris as int));
        ut.push(t);
        assert(handler(ut@) =~= gamle_ut.push(handel(f@, tatt as int, pris as int)));
        if antall < 0 {
            rest = rest + (-(antall as i128)) as u128;
            poster.remove(0);
            assert(poster@ =~= gamle.skip(1));
        } else if antall as u128 <= rest {
            rest = rest - antall as u128;
            poster.remove(0);
            assert(poster@ =~= gamle.skip(1));
        } else {
            poster.set(0, (antall - tatt, pris));
            rest = 0;
            assert(poster@ =~= gamle.update(0, ((antall - gammel_rest) as i64, pris)));
        }
        assert(handler(ut@) + salg(poster@, rest as int, f@).1 =~= gamle_ut + salg(gamle, gammel_rest, f@).1);
    }
    assert(handler(ut@) + salg(poster@, rest as int, f@).1 =~= handler(ut@));
}

/// The trades that the orders realise, each sale against the oldest purchases.
pub fn realized_fifo(fills: &[Fill]) -> (r: Vec<RealizedTrade>)
    ensures
        handler(r@) == realisert(fyllinger(fills@)),
{
    let mut poster: Tabell<Vec<Post>> = Tabell::ny();
    let mut ut: Vec<RealizedTrade> = Vec::new();
    let ghost alle = fyllinger(fills@);
    let mut i: usize = 0;
    assert(handler(ut@) =~= realisert(alle.take(0)));
    while i < fills.len()
        invariant
            i <= fills@.len(),
            alle == fyllinger(fills@),
            poster.ordnet(),
            handler(ut@) == realisert(alle.take(i as int)),
            forall|s: Seq<char>| #[trigger] poster_av(poster, s) == beholdning(alle.take(i as int), s),
        decreases fills.len() - i,
    {
        let f: &Fill = &fills[i];
        let ghost til = alle.take(i as int);
        let ghost gammel = poster;
        proof {
            assert(alle.take(i + 1).drop_last() =~= til);
            assert(alle.take(i + 1).last() == f@);
            assert(poster_av(gammel, f.symbol@) == beholdning(til, f.symbol@));
        }
        let mut ko: Vec<Post> = match poster.ta(f.symbol.as_str()) {
            Some(k) => k,
            None => Vec::new(),
        };
        assert(ko@ =~= beholdning(til, f.symbol@));
        if f.is_buy {
            ko.push((f.qty, f.price));
        } else {
            selg(&mut ko, f, &mut ut);
        }
        let ghost ny_ko = ko@;
        poster.sett(f.symbol.as_str(), ko);
        proof {
            assert(ny_ko == beholdning(alle.take(i + 1), f.symbol@));
            assert forall|s: Seq<char>| #[trigger] poster_av(poster, s) == beholdning(alle.take(i + 1), s) by {
                assert(poster_av(gammel, s) == beholdning(til, s));
            }
        }
        i += 1;
    }
    assert(alle.take(i as int) =~= alle);
    ut
}

/// The purchases that the table holds of a symbol.
pub open spec fn poster_av(t: Tabell<Vec<Post>>, symbol: Seq<char>) -> Seq<Post> {
    if t@.dom().contains(symbol) {
        t@[symbol]@
    } else {
        Seq::empty()
    }
}

// ---------------------------------------------------------------------------
// Sums and the report
// ---------------------------------------------------------------------------

/// The gains of a year together; of all years for 0.
pub open spec fn gevinst(l: Seq<HandelSyn>, aar: int) -> int
    decreases l.len(),
{
    if l.len() == 0 {
        0
    } else {
        gevinst(l.drop_last(), aar) + (if aar == 0 || l.last().year == aar {
            l.last().gain
        } else {
            0
        })
    }
}

/// Whether the gains can be added up one by one.
pub open spec fn kan_summeres(l: Seq<HandelSyn>, aar: int) -> bool {
    forall|n: int| 0 <= n <= l.len() ==> i128::MIN <= #[trigger] gevinst(l.take(n), aar) <= i128::MAX
}

/// The gains of a year together, of all years for 0; none where a sum on the
/// way is past counting.
pub fn total_gain(trades: &[RealizedTrade], year: i32) -> (r: Option<i128>)
    ensures
        r is Some == kan_summeres(handler(trades@), year as int),
        r matches Some(s) ==> s == gevinst(handler(trades@), year as int),
{
    let mut s: i128 = 0;
    let mut i: usize = 0;
    let ghost alle = handler(trades@);
    while i < trades.len()
        invariant
            i <= trades@.len(),
            alle == handler(trades@),
            s == gevinst(alle.take(i as int), year as int),
            forall|n: int|
                0 <= n <= i ==> i128::MIN <= #[trigger] gevinst(alle.take(n), year as int) <= i128::MAX,
        decreases trades.len() - i,
    {
        proof {
            assert(alle.take(i + 1).drop_last() =~= alle.take(i as int));
            assert(alle.take(i + 1).last() == trades@[i as int]@);
        }
        if year == 0 || trades[i].year == year {
            match s.checked_add(trades[i].gain) {
                Some(ny) => {
                    s = ny;
                },
                None => {
                    assert(!(i128::MIN <= gevinst(alle.take(i + 1), year as int) <= i128::MAX));
                    return None;
                },
            }
        }
        i += 1;
    }
    assert(alle.take(i as int) =~= alle);
    Some(s)
}

/// The columns of a trade in the report.
pub open spec fn kolonner(t: HandelSyn) -> Seq<Seq<char>> {
    seq![
        number_text::signed_decimal(t.year),
        t.date,
        t.symbol,
        belop::belop_tekst(t.qty, 4),
        belop::belop_tekst(t.buy_price, 4),
        belop::belop_tekst(t.sell_price, 4),
        belop::verdi_tekst(t.gain, 2),
    ]
}

/// The tax report: a heading and a line for each trade, with semicolons
/// between the columns.
pub open spec fn rapport(l: Seq<HandelSyn>) -> Seq<char>
    decreases l.len(),
{
    if l.len() == 0 {
        "År;Salgsdato;Symbol;Antall;Kjøpskurs;Salgskurs;Gevinst\n"@
    } else {
        rapport(l.drop_last()) + text::joined(kolonner(l.last()), ";"@) + seq!['\n']
    }
}

fn skriv_kolonner(t: &RealizedTrade) -> (r: String)
    ensures
        r@ == text::joined(kolonner(t@), ";"@),
{
    let aar: Vec<char> = number_text::write_signed(t.year as i128);
    let gain: Vec<char> = belop::skriv(t.gain, 16, 2);
    let deler: Vec<String> = vec![
        string_of(aar.as_slice()),
        copy_text(&t.date),
        copy_text(&t.symbol),
        belop::som_tekst(t.qty, 4),
        belop::som_tekst(t.buy_price, 4),
        belop::som_tekst(t.sell_price, 4),
        string_of(gain.as_slice()),
    ];
    assert(text::views(deler@) =~= kolonner(t@));
    text::join_text(&deler, ";")
}

/// The text of the tax report.
pub fn export_realized_csv(trades: &[RealizedTrade]) -> (r: String)
    ensures
        r@ == rapport(handler(trades@)),
{
    let mut ut: Vec<char> = Vec::new();
    push_text(&mut ut, "År;Salgsdato;Symbol;Antall;Kjøpskurs;Salgskurs;Gevinst\n");
    let ghost alle = handler(trades@);
    let mut i: usize = 0;
    assert(ut@ =~= rapport(alle.take(0)));
    while i < trades.len()
        invariant
            i <= trades@.len(),
            alle == handler(trades@),
            ut@ == rapport(alle.take(i as int)),
        decreases trades.len() - i,
    {
        proof {
            assert(alle.take(i + 1).drop_last() =~= alle.take(i as int));
            assert(alle.take(i + 1).last() == trades@[i as int]@);
        }
        let linje: String = skriv_kolonner(&trades[i]);
        push_text(&mut ut, linje.as_str());
        ut.push('\n');
        assert(ut@ =~= rapport(alle.take(i + 1)));
        i += 1;
    }
    assert(alle.take(i as int) =~= alle);
    string_of(ut.as_slice())
}

// ---------------------------------------------------------------------------
// Laws
// ---------------------------------------------------------------------------

/// How many the purchases hold together.
pub open spec fn antall_i(poster: Seq<Post>) -> int
    decreases poster.len(),
{
    if poster.len() == 0 {
        0
    } else {
        poster[0].0 + antall_i(poster.skip(1))
    }
}

/// How many of a symbol the trades sold together.
pub open spec fn antall_solgt(l: Seq<HandelSyn>, symbol: Seq<char>) -> int
    decreases l.len(),
{
    if l.len() == 0 {
        0
    } else {
        antall_solgt(l.drop_last(), symbol) + (if l.last().symbol == symbol {
            l.last().qty
        } else {
            0
        })
    }
}

/// How many of a symbol the orders bought together.
pub open spec fn antall_kjopt(l: Seq<FillSyn>, symbol: Seq<char>) -> int
    decreases l.len(),
{
    if l.len() == 0 {
        0
    } else {
        antall_kjopt(l.drop_last(), symbol) + (if l.last().symbol == symbol && l.last().is_buy {
            l.last().qty as int
        } else {
            0
        })
    }
}

/// A sale goes through the purchases from the oldest on: its trades stand at
/// the prices of the first purchases, in their order, and each but the last
/// uses its purchase up.
pub proof fn law_eldste_forst(poster: Seq<Post>, rest: int, f: FillSyn)
    ensures
        salg(poster, rest, f).1.len() <= poster.len(),
        forall|i: int|
            0 <= i < salg(poster, rest, f).1.len() ==> (#[trigger] salg(poster, rest, f).1[i]).buy_price
                == poster[i].1,
        forall|i: int|
            0 <= i < salg(poster, rest, f).1.len() - 1 ==> (#[trigger] salg(poster, rest, f).1[i]).qty
                == poster[i].0,
    decreases poster.len(),
{
    if rest > 0 && poster.len() > 0 && poster[0].0 <= rest {
        law_eldste_forst(poster.skip(1), rest - poster[0].0, f);
        let t = salg(poster, rest, f).1;
        let u = salg(poster.skip(1), rest - poster[0].0, f).1;
        assert forall|i: int| 0 <= i < t.len() implies (#[trigger] t[i]).buy_price == poster[i].1 by {
            if i > 0 {
                assert(t[i] == u[i - 1]);
                assert(poster.skip(1)[i - 1] == poster[i]);
            }
        }
        assert forall|i: int| 0 <= i < t.len() - 1 implies (#[trigger] t[i]).qty == poster[i].0 by {
            if i > 0 {
                assert(t[i] == u[i - 1]);
                assert(poster.skip(1)[i - 1] == poster[i]);
            }
        }
    }
}

proof fn lemma_solgt_sum(a: Seq<HandelSyn>, b: Seq<HandelSyn>, symbol: Seq<char>)
    ensures
        antall_solgt(a + b, symbol) == antall_solgt(a, symbol) + antall_solgt(b, symbol),
    decreases b.len(),
{
    if b.len() == 0 {
        assert(a + b =~= a);
    } else {
        lemma_solgt_sum(a, b.drop_last(), symbol);
        assert((a + b).drop_last() =~= a + b.drop_last());
        assert((a + b).last() == b.last());
    }
}

proof fn lemma_salg_bevarer(poster: Seq<Post>, rest: int, f: FillSyn, symbol: Seq<char>)
    ensures
        f.symbol == symbol ==> antall_i(poster) == antall_i(salg(poster, rest, f).0) + antall_solgt(
            salg(poster, rest, f).1,
            symbol,
        ),
        f.symbol != symbol ==> antall_solgt(salg(poster, rest, f).1, symbol) == 0,
    decreases poster.len(),
{
    reveal_with_fuel(antall_solgt, 2);
    if rest > 0 && poster.len() > 0 {
        let (antall, pris) = poster[0];
        if antall <= rest {
            lemma_salg_bevarer(poster.skip(1), rest - antall, f, symbol);
            let en = seq![handel(f, antall as int, pris as int)];
            lemma_solgt_sum(en, salg(poster.skip(1), rest - antall, f).1, symbol);
            assert(en.drop_last() =~= Seq::<HandelSyn>::empty());
        } else {
            let ny = poster.update(0, ((antall - rest) as i64, pris));
            assert(ny.skip(1) =~= poster.skip(1));
            assert(seq![handel(f, rest, pris as int)].drop_last() =~= Seq::<HandelSyn>::empty());
        }
    }
}

proof fn lemma_antall_push(poster: Seq<Post>, p: Post)
    ensures
        antall_i(poster.push(p)) == antall_i(poster) + p.0,
    decreases poster.len(),
{
    reveal_with_fuel(antall_i, 2);
    if poster.len() == 0 {
        assert(poster.push(p).skip(1) =~= Seq::<Post>::empty());
    } else {
        assert(poster.push(p).skip(1) =~= poster.skip(1).push(p));
        lemma_antall_push(poster.skip(1), p);
    }
}

/// Nothing is lost or made: of every symbol, what was bought is what the
/// trades sold and what is left.
pub proof fn law_kjopt_er_solgt_og_igjen(ordrer: Seq<FillSyn>, symbol: Seq<char>)
    ensures
        antall_kjopt(ordrer, symbol) == antall_solgt(realisert(ordrer), symbol) + antall_i(
            beholdning(ordrer, symbol),
        ),
    decreases ordrer.len(),
{
    if ordrer.len() > 0 {
        let f = ordrer.last();
        let for_ = ordrer.drop_last();
        law_kjopt_er_solgt_og_igjen(for_, symbol);
        if f.is_buy {
            if f.symbol == symbol {
                lemma_antall_push(beholdning(for_, symbol), (f.qty, f.price));
            }
        } else {
            let poster = beholdning(for_, f.symbol);
            lemma_salg_bevarer(poster, f.qty as int, f, symbol);
            lemma_solgt_sum(realisert(for_), salg(poster, f.qty as int, f).1, symbol);
        }
    }
}

/// A sale of something of which nothing is left realises nothing.
pub proof fn law_salg_uten_kjop(ordrer: Seq<FillSyn>)
    requires
        ordrer.len() > 0,
        !ordrer.last().is_buy,
        beholdning(ordrer.drop_last(), ordrer.last().symbol).len() == 0,
    ensures
        realisert(ordrer) == realisert(ordrer.drop_last()),
{
    assert(realisert(ordrer) =~= realisert(ordrer.drop_last()));
}

/// The orders in one symbol.
pub open spec fn ordrer_i(ordrer: Seq<FillSyn>, symbol: Seq<char>) -> Seq<FillSyn>
    decreases ordrer.len(),
{
    if ordrer.len() == 0 {
        Seq::empty()
    } else {
        let for_ = ordrer_i(ordrer.drop_last(), symbol);
        if ordrer.last().symbol == symbol {
            for_.push(ordrer.last())
        } else {
            for_
        }
    }
}

/// The trades in one symbol.
pub open spec fn handler_i(l: Seq<HandelSyn>, symbol: Seq<char>) -> Seq<HandelSyn>
    decreases l.len(),
{
    if l.len() == 0 {
        Seq::empty()
    } else {
        let for_ = handler_i(l.drop_last(), symbol);
        if l.last().symbol == symbol {
            for_.push(l.last())
        } else {
            for_
        }
    }
}

proof fn lemma_handler_sammen(a: Seq<HandelSyn>, b: Seq<HandelSyn>, symbol: Seq<char>)
    ensures
        handler_i(a + b, symbol) == handler_i(a, symbol) + handler_i(b, symbol),
    decreases b.len(),
{
    if b.len() == 0 {
        assert(a + b =~= a);
        assert(handler_i(a, symbol) + handler_i(b, symbol) =~= handler_i(a, symbol));
    } else {
        lemma_handler_sammen(a, b.drop_last(), symbol);
        assert((a + b).drop_last() =~= a + b.drop_last());
        assert(handler_i(a + b, symbol) =~= handler_i(a, symbol) + handler_i(b, symbol));
    }
}

proof fn lemma_handler_av(l: Seq<HandelSyn>, eget: Seq<char>, symbol: Seq<char>)
    requires
        forall|i: int| 0 <= i < l.len() ==> (#[trigger] l[i]).symbol == eget,
    ensures
        eget == symbol ==> handler_i(l, symbol) == l,
        eget != symbol ==> handler_i(l, symbol) == Seq::<HandelSyn>::empty(),
    decreases l.len(),
{
    if l.len() > 0 {
        lemma_handler_av(l.drop_last(), eget, symbol);
        assert(l.drop_last().push(l.last()) =~= l);
    }
}

proof fn lemma_salg_symbol(poster: Seq<Post>, rest: int, f: FillSyn)
    ensures
        forall|i: int|
            0 <= i < salg(poster, rest, f).1.len() ==> (#[trigger] salg(poster, rest, f).1[i]).symbol == f.symbol,
    decreases poster.len(),
{
    if rest > 0 && poster.len() > 0 && poster[0].0 <= rest {
        lemma_salg_symbol(poster.skip(1), rest - poster[0].0, f);
        let t = salg(poster, rest, f).1;
        let u = salg(poster.skip(1), rest - poster[0].0, f).1;
        assert forall|i: int| 0 <= i < t.len() implies (#[trigger] t[i]).symbol == f.symbol by {
            if i > 0 {
                assert(t[i] == u[i - 1]);
            }
        }
    }
}

/// Orders in other symbols never change what a symbol realises nor what is left
/// of it.
pub proof fn law_symboler_hver_for_seg(ordrer: Seq<FillSyn>, symbol: Seq<char>)
    ensures
        beholdning(ordrer, symbol) == beholdning(ordrer_i(ordrer, symbol), symbol),
        handler_i(realisert(ordrer), symbol) == realisert(ordrer_i(ordrer, symbol)),
    decreases ordrer.len(),
{
    if ordrer.len() > 0 {
        let f = ordrer.last();
        let for_ = ordrer.drop_last();
        law_symboler_hver_for_seg(for_, symbol);
        let egne = ordrer_i(for_, symbol);
        assert(egne.push(f).drop_last() =~= egne);
        if !f.is_buy {
            let t = salg(beholdning(for_, f.symbol), f.qty as int, f).1;
            lemma_salg_symbol(beholdning(for_, f.symbol), f.qty as int, f);
            lemma_handler_sammen(realisert(for_), t, symbol);
            lemma_handler_av(t, f.symbol, symbol);
            if f.symbol != symbol {
                assert(handler_i(realisert(ordrer), symbol) =~= handler_i(realisert(for_), symbol));
            }
        }
    }
}

/// The gains of trades together, whatever their year.
pub open spec fn sum_av(l: Seq<HandelSyn>) -> int {
    l.fold_left(0int, |s: int, t: HandelSyn| s + t.gain)
}

/// A year's gains are those of the trades of exactly that year, and no other trade
/// counts; for 0 every trade counts.
pub proof fn law_bare_aarets_handler_teller(l: Seq<HandelSyn>, aar: int)
    ensures
        aar != 0 ==> gevinst(l, aar) == sum_av(l.filter(|t: HandelSyn| t.year == aar)),
        gevinst(l, 0) == sum_av(l),
    decreases l.len(),
{
    let p = |t: HandelSyn| t.year == aar;
    reveal(Seq::filter);
    if l.len() > 0 {
        let f = l.drop_last();
        law_bare_aarets_handler_teller(f, aar);
        if p(l.last()) {
            assert(f.filter(p).push(l.last()).drop_last() =~= f.filter(p));
        }
    }
}

/// The gains of the years together: each year added up once.
pub open spec fn sum_over_aar(l: Seq<HandelSyn>, aar: Seq<int>) -> int
    decreases aar.len(),
{
    if aar.len() == 0 {
        0
    } else {
        sum_over_aar(l, aar.drop_last()) + gevinst(l, aar.last())
    }
}

proof fn lemma_en_handel_til(l: Seq<HandelSyn>, t: HandelSyn, aar: Seq<int>)
    requires
        forall|i: int| 0 <= i < aar.len() ==> #[trigger] aar[i] != 0,
        forall|i: int, j: int| 0 <= i < j < aar.len() ==> aar[i] != aar[j],
    ensures
        sum_over_aar(l.push(t), aar) == sum_over_aar(l, aar) + (if aar.contains(t.year) {
            t.gain
        } else {
            0
        }),
    decreases aar.len(),
{
    if aar.len() > 0 {
        let f = aar.drop_last();
        assert forall|i: int, j: int| 0 <= i < j < f.len() implies f[i] != f[j] by {
            assert(aar[i] != aar[j]);
        }
        assert forall|i: int| 0 <= i < f.len() implies #[trigger] f[i] != 0 by {
            assert(aar[i] != 0);
        }
        lemma_en_handel_til(l, t, f);
        assert(l.push(t).drop_last() =~= l);
        assert(aar[aar.len() - 1] != 0);
        if aar.contains(t.year) && aar.last() != t.year {
            let i = choose|i: int| 0 <= i < aar.len() && aar[i] == t.year;
            assert(f[i] == t.year);
        }
        if f.contains(t.year) {
            let i = choose|i: int| 0 <= i < f.len() && f[i] == t.year;
            assert(aar[i] == t.year);
            assert(aar[i] != aar[aar.len() - 1]);
        }
        assert(aar.last() == t.year ==> aar.contains(t.year));
    }
}

/// No gain is counted in two years, and none is forgotten: the gains of distinct
/// years that hold all trades add up to the gains of all years.
pub proof fn law_aarene_summerer(l: Seq<HandelSyn>, aar: Seq<int>)
    requires
        forall|i: int| 0 <= i < aar.len() ==> #[trigger] aar[i] != 0,
        forall|i: int, j: int| 0 <= i < j < aar.len() ==> aar[i] != aar[j],
        forall|i: int| 0 <= i < l.len() ==> aar.contains((#[trigger] l[i]).year),
    ensures
        sum_over_aar(l, aar) == gevinst(l, 0),
    decreases l.len(),
{
    if l.len() == 0 {
        lemma_ingen_handler(l, aar);
    } else {
        let f = l.drop_last();
        assert forall|i: int| 0 <= i < f.len() implies aar.contains((#[trigger] f[i]).year) by {
            assert(f[i] == l[i]);
        }
        law_aarene_summerer(f, aar);
        lemma_en_handel_til(f, l.last(), aar);
        assert(f.push(l.last()) =~= l);
        assert(aar.contains(l[l.len() - 1].year));
    }
}

proof fn lemma_ingen_handler(l: Seq<HandelSyn>, aar: Seq<int>)
    requires
        l.len() == 0,
    ensures
        sum_over_aar(l, aar) == 0,
    decreases aar.len(),
{
    if aar.len() > 0 {
        lemma_ingen_handler(l, aar.drop_last());
    }
}

/// Whether every purchase holds something.
pub open spec fn alle_positive(poster: Seq<Post>) -> bool {
    forall|i: int| 0 <= i < poster.len() ==> (#[trigger] poster[i]).0 > 0
}

/// A sale sells as many as it asks for, or all there are; what is left are the
/// newest purchases, untouched but for the oldest of them, which keeps its price.
/// Every trade gains the difference of the two prices on each that it sold.
pub proof fn law_salget_tar_det_som_finnes(poster: Seq<Post>, rest: int, f: FillSyn)
    requires
        alle_positive(poster),
        rest >= 0,
    ensures
        antall_solgt(salg(poster, rest, f).1, f.symbol) == (if rest <= antall_i(poster) {
            rest
        } else {
            antall_i(poster)
        }),
        antall_i(salg(poster, rest, f).0) == (if rest <= antall_i(poster) {
            antall_i(poster) - rest
        } else {
            0
        }),
        antall_i(poster) >= 0,
        alle_positive(salg(poster, rest, f).0),
        salg(poster, rest, f).0.len() <= poster.len(),
        forall|i: int|
            1 <= i < salg(poster, rest, f).0.len() ==> #[trigger] salg(poster, rest, f).0[i] == poster[i + poster.len()
                - salg(poster, rest, f).0.len()],
        salg(poster, rest, f).0.len() > 0 ==> salg(poster, rest, f).0[0].1 == poster[poster.len() - salg(
            poster,
            rest,
            f,
        ).0.len()].1,
        forall|i: int|
            0 <= i < salg(poster, rest, f).1.len() ==> {
                let t = #[trigger] salg(poster, rest, f).1[i];
                &&& t.symbol == f.symbol
                &&& t.sell_price == f.price
                &&& t.qty > 0
                &&& t.gain == t.qty * t.sell_price - t.qty * t.buy_price
            },
    decreases poster.len(),
{
    lemma_salg_bevarer(poster, rest, f, f.symbol);
    if poster.len() > 0 {
        assert(poster[0].0 > 0);
        let hale = poster.skip(1);
        assert forall|i: int| 0 <= i < hale.len() implies (#[trigger] hale[i]).0 > 0 by {
            assert(hale[i] == poster[i + 1]);
        }
        law_salget_tar_det_som_finnes(
            hale,
            if rest > poster[0].0 {
                rest - poster[0].0
            } else {
                0
            },
            f,
        );
        let (igjen, t) = salg(poster, rest, f);
        let pris = poster[0].1 as int;
        let antall = poster[0].0 as int;
        if rest > 0 && antall <= rest {
            let (igjen2, t2) = salg(hale, rest - antall, f);
            assert forall|i: int| 0 <= i < t.len() implies {
                let h = #[trigger] t[i];
                &&& h.symbol == f.symbol
                &&& h.sell_price == f.price
                &&& h.qty > 0
                &&& h.gain == h.qty * h.sell_price - h.qty * h.buy_price
            } by {
                if i > 0 {
                    assert(t[i] == t2[i - 1]);
                } else {
                    assert((f.price - pris) * antall == antall * f.price - antall * pris) by (nonlinear_arith);
                }
            }
            assert forall|i: int| 1 <= i < igjen.len() implies #[trigger] igjen[i] == poster[i + poster.len() - igjen.len()] by {
                assert(igjen2[i] == hale[i + hale.len() - igjen2.len()]);
            }
        } else if rest > 0 {
            assert((f.price - pris) * rest == rest * f.price - rest * pris) by (nonlinear_arith);
            assert(igjen.skip(1) =~= hale);
        }
    } else {
        assert(salg(poster, rest, f).1.len() == 0);
    }
}

/// Every realised trade answers to a sale among the orders, in its symbol, at its
/// price and on its date, and gains the difference of the prices on each share.
pub proof fn law_handel_svarer_til_salg(ordrer: Seq<FillSyn>, i: int)
    requires
        0 <= i < realisert(ordrer).len(),
    ensures
        exists|j: int|
            0 <= j < ordrer.len() && !(#[trigger] ordrer[j]).is_buy && ordrer[j].symbol == realisert(ordrer)[i].symbol
                && ordrer[j].price == realisert(ordrer)[i].sell_price && salgsdato(ordrer[j].ts) == (
                realisert(ordrer)[i].date,
                realisert(ordrer)[i].year,
            ),
        realisert(ordrer)[i].gain == realisert(ordrer)[i].qty * realisert(ordrer)[i].sell_price - realisert(
            ordrer,
        )[i].qty * realisert(ordrer)[i].buy_price,
    decreases ordrer.len(),
{
    let f = ordrer.last();
    let for_ = ordrer.drop_last();
    let r = realisert(for_);
    if i < r.len() {
        law_handel_svarer_til_salg(for_, i);
        assert(realisert(ordrer)[i] == r[i]);
        let j = choose|j: int|
            0 <= j < for_.len() && !(#[trigger] for_[j]).is_buy && for_[j].symbol == r[i].symbol && for_[j].price
                == r[i].sell_price && salgsdato(for_[j].ts) == (r[i].date, r[i].year);
        assert(for_[j] == ordrer[j]);
    } else {
        let poster = beholdning(for_, f.symbol);
        lemma_handler_av_salget(poster, f.qty as int, f, i - r.len());
        assert(ordrer[ordrer.len() - 1] == f);
    }
}

proof fn lemma_handler_av_salget(poster: Seq<Post>, rest: int, f: FillSyn, i: int)
    requires
        0 <= i < salg(poster, rest, f).1.len(),
    ensures
        ({
            let t = salg(poster, rest, f).1[i];
            &&& t.symbol == f.symbol
            &&& t.sell_price == f.price
            &&& salgsdato(f.ts) == (t.date, t.year)
            &&& t.gain == t.qty * t.sell_price - t.qty * t.buy_price
        }),
    decreases poster.len(),
{
    let (antall, pris) = poster[0];
    assert((f.price - pris) * antall == antall * f.price - antall * pris) by (nonlinear_arith);
    assert((f.price - pris) * rest == rest * f.price - rest * pris) by (nonlinear_arith);
    if antall <= rest && i > 0 {
        lemma_handler_av_salget(poster.skip(1), rest - antall, f, i - 1);
        assert(salg(poster, rest, f).1[i] == salg(poster.skip(1), rest - antall, f).1[i - 1]);
    }
}

/// The date of a sale is written day, month and year with full stops between, as
/// they stand in the point in time, and the year is the number that is written.
pub proof fn law_salgsdato(ts: Seq<char>)
    requires
        dato::rfc3339(ts),
        dato::begynner_med_tid(ts),
    ensures
        salgsdato(ts).0.len() == 10,
        salgsdato(ts).0[0] == ts[8] && salgsdato(ts).0[1] == ts[9],
        salgsdato(ts).0[3] == ts[5] && salgsdato(ts).0[4] == ts[6],
        forall|i: int| 0 <= i < 4 ==> salgsdato(ts).0[6 + i] == #[trigger] ts[i],
        salgsdato(ts).0[2] == '.' && salgsdato(ts).0[5] == '.',
        salgsdato(ts).1 == number_text::digits_value(salgsdato(ts).0.subrange(6, 10)),
{
    assert(salgsdato(ts).0.subrange(6, 10) =~= ts.subrange(0, 4));
}

/// The newest purchase stands last in line, behind all that were there before.
pub proof fn law_nyeste_kjop_sist(ordrer: Seq<FillSyn>, f: FillSyn)
    requires
        f.is_buy,
    ensures
        beholdning(ordrer.push(f), f.symbol).len() == beholdning(ordrer, f.symbol).len() + 1,
        beholdning(ordrer.push(f), f.symbol).last() == (f.qty, f.price),
        forall|i: int|
            0 <= i < beholdning(ordrer, f.symbol).len() ==> #[trigger] beholdning(ordrer.push(f), f.symbol)[i]
                == beholdning(ordrer, f.symbol)[i],
        realisert(ordrer.push(f)) == realisert(ordrer),
{
    assert(ordrer.push(f).drop_last() =~= ordrer);
}

/// A sale after purchases of one symbol sells them in the order in which they were
/// bought.
pub proof fn law_forst_inn_forst_ut(kjop: Seq<FillSyn>, f: FillSyn)
    requires
        !f.is_buy,
        forall|i: int| 0 <= i < kjop.len() ==> (#[trigger] kjop[i]).is_buy && kjop[i].symbol == f.symbol,
    ensures
        realisert(kjop.push(f)).len() <= kjop.len(),
        forall|i: int|
            0 <= i < realisert(kjop.push(f)).len() ==> (#[trigger] realisert(kjop.push(f))[i]).buy_price
                == kjop[i].price,
{
    lemma_bare_kjop(kjop, f.symbol);
    assert(kjop.push(f).drop_last() =~= kjop);
    let b = beholdning(kjop, f.symbol);
    law_eldste_forst(b, f.qty as int, f);
    let t = salg(b, f.qty as int, f).1;
    assert(realisert(kjop.push(f)) =~= t);
    assert forall|i: int| 0 <= i < t.len() implies (#[trigger] t[i]).buy_price == kjop[i].price by {
        assert(b[i] == (kjop[i].qty, kjop[i].price));
    }
}

proof fn lemma_bare_kjop(kjop: Seq<FillSyn>, symbol: Seq<char>)
    requires
        forall|i: int| 0 <= i < kjop.len() ==> (#[trigger] kjop[i]).is_buy && kjop[i].symbol == symbol,
    ensures
        beholdning(kjop, symbol).len() == kjop.len(),
        forall|i: int|
            0 <= i < kjop.len() ==> #[trigger] beholdning(kjop, symbol)[i] == (kjop[i].qty, kjop[i].price),
        realisert(kjop) == Seq::<HandelSyn>::empty(),
    decreases kjop.len(),
{
    if kjop.len() > 0 {
        let d = kjop.drop_last();
        assert forall|i: int| 0 <= i < d.len() implies (#[trigger] d[i]).is_buy && d[i].symbol == symbol by {
            assert(d[i] == kjop[i]);
        }
        lemma_bare_kjop(d, symbol);
        assert(kjop[kjop.len() - 1].is_buy);
        assert forall|i: int| 0 <= i < kjop.len() implies #[trigger] beholdning(kjop, symbol)[i] == (
            kjop[i].qty,
            kjop[i].price,
        ) by {
            if i < d.len() {
                assert(beholdning(d, symbol)[i] == (d[i].qty, d[i].price));
            }
        }
    }
}

/// The lines of the report, without what ends them.
spec fn linjer(l: Seq<HandelSyn>) -> Seq<Seq<char>> {
    Seq::new(
        l.len() + 1,
        |i: int|
            if i == 0 {
                "År;Salgsdato;Symbol;Antall;Kjøpskurs;Salgskurs;Gevinst"@
            } else {
                text::joined(kolonner(l[i - 1]), ";"@)
            },
    )
}

proof fn lemma_rapport_linjer(l: Seq<HandelSyn>)
    ensures
        rapport(l) == text::joined(linjer(l), seq!['\n']) + seq!['\n'],
    decreases l.len(),
{
    reveal_strlit("År;Salgsdato;Symbol;Antall;Kjøpskurs;Salgskurs;Gevinst\n");
    reveal_strlit("År;Salgsdato;Symbol;Antall;Kjøpskurs;Salgskurs;Gevinst");
    if l.len() == 0 {
        assert(rapport(l) =~= text::joined(linjer(l), seq!['\n']) + seq!['\n']);
    } else {
        lemma_rapport_linjer(l.drop_last());
        assert(linjer(l).drop_last() =~= linjer(l.drop_last()));
    }
}

/// The report can be read back: it has a heading and one line for each trade, in
/// their order, and a line has the year, the date, the symbol, how many, the two
/// prices and the gain between its semicolons.
pub proof fn law_rapporten_har_alle_handler(l: Seq<HandelSyn>, i: int)
    requires
        0 <= i < l.len(),
        forall|a: int, b: int|
            0 <= a < l.len() && 0 <= b < 7 ==> !(#[trigger] kolonner(l[a])[b]).contains('\n') && !kolonner(
                l[a],
            )[b].contains(';'),
    ensures
        text::split_on(rapport(l), '\n').len() == l.len() + 2,
        text::split_on(rapport(l), '\n').last().len() == 0,
        text::split_on(text::split_on(rapport(l), '\n')[i + 1], ';') == seq![
            number_text::signed_decimal(l[i].year),
            l[i].date,
            l[i].symbol,
            belop::belop_tekst(l[i].qty, 4),
            belop::belop_tekst(l[i].buy_price, 4),
            belop::belop_tekst(l[i].sell_price, 4),
            belop::verdi_tekst(l[i].gain, 2),
        ],
{
    reveal_strlit("År;Salgsdato;Symbol;Antall;Kjøpskurs;Salgskurs;Gevinst");
    reveal_strlit(";");
    lemma_rapport_linjer(l);
    let ll = linjer(l);
    assert(";"@ =~= seq![';']);
    assert forall|a: int| 0 <= a < l.len() implies !text::joined(#[trigger] kolonner(l[a]), ";"@).contains('\n') by {
        assert forall|b: int| 0 <= b < kolonner(l[a]).len() implies !(#[trigger] kolonner(l[a])[b]).contains('\n') by {
        }
        lemma_uten_tegn(kolonner(l[a]), ";"@, '\n');
    }
    assert forall|a: int| 0 <= a < ll.len() implies !(#[trigger] ll[a]).contains('\n') by {
        if a > 0 {
            assert(!text::joined(kolonner(l[a - 1]), ";"@).contains('\n'));
        }
    }
    text::law_split_join(ll, '\n');
    let tom = Seq::<char>::empty();
    text::law_split_concat(text::joined(ll, seq!['\n']), '\n', tom);
    text::lemma_split_none(tom, '\n');
    assert(rapport(l) =~= text::joined(ll, seq!['\n']) + seq!['\n'] + tom);
    let s = text::split_on(rapport(l), '\n');
    assert(s =~= ll + seq![tom]);
    assert(s[i + 1] == text::joined(kolonner(l[i]), ";"@));
    let k = kolonner(l[i]);
    assert forall|b: int| 0 <= b < k.len() implies !(#[trigger] k[b]).contains(';') by {
        assert(!kolonner(l[i])[b].contains(';'));
    }
    text::law_split_join(k, ';');
    assert(k =~= seq![
        number_text::signed_decimal(l[i].year),
        l[i].date,
        l[i].symbol,
        belop::belop_tekst(l[i].qty, 4),
        belop::belop_tekst(l[i].buy_price, 4),
        belop::belop_tekst(l[i].sell_price, 4),
        belop::verdi_tekst(l[i].gain, 2),
    ]);
}

proof fn lemma_uten_tegn(deler: Seq<Seq<char>>, skille: Seq<char>, c: char)
    requires
        !skille.contains(c),
        forall|i: int| 0 <= i < deler.len() ==> !(#[trigger] deler[i]).contains(c),
    ensures
        !text::joined(deler, skille).contains(c),
    decreases deler.len(),
{
    if deler.len() > 1 {
        let d = deler.drop_last();
        assert forall|i: int| 0 <= i < d.len() implies !(#[trigger] d[i]).contains(c) by {
            assert(d[i] == deler[i]);
        }
        lemma_uten_tegn(d, skille, c);
        let a = text::joined(d, skille);
        let b = deler.last();
        assert(!deler[deler.len() - 1].contains(c));
        let s = a + skille + b;
        assert forall|i: int| 0 <= i < s.len() implies #[trigger] s[i] != c by {
            if i < a.len() {
                assert(a.contains(a[i]));
            } else if i < a.len() + skille.len() {
                assert(skille.contains(skille[i - a.len()]));
            } else {
                assert(b.contains(b[i - a.len() - skille.len()]));
            }
        }
    } else if deler.len() == 1 {
        assert(!deler[0].contains(c));
    }
}

}
