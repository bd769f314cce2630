//! The simulated broker: an order is filled at once, at the last known price.
use vstd::prelude::*;

use crate::belop;
use crate::number_text;
use crate::text;
use crate::text::{copy_text, is_before, push_all, push_text, same, string_of};
use crate::types;
use crate::types::{Order, OrderRequest, OrderStatus, Position, PosisjonSyn, Side};

verus! {

// ---------------------------------------------------------------------------
// Holdings, in the order of their symbols
// ---------------------------------------------------------------------------

/// The holding of a symbol.
pub open spec fn holdt(l: Seq<PosisjonSyn>, symbol: Seq<char>) -> Option<PosisjonSyn>
    decreases l.len(),
{
    if l.len() == 0 {
        None
    } else if l[0].symbol == symbol {
        Some(l[0])
    } else {
        holdt(l.skip(1), symbol)
    }
}

/// The holdings with `p` in its place, in the stead of the one that had its
/// symbol.
pub open spec fn med(l: Seq<PosisjonSyn>, p: PosisjonSyn) -> Seq<PosisjonSyn>
    decreases l.len(),
{
    if l.len() == 0 || text::before(p.symbol, l[0].symbol) {
        seq![p] + l
    } else if l[0].symbol == p.symbol {
        seq![p] + l.skip(1)
    } else {
        seq![l[0]] + med(l.skip(1), p)
    }
}

/// The holdings without that of a symbol.
pub open spec fn uten(l: Seq<PosisjonSyn>, symbol: Seq<char>) -> Seq<PosisjonSyn>
    decreases l.len(),
{
    if l.len() == 0 {
        l
    } else if l[0].symbol == symbol {
        l.skip(1)
    } else {
        seq![l[0]] + uten(l.skip(1), symbol)
    }
}

/// Whether the holdings stand in the order of their symbols, each once.
pub open spec fn ordnet(l: Seq<PosisjonSyn>) -> bool {
    forall|i: int, j: int|
        0 <= i < j < l.len() ==> text::before((#[trigger] l[i]).symbol, (#[trigger] l[j]).symbol)
}

proof fn lemma_plass(l: Seq<PosisjonSyn>, symbol: Seq<char>, i: int)
    requires
        ordnet(l),
        0 <= i <= l.len(),
        forall|k: int| 0 <= k < i ==> text::before((#[trigger] l[k]).symbol, symbol),
        i < l.len() ==> !text::before(l[i].symbol, symbol),
    ensures
        holdt(l, symbol) == (if i < l.len() && l[i].symbol == symbol {
            Some(l[i])
        } else {
            None
        }),
        forall|p: PosisjonSyn|
            p.symbol == symbol ==> #[trigger] med(l, p) == (if i < l.len() && l[i].symbol == symbol {
                l.update(i, p)
            } else {
                l.insert(i, p)
            }),
        uten(l, symbol) == (if i < l.len() && l[i].symbol == symbol {
            l.remove(i)
        } else {
            l
        }),
    decreases l.len(),
{
    if l.len() == 0 {
        assert forall|p: PosisjonSyn| p.symbol == symbol implies #[trigger] med(l, p) == l.insert(i, p) by {
            assert(med(l, p) =~= l.insert(i, p));
        }
    } else if i == 0 {
        text::law_before_total(l[0].symbol, symbol);
        if l[0].symbol == symbol {
            text::law_before_total(symbol, symbol);
            assert(l.skip(1) =~= l.remove(0));
            assert forall|p: PosisjonSyn| p.symbol == symbol implies #[trigger] med(l, p) == l.update(0, p) by {
                assert(med(l, p) =~= l.update(0, p));
            }
        } else {
            lemma_ikke_holdt(l, symbol);
            assert forall|p: PosisjonSyn| p.symbol == symbol implies #[trigger] med(l, p) == l.insert(0, p) by {
                assert(med(l, p) =~= l.insert(0, p));
            }
        }
    } else {
        let r = l.skip(1);
        assert(text::before(l[0].symbol, symbol));
        text::law_before_total(l[0].symbol, symbol);
        assert forall|a: int, b: int| 0 <= a < b < r.len() implies text::before(
            (#[trigger] r[a]).symbol,
            (#[trigger] r[b]).symbol,
        ) by {
            assert(r[a] == l[a + 1] && r[b] == l[b + 1]);
        }
        assert forall|k: int| 0 <= k < i - 1 implies text::before((#[trigger] r[k]).symbol, symbol) by {
            assert(r[k] == l[k + 1]);
        }
        lemma_plass(r, symbol, i - 1);
        assert forall|p: PosisjonSyn| p.symbol == symbol implies #[trigger] med(l, p) == (if i < l.len()
            && l[i].symbol == symbol {
            l.update(i, p)
        } else {
            l.insert(i, p)
        }) by {
            assert(med(r, p) == (if i - 1 < r.len() && r[i - 1].symbol == symbol {
                r.update(i - 1, p)
            } else {
                r.insert(i - 1, p)
            }));
            if i < l.len() && l[i].symbol == symbol {
                assert(med(l, p) =~= l.update(i, p));
            } else {
                assert(med(l, p) =~= l.insert(i, p));
            }
        }
        if i < l.len() && l[i].symbol == symbol {
            assert(uten(l, symbol) =~= l.remove(i));
        } else {
            assert(uten(l, symbol) =~= l);
        }
    }
}

/// What comes after a symbol in an ordered list never has that symbol.
proof fn lemma_ikke_holdt(l: Seq<PosisjonSyn>, symbol: Seq<char>)
    requires
        ordnet(l),
        l.len() > 0,
        text::before(symbol, l[0].symbol),
    ensures
        holdt(l, symbol) is None,
        uten(l, symbol) == l,
    decreases l.len(),
{
    reveal_with_fuel(holdt, 2);
    reveal_with_fuel(uten, 2);
    text::law_before_total(symbol, l[0].symbol);
    let r = l.skip(1);
    if r.len() > 0 {
        assert(text::before(l[0].symbol, l[1].symbol));
        text::law_before_transitive(symbol, l[0].symbol, l[1].symbol);
        assert forall|a: int, b: int| 0 <= a < b < r.len() implies text::before(
            (#[trigger] r[a]).symbol,
            (#[trigger] r[b]).symbol,
        ) by {
            assert(r[a] == l[a + 1] && r[b] == l[b + 1]);
        }
        lemma_ikke_holdt(r, symbol);
    }
    assert(uten(l, symbol) =~= l);
}

/// Putting a holding in, or taking one out, keeps the order.
pub proof fn law_ordnet_bevares(l: Seq<PosisjonSyn>, p: PosisjonSyn)
    requires
        ordnet(l),
    ensures
        ordnet(med(l, p)),
        ordnet(uten(l, p.symbol)),
{
    let i = lemma_finn_plass(l, p.symbol);
    lemma_plass(l, p.symbol, i);
    let m = med(l, p);
    assert forall|a: int, b: int| 0 <= a < b < m.len() implies text::before(
        (#[trigger] m[a]).symbol,
        (#[trigger] m[b]).symbol,
    ) by {
        if i < l.len() && l[i].symbol == p.symbol {
            assert(text::before(l[a].symbol, l[b].symbol));
        } else {
            let a2 = if a < i {
                a
            } else {
                a - 1
            };
            let b2 = if b < i {
                b
            } else {
                b - 1
            };
            if a != i && b != i {
                assert(text::before(l[a2].symbol, l[b2].symbol));
            } else if a == i {
                text::law_before_total(l[i].symbol, p.symbol);
                if b2 > i {
                    assert(text::before(l[i].symbol, l[b2].symbol));
                    text::law_before_transitive(p.symbol, l[i].symbol, l[b2].symbol);
                }
            }
        }
    }
    let u = uten(l, p.symbol);
    assert forall|a: int, b: int| 0 <= a < b < u.len() implies text::before(
        (#[trigger] u[a]).symbol,
        (#[trigger] u[b]).symbol,
    ) by {
        if i < l.len() && l[i].symbol == p.symbol {
            let a2 = if a < i {
                a
            } else {
                a + 1
            };
            let b2 = if b < i {
                b
            } else {
                b + 1
            };
            assert(text::before(l[a2].symbol, l[b2].symbol));
        }
    }
}

/// What was put in is held, and nothing else changes.
pub proof fn law_satt_er_holdt(l: Seq<PosisjonSyn>, p: PosisjonSyn, symbol: Seq<char>)
    ensures
        holdt(med(l, p), symbol) == (if symbol == p.symbol {
            Some(p)
        } else {
            holdt(l, symbol)
        }),
    decreases l.len(),
{
    reveal_with_fuel(holdt, 2);
    if l.len() == 0 || text::before(p.symbol, l[0].symbol) {
        assert((seq![p] + l).skip(1) =~= l);
    } else if l[0].symbol == p.symbol {
        assert((seq![p] + l.skip(1)).skip(1) =~= l.skip(1));
    } else {
        law_satt_er_holdt(l.skip(1), p, symbol);
        assert((seq![l[0]] + med(l.skip(1), p)).skip(1) =~= med(l.skip(1), p));
    }
}

proof fn lemma_finn_plass(l: Seq<PosisjonSyn>, symbol: Seq<char>) -> (i: int)
    requires
        ordnet(l),
    ensures
        0 <= i <= l.len(),
        forall|k: int| 0 <= k < i ==> text::before((#[trigger] l[k]).symbol, symbol),
        i < l.len() ==> !text::before(l[i].symbol, symbol),
    decreases l.len(),
{
    if l.len() == 0 {
        0
    } else if !text::before(l.last().symbol, symbol) {
        let f = l.drop_last();
        assert forall|a: int, b: int| 0 <= a < b < f.len() implies text::before(
            (#[trigger] f[a]).symbol,
            (#[trigger] f[b]).symbol,
        ) by {
            assert(f[a] == l[a] && f[b] == l[b]);
        }
        let i = lemma_finn_plass(f, symbol);
        assert forall|k: int| 0 <= k < i implies text::before((#[trigger] l[k]).symbol, symbol) by {
            assert(f[k] == l[k]);
        }
        i
    } else {
        assert forall|k: int| 0 <= k < l.len() implies text::before((#[trigger] l[k]).symbol, symbol) by {
            if k < l.len() - 1 {
                assert(text::before(l[k].symbol, l[l.len() - 1].symbol));
                text::law_before_transitive(l[k].symbol, l.last().symbol, symbol);
            }
        }
        l.len() as int
    }
}

// ---------------------------------------------------------------------------
// The broker
// ---------------------------------------------------------------------------

/// The account of the simulated broker.
#[derive(Debug)]
pub struct PaperBroker {
    /// Cash, as a product of a price and a quantity.
    pub cash: i128,
    pub positions: Vec<Position>,
    /// The number of the next order.
    pub seq: u64,
}

/// The account, seen from outside.
#[verifier::ext_equal]
pub struct KontoSyn {
    pub cash: int,
    pub positions: Seq<PosisjonSyn>,
}

impl View for PaperBroker {
    type V = KontoSyn;

    open spec fn view(&self) -> KontoSyn {
        KontoSyn { cash: self.cash as int, positions: types::posisjoner(self.positions@) }
    }
}

/// What an order comes to.
pub enum Utfall {
    /// The account after the order was filled.
    Fylt(KontoSyn),
    Avvist,
    /// A number would grow out of bounds.
    ForStort,
}

/// The mean price of so many that cost so much together; 0 for none.
pub open spec fn snittpris(kost: int, antall: int) -> int {
    if antall == 0 {
        0
    } else if antall > 0 {
        belop::kvotient(kost, antall)
    } else {
        belop::kvotient(-kost, -antall)
    }
}

pub open spec fn som_i64(v: int) -> bool {
    i64::MIN <= v <= i64::MAX
}

pub open spec fn som_i128(v: int) -> bool {
    i128::MIN < v <= i128::MAX
}

/// A purchase: the cash must suffice; what it costs is added to what the
/// holding has cost, and the mean price follows.
pub open spec fn kjop(k: KontoSyn, symbol: Seq<char>, qty: int, pris: int) -> Utfall {
    let har = match holdt(k.positions, symbol) {
        Some(p) => (p.qty as int, p.avg_price as int),
        None => (0, 0),
    };
    let antall = har.0 + qty;
    let kost = har.1 * har.0 + qty * pris;
    if qty * pris > k.cash {
        Utfall::Avvist
    } else if !som_i64(antall) || !som_i128(kost) || !som_i64(snittpris(kost, antall)) || !som_i128(
        k.cash - qty * pris,
    ) {
        Utfall::ForStort
    } else {
        Utfall::Fylt(
            KontoSyn {
                cash: k.cash - qty * pris,
                positions: med(
                    k.positions,
                    PosisjonSyn {
                        symbol,
                        qty: antall as i64,
                        avg_price: snittpris(kost, antall) as i64,
                        last: pris as i64,
                    },
                ),
            },
        )
    }
}

/// A sale: no more than is held; a holding of nothing is dropped.
pub open spec fn selg(k: KontoSyn, symbol: Seq<char>, qty: int, pris: int) -> Utfall {
    if qty > antall(k, symbol) {
        Utfall::Avvist
    } else if !som_i128(k.cash + qty * pris) || !som_i64(antall(k, symbol) - qty) {
        Utfall::ForStort
    } else {
        Utfall::Fylt(
            KontoSyn {
                cash: k.cash + qty * pris,
                positions: match holdt(k.positions, symbol) {
                    None => k.positions,
                    Some(p) => if p.qty == qty {
                        uten(k.positions, symbol)
                    } else {
                        med(
                            k.positions,
                            PosisjonSyn { qty: (p.qty - qty) as i64, last: pris as i64, ..p },
                        )
                    },
                },
            },
        )
    }
}

/// How many of a symbol are held.
pub open spec fn antall(k: KontoSyn, symbol: Seq<char>) -> int {
    match holdt(k.positions, symbol) {
        Some(p) => p.qty as int,
        None => 0,
    }
}

pub open spec fn utfall(k: KontoSyn, req: OrderRequest) -> Utfall {
    match req.side {
        Side::Buy => kjop(k, req.symbol@, req.qty as int, req.ref_price as int),
        Side::Sell => selg(k, req.symbol@, req.qty as int, req.ref_price as int),
    }
}

/// The note of an order that was refused.
pub open spec fn avvist_merknad(note: Seq<char>, side: Side) -> Seq<char> {
    match side {
        Side::Buy => note + " — avvist: ikke nok kontanter"@,
        Side::Sell => note + " — avvist: ikke nok aksjer"@,
    }
}

/// The holdings that a list puts in, one after the other.
pub open spec fn samlet(l: Seq<PosisjonSyn>) -> Seq<PosisjonSyn>
    decreases l.len(),
{
    if l.len() == 0 {
        l
    } else {
        med(samlet(l.drop_last()), l.last())
    }
}

fn regn_snitt(kost: i128, antall: i64) -> (r: i128)
    requires
        kost > i128::MIN,
    ensures
        r == snittpris(kost as int, antall as int),
{
    if antall == 0 {
        0
    } else if antall > 0 {
        belop::del(kost, antall as i128)
    } else {
        belop::del(-kost, -(antall as i128))
    }
}

fn med_tekst(note: &String, hale: &str) -> (r: String)
    ensures
        r@ == note@ + hale@,
{
    let mut ut: Vec<char> = Vec::new();
    push_text(&mut ut, note.as_str());
    push_text(&mut ut, hale);
    assert(ut@ =~= note@ + hale@);
    string_of(ut.as_slice())
}

impl PaperBroker {
    pub open spec fn gyldig(&self) -> bool {
        ordnet(self@.positions)
    }

    fn plass(&self, symbol: &str) -> (r: (usize, bool))
        requires
            self.gyldig(),
        ensures
            r.0 <= self.positions@.len(),
            r.1 ==> r.0 < self.positions@.len(),
            holdt(self@.positions, symbol@) == (if r.1 {
                Some(self.positions@[r.0 as int]@)
            } else {
                None
            }),
            forall|p: PosisjonSyn|
                p.symbol == symbol@ ==> #[trigger] med(self@.positions, p) == (if r.1 {
                    self@.positions.update(r.0 as int, p)
                } else {
                    self@.positions.insert(r.0 as int, p)
                }),
            uten(self@.positions, symbol@) == (if r.1 {
                self@.positions.remove(r.0 as int)
            } else {
                self@.positions
            }),
    {
        let ghost l = self@.positions;
        let mut i: usize = 0;
        while i < self.positions.len() && is_before(self.positions[i].symbol.as_str(), symbol)
            invariant
                i <= self.positions@.len(),
                l == types::posisjoner(self.positions@),
                forall|k: int| 0 <= k < i ==> text::before((#[trigger] l[k]).symbol, symbol@),
            decreases self.positions.len() - i,
        {
            i += 1;
        }
        proof {
            lemma_plass(l, symbol@, i as int);
        }
        let finnes: bool = i < self.positions.len() && same(self.positions[i].symbol.as_str(), symbol);
        (i, finnes)
    }

    fn sett(&mut self, i: usize, finnes: bool, p: Position)
        requires
            i <= old(self).positions@.len(),
            finnes ==> i < old(self).positions@.len(),
        ensures
            final(self).cash == old(self).cash,
            final(self).seq == old(self).seq,
            final(self)@.positions == (if finnes {
                old(self)@.positions.update(i as int, p@)
            } else {
                old(self)@.positions.insert(i as int, p@)
            }),
    {
        if finnes {
            self.positions.set(i, p);
        } else {
            self.positions.insert(i, p);
        }
        proof {
            if finnes {
                assert(self@.positions =~= old(self)@.positions.update(i as int, p@));
            } else {
                assert(self@.positions =~= old(self)@.positions.insert(i as int, p@));
            }
        }
    }

    /// An account with the starting cash, or with what was saved before unless
    /// a fresh start is asked for.
    pub fn new(starting_cash: i128, lagret: Option<(i128, Vec<Position>)>, reset: bool) -> (r: PaperBroker)
        ensures
            r.gyldig(),
            r.seq == 1,
            r@ == (match lagret {
                Some(l) => if reset {
                    (KontoSyn { cash: starting_cash as int, positions: Seq::empty() })
                } else {
                    (KontoSyn { cash: l.0 as int, positions: samlet(types::posisjoner(l.1@)) })
                },
                None => (KontoSyn { cash: starting_cash as int, positions: Seq::empty() }),
            }),
    {
        let mut b: PaperBroker = PaperBroker { cash: starting_cash, positions: Vec::new(), seq: 1 };
        assert(b@.positions =~= Seq::empty());
        if reset {
            return b;
        }
        if let Some((cash, lagrede)) = lagret {
            b.cash = cash;
            let ghost alle = types::posisjoner(lagrede@);
            let mut i: usize = 0;
            assert(alle.take(0) =~= Seq::empty());
            while i < lagrede.len()
                invariant
                    i <= lagrede@.len(),
                    alle == types::posisjoner(lagrede@),
                    b.gyldig(),
                    b.cash == cash,
                    b.seq == 1,
                    b@.positions == samlet(alle.take(i as int)),
                decreases lagrede.len() - i,
            {
                let ghost for_ = b@.positions;
                let p: Position = lagrede[i].kopi();
                let (k, finnes): (usize, bool) = b.plass(p.symbol.as_str());
                let ghost ny = p@;
                b.sett(k, finnes, p);
                proof {
                    assert(alle.take(i + 1).drop_last() =~= alle.take(i as int));
                    assert(alle.take(i + 1).last() == ny);
                    assert(ny == alle[i as int]);
                    assert(b@.positions == med(for_, ny));
                    law_ordnet_bevares(for_, ny);
                }
                i += 1;
            }
            assert(alle.take(i as int) =~= alle);
        }
        b
    }

    pub fn name(&self) -> (r: &'static str)
        ensures
            r@ == "paper"@,
    {
        "paper"
    }

    fn kjopt(&mut self, req: &OrderRequest) -> (r: Option<OrderStatus>)
        requires
            old(self).gyldig(),
        ensures
            final(self).gyldig(),
            final(self).seq == old(self).seq,
            (match kjop(old(self)@, req.symbol@, req.qty as int, req.ref_price as int) {
                Utfall::Fylt(k) => r == Some(OrderStatus::Filled) && final(self)@ == k,
                Utfall::Avvist => r == Some(OrderStatus::Rejected) && final(self)@ == old(self)@,
                Utfall::ForStort => r is None && final(self)@ == old(self)@,
            }),
    {
        let ghost for_ = self@;
        let (i, finnes): (usize, bool) = self.plass(req.symbol.as_str());
        let (held, avg): (i64, i64) = if finnes {
            (self.positions[i].qty, self.positions[i].avg_price)
        } else {
            (0, 0)
        };
        proof {
            if finnes {
                assert(for_.positions[i as int].qty == held && for_.positions[i as int].avg_price == avg);
            }
            types::lemma_produkt(avg as int, held as int);
            types::lemma_produkt(req.qty as int, req.ref_price as int);
        }
        let verdi: i128 = req.qty as i128 * req.ref_price as i128;
        if verdi > self.cash {
            return Some(OrderStatus::Rejected);
        }
        let antall: i64 = match held.checked_add(req.qty) {
            Some(n) => n,
            None => return None,
        };
        let kost: i128 = match (avg as i128 * held as i128).checked_add(verdi) {
            Some(v) => v,
            None => return None,
        };
        let igjen: i128 = match self.cash.checked_sub(verdi) {
            Some(v) => v,
            None => return None,
        };
        if kost == i128::MIN || igjen == i128::MIN {
            return None;
        }
        let snitt: i128 = regn_snitt(kost, antall);
        if snitt < i64::MIN as i128 || snitt > i64::MAX as i128 {
            return None;
        }
        self.cash = igjen;
        let p: Position = Position {
            symbol: copy_text(&req.symbol),
            qty: antall,
            avg_price: snitt as i64,
            last: req.ref_price,
        };
        let ghost ny = p@;
        self.sett(i, finnes, p);
        proof {
            assert(self@.positions == med(for_.positions, ny));
            law_ordnet_bevares(for_.positions, ny);
            assert(Utfall::Fylt(self@) == kjop(for_, req.symbol@, req.qty as int, req.ref_price as int)) by {
                assert(ny =~= PosisjonSyn {
                    symbol: req.symbol@,
                    qty: (held + req.qty) as i64,
                    avg_price: snittpris(avg * held + req.qty * req.ref_price, held + req.qty) as i64,
                    last: req.ref_price,
                });
            }
        }
        Some(OrderStatus::Filled)
    }

    fn solgt(&mut self, req: &OrderRequest) -> (r: Option<OrderStatus>)
        requires
            old(self).gyldig(),
        ensures
            final(self).gyldig(),
            final(self).seq == old(self).seq,
            (match selg(old(self)@, req.symbol@, req.qty as int, req.ref_price as int) {
                Utfall::Fylt(k) => r == Some(OrderStatus::Filled) && final(self)@ == k,
                Utfall::Avvist => r == Some(OrderStatus::Rejected) && final(self)@ == old(self)@,
                Utfall::ForStort => r is None && final(self)@ == old(self)@,
            }),
    {
        let ghost for_ = self@;
        let (i, finnes): (usize, bool) = self.plass(req.symbol.as_str());
        let held: i64 = if finnes {
            self.positions[i].qty
        } else {
            0
        };
        proof {
            lemma_holdt_symbol(for_.positions, req.symbol@);
            types::lemma_produkt(req.qty as int, req.ref_price as int);
            assert(antall(for_, req.symbol@) == held);
        }
        if req.qty > held {
            return Some(OrderStatus::Rejected);
        }
        let verdi: i128 = req.qty as i128 * req.ref_price as i128;
        let ny_cash: i128 = match self.cash.checked_add(verdi) {
            Some(v) => v,
            None => return None,
        };
        let rest: i64 = match held.checked_sub(req.qty) {
            Some(n) => n,
            None => return None,
        };
        if ny_cash == i128::MIN {
            return None;
        }
        self.cash = ny_cash;
        if !finnes {
            return Some(OrderStatus::Filled);
        }
        if held == req.qty {
            self.positions.remove(i);
            proof {
                assert(self@.positions =~= for_.positions.remove(i as int));
                law_ordnet_bevares(for_.positions, for_.positions[i as int]);
            }
        } else {
            let p: Position = Position {
                symbol: copy_text(&self.positions[i].symbol),
                qty: rest,
                avg_price: self.positions[i].avg_price,
                last: req.ref_price,
            };
            let ghost ny = p@;
            self.sett(i, true, p);
            proof {
                assert(self@.positions == med(for_.positions, ny));
                law_ordnet_bevares(for_.positions, ny);
            }
        }
        Some(OrderStatus::Filled)
    }

    /// Carries out an order at `naa`: it is filled, or refused with the reason
    /// in its note. None, and nothing done, where a number would grow out of
    /// bounds.
    pub fn place_order(&mut self, req: OrderRequest, naa: i64) -> (r: Option<Order>)
        requires
            old(self).gyldig(),
        ensures
            final(self).gyldig(),
            (match utfall(old(self)@, req) {
                Utfall::Fylt(k) => r is Some && r->0.status == OrderStatus::Filled && final(self)@ == k
                    && r->0.note@ == req.note@,
                Utfall::Avvist => r is Some && r->0.status == OrderStatus::Rejected && final(self)@ == old(self)@
                    && r->0.note@ == avvist_merknad(req.note@, req.side),
                Utfall::ForStort => r is None && final(self)@ == old(self)@,
            }),
            r matches Some(o) ==> o.id@ == seq!['P'] + number_text::decimal(old(self).seq as nat) && o.symbol@
                == req.symbol@ && o.side == req.side && o.qty == req.qty && o.avg_price == req.ref_price && o.created
                == naa,
            final(self).seq == (if old(self).seq == u64::MAX {
                0
            } else {
                (old(self).seq + 1) as u64
            }),
    {
        let mut id: Vec<char> = Vec::new();
        id.push('P');
        let n: Vec<char> = number_text::write_decimal(self.seq as u128);
        push_all(&mut id, n.as_slice());
        assert(id@ =~= seq!['P'] + number_text::decimal(self.seq as nat));
        self.seq = if self.seq == u64::MAX {
            0
        } else {
            self.seq + 1
        };
        assert(self@ =~= old(self)@);
        let resultat: Option<OrderStatus> = match req.side {
            Side::Buy => self.kjopt(&req),
            Side::Sell => self.solgt(&req),
        };
        let status: OrderStatus = match resultat {
            Some(s) => s,
            None => return None,
        };
        let note: String = match status {
            OrderStatus::Rejected => match req.side {
                Side::Buy => med_tekst(&req.note, " — avvist: ikke nok kontanter"),
                Side::Sell => med_tekst(&req.note, " — avvist: ikke nok aksjer"),
            },
            _ => req.note,
        };
        Some(
            Order {
                id: string_of(id.as_slice()),
                symbol: req.symbol,
                side: req.side,
                qty: req.qty,
                status,
                avg_price: req.ref_price,
                created: naa,
                note,
            },
        )
    }

    /// The holdings in the order of their symbols.
    pub fn positions(&self) -> (r: Vec<Position>)
        requires
            self.gyldig(),
        ensures
            types::posisjoner(r@) == self@.positions,
            ordnet(types::posisjoner(r@)),
    {
        let mut ut: Vec<Position> = Vec::new();
        let mut i: usize = 0;
        while i < self.positions.len()
            invariant
                i <= self.positions@.len(),
                ut@.len() == i,
                forall|k: int| 0 <= k < i ==> (#[trigger] ut@[k])@ == self.positions@[k]@,
            decreases self.positions.len() - i,
        {
            ut.push(self.positions[i].kopi());
            i += 1;
        }
        assert(types::posisjoner(ut@) =~= self@.positions);
        ut
    }

    pub fn cash(&self) -> (r: i128)
        ensures
            r == self@.cash,
    {
        self.cash
    }

    /// A new price: the holding of the symbol is marked with it.
    pub fn on_quote(&mut self, symbol: &str, price: i64)
        requires
            old(self).gyldig(),
        ensures
            final(self).gyldig(),
            final(self).seq == old(self).seq,
            final(self)@ == (match holdt(old(self)@.positions, symbol@) {
                Some(p) => (KontoSyn {
                    cash: old(self)@.cash,
                    positions: med(old(self)@.positions, PosisjonSyn { last: price, ..p }),
                }),
                None => old(self)@,
            }),
            final(self)@ == kurset(old(self)@, symbol@, price),
    {
        let ghost for_ = self@;
        let (i, finnes): (usize, bool) = self.plass(symbol);
        if finnes {
            let mut p: Position = self.positions[i].kopi();
            p.last = price;
            let ghost ny = p@;
            proof {
                assert(holdt(for_.positions, symbol@) == Some(for_.positions[i as int]));
                lemma_holdt_symbol(for_.positions, symbol@);
                assert(ny.symbol == symbol@);
            }
            self.sett(i, true, p);
            proof {
                assert(self@.positions == med(for_.positions, ny));
                law_ordnet_bevares(for_.positions, ny);
            }
        }
    }
}

proof fn lemma_holdt_symbol(l: Seq<PosisjonSyn>, symbol: Seq<char>)
    ensures
        holdt(l, symbol) matches Some(p) ==> p.symbol == symbol,
    decreases l.len(),
{
    if l.len() > 0 {
        lemma_holdt_symbol(l.skip(1), symbol);
    }
}

// ---------------------------------------------------------------------------
// Laws
// ---------------------------------------------------------------------------

/// A filled order moves value between cash and the holding and makes none:
/// counted at the price of the order, the two together stay the same. What is
/// held of other symbols does not change.
pub proof fn law_verdien_bevares(k: KontoSyn, req: OrderRequest, symbol: Seq<char>)
    requires
        ordnet(k.positions),
        req.side == Side::Sell && req.qty < 0 ==> holdt(k.positions, req.symbol@) is Some,
    ensures
        utfall(k, req) matches Utfall::Fylt(k2) ==> k2.cash + antall(k2, req.symbol@) * req.ref_price == k.cash
            + antall(k, req.symbol@) * req.ref_price,
        utfall(k, req) matches Utfall::Fylt(k2) ==> (symbol != req.symbol@ ==> holdt(k2.positions, symbol) == holdt(
            k.positions,
            symbol,
        )),
{
    if let Utfall::Fylt(k2) = utfall(k, req) {
        let s = req.symbol@;
        let p = req.ref_price as int;
        let q = req.qty as int;
        let n = antall(k, s);
        lemma_holdt_symbol(k.positions, s);
        match req.side {
            Side::Buy => {
                let har = match holdt(k.positions, s) {
                    Some(p) => (p.qty as int, p.avg_price as int),
                    None => (0, 0),
                };
                let ny = PosisjonSyn {
                    symbol: s,
                    qty: (har.0 + q) as i64,
                    avg_price: snittpris(har.1 * har.0 + q * p, har.0 + q) as i64,
                    last: p as i64,
                };
                law_satt_er_holdt(k.positions, ny, s);
                law_satt_er_holdt(k.positions, ny, symbol);
                assert((n + q) * p == n * p + q * p) by (nonlinear_arith);
            },
            Side::Sell => {
                assert((n - q) * p == n * p - q * p) by (nonlinear_arith);
                if holdt(k.positions, s) is None {
                    assert(q == 0);
                } else {
                    let h = holdt(k.positions, s)->0;
                    if h.qty == q {
                        lemma_uten(k.positions, s, symbol);
                        lemma_uten(k.positions, s, s);
                    } else {
                        let ny = PosisjonSyn { qty: (h.qty - q) as i64, last: p as i64, ..h };
                        law_satt_er_holdt(k.positions, ny, s);
                        law_satt_er_holdt(k.positions, ny, symbol);
                    }
                }
            },
        }
    }
}

proof fn lemma_uten(l: Seq<PosisjonSyn>, borte: Seq<char>, symbol: Seq<char>)
    requires
        ordnet(l),
    ensures
        holdt(uten(l, borte), symbol) == (if symbol == borte {
            None
        } else {
            holdt(l, symbol)
        }),
    decreases l.len(),
{
    reveal_with_fuel(holdt, 2);
    if l.len() > 0 {
        let r = l.skip(1);
        assert forall|a: int, b: int| 0 <= a < b < r.len() implies text::before(
            (#[trigger] r[a]).symbol,
            (#[trigger] r[b]).symbol,
        ) by {
            assert(r[a] == l[a + 1] && r[b] == l[b + 1]);
        }
        if l[0].symbol == borte {
            if symbol == borte && r.len() > 0 {
                assert(text::before(l[0].symbol, l[1].symbol));
                lemma_ikke_holdt(r, borte);
            }
        } else {
            lemma_uten(r, borte, symbol);
            assert((seq![l[0]] + uten(r, borte)).skip(1) =~= uten(r, borte));
        }
    }
}

/// The cash never goes below zero by an order for something at a price, and no
/// more is sold than held.
pub proof fn law_aldri_i_minus(k: KontoSyn, req: OrderRequest)
    requires
        k.cash >= 0,
    ensures
        req.side == Side::Buy || (req.qty >= 0 && req.ref_price >= 0) ==> (utfall(k, req) matches Utfall::Fylt(k2)
            ==> k2.cash >= 0),
        req.side == Side::Sell && req.qty > antall(k, req.symbol@) ==> utfall(k, req) is Avvist,
{
    if req.qty >= 0 && req.ref_price >= 0 {
        assert(req.qty * req.ref_price >= 0) by (nonlinear_arith)
            requires
                req.qty >= 0,
                req.ref_price >= 0,
        ;
    }
}

proof fn lemma_samlet(l: Seq<PosisjonSyn>)
    requires
        ordnet(l),
    ensures
        samlet(l) == l,
    decreases l.len(),
{
    if l.len() > 0 {
        let f = l.drop_last();
        assert forall|a: int, b: int| 0 <= a < b < f.len() implies text::before(
            (#[trigger] f[a]).symbol,
            (#[trigger] f[b]).symbol,
        ) by {
            assert(f[a] == l[a] && f[b] == l[b]);
        }
        lemma_samlet(f);
        assert forall|k: int| 0 <= k < f.len() implies text::before((#[trigger] f[k]).symbol, l.last().symbol) by {
            assert(f[k] == l[k]);
            assert(text::before(l[k].symbol, l[l.len() - 1].symbol));
        }
        lemma_plass(f, l.last().symbol, f.len() as int);
        assert(med(f, l.last()) =~= l);
    }
}

/// The portfolio survives a restart: an account made from the cash and the
/// holdings of another is that account.
pub proof fn law_overlever_omstart(k: KontoSyn)
    requires
        ordnet(k.positions),
    ensures
        samlet(k.positions) == k.positions,
{
    lemma_samlet(k.positions);
}

/// What a filled purchase does, whatever was held before: the cash falls by the
/// number bought times the price, the holding grows by that number, and what the
/// holding has cost, the mean price times the number, grows by exactly the cash that
/// was spent, but for less than one of the smallest unit on each share.
pub proof fn law_kjop_koster_det_det_koster(k: KontoSyn, symbol: Seq<char>, qty: int, pris: int)
    ensures
        kjop(k, symbol, qty, pris) matches Utfall::Fylt(k2) ==> {
            let (n0, a0) = match holdt(k.positions, symbol) {
                Some(p) => (p.qty as int, p.avg_price as int),
                None => (0, 0),
            };
            &&& k2.cash == k.cash - qty * pris
            &&& holdt(k2.positions, symbol) matches Some(p) && {
                &&& p.symbol == symbol
                &&& p.qty == n0 + qty
                &&& p.last as int == pris as i64
                &&& p.qty > 0 ==> -p.qty < p.avg_price * p.qty - (a0 * n0 + qty * pris) < p.qty
                &&& p.qty > 0 && a0 * n0 + qty * pris >= 0 ==> 0 <= p.avg_price && p.avg_price * p.qty <= a0 * n0 + qty
                    * pris
            }
        },
        kjop(k, symbol, qty, pris) is Avvist <==> qty * pris > k.cash,
{
    if let Utfall::Fylt(k2) = kjop(k, symbol, qty, pris) {
        let (n0, a0) = match holdt(k.positions, symbol) {
            Some(p) => (p.qty as int, p.avg_price as int),
            None => (0, 0),
        };
        let kost = a0 * n0 + qty * pris;
        let n = n0 + qty;
        let ny = holdt(k2.positions, symbol);
        let satt = PosisjonSyn {
            symbol,
            qty: n as i64,
            avg_price: snittpris(kost, n) as i64,
            last: pris as i64,
        };
        law_satt_er_holdt(k.positions, satt, symbol);
        if n > 0 {
            belop::law_kvotient(kost, n);
            let a = snittpris(kost, n);
            assert((a + 1) * n == a * n + n && (a - 1) * n == a * n - n) by (nonlinear_arith);
        }
    }
}

/// What a filled sale does: the cash grows by the number sold times the price, the
/// holding shrinks by that number and is gone where nothing is left, and the mean
/// price of what is left does not change. No more is sold than is held.
pub proof fn law_salg_beholder_snittet(k: KontoSyn, symbol: Seq<char>, qty: int, pris: int)
    requires
        ordnet(k.positions),
    ensures
        selg(k, symbol, qty, pris) matches Utfall::Fylt(k2) ==> {
            &&& k2.cash == k.cash + qty * pris
            &&& holdt(k.positions, symbol) matches Some(p) ==> {
                &&& p.qty == qty <==> holdt(k2.positions, symbol) is None
                &&& holdt(k2.positions, symbol) matches Some(p2) ==> p2.qty == p.qty - qty && p2.avg_price
                    == p.avg_price && p2.last as int == pris as i64 && p2.symbol == symbol
            }
            &&& holdt(k.positions, symbol) is None ==> k2.positions == k.positions && qty <= 0
        },
        selg(k, symbol, qty, pris) is Avvist <==> qty > (match holdt(k.positions, symbol) {
            Some(p) => p.qty as int,
            None => 0,
        }),
{
    lemma_holdt_symbol(k.positions, symbol);
    if let Some(p) = holdt(k.positions, symbol) {
        if p.qty == qty {
            lemma_uten(k.positions, symbol, symbol);
        } else {
            law_satt_er_holdt(
                k.positions,
                PosisjonSyn { qty: (p.qty - qty) as i64, last: pris as i64, ..p },
                symbol,
            );
        }
    }
}

/// An order that is refused, or too large to count, is only that: a purchase is
/// filled whenever the cash suffices and a sale whenever enough is held, as long as
/// the numbers can be held.
pub proof fn law_fylles_naar_det_rekker(k: KontoSyn, req: OrderRequest)
    requires
        0 <= k.cash <= 0x1000_0000_0000_0000_0000_0000_0000_0000,
        0 < req.qty,
        0 < req.ref_price,
        holdt(k.positions, req.symbol@) matches Some(p) ==> 0 < p.qty <= 0x1000_0000_0000_0000 && 0 <= p.avg_price
            <= 0x1000_0000_0000_0000,
        req.qty <= 0x1000_0000_0000_0000,
        req.ref_price <= 0x1000_0000_0000_0000,
    ensures
        req.side == Side::Buy ==> (utfall(k, req) is Fylt <==> req.qty * req.ref_price <= k.cash),
        req.side == Side::Sell ==> (utfall(k, req) is Fylt <==> (holdt(k.positions, req.symbol@) matches Some(p)
            && req.qty <= p.qty)),
{
    let q = req.qty as int;
    let pris = req.ref_price as int;
    let g = 0x1000_0000_0000_0000int;
    let (n0, a0) = match holdt(k.positions, req.symbol@) {
        Some(p) => (p.qty as int, p.avg_price as int),
        None => (0, 0),
    };
    assert(0 <= q * pris <= g * g && 0 <= a0 * n0 <= g * g) by (nonlinear_arith)
        requires
            0 <= q <= g,
            0 <= pris <= g,
            0 <= a0 <= g,
            0 <= n0 <= g,
    ;
    let kost = a0 * n0 + q * pris;
    let n = n0 + q;
    belop::law_kvotient(kost, n);
    let a = snittpris(kost, n);
    assert(kost <= g * n) by (nonlinear_arith)
        requires
            kost == a0 * n0 + q * pris,
            n == n0 + q,
            0 <= a0 <= g,
            0 <= pris <= g,
            0 <= n0,
            0 <= q,
    ;
    assert(a <= g) by (nonlinear_arith)
        requires
            a * n <= kost,
            kost <= g * n,
            n > 0,
    ;
}

/// The account once a price has come for a symbol.
pub open spec fn kurset(k: KontoSyn, symbol: Seq<char>, price: i64) -> KontoSyn {
    match holdt(k.positions, symbol) {
        Some(p) => KontoSyn { cash: k.cash, positions: med(k.positions, PosisjonSyn { last: price, ..p }) },
        None => k,
    }
}

/// A price moves no money and buys nothing: it is the last price of its own
/// holding from then on, and nothing else changes.
pub proof fn law_kursen_endrer_bare_prisen(k: KontoSyn, symbol: Seq<char>, price: i64, annen: Seq<char>)
    requires
        ordnet(k.positions),
        annen != symbol,
    ensures
        kurset(k, symbol, price).cash == k.cash,
        holdt(kurset(k, symbol, price).positions, annen) == holdt(k.positions, annen),
        (match holdt(k.positions, symbol) {
            Some(p) => holdt(kurset(k, symbol, price).positions, symbol) matches Some(q) && q.qty == p.qty && q.avg_price
                == p.avg_price && q.last == price && q.symbol == symbol,
            None => holdt(kurset(k, symbol, price).positions, symbol) is None,
        }),
{
    lemma_holdt_symbol(k.positions, symbol);
    match holdt(k.positions, symbol) {
        Some(p) => {
            let ny = PosisjonSyn { last: price, ..p };
            law_satt_er_holdt(k.positions, ny, symbol);
            law_satt_er_holdt(k.positions, ny, annen);
        },
        None => {},
    }
}

}
