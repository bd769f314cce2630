//! Tables from a text, such as a symbol, to a value.
use vstd::prelude::*;

use crate::text;

verus! {

/// A table with one row for each key, in the order of the keys.
#[derive(Debug)]
pub struct Tabell<T> {
    pub rader: Vec<(String, T)>,
}

impl<T> Tabell<T> {
    /// Whether the rows stand in the order of their keys, each key once.
    pub open spec fn ordnet(&self) -> bool {
        forall|i: int, j: int|
            0 <= i < j < self.rader@.len() ==> text::before(
                (#[trigger] self.rader@[i]).0@,
                (#[trigger] self.rader@[j]).0@,
            )
    }

    pub open spec fn har(&self, k: Seq<char>) -> bool {
        exists|i: int| 0 <= i < self.rader@.len() && (#[trigger] self.rader@[i]).0@ == k
    }

    /// The row of a key.
    pub open spec fn rad(&self, k: Seq<char>) -> int {
        choose|i: int| 0 <= i < self.rader@.len() && (#[trigger] self.rader@[i]).0@ == k
    }
}

impl<T> View for Tabell<T> {
    type V = Map<Seq<char>, T>;

    open spec fn view(&self) -> Map<Seq<char>, T> {
        Map::new(|k: Seq<char>| self.har(k), |k: Seq<char>| self.rader@[self.rad(k)].1)
    }
}

impl<T> Tabell<T> {
    pub fn ny() -> (r: Tabell<T>)
        ensures
            r@ == Map::<Seq<char>, T>::empty(),
            r.ordnet(),
            r.rader@.len() == 0,
    {
        let r: Tabell<T> = Tabell { rader: Vec::new() };
        assert(r@ =~= Map::<Seq<char>, T>::empty());
        r
    }

    /// The row of a key, if there is one.
    pub fn finn(&self, k: &str) -> (r: Option<usize>)
        requires
            self.ordnet(),
        ensures
            r is Some == self@.dom().contains(k@),
            r matches Some(i) ==> i < self.rader@.len() && self.rader@[i as int].0@ == k@
                && self.rader@[i as int].1 == self@[k@],
    {
        let mut i: usize = 0;
        while i < self.rader.len()
            invariant
                i <= self.rader@.len(),
                self.ordnet(),
                forall|j: int| 0 <= j < i ==> (#[trigger] self.rader@[j]).0@ != k@,
            decreases self.rader.len() - i,
        {
            if text::same(self.rader[i].0.as_str(), k) {
                proof {
                    self.lemma_rad(i as int);
                }
                return Some(i);
            }
            i += 1;
        }
        None
    }

    pub proof fn lemma_rad(&self, i: int)
        requires
            self.ordnet(),
            0 <= i < self.rader@.len(),
        ensures
            self@.dom().contains(self.rader@[i].0@),
            self@[self.rader@[i].0@] == self.rader@[i].1,
            self.rad(self.rader@[i].0@) == i,
    {
        let k = self.rader@[i].0@;
        assert(self.rader@[i].0@ == k);
        assert(self.har(k));
        let j = self.rad(k);
        assert(0 <= j < self.rader@.len() && self.rader@[j].0@ == k);
        if j != i {
            text::law_before_total(k, k);
        }
    }

    /// The value of a key.
    pub fn hent(&self, k: &str) -> (r: Option<&T>)
        requires
            self.ordnet(),
        ensures
            r is Some == self@.dom().contains(k@),
            r matches Some(v) ==> *v == self@[k@],
    {
        match self.finn(k) {
            Some(i) => Some(&self.rader[i].1),
            None => None,
        }
    }

    proof fn lemma_satt_inn(a: Tabell<T>, b: Tabell<T>, p: int, k: String, v: T)
        requires
            a.ordnet(),
            0 <= p <= a.rader@.len(),
            forall|i: int| 0 <= i < p ==> text::before((#[trigger] a.rader@[i]).0@, k@),
            forall|i: int| p <= i < a.rader@.len() ==> text::before(k@, (#[trigger] a.rader@[i]).0@),
            b.rader@ == a.rader@.insert(p, (k, v)),
        ensures
            b.ordnet(),
            b@ == a@.insert(k@, v),
    {
        text::law_before_total(k@, k@);
        assert forall|i: int| 0 <= i < b.rader@.len() && i != p implies #[trigger] b.rader@[i] == a.rader@[if i < p { i } else { i - 1 }] by {}
        assert(b.rader@[p] == (k, v));
        assert forall|i: int, j: int| 0 <= i < j < b.rader@.len() implies text::before(
            (#[trigger] b.rader@[i]).0@,
            (#[trigger] b.rader@[j]).0@,
        ) by {
            let i2 = if i < p { i } else { i - 1 };
            let j2 = if j < p { j } else { j - 1 };
            if i != p && j != p {
                assert(text::before(a.rader@[i2].0@, a.rader@[j2].0@));
            }
        }
        assert forall|q: Seq<char>| b.har(q) == (a.har(q) || q == k@) by {
            if b.har(q) {
                let i = b.rad(q);
                assert(0 <= i < b.rader@.len() && b.rader@[i].0@ == q);
                if i != p {
                    assert(a.rader@[if i < p { i } else { i - 1 }].0@ == q);
                }
            }
            if a.har(q) {
                let i = a.rad(q);
                assert(0 <= i < a.rader@.len() && a.rader@[i].0@ == q);
                let i2 = if i < p { i } else { i + 1 };
                assert(b.rader@[i2].0@ == q);
            }
            if q == k@ {
                assert(b.rader@[p].0@ == q);
            }
        }
        assert forall|q: Seq<char>| b.har(q) implies b@[q] == a@.insert(k@, v)[q] by {
            let i = b.rad(q);
            assert(0 <= i < b.rader@.len() && b.rader@[i].0@ == q);
            b.lemma_rad(i);
            if q == k@ {
                if i != p {
                    assert(a.rader@[if i < p { i } else { i - 1 }].0@ == q);
                }
            } else {
                assert(i != p);
                a.lemma_rad(if i < p { i } else { i - 1 });
            }
        }
        assert(b@ =~= a@.insert(k@, v));
    }

    proof fn lemma_bytt(a: Tabell<T>, b: Tabell<T>, i: int, v: T)
        requires
            a.ordnet(),
            0 <= i < a.rader@.len(),
            b.rader@.len() == a.rader@.len(),
            forall|j: int| 0 <= j < a.rader@.len() ==> (#[trigger] b.rader@[j]).0@ == a.rader@[j].0@,
            forall|j: int| 0 <= j < a.rader@.len() && j != i ==> (#[trigger] b.rader@[j]).1 == a.rader@[j].1,
            b.rader@[i].1 == v,
        ensures
            b.ordnet(),
            b@ == a@.insert(a.rader@[i].0@, v),
    {
        let k = a.rader@[i].0@;
        assert forall|p: int, q: int| 0 <= p < q < b.rader@.len() implies text::before(
            (#[trigger] b.rader@[p]).0@,
            (#[trigger] b.rader@[q]).0@,
        ) by {
            assert(text::before(a.rader@[p].0@, a.rader@[q].0@));
        }
        assert forall|q: Seq<char>| b.har(q) == a.har(q) by {
            if b.har(q) {
                let j = b.rad(q);
                assert(a.rader@[j].0@ == q);
            }
            if a.har(q) {
                let j = a.rad(q);
                assert(b.rader@[j].0@ == q);
            }
        }
        a.lemma_rad(i);
        assert forall|q: Seq<char>| b.har(q) implies b@[q] == a@.insert(k, v)[q] by {
            let j = b.rad(q);
            assert(0 <= j < b.rader@.len() && b.rader@[j].0@ == q);
            b.lemma_rad(j);
            assert(a.rader@[j].0@ == q);
            a.lemma_rad(j);
            if q == k {
                assert(j == i);
            } else {
                assert(j != i);
            }
        }
        assert(b@ =~= a@.insert(k, v));
    }

    /// Gives a key a value.
    pub fn sett(&mut self, k: &str, v: T)
        requires
            old(self).ordnet(),
        ensures
            final(self).ordnet(),
            final(self)@ == old(self)@.insert(k@, v),
    {
        let ghost gammel = *self;
        match self.finn(k) {
            Some(i) => {
                let navn: String = k.to_owned();
                self.rader.set(i, (navn, v));
                proof {
                    Self::lemma_bytt(gammel, *self, i as int, v);
                }
            },
            None => {
                let mut p: usize = 0;
                while p < self.rader.len() && text::is_before(self.rader[p].0.as_str(), k)
                    invariant
                        p <= self.rader@.len(),
                        *self == gammel,
                        forall|i: int| 0 <= i < p ==> text::before((#[trigger] self.rader@[i]).0@, k@),
                    decreases self.rader.len() - p,
                {
                    p += 1;
                }
                proof {
                    assert(!gammel.har(k@));
                    assert forall|i: int| p <= i < gammel.rader@.len() implies text::before(
                        k@,
                        (#[trigger] gammel.rader@[i]).0@,
                    ) by {
                        let q = gammel.rader@[p as int].0@;
                        text::law_before_total(k@, q);
                        if i > p {
                            text::law_before_transitive(k@, q, gammel.rader@[i].0@);
                        }
                    }
                }
                let navn: String = k.to_owned();
                self.rader.insert(p, (navn, v));
                proof {
                    Self::lemma_satt_inn(gammel, *self, p as int, navn, v);
                }
            },
        }
    }

    /// Removes the row at a position.
    pub fn fjern_rad(&mut self, i: usize) -> (r: T)
        requires
            old(self).ordnet(),
            i < old(self).rader@.len(),
        ensures
            final(self).ordnet(),
            final(self)@ == old(self)@.remove(old(self).rader@[i as int].0@),
            r == old(self).rader@[i as int].1,
            final(self).rader@ == old(self).rader@.remove(i as int),
    {
        let ghost a = *self;
        let (_, v): (String, T) = self.rader.remove(i);
        proof {
            let b = *self;
            let k = a.rader@[i as int].0@;
            assert forall|p: int| 0 <= p < b.rader@.len() implies #[trigger] b.rader@[p] == a.rader@[if p < i { p } else { p + 1 }] by {}
            assert forall|p: int, q: int| 0 <= p < q < b.rader@.len() implies text::before(
                (#[trigger] b.rader@[p]).0@,
                (#[trigger] b.rader@[q]).0@,
            ) by {
                let p2 = if p < i { p } else { p + 1 };
                let q2 = if q < i { q } else { q + 1 };
                assert(text::before(a.rader@[p2].0@, a.rader@[q2].0@));
            }
            text::law_before_total(k, k);
            assert forall|q: Seq<char>| b.har(q) == (a.har(q) && q != k) by {
                if b.har(q) {
                    let p = b.rad(q);
                    assert(0 <= p < b.rader@.len() && b.rader@[p].0@ == q);
                    let p2 = if p < i { p } else { p + 1 };
                    assert(a.rader@[p2].0@ == q);
                    if p2 < i {
                        assert(text::before(a.rader@[p2].0@, a.rader@[i as int].0@));
                    } else {
                        assert(text::before(a.rader@[i as int].0@, a.rader@[p2].0@));
                    }
                }
                if a.har(q) && q != k {
                    let p = a.rad(q);
                    assert(0 <= p < a.rader@.len() && a.rader@[p].0@ == q);
                    assert(p != i);
                    let p2 = if p < i { p } else { p - 1 };
                    assert(b.rader@[p2].0@ == q);
                }
            }
            assert forall|q: Seq<char>| b.har(q) implies b@[q] == a@[q] by {
                let p = b.rad(q);
                assert(0 <= p < b.rader@.len() && b.rader@[p].0@ == q);
                let p2 = if p < i { p } else { p + 1 };
                b.lemma_rad(p);
                a.lemma_rad(p2);
            }
            assert(b@ =~= a@.remove(k));
        }
        v
    }

    /// Takes the value of a key out of the table.
    pub fn ta(&mut self, k: &str) -> (r: Option<T>)
        requires
            old(self).ordnet(),
        ensures
            final(self).ordnet(),
            final(self)@ == old(self)@.remove(k@),
            r is Some == old(self)@.dom().contains(k@),
            r matches Some(v) ==> v == old(self)@[k@],
    {
        match self.finn(k) {
            Some(i) => Some(self.fjern_rad(i)),
            None => {
                assert(self@ =~= old(self)@.remove(k@));
                None
            },
        }
    }
}

}
