//! Stable ordering: positions sorted by key, equal keys in their first order.
use vstd::prelude::*;

verus! {

/// Where a new key goes in `r`: behind everything up to the last key that is
/// not larger.
pub open spec fn place(keys: Seq<i128>, r: Seq<int>, key: i128) -> int
    decreases r.len(),
{
    if r.len() == 0 {
        0
    } else if keys[r.last()] <= key {
        r.len() as int
    } else {
        place(keys, r.drop_last(), key)
    }
}

/// The positions of `keys` in the order of a stable sort.
pub open spec fn order_of(keys: Seq<i128>) -> Seq<int>
    decreases keys.len(),
{
    if keys.len() == 0 {
        Seq::empty()
    } else {
        let p = order_of(keys.drop_last());
        p.insert(place(keys, p, keys.last()), keys.len() - 1)
    }
}

/// Whether position `a` comes before position `b`.
pub open spec fn earlier(keys: Seq<i128>, a: int, b: int) -> bool {
    keys[a] < keys[b] || (keys[a] == keys[b] && a < b)
}

/// Whether `r` holds every position once, sorted by key and then by position.
pub open spec fn stable(keys: Seq<i128>, r: Seq<int>) -> bool {
    &&& r.len() == keys.len()
    &&& forall|i: int| 0 <= i < r.len() ==> 0 <= #[trigger] r[i] < keys.len()
    &&& forall|i: int, j: int| 0 <= i < j < r.len() ==> earlier(keys, #[trigger] r[i], #[trigger] r[j])
    &&& forall|k: int| 0 <= k < keys.len() ==> #[trigger] r.contains(k)
}

proof fn lemma_place(keys: Seq<i128>, r: Seq<int>, key: i128)
    requires
        forall|i: int, j: int| 0 <= i < j < r.len() ==> keys[#[trigger] r[i]] <= keys[#[trigger] r[j]],
    ensures
        0 <= place(keys, r, key) <= r.len(),
        forall|i: int| 0 <= i < place(keys, r, key) ==> keys[#[trigger] r[i]] <= key,
        forall|i: int| place(keys, r, key) <= i < r.len() ==> keys[#[trigger] r[i]] > key,
    decreases r.len(),
{
    if r.len() == 0 {
    } else if keys[r.last()] <= key {
    } else {
        let d = r.drop_last();
        assert forall|i: int, j: int| 0 <= i < j < d.len() implies keys[#[trigger] d[i]] <= keys[#[trigger] d[j]] by {
            assert(d[i] == r[i] && d[j] == r[j]);
        }
        lemma_place(keys, d, key);
        assert forall|i: int| 0 <= i < place(keys, r, key) implies keys[#[trigger] r[i]] <= key by {
            assert(d[i] == r[i]);
        }
        assert forall|i: int| place(keys, r, key) <= i < r.len() implies keys[#[trigger] r[i]] > key by {
            if i < d.len() {
                assert(d[i] == r[i]);
            }
        }
    }
}

proof fn lemma_place_unique(keys: Seq<i128>, r: Seq<int>, key: i128, p: int)
    requires
        forall|i: int, j: int| 0 <= i < j < r.len() ==> keys[#[trigger] r[i]] <= keys[#[trigger] r[j]],
        0 <= p <= r.len(),
        forall|i: int| 0 <= i < p ==> keys[#[trigger] r[i]] <= key,
        forall|i: int| p <= i < r.len() ==> keys[#[trigger] r[i]] > key,
    ensures
        p == place(keys, r, key),
{
    lemma_place(keys, r, key);
    let q = place(keys, r, key);
    if p < q {
        assert(keys[r[p]] <= key);
        assert(keys[r[p]] > key);
    } else if q < p {
        assert(keys[r[q]] > key);
        assert(keys[r[q]] <= key);
    }
}

proof fn lemma_extend(keys: Seq<i128>)
    requires
        keys.len() > 0,
        stable(keys.drop_last(), order_of(keys.drop_last())),
    ensures
        stable(keys, order_of(keys)),
{
    let d = keys.drop_last();
    let p = order_of(d);
    let n = keys.len() - 1;
    let r = order_of(keys);
    assert forall|i: int, j: int| 0 <= i < j < p.len() implies keys[#[trigger] p[i]] <= keys[#[trigger] p[j]] by {
        assert(earlier(d, p[i], p[j]));
        assert(d[p[i]] == keys[p[i]] && d[p[j]] == keys[p[j]]);
    }
    lemma_place(keys, p, keys.last());
    let k = place(keys, p, keys.last());
    assert forall|i: int| 0 <= i < r.len() implies 0 <= #[trigger] r[i] < keys.len() by {
        if i < k {
            assert(r[i] == p[i]);
        } else if i > k {
            assert(r[i] == p[i - 1]);
        }
    }
    assert forall|i: int, j: int| 0 <= i < j < r.len() implies earlier(keys, #[trigger] r[i], #[trigger] r[j]) by {
        let a = if i < k { i } else { i - 1 };
        let b = if j < k { j } else { j - 1 };
        if i != k && j != k {
            assert(r[i] == p[a] && r[j] == p[b]);
            assert(earlier(d, p[a], p[b]));
            assert(d[p[a]] == keys[p[a]] && d[p[b]] == keys[p[b]]);
        } else if i == k {
            assert(r[j] == p[b]);
            assert(keys[p[b]] > keys.last());
        } else {
            assert(r[i] == p[a]);
            assert(keys[p[a]] <= keys.last());
        }
    }
    assert forall|x: int| 0 <= x < keys.len() implies #[trigger] r.contains(x) by {
        if x == n {
            assert(r[k] == n);
        } else {
            assert(p.contains(x));
            let i = choose|i: int| 0 <= i < p.len() && p[i] == x;
            assert(r[if i < k { i } else { i + 1 }] == x);
        }
    }
}

/// The order sorts by key, keeps equal keys in their first order, and leaves
/// out no position.
pub proof fn law_order_is_stable(keys: Seq<i128>)
    ensures
        stable(keys, order_of(keys)),
    decreases keys.len(),
{
    if keys.len() > 0 {
        law_order_is_stable(keys.drop_last());
        lemma_extend(keys);
    }
}

pub open spec fn positions(r: Seq<usize>) -> Seq<int> {
    r.map_values(|x: usize| x as int)
}

/// The positions of the keys in the order of a stable sort.
pub fn stable_order(keys: &Vec<i128>) -> (r: Vec<usize>)
    ensures
        positions(r@) == order_of(keys@),
        stable(keys@, positions(r@)),
        forall|i: int| 0 <= i < r@.len() ==> (#[trigger] r@[i]) < keys@.len(),
{
    let mut r: Vec<usize> = Vec::new();
    let mut n: usize = 0;
    assert(positions(r@) =~= order_of(keys@.take(0)));
    while n < keys.len()
        invariant
            n <= keys@.len(),
            positions(r@) == order_of(keys@.take(n as int)),
            r@.len() == n,
        decreases keys.len() - n,
    {
        let ghost kt = keys@.take(n as int);
        let ghost kn = keys@.take(n + 1);
        let ghost p = positions(r@);
        proof {
            law_order_is_stable(kt);
            assert(kn.drop_last() =~= kt);
            assert forall|i: int| 0 <= i < n implies 0 <= #[trigger] r@[i] < n by {
                assert(p[i] == r@[i]);
            }
            assert forall|i: int, j: int| 0 <= i < j < p.len() implies kn[#[trigger] p[i]] <= kn[#[trigger] p[j]] by {
                assert(earlier(kt, p[i], p[j]));
                assert(kt[p[i]] == kn[p[i]] && kt[p[j]] == kn[p[j]]);
            }
        }
        let key: i128 = keys[n];
        let mut lo: usize = 0;
        let mut hi: usize = n;
        while lo < hi
            invariant
                lo <= hi <= n,
                n < keys@.len(),
                r@.len() == n,
                p == positions(r@),
                kn == keys@.take(n + 1),
                forall|i: int| 0 <= i < n ==> 0 <= #[trigger] r@[i] < n,
                forall|i: int, j: int| 0 <= i < j < p.len() ==> kn[#[trigger] p[i]] <= kn[#[trigger] p[j]],
                forall|i: int| 0 <= i < lo ==> kn[#[trigger] p[i]] <= key,
                forall|i: int| hi <= i < p.len() ==> kn[#[trigger] p[i]] > key,
            decreases hi - lo,
        {
            let mid: usize = lo + (hi - lo) / 2;
            assert(p[mid as int] == r@[mid as int]);
            assert(kn[p[mid as int]] == keys@[r@[mid as int] as int]);
            if keys[r[mid]] <= key {
                lo = mid + 1;
            } else {
                hi = mid;
            }
        }
        proof {
            lemma_place_unique(kn, p, key, lo as int);
        }
        r.insert(lo, n);
        assert(positions(r@) =~= p.insert(lo as int, n as int));
        n += 1;
    }
    assert(keys@.take(n as int) =~= keys@);
    proof {
        law_order_is_stable(keys@);
        assert forall|i: int| 0 <= i < r@.len() implies (#[trigger] r@[i]) < keys@.len() by {
            assert(positions(r@)[i] == r@[i]);
        }
    }
    r
}

/// Keys that are in order already keep their places.
pub proof fn lemma_order_sorted(keys: Seq<i128>)
    requires
        forall|i: int, j: int| 0 <= i < j < keys.len() ==> keys[i] <= keys[j],
    ensures
        order_of(keys) == Seq::new(keys.len(), |i: int| i),
    decreases keys.len(),
{
    if keys.len() > 0 {
        let d = keys.drop_last();
        lemma_order_sorted(d);
        let p = order_of(d);
        if p.len() > 0 {
            assert(p.last() == p.len() - 1);
            assert(keys[p.last()] <= keys.last());
        }
        assert(order_of(keys) =~= Seq::new(keys.len(), |i: int| i));
    } else {
        assert(order_of(keys) =~= Seq::new(keys.len(), |i: int| i));
    }
}

}
