//! Stable ordering of items by an integer key, highest key first.

use vstd::prelude::*;

verus! {

/// Where stable insertion puts an item with key `k` into `o` (indices into `keys`,
/// already ordered): before the first item, from position `i` on, whose key is lower.
pub open spec fn ins_pos(o: Seq<int>, keys: Seq<u64>, k: u64, i: int) -> int
    decreases o.len() - i,
{
    if i < 0 || i >= o.len() {
        o.len() as int
    } else if keys[o[i]] < k {
        i
    } else {
        ins_pos(o, keys, k, i + 1)
    }
}

/// The order in which a stable sort by key, highest first, lists the first `n`
/// items whose keys are `keys`: each item is inserted after every earlier item
/// whose key is at least its own.
pub open spec fn desc_order(keys: Seq<u64>, n: nat) -> Seq<int>
    decreases n,
{
    if n == 0 {
        Seq::empty()
    } else {
        let o = desc_order(keys, (n - 1) as nat);
        o.insert(ins_pos(o, keys, keys[n - 1], 0), n - 1)
    }
}

pub proof fn lemma_ins_pos_bounds(o: Seq<int>, keys: Seq<u64>, k: u64, i: int)
    requires
        0 <= i,
    ensures
        i <= ins_pos(o, keys, k, i) <= o.len() || ins_pos(o, keys, k, i) == o.len(),
        0 <= ins_pos(o, keys, k, i) <= o.len(),
    decreases o.len() - i,
{
    if i < o.len() && !(keys[o[i]] < k) {
        lemma_ins_pos_bounds(o, keys, k, i + 1);
    }
}

/// Every entry of `desc_order(keys, n)` is an index below `n`, and there are `n` of them.
pub proof fn lemma_desc_order_bounds(keys: Seq<u64>, n: nat)
    ensures
        desc_order(keys, n).len() == n,
        forall|j: int| 0 <= j < n ==> 0 <= #[trigger] desc_order(keys, n)[j] < n,
    decreases n,
{
    if n > 0 {
        let o = desc_order(keys, (n - 1) as nat);
        lemma_desc_order_bounds(keys, (n - 1) as nat);
        lemma_ins_pos_bounds(o, keys, keys[n - 1], 0);
        let p = ins_pos(o, keys, keys[n - 1], 0);
        assert forall|j: int| 0 <= j < n implies 0 <= #[trigger] desc_order(keys, n)[j] < n by {
            if j < p {
                assert(desc_order(keys, n)[j] == o[j]);
            } else if j > p {
                assert(desc_order(keys, n)[j] == o[j - 1]);
            }
        }
    }
}

/// Items before the insertion point have keys at least `k`; the item at it, if any,
/// has a lower key.
proof fn lemma_ins_pos_props(o: Seq<int>, keys: Seq<u64>, k: u64, i: int)
    requires
        0 <= i <= o.len(),
    ensures
        i <= ins_pos(o, keys, k, i) <= o.len(),
        forall|j: int| i <= j < ins_pos(o, keys, k, i) ==> keys[o[j]] >= k,
        ins_pos(o, keys, k, i) < o.len() ==> keys[o[ins_pos(o, keys, k, i)]] < k,
    decreases o.len() - i,
{
    if i < o.len() && !(keys[o[i]] < k) {
        lemma_ins_pos_props(o, keys, k, i + 1);
    }
}

/// A stable sort by key, highest first: `desc_order(keys, n)` lists each of the first
/// `n` items exactly once, keys never rise along it, and items with equal keys keep
/// their original order.
pub proof fn law_desc_order_sorted(keys: Seq<u64>, n: nat)
    requires
        n <= keys.len(),
    ensures
        desc_order(keys, n).len() == n,
        forall|j: int| 0 <= j < n ==> 0 <= #[trigger] desc_order(keys, n)[j] < n,
        forall|i: int, j: int|
            0 <= i < j < n ==> #[trigger] desc_order(keys, n)[i] != #[trigger] desc_order(keys, n)[j],
        forall|i: int, j: int|
            0 <= i < j < n ==> keys[#[trigger] desc_order(keys, n)[i]] >= keys[#[trigger] desc_order(keys, n)[j]],
        forall|i: int, j: int|
            0 <= i < j < n && keys[#[trigger] desc_order(keys, n)[i]] == keys[#[trigger] desc_order(keys, n)[j]]
                ==> desc_order(keys, n)[i] < desc_order(keys, n)[j],
    decreases n,
{
    lemma_desc_order_bounds(keys, n);
    if n > 0 {
        let m = (n - 1) as nat;
        let o = desc_order(keys, m);
        law_desc_order_sorted(keys, m);
        let k = keys[m as int];
        lemma_ins_pos_props(o, keys, k, 0);
        let p = ins_pos(o, keys, k, 0);
        let o2 = desc_order(keys, n);
        assert(o2 == o.insert(p, m as int));
        assert forall|j: int| p <= j < o.len() implies keys[o[j]] < k by {
            if j > p {
                assert(keys[o[p]] >= keys[o[j]]);
            }
        }
        assert forall|i: int, j: int| 0 <= i < j < n implies #[trigger] o2[i] != #[trigger] o2[j] by {
            if i < p && j < p {
                assert(o2[i] == o[i] && o2[j] == o[j]);
            } else if i < p && j == p {
                assert(o2[i] == o[i]);
            } else if i < p {
                assert(o2[i] == o[i] && o2[j] == o[j - 1]);
            } else if i == p {
                assert(o2[j] == o[j - 1]);
            } else {
                assert(o2[i] == o[i - 1] && o2[j] == o[j - 1]);
            }
        }
        assert forall|i: int, j: int| 0 <= i < j < n implies keys[#[trigger] o2[i]] >= keys[#[trigger] o2[j]] by {
            if i < p && j < p {
                assert(o2[i] == o[i] && o2[j] == o[j]);
            } else if i < p && j == p {
                assert(o2[i] == o[i]);
            } else if i < p {
                assert(o2[i] == o[i] && o2[j] == o[j - 1]);
            } else if i == p {
                assert(o2[j] == o[j - 1]);
            } else {
                assert(o2[i] == o[i - 1] && o2[j] == o[j - 1]);
            }
        }
        assert forall|i: int, j: int|
            0 <= i < j < n && keys[#[trigger] o2[i]] == keys[#[trigger] o2[j]] implies o2[i] < o2[j] by {
            if i < p && j < p {
                assert(o2[i] == o[i] && o2[j] == o[j]);
            } else if i < p && j == p {
                assert(o2[i] == o[i]);
            } else if i < p {
                assert(o2[i] == o[i] && o2[j] == o[j - 1]);
            } else if i == p {
                assert(o2[j] == o[j - 1]);
            } else {
                assert(o2[i] == o[i - 1] && o2[j] == o[j - 1]);
            }
        }
    }
}

pub open spec fn usize_ints(v: Seq<usize>) -> Seq<int> {
    v.map_values(|x: usize| x as int)
}

/// The positions of a stable sort of items with keys `keys`, highest key first.
pub fn stable_desc_order(keys: &[u64]) -> (r: Vec<usize>)
    ensures
        usize_ints(r@) == desc_order(keys@, keys@.len()),
        r@.len() == keys@.len(),
        forall|j: int| 0 <= j < r@.len() ==> #[trigger] r@[j] < keys@.len(),
{
    let mut o: Vec<usize> = Vec::new();
    let mut n: usize = 0;
    assert(usize_ints(o@) =~= desc_order(keys@, 0));
    while n < keys.len()
        invariant
            n <= keys@.len(),
            usize_ints(o@) == desc_order(keys@, n as nat),
            o@.len() == n,
        decreases keys@.len() - n,
    {
        let k = keys[n];
        let ghost oi = usize_ints(o@);
        proof {
            lemma_desc_order_bounds(keys@, n as nat);
            assert forall|j: int| 0 <= j < o@.len() implies #[trigger] o@[j] < n by {
                assert(oi[j] == o@[j] as int);
            }
        }
        let mut p: usize = 0;
        while p < o.len() && !(keys[o[p]] < k)
            invariant
                p <= o@.len(),
                o@.len() == n,
                n < keys@.len(),
                oi == usize_ints(o@),
                oi == desc_order(keys@, n as nat),
                forall|j: int| 0 <= j < o@.len() ==> #[trigger] o@[j] < n,
                ins_pos(oi, keys@, k, 0) == ins_pos(oi, keys@, k, p as int),
            decreases o@.len() - p,
        {
            p = p + 1;
        }
        proof {
            lemma_desc_order_bounds(keys@, n as nat);
            assert(ins_pos(oi, keys@, k, p as int) == p as int);
        }
        o.insert(p, n);
        assert(usize_ints(o@) =~= oi.insert(p as int, n as int));
        n = n + 1;
        proof {
            lemma_desc_order_bounds(keys@, n as nat);
        }
    }
    proof {
        lemma_desc_order_bounds(keys@, n as nat);
        assert forall|j: int| 0 <= j < o@.len() implies #[trigger] o@[j] < keys@.len() by {
            assert(usize_ints(o@)[j] == o@[j] as int);
        }
    }
    o
}

} // verus!
