//! Stable ordering of items by an integer key, as `sort_by_key` gives it.
use vstd::prelude::*;

verus! {

/// Item `a` comes before item `b` when sorted stably by `keys`: by key, and
/// among equal keys by position in the input.
pub open spec fn key_before(keys: Seq<u64>, a: usize, b: usize) -> bool {
    keys[a as int] < keys[b as int] || (keys[a as int] == keys[b as int] && a < b)
}

/// `order` lists every position of `keys` once, in stable key order.
pub open spec fn is_stable_order(keys: Seq<u64>, order: Seq<usize>) -> bool {
    &&& order.len() == keys.len()
    &&& forall|i: int| 0 <= i < order.len() ==> #[trigger] order[i] < keys.len()
    &&& forall|i: int, j: int|
        0 <= i < j < order.len() ==> key_before(keys, #[trigger] order[i], #[trigger] order[j])
    &&& forall|x: usize| x < keys.len() ==> #[trigger] order.contains(x)
}

/// The positions of `keys` in stable key order.
pub open spec fn stable_order(keys: Seq<u64>) -> Seq<usize> {
    choose|order: Seq<usize>| is_stable_order(keys, order)
}

/// There is only one stable order of a sequence of keys.
pub proof fn lemma_stable_order_unique(keys: Seq<u64>, a: Seq<usize>, b: Seq<usize>)
    requires
        is_stable_order(keys, a),
        is_stable_order(keys, b),
    ensures
        a == b,
{
    if a != b {
        assert(!(a =~= b));
        let k = choose|k: int| 0 <= k < a.len() && a[k] != b[k];
        assert(0 <= k < a.len() && a[k] != b[k]);
        // the first position where they differ
        let first = choose|f: int| 0 <= f < a.len() && a[f] != b[f] && forall|g: int| 0 <= g < f ==> a[g] == b[g];
        assert(exists|f: int| 0 <= f < a.len() && a[f] != b[f] && forall|g: int| 0 <= g < f ==> a[g] == b[g]) by {
            lemma_first_difference(a, b, k);
        }
        let x = a[first];
        let y = b[first];
        assert(b.contains(x));
        assert(a.contains(y));
        let m = choose|m: int| 0 <= m < b.len() && b[m] == x;
        let n = choose|n: int| 0 <= n < a.len() && a[n] == y;
        if m < first {
            assert(a[m] == b[m]);
            assert(key_before(keys, a[m], a[first]));
        } else if n < first {
            assert(a[n] == b[n]);
            assert(key_before(keys, b[n], b[first]));
        } else {
            assert(m > first && n > first);
            assert(key_before(keys, b[first], b[m]));
            assert(key_before(keys, a[first], a[n]));
        }
    }
}

proof fn lemma_first_difference(a: Seq<usize>, b: Seq<usize>, k: int)
    requires
        a.len() == b.len(),
        0 <= k < a.len(),
        a[k] != b[k],
    ensures
        exists|f: int| 0 <= f < a.len() && a[f] != b[f] && forall|g: int| 0 <= g < f ==> a[g] == b[g],
    decreases k,
{
    if forall|g: int| 0 <= g < k ==> a[g] == b[g] {
    } else {
        let g = choose|g: int| 0 <= g < k && a[g] != b[g];
        lemma_first_difference(a, b, g);
    }
}

/// `x` inserted into `o` before the first element it comes before.
pub open spec fn insert_by_key(keys: Seq<u64>, o: Seq<usize>, x: usize) -> Seq<usize>
    decreases o.len(),
{
    if o.len() == 0 {
        seq![x]
    } else if key_before(keys, o.last(), x) {
        o.push(x)
    } else {
        insert_by_key(keys, o.drop_last(), x).push(o.last())
    }
}

/// The first `n` positions inserted one after another.
pub open spec fn insertion_order(keys: Seq<u64>, n: nat) -> Seq<usize>
    decreases n,
{
    if n == 0 {
        Seq::empty()
    } else {
        insert_by_key(keys, insertion_order(keys, (n - 1) as nat), (n - 1) as usize)
    }
}

proof fn lemma_insert_by_key(keys: Seq<u64>, o: Seq<usize>, x: usize)
    requires
        x < keys.len(),
        forall|i: int| 0 <= i < o.len() ==> #[trigger] o[i] < keys.len() && o[i] != x,
        forall|i: int, j: int| 0 <= i < j < o.len() ==> key_before(keys, #[trigger] o[i], #[trigger] o[j]),
    ensures
        insert_by_key(keys, o, x).len() == o.len() + 1,
        forall|i: int| 0 <= i < insert_by_key(keys, o, x).len() ==> #[trigger] insert_by_key(keys, o, x)[i] < keys.len(),
        forall|i: int, j: int|
            0 <= i < j < insert_by_key(keys, o, x).len() ==> key_before(
                keys,
                #[trigger] insert_by_key(keys, o, x)[i],
                #[trigger] insert_by_key(keys, o, x)[j],
            ),
        forall|y: usize| #[trigger] insert_by_key(keys, o, x).contains(y) <==> (o.contains(y) || y == x),
    decreases o.len(),
{
    let r = insert_by_key(keys, o, x);
    if o.len() == 0 {
        assert(r =~= seq![x]);
        assert forall|y: usize| #[trigger] r.contains(y) <==> (o.contains(y) || y == x) by {
            if y == x { assert(r[0] == x); }
        }
    } else {
        let last = o.last();
        if key_before(keys, last, x) {
            assert forall|i: int, j: int| 0 <= i < j < r.len() implies key_before(keys, #[trigger] r[i], #[trigger] r[j]) by {
                if j == o.len() {
                    if i < o.len() - 1 {
                        assert(key_before(keys, o[i], o[o.len() - 1]));
                    }
                } else {
                    assert(r[i] == o[i] && r[j] == o[j]);
                }
            }
            assert forall|y: usize| #[trigger] r.contains(y) <==> (o.contains(y) || y == x) by {
                if r.contains(y) {
                    let k = choose|k: int| 0 <= k < r.len() && r[k] == y;
                    if k < o.len() { assert(o[k] == y); }
                }
                if o.contains(y) {
                    let k = choose|k: int| 0 <= k < o.len() && o[k] == y;
                    assert(r[k] == y);
                }
                if y == x { assert(r[o.len() as int] == x); }
            }
        } else {
            let init = o.drop_last();
            assert forall|i: int, j: int| 0 <= i < j < init.len() implies key_before(keys, #[trigger] init[i], #[trigger] init[j]) by {
                assert(init[i] == o[i] && init[j] == o[j]);
            }
            assert forall|i: int| 0 <= i < init.len() implies #[trigger] init[i] < keys.len() && init[i] != x by {
                assert(init[i] == o[i]);
            }
            lemma_insert_by_key(keys, init, x);
            let mid = insert_by_key(keys, init, x);
            assert(r == mid.push(last));
            assert(last != x);
            assert(key_before(keys, x, last));
            assert forall|i: int| 0 <= i < mid.len() implies key_before(keys, #[trigger] mid[i], last) by {
                assert(mid.contains(mid[i]));
                if mid[i] == x {
                } else {
                    assert(init.contains(mid[i]));
                    let k = choose|k: int| 0 <= k < init.len() && init[k] == mid[i];
                    assert(o[k] == mid[i]);
                    assert(key_before(keys, o[k], o[o.len() - 1]));
                }
            }
            assert forall|i: int, j: int| 0 <= i < j < r.len() implies key_before(keys, #[trigger] r[i], #[trigger] r[j]) by {
                if j == mid.len() {
                    assert(r[i] == mid[i]);
                } else {
                    assert(r[i] == mid[i] && r[j] == mid[j]);
                }
            }
            assert forall|y: usize| #[trigger] r.contains(y) <==> (o.contains(y) || y == x) by {
                if r.contains(y) {
                    let k = choose|k: int| 0 <= k < r.len() && r[k] == y;
                    if k < mid.len() {
                        assert(mid[k] == y);
                        assert(mid.contains(y));
                        if init.contains(y) {
                            let q = choose|q: int| 0 <= q < init.len() && init[q] == y;
                            assert(o[q] == y);
                        }
                    } else {
                        assert(o[o.len() - 1] == y);
                    }
                }
                if o.contains(y) {
                    let k = choose|k: int| 0 <= k < o.len() && o[k] == y;
                    if k < o.len() - 1 {
                        assert(init[k] == y);
                        assert(init.contains(y));
                        assert(mid.contains(y));
                        let q = choose|q: int| 0 <= q < mid.len() && mid[q] == y;
                        assert(r[q] == y);
                    } else {
                        assert(r[mid.len() as int] == y);
                    }
                }
                if y == x {
                    assert(mid.contains(x));
                    let q = choose|q: int| 0 <= q < mid.len() && mid[q] == x;
                    assert(r[q] == x);
                }
            }
            assert forall|i: int| 0 <= i < r.len() implies #[trigger] r[i] < keys.len() by {
                if i < mid.len() { assert(r[i] == mid[i]); }
            }
        }
    }
}

proof fn lemma_insertion_order(keys: Seq<u64>, n: nat)
    requires
        n <= keys.len(),
        keys.len() <= usize::MAX,
    ensures
        insertion_order(keys, n).len() == n,
        forall|i: int| 0 <= i < n ==> #[trigger] insertion_order(keys, n)[i] < n,
        forall|i: int, j: int|
            0 <= i < j < n ==> key_before(keys, #[trigger] insertion_order(keys, n)[i], #[trigger] insertion_order(keys, n)[j]),
        forall|y: usize| y < n ==> #[trigger] insertion_order(keys, n).contains(y),
    decreases n,
{
    if n > 0 {
        let m = (n - 1) as nat;
        lemma_insertion_order(keys, m);
        let o = insertion_order(keys, m);
        assert forall|i: int| 0 <= i < o.len() implies #[trigger] o[i] < keys.len() && o[i] != m as usize by {
            assert(o[i] < m);
        }
        lemma_insert_by_key(keys, o, m as usize);
        let r = insertion_order(keys, n);
        assert forall|i: int| 0 <= i < n implies #[trigger] r[i] < n by {
            assert(r.contains(r[i]));
            if r[i] != m as usize {
                assert(o.contains(r[i]));
            }
        }
        assert forall|y: usize| y < n implies #[trigger] r.contains(y) by {
            if y < m { assert(o.contains(y)); }
        }
    }
}

/// Every sequence of keys has a stable order.
pub proof fn lemma_stable_order_exists(keys: Seq<u64>)
    requires
        keys.len() <= usize::MAX,
    ensures
        is_stable_order(keys, stable_order(keys)),
{
    lemma_insertion_order(keys, keys.len());
    assert(is_stable_order(keys, insertion_order(keys, keys.len())));
}

/// Whatever satisfies the stable-order predicate is the stable order.
pub proof fn lemma_is_stable_order(keys: Seq<u64>, order: Seq<usize>)
    requires
        is_stable_order(keys, order),
    ensures
        stable_order(keys) == order,
{
    lemma_stable_order_unique(keys, stable_order(keys), order);
}

/// The positions of `keys` in stable key order. vstd gives no specification of
/// the slice sorts, so the order is built here by insertion.
pub fn stable_order_of(keys: &Vec<u64>) -> (order: Vec<usize>)
    ensures
        is_stable_order(keys@, order@),
        order@ == stable_order(keys@),
{
    let n = keys.len();
    let mut order: Vec<usize> = Vec::new();
    for i in 0..n
        invariant
            n == keys.len(),
            order.len() == i,
            forall|q: int| 0 <= q < order.len() ==> #[trigger] order[q] < i,
            forall|p: int, q: int|
                0 <= p < q < order.len() ==> key_before(keys@, #[trigger] order[p], #[trigger] order[q]),
            forall|x: usize| x < i ==> #[trigger] order@.contains(x),
    {
        let key = keys[i];
        let mut pos: usize = 0;
        while pos < order.len() && keys[order[pos]] <= key
            invariant
                n == keys.len(),
                i < n,
                key == keys@[i as int],
                pos <= order.len(),
                forall|q: int| 0 <= q < pos ==> keys@[#[trigger] order[q] as int] <= key,
                forall|q: int| 0 <= q < order.len() ==> #[trigger] order[q] < i,
            decreases order.len() - pos,
        {
            pos = pos + 1;
        }
        let ghost prev = order@;
        order.insert(pos, i);
        proof {
            assert(order@ == prev.insert(pos as int, i));
            // keys along the previous order never decrease
            assert forall|q: int| pos <= q < prev.len() implies keys@[#[trigger] prev[q] as int] > key by {
                assert(keys@[prev[pos as int] as int] > key);
                if q > pos {
                    assert(key_before(keys@, prev[pos as int], prev[q]));
                }
            }
            assert forall|p: int, q: int|
                0 <= p < q < order.len() implies key_before(keys@, #[trigger] order[p], #[trigger] order[q]) by {
                if q < pos {
                    assert(order[p] == prev[p] && order[q] == prev[q]);
                } else if q == pos {
                    assert(order[p] == prev[p]);
                } else if p < pos {
                    assert(order[p] == prev[p] && order[q] == prev[q - 1]);
                } else if p == pos {
                    assert(order[q] == prev[q - 1]);
                } else {
                    assert(order[p] == prev[p - 1] && order[q] == prev[q - 1]);
                }
            }
            assert forall|q: int| 0 <= q < order.len() implies #[trigger] order[q] < i + 1 by {
                if q < pos {
                    assert(order[q] == prev[q]);
                } else if q > pos {
                    assert(order[q] == prev[q - 1]);
                }
            }
            assert forall|x: usize| x < i + 1 implies #[trigger] order@.contains(x) by {
                if x == i {
                    assert(order[pos as int] == i);
                } else {
                    assert(prev.contains(x));
                    let q = choose|q: int| 0 <= q < prev.len() && prev[q] == x;
                    if q < pos {
                        assert(order[q] == x);
                    } else {
                        assert(order[q + 1] == x);
                    }
                }
            }
        }
    }
    proof {
        lemma_is_stable_order(keys@, order@);
    }
    order
}

} // verus!
