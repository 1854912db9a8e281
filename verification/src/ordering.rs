//! A stable order of positions by key.
use vstd::prelude::*;

use crate::float::single::F32;

verus! {

/// `order` with position `at` placed behind every key that does not exceed
/// its own.
pub open spec fn placed(keys: Seq<F32>, order: Seq<usize>, at: usize) -> Seq<usize>
    decreases order.len(),
{
    if order.len() == 0 || !keys[at as int].less(keys[order.last() as int]) {
        order.push(at)
    } else {
        placed(keys, order.drop_last(), at).push(order.last())
    }
}

/// The first `n` positions of `keys` in the order of their keys; equal keys
/// keep their order.
pub open spec fn order_of(keys: Seq<F32>, n: nat) -> Seq<usize>
    decreases n,
{
    if n == 0 {
        Seq::empty()
    } else {
        placed(keys, order_of(keys, (n - 1) as nat), (n - 1) as usize)
    }
}

/// Every position below `n`, each once.
pub open spec fn is_arrangement(order: Seq<usize>, n: nat) -> bool {
    &&& order.len() == n
    &&& forall|i: int| 0 <= i < order.len() ==> (#[trigger] order[i]) < n
    &&& forall|i: int, j: int|
        0 <= i < j < order.len() ==> #[trigger] order[i] != #[trigger] order[j]
}

/// Position `a` comes before position `b`.
pub open spec fn comes_first(keys: Seq<F32>, a: usize, b: usize) -> bool {
    ||| keys[a as int].less(keys[b as int])
    ||| a < b && !keys[b as int].less(keys[a as int])
}

pub proof fn lemma_placed(keys: Seq<F32>, order: Seq<usize>, n: nat)
    requires
        is_arrangement(order, n),
        n < usize::MAX,
    ensures
        is_arrangement(placed(keys, order, n as usize), n + 1),
{
    lemma_placed_from(keys, order, n);
}

/// `placed` keeps the members of `order`, whatever part of it they are.
proof fn lemma_placed_from(keys: Seq<F32>, order: Seq<usize>, n: nat)
    requires
        n < usize::MAX,
        forall|i: int| 0 <= i < order.len() ==> (#[trigger] order[i]) < n,
        forall|i: int, j: int|
            0 <= i < j < order.len() ==> #[trigger] order[i] != #[trigger] order[j],
    ensures
        ({
            let r = placed(keys, order, n as usize);
            &&& r.len() == order.len() + 1
            &&& forall|i: int| 0 <= i < r.len() ==> (#[trigger] r[i]) <= n
            &&& forall|i: int, j: int| 0 <= i < j < r.len() ==> #[trigger] r[i] != #[trigger] r[j]
            &&& forall|i: int| #![auto] 0 <= i < r.len() ==> r[i] == n || order.contains(r[i])
        }),
    decreases order.len(),
{
    let at = n as usize;
    let r = placed(keys, order, at);
    if order.len() == 0 || !keys[at as int].less(keys[order.last() as int]) {
        assert forall|i: int| #![auto] 0 <= i < r.len() implies r[i] == n || order.contains(
            r[i],
        ) by {
            if i < order.len() {
                assert(r[i] == order[i]);
            }
        }
    } else {
        let shorter = order.drop_last();
        lemma_placed_from(keys, shorter, n);
        let q = placed(keys, shorter, at);
        assert(r == q.push(order.last()));
        assert forall|i: int, j: int| 0 <= i < j < r.len() implies #[trigger] r[i]
            != #[trigger] r[j] by {
            if j == r.len() - 1 {
                assert(r[i] == q[i]);
                if q[i] != n {
                    assert(shorter.contains(q[i]));
                    let k = choose|k: int| 0 <= k < shorter.len() && shorter[k] == q[i];
                    assert(order[k] == q[i]);
                }
            }
        }
        assert forall|i: int| #![auto] 0 <= i < r.len() implies r[i] == n || order.contains(
            r[i],
        ) by {
            if i == r.len() - 1 {
                assert(order[order.len() - 1] == r[i]);
            } else {
                assert(r[i] == q[i]);
                if q[i] != n {
                    assert(shorter.contains(q[i]));
                    let k = choose|k: int| 0 <= k < shorter.len() && shorter[k] == q[i];
                    assert(order[k] == q[i]);
                }
            }
        }
    }
}

/// The order is an arrangement of all positions.
pub proof fn order_is_an_arrangement(keys: Seq<F32>, n: nat)
    requires
        n <= usize::MAX,
    ensures
        is_arrangement(order_of(keys, n), n),
    decreases n,
{
    if n > 0 {
        order_is_an_arrangement(keys, (n - 1) as nat);
        lemma_placed(keys, order_of(keys, (n - 1) as nat), (n - 1) as nat);
    }
}

proof fn lemma_placed_contains(keys: Seq<F32>, order: Seq<usize>, at: usize, p: usize)
    requires
        p == at || order.contains(p),
    ensures
        placed(keys, order, at).contains(p),
    decreases order.len(),
{
    let r = placed(keys, order, at);
    if order.len() == 0 || !keys[at as int].less(keys[order.last() as int]) {
        if p == at {
            assert(r[order.len() as int] == p);
        } else {
            let k = choose|k: int| 0 <= k < order.len() && order[k] == p;
            assert(r[k] == p);
        }
    } else {
        let shorter = order.drop_last();
        let q = placed(keys, shorter, at);
        if p != at && p == order.last() {
            assert(r[r.len() - 1] == p);
        } else {
            if p != at {
                let k = choose|k: int| 0 <= k < order.len() && order[k] == p;
                assert(shorter[k] == p);
            }
            lemma_placed_contains(keys, shorter, at, p);
            let k = choose|k: int| 0 <= k < q.len() && q[k] == p;
            assert(r[k] == p);
        }
    }
}

/// No position is left out of the order.
pub proof fn order_leaves_nothing_out(keys: Seq<F32>, n: nat, p: usize)
    requires
        p < n <= usize::MAX,
    ensures
        order_of(keys, n).contains(p),
    decreases n,
{
    let m = (n - 1) as nat;
    if p < m {
        order_leaves_nothing_out(keys, m, p);
    }
    lemma_placed_contains(keys, order_of(keys, m), m as usize, p);
}

/// No key is without a value.
pub open spec fn comparable(keys: Seq<F32>) -> bool {
    forall|i: int| 0 <= i < keys.len() ==> !(#[trigger] keys[i]).nan()
}

/// Each position comes before all that follow it.
pub open spec fn is_ordered(keys: Seq<F32>, order: Seq<usize>) -> bool {
    forall|i: int, j: int|
        0 <= i < j < order.len() ==> comes_first(keys, #[trigger] order[i], #[trigger] order[j])
}

proof fn lemma_first_is_transitive(keys: Seq<F32>, a: usize, b: usize, c: usize)
    requires
        comparable(keys),
        a < keys.len(),
        b < keys.len(),
        c < keys.len(),
        comes_first(keys, a, b),
        comes_first(keys, b, c),
    ensures
        comes_first(keys, a, c),
{
    reveal(F32::spec_less);
    assert(!keys[a as int].nan() && !keys[b as int].nan() && !keys[c as int].nan());
}

proof fn lemma_placed_ordered(keys: Seq<F32>, order: Seq<usize>, n: nat)
    requires
        comparable(keys),
        n < keys.len() <= usize::MAX,
        forall|i: int| 0 <= i < order.len() ==> (#[trigger] order[i]) < n,
        forall|i: int, j: int|
            0 <= i < j < order.len() ==> #[trigger] order[i] != #[trigger] order[j],
        is_ordered(keys, order),
    ensures
        is_ordered(keys, placed(keys, order, n as usize)),
    decreases order.len(),
{
    let at = n as usize;
    let r = placed(keys, order, at);
    if order.len() == 0 || !keys[at as int].less(keys[order.last() as int]) {
        assert forall|i: int, j: int| 0 <= i < j < r.len() implies comes_first(
            keys,
            #[trigger] r[i],
            #[trigger] r[j],
        ) by {
            if j == r.len() - 1 {
                let last = order[order.len() - 1];
                assert(comes_first(keys, last, at));
                if i < order.len() - 1 {
                    assert(comes_first(keys, order[i], last));
                    lemma_first_is_transitive(keys, order[i], last, at);
                }
            } else {
                assert(r[i] == order[i] && r[j] == order[j]);
            }
        }
    } else {
        let shorter = order.drop_last();
        let last = order.last();
        lemma_placed_ordered(keys, shorter, n);
        lemma_placed_from(keys, shorter, n);
        let q = placed(keys, shorter, at);
        assert forall|i: int, j: int| 0 <= i < j < r.len() implies comes_first(
            keys,
            #[trigger] r[i],
            #[trigger] r[j],
        ) by {
            assert(r[i] == q[i]);
            if j == r.len() - 1 {
                if q[i] != n {
                    assert(shorter.contains(q[i]));
                    let k = choose|k: int| 0 <= k < shorter.len() && shorter[k] == q[i];
                    assert(comes_first(keys, order[k], order[order.len() - 1]));
                }
            } else {
                assert(r[j] == q[j]);
            }
        }
    }
}

/// Where every key has a value, smaller keys come first and equal keys stay
/// in the order in which they stood.
pub proof fn order_is_sorted_and_stable(keys: Seq<F32>, n: nat)
    requires
        comparable(keys),
        n <= keys.len() <= usize::MAX,
    ensures
        is_ordered(keys, order_of(keys, n)),
    decreases n,
{
    if n > 0 {
        let m = (n - 1) as nat;
        order_is_sorted_and_stable(keys, m);
        order_is_an_arrangement(keys, m);
        lemma_placed_ordered(keys, order_of(keys, m), m);
    }
}

/// The positions of `keys` in the order of their keys; equal keys keep their
/// order.
pub fn stable_order(keys: &Vec<F32>) -> (r: Vec<usize>)
    ensures
        r@ == order_of(keys@, keys@.len()),
        is_arrangement(r@, keys@.len()),
        comparable(keys@) ==> is_ordered(keys@, r@),
{
    let mut order: Vec<usize> = Vec::new();
    let mut n: usize = 0;
    while n < keys.len()
        invariant
            n <= keys.len(),
            order@ == order_of(keys@, n as nat),
        decreases keys.len() - n,
    {
        proof {
            order_is_an_arrangement(keys@, n as nat);
        }
        let mut i: usize = order.len();
        let ghost all = order@;
        let ghost target = placed(keys@, all, n);
        proof {
            assert(all.take(i as int) =~= all);
            assert(target =~= target + all.skip(i as int));
        }
        while i > 0 && keys[n].less(keys[order[i - 1]])
            invariant
                i <= order.len(),
                n < keys.len(),
                order@ == all,
                is_arrangement(all, n as nat),
                target == placed(keys@, all.take(i as int), n) + all.skip(i as int),
            decreases i,
        {
            proof {
                let t = all.take(i as int);
                assert(t.drop_last() =~= all.take(i - 1));
                assert(t.last() == all[i - 1]);
                assert(placed(keys@, t, n) + all.skip(i as int) =~= placed(
                    keys@,
                    all.take(i - 1),
                    n,
                ) + all.skip(i - 1));
            }
            i = i - 1;
        }
        proof {
            let t = all.take(i as int);
            assert(i > 0 ==> t.last() == all[i - 1]);
            assert(target =~= all.insert(i as int, n));
        }
        order.insert(i, n);
        n = n + 1;
    }
    proof {
        order_is_an_arrangement(keys@, keys@.len());
        if comparable(keys@) {
            assert(keys.len() <= usize::MAX);
            order_is_sorted_and_stable(keys@, keys@.len());
        }
    }
    order
}

} // verus!
