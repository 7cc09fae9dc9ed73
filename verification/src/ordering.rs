//! Stable ordering by a key.

use vstd::prelude::*;

verus! {

/// Whether position `a` comes before position `b`: by key, then as they were.
pub open spec fn before(keys: Seq<i128>, a: usize, b: usize) -> bool {
    keys[a as int] < keys[b as int] || (keys[a as int] == keys[b as int] && a < b)
}

/// `order` lists each position of `keys` once, by key and, among equal keys,
/// as they were.
pub open spec fn stable_order(keys: Seq<i128>, order: Seq<usize>) -> bool {
    &&& order.len() == keys.len()
    &&& forall|i: int| 0 <= i < order.len() ==> (#[trigger] order[i]) < keys.len()
    &&& forall|k: usize| k < keys.len() ==> #[trigger] order.contains(k)
    &&& forall|i: int, j: int|
        0 <= i < j < order.len() ==> #[trigger] before(keys, order[i], order[j])
}

/// The positions of `keys` in the order of their keys.
pub fn order_by_key(keys: &[i128]) -> (order: Vec<usize>)
    ensures
        stable_order(keys@, order@),
{
    let mut order: Vec<usize> = Vec::new();
    let mut n: usize = 0;
    while n < keys.len()
        invariant
            n <= keys.len(),
            order@.len() == n,
            forall|i: int| 0 <= i < n ==> (#[trigger] order@[i]) < n,
            forall|k: usize| k < n ==> #[trigger] order@.contains(k),
            forall|i: int, j: int|
                0 <= i < j < n ==> #[trigger] before(keys@, order@[i], order@[j]),
        decreases keys.len() - n,
    {
        // the place behind everything that is not larger
        let mut at: usize = n;
        while at > 0 && keys[order[at - 1]] > keys[n]
            invariant
                at <= n < keys.len(),
                order@.len() == n,
                forall|i: int| 0 <= i < n ==> (#[trigger] order@[i]) < n,
                forall|i: int|
                    at <= i < n ==> keys@[#[trigger] order@[i] as int] > keys@[n as int],
            decreases at,
        {
            at = at - 1;
        }
        let ghost old_order = order@;
        order.insert(at, n);
        proof {
            assert(order@ == old_order.insert(at as int, n));
            assert forall|i: int| 0 <= i < at implies before(
                keys@,
                #[trigger] old_order[i],
                n,
            ) by {
                if i < at - 1 {
                    assert(before(keys@, old_order[i], old_order[at - 1]));
                }
            }
            assert forall|i: int, j: int| 0 <= i < j < n + 1 implies #[trigger] before(
                keys@,
                order@[i],
                order@[j],
            ) by {
                if i < at && j > at {
                    assert(before(keys@, old_order[i], old_order[j - 1]));
                } else if j < at {
                    assert(before(keys@, old_order[i], old_order[j]));
                } else if i > at {
                    assert(before(keys@, old_order[i - 1], old_order[j - 1]));
                }
            }
            assert forall|k: usize| k < n + 1 implies #[trigger] order@.contains(k) by {
                if k == n {
                    assert(order@[at as int] == n);
                } else {
                    assert(old_order.contains(k));
                    let i = choose|i: int| 0 <= i < old_order.len() && old_order[i] == k;
                    if i < at {
                        assert(order@[i] == k);
                    } else {
                        assert(order@[i + 1] == k);
                    }
                }
            }
        }
        n = n + 1;
    }
    order
}

/// What is ordered ascends by key, and equal keys stay as they were.
pub proof fn order_ascends_and_is_stable(keys: Seq<i128>, order: Seq<usize>, i: int, j: int)
    requires
        stable_order(keys, order),
        0 <= i < j < order.len(),
    ensures
        keys[order[i] as int] <= keys[order[j] as int],
        keys[order[i] as int] == keys[order[j] as int] ==> order[i] < order[j],
        order.len() == keys.len(),
        order[i] != order[j],
{
    assert(before(keys, order[i], order[j]));
}

} // verus!
