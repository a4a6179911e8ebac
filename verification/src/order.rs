//! Ordering positions by key, equal keys in the order of the positions.

use vstd::prelude::*;

verus! {

/// Whether position `a` comes before position `b` when positions are
/// ordered by their keys, smaller keys first, equal keys in the order of
/// the positions.
pub open spec fn key_before(keys: Seq<i128>, a: int, b: int) -> bool {
    keys[a] < keys[b] || (keys[a] == keys[b] && a < b)
}

/// Whether position `j` is listed in `order`.
pub open spec fn occurs_in(order: Seq<usize>, j: int) -> bool {
    exists|a: int| 0 <= a < order.len() && #[trigger] order[a] == j
}

/// Whether `order` lists the first `n` positions of `keys`, each once,
/// sorted by key, equal keys in the order of the positions.
pub open spec fn orders_first(keys: Seq<i128>, order: Seq<usize>, n: int) -> bool {
    &&& order.len() == n
    &&& forall|a: int| 0 <= a < order.len() ==> (#[trigger] order[a]) < n
    &&& forall|a: int, b: int|
        0 <= a < b < order.len() ==> key_before(
            keys,
            (#[trigger] order[a]) as int,
            (#[trigger] order[b]) as int,
        )
    &&& forall|j: int| 0 <= j < n ==> #[trigger] occurs_in(order, j)
}

/// Whether `order` lists the positions of `keys`, each once, sorted by
/// key, equal keys in the order of the positions.
pub open spec fn is_stable_order(keys: Seq<i128>, order: Seq<usize>) -> bool {
    orders_first(keys, order, keys.len() as int)
}

/// The positions of `keys` sorted by key, smaller keys first, equal keys
/// in the order of the positions.
pub fn stable_order(keys: &Vec<i128>) -> (r: Vec<usize>)
    ensures
        is_stable_order(keys@, r@),
{
    let n = keys.len();
    let mut order: Vec<usize> = Vec::new();
    let mut i: usize = 0;
    while i < n
        invariant
            i <= n,
            n == keys@.len(),
            orders_first(keys@, order@, i as int),
        decreases n - i,
    {
        let mut at: usize = order.len();
        while at > 0 && keys[order[at - 1]] > keys[i]
            invariant
                at <= order@.len(),
                order@.len() == i,
                i < n,
                n == keys@.len(),
                forall|a: int| 0 <= a < order@.len() ==> (#[trigger] order@[a]) < i,
                forall|a: int| at <= a < order@.len() ==> keys@[(#[trigger] order@[a]) as int] > keys@[i as int],
            decreases at,
        {
            at -= 1;
        }
        let ghost before = order@;
        order.insert(at, i);
        proof {
            let after = order@;
            assert forall|a: int, b: int| 0 <= a < b < after.len() implies key_before(
                keys@,
                (#[trigger] after[a]) as int,
                (#[trigger] after[b]) as int,
            ) by {
                if b < at {
                    assert(after[a] == before[a] && after[b] == before[b]);
                } else if b == at {
                    assert(after[a] == before[a]);
                    assert(before[at - 1] < i);
                    if a < at - 1 {
                        assert(key_before(keys@, before[a] as int, before[at - 1] as int));
                    }
                } else if a < at {
                    assert(after[a] == before[a] && after[b] == before[b - 1]);
                } else if a == at {
                    assert(after[b] == before[b - 1]);
                } else {
                    assert(after[a] == before[a - 1] && after[b] == before[b - 1]);
                }
            }
            assert forall|j: int| 0 <= j < i + 1 implies #[trigger] occurs_in(after, j) by {
                if j < i {
                    assert(occurs_in(before, j));
                    let a = choose|a: int| 0 <= a < before.len() && #[trigger] before[a] == j;
                    if a < at {
                        assert(after[a] == j);
                    } else {
                        assert(after[a + 1] == j);
                    }
                } else {
                    assert(after[at as int] == j);
                }
            }
            assert forall|a: int| 0 <= a < after.len() implies (#[trigger] after[a]) < i + 1 by {
                if a < at {
                    assert(after[a] == before[a]);
                } else if a > at {
                    assert(after[a] == before[a - 1]);
                }
            }
        }
        i += 1;
    }
    order
}

/// Two stable orders of the same keys agree on their first `n` ranks.
pub proof fn lemma_ranks_agree(keys: Seq<i128>, p: Seq<usize>, q: Seq<usize>, n: int)
    requires
        is_stable_order(keys, p),
        is_stable_order(keys, q),
        0 <= n <= p.len(),
    ensures
        forall|c: int| 0 <= c < n ==> p[c] == q[c],
    decreases n,
{
    if n > 0 {
        lemma_ranks_agree(keys, p, q, n - 1);
        let a = n - 1;
        let x = p[a] as int;
        let y = q[a] as int;
        assert(occurs_in(q, x));
        assert(occurs_in(p, y));
        let bx = choose|b: int| 0 <= b < q.len() && #[trigger] q[b] == x;
        let by = choose|b: int| 0 <= b < p.len() && #[trigger] p[b] == y;
        if bx < a {
            assert(p[bx] == q[bx]);
            assert(key_before(keys, p[bx] as int, p[a] as int));
        }
        if by < a {
            assert(p[by] == q[by]);
            assert(key_before(keys, q[by] as int, q[a] as int));
        }
        if bx > a {
            assert(key_before(keys, q[a] as int, q[bx] as int));
        }
        if by > a {
            assert(key_before(keys, p[a] as int, p[by] as int));
        }
    }
}

/// Only one order is the stable order of given keys.
pub proof fn law_stable_order_is_unique(keys: Seq<i128>, p: Seq<usize>, q: Seq<usize>)
    requires
        is_stable_order(keys, p),
        is_stable_order(keys, q),
    ensures
        p == q,
{
    lemma_ranks_agree(keys, p, q, p.len() as int);
    assert(p =~= q);
}

} // verus!
