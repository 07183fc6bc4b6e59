use vstd::prelude::*;

verus! {

/// Point `a` is painted before point `b`: it lies deeper, or at the same depth
/// it comes first in the shape.
pub open spec fn paints_before(keys: Seq<u64>, a: usize, b: usize) -> bool {
    keys[a as int] < keys[b as int] || (keys[a as int] == keys[b as int] && a < b)
}

/// `order` lists every point index `0..keys.len()` once, back to front: by
/// ascending depth key, ties kept in shape order.
pub open spec fn is_depth_order(keys: Seq<u64>, order: Seq<usize>) -> bool {
    &&& order.len() == keys.len()
    &&& forall|i: int| 0 <= i < order.len() ==> #[trigger] order[i] < keys.len()
    &&& forall|i: int, j: int|
        0 <= i < j < order.len() ==> paints_before(keys, #[trigger] order[i], #[trigger] order[j])
    &&& forall|v: usize| v < keys.len() ==> #[trigger] order.contains(v)
}

/// The painting order of points whose depths are given by `keys` (larger is
/// nearer): a stable sort of the indices by ascending key.
pub fn depth_order(keys: &Vec<u64>) -> (r: Vec<usize>)
    ensures
        is_depth_order(keys@, r@),
{
    let n = keys.len();
    let mut r: Vec<usize> = Vec::new();
    let mut i: usize = 0;
    while i < n
        invariant
            n == keys@.len(),
            0 <= i <= n,
            r@.len() == i,
            forall|j: int| 0 <= j < r@.len() ==> #[trigger] r@[j] < i,
            forall|a: int, b: int|
                0 <= a < b < r@.len() ==> paints_before(keys@, #[trigger] r@[a], #[trigger] r@[b]),
            forall|v: usize| v < i ==> #[trigger] r@.contains(v),
        decreases n - i,
    {
        let key = keys[i];
        let mut pos: usize = r.len();
        while pos > 0 && keys[r[pos - 1]] > key
            invariant
                n == keys@.len(),
                0 <= pos <= r@.len(),
                i < n,
                key == keys@[i as int],
                forall|j: int| 0 <= j < r@.len() ==> #[trigger] r@[j] < i,
                forall|j: int| pos <= j < r@.len() ==> keys@[#[trigger] r@[j] as int] > key,
            decreases pos,
        {
            pos = pos - 1;
        }
        proof {
            if pos > 0 {
                assert forall|j: int| 0 <= j < pos implies keys@[#[trigger] r@[j] as int] <= key by {
                    if j < pos - 1 {
                        assert(paints_before(keys@, r@[j], r@[pos - 1]));
                    }
                }
            }
            r@.insert_ensures(pos as int, i);
        }
        let ghost before = r@;
        r.insert(pos, i);
        proof {
            assert forall|a: int, b: int| 0 <= a < b < r@.len() implies paints_before(
                keys@,
                #[trigger] r@[a],
                #[trigger] r@[b],
            ) by {
                if b < pos {
                    assert(r@[a] == before[a] && r@[b] == before[b]);
                } else if b == pos {
                    assert(r@[a] == before[a]);
                } else if a < pos {
                    assert(r@[a] == before[a] && r@[b] == before[b - 1]);
                } else if a == pos {
                    assert(r@[b] == before[b - 1]);
                } else {
                    assert(r@[a] == before[a - 1] && r@[b] == before[b - 1]);
                }
            }
            assert forall|j: int| 0 <= j < r@.len() implies #[trigger] r@[j] < i + 1 by {
                if j < pos {
                    assert(r@[j] == before[j]);
                } else if j > pos {
                    assert(r@[j] == before[j - 1]);
                }
            }
            assert forall|v: usize| v < i + 1 implies #[trigger] r@.contains(v) by {
                if v == i {
                    assert(r@[pos as int] == v);
                } else {
                    assert(before.contains(v));
                    let k = choose|k: int| 0 <= k < before.len() && before[k] == v;
                    if k < pos {
                        assert(r@[k] == v);
                    } else {
                        assert(r@[k + 1] == v);
                    }
                }
            }
        }
        i = i + 1;
    }
    r
}

/// The painting order is determined by the depth keys alone: any two orders
/// that meet its description are the same sequence, so painting the same
/// points at the same depths twice paints them in the same order.
pub proof fn lemma_depth_order_unique(keys: Seq<u64>, p: Seq<usize>, q: Seq<usize>)
    requires
        is_depth_order(keys, p),
        is_depth_order(keys, q),
    ensures
        p == q,
{
    assert forall|i: int| 0 <= i < p.len() implies p[i] == q[i] by {
        lemma_orders_agree_at(keys, p, q, i);
    }
    assert(p =~= q);
}

proof fn lemma_orders_agree_at(keys: Seq<u64>, p: Seq<usize>, q: Seq<usize>, i: int)
    requires
        is_depth_order(keys, p),
        is_depth_order(keys, q),
        0 <= i < p.len(),
    ensures
        p[i] == q[i],
    decreases i,
{
    if i > 0 {
        assert forall|k: int| 0 <= k < i implies p[k] == q[k] by {
            lemma_orders_agree_at(keys, p, q, k);
        }
    }
    if p[i] != q[i] {
        assert(q.contains(p[i]));
        let j = choose|j: int| 0 <= j < q.len() && q[j] == p[i];
        assert(p.contains(q[i]));
        let k = choose|k: int| 0 <= k < p.len() && p[k] == q[i];
        if j < i {
            assert(p[j] == q[j]);
            assert(paints_before(keys, p[j], p[i]));
        }
        if k < i {
            assert(p[k] == q[k]);
            assert(paints_before(keys, q[k], q[i]));
        }
        assert(j > i && k > i);
        assert(paints_before(keys, p[i], p[k]));
        assert(paints_before(keys, q[i], q[j]));
    }
}

} // verus!
