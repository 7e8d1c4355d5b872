//! Stable ordering of records by an integer key, as `sort_by_key` orders them.
use vstd::prelude::*;

verus! {

/// Index `a` comes before index `b` in a stable sort by `keys`: a smaller key, or
/// an equal key and an earlier position.
pub open spec fn comes_before(keys: Seq<i64>, a: usize, b: usize) -> bool {
    keys[a as int] < keys[b as int] || (keys[a as int] == keys[b as int] && a < b)
}

/// `order` lists every index of `keys` once, in the order a stable sort by key puts
/// them.
pub open spec fn is_stable_order(keys: Seq<i64>, order: Seq<usize>) -> bool {
    &&& order.len() == keys.len()
    &&& forall|p: int| 0 <= p < order.len() ==> #[trigger] order[p] < keys.len()
    &&& forall|k: int| 0 <= k < keys.len() ==> #[trigger] order.contains(k as usize)
    &&& forall|p: int, q: int|
        0 <= p < q < order.len() ==> comes_before(keys, #[trigger] order[p], #[trigger] order[q])
}

/// The positions of `keys` in the order a stable sort by key gives.
pub fn stable_order(keys: &Vec<i64>) -> (r: Vec<usize>)
    ensures
        is_stable_order(keys@, r@),
{
    let n = keys.len();
    let mut order: Vec<usize> = Vec::new();
    let mut i: usize = 0;
    while i < n
        invariant
            n == keys.len(),
            i <= n,
            order@.len() == i,
            forall|p: int| 0 <= p < order@.len() ==> #[trigger] order@[p] < i,
            forall|k: int| 0 <= k < i ==> #[trigger] order@.contains(k as usize),
            forall|p: int, q: int|
                0 <= p < q < order@.len() ==> comes_before(keys@, #[trigger] order@[p], #[trigger] order@[q]),
        decreases n - i,
    {
        // Find the place after the last index whose key is not above the key of `i`.
        let mut pos: usize = order.len();
        while pos > 0 && keys[order[pos - 1]] > keys[i]
            invariant
                n == keys.len(),
                i < n,
                pos <= order@.len(),
                order@.len() == i,
                forall|p: int| 0 <= p < order@.len() ==> #[trigger] order@[p] < i,
                forall|p: int| pos <= p < order@.len() ==> keys@[#[trigger] order@[p] as int] > keys@[i as int],
            decreases pos,
        {
            pos -= 1;
        }
        let ghost old_order = order@;
        proof {
            if pos > 0 {
                assert(keys@[old_order[pos - 1] as int] <= keys@[i as int]);
            }
        }
        order.insert(pos, i);
        assert forall|p: int, q: int| 0 <= p < q < order@.len() implies comes_before(
            keys@,
            #[trigger] order@[p],
            #[trigger] order@[q],
        ) by {
            if q < pos {
                assert(order@[p] == old_order[p] && order@[q] == old_order[q]);
            } else if q == pos {
                assert(order@[p] == old_order[p]);
                assert(order@[q] == i);
                if p < pos - 1 {
                    assert(comes_before(keys@, old_order[p], old_order[pos - 1]));
                }
            } else if p < pos {
                assert(order@[p] == old_order[p] && order@[q] == old_order[q - 1]);
            } else if p == pos {
                assert(order@[q] == old_order[q - 1]);
                assert(keys@[old_order[q - 1] as int] > keys@[i as int]);
            } else {
                assert(order@[p] == old_order[p - 1] && order@[q] == old_order[q - 1]);
            }
        }
        assert forall|k: int| 0 <= k < i + 1 implies #[trigger] order@.contains(k as usize) by {
            if k < i {
                assert(old_order.contains(k as usize));
                let p = choose|p: int| 0 <= p < old_order.len() && old_order[p] == k as usize;
                if p < pos {
                    assert(order@[p] == k as usize);
                } else {
                    assert(order@[p + 1] == k as usize);
                }
            } else {
                assert(order@[pos as int] == i);
            }
        }
        i += 1;
    }
    order
}

} // verus!
