//! The bookkeeping that the sparse sets share: the slots of their entries in
//! dense order, and a map recording the position of each slot.

use vstd::prelude::*;

verus! {

/// `positions` records the position in `slots` of every slot there, and
/// nothing else: each slot of `slots` is mapped to its own position, and
/// each recorded slot sits at the recorded position.
pub open spec fn indexes(slots: Seq<usize>, positions: Map<usize, int>) -> bool {
    &&& forall|p: int|
        0 <= p < slots.len() ==> positions.dom().contains(#[trigger] slots[p]) && positions[slots[p]]
            == p
    &&& forall|k: usize| #[trigger]
        positions.dom().contains(k) ==> 0 <= positions[k] < slots.len() && slots[positions[k]]
            == k
}

/// The recorded slots are the slots in `slots`, each occurs there once, and
/// so there are as many recorded slots as entries.
pub proof fn lemma_indexes_slots(slots: Seq<usize>, positions: Map<usize, int>)
    requires
        indexes(slots, positions),
    ensures
        slots.no_duplicates(),
        positions.dom() == slots.to_set(),
        positions.dom().finite(),
        positions.dom().len() == slots.len(),
{
    broadcast use vstd::seq_lib::group_seq_properties;

    assert forall|a: int, b: int| 0 <= a < slots.len() && 0 <= b < slots.len() && a != b implies slots[a]
        != slots[b] by {
        assert(positions[slots[a]] == a);
        assert(positions[slots[b]] == b);
    }
    slots.unique_seq_to_set();
    assert forall|k: usize| positions.dom().contains(k) implies slots.to_set().contains(k) by {
        assert(slots[positions[k]] == k);
    }
    assert(positions.dom() =~= slots.to_set());
}

/// Appending a slot that is not recorded yet, and recording it at the end,
/// keeps the bookkeeping.
pub proof fn lemma_indexes_push(slots: Seq<usize>, positions: Map<usize, int>, k: usize)
    requires
        indexes(slots, positions),
        !positions.dom().contains(k),
    ensures
        indexes(slots.push(k), positions.insert(k, slots.len() as int)),
{
    let s = slots.push(k);
    let m = positions.insert(k, slots.len() as int);
    assert forall|p: int| 0 <= p < s.len() implies m.dom().contains(#[trigger] s[p]) && m[s[p]]
        == p by {
        if p < slots.len() {
            assert(s[p] == slots[p]);
        }
    }
}

/// The bookkeeping after the entry of slot `k` is removed and the last entry
/// moves into its place.
pub open spec fn positions_after_swap_remove(
    slots: Seq<usize>,
    positions: Map<usize, int>,
    k: usize,
) -> Map<usize, int> {
    let p = positions[k];
    let last = slots[slots.len() - 1];
    if p == slots.len() - 1 {
        positions.remove(k)
    } else {
        positions.remove(k).insert(last, p)
    }
}

/// Removing the entry of a recorded slot by moving the last entry into its
/// place, and recording the moved entry's new position, keeps the
/// bookkeeping.
pub proof fn lemma_indexes_swap_remove(slots: Seq<usize>, positions: Map<usize, int>, k: usize)
    requires
        indexes(slots, positions),
        positions.dom().contains(k),
    ensures
        indexes(
            slots.update(positions[k], slots[slots.len() - 1]).drop_last(),
            positions_after_swap_remove(slots, positions, k),
        ),
{
    let p = positions[k];
    let n = slots.len();
    let last = slots[n - 1];
    let s = slots.update(p, last).drop_last();
    let m = positions_after_swap_remove(slots, positions, k);
    assert(positions[last] == n - 1);
    assert forall|q: int| 0 <= q < s.len() implies m.dom().contains(#[trigger] s[q]) && m[s[q]]
        == q by {
        if q != p {
            assert(s[q] == slots[q]);
            assert(positions[slots[q]] == q);
        }
    }
    assert forall|j: usize| #[trigger] m.dom().contains(j) implies 0 <= m[j] < s.len() && s[m[j]]
        == j by {
        if j != last || p == n - 1 {
            assert(positions.dom().contains(j));
            assert(slots[positions[j]] == j);
        }
    }
}

} // verus!
