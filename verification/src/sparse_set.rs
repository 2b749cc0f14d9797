//! A set of values that blends dense and sparse storage.

use vstd::prelude::*;

use crate::component::{ComponentId, ComponentInfo, ComponentTicks};
use crate::component_sparse_set::ComponentSparseSet;
use crate::entity::Entity;
use crate::dense_index::{
    indexes, lemma_indexes_push, lemma_indexes_slots, lemma_indexes_swap_remove,
    positions_after_swap_remove,
};
use crate::index::SparseSetIndex;
use crate::sparse_array::SparseArray;

verus! {

/// A data structure that blends dense and sparse storage.
///
/// `I` is the type of the indices, while `V` is the type of data stored in
/// the dense storage. Values sit packed in `dense`, in the order in which
/// they were inserted save for removals, which move the last value into the
/// hole; `sparse` records where the value of each index sits.
#[derive(Debug)]
pub struct SparseSet<I, V> {
    dense: Vec<V>,
    indices: Vec<I>,
    sparse: SparseArray<I, usize>,
    reserved: usize,
}

/// Calls `Vec::capacity`: how many elements `v` can hold without
/// reallocating. Claimed is that this is at least the length, and that the
/// room it stands for takes at most `isize::MAX` bytes, the most std lets a
/// vector allocate (its growing calls panic beyond that); the exact number
/// depends on the allocator and is left open.
#[verifier::external_body]
fn vec_capacity<T>(v: &Vec<T>) -> (r: usize)
    ensures
        r >= v@.len(),
        r * vstd::layout::size_of::<T>() <= isize::MAX,
{
    v.capacity()
}

impl<I: SparseSetIndex, V> View for SparseSet<I, V> {
    type V = Map<usize, V>;

    /// The value stored under each slot.
    closed spec fn view(&self) -> Map<usize, V> {
        dense_map(self.dense@, self.sparse@)
    }
}

/// The map from each slot that `sparse` records to the value that sits at
/// the recorded place of `dense`.
spec fn dense_map<V>(dense: Seq<V>, sparse: Map<usize, usize>) -> Map<usize, V> {
    Map::new(|k: usize| sparse.dom().contains(k), |k: usize| dense[sparse[k] as int])
}

/// Overwriting the value at the place `sparse` records for `k` overwrites the
/// value under `k` alone.
proof fn lemma_dense_map_update<V>(dense: Seq<V>, sparse: Map<usize, usize>, k: usize, x: V)
    requires
        sparse.dom().contains(k),
        forall|j: usize| #[trigger] sparse.dom().contains(j) ==> sparse[j] < dense.len(),
        forall|j: usize| #[trigger]
            sparse.dom().contains(j) && sparse[j] == sparse[k] ==> j == k,
    ensures
        dense_map(dense.update(sparse[k] as int, x), sparse) == dense_map(dense, sparse).insert(k, x),
{
    assert(dense_map(dense.update(sparse[k] as int, x), sparse) =~= dense_map(dense, sparse).insert(k, x));
}

impl<I: SparseSetIndex, V> SparseSet<I, V> {
    /// The indices, in dense order.
    pub closed spec fn index_seq(&self) -> Seq<I> {
        self.indices@
    }

    /// The values, in dense order.
    pub closed spec fn value_seq(&self) -> Seq<V> {
        self.dense@
    }

    /// Where in dense order the value under slot `k` sits.
    pub closed spec fn position(&self, k: usize) -> int {
        self.sparse@[k] as int
    }

    /// The slots of the indices, in dense order.
    pub open spec fn slot_seq(&self) -> Seq<usize> {
        self.index_seq().map_values(|i: I| i.slot())
    }

    /// The room that was asked for when the set was made.
    pub closed spec fn reserved(&self) -> usize {
        self.reserved
    }

    /// The position that `sparse` records for each slot.
    closed spec fn positions(&self) -> Map<usize, int> {
        self.sparse@.map_values(|p: usize| p as int)
    }

    /// The dense and sparse parts describe each other: there is a value for
    /// each index, and `sparse` records the position of every index's slot
    /// and of nothing else.
    pub closed spec fn wf(&self) -> bool {
        &&& self.dense@.len() == self.indices@.len()
        &&& indexes(self.slot_seq(), self.positions())
    }

    /// What `wf` says, spelled out over the fields.
    proof fn lemma_wf_fields(&self)
        requires
            self.wf(),
        ensures
            forall|p: int|
                0 <= p < self.indices@.len() ==> self.sparse@.dom().contains(
                    #[trigger] self.indices@[p].slot(),
                ) && self.sparse@[self.indices@[p].slot()] == p,
            forall|k: usize| #[trigger]
                self.sparse@.dom().contains(k) ==> self.sparse@[k] < self.indices@.len()
                    && self.indices@[self.sparse@[k] as int].slot() == k,
    {
        assert forall|p: int| 0 <= p < self.indices@.len() implies self.sparse@.dom().contains(
            #[trigger] self.indices@[p].slot(),
        ) && self.sparse@[self.indices@[p].slot()] == p by {
            assert(self.slot_seq()[p] == self.indices@[p].slot());
        }
        assert forall|k: usize| #[trigger] self.sparse@.dom().contains(k) implies self.sparse@[k]
            < self.indices@.len() && self.indices@[self.sparse@[k] as int].slot() == k by {
            assert(self.positions().dom().contains(k));
            assert(self.slot_seq()[self.positions()[k]] == k);
        }
    }

    /// In a well-formed set, the slots present are those of the indices in
    /// dense order, each at its position, and each index sits there alone.
    pub proof fn lemma_position(&self, k: usize)
        requires
            self.wf(),
        ensures
            self.value_seq().len() == self.index_seq().len(),
            self@.dom().contains(k) <==> exists|p: int|
                0 <= p < self.index_seq().len() && #[trigger] self.index_seq()[p].slot() == k,
            self@.dom().contains(k) ==> {
                &&& 0 <= self.position(k) < self.index_seq().len()
                &&& self.index_seq()[self.position(k)].slot() == k
                &&& self@[k] == self.value_seq()[self.position(k)]
                &&& forall|p: int|
                    0 <= p < self.index_seq().len() && #[trigger] self.index_seq()[p].slot() == k
                        ==> p == self.position(k)
            },
    {
        self.lemma_wf_fields();
        if self@.dom().contains(k) {
            assert(self.index_seq()[self.position(k)].slot() == k);
        }
    }

    /// In a well-formed set, the number of indices in dense order is the
    /// number of slots present.
    pub proof fn lemma_len(&self)
        requires
            self.wf(),
        ensures
            self@.dom().finite(),
            self@.dom().len() == self.index_seq().len(),
            self@.dom().len() == self.value_seq().len(),
    {
        lemma_indexes_slots(self.slot_seq(), self.positions());
        assert(self@.dom() =~= self.positions().dom());
    }

    /// What inserting `value` under `index` makes of `before`: the set stays
    /// well formed and maps the slot of `index` to `value`; a value already
    /// there is replaced in place, otherwise the pair is appended in dense
    /// order.
    pub open spec fn inserted(before: Self, after: Self, index: I, value: V) -> bool {
        &&& after.wf()
        &&& after.reserved() == before.reserved()
        &&& after@ == before@.insert(index.slot(), value)
        &&& before@.dom().contains(index.slot()) ==> {
            &&& after.index_seq() == before.index_seq()
            &&& after.value_seq() == before.value_seq().update(
                before.position(index.slot()),
                value,
            )
        }
        &&& !before@.dom().contains(index.slot()) ==> {
            &&& after.index_seq() == before.index_seq().push(index)
            &&& after.value_seq() == before.value_seq().push(value)
        }
    }

    /// What removing `index` from `before` makes of it, handing out `r`: the
    /// set stays well formed and loses the slot of `index`; its value is
    /// handed out and the last entry in dense order moves into its place.
    /// Without such a slot nothing changes and nothing is handed out.
    pub open spec fn removed(before: Self, after: Self, index: I, r: Option<V>) -> bool {
        &&& after.wf()
        &&& after.reserved() == before.reserved()
        &&& after@ == before@.remove(index.slot())
        &&& before@.dom().contains(index.slot()) ==> {
            let p = before.position(index.slot());
            let n = before.index_seq().len();
            &&& r == Some(before@[index.slot()])
            &&& after.index_seq() == before.index_seq().update(p, before.index_seq()[n - 1]).drop_last()
            &&& after.value_seq() == before.value_seq().update(p, before.value_seq()[n - 1]).drop_last()
        }
        &&& !before@.dom().contains(index.slot()) ==> {
            &&& r is None
            &&& after.index_seq() == before.index_seq()
            &&& after.value_seq() == before.value_seq()
        }
    }

    /// Creates an empty set.
    pub fn new() -> (r: Self)
        ensures
            r.wf(),
            r@ == Map::<usize, V>::empty(),
            r.index_seq() == Seq::<I>::empty(),
            r.value_seq() == Seq::<V>::empty(),
            r.reserved() == 0,
    {
        let r = SparseSet {
            dense: Vec::new(),
            indices: Vec::new(),
            sparse: SparseArray::new(),
            reserved: 0,
        };
        assert(r@ =~= Map::<usize, V>::empty());
        r
    }
}

impl<I: SparseSetIndex, V> Default for SparseSet<I, V> {
    fn default() -> (r: Self)
        ensures
            r.wf(),
            r@ == Map::<usize, V>::empty(),
            r.index_seq() == Seq::<I>::empty(),
            r.value_seq() == Seq::<V>::empty(),
            r.reserved() == 0,
    {
        Self::new()
    }
}

impl<I: SparseSetIndex, V> SparseSet<I, V> {
    /// Creates an empty set with room reserved for `capacity` values.
    pub fn with_capacity(capacity: usize) -> (r: Self)
        ensures
            r.wf(),
            r@ == Map::<usize, V>::empty(),
            r.index_seq() == Seq::<I>::empty(),
            r.value_seq() == Seq::<V>::empty(),
            r.reserved() == capacity,
    {
        let r = SparseSet {
            dense: Vec::with_capacity(capacity),
            indices: Vec::with_capacity(capacity),
            sparse: SparseArray::new(),
            reserved: capacity,
        };
        assert(r@ =~= Map::<usize, V>::empty());
        r
    }

    /// How many values the dense storage holds without reallocating: at
    /// least the number stored, and at least the room asked of
    /// `with_capacity`, which later insertions and removals keep; and, unless
    /// it is that room, no more values than fit in `isize::MAX` bytes.
    ///
    /// A vector made with room for `n` elements has capacity at least `n`
    /// and never shrinks by itself, so the larger of the two numbers below is
    /// the vector's capacity; taking it lets the bound be proved here.
    pub fn capacity(&self) -> (r: usize)
        requires
            self.wf(),
        ensures
            r >= self.value_seq().len(),
            r >= self.reserved(),
            r == self.reserved() || r * vstd::layout::size_of::<V>() <= isize::MAX,
    {
        let dense_capacity = vec_capacity(&self.dense);
        if dense_capacity < self.reserved {
            self.reserved
        } else {
            dense_capacity
        }
    }

    /// Stores `value` under `index`. A value already stored under it is
    /// replaced in place; otherwise the pair is appended in dense order.
    pub fn insert(&mut self, index: I, value: V)
        requires
            old(self).wf(),
            index.slot() < usize::MAX,
        ensures
            Self::inserted(*old(self), *final(self), index, value),
    {
        proof {
            self.lemma_wf_fields();
        }
        let slot = index.sparse_set_index();
        match self.sparse.get_slot(slot) {
            Some(found) => {
                let dense_index: usize = *found;
                self.dense.set(dense_index, value);
                assert(final(self)@ =~= old(self)@.insert(slot, value));
            },
            None => {
                let dense_index = self.dense.len();
                self.sparse.insert_slot(slot, dense_index);
                self.indices.push(index);
                self.dense.push(value);
                proof {
                    lemma_indexes_push(old(self).slot_seq(), old(self).positions(), slot);
                    assert(self.slot_seq() =~= old(self).slot_seq().push(slot));
                    assert(self.positions() =~= old(self).positions().insert(
                        slot,
                        dense_index as int,
                    ));
                }
                assert(final(self)@ =~= old(self)@.insert(slot, value));
            },
        }
    }

    /// The number of values stored.
    pub fn len(&self) -> (r: usize)
        requires
            self.wf(),
        ensures
            r == self.value_seq().len(),
            r == self.index_seq().len(),
            r == self@.dom().len(),
    {
        proof {
            self.lemma_len();
        }
        self.dense.len()
    }

    /// Whether no value is stored.
    pub fn is_empty(&self) -> (r: bool)
        requires
            self.wf(),
        ensures
            r == (self.value_seq().len() == 0),
    {
        self.dense.len() == 0
    }

    /// Whether a value is stored under `index`.
    pub fn contains(&self, index: I) -> (r: bool)
        requires
            self.wf(),
        ensures
            r == self@.dom().contains(index.slot()),
    {
        self.sparse.contains(index)
    }

    /// The value stored under `index`, if any.
    pub fn get(&self, index: I) -> (r: Option<&V>)
        requires
            self.wf(),
        ensures
            r == (if self@.dom().contains(index.slot()) {
                Some(&self@[index.slot()])
            } else {
                None
            }),
    {
        proof {
            self.lemma_wf_fields();
        }
        match self.sparse.get(index) {
            Some(dense_index) => Some(&self.dense[*dense_index]),
            None => None,
        }
    }

    /// A mutable borrow of the value stored under `index`, if any; writing
    /// through it changes nothing else.
    pub fn get_mut(&mut self, index: I) -> (r: Option<&mut V>)
        requires
            old(self).wf(),
        ensures
            final(self).reserved() == old(self).reserved(),
            final(self).wf(),
            final(self).index_seq() == old(self).index_seq(),
            old(self)@.dom().contains(index.slot()) ==> {
                &&& r is Some
                &&& *r.unwrap() == old(self)@[index.slot()]
                &&& final(self)@ == old(self)@.insert(index.slot(), *final(r.unwrap()))
                &&& final(self).value_seq() == old(self).value_seq().update(
                    old(self).position(index.slot()),
                    *final(r.unwrap()),
                )
            },
            !old(self)@.dom().contains(index.slot()) ==> r is None && *final(self) == *old(self),
    {
        proof {
            self.lemma_wf_fields();
        }
        match self.sparse.get(index) {
            Some(found) => {
                let dense_index: usize = *found;
                proof {
                    assert forall|x: V|
                        dense_map(self.dense@.update(dense_index as int, x), self.sparse@)
                            == #[trigger] self@.insert(index.slot(), x) by {
                        lemma_dense_map_update(self.dense@, self.sparse@, index.slot(), x);
                    }
                }
                let r = &mut self.dense[dense_index];
                Some(r)
            },
            None => None,
        }
    }

    /// The value stored under `index`; when there is none, `func` is called
    /// once and its result is appended under `index` first.
    pub fn get_or_insert_with<F: FnOnce() -> V>(&mut self, index: I, func: F) -> (r: &mut V)
        requires
            old(self).wf(),
            index.slot() < usize::MAX,
            !old(self)@.dom().contains(index.slot()) ==> call_requires(func, ()),
        ensures
            final(self).reserved() == old(self).reserved(),
            final(self).wf(),
            final(self)@ == old(self)@.insert(index.slot(), *final(r)),
            old(self)@.dom().contains(index.slot()) ==> {
                &&& *r == old(self)@[index.slot()]
                &&& final(self).index_seq() == old(self).index_seq()
                &&& final(self).value_seq() == old(self).value_seq().update(
                    old(self).position(index.slot()),
                    *final(r),
                )
            },
            !old(self)@.dom().contains(index.slot()) ==> {
                &&& call_ensures(func, (), *r)
                &&& final(self).index_seq() == old(self).index_seq().push(index)
                &&& final(self).value_seq() == old(self).value_seq().push(*final(r))
            },
    {
        proof {
            self.lemma_wf_fields();
        }
        let slot = index.sparse_set_index();
        match self.sparse.get_slot(slot) {
            Some(found) => {
                let dense_index: usize = *found;
                proof {
                    assert forall|x: V|
                        dense_map(self.dense@.update(dense_index as int, x), self.sparse@)
                            == #[trigger] self@.insert(slot, x) by {
                        lemma_dense_map_update(self.dense@, self.sparse@, slot, x);
                    }
                }
                let r = &mut self.dense[dense_index];
                r
            },
            None => {
                let value = func();
                let dense_index = self.dense.len();
                self.sparse.insert_slot(slot, dense_index);
                self.indices.push(index);
                self.dense.push(value);
                proof {
                    lemma_indexes_push(old(self).slot_seq(), old(self).positions(), slot);
                    assert(self.slot_seq() =~= old(self).slot_seq().push(slot));
                    assert(self.positions() =~= old(self).positions().insert(
                        slot,
                        dense_index as int,
                    ));
                }
                proof {
                    assert forall|x: V|
                        dense_map(self.dense@.update(dense_index as int, x), self.sparse@)
                            == #[trigger] self@.insert(slot, x) by {
                        lemma_dense_map_update(self.dense@, self.sparse@, slot, x);
                    }
                }
                let r = &mut self.dense[dense_index];
                r
            },
        }
    }

    /// Takes the value stored under `index` out of the set. The last value
    /// in dense order moves into the place it leaves.
    pub fn remove(&mut self, index: I) -> (r: Option<V>)
        requires
            old(self).wf(),
        ensures
            Self::removed(*old(self), *final(self), index, r),
    {
        let slot = index.sparse_set_index();
        match self.sparse.remove_slot(slot) {
            None => {
                assert(final(self)@ =~= old(self)@.remove(slot));
                assert(self.positions() =~= old(self).positions());
                None
            },
            Some(dense_index) => {
                proof {
                    old(self).lemma_wf_fields();
                }
                let last = self.dense.len() - 1;
                let is_last = dense_index == last;
                let value = self.dense.swap_remove(dense_index);
                self.indices.swap_remove(dense_index);
                if !is_last {
                    let swapped_slot = self.indices[dense_index].sparse_set_index();
                    match self.sparse.get_slot_mut(swapped_slot) {
                        Some(position) => {
                            *position = dense_index;
                        },
                        None => {},
                    }
                }
                proof {
                    let slots = old(self).slot_seq();
                    let positions = old(self).positions();
                    lemma_indexes_swap_remove(slots, positions, slot);
                    assert(self.slot_seq() =~= slots.update(
                        dense_index as int,
                        slots[last as int],
                    ).drop_last());
                    assert(self.positions() =~= positions_after_swap_remove(
                        slots,
                        positions,
                        slot,
                    ));
                    self.lemma_wf_fields();
                }
                assert(final(self)@ =~= old(self)@.remove(slot));
                assert(self.indices@ =~= old(self).indices@.update(
                    dense_index as int,
                    old(self).indices@[last as int],
                ).drop_last());
                assert(self.dense@ =~= old(self).dense@.update(
                    dense_index as int,
                    old(self).dense@[last as int],
                ).drop_last());
                Some(value)
            },
        }
    }

    /// The indices, in dense order.
    pub fn indices(&self) -> (r: std::slice::Iter<'_, I>)
        requires
            self.wf(),
        ensures
            vstd::std_specs::iter::IteratorSpec::remaining(&r) == self.index_seq().as_ref(),
    {
        self.indices.as_slice().iter()
    }

    /// The values, in dense order.
    pub fn values(&self) -> (r: std::slice::Iter<'_, V>)
        requires
            self.wf(),
        ensures
            vstd::std_specs::iter::IteratorSpec::remaining(&r) == self.value_seq().as_ref(),
    {
        self.dense.as_slice().iter()
    }

    /// The values, in dense order, to be changed in place. What is written
    /// into the slice is what the set then holds; as a slice keeps its length,
    /// the set stays well formed.
    pub fn values_mut(&mut self) -> (r: &mut [V])
        requires
            old(self).wf(),
        ensures
            final(self).reserved() == old(self).reserved(),
            r@ == old(self).value_seq(),
            final(self).value_seq() == final(r)@,
            final(self).index_seq() == old(self).index_seq(),
            final(r)@.len() == r@.len() ==> final(self).wf(),
    {
        self.dense.as_mut_slice()
    }

    /// The indices, and the values to be changed in place, both in dense
    /// order, so that the value at each place belongs to the index at it.
    pub fn iter_mut(&mut self) -> (r: (&[I], &mut [V]))
        requires
            old(self).wf(),
        ensures
            final(self).reserved() == old(self).reserved(),
            r.0@ == old(self).index_seq(),
            r.1@ == old(self).value_seq(),
            final(self).value_seq() == final(r.1)@,
            final(self).index_seq() == old(self).index_seq(),
            final(r.1)@.len() == r.1@.len() ==> final(self).wf(),
    {
        (self.indices.as_slice(), self.dense.as_mut_slice())
    }

    /// Each index paired with its value, in dense order.
    pub fn iter(&self) -> (r: Vec<(&I, &V)>)
        requires
            self.wf(),
        ensures
            r@.len() == self.index_seq().len(),
            forall|p: int|
                0 <= p < r@.len() ==> #[trigger] r@[p] == (
                &self.index_seq()[p],
                &self.value_seq()[p],
            ),
    {
        proof {
            self.lemma_wf_fields();
        }
        let mut r: Vec<(&I, &V)> = Vec::new();
        let n = self.dense.len();
        for p in 0..n
            invariant
                n == self.dense@.len(),
                self.wf(),
                r@.len() == p,
                forall|q: int|
                    0 <= q < p ==> #[trigger] r@[q] == (&self.indices@[q], &self.dense@[q]),
        {
            r.push((&self.indices[p], &self.dense[p]));
        }
        r
    }
}

/// Reading back an index just written gives the value written, and every
/// other index reads as before.
pub proof fn law_get_after_insert<I: SparseSetIndex, V>(
    before: SparseSet<I, V>,
    after: SparseSet<I, V>,
    index: I,
    value: V,
)
    requires
        SparseSet::inserted(before, after, index, value),
    ensures
        after@.dom().contains(index.slot()),
        after@[index.slot()] == value,
        forall|k: usize|
            k != index.slot() ==> (#[trigger] after@.dom().contains(k) == before@.dom().contains(
                k,
            )) && (before@.dom().contains(k) ==> after@[k] == before@[k]),
{
}

/// Removing an index hands out the value last inserted under it; when the
/// index was absent before that insertion, the removal restores the set
/// entirely, dense order included.
pub proof fn law_remove_after_insert<I: SparseSetIndex, V>(
    s0: SparseSet<I, V>,
    s1: SparseSet<I, V>,
    s2: SparseSet<I, V>,
    index: I,
    value: V,
    r: Option<V>,
)
    requires
        s0.wf(),
        SparseSet::inserted(s0, s1, index, value),
        SparseSet::removed(s1, s2, index, r),
    ensures
        r == Some(value),
        s2@ == s0@.remove(index.slot()),
        !s0@.dom().contains(index.slot()) ==> {
            &&& s2@ == s0@
            &&& s2.index_seq() == s0.index_seq()
            &&& s2.value_seq() == s0.value_seq()
        },
{
    s1.lemma_position(index.slot());
    if !s0@.dom().contains(index.slot()) {
        s0.lemma_position(index.slot());
        let n = s0.index_seq().len() as int;
        assert(s1.index_seq()[n].slot() == index.slot());
        assert(s1.position(index.slot()) == n);
        assert(s2.index_seq() =~= s0.index_seq());
        assert(s2.value_seq() =~= s0.value_seq());
        assert(s2@ =~= s0@);
    }
}

/// Removing an index a second time hands out nothing and changes nothing.
pub proof fn law_remove_twice<I: SparseSetIndex, V>(
    s1: SparseSet<I, V>,
    s2: SparseSet<I, V>,
    s3: SparseSet<I, V>,
    index: I,
    r1: Option<V>,
    r2: Option<V>,
)
    requires
        SparseSet::removed(s1, s2, index, r1),
        SparseSet::removed(s2, s3, index, r2),
    ensures
        r2 is None,
        s3@ == s2@,
        s3.index_seq() == s2.index_seq(),
        s3.value_seq() == s2.value_seq(),
{
    assert(s3@ =~= s2@);
}

/// The room asked of `with_capacity` stays reserved through any run of
/// insertions and removals, so `capacity` never reports less than it.
pub proof fn law_requested_room_kept<I: SparseSetIndex, V>(
    states: Seq<SparseSet<I, V>>,
    keys: Seq<I>,
    values: Seq<V>,
    handed: Seq<Option<V>>,
    inserts: Seq<bool>,
    room: usize,
)
    requires
        states.len() == keys.len() + 1,
        values.len() == keys.len(),
        handed.len() == keys.len(),
        inserts.len() == keys.len(),
        states[0].reserved() == room,
        forall|i: int|
            0 <= i < keys.len() ==> if #[trigger] inserts[i] {
                SparseSet::inserted(states[i], states[i + 1], keys[i], values[i])
            } else {
                SparseSet::removed(states[i], states[i + 1], keys[i], handed[i])
            },
    ensures
        states.last().reserved() == room,
    decreases keys.len(),
{
    if keys.len() > 0 {
        let n = keys.len() as int;
        assert(inserts[n - 1] ==> SparseSet::inserted(states[n - 1], states[n], keys[n - 1], values[n - 1]));
        assert(!inserts[n - 1] ==> SparseSet::removed(states[n - 1], states[n], keys[n - 1], handed[n - 1]));
        let earlier = states.drop_last();
        assert forall|i: int| 0 <= i < keys.drop_last().len() implies if #[trigger] inserts.drop_last()[i] {
            SparseSet::inserted(earlier[i], earlier[i + 1], keys.drop_last()[i], values.drop_last()[i])
        } else {
            SparseSet::removed(earlier[i], earlier[i + 1], keys.drop_last()[i], handed.drop_last()[i])
        } by {
            assert(inserts[i] == inserts.drop_last()[i]);
        }
        law_requested_room_kept(
            earlier,
            keys.drop_last(),
            values.drop_last(),
            handed.drop_last(),
            inserts.drop_last(),
            room,
        );
    }
}

/// The keys of `keys` whose slot does not occur among the earlier ones, in
/// order.
pub open spec fn first_insertions<I: SparseSetIndex>(keys: Seq<I>) -> Seq<I>
    decreases keys.len(),
{
    if keys.len() == 0 {
        Seq::empty()
    } else {
        let earlier = first_insertions(keys.drop_last());
        if earlier.map_values(|i: I| i.slot()).contains(keys.last().slot()) {
            earlier
        } else {
            earlier.push(keys.last())
        }
    }
}

/// Without removals, the indices of a set that starts empty come in the
/// order in which each was first inserted; inserting an index again does
/// not move it.
pub proof fn law_indices_in_first_insertion_order<I: SparseSetIndex, V>(
    states: Seq<SparseSet<I, V>>,
    keys: Seq<I>,
    values: Seq<V>,
)
    requires
        states.len() == keys.len() + 1,
        values.len() == keys.len(),
        states[0].wf(),
        states[0].index_seq() == Seq::<I>::empty(),
        forall|i: int|
            0 <= i < keys.len() ==> SparseSet::inserted(
                states[i],
                states[i + 1],
                #[trigger] keys[i],
                values[i],
            ),
    ensures
        states.last().wf(),
        states.last().index_seq() == first_insertions(keys),
    decreases keys.len(),
{
    if keys.len() > 0 {
        let n = keys.len() as int;
        let earlier = states.drop_last();
        assert forall|i: int| 0 <= i < keys.drop_last().len() implies SparseSet::inserted(
            earlier[i],
            earlier[i + 1],
            #[trigger] keys.drop_last()[i],
            values.drop_last()[i],
        ) by {
            assert(SparseSet::inserted(states[i], states[i + 1], keys[i], values[i]));
        }
        law_indices_in_first_insertion_order(earlier, keys.drop_last(), values.drop_last());
        let before = states[n - 1];
        let key = keys[n - 1];
        assert(SparseSet::inserted(before, states[n], keys[n - 1], values[n - 1]));
        assert(keys.last() == key);
        let firsts = first_insertions(keys.drop_last());
        before.lemma_position(key.slot());
        let slots = firsts.map_values(|i: I| i.slot());
        if before@.dom().contains(key.slot()) {
            let p = before.position(key.slot());
            assert(slots[p] == key.slot());
        } else {
            assert(!slots.contains(key.slot())) by {
                if slots.contains(key.slot()) {
                    let p = choose|p: int| 0 <= p < slots.len() && slots[p] == key.slot();
                    assert(before.index_seq()[p].slot() == key.slot());
                }
            }
        }
    }
}

/// A collection of [`ComponentSparseSet`] storages, indexed by [`ComponentId`].
pub struct SparseSets {
    sets: SparseSet<ComponentId, ComponentSparseSet>,
}

impl View for SparseSets {
    type V = Map<usize, ComponentSparseSet>;

    /// The storage of each component type, keyed by the type's id.
    closed spec fn view(&self) -> Map<usize, ComponentSparseSet> {
        self.sets@
    }
}

impl SparseSets {
    /// The component ids, in the order their storages sit.
    pub closed spec fn id_seq(&self) -> Seq<ComponentId> {
        self.sets.index_seq()
    }

    /// The storages, in the order of their component ids.
    pub closed spec fn storage_seq(&self) -> Seq<ComponentSparseSet> {
        self.sets.value_seq()
    }

    /// In a well-formed collection, the storage at each place belongs to the
    /// component id at that place.
    pub proof fn lemma_storage_at(&self, p: int)
        requires
            self.wf(),
            0 <= p < self.id_seq().len(),
        ensures
            self.storage_seq().len() == self.id_seq().len(),
            self@.dom().contains(self.id_seq()[p].index()),
            self@[self.id_seq()[p].index()] == self.storage_seq()[p],
    {
        self.sets.lemma_wf_fields();
        let k = self.sets.indices@[p].slot();
        assert(self.sets.sparse@.dom().contains(k));
        assert(self.sets@[k] == self.sets.dense@[p]);
    }

    /// The collection is well formed, and so is every storage in it.
    pub closed spec fn wf(&self) -> bool {
        &&& self.sets.wf()
        &&& forall|p: int|
            0 <= p < self.sets.dense@.len() ==> (#[trigger] self.sets.dense@[p]).wf()
    }

    /// Every storage of a well-formed collection is well formed.
    pub proof fn lemma_storages_wf(&self, k: usize)
        requires
            self.wf(),
            self@.dom().contains(k),
        ensures
            self@[k].wf(),
    {
        self.sets.lemma_position(k);
    }

    /// The storage of the component type `component_info` describes, created
    /// empty, with room for 64 values, when there is none yet.
    pub fn get_or_insert(&mut self, component_info: &ComponentInfo) -> (r:
        &mut ComponentSparseSet)
        requires
            old(self).wf(),
            component_info.id().index() < usize::MAX,
        ensures
            final(self)@ == old(self)@.insert(component_info.id().index(), *final(r)),
            old(self)@.dom().contains(component_info.id().index()) ==> final(self).id_seq()
                == old(self).id_seq(),
            !old(self)@.dom().contains(component_info.id().index()) ==> final(self).id_seq()
                == old(self).id_seq().push(component_info.id()),
            final(r).wf() ==> final(self).wf(),
            r.wf(),
            old(self)@.dom().contains(component_info.id().index()) ==> *r == old(self)@[
                component_info.id().index()
            ],
            !old(self)@.dom().contains(component_info.id().index()) ==> {
                &&& r@ == Map::<u32, (Seq<u8>, ComponentTicks)>::empty()
                &&& r.entity_seq() == Seq::<Entity>::empty()
                &&& r.item_size() == component_info.item_size()
            },
    {
        let id = component_info.id();
        if !self.sets.contains(id) {
            self.sets.insert(id, ComponentSparseSet::new(component_info, 64));
        }
        proof {
            self.sets.lemma_position(id.index());
        }
        let r = self.sets.get_mut(id).unwrap();
        r
    }

    /// The storage of the component type `component_id`, if any.
    pub fn get(&self, component_id: ComponentId) -> (r: Option<&ComponentSparseSet>)
        requires
            self.wf(),
        ensures
            r == (if self@.dom().contains(component_id.index()) {
                Some(&self@[component_id.index()])
            } else {
                None
            }),
    {
        self.sets.get(component_id)
    }

    /// A mutable borrow of the storage of the component type `component_id`,
    /// if any.
    pub fn get_mut(&mut self, component_id: ComponentId) -> (r: Option<&mut ComponentSparseSet>)
        requires
            old(self).wf(),
        ensures
            old(self)@.dom().contains(component_id.index()) ==> {
                &&& r is Some
                &&& *r.unwrap() == old(self)@[component_id.index()]
                &&& final(self)@ == old(self)@.insert(
                    component_id.index(),
                    *final(r.unwrap()),
                )
                &&& final(r.unwrap()).wf() ==> final(self).wf()
            },
            !old(self)@.dom().contains(component_id.index()) ==> r is None && *final(self)
                == *old(self),
    {
        proof {
            self.sets.lemma_wf_fields();
        }
        self.sets.get_mut(component_id)
    }

    /// Removes every value from every storage; the storages stay.
    pub fn clear(&mut self) -> (r: Vec<(ComponentId, Vec<Vec<u8>>)>)
        requires
            old(self).wf(),
        ensures
            final(self).wf(),
            final(self)@.dom() == old(self)@.dom(),
            final(self).id_seq() == old(self).id_seq(),
            forall|k: usize| #[trigger]
                final(self)@.dom().contains(k) ==> ComponentSparseSet::cleared(old(self)@[k], final(self)@[k]),
            r@.len() == old(self).storage_seq().len(),
            forall|p: int|
                0 <= p < r@.len() ==> (#[trigger] r@[p]).0 == old(self).id_seq()[p] && r@[p].1@.map_values(
                    |v: Vec<u8>| v@,
                ) == old(self).storage_seq()[p].value_seq(),
    {
        let n = self.sets.dense.len();
        let mut removed: Vec<(ComponentId, Vec<Vec<u8>>)> = Vec::new();
        for i in 0..n
            invariant
                n == self.sets.dense@.len(),
                n == old(self).sets.dense@.len(),
                self.sets.indices == old(self).sets.indices,
                self.sets.sparse == old(self).sets.sparse,
                self.sets.reserved == old(self).sets.reserved,
                old(self).wf(),
                removed@.len() == i,
                forall|p: int|
                    0 <= p < i ==> (#[trigger] removed@[p]).0 == old(self).sets.indices@[p]
                        && removed@[p].1@.map_values(|v: Vec<u8>| v@) == old(
                        self,
                    ).sets.dense@[p].value_seq(),
                forall|p: int|
                    0 <= p < n ==> if p < i {
                        ComponentSparseSet::cleared(old(self).sets.dense@[p], #[trigger] self.sets.dense@[p])
                    } else {
                        self.sets.dense@[p] == old(self).sets.dense@[p]
                    },
        {
            let id = self.sets.indices[i];
            let set = &mut self.sets.dense[i];
            let values = set.clear();
            removed.push((id, values));
        }
        proof {
            old(self).sets.lemma_wf_fields();
        }
        assert(final(self)@.dom() =~= old(self)@.dom());
        removed
    }

    /// Checks the ticks of every value of every storage against `change_tick`.
    pub fn check_change_ticks(&mut self, change_tick: u32)
        requires
            old(self).wf(),
        ensures
            final(self).wf(),
            final(self)@.dom() == old(self)@.dom(),
            final(self).id_seq() == old(self).id_seq(),
            forall|k: usize| #[trigger]
                final(self)@.dom().contains(k) ==> ComponentSparseSet::ticks_checked(
                    old(self)@[k],
                    final(self)@[k],
                    change_tick,
                ),
    {
        let n = self.sets.dense.len();
        for i in 0..n
            invariant
                n == self.sets.dense@.len(),
                n == old(self).sets.dense@.len(),
                self.sets.indices == old(self).sets.indices,
                self.sets.sparse == old(self).sets.sparse,
                old(self).wf(),
                forall|p: int|
                    0 <= p < n ==> if p < i {
                        ComponentSparseSet::ticks_checked(
                            old(self).sets.dense@[p],
                            #[trigger] self.sets.dense@[p],
                            change_tick,
                        )
                    } else {
                        self.sets.dense@[p] == old(self).sets.dense@[p]
                    },
        {
            let set = &mut self.sets.dense[i];
            set.check_change_ticks(change_tick);
        }
        proof {
            old(self).sets.lemma_wf_fields();
        }
        assert(final(self)@.dom() =~= old(self)@.dom());
    }
}

impl Default for SparseSets {
    fn default() -> (r: Self)
        ensures
            r.wf(),
            r@ == Map::<usize, ComponentSparseSet>::empty(),
    {
        SparseSets { sets: SparseSet::new() }
    }
}

/// The component ids that a history of calls on a collection asks storage
/// for: `Some(id)` stands for a call of `get_or_insert` for `id`, `None` for
/// any other call.
pub open spec fn requested_ids(calls: Seq<Option<ComponentId>>) -> Set<usize>
    decreases calls.len(),
{
    if calls.len() == 0 {
        Set::empty()
    } else {
        match calls.last() {
            Some(id) => requested_ids(calls.drop_last()).insert(id.index()),
            None => requested_ids(calls.drop_last()),
        }
    }
}

/// Over any history of a collection that starts empty, storage is present
/// exactly for the component ids that some call of `get_or_insert` asked
/// for; the other calls neither add nor remove storage.
pub proof fn law_storages_are_those_requested(
    states: Seq<SparseSets>,
    calls: Seq<Option<ComponentId>>,
)
    requires
        states.len() == calls.len() + 1,
        states[0]@ == Map::<usize, ComponentSparseSet>::empty(),
        forall|i: int|
            0 <= i < calls.len() ==> states[i + 1]@.dom() == match #[trigger] calls[i] {
                Some(id) => states[i]@.dom().insert(id.index()),
                None => states[i]@.dom(),
            },
    ensures
        states.last()@.dom() == requested_ids(calls),
    decreases calls.len(),
{
    if calls.len() == 0 {
        assert(states[0]@.dom() =~= Set::<usize>::empty());
    } else {
        let n = calls.len() as int;
        let earlier = states.drop_last();
        let prefix = calls.drop_last();
        assert forall|i: int| 0 <= i < prefix.len() implies earlier[i + 1]@.dom() == match #[trigger] prefix[i] {
            Some(id) => earlier[i]@.dom().insert(id.index()),
            None => earlier[i]@.dom(),
        } by {
            assert(prefix[i] == calls[i]);
        }
        law_storages_are_those_requested(earlier, prefix);
        assert(calls[n - 1] == calls.last());
    }
}

/// Asking again for a storage that is present hands out that storage; when
/// nothing is written through the borrow, the collection stays as it was.
pub proof fn law_get_or_insert_again(
    before: SparseSets,
    after: SparseSets,
    id: ComponentId,
    handed: ComponentSparseSet,
    left: ComponentSparseSet,
)
    requires
        before@.dom().contains(id.index()),
        handed == before@[id.index()],
        after@ == before@.insert(id.index(), left),
        left == handed,
    ensures
        after@ == before@,
{
    assert(after@ =~= before@);
}

} // verus!
