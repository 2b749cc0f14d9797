//! A vector of optional values addressed by [`SparseSetIndex`] keys.

use std::marker::PhantomData;
use vstd::prelude::*;

use crate::index::SparseSetIndex;

verus! {

/// Optional values stored at the slot each key addresses; slots that were
/// never written, or were emptied, hold nothing.
#[derive(Debug)]
pub struct SparseArray<I, V = I> {
    values: Vec<Option<V>>,
    marker: PhantomData<I>,
}

/// The map that a sequence of optional slots describes: slot `k` is a key
/// exactly when it lies inside the sequence and holds a value.
pub open spec fn slots_to_map<V>(slots: Seq<Option<V>>) -> Map<usize, V> {
    Map::new(
        |k: usize| (k as int) < slots.len() && slots[k as int] is Some,
        |k: usize| slots[k as int]->0,
    )
}

impl<I, V> View for SparseArray<I, V> {
    type V = Map<usize, V>;

    closed spec fn view(&self) -> Map<usize, V> {
        slots_to_map(self.values@)
    }
}

impl<I, V> SparseArray<I, V> {
    /// Creates an empty sparse array.
    pub fn new() -> (r: Self)
        ensures
            r@ == Map::<usize, V>::empty(),
    {
        let r = SparseArray { values: Vec::new(), marker: PhantomData };
        assert(r@ =~= Map::<usize, V>::empty());
        r
    }

    /// Stores `value` at `slot`, growing the slots with empty ones as needed.
    pub(crate) fn insert_slot(&mut self, slot: usize, value: V)
        requires
            slot < usize::MAX,
        ensures
            final(self)@ == old(self)@.insert(slot, value),
    {
        if slot >= self.values.len() {
            let target: usize = slot + 1;
            while self.values.len() < target
                invariant
                    target == slot + 1,
                    slot < usize::MAX,
                    old(self).values@.len() <= self.values@.len() <= target,
                    forall|j: int|
                        0 <= j < self.values@.len() ==> #[trigger] self.values@[j] == (if j
                            < old(self).values@.len() {
                            old(self).values@[j]
                        } else {
                            None
                        }),
                decreases target - self.values@.len(),
            {
                self.values.push(None);
            }
            assert(self@ =~= old(self)@);
        }
        self.values.set(slot, Some(value));
        assert(final(self)@ =~= old(self)@.insert(slot, value));
    }

    /// Whether `slot` holds a value.
    pub(crate) fn contains_slot(&self, slot: usize) -> (r: bool)
        ensures
            r == self@.dom().contains(slot),
    {
        if slot < self.values.len() {
            self.values[slot].is_some()
        } else {
            false
        }
    }

    /// The value at `slot`, if any.
    pub(crate) fn get_slot(&self, slot: usize) -> (r: Option<&V>)
        ensures
            r == (if self@.dom().contains(slot) {
                Some(&self@[slot])
            } else {
                None
            }),
    {
        if slot < self.values.len() {
            self.values[slot].as_ref()
        } else {
            None
        }
    }

    /// A mutable borrow of the value at `slot`, if any.
    pub(crate) fn get_slot_mut(&mut self, slot: usize) -> (r: Option<&mut V>)
        ensures
            old(self)@.dom().contains(slot) ==> r is Some && *r.unwrap() == old(self)@[slot]
                && final(self)@ == old(self)@.insert(slot, *final(r.unwrap())),
            !old(self)@.dom().contains(slot) ==> r is None && final(self)@ == old(self)@,
    {
        if slot < self.values.len() && self.values[slot].is_some() {
            let ghost before = self.values@;
            let cell: &mut Option<V> = &mut self.values[slot];
            let r = cell.as_mut();
            assert(slots_to_map(before.update(slot as int, Some(*final(r.unwrap()))))
                =~= slots_to_map(before).insert(slot, *final(r.unwrap())));
            r
        } else {
            None
        }
    }

    /// Takes the value out of `slot`, leaving it empty.
    pub(crate) fn remove_slot(&mut self, slot: usize) -> (r: Option<V>)
        ensures
            r == (if old(self)@.dom().contains(slot) {
                Some(old(self)@[slot])
            } else {
                None
            }),
            final(self)@ == old(self)@.remove(slot),
    {
        if slot < self.values.len() {
            let ghost before = self.values@;
            let cell: &mut Option<V> = &mut self.values[slot];
            let r = cell.take();
            assert(slots_to_map(before.update(slot as int, None)) =~= slots_to_map(
                before,
            ).remove(slot));
            r
        } else {
            assert(old(self)@ =~= old(self)@.remove(slot));
            None
        }
    }
}

impl<I: SparseSetIndex, V> Default for SparseArray<I, V> {
    fn default() -> (r: Self)
        ensures
            r@ == Map::<usize, V>::empty(),
    {
        Self::new()
    }
}

impl<I: SparseSetIndex, V> SparseArray<I, V> {
    /// Creates an empty sparse array with room reserved for `capacity` slots.
    pub fn with_capacity(capacity: usize) -> (r: Self)
        ensures
            r@ == Map::<usize, V>::empty(),
    {
        let r = SparseArray { values: Vec::with_capacity(capacity), marker: PhantomData };
        assert(r@ =~= Map::<usize, V>::empty());
        r
    }

    /// Stores `value` under `index`, replacing what was there.
    pub fn insert(&mut self, index: I, value: V)
        requires
            index.slot() < usize::MAX,
        ensures
            final(self)@ == old(self)@.insert(index.slot(), value),
    {
        let slot = index.sparse_set_index();
        self.insert_slot(slot, value);
    }

    /// Whether a value is stored under `index`.
    pub fn contains(&self, index: I) -> (r: bool)
        ensures
            r == self@.dom().contains(index.slot()),
    {
        let slot = index.sparse_set_index();
        self.contains_slot(slot)
    }

    /// The value stored under `index`, if any.
    pub fn get(&self, index: I) -> (r: Option<&V>)
        ensures
            r == (if self@.dom().contains(index.slot()) {
                Some(&self@[index.slot()])
            } else {
                None
            }),
    {
        let slot = index.sparse_set_index();
        self.get_slot(slot)
    }

    /// A mutable borrow of the value stored under `index`, if any.
    pub fn get_mut(&mut self, index: I) -> (r: Option<&mut V>)
        ensures
            old(self)@.dom().contains(index.slot()) ==> r is Some && *r.unwrap() == old(
                self,
            )@[index.slot()] && final(self)@ == old(self)@.insert(
                index.slot(),
                *final(r.unwrap()),
            ),
            !old(self)@.dom().contains(index.slot()) ==> r is None && final(self)@ == old(
                self,
            )@,
    {
        let slot = index.sparse_set_index();
        self.get_slot_mut(slot)
    }

    /// Takes the value stored under `index` out of the array.
    pub fn remove(&mut self, index: I) -> (r: Option<V>)
        ensures
            r == (if old(self)@.dom().contains(index.slot()) {
                Some(old(self)@[index.slot()])
            } else {
                None
            }),
            final(self)@ == old(self)@.remove(index.slot()),
    {
        let slot = index.sparse_set_index();
        self.remove_slot(slot)
    }

    /// The value stored under `index`; when there is none, `func` is called
    /// once and its result is stored first.
    pub fn get_or_insert_with<F: FnOnce() -> V>(&mut self, index: I, func: F) -> (r: &mut V)
        requires
            index.slot() < usize::MAX,
            !old(self)@.dom().contains(index.slot()) ==> call_requires(func, ()),
        ensures
            old(self)@.dom().contains(index.slot()) ==> *r == old(self)@[index.slot()],
            !old(self)@.dom().contains(index.slot()) ==> call_ensures(func, (), *r),
            final(self)@ == old(self)@.insert(index.slot(), *final(r)),
    {
        let slot = index.sparse_set_index();
        if !self.contains_slot(slot) {
            let value = func();
            self.insert_slot(slot, value);
        }
        let r = self.get_slot_mut(slot);
        r.unwrap()
    }

    /// Empties every slot.
    pub fn clear(&mut self)
        ensures
            final(self)@ == Map::<usize, V>::empty(),
    {
        self.values.clear();
        assert(final(self)@ =~= Map::<usize, V>::empty());
    }
}

/// Removing a slot hands out the value last stored there; when the slot was
/// empty before that store, the removal restores the array's contents.
pub proof fn law_remove_after_insert<I, V>(
    a0: SparseArray<I, V>,
    a1: SparseArray<I, V>,
    a2: SparseArray<I, V>,
    slot: usize,
    value: V,
    r: Option<V>,
)
    requires
        a1@ == a0@.insert(slot, value),
        r == (if a1@.dom().contains(slot) {
            Some(a1@[slot])
        } else {
            None
        }),
        a2@ == a1@.remove(slot),
    ensures
        r == Some(value),
        a2@ == a0@.remove(slot),
        !a0@.dom().contains(slot) ==> a2@ == a0@,
{
    assert(a2@ =~= a0@.remove(slot));
}

/// One write to a sparse array: a value stored at a slot (by `insert`,
/// `get_or_insert_with`, or through a borrow from `get_mut`), a slot emptied
/// by `remove`, or every slot emptied by `clear`.
pub enum SlotWrite<V> {
    Store(usize, V),
    Take(usize),
    Clear,
}

/// The map that a sparse array holds after `write`, when it held `m` before.
pub open spec fn apply_write<V>(m: Map<usize, V>, write: SlotWrite<V>) -> Map<usize, V> {
    match write {
        SlotWrite::Store(k, v) => m.insert(k, v),
        SlotWrite::Take(k) => m.remove(k),
        SlotWrite::Clear => Map::empty(),
    }
}

/// The value that `writes` leave at `slot`: the one last stored there,
/// unless that slot was taken or everything cleared since.
pub open spec fn last_stored<V>(writes: Seq<SlotWrite<V>>, slot: usize) -> Option<V>
    decreases writes.len(),
{
    if writes.len() == 0 {
        None
    } else {
        match writes.last() {
            SlotWrite::Store(k, v) => if k == slot {
                Some(v)
            } else {
                last_stored(writes.drop_last(), slot)
            },
            SlotWrite::Take(k) => if k == slot {
                None
            } else {
                last_stored(writes.drop_last(), slot)
            },
            SlotWrite::Clear => None,
        }
    }
}

/// What `get` reads at `slot` of an array that holds `m`.
pub open spec fn read_slot<V>(m: Map<usize, V>, slot: usize) -> Option<V> {
    if m.dom().contains(slot) {
        Some(m[slot])
    } else {
        None
    }
}

/// Over any history of an array that starts empty, reading a slot gives the
/// value last stored there and not since taken or cleared, and nothing
/// otherwise.
pub proof fn law_get_returns_last_stored<I, V>(
    states: Seq<SparseArray<I, V>>,
    writes: Seq<SlotWrite<V>>,
    slot: usize,
)
    requires
        states.len() == writes.len() + 1,
        states[0]@ == Map::<usize, V>::empty(),
        forall|i: int|
            0 <= i < writes.len() ==> states[i + 1]@ == apply_write(
                states[i]@,
                #[trigger] writes[i],
            ),
    ensures
        read_slot(states.last()@, slot) == last_stored(writes, slot),
    decreases writes.len(),
{
    if writes.len() > 0 {
        let n = writes.len() as int;
        assert(states[n]@ == apply_write(states[n - 1]@, writes[n - 1]));
        let earlier = states.drop_last();
        assert forall|i: int| 0 <= i < writes.drop_last().len() implies earlier[i + 1]@
            == apply_write(earlier[i]@, #[trigger] writes.drop_last()[i]) by {
            assert(states[i + 1]@ == apply_write(states[i]@, writes[i]));
        }
        law_get_returns_last_stored(earlier, writes.drop_last(), slot);
    }
}

} // verus!
