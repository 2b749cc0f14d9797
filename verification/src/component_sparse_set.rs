//! Type-erased sparse storage of the values of one component type.

use vstd::prelude::*;

use crate::component::{law_check_ticks_clamps, ComponentInfo, ComponentTicks, MAX_CHANGE_AGE};
use crate::dense_index::{
    indexes, lemma_indexes_push, lemma_indexes_slots, lemma_indexes_swap_remove,
    positions_after_swap_remove,
};
use crate::entity::Entity;
use crate::sparse_array::SparseArray;

verus! {

/// A sparse data structure of components: the values of one component type,
/// each held as the bytes of one value, keyed by the id of the entity that
/// owns it.
///
/// Designed for relatively fast insertions and deletions. Values, their
/// ticks and their entities sit packed in three parallel vectors; `sparse`
/// records where each entity's entry sits.
///
/// The storage never drops a value itself: every value that leaves it, by
/// replacement, removal or clearing, is handed to the caller, who drops it
/// with the component type's drop function (or moves it elsewhere).
#[derive(Debug)]
pub struct ComponentSparseSet {
    dense: Vec<Vec<u8>>,
    item_size: usize,
    ticks: Vec<ComponentTicks>,
    entities: Vec<Entity>,
    sparse: SparseArray<u32, u32>,
}

/// The bytes and ticks at the position that `sparse` records for each id.
spec fn storage_map(
    dense: Seq<Vec<u8>>,
    ticks: Seq<ComponentTicks>,
    sparse: Map<usize, u32>,
) -> Map<u32, (Seq<u8>, ComponentTicks)> {
    Map::new(
        |id: u32| sparse.dom().contains(id as usize),
        |id: u32| (dense[sparse[id as usize] as int]@, ticks[sparse[id as usize] as int]),
    )
}

impl View for ComponentSparseSet {
    type V = Map<u32, (Seq<u8>, ComponentTicks)>;

    /// The bytes and ticks of the value that each entity id owns.
    closed spec fn view(&self) -> Map<u32, (Seq<u8>, ComponentTicks)> {
        storage_map(self.dense@, self.ticks@, self.sparse@)
    }
}

impl ComponentSparseSet {
    /// The entities, in dense order.
    pub closed spec fn entity_seq(&self) -> Seq<Entity> {
        self.entities@
    }

    /// The slots of the entities' ids, in dense order.
    pub open spec fn slot_seq(&self) -> Seq<usize> {
        self.entity_seq().map_values(|e: Entity| e.id() as usize)
    }

    /// The component values as bytes, in dense order.
    pub closed spec fn value_seq(&self) -> Seq<Seq<u8>> {
        self.dense@.map_values(|v: Vec<u8>| v@)
    }

    /// The ticks of the component values, in dense order.
    pub closed spec fn tick_seq(&self) -> Seq<ComponentTicks> {
        self.ticks@
    }

    /// The number of bytes each value occupies.
    pub closed spec fn spec_item_size(&self) -> usize {
        self.item_size
    }

    /// The number of bytes each value occupies.
    #[verifier::when_used_as_spec(spec_item_size)]
    pub fn item_size(&self) -> (r: usize)
        ensures
            r == self.spec_item_size(),
    {
        self.item_size
    }

    /// Whether the entity with id `id` owns a value here.
    pub open spec fn has(&self, id: u32) -> bool {
        self@.dom().contains(id)
    }

    /// Where in dense order the entry of entity id `id` sits.
    pub closed spec fn position(&self, id: u32) -> int {
        self.sparse@[id as usize] as int
    }

    /// The entity stored for id `id`.
    pub open spec fn stored(&self, id: u32) -> Entity {
        self.entity_seq()[self.position(id)]
    }

    /// No other generation of `entity`'s id owns a value here.
    pub open spec fn agrees(&self, entity: Entity) -> bool {
        self.has(entity.id()) ==> self.stored(entity.id()) == entity
    }

    /// The position that `sparse` records for each slot.
    closed spec fn positions(&self) -> Map<usize, int> {
        self.sparse@.map_values(|p: u32| p as int)
    }

    /// The dense vectors agree in length, every value has the item size, and
    /// `sparse` records the position of every entity's id and of nothing
    /// else.
    pub closed spec fn wf(&self) -> bool {
        &&& self.dense@.len() == self.entities@.len()
        &&& self.ticks@.len() == self.entities@.len()
        &&& self.entities@.len() <= u32::MAX + 1
        &&& forall|p: int|
            0 <= p < self.dense@.len() ==> (#[trigger] self.dense@[p])@.len() == self.item_size
        &&& indexes(self.slot_seq(), self.positions())
    }

    /// What `wf` says of the positions, spelled out over the fields.
    proof fn lemma_wf_fields(&self)
        requires
            self.wf(),
        ensures
            forall|p: int|
                0 <= p < self.entities@.len() ==> self.sparse@.dom().contains(
                    #[trigger] self.entities@[p].id() as usize,
                ) && self.sparse@[self.entities@[p].id() as usize] == p,
            forall|k: usize| #[trigger]
                self.sparse@.dom().contains(k) ==> self.sparse@[k] < self.entities@.len()
                    && self.entities@[self.sparse@[k] as int].id() as usize == k,
    {
        assert forall|p: int| 0 <= p < self.entities@.len() implies self.sparse@.dom().contains(
            #[trigger] self.entities@[p].id() as usize,
        ) && self.sparse@[self.entities@[p].id() as usize] == p by {
            assert(self.slot_seq()[p] == self.entities@[p].id() as usize);
        }
        assert forall|k: usize| #[trigger] self.sparse@.dom().contains(k) implies self.sparse@[k]
            < self.entities@.len() && self.entities@[self.sparse@[k] as int].id() as usize
            == k by {
            assert(self.positions().dom().contains(k));
            assert(self.slot_seq()[self.positions()[k]] == k);
        }
    }

    /// In a well-formed set, the ids present are the ids of the entities in
    /// dense order, each at its position, each alone there, and the view
    /// reads the entry at that position.
    pub proof fn lemma_position(&self, id: u32)
        requires
            self.wf(),
        ensures
            self.value_seq().len() == self.entity_seq().len(),
            self.tick_seq().len() == self.entity_seq().len(),
            forall|p: int|
                0 <= p < self.value_seq().len() ==> (#[trigger] self.value_seq()[p]).len()
                    == self.item_size(),
            self.has(id) <==> exists|p: int|
                0 <= p < self.entity_seq().len() && #[trigger] self.entity_seq()[p].id() == id,
            self.has(id) ==> {
                &&& 0 <= self.position(id) < self.entity_seq().len()
                &&& self.stored(id).id() == id
                &&& self@[id] == (
                    self.value_seq()[self.position(id)],
                    self.tick_seq()[self.position(id)],
                )
                &&& forall|p: int|
                    0 <= p < self.entity_seq().len() && #[trigger] self.entity_seq()[p].id() == id
                        ==> p == self.position(id)
            },
    {
        self.lemma_wf_fields();
        if self.has(id) {
            assert(self.entities@[self.position(id)].id() as usize == id as usize);
        }
        assert forall|p: int|
            0 <= p < self.entity_seq().len() && #[trigger] self.entity_seq()[p].id() == id implies self.has(
            id,
        ) && p == self.position(id) by {
            assert(self.sparse@.dom().contains(self.entities@[p].id() as usize));
        }
        assert forall|p: int|
            0 <= p < self.value_seq().len() implies (#[trigger] self.value_seq()[p]).len()
            == self.item_size() by {
            assert(self.dense@[p]@.len() == self.item_size);
        }
    }

    /// In a well-formed storage, the number of entries is the number of
    /// entity ids that own a value.
    pub proof fn lemma_len(&self)
        requires
            self.wf(),
        ensures
            self@.dom().finite(),
            self@.dom().len() == self.entity_seq().len(),
    {
        broadcast use vstd::seq_lib::group_seq_properties;

        self.lemma_wf_fields();
        lemma_indexes_slots(self.slot_seq(), self.positions());
        let ids = self.entities@.map_values(|e: Entity| e.id());
        assert(ids.no_duplicates()) by {
            assert forall|a: int, b: int|
                0 <= a < ids.len() && 0 <= b < ids.len() && a != b implies ids[a] != ids[b] by {
                assert(self.slot_seq()[a] == ids[a] as usize);
                assert(self.slot_seq()[b] == ids[b] as usize);
            }
        }
        ids.unique_seq_to_set();
        assert(self@.dom() =~= ids.to_set()) by {
            assert forall|id: u32| self@.dom().contains(id) implies ids.to_set().contains(id) by {
                let p = self.sparse@[id as usize] as int;
                assert(ids[p] as usize == id as usize);
            }
            assert forall|id: u32| ids.to_set().contains(id) implies self@.dom().contains(id) by {
                let p = choose|p: int| 0 <= p < ids.len() && ids[p] == id;
                assert(self.sparse@.dom().contains(self.entities@[p].id() as usize));
            }
        }
    }

    /// What storing `value` with ticks at `change_tick` for `entity` makes of
    /// `before`: the storage stays well formed and maps the entity's id to
    /// the value and fresh ticks; an entry already there is replaced in
    /// place, otherwise the entry is appended in dense order.
    pub open spec fn inserted(
        before: Self,
        after: Self,
        entity: Entity,
        value: Seq<u8>,
        change_tick: u32,
    ) -> bool {
        let ticks = ComponentTicks::spec_new(change_tick);
        let id = entity.id();
        &&& after.wf()
        &&& after.item_size() == before.item_size()
        &&& after@ == before@.insert(id, (value, ticks))
        &&& before.has(id) ==> {
            let p = before.position(id);
            &&& after.entity_seq() == before.entity_seq()
            &&& after.value_seq() == before.value_seq().update(p, value)
            &&& after.tick_seq() == before.tick_seq().update(p, ticks)
        }
        &&& !before.has(id) ==> {
            &&& after.entity_seq() == before.entity_seq().push(entity)
            &&& after.value_seq() == before.value_seq().push(value)
            &&& after.tick_seq() == before.tick_seq().push(ticks)
        }
    }

    /// What removing the entry of entity id `id` makes of `before`: the
    /// storage stays well formed and loses `id`, and the last entry in dense
    /// order moves into the place it leaves. Without such an entry nothing
    /// changes.
    pub open spec fn removed(before: Self, after: Self, id: u32) -> bool {
        &&& after.wf()
        &&& after.item_size() == before.item_size()
        &&& after@ == before@.remove(id)
        &&& before.has(id) ==> {
            let p = before.position(id);
            let n = before.entity_seq().len();
            &&& after.entity_seq() == before.entity_seq().update(p, before.entity_seq()[n - 1]).drop_last()
            &&& after.value_seq() == before.value_seq().update(p, before.value_seq()[n - 1]).drop_last()
            &&& after.tick_seq() == before.tick_seq().update(p, before.tick_seq()[n - 1]).drop_last()
        }
        &&& !before.has(id) ==> {
            &&& after.entity_seq() == before.entity_seq()
            &&& after.value_seq() == before.value_seq()
            &&& after.tick_seq() == before.tick_seq()
        }
    }

    /// `after` is `before` with every value removed and the item size kept.
    pub open spec fn cleared(before: Self, after: Self) -> bool {
        &&& after.wf()
        &&& after@ == Map::<u32, (Seq<u8>, ComponentTicks)>::empty()
        &&& after.entity_seq() == Seq::<Entity>::empty()
        &&& after.value_seq() == Seq::<Seq<u8>>::empty()
        &&& after.tick_seq() == Seq::<ComponentTicks>::empty()
        &&& after.item_size() == before.item_size()
    }

    /// `after` is `before` with the ticks of every value checked against
    /// `change_tick`, and nothing else changed.
    pub open spec fn ticks_checked(before: Self, after: Self, change_tick: u32) -> bool {
        &&& after.wf()
        &&& after@.dom() == before@.dom()
        &&& after.item_size() == before.item_size()
        &&& after.entity_seq() == before.entity_seq()
        &&& after.value_seq() == before.value_seq()
        &&& after.tick_seq().len() == before.tick_seq().len()
        &&& forall|p: int|
            0 <= p < after.tick_seq().len() ==> #[trigger] after.tick_seq()[p]
                == before.tick_seq()[p].checked(change_tick)
    }

    /// Creates empty storage for the component type `component_info`
    /// describes, with room reserved for `capacity` values.
    pub fn new(component_info: &ComponentInfo, capacity: usize) -> (r: Self)
        ensures
            r.wf(),
            r@ == Map::<u32, (Seq<u8>, ComponentTicks)>::empty(),
            r.entity_seq() == Seq::<Entity>::empty(),
            r.value_seq() == Seq::<Seq<u8>>::empty(),
            r.tick_seq() == Seq::<ComponentTicks>::empty(),
            r.item_size() == component_info.item_size(),
    {
        let r = ComponentSparseSet {
            dense: Vec::with_capacity(capacity),
            item_size: component_info.item_size(),
            ticks: Vec::with_capacity(capacity),
            entities: Vec::with_capacity(capacity),
            sparse: SparseArray::new(),
        };
        assert(r@ =~= Map::<u32, (Seq<u8>, ComponentTicks)>::empty());
        assert(r.value_seq() =~= Seq::<Seq<u8>>::empty());
        assert(r.slot_seq() =~= Seq::<usize>::empty());
        assert(r.positions() =~= Map::<usize, int>::empty());
        r
    }

    /// Removes every value and hands the values out, in dense order, to be
    /// dropped.
    pub fn clear(&mut self) -> (r: Vec<Vec<u8>>)
        requires
            old(self).wf(),
        ensures
            Self::cleared(*old(self), *final(self)),
            r@.map_values(|v: Vec<u8>| v@) == old(self).value_seq(),
    {
        let mut values: Vec<Vec<u8>> = Vec::new();
        std::mem::swap(&mut values, &mut self.dense);
        self.ticks.clear();
        self.entities.clear();
        self.sparse.clear();
        assert(final(self)@ =~= Map::<u32, (Seq<u8>, ComponentTicks)>::empty());
        assert(final(self).value_seq() =~= Seq::<Seq<u8>>::empty());
        assert(final(self).slot_seq() =~= Seq::<usize>::empty());
        assert(final(self).positions() =~= Map::<usize, int>::empty());
        assert(values@.map_values(|v: Vec<u8>| v@) =~= old(self).value_seq());
        values
    }

    /// The number of values stored.
    pub fn len(&self) -> (r: usize)
        requires
            self.wf(),
        ensures
            r == self.entity_seq().len(),
            r == self@.dom().len(),
    {
        proof {
            self.lemma_len();
        }
        self.dense.len()
    }

    /// Whether no value is stored.
    pub fn is_empty(&self) -> (r: bool)
        requires
            self.wf(),
        ensures
            r == (self.entity_seq().len() == 0),
    {
        self.dense.len() == 0
    }

    /// Stores `value` as the component of `entity`, with fresh ticks at
    /// `change_tick`. A value the entity already owns is replaced in place
    /// and handed out, to be dropped; otherwise the entry is appended in
    /// dense order.
    pub fn insert(&mut self, entity: Entity, value: Vec<u8>, change_tick: u32) -> (r: Option<
        Vec<u8>,
    >)
        requires
            old(self).wf(),
            old(self).agrees(entity),
            value@.len() == old(self).item_size(),
            entity.id() < usize::MAX,
            !old(self).has(entity.id()) ==> old(self).entity_seq().len() <= u32::MAX,
        ensures
            Self::inserted(*old(self), *final(self), entity, value@, change_tick),
            old(self).has(entity.id()) ==> r is Some && r.unwrap()@ == old(self)@[entity.id()].0,
            !old(self).has(entity.id()) ==> r is None,
    {
        proof {
            self.lemma_wf_fields();
        }
        let id = entity.id();
        let ticks = ComponentTicks::new(change_tick);
        match self.sparse.get(id) {
            Some(found) => {
                let dense_index = *found as usize;
                let mut replaced = value;
                std::mem::swap(&mut replaced, &mut self.dense[dense_index]);
                self.ticks.set(dense_index, ticks);
                assert(final(self).value_seq() =~= old(self).value_seq().update(
                    dense_index as int,
                    value@,
                ));
                assert(final(self)@ =~= old(self)@.insert(id, (value@, ticks)));
                Some(replaced)
            },
            None => {
                let dense_index = self.dense.len();
                self.dense.push(value);
                self.sparse.insert(id, dense_index as u32);
                self.ticks.push(ticks);
                self.entities.push(entity);
                proof {
                    lemma_indexes_push(old(self).slot_seq(), old(self).positions(), id as usize);
                    assert(self.slot_seq() =~= old(self).slot_seq().push(id as usize));
                    assert(self.positions() =~= old(self).positions().insert(
                        id as usize,
                        dense_index as int,
                    ));
                    self.lemma_wf_fields();
                }
                assert(final(self).value_seq() =~= old(self).value_seq().push(value@));
                assert(final(self)@ =~= old(self)@.insert(id, (value@, ticks)));
                None
            },
        }
    }

    /// Whether `entity` owns a value here.
    pub fn contains(&self, entity: Entity) -> (r: bool)
        requires
            self.wf(),
            self.agrees(entity),
        ensures
            r == self.has(entity.id()),
    {
        self.sparse.contains(entity.id())
    }

    /// The bytes of the value `entity` owns, if any.
    pub fn get(&self, entity: Entity) -> (r: Option<&[u8]>)
        requires
            self.wf(),
            self.agrees(entity),
        ensures
            match r {
                Some(bytes) => self.has(entity.id()) && bytes@ == self@[entity.id()].0,
                None => !self.has(entity.id()),
            },
    {
        proof {
            self.lemma_wf_fields();
        }
        match self.sparse.get(entity.id()) {
            Some(found) => {
                let dense_index = *found as usize;
                Some(self.dense[dense_index].as_slice())
            },
            None => None,
        }
    }

    /// The bytes and the ticks of the value `entity` owns, if any.
    pub fn get_with_ticks(&self, entity: Entity) -> (r: Option<(&[u8], &ComponentTicks)>)
        requires
            self.wf(),
            self.agrees(entity),
        ensures
            match r {
                Some(found) => self.has(entity.id()) && found.0@ == self@[entity.id()].0
                    && *found.1 == self@[entity.id()].1,
                None => !self.has(entity.id()),
            },
    {
        proof {
            self.lemma_wf_fields();
        }
        match self.sparse.get(entity.id()) {
            Some(found) => {
                let dense_index = *found as usize;
                Some((self.dense[dense_index].as_slice(), &self.ticks[dense_index]))
            },
            None => None,
        }
    }

    /// The ticks of the value `entity` owns, if any.
    pub fn get_ticks(&self, entity: Entity) -> (r: Option<&ComponentTicks>)
        requires
            self.wf(),
            self.agrees(entity),
        ensures
            match r {
                Some(ticks) => self.has(entity.id()) && *ticks == self@[entity.id()].1,
                None => !self.has(entity.id()),
            },
    {
        proof {
            self.lemma_wf_fields();
        }
        match self.sparse.get(entity.id()) {
            Some(found) => {
                let dense_index = *found as usize;
                Some(&self.ticks[dense_index])
            },
            None => None,
        }
    }

    /// A mutable borrow of the ticks of the value `entity` owns, if any;
    /// writing through it changes those ticks and nothing else.
    pub fn get_ticks_mut(&mut self, entity: Entity) -> (r: Option<&mut ComponentTicks>)
        requires
            old(self).wf(),
            old(self).agrees(entity),
        ensures
            final(self).wf(),
            final(self).item_size() == old(self).item_size(),
            final(self).entity_seq() == old(self).entity_seq(),
            final(self).value_seq() == old(self).value_seq(),
            old(self).has(entity.id()) ==> {
                &&& r is Some
                &&& *r.unwrap() == old(self)@[entity.id()].1
                &&& final(self)@ == old(self)@.insert(
                    entity.id(),
                    (old(self)@[entity.id()].0, *final(r.unwrap())),
                )
                &&& final(self).tick_seq() == old(self).tick_seq().update(
                    old(self).position(entity.id()),
                    *final(r.unwrap()),
                )
            },
            !old(self).has(entity.id()) ==> r is None && *final(self) == *old(self),
    {
        proof {
            self.lemma_wf_fields();
        }
        let id = entity.id();
        match self.sparse.get(id) {
            Some(found) => {
                let dense_index = *found as usize;
                proof {
                    assert forall|x: ComponentTicks|
                        storage_map(self.dense@, self.ticks@.update(dense_index as int, x), self.sparse@)
                            == #[trigger] self@.insert(id, (self@[id].0, x)) by {
                        assert(storage_map(
                            self.dense@,
                            self.ticks@.update(dense_index as int, x),
                            self.sparse@,
                        ) =~= self@.insert(id, (self@[id].0, x)));
                    }
                }
                let r = &mut self.ticks[dense_index];
                Some(r)
            },
            None => None,
        }
    }

    /// Removes the value `entity` owns and hands its bytes to the caller, to
    /// be moved elsewhere or dropped. The last entry in dense order moves into
    /// the place it leaves.
    pub fn remove_and_forget(&mut self, entity: Entity) -> (r: Option<Vec<u8>>)
        requires
            old(self).wf(),
            old(self).agrees(entity),
        ensures
            Self::removed(*old(self), *final(self), entity.id()),
            old(self).has(entity.id()) ==> r is Some && r.unwrap()@ == old(self)@[entity.id()].0,
            !old(self).has(entity.id()) ==> r is None,
    {
        proof {
            self.lemma_wf_fields();
        }
        let id = entity.id();
        match self.sparse.remove(id) {
            None => {
                assert(final(self)@ =~= old(self)@.remove(id));
                assert(self.positions() =~= old(self).positions());
                None
            },
            Some(found) => {
                let dense_index = found as usize;
                let last = self.dense.len() - 1;
                self.ticks.swap_remove(dense_index);
                self.entities.swap_remove(dense_index);
                let is_last = dense_index == last;
                let value = self.dense.swap_remove(dense_index);
                if !is_last {
                    let swapped_entity = self.entities[dense_index];
                    match self.sparse.get_mut(swapped_entity.id()) {
                        Some(position) => {
                            *position = dense_index as u32;
                        },
                        None => {},
                    }
                }
                proof {
                    let slots = old(self).slot_seq();
                    let positions = old(self).positions();
                    lemma_indexes_swap_remove(slots, positions, id as usize);
                    assert(self.slot_seq() =~= slots.update(
                        dense_index as int,
                        slots[last as int],
                    ).drop_last());
                    assert(self.positions() =~= positions_after_swap_remove(
                        slots,
                        positions,
                        id as usize,
                    ));
                    self.lemma_wf_fields();
                }
                assert(final(self).value_seq() =~= old(self).value_seq().update(
                    dense_index as int,
                    old(self).value_seq()[last as int],
                ).drop_last());
                assert(self.entities@ =~= old(self).entities@.update(
                    dense_index as int,
                    old(self).entities@[last as int],
                ).drop_last());
                assert(self.ticks@ =~= old(self).ticks@.update(
                    dense_index as int,
                    old(self).ticks@[last as int],
                ).drop_last());
                assert(final(self)@ =~= old(self)@.remove(id));
                Some(value)
            },
        }
    }

    /// Removes the value `entity` owns and hands its bytes out, to be
    /// dropped; `None` says that there was none. The last entry in dense
    /// order moves into the place it leaves.
    pub fn remove(&mut self, entity: Entity) -> (r: Option<Vec<u8>>)
        requires
            old(self).wf(),
            old(self).agrees(entity),
        ensures
            Self::removed(*old(self), *final(self), entity.id()),
            old(self).has(entity.id()) ==> r is Some && r.unwrap()@ == old(self)@[entity.id()].0,
            !old(self).has(entity.id()) ==> r is None,
    {
        self.remove_and_forget(entity)
    }

    /// Checks the ticks of every value against `change_tick`, moving those
    /// older than the largest allowed age forward.
    pub fn check_change_ticks(&mut self, change_tick: u32)
        requires
            old(self).wf(),
        ensures
            Self::ticks_checked(*old(self), *final(self), change_tick),
    {
        let n = self.ticks.len();
        for i in 0..n
            invariant
                n == self.ticks@.len(),
                n == old(self).ticks@.len(),
                self.dense == old(self).dense,
                self.entities == old(self).entities,
                self.sparse == old(self).sparse,
                self.item_size == old(self).item_size,
                forall|p: int|
                    0 <= p < n ==> #[trigger] self.ticks@[p] == if p < i {
                        old(self).ticks@[p].checked(change_tick)
                    } else {
                        old(self).ticks@[p]
                    },
        {
            let mut ticks = self.ticks[i];
            ticks.check_ticks(change_tick);
            self.ticks.set(i, ticks);
        }
        assert(final(self)@.dom() =~= old(self)@.dom());
    }
}

/// Reading back the entry of an entity just stored gives the bytes stored
/// and fresh ticks, and every other entity id reads as before.
pub proof fn law_get_after_insert(
    before: ComponentSparseSet,
    after: ComponentSparseSet,
    entity: Entity,
    value: Seq<u8>,
    change_tick: u32,
)
    requires
        ComponentSparseSet::inserted(before, after, entity, value, change_tick),
    ensures
        after.has(entity.id()),
        after@[entity.id()].0 == value,
        after@[entity.id()].1.added() == change_tick,
        after@[entity.id()].1.changed() == change_tick,
        forall|other: u32|
            other != entity.id() ==> (#[trigger] after.has(other) == before.has(other)) && (
            before.has(other) ==> after@[other] == before@[other]),
{
    ComponentTicks::lemma_new(change_tick);
}

/// Removing an entity's entry just stored by an insertion that added it
/// restores the storage entirely, dense order included.
pub proof fn law_remove_after_insert(
    s0: ComponentSparseSet,
    s1: ComponentSparseSet,
    s2: ComponentSparseSet,
    entity: Entity,
    value: Seq<u8>,
    change_tick: u32,
)
    requires
        s0.wf(),
        !s0.has(entity.id()),
        ComponentSparseSet::inserted(s0, s1, entity, value, change_tick),
        ComponentSparseSet::removed(s1, s2, entity.id()),
    ensures
        s2@ == s0@,
        s2.entity_seq() == s0.entity_seq(),
        s2.value_seq() == s0.value_seq(),
        s2.tick_seq() == s0.tick_seq(),
{
    let id = entity.id();
    s0.lemma_position(id);
    s1.lemma_position(id);
    let n = s0.entity_seq().len() as int;
    assert(s1.entity_seq()[n].id() == id);
    assert(s1.position(id) == n);
    assert(s2.entity_seq() =~= s0.entity_seq());
    assert(s2.value_seq() =~= s0.value_seq());
    assert(s2.tick_seq() =~= s0.tick_seq());
    assert(s2@ =~= s0@);
}

/// Checking the change ticks of a storage clamps the age of every tick of
/// every value: a tick more than [`MAX_CHANGE_AGE`] old becomes exactly that
/// old, and a younger tick stays as it is.
pub proof fn law_check_change_ticks_clamps(
    before: ComponentSparseSet,
    after: ComponentSparseSet,
    change_tick: u32,
    p: int,
)
    requires
        ComponentSparseSet::ticks_checked(before, after, change_tick),
        0 <= p < before.tick_seq().len(),
    ensures
        ({
            let old_ticks = before.tick_seq()[p];
            let new_ticks = after.tick_seq()[p];
            &&& change_tick.wrapping_sub(old_ticks.added()) > MAX_CHANGE_AGE
                ==> change_tick.wrapping_sub(new_ticks.added()) == MAX_CHANGE_AGE
            &&& change_tick.wrapping_sub(old_ticks.added()) <= MAX_CHANGE_AGE
                ==> new_ticks.added() == old_ticks.added()
            &&& change_tick.wrapping_sub(old_ticks.changed()) > MAX_CHANGE_AGE
                ==> change_tick.wrapping_sub(new_ticks.changed()) == MAX_CHANGE_AGE
            &&& change_tick.wrapping_sub(old_ticks.changed()) <= MAX_CHANGE_AGE
                ==> new_ticks.changed() == old_ticks.changed()
        }),
{
    assert(after.tick_seq()[p] == before.tick_seq()[p].checked(change_tick));
    law_check_ticks_clamps(before.tick_seq()[p], change_tick);
}

/// How one call changes which entity ids own a value: `insert` adds an id,
/// `remove` and `remove_and_forget` drop one, `clear` drops all, and the
/// other calls keep the ids as they are.
pub enum EntryChange {
    Added(u32),
    Removed(u32),
    Cleared,
    Kept,
}

/// The ids that own a value after `change`, when `ids` did before.
pub open spec fn apply_change(ids: Set<u32>, change: EntryChange) -> Set<u32> {
    match change {
        EntryChange::Added(id) => ids.insert(id),
        EntryChange::Removed(id) => ids.remove(id),
        EntryChange::Cleared => Set::empty(),
        EntryChange::Kept => ids,
    }
}

/// Whether `changes` leave `id` owning a value: it was added, and neither
/// removed nor cleared since.
pub open spec fn still_added(changes: Seq<EntryChange>, id: u32) -> bool
    decreases changes.len(),
{
    if changes.len() == 0 {
        false
    } else {
        match changes.last() {
            EntryChange::Added(k) => k == id || still_added(changes.drop_last(), id),
            EntryChange::Removed(k) => k != id && still_added(changes.drop_last(), id),
            EntryChange::Cleared => false,
            EntryChange::Kept => still_added(changes.drop_last(), id),
        }
    }
}

/// Over any history of a storage that starts empty, an entity id owns a
/// value exactly when it was inserted and neither removed nor cleared
/// since; and the storage's length counts those ids.
pub proof fn law_contains_after_history(
    states: Seq<ComponentSparseSet>,
    changes: Seq<EntryChange>,
    id: u32,
)
    requires
        states.len() == changes.len() + 1,
        states[0]@.dom() == Set::<u32>::empty(),
        forall|i: int|
            0 <= i < changes.len() ==> states[i + 1]@.dom() == apply_change(
                states[i]@.dom(),
                #[trigger] changes[i],
            ),
        states.last().wf(),
    ensures
        states.last().has(id) == still_added(changes, id),
        states.last().entity_seq().len() == states.last()@.dom().len(),
    decreases changes.len(),
{
    states.last().lemma_len();
    lemma_has_after_history(states, changes, id);
}

/// The part of the history law that needs no well-formedness.
proof fn lemma_has_after_history(
    states: Seq<ComponentSparseSet>,
    changes: Seq<EntryChange>,
    id: u32,
)
    requires
        states.len() == changes.len() + 1,
        states[0]@.dom() == Set::<u32>::empty(),
        forall|i: int|
            0 <= i < changes.len() ==> states[i + 1]@.dom() == apply_change(
                states[i]@.dom(),
                #[trigger] changes[i],
            ),
    ensures
        states.last().has(id) == still_added(changes, id),
    decreases changes.len(),
{
    if changes.len() > 0 {
        let n = changes.len() as int;
        assert(states[n]@.dom() == apply_change(states[n - 1]@.dom(), changes[n - 1]));
        let earlier = states.drop_last();
        assert forall|i: int| 0 <= i < changes.drop_last().len() implies earlier[i + 1]@.dom()
            == apply_change(earlier[i]@.dom(), #[trigger] changes.drop_last()[i]) by {
            assert(states[i + 1]@.dom() == apply_change(states[i]@.dom(), changes[i]));
        }
        lemma_has_after_history(earlier, changes.drop_last(), id);
    }
}

} // verus!
