//! Component identifiers, descriptions and change ticks.

use vstd::prelude::*;

use crate::index::SparseSetIndex;

verus! {

/// Identifies a component type by its registration number.
#[derive(Clone, Copy, Debug, Hash, PartialEq, Eq, Structural)]
pub struct ComponentId(usize);

impl ComponentId {
    /// The registration number of this component type.
    pub closed spec fn spec_index(self) -> usize {
        self.0
    }

    /// The id with registration number `index`.
    pub fn new(index: usize) -> (r: ComponentId)
        ensures
            r.index() == index,
    {
        ComponentId(index)
    }

    /// The registration number of this component type.
    #[verifier::when_used_as_spec(spec_index)]
    pub fn index(self) -> (r: usize)
        ensures
            r == self.spec_index(),
    {
        self.0
    }
}

impl SparseSetIndex for ComponentId {
    open spec fn slot(&self) -> usize {
        self.index()
    }

    fn sparse_set_index(&self) -> (r: usize) {
        self.index()
    }

    fn get_sparse_set_index(value: usize) -> (r: Self)
        ensures
            r.index() == value,
    {
        ComponentId::new(value)
    }
}

/// What the storage needs to know of a component type: its id and the
/// number of bytes one value of it occupies.
#[derive(Clone, Copy, Debug)]
pub struct ComponentInfo {
    id: ComponentId,
    item_size: usize,
}

impl ComponentInfo {
    /// The id of the described component type.
    pub closed spec fn spec_id(&self) -> ComponentId {
        self.id
    }

    /// The size in bytes of one value of the described component type.
    pub closed spec fn spec_item_size(&self) -> usize {
        self.item_size
    }

    /// Describes the component type `id`, whose values take `item_size` bytes.
    pub fn new(id: ComponentId, item_size: usize) -> (r: ComponentInfo)
        ensures
            r.id() == id,
            r.item_size() == item_size,
    {
        ComponentInfo { id, item_size }
    }

    /// The id of the described component type.
    #[verifier::when_used_as_spec(spec_id)]
    pub fn id(&self) -> (r: ComponentId)
        ensures
            r == self.spec_id(),
    {
        self.id
    }

    /// The size in bytes of one value of the described component type.
    #[verifier::when_used_as_spec(spec_item_size)]
    pub fn item_size(&self) -> (r: usize)
        ensures
            r == self.spec_item_size(),
    {
        self.item_size
    }
}

/// How many change ticks apart two ticks of one component may be before the
/// older one is moved forward.
pub const CHECK_TICK_THRESHOLD: u32 = 518_400_000;

/// The largest age a recorded tick may reach; older ticks are clamped to it.
pub const MAX_CHANGE_AGE: u32 = 3_258_167_296;

/// How many ticks ago, counting around the wrap of `u32`, `tick` was
/// recorded when the current tick is `change_tick`.
pub open spec fn tick_age(tick: u32, change_tick: u32) -> u32 {
    change_tick.wrapping_sub(tick)
}

/// `tick` after it has been checked against `change_tick`: a tick older than
/// [`MAX_CHANGE_AGE`] is moved forward to exactly that age.
pub open spec fn checked_tick(tick: u32, change_tick: u32) -> u32 {
    if tick_age(tick, change_tick) > MAX_CHANGE_AGE {
        change_tick.wrapping_sub(MAX_CHANGE_AGE)
    } else {
        tick
    }
}

/// The ticks at which a component value was added and last changed.
#[derive(Clone, Copy, Debug, PartialEq, Eq, Structural)]
pub struct ComponentTicks {
    added: u32,
    changed: u32,
}

impl ComponentTicks {
    /// The tick at which the value was added.
    pub closed spec fn spec_added(&self) -> u32 {
        self.added
    }

    /// The tick at which the value was last changed.
    pub closed spec fn spec_changed(&self) -> u32 {
        self.changed
    }

    /// Ticks of a value added, and so changed, at `change_tick`.
    pub closed spec fn spec_new(change_tick: u32) -> ComponentTicks {
        ComponentTicks { added: change_tick, changed: change_tick }
    }

    /// Ticks of a value added, and so changed, at `change_tick`.
    #[verifier::when_used_as_spec(spec_new)]
    pub fn new(change_tick: u32) -> (r: ComponentTicks)
        ensures
            r == Self::spec_new(change_tick),
            r.added() == change_tick,
            r.changed() == change_tick,
    {
        ComponentTicks { added: change_tick, changed: change_tick }
    }

    /// The tick at which the value was added.
    #[verifier::when_used_as_spec(spec_added)]
    pub fn added(&self) -> (r: u32)
        ensures
            r == self.spec_added(),
    {
        self.added
    }

    /// The tick at which the value was last changed.
    #[verifier::when_used_as_spec(spec_changed)]
    pub fn changed(&self) -> (r: u32)
        ensures
            r == self.spec_changed(),
    {
        self.changed
    }

    /// The ticks after both have been checked against `change_tick`.
    pub closed spec fn checked(self, change_tick: u32) -> ComponentTicks {
        ComponentTicks {
            added: checked_tick(self.added(), change_tick),
            changed: checked_tick(self.changed(), change_tick),
        }
    }

    /// Records that the value changed at `change_tick`.
    pub fn set_changed(&mut self, change_tick: u32)
        ensures
            final(self).added() == old(self).added(),
            final(self).changed() == change_tick,
    {
        self.changed = change_tick;
    }

    /// Fresh ticks record the same tick as added and changed.
    pub proof fn lemma_new(change_tick: u32)
        ensures
            Self::spec_new(change_tick).added() == change_tick,
            Self::spec_new(change_tick).changed() == change_tick,
    {
    }

    /// Checking ticks checks each of the two ticks on its own.
    pub proof fn lemma_checked(self, change_tick: u32)
        ensures
            self.checked(change_tick).added() == checked_tick(self.added(), change_tick),
            self.checked(change_tick).changed() == checked_tick(self.changed(), change_tick),
    {
    }

    /// Moves ticks that are older than [`MAX_CHANGE_AGE`] forward, so that
    /// ages stay comparable after the tick counter wraps around.
    pub fn check_ticks(&mut self, change_tick: u32)
        ensures
            *final(self) == old(self).checked(change_tick),
            final(self).added() == checked_tick(old(self).added(), change_tick),
            final(self).changed() == checked_tick(old(self).changed(), change_tick),
            tick_age(final(self).added(), change_tick) <= MAX_CHANGE_AGE,
            tick_age(final(self).changed(), change_tick) <= MAX_CHANGE_AGE,
            change_tick.wrapping_sub(old(self).added()) > MAX_CHANGE_AGE ==> change_tick.wrapping_sub(
                final(self).added(),
            ) == MAX_CHANGE_AGE,
            change_tick.wrapping_sub(old(self).added()) <= MAX_CHANGE_AGE ==> final(self).added()
                == old(self).added(),
            change_tick.wrapping_sub(old(self).changed()) > MAX_CHANGE_AGE ==> change_tick.wrapping_sub(
                final(self).changed(),
            ) == MAX_CHANGE_AGE,
            change_tick.wrapping_sub(old(self).changed()) <= MAX_CHANGE_AGE ==> final(self).changed()
                == old(self).changed(),
    {
        check_tick(&mut self.added, change_tick);
        check_tick(&mut self.changed, change_tick);
    }
}

/// Clamps the age of `last_change_tick` relative to `change_tick` to
/// [`MAX_CHANGE_AGE`].
fn check_tick(last_change_tick: &mut u32, change_tick: u32)
    ensures
        *final(last_change_tick) == checked_tick(*old(last_change_tick), change_tick),
        tick_age(*final(last_change_tick), change_tick) <= MAX_CHANGE_AGE,
        change_tick.wrapping_sub(*old(last_change_tick)) > MAX_CHANGE_AGE
            ==> change_tick.wrapping_sub(*final(last_change_tick)) == MAX_CHANGE_AGE,
        change_tick.wrapping_sub(*old(last_change_tick)) <= MAX_CHANGE_AGE
            ==> *final(last_change_tick) == *old(last_change_tick),
{
    let age = change_tick.wrapping_sub(*last_change_tick);
    if age > MAX_CHANGE_AGE {
        *last_change_tick = change_tick.wrapping_sub(MAX_CHANGE_AGE);
        assert(change_tick.wrapping_sub(change_tick.wrapping_sub(MAX_CHANGE_AGE))
            == MAX_CHANGE_AGE) by (bit_vector);
    }
}

/// Checking a tick clamps its age: a tick more than [`MAX_CHANGE_AGE`] old
/// becomes exactly that old, the one tick with that age, and a younger tick
/// stays as it is.
pub proof fn law_checked_tick_clamps(tick: u32, change_tick: u32)
    ensures
        change_tick.wrapping_sub(tick) > MAX_CHANGE_AGE ==> change_tick.wrapping_sub(
            checked_tick(tick, change_tick),
        ) == MAX_CHANGE_AGE,
        change_tick.wrapping_sub(tick) <= MAX_CHANGE_AGE ==> checked_tick(tick, change_tick)
            == tick,
        forall|t: u32|
            change_tick.wrapping_sub(tick) > MAX_CHANGE_AGE && #[trigger] change_tick.wrapping_sub(t)
                == MAX_CHANGE_AGE ==> checked_tick(tick, change_tick) == t,
{
    assert(change_tick.wrapping_sub(change_tick.wrapping_sub(MAX_CHANGE_AGE)) == MAX_CHANGE_AGE)
        by (bit_vector);
    assert forall|t: u32|
        change_tick.wrapping_sub(tick) > MAX_CHANGE_AGE && #[trigger] change_tick.wrapping_sub(t)
            == MAX_CHANGE_AGE implies checked_tick(tick, change_tick) == t by {
        assert(change_tick.wrapping_sub(t) == MAX_CHANGE_AGE ==> t == change_tick.wrapping_sub(
            MAX_CHANGE_AGE,
        )) by (bit_vector);
    }
}

/// Checking ticks clamps the age of each of the two ticks on its own.
pub proof fn law_check_ticks_clamps(ticks: ComponentTicks, change_tick: u32)
    ensures
        change_tick.wrapping_sub(ticks.added()) > MAX_CHANGE_AGE ==> change_tick.wrapping_sub(
            ticks.checked(change_tick).added(),
        ) == MAX_CHANGE_AGE,
        change_tick.wrapping_sub(ticks.added()) <= MAX_CHANGE_AGE ==> ticks.checked(
            change_tick,
        ).added() == ticks.added(),
        change_tick.wrapping_sub(ticks.changed()) > MAX_CHANGE_AGE ==> change_tick.wrapping_sub(
            ticks.checked(change_tick).changed(),
        ) == MAX_CHANGE_AGE,
        change_tick.wrapping_sub(ticks.changed()) <= MAX_CHANGE_AGE ==> ticks.checked(
            change_tick,
        ).changed() == ticks.changed(),
{
    ticks.lemma_checked(change_tick);
    law_checked_tick_clamps(ticks.added(), change_tick);
    law_checked_tick_clamps(ticks.changed(), change_tick);
}

/// Checking a tick twice against the same current tick changes nothing the
/// second time, and a checked tick is at most [`MAX_CHANGE_AGE`] old.
pub proof fn law_checked_tick_idempotent(tick: u32, change_tick: u32)
    ensures
        checked_tick(checked_tick(tick, change_tick), change_tick) == checked_tick(
            tick,
            change_tick,
        ),
        tick_age(checked_tick(tick, change_tick), change_tick) <= MAX_CHANGE_AGE,
{
    assert(change_tick.wrapping_sub(change_tick.wrapping_sub(MAX_CHANGE_AGE)) == MAX_CHANGE_AGE)
        by (bit_vector);
}

/// Checking ticks twice against the same current tick changes nothing the
/// second time.
pub proof fn law_check_ticks_idempotent(ticks: ComponentTicks, change_tick: u32)
    ensures
        ticks.checked(change_tick).checked(change_tick) == ticks.checked(change_tick),
{
    law_checked_tick_idempotent(ticks.added(), change_tick);
    law_checked_tick_idempotent(ticks.changed(), change_tick);
}

} // verus!
