//! Entity identifiers.

use vstd::prelude::*;

use crate::index::SparseSetIndex;

verus! {

/// An entity: an id, reused once the entity is gone, and the generation
/// that tells the reuses of one id apart.
#[derive(Clone, Copy, Debug, Hash, PartialEq, Eq, Structural)]
pub struct Entity {
    generation: u32,
    id: u32,
}

impl Entity {
    /// The id of this entity.
    pub closed spec fn spec_id(self) -> u32 {
        self.id
    }

    /// The generation of this entity.
    pub closed spec fn spec_generation(self) -> u32 {
        self.generation
    }

    /// An entity with the given id, in generation zero.
    pub fn from_raw(id: u32) -> (r: Entity)
        ensures
            r.id() == id,
            r.generation() == 0,
    {
        Entity { id, generation: 0 }
    }

    /// The id of this entity.
    #[verifier::when_used_as_spec(spec_id)]
    pub fn id(self) -> (r: u32)
        ensures
            r == self.spec_id(),
    {
        self.id
    }

    /// The generation of this entity.
    #[verifier::when_used_as_spec(spec_generation)]
    pub fn generation(self) -> (r: u32)
        ensures
            r == self.spec_generation(),
    {
        self.generation
    }

    /// Two entities are equal exactly when their ids and generations are.
    pub proof fn lemma_eq_fields(self, other: Entity)
        ensures
            (self == other) <==> (self.id() == other.id() && self.generation() == other.generation()),
    {
    }
}

impl SparseSetIndex for Entity {
    open spec fn slot(&self) -> usize {
        self.id() as usize
    }

    fn sparse_set_index(&self) -> (r: usize) {
        self.id() as usize
    }

    fn get_sparse_set_index(value: usize) -> (r: Self)
        ensures
            r.id() == value as u32,
            r.generation() == 0,
    {
        Entity::from_raw(value as u32)
    }
}

/// An entity's slot is its id, and building an entity back from that slot
/// keeps the id.
pub proof fn law_entity_index_round_trip(e: Entity)
    ensures
        e.slot() == e.id() as usize,
        (e.slot() as u32) == e.id(),
{
}

} // verus!
