//! Sparse storage for entity-component data: a sparse array keyed by small
//! integer indices, a dense-packed sparse set built on top of it, and the
//! type-erased per-component storage used by the entity component system.

pub mod component;
pub mod component_sparse_set;
pub mod dense_index;
pub mod entity;
pub mod index;
pub mod sparse_array;
pub mod sparse_set;

pub use component::{ComponentId, ComponentInfo, ComponentTicks};
pub use component_sparse_set::ComponentSparseSet;
pub use entity::Entity;
pub use index::SparseSetIndex;
pub use sparse_array::SparseArray;
pub use sparse_set::{SparseSet, SparseSets};
