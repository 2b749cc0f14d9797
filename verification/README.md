# sparse_set

Sparse storage for entity-component data, verified with Verus.

- `src/index.rs`: the `SparseSetIndex` trait (keys that address a slot) and
  its integer implementations.
- `src/entity.rs`, `src/component.rs`: entities, component ids and
  descriptions, and the change ticks kept per component value.
- `src/sparse_array.rs`: `SparseArray`, optional values addressed by key;
  viewed as a map from slot to value.
- `src/sparse_set.rs`: `SparseSet`, values packed densely with a sparse
  array recording where each key's value sits, and `SparseSets`, the storage
  of every component type keyed by component id.
- `src/component_sparse_set.rs`: `ComponentSparseSet`, the storage of one
  component type, holding each value as its bytes together with its ticks.
- `src/dense_index.rs`: the bookkeeping the sparse sets share, the slots of
  their entries in dense order and the recorded position of each, with the
  lemmas for appending and swap-removing an entry.
- `app/lib.rs`: adapters between that byte storage and `bevy_ptr` pointers;
  they run each component type's drop function on every value a storage
  hands back (replaced, removed or cleared).

Each structure has a well-formedness predicate that its constructors
establish and its operations keep; the contracts state the exact effect of
every operation on the map view and on the dense order, and the proof
functions named `law_*` and `lemma_*` state the laws that relate operations.
