//! Keys that can address a sparse array.

use std::hash::Hash;
use vstd::prelude::*;

verus! {

/// A key that can be turned into a position of a sparse array.
///
/// Two keys with the same `sparse_set_index` address the same slot.
pub trait SparseSetIndex: Clone + PartialEq + Eq + Hash {
    /// The slot this key addresses.
    spec fn slot(&self) -> usize;

    /// Computes the slot this key addresses.
    fn sparse_set_index(&self) -> (r: usize)
        ensures
            r == self.slot(),
    ;

    /// Builds a key from a slot.
    fn get_sparse_set_index(value: usize) -> Self;
}

impl SparseSetIndex for u8 {
    open spec fn slot(&self) -> usize {
        *self as usize
    }

    fn sparse_set_index(&self) -> (r: usize) {
        *self as usize
    }

    fn get_sparse_set_index(value: usize) -> (r: Self)
        ensures
            r == value as u8,
    {
        value as u8
    }
}

impl SparseSetIndex for u16 {
    open spec fn slot(&self) -> usize {
        *self as usize
    }

    fn sparse_set_index(&self) -> (r: usize) {
        *self as usize
    }

    fn get_sparse_set_index(value: usize) -> (r: Self)
        ensures
            r == value as u16,
    {
        value as u16
    }
}

impl SparseSetIndex for u32 {
    open spec fn slot(&self) -> usize {
        *self as usize
    }

    fn sparse_set_index(&self) -> (r: usize) {
        *self as usize
    }

    fn get_sparse_set_index(value: usize) -> (r: Self)
        ensures
            r == value as u32,
    {
        value as u32
    }
}

impl SparseSetIndex for u64 {
    open spec fn slot(&self) -> usize {
        *self as usize
    }

    fn sparse_set_index(&self) -> (r: usize) {
        *self as usize
    }

    fn get_sparse_set_index(value: usize) -> (r: Self)
        ensures
            r == value as u64,
    {
        value as u64
    }
}

impl SparseSetIndex for usize {
    open spec fn slot(&self) -> usize {
        *self
    }

    fn sparse_set_index(&self) -> (r: usize) {
        *self
    }

    fn get_sparse_set_index(value: usize) -> (r: Self)
        ensures
            r == value,
    {
        value
    }
}

/// Turning an integer key into its slot and back gives the key again.
pub proof fn law_integer_index_round_trip(a: u8, b: u16, c: u32, d: u64, e: usize)
    ensures
        (a.slot() as u8) == a,
        (b.slot() as u16) == b,
        (c.slot() as u32) == c,
        d <= usize::MAX ==> (d.slot() as u64) == d,
        e.slot() == e,
{
}

} // verus!
