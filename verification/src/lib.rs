//! Lazy, memory-bounded N-ary Cartesian product enumeration over homogeneous
//! source sequences: sequences whose elements all share one item type.
//!
//! Given N source sequences, the product types in [`specs`] produce, one tuple
//! at a time and without materializing any intermediate collection, every
//! N-tuple formed by picking one element from each sequence, in lexicographic
//! (odometer) order with the last sequence varying fastest.

pub mod cursor;
pub mod odometer;
pub mod specs;
