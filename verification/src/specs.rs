//! The shipped arity specializations of the Cartesian product iterator.

pub mod hom2fcartprod;
pub mod hom3fcartprod;
