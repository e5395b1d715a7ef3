//! Semantic core of a circuit intermediate representation: its gates, a
//! streaming semantic validator, a gate-set reduction engine, and the builder
//! that allocates wires and renumbers function outputs.
use vstd::prelude::*;

pub mod builder;
pub mod examples;
pub mod field;
pub mod gates;
pub mod reduction;
pub mod structs;
pub mod validator;
pub mod violations;

verus! {

/// Identifies one of the fields declared in a header.
pub type TypeId = u8;

/// Identifies a wire within one type.
pub type WireId = u64;

/// A field element, encoded as little-endian bytes.
pub type Value = Vec<u8>;

} // verus!
