//! Columnar encoding of stacks of records.
//!
//! A container holds a stack of values of one type. `encode` writes the
//! whole stack out as a few flat byte buffers, appended to a buffer list;
//! `decode` takes them off the list again and rebuilds the stack. Plain
//! values go into a vector and come out as one buffer. Vectors of values are
//! split into a stream of lengths and a stream of elements, each kept in a
//! container of its own, so that vectors nest to any depth.

pub mod bytes;
pub mod cycle;
pub mod error;
pub mod flat;
pub mod nested;
pub mod pod;
pub mod scalar;
pub mod shape;
pub mod stack;

pub use crate::cycle::{_test_simpleser, bounce, transfer};
pub use crate::error::DecodeError;
pub use crate::pod::{to_bytes_vec, to_typed_vec, Pod};
pub use crate::stack::{SimpleSerialize, SimpleSerializeVec};
