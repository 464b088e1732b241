//! Flattening of nested, variable-length data into linear memory segments.
//!
//! A [`memory::DynamicMemory`] owns a growing list of segments. Scalars are
//! appended to the segment that is currently active; every array gets a
//! segment of its own and is referred to from its parent by a pointer entry.

pub mod model;
pub mod memory;
pub mod scalar;
pub mod stark;
pub mod laws;
