//! A threshold-gated, order-preserving parallel map.
//!
//! The library applies a caller-supplied transform to every element of a
//! vector. Inputs no longer than a policy threshold are mapped inline;
//! longer inputs are partitioned into fixed-size, ordinal-tagged chunks,
//! each chunk is handed to its own worker, and the per-chunk results are
//! concatenated in chunk order so that the output preserves input order.

pub mod chunking;
pub mod laws;
pub mod parmap;
pub mod policy;
