//! Flat, arena-based storage for GFA assembly graphs.
//!
//! A graph is a bundle of pools: contiguous runs of fixed-layout records
//! addressed by dense integer ids and spans. The bundle can be built
//! incrementally on the heap by the streaming parser, or read back from a
//! byte region (such as a memory-mapped file) without a deserialization
//! pass.

pub mod pool;
pub mod flat;
pub mod gfaline;
pub mod parse;
pub mod file;
