//! Synchronization primitives whose real-world implementations rest on
//! atomic memory operations.

pub mod mutex;
