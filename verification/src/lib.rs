//! Foundational ownership and synchronization primitives, with verified
//! contracts: a spin-lock style mutual-exclusion wrapper, a single-threaded
//! value cell, a runtime borrow-tracking cell with guard objects, and a
//! reference-counted shared-ownership scheme, together with two containers
//! built in the same style: a double-ended list and an insertion-ordered
//! map, each specified against its mathematical model.

pub mod atomics;
pub mod cell;
pub mod collections;
pub mod rc;
pub mod refcell;
