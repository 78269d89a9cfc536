//! A single-threaded container whose payload is read by copy and replaced
//! whole: no reference to the live payload is ever handed out, so a
//! replacement can never invalidate an outstanding reference.

use vstd::prelude::*;

verus! {

/// A container for a single value.
///
/// The payload is only ever observed by copying it out (`get`, for payload
/// types with copy semantics) or overwritten whole (`set`). Because no
/// reference into the payload escapes, replacing it is always safe.
pub struct Cell<T> {
    value: T,
}

impl<T> Cell<T> {
    /// The current payload, as contracts see it.
    pub closed spec fn value(self) -> T {
        self.value
    }

    /// The cell as it stands after its payload is replaced by `v`.
    pub closed spec fn spec_set(self, v: T) -> Cell<T> {
        Cell { value: v }
    }

    /// Create a new cell holding `value`.
    pub fn new(value: T) -> (cell: Cell<T>)
        ensures
            cell.value() == value,
    {
        Cell { value }
    }

    /// Overwrite the payload. Always succeeds and has no effect besides the
    /// overwrite.
    pub fn set(&mut self, value: T)
        ensures
            *final(self) == old(self).spec_set(value),
            final(self).value() == value,
    {
        self.value = value;
    }

    /// A copy of the current payload.
    pub fn get(&self) -> (value: T) where T: Copy
        ensures
            value == self.value(),
    {
        self.value
    }
}

/// Round trip: storing `v` and then reading gives back exactly `v`, for every
/// cell and every value. `set` leaves the cell in the state `spec_set(v)`, and
/// `get` returns that state's payload, which is `v`.
pub proof fn lemma_cell_round_trip<T>(cell: Cell<T>, v: T)
    ensures
        cell.spec_set(v).value() == v,
{
}

} // verus!
