//! A cell that enforces the borrow checker's discipline at run time.
//!
//! The cell tracks, in a three-state machine, how its payload is currently
//! lent out: not at all, to `n` readers at once, or to a single writer.
//! Successful borrow calls yield guard objects; a guard stands for the right
//! to read (`Ref`) or to read and write (`RefMut`) the payload, and giving a
//! guard back is the only transition that releases that right. A borrow that
//! would break the discipline is refused by returning nothing — an expected,
//! recoverable outcome, not a fault.

use crate::cell::Cell;
use vstd::prelude::*;

verus! {

/// The borrow state of a `RefCell`: not borrowed at all, borrowed for
/// reading by `n >= 1` readers at once, or borrowed exclusively by a single
/// writer.
#[derive(Clone, Copy, Debug, PartialEq, Eq, Structural)]
pub enum RefState {
    Unshared,
    Shared(usize),
    Exclusive,
}

/// What a shared borrow does to the cell: from `Unshared` or `Shared` it is
/// granted and counts one more reader; from `Exclusive` it is refused and
/// changes nothing. The payload is never touched. The result is the new
/// state, the payload, and whether a guard was handed out.
pub open spec fn borrow_op<T>(state: RefState, value: T) -> (RefState, T, bool) {
    match state {
        RefState::Unshared => (RefState::Shared(1), value, true),
        RefState::Shared(n) => (RefState::Shared((n + 1) as usize), value, true),
        RefState::Exclusive => (RefState::Exclusive, value, false),
    }
}

/// What an exclusive borrow does to the cell: it is granted only from
/// `Unshared`; while any borrow is outstanding it is refused and changes
/// nothing. The payload is never touched.
pub open spec fn borrow_mut_op<T>(state: RefState, value: T) -> (RefState, T, bool) {
    match state {
        RefState::Unshared => (RefState::Exclusive, value, true),
        _ => (state, value, false),
    }
}

/// What a read through a guard yields: the payload, exactly.
pub open spec fn read_op<T>(state: RefState, value: T) -> T {
    value
}

/// What a write through the exclusive guard does: it replaces the payload
/// and leaves the borrow state alone.
pub open spec fn write_op<T>(state: RefState, value: T, v: T) -> (RefState, T) {
    (state, v)
}

/// What giving back a shared guard does: one reader fewer, `Unshared` once
/// the last is gone (every reachable `Shared` state counts at least one
/// reader). Meaningful only from a `Shared` state — a release from any
/// other state would be a bookkeeping fault, which the exec contract rules
/// out.
pub open spec fn release_op<T>(state: RefState, value: T) -> (RefState, T) {
    match state {
        RefState::Shared(n) => if n <= 1 {
            (RefState::Unshared, value)
        } else {
            (RefState::Shared((n - 1) as usize), value)
        },
        _ => (state, value),
    }
}

/// What giving back the exclusive guard does: the cell is unborrowed again,
/// the payload stays as the writer left it.
pub open spec fn release_mut_op<T>(state: RefState, value: T) -> (RefState, T) {
    (RefState::Unshared, value)
}

/// A shared borrow can be granted without the reader count overflowing the
/// machine word it lives in.
pub open spec fn room_to_share(state: RefState) -> bool {
    state matches RefState::Shared(n) ==> n < usize::MAX
}

/// A guard standing for one shared (read-only) borrow of a `RefCell`.
///
/// It is handed out by a successful `borrow` and taken back by `release`;
/// while it lives, `read` yields the payload.
pub struct Ref {
    handed_out: (),
}

/// A guard standing for the single exclusive (read-write) borrow of a
/// `RefCell`.
///
/// It is handed out by a successful `borrow_mut` and taken back by
/// `release_mut`; while it lives, `get_mut` yields the payload.
pub struct RefMut {
    handed_out: (),
}

/// A smart container that ensures the borrow checker's discipline at run
/// time: any number of shared borrows may coexist, an exclusive borrow
/// tolerates no neighbour.
///
/// The borrow state lives in a `Cell`, the one primitive through which all
/// bookkeeping mutation goes.
pub struct RefCell<T> {
    value: T,
    state: Cell<RefState>,
}

impl<T> RefCell<T> {
    /// The current borrow state.
    pub closed spec fn state(self) -> RefState {
        self.state.value()
    }

    /// The current payload.
    pub closed spec fn value(self) -> T {
        self.value
    }

    /// Create a cell around the given value, with no borrow outstanding.
    pub fn new(value: T) -> (cell: RefCell<T>)
        ensures
            cell.state() == RefState::Unshared,
            cell.value() == value,
    {
        RefCell { value, state: Cell::new(RefState::Unshared) }
    }

    /// Borrow the payload for reading, if no exclusive access has been
    /// given out: one more reader is counted and a guard is handed out.
    /// While a writer holds the payload, nothing is handed out and nothing
    /// changes.
    pub fn borrow(&mut self) -> (guard: Option<Ref>)
        requires
            room_to_share(old(self).state()),
        ensures
            ({
                let (s, v, granted) = borrow_op(old(self).state(), old(self).value());
                &&& final(self).state() == s
                &&& final(self).value() == v
                &&& (guard is Some) == granted
            }),
    {
        match self.state.get() {
            RefState::Unshared => {
                self.state.set(RefState::Shared(1));
                Some(Ref { handed_out: () })
            },
            RefState::Shared(n) => {
                self.state.set(RefState::Shared(n + 1));
                Some(Ref { handed_out: () })
            },
            RefState::Exclusive => None,
        }
    }

    /// Take exclusive access to the payload, if nobody holds it at all:
    /// the cell goes to `Exclusive` and the one writer guard is handed out.
    /// While any borrow is outstanding, nothing is handed out and nothing
    /// changes.
    pub fn borrow_mut(&mut self) -> (guard: Option<RefMut>)
        ensures
            ({
                let (s, v, granted) = borrow_mut_op(old(self).state(), old(self).value());
                &&& final(self).state() == s
                &&& final(self).value() == v
                &&& (guard is Some) == granted
            }),
    {
        match self.state.get() {
            RefState::Unshared => {
                self.state.set(RefState::Exclusive);
                Some(RefMut { handed_out: () })
            },
            _ => None,
        }
    }

    /// Read the payload through a shared guard. The guard only exists while
    /// the cell is in a `Shared` state, and the read is exactly the payload.
    pub fn read(&self, _guard: &Ref) -> (v: &T)
        requires
            self.state() matches RefState::Shared(_),
        ensures
            *v == read_op(self.state(), self.value()),
    {
        &self.value
    }

    /// Reach the payload through the exclusive guard, for reading and
    /// writing. The guard only exists while the cell is `Exclusive`; what
    /// the caller leaves behind the returned reference is what the cell
    /// holds afterwards, with the borrow state untouched.
    pub fn get_mut(&mut self, _guard: &RefMut) -> (v: &mut T)
        requires
            old(self).state() == RefState::Exclusive,
        ensures
            *v == old(self).value(),
            (final(self).state(), final(self).value()) == write_op(
                old(self).state(),
                old(self).value(),
                *final(v),
            ),
    {
        &mut self.value
    }

    /// Give a shared guard back: one reader fewer, `Unshared` once the last
    /// is gone. Calling this without a `Shared` state outstanding would be
    /// an internal bookkeeping fault, so the contract rules it out.
    pub fn release(&mut self, guard: Ref)
        requires
            old(self).state() matches RefState::Shared(_),
        ensures
            (final(self).state(), final(self).value()) == release_op(
                old(self).state(),
                old(self).value(),
            ),
    {
        let _ = guard;
        match self.state.get() {
            RefState::Shared(n) => {
                if n <= 1 {
                    self.state.set(RefState::Unshared);
                } else {
                    self.state.set(RefState::Shared(n - 1));
                }
            },
            _ => (),
        }
    }

    /// Give the exclusive guard back: the cell is unborrowed again and the
    /// payload stays as the writer left it. Calling this while the cell is
    /// not `Exclusive` would be an internal bookkeeping fault, so the
    /// contract rules it out.
    pub fn release_mut(&mut self, guard: RefMut)
        requires
            old(self).state() == RefState::Exclusive,
        ensures
            (final(self).state(), final(self).value()) == release_mut_op(
                old(self).state(),
                old(self).value(),
            ),
    {
        let _ = guard;
        self.state.set(RefState::Unshared);
    }
}

/// Mutual exclusion of borrows: once an exclusive borrow has been granted,
/// every further borrow — shared or exclusive — is refused and leaves the
/// cell unchanged, until the exclusive guard is released; after the release
/// both kinds are granted again.
pub proof fn lemma_borrow_mutual_exclusion<T>(state: RefState, value: T)
    requires
        borrow_mut_op(state, value).2,
    ensures
        ({
            let (s1, v1, _) = borrow_mut_op(state, value);
            let (s2, v2) = release_mut_op(s1, v1);
            &&& !borrow_op(s1, v1).2
            &&& borrow_op(s1, v1).0 == s1
            &&& !borrow_mut_op(s1, v1).2
            &&& borrow_mut_op(s1, v1).0 == s1
            &&& borrow_op(s2, v2).2
            &&& borrow_mut_op(s2, v2).2
        }),
{
}

/// Shared borrows coexist: while no exclusive borrow is outstanding (and
/// the reader count has room), a shared borrow is always granted, and
/// granting it never produces an exclusive state — so any number of shared
/// guards may be taken in a row and all be alive at once.
pub proof fn lemma_shared_borrows_coexist<T>(state: RefState, value: T)
    requires
        state != RefState::Exclusive,
        room_to_share(state),
    ensures
        ({
            let (s1, _, granted) = borrow_op(state, value);
            &&& granted
            &&& s1 != RefState::Exclusive
        }),
{
}

/// Guard write visibility: writing through the exclusive guard and then
/// releasing it leaves the cell holding the written value; a fresh shared
/// borrow is then granted, and a read through the new guard yields exactly
/// the written value.
pub proof fn lemma_guard_write_visibility<T>(state: RefState, value: T, written: T)
    requires
        state == RefState::Exclusive,
    ensures
        ({
            let (s1, v1) = write_op(state, value, written);
            let (s2, v2) = release_mut_op(s1, v1);
            let (s3, v3, granted) = borrow_op(s2, v2);
            &&& granted
            &&& read_op(s3, v3) == written
        }),
{
}

} // verus!
