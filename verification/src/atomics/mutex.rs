//! A mutual-exclusion lock in the shape of a spin lock: a flag that a thread
//! must win before it may touch the payload, and that it gives back when it
//! is done.
//!
//! In a concurrent setting the flag is an atomic boolean: acquisition is a
//! compare-and-swap with acquire ordering, release is a store with release
//! ordering, and a contender spins on relaxed reads until the flag looks
//! free. What those orderings buy — every write made under the lock is seen
//! by the next holder, and two holders never overlap — is here the literal
//! shape of the model: the payload leaves the lock only through a successful
//! acquisition, exactly one acquisition can win between two releases, and a
//! release puts the payload back for the next winner to see.

use vstd::prelude::*;

verus! {

/// A structure for providing mutually exclusive access to shared data.
///
/// The flag `locked` stands for the atomic boolean of a spin lock. The
/// payload sits in `v` while the lock is free; a winning acquisition takes
/// it out, so that holding the payload and holding the lock are one and the
/// same, and a release puts it back.
pub struct Mutex<T> {
    locked: bool,
    v: Option<T>,
}

impl<T> Mutex<T> {
    /// The payload is present exactly while the lock is free.
    #[verifier::type_invariant]
    spec fn inv(self) -> bool {
        self.locked <==> self.v is None
    }

    /// Whether the lock is currently held.
    pub closed spec fn locked(self) -> bool {
        self.locked
    }

    /// The protected payload (meaningful while the lock is free).
    pub closed spec fn value(self) -> T {
        self.v->0
    }

    /// Wrap the given value in a `Mutex` to provide mutually exclusive
    /// access to it. The lock starts out free.
    pub fn new(t: T) -> (m: Mutex<T>)
        ensures
            !m.locked(),
            m.value() == t,
    {
        Mutex { locked: false, v: Some(t) }
    }

    /// One acquisition attempt: the compare-and-swap of the flag from free
    /// to held. It wins exactly when the flag was free, and the winner — and
    /// only the winner — walks away with the payload.
    pub fn try_acquire(&mut self) -> (t: Option<T>)
        ensures
            final(self).locked(),
            old(self).locked() ==> t is None && *final(self) == *old(self),
            !old(self).locked() ==> t == Some(old(self).value()),
    {
        proof {
            use_type_invariant(&*self);
        }
        if self.locked {
            None
        } else {
            let mut won = Mutex { locked: true, v: None };
            core::mem::swap(self, &mut won);
            let Mutex { locked: _, v } = won;
            v
        }
    }

    /// Give the lock back: the store of the free value into the flag. Only a
    /// holder may release, and the payload it hands back is what the next
    /// acquisition will see.
    pub fn release(&mut self, t: T)
        requires
            old(self).locked(),
        ensures
            !final(self).locked(),
            final(self).value() == t,
    {
        proof {
            use_type_invariant(&*self);
        }
        let mut freed = Mutex { locked: false, v: Some(t) };
        core::mem::swap(self, &mut freed);
    }

    /// Acquire exclusive access, apply `f` to the payload, release, and
    /// return `f`'s result.
    ///
    /// The lock must be free when the caller arrives: in the sequential
    /// model nobody else could ever release it, so waiting on a held lock
    /// would spin forever. Between acquisition and release the payload
    /// belongs to `f` alone; afterwards the lock is free again and holds
    /// exactly the value `f` produced.
    pub fn with_lock<F, R>(&mut self, f: F) -> (r: R) where F: FnOnce(T) -> (T, R)
        requires
            !old(self).locked(),
            f.requires((old(self).value(),)),
        ensures
            !final(self).locked(),
            f.ensures((old(self).value(),), (final(self).value(), r)),
    {
        let taken = self.try_acquire();
        // The flag was free, so the compare-and-swap cannot have lost.
        let t = match taken {
            Some(t) => t,
            None => unreached(),
        };
        let (t, r) = f(t);
        self.release(t);
        r
    }
}

/// One locked update: count the payload up by one.
fn bump(v: usize) -> (out: (usize, bool))
    requires
        v < usize::MAX,
    ensures
        out == ((v + 1) as usize, true),
{
    (v + 1, true)
}

/// Increment a counter `rounds` times, each increment performed under the
/// lock. No update is lost: the counter afterwards reads exactly its old
/// value plus `rounds` — the sequential face of what the lock's mutual
/// exclusion buys when the increments come from many threads.
pub fn add_under_lock(m: &mut Mutex<usize>, rounds: usize)
    requires
        !old(m).locked(),
        old(m).value() + rounds <= usize::MAX,
    ensures
        !final(m).locked(),
        final(m).value() == old(m).value() + rounds,
{
    let mut done: usize = 0;
    while done < rounds
        invariant
            done <= rounds,
            !m.locked(),
            m.value() == old(m).value() + done,
            old(m).value() + rounds <= usize::MAX,
        decreases rounds - done,
    {
        m.with_lock(bump);
        done = done + 1;
    }
}

} // verus!
