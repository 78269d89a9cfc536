//! Reference-counted shared ownership of heap-allocated values.
//!
//! A handle (`Rc`) names one inner block; many handles may name the same
//! block. The block carries, beside the payload, a counter that always reads
//! the number of handles handed out for it and not yet given back. Cloning a
//! handle counts the counter up; giving a handle back counts it down, and
//! the block is deallocated in the very step that takes the counter from one
//! to zero — never earlier, never twice.
//!
//! The blocks live in an explicit heap (`RcHeap`): a single owner of record
//! for every allocation, through which every clone and every release goes.
//! Handles are plain values without copy semantics, so the only way to
//! multiply or destroy them is through the heap's verified operations. All
//! of this is single-threaded by design: the counter sits in a `Cell` and is
//! read and written without any synchronization.

use crate::cell::Cell;
use vstd::multiset::Multiset;
use vstd::prelude::*;

verus! {

/// The inner representation of one allocation: the payload and the number
/// of handles that name it, kept in a `Cell` as the one mutable slot.
struct RcInner<T> {
    value: T,
    refcount: Cell<usize>,
}

/// A handle that shares ownership of one inner block of an `RcHeap`.
///
/// Handles are deliberately not copyable: new ones come only from
/// `RcHeap::clone_handle`, and `RcHeap::drop_handle` consumes one — so the
/// counter in the block tracks the handles faithfully.
pub struct Rc<T> {
    index: usize,
    inner: core::marker::PhantomData<T>,
}

impl<T> Rc<T> {
    /// Which slot of the heap this handle names.
    pub closed spec fn index(self) -> int {
        self.index as int
    }
}

/// The owner of record for all inner blocks: slot `i` holds the block that
/// handles with index `i` name, or nothing once that block has been
/// deallocated.
pub struct RcHeap<T> {
    slots: Vec<Option<RcInner<T>>>,
}

/// How many of the slots currently hold a live block.
spec fn count_live<T>(s: Seq<Option<RcInner<T>>>) -> nat
    decreases s.len(),
{
    if s.len() == 0 {
        0
    } else {
        count_live(s.drop_last()) + if s.last() is Some {
            1nat
        } else {
            0nat
        }
    }
}

proof fn lemma_count_live_update<T>(s: Seq<Option<RcInner<T>>>, i: int, v: Option<RcInner<T>>)
    requires
        0 <= i < s.len(),
    ensures
        count_live(s.update(i, v)) + (if s[i] is Some { 1nat } else { 0nat }) == count_live(s) + (
        if v is Some {
            1nat
        } else {
            0nat
        }),
    decreases s.len(),
{
    if i == s.len() - 1 {
        assert(s.update(i, v).drop_last() =~= s.drop_last());
    } else {
        assert(s.update(i, v).drop_last() =~= s.drop_last().update(i, v));
        lemma_count_live_update(s.drop_last(), i, v);
    }
}

impl<T> RcHeap<T> {
    /// How many slots have ever been allocated (live or not).
    pub closed spec fn slot_count(self) -> int {
        self.slots@.len() as int
    }

    /// Whether slot `i` holds a live (not yet deallocated) block.
    pub closed spec fn live(self, i: int) -> bool {
        0 <= i < self.slots@.len() && self.slots@[i] is Some
    }

    /// The payload of the live block in slot `i`.
    pub closed spec fn value_at(self, i: int) -> T {
        self.slots@[i].unwrap().value
    }

    /// What the counter of the live block in slot `i` reads.
    pub closed spec fn count_at(self, i: int) -> nat {
        self.slots@[i].unwrap().refcount.value() as nat
    }

    /// How many blocks are currently live.
    pub closed spec fn live_count(self) -> nat {
        count_live(self.slots@)
    }

    /// An empty heap: no blocks, no handles.
    pub fn new() -> (heap: RcHeap<T>)
        ensures
            heap.slot_count() == 0,
            heap.live_count() == 0,
            forall|i: int| !heap.live(i),
    {
        RcHeap { slots: Vec::new() }
    }

    /// Count the live blocks, one slot at a time.
    pub fn live_blocks(&self) -> (n: usize)
        ensures
            n as nat == self.live_count(),
    {
        let mut n: usize = 0;
        let mut i: usize = 0;
        while i < self.slots.len()
            invariant
                i <= self.slots@.len(),
                n as nat == count_live(self.slots@.take(i as int)),
                n <= i,
            decreases self.slots@.len() - i,
        {
            if vstd::std_specs::vec::vec_index(&self.slots, i).is_some() {
                n = n + 1;
            }
            i = i + 1;
            proof {
                assert(self.slots@.take(i as int).drop_last() =~= self.slots@.take(i as int - 1));
            }
        }
        proof {
            assert(self.slots@.take(self.slots@.len() as int) =~= self.slots@);
        }
        n
    }

    /// Allocate one inner block holding `value` with its counter at one,
    /// and hand out the first handle for it. Every other slot is untouched.
    pub fn allocate(&mut self, value: T) -> (handle: Rc<T>)
        ensures
            handle.index() == old(self).slot_count(),
            final(self).slot_count() == old(self).slot_count() + 1,
            final(self).live(handle.index()),
            final(self).value_at(handle.index()) == value,
            final(self).count_at(handle.index()) == 1,
            final(self).live_count() == old(self).live_count() + 1,
            forall|i: int|
                i != handle.index() ==> #[trigger] final(self).live(i) == old(self).live(i),
            forall|i: int|
                old(self).live(i) ==> final(self).value_at(i) == old(self).value_at(i)
                    && final(self).count_at(i) == old(self).count_at(i),
    {
        let index = self.slots.len();
        self.slots.push(Some(RcInner { value, refcount: Cell::new(1) }));
        proof {
            assert(self.slots@.drop_last() =~= old(self).slots@);
        }
        Rc { index, inner: core::marker::PhantomData }
    }

    /// Read the payload that `handle` names. Shared, read-only access: this
    /// is all a handle gives out on its own.
    pub fn get(&self, handle: &Rc<T>) -> (value: &T)
        requires
            self.live(handle.index()),
        ensures
            *value == self.value_at(handle.index()),
    {
        match vstd::std_specs::vec::vec_index(&self.slots, handle.index) {
            Some(inner) => &inner.value,
            None => unreached(),
        }
    }

    /// What the counter of the block named by `handle` reads.
    pub fn ref_count(&self, handle: &Rc<T>) -> (count: usize)
        requires
            self.live(handle.index()),
        ensures
            count as nat == self.count_at(handle.index()),
    {
        match vstd::std_specs::vec::vec_index(&self.slots, handle.index) {
            Some(inner) => inner.refcount.get(),
            None => unreached(),
        }
    }

    /// Produce one more handle for the block `handle` names, counting its
    /// counter up by one. Nothing is allocated and no payload moves; every
    /// other slot is untouched.
    pub fn clone_handle(&mut self, handle: &Rc<T>) -> (twin: Rc<T>)
        requires
            old(self).live(handle.index()),
            old(self).count_at(handle.index()) < usize::MAX,
        ensures
            twin.index() == handle.index(),
            final(self).slot_count() == old(self).slot_count(),
            final(self).live_count() == old(self).live_count(),
            final(self).live(handle.index()),
            final(self).value_at(handle.index()) == old(self).value_at(handle.index()),
            final(self).count_at(handle.index()) == old(self).count_at(handle.index()) + 1,
            forall|i: int| #[trigger] final(self).live(i) == old(self).live(i),
            forall|i: int|
                old(self).live(i) && i != handle.index() ==> final(self).value_at(i) == old(
                    self,
                ).value_at(i) && final(self).count_at(i) == old(self).count_at(i),
    {
        let slot = vstd::std_specs::vec::vec_index_mut(&mut self.slots, handle.index);
        match slot {
            Some(inner) => {
                let count = inner.refcount.get();
                inner.refcount.set(count + 1);
            },
            None => unreached(),
        }
        proof {
            lemma_count_live_update(
                old(self).slots@,
                handle.index(),
                self.slots@[handle.index()],
            );
            assert(self.slots@ =~= old(self).slots@.update(
                handle.index(),
                self.slots@[handle.index()],
            ));
        }
        Rc { index: handle.index, inner: core::marker::PhantomData }
    }

    /// Give one handle back. If its block's counter read one — this was the
    /// last handle — the block and its payload are deallocated in the same
    /// step; otherwise only the counter goes down by one and the payload
    /// survives untouched. Every other slot is untouched either way.
    pub fn drop_handle(&mut self, handle: Rc<T>)
        requires
            old(self).live(handle.index()),
        ensures
            final(self).slot_count() == old(self).slot_count(),
            old(self).count_at(handle.index()) <= 1 ==> !final(self).live(handle.index())
                && final(self).live_count() == old(self).live_count() - 1,
            old(self).count_at(handle.index()) > 1 ==> final(self).live(handle.index())
                && final(self).value_at(handle.index()) == old(self).value_at(handle.index())
                && final(self).count_at(handle.index()) == old(self).count_at(handle.index()) - 1
                && final(self).live_count() == old(self).live_count(),
            forall|i: int|
                i != handle.index() ==> #[trigger] final(self).live(i) == old(self).live(i),
            forall|i: int|
                old(self).live(i) && i != handle.index() ==> final(self).value_at(i) == old(
                    self,
                ).value_at(i) && final(self).count_at(i) == old(self).count_at(i),
    {
        let slot = vstd::std_specs::vec::vec_index_mut(&mut self.slots, handle.index);
        match slot {
            Some(inner) => {
                let count = inner.refcount.get();
                if count <= 1 {
                    // The last handle goes: deallocate the block.
                    *slot = None;
                } else {
                    inner.refcount.set(count - 1);
                }
            },
            None => unreached(),
        }
        proof {
            lemma_count_live_update(
                old(self).slots@,
                handle.index(),
                self.slots@[handle.index()],
            );
            assert(self.slots@ =~= old(self).slots@.update(
                handle.index(),
                self.slots@[handle.index()],
            ));
        }
    }
}

/// One step of the shared-ownership protocol, named after the heap
/// operation that performs it: allocating a fresh block, cloning a live
/// handle of slot `i`, or dropping a live handle of slot `i`.
pub enum RcOp {
    Allocate,
    CloneHandle(int),
    DropHandle(int),
}

/// The protocol's bookkeeping, as the ghost invariant sees it: what each
/// live slot's counter reads, the collection of live handles (by the slot
/// they name), and the next fresh slot index.
pub struct RcProtocol {
    pub counts: Map<int, nat>,
    pub handles: Multiset<int>,
    pub next: int,
}

/// The state before any allocation: no blocks, no handles.
pub open spec fn rc_init(p: RcProtocol) -> bool {
    &&& p.counts == Map::<int, nat>::empty()
    &&& p.handles == Multiset::<int>::empty()
    &&& p.next == 0
}

/// Cloning and dropping need a live handle of the named slot; allocation is
/// always possible.
pub open spec fn rc_op_allowed(p: RcProtocol, op: RcOp) -> bool {
    match op {
        RcOp::Allocate => true,
        RcOp::CloneHandle(i) => p.handles.count(i) > 0,
        RcOp::DropHandle(i) => p.handles.count(i) > 0,
    }
}

/// What one step does to the bookkeeping — exactly what the corresponding
/// heap operation does to the real counters: allocation starts a fresh slot
/// at one, a clone counts its slot up, a drop counts its slot down and
/// deallocates the block (removes the slot) when the pre-decrement counter
/// read one.
pub open spec fn rc_step(p: RcProtocol, op: RcOp) -> RcProtocol {
    match op {
        RcOp::Allocate => RcProtocol {
            counts: p.counts.insert(p.next, 1),
            handles: p.handles.insert(p.next),
            next: p.next + 1,
        },
        RcOp::CloneHandle(i) => RcProtocol {
            counts: p.counts.insert(i, (p.counts[i] + 1) as nat),
            handles: p.handles.insert(i),
            ..p
        },
        RcOp::DropHandle(i) => if p.counts[i] <= 1 {
            RcProtocol { counts: p.counts.remove(i), handles: p.handles.remove(i), ..p }
        } else {
            RcProtocol {
                counts: p.counts.insert(i, (p.counts[i] - 1) as nat),
                handles: p.handles.remove(i),
                ..p
            }
        },
    }
}

/// The refcount invariant: a slot is live exactly while handles name it,
/// its counter reads exactly the number of live handles that do, and every
/// handle names an already-allocated slot.
pub open spec fn rc_inv(p: RcProtocol) -> bool {
    &&& forall|i: int| #[trigger] p.counts.contains_key(i) <==> p.handles.count(i) > 0
    &&& forall|i: int|
        p.counts.contains_key(i) ==> #[trigger] p.counts[i] == p.handles.count(i)
    &&& forall|i: int| p.handles.count(i) > 0 ==> i < p.next
}

/// The state before any allocation satisfies the refcount invariant.
pub proof fn lemma_refcount_invariant_init(p: RcProtocol)
    requires
        rc_init(p),
    ensures
        rc_inv(p),
{
}

/// Every allowed step preserves the refcount invariant; and a step
/// deallocates a live block if and only if it drops that block's last
/// handle.
pub proof fn lemma_refcount_invariant_step(p: RcProtocol, op: RcOp)
    requires
        rc_inv(p),
        rc_op_allowed(p, op),
    ensures
        rc_inv(rc_step(p, op)),
        forall|i: int|
            (#[trigger] p.counts.contains_key(i) && !rc_step(p, op).counts.contains_key(i))
                <==> (op == RcOp::DropHandle(i) && p.handles.count(i) == 1),
{
}

/// The protocol's run: the state after a sequence of steps, applied in
/// order.
pub open spec fn rc_run(p0: RcProtocol, ops: Seq<RcOp>) -> RcProtocol
    decreases ops.len(),
{
    if ops.len() == 0 {
        p0
    } else {
        rc_step(rc_run(p0, ops.drop_last()), ops.last())
    }
}

/// Every step of the sequence is allowed in the state it runs from.
pub open spec fn rc_ops_allowed(p0: RcProtocol, ops: Seq<RcOp>) -> bool
    decreases ops.len(),
{
    ops.len() == 0 || (rc_ops_allowed(p0, ops.drop_last()) && rc_op_allowed(
        rc_run(p0, ops.drop_last()),
        ops.last(),
    ))
}

/// For any sequence of allocate/clone/drop steps, each allowed in its turn,
/// starting from the empty state: the refcount invariant holds throughout —
/// in particular, every live block's counter always equals the number of
/// live handles that name it, and a block goes away exactly when its last
/// handle is dropped (by the step lemma above).
pub proof fn lemma_refcount_invariant(p0: RcProtocol, ops: Seq<RcOp>)
    requires
        rc_init(p0),
        rc_ops_allowed(p0, ops),
    ensures
        rc_inv(rc_run(p0, ops)),
    decreases ops.len(),
{
    if ops.len() == 0 {
        lemma_refcount_invariant_init(p0);
    } else {
        lemma_refcount_invariant(p0, ops.drop_last());
        lemma_refcount_invariant_step(rc_run(p0, ops.drop_last()), ops.last());
    }
}

} // verus!
