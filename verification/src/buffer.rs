//! Reference-counted handles over shared native resources.
//!
//! A `BufferArena<T>` models the native allocator's heap for one kind of
//! resource: each slot carries a reference count, a released mark and the
//! resource's payload. An `AVBufferRef<T>` is a shared handle to one slot,
//! type-tagged by payload so that handles to different resource kinds (a
//! device connection, a frame pool) cannot be confused. Taking a reference
//! increments the count; dropping one decrements it, and the resource is
//! released exactly when the last reference goes away.

use core::marker::PhantomData;
use vstd::prelude::*;

verus! {

/// A shared, reference-counted handle over one native resource, tagged by
/// the payload type it refers to.
pub struct AVBufferRef<T> {
    /// The arena slot this handle refers to.
    pub slot: usize,
    /// Carries the payload type tag; holds no data.
    pub tag: PhantomData<T>,
}

/// The heap of reference-counted resources of one payload type.
pub struct BufferArena<T> {
    counts: Vec<u64>,
    freed: Vec<bool>,
    data: Vec<T>,
}

/// The reference counts and released marks after one reference to slot `s`
/// is dropped: the count goes down by one and the resource is released
/// exactly when that was the last reference.
pub open spec fn spec_unref(counts: Seq<u64>, freed: Seq<bool>, s: int) -> (Seq<u64>, Seq<bool>) {
    (counts.update(s, (counts[s] - 1) as u64), freed.update(s, counts[s] == 1))
}

impl<T> BufferArena<T> {
    /// The number of slots ever allocated.
    pub closed spec fn n_slots(&self) -> nat {
        self.counts@.len()
    }

    /// The reference counts, by slot.
    pub closed spec fn counts(&self) -> Seq<u64> {
        self.counts@
    }

    /// The released marks, by slot.
    pub closed spec fn freed(&self) -> Seq<bool> {
        self.freed@
    }

    /// The payloads, by slot.
    pub closed spec fn payloads(&self) -> Seq<T> {
        self.data@
    }

    /// Well-formed: the three columns agree in length, and no resource
    /// with a live reference has been released.
    pub open spec fn wf(&self) -> bool {
        &&& self.counts().len() == self.n_slots()
        &&& self.freed().len() == self.n_slots()
        &&& self.payloads().len() == self.n_slots()
        &&& forall|i: int|
            0 <= i < self.n_slots() ==> ((#[trigger] self.counts()[i]) >= 1 ==> !self.freed()[i])
    }

    /// A handle is live when its slot holds at least one reference.
    pub open spec fn live(&self, r: AVBufferRef<T>) -> bool {
        r.slot < self.n_slots() && self.counts()[r.slot as int] >= 1
    }

    /// An empty arena.
    pub fn new() -> (a: Self)
        ensures
            a.wf(),
            a.n_slots() == 0,
    {
        BufferArena { counts: Vec::new(), freed: Vec::new(), data: Vec::new() }
    }

    /// Allocates a fresh resource with one reference and returns the
    /// handle; every existing slot is untouched. This never hands out a
    /// handle to nothing: the returned handle is live.
    pub fn allocate(&mut self, data: T) -> (r: AVBufferRef<T>)
        requires
            old(self).wf(),
        ensures
            final(self).wf(),
            r.slot == old(self).n_slots(),
            final(self).n_slots() == old(self).n_slots() + 1,
            final(self).counts() == old(self).counts().push(1),
            final(self).freed() == old(self).freed().push(false),
            final(self).payloads() == old(self).payloads().push(data),
            final(self).live(r),
    {
        let slot = self.counts.len();
        self.counts.push(1);
        self.freed.push(false);
        self.data.push(data);
        AVBufferRef { slot, tag: PhantomData }
    }

    /// Takes one more reference to the resource behind a live handle and
    /// returns the new handle; only that slot's count changes.
    pub fn buffer_ref(&mut self, r: &AVBufferRef<T>) -> (r2: AVBufferRef<T>)
        requires
            old(self).wf(),
            old(self).live(*r),
            old(self).counts()[r.slot as int] < u64::MAX,
        ensures
            final(self).wf(),
            r2.slot == r.slot,
            final(self).live(r2) && final(self).live(*r),
            final(self).n_slots() == old(self).n_slots(),
            final(self).counts() == old(self).counts().update(
                r.slot as int,
                (old(self).counts()[r.slot as int] + 1) as u64,
            ),
            final(self).freed() == old(self).freed(),
            final(self).payloads() == old(self).payloads(),
    {
        let c = self.counts[r.slot];
        self.counts.set(r.slot, c + 1);
        AVBufferRef { slot: r.slot, tag: PhantomData }
    }

    /// Drops one reference: the slot's count goes down by one, and the
    /// resource is released exactly when this was the last reference. The
    /// handle is consumed; nothing else changes.
    pub fn buffer_unref(&mut self, r: AVBufferRef<T>)
        requires
            old(self).wf(),
            old(self).live(r),
        ensures
            final(self).wf(),
            final(self).n_slots() == old(self).n_slots(),
            (final(self).counts(), final(self).freed()) == spec_unref(
                old(self).counts(),
                old(self).freed(),
                r.slot as int,
            ),
            final(self).payloads() == old(self).payloads(),
    {
        let c = self.counts[r.slot];
        self.counts.set(r.slot, c - 1);
        if c == 1 {
            self.freed.set(r.slot, true);
            assert(self.freed@ =~= old(self).freed().update(r.slot as int, c == 1));
        } else {
            assert(self.freed@ =~= old(self).freed().update(r.slot as int, c == 1));
        }
    }

    /// Whether a handle is live, decidable at run time.
    pub fn is_live(&self, r: &AVBufferRef<T>) -> (b: bool)
        requires
            self.wf(),
        ensures
            b == self.live(*r),
    {
        r.slot < self.counts.len() && self.counts[r.slot] >= 1
    }

    /// The reference count of a handle's slot.
    pub fn ref_count(&self, r: &AVBufferRef<T>) -> (c: u64)
        requires
            self.wf(),
            r.slot < self.n_slots(),
        ensures
            c == self.counts()[r.slot as int],
    {
        self.counts[r.slot]
    }

    /// Replaces the payload behind a live handle.
    pub fn set_data(&mut self, r: &AVBufferRef<T>, value: T)
        requires
            old(self).wf(),
            old(self).live(*r),
        ensures
            final(self).wf(),
            final(self).n_slots() == old(self).n_slots(),
            final(self).counts() == old(self).counts(),
            final(self).freed() == old(self).freed(),
            final(self).payloads() == old(self).payloads().update(r.slot as int, value),
    {
        self.data.set(r.slot, value);
    }
}

impl<T> AVBufferRef<T> {
    /// The resource's payload, while this handle is live; nothing for a
    /// handle whose slot no longer holds a reference.
    pub fn get_data<'a>(&self, arena: &'a BufferArena<T>) -> (d: Option<&'a T>)
        requires
            arena.wf(),
        ensures
            match d {
                Some(v) => arena.live(*self) && *v == arena.payloads()[self.slot as int],
                None => !arena.live(*self),
            },
    {
        if arena.is_live(self) {
            Some(arena.get_payload(self))
        } else {
            None
        }
    }
}

impl<T> BufferArena<T> {
    /// The payload behind a live handle.
    fn get_payload(&self, r: &AVBufferRef<T>) -> (d: &T)
        requires
            self.wf(),
            self.live(*r),
        ensures
            *d == self.payloads()[r.slot as int],
    {
        &self.data[r.slot]
    }
}

/// Shared release law: with two references to one resource, dropping one
/// leaves the resource live and unreleased (usable via the other handle);
/// dropping the second releases it, at that drop and not before — the
/// release happens exactly once.
pub proof fn lemma_shared_release(counts: Seq<u64>, freed: Seq<bool>, s: int)
    requires
        0 <= s < counts.len(),
        counts.len() == freed.len(),
        counts[s] == 2,
        !freed[s],
    ensures
        ({
            let (c1, f1) = spec_unref(counts, freed, s);
            let (c2, f2) = spec_unref(c1, f1, s);
            &&& c1[s] == 1 && !f1[s]
            &&& c2[s] == 0 && f2[s]
        }),
{
}

} // verus!
