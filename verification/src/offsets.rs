//! The offset store.
//!
//! Offsets are kept in a `smallvec::SmallVec` so that containers with few
//! rows need no heap allocation for their metadata.  Verus cannot look
//! inside the `smallvec` crate (its `Array` trait bound cannot be
//! declared to the verifier), so the vector is held in an opaque struct,
//! its contents are named by an uninterpreted sequence, and the three
//! operations the container needs are wrapped with trusted contracts.

use vstd::prelude::*;

verus! {

/// An append-only store of row offsets, backed by a small-buffer vector
/// that keeps up to eight offsets inline before spilling to the heap.
#[verifier::external_body]
pub struct OffsetStore {
    inner: smallvec::SmallVec<[usize; 8]>,
}

/// The sequence of offsets held by the store, in order.
pub uninterp spec fn stored_offsets(v: OffsetStore) -> Seq<usize>;

impl OffsetStore {
    /// Relies on `smallvec::SmallVec::new`: the new vector is empty.
    #[verifier::external_body]
    pub(crate) fn new() -> (r: OffsetStore)
        ensures
            stored_offsets(r) == Seq::<usize>::empty(),
    {
        OffsetStore { inner: smallvec::SmallVec::new() }
    }

    /// Relies on `smallvec::SmallVec::push`: the value is appended at the
    /// end.  Like `Vec::push`, it returns normally unless the allocator
    /// fails.
    #[verifier::external_body]
    pub(crate) fn push(&mut self, x: usize)
        ensures
            stored_offsets(*final(self)) == stored_offsets(*old(self)).push(x),
    {
        self.inner.push(x)
    }

    /// Relies on `smallvec::SmallVec::as_slice`: the slice holds the
    /// entire vector, in order.
    #[verifier::external_body]
    pub(crate) fn as_slice(&self) -> (r: &[usize])
        ensures
            r@ == stored_offsets(*self),
    {
        self.inner.as_slice()
    }
}

} // verus!
