//! A reusable holder for the one continuation that a state machine has in
//! flight. Its buffer is reserved from the arena once; every later
//! continuation takes the place of the one before it.
use vstd::prelude::*;
use crate::arena::{allocated, deallocated, Region};
use crate::context::{alloc_buf, dealloc_buf, ThreadContext};

verus! {

/// A reserved buffer and the continuation of type `F` that occupies it, if
/// any.
pub struct DynFuture<F> {
    buf: Region,
    align: usize,
    value: Option<F>,
}

impl<F> DynFuture<F> {
    /// The buffer reserved for the continuation.
    pub closed spec fn buf(&self) -> Region {
        self.buf
    }

    /// The alignment the buffer was reserved with.
    pub closed spec fn align(&self) -> usize {
        self.align
    }

    /// The continuation that is stored, if any.
    pub closed spec fn value(&self) -> Option<F> {
        self.value
    }

    /// The reserved footprint is large enough for a value of type `F`.
    pub open spec fn fits(&self) -> bool {
        &&& vstd::layout::size_of::<F>() <= self.buf().len
        &&& vstd::layout::align_of::<F>() <= self.align()
    }

    /// Reserves a footprint of `size` bytes aligned to `align`; nothing is
    /// stored yet.
    pub fn new<T>(ctx: &mut ThreadContext<T>, size: usize, align: usize) -> (holder: Self)
        requires
            old(ctx).arena.wf(),
            align > 0,
            old(ctx).arena@.live.len() < usize::MAX,
        ensures
            final(ctx).arena.wf(),
            allocated(old(ctx).arena@, final(ctx).arena@, size, align, holder.buf()),
            final(ctx).input == old(ctx).input,
            holder.buf().len == size,
            holder.buf().start % align == 0,
            holder.align() == align,
            holder.value() is None,
    {
        DynFuture { buf: alloc_buf(ctx, size, align), align, value: None }
    }

    /// Stores `future`. A continuation that was stored before is destroyed
    /// first, so that at most one is alive; the buffer stays where it is.
    pub fn write(&mut self, future: F)
        requires
            old(self).fits(),
        ensures
            final(self).value() == Some(future),
            final(self).buf() == old(self).buf(),
            final(self).align() == old(self).align(),
    {
        self.value = None;
        self.value = Some(future);
    }

    /// The stored continuation, to advance it by one step.
    pub fn get(&mut self) -> (future: &mut F)
        requires
            old(self).value() is Some,
        ensures
            *future == old(self).value()->0,
            final(self).value() == Some(*final(future)),
            final(self).buf() == old(self).buf(),
            final(self).align() == old(self).align(),
    {
        self.value.as_mut().unwrap()
    }

    /// Tells whether a continuation is stored.
    pub fn is_inhabited(&self) -> (inhabited: bool)
        ensures
            inhabited == self.value() is Some,
    {
        self.value.is_some()
    }

    /// Destroys the stored continuation, if any, and returns the buffer to
    /// the arena.
    pub fn release<T>(self, ctx: &mut ThreadContext<T>)
        requires
            old(ctx).arena.wf(),
            old(ctx).arena@.live.contains(self.buf()),
        ensures
            final(ctx).arena.wf(),
            final(ctx).arena@ == deallocated(old(ctx).arena@, self.buf()),
            final(ctx).input == old(ctx).input,
    {
        let DynFuture { buf, align: _, value } = self;
        let _ = value;
        dealloc_buf(ctx, buf);
    }
}

} // verus!
