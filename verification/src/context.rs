//! The context that one thread's state machines share: the arena that backs
//! their continuation buffers, and a slot for the input of the step that is
//! running.
use vstd::prelude::*;
use crate::arena::{allocated, deallocated, Arena, ArenaView, Region};

verus! {

/// One arena and one input slot. The slot holds at most one pending value.
pub struct ThreadContext<T> {
    pub arena: Arena,
    pub input: Option<T>,
}

impl<T> ThreadContext<T> {
    /// A context with an arena without blocks and an empty input slot.
    pub fn new() -> (ctx: Self)
        ensures
            ctx.arena.wf(),
            ctx.arena@ == ArenaView::empty(1048576),
            ctx.input is None,
    {
        ThreadContext { arena: Arena::new(), input: None }
    }
}

/// Reserves a buffer of `size` bytes aligned to `align` from the context's
/// arena.
pub fn alloc_buf<T>(ctx: &mut ThreadContext<T>, size: usize, align: usize) -> (region: Region)
    requires
        old(ctx).arena.wf(),
        align > 0,
        old(ctx).arena@.live.len() < usize::MAX,
    ensures
        final(ctx).arena.wf(),
        allocated(old(ctx).arena@, final(ctx).arena@, size, align, region),
        region.len == size,
        region.start % align == 0,
        region.within(final(ctx).arena@.memory),
        forall|r: Region| old(ctx).arena@.live.contains(r) ==> r.disjoint(region),
        final(ctx).input == old(ctx).input,
{
    ctx.arena.allocate(size, align)
}

/// Returns a buffer that `alloc_buf` reserved from this context.
pub fn dealloc_buf<T>(ctx: &mut ThreadContext<T>, region: Region)
    requires
        old(ctx).arena.wf(),
        old(ctx).arena@.live.contains(region),
    ensures
        final(ctx).arena.wf(),
        final(ctx).arena@ == deallocated(old(ctx).arena@, region),
        final(ctx).input == old(ctx).input,
{
    ctx.arena.deallocate(region)
}

/// Puts `input` into the slot, in place of what was there.
pub fn set_input_ptr<T>(ctx: &mut ThreadContext<T>, input: Option<T>)
    ensures
        final(ctx).input == input,
        final(ctx).arena == old(ctx).arena,
{
    ctx.input = input;
}

/// The input slot itself: whoever holds it may take the pending value out.
pub fn get_input_ptr<T>(ctx: &mut ThreadContext<T>) -> (slot: &mut Option<T>)
    ensures
        *slot == old(ctx).input,
        final(ctx).input == *final(slot),
        final(ctx).arena == old(ctx).arena,
{
    &mut ctx.input
}

} // verus!
