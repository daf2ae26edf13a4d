//! A small runtime for finite state machines whose states are suspendable
//! computations. One continuation is alive at a time; it lives in a buffer
//! reserved once from an arena and is advanced one step per input.
use vstd::prelude::*;
use std::marker::PhantomData;
use std::ops::Deref;
use crate::arena::allocated;
use crate::context::ThreadContext;
use crate::dyn_future::DynFuture;
use crate::executor::{execute, Poll};

pub mod arena;
pub mod context;
pub mod dyn_future;
pub mod executor;

verus! {

/// A state of a state machine.
///
/// An implementation says how large its continuations can get, how the
/// continuation of a state is made, and how a continuation runs one step.
pub trait State: Sized {
    /// The size of the largest continuation that `get_future` stores.
    const MAX_FUTURE_SIZE: usize;

    /// The alignment of the most aligned continuation that `get_future`
    /// stores.
    const MAX_FUTURE_ALIGNMENT: usize;

    /// Data passed to the state machine with each step.
    type Input;

    /// Data yielded when a step ends without a transition.
    type Yield;

    /// The continuations of this machine's states.
    type Future;

    /// Whether `future` is a continuation that `get_future` may store for
    /// this state. An implementation that says nothing accepts any.
    open spec fn starts(&self, future: Self::Future) -> bool {
        true
    }

    /// Whether one step may take the continuation `before`, given `input`,
    /// to `after` with this outcome and this content of the yield slot. An
    /// implementation that says nothing accepts any step.
    open spec fn steps(
        before: Self::Future,
        input: Self::Input,
        after: Self::Future,
        outcome: Poll<Self>,
        yielded: Option<Self::Yield>,
    ) -> bool {
        true
    }

    /// Stores the continuation of this state in `into`, whose buffer stays
    /// where it is.
    fn get_future(&self, args: Input<Self::Input, Self::Yield>, into: &mut DynFuture<Self::Future>)
        requires
            old(into).fits(),
        ensures
            final(into).value() is Some,
            self.starts(final(into).value()->0),
            final(into).buf() == old(into).buf(),
            final(into).align() == old(into).align(),
    ;

    /// Runs `future` until it completes with the next state or suspends.
    /// `input` holds the input of this step; a value left in `yield_slot`
    /// is yielded to the caller of the step.
    fn poll_future(
        future: &mut Self::Future,
        input: &mut Option<Self::Input>,
        yield_slot: &mut Option<Self::Yield>,
    ) -> (outcome: Poll<Self>)
        requires
            *old(input) is Some,
            *old(yield_slot) is None,
        ensures
            Self::steps(
                *old(future),
                old(input)->0,
                *final(future),
                outcome,
                *final(yield_slot),
            ),
    ;
}

/// The outcome of one step of a state machine.
pub enum PollResult<'a, S: State> {
    /// The continuation waits for something that a step does not bring.
    Blocked,
    /// The continuation paused and handed this value back.
    Yielded(S::Yield),
    /// The machine moved to this state.
    Transition(&'a S),
}

/// A state machine: its current state and the continuation of that state.
pub struct Fsm<S: State> {
    state: S,
    future: DynFuture<S::Future>,
}

impl<S: State> Fsm<S> {
    /// The current state.
    pub closed spec fn state(&self) -> S {
        self.state
    }

    /// The holder of the current state's continuation.
    pub closed spec fn future(&self) -> DynFuture<S::Future> {
        self.future
    }

    /// A continuation is installed, in a buffer that is large enough for any
    /// continuation of `S`.
    pub open spec fn wf(&self) -> bool {
        &&& self.future().value() is Some
        &&& self.future().fits()
    }

    /// A machine in `state`, with the continuation of `state` installed in a
    /// buffer newly reserved from the context's arena.
    pub fn new(ctx: &mut ThreadContext<S::Input>, state: S) -> (fsm: Self)
        requires
            old(ctx).arena.wf(),
            Self::can_start(old(ctx)),
        ensures
            fsm.wf(),
            fsm.state() == state,
            state.starts(fsm.future().value()->0),
            fsm.future().align() == S::MAX_FUTURE_ALIGNMENT,
            final(ctx).arena.wf(),
            allocated(
                old(ctx).arena@,
                final(ctx).arena@,
                S::MAX_FUTURE_SIZE,
                S::MAX_FUTURE_ALIGNMENT,
                fsm.future().buf(),
            ),
            final(ctx).input == old(ctx).input,
    {
        let mut future = DynFuture::new(ctx, S::MAX_FUTURE_SIZE, S::MAX_FUTURE_ALIGNMENT);
        state.get_future(Input { _phantom: PhantomData }, &mut future);
        Fsm { future, state }
    }

    /// The footprint that `S` declares covers its continuations, and the
    /// arena can count one more buffer.
    pub open spec fn can_start(ctx: &ThreadContext<S::Input>) -> bool {
        &&& ctx.arena@.live.len() < usize::MAX
        &&& S::MAX_FUTURE_ALIGNMENT > 0
        &&& vstd::layout::size_of::<S::Future>() <= S::MAX_FUTURE_SIZE
        &&& vstd::layout::align_of::<S::Future>() <= S::MAX_FUTURE_ALIGNMENT
    }

    /// As `new`, after testing what `new` asks of its caller. Where that
    /// does not hold, nothing is reserved and `state` is handed back.
    pub fn try_new(ctx: &mut ThreadContext<S::Input>, state: S) -> (made: Result<Self, S>)
        requires
            old(ctx).arena.wf(),
        ensures
            final(ctx).arena.wf(),
            final(ctx).input == old(ctx).input,
            made is Ok <==> Self::can_start(old(ctx)),
            match made {
                Ok(fsm) => {
                    &&& fsm.wf()
                    &&& fsm.state() == state
                    &&& state.starts(fsm.future().value()->0)
                    &&& fsm.future().align() == S::MAX_FUTURE_ALIGNMENT
                    &&& allocated(
                        old(ctx).arena@,
                        final(ctx).arena@,
                        S::MAX_FUTURE_SIZE,
                        S::MAX_FUTURE_ALIGNMENT,
                        fsm.future().buf(),
                    )
                },
                Err(back) => back == state && final(ctx).arena == old(ctx).arena,
            },
    {
        if ctx.arena.live_count() < usize::MAX && S::MAX_FUTURE_ALIGNMENT > 0
            && std::mem::size_of::<S::Future>() <= S::MAX_FUTURE_SIZE && std::mem::align_of::<
            S::Future,
        >() <= S::MAX_FUTURE_ALIGNMENT {
            Ok(Self::new(ctx, state))
        } else {
            Err(state)
        }
    }

    /// Runs the machine for one step with `input`.
    ///
    /// The continuation takes the step, within what `S::steps` allows. On a
    /// transition the new state is stored and its continuation takes the
    /// place of the completed one, in the same buffer. Otherwise the state
    /// stays as it is and the continuation is where the step left it.
    pub fn poll(&mut self, ctx: &mut ThreadContext<S::Input>, input: S::Input) -> (res: PollResult<
        '_,
        S,
    >)
        requires
            old(self).wf(),
        ensures
            final(self).wf(),
            final(self).future().buf() == old(self).future().buf(),
            final(self).future().align() == old(self).future().align(),
            final(ctx).arena == old(ctx).arena,
            match res {
                PollResult::Transition(state) => {
                    &&& *state == final(self).state()
                    &&& state.starts(final(self).future().value()->0)
                    &&& exists|after: S::Future, yielded: Option<S::Yield>| #[trigger]
                        S::steps(
                            old(self).future().value()->0,
                            input,
                            after,
                            Poll::Ready(*state),
                            yielded,
                        )
                },
                PollResult::Yielded(value) => {
                    &&& final(self).state() == old(self).state()
                    &&& S::steps(
                        old(self).future().value()->0,
                        input,
                        final(self).future().value()->0,
                        Poll::Pending,
                        Some(value),
                    )
                },
                PollResult::Blocked => {
                    &&& final(self).state() == old(self).state()
                    &&& S::steps(
                        old(self).future().value()->0,
                        input,
                        final(self).future().value()->0,
                        Poll::Pending,
                        None,
                    )
                },
            },
    {
        let res = execute(self.future.get(), &mut self.state, input, ctx);
        if let PollResult::Transition(state) = res {
            state.get_future(Input { _phantom: PhantomData }, &mut self.future)
        }
        res
    }

    /// Makes `state` the current state and installs its continuation. What
    /// the continuation before it had done is discarded.
    pub fn set_state(&mut self, state: S)
        requires
            old(self).future().fits(),
        ensures
            final(self).wf(),
            final(self).state() == state,
            state.starts(final(self).future().value()->0),
            final(self).future().buf() == old(self).future().buf(),
            final(self).future().align() == old(self).future().align(),
    {
        self.state = state;
        self.state.get_future(Input { _phantom: PhantomData }, &mut self.future);
    }

    /// Destroys the continuation and returns its buffer to the arena.
    pub fn release(self, ctx: &mut ThreadContext<S::Input>)
        requires
            old(ctx).arena.wf(),
            old(ctx).arena@.live.contains(self.future().buf()),
        ensures
            final(ctx).arena.wf(),
            final(ctx).arena@ == crate::arena::deallocated(old(ctx).arena@, self.future().buf()),
            final(ctx).input == old(ctx).input,
    {
        let Fsm { state: _, future } = self;
        future.release(ctx);
    }
}

impl<S: State> Deref for Fsm<S> {
    type Target = S;

    fn deref(&self) -> (state: &S)
        ensures
            *state == self.state(),
    {
        &self.state
    }
}

/// The handle through which a continuation takes its input and yields.
pub struct Input<T, Y> {
    _phantom: PhantomData<(T, Y)>,
}

impl<T, Y> Copy for Input<T, Y> {

}

impl<T, Y> Clone for Input<T, Y> {
    fn clone(&self) -> (copy: Self)
        ensures
            copy == *self,
    {
        *self
    }
}

/// A suspension point that carries a value to the caller of the step.
pub struct Yield<Y> {
    value: Option<Y>,
}

impl<Y> Yield<Y> {
    /// The value that has not been handed over yet.
    pub closed spec fn pending(&self) -> Option<Y> {
        self.value
    }
}

/// The size of what `F` returns.
pub fn size_of_impl_return<A, R, F: FnOnce(A) -> R>(_f: &F) -> (size: usize)
    ensures
        size == vstd::layout::size_of::<R>(),
{
    std::mem::size_of::<R>()
}

/// The alignment of what `F` returns.
pub fn align_of_impl_return<A, R, F: FnOnce(A) -> R>(_f: &F) -> (align: usize)
    ensures
        align == vstd::layout::align_of::<R>(),
{
    std::mem::align_of::<R>()
}

/// The larger of two numbers.
pub fn const_max(a: usize, b: usize) -> (max: usize)
    ensures
        max >= a,
        max >= b,
        max == a || max == b,
{
    if a > b {
        a
    } else {
        b
    }
}

} // verus!
