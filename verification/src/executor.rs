//! One step of a continuation: the input goes into the context's slot, the
//! continuation runs until it completes or suspends, and what it left behind
//! decides how the step is reported.
use vstd::prelude::*;
use crate::context::{get_input_ptr, set_input_ptr, ThreadContext};
use crate::{Input, PollResult, State, Yield};

verus! {

/// What one step of a continuation comes to.
pub enum Poll<T> {
    /// The continuation completed with this value.
    Ready(T),
    /// The continuation suspended.
    Pending,
}

/// How a finished step is reported: a completed continuation moves its state
/// into `store_state`; a suspended one yielded if it left a value in the
/// yield slot, and is blocked if it left none.
pub fn classify<'a, S: State>(
    outcome: Poll<S>,
    yielded: Option<S::Yield>,
    store_state: &'a mut S,
) -> (res: PollResult<'a, S>)
    ensures
        match outcome {
            Poll::Ready(state) => *final(store_state) == state && res == PollResult::<
                S,
            >::Transition(final(store_state)),
            Poll::Pending => *final(store_state) == *old(store_state) && res == (match yielded {
                Some(value) => PollResult::<S>::Yielded(value),
                None => PollResult::<S>::Blocked,
            }),
        },
{
    match outcome {
        Poll::Ready(state) => {
            *store_state = state;
            PollResult::Transition(store_state)
        },
        Poll::Pending => match yielded {
            Some(value) => PollResult::Yielded(value),
            None => PollResult::Blocked,
        },
    }
}

/// Advances `future` by one step with `input` queued for it.
///
/// The continuation decides the outcome, within what `S::steps` allows.
/// Whatever it does, the arena is left alone, and `store_state` changes only
/// on a transition, which refers to the state then stored there.
pub fn execute<'a, S: State>(
    future: &mut S::Future,
    store_state: &'a mut S,
    input: S::Input,
    ctx: &mut ThreadContext<S::Input>,
) -> (res: PollResult<'a, S>)
    ensures
        final(ctx).arena == old(ctx).arena,
        match res {
            PollResult::Transition(state) => {
                &&& *state == *final(store_state)
                &&& exists|yielded: Option<S::Yield>| #[trigger]
                    S::steps(*old(future), input, *final(future), Poll::Ready(*state), yielded)
            },
            PollResult::Yielded(value) => {
                &&& *final(store_state) == *old(store_state)
                &&& S::steps(*old(future), input, *final(future), Poll::Pending, Some(value))
            },
            PollResult::Blocked => {
                &&& *final(store_state) == *old(store_state)
                &&& S::steps(*old(future), input, *final(future), Poll::Pending, None)
            },
        },
{
    set_input_ptr(ctx, Some(input));
    let mut yield_result: Option<S::Yield> = None;
    let outcome = S::poll_future(future, get_input_ptr(ctx), &mut yield_result);
    classify(outcome, yield_result, store_state)
}

impl<T, Y> Input<T, Y> {
    /// A suspension point that hands `value` back to whoever runs the step.
    pub fn yield_(&mut self, value: Y) -> (point: Yield<Y>)
        ensures
            point.pending() == Some(value),
    {
        Yield { value: Some(value) }
    }

    /// Consumes the input queued for this step. The slot is empty afterwards:
    /// within one step the input can be taken once.
    pub fn get(&self, slot: &mut Option<T>) -> (input: T)
        requires
            *old(slot) is Some,
        ensures
            Some(input) == *old(slot),
            *final(slot) is None,
    {
        slot.take().unwrap()
    }
}

impl<Y> Yield<Y> {
    /// Runs the suspension point. The first time it moves its value into the
    /// yield slot and suspends; after that it is done and touches nothing.
    pub fn poll(&mut self, yield_slot: &mut Option<Y>) -> (res: Poll<()>)
        ensures
            final(self).pending() is None,
            match old(self).pending() {
                Some(value) => res is Pending && *final(yield_slot) == Some(value),
                None => res == Poll::Ready(()) && *final(yield_slot) == *old(yield_slot),
            },
    {
        match self.value.take() {
            Some(value) => {
                *yield_slot = Some(value);
                Poll::Pending
            },
            None => Poll::Ready(()),
        }
    }
}

} // verus!
