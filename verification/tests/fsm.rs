use arena_fsm::context::ThreadContext;
use arena_fsm::dyn_future::DynFuture;
use arena_fsm::executor::{classify, execute, Poll};
use arena_fsm::{Fsm, Input, PollResult, State, Yield};

#[derive(Debug, Eq, PartialEq)]
enum PingPong {
    Ping,
    Pong,
}

/// Takes inputs until one is `true`; yields after each `false`.
struct Rally {
    input: Input<bool, ()>,
    pause: Option<Yield<()>>,
}

impl Rally {
    fn run(&mut self, slot: &mut Option<bool>, yield_slot: &mut Option<()>) -> bool {
        loop {
            if let Some(pause) = self.pause.as_mut() {
                if let Poll::Pending = pause.poll(yield_slot) {
                    return false;
                }
                self.pause = None;
            }
            let x = self.input.get(slot);
            if x {
                return true;
            } else {
                self.pause = Some(self.input.yield_(()));
            }
        }
    }
}

enum PingPongFuture {
    Ping(Rally),
    Pong(Rally),
}

fn ping(input: Input<bool, ()>) -> PingPongFuture {
    PingPongFuture::Ping(Rally { input, pause: None })
}

fn pong(input: Input<bool, ()>) -> PingPongFuture {
    PingPongFuture::Pong(Rally { input, pause: None })
}

impl State for PingPong {
    type Input = bool;
    type Yield = ();
    type Future = PingPongFuture;

    const MAX_FUTURE_ALIGNMENT: usize = std::mem::align_of::<PingPongFuture>();
    const MAX_FUTURE_SIZE: usize = std::mem::size_of::<PingPongFuture>();

    fn get_future(&self, input: Input<bool, ()>, into: &mut DynFuture<PingPongFuture>) {
        match self {
            PingPong::Ping => into.write(ping(input)),
            PingPong::Pong => into.write(pong(input)),
        }
    }

    fn poll_future(
        future: &mut PingPongFuture,
        input: &mut Option<bool>,
        yield_slot: &mut Option<()>,
    ) -> Poll<PingPong> {
        match future {
            PingPongFuture::Ping(rally) => {
                if rally.run(input, yield_slot) {
                    Poll::Ready(PingPong::Pong)
                } else {
                    Poll::Pending
                }
            }
            PingPongFuture::Pong(rally) => {
                if rally.run(input, yield_slot) {
                    Poll::Ready(PingPong::Ping)
                } else {
                    Poll::Pending
                }
            }
        }
    }
}

#[test]
fn test() {
    let mut ctx = ThreadContext::new();
    let mut fsm = Fsm::new(&mut ctx, PingPong::Ping);
    assert!(matches!(fsm.poll(&mut ctx, true), PollResult::Transition(PingPong::Pong)));
    assert_eq!(*fsm, PingPong::Pong);
    assert!(matches!(fsm.poll(&mut ctx, false), PollResult::Yielded(())));
    assert_eq!(*fsm, PingPong::Pong);
    assert!(matches!(fsm.poll(&mut ctx, true), PollResult::Transition(PingPong::Ping)));
    assert_eq!(*fsm, PingPong::Ping);
}

#[test]
fn fsm_reserves_one_buffer_and_returns_it() {
    let mut ctx = ThreadContext::new();
    assert_eq!(ctx.arena.live_count(), 0);
    let mut fsm = Fsm::new(&mut ctx, PingPong::Ping);
    assert_eq!(ctx.arena.live_count(), 1);
    assert_eq!(ctx.arena.block_count(), 1);
    assert!(matches!(fsm.poll(&mut ctx, true), PollResult::Transition(PingPong::Pong)));
    assert!(matches!(fsm.poll(&mut ctx, true), PollResult::Transition(PingPong::Ping)));
    assert_eq!(ctx.arena.live_count(), 1);
    assert_eq!(ctx.arena.block_count(), 1);
    fsm.release(&mut ctx);
    assert_eq!(ctx.arena.live_count(), 0);
}

#[test]
fn yield_resumes_where_it_left_off() {
    let mut ctx = ThreadContext::new();
    let mut fsm = Fsm::new(&mut ctx, PingPong::Ping);
    assert!(matches!(fsm.poll(&mut ctx, false), PollResult::Yielded(())));
    assert!(matches!(fsm.poll(&mut ctx, false), PollResult::Yielded(())));
    assert_eq!(*fsm, PingPong::Ping);
    assert!(matches!(fsm.poll(&mut ctx, true), PollResult::Transition(PingPong::Pong)));
    assert_eq!(*fsm, PingPong::Pong);
}

#[test]
fn set_state_discards_progress() {
    let mut ctx = ThreadContext::new();
    let mut fsm = Fsm::new(&mut ctx, PingPong::Ping);
    assert!(matches!(fsm.poll(&mut ctx, false), PollResult::Yielded(())));
    fsm.set_state(PingPong::Pong);
    assert_eq!(*fsm, PingPong::Pong);
    assert!(matches!(fsm.poll(&mut ctx, true), PollResult::Transition(PingPong::Ping)));
    assert_eq!(*fsm, PingPong::Ping);
    fsm.set_state(PingPong::Ping);
    assert!(matches!(fsm.poll(&mut ctx, true), PollResult::Transition(PingPong::Pong)));
}

#[test]
fn two_machines_share_one_arena() {
    let mut ctx = ThreadContext::new();
    let mut first = Fsm::new(&mut ctx, PingPong::Ping);
    let mut second = Fsm::new(&mut ctx, PingPong::Pong);
    assert_eq!(ctx.arena.live_count(), 2);
    assert!(matches!(first.poll(&mut ctx, true), PollResult::Transition(PingPong::Pong)));
    assert!(matches!(second.poll(&mut ctx, false), PollResult::Yielded(())));
    assert_eq!(*first, PingPong::Pong);
    assert_eq!(*second, PingPong::Pong);
    second.release(&mut ctx);
    first.release(&mut ctx);
    assert_eq!(ctx.arena.live_count(), 0);
}

/// A machine that stays in one state and counts the steps it has seen.
#[derive(Debug, Eq, PartialEq)]
struct Echo(u8);

struct EchoFuture {
    handle: Option<Input<u8, (u8, bool)>>,
}

impl EchoFuture {
    fn take(&self, input: &mut Option<u8>) -> u8 {
        match &self.handle {
            Some(handle) => handle.get(input),
            None => input.take().unwrap(),
        }
    }
}

impl State for Echo {
    type Input = u8;
    type Yield = (u8, bool);
    type Future = EchoFuture;

    const MAX_FUTURE_ALIGNMENT: usize = std::mem::align_of::<EchoFuture>();
    const MAX_FUTURE_SIZE: usize = std::mem::size_of::<EchoFuture>();

    fn get_future(&self, input: Input<u8, (u8, bool)>, into: &mut DynFuture<EchoFuture>) {
        into.write(EchoFuture { handle: Some(input) });
    }

    /// 0 blocks; 200 runs a suspension point twice and completes with what it
    /// saw; another input below 100 is yielded back, plus one, together with
    /// whether the slot was empty after the input was taken; the rest
    /// completes.
    fn poll_future(
        future: &mut EchoFuture,
        input: &mut Option<u8>,
        yield_slot: &mut Option<(u8, bool)>,
    ) -> Poll<Echo> {
        let value = future.take(input);
        let emptied = input.is_none();
        if value == 0 {
            Poll::Pending
        } else if value == 200 {
            let mut handle = future.handle.unwrap();
            let mut point = handle.yield_((9, true));
            let mut first_slot = None;
            let first = matches!(point.poll(&mut first_slot), Poll::Pending);
            let mut second_slot = None;
            let second = matches!(point.poll(&mut second_slot), Poll::Ready(()));
            let third = matches!(point.poll(&mut second_slot), Poll::Ready(()));
            let as_expected =
                first && second && third && first_slot == Some((9, true)) && second_slot.is_none();
            Poll::Ready(Echo(if as_expected { 1 } else { 0 }))
        } else if value < 100 {
            *yield_slot = Some((value + 1, emptied));
            Poll::Pending
        } else {
            Poll::Ready(Echo(value))
        }
    }
}

#[test]
fn execute_reports_each_outcome() {
    let mut ctx: ThreadContext<u8> = ThreadContext::new();
    let mut future = EchoFuture { handle: None };
    let mut state = Echo(0);
    assert!(matches!(execute(&mut future, &mut state, 0, &mut ctx), PollResult::Blocked));
    assert_eq!(state, Echo(0));
    assert!(matches!(
        execute(&mut future, &mut state, 41, &mut ctx),
        PollResult::Yielded((42, true))
    ));
    assert_eq!(state, Echo(0));
    assert!(matches!(
        execute(&mut future, &mut state, 150, &mut ctx),
        PollResult::Transition(Echo(150))
    ));
    assert_eq!(state, Echo(150));
    assert_eq!(ctx.arena.live_count(), 0);
}

#[test]
fn input_is_taken_once_per_step() {
    let mut ctx = ThreadContext::new();
    let mut fsm = Fsm::new(&mut ctx, Echo(0));
    assert!(matches!(fsm.poll(&mut ctx, 7), PollResult::Yielded((8, true))));
    assert!(ctx.input.is_none());
    assert!(matches!(fsm.poll(&mut ctx, 8), PollResult::Yielded((9, true))));
    assert!(ctx.input.is_none());
}

#[test]
fn a_suspension_point_hands_its_value_over_once() {
    let mut ctx = ThreadContext::new();
    let mut fsm = Fsm::new(&mut ctx, Echo(0));
    assert!(matches!(fsm.poll(&mut ctx, 200), PollResult::Transition(Echo(1))));
    assert_eq!(*fsm, Echo(1));
}

#[test]
fn a_suspended_step_without_a_value_is_blocked() {
    let mut ctx = ThreadContext::new();
    let mut fsm = Fsm::new(&mut ctx, Echo(3));
    assert!(matches!(fsm.poll(&mut ctx, 0), PollResult::Blocked));
    assert!(matches!(fsm.poll(&mut ctx, 0), PollResult::Blocked));
    assert_eq!(*fsm, Echo(3));
    assert!(ctx.input.is_none());
}

#[test]
fn classify_tells_the_three_outcomes_apart() {
    let mut slot = PingPong::Ping;
    assert!(matches!(
        classify(Poll::Ready(PingPong::Pong), None, &mut slot),
        PollResult::Transition(PingPong::Pong)
    ));
    assert_eq!(slot, PingPong::Pong);
    assert!(matches!(
        classify(Poll::Ready(PingPong::Ping), Some(()), &mut slot),
        PollResult::Transition(PingPong::Ping)
    ));
    assert_eq!(slot, PingPong::Ping);
    assert!(matches!(classify(Poll::Pending, Some(()), &mut slot), PollResult::Yielded(())));
    assert_eq!(slot, PingPong::Ping);
    assert!(matches!(classify::<PingPong>(Poll::Pending, None, &mut slot), PollResult::Blocked));
    assert_eq!(slot, PingPong::Ping);
}

/// A machine that declares less room than its continuation takes.
#[derive(Debug, Eq, PartialEq)]
struct Cramped(u8);

impl State for Cramped {
    type Input = ();
    type Yield = ();
    type Future = [u64; 4];

    const MAX_FUTURE_ALIGNMENT: usize = 8;
    const MAX_FUTURE_SIZE: usize = 31;

    fn get_future(&self, _input: Input<(), ()>, into: &mut DynFuture<[u64; 4]>) {
        into.write([0; 4]);
    }

    fn poll_future(
        _future: &mut [u64; 4],
        _input: &mut Option<()>,
        _yield_slot: &mut Option<()>,
    ) -> Poll<Cramped> {
        Poll::Pending
    }
}

#[test]
fn try_new_refuses_an_understated_footprint() {
    let mut ctx = ThreadContext::new();
    match Fsm::try_new(&mut ctx, Cramped(5)) {
        Ok(_) => panic!("a footprint of 31 bytes cannot hold 32"),
        Err(state) => assert_eq!(state, Cramped(5)),
    }
    assert_eq!(ctx.arena.live_count(), 0);
    assert_eq!(ctx.arena.block_count(), 0);
}

#[test]
fn try_new_starts_a_machine_that_fits() {
    let mut ctx = ThreadContext::new();
    let mut fsm = match Fsm::try_new(&mut ctx, PingPong::Ping) {
        Ok(fsm) => fsm,
        Err(_) => panic!("the footprint is that of the continuation"),
    };
    assert_eq!(ctx.arena.live_count(), 1);
    assert!(matches!(fsm.poll(&mut ctx, true), PollResult::Transition(PingPong::Pong)));
    assert_eq!(*fsm, PingPong::Pong);
}
