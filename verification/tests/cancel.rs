//! The cancellation token and its waiters.

use orka::cancel::{Cancelled, TokenState, WakerSlots};
use orka::test_util::ExecutionCounter;
use orka::CancelToken;
use std::sync::Arc;
use std::task::{Wake, Waker};

struct Counting(ExecutionCounter);

impl Wake for Counting {
    fn wake(self: Arc<Self>) {
        self.0.increment();
    }
}

fn counting_waker(counter: &ExecutionCounter) -> Waker {
    Waker::from(Arc::new(Counting(counter.clone())))
}

fn noop_waker() -> Waker {
    counting_waker(&ExecutionCounter::new())
}

/// A waiter that is released when dropped.
struct Waiter(Cancelled);

impl Drop for Waiter {
    fn drop(&mut self) {
        self.0.release();
    }
}

fn is_pending(waiter: &mut Waiter) -> bool {
    !waiter.0.poll_with(&noop_waker())
}

#[test]
fn repolling_one_waiter_registers_a_single_slot() {
    let token = CancelToken::new();
    let mut waiter = Waiter(token.cancelled());
    for _ in 0..100 {
        assert!(is_pending(&mut waiter));
    }
    assert_eq!(token.slot_count(), 1);
}

#[test]
fn a_dropped_waiter_frees_its_slot_for_reuse() {
    let token = CancelToken::new();
    for _ in 0..100 {
        let mut waiter = Waiter(token.cancelled());
        assert!(is_pending(&mut waiter));
        assert_eq!(token.slot_count(), 1);
    }
    assert_eq!(token.waiter_count(), 0);
}

#[test]
fn concurrent_waiters_each_get_their_own_slot() {
    let token = CancelToken::new();
    let mut a = Waiter(token.cancelled());
    let mut b = Waiter(token.cancelled());
    assert!(is_pending(&mut a));
    assert!(is_pending(&mut b));
    assert_eq!(token.slot_count(), 2);
}

#[test]
fn a_cancelled_token_resolves_without_registering() {
    let token = CancelToken::new();
    token.cancel();
    let mut waiter = Waiter(token.cancelled());
    assert!(!is_pending(&mut waiter));
    assert_eq!(token.slot_count(), 0);
}

#[test]
fn cancel_is_idempotent() {
    let token = CancelToken::new();
    assert!(!token.is_cancelled());
    token.cancel();
    token.cancel();
    assert!(token.is_cancelled());
}

#[test]
fn cancelled_resolves_for_a_token_cancelled_before_the_await() {
    let token = CancelToken::new();
    token.cancel();
    assert!(token.cancelled().poll_with(&noop_waker()));
}

#[test]
fn cancelled_resolves_for_a_token_cancelled_during_the_await() {
    let token = CancelToken::new();
    let watcher = token.clone();
    let woken = ExecutionCounter::new();
    let mut waiter = Waiter(token.cancelled());
    assert!(!waiter.0.poll_with(&counting_waker(&woken)));
    watcher.cancel();
    assert_eq!(woken.get(), 1, "a cancel through another handle wakes the waiter");
    assert!(waiter.0.poll_with(&counting_waker(&woken)));
}

#[test]
fn cancelling_wakes_every_waiter_once() {
    let token = CancelToken::new();
    let (first, second) = (ExecutionCounter::new(), ExecutionCounter::new());
    let mut a = Waiter(token.cancelled());
    let mut b = Waiter(token.cancelled());
    assert!(!a.0.poll_with(&counting_waker(&first)));
    assert!(!b.0.poll_with(&counting_waker(&second)));
    token.clone().cancel();
    token.cancel();
    assert_eq!((first.get(), second.get()), (1, 1));
    assert!(a.0.poll_with(&noop_waker()));
}

#[test]
fn repolling_with_another_waker_replaces_the_first() {
    let token = CancelToken::new();
    let (first, second) = (ExecutionCounter::new(), ExecutionCounter::new());
    let mut waiter = Waiter(token.cancelled());
    assert!(!waiter.0.poll_with(&counting_waker(&first)));
    assert!(!waiter.0.poll_with(&counting_waker(&second)));
    token.cancel();
    assert_eq!((first.get(), second.get()), (0, 1));
}

#[test]
fn dropping_a_registered_waiter_after_cancellation_does_not_panic() {
    let token = CancelToken::new();
    let mut waiter = Waiter(token.cancelled());
    assert!(is_pending(&mut waiter));
    token.cancel();
    drop(waiter);
    assert_eq!(token.slot_count(), 0);
}

#[test]
fn a_freed_slot_is_taken_before_the_list_grows() {
    let mut slots = WakerSlots::new();
    assert_eq!(slots.register(None, &noop_waker()), 0);
    assert_eq!(slots.register(None, &noop_waker()), 1);
    assert_eq!(slots.register(None, &noop_waker()), 2);
    slots.free(1);
    assert_eq!((slots.len(), slots.occupied()), (3, 2));
    assert_eq!(slots.register(None, &noop_waker()), 1);
    assert_eq!(slots.register(Some(7), &noop_waker()), 3, "a slot that is gone is not kept");
    slots.free(9);
    assert_eq!((slots.len(), slots.occupied()), (4, 4));
    assert_eq!(slots.drain().len(), 4);
    assert_eq!(slots.len(), 0);
}

#[test]
fn a_poll_registers_only_while_the_token_is_unset() {
    let mut state = TokenState::new();
    assert!(!state.is_set());
    assert_eq!(state.poll(None, &noop_waker()), Some(0));
    assert_eq!(state.poll(None, &noop_waker()), Some(1));
    assert_eq!(state.poll(Some(0), &noop_waker()), Some(0));
    assert_eq!((state.waiters.len(), state.waiters.occupied()), (2, 2));
    state.release(0);
    assert_eq!((state.waiters.len(), state.waiters.occupied()), (2, 1));
    assert_eq!(state.poll(None, &noop_waker()), Some(0));
    assert_eq!(state.cancel().len(), 2);
    assert!(state.is_set());
    assert_eq!(state.poll(Some(1), &noop_waker()), None);
    assert_eq!(state.poll(None, &noop_waker()), None);
    assert_eq!(state.waiters.len(), 0);
    assert_eq!(state.cancel().len(), 0);
}

#[test]
fn cancelling_any_clone_wakes_each_waiter_once() {
    let token = CancelToken::new();
    let counters: Vec<ExecutionCounter> = (0..3).map(|_| ExecutionCounter::new()).collect();
    let mut waiters: Vec<Waiter> = Vec::new();
    for counter in &counters {
        let mut waiter = Waiter(token.clone().cancelled());
        for _ in 0..4 {
            assert!(!waiter.0.poll_with(&counting_waker(counter)));
        }
        waiters.push(waiter);
    }
    let given_up = waiters.remove(1);
    drop(given_up);
    token.clone().cancel();
    token.cancel();
    assert_eq!(counters.iter().map(|c| c.get()).collect::<Vec<usize>>(), vec![1, 0, 1]);
    for waiter in &mut waiters {
        assert!(!is_pending(waiter));
    }
    let other = CancelToken::new();
    assert!(!other.is_cancelled(), "another token is unaffected");
    assert!(token.clone().is_cancelled());
}

#[test]
fn a_poll_concludes_with_the_slot_it_got() {
    let mut waiter = CancelToken::new().cancelled();
    assert!(!waiter.conclude(Some(3)));
    assert_eq!(waiter.slot, Some(3));
    assert!(waiter.conclude(None));
    assert_eq!(waiter.slot, Some(3));
}
