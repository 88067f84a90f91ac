use sidecar_lifecycle::shutdown::{ShutdownSignal, WaitOutcome};

#[test]
fn new_signal_is_pending() {
    let signal = ShutdownSignal::new();
    assert!(!signal.is_fired());
    assert_eq!(signal.waiting_count(), 0);
}

#[test]
fn unfired_signal_never_lets_a_waiter_through() {
    let mut signal = ShutdownSignal::new();
    for round in 0..3 {
        for waiter in 0..10u64 {
            assert_eq!(signal.wait(waiter), WaitOutcome::Suspended, "round {round}");
        }
    }
    assert!(!signal.is_fired());
    assert_eq!(signal.waiting_count(), 10);
}

#[test]
fn first_fire_hands_back_every_waiter_in_order_of_arrival() {
    let mut signal = ShutdownSignal::new();
    assert_eq!(signal.wait(7), WaitOutcome::Suspended);
    assert_eq!(signal.wait(3), WaitOutcome::Suspended);
    assert_eq!(signal.wait(9), WaitOutcome::Suspended);
    assert_eq!(signal.fire(), Some(vec![7, 3, 9]));
    assert!(signal.is_fired());
    assert_eq!(signal.waiting_count(), 0);
}

#[test]
fn fire_without_waiters_hands_back_nobody() {
    let mut signal = ShutdownSignal::new();
    assert_eq!(signal.fire(), Some(vec![]));
    assert!(signal.is_fired());
}

#[test]
fn waiter_is_remembered_once() {
    let mut signal = ShutdownSignal::new();
    assert_eq!(signal.wait(5), WaitOutcome::Suspended);
    assert_eq!(signal.wait(5), WaitOutcome::Suspended);
    assert_eq!(signal.wait(6), WaitOutcome::Suspended);
    assert_eq!(signal.wait(5), WaitOutcome::Suspended);
    assert!(signal.is_waiting(5));
    assert!(signal.is_waiting(6));
    assert!(!signal.is_waiting(4));
    assert_eq!(signal.waiting_count(), 2);
    assert_eq!(signal.fire(), Some(vec![5, 6]));
}

#[test]
fn wait_after_fire_is_ready_and_leaves_no_trace() {
    let mut signal = ShutdownSignal::new();
    assert_eq!(signal.fire(), Some(vec![]));
    assert_eq!(signal.wait(1), WaitOutcome::Ready);
    assert_eq!(signal.wait(2), WaitOutcome::Ready);
    assert_eq!(signal.wait(1), WaitOutcome::Ready);
    assert_eq!(signal.waiting_count(), 0);
    assert!(!signal.is_waiting(1));
}

#[test]
fn second_fire_is_a_no_op() {
    let mut signal = ShutdownSignal::new();
    assert_eq!(signal.wait(1), WaitOutcome::Suspended);
    assert_eq!(signal.fire(), Some(vec![1]));
    assert_eq!(signal.fire(), None);
    assert!(signal.is_fired());
    assert_eq!(signal.waiting_count(), 0);
}

#[test]
fn firing_many_times_is_firing_once() {
    let mut once = ShutdownSignal::new();
    let mut many = ShutdownSignal::new();
    for waiter in [4u64, 8, 15] {
        once.wait(waiter);
        many.wait(waiter);
    }
    let woken_once = once.fire();
    let woken_many = many.fire();
    let mut transitions = 1;
    for _ in 0..6 {
        if many.fire().is_some() {
            transitions += 1;
        }
    }
    assert_eq!(transitions, 1);
    assert_eq!(woken_once, woken_many);
    assert_eq!(once.is_fired(), many.is_fired());
    assert_eq!(once.waiting_count(), many.waiting_count());
    assert_eq!(once.wait(99), many.wait(99));
}

#[test]
fn two_senders_firing_together_make_one_transition() {
    // Two holders of the sending side share the signal; whichever of their
    // calls reaches it first makes the transition, the other changes nothing.
    for first in 0..2 {
        let mut signal = ShutdownSignal::new();
        assert_eq!(signal.wait(42), WaitOutcome::Suspended);
        let mut results = [None, None];
        results[first] = signal.fire();
        results[1 - first] = signal.fire();
        let transitions = results.iter().filter(|woken| woken.is_some()).count();
        assert_eq!(transitions, 1);
        let woken: Vec<u64> = results.into_iter().flatten().flatten().collect();
        assert_eq!(woken, vec![42]);
        assert!(signal.is_fired());
    }
}

#[test]
fn waiters_after_fire_do_not_reach_a_later_fire() {
    let mut signal = ShutdownSignal::new();
    signal.wait(1);
    assert_eq!(signal.fire(), Some(vec![1]));
    assert_eq!(signal.wait(2), WaitOutcome::Ready);
    assert_eq!(signal.fire(), None);
}
