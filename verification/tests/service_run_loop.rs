use sidecar_lifecycle::address::Address;
use sidecar_lifecycle::error::ServiceError;
use sidecar_lifecycle::run_loop::{LoopAction, LoopEvent, LoopPhase, LoopProgress, RunLoop};

fn run_events(
    bind: Address,
    events: Vec<LoopEvent>,
) -> (Vec<LoopAction>, Option<Result<(), ServiceError>>) {
    let (mut run_loop, first) = RunLoop::begin(bind);
    let mut actions = vec![first];
    for event in events {
        match run_loop.step(event) {
            LoopProgress::Continue(next, action) => {
                run_loop = next;
                actions.push(action);
            }
            LoopProgress::Finished(result) => return (actions, Some(result)),
        }
    }
    (actions, None)
}

#[test]
fn loop_binds_publishes_serves_drains_and_returns() {
    let at = Address::loopback(5393);
    let (actions, result) = run_events(
        Address::loopback_os_assigned(),
        vec![
            LoopEvent::Bound(at),
            LoopEvent::Published,
            LoopEvent::Accepted,
            LoopEvent::Accepted,
            LoopEvent::ShutdownObserved,
            LoopEvent::Drained,
        ],
    );
    assert_eq!(
        actions,
        vec![
            LoopAction::Bind { addr: Address::loopback(0) },
            LoopAction::Publish { at },
            LoopAction::Serve,
            LoopAction::Handle,
            LoopAction::Handle,
            LoopAction::Drain,
        ]
    );
    assert_eq!(result, Some(Ok(())));
}

#[test]
fn loop_returns_when_the_grace_period_is_over() {
    let at = Address::loopback(8000);
    let (_, result) = run_events(
        at,
        vec![
            LoopEvent::Bound(at),
            LoopEvent::Published,
            LoopEvent::Accepted,
            LoopEvent::ShutdownObserved,
            LoopEvent::GraceElapsed,
        ],
    );
    assert_eq!(result, Some(Ok(())));
}

#[test]
fn loop_without_stop_signal_keeps_serving() {
    let at = Address::loopback(8000);
    let mut events = vec![LoopEvent::Bound(at), LoopEvent::Published];
    for _ in 0..50 {
        events.push(LoopEvent::Accepted);
        events.push(LoopEvent::Drained);
        events.push(LoopEvent::GraceElapsed);
    }
    let (actions, result) = run_events(at, events);
    assert_eq!(result, None);
    assert_eq!(actions.iter().filter(|a| **a == LoopAction::Handle).count(), 50);
    assert!(!actions.contains(&LoopAction::Drain));
}

#[test]
fn occupied_port_is_bind_failed() {
    let (actions, result) = run_events(Address::loopback(8000), vec![LoopEvent::BindFailed]);
    assert_eq!(actions, vec![LoopAction::Bind { addr: Address::loopback(8000) }]);
    assert_eq!(result, Some(Err(ServiceError::BindFailed)));
}

#[test]
fn listener_bound_elsewhere_is_bind_failed() {
    let (_, result) =
        run_events(Address::loopback(8000), vec![LoopEvent::Bound(Address::loopback(8001))]);
    assert_eq!(result, Some(Err(ServiceError::BindFailed)));
    let (_, result) =
        run_events(Address::loopback(0), vec![LoopEvent::Bound(Address::loopback(0))]);
    assert_eq!(result, Some(Err(ServiceError::BindFailed)));
}

#[test]
fn fault_ends_the_loop_in_every_phase() {
    let at = Address::loopback(8000);
    let prefixes: Vec<Vec<LoopEvent>> = vec![
        vec![],
        vec![LoopEvent::Bound(at)],
        vec![LoopEvent::Bound(at), LoopEvent::Published],
        vec![LoopEvent::Bound(at), LoopEvent::Published, LoopEvent::ShutdownObserved],
    ];
    for mut events in prefixes {
        events.push(LoopEvent::Fault("disk full".to_string()));
        let (_, result) = run_events(at, events);
        assert_eq!(result, Some(Err(ServiceError::Internal("disk full".to_string()))));
    }
}

#[test]
fn nothing_is_accepted_before_the_address_is_published() {
    let at = Address::loopback(8000);
    let (actions, result) = run_events(
        at,
        vec![LoopEvent::Accepted, LoopEvent::Bound(at), LoopEvent::Accepted, LoopEvent::Published],
    );
    assert_eq!(
        actions,
        vec![
            LoopAction::Bind { addr: at },
            LoopAction::Carry,
            LoopAction::Publish { at },
            LoopAction::Carry,
            LoopAction::Serve,
        ]
    );
    assert_eq!(result, None);
}

#[test]
fn connections_are_refused_once_the_stop_signal_is_observed() {
    let at = Address::loopback(8000);
    let (actions, result) = run_events(
        at,
        vec![
            LoopEvent::Bound(at),
            LoopEvent::Published,
            LoopEvent::Accepted,
            LoopEvent::ShutdownObserved,
            LoopEvent::Accepted,
            LoopEvent::ShutdownObserved,
            LoopEvent::Accepted,
        ],
    );
    assert_eq!(
        actions[3..],
        [
            LoopAction::Handle,
            LoopAction::Drain,
            LoopAction::Refuse,
            LoopAction::Carry,
            LoopAction::Refuse,
        ]
    );
    assert_eq!(result, None);
}

#[test]
fn published_address_stays_the_same() {
    let at = Address::loopback(8000);
    let (run_loop, _) = RunLoop::begin(Address::loopback_os_assigned());
    assert_eq!(run_loop.bound_address(), None);
    assert_eq!(run_loop.phase(), LoopPhase::Binding { asked: Address::loopback(0) });
    let mut run_loop = run_loop;
    let events = vec![
        LoopEvent::Bound(at),
        LoopEvent::Bound(Address::loopback(9000)),
        LoopEvent::Published,
        LoopEvent::Bound(Address::loopback(9001)),
        LoopEvent::Accepted,
        LoopEvent::ShutdownObserved,
        LoopEvent::Bound(Address::loopback(9002)),
    ];
    for event in events {
        let LoopProgress::Continue(next, action) = run_loop.step(event) else {
            panic!("the loop must go on");
        };
        assert!(!matches!(action, LoopAction::Publish { at: other } if other != at));
        assert_eq!(next.bound_address(), Some(at));
        run_loop = next;
    }
    assert_eq!(run_loop.phase(), LoopPhase::Draining { at });
}

#[test]
fn stop_signal_before_serving_does_not_end_the_loop() {
    let at = Address::loopback(8000);
    let (actions, result) = run_events(
        at,
        vec![LoopEvent::ShutdownObserved, LoopEvent::Bound(at), LoopEvent::Drained],
    );
    assert_eq!(
        actions,
        vec![
            LoopAction::Bind { addr: at },
            LoopAction::Carry,
            LoopAction::Publish { at },
            LoopAction::Carry
        ]
    );
    assert_eq!(result, None);
}
