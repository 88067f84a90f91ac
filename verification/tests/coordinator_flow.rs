use sidecar_lifecycle::address::Address;
use sidecar_lifecycle::coordinator::{
    combine_join, Action, AddressPlan, Cause, Coordinator, CoordinatorError, Event, Phase,
    Progress, Step,
};
use sidecar_lifecycle::error::{ApiError, IoError, JoinError, ServiceError};

/// One entry of the log of a flow: what was handed out, and what was
/// reported, each with its place in the sequence.
#[derive(Debug, PartialEq)]
enum Entry {
    Issued(Action),
    Reported(String),
}

fn run_flow(
    plan: AddressPlan,
    events: Vec<Event>,
) -> (Vec<Entry>, Option<Result<(), CoordinatorError>>) {
    let (mut coordinator, first) = Coordinator::begin(plan);
    let mut log = vec![Entry::Issued(first)];
    for event in events {
        log.push(Entry::Reported(format!("{event:?}")));
        match coordinator.step(event) {
            Progress::Continue(next, action) => {
                coordinator = next;
                log.push(Entry::Issued(action));
            }
            Progress::Finished(result) => return (log, Some(result)),
        }
    }
    (log, None)
}

fn actions_of(log: &[Entry]) -> Vec<Action> {
    log.iter()
        .filter_map(|entry| match entry {
            Entry::Issued(action) => Some(*action),
            Entry::Reported(_) => None,
        })
        .collect()
}

fn is_call(action: &Action) -> bool {
    matches!(action, Action::HealthCheck { .. } | Action::NodeInfo { .. })
}

fn up_to_launch(port: u16) -> Vec<Event> {
    vec![Event::PortReserved(Ok(port)), Event::SignalCreated]
}

fn up_to_calls(port: u16) -> Vec<Event> {
    let mut events = up_to_launch(port);
    events.push(Event::Published(Address::loopback(port)));
    events
}

fn failure(step: Step, at: Option<Address>, cause: Cause) -> Option<Result<(), CoordinatorError>> {
    Some(Err(CoordinatorError { step, at, cause }))
}

#[test]
fn reserved_flow_runs_from_reservation_to_join() {
    let at = Address::loopback(5393);
    let (log, result) = run_flow(
        AddressPlan::Reserved,
        vec![
            Event::PortReserved(Ok(5393)),
            Event::SignalCreated,
            Event::Published(at),
            Event::HealthChecked(Ok(())),
            Event::InfoReceived(Ok(())),
            Event::Fired,
            Event::Joined(Ok(Ok(()))),
        ],
    );
    assert_eq!(
        actions_of(&log),
        vec![
            Action::ReservePort,
            Action::CreateSignal,
            Action::Launch { bind: at },
            Action::HealthCheck { at },
            Action::NodeInfo { at },
            Action::FireShutdown,
            Action::Join,
        ]
    );
    assert_eq!(result, Some(Ok(())));
}

#[test]
fn os_assigned_flow_learns_the_port_from_the_published_address() {
    let at = Address::loopback(40123);
    let (log, result) = run_flow(
        AddressPlan::OsAssigned,
        vec![
            Event::SignalCreated,
            Event::Published(at),
            Event::HealthChecked(Ok(())),
            Event::InfoReceived(Ok(())),
            Event::Fired,
            Event::Joined(Ok(Ok(()))),
        ],
    );
    assert_eq!(
        actions_of(&log),
        vec![
            Action::CreateSignal,
            Action::Launch { bind: Address::loopback(0) },
            Action::HealthCheck { at },
            Action::NodeInfo { at },
            Action::FireShutdown,
            Action::Join,
        ]
    );
    assert_eq!(result, Some(Ok(())));
}

#[test]
fn flow_begins_in_the_phase_of_its_plan() {
    let (coordinator, first) = Coordinator::begin(AddressPlan::Reserved);
    assert_eq!(first, Action::ReservePort);
    assert_eq!(coordinator.phase(), Phase::Reserving);
    assert_eq!(coordinator.current_step(), Step::SelectAddress);
    assert_eq!(coordinator.current_input(), None);
    let (coordinator, first) = Coordinator::begin(AddressPlan::OsAssigned);
    assert_eq!(first, Action::CreateSignal);
    assert_eq!(coordinator.phase(), Phase::CreatingSignal { bind: Address::loopback(0) });
    assert_eq!(coordinator.current_step(), Step::CreateSignal);
}

#[test]
fn address_is_published_before_the_first_call() {
    let at = Address::loopback(6001);
    let (log, _) = run_flow(
        AddressPlan::Reserved,
        vec![
            Event::PortReserved(Ok(6001)),
            Event::SignalCreated,
            Event::Published(at),
            Event::HealthChecked(Ok(())),
            Event::InfoReceived(Ok(())),
            Event::Fired,
            Event::Joined(Ok(Ok(()))),
        ],
    );
    let published =
        log.iter().position(|entry| *entry == Entry::Reported(format!("{:?}", Event::Published(at))));
    let first_call = log.iter().position(|entry| match entry {
        Entry::Issued(action) => is_call(action),
        Entry::Reported(_) => false,
    });
    let published = published.expect("the address is published");
    let first_call = first_call.expect("a call is made");
    assert!(published < first_call);
    assert_eq!(log[first_call], Entry::Issued(Action::HealthCheck { at }));
}

#[test]
fn shutdown_is_fired_after_both_calls_and_success_comes_after_the_join() {
    let at = Address::loopback(6002);
    let mut events = up_to_calls(6002);
    events.push(Event::HealthChecked(Ok(())));
    let (log, result) = run_flow(AddressPlan::Reserved, events);
    assert!(!actions_of(&log).contains(&Action::FireShutdown));
    assert_eq!(result, None);

    let mut events = up_to_calls(6002);
    events.extend([Event::HealthChecked(Ok(())), Event::InfoReceived(Ok(())), Event::Fired]);
    let (log, result) = run_flow(AddressPlan::Reserved, events);
    let actions = actions_of(&log);
    let fire = actions.iter().position(|a| *a == Action::FireShutdown).unwrap();
    let info = actions.iter().position(|a| *a == Action::NodeInfo { at }).unwrap();
    assert!(info < fire);
    assert_eq!(actions.last(), Some(&Action::Join));
    assert_eq!(result, None);
}

#[test]
fn occupied_port_fails_the_launch_and_no_call_is_made() {
    let mut events = up_to_launch(7000);
    events.push(Event::Joined(Ok(Err(ServiceError::BindFailed))));
    events.push(Event::HealthChecked(Ok(())));
    let (log, result) = run_flow(AddressPlan::Reserved, events);
    assert_eq!(
        result,
        failure(
            Step::Launch,
            Some(Address::loopback(7000)),
            Cause::Service(ServiceError::BindFailed)
        )
    );
    let actions = actions_of(&log);
    assert_eq!(actions.last(), Some(&Action::Launch { bind: Address::loopback(7000) }));
    assert!(!actions.iter().any(is_call));
}

#[test]
fn task_that_dies_before_publishing_fails_the_launch() {
    let mut events = up_to_launch(7000);
    events.push(Event::Joined(Err(JoinError::Panicked)));
    let (_, result) = run_flow(AddressPlan::Reserved, events);
    assert_eq!(
        result,
        failure(Step::Launch, Some(Address::loopback(7000)), Cause::Join(JoinError::Panicked))
    );
}

#[test]
fn run_loop_that_returns_before_publishing_is_unexpected() {
    let (_, result) =
        run_flow(AddressPlan::OsAssigned, vec![Event::SignalCreated, Event::Joined(Ok(Ok(())))]);
    assert_eq!(result, failure(Step::Launch, Some(Address::loopback(0)), Cause::Unexpected));
}

#[test]
fn failed_reservation_ends_the_flow_at_once() {
    for io in [
        IoError::BindFailed,
        IoError::AddrQueryFailed,
        IoError::ConnectFailed,
        IoError::AcceptFailed,
    ] {
        let (log, result) = run_flow(AddressPlan::Reserved, vec![Event::PortReserved(Err(io))]);
        assert_eq!(result, failure(Step::SelectAddress, None, Cause::Io(io)));
        assert_eq!(actions_of(&log), vec![Action::ReservePort]);
    }
}

#[test]
fn reserved_port_zero_is_unexpected() {
    let (_, result) = run_flow(AddressPlan::Reserved, vec![Event::PortReserved(Ok(0))]);
    assert_eq!(result, failure(Step::SelectAddress, None, Cause::Unexpected));
}

#[test]
fn published_address_must_fit_the_bind_address() {
    let mut events = up_to_launch(7000);
    events.push(Event::Published(Address::loopback(7001)));
    let (_, result) = run_flow(AddressPlan::Reserved, events);
    assert_eq!(result, failure(Step::Launch, Some(Address::loopback(7000)), Cause::Unexpected));

    let (_, result) = run_flow(
        AddressPlan::OsAssigned,
        vec![Event::SignalCreated, Event::Published(Address::loopback(0))],
    );
    assert_eq!(result, failure(Step::Launch, Some(Address::loopback(0)), Cause::Unexpected));

    let (_, result) = run_flow(
        AddressPlan::OsAssigned,
        vec![
            Event::SignalCreated,
            Event::Published(Address { a: 192, b: 168, c: 0, d: 1, port: 80 }),
        ],
    );
    assert_eq!(result, failure(Step::Launch, Some(Address::loopback(0)), Cause::Unexpected));
}

#[test]
fn failed_health_check_ends_the_flow_without_retry() {
    for api in [ApiError::Transport, ApiError::MalformedResponse] {
        let mut events = up_to_calls(7100);
        events.push(Event::HealthChecked(Err(api)));
        events.push(Event::HealthChecked(Ok(())));
        let (log, result) = run_flow(AddressPlan::Reserved, events);
        assert_eq!(
            result,
            failure(Step::HealthCheck, Some(Address::loopback(7100)), Cause::Api(api))
        );
        let calls = actions_of(&log).iter().filter(|a| is_call(a)).count();
        assert_eq!(calls, 1);
    }
}

#[test]
fn failed_info_query_ends_the_flow_before_the_shutdown() {
    let mut events = up_to_calls(7100);
    events.push(Event::HealthChecked(Ok(())));
    events.push(Event::InfoReceived(Err(ApiError::MalformedResponse)));
    let (log, result) = run_flow(AddressPlan::Reserved, events);
    assert_eq!(
        result,
        failure(
            Step::NodeInfo,
            Some(Address::loopback(7100)),
            Cause::Api(ApiError::MalformedResponse)
        )
    );
    assert!(!actions_of(&log).contains(&Action::FireShutdown));
}

#[test]
fn join_failures_become_one_error() {
    let at = Address::loopback(7200);
    let to_join = || {
        let mut events = up_to_calls(7200);
        events.extend([Event::HealthChecked(Ok(())), Event::InfoReceived(Ok(())), Event::Fired]);
        events
    };
    let mut events = to_join();
    events.push(Event::Joined(Err(JoinError::Cancelled)));
    let (_, result) = run_flow(AddressPlan::Reserved, events);
    assert_eq!(result, failure(Step::Join, Some(at), Cause::Join(JoinError::Cancelled)));

    let mut events = to_join();
    events.push(Event::Joined(Ok(Err(ServiceError::Internal("listener closed".to_string())))));
    let (_, result) = run_flow(AddressPlan::Reserved, events);
    assert_eq!(
        result,
        failure(
            Step::Join,
            Some(at),
            Cause::Service(ServiceError::Internal("listener closed".to_string()))
        )
    );
}

#[test]
fn event_of_another_step_is_unexpected() {
    let (_, result) = run_flow(AddressPlan::Reserved, vec![Event::SignalCreated]);
    assert_eq!(result, failure(Step::SelectAddress, None, Cause::Unexpected));

    let (_, result) = run_flow(AddressPlan::OsAssigned, vec![Event::Fired]);
    assert_eq!(result, failure(Step::CreateSignal, None, Cause::Unexpected));

    let mut events = up_to_calls(7300);
    events.push(Event::InfoReceived(Ok(())));
    let (_, result) = run_flow(AddressPlan::Reserved, events);
    assert_eq!(
        result,
        failure(Step::HealthCheck, Some(Address::loopback(7300)), Cause::Unexpected)
    );

    let mut events = up_to_calls(7300);
    events.extend([
        Event::HealthChecked(Ok(())),
        Event::InfoReceived(Ok(())),
        Event::Joined(Ok(Ok(()))),
    ]);
    let (_, result) = run_flow(AddressPlan::Reserved, events);
    assert_eq!(
        result,
        failure(Step::FireShutdown, Some(Address::loopback(7300)), Cause::Unexpected)
    );

    let mut events = up_to_calls(7300);
    events.extend([
        Event::HealthChecked(Ok(())),
        Event::InfoReceived(Ok(())),
        Event::Fired,
        Event::Fired,
    ]);
    let (_, result) = run_flow(AddressPlan::Reserved, events);
    assert_eq!(result, failure(Step::Join, Some(Address::loopback(7300)), Cause::Unexpected));
}

#[test]
fn combine_join_keeps_the_cause() {
    let at = Some(Address::loopback(1));
    assert_eq!(combine_join(Step::Join, at, Ok(Ok(()))), Ok(()));
    assert_eq!(
        combine_join(Step::Join, at, Err(JoinError::Panicked)),
        Err(CoordinatorError { step: Step::Join, at, cause: Cause::Join(JoinError::Panicked) })
    );
    assert_eq!(
        combine_join(Step::Launch, None, Ok(Err(ServiceError::BindFailed))),
        Err(CoordinatorError {
            step: Step::Launch,
            at: None,
            cause: Cause::Service(ServiceError::BindFailed)
        })
    );
}

#[test]
fn each_failure_has_its_line_for_the_operator() {
    let error = |step, cause| CoordinatorError { step, at: None, cause };
    assert_eq!(
        error(Step::SelectAddress, Cause::Io(IoError::BindFailed)).context(),
        "Failed to init sidecar"
    );
    assert_eq!(
        error(Step::Launch, Cause::Service(ServiceError::BindFailed)).context(),
        "Failed to init sidecar"
    );
    assert_eq!(
        error(Step::HealthCheck, Cause::Api(ApiError::Transport)).context(),
        "Failed to get health check"
    );
    assert_eq!(
        error(Step::NodeInfo, Cause::Api(ApiError::Transport)).context(),
        "Failed to get node info"
    );
    assert_eq!(error(Step::Join, Cause::Join(JoinError::Cancelled)).context(), "Join error");
    assert_eq!(
        error(Step::Join, Cause::Service(ServiceError::BindFailed)).context(),
        "Sidecar error"
    );
    assert_eq!(error(Step::Join, Cause::Unexpected).context(), "Unexpected event");
    assert_eq!(error(Step::FireShutdown, Cause::Unexpected).context(), "Unexpected event");
}
