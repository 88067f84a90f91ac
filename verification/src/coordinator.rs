//! The managing flow: in which order the service is started, called,
//! stopped and waited for.
//!
//! The order is fixed. An address is chosen, by reserving a port or by
//! leaving the port to the operating system. The stop signal is created.
//! The run loop is launched, and the flow waits until it has published the
//! address it is bound to. The service is then asked for its health and for
//! its info, in that order. The stop signal is fired, and the flow waits for
//! the run loop to end. It succeeds only if every one of these succeeded.
//!
//! The coordinator decides; the caller acts. Each action that the
//! coordinator hands out is carried out by the caller, who reports what came
//! of it as an event. A failure is never retried: the first one ends the
//! flow.

use vstd::prelude::*;
use crate::address::Address;
use crate::error::{ApiError, IoError, JoinError, ServiceError};

verus! {

/// How the address of the service is chosen.
#[derive(Clone, Copy, Debug, PartialEq, Eq, Structural)]
pub enum AddressPlan {
    /// Bind to the loopback host with port 0 and learn the port from the
    /// address that the run loop publishes.
    OsAssigned,
    /// Reserve a port first and bind to the loopback host with that port.
    Reserved,
}

/// The steps of the flow, in their order.
#[derive(Clone, Copy, Debug, PartialEq, Eq, Structural)]
pub enum Step {
    SelectAddress,
    CreateSignal,
    Launch,
    HealthCheck,
    NodeInfo,
    FireShutdown,
    Join,
}

/// What made a step fail.
#[derive(Debug, PartialEq, Eq)]
pub enum Cause {
    Io(IoError),
    Service(ServiceError),
    Api(ApiError),
    Join(JoinError),
    /// The event reported is not one that the step can end with.
    Unexpected,
}

/// The failure of the flow: the step that failed, the address it worked
/// on, where it had one, and why it failed.
#[derive(Debug, PartialEq, Eq)]
pub struct CoordinatorError {
    pub step: Step,
    pub at: Option<Address>,
    pub cause: Cause,
}

/// The line that tells the operator what failed.
pub open spec fn spec_context(step: Step, cause: Cause) -> Seq<char> {
    match (step, cause) {
        (_, Cause::Unexpected) => "Unexpected event"@,
        (Step::HealthCheck, _) => "Failed to get health check"@,
        (Step::NodeInfo, _) => "Failed to get node info"@,
        (Step::FireShutdown, _) => "Failed to send shutdown"@,
        (Step::Join, Cause::Join(_)) => "Join error"@,
        (Step::Join, _) => "Sidecar error"@,
        _ => "Failed to init sidecar"@,
    }
}

impl CoordinatorError {
    /// The line that tells the operator what failed.
    pub fn context(&self) -> (text: &'static str)
        ensures
            text@ == spec_context(self.step, self.cause),
    {
        match (self.step, &self.cause) {
            (_, Cause::Unexpected) => "Unexpected event",
            (Step::HealthCheck, _) => "Failed to get health check",
            (Step::NodeInfo, _) => "Failed to get node info",
            (Step::FireShutdown, _) => "Failed to send shutdown",
            (Step::Join, Cause::Join(_)) => "Join error",
            (Step::Join, _) => "Sidecar error",
            _ => "Failed to init sidecar",
        }
    }
}

/// How the task of the run loop ended: its own result, or the reason why it
/// has none.
pub type JoinOutcome = Result<Result<(), ServiceError>, JoinError>;

/// What the caller is asked to do.
#[derive(Clone, Copy, Debug, PartialEq, Eq, Structural)]
pub enum Action {
    /// Reserve a free port.
    ReservePort,
    /// Create the stop signal.
    CreateSignal,
    /// Start the run loop on `bind` as a task of its own, and wait until it
    /// has published its address or has ended.
    Launch { bind: Address },
    /// Ask the service at `at` for its health.
    HealthCheck { at: Address },
    /// Ask the service at `at` for its info.
    NodeInfo { at: Address },
    /// Fire the stop signal.
    FireShutdown,
    /// Wait for the task of the run loop to end.
    Join,
}

/// What the caller reports.
#[derive(Debug, PartialEq, Eq)]
pub enum Event {
    /// The reservation ended.
    PortReserved(Result<u16, IoError>),
    /// The stop signal exists.
    SignalCreated,
    /// The run loop published the address it is bound to.
    Published(Address),
    /// The health call ended.
    HealthChecked(Result<(), ApiError>),
    /// The info call ended.
    InfoReceived(Result<(), ApiError>),
    /// The stop signal was fired.
    Fired,
    /// The task of the run loop ended.
    Joined(JoinOutcome),
}

/// Which event the flow waits for.
#[derive(Clone, Copy, Debug, PartialEq, Eq, Structural)]
pub enum Phase {
    Reserving,
    CreatingSignal { bind: Address },
    Launching { bind: Address },
    ProbingHealth { at: Address },
    QueryingInfo { at: Address },
    Firing { at: Address },
    Joining { at: Address },
}

/// One transition: the next phase with the action that leads to it, or the
/// end of the flow.
pub enum Next {
    Continue(Phase, Action),
    Finished(Result<(), CoordinatorError>),
}

/// The step that is under way in a phase.
pub open spec fn step_of(phase: Phase) -> Step {
    match phase {
        Phase::Reserving => Step::SelectAddress,
        Phase::CreatingSignal { .. } => Step::CreateSignal,
        Phase::Launching { .. } => Step::Launch,
        Phase::ProbingHealth { .. } => Step::HealthCheck,
        Phase::QueryingInfo { .. } => Step::NodeInfo,
        Phase::Firing { .. } => Step::FireShutdown,
        Phase::Joining { .. } => Step::Join,
    }
}

/// The address that the step of a phase works on: the bind address at the
/// launch, the published address from then on, none before.
pub open spec fn input_of(phase: Phase) -> Option<Address> {
    match phase {
        Phase::Reserving => None,
        Phase::CreatingSignal { .. } => None,
        Phase::Launching { bind } => Some(bind),
        Phase::ProbingHealth { at } => Some(at),
        Phase::QueryingInfo { at } => Some(at),
        Phase::Firing { at } => Some(at),
        Phase::Joining { at } => Some(at),
    }
}

/// A failure in `phase` for the reason `cause`.
pub open spec fn failed(phase: Phase, cause: Cause) -> Next {
    Next::Finished(Err(CoordinatorError { step: step_of(phase), at: input_of(phase), cause }))
}

/// The one result of the end of the task: a task that ended without a
/// result fails with the reason for that, a run loop that failed fails with
/// its error, and only a run loop that returned normally succeeds.
pub open spec fn spec_combine_join(step: Step, at: Option<Address>, outcome: JoinOutcome)
    -> Result<(), CoordinatorError> {
    match outcome {
        Err(join) => Err(CoordinatorError { step, at, cause: Cause::Join(join) }),
        Ok(Err(service)) => Err(CoordinatorError { step, at, cause: Cause::Service(service) }),
        Ok(Ok(())) => Ok(()),
    }
}

/// The phase and the action that a flow begins with.
pub open spec fn first_move(plan: AddressPlan) -> (Phase, Action) {
    match plan {
        AddressPlan::Reserved => (Phase::Reserving, Action::ReservePort),
        AddressPlan::OsAssigned => (
            Phase::CreatingSignal { bind: Address::spec_loopback(0) },
            Action::CreateSignal,
        ),
    }
}

/// The transition rule. Each phase goes on with one event only, the
/// success of its step; every other event ends the flow with a failure of
/// that step. A failure that the event brings is the cause; an event that
/// belongs to another step, a reserved port 0, a published address that the
/// bind address cannot resolve to, and a run loop that ended normally before
/// it published an address have the cause `Unexpected`.
pub open spec fn coordinator_next(phase: Phase, event: Event) -> Next {
    match (phase, event) {
        (Phase::Reserving, Event::PortReserved(Ok(port))) => if port != 0 {
            Next::Continue(
                Phase::CreatingSignal { bind: Address::spec_loopback(port) },
                Action::CreateSignal,
            )
        } else {
            failed(phase, Cause::Unexpected)
        },
        (Phase::Reserving, Event::PortReserved(Err(io))) => failed(phase, Cause::Io(io)),
        (Phase::CreatingSignal { bind }, Event::SignalCreated) => Next::Continue(
            Phase::Launching { bind },
            Action::Launch { bind },
        ),
        (Phase::Launching { bind }, Event::Published(at)) => if bind.spec_resolves_to(at) {
            Next::Continue(Phase::ProbingHealth { at }, Action::HealthCheck { at })
        } else {
            failed(phase, Cause::Unexpected)
        },
        (Phase::Launching { .. }, Event::Joined(outcome)) => match spec_combine_join(
            step_of(phase),
            input_of(phase),
            outcome,
        ) {
            Ok(()) => failed(phase, Cause::Unexpected),
            Err(error) => Next::Finished(Err(error)),
        },
        (Phase::ProbingHealth { at }, Event::HealthChecked(Ok(()))) => Next::Continue(
            Phase::QueryingInfo { at },
            Action::NodeInfo { at },
        ),
        (Phase::ProbingHealth { .. }, Event::HealthChecked(Err(api))) => failed(
            phase,
            Cause::Api(api),
        ),
        (Phase::QueryingInfo { at }, Event::InfoReceived(Ok(()))) => Next::Continue(
            Phase::Firing { at },
            Action::FireShutdown,
        ),
        (Phase::QueryingInfo { .. }, Event::InfoReceived(Err(api))) => failed(
            phase,
            Cause::Api(api),
        ),
        (Phase::Firing { at }, Event::Fired) => Next::Continue(
            Phase::Joining { at },
            Action::Join,
        ),
        (Phase::Joining { .. }, Event::Joined(outcome)) => Next::Finished(
            spec_combine_join(step_of(phase), input_of(phase), outcome),
        ),
        _ => failed(phase, Cause::Unexpected),
    }
}

/// Combines the two ways in which the task of the run loop can fail into
/// one error of the given step.
pub fn combine_join(step: Step, at: Option<Address>, outcome: JoinOutcome) -> (result: Result<
    (),
    CoordinatorError,
>)
    ensures
        result == spec_combine_join(step, at, outcome),
{
    match outcome {
        Err(join) => Err(CoordinatorError { step, at, cause: Cause::Join(join) }),
        Ok(Err(service)) => Err(CoordinatorError { step, at, cause: Cause::Service(service) }),
        Ok(Ok(())) => Ok(()),
    }
}

/// A flow under way.
#[derive(Debug, PartialEq, Eq)]
pub struct Coordinator {
    phase: Phase,
}

/// What a step of the flow leads to.
#[derive(Debug, PartialEq, Eq)]
pub enum Progress {
    /// The flow goes on: carry out the action and report back.
    Continue(Coordinator, Action),
    /// The flow is over.
    Finished(Result<(), CoordinatorError>),
}

impl Coordinator {
    /// The event that is awaited.
    pub closed spec fn spec_phase(&self) -> Phase {
        self.phase
    }

    /// Starts a flow and hands out its first action.
    pub fn begin(plan: AddressPlan) -> (start: (Coordinator, Action))
        ensures
            (start.0.spec_phase(), start.1) == first_move(plan),
    {
        match plan {
            AddressPlan::Reserved => (
                Coordinator { phase: Phase::Reserving },
                Action::ReservePort,
            ),
            AddressPlan::OsAssigned => (
                Coordinator { phase: Phase::CreatingSignal { bind: Address::loopback(0) } },
                Action::CreateSignal,
            ),
        }
    }

    #[verifier::when_used_as_spec(spec_phase)]
    pub fn phase(&self) -> (phase: Phase)
        ensures
            phase == self.spec_phase(),
    {
        self.phase
    }

    /// The step that is under way.
    pub fn current_step(&self) -> (step: Step)
        ensures
            step == step_of(self.spec_phase()),
    {
        match self.phase {
            Phase::Reserving => Step::SelectAddress,
            Phase::CreatingSignal { .. } => Step::CreateSignal,
            Phase::Launching { .. } => Step::Launch,
            Phase::ProbingHealth { .. } => Step::HealthCheck,
            Phase::QueryingInfo { .. } => Step::NodeInfo,
            Phase::Firing { .. } => Step::FireShutdown,
            Phase::Joining { .. } => Step::Join,
        }
    }

    /// The address that the step under way works on.
    pub fn current_input(&self) -> (at: Option<Address>)
        ensures
            at == input_of(self.spec_phase()),
    {
        match self.phase {
            Phase::Reserving => None,
            Phase::CreatingSignal { .. } => None,
            Phase::Launching { bind } => Some(bind),
            Phase::ProbingHealth { at } => Some(at),
            Phase::QueryingInfo { at } => Some(at),
            Phase::Firing { at } => Some(at),
            Phase::Joining { at } => Some(at),
        }
    }

    /// Takes the report of the last action and says what comes next, as
    /// `coordinator_next` has it.
    pub fn step(self, event: Event) -> (progress: Progress)
        ensures
            match coordinator_next(self.spec_phase(), event) {
                Next::Continue(phase, action) => progress matches Progress::Continue(then, asked)
                    && then.spec_phase() == phase && asked == action,
                Next::Finished(result) => progress matches Progress::Finished(got) && got
                    == result,
            },
    {
        let step = self.current_step();
        let at = self.current_input();
        match (self.phase, event) {
            (Phase::Reserving, Event::PortReserved(Ok(port))) => {
                if port != 0 {
                    go_on(
                        Phase::CreatingSignal { bind: Address::loopback(port) },
                        Action::CreateSignal,
                    )
                } else {
                    fail(step, at, Cause::Unexpected)
                }
            },
            (Phase::Reserving, Event::PortReserved(Err(io))) => fail(step, at, Cause::Io(io)),
            (Phase::CreatingSignal { bind }, Event::SignalCreated) => go_on(
                Phase::Launching { bind },
                Action::Launch { bind },
            ),
            (Phase::Launching { bind }, Event::Published(published)) => {
                if bind.resolves_to(published) {
                    go_on(
                        Phase::ProbingHealth { at: published },
                        Action::HealthCheck { at: published },
                    )
                } else {
                    fail(step, at, Cause::Unexpected)
                }
            },
            (Phase::Launching { .. }, Event::Joined(outcome)) => {
                match combine_join(step, at, outcome) {
                    Ok(()) => fail(step, at, Cause::Unexpected),
                    Err(error) => Progress::Finished(Err(error)),
                }
            },
            (Phase::ProbingHealth { at: service }, Event::HealthChecked(Ok(()))) => go_on(
                Phase::QueryingInfo { at: service },
                Action::NodeInfo { at: service },
            ),
            (Phase::ProbingHealth { .. }, Event::HealthChecked(Err(api))) => fail(
                step,
                at,
                Cause::Api(api),
            ),
            (Phase::QueryingInfo { at: service }, Event::InfoReceived(Ok(()))) => go_on(
                Phase::Firing { at: service },
                Action::FireShutdown,
            ),
            (Phase::QueryingInfo { .. }, Event::InfoReceived(Err(api))) => fail(
                step,
                at,
                Cause::Api(api),
            ),
            (Phase::Firing { at: service }, Event::Fired) => go_on(
                Phase::Joining { at: service },
                Action::Join,
            ),
            (Phase::Joining { .. }, Event::Joined(outcome)) => Progress::Finished(
                combine_join(step, at, outcome),
            ),
            _ => fail(step, at, Cause::Unexpected),
        }
    }
}

fn go_on(phase: Phase, action: Action) -> (progress: Progress)
    ensures
        progress matches Progress::Continue(then, asked) && then.spec_phase() == phase && asked
            == action,
{
    Progress::Continue(Coordinator { phase }, action)
}

fn fail(step: Step, at: Option<Address>, cause: Cause) -> (progress: Progress)
    ensures
        progress == Progress::Finished(Err(CoordinatorError { step, at, cause })),
{
    Progress::Finished(Err(CoordinatorError { step, at, cause }))
}

/// Where a sequence of events leaves a flow.
pub enum Trace {
    Waiting(Phase),
    Ended(Result<(), CoordinatorError>),
}

/// Where the events `events`, reported in order to a flow begun with
/// `plan`, leave it. Events that come after its end are not looked at.
pub open spec fn flow_trace(plan: AddressPlan, events: Seq<Event>) -> Trace
    decreases events.len(),
{
    if events.len() == 0 {
        Trace::Waiting(first_move(plan).0)
    } else {
        match flow_trace(plan, events.drop_last()) {
            Trace::Waiting(phase) => match coordinator_next(phase, events.last()) {
                Next::Continue(then, _) => Trace::Waiting(then),
                Next::Finished(result) => Trace::Ended(result),
            },
            Trace::Ended(result) => Trace::Ended(result),
        }
    }
}

/// The actions that such a flow hands out, in order: the first one at its
/// beginning, and one more for each event that it goes on with. The action
/// at index `i` is handed out after the events before index `i` and before
/// every other event.
pub open spec fn issued(plan: AddressPlan, events: Seq<Event>) -> Seq<Action>
    decreases events.len(),
{
    if events.len() == 0 {
        seq![first_move(plan).1]
    } else {
        let before = issued(plan, events.drop_last());
        match flow_trace(plan, events.drop_last()) {
            Trace::Waiting(phase) => match coordinator_next(phase, events.last()) {
                Next::Continue(_, action) => before.push(action),
                Next::Finished(_) => before,
            },
            Trace::Ended(_) => before,
        }
    }
}

/// How many events come before the stop signal is created.
pub open spec fn offset(plan: AddressPlan) -> int {
    match plan {
        AddressPlan::Reserved => 1,
        AddressPlan::OsAssigned => 0,
    }
}

/// How many events a flow takes in which every step succeeds.
pub open spec fn script_len(plan: AddressPlan) -> int {
    offset(plan) + 6
}

/// The address that the run loop is asked to bind to.
pub open spec fn bind_of(plan: AddressPlan, port: u16) -> Address {
    match plan {
        AddressPlan::Reserved => Address::spec_loopback(port),
        AddressPlan::OsAssigned => Address::spec_loopback(0),
    }
}

/// The event at index `i` of the flow in which every step succeeds, the
/// port `port` is reserved and the address `at` is published.
pub open spec fn script_event(plan: AddressPlan, port: u16, at: Address, i: int) -> Event {
    let k = i - offset(plan);
    if k < 0 {
        Event::PortReserved(Ok(port))
    } else if k == 0 {
        Event::SignalCreated
    } else if k == 1 {
        Event::Published(at)
    } else if k == 2 {
        Event::HealthChecked(Ok(()))
    } else if k == 3 {
        Event::InfoReceived(Ok(()))
    } else if k == 4 {
        Event::Fired
    } else {
        Event::Joined(Ok(Ok(())))
    }
}

/// The action at index `i` of that flow.
pub open spec fn script_action(plan: AddressPlan, port: u16, at: Address, i: int) -> Action {
    let k = i - offset(plan);
    if k < 0 {
        Action::ReservePort
    } else if k == 0 {
        Action::CreateSignal
    } else if k == 1 {
        Action::Launch { bind: bind_of(plan, port) }
    } else if k == 2 {
        Action::HealthCheck { at }
    } else if k == 3 {
        Action::NodeInfo { at }
    } else if k == 4 {
        Action::FireShutdown
    } else {
        Action::Join
    }
}

/// The phase of that flow in which the event at index `i` is awaited.
pub open spec fn script_phase(plan: AddressPlan, port: u16, at: Address, i: int) -> Phase {
    let k = i - offset(plan);
    if k < 0 {
        Phase::Reserving
    } else if k == 0 {
        Phase::CreatingSignal { bind: bind_of(plan, port) }
    } else if k == 1 {
        Phase::Launching { bind: bind_of(plan, port) }
    } else if k == 2 {
        Phase::ProbingHealth { at }
    } else if k == 3 {
        Phase::QueryingInfo { at }
    } else if k == 4 {
        Phase::Firing { at }
    } else {
        Phase::Joining { at }
    }
}

/// The port that the first event reports as reserved, or 0.
pub open spec fn port_in(events: Seq<Event>) -> u16 {
    if events.len() > 0 {
        match events[0] {
            Event::PortReserved(Ok(port)) => port,
            _ => 0,
        }
    } else {
        0
    }
}

/// The address that the events report as published, at the place where a
/// flow begun with `plan` awaits it, or the loopback host with port 0.
pub open spec fn addr_in(plan: AddressPlan, events: Seq<Event>) -> Address {
    let i = offset(plan) + 1;
    if events.len() > i {
        match events[i] {
            Event::Published(at) => at,
            _ => Address::spec_loopback(0),
        }
    } else {
        Address::spec_loopback(0)
    }
}

/// Whether the first `n` events are those of a flow in which every step
/// succeeds: each is the event of the script, a port that was reserved is
/// not 0, and an address that was published is one that the bind address
/// resolves to.
pub open spec fn conforms(plan: AddressPlan, events: Seq<Event>, n: int) -> bool {
    let port = port_in(events);
    let at = addr_in(plan, events);
    &&& 0 <= n <= events.len()
    &&& n <= script_len(plan)
    &&& forall|i: int| 0 <= i < n ==> #[trigger] events[i] == script_event(plan, port, at, i)
    &&& n > 0 && plan is Reserved ==> port != 0
    &&& n > offset(plan) + 1 ==> bind_of(plan, port).spec_resolves_to(at)
}

/// Whether `actions` are the first actions of the script.
pub open spec fn on_script(plan: AddressPlan, events: Seq<Event>, actions: Seq<Action>) -> bool {
    let port = port_in(events);
    let at = addr_in(plan, events);
    &&& 1 <= actions.len() <= script_len(plan)
    &&& forall|i: int|
        0 <= i < actions.len() ==> #[trigger] actions[i] == script_action(plan, port, at, i)
}

/// Every flow follows the script until it ends. While it waits, all events
/// so far are those of the script and it has handed out one action more
/// than it got events. It ends in success exactly when the whole script has
/// been reported. It ends in failure at the first event that departs from
/// the script, with an error of the step that this event was awaited for,
/// and has then handed out the actions up to that step and no others.
pub proof fn law_flow_follows_script(plan: AddressPlan, events: Seq<Event>)
    ensures
        on_script(plan, events, issued(plan, events)),
        match flow_trace(plan, events) {
            Trace::Waiting(phase) => {
                &&& conforms(plan, events, events.len() as int)
                &&& events.len() < script_len(plan)
                &&& issued(plan, events).len() == events.len() + 1
                &&& phase == script_phase(
                    plan,
                    port_in(events),
                    addr_in(plan, events),
                    events.len() as int,
                )
            },
            Trace::Ended(Ok(())) => {
                &&& conforms(plan, events, script_len(plan))
                &&& issued(plan, events).len() == script_len(plan)
            },
            Trace::Ended(Err(error)) => {
                let done = issued(plan, events).len() - 1;
                &&& conforms(plan, events, done)
                &&& done < events.len()
                &&& !conforms(plan, events, done + 1)
                &&& error.step == step_of(
                    script_phase(plan, port_in(events), addr_in(plan, events), done),
                )
                &&& coordinator_next(
                    script_phase(plan, port_in(events), addr_in(plan, events), done),
                    events[done],
                ) == Next::Finished(Err(error))
            },
        },
    decreases events.len(),
{
    if events.len() > 0 {
        let front = events.drop_last();
        law_flow_follows_script(plan, front);
        lemma_witnesses_extend(plan, events);
        let port = port_in(events);
        let at = addr_in(plan, events);
        let n = front.len() as int;
        assert(forall|i: int| 0 <= i < n ==> front[i] == events[i]);
        match flow_trace(plan, front) {
            Trace::Waiting(phase) => {
                assert(events.last() == events[n]);
                assert(conforms(plan, events, n));
                match coordinator_next(phase, events.last()) {
                    Next::Continue(then, action) => {
                        lemma_unit_events(events[n]);
                        assert(events[n] == script_event(plan, port, at, n));
                        assert(conforms(plan, events, n + 1));
                    },
                    Next::Finished(result) => {
                        if result is Ok {
                            lemma_unit_events(events[n]);
                            assert(events[n] == script_event(plan, port, at, n));
                            assert(conforms(plan, events, n + 1));
                        } else {
                            assert(!conforms(plan, events, n + 1)) by {
                                if conforms(plan, events, n + 1) {
                                    assert(events[n] == script_event(plan, port, at, n));
                                }
                            }
                        }
                    },
                }
            },
            Trace::Ended(Ok(())) => {
                assert(conforms(plan, events, script_len(plan)));
            },
            Trace::Ended(Err(error)) => {
                let done = issued(plan, front).len() - 1;
                assert(conforms(plan, events, done));
                assert(!conforms(plan, events, done + 1)) by {
                    if conforms(plan, events, done + 1) {
                        assert(events[done] == script_event(plan, port, at, done));
                        assert(front[done] == events[done]);
                        assert(conforms(plan, front, done + 1));
                    }
                }
            },
        }
    }
}

/// An event that reports success without a value is the one event of its
/// kind.
proof fn lemma_unit_events(event: Event)
    ensures
        event matches Event::HealthChecked(Ok(_)) ==> event == Event::HealthChecked(Ok(())),
        event matches Event::InfoReceived(Ok(_)) ==> event == Event::InfoReceived(Ok(())),
        event matches Event::Joined(Ok(Ok(_))) ==> event == Event::Joined(Ok(Ok(()))),
{
    match event {
        Event::HealthChecked(r) => {
            if r is Ok {
                lemma_ok_unit(r);
            }
        },
        Event::InfoReceived(r) => {
            if r is Ok {
                lemma_ok_unit(r);
            }
        },
        Event::Joined(Ok(r)) => {
            if r is Ok {
                lemma_ok_unit(r);
            }
        },
        _ => {},
    }
}

/// A result that is `Ok` of the unit type is `Ok(())`.
proof fn lemma_ok_unit<E>(r: Result<(), E>)
    requires
        r is Ok,
    ensures
        r == Ok::<(), E>(()),
{
    let u = r->Ok_0;
    assert(u == ());
}

/// The port and the address that a flow's events report do not change when
/// one more event is reported, once they have been reported.
proof fn lemma_witnesses_extend(plan: AddressPlan, events: Seq<Event>)
    requires
        events.len() > 0,
    ensures
        events.len() > 1 ==> port_in(events.drop_last()) == port_in(events),
        events.len() > offset(plan) + 2 ==> addr_in(plan, events.drop_last()) == addr_in(
            plan,
            events,
        ),
{
    let front = events.drop_last();
    if events.len() > 1 {
        assert(front[0] == events[0]);
    }
    if events.len() > offset(plan) + 2 {
        assert(front[offset(plan) + 1] == events[offset(plan) + 1]);
    }
}

/// Whether an action is a call to the service.
pub open spec fn is_client_call(action: Action) -> bool {
    action is HealthCheck || action is NodeInfo
}

/// The address that a call to the service goes to.
pub open spec fn call_target(action: Action) -> Address {
    match action {
        Action::HealthCheck { at } => at,
        Action::NodeInfo { at } => at,
        _ => Address::spec_loopback(0),
    }
}

/// The events of the flow in which every step succeeds.
pub open spec fn event_script(plan: AddressPlan, port: u16, at: Address) -> Seq<Event> {
    Seq::new(script_len(plan) as nat, |i: int| script_event(plan, port, at, i))
}

/// The actions of that flow.
pub open spec fn action_script(plan: AddressPlan, port: u16, at: Address) -> Seq<Action> {
    Seq::new(script_len(plan) as nat, |i: int| script_action(plan, port, at, i))
}

/// Events that conform up to some length conform up to every shorter one.
proof fn lemma_conforms_shorter(plan: AddressPlan, events: Seq<Event>, n: int, m: int)
    requires
        conforms(plan, events, n),
        0 <= m <= n,
    ensures
        conforms(plan, events, m),
{
}

/// The flow has received at least as many conforming events as it has
/// handed out actions after the first.
proof fn lemma_issued_after_conforming(plan: AddressPlan, events: Seq<Event>)
    ensures
        on_script(plan, events, issued(plan, events)),
        conforms(plan, events, issued(plan, events).len() - 1),
{
    law_flow_follows_script(plan, events);
    match flow_trace(plan, events) {
        Trace::Ended(Ok(())) => {
            lemma_conforms_shorter(plan, events, script_len(plan), script_len(plan) - 1);
        },
        _ => {},
    }
}

/// No call to the service is made before the run loop has published its
/// address. Whenever a flow hands out a call, the address was published by
/// an event that came before the action was handed out, the call goes to
/// that very address, and that address is concrete and one that the bind
/// address resolves to.
pub proof fn law_calls_follow_publication(plan: AddressPlan, events: Seq<Event>, k: int)
    requires
        0 <= k < issued(plan, events).len(),
        is_client_call(issued(plan, events)[k]),
    ensures
        offset(plan) + 1 < k <= events.len(),
        events[offset(plan) + 1] == Event::Published(call_target(issued(plan, events)[k])),
        call_target(issued(plan, events)[k]).spec_is_concrete(),
        bind_of(plan, port_in(events)).spec_resolves_to(call_target(issued(plan, events)[k])),
{
    lemma_issued_after_conforming(plan, events);
    let actions = issued(plan, events);
    assert(actions[k] == script_action(plan, port_in(events), addr_in(plan, events), k));
    lemma_conforms_shorter(plan, events, actions.len() - 1, k);
    assert(events[offset(plan) + 1] == script_event(
        plan,
        port_in(events),
        addr_in(plan, events),
        offset(plan) + 1,
    ));
}

/// The stop signal is not fired before both calls to the service have
/// ended well. Whenever a flow hands out the firing, the two events before
/// it are the success of the health call and the success of the info call,
/// in that order, and the two actions before it are those calls.
pub proof fn law_fire_follows_calls(plan: AddressPlan, events: Seq<Event>, k: int)
    requires
        0 <= k < issued(plan, events).len(),
        issued(plan, events)[k] is FireShutdown,
    ensures
        k == offset(plan) + 4,
        k <= events.len(),
        events[k - 2] == Event::HealthChecked(Ok(())),
        events[k - 1] == Event::InfoReceived(Ok(())),
        issued(plan, events)[k - 2] is HealthCheck,
        issued(plan, events)[k - 1] is NodeInfo,
{
    lemma_issued_after_conforming(plan, events);
    let actions = issued(plan, events);
    let port = port_in(events);
    let at = addr_in(plan, events);
    assert(actions[k] == script_action(plan, port, at, k));
    lemma_conforms_shorter(plan, events, actions.len() - 1, k);
    assert(events[k - 2] == script_event(plan, port, at, k - 2));
    assert(events[k - 1] == script_event(plan, port, at, k - 1));
    assert(actions[k - 2] == script_action(plan, port, at, k - 2));
    assert(actions[k - 1] == script_action(plan, port, at, k - 1));
}

/// A flow succeeds exactly when every step of it succeeded: its events
/// begin with the whole script. Success is therefore never reported before
/// the run loop has ended normally after the firing of the stop signal, and
/// the actions handed out are then those of the script, each once and in
/// order.
pub proof fn law_success_is_whole_script(plan: AddressPlan, events: Seq<Event>)
    ensures
        flow_trace(plan, events) == Trace::Ended(Ok(())) <==> conforms(
            plan,
            events,
            script_len(plan),
        ),
        flow_trace(plan, events) == Trace::Ended(Ok(())) ==> {
            &&& events[script_len(plan) - 2] == Event::Fired
            &&& events[script_len(plan) - 1] == Event::Joined(Ok(Ok(())))
            &&& issued(plan, events) == action_script(
                plan,
                port_in(events),
                addr_in(plan, events),
            )
        },
{
    law_flow_follows_script(plan, events);
    let port = port_in(events);
    let at = addr_in(plan, events);
    match flow_trace(plan, events) {
        Trace::Ended(result) => {
            if result is Ok {
                lemma_ok_unit(result);
            }
        },
        _ => {},
    }
    if conforms(plan, events, script_len(plan)) {
        match flow_trace(plan, events) {
            Trace::Ended(Err(error)) => {
                let done = issued(plan, events).len() - 1;
                lemma_conforms_shorter(plan, events, script_len(plan), done + 1);
            },
            _ => {},
        }
        assert(events[script_len(plan) - 2] == script_event(plan, port, at, script_len(plan) - 2));
        assert(events[script_len(plan) - 1] == script_event(plan, port, at, script_len(plan) - 1));
        assert(issued(plan, events) =~= action_script(plan, port, at));
    }
}

/// The script does succeed: if the port that is reserved is not 0 and the
/// address that is published is one that the bind address resolves to, the
/// flow whose events are the script ends in success and hands out the
/// actions of the script.
pub proof fn law_script_succeeds(plan: AddressPlan, port: u16, at: Address)
    requires
        plan is Reserved ==> port != 0,
        bind_of(plan, port).spec_resolves_to(at),
    ensures
        flow_trace(plan, event_script(plan, port, at)) == Trace::Ended(Ok(())),
        issued(plan, event_script(plan, port, at)) == action_script(plan, port, at),
{
    let events = event_script(plan, port, at);
    assert(addr_in(plan, events) == at);
    assert(plan is Reserved ==> port_in(events) == port);
    assert(bind_of(plan, port_in(events)) == bind_of(plan, port));
    assert forall|i: int| 0 <= i < script_len(plan) implies #[trigger] events[i] == script_event(
        plan,
        port_in(events),
        addr_in(plan, events),
        i,
    ) by {
        assert(events[i] == script_event(plan, port, at, i));
    }
    assert(conforms(plan, events, script_len(plan)));
    law_success_is_whole_script(plan, events);
    assert(action_script(plan, port_in(events), at) =~= action_script(plan, port, at));
}

/// A run loop that ends before it has published an address ends the flow,
/// and no call to the service is made. If the steps before the launch
/// succeeded and the task of the run loop is then reported to have ended,
/// the flow fails at the launch, with the failure of the task as its cause
/// where there is one; the actions handed out end with the launch, and none
/// of them is a call.
pub proof fn law_failed_launch_makes_no_call(
    plan: AddressPlan,
    events: Seq<Event>,
    outcome: JoinOutcome,
)
    requires
        events.len() > offset(plan) + 1,
        conforms(plan, events, offset(plan) + 1),
        events[offset(plan) + 1] == Event::Joined(outcome),
    ensures
        flow_trace(plan, events) == Trace::Ended(
            match spec_combine_join(
                Step::Launch,
                Some(bind_of(plan, port_in(events))),
                outcome,
            ) {
                Ok(()) => Err(
                    CoordinatorError {
                        step: Step::Launch,
                        at: Some(bind_of(plan, port_in(events))),
                        cause: Cause::Unexpected,
                    },
                ),
                Err(error) => Err(error),
            },
        ),
        issued(plan, events).len() == offset(plan) + 2,
        issued(plan, events).last() is Launch,
        forall|k: int|
            0 <= k < issued(plan, events).len() ==> !is_client_call(
                #[trigger] issued(plan, events)[k],
            ),
{
    law_flow_follows_script(plan, events);
    let port = port_in(events);
    let at = addr_in(plan, events);
    let at_launch = offset(plan) + 1;
    let actions = issued(plan, events);
    assert(!conforms(plan, events, at_launch + 1)) by {
        if conforms(plan, events, at_launch + 1) {
            assert(events[at_launch] == script_event(plan, port, at, at_launch));
        }
    }
    match flow_trace(plan, events) {
        Trace::Waiting(_) => {
            lemma_conforms_shorter(plan, events, events.len() as int, at_launch + 1);
        },
        Trace::Ended(Ok(())) => {
            lemma_conforms_shorter(plan, events, script_len(plan), at_launch + 1);
        },
        Trace::Ended(Err(error)) => {
            let done = actions.len() - 1;
            if done > at_launch {
                lemma_conforms_shorter(plan, events, done, at_launch + 1);
            }
            if done < at_launch {
                lemma_conforms_shorter(plan, events, at_launch, done + 1);
            }
            assert(done == at_launch);
        },
    }
    assert(actions[at_launch] == script_action(plan, port, at, at_launch));
    assert forall|k: int| 0 <= k < actions.len() implies !is_client_call(#[trigger] actions[k]) by {
        assert(actions[k] == script_action(plan, port, at, k));
    }
}

} // verus!
