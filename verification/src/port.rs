//! Reserving a free local TCP port.
//!
//! The operating system hands out a free port to a listener that binds to
//! port 0, but nothing keeps it from handing the same port to the next
//! process that asks once the listener is gone. To hold the port for a
//! while, a loopback connection to the listener is opened, accepted and
//! dropped unused: the closed connection lingers in the system's wait state,
//! and for that time the port is not given out again.
//!
//! The reserver here decides what is done next and what the result is. The
//! caller does the work on sockets: it carries out each request and reports
//! what happened.

use vstd::prelude::*;
use crate::error::IoError;

verus! {

/// What the caller is asked to do next.
#[derive(Clone, Copy, Debug, PartialEq, Eq, Structural)]
pub enum ReserveRequest {
    /// Bind a listener to the wildcard address with port 0.
    Bind,
    /// Ask the listener for the address it is bound to.
    QueryAddr,
    /// Open a loopback connection to the listener on this port.
    Connect { port: u16 },
    /// Accept that connection on the listener.
    Accept,
}

/// What the caller reports of the request it was given.
#[derive(Clone, Copy, Debug, PartialEq, Eq, Structural)]
pub enum ReserveEvent {
    /// The listener is bound.
    Bound,
    /// The listener is bound to this port.
    AddrKnown(u16),
    /// The loopback connection is open.
    Connected,
    /// The listener accepted the connection.
    Accepted,
    /// The request failed.
    Failed,
}

/// Which report the reserver waits for.
#[derive(Clone, Copy, Debug, PartialEq, Eq, Structural)]
pub enum ReservePhase {
    Binding,
    Querying,
    Connecting { port: u16 },
    Accepting { port: u16 },
}

/// One transition: either the next phase with the request that leads to it,
/// or the end of the reservation.
pub enum ReserveNext {
    Continue(ReservePhase, ReserveRequest),
    Finished(Result<u16, IoError>),
}

/// Where a sequence of reports leaves a reservation.
pub enum ReserveTrace {
    Waiting(ReservePhase),
    Ended(Result<u16, IoError>),
}

/// A port that a bound listener can have.
pub open spec fn is_assigned_port(port: u16) -> bool {
    1 <= port <= 65535
}

/// The error that stands for a failure in the given phase.
pub open spec fn failure_of(phase: ReservePhase) -> IoError {
    match phase {
        ReservePhase::Binding => IoError::BindFailed,
        ReservePhase::Querying => IoError::AddrQueryFailed,
        ReservePhase::Connecting { .. } => IoError::ConnectFailed,
        ReservePhase::Accepting { .. } => IoError::AcceptFailed,
    }
}

/// The transition rule. In each phase one report means success: `Bound`
/// while binding, `AddrKnown` with a port other than 0 while querying,
/// `Connected` while connecting, `Accepted` while accepting. Any other
/// report ends the reservation with the error of that phase. With `hold`
/// unset the reservation ends as soon as the port is known.
pub open spec fn reserve_next(hold: bool, phase: ReservePhase, event: ReserveEvent)
    -> ReserveNext {
    match (phase, event) {
        (ReservePhase::Binding, ReserveEvent::Bound) => ReserveNext::Continue(
            ReservePhase::Querying,
            ReserveRequest::QueryAddr,
        ),
        (ReservePhase::Querying, ReserveEvent::AddrKnown(port)) => if !is_assigned_port(port) {
            ReserveNext::Finished(Err(IoError::AddrQueryFailed))
        } else if hold {
            ReserveNext::Continue(
                ReservePhase::Connecting { port },
                ReserveRequest::Connect { port },
            )
        } else {
            ReserveNext::Finished(Ok(port))
        },
        (ReservePhase::Connecting { port }, ReserveEvent::Connected) => ReserveNext::Continue(
            ReservePhase::Accepting { port },
            ReserveRequest::Accept,
        ),
        (ReservePhase::Accepting { port }, ReserveEvent::Accepted) => ReserveNext::Finished(
            Ok(port),
        ),
        _ => ReserveNext::Finished(Err(failure_of(phase))),
    }
}

/// Where the reports `events`, taken in order from `phase` on, leave the
/// reservation. Reports that come after its end are not looked at.
pub open spec fn reserve_trace(hold: bool, phase: ReservePhase, events: Seq<ReserveEvent>)
    -> ReserveTrace
    decreases events.len(),
{
    if events.len() == 0 {
        ReserveTrace::Waiting(phase)
    } else {
        match reserve_next(hold, phase, events[0]) {
            ReserveNext::Continue(then, _) => reserve_trace(hold, then, events.skip(1)),
            ReserveNext::Finished(result) => ReserveTrace::Ended(result),
        }
    }
}

/// The reports of a reservation of `port` in which every request succeeds.
pub open spec fn success_script(hold: bool, port: u16) -> Seq<ReserveEvent> {
    if hold {
        seq![
            ReserveEvent::Bound,
            ReserveEvent::AddrKnown(port),
            ReserveEvent::Connected,
            ReserveEvent::Accepted,
        ]
    } else {
        seq![ReserveEvent::Bound, ReserveEvent::AddrKnown(port)]
    }
}

/// A reservation under way.
pub struct PortReserver {
    hold: bool,
    phase: ReservePhase,
}

/// What a step of a reservation leads to.
pub enum ReserveProgress {
    /// The reservation goes on: carry out the request and report back.
    Continue(PortReserver, ReserveRequest),
    /// The reservation is over. On success the listener and both ends of the
    /// connection are to be dropped, with nothing sent over them.
    Finished(Result<u16, IoError>),
}

impl PortReserver {
    #[verifier::type_invariant]
    spec fn inv(self) -> bool {
        match self.phase {
            ReservePhase::Connecting { port } => is_assigned_port(port) && self.hold,
            ReservePhase::Accepting { port } => is_assigned_port(port) && self.hold,
            _ => true,
        }
    }

    /// Whether the port is to be held by a dropped loopback connection.
    pub closed spec fn spec_hold(&self) -> bool {
        self.hold
    }

    /// The report that is awaited.
    pub closed spec fn spec_phase(&self) -> ReservePhase {
        self.phase
    }

    /// Starts a reservation. The first request is always `Bind`.
    pub fn begin(hold: bool) -> (start: (PortReserver, ReserveRequest))
        ensures
            start.0.spec_hold() == hold,
            start.0.spec_phase() == ReservePhase::Binding,
            start.1 == ReserveRequest::Bind,
    {
        (PortReserver { hold, phase: ReservePhase::Binding }, ReserveRequest::Bind)
    }

    #[verifier::when_used_as_spec(spec_hold)]
    pub fn hold(&self) -> (hold: bool)
        ensures
            hold == self.spec_hold(),
    {
        self.hold
    }

    #[verifier::when_used_as_spec(spec_phase)]
    pub fn phase(&self) -> (phase: ReservePhase)
        ensures
            phase == self.spec_phase(),
    {
        self.phase
    }

    /// Takes the report of the last request and says what comes next, as
    /// `reserve_next` has it. A port that comes out is never 0.
    pub fn step(self, event: ReserveEvent) -> (progress: ReserveProgress)
        ensures
            match reserve_next(self.spec_hold(), self.spec_phase(), event) {
                ReserveNext::Continue(phase, request) => progress matches ReserveProgress::Continue(
                    then,
                    asked,
                ) && then.spec_hold() == self.spec_hold() && then.spec_phase() == phase && asked
                    == request,
                ReserveNext::Finished(result) => progress matches ReserveProgress::Finished(got)
                    && got == result,
            },
            progress matches ReserveProgress::Finished(Ok(port)) ==> is_assigned_port(port),
    {
        proof {
            use_type_invariant(&self);
        }
        let hold = self.hold;
        match (self.phase, event) {
            (ReservePhase::Binding, ReserveEvent::Bound) => ReserveProgress::Continue(
                PortReserver { hold, phase: ReservePhase::Querying },
                ReserveRequest::QueryAddr,
            ),
            (ReservePhase::Querying, ReserveEvent::AddrKnown(port)) => {
                if port == 0 {
                    ReserveProgress::Finished(Err(IoError::AddrQueryFailed))
                } else if hold {
                    ReserveProgress::Continue(
                        PortReserver { hold, phase: ReservePhase::Connecting { port } },
                        ReserveRequest::Connect { port },
                    )
                } else {
                    ReserveProgress::Finished(Ok(port))
                }
            },
            (ReservePhase::Connecting { port }, ReserveEvent::Connected) => {
                ReserveProgress::Continue(
                    PortReserver { hold, phase: ReservePhase::Accepting { port } },
                    ReserveRequest::Accept,
                )
            },
            (ReservePhase::Accepting { port }, ReserveEvent::Accepted) => {
                ReserveProgress::Finished(Ok(port))
            },
            (ReservePhase::Binding, _) => ReserveProgress::Finished(Err(IoError::BindFailed)),
            (ReservePhase::Querying, _) => ReserveProgress::Finished(
                Err(IoError::AddrQueryFailed),
            ),
            (ReservePhase::Connecting { .. }, _) => ReserveProgress::Finished(
                Err(IoError::ConnectFailed),
            ),
            (ReservePhase::Accepting { .. }, _) => ReserveProgress::Finished(
                Err(IoError::AcceptFailed),
            ),
        }
    }
}

/// Whether `event` reports a port that a bound listener can have.
pub open spec fn tells_port(event: ReserveEvent) -> bool {
    event matches ReserveEvent::AddrKnown(port) && is_assigned_port(port)
}

/// Where the reports `events` leave a reservation, read off the reports
/// themselves: the first report that is not the awaited success ends the
/// reservation with the error of its step, and the port is handed out after
/// the second report, or after the fourth if the port is to be held.
pub open spec fn reserve_outcome(hold: bool, events: Seq<ReserveEvent>) -> ReserveTrace {
    if events.len() == 0 {
        ReserveTrace::Waiting(ReservePhase::Binding)
    } else if events[0] != ReserveEvent::Bound {
        ReserveTrace::Ended(Err(IoError::BindFailed))
    } else if events.len() == 1 {
        ReserveTrace::Waiting(ReservePhase::Querying)
    } else if !tells_port(events[1]) {
        ReserveTrace::Ended(Err(IoError::AddrQueryFailed))
    } else {
        let port = events[1]->AddrKnown_0;
        if !hold {
            ReserveTrace::Ended(Ok(port))
        } else if events.len() == 2 {
            ReserveTrace::Waiting(ReservePhase::Connecting { port })
        } else if events[2] != ReserveEvent::Connected {
            ReserveTrace::Ended(Err(IoError::ConnectFailed))
        } else if events.len() == 3 {
            ReserveTrace::Waiting(ReservePhase::Accepting { port })
        } else if events[3] != ReserveEvent::Accepted {
            ReserveTrace::Ended(Err(IoError::AcceptFailed))
        } else {
            ReserveTrace::Ended(Ok(port))
        }
    }
}

/// Stepping through the reports one by one ends where `reserve_outcome`
/// says.
pub proof fn law_trace_is_outcome(hold: bool, events: Seq<ReserveEvent>)
    ensures
        reserve_trace(hold, ReservePhase::Binding, events) == reserve_outcome(hold, events),
{
    reveal_with_fuel(reserve_trace, 5);
    let e1 = events.skip(1);
    let e2 = e1.skip(1);
    let e3 = e2.skip(1);
    if events.len() >= 2 {
        assert(e1[0] == events[1]);
    }
    if events.len() >= 3 {
        assert(e2[0] == events[2]);
    }
    if events.len() >= 4 {
        assert(e3[0] == events[3]);
    }
}

/// Every port that a reservation hands out is a port that a listener can
/// have, and it is handed out only after the listener was bound and told
/// that port and, where the port is to be held, after the loopback
/// connection was opened and accepted.
pub proof fn law_reserved_port_is_assigned(hold: bool, events: Seq<ReserveEvent>, port: u16)
    requires
        reserve_trace(hold, ReservePhase::Binding, events) == ReserveTrace::Ended(Ok(port)),
    ensures
        is_assigned_port(port),
        events.len() >= success_script(hold, port).len(),
        events.take(success_script(hold, port).len() as int) == success_script(hold, port),
{
    law_trace_is_outcome(hold, events);
    let script = success_script(hold, port);
    assert(events.take(script.len() as int) =~= script);
}

/// A reservation in which every request succeeds hands out the port that
/// the listener told.
pub proof fn law_success_script_reserves(hold: bool, port: u16)
    requires
        is_assigned_port(port),
    ensures
        reserve_trace(hold, ReservePhase::Binding, success_script(hold, port))
            == ReserveTrace::Ended(Ok(port)),
{
    law_trace_is_outcome(hold, success_script(hold, port));
}

} // verus!
