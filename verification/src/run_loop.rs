//! The run loop of the service, as the task that runs it sees it.
//!
//! The loop binds a listener, publishes the address it got before it
//! accepts anything, and then serves connections while it watches the stop
//! signal. Once the signal is observed it accepts nothing more, gives the
//! requests in flight a bounded time to finish, and returns normally. A
//! fault that it cannot recover from ends it at once.
//!
//! The loop here decides; the task acts and reports. How a request is
//! answered is not the loop's business.

use vstd::prelude::*;
use crate::address::Address;
use crate::error::ServiceError;

verus! {

/// What the task is asked to do.
#[derive(Clone, Copy, Debug, PartialEq, Eq, Structural)]
pub enum LoopAction {
    /// Bind a listener to `addr`.
    Bind { addr: Address },
    /// Make `at` known as the address of the service.
    Publish { at: Address },
    /// Accept connections and watch the stop signal.
    Serve,
    /// Serve the connection that was just accepted.
    Handle,
    /// Drop the connection that was just accepted.
    Refuse,
    /// Accept nothing more, and wait until the requests in flight are done
    /// or the time granted to them is over.
    Drain,
    /// Nothing new: go on as before.
    Carry,
}

/// What the task reports.
#[derive(Debug, PartialEq, Eq)]
pub enum LoopEvent {
    /// The listener is bound to this address.
    Bound(Address),
    /// The listener could not be bound.
    BindFailed,
    /// The address has been made known.
    Published,
    /// A connection was accepted.
    Accepted,
    /// The stop signal has fired.
    ShutdownObserved,
    /// No request is in flight any more.
    Drained,
    /// The time granted to the requests in flight is over.
    GraceElapsed,
    /// Something failed that the loop cannot recover from.
    Fault(String),
}

/// What the loop is busy with.
#[derive(Clone, Copy, Debug, PartialEq, Eq, Structural)]
pub enum LoopPhase {
    Binding { asked: Address },
    Publishing { at: Address },
    Serving { at: Address },
    Draining { at: Address },
}

/// One transition: the next phase with the action for the task, or the
/// result that the loop returns.
pub enum LoopNext {
    Continue(LoopPhase, LoopAction),
    Finished(Result<(), ServiceError>),
}

/// The transition rule.
///
/// A fault ends the loop in every phase, with the reason that was
/// reported. While binding, a listener bound to an address that the address
/// asked for resolves to leads on to publishing; a listener bound elsewhere
/// and a failed bind end the loop with `BindFailed`. While publishing, the
/// report that the address is known leads on to serving. While serving,
/// each accepted connection is handled, and the stop signal leads on to
/// draining. While draining, each accepted connection is refused, and the
/// loop returns normally as soon as nothing is in flight or the time is
/// over. Every other event leaves the loop as it is.
pub open spec fn loop_next(phase: LoopPhase, event: LoopEvent) -> LoopNext {
    match (phase, event) {
        (_, LoopEvent::Fault(reason)) => LoopNext::Finished(Err(ServiceError::Internal(reason))),
        (LoopPhase::Binding { asked }, LoopEvent::Bound(at)) => if asked.spec_resolves_to(at) {
            LoopNext::Continue(LoopPhase::Publishing { at }, LoopAction::Publish { at })
        } else {
            LoopNext::Finished(Err(ServiceError::BindFailed))
        },
        (LoopPhase::Binding { .. }, LoopEvent::BindFailed) => LoopNext::Finished(
            Err(ServiceError::BindFailed),
        ),
        (LoopPhase::Publishing { at }, LoopEvent::Published) => LoopNext::Continue(
            LoopPhase::Serving { at },
            LoopAction::Serve,
        ),
        (LoopPhase::Serving { .. }, LoopEvent::Accepted) => LoopNext::Continue(
            phase,
            LoopAction::Handle,
        ),
        (LoopPhase::Serving { at }, LoopEvent::ShutdownObserved) => LoopNext::Continue(
            LoopPhase::Draining { at },
            LoopAction::Drain,
        ),
        (LoopPhase::Draining { .. }, LoopEvent::Accepted) => LoopNext::Continue(
            phase,
            LoopAction::Refuse,
        ),
        (LoopPhase::Draining { .. }, LoopEvent::Drained) => LoopNext::Finished(Ok(())),
        (LoopPhase::Draining { .. }, LoopEvent::GraceElapsed) => LoopNext::Finished(Ok(())),
        _ => LoopNext::Continue(phase, LoopAction::Carry),
    }
}

/// A run loop under way.
#[derive(Debug, PartialEq, Eq)]
pub struct RunLoop {
    phase: LoopPhase,
}

/// What a step of the loop leads to.
#[derive(Debug, PartialEq, Eq)]
pub enum LoopProgress {
    /// The loop goes on: carry out the action and report what happens.
    Continue(RunLoop, LoopAction),
    /// The loop is over, and this is what the task returns.
    Finished(Result<(), ServiceError>),
}

impl RunLoop {
    /// What the loop is busy with.
    pub closed spec fn spec_phase(&self) -> LoopPhase {
        self.phase
    }

    /// Starts a loop that is to listen on `bind`. The first action is to
    /// bind to it.
    pub fn begin(bind: Address) -> (start: (RunLoop, LoopAction))
        ensures
            start.0.spec_phase() == (LoopPhase::Binding { asked: bind }),
            start.1 == (LoopAction::Bind { addr: bind }),
    {
        (RunLoop { phase: LoopPhase::Binding { asked: bind } }, LoopAction::Bind { addr: bind })
    }

    #[verifier::when_used_as_spec(spec_phase)]
    pub fn phase(&self) -> (phase: LoopPhase)
        ensures
            phase == self.spec_phase(),
    {
        self.phase
    }

    /// The address that the loop has published or is about to publish, if
    /// its listener is bound.
    pub fn bound_address(&self) -> (addr: Option<Address>)
        ensures
            addr == spec_bound_address(self.spec_phase()),
    {
        match self.phase {
            LoopPhase::Binding { .. } => None,
            LoopPhase::Publishing { at } => Some(at),
            LoopPhase::Serving { at } => Some(at),
            LoopPhase::Draining { at } => Some(at),
        }
    }

    /// Takes what the task reports and says what comes next, as `loop_next`
    /// has it.
    pub fn step(self, event: LoopEvent) -> (progress: LoopProgress)
        ensures
            match loop_next(self.spec_phase(), event) {
                LoopNext::Continue(phase, action) => progress matches LoopProgress::Continue(
                    then,
                    asked,
                ) && then.spec_phase() == phase && asked == action,
                LoopNext::Finished(result) => progress matches LoopProgress::Finished(got) && got
                    == result,
            },
    {
        let phase = self.phase;
        match (phase, event) {
            (_, LoopEvent::Fault(reason)) => LoopProgress::Finished(
                Err(ServiceError::Internal(reason)),
            ),
            (LoopPhase::Binding { asked }, LoopEvent::Bound(at)) => {
                if asked.resolves_to(at) {
                    LoopProgress::Continue(
                        RunLoop { phase: LoopPhase::Publishing { at } },
                        LoopAction::Publish { at },
                    )
                } else {
                    LoopProgress::Finished(Err(ServiceError::BindFailed))
                }
            },
            (LoopPhase::Binding { .. }, LoopEvent::BindFailed) => LoopProgress::Finished(
                Err(ServiceError::BindFailed),
            ),
            (LoopPhase::Publishing { at }, LoopEvent::Published) => LoopProgress::Continue(
                RunLoop { phase: LoopPhase::Serving { at } },
                LoopAction::Serve,
            ),
            (LoopPhase::Serving { .. }, LoopEvent::Accepted) => LoopProgress::Continue(
                RunLoop { phase },
                LoopAction::Handle,
            ),
            (LoopPhase::Serving { at }, LoopEvent::ShutdownObserved) => LoopProgress::Continue(
                RunLoop { phase: LoopPhase::Draining { at } },
                LoopAction::Drain,
            ),
            (LoopPhase::Draining { .. }, LoopEvent::Accepted) => LoopProgress::Continue(
                RunLoop { phase },
                LoopAction::Refuse,
            ),
            (LoopPhase::Draining { .. }, LoopEvent::Drained) => LoopProgress::Finished(Ok(())),
            (LoopPhase::Draining { .. }, LoopEvent::GraceElapsed) => LoopProgress::Finished(
                Ok(()),
            ),
            _ => LoopProgress::Continue(RunLoop { phase }, LoopAction::Carry),
        }
    }
}

/// The address of the listener in a phase, once there is one.
pub open spec fn spec_bound_address(phase: LoopPhase) -> Option<Address> {
    match phase {
        LoopPhase::Binding { .. } => None,
        LoopPhase::Publishing { at } => Some(at),
        LoopPhase::Serving { at } => Some(at),
        LoopPhase::Draining { at } => Some(at),
    }
}

/// Where a sequence of events leaves a loop.
pub enum LoopTrace {
    Running(LoopPhase),
    Ended(Result<(), ServiceError>),
}

/// Where the events `events`, reported in order to a loop that was asked to
/// listen on `asked`, leave it. Events that come after its end are not
/// looked at.
pub open spec fn loop_trace(asked: Address, events: Seq<LoopEvent>) -> LoopTrace
    decreases events.len(),
{
    if events.len() == 0 {
        LoopTrace::Running(LoopPhase::Binding { asked })
    } else {
        match loop_trace(asked, events.drop_last()) {
            LoopTrace::Running(phase) => match loop_next(phase, events.last()) {
                LoopNext::Continue(then, _) => LoopTrace::Running(then),
                LoopNext::Finished(result) => LoopTrace::Ended(result),
            },
            LoopTrace::Ended(result) => LoopTrace::Ended(result),
        }
    }
}

/// The actions that such a loop hands out, in order: the bind at its
/// beginning, and one more for each event that it goes on with. The action
/// at index `i + 1` answers the event at index `i`.
pub open spec fn loop_issued(asked: Address, events: Seq<LoopEvent>) -> Seq<LoopAction>
    decreases events.len(),
{
    if events.len() == 0 {
        seq![LoopAction::Bind { addr: asked }]
    } else {
        let before = loop_issued(asked, events.drop_last());
        match loop_trace(asked, events.drop_last()) {
            LoopTrace::Running(phase) => match loop_next(phase, events.last()) {
                LoopNext::Continue(_, action) => before.push(action),
                LoopNext::Finished(_) => before,
            },
            LoopTrace::Ended(_) => before,
        }
    }
}

/// The stage of the loop that an action belongs to: 0 for binding, 1 for
/// publishing, 2 for serving, 3 for draining. `Carry` belongs to none, and
/// has -1.
pub open spec fn stage_of(action: LoopAction) -> int {
    match action {
        LoopAction::Bind { .. } => 0,
        LoopAction::Publish { .. } => 1,
        LoopAction::Serve => 2,
        LoopAction::Handle => 2,
        LoopAction::Drain => 3,
        LoopAction::Refuse => 3,
        LoopAction::Carry => -1,
    }
}

/// Whether an action begins its stage.
pub open spec fn opens_stage(action: LoopAction) -> bool {
    action is Bind || action is Publish || action is Serve || action is Drain
}

/// The stage that a phase belongs to.
pub open spec fn stage_of_phase(phase: LoopPhase) -> int {
    match phase {
        LoopPhase::Binding { .. } => 0,
        LoopPhase::Publishing { .. } => 1,
        LoopPhase::Serving { .. } => 2,
        LoopPhase::Draining { .. } => 3,
    }
}

/// Whether the stage `stage` has been begun among `actions`.
pub open spec fn opened(actions: Seq<LoopAction>, stage: int) -> bool {
    exists|i: int|
        0 <= i < actions.len() && opens_stage(#[trigger] actions[i]) && stage_of(actions[i])
            == stage
}

/// Whether `action` can be the answer to `event`.
pub open spec fn answers(event: LoopEvent, action: LoopAction) -> bool {
    match action {
        LoopAction::Bind { .. } => false,
        LoopAction::Publish { at } => event == LoopEvent::Bound(at),
        LoopAction::Serve => event == LoopEvent::Published,
        LoopAction::Handle => event == LoopEvent::Accepted,
        LoopAction::Refuse => event == LoopEvent::Accepted,
        LoopAction::Drain => event == LoopEvent::ShutdownObserved,
        LoopAction::Carry => true,
    }
}

/// What holds of the actions of every loop: the first is the bind; each
/// later one answers the event before it; an address that is published is
/// one that the address asked for resolves to; the stages come in order,
/// each begun once and not before the one before it; and no action belongs
/// to a stage beyond `reached`, all stages up to which have been begun.
pub open spec fn well_staged(
    asked: Address,
    events: Seq<LoopEvent>,
    actions: Seq<LoopAction>,
    reached: int,
) -> bool {
    &&& 1 <= actions.len() <= events.len() + 1
    &&& actions[0] == (LoopAction::Bind { addr: asked })
    &&& forall|i: int| 1 <= i < actions.len() ==> answers(events[i - 1], #[trigger] actions[i])
    &&& forall|i: int|
        0 <= i < actions.len() ==> (#[trigger] actions[i] matches LoopAction::Publish { at }
            ==> asked.spec_resolves_to(at))
    &&& forall|i: int| 0 <= i < actions.len() ==> stage_of(#[trigger] actions[i]) <= reached
    &&& forall|i: int, j: int|
        0 <= i < j < actions.len() && stage_of(#[trigger] actions[i]) >= 0 ==> {
            let later = stage_of(#[trigger] actions[j]);
            later == -1 || if opens_stage(actions[j]) {
                stage_of(actions[i]) < later
            } else {
                stage_of(actions[i]) <= later
            }
        }
    &&& forall|stage: int| 0 <= stage <= reached ==> #[trigger] opened(actions, stage)
}

/// The highest stage that a loop has begun.
pub open spec fn reached_stage(actions: Seq<LoopAction>) -> int {
    if opened(actions, 3) {
        3
    } else if opened(actions, 2) {
        2
    } else if opened(actions, 1) {
        1
    } else {
        0
    }
}

/// The actions of every loop are well staged. While the loop runs it has
/// handed out one action more than it got events, its stage is the highest
/// that was begun, and the address of its listener is the one that was
/// published. A loop returns normally only after it began to drain, which
/// it does only when the stop signal is observed while it serves.
pub proof fn law_loop_is_staged(asked: Address, events: Seq<LoopEvent>)
    ensures
        match loop_trace(asked, events) {
            LoopTrace::Running(phase) => {
                &&& well_staged(
                    asked,
                    events,
                    loop_issued(asked, events),
                    stage_of_phase(phase),
                )
                &&& loop_issued(asked, events).len() == events.len() + 1
                &&& published_address(loop_issued(asked, events), spec_bound_address(phase))
                &&& phase is Binding ==> phase == (LoopPhase::Binding { asked })
            },
            LoopTrace::Ended(Ok(())) => well_staged(
                asked,
                events,
                loop_issued(asked, events),
                3,
            ),
            LoopTrace::Ended(Err(_)) => exists|reached: int|
                0 <= reached <= 3 && #[trigger] well_staged(
                    asked,
                    events,
                    loop_issued(asked, events),
                    reached,
                ),
        },
    decreases events.len(),
{
    let actions = loop_issued(asked, events);
    if events.len() == 0 {
        assert(opens_stage(actions[0]) && stage_of(actions[0]) == 0);
        assert(opened(actions, 0));
        assert(well_staged(asked, events, actions, 0));
    } else {
        let front = events.drop_last();
        let before = loop_issued(asked, front);
        law_loop_is_staged(asked, front);
        assert(forall|i: int| 0 <= i < front.len() ==> front[i] == events[i]);
        match loop_trace(asked, front) {
            LoopTrace::Running(phase) => {
                let was = stage_of_phase(phase);
                assert(well_staged(asked, front, before, was));
                match loop_next(phase, events.last()) {
                    LoopNext::Continue(then, action) => {
                        let now = stage_of_phase(then);
                        assert(actions == before.push(action));
                        assert(forall|i: int| 0 <= i < before.len() ==> actions[i] == before[i]);
                        assert(actions[before.len() as int] == action);
                        assert(answers(events[before.len() - 1], action));
                        assert forall|stage: int| 0 <= stage <= now implies #[trigger] opened(
                            actions,
                            stage,
                        ) by {
                            if stage <= was {
                                assert(opened(before, stage));
                                let i = choose|i: int|
                                    0 <= i < before.len() && opens_stage(#[trigger] before[i])
                                        && stage_of(before[i]) == stage;
                                assert(opens_stage(actions[i]) && stage_of(actions[i]) == stage);
                            } else {
                                let i = before.len() as int;
                                assert(opens_stage(actions[i]) && stage_of(actions[i]) == stage);
                            }
                        }
                        assert(well_staged(asked, events, actions, now));
                        lemma_published_address_extends(before, action, phase, then);
                    },
                    LoopNext::Finished(result) => {
                        assert(actions == before);
                        assert(well_staged(asked, events, actions, was));
                        if result is Ok {
                            assert(was == 3);
                        }
                    },
                }
            },
            LoopTrace::Ended(Ok(())) => {
                assert(well_staged(asked, front, before, 3));
                assert(well_staged(asked, events, actions, 3));
            },
            LoopTrace::Ended(Err(_)) => {
                let reached = choose|reached: int|
                    0 <= reached <= 3 && #[trigger] well_staged(asked, front, before, reached);
                assert(well_staged(asked, events, actions, reached));
            },
        }
    }
}

/// Whether `addr` is the address that `actions` publish: none if nothing
/// is published, else the address of every publishing action.
pub open spec fn published_address(actions: Seq<LoopAction>, addr: Option<Address>) -> bool {
    match addr {
        None => forall|i: int| 0 <= i < actions.len() ==> !(#[trigger] actions[i] is Publish),
        Some(at) => {
            &&& exists|i: int|
                0 <= i < actions.len() && #[trigger] actions[i] == (LoopAction::Publish { at })
            &&& forall|i: int|
                0 <= i < actions.len() && #[trigger] actions[i] is Publish ==> actions[i]
                    == (LoopAction::Publish { at })
        },
    }
}

proof fn lemma_published_address_extends(
    before: Seq<LoopAction>,
    action: LoopAction,
    phase: LoopPhase,
    then: LoopPhase,
)
    requires
        published_address(before, spec_bound_address(phase)),
        action is Publish ==> phase is Binding && then == (LoopPhase::Publishing {
            at: action->at,
        }),
        !(action is Publish) ==> spec_bound_address(then) == spec_bound_address(phase),
    ensures
        published_address(before.push(action), spec_bound_address(then)),
{
    let actions = before.push(action);
    assert(forall|i: int| 0 <= i < before.len() ==> actions[i] == before[i]);
    assert(actions[before.len() as int] == action);
    match spec_bound_address(then) {
        None => {},
        Some(at) => {
            if action is Publish {
                assert(actions[before.len() as int] == (LoopAction::Publish { at }));
            } else {
                let i = choose|i: int|
                    0 <= i < before.len() && #[trigger] before[i] == (LoopAction::Publish { at });
                assert(actions[i] == (LoopAction::Publish { at }));
            }
        },
    }
}

/// The stage that the actions of a loop are well staged up to.
proof fn lemma_some_stage(asked: Address, events: Seq<LoopEvent>) -> (reached: int)
    ensures
        0 <= reached <= 3,
        well_staged(asked, events, loop_issued(asked, events), reached),
{
    law_loop_is_staged(asked, events);
    match loop_trace(asked, events) {
        LoopTrace::Running(phase) => stage_of_phase(phase),
        LoopTrace::Ended(Ok(())) => 3,
        LoopTrace::Ended(Err(_)) => choose|reached: int|
            0 <= reached <= 3 && #[trigger] well_staged(
                asked,
                events,
                loop_issued(asked, events),
                reached,
            ),
    }
}

/// The action that begins the stage of the action at index `k`, found
/// before it.
proof fn lemma_opener_before(asked: Address, events: Seq<LoopEvent>, k: int) -> (o: int)
    requires
        0 <= k < loop_issued(asked, events).len(),
        stage_of(loop_issued(asked, events)[k]) >= 0,
        !opens_stage(loop_issued(asked, events)[k]),
    ensures
        0 <= o < k,
        opens_stage(loop_issued(asked, events)[o]),
        stage_of(loop_issued(asked, events)[o]) == stage_of(loop_issued(asked, events)[k]),
{
    let actions = loop_issued(asked, events);
    let reached = lemma_some_stage(asked, events);
    let stage = stage_of(actions[k]);
    assert(opened(actions, stage));
    let o = choose|o: int|
        0 <= o < actions.len() && opens_stage(#[trigger] actions[o]) && stage_of(actions[o])
            == stage;
    if o > k {
        assert(stage_of(actions[k]) < stage_of(actions[o]));
    }
    o
}

/// The action that begins the stage before that of the opening action at
/// index `k`, found before it.
proof fn lemma_earlier_stage_before(asked: Address, events: Seq<LoopEvent>, k: int) -> (o: int)
    requires
        0 <= k < loop_issued(asked, events).len(),
        stage_of(loop_issued(asked, events)[k]) >= 1,
        opens_stage(loop_issued(asked, events)[k]),
    ensures
        0 <= o < k,
        opens_stage(loop_issued(asked, events)[o]),
        stage_of(loop_issued(asked, events)[o]) == stage_of(loop_issued(asked, events)[k]) - 1,
{
    let actions = loop_issued(asked, events);
    let reached = lemma_some_stage(asked, events);
    let stage = stage_of(actions[k]) - 1;
    assert(opened(actions, stage));
    let o = choose|o: int|
        0 <= o < actions.len() && opens_stage(#[trigger] actions[o]) && stage_of(actions[o])
            == stage;
    if o > k {
        assert(stage_of(actions[k]) < stage_of(actions[o]));
    }
    o
}

/// The address is published before anything is accepted, and nothing is
/// accepted after the stop signal was observed. Whenever a loop hands out
/// the handling of a connection, it has before that published an address
/// that the address asked for resolves to, then begun to serve on the report
/// that the address is known, and it has not yet begun to drain.
pub proof fn law_handles_while_serving(asked: Address, events: Seq<LoopEvent>, k: int)
    requires
        0 <= k < loop_issued(asked, events).len(),
        loop_issued(asked, events)[k] is Handle,
    ensures
        exists|p: int, s: int|
            0 < p < s < k && (#[trigger] loop_issued(asked, events)[p]) is Publish
                && asked.spec_resolves_to(loop_issued(asked, events)[p]->at) && (
            #[trigger] loop_issued(asked, events)[s]) is Serve && events[s - 1]
                == LoopEvent::Published,
        forall|d: int| 0 <= d < k ==> !((#[trigger] loop_issued(asked, events)[d]) is Drain),
        events[k - 1] == LoopEvent::Accepted,
{
    let actions = loop_issued(asked, events);
    let reached = lemma_some_stage(asked, events);
    let s = lemma_opener_before(asked, events, k);
    let p = lemma_earlier_stage_before(asked, events, s);
    assert(actions[s] is Serve);
    assert(actions[p] is Publish);
    assert(answers(events[s - 1], actions[s]));
    assert(answers(events[k - 1], actions[k]));
    assert forall|d: int| 0 <= d < k implies !((#[trigger] actions[d]) is Drain) by {
        if actions[d] is Drain {
            assert(stage_of(actions[d]) <= stage_of(actions[k]));
        }
    }
}

/// A loop returns normally only after the stop signal. If a loop has
/// returned `Ok`, it had served and then begun to drain, on the report that
/// the stop signal was observed.
pub proof fn law_normal_return_follows_stop(asked: Address, events: Seq<LoopEvent>)
    requires
        loop_trace(asked, events) == LoopTrace::Ended(Ok(())),
    ensures
        exists|s: int, d: int|
            0 < s < d < loop_issued(asked, events).len() && (#[trigger] loop_issued(
                asked,
                events,
            )[s]) is Serve && (#[trigger] loop_issued(asked, events)[d]) is Drain && events[d
                - 1] == LoopEvent::ShutdownObserved,
{
    let actions = loop_issued(asked, events);
    law_loop_is_staged(asked, events);
    assert(well_staged(asked, events, actions, 3));
    assert(opened(actions, 3));
    let d = choose|d: int|
        0 <= d < actions.len() && opens_stage(#[trigger] actions[d]) && stage_of(actions[d]) == 3;
    let s = lemma_earlier_stage_before(asked, events, d);
    assert(actions[d] is Drain);
    assert(actions[s] is Serve);
    assert(answers(events[d - 1], actions[d]));
}

/// The published address does not change. A loop publishes at most once,
/// and as long as it runs, the address of its listener is the address it
/// published.
pub proof fn law_address_is_published_once(
    asked: Address,
    events: Seq<LoopEvent>,
    i: int,
    j: int,
)
    requires
        0 <= i <= j < loop_issued(asked, events).len(),
        loop_issued(asked, events)[i] is Publish,
        loop_issued(asked, events)[j] is Publish,
    ensures
        i == j,
        asked.spec_resolves_to(loop_issued(asked, events)[i]->at),
        loop_trace(asked, events) matches LoopTrace::Running(phase) ==> spec_bound_address(phase)
            == Some(loop_issued(asked, events)[i]->at),
{
    let actions = loop_issued(asked, events);
    let reached = lemma_some_stage(asked, events);
    law_loop_is_staged(asked, events);
    if i < j {
        assert(stage_of(actions[i]) < stage_of(actions[j]));
    }
}

} // verus!
