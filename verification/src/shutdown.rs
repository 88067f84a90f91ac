//! A stop signal that fires at most once.
//!
//! The signal starts out pending and becomes fired the first time it is
//! fired; it stays fired for good. Waiters that arrive while it is pending
//! are remembered, and the firing call hands back all of them so that each
//! can be woken. Waiters that arrive later are told at once that the signal
//! has fired.
//!
//! The signal knows nothing of its holders. If every holder that could fire
//! it goes away, the signal stays pending and its waiters stay suspended: a
//! caller that needs them released fires the signal before it lets go.

use vstd::prelude::*;

verus! {

/// What a waiter is told.
#[derive(Clone, Copy, Debug, PartialEq, Eq, Structural)]
pub enum WaitOutcome {
    /// The signal has fired: go on.
    Ready,
    /// The signal is pending: suspend until woken.
    Suspended,
}

/// One call on a signal.
pub enum SignalOp {
    Fire,
    Wait(u64),
}

/// The signal as a mathematical value.
pub struct SignalModel {
    pub fired: bool,
    /// The suspended waiters, in order of arrival.
    pub waiting: Seq<u64>,
}

impl SignalModel {
    pub open spec fn pending() -> SignalModel {
        SignalModel { fired: false, waiting: Seq::empty() }
    }

    /// No waiter is remembered twice, and none once the signal has fired.
    pub open spec fn wf(self) -> bool {
        &&& self.waiting.no_duplicates()
        &&& self.fired ==> self.waiting.len() == 0
    }

    pub open spec fn fire(self) -> SignalModel {
        SignalModel { fired: true, waiting: Seq::empty() }
    }

    pub open spec fn wait(self, waiter: u64) -> SignalModel {
        if self.fired || self.waiting.contains(waiter) {
            self
        } else {
            SignalModel { fired: false, waiting: self.waiting.push(waiter) }
        }
    }

    pub open spec fn outcome(self) -> WaitOutcome {
        if self.fired {
            WaitOutcome::Ready
        } else {
            WaitOutcome::Suspended
        }
    }

    pub open spec fn apply(self, op: SignalOp) -> SignalModel {
        match op {
            SignalOp::Fire => self.fire(),
            SignalOp::Wait(waiter) => self.wait(waiter),
        }
    }

    /// The signal after the calls `ops`, made one after the other.
    pub open spec fn run(self, ops: Seq<SignalOp>) -> SignalModel
        decreases ops.len(),
    {
        if ops.len() == 0 {
            self
        } else {
            self.run(ops.drop_last()).apply(ops.last())
        }
    }

    /// How many of the calls `ops` took the signal from pending to fired.
    pub open spec fn transitions(self, ops: Seq<SignalOp>) -> nat
        decreases ops.len(),
    {
        if ops.len() == 0 {
            0
        } else {
            let before = self.run(ops.drop_last());
            let here: nat = if ops.last() is Fire && !before.fired {
                1
            } else {
                0
            };
            self.transitions(ops.drop_last()) + here
        }
    }
}

/// Appending a value that a duplicate-free sequence lacks leaves it
/// duplicate-free.
proof fn lemma_push_absent_keeps_distinct(s: Seq<u64>, x: u64)
    requires
        s.no_duplicates(),
        !s.contains(x),
    ensures
        s.push(x).no_duplicates(),
{
}

/// The shared state of a stop signal.
pub struct ShutdownSignal {
    fired: bool,
    waiters: Vec<u64>,
}

impl View for ShutdownSignal {
    type V = SignalModel;

    closed spec fn view(&self) -> SignalModel {
        SignalModel { fired: self.fired, waiting: self.waiters@ }
    }
}

impl ShutdownSignal {
    #[verifier::type_invariant]
    spec fn inv(self) -> bool {
        self@.wf()
    }

    /// A pending signal without waiters.
    pub fn new() -> (signal: ShutdownSignal)
        ensures
            signal@ == SignalModel::pending(),
            signal@.wf(),
    {
        ShutdownSignal { fired: false, waiters: Vec::new() }
    }

    /// Whether the signal has fired.
    pub fn is_fired(&self) -> (fired: bool)
        ensures
            fired == self@.fired,
            self@.wf(),
    {
        proof {
            use_type_invariant(self);
        }
        self.fired
    }

    /// Fires the signal. The first call returns the waiters to wake, in
    /// order of arrival; every later call changes nothing and returns
    /// `None`.
    pub fn fire(&mut self) -> (woken: Option<Vec<u64>>)
        ensures
            final(self)@ == old(self)@.fire(),
            final(self)@.wf(),
            old(self)@.fired <==> woken is None,
            woken matches Some(list) ==> list@ == old(self)@.waiting && list@.no_duplicates(),
    {
        proof {
            use_type_invariant(&*self);
        }
        if self.fired {
            assert(self.waiters@ =~= Seq::<u64>::empty());
            return None;
        }
        let mut woken: Vec<u64> = Vec::new();
        std::mem::swap(&mut self.waiters, &mut woken);
        self.fired = true;
        Some(woken)
    }

    /// Answers a waiter. On a fired signal the answer is `Ready` and nothing
    /// changes. On a pending signal the answer is `Suspended`, and the
    /// waiter is remembered, once, for the firing call to hand back.
    pub fn wait(&mut self, waiter: u64) -> (outcome: WaitOutcome)
        ensures
            final(self)@ == old(self)@.wait(waiter),
            final(self)@.wf(),
            outcome == old(self)@.outcome(),
    {
        proof {
            use_type_invariant(&*self);
        }
        if self.fired {
            return WaitOutcome::Ready;
        }
        if !self.is_waiting(waiter) {
            let mut list: Vec<u64> = Vec::new();
            std::mem::swap(&mut self.waiters, &mut list);
            list.push(waiter);
            proof {
                lemma_push_absent_keeps_distinct(old(self)@.waiting, waiter);
            }
            self.waiters = list;
        }
        WaitOutcome::Suspended
    }

    /// Whether `waiter` is among the suspended waiters.
    pub fn is_waiting(&self, waiter: u64) -> (found: bool)
        ensures
            found == self@.waiting.contains(waiter),
    {
        let mut i: usize = 0;
        while i < self.waiters.len()
            invariant
                i <= self.waiters@.len(),
                forall|k: int| 0 <= k < i ==> self.waiters@[k] != waiter,
            decreases self.waiters@.len() - i,
        {
            if self.waiters[i] == waiter {
                return true;
            }
            i += 1;
        }
        false
    }

    /// How many waiters are suspended.
    pub fn waiting_count(&self) -> (count: usize)
        ensures
            count == self@.waiting.len(),
    {
        self.waiters.len()
    }
}

/// Whether some call among `ops` is a firing call.
pub open spec fn has_fire(ops: Seq<SignalOp>) -> bool {
    exists|i: int| 0 <= i < ops.len() && (#[trigger] ops[i]) is Fire
}

/// A run ends fired exactly if it began fired or held a firing call.
pub proof fn law_fired_after_a_fire(m: SignalModel, ops: Seq<SignalOp>)
    ensures
        m.run(ops).fired <==> m.fired || has_fire(ops),
    decreases ops.len(),
{
    if ops.len() > 0 {
        let front = ops.drop_last();
        law_fired_after_a_fire(m, front);
        lemma_fire_in_front(ops);
    }
}

/// A firing call among `ops` is the last of them or is among those before
/// the last, and the other way round.
proof fn lemma_fire_in_front(ops: Seq<SignalOp>)
    requires
        ops.len() > 0,
    ensures
        has_fire(ops) <==> has_fire(ops.drop_last()) || ops.last() is Fire,
{
    let front = ops.drop_last();
    if has_fire(front) {
        let i = choose|i: int| 0 <= i < front.len() && (#[trigger] front[i]) is Fire;
        assert(ops[i] is Fire);
    }
    if ops.last() is Fire {
        assert(ops[ops.len() - 1] is Fire);
    }
    if has_fire(ops) {
        let i = choose|i: int| 0 <= i < ops.len() && (#[trigger] ops[i]) is Fire;
        if i < front.len() {
            assert(front[i] is Fire);
        }
    }
}

/// Every run keeps the signal well formed.
pub proof fn law_run_stays_well_formed(m: SignalModel, ops: Seq<SignalOp>)
    requires
        m.wf(),
    ensures
        m.run(ops).wf(),
    decreases ops.len(),
{
    if ops.len() > 0 {
        let before = m.run(ops.drop_last());
        law_run_stays_well_formed(m, ops.drop_last());
        match ops.last() {
            SignalOp::Fire => {},
            SignalOp::Wait(waiter) => {
                if !before.fired && !before.waiting.contains(waiter) {
                    lemma_push_absent_keeps_distinct(before.waiting, waiter);
                }
            },
        }
    }
}

/// A signal that is never fired never lets a waiter through: if a pending
/// signal receives only waits, it is still pending afterwards, and each of
/// those waits was answered `Suspended`.
pub proof fn law_unfired_never_ready(m: SignalModel, ops: Seq<SignalOp>)
    requires
        !m.fired,
        !has_fire(ops),
    ensures
        !m.run(ops).fired,
        m.transitions(ops) == 0,
        forall|i: int|
            0 <= i < ops.len() ==> (#[trigger] m.run(ops.take(i))).outcome()
                == WaitOutcome::Suspended,
    decreases ops.len(),
{
    law_fired_after_a_fire(m, ops);
    assert forall|i: int| 0 <= i < ops.len() implies (#[trigger] m.run(ops.take(i))).outcome()
        == WaitOutcome::Suspended by {
        let head = ops.take(i);
        if has_fire(head) {
            let k = choose|k: int| 0 <= k < head.len() && (#[trigger] head[k]) is Fire;
            assert(ops[k] is Fire);
        }
        law_fired_after_a_fire(m, head);
    }
    if ops.len() > 0 {
        lemma_fire_in_front(ops);
        law_unfired_never_ready(m, ops.drop_last());
    }
}

/// Fired is terminal: whatever calls a fired signal receives, it stays as it
/// is, no call counts as a transition, and every wait is answered `Ready`.
pub proof fn law_fired_is_terminal(m: SignalModel, ops: Seq<SignalOp>)
    requires
        m.wf(),
        m.fired,
    ensures
        m.run(ops) == m,
        m.run(ops).outcome() == WaitOutcome::Ready,
        m.transitions(ops) == 0,
    decreases ops.len(),
{
    if ops.len() > 0 {
        law_fired_is_terminal(m, ops.drop_last());
        assert(m.waiting =~= Seq::<u64>::empty());
    }
}

/// One firing releases every wait. The waiters suspended at that moment are
/// exactly those that the firing call hands back to be woken, it leaves none
/// behind, and every wait made afterwards is answered `Ready`, whatever else
/// is called in between.
pub proof fn law_fire_releases_all(m: SignalModel, later: Seq<SignalOp>)
    requires
        m.wf(),
    ensures
        m.fire().waiting.len() == 0,
        m.fire().run(later) == m.fire(),
        m.fire().run(later).outcome() == WaitOutcome::Ready,
{
    law_fired_is_terminal(m.fire(), later);
}

/// A waiter that was told to suspend is among those that the next firing
/// hands back.
pub proof fn law_suspended_waiter_is_woken(m: SignalModel, waiter: u64)
    requires
        !m.fired,
    ensures
        m.wait(waiter).outcome() == WaitOutcome::Suspended,
        m.wait(waiter).waiting.contains(waiter),
{
    if !m.waiting.contains(waiter) {
        let after = m.waiting.push(waiter);
        assert(after[after.len() - 1] == waiter);
    }
}

/// Firing is idempotent: a run of one or more firing calls leaves the signal
/// as a single firing call does, and exactly the first of them is a
/// transition if the signal was pending.
pub proof fn law_repeated_fire_is_one_fire(m: SignalModel, n: nat)
    requires
        n >= 1,
    ensures
        m.fire().fire() == m.fire(),
        m.run(Seq::new(n, |i: int| SignalOp::Fire)) == m.fire(),
        !m.fired ==> m.transitions(Seq::new(n, |i: int| SignalOp::Fire)) == 1,
    decreases n,
{
    let ops = Seq::new(n, |i: int| SignalOp::Fire);
    let front = Seq::new((n - 1) as nat, |i: int| SignalOp::Fire);
    assert(ops.drop_last() =~= front);
    if n == 1 {
        assert(m.transitions(front) == 0);
    } else {
        law_repeated_fire_is_one_fire(m, (n - 1) as nat);
    }
}

/// However many firing calls arrive, and in whatever order they fall among
/// the waits, a pending signal makes exactly one transition if any of them
/// fires it and none otherwise.
pub proof fn law_single_transition(m: SignalModel, ops: Seq<SignalOp>)
    requires
        !m.fired,
    ensures
        m.transitions(ops) == if has_fire(ops) { 1nat } else { 0nat },
    decreases ops.len(),
{
    if ops.len() > 0 {
        let front = ops.drop_last();
        law_single_transition(m, front);
        law_fired_after_a_fire(m, front);
        lemma_fire_in_front(ops);
    }
}

} // verus!
