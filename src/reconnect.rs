//! Decisions of the reconnection supervisor. The runtime observes the
//! client's connection status, runs the timeout timer and performs rejoin
//! requests; it feeds each outcome to [`ReconnectSupervisor`] and performs the
//! action that comes back.
use vstd::prelude::*;

verus! {

/// Number of rejoin attempts allowed in one reconnection cycle.
pub const REJOIN_ATTEMPTS: u32 = 3;

/// Seconds a reconnection cycle may last before the room is left.
pub const RECONNECT_TIMEOUT_SECS: u64 = 30;

/// Status of the client's connection to the coordinating server.
#[derive(Clone, Copy, Debug, PartialEq, Eq, Structural)]
pub enum ConnectionStatus {
    Connected,
    Disconnected,
    SignedOut,
}

#[derive(Clone, Copy, Debug, PartialEq, Eq, Structural)]
pub enum SupervisorPhase {
    /// Connected; waiting for the next change of connection status.
    Watching,
    /// In a reconnection cycle, waiting for the connection to come back.
    AwaitingStatus,
    /// In a reconnection cycle, one rejoin request is in flight.
    RejoinInFlight,
    /// Gave up; the room is to be left.
    Finished,
}

/// What the runtime is asked to do after an observation.
#[derive(Clone, Copy, Debug, PartialEq, Eq, Structural)]
pub enum SupervisorAction {
    /// Nothing to do until the next observation.
    Wait,
    /// Mark the room as rejoining and start the cycle's timeout timer; when
    /// `attempt_now`, also send one rejoin request.
    BeginRejoining { attempt_now: bool },
    /// Send one rejoin request.
    AttemptRejoin,
    /// The client signed out as a cycle began: mark the room as rejoining,
    /// then leave it and report that reconnection failed.
    BeginRejoiningThenGiveUp,
    /// The rejoin succeeded; cancel the timer and watch the connection again.
    Reconnected,
    /// Leave the room and report that reconnection failed.
    GiveUp,
}

#[derive(Clone, Copy, Debug, PartialEq, Eq, Structural)]
pub struct ReconnectSupervisor {
    pub phase: SupervisorPhase,
    /// Rejoin attempts left in the current cycle.
    pub remaining_attempts: u32,
    /// Most recently observed connection status.
    pub status: ConnectionStatus,
    /// A status change arrived while a rejoin request was in flight.
    pub changed_during_attempt: bool,
}

/// Phase and action when a cycle with attempts left looks at `status`.
pub open spec fn evaluation(status: ConnectionStatus) -> (SupervisorPhase, SupervisorAction) {
    match status {
        ConnectionStatus::Connected => (SupervisorPhase::RejoinInFlight, SupervisorAction::AttemptRejoin),
        ConnectionStatus::SignedOut => (SupervisorPhase::Finished, SupervisorAction::GiveUp),
        ConnectionStatus::Disconnected => (SupervisorPhase::AwaitingStatus, SupervisorAction::Wait),
    }
}

/// Phase and action when a new cycle starts while the status is `status`.
pub open spec fn cycle_start(status: ConnectionStatus) -> (SupervisorPhase, SupervisorAction) {
    match status {
        ConnectionStatus::Connected => (
            SupervisorPhase::RejoinInFlight,
            SupervisorAction::BeginRejoining { attempt_now: true },
        ),
        ConnectionStatus::SignedOut => (SupervisorPhase::Finished, SupervisorAction::BeginRejoiningThenGiveUp),
        ConnectionStatus::Disconnected => (
            SupervisorPhase::AwaitingStatus,
            SupervisorAction::BeginRejoining { attempt_now: false },
        ),
    }
}

/// The action marks the room as rejoining before anything else.
pub open spec fn marks_rejoining(a: SupervisorAction) -> bool {
    a is BeginRejoining || a == SupervisorAction::BeginRejoiningThenGiveUp
}

/// Every reconnection cycle starts by marking the room as rejoining, also
/// when the client has signed out.
pub proof fn lemma_cycle_marks_rejoining(status: ConnectionStatus)
    ensures
        marks_rejoining(cycle_start(status).1),
{
}

/// The action sends a rejoin request.
pub open spec fn sends_rejoin(a: SupervisorAction) -> bool {
    a == SupervisorAction::AttemptRejoin || a == (SupervisorAction::BeginRejoining { attempt_now: true })
}

/// An observation fed to the supervisor.
#[derive(Clone, Copy, Debug, PartialEq, Eq, Structural)]
pub enum SupervisorEvent {
    Status(ConnectionStatus),
    RejoinResult(bool),
    Timeout,
}

impl ReconnectSupervisor {
    /// State and action after observing connection status `status`.
    pub open spec fn status_step(self, status: ConnectionStatus) -> (ReconnectSupervisor, SupervisorAction) {
        match self.phase {
            SupervisorPhase::Watching => (Self::started(status), cycle_start(status).1),
            SupervisorPhase::AwaitingStatus => (
                ReconnectSupervisor { phase: evaluation(status).0, status, ..self },
                evaluation(status).1,
            ),
            SupervisorPhase::RejoinInFlight => (
                ReconnectSupervisor { status, changed_during_attempt: true, ..self },
                SupervisorAction::Wait,
            ),
            SupervisorPhase::Finished => (ReconnectSupervisor { status, ..self }, SupervisorAction::Wait),
        }
    }

    /// State and action after the rejoin request in flight succeeded or failed.
    pub open spec fn result_step(self, succeeded: bool) -> (ReconnectSupervisor, SupervisorAction) {
        if self.phase != SupervisorPhase::RejoinInFlight {
            (self, SupervisorAction::Wait)
        } else if succeeded {
            if self.status == ConnectionStatus::Connected {
                (
                    ReconnectSupervisor { phase: SupervisorPhase::Watching, changed_during_attempt: false, ..self },
                    SupervisorAction::Reconnected,
                )
            } else {
                (Self::started(self.status), cycle_start(self.status).1)
            }
        } else {
            let left = (self.remaining_attempts - 1) as u32;
            if left == 0 {
                (
                    ReconnectSupervisor {
                        phase: SupervisorPhase::Finished,
                        remaining_attempts: left,
                        changed_during_attempt: false,
                        ..self
                    },
                    SupervisorAction::GiveUp,
                )
            } else if self.changed_during_attempt {
                (
                    ReconnectSupervisor {
                        phase: evaluation(self.status).0,
                        remaining_attempts: left,
                        changed_during_attempt: false,
                        ..self
                    },
                    evaluation(self.status).1,
                )
            } else {
                (
                    ReconnectSupervisor { phase: SupervisorPhase::AwaitingStatus, remaining_attempts: left, ..self },
                    SupervisorAction::Wait,
                )
            }
        }
    }

    /// State and action after the cycle's timeout expired.
    pub open spec fn timeout_step(self) -> (ReconnectSupervisor, SupervisorAction) {
        if self.phase == SupervisorPhase::AwaitingStatus || self.phase == SupervisorPhase::RejoinInFlight {
            (
                ReconnectSupervisor { phase: SupervisorPhase::Finished, changed_during_attempt: false, ..self },
                SupervisorAction::GiveUp,
            )
        } else {
            (self, SupervisorAction::Wait)
        }
    }

    pub open spec fn step(self, e: SupervisorEvent) -> (ReconnectSupervisor, SupervisorAction) {
        match e {
            SupervisorEvent::Status(st) => self.status_step(st),
            SupervisorEvent::RejoinResult(ok) => self.result_step(ok),
            SupervisorEvent::Timeout => self.timeout_step(),
        }
    }
}

/// The supervisor after observing `events` in order.
pub open spec fn run_state(s: ReconnectSupervisor, events: Seq<SupervisorEvent>) -> ReconnectSupervisor
    decreases events.len(),
{
    if events.len() == 0 {
        s
    } else {
        run_state(s, events.drop_last()).step(events.last()).0
    }
}

/// Rejoin requests sent while observing `events` in order.
pub open spec fn run_sends(s: ReconnectSupervisor, events: Seq<SupervisorEvent>) -> nat
    decreases events.len(),
{
    if events.len() == 0 {
        0
    } else {
        run_sends(s, events.drop_last()) + if sends_rejoin(run_state(s, events.drop_last()).step(events.last()).1) {
            1nat
        } else {
            0nat
        }
    }
}

/// Bookkeeping that holds throughout a reconnection cycle that has not
/// succeeded: requests sent so far, attempts left and the one in flight
/// always add up to the budget.
pub open spec fn budget_kept(s: ReconnectSupervisor, sent: nat) -> bool {
    &&& s.wf()
    &&& s.phase != SupervisorPhase::Watching
    &&& sent <= REJOIN_ATTEMPTS
    &&& (s.phase == SupervisorPhase::AwaitingStatus || s.phase == SupervisorPhase::RejoinInFlight) ==> sent
        + s.remaining_attempts == REJOIN_ATTEMPTS + if s.phase == SupervisorPhase::RejoinInFlight {
        1nat
    } else {
        0nat
    }
}

proof fn lemma_budget_run(s0: ReconnectSupervisor, sent0: nat, events: Seq<SupervisorEvent>)
    requires
        budget_kept(s0, sent0),
        forall|i: int| 0 <= i < events.len() ==> events[i] != SupervisorEvent::RejoinResult(true),
    ensures
        budget_kept(run_state(s0, events), sent0 + run_sends(s0, events)),
    decreases events.len(),
{
    if events.len() > 0 {
        let d = events.drop_last();
        assert forall|i: int| 0 <= i < d.len() implies d[i] != SupervisorEvent::RejoinResult(true) by {
            assert(d[i] == events[i]);
        }
        lemma_budget_run(s0, sent0, d);
        assert(events.last() == events[events.len() - 1]);
    }
}

/// A reconnection cycle that never succeeds sends at most three rejoin
/// requests, never returns to watching, and once the third request is in
/// flight its failure gives up.
pub proof fn lemma_rejoin_budget(status: ConnectionStatus, events: Seq<SupervisorEvent>)
    requires
        forall|i: int| 0 <= i < events.len() ==> events[i] != SupervisorEvent::RejoinResult(true),
    ensures
        ({
            let s0 = ReconnectSupervisor::started(status);
            let first: nat = if sends_rejoin(cycle_start(status).1) { 1 } else { 0 };
            let s = run_state(s0, events);
            let sent = first + run_sends(s0, events);
            &&& sent <= REJOIN_ATTEMPTS
            &&& s.phase != SupervisorPhase::Watching
            &&& (sent == REJOIN_ATTEMPTS && s.phase == SupervisorPhase::RejoinInFlight) ==> s.result_step(false).1
                == SupervisorAction::GiveUp
        }),
{
    let s0 = ReconnectSupervisor::started(status);
    let first: nat = if sends_rejoin(cycle_start(status).1) { 1 } else { 0 };
    assert(budget_kept(s0, first));
    lemma_budget_run(s0, first, events);
}

impl ReconnectSupervisor {
    pub open spec fn wf(self) -> bool {
        &&& (self.phase == SupervisorPhase::AwaitingStatus || self.phase == SupervisorPhase::RejoinInFlight)
            ==> 0 < self.remaining_attempts <= REJOIN_ATTEMPTS
        &&& self.phase != SupervisorPhase::RejoinInFlight ==> !self.changed_during_attempt
    }

    /// The supervisor in a cycle that starts while the status is `status`.
    pub open spec fn started(status: ConnectionStatus) -> ReconnectSupervisor {
        ReconnectSupervisor {
            phase: cycle_start(status).0,
            remaining_attempts: REJOIN_ATTEMPTS,
            status,
            changed_during_attempt: false,
        }
    }

    fn start_cycle(status: ConnectionStatus) -> (r: (ReconnectSupervisor, SupervisorAction))
        ensures
            r.0 == Self::started(status),
            r.1 == cycle_start(status).1,
            r.0.wf(),
    {
        let (phase, action) = match status {
            ConnectionStatus::Connected => (
                SupervisorPhase::RejoinInFlight,
                SupervisorAction::BeginRejoining { attempt_now: true },
            ),
            ConnectionStatus::SignedOut => (SupervisorPhase::Finished, SupervisorAction::BeginRejoiningThenGiveUp),
            ConnectionStatus::Disconnected => (
                SupervisorPhase::AwaitingStatus,
                SupervisorAction::BeginRejoining { attempt_now: false },
            ),
        };
        (
            ReconnectSupervisor {
                phase,
                remaining_attempts: REJOIN_ATTEMPTS,
                status,
                changed_during_attempt: false,
            },
            action,
        )
    }

    /// Starts supervising. A connection that is not up when supervision
    /// starts begins a reconnection cycle at once.
    pub fn new(initial: ConnectionStatus) -> (r: (ReconnectSupervisor, SupervisorAction))
        ensures
            r.0.wf(),
            initial == ConnectionStatus::Connected ==> r == (
                ReconnectSupervisor {
                    phase: SupervisorPhase::Watching,
                    remaining_attempts: REJOIN_ATTEMPTS,
                    status: initial,
                    changed_during_attempt: false,
                },
                SupervisorAction::Wait,
            ),
            initial != ConnectionStatus::Connected ==> r == (
                Self::started(initial),
                cycle_start(initial).1,
            ),
            initial != ConnectionStatus::Connected ==> marks_rejoining(r.1),
    {
        match initial {
            ConnectionStatus::Connected => (
                ReconnectSupervisor {
                    phase: SupervisorPhase::Watching,
                    remaining_attempts: REJOIN_ATTEMPTS,
                    status: initial,
                    changed_during_attempt: false,
                },
                SupervisorAction::Wait,
            ),
            _ => Self::start_cycle(initial),
        }
    }

    /// Observes a change of the connection status. While watching, any change
    /// means the connection dropped at least for a moment.
    pub fn on_status(&mut self, status: ConnectionStatus) -> (action: SupervisorAction)
        requires
            old(self).wf(),
        ensures
            final(self).wf(),
            (*final(self), action) == old(self).status_step(status),
            old(self).phase == SupervisorPhase::Watching ==> marks_rejoining(action),
            sends_rejoin(action) ==> old(self).phase != SupervisorPhase::RejoinInFlight
                && final(self).phase == SupervisorPhase::RejoinInFlight,
    {
        match self.phase {
            SupervisorPhase::Watching => {
                let (next, action) = Self::start_cycle(status);
                *self = next;
                action
            },
            SupervisorPhase::AwaitingStatus => {
                self.status = status;
                self.evaluate()
            },
            SupervisorPhase::RejoinInFlight => {
                self.status = status;
                self.changed_during_attempt = true;
                SupervisorAction::Wait
            },
            SupervisorPhase::Finished => {
                self.status = status;
                SupervisorAction::Wait
            },
        }
    }

    fn evaluate(&mut self) -> (action: SupervisorAction)
        requires
            0 < old(self).remaining_attempts <= REJOIN_ATTEMPTS,
        ensures
            *final(self) == (ReconnectSupervisor {
                phase: evaluation(old(self).status).0,
                changed_during_attempt: false,
                ..*old(self)
            }),
            action == evaluation(old(self).status).1,
    {
        self.changed_during_attempt = false;
        match self.status {
            ConnectionStatus::Connected => {
                self.phase = SupervisorPhase::RejoinInFlight;
                SupervisorAction::AttemptRejoin
            },
            ConnectionStatus::SignedOut => {
                self.phase = SupervisorPhase::Finished;
                SupervisorAction::GiveUp
            },
            ConnectionStatus::Disconnected => {
                self.phase = SupervisorPhase::AwaitingStatus;
                SupervisorAction::Wait
            },
        }
    }

    /// Observes the outcome of the rejoin request in flight. A failure uses up
    /// one attempt; the last failure gives up. After a success, a connection
    /// that dropped again meanwhile starts the next cycle at once.
    pub fn on_rejoin_result(&mut self, succeeded: bool) -> (action: SupervisorAction)
        requires
            old(self).wf(),
        ensures
            final(self).wf(),
            (*final(self), action) == old(self).result_step(succeeded),
            old(self).phase == SupervisorPhase::RejoinInFlight && succeeded && old(self).status
                != ConnectionStatus::Connected ==> marks_rejoining(action),
            sends_rejoin(action) ==> final(self).phase == SupervisorPhase::RejoinInFlight,
    {
        if self.phase != SupervisorPhase::RejoinInFlight {
            return SupervisorAction::Wait;
        }
        if succeeded {
            if self.status == ConnectionStatus::Connected {
                self.phase = SupervisorPhase::Watching;
                self.changed_during_attempt = false;
                SupervisorAction::Reconnected
            } else {
                let (next, action) = Self::start_cycle(self.status);
                *self = next;
                action
            }
        } else {
            self.remaining_attempts = self.remaining_attempts - 1;
            if self.remaining_attempts == 0 {
                self.phase = SupervisorPhase::Finished;
                self.changed_during_attempt = false;
                SupervisorAction::GiveUp
            } else if self.changed_during_attempt {
                self.evaluate()
            } else {
                self.phase = SupervisorPhase::AwaitingStatus;
                SupervisorAction::Wait
            }
        }
    }

    /// Observes the expiry of the current cycle's timeout.
    pub fn on_timeout(&mut self) -> (action: SupervisorAction)
        requires
            old(self).wf(),
        ensures
            final(self).wf(),
            (*final(self), action) == old(self).timeout_step(),
    {
        match self.phase {
            SupervisorPhase::AwaitingStatus | SupervisorPhase::RejoinInFlight => {
                self.phase = SupervisorPhase::Finished;
                self.changed_during_attempt = false;
                SupervisorAction::GiveUp
            },
            _ => SupervisorAction::Wait,
        }
    }
}

} // verus!
