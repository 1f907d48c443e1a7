//! The connector lifecycle: a state machine from state and event to next state and action.
use vstd::prelude::*;

verus! {

/// Lifecycle state of one connector instance.
#[derive(PartialEq, Eq, Structural, Clone, Copy, Debug)]
pub enum ConnectorState {
    Initializing,
    Connecting,
    Connected,
    Draining,
    Stopped,
    Failed,
}

/// What the outside world reports to a connector.
#[derive(PartialEq, Eq, Structural, Clone, Copy, Debug)]
pub enum ConnectorEvent {
    /// The connector is asked to start.
    Start,
    /// The last connect attempt gave a usable handle.
    ConnectOk,
    /// The last connect attempt failed.
    ConnectFailed,
    /// A read or write on the connected handle failed.
    IoFailure,
    /// The connector is asked to stop accepting events.
    Drain,
    /// All in-flight events completed, or the drain timeout elapsed.
    Drained,
}

/// What the runner of the connector must do next.
#[derive(PartialEq, Eq, Structural, Clone, Copy, Debug)]
pub enum ConnectorAction {
    /// Nothing.
    Idle,
    /// After `delay_ms`, drop any handle held and connect anew; report the outcome.
    Connect { attempt: u64, delay_ms: u64 },
    /// Drop the handle held.
    Release,
}

/// One connector's lifecycle: state, retry counter and the number of external handles held.
#[derive(PartialEq, Eq, Structural, Clone, Copy, Debug)]
pub struct Connector {
    pub state: ConnectorState,
    pub attempt: u64,
    pub max_attempts: u64,
    pub backoff_ms: u64,
    pub handles: u64,
}

/// A connector holds a handle exactly while it connects, is connected or drains,
/// never more than one, and counts its attempts from one while connecting.
pub open spec fn holds_handle(s: ConnectorState) -> bool {
    s == ConnectorState::Connecting || s == ConnectorState::Connected || s == ConnectorState::Draining
}

impl Connector {
    pub open spec fn wf(self) -> bool {
        &&& self.handles <= 1
        &&& (self.handles == 1 <==> holds_handle(self.state))
        &&& (self.state == ConnectorState::Connecting ==> self.attempt >= 1)
    }

    /// The successor of `self` on event `ev`, and the action to perform.
    pub open spec fn next(self, ev: ConnectorEvent) -> (Connector, ConnectorAction) {
        match (self.state, ev) {
            (ConnectorState::Initializing, ConnectorEvent::Start) => if self.max_attempts == 0 {
                (Connector { state: ConnectorState::Failed, ..self }, ConnectorAction::Idle)
            } else {
                (
                    Connector { state: ConnectorState::Connecting, attempt: 1, handles: 1, ..self },
                    ConnectorAction::Connect { attempt: 1, delay_ms: 0 },
                )
            },
            (ConnectorState::Initializing, ConnectorEvent::Drain) => (
                Connector { state: ConnectorState::Stopped, ..self },
                ConnectorAction::Idle,
            ),
            (ConnectorState::Connecting, ConnectorEvent::ConnectOk) => (
                Connector { state: ConnectorState::Connected, attempt: 0, ..self },
                ConnectorAction::Idle,
            ),
            (ConnectorState::Connecting, ConnectorEvent::ConnectFailed) => if self.attempt
                >= self.max_attempts {
                (
                    Connector { state: ConnectorState::Failed, handles: 0, ..self },
                    ConnectorAction::Release,
                )
            } else {
                (
                    Connector { attempt: (self.attempt + 1) as u64, ..self },
                    ConnectorAction::Connect {
                        attempt: (self.attempt + 1) as u64,
                        delay_ms: self.backoff_ms,
                    },
                )
            },
            (ConnectorState::Connecting, ConnectorEvent::Drain) => (
                Connector { state: ConnectorState::Stopped, handles: 0, ..self },
                ConnectorAction::Release,
            ),
            (ConnectorState::Connected, ConnectorEvent::IoFailure) => if self.max_attempts == 0 {
                (
                    Connector { state: ConnectorState::Failed, handles: 0, ..self },
                    ConnectorAction::Release,
                )
            } else {
                (
                    Connector { state: ConnectorState::Connecting, attempt: 1, ..self },
                    ConnectorAction::Connect { attempt: 1, delay_ms: 0 },
                )
            },
            (ConnectorState::Connected, ConnectorEvent::Drain) => (
                Connector { state: ConnectorState::Draining, ..self },
                ConnectorAction::Idle,
            ),
            (ConnectorState::Draining, ConnectorEvent::Drained) => (
                Connector { state: ConnectorState::Stopped, handles: 0, ..self },
                ConnectorAction::Release,
            ),
            (ConnectorState::Draining, ConnectorEvent::IoFailure) => (
                Connector { state: ConnectorState::Stopped, handles: 0, ..self },
                ConnectorAction::Release,
            ),
            _ => (self, ConnectorAction::Idle),
        }
    }

    /// A fresh connector: nothing held, no attempt made yet.
    pub fn new(max_attempts: u64, backoff_ms: u64) -> (r: Connector)
        ensures
            r == Connector::initial(max_attempts, backoff_ms),
            r.wf(),
    {
        Connector { state: ConnectorState::Initializing, attempt: 0, max_attempts, backoff_ms, handles: 0 }
    }

    pub open spec fn initial(max_attempts: u64, backoff_ms: u64) -> Connector {
        Connector { state: ConnectorState::Initializing, attempt: 0, max_attempts, backoff_ms, handles: 0 }
    }

    /// Applies one event: moves to the next state and returns the action to perform.
    pub fn step(&mut self, ev: ConnectorEvent) -> (a: ConnectorAction)
        ensures
            (*final(self), a) == old(self).next(ev),
            old(self).wf() ==> final(self).wf(),
    {
        match (self.state, ev) {
            (ConnectorState::Initializing, ConnectorEvent::Start) => {
                if self.max_attempts == 0 {
                    self.state = ConnectorState::Failed;
                    ConnectorAction::Idle
                } else {
                    self.state = ConnectorState::Connecting;
                    self.attempt = 1;
                    self.handles = 1;
                    ConnectorAction::Connect { attempt: 1, delay_ms: 0 }
                }
            },
            (ConnectorState::Initializing, ConnectorEvent::Drain) => {
                self.state = ConnectorState::Stopped;
                ConnectorAction::Idle
            },
            (ConnectorState::Connecting, ConnectorEvent::ConnectOk) => {
                self.state = ConnectorState::Connected;
                self.attempt = 0;
                ConnectorAction::Idle
            },
            (ConnectorState::Connecting, ConnectorEvent::ConnectFailed) => {
                if self.attempt >= self.max_attempts {
                    self.state = ConnectorState::Failed;
                    self.handles = 0;
                    ConnectorAction::Release
                } else {
                    self.attempt = self.attempt + 1;
                    ConnectorAction::Connect { attempt: self.attempt, delay_ms: self.backoff_ms }
                }
            },
            (ConnectorState::Connecting, ConnectorEvent::Drain) => {
                self.state = ConnectorState::Stopped;
                self.handles = 0;
                ConnectorAction::Release
            },
            (ConnectorState::Connected, ConnectorEvent::IoFailure) => {
                if self.max_attempts == 0 {
                    self.state = ConnectorState::Failed;
                    self.handles = 0;
                    ConnectorAction::Release
                } else {
                    self.state = ConnectorState::Connecting;
                    self.attempt = 1;
                    ConnectorAction::Connect { attempt: 1, delay_ms: 0 }
                }
            },
            (ConnectorState::Connected, ConnectorEvent::Drain) => {
                self.state = ConnectorState::Draining;
                ConnectorAction::Idle
            },
            (ConnectorState::Draining, ConnectorEvent::Drained) => {
                self.state = ConnectorState::Stopped;
                self.handles = 0;
                ConnectorAction::Release
            },
            (ConnectorState::Draining, ConnectorEvent::IoFailure) => {
                self.state = ConnectorState::Stopped;
                self.handles = 0;
                ConnectorAction::Release
            },
            _ => ConnectorAction::Idle,
        }
    }
}


/// The connector reached from `c` by the events `evs`, in order.
pub open spec fn run(c: Connector, evs: Seq<ConnectorEvent>) -> Connector
    decreases evs.len(),
{
    if evs.len() == 0 {
        c
    } else {
        run(c, evs.drop_last()).next(evs.last()).0
    }
}

/// A start request followed by `k` failed connect attempts.
pub open spec fn start_then_failures(k: nat) -> Seq<ConnectorEvent> {
    seq![ConnectorEvent::Start] + Seq::new(k, |i: int| ConnectorEvent::ConnectFailed)
}

proof fn lemma_failing_prefix(max_attempts: u64, backoff_ms: u64, k: nat)
    requires
        max_attempts >= 1,
        k < max_attempts,
    ensures
        run(Connector::initial(max_attempts, backoff_ms), start_then_failures(k)).state
            == ConnectorState::Connecting,
        run(Connector::initial(max_attempts, backoff_ms), start_then_failures(k)).attempt == k + 1,
        run(Connector::initial(max_attempts, backoff_ms), start_then_failures(k)).max_attempts
            == max_attempts,
    decreases k,
{
    let c0 = Connector::initial(max_attempts, backoff_ms);
    if k == 0 {
        let evs = start_then_failures(0);
        assert(evs.drop_last() =~= Seq::<ConnectorEvent>::empty());
        assert(evs.last() == ConnectorEvent::Start);
        assert(run(c0, evs.drop_last()) == c0);
        assert(run(c0, evs) == c0.next(ConnectorEvent::Start).0);
    } else {
        let evs = start_then_failures(k);
        assert(evs.drop_last() =~= start_then_failures((k - 1) as nat));
        assert(evs.last() == ConnectorEvent::ConnectFailed);
        lemma_failing_prefix(max_attempts, backoff_ms, (k - 1) as nat);
        assert(run(c0, evs) == run(c0, evs.drop_last()).next(ConnectorEvent::ConnectFailed).0);
    }
}

/// A connector whose every connect attempt fails is `Connecting`, at attempt `k + 1`, after
/// failure `k` for each `k < max_attempts`, and `Failed`, holding no handle, after failure
/// `max_attempts`: it makes at most `max_attempts` attempts, numbered upwards from one.
/// With a ceiling of zero it fails at start, without any attempt.
pub proof fn law_failing_connect_reaches_failed(max_attempts: u64, backoff_ms: u64)
    ensures
        forall|k: nat| k < max_attempts ==> #[trigger] run(Connector::initial(max_attempts, backoff_ms),
            start_then_failures(k)).state == ConnectorState::Connecting
            && run(Connector::initial(max_attempts, backoff_ms), start_then_failures(k)).attempt == k + 1,
        run(Connector::initial(max_attempts, backoff_ms), start_then_failures(max_attempts as nat)).state
            == ConnectorState::Failed,
        run(Connector::initial(max_attempts, backoff_ms), start_then_failures(max_attempts as nat)).handles
            == 0,
        max_attempts == 0 ==> Connector::initial(max_attempts, backoff_ms).next(ConnectorEvent::Start).1
            == ConnectorAction::Idle,
{
    let c0 = Connector::initial(max_attempts, backoff_ms);
    if max_attempts == 0 {
        let evs = start_then_failures(0);
        assert(evs.drop_last() =~= Seq::<ConnectorEvent>::empty());
        assert(evs.last() == ConnectorEvent::Start);
        assert(run(c0, evs.drop_last()) == c0);
    } else {
        assert forall|k: nat| k < max_attempts implies #[trigger] run(c0, start_then_failures(k)).state
            == ConnectorState::Connecting && run(c0, start_then_failures(k)).attempt == k + 1 by {
            lemma_failing_prefix(max_attempts, backoff_ms, k);
        }
        let k = (max_attempts - 1) as nat;
        lemma_failing_prefix(max_attempts, backoff_ms, k);
        let evs = start_then_failures(max_attempts as nat);
        assert(evs.drop_last() =~= start_then_failures(k));
        assert(evs.last() == ConnectorEvent::ConnectFailed);
    }
}

/// Once `Failed`, a connector stays `Failed` whatever happens.
pub proof fn law_failed_is_terminal(c: Connector, ev: ConnectorEvent)
    requires
        c.state == ConnectorState::Failed,
    ensures
        c.next(ev).0 == c,
        c.next(ev).1 == ConnectorAction::Idle,
{
}

/// Every step keeps a well-formed connector well-formed: it never holds more than one handle.
/// In particular two failed connects in a row, each followed by a fresh attempt, leave one handle.
pub proof fn law_reconnect_holds_one_handle(c: Connector)
    requires
        c.wf(),
        c.state == ConnectorState::Connecting,
        c.attempt + 1 < c.max_attempts,
    ensures
        c.next(ConnectorEvent::ConnectFailed).0.handles == 1,
        c.next(ConnectorEvent::ConnectFailed).0.next(ConnectorEvent::ConnectFailed).0.handles == 1,
        forall|ev: ConnectorEvent| #[trigger] c.next(ev).0.wf(),
{
}

/// The verdict of a wait for a connector state.
#[derive(PartialEq, Eq, Structural, Clone, Copy, Debug)]
pub enum WaitVerdict {
    Reached,
    Waiting,
    TimedOut,
}

/// Decides a wait for `target`: reached when the state is the target, else timed out once
/// `elapsed_ms` has reached `timeout_ms`, else still waiting.
pub fn wait_verdict(state: ConnectorState, target: ConnectorState, elapsed_ms: u64, timeout_ms: u64) -> (r: WaitVerdict)
    ensures
        r == (if state == target {
            WaitVerdict::Reached
        } else if elapsed_ms >= timeout_ms {
            WaitVerdict::TimedOut
        } else {
            WaitVerdict::Waiting
        }),
{
    if state == target {
        WaitVerdict::Reached
    } else if elapsed_ms >= timeout_ms {
        WaitVerdict::TimedOut
    } else {
        WaitVerdict::Waiting
    }
}

} // verus!
