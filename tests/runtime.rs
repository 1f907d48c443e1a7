use tremor_runtime::connector::{wait_verdict, Connector, ConnectorAction, ConnectorEvent, ConnectorState, WaitVerdict};
use tremor_runtime::contraflow::{run_passthrough, sink_outcome, CfKind, Contraflow, SinkReply, SourceTracker};

#[test]
fn hundred_acked_events_give_hundred_acks() {
    let mut t = SourceTracker::new();
    let replies = vec![Some(SinkReply::Ack); 100];
    let signals = run_passthrough(&mut t, &replies, false);
    assert_eq!(signals.len(), 100);
    let mut seen = vec![false; 100];
    for s in &signals {
        assert_eq!(s.kind, CfKind::Ack);
        assert!(!seen[s.id as usize]);
        seen[s.id as usize] = true;
    }
    assert!(seen.iter().all(|b| *b));
    assert!(t.pending.is_empty());
    assert!(t.failed.is_empty());
    assert_eq!(t.acked.len(), 100);
    assert_eq!(t.next_id, 100);
}

#[test]
fn failed_reply_marks_event_for_redelivery() {
    let mut t = SourceTracker::new();
    let replies = vec![Some(SinkReply::Ack), Some(SinkReply::Fail), None, Some(SinkReply::NoReply)];
    let signals = run_passthrough(&mut t, &replies, false);
    assert_eq!(
        signals,
        vec![
            Contraflow { id: 0, kind: CfKind::Ack },
            Contraflow { id: 1, kind: CfKind::Fail },
            Contraflow { id: 2, kind: CfKind::Fail },
        ]
    );
    assert_eq!(t.acked, vec![0]);
    assert_eq!(t.failed, vec![1, 2]);
    assert_eq!(t.pending, vec![3]);
}

#[test]
fn auto_ack_acknowledges_silent_replies() {
    assert_eq!(sink_outcome(Some(SinkReply::NoReply), true), Some(CfKind::Ack));
    assert_eq!(sink_outcome(Some(SinkReply::NoReply), false), None);
    assert_eq!(sink_outcome(Some(SinkReply::Ack), true), Some(CfKind::Ack));
    assert_eq!(sink_outcome(None, true), Some(CfKind::Fail));
}

#[test]
fn duplicate_contraflow_is_ignored() {
    let mut t = SourceTracker::new();
    let id = t.inject().expect("fresh id");
    assert!(t.on_contraflow(Contraflow { id, kind: CfKind::Ack }));
    assert!(!t.on_contraflow(Contraflow { id, kind: CfKind::Fail }));
    assert_eq!(t.acked, vec![id]);
    assert!(t.failed.is_empty());
}

#[test]
fn ids_run_out_at_the_largest_value() {
    let mut t = SourceTracker { next_id: u64::MAX, pending: vec![], acked: vec![], failed: vec![] };
    assert_eq!(t.inject(), None);
    assert!(t.pending.is_empty());
}

#[test]
fn always_failing_connect_reaches_failed() {
    let mut c = Connector::new(3, 50);
    assert_eq!(c.step(ConnectorEvent::Start), ConnectorAction::Connect { attempt: 1, delay_ms: 0 });
    assert_eq!(c.step(ConnectorEvent::ConnectFailed), ConnectorAction::Connect { attempt: 2, delay_ms: 50 });
    assert_eq!(c.state, ConnectorState::Connecting);
    assert_eq!(c.handles, 1);
    assert_eq!(c.step(ConnectorEvent::ConnectFailed), ConnectorAction::Connect { attempt: 3, delay_ms: 50 });
    assert_eq!(c.handles, 1);
    assert_eq!(c.step(ConnectorEvent::ConnectFailed), ConnectorAction::Release);
    assert_eq!(c.state, ConnectorState::Failed);
    assert_eq!(c.handles, 0);
    assert_eq!(c.step(ConnectorEvent::Start), ConnectorAction::Idle);
    assert_eq!(c.state, ConnectorState::Failed);
    assert_eq!(wait_verdict(c.state, ConnectorState::Failed, 10, 1000), WaitVerdict::Reached);
}

#[test]
fn connected_lifecycle_drains_and_stops() {
    let mut c = Connector::new(2, 10);
    c.step(ConnectorEvent::Start);
    assert_eq!(c.step(ConnectorEvent::ConnectOk), ConnectorAction::Idle);
    assert_eq!(c.state, ConnectorState::Connected);
    assert_eq!(c.attempt, 0);
    assert_eq!(c.step(ConnectorEvent::IoFailure), ConnectorAction::Connect { attempt: 1, delay_ms: 0 });
    assert_eq!(c.state, ConnectorState::Connecting);
    assert_eq!(c.handles, 1);
    c.step(ConnectorEvent::ConnectOk);
    assert_eq!(c.step(ConnectorEvent::Drain), ConnectorAction::Idle);
    assert_eq!(c.state, ConnectorState::Draining);
    assert_eq!(c.step(ConnectorEvent::Drained), ConnectorAction::Release);
    assert_eq!(c.state, ConnectorState::Stopped);
    assert_eq!(c.handles, 0);
}

#[test]
fn drain_interrupts_connecting() {
    let mut c = Connector::new(5, 10);
    c.step(ConnectorEvent::Start);
    assert_eq!(c.step(ConnectorEvent::Drain), ConnectorAction::Release);
    assert_eq!(c.state, ConnectorState::Stopped);
}

#[test]
fn wait_times_out_without_reaching() {
    assert_eq!(wait_verdict(ConnectorState::Connecting, ConnectorState::Failed, 999, 1000), WaitVerdict::Waiting);
    assert_eq!(wait_verdict(ConnectorState::Connecting, ConnectorState::Failed, 1000, 1000), WaitVerdict::TimedOut);
}

#[test]
fn lineage_resolves_each_origin_once() {
    let mut t = SourceTracker::new();
    let a = t.inject().expect("id");
    let b = t.inject().expect("id");
    let c = t.inject().expect("id");
    assert_eq!(t.on_lineage(&vec![c, a, c], CfKind::Ack), 2);
    assert_eq!(t.acked, vec![c, a]);
    assert_eq!(t.pending, vec![b]);
    assert_eq!(t.on_lineage(&vec![a, b], CfKind::Fail), 1);
    assert_eq!(t.failed, vec![b]);
    assert!(t.pending.is_empty());
}

#[test]
fn zero_ceiling_fails_without_an_attempt() {
    let mut c = Connector::new(0, 10);
    assert_eq!(c.step(ConnectorEvent::Start), ConnectorAction::Idle);
    assert_eq!(c.state, ConnectorState::Failed);
    assert_eq!(c.handles, 0);
    assert_eq!(wait_verdict(c.state, ConnectorState::Failed, 0, 100), WaitVerdict::Reached);
}

#[test]
fn zero_ceiling_fails_on_io_failure() {
    let mut c = Connector { state: ConnectorState::Connected, attempt: 0, max_attempts: 0, backoff_ms: 0, handles: 1 };
    assert_eq!(c.step(ConnectorEvent::IoFailure), ConnectorAction::Release);
    assert_eq!(c.state, ConnectorState::Failed);
    assert_eq!(c.handles, 0);
}
