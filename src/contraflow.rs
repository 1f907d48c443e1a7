//! The contraflow protocol: sink outcomes turned into acknowledgments, and the source-side
//! tracking of events that still await one.
use vstd::prelude::*;

verus! {

/// What a sink says of one event it wrote.
#[derive(PartialEq, Eq, Structural, Clone, Copy, Debug)]
pub enum SinkReply {
    /// Delivered: acknowledge.
    Ack,
    /// Not delivered: signal failure, the event may be redelivered.
    Fail,
    /// No contraflow is owed for this event.
    NoReply,
}

/// The outcome carried by a contraflow signal.
#[derive(PartialEq, Eq, Structural, Clone, Copy, Debug)]
pub enum CfKind {
    Ack,
    Fail,
}

/// A contraflow signal for the event with origin id `id`.
#[derive(PartialEq, Eq, Structural, Clone, Copy, Debug)]
pub struct Contraflow {
    pub id: u64,
    pub kind: CfKind,
}

/// The contraflow owed for one event: `reply` is the sink's reply, or `None` when the write failed.
pub open spec fn outcome(reply: Option<SinkReply>, auto_ack: bool) -> Option<CfKind> {
    match reply {
        None => Some(CfKind::Fail),
        Some(SinkReply::Ack) => Some(CfKind::Ack),
        Some(SinkReply::Fail) => Some(CfKind::Fail),
        Some(SinkReply::NoReply) => if auto_ack {
            Some(CfKind::Ack)
        } else {
            None
        },
    }
}

/// Decides the contraflow for one written event. `reply` is `None` when the write failed;
/// a connector that acknowledges automatically acknowledges every successful write.
pub fn sink_outcome(reply: Option<SinkReply>, auto_ack: bool) -> (r: Option<CfKind>)
    ensures
        r == outcome(reply, auto_ack),
{
    match reply {
        None => Some(CfKind::Fail),
        Some(SinkReply::Ack) => Some(CfKind::Ack),
        Some(SinkReply::Fail) => Some(CfKind::Fail),
        Some(SinkReply::NoReply) => if auto_ack {
            Some(CfKind::Ack)
        } else {
            None
        },
    }
}

/// The mathematical value of a [`SourceTracker`].
pub struct TrackerModel {
    pub next_id: u64,
    pub pending: Seq<u64>,
    pub acked: Seq<u64>,
    pub failed: Seq<u64>,
}

/// Source-side bookkeeping: fresh event ids, the events still awaiting contraflow,
/// and those resolved by an acknowledgment or by a failure (eligible for redelivery).
pub struct SourceTracker {
    pub next_id: u64,
    pub pending: Vec<u64>,
    pub acked: Vec<u64>,
    pub failed: Vec<u64>,
}

impl View for SourceTracker {
    type V = TrackerModel;

    open spec fn view(&self) -> TrackerModel {
        TrackerModel {
            next_id: self.next_id,
            pending: self.pending@,
            acked: self.acked@,
            failed: self.failed@,
        }
    }
}

/// Pending ids are distinct and all were handed out already.
pub open spec fn tracker_wf(t: TrackerModel) -> bool {
    &&& t.pending.no_duplicates()
    &&& forall|i: int| 0 <= i < t.pending.len() ==> #[trigger] t.pending[i] < t.next_id
}

/// The tracker after handing out a fresh id.
pub open spec fn injected(t: TrackerModel) -> TrackerModel {
    TrackerModel { next_id: (t.next_id + 1) as u64, pending: t.pending.push(t.next_id), ..t }
}

/// The tracker after contraflow `cf`: a pending id is resolved, any other signal changes nothing.
pub open spec fn after_signal(t: TrackerModel, cf: Contraflow) -> TrackerModel {
    if t.pending.contains(cf.id) {
        let rest = t.pending.remove(t.pending.index_of(cf.id));
        match cf.kind {
            CfKind::Ack => TrackerModel { pending: rest, acked: t.acked.push(cf.id), ..t },
            CfKind::Fail => TrackerModel { pending: rest, failed: t.failed.push(cf.id), ..t },
        }
    } else {
        t
    }
}

proof fn lemma_index_unique(s: Seq<u64>, i: int)
    requires
        s.no_duplicates(),
        0 <= i < s.len(),
    ensures
        s.index_of(s[i]) == i,
{
    assert(s.contains(s[i]));
    let j = s.index_of(s[i]);
    assert(s[j] == s[i]);
}

impl SourceTracker {
    /// An empty tracker whose first id is 0.
    pub fn new() -> (r: SourceTracker)
        ensures
            r@ == (TrackerModel { next_id: 0, pending: Seq::empty(), acked: Seq::empty(), failed: Seq::empty() }),
            tracker_wf(r@),
    {
        SourceTracker { next_id: 0, pending: Vec::new(), acked: Vec::new(), failed: Vec::new() }
    }

    /// Hands out a fresh id for a new event and records it as pending;
    /// `None`, with nothing changed, once the ids are used up.
    pub fn inject(&mut self) -> (r: Option<u64>)
        requires
            tracker_wf(old(self)@),
        ensures
            tracker_wf(final(self)@),
            old(self).next_id < u64::MAX ==> r == Some(old(self).next_id) && final(self)@ == injected(old(self)@),
            old(self).next_id == u64::MAX ==> r is None && final(self)@ == old(self)@,
    {
        if self.next_id == u64::MAX {
            return None;
        }
        let id = self.next_id;
        self.pending.push(id);
        self.next_id = id + 1;
        proof {
            let p = self.pending@;
            assert forall|i: int, j: int| 0 <= i < p.len() && 0 <= j < p.len() && i != j
                implies p[i] != p[j] by {
                if i < p.len() - 1 && j < p.len() - 1 {
                    assert(old(self).pending@.no_duplicates());
                } else if i < p.len() - 1 {
                    assert(old(self).pending@[i] < id);
                } else {
                    assert(old(self).pending@[j] < id);
                }
            }
        }
        Some(id)
    }

    /// Takes in one contraflow signal; returns whether it resolved a pending event.
    pub fn on_contraflow(&mut self, cf: Contraflow) -> (r: bool)
        requires
            tracker_wf(old(self)@),
        ensures
            tracker_wf(final(self)@),
            final(self)@ == after_signal(old(self)@, cf),
            r == old(self)@.pending.contains(cf.id),
    {
        let mut i: usize = 0;
        while i < self.pending.len()
            invariant
                i <= self.pending@.len(),
                self@ == old(self)@,
                tracker_wf(self@),
                forall|j: int| 0 <= j < i ==> self.pending@[j] != cf.id,
            decreases self.pending@.len() - i,
        {
            if self.pending[i] == cf.id {
                proof {
                    lemma_index_unique(self.pending@, i as int);
                }
                let ghost before = self.pending@;
                self.pending.remove(i);
                proof {
                    assert forall|a: int| 0 <= a < self.pending@.len() implies #[trigger] self.pending@[a]
                        < self.next_id by {
                        if a < i {
                            assert(self.pending@[a] == before[a]);
                        } else {
                            assert(self.pending@[a] == before[a + 1]);
                        }
                    }
                    assert forall|a: int, b: int| 0 <= a < self.pending@.len() && 0 <= b < self.pending@.len()
                        && a != b implies self.pending@[a] != self.pending@[b] by {
                        let a1 = if a < i { a } else { a + 1 };
                        let b1 = if b < i { b } else { b + 1 };
                        assert(self.pending@[a] == before[a1]);
                        assert(self.pending@[b] == before[b1]);
                    }
                }
                match cf.kind {
                    CfKind::Ack => self.acked.push(cf.id),
                    CfKind::Fail => self.failed.push(cf.id),
                }
                return true;
            }
            i += 1;
        }
        false
    }
}


/// The tracker and the signals after the first `i` events of a passthrough run: each event gets
/// a fresh id, passes every node unchanged, and the sink's reply for it is `replies[i]`
/// (`None`: the write failed); the contraflow owed for it goes back to the tracker at once.
pub open spec fn delivered(t: TrackerModel, replies: Seq<Option<SinkReply>>, auto_ack: bool, i: int) -> (
    TrackerModel,
    Seq<Contraflow>,
)
    decreases i,
{
    if i <= 0 {
        (t, Seq::empty())
    } else {
        let prev = delivered(t, replies, auto_ack, i - 1);
        let id = prev.0.next_id;
        let t1 = injected(prev.0);
        match outcome(replies[i - 1], auto_ack) {
            Some(k) => (after_signal(t1, Contraflow { id, kind: k }), prev.1.push(Contraflow { id, kind: k })),
            None => (t1, prev.1),
        }
    }
}

/// Runs one event per entry of `replies` through a passthrough pipeline into a sink whose reply
/// for event `i` is `replies[i]` (`None`: the write failed), and feeds each contraflow signal
/// back to the tracker. Returns the signals in the order they were emitted.
pub fn run_passthrough(t: &mut SourceTracker, replies: &Vec<Option<SinkReply>>, auto_ack: bool) -> (signals: Vec<Contraflow>)
    requires
        tracker_wf(old(t)@),
        old(t).next_id + replies@.len() < u64::MAX,
    ensures
        tracker_wf(final(t)@),
        (final(t)@, signals@) == delivered(old(t)@, replies@, auto_ack, replies@.len() as int),
{
    let mut signals: Vec<Contraflow> = Vec::new();
    let mut i: usize = 0;
    while i < replies.len()
        invariant
            i <= replies@.len(),
            tracker_wf(t@),
            old(t).next_id + replies@.len() < u64::MAX,
            t.next_id == old(t).next_id + i,
            (t@, signals@) == delivered(old(t)@, replies@, auto_ack, i as int),
        decreases replies@.len() - i,
    {
        let id = t.inject().unwrap();
        match sink_outcome(replies[i], auto_ack) {
            Some(k) => {
                let cf = Contraflow { id, kind: k };
                t.on_contraflow(cf);
                signals.push(cf);
            },
            None => {},
        }
        i += 1;
    }
    signals
}

proof fn lemma_all_acked(t: TrackerModel, replies: Seq<Option<SinkReply>>, auto_ack: bool, i: int)
    requires
        tracker_wf(t),
        0 <= i <= replies.len(),
        forall|j: int| 0 <= j < replies.len() ==> replies[j] == Some(SinkReply::Ack),
        t.next_id + replies.len() < u64::MAX,
    ensures
        delivered(t, replies, auto_ack, i).1 =~= Seq::new(i as nat, |j: int| Contraflow { id: (t.next_id + j) as u64, kind: CfKind::Ack }),
        delivered(t, replies, auto_ack, i).0.pending == t.pending,
        delivered(t, replies, auto_ack, i).0.failed == t.failed,
        delivered(t, replies, auto_ack, i).0.acked =~= t.acked + Seq::new(i as nat, |j: int| (t.next_id + j) as u64),
        delivered(t, replies, auto_ack, i).0.next_id == t.next_id + i,
    decreases i,
{
    if i > 0 {
        lemma_all_acked(t, replies, auto_ack, i - 1);
        let prev = delivered(t, replies, auto_ack, i - 1);
        let id = prev.0.next_id;
        let t1 = injected(prev.0);
        let p = t1.pending;
        assert(p[p.len() - 1] == id);
        assert(p.no_duplicates()) by {
            assert forall|a: int, b: int| 0 <= a < p.len() && 0 <= b < p.len() && a != b implies p[a] != p[b] by {
                if a < p.len() - 1 && b < p.len() - 1 {
                } else if a < p.len() - 1 {
                    assert(t.pending[a] < t.next_id);
                } else {
                    assert(t.pending[b] < t.next_id);
                }
            }
        }
        lemma_index_unique(p, p.len() - 1);
        assert(p.remove(p.len() - 1) =~= t.pending);
    }
}

/// When every sink reply acknowledges, a run of `n` events emits exactly one positive signal per
/// event, for the event's own id, in order; every event resolves as acknowledged, none fails,
/// and nothing is left pending that was not pending before.
pub proof fn law_all_acked_delivered_once(t: TrackerModel, replies: Seq<Option<SinkReply>>, auto_ack: bool)
    requires
        tracker_wf(t),
        forall|j: int| 0 <= j < replies.len() ==> replies[j] == Some(SinkReply::Ack),
        t.next_id + replies.len() < u64::MAX,
    ensures
        delivered(t, replies, auto_ack, replies.len() as int).1 == Seq::new(replies.len(), |j: int|
            Contraflow { id: (t.next_id + j) as u64, kind: CfKind::Ack }),
        delivered(t, replies, auto_ack, replies.len() as int).0.pending == t.pending,
        delivered(t, replies, auto_ack, replies.len() as int).0.failed == t.failed,
        delivered(t, replies, auto_ack, replies.len() as int).0.acked == t.acked + Seq::new(replies.len(), |j: int|
            (t.next_id + j) as u64),
{
    lemma_all_acked(t, replies, auto_ack, replies.len() as int);
}

/// A failed write or a `Fail` reply owes a negative signal; that signal resolves the pending
/// event as failed (eligible for redelivery), not as acknowledged, and it is pending no longer.
pub proof fn law_failure_signalled(t: TrackerModel, id: u64, auto_ack: bool)
    requires
        tracker_wf(t),
        t.pending.contains(id),
    ensures
        outcome(Some(SinkReply::Fail), auto_ack) == Some(CfKind::Fail),
        outcome(None, auto_ack) == Some(CfKind::Fail),
        after_signal(t, Contraflow { id, kind: CfKind::Fail }).failed == t.failed.push(id),
        after_signal(t, Contraflow { id, kind: CfKind::Fail }).acked == t.acked,
        !after_signal(t, Contraflow { id, kind: CfKind::Fail }).pending.contains(id),
{
    let s = t.pending;
    let k = s.index_of(id);
    let r = s.remove(k);
    assert(s[k] == id);
    if r.contains(id) {
        let a = choose|a: int| 0 <= a < r.len() && r[a] == id;
        let a1 = if a < k { a } else { a + 1 };
        assert(r[a] == s[a1]);
    }
}


/// The tracker after one signal of outcome `kind` for each of the first `i` origins of a lineage.
pub open spec fn after_lineage(t: TrackerModel, ids: Seq<u64>, kind: CfKind, i: int) -> TrackerModel
    decreases i,
{
    if i <= 0 {
        t
    } else {
        after_signal(after_lineage(t, ids, kind, i - 1), Contraflow { id: ids[i - 1], kind })
    }
}

/// How many of the first `i` origins of a lineage were still pending when their signal came.
pub open spec fn resolved_count(t: TrackerModel, ids: Seq<u64>, kind: CfKind, i: int) -> nat
    decreases i,
{
    if i <= 0 {
        0
    } else {
        resolved_count(t, ids, kind, i - 1) + if after_lineage(t, ids, kind, i - 1).pending.contains(ids[i - 1]) {
            1nat
        } else {
            0nat
        }
    }
}

proof fn lemma_signal_keeps_wf(t: TrackerModel, cf: Contraflow)
    requires
        tracker_wf(t),
    ensures
        tracker_wf(after_signal(t, cf)),
        after_signal(t, cf).next_id == t.next_id,
{
    if t.pending.contains(cf.id) {
        let k = t.pending.index_of(cf.id);
        let r = t.pending.remove(k);
        assert forall|a: int| 0 <= a < r.len() implies #[trigger] r[a] < t.next_id by {
            let a1 = if a < k { a } else { a + 1 };
            assert(r[a] == t.pending[a1]);
        }
        assert forall|a: int, b: int| 0 <= a < r.len() && 0 <= b < r.len() && a != b implies r[a] != r[b] by {
            let a1 = if a < k { a } else { a + 1 };
            let b1 = if b < k { b } else { b + 1 };
            assert(r[a] == t.pending[a1]);
            assert(r[b] == t.pending[b1]);
        }
    }
}

impl SourceTracker {
    /// Resolves every origin of an event's lineage with one signal each, in lineage order;
    /// origins not pending (already resolved, or repeated) change nothing. Returns how many resolved.
    pub fn on_lineage(&mut self, ids: &Vec<u64>, kind: CfKind) -> (r: usize)
        requires
            tracker_wf(old(self)@),
        ensures
            tracker_wf(final(self)@),
            final(self)@ == after_lineage(old(self)@, ids@, kind, ids@.len() as int),
            r == resolved_count(old(self)@, ids@, kind, ids@.len() as int),
    {
        let mut n: usize = 0;
        let mut i: usize = 0;
        while i < ids.len()
            invariant
                i <= ids@.len(),
                n <= i,
                n == resolved_count(old(self)@, ids@, kind, i as int),
                tracker_wf(self@),
                self@ == after_lineage(old(self)@, ids@, kind, i as int),
            decreases ids@.len() - i,
        {
            if self.on_contraflow(Contraflow { id: ids[i], kind }) {
                n += 1;
            }
            i += 1;
        }
        n
    }
}

/// An acknowledgment of a lineage whose origins are distinct and all pending resolves each of
/// them exactly once: each is acknowledged once, in lineage order, and none stays pending.
pub proof fn law_lineage_resolved_once(t: TrackerModel, ids: Seq<u64>)
    requires
        tracker_wf(t),
        ids.no_duplicates(),
        forall|j: int| 0 <= j < ids.len() ==> t.pending.contains(#[trigger] ids[j]),
    ensures
        after_lineage(t, ids, CfKind::Ack, ids.len() as int).acked == t.acked + ids,
        after_lineage(t, ids, CfKind::Ack, ids.len() as int).failed == t.failed,
        resolved_count(t, ids, CfKind::Ack, ids.len() as int) == ids.len(),
        forall|j: int| 0 <= j < ids.len() ==> !after_lineage(t, ids, CfKind::Ack, ids.len() as int).pending.contains(
            #[trigger] ids[j]),
{
    lemma_lineage(t, ids, ids.len() as int);
    assert(ids.subrange(0, ids.len() as int) =~= ids);
    assert forall|j: int| 0 <= j < ids.len() implies !after_lineage(t, ids, CfKind::Ack, ids.len() as int).pending.contains(
        #[trigger] ids[j]) by {
        assert(ids.subrange(0, ids.len() as int)[j] == ids[j]);
    }
}

proof fn lemma_lineage(t: TrackerModel, ids: Seq<u64>, i: int)
    requires
        tracker_wf(t),
        ids.no_duplicates(),
        0 <= i <= ids.len(),
        forall|j: int| 0 <= j < ids.len() ==> t.pending.contains(#[trigger] ids[j]),
    ensures
        tracker_wf(after_lineage(t, ids, CfKind::Ack, i)),
        after_lineage(t, ids, CfKind::Ack, i).acked =~= t.acked + ids.subrange(0, i),
        after_lineage(t, ids, CfKind::Ack, i).failed == t.failed,
        resolved_count(t, ids, CfKind::Ack, i) == i,
        forall|x: u64| after_lineage(t, ids, CfKind::Ack, i).pending.contains(x) <==> t.pending.contains(x)
            && !ids.subrange(0, i).contains(x),
    decreases i,
{
    if i > 0 {
        lemma_lineage(t, ids, i - 1);
        let prev = after_lineage(t, ids, CfKind::Ack, i - 1);
        let id = ids[i - 1];
        lemma_signal_keeps_wf(prev, Contraflow { id, kind: CfKind::Ack });
        assert(t.pending.contains(id));
        assert(!ids.subrange(0, i - 1).contains(id)) by {
            if ids.subrange(0, i - 1).contains(id) {
                let a = choose|a: int| 0 <= a < i - 1 && #[trigger] ids.subrange(0, i - 1)[a] == id;
                assert(ids[a] == ids[i - 1]);
            }
        }
        assert(prev.pending.contains(id));
        let k = prev.pending.index_of(id);
        let r = prev.pending.remove(k);
        assert(prev.pending[k] == id);
        assert forall|x: u64| r.contains(x) <==> t.pending.contains(x) && !ids.subrange(0, i).contains(x) by {
            if r.contains(x) {
                let a = choose|a: int| 0 <= a < r.len() && #[trigger] r[a] == x;
                let a1 = if a < k { a } else { a + 1 };
                assert(r[a] == prev.pending[a1]);
                assert(prev.pending.contains(x));
                assert(x != id);
                if ids.subrange(0, i).contains(x) {
                    let b = choose|b: int| 0 <= b < i && #[trigger] ids.subrange(0, i)[b] == x;
                    assert(ids.subrange(0, i - 1)[b] == x);
                }
            }
            if t.pending.contains(x) && !ids.subrange(0, i).contains(x) {
                assert(!ids.subrange(0, i - 1).contains(x)) by {
                    if ids.subrange(0, i - 1).contains(x) {
                        let b = choose|b: int| 0 <= b < i - 1 && #[trigger] ids.subrange(0, i - 1)[b] == x;
                        assert(ids.subrange(0, i)[b] == x);
                    }
                }
                assert(prev.pending.contains(x));
                let a = choose|a: int| 0 <= a < prev.pending.len() && #[trigger] prev.pending[a] == x;
                assert(ids.subrange(0, i)[i - 1] == id);
                assert(x != id);
                assert(a != k);
                if a < k {
                    assert(r[a] == x);
                } else {
                    assert(r[a - 1] == x);
                }
            }
        }
        assert(ids.subrange(0, i) =~= ids.subrange(0, i - 1).push(id));
    }
}

} // verus!
