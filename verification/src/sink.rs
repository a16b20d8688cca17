//! Consumers that follow the log.
use vstd::prelude::*;

use crate::error::{ErrorView, StoreError};
use crate::event::{Event, EventView};
use crate::id::{Label, SeqNo, StreamId};
use crate::json::json_text;

verus! {

/// What a sink reported back.
pub open spec fn outcome_view(r: Result<(), StoreError>) -> Result<(), ErrorView> {
    match r {
        Ok(_) => Ok(()),
        Err(e) => Err(e@),
    }
}

/// A committed event on its way to a sink, with the state after it.
pub struct DeliveryView {
    /// The stream.
    pub stream: Seq<char>,
    /// The coordinate.
    pub seq: u64,
    /// The state at the coordinate.
    pub state: Seq<char>,
    /// The event.
    pub event: EventView,
}

/// A consumer of committed events.
///
/// A delivery may come more than once, so taking the same coordinate of a stream
/// a second time has to leave the sink as the first time did.
///
/// What the ghost functions mean is up to the implementation; where it does not
/// say, it is left open.
pub trait ProjectionSink: Send + Sync {
    /// The id.
    closed spec fn name(&self) -> Seq<char> {
        arbitrary()
    }

    /// Whether the sink cares for `stream`.
    closed spec fn wants(&self, stream: Seq<char>) -> bool {
        arbitrary()
    }

    /// Whether its state lives in this process alone.
    closed spec fn starts_empty(&self) -> bool {
        arbitrary()
    }

    /// Whether the sink may report `outcome` on `delivery`.
    closed spec fn may_report(
        &self,
        delivery: DeliveryView,
        outcome: Result<(), ErrorView>,
    ) -> bool {
        arbitrary()
    }

    /// Whether the sink may report `outcome` on the label `label` being pointed
    /// at `delivery`.
    closed spec fn may_report_label(
        &self,
        label: Seq<char>,
        delivery: DeliveryView,
        outcome: Result<(), ErrorView>,
    ) -> bool {
        arbitrary()
    }

    /// Whether the sink may report `outcome` on the label `label` of `stream`
    /// being removed.
    closed spec fn may_report_unlabel(
        &self,
        stream: Seq<char>,
        label: Seq<char>,
        outcome: Result<(), ErrorView>,
    ) -> bool {
        arbitrary()
    }

    /// The id, under which checkpoints are kept.
    fn id(&self) -> (r: &str)
        ensures
            r@ == self.name(),
    ;

    /// Whether automatic deliveries of `stream` are to reach this sink.
    fn accepts(&self, stream: &StreamId) -> (r: bool)
        ensures
            r == self.wants(stream@),
    ;

    /// Whether the first catch-up in a process has to start from the beginning,
    /// because the sink keeps in memory what earlier deliveries told it.
    fn requires_rebuild_on_attach(&self) -> (r: bool)
        ensures
            r == self.starts_empty(),
    ;

    /// Take one committed event; `state` is the state after it.
    fn commit(&self, stream: &StreamId, seq: SeqNo, state: &serde_json::Value, event: &Event) -> (r:
        Result<(), StoreError>)
        ensures
            self.may_report(
                (DeliveryView {
                    stream: stream@,
                    seq: seq.0,
                    state: json_text(*state),
                    event: event@,
                }),
                outcome_view(r),
            ),
    ;

    /// Learn that `label` points at coordinate `at`. Only a sink that accepts the
    /// stream is told.
    fn on_label_set(
        &self,
        stream: &StreamId,
        label: &Label,
        at: SeqNo,
        state: &serde_json::Value,
        event: &Event,
    ) -> (r: Result<(), StoreError>)
        requires
            self.wants(stream@),
        ensures
            self.may_report_label(
                label@,
                (DeliveryView {
                    stream: stream@,
                    seq: at.0,
                    state: json_text(*state),
                    event: event@,
                }),
                outcome_view(r),
            ),
    ;

    /// Learn that `label` was removed. Only a sink that accepts the stream is told.
    fn on_label_deleted(&self, stream: &StreamId, label: &Label) -> (r: Result<(), StoreError>)
        requires
            self.wants(stream@),
        ensures
            self.may_report_unlabel(stream@, label@, outcome_view(r)),
    ;
}

/// A consumer of committed events that takes every stream and pays no heed to
/// labels. [`PlainSink`] makes a [`ProjectionSink`] of it.
pub trait CommitSink: Send + Sync {
    /// The id.
    closed spec fn name(&self) -> Seq<char> {
        arbitrary()
    }

    /// Whether the sink may report `outcome` on `delivery`.
    closed spec fn may_report(
        &self,
        delivery: DeliveryView,
        outcome: Result<(), ErrorView>,
    ) -> bool {
        arbitrary()
    }

    /// The id, under which checkpoints are kept.
    fn id(&self) -> (r: &str)
        ensures
            r@ == self.name(),
    ;

    /// Take one committed event; `state` is the state after it.
    fn commit(&self, stream: &StreamId, seq: SeqNo, state: &serde_json::Value, event: &Event) -> (r:
        Result<(), StoreError>)
        ensures
            self.may_report(
                (DeliveryView {
                    stream: stream@,
                    seq: seq.0,
                    state: json_text(*state),
                    event: event@,
                }),
                outcome_view(r),
            ),
    ;
}

/// A [`CommitSink`] with what a sink does by default: it accepts every stream,
/// survives a restart, and does nothing about labels.
pub struct PlainSink<S: CommitSink> {
    /// The sink itself.
    pub inner: S,
}

impl<S: CommitSink> ProjectionSink for PlainSink<S> {
    open spec fn name(&self) -> Seq<char> {
        self.inner.name()
    }

    open spec fn wants(&self, stream: Seq<char>) -> bool {
        true
    }

    open spec fn starts_empty(&self) -> bool {
        false
    }

    open spec fn may_report(&self, delivery: DeliveryView, outcome: Result<(), ErrorView>) -> bool {
        self.inner.may_report(delivery, outcome)
    }

    open spec fn may_report_label(
        &self,
        label: Seq<char>,
        delivery: DeliveryView,
        outcome: Result<(), ErrorView>,
    ) -> bool {
        outcome is Ok
    }

    open spec fn may_report_unlabel(
        &self,
        stream: Seq<char>,
        label: Seq<char>,
        outcome: Result<(), ErrorView>,
    ) -> bool {
        outcome is Ok
    }

    fn id(&self) -> (r: &str) {
        self.inner.id()
    }

    fn accepts(&self, stream: &StreamId) -> (r: bool) {
        true
    }

    fn requires_rebuild_on_attach(&self) -> (r: bool) {
        false
    }

    fn commit(&self, stream: &StreamId, seq: SeqNo, state: &serde_json::Value, event: &Event) -> (r:
        Result<(), StoreError>) {
        self.inner.commit(stream, seq, state, event)
    }

    fn on_label_set(
        &self,
        stream: &StreamId,
        label: &Label,
        at: SeqNo,
        state: &serde_json::Value,
        event: &Event,
    ) -> (r: Result<(), StoreError>) {
        Ok(())
    }

    fn on_label_deleted(&self, stream: &StreamId, label: &Label) -> (r: Result<(), StoreError>) {
        Ok(())
    }
}

/// Why a catch-up stopped on a stream.
#[derive(Debug, PartialEq, Eq)]
pub struct CatchUpFailure {
    /// The stream.
    pub stream: StreamId,
    /// The sink.
    pub sink_id: String,
    /// The reason, in words.
    pub message: String,
}

/// What a [`CatchUpFailure`] says.
pub struct CatchUpFailureView {
    /// The stream.
    pub stream: Seq<char>,
    /// The sink.
    pub sink: Seq<char>,
    /// The reason.
    pub message: Seq<char>,
}

impl View for CatchUpFailure {
    type V = CatchUpFailureView;

    open spec fn view(&self) -> CatchUpFailureView {
        CatchUpFailureView { stream: self.stream@, sink: self.sink_id@, message: self.message@ }
    }
}

impl Clone for CatchUpFailure {
    fn clone(&self) -> (r: Self)
        ensures
            r@ == self@,
    {
        CatchUpFailure {
            stream: self.stream.clone(),
            sink_id: self.sink_id.clone(),
            message: self.message.clone(),
        }
    }
}

/// What a catch-up did.
#[derive(Debug, PartialEq, Eq)]
pub struct CatchUpReport {
    /// Events that the sink took.
    pub applied: usize,
    /// Events that were not delivered, because an earlier one of their stream
    /// failed.
    pub skipped: usize,
    /// Events that failed.
    pub failed: usize,
    /// One entry for each stream that failed.
    pub failures: Vec<CatchUpFailure>,
}

/// What a [`CatchUpReport`] says.
#[verifier::ext_equal]
pub struct ReportView {
    /// Events that the sink took.
    pub applied: nat,
    /// Events that were not delivered.
    pub skipped: nat,
    /// Events that failed.
    pub failed: nat,
    /// The failures, in the order of the streams.
    pub failures: Seq<CatchUpFailureView>,
}

impl View for CatchUpReport {
    type V = ReportView;

    open spec fn view(&self) -> ReportView {
        ReportView {
            applied: self.applied as nat,
            skipped: self.skipped as nat,
            failed: self.failed as nat,
            failures: self.failures@.map_values(|f: CatchUpFailure| f@),
        }
    }
}

/// A report of nothing done.
pub open spec fn empty_report() -> ReportView {
    ReportView { applied: 0, skipped: 0, failed: 0, failures: Seq::empty() }
}

impl CatchUpReport {
    /// A report of nothing done.
    pub fn empty() -> (r: Self)
        ensures
            r@ == empty_report(),
    {
        let r = CatchUpReport { applied: 0, skipped: 0, failed: 0, failures: Vec::new() };
        proof {
            assert(r@ =~= empty_report());
        }
        r
    }
}

/// Which notification a sink failed on.
#[derive(Debug, Clone, Copy, PartialEq, Eq, Structural)]
#[non_exhaustive]
pub enum SinkOp {
    /// A committed event.
    Commit,
    /// A label that was pointed somewhere.
    LabelSet,
    /// A label that was removed.
    LabelDeleted,
}

/// A notification that a sink failed on.
#[derive(Debug)]
pub struct SinkDispatchFailure {
    /// The sink.
    pub sink_id: String,
    /// The stream.
    pub stream: StreamId,
    /// The coordinate of the event; notifications about labels have none.
    pub seq: Option<SeqNo>,
    /// Which notification it was.
    pub op: SinkOp,
    /// The reason, in words.
    pub error: String,
}

/// What a [`SinkDispatchFailure`] says.
pub struct DispatchFailureView {
    /// The sink.
    pub sink: Seq<char>,
    /// The stream.
    pub stream: Seq<char>,
    /// The coordinate of the event.
    pub seq: Option<SeqNo>,
    /// Which notification it was.
    pub op: SinkOp,
    /// The reason.
    pub error: Seq<char>,
}

impl View for SinkDispatchFailure {
    type V = DispatchFailureView;

    open spec fn view(&self) -> DispatchFailureView {
        DispatchFailureView {
            sink: self.sink_id@,
            stream: self.stream@,
            seq: self.seq,
            op: self.op,
            error: self.error@,
        }
    }
}

impl Clone for SinkDispatchFailure {
    fn clone(&self) -> (r: Self)
        ensures
            r@ == self@,
    {
        SinkDispatchFailure {
            sink_id: self.sink_id.clone(),
            stream: self.stream.clone(),
            seq: self.seq,
            op: self.op,
            error: self.error.clone(),
        }
    }
}

/// Somebody to tell about notifications that sinks failed on.
///
/// What the ghost functions mean is up to the implementation; where it does not
/// say, it is left open.
pub trait SinkFailureObserver: Send + Sync {
    /// Whether the observer has been told of `failure`.
    closed spec fn was_told(&self, failure: DispatchFailureView) -> bool {
        arbitrary()
    }

    /// A sink failed on a notification.
    fn on_failure(&self, failure: &SinkDispatchFailure)
        ensures
            self.was_told(failure@),
    ;
}

/// A sink that knows nothing but commits takes those of every stream, under its own id,
/// and keeps what it has when the process ends. Of labels it is told in vain, which is no
/// failure.
pub proof fn a_plain_sink_takes_every_commit<S: CommitSink>(
    sink: PlainSink<S>,
    stream: Seq<char>,
    label: Seq<char>,
    delivery: DeliveryView,
    outcome: Result<(), ErrorView>,
)
    ensures
        sink.name() == sink.inner.name(),
        sink.wants(stream),
        !sink.starts_empty(),
        sink.may_report(delivery, outcome) <==> sink.inner.may_report(delivery, outcome),
        sink.may_report_label(label, delivery, outcome) <==> outcome is Ok,
        sink.may_report_unlabel(stream, label, outcome) <==> outcome is Ok,
{
}

} // verus!
