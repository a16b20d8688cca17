//! The registered sinks, how far each of them has come, and telling them what
//! happened.
use std::sync::Arc;

use vstd::prelude::*;

use crate::backend::CheckpointBackend;
use crate::error::{error_words, ErrorView, StoreError};
use crate::event::Event;
use crate::id::{Label, SeqNo, StreamId};
use crate::json::json_text;
use crate::mem::checkpoint::{CheckpointTable, Marked};
use crate::sink::{
    DeliveryView, DispatchFailureView, ProjectionSink, SinkDispatchFailure, SinkFailureObserver,
    SinkOp,
};
use crate::text::same_text;
use crate::text_map::TextMap;

verus! {

/// How far the sinks have come, by sink and stream.
#[verifier::ext_equal]
pub struct Marks {
    /// What this process remembers.
    pub memory: Marked,
    /// What outlives the process.
    pub saved: Marked,
    /// Whether checkpoints outlive the process at all.
    pub durable: bool,
    /// Whether saving and restoring never fail.
    pub sure: bool,
}

impl Marks {
    /// The checkpoint that was saved for `key`, zero where there is none.
    pub open spec fn restored(self, key: (Seq<char>, Seq<char>)) -> u64 {
        if self.durable && self.saved.dom().contains(key) {
            self.saved[key]
        } else {
            0
        }
    }

    /// `at` is what a lookup of `key` may find: what is remembered, or else what
    /// was saved. A checkpoint that cannot be restored counts as zero.
    pub open spec fn may_find(self, key: (Seq<char>, Seq<char>), at: u64) -> bool {
        if self.memory.dom().contains(key) {
            at == self.memory[key]
        } else {
            at == self.restored(key) || (self.durable && !self.sure && at == 0)
        }
    }

    /// The marks once `at` has been found for `key`.
    pub open spec fn remembering(self, key: (Seq<char>, Seq<char>), at: u64) -> Marks {
        Marks { memory: self.memory.insert(key, at), ..self }
    }

    /// The marks with the checkpoint of `key` moved to `at`.
    pub open spec fn advanced(self, key: (Seq<char>, Seq<char>), at: u64) -> Marks {
        Marks {
            memory: self.memory.insert(key, at),
            saved: if self.durable {
                self.saved.insert(key, at)
            } else {
                self.saved
            },
            ..self
        }
    }

    /// The marks with the checkpoint of `key` back at zero.
    pub open spec fn reset(self, key: (Seq<char>, Seq<char>)) -> Marks {
        Marks {
            memory: self.memory.insert(key, 0),
            saved: if self.durable {
                self.saved.insert(key, 0)
            } else {
                self.saved
            },
            ..self
        }
    }
}

/// The checkpoints in `backend`.
pub open spec fn saved_marks<K: CheckpointBackend>(backend: Option<K>) -> Marked {
    match backend {
        Some(b) => Map::new(
            |key: (Seq<char>, Seq<char>)| b.saved(key.0, key.1) is Some,
            |key: (Seq<char>, Seq<char>)| b.saved(key.0, key.1)->0,
        ),
        None => Map::empty(),
    }
}

/// The observer, if there is one, has been told of `failure`.
pub open spec fn told(
    observer: Option<Arc<dyn SinkFailureObserver>>,
    failure: DispatchFailureView,
) -> bool {
    observer matches Some(o) ==> o.was_told(failure)
}

/// What is to be done with a committed event for one sink.
#[derive(Debug, Clone, Copy, PartialEq, Eq, Structural)]
pub enum Delivery {
    /// Nothing: the sink does not want it or has it already.
    Skip,
    /// Hand it over, and move the checkpoint if that succeeds.
    CommitAndAdvance,
    /// Hand it over and leave the checkpoint, since an earlier event is missing.
    CommitOnly,
}

/// Decide what to do with the event at `seq` for a sink that stands at
/// `checkpoint`.
pub fn plan_delivery(accepted: bool, checkpoint: SeqNo, seq: SeqNo) -> (r: Delivery)
    ensures
        r == if !accepted || seq.0 <= checkpoint.0 {
            Delivery::Skip
        } else if seq.0 == checkpoint.0 + 1 {
            Delivery::CommitAndAdvance
        } else {
            Delivery::CommitOnly
        },
{
    if !accepted || seq.0 <= checkpoint.0 {
        Delivery::Skip
    } else if seq.0 - checkpoint.0 == 1 {
        Delivery::CommitAndAdvance
    } else {
        Delivery::CommitOnly
    }
}

/// A committed event has gone to the sink at `i`: it is skipped where the sink does not
/// want it or has it; a success moves the checkpoint by one, where it stood just
/// before, and a failure is told to the observer.
pub open spec fn delivered(
    sinks: Seq<Arc<dyn ProjectionSink>>,
    i: int,
    observer: Option<Arc<dyn SinkFailureObserver>>,
    delivery: DeliveryView,
    before: Marks,
    after: Marks,
) -> bool {
    let key = (sinks[i].name(), delivery.stream);
    if !sinks[i].wants(delivery.stream) {
        after == before
    } else {
        exists|at: u64| #[trigger]
            before.may_find(key, at) && delivered_from(
                sinks,
                i,
                observer,
                delivery,
                at,
                before.remembering(key, at),
                after,
            )
    }
}

/// A committed event has gone to the sink at `i`, which stands at `at`.
pub open spec fn delivered_from(
    sinks: Seq<Arc<dyn ProjectionSink>>,
    i: int,
    observer: Option<Arc<dyn SinkFailureObserver>>,
    delivery: DeliveryView,
    at: u64,
    before: Marks,
    after: Marks,
) -> bool {
    let key = (sinks[i].name(), delivery.stream);
    if delivery.seq <= at {
        after == before
    } else {
        exists|outcome: Result<(), ErrorView>| #[trigger]
            sinks[i].may_report(delivery, outcome) && match outcome {
                Ok(_) => if delivery.seq == at + 1 {
                    after == before.advanced(key, delivery.seq) || (before.durable && !before.sure
                        && after == before)
                } else {
                    after == before
                },
                Err(e) => after == before && told(
                    observer,
                    DispatchFailureView {
                        sink: sinks[i].name(),
                        stream: delivery.stream,
                        seq: Some(SeqNo(delivery.seq)),
                        op: SinkOp::Commit,
                        error: error_words(e),
                    },
                ),
            }
    }
}

/// A committed event has gone to each of `sinks`, in order; `marks` are the
/// marks before the first, between two, and after the last.
pub open spec fn delivered_to_all(
    sinks: Seq<Arc<dyn ProjectionSink>>,
    observer: Option<Arc<dyn SinkFailureObserver>>,
    delivery: DeliveryView,
    marks: Seq<Marks>,
) -> bool {
    &&& marks.len() == sinks.len() + 1
    &&& forall|i: int|
        0 <= i < sinks.len() ==> #[trigger] delivered(
            sinks,
            i,
            observer,
            delivery,
            marks[i],
            marks[i + 1],
        )
}

/// Every sink that wants the stream was told that `label` points at `delivery`,
/// and the observer of each that failed.
pub open spec fn label_announced(
    sinks: Seq<Arc<dyn ProjectionSink>>,
    observer: Option<Arc<dyn SinkFailureObserver>>,
    label: Seq<char>,
    delivery: DeliveryView,
) -> bool {
    forall|i: int|
        0 <= i < sinks.len() && (#[trigger] sinks[i]).wants(delivery.stream) ==> exists|
            outcome: Result<(), ErrorView>,
        | #[trigger]
            sinks[i].may_report_label(label, delivery, outcome) && (outcome matches Err(e) ==> told(
                observer,
                DispatchFailureView {
                    sink: sinks[i].name(),
                    stream: delivery.stream,
                    seq: None,
                    op: SinkOp::LabelSet,
                    error: error_words(e),
                },
            ))
}

/// Every sink that wants the stream was told that `label` is gone, and the
/// observer of each that failed.
pub open spec fn unlabel_announced(
    sinks: Seq<Arc<dyn ProjectionSink>>,
    observer: Option<Arc<dyn SinkFailureObserver>>,
    stream: Seq<char>,
    label: Seq<char>,
) -> bool {
    forall|i: int|
        0 <= i < sinks.len() && (#[trigger] sinks[i]).wants(stream) ==> exists|
            outcome: Result<(), ErrorView>,
        | #[trigger]
            sinks[i].may_report_unlabel(stream, label, outcome) && (outcome matches Err(e) ==> told(
                observer,
                DispatchFailureView {
                    sink: sinks[i].name(),
                    stream,
                    seq: None,
                    op: SinkOp::LabelDeleted,
                    error: error_words(e),
                },
            ))
}

/// `items` with the one in `last` at the end.
pub(crate) fn with_last<T>(items: Vec<T>, last: (T,)) -> (r: Vec<T>)
    ensures
        r@ == items@.push(last.0),
{
    let mut out = items;
    out.push(last.0);
    out
}

/// The item in `only`, as one that is there.
pub(crate) fn present<T>(only: (T,)) -> (r: Option<T>)
    ensures
        r == Some(only.0),
{
    Some(only.0)
}

/// Some sink has the id `sink_id`.
pub open spec fn has_name(sinks: Seq<Arc<dyn ProjectionSink>>, sink_id: Seq<char>) -> bool {
    exists|i: int| 0 <= i < sinks.len() && (#[trigger] sinks[i]).name() == sink_id
}

/// The sinks of a store.
pub struct SinkDispatcher<K: CheckpointBackend> {
    sinks: Vec<Arc<dyn ProjectionSink>>,
    checkpoints: CheckpointTable,
    checkpoint_backend: Option<K>,
    observer: Option<Arc<dyn SinkFailureObserver>>,
    rebuilt: TextMap<bool>,
}

impl<K: CheckpointBackend> SinkDispatcher<K> {
    /// The registered sinks, in order.
    pub closed spec fn sinks(&self) -> Seq<Arc<dyn ProjectionSink>> {
        self.sinks@
    }

    /// The observer.
    pub closed spec fn observer(&self) -> Option<Arc<dyn SinkFailureObserver>> {
        self.observer
    }

    /// How far the sinks have come.
    pub closed spec fn marks(&self) -> Marks {
        Marks {
            memory: self.checkpoints.map(),
            saved: saved_marks(self.checkpoint_backend),
            durable: self.checkpoint_backend is Some,
            sure: self.checkpoint_backend matches Some(b) ==> b.reliable(),
        }
    }

    /// Ids of sinks that have been caught up in this process.
    pub closed spec fn caught_up(&self) -> Set<Seq<char>> {
        self.rebuilt@.dom()
    }

    /// The dispatcher is in order.
    pub closed spec fn wf(&self) -> bool {
        &&& self.checkpoints.wf()
        &&& self.rebuilt.wf()
        &&& self.checkpoint_backend matches Some(b) ==> b.wf()
        &&& forall|id: Seq<char>| #[trigger]
            self.rebuilt@.dom().contains(id) ==> has_name(self.sinks@, id)
    }

    /// Only an id that some sink has counts as caught up.
    pub proof fn caught_up_ids_are_names(&self, id: Seq<char>)
        requires
            self.wf(),
            self.caught_up().contains(id),
        ensures
            has_name(self.sinks(), id),
    {
    }

    /// Nothing but marks may have changed since `earlier`.
    pub open spec fn same_but_marks(&self, earlier: &Self) -> bool {
        &&& self.sinks() == earlier.sinks()
        &&& self.observer() == earlier.observer()
        &&& self.caught_up() == earlier.caught_up()
    }

    /// A dispatcher for `sinks`. Nothing is remembered yet.
    pub fn new(
        sinks: Vec<Arc<dyn ProjectionSink>>,
        checkpoint_backend: Option<K>,
        observer: Option<Arc<dyn SinkFailureObserver>>,
    ) -> (r: Self)
        requires
            checkpoint_backend matches Some(b) ==> b.wf(),
        ensures
            r.wf(),
            r.sinks() == sinks@,
            r.observer() == observer,
            r.caught_up() == Set::<Seq<char>>::empty(),
            r.marks() == (Marks {
                memory: Map::empty(),
                saved: saved_marks(checkpoint_backend),
                durable: checkpoint_backend is Some,
                sure: checkpoint_backend matches Some(b) ==> b.reliable(),
            }),
    {
        let r = SinkDispatcher {
            sinks,
            checkpoints: CheckpointTable::new(),
            checkpoint_backend,
            observer,
            rebuilt: TextMap::new(),
        };
        proof {
            assert(r.marks().memory =~= Map::<(Seq<char>, Seq<char>), u64>::empty());
            assert(r.caught_up() =~= Set::<Seq<char>>::empty());
        }
        r
    }

    /// The first sink with id `sink_id`.
    pub open spec fn first_named(&self, sink_id: Seq<char>) -> Option<int> {
        if has_name(self.sinks(), sink_id) {
            Some(
                choose|i: int|
                    0 <= i < self.sinks().len() && (#[trigger] self.sinks()[i]).name() == sink_id
                        && forall|j: int|
                        0 <= j < i ==> (#[trigger] self.sinks()[j]).name() != sink_id,
            )
        } else {
            None
        }
    }

    /// Where checkpoints are kept.
    pub fn into_checkpoint_backend(self) -> (r: Option<K>)
        requires
            self.wf(),
        ensures
            r is Some == self.marks().durable,
            saved_marks(r) == self.marks().saved,
            r matches Some(b) ==> b.wf() && b.reliable() == self.marks().sure,
    {
        self.checkpoint_backend
    }

    /// Whether there are sinks.
    pub fn has_sinks(&self) -> (r: bool)
        ensures
            r == (self.sinks().len() > 0),
    {
        self.sinks.len() > 0
    }

    /// The position of the first sink with id `sink_id`.
    pub fn find_sink(&self, sink_id: &str) -> (r: Option<usize>)
        ensures
            match r {
                Some(i) => self.first_named(sink_id@) == Some(i as int) && i < self.sinks().len()
                    && self.sinks()[i as int].name() == sink_id@,
                None => self.first_named(sink_id@) is None,
            },
    {
        let mut i: usize = 0;
        while i < self.sinks.len()
            invariant
                i <= self.sinks@.len(),
                forall|j: int| 0 <= j < i ==> (#[trigger] self.sinks@[j]).name() != sink_id@,
            decreases self.sinks@.len() - i,
        {
            if same_text(self.sinks[i].id(), sink_id) {
                proof {
                    assert(self.sinks()[i as int].name() == sink_id@);
                    let c = self.first_named(sink_id@)->0;
                    assert(c == i) by {
                        if c < i {
                            assert(self.sinks()[c].name() != sink_id@);
                        } else if i < c {
                            assert(self.sinks()[i as int].name() != sink_id@);
                        }
                    }
                }
                return Some(i);
            }
            i = i + 1;
        }
        None
    }

    /// The sink at position `i`.
    pub fn sink(&self, i: usize) -> (r: &Arc<dyn ProjectionSink>)
        requires
            i < self.sinks().len(),
        ensures
            *r == self.sinks()[i as int],
    {
        &self.sinks[i]
    }

    /// Register one more sink; its id has to be new.
    pub fn attach(&mut self, sink: Arc<dyn ProjectionSink>) -> (r: Result<(), StoreError>)
        requires
            old(self).wf(),
        ensures
            final(self).wf(),
            final(self).observer() == old(self).observer(),
            final(self).caught_up() == old(self).caught_up(),
            final(self).marks() == old(self).marks(),
            match old(self).first_named(sink.name()) {
                Some(_) => {
                    &&& final(self).sinks() == old(self).sinks()
                    &&& r matches Err(e) && e@ == ErrorView::SinkAlreadyAttached(sink.name())
                },
                None => {
                    &&& final(self).sinks().len() == old(self).sinks().len() + 1
                    &&& final(self).sinks().last() == sink
                    &&& final(self).sinks().drop_last() == old(self).sinks()
                    &&& r is Ok
                },
            },
    {
        let packed = (sink,);
        self.attach_packed(packed)
    }

    /// Register the sink in `packed`; its id has to be new.
    pub(crate) fn attach_packed(&mut self, packed: (Arc<dyn ProjectionSink>,)) -> (r: Result<
        (),
        StoreError,
    >)
        requires
            old(self).wf(),
        ensures
            final(self).wf(),
            final(self).observer() == old(self).observer(),
            final(self).caught_up() == old(self).caught_up(),
            final(self).marks() == old(self).marks(),
            match old(self).first_named(packed.0.name()) {
                Some(_) => {
                    &&& final(self).sinks() == old(self).sinks()
                    &&& r matches Err(e) && e@ == ErrorView::SinkAlreadyAttached(packed.0.name())
                },
                None => {
                    &&& final(self).sinks().len() == old(self).sinks().len() + 1
                    &&& final(self).sinks().last() == packed.0
                    &&& final(self).sinks().drop_last() == old(self).sinks()
                    &&& r is Ok
                },
            },
    {
        match self.find_sink(packed.0.id()) {
            Some(_) => Err(StoreError::SinkAlreadyAttached(packed.0.id().to_owned())),
            None => {
                let mut all: Vec<Arc<dyn ProjectionSink>> = Vec::new();
                let ghost start = *self;
                let ghost before = self.sinks@;
                std::mem::swap(&mut all, &mut self.sinks);
                self.sinks = with_last(all, packed);
                proof {
                    assert(self.sinks@.last() == packed.0);
                    assert(self.marks() == start.marks());
                    assert(self.caught_up() =~= start.caught_up());
                    assert(self.sinks@.drop_last() =~= before);
                    assert forall|id: Seq<char>| has_name(before, id) implies has_name(
                        self.sinks@,
                        id,
                    ) by {
                        let i = choose|i: int|
                            0 <= i < before.len() && (#[trigger] before[i]).name() == id;
                        assert(self.sinks@[i] == before[i]);
                    }
                }
                Ok(())
            },
        }
    }

    /// How far `sink_id` has come on `stream`. The answer is remembered.
    pub fn checkpoint_get(&mut self, sink_id: &str, stream: &StreamId) -> (r: SeqNo)
        requires
            old(self).wf(),
        ensures
            final(self).wf(),
            final(self).same_but_marks(old(self)),
            old(self).marks().may_find((sink_id@, stream@), r.0),
            final(self).marks() == old(self).marks().remembering((sink_id@, stream@), r.0),
    {
        let ghost before = *self;
        match self.checkpoints.lookup(sink_id, stream) {
            Some(at) => {
                proof {
                    assert(before.marks().memory[(sink_id@, stream@)] == at.0);
                    assert(self.marks() =~= before.marks().remembering((sink_id@, stream@), at.0));
                }
                at
            },
            None => {
                let restored = match &self.checkpoint_backend {
                    Some(backend) => match backend.get(sink_id, stream) {
                        Ok(Some(at)) => at,
                        Ok(None) => SeqNo::zero(),
                        Err(_) => SeqNo::zero(),
                    },
                    None => SeqNo::zero(),
                };
                self.checkpoints.set(sink_id, stream, restored);
                proof {
                    assert(before.marks().may_find((sink_id@, stream@), restored.0));
                    assert(self.marks() =~= before.marks().remembering(
                        (sink_id@, stream@),
                        restored.0,
                    ));
                }
                restored
            },
        }
    }

    /// Move the checkpoint of `sink_id` on `stream` to `seq`: it is saved first,
    /// and where that fails nothing changes.
    pub fn checkpoint_advance(&mut self, sink_id: &str, stream: &StreamId, seq: SeqNo) -> (r: bool)
        requires
            old(self).wf(),
        ensures
            final(self).wf(),
            final(self).same_but_marks(old(self)),
            final(self).marks() == if r {
                old(self).marks().advanced((sink_id@, stream@), seq.0)
            } else {
                old(self).marks()
            },
            !old(self).marks().durable || old(self).marks().sure ==> r,
    {
        let ghost before = *self;
        let kept = match &mut self.checkpoint_backend {
            Some(backend) => match backend.put(sink_id, stream, seq) {
                Ok(_) => true,
                Err(_) => false,
            },
            None => true,
        };
        if !kept {
            proof {
                assert(self.marks() =~= before.marks());
            }
            return false;
        }
        self.checkpoints.set(sink_id, stream, seq);
        proof {
            assert(self.marks() =~= before.marks().advanced((sink_id@, stream@), seq.0));
        }
        true
    }

    /// Set the checkpoint of `sink_id` on `stream` back to zero. That the saved
    /// checkpoint is reset too is tried, but not insisted on: what is remembered
    /// comes before what was saved.
    pub fn checkpoint_reset(&mut self, sink_id: &str, stream: &StreamId)
        requires
            old(self).wf(),
        ensures
            final(self).wf(),
            final(self).same_but_marks(old(self)),
            final(self).marks() == old(self).marks().reset((sink_id@, stream@)) || (old(
                self,
            ).marks().durable && !old(self).marks().sure && final(self).marks() == old(
                self,
            ).marks().remembering((sink_id@, stream@), 0)),
            forall|at: u64| #[trigger]
                final(self).marks().may_find((sink_id@, stream@), at) ==> at == 0,
    {
        let ghost before = *self;
        self.checkpoints.set(sink_id, stream, SeqNo::zero());
        let ghost key = (sink_id@, stream@);
        proof {
            assert(self.marks().memory =~= before.marks().memory.insert(key, 0));
        }
        match &mut self.checkpoint_backend {
            Some(backend) => {
                let kept = backend.put(sink_id, stream, SeqNo::zero());
            },
            None => {},
        }
        proof {
            assert(self.marks() =~= before.marks().reset(key) || self.marks()
                =~= before.marks().remembering(key, 0));
        }
    }

    /// Whether `sink_id` has been caught up in this process.
    pub fn has_been_rebuilt_this_process(&self, sink_id: &str) -> (r: bool)
        requires
            self.wf(),
        ensures
            r == self.caught_up().contains(sink_id@),
    {
        match self.rebuilt.position(sink_id) {
            Some(_) => true,
            None => false,
        }
    }

    /// Remember that `sink_id` has been caught up in this process. An id that no
    /// sink has cannot have been.
    pub fn mark_rebuilt_this_process(&mut self, sink_id: &str)
        requires
            old(self).wf(),
        ensures
            final(self).wf(),
            final(self).sinks() == old(self).sinks(),
            final(self).observer() == old(self).observer(),
            final(self).marks() == old(self).marks(),
            final(self).caught_up() == if has_name(old(self).sinks(), sink_id@) {
                old(self).caught_up().insert(sink_id@)
            } else {
                old(self).caught_up()
            },
    {
        let ghost before = *self;
        match self.find_sink(sink_id) {
            Some(_) => {
                self.rebuilt.insert(sink_id, true);
                proof {
                    assert(self.caught_up() =~= before.caught_up().insert(sink_id@));
                }
            },
            None => {},
        }
    }

    /// Tell the observer, if there is one, that a sink failed.
    fn notify_sink_failure(
        &self,
        sink_id: &str,
        stream: &StreamId,
        seq: Option<SeqNo>,
        op: SinkOp,
        error: &StoreError,
    )
        ensures
            told(
                self.observer(),
                DispatchFailureView {
                    sink: sink_id@,
                    stream: stream@,
                    seq,
                    op,
                    error: error_words(error@),
                },
            ),
    {
        match &self.observer {
            Some(observer) => {
                let failure = SinkDispatchFailure {
                    sink_id: sink_id.to_owned(),
                    stream: stream.clone(),
                    seq,
                    op,
                    error: error.message(),
                };
                observer.on_failure(&failure);
            },
            None => {},
        }
    }

    /// Hand a committed event to the sinks.
    pub fn dispatch_commit(
        &mut self,
        stream: &StreamId,
        seq: SeqNo,
        next_state: &serde_json::Value,
        event: &Event,
    )
        requires
            old(self).wf(),
        ensures
            final(self).wf(),
            final(self).same_but_marks(old(self)),
            exists|marks: Seq<Marks>| #[trigger]
                delivered_to_all(
                    old(self).sinks(),
                    old(self).observer(),
                    (DeliveryView {
                        stream: stream@,
                        seq: seq.0,
                        state: json_text(*next_state),
                        event: event@,
                    }),
                    marks,
                ) && marks.first() == old(self).marks() && marks.last() == final(self).marks(),
    {
        let ghost before = *self;
        let ghost delivery = DeliveryView {
            stream: stream@,
            seq: seq.0,
            state: json_text(*next_state),
            event: event@,
        };
        let ghost mut marks: Seq<Marks> = seq![self.marks()];
        let mut i: usize = 0;
        while i < self.sinks.len()
            invariant
                self.wf(),
                self.same_but_marks(&before),
                i <= self.sinks@.len(),
                delivery == (DeliveryView {
                    stream: stream@,
                    seq: seq.0,
                    state: json_text(*next_state),
                    event: event@,
                }),
                marks.len() == i + 1,
                marks.first() == before.marks(),
                marks.last() == self.marks(),
                forall|j: int|
                    0 <= j < i ==> #[trigger] delivered(
                        before.sinks(),
                        j,
                        before.observer(),
                        delivery,
                        marks[j],
                        marks[j + 1],
                    ),
            decreases self.sinks@.len() - i,
        {
            let ghost start = self.marks();
            let ghost key = (self.sinks@[i as int].name(), stream@);
            if self.sinks[i].accepts(stream) {
                let id = self.sinks[i].id().to_owned();
                let checkpoint = self.checkpoint_get(id.as_str(), stream);
                let ghost found = self.marks();
                match plan_delivery(true, checkpoint, seq) {
                    Delivery::Skip => {},
                    Delivery::CommitAndAdvance => match self.sinks[i].commit(
                        stream,
                        seq,
                        next_state,
                        event,
                    ) {
                        Ok(_) => {
                            proof {
                                assert(self.sinks@[i as int].may_report(delivery, Ok(())));
                            }
                            let moved = self.checkpoint_advance(id.as_str(), stream, seq);
                        },
                        Err(e) => {
                            proof {
                                assert(self.sinks@[i as int].may_report(delivery, Err(e@)));
                            }
                            self.notify_sink_failure(
                                id.as_str(),
                                stream,
                                Some(seq),
                                SinkOp::Commit,
                                &e,
                            );
                        },
                    },
                    Delivery::CommitOnly => match self.sinks[i].commit(
                        stream,
                        seq,
                        next_state,
                        event,
                    ) {
                        Ok(_) => {
                            proof {
                                assert(self.sinks@[i as int].may_report(delivery, Ok(())));
                            }
                        },
                        Err(e) => {
                            proof {
                                assert(self.sinks@[i as int].may_report(delivery, Err(e@)));
                            }
                            self.notify_sink_failure(
                                id.as_str(),
                                stream,
                                Some(seq),
                                SinkOp::Commit,
                                &e,
                            );
                        },
                    },
                }
                proof {
                    assert(start.may_find(key, checkpoint.0));
                    assert(delivered_from(
                        before.sinks(),
                        i as int,
                        before.observer(),
                        delivery,
                        checkpoint.0,
                        start.remembering(key, checkpoint.0),
                        self.marks(),
                    ));
                }
            }
            proof {
                let earlier = marks;
                marks = marks.push(self.marks());
                assert forall|j: int| 0 <= j < i + 1 implies #[trigger] delivered(
                    before.sinks(),
                        j,
                    before.observer(),
                    delivery,
                    marks[j],
                    marks[j + 1],
                ) by {
                    if j < i {
                        assert(delivered(
                            before.sinks(),
                        j,
                            before.observer(),
                            delivery,
                            earlier[j],
                            earlier[j + 1],
                        ));
                    }
                }
            }
            i = i + 1;
        }
        proof {
            assert(delivered_to_all(before.sinks(), before.observer(), delivery, marks));
        }
    }

    /// Tell the sinks that `label` points at coordinate `at`.
    pub fn dispatch_label_set(
        &self,
        stream: &StreamId,
        label: &Label,
        at: SeqNo,
        state: &serde_json::Value,
        event: &Event,
    )
        ensures
            label_announced(
                self.sinks(),
                self.observer(),
                label@,
                (DeliveryView {
                    stream: stream@,
                    seq: at.0,
                    state: json_text(*state),
                    event: event@,
                }),
            ),
    {
        let ghost delivery = DeliveryView {
            stream: stream@,
            seq: at.0,
            state: json_text(*state),
            event: event@,
        };
        let mut i: usize = 0;
        while i < self.sinks.len()
            invariant
                i <= self.sinks@.len(),
                delivery == (DeliveryView {
                    stream: stream@,
                    seq: at.0,
                    state: json_text(*state),
                    event: event@,
                }),
                label_announced(self.sinks@.take(i as int), self.observer(), label@, delivery),
            decreases self.sinks@.len() - i,
        {
            let ghost done = self.sinks@.take(i as int);
            let ghost more = self.sinks@.take(i as int + 1);
            if self.sinks[i].accepts(stream) {
                match self.sinks[i].on_label_set(stream, label, at, state, event) {
                    Ok(_) => {
                        proof {
                            assert(self.sinks@[i as int].may_report_label(
                                label@,
                                delivery,
                                Ok(()),
                            ));
                        }
                    },
                    Err(e) => {
                        proof {
                            assert(self.sinks@[i as int].may_report_label(
                                label@,
                                delivery,
                                Err(e@),
                            ));
                        }
                        self.notify_sink_failure(
                            self.sinks[i].id(),
                            stream,
                            None,
                            SinkOp::LabelSet,
                            &e,
                        );
                    },
                }
            }
            proof {
                assert forall|j: int|
                    0 <= j < more.len() && (#[trigger] more[j]).wants(
                        delivery.stream,
                    ) implies exists|outcome: Result<(), ErrorView>| #[trigger]
                    more[j].may_report_label(label@, delivery, outcome) && (
                    outcome matches Err(e) ==> told(
                        self.observer(),
                        DispatchFailureView {
                            sink: more[j].name(),
                            stream: delivery.stream,
                            seq: None,
                            op: SinkOp::LabelSet,
                            error: error_words(e),
                        },
                    )) by {
                    if j < i {
                        assert(done[j] == more[j]);
                    }
                }
            }
            i = i + 1;
        }
        proof {
            assert(self.sinks@.take(i as int) =~= self.sinks@);
        }
    }

    /// Tell the sinks that `label` is gone.
    pub fn dispatch_label_deleted(&self, stream: &StreamId, label: &Label)
        ensures
            unlabel_announced(self.sinks(), self.observer(), stream@, label@),
    {
        let mut i: usize = 0;
        while i < self.sinks.len()
            invariant
                i <= self.sinks@.len(),
                unlabel_announced(self.sinks@.take(i as int), self.observer(), stream@, label@),
            decreases self.sinks@.len() - i,
        {
            let ghost done = self.sinks@.take(i as int);
            let ghost more = self.sinks@.take(i as int + 1);
            if self.sinks[i].accepts(stream) {
                match self.sinks[i].on_label_deleted(stream, label) {
                    Ok(_) => {
                        proof {
                            assert(self.sinks@[i as int].may_report_unlabel(
                                stream@,
                                label@,
                                Ok(()),
                            ));
                        }
                    },
                    Err(e) => {
                        proof {
                            assert(self.sinks@[i as int].may_report_unlabel(
                                stream@,
                                label@,
                                Err(e@),
                            ));
                        }
                        self.notify_sink_failure(
                            self.sinks[i].id(),
                            stream,
                            None,
                            SinkOp::LabelDeleted,
                            &e,
                        );
                    },
                }
            }
            proof {
                assert forall|j: int|
                    0 <= j < more.len() && (#[trigger] more[j]).wants(stream@) implies exists|
                    outcome: Result<(), ErrorView>,
                | #[trigger]
                    more[j].may_report_unlabel(stream@, label@, outcome) && (
                    outcome matches Err(e) ==> told(
                        self.observer(),
                        DispatchFailureView {
                            sink: more[j].name(),
                            stream: stream@,
                            seq: None,
                            op: SinkOp::LabelDeleted,
                            error: error_words(e),
                        },
                    )) by {
                    if j < i {
                        assert(done[j] == more[j]);
                    }
                }
            }
            i = i + 1;
        }
        proof {
            assert(self.sinks@.take(i as int) =~= self.sinks@);
        }
    }
}

} // verus!
