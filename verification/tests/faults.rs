//! Storage that fails, and logs that do not apply.
use std::sync::{Arc, Mutex};

use ai_store::legacy::{migrate, LegacyEntry};
use ai_store::sqlite::maintenance::SqliteMaintenance;
use ai_store::{
    CacheBackend, CatchUpReport, CommitSink, Committed, Event, EventBackend, Label,
    MemCacheBackend, MemCheckpointBackend, MemEventBackend, NewEvent, Patch, PlainSink, SeqNo,
    Store, StoreConfig, StoreError, StreamId, Timestamp,
};
use serde_json::Value;

fn json(text: &str) -> Value {
    serde_json::from_str(text).unwrap()
}

fn patch(text: &str) -> Patch {
    serde_json::from_str(text).unwrap()
}

fn doc() -> StreamId {
    StreamId::new("doc")
}

/// Which call fails, and for reads from which coordinate on.
#[derive(Clone)]
struct Fault {
    next: Arc<Mutex<Option<(&'static str, u64)>>>,
}

impl Fault {
    fn none() -> Fault {
        Fault {
            next: Arc::new(Mutex::new(None)),
        }
    }

    fn set(&self, call: &'static str, from: u64) {
        *self.next.lock().unwrap() = Some((call, from));
    }

    fn clear(&self) {
        *self.next.lock().unwrap() = None;
    }

    fn check(&self, call: &'static str, at: u64) -> Result<(), StoreError> {
        match *self.next.lock().unwrap() {
            Some((failing, from)) if failing == call && at >= from => {
                Err(StoreError::Busy(call.to_string()))
            }
            _ => Ok(()),
        }
    }
}

/// A log whose calls can be made to fail.
struct FrailLog {
    inner: MemEventBackend,
    fault: Fault,
}

impl EventBackend for FrailLog {
    fn wf_facts(&self) {}

    fn append(&mut self, stream: &StreamId, rec: NewEvent) -> Result<Committed, StoreError> {
        self.fault.check("append", 0)?;
        self.inner.append(stream, rec)
    }

    fn import_event(
        &mut self,
        stream: &StreamId,
        rec: NewEvent,
        at: Timestamp,
    ) -> Result<Committed, StoreError> {
        self.fault.check("import_event", 0)?;
        self.inner.import_event(stream, rec, at)
    }

    fn read(&self, stream: &StreamId, from: SeqNo, limit: usize) -> Result<Vec<Event>, StoreError> {
        self.fault.check("read", from.0)?;
        self.inner.read(stream, from, limit)
    }

    fn head(&self, stream: &StreamId) -> Result<Option<SeqNo>, StoreError> {
        self.fault.check("head", 0)?;
        self.inner.head(stream)
    }

    fn seq_at_time(&self, stream: &StreamId, at: Timestamp) -> Result<Option<SeqNo>, StoreError> {
        self.fault.check("seq_at_time", 0)?;
        self.inner.seq_at_time(stream, at)
    }

    fn streams(&self) -> Result<Vec<StreamId>, StoreError> {
        self.fault.check("streams", 0)?;
        self.inner.streams()
    }

    fn compaction_boundary(&self, stream: &StreamId) -> Result<Option<SeqNo>, StoreError> {
        self.fault.check("compaction_boundary", 0)?;
        self.inner.compaction_boundary(stream)
    }

    fn label_set(
        &mut self,
        stream: &StreamId,
        label: &Label,
        at: SeqNo,
    ) -> Result<(), StoreError> {
        self.fault.check("label_set", 0)?;
        self.inner.label_set(stream, label, at)
    }

    fn label_resolve(
        &self,
        stream: &StreamId,
        label: &Label,
    ) -> Result<Option<SeqNo>, StoreError> {
        self.fault.check("label_resolve", 0)?;
        self.inner.label_resolve(stream, label)
    }

    fn labels(&self, stream: &StreamId) -> Result<Vec<(Label, SeqNo)>, StoreError> {
        self.fault.check("labels", 0)?;
        self.inner.labels(stream)
    }

    fn label_delete(&mut self, stream: &StreamId, label: &Label) -> Result<bool, StoreError> {
        self.fault.check("label_delete", 0)?;
        self.inner.label_delete(stream, label)
    }
}

/// A cache whose calls can be made to fail.
struct FrailCache {
    inner: MemCacheBackend,
    fault: Fault,
}

impl CacheBackend for FrailCache {
    fn wf_facts(&self) {}

    fn put(&mut self, stream: &StreamId, at: SeqNo, state: &Value) -> Result<(), StoreError> {
        self.fault.check("put", at.0)?;
        self.inner.put(stream, at, state)
    }

    fn nearest(
        &self,
        stream: &StreamId,
        at: SeqNo,
    ) -> Result<Option<(SeqNo, Value)>, StoreError> {
        self.fault.check("nearest", at.0)?;
        self.inner.nearest(stream, at)
    }

    fn prune(&mut self, stream: &StreamId, keep_latest: usize) -> Result<(), StoreError> {
        self.fault.check("prune", 0)?;
        self.inner.prune(stream, keep_latest)
    }
}

type FrailStore = Store<FrailLog, FrailCache, MemCheckpointBackend>;

fn frail_store(cache_stride: u64) -> (FrailStore, Fault) {
    let fault = Fault::none();
    let store = Store::new(
        FrailLog {
            inner: MemEventBackend::new(),
            fault: fault.clone(),
        },
        FrailCache {
            inner: MemCacheBackend::new(),
            fault: fault.clone(),
        },
        Vec::new(),
        Vec::new(),
        StoreConfig {
            cache_stride,
            cache_keep_latest: None,
        },
    );
    (store, fault)
}

/// Make the events at `n` and after it, up to `last`, part of a counter.
fn count(store: &mut FrailStore, stream: &StreamId, n: u64, last: u64) {
    for i in n..=last {
        let change = format!(r#"[{{ "op": "add", "path": "", "value": {i} }}]"#);
        store
            .append(stream, "set", patch(&change), json("{}"))
            .unwrap();
    }
}

/// Remembers the coordinates that it was handed, with the states.
struct Follower {
    seen: Mutex<Vec<(StreamId, u64, Value)>>,
}

impl CommitSink for Follower {
    fn id(&self) -> &str {
        "f"
    }

    fn commit(
        &self,
        stream: &StreamId,
        seq: SeqNo,
        state: &Value,
        _event: &Event,
    ) -> Result<(), StoreError> {
        self.seen
            .lock()
            .unwrap()
            .push((stream.clone(), seq.0, state.clone()));
        Ok(())
    }
}

fn follower() -> Arc<PlainSink<Follower>> {
    Arc::new(PlainSink {
        inner: Follower {
            seen: Mutex::new(Vec::new()),
        },
    })
}

fn seen(sink: &PlainSink<Follower>) -> Vec<u64> {
    sink.inner.seen.lock().unwrap().iter().map(|s| s.1).collect()
}

fn is_busy<T>(r: Result<T, StoreError>, call: &str) -> bool {
    matches!(r, Err(StoreError::Busy(what)) if what == call)
}

// ---- errors are handed on --------------------------------------------------

#[test]
fn a_failing_log_is_quoted() {
    let (mut store, fault) = frail_store(64);
    count(&mut store, &doc(), 1, 3);
    let label = Label::new("v1");
    store.label_set(&doc(), &label, SeqNo(1)).unwrap();
    let value = json("1");

    fault.set("head", 0);
    assert!(is_busy(store.head(&doc()), "head"));
    assert!(is_busy(store.state(&doc()), "head"));
    assert!(is_busy(store.state_at(&doc(), SeqNo(1)), "head"));
    assert!(is_busy(store.streams_live(), "head"));
    assert!(is_busy(store.revert(&doc(), SeqNo(1)), "head"));
    fault.set("compaction_boundary", 0);
    assert!(is_busy(
        store.state_at(&doc(), SeqNo(1)),
        "compaction_boundary"
    ));
    fault.set("read", 0);
    assert!(is_busy(store.read(&doc(), SeqNo(1), 1), "read"));
    assert!(is_busy(store.state_at(&doc(), SeqNo(2)), "read"));
    assert!(is_busy(
        store.read_by_meta(&doc(), "by", &value, SeqNo(1), 1),
        "read"
    ));
    assert!(is_busy(store.streams_live(), "read"));
    fault.set("seq_at_time", 0);
    assert!(is_busy(
        store.seq_at_time(&doc(), Timestamp(0)),
        "seq_at_time"
    ));
    fault.set("streams", 0);
    assert!(is_busy(store.streams(), "streams"));
    assert!(is_busy(store.streams_live(), "streams"));
    fault.set("labels", 0);
    assert!(is_busy(store.labels(&doc()), "labels"));
    fault.set("label_resolve", 0);
    assert!(is_busy(
        store.label_resolve(&doc(), &label),
        "label_resolve"
    ));
    fault.set("label_set", 0);
    assert!(is_busy(
        store.label_set(&doc(), &label, SeqNo(2)),
        "label_set"
    ));
    fault.set("label_delete", 0);
    assert!(is_busy(store.label_delete(&doc(), &label), "label_delete"));
    fault.set("append", 0);
    assert!(is_busy(
        store.append(&doc(), "set", patch("[]"), json("{}")),
        "append"
    ));
    fault.set("import_event", 0);
    assert!(is_busy(
        store.import_event(&doc(), "set", patch("[]"), json("{}"), Timestamp(1)),
        "import_event"
    ));

    // Nothing of this left a trace.
    fault.clear();
    assert_eq!(store.head(&doc()).unwrap(), Some(SeqNo(3)));
    assert_eq!(store.label_resolve(&doc(), &label).unwrap(), SeqNo(1));
    assert_eq!(store.state(&doc()).unwrap(), json("3"));
}

#[test]
fn a_failing_cache_is_quoted() {
    let (mut store, fault) = frail_store(2);
    count(&mut store, &doc(), 1, 3);
    fault.set("nearest", 0);
    assert!(is_busy(store.state(&doc()), "nearest"));
    assert!(is_busy(store.state_at(&doc(), SeqNo(1)), "nearest"));
    fault.set("prune", 0);
    assert!(is_busy(store.prune_cache(&doc(), 0), "prune"));

    // The event is there, though its state could not be cached.
    fault.set("put", 0);
    let four = patch(r#"[{ "op": "add", "path": "", "value": 4 }]"#);
    assert!(is_busy(
        store.append(&doc(), "set", four, json("{}")),
        "put"
    ));
    fault.clear();
    assert_eq!(store.head(&doc()).unwrap(), Some(SeqNo(4)));
    assert_eq!(store.state(&doc()).unwrap(), json("4"));
}

#[test]
fn a_failing_log_stops_a_compaction() {
    let (mut store, fault) = frail_store(64);
    count(&mut store, &doc(), 1, 3);
    let maintenance = SqliteMaintenance::new();
    fault.set("read", 0);
    assert!(is_busy(
        maintenance.compact_stream(&store, &doc(), SeqNo(2)),
        "read"
    ));
    fault.clear();
    let plan = maintenance.compact_stream(&store, &doc(), SeqNo(2)).unwrap();
    assert_eq!(plan.report.boundary, SeqNo(2));
    assert_eq!(plan.report.head_at_compaction, SeqNo(3));
}

// ---- catching up -----------------------------------------------------------

#[test]
fn a_failed_catch_up_skips_nothing() {
    let (mut store, fault) = frail_store(64);
    count(&mut store, &doc(), 1, 40);
    let sink = follower();

    // The second page of events cannot be read.
    fault.set("read", 20);
    assert!(is_busy(store.attach_sink(sink.clone()), "read"));
    assert_eq!(seen(&sink), (1..=32).collect::<Vec<u64>>());

    // The sink is attached, and stands where it got to.
    assert!(is_busy(store.catch_up("f"), "read"));
    assert_eq!(seen(&sink).len(), 32);
    fault.clear();
    let report = store.catch_up("f").unwrap();
    assert_eq!((report.applied, report.failed, report.skipped), (8, 0, 0));
    assert_eq!(seen(&sink), (1..=40).collect::<Vec<u64>>());
    assert_eq!(store.catch_up("f").unwrap(), CatchUpReport::empty());
}

#[test]
fn a_failed_rebuild_starts_over() {
    let (mut store, fault) = frail_store(64);
    count(&mut store, &doc(), 1, 3);
    let sink = follower();
    store.attach_sink(sink.clone()).unwrap();
    assert_eq!(seen(&sink), vec![1, 2, 3]);

    // The checkpoint was reset before the log failed.
    fault.set("read", 0);
    assert!(is_busy(store.rebuild("f"), "read"));
    assert_eq!(seen(&sink), vec![1, 2, 3]);
    fault.clear();
    let report = store.catch_up("f").unwrap();
    assert_eq!((report.applied, report.failed, report.skipped), (3, 0, 0));
    assert_eq!(seen(&sink), vec![1, 2, 3, 1, 2, 3]);

    // Where the streams cannot be listed, nothing is reset.
    fault.set("streams", 0);
    assert!(is_busy(store.rebuild("f"), "streams"));
    fault.clear();
    assert_eq!(store.catch_up("f").unwrap(), CatchUpReport::empty());
}

#[test]
fn a_broken_stream_stops_no_other() {
    let broken = StreamId::new("broken");
    let mut log = MemEventBackend::new();
    for stream in [StreamId::new("a"), broken.clone(), StreamId::new("z")] {
        for n in 1..=3 {
            let change = if stream == broken {
                r#"[{ "op": "remove", "path": "/missing" }]"#.to_string()
            } else {
                format!(r#"[{{ "op": "add", "path": "", "value": {n} }}]"#)
            };
            let rec = NewEvent {
                kind: "set".to_string(),
                patch: patch(&change),
                meta: json("{}"),
            };
            log.append(&stream, rec).unwrap();
        }
    }
    let mut store = Store::new(
        log,
        MemCacheBackend::new(),
        Vec::new(),
        Vec::new(),
        StoreConfig::default(),
    );
    let sink = follower();
    store.attach_sink(sink.clone()).unwrap();
    let mut taken: Vec<(String, u64)> = sink
        .inner
        .seen
        .lock()
        .unwrap()
        .iter()
        .map(|(stream, seq, _)| (stream.as_str().to_string(), *seq))
        .collect();
    taken.sort();
    let expected: Vec<(String, u64)> = ["a", "z"]
        .iter()
        .flat_map(|name| (1..=3).map(|seq| (name.to_string(), seq)))
        .collect();
    assert_eq!(taken, expected);

    // It is in the report, once, with the reason and what comes after it.
    let reason = store.state_at(&broken, SeqNo(1)).unwrap_err().message();
    let report = store.rebuild("f").unwrap();
    assert_eq!((report.applied, report.failed, report.skipped), (6, 1, 2));
    assert_eq!(report.failures.len(), 1);
    assert_eq!(report.failures[0].stream, broken);
    assert_eq!(report.failures[0].sink_id, "f");
    assert_eq!(report.failures[0].message, reason);
    assert!(reason.starts_with("patch application failed: event seq=1: "));

    // The others have nothing left to take.
    let report = store.catch_up("f").unwrap();
    assert_eq!((report.applied, report.failed, report.skipped), (0, 1, 2));
}

#[test]
fn every_coordinate_holds_an_event() {
    let (mut store, _) = frail_store(64);
    count(&mut store, &doc(), 1, 5);
    for at in 1..=5 {
        assert_eq!(store.read(&doc(), SeqNo(at), 1).unwrap()[0].seq, SeqNo(at));
        store
            .label_set(&doc(), &Label::new("here"), SeqNo(at))
            .unwrap();
    }
    for at in [0, 6] {
        assert!(store
            .label_set(&doc(), &Label::new("here"), SeqNo(at))
            .is_err());
    }
}

// ---- taking over states ----------------------------------------------------

#[test]
fn states_that_are_equal_chain() {
    let (mut store, _) = frail_store(2);
    let entry = |before: &str, after: &str| LegacyEntry {
        kind: "set".to_string(),
        at_ms: 1,
        before: json(before),
        after: json(after),
    };
    // A negative zero is equal to a zero, so the chain holds.
    let entries = [
        entry("null", r#"{ "x": -0.0, "l": [1, 2, 3] }"#),
        entry(
            r#"{ "x": 0.0, "l": [1, 2, 3] }"#,
            r#"{ "x": 0.0, "l": [1], "y": 1 }"#,
        ),
        entry(r#"{ "x": -0.0, "l": [1], "y": 1 }"#, r#"{ "y": [2] }"#),
    ];
    assert_eq!(migrate(&mut store, &doc(), &entries).unwrap(), 3);
    for (i, entry) in entries.iter().enumerate() {
        assert_eq!(
            store.state_at(&doc(), SeqNo(i as u64 + 1)).unwrap(),
            entry.after
        );
    }
}
