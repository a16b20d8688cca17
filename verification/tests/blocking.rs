//! The store in a program without asynchronous code.
use std::sync::atomic::{AtomicUsize, Ordering};
use std::sync::{Arc, Mutex};

use ai_store::{
    CatchUpReport, CommitSink, Dispatch, Event, Label, MemCacheBackend, MemCheckpointBackend,
    MemEventBackend, Patch, PlainSink, SeqNo, Store, StoreConfig, StoreError, StreamId, Timestamp,
};
use serde_json::Value;

fn json(text: &str) -> Value {
    serde_json::from_str(text).unwrap()
}

fn patch(v: Value) -> Patch {
    serde_json::from_value::<Patch>(v).unwrap()
}

fn build_store() -> Store<MemEventBackend, MemCacheBackend, MemCheckpointBackend> {
    Store::new(
        MemEventBackend::new(),
        MemCacheBackend::new(),
        Vec::new(),
        Vec::new(),
        StoreConfig::default(),
    )
}

/// Remembers what it was handed.
struct RecordSink {
    id: String,
    seen: Mutex<Vec<(String, u64)>>,
}

impl CommitSink for RecordSink {
    fn id(&self) -> &str {
        &self.id
    }

    fn commit(
        &self,
        stream: &StreamId,
        seq: SeqNo,
        _state: &Value,
        _event: &Event,
    ) -> Result<(), StoreError> {
        self.seen
            .lock()
            .unwrap()
            .push((stream.as_str().to_string(), seq.0));
        Ok(())
    }
}

#[test]
fn owned_runtime_append_state_read_roundtrip() {
    let mut bs = build_store();
    let s = StreamId::new("doc");

    let seq1 = bs
        .append(
            &s,
            "init",
            patch(json(r#"[{ "op": "add", "path": "", "value": { "n": 0 } }]"#)),
            json("{}"),
        )
        .unwrap();
    assert_eq!(seq1.seq, SeqNo(1));

    let seq2 = bs
        .append(
            &s,
            "bump",
            patch(json(r#"[{ "op": "replace", "path": "/n", "value": 1 }]"#)),
            json("{}"),
        )
        .unwrap();
    assert_eq!(seq2.seq, SeqNo(2));

    assert_eq!(bs.state(&s).unwrap(), json(r#"{ "n": 1 }"#));
    assert_eq!(bs.head(&s).unwrap(), Some(SeqNo(2)));

    let events = bs.read(&s, SeqNo(1), 10).unwrap();
    assert_eq!(events.len(), 2);
}

#[test]
fn owned_runtime_revert_appends_event() {
    let mut bs = build_store();
    let s = StreamId::new("doc");

    bs.append(
        &s,
        "init",
        patch(json(r#"[{ "op": "add", "path": "", "value": { "n": 0 } }]"#)),
        json("{}"),
    )
    .unwrap();
    bs.append(
        &s,
        "bump",
        patch(json(r#"[{ "op": "replace", "path": "/n", "value": 9 }]"#)),
        json("{}"),
    )
    .unwrap();

    let seq_reverted = bs.revert(&s, SeqNo(1)).unwrap();
    assert_eq!(seq_reverted.seq, SeqNo(3));
    assert_eq!(bs.state(&s).unwrap(), json(r#"{ "n": 0 }"#));
    assert_eq!(bs.head(&s).unwrap(), Some(SeqNo(3)));
}

#[test]
fn import_event_preserves_caller_supplied_timestamp_via_blocking_facade() {
    let mut bs = build_store();
    let s = StreamId::new("doc");
    let at = Timestamp(1_700_000_000_000);

    let committed = bs
        .import_event(
            &s,
            "legacy_create",
            patch(json(r#"[{ "op": "add", "path": "", "value": { "n": 0 } }]"#)),
            json("{}"),
            at,
        )
        .unwrap();
    assert_eq!(committed.seq, SeqNo(1));
    assert_eq!(committed.at, at);

    let events = bs.read(&s, SeqNo(1), 1).unwrap();
    assert_eq!(events[0].at, at);
}

#[test]
fn label_delete_removes_label_via_blocking_facade() {
    let mut bs = build_store();
    let s = StreamId::new("doc");

    bs.append(
        &s,
        "init",
        patch(json(r#"[{ "op": "add", "path": "", "value": {} }]"#)),
        json("{}"),
    )
    .unwrap();
    bs.label_set(&s, &Label::new("v1"), SeqNo(1)).unwrap();

    let existed = bs.label_delete(&s, &Label::new("v1")).unwrap();
    assert!(existed);

    let err = bs.label_resolve(&s, &Label::new("v1")).unwrap_err();
    assert!(matches!(err, StoreError::UnknownLabel(name) if name == "v1"));

    // Deleting an already-gone label is idempotent: no error, just `false`.
    let existed = bs.label_delete(&s, &Label::new("v1")).unwrap();
    assert!(!existed);
}

#[test]
fn materialize_to_sink_dumps_head_via_blocking_facade() {
    let sink = Arc::new(PlainSink {
        inner: RecordSink {
            id: "record".to_string(),
            seen: Mutex::new(Vec::new()),
        },
    });
    let mut bs = Store::new(
        MemEventBackend::new(),
        MemCacheBackend::new(),
        Vec::new(),
        vec![sink.clone()],
        StoreConfig::default(),
    );
    let s = StreamId::new("doc");

    bs.append(
        &s,
        "init",
        patch(json(r#"[{ "op": "add", "path": "", "value": { "n": 1 } }]"#)),
        json("{}"),
    )
    .unwrap();

    // append() already dispatched once; clear it so we can isolate the
    // effect of materialize_to_sink.
    sink.inner.seen.lock().unwrap().clear();

    let dumped = bs.materialize_to_sink(&s, "record", None).unwrap();
    assert_eq!(dumped, SeqNo(1));
    assert_eq!(
        sink.inner.seen.lock().unwrap().clone(),
        vec![("doc".to_string(), 1)]
    );

    let err = bs.materialize_to_sink(&s, "nope", None).unwrap_err();
    assert!(matches!(err, StoreError::UnknownSink(id) if id == "nope"));
}

/// Remembers the states that it was handed, and counts the calls.
struct RecorderSink {
    id: String,
    log: Mutex<Vec<(SeqNo, Value)>>,
    commit_calls: AtomicUsize,
}

impl CommitSink for RecorderSink {
    fn id(&self) -> &str {
        &self.id
    }

    fn commit(
        &self,
        _stream: &StreamId,
        seq: SeqNo,
        state: &Value,
        _event: &Event,
    ) -> Result<(), StoreError> {
        self.commit_calls.fetch_add(1, Ordering::SeqCst);
        self.log.lock().unwrap().push((seq, state.clone()));
        Ok(())
    }
}

#[test]
fn inline_dispatch_records_every_event() {
    let sink = Arc::new(PlainSink {
        inner: RecorderSink {
            id: "recorder".to_string(),
            log: Mutex::new(Vec::new()),
            commit_calls: AtomicUsize::new(0),
        },
    });
    let mut store = Store::new(
        MemEventBackend::new(),
        MemCacheBackend::new(),
        Vec::new(),
        vec![sink.clone()],
        StoreConfig::default(),
    );
    let s = StreamId::new("doc");

    store
        .append(
            &s,
            "init",
            patch(json(r#"[{ "op": "add", "path": "", "value": { "n": 0 } }]"#)),
            json("{}"),
        )
        .unwrap();
    store
        .append(
            &s,
            "bump",
            patch(json(r#"[{ "op": "replace", "path": "/n", "value": 1 }]"#)),
            json("{}"),
        )
        .unwrap();

    let log = sink.inner.log.lock().unwrap().clone();
    assert_eq!(log.len(), 2);
    assert_eq!(log[0], (SeqNo(1), json(r#"{ "n": 0 }"#)));
    assert_eq!(log[1], (SeqNo(2), json(r#"{ "n": 1 }"#)));

    // The sink is where the log is: a catch-up hands it nothing.
    let report = store.catch_up("recorder").unwrap();
    assert_eq!(report, CatchUpReport::empty());
    assert_eq!(sink.inner.commit_calls.load(Ordering::SeqCst), 2);
}

#[test]
fn dispatch_mode_reflects_constructor() {
    assert_ne!(Dispatch::Inline, Dispatch::SpawnBlocking);
}
