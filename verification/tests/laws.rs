//! What holds of the store as a whole, on given values.
use std::sync::atomic::{AtomicBool, Ordering};
use std::sync::{Arc, Mutex};

use ai_store::dispatcher::{plan_delivery, Delivery, SinkDispatcher};
use ai_store::legacy::{migrate, LegacyEntry, LegacyError};
use ai_store::sqlite::event_rows::{
    build_meta_query, check_head, check_label_target, from_sql_seq, meta_path, next_row,
    row_to_cached, row_to_event, rows_to_events, to_sql_seq, EventRow, SELECT_BY_META,
    SELECT_BY_NULL_META,
};
use ai_store::sqlite::migration::pending_migrations;
use ai_store::sqlite::query::{
    build_count_sql, build_field_index_sql, build_filter, build_query_sql, order_clause,
    to_sql_count, validate_field_path, After, Filter, Order, Query, RawWhere, SqlParam,
};
use ai_store::sqlite::read_model::{row_to_read_model_row, supersedes, RawRow, SqliteReadModel};
use ai_store::store::write::{conflict_of, is_stride_hit};
use ai_store::text::{comes_before, decimal_text, signed_text};
use ai_store::{
    empty_state, replay_from, CatchUpReport, CheckpointBackend, CommitSink, Event, EventBackend, GateCtx, KindGate,
    Label, MemCacheBackend, MemCheckpointBackend, MemEventBackend, NewEvent, Patch, PlainSink,
    ProjectionSink, SchemaViolation, SeqNo, Store, StoreConfig, StoreError, StreamId, Timestamp,
    Upcaster, REVERT_KIND, SCHEMA_VERSION_META_KEY, TOMBSTONE_KIND,
};
use serde_json::Value;

fn json(text: &str) -> Value {
    serde_json::from_str(text).unwrap()
}

fn patch(text: &str) -> Patch {
    serde_json::from_str(text).unwrap()
}

type MemStore = Store<MemEventBackend, MemCacheBackend, MemCheckpointBackend>;

fn store_with(sinks: Vec<Arc<dyn ProjectionSink>>, cache_stride: u64) -> MemStore {
    Store::new(
        MemEventBackend::new(),
        MemCacheBackend::new(),
        Vec::new(),
        sinks,
        StoreConfig {
            cache_stride,
            cache_keep_latest: None,
        },
    )
}

/// A counter that goes from 1 to `n`, one event each.
fn count_to(store: &mut MemStore, stream: &StreamId, n: u64) {
    store
        .append(
            stream,
            "init",
            patch(r#"[{ "op": "add", "path": "", "value": { "n": 1 } }]"#),
            json("{}"),
        )
        .unwrap();
    for i in 2..=n {
        let change = format!(r#"[{{ "op": "replace", "path": "/n", "value": {i} }}]"#);
        store
            .append(stream, "bump", patch(&change), json("{}"))
            .unwrap();
    }
}

fn counted(n: u64) -> Value {
    json(&format!(r#"{{ "n": {n} }}"#))
}

fn doc() -> StreamId {
    StreamId::new("doc")
}

// ---- states ----------------------------------------------------------------

#[test]
fn the_cache_makes_no_difference() {
    let mut plain = store_with(Vec::new(), 0);
    let mut cached = store_with(Vec::new(), 1);
    let mut strided = store_with(Vec::new(), 3);
    for store in [&mut plain, &mut cached, &mut strided] {
        count_to(store, &doc(), 7);
    }
    cached.prune_cache(&doc(), 2).unwrap();
    for n in 0..=7 {
        let expected = plain.state_at(&doc(), SeqNo(n)).unwrap();
        assert_eq!(cached.state_at(&doc(), SeqNo(n)).unwrap(), expected);
        assert_eq!(strided.state_at(&doc(), SeqNo(n)).unwrap(), expected);
    }
    assert_eq!(plain.state_at(&doc(), SeqNo(0)).unwrap(), empty_state());
    assert_eq!(plain.state_at(&doc(), SeqNo(5)).unwrap(), counted(5));

    // All of the cache may go.
    cached.prune_cache(&doc(), 0).unwrap();
    assert_eq!(cached.state(&doc()).unwrap(), counted(7));
}

#[test]
fn later_events_keep_the_past() {
    let mut store = store_with(Vec::new(), 2);
    count_to(&mut store, &doc(), 4);
    let states: Vec<Value> = (0..=4)
        .map(|n| store.state_at(&doc(), SeqNo(n)).unwrap())
        .collect();
    let events = store.read(&doc(), SeqNo(1), 10).unwrap();
    let committed = store
        .append(
            &doc(),
            "more",
            patch(r#"[{ "op": "add", "path": "/m", "value": true }]"#),
            json("{}"),
        )
        .unwrap();

    // One event more, right after the head, and the rest as it was.
    assert_eq!(committed.seq, SeqNo(5));
    let after = store.read(&doc(), SeqNo(1), 10).unwrap();
    assert_eq!(after.len(), 5);
    assert_eq!(&after[..4], &events[..]);
    for n in 0..=4u64 {
        assert_eq!(store.state_at(&doc(), SeqNo(n)).unwrap(), states[n as usize]);
    }
    assert_eq!(
        store.state(&doc()).unwrap(),
        json(r#"{ "n": 4, "m": true }"#)
    );
}

#[test]
fn states_come_from_the_log_alone() {
    let mut store = store_with(Vec::new(), 64);
    count_to(&mut store, &doc(), 6);
    let events = store.read(&doc(), SeqNo(1), 10).unwrap();
    assert_eq!(
        replay_from(empty_state(), &events).unwrap(),
        store.state(&doc()).unwrap()
    );

    // In one go or in two steps.
    let half = replay_from(empty_state(), &events[..3]).unwrap();
    assert_eq!(half, counted(3));
    assert_eq!(replay_from(half, &events[3..]).unwrap(), counted(6));
}

#[test]
fn pages_of_the_log_join() {
    let mut store = store_with(Vec::new(), 64);
    count_to(&mut store, &doc(), 7);
    let whole = store.read(&doc(), SeqNo(1), 100).unwrap();
    let mut joined: Vec<Event> = Vec::new();
    let mut from = SeqNo(1);
    loop {
        let page = store.read(&doc(), from, 3).unwrap();
        let Some(last) = page.last() else { break };
        from = last.seq.next();
        joined.extend(page);
    }
    assert_eq!(joined, whole);

    // What is read from a coordinate on is what lies at it and after it.
    let since: Vec<u64> = store
        .read(&doc(), SeqNo(5), 100)
        .unwrap()
        .iter()
        .map(|e| e.seq.0)
        .collect();
    assert_eq!(since, vec![5, 6, 7]);
}

#[test]
fn a_revert_is_an_event_that_restores() {
    let mut store = store_with(Vec::new(), 64);
    count_to(&mut store, &doc(), 3);
    for (to, head) in [(1, 4), (3, 5), (2, 6)] {
        let committed = store.revert(&doc(), SeqNo(to)).unwrap();
        assert_eq!(committed.seq, SeqNo(head));
        assert_eq!(
            store.state(&doc()).unwrap(),
            store.state_at(&doc(), SeqNo(to)).unwrap()
        );
    }
    assert_eq!(
        store.read(&doc(), SeqNo(4), 1).unwrap()[0].kind,
        REVERT_KIND
    );

    // A revert can be taken back.
    let before = store.state(&doc()).unwrap();
    store.revert(&doc(), SeqNo(1)).unwrap();
    assert_ne!(store.state(&doc()).unwrap(), before);
    store.revert(&doc(), SeqNo(6)).unwrap();
    assert_eq!(store.state(&doc()).unwrap(), before);
    assert_eq!(
        store.read(&doc(), SeqNo(8), 1).unwrap()[0].meta,
        json(r#"{ "revert_to": 6 }"#)
    );

    // Back to where there was nothing.
    store.revert(&doc(), SeqNo(0)).unwrap();
    assert_eq!(store.state(&doc()).unwrap(), empty_state());
}

#[test]
fn a_deletion_hides_a_stream_and_keeps_its_state() {
    let mut store = store_with(Vec::new(), 64);
    count_to(&mut store, &doc(), 2);
    let other = StreamId::new("other");
    count_to(&mut store, &other, 1);

    store.delete(&doc(), json(r#"{ "by": "me" }"#)).unwrap();
    assert_eq!(store.state(&doc()).unwrap(), counted(2));
    assert_eq!(
        store.read(&doc(), SeqNo(3), 1).unwrap()[0].kind,
        TOMBSTONE_KIND
    );
    assert_eq!(store.streams_live().unwrap(), vec![other.clone()]);
    assert_eq!(store.streams().unwrap().len(), 2);

    // Any later event brings it back.
    store.revert(&doc(), SeqNo(1)).unwrap();
    let mut live = store.streams_live().unwrap();
    live.sort();
    assert_eq!(live, vec![doc(), other]);
}

#[test]
fn a_deleted_stream_that_never_was_is_not_live() {
    let mut store = store_with(Vec::new(), 64);
    store.delete(&doc(), json("{}")).unwrap();
    assert_eq!(store.streams().unwrap(), vec![doc()]);
    assert!(store.streams_live().unwrap().is_empty());
}

#[test]
fn labels_change_no_state() {
    let mut store = store_with(Vec::new(), 64);
    count_to(&mut store, &doc(), 3);
    let events = store.read(&doc(), SeqNo(1), 10).unwrap();
    store.label_set(&doc(), &Label::new("v1"), SeqNo(2)).unwrap();
    store.label_set(&doc(), &Label::new("v1"), SeqNo(1)).unwrap();
    store.label_set(&doc(), &Label::new("v0"), SeqNo(3)).unwrap();
    assert_eq!(
        store.labels(&doc()).unwrap(),
        vec![(Label::new("v0"), SeqNo(3)), (Label::new("v1"), SeqNo(1))]
    );
    assert_eq!(store.read(&doc(), SeqNo(1), 10).unwrap(), events);
    assert_eq!(store.state(&doc()).unwrap(), counted(3));

    // A label needs an event.
    for at in [0, 4] {
        let err = store
            .label_set(&doc(), &Label::new("v2"), SeqNo(at))
            .unwrap_err();
        assert!(matches!(
            err,
            StoreError::SeqOutOfRange { head: Some(SeqNo(3)), requested } if requested == SeqNo(at)
        ));
    }
}

#[test]
fn the_time_finds_the_greatest_coordinate() {
    let mut store = store_with(Vec::new(), 64);
    let add = || patch("[]");
    // Imported out of order.
    for at in [30, 10, 20] {
        store
            .import_event(&doc(), "k", add(), json("{}"), Timestamp(at))
            .unwrap();
    }
    let at = |ms: i64| store.seq_at_time(&doc(), Timestamp(ms)).unwrap();
    assert_eq!(at(9), None);
    assert_eq!(at(10), Some(SeqNo(2)));
    assert_eq!(at(20), Some(SeqNo(3)));
    assert_eq!(at(30), Some(SeqNo(3)));
}

// ---- refusals --------------------------------------------------------------

#[test]
fn nothing_gets_past_a_check() {
    let gate = KindGate::new().on("reverted", |ctx: &GateCtx<'_>| {
        if ctx.next == ctx.current {
            Ok(())
        } else {
            Err(SchemaViolation::new("frozen", "no way back"))
        }
    });
    let mut store = Store::builder(MemEventBackend::new(), MemCacheBackend::new())
        .gate(Arc::new(gate))
        .build();
    for n in 1..=2 {
        let change = format!(r#"[{{ "op": "add", "path": "", "value": {n} }}]"#);
        store
            .append(&doc(), "set", patch(&change), json("{}"))
            .unwrap();
    }
    let events = store.read(&doc(), SeqNo(1), 10).unwrap();
    let err = store.revert(&doc(), SeqNo(1)).unwrap_err();
    assert!(matches!(&err, StoreError::Schema(v) if v.kind == "frozen"));
    assert_eq!(err.message(), "schema violation: frozen: no way back");
    assert_eq!(store.read(&doc(), SeqNo(1), 10).unwrap(), events);
    assert_eq!(store.state(&doc()).unwrap(), json("2"));

    // The same kind passes where the check has no objection.
    store.revert(&doc(), SeqNo(2)).unwrap();
    assert_eq!(store.head(&doc()).unwrap(), Some(SeqNo(3)));
}

#[test]
fn a_patch_that_does_not_apply_is_refused() {
    let gate = KindGate::new();
    let mut store = Store::builder(MemEventBackend::new(), MemCacheBackend::new())
        .gate(Arc::new(gate))
        .build();
    let err = store
        .append(
            &doc(),
            "bump",
            patch(r#"[{ "op": "replace", "path": "/n", "value": 1 }]"#),
            json("{}"),
        )
        .unwrap_err();
    assert!(matches!(err, StoreError::Patch(_)));
    assert_eq!(store.head(&doc()).unwrap(), None);
}

#[test]
fn a_patch_in_the_log_that_does_not_apply_is_named() {
    // Nothing looks at the state before such a write.
    let mut store = store_with(Vec::new(), 0);
    store
        .append(
            &doc(),
            "bump",
            patch(r#"[{ "op": "remove", "path": "/n" }]"#),
            json("{}"),
        )
        .unwrap();
    match store.state(&doc()).unwrap_err() {
        StoreError::Patch(words) => assert!(words.starts_with("event seq=1: ")),
        other => panic!("expected a patch error, got {other:?}"),
    }
}

#[test]
fn a_backend_without_conditional_appends_declines() {
    let mut store = store_with(Vec::new(), 0);
    let err = store
        .append_if_head(
            &doc(),
            "init",
            patch(r#"[{ "op": "add", "path": "", "value": {} }]"#),
            json("{}"),
            SeqNo::zero(),
        )
        .unwrap_err();
    assert!(matches!(err, StoreError::BackendUnsupported(op) if op == "append_if_head"));
    assert_eq!(store.head(&doc()).unwrap(), None);
}

#[test]
fn conditional_appends_report_where_the_head_is() {
    assert!(check_head(None, SeqNo(0)).is_ok());
    assert!(check_head(Some(SeqNo(4)), SeqNo(4)).is_ok());
    assert!(matches!(
        check_head(Some(SeqNo(4)), SeqNo(3)),
        Err(StoreError::HeadConflict {
            expected: SeqNo(3),
            actual: Some(SeqNo(4))
        })
    ));
    assert!(matches!(
        check_head(None, SeqNo(1)),
        Err(StoreError::HeadConflict {
            expected: SeqNo(1),
            actual: None
        })
    ));
    assert!(matches!(
        conflict_of(StoreError::UnknownStream(doc()), SeqNo(5), None),
        StoreError::HeadConflict {
            expected: SeqNo(5),
            actual: None
        }
    ));
    assert!(matches!(
        conflict_of(StoreError::Busy("x".to_string()), SeqNo(5), None),
        StoreError::Busy(_)
    ));
    assert!(matches!(
        conflict_of(
            StoreError::SeqCompacted {
                boundary: SeqNo(3),
                requested: SeqNo(2),
            },
            SeqNo(2),
            Some(SeqNo(5)),
        ),
        StoreError::HeadConflict {
            expected: SeqNo(2),
            actual: Some(SeqNo(5))
        }
    ));
}

#[test]
fn every_error_says_what_it_is() {
    let text = || "x".to_string();
    let cases = [
        (
            StoreError::Schema(SchemaViolation::new("k", "r")),
            "schema violation: k: r",
        ),
        (StoreError::Patch(text()), "patch application failed: x"),
        (StoreError::Backend(text()), "backend error: x"),
        (StoreError::Busy(text()), "backend busy: x"),
        (StoreError::Storage(text()), "storage error: x"),
        (StoreError::Corruption(text()), "corrupt data: x"),
        (StoreError::UnknownStream(doc()), "unknown stream: doc"),
        (
            StoreError::SeqOutOfRange {
                head: Some(SeqNo(1)),
                requested: SeqNo(99),
            },
            "seq out of range: stream has head=Some(Seq(1)), requested=Seq(99)",
        ),
        (
            StoreError::SeqOutOfRange {
                head: None,
                requested: SeqNo(1),
            },
            "seq out of range: stream has head=None, requested=Seq(1)",
        ),
        (
            StoreError::SeqCompacted {
                boundary: SeqNo(3),
                requested: SeqNo(1),
            },
            "seq below compaction boundary: stream compacted to Seq(3), requested=Seq(1)",
        ),
        (StoreError::UnknownLabel(text()), "unknown label: x"),
        (StoreError::UnknownSink(text()), "unknown sink: x"),
        (
            StoreError::SinkAlreadyAttached(text()),
            "sink already attached: x",
        ),
        (
            StoreError::HeadConflict {
                expected: SeqNo(2),
                actual: Some(SeqNo(3)),
            },
            "head conflict: expected=Seq(2), actual=Some(Seq(3))",
        ),
        (
            StoreError::BackendUnsupported(text()),
            "backend does not support this operation: x",
        ),
    ];
    for (error, words) in cases {
        assert_eq!(error.message(), words);
    }
}

#[test]
fn unknown_streams_and_sinks_are_named() {
    let mut store = store_with(Vec::new(), 0);
    assert!(matches!(
        store.state_at(&doc(), SeqNo(1)),
        Err(StoreError::UnknownStream(s)) if s == doc()
    ));
    assert!(matches!(
        store.revert(&doc(), SeqNo(1)),
        Err(StoreError::UnknownStream(s)) if s == doc()
    ));
    assert!(matches!(
        store.materialize_to_sink(&doc(), "nobody", None),
        Err(StoreError::UnknownSink(id)) if id == "nobody"
    ));

    // A catch-up of nobody does nothing.
    assert_eq!(store.catch_up("nobody").unwrap(), CatchUpReport::empty());
    assert_eq!(store.rebuild("nobody").unwrap(), CatchUpReport::empty());
}

// ---- sinks -----------------------------------------------------------------

/// Remembers the states that it was handed, unless it is told to fail.
struct Follower {
    id: String,
    seen: Mutex<Vec<(u64, Value)>>,
    fails: AtomicBool,
}

impl CommitSink for Follower {
    fn id(&self) -> &str {
        &self.id
    }

    fn commit(
        &self,
        _stream: &StreamId,
        seq: SeqNo,
        state: &Value,
        _event: &Event,
    ) -> Result<(), StoreError> {
        if self.fails.load(Ordering::SeqCst) {
            return Err(StoreError::Backend("down".to_string()));
        }
        self.seen.lock().unwrap().push((seq.0, state.clone()));
        Ok(())
    }
}

fn follower(id: &str) -> Arc<PlainSink<Follower>> {
    Arc::new(PlainSink {
        inner: Follower {
            id: id.to_string(),
            seen: Mutex::new(Vec::new()),
            fails: AtomicBool::new(false),
        },
    })
}

/// Keeps what it was handed in memory only.
struct Ledger {
    seen: Mutex<Vec<u64>>,
}

impl ProjectionSink for Ledger {
    fn id(&self) -> &str {
        "x"
    }

    fn accepts(&self, _stream: &StreamId) -> bool {
        true
    }

    fn requires_rebuild_on_attach(&self) -> bool {
        true
    }

    fn commit(
        &self,
        _stream: &StreamId,
        seq: SeqNo,
        _state: &Value,
        _event: &Event,
    ) -> Result<(), StoreError> {
        self.seen.lock().unwrap().push(seq.0);
        Ok(())
    }

    fn on_label_set(
        &self,
        _stream: &StreamId,
        _label: &Label,
        _at: SeqNo,
        _state: &Value,
        _event: &Event,
    ) -> Result<(), StoreError> {
        Ok(())
    }

    fn on_label_deleted(&self, _stream: &StreamId, _label: &Label) -> Result<(), StoreError> {
        Ok(())
    }
}

/// Holds one checkpoint, and cannot be written.
struct ReadOnly {
    at: SeqNo,
}

impl CheckpointBackend for ReadOnly {
    fn get(&self, _sink_id: &str, _stream: &StreamId) -> Result<Option<SeqNo>, StoreError> {
        Ok(Some(self.at))
    }

    fn put(&mut self, _sink_id: &str, _stream: &StreamId, _at: SeqNo) -> Result<(), StoreError> {
        Err(StoreError::Storage("read only".to_string()))
    }
}

#[test]
fn a_sink_that_starts_empty_is_rebuilt_when_it_is_attached() {
    let mut checkpoints = MemCheckpointBackend::new();
    checkpoints.put("x", &doc(), SeqNo(2)).unwrap();
    let mut store = Store::with_checkpoint_backend(
        MemEventBackend::new(),
        MemCacheBackend::new(),
        Vec::new(),
        Vec::new(),
        StoreConfig::default(),
        checkpoints,
    );
    for n in 1..=2 {
        let change = format!(r#"[{{ "op": "add", "path": "", "value": {n} }}]"#);
        store
            .append(&doc(), "set", patch(&change), json("{}"))
            .unwrap();
    }

    // Nobody has this id yet, so nothing is remembered of it.
    assert_eq!(store.catch_up("x").unwrap(), CatchUpReport::empty());
    assert_eq!(store.rebuild("x").unwrap(), CatchUpReport::empty());

    let sink = Arc::new(Ledger {
        seen: Mutex::new(Vec::new()),
    });
    store.attach_sink(sink.clone()).unwrap();
    assert_eq!(*sink.seen.lock().unwrap(), vec![1, 2]);

    // From then on it goes by its checkpoint.
    assert_eq!(store.catch_up("x").unwrap(), CatchUpReport::empty());
    assert_eq!(*sink.seen.lock().unwrap(), vec![1, 2]);
}

#[test]
fn a_reset_checkpoint_is_zero_even_if_it_cannot_be_saved() {
    let mut dispatcher = SinkDispatcher::new(Vec::new(), Some(ReadOnly { at: SeqNo(3) }), None);
    assert_eq!(dispatcher.checkpoint_get("x", &doc()), SeqNo(3));
    dispatcher.checkpoint_reset("x", &doc());
    assert_eq!(dispatcher.checkpoint_get("x", &doc()), SeqNo::zero());

    // Without having looked first, too.
    let mut dispatcher = SinkDispatcher::new(Vec::new(), Some(ReadOnly { at: SeqNo(3) }), None);
    dispatcher.checkpoint_reset("x", &doc());
    assert_eq!(dispatcher.checkpoint_get("x", &doc()), SeqNo::zero());

    // An id that no sink has is not remembered as caught up.
    dispatcher.mark_rebuilt_this_process("x");
    assert!(!dispatcher.has_been_rebuilt_this_process("x"));
}

#[test]
fn a_delivery_skips_nothing() {
    assert_eq!(
        plan_delivery(true, SeqNo(0), SeqNo(1)),
        Delivery::CommitAndAdvance
    );
    assert_eq!(plan_delivery(true, SeqNo(0), SeqNo(2)), Delivery::CommitOnly);
    assert_eq!(plan_delivery(true, SeqNo(2), SeqNo(2)), Delivery::Skip);
    assert_eq!(plan_delivery(false, SeqNo(0), SeqNo(1)), Delivery::Skip);
}

#[test]
fn a_catch_up_hands_over_every_state_once() {
    let mut store = store_with(Vec::new(), 2);
    count_to(&mut store, &doc(), 5);
    let sink = follower("f");
    store.attach_sink(sink.clone()).unwrap();
    let expected: Vec<(u64, Value)> = (1..=5).map(|n| (n, counted(n))).collect();
    assert_eq!(*sink.inner.seen.lock().unwrap(), expected);

    // There is nothing left to do.
    assert_eq!(store.catch_up("f").unwrap(), CatchUpReport::empty());
    assert_eq!(*sink.inner.seen.lock().unwrap(), expected);

    // A second sink of that name is turned down.
    assert!(matches!(
        store.attach_sink(follower("f")),
        Err(StoreError::SinkAlreadyAttached(id)) if id == "f"
    ));
}

#[test]
fn a_run_accounts_for_every_event() {
    let mut store = store_with(Vec::new(), 2);
    count_to(&mut store, &doc(), 4);
    let sink = follower("f");
    let (events, cache, _) = store.into_backends();
    let mut store = Store::new(
        events,
        cache,
        Vec::new(),
        vec![sink.clone()],
        StoreConfig::default(),
    );
    sink.inner.fails.store(true, Ordering::SeqCst);
    let report = store.catch_up("f").unwrap();
    assert_eq!((report.applied, report.failed, report.skipped), (0, 1, 3));
    assert_eq!(report.failures.len(), 1);
    assert_eq!(report.failures[0].message, "backend error: down");

    sink.inner.fails.store(false, Ordering::SeqCst);
    let report = store.catch_up("f").unwrap();
    assert_eq!((report.applied, report.failed, report.skipped), (4, 0, 0));

    // Starting over hands everything over again.
    let report = store.rebuild("f").unwrap();
    assert_eq!((report.applied, report.failed, report.skipped), (4, 0, 0));
    assert_eq!(sink.inner.seen.lock().unwrap().len(), 8);
}

// ---- reading through upcasters ---------------------------------------------

/// Renames a kind, and says so in the attribution.
struct Rename {
    from: &'static str,
    to: &'static str,
    version: u64,
}

impl Upcaster for Rename {
    fn upcast(&self, event: Event) -> Event {
        if event.kind != self.from {
            return event;
        }
        let mut event = event;
        event.kind = self.to.to_string();
        event.meta[SCHEMA_VERSION_META_KEY] = Value::from(self.version);
        event
    }
}

#[test]
fn upcasters_change_what_is_read_and_not_what_is_stored() {
    let mut store = Store::builder(MemEventBackend::new(), MemCacheBackend::new())
        .upcaster(Arc::new(Rename {
            from: "a",
            to: "b",
            version: 2,
        }))
        .upcaster(Arc::new(Rename {
            from: "b",
            to: "c",
            version: 3,
        }))
        .build();
    store
        .append(&doc(), "a", patch("[]"), json("{}"))
        .unwrap();
    store
        .append(&doc(), "x", patch("[]"), json("{}"))
        .unwrap();

    // One step after the other.
    let events = store.read(&doc(), SeqNo(1), 10).unwrap();
    assert_eq!(events[0].kind, "c");
    assert_eq!(events[0].meta, json(r#"{ "_schema_version": 3 }"#));
    assert_eq!(events[0].seq, SeqNo(1));
    assert_eq!(events[1].kind, "x");

    // What is stored stays.
    let stored = store.event_backend().read(&doc(), SeqNo(1), 1).unwrap();
    assert_eq!(stored[0].kind, "a");
    assert_eq!(stored[0].meta, json("{}"));
}

// ---- taking over another log -----------------------------------------------

fn entry(kind: &str, at_ms: i64, before: &str, after: &str) -> LegacyEntry {
    LegacyEntry {
        kind: kind.to_string(),
        at_ms,
        before: json(before),
        after: json(after),
    }
}

#[test]
fn a_chain_of_states_is_taken_over() {
    let mut store = store_with(Vec::new(), 64);
    let entries = [
        entry("create", 1_000, "null", r#"{ "n": 0 }"#),
        entry("bump", 2_000, r#"{ "n": 0 }"#, r#"{ "n": 1 }"#),
        entry("bump", 3_000, r#"{ "n": 1 }"#, r#"{ "n": 5, "m": [] }"#),
    ];
    assert_eq!(migrate(&mut store, &doc(), &entries).unwrap(), 3);
    assert_eq!(
        store.state(&doc()).unwrap(),
        json(r#"{ "n": 5, "m": [] }"#)
    );
    let events = store.read(&doc(), SeqNo(1), 10).unwrap();
    for (i, event) in events.iter().enumerate() {
        assert_eq!(event.kind, entries[i].kind);
        assert_eq!(event.at, Timestamp(entries[i].at_ms));
        assert_eq!(
            event.meta,
            json(&format!(r#"{{ "legacy_index": {i} }}"#))
        );
        assert_eq!(
            store.state_at(&doc(), event.seq).unwrap(),
            entries[i].after
        );
    }
}

#[test]
fn a_broken_chain_is_named() {
    let mut store = store_with(Vec::new(), 64);
    let entries = [
        entry("create", 1_000, "null", "1"),
        entry("bump", 2_000, "2", "3"),
    ];
    let err = migrate(&mut store, &doc(), &entries).unwrap_err();
    assert!(matches!(err, LegacyError::BrokenChain(1)));
    assert_eq!(
        err.message(),
        "legacy chain broken at index 1: `before` != previous `after` (or null for the head)"
    );
    assert_eq!(store.head(&doc()).unwrap(), Some(SeqNo(1)));
}

// ---- rows and statements ---------------------------------------------------

fn event_row(patch: &str, meta: &str) -> EventRow {
    EventRow {
        seq: 2,
        kind: "k".to_string(),
        patch: patch.to_string(),
        meta: meta.to_string(),
        at_ms: 7,
    }
}

#[test]
fn an_event_survives_its_row() {
    let rec = NewEvent {
        kind: "k".to_string(),
        patch: patch(r#"[{ "op": "add", "path": "/a~1b", "value": [1, "x"] }]"#),
        meta: json(r#"{ "who": "me" }"#),
    };
    let row = next_row(Some(1), &rec, Timestamp(7));
    assert_eq!(row.seq, 2);
    assert_eq!(
        row.patch,
        r#"[{"op":"add","path":"/a~1b","value":[1,"x"]}]"#
    );
    assert_eq!(row.meta, r#"{"who":"me"}"#);
    let event = row_to_event(&row).unwrap();
    assert_eq!(event.seq, SeqNo(2));
    assert_eq!(event.kind, "k");
    assert_eq!(event.patch, rec.patch);
    assert_eq!(event.meta, rec.meta);
    assert_eq!(event.at, Timestamp(7));
    assert_eq!(next_row(None, &rec, Timestamp(7)).seq, 1);
}

#[test]
fn strings_are_read_back_whatever_they_hold() {
    let mut nested = "1".to_string();
    for _ in 0..120 {
        nested = format!("[{nested}]");
    }
    let wide = format!("[{}]", vec!["[]"; 300].join(","));
    let odd = "v1.2e3 [[{{ \u{8}\t\n\u{c}\r\u{1}\u{1f} \" \\ / \u{7f} \u{e9}";
    let mut meta = serde_json::Map::new();
    meta.insert(odd.to_string(), Value::from(odd));
    meta.insert("nested".to_string(), json(&nested));
    meta.insert("wide".to_string(), json(&wide));
    meta.insert("n".to_string(), json("[1, -1, 18446744073709551615, true, null]"));
    let meta = Value::Object(meta);
    let events: Vec<NewEvent> = (0..2)
        .map(|_| NewEvent {
            kind: "k.e1".to_string(),
            patch: patch(
                r#"[{ "op": "add", "path": "/a.b", "value": "0.5 and 1e9" },
                    { "op": "remove", "path": "/c" }]"#,
            ),
            meta: meta.clone(),
        })
        .collect();
    let rows = [
        next_row(None, &events[0], Timestamp(1)),
        next_row(Some(1), &events[1], Timestamp(2)),
    ];
    let read = rows_to_events(&rows).unwrap();
    assert_eq!(read.len(), 2);
    for (i, event) in read.iter().enumerate() {
        assert_eq!(event.seq, SeqNo(i as u64 + 1));
        assert_eq!(event.kind, "k.e1");
        assert_eq!(event.patch, events[i].patch);
        assert_eq!(event.meta, meta);
    }
    assert_eq!(row_to_cached(4, &meta.to_string()).unwrap(), (SeqNo(4), meta.clone()));
    let raw = SqliteReadModel::new().row_for(&doc(), SeqNo(4), &meta, &read[0]);
    assert_eq!(row_to_read_model_row(&raw).unwrap().state, meta);

    // A control character without a short name is written by its number.
    assert_eq!(Value::from("\u{1}\u{1f}\u{8}").to_string(), "\"\\u0001\\u001f\\b\"");

    // What is nested too deep is refused.
    let mut deep = "1".to_string();
    for _ in 0..128 {
        deep = format!("[{deep}]");
    }
    assert!(matches!(
        row_to_cached(1, &deep),
        Err(StoreError::Corruption(_))
    ));
}

#[test]
fn rows_that_hold_no_json_are_corrupt() {
    let words = |r: Result<Event, StoreError>| match r {
        Err(StoreError::Corruption(words)) => words,
        other => panic!("expected corruption, got {other:?}"),
    };
    assert!(words(row_to_event(&event_row("{", "{}"))).starts_with("events.patch: "));
    assert!(words(row_to_event(&event_row("[]", "{"))).starts_with("events.meta: "));
    assert!(matches!(
        rows_to_events(&[event_row("[]", "{}"), event_row("[]", "")]),
        Err(StoreError::Corruption(_))
    ));
    assert!(matches!(
        row_to_cached(3, "nope"),
        Err(StoreError::Corruption(words)) if words.starts_with("cache.state: ")
    ));
    assert_eq!(
        row_to_cached(3, "[1]").unwrap(),
        (SeqNo(3), json("[1]"))
    );
    let raw = |state: &str, live: i64| RawRow {
        stream: "doc".to_string(),
        state: state.to_string(),
        last_seq: 4,
        updated_at: 9,
        live,
    };
    assert!(matches!(
        row_to_read_model_row(&raw("nope", 1)),
        Err(StoreError::Corruption(words)) if words.starts_with("read_model.state: ")
    ));
    let row = row_to_read_model_row(&raw("{}", 0)).unwrap();
    assert_eq!(row.stream, doc());
    assert_eq!(row.state, json("{}"));
    assert_eq!(row.last_seq, SeqNo(4));
    assert_eq!(row.updated_at, Timestamp(9));
    assert!(!row.live);
}

#[test]
fn labels_are_checked_against_the_rows() {
    assert!(check_label_target(true, Some(SeqNo(3)), SeqNo(2)).is_ok());
    assert!(matches!(
        check_label_target(false, Some(SeqNo(3)), SeqNo(9)),
        Err(StoreError::SeqOutOfRange {
            head: Some(SeqNo(3)),
            requested: SeqNo(9)
        })
    ));
}

#[test]
fn numbers_are_kept_within_what_sqlite_holds() {
    assert_eq!(to_sql_seq(SeqNo(5)), 5);
    assert_eq!(to_sql_seq(SeqNo(u64::MAX)), i64::MAX);
    assert_eq!(from_sql_seq(5), SeqNo(5));
    assert_eq!(from_sql_seq(-1), SeqNo(0));
    assert_eq!(to_sql_count(5), 5);
    assert_eq!(to_sql_count(usize::MAX), i64::MAX);
}

#[test]
fn a_member_is_looked_up_by_its_quoted_name() {
    assert_eq!(meta_path("a.b"), r#"$."a.b""#);
    assert_eq!(meta_path(r#"a"b\c"#), r#"$."a\"b\\c""#);
    let (sql, params) = build_meta_query(&doc(), "k", &json(r#""v""#), SeqNo(3), 10);
    assert_eq!(sql, SELECT_BY_META);
    assert_eq!(
        params,
        vec![
            SqlParam::Text("doc".to_string()),
            SqlParam::Integer(3),
            SqlParam::Text(r#"$."k""#.to_string()),
            SqlParam::Text(r#""v""#.to_string()),
            SqlParam::Integer(10),
        ]
    );
    let (sql, params) = build_meta_query(&doc(), "k", &Value::Null, SeqNo(3), 10);
    assert_eq!(sql, SELECT_BY_NULL_META);
    assert_eq!(params.len(), 4);
}

#[test]
fn migrations_lead_from_any_version_to_the_last() {
    let versions = |from: i64| -> Vec<i64> {
        pending_migrations(from)
            .unwrap()
            .iter()
            .map(|m| m.version)
            .collect()
    };
    assert_eq!(versions(0), vec![1, 2, 3, 4]);
    assert_eq!(versions(3), vec![4]);
    assert!(versions(4).is_empty());
    match pending_migrations(5) {
        Err(StoreError::Backend(words)) => assert_eq!(
            words,
            "database schema version 5 is newer than this build of ai-store-sqlite supports \
             (4 known migrations); refusing to open"
        ),
        other => panic!("expected a refusal, got {other:?}"),
    }
    assert!(matches!(
        pending_migrations(-1),
        Err(StoreError::Backend(words)) if words.contains("18446744073709551615")
    ));
}

#[test]
fn every_placeholder_is_bound() {
    let filter = || {
        Filter::And(vec![
            Filter::Or(vec![
                Filter::In("a.b".to_string(), vec![json("1"), Value::Null]),
                Filter::Like("c".to_string(), "what?%".to_string()),
            ]),
            Filter::Not(Box::new(Filter::Gte("d".to_string(), json(r#""?""#)))),
        ])
    };
    let raw = || RawWhere {
        sql: "stream <> ?".to_string(),
        params: vec![json(r#""x?""#)],
    };
    let count = |sql: &str| sql.chars().filter(|c| *c == '?').count();

    let mut params: Vec<SqlParam> = Vec::new();
    let sql = build_filter(&filter(), &mut params).unwrap();
    assert_eq!(
        sql,
        "((((json_extract(state, ?) = json_extract(?, '$') AND \
         replace(replace(json_type(state, ?), 'integer', 'real'), 'false', 'true') = \
         replace(replace(json_type(?, '$'), 'integer', 'real'), 'false', 'true')) OR \
         json_type(state, ?) = 'null')) OR \
         (json_extract(state, ?) LIKE ?)) AND \
         (NOT coalesce(((json_extract(state, ?) >= json_extract(?, '$') AND \
         replace(replace(json_type(state, ?), 'integer', 'real'), 'false', 'true') = \
         replace(replace(json_type(?, '$'), 'integer', 'real'), 'false', 'true'))), 0))"
    );
    assert_eq!(count(&sql), params.len());

    let (sql, params) = build_query_sql(&Query {
        filter: Some(filter()),
        raw_where: Some(raw()),
        after: Some(After {
            order_value: json("5"),
            stream: doc(),
        }),
        ..Query::default()
    })
    .unwrap();
    assert_eq!(count(&sql), params.len());
    assert!(sql.ends_with(" ORDER BY updated_at DESC, stream DESC LIMIT ? OFFSET ?"));

    let (sql, params) = build_count_sql(Some(&filter()), Some(&raw()), false).unwrap();
    assert_eq!(count(&sql), params.len());

    // What is bound does not show up in the statement.
    assert!(!sql.contains("what"));
}

#[test]
fn only_field_paths_are_let_into_a_statement() {
    for good in ["a", "a.b", "A_1.b2"] {
        assert!(validate_field_path(good).is_ok());
    }
    for bad in ["", ".a", "a.", "a..b", "a b", "a'", "\u{e9}"] {
        assert!(matches!(
            validate_field_path(bad),
            Err(StoreError::Backend(_))
        ));
    }
    match validate_field_path("a b") {
        Err(StoreError::Backend(words)) => assert_eq!(
            words,
            "invalid read-model field path \"a b\": only [A-Za-z0-9_.]+ is allowed, \
             with no leading/trailing/doubled dot"
        ),
        other => panic!("expected a refusal, got {other:?}"),
    }
    assert_eq!(
        order_clause(Some(&("n".to_string(), Order::Asc))).unwrap(),
        "json_extract(state, '$.n') ASC, stream ASC"
    );
    assert_eq!(
        order_clause(Some(&("last_seq".to_string(), Order::Desc))).unwrap(),
        "last_seq DESC, stream DESC"
    );
    assert_eq!(
        build_field_index_sql("a.b").unwrap(),
        "CREATE INDEX IF NOT EXISTS \"ix_rm_a_b\" ON read_model(json_extract(state, '$.a.b'))"
    );
    assert!(build_field_index_sql("a'").is_err());
}

#[test]
fn a_row_of_the_read_model_gives_way_to_a_later_one_only() {
    assert!(supersedes(None, 1));
    assert!(supersedes(Some(1), 2));
    assert!(!supersedes(Some(2), 2));
    assert!(!supersedes(Some(2), 1));

    let model = SqliteReadModel::new().with_id("mine");
    assert_eq!(model.id(), "mine");
    let event = |kind: &str| Event {
        seq: SeqNo(3),
        kind: kind.to_string(),
        patch: patch("[]"),
        meta: json("{}"),
        at: Timestamp(8),
    };
    let row = model.row_for(&doc(), SeqNo(3), &json(r#"{ "a": 1 }"#), &event("k"));
    assert_eq!(
        row,
        RawRow {
            stream: "doc".to_string(),
            state: r#"{"a":1}"#.to_string(),
            last_seq: 3,
            updated_at: 8,
            live: 1,
        }
    );
    let row = model.row_for(&doc(), SeqNo(3), &json("{}"), &event(TOMBSTONE_KIND));
    assert_eq!(row.live, 0);
}

// ---- numbers and texts -----------------------------------------------------

#[test]
fn times_are_whole_milliseconds() {
    assert_eq!(Timestamp::from_nanos(1_999_999), Timestamp(1));
    assert_eq!(Timestamp::from_nanos(-1_999_999), Timestamp(-1));
    assert_eq!(Timestamp::from_nanos(0), Timestamp(0));
    assert_eq!(Timestamp::from_nanos(i128::MAX), Timestamp(i64::MAX));
    assert_eq!(Timestamp::from_nanos(i128::MIN), Timestamp(i64::MIN));
    assert!(Timestamp::now() > Timestamp(1_600_000_000_000));
}

#[test]
fn the_wall_clock_shows_a_time_on_the_calendar() {
    let now = Timestamp::now().0;
    assert!(now >= -31_619_087_596_800_000);
    assert!(now < 31_494_784_780_800_000);
}

#[test]
fn numerals_are_decimal() {
    assert_eq!(decimal_text(0), "0");
    assert_eq!(decimal_text(1_234_567_890), "1234567890");
    assert_eq!(decimal_text(u64::MAX), "18446744073709551615");
    assert_eq!(signed_text(-5), "-5");
    assert_eq!(signed_text(i64::MIN), "-9223372036854775808");
    assert_eq!(SeqNo(7).to_text(), "7");
    assert_eq!(SeqNo::zero().next(), SeqNo(1));
}

#[test]
fn streams_are_ordered_by_name() {
    let names = ["", "A", "a", "a.b", "ab", "b", "\u{e9}", "\u{1f600}"];
    for (i, a) in names.iter().enumerate() {
        for (j, b) in names.iter().enumerate() {
            let (x, y) = (StreamId::new(*a), StreamId::new(*b));
            assert_eq!(x < y, i < j);
            assert_eq!(x == y, i == j);
            assert_eq!(Some(x.cmp(&y)), x.partial_cmp(&y));
        }
        assert_eq!(StreamId::new(*a).as_str(), *a);
    }
}

#[test]
fn a_removed_label_is_gone() {
    let mut store = store_with(Vec::new(), 0);
    count_to(&mut store, &doc(), 2);
    let (v1, v2) = (Label::new("v1"), Label::new("v2"));
    store.label_set(&doc(), &v1, SeqNo(1)).unwrap();
    store.label_set(&doc(), &v2, SeqNo(2)).unwrap();
    assert!(store.label_delete(&doc(), &v1).unwrap());
    assert!(!store.label_delete(&doc(), &v1).unwrap());
    assert_eq!(store.labels(&doc()).unwrap(), vec![(v2, SeqNo(2))]);
    assert_eq!(store.head(&doc()).unwrap(), Some(SeqNo(2)));
}

#[test]
fn names_are_ordered_by_their_characters() {
    assert!(comes_before("a", "b"));
    assert!(comes_before("a", "ab"));
    assert!(comes_before("Z", "a"));
    assert!(comes_before("", "a"));
    assert!(!comes_before("a", "a"));
    assert!(!comes_before("b", "ab"));
}

#[test]
fn the_stride_decides_what_is_cached() {
    assert!(is_stride_hit(64, SeqNo(128)));
    assert!(!is_stride_hit(64, SeqNo(127)));
    assert!(is_stride_hit(1, SeqNo(5)));
    assert!(!is_stride_hit(0, SeqNo(5)));
    assert_eq!(StoreConfig::default().cache_stride, 64);
    assert_eq!(StoreConfig::default().cache_keep_latest, None);
}
