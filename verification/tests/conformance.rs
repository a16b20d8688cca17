//! Behaviour that every backend has to show, on the in-memory backends.
use ai_store::{
    CacheBackend, CheckpointBackend, EventBackend, Label, MemCacheBackend, MemCheckpointBackend,
    MemEventBackend, NewEvent, SeqNo, StoreError, StreamId, Timestamp,
};
use json_patch::Patch;
use serde_json::Value;

fn json(text: &str) -> Value {
    serde_json::from_str(text).unwrap()
}

/// Let the clock move on by more than a millisecond.
fn wait_a_little() {
    let start = Timestamp::now();
    while Timestamp::now().0 < start.0 + 3 {}
}

fn empty_patch() -> Patch {
    serde_json::from_value::<Patch>(json("[]")).unwrap()
}

fn set_root_patch() -> Patch {
    serde_json::from_value::<Patch>(json(r#"[ { "op": "add", "path": "", "value": { "x": 1 } } ]"#))
    .unwrap()
}

fn new_event(kind: &str, patch: Patch) -> NewEvent {
    NewEvent {
        kind: kind.to_string(),
        patch,
        meta: json("{}"),
    }
}

#[test]
fn append_assigns_gap_free_monotonic_seq_from_one() {
    let mut be = MemEventBackend::new();
    let s = StreamId::new("stream-a");

    let a = be
        .append(&s, new_event("kind-a", empty_patch()))
        .unwrap();
    let b = be
        .append(&s, new_event("kind-b", empty_patch()))
        .unwrap();
    let c = be
        .append(&s, new_event("kind-c", empty_patch()))
        .unwrap();

    assert_eq!(a.seq, SeqNo(1));
    assert_eq!(b.seq, SeqNo(2));
    assert_eq!(c.seq, SeqNo(3));
    assert_eq!(be.head(&s).unwrap(), Some(SeqNo(3)));
}

#[test]
fn head_is_none_for_unknown_stream() {
    let be = MemEventBackend::new();
    let head = be.head(&StreamId::new("nope")).unwrap();
    assert_eq!(head, None);
}

#[test]
fn read_slices_by_from_and_limit() {
    let mut be = MemEventBackend::new();
    let s = StreamId::new("s");
    for i in 0..5 {
        be.append(&s, new_event(&format!("k{i}"), empty_patch()))
            .unwrap();
    }

    let mid = be.read(&s, SeqNo(3), 10).unwrap();
    assert_eq!(mid.len(), 3);
    assert_eq!(mid[0].seq, SeqNo(3));
    assert_eq!(mid[2].seq, SeqNo(5));

    let capped = be.read(&s, SeqNo(1), 2).unwrap();
    assert_eq!(capped.len(), 2);
    assert_eq!(capped[0].seq, SeqNo(1));
    assert_eq!(capped[1].seq, SeqNo(2));
}

#[test]
fn read_past_head_returns_empty() {
    let mut be = MemEventBackend::new();
    let s = StreamId::new("s");
    be.append(&s, new_event("only", empty_patch()))
        .unwrap();

    let out = be.read(&s, SeqNo(99), 10).unwrap();
    assert!(out.is_empty());
}

#[test]
fn streams_enumerates_distinct_ids() {
    let mut be = MemEventBackend::new();
    be.append(&StreamId::new("alpha"), new_event("k", empty_patch()))
        .unwrap();
    be.append(&StreamId::new("beta"), new_event("k", empty_patch()))
        .unwrap();
    be.append(&StreamId::new("alpha"), new_event("k", empty_patch()))
        .unwrap();

    let mut got: Vec<String> = be
        .streams()
        .unwrap()
        .into_iter()
        .map(|s| s.0)
        .collect();
    got.sort();
    assert_eq!(got, vec!["alpha".to_string(), "beta".to_string()]);
}

#[test]
fn label_set_requires_existing_seq() {
    let mut be = MemEventBackend::new();
    let s = StreamId::new("s");
    let v = Label::new("v1");

    let err = be.label_set(&s, &v, SeqNo(1)).unwrap_err();
    assert!(matches!(err, StoreError::SeqOutOfRange { .. }));

    be.append(&s, new_event("k", empty_patch())).unwrap();
    be.label_set(&s, &v, SeqNo(1)).unwrap();
    assert_eq!(be.label_resolve(&s, &v).unwrap(), Some(SeqNo(1)));
}

#[test]
fn label_set_is_a_rewritable_pointer() {
    let mut be = MemEventBackend::new();
    let s = StreamId::new("s");
    let v = Label::new("v1");

    for _ in 0..3 {
        be.append(&s, new_event("k", empty_patch())).unwrap();
    }

    be.label_set(&s, &v, SeqNo(1)).unwrap();
    assert_eq!(be.label_resolve(&s, &v).unwrap(), Some(SeqNo(1)));

    be.label_set(&s, &v, SeqNo(3)).unwrap();
    assert_eq!(be.label_resolve(&s, &v).unwrap(), Some(SeqNo(3)));
}

#[test]
fn labels_returns_all_pinned_in_stable_order() {
    let mut be = MemEventBackend::new();
    let s = StreamId::new("s");
    for _ in 0..3 {
        be.append(&s, new_event("k", empty_patch())).unwrap();
    }
    be.label_set(&s, &Label::new("v2"), SeqNo(2)).unwrap();
    be.label_set(&s, &Label::new("v1"), SeqNo(1)).unwrap();
    be.label_set(&s, &Label::new("v3"), SeqNo(3)).unwrap();

    let got: Vec<(String, u64)> = be
        .labels(&s)
        .unwrap()
        .into_iter()
        .map(|(l, s)| (l.0, s.0))
        .collect();

    assert_eq!(
        got,
        vec![
            ("v1".to_string(), 1),
            ("v2".to_string(), 2),
            ("v3".to_string(), 3),
        ]
    );
}

#[test]
fn cache_nearest_returns_closest_not_exceeding_at() {
    let mut cache = MemCacheBackend::new();
    let s = StreamId::new("s");

    cache.put(&s, SeqNo(2), &json(r#"{ "at": 2 }"#)).unwrap();
    cache.put(&s, SeqNo(6), &json(r#"{ "at": 6 }"#)).unwrap();
    cache.put(&s, SeqNo(9), &json(r#"{ "at": 9 }"#)).unwrap();

    assert_eq!(cache.nearest(&s, SeqNo(1)).unwrap(), None);
    assert_eq!(
        cache.nearest(&s, SeqNo(5)).unwrap(),
        Some((SeqNo(2), json(r#"{ "at": 2 }"#)))
    );
    assert_eq!(
        cache.nearest(&s, SeqNo(6)).unwrap(),
        Some((SeqNo(6), json(r#"{ "at": 6 }"#)))
    );
    assert_eq!(
        cache.nearest(&s, SeqNo(100)).unwrap(),
        Some((SeqNo(9), json(r#"{ "at": 9 }"#)))
    );
}

#[test]
fn cache_nearest_on_unknown_stream_returns_none() {
    let cache = MemCacheBackend::new();
    assert_eq!(
        cache.nearest(&StreamId::new("nope"), SeqNo(1)).unwrap(),
        None
    );
}

#[test]
fn cache_prune_keeps_latest_only() {
    let mut cache = MemCacheBackend::new();
    let s = StreamId::new("s");
    for i in 1..=10u64 {
        cache.put(&s, SeqNo(i), &json(&format!("{{ \"at\": {i} }}"))).unwrap();
    }

    cache.prune(&s, 3).unwrap();

    // The three highest seqs remain; everything at or below SeqNo(7) is gone.
    assert_eq!(cache.nearest(&s, SeqNo(7)).unwrap(), None);
    assert_eq!(
        cache.nearest(&s, SeqNo(8)).unwrap(),
        Some((SeqNo(8), json(r#"{ "at": 8 }"#)))
    );
    assert_eq!(
        cache.nearest(&s, SeqNo(15)).unwrap(),
        Some((SeqNo(10), json(r#"{ "at": 10 }"#)))
    );
}

#[test]
fn seq_at_time_returns_greatest_seq_at_or_before_timestamp() {
    let mut be = MemEventBackend::new();
    let s = StreamId::new("s");

    // Empty stream → None regardless of timestamp.
    assert_eq!(be.seq_at_time(&s, Timestamp(1_000)).unwrap(), None);

    // Append with real wall-clock, sleeping between so that ms-resolution
    // timestamps are strictly distinct even on fast machines.
    let seq1 = be
        .append(&s, new_event("a", empty_patch()))
        .unwrap()
        .seq;
    let t1 = be.read(&s, seq1, 1).unwrap()[0].at;
    wait_a_little();
    let seq2 = be
        .append(&s, new_event("b", empty_patch()))
        .unwrap()
        .seq;
    let t2 = be.read(&s, seq2, 1).unwrap()[0].at;
    assert!(t2.0 > t1.0, "sleep did not produce a distinct ms timestamp");

    // Before the first event → None.
    assert_eq!(be.seq_at_time(&s, Timestamp(t1.0 - 1)).unwrap(), None);
    // Exactly t1 resolves to seq1 (greatest seq with at <= t1).
    assert_eq!(be.seq_at_time(&s, t1).unwrap(), Some(seq1));
    // Strictly between the two ms marks resolves to seq1.
    assert_eq!(
        be.seq_at_time(&s, Timestamp(t2.0 - 1)).unwrap(),
        Some(seq1)
    );
    // At or after t2 resolves to seq2.
    assert_eq!(be.seq_at_time(&s, t2).unwrap(), Some(seq2));
    assert_eq!(
        be.seq_at_time(&s, Timestamp(t2.0 + 1_000_000))
            .unwrap(),
        Some(seq2)
    );
}

#[test]
fn seq_at_time_on_unknown_stream_returns_none() {
    let be = MemEventBackend::new();
    assert_eq!(
        be.seq_at_time(&StreamId::new("nope"), Timestamp(0))
            .unwrap(),
        None
    );
}

#[test]
fn label_delete_removes_an_existing_label() {
    let mut be = MemEventBackend::new();
    let s = StreamId::new("s");
    let v = Label::new("v1");

    be.append(&s, new_event("k", empty_patch())).unwrap();
    be.label_set(&s, &v, SeqNo(1)).unwrap();
    assert_eq!(be.label_resolve(&s, &v).unwrap(), Some(SeqNo(1)));

    let existed = be.label_delete(&s, &v).unwrap();
    assert!(existed);
    assert_eq!(be.label_resolve(&s, &v).unwrap(), None);
}

#[test]
fn label_delete_of_unknown_label_reports_not_found() {
    let mut be = MemEventBackend::new();
    let s = StreamId::new("s");

    be.append(&s, new_event("k", empty_patch())).unwrap();
    let existed = be.label_delete(&s, &Label::new("nope")).unwrap();
    assert!(!existed);
}

#[test]
fn label_delete_on_unknown_stream_reports_not_found() {
    let mut be = MemEventBackend::new();
    let existed = be
        .label_delete(&StreamId::new("nope"), &Label::new("v1"))
        .unwrap();
    assert!(!existed);
}

#[test]
fn import_event_assigns_next_seq_and_preserves_supplied_timestamp() {
    let mut be = MemEventBackend::new();
    let s = StreamId::new("s");

    be.append(&s, new_event("k1", empty_patch())).unwrap();

    let at = Timestamp(1_700_000_000_000);
    let committed = be
        .import_event(&s, new_event("k2", empty_patch()), at)
        .unwrap();
    assert_eq!(committed.seq, SeqNo(2));
    assert_eq!(committed.at, at);
    assert_eq!(be.head(&s).unwrap(), Some(SeqNo(2)));

    let events = be.read(&s, SeqNo(2), 1).unwrap();
    assert_eq!(events[0].at, at);
}

#[test]
fn import_event_on_empty_stream_starts_at_seq_one() {
    let mut be = MemEventBackend::new();
    let s = StreamId::new("s");
    let at = Timestamp(1_700_000_000_000);

    let committed = be
        .import_event(&s, new_event("k1", empty_patch()), at)
        .unwrap();
    assert_eq!(committed.seq, SeqNo(1));
    assert_eq!(be.head(&s).unwrap(), Some(SeqNo(1)));
}

// ---- checkpoint backend ---------------------------------------------------

#[test]
fn checkpoint_put_then_get_round_trips() {
    let mut backend = MemCheckpointBackend::new();
    let s = StreamId::new("s");

    assert_eq!(backend.get("sink-a", &s).unwrap(), None);

    backend.put("sink-a", &s, SeqNo(5)).unwrap();
    assert_eq!(backend.get("sink-a", &s).unwrap(), Some(SeqNo(5)));

    // A second put overwrites rather than accumulating.
    backend.put("sink-a", &s, SeqNo(9)).unwrap();
    assert_eq!(backend.get("sink-a", &s).unwrap(), Some(SeqNo(9)));
}

#[test]
fn checkpoint_is_scoped_per_sink_and_per_stream() {
    let mut backend = MemCheckpointBackend::new();
    let a = StreamId::new("a");
    let b = StreamId::new("b");

    backend.put("sink-1", &a, SeqNo(1)).unwrap();
    backend.put("sink-2", &a, SeqNo(2)).unwrap();
    backend.put("sink-1", &b, SeqNo(3)).unwrap();

    assert_eq!(backend.get("sink-1", &a).unwrap(), Some(SeqNo(1)));
    assert_eq!(backend.get("sink-2", &a).unwrap(), Some(SeqNo(2)));
    assert_eq!(backend.get("sink-1", &b).unwrap(), Some(SeqNo(3)));
    assert_eq!(backend.get("sink-2", &b).unwrap(), None);
}

#[test]
fn event_patch_round_trips_through_append_and_read() {
    let mut be = MemEventBackend::new();
    let s = StreamId::new("s");

    be.append(&s, new_event("init", set_root_patch()))
        .unwrap();

    let out = be.read(&s, SeqNo(1), 1).unwrap();
    assert_eq!(out.len(), 1);
    let ev = &out[0];
    assert_eq!(ev.seq, SeqNo(1));
    assert_eq!(ev.kind, "init");

    // Round-trip via JSON to confirm Patch survives (re)serialization end-to-end.
    let expected = serde_json::to_value(set_root_patch()).unwrap();
    let observed = serde_json::to_value(&ev.patch).unwrap();
    assert_eq!(observed, expected);
}

/// `Committed.at` (returned inline from `append`) must be exactly the `at`
/// a follow-up `read` reports for that same event — the round-trip this
/// type exists to make unnecessary.
#[test]
fn append_returned_at_matches_the_read_back_event() {
    let mut be = MemEventBackend::new();
    let s = StreamId::new("s");

    let committed = be
        .append(&s, new_event("init", empty_patch()))
        .unwrap();

    let events = be.read(&s, committed.seq, 1).unwrap();
    assert_eq!(events[0].at, committed.at);
}
