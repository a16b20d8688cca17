//! Gates by kind, patches, and what a backend does by default.
use std::sync::Arc;

use ai_store::patch::{add, remove, replace, Builder};
use ai_store::{
    Committed, Event, EventBackend, GateCtx, KindGate, Label, MemCacheBackend, MemEventBackend,
    NewEvent, Patch, SchemaGate, SchemaViolation, SeqNo, Store, StoreError, StreamId, Timestamp,
};
use serde_json::Value;

fn json(text: &str) -> Value {
    serde_json::from_str(text).unwrap()
}

fn patch(v: Value) -> Patch {
    serde_json::from_value(v).unwrap()
}

fn empty_patch() -> Patch {
    patch(json("[]"))
}

// ---- gates by kind --------------------------------------------------------

fn ctx<'a>(stream: &'a StreamId, kind: &'a str, patch: &'a Patch) -> GateCtx<'a> {
    GateCtx {
        stream,
        kind,
        patch,
        current: &Value::Null,
        next: &Value::Null,
    }
}

#[test]
fn dispatches_to_the_matching_kind_validator_only() {
    let gate = KindGate::new()
        .on("append", |_ctx: &GateCtx<'_>| Ok(()))
        .on("close", |_ctx: &GateCtx<'_>| {
            Err(SchemaViolation::new("no_close", "close is forbidden"))
        });

    let stream = StreamId::new("doc");
    let patch = empty_patch();

    assert!(gate.validate(&ctx(&stream, "append", &patch)).is_ok());
    let err = gate.validate(&ctx(&stream, "close", &patch)).unwrap_err();
    assert_eq!(err.kind, "no_close");
}

#[test]
fn unregistered_kind_without_fallback_passes_through() {
    let gate = KindGate::new().on("append", |_ctx: &GateCtx<'_>| {
        Err(SchemaViolation::new("no_append", "denied"))
    });

    let stream = StreamId::new("doc");
    let patch = empty_patch();

    // "rename" has no check and there is no fallback: it passes.
    assert!(gate.validate(&ctx(&stream, "rename", &patch)).is_ok());
}

#[test]
fn fallback_handles_every_unregistered_kind() {
    let gate = KindGate::new()
        .on("append", |_ctx: &GateCtx<'_>| Ok(()))
        .fallback(|ctx: &GateCtx<'_>| {
            Err(SchemaViolation::new(
                "unknown_kind",
                format!("kind '{}' has no registered validator", ctx.kind),
            ))
        });

    let stream = StreamId::new("doc");
    let patch = empty_patch();

    // A kind with a check of its own does not reach the fallback.
    assert!(gate.validate(&ctx(&stream, "append", &patch)).is_ok());

    // Every other kind does.
    let err = gate.validate(&ctx(&stream, "rename", &patch)).unwrap_err();
    assert_eq!(err.kind, "unknown_kind");
    assert_eq!(err.reason, "kind 'rename' has no registered validator");
}

#[test]
fn duplicate_registration_for_the_same_kind_last_wins() {
    let gate = KindGate::new()
        .on("append", |_ctx: &GateCtx<'_>| {
            Err(SchemaViolation::new("first", "first"))
        })
        .on("append", |_ctx: &GateCtx<'_>| Ok(()));

    let stream = StreamId::new("doc");
    let patch = empty_patch();

    assert!(gate.validate(&ctx(&stream, "append", &patch)).is_ok());
}

#[test]
fn kind_gate_blocks_the_matching_kind_and_lets_others_through() {
    let gate = KindGate::new().on("close", |ctx: &GateCtx<'_>| {
        if ctx.next.get("sections").is_some() {
            Ok(())
        } else {
            Err(SchemaViolation::new(
                "missing_sections",
                "close requires a populated 'sections' field",
            ))
        }
    });

    let mut store = Store::builder(MemEventBackend::new(), MemCacheBackend::new())
        .gate(Arc::new(gate))
        .build();
    let s = StreamId::new("chapter");

    // "append" has no check and there is no fallback: it passes.
    store
        .append(
            &s,
            "append",
            patch(json(r#"[{ "op": "add", "path": "", "value": { "n": 1 } }]"#)),
            json("{}"),
        )
        .unwrap();

    // "close" has one, and this write does not add "sections".
    let err = store
        .append(
            &s,
            "close",
            patch(json(r#"[{ "op": "add", "path": "/x", "value": 1 }]"#)),
            json("{}"),
        )
        .unwrap_err();
    assert!(matches!(err, StoreError::Schema(_)));
    assert_eq!(store.event_backend().head(&s).unwrap(), Some(SeqNo(1)));

    // This one does.
    store
        .append(
            &s,
            "close",
            patch(json(r#"[{ "op": "add", "path": "/sections", "value": [] }]"#)),
            json("{}"),
        )
        .unwrap();
    assert_eq!(
        store.state(&s).unwrap(),
        json(r#"{ "n": 1, "sections": [] }"#)
    );
}

// ---- patches --------------------------------------------------------------

fn apply(doc: &mut Value, p: &Patch) {
    json_patch::patch(doc, p).unwrap();
}

#[test]
fn add_applies_and_inserts_value() {
    let mut doc = json("{}");
    apply(&mut doc, &add("/title", json(r#""draft""#)));
    assert_eq!(doc, json(r#"{ "title": "draft" }"#));
}

#[test]
fn add_at_root_replaces_whole_document() {
    let mut doc = json(r#"{ "old": true }"#);
    apply(&mut doc, &add("", json(r#"{ "n": 1 }"#)));
    assert_eq!(doc, json(r#"{ "n": 1 }"#));
}

#[test]
fn replace_applies_and_overwrites_existing_value() {
    let mut doc = json(r#"{ "n": 0 }"#);
    apply(&mut doc, &replace("/n", json("9")));
    assert_eq!(doc, json(r#"{ "n": 9 }"#));
}

#[test]
fn remove_applies_and_deletes_the_key() {
    let mut doc = json(r#"{ "n": 1, "scratch": "drop me" }"#);
    apply(&mut doc, &remove("/scratch"));
    assert_eq!(doc, json(r#"{ "n": 1 }"#));
}

#[test]
fn builder_applies_ops_in_push_order() {
    let mut doc = json("{}");
    let p = Builder::new()
        .add("/n", json("0"))
        .replace("/n", json("1"))
        .add("/scratch", json(r#""temp""#))
        .remove("/scratch")
        .build();
    assert_eq!(p.0.len(), 4);
    apply(&mut doc, &p);
    assert_eq!(doc, json(r#"{ "n": 1 }"#));
}

#[test]
fn builder_with_no_ops_builds_an_empty_patch() {
    let p = Builder::new().build();
    assert_eq!(p.0.len(), 0);
}

// ---- what a backend does by default ---------------------------------------

/// A backend that leaves out everything that it may leave out.
#[derive(Default)]
struct DummyBackend {
    events: Vec<Event>,
}

impl EventBackend for DummyBackend {
    fn wf_facts(&self) {}

    fn append(&mut self, _stream: &StreamId, rec: NewEvent) -> Result<Committed, StoreError> {
        let seq = SeqNo((self.events.len() + 1) as u64);
        let at = Timestamp::now();
        self.events.push(Event {
            seq,
            kind: rec.kind,
            patch: rec.patch,
            meta: rec.meta,
            at,
        });
        Ok(Committed { seq, at })
    }

    fn read(
        &self,
        _stream: &StreamId,
        from: SeqNo,
        limit: usize,
    ) -> Result<Vec<Event>, StoreError> {
        Ok(self
            .events
            .iter()
            .filter(|e| e.seq.0 >= from.0)
            .take(limit)
            .cloned()
            .collect())
    }

    fn head(&self, _stream: &StreamId) -> Result<Option<SeqNo>, StoreError> {
        Ok(self.events.last().map(|e| e.seq))
    }

    fn seq_at_time(
        &self,
        _stream: &StreamId,
        _at: Timestamp,
    ) -> Result<Option<SeqNo>, StoreError> {
        Ok(None)
    }

    fn streams(&self) -> Result<Vec<StreamId>, StoreError> {
        Ok(Vec::new())
    }

    fn compaction_boundary(&self, _stream: &StreamId) -> Result<Option<SeqNo>, StoreError> {
        Ok(None)
    }

    fn label_set(
        &mut self,
        _stream: &StreamId,
        _label: &Label,
        _at: SeqNo,
    ) -> Result<(), StoreError> {
        Ok(())
    }

    fn label_resolve(
        &self,
        _stream: &StreamId,
        _label: &Label,
    ) -> Result<Option<SeqNo>, StoreError> {
        Ok(None)
    }

    fn labels(&self, _stream: &StreamId) -> Result<Vec<(Label, SeqNo)>, StoreError> {
        Ok(Vec::new())
    }

    fn label_delete(&mut self, _stream: &StreamId, _label: &Label) -> Result<bool, StoreError> {
        Ok(false)
    }
}

#[test]
fn default_import_event_returns_backend_unsupported() {
    let mut be = DummyBackend::default();
    let s = StreamId::new("s");
    let rec = NewEvent {
        kind: "k".to_string(),
        patch: empty_patch(),
        meta: json("{}"),
    };

    let err = be
        .import_event(&s, rec, Timestamp(1_700_000_000_000))
        .unwrap_err();
    assert!(matches!(err, StoreError::BackendUnsupported(op) if op == "import_event"));

    // The declined call left nothing behind.
    assert_eq!(be.head(&s).unwrap(), None);
}

#[test]
fn default_append_if_head_returns_backend_unsupported() {
    let mut be = DummyBackend::default();
    let s = StreamId::new("s");
    let rec = NewEvent {
        kind: "k".to_string(),
        patch: empty_patch(),
        meta: json("{}"),
    };

    let err = be.append_if_head(&s, rec, SeqNo::zero()).unwrap_err();
    assert!(matches!(err, StoreError::BackendUnsupported(op) if op == "append_if_head"));
    assert_eq!(be.head(&s).unwrap(), None);
}
