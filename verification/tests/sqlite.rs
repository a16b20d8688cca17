//! The store over a SQLite database: the statements of the library, run here on a
//! connection of rusqlite.
use std::path::Path;
use std::sync::{Arc, Mutex};

use ai_store::sqlite::event_rows::{
    boundary_of, build_meta_query, check_head, check_label_target, from_sql_seq, next_row,
    row_to_cached, rows_to_events, to_sql_seq, EventRow, DELETE_LABEL, INSERT_EVENT, PRUNE_CACHE,
    SELECT_CHECKPOINT, SELECT_EVENTS, SELECT_FIRST_EVENT, SELECT_HAS_EVENT, SELECT_HEAD,
    SELECT_LABEL, SELECT_LABELS, SELECT_NEAREST, SELECT_SEQ_AT_TIME, SELECT_STREAMS,
    STARTUP_PRAGMAS, UPSERT_CACHE, UPSERT_CHECKPOINT, UPSERT_LABEL,
};
use ai_store::sqlite::failure::to_store_err;
use ai_store::sqlite::maintenance::{
    snapshot_meta_compacted_at_seq, snapshot_row, CompactionReport, SqliteMaintenance,
    DELETE_PREFIX, DELETE_STALE_CACHE, DROP_TRIGGERS, SNAPSHOT_META_KEY_COMPACTED_AT_SEQ,
};
use ai_store::sqlite::migration::{
    pending_migrations, MIGRATION_1, MIGRATION_2, MIGRATION_3, MIGRATION_4, MIGRATION_COUNT,
};
use ai_store::sqlite::query::{
    build_count_sql, build_field_index_sql, build_query_sql, to_sql_count, After, Filter, Order,
    Query, RawWhere, SqlParam,
};
use ai_store::sqlite::read_model::{
    row_to_read_model_row, rows_to_read_model_rows, supersedes, RawRow, ReadModelRow,
    SqliteReadModel, SELECT_LAST_SEQ, SELECT_ROW, SELECT_TAIL, UPSERT_ROW,
};
use ai_store::{
    CacheBackend, CatchUpReport, CheckpointBackend, CommitSink, Committed, Event, EventBackend,
    GateCtx, Label, MemCheckpointBackend, NewEvent, Patch, PlainSink, ProjectionSink, SchemaGate,
    SchemaViolation, SeqNo, SinkDispatchFailure, SinkFailureObserver, SinkOp, Store, StoreBuilder,
    StoreConfig, StoreError, StreamId, Timestamp, SNAPSHOT_KIND, TOMBSTONE_KIND,
};
use rusqlite::types::Value as SqlValue;
use rusqlite::{params_from_iter, Connection, OptionalExtension, TransactionBehavior};
use serde_json::Value;
use tempfile::TempDir;

fn json(text: &str) -> Value {
    serde_json::from_str(text).unwrap()
}

fn patch(v: Value) -> Patch {
    serde_json::from_value::<Patch>(v).unwrap()
}

fn set_root(value: Value) -> Patch {
    ai_store::patch::add("", value)
}

// ---- a connection ----------------------------------------------------------

#[derive(Clone)]
struct Db {
    conn: Arc<Mutex<Connection>>,
}

fn of_sqlite(e: rusqlite::Error) -> StoreError {
    let code = match &e {
        rusqlite::Error::SqliteFailure(f, _) => Some(f.extended_code),
        _ => None,
    };
    to_store_err(code, e.to_string())
}

impl Db {
    fn call<T>(
        &self,
        f: impl FnOnce(&mut Connection) -> rusqlite::Result<T>,
    ) -> Result<T, StoreError> {
        f(&mut self.conn.lock().unwrap()).map_err(of_sqlite)
    }
}

fn migrate(conn: &mut Connection) -> Result<(), StoreError> {
    let version: i64 = conn
        .query_row("PRAGMA user_version", [], |r| r.get(0))
        .map_err(of_sqlite)?;
    for step in pending_migrations(version)? {
        let tx = conn.transaction().map_err(of_sqlite)?;
        tx.execute_batch(step.sql).map_err(of_sqlite)?;
        tx.pragma_update(None, "user_version", step.version)
            .map_err(of_sqlite)?;
        tx.commit().map_err(of_sqlite)?;
    }
    Ok(())
}

fn bound(params: &[SqlParam]) -> Vec<SqlValue> {
    params
        .iter()
        .map(|p| match p {
            SqlParam::Text(s) => SqlValue::Text(s.clone()),
            SqlParam::Integer(n) => SqlValue::Integer(*n),
        })
        .collect()
}

fn event_row(r: &rusqlite::Row<'_>) -> rusqlite::Result<EventRow> {
    Ok(EventRow {
        seq: r.get(0)?,
        kind: r.get(1)?,
        patch: r.get(2)?,
        meta: r.get(3)?,
        at_ms: r.get(4)?,
    })
}

fn raw_row(r: &rusqlite::Row<'_>) -> rusqlite::Result<RawRow> {
    Ok(RawRow {
        stream: r.get(0)?,
        state: r.get(1)?,
        last_seq: r.get(2)?,
        updated_at: r.get(3)?,
        live: r.get(4)?,
    })
}

// ---- the backends ----------------------------------------------------------

#[derive(Clone)]
struct DbEvents {
    db: Db,
}

impl DbEvents {
    fn insert(
        &self,
        stream: &StreamId,
        rec: &NewEvent,
        at: Timestamp,
        expected: Option<SeqNo>,
    ) -> Result<Committed, StoreError> {
        self.db.call(|conn| {
            let tx = conn.transaction_with_behavior(TransactionBehavior::Immediate)?;
            let head: Option<i64> = tx.query_row(SELECT_HEAD, (&stream.0,), |r| r.get(0))?;
            if let Some(expected) = expected {
                if let Err(e) = check_head(head.map(from_sql_seq), expected) {
                    return Ok(Err(e));
                }
            }
            let row = next_row(head, rec, at);
            tx.execute(
                INSERT_EVENT,
                (&stream.0, row.seq, &row.kind, &row.patch, &row.meta, row.at_ms),
            )?;
            tx.commit()?;
            Ok(Ok(Committed {
                seq: from_sql_seq(row.seq),
                at,
            }))
        })?
    }
}

impl EventBackend for DbEvents {
    fn wf_facts(&self) {}

    fn append(&mut self, stream: &StreamId, rec: NewEvent) -> Result<Committed, StoreError> {
        self.insert(stream, &rec, Timestamp::now(), None)
    }

    fn import_event(
        &mut self,
        stream: &StreamId,
        rec: NewEvent,
        at: Timestamp,
    ) -> Result<Committed, StoreError> {
        self.insert(stream, &rec, at, None)
    }

    fn append_if_head(
        &mut self,
        stream: &StreamId,
        rec: NewEvent,
        expected: SeqNo,
    ) -> Result<Committed, StoreError> {
        self.insert(stream, &rec, Timestamp::now(), Some(expected))
    }

    fn read(
        &self,
        stream: &StreamId,
        from: SeqNo,
        limit: usize,
    ) -> Result<Vec<Event>, StoreError> {
        let rows: Vec<EventRow> = self.db.call(|conn| {
            let mut stmt = conn.prepare(SELECT_EVENTS)?;
            let rows = stmt.query_map(
                (&stream.0, to_sql_seq(from), to_sql_count(limit)),
                event_row,
            )?;
            rows.collect()
        })?;
        rows_to_events(&rows)
    }

    fn read_by_meta(
        &self,
        stream: &StreamId,
        field: &str,
        value: &Value,
        from: SeqNo,
        limit: usize,
    ) -> Result<Vec<Event>, StoreError> {
        let (sql, params) = build_meta_query(stream, field, value, from, limit);
        let rows: Vec<EventRow> = self.db.call(|conn| {
            let mut stmt = conn.prepare(sql)?;
            let rows = stmt.query_map(params_from_iter(bound(&params)), event_row)?;
            rows.collect()
        })?;
        rows_to_events(&rows)
    }

    fn head(&self, stream: &StreamId) -> Result<Option<SeqNo>, StoreError> {
        let head: Option<i64> = self
            .db
            .call(|conn| conn.query_row(SELECT_HEAD, (&stream.0,), |r| r.get(0)))?;
        Ok(head.map(from_sql_seq))
    }

    fn seq_at_time(&self, stream: &StreamId, at: Timestamp) -> Result<Option<SeqNo>, StoreError> {
        let seq: Option<i64> = self.db.call(|conn| {
            conn.query_row(SELECT_SEQ_AT_TIME, (&stream.0, at.0), |r| r.get(0))
        })?;
        Ok(seq.map(from_sql_seq))
    }

    fn streams(&self) -> Result<Vec<StreamId>, StoreError> {
        let names: Vec<String> = self.db.call(|conn| {
            let mut stmt = conn.prepare(SELECT_STREAMS)?;
            let rows = stmt.query_map([], |r| r.get(0))?;
            rows.collect()
        })?;
        Ok(names.into_iter().map(StreamId).collect())
    }

    fn compaction_boundary(&self, stream: &StreamId) -> Result<Option<SeqNo>, StoreError> {
        let first: Option<(i64, String)> = self.db.call(|conn| {
            conn.query_row(SELECT_FIRST_EVENT, (&stream.0,), |r| {
                Ok((r.get(0)?, r.get(1)?))
            })
            .optional()
        })?;
        Ok(boundary_of(first))
    }

    fn label_set(
        &mut self,
        stream: &StreamId,
        label: &Label,
        at: SeqNo,
    ) -> Result<(), StoreError> {
        self.db.call(|conn| {
            let tx = conn.transaction_with_behavior(TransactionBehavior::Immediate)?;
            let exists = tx
                .query_row(
                    SELECT_HAS_EVENT,
                    (&stream.0, to_sql_seq(at)),
                    |_| Ok(()),
                )
                .optional()?
                .is_some();
            let head: Option<i64> = tx.query_row(SELECT_HEAD, (&stream.0,), |r| r.get(0))?;
            if let Err(e) = check_label_target(exists, head.map(from_sql_seq), at) {
                return Ok(Err(e));
            }
            tx.execute(UPSERT_LABEL, (&stream.0, &label.0, to_sql_seq(at)))?;
            tx.commit()?;
            Ok(Ok(()))
        })?
    }

    fn label_resolve(&self, stream: &StreamId, label: &Label) -> Result<Option<SeqNo>, StoreError> {
        let at: Option<i64> = self.db.call(|conn| {
            conn.query_row(SELECT_LABEL, (&stream.0, &label.0), |r| r.get(0))
                .optional()
        })?;
        Ok(at.map(from_sql_seq))
    }

    fn labels(&self, stream: &StreamId) -> Result<Vec<(Label, SeqNo)>, StoreError> {
        let rows: Vec<(String, i64)> = self.db.call(|conn| {
            let mut stmt = conn.prepare(SELECT_LABELS)?;
            let rows = stmt.query_map((&stream.0,), |r| Ok((r.get(0)?, r.get(1)?)))?;
            rows.collect()
        })?;
        Ok(rows
            .into_iter()
            .map(|(name, at)| (Label(name), from_sql_seq(at)))
            .collect())
    }

    fn label_delete(&mut self, stream: &StreamId, label: &Label) -> Result<bool, StoreError> {
        let gone = self
            .db
            .call(|conn| conn.execute(DELETE_LABEL, (&stream.0, &label.0)))?;
        Ok(gone > 0)
    }
}

#[derive(Clone)]
struct DbCache {
    db: Db,
}

impl CacheBackend for DbCache {
    fn wf_facts(&self) {}

    fn put(&mut self, stream: &StreamId, at: SeqNo, state: &Value) -> Result<(), StoreError> {
        self.db.call(|conn| {
            conn.execute(UPSERT_CACHE, (&stream.0, to_sql_seq(at), serde_json::to_string(state).unwrap()))
        })?;
        Ok(())
    }

    fn nearest(
        &self,
        stream: &StreamId,
        at: SeqNo,
    ) -> Result<Option<(SeqNo, Value)>, StoreError> {
        let row: Option<(i64, String)> = self.db.call(|conn| {
            conn.query_row(SELECT_NEAREST, (&stream.0, to_sql_seq(at)), |r| {
                Ok((r.get(0)?, r.get(1)?))
            })
            .optional()
        })?;
        match row {
            Some((at, state)) => Ok(Some(row_to_cached(at, &state)?)),
            None => Ok(None),
        }
    }

    fn prune(&mut self, stream: &StreamId, keep_latest: usize) -> Result<(), StoreError> {
        self.db.call(|conn| {
            conn.execute(PRUNE_CACHE, (&stream.0, to_sql_count(keep_latest)))
        })?;
        Ok(())
    }
}

#[derive(Clone)]
struct DbCheckpoints {
    db: Db,
}

impl CheckpointBackend for DbCheckpoints {
    fn get(&self, sink_id: &str, stream: &StreamId) -> Result<Option<SeqNo>, StoreError> {
        let at: Option<i64> = self.db.call(|conn| {
            conn.query_row(SELECT_CHECKPOINT, (sink_id, &stream.0), |r| r.get(0))
                .optional()
        })?;
        Ok(at.map(from_sql_seq))
    }

    fn put(&mut self, sink_id: &str, stream: &StreamId, at: SeqNo) -> Result<(), StoreError> {
        self.db.call(|conn| {
            conn.execute(UPSERT_CHECKPOINT, (sink_id, &stream.0, to_sql_seq(at)))
        })?;
        Ok(())
    }
}

struct Backends {
    events: DbEvents,
    cache: DbCache,
    checkpoints: DbCheckpoints,
    db: Db,
}

impl Backends {
    fn over(conn: Connection) -> Self {
        let mut conn = conn;
        conn.execute_batch(STARTUP_PRAGMAS).unwrap();
        migrate(&mut conn).unwrap();
        let db = Db {
            conn: Arc::new(Mutex::new(conn)),
        };
        Backends {
            events: DbEvents { db: db.clone() },
            cache: DbCache { db: db.clone() },
            checkpoints: DbCheckpoints { db: db.clone() },
            db,
        }
    }

    fn open(path: &Path) -> Self {
        Backends::over(Connection::open(path).unwrap())
    }

    fn open_in_memory() -> Self {
        Backends::over(Connection::open_in_memory().unwrap())
    }
}

type DbStore = Store<DbEvents, DbCache, MemCheckpointBackend>;

fn open_facade(be: &Backends) -> DbStore {
    open_facade_with_sinks(be, Vec::new())
}

fn open_facade_with_sinks(be: &Backends, sinks: Vec<Arc<dyn ProjectionSink>>) -> DbStore {
    Store::new(
        be.events.clone(),
        be.cache.clone(),
        Vec::new(),
        sinks,
        StoreConfig::default(),
    )
}

fn count_rows(be: &Backends, sql: &str) -> i64 {
    be.db
        .call(|conn| conn.query_row(sql, [], |r| r.get(0)))
        .unwrap()
}

// ---- the read model --------------------------------------------------------

struct ReadModel {
    db: Db,
    model: SqliteReadModel,
}

impl ReadModel {
    fn new(be: &Backends, model: SqliteReadModel) -> Arc<ReadModel> {
        Arc::new(ReadModel {
            db: be.db.clone(),
            model,
        })
    }

    fn query(&self, q: &Query) -> Result<Vec<ReadModelRow>, StoreError> {
        let (sql, params) = build_query_sql(q)?;
        let rows: Vec<RawRow> = self.db.call(|conn| {
            let mut stmt = conn.prepare(&sql)?;
            let rows = stmt.query_map(params_from_iter(bound(&params)), raw_row)?;
            rows.collect()
        })?;
        rows_to_read_model_rows(&rows)
    }

    fn count(
        &self,
        filter: Option<&Filter>,
        raw: Option<&RawWhere>,
        include_dead: bool,
    ) -> Result<i64, StoreError> {
        let (sql, params) = build_count_sql(filter, raw, include_dead)?;
        self.db
            .call(|conn| conn.query_row(&sql, params_from_iter(bound(&params)), |r| r.get(0)))
    }

    fn get(&self, stream: &StreamId) -> Result<Option<ReadModelRow>, StoreError> {
        let row: Option<RawRow> = self.db.call(|conn| {
            conn.query_row(SELECT_ROW, (&stream.0,), raw_row)
                .optional()
        })?;
        match row {
            Some(row) => Ok(Some(row_to_read_model_row(&row)?)),
            None => Ok(None),
        }
    }

    fn tail(&self, n: usize) -> Result<Vec<ReadModelRow>, StoreError> {
        let rows: Vec<RawRow> = self.db.call(|conn| {
            let mut stmt = conn.prepare(SELECT_TAIL)?;
            let rows = stmt.query_map((to_sql_count(n),), raw_row)?;
            rows.collect()
        })?;
        rows_to_read_model_rows(&rows)
    }

    fn create_field_index(&self, field: &str) -> Result<(), StoreError> {
        let sql = build_field_index_sql(field)?;
        self.db.call(|conn| conn.execute_batch(&sql))
    }
}

impl ProjectionSink for ReadModel {
    fn id(&self) -> &str {
        self.model.id()
    }

    fn accepts(&self, _stream: &StreamId) -> bool {
        true
    }

    fn requires_rebuild_on_attach(&self) -> bool {
        false
    }

    fn commit(
        &self,
        stream: &StreamId,
        seq: SeqNo,
        state: &Value,
        event: &Event,
    ) -> Result<(), StoreError> {
        let row = self.model.row_for(stream, seq, state, event);
        self.db.call(|conn| {
            let tx = conn.transaction_with_behavior(TransactionBehavior::Immediate)?;
            let stored: Option<i64> = tx
                .query_row(SELECT_LAST_SEQ, (&row.stream,), |r| r.get(0))
                .optional()?;
            if supersedes(stored, row.last_seq) {
                tx.execute(
                    UPSERT_ROW,
                    (&row.stream, &row.state, row.last_seq, row.updated_at, row.live),
                )?;
            }
            tx.commit()
        })
    }

    fn on_label_set(
        &self,
        _stream: &StreamId,
        _label: &Label,
        _at: SeqNo,
        _state: &Value,
        _event: &Event,
    ) -> Result<(), StoreError> {
        Ok(())
    }

    fn on_label_deleted(&self, _stream: &StreamId, _label: &Label) -> Result<(), StoreError> {
        Ok(())
    }
}

/// A store with a read model on one connection.
struct WithReadModel {
    store: Store<DbEvents, DbCache, DbCheckpoints>,
    read_model: Arc<ReadModel>,
    be: Backends,
}

impl WithReadModel {
    fn over(
        be: Backends,
        f: impl FnOnce(
            StoreBuilder<DbEvents, DbCache, DbCheckpoints>,
        ) -> StoreBuilder<DbEvents, DbCache, DbCheckpoints>,
    ) -> Result<Self, StoreError> {
        let builder = Store::builder(be.events.clone(), be.cache.clone())
            .checkpoints(be.checkpoints.clone());
        let mut store = f(builder).build();
        let read_model = ReadModel::new(&be, SqliteReadModel::new());
        store.attach_sink(read_model.clone())?;
        Ok(WithReadModel {
            store,
            read_model,
            be,
        })
    }

    fn read_model_detached(&self) -> Arc<ReadModel> {
        ReadModel::new(
            &self.be,
            SqliteReadModel::new().with_id("read-model:detached"),
        )
    }
}

// ---- compaction ------------------------------------------------------------

fn compact_stream<K: CheckpointBackend>(
    be: &Backends,
    store: &Store<DbEvents, DbCache, K>,
    stream: &StreamId,
    up_to: SeqNo,
) -> Result<CompactionReport, StoreError> {
    let plan = SqliteMaintenance::new().compact_stream(store, stream, up_to)?;
    let row = snapshot_row(&plan.snapshot);
    be.db.call(|conn| {
        let tx = conn.transaction()?;
        tx.execute_batch(DROP_TRIGGERS)?;
        tx.execute(DELETE_PREFIX, (&stream.0, row.seq))?;
        tx.execute(
            INSERT_EVENT,
            (&stream.0, row.seq, &row.kind, &row.patch, &row.meta, row.at_ms),
        )?;
        tx.execute(DELETE_STALE_CACHE, (&stream.0, row.seq))?;
        tx.execute_batch(MIGRATION_4)?;
        tx.commit()
    })?;
    Ok(plan.report)
}

// ---- the store over a database ----------------------------------------------

/// Turns down one kind.
struct RejectKind {
    forbidden: &'static str,
}

impl SchemaGate for RejectKind {
    fn validate(&self, ctx: &GateCtx<'_>) -> Result<(), SchemaViolation> {
        if ctx.kind == self.forbidden {
            Err(SchemaViolation::new(
                "forbidden_kind",
                format!("kind '{}' is not permitted", self.forbidden),
            ))
        } else {
            Ok(())
        }
    }
}

/// Minimal `ProjectionSink` recording each `(stream, seq)` it was asked to
/// commit, for asserting dispatch counts and ordering.
#[derive(Default)]
struct RecordSink {
    id: String,
    seen: Mutex<Vec<(String, u64)>>,
}

impl CommitSink for RecordSink {
    fn id(&self) -> &str {
        &self.id
    }
    fn commit(
        &self,
        stream: &StreamId,
        seq: SeqNo,
        _state: &Value,
        _event: &Event,
    ) -> Result<(), StoreError> {
        self.seen
            .lock()
            .unwrap()
            .push((stream.as_str().to_string(), seq.0));
        Ok(())
    }
}

#[test]
fn append_and_state_reconstruct_end_to_end() {
    let be = Backends::open_in_memory();
    let mut store = open_facade(&be);
    let s = StreamId::new("doc");

    store
        .append(
            &s,
            "init",
            patch(json(r#"[{ "op": "add", "path": "", "value": { "n": 0 } }]"#)),
            json("{}"),
        )
        .unwrap();
    store
        .append(
            &s,
            "bump",
            patch(json(r#"[{ "op": "replace", "path": "/n", "value": 7 }]"#)),
            json("{}"),
        )
        .unwrap();

    assert_eq!(store.state(&s).unwrap(), json(r#"{ "n": 7 }"#));
    assert_eq!(store.state_at(&s, SeqNo(1)).unwrap(), json(r#"{ "n": 0 }"#));
}

#[test]
fn revert_participates_in_the_log() {
    let be = Backends::open_in_memory();
    let mut store = open_facade(&be);
    let s = StreamId::new("doc");

    store
        .append(
            &s,
            "init",
            patch(json(r#"[{ "op": "add", "path": "", "value": { "n": 1 } }]"#)),
            json("{}"),
        )
        .unwrap();
    store
        .append(
            &s,
            "bump",
            patch(json(r#"[{ "op": "replace", "path": "/n", "value": 2 }]"#)),
            json("{}"),
        )
        .unwrap();

    let reverted = store.revert(&s, SeqNo(1)).unwrap();
    assert_eq!(reverted.seq, SeqNo(3));
    assert_eq!(store.state(&s).unwrap(), json(r#"{ "n": 1 }"#));
    assert_eq!(store.state_at(&s, SeqNo(2)).unwrap(), json(r#"{ "n": 2 }"#));
}

#[test]
fn state_persists_across_reopen() {
    let dir = TempDir::new().unwrap();
    let path = dir.path().join("store.db");

    // First open: write two events + one label + shut down.
    {
        let be = Backends::open(&path);
        let mut store = open_facade(&be);
        let s = StreamId::new("doc");
        store
            .append(
                &s,
                "init",
                patch(json(r#"[{ "op": "add", "path": "", "value": { "n": 0 } }]"#)),
                json("{}"),
            )
            .unwrap();
        store
            .append(
                &s,
                "bump",
                patch(json(r#"[{ "op": "replace", "path": "/n", "value": 42 }]"#)),
                json("{}"),
            )
            .unwrap();
        store
            .label_set(&s, &Label::new("v1"), SeqNo(2))
            .unwrap();
    }

    // Second open: state, head, labels all come back intact.
    {
        let be = Backends::open(&path);
        let mut store = open_facade(&be);
        let s = StreamId::new("doc");
        assert_eq!(store.head(&s).unwrap(), Some(SeqNo(2)));
        assert_eq!(store.state(&s).unwrap(), json(r#"{ "n": 42 }"#));
        assert_eq!(
            store
                .label_resolve(&s, &Label::new("v1"))
                .unwrap(),
            SeqNo(2)
        );
    }
}

#[test]
fn read_by_meta_uses_indexed_lookup() {
    let be = Backends::open_in_memory();
    let mut store = open_facade(&be);
    let s = StreamId::new("doc");

    // Init empty object so subsequent path adds have a parent.
    store
        .append(
            &s,
            "init",
            patch(json(r#"[{ "op": "add", "path": "", "value": {} }]"#)),
            json(r#"{ "entity_id": "init" }"#),
        )
        .unwrap();

    for (i, (ent, count)) in [("A", 10), ("B", 20), ("A", 30)].iter().enumerate() {
        store
            .append(
                &s,
                "touch",
                patch(json(&format!(r#"[{{ "op": "add", "path": "/step_{i}", "value": {count} }}]"#))),
                json(&format!(r#"{{ "entity_id": "{ent}", "n": {count} }}"#)),
            )
            .unwrap();
    }

    // String-typed value → matches seq 2 and 4 (init is seq 1).
    let hits = store
        .read_by_meta(&s, "entity_id", &json(r#""A""#), SeqNo(2), 10)
        .unwrap();
    assert_eq!(hits.len(), 2);
    assert_eq!(hits[0].seq, SeqNo(2));
    assert_eq!(hits[1].seq, SeqNo(4));

    // Number-typed value (json_extract normalizes both sides via canonical JSON)
    let by_n = store
        .read_by_meta(&s, "n", &json("20"), SeqNo(1), 10)
        .unwrap();
    assert_eq!(by_n.len(), 1);
    assert_eq!(by_n[0].seq, SeqNo(3));

    // Non-match
    let none = store
        .read_by_meta(&s, "entity_id", &json(r#""Z""#), SeqNo(1), 10)
        .unwrap();
    assert!(none.is_empty());

    // Missing field never matches (SQL NULL not equal to any bound value)
    let missing = store
        .read_by_meta(&s, "no_such_key", &json(r#""A""#), SeqNo(1), 10)
        .unwrap();
    assert!(missing.is_empty());

    // `from` gating
    let from_mid = store
        .read_by_meta(&s, "entity_id", &json(r#""A""#), SeqNo(3), 10)
        .unwrap();
    assert_eq!(from_mid.len(), 1);
    assert_eq!(from_mid[0].seq, SeqNo(4));
}

#[test]
fn read_by_meta_matches_json_null_via_json_type() {
    let be = Backends::open_in_memory();
    let mut store = open_facade(&be);
    let s = StreamId::new("doc");

    store
        .append(
            &s,
            "init_null",
            patch(json(r#"[{ "op": "add", "path": "", "value": {} }]"#)),
            json(r#"{ "owner": null }"#),
        )
        .unwrap();
    store
        .append(
            &s,
            "with_value",
            patch(json(r#"[{ "op": "add", "path": "/x", "value": 1 }]"#)),
            json(r#"{ "owner": "alice" }"#),
        )
        .unwrap();
    store
        .append(
            &s,
            "missing_owner",
            patch(json(r#"[{ "op": "add", "path": "/y", "value": 2 }]"#)),
            json(r#"{ "other": "irrelevant" }"#),
        )
        .unwrap();

    // Value::Null matches JSON null but NOT missing field.
    let hits = store
        .read_by_meta(&s, "owner", &Value::Null, SeqNo(1), 10)
        .unwrap();
    assert_eq!(hits.len(), 1);
    assert_eq!(hits[0].seq, SeqNo(1));
}

/// Smoke-test the migration recipe encoded in
/// `examples/migrate_from_json.rs`: chain-checked import via
/// `Store::import_event` from `(before, after)` snapshots reconstructs
/// `Store::state` exactly, and `seq_at_time` answers against the imported
/// (source-system) timestamps rather than wall-clock import time.
#[test]
fn migrate_from_json_recipe_reconstructs_final_state() {
    let be = Backends::open_in_memory();
    let mut store = open_facade(&be);
    let s = StreamId::new("doc/legacy");

    let legacy: Vec<(&str, i64, Value, Value)> = vec![
        (
            "create",
            1_700_000_000_000,
            Value::Null,
            json(r#"{ "title": "draft", "n": 0 }"#),
        ),
        (
            "rename",
            1_700_000_060_000,
            json(r#"{ "title": "draft", "n": 0 }"#),
            json(r#"{ "title": "final", "n": 0 }"#),
        ),
        (
            "bump",
            1_700_000_120_000,
            json(r#"{ "title": "final", "n": 0 }"#),
            json(r#"{ "title": "final", "n": 3 }"#),
        ),
    ];

    let mut prev = Value::Null;
    for (i, (kind, at_ms, before, after)) in legacy.iter().enumerate() {
        assert_eq!(before, &prev, "chain broken at index {i}");
        let p: Patch = json_patch::diff(before, after);
        store
            .import_event(&s, kind, p, json(&format!(r#"{{ "legacy_index": {i} }}"#)), Timestamp(*at_ms))
            .unwrap();
        prev = after.clone();
    }

    let expected = legacy.last().unwrap().3.clone();
    assert_eq!(store.state(&s).unwrap(), expected);
    assert_eq!(
        store.head(&s).unwrap(),
        Some(SeqNo(legacy.len() as u64))
    );

    // `seq_at_time` answers against the source system's timeline, since
    // every event's `at` was imported verbatim rather than stamped at
    // migration time (mirrors Assertion 4 in the example).
    let at_second_entry = Timestamp(legacy[1].1);
    assert_eq!(
        store.seq_at_time(&s, at_second_entry).unwrap(),
        Some(SeqNo(2))
    );
}

// ---- import_event ---------------------------------------------------------

#[test]
fn facade_import_event_preserves_caller_supplied_timestamp() {
    let be = Backends::open_in_memory();
    let mut store = open_facade(&be);
    let s = StreamId::new("doc");
    let at = Timestamp(1_700_000_000_000);

    let committed = store
        .import_event(
            &s,
            "legacy_create",
            patch(json(r#"[{ "op": "add", "path": "", "value": { "n": 0 } }]"#)),
            json("{}"),
            at,
        )
        .unwrap();
    assert_eq!(committed.seq, SeqNo(1));

    let events = store.read(&s, SeqNo(1), 1).unwrap();
    assert_eq!(events[0].at, at);
}

#[test]
fn facade_import_event_into_empty_stream_supports_historical_seq_at_time() {
    let be = Backends::open_in_memory();
    let mut store = open_facade(&be);
    let s = StreamId::new("doc");

    store
        .import_event(
            &s,
            "create",
            patch(json(r#"[{ "op": "add", "path": "", "value": { "n": 0 } }]"#)),
            json("{}"),
            Timestamp(1_700_000_000_000),
        )
        .unwrap();
    store
        .import_event(
            &s,
            "bump",
            patch(json(r#"[{ "op": "replace", "path": "/n", "value": 1 }]"#)),
            json("{}"),
            Timestamp(1_700_000_060_000),
        )
        .unwrap();

    let seq = store
        .seq_at_time(&s, Timestamp(1_700_000_030_000))
        .unwrap();
    assert_eq!(seq, Some(SeqNo(1)));

    let seq2 = store
        .seq_at_time(&s, Timestamp(1_700_000_060_000))
        .unwrap();
    assert_eq!(seq2, Some(SeqNo(2)));
}

#[test]
fn facade_import_event_is_rejected_by_gates_same_as_append() {
    let be = Backends::open_in_memory();
    let mut store = Store::new(
        be.events.clone(),
        be.cache.clone(),
        vec![Arc::new(RejectKind {
            forbidden: "denied",
        })],
        Vec::new(),
        StoreConfig::default(),
    );
    let s = StreamId::new("doc");

    let err = store
        .import_event(
            &s,
            "denied",
            patch(json(r#"[{ "op": "add", "path": "", "value": {} }]"#)),
            json("{}"),
            Timestamp(1_700_000_000_000),
        )
        .unwrap_err();
    assert!(matches!(err, StoreError::Schema(_)));
    assert_eq!(store.head(&s).unwrap(), None);
}

#[test]
fn facade_import_event_dispatches_to_sinks_same_as_append() {
    let be = Backends::open_in_memory();
    let sink = Arc::new(PlainSink {
        inner: RecordSink {
            id: "record".to_string(),
            seen: Mutex::new(Vec::new()),
        },
    });
    let mut store = open_facade_with_sinks(&be, vec![sink.clone()]);
    let s = StreamId::new("doc");

    store
        .import_event(
            &s,
            "init",
            patch(json(r#"[{ "op": "add", "path": "", "value": {} }]"#)),
            json("{}"),
            Timestamp(1_700_000_000_000),
        )
        .unwrap();

    assert_eq!(
        sink.inner.seen.lock().unwrap().clone(),
        vec![("doc".to_string(), 1)]
    );
}

// ---- label_delete ---------------------------------------------------------

#[test]
fn label_delete_removes_label_and_surfaces_unknown_label_after() {
    let be = Backends::open_in_memory();
    let mut store = open_facade(&be);
    let s = StreamId::new("doc");

    store
        .append(
            &s,
            "init",
            patch(json(r#"[{ "op": "add", "path": "", "value": {} }]"#)),
            json("{}"),
        )
        .unwrap();
    store
        .label_set(&s, &Label::new("v1"), SeqNo(1))
        .unwrap();

    let existed = store.label_delete(&s, &Label::new("v1")).unwrap();
    assert!(existed);

    let err = store
        .label_resolve(&s, &Label::new("v1"))
        .unwrap_err();
    assert!(matches!(err, StoreError::UnknownLabel(name) if name == "v1"));
}

#[test]
fn facade_label_delete_of_unknown_label_is_idempotent_and_returns_false() {
    let be = Backends::open_in_memory();
    let mut store = open_facade(&be);
    let s = StreamId::new("doc");
    store
        .append(
            &s,
            "init",
            patch(json(r#"[{ "op": "add", "path": "", "value": {} }]"#)),
            json("{}"),
        )
        .unwrap();

    let existed = store.label_delete(&s, &Label::new("nope")).unwrap();
    assert!(!existed);
}

#[test]
fn facade_label_delete_leaves_event_log_unchanged() {
    let be = Backends::open_in_memory();
    let mut store = open_facade(&be);
    let s = StreamId::new("doc");
    store
        .append(
            &s,
            "init",
            patch(json(r#"[{ "op": "add", "path": "", "value": {} }]"#)),
            json("{}"),
        )
        .unwrap();
    store
        .label_set(&s, &Label::new("v1"), SeqNo(1))
        .unwrap();

    let head_before = store.head(&s).unwrap();
    let events_before = store.read(&s, SeqNo::zero().next(), 10).unwrap();

    let existed = store.label_delete(&s, &Label::new("v1")).unwrap();
    assert!(existed);

    let head_after = store.head(&s).unwrap();
    let events_after = store.read(&s, SeqNo::zero().next(), 10).unwrap();

    assert_eq!(head_before, head_after);
    assert_eq!(events_before, events_after);
}

// ---- materialize_to_sink ---------------------------------------------------

#[test]
fn facade_materialize_to_sink_dumps_head_without_advancing_checkpoint() {
    let be = Backends::open_in_memory();
    let mut store_no_sink = open_facade(&be);
    let s = StreamId::new("doc");

    store_no_sink
        .append(
            &s,
            "init",
            patch(json(r#"[{ "op": "add", "path": "", "value": { "n": 1 } }]"#)),
            json("{}"),
        )
        .unwrap();
    store_no_sink
        .append(
            &s,
            "bump",
            patch(json(r#"[{ "op": "replace", "path": "/n", "value": 2 }]"#)),
            json("{}"),
        )
        .unwrap();

    let sink = Arc::new(PlainSink {
        inner: RecordSink {
            id: "record".to_string(),
            seen: Mutex::new(Vec::new()),
        },
    });
    let mut store_with_sink = open_facade_with_sinks(&be, vec![sink.clone()]);

    let dumped = store_with_sink
        .materialize_to_sink(&s, "record", None)
        .unwrap();
    assert_eq!(dumped, SeqNo(2));
    assert_eq!(
        sink.inner.seen.lock().unwrap().clone(),
        vec![("doc".to_string(), 2)]
    );

    // Checkpoint untouched — catch_up still drives from scratch.
    let report = store_with_sink.catch_up("record").unwrap();
    assert_eq!(report.applied, 2);
    assert_eq!(report.failed, 0);
}

#[test]
fn facade_materialize_to_sink_with_at_dumps_a_past_state() {
    let be = Backends::open_in_memory();
    let s = StreamId::new("doc");

    let sink = Arc::new(PlainSink {
        inner: RecordSink {
            id: "record".to_string(),
            seen: Mutex::new(Vec::new()),
        },
    });
    let mut store = open_facade_with_sinks(&be, vec![sink.clone()]);

    store
        .append(
            &s,
            "init",
            patch(json(r#"[{ "op": "add", "path": "", "value": { "n": 1 } }]"#)),
            json("{}"),
        )
        .unwrap();
    store
        .append(
            &s,
            "bump",
            patch(json(r#"[{ "op": "replace", "path": "/n", "value": 2 }]"#)),
            json("{}"),
        )
        .unwrap();

    // append() already dispatched twice; isolate the effect of the explicit
    // historical dump.
    sink.inner.seen.lock().unwrap().clear();

    let dumped = store
        .materialize_to_sink(&s, "record", Some(SeqNo(1)))
        .unwrap();
    assert_eq!(dumped, SeqNo(1));
    assert_eq!(
        sink.inner.seen.lock().unwrap().clone(),
        vec![("doc".to_string(), 1)]
    );

    // Head is still 2 — dumping a past seq did not touch the log or move
    // the stream forward/backward.
    assert_eq!(store.head(&s).unwrap(), Some(SeqNo(2)));
}

#[test]
fn facade_materialize_to_sink_with_at_beyond_head_returns_seq_out_of_range() {
    let be = Backends::open_in_memory();
    let s = StreamId::new("doc");
    let sink = Arc::new(PlainSink {
        inner: RecordSink {
            id: "record".to_string(),
            seen: Mutex::new(Vec::new()),
        },
    });
    let mut store = open_facade_with_sinks(&be, vec![sink]);

    store
        .append(
            &s,
            "init",
            patch(json(r#"[{ "op": "add", "path": "", "value": {} }]"#)),
            json("{}"),
        )
        .unwrap();

    let err = store
        .materialize_to_sink(&s, "record", Some(SeqNo(5)))
        .unwrap_err();
    assert!(matches!(
        err,
        StoreError::SeqOutOfRange {
            head: Some(SeqNo(1)),
            requested: SeqNo(5)
        }
    ));
}

#[test]
fn facade_materialize_to_sink_unknown_sink_returns_error() {
    let be = Backends::open_in_memory();
    let mut store = open_facade(&be);
    let s = StreamId::new("doc");
    store
        .append(
            &s,
            "init",
            patch(json(r#"[{ "op": "add", "path": "", "value": {} }]"#)),
            json("{}"),
        )
        .unwrap();

    let err = store
        .materialize_to_sink(&s, "nope", None)
        .unwrap_err();
    assert!(matches!(err, StoreError::UnknownSink(id) if id == "nope"));
}

#[test]
fn facade_materialize_to_sink_unknown_stream_returns_error() {
    let be = Backends::open_in_memory();
    let sink = Arc::new(PlainSink {
        inner: RecordSink {
            id: "record".to_string(),
            seen: Mutex::new(Vec::new()),
        },
    });
    let store = open_facade_with_sinks(&be, vec![sink]);

    let err = store
        .materialize_to_sink(&StreamId::new("nope"), "record", None)
        .unwrap_err();
    assert!(matches!(err, StoreError::UnknownStream(id) if id == StreamId::new("nope")));
}

/// Records every `on_failure` callback the store made against it.
#[derive(Default)]
struct RecordingObserver {
    seen: Mutex<Vec<SinkDispatchFailure>>,
}

impl RecordingObserver {
    fn snapshot(&self) -> Vec<SinkDispatchFailure> {
        self.seen.lock().unwrap().clone()
    }
}

impl SinkFailureObserver for RecordingObserver {
    fn on_failure(&self, failure: &SinkDispatchFailure) {
        self.seen.lock().unwrap().push(failure.clone());
    }
}

/// A sink whose behavior is controlled by a shared flag: normally succeeds,
/// but fails every dispatch call when `Fail::Yes` is toggled.
#[derive(Clone)]
struct FailingSink {
    id: String,
    mode: Arc<Mutex<Mode>>,
}

#[derive(Clone, Copy, PartialEq)]
enum Mode {
    Pass,
    Fail,
}

impl FailingSink {
    fn new(id: &str) -> Self {
        Self {
            id: id.to_string(),
            mode: Arc::new(Mutex::new(Mode::Pass)),
        }
    }
    fn set_mode(&self, m: Mode) {
        *self.mode.lock().unwrap() = m;
    }
}

impl ProjectionSink for FailingSink {
    fn id(&self) -> &str {
        &self.id
    }
    fn accepts(&self, _stream: &StreamId) -> bool {
        true
    }
    fn requires_rebuild_on_attach(&self) -> bool {
        false
    }
    fn commit(
        &self,
        _stream: &StreamId,
        _seq: SeqNo,
        _state: &Value,
        _event: &Event,
    ) -> Result<(), StoreError> {
        match *self.mode.lock().unwrap() {
            Mode::Pass => Ok(()),
            Mode::Fail => Err(StoreError::Backend("sink refused commit".into())),
        }
    }
    fn on_label_set(
        &self,
        _stream: &StreamId,
        _label: &Label,
        _at: SeqNo,
        _state: &Value,
        _event: &Event,
    ) -> Result<(), StoreError> {
        match *self.mode.lock().unwrap() {
            Mode::Pass => Ok(()),
            Mode::Fail => Err(StoreError::Backend("sink refused label_set".into())),
        }
    }
    fn on_label_deleted(&self, _stream: &StreamId, _label: &Label) -> Result<(), StoreError> {
        match *self.mode.lock().unwrap() {
            Mode::Pass => Ok(()),
            Mode::Fail => Err(StoreError::Backend("sink refused label_deleted".into())),
        }
    }
}

// ---- 1. observer receives commit failures --------------------------------

#[test]
fn observer_receives_sink_commit_failure_but_append_still_succeeds() {
    let be = Backends::open_in_memory();
    let sink = FailingSink::new("failing");
    let observer = Arc::new(RecordingObserver::default());

    let mut store = Store::builder(be.events.clone(), be.cache.clone())
        .sink(Arc::new(sink.clone()))
        .sink_failure_observer(observer.clone())
        .build();

    let s = StreamId::new("doc");
    sink.set_mode(Mode::Fail);

    // The append itself succeeds — the event is durable regardless of the
    // sink outcome. The sink dispatch failure is surfaced through the
    // observer instead.
    let committed = store
        .append(&s, "init", set_root(json(r#"{ "n": 1 }"#)), json("{}"))
        .unwrap();
    assert_eq!(committed.seq, SeqNo(1));

    let seen = observer.snapshot();
    assert_eq!(
        seen.len(),
        1,
        "expected one observer callback, got {}",
        seen.len()
    );
    let failure = &seen[0];
    assert_eq!(failure.sink_id, "failing");
    assert_eq!(failure.stream, s);
    assert_eq!(failure.seq, Some(SeqNo(1)));
    assert_eq!(failure.op, SinkOp::Commit);
    assert!(
        failure.error.contains("sink refused commit"),
        "expected error text to include sink message, got {:?}",
        failure.error
    );
}

#[test]
fn observer_is_not_called_when_dispatch_succeeds() {
    let be = Backends::open_in_memory();
    let sink = FailingSink::new("s");
    let observer = Arc::new(RecordingObserver::default());

    let mut store = Store::builder(be.events.clone(), be.cache.clone())
        .sink(Arc::new(sink.clone()))
        .sink_failure_observer(observer.clone())
        .build();

    let s = StreamId::new("doc");
    store
        .append(&s, "init", set_root(json(r#"{ "n": 1 }"#)), json("{}"))
        .unwrap();

    assert!(observer.snapshot().is_empty());
}

// ---- 2. observer receives label_set and label_deleted failures -----------

#[test]
fn observer_receives_label_set_and_label_deleted_failures() {
    let be = Backends::open_in_memory();
    let sink = FailingSink::new("s");
    let observer = Arc::new(RecordingObserver::default());

    let mut store = Store::builder(be.events.clone(), be.cache.clone())
        .sink(Arc::new(sink.clone()))
        .sink_failure_observer(observer.clone())
        .build();

    let s = StreamId::new("doc");
    store
        .append(&s, "init", set_root(json(r#"{ "n": 1 }"#)), json("{}"))
        .unwrap();
    // Clear the append's own successful dispatch from the observer log
    // (there is none, since the sink is still in Pass mode). Now flip.
    sink.set_mode(Mode::Fail);
    let label = Label::new("v1");

    // label_set should succeed at the backend, but the sink notification
    // fails and the observer gets a LabelSet event.
    store.label_set(&s, &label, SeqNo(1)).unwrap();
    // label_delete should also succeed at the backend; the sink
    // notification fails and the observer gets a LabelDeleted event.
    assert!(store.label_delete(&s, &label).unwrap());

    let seen = observer.snapshot();
    let ops: Vec<SinkOp> = seen.iter().map(|f| f.op).collect();
    assert!(
        ops.contains(&SinkOp::LabelSet),
        "expected LabelSet in observer log, got {ops:?}"
    );
    assert!(
        ops.contains(&SinkOp::LabelDeleted),
        "expected LabelDeleted in observer log, got {ops:?}"
    );
    // The LabelDeleted callback has no seq — that field is None.
    let deleted = seen.iter().find(|f| f.op == SinkOp::LabelDeleted).unwrap();
    assert_eq!(deleted.seq, None);
}

// ---- 3. cache_keep_latest trims automatically -----------------------------

#[test]
fn cache_keep_latest_bounds_cache_rows_per_stream() {
    let be = Backends::open_in_memory();
    let mut store = Store::builder(be.events.clone(), be.cache.clone())
        .cache_stride(1)
        .cache_keep_latest(2)
        .build();

    let s = StreamId::new("doc");
    store
        .append(&s, "init", set_root(json(r#"{ "n": 1 }"#)), json("{}"))
        .unwrap();
    for i in 2..=5 {
        store
            .append(
                &s,
                "bump",
                patch(json(&format!(r#"[{{ "op": "replace", "path": "/n", "value": {i} }}]"#))),
                json("{}"),
            )
            .unwrap();
    }

    // With stride=1 and keep_latest=2, only the two most-recent cache rows
    // (at_seq = 4 and 5) survive.
    let count = count_rows(&be, "SELECT COUNT(*) FROM cache WHERE stream = 'doc'");
    assert_eq!(count, 2, "expected exactly 2 cache rows, got {count}");

    // State reconstruction still works — cache misses just replay forward.
    assert_eq!(store.state(&s).unwrap(), json(r#"{ "n": 5 }"#));
}

#[test]
fn cache_keep_latest_default_none_keeps_pre_existing_behavior() {
    let be = Backends::open_in_memory();
    let mut store = Store::new(
        be.events.clone(),
        be.cache.clone(),
        Vec::new(),
        Vec::new(),
        StoreConfig {
            cache_stride: 1,
            ..StoreConfig::default()
        },
    );

    let s = StreamId::new("doc");
    store
        .append(&s, "init", set_root(json(r#"{ "n": 1 }"#)), json("{}"))
        .unwrap();
    for i in 2..=5 {
        store
            .append(
                &s,
                "bump",
                patch(json(&format!(r#"[{{ "op": "replace", "path": "/n", "value": {i} }}]"#))),
                json("{}"),
            )
            .unwrap();
    }

    // Without cache_keep_latest set, every stride hit lands as a row.
    let count = count_rows(&be, "SELECT COUNT(*) FROM cache WHERE stream = 'doc'");
    assert_eq!(count, 5);
}

// ---- 4. Store::prune_cache explicit maintenance --------------------------

#[test]
fn prune_cache_explicit_call_trims_to_keep_latest() {
    let be = Backends::open_in_memory();
    let mut store = Store::new(
        be.events.clone(),
        be.cache.clone(),
        Vec::new(),
        Vec::new(),
        StoreConfig {
            cache_stride: 1,
            ..StoreConfig::default()
        },
    );

    let s = StreamId::new("doc");
    store
        .append(&s, "init", set_root(json(r#"{ "n": 1 }"#)), json("{}"))
        .unwrap();
    for i in 2..=6 {
        store
            .append(
                &s,
                "bump",
                patch(json(&format!(r#"[{{ "op": "replace", "path": "/n", "value": {i} }}]"#))),
                json("{}"),
            )
            .unwrap();
    }

    store.prune_cache(&s, 3).unwrap();

    let count = count_rows(&be, "SELECT COUNT(*) FROM cache WHERE stream = 'doc'");
    assert_eq!(count, 3);
    // State reconstruction still works.
    assert_eq!(store.state(&s).unwrap(), json(r#"{ "n": 6 }"#));
}

// ---- 6. corruption surfaces from a raw-inserted bogus row -----------------

#[test]
fn decoding_a_corrupt_events_row_surfaces_as_corruption_variant() {
    let be = Backends::open_in_memory();
    let mut store = Store::new(
        be.events.clone(),
        be.cache.clone(),
        Vec::new(),
        Vec::new(),
        StoreConfig::default(),
    );
    let s = StreamId::new("doc");

    // Land one well-formed event so the stream exists and has a head.
    store
        .append(&s, "init", set_root(json(r#"{ "n": 1 }"#)), json("{}"))
        .unwrap();

    // Insert a second row directly with malformed JSON in the `patch`
    // column. This bypasses the append-only triggers (INSERT is allowed);
    // the trigger only blocks UPDATE/DELETE.
    be.db.call(|conn| {
        conn.execute(
            "INSERT INTO events (stream, seq, kind, patch, meta, at_ms) \
             VALUES ('doc', 2, 'bump', '{{ not valid json', '{}', 0)",
            [],
        )
    })
    .unwrap();

    // Reading forward hits the malformed row and surfaces as Corruption
    // rather than a generic Backend error.
    let err = store.read(&s, SeqNo(2), 1).unwrap_err();
    match err {
        StoreError::Corruption(msg) => {
            assert!(msg.contains("events.patch"), "unexpected message: {msg}");
        }
        other => panic!("expected Corruption, got {other:?}"),
    }
}

/// Append `n` events building an integer counter — seq 1 `add root = {n: 1}`,
/// then seq 2..n replacing `/n` with the seq index. Returns the final head.
fn append_counter(store: &mut DbStore, s: &StreamId, n: u64) -> SeqNo {
    store
        .append(s, "init", set_root(json(r#"{ "n": 1 }"#)), json("{}"))
        .unwrap();
    for i in 2..=n {
        store
            .append(
                s,
                "bump",
                patch(json(&format!(r#"[{{ "op": "replace", "path": "/n", "value": {i} }}]"#))),
                json("{}"),
            )
            .unwrap();
    }
    SeqNo(n)
}

// ---- 1. happy path ---------------------------------------------------------

#[test]
fn compact_stream_replaces_prefix_with_a_snapshot_event() {
    let be = Backends::open_in_memory();
    let mut store = open_facade(&be);
    let s = StreamId::new("doc");

    let head = append_counter(&mut store, &s, 5);
    assert_eq!(head, SeqNo(5));
    assert_eq!(store.state(&s).unwrap(), json(r#"{ "n": 5 }"#));

    let report = compact_stream(&be, &store, &s, SeqNo(3)).unwrap();
    assert_eq!(report.stream, s);
    assert_eq!(report.boundary, SeqNo(3));
    assert_eq!(report.head_at_compaction, SeqNo(5));

    // Head unchanged: only the prefix moved.
    assert_eq!(store.head(&s).unwrap(), Some(SeqNo(5)));

    // The snapshot event now occupies seq=3 with kind=SNAPSHOT_KIND and a
    // patch that materializes state@3 directly.
    let evs = store.read(&s, SeqNo(3), 1).unwrap();
    let snap = &evs[0];
    assert_eq!(snap.kind, SNAPSHOT_KIND);
    assert_eq!(
        snap.meta.get(SNAPSHOT_META_KEY_COMPACTED_AT_SEQ),
        Some(&json("3"))
    );
    assert_eq!(snapshot_meta_compacted_at_seq(snap), Some(SeqNo(3)));

    // Prefix events (seq 1, 2) are gone: the earliest event on the stream
    // is now the snapshot at seq=3.
    let earliest = store.read(&s, SeqNo(1), 1).unwrap();
    assert_eq!(earliest[0].seq, SeqNo(3));
    assert_eq!(earliest[0].kind, SNAPSHOT_KIND);
    // The full remaining log is [snapshot@3, ev@4, ev@5].
    let all = store.read(&s, SeqNo(1), 100).unwrap();
    assert_eq!(all.iter().map(|e| e.seq).collect::<Vec<_>>(), vec![SeqNo(3), SeqNo(4), SeqNo(5)]);

    // state_at at and after boundary reconstruct correctly.
    assert_eq!(store.state_at(&s, SeqNo(3)).unwrap(), json(r#"{ "n": 3 }"#));
    assert_eq!(store.state_at(&s, SeqNo(4)).unwrap(), json(r#"{ "n": 4 }"#));
    assert_eq!(store.state(&s).unwrap(), json(r#"{ "n": 5 }"#));
}

// ---- 2. boundary error on state_at and revert ------------------------------

#[test]
fn state_at_below_boundary_returns_seq_compacted() {
    let be = Backends::open_in_memory();
    let mut store = open_facade(&be);
    let s = StreamId::new("doc");

    append_counter(&mut store, &s, 5);
    compact_stream(&be, &store, &s, SeqNo(3)).unwrap();

    // seq 1 and 2 are below the boundary.
    for seq in [SeqNo(1), SeqNo(2)] {
        let err = store.state_at(&s, seq).unwrap_err();
        match err {
            StoreError::SeqCompacted { boundary, requested } => {
                assert_eq!(boundary, SeqNo(3));
                assert_eq!(requested, seq);
            }
            other => panic!("expected SeqCompacted, got {other:?}"),
        }
    }
    // seq == boundary is still fine.
    assert!(store.state_at(&s, SeqNo(3)).is_ok());
}

#[test]
fn an_expected_head_below_the_boundary_is_a_conflict() {
    let be = Backends::open_in_memory();
    let mut store = open_facade(&be);
    let s = StreamId::new("doc");

    append_counter(&mut store, &s, 5);
    compact_stream(&be, &store, &s, SeqNo(3)).unwrap();
    let before = store.read(&s, SeqNo(1), 10).unwrap();
    for expected in [0, 1, 2, 3, 4, 6] {
        let err = store
            .append_if_head(
                &s,
                "bump",
                set_root(json(r#"{ "n": 9 }"#)),
                json("{}"),
                SeqNo(expected),
            )
            .unwrap_err();
        assert!(
            matches!(
                err,
                StoreError::HeadConflict { expected: e, actual: Some(SeqNo(5)) } if e == SeqNo(expected)
            ),
            "expected a conflict at {expected}, got {err:?}"
        );
    }
    assert_eq!(store.read(&s, SeqNo(1), 10).unwrap(), before);
}

#[test]
fn revert_below_boundary_returns_seq_compacted() {
    let be = Backends::open_in_memory();
    let mut store = open_facade(&be);
    let s = StreamId::new("doc");

    append_counter(&mut store, &s, 5);
    compact_stream(&be, &store, &s, SeqNo(3)).unwrap();

    // revert to seq 1 fails because state_at(1) fails.
    let err = store.revert(&s, SeqNo(1)).unwrap_err();
    assert!(
        matches!(err, StoreError::SeqCompacted { boundary, .. } if boundary == SeqNo(3)),
        "expected SeqCompacted at boundary SeqNo(3), got {err:?}"
    );

    // revert to boundary itself works and appends a new event at seq=6.
    let committed = store.revert(&s, SeqNo(3)).unwrap();
    assert_eq!(committed.seq, SeqNo(6));
    assert_eq!(store.state(&s).unwrap(), json(r#"{ "n": 3 }"#));
}

// ---- 3. triggers stay in force after compaction ----------------------------

#[test]
fn append_only_triggers_are_restored_after_compaction() {
    let be = Backends::open_in_memory();
    let mut store = open_facade(&be);
    let s = StreamId::new("doc");

    append_counter(&mut store, &s, 5);
    compact_stream(&be, &store, &s, SeqNo(3)).unwrap();

    // Ordinary append still works (writer path is unaffected).
    store
        .append(
            &s,
            "bump",
            patch(json(r#"[{ "op": "replace", "path": "/n", "value": 6 }]"#)),
            json("{}"),
        )
        .unwrap();
    assert_eq!(store.state(&s).unwrap(), json(r#"{ "n": 6 }"#));

    // Raw UPDATE / DELETE on the events table are rejected by the reinstalled
    // triggers, just like before compaction ran.
    let update_err = be
        .db
        .call(|conn| conn.execute("UPDATE events SET kind = 'tampered' WHERE seq = 4", []))
        .unwrap_err();
    assert!(
        update_err.message().contains("append-only"),
        "expected the update to be turned down, got: {update_err:?}"
    );

    let delete_err = be
        .db
        .call(|conn| conn.execute("DELETE FROM events WHERE seq = 4", []))
        .unwrap_err();
    assert!(
        delete_err.message().contains("append-only"),
        "expected the deletion to be turned down, got: {delete_err:?}"
    );
}

// ---- 4. successive compactions --------------------------------------------

#[test]
fn compacting_twice_advances_the_boundary() {
    let be = Backends::open_in_memory();
    let mut store = open_facade(&be);
    let s = StreamId::new("doc");

    append_counter(&mut store, &s, 10);

    compact_stream(&be, &store, &s, SeqNo(3)).unwrap();
    assert_eq!(store.state_at(&s, SeqNo(3)).unwrap(), json(r#"{ "n": 3 }"#));

    // Second compaction: absorbs the previous snapshot and events 4..7 into a
    // new snapshot at seq=7.
    let report = compact_stream(&be, &store, &s, SeqNo(7)).unwrap();
    assert_eq!(report.boundary, SeqNo(7));

    let evs = store.read(&s, SeqNo(7), 1).unwrap();
    assert_eq!(evs[0].kind, SNAPSHOT_KIND);

    // seq 3 is now below the new boundary.
    let err = store.state_at(&s, SeqNo(3)).unwrap_err();
    assert!(matches!(err, StoreError::SeqCompacted { boundary, .. } if boundary == SeqNo(7)));

    // State at and after the new boundary is intact.
    assert_eq!(store.state_at(&s, SeqNo(7)).unwrap(), json(r#"{ "n": 7 }"#));
    assert_eq!(store.state(&s).unwrap(), json(r#"{ "n": 10 }"#));
}

// ---- 5. edge cases: bounds, up_to_seq == head -----------------------------

#[test]
fn compact_stream_at_head_leaves_only_the_snapshot() {
    let be = Backends::open_in_memory();
    let mut store = open_facade(&be);
    let s = StreamId::new("doc");

    append_counter(&mut store, &s, 5);
    compact_stream(&be, &store, &s, SeqNo(5)).unwrap();

    // Only the snapshot event remains.
    assert_eq!(store.head(&s).unwrap(), Some(SeqNo(5)));
    let evs = store.read(&s, SeqNo(1), 100).unwrap();
    assert_eq!(evs.len(), 1);
    assert_eq!(evs[0].seq, SeqNo(5));
    assert_eq!(evs[0].kind, SNAPSHOT_KIND);
    assert_eq!(store.state(&s).unwrap(), json(r#"{ "n": 5 }"#));

    // Subsequent appends land at seq=6+ and replay from the snapshot.
    store
        .append(
            &s,
            "bump",
            patch(json(r#"[{ "op": "replace", "path": "/n", "value": 6 }]"#)),
            json("{}"),
        )
        .unwrap();
    assert_eq!(store.state(&s).unwrap(), json(r#"{ "n": 6 }"#));
}

#[test]
fn compact_stream_rejects_seq_zero() {
    let be = Backends::open_in_memory();
    let mut store = open_facade(&be);
    let s = StreamId::new("doc");

    append_counter(&mut store, &s, 3);

    let err = compact_stream(&be, &store, &s, SeqNo::zero())
        .unwrap_err();
    match err {
        StoreError::Backend(msg) => assert!(msg.contains("up_to_seq must be > 0"), "{msg}"),
        other => panic!("expected Backend error, got {other:?}"),
    }
}

#[test]
fn compact_stream_rejects_seq_beyond_head() {
    let be = Backends::open_in_memory();
    let mut store = open_facade(&be);
    let s = StreamId::new("doc");

    append_counter(&mut store, &s, 3);

    let err = compact_stream(&be, &store, &s, SeqNo(10))
        .unwrap_err();
    match err {
        StoreError::SeqOutOfRange { head, requested } => {
            assert_eq!(head, Some(SeqNo(3)));
            assert_eq!(requested, SeqNo(10));
        }
        other => panic!("expected SeqOutOfRange, got {other:?}"),
    }
}

#[test]
fn compact_stream_rejects_unknown_stream() {
    let be = Backends::open_in_memory();
    let store = open_facade(&be);
    let s = StreamId::new("does-not-exist");

    let err = compact_stream(&be, &store, &s, SeqNo(1))
        .unwrap_err();
    assert!(
        matches!(err, StoreError::UnknownStream(ref sid) if sid == &s),
        "expected UnknownStream, got {err:?}"
    );
}

// ---- 6. cache pruning ------------------------------------------------------

#[test]
fn compact_stream_prunes_cache_entries_below_the_boundary() {
    // Use a small cache_stride so the writer path lays down cache rows we
    // can observe pre-/post-compaction.
    let be = Backends::open_in_memory();
    let mut store = Store::new(
        be.events.clone(),
        be.cache.clone(),
        Vec::new(),
        Vec::new(),
        StoreConfig {
            cache_stride: 1,
            ..StoreConfig::default()
        },
    );
    let s = StreamId::new("doc");

    append_counter(&mut store, &s, 6);

    // Sanity: cache has rows at every seq.
    let before_count = count_rows(&be, "SELECT COUNT(*) FROM cache WHERE stream = 'doc'");
    assert_eq!(before_count, 6);

    compact_stream(&be, &store, &s, SeqNo(4)).unwrap();

    // Cache rows at at_seq < 4 are pruned; rows at at_seq >= 4 survive.
    let below = count_rows(
        &be,
        "SELECT COUNT(*) FROM cache WHERE stream = 'doc' AND at_seq < 4",
    );
    let at_or_above = count_rows(
        &be,
        "SELECT COUNT(*) FROM cache WHERE stream = 'doc' AND at_seq >= 4",
    );
    assert_eq!(below, 0, "expected pre-boundary cache rows to be pruned");
    assert!(
        at_or_above >= 1,
        "expected at least one cache row at at_seq >= boundary (got {at_or_above})"
    );
}

// ---- 1. plain appends across two connections serialize correctly ---------

#[test]
fn plain_appends_from_two_connections_serialize_via_busy_timeout() {
    let dir = TempDir::new().unwrap();
    let path = dir.path().join("store.db");
    let be_a = Backends::open(&path);
    let be_b = Backends::open(&path);
    let mut store_a = open_facade(&be_a);
    let mut store_b = open_facade(&be_b);
    let s = StreamId::new("doc");

    // First writer establishes seq=1.
    store_a
        .append(&s, "init", set_root(json(r#"{ "n": 1 }"#)), json("{}"))
        .unwrap();

    // Second connection sees the write and assigns seq=2 via the backend's
    // gap-free MAX(seq)+1 allocation. busy_timeout=5000 keeps the contention
    // benign — no SQLITE_BUSY error even under back-to-back writes.
    let committed = store_b
        .append(
            &s,
            "bump",
            patch(json(r#"[{ "op": "replace", "path": "/n", "value": 2 }]"#)),
            json("{}"),
        )
        .unwrap();
    assert_eq!(committed.seq, SeqNo(2));

    // Both connections see the final state (WAL means the reader picks up
    // the writer's commit without a fresh open).
    assert_eq!(store_a.state(&s).unwrap(), json(r#"{ "n": 2 }"#));
    assert_eq!(store_b.state(&s).unwrap(), json(r#"{ "n": 2 }"#));
}

// ---- 2. append_if_head detects head drift across connections -------------

#[test]
fn append_if_head_conflicts_when_a_second_writer_moved_the_head() {
    let dir = TempDir::new().unwrap();
    let path = dir.path().join("store.db");
    let be_a = Backends::open(&path);
    let be_b = Backends::open(&path);
    let mut store_a = open_facade(&be_a);
    let mut store_b = open_facade(&be_b);
    let s = StreamId::new("doc");

    // Both writers agree the stream is empty (SeqNo::zero()). A commits first.
    let committed_a = store_a
        .append_if_head(
            &s,
            "init",
            set_root(json(r#"{ "n": 1 }"#)),
            json("{}"),
            SeqNo::zero(),
        )
        .unwrap();
    assert_eq!(committed_a.seq, SeqNo(1));

    // B still believes the stream is empty; its CAS must reject.
    let err = store_b
        .append_if_head(
            &s,
            "init-b",
            set_root(json(r#"{ "n": 100 }"#)),
            json("{}"),
            SeqNo::zero(),
        )
        .unwrap_err();
    match err {
        StoreError::HeadConflict { expected, actual } => {
            assert_eq!(expected, SeqNo::zero());
            assert_eq!(actual, Some(SeqNo(1)));
        }
        other => panic!("expected HeadConflict, got {other:?}"),
    }

    // A's write is the only one on the log.
    let evs = store_a.read(&s, SeqNo(1), 10).unwrap();
    assert_eq!(evs.len(), 1);
    assert_eq!(evs[0].kind, "init");
    assert_eq!(store_b.state(&s).unwrap(), json(r#"{ "n": 1 }"#));
}

#[test]
fn append_if_head_succeeds_when_expected_head_matches_the_current_head() {
    let dir = TempDir::new().unwrap();
    let path = dir.path().join("store.db");
    let be_a = Backends::open(&path);
    let be_b = Backends::open(&path);
    let mut store_a = open_facade(&be_a);
    let mut store_b = open_facade(&be_b);
    let s = StreamId::new("doc");

    // A initializes.
    store_a
        .append(&s, "init", set_root(json(r#"{ "n": 1 }"#)), json("{}"))
        .unwrap();

    // B reads via the shared file, computes expected_head=1, and CASes.
    let head = store_b.head(&s).unwrap().unwrap();
    assert_eq!(head, SeqNo(1));
    let committed = store_b
        .append_if_head(
            &s,
            "bump",
            patch(json(r#"[{ "op": "replace", "path": "/n", "value": 2 }]"#)),
            json("{}"),
            head,
        )
        .unwrap();
    assert_eq!(committed.seq, SeqNo(2));
    assert_eq!(store_a.state(&s).unwrap(), json(r#"{ "n": 2 }"#));
}

// ---- 3. HeadConflict edge cases: pre-flight state remap ------------------

#[test]
fn append_if_head_reports_unknown_stream_as_head_conflict() {
    let dir = TempDir::new().unwrap();
    let path = dir.path().join("store.db");
    let be = Backends::open(&path);
    let mut store = open_facade(&be);
    let s = StreamId::new("empty");

    // Caller expects head=SeqNo(5), but the stream has never been written to.
    // The pre-flight state read surfaces UnknownStream; the facade remaps to
    // HeadConflict so the caller sees one uniform failure mode.
    let err = store
        .append_if_head(&s, "init", set_root(json(r#"{ "n": 1 }"#)), json("{}"), SeqNo(5))
        .unwrap_err();
    match err {
        StoreError::HeadConflict { expected, actual } => {
            assert_eq!(expected, SeqNo(5));
            assert_eq!(actual, None);
        }
        other => panic!("expected HeadConflict, got {other:?}"),
    }
}

#[test]
fn append_if_head_reports_seq_out_of_range_as_head_conflict() {
    let dir = TempDir::new().unwrap();
    let path = dir.path().join("store.db");
    let be = Backends::open(&path);
    let mut store = open_facade(&be);
    let s = StreamId::new("doc");

    store
        .append(&s, "init", set_root(json(r#"{ "n": 1 }"#)), json("{}"))
        .unwrap();

    // Caller believes head=SeqNo(10), but head is really SeqNo(1). state_at(10)
    // returns SeqOutOfRange, which the facade remaps to HeadConflict.
    let err = store
        .append_if_head(
            &s,
            "bump",
            patch(json(r#"[{ "op": "replace", "path": "/n", "value": 2 }]"#)),
            json("{}"),
            SeqNo(10),
        )
        .unwrap_err();
    match err {
        StoreError::HeadConflict { expected, actual } => {
            assert_eq!(expected, SeqNo(10));
            assert_eq!(actual, Some(SeqNo(1)));
        }
        other => panic!("expected HeadConflict, got {other:?}"),
    }
}

// ---- 4. mixing append_if_head and plain append on one connection ---------

#[test]
fn append_if_head_and_append_can_be_interleaved_on_one_store() {
    let be = Backends::open_in_memory();
    let mut store = open_facade(&be);
    let s = StreamId::new("doc");

    // Start with a CAS init on an empty stream.
    store
        .append_if_head(
            &s,
            "init",
            set_root(json(r#"{ "n": 1 }"#)),
            json("{}"),
            SeqNo::zero(),
        )
        .unwrap();

    // A plain append lands at seq=2.
    store
        .append(
            &s,
            "bump",
            patch(json(r#"[{ "op": "replace", "path": "/n", "value": 2 }]"#)),
            json("{}"),
        )
        .unwrap();

    // Another CAS with the up-to-date head lands at seq=3.
    let committed = store
        .append_if_head(
            &s,
            "bump",
            patch(json(r#"[{ "op": "replace", "path": "/n", "value": 3 }]"#)),
            json("{}"),
            SeqNo(2),
        )
        .unwrap();
    assert_eq!(committed.seq, SeqNo(3));
    assert_eq!(store.state(&s).unwrap(), json(r#"{ "n": 3 }"#));
}

/// A store with the read model among its sinks.
fn store_with_read_model(be: &Backends) -> (DbStore, Arc<ReadModel>) {
    let rm = ReadModel::new(be, SqliteReadModel::new());
    let store = open_facade_with_sinks(be, vec![rm.clone()]);
    (store, rm)
}

// ---- 1. filters after catch_up -------------------------------------------

#[test]
fn query_filters_eq_in_and_or_like_after_catch_up() {
    let be = Backends::open_in_memory();
    let (mut store, rm) = store_with_read_model(&be);

    for (id, title, status) in [
        ("doc-1", "Alpha report", "open"),
        ("doc-2", "Beta memo", "closed"),
        ("doc-3", "Alpha memo", "open"),
    ] {
        let s = StreamId::new(id);
        store
            .append(
                &s,
                "created",
                set_root(json(&format!(
                    r#"{{ "title": "{title}", "status": "{status}" }}"#
                ))),
                json("{}"),
            )
            .unwrap();
    }

    // The sink has seen every append by now; a catch-up finds nothing to do.
    store.catch_up(rm.model.id()).unwrap();

    let ids_of = |rows: &[ReadModelRow]| -> Vec<String> {
        let mut v: Vec<String> = rows.iter().map(|r| r.stream.as_str().to_string()).collect();
        v.sort();
        v
    };

    // Eq
    let open_rows = rm
        .query(&Query {
            filter: Some(Filter::Eq("status".to_string(), json(r#""open""#))),
            ..Query::default()
        })
        .unwrap();
    assert_eq!(ids_of(&open_rows), vec!["doc-1", "doc-3"]);

    // In
    let in_rows = rm
        .query(&Query {
            filter: Some(Filter::In(
                "status".to_string(),
                vec![json(r#""closed""#), json(r#""nonexistent""#)],
            )),
            ..Query::default()
        })
        .unwrap();
    assert_eq!(ids_of(&in_rows), vec!["doc-2"]);

    // And
    let and_rows = rm
        .query(&Query {
            filter: Some(Filter::And(vec![
                Filter::Eq("status".to_string(), json(r#""open""#)),
                Filter::Like("title".to_string(), "Alpha%".to_string()),
            ])),
            ..Query::default()
        })
        .unwrap();
    assert_eq!(ids_of(&and_rows), vec!["doc-1", "doc-3"]);

    // Or
    let or_rows = rm
        .query(&Query {
            filter: Some(Filter::Or(vec![
                Filter::Eq("status".to_string(), json(r#""closed""#)),
                Filter::Eq("title".to_string(), json(r#""Alpha report""#)),
            ])),
            ..Query::default()
        })
        .unwrap();
    assert_eq!(ids_of(&or_rows), vec!["doc-1", "doc-2"]);

    // Like
    let like_rows = rm
        .query(&Query {
            filter: Some(Filter::Like("title".to_string(), "%memo".to_string())),
            ..Query::default()
        })
        .unwrap();
    assert_eq!(ids_of(&like_rows), vec!["doc-2", "doc-3"]);
}

// ---- 2. order_by + pagination ---------------------------------------------

#[test]
fn query_order_by_and_pagination() {
    let be = Backends::open_in_memory();
    let (mut store, rm) = store_with_read_model(&be);

    for (id, n) in [("s1", 3), ("s2", 1), ("s3", 2)] {
        let s = StreamId::new(id);
        store
            .append(&s, "created", set_root(json(&format!(r#"{{ "n": {n} }}"#))), json("{}"))
            .unwrap();
    }

    let ns_of = |rows: &[ReadModelRow]| -> Vec<i64> {
        rows.iter()
            .map(|r| r.state["n"].as_i64().unwrap())
            .collect()
    };

    let page1 = rm
        .query(&Query {
            order_by: Some(("n".to_string(), Order::Asc)),
            limit: 2,
            ..Query::default()
        })
        .unwrap();
    assert_eq!(ns_of(&page1), vec![1, 2]);

    let page2 = rm
        .query(&Query {
            order_by: Some(("n".to_string(), Order::Asc)),
            limit: 2,
            offset: 2,
            ..Query::default()
        })
        .unwrap();
    assert_eq!(ns_of(&page2), vec![3]);

    let desc = rm
        .query(&Query {
            order_by: Some(("n".to_string(), Order::Desc)),
            ..Query::default()
        })
        .unwrap();
    assert_eq!(ns_of(&desc), vec![3, 2, 1]);
}

// ---- 3. count / get / tail -------------------------------------------------

#[test]
fn count_get_and_tail() {
    let be = Backends::open_in_memory();
    let (mut store, rm) = store_with_read_model(&be);

    // Explicit, strictly increasing `at` via `import_event` so `tail`'s
    // `updated_at DESC` ordering is deterministic regardless of how fast
    // wall-clock `append` calls land in the same millisecond.
    for (id, n, at_ms) in [("s1", 1, 1_000_i64), ("s2", 2, 2_000), ("s3", 3, 3_000)] {
        let s = StreamId::new(id);
        store
            .import_event(
                &s,
                "created",
                set_root(json(&format!(r#"{{ "n": {n} }}"#))),
                json("{}"),
                Timestamp(at_ms),
            )
            .unwrap();
    }

    assert_eq!(rm.count(None, None, false).unwrap(), 3);
    assert_eq!(
        rm.count(Some(&Filter::Eq("n".to_string(), json("2"))), None, false)
            .unwrap(),
        1
    );

    let row = rm.get(&StreamId::new("s2")).unwrap().unwrap();
    assert_eq!(row.state, json(r#"{ "n": 2 }"#));
    assert_eq!(row.last_seq, SeqNo(1));
    assert_eq!(row.updated_at, Timestamp(2_000));

    assert!(rm.get(&StreamId::new("missing")).unwrap().is_none());

    let last = rm.tail(1).unwrap();
    assert_eq!(last.len(), 1);
    assert_eq!(last[0].stream, StreamId::new("s3"));

    let all = rm.tail(10).unwrap();
    let all_ids: Vec<String> = all.iter().map(|r| r.stream.as_str().to_string()).collect();
    assert_eq!(
        all_ids,
        vec!["s3".to_string(), "s2".to_string(), "s1".to_string()]
    );
}

// ---- 4. tombstone kind ------------------------------------------------------

#[test]
fn default_tombstone_kind_matches_store_delete() {
    let be = Backends::open_in_memory();
    // Note: SqliteReadModel::new() no longer requires with_tombstone_kind —
    // it defaults to the core-level TOMBSTONE_KIND, so Store::delete()
    // integrates without any extra wiring.
    let rm = ReadModel::new(&be, SqliteReadModel::new());
    let sinks: Vec<Arc<dyn ProjectionSink>> = vec![rm.clone()];
    let mut store = Store::new(
        be.events.clone(),
        be.cache.clone(),
        Vec::new(),
        sinks,
        StoreConfig::default(),
    );
    let s = StreamId::new("doc-1");

    store
        .append(&s, "created", set_root(json(r#"{ "title": "x" }"#)), json("{}"))
        .unwrap();
    assert!(rm.get(&s).unwrap().unwrap().live);

    store.delete(&s, json("{}")).unwrap();
    // The tombstone event used TOMBSTONE_KIND; the read-model's default
    // recognizes it and flips `live` to false.
    assert_eq!(rm.query(&Query::default()).unwrap().len(), 0);
    assert!(!rm.get(&s).unwrap().unwrap().live);
    let _ = TOMBSTONE_KIND; // touch the re-export so this stays a compile-time link
}

#[test]
fn without_tombstone_kind_disables_live_toggling() {
    let be = Backends::open_in_memory();
    let rm = ReadModel::new(&be, SqliteReadModel::new().without_tombstone_kind());
    let sinks: Vec<Arc<dyn ProjectionSink>> = vec![rm.clone()];
    let mut store = Store::new(
        be.events.clone(),
        be.cache.clone(),
        Vec::new(),
        sinks,
        StoreConfig::default(),
    );
    let s = StreamId::new("doc-1");

    store
        .append(&s, "created", set_root(json(r#"{ "title": "x" }"#)), json("{}"))
        .unwrap();
    // Even Store::delete() (whose kind is TOMBSTONE_KIND) leaves live=true
    // when tombstoning is disabled on this sink.
    store.delete(&s, json("{}")).unwrap();
    assert!(rm.get(&s).unwrap().unwrap().live);
}

#[test]
fn tombstone_kind_toggles_live_and_revives_on_further_append() {
    let be = Backends::open_in_memory();
    let rm = ReadModel::new(&be, SqliteReadModel::new().with_tombstone_kind("deleted"));
    let sinks: Vec<Arc<dyn ProjectionSink>> = vec![rm.clone()];
    let mut store = Store::new(
        be.events.clone(),
        be.cache.clone(),
        Vec::new(),
        sinks,
        StoreConfig::default(),
    );
    let s = StreamId::new("doc-1");

    store
        .append(&s, "created", set_root(json(r#"{ "title": "x" }"#)), json("{}"))
        .unwrap();

    let live_query = Query::default(); // include_dead = false
    assert_eq!(rm.query(&live_query).unwrap().len(), 1);

    store
        .append(&s, "deleted", patch(json("[]")), json("{}"))
        .unwrap();

    assert_eq!(rm.query(&live_query).unwrap().len(), 0);
    let with_dead = Query {
        include_dead: true,
        ..Query::default()
    };
    assert_eq!(rm.query(&with_dead).unwrap().len(), 1);
    assert!(!rm.get(&s).unwrap().unwrap().live);

    // A further, non-tombstone-kind append revives the row.
    store
        .append(
            &s,
            "updated",
            patch(json(r#"[{ "op": "replace", "path": "/title", "value": "y" }]"#)),
            json("{}"),
        )
        .unwrap();

    assert_eq!(rm.query(&live_query).unwrap().len(), 1);
    assert!(rm.get(&s).unwrap().unwrap().live);
}

// ---- 5. reopen survival + catch_up no-op -----------------------------------

#[test]
fn read_model_survives_reopen_and_catch_up_is_a_no_op() {
    let dir = TempDir::new().unwrap();
    let path = dir.path().join("store.db");
    let s = StreamId::new("doc-1");

    {
        let be = Backends::open(&path);
        let rm = ReadModel::new(&be, SqliteReadModel::new());
        let sinks: Vec<Arc<dyn ProjectionSink>> = vec![rm.clone()];
        let mut store = Store::with_checkpoint_backend(
            be.events.clone(),
            be.cache.clone(),
            Vec::new(),
            sinks,
            StoreConfig::default(),
            be.checkpoints.clone(),
        );

        store
            .append(&s, "created", set_root(json(r#"{ "n": 1 }"#)), json("{}"))
            .unwrap();

        assert_eq!(rm.count(None, None, false).unwrap(), 1);
    }

    {
        let be = Backends::open(&path);
        let rm = ReadModel::new(&be, SqliteReadModel::new());
        // The row is already there — the table itself is durable.
        let row = rm.get(&s).unwrap().unwrap();
        assert_eq!(row.state, json(r#"{ "n": 1 }"#));

        // catch_up against a freshly re-attached sink, with the checkpoint
        // backend restoring the persisted watermark, redrives nothing.
        let sinks: Vec<Arc<dyn ProjectionSink>> = vec![rm.clone()];
        let mut store = Store::with_checkpoint_backend(
            be.events.clone(),
            be.cache.clone(),
            Vec::new(),
            sinks,
            StoreConfig::default(),
            be.checkpoints.clone(),
        );
        let report = store.catch_up(rm.model.id()).unwrap();
        assert_eq!(report, CatchUpReport::empty());
    }
}

// ---- 6. field path validation ----------------------------------------------

#[test]
fn invalid_field_path_is_rejected() {
    let be = Backends::open_in_memory();
    let rm = ReadModel::new(&be, SqliteReadModel::new());

    let err = rm
        .query(&Query {
            filter: Some(Filter::Eq(
                "a'; DROP TABLE read_model; --".to_string(),
                json("1"),
            )),
            ..Query::default()
        })
        .unwrap_err();
    assert!(matches!(err, StoreError::Backend(_)));

    let err = rm.create_field_index("bad path!").unwrap_err();
    assert!(matches!(err, StoreError::Backend(_)));

    let err = rm
        .query(&Query {
            order_by: Some(("..bad..".to_string(), Order::Asc)),
            ..Query::default()
        })
        .unwrap_err();
    assert!(matches!(err, StoreError::Backend(_)));

    // The table is still intact — the rejected query above never reached the
    // backend.
    assert_eq!(rm.count(None, None, false).unwrap(), 0);
}

// ---- 7. out-of-order redelivery does not roll back -------------------------

#[test]
fn out_of_order_redelivery_does_not_roll_back_the_row() {
    let be = Backends::open_in_memory();
    let rm = ReadModel::new(&be, SqliteReadModel::new());
    let s = StreamId::new("doc-1");

    let newer_event = Event {
        seq: SeqNo(5),
        kind: "created".to_string(),
        patch: patch(json("[]")),
        meta: json("{}"),
        at: Timestamp(5_000),
    };
    rm.commit(&s, SeqNo(5), &json(r#"{ "n": 5 }"#), &newer_event)
        .unwrap();

    let older_event = Event {
        seq: SeqNo(2),
        kind: "created".to_string(),
        patch: patch(json("[]")),
        meta: json("{}"),
        at: Timestamp(2_000),
    };
    // Simulates a stale redelivery (e.g. a rebuild racing a live append).
    rm.commit(&s, SeqNo(2), &json(r#"{ "n": 2 }"#), &older_event)
        .unwrap();

    let row = rm.get(&s).unwrap().unwrap();
    assert_eq!(row.last_seq, SeqNo(5));
    assert_eq!(row.state, json(r#"{ "n": 5 }"#));
    assert_eq!(row.updated_at, Timestamp(5_000));

    // The same seq redelivered a second time is likewise a no-op.
    rm.commit(&s, SeqNo(5), &json(r#"{ "n": 999 }"#), &newer_event)
        .unwrap();
    let row = rm.get(&s).unwrap().unwrap();
    assert_eq!(row.state, json(r#"{ "n": 5 }"#));
}

// ---- 8. migration lands read_model on an existing v2 database -------------

const V2_DDL: &str = r#"
    CREATE TABLE IF NOT EXISTS events (
        stream TEXT NOT NULL,
        seq    INTEGER NOT NULL,
        kind   TEXT NOT NULL,
        patch  TEXT NOT NULL,
        meta   TEXT NOT NULL,
        at_ms  INTEGER NOT NULL,
        PRIMARY KEY (stream, seq)
    );
    CREATE INDEX IF NOT EXISTS ix_events_stream_at ON events(stream, at_ms);

    CREATE TABLE IF NOT EXISTS labels (
        stream TEXT NOT NULL,
        name   TEXT NOT NULL,
        at_seq INTEGER NOT NULL,
        PRIMARY KEY (stream, name)
    );

    CREATE TABLE IF NOT EXISTS cache (
        stream TEXT NOT NULL,
        at_seq INTEGER NOT NULL,
        state  TEXT NOT NULL,
        PRIMARY KEY (stream, at_seq)
    );

    CREATE TABLE IF NOT EXISTS sink_checkpoints (
        sink_id TEXT NOT NULL,
        stream  TEXT NOT NULL,
        at_seq  INTEGER NOT NULL,
        PRIMARY KEY (sink_id, stream)
    );
"#;

#[test]
fn opening_an_existing_v2_database_lands_the_read_model_table() {
    let dir = TempDir::new().unwrap();
    let path = dir.path().join("v2.db");

    {
        // Simulate a database written by a pre-read-model `ai-store-sqlite`
        // (user_version = 2, migrations 1+2 already applied).
        let conn = Connection::open(&path).unwrap();
        conn.execute_batch(V2_DDL).unwrap();
        conn.pragma_update(None, "user_version", 2i64).unwrap();
    }

    let be = Backends::open(&path);
    let rm = ReadModel::new(&be, SqliteReadModel::new());
    // Would error (`no such table: read_model`) if migration 3 had not run.
    let rows = rm.query(&Query::default()).unwrap();
    assert!(rows.is_empty());
}

#[test]
fn open_in_memory_builds_a_usable_store_via_deref() {
    let mut whole = WithReadModel::over(Backends::open_in_memory(), |b| b).unwrap();
    let store = &mut whole.store;
    let s = StreamId::new("doc");

    // `SqliteStore` derefs to `Store` — no `.store()` call needed for
    // ordinary facade methods.
    store
        .append(
            &s,
            "init",
            patch(json(r#"[{ "op": "add", "path": "", "value": { "n": 1 } }]"#)),
            json("{}"),
        )
        .unwrap();

    assert_eq!(store.state(&s).unwrap(), json(r#"{ "n": 1 }"#));
    assert_eq!(store.head(&s).unwrap(), Some(SeqNo(1)));
}

#[test]
fn open_persists_across_reopen_with_durable_checkpoints() {
    let dir = TempDir::new().unwrap();
    let path = dir.path().join("store.db");
    let s = StreamId::new("doc");

    {
        let mut whole = WithReadModel::over(Backends::open(&path), |b| b).unwrap();
        let store = &mut whole.store;
        store
            .append(
                &s,
                "init",
                patch(json(r#"[{ "op": "add", "path": "", "value": { "n": 0 } }]"#)),
                json("{}"),
            )
            .unwrap();
    }

    {
        let mut whole = WithReadModel::over(Backends::open(&path), |b| b).unwrap();
        let store = &mut whole.store;
        assert_eq!(store.state(&s).unwrap(), json(r#"{ "n": 0 }"#));
        assert_eq!(store.head(&s).unwrap(), Some(SeqNo(1)));
    }
}

#[test]
fn open_with_extends_the_builder_with_a_gate() {
    let mut whole = WithReadModel::over(Backends::open_in_memory(), |builder| {
        builder.gate(Arc::new(RejectKind {
            forbidden: "denied",
        }))
    })
    .unwrap();
    let store = &mut whole.store;
    let s = StreamId::new("doc");

    store
        .append(
            &s,
            "ok",
            patch(json(r#"[{ "op": "add", "path": "", "value": {} }]"#)),
            json("{}"),
        )
        .unwrap();

    let err = store
        .append(
            &s,
            "denied",
            patch(json(r#"[{ "op": "add", "path": "/x", "value": 1 }]"#)),
            json("{}"),
        )
        .unwrap_err();
    assert!(matches!(err, StoreError::Schema(_)));
    assert_eq!(store.head(&s).unwrap(), Some(SeqNo(1)));
}

#[test]
fn read_model_shares_the_sqlite_thread_and_answers_direct_queries_after_commit() {
    let mut whole = WithReadModel::over(Backends::open_in_memory(), |b| b).unwrap();
    let store = &mut whole.store;
    let s = StreamId::new("doc");

    // The read model is one of the sinks, so that it sees this append.
    store
        .append(
            &s,
            "init",
            patch(json(r#"[{ "op": "add", "path": "", "value": { "owner": "alice" } }]"#)),
            json("{}"),
        )
        .unwrap();

    let read_model = &whole.read_model;

    let row = read_model.get(&s).unwrap().unwrap();
    assert_eq!(row.state, json(r#"{ "owner": "alice" }"#));

    let hits = read_model
        .query(&Query {
            filter: Some(Filter::Eq(
                "owner".to_string(),
                json(r#""alice""#),
            )),
            ..Query::default()
        })
        .unwrap();
    assert_eq!(hits.len(), 1);
    assert_eq!(hits[0].stream, s);
}

// ---- a read model that no store feeds ----------------------------------

#[test]
fn read_model_detached_stays_silent_and_uses_a_distinct_id() {
    let mut whole = WithReadModel::over(Backends::open_in_memory(), |b| b).unwrap();
    let store = &mut whole.store;
    let s = StreamId::new("doc");

    store
        .append(
            &s,
            "init",
            patch(json(r#"[{ "op": "add", "path": "", "value": { "n": 1 } }]"#)),
            json("{}"),
        )
        .unwrap();

    // Auto-registered read model has already observed the append.
    assert!(whole.read_model.get(&s).unwrap().is_some());

    // Detached read model shares the same SQLite thread but was not
    // registered as a sink, so it observes nothing until manually driven.
    // The `read_model` table itself is shared — but the detached instance
    // observes state from the sink dispatch table just like the
    // registered one, so `get` here still resolves against the same
    // rows. What actually differs is the sink id (checkpoint scope).
    let detached = whole.read_model_detached();
    assert_eq!(detached.model.id(), "read-model:detached");
    assert_ne!(detached.model.id(), whole.read_model.model.id());
}

// ---- read model now attaches via `Store::attach_sink` -------------------

/// A no-op sink whose only purpose is to collide with the default read
/// model's sink id.
struct DummySink;

impl CommitSink for DummySink {
    fn id(&self) -> &str {
        "read-model"
    }
    fn commit(
        &self,
        _stream: &StreamId,
        _seq: SeqNo,
        _state: &Value,
        _event: &Event,
    ) -> Result<(), StoreError> {
        Ok(())
    }
}

#[test]
fn open_with_sink_id_colliding_with_default_read_model_is_rejected() {
    // The default read model is attached via `Store::attach_sink` (rather
    // than pre-registered on the builder) after `f` runs — a caller-supplied
    // sink using the same id ("read-model") now surfaces as a typed
    // `SinkAlreadyAttached` error instead of silently coexisting as a second
    // sink under one checkpoint key.
    // `SqliteStore` does not implement `Debug`, so `.unwrap_err()` is not
    // available — match explicitly instead.
    let err = match WithReadModel::over(Backends::open_in_memory(), |builder| {
        builder.sink(Arc::new(PlainSink { inner: DummySink }))
    }) {
        Ok(_) => panic!("expected SinkAlreadyAttached, got Ok"),
        Err(e) => e,
    };
    assert!(matches!(err, StoreError::SinkAlreadyAttached(id) if id == "read-model"));
}

#[test]
fn read_model_backfills_pre_existing_history_across_reopen() {
    let dir = TempDir::new().unwrap();
    let path = dir.path().join("store.db");
    let s = StreamId::new("doc");

    {
        let mut whole = WithReadModel::over(Backends::open(&path), |b| b).unwrap();
        let store = &mut whole.store;
        store
            .append(
                &s,
                "init",
                patch(json(r#"[{ "op": "add", "path": "", "value": { "owner": "alice" } }]"#)),
                json("{}"),
            )
            .unwrap();
    }

    // Re-opening builds a *fresh* `SqliteReadModel` instance and attaches it
    // via `Store::attach_sink` again — the row already on disk is exactly
    // what the backfill would (redundantly, harmlessly) reproduce, so this
    // pins that the attach path does not regress the reopen story `open_
    // persists_across_reopen_with_durable_checkpoints` already covers for
    // the event log itself.
    {
        let whole = WithReadModel::over(Backends::open(&path), |b| b).unwrap();
        let row = whole.read_model.get(&s).unwrap().unwrap();
        assert_eq!(row.state, json(r#"{ "owner": "alice" }"#));
    }
}

fn user_version(conn: &Connection) -> i64 {
    conn.query_row("PRAGMA user_version", [], |r| r.get(0))
        .unwrap()
}

#[test]
fn fresh_database_reaches_the_latest_migration() {
    let mut conn = Connection::open_in_memory().unwrap();
    migrate(&mut conn).unwrap();
    assert_eq!(user_version(&conn), MIGRATION_COUNT as i64);
}

#[test]
fn applying_twice_is_idempotent() {
    let mut conn = Connection::open_in_memory().unwrap();
    migrate(&mut conn).unwrap();
    migrate(&mut conn).unwrap();
    assert_eq!(user_version(&conn), MIGRATION_COUNT as i64);

    // Re-applying did not error on (or duplicate) the already-created
    // baseline table.
    let count: i64 = conn
        .query_row(
            "SELECT COUNT(*) FROM sqlite_master WHERE type = 'table' AND name = 'events'",
            [],
            |r| r.get(0),
        )
        .unwrap();
    assert_eq!(count, 1);
}

#[test]
fn preexisting_unversioned_tables_are_adopted_idempotently() {
    // Simulates a database created before schema versioning existed:
    // `user_version` defaults to 0, but the baseline tables already
    // exist (created by the original one-shot `SCHEMA` constant).
    let mut conn = Connection::open_in_memory().unwrap();
    conn.execute_batch(MIGRATION_1).unwrap();
    assert_eq!(user_version(&conn), 0);

    migrate(&mut conn).unwrap();
    assert_eq!(user_version(&conn), MIGRATION_COUNT as i64);

    let count: i64 = conn
        .query_row(
            "SELECT COUNT(*) FROM sqlite_master WHERE type = 'table' AND name = 'sink_checkpoints'",
            [],
            |r| r.get(0),
        )
        .unwrap();
    assert_eq!(count, 1);
}

#[test]
fn fresh_database_lands_the_read_model_table_and_index() {
    let mut conn = Connection::open_in_memory().unwrap();
    migrate(&mut conn).unwrap();

    let table_count: i64 = conn
        .query_row(
            "SELECT COUNT(*) FROM sqlite_master WHERE type = 'table' AND name = 'read_model'",
            [],
            |r| r.get(0),
        )
        .unwrap();
    assert_eq!(table_count, 1);

    let index_count: i64 = conn
        .query_row(
            "SELECT COUNT(*) FROM sqlite_master WHERE type = 'index' AND name = 'ix_read_model_updated'",
            [],
            |r| r.get(0),
        )
        .unwrap();
    assert_eq!(index_count, 1);
}

#[test]
fn fresh_database_lands_the_events_immutability_triggers() {
    let mut conn = Connection::open_in_memory().unwrap();
    migrate(&mut conn).unwrap();

    let trigger_count: i64 = conn
        .query_row(
            "SELECT COUNT(*) FROM sqlite_master WHERE type = 'trigger' \
             AND name IN ('trg_events_no_update', 'trg_events_no_delete')",
            [],
            |r| r.get(0),
        )
        .unwrap();
    assert_eq!(trigger_count, 2);
}

#[test]
fn update_on_events_is_rejected_by_the_trigger() {
    let mut conn = Connection::open_in_memory().unwrap();
    migrate(&mut conn).unwrap();
    conn.execute_batch(
        "INSERT INTO events (stream, seq, kind, patch, meta, at_ms) \
         VALUES ('doc', 1, 'init', '[]', '{}', 0)",
    )
    .unwrap();

    let err = conn
        .execute("UPDATE events SET kind = 'tampered' WHERE seq = 1", [])
        .unwrap_err();
    assert!(
        err.to_string().contains("append-only"),
        "expected an append-only rejection, got: {err}"
    );

    // The row is untouched — the trigger aborted before the write.
    let kind: String = conn
        .query_row("SELECT kind FROM events WHERE seq = 1", [], |r| r.get(0))
        .unwrap();
    assert_eq!(kind, "init");
}

#[test]
fn delete_on_events_is_rejected_by_the_trigger() {
    let mut conn = Connection::open_in_memory().unwrap();
    migrate(&mut conn).unwrap();
    conn.execute_batch(
        "INSERT INTO events (stream, seq, kind, patch, meta, at_ms) \
         VALUES ('doc', 1, 'init', '[]', '{}', 0)",
    )
    .unwrap();

    let err = conn
        .execute("DELETE FROM events WHERE seq = 1", [])
        .unwrap_err();
    assert!(
        err.to_string().contains("append-only"),
        "expected an append-only rejection, got: {err}"
    );

    let count: i64 = conn
        .query_row("SELECT COUNT(*) FROM events", [], |r| r.get(0))
        .unwrap();
    assert_eq!(count, 1);
}

#[test]
fn migrating_an_existing_v3_database_lands_the_triggers() {
    // Simulates a database written before migration 4 existed:
    // migrations 1-3 already applied, `user_version = 3`.
    let mut conn = Connection::open_in_memory().unwrap();
    for step in [MIGRATION_1, MIGRATION_2, MIGRATION_3] {
        conn.execute_batch(step).unwrap();
    }
    conn.pragma_update(None, "user_version", 3i64).unwrap();
    assert_eq!(user_version(&conn), 3);

    migrate(&mut conn).unwrap();
    assert_eq!(user_version(&conn), MIGRATION_COUNT as i64);

    conn.execute_batch(
        "INSERT INTO events (stream, seq, kind, patch, meta, at_ms) \
         VALUES ('doc', 1, 'init', '[]', '{}', 0)",
    )
    .unwrap();
    let err = conn
        .execute("DELETE FROM events WHERE seq = 1", [])
        .unwrap_err();
    assert!(err.to_string().contains("append-only"));
}

#[test]
fn future_schema_version_is_rejected() {
    let mut conn = Connection::open_in_memory().unwrap();
    migrate(&mut conn).unwrap();
    conn.pragma_update(None, "user_version", MIGRATION_COUNT as i64 + 1)
        .unwrap();

    let err = migrate(&mut conn).unwrap_err();
    match err {
        StoreError::Backend(msg) => assert!(
            msg.contains("newer"),
            "expected a 'newer than supported' message, got: {msg}"
        ),
        other => panic!("expected StoreError::Backend, got {other:?}"),
    }
}

// ---- queries beyond the plain ones -------------------------------------------

/// Five documents, two pairs of which share their `n`.
fn documents() -> (Backends, DbStore, Arc<ReadModel>) {
    let be = Backends::open_in_memory();
    let (mut store, rm) = store_with_read_model(&be);
    for (id, n, tag) in [
        ("a", 2, r#""x""#),
        ("b", 1, "null"),
        ("c", 2, r#""y""#),
        ("d", 1, r#""x""#),
        ("e", 3, r#""z""#),
    ] {
        let state = json(&format!(r#"{{ "n": {n}, "tag": {tag} }}"#));
        store
            .append(&StreamId::new(id), "created", set_root(state), json("{}"))
            .unwrap();
    }
    (be, store, rm)
}

fn names(rows: &[ReadModelRow]) -> Vec<String> {
    rows.iter().map(|r| r.stream.as_str().to_string()).collect()
}

fn matching(rm: &ReadModel, filter: Filter) -> Vec<String> {
    let mut found = names(
        &rm.query(&Query {
            filter: Some(filter),
            ..Query::default()
        })
        .unwrap(),
    );
    found.sort();
    found
}

#[test]
fn range_filters_negation_and_null() {
    let (_be, _store, rm) = documents();
    let n = || "n".to_string();
    assert_eq!(matching(&rm, Filter::Gt(n(), json("1"))), vec!["a", "c", "e"]);
    assert_eq!(matching(&rm, Filter::Gte(n(), json("2"))), vec!["a", "c", "e"]);
    assert_eq!(matching(&rm, Filter::Lt(n(), json("2"))), vec!["b", "d"]);
    assert_eq!(matching(&rm, Filter::Lte(n(), json("1"))), vec!["b", "d"]);
    assert_eq!(
        matching(&rm, Filter::Not(Box::new(Filter::Eq(n(), json("2"))))),
        vec!["b", "d", "e"]
    );
    assert_eq!(
        matching(&rm, Filter::Eq("tag".to_string(), Value::Null)),
        vec!["b"]
    );
    // Values of different types do not compare.
    assert!(matching(&rm, Filter::Gt("tag".to_string(), json("0"))).is_empty());
    assert!(matching(&rm, Filter::Gte("tag".to_string(), json("true"))).is_empty());
    assert!(matching(&rm, Filter::Lt(n(), json(r#""z""#))).is_empty());
    assert!(matching(&rm, Filter::Lte(n(), json("true"))).is_empty());
    assert!(matching(&rm, Filter::Gt("nowhere".to_string(), json("0"))).is_empty());
    assert_eq!(
        matching(&rm, Filter::Gt("tag".to_string(), json(r#""x""#))),
        vec!["c", "e"]
    );
    assert_eq!(matching(&rm, Filter::Gt(n(), json("1.5"))), vec!["a", "c", "e"]);
    // A condition or its negation holds, also where the field is missing.
    for filter in [
        || Filter::Eq("nowhere".to_string(), json("1")),
        || Filter::Gt("nowhere".to_string(), json("1")),
        || Filter::In("nowhere".to_string(), vec![json("1"), Value::Null]),
        || Filter::Like("nowhere".to_string(), "%".to_string()),
        || Filter::Eq("tag".to_string(), json(r#""x""#)),
        || Filter::Like("tag".to_string(), "x".to_string()),
        || Filter::And(vec![
            Filter::Eq("n".to_string(), json("2")),
            Filter::Not(Box::new(Filter::Lt("nowhere".to_string(), json("1")))),
        ]),
    ] {
        let mut all = matching(&rm, filter());
        all.extend(matching(&rm, Filter::Not(Box::new(filter()))));
        all.sort();
        assert_eq!(all, vec!["a", "b", "c", "d", "e"]);
    }
    assert_eq!(
        matching(
            &rm,
            Filter::Not(Box::new(Filter::Eq("nowhere".to_string(), json("1"))))
        )
        .len(),
        5
    );
    // Values of different types are not equal.
    assert!(matching(&rm, Filter::Eq(n(), json("true"))).is_empty());
    assert!(matching(&rm, Filter::Eq(n(), json(r#""1""#))).is_empty());
    assert_eq!(matching(&rm, Filter::Eq(n(), json("1"))), vec!["b", "d"]);
    // A field has to be a field path, whatever it is compared with.
    assert!(matches!(
        rm.query(&Query {
            filter: Some(Filter::In("bad path!".to_string(), Vec::new())),
            ..Query::default()
        }),
        Err(StoreError::Backend(_))
    ));
    // Nothing is in an empty list; all of no conditions hold, and none of them.
    assert!(matching(&rm, Filter::In(n(), Vec::new())).is_empty());
    assert_eq!(matching(&rm, Filter::And(Vec::new())).len(), 5);
    assert!(matching(&rm, Filter::Or(Vec::new())).is_empty());
}

#[test]
fn pages_after_a_cursor_miss_nothing_and_repeat_nothing() {
    let (_be, _store, rm) = documents();
    for order in [Order::Asc, Order::Desc] {
        let mut seen: Vec<String> = Vec::new();
        let mut after: Option<After> = None;
        loop {
            let rows = rm
                .query(&Query {
                    order_by: Some(("n".to_string(), order)),
                    after,
                    limit: 2,
                    ..Query::default()
                })
                .unwrap();
            let Some(last) = rows.last() else { break };
            after = Some(After {
                order_value: last.state["n"].clone(),
                stream: last.stream.clone(),
            });
            seen.extend(names(&rows));
        }
        let mut expected = vec!["b", "d", "a", "c", "e"];
        if order == Order::Desc {
            expected.reverse();
        }
        assert_eq!(seen, expected);
    }
}

#[test]
fn a_cursor_narrows_every_branch_of_a_condition() {
    let (_be, _store, rm) = documents();
    let rows = rm
        .query(&Query {
            filter: Some(Filter::Or(vec![
                Filter::Eq("n".to_string(), json("1")),
                Filter::Eq("n".to_string(), json("3")),
            ])),
            order_by: Some(("stream".to_string(), Order::Asc)),
            after: Some(After {
                order_value: json(r#""b""#),
                stream: StreamId::new("b"),
            }),
            include_dead: true,
            ..Query::default()
        })
        .unwrap();
    assert_eq!(names(&rows), vec!["d", "e"]);
}

#[test]
fn raw_conditions_narrow_a_query_and_its_count() {
    let (_be, _store, rm) = documents();
    let raw = || RawWhere {
        sql: "stream > json_extract(?, '$')".to_string(),
        params: vec![json(r#""b""#)],
    };
    let filter = Filter::Eq("n".to_string(), json("2"));
    assert_eq!(rm.count(Some(&filter), Some(&raw()), false).unwrap(), 1);
    let rows = rm
        .query(&Query {
            filter: Some(filter),
            raw_where: Some(raw()),
            ..Query::default()
        })
        .unwrap();
    assert_eq!(names(&rows), vec!["c"]);
}

#[test]
fn an_index_on_a_field_is_made_once() {
    let (be, _store, rm) = documents();
    rm.create_field_index("owner.name").unwrap();
    rm.create_field_index("owner.name").unwrap();
    let sql = "SELECT COUNT(*) FROM sqlite_master WHERE name = 'ix_rm_owner_name'";
    assert_eq!(count_rows(&be, sql), 1);
}

#[test]
fn a_member_is_found_by_its_whole_name_and_its_type() {
    let be = Backends::open_in_memory();
    let mut store = open_facade(&be);
    let s = StreamId::new("doc");
    for meta in [
        r#"{ "a.b": 1 }"#,
        r#"{ "a": { "b": 1 } }"#,
        r#"{ "a.b": "1" }"#,
        r#"{ "a.b": true }"#,
        r#"{ "say \"hi\"": 1 }"#,
    ] {
        store
            .append(&s, "k", patch(json("[]")), json(meta))
            .unwrap();
    }
    let hits = |field: &str, value: &str| -> Vec<u64> {
        store
            .read_by_meta(&s, field, &json(value), SeqNo(1), 10)
            .unwrap()
            .iter()
            .map(|e| e.seq.0)
            .collect()
    };
    assert_eq!(hits("a.b", "1"), vec![1]);
    assert_eq!(hits("a.b", r#""1""#), vec![3]);
    assert_eq!(hits("a.b", "true"), vec![4]);
    assert_eq!(hits(r#"say "hi""#, "1"), vec![5]);
}

#[test]
fn failures_of_sqlite_are_told_apart() {
    let dir = TempDir::new().unwrap();

    // Another connection is writing.
    let path = dir.path().join("shared.db");
    let conn = Connection::open(&path).unwrap();
    conn.execute_batch("CREATE TABLE t (x)").unwrap();
    let other = Connection::open(&path).unwrap();
    other.busy_timeout(std::time::Duration::from_millis(0)).unwrap();
    conn.execute_batch("BEGIN IMMEDIATE").unwrap();
    let err = other.execute_batch("BEGIN IMMEDIATE").map_err(of_sqlite);
    assert!(matches!(err, Err(StoreError::Busy(_))));

    // A directory that is not there.
    let err = Connection::open(dir.path().join("no/such/place.db")).map_err(of_sqlite);
    assert!(matches!(err, Err(StoreError::Storage(_))));

    // A statement that makes no sense.
    let err = other.execute_batch("SELEKT 1").map_err(of_sqlite);
    assert!(matches!(err, Err(StoreError::Backend(_))));

    assert!(matches!(
        to_store_err(Some(11), String::new()),
        StoreError::Corruption(_)
    ));
    assert!(matches!(
        to_store_err(Some(26), String::new()),
        StoreError::Corruption(_)
    ));
    assert!(matches!(
        to_store_err(Some(-5), "x".to_string()),
        StoreError::Backend(m) if m == "x"
    ));
    assert!(matches!(
        to_store_err(None, "x".to_string()),
        StoreError::Backend(m) if m == "x"
    ));
}

#[test]
fn the_first_event_of_a_compacted_stream_names_its_boundary() {
    assert_eq!(boundary_of(None), None);
    assert_eq!(boundary_of(Some((1, "init".to_string()))), None);
    assert_eq!(
        boundary_of(Some((3, SNAPSHOT_KIND.to_string()))),
        Some(SeqNo(3))
    );
}

#[test]
fn compaction_keeps_the_states_from_its_boundary_on() {
    let be = Backends::open_in_memory();
    let mut store = open_facade(&be);
    let s = StreamId::new("doc");
    append_counter(&mut store, &s, 6);
    let before: Vec<Value> = (3..=6)
        .map(|n| store.state_at(&s, SeqNo(n)).unwrap())
        .collect();
    compact_stream(&be, &store, &s, SeqNo(3)).unwrap();
    let after: Vec<Value> = (3..=6)
        .map(|n| store.state_at(&s, SeqNo(n)).unwrap())
        .collect();
    assert_eq!(before, after);

    // Compacting to where the stream was compacted to already is refused no
    // more than the first time, and what lies before it stays out of reach.
    compact_stream(&be, &store, &s, SeqNo(3)).unwrap();
    assert_eq!(store.state_at(&s, SeqNo(6)).unwrap(), after[3]);
    let err = compact_stream(&be, &store, &s, SeqNo(2)).unwrap_err();
    assert!(matches!(
        err,
        StoreError::SeqCompacted {
            boundary: SeqNo(3),
            requested: SeqNo(2)
        }
    ));
}
