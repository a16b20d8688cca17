//! An append-only event store for JSON documents.
//!
//! A stream is a log of events, each of which carries a JSON Patch; the state
//! of a stream at a coordinate is what its patches up to there produce. Restoring
//! an earlier state appends the reverse patch. Labels name coordinates, gates
//! check writes before they reach the log, and sinks follow the log.

pub mod backend;
pub mod dispatch;
pub mod dispatcher;
pub mod error;
pub mod event;
pub mod faults;
pub mod gate;
pub mod id;
pub mod json;
pub mod json_laws;
pub mod kind_gate;
pub mod legacy;
pub mod log;
pub mod mem;
pub mod patch;
pub mod projection;
pub mod sink;
pub mod sqlite;
pub mod state;
pub mod store;
pub mod text;
pub mod text_map;
pub mod upcaster;

pub use crate::backend::{CacheBackend, CheckpointBackend, EventBackend};
pub use crate::dispatch::Dispatch;
pub use crate::error::{SchemaViolation, StoreError};
pub use crate::event::{Committed, Event, NewEvent};
pub use crate::gate::{GateCtx, SchemaGate};
pub use crate::id::{Label, SeqNo, StreamId, Timestamp};
pub use crate::kind_gate::KindGate;
pub use crate::mem::{MemCacheBackend, MemCheckpointBackend, MemEventBackend};
pub use crate::sink::{
    CatchUpFailure, CatchUpReport, CommitSink, PlainSink, ProjectionSink, SinkDispatchFailure,
    SinkFailureObserver, SinkOp,
};
pub use crate::state::{empty_state, replay_from};
pub use crate::store::builder::StoreBuilder;
pub use crate::store::{
    Store, StoreConfig, WriteMode, REVERT_KIND, SNAPSHOT_KIND, TOMBSTONE_KIND,
};
pub use crate::upcaster::{Upcaster, SCHEMA_VERSION_META_KEY};
pub use json_patch::Patch;
