//! The store: the one way to write events, and the place to read them back.
use std::sync::Arc;

use vstd::prelude::*;

use crate::backend::{CacheBackend, CheckpointBackend, Entries, EventBackend};
use crate::dispatcher::{saved_marks, Marks, SinkDispatcher};
use crate::event::EventView;
use crate::gate::SchemaGate;
use crate::id::Timestamp;
use crate::id::SeqNo;
use crate::log::LogView;
use crate::mem::checkpoint::MemCheckpointBackend;
use crate::sink::{ProjectionSink, SinkFailureObserver};
use crate::upcaster::{Upcaster, UpcastingBackend};

pub mod builder;
pub mod labels;
pub mod laws;
pub mod lifecycle;
pub mod read;
pub mod request_laws;
pub mod sink_laws;
pub mod write;
pub mod write_laws;

verus! {

/// The kind of the event that a revert writes.
pub const REVERT_KIND: &'static str = "reverted";

/// The kind of the event that compaction leaves at the boundary.
pub const SNAPSHOT_KIND: &'static str = "compacted";

/// The kind of the event that marks a stream as deleted.
pub const TOMBSTONE_KIND: &'static str = "tombstoned";

/// How an event is to be written.
pub enum WriteMode {
    /// As the next event, at the time of the call.
    Append,
    /// As the next event, at a time in the past.
    Import(Timestamp),
    /// As the next event if the head is where the writer expects it; zero stands
    /// for a stream without events.
    AppendIfHead(SeqNo),
}

/// What can be set about a store.
#[derive(Debug)]
pub struct StoreConfig {
    /// The state goes to the cache at every coordinate that this divides; zero
    /// turns the cache off.
    pub cache_stride: u64,
    /// How many cached states of a stream to keep, `None` for all of them.
    pub cache_keep_latest: Option<usize>,
}

impl Clone for StoreConfig {
    fn clone(&self) -> (r: Self)
        ensures
            r == *self,
    {
        StoreConfig { cache_stride: self.cache_stride, cache_keep_latest: self.cache_keep_latest }
    }
}

impl Default for StoreConfig {
    fn default() -> (r: Self)
        ensures
            r.cache_stride == 64,
            r.cache_keep_latest is None,
    {
        StoreConfig { cache_stride: 64, cache_keep_latest: None }
    }
}

/// The store.
pub struct Store<E: EventBackend, C: CacheBackend, K: CheckpointBackend> {
    /// The log, read through the upcasters.
    events: UpcastingBackend<E>,
    /// The cache of states.
    cache: C,
    /// The checks that a write has to pass, in order.
    gates: Vec<Arc<dyn SchemaGate>>,
    /// The sinks.
    dispatcher: SinkDispatcher<K>,
    /// The settings.
    config: StoreConfig,
}

impl<E: EventBackend, C: CacheBackend, K: CheckpointBackend> Store<E, C, K> {
    /// The log, read through the upcasters.
    pub closed spec fn events(&self) -> UpcastingBackend<E> {
        self.events
    }

    /// The cache of states.
    pub closed spec fn cache(&self) -> C {
        self.cache
    }

    /// The checks that a write has to pass, in order.
    pub closed spec fn gates(&self) -> Vec<Arc<dyn SchemaGate>> {
        self.gates
    }

    /// The sinks.
    pub closed spec fn dispatcher(&self) -> SinkDispatcher<K> {
        self.dispatcher
    }

    /// The settings.
    pub closed spec fn config(&self) -> StoreConfig {
        self.config
    }

    /// The store and its parts are in order.
    pub open spec fn wf(&self) -> bool {
        &&& self.events().inner.wf()
        &&& self.cache().wf()
        &&& self.dispatcher().wf()
    }

    /// Neither the log nor the cache fails on its own account.
    pub open spec fn reliable(&self) -> bool {
        self.events().inner.reliable() && self.cache().reliable()
    }

    /// What is stored.
    pub open spec fn log(&self) -> LogView {
        self.events().inner.log()
    }

    /// The events of `stream` as they are read.
    pub open spec fn events_of(&self, stream: Seq<char>) -> Seq<EventView> {
        self.events().events(stream)
    }

    /// The coordinate that `stream` was compacted to.
    pub open spec fn boundary(&self, stream: Seq<char>) -> Option<u64> {
        self.events().inner.boundary(stream)
    }

    /// The cached states of `stream`.
    pub open spec fn entries(&self, stream: Seq<char>) -> Entries {
        self.cache().entries(stream)
    }

    /// How far the sinks have come.
    pub open spec fn marks(&self) -> Marks {
        self.dispatcher().marks()
    }

    /// What does not change while a store is used: its gates, its upcasters, its
    /// settings, its sinks and their observer, and the nature of its backends.
    pub open spec fn same_setup(&self, earlier: &Self) -> bool {
        &&& self.gates() == earlier.gates()
        &&& self.events().upcasters == earlier.events().upcasters
        &&& self.config() == earlier.config()
        &&& self.dispatcher().sinks() == earlier.dispatcher().sinks()
        &&& self.dispatcher().observer() == earlier.dispatcher().observer()
        &&& self.events().inner.reliable() == earlier.events().inner.reliable()
        &&& self.cache().reliable() == earlier.cache().reliable()
        &&& self.marks().durable == earlier.marks().durable
        &&& self.marks().sure == earlier.marks().sure
        &&& forall|stream: Seq<char>| #[trigger] self.boundary(stream) == earlier.boundary(stream)
    }

    /// The log has not changed.
    pub open spec fn same_log(&self, earlier: &Self) -> bool {
        self.log() == earlier.log()
    }

    /// The cache has not changed.
    pub open spec fn same_cache(&self, earlier: &Self) -> bool {
        forall|stream: Seq<char>| #[trigger] self.entries(stream) == earlier.entries(stream)
    }

    /// A store with every collaborator given.
    pub fn assemble(
        events: E,
        cache: C,
        gates: Vec<Arc<dyn SchemaGate>>,
        sinks: Vec<Arc<dyn ProjectionSink>>,
        config: StoreConfig,
        checkpoint_backend: Option<K>,
        observer: Option<Arc<dyn SinkFailureObserver>>,
        upcasters: Vec<Arc<dyn Upcaster>>,
    ) -> (r: Self)
        requires
            events.wf(),
            cache.wf(),
            checkpoint_backend matches Some(b) ==> b.wf(),
        ensures
            r.wf(),
            r.events().inner == events,
            r.events().upcasters == upcasters,
            r.cache() == cache,
            r.gates() == gates,
            r.config() == config,
            r.dispatcher().sinks() == sinks@,
            r.dispatcher().observer() == observer,
            r.dispatcher().caught_up() == Set::<Seq<char>>::empty(),
            r.marks() == (Marks {
                memory: Map::empty(),
                saved: saved_marks(checkpoint_backend),
                durable: checkpoint_backend is Some,
                sure: checkpoint_backend matches Some(b) ==> b.reliable(),
            }),
    {
        Store {
            events: UpcastingBackend::new(events, upcasters),
            cache,
            gates,
            dispatcher: SinkDispatcher::new(sinks, checkpoint_backend, observer),
            config,
        }
    }

    /// A store whose checkpoints are kept in `checkpoint_backend`.
    pub fn with_checkpoint_backend(
        events: E,
        cache: C,
        gates: Vec<Arc<dyn SchemaGate>>,
        sinks: Vec<Arc<dyn ProjectionSink>>,
        config: StoreConfig,
        checkpoint_backend: K,
    ) -> (r: Self)
        requires
            events.wf(),
            cache.wf(),
            checkpoint_backend.wf(),
        ensures
            r.wf(),
            r.events().inner == events,
            r.events().upcasters@.len() == 0,
            r.cache() == cache,
            r.gates() == gates,
            r.config() == config,
            r.dispatcher().sinks() == sinks@,
            r.dispatcher().observer() is None,
            r.dispatcher().caught_up() == Set::<Seq<char>>::empty(),
            r.marks() == (Marks {
                memory: Map::empty(),
                saved: saved_marks(Some(checkpoint_backend)),
                durable: true,
                sure: checkpoint_backend.reliable(),
            }),
    {
        Store::assemble(
            events,
            cache,
            gates,
            sinks,
            config,
            Some(checkpoint_backend),
            None,
            Vec::new(),
        )
    }

    /// The log as it is stored.
    pub fn event_backend(&self) -> (r: &E)
        ensures
            *r == self.events().inner,
    {
        &self.events.inner
    }

    /// The cache.
    pub fn cache_backend(&self) -> (r: &C)
        ensures
            *r == self.cache(),
    {
        &self.cache
    }

    /// The backends, for another store to go on with.
    pub fn into_backends(self) -> (r: (E, C, Option<K>))
        requires
            self.wf(),
        ensures
            r.0 == self.events().inner,
            r.1 == self.cache(),
            r.2 is Some == self.marks().durable,
            saved_marks(r.2) == self.marks().saved,
            r.2 matches Some(b) ==> b.wf() && b.reliable() == self.marks().sure,
    {
        (self.events.inner, self.cache, self.dispatcher.into_checkpoint_backend())
    }
}

impl<E: EventBackend, C: CacheBackend> Store<E, C, MemCheckpointBackend> {
    /// A store whose checkpoints last as long as the store.
    pub fn new(
        events: E,
        cache: C,
        gates: Vec<Arc<dyn SchemaGate>>,
        sinks: Vec<Arc<dyn ProjectionSink>>,
        config: StoreConfig,
    ) -> (r: Self)
        requires
            events.wf(),
            cache.wf(),
        ensures
            r.wf(),
            r.events().inner == events,
            r.events().upcasters@.len() == 0,
            r.cache() == cache,
            r.gates() == gates,
            r.config() == config,
            r.dispatcher().sinks() == sinks@,
            r.dispatcher().observer() is None,
            r.dispatcher().caught_up() == Set::<Seq<char>>::empty(),
            r.marks() == (Marks {
                memory: Map::empty(),
                saved: Map::empty(),
                durable: false,
                sure: true,
            }),
    {
        Store::assemble(events, cache, gates, sinks, config, None, None, Vec::new())
    }
}

} // verus!
