//! Putting a store together, one collaborator at a time.
use std::sync::Arc;

use vstd::prelude::*;

use crate::backend::{CacheBackend, CheckpointBackend, EventBackend};
use crate::dispatcher::{present, saved_marks, with_last, Marks};
use crate::gate::SchemaGate;
use crate::mem::checkpoint::MemCheckpointBackend;
use crate::sink::{ProjectionSink, SinkFailureObserver};
use crate::store::{Store, StoreConfig};
use crate::upcaster::Upcaster;

verus! {

/// What a store is to be built from. [`Store::builder`] starts one.
pub struct StoreBuilder<E: EventBackend, C: CacheBackend, K: CheckpointBackend> {
    events: E,
    cache: C,
    gates: Vec<Arc<dyn SchemaGate>>,
    sinks: Vec<Arc<dyn ProjectionSink>>,
    checkpoint_backend: Option<K>,
    observer: Option<Arc<dyn SinkFailureObserver>>,
    upcasters: Vec<Arc<dyn Upcaster>>,
    config: StoreConfig,
}

/// What a [`StoreBuilder`] holds.
pub struct Plan<E, C, K> {
    /// The log.
    pub events: E,
    /// The cache.
    pub cache: C,
    /// The gates, in order.
    pub gates: Seq<Arc<dyn SchemaGate>>,
    /// The sinks, in order.
    pub sinks: Seq<Arc<dyn ProjectionSink>>,
    /// Where checkpoints are kept, if they are to outlive the store.
    pub checkpoint_backend: Option<K>,
    /// Who is told of sinks that fail.
    pub observer: Option<Arc<dyn SinkFailureObserver>>,
    /// The upcasters, in order.
    pub upcasters: Seq<Arc<dyn Upcaster>>,
    /// The settings.
    pub config: StoreConfig,
}

impl<E: EventBackend, C: CacheBackend, K: CheckpointBackend> View for StoreBuilder<E, C, K> {
    type V = Plan<E, C, K>;

    closed spec fn view(&self) -> Plan<E, C, K> {
        Plan {
            events: self.events,
            cache: self.cache,
            gates: self.gates@,
            sinks: self.sinks@,
            checkpoint_backend: self.checkpoint_backend,
            observer: self.observer,
            upcasters: self.upcasters@,
            config: self.config,
        }
    }
}

impl<E: EventBackend, C: CacheBackend> StoreBuilder<E, C, MemCheckpointBackend> {
    /// A builder over the two backends that every store has.
    pub(crate) fn new(events: E, cache: C) -> (r: Self)
        ensures
            r@.events == events,
            r@.cache == cache,
            r@.gates.len() == 0,
            r@.sinks.len() == 0,
            r@.checkpoint_backend is None,
            r@.observer is None,
            r@.upcasters.len() == 0,
            r@.config.cache_stride == 64,
            r@.config.cache_keep_latest is None,
    {
        StoreBuilder {
            events,
            cache,
            gates: Vec::new(),
            sinks: Vec::new(),
            checkpoint_backend: None,
            observer: None,
            upcasters: Vec::new(),
            config: StoreConfig::default(),
        }
    }
}

impl<E: EventBackend, C: CacheBackend> Store<E, C, MemCheckpointBackend> {
    /// Start building a store over the two backends that every store has.
    pub fn builder(events: E, cache: C) -> (r: StoreBuilder<E, C, MemCheckpointBackend>)
        ensures
            r@.events == events,
            r@.cache == cache,
            r@.gates.len() == 0,
            r@.sinks.len() == 0,
            r@.checkpoint_backend is None,
            r@.observer is None,
            r@.upcasters.len() == 0,
            r@.config.cache_stride == 64,
            r@.config.cache_keep_latest is None,
    {
        StoreBuilder::new(events, cache)
    }
}

impl<E: EventBackend, C: CacheBackend, K: CheckpointBackend> StoreBuilder<E, C, K> {
    /// Add a gate, to be asked after those that are there.
    pub fn gate(self, gate: Arc<dyn SchemaGate>) -> (r: Self)
        ensures
            r@ == (Plan { gates: r@.gates, ..self@ }),
            r@.gates.len() == self@.gates.len() + 1,
            r@.gates.last() == gate,
            r@.gates.drop_last() == self@.gates,
    {
        let last = (gate,);
        let ghost before = self@.gates;
        let mut b = self;
        let mut all: Vec<Arc<dyn SchemaGate>> = Vec::new();
        std::mem::swap(&mut all, &mut b.gates);
        b.gates = with_last(all, last);
        proof {
            assert(b@.gates.drop_last() =~= before);
        }
        b
    }

    /// Add a sink, to be told after those that are there.
    pub fn sink(self, sink: Arc<dyn ProjectionSink>) -> (r: Self)
        ensures
            r@ == (Plan { sinks: r@.sinks, ..self@ }),
            r@.sinks.len() == self@.sinks.len() + 1,
            r@.sinks.last() == sink,
            r@.sinks.drop_last() == self@.sinks,
    {
        let last = (sink,);
        let ghost before = self@.sinks;
        let mut b = self;
        let mut all: Vec<Arc<dyn ProjectionSink>> = Vec::new();
        std::mem::swap(&mut all, &mut b.sinks);
        b.sinks = with_last(all, last);
        proof {
            assert(b@.sinks.drop_last() =~= before);
        }
        b
    }

    /// Add an upcaster, to be applied after those that are there.
    pub fn upcaster(self, upcaster: Arc<dyn Upcaster>) -> (r: Self)
        ensures
            r@ == (Plan { upcasters: r@.upcasters, ..self@ }),
            r@.upcasters.len() == self@.upcasters.len() + 1,
            r@.upcasters.last() == upcaster,
            r@.upcasters.drop_last() == self@.upcasters,
    {
        let last = (upcaster,);
        let ghost before = self@.upcasters;
        let mut b = self;
        let mut all: Vec<Arc<dyn Upcaster>> = Vec::new();
        std::mem::swap(&mut all, &mut b.upcasters);
        b.upcasters = with_last(all, last);
        proof {
            assert(b@.upcasters.drop_last() =~= before);
        }
        b
    }

    /// Keep checkpoints in `checkpoints`.
    pub fn checkpoints<L: CheckpointBackend>(self, checkpoints: L) -> (r: StoreBuilder<E, C, L>)
        ensures
            r@ == (Plan {
                events: self@.events,
                cache: self@.cache,
                gates: self@.gates,
                sinks: self@.sinks,
                checkpoint_backend: Some(checkpoints),
                observer: self@.observer,
                upcasters: self@.upcasters,
                config: self@.config,
            }),
    {
        StoreBuilder {
            events: self.events,
            cache: self.cache,
            gates: self.gates,
            sinks: self.sinks,
            checkpoint_backend: Some(checkpoints),
            observer: self.observer,
            upcasters: self.upcasters,
            config: self.config,
        }
    }

    /// Tell `observer` of sinks that fail.
    pub fn sink_failure_observer(self, observer: Arc<dyn SinkFailureObserver>) -> (r: Self)
        ensures
            r@ == (Plan { observer: r@.observer, ..self@ }),
            r@.observer matches Some(o) && o == observer,
    {
        let only = (observer,);
        let mut b = self;
        b.observer = present(only);
        b
    }

    /// Replace the settings.
    pub fn config(self, config: StoreConfig) -> (r: Self)
        ensures
            r@ == (Plan { config, ..self@ }),
    {
        let mut b = self;
        b.config = config;
        b
    }

    /// Put the state into the cache at every coordinate that `stride` divides.
    pub fn cache_stride(self, stride: u64) -> (r: Self)
        ensures
            r@ == (Plan {
                config: StoreConfig { cache_stride: stride, ..self@.config },
                ..self@
            }),
    {
        let mut b = self;
        b.config.cache_stride = stride;
        b
    }

    /// Keep the `keep` most recent cached states of a stream.
    pub fn cache_keep_latest(self, keep: usize) -> (r: Self)
        ensures
            r@ == (Plan {
                config: StoreConfig { cache_keep_latest: Some(keep), ..self@.config },
                ..self@
            }),
    {
        let mut b = self;
        b.config.cache_keep_latest = Some(keep);
        b
    }

    /// Build the store.
    pub fn build(self) -> (r: Store<E, C, K>)
        requires
            self@.events.wf(),
            self@.cache.wf(),
            self@.checkpoint_backend matches Some(b) ==> b.wf(),
        ensures
            r.wf(),
            r.events().inner == self@.events,
            r.events().upcasters@ == self@.upcasters,
            r.cache() == self@.cache,
            r.gates()@ == self@.gates,
            r.config() == self@.config,
            r.dispatcher().sinks() == self@.sinks,
            r.dispatcher().observer() == self@.observer,
            r.dispatcher().caught_up() == Set::<Seq<char>>::empty(),
            r.marks() == (Marks {
                memory: Map::empty(),
                saved: saved_marks(self@.checkpoint_backend),
                durable: self@.checkpoint_backend is Some,
                sure: self@.checkpoint_backend matches Some(b) ==> b.reliable(),
            }),
    {
        Store::assemble(
            self.events,
            self.cache,
            self.gates,
            self.sinks,
            self.config,
            self.checkpoint_backend,
            self.observer,
            self.upcasters,
        )
    }
}

/// A store is built with what the builder was given, and nothing else: it has no gates,
/// sinks or upcasters but those, and none of its sinks counts as caught up.
pub proof fn a_store_is_built_as_planned<E: EventBackend, C: CacheBackend, K: CheckpointBackend>(
    plan: StoreBuilder<E, C, K>,
    store: Store<E, C, K>,
)
    requires
        call_ensures(StoreBuilder::<E, C, K>::build, (plan,), store),
    ensures
        store.events().inner == plan@.events,
        store.events().upcasters@ == plan@.upcasters,
        store.cache() == plan@.cache,
        store.gates()@ == plan@.gates,
        store.config() == plan@.config,
        store.dispatcher().sinks() == plan@.sinks,
        store.dispatcher().observer() == plan@.observer,
        store.dispatcher().caught_up() == Set::<Seq<char>>::empty(),
        forall|key: (Seq<char>, Seq<char>)|
            !(#[trigger] store.marks().memory.dom().contains(key)),
        plan@.checkpoint_backend matches Some(b) ==> forall|sink: Seq<char>, stream: Seq<char>|
            store.marks().restored((sink, stream)) == match #[trigger] b.saved(sink, stream) {
                Some(at) => at,
                None => 0,
            },
        plan@.checkpoint_backend is None ==> !store.marks().durable,
{
}

/// A builder starts with the two backends alone, and with every sixty-fourth state for the
/// cache, which is not kept short.
pub proof fn a_builder_starts_with_the_backends_alone<E: EventBackend, C: CacheBackend>(
    events: E,
    cache: C,
    r: StoreBuilder<E, C, MemCheckpointBackend>,
)
    requires
        call_ensures(Store::<E, C, MemCheckpointBackend>::builder, (events, cache), r),
    ensures
        r@.events == events,
        r@.cache == cache,
        r@.gates.len() == 0,
        r@.sinks.len() == 0,
        r@.upcasters.len() == 0,
        r@.checkpoint_backend is None,
        r@.observer is None,
        r@.config.cache_stride == 64,
        r@.config.cache_keep_latest is None,
{
}

} // verus!
