//! Checkpoints in memory.
use vstd::prelude::*;

use crate::backend::CheckpointBackend;
use crate::error::StoreError;
use crate::id::{SeqNo, StreamId};
use crate::text_map::TextMap;

verus! {

/// Checkpoints, by sink and stream.
pub type Marked = Map<(Seq<char>, Seq<char>), u64>;

/// A checkpoint for each sink and stream.
pub struct CheckpointTable {
    sinks: TextMap<TextMap<SeqNo>>,
}

impl CheckpointTable {
    /// The checkpoint of `sink` on `stream`.
    pub closed spec fn at(&self, sink: Seq<char>, stream: Seq<char>) -> Option<u64> {
        if self.sinks@.dom().contains(sink) && self.sinks@[sink]@.dom().contains(stream) {
            Some(self.sinks@[sink]@[stream].0)
        } else {
            None
        }
    }

    /// The checkpoints, by sink and stream.
    pub open spec fn map(&self) -> Marked {
        Map::new(
            |key: (Seq<char>, Seq<char>)| self.at(key.0, key.1) is Some,
            |key: (Seq<char>, Seq<char>)| self.at(key.0, key.1)->0,
        )
    }

    /// The table is in order.
    pub closed spec fn wf(&self) -> bool {
        &&& self.sinks.wf()
        &&& forall|sink: Seq<char>|
            self.sinks@.dom().contains(sink) ==> (#[trigger] self.sinks@[sink]).wf()
    }

    /// A table without checkpoints.
    pub fn new() -> (r: Self)
        ensures
            r.wf(),
            forall|sink: Seq<char>, stream: Seq<char>| #[trigger] r.at(sink, stream) is None,
    {
        CheckpointTable { sinks: TextMap::new() }
    }

    /// Look up the checkpoint of `sink` on `stream`.
    pub fn lookup(&self, sink: &str, stream: &StreamId) -> (r: Option<SeqNo>)
        requires
            self.wf(),
        ensures
            match r {
                Some(s) => self.at(sink@, stream@) == Some(s.0),
                None => self.at(sink@, stream@) is None,
            },
    {
        match self.sinks.get(sink) {
            Some(streams) => match streams.get(stream.as_str()) {
                Some(at) => Some(*at),
                None => None,
            },
            None => None,
        }
    }

    /// Set the checkpoint of `sink` on `stream`.
    pub fn set(&mut self, sink: &str, stream: &StreamId, at: SeqNo)
        requires
            old(self).wf(),
        ensures
            final(self).wf(),
            forall|k: Seq<char>, s: Seq<char>| #[trigger]
                final(self).at(k, s) == if k == sink@ && s == stream@ {
                    Some(at.0)
                } else {
                    old(self).at(k, s)
                },
    {
        match self.sinks.position(sink) {
            Some(i) => {
                self.sinks.value_mut(i).insert(stream.as_str(), at);
            },
            None => {
                let mut streams: TextMap<SeqNo> = TextMap::new();
                streams.insert(stream.as_str(), at);
                self.sinks.insert(sink, streams);
            },
        }
    }
}

/// Checkpoints that last as long as the value itself.
pub struct MemCheckpointBackend {
    table: CheckpointTable,
}

impl MemCheckpointBackend {
    /// A backend without checkpoints.
    pub fn new() -> (r: Self)
        ensures
            r.wf(),
            r.reliable(),
            forall|sink: Seq<char>, stream: Seq<char>| #[trigger] r.saved(sink, stream) is None,
    {
        MemCheckpointBackend { table: CheckpointTable::new() }
    }
}

impl CheckpointBackend for MemCheckpointBackend {
    closed spec fn saved(&self, sink: Seq<char>, stream: Seq<char>) -> Option<u64> {
        self.table.at(sink, stream)
    }

    closed spec fn wf(&self) -> bool {
        self.table.wf()
    }

    open spec fn reliable(&self) -> bool {
        true
    }

    fn get(&self, sink_id: &str, stream: &StreamId) -> (r: Result<Option<SeqNo>, StoreError>) {
        Ok(self.table.lookup(sink_id, stream))
    }

    fn put(&mut self, sink_id: &str, stream: &StreamId, at: SeqNo) -> (r: Result<(), StoreError>) {
        self.table.set(sink_id, stream, at);
        Ok(())
    }
}

} // verus!
