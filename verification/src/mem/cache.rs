//! Cache of states in memory.
use vstd::prelude::*;

use crate::backend::{is_nearest, keeps_latest, CacheBackend, Entries};
use crate::error::StoreError;
use crate::id::{SeqNo, StreamId};
use crate::json::json_text;
use crate::text_map::TextMap;

verus! {

/// The states of one stream, by ascending coordinate.
struct Snapshots {
    items: Vec<(SeqNo, serde_json::Value)>,
}

impl Snapshots {
    spec fn is_at(&self, i: int, seq: u64) -> bool {
        0 <= i < self.items@.len() && self.items@[i].0.0 == seq
    }

    spec fn index(&self, seq: u64) -> int {
        choose|i: int| self.is_at(i, seq)
    }

    spec fn map(&self) -> Entries {
        Map::new(
            |seq: u64| exists|i: int| self.is_at(i, seq),
            |seq: u64| json_text(self.items@[self.index(seq)].1),
        )
    }

    spec fn wf(&self) -> bool {
        forall|i: int, j: int|
            0 <= i < j < self.items@.len() ==> (#[trigger] self.items@[i]).0.0 < (
            #[trigger] self.items@[j]).0.0
    }

    spec fn keys(&self) -> Seq<u64> {
        self.items@.map_values(|item: (SeqNo, serde_json::Value)| item.0.0)
    }

    proof fn index_is(&self, i: int)
        requires
            self.wf(),
            0 <= i < self.items@.len(),
        ensures
            self.index(self.items@[i].0.0) == i,
            self.map().dom().contains(self.items@[i].0.0),
            self.map()[self.items@[i].0.0] == json_text(self.items@[i].1),
    {
        let seq = self.items@[i].0.0;
        assert(self.is_at(i, seq));
        let j = self.index(seq);
        assert(self.is_at(j, seq));
        if i < j {
            assert(self.items@[i].0.0 < self.items@[j].0.0);
        } else if j < i {
            assert(self.items@[j].0.0 < self.items@[i].0.0);
        }
    }

    proof fn position_of(&self, seq: u64) -> (i: int)
        requires
            self.map().dom().contains(seq),
        ensures
            0 <= i < self.items@.len(),
            self.items@[i].0.0 == seq,
    {
        assert(self.is_at(self.index(seq), seq));
        self.index(seq)
    }

    proof fn size(&self)
        requires
            self.wf(),
        ensures
            self.map().dom().finite(),
            self.map().dom().len() == self.items@.len(),
    {
        let keys = self.keys();
        assert(keys.no_duplicates()) by {
            assert forall|i: int, j: int|
                0 <= i < keys.len() && 0 <= j < keys.len() && i != j implies keys[i] != keys[j] by {
                if i < j {
                    assert(self.items@[i].0.0 < self.items@[j].0.0);
                } else {
                    assert(self.items@[j].0.0 < self.items@[i].0.0);
                }
            }
        }
        keys.unique_seq_to_set();
        assert(self.map().dom() =~= keys.to_set()) by {
            assert forall|seq: u64| self.map().dom().contains(seq) implies keys.to_set().contains(
                seq,
            ) by {
                let i = self.position_of(seq);
                assert(keys[i] == seq);
            }
            assert forall|seq: u64| keys.to_set().contains(seq) implies self.map().dom().contains(
                seq,
            ) by {
                let i = choose|i: int| 0 <= i < keys.len() && keys[i] == seq;
                self.index_is(i);
            }
        }
    }

    fn new() -> (r: Self)
        ensures
            r.wf(),
            r.map() == Map::<u64, Seq<char>>::empty(),
    {
        let r = Snapshots { items: Vec::new() };
        proof {
            assert(r.map() =~= Map::<u64, Seq<char>>::empty());
        }
        r
    }

    fn put(&mut self, at: SeqNo, state: &serde_json::Value)
        requires
            old(self).wf(),
        ensures
            final(self).wf(),
            final(self).map() == old(self).map().insert(at.0, json_text(*state)),
    {
        let ghost before = *self;
        let mut i: usize = 0;
        while i < self.items.len() && self.items[i].0.0 < at.0
            invariant
                i <= self.items@.len(),
                forall|j: int| 0 <= j < i ==> (#[trigger] self.items@[j]).0.0 < at.0,
            decreases self.items@.len() - i,
        {
            i = i + 1;
        }
        let fresh = (at, state.clone());
        let ghost item = fresh;
        if i < self.items.len() && self.items[i].0.0 == at.0 {
            self.items.set(i, fresh);
            proof {
                assert(self.wf());
                assert(self.map() =~= before.map().insert(at.0, json_text(*state))) by {
                    self.index_is(i as int);
                    assert forall|seq: u64|
                        self.map().dom().contains(seq) == before.map().dom().contains(seq)
                        by {
                        if before.map().dom().contains(seq) {
                            let j = before.position_of(seq);
                            self.index_is(j);
                        }
                        if self.map().dom().contains(seq) {
                            let j = self.position_of(seq);
                            before.index_is(j);
                        }
                    }
                    before.index_is(i as int);
                    assert forall|seq: u64|
                        before.map().dom().contains(seq) && seq != at.0 implies self.map()[seq]
                        == before.map()[seq] by {
                        let j = before.position_of(seq);
                        before.index_is(j);
                        self.index_is(j);
                    }
                }
            }
        } else {
            self.items.insert(i, fresh);
            proof {
                let cut = i as int;
                assert(self.items@[cut] == item);
                assert forall|j: int| cut <= j < before.items@.len() implies (
                #[trigger] before.items@[j]).0.0 > at.0 by {
                    if cut < j {
                        assert(before.items@[cut].0.0 < before.items@[j].0.0);
                    }
                }
                assert forall|j: int, k: int| 0 <= j < k < self.items@.len() implies (
                #[trigger] self.items@[j]).0.0 < (#[trigger] self.items@[k]).0.0 by {
                    let j0 = if j < cut { j } else { j - 1 };
                    let k0 = if k < cut { k } else { k - 1 };
                    if j != cut {
                        assert(self.items@[j] == before.items@[j0]);
                    }
                    if k != cut {
                        assert(self.items@[k] == before.items@[k0]);
                    }
                }
                self.index_is(cut);
                let wanted = before.map().insert(at.0, json_text(*state));
                assert forall|seq: u64| #[trigger] wanted.dom().contains(seq) implies self.map().dom().contains(
                seq) && self.map()[seq] == wanted[seq] by {
                    if seq != at.0 {
                        let j0 = before.position_of(seq);
                        before.index_is(j0);
                        let j = if j0 < cut { j0 } else { j0 + 1 };
                        assert(self.items@[j] == before.items@[j0]);
                        self.index_is(j);
                    }
                }
                assert forall|seq: u64| #[trigger] self.map().dom().contains(seq) implies wanted.dom().contains(
                seq) by {
                    if seq != at.0 {
                        let j = self.position_of(seq);
                        let j0 = if j < cut { j } else { j - 1 };
                        assert(self.items@[j] == before.items@[j0]);
                        before.index_is(j0);
                    }
                }
                assert(self.map() =~= wanted);
            }
        }
    }

    fn nearest(&self, at: SeqNo) -> (r: Option<(SeqNo, serde_json::Value)>)
        requires
            self.wf(),
        ensures
            is_nearest(
                self.map(),
                at.0,
                match r {
                    Some((seq, state)) => Some((seq.0, json_text(state))),
                    None => None,
                },
            ),
    {
        let mut i: usize = self.items.len();
        while i > 0
            invariant
                self.wf(),
                i <= self.items@.len(),
                forall|j: int| i <= j < self.items@.len() ==> (#[trigger] self.items@[j]).0.0 > at.0,
            decreases i,
        {
            i = i - 1;
            if self.items[i].0.0 <= at.0 {
                proof {
                    self.index_is(i as int);
                    assert forall|other: u64| #[trigger]
                        self.map().dom().contains(other) && other <= at.0 implies other
                        <= self.items@[i as int].0.0 by {
                        let j = self.position_of(other);
                        if i < j {
                            assert(self.items@[j].0.0 > at.0);
                        } else if j < i {
                            assert(self.items@[j].0.0 < self.items@[i as int].0.0);
                        }
                    }
                }
                return Some((self.items[i].0, self.items[i].1.clone()));
            }
        }
        proof {
            assert forall|other: u64| #[trigger] self.map().dom().contains(other) implies other
                > at.0 by {
                let j = self.position_of(other);
            }
        }
        None
    }

    fn prune(&mut self, keep: usize)
        requires
            old(self).wf(),
        ensures
            final(self).wf(),
            keeps_latest(old(self).map(), final(self).map(), keep as nat),
    {
        let ghost before = *self;
        let ghost mut dropped: int = 0;
        while self.items.len() > keep
            invariant
                0 <= dropped <= before.items@.len(),
                self.items@ == before.items@.skip(dropped),
                dropped > 0 ==> self.items@.len() >= keep,
            decreases self.items@.len(),
        {
            let _ = self.items.remove(0);
            proof {
                dropped = dropped + 1;
                assert(self.items@ =~= before.items@.skip(dropped));
            }
        }
        proof {
            assert forall|i: int, j: int| 0 <= i < j < self.items@.len() implies (
            #[trigger] self.items@[i]).0.0 < (#[trigger] self.items@[j]).0.0 by {
                assert(self.items@[i] == before.items@[i + dropped]);
                assert(self.items@[j] == before.items@[j + dropped]);
            }
            self.size();
            before.size();
            assert forall|seq: u64| #[trigger]
                self.map().dom().contains(seq) implies before.map().dom().contains(seq)
                && self.map()[seq] == before.map()[seq] by {
                let i = self.position_of(seq);
                self.index_is(i);
                assert(self.items@[i] == before.items@[i + dropped]);
                before.index_is(i + dropped);
            }
            assert forall|gone: u64, kept: u64|
                before.map().dom().contains(gone) && !self.map().dom().contains(gone)
                    && self.map().dom().contains(kept) implies gone < kept by {
                let i = before.position_of(gone);
                let j = self.position_of(kept);
                if i >= dropped {
                    assert(self.items@[i - dropped] == before.items@[i]);
                    self.index_is(i - dropped);
                }
                assert(self.items@[j] == before.items@[j + dropped]);
                assert(before.items@[i].0.0 < before.items@[j + dropped].0.0);
            }
        }
    }
}

/// Cache that lasts as long as the value itself.
pub struct MemCacheBackend {
    streams: TextMap<Snapshots>,
}

impl MemCacheBackend {
    /// An empty cache.
    pub fn new() -> (r: Self)
        ensures
            r.wf(),
            r.reliable(),
            forall|stream: Seq<char>|
                #[trigger] r.entries(stream) == Map::<u64, Seq<char>>::empty(),
    {
        MemCacheBackend { streams: TextMap::new() }
    }
}

impl CacheBackend for MemCacheBackend {
    closed spec fn entries(&self, stream: Seq<char>) -> Entries {
        if self.streams@.dom().contains(stream) {
            self.streams@[stream].map()
        } else {
            Map::empty()
        }
    }

    closed spec fn wf(&self) -> bool {
        &&& self.streams.wf()
        &&& forall|stream: Seq<char>|
            self.streams@.dom().contains(stream) ==> (#[trigger] self.streams@[stream]).wf()
    }

    open spec fn reliable(&self) -> bool {
        true
    }

    proof fn wf_facts(&self) {
        assert forall|stream: Seq<char>| (#[trigger] self.entries(stream)).dom().finite() by {
            if self.streams@.dom().contains(stream) {
                self.streams@[stream].size();
            }
        }
    }

    fn put(&mut self, stream: &StreamId, at: SeqNo, state: &serde_json::Value) -> (r: Result<
        (),
        StoreError,
    >) {
        match self.streams.position(stream.as_str()) {
            Some(i) => {
                self.streams.value_mut(i).put(at, state);
            },
            None => {
                let mut fresh = Snapshots::new();
                fresh.put(at, state);
                self.streams.insert(stream.as_str(), fresh);
            },
        }
        Ok(())
    }

    fn nearest(&self, stream: &StreamId, at: SeqNo) -> (r: Result<
        Option<(SeqNo, serde_json::Value)>,
        StoreError,
    >) {
        match self.streams.get(stream.as_str()) {
            Some(snapshots) => Ok(snapshots.nearest(at)),
            None => Ok(None),
        }
    }

    fn prune(&mut self, stream: &StreamId, keep_latest: usize) -> (r: Result<(), StoreError>) {
        match self.streams.position(stream.as_str()) {
            Some(i) => {
                self.streams.value_mut(i).prune(keep_latest);
            },
            None => {
                proof {
                    assert(Map::<u64, Seq<char>>::empty().dom().len() == 0);
                }
            },
        }
        Ok(())
    }
}

} // verus!
