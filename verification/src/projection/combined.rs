//! One file for all streams.
use vstd::prelude::*;

use crate::id::StreamId;
use crate::json::json_text;
use crate::text::{
    comes_before, same_text, text_before, text_order_strict, text_order_total,
    text_order_transitive,
};

verus! {

/// The latest state of each stream, and what was written last.
#[derive(Debug)]
pub struct CombinedSnapshot {
    streams: Vec<(StreamId, serde_json::Value)>,
    last_written: Option<String>,
}

/// The streams in `items` are in the order of their names, each once.
pub open spec fn in_order(items: Seq<(StreamId, serde_json::Value)>) -> bool {
    forall|i: int, j: int|
        0 <= i < j < items.len() ==> text_before(#[trigger] items[i].0@, #[trigger] items[j].0@)
}

/// Whether `items` holds `stream`.
pub open spec fn holds(items: Seq<(StreamId, serde_json::Value)>, stream: Seq<char>) -> bool {
    exists|i: int| 0 <= i < items.len() && #[trigger] items[i].0@ == stream
}

/// Where `items` holds `stream`.
pub open spec fn place_of(items: Seq<(StreamId, serde_json::Value)>, stream: Seq<char>) -> int {
    choose|i: int| 0 <= i < items.len() && #[trigger] items[i].0@ == stream
}

/// What `items` says of each stream.
pub open spec fn states_of(items: Seq<(StreamId, serde_json::Value)>) -> Map<
    Seq<char>,
    Seq<char>,
> {
    Map::new(
        |stream: Seq<char>| holds(items, stream),
        |stream: Seq<char>| json_text(items[place_of(items, stream)].1),
    )
}

/// A stream is held at one place only.
proof fn held_once(items: Seq<(StreamId, serde_json::Value)>, i: int)
    requires
        in_order(items),
        0 <= i < items.len(),
    ensures
        holds(items, items[i].0@),
        place_of(items, items[i].0@) == i,
{
    let stream = items[i].0@;
    let p = place_of(items, stream);
    assert(items[i].0@ == stream);
    assert(items[p].0@ == stream);
    text_order_strict(stream, stream);
    if p < i {
        assert(text_before(items[p].0@, items[i].0@));
    } else if i < p {
        assert(text_before(items[i].0@, items[p].0@));
    }
}

impl CombinedSnapshot {
    /// The states, in the order of the names of their streams.
    pub closed spec fn items(&self) -> Seq<(StreamId, serde_json::Value)> {
        self.streams@
    }

    /// What was written last.
    pub closed spec fn written(&self) -> Option<Seq<char>> {
        match self.last_written {
            Some(body) => Some(body@),
            None => None,
        }
    }

    /// The states are in order.
    pub closed spec fn wf(&self) -> bool {
        in_order(self.streams@)
    }

    /// Nothing yet.
    pub fn new() -> (r: Self)
        ensures
            r.wf(),
            r.items().len() == 0,
            r.written() is None,
    {
        CombinedSnapshot { streams: Vec::new(), last_written: None }
    }

    /// The states, in the order of the names of their streams.
    pub fn streams(&self) -> (r: &Vec<(StreamId, serde_json::Value)>)
        requires
            self.wf(),
        ensures
            r@ == self.items(),
            in_order(r@),
    {
        &self.streams
    }

    /// Take up the latest state of a stream.
    pub fn take_up(&mut self, stream: &StreamId, state: &serde_json::Value)
        requires
            old(self).wf(),
        ensures
            final(self).wf(),
            final(self).written() == old(self).written(),
            states_of(final(self).items()) == states_of(old(self).items()).insert(
                stream@,
                json_text(*state),
            ),
    {
        let ghost before = self.streams@;
        let mut i: usize = 0;
        while i < self.streams.len() && comes_before(self.streams[i].0.as_str(), stream.as_str())
            invariant
                self.streams@ == before,
                i <= before.len(),
                forall|j: int| 0 <= j < i ==> text_before(#[trigger] before[j].0@, stream@),
            decreases before.len() - i,
        {
            i = i + 1;
        }
        let fresh = (stream.clone(), state.clone());
        let ghost item = fresh;
        if i < self.streams.len() && same_text(self.streams[i].0.as_str(), stream.as_str()) {
            self.streams.set(i, fresh);
            proof {
                let after = self.streams@;
                assert(in_order(after)) by {
                    assert forall|a: int, b: int| 0 <= a < b < after.len() implies text_before(
                        #[trigger] after[a].0@,
                        #[trigger] after[b].0@,
                    ) by {
                        assert(text_before(before[a].0@, before[b].0@));
                    }
                }
                replaced(before, after, i as int, item, json_text(*state));
            }
        } else {
            self.streams.insert(i, fresh);
            proof {
                let after = self.streams@;
                assert(after =~= before.take(i as int).push(item) + before.skip(i as int));
                inserted(before, after, i as int, item, json_text(*state));
            }
        }
    }

    /// Whether `body` differs from what was written last.
    pub fn write_is_due(&self, body: &str) -> (r: bool)
        ensures
            r == (self.written() != Some(body@)),
    {
        match &self.last_written {
            Some(last) => !same_text(last.as_str(), body),
            None => true,
        }
    }

    /// Remember that `body` was written.
    pub fn wrote(&mut self, body: String)
        requires
            old(self).wf(),
        ensures
            final(self).wf(),
            final(self).items() == old(self).items(),
            final(self).written() == Some(body@),
    {
        self.last_written = Some(body);
    }
}

/// Putting another state in its place changes the state of that stream alone.
proof fn replaced(
    before: Seq<(StreamId, serde_json::Value)>,
    after: Seq<(StreamId, serde_json::Value)>,
    i: int,
    item: (StreamId, serde_json::Value),
    state: Seq<char>,
)
    requires
        in_order(before),
        in_order(after),
        0 <= i < before.len(),
        before[i].0@ == item.0@,
        after == before.update(i, item),
        json_text(item.1) == state,
    ensures
        states_of(after) == states_of(before).insert(item.0@, state),
{
    let wanted = states_of(before).insert(item.0@, state);
    assert forall|s: Seq<char>| #[trigger] wanted.dom().contains(s) implies states_of(
        after,
    ).dom().contains(s) && states_of(after)[s] == wanted[s] by {
        if s == item.0@ {
            held_once(after, i);
        } else {
            let p = place_of(before, s);
            assert(before[p].0@ == s);
            assert(after[p] == before[p]);
            held_once(after, p);
            held_once(before, p);
        }
    }
    assert forall|s: Seq<char>| #[trigger] states_of(after).dom().contains(s) implies wanted.dom().contains(
        s,
    ) by {
        let p = place_of(after, s);
        assert(after[p].0@ == s);
        if p != i {
            assert(before[p] == after[p]);
            assert(before[p].0@ == s);
        }
    }
    assert(states_of(after) =~= wanted);
}

/// Putting a new stream where it belongs keeps the order and changes the state of
/// that stream alone.
proof fn inserted(
    before: Seq<(StreamId, serde_json::Value)>,
    after: Seq<(StreamId, serde_json::Value)>,
    i: int,
    item: (StreamId, serde_json::Value),
    state: Seq<char>,
)
    requires
        in_order(before),
        0 <= i <= before.len(),
        forall|j: int| 0 <= j < i ==> text_before(#[trigger] before[j].0@, item.0@),
        i < before.len() ==> !text_before(before[i].0@, item.0@) && before[i].0@ != item.0@,
        after == before.take(i).push(item) + before.skip(i),
        json_text(item.1) == state,
    ensures
        in_order(after),
        states_of(after) == states_of(before).insert(item.0@, state),
{
    assert forall|k: int| i <= k < before.len() implies text_before(
        item.0@,
        #[trigger] before[k].0@,
    ) by {
        text_order_total(before[i].0@, item.0@);
        if i < k {
            assert(text_before(before[i].0@, before[k].0@));
            text_order_transitive(item.0@, before[i].0@, before[k].0@);
        }
    }
    assert forall|a: int, b: int| 0 <= a < b < after.len() implies text_before(
        #[trigger] after[a].0@,
        #[trigger] after[b].0@,
    ) by {
        let x = if a < i {
            a
        } else {
            a - 1
        };
        let y = if b < i {
            b
        } else {
            b - 1
        };
        if a == i {
            assert(after[b] == before[b - 1]);
        } else if b == i {
            assert(after[a] == before[a]);
        } else {
            assert(after[a] == before[x]);
            assert(after[b] == before[y]);
            assert(text_before(before[x].0@, before[y].0@));
        }
    }
    let wanted = states_of(before).insert(item.0@, state);
    assert forall|s: Seq<char>| #[trigger] wanted.dom().contains(s) implies states_of(
        after,
    ).dom().contains(s) && states_of(after)[s] == wanted[s] by {
        if s == item.0@ {
            assert(after[i] == item);
            held_once(after, i);
        } else {
            let p = place_of(before, s);
            assert(before[p].0@ == s);
            let q = if p < i {
                p
            } else {
                p + 1
            };
            assert(after[q] == before[p]);
            held_once(after, q);
            held_once(before, p);
        }
    }
    assert forall|s: Seq<char>| #[trigger] states_of(after).dom().contains(s) implies wanted.dom().contains(
        s,
    ) by {
        let p = place_of(after, s);
        assert(after[p].0@ == s);
        if p < i {
            assert(before[p] == after[p]);
            assert(before[p].0@ == s);
        } else if p > i {
            assert(before[p - 1] == after[p]);
            assert(before[p - 1].0@ == s);
        }
    }
    assert(states_of(after) =~= wanted);
}

/// The file holds the rendering of the states: whether or not a write of `body` was
/// due, `body` is what was written last, once a write that was due has been made.
pub proof fn the_file_holds_the_rendering(
    before: CombinedSnapshot,
    after: CombinedSnapshot,
    body: Seq<char>,
    due: bool,
)
    requires
        due == (before.written() != Some(body)),
        due ==> after.written() == Some(body),
        !due ==> after == before,
    ensures
        after.written() == Some(body),
{
}

/// A state that is taken up again changes nothing.
pub proof fn taking_up_again_changes_nothing(
    items: Seq<(StreamId, serde_json::Value)>,
    once: Seq<(StreamId, serde_json::Value)>,
    twice: Seq<(StreamId, serde_json::Value)>,
    stream: Seq<char>,
    state: Seq<char>,
)
    requires
        states_of(once) == states_of(items).insert(stream, state),
        states_of(twice) == states_of(once).insert(stream, state),
    ensures
        states_of(twice) == states_of(once),
{
    assert(states_of(once).insert(stream, state) =~= states_of(once));
}

/// The streams stand in the order of their names, each once, with its latest state.
pub proof fn streams_stand_in_the_order_of_their_names(
    items: Seq<(StreamId, serde_json::Value)>,
    i: int,
    j: int,
)
    requires
        in_order(items),
        0 <= i < items.len(),
        0 <= j < items.len(),
    ensures
        i < j ==> text_before(items[i].0@, items[j].0@),
        items[i].0@ == items[j].0@ ==> i == j,
        states_of(items).dom().contains(items[i].0@),
        states_of(items)[items[i].0@] == json_text(items[i].1),
{
    held_once(items, i);
    held_once(items, j);
}

} // verus!
