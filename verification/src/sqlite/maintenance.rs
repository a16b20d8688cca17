//! Compaction: a snapshot in place of the beginning of a stream.
//!
//! It runs in one transaction: the triggers that protect the events are dropped,
//! the events up to the boundary give way to the snapshot, cached states before
//! it go, and the triggers of [`crate::sqlite::migration::MIGRATION_4`] come back.
use vstd::prelude::*;

use crate::backend::{CacheBackend, CheckpointBackend, Entries, EventBackend};
use crate::error::{ErrorView, StoreError};
use crate::event::{Event, EventView};
use crate::id::{SeqNo, StreamId};
use crate::json::{
    add_operation, as_number, empty_object, is_exact, is_exact_at, json_member, json_string,
    json_text, member, number, operation_text, operation_texts, patch_of, patch_of_operations,
    patch_text, patched, puts_document, render, render_patch, set_member,
};
use crate::json_laws::{
    an_object_with_a_number_is_exact, operations_are_as_exact_as_their_values,
    patches_are_as_exact_as_their_operations,
};
use crate::log::{count_before, gap_free, has_event, head_of, since, until};
use crate::patch::add_text;
use crate::sqlite::event_rows::{sql_seq, to_sql_seq, EventRow};
use crate::state::{empty_text, replay, replay_in_two_steps, StateResult};
use crate::store::laws::coherent;
use crate::store::read::{between, history, state_answer};
use crate::store::{SNAPSHOT_KIND, Store};
use crate::text::{decimal, same_text};
use crate::upcaster::{upcast_events, upcast_through};

verus! {

/// Nothing protects the events, for the time of the transaction.
pub const DROP_TRIGGERS: &'static str =
    "DROP TRIGGER IF EXISTS trg_events_no_update; DROP TRIGGER IF EXISTS trg_events_no_delete;";

/// The events up to the boundary.
pub const DELETE_PREFIX: &'static str = "DELETE FROM events WHERE stream = ?1 AND seq <= ?2";

/// The cached states before the boundary.
pub const DELETE_STALE_CACHE: &'static str = "DELETE FROM cache WHERE stream = ?1 AND at_seq < ?2";

/// The member of a snapshot's attribution that holds its coordinate.
pub const SNAPSHOT_META_KEY_COMPACTED_AT_SEQ: &'static str = "compacted_at_seq";

/// What a compaction did.
#[derive(Debug, PartialEq, Eq)]
pub struct CompactionReport {
    /// The stream.
    pub stream: StreamId,
    /// The coordinate of the snapshot, the earliest that can still be reached.
    pub boundary: SeqNo,
    /// The head of the stream when it was compacted.
    pub head_at_compaction: SeqNo,
}

impl Clone for CompactionReport {
    fn clone(&self) -> (r: Self)
        ensures
            r.stream@ == self.stream@,
            r.boundary == self.boundary,
            r.head_at_compaction == self.head_at_compaction,
    {
        CompactionReport {
            stream: self.stream.clone(),
            boundary: self.boundary,
            head_at_compaction: self.head_at_compaction,
        }
    }
}

/// What a compaction is to do.
#[derive(Debug, PartialEq)]
pub struct Compaction {
    /// What to report once it is done.
    pub report: CompactionReport,
    /// The event that takes the place of those up to the boundary.
    pub snapshot: Event,
}

/// The text of the patch that puts the document `state` in place of any other.
pub open spec fn snapshot_patch(state: Seq<char>) -> Seq<char> {
    patch_of_operations(
        seq![
            "{\"op\":\"add\",\"path\":"@ + json_string(""@) + ",\"value\":"@ + state + seq!['}'],
        ],
    )
}

/// The text of the attribution of a snapshot at `seq`.
pub open spec fn snapshot_meta(seq: u64) -> Seq<char> {
    seq!['{'] + json_string(SNAPSHOT_META_KEY_COMPACTED_AT_SEQ@) + seq![':'] + decimal(seq as nat)
        + seq!['}']
}

/// The snapshot of the state `state` at `seq`, in place of the event at time `at`.
pub open spec fn snapshot_event(seq: u64, state: Seq<char>, at: i64) -> EventView {
    EventView {
        seq,
        kind: SNAPSHOT_KIND@,
        patch: snapshot_patch(state),
        meta: snapshot_meta(seq),
        at,
    }
}

/// Maintenance of a database that holds a store.
#[derive(Debug, Clone, Copy, PartialEq, Eq)]
pub struct SqliteMaintenance {}

impl SqliteMaintenance {
    /// A handle for maintenance.
    pub fn new() -> (r: Self) {
        SqliteMaintenance {}
    }

    /// Plan the compaction of `stream` up to `up_to_seq`: the snapshot of the state
    /// there takes the place of everything up to there.
    pub fn compact_stream<E: EventBackend, C: CacheBackend, K: CheckpointBackend>(
        &self,
        store: &Store<E, C, K>,
        stream: &StreamId,
        up_to_seq: SeqNo,
    ) -> (r: Result<Compaction, StoreError>)
        requires
            store.wf(),
        ensures
            up_to_seq.0 == 0 ==> (r matches Err(e) && e@ == ErrorView::Backend(
                "compact_stream: up_to_seq must be > 0"@,
            )),
            up_to_seq.0 > 0 && (r is Ok || store.reliable()) ==> match store.answer_at(
                stream@,
                up_to_seq.0,
            ) {
                Err(error) => r matches Err(e) && e@ == error,
                Ok(state) => r matches Ok(plan) && {
                    &&& plan.report.stream@ == stream@
                    &&& plan.report.boundary == up_to_seq
                    &&& store.log().head(stream@) == Some(plan.report.head_at_compaction.0)
                    &&& has_event(store.log().events(stream@), up_to_seq.0)
                    &&& plan.snapshot@ == snapshot_event(
                        up_to_seq.0,
                        state,
                        store.event_at(stream@, up_to_seq.0).at,
                    )
                    &&& puts_document(plan.snapshot@.patch, state)
                    &&& json_member(plan.snapshot@.meta, SNAPSHOT_META_KEY_COMPACTED_AT_SEQ@) == Some(
                        decimal(up_to_seq.0 as nat),
                    )
                },
            },
            up_to_seq.0 > 0 ==> (r matches Err(e) ==> store.answer_at(stream@, up_to_seq.0)
                == StateResult::Err(e@) || (!store.reliable() && store.state_may_fail(
                stream@,
                up_to_seq,
                e@,
            ))),
    {
        if up_to_seq.0 == 0 {
            return Err(StoreError::Backend("compact_stream: up_to_seq must be > 0".to_owned()));
        }
        let head = match store.head(stream) {
            Ok(Some(head)) => head,
            Ok(None) => {
                proof {
                    crate::store::read::shown_is_gap_free(store, stream@);
                }
                return Err(StoreError::UnknownStream(stream.clone()));
            },
            Err(e) => {
                return Err(e);
            },
        };
        let (state, anchor) = match store.moment(stream, up_to_seq) {
            Ok(moment) => moment,
            Err(e) => {
                return Err(e);
            },
        };
        proof {
            store.every_coordinate_holds_an_event(stream@, up_to_seq.0);
            crate::store::read::shown_is_gap_free(store, stream@);
        }
        Ok(
            Compaction {
                report: CompactionReport {
                    stream: stream.clone(),
                    boundary: up_to_seq,
                    head_at_compaction: head,
                },
                snapshot: snapshot_of(up_to_seq, state, &anchor),
            },
        )
    }
}

/// The snapshot of `state` in place of `anchor`.
fn snapshot_of(seq: SeqNo, state: serde_json::Value, anchor: &Event) -> (r: Event)
    ensures
        r@ == snapshot_event(seq.0, json_text(state), anchor.at.0),
        puts_document(r@.patch, json_text(state)),
        json_member(r@.meta, SNAPSHOT_META_KEY_COMPACTED_AT_SEQ@) == Some(decimal(seq.0 as nat)),
{
    let ghost text = json_text(state);
    proof {
        reveal_strlit("");
        reveal_strlit("{}");
        assert("{}"@[0] == '{');
    }
    let op = add_operation("", state);
    let mut ops: Vec<json_patch::PatchOperation> = Vec::new();
    let ghost op_text = operation_text(op);
    ops.push(op);
    proof {
        assert(operation_texts(ops@) =~= seq![op_text]);
    }
    let meta = set_member(empty_object(), SNAPSHOT_META_KEY_COMPACTED_AT_SEQ, number(seq.0));
    Event {
        seq,
        kind: SNAPSHOT_KIND.to_owned(),
        patch: patch_of(ops),
        meta,
        at: anchor.at,
    }
}

/// The row for a snapshot.
pub fn snapshot_row(snapshot: &Event) -> (r: EventRow)
    ensures
        r.seq == sql_seq(snapshot.seq.0),
        r.kind@ == snapshot@.kind,
        r.patch@ == snapshot@.patch,
        r.meta@ == snapshot@.meta,
        r.at_ms == snapshot@.at,
        is_exact(snapshot@.patch) && is_exact(snapshot@.meta) ==> r.reads_back(),
{
    let r = EventRow {
        seq: to_sql_seq(snapshot.seq),
        kind: snapshot.kind.clone(),
        patch: render_patch(&snapshot.patch),
        meta: render(&snapshot.meta),
        at_ms: snapshot.at.0,
    };
    proof {
        assert(patch_text(snapshot.patch) == r.patch@);
        assert(json_text(snapshot.meta) == r.meta@);
    }
    r
}

/// A snapshot is read back, if the state in it is.
pub proof fn snapshots_are_as_exact_as_their_states(seq: u64, state: Seq<char>, at: i64)
    requires
        is_exact_at(state, 2),
    ensures
        is_exact(snapshot_event(seq, state, at).patch),
        is_exact(snapshot_event(seq, state, at).meta),
{
    operations_are_as_exact_as_their_values(""@, state, 1);
    patches_are_as_exact_as_their_operations(seq![add_text(""@, state)]);
    an_object_with_a_number_is_exact(SNAPSHOT_META_KEY_COMPACTED_AT_SEQ@, seq as nat);
}

/// The coordinate in the attribution of a snapshot; other events have none.
pub fn snapshot_meta_compacted_at_seq(event: &Event) -> (r: Option<SeqNo>)
    ensures
        match r {
            Some(seq) => event@.kind == SNAPSHOT_KIND@ && json_member(
                event@.meta,
                SNAPSHOT_META_KEY_COMPACTED_AT_SEQ@,
            ) == Some(decimal(seq.0 as nat)),
            None => event@.kind == SNAPSHOT_KIND@ ==> forall|n: u64|
                json_member(event@.meta, SNAPSHOT_META_KEY_COMPACTED_AT_SEQ@) != Some(
                    #[trigger] decimal(n as nat),
                ),
        },
{
    if !same_text(event.kind.as_str(), SNAPSHOT_KIND) {
        return None;
    }
    match member(&event.meta, SNAPSHOT_META_KEY_COMPACTED_AT_SEQ) {
        Some(found) => match as_number(found) {
            Some(n) => Some(SeqNo(n)),
            None => None,
        },
        None => None,
    }
}

/// A stream once `snapshot` took the place of everything up to its coordinate.
pub open spec fn compacted(events: Seq<EventView>, snapshot: EventView) -> Seq<EventView> {
    seq![snapshot] + since(events, snapshot.seq + 1)
}

/// Compaction leaves the head and everything after the boundary as it is, and the
/// stream without gaps; it starts at the boundary now.
pub proof fn compaction_keeps_later_events(events: Seq<EventView>, snapshot: EventView)
    requires
        gap_free(events),
        has_event(events, snapshot.seq),
    ensures
        gap_free(compacted(events, snapshot)),
        compacted(events, snapshot)[0].seq == snapshot.seq,
        head_of(compacted(events, snapshot)) == head_of(events),
        since(compacted(events, snapshot), snapshot.seq + 1) == since(events, snapshot.seq + 1),
{
    let after = compacted(events, snapshot);
    let k = choose|k: int| 0 <= k < events.len() && (#[trigger] events[k]).seq == snapshot.seq;
    let c = count_before(events, snapshot.seq + 1);
    assert(c == k + 1);
    assert forall|i: int| 0 <= i < after.len() implies (#[trigger] after[i]).seq == after[0].seq
        + i by {
        if i > 0 {
            assert(after[i] == events[c + i - 1]);
        }
    }
    assert(events[events.len() - 1] == events.last());
    if c < events.len() {
        assert(after.last() == events.last());
    } else {
        assert(after.last() == snapshot);
    }
    assert(after[after.len() - 1] == after.last());
    assert(since(after, snapshot.seq + 1) =~= since(events, snapshot.seq + 1));
}

/// Compaction changes no state at the boundary or after it.
pub proof fn compaction_keeps_states(
    events: Seq<EventView>,
    snapshot: EventView,
    state: Seq<char>,
    at: u64,
)
    requires
        gap_free(events),
        has_event(events, snapshot.seq),
        history(events, snapshot.seq as int) == StateResult::Ok(state),
        puts_document(snapshot.patch, state),
        at >= snapshot.seq,
    ensures
        history(compacted(events, snapshot), at as int) == history(events, at as int),
        history(compacted(events, snapshot), snapshot.seq as int) == StateResult::Ok(state),
{
    let after = compacted(events, snapshot);
    compaction_keeps_later_events(events, snapshot);
    let k = choose|k: int| 0 <= k < events.len() && (#[trigger] events[k]).seq == snapshot.seq;
    let first = seq![snapshot];
    assert(first.drop_last() =~= Seq::<EventView>::empty());
    assert(replay(empty_text(), Seq::<EventView>::empty()) == StateResult::Ok(empty_text()));
    assert(patched(empty_text(), snapshot.patch) == Ok::<Seq<char>, Seq<char>>(state));
    assert(replay(empty_text(), first) == StateResult::Ok(state));
    assert(until(after, snapshot.seq as int) =~= first);
    let rest = between(events, snapshot.seq as int, at as int);
    assert(until(after, at as int) =~= first + rest);
    assert(until(events, at as int) =~= until(events, snapshot.seq as int) + rest);
    replay_in_two_steps(empty_text(), first, rest);
    replay_in_two_steps(empty_text(), until(events, snapshot.seq as int), rest);
}

/// The cached states at the boundary and after it stay right.
pub proof fn compaction_keeps_the_cache_coherent(
    events: Seq<EventView>,
    snapshot: EventView,
    state: Seq<char>,
    entries: Entries,
    kept: Entries,
)
    requires
        gap_free(events),
        has_event(events, snapshot.seq),
        history(events, snapshot.seq as int) == StateResult::Ok(state),
        puts_document(snapshot.patch, state),
        coherent(events, entries),
        kept.submap_of(entries),
        forall|at: u64| #[trigger] kept.dom().contains(at) ==> at >= snapshot.seq,
    ensures
        coherent(compacted(events, snapshot), kept),
{
    let after = compacted(events, snapshot);
    compaction_keeps_later_events(events, snapshot);
    assert forall|at: u64| #[trigger] kept.dom().contains(at) implies {
        &&& after.len() > 0
        &&& after[0].seq <= at <= after.last().seq
        &&& history(after, at as int) == StateResult::Ok(kept[at])
    } by {
        assert(entries.dom().contains(at));
        compaction_keeps_states(events, snapshot, state, at);
    }
}

/// Compacting further is compacting once: the earlier snapshot goes with the
/// rest.
pub proof fn compacting_further_is_compacting_once(
    events: Seq<EventView>,
    earlier: EventView,
    later: EventView,
)
    requires
        gap_free(events),
        has_event(events, earlier.seq),
        has_event(events, later.seq),
        earlier.seq <= later.seq,
    ensures
        compacted(compacted(events, earlier), later) == compacted(events, later),
{
    compaction_keeps_later_events(events, earlier);
    let k = choose|k: int| 0 <= k < events.len() && (#[trigger] events[k]).seq == earlier.seq;
    let l = choose|l: int| 0 <= l < events.len() && (#[trigger] events[l]).seq == later.seq;
    let after = compacted(events, earlier);
    assert(since(after, later.seq + 1) =~= since(events, later.seq + 1));
}

/// A compaction of a store whose cache agrees with its log changes no state at the
/// coordinate or after it, and neither the head nor anything else after it. That
/// holds of what is read, if the upcasters leave the snapshot as it is.
pub proof fn a_compaction_keeps_what_is_read<
    E: EventBackend,
    C: CacheBackend,
    K: CheckpointBackend,
>(store: &Store<E, C, K>, stream: Seq<char>, snapshot: EventView, state: Seq<char>, at: u64)
    requires
        store.wf(),
        store.cache_is_coherent(),
        snapshot.seq > 0,
        store.answer_at(stream, snapshot.seq) == StateResult::Ok(state),
        puts_document(snapshot.patch, state),
        upcast_through(store.events().upcasters@, snapshot) == snapshot,
        at >= snapshot.seq,
    ensures
        ({
            let before = store.events_of(stream);
            let after = upcast_events(
                store.events().upcasters@,
                compacted(store.log().events(stream), snapshot),
            );
            &&& gap_free(after)
            &&& after[0] == snapshot
            &&& head_of(after) == head_of(before)
            &&& since(after, snapshot.seq + 1) == since(before, snapshot.seq + 1)
            &&& history(after, at as int) == history(before, at as int)
            &&& history(after, snapshot.seq as int) == StateResult::Ok(state)
        }),
{
    let chain = store.events().upcasters@;
    let stored = store.log().events(stream);
    let before = store.events_of(stream);
    let after = upcast_events(chain, compacted(stored, snapshot));
    crate::store::read::shown_is_gap_free(store, stream);
    store.every_coordinate_holds_an_event(stream, snapshot.seq);
    store.answers_come_from_the_log(stream, snapshot.seq);
    if stored.len() > 0 {
        assert(before[0].seq == stored[0].seq);
    }
    assert(after =~= compacted(before, snapshot));
    compaction_keeps_later_events(before, snapshot);
    compaction_keeps_states(before, snapshot, state, at);
}

/// What lies before the boundary cannot be asked for any more.
pub proof fn states_before_the_boundary_are_gone(
    stream: Seq<char>,
    events: Seq<EventView>,
    boundary: u64,
    entries: Entries,
    at: u64,
)
    requires
        gap_free(events),
        events.len() > 0,
        events[0].seq == boundary,
        at < boundary,
    ensures
        state_answer(stream, events, Some(boundary), entries, at) == StateResult::Err(
            ErrorView::SeqCompacted { boundary: SeqNo(boundary), requested: SeqNo(at) },
        ),
{
    assert(events[events.len() - 1] == events.last());
}

/// A snapshot stands where the last event that it takes the place of stood: at its
/// coordinate and its time. It is of a kind of its own, puts the state in place of
/// whatever is there, and says in its attribution where it stands.
pub proof fn a_snapshot_stands_where_its_event_stood(seq: u64, state: Seq<char>, at: i64)
    ensures
        ({
            let snapshot = snapshot_event(seq, state, at);
            &&& snapshot.seq == seq
            &&& snapshot.at == at
            &&& snapshot.kind == "compacted"@
            &&& snapshot.patch == seq!['['] + add_text(""@, state) + seq![']']
            &&& snapshot.meta == seq!['{'] + json_string("compacted_at_seq"@) + seq![':']
                + decimal(seq as nat) + seq!['}']
        }),
{
    let ops = seq![add_text(""@, state)];
    assert(crate::json::comma_joined(ops) == ops[0]);
}

/// A compaction is planned at every coordinate whose state can be had, with the state
/// and the time that are there, and reported with the head. At zero there is nothing to
/// compact.
pub proof fn a_compaction_is_planned_where_there_is_a_state<
    E: EventBackend,
    C: CacheBackend,
    K: CheckpointBackend,
>(
    maintenance: &SqliteMaintenance,
    store: &Store<E, C, K>,
    stream: &StreamId,
    at: SeqNo,
    r: Result<Compaction, StoreError>,
)
    requires
        store.wf(),
        store.reliable(),
        call_ensures(
            SqliteMaintenance::compact_stream::<E, C, K>,
            (maintenance, store, stream, at),
            r,
        ),
    ensures
        r is Ok <==> at.0 > 0 && store.answer_at(stream@, at.0) is Ok,
        r matches Ok(plan) ==> {
            &&& plan.report.stream@ == stream@
            &&& plan.report.boundary == at
            &&& store.log().head(stream@) == Some(plan.report.head_at_compaction.0)
            &&& plan.snapshot@.seq == at.0
            &&& plan.snapshot@.at == store.event_at(stream@, at.0).at
            &&& puts_document(plan.snapshot@.patch, store.answer_at(stream@, at.0)->Ok_0)
        },
{
}

/// The row for a snapshot says what the snapshot says.
pub proof fn a_snapshot_row_says_what_the_snapshot_says(snapshot: &Event, row: EventRow)
    requires
        call_ensures(snapshot_row, (snapshot,), row),
        snapshot.seq.0 <= i64::MAX,
    ensures
        row.face() == snapshot@,
{
}

/// Where a stream was compacted to can be told from its snapshots, and from nothing
/// else.
pub proof fn a_snapshot_tells_where_it_stands(event: &Event, r: Option<SeqNo>)
    requires
        call_ensures(snapshot_meta_compacted_at_seq, (event,), r),
    ensures
        r matches Some(seq) ==> event@.kind == "compacted"@ && json_member(
            event@.meta,
            "compacted_at_seq"@,
        ) == Some(decimal(seq.0 as nat)),
        r is None && event@.kind == "compacted"@ ==> forall|n: u64|
            json_member(event@.meta, "compacted_at_seq"@) != Some(#[trigger] decimal(n as nat)),
{
}

} // verus!
