//! Taking over a log of states before and after each change.
use vstd::prelude::*;

use crate::backend::{CacheBackend, CheckpointBackend, EventBackend};
use crate::error::StoreError;
use crate::event::{Committed, DraftView, EventView};
use crate::id::{StreamId, Timestamp};
use crate::json::{
    diff, diffed, empty_object, equal_to_the_same, json_string, json_text, leads_from_equals_to,
    leads_to, number, patch_text, same_json, same_value, set_member,
};
use crate::log::next_of;
use crate::state::{empty_state, empty_text};
use crate::store::read::shown_is_gap_free;
use crate::store::{Store, WriteMode};
use crate::text::{decimal, decimal_text};

verus! {

/// One change of a log that holds whole states.
#[derive(Debug, PartialEq)]
pub struct LegacyEntry {
    /// What happened.
    pub kind: String,
    /// When it happened.
    pub at_ms: i64,
    /// The state before.
    pub before: serde_json::Value,
    /// The state after.
    pub after: serde_json::Value,
}

/// Why a log could not be taken over.
#[derive(Debug)]
pub enum LegacyError {
    /// The state before a change is not the one after the change before it.
    BrokenChain(usize),
    /// The store did not take an event.
    Store(StoreError),
}

/// The message for a chain that breaks at `index`.
pub open spec fn broken_chain_words(index: nat) -> Seq<char> {
    "legacy chain broken at index "@ + decimal(index)
        + ": `before` != previous `after` (or null for the head)"@
}

impl LegacyError {
    /// The error in words.
    pub fn message(&self) -> (r: String)
        ensures
            r@ == match self {
                LegacyError::BrokenChain(index) => broken_chain_words(*index as nat),
                LegacyError::Store(e) => crate::error::error_words(e@),
            },
    {
        match self {
            LegacyError::BrokenChain(index) => {
                let mut words = "legacy chain broken at index ".to_owned();
                words.append(decimal_text(*index as u64).as_str());
                words.append(": `before` != previous `after` (or null for the head)");
                words
            },
            LegacyError::Store(e) => e.message(),
        }
    }
}

/// The state that the change at `index` has to start from.
pub open spec fn expected_before(entries: Seq<LegacyEntry>, index: int) -> Seq<char> {
    if index == 0 {
        empty_text()
    } else {
        json_text(entries[index - 1].after)
    }
}

/// Whether the change at `index` starts where the one before it ended.
pub open spec fn is_chained(entries: Seq<LegacyEntry>, index: int) -> bool {
    same_json(json_text(entries[index].before), expected_before(entries, index))
}

/// The attribution of the event for the change at `index`.
pub open spec fn legacy_meta(index: nat) -> Seq<char> {
    seq!['{'] + json_string("legacy_index"@) + seq![':'] + decimal(index) + seq!['}']
}

/// The event for the change at `index`, where the first gets the coordinate
/// `first`.
pub open spec fn legacy_event(entries: Seq<LegacyEntry>, first: int, index: int) -> EventView {
    EventView {
        seq: (first + index) as u64,
        kind: entries[index].kind@,
        patch: diffed(json_text(entries[index].before), json_text(entries[index].after)),
        meta: legacy_meta(index as nat),
        at: entries[index].at_ms,
    }
}

/// The events for the first `n` changes.
pub open spec fn legacy_events(entries: Seq<LegacyEntry>, first: int, n: nat) -> Seq<EventView> {
    Seq::new(n, |index: int| legacy_event(entries, first, index))
}

/// The first `n` changes, and nothing else, have been written to `stream`.
pub open spec fn took_over<E: EventBackend, C: CacheBackend, K: CheckpointBackend>(
    earlier: &Store<E, C, K>,
    later: &Store<E, C, K>,
    stream: Seq<char>,
    entries: Seq<LegacyEntry>,
    n: nat,
) -> bool {
    let before = earlier.log().events(stream);
    &&& later.log().events(stream) == before + legacy_events(entries, next_of(before), n)
    &&& forall|other: Seq<char>|
        other != stream ==> #[trigger] later.log().events(other) == earlier.log().events(other)
}

/// The draft of the event for the change at `index`.
pub open spec fn legacy_draft(entries: Seq<LegacyEntry>, index: int) -> DraftView {
    DraftView {
        kind: entries[index].kind@,
        patch: diffed(json_text(entries[index].before), json_text(entries[index].after)),
        meta: legacy_meta(index as nat),
    }
}

/// The patches for the first `n` changes lead from each state before to the state
/// after.
pub open spec fn leads_on(entries: Seq<LegacyEntry>, n: nat) -> bool {
    forall|i: int|
        0 <= i < n ==> leads_to(
            json_text((#[trigger] entries[i]).before),
            legacy_draft(entries, i).patch,
            json_text(entries[i].after),
        )
}

/// The state of `stream` at `seq` is equal to `state`.
pub open spec fn stands_for<E: EventBackend, C: CacheBackend, K: CheckpointBackend>(
    store: &Store<E, C, K>,
    stream: Seq<char>,
    seq: u64,
    state: Seq<char>,
) -> bool {
    store.answer_at(stream, seq) matches Ok(reached) && same_json(reached, state)
}

/// A log is taken over into a stream without events, by a store that shows events
/// as they are stored and whose cache agrees with its log.
pub open spec fn starts_clean<E: EventBackend, C: CacheBackend, K: CheckpointBackend>(
    store: &Store<E, C, K>,
    stream: Seq<char>,
) -> bool {
    &&& store.log().events(stream).len() == 0
    &&& store.events().upcasters@.len() == 0
    &&& store.cache_is_coherent()
}

/// The states of `stream` are those after the first `n` changes.
pub open spec fn states_follow<E: EventBackend, C: CacheBackend, K: CheckpointBackend>(
    store: &Store<E, C, K>,
    stream: Seq<char>,
    entries: Seq<LegacyEntry>,
    n: nat,
) -> bool {
    forall|i: int|
        0 <= i < n ==> stands_for(
            store,
            stream,
            (i + 1) as u64,
            json_text((#[trigger] entries[i]).after),
        )
}

/// The first `n` changes were written, which led to `middle`; the import of the
/// next one, which starts where it has to, failed with `error`.
pub open spec fn import_failed<E: EventBackend, C: CacheBackend, K: CheckpointBackend>(
    earlier: &Store<E, C, K>,
    middle: &Store<E, C, K>,
    later: &Store<E, C, K>,
    stream: Seq<char>,
    entries: Seq<LegacyEntry>,
    n: nat,
    error: StoreError,
) -> bool {
    &&& n < entries.len()
    &&& forall|i: int| 0 <= i <= n ==> is_chained(entries, i)
    &&& middle.wf()
    &&& middle.same_setup(earlier)
    &&& took_over(earlier, middle, stream, entries, n)
    &&& leads_on(entries, n + 1)
    &&& starts_clean(earlier, stream) ==> states_follow(middle, stream, entries, n)
    &&& later.write_effect(
        middle,
        stream,
        legacy_draft(entries, n as int),
        WriteMode::Import(Timestamp(entries[n as int].at_ms)),
        Err(error),
    )
    &&& !(middle.append_is_due(stream, legacy_draft(entries, n as int)) && middle.offered(
        stream,
        legacy_draft(entries, n as int),
        WriteMode::Import(Timestamp(entries[n as int].at_ms)),
    ))
}

/// One more event was appended to `stream`.
proof fn one_more<E: EventBackend, C: CacheBackend, K: CheckpointBackend>(
    earlier: &Store<E, C, K>,
    middle: &Store<E, C, K>,
    later: &Store<E, C, K>,
    stream: Seq<char>,
    entries: Seq<LegacyEntry>,
    n: nat,
)
    requires
        earlier.wf(),
        n < entries.len(),
        next_of(earlier.log().events(stream)) + entries.len() < u64::MAX,
        took_over(earlier, middle, stream, entries, n),
        later.log() == middle.log().appended(
            stream,
            legacy_event(entries, next_of(earlier.log().events(stream)), n as int),
        ),
    ensures
        took_over(earlier, later, stream, entries, n + 1),
{
    let before = earlier.log().events(stream);
    let first = next_of(before);
    assert(later.log().events(stream) =~= before + legacy_events(entries, first, n + 1));
    assert forall|other: Seq<char>| other != stream implies #[trigger] later.log().events(other)
        == earlier.log().events(other) by {
        assert(later.log().events(other) == middle.log().events(other));
    }
}

/// One more change written takes a stream that started clean one state further.
proof fn one_more_state<E: EventBackend, C: CacheBackend, K: CheckpointBackend>(
    earlier: &Store<E, C, K>,
    middle: &Store<E, C, K>,
    later: &Store<E, C, K>,
    stream: Seq<char>,
    entries: Seq<LegacyEntry>,
    n: nat,
    committed: Committed,
)
    requires
        earlier.wf(),
        middle.wf(),
        later.wf(),
        middle.log().has_room(stream),
        n < entries.len(),
        entries.len() + 1 < u64::MAX,
        starts_clean(earlier, stream),
        middle.same_setup(earlier),
        later.same_setup(middle),
        took_over(earlier, middle, stream, entries, n),
        middle.cache_is_coherent(),
        states_follow(middle, stream, entries, n),
        later.write_effect(
            middle,
            stream,
            legacy_draft(entries, n as int),
            WriteMode::Import(Timestamp(entries[n as int].at_ms)),
            Ok(committed),
        ),
        same_json(expected_before(entries, n as int), json_text(entries[n as int].before)),
        equal_to_the_same(
            json_text(entries[n as int].before),
            expected_before(entries, n as int),
        ),
        leads_from_equals_to(
            json_text(entries[n as int].before),
            legacy_draft(entries, n as int).patch,
            json_text(entries[n as int].after),
        ),
    ensures
        later.cache_is_coherent(),
        states_follow(later, stream, entries, n + 1),
{
    let draft = legacy_draft(entries, n as int);
    let mode = WriteMode::Import(Timestamp(entries[n as int].at_ms));
    let before = earlier.log().events(stream);
    let written = legacy_events(entries, 1, n);
    assert(before + written =~= written);
    next_place(before, entries, n);
    shown_is_gap_free(middle, stream);
    shown_is_gap_free(later, stream);
    later.writing_keeps_the_cache_coherent(middle, stream, draft, mode, Ok(committed));
    later.a_write_is_read_back(middle, stream, draft, mode, committed);
    if n > 0 {
        assert(written.last() == legacy_event(entries, 1, n - 1));
        assert(middle.log().head(stream) == Some(n as u64));
        assert(stands_for(middle, stream, n as u64, json_text(entries[n - 1].after)));
    }
    assert(stands_for(later, stream, (n + 1) as u64, json_text(entries[n as int].after)));
    assert forall|i: int| 0 <= i < n + 1 implies stands_for(
        later,
        stream,
        (i + 1) as u64,
        json_text((#[trigger] entries[i]).after),
    ) by {
        if i < n {
            later.past_answers_stay(
                middle,
                stream,
                draft,
                mode,
                Ok(committed),
                stream,
                (i + 1) as u64,
            );
        }
    }
}

/// Where the next event goes once `n` changes were written.
proof fn next_place(before: Seq<EventView>, entries: Seq<LegacyEntry>, n: nat)
    requires
        n <= entries.len(),
        0 < next_of(before),
        next_of(before) + entries.len() < u64::MAX,
    ensures
        next_of(before + legacy_events(entries, next_of(before), n)) == next_of(before) + n,
{
    let after = before + legacy_events(entries, next_of(before), n);
    if n > 0 {
        assert(after.last() == legacy_event(entries, next_of(before), n - 1));
    } else {
        assert(after =~= before);
    }
}

/// Write `entries` to `stream`, one event each, at the times that they hold. Each
/// has to start where the one before it ended, and the first from nothing.
pub fn migrate<E: EventBackend, C: CacheBackend, K: CheckpointBackend>(
    store: &mut Store<E, C, K>,
    stream: &StreamId,
    entries: &[LegacyEntry],
) -> (r: Result<usize, LegacyError>)
    requires
        old(store).wf(),
        next_of(old(store).log().events(stream@)) + entries@.len() < u64::MAX,
        old(store).log().events(stream@).len() + entries@.len() < usize::MAX,
    ensures
        final(store).wf(),
        final(store).same_setup(old(store)),
        match r {
            Ok(n) => {
                &&& n == entries@.len()
                &&& forall|i: int| 0 <= i < n ==> is_chained(entries@, i)
                &&& took_over(old(store), final(store), stream@, entries@, n as nat)
                &&& leads_on(entries@, n as nat)
                &&& starts_clean(old(store), stream@) ==> states_follow(
                    final(store),
                    stream@,
                    entries@,
                    n as nat,
                )
            },
            Err(LegacyError::BrokenChain(n)) => {
                &&& n < entries@.len()
                &&& !is_chained(entries@, n as int)
                &&& forall|i: int| 0 <= i < n ==> is_chained(entries@, i)
                &&& took_over(old(store), final(store), stream@, entries@, n as nat)
                &&& leads_on(entries@, n as nat)
                &&& starts_clean(old(store), stream@) ==> states_follow(
                    final(store),
                    stream@,
                    entries@,
                    n as nat,
                )
            },
            Err(LegacyError::Store(e)) => exists|middle: Store<E, C, K>, n: nat| #[trigger]
                import_failed(old(store), &middle, final(store), stream@, entries@, n, e),
        },
{
    let ghost earlier = *store;
    let ghost before = store.log().events(stream@);
    let ghost first = next_of(before);
    proof {
        shown_is_gap_free(store, stream@);
        assert(before + legacy_events(entries@, first, 0) =~= before);
    }
    let mut n: usize = 0;
    while n < entries.len()
        invariant
            earlier.wf(),
            store.wf(),
            store.same_setup(&earlier),
            before == earlier.log().events(stream@),
            first == next_of(before),
            first > 0,
            first + entries@.len() < u64::MAX,
            before.len() + entries@.len() < usize::MAX,
            n <= entries@.len(),
            earlier == *old(store),
            forall|i: int| 0 <= i < n ==> is_chained(entries@, i),
            took_over(&earlier, store, stream@, entries@, n as nat),
            leads_on(entries@, n as nat),
            starts_clean(&earlier, stream@) ==> store.cache_is_coherent() && states_follow(
                store,
                stream@,
                entries@,
                n as nat,
            ),
        decreases entries@.len() - n,
    {
        let chained = if n == 0 {
            same_value(&entries[n].before, &empty_state())
        } else {
            same_value(&entries[n].before, &entries[n - 1].after)
        };
        if !chained {
            return Err(LegacyError::BrokenChain(n));
        }
        let patch = diff(&entries[n].before, &entries[n].after);
        proof {
            reveal_strlit("{}");
            assert("{}"@[0] == '{');
            next_place(before, entries@, n as nat);
        }
        let meta = set_member(empty_object(), "legacy_index", number(n as u64));
        let ghost middle = *store;
        let ghost draft = DraftView {
            kind: entries@[n as int].kind@,
            patch: patch_text(patch),
            meta: json_text(meta),
        };
        let at = Timestamp(entries[n].at_ms);
        let outcome = store.import_event(stream, entries[n].kind.as_str(), patch, meta, at);
        proof {
            let event = legacy_event(entries@, first, n as int);
            if exists|time: i64| #[trigger]
                store.written(&middle, stream@, draft, WriteMode::Import(at), time, outcome) {
                let time = choose|time: i64| #[trigger]
                    store.written(&middle, stream@, draft, WriteMode::Import(at), time, outcome);
                assert(draft.committed(next_of(middle.log().events(stream@)) as u64, time)
                    == event);
                one_more(&earlier, &middle, store, stream@, entries@, n as nat);
            } else {
                assert(store.log() == middle.log());
                assert(took_over(&earlier, store, stream@, entries@, n as nat));
            }
        }
        match outcome {
            Ok(committed) => {
                proof {
                    if starts_clean(&earlier, stream@) {
                        one_more_state(
                            &earlier,
                            &middle,
                            store,
                            stream@,
                            entries@,
                            n as nat,
                            committed,
                        );
                    }
                }
            },
            Err(e) => {
                proof {
                    assert(draft == legacy_draft(entries@, n as int));
                    assert(import_failed(&earlier, &middle, store, stream@, entries@, n as nat, e));
                }
                return Err(LegacyError::Store(e));
            },
        }
        n = n + 1;
    }
    Ok(n)
}

/// Each change becomes one event, right after the one before it: with its kind and
/// its time, the patch from the state before to the state after, and its place in
/// the log that is taken over. A change is chained if it starts, as `serde_json`
/// compares, where the change before it ended; the first, if it starts from null.
pub proof fn each_change_becomes_one_event(
    entries: Seq<LegacyEntry>,
    first: int,
    n: nat,
    i: int,
)
    requires
        0 <= i < n <= entries.len(),
        0 <= first,
        first + entries.len() < u64::MAX,
    ensures
        legacy_events(entries, first, n).len() == n,
        legacy_events(entries, first, n)[i] == (EventView {
            seq: (first + i) as u64,
            kind: entries[i].kind@,
            patch: diffed(json_text(entries[i].before), json_text(entries[i].after)),
            meta: seq!['{'] + json_string("legacy_index"@) + seq![':'] + decimal(i as nat)
                + seq!['}'],
            at: entries[i].at_ms,
        }),
        is_chained(entries, i) <==> same_json(
            json_text(entries[i].before),
            if i == 0 {
                "null"@
            } else {
                json_text(entries[i - 1].after)
            },
        ),
{
}

/// A broken chain is reported with the place at which it breaks.
pub proof fn a_broken_chain_is_located(index: nat)
    ensures
        broken_chain_words(index) == "legacy chain broken at index "@ + decimal(index)
            + ": `before` != previous `after` (or null for the head)"@,
{
}

/// Taking over changes no stream but the one that the changes go to, and rewrites none of
/// the events that were there.
pub proof fn taking_over_adds_to_one_stream<
    E: EventBackend,
    C: CacheBackend,
    K: CheckpointBackend,
>(
    earlier: &Store<E, C, K>,
    later: &Store<E, C, K>,
    stream: Seq<char>,
    entries: Seq<LegacyEntry>,
    n: nat,
    other: Seq<char>,
)
    requires
        took_over(earlier, later, stream, entries, n),
    ensures
        other != stream ==> later.log().events(other) == earlier.log().events(other),
        later.log().events(stream).len() == earlier.log().events(stream).len() + n,
        later.log().events(stream).take(earlier.log().events(stream).len() as int)
            == earlier.log().events(stream),
{
    assert(later.log().events(stream).take(earlier.log().events(stream).len() as int)
        =~= earlier.log().events(stream));
}

/// All changes are taken over, or those before the first that does not start where it has
/// to, or those before the first that the store did not take; and none after it.
pub proof fn changes_are_taken_over_up_to_the_first_that_fails<
    E: EventBackend,
    C: CacheBackend,
    K: CheckpointBackend,
>()
    ensures
        forall|
            store: &mut Store<E, C, K>,
            stream: &StreamId,
            entries: &[LegacyEntry],
            r: Result<usize, LegacyError>,
        | #[trigger]
            call_ensures(migrate::<E, C, K>, (store, stream, entries), r) ==> match r {
                Ok(n) => {
                    &&& n == entries@.len()
                    &&& forall|i: int| 0 <= i < n ==> is_chained(entries@, i)
                    &&& took_over(&*store, &*final(store), stream@, entries@, n as nat)
                },
                Err(LegacyError::BrokenChain(n)) => {
                    &&& n < entries@.len()
                    &&& !is_chained(entries@, n as int)
                    &&& forall|i: int| 0 <= i < n ==> is_chained(entries@, i)
                    &&& took_over(&*store, &*final(store), stream@, entries@, n as nat)
                },
                Err(LegacyError::Store(e)) => exists|middle: Store<E, C, K>, n: nat| #[trigger]
                    import_failed(
                        &*store,
                        &middle,
                        &*final(store),
                        stream@,
                        entries@,
                        n,
                        e,
                    ),
            },
{
}

} // verus!
