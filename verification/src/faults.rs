//! How storage may fail: the errors that a backend may answer with, as far as
//! what it promises of its own methods goes.
use vstd::prelude::*;

use crate::backend::{CacheBackend, EventBackend};
use crate::error::{ErrorView, StoreError};
use crate::event::Event;
use crate::id::{Label, SeqNo, StreamId, Timestamp};
use crate::json::json_text;

verus! {

/// Reading a page of `stream` may fail with `error`.
pub open spec fn read_may_fail<E: EventBackend>(
    backend: E,
    stream: Seq<char>,
    from: SeqNo,
    limit: usize,
    error: ErrorView,
) -> bool {
    exists|s: &StreamId, e: StoreError|
        s@ == stream && e@ == error && #[trigger] call_ensures(
            <E as EventBackend>::read,
            (&backend, s, from, limit),
            Err::<Vec<Event>, StoreError>(e),
        )
}

/// Reading events by their attribution may fail with `error`.
pub open spec fn read_by_meta_may_fail<E: EventBackend>(
    backend: E,
    stream: Seq<char>,
    field: Seq<char>,
    value: Seq<char>,
    from: SeqNo,
    limit: usize,
    error: ErrorView,
) -> bool {
    exists|s: &StreamId, f: &str, v: &serde_json::Value, e: StoreError|
        s@ == stream && f@ == field && json_text(*v) == value && e@ == error
            && #[trigger] call_ensures(
            <E as EventBackend>::read_by_meta,
            (&backend, s, f, v, from, limit),
            Err::<Vec<Event>, StoreError>(e),
        )
}

/// Asking for the head of `stream` may fail with `error`.
pub open spec fn head_may_fail<E: EventBackend>(
    backend: E,
    stream: Seq<char>,
    error: ErrorView,
) -> bool {
    exists|s: &StreamId, e: StoreError|
        s@ == stream && e@ == error && #[trigger] call_ensures(
            <E as EventBackend>::head,
            (&backend, s),
            Err::<Option<SeqNo>, StoreError>(e),
        )
}

/// Asking for a coordinate by its time may fail with `error`.
pub open spec fn seq_at_time_may_fail<E: EventBackend>(
    backend: E,
    stream: Seq<char>,
    at: Timestamp,
    error: ErrorView,
) -> bool {
    exists|s: &StreamId, e: StoreError|
        s@ == stream && e@ == error && #[trigger] call_ensures(
            <E as EventBackend>::seq_at_time,
            (&backend, s, at),
            Err::<Option<SeqNo>, StoreError>(e),
        )
}

/// Listing the streams may fail with `error`.
pub open spec fn streams_may_fail<E: EventBackend>(backend: E, error: ErrorView) -> bool {
    exists|e: StoreError|
        e@ == error && #[trigger] call_ensures(
            <E as EventBackend>::streams,
            (&backend,),
            Err::<Vec<StreamId>, StoreError>(e),
        )
}

/// Asking what `stream` was compacted to may fail with `error`.
pub open spec fn boundary_may_fail<E: EventBackend>(
    backend: E,
    stream: Seq<char>,
    error: ErrorView,
) -> bool {
    exists|s: &StreamId, e: StoreError|
        s@ == stream && e@ == error && #[trigger] call_ensures(
            <E as EventBackend>::compaction_boundary,
            (&backend, s),
            Err::<Option<SeqNo>, StoreError>(e),
        )
}

/// Asking what `label` points at may fail with `error`.
pub open spec fn label_resolve_may_fail<E: EventBackend>(
    backend: E,
    stream: Seq<char>,
    label: Seq<char>,
    error: ErrorView,
) -> bool {
    exists|s: &StreamId, l: &Label, e: StoreError|
        s@ == stream && l@ == label && e@ == error && #[trigger] call_ensures(
            <E as EventBackend>::label_resolve,
            (&backend, s, l),
            Err::<Option<SeqNo>, StoreError>(e),
        )
}

/// Listing the labels of `stream` may fail with `error`.
pub open spec fn labels_may_fail<E: EventBackend>(
    backend: E,
    stream: Seq<char>,
    error: ErrorView,
) -> bool {
    exists|s: &StreamId, e: StoreError|
        s@ == stream && e@ == error && #[trigger] call_ensures(
            <E as EventBackend>::labels,
            (&backend, s),
            Err::<Vec<(Label, SeqNo)>, StoreError>(e),
        )
}

/// Pointing `label` at `at` may fail with `error`.
pub open spec fn label_set_may_fail<E: EventBackend>(
    backend: E,
    stream: Seq<char>,
    label: Seq<char>,
    at: SeqNo,
    error: ErrorView,
) -> bool {
    exists|b: &mut E, s: &StreamId, l: &Label, e: StoreError|
        *b == backend && s@ == stream && l@ == label && e@ == error && #[trigger] call_ensures(
            <E as EventBackend>::label_set,
            (b, s, l, at),
            Err::<(), StoreError>(e),
        )
}

/// Removing `label` may fail with `error`.
pub open spec fn label_delete_may_fail<E: EventBackend>(
    backend: E,
    stream: Seq<char>,
    label: Seq<char>,
    error: ErrorView,
) -> bool {
    exists|b: &mut E, s: &StreamId, l: &Label, e: StoreError|
        *b == backend && s@ == stream && l@ == label && e@ == error && #[trigger] call_ensures(
            <E as EventBackend>::label_delete,
            (b, s, l),
            Err::<bool, StoreError>(e),
        )
}

/// Looking for a cached state may fail with `error`.
pub open spec fn nearest_may_fail<C: CacheBackend>(
    cache: C,
    stream: Seq<char>,
    at: SeqNo,
    error: ErrorView,
) -> bool {
    exists|s: &StreamId, e: StoreError|
        s@ == stream && e@ == error && #[trigger] call_ensures(
            <C as CacheBackend>::nearest,
            (&cache, s, at),
            Err::<Option<(SeqNo, serde_json::Value)>, StoreError>(e),
        )
}

/// Caching `state` may fail with `error`.
pub open spec fn put_may_fail<C: CacheBackend>(
    cache: C,
    stream: Seq<char>,
    at: SeqNo,
    state: Seq<char>,
    error: ErrorView,
) -> bool {
    exists|c: &mut C, s: &StreamId, v: &serde_json::Value, e: StoreError|
        *c == cache && s@ == stream && json_text(*v) == state && e@ == error
            && #[trigger] call_ensures(
            <C as CacheBackend>::put,
            (c, s, at, v),
            Err::<(), StoreError>(e),
        )
}

/// Dropping cached states may fail with `error`.
pub open spec fn prune_may_fail<C: CacheBackend>(
    cache: C,
    stream: Seq<char>,
    keep_latest: usize,
    error: ErrorView,
) -> bool {
    exists|c: &mut C, s: &StreamId, e: StoreError|
        *c == cache && s@ == stream && e@ == error && #[trigger] call_ensures(
            <C as CacheBackend>::prune,
            (c, s, keep_latest),
            Err::<(), StoreError>(e),
        )
}

/// Storage that works does not fail. Setting a label is not among what is listed,
/// since it is refused where there is no event.
pub proof fn working_storage_does_not_fail<E: EventBackend, C: CacheBackend>(
    backend: E,
    cache: C,
    stream: Seq<char>,
    error: ErrorView,
)
    requires
        backend.reliable(),
        cache.reliable(),
    ensures
        forall|from: SeqNo, limit: usize| !#[trigger]
            read_may_fail(backend, stream, from, limit, error),
        !head_may_fail(backend, stream, error),
        !boundary_may_fail(backend, stream, error),
        !streams_may_fail(backend, error),
        !labels_may_fail(backend, stream, error),
        forall|field: Seq<char>, value: Seq<char>, from: SeqNo, limit: usize| !#[trigger]
            read_by_meta_may_fail(backend, stream, field, value, from, limit, error),
        forall|at: Timestamp| !#[trigger] seq_at_time_may_fail(backend, stream, at, error),
        forall|label: Seq<char>| !#[trigger] label_resolve_may_fail(backend, stream, label, error),
        forall|label: Seq<char>| !#[trigger] label_delete_may_fail(backend, stream, label, error),
        forall|keep: usize| !#[trigger] prune_may_fail(cache, stream, keep, error),
        forall|at: SeqNo| !#[trigger] nearest_may_fail(cache, stream, at, error),
        forall|at: SeqNo, state: Seq<char>| !#[trigger]
            put_may_fail(cache, stream, at, state, error),
{
}

} // verus!
