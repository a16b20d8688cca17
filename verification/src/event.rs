//! Events, drafts of events, and what a write reports back.
use vstd::prelude::*;

use crate::id::{SeqNo, Timestamp};
use crate::json::{json_text, patch_text};

verus! {

/// A committed entry of a stream.
#[derive(Debug, PartialEq)]
pub struct Event {
    /// Coordinate, assigned by the store.
    pub seq: SeqNo,
    /// What happened, in the consumer's words.
    pub kind: String,
    /// Patch that leads from the state before the event to the state after it.
    pub patch: json_patch::Patch,
    /// Attribution; it has no effect on the state.
    pub meta: serde_json::Value,
    /// Time of the event.
    pub at: Timestamp,
}

/// What an [`Event`] says: patch and attribution by their JSON texts.
pub struct EventView {
    /// Coordinate.
    pub seq: u64,
    /// What happened.
    pub kind: Seq<char>,
    /// Patch.
    pub patch: Seq<char>,
    /// Attribution.
    pub meta: Seq<char>,
    /// Time of the event.
    pub at: i64,
}

impl View for Event {
    type V = EventView;

    open spec fn view(&self) -> EventView {
        EventView {
            seq: self.seq.0,
            kind: self.kind@,
            patch: patch_text(self.patch),
            meta: json_text(self.meta),
            at: self.at.0,
        }
    }
}

impl Clone for Event {
    fn clone(&self) -> (r: Self)
        ensures
            r@ == self@,
    {
        Event {
            seq: self.seq,
            kind: self.kind.clone(),
            patch: self.patch.clone(),
            meta: self.meta.clone(),
            at: self.at,
        }
    }
}

/// An event before the backend has given it a coordinate and a time.
#[derive(Debug, PartialEq)]
pub struct NewEvent {
    /// What happened, in the consumer's words.
    pub kind: String,
    /// Patch that leads from the state before the event to the state after it.
    pub patch: json_patch::Patch,
    /// Attribution; it has no effect on the state.
    pub meta: serde_json::Value,
}

/// What a [`NewEvent`] says.
pub struct DraftView {
    /// What happened.
    pub kind: Seq<char>,
    /// Patch.
    pub patch: Seq<char>,
    /// Attribution.
    pub meta: Seq<char>,
}

impl View for NewEvent {
    type V = DraftView;

    open spec fn view(&self) -> DraftView {
        DraftView { kind: self.kind@, patch: patch_text(self.patch), meta: json_text(self.meta) }
    }
}

impl Clone for NewEvent {
    fn clone(&self) -> (r: Self)
        ensures
            r@ == self@,
    {
        NewEvent {
            kind: self.kind.clone(),
            patch: self.patch.clone(),
            meta: self.meta.clone(),
        }
    }
}

impl DraftView {
    /// The event that the draft becomes at coordinate `seq` and time `at`.
    pub open spec fn committed(self, seq: u64, at: i64) -> EventView {
        EventView { seq, kind: self.kind, patch: self.patch, meta: self.meta, at }
    }
}

/// Where and when a write landed.
#[derive(Debug, Clone, Copy, PartialEq, Eq, Structural)]
pub struct Committed {
    /// Coordinate of the event.
    pub seq: SeqNo,
    /// Time of the event.
    pub at: Timestamp,
}

/// The views of the events in `events`.
pub open spec fn event_views(events: Seq<Event>) -> Seq<EventView> {
    events.map_values(|e: Event| e@)
}

} // verus!
