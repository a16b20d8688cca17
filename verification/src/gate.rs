//! Checks that every write has to pass.
use vstd::prelude::*;

use crate::error::{SchemaViolation, ViolationView};
use crate::id::StreamId;
use crate::json::{json_text, patch_text};

verus! {

/// One candidate write, as a gate sees it.
pub struct GateCtx<'a> {
    /// The stream.
    pub stream: &'a StreamId,
    /// The kind of the event.
    pub kind: &'a str,
    /// The patch that is to be applied.
    pub patch: &'a json_patch::Patch,
    /// The state before the patch.
    pub current: &'a serde_json::Value,
    /// The state after the patch.
    pub next: &'a serde_json::Value,
}

/// What a [`GateCtx`] says.
pub struct CandidateView {
    /// The stream.
    pub stream: Seq<char>,
    /// The kind of the event.
    pub kind: Seq<char>,
    /// The patch that is to be applied.
    pub patch: Seq<char>,
    /// The state before the patch.
    pub current: Seq<char>,
    /// The state after the patch.
    pub next: Seq<char>,
}

impl<'a> View for GateCtx<'a> {
    type V = CandidateView;

    open spec fn view(&self) -> CandidateView {
        CandidateView {
            stream: self.stream@,
            kind: self.kind@,
            patch: patch_text(*self.patch),
            current: json_text(*self.current),
            next: json_text(*self.next),
        }
    }
}

/// What a gate answered.
pub open spec fn verdict_view(r: Result<(), SchemaViolation>) -> Result<(), ViolationView> {
    match r {
        Ok(_) => Ok(()),
        Err(v) => Err(v@),
    }
}

/// A check that is made before a write reaches the log.
///
/// What the ghost functions mean is up to the implementation; where it does not
/// say, it is left open.
pub trait SchemaGate: Send + Sync {
    /// Whether this check may answer `verdict` to `candidate`.
    closed spec fn may_answer(
        &self,
        candidate: CandidateView,
        verdict: Result<(), ViolationView>,
    ) -> bool {
        arbitrary()
    }

    /// Check a candidate write; an error turns it down.
    fn validate(&self, ctx: &GateCtx<'_>) -> (r: Result<(), SchemaViolation>)
        ensures
            self.may_answer(ctx@, verdict_view(r)),
    ;
}

} // verus!
