//! State as the sum of patches.
use vstd::prelude::*;

use crate::error::{ErrorView, StoreError};
use crate::event::{event_views, Event, EventView};
use crate::json::{apply_patch, json_text, null, patched};
use crate::text::{decimal, decimal_text};

verus! {

/// A document, or why there is none.
pub type StateResult = Result<Seq<char>, ErrorView>;

/// What a result with a document says.
pub open spec fn state_result(r: Result<serde_json::Value, StoreError>) -> StateResult {
    match r {
        Ok(v) => Ok(json_text(v)),
        Err(e) => Err(e@),
    }
}

/// The JSON text of the state of a stream without events.
pub open spec fn empty_text() -> Seq<char> {
    "null"@
}

/// The message for an event whose patch does not apply.
pub open spec fn replay_words(seq: u64, message: Seq<char>) -> Seq<char> {
    "event seq="@ + decimal(seq as nat) + ": "@ + message
}

/// The state after the patches of `events`, in order, starting from `base`. The
/// first patch that does not apply ends it.
pub open spec fn replay(base: Seq<char>, events: Seq<EventView>) -> StateResult
    decreases events.len(),
{
    if events.len() == 0 {
        Ok(base)
    } else {
        match replay(base, events.drop_last()) {
            Ok(state) => match patched(state, events.last().patch) {
                Ok(next) => Ok(next),
                Err(m) => Err(ErrorView::Patch(replay_words(events.last().seq, m))),
            },
            Err(e) => Err(e),
        }
    }
}

/// A replay fails on nothing but a patch that does not apply.
pub proof fn a_replay_fails_on_a_patch(base: Seq<char>, events: Seq<EventView>)
    ensures
        replay(base, events) matches Err(e) ==> e is Patch,
    decreases events.len(),
{
    if events.len() > 0 {
        a_replay_fails_on_a_patch(base, events.drop_last());
    }
}

/// Replaying a log is replaying its beginning and then the rest.
pub proof fn replay_in_two_steps(base: Seq<char>, first: Seq<EventView>, rest: Seq<EventView>)
    ensures
        replay(base, first + rest) == match replay(base, first) {
            Ok(state) => replay(state, rest),
            Err(e) => Err(e),
        },
    decreases rest.len(),
{
    if rest.len() == 0 {
        assert(first + rest =~= first);
    } else {
        assert((first + rest).drop_last() =~= first + rest.drop_last());
        assert((first + rest).last() == rest.last());
        replay_in_two_steps(base, first, rest.drop_last());
    }
}

/// The state of a stream without events.
pub fn empty_state() -> (r: serde_json::Value)
    ensures
        json_text(r) == empty_text(),
{
    null()
}

/// Apply the patches of `events`, in order, to `base`.
pub fn replay_from(base: serde_json::Value, events: &[Event]) -> (r: Result<
    serde_json::Value,
    StoreError,
>)
    ensures
        state_result(r) == replay(json_text(base), event_views(events@)),
{
    let mut state = base;
    let ghost views = event_views(events@);
    let mut i: usize = 0;
    proof {
        assert(views.take(0) =~= Seq::<EventView>::empty());
    }
    while i < events.len()
        invariant
            i <= events@.len(),
            views == event_views(events@),
            replay(json_text(base), views.take(i as int)) == StateResult::Ok(json_text(state)),
        decreases events@.len() - i,
    {
        proof {
            assert(views.take(i as int + 1).drop_last() =~= views.take(i as int));
            assert(views.take(i as int + 1).last() == events@[i as int]@);
        }
        match apply_patch(&state, &events[i].patch) {
            Ok(next) => {
                state = next;
            },
            Err(m) => {
                let mut words = "event seq=".to_owned();
                words.append(decimal_text(events[i].seq.0).as_str());
                words.append(": ");
                words.append(m.as_str());
                proof {
                    let broken = views.take(i as int + 1);
                    assert(views =~= broken + views.skip(i as int + 1));
                    replay_in_two_steps(json_text(base), broken, views.skip(i as int + 1));
                }
                return Err(StoreError::Patch(words));
            },
        }
        i = i + 1;
    }
    proof {
        assert(views.take(i as int) =~= views);
    }
    Ok(state)
}

/// A replay goes patch by patch: nothing replayed is the base, and one more event
/// applies its patch to the state before it, whatever kind of event it is. A patch
/// that does not apply is named by its coordinate.
pub proof fn a_replay_goes_patch_by_patch(
    base: Seq<char>,
    events: Seq<EventView>,
    event: EventView,
)
    ensures
        replay(base, Seq::empty()) == StateResult::Ok(base),
        replay(base, events.push(event)) == match replay(base, events) {
            Ok(state) => match patched(state, event.patch) {
                Ok(next) => StateResult::Ok(next),
                Err(m) => StateResult::Err(
                    ErrorView::Patch("event seq="@ + decimal(event.seq as nat) + ": "@ + m),
                ),
            },
            Err(e) => StateResult::Err(e),
        },
{
    assert(events.push(event).drop_last() =~= events);
}

} // verus!
