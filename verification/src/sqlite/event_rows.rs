//! The tables of events, labels, cached states and checkpoints.
use vstd::prelude::*;

use crate::error::{ErrorView, StoreError};
use crate::event::{event_views, Event, EventView, NewEvent};
use crate::id::{SeqNo, StreamId, Timestamp};
use crate::json::{
    is_exact, json_text, parse, parse_patch, parsed, parsed_patch, patch_text, render, render_patch,
};
use crate::log::{at_most, gap_free, since};
use crate::sqlite::page_laws::counts_are_bound_as_they_are;
use crate::sqlite::query::{param_views, sql_count, to_sql_count, ParamView, SqlParam};
use crate::store::SNAPSHOT_KIND;
use crate::text::{chars_of, same_text};

verus! {

/// The settings of a connection.
pub const STARTUP_PRAGMAS: &'static str =
    "PRAGMA journal_mode = WAL; PRAGMA synchronous = NORMAL; \
     PRAGMA foreign_keys = ON; PRAGMA busy_timeout = 5000;";

/// The head of a stream.
pub const SELECT_HEAD: &'static str = "SELECT MAX(seq) FROM events WHERE stream = ?1";

/// One more event.
pub const INSERT_EVENT: &'static str =
    "INSERT INTO events (stream, seq, kind, patch, meta, at_ms) VALUES (?1, ?2, ?3, ?4, ?5, ?6)";

/// A page of events.
pub const SELECT_EVENTS: &'static str =
    "SELECT seq, kind, patch, meta, at_ms FROM events \
     WHERE stream = ?1 AND seq >= ?2 ORDER BY seq ASC LIMIT ?3";

/// A page of events whose attribution has a member equal to a value. The types
/// are compared too, since SQLite holds true and one to be equal.
pub const SELECT_BY_META: &'static str =
    "SELECT seq, kind, patch, meta, at_ms FROM events WHERE stream = ?1 AND seq >= ?2 \
     AND json_type(meta, ?3) = json_type(?4, '$') \
     AND json_extract(meta, ?3) = json_extract(?4, '$') ORDER BY seq ASC LIMIT ?5";

/// A page of events whose attribution has a member that is null.
pub const SELECT_BY_NULL_META: &'static str =
    "SELECT seq, kind, patch, meta, at_ms FROM events WHERE stream = ?1 AND seq >= ?2 \
     AND json_type(meta, ?3) = 'null' ORDER BY seq ASC LIMIT ?4";

/// The greatest coordinate whose event is not later than a time.
pub const SELECT_SEQ_AT_TIME: &'static str =
    "SELECT MAX(seq) FROM events WHERE stream = ?1 AND at_ms <= ?2";

/// The streams that have events.
pub const SELECT_STREAMS: &'static str = "SELECT DISTINCT stream FROM events";

/// The first event of a stream.
pub const SELECT_FIRST_EVENT: &'static str =
    "SELECT seq, kind FROM events WHERE stream = ?1 ORDER BY seq ASC LIMIT 1";

/// Whether there is an event at a coordinate.
pub const SELECT_HAS_EVENT: &'static str = "SELECT 1 FROM events WHERE stream = ?1 AND seq = ?2";

/// A label that is to point at a coordinate.
pub const UPSERT_LABEL: &'static str =
    "INSERT INTO labels (stream, name, at_seq) VALUES (?1, ?2, ?3) \
     ON CONFLICT(stream, name) DO UPDATE SET at_seq = excluded.at_seq";

/// What a label points at.
pub const SELECT_LABEL: &'static str = "SELECT at_seq FROM labels WHERE stream = ?1 AND name = ?2";

/// The labels of a stream, by name.
pub const SELECT_LABELS: &'static str =
    "SELECT name, at_seq FROM labels WHERE stream = ?1 ORDER BY name ASC";

/// A label that is to go.
pub const DELETE_LABEL: &'static str = "DELETE FROM labels WHERE stream = ?1 AND name = ?2";

/// A state for the cache.
pub const UPSERT_CACHE: &'static str =
    "INSERT INTO cache (stream, at_seq, state) VALUES (?1, ?2, ?3) \
     ON CONFLICT(stream, at_seq) DO UPDATE SET state = excluded.state";

/// The nearest cached state that does not exceed a coordinate.
pub const SELECT_NEAREST: &'static str =
    "SELECT at_seq, state FROM cache WHERE stream = ?1 AND at_seq <= ?2 \
     ORDER BY at_seq DESC LIMIT 1";

/// The cached states that are not among the latest.
pub const PRUNE_CACHE: &'static str =
    "DELETE FROM cache WHERE stream = ?1 AND at_seq NOT IN \
     (SELECT at_seq FROM cache WHERE stream = ?1 ORDER BY at_seq DESC LIMIT ?2)";

/// The checkpoint of a sink.
pub const SELECT_CHECKPOINT: &'static str =
    "SELECT at_seq FROM sink_checkpoints WHERE sink_id = ?1 AND stream = ?2";

/// A checkpoint that is to be kept.
pub const UPSERT_CHECKPOINT: &'static str =
    "INSERT INTO sink_checkpoints (sink_id, stream, at_seq) VALUES (?1, ?2, ?3) \
     ON CONFLICT(sink_id, stream) DO UPDATE SET at_seq = excluded.at_seq";

/// A coordinate as SQLite holds it; those beyond its range are taken for its
/// end, where no event is.
pub open spec fn sql_seq(seq: u64) -> i64 {
    if seq > i64::MAX {
        i64::MAX
    } else {
        seq as i64
    }
}

/// `seq` as SQLite holds it.
pub fn to_sql_seq(seq: SeqNo) -> (r: i64)
    ensures
        r == sql_seq(seq.0),
        seq.0 <= i64::MAX ==> r == seq.0,
        seq.0 > i64::MAX ==> r == i64::MAX,
{
    if seq.0 > 9_223_372_036_854_775_807u64 {
        i64::MAX
    } else {
        seq.0 as i64
    }
}

/// The coordinate that SQLite holds as `n`. No event has a negative one.
pub fn from_sql_seq(n: i64) -> (r: SeqNo)
    ensures
        r.0 == if n < 0 {
            0
        } else {
            n as int
        },
{
    if n < 0 {
        SeqNo(0)
    } else {
        SeqNo(n as u64)
    }
}

/// What goes into one row of the events, or comes out of it.
#[derive(Debug, PartialEq, Eq)]
pub struct EventRow {
    /// The coordinate.
    pub seq: i64,
    /// The kind.
    pub kind: String,
    /// The patch, as JSON.
    pub patch: String,
    /// The attribution, as JSON.
    pub meta: String,
    /// The time.
    pub at_ms: i64,
}

impl EventRow {
    /// What the row says, the JSON taken as it stands.
    pub open spec fn face(&self) -> EventView {
        EventView {
            seq: if self.seq < 0 {
                0
            } else {
                self.seq as u64
            },
            kind: self.kind@,
            patch: self.patch@,
            meta: self.meta@,
            at: self.at_ms,
        }
    }

    /// The row was written from an event, and its JSON is read back as it is.
    pub open spec fn reads_back(&self) -> bool {
        &&& exists|p: json_patch::Patch| #[trigger] patch_text(p) == self.patch@
        &&& exists|v: serde_json::Value| #[trigger] json_text(v) == self.meta@
        &&& is_exact(self.patch@)
        &&& is_exact(self.meta@)
    }
}

/// Where the next event goes: right after the head, or at one.
pub open spec fn next_sql_seq(head: Option<i64>) -> int {
    match head {
        Some(h) => h + 1,
        None => 1,
    }
}

/// The row for `rec` as the event after `head`.
pub fn next_row(head: Option<i64>, rec: &NewEvent, at: Timestamp) -> (r: EventRow)
    requires
        head matches Some(h) ==> h < i64::MAX,
    ensures
        r.seq == next_sql_seq(head),
        head matches Some(h) ==> h >= 0 ==> r.face() == rec@.committed((h + 1) as u64, at.0),
        head is None ==> r.face() == rec@.committed(1, at.0),
        is_exact(rec@.patch) && is_exact(rec@.meta) ==> r.reads_back(),
{
    let seq: i64 = match head {
        Some(h) => h + 1,
        None => 1,
    };
    let r = EventRow {
        seq,
        kind: rec.kind.clone(),
        patch: render_patch(&rec.patch),
        meta: render(&rec.meta),
        at_ms: at.0,
    };
    proof {
        assert(patch_text(rec.patch) == r.patch@);
        assert(json_text(rec.meta) == r.meta@);
    }
    r
}

/// Whether a conditional write may go on: the head is where the writer expects
/// it. Zero stands for a stream without events.
pub fn check_head(head: Option<SeqNo>, expected: SeqNo) -> (r: Result<(), StoreError>)
    ensures
        match r {
            Ok(_) => match head {
                Some(h) => h.0 == expected.0,
                None => expected.0 == 0,
            },
            Err(e) => {
                &&& match head {
                    Some(h) => h.0 != expected.0,
                    None => expected.0 != 0,
                }
                &&& e@ == ErrorView::HeadConflict { expected, actual: head }
            },
        },
{
    let met = match head {
        Some(h) => h.0 == expected.0,
        None => expected.0 == 0,
    };
    if met {
        Ok(())
    } else {
        Err(StoreError::HeadConflict { expected, actual: head })
    }
}

/// Whether a label may point at `at`: there has to be an event.
pub fn check_label_target(has_event: bool, head: Option<SeqNo>, at: SeqNo) -> (r: Result<
    (),
    StoreError,
>)
    ensures
        match r {
            Ok(_) => has_event,
            Err(e) => !has_event && e@ == (ErrorView::SeqOutOfRange { head, requested: at }),
        },
{
    if has_event {
        Ok(())
    } else {
        Err(StoreError::SeqOutOfRange { head, requested: at })
    }
}

/// What a row of the events comes to: the event, or what in it does not decode.
pub open spec fn row_answer(row: EventRow) -> Result<EventView, ErrorView> {
    match parsed_patch(row.patch@) {
        Err(m) => Err(ErrorView::Corruption("events.patch: "@ + m)),
        Ok(patch) => match parsed(row.meta@) {
            Err(m) => Err(ErrorView::Corruption("events.meta: "@ + m)),
            Ok(meta) => Ok(EventView { patch, meta, ..row.face() }),
        },
    }
}

/// What a result with an event says.
pub open spec fn event_result(r: Result<Event, StoreError>) -> Result<EventView, ErrorView> {
    match r {
        Ok(e) => Ok(e@),
        Err(e) => Err(e@),
    }
}

/// `message` after `place`, as the error for data that does not decode.
fn corrupt(place: &str, message: String) -> (r: StoreError)
    ensures
        r@ == ErrorView::Corruption(place@ + message@),
{
    let mut words = place.to_owned();
    words.append(message.as_str());
    StoreError::Corruption(words)
}

/// The event in a row.
pub fn row_to_event(row: &EventRow) -> (r: Result<Event, StoreError>)
    ensures
        event_result(r) == row_answer(*row),
        row.reads_back() ==> (r matches Ok(event) && event@ == row.face()),
{
    let patch = match parse_patch(row.patch.as_str()) {
        Ok(patch) => patch,
        Err(m) => {
            return Err(corrupt("events.patch: ", m));
        },
    };
    let meta = match parse(row.meta.as_str()) {
        Ok(meta) => meta,
        Err(m) => {
            return Err(corrupt("events.meta: ", m));
        },
    };
    Ok(
        Event {
            seq: from_sql_seq(row.seq),
            kind: row.kind.clone(),
            patch,
            meta,
            at: Timestamp(row.at_ms),
        },
    )
}

/// What rows come to: the events, or what is wrong with the first row that does
/// not decode.
pub open spec fn rows_answer(rows: Seq<EventRow>) -> Result<Seq<EventView>, ErrorView>
    decreases rows.len(),
{
    if rows.len() == 0 {
        Ok(Seq::empty())
    } else {
        match rows_answer(rows.drop_last()) {
            Err(e) => Err(e),
            Ok(events) => match row_answer(rows.last()) {
                Err(e) => Err(e),
                Ok(event) => Ok(events.push(event)),
            },
        }
    }
}

/// A row that does not decode spoils all that come after it.
proof fn a_bad_row_spoils_the_rest(rows: Seq<EventRow>, n: int)
    requires
        0 <= n <= rows.len(),
        rows_answer(rows.take(n)) is Err,
    ensures
        rows_answer(rows) == rows_answer(rows.take(n)),
    decreases rows.len() - n,
{
    if n == rows.len() {
        assert(rows.take(n) =~= rows);
    } else {
        assert(rows.take(n + 1).drop_last() =~= rows.take(n));
        a_bad_row_spoils_the_rest(rows, n + 1);
    }
}

/// What `rows` say, the JSON taken as it stands.
pub open spec fn faces(rows: Seq<EventRow>) -> Seq<EventView> {
    rows.map_values(|row: EventRow| row.face())
}

/// The events in `rows`.
pub fn rows_to_events(rows: &[EventRow]) -> (r: Result<Vec<Event>, StoreError>)
    ensures
        match r {
            Ok(events) => rows_answer(rows@) == Ok::<Seq<EventView>, ErrorView>(
                event_views(events@),
            ),
            Err(e) => rows_answer(rows@) == Err::<Seq<EventView>, ErrorView>(e@),
        },
        (forall|i: int| 0 <= i < rows@.len() ==> #[trigger] rows@[i].reads_back()) ==> (r matches Ok(
            events,
        ) && event_views(events@) == faces(rows@)),
{
    let mut out: Vec<Event> = Vec::new();
    let mut n: usize = 0;
    proof {
        assert(rows@.take(0) =~= Seq::<EventRow>::empty());
        assert(event_views(out@) =~= Seq::<EventView>::empty());
        assert(faces(rows@.take(0)) =~= Seq::<EventView>::empty());
    }
    while n < rows.len()
        invariant
            n <= rows@.len(),
            rows_answer(rows@.take(n as int)) == Ok::<Seq<EventView>, ErrorView>(event_views(out@)),
            (forall|i: int| 0 <= i < rows@.len() ==> #[trigger] rows@[i].reads_back())
                ==> event_views(out@) == faces(rows@.take(n as int)),
        decreases rows@.len() - n,
    {
        proof {
            assert(rows@.take(n as int + 1).drop_last() =~= rows@.take(n as int));
            assert(rows@.take(n as int + 1).last() == rows@[n as int]);
            assert(faces(rows@.take(n as int + 1)) =~= faces(rows@.take(n as int)).push(
                rows@[n as int].face(),
            ));
        }
        match row_to_event(&rows[n]) {
            Ok(event) => {
                let ghost before = out@;
                out.push(event);
                proof {
                    assert(event_views(out@) =~= event_views(before).push(event@));
                }
            },
            Err(e) => {
                proof {
                    a_bad_row_spoils_the_rest(rows@, n as int + 1);
                }
                return Err(e);
            },
        }
        n = n + 1;
    }
    proof {
        assert(rows@.take(n as int) =~= rows@);
    }
    Ok(out)
}

/// `field` with a backslash before each backslash and each quotation mark.
pub open spec fn escaped(field: Seq<char>) -> Seq<char>
    decreases field.len(),
{
    if field.len() == 0 {
        Seq::empty()
    } else {
        let rest = escaped(field.drop_last());
        let c = field.last();
        if c == '\\' || c == '"' {
            rest.push('\\').push(c)
        } else {
            rest.push(c)
        }
    }
}

/// The path of the member `field`, quoted so that a dot in it is no step.
pub open spec fn member_path(field: Seq<char>) -> Seq<char> {
    "$.\""@ + escaped(field) + "\""@
}

/// The path of the member `field` of an attribution.
pub fn meta_path(field: &str) -> (r: String)
    ensures
        r@ == member_path(field@),
{
    let chars = chars_of(field);
    let mut body = String::new();
    let mut i: usize = 0;
    proof {
        assert(field@.take(0) =~= Seq::<char>::empty());
    }
    while i < chars.len()
        invariant
            chars@ == field@,
            i <= chars@.len(),
            body@ == escaped(field@.take(i as int)),
        decreases chars@.len() - i,
    {
        let c: char = chars[i];
        proof {
            assert(field@.take(i as int + 1).drop_last() =~= field@.take(i as int));
        }
        if c == '\\' || c == '"' {
            body.push('\\');
        }
        body.push(c);
        i = i + 1;
    }
    proof {
        assert(field@.take(i as int) =~= field@);
    }
    let mut path = "$.\"".to_owned();
    path.append(body.as_str());
    path.append("\"");
    path
}

/// What is bound to find events by a member of their attribution.
pub open spec fn meta_params(
    stream: Seq<char>,
    field: Seq<char>,
    value: Seq<char>,
    from: u64,
    limit: usize,
) -> Seq<ParamView> {
    let head = seq![
        ParamView::Text(stream),
        ParamView::Integer(sql_seq(from)),
        ParamView::Text(member_path(field)),
    ];
    if value == "null"@ {
        head.push(ParamView::Integer(sql_count(limit)))
    } else {
        head.push(ParamView::Text(value)).push(ParamView::Integer(sql_count(limit)))
    }
}

/// The statement that finds events by a member of their attribution, with what is
/// to be bound. A null is looked for by its type, since SQLite gives the same for
/// a null and for a missing member.
pub fn build_meta_query(
    stream: &StreamId,
    field: &str,
    value: &serde_json::Value,
    from: SeqNo,
    limit: usize,
) -> (r: (&'static str, Vec<SqlParam>))
    ensures
        r.0@ == if json_text(*value) == "null"@ {
            SELECT_BY_NULL_META@
        } else {
            SELECT_BY_META@
        },
        param_views(r.1@) == meta_params(stream@, field@, json_text(*value), from.0, limit),
{
    let text = render(value);
    let is_null = same_text(text.as_str(), "null");
    let mut params: Vec<SqlParam> = Vec::new();
    params.push(SqlParam::Text(stream.as_str().to_owned()));
    params.push(SqlParam::Integer(to_sql_seq(from)));
    params.push(SqlParam::Text(meta_path(field)));
    if is_null {
        params.push(SqlParam::Integer(to_sql_count(limit)));
        proof {
            assert(param_views(params@) =~= meta_params(
                stream@,
                field@,
                json_text(*value),
                from.0,
                limit,
            ));
        }
        (SELECT_BY_NULL_META, params)
    } else {
        params.push(SqlParam::Text(text));
        params.push(SqlParam::Integer(to_sql_count(limit)));
        proof {
            assert(param_views(params@) =~= meta_params(
                stream@,
                field@,
                json_text(*value),
                from.0,
                limit,
            ));
        }
        (SELECT_BY_META, params)
    }
}

/// The coordinate that a stream was compacted to: that of its first event, if
/// compaction left it.
pub fn boundary_of(first: Option<(i64, String)>) -> (r: Option<SeqNo>)
    ensures
        match first {
            Some((seq, kind)) => if kind@ == SNAPSHOT_KIND@ {
                r matches Some(b) && b.0 == if seq < 0 {
                    0
                } else {
                    seq as int
                }
            } else {
                r is None
            },
            None => r is None,
        },
{
    match first {
        Some((seq, kind)) => if same_text(kind.as_str(), SNAPSHOT_KIND) {
            Some(from_sql_seq(seq))
        } else {
            None
        },
        None => None,
    }
}

/// The cached state in a row.
pub fn row_to_cached(at_seq: i64, state: &str) -> (r: Result<
    (SeqNo, serde_json::Value),
    StoreError,
>)
    ensures
        match parsed(state@) {
            Ok(text) => r matches Ok(found) && json_text(found.1) == text && found.0.0 == if at_seq
                < 0 {
                0
            } else {
                at_seq as int
            },
            Err(m) => r matches Err(e) && e@ == ErrorView::Corruption("cache.state: "@ + m),
        },
        (exists|v: serde_json::Value| #[trigger] json_text(v) == state@) && is_exact(state@) ==> (
        r matches Ok(found) && json_text(found.1) == state@),
{
    match parse(state) {
        Ok(value) => Ok((from_sql_seq(at_seq), value)),
        Err(m) => Err(corrupt("cache.state: ", m)),
    }
}

/// A coordinate that SQLite can hold is bound as it is, and any other as the greatest
/// that it can hold; what was bound is read back.
pub proof fn coordinates_are_bound_as_they_are(seq: u64)
    ensures
        seq <= i64::MAX ==> sql_seq(seq) == seq,
        seq > i64::MAX ==> sql_seq(seq) == i64::MAX,
{
}

/// What is read from a row of the events is what was put into it.
pub proof fn an_event_row_says_what_was_put_in(row: EventRow, seq: u64)
    requires
        seq <= i64::MAX,
        row.seq == sql_seq(seq),
    ensures
        row.face() == (EventView {
            seq,
            kind: row.kind@,
            patch: row.patch@,
            meta: row.meta@,
            at: row.at_ms,
        }),
{
}

/// A page of events that is read from the bound coordinate on, with the bound limit,
/// is the page that was asked for, of a stream that SQLite can hold.
pub proof fn a_bound_page_is_the_page_asked_for(
    events: Seq<EventView>,
    from: u64,
    limit: usize,
)
    requires
        gap_free(events),
        events.len() > 0 ==> events.last().seq < i64::MAX,
    ensures
        at_most(since(events, sql_seq(from) as int), sql_count(limit) as int) == at_most(
            since(events, from as int),
            limit as int,
        ),
{
    if events.len() > 0 {
        assert(events[events.len() - 1] == events.last());
    }
    counts_are_bound_as_they_are(limit);
    coordinates_are_bound_as_they_are(from);
    if from > i64::MAX {
        assert(since(events, sql_seq(from) as int) =~= since(events, from as int));
    }
}

/// What a row of the events comes to: what stands in its columns, the JSON decoded. What
/// does not decode is damage, and the message says where it is; the patch comes first.
pub proof fn a_row_comes_to_what_it_holds(row: EventRow)
    ensures
        parsed_patch(row.patch@) matches Ok(patch) ==> parsed(row.meta@) matches Ok(meta)
            ==> row_answer(row) == Ok::<EventView, ErrorView>(
            EventView {
                seq: if row.seq >= 0 {
                    row.seq as u64
                } else {
                    0
                },
                kind: row.kind@,
                patch,
                meta,
                at: row.at_ms,
            },
        ),
        parsed_patch(row.patch@) matches Err(m) ==> row_answer(row) == Err::<EventView, ErrorView>(
            ErrorView::Corruption("events.patch: "@ + m),
        ),
        parsed_patch(row.patch@) is Ok ==> (parsed(row.meta@) matches Err(m) ==> row_answer(row)
            == Err::<EventView, ErrorView>(ErrorView::Corruption("events.meta: "@ + m))),
{
}

/// Rows come to their events one by one, in order, if every one of them decodes.
/// Otherwise they come to what is wrong with the first that does not.
pub proof fn rows_come_to_their_events(rows: Seq<EventRow>, i: int)
    ensures
        match rows_answer(rows) {
            Ok(events) => events.len() == rows.len() && (0 <= i < rows.len() ==> row_answer(rows[i])
                == Ok::<EventView, ErrorView>(events[i])),
            Err(e) => exists|bad: int|
                0 <= bad < rows.len() && row_answer(#[trigger] rows[bad]) == Err::<
                    EventView,
                    ErrorView,
                >(e) && forall|j: int| 0 <= j < bad ==> row_answer(#[trigger] rows[j]) is Ok,
        },
    decreases rows.len(),
{
    if rows.len() > 0 {
        let before = rows.drop_last();
        rows_come_to_their_events(before, i);
        match rows_answer(before) {
            Ok(events) => {
                assert forall|j: int| 0 <= j < before.len() implies row_answer(
                    #[trigger] rows[j],
                ) is Ok by {
                    rows_come_to_their_events(before, j);
                    assert(before[j] == rows[j]);
                }
                assert(rows[rows.len() - 1] == rows.last());
                if 0 <= i < before.len() {
                    assert(before[i] == rows[i]);
                }
            },
            Err(e) => {
                let bad = choose|bad: int|
                    0 <= bad < before.len() && row_answer(#[trigger] before[bad]) == Err::<
                        EventView,
                        ErrorView,
                    >(e) && forall|j: int|
                        0 <= j < bad ==> row_answer(#[trigger] before[j]) is Ok;
                assert(before[bad] == rows[bad]);
                assert forall|j: int| 0 <= j < bad implies row_answer(#[trigger] rows[j]) is Ok by {
                    assert(before[j] == rows[j]);
                }
            },
        }
    }
}

/// The row for a draft says what the draft says, at the given time, right after the head
/// or at one. It is the coordinate that a log without gaps gives to its next event.
pub proof fn a_draft_goes_right_after_the_head(
    head: Option<i64>,
    rec: &NewEvent,
    at: Timestamp,
    row: EventRow,
)
    requires
        head matches Some(h) ==> 0 <= h < i64::MAX,
        call_ensures(next_row, (head, rec, at), row),
    ensures
        row.seq == match head {
            Some(h) => h + 1,
            None => 1,
        },
        row.face().seq == row.seq,
        row.face().kind == rec@.kind,
        row.face().patch == rec@.patch,
        row.face().meta == rec@.meta,
        row.face().at == at.0,
{
}

/// A coordinate goes through SQLite and comes back, as far as SQLite can hold it.
pub proof fn a_coordinate_comes_back(seq: SeqNo, bound: i64, back: SeqNo)
    requires
        call_ensures(to_sql_seq, (seq,), bound),
        call_ensures(from_sql_seq, (bound,), back),
    ensures
        bound >= 0,
        seq.0 <= i64::MAX ==> back.0 == seq.0,
        seq.0 > i64::MAX ==> back.0 == i64::MAX,
{
}

/// A stream was compacted if its first event is a snapshot, to where that stands.
pub proof fn a_snapshot_at_the_start_is_the_boundary(
    first: Option<(i64, String)>,
    r: Option<SeqNo>,
)
    requires
        call_ensures(boundary_of, (first,), r),
    ensures
        r is Some <==> (first matches Some((_, kind)) && kind@ == "compacted"@),
        r matches Some(boundary) ==> first matches Some((seq, _)) && (seq >= 0 ==> boundary.0
            == seq),
{
}

/// A conditional write may go on if the head is where the writer expects it, zero standing
/// for no head, and is a conflict otherwise.
pub proof fn a_head_elsewhere_is_a_conflict(
    head: Option<SeqNo>,
    expected: SeqNo,
    r: Result<(), StoreError>,
)
    requires
        call_ensures(check_head, (head, expected), r),
    ensures
        r is Ok <==> head == Some(expected) || (head is None && expected.0 == 0),
        r matches Err(e) ==> e@ == (ErrorView::HeadConflict { expected, actual: head }),
{
}

/// A label may point at an event, and at nothing else.
pub proof fn a_label_points_at_an_event(
    has_event: bool,
    head: Option<SeqNo>,
    at: SeqNo,
    r: Result<(), StoreError>,
)
    requires
        call_ensures(check_label_target, (has_event, head, at), r),
    ensures
        r is Ok <==> has_event,
        r matches Err(e) ==> e@ == (ErrorView::SeqOutOfRange { head, requested: at }),
{
}

/// A cached state comes back from its row, under its coordinate; one that does not decode
/// is damage.
pub proof fn a_cached_state_comes_back(
    at: i64,
    state: &str,
    r: Result<(SeqNo, serde_json::Value), StoreError>,
)
    requires
        at >= 0,
        call_ensures(row_to_cached, (at, state), r),
    ensures
        match parsed(state@) {
            Ok(text) => r matches Ok(found) && found.0.0 == at && json_text(found.1) == text,
            Err(m) => r matches Err(e) && e@ == ErrorView::Corruption("cache.state: "@ + m),
        },
{
}

/// The events in rows are what the rows come to.
pub proof fn rows_are_read_as_what_they_come_to(
    rows: &[EventRow],
    r: Result<Vec<Event>, StoreError>,
)
    requires
        call_ensures(rows_to_events, (rows,), r),
    ensures
        match r {
            Ok(events) => rows_answer(rows@) == Ok::<Seq<EventView>, ErrorView>(
                event_views(events@),
            ),
            Err(e) => rows_answer(rows@) == Err::<Seq<EventView>, ErrorView>(e@),
        },
{
}

/// Events are looked for by the value of a member, and by its type where the value is
/// null; what is bound is the stream, where to start, the member, the value and the
/// greatest number of events, in this order.
pub proof fn a_member_is_looked_for_by_its_value(
    stream: &StreamId,
    field: &str,
    value: &serde_json::Value,
    from: SeqNo,
    limit: usize,
    r: (&'static str, Vec<SqlParam>),
)
    requires
        call_ensures(build_meta_query, (stream, field, value, from, limit), r),
    ensures
        json_text(*value) == "null"@ ==> r.0@ == SELECT_BY_NULL_META@ && param_views(r.1@) == seq![
            ParamView::Text(stream@),
            ParamView::Integer(sql_seq(from.0)),
            ParamView::Text(member_path(field@)),
            ParamView::Integer(sql_count(limit)),
        ],
        json_text(*value) != "null"@ ==> r.0@ == SELECT_BY_META@ && param_views(r.1@) == seq![
            ParamView::Text(stream@),
            ParamView::Integer(sql_seq(from.0)),
            ParamView::Text(member_path(field@)),
            ParamView::Text(json_text(*value)),
            ParamView::Integer(sql_count(limit)),
        ],
{
    let head = seq![
        ParamView::Text(stream@),
        ParamView::Integer(sql_seq(from.0)),
        ParamView::Text(member_path(field@)),
    ];
    let last = ParamView::Integer(sql_count(limit));
    let given = ParamView::Text(json_text(*value));
    assert(head.push(last) =~= seq![head[0], head[1], head[2], last]);
    assert(head.push(given).push(last) =~= seq![head[0], head[1], head[2], given, last]);
}

/// The next coordinate is the one after the head, and one where there is none.
pub proof fn the_next_coordinate_follows_the_head(head: Option<i64>)
    ensures
        head is None ==> next_sql_seq(head) == 1,
        head matches Some(h) ==> next_sql_seq(head) - h == 1,
{
}

} // verus!
