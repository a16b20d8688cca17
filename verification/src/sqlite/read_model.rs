//! The read model: one row for each stream, with its latest state.
use vstd::prelude::*;

use crate::error::{ErrorView, StoreError};
use crate::event::Event;
use crate::id::{SeqNo, StreamId, Timestamp};
use crate::json::{is_exact, json_text, parse, parsed, render};
use crate::sqlite::event_rows::{from_sql_seq, sql_seq, to_sql_seq};
use crate::store::TOMBSTONE_KIND;
use crate::text::{same_text, IntoText};

verus! {

/// The coordinate that the row of a stream stands at.
pub const SELECT_LAST_SEQ: &'static str = "SELECT last_seq FROM read_model WHERE stream = ?1";

/// A row that is to be kept. One that stands further along stays.
pub const UPSERT_ROW: &'static str =
    "INSERT INTO read_model (stream, state, last_seq, updated_at, live) \
     VALUES (?1, ?2, ?3, ?4, ?5) \
     ON CONFLICT(stream) DO UPDATE SET state = excluded.state, last_seq = excluded.last_seq, \
     updated_at = excluded.updated_at, live = excluded.live \
     WHERE excluded.last_seq > read_model.last_seq";

/// The row of a stream.
pub const SELECT_ROW: &'static str =
    "SELECT stream, state, last_seq, updated_at, live FROM read_model WHERE stream = ?1";

/// The rows that were updated last.
pub const SELECT_TAIL: &'static str =
    "SELECT stream, state, last_seq, updated_at, live FROM read_model \
     ORDER BY updated_at DESC LIMIT ?1";

/// What goes into one row, or comes out of it.
#[derive(Debug, PartialEq, Eq)]
pub struct RawRow {
    /// The stream.
    pub stream: String,
    /// The state, as JSON.
    pub state: String,
    /// The coordinate of the state.
    pub last_seq: i64,
    /// The time of the event at the coordinate.
    pub updated_at: i64,
    /// Zero for a deleted stream, one for a live one.
    pub live: i64,
}

/// The latest state of a stream.
#[derive(Debug, PartialEq)]
pub struct ReadModelRow {
    /// The stream.
    pub stream: StreamId,
    /// The state.
    pub state: serde_json::Value,
    /// The coordinate of the state.
    pub last_seq: SeqNo,
    /// The time of the event at the coordinate.
    pub updated_at: Timestamp,
    /// Whether the stream is live.
    pub live: bool,
}

/// What a row says.
pub struct RowView {
    /// The stream.
    pub stream: Seq<char>,
    /// The state.
    pub state: Seq<char>,
    /// The coordinate of the state.
    pub last_seq: u64,
    /// The time of the event at the coordinate.
    pub updated_at: i64,
    /// Whether the stream is live.
    pub live: bool,
}

impl View for ReadModelRow {
    type V = RowView;

    open spec fn view(&self) -> RowView {
        RowView {
            stream: self.stream@,
            state: json_text(self.state),
            last_seq: self.last_seq.0,
            updated_at: self.updated_at.0,
            live: self.live,
        }
    }
}

impl RawRow {
    /// What the row says, the JSON taken as it stands.
    pub open spec fn face(&self) -> RowView {
        RowView {
            stream: self.stream@,
            state: self.state@,
            last_seq: if self.last_seq < 0 {
                0
            } else {
                self.last_seq as u64
            },
            updated_at: self.updated_at,
            live: self.live != 0,
        }
    }

    /// The row was written from a state, and its JSON is read back as it is.
    pub open spec fn reads_back(&self) -> bool {
        &&& exists|v: serde_json::Value| #[trigger] json_text(v) == self.state@
        &&& is_exact(self.state@)
    }
}

/// What a row of the table comes to: the row, or that its state does not decode.
pub open spec fn raw_answer(row: RawRow) -> Result<RowView, ErrorView> {
    match parsed(row.state@) {
        Ok(state) => Ok(RowView { state, ..row.face() }),
        Err(m) => Err(ErrorView::Corruption("read_model.state: "@ + m)),
    }
}

/// The row in a row of the table.
pub fn row_to_read_model_row(row: &RawRow) -> (r: Result<ReadModelRow, StoreError>)
    ensures
        match r {
            Ok(found) => raw_answer(*row) == Ok::<RowView, ErrorView>(found@),
            Err(e) => raw_answer(*row) == Err::<RowView, ErrorView>(e@),
        },
        row.reads_back() ==> (r matches Ok(found) && found@ == row.face()),
{
    match parse(row.state.as_str()) {
        Ok(state) => Ok(
            ReadModelRow {
                stream: StreamId(row.stream.clone()),
                state,
                last_seq: from_sql_seq(row.last_seq),
                updated_at: Timestamp(row.updated_at),
                live: row.live != 0,
            },
        ),
        Err(m) => {
            let mut words = "read_model.state: ".to_owned();
            words.append(m.as_str());
            Err(StoreError::Corruption(words))
        },
    }
}

/// What the rows in `rows` say.
pub open spec fn row_views(rows: Seq<ReadModelRow>) -> Seq<RowView> {
    rows.map_values(|row: ReadModelRow| row@)
}

/// What rows of the table come to: the rows, or what is wrong with the first that
/// does not decode.
pub open spec fn raws_answer(rows: Seq<RawRow>) -> Result<Seq<RowView>, ErrorView>
    decreases rows.len(),
{
    if rows.len() == 0 {
        Ok(Seq::empty())
    } else {
        match raws_answer(rows.drop_last()) {
            Err(e) => Err(e),
            Ok(views) => match raw_answer(rows.last()) {
                Err(e) => Err(e),
                Ok(view) => Ok(views.push(view)),
            },
        }
    }
}

/// A row that does not decode spoils all that come after it.
proof fn a_bad_row_spoils_the_rest(rows: Seq<RawRow>, n: int)
    requires
        0 <= n <= rows.len(),
        raws_answer(rows.take(n)) is Err,
    ensures
        raws_answer(rows) == raws_answer(rows.take(n)),
    decreases rows.len() - n,
{
    if n == rows.len() {
        assert(rows.take(n) =~= rows);
    } else {
        assert(rows.take(n + 1).drop_last() =~= rows.take(n));
        a_bad_row_spoils_the_rest(rows, n + 1);
    }
}

/// What rows of the table say, the JSON taken as it stands.
pub open spec fn row_faces(rows: Seq<RawRow>) -> Seq<RowView> {
    rows.map_values(|row: RawRow| row.face())
}

/// The rows in rows of the table.
pub fn rows_to_read_model_rows(rows: &[RawRow]) -> (r: Result<Vec<ReadModelRow>, StoreError>)
    ensures
        match r {
            Ok(found) => raws_answer(rows@) == Ok::<Seq<RowView>, ErrorView>(row_views(found@)),
            Err(e) => raws_answer(rows@) == Err::<Seq<RowView>, ErrorView>(e@),
        },
        (forall|i: int| 0 <= i < rows@.len() ==> #[trigger] rows@[i].reads_back()) ==> (r matches Ok(
            found,
        ) && row_views(found@) == row_faces(rows@)),
{
    let mut out: Vec<ReadModelRow> = Vec::new();
    let mut n: usize = 0;
    proof {
        assert(rows@.take(0) =~= Seq::<RawRow>::empty());
        assert(row_views(out@) =~= Seq::<RowView>::empty());
        assert(row_faces(rows@.take(0)) =~= Seq::<RowView>::empty());
    }
    while n < rows.len()
        invariant
            n <= rows@.len(),
            raws_answer(rows@.take(n as int)) == Ok::<Seq<RowView>, ErrorView>(row_views(out@)),
            (forall|i: int| 0 <= i < rows@.len() ==> #[trigger] rows@[i].reads_back())
                ==> row_views(out@) == row_faces(rows@.take(n as int)),
        decreases rows@.len() - n,
    {
        proof {
            assert(rows@.take(n as int + 1).drop_last() =~= rows@.take(n as int));
            assert(rows@.take(n as int + 1).last() == rows@[n as int]);
            assert(row_faces(rows@.take(n as int + 1)) =~= row_faces(rows@.take(n as int)).push(
                rows@[n as int].face(),
            ));
        }
        match row_to_read_model_row(&rows[n]) {
            Ok(row) => {
                let ghost before = out@;
                out.push(row);
                proof {
                    assert(row_views(out@) =~= row_views(before).push(row@));
                }
            },
            Err(e) => {
                proof {
                    a_bad_row_spoils_the_rest(rows@, n as int + 1);
                }
                return Err(e);
            },
        }
        n = n + 1;
    }
    proof {
        assert(rows@.take(n as int) =~= rows@);
    }
    Ok(out)
}

/// How the read model follows the log: under which id, and which kind of event
/// says that a stream is deleted.
#[derive(Debug, PartialEq, Eq)]
pub struct SqliteReadModel {
    id: String,
    tombstone_kind: Option<String>,
}

impl SqliteReadModel {
    /// The id.
    pub closed spec fn name(&self) -> Seq<char> {
        self.id@
    }

    /// The kind of event that says that a stream is deleted.
    pub closed spec fn tombstone(&self) -> Option<Seq<char>> {
        match self.tombstone_kind {
            Some(kind) => Some(kind@),
            None => None,
        }
    }

    /// A read model that knows deletions as the store writes them.
    pub fn new() -> (r: Self)
        ensures
            r.name() == "read-model"@,
            r.tombstone() == Some(TOMBSTONE_KIND@),
    {
        SqliteReadModel {
            id: "read-model".to_owned(),
            tombstone_kind: Some(TOMBSTONE_KIND.to_owned()),
        }
    }

    /// The same under another id.
    pub fn with_id<S: IntoText>(self, id: S) -> (r: Self)
        ensures
            r.name() == id.text(),
            r.tombstone() == self.tombstone(),
    {
        SqliteReadModel { id: id.into_text(), tombstone_kind: self.tombstone_kind }
    }

    /// The same with another kind of event for deletions.
    pub fn with_tombstone_kind<S: IntoText>(self, kind: S) -> (r: Self)
        ensures
            r.name() == self.name(),
            r.tombstone() == Some(kind.text()),
    {
        SqliteReadModel { id: self.id, tombstone_kind: Some(kind.into_text()) }
    }

    /// The same without deletions: every stream stays live.
    pub fn without_tombstone_kind(self) -> (r: Self)
        ensures
            r.name() == self.name(),
            r.tombstone() is None,
    {
        SqliteReadModel { id: self.id, tombstone_kind: None }
    }

    /// The id.
    pub fn id(&self) -> (r: &str)
        ensures
            r@ == self.name(),
    {
        self.id.as_str()
    }

    /// The row for a committed event. A deletion takes the stream from the live
    /// ones, any other event brings it back.
    pub fn row_for(
        &self,
        stream: &StreamId,
        seq: SeqNo,
        state: &serde_json::Value,
        event: &Event,
    ) -> (r: RawRow)
        ensures
            r.stream@ == stream@,
            r.state@ == json_text(*state),
            r.last_seq == sql_seq(seq.0),
            r.updated_at == event.at.0,
            r.live == if self.tombstone() == Some(event.kind@) {
                0i64
            } else {
                1i64
            },
            is_exact(json_text(*state)) ==> r.reads_back(),
    {
        let dead = match &self.tombstone_kind {
            Some(kind) => same_text(kind.as_str(), event.kind.as_str()),
            None => false,
        };
        RawRow {
            stream: stream.as_str().to_owned(),
            state: render(state),
            last_seq: to_sql_seq(seq),
            updated_at: event.at.0,
            live: if dead {
                0
            } else {
                1
            },
        }
    }
}

/// Whether a row at `stored`, if there is one, gives way to a row at `incoming`:
/// only if that stands further along.
pub open spec fn gives_way(stored: Option<int>, incoming: int) -> bool {
    match stored {
        Some(s) => incoming > s,
        None => true,
    }
}

/// Whether a row at `incoming` takes the place of the one at `stored`.
pub fn supersedes(stored: Option<i64>, incoming: i64) -> (r: bool)
    ensures
        r == gives_way(
            match stored {
                Some(s) => Some(s as int),
                None => None,
            },
            incoming as int,
        ),
{
    match stored {
        Some(s) => incoming > s,
        None => true,
    }
}

/// The table after `row` was handed to it.
pub open spec fn taken_up(table: Map<Seq<char>, RowView>, row: RowView) -> Map<
    Seq<char>,
    RowView,
> {
    let stored = if table.dom().contains(row.stream) {
        Some(table[row.stream].last_seq as int)
    } else {
        None
    };
    if gives_way(stored, row.last_seq as int) {
        table.insert(row.stream, row)
    } else {
        table
    }
}

/// Handing over a row a second time, or one that stands no further along, leaves
/// the table as it is.
pub proof fn redelivery_changes_nothing(table: Map<Seq<char>, RowView>, row: RowView, late: RowView)
    requires
        late.stream == row.stream,
        late.last_seq <= row.last_seq,
    ensures
        taken_up(taken_up(table, row), late) == taken_up(table, row),
{
}

/// Rows of different coordinates lead to the same table in whatever order they
/// come.
pub proof fn order_of_delivery_does_not_matter(
    table: Map<Seq<char>, RowView>,
    a: RowView,
    b: RowView,
)
    requires
        a.stream != b.stream || a.last_seq != b.last_seq,
    ensures
        taken_up(taken_up(table, a), b) == taken_up(taken_up(table, b), a),
{
    assert(taken_up(taken_up(table, a), b) =~= taken_up(taken_up(table, b), a));
}

/// The table holds, of each stream, the row that stands furthest along: a row is taken
/// up where there is none yet, or where it stands further along than the one that is
/// there. No other row changes.
pub proof fn the_row_furthest_along_is_kept(table: Map<Seq<char>, RowView>, row: RowView)
    ensures
        ({
            let after = taken_up(table, row);
            &&& after.dom() == table.dom().insert(row.stream)
            &&& after[row.stream] == if table.dom().contains(row.stream) && table[row.stream].last_seq
                >= row.last_seq {
                table[row.stream]
            } else {
                row
            }
            &&& forall|other: Seq<char>|
                other != row.stream && table.dom().contains(other) ==> #[trigger] after[other]
                    == table[other]
        }),
{
    assert(taken_up(table, row).dom() =~= table.dom().insert(row.stream));
}

/// What is read from a row is what was put into it: the coordinate as it was, if SQLite
/// can hold it, and whether the stream is live.
pub proof fn a_row_says_what_was_put_in(row: RawRow, seq: u64)
    requires
        seq <= i64::MAX,
        row.last_seq == sql_seq(seq),
    ensures
        row.face().stream == row.stream@,
        row.face().state == row.state@,
        row.face().last_seq == seq,
        row.face().updated_at == row.updated_at,
        row.live == 1 ==> row.face().live,
        row.live == 0 ==> !row.face().live,
{
}

/// What a row of the table comes to: what stands in its columns, the state decoded. A
/// state that does not decode is damage, and the message says where it is.
pub proof fn a_row_of_the_table_comes_to_what_it_holds(row: RawRow)
    ensures
        parsed(row.state@) matches Ok(state) ==> raw_answer(row) == Ok::<RowView, ErrorView>(
            RowView {
                stream: row.stream@,
                state,
                last_seq: if row.last_seq >= 0 {
                    row.last_seq as u64
                } else {
                    0
                },
                updated_at: row.updated_at,
                live: row.live != 0,
            },
        ),
        parsed(row.state@) matches Err(m) ==> raw_answer(row) == Err::<RowView, ErrorView>(
            ErrorView::Corruption("read_model.state: "@ + m),
        ),
{
}

/// Rows of the table come to rows one by one, in order, if every one of them decodes.
/// Otherwise they come to what is wrong with the first that does not.
pub proof fn rows_of_the_table_come_one_by_one(rows: Seq<RawRow>, i: int)
    ensures
        match raws_answer(rows) {
            Ok(views) => views.len() == rows.len() && (0 <= i < rows.len() ==> raw_answer(rows[i])
                == Ok::<RowView, ErrorView>(views[i])),
            Err(e) => exists|bad: int|
                0 <= bad < rows.len() && raw_answer(#[trigger] rows[bad]) == Err::<
                    RowView,
                    ErrorView,
                >(e) && forall|j: int| 0 <= j < bad ==> raw_answer(#[trigger] rows[j]) is Ok,
        },
    decreases rows.len(),
{
    if rows.len() > 0 {
        let before = rows.drop_last();
        rows_of_the_table_come_one_by_one(before, i);
        match raws_answer(before) {
            Ok(views) => {
                assert forall|j: int| 0 <= j < before.len() implies raw_answer(
                    #[trigger] rows[j],
                ) is Ok by {
                    rows_of_the_table_come_one_by_one(before, j);
                    assert(before[j] == rows[j]);
                }
                assert(rows[rows.len() - 1] == rows.last());
                if 0 <= i < before.len() {
                    assert(before[i] == rows[i]);
                }
            },
            Err(e) => {
                let bad = choose|bad: int|
                    0 <= bad < before.len() && raw_answer(#[trigger] before[bad]) == Err::<
                        RowView,
                        ErrorView,
                    >(e) && forall|j: int|
                        0 <= j < bad ==> raw_answer(#[trigger] before[j]) is Ok;
                assert(before[bad] == rows[bad]);
                assert forall|j: int| 0 <= j < bad implies raw_answer(#[trigger] rows[j]) is Ok by {
                    assert(before[j] == rows[j]);
                }
            },
        }
    }
}

/// The row for a committed event holds the state and the coordinate, and the time of the
/// event. The stream is live in it, unless the event is of the kind that says that it is
/// deleted.
pub proof fn an_event_becomes_the_row_of_its_stream(
    model: &SqliteReadModel,
    stream: &StreamId,
    seq: SeqNo,
    state: &serde_json::Value,
    event: &Event,
    row: RawRow,
)
    requires
        seq.0 <= i64::MAX,
        call_ensures(SqliteReadModel::row_for, (model, stream, seq, state, event), row),
    ensures
        row.face() == (RowView {
            stream: stream@,
            state: json_text(*state),
            last_seq: seq.0,
            updated_at: event@.at,
            live: model.tombstone() != Some(event@.kind),
        }),
{
}

/// A row takes the place of one that does not stand as far along, and of no other.
pub proof fn a_row_further_along_takes_the_place(stored: Option<i64>, incoming: i64, r: bool)
    requires
        call_ensures(supersedes, (stored, incoming), r),
    ensures
        r <==> (stored matches Some(s) ==> s < incoming),
{
}

} // verus!
