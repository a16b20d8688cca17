//! What the fixed statements ask for.
use vstd::prelude::*;

use crate::backend::{is_nearest, Entries};
use crate::event::EventView;
use crate::log::{
    at_most, gap_free, head_of, seq_not_after, seq_not_after_is_greatest, since, since_is_a_filter,
};
use crate::sqlite::event_rows::{
    a_bound_page_is_the_page_asked_for, coordinates_are_bound_as_they_are, member_path,
    meta_params, sql_seq, DELETE_LABEL, INSERT_EVENT, PRUNE_CACHE, SELECT_BY_META, SELECT_BY_NULL_META,
    SELECT_CHECKPOINT, SELECT_EVENTS, SELECT_FIRST_EVENT, SELECT_HAS_EVENT, SELECT_HEAD,
    SELECT_LABEL, SELECT_LABELS, SELECT_NEAREST, SELECT_SEQ_AT_TIME, SELECT_STREAMS, UPSERT_CACHE,
    UPSERT_CHECKPOINT, UPSERT_LABEL,
};
use crate::sqlite::maintenance::{DELETE_PREFIX, DELETE_STALE_CACHE};
use crate::sqlite::meaning::{
    compared, kind_name, member_of, op_sql, selected, Datum, Engine, Op, Tree,
};
use crate::sqlite::path_laws::a_member_path_selects_the_member;
use crate::sqlite::query::{sql_count, ParamView};
use crate::sqlite::read_model::{SELECT_LAST_SEQ, SELECT_ROW, SELECT_TAIL, UPSERT_ROW};
use crate::text::digit;

verus! {

/// A row of a table: what its columns hold, and the documents among them.
pub struct Record {
    /// What the columns hold.
    pub columns: Map<Seq<char>, Datum>,
    /// The documents.
    pub documents: Map<Seq<char>, Tree>,
}

/// One of the conditions of a statement.
pub enum Test {
    /// A column compares to a parameter.
    Column(Seq<char>, Op, nat),
    /// What a path selects from a document has the type of a JSON text.
    SameType(Seq<char>, nat, nat),
    /// What a path selects from a document is equal to a JSON text.
    SameValue(Seq<char>, nat, nat),
    /// What a path selects from a document is null.
    HoldsNull(Seq<char>, nat),
}

/// How many rows a statement asks for at most.
pub enum Limit {
    /// As many as there are.
    All,
    /// One.
    One,
    /// What a parameter says.
    Param(nat),
}

/// A statement: what to do with which table, with which rows of it, in which order,
/// and with how many.
pub struct Statement {
    /// What to do.
    pub head: Seq<char>,
    /// The conditions that a row has to meet.
    pub tests: Seq<Test>,
    /// What the rows are sorted by, and whether the greatest comes first.
    pub order: Option<(Seq<char>, bool)>,
    /// How many rows.
    pub limit: Limit,
}

/// How a parameter is written.
pub open spec fn param_sql(n: nat) -> Seq<char> {
    seq!['?', digit(n)]
}

/// How a condition is written.
pub open spec fn test_sql(test: Test) -> Seq<char> {
    match test {
        Test::Column(name, op, n) => name + " "@ + op_sql(op) + " "@ + param_sql(n),
        Test::SameType(name, path, json) => "json_type("@ + name + ", "@ + param_sql(path)
            + ") = json_type("@ + param_sql(json) + ", '$')"@,
        Test::SameValue(name, path, json) => "json_extract("@ + name + ", "@ + param_sql(path)
            + ") = json_extract("@ + param_sql(json) + ", '$')"@,
        Test::HoldsNull(name, path) => "json_type("@ + name + ", "@ + param_sql(path)
            + ") = 'null'"@,
    }
}

/// How conditions are written.
pub open spec fn tests_sql(tests: Seq<Test>) -> Seq<char>
    decreases tests.len(),
{
    if tests.len() == 0 {
        Seq::empty()
    } else if tests.len() == 1 {
        test_sql(tests[0])
    } else {
        tests_sql(tests.drop_last()) + " AND "@ + test_sql(tests.last())
    }
}

/// How a statement is written.
pub open spec fn statement_sql(statement: Statement) -> Seq<char> {
    statement.head + (if statement.tests.len() == 0 {
        Seq::empty()
    } else {
        " WHERE "@ + tests_sql(statement.tests)
    }) + (match statement.order {
        None => Seq::empty(),
        Some((name, down)) => " ORDER BY "@ + name + if down {
            " DESC"@
        } else {
            " ASC"@
        },
    }) + match statement.limit {
        Limit::All => Seq::empty(),
        Limit::One => " LIMIT 1"@,
        Limit::Param(n) => " LIMIT "@ + param_sql(n),
    }
}

/// What is bound to a parameter.
pub open spec fn param_value(params: Seq<ParamView>, n: nat) -> Datum {
    match params[n - 1] {
        ParamView::Text(s) => Datum::Text(s),
        ParamView::Integer(i) => Datum::Number(i as int),
    }
}

/// The text that is bound to a parameter.
pub open spec fn param_text(params: Seq<ParamView>, n: nat) -> Seq<char> {
    match params[n - 1] {
        ParamView::Text(s) => s,
        ParamView::Integer(_) => Seq::empty(),
    }
}

/// Whether a row meets a condition.
pub open spec fn passes_test(
    engine: Engine,
    test: Test,
    params: Seq<ParamView>,
    record: Record,
) -> bool {
    match test {
        Test::Column(name, op, n) => compared(record.columns[name], op, param_value(params, n))
            == Some(true),
        Test::SameType(name, path, json) => compared(
            kind_name(selected(record.documents[name], param_text(params, path))),
            Op::Eq,
            kind_name(Some((engine.read)(param_text(params, json)))),
        ) == Some(true),
        Test::SameValue(name, path, json) => compared(
            engine.value(selected(record.documents[name], param_text(params, path))),
            Op::Eq,
            engine.value(Some((engine.read)(param_text(params, json)))),
        ) == Some(true),
        Test::HoldsNull(name, path) => compared(
            kind_name(selected(record.documents[name], param_text(params, path))),
            Op::Eq,
            Datum::Text("null"@),
        ) == Some(true),
    }
}

/// Whether a row meets each of the conditions.
pub open spec fn passes_tests(
    engine: Engine,
    tests: Seq<Test>,
    params: Seq<ParamView>,
    record: Record,
) -> bool {
    forall|i: int|
        0 <= i < tests.len() ==> passes_test(engine, #[trigger] tests[i], params, record)
}

/// The row of an event.
pub open spec fn event_record(engine: Engine, stream: Seq<char>, event: EventView) -> Record {
    Record {
        columns: map![
            "stream"@ => Datum::Text(stream),
            "seq"@ => Datum::Number(event.seq as int),
            "kind"@ => Datum::Text(event.kind),
            "at_ms"@ => Datum::Number(event.at as int),
        ],
        documents: map!["meta"@ => (engine.read)(event.meta)],
    }
}

/// The names of the columns differ.
proof fn event_columns_differ()
    ensures
        "stream"@ != "seq"@,
        "stream"@ != "kind"@,
        "stream"@ != "at_ms"@,
        "seq"@ != "kind"@,
        "seq"@ != "at_ms"@,
        "kind"@ != "at_ms"@,
{
    reveal_strlit("stream");
    reveal_strlit("seq");
    reveal_strlit("kind");
    reveal_strlit("at_ms");
    assert("stream"@.len() == 6 && "seq"@.len() == 3 && "kind"@.len() == 4 && "at_ms"@.len() == 5);
}

/// The conditions of [`SELECT_EVENTS`].
pub open spec fn page_tests() -> Seq<Test> {
    seq![
        Test::Column("stream"@, Op::Eq, 1),
        Test::Column("seq"@, Op::Gte, 2),
    ]
}

/// The events are read from a coordinate on, in the order of their coordinates, as
/// many as were asked for.
pub proof fn events_are_read_in_order()
    ensures
        SELECT_EVENTS@ == statement_sql(
            Statement {
                head: "SELECT seq, kind, patch, meta, at_ms FROM events"@,
                tests: page_tests(),
                order: Some(("seq"@, false)),
                limit: Limit::Param(3),
            },
        ),
{
    reveal_with_fuel(tests_sql, 5);
    reveal_strlit("SELECT seq, kind, patch, meta, at_ms FROM events");
    reveal_strlit(" WHERE ");
    reveal_strlit("stream");
    reveal_strlit(" ");
    reveal_strlit("=");
    reveal_strlit("seq");
    reveal_strlit(">=");
    reveal_strlit(" AND ");
    reveal_strlit(" ORDER BY ");
    reveal_strlit(" ASC");
    reveal_strlit(" LIMIT ");
    reveal_strlit("SELECT seq, kind, patch, meta, at_ms FROM events WHERE stream = ?1 AND seq >= ?2 ORDER BY seq ASC LIMIT ?3");
    let tests = page_tests();
    assert(tests.drop_last() =~= seq![tests[0]]);
    assert(SELECT_EVENTS@ =~= statement_sql(
        Statement {
            head: "SELECT seq, kind, patch, meta, at_ms FROM events"@,
            tests: tests,
            order: Some(("seq"@, false)),
            limit: Limit::Param(3),
        },
    ));
}

/// The conditions of [`SELECT_HEAD`].
pub open spec fn stream_tests() -> Seq<Test> {
    seq![
        Test::Column("stream"@, Op::Eq, 1),
    ]
}

/// The head is the greatest coordinate of the stream.
pub proof fn the_head_is_asked_for()
    ensures
        SELECT_HEAD@ == statement_sql(
            Statement {
                head: "SELECT MAX(seq) FROM events"@,
                tests: stream_tests(),
                order: None,
                limit: Limit::All,
            },
        ),
{
    reveal_with_fuel(tests_sql, 5);
    reveal_strlit("SELECT MAX(seq) FROM events");
    reveal_strlit(" WHERE ");
    reveal_strlit("stream");
    reveal_strlit(" ");
    reveal_strlit("=");
    reveal_strlit("SELECT MAX(seq) FROM events WHERE stream = ?1");
    let tests = stream_tests();
    assert(SELECT_HEAD@ =~= statement_sql(
        Statement {
            head: "SELECT MAX(seq) FROM events"@,
            tests: tests,
            order: None,
            limit: Limit::All,
        },
    ));
}

/// The conditions of [`SELECT_BY_META`].
pub open spec fn meta_tests() -> Seq<Test> {
    seq![
        Test::Column("stream"@, Op::Eq, 1),
        Test::Column("seq"@, Op::Gte, 2),
        Test::SameType("meta"@, 3, 4),
        Test::SameValue("meta"@, 3, 4),
    ]
}

/// Events are read by a member of their attribution: type and value have to be
/// those of what was asked for.
pub proof fn events_are_read_by_attribution()
    ensures
        SELECT_BY_META@ == statement_sql(
            Statement {
                head: "SELECT seq, kind, patch, meta, at_ms FROM events"@,
                tests: meta_tests(),
                order: Some(("seq"@, false)),
                limit: Limit::Param(5),
            },
        ),
{
    reveal_with_fuel(tests_sql, 5);
    reveal_strlit("SELECT seq, kind, patch, meta, at_ms FROM events");
    reveal_strlit(" WHERE ");
    reveal_strlit("stream");
    reveal_strlit(" ");
    reveal_strlit("=");
    reveal_strlit("seq");
    reveal_strlit(">=");
    reveal_strlit("json_type(");
    reveal_strlit("meta");
    reveal_strlit(", ");
    reveal_strlit(") = json_type(");
    reveal_strlit(", '$')");
    reveal_strlit("json_extract(");
    reveal_strlit(") = json_extract(");
    reveal_strlit(" AND ");
    reveal_strlit(" ORDER BY ");
    reveal_strlit(" ASC");
    reveal_strlit(" LIMIT ");
    reveal_strlit("SELECT seq, kind, patch, meta, at_ms FROM events WHERE stream = ?1 AND seq >= ?2 AND json_type(meta, ?3) = json_type(?4, '$') AND json_extract(meta, ?3) = json_extract(?4, '$') ORDER BY seq ASC LIMIT ?5");
    let tests = meta_tests();
    assert(tests.drop_last() =~= seq![tests[0], tests[1], tests[2]]);
    assert(tests.drop_last().drop_last() =~= seq![tests[0], tests[1]]);
    assert(tests.drop_last().drop_last().drop_last() =~= seq![tests[0]]);
    assert(SELECT_BY_META@ =~= statement_sql(
        Statement {
            head: "SELECT seq, kind, patch, meta, at_ms FROM events"@,
            tests: tests,
            order: Some(("seq"@, false)),
            limit: Limit::Param(5),
        },
    ));
}

/// The conditions of [`SELECT_BY_NULL_META`].
pub open spec fn null_tests() -> Seq<Test> {
    seq![
        Test::Column("stream"@, Op::Eq, 1),
        Test::Column("seq"@, Op::Gte, 2),
        Test::HoldsNull("meta"@, 3),
    ]
}

/// Events whose attribution holds a null are read by its type.
pub proof fn events_are_read_by_a_null()
    ensures
        SELECT_BY_NULL_META@ == statement_sql(
            Statement {
                head: "SELECT seq, kind, patch, meta, at_ms FROM events"@,
                tests: null_tests(),
                order: Some(("seq"@, false)),
                limit: Limit::Param(4),
            },
        ),
{
    reveal_with_fuel(tests_sql, 5);
    reveal_strlit("SELECT seq, kind, patch, meta, at_ms FROM events");
    reveal_strlit(" WHERE ");
    reveal_strlit("stream");
    reveal_strlit(" ");
    reveal_strlit("=");
    reveal_strlit("seq");
    reveal_strlit(">=");
    reveal_strlit("json_type(");
    reveal_strlit("meta");
    reveal_strlit(", ");
    reveal_strlit(") = 'null'");
    reveal_strlit(" AND ");
    reveal_strlit(" ORDER BY ");
    reveal_strlit(" ASC");
    reveal_strlit(" LIMIT ");
    reveal_strlit("SELECT seq, kind, patch, meta, at_ms FROM events WHERE stream = ?1 AND seq >= ?2 AND json_type(meta, ?3) = 'null' ORDER BY seq ASC LIMIT ?4");
    let tests = null_tests();
    assert(tests.drop_last() =~= seq![tests[0], tests[1]]);
    assert(tests.drop_last().drop_last() =~= seq![tests[0]]);
    assert(SELECT_BY_NULL_META@ =~= statement_sql(
        Statement {
            head: "SELECT seq, kind, patch, meta, at_ms FROM events"@,
            tests: tests,
            order: Some(("seq"@, false)),
            limit: Limit::Param(4),
        },
    ));
}

/// The conditions of [`SELECT_SEQ_AT_TIME`].
pub open spec fn time_tests() -> Seq<Test> {
    seq![
        Test::Column("stream"@, Op::Eq, 1),
        Test::Column("at_ms"@, Op::Lte, 2),
    ]
}

/// The coordinate for a time is the greatest whose event is not later.
pub proof fn a_time_is_asked_for()
    ensures
        SELECT_SEQ_AT_TIME@ == statement_sql(
            Statement {
                head: "SELECT MAX(seq) FROM events"@,
                tests: time_tests(),
                order: None,
                limit: Limit::All,
            },
        ),
{
    reveal_with_fuel(tests_sql, 5);
    reveal_strlit("SELECT MAX(seq) FROM events");
    reveal_strlit(" WHERE ");
    reveal_strlit("stream");
    reveal_strlit(" ");
    reveal_strlit("=");
    reveal_strlit("at_ms");
    reveal_strlit("<=");
    reveal_strlit(" AND ");
    reveal_strlit("SELECT MAX(seq) FROM events WHERE stream = ?1 AND at_ms <= ?2");
    let tests = time_tests();
    assert(tests.drop_last() =~= seq![tests[0]]);
    assert(SELECT_SEQ_AT_TIME@ =~= statement_sql(
        Statement {
            head: "SELECT MAX(seq) FROM events"@,
            tests: tests,
            order: None,
            limit: Limit::All,
        },
    ));
}

/// The first event of a stream is the one with the least coordinate.
pub proof fn the_first_event_is_asked_for()
    ensures
        SELECT_FIRST_EVENT@ == statement_sql(
            Statement {
                head: "SELECT seq, kind FROM events"@,
                tests: seq![Test::Column("stream"@, Op::Eq, 1)],
                order: Some(("seq"@, false)),
                limit: Limit::One,
            },
        ),
{
    reveal_with_fuel(tests_sql, 5);
    reveal_strlit("SELECT seq, kind FROM events");
    reveal_strlit(" WHERE ");
    reveal_strlit("stream");
    reveal_strlit(" ");
    reveal_strlit("=");
    reveal_strlit(" ORDER BY ");
    reveal_strlit("seq");
    reveal_strlit(" ASC");
    reveal_strlit(" LIMIT 1");
    reveal_strlit("SELECT seq, kind FROM events WHERE stream = ?1 ORDER BY seq ASC LIMIT 1");
    let tests = seq![Test::Column("stream"@, Op::Eq, 1)];
    assert(SELECT_FIRST_EVENT@ =~= statement_sql(
        Statement {
            head: "SELECT seq, kind FROM events"@,
            tests: tests,
            order: Some(("seq"@, false)),
            limit: Limit::One,
        },
    ));
}

/// Whether there is an event is asked by its stream and its coordinate.
pub proof fn an_event_is_looked_for()
    ensures
        SELECT_HAS_EVENT@ == statement_sql(
            Statement {
                head: "SELECT 1 FROM events"@,
                tests: seq![Test::Column("stream"@, Op::Eq, 1), Test::Column("seq"@, Op::Eq, 2)],
                order: None,
                limit: Limit::All,
            },
        ),
{
    reveal_with_fuel(tests_sql, 5);
    reveal_strlit("SELECT 1 FROM events");
    reveal_strlit(" WHERE ");
    reveal_strlit("stream");
    reveal_strlit(" ");
    reveal_strlit("=");
    reveal_strlit("seq");
    reveal_strlit(" AND ");
    reveal_strlit("SELECT 1 FROM events WHERE stream = ?1 AND seq = ?2");
    let tests = seq![Test::Column("stream"@, Op::Eq, 1), Test::Column("seq"@, Op::Eq, 2)];
    assert(tests.drop_last() =~= seq![tests[0]]);
    assert(SELECT_HAS_EVENT@ =~= statement_sql(
        Statement {
            head: "SELECT 1 FROM events"@,
            tests: tests,
            order: None,
            limit: Limit::All,
        },
    ));
}

/// The streams are those that any event has.
pub proof fn all_streams_are_asked_for()
    ensures
        SELECT_STREAMS@ == statement_sql(
            Statement {
                head: "SELECT DISTINCT stream FROM events"@,
                tests: Seq::<Test>::empty(),
                order: None,
                limit: Limit::All,
            },
        ),
{
    reveal_with_fuel(tests_sql, 5);
    reveal_strlit("SELECT DISTINCT stream FROM events");
    let tests = Seq::<Test>::empty();
    assert(SELECT_STREAMS@ =~= statement_sql(
        Statement {
            head: "SELECT DISTINCT stream FROM events"@,
            tests: tests,
            order: None,
            limit: Limit::All,
        },
    ));
}

/// A label is looked up by its stream and its name.
pub proof fn a_label_is_looked_up()
    ensures
        SELECT_LABEL@ == statement_sql(
            Statement {
                head: "SELECT at_seq FROM labels"@,
                tests: seq![Test::Column("stream"@, Op::Eq, 1), Test::Column("name"@, Op::Eq, 2)],
                order: None,
                limit: Limit::All,
            },
        ),
{
    reveal_with_fuel(tests_sql, 5);
    reveal_strlit("SELECT at_seq FROM labels");
    reveal_strlit(" WHERE ");
    reveal_strlit("stream");
    reveal_strlit(" ");
    reveal_strlit("=");
    reveal_strlit("name");
    reveal_strlit(" AND ");
    reveal_strlit("SELECT at_seq FROM labels WHERE stream = ?1 AND name = ?2");
    let tests = seq![Test::Column("stream"@, Op::Eq, 1), Test::Column("name"@, Op::Eq, 2)];
    assert(tests.drop_last() =~= seq![tests[0]]);
    assert(SELECT_LABEL@ =~= statement_sql(
        Statement {
            head: "SELECT at_seq FROM labels"@,
            tests: tests,
            order: None,
            limit: Limit::All,
        },
    ));
}

/// The labels of a stream come in the order of their names, all of them.
pub proof fn labels_are_listed_by_name()
    ensures
        SELECT_LABELS@ == statement_sql(
            Statement {
                head: "SELECT name, at_seq FROM labels"@,
                tests: seq![Test::Column("stream"@, Op::Eq, 1)],
                order: Some(("name"@, false)),
                limit: Limit::All,
            },
        ),
{
    reveal_with_fuel(tests_sql, 5);
    reveal_strlit("SELECT name, at_seq FROM labels");
    reveal_strlit(" WHERE ");
    reveal_strlit("stream");
    reveal_strlit(" ");
    reveal_strlit("=");
    reveal_strlit(" ORDER BY ");
    reveal_strlit("name");
    reveal_strlit(" ASC");
    reveal_strlit("SELECT name, at_seq FROM labels WHERE stream = ?1 ORDER BY name ASC");
    let tests = seq![Test::Column("stream"@, Op::Eq, 1)];
    assert(SELECT_LABELS@ =~= statement_sql(
        Statement {
            head: "SELECT name, at_seq FROM labels"@,
            tests: tests,
            order: Some(("name"@, false)),
            limit: Limit::All,
        },
    ));
}

/// A label is removed by its stream and its name.
pub proof fn one_label_is_removed()
    ensures
        DELETE_LABEL@ == statement_sql(
            Statement {
                head: "DELETE FROM labels"@,
                tests: seq![Test::Column("stream"@, Op::Eq, 1), Test::Column("name"@, Op::Eq, 2)],
                order: None,
                limit: Limit::All,
            },
        ),
{
    reveal_with_fuel(tests_sql, 5);
    reveal_strlit("DELETE FROM labels");
    reveal_strlit(" WHERE ");
    reveal_strlit("stream");
    reveal_strlit(" ");
    reveal_strlit("=");
    reveal_strlit("name");
    reveal_strlit(" AND ");
    reveal_strlit("DELETE FROM labels WHERE stream = ?1 AND name = ?2");
    let tests = seq![Test::Column("stream"@, Op::Eq, 1), Test::Column("name"@, Op::Eq, 2)];
    assert(tests.drop_last() =~= seq![tests[0]]);
    assert(DELETE_LABEL@ =~= statement_sql(
        Statement {
            head: "DELETE FROM labels"@,
            tests: tests,
            order: None,
            limit: Limit::All,
        },
    ));
}

/// The conditions of [`SELECT_NEAREST`].
pub open spec fn nearest_tests() -> Seq<Test> {
    seq![
        Test::Column("stream"@, Op::Eq, 1),
        Test::Column("at_seq"@, Op::Lte, 2),
    ]
}

/// The nearest cached state is the one with the greatest coordinate that does not
/// exceed the one asked for.
pub proof fn the_nearest_state_is_asked_for()
    ensures
        SELECT_NEAREST@ == statement_sql(
            Statement {
                head: "SELECT at_seq, state FROM cache"@,
                tests: nearest_tests(),
                order: Some(("at_seq"@, true)),
                limit: Limit::One,
            },
        ),
{
    reveal_with_fuel(tests_sql, 5);
    reveal_strlit("SELECT at_seq, state FROM cache");
    reveal_strlit(" WHERE ");
    reveal_strlit("stream");
    reveal_strlit(" ");
    reveal_strlit("=");
    reveal_strlit("at_seq");
    reveal_strlit("<=");
    reveal_strlit(" AND ");
    reveal_strlit(" ORDER BY ");
    reveal_strlit(" DESC");
    reveal_strlit(" LIMIT 1");
    reveal_strlit("SELECT at_seq, state FROM cache WHERE stream = ?1 AND at_seq <= ?2 ORDER BY at_seq DESC LIMIT 1");
    let tests = nearest_tests();
    assert(tests.drop_last() =~= seq![tests[0]]);
    assert(SELECT_NEAREST@ =~= statement_sql(
        Statement {
            head: "SELECT at_seq, state FROM cache"@,
            tests: tests,
            order: Some(("at_seq"@, true)),
            limit: Limit::One,
        },
    ));
}

/// A checkpoint is looked up by its sink and its stream.
pub proof fn a_checkpoint_is_looked_up()
    ensures
        SELECT_CHECKPOINT@ == statement_sql(
            Statement {
                head: "SELECT at_seq FROM sink_checkpoints"@,
                tests: seq![Test::Column("sink_id"@, Op::Eq, 1), Test::Column("stream"@, Op::Eq, 2)],
                order: None,
                limit: Limit::All,
            },
        ),
{
    reveal_with_fuel(tests_sql, 5);
    reveal_strlit("SELECT at_seq FROM sink_checkpoints");
    reveal_strlit(" WHERE ");
    reveal_strlit("sink_id");
    reveal_strlit(" ");
    reveal_strlit("=");
    reveal_strlit("stream");
    reveal_strlit(" AND ");
    reveal_strlit("SELECT at_seq FROM sink_checkpoints WHERE sink_id = ?1 AND stream = ?2");
    let tests = seq![Test::Column("sink_id"@, Op::Eq, 1), Test::Column("stream"@, Op::Eq, 2)];
    assert(tests.drop_last() =~= seq![tests[0]]);
    assert(SELECT_CHECKPOINT@ =~= statement_sql(
        Statement {
            head: "SELECT at_seq FROM sink_checkpoints"@,
            tests: tests,
            order: None,
            limit: Limit::All,
        },
    ));
}

/// The conditions of [`DELETE_PREFIX`].
pub open spec fn prefix_tests() -> Seq<Test> {
    seq![
        Test::Column("stream"@, Op::Eq, 1),
        Test::Column("seq"@, Op::Lte, 2),
    ]
}

/// A compaction removes the events of the stream up to the boundary.
pub proof fn a_prefix_is_removed()
    ensures
        DELETE_PREFIX@ == statement_sql(
            Statement {
                head: "DELETE FROM events"@,
                tests: prefix_tests(),
                order: None,
                limit: Limit::All,
            },
        ),
{
    reveal_with_fuel(tests_sql, 5);
    reveal_strlit("DELETE FROM events");
    reveal_strlit(" WHERE ");
    reveal_strlit("stream");
    reveal_strlit(" ");
    reveal_strlit("=");
    reveal_strlit("seq");
    reveal_strlit("<=");
    reveal_strlit(" AND ");
    reveal_strlit("DELETE FROM events WHERE stream = ?1 AND seq <= ?2");
    let tests = prefix_tests();
    assert(tests.drop_last() =~= seq![tests[0]]);
    assert(DELETE_PREFIX@ =~= statement_sql(
        Statement {
            head: "DELETE FROM events"@,
            tests: tests,
            order: None,
            limit: Limit::All,
        },
    ));
}

/// The conditions of [`DELETE_STALE_CACHE`].
pub open spec fn stale_tests() -> Seq<Test> {
    seq![
        Test::Column("stream"@, Op::Eq, 1),
        Test::Column("at_seq"@, Op::Lt, 2),
    ]
}

/// A compaction removes the cached states of the stream before the boundary.
pub proof fn stale_states_are_removed()
    ensures
        DELETE_STALE_CACHE@ == statement_sql(
            Statement {
                head: "DELETE FROM cache"@,
                tests: stale_tests(),
                order: None,
                limit: Limit::All,
            },
        ),
{
    reveal_with_fuel(tests_sql, 5);
    reveal_strlit("DELETE FROM cache");
    reveal_strlit(" WHERE ");
    reveal_strlit("stream");
    reveal_strlit(" ");
    reveal_strlit("=");
    reveal_strlit("at_seq");
    reveal_strlit("<");
    reveal_strlit(" AND ");
    reveal_strlit("DELETE FROM cache WHERE stream = ?1 AND at_seq < ?2");
    let tests = stale_tests();
    assert(tests.drop_last() =~= seq![tests[0]]);
    assert(DELETE_STALE_CACHE@ =~= statement_sql(
        Statement {
            head: "DELETE FROM cache"@,
            tests: tests,
            order: None,
            limit: Limit::All,
        },
    ));
}

/// The row of a stream is looked up by the stream.
pub proof fn a_row_is_looked_up()
    ensures
        SELECT_ROW@ == statement_sql(
            Statement {
                head: "SELECT stream, state, last_seq, updated_at, live FROM read_model"@,
                tests: seq![Test::Column("stream"@, Op::Eq, 1)],
                order: None,
                limit: Limit::All,
            },
        ),
{
    reveal_with_fuel(tests_sql, 5);
    reveal_strlit("SELECT stream, state, last_seq, updated_at, live FROM read_model");
    reveal_strlit(" WHERE ");
    reveal_strlit("stream");
    reveal_strlit(" ");
    reveal_strlit("=");
    reveal_strlit("SELECT stream, state, last_seq, updated_at, live FROM read_model WHERE stream = ?1");
    let tests = seq![Test::Column("stream"@, Op::Eq, 1)];
    assert(SELECT_ROW@ =~= statement_sql(
        Statement {
            head: "SELECT stream, state, last_seq, updated_at, live FROM read_model"@,
            tests: tests,
            order: None,
            limit: Limit::All,
        },
    ));
}

/// Where the row of a stream stands is looked up by the stream.
pub proof fn where_a_row_stands_is_looked_up()
    ensures
        SELECT_LAST_SEQ@ == statement_sql(
            Statement {
                head: "SELECT last_seq FROM read_model"@,
                tests: seq![Test::Column("stream"@, Op::Eq, 1)],
                order: None,
                limit: Limit::All,
            },
        ),
{
    reveal_with_fuel(tests_sql, 5);
    reveal_strlit("SELECT last_seq FROM read_model");
    reveal_strlit(" WHERE ");
    reveal_strlit("stream");
    reveal_strlit(" ");
    reveal_strlit("=");
    reveal_strlit("SELECT last_seq FROM read_model WHERE stream = ?1");
    let tests = seq![Test::Column("stream"@, Op::Eq, 1)];
    assert(SELECT_LAST_SEQ@ =~= statement_sql(
        Statement {
            head: "SELECT last_seq FROM read_model"@,
            tests: tests,
            order: None,
            limit: Limit::All,
        },
    ));
}

/// The latest rows are those that were updated last, as many as were asked for.
pub proof fn the_latest_rows_are_asked_for()
    ensures
        SELECT_TAIL@ == statement_sql(
            Statement {
                head: "SELECT stream, state, last_seq, updated_at, live FROM read_model"@,
                tests: Seq::<Test>::empty(),
                order: Some(("updated_at"@, true)),
                limit: Limit::Param(1),
            },
        ),
{
    reveal_with_fuel(tests_sql, 5);
    reveal_strlit("SELECT stream, state, last_seq, updated_at, live FROM read_model");
    reveal_strlit(" ORDER BY ");
    reveal_strlit("updated_at");
    reveal_strlit(" DESC");
    reveal_strlit(" LIMIT ");
    reveal_strlit("SELECT stream, state, last_seq, updated_at, live FROM read_model ORDER BY updated_at DESC LIMIT ?1");
    let tests = Seq::<Test>::empty();
    assert(SELECT_TAIL@ =~= statement_sql(
        Statement {
            head: "SELECT stream, state, last_seq, updated_at, live FROM read_model"@,
            tests: tests,
            order: Some(("updated_at"@, true)),
            limit: Limit::Param(1),
        },
    ));
}


/// The cached states that are not among the latest are removed: all of the stream but
/// those with the greatest coordinates, as many as are to be kept.
pub proof fn all_but_the_latest_are_removed()
    ensures
        PRUNE_CACHE@ == "DELETE FROM cache WHERE stream = ?1 AND at_seq NOT IN ("@ + statement_sql(
            Statement {
                head: "SELECT at_seq FROM cache"@,
                tests: seq![Test::Column("stream"@, Op::Eq, 1)],
                order: Some(("at_seq"@, true)),
                limit: Limit::Param(2),
            },
        ) + ")"@,
{
    reveal_with_fuel(tests_sql, 2);
    reveal_strlit(
        "DELETE FROM cache WHERE stream = ?1 AND at_seq NOT IN (SELECT at_seq FROM cache WHERE stream = ?1 ORDER BY at_seq DESC LIMIT ?2)",
    );
    reveal_strlit("DELETE FROM cache WHERE stream = ?1 AND at_seq NOT IN (");
    reveal_strlit("SELECT at_seq FROM cache");
    reveal_strlit(" WHERE ");
    reveal_strlit("stream");
    reveal_strlit(" ");
    reveal_strlit("=");
    reveal_strlit(" ORDER BY ");
    reveal_strlit("at_seq");
    reveal_strlit(" DESC");
    reveal_strlit(" LIMIT ");
    reveal_strlit(")");
    assert(PRUNE_CACHE@ =~= "DELETE FROM cache WHERE stream = ?1 AND at_seq NOT IN ("@
        + statement_sql(
        Statement {
            head: "SELECT at_seq FROM cache"@,
            tests: seq![Test::Column("stream"@, Op::Eq, 1)],
            order: Some(("at_seq"@, true)),
            limit: Limit::Param(2),
        },
    ) + ")"@);
}

/// Names with commas between them.
pub open spec fn listed(names: Seq<Seq<char>>) -> Seq<char>
    decreases names.len(),
{
    if names.len() == 0 {
        Seq::empty()
    } else if names.len() == 1 {
        names[0]
    } else {
        listed(names.drop_last()) + ", "@ + names.last()
    }
}

/// The parameters from the first on, one for each of `n` columns.
pub open spec fn params_listed(n: nat) -> Seq<char>
    decreases n,
{
    if n == 0 {
        Seq::empty()
    } else if n == 1 {
        param_sql(1)
    } else {
        params_listed((n - 1) as nat) + ", "@ + param_sql(n)
    }
}

/// How a row is written whose columns get the parameters, one after the other.
pub open spec fn insert_sql(table: Seq<char>, columns: Seq<Seq<char>>) -> Seq<char> {
    "INSERT INTO "@ + table + " ("@ + listed(columns) + ") VALUES ("@ + params_listed(columns.len())
        + ")"@
}

/// Columns that take over what was to be put in.
pub open spec fn taken_over(columns: Seq<Seq<char>>) -> Seq<char>
    decreases columns.len(),
{
    if columns.len() == 0 {
        Seq::empty()
    } else {
        (if columns.len() == 1 {
            Seq::empty()
        } else {
            taken_over(columns.drop_last()) + ", "@
        }) + columns.last() + " = excluded."@ + columns.last()
    }
}

/// How a row is written that takes the place of the one with the same keys, if there is
/// one.
pub open spec fn upsert_sql(
    table: Seq<char>,
    columns: Seq<Seq<char>>,
    keys: Seq<Seq<char>>,
    others: Seq<Seq<char>>,
) -> Seq<char> {
    insert_sql(table, columns) + " ON CONFLICT("@ + listed(keys) + ") DO UPDATE SET "@ + taken_over(
        others,
    )
}

/// An event is put in column by column, and takes the place of no other.
pub proof fn an_event_is_put_in()
    ensures
        INSERT_EVENT@ == insert_sql("events"@, seq!["stream"@, "seq"@, "kind"@, "patch"@, "meta"@, "at_ms"@]),
{
    let columns = seq!["stream"@, "seq"@, "kind"@, "patch"@, "meta"@, "at_ms"@];
    assert(listed(columns) == "stream, seq, kind, patch, meta, at_ms"@) by {
        reveal_with_fuel(listed, 7);
        assert(columns.drop_last() =~= seq![columns[0], columns[1], columns[2], columns[3], columns[4]]);
        assert(columns.drop_last().drop_last() =~= seq![columns[0], columns[1], columns[2], columns[3]]);
        assert(columns.drop_last().drop_last().drop_last() =~= seq![columns[0], columns[1], columns[2]]);
        assert(columns.drop_last().drop_last().drop_last().drop_last() =~= seq![columns[0], columns[1]]);
        assert(columns.drop_last().drop_last().drop_last().drop_last().drop_last() =~= seq![columns[0]]);
        reveal_strlit("stream");
        reveal_strlit("seq");
        reveal_strlit("kind");
        reveal_strlit("patch");
        reveal_strlit("meta");
        reveal_strlit("at_ms");
        reveal_strlit(", ");
        reveal_strlit("stream, seq, kind, patch, meta, at_ms");
        assert(listed(columns) =~= "stream, seq, kind, patch, meta, at_ms"@);
    }
    assert(params_listed(6) == "?1, ?2, ?3, ?4, ?5, ?6"@) by {
        reveal_with_fuel(params_listed, 7);
        reveal_strlit(", ");
        reveal_strlit("?1, ?2, ?3, ?4, ?5, ?6");
        assert(params_listed(6) =~= "?1, ?2, ?3, ?4, ?5, ?6"@);
    }
    assert(insert_sql("events"@, columns) == "INSERT INTO events (stream, seq, kind, patch, meta, at_ms) VALUES (?1, ?2, ?3, ?4, ?5, ?6)"@) by {
        reveal_strlit("INSERT INTO ");
        reveal_strlit("events");
        reveal_strlit(" (");
        reveal_strlit("stream, seq, kind, patch, meta, at_ms");
        reveal_strlit(") VALUES (");
        reveal_strlit("?1, ?2, ?3, ?4, ?5, ?6");
        reveal_strlit(")");
        reveal_strlit("INSERT INTO events (stream, seq, kind, patch, meta, at_ms) VALUES (?1, ?2, ?3, ?4, ?5, ?6)");
        assert(insert_sql("events"@, columns) =~= "INSERT INTO events (stream, seq, kind, patch, meta, at_ms) VALUES (?1, ?2, ?3, ?4, ?5, ?6)"@);
    }
}

/// A label is put in, or pointed elsewhere if it is there.
pub proof fn a_label_is_pointed()
    ensures
        UPSERT_LABEL@ == upsert_sql("labels"@, seq!["stream"@, "name"@, "at_seq"@], seq!["stream"@, "name"@], seq!["at_seq"@]),
{
    let columns = seq!["stream"@, "name"@, "at_seq"@];
    assert(listed(columns) == "stream, name, at_seq"@) by {
        reveal_with_fuel(listed, 7);
        assert(columns.drop_last() =~= seq![columns[0], columns[1]]);
        assert(columns.drop_last().drop_last() =~= seq![columns[0]]);
        reveal_strlit("stream");
        reveal_strlit("name");
        reveal_strlit("at_seq");
        reveal_strlit(", ");
        reveal_strlit("stream, name, at_seq");
        assert(listed(columns) =~= "stream, name, at_seq"@);
    }
    assert(params_listed(3) == "?1, ?2, ?3"@) by {
        reveal_with_fuel(params_listed, 7);
        reveal_strlit(", ");
        reveal_strlit("?1, ?2, ?3");
        assert(params_listed(3) =~= "?1, ?2, ?3"@);
    }
    assert(insert_sql("labels"@, columns) == "INSERT INTO labels (stream, name, at_seq) VALUES (?1, ?2, ?3)"@) by {
        reveal_strlit("INSERT INTO ");
        reveal_strlit("labels");
        reveal_strlit(" (");
        reveal_strlit("stream, name, at_seq");
        reveal_strlit(") VALUES (");
        reveal_strlit("?1, ?2, ?3");
        reveal_strlit(")");
        reveal_strlit("INSERT INTO labels (stream, name, at_seq) VALUES (?1, ?2, ?3)");
        assert(insert_sql("labels"@, columns) =~= "INSERT INTO labels (stream, name, at_seq) VALUES (?1, ?2, ?3)"@);
    }
    let keys = seq!["stream"@, "name"@];
    assert(listed(keys) == "stream, name"@) by {
        reveal_with_fuel(listed, 4);
        assert(keys.drop_last() =~= seq![keys[0]]);
        reveal_strlit("stream");
        reveal_strlit("name");
        reveal_strlit(", ");
        reveal_strlit("stream, name");
        assert(listed(keys) =~= "stream, name"@);
    }
    let others = seq!["at_seq"@];
    assert(taken_over(others) == "at_seq = excluded.at_seq"@) by {
        reveal_with_fuel(taken_over, 6);
        reveal_strlit("at_seq");
        reveal_strlit(", ");
        reveal_strlit(" = excluded.");
        reveal_strlit("at_seq = excluded.at_seq");
        assert(taken_over(others) =~= "at_seq = excluded.at_seq"@);
    }
    reveal_strlit("INSERT INTO labels (stream, name, at_seq) VALUES (?1, ?2, ?3)");
    reveal_strlit(" ON CONFLICT(");
    reveal_strlit("stream, name");
    reveal_strlit(") DO UPDATE SET ");
    reveal_strlit("at_seq = excluded.at_seq");
    reveal_strlit("INSERT INTO labels (stream, name, at_seq) VALUES (?1, ?2, ?3) ON CONFLICT(stream, name) DO UPDATE SET at_seq = excluded.at_seq");
    assert(UPSERT_LABEL@ =~= "INSERT INTO labels (stream, name, at_seq) VALUES (?1, ?2, ?3)"@ + " ON CONFLICT("@ + "stream, name"@ + ") DO UPDATE SET "@ + "at_seq = excluded.at_seq"@);
}

/// A state is put into the cache, in place of the one at its coordinate.
pub proof fn a_state_is_cached()
    ensures
        UPSERT_CACHE@ == upsert_sql("cache"@, seq!["stream"@, "at_seq"@, "state"@], seq!["stream"@, "at_seq"@], seq!["state"@]),
{
    let columns = seq!["stream"@, "at_seq"@, "state"@];
    assert(listed(columns) == "stream, at_seq, state"@) by {
        reveal_with_fuel(listed, 7);
        assert(columns.drop_last() =~= seq![columns[0], columns[1]]);
        assert(columns.drop_last().drop_last() =~= seq![columns[0]]);
        reveal_strlit("stream");
        reveal_strlit("at_seq");
        reveal_strlit("state");
        reveal_strlit(", ");
        reveal_strlit("stream, at_seq, state");
        assert(listed(columns) =~= "stream, at_seq, state"@);
    }
    assert(params_listed(3) == "?1, ?2, ?3"@) by {
        reveal_with_fuel(params_listed, 7);
        reveal_strlit(", ");
        reveal_strlit("?1, ?2, ?3");
        assert(params_listed(3) =~= "?1, ?2, ?3"@);
    }
    assert(insert_sql("cache"@, columns) == "INSERT INTO cache (stream, at_seq, state) VALUES (?1, ?2, ?3)"@) by {
        reveal_strlit("INSERT INTO ");
        reveal_strlit("cache");
        reveal_strlit(" (");
        reveal_strlit("stream, at_seq, state");
        reveal_strlit(") VALUES (");
        reveal_strlit("?1, ?2, ?3");
        reveal_strlit(")");
        reveal_strlit("INSERT INTO cache (stream, at_seq, state) VALUES (?1, ?2, ?3)");
        assert(insert_sql("cache"@, columns) =~= "INSERT INTO cache (stream, at_seq, state) VALUES (?1, ?2, ?3)"@);
    }
    let keys = seq!["stream"@, "at_seq"@];
    assert(listed(keys) == "stream, at_seq"@) by {
        reveal_with_fuel(listed, 4);
        assert(keys.drop_last() =~= seq![keys[0]]);
        reveal_strlit("stream");
        reveal_strlit("at_seq");
        reveal_strlit(", ");
        reveal_strlit("stream, at_seq");
        assert(listed(keys) =~= "stream, at_seq"@);
    }
    let others = seq!["state"@];
    assert(taken_over(others) == "state = excluded.state"@) by {
        reveal_with_fuel(taken_over, 6);
        reveal_strlit("state");
        reveal_strlit(", ");
        reveal_strlit(" = excluded.");
        reveal_strlit("state = excluded.state");
        assert(taken_over(others) =~= "state = excluded.state"@);
    }
    reveal_strlit("INSERT INTO cache (stream, at_seq, state) VALUES (?1, ?2, ?3)");
    reveal_strlit(" ON CONFLICT(");
    reveal_strlit("stream, at_seq");
    reveal_strlit(") DO UPDATE SET ");
    reveal_strlit("state = excluded.state");
    reveal_strlit("INSERT INTO cache (stream, at_seq, state) VALUES (?1, ?2, ?3) ON CONFLICT(stream, at_seq) DO UPDATE SET state = excluded.state");
    assert(UPSERT_CACHE@ =~= "INSERT INTO cache (stream, at_seq, state) VALUES (?1, ?2, ?3)"@ + " ON CONFLICT("@ + "stream, at_seq"@ + ") DO UPDATE SET "@ + "state = excluded.state"@);
}

/// A checkpoint is kept, in place of the one of its sink on its stream.
pub proof fn a_checkpoint_is_kept()
    ensures
        UPSERT_CHECKPOINT@ == upsert_sql("sink_checkpoints"@, seq!["sink_id"@, "stream"@, "at_seq"@], seq!["sink_id"@, "stream"@], seq!["at_seq"@]),
{
    let columns = seq!["sink_id"@, "stream"@, "at_seq"@];
    assert(listed(columns) == "sink_id, stream, at_seq"@) by {
        reveal_with_fuel(listed, 7);
        assert(columns.drop_last() =~= seq![columns[0], columns[1]]);
        assert(columns.drop_last().drop_last() =~= seq![columns[0]]);
        reveal_strlit("sink_id");
        reveal_strlit("stream");
        reveal_strlit("at_seq");
        reveal_strlit(", ");
        reveal_strlit("sink_id, stream, at_seq");
        assert(listed(columns) =~= "sink_id, stream, at_seq"@);
    }
    assert(params_listed(3) == "?1, ?2, ?3"@) by {
        reveal_with_fuel(params_listed, 7);
        reveal_strlit(", ");
        reveal_strlit("?1, ?2, ?3");
        assert(params_listed(3) =~= "?1, ?2, ?3"@);
    }
    assert(insert_sql("sink_checkpoints"@, columns) == "INSERT INTO sink_checkpoints (sink_id, stream, at_seq) VALUES (?1, ?2, ?3)"@) by {
        reveal_strlit("INSERT INTO ");
        reveal_strlit("sink_checkpoints");
        reveal_strlit(" (");
        reveal_strlit("sink_id, stream, at_seq");
        reveal_strlit(") VALUES (");
        reveal_strlit("?1, ?2, ?3");
        reveal_strlit(")");
        reveal_strlit("INSERT INTO sink_checkpoints (sink_id, stream, at_seq) VALUES (?1, ?2, ?3)");
        assert(insert_sql("sink_checkpoints"@, columns) =~= "INSERT INTO sink_checkpoints (sink_id, stream, at_seq) VALUES (?1, ?2, ?3)"@);
    }
    let keys = seq!["sink_id"@, "stream"@];
    assert(listed(keys) == "sink_id, stream"@) by {
        reveal_with_fuel(listed, 4);
        assert(keys.drop_last() =~= seq![keys[0]]);
        reveal_strlit("sink_id");
        reveal_strlit("stream");
        reveal_strlit(", ");
        reveal_strlit("sink_id, stream");
        assert(listed(keys) =~= "sink_id, stream"@);
    }
    let others = seq!["at_seq"@];
    assert(taken_over(others) == "at_seq = excluded.at_seq"@) by {
        reveal_with_fuel(taken_over, 6);
        reveal_strlit("at_seq");
        reveal_strlit(", ");
        reveal_strlit(" = excluded.");
        reveal_strlit("at_seq = excluded.at_seq");
        assert(taken_over(others) =~= "at_seq = excluded.at_seq"@);
    }
    reveal_strlit("INSERT INTO sink_checkpoints (sink_id, stream, at_seq) VALUES (?1, ?2, ?3)");
    reveal_strlit(" ON CONFLICT(");
    reveal_strlit("sink_id, stream");
    reveal_strlit(") DO UPDATE SET ");
    reveal_strlit("at_seq = excluded.at_seq");
    reveal_strlit("INSERT INTO sink_checkpoints (sink_id, stream, at_seq) VALUES (?1, ?2, ?3) ON CONFLICT(sink_id, stream) DO UPDATE SET at_seq = excluded.at_seq");
    assert(UPSERT_CHECKPOINT@ =~= "INSERT INTO sink_checkpoints (sink_id, stream, at_seq) VALUES (?1, ?2, ?3)"@ + " ON CONFLICT("@ + "sink_id, stream"@ + ") DO UPDATE SET "@ + "at_seq = excluded.at_seq"@);
}

/// A row of the read model is kept, in place of the one of its stream, if it stands
/// further along.
pub proof fn a_row_is_kept()
    ensures
        UPSERT_ROW@ == upsert_sql("read_model"@, seq!["stream"@, "state"@, "last_seq"@, "updated_at"@, "live"@], seq!["stream"@], seq!["state"@, "last_seq"@, "updated_at"@, "live"@]) + " WHERE excluded.last_seq > read_model.last_seq"@,
{
    let columns = seq!["stream"@, "state"@, "last_seq"@, "updated_at"@, "live"@];
    assert(listed(columns) == "stream, state, last_seq, updated_at, live"@) by {
        reveal_with_fuel(listed, 7);
        assert(columns.drop_last() =~= seq![columns[0], columns[1], columns[2], columns[3]]);
        assert(columns.drop_last().drop_last() =~= seq![columns[0], columns[1], columns[2]]);
        assert(columns.drop_last().drop_last().drop_last() =~= seq![columns[0], columns[1]]);
        assert(columns.drop_last().drop_last().drop_last().drop_last() =~= seq![columns[0]]);
        reveal_strlit("stream");
        reveal_strlit("state");
        reveal_strlit("last_seq");
        reveal_strlit("updated_at");
        reveal_strlit("live");
        reveal_strlit(", ");
        reveal_strlit("stream, state, last_seq, updated_at, live");
        assert(listed(columns) =~= "stream, state, last_seq, updated_at, live"@);
    }
    assert(params_listed(5) == "?1, ?2, ?3, ?4, ?5"@) by {
        reveal_with_fuel(params_listed, 7);
        reveal_strlit(", ");
        reveal_strlit("?1, ?2, ?3, ?4, ?5");
        assert(params_listed(5) =~= "?1, ?2, ?3, ?4, ?5"@);
    }
    assert(insert_sql("read_model"@, columns) == "INSERT INTO read_model (stream, state, last_seq, updated_at, live) VALUES (?1, ?2, ?3, ?4, ?5)"@) by {
        reveal_strlit("INSERT INTO ");
        reveal_strlit("read_model");
        reveal_strlit(" (");
        reveal_strlit("stream, state, last_seq, updated_at, live");
        reveal_strlit(") VALUES (");
        reveal_strlit("?1, ?2, ?3, ?4, ?5");
        reveal_strlit(")");
        reveal_strlit("INSERT INTO read_model (stream, state, last_seq, updated_at, live) VALUES (?1, ?2, ?3, ?4, ?5)");
        assert(insert_sql("read_model"@, columns) =~= "INSERT INTO read_model (stream, state, last_seq, updated_at, live) VALUES (?1, ?2, ?3, ?4, ?5)"@);
    }
    let keys = seq!["stream"@];
    assert(listed(keys) == "stream"@) by {
        reveal_with_fuel(listed, 4);
        reveal_strlit("stream");
        reveal_strlit(", ");
        assert(listed(keys) =~= "stream"@);
    }
    let others = seq!["state"@, "last_seq"@, "updated_at"@, "live"@];
    assert(taken_over(others) == "state = excluded.state, last_seq = excluded.last_seq, updated_at = excluded.updated_at, live = excluded.live"@) by {
        reveal_with_fuel(taken_over, 6);
        assert(others.drop_last() =~= seq![others[0], others[1], others[2]]);
        assert(others.drop_last().drop_last() =~= seq![others[0], others[1]]);
        assert(others.drop_last().drop_last().drop_last() =~= seq![others[0]]);
        reveal_strlit("state");
        reveal_strlit("last_seq");
        reveal_strlit("updated_at");
        reveal_strlit("live");
        reveal_strlit(", ");
        reveal_strlit(" = excluded.");
        reveal_strlit("state = excluded.state, last_seq = excluded.last_seq, updated_at = excluded.updated_at, live = excluded.live");
        assert(taken_over(others) =~= "state = excluded.state, last_seq = excluded.last_seq, updated_at = excluded.updated_at, live = excluded.live"@);
    }
    reveal_strlit("INSERT INTO read_model (stream, state, last_seq, updated_at, live) VALUES (?1, ?2, ?3, ?4, ?5)");
    reveal_strlit(" ON CONFLICT(");
    reveal_strlit("stream");
    reveal_strlit(") DO UPDATE SET ");
    reveal_strlit("state = excluded.state, last_seq = excluded.last_seq, updated_at = excluded.updated_at, live = excluded.live");
    reveal_strlit(" WHERE excluded.last_seq > read_model.last_seq");
    reveal_strlit("INSERT INTO read_model (stream, state, last_seq, updated_at, live) VALUES (?1, ?2, ?3, ?4, ?5) ON CONFLICT(stream) DO UPDATE SET state = excluded.state, last_seq = excluded.last_seq, updated_at = excluded.updated_at, live = excluded.live WHERE excluded.last_seq > read_model.last_seq");
    assert(UPSERT_ROW@ =~= "INSERT INTO read_model (stream, state, last_seq, updated_at, live) VALUES (?1, ?2, ?3, ?4, ?5)"@ + " ON CONFLICT("@ + "stream"@ + ") DO UPDATE SET "@ + "state = excluded.state, last_seq = excluded.last_seq, updated_at = excluded.updated_at, live = excluded.live"@ + " WHERE excluded.last_seq > read_model.last_seq"@);
}

/// Tests that agree on all items leave the same of them.
proof fn same_filter<T>(items: Seq<T>, a: spec_fn(T) -> bool, b: spec_fn(T) -> bool)
    requires
        forall|i: int| 0 <= i < items.len() ==> a(#[trigger] items[i]) == b(items[i]),
    ensures
        items.filter(a) == items.filter(b),
    decreases items.len(),
{
    reveal(Seq::filter);
    if items.len() > 0 {
        let rest = items.drop_last();
        assert forall|i: int| 0 <= i < rest.len() implies a(#[trigger] rest[i]) == b(rest[i]) by {
            assert(rest[i] == items[i]);
        }
        same_filter(rest, a, b);
        assert(items.last() == items[items.len() - 1]);
    }
}

/// Whether a stream is the one that is bound.
proof fn streams_are_told_apart(
    engine: Engine,
    params: Seq<ParamView>,
    stream: Seq<char>,
    other: Seq<char>,
    event: EventView,
)
    requires
        params.len() > 0,
        params[0] == ParamView::Text(stream),
    ensures
        passes_test(
            engine,
            Test::Column("stream"@, Op::Eq, 1),
            params,
            event_record(engine, other, event),
        ) == (other == stream),
{
    event_columns_differ();
}

/// A page of events is a page of the log: of the rows of all streams, those pass that
/// belong to the stream and stand at the coordinate or after it, and of those, in
/// order, as many are read as were asked for.
pub proof fn a_page_is_read_from_the_log(
    engine: Engine,
    stream: Seq<char>,
    events: Seq<EventView>,
    from: u64,
    limit: usize,
    other: Seq<char>,
    event: EventView,
)
    requires
        gap_free(events),
        events.len() > 0 ==> events.last().seq < i64::MAX,
        event.seq < i64::MAX,
    ensures
        ({
            let params = seq![
                ParamView::Text(stream),
                ParamView::Integer(sql_seq(from)),
                ParamView::Integer(sql_count(limit)),
            ];
            &&& passes_tests(engine, page_tests(), params, event_record(engine, other, event))
                <==> other == stream && event.seq >= from
            &&& param_value(params, 3) matches Datum::Number(most) && at_most(
                events.filter(
                    |e: EventView|
                        passes_tests(engine, page_tests(), params, event_record(engine, stream, e)),
                ),
                most,
            ) == at_most(since(events, from as int), limit as int)
        }),
{
    let params = seq![
        ParamView::Text(stream),
        ParamView::Integer(sql_seq(from)),
        ParamView::Integer(sql_count(limit)),
    ];
    event_columns_differ();
    coordinates_are_bound_as_they_are(from);
    one_row_of_a_page(engine, params, stream, other, event, from);
    let passing = |e: EventView|
        passes_tests(engine, page_tests(), params, event_record(engine, stream, e));
    let later = |e: EventView| e.seq >= from;
    assert forall|i: int| 0 <= i < events.len() implies passing(#[trigger] events[i]) == later(
        events[i],
    ) by {
        assert(events[i].seq <= events.last().seq) by {
            assert(events[events.len() - 1] == events.last());
        }
        one_row_of_a_page(engine, params, stream, stream, events[i], from);
    }
    same_filter(events, passing, later);
    since_is_a_filter(events, from as int);
    assert(later =~= |e: EventView| e.seq >= from as int);
    a_bound_page_is_the_page_asked_for(events, from, limit);
    crate::sqlite::page_laws::counts_are_bound_as_they_are(limit);
    crate::sqlite::page_laws::a_bound_limit_cuts_as_it_is(since(events, from as int), limit);
}

proof fn one_row_of_a_page(
    engine: Engine,
    params: Seq<ParamView>,
    stream: Seq<char>,
    other: Seq<char>,
    event: EventView,
    from: u64,
)
    requires
        params.len() > 1,
        params[0] == ParamView::Text(stream),
        params[1] == ParamView::Integer(sql_seq(from)),
        event.seq < i64::MAX,
    ensures
        passes_tests(engine, page_tests(), params, event_record(engine, other, event)) <==> other
            == stream && event.seq >= from,
{
    event_columns_differ();
    coordinates_are_bound_as_they_are(from);
    let tests = page_tests();
    let record = event_record(engine, other, event);
    streams_are_told_apart(engine, params, stream, other, event);
    assert(passes_test(engine, tests[0], params, record) == (other == stream));
    assert(passes_test(engine, tests[1], params, record) == (event.seq >= from));
}

/// The rows that the head is the greatest of are those of the stream, so that it is the
/// head of the log.
pub proof fn the_head_is_read_from_the_log(
    engine: Engine,
    stream: Seq<char>,
    events: Seq<EventView>,
    other: Seq<char>,
    event: EventView,
)
    requires
        gap_free(events),
    ensures
        passes_tests(
            engine,
            stream_tests(),
            seq![ParamView::Text(stream)],
            event_record(engine, other, event),
        ) <==> other == stream,
        match head_of(events) {
            Some(head) => events.contains(events.last()) && events.last().seq == head && forall|
                i: int,
            |
                0 <= i < events.len() ==> (#[trigger] events[i]).seq <= head,
            None => events.len() == 0,
        },
{
    let tests = stream_tests();
    let params = seq![ParamView::Text(stream)];
    streams_are_told_apart(engine, params, stream, other, event);
    assert(passes_test(engine, tests[0], params, event_record(engine, other, event)) == (other
        == stream));
    if events.len() > 0 {
        assert(events[events.len() - 1] == events.last());
    }
}

/// The rows that the coordinate for a time is the greatest of are those of the stream
/// that are not later, so that it is the one that the log gives.
pub proof fn a_time_is_looked_up_in_the_log(
    engine: Engine,
    stream: Seq<char>,
    events: Seq<EventView>,
    at: i64,
    other: Seq<char>,
    event: EventView,
)
    requires
        gap_free(events),
    ensures
        ({
            let params = seq![ParamView::Text(stream), ParamView::Integer(at)];
            &&& passes_tests(engine, time_tests(), params, event_record(engine, other, event))
                <==> other == stream && event.at <= at
            &&& match seq_not_after(events, at) {
                Some(seq) => {
                    &&& exists|i: int|
                        0 <= i < events.len() && (#[trigger] events[i]).seq == seq && events[i].at
                            <= at
                    &&& forall|i: int|
                        0 <= i < events.len() && (#[trigger] events[i]).at <= at ==> events[i].seq
                            <= seq
                },
                None => forall|i: int| 0 <= i < events.len() ==> (#[trigger] events[i]).at > at,
            }
        }),
{
    event_columns_differ();
    let params = seq![ParamView::Text(stream), ParamView::Integer(at)];
    let tests = time_tests();
    let record = event_record(engine, other, event);
    streams_are_told_apart(engine, params, stream, other, event);
    assert(passes_test(engine, tests[0], params, record) == (other == stream));
    assert(passes_test(engine, tests[1], params, record) == (event.at <= at));
    seq_not_after_is_greatest(events, at);
}

/// Reading by attribution lets those events pass whose attribution has the member, of the
/// type and with the value of what was asked for; for null, those that hold a null
/// there, and not those without the member.
pub proof fn a_member_is_looked_up_by_type_and_value(
    engine: Engine,
    stream: Seq<char>,
    field: Seq<char>,
    value: Seq<char>,
    from: u64,
    limit: usize,
    other: Seq<char>,
    event: EventView,
)
    requires
        event.seq < i64::MAX,
    ensures
        ({
            let params = meta_params(stream, field, value, from, limit);
            let found = member_of((engine.read)(event.meta), field);
            let given = (engine.read)(value);
            let record = event_record(engine, other, event);
            &&& value != "null"@ ==> (passes_tests(engine, meta_tests(), params, record) <==> {
                &&& other == stream
                &&& event.seq >= from
                &&& found is Some
                &&& kind_name(found) == kind_name(Some(given))
                &&& engine.value(found) == engine.value(Some(given))
                &&& !(engine.value(found) is Null)
            })
            &&& value == "null"@ ==> (passes_tests(engine, null_tests(), params, record) <==> {
                &&& other == stream
                &&& event.seq >= from
                &&& found matches Some(tree) && tree is Null
            })
            &&& params.last() == ParamView::Integer(sql_count(limit))
        }),
{
    event_columns_differ();
    coordinates_are_bound_as_they_are(from);
    let params = meta_params(stream, field, value, from, limit);
    let record = event_record(engine, other, event);
    let document = (engine.read)(event.meta);
    streams_are_told_apart(engine, params, stream, other, event);
    a_member_path_selects_the_member(document, field);
    assert(record.documents["meta"@] == document);
    assert(params[2] == ParamView::Text(member_path(field)));
    if value == "null"@ {
        let tests = null_tests();
        assert(passes_test(engine, tests[0], params, record) == (other == stream));
        assert(passes_test(engine, tests[1], params, record) == (event.seq >= from));
        null_is_told_by_its_type(member_of(document, field));
        assert(passes_test(engine, tests[2], params, record) == (member_of(
            document,
            field,
        ) matches Some(tree) && tree is Null));
    } else {
        let tests = meta_tests();
        assert(params[3] == ParamView::Text(value));
        assert(passes_test(engine, tests[0], params, record) == (other == stream));
        assert(passes_test(engine, tests[1], params, record) == (event.seq >= from));
        let t2 = passes_test(engine, tests[2], params, record);
        let t3 = passes_test(engine, tests[3], params, record);
        assert(passes_tests(engine, tests, params, record) <==> other == stream && event.seq
            >= from && t2 && t3) by {
            if passes_tests(engine, tests, params, record) {
                assert(passes_test(engine, tests[0], params, record));
                assert(passes_test(engine, tests[1], params, record));
                assert(passes_test(engine, tests[2], params, record));
                assert(passes_test(engine, tests[3], params, record));
            }
        }
    }
}

/// Only null has the type of null.
proof fn null_is_told_by_its_type(found: Option<Tree>)
    ensures
        (compared(kind_name(found), Op::Eq, Datum::Text("null"@)) == Some(true)) == (
        found matches Some(tree) && tree is Null),
{
    reveal_strlit("null");
    reveal_strlit("true");
    reveal_strlit("false");
    reveal_strlit("integer");
    reveal_strlit("real");
    reveal_strlit("text");
    reveal_strlit("array");
    reveal_strlit("object");
    assert("null"@[0] == 'n' && "true"@[0] == 't' && "real"@[0] == 'r' && "text"@[0] == 't');
    assert("null"@.len() == 4 && "false"@.len() == 5 && "integer"@.len() == 7);
    assert("array"@.len() == 5 && "object"@.len() == 6);
}

/// The row of a cached state.
pub open spec fn cache_record(stream: Seq<char>, at: u64) -> Record {
    Record {
        columns: map!["stream"@ => Datum::Text(stream), "at_seq"@ => Datum::Number(at as int)],
        documents: Map::empty(),
    }
}

/// The names of the columns of the cache differ.
proof fn cache_columns_differ()
    ensures
        "stream"@ != "at_seq"@,
{
    reveal_strlit("stream");
    reveal_strlit("at_seq");
    assert("stream"@[0] == 's' && "at_seq"@[0] == 'a');
}

/// The greatest of the rows that pass is the nearest cached state: those of the stream
/// pass that do not exceed the coordinate.
pub proof fn the_nearest_state_is_read_from_the_cache(
    engine: Engine,
    stream: Seq<char>,
    at: u64,
    other: Seq<char>,
    cached: u64,
    entries: Entries,
)
    requires
        cached < i64::MAX,
    ensures
        passes_tests(
            engine,
            nearest_tests(),
            seq![ParamView::Text(stream), ParamView::Integer(sql_seq(at))],
            cache_record(other, cached),
        ) <==> other == stream && cached <= at,
        entries.dom().contains(cached) && cached <= at && (forall|more: u64| #[trigger]
            entries.dom().contains(more) && more <= at ==> more <= cached) <==> is_nearest(
            entries,
            at,
            Some((cached, entries[cached])),
        ),
{
    cache_columns_differ();
    coordinates_are_bound_as_they_are(at);
    let params = seq![ParamView::Text(stream), ParamView::Integer(sql_seq(at))];
    let tests = nearest_tests();
    let record = cache_record(other, cached);
    assert(passes_test(engine, tests[0], params, record) == (other == stream));
    assert(passes_test(engine, tests[1], params, record) == (cached <= at));
}

/// A compaction removes the events up to the boundary and the cached states before it,
/// of the stream alone; the events that are left are those after the boundary.
pub proof fn a_compaction_removes_what_came_before(
    engine: Engine,
    stream: Seq<char>,
    boundary: u64,
    events: Seq<EventView>,
    other: Seq<char>,
    event: EventView,
    cached: u64,
)
    requires
        gap_free(events),
        boundary <= i64::MAX,
    ensures
        ({
            let params = seq![ParamView::Text(stream), ParamView::Integer(sql_seq(boundary))];
            &&& passes_tests(engine, prefix_tests(), params, event_record(engine, other, event))
                <==> other == stream && event.seq <= boundary
            &&& passes_tests(engine, stale_tests(), params, cache_record(other, cached)) <==> other
                == stream && cached < boundary
            &&& events.filter(
                |e: EventView|
                    !passes_tests(engine, prefix_tests(), params, event_record(engine, stream, e)),
            ) == since(events, boundary + 1)
        }),
{
    let params = seq![ParamView::Text(stream), ParamView::Integer(sql_seq(boundary))];
    cache_columns_differ();
    coordinates_are_bound_as_they_are(boundary);
    one_row_of_a_prefix(engine, params, stream, other, event, boundary);
    let stale = stale_tests();
    let record = cache_record(other, cached);
    assert(passes_test(engine, stale[0], params, record) == (other == stream));
    assert(passes_test(engine, stale[1], params, record) == (cached < boundary));
    let left = |e: EventView|
        !passes_tests(engine, prefix_tests(), params, event_record(engine, stream, e));
    let later = |e: EventView| e.seq >= boundary + 1;
    assert forall|i: int| 0 <= i < events.len() implies left(#[trigger] events[i]) == later(
        events[i],
    ) by {
        one_row_of_a_prefix(engine, params, stream, stream, events[i], boundary);
    }
    same_filter(events, left, later);
    since_is_a_filter(events, boundary + 1);
    assert(later =~= |e: EventView| e.seq >= boundary + 1);
}

proof fn one_row_of_a_prefix(
    engine: Engine,
    params: Seq<ParamView>,
    stream: Seq<char>,
    other: Seq<char>,
    event: EventView,
    boundary: u64,
)
    requires
        boundary <= i64::MAX,
        params == seq![ParamView::Text(stream), ParamView::Integer(sql_seq(boundary))],
    ensures
        passes_tests(engine, prefix_tests(), params, event_record(engine, other, event)) <==> other
            == stream && event.seq <= boundary,
{
    event_columns_differ();
    coordinates_are_bound_as_they_are(boundary);
    let tests = prefix_tests();
    let record = event_record(engine, other, event);
    streams_are_told_apart(engine, params, stream, other, event);
    assert(passes_test(engine, tests[0], params, record) == (other == stream));
    assert(passes_test(engine, tests[1], params, record) == (event.seq <= boundary));
}

} // verus!
