//! What the statements of queries ask for: which rows, in which order, and how many
//! of them.
use vstd::prelude::*;

use crate::json::json_text;
use crate::log::at_most;
use crate::sqlite::filter_laws::{
    a_filter_lets_pass_what_meets_it, a_filter_reads_as_its_condition, at_field, filter_cond,
    meets, reads_null, what_passes,
};
use crate::sqlite::meaning::{
    cond_params, cond_sql, expr_params, expr_sql, expr_value, keys_put_first, keys_sql, lets_pass,
    op_sql, sorts_before, well_enclosed, Cond, Datum, Engine, Expr, Op, Row, SortKey,
};
use crate::sqlite::path_laws::{a_path_goes_from_member_to_member, path_text};
use crate::sqlite::query::{
    base_sql, count_sql, index_sql, is_column, keyset_params, keyset_sql, order_bad_path,
    order_direction, order_expr, order_sql, page_sql, query_bad_path, query_params, query_sql,
    sql_count, underscored, value_params, where_bad_path, where_params, where_sql, After, Filter,
    Order, ParamView, Query, RawWhere,
};
use crate::text::{text_before, text_order_strict};

verus! {

/// What the condition of the caller comes to for a row.
pub type Fact = spec_fn(Row) -> Option<bool>;

/// Whether `row` is among the rows of `filter` and `raw`, of which `fact` says what
/// it comes to: it meets both, and it is live, unless the others are wanted too.
pub open spec fn is_asked_for(
    engine: Engine,
    filter: Option<Filter>,
    raw: Option<RawWhere>,
    fact: Fact,
    include_dead: bool,
    row: Row,
) -> bool {
    &&& filter matches Some(f) ==> meets(engine, f, row.state)
    &&& raw is Some ==> fact(row) == Some(true)
    &&& include_dead || row.live
}

/// How [`base_sql`] is put together.
spec fn base_cond(filter: Option<Filter>, raw: Option<RawWhere>, fact: Fact) -> Cond {
    let first = match filter {
        Some(f) => filter_cond(f),
        None => Cond::Always,
    };
    match raw {
        Some(r) => Cond::And(
            Box::new(Cond::Enclosed(Box::new(first))),
            Box::new(
                Cond::Enclosed(Box::new(Cond::Raw(r.sql@, value_params(r.params@), fact))),
            ),
        ),
        None => first,
    }
}

/// How [`where_sql`] is put together.
pub closed spec fn where_cond(
    filter: Option<Filter>,
    raw: Option<RawWhere>,
    fact: Fact,
    include_dead: bool,
) -> Cond {
    if include_dead {
        base_cond(filter, raw, fact)
    } else {
        Cond::And(
            Box::new(Cond::Enclosed(Box::new(base_cond(filter, raw, fact)))),
            Box::new(Cond::Compare(Expr::Column("live"@), Op::Eq, Expr::One)),
        )
    }
}

/// What the condition of a query, or of a count, is compiled to reads as
/// [`where_cond`].
pub proof fn a_condition_reads_as_its_parts(
    filter: Option<Filter>,
    raw: Option<RawWhere>,
    fact: Fact,
    include_dead: bool,
)
    requires
        where_bad_path(filter) is None,
    ensures
        cond_sql(where_cond(filter, raw, fact, include_dead)) == where_sql(
            filter,
            raw,
            include_dead,
        ),
        cond_params(where_cond(filter, raw, fact, include_dead)) == where_params(filter, raw),
        well_enclosed(where_cond(filter, raw, fact, include_dead)),
        !(where_cond(filter, raw, fact, include_dead) is Raw),
        count_sql(filter, raw, include_dead) == "SELECT COUNT(*) FROM read_model WHERE "@
            + cond_sql(where_cond(filter, raw, fact, include_dead)),
{
    let first = match filter {
        Some(f) => filter_cond(f),
        None => Cond::Always,
    };
    match filter {
        Some(f) => a_filter_reads_as_its_condition(f),
        None => {},
    }
    let base = base_cond(filter, raw, fact);
    reveal_with_fuel(cond_sql, 4);
    reveal_with_fuel(cond_params, 4);
    reveal_with_fuel(well_enclosed, 4);
    reveal_strlit("(");
    reveal_strlit(")");
    reveal_strlit(" AND ");
    reveal_strlit(") AND (");
    assert(cond_sql(base) == base_sql(filter, raw)) by {
        match raw {
            Some(r) => {
                let a = cond_sql(first);
                assert(("("@ + a + ")"@) + " AND "@ + ("("@ + r.sql@ + ")"@) =~= "("@ + a
                    + ") AND ("@ + r.sql@ + ")"@);
            },
            None => {},
        }
    }
    assert(cond_params(base) =~= where_params(filter, raw));
    assert(well_enclosed(base) && !(base is Raw));
    if !include_dead {
        reveal_strlit(") AND live = 1");
        reveal_strlit("live");
        reveal_strlit(" ");
        reveal_strlit("=");
        reveal_strlit("1");
        let b = cond_sql(base);
        let live = "live"@ + " "@ + "="@ + " "@ + "1"@;
        assert(")"@ + " AND "@ + live =~= ") AND live = 1"@);
        assert(("("@ + b + ")"@) + " AND "@ + live =~= "("@ + b + ") AND live = 1"@);
        let whole = where_cond(filter, raw, fact, include_dead);
        assert(cond_params(whole) =~= where_params(filter, raw));
    }
}

/// The condition of a query, and of the count that goes with it, lets exactly those
/// rows pass that were asked for.
pub proof fn a_condition_lets_pass_what_was_asked_for(
    engine: Engine,
    filter: Option<Filter>,
    raw: Option<RawWhere>,
    fact: Fact,
    include_dead: bool,
    row: Row,
)
    requires
        reads_null(engine),
        where_bad_path(filter) is None,
    ensures
        lets_pass(engine, where_cond(filter, raw, fact, include_dead), row) == is_asked_for(
            engine,
            filter,
            raw,
            fact,
            include_dead,
            row,
        ),
{
    let first = match filter {
        Some(f) => filter_cond(f),
        None => Cond::Always,
    };
    match filter {
        Some(f) => a_filter_lets_pass_what_meets_it(engine, f, row),
        None => {},
    }
    let base = base_cond(filter, raw, fact);
    assert(lets_pass(engine, base, row) == (lets_pass(engine, first, row) && (raw is Some
        ==> fact(row) == Some(true)))) by {
        match raw {
            Some(r) => {
                let given = Cond::Raw(r.sql@, value_params(r.params@), fact);
                what_passes(engine, first, first, row);
                what_passes(engine, given, given, row);
                what_passes(
                    engine,
                    Cond::Enclosed(Box::new(first)),
                    Cond::Enclosed(Box::new(given)),
                    row,
                );
            },
            None => {},
        }
    }
    let live = Cond::Compare(Expr::Column("live"@), Op::Eq, Expr::One);
    assert(lets_pass(engine, live, row) == row.live) by {
        reveal_strlit("live");
        reveal_strlit("stream");
        reveal_strlit("last_seq");
        reveal_strlit("updated_at");
        assert("live"@.len() == 4 && "stream"@.len() == 6);
        assert("last_seq"@.len() == 8 && "updated_at"@.len() == 10);
    }
    what_passes(engine, base, base, row);
    what_passes(engine, Cond::Enclosed(Box::new(base)), live, row);
}

/// What rows are sorted by: when they were updated, if nothing is given; otherwise a
/// column, or what the state holds at a dotted path.
pub open spec fn sort_value(
    engine: Engine,
    order_by: Option<(String, Order)>,
    row: Row,
) -> Datum {
    match order_by {
        None => Datum::Number(row.updated_at),
        Some((field, _)) => if field@ == "updated_at"@ {
            Datum::Number(row.updated_at)
        } else if field@ == "last_seq"@ {
            Datum::Number(row.last_seq)
        } else if field@ == "stream"@ {
            Datum::Text(row.stream)
        } else if field@ == "live"@ {
            Datum::Number(
                if row.live {
                    1
                } else {
                    0
                },
            )
        } else {
            engine.value(at_field(row.state, field@))
        },
    }
}

/// Whether the greatest comes first; it does, if nothing is given.
pub open spec fn goes_down(order_by: Option<(String, Order)>) -> bool {
    match order_by {
        None => true,
        Some((_, order)) => order is Desc,
    }
}

/// Whether `a` comes before `b`: by what rows are sorted by, and then by the stream,
/// in the same direction.
pub open spec fn comes_earlier(
    engine: Engine,
    order_by: Option<(String, Order)>,
    a: Row,
    b: Row,
) -> bool {
    let (x, y) = (sort_value(engine, order_by, a), sort_value(engine, order_by, b));
    if goes_down(order_by) {
        sorts_before(y, x) || (x == y && text_before(b.stream, a.stream))
    } else {
        sorts_before(x, y) || (x == y && text_before(a.stream, b.stream))
    }
}

/// How [`order_expr`] is put together.
spec fn sort_expr(order_by: Option<(String, Order)>) -> Expr {
    match order_by {
        None => Expr::Column("updated_at"@),
        Some((field, _)) => if is_column(field@) {
            Expr::Column(field@)
        } else {
            Expr::AtNamed(path_text(field@))
        },
    }
}

/// The first sort key of [`order_sql`].
pub closed spec fn first_key(order_by: Option<(String, Order)>) -> SortKey {
    SortKey { expr: sort_expr(order_by), down: order_direction(order_by) is Desc }
}

/// The second sort key of [`order_sql`].
pub closed spec fn second_key(order_by: Option<(String, Order)>) -> SortKey {
    SortKey { expr: Expr::Column("stream"@), down: order_direction(order_by) is Desc }
}

/// How what rows are sorted by is written, and what it comes to.
proof fn sort_keys_are_written(
    engine: Engine,
    order_by: Option<(String, Order)>,
    row: Row,
)
    requires
        order_bad_path(order_by) is None,
    ensures
        expr_sql(sort_expr(order_by)) == order_expr(order_by),
        expr_params(sort_expr(order_by)) == Seq::<ParamView>::empty(),
        expr_value(engine, sort_expr(order_by), row) == sort_value(engine, order_by, row),
        expr_value(engine, Expr::Column("stream"@), row) == Datum::Text(row.stream),
{
    column_names_differ();
    match order_by {
        None => {},
        Some((field, _)) => {
            if !is_column(field@) {
                a_path_goes_from_member_to_member(row.state, field@);
                reveal_strlit("json_extract(state, '");
                reveal_strlit("json_extract(state, '$.");
                reveal_strlit("$.");
                reveal_strlit("')");
                assert("json_extract(state, '$."@ =~= "json_extract(state, '"@ + "$."@);
                let path = path_text(field@);
                assert("json_extract(state, '"@ + path + "')"@ =~= "json_extract(state, '$."@
                    + field@ + "')"@);
            }
        },
    }
}

/// The columns have names of their own.
proof fn column_names_differ()
    ensures
        "stream"@ != "updated_at"@,
        "last_seq"@ != "updated_at"@,
        "stream"@ != "last_seq"@,
        "live"@ != "stream"@,
        "live"@ != "last_seq"@,
        "live"@ != "updated_at"@,
{
    reveal_strlit("live");
    assert("live"@.len() == 4);
    reveal_strlit("stream");
    reveal_strlit("last_seq");
    reveal_strlit("updated_at");
    assert("stream"@.len() == 6 && "last_seq"@.len() == 8 && "updated_at"@.len() == 10);
}

/// The sort key of a statement puts rows in the order that was asked for: by the
/// value, and then by the stream, in one direction; the rows that were updated last
/// come first, if nothing was asked for.
pub proof fn rows_come_in_the_order_asked_for(
    engine: Engine,
    order_by: Option<(String, Order)>,
    a: Row,
    b: Row,
)
    requires
        order_bad_path(order_by) is None,
    ensures
        keys_sql(first_key(order_by), second_key(order_by)) == order_sql(order_by),
        expr_params(first_key(order_by).expr) == Seq::<ParamView>::empty(),
        expr_params(second_key(order_by).expr) == Seq::<ParamView>::empty(),
        keys_put_first(engine, first_key(order_by), second_key(order_by), a, b) == comes_earlier(
            engine,
            order_by,
            a,
            b,
        ),
{
    sort_keys_are_written(engine, order_by, a);
    sort_keys_are_written(engine, order_by, b);
    reveal_strlit(", ");
    reveal_strlit("stream");
    reveal_strlit(", stream");
    assert(", stream"@ =~= ", "@ + "stream"@);
    let (first, second) = (first_key(order_by), second_key(order_by));
    let word = if first.down {
        " DESC"@
    } else {
        " ASC"@
    };
    let expr = order_expr(order_by);
    assert(expr + word + ", "@ + ("stream"@ + word) =~= expr + word + (", "@ + "stream"@) + word);
}

/// The index over a field is over what rows are sorted by, so that sorting by the
/// field can go by it.
pub proof fn an_index_is_over_the_sort_key(field: String, order: Order)
    requires
        order_bad_path(Some((field, order))) is None,
        !is_column(field@),
    ensures
        index_sql(field@) == "CREATE INDEX IF NOT EXISTS \"ix_rm_"@ + underscored(field@)
            + "\" ON read_model("@ + expr_sql(first_key(Some((field, order))).expr) + ")"@,
        underscored(field@).len() == field@.len(),
        forall|i: int|
            0 <= i < field@.len() ==> #[trigger] underscored(field@)[i] == if field@[i] == '.' {
                '_'
            } else {
                field@[i]
            },
{
    let some_row = Row {
        stream: Seq::empty(),
        state: crate::sqlite::meaning::Tree::Null,
        last_seq: 0,
        updated_at: 0,
        live: true,
    };
    sort_keys_are_written(arbitrary(), Some((field, order)), some_row);
    reveal_strlit("\" ON read_model(json_extract(state, '$.");
    reveal_strlit("\" ON read_model(");
    reveal_strlit("json_extract(state, '$.");
    reveal_strlit("')");
    reveal_strlit("'))");
    reveal_strlit(")");
    let head = "CREATE INDEX IF NOT EXISTS \"ix_rm_"@ + underscored(field@);
    assert("\" ON read_model(json_extract(state, '$."@ =~= "\" ON read_model("@
        + "json_extract(state, '$."@);
    assert("'))"@ =~= "')"@ + ")"@);
    let expr = "json_extract(state, '$."@ + field@ + "')"@;
    assert(index_sql(field@) =~= head + "\" ON read_model("@ + expr + ")"@);
}

/// How [`keyset_sql`] compares.
spec fn cursor_op(order_by: Option<(String, Order)>) -> Op {
    match order_direction(order_by) {
        Order::Asc => Op::Gt,
        Order::Desc => Op::Lt,
    }
}

/// How [`keyset_sql`] is put together.
spec fn cursor_cond(order_by: Option<(String, Order)>, after: After) -> Cond {
    let key = Expr::Enclosed(Box::new(sort_expr(order_by)));
    let op = cursor_op(order_by);
    let given = Expr::Given(json_text(after.order_value));
    Cond::Or(
        Box::new(Cond::Compare(key, op, given)),
        Box::new(
            Cond::Enclosed(
                Box::new(
                    Cond::And(
                        Box::new(Cond::Compare(key, Op::Eq, given)),
                        Box::new(
                            Cond::Compare(
                                Expr::Column("stream"@),
                                op,
                                Expr::Bound(after.stream@),
                            ),
                        ),
                    ),
                ),
            ),
        ),
    )
}

/// How [`page_sql`] is put together.
pub closed spec fn page_cond(query: Query, fact: Fact) -> Cond {
    let base = where_cond(query.filter, query.raw_where, fact, query.include_dead);
    match query.after {
        Some(after) => Cond::And(
            Box::new(Cond::Enclosed(Box::new(base))),
            Box::new(Cond::Enclosed(Box::new(cursor_cond(query.order_by, after)))),
        ),
        None => base,
    }
}

/// The literals of [`keyset_sql`], taken apart.
proof fn cursor_words()
    ensures
        " AND (("@ == " AND "@ + "("@ + "("@,
        ") "@ == ")"@ + " "@,
        " json_extract(?, '$') OR (("@ == " "@ + "json_extract(?, '$')"@ + " OR "@ + "("@ + "("@,
        ") = json_extract(?, '$') AND stream "@ == ")"@ + " "@ + "="@ + " "@
            + "json_extract(?, '$')"@ + " AND "@ + "stream"@ + " "@,
        " ?))"@ == " "@ + "?"@ + ")"@ + ")"@,
{
    reveal_strlit("(");
    reveal_strlit(")");
    reveal_strlit(" ");
    reveal_strlit("?");
    reveal_strlit("=");
    reveal_strlit(" AND ");
    reveal_strlit(" OR ");
    reveal_strlit("stream");
    reveal_strlit("json_extract(?, '$')");
    reveal_strlit(" AND ((");
    reveal_strlit(") ");
    reveal_strlit(" json_extract(?, '$') OR ((");
    reveal_strlit(") = json_extract(?, '$') AND stream ");
    reveal_strlit(" ?))");
    assert(" AND (("@ =~= " AND "@ + "("@ + "("@);
    assert(") "@ =~= ")"@ + " "@);
    assert(" json_extract(?, '$') OR (("@ =~= " "@ + "json_extract(?, '$')"@ + " OR "@ + "("@
        + "("@);
    assert(") = json_extract(?, '$') AND stream "@ =~= ")"@ + " "@ + "="@ + " "@
        + "json_extract(?, '$')"@ + " AND "@ + "stream"@ + " "@);
    assert(" ?))"@ =~= " "@ + "?"@ + ")"@ + ")"@);
}

/// Parts that are put together in two ways.
proof fn cursor_parts(
    and: Seq<char>,
    open: Seq<char>,
    shut: Seq<char>,
    gap: Seq<char>,
    or: Seq<char>,
    eq: Seq<char>,
    name: Seq<char>,
    mark: Seq<char>,
    g: Seq<char>,
    e: Seq<char>,
    o: Seq<char>,
)
    ensures
        ({
            let key = open + e + shut;
            let first = key + gap + o + gap + g;
            let second = key + gap + eq + gap + g;
            let third = name + gap + o + gap + mark;
            let inner = open + (second + and + third) + shut;
            and + (open + (first + or + inner) + shut)
        }) == (and + open + open) + e + (shut + gap) + o + (gap + g + or + open + open) + e + (shut
            + gap + eq + gap + g + and + name + gap) + o + (gap + mark + shut + shut),
{
    assert forall|a: Seq<char>, b: Seq<char>, c: Seq<char>| #[trigger] (a + (b + c)) == (a + b)
        + c by {
        crate::sqlite::filter_laws::joined(a, b, c);
    }
}

/// How the condition for a cursor is written, and what it binds.
proof fn cursors_are_written(order_by: Option<(String, Order)>, after: After)
    requires
        order_bad_path(order_by) is None,
    ensures
        " AND "@ + ("("@ + cond_sql(cursor_cond(order_by, after)) + ")"@) == keyset_sql(order_by),
        cond_params(cursor_cond(order_by, after)) == keyset_params(after),
        well_enclosed(cursor_cond(order_by, after)),
{
    let some_row = Row {
        stream: Seq::empty(),
        state: crate::sqlite::meaning::Tree::Null,
        last_seq: 0,
        updated_at: 0,
        live: true,
    };
    let engine: Engine = arbitrary();
    sort_keys_are_written(engine, order_by, some_row);
    let e = order_expr(order_by);
    let o = op_sql(cursor_op(order_by));
    let g = "json_extract(?, '$')"@;
    let key = "("@ + e + ")"@;
    let first = key + " "@ + o + " "@ + g;
    let second = key + " "@ + "="@ + " "@ + g;
    let third = "stream"@ + " "@ + o + " "@ + "?"@;
    let inner = "("@ + (second + " AND "@ + third) + ")"@;
    assert(cond_sql(cursor_cond(order_by, after)) == first + " OR "@ + inner) by {
        reveal_with_fuel(cond_sql, 5);
        reveal_with_fuel(expr_sql, 3);
    }
    cursor_words();
    cursor_parts(" AND "@, "("@, ")"@, " "@, " OR "@, "="@, "stream"@, "?"@, g, e, o);
    assert(cond_params(cursor_cond(order_by, after)) =~= keyset_params(after)) by {
        reveal_with_fuel(cond_params, 5);
        reveal_with_fuel(expr_params, 3);
    }
    assert(well_enclosed(cursor_cond(order_by, after))) by {
        reveal_with_fuel(well_enclosed, 5);
    }
}

/// The statement of a query reads as its parts: the condition, the sort key, and the
/// two numbers that limit it.
pub proof fn a_query_reads_as_its_parts(query: Query, fact: Fact)
    requires
        query_bad_path(query) is None,
    ensures
        cond_sql(page_cond(query, fact)) == page_sql(query),
        well_enclosed(page_cond(query, fact)),
        query_sql(query)
            == "SELECT stream, state, last_seq, updated_at, live FROM read_model WHERE "@
            + cond_sql(page_cond(query, fact)) + " ORDER BY "@ + keys_sql(
            first_key(query.order_by),
            second_key(query.order_by),
        ) + " LIMIT ? OFFSET ?"@,
        query_params(query) == cond_params(page_cond(query, fact)) + seq![
            ParamView::Integer(sql_count(query.limit)),
            ParamView::Integer(sql_count(query.offset)),
        ],
{
    a_condition_reads_as_its_parts(query.filter, query.raw_where, fact, query.include_dead);
    let some_row = Row {
        stream: Seq::empty(),
        state: crate::sqlite::meaning::Tree::Null,
        last_seq: 0,
        updated_at: 0,
        live: true,
    };
    rows_come_in_the_order_asked_for(arbitrary(), query.order_by, some_row, some_row);
    let base = where_cond(query.filter, query.raw_where, fact, query.include_dead);
    match query.after {
        Some(after) => {
            cursors_are_written(query.order_by, after);
            let cursor = cursor_cond(query.order_by, after);
            reveal_with_fuel(cond_sql, 3);
            reveal_with_fuel(cond_params, 3);
            reveal_with_fuel(well_enclosed, 3);
            let b = "("@ + cond_sql(base) + ")"@;
            let c = "("@ + cond_sql(cursor) + ")"@;
            crate::sqlite::filter_laws::joined(b, " AND "@, c);
            assert(cond_sql(page_cond(query, fact)) == b + " AND "@ + c);
        },
        None => {},
    }
    assert(query_params(query) =~= cond_params(page_cond(query, fact)) + seq![
        ParamView::Integer(sql_count(query.limit)),
        ParamView::Integer(sql_count(query.offset)),
    ]);
}

/// A query without a cursor lets exactly those rows pass that were asked for.
pub proof fn a_first_page_is_of_all_rows(engine: Engine, query: Query, fact: Fact, row: Row)
    requires
        reads_null(engine),
        query_bad_path(query) is None,
        query.after is None,
    ensures
        lets_pass(engine, page_cond(query, fact), row) == is_asked_for(
            engine,
            query.filter,
            query.raw_where,
            fact,
            query.include_dead,
            row,
        ),
{
    a_condition_lets_pass_what_was_asked_for(
        engine,
        query.filter,
        query.raw_where,
        fact,
        query.include_dead,
        row,
    );
}

/// A cursor goes on where the last page ended: of the rows that were asked for, it
/// lets exactly those pass that the sort key of the same statement puts after the
/// row that the cursor was taken from, whatever the order is, given or not. Rows
/// without a value to be sorted by are left out.
pub proof fn a_cursor_goes_on_in_the_same_order(
    engine: Engine,
    query: Query,
    fact: Fact,
    last: Row,
    row: Row,
)
    requires
        reads_null(engine),
        query_bad_path(query) is None,
        query.after matches Some(after) && engine.value(
            Some((engine.read)(json_text(after.order_value))),
        ) == sort_value(engine, query.order_by, last) && after.stream@ == last.stream,
        !(sort_value(engine, query.order_by, last) is Null),
        !(sort_value(engine, query.order_by, row) is Null),
    ensures
        lets_pass(engine, page_cond(query, fact), row) == (is_asked_for(
            engine,
            query.filter,
            query.raw_where,
            fact,
            query.include_dead,
            row,
        ) && keys_put_first(
            engine,
            first_key(query.order_by),
            second_key(query.order_by),
            last,
            row,
        )),
{
    let order_by = query.order_by;
    let after = query.after->0;
    let base = where_cond(query.filter, query.raw_where, fact, query.include_dead);
    a_condition_lets_pass_what_was_asked_for(
        engine,
        query.filter,
        query.raw_where,
        fact,
        query.include_dead,
        row,
    );
    sort_keys_are_written(engine, order_by, row);
    sort_keys_are_written(engine, order_by, last);
    rows_come_in_the_order_asked_for(engine, order_by, last, row);
    let cursor = cursor_cond(order_by, after);
    let key = Expr::Enclosed(Box::new(sort_expr(order_by)));
    let op = cursor_op(order_by);
    let given = Expr::Given(json_text(after.order_value));
    let beyond = Cond::Compare(key, op, given);
    let same = Cond::Compare(key, Op::Eq, given);
    let further = Cond::Compare(Expr::Column("stream"@), op, Expr::Bound(after.stream@));
    reveal_with_fuel(expr_value, 3);
    let both = Cond::And(Box::new(same), Box::new(further));
    what_passes(engine, same, further, row);
    what_passes(engine, both, both, row);
    what_passes(engine, beyond, Cond::Enclosed(Box::new(both)), row);
    what_passes(engine, base, base, row);
    what_passes(engine, cursor, cursor, row);
    what_passes(
        engine,
        Cond::Enclosed(Box::new(base)),
        Cond::Enclosed(Box::new(cursor)),
        row,
    );
    text_order_strict(last.stream, row.stream);
}

/// The rows of a page: those from `offset` on, `limit` of them at most.
pub open spec fn page_of<T>(rows: Seq<T>, limit: int, offset: int) -> Seq<T> {
    at_most(
        if offset >= rows.len() {
            Seq::empty()
        } else {
            rows.skip(offset)
        },
        limit,
    )
}

/// A number that SQLite can hold is bound as it is, and any other as the greatest
/// that it can hold.
pub proof fn counts_are_bound_as_they_are(n: usize)
    ensures
        n <= i64::MAX ==> sql_count(n) == n,
        n > i64::MAX ==> sql_count(n) == i64::MAX,
{
}

/// A page holds as many rows as were asked for, and starts where it was asked to:
/// what is bound as the limit and the offset cuts the rows as the query says, if
/// there are no more of them than a table can hold.
pub proof fn a_page_holds_what_was_asked_for<T>(rows: Seq<T>, query: Query)
    requires
        rows.len() <= i64::MAX,
    ensures
        ({
            let bound = query_params(query);
            let n = bound.len() as int;
            n >= 2 && (bound[n - 2] matches ParamView::Integer(limit) && bound[n
                - 1] matches ParamView::Integer(offset) && {
                let page = page_of(rows, limit as int, offset as int);
                &&& page == page_of(rows, query.limit as int, query.offset as int)
                &&& page.len() == (if query.offset >= rows.len() {
                    0
                } else if query.limit < rows.len() - query.offset {
                    query.limit as int
                } else {
                    rows.len() - query.offset
                })
                &&& forall|i: int|
                    0 <= i < page.len() ==> #[trigger] page[i] == rows[query.offset + i]
            })
        }),
{
    let bound = query_params(query);
    let n = bound.len() as int;
    assert(bound[n - 2] == ParamView::Integer(sql_count(query.limit)));
    assert(bound[n - 1] == ParamView::Integer(sql_count(query.offset)));
    counts_are_bound_as_they_are(query.limit);
    counts_are_bound_as_they_are(query.offset);
}

/// Whatever a number is bound for, it cuts rows as it is.
pub proof fn a_bound_limit_cuts_as_it_is<T>(rows: Seq<T>, limit: usize)
    requires
        rows.len() <= i64::MAX,
    ensures
        at_most(rows, sql_count(limit) as int) == at_most(rows, limit as int),
        at_most(rows, sql_count(limit) as int).len() == if limit < rows.len() {
            limit as int
        } else {
            rows.len() as int
        },
{
    counts_are_bound_as_they_are(limit);
}

} // verus!
