//! What holds of the statements that queries are compiled to.
use vstd::prelude::*;

use crate::json::json_text;
use crate::sqlite::query::{
    base_sql, compare_sql, count_sql, direction_sql, eq_params, eq_sql, filter_params, filter_sql, in_params, in_sql,
    is_path_char, keyset_sql, kind_sql, list_params, list_sql, order_bad_path, order_direction, order_expr,
    order_sql, page_sql, query_bad_path, query_params, query_sql, where_params, where_sql, Filter,
    Order, Query, RawWhere,
};
use crate::text::{text_before, text_order_strict};

verus! {

/// How many placeholders a text holds.
pub open spec fn placeholders(sql: Seq<char>) -> nat
    decreases sql.len(),
{
    if sql.len() == 0 {
        0
    } else {
        placeholders(sql.drop_last()) + if sql.last() == '?' {
            1nat
        } else {
            0nat
        }
    }
}

/// The placeholders of two texts are those of the two together.
proof fn placeholders_add(a: Seq<char>, b: Seq<char>)
    ensures
        placeholders(a + b) == placeholders(a) + placeholders(b),
    decreases b.len(),
{
    if b.len() == 0 {
        assert(a + b =~= a);
    } else {
        assert((a + b).drop_last() =~= a + b.drop_last());
        placeholders_add(a, b.drop_last());
    }
}

/// A text without question marks holds no placeholder.
proof fn no_placeholders(s: Seq<char>)
    requires
        forall|i: int| 0 <= i < s.len() ==> #[trigger] s[i] != '?',
    ensures
        placeholders(s) == 0,
    decreases s.len(),
{
    if s.len() > 0 {
        no_placeholders(s.drop_last());
    }
}

/// A single placeholder.
proof fn one_placeholder()
    ensures
        placeholders("?"@) == 1,
{
    reveal_strlit("?");
    assert("?"@.drop_last() =~= Seq::<char>::empty());
    assert(placeholders(Seq::<char>::empty()) == 0);
    assert("?"@.last() == '?');
}

/// Conditions with the same form: the same connectives over the same kinds of
/// comparison. Fields and values may differ, but a comparison with null stays
/// one.
pub open spec fn same_form(f: Filter, g: Filter) -> bool
    decreases f, 0nat,
{
    match (f, g) {
        (Filter::Eq(_, v), Filter::Eq(_, w)) => (json_text(v) == "null"@) == (json_text(w)
            == "null"@),
        (Filter::In(_, vs), Filter::In(_, ws)) => {
            &&& vs@.len() == ws@.len()
            &&& forall|i: int|
                0 <= i < vs@.len() ==> (json_text(#[trigger] vs@[i]) == "null"@) == (json_text(
                    ws@[i],
                ) == "null"@)
        },
        (Filter::Like(_, _), Filter::Like(_, _)) => true,
        (Filter::Gt(_, _), Filter::Gt(_, _)) => true,
        (Filter::Gte(_, _), Filter::Gte(_, _)) => true,
        (Filter::Lt(_, _), Filter::Lt(_, _)) => true,
        (Filter::Lte(_, _), Filter::Lte(_, _)) => true,
        (Filter::Not(a), Filter::Not(b)) => same_form(*a, *b),
        (Filter::And(fs), Filter::And(gs)) => fs@.len() == gs@.len() && same_forms(
            fs@,
            gs@,
            fs@.len(),
        ),
        (Filter::Or(fs), Filter::Or(gs)) => fs@.len() == gs@.len() && same_forms(
            fs@,
            gs@,
            fs@.len(),
        ),
        _ => false,
    }
}

/// The first `n` conditions of two lists have the same form, pair by pair.
pub open spec fn same_forms(fs: Seq<Filter>, gs: Seq<Filter>, n: nat) -> bool
    decreases fs, n,
{
    if n == 0 || n > fs.len() || n > gs.len() {
        true
    } else {
        same_forms(fs, gs, (n - 1) as nat) && same_form(fs[n - 1], gs[n - 1])
    }
}

/// Neither a value nor a field path gets into the text of a condition: it is the
/// same for all conditions of one form.
pub proof fn conditions_hold_no_values(f: Filter, g: Filter)
    requires
        same_form(f, g),
    ensures
        filter_sql(f) == filter_sql(g),
    decreases f, 0nat,
{
    match (f, g) {
        (Filter::In(_, vs), Filter::In(_, ws)) => {
            choices_hold_no_values(vs@, ws@, vs@.len());
        },
        (Filter::Not(a), Filter::Not(b)) => {
            conditions_hold_no_values(*a, *b);
        },
        (Filter::And(fs), Filter::And(gs)) => {
            lists_hold_no_values(fs@, gs@, fs@.len(), " AND "@);
        },
        (Filter::Or(fs), Filter::Or(gs)) => {
            lists_hold_no_values(fs@, gs@, fs@.len(), " OR "@);
        },
        _ => {},
    }
}

proof fn choices_hold_no_values(
    vs: Seq<serde_json::Value>,
    ws: Seq<serde_json::Value>,
    n: nat,
)
    requires
        n <= vs.len(),
        vs.len() == ws.len(),
        forall|i: int|
            0 <= i < vs.len() ==> (json_text(#[trigger] vs[i]) == "null"@) == (json_text(ws[i])
                == "null"@),
    ensures
        in_sql(vs, n) == in_sql(ws, n),
    decreases n,
{
    if n > 0 {
        choices_hold_no_values(vs, ws, (n - 1) as nat);
        assert((json_text(vs[n - 1]) == "null"@) == (json_text(ws[n - 1]) == "null"@));
        assert((json_text(vs[0]) == "null"@) == (json_text(ws[0]) == "null"@));
    }
}

proof fn lists_hold_no_values(fs: Seq<Filter>, gs: Seq<Filter>, n: nat, word: Seq<char>)
    requires
        n <= fs.len(),
        fs.len() == gs.len(),
        same_forms(fs, gs, n),
    ensures
        list_sql(fs, n, word) == list_sql(gs, n, word),
    decreases fs, n,
{
    if n > 0 {
        lists_hold_no_values(fs, gs, (n - 1) as nat, word);
        conditions_hold_no_values(fs[n - 1], gs[n - 1]);
        if n == 1 {
            assert(fs[n - 1] == fs[0] && gs[n - 1] == gs[0]);
        }
    }
}

/// The placeholders of a comparison.
proof fn a_comparison_is_bound(op: Seq<char>)
    requires
        placeholders(op) == 0,
    ensures
        placeholders(compare_sql(op)) == 4,
{
    guards_are_bound();
    let a = "(json_extract(state, ?) "@;
    let b = " json_extract(?, '$') AND "@;
    let c = kind_sql("json_type(state, ?)"@);
    let d = " = "@;
    let e = kind_sql("json_type(?, '$')"@);
    let f = ")"@;
    assert(placeholders(d) == 0 && placeholders(f) == 0) by {
        reveal_strlit(" = ");
        reveal_strlit(")");
        no_placeholders(d);
        no_placeholders(f);
    }
    placeholders_add(a, op);
    placeholders_add(a + op, b);
    placeholders_add(a + op + b, c);
    placeholders_add(a + op + b + c, d);
    placeholders_add(a + op + b + c + d, e);
    placeholders_add(a + op + b + c + d + e, f);
}

/// The placeholders of a test for equality.
proof fn an_equality_is_bound(field: Seq<char>, value: Seq<char>)
    ensures
        placeholders(eq_sql(value)) == eq_params(field, value).len(),
{
    reveal_strlit("=");
    no_placeholders("="@);
    a_comparison_is_bound("="@);
    assert(placeholders("json_type(state, ?) = 'null'"@) == 1) by {
        reveal_strlit("json_type(state, ?) = 'null'");
        reveal_strlit("json_type(state, ");
        reveal_strlit("?");
        reveal_strlit(") = 'null'");
        around_one("json_type(state, "@, ") = 'null'"@);
        assert("json_type(state, ?) = 'null'"@ =~= "json_type(state, "@ + "?"@ + ") = 'null'"@);
    }
}

/// The placeholders of a match with a pattern.
proof fn a_match_is_bound()
    ensures
        placeholders("json_extract(state, ?) LIKE ?"@) == 2,
{
    reveal_strlit("json_extract(state, ?) LIKE ?");
    reveal_strlit("json_extract(state, ");
    reveal_strlit("?");
    reveal_strlit(") LIKE ");
    let a = "json_extract(state, "@;
    let b = ") LIKE "@;
    one_placeholder();
    around_one(a, b);
    placeholders_add(a + "?"@ + b, "?"@);
    assert("json_extract(state, ?) LIKE ?"@ =~= a + "?"@ + b + "?"@);
}

/// A text around one placeholder.
proof fn around_one(a: Seq<char>, b: Seq<char>)
    requires
        forall|i: int| 0 <= i < a.len() ==> #[trigger] a[i] != '?',
        forall|i: int| 0 <= i < b.len() ==> #[trigger] b[i] != '?',
    ensures
        placeholders(a + "?"@ + b) == 1,
{
    one_placeholder();
    no_placeholders(a);
    no_placeholders(b);
    placeholders_add(a, "?"@);
    placeholders_add(a + "?"@, b);
}

/// A type has the placeholders of what it is the type of.
proof fn kinds_are_bound(json_type: Seq<char>)
    ensures
        placeholders(kind_sql(json_type)) == placeholders(json_type),
{
    reveal_strlit("replace(replace(");
    reveal_strlit(", 'integer', 'real'), 'false', 'true')");
    let a = "replace(replace("@;
    let b = ", 'integer', 'real'), 'false', 'true')"@;
    no_placeholders(a);
    no_placeholders(b);
    placeholders_add(a, json_type);
    placeholders_add(a + json_type, b);
}

/// The placeholders of the parts of a comparison.
proof fn guards_are_bound()
    ensures
        placeholders("(json_extract(state, ?) "@) == 1,
        placeholders(" json_extract(?, '$') AND "@) == 1,
        placeholders(kind_sql("json_type(state, ?)"@)) == 1,
        placeholders(kind_sql("json_type(?, '$')"@)) == 1,
{
    reveal_strlit("?");
    assert(placeholders("(json_extract(state, ?) "@) == 1) by {
        reveal_strlit("(json_extract(state, ?) ");
        reveal_strlit("(json_extract(state, ");
        reveal_strlit(") ");
        around_one("(json_extract(state, "@, ") "@);
        assert("(json_extract(state, ?) "@ =~= "(json_extract(state, "@ + "?"@ + ") "@);
    }
    assert(placeholders(" json_extract(?, '$') AND "@) == 1) by {
        reveal_strlit(" json_extract(?, '$') AND ");
        reveal_strlit(" json_extract(");
        reveal_strlit(", '$') AND ");
        around_one(" json_extract("@, ", '$') AND "@);
        assert(" json_extract(?, '$') AND "@ =~= " json_extract("@ + "?"@ + ", '$') AND "@);
    }
    assert(placeholders("json_type(state, ?)"@) == 1) by {
        reveal_strlit("json_type(state, ?)");
        reveal_strlit("json_type(state, ");
        reveal_strlit(")");
        around_one("json_type(state, "@, ")"@);
        assert("json_type(state, ?)"@ =~= "json_type(state, "@ + "?"@ + ")"@);
    }
    assert(placeholders("json_type(?, '$')"@) == 1) by {
        reveal_strlit("json_type(?, '$')");
        reveal_strlit("json_type(");
        reveal_strlit(", '$')");
        around_one("json_type("@, ", '$')"@);
        assert("json_type(?, '$')"@ =~= "json_type("@ + "?"@ + ", '$')"@);
    }
    kinds_are_bound("json_type(state, ?)"@);
    kinds_are_bound("json_type(?, '$')"@);
}

/// The words between the parts of a condition hold no placeholders.
proof fn words_hold_no_placeholders()
    ensures
        placeholders("("@) == 0,
        placeholders(")"@) == 0,
        placeholders("0"@) == 0,
        placeholders("1"@) == 0,
        placeholders("NOT coalesce(("@) == 0,
        placeholders("), 0)"@) == 0,
        placeholders(" OR "@) == 0,
        placeholders(" AND "@) == 0,
        placeholders(">"@) == 0,
        placeholders(">="@) == 0,
        placeholders("<"@) == 0,
        placeholders("<="@) == 0,
        placeholders(") AND ("@) == 0,
        placeholders(") AND live = 1"@) == 0,
{
    reveal_strlit("(");
    reveal_strlit(")");
    reveal_strlit("0");
    reveal_strlit("1");
    reveal_strlit("NOT coalesce((");
    reveal_strlit("), 0)");
    reveal_strlit(" OR ");
    reveal_strlit(" AND ");
    reveal_strlit(">");
    reveal_strlit(">=");
    reveal_strlit("<");
    reveal_strlit("<=");
    reveal_strlit(") AND (");
    reveal_strlit(") AND live = 1");
    no_placeholders("("@);
    no_placeholders(")"@);
    no_placeholders("0"@);
    no_placeholders("1"@);
    no_placeholders("NOT coalesce(("@);
    no_placeholders("), 0)"@);
    no_placeholders(" OR "@);
    no_placeholders(" AND "@);
    no_placeholders(">"@);
    no_placeholders(">="@);
    no_placeholders("<"@);
    no_placeholders("<="@);
    no_placeholders(") AND ("@);
    no_placeholders(") AND live = 1"@);
}

proof fn choices_are_bound(field: Seq<char>, values: Seq<serde_json::Value>, n: nat)
    requires
        n <= values.len(),
    ensures
        placeholders(in_sql(values, n)) == in_params(field, values, n).len(),
    decreases n,
{
    words_hold_no_placeholders();
    if n > 0 {
        choices_are_bound(field, values, (n - 1) as nat);
        let last = json_text(values[n - 1]);
        an_equality_is_bound(field, last);
        placeholders_add(in_sql(values, (n - 1) as nat), " OR "@);
        placeholders_add(in_sql(values, (n - 1) as nat) + " OR "@, eq_sql(last));
    }
}

/// Every placeholder of a condition is bound, and nothing is bound without one.
pub proof fn every_placeholder_is_bound(filter: Filter)
    ensures
        placeholders(filter_sql(filter)) == filter_params(filter).len(),
    decreases filter, 0nat,
{
    words_hold_no_placeholders();
    match filter {
        Filter::Eq(field, value) => an_equality_is_bound(field@, json_text(value)),
        Filter::In(field, values) => {
            if values@.len() > 0 {
                choices_are_bound(field@, values@, values@.len());
                let body = in_sql(values@, values@.len());
                placeholders_add("("@, body);
                placeholders_add("("@ + body, ")"@);
            }
        },
        Filter::Like(_, _) => a_match_is_bound(),
        Filter::Gt(_, _) => a_comparison_is_bound(">"@),
        Filter::Gte(_, _) => a_comparison_is_bound(">="@),
        Filter::Lt(_, _) => a_comparison_is_bound("<"@),
        Filter::Lte(_, _) => a_comparison_is_bound("<="@),
        Filter::Not(inner) => {
            every_placeholder_is_bound(*inner);
            let body = filter_sql(*inner);
            placeholders_add("NOT coalesce(("@, body);
            placeholders_add("NOT coalesce(("@ + body, "), 0)"@);
        },
        Filter::And(filters) => {
            lists_are_bound(filters@, filters@.len(), " AND "@);
        },
        Filter::Or(filters) => {
            lists_are_bound(filters@, filters@.len(), " OR "@);
        },
    }
}

proof fn lists_are_bound(filters: Seq<Filter>, n: nat, word: Seq<char>)
    requires
        n <= filters.len(),
        placeholders(word) == 0,
    ensures
        placeholders(list_sql(filters, n, word)) == list_params(filters, n).len(),
    decreases filters, n,
{
    words_hold_no_placeholders();
    if n > 0 {
        lists_are_bound(filters, (n - 1) as nat, word);
        every_placeholder_is_bound(filters[n - 1]);
        let body = filter_sql(filters[n - 1]);
        placeholders_add("("@, body);
        placeholders_add("("@ + body, ")"@);
        let before = list_sql(filters, (n - 1) as nat, word);
        placeholders_add(before, word);
        placeholders_add(before + word, "("@ + body + ")"@);
    }
}

/// The same of the condition of a whole query, as far as the fragment of the
/// caller keeps to it.
pub proof fn every_placeholder_of_a_condition_is_bound(
    filter: Option<Filter>,
    raw: Option<RawWhere>,
    include_dead: bool,
)
    requires
        raw matches Some(r) ==> placeholders(r.sql@) == r.params@.len(),
    ensures
        placeholders(where_sql(filter, raw, include_dead)) == where_params(filter, raw).len(),
{
    words_hold_no_placeholders();
    let first = match filter {
        Some(f) => filter_sql(f),
        None => "1"@,
    };
    match filter {
        Some(f) => every_placeholder_is_bound(f),
        None => {},
    }
    match raw {
        Some(r) => {
            placeholders_add("("@, first);
            placeholders_add("("@ + first, ") AND ("@);
            placeholders_add("("@ + first + ") AND ("@, r.sql@);
            placeholders_add("("@ + first + ") AND ("@ + r.sql@, ")"@);
        },
        None => {},
    }
    let base = base_sql(filter, raw);
    placeholders_add("("@, base);
    placeholders_add("("@ + base, ") AND live = 1"@);
}

/// The sort key holds no placeholder: what it takes from the caller is a field
/// path.
proof fn sort_keys_hold_no_placeholders(order_by: Option<(String, Order)>)
    requires
        order_bad_path(order_by) is None,
    ensures
        placeholders(order_expr(order_by)) == 0,
        placeholders(order_sql(order_by)) == 0,
{
    reveal_strlit("updated_at");
    reveal_strlit("json_extract(state, '$.");
    reveal_strlit("')");
    reveal_strlit(" ASC");
    reveal_strlit(" DESC");
    no_placeholders("updated_at"@);
    no_placeholders("json_extract(state, '$."@);
    no_placeholders("')"@);
    no_placeholders(" ASC"@);
    no_placeholders(" DESC"@);
    reveal_strlit(", stream");
    no_placeholders(", stream"@);
    match order_by {
        None => {},
        Some((field, _)) => {
            assert forall|i: int| 0 <= i < field@.len() implies #[trigger] field@[i] != '?' by {
                assert(is_path_char(field@[i]));
            }
            no_placeholders(field@);
            placeholders_add("json_extract(state, '$."@, field@);
            placeholders_add("json_extract(state, '$."@ + field@, "')"@);
        },
    }
    let expr = order_expr(order_by);
    let word = direction_sql(order_direction(order_by));
    placeholders_add(expr, word);
    placeholders_add(expr + word, ", stream"@);
    placeholders_add(expr + word + ", stream"@, word);
}

/// The condition for rows after a page binds three values.
proof fn keyset_is_bound(order_by: Option<(String, Order)>)
    requires
        order_bad_path(order_by) is None,
    ensures
        placeholders(keyset_sql(order_by)) == 3,
{
    words_hold_no_placeholders();
    sort_keys_hold_no_placeholders(order_by);
    one_placeholder();
    let expr = order_expr(order_by);
    let sign = match order_by {
        None => "<"@,
        Some((_, Order::Asc)) => ">"@,
        Some((_, Order::Desc)) => "<"@,
    };
    let a = " AND (("@;
    let b = ") "@;
    let c = " json_extract(?, '$') OR (("@;
    let d = ") = json_extract(?, '$') AND stream "@;
    let e = " ?))"@;
    assert(placeholders(a) == 0 && placeholders(b) == 0) by {
        reveal_strlit(" AND ((");
        reveal_strlit(") ");
        no_placeholders(a);
        no_placeholders(b);
    }
    assert(placeholders(c) == 1) by {
        reveal_strlit(" json_extract(?, '$') OR ((");
        reveal_strlit(" json_extract(");
        reveal_strlit("?");
        reveal_strlit(", '$') OR ((");
        let x = " json_extract("@;
        let y = ", '$') OR (("@;
        no_placeholders(x);
        no_placeholders(y);
        placeholders_add(x, "?"@);
        placeholders_add(x + "?"@, y);
        assert(c =~= x + "?"@ + y);
    }
    assert(placeholders(d) == 1) by {
        reveal_strlit(") = json_extract(?, '$') AND stream ");
        reveal_strlit(") = json_extract(");
        reveal_strlit("?");
        reveal_strlit(", '$') AND stream ");
        let x = ") = json_extract("@;
        let y = ", '$') AND stream "@;
        no_placeholders(x);
        no_placeholders(y);
        placeholders_add(x, "?"@);
        placeholders_add(x + "?"@, y);
        assert(d =~= x + "?"@ + y);
    }
    assert(placeholders(e) == 1) by {
        reveal_strlit(" ?))");
        reveal_strlit(" ");
        reveal_strlit("?");
        reveal_strlit("))");
        no_placeholders(" "@);
        no_placeholders("))"@);
        placeholders_add(" "@, "?"@);
        placeholders_add(" "@ + "?"@, "))"@);
        assert(e =~= " "@ + "?"@ + "))"@);
    }
    placeholders_add(a, expr);
    placeholders_add(a + expr, b);
    placeholders_add(a + expr + b, sign);
    placeholders_add(a + expr + b + sign, c);
    placeholders_add(a + expr + b + sign + c, expr);
    placeholders_add(a + expr + b + sign + c + expr, d);
    placeholders_add(a + expr + b + sign + c + expr + d, sign);
    placeholders_add(a + expr + b + sign + c + expr + d + sign, e);
}

/// Every placeholder of the statement of a query is bound, and nothing is bound
/// without one, as far as the fragment of the caller keeps to it.
pub proof fn every_placeholder_of_a_query_is_bound(query: Query)
    requires
        query_bad_path(query) is None,
        query.raw_where matches Some(r) ==> placeholders(r.sql@) == r.params@.len(),
    ensures
        placeholders(query_sql(query)) == query_params(query).len(),
{
    every_placeholder_of_a_condition_is_bound(query.filter, query.raw_where, query.include_dead);
    sort_keys_hold_no_placeholders(query.order_by);
    keyset_is_bound(query.order_by);
    one_placeholder();
    let a = "SELECT stream, state, last_seq, updated_at, live FROM read_model WHERE "@;
    let b = page_sql(query);
    let d = " ORDER BY "@;
    let e = order_sql(query.order_by);
    let f = " LIMIT ? OFFSET ?"@;
    assert(placeholders(a) == 0) by {
        reveal_strlit("SELECT stream, state, last_seq, updated_at, live FROM read_model WHERE ");
        no_placeholders(a);
    }
    assert(placeholders(d) == 0) by {
        reveal_strlit(" ORDER BY ");
        no_placeholders(d);
    }
    assert(placeholders(f) == 2) by {
        reveal_strlit(" LIMIT ? OFFSET ?");
        reveal_strlit(" LIMIT ");
        reveal_strlit("?");
        reveal_strlit(" OFFSET ");
        let x = " LIMIT "@;
        let y = " OFFSET "@;
        no_placeholders(x);
        no_placeholders(y);
        placeholders_add(x, "?"@);
        placeholders_add(x + "?"@, y);
        placeholders_add(x + "?"@ + y, "?"@);
        assert(f =~= x + "?"@ + y + "?"@);
    }
    let base = where_sql(query.filter, query.raw_where, query.include_dead);
    words_hold_no_placeholders();
    placeholders_add("("@, base);
    placeholders_add("("@ + base, ")"@);
    placeholders_add("("@ + base + ")"@, keyset_sql(query.order_by));
    placeholders_add(a, b);
    placeholders_add(a + b, d);
    placeholders_add(a + b + d, e);
    placeholders_add(a + b + d + e, f);
}

/// The count is that of the rows of the query without its cursor and its limits:
/// both statements ask for the same condition and bind the same to it.
pub proof fn count_and_query_share_their_condition(query: Query)
    requires
        query.after is None,
    ensures
        count_sql(query.filter, query.raw_where, query.include_dead)
            == "SELECT COUNT(*) FROM read_model WHERE "@ + page_sql(query),
        query_sql(query)
            == "SELECT stream, state, last_seq, updated_at, live FROM read_model WHERE "@ + page_sql(
            query,
        ) + " ORDER BY "@ + order_sql(query.order_by) + " LIMIT ? OFFSET ?"@,
        query_params(query).take(where_params(query.filter, query.raw_where).len() as int)
            == where_params(query.filter, query.raw_where),
        query_params(query).len() == where_params(query.filter, query.raw_where).len() + 2,
{
    let bound = where_params(query.filter, query.raw_where);
    assert(query_params(query).take(bound.len() as int) =~= bound);
}

/// Where a row stands among the others: by where the value that it is ordered by
/// ranks, and then by its stream.
pub struct Place {
    /// The rank of the value.
    pub rank: int,
    /// The stream.
    pub stream: Seq<char>,
}

/// Whether `a` comes before `b` in the order that [`order_sql`] asks for.
pub open spec fn comes_first(direction: Order, a: Place, b: Place) -> bool {
    match direction {
        Order::Asc => a.rank < b.rank || (a.rank == b.rank && text_before(a.stream, b.stream)),
        Order::Desc => a.rank > b.rank || (a.rank == b.rank && text_before(b.stream, a.stream)),
    }
}

/// Whether the condition of [`keyset_sql`] with `after` lets `row` pass.
pub open spec fn passes_keyset(direction: Order, row: Place, after: Place) -> bool {
    match direction {
        Order::Asc => row.rank > after.rank || (row.rank == after.rank && text_before(
            after.stream,
            row.stream,
        )),
        Order::Desc => row.rank < after.rank || (row.rank == after.rank && text_before(
            row.stream,
            after.stream,
        )),
    }
}

/// Pages joined by the cursor give each row once: of rows in order, those that pass
/// the condition with the row before position `n` are exactly those from there on.
pub proof fn a_cursor_splits_the_rows(direction: Order, rows: Seq<Place>, n: int, i: int)
    requires
        forall|a: int, b: int|
            0 <= a < b < rows.len() ==> comes_first(
                direction,
                #[trigger] rows[a],
                #[trigger] rows[b],
            ),
        0 < n <= rows.len(),
        0 <= i < rows.len(),
    ensures
        passes_keyset(direction, rows[i], rows[n - 1]) == (i >= n),
{
    text_order_strict(rows[i].stream, rows[n - 1].stream);
    text_order_strict(rows[n - 1].stream, rows[i].stream);
    if i >= n {
        assert(comes_first(direction, rows[n - 1], rows[i]));
    } else if i < n - 1 {
        assert(comes_first(direction, rows[i], rows[n - 1]));
    }
}

} // verus!
