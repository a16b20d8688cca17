//! What the conditions that filters are compiled to let pass.
use vstd::prelude::*;

use crate::json::json_text;
use crate::sqlite::meaning::{
    compared, cond_params, cond_sql, cond_truth, expr_params, expr_sql, expr_value, lets_pass,
    names_in, op_sql, reached, selected, value_before, well_enclosed, Cond, Engine, Expr, Op, Row,
    Tree,
};
use crate::sqlite::path_laws::{a_path_goes_from_member_to_member, path_text};
use crate::sqlite::query::{
    bad_field, bad_path, bad_path_in, compare_params, compare_sql, eq_params, eq_sql, filter_params,
    filter_sql, in_params, in_sql, is_field_path, kind_sql, list_params, list_sql, path_param,
    Filter, ParamView,
};

verus! {

/// Whether two documents are of one kind. All numbers are, and both truth values.
pub open spec fn same_kind(a: Tree, b: Tree) -> bool {
    match (a, b) {
        (Tree::Null, Tree::Null) => true,
        (Tree::Truth(_), Tree::Truth(_)) => true,
        (Tree::Number(_, _), Tree::Number(_, _)) => true,
        (Tree::Text(_), Tree::Text(_)) => true,
        (Tree::List(_), Tree::List(_)) => true,
        (Tree::Object(_), Tree::Object(_)) => true,
        _ => false,
    }
}

/// The document at the dotted path `field`.
pub open spec fn at_field(state: Tree, field: Seq<char>) -> Option<Tree> {
    reached(state, names_in(field))
}

/// Whether the field holds something of the kind of `given`, other than null, that
/// is equal to it.
pub open spec fn holds_equal(engine: Engine, state: Tree, field: Seq<char>, given: Tree) -> bool {
    at_field(state, field) matches Some(found) && same_kind(found, given) && !(found is Null)
        && engine.value(Some(found)) == engine.value(Some(given))
}

/// Whether the field holds something of the kind of `given` that comes before it.
pub open spec fn holds_less(engine: Engine, state: Tree, field: Seq<char>, given: Tree) -> bool {
    at_field(state, field) matches Some(found) && same_kind(found, given) && value_before(
        engine.value(Some(found)),
        engine.value(Some(given)),
    )
}

/// Whether the field holds something of the kind of `given` that comes after it.
pub open spec fn holds_more(engine: Engine, state: Tree, field: Seq<char>, given: Tree) -> bool {
    at_field(state, field) matches Some(found) && same_kind(found, given) && value_before(
        engine.value(Some(given)),
        engine.value(Some(found)),
    )
}

/// Whether the field is equal to the value with the text `json`. Equal to null is a
/// field that holds null, and not one that is missing.
pub open spec fn is_equal(
    engine: Engine,
    state: Tree,
    field: Seq<char>,
    json: Seq<char>,
) -> bool {
    let given = (engine.read)(json);
    if given is Null {
        at_field(state, field) matches Some(found) && found is Null
    } else {
        holds_equal(engine, state, field, given)
    }
}

/// Whether `state` meets `filter`.
pub open spec fn meets(engine: Engine, filter: Filter, state: Tree) -> bool
    decreases filter, 0nat,
{
    match filter {
        Filter::Eq(field, value) => is_equal(engine, state, field@, json_text(value)),
        Filter::In(field, values) => exists|i: int|
            0 <= i < values@.len() && is_equal(
                engine,
                state,
                field@,
                json_text(#[trigger] values@[i]),
            ),
        Filter::Like(field, pattern) => {
            let value = engine.value(at_field(state, field@));
            !(value is Null) && (engine.alike)(value, pattern@)
        },
        Filter::Gt(field, value) => holds_more(
            engine,
            state,
            field@,
            (engine.read)(json_text(value)),
        ),
        Filter::Gte(field, value) => {
            let given = (engine.read)(json_text(value));
            holds_more(engine, state, field@, given) || holds_equal(engine, state, field@, given)
        },
        Filter::Lt(field, value) => holds_less(
            engine,
            state,
            field@,
            (engine.read)(json_text(value)),
        ),
        Filter::Lte(field, value) => {
            let given = (engine.read)(json_text(value));
            holds_less(engine, state, field@, given) || holds_equal(engine, state, field@, given)
        },
        Filter::Not(inner) => !meets(engine, *inner, state),
        Filter::And(filters) => meets_all(engine, filters@, filters@.len(), state),
        Filter::Or(filters) => meets_one(engine, filters@, filters@.len(), state),
    }
}

/// Whether `state` meets each of the first `n` of `filters`.
pub open spec fn meets_all(engine: Engine, filters: Seq<Filter>, n: nat, state: Tree) -> bool
    decreases filters, n,
{
    if n == 0 || n > filters.len() {
        true
    } else {
        meets_all(engine, filters, (n - 1) as nat, state) && meets(engine, filters[n - 1], state)
    }
}

/// Whether `state` meets one of the first `n` of `filters`.
pub open spec fn meets_one(engine: Engine, filters: Seq<Filter>, n: nat, state: Tree) -> bool
    decreases filters, n,
{
    if n == 0 || n > filters.len() {
        false
    } else {
        meets_one(engine, filters, (n - 1) as nat, state) || meets(engine, filters[n - 1], state)
    }
}

/// The engine takes the text of null, and no other, for null.
pub open spec fn reads_null(engine: Engine) -> bool {
    forall|value: serde_json::Value| (#[trigger] (engine.read)(json_text(value)) is Null) == (
    json_text(value) == "null"@)
}

/// The kind of what `expr` is the type of.
spec fn kind_expr(expr: Expr) -> Expr {
    Expr::Renamed(
        Box::new(Expr::Renamed(Box::new(expr), "integer"@, "real"@)),
        "false"@,
        "true"@,
    )
}

/// How [`compare_sql`] is put together.
spec fn compare_cond(field: Seq<char>, op: Op, json: Seq<char>) -> Cond {
    Cond::Enclosed(
        Box::new(
            Cond::And(
                Box::new(Cond::Compare(Expr::At(path_text(field)), op, Expr::Given(json))),
                Box::new(
                    Cond::Compare(
                        kind_expr(Expr::TypeAt(path_text(field))),
                        Op::Eq,
                        kind_expr(Expr::TypeOfGiven(json)),
                    ),
                ),
            ),
        ),
    )
}

/// How [`eq_sql`] is put together.
spec fn eq_cond(field: Seq<char>, json: Seq<char>) -> Cond {
    if json == "null"@ {
        Cond::Compare(Expr::TypeAt(path_text(field)), Op::Eq, Expr::Word("null"@))
    } else {
        compare_cond(field, Op::Eq, json)
    }
}

/// How [`in_sql`] is put together.
spec fn in_cond(field: Seq<char>, values: Seq<serde_json::Value>, n: nat) -> Cond
    decreases n,
{
    if n <= 1 {
        eq_cond(field, json_text(values[0]))
    } else {
        Cond::Or(
            Box::new(in_cond(field, values, (n - 1) as nat)),
            Box::new(eq_cond(field, json_text(values[n - 1]))),
        )
    }
}

/// How [`filter_sql`] is put together.
pub closed spec fn filter_cond(filter: Filter) -> Cond
    decreases filter, 0nat,
{
    match filter {
        Filter::Eq(field, value) => eq_cond(field@, json_text(value)),
        Filter::In(field, values) => if values@.len() == 0 {
            Cond::Never
        } else {
            Cond::Enclosed(Box::new(in_cond(field@, values@, values@.len())))
        },
        Filter::Like(field, pattern) => Cond::Alike(Expr::At(path_text(field@)), pattern@),
        Filter::Gt(field, value) => compare_cond(field@, Op::Gt, json_text(value)),
        Filter::Gte(field, value) => compare_cond(field@, Op::Gte, json_text(value)),
        Filter::Lt(field, value) => compare_cond(field@, Op::Lt, json_text(value)),
        Filter::Lte(field, value) => compare_cond(field@, Op::Lte, json_text(value)),
        Filter::Not(inner) => Cond::NotTrue(Box::new(filter_cond(*inner))),
        Filter::And(filters) => if filters@.len() == 0 {
            Cond::Always
        } else {
            list_cond(filters@, filters@.len(), true)
        },
        Filter::Or(filters) => if filters@.len() == 0 {
            Cond::Never
        } else {
            list_cond(filters@, filters@.len(), false)
        },
    }
}

/// How [`list_sql`] is put together.
pub closed spec fn list_cond(filters: Seq<Filter>, n: nat, all: bool) -> Cond
    decreases filters, n,
{
    if n == 0 || n > filters.len() {
        Cond::Always
    } else if n == 1 {
        Cond::Enclosed(Box::new(filter_cond(filters[0])))
    } else {
        let before = Box::new(list_cond(filters, (n - 1) as nat, all));
        let last = Box::new(Cond::Enclosed(Box::new(filter_cond(filters[n - 1]))));
        if all {
            Cond::And(before, last)
        } else {
            Cond::Or(before, last)
        }
    }
}

/// A text put together in either order is the same.
pub(crate) proof fn joined(a: Seq<char>, b: Seq<char>, c: Seq<char>)
    ensures
        a + (b + c) == (a + b) + c,
{
    assert(a + (b + c) =~= (a + b) + c);
}

/// How the kind of a type is written.
proof fn kinds_are_written(expr: Expr)
    ensures
        expr_sql(kind_expr(expr)) == kind_sql(expr_sql(expr)),
        expr_params(kind_expr(expr)) == expr_params(expr),
{
    reveal_with_fuel(expr_sql, 4);
    reveal_with_fuel(expr_params, 4);
    reveal_strlit("replace(");
    reveal_strlit("replace(replace(");
    reveal_strlit(", '");
    reveal_strlit("', '");
    reveal_strlit("')");
    reveal_strlit("integer");
    reveal_strlit("real");
    reveal_strlit("false");
    reveal_strlit("true");
    reveal_strlit(", 'integer', 'real'), 'false', 'true')");
    let x = expr_sql(expr);
    let tail = ", '"@ + "integer"@ + "', '"@ + "real"@ + "')"@ + ", '"@ + "false"@ + "', '"@
        + "true"@ + "')"@;
    assert(tail =~= ", 'integer', 'real'), 'false', 'true')"@);
    assert("replace("@ + "replace("@ =~= "replace(replace("@);
    let inner = "replace("@ + x + ", '"@ + "integer"@ + "', '"@ + "real"@ + "')"@;
    assert(inner =~= "replace("@ + x + (", '"@ + "integer"@ + "', '"@ + "real"@ + "')"@));
    let outer = "replace("@ + inner + ", '"@ + "false"@ + "', '"@ + "true"@ + "')"@;
    assert(outer =~= ("replace("@ + "replace("@) + x + tail);
}

/// How a comparison is written, and what it binds.
proof fn comparisons_are_written(field: Seq<char>, op: Op, json: Seq<char>)
    requires
        path_param(field) == ParamView::Text(path_text(field)),
    ensures
        cond_sql(compare_cond(field, op, json)) == compare_sql(op_sql(op)),
        cond_params(compare_cond(field, op, json)) == compare_params(field, json),
        well_enclosed(compare_cond(field, op, json)),
{
    reveal_with_fuel(cond_sql, 4);
    reveal_with_fuel(cond_params, 4);
    reveal_with_fuel(well_enclosed, 4);
    let path = path_text(field);
    kinds_are_written(Expr::TypeAt(path));
    kinds_are_written(Expr::TypeOfGiven(json));
    let a = "json_extract(state, ?)"@;
    let b = "json_extract(?, '$')"@;
    let k = kind_sql("json_type(state, ?)"@);
    let l = kind_sql("json_type(?, '$')"@);
    let o = op_sql(op);
    reveal_strlit("(");
    reveal_strlit(" ");
    reveal_strlit("json_extract(state, ?)");
    reveal_strlit("json_extract(?, '$')");
    reveal_strlit("(json_extract(state, ?) ");
    reveal_strlit(" json_extract(?, '$') AND ");
    reveal_strlit(" AND ");
    reveal_strlit(" = ");
    reveal_strlit("=");
    assert("(json_extract(state, ?) "@ =~= "("@ + a + " "@);
    assert(" json_extract(?, '$') AND "@ =~= " "@ + b + " AND "@);
    assert(" = "@ =~= " "@ + "="@ + " "@);
    let first = a + " "@ + o + " "@ + b;
    let second = k + " "@ + "="@ + " "@ + l;
    assert(second =~= k + " = "@ + l);
    assert("("@ + (first + " AND "@ + second) + ")"@ =~= "(json_extract(state, ?) "@ + o
        + " json_extract(?, '$') AND "@ + k + " = "@ + l + ")"@);
    assert(cond_params(compare_cond(field, op, json)) =~= compare_params(field, json));
}

/// How a test for equality is written, and what it binds.
proof fn equalities_are_written(field: Seq<char>, json: Seq<char>)
    requires
        path_param(field) == ParamView::Text(path_text(field)),
    ensures
        cond_sql(eq_cond(field, json)) == eq_sql(json),
        cond_params(eq_cond(field, json)) == eq_params(field, json),
        well_enclosed(eq_cond(field, json)),
        !(eq_cond(field, json) is Or),
        !(eq_cond(field, json) is Raw),
{
    comparisons_are_written(field, Op::Eq, json);
    if json == "null"@ {
        reveal_strlit("json_type(state, ?)");
        reveal_strlit(" ");
        reveal_strlit("=");
        reveal_strlit("'");
        reveal_strlit("null");
        reveal_strlit("json_type(state, ?) = 'null'");
        assert(cond_sql(eq_cond(field, json)) =~= eq_sql(json));
        assert(cond_params(eq_cond(field, json)) =~= eq_params(field, json));
    }
}

proof fn choices_are_written(field: Seq<char>, values: Seq<serde_json::Value>, n: nat)
    requires
        0 < n <= values.len(),
        path_param(field) == ParamView::Text(path_text(field)),
    ensures
        cond_sql(in_cond(field, values, n)) == in_sql(values, n),
        cond_params(in_cond(field, values, n)) == in_params(field, values, n),
        well_enclosed(in_cond(field, values, n)),
        !(in_cond(field, values, n) is Raw),
    decreases n,
{
    equalities_are_written(field, json_text(values[n - 1]));
    if n == 1 {
        reveal_with_fuel(in_params, 2);
        assert(in_params(field, values, 1) =~= eq_params(field, json_text(values[0])));
    } else {
        choices_are_written(field, values, (n - 1) as nat);
    }
}

/// What a filter is compiled to reads as [`filter_cond`].
pub proof fn a_filter_reads_as_its_condition(filter: Filter)
    requires
        bad_path(filter) is None,
    ensures
        cond_sql(filter_cond(filter)) == filter_sql(filter),
        cond_params(filter_cond(filter)) == filter_params(filter),
        well_enclosed(filter_cond(filter)),
        !(filter_cond(filter) is Raw),
    decreases filter, 0nat,
{
    match filter {
        Filter::Eq(field, value) => {
            a_path_goes_from_member_to_member(Tree::Null, field@);
            equalities_are_written(field@, json_text(value));
        },
        Filter::In(field, values) => {
            a_path_goes_from_member_to_member(Tree::Null, field@);
            if values@.len() > 0 {
                choices_are_written(field@, values@, values@.len());
            } else {
                assert(in_params(field@, values@, 0) =~= Seq::<ParamView>::empty());
            }
        },
        Filter::Like(field, pattern) => {
            a_path_goes_from_member_to_member(Tree::Null, field@);
            reveal_strlit("json_extract(state, ?)");
            reveal_strlit(" LIKE ?");
            reveal_strlit("json_extract(state, ?) LIKE ?");
            assert(cond_sql(filter_cond(filter)) =~= filter_sql(filter));
            assert(cond_params(filter_cond(filter)) =~= filter_params(filter));
        },
        Filter::Gt(field, value) => {
            a_path_goes_from_member_to_member(Tree::Null, field@);
            comparisons_are_written(field@, Op::Gt, json_text(value));
        },
        Filter::Gte(field, value) => {
            a_path_goes_from_member_to_member(Tree::Null, field@);
            comparisons_are_written(field@, Op::Gte, json_text(value));
        },
        Filter::Lt(field, value) => {
            a_path_goes_from_member_to_member(Tree::Null, field@);
            comparisons_are_written(field@, Op::Lt, json_text(value));
        },
        Filter::Lte(field, value) => {
            a_path_goes_from_member_to_member(Tree::Null, field@);
            comparisons_are_written(field@, Op::Lte, json_text(value));
        },
        Filter::Not(inner) => a_filter_reads_as_its_condition(*inner),
        Filter::And(filters) => {
            if filters@.len() > 0 {
                lists_are_written(filters@, filters@.len(), true);
            } else {
                assert(list_params(filters@, 0) =~= Seq::<ParamView>::empty());
            }
        },
        Filter::Or(filters) => {
            if filters@.len() > 0 {
                lists_are_written(filters@, filters@.len(), false);
            } else {
                assert(list_params(filters@, 0) =~= Seq::<ParamView>::empty());
            }
        },
    }
}

proof fn lists_are_written(filters: Seq<Filter>, n: nat, all: bool)
    requires
        0 < n <= filters.len(),
        bad_path_in(filters, n) is None,
    ensures
        cond_sql(list_cond(filters, n, all)) == list_sql(
            filters,
            n,
            if all {
                " AND "@
            } else {
                " OR "@
            },
        ),
        cond_params(list_cond(filters, n, all)) == list_params(filters, n),
        well_enclosed(list_cond(filters, n, all)),
        all ==> !(list_cond(filters, n, all) is Or),
        !(list_cond(filters, n, all) is Raw),
    decreases filters, n,
{
    assert(bad_path(filters[n - 1]) is None);
    a_filter_reads_as_its_condition(filters[n - 1]);
    if n == 1 {
        reveal_with_fuel(list_params, 2);
        assert(filters[n - 1] == filters[0]);
        assert(list_params(filters, 1) =~= filter_params(filters[0]));
    } else {
        lists_are_written(filters, (n - 1) as nat, all);
        reveal_with_fuel(cond_sql, 3);
        reveal_with_fuel(cond_params, 3);
        reveal_with_fuel(well_enclosed, 3);
    }
}

/// What the kinds of two types come to.
proof fn kinds_are_compared(engine: Engine, field: Seq<char>, json: Seq<char>, row: Row)
    ensures
        ({
            let found = selected(row.state, path_text(field));
            let given = (engine.read)(json);
            compared(
                expr_value(engine, kind_expr(Expr::TypeAt(path_text(field))), row),
                Op::Eq,
                expr_value(engine, kind_expr(Expr::TypeOfGiven(json)), row),
            ) == match found {
                None => None,
                Some(tree) => Some(same_kind(tree, given)),
            }
        }),
{
    reveal_with_fuel(expr_value, 4);
    reveal_strlit("null");
    reveal_strlit("true");
    reveal_strlit("false");
    reveal_strlit("integer");
    reveal_strlit("real");
    reveal_strlit("text");
    reveal_strlit("array");
    reveal_strlit("object");
    assert("null"@.len() == 4 && "null"@[0] == 'n');
    assert("true"@.len() == 4 && "true"@[0] == 't' && "true"@[1] == 'r');
    assert("false"@.len() == 5 && "false"@[0] == 'f');
    assert("integer"@.len() == 7);
    assert("real"@.len() == 4 && "real"@[0] == 'r');
    assert("text"@.len() == 4 && "text"@[0] == 't' && "text"@[1] == 'e');
    assert("array"@.len() == 5 && "array"@[0] == 'a');
    assert("object"@.len() == 6);
}

/// What a comparison lets pass.
proof fn comparisons_let_pass(
    engine: Engine,
    field: Seq<char>,
    op: Op,
    json: Seq<char>,
    row: Row,
)
    requires
        bad_field(field) is None,
    ensures
        lets_pass(engine, compare_cond(field, op, json), row) == ({
            let given = (engine.read)(json);
            at_field(row.state, field) matches Some(found) && same_kind(found, given) && compared(
                engine.value(Some(found)),
                op,
                engine.value(Some(given)),
            ) == Some(true)
        }),
{
    reveal_with_fuel(cond_truth, 4);
    a_path_goes_from_member_to_member(row.state, field);
    kinds_are_compared(engine, field, json, row);
}

/// What a test for equality lets pass.
proof fn equalities_let_pass(
    engine: Engine,
    field: Seq<char>,
    value: serde_json::Value,
    row: Row,
)
    requires
        reads_null(engine),
        bad_field(field) is None,
    ensures
        lets_pass(engine, eq_cond(field, json_text(value)), row) == is_equal(
            engine,
            row.state,
            field,
            json_text(value),
        ),
{
    let json = json_text(value);
    assert(((engine.read)(json) is Null) == (json == "null"@));
    comparisons_let_pass(engine, field, Op::Eq, json, row);
    if json == "null"@ {
        a_path_goes_from_member_to_member(row.state, field);
        reveal_strlit("null");
        reveal_strlit("true");
        reveal_strlit("false");
        reveal_strlit("integer");
        reveal_strlit("real");
        reveal_strlit("text");
        reveal_strlit("array");
        reveal_strlit("object");
        assert("null"@[0] == 'n' && "true"@[0] == 't' && "real"@[0] == 'r' && "text"@[0] == 't');
        assert("null"@.len() == 4 && "false"@.len() == 5 && "integer"@.len() == 7);
        assert("array"@.len() == 5 && "object"@.len() == 6);
    }
}

proof fn choices_let_pass(
    engine: Engine,
    field: Seq<char>,
    values: Seq<serde_json::Value>,
    n: nat,
    row: Row,
)
    requires
        reads_null(engine),
        bad_field(field) is None,
        0 < n <= values.len(),
    ensures
        lets_pass(engine, in_cond(field, values, n), row) == exists|i: int|
            0 <= i < n && is_equal(engine, row.state, field, json_text(#[trigger] values[i])),
    decreases n,
{
    equalities_let_pass(engine, field, values[n - 1], row);
    if n > 1 {
        choices_let_pass(engine, field, values, (n - 1) as nat, row);
        if lets_pass(engine, in_cond(field, values, n), row) {
            if lets_pass(engine, in_cond(field, values, (n - 1) as nat), row) {
                let i = choose|i: int|
                    0 <= i < n - 1 && is_equal(
                        engine,
                        row.state,
                        field,
                        json_text(#[trigger] values[i]),
                    );
                assert(is_equal(engine, row.state, field, json_text(values[i])));
            } else {
                assert(is_equal(engine, row.state, field, json_text(values[n - 1])));
            }
        }
    } else {
        assert(is_equal(engine, row.state, field, json_text(values[0])) == is_equal(
            engine,
            row.state,
            field,
            json_text(values[n - 1]),
        ));
    }
}

/// What two conditions together let pass.
pub(crate) proof fn what_passes(engine: Engine, a: Cond, b: Cond, row: Row)
    ensures
        lets_pass(engine, Cond::And(Box::new(a), Box::new(b)), row) == (lets_pass(engine, a, row)
            && lets_pass(engine, b, row)),
        lets_pass(engine, Cond::Or(Box::new(a), Box::new(b)), row) == (lets_pass(engine, a, row)
            || lets_pass(engine, b, row)),
        lets_pass(engine, Cond::Enclosed(Box::new(a)), row) == lets_pass(engine, a, row),
        lets_pass(engine, Cond::NotTrue(Box::new(a)), row) == !lets_pass(engine, a, row),
{
    truths(cond_truth(engine, a, row));
    truths(cond_truth(engine, b, row));
}

/// What is answered is answered with yes or no.
proof fn truths(truth: Option<bool>)
    ensures
        truth is None || truth == Some(true) || truth == Some(false),
{
    match truth {
        Some(yes) => {
            if yes {
                assert(truth == Some(true));
            } else {
                assert(truth == Some(false));
            }
        },
        None => {},
    }
}

/// A filter lets exactly those rows pass whose state meets it: fields are looked up
/// from member to member, values of different kinds do not compare, and what is
/// negated is met wherever the rest is not.
pub proof fn a_filter_lets_pass_what_meets_it(engine: Engine, filter: Filter, row: Row)
    requires
        reads_null(engine),
        bad_path(filter) is None,
    ensures
        lets_pass(engine, filter_cond(filter), row) == meets(engine, filter, row.state),
    decreases filter, 0nat,
{
    match filter {
        Filter::Eq(field, value) => {
            equalities_let_pass(engine, field@, value, row);
            assert(filter_cond(filter) == eq_cond(field@, json_text(value)));
            assert(meets(engine, filter, row.state) == is_equal(
                engine,
                row.state,
                field@,
                json_text(value),
            ));
        },
        Filter::In(field, values) => {
            if values@.len() > 0 {
                choices_let_pass(engine, field@, values@, values@.len(), row);
            }
        },
        Filter::Like(field, pattern) => {
            a_path_goes_from_member_to_member(row.state, field@);
        },
        Filter::Gt(field, value) => {
            comparisons_let_pass(engine, field@, Op::Gt, json_text(value), row);
        },
        Filter::Gte(field, value) => {
            comparisons_let_pass(engine, field@, Op::Gte, json_text(value), row);
        },
        Filter::Lt(field, value) => {
            comparisons_let_pass(engine, field@, Op::Lt, json_text(value), row);
        },
        Filter::Lte(field, value) => {
            comparisons_let_pass(engine, field@, Op::Lte, json_text(value), row);
        },
        Filter::Not(inner) => {
            a_filter_lets_pass_what_meets_it(engine, *inner, row);
            what_passes(engine, filter_cond(*inner), filter_cond(*inner), row);
        },
        Filter::And(filters) => {
            if filters@.len() > 0 {
                lists_let_pass(engine, filters@, filters@.len(), true, row);
                assert(filter_cond(filter) == list_cond(filters@, filters@.len(), true));
            } else {
                assert(meets_all(engine, filters@, 0, row.state));
                assert(filter_cond(filter) == Cond::Always);
            }
            assert(meets(engine, filter, row.state) == meets_all(
                engine,
                filters@,
                filters@.len(),
                row.state,
            ));
        },
        Filter::Or(filters) => {
            if filters@.len() > 0 {
                lists_let_pass(engine, filters@, filters@.len(), false, row);
                assert(filter_cond(filter) == list_cond(filters@, filters@.len(), false));
            } else {
                assert(!meets_one(engine, filters@, 0, row.state));
                assert(filter_cond(filter) == Cond::Never);
            }
            assert(meets(engine, filter, row.state) == meets_one(
                engine,
                filters@,
                filters@.len(),
                row.state,
            ));
        },
    }
}

proof fn lists_let_pass(engine: Engine, filters: Seq<Filter>, n: nat, all: bool, row: Row)
    requires
        reads_null(engine),
        0 < n <= filters.len(),
        bad_path_in(filters, n) is None,
    ensures
        lets_pass(engine, list_cond(filters, n, all), row) == if all {
            meets_all(engine, filters, n, row.state)
        } else {
            meets_one(engine, filters, n, row.state)
        },
    decreases filters, n,
{
    assert(bad_path(filters[n - 1]) is None);
    let last = filter_cond(filters[n - 1]);
    let before = list_cond(filters, (n - 1) as nat, all);
    a_filter_lets_pass_what_meets_it(engine, filters[n - 1], row);
    what_passes(engine, before, Cond::Enclosed(Box::new(last)), row);
    what_passes(engine, last, last, row);
    assert(meets_all(engine, filters, n, row.state) == (meets_all(
        engine,
        filters,
        (n - 1) as nat,
        row.state,
    ) && meets(engine, filters[n - 1], row.state)));
    assert(meets_one(engine, filters, n, row.state) == (meets_one(
        engine,
        filters,
        (n - 1) as nat,
        row.state,
    ) || meets(engine, filters[n - 1], row.state)));
    if n == 1 {
        assert(filters[n - 1] == filters[0]);
        assert(meets_all(engine, filters, 0, row.state));
        assert(!meets_one(engine, filters, 0, row.state));
        assert(list_cond(filters, n, all) == Cond::Enclosed(Box::new(last)));
    } else {
        lists_let_pass(engine, filters, (n - 1) as nat, all, row);
    }
}

/// The fields that a filter speaks of, from the left.
pub open spec fn fields_of(filter: Filter) -> Seq<Seq<char>>
    decreases filter, 0nat,
{
    match filter {
        Filter::Eq(field, _) => seq![field@],
        Filter::In(field, _) => seq![field@],
        Filter::Like(field, _) => seq![field@],
        Filter::Gt(field, _) => seq![field@],
        Filter::Gte(field, _) => seq![field@],
        Filter::Lt(field, _) => seq![field@],
        Filter::Lte(field, _) => seq![field@],
        Filter::Not(inner) => fields_of(*inner),
        Filter::And(filters) => fields_of_all(filters@, filters@.len()),
        Filter::Or(filters) => fields_of_all(filters@, filters@.len()),
    }
}

/// The fields that the first `n` of `filters` speak of.
pub open spec fn fields_of_all(filters: Seq<Filter>, n: nat) -> Seq<Seq<char>>
    decreases filters, n,
{
    if n == 0 || n > filters.len() {
        Seq::empty()
    } else {
        fields_of_all(filters, (n - 1) as nat) + fields_of(filters[n - 1])
    }
}

/// `bad` is the first of `fields` that is no field path, if there is one.
pub open spec fn is_first_bad(fields: Seq<Seq<char>>, bad: Option<Seq<char>>) -> bool {
    match bad {
        None => forall|i: int| 0 <= i < fields.len() ==> is_field_path(#[trigger] fields[i]),
        Some(field) => exists|i: int|
            0 <= i < fields.len() && #[trigger] fields[i] == field && !is_field_path(field)
                && forall|j: int| 0 <= j < i ==> is_field_path(#[trigger] fields[j]),
    }
}

/// A filter is refused for the first of its fields that is no field path, wherever in
/// the filter it stands, and for nothing else.
pub proof fn a_filter_is_refused_for_a_bad_field_alone(filter: Filter)
    ensures
        is_first_bad(fields_of(filter), bad_path(filter)),
    decreases filter, 0nat,
{
    match filter {
        Filter::Not(inner) => a_filter_is_refused_for_a_bad_field_alone(*inner),
        Filter::And(filters) => lists_are_refused(filters@, filters@.len()),
        Filter::Or(filters) => lists_are_refused(filters@, filters@.len()),
        _ => {
            let fields = fields_of(filter);
            assert(fields.len() == 1);
            assert(bad_path(filter) == bad_field(fields[0]));
            if !is_field_path(fields[0]) {
                assert(fields[0] == fields[0]);
            }
        },
    }
}

proof fn lists_are_refused(filters: Seq<Filter>, n: nat)
    requires
        n <= filters.len(),
    ensures
        is_first_bad(fields_of_all(filters, n), bad_path_in(filters, n)),
    decreases filters, n,
{
    if n > 0 {
        lists_are_refused(filters, (n - 1) as nat);
        a_filter_is_refused_for_a_bad_field_alone(filters[n - 1]);
        let before = fields_of_all(filters, (n - 1) as nat);
        let last = fields_of(filters[n - 1]);
        let all = before + last;
        match bad_path_in(filters, (n - 1) as nat) {
            Some(field) => {
                let i = choose|i: int|
                    0 <= i < before.len() && #[trigger] before[i] == field && !is_field_path(field)
                        && forall|j: int| 0 <= j < i ==> is_field_path(#[trigger] before[j]);
                assert(all[i] == field);
                assert forall|j: int| 0 <= j < i implies is_field_path(#[trigger] all[j]) by {
                    assert(all[j] == before[j]);
                }
            },
            None => match bad_path(filters[n - 1]) {
                Some(field) => {
                    let i = choose|i: int|
                        0 <= i < last.len() && #[trigger] last[i] == field && !is_field_path(field)
                            && forall|j: int| 0 <= j < i ==> is_field_path(#[trigger] last[j]);
                    assert(all[before.len() + i] == field);
                    assert forall|j: int| 0 <= j < before.len() + i implies is_field_path(
                        #[trigger] all[j],
                    ) by {
                        if j < before.len() {
                            assert(all[j] == before[j]);
                        } else {
                            assert(all[j] == last[j - before.len()]);
                        }
                    }
                },
                None => {
                    assert forall|j: int| 0 <= j < all.len() implies is_field_path(
                        #[trigger] all[j],
                    ) by {
                        if j < before.len() {
                            assert(all[j] == before[j]);
                        } else {
                            assert(all[j] == last[j - before.len()]);
                        }
                    }
                },
            },
        }
    }
}

} // verus!
