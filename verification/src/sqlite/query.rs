//! Queries over the read model, and their compilation to SQL.
//!
//! Values and field paths of a filter are bound as parameters; the text of the
//! statement holds placeholders only.
use vstd::prelude::*;

use crate::error::{ErrorView, StoreError};
use crate::id::StreamId;
use crate::json::{json_text, render};
use crate::text::{chars_of, quote, quoted, same_text};

verus! {

/// A value that is bound to a placeholder.
#[derive(Debug, PartialEq, Eq)]
pub enum SqlParam {
    /// A text.
    Text(String),
    /// An integer.
    Integer(i64),
}

/// What a [`SqlParam`] says.
pub enum ParamView {
    /// A text.
    Text(Seq<char>),
    /// An integer.
    Integer(i64),
}

impl View for SqlParam {
    type V = ParamView;

    open spec fn view(&self) -> ParamView {
        match self {
            SqlParam::Text(s) => ParamView::Text(s@),
            SqlParam::Integer(n) => ParamView::Integer(*n),
        }
    }
}

impl Clone for SqlParam {
    fn clone(&self) -> (r: Self)
        ensures
            r@ == self@,
    {
        match self {
            SqlParam::Text(s) => SqlParam::Text(s.clone()),
            SqlParam::Integer(n) => SqlParam::Integer(*n),
        }
    }
}

/// What the parameters in `params` say.
pub open spec fn param_views(params: Seq<SqlParam>) -> Seq<ParamView> {
    params.map_values(|p: SqlParam| p@)
}

/// Sort direction.
#[derive(Debug, Clone, Copy, PartialEq, Eq, Structural)]
pub enum Order {
    /// Ascending.
    Asc,
    /// Descending.
    Desc,
}

/// A condition on the state of a row. Fields are dotted paths into the state.
#[derive(Debug, PartialEq)]
pub enum Filter {
    /// The field is equal to the value.
    Eq(String, serde_json::Value),
    /// The field is equal to one of the values.
    In(String, Vec<serde_json::Value>),
    /// The field matches the pattern, as SQL `LIKE` matches.
    Like(String, String),
    /// The field is greater than the value.
    Gt(String, serde_json::Value),
    /// The field is greater than the value or equal to it.
    Gte(String, serde_json::Value),
    /// The field is less than the value.
    Lt(String, serde_json::Value),
    /// The field is less than the value or equal to it.
    Lte(String, serde_json::Value),
    /// The condition does not hold; also where it cannot be answered, because the
    /// field is missing.
    Not(Box<Filter>),
    /// All of the conditions hold.
    And(Vec<Filter>),
    /// One of the conditions holds.
    Or(Vec<Filter>),
}

/// Whether `c` may occur in a field path.
pub open spec fn is_path_char(c: char) -> bool {
    ||| 'a' <= c && c <= 'z'
    ||| 'A' <= c && c <= 'Z'
    ||| '0' <= c && c <= '9'
    ||| c == '_'
    ||| c == '.'
}

/// Whether `field` is a field path: letters, digits, underscores and dots, with
/// no dot at either end and no two in a row.
pub open spec fn is_field_path(field: Seq<char>) -> bool {
    &&& field.len() > 0
    &&& forall|i: int| 0 <= i < field.len() ==> is_path_char(#[trigger] field[i])
    &&& field[0] != '.'
    &&& field.last() != '.'
    &&& forall|i: int|
        0 <= i < field.len() - 1 ==> !(#[trigger] field[i] == '.' && field[i + 1] == '.')
}

/// The message for a field path that is none.
pub open spec fn path_words(field: Seq<char>) -> Seq<char> {
    "invalid read-model field path "@ + quoted(field)
        + ": only [A-Za-z0-9_.]+ is allowed, with no leading/trailing/doubled dot"@
}

/// Whether `c` may occur in a field path.
fn path_char(c: char) -> (r: bool)
    ensures
        r == is_path_char(c),
{
    (c >= 'a' && c <= 'z') || (c >= 'A' && c <= 'Z') || (c >= '0' && c <= '9') || c == '_' || c
        == '.'
}

/// Accept a field path, and nothing else.
pub fn validate_field_path(field: &str) -> (r: Result<(), StoreError>)
    ensures
        match r {
            Ok(_) => is_field_path(field@),
            Err(e) => !is_field_path(field@) && e@ == ErrorView::Backend(path_words(field@)),
        },
{
    let chars = chars_of(field);
    let mut good = chars.len() > 0 && chars[0] != '.' && chars[chars.len() - 1] != '.';
    let mut i: usize = 0;
    while good && i < chars.len()
        invariant
            chars@ == field@,
            i <= chars@.len(),
            good ==> chars@.len() > 0 && chars@[0] != '.' && chars@.last() != '.',
            good ==> forall|j: int| 0 <= j < i ==> is_path_char(#[trigger] chars@[j]),
            good ==> forall|j: int|
                0 <= j < i && j < chars@.len() - 1 ==> !(#[trigger] chars@[j] == '.' && chars@[j
                    + 1] == '.'),
            !good ==> !is_field_path(field@),
        decreases chars@.len() - i,
    {
        let c: char = chars[i];
        if !path_char(c) {
            good = false;
        } else if c == '.' && i + 1 < chars.len() && chars[i + 1] == '.' {
            proof {
                assert(field@[i as int] == '.' && field@[i + 1] == '.');
            }
            good = false;
        }
        i = i + 1;
    }
    if good {
        Ok(())
    } else {
        let mut words = "invalid read-model field path ".to_owned();
        words.append(quote(field).as_str());
        words.append(": only [A-Za-z0-9_.]+ is allowed, with no leading/trailing/doubled dot");
        Err(StoreError::Backend(words))
    }
}

/// The parameter for the field `field`.
pub open spec fn path_param(field: Seq<char>) -> ParamView {
    ParamView::Text("$."@ + field)
}

/// The condition that a field is equal to a value with the text `value`. A JSON
/// null is told from a missing field by its type. Values of different types are
/// not equal.
pub open spec fn eq_sql(value: Seq<char>) -> Seq<char> {
    if value == "null"@ {
        "json_type(state, ?) = 'null'"@
    } else {
        compare_sql("="@)
    }
}

/// What is bound in [`eq_sql`].
pub open spec fn eq_params(field: Seq<char>, value: Seq<char>) -> Seq<ParamView> {
    if value == "null"@ {
        seq![path_param(field)]
    } else {
        compare_params(field, value)
    }
}

/// The condition that a field is equal to one of the first `n` of `values`.
pub open spec fn in_sql(values: Seq<serde_json::Value>, n: nat) -> Seq<char>
    decreases n,
{
    if n == 0 {
        Seq::empty()
    } else if n == 1 {
        eq_sql(json_text(values[0]))
    } else {
        in_sql(values, (n - 1) as nat) + " OR "@ + eq_sql(json_text(values[n - 1]))
    }
}

/// What is bound in [`in_sql`].
pub open spec fn in_params(field: Seq<char>, values: Seq<serde_json::Value>, n: nat) -> Seq<
    ParamView,
>
    decreases n,
{
    if n == 0 {
        Seq::empty()
    } else {
        in_params(field, values, (n - 1) as nat) + eq_params(field, json_text(values[n - 1]))
    }
}

/// The type that `json_type` names, with one name for all numbers and one for
/// both truth values.
pub open spec fn kind_sql(json_type: Seq<char>) -> Seq<char> {
    "replace(replace("@ + json_type + ", 'integer', 'real'), 'false', 'true')"@
}

/// The condition that a field compares to a value by `op`. Values of different
/// types do not compare: without the second part, a text would come after every
/// number.
pub open spec fn compare_sql(op: Seq<char>) -> Seq<char> {
    "(json_extract(state, ?) "@ + op + " json_extract(?, '$') AND "@ + kind_sql(
        "json_type(state, ?)"@,
    ) + " = "@ + kind_sql("json_type(?, '$')"@) + ")"@
}

/// What is bound in [`compare_sql`].
pub open spec fn compare_params(field: Seq<char>, value: Seq<char>) -> Seq<ParamView> {
    seq![
        path_param(field),
        ParamView::Text(value),
        path_param(field),
        ParamView::Text(value),
    ]
}

/// The SQL condition for `filter`.
pub open spec fn filter_sql(filter: Filter) -> Seq<char>
    decreases filter, 0nat,
{
    match filter {
        Filter::Eq(_, value) => eq_sql(json_text(value)),
        Filter::In(_, values) => if values@.len() == 0 {
            "0"@
        } else {
            "("@ + in_sql(values@, values@.len()) + ")"@
        },
        Filter::Like(_, _) => "json_extract(state, ?) LIKE ?"@,
        Filter::Gt(_, _) => compare_sql(">"@),
        Filter::Gte(_, _) => compare_sql(">="@),
        Filter::Lt(_, _) => compare_sql("<"@),
        Filter::Lte(_, _) => compare_sql("<="@),
        Filter::Not(inner) => "NOT coalesce(("@ + filter_sql(*inner) + "), 0)"@,
        Filter::And(filters) => if filters@.len() == 0 {
            "1"@
        } else {
            list_sql(filters@, filters@.len(), " AND "@)
        },
        Filter::Or(filters) => if filters@.len() == 0 {
            "0"@
        } else {
            list_sql(filters@, filters@.len(), " OR "@)
        },
    }
}

/// The SQL conditions for the first `n` of `filters`, each in parentheses, with
/// `word` between them.
pub open spec fn list_sql(filters: Seq<Filter>, n: nat, word: Seq<char>) -> Seq<char>
    decreases filters, n,
{
    if n == 0 || n > filters.len() {
        Seq::empty()
    } else if n == 1 {
        "("@ + filter_sql(filters[0]) + ")"@
    } else {
        list_sql(filters, (n - 1) as nat, word) + word + ("("@ + filter_sql(filters[n - 1]) + ")"@)
    }
}

/// What is bound in [`filter_sql`], in the order of the placeholders.
pub open spec fn filter_params(filter: Filter) -> Seq<ParamView>
    decreases filter, 0nat,
{
    match filter {
        Filter::Eq(field, value) => eq_params(field@, json_text(value)),
        Filter::In(field, values) => in_params(field@, values@, values@.len()),
        Filter::Like(field, pattern) => seq![path_param(field@), ParamView::Text(pattern@)],
        Filter::Gt(field, value) => compare_params(field@, json_text(value)),
        Filter::Gte(field, value) => compare_params(field@, json_text(value)),
        Filter::Lt(field, value) => compare_params(field@, json_text(value)),
        Filter::Lte(field, value) => compare_params(field@, json_text(value)),
        Filter::Not(inner) => filter_params(*inner),
        Filter::And(filters) => list_params(filters@, filters@.len()),
        Filter::Or(filters) => list_params(filters@, filters@.len()),
    }
}

/// What is bound in [`list_sql`].
pub open spec fn list_params(filters: Seq<Filter>, n: nat) -> Seq<ParamView>
    decreases filters, n,
{
    if n == 0 || n > filters.len() {
        Seq::empty()
    } else {
        list_params(filters, (n - 1) as nat) + filter_params(filters[n - 1])
    }
}

/// `field`, if it is no field path.
pub open spec fn bad_field(field: Seq<char>) -> Option<Seq<char>> {
    if is_field_path(field) {
        None
    } else {
        Some(field)
    }
}

/// The first field of `filter`, from the left, that is no field path.
pub open spec fn bad_path(filter: Filter) -> Option<Seq<char>>
    decreases filter, 0nat,
{
    match filter {
        Filter::Eq(field, _) => bad_field(field@),
        Filter::In(field, _) => bad_field(field@),
        Filter::Like(field, _) => bad_field(field@),
        Filter::Gt(field, _) => bad_field(field@),
        Filter::Gte(field, _) => bad_field(field@),
        Filter::Lt(field, _) => bad_field(field@),
        Filter::Lte(field, _) => bad_field(field@),
        Filter::Not(inner) => bad_path(*inner),
        Filter::And(filters) => bad_path_in(filters@, filters@.len()),
        Filter::Or(filters) => bad_path_in(filters@, filters@.len()),
    }
}

/// The first field of the first `n` of `filters` that is no field path.
pub open spec fn bad_path_in(filters: Seq<Filter>, n: nat) -> Option<Seq<char>>
    decreases filters, n,
{
    if n == 0 || n > filters.len() {
        None
    } else {
        match bad_path_in(filters, (n - 1) as nat) {
            Some(field) => Some(field),
            None => bad_path(filters[n - 1]),
        }
    }
}

/// The text that is bound for a JSON value.
fn json_param(value: &serde_json::Value) -> (r: SqlParam)
    ensures
        r@ == ParamView::Text(json_text(*value)),
{
    SqlParam::Text(render(value))
}

/// Add one parameter.
fn bind(params: &mut Vec<SqlParam>, param: SqlParam)
    ensures
        param_views(final(params)@) == param_views(old(params)@).push(param@),
{
    let ghost before = params@;
    params.push(param);
    proof {
        assert(param_views(params@) =~= param_views(before).push(param@));
    }
}

/// Add the parameter for a field.
fn bind_path(params: &mut Vec<SqlParam>, field: &str)
    ensures
        param_views(final(params)@) == param_views(old(params)@).push(path_param(field@)),
{
    let mut path = "$.".to_owned();
    path.append(field);
    bind(params, SqlParam::Text(path));
}

/// What building a condition comes to: the text with its parameters added, or
/// the refusal of the first field that is no field path.
pub open spec fn built(
    sql: Seq<char>,
    added: Seq<ParamView>,
    bad: Option<Seq<char>>,
    before: Seq<SqlParam>,
    after: Seq<SqlParam>,
    r: Result<String, StoreError>,
) -> bool {
    match bad {
        None => r matches Ok(text) && text@ == sql && param_views(after) == param_views(before)
            + added,
        Some(field) => r matches Err(e) && e@ == ErrorView::Backend(path_words(field)),
    }
}

/// Add the type that `json_type` names to `sql`.
fn append_kind(sql: &mut String, json_type: &str)
    ensures
        final(sql)@ == old(sql)@ + kind_sql(json_type@),
{
    let ghost before = sql@;
    sql.append("replace(replace(");
    sql.append(json_type);
    sql.append(", 'integer', 'real'), 'false', 'true')");
    proof {
        assert(sql@ =~= before + kind_sql(json_type@));
    }
}

/// Build the condition that `field` compares to `value` by `op`.
fn build_compare(
    field: &str,
    value: &serde_json::Value,
    op: &str,
    params: &mut Vec<SqlParam>,
) -> (r: Result<String, StoreError>)
    ensures
        built(
            compare_sql(op@),
            compare_params(field@, json_text(*value)),
            bad_field(field@),
            old(params)@,
            final(params)@,
            r,
        ),
{
    let ghost before = params@;
    match validate_field_path(field) {
        Ok(_) => {},
        Err(e) => {
            return Err(e);
        },
    }
    bind_path(params, field);
    bind(params, json_param(value));
    bind_path(params, field);
    bind(params, json_param(value));
    proof {
        assert(param_views(params@) =~= param_views(before) + compare_params(
            field@,
            json_text(*value),
        ));
    }
    let mut sql = "(json_extract(state, ?) ".to_owned();
    sql.append(op);
    sql.append(" json_extract(?, '$') AND ");
    append_kind(&mut sql, "json_type(state, ?)");
    sql.append(" = ");
    append_kind(&mut sql, "json_type(?, '$')");
    sql.append(")");
    proof {
        assert(sql@ =~= compare_sql(op@));
    }
    Ok(sql)
}

/// Build the condition that `field` is equal to `value`.
fn build_eq(field: &str, value: &serde_json::Value, params: &mut Vec<SqlParam>) -> (r: Result<
    String,
    StoreError,
>)
    ensures
        built(
            eq_sql(json_text(*value)),
            eq_params(field@, json_text(*value)),
            bad_field(field@),
            old(params)@,
            final(params)@,
            r,
        ),
{
    let text = render(value);
    if !same_text(text.as_str(), "null") {
        return build_compare(field, value, "=", params);
    }
    let ghost before = params@;
    match validate_field_path(field) {
        Ok(_) => {},
        Err(e) => {
            return Err(e);
        },
    }
    bind_path(params, field);
    proof {
        assert(param_views(params@) =~= param_views(before) + eq_params(
            field@,
            json_text(*value),
        ));
    }
    Ok("json_type(state, ?) = 'null'".to_owned())
}

/// Build the condition that `field` is equal to one of `values`.
fn build_in(field: &str, values: &Vec<serde_json::Value>, params: &mut Vec<SqlParam>) -> (r: Result<
    String,
    StoreError,
>)
    requires
        values@.len() > 0,
    ensures
        built(
            "("@ + in_sql(values@, values@.len()) + ")"@,
            in_params(field@, values@, values@.len()),
            bad_field(field@),
            old(params)@,
            final(params)@,
            r,
        ),
{
    let ghost before = params@;
    let mut body = match build_eq(field, &values[0], params) {
        Ok(first) => first,
        Err(e) => {
            return Err(e);
        },
    };
    proof {
        reveal_with_fuel(in_params, 2);
        assert(in_params(field@, values@, 1) =~= eq_params(field@, json_text(values@[0])));
    }
    let mut i: usize = 1;
    while i < values.len()
        invariant
            1 <= i <= values@.len(),
            bad_field(field@) is None,
            body@ == in_sql(values@, i as nat),
            param_views(params@) == param_views(before) + in_params(field@, values@, i as nat),
        decreases values@.len() - i,
    {
        match build_eq(field, &values[i], params) {
            Ok(next) => {
                body.append(" OR ");
                body.append(next.as_str());
            },
            Err(e) => {
                return Err(e);
            },
        }
        proof {
            assert(param_views(params@) =~= param_views(before) + in_params(
                field@,
                values@,
                (i + 1) as nat,
            ));
        }
        i = i + 1;
    }
    let mut sql = "(".to_owned();
    sql.append(body.as_str());
    sql.append(")");
    Ok(sql)
}

/// Build the SQL condition for `filter` and add what it binds to `params`.
pub fn build_filter(filter: &Filter, params: &mut Vec<SqlParam>) -> (r: Result<String, StoreError>)
    ensures
        built(
            filter_sql(*filter),
            filter_params(*filter),
            bad_path(*filter),
            old(params)@,
            final(params)@,
            r,
        ),
    decreases *filter, 0nat,
{
    match filter {
        Filter::Eq(field, value) => build_eq(field.as_str(), value, params),
        Filter::In(field, values) => {
            if values.len() == 0 {
                match validate_field_path(field.as_str()) {
                    Ok(_) => {},
                    Err(e) => {
                        return Err(e);
                    },
                }
                proof {
                    assert(param_views(params@) =~= param_views(params@) + in_params(
                        field@,
                        values@,
                        0,
                    ));
                }
                return Ok("0".to_owned());
            }
            build_in(field.as_str(), values, params)
        },
        Filter::Like(field, pattern) => {
            let ghost before = params@;
            match validate_field_path(field.as_str()) {
                Ok(_) => {},
                Err(e) => {
                    return Err(e);
                },
            }
            bind_path(params, field.as_str());
            bind(params, SqlParam::Text(pattern.clone()));
            proof {
                assert(param_views(params@) =~= param_views(before) + filter_params(*filter));
            }
            Ok("json_extract(state, ?) LIKE ?".to_owned())
        },
        Filter::Gt(field, value) => build_compare(field.as_str(), value, ">", params),
        Filter::Gte(field, value) => build_compare(field.as_str(), value, ">=", params),
        Filter::Lt(field, value) => build_compare(field.as_str(), value, "<", params),
        Filter::Lte(field, value) => build_compare(field.as_str(), value, "<=", params),
        Filter::Not(inner) => match build_filter(inner, params) {
            Ok(text) => {
                let mut sql = "NOT coalesce((".to_owned();
                sql.append(text.as_str());
                sql.append("), 0)");
                Ok(sql)
            },
            Err(e) => Err(e),
        },
        Filter::And(filters) => {
            if filters.len() == 0 {
                proof {
                    assert(bad_path_in(filters@, 0) is None);
                    assert(param_views(params@) =~= param_views(params@) + list_params(
                        filters@,
                        0,
                    ));
                }
                return Ok("1".to_owned());
            }
            build_list(filters, " AND ", params)
        },
        Filter::Or(filters) => {
            if filters.len() == 0 {
                proof {
                    assert(bad_path_in(filters@, 0) is None);
                    assert(param_views(params@) =~= param_views(params@) + list_params(
                        filters@,
                        0,
                    ));
                }
                return Ok("0".to_owned());
            }
            build_list(filters, " OR ", params)
        },
    }
}

/// Build the SQL conditions for `filters`, each in parentheses, with `word`
/// between them.
fn build_list(filters: &Vec<Filter>, word: &str, params: &mut Vec<SqlParam>) -> (r: Result<
    String,
    StoreError,
>)
    requires
        filters@.len() > 0,
    ensures
        built(
            list_sql(filters@, filters@.len(), word@),
            list_params(filters@, filters@.len()),
            bad_path_in(filters@, filters@.len()),
            old(params)@,
            final(params)@,
            r,
        ),
    decreases filters@, filters@.len(),
{
    let ghost before = params@;
    let mut sql = String::new();
    let mut i: usize = 0;
    proof {
        assert(param_views(params@) =~= param_views(before) + list_params(filters@, 0));
    }
    while i < filters.len()
        invariant
            i <= filters@.len(),
            i == 0 ==> sql@.len() == 0,
            i > 0 ==> sql@ == list_sql(filters@, i as nat, word@),
            bad_path_in(filters@, i as nat) is None,
            param_views(params@) == param_views(before) + list_params(filters@, i as nat),
        decreases filters@.len() - i,
    {
        match build_filter(&filters[i], params) {
            Ok(text) => {
                if i > 0 {
                    sql.append(word);
                }
                let mut part = "(".to_owned();
                part.append(text.as_str());
                part.append(")");
                let ghost so_far = sql@;
                sql.append(part.as_str());
                proof {
                    if i == 0 {
                        assert(sql@ =~= "("@ + filter_sql(filters@[0]) + ")"@);
                    }
                    assert(sql@ =~= list_sql(filters@, (i + 1) as nat, word@));
                    assert(param_views(params@) =~= param_views(before) + list_params(
                        filters@,
                        (i + 1) as nat,
                    ));
                }
            },
            Err(e) => {
                proof {
                    first_bad_path(filters@, (i + 1) as nat, filters@.len());
                }
                return Err(e);
            },
        }
        i = i + 1;
    }
    Ok(sql)
}

/// A bad path that was found stays the first one.
proof fn first_bad_path(filters: Seq<Filter>, n: nat, m: nat)
    requires
        n <= m <= filters.len(),
        bad_path_in(filters, n) is Some,
    ensures
        bad_path_in(filters, m) == bad_path_in(filters, n),
    decreases m,
{
    if n < m {
        first_bad_path(filters, n, (m - 1) as nat);
    }
}

/// A condition in SQL, for what filters cannot say.
#[derive(Debug, PartialEq)]
pub struct RawWhere {
    /// The condition, with a placeholder for each value.
    pub sql: String,
    /// What is bound, in the order of the placeholders.
    pub params: Vec<serde_json::Value>,
}

/// Where a page ended: rows that come after this are wanted.
#[derive(Debug, PartialEq)]
pub struct After {
    /// What the last row was ordered by.
    pub order_value: serde_json::Value,
    /// The stream of the last row, which decides between equal values.
    pub stream: StreamId,
}

/// A query over the read model.
#[derive(Debug, PartialEq)]
pub struct Query {
    /// The condition that rows have to meet.
    pub filter: Option<Filter>,
    /// A further condition.
    pub raw_where: Option<RawWhere>,
    /// What to order by: a column, or a dotted path into the state. Without it,
    /// the rows that were updated last come first.
    pub order_by: Option<(String, Order)>,
    /// Where the last page ended.
    pub after: Option<After>,
    /// How many rows to return at most.
    pub limit: usize,
    /// How many rows to skip.
    pub offset: usize,
    /// Whether rows of deleted streams are wanted too.
    pub include_dead: bool,
}

impl Default for Query {
    fn default() -> (r: Self)
        ensures
            r.filter is None,
            r.raw_where is None,
            r.order_by is None,
            r.after is None,
            r.limit == 100,
            r.offset == 0,
            !r.include_dead,
    {
        Query {
            filter: None,
            raw_where: None,
            order_by: None,
            after: None,
            limit: 100,
            offset: 0,
            include_dead: false,
        }
    }
}

/// What is bound for the values in `values`.
pub open spec fn value_params(values: Seq<serde_json::Value>) -> Seq<ParamView> {
    values.map_values(|v: serde_json::Value| ParamView::Text(json_text(v)))
}

/// The condition of `filter` alone, and then with that of `raw`.
pub open spec fn base_sql(filter: Option<Filter>, raw: Option<RawWhere>) -> Seq<char> {
    let first = match filter {
        Some(f) => filter_sql(f),
        None => "1"@,
    };
    match raw {
        Some(r) => "("@ + first + ") AND ("@ + r.sql@ + ")"@,
        None => first,
    }
}

/// The whole condition: that of `filter` and of `raw`, on live rows unless the
/// others are wanted too.
pub open spec fn where_sql(
    filter: Option<Filter>,
    raw: Option<RawWhere>,
    include_dead: bool,
) -> Seq<char> {
    if include_dead {
        base_sql(filter, raw)
    } else {
        "("@ + base_sql(filter, raw) + ") AND live = 1"@
    }
}

/// What is bound in [`where_sql`].
pub open spec fn where_params(filter: Option<Filter>, raw: Option<RawWhere>) -> Seq<ParamView> {
    let first = match filter {
        Some(f) => filter_params(f),
        None => Seq::empty(),
    };
    match raw {
        Some(r) => first + value_params(r.params@),
        None => first,
    }
}

/// The first field of `filter` that is no field path.
pub open spec fn where_bad_path(filter: Option<Filter>) -> Option<Seq<char>> {
    match filter {
        Some(f) => bad_path(f),
        None => None,
    }
}

/// What `item` refers to.
pub open spec fn pointed_at<T>(item: Option<&T>) -> Option<T> {
    match item {
        Some(x) => Some(*x),
        None => None,
    }
}

/// Build the condition for rows that meet `filter` and `raw`.
pub fn build_where(
    filter: Option<&Filter>,
    raw: Option<&RawWhere>,
    include_dead: bool,
    params: &mut Vec<SqlParam>,
) -> (r: Result<String, StoreError>)
    ensures
        built(
            where_sql(pointed_at(filter), pointed_at(raw), include_dead),
            where_params(pointed_at(filter), pointed_at(raw)),
            where_bad_path(pointed_at(filter)),
            old(params)@,
            final(params)@,
            r,
        ),
{
    let ghost before = params@;
    let first = match filter {
        Some(f) => match build_filter(f, params) {
            Ok(sql) => sql,
            Err(e) => {
                return Err(e);
            },
        },
        None => "1".to_owned(),
    };
    let ghost middle = params@;
    let ghost bound = match pointed_at(filter) {
        Some(f) => filter_params(f),
        None => Seq::empty(),
    };
    proof {
        assert(param_views(middle) =~= param_views(before) + bound);
    }
    let base = match raw {
        Some(r) => {
            let mut i: usize = 0;
            proof {
                assert(value_params(r.params@).take(0) =~= Seq::<ParamView>::empty());
            }
            while i < r.params.len()
                invariant
                    i <= r.params@.len(),
                    param_views(params@) == param_views(middle) + value_params(r.params@).take(
                        i as int,
                    ),
                decreases r.params@.len() - i,
            {
                bind(params, json_param(&r.params[i]));
                proof {
                    let all = value_params(r.params@);
                    assert(all.take(i as int + 1) =~= all.take(i as int).push(all[i as int]));
                    assert(param_views(params@) =~= param_views(middle) + all.take(i as int + 1));
                }
                i = i + 1;
            }
            proof {
                assert(value_params(r.params@).take(i as int) =~= value_params(r.params@));
            }
            let mut sql = "(".to_owned();
            sql.append(first.as_str());
            sql.append(") AND (");
            sql.append(r.sql.as_str());
            sql.append(")");
            sql
        },
        None => first,
    };
    proof {
        assert(param_views(params@) =~= param_views(before) + where_params(
            pointed_at(filter),
            pointed_at(raw),
        ));
    }
    if include_dead {
        Ok(base)
    } else {
        let mut sql = "(".to_owned();
        sql.append(base.as_str());
        sql.append(") AND live = 1");
        Ok(sql)
    }
}

/// Whether `field` names a column of the read model.
pub open spec fn is_column(field: Seq<char>) -> bool {
    field == "updated_at"@ || field == "last_seq"@ || field == "stream"@ || field == "live"@
}

/// The expression that rows are ordered by.
pub open spec fn order_expr(order_by: Option<(String, Order)>) -> Seq<char> {
    match order_by {
        None => "updated_at"@,
        Some((field, _)) => if is_column(field@) {
            field@
        } else {
            "json_extract(state, '$."@ + field@ + "')"@
        },
    }
}

/// The direction that rows are ordered in.
pub open spec fn order_direction(order_by: Option<(String, Order)>) -> Order {
    match order_by {
        None => Order::Desc,
        Some((_, order)) => order,
    }
}

/// The field to order by, if it is no field path.
pub open spec fn order_bad_path(order_by: Option<(String, Order)>) -> Option<Seq<char>> {
    match order_by {
        None => None,
        Some((field, _)) => bad_field(field@),
    }
}

/// The expression that rows are ordered by, and in which direction.
pub fn order_expr_and_direction(order_by: Option<&(String, Order)>) -> (r: Result<
    (String, Order),
    StoreError,
>)
    ensures
        match order_bad_path(pointed_at(order_by)) {
            None => r matches Ok(found) && found.0@ == order_expr(pointed_at(order_by)) && found.1
                == order_direction(pointed_at(order_by)),
            Some(field) => r matches Err(e) && e@ == ErrorView::Backend(path_words(field)),
        },
{
    match order_by {
        None => Ok(("updated_at".to_owned(), Order::Desc)),
        Some(pair) => {
            let field = pair.0.as_str();
            match validate_field_path(field) {
                Ok(_) => {},
                Err(e) => {
                    return Err(e);
                },
            }
            if same_text(field, "updated_at") || same_text(field, "last_seq") || same_text(
                field,
                "stream",
            ) || same_text(field, "live") {
                Ok((field.to_owned(), pair.1))
            } else {
                let mut expr = "json_extract(state, '$.".to_owned();
                expr.append(field);
                expr.append("')");
                Ok((expr, pair.1))
            }
        },
    }
}

/// The word for a direction.
pub open spec fn direction_sql(direction: Order) -> Seq<char> {
    match direction {
        Order::Asc => " ASC"@,
        Order::Desc => " DESC"@,
    }
}

/// The sort key, with its direction. The stream decides between equal values, in
/// the same direction.
pub open spec fn order_sql(order_by: Option<(String, Order)>) -> Seq<char> {
    order_expr(order_by) + direction_sql(order_direction(order_by)) + ", stream"@ + direction_sql(
        order_direction(order_by),
    )
}

/// Build the sort key.
pub fn order_clause(order_by: Option<&(String, Order)>) -> (r: Result<String, StoreError>)
    ensures
        match order_bad_path(pointed_at(order_by)) {
            None => r matches Ok(sql) && sql@ == order_sql(pointed_at(order_by)),
            Some(field) => r matches Err(e) && e@ == ErrorView::Backend(path_words(field)),
        },
{
    match order_expr_and_direction(order_by) {
        Ok((expr, direction)) => {
            let word = match direction {
                Order::Asc => " ASC",
                Order::Desc => " DESC",
            };
            let mut sql = expr;
            sql.append(word);
            sql.append(", stream");
            sql.append(word);
            Ok(sql)
        },
        Err(e) => Err(e),
    }
}

/// The condition for rows that come after `after`: with a value beyond its value,
/// or with the same value and a stream beyond its stream.
pub open spec fn keyset_sql(order_by: Option<(String, Order)>) -> Seq<char> {
    let expr = order_expr(order_by);
    let sign = match order_direction(order_by) {
        Order::Asc => ">"@,
        Order::Desc => "<"@,
    };
    " AND (("@ + expr + ") "@ + sign + " json_extract(?, '$') OR (("@ + expr
        + ") = json_extract(?, '$') AND stream "@ + sign + " ?))"@
}

/// What is bound in [`keyset_sql`].
pub open spec fn keyset_params(after: After) -> Seq<ParamView> {
    seq![
        ParamView::Text(json_text(after.order_value)),
        ParamView::Text(json_text(after.order_value)),
        ParamView::Text(after.stream@),
    ]
}

/// Add the condition for rows that come after `after`, if it is given, to the
/// condition in `where_body`.
pub fn apply_keyset(
    after: Option<&After>,
    order_by: Option<&(String, Order)>,
    where_body: &mut String,
    params: &mut Vec<SqlParam>,
) -> (r: Result<(), StoreError>)
    ensures
        match after {
            None => r is Ok && final(where_body)@ == old(where_body)@ && final(params)@ == old(
                params,
            )@,
            Some(a) => match order_bad_path(pointed_at(order_by)) {
                None => {
                    &&& r is Ok
                    &&& final(where_body)@ == "("@ + old(where_body)@ + ")"@ + keyset_sql(
                        pointed_at(order_by),
                    )
                    &&& param_views(final(params)@) == param_views(old(params)@) + keyset_params(*a)
                },
                Some(field) => r matches Err(e) && e@ == ErrorView::Backend(path_words(field)),
            },
        },
{
    let ghost before = params@;
    let a = match after {
        Some(a) => a,
        None => {
            return Ok(());
        },
    };
    let (expr, direction) = match order_expr_and_direction(order_by) {
        Ok(found) => found,
        Err(e) => {
            return Err(e);
        },
    };
    let sign = match direction {
        Order::Asc => ">",
        Order::Desc => "<",
    };
    bind(params, json_param(&a.order_value));
    bind(params, json_param(&a.order_value));
    bind(params, SqlParam::Text(a.stream.as_str().to_owned()));
    proof {
        assert(param_views(params@) =~= param_views(before) + keyset_params(*a));
    }
    let mut sql = " AND ((".to_owned();
    sql.append(expr.as_str());
    sql.append(") ");
    sql.append(sign);
    sql.append(" json_extract(?, '$') OR ((");
    sql.append(expr.as_str());
    sql.append(") = json_extract(?, '$') AND stream ");
    sql.append(sign);
    sql.append(" ?))");
    let mut both = "(".to_owned();
    both.append(where_body.as_str());
    both.append(")");
    both.append(sql.as_str());
    *where_body = both;
    Ok(())
}

/// A count as SQLite holds it. No table has more rows than that.
pub open spec fn sql_count(n: usize) -> i64 {
    if n > i64::MAX {
        i64::MAX
    } else {
        n as i64
    }
}

/// `n` as SQLite holds it.
pub fn to_sql_count(n: usize) -> (r: i64)
    ensures
        r == sql_count(n),
        n <= i64::MAX ==> r == n,
        n > i64::MAX ==> r == i64::MAX,
{
    if n as u64 > 9_223_372_036_854_775_807u64 {
        i64::MAX
    } else {
        n as i64
    }
}

/// The condition for the rows of the page that `query` asks for.
pub open spec fn page_sql(query: Query) -> Seq<char> {
    let base = where_sql(query.filter, query.raw_where, query.include_dead);
    if query.after is Some {
        "("@ + base + ")"@ + keyset_sql(query.order_by)
    } else {
        base
    }
}

/// The statement for `query`.
pub open spec fn query_sql(query: Query) -> Seq<char> {
    "SELECT stream, state, last_seq, updated_at, live FROM read_model WHERE "@ + page_sql(query)
        + " ORDER BY "@ + order_sql(query.order_by) + " LIMIT ? OFFSET ?"@
}

/// What is bound in [`query_sql`].
pub open spec fn query_params(query: Query) -> Seq<ParamView> {
    where_params(query.filter, query.raw_where) + (match query.after {
        Some(a) => keyset_params(a),
        None => Seq::empty(),
    }) + seq![
        ParamView::Integer(sql_count(query.limit)),
        ParamView::Integer(sql_count(query.offset)),
    ]
}

/// The first field of `query` that is no field path.
pub open spec fn query_bad_path(query: Query) -> Option<Seq<char>> {
    match where_bad_path(query.filter) {
        Some(field) => Some(field),
        None => order_bad_path(query.order_by),
    }
}

/// What building a statement comes to.
pub open spec fn statement_built(
    sql: Seq<char>,
    params: Seq<ParamView>,
    bad: Option<Seq<char>>,
    r: Result<(String, Vec<SqlParam>), StoreError>,
) -> bool {
    match bad {
        None => r matches Ok(found) && found.0@ == sql && param_views(found.1@) == params,
        Some(field) => r matches Err(e) && e@ == ErrorView::Backend(path_words(field)),
    }
}

/// Build the statement for `q`, with what is to be bound.
pub fn build_query_sql(q: &Query) -> (r: Result<(String, Vec<SqlParam>), StoreError>)
    ensures
        statement_built(query_sql(*q), query_params(*q), query_bad_path(*q), r),
{
    let mut params: Vec<SqlParam> = Vec::new();
    let ghost empty = params@;
    let mut body = match build_where(
        q.filter.as_ref(),
        q.raw_where.as_ref(),
        q.include_dead,
        &mut params,
    ) {
        Ok(body) => body,
        Err(e) => {
            return Err(e);
        },
    };
    proof {
        assert(param_views(empty) =~= Seq::<ParamView>::empty());
        assert(param_views(params@) =~= where_params(q.filter, q.raw_where));
    }
    match apply_keyset(q.after.as_ref(), q.order_by.as_ref(), &mut body, &mut params) {
        Ok(_) => {},
        Err(e) => {
            return Err(e);
        },
    }
    let order = match order_clause(q.order_by.as_ref()) {
        Ok(order) => order,
        Err(e) => {
            return Err(e);
        },
    };
    let start = "SELECT stream, state, last_seq, updated_at, live FROM read_model WHERE ";
    let mut sql = start.to_owned();
    sql.append(body.as_str());
    sql.append(" ORDER BY ");
    sql.append(order.as_str());
    sql.append(" LIMIT ? OFFSET ?");
    bind(&mut params, SqlParam::Integer(to_sql_count(q.limit)));
    bind(&mut params, SqlParam::Integer(to_sql_count(q.offset)));
    proof {
        assert(sql@ =~= query_sql(*q));
        assert(param_views(params@) =~= query_params(*q));
    }
    Ok((sql, params))
}

/// The statement that counts the rows that meet `filter` and `raw`.
pub open spec fn count_sql(
    filter: Option<Filter>,
    raw: Option<RawWhere>,
    include_dead: bool,
) -> Seq<char> {
    "SELECT COUNT(*) FROM read_model WHERE "@ + where_sql(filter, raw, include_dead)
}

/// Build the statement that counts rows, with what is to be bound.
pub fn build_count_sql(
    filter: Option<&Filter>,
    raw: Option<&RawWhere>,
    include_dead: bool,
) -> (r: Result<(String, Vec<SqlParam>), StoreError>)
    ensures
        statement_built(
            count_sql(pointed_at(filter), pointed_at(raw), include_dead),
            where_params(pointed_at(filter), pointed_at(raw)),
            where_bad_path(pointed_at(filter)),
            r,
        ),
{
    let mut params: Vec<SqlParam> = Vec::new();
    let ghost empty = params@;
    let body = match build_where(filter, raw, include_dead, &mut params) {
        Ok(body) => body,
        Err(e) => {
            return Err(e);
        },
    };
    proof {
        assert(param_views(empty) =~= Seq::<ParamView>::empty());
        assert(param_views(params@) =~= where_params(pointed_at(filter), pointed_at(raw)));
    }
    let mut sql = "SELECT COUNT(*) FROM read_model WHERE ".to_owned();
    sql.append(body.as_str());
    Ok((sql, params))
}

/// `field` with an underscore for each dot.
pub open spec fn underscored(field: Seq<char>) -> Seq<char> {
    field.map_values(
        |c: char|
            if c == '.' {
                '_'
            } else {
                c
            },
    )
}

/// The statement that creates an index over `field`.
pub open spec fn index_sql(field: Seq<char>) -> Seq<char> {
    "CREATE INDEX IF NOT EXISTS \"ix_rm_"@ + underscored(field)
        + "\" ON read_model(json_extract(state, '$."@ + field + "'))"@
}

/// Build the statement that creates an index over `field`.
pub fn build_field_index_sql(field: &str) -> (r: Result<String, StoreError>)
    ensures
        match bad_field(field@) {
            None => r matches Ok(sql) && sql@ == index_sql(field@),
            Some(_) => r matches Err(e) && e@ == ErrorView::Backend(path_words(field@)),
        },
{
    match validate_field_path(field) {
        Ok(_) => {},
        Err(e) => {
            return Err(e);
        },
    }
    let chars = chars_of(field);
    let mut name = String::new();
    let mut i: usize = 0;
    while i < chars.len()
        invariant
            chars@ == field@,
            i <= chars@.len(),
            name@ == underscored(field@).take(i as int),
        decreases chars@.len() - i,
    {
        let c: char = chars[i];
        name.push(
            if c == '.' {
                '_'
            } else {
                c
            },
        );
        proof {
            let all = underscored(field@);
            assert(all.take(i as int + 1) =~= all.take(i as int).push(all[i as int]));
        }
        i = i + 1;
    }
    proof {
        assert(underscored(field@).take(i as int) =~= underscored(field@));
    }
    let mut sql = "CREATE INDEX IF NOT EXISTS \"ix_rm_".to_owned();
    sql.append(name.as_str());
    sql.append("\" ON read_model(json_extract(state, '$.");
    sql.append(field);
    sql.append("'))");
    Ok(sql)
}

} // verus!
