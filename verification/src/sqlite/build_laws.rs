//! What building a statement comes to: its text with what is to be bound, or the refusal
//! of a field that is none.
use vstd::prelude::*;

use crate::error::{ErrorView, StoreError};
use crate::sqlite::query::{
    apply_keyset, build_count_sql, build_field_index_sql, build_filter, build_query_sql,
    build_where, count_sql, filter_params, filter_sql, index_sql, is_field_path, keyset_params,
    keyset_sql, order_clause, order_expr, order_expr_and_direction, order_sql, param_views,
    pointed_at, query_params, query_sql, to_sql_count, validate_field_path, where_params, where_sql,
    After, Filter, Order, Query, RawWhere, SqlParam,
};
use crate::sqlite::filter_laws::{
    a_filter_is_refused_for_a_bad_field_alone, fields_of, is_first_bad,
};
use crate::text::quoted;

verus! {

/// `error` refuses `field`, and says which field it is and what a field may be.
pub open spec fn refuses(error: ErrorView, field: Seq<char>) -> bool {
    error == ErrorView::Backend(
        "invalid read-model field path "@ + quoted(field)
            + ": only [A-Za-z0-9_.]+ is allowed, with no leading/trailing/doubled dot"@,
    )
}

/// The fields of a query, in the order in which they are looked at: those of its filter,
/// and then the one that it orders by.
pub open spec fn fields_asked_for(
    filter: Option<Filter>,
    order_by: Option<(String, Order)>,
) -> Seq<Seq<char>> {
    (match filter {
        Some(f) => fields_of(f),
        None => Seq::empty(),
    }) + match order_by {
        Some((field, _)) => seq![field@],
        None => Seq::empty(),
    }
}

/// The first bad one of two lists of fields is that of the first list, or else that of
/// the second.
proof fn first_bad_of_two(
    first: Seq<Seq<char>>,
    second: Seq<Seq<char>>,
    bad: Option<Seq<char>>,
    worse: Option<Seq<char>>,
)
    requires
        is_first_bad(first, bad),
        is_first_bad(second, worse),
    ensures
        is_first_bad(
            first + second,
            match bad {
                Some(field) => Some(field),
                None => worse,
            },
        ),
{
    let all = first + second;
    match bad {
        Some(field) => {
            let i = choose|i: int|
                0 <= i < first.len() && #[trigger] first[i] == field && !is_field_path(field)
                    && forall|j: int| 0 <= j < i ==> is_field_path(#[trigger] first[j]);
            assert(all[i] == field);
            assert forall|j: int| 0 <= j < i implies is_field_path(#[trigger] all[j]) by {
                assert(all[j] == first[j]);
            }
        },
        None => {
            assert forall|j: int| 0 <= j < first.len() implies is_field_path(
                #[trigger] all[j],
            ) by {
                assert(all[j] == first[j]);
            }
            match worse {
                Some(field) => {
                    let i = choose|i: int|
                        0 <= i < second.len() && #[trigger] second[i] == field && !is_field_path(
                            field,
                        ) && forall|j: int| 0 <= j < i ==> is_field_path(#[trigger] second[j]);
                    let k = first.len() + i;
                    assert(all[k] == field);
                    assert forall|j: int| 0 <= j < k implies is_field_path(#[trigger] all[j]) by {
                        if j >= first.len() {
                            assert(all[j] == second[j - first.len()]);
                        }
                    }
                },
                None => {
                    assert forall|j: int| 0 <= j < all.len() implies is_field_path(
                        #[trigger] all[j],
                    ) by {
                        if j >= first.len() {
                            assert(all[j] == second[j - first.len()]);
                        }
                    }
                },
            }
        },
    }
}

/// What is wrong with the fields of a filter, if there is one.
proof fn bad_field_of_a_filter(filter: Option<Filter>)
    ensures
        is_first_bad(
            fields_asked_for(filter, None),
            crate::sqlite::query::where_bad_path(filter),
        ),
{
    match filter {
        Some(f) => {
            a_filter_is_refused_for_a_bad_field_alone(f);
            assert(fields_asked_for(filter, None) =~= fields_of(f));
        },
        None => {},
    }
}

/// A query is built if all of its fields are field paths, with the text and the
/// parameters that it is read by. Otherwise the first field that is none is refused.
pub proof fn a_query_is_built_unless_a_field_is_bad(
    q: &Query,
    r: Result<(String, Vec<SqlParam>), StoreError>,
)
    requires
        call_ensures(build_query_sql, (q,), r),
    ensures
        ({
            let fields = fields_asked_for(q.filter, q.order_by);
            match r {
                Ok(found) => {
                    &&& forall|i: int| 0 <= i < fields.len() ==> is_field_path(#[trigger] fields[i])
                    &&& found.0@ == query_sql(*q)
                    &&& param_views(found.1@) == query_params(*q)
                },
                Err(e) => exists|i: int|
                    0 <= i < fields.len() && !is_field_path(#[trigger] fields[i]) && refuses(
                        e@,
                        fields[i],
                    ) && forall|j: int| 0 <= j < i ==> is_field_path(#[trigger] fields[j]),
            }
        }),
{
    bad_field_of_a_filter(q.filter);
    let first = fields_asked_for(q.filter, None);
    let second = fields_asked_for(None, q.order_by);
    let worse = crate::sqlite::query::order_bad_path(q.order_by);
    match q.order_by {
        Some((field, _)) => {
            assert(second[0] == field@);
        },
        None => {},
    }
    first_bad_of_two(first, second, crate::sqlite::query::where_bad_path(q.filter), worse);
    assert(first + second =~= fields_asked_for(q.filter, q.order_by));
}

/// The same of a statement that counts: it has the fields of its filter alone.
pub proof fn a_count_is_built_unless_a_field_is_bad(
    filter: Option<&Filter>,
    raw: Option<&RawWhere>,
    include_dead: bool,
    r: Result<(String, Vec<SqlParam>), StoreError>,
)
    requires
        call_ensures(build_count_sql, (filter, raw, include_dead), r),
    ensures
        ({
            let fields = fields_asked_for(pointed_at(filter), None);
            match r {
                Ok(found) => {
                    &&& forall|i: int| 0 <= i < fields.len() ==> is_field_path(#[trigger] fields[i])
                    &&& found.0@ == count_sql(pointed_at(filter), pointed_at(raw), include_dead)
                    &&& param_views(found.1@) == where_params(pointed_at(filter), pointed_at(raw))
                },
                Err(e) => exists|i: int|
                    0 <= i < fields.len() && !is_field_path(#[trigger] fields[i]) && refuses(
                        e@,
                        fields[i],
                    ) && forall|j: int| 0 <= j < i ==> is_field_path(#[trigger] fields[j]),
            }
        }),
{
    bad_field_of_a_filter(pointed_at(filter));
}

/// An index is built over every field path, and over nothing else.
pub proof fn an_index_is_built_over_a_field(field: &str, r: Result<String, StoreError>)
    requires
        call_ensures(build_field_index_sql, (field,), r),
    ensures
        match r {
            Ok(sql) => is_field_path(field@) && sql@ == index_sql(field@),
            Err(e) => !is_field_path(field@) && refuses(e@, field@),
        },
{
}

/// A field is accepted if it is a field path, and otherwise refused.
pub proof fn a_field_is_accepted_or_refused(field: &str, r: Result<(), StoreError>)
    requires
        call_ensures(validate_field_path, (field,), r),
    ensures
        match r {
            Ok(_) => is_field_path(field@),
            Err(e) => !is_field_path(field@) && refuses(e@, field@),
        },
{
}

/// Rows are ordered by any field path, in the direction that was asked for; by the time
/// of their last event, the latest first, where nothing was asked for.
pub proof fn an_order_is_built_as_asked_for(
    order_by: Option<&(String, Order)>,
    key: Result<(String, Order), StoreError>,
    clause: Result<String, StoreError>,
)
    requires
        call_ensures(order_expr_and_direction, (order_by,), key),
        call_ensures(order_clause, (order_by,), clause),
    ensures
        match order_by {
            None => (key matches Ok(k) && k.0@ == "updated_at"@ && k.1 == Order::Desc) && (
            clause matches Ok(sql) && sql@ == order_sql(None)),
            Some(pair) => if is_field_path(pair.0@) {
                (key matches Ok(k) && k.0@ == order_expr(Some(*pair)) && k.1 == pair.1) && (
                clause matches Ok(sql) && sql@ == order_sql(Some(*pair)))
            } else {
                (key matches Err(e) && refuses(e@, pair.0@)) && (clause matches Err(e) && refuses(
                    e@,
                    pair.0@,
                ))
            },
        },
{
}

/// A number of rows is bound as it is, if SQLite can hold it.
pub proof fn a_count_is_bound_as_it_is(n: usize, r: i64)
    requires
        call_ensures(to_sql_count, (n,), r),
    ensures
        r == if n <= i64::MAX {
            n as int
        } else {
            i64::MAX as int
        },
{
}

/// Building a condition adds its parameters to those that are there, and takes none
/// away.
pub proof fn a_condition_adds_its_parameters()
    ensures
        forall|filter: &Filter, params: &mut Vec<SqlParam>, r: Result<String, StoreError>|
            #[trigger] call_ensures(build_filter, (filter, params), r) ==> (r matches Ok(sql) ==> {
                &&& sql@ == filter_sql(*filter)
                &&& param_views((*final(params))@) == param_views((*params)@) + filter_params(
                    *filter,
                )
            }),
        forall|
            filter: Option<&Filter>,
            raw: Option<&RawWhere>,
            include_dead: bool,
            params: &mut Vec<SqlParam>,
            r: Result<String, StoreError>,
        | #[trigger]
            call_ensures(build_where, (filter, raw, include_dead, params), r) ==> (r matches Ok(
                sql,
            ) ==> {
                &&& sql@ == where_sql(pointed_at(filter), pointed_at(raw), include_dead)
                &&& param_views((*final(params))@) == param_views((*params)@) + where_params(
                    pointed_at(filter),
                    pointed_at(raw),
                )
            }),
{
}

/// A cursor narrows the condition that is there, and adds its parameters; without one
/// nothing changes.
pub proof fn a_cursor_narrows_the_condition()
    ensures
        forall|
            after: Option<&After>,
            order_by: Option<&(String, Order)>,
            body: &mut String,
            params: &mut Vec<SqlParam>,
            r: Result<(), StoreError>,
        | #[trigger]
            call_ensures(apply_keyset, (after, order_by, body, params), r) ==> match after {
                None => r is Ok && (*final(body))@ == (*body)@ && (*final(params))@ == (*params)@,
                Some(a) => r is Ok ==> {
                    &&& (*final(body))@ == "("@ + (*body)@ + ")"@ + keyset_sql(pointed_at(order_by))
                    &&& param_views((*final(params))@) == param_views((*params)@) + keyset_params(
                        *a,
                    )
                },
            },
{
}

} // verus!
