//! What the conditions over the read model mean, as SQLite reads them.
//!
//! A condition is a text with placeholders, together with what is bound to them.
//! Here it is taken apart: [`Cond`] and [`Expr`] are the parts that it is made of,
//! with how each is written, what it binds, and what it comes to for a row.
use vstd::prelude::*;

use crate::sqlite::query::ParamView;
use crate::text::text_before;

verus! {

/// A JSON document.
pub enum Tree {
    /// Null.
    Null,
    /// A truth value.
    Truth(bool),
    /// A number: where it ranks among the others, and whether it is written
    /// without a fraction.
    Number(int, bool),
    /// A text.
    Text(Seq<char>),
    /// An array.
    List(Seq<Tree>),
    /// An object.
    Object(Map<Seq<char>, Tree>),
}

/// The member `name` of an object; other documents have none.
pub open spec fn member_of(tree: Tree, name: Seq<char>) -> Option<Tree> {
    match tree {
        Tree::Object(members) => if members.dom().contains(name) {
            Some(members[name])
        } else {
            None
        },
        _ => None,
    }
}

/// What is reached by going from member to member.
pub open spec fn reached(tree: Tree, names: Seq<Seq<char>>) -> Option<Tree>
    decreases names.len(),
{
    if names.len() == 0 {
        Some(tree)
    } else {
        match member_of(tree, names[0]) {
            Some(next) => reached(next, names.skip(1)),
            None => None,
        }
    }
}

/// How many characters come before the first dot.
pub open spec fn before_dot(field: Seq<char>) -> nat
    decreases field.len(),
{
    if field.len() == 0 || field[0] == '.' {
        0
    } else {
        1 + before_dot(field.skip(1))
    }
}

/// The names between the dots of a dotted path.
pub open spec fn names_in(field: Seq<char>) -> Seq<Seq<char>>
    decreases field.len(),
{
    let n = before_dot(field) as int;
    if n >= field.len() {
        seq![field]
    } else {
        seq![field.take(n)] + names_in(field.skip(n + 1))
    }
}

/// How many characters the name at the beginning of `s` has: up to a dot or a
/// bracket.
pub open spec fn label_len(s: Seq<char>) -> nat
    decreases s.len(),
{
    if s.len() == 0 || s[0] == '.' || s[0] == '[' {
        0
    } else {
        1 + label_len(s.skip(1))
    }
}

/// How many characters come before the quotation mark that ends a quoted name. A
/// backslash takes the character after it along.
pub open spec fn quoted_len(s: Seq<char>) -> nat
    decreases s.len(),
{
    if s.len() == 0 || s[0] == '"' {
        0
    } else if s[0] == '\\' && s.len() > 1 {
        2 + quoted_len(s.skip(2))
    } else {
        1 + quoted_len(s.skip(1))
    }
}

/// A quoted name without the backslashes that stand before other characters.
pub open spec fn unescaped(s: Seq<char>) -> Seq<char>
    decreases s.len(),
{
    if s.len() == 0 {
        Seq::empty()
    } else if s[0] == '\\' && s.len() > 1 {
        seq![s[1]] + unescaped(s.skip(2))
    } else {
        seq![s[0]] + unescaped(s.skip(1))
    }
}

/// Follow the steps of a path, each of which is a dot with a name, quoted or not.
/// Steps into arrays are not looked at here.
pub open spec fn followed(tree: Tree, steps: Seq<char>) -> Option<Tree>
    decreases steps.len(),
{
    if steps.len() == 0 {
        Some(tree)
    } else if steps.len() == 1 || steps[0] != '.' {
        None
    } else if steps[1] == '"' {
        let n = quoted_len(steps.skip(2)) as int;
        if n + 2 >= steps.len() {
            None
        } else {
            match member_of(tree, unescaped(steps.subrange(2, n + 2))) {
                Some(next) => followed(next, steps.skip(n + 3)),
                None => None,
            }
        }
    } else {
        let n = label_len(steps.skip(1)) as int;
        if n == 0 || n + 1 > steps.len() {
            None
        } else {
            match member_of(tree, steps.subrange(1, n + 1)) {
                Some(next) => followed(next, steps.skip(n + 1)),
                None => None,
            }
        }
    }
}

/// What the JSON path `path` selects from a document.
pub open spec fn selected(tree: Tree, path: Seq<char>) -> Option<Tree> {
    if path.len() > 0 && path[0] == '$' {
        followed(tree, path.skip(1))
    } else {
        None
    }
}

/// A value in SQL.
pub enum Datum {
    /// No value.
    Null,
    /// A number, by where it ranks.
    Number(int),
    /// A text.
    Text(Seq<char>),
}

/// What is left to the engine: which document a text stands for, the text of an
/// array or object, and which values a pattern matches.
pub struct Engine {
    /// The document that a JSON text stands for.
    pub read: spec_fn(Seq<char>) -> Tree,
    /// The compact text of an array or an object.
    pub written: spec_fn(Tree) -> Seq<char>,
    /// Whether a value matches a pattern.
    pub alike: spec_fn(Datum, Seq<char>) -> bool,
}

impl Engine {
    /// The value of what was found in a document.
    pub open spec fn value(&self, found: Option<Tree>) -> Datum {
        match found {
            None => Datum::Null,
            Some(Tree::Null) => Datum::Null,
            Some(Tree::Truth(b)) => Datum::Number(
                if b {
                    1
                } else {
                    0
                },
            ),
            Some(Tree::Number(rank, _)) => Datum::Number(rank),
            Some(Tree::Text(s)) => Datum::Text(s),
            Some(other) => Datum::Text((self.written)(other)),
        }
    }
}

/// The name of the type of what was found in a document.
pub open spec fn kind_name(found: Option<Tree>) -> Datum {
    match found {
        None => Datum::Null,
        Some(Tree::Null) => Datum::Text("null"@),
        Some(Tree::Truth(b)) => Datum::Text(
            if b {
                "true"@
            } else {
                "false"@
            },
        ),
        Some(Tree::Number(_, whole)) => Datum::Text(
            if whole {
                "integer"@
            } else {
                "real"@
            },
        ),
        Some(Tree::Text(_)) => Datum::Text("text"@),
        Some(Tree::List(_)) => Datum::Text("array"@),
        Some(Tree::Object(_)) => Datum::Text("object"@),
    }
}

/// Whether `a` comes before `b`. Numbers come before texts.
pub open spec fn value_before(a: Datum, b: Datum) -> bool {
    match (a, b) {
        (Datum::Number(x), Datum::Number(y)) => x < y,
        (Datum::Number(_), Datum::Text(_)) => true,
        (Datum::Text(x), Datum::Text(y)) => text_before(x, y),
        _ => false,
    }
}

/// How two values are compared.
pub enum Op {
    /// Equal.
    Eq,
    /// Less.
    Lt,
    /// Less or equal.
    Lte,
    /// Greater.
    Gt,
    /// Greater or equal.
    Gte,
}

/// How a comparison is written.
pub open spec fn op_sql(op: Op) -> Seq<char> {
    match op {
        Op::Eq => "="@,
        Op::Lt => "<"@,
        Op::Lte => "<="@,
        Op::Gt => ">"@,
        Op::Gte => ">="@,
    }
}

/// What a comparison comes to; nothing, if there is nothing to compare.
pub open spec fn compared(a: Datum, op: Op, b: Datum) -> Option<bool> {
    if a is Null || b is Null {
        None
    } else {
        Some(
            match op {
                Op::Eq => a == b,
                Op::Lt => value_before(a, b),
                Op::Lte => value_before(a, b) || a == b,
                Op::Gt => value_before(b, a),
                Op::Gte => value_before(b, a) || a == b,
            },
        )
    }
}

/// A row of the read model.
pub struct Row {
    /// The stream.
    pub stream: Seq<char>,
    /// The state.
    pub state: Tree,
    /// The coordinate of the last event.
    pub last_seq: int,
    /// When the last event was written.
    pub updated_at: int,
    /// Whether the stream is live.
    pub live: bool,
}

/// What a column holds.
pub open spec fn column(row: Row, name: Seq<char>) -> Datum {
    if name == "stream"@ {
        Datum::Text(row.stream)
    } else if name == "last_seq"@ {
        Datum::Number(row.last_seq)
    } else if name == "updated_at"@ {
        Datum::Number(row.updated_at)
    } else if name == "live"@ {
        Datum::Number(
            if row.live {
                1
            } else {
                0
            },
        )
    } else {
        Datum::Null
    }
}

/// What stands for a value in a condition.
pub enum Expr {
    /// What a bound path selects from the state.
    At(Seq<char>),
    /// What a path in the text selects from the state.
    AtNamed(Seq<char>),
    /// The type of what a bound path selects from the state.
    TypeAt(Seq<char>),
    /// A bound JSON text.
    Given(Seq<char>),
    /// The type of a bound JSON text.
    TypeOfGiven(Seq<char>),
    /// A bound text.
    Bound(Seq<char>),
    /// A column.
    Column(Seq<char>),
    /// A text.
    Word(Seq<char>),
    /// The number one.
    One,
    /// One name in place of another.
    Renamed(Box<Expr>, Seq<char>, Seq<char>),
    /// In parentheses.
    Enclosed(Box<Expr>),
}

/// How an expression is written.
pub open spec fn expr_sql(expr: Expr) -> Seq<char>
    decreases expr,
{
    match expr {
        Expr::At(_) => "json_extract(state, ?)"@,
        Expr::AtNamed(path) => "json_extract(state, '"@ + path + "')"@,
        Expr::TypeAt(_) => "json_type(state, ?)"@,
        Expr::Given(_) => "json_extract(?, '$')"@,
        Expr::TypeOfGiven(_) => "json_type(?, '$')"@,
        Expr::Bound(_) => "?"@,
        Expr::Column(name) => name,
        Expr::Word(word) => "'"@ + word + "'"@,
        Expr::One => "1"@,
        Expr::Renamed(inner, from, to) => "replace("@ + expr_sql(*inner) + ", '"@ + from + "', '"@
            + to + "')"@,
        Expr::Enclosed(inner) => "("@ + expr_sql(*inner) + ")"@,
    }
}

/// What an expression binds, in the order of its placeholders.
pub open spec fn expr_params(expr: Expr) -> Seq<ParamView>
    decreases expr,
{
    match expr {
        Expr::At(path) => seq![ParamView::Text(path)],
        Expr::TypeAt(path) => seq![ParamView::Text(path)],
        Expr::Given(json) => seq![ParamView::Text(json)],
        Expr::TypeOfGiven(json) => seq![ParamView::Text(json)],
        Expr::Bound(text) => seq![ParamView::Text(text)],
        Expr::Renamed(inner, _, _) => expr_params(*inner),
        Expr::Enclosed(inner) => expr_params(*inner),
        _ => Seq::empty(),
    }
}

/// What an expression comes to for `row`. No name of a type is a part of another,
/// so replacing one is replacing the whole.
pub open spec fn expr_value(engine: Engine, expr: Expr, row: Row) -> Datum
    decreases expr,
{
    match expr {
        Expr::At(path) => engine.value(selected(row.state, path)),
        Expr::AtNamed(path) => engine.value(selected(row.state, path)),
        Expr::TypeAt(path) => kind_name(selected(row.state, path)),
        Expr::Given(json) => engine.value(Some((engine.read)(json))),
        Expr::TypeOfGiven(json) => kind_name(Some((engine.read)(json))),
        Expr::Bound(text) => Datum::Text(text),
        Expr::Column(name) => column(row, name),
        Expr::Word(word) => Datum::Text(word),
        Expr::One => Datum::Number(1),
        Expr::Renamed(inner, from, to) => {
            let value = expr_value(engine, *inner, row);
            if value == Datum::Text(from) {
                Datum::Text(to)
            } else {
                value
            }
        },
        Expr::Enclosed(inner) => expr_value(engine, *inner, row),
    }
}

/// A condition.
pub enum Cond {
    /// Never.
    Never,
    /// Always.
    Always,
    /// Two values compare.
    Compare(Expr, Op, Expr),
    /// A value matches a bound pattern.
    Alike(Expr, Seq<char>),
    /// Both hold.
    And(Box<Cond>, Box<Cond>),
    /// One of the two holds.
    Or(Box<Cond>, Box<Cond>),
    /// In parentheses.
    Enclosed(Box<Cond>),
    /// It does not hold, or cannot be answered.
    NotTrue(Box<Cond>),
    /// What the caller wrote, with what it binds and what it comes to.
    Raw(Seq<char>, Seq<ParamView>, spec_fn(Row) -> Option<bool>),
}

/// How a condition is written.
pub open spec fn cond_sql(cond: Cond) -> Seq<char>
    decreases cond,
{
    match cond {
        Cond::Never => "0"@,
        Cond::Always => "1"@,
        Cond::Compare(a, op, b) => expr_sql(a) + " "@ + op_sql(op) + " "@ + expr_sql(b),
        Cond::Alike(a, _) => expr_sql(a) + " LIKE ?"@,
        Cond::And(a, b) => cond_sql(*a) + " AND "@ + cond_sql(*b),
        Cond::Or(a, b) => cond_sql(*a) + " OR "@ + cond_sql(*b),
        Cond::Enclosed(inner) => "("@ + cond_sql(*inner) + ")"@,
        Cond::NotTrue(inner) => "NOT coalesce(("@ + cond_sql(*inner) + "), 0)"@,
        Cond::Raw(sql, _, _) => sql,
    }
}

/// What a condition binds, in the order of its placeholders.
pub open spec fn cond_params(cond: Cond) -> Seq<ParamView>
    decreases cond,
{
    match cond {
        Cond::Compare(a, _, b) => expr_params(a) + expr_params(b),
        Cond::Alike(a, pattern) => expr_params(a).push(ParamView::Text(pattern)),
        Cond::And(a, b) => cond_params(*a) + cond_params(*b),
        Cond::Or(a, b) => cond_params(*a) + cond_params(*b),
        Cond::Enclosed(inner) => cond_params(*inner),
        Cond::NotTrue(inner) => cond_params(*inner),
        Cond::Raw(_, params, _) => params,
        _ => Seq::empty(),
    }
}

/// The parts of a condition belong together as its text is read: AND binds more
/// tightly than OR, and what the caller wrote stands in parentheses.
pub open spec fn well_enclosed(cond: Cond) -> bool
    decreases cond,
{
    match cond {
        Cond::And(a, b) => {
            &&& !(*a is Or) && !(*a is Raw) && well_enclosed(*a)
            &&& !(*b is Or) && !(*b is Raw) && well_enclosed(*b)
        },
        Cond::Or(a, b) => {
            &&& !(*a is Raw) && well_enclosed(*a)
            &&& !(*b is Raw) && well_enclosed(*b)
        },
        Cond::Enclosed(inner) => well_enclosed(*inner),
        Cond::NotTrue(inner) => well_enclosed(*inner),
        _ => true,
    }
}

/// What a condition comes to for `row`: that it holds, that it does not, or that it
/// cannot be answered.
pub open spec fn cond_truth(engine: Engine, cond: Cond, row: Row) -> Option<bool>
    decreases cond,
{
    match cond {
        Cond::Never => Some(false),
        Cond::Always => Some(true),
        Cond::Compare(a, op, b) => compared(
            expr_value(engine, a, row),
            op,
            expr_value(engine, b, row),
        ),
        Cond::Alike(a, pattern) => {
            let value = expr_value(engine, a, row);
            if value is Null {
                None
            } else {
                Some((engine.alike)(value, pattern))
            }
        },
        Cond::And(a, b) => {
            let (x, y) = (cond_truth(engine, *a, row), cond_truth(engine, *b, row));
            if x == Some(false) || y == Some(false) {
                Some(false)
            } else if x is None || y is None {
                None
            } else {
                Some(true)
            }
        },
        Cond::Or(a, b) => {
            let (x, y) = (cond_truth(engine, *a, row), cond_truth(engine, *b, row));
            if x == Some(true) || y == Some(true) {
                Some(true)
            } else if x is None || y is None {
                None
            } else {
                Some(false)
            }
        },
        Cond::Enclosed(inner) => cond_truth(engine, *inner, row),
        Cond::NotTrue(inner) => Some(cond_truth(engine, *inner, row) != Some(true)),
        Cond::Raw(_, _, fact) => fact(row),
    }
}

/// Whether a condition lets `row` pass.
pub open spec fn lets_pass(engine: Engine, cond: Cond, row: Row) -> bool {
    cond_truth(engine, cond, row) == Some(true)
}

/// A sort key: an expression, and whether it goes down.
pub struct SortKey {
    /// What rows are sorted by.
    pub expr: Expr,
    /// Whether the greatest comes first.
    pub down: bool,
}

/// How a sort key is written.
pub open spec fn key_sql(key: SortKey) -> Seq<char> {
    expr_sql(key.expr) + if key.down {
        " DESC"@
    } else {
        " ASC"@
    }
}

/// How two sort keys are written.
pub open spec fn keys_sql(first: SortKey, second: SortKey) -> Seq<char> {
    key_sql(first) + ", "@ + key_sql(second)
}

/// Whether `a` sorts before `b`. Without a value, it sorts before every value.
pub open spec fn sorts_before(a: Datum, b: Datum) -> bool {
    (a is Null && !(b is Null)) || value_before(a, b)
}

/// Whether a sort key puts `a` before `b`.
pub open spec fn key_puts_first(engine: Engine, key: SortKey, a: Row, b: Row) -> bool {
    let (x, y) = (expr_value(engine, key.expr, a), expr_value(engine, key.expr, b));
    if key.down {
        sorts_before(y, x)
    } else {
        sorts_before(x, y)
    }
}

/// Whether two sort keys put `a` before `b`: the second decides where the first
/// finds the same value.
pub open spec fn keys_put_first(
    engine: Engine,
    first: SortKey,
    second: SortKey,
    a: Row,
    b: Row,
) -> bool {
    ||| key_puts_first(engine, first, a, b)
    ||| expr_value(engine, first.expr, a) == expr_value(engine, first.expr, b) && key_puts_first(
        engine,
        second,
        a,
        b,
    )
}

} // verus!
