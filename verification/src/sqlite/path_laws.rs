//! What the JSON paths select that are bound for fields and members.
use vstd::prelude::*;

use crate::sqlite::event_rows::{escaped, member_path};
use crate::sqlite::meaning::{
    before_dot, followed, label_len, member_of, names_in, quoted_len, reached, selected, unescaped,
    Tree,
};
use crate::sqlite::query::{is_field_path, is_path_char, path_param, ParamView};

verus! {

/// The path that is bound for `field`.
pub open spec fn path_text(field: Seq<char>) -> Seq<char> {
    match path_param(field) {
        ParamView::Text(path) => path,
        ParamView::Integer(_) => Seq::empty(),
    }
}

/// A name in a field path goes up to the first dot.
proof fn names_end_at_dots(field: Seq<char>)
    requires
        forall|i: int| 0 <= i < field.len() ==> is_path_char(#[trigger] field[i]),
    ensures
        label_len(field) == before_dot(field),
        before_dot(field) <= field.len(),
        forall|i: int| 0 <= i < before_dot(field) ==> #[trigger] field[i] != '.',
        before_dot(field) < field.len() ==> field[before_dot(field) as int] == '.',
    decreases field.len(),
{
    if field.len() > 0 && field[0] != '.' {
        let rest = field.skip(1);
        assert forall|i: int| 0 <= i < rest.len() implies is_path_char(#[trigger] rest[i]) by {
            assert(rest[i] == field[i + 1]);
        }
        names_end_at_dots(rest);
        assert(is_path_char(field[0]));
        assert forall|i: int| 0 <= i < before_dot(field) implies #[trigger] field[i] != '.' by {
            if i > 0 {
                assert(field[i] == rest[i - 1]);
            }
        }
        if before_dot(field) < field.len() {
            assert(field[before_dot(field) as int] == rest[before_dot(rest) as int]);
        }
    }
}

/// What comes after the first dot of a field path is a field path.
proof fn the_rest_is_a_path(field: Seq<char>)
    requires
        is_field_path(field),
        before_dot(field) < field.len(),
    ensures
        is_field_path(field.skip(before_dot(field) as int + 1)),
        before_dot(field) > 0,
{
    names_end_at_dots(field);
    let n = before_dot(field) as int;
    let rest = field.skip(n + 1);
    assert(field[n] == '.');
    assert(field.last() == field[field.len() - 1]);
    assert(rest.len() > 0);
    assert(!(field[n] == '.' && field[n + 1] == '.'));
    assert(rest[0] == field[n + 1]);
    assert(rest.last() == field.last());
    assert forall|i: int| 0 <= i < rest.len() implies is_path_char(#[trigger] rest[i]) by {
        assert(rest[i] == field[i + n + 1]);
    }
    assert forall|i: int| 0 <= i < rest.len() - 1 implies !(#[trigger] rest[i] == '.' && rest[i + 1]
        == '.') by {
        assert(rest[i] == field[i + n + 1]);
        assert(rest[i + 1] == field[i + n + 2]);
    }
}

/// Following the steps of a field path is going from name to name.
proof fn steps_are_names(tree: Tree, field: Seq<char>)
    requires
        is_field_path(field),
    ensures
        followed(tree, seq!['.'] + field) == reached(tree, names_in(field)),
    decreases field.len(),
{
    let steps = seq!['.'] + field;
    let n = before_dot(field) as int;
    names_end_at_dots(field);
    assert(is_path_char(field[0]));
    assert(steps[1] == field[0]);
    assert(steps.skip(1) =~= field);
    assert(steps.subrange(1, n + 1) =~= field.take(n));
    let names = names_in(field);
    if n == field.len() {
        assert(field.take(n) =~= field);
        assert(steps.skip(n + 1) =~= Seq::<char>::empty());
        assert(names =~= seq![field]);
        assert(names.skip(1) =~= Seq::<Seq<char>>::empty());
        match member_of(tree, field) {
            Some(next) => {
                assert(followed(next, Seq::<char>::empty()) == Some(next));
                assert(reached(next, Seq::<Seq<char>>::empty()) == Some(next));
            },
            None => {},
        }
    } else {
        the_rest_is_a_path(field);
        let rest = field.skip(n + 1);
        assert(steps.skip(n + 1) =~= seq!['.'] + rest) by {
            assert(field[n] == '.');
        }
        assert(names =~= seq![field.take(n)] + names_in(rest));
        assert(names[0] == field.take(n));
        assert(names.skip(1) =~= names_in(rest));
        match member_of(tree, field.take(n)) {
            Some(next) => steps_are_names(next, rest),
            None => {},
        }
    }
}

/// The path that is bound for a field goes from member to member: what it selects
/// from a document is what the names between the dots lead to, one after the other.
pub proof fn a_path_goes_from_member_to_member(tree: Tree, field: Seq<char>)
    requires
        is_field_path(field),
    ensures
        path_param(field) == ParamView::Text(path_text(field)),
        selected(tree, path_text(field)) == reached(tree, names_in(field)),
{
    reveal_strlit("$.");
    let path = path_text(field);
    assert(path.skip(1) =~= seq!['.'] + field);
    steps_are_names(tree, field);
}

/// A field without dots is a member of the document.
pub proof fn a_plain_field_is_a_member(tree: Tree, name: Seq<char>)
    requires
        is_field_path(name),
        forall|i: int| 0 <= i < name.len() ==> #[trigger] name[i] != '.',
    ensures
        selected(tree, path_text(name)) == member_of(tree, name),
{
    a_path_goes_from_member_to_member(tree, name);
    names_end_at_dots(name);
    assert(before_dot(name) == name.len());
    let names = names_in(name);
    assert(names =~= seq![name]);
    assert(names.skip(1) =~= Seq::<Seq<char>>::empty());
    match member_of(tree, name) {
        Some(next) => assert(reached(next, Seq::<Seq<char>>::empty()) == Some(next)),
        None => {},
    }
}

/// The first name of a path that starts with the name `first`.
proof fn the_first_name(first: Seq<char>, rest: Seq<char>)
    requires
        forall|i: int| 0 <= i < first.len() ==> #[trigger] first[i] != '.',
    ensures
        before_dot(first + seq!['.'] + rest) == first.len(),
    decreases first.len(),
{
    let field = first + seq!['.'] + rest;
    if first.len() > 0 {
        let shorter = first.skip(1);
        assert forall|i: int| 0 <= i < shorter.len() implies #[trigger] shorter[i] != '.' by {
            assert(shorter[i] == first[i + 1]);
        }
        the_first_name(shorter, rest);
        assert(field[0] == first[0]);
        assert(field.skip(1) =~= shorter + seq!['.'] + rest);
    } else {
        assert(field[0] == '.');
    }
}

/// A dot is a step: the field `name.rest` is the field `rest` of the member `name`.
pub proof fn a_dot_is_a_step(tree: Tree, name: Seq<char>, rest: Seq<char>)
    requires
        is_field_path(name),
        is_field_path(rest),
        forall|i: int| 0 <= i < name.len() ==> #[trigger] name[i] != '.',
    ensures
        is_field_path(name + seq!['.'] + rest),
        selected(tree, path_text(name + seq!['.'] + rest)) == match member_of(tree, name) {
            Some(next) => selected(next, path_text(rest)),
            None => None,
        },
{
    let field = name + seq!['.'] + rest;
    let n = name.len() as int;
    assert forall|i: int| 0 <= i < field.len() implies is_path_char(#[trigger] field[i]) by {
        if i < n {
            assert(field[i] == name[i]);
        } else if i > n {
            assert(field[i] == rest[i - n - 1]);
        }
    }
    assert(field[0] == name[0]);
    assert(field.last() == rest.last());
    assert forall|i: int| 0 <= i < field.len() - 1 implies !(#[trigger] field[i] == '.' && field[i
        + 1] == '.') by {
        if i < n {
            assert(field[i] == name[i]);
        } else if i == n {
            assert(field[i + 1] == rest[0]);
        } else {
            assert(field[i] == rest[i - n - 1]);
            assert(field[i + 1] == rest[i - n]);
        }
    }
    the_first_name(name, rest);
    assert(field.take(n) =~= name);
    assert(field.skip(n + 1) =~= rest);
    let names = names_in(field);
    assert(names =~= seq![name] + names_in(rest));
    assert(names.skip(1) =~= names_in(rest));
    a_path_goes_from_member_to_member(tree, field);
    match member_of(tree, name) {
        Some(next) => a_path_goes_from_member_to_member(next, rest),
        None => {},
    }
}

/// An escaped name ends at the quotation mark that follows it, and stands for the
/// name.
proof fn escaped_names_are_read_back(name: Seq<char>, after: Seq<char>)
    ensures
        quoted_len(escaped(name) + seq!['"'] + after) == escaped(name).len(),
        unescaped(escaped(name)) == name,
    decreases name.len(),
{
    escape_from_the_front(name);
    let text = escaped(name) + seq!['"'] + after;
    if name.len() == 0 {
        assert(text[0] == '"');
        assert(unescaped(escaped(name)) =~= name);
    } else {
        let rest = name.skip(1);
        escaped_names_are_read_back(rest, after);
        let c = name[0];
        assert(name =~= seq![c] + rest);
        if c == '\\' || c == '"' {
            assert(escaped(name) =~= seq!['\\', c] + escaped(rest));
            assert(text.skip(2) =~= escaped(rest) + seq!['"'] + after);
            assert(text[0] == '\\' && text[1] == c);
            assert(escaped(name).skip(2) =~= escaped(rest));
            assert(escaped(name)[0] == '\\' && escaped(name)[1] == c);
        } else {
            assert(escaped(name) =~= seq![c] + escaped(rest));
            assert(text.skip(1) =~= escaped(rest) + seq!['"'] + after);
            assert(text[0] == c);
            assert(escaped(name).skip(1) =~= escaped(rest));
            assert(escaped(name)[0] == c);
        }
        assert(unescaped(escaped(name)) =~= name);
    }
}

/// Escaping goes character by character.
proof fn escape_from_the_front(name: Seq<char>)
    ensures
        name.len() > 0 ==> escaped(name) == (if name[0] == '\\' || name[0] == '"' {
            seq!['\\', name[0]]
        } else {
            seq![name[0]]
        }) + escaped(name.skip(1)),
    decreases name.len(),
{
    if name.len() == 1 {
        assert(name.drop_last() =~= Seq::<char>::empty());
        assert(name.skip(1) =~= Seq::<char>::empty());
        assert(escaped(Seq::<char>::empty()) =~= Seq::<char>::empty());
        assert(name.last() == name[0]);
        let first = if name[0] == '\\' || name[0] == '"' {
            seq!['\\', name[0]]
        } else {
            seq![name[0]]
        };
        assert(escaped(name) =~= first + escaped(name.skip(1)));
    } else if name.len() > 1 {
        escape_from_the_front(name.drop_last());
        assert(name.drop_last().skip(1) =~= name.skip(1).drop_last());
        assert(name.skip(1).last() == name.last());
        assert(name.drop_last()[0] == name[0]);
        let first = if name[0] == '\\' || name[0] == '"' {
            seq!['\\', name[0]]
        } else {
            seq![name[0]]
        };
        assert(escaped(name) =~= first + escaped(name.skip(1)));
    }
}

/// The path for a member of an attribution selects that member, whatever its name
/// holds: a dot in it is no step, and a quotation mark does not end it.
pub proof fn a_member_path_selects_the_member(tree: Tree, name: Seq<char>)
    ensures
        selected(tree, member_path(name)) == member_of(tree, name),
{
    reveal_strlit("$.\"");
    reveal_strlit("\"");
    let path = member_path(name);
    let steps = path.skip(1);
    let body = escaped(name);
    escaped_names_are_read_back(name, Seq::empty());
    assert(path =~= seq!['$', '.', '"'] + body + seq!['"']);
    assert(steps =~= seq!['.', '"'] + body + seq!['"']);
    assert(steps.skip(2) =~= body + seq!['"'] + Seq::<char>::empty());
    let n = body.len() as int;
    assert(steps.subrange(2, n + 2) =~= body);
    assert(steps.skip(n + 3) =~= Seq::<char>::empty());
    match member_of(tree, name) {
        Some(next) => assert(followed(next, Seq::<char>::empty()) == Some(next)),
        None => {},
    }
}

/// Whether `name` may stand between the dots of a field path: letters, digits and
/// underscores, at least one.
pub open spec fn is_name(name: Seq<char>) -> bool {
    &&& name.len() > 0
    &&& forall|i: int|
        0 <= i < name.len() ==> {
            let c = #[trigger] name[i];
            ||| 'a' as int <= c as int && c as int <= 'z' as int
            ||| 'A' as int <= c as int && c as int <= 'Z' as int
            ||| '0' as int <= c as int && c as int <= '9' as int
            ||| c == '_'
        }
}

/// A field path is made of names with a dot between each two, and everything that is
/// made so is a field path.
pub proof fn a_field_path_is_names_between_dots(field: Seq<char>)
    ensures
        is_field_path(field) <==> forall|i: int|
            0 <= i < names_in(field).len() ==> is_name(#[trigger] names_in(field)[i]),
    decreases field.len(),
{
    dots_part_names(field);
    let n = before_dot(field) as int;
    let names = names_in(field);
    if n == field.len() {
        assert(names =~= seq![field]);
        if is_field_path(field) {
            assert forall|i: int| 0 <= i < names.len() implies is_name(#[trigger] names[i]) by {
                assert forall|k: int| 0 <= k < field.len() implies is_path_char(
                    #[trigger] field[k],
                ) && field[k] != '.' by {}
            }
        }
        if is_name(names[0]) {
            assert forall|k: int| 0 <= k < field.len() implies is_path_char(#[trigger] field[k])
                && field[k] != '.' by {
                assert(names[0][k] == field[k]);
            }
            assert(field.last() == field[field.len() - 1]);
        }
    } else {
        let first = field.take(n);
        let rest = field.skip(n + 1);
        a_field_path_is_names_between_dots(rest);
        assert(names =~= seq![first] + names_in(rest));
        if is_field_path(field) {
            the_rest_is_a_path(field);
            assert forall|i: int| 0 <= i < names.len() implies is_name(#[trigger] names[i]) by {
                if i == 0 {
                    assert forall|k: int| 0 <= k < first.len() implies is_path_char(
                        #[trigger] first[k],
                    ) && first[k] != '.' by {
                        assert(first[k] == field[k]);
                    }
                } else {
                    assert(names[i] == names_in(rest)[i - 1]);
                }
            }
        }
        if forall|i: int| 0 <= i < names.len() ==> is_name(#[trigger] names[i]) {
            assert forall|i: int| 0 <= i < names_in(rest).len() implies is_name(
                #[trigger] names_in(rest)[i],
            ) by {
                assert(names_in(rest)[i] == names[i + 1]);
            }
            assert(is_name(names[0]));
            assert(is_field_path(rest));
            assert(n > 0);
            assert forall|k: int| 0 <= k < field.len() implies is_path_char(#[trigger] field[k]) by {
                if k < n {
                    assert(field[k] == first[k]);
                } else if k > n {
                    assert(field[k] == rest[k - n - 1]);
                }
            }
            assert(field.last() == rest.last());
            assert forall|k: int| 0 <= k < field.len() - 1 implies !(#[trigger] field[k] == '.'
                && field[k + 1] == '.') by {
                if k < n {
                } else if k == n {
                    assert(field[k + 1] == rest[0]);
                } else {
                    assert(field[k] == rest[k - n - 1]);
                    assert(field[k + 1] == rest[k - n]);
                }
            }
        }
    }
}

/// The first name goes up to the first dot.
proof fn dots_part_names(field: Seq<char>)
    ensures
        before_dot(field) <= field.len(),
        forall|i: int| 0 <= i < before_dot(field) ==> #[trigger] field[i] != '.',
        before_dot(field) < field.len() ==> field[before_dot(field) as int] == '.',
    decreases field.len(),
{
    if field.len() > 0 && field[0] != '.' {
        let rest = field.skip(1);
        dots_part_names(rest);
        assert forall|i: int| 0 <= i < before_dot(field) implies #[trigger] field[i] != '.' by {
            if i > 0 {
                assert(field[i] == rest[i - 1]);
            }
        }
        if before_dot(field) < field.len() {
            assert(field[before_dot(field) as int] == rest[before_dot(rest) as int]);
        }
    }
}

} // verus!
