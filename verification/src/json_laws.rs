//! Which JSON texts are read back as they are.
use vstd::prelude::*;

use crate::json::{
    comma_joined, is_exact, is_exact_at, json_char, json_chars, json_string,
    patch_of_operations, scan_start, scan_step, scanned, Scan,
};
use crate::patch::{add_text, remove_text, replace_text};
use crate::text::{decimal, digit};

verus! {

/// One character more.
proof fn one_more(at: Scan, text: Seq<char>, c: char)
    ensures
        scanned(at, text.push(c)) == scan_step(scanned(at, text), c),
{
    assert(text.push(c).drop_last() =~= text);
}

/// A text of one character.
proof fn just_one(at: Scan, c: char)
    ensures
        scanned(at, seq![c]) == scan_step(at, c),
{
    one_more(at, Seq::empty(), c);
    assert(Seq::<char>::empty().push(c) =~= seq![c]);
}

/// Two texts, one after the other.
proof fn one_after_the_other(at: Scan, a: Seq<char>, b: Seq<char>)
    ensures
        scanned(at, a + b) == scanned(scanned(at, a), b),
    decreases b.len(),
{
    if b.len() == 0 {
        assert(a + b =~= a);
    } else {
        one_after_the_other(at, a, b.drop_last());
        assert((a + b).drop_last() =~= a + b.drop_last());
    }
}

/// A character of a string, escaped where that is due, stays inside the string.
proof fn a_character_stays_inside(at: Scan, c: char)
    requires
        at.quoted,
        !at.escaped,
        !at.digit,
    ensures
        scanned(at, json_char(c)) == at,
{
    let text = json_char(c);
    if text.len() == 1 {
        assert(text =~= seq![c]);
        just_one(at, c);
    } else if text.len() == 2 {
        just_one(at, text[0]);
        one_more(at, seq![text[0]], text[1]);
        assert(text =~= seq![text[0]].push(text[1]));
    } else {
        let one = seq![text[0]];
        let two = one.push(text[1]);
        let three = two.push(text[2]);
        let four = three.push(text[3]);
        let five = four.push(text[4]);
        just_one(at, text[0]);
        one_more(at, one, text[1]);
        one_more(at, two, text[2]);
        one_more(at, three, text[3]);
        one_more(at, four, text[4]);
        one_more(at, five, text[5]);
        assert(text =~= five.push(text[5]));
    }
}

proof fn characters_stay_inside(at: Scan, s: Seq<char>)
    requires
        at.quoted,
        !at.escaped,
        !at.digit,
    ensures
        scanned(at, json_chars(s)) == at,
    decreases s.len(),
{
    if s.len() > 0 {
        characters_stay_inside(at, s.drop_last());
        one_after_the_other(at, json_chars(s.drop_last()), json_char(s.last()));
        a_character_stays_inside(at, s.last());
    }
}

/// A string is passed over, whatever it holds.
proof fn a_string_is_passed_over(at: Scan, s: Seq<char>)
    requires
        !at.quoted,
        !at.escaped,
    ensures
        scanned(at, json_string(s)) == (Scan { digit: false, ..at }),
{
    let inside = scan_step(at, '"');
    just_one(at, '"');
    characters_stay_inside(inside, s);
    one_after_the_other(at, seq!['"'], json_chars(s));
    one_after_the_other(at, seq!['"'] + json_chars(s), seq!['"']);
    just_one(inside, '"');
}

/// A numeral is passed over.
proof fn a_numeral_is_passed_over(at: Scan, n: nat)
    requires
        !at.quoted,
        !at.escaped,
    ensures
        scanned(at, decimal(n)) == (Scan { digit: true, ..at }),
    decreases n,
{
    if n < 10 {
        just_one(at, digit(n));
    } else {
        a_numeral_is_passed_over(at, n / 10);
        one_more(at, decimal(n / 10), digit(n % 10));
    }
}

/// A string is read back, whatever it holds: a full stop in it is no fraction, and
/// a bracket in it opens nothing.
pub proof fn strings_are_exact(s: Seq<char>, depth: int)
    ensures
        is_exact_at(json_string(s), depth),
{
    a_string_is_passed_over(scan_start(depth), s);
}

/// A whole number is read back.
pub proof fn whole_numbers_are_exact(n: nat, depth: int)
    ensures
        is_exact_at(decimal(n), depth),
{
    a_numeral_is_passed_over(scan_start(depth), n);
}

/// The constants are read back, and so is what is empty.
pub proof fn constants_are_exact()
    ensures
        is_exact("null"@),
        is_exact("true"@),
        is_exact("false"@),
        is_exact("{}"@),
        is_exact("[]"@),
{
    reveal_strlit("null");
    reveal_strlit("true");
    reveal_strlit("false");
    reveal_strlit("{}");
    reveal_strlit("[]");
    let at = scan_start(0);
    assert("null"@ =~= seq!['n'].push('u').push('l').push('l'));
    just_one(at, 'n');
    one_more(at, seq!['n'], 'u');
    one_more(at, seq!['n'].push('u'), 'l');
    one_more(at, seq!['n'].push('u').push('l'), 'l');
    assert("true"@ =~= seq!['t'].push('r').push('u').push('e'));
    just_one(at, 't');
    one_more(at, seq!['t'], 'r');
    one_more(at, seq!['t'].push('r'), 'u');
    one_more(at, seq!['t'].push('r').push('u'), 'e');
    assert("false"@ =~= seq!['f'].push('a').push('l').push('s').push('e'));
    just_one(at, 'f');
    one_more(at, seq!['f'], 'a');
    one_more(at, seq!['f'].push('a'), 'l');
    one_more(at, seq!['f'].push('a').push('l'), 's');
    one_more(at, seq!['f'].push('a').push('l').push('s'), 'e');
    assert("{}"@ =~= seq!['{'].push('}'));
    just_one(at, '{');
    one_more(at, seq!['{'], '}');
    assert("[]"@ =~= seq!['['].push(']'));
    just_one(at, '[');
    one_more(at, seq!['['], ']');
}

/// An object with one member is read back, if the member is.
pub proof fn an_object_is_as_exact_as_its_member(key: Seq<char>, member: Seq<char>, depth: int)
    requires
        depth + 1 < 128,
        is_exact_at(member, depth + 1),
    ensures
        is_exact_at(seq!['{'] + json_string(key) + seq![':'] + member + seq!['}'], depth),
{
    let at = scan_start(depth);
    let a = seq!['{'];
    let b = a + json_string(key);
    let c = b + seq![':'];
    let d = c + member;
    just_one(at, '{');
    one_after_the_other(at, a, json_string(key));
    a_string_is_passed_over(scanned(at, a), key);
    one_after_the_other(at, b, seq![':']);
    just_one(scanned(at, b), ':');
    assert(scanned(at, c) == scan_start(depth + 1));
    one_after_the_other(at, c, member);
    one_after_the_other(at, d, seq!['}']);
    just_one(scanned(at, d), '}');
}

/// The attributions that the store writes by itself, an object with a number, are
/// read back.
pub proof fn an_object_with_a_number_is_exact(key: Seq<char>, n: nat)
    ensures
        is_exact(seq!['{'] + json_string(key) + seq![':'] + decimal(n) + seq!['}']),
{
    whole_numbers_are_exact(n, 1);
    an_object_is_as_exact_as_its_member(key, decimal(n), 0);
}

/// A text without anything to escape is quoted as it is.
proof fn plain_characters_stay(s: Seq<char>)
    requires
        forall|i: int|
            0 <= i < s.len() ==> (#[trigger] s[i]) as nat >= 32 && s[i] != '"' && s[i] != '\\',
    ensures
        json_chars(s) == s,
    decreases s.len(),
{
    if s.len() > 0 {
        plain_characters_stay(s.drop_last());
        assert(json_char(s.last()) =~= seq![s.last()]);
        assert(s.drop_last() + seq![s.last()] =~= s);
    } else {
        assert(json_chars(s) =~= s);
    }
}

/// Up to the path of an operation `word`.
proof fn an_operation_starts(start: Seq<char>, word: Seq<char>, path: Seq<char>, depth: int)
    requires
        depth + 1 < 128,
        start == seq!['{'] + json_string("op"@) + seq![':'] + json_string(word) + seq![',']
            + json_string("path"@) + seq![':'],
    ensures
        scanned(scan_start(depth), start + json_string(path)) == scan_start(depth + 1),
{
    let at = scan_start(depth);
    let inside = scan_start(depth + 1);
    let a = seq!['{'];
    let b = a + json_string("op"@);
    let c = b + seq![':'];
    let d = c + json_string(word);
    let e = d + seq![','];
    let f = e + json_string("path"@);
    just_one(at, '{');
    one_after_the_other(at, a, json_string("op"@));
    a_string_is_passed_over(inside, "op"@);
    one_after_the_other(at, b, seq![':']);
    just_one(inside, ':');
    one_after_the_other(at, c, json_string(word));
    a_string_is_passed_over(inside, word);
    one_after_the_other(at, d, seq![',']);
    just_one(inside, ',');
    one_after_the_other(at, e, json_string("path"@));
    a_string_is_passed_over(inside, "path"@);
    one_after_the_other(at, f, seq![':']);
    one_after_the_other(at, start, json_string(path));
    a_string_is_passed_over(inside, path);
}

/// The value of an operation, and its end.
proof fn an_operation_ends(before: Seq<char>, value: Seq<char>, depth: int)
    requires
        depth + 1 < 128,
        is_exact_at(value, depth + 1),
        scanned(scan_start(depth), before) == scan_start(depth + 1),
    ensures
        is_exact_at(before + ",\"value\":"@ + value + seq!['}'], depth),
{
    let at = scan_start(depth);
    let inside = scan_start(depth + 1);
    reveal_strlit(",\"value\":");
    reveal_strlit("value");
    plain_characters_stay("value"@);
    let middle = ",\"value\":"@;
    assert(middle =~= seq![','] + json_string("value"@) + seq![':']);
    just_one(inside, ',');
    one_after_the_other(inside, seq![','], json_string("value"@));
    a_string_is_passed_over(inside, "value"@);
    one_after_the_other(inside, seq![','] + json_string("value"@), seq![':']);
    just_one(inside, ':');
    assert(scanned(inside, middle) == inside);
    one_after_the_other(at, before, middle);
    one_after_the_other(at, before + middle, value);
    one_after_the_other(at, before + middle + value, seq!['}']);
    just_one(scanned(at, before + middle + value), '}');
}

/// An operation is read back, if its value is.
pub proof fn operations_are_as_exact_as_their_values(path: Seq<char>, value: Seq<char>, depth: int)
    requires
        depth + 1 < 128,
    ensures
        is_exact_at(value, depth + 1) ==> is_exact_at(add_text(path, value), depth),
        is_exact_at(value, depth + 1) ==> is_exact_at(replace_text(path, value), depth),
        is_exact_at(remove_text(path), depth),
{
    reveal_strlit("op");
    reveal_strlit("path");
    reveal_strlit("add");
    reveal_strlit("replace");
    reveal_strlit("remove");
    reveal_strlit("{\"op\":\"add\",\"path\":");
    reveal_strlit("{\"op\":\"replace\",\"path\":");
    reveal_strlit("{\"op\":\"remove\",\"path\":");
    plain_characters_stay("op"@);
    plain_characters_stay("path"@);
    plain_characters_stay("add"@);
    plain_characters_stay("replace"@);
    plain_characters_stay("remove"@);
    let head = seq!['{'] + json_string("op"@) + seq![':'];
    let tail = seq![','] + json_string("path"@) + seq![':'];
    let add = "{\"op\":\"add\",\"path\":"@;
    let replace = "{\"op\":\"replace\",\"path\":"@;
    let remove = "{\"op\":\"remove\",\"path\":"@;
    assert(add =~= head + json_string("add"@) + seq![','] + json_string("path"@) + seq![':']);
    assert(replace =~= head + json_string("replace"@) + seq![','] + json_string("path"@)
        + seq![':']);
    assert(remove =~= head + json_string("remove"@) + seq![','] + json_string("path"@)
        + seq![':']);
    an_operation_starts(add, "add"@, path, depth);
    an_operation_starts(replace, "replace"@, path, depth);
    an_operation_starts(remove, "remove"@, path, depth);
    if is_exact_at(value, depth + 1) {
        an_operation_ends(add + json_string(path), value, depth);
        an_operation_ends(replace + json_string(path), value, depth);
    }
    let at = scan_start(depth);
    one_after_the_other(at, remove + json_string(path), seq!['}']);
    just_one(scan_start(depth + 1), '}');
}

/// Texts with commas between them.
proof fn joined_texts_are_exact(ops: Seq<Seq<char>>, depth: int)
    requires
        forall|i: int| 0 <= i < ops.len() ==> is_exact_at(#[trigger] ops[i], depth),
    ensures
        is_exact_at(comma_joined(ops), depth),
    decreases ops.len(),
{
    let at = scan_start(depth);
    if ops.len() > 1 {
        let rest = comma_joined(ops.drop_last());
        assert forall|i: int| 0 <= i < ops.drop_last().len() implies is_exact_at(
            #[trigger] ops.drop_last()[i],
            depth,
        ) by {
            assert(ops.drop_last()[i] == ops[i]);
        }
        joined_texts_are_exact(ops.drop_last(), depth);
        one_after_the_other(at, rest, seq![',']);
        just_one(scanned(at, rest), ',');
        one_after_the_other(at, rest + seq![','], ops.last());
        assert(is_exact_at(ops[ops.len() - 1], depth));
    } else if ops.len() == 1 {
        assert(is_exact_at(ops[0], depth));
    }
}

/// A patch is read back, if its operations are. One without operations is.
pub proof fn patches_are_as_exact_as_their_operations(ops: Seq<Seq<char>>)
    requires
        forall|i: int| 0 <= i < ops.len() ==> is_exact_at(#[trigger] ops[i], 1),
    ensures
        is_exact(patch_of_operations(ops)),
{
    let at = scan_start(0);
    joined_texts_are_exact(ops, 1);
    just_one(at, '[');
    one_after_the_other(at, seq!['['], comma_joined(ops));
    one_after_the_other(at, seq!['['] + comma_joined(ops), seq![']']);
    just_one(scanned(scan_start(1), comma_joined(ops)), ']');
}

} // verus!
