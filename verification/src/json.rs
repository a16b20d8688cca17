//! JSON documents and JSON Patches.
//!
//! The values themselves are those of `serde_json` and `json_patch`. Contracts
//! speak of a document by its compact JSON text, which tells any two documents
//! apart, and of what the two crates compute by a name over such texts.
use vstd::prelude::*;

use crate::text::{decimal, digit};

verus! {

/// A JSON document of `serde_json`.
#[verifier::external_type_specification]
#[verifier::external_body]
pub struct ExValue(serde_json::Value);

/// An RFC 6902 patch of `json_patch`.
#[verifier::external_type_specification]
#[verifier::external_body]
pub struct ExPatch(json_patch::Patch);

/// One operation of an RFC 6902 patch.
#[verifier::external_type_specification]
#[verifier::external_body]
pub struct ExPatchOperation(json_patch::PatchOperation);

/// The compact JSON text of a document, as `serde_json` writes it.
pub uninterp spec fn json_text(v: serde_json::Value) -> Seq<char>;

/// The compact JSON text of a patch, as `serde_json` writes it.
pub uninterp spec fn patch_text(p: json_patch::Patch) -> Seq<char>;

/// The compact JSON text of one patch operation, as `serde_json` writes it.
pub uninterp spec fn operation_text(op: json_patch::PatchOperation) -> Seq<char>;

/// What applying `patch` to `doc` yields: the resulting document, or the
/// message of the failure. The arguments and the result are JSON texts.
pub uninterp spec fn patched(doc: Seq<char>, patch: Seq<char>) -> Result<Seq<char>, Seq<char>>;

/// The patch that `json_patch` computes to lead from one document to another.
pub uninterp spec fn diffed(from: Seq<char>, to: Seq<char>) -> Seq<char>;

/// Whether `serde_json` holds two documents to be equal.
pub uninterp spec fn same_json(a: Seq<char>, b: Seq<char>) -> bool;

/// The member `key` of an object; `None` for any other document and for an
/// object without that key.
pub uninterp spec fn json_member(doc: Seq<char>, key: Seq<char>) -> Option<Seq<char>>;

/// The object `doc` with its member `key` set to `member`.
pub uninterp spec fn with_member(doc: Seq<char>, key: Seq<char>, member: Seq<char>) -> Seq<char>;

/// A hexadecimal digit, in lower case.
pub open spec fn hex_digit(n: nat) -> char {
    if n < 10 {
        digit(n)
    } else if n == 10 {
        'a'
    } else if n == 11 {
        'b'
    } else if n == 12 {
        'c'
    } else if n == 13 {
        'd'
    } else if n == 14 {
        'e'
    } else {
        'f'
    }
}

/// `c` as it stands in a JSON string. Quotation marks, backslashes and control
/// characters are escaped, the latter by their short names where they have one.
pub open spec fn json_char(c: char) -> Seq<char> {
    if c == '"' || c == '\\' {
        seq!['\\', c]
    } else if c == '\u{8}' {
        seq!['\\', 'b']
    } else if c == '\t' {
        seq!['\\', 't']
    } else if c == '\n' {
        seq!['\\', 'n']
    } else if c == '\u{c}' {
        seq!['\\', 'f']
    } else if c == '\r' {
        seq!['\\', 'r']
    } else if (c as nat) < 32 {
        seq![
            '\\',
            'u',
            '0',
            '0',
            hex_digit((c as nat) / 16),
            hex_digit((c as nat) % 16),
        ]
    } else {
        seq![c]
    }
}

/// The characters of `s` as they stand in a JSON string.
pub open spec fn json_chars(s: Seq<char>) -> Seq<char>
    decreases s.len(),
{
    if s.len() == 0 {
        Seq::empty()
    } else {
        json_chars(s.drop_last()) + json_char(s.last())
    }
}

/// `s` as a JSON string, the way `serde_json` writes it: quoted, and escaped where
/// JSON demands it.
pub open spec fn json_string(s: Seq<char>) -> Seq<char> {
    seq!['"'] + json_chars(s) + seq!['"']
}

/// Whether a JSON text is that of an object.
pub open spec fn is_object_text(doc: Seq<char>) -> bool {
    doc.len() > 0 && doc[0] == '{'
}

/// Whether `path` is an RFC 6901 pointer: empty, or led by a slash, with every
/// tilde starting one of the escapes `~0` and `~1`.
pub open spec fn valid_pointer(path: Seq<char>) -> bool {
    &&& path.len() == 0 || path[0] == '/'
    &&& forall|i: int|
        0 <= i < path.len() && #[trigger] path[i] == '~' ==> i + 1 < path.len() && (path[i + 1]
            == '0' || path[i + 1] == '1')
}

/// The texts in `parts`, separated by commas.
pub open spec fn comma_joined(parts: Seq<Seq<char>>) -> Seq<char>
    decreases parts.len(),
{
    if parts.len() == 0 {
        Seq::empty()
    } else if parts.len() == 1 {
        parts[0]
    } else {
        comma_joined(parts.drop_last()) + seq![','] + parts.last()
    }
}

/// The text of the patch that holds the operations with the given texts.
pub open spec fn patch_of_operations(ops: Seq<Seq<char>>) -> Seq<char> {
    seq!['['] + comma_joined(ops) + seq![']']
}

/// The texts of the operations in `ops`.
pub open spec fn operation_texts(ops: Seq<json_patch::PatchOperation>) -> Seq<Seq<char>> {
    ops.map_values(|op: json_patch::PatchOperation| operation_text(op))
}

/// `patch` applies to `from`, and the result is equal to `to`.
pub open spec fn leads_to(from: Seq<char>, patch: Seq<char>, to: Seq<char>) -> bool {
    match patched(from, patch) {
        Ok(reached) => same_json(reached, to),
        Err(_) => false,
    }
}

/// `patch` applies to every document that is equal to `from`, and the result is
/// equal to `to`.
pub open spec fn leads_from_equals_to(from: Seq<char>, patch: Seq<char>, to: Seq<char>) -> bool {
    forall|other: Seq<char>| #[trigger] same_json(other, from) ==> leads_to(other, patch, to)
}

/// The same documents are equal to `a` and to `b`.
pub open spec fn equal_to_the_same(a: Seq<char>, b: Seq<char>) -> bool {
    forall|other: Seq<char>|
        #![trigger same_json(other, a)]
        #![trigger same_json(other, b)]
        same_json(other, a) == same_json(other, b)
}

/// `patch` applies to every document and leaves it as it is.
pub open spec fn changes_nothing(patch: Seq<char>) -> bool {
    forall|doc: Seq<char>| #[trigger] patched(doc, patch) == Ok::<Seq<char>, Seq<char>>(doc)
}

/// `patch` applies to every document and puts `whole` in its place.
pub open spec fn puts_document(patch: Seq<char>, whole: Seq<char>) -> bool {
    forall|doc: Seq<char>| #[trigger] patched(doc, patch) == Ok::<Seq<char>, Seq<char>>(whole)
}

/// `json_patch::patch_unsafe`, on a copy of `doc`: the patched copy, or the
/// failure as `PatchError` displays it. The copy is dropped on failure, so the
/// rollback that `json_patch::patch` adds has nothing to restore.
#[verifier::external_body]
pub(crate) fn apply_patch(doc: &serde_json::Value, patch: &json_patch::Patch) -> (r: Result<
    serde_json::Value,
    String,
>)
    ensures
        match r {
            Ok(next) => patched(json_text(*doc), patch_text(*patch)) == Ok::<Seq<char>, Seq<char>>(
                json_text(next),
            ),
            Err(e) => patched(json_text(*doc), patch_text(*patch)) == Err::<Seq<char>, Seq<char>>(
                e@,
            ),
        },
{
    let mut next = doc.clone();
    match json_patch::patch_unsafe(&mut next, patch) {
        Ok(()) => Ok(next),
        Err(e) => Err(e.to_string()),
    }
}

/// `json_patch::diff`: a patch that applies to `from`, and to every document equal
/// to it, and leads to a document equal to `to`. Equal as `serde_json` compares,
/// which does not tell negative zero from zero.
#[verifier::external_body]
pub(crate) fn diff(from: &serde_json::Value, to: &serde_json::Value) -> (r: json_patch::Patch)
    ensures
        patch_text(r) == diffed(json_text(*from), json_text(*to)),
        leads_to(json_text(*from), patch_text(r), json_text(*to)),
        leads_from_equals_to(json_text(*from), patch_text(r), json_text(*to)),
{
    json_patch::diff(from, to)
}

/// `Clone` of a `serde_json::Value`: the same document.
pub assume_specification[ <serde_json::Value as Clone>::clone ](v: &serde_json::Value) -> (r:
    serde_json::Value)
    ensures
        json_text(r) == json_text(*v),
;

/// `Clone` of a `json_patch::Patch`: the same operations.
pub assume_specification[ <json_patch::Patch as Clone>::clone ](p: &json_patch::Patch) -> (r:
    json_patch::Patch)
    ensures
        patch_text(r) == patch_text(*p),
;

/// `Clone` of a `json_patch::PatchOperation`: the same operation.
pub assume_specification[ <json_patch::PatchOperation as Clone>::clone ](
    op: &json_patch::PatchOperation,
) -> (r: json_patch::PatchOperation)
    ensures
        operation_text(r) == operation_text(*op),
;

/// `==` on `serde_json::Value`. Documents with one text are equal. Equality goes
/// both ways, and equal documents are equal to the same documents.
#[verifier::external_body]
pub(crate) fn same_value(a: &serde_json::Value, b: &serde_json::Value) -> (r: bool)
    ensures
        r == same_json(json_text(*a), json_text(*b)),
        json_text(*a) == json_text(*b) ==> r,
        r ==> same_json(json_text(*b), json_text(*a)),
        r ==> equal_to_the_same(json_text(*a), json_text(*b)),
{
    a == b
}

/// `serde_json::Value::get` with a string key.
#[verifier::external_body]
pub(crate) fn member<'a>(v: &'a serde_json::Value, key: &str) -> (r: Option<&'a serde_json::Value>)
    ensures
        match r {
            Some(m) => json_member(json_text(*v), key@) == Some(json_text(*m)),
            None => json_member(json_text(*v), key@) is None,
        },
{
    v.get(key)
}

/// `serde_json::Value::is_object`.
#[verifier::external_body]
pub(crate) fn is_object(v: &serde_json::Value) -> (r: bool)
    ensures
        r == is_object_text(json_text(*v)),
{
    v.is_object()
}

/// `serde_json::Value::Null`.
#[verifier::external_body]
pub(crate) fn null() -> (r: serde_json::Value)
    ensures
        json_text(r) == "null"@,
{
    serde_json::Value::Null
}

/// `serde_json::Map::new` as a document: the object without members.
#[verifier::external_body]
pub(crate) fn empty_object() -> (r: serde_json::Value)
    ensures
        json_text(r) == "{}"@,
        forall|key: Seq<char>| #[trigger] json_member(json_text(r), key) is None,
{
    serde_json::Value::Object(serde_json::Map::new())
}

/// `serde_json::Value::from` an unsigned number.
#[verifier::external_body]
pub(crate) fn number(n: u64) -> (r: serde_json::Value)
    ensures
        json_text(r) == decimal(n as nat),
{
    serde_json::Value::from(n)
}

/// `serde_json::Value::as_u64`: the number, when the document is one that a
/// `u64` holds and that is written without fraction and exponent.
#[verifier::external_body]
pub(crate) fn as_number(v: &serde_json::Value) -> (r: Option<u64>)
    ensures
        match r {
            Some(n) => json_text(*v) == decimal(n as nat),
            None => forall|n: u64| json_text(*v) != #[trigger] decimal(n as nat),
        },
{
    v.as_u64()
}

/// `serde_json::Map::insert` into an object: `key` now holds `member`, every
/// other key holds what it held.
#[verifier::external_body]
pub(crate) fn set_member(v: serde_json::Value, key: &str, member: serde_json::Value) -> (r:
    serde_json::Value)
    requires
        is_object_text(json_text(v)),
    ensures
        json_text(r) == with_member(json_text(v), key@, json_text(member)),
        is_object_text(json_text(r)),
        json_member(json_text(r), key@) == Some(json_text(member)),
        forall|other: Seq<char>|
            other != key@ ==> #[trigger] json_member(json_text(r), other) == json_member(
                json_text(v),
                other,
            ),
        json_text(v) == "{}"@ ==> json_text(r) == seq!['{'] + json_string(key@) + seq![':']
            + json_text(member) + seq!['}'],
{
    match v {
        serde_json::Value::Object(mut map) => {
            map.insert(key.to_string(), member);
            serde_json::Value::Object(map)
        }
        other => other,
    }
}

/// `Display` of a `serde_json::Value`: its compact JSON text.
#[verifier::external_body]
pub(crate) fn render(v: &serde_json::Value) -> (r: String)
    ensures
        r@ == json_text(*v),
{
    v.to_string()
}

/// `Display` of a `json_patch::Patch`: its compact JSON text.
#[verifier::external_body]
pub(crate) fn render_patch(p: &json_patch::Patch) -> (r: String)
    ensures
        r@ == patch_text(*p),
{
    p.to_string()
}

/// `json_patch::Patch` over a list of operations. A patch without operations
/// applies to every document and changes none.
#[verifier::external_body]
pub(crate) fn patch_of(ops: Vec<json_patch::PatchOperation>) -> (r: json_patch::Patch)
    ensures
        patch_text(r) == patch_of_operations(operation_texts(ops@)),
        ops@.len() == 0 ==> changes_nothing(patch_text(r)),
{
    json_patch::Patch(ops)
}

/// `json_patch::AddOperation` over a pointer that `jsonptr` parses. At the
/// empty pointer the operation puts `value` in place of the whole document.
#[verifier::external_body]
pub(crate) fn add_operation(path: &str, value: serde_json::Value) -> (r: json_patch::PatchOperation)
    requires
        valid_pointer(path@),
    ensures
        operation_text(r) == "{\"op\":\"add\",\"path\":"@ + json_string(path@) + ",\"value\":"@
            + json_text(value) + seq!['}'],
        path@.len() == 0 ==> puts_document(
            patch_of_operations(seq![operation_text(r)]),
            json_text(value),
        ),
{
    json_patch::PatchOperation::Add(json_patch::AddOperation {
        path: json_patch::jsonptr::PointerBuf::try_from(path).expect("a JSON Pointer"),
        value,
    })
}

/// `json_patch::ReplaceOperation` over a pointer that `jsonptr` parses.
#[verifier::external_body]
pub(crate) fn replace_operation(path: &str, value: serde_json::Value) -> (r:
    json_patch::PatchOperation)
    requires
        valid_pointer(path@),
    ensures
        operation_text(r) == "{\"op\":\"replace\",\"path\":"@ + json_string(path@) + ",\"value\":"@
            + json_text(value) + seq!['}'],
{
    json_patch::PatchOperation::Replace(json_patch::ReplaceOperation {
        path: json_patch::jsonptr::PointerBuf::try_from(path).expect("a JSON Pointer"),
        value,
    })
}

/// `json_patch::RemoveOperation` over a pointer that `jsonptr` parses.
#[verifier::external_body]
pub(crate) fn remove_operation(path: &str) -> (r: json_patch::PatchOperation)
    requires
        valid_pointer(path@),
    ensures
        operation_text(r) == "{\"op\":\"remove\",\"path\":"@ + json_string(path@) + seq!['}'],
{
    json_patch::PatchOperation::Remove(json_patch::RemoveOperation {
        path: json_patch::jsonptr::PointerBuf::try_from(path).expect("a JSON Pointer"),
    })
}

/// What parsing a text as a JSON document yields: the document, or the message
/// of the failure.
pub uninterp spec fn parsed(text: Seq<char>) -> Result<Seq<char>, Seq<char>>;

/// What parsing a text as a patch yields: the patch, or the message of the
/// failure.
pub uninterp spec fn parsed_patch(text: Seq<char>) -> Result<Seq<char>, Seq<char>>;

/// Whether `c` is a decimal digit.
pub open spec fn is_digit(c: char) -> bool {
    '0' <= c && c <= '9'
}

/// Where a reader of a JSON text stands.
pub struct Scan {
    /// Inside a string.
    pub quoted: bool,
    /// Right after the backslash of an escape.
    pub escaped: bool,
    /// Right after a digit of a number.
    pub digit: bool,
    /// How many arrays and objects are open.
    pub depth: int,
    /// Nothing so far that may be read back otherwise: no number with a fraction
    /// or an exponent, which may be rounded, and no nesting that is too deep.
    pub exact: bool,
}

/// Before the first character of a document that stands inside of `depth` arrays
/// and objects.
pub open spec fn scan_start(depth: int) -> Scan {
    Scan { quoted: false, escaped: false, digit: false, depth, exact: true }
}

/// One character on.
pub open spec fn scan_step(at: Scan, c: char) -> Scan {
    if at.quoted {
        Scan {
            quoted: at.escaped || c != '"',
            escaped: !at.escaped && c == '\\',
            digit: false,
            ..at
        }
    } else if c == '[' || c == '{' {
        Scan { digit: false, depth: at.depth + 1, exact: at.exact && at.depth + 1 < 128, ..at }
    } else if c == ']' || c == '}' {
        Scan { digit: false, depth: at.depth - 1, ..at }
    } else {
        Scan {
            quoted: c == '"',
            digit: is_digit(c),
            exact: at.exact && c != '.' && !(at.digit && c == 'e'),
            ..at
        }
    }
}

/// After all characters of `text`.
pub open spec fn scanned(at: Scan, text: Seq<char>) -> Scan
    decreases text.len(),
{
    if text.len() == 0 {
        at
    } else {
        scan_step(scanned(at, text.drop_last()), text.last())
    }
}

/// Whether parsing may be relied on to read a JSON text back as it is, where it
/// stands inside of `depth` arrays and objects: outside of strings it holds no
/// number with a fraction or an exponent, since those may be rounded, and nothing
/// is nested deeper than the parser goes.
pub open spec fn is_exact_at(text: Seq<char>, depth: int) -> bool {
    let end = scanned(scan_start(depth), text);
    end.exact && !end.quoted && !end.escaped && end.depth == depth
}

/// Whether parsing may be relied on to read a JSON text back as it is.
pub open spec fn is_exact(text: Seq<char>) -> bool {
    is_exact_at(text, 0)
}

/// What a parsed document says.
pub open spec fn value_result(r: Result<serde_json::Value, String>) -> Result<
    Seq<char>,
    Seq<char>,
> {
    match r {
        Ok(v) => Ok(json_text(v)),
        Err(e) => Err(e@),
    }
}

/// What a parsed patch says.
pub open spec fn patch_result(r: Result<json_patch::Patch, String>) -> Result<
    Seq<char>,
    Seq<char>,
> {
    match r {
        Ok(p) => Ok(patch_text(p)),
        Err(e) => Err(e@),
    }
}

/// The text of a document comes back as it is, where it is exact.
pub open spec fn reads_back(text: Seq<char>, found: Result<Seq<char>, Seq<char>>) -> bool {
    (exists|v: serde_json::Value| #[trigger] json_text(v) == text) && is_exact(text) ==> found
        == Ok::<Seq<char>, Seq<char>>(text)
}

/// The text of a patch comes back as it is, where it is exact.
pub open spec fn patch_reads_back(text: Seq<char>, found: Result<Seq<char>, Seq<char>>) -> bool {
    (exists|p: json_patch::Patch| #[trigger] patch_text(p) == text) && is_exact(text) ==> found
        == Ok::<Seq<char>, Seq<char>>(text)
}

/// `serde_json::from_str` to a `serde_json::Value`. A text that was written from
/// a document is read back, unless it holds a float, which may be off in its last
/// place, or is nested to the depth of 128, which is refused.
#[verifier::external_body]
pub(crate) fn parse(text: &str) -> (r: Result<serde_json::Value, String>)
    ensures
        value_result(r) == parsed(text@),
        reads_back(text@, value_result(r)),
{
    serde_json::from_str::<serde_json::Value>(text).map_err(|e| e.to_string())
}

/// `serde_json::from_str` to a `json_patch::Patch`. A text that was written from
/// a patch is read back, with the exceptions that [`parse`] has.
#[verifier::external_body]
pub(crate) fn parse_patch(text: &str) -> (r: Result<json_patch::Patch, String>)
    ensures
        patch_result(r) == parsed_patch(text@),
        patch_reads_back(text@, patch_result(r)),
{
    serde_json::from_str::<json_patch::Patch>(text).map_err(|e| e.to_string())
}

} // verus!
