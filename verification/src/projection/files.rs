//! One directory for each stream: a draft of its state, a file for each label, and
//! an archive of what the labels pointed at before.
use vstd::prelude::*;

use crate::error::{ErrorView, StoreError};
use crate::id::{Label, StreamId, Timestamp};
use crate::text::{
    chars_of, numerals_differ, quote, quoted, same_text, signed_decimal, signed_text,
};

verus! {

/// The file with the state of a stream.
pub const DRAFT_NAME: &'static str = "draft.md";

/// The directory with what labels pointed at before.
pub const ARCHIVE_NAME: &'static str = "_archive";

/// Whether `c` may not occur in a path component.
pub open spec fn is_forbidden(c: char) -> bool {
    c == '/' || c == '\\' || c == '\0'
}

/// Whether `raw` holds a character that a path component may not hold.
pub open spec fn has_forbidden(raw: Seq<char>) -> bool {
    exists|i: int| 0 <= i < raw.len() && is_forbidden(#[trigger] raw[i])
}

/// Whether there are two dots next to each other in `raw`, the first of them
/// before position `n`.
pub open spec fn has_two_dots(raw: Seq<char>, n: int) -> bool {
    exists|i: int|
        0 <= i < n && i + 1 < raw.len() && #[trigger] raw[i] == '.' && raw[i + 1] == '.'
}

/// What is wrong with `raw` as the name of a `kind`, if anything: it is empty, it
/// is a name that a directory has for itself or for its parent, it holds a
/// separator, or it holds the name of the parent.
pub open spec fn component_flaw(raw: Seq<char>, kind: Seq<char>) -> Option<Seq<char>> {
    if raw.len() == 0 {
        Some("empty "@ + kind + " name"@)
    } else if raw == "."@ || raw == ".."@ {
        Some("reserved "@ + kind + " name: "@ + quoted(raw))
    } else if has_forbidden(raw) {
        Some("invalid character in "@ + kind + " name: "@ + quoted(raw))
    } else if has_two_dots(raw, raw.len() as int) {
        Some("two dots in "@ + kind + " name: "@ + quoted(raw))
    } else {
        None
    }
}

/// Accept `raw` as a path component, as it is, or say what is wrong with it.
pub fn sanitize_component(raw: &str, kind: &str) -> (r: Result<String, StoreError>)
    ensures
        match component_flaw(raw@, kind@) {
            None => r matches Ok(name) && name@ == raw@,
            Some(words) => r matches Err(e) && e@ == ErrorView::Backend(words),
        },
{
    let chars = chars_of(raw);
    if chars.len() == 0 {
        let mut words = "empty ".to_owned();
        words.append(kind);
        words.append(" name");
        return Err(StoreError::Backend(words));
    }
    if same_text(raw, ".") || same_text(raw, "..") {
        let mut words = "reserved ".to_owned();
        words.append(kind);
        words.append(" name: ");
        words.append(quote(raw).as_str());
        return Err(StoreError::Backend(words));
    }
    let mut i: usize = 0;
    while i < chars.len()
        invariant
            chars@ == raw@,
            i <= chars@.len(),
            raw@.len() > 0,
            raw@ != "."@,
            raw@ != ".."@,
            forall|j: int| 0 <= j < i ==> !is_forbidden(#[trigger] raw@[j]),
        decreases chars@.len() - i,
    {
        let c: char = chars[i];
        if c == '/' || c == '\\' || c == '\0' {
            proof {
                assert(is_forbidden(raw@[i as int]));
            }
            let mut words = "invalid character in ".to_owned();
            words.append(kind);
            words.append(" name: ");
            words.append(quote(raw).as_str());
            return Err(StoreError::Backend(words));
        }
        i = i + 1;
    }
    let mut k: usize = 0;
    while k < chars.len()
        invariant
            chars@ == raw@,
            k <= chars@.len(),
            raw@.len() > 0,
            raw@ != "."@,
            raw@ != ".."@,
            !has_forbidden(raw@),
            !has_two_dots(raw@, k as int),
        decreases chars@.len() - k,
    {
        if k + 1 < chars.len() && chars[k] == '.' && chars[k + 1] == '.' {
            proof {
                assert(raw@[k as int] == '.' && raw@[k + 1] == '.');
                assert(has_two_dots(raw@, raw@.len() as int));
            }
            let mut words = "two dots in ".to_owned();
            words.append(kind);
            words.append(" name: ");
            words.append(quote(raw).as_str());
            return Err(StoreError::Backend(words));
        }
        k = k + 1;
    }
    Ok(raw.to_owned())
}

/// The directory of a stream, below the root.
pub fn stream_dir(stream: &StreamId) -> (r: Result<String, StoreError>)
    ensures
        match component_flaw(stream@, "stream"@) {
            None => r matches Ok(name) && name@ == stream@,
            Some(words) => r matches Err(e) && e@ == ErrorView::Backend(words),
        },
{
    sanitize_component(stream.as_str(), "stream")
}

/// Where the file of a label goes.
#[derive(Debug, PartialEq, Eq)]
pub struct LabelPlace {
    /// The directory of the stream.
    pub dir: String,
    /// The label, as a path component.
    pub slug: String,
}

/// The label whose file would be the one with the state of the stream.
pub const DRAFT_LABEL: &'static str = "draft";

/// What is wrong with the names of a label and its stream, if anything. The file
/// with the state of the stream is not for a label to take.
pub open spec fn place_flaw(stream: Seq<char>, label: Seq<char>) -> Option<Seq<char>> {
    match component_flaw(label, "label"@) {
        Some(words) => Some(words),
        None => if label == DRAFT_LABEL@ {
            Some("reserved label name: "@ + quoted(label))
        } else {
            component_flaw(stream, "stream"@)
        },
    }
}

/// The file of a label that is accepted is never the one with the state of the
/// stream.
pub proof fn labels_leave_the_draft_alone(stream: Seq<char>, label: Seq<char>)
    requires
        place_flaw(stream, label) is None,
    ensures
        label + ".md"@ != DRAFT_NAME@,
{
    reveal_strlit("draft.md");
    reveal_strlit("draft");
    reveal_strlit(".md");
    if label + ".md"@ == DRAFT_NAME@ {
        assert((label + ".md"@).len() == 8);
        assert forall|i: int| 0 <= i < label.len() implies label[i] == DRAFT_LABEL@[i] by {
            assert((label + ".md"@)[i] == label[i]);
        }
        assert(label =~= DRAFT_LABEL@);
    }
}

/// Where the file of `label` on `stream` goes.
pub fn label_place(stream: &StreamId, label: &Label) -> (r: Result<LabelPlace, StoreError>)
    ensures
        match place_flaw(stream@, label@) {
            None => r matches Ok(place) && place.dir@ == stream@ && place.slug@ == label@,
            Some(words) => r matches Err(e) && e@ == ErrorView::Backend(words),
        },
{
    let slug = match sanitize_component(label.as_str(), "label") {
        Ok(slug) => slug,
        Err(e) => {
            return Err(e);
        },
    };
    if same_text(slug.as_str(), DRAFT_LABEL) {
        let mut words = "reserved label name: ".to_owned();
        words.append(quote(label.as_str()).as_str());
        return Err(StoreError::Backend(words));
    }
    match stream_dir(stream) {
        Ok(dir) => Ok(LabelPlace { dir, slug }),
        Err(e) => Err(e),
    }
}

/// The file of a label.
pub fn label_file_name(slug: &str) -> (r: String)
    ensures
        r@ == slug@ + ".md"@,
{
    let mut name = slug.to_owned();
    name.append(".md");
    name
}

/// The file in the archive that holds what a label pointed at until `now`.
pub fn archive_file_name(slug: &str, now: Timestamp) -> (r: String)
    ensures
        r@ == slug@ + "."@ + signed_decimal(now.0 as int) + ".md"@,
{
    let mut name = slug.to_owned();
    name.append(".");
    name.append(signed_text(now.0).as_str());
    name.append(".md");
    name
}

/// The file that is written before it takes the place of `name`.
pub fn partial_file_name(name: &str) -> (r: String)
    ensures
        r@ == name@ + ".partial"@,
{
    let mut partial = name.to_owned();
    partial.append(".partial");
    partial
}

/// What is to be done with the file of a label.
#[derive(Debug, Clone, Copy, PartialEq, Eq, Structural)]
pub enum LabelStep {
    /// Nothing: it holds what it is to hold.
    Keep,
    /// Write it.
    Write,
    /// Move what is there into the archive, and then write it.
    ArchiveAndWrite,
}

/// What is to be done with a file that holds `existing` and is to hold `body`.
pub open spec fn label_step(existing: Option<Seq<char>>, body: Seq<char>) -> LabelStep {
    match existing {
        None => LabelStep::Write,
        Some(there) => if there == body {
            LabelStep::Keep
        } else {
            LabelStep::ArchiveAndWrite
        },
    }
}

/// The file of a label, and what went to the archive, in the order in which it
/// did.
#[verifier::ext_equal]
pub struct LabelFiles {
    /// What the file holds.
    pub current: Option<Seq<char>>,
    /// What it held before.
    pub archived: Seq<Seq<char>>,
}

impl LabelFiles {
    /// The files once `step` was taken for `body`.
    pub open spec fn after(self, step: LabelStep, body: Seq<char>) -> LabelFiles {
        match step {
            LabelStep::Keep => self,
            LabelStep::Write => LabelFiles { current: Some(body), ..self },
            LabelStep::ArchiveAndWrite => LabelFiles {
                current: Some(body),
                archived: match self.current {
                    Some(there) => self.archived.push(there),
                    None => self.archived,
                },
            },
        }
    }
}

/// Pointing a label somewhere leaves its file with the new body, and what was there
/// before in the archive. Doing so again changes nothing.
pub proof fn pointing_a_label_again_changes_nothing(files: LabelFiles, body: Seq<char>)
    ensures
        ({
            let once = files.after(label_step(files.current, body), body);
            &&& once.current == Some(body)
            &&& files.current matches Some(there) ==> there != body ==> once.archived
                == files.archived.push(there)
            &&& label_step(once.current, body) == LabelStep::Keep
            &&& once.after(label_step(once.current, body), body) == once
        }),
{
}

/// Decide what to do with a file that holds `existing` and is to hold `body`.
pub fn plan_label_write(existing: Option<&str>, body: &str) -> (r: LabelStep)
    ensures
        r == label_step(
            match existing {
                Some(there) => Some(there@),
                None => None,
            },
            body@,
        ),
{
    match existing {
        None => LabelStep::Write,
        Some(there) => if same_text(there, body) {
            LabelStep::Keep
        } else {
            LabelStep::ArchiveAndWrite
        },
    }
}

/// A name that is accepted stays inside the directory that it is put in: it is
/// one component, neither the directory itself nor its parent, and holds neither a
/// separator nor two dots next to each other.
pub proof fn accepted_names_stay_inside(raw: Seq<char>, kind: Seq<char>)
    requires
        component_flaw(raw, kind) is None,
    ensures
        raw.len() > 0,
        raw != "."@,
        raw != ".."@,
        forall|i: int|
            0 <= i < raw.len() ==> #[trigger] raw[i] != '/' && raw[i] != '\\' && raw[i] != '\0',
        forall|i: int|
            0 <= i < raw.len() - 1 && #[trigger] raw[i] == '.' ==> raw[i + 1] != '.',
{
    assert forall|i: int| 0 <= i < raw.len() implies #[trigger] raw[i] != '/' && raw[i] != '\\'
        && raw[i] != '\0' by {
        assert(!is_forbidden(raw[i]));
    }
}

/// A name is turned down for no other reason than that it would not stay inside the
/// directory that it is put in: every name with at least one character, no separator
/// and no two dots in a row is accepted, but for the single dot.
pub proof fn every_other_name_is_accepted(raw: Seq<char>, kind: Seq<char>)
    requires
        raw.len() > 0,
        raw != "."@,
        forall|i: int|
            0 <= i < raw.len() ==> #[trigger] raw[i] != '/' && raw[i] != '\\' && raw[i] != '\0',
        forall|i: int|
            0 <= i < raw.len() - 1 ==> !(#[trigger] raw[i] == '.' && raw[i + 1] == '.'),
    ensures
        component_flaw(raw, kind) is None,
{
    if raw == ".."@ {
        reveal_strlit("..");
        assert(raw[0] == '.' && raw[1] == '.');
    }
    if has_forbidden(raw) {
        let i = choose|i: int| 0 <= i < raw.len() && is_forbidden(#[trigger] raw[i]);
        assert(raw[i] != '/');
    }
}

/// A label is accepted wherever its name and that of its stream are, unless it is the
/// one that the state of the stream goes by.
pub proof fn every_other_label_has_a_place(stream: Seq<char>, label: Seq<char>)
    ensures
        place_flaw(stream, label) is None <==> component_flaw(label, "label"@) is None
            && component_flaw(stream, "stream"@) is None && label != "draft"@,
{
}

/// What a label pointed at at different times goes to different files.
pub proof fn archives_do_not_overwrite_each_other(slug: Seq<char>, first: i64, second: i64)
    requires
        first != second,
    ensures
        slug + "."@ + signed_decimal(first as int) + ".md"@ != slug + "."@ + signed_decimal(
            second as int,
        ) + ".md"@,
{
    let (a, b) = (signed_decimal(first as int), signed_decimal(second as int));
    let (x, y) = (slug + "."@ + a + ".md"@, slug + "."@ + b + ".md"@);
    numerals_differ(first as int, second as int);
    if x == y {
        let n = (slug.len() + "."@.len()) as int;
        assert(x.len() == n + a.len() + ".md"@.len());
        assert(y.len() == n + b.len() + ".md"@.len());
        assert(x.subrange(n, n + a.len()) =~= a);
        assert(y.subrange(n, n + b.len()) =~= b);
    }
}

/// A name that is not accepted is refused for the first thing that is wrong with it, and
/// the message says what it is the name of and, unless it is empty, what it is.
pub proof fn a_refused_name_is_named(raw: Seq<char>, kind: Seq<char>)
    ensures
        raw.len() == 0 ==> component_flaw(raw, kind) == Some("empty "@ + kind + " name"@),
        raw == "."@ || raw == ".."@ ==> component_flaw(raw, kind) == Some(
            "reserved "@ + kind + " name: "@ + quoted(raw),
        ),
        raw.contains('/') || raw.contains('\\') || raw.contains('\0') ==> component_flaw(raw, kind)
            == Some("invalid character in "@ + kind + " name: "@ + quoted(raw)),
        component_flaw(raw, kind) is Some ==> {
            ||| component_flaw(raw, kind) == Some("empty "@ + kind + " name"@)
            ||| component_flaw(raw, kind) == Some("reserved "@ + kind + " name: "@ + quoted(raw))
            ||| component_flaw(raw, kind) == Some(
                "invalid character in "@ + kind + " name: "@ + quoted(raw),
            )
            ||| component_flaw(raw, kind) == Some("two dots in "@ + kind + " name: "@ + quoted(raw))
        },
{
    reveal_strlit(".");
    reveal_strlit("..");
    if raw.contains('/') || raw.contains('\\') || raw.contains('\0') {
        let i = choose|i: int|
            0 <= i < raw.len() && (#[trigger] raw[i] == '/' || raw[i] == '\\' || raw[i] == '\0');
        assert(is_forbidden(raw[i]));
        assert(raw != "."@) by {
            assert("."@[0] == '.');
        }
        assert(raw != ".."@) by {
            assert(".."@[0] == '.' && ".."@[1] == '.');
        }
    }
}

/// A label is refused for its own name before that of its stream is looked at, and the
/// name of the file with the state is reserved.
pub proof fn a_label_is_looked_at_first(stream: Seq<char>, label: Seq<char>)
    ensures
        component_flaw(label, "label"@) is Some ==> place_flaw(stream, label) == component_flaw(
            label,
            "label"@,
        ),
        label == "draft"@ ==> place_flaw(stream, label) == Some(
            "reserved label name: "@ + quoted("draft"@),
        ),
        component_flaw(label, "label"@) is None && label != "draft"@ ==> place_flaw(stream, label)
            == component_flaw(stream, "stream"@),
{
    reveal_strlit("draft");
    reveal_strlit(".");
    reveal_strlit("..");
    let name = "draft"@;
    assert(name.len() == 5);
    assert(name[0] == 'd' && name[1] == 'r' && name[2] == 'a' && name[3] == 'f' && name[4] == 't');
}

/// The files of a label are named after it: the one that it points at, those in the
/// archive after the time at which they went there as well, and one that is being written
/// after the one that it becomes.
pub proof fn files_are_named_after_their_label(
    slug: &str,
    now: Timestamp,
    current: String,
    archived: String,
    partial: String,
)
    requires
        call_ensures(label_file_name, (slug,), current),
        call_ensures(archive_file_name, (slug, now), archived),
        call_ensures(partial_file_name, (slug,), partial),
    ensures
        current@ == slug@ + ".md"@,
        archived@ == slug@ + "."@ + signed_decimal(now.0 as int) + ".md"@,
        partial@ == slug@ + ".partial"@,
{
}

/// A stream has the directory of its name, and a label the file of its name in there,
/// unless one of the names is refused.
pub proof fn a_label_has_its_place_in_the_directory_of_its_stream(
    stream: &StreamId,
    label: &Label,
    dir: Result<String, StoreError>,
    place: Result<LabelPlace, StoreError>,
)
    requires
        call_ensures(stream_dir, (stream,), dir),
        call_ensures(label_place, (stream, label), place),
    ensures
        match component_flaw(stream@, "stream"@) {
            None => dir matches Ok(name) && name@ == stream@,
            Some(words) => dir matches Err(e) && e@ == ErrorView::Backend(words),
        },
        match place_flaw(stream@, label@) {
            None => place matches Ok(p) && p.dir@ == stream@ && p.slug@ == label@,
            Some(words) => place matches Err(e) && e@ == ErrorView::Backend(words),
        },
{
}

/// A file is written where there is none, left alone where it holds the body already, and
/// otherwise archived first.
pub proof fn a_label_file_is_kept_or_archived(existing: Option<&str>, body: &str, r: LabelStep)
    requires
        call_ensures(plan_label_write, (existing, body), r),
    ensures
        existing is None ==> r == LabelStep::Write,
        existing matches Some(there) ==> r == if there@ == body@ {
            LabelStep::Keep
        } else {
            LabelStep::ArchiveAndWrite
        },
{
}

} // verus!
