//! What the store reports when it cannot do what it was asked.
use vstd::prelude::*;

use crate::id::{SeqNo, StreamId};
use crate::text::{decimal, decimal_text, IntoText};

verus! {

/// Why a write, a read or a maintenance step was refused.
#[derive(Debug)]
pub enum StoreError {
    /// A gate turned the write down.
    Schema(SchemaViolation),
    /// A patch does not apply.
    Patch(String),
    /// The backend failed in a way that it could not classify.
    Backend(String),
    /// The backend is contended; the same call may succeed later.
    Busy(String),
    /// The storage below the backend failed.
    Storage(String),
    /// Stored data no longer decodes.
    Corruption(String),
    /// The stream has no events.
    UnknownStream(StreamId),
    /// The coordinate lies past the head of the stream.
    SeqOutOfRange {
        /// Head of the stream, `None` where it is empty.
        head: Option<SeqNo>,
        /// The coordinate that was asked for.
        requested: SeqNo,
    },
    /// The coordinate lies before the boundary that the stream was compacted to.
    SeqCompacted {
        /// The earliest coordinate that can still be reached.
        boundary: SeqNo,
        /// The coordinate that was asked for.
        requested: SeqNo,
    },
    /// The stream has no such label.
    UnknownLabel(String),
    /// No sink has this id.
    UnknownSink(String),
    /// A sink with this id is registered already.
    SinkAlreadyAttached(String),
    /// The head of the stream is not where the writer expected it.
    HeadConflict {
        /// The head that the writer expected.
        expected: SeqNo,
        /// The head of the stream, `None` where it is empty.
        actual: Option<SeqNo>,
    },
    /// The backend does not offer this operation.
    BackendUnsupported(String),
}

/// Why a gate turned a write down.
#[derive(Debug, PartialEq, Eq)]
pub struct SchemaViolation {
    /// Category, for programs.
    pub kind: String,
    /// Explanation, for people.
    pub reason: String,
}

/// What a [`SchemaViolation`] says.
pub struct ViolationView {
    /// Category.
    pub kind: Seq<char>,
    /// Explanation.
    pub reason: Seq<char>,
}

impl View for SchemaViolation {
    type V = ViolationView;

    open spec fn view(&self) -> ViolationView {
        ViolationView { kind: self.kind@, reason: self.reason@ }
    }
}

impl Clone for SchemaViolation {
    fn clone(&self) -> (r: Self)
        ensures
            r@ == self@,
    {
        SchemaViolation { kind: self.kind.clone(), reason: self.reason.clone() }
    }
}

/// What a [`StoreError`] says.
pub enum ErrorView {
    /// See [`StoreError::Schema`].
    Schema(ViolationView),
    /// See [`StoreError::Patch`].
    Patch(Seq<char>),
    /// See [`StoreError::Backend`].
    Backend(Seq<char>),
    /// See [`StoreError::Busy`].
    Busy(Seq<char>),
    /// See [`StoreError::Storage`].
    Storage(Seq<char>),
    /// See [`StoreError::Corruption`].
    Corruption(Seq<char>),
    /// See [`StoreError::UnknownStream`].
    UnknownStream(Seq<char>),
    /// See [`StoreError::SeqOutOfRange`].
    SeqOutOfRange {
        /// Head of the stream.
        head: Option<SeqNo>,
        /// The coordinate that was asked for.
        requested: SeqNo,
    },
    /// See [`StoreError::SeqCompacted`].
    SeqCompacted {
        /// The earliest coordinate that can still be reached.
        boundary: SeqNo,
        /// The coordinate that was asked for.
        requested: SeqNo,
    },
    /// See [`StoreError::UnknownLabel`].
    UnknownLabel(Seq<char>),
    /// See [`StoreError::UnknownSink`].
    UnknownSink(Seq<char>),
    /// See [`StoreError::SinkAlreadyAttached`].
    SinkAlreadyAttached(Seq<char>),
    /// See [`StoreError::HeadConflict`].
    HeadConflict {
        /// The head that the writer expected.
        expected: SeqNo,
        /// The head of the stream.
        actual: Option<SeqNo>,
    },
    /// See [`StoreError::BackendUnsupported`].
    BackendUnsupported(Seq<char>),
}

impl View for StoreError {
    type V = ErrorView;

    open spec fn view(&self) -> ErrorView {
        match self {
            StoreError::Schema(v) => ErrorView::Schema(v@),
            StoreError::Patch(m) => ErrorView::Patch(m@),
            StoreError::Backend(m) => ErrorView::Backend(m@),
            StoreError::Busy(m) => ErrorView::Busy(m@),
            StoreError::Storage(m) => ErrorView::Storage(m@),
            StoreError::Corruption(m) => ErrorView::Corruption(m@),
            StoreError::UnknownStream(s) => ErrorView::UnknownStream(s@),
            StoreError::SeqOutOfRange { head, requested } => ErrorView::SeqOutOfRange {
                head: *head,
                requested: *requested,
            },
            StoreError::SeqCompacted { boundary, requested } => ErrorView::SeqCompacted {
                boundary: *boundary,
                requested: *requested,
            },
            StoreError::UnknownLabel(m) => ErrorView::UnknownLabel(m@),
            StoreError::UnknownSink(m) => ErrorView::UnknownSink(m@),
            StoreError::SinkAlreadyAttached(m) => ErrorView::SinkAlreadyAttached(m@),
            StoreError::HeadConflict { expected, actual } => ErrorView::HeadConflict {
                expected: *expected,
                actual: *actual,
            },
            StoreError::BackendUnsupported(m) => ErrorView::BackendUnsupported(m@),
        }
    }
}

/// How a coordinate is written in a message.
pub open spec fn seq_words(s: SeqNo) -> Seq<char> {
    "Seq("@ + decimal(s.0 as nat) + ")"@
}

/// How an optional coordinate is written in a message.
pub open spec fn optional_seq_words(s: Option<SeqNo>) -> Seq<char> {
    match s {
        Some(s) => "Some("@ + seq_words(s) + ")"@,
        None => "None"@,
    }
}

/// The message of a violation: category and explanation.
pub open spec fn violation_words(v: ViolationView) -> Seq<char> {
    v.kind + ": "@ + v.reason
}

/// The message of an error.
pub open spec fn error_words(e: ErrorView) -> Seq<char> {
    match e {
        ErrorView::Schema(v) => "schema violation: "@ + violation_words(v),
        ErrorView::Patch(m) => "patch application failed: "@ + m,
        ErrorView::Backend(m) => "backend error: "@ + m,
        ErrorView::Busy(m) => "backend busy: "@ + m,
        ErrorView::Storage(m) => "storage error: "@ + m,
        ErrorView::Corruption(m) => "corrupt data: "@ + m,
        ErrorView::UnknownStream(s) => "unknown stream: "@ + s,
        ErrorView::SeqOutOfRange { head, requested } => "seq out of range: stream has head="@
            + optional_seq_words(head) + ", requested="@ + seq_words(requested),
        ErrorView::SeqCompacted { boundary, requested } =>
        "seq below compaction boundary: stream compacted to "@ + seq_words(boundary)
            + ", requested="@ + seq_words(requested),
        ErrorView::UnknownLabel(m) => "unknown label: "@ + m,
        ErrorView::UnknownSink(m) => "unknown sink: "@ + m,
        ErrorView::SinkAlreadyAttached(m) => "sink already attached: "@ + m,
        ErrorView::HeadConflict { expected, actual } => "head conflict: expected="@ + seq_words(
            expected,
        ) + ", actual="@ + optional_seq_words(actual),
        ErrorView::BackendUnsupported(m) => "backend does not support this operation: "@ + m,
    }
}

fn seq_message(s: SeqNo) -> (r: String)
    ensures
        r@ == seq_words(s),
{
    let mut out = "Seq(".to_owned();
    out.append(decimal_text(s.0).as_str());
    out.append(")");
    out
}

fn optional_seq_message(s: Option<SeqNo>) -> (r: String)
    ensures
        r@ == optional_seq_words(s),
{
    match s {
        Some(s) => {
            let mut out = "Some(".to_owned();
            out.append(seq_message(s).as_str());
            out.append(")");
            out
        },
        None => "None".to_owned(),
    }
}

fn labelled(label: &str, body: &str) -> (r: String)
    ensures
        r@ == label@ + body@,
{
    let mut out = label.to_owned();
    out.append(body);
    out
}

impl SchemaViolation {
    /// A violation of category `kind`, explained by `reason`.
    pub fn new<K: IntoText, R: IntoText>(kind: K, reason: R) -> (r: Self)
        ensures
            r@ == (ViolationView { kind: kind.text(), reason: reason.text() }),
    {
        SchemaViolation { kind: kind.into_text(), reason: reason.into_text() }
    }

    /// Category and explanation in one line.
    pub fn message(&self) -> (r: String)
        ensures
            r@ == violation_words(self@),
    {
        let mut out = self.kind.clone();
        out.append(": ");
        out.append(self.reason.as_str());
        out
    }
}

impl StoreError {
    /// Whether the same call may succeed when it is made again.
    pub fn is_retryable(&self) -> (r: bool)
        ensures
            r == (self@ is Busy),
    {
        match self {
            StoreError::Busy(_) => true,
            _ => false,
        }
    }

    /// The error in words.
    pub fn message(&self) -> (r: String)
        ensures
            r@ == error_words(self@),
    {
        match self {
            StoreError::Schema(v) => labelled("schema violation: ", v.message().as_str()),
            StoreError::Patch(m) => labelled("patch application failed: ", m.as_str()),
            StoreError::Backend(m) => labelled("backend error: ", m.as_str()),
            StoreError::Busy(m) => labelled("backend busy: ", m.as_str()),
            StoreError::Storage(m) => labelled("storage error: ", m.as_str()),
            StoreError::Corruption(m) => labelled("corrupt data: ", m.as_str()),
            StoreError::UnknownStream(s) => labelled("unknown stream: ", s.as_str()),
            StoreError::SeqOutOfRange { head, requested } => {
                let mut out = labelled(
                    "seq out of range: stream has head=",
                    optional_seq_message(*head).as_str(),
                );
                out.append(", requested=");
                out.append(seq_message(*requested).as_str());
                out
            },
            StoreError::SeqCompacted { boundary, requested } => {
                let mut out = labelled(
                    "seq below compaction boundary: stream compacted to ",
                    seq_message(*boundary).as_str(),
                );
                out.append(", requested=");
                out.append(seq_message(*requested).as_str());
                out
            },
            StoreError::UnknownLabel(m) => labelled("unknown label: ", m.as_str()),
            StoreError::UnknownSink(m) => labelled("unknown sink: ", m.as_str()),
            StoreError::SinkAlreadyAttached(m) => labelled("sink already attached: ", m.as_str()),
            StoreError::HeadConflict { expected, actual } => {
                let mut out = labelled("head conflict: expected=", seq_message(*expected).as_str());
                out.append(", actual=");
                out.append(optional_seq_message(*actual).as_str());
                out
            },
            StoreError::BackendUnsupported(m) => labelled(
                "backend does not support this operation: ",
                m.as_str(),
            ),
        }
    }
}

/// The errors about coordinates say which they are: the one that was asked for or
/// expected, and the one that is there, if there is one.
pub proof fn an_error_names_its_coordinates(there: u64, asked: u64)
    ensures
        ({
            let at = decimal(there as nat);
            let want = decimal(asked as nat);
            &&& error_words(
                ErrorView::SeqOutOfRange { head: Some(SeqNo(there)), requested: SeqNo(asked) },
            ) == "seq out of range: stream has head="@ + ("Some("@ + ("Seq("@ + at + ")"@) + ")"@)
                + ", requested="@ + ("Seq("@ + want + ")"@)
            &&& error_words(ErrorView::SeqOutOfRange { head: None, requested: SeqNo(asked) })
                == "seq out of range: stream has head="@ + "None"@ + ", requested="@ + ("Seq("@
                + want + ")"@)
            &&& error_words(
                ErrorView::SeqCompacted { boundary: SeqNo(there), requested: SeqNo(asked) },
            ) == "seq below compaction boundary: stream compacted to "@ + ("Seq("@ + at + ")"@)
                + ", requested="@ + ("Seq("@ + want + ")"@)
            &&& error_words(
                ErrorView::HeadConflict { expected: SeqNo(asked), actual: Some(SeqNo(there)) },
            ) == "head conflict: expected="@ + ("Seq("@ + want + ")"@) + ", actual="@ + ("Some("@
                + ("Seq("@ + at + ")"@) + ")"@)
            &&& error_words(ErrorView::HeadConflict { expected: SeqNo(asked), actual: None })
                == "head conflict: expected="@ + ("Seq("@ + want + ")"@) + ", actual="@ + "None"@
        }),
{
}

/// Every other error says what it is, and ends with what it is about.
pub proof fn an_error_ends_with_what_it_is_about(about: Seq<char>, kind: Seq<char>)
    ensures
        error_words(ErrorView::Schema(ViolationView { kind, reason: about }))
            == "schema violation: "@ + (kind + ": "@ + about),
        error_words(ErrorView::Patch(about)) == "patch application failed: "@ + about,
        error_words(ErrorView::Backend(about)) == "backend error: "@ + about,
        error_words(ErrorView::Busy(about)) == "backend busy: "@ + about,
        error_words(ErrorView::Storage(about)) == "storage error: "@ + about,
        error_words(ErrorView::Corruption(about)) == "corrupt data: "@ + about,
        error_words(ErrorView::UnknownStream(about)) == "unknown stream: "@ + about,
        error_words(ErrorView::UnknownLabel(about)) == "unknown label: "@ + about,
        error_words(ErrorView::UnknownSink(about)) == "unknown sink: "@ + about,
        error_words(ErrorView::SinkAlreadyAttached(about)) == "sink already attached: "@ + about,
        error_words(ErrorView::BackendUnsupported(about))
            == "backend does not support this operation: "@ + about,
{
}

/// Contention is worth another try, and nothing else is.
pub proof fn only_contention_is_worth_another_try(error: &StoreError, r: bool)
    requires
        call_ensures(StoreError::is_retryable, (error,), r),
    ensures
        r <==> error is Busy,
{
}

} // verus!
