//! Identifiers and coordinates.
use std::cmp::Ordering;

use vstd::prelude::*;
use vstd::std_specs::cmp::{
    PartialEqSpec, PartialEqSpecImpl, PartialOrdSpec, PartialOrdSpecImpl,
};

use crate::text::{
    comes_before, decimal, decimal_text, same_text, text_before, text_order_strict,
    text_order_total, IntoText,
};

verus! {

/// Name of an event stream, chosen by the consumer.
///
/// Streams are ordered as their names are.
#[derive(Debug, Eq, Ord, Hash)]
pub struct StreamId(pub String);

impl PartialEq for StreamId {
    fn eq(&self, other: &Self) -> (r: bool) {
        same_text(self.0.as_str(), other.0.as_str())
    }
}

impl PartialEqSpecImpl for StreamId {
    open spec fn obeys_eq_spec() -> bool {
        true
    }

    open spec fn eq_spec(&self, other: &Self) -> bool {
        self@ == other@
    }
}

impl PartialOrd for StreamId {
    fn partial_cmp(&self, other: &Self) -> (r: Option<Ordering>) {
        if same_text(self.0.as_str(), other.0.as_str()) {
            Some(Ordering::Equal)
        } else if comes_before(self.0.as_str(), other.0.as_str()) {
            Some(Ordering::Less)
        } else {
            Some(Ordering::Greater)
        }
    }
}

impl PartialOrdSpecImpl for StreamId {
    open spec fn obeys_partial_cmp_spec() -> bool {
        true
    }

    open spec fn partial_cmp_spec(&self, other: &Self) -> Option<Ordering> {
        if self@ == other@ {
            Some(Ordering::Equal)
        } else if text_before(self@, other@) {
            Some(Ordering::Less)
        } else {
            Some(Ordering::Greater)
        }
    }
}

/// Streams are ordered as their names are, and equal where their names are.
pub proof fn streams_are_ordered_by_name(a: StreamId, b: StreamId)
    ensures
        (PartialOrdSpec::partial_cmp_spec(&a, &b) == Some(Ordering::Less)) == text_before(a@, b@),
        (PartialOrdSpec::partial_cmp_spec(&a, &b) == Some(Ordering::Equal)) == (a@ == b@),
        (PartialOrdSpec::partial_cmp_spec(&a, &b) == Some(Ordering::Greater)) == text_before(b@, a@),
        PartialEqSpec::eq_spec(&a, &b) == (a@ == b@),
{
    text_order_strict(a@, b@);
    text_order_total(a@, b@);
}

impl View for StreamId {
    type V = Seq<char>;

    open spec fn view(&self) -> Seq<char> {
        self.0@
    }
}

impl Clone for StreamId {
    fn clone(&self) -> (r: Self)
        ensures
            r@ == self@,
    {
        StreamId(self.0.clone())
    }
}

impl StreamId {
    /// The stream named `s`.
    pub fn new<S: IntoText>(s: S) -> (r: Self)
        ensures
            r@ == s.text(),
    {
        StreamId(s.into_text())
    }

    /// The name.
    pub fn as_str(&self) -> (r: &str)
        ensures
            r@ == self@,
    {
        self.0.as_str()
    }
}

/// Coordinate of an event within its stream.
///
/// The store's writer assigns them: without gaps and increasing. The coordinate
/// of an event never changes.
#[derive(Debug, Clone, Copy, PartialEq, Eq, PartialOrd, Ord, Hash, Structural)]
pub struct SeqNo(pub u64);

impl SeqNo {
    /// The coordinate of a stream without events.
    pub fn zero() -> (r: SeqNo)
        ensures
            r.0 == 0,
    {
        SeqNo(0)
    }

    /// The coordinate that follows this one.
    pub fn next(self) -> (r: SeqNo)
        requires
            self.0 < u64::MAX,
        ensures
            r.0 == self.0 + 1,
    {
        SeqNo(self.0 + 1)
    }

    /// The coordinate in decimal.
    pub fn to_text(self) -> (r: String)
        ensures
            r@ == decimal(self.0 as nat),
    {
        decimal_text(self.0)
    }
}

/// Name that points at a coordinate of a stream and can be moved.
#[derive(Debug, PartialEq, Eq, Hash)]
pub struct Label(pub String);

impl View for Label {
    type V = Seq<char>;

    open spec fn view(&self) -> Seq<char> {
        self.0@
    }
}

impl Clone for Label {
    fn clone(&self) -> (r: Self)
        ensures
            r@ == self@,
    {
        Label(self.0.clone())
    }
}

impl Label {
    /// The label named `s`.
    pub fn new<S: IntoText>(s: S) -> (r: Self)
        ensures
            r@ == s.text(),
    {
        Label(s.into_text())
    }

    /// The name.
    pub fn as_str(&self) -> (r: &str)
        ensures
            r@ == self@,
    {
        self.0.as_str()
    }
}

/// Milliseconds since the Unix epoch.
#[derive(Debug, Clone, Copy, PartialEq, Eq, PartialOrd, Ord, Structural)]
pub struct Timestamp(pub i64);

/// Whether `nanos` nanoseconds after the Unix epoch lie between the beginning of
/// the year -999999 and the end of the year 999999.
pub open spec fn on_calendar(nanos: int) -> bool {
    -31_619_087_596_800 * 1_000_000_000 <= nanos < 31_494_784_780_800 * 1_000_000_000
}

/// `time::OffsetDateTime::now_utc` and `unix_timestamp_nanos`: the nanoseconds
/// since the Unix epoch. What the clock shows is left open, but for the years that
/// the crate has dates for: up to 9999 of either sign, or 999999 with its feature
/// `large-dates`.
#[verifier::external_body]
fn wall_clock_nanos() -> (r: i128)
    ensures
        on_calendar(r as int),
{
    time::OffsetDateTime::now_utc().unix_timestamp_nanos()
}

/// The whole milliseconds in `nanos` nanoseconds, rounded towards the epoch and
/// kept within what an `i64` holds.
pub open spec fn whole_millis(nanos: int) -> int {
    let ms = if nanos >= 0 {
        nanos / 1_000_000
    } else {
        -((-nanos) / 1_000_000)
    };
    if ms > i64::MAX {
        i64::MAX as int
    } else if ms < i64::MIN {
        i64::MIN as int
    } else {
        ms
    }
}

/// Whether the wall clock may be read at `nanos` nanoseconds after the Unix epoch.
/// Only reading it tells.
pub closed spec fn is_reading(nanos: int) -> bool {
    exists|r: i128| r == nanos && #[trigger] call_ensures(wall_clock_nanos, (), r)
}

/// Whether `ms` is what the wall clock may show, in whole milliseconds.
pub open spec fn is_clock_time(ms: i64) -> bool {
    exists|nanos: int| #[trigger]
        is_reading(nanos) && on_calendar(nanos) && ms == whole_millis(nanos)
}

/// Whole milliseconds leave out less than one of them, towards the epoch; only what
/// an `i64` cannot hold is taken for the end of its range.
pub proof fn whole_millis_leave_out_less_than_one(nanos: int)
    ensures
        0 <= nanos < (i64::MAX + 1) * 1_000_000 ==> whole_millis(nanos) * 1_000_000 <= nanos < (
        whole_millis(nanos) + 1) * 1_000_000,
        (i64::MIN - 1) * 1_000_000 < nanos <= 0 ==> (whole_millis(nanos) - 1) * 1_000_000 < nanos
            <= whole_millis(nanos) * 1_000_000,
        nanos >= (i64::MAX + 1) * 1_000_000 ==> whole_millis(nanos) == i64::MAX,
        nanos <= (i64::MIN - 1) * 1_000_000 ==> whole_millis(nanos) == i64::MIN,
{
}

/// The time that a clock shows is the one it was read at, less than a millisecond
/// ago.
pub proof fn a_clock_time_is_less_than_a_millisecond_old(ms: i64)
    requires
        is_clock_time(ms),
    ensures
        exists|nanos: int| #[trigger]
            is_reading(nanos) && -1_000_000 < nanos - ms * 1_000_000 < 1_000_000,
{
    let nanos = choose|nanos: int| #[trigger]
        is_reading(nanos) && on_calendar(nanos) && ms == whole_millis(nanos);
    whole_millis_leave_out_less_than_one(nanos);
    assert(is_reading(nanos));
}

impl Timestamp {
    /// The time on the wall clock, in whole milliseconds. Which time that is
    /// depends on the moment of the call alone.
    pub fn now() -> (r: Self)
        ensures
            is_clock_time(r.0),
    {
        let nanos = wall_clock_nanos();
        proof {
            assert(is_reading(nanos as int));
        }
        Timestamp::from_nanos(nanos)
    }

    /// The time that is `nanos` nanoseconds after the Unix epoch.
    pub fn from_nanos(nanos: i128) -> (r: Self)
        ensures
            r.0 == whole_millis(nanos as int),
    {
        let ms: i128 = if nanos >= 0 {
            nanos / 1_000_000
        } else if nanos == i128::MIN {
            return Timestamp(i64::MIN);
        } else {
            -((-nanos) / 1_000_000)
        };
        if ms > i64::MAX as i128 {
            Timestamp(i64::MAX)
        } else if ms < i64::MIN as i128 {
            Timestamp(i64::MIN)
        } else {
            Timestamp(ms as i64)
        }
    }
}

} // verus!
