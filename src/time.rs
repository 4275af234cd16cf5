//! UTC instants and their RFC 3339 text form.
use vstd::prelude::*;

use chrono::{DateTime, Utc};

verus! {

/// Seconds from the epoch to 0000-01-01T00:00:00Z.
pub const MIN_SECS: i64 = -62167219200;

/// Seconds from the epoch to 9999-12-31T23:59:59Z.
pub const MAX_SECS: i64 = 253402300799;

pub const NANOS_PER_SEC: u32 = 1000000000;

/// A UTC instant: whole seconds since the Unix epoch and the nanoseconds
/// within that second.
#[derive(Clone, Copy, PartialEq, Eq, Structural, Debug)]
pub struct Timestamp {
    pub secs: i64,
    pub nanos: u32,
}

impl Timestamp {
    /// An instant that RFC 3339 can write with a four-digit year, and that is
    /// not a leap second.
    pub open spec fn wf(self) -> bool {
        &&& MIN_SECS <= self.secs <= MAX_SECS
        &&& self.nanos < NANOS_PER_SEC
    }

    /// The instant as a number of nanoseconds since the epoch: the order of
    /// timestamps.
    pub open spec fn instant(self) -> int {
        self.secs * 1000000000 + self.nanos
    }

    pub fn new(secs: i64, nanos: u32) -> (r: Timestamp)
        ensures
            r.secs == secs,
            r.nanos == nanos,
    {
        Timestamp { secs, nanos }
    }

    /// Whether `wf` holds.
    pub fn is_valid(&self) -> (r: bool)
        ensures
            r == self.wf(),
    {
        MIN_SECS <= self.secs && self.secs <= MAX_SECS && self.nanos < NANOS_PER_SEC
    }

    /// The instant in nanoseconds, computed without overflow.
    pub fn instant_nanos(&self) -> (r: i128)
        ensures
            r == self.instant(),
    {
        let s = self.secs as i128;
        assert(-9223372036854775808 <= s <= 9223372036854775807);
        assert(-9223372036854775808 * 1000000000 <= s * 1000000000 <= 9223372036854775807 * 1000000000)
            by (nonlinear_arith)
            requires
                -9223372036854775808 <= s <= 9223372036854775807,
        ;
        s * 1000000000 + self.nanos as i128
    }

    /// Whether `self` is strictly later than `other`.
    pub fn is_after(&self, other: &Timestamp) -> (r: bool)
        ensures
            r == (self.instant() > other.instant()),
    {
        self.instant_nanos() > other.instant_nanos()
    }
}

/// The text that chrono's `to_rfc3339` writes for the instant.
pub uninterp spec fn rfc3339_text(secs: int, nanos: int) -> Seq<char>;

/// What chrono's `parse_from_rfc3339` reads from a text, as seconds and
/// nanoseconds since the epoch in UTC.
pub uninterp spec fn rfc3339_instant(s: Seq<char>) -> Option<(int, int)>;

/// Relies on chrono's `DateTime::<Utc>::from_timestamp` and `to_rfc3339`:
/// the text depends on the instant alone. `from_timestamp` gives `Some` for
/// every instant that `wf` admits. For a four-digit year the text holds only
/// digits, `-`, `T`, `:`, `.` and `+`, so no `_`.
#[verifier::external_body]
pub(crate) fn format_rfc3339(t: Timestamp) -> (r: String)
    requires
        t.wf(),
    ensures
        r@ == rfc3339_text(t.secs as int, t.nanos as int),
        forall|i: int| 0 <= i < r@.len() ==> r@[i] != '_',
{
    DateTime::<Utc>::from_timestamp(t.secs, t.nanos).unwrap().to_rfc3339()
}

/// Relies on chrono's `DateTime::parse_from_rfc3339`, read as an instant in
/// UTC through `timestamp` and `timestamp_subsec_nanos`. chrono's parser
/// reads back exactly the instant that its `to_rfc3339` wrote, for a
/// four-digit year and no leap second (it writes the year in four digits and
/// the fraction exactly, in 0, 3, 6 or 9 digits, with the offset `+00:00`).
#[verifier::external_body]
pub fn parse_timestamp(s: &str) -> (r: Option<Timestamp>)
    ensures
        match r {
            Some(t) => rfc3339_instant(s@) == Some((t.secs as int, t.nanos as int)),
            None => rfc3339_instant(s@).is_none(),
        },
        forall|t: Timestamp|
            #![trigger rfc3339_text(t.secs as int, t.nanos as int)]
            t.wf() && s@ == rfc3339_text(t.secs as int, t.nanos as int) ==> r == Some(t),
{
    DateTime::parse_from_rfc3339(s).ok().map(|d| Timestamp { secs: d.timestamp(), nanos: d.timestamp_subsec_nanos() })
}

} // verus!
