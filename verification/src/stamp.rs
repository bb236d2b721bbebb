//! Times and fresh identifiers, which come from the clock and from chance.

use vstd::prelude::*;

verus! {

/// An instant in UTC: whole seconds since the Unix epoch and the
/// nanoseconds past them (above 999 999 999 only within a leap second).
/// Instants are ordered by their seconds, then by their nanoseconds.
#[derive(Clone, Copy, Debug, PartialEq, Eq, Structural)]
pub struct UtcTime {
    pub secs: i64,
    pub nanos: u32,
}

/// The position of an instant on a line that orders instants as `UtcTime`
/// does: seconds first, nanoseconds within a second.
pub open spec fn time_key(t: UtcTime) -> int {
    t.secs * 0x1_0000_0000 + t.nanos
}

impl UtcTime {
    /// The instant `secs` whole seconds after the Unix epoch.
    pub fn from_secs(secs: i64) -> (r: UtcTime)
        ensures
            r == (UtcTime { secs, nanos: 0 }),
    {
        UtcTime { secs, nanos: 0 }
    }

    /// `time_key` of this instant.
    pub fn key(&self) -> (r: i128)
        ensures
            r == time_key(*self),
    {
        self.secs as i128 * 0x1_0000_0000i128 + self.nanos as i128
    }

    /// Whether this instant comes strictly before `other`.
    pub fn before(&self, other: &UtcTime) -> (r: bool)
        ensures
            r == (time_key(*self) < time_key(*other)),
    {
        self.secs < other.secs || (self.secs == other.secs && self.nanos < other.nanos)
    }
}

/// The current time, in seconds since the Unix epoch (`chrono::Utc::now`,
/// `DateTime::timestamp`). Nothing is stated of the value: it is the clock's.
#[verifier::external_body]
pub(crate) fn now_unix() -> i64 {
    chrono::Utc::now().timestamp()
}

/// The current time (`chrono::Utc::now`), as its timestamp and the
/// nanoseconds past it (`DateTime::timestamp_subsec_nanos`). Nothing is
/// stated of the value: it is the clock's.
#[verifier::external_body]
pub(crate) fn now_utc() -> UtcTime {
    let t = chrono::Utc::now();
    UtcTime { secs: t.timestamp(), nanos: t.timestamp_subsec_nanos() }
}

/// A lower-case hexadecimal digit.
pub open spec fn is_hex_digit(c: char) -> bool {
    ('0' <= c <= '9') || ('a' <= c <= 'f')
}

/// The hyphenated form of a UUID: 32 lower-case hexadecimal digits in
/// groups of 8, 4, 4, 4 and 12, joined by hyphens.
pub open spec fn is_uuid_text(s: Seq<char>) -> bool {
    &&& s.len() == 36
    &&& forall|i: int|
        0 <= i < 36 ==> if i == 8 || i == 13 || i == 18 || i == 23 {
            s[i] == '-'
        } else {
            is_hex_digit(#[trigger] s[i])
        }
}

/// A random (version 4) UUID in its hyphenated form (`uuid::Uuid::new_v4`
/// and its `Display`, which writes lower-case hexadecimal digits). Every
/// outcome has that form; which UUID comes out is chance.
#[verifier::external_body]
pub(crate) fn new_uuid_v4() -> (r: String)
    ensures
        is_uuid_text(r@),
{
    uuid::Uuid::new_v4().to_string()
}

/// The first second that chrono's `DateTime<Utc>` represents: January 1 of
/// the year -262143 (its `MIN_YEAR`), 00:00:00.
pub const CHRONO_MIN_TIMESTAMP: i64 = -8334601228800i64;

/// The last second that chrono's `DateTime<Utc>` represents: December 31 of
/// the year 262142 (its `MAX_YEAR`), 23:59:59.
pub const CHRONO_MAX_TIMESTAMP: i64 = 8210266876799i64;

/// Whether chrono represents the instant `secs` seconds after the Unix epoch.
pub open spec fn chrono_represents(secs: i64) -> bool {
    CHRONO_MIN_TIMESTAMP <= secs <= CHRONO_MAX_TIMESTAMP
}

/// `chrono::DateTime::from_timestamp(secs, 0)`, read back with
/// `DateTime::timestamp`: `None` when the day falls outside the years that
/// chrono represents, and otherwise the same number of seconds (the two
/// round-trip, as chrono documents).
#[verifier::external_body]
pub(crate) fn checked_timestamp(secs: i64) -> (r: Option<i64>)
    ensures
        r == (if chrono_represents(secs) { Some(secs) } else { None::<i64> }),
{
    chrono::DateTime::from_timestamp(secs, 0).map(|d| d.timestamp())
}

} // verus!
