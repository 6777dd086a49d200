//! Instants in time, and the stretch of time that is synchronised.
use chrono::{DateTime, Duration, SecondsFormat};
use vstd::prelude::*;

verus! {

/// The first second that a date can name: January 1st of the year -262143.
pub const MIN_TIMESTAMP: i64 = -8_334_601_228_800;

/// The last second that a date can name: December 31st of the year 262142.
pub const MAX_TIMESTAMP: i64 = 8_210_266_876_799;

/// The seconds of a week.
pub const SECONDS_PER_WEEK: i64 = 604_800;

/// How many weeks ahead of now events are looked at.
pub const WEEKS_AHEAD: i64 = 8;

/// The second is one that a date can name, and the nanoseconds are fewer than those of a
/// second, or of two within a leap second.
pub open spec fn valid_instant(secs: int, nanos: int) -> bool {
    &&& MIN_TIMESTAMP <= secs <= MAX_TIMESTAMP
    &&& 0 <= nanos < 2_000_000_000
    &&& nanos >= 1_000_000_000 ==> secs % 60 == 59
}

/// An instant in Universal Time: the seconds since January 1st, 1970, and the nanoseconds
/// within the second.
#[derive(Debug, Clone, Copy)]
pub struct DateTimeUtc {
    secs: i64,
    nanos: u32,
}

impl View for DateTimeUtc {
    type V = (i64, u32);

    closed spec fn view(&self) -> (i64, u32) {
        (self.secs, self.nanos)
    }
}

/// The date and time of an instant as RFC 3339 writes it, in whole seconds and with the
/// numeric offset from Universal Time.
pub uninterp spec fn rfc3339_seconds(secs: i64, nanos: u32) -> Seq<char>;

/// Calls `chrono::DateTime::to_rfc3339_opts` on the instant that
/// `chrono::DateTime::from_timestamp` makes of the arguments, asking for whole seconds and a
/// numeric offset. The contract claims that the text is a function of the instant alone.
#[verifier::external_body]
fn write_rfc3339(secs: i64, nanos: u32) -> (text: String)
    requires
        valid_instant(secs as int, nanos as int),
    ensures
        text@ == rfc3339_seconds(secs, nanos),
{
    DateTime::from_timestamp(secs, nanos).unwrap().to_rfc3339_opts(SecondsFormat::Secs, false)
}

/// Adds `chrono::Duration::weeks` to the instant that `chrono::DateTime::from_timestamp` makes
/// of the first two arguments. The contract claims that the whole weeks are added to the
/// seconds and that the nanoseconds stay, but for those of a leap second, which is left.
#[verifier::external_body]
fn add_weeks(secs: i64, nanos: u32, weeks: i64) -> (later: (i64, u32))
    requires
        valid_instant(secs as int, nanos as int),
        0 < weeks,
        secs + weeks * SECONDS_PER_WEEK <= MAX_TIMESTAMP,
    ensures
        later.0 == secs + weeks * SECONDS_PER_WEEK,
        later.1 == nanos % 1_000_000_000,
{
    let later = DateTime::from_timestamp(secs, nanos).unwrap() + Duration::weeks(weeks);
    (later.timestamp(), later.timestamp_subsec_nanos())
}

impl DateTimeUtc {
    #[verifier::type_invariant]
    closed spec fn inv(self) -> bool {
        valid_instant(self.secs as int, self.nanos as int)
    }

    /// The instant `nanos` nanoseconds into the second `secs`, if a date can name it.
    pub fn from_timestamp(secs: i64, nanos: u32) -> (instant: Option<DateTimeUtc>)
        ensures
            match instant {
                Some(t) => valid_instant(secs as int, nanos as int) && t@ == (secs, nanos),
                None => !valid_instant(secs as int, nanos as int),
            },
    {
        if secs < MIN_TIMESTAMP || secs > MAX_TIMESTAMP || nanos >= 2_000_000_000 {
            return None;
        }
        // The remainder of a division that rounds towards zero is negative for early seconds.
        let second: i64 = secs % 60;
        if nanos >= 1_000_000_000 && second != 59 && second != -1 {
            return None;
        }
        Some(DateTimeUtc { secs, nanos })
    }

    /// The seconds since January 1st, 1970.
    pub fn timestamp(&self) -> (secs: i64)
        ensures
            secs == self@.0,
            MIN_TIMESTAMP <= secs <= MAX_TIMESTAMP,
    {
        proof {
            use_type_invariant(self);
        }
        self.secs
    }

    /// The nanoseconds within the second.
    pub fn timestamp_subsec_nanos(&self) -> (nanos: u32)
        ensures
            nanos == self@.1,
    {
        self.nanos
    }

    /// The date and time as RFC 3339 writes it, in whole seconds.
    pub fn to_rfc3339(&self) -> (text: String)
        ensures
            text@ == rfc3339_seconds(self@.0, self@.1),
    {
        proof {
            use_type_invariant(self);
        }
        write_rfc3339(self.secs, self.nanos)
    }
}

/// The end of the stretch of time, from `start` on, in which events are looked at.
pub fn end_of_window(start: &DateTimeUtc) -> (end: DateTimeUtc)
    requires
        start@.0 + WEEKS_AHEAD * SECONDS_PER_WEEK <= MAX_TIMESTAMP,
    ensures
        end@.0 == start@.0 + WEEKS_AHEAD * SECONDS_PER_WEEK,
        end@.1 == start@.1 % 1_000_000_000,
{
    proof {
        use_type_invariant(start);
    }
    let (secs, nanos) = add_weeks(start.secs, start.nanos, WEEKS_AHEAD);
    DateTimeUtc { secs, nanos }
}

// ---------------------------------------------------------------------------
// Laws
// ---------------------------------------------------------------------------

/// Every second from the first to the last has the instants of a second, and those of a leap
/// second exactly where it is the last one of a minute; there are no other instants.
pub proof fn instants_are_those_of_the_calendar(secs: int, nanos: int)
    ensures
        -8_334_601_228_800 <= secs <= 8_210_266_876_799 && 0 <= nanos < 1_000_000_000
            ==> valid_instant(secs, nanos),
        -8_334_601_228_800 <= secs <= 8_210_266_876_799 && 1_000_000_000 <= nanos < 2_000_000_000
            ==> (valid_instant(secs, nanos) <==> (secs + 1) % 60 == 0),
        !(-8_334_601_228_800 <= secs <= 8_210_266_876_799) || !(0 <= nanos < 2_000_000_000)
            ==> !valid_instant(secs, nanos),
{
}

} // verus!
