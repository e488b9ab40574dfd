//! Points in time and how they are written.

use vstd::prelude::*;

verus! {

/// The start of the year -262143 in seconds since 1970.
pub const FIRST_SECOND: i64 = -8_334_601_228_800;

/// The last second of the year 262142 in seconds since 1970.
pub const LAST_SECOND: i64 = 8_210_266_876_799;

/// Whether `seconds` since 1970 and `nanos` behind them are a point in time that
/// has a date: from the year -262143 to the year 262142. A second that is the
/// last of its minute may be followed by a leap second.
pub open spec fn has_date(seconds: int, nanos: int) -> bool {
    &&& FIRST_SECOND <= seconds <= LAST_SECOND
    &&& 0 <= nanos < 2_000_000_000
    &&& nanos >= 1_000_000_000 ==> seconds % 60 == 59
}

/// A point in time: seconds since 1970 and nanoseconds.
#[derive(Debug, Clone, Copy, PartialEq, Eq, Structural)]
pub struct Timestamp {
    pub seconds: i64,
    pub nanos: u32,
}

/// How RFC 3339 writes the point in time `seconds` since 1970 and `nanos` in UTC.
pub uninterp spec fn rfc3339_text(seconds: int, nanos: int) -> Seq<char>;

/// `DateTime::from_timestamp` of `chrono` is documented to give the point in time
/// for the seconds and nanoseconds in its range, and `DateTime::to_rfc3339` to
/// write it as RFC 3339 does. The text depends on these two numbers alone and is
/// given a name.
#[verifier::external_body]
fn write_rfc3339(seconds: i64, nanos: u32) -> (r: String)
    requires
        has_date(seconds as int, nanos as int),
    ensures
        r@ == rfc3339_text(seconds as int, nanos as int),
{
    chrono::DateTime::from_timestamp(seconds, nanos).unwrap().to_rfc3339()
}

/// `Utc::now` of `chrono` reads the clock. It makes its result by
/// `DateTime::from_timestamp`, so the result has a date, from whole seconds and the
/// nanoseconds behind them, so it is no leap second. It does not return where the clock
/// stands before 1970 or behind the last date, which no caller can rule out.
#[verifier::external_body]
fn utc_now() -> (r: (i64, u32))
    ensures
        has_date(r.0 as int, r.1 as int),
        r.1 < 1_000_000_000,
{
    let now = chrono::Utc::now();
    (now.timestamp(), now.timestamp_subsec_nanos())
}

impl Timestamp {
    /// Whether the point in time has a date.
    pub open spec fn wf(self) -> bool {
        has_date(self.seconds as int, self.nanos as int)
    }

    /// The text of the point in time.
    pub open spec fn text(self) -> Seq<char> {
        rfc3339_text(self.seconds as int, self.nanos as int)
    }

    /// The point in time `seconds` since 1970 and `nanos`, if it has a date.
    pub fn new(seconds: i64, nanos: u32) -> (r: Option<Timestamp>)
        ensures
            r == if has_date(seconds as int, nanos as int) {
                Some(Timestamp { seconds, nanos })
            } else {
                None
            },
    {
        if seconds < FIRST_SECOND || seconds > LAST_SECOND || nanos >= 2_000_000_000 {
            None
        } else if nanos >= 1_000_000_000 && ((seconds - FIRST_SECOND) as u64) % 60 != 59 {
            None
        } else {
            Some(Timestamp { seconds, nanos })
        }
    }

    /// The current time, as the clock says. The clock shows no leap seconds.
    pub fn now() -> (r: Timestamp)
        ensures
            r.wf(),
            r.nanos < 1_000_000_000,
    {
        let (seconds, nanos) = utc_now();
        Timestamp { seconds, nanos }
    }

    /// The point in time as RFC 3339 writes it.
    pub fn to_rfc3339(&self) -> (r: String)
        requires
            self.wf(),
        ensures
            r@ == self.text(),
    {
        write_rfc3339(self.seconds, self.nanos)
    }
}

} // verus!
