//! Arrival instants.
//!
//! A [`Timestamp`] holds an instant as three plain integers, so that it can be
//! written down, compared and reasoned about. The wall clock and the calendar
//! are chrono's: this module reads the clock and renders instants through it.

use vstd::prelude::*;

verus! {

/// An instant together with the local zone's offset at that instant.
#[derive(Clone, Copy, Debug, PartialEq, Eq, Structural)]
pub struct Timestamp {
    /// Whole seconds since 1970-01-01T00:00:00 UTC.
    pub secs: i64,
    /// Nanoseconds past that second.
    pub nanos: u32,
    /// Seconds that local time is ahead of UTC at this instant.
    pub offset: i32,
}

impl DeepView for Timestamp {
    type V = Timestamp;

    open spec fn deep_view(&self) -> Timestamp {
        *self
    }
}

/// The last second of the year 9999, in seconds since the epoch.
pub const LAST_SECOND: i64 = 253_402_300_799;

/// What chrono's `format` writes for the instant `secs`.`nanos`, shown in the
/// zone `offset` seconds east of UTC, under the format string `pattern`.
pub uninterp spec fn formatted_time(
    secs: int,
    nanos: int,
    offset: int,
    pattern: Seq<char>,
) -> Seq<char>;

/// The decimal digit `d` as a character.
pub open spec fn digit(d: int) -> char
    recommends
        0 <= d <= 9,
{
    ((48 + d) as u8) as char
}

/// `n` written with exactly two decimal digits.
pub open spec fn two_digits(n: int) -> Seq<char>
    recommends
        0 <= n <= 99,
{
    seq![digit(n / 10), digit(n % 10)]
}

impl Timestamp {
    /// The instants this library renders: from the epoch to the end of the
    /// year 9999, no leap-second encoding, and an offset of less than a day.
    pub open spec fn wf(self) -> bool {
        &&& 0 <= self.secs <= LAST_SECOND
        &&& self.nanos <= 999_999_999
        &&& -86_400 < self.offset < 86_400
    }

    /// What a clock read at this instant may return.
    pub open spec fn from_clock(self) -> bool {
        &&& 0 <= self.secs
        &&& self.nanos <= 999_999_999
        &&& -86_400 < self.offset < 86_400
    }

    /// Seconds since local midnight: the remainder, never negative, of the
    /// local seconds since the epoch by the seconds of a day.
    pub open spec fn second_of_day(self) -> int {
        (self.secs + self.offset) % 86_400
    }

    /// The local time of day as `HH:MM:SS`.
    pub open spec fn clock_text(self) -> Seq<char> {
        let s = self.second_of_day();
        let hour = two_digits(s / 3600);
        let minute = two_digits((s / 60) % 60);
        let second = two_digits(s % 60);
        hour + seq![':'] + minute + seq![':'] + second
    }

    /// The local date and time as chrono writes `%Y-%m-%d %H:%M:%S`.
    pub open spec fn date_time_text(self) -> Seq<char> {
        formatted_time(
            self.secs as int,
            self.nanos as int,
            self.offset as int,
            "%Y-%m-%d %H:%M:%S"@,
        )
    }

    /// The current instant in the machine's local zone.
    pub fn now() -> (t: Timestamp)
        ensures
            t.from_clock(),
    {
        local_now()
    }

    /// Whether this instant is one the library renders.
    pub fn is_valid(&self) -> (ok: bool)
        ensures
            ok == self.wf(),
    {
        0 <= self.secs && self.secs <= LAST_SECOND && self.nanos <= 999_999_999
            && -86_400 < self.offset && self.offset < 86_400
    }

    /// The local time of day, `HH:MM:SS`; `None` for an instant outside the
    /// range the library renders.
    pub fn clock(&self) -> (text: Option<String>)
        ensures
            text is Some <==> self.wf(),
            text matches Some(s) ==> s@ == self.clock_text(),
    {
        if self.is_valid() {
            Some(format_time(self, "%H:%M:%S"))
        } else {
            None
        }
    }

    /// The local date and time, `YYYY-MM-DD HH:MM:SS`; `None` for an instant
    /// outside the range the library renders.
    pub fn date_time(&self) -> (text: Option<String>)
        ensures
            text is Some <==> self.wf(),
            text matches Some(s) ==> s@ == self.date_time_text(),
    {
        if self.is_valid() {
            Some(format_time(self, "%Y-%m-%d %H:%M:%S"))
        } else {
            None
        }
    }
}

/// `chrono::Local::now`, kept as the three integers that chrono's
/// `timestamp`, `timestamp_subsec_nanos` and `offset().local_minus_utc()`
/// report of it.
///
/// Trusted: chrono builds the value from the time elapsed since the epoch
/// (and stops the program if the system clock is set before it), so the
/// seconds are not negative and the nanoseconds stay below one second; a
/// zone offset in chrono is always less than a day.
#[verifier::external_body]
fn local_now() -> (t: Timestamp)
    ensures
        t.from_clock(),
{
    let now = chrono::Local::now();
    Timestamp {
        secs: now.timestamp(),
        nanos: now.timestamp_subsec_nanos(),
        offset: now.offset().local_minus_utc(),
    }
}

/// `chrono::DateTime::format` on the instant `t`, rebuilt as a chrono value
/// with `DateTime::from_timestamp` and shown in the fixed zone
/// `FixedOffset::east_opt(t.offset)`.
///
/// Trusted: the text is a function of the instant, the offset and the format
/// string alone, and `%H:%M:%S` writes the local hour, minute and second with
/// two digits each. The two format strings admitted are well formed, and every
/// instant that satisfies `wf` is within chrono's range.
#[verifier::external_body]
fn format_time(t: &Timestamp, pattern: &str) -> (text: String)
    requires
        t.wf(),
        pattern@ == "%H:%M:%S"@ || pattern@ == "%Y-%m-%d %H:%M:%S"@,
    ensures
        text@ == formatted_time(t.secs as int, t.nanos as int, t.offset as int, pattern@),
        pattern@ == "%H:%M:%S"@ ==> text@ == t.clock_text(),
{
    let zone = chrono::FixedOffset::east_opt(t.offset).unwrap();
    let utc = chrono::DateTime::from_timestamp(t.secs, t.nanos).unwrap();
    utc.with_timezone(&zone).format(pattern).to_string()
}

} // verus!
