//! Local time: when a scan was taken, and how that is written.

use crate::text::digit_char;
use vstd::prelude::*;
use vstd::string::*;

verus! {

/// The first second that a date can be given to, as seconds since the Unix epoch.
pub const MIN_SECS: i64 = -8_334_601_228_800;

/// The last second that a date can be given to, as seconds since the Unix epoch.
pub const MAX_SECS: i64 = 8_210_266_876_799;

/// The pattern for date and time.
pub const DATE_TIME: &'static str = "%Y-%m-%d %H:%M:%S";

/// The pattern for the time of day.
pub const TIME_OF_DAY: &'static str = "%H:%M:%S";

/// A point in time together with the local offset from UTC.
#[derive(Clone, Copy, Debug)]
pub struct Timestamp {
    secs: i64,
    nanos: u32,
    offset_secs: i32,
}

/// What a timestamp stands for: seconds since the Unix epoch, nanoseconds since the
/// second began, and the seconds by which local time is ahead of UTC. A leap second
/// counts as part of the second before it, so that there are nanoseconds beyond a
/// billion.
pub struct Instant {
    pub secs: int,
    pub nanos: int,
    pub offset: int,
}

impl Instant {
    /// A date can be given to this point in time.
    pub open spec fn valid(self) -> bool {
        &&& MIN_SECS <= self.secs <= MAX_SECS
        &&& 0 <= self.nanos < 2_000_000_000
        &&& self.nanos >= 1_000_000_000 ==> self.secs % 60 == 59
        &&& -86_400 < self.offset < 86_400
    }

    /// The local time of day, in seconds.
    pub open spec fn second_of_day(self) -> int {
        (self.secs + self.offset) % 86_400
    }

    /// The leap seconds that are past within the second: one or none.
    pub open spec fn leap(self) -> int {
        self.nanos / 1_000_000_000
    }
}

impl View for Timestamp {
    type V = Instant;

    closed spec fn view(&self) -> Instant {
        Instant {
            secs: self.secs as int,
            nanos: self.nanos as int,
            offset: self.offset_secs as int,
        }
    }
}

/// `n` as two decimal digits.
pub open spec fn two_digits(n: int) -> Seq<char> {
    seq![digit_char(n / 10), digit_char(n % 10)]
}

/// Hours, minutes and seconds of the `s`-th second of a day, with `leap` seconds more.
pub open spec fn clock_text(s: int, leap: int) -> Seq<char> {
    two_digits(s / 3600) + seq![':'] + two_digits(s / 60 % 60) + seq![':'] + two_digits(
        s % 60 + leap,
    )
}

/// The text that chrono's `format` gives for the second `secs` since the Unix
/// epoch and `nanos` nanoseconds, seen `offset` seconds ahead of UTC, with a strftime
/// pattern.
pub uninterp spec fn strftime_text(
    secs: int,
    nanos: int,
    offset: int,
    pattern: Seq<char>,
) -> Seq<char>;

/// Calls chrono's `DateTime::format` on the `DateTime<FixedOffset>` for `secs`, `nanos`
/// and `offset`. The contract names the text, and says of the time-of-day pattern
/// that the text is the local hour, minute and second, two digits each; in a leap
/// second the second is one more. `format` panics on an unknown pattern. There is no
/// date before `MIN_SECS` or beyond `MAX_SECS`, no leap second but at the end of a
/// minute, and no offset of a day or more: the precondition leaves these out.
#[verifier::external_body]
fn strftime(secs: i64, nanos: u32, offset: i32, pattern: &str) -> (r: String)
    requires
        MIN_SECS <= secs <= MAX_SECS,
        nanos < 2_000_000_000,
        nanos >= 1_000_000_000 ==> secs as int % 60 == 59,
        -86_400 < offset < 86_400,
        pattern@ == DATE_TIME@ || pattern@ == TIME_OF_DAY@,
    ensures
        r@ == strftime_text(secs as int, nanos as int, offset as int, pattern@),
        pattern@ == TIME_OF_DAY@ ==> r@ == clock_text(
            (secs + offset) % 86_400,
            nanos as int / 1_000_000_000,
        ),
{
    let zone = chrono::FixedOffset::east_opt(offset).unwrap();
    let time = chrono::DateTime::from_timestamp(secs, nanos).unwrap();
    time.with_timezone(&zone).format(pattern).to_string()
}

/// Calls chrono's `Local::now` and takes the second, the nanosecond and the local
/// offset out of the result. They depend on the clock and on the time zone of the
/// machine; the contract says only within which bounds they lie.
#[verifier::external_body]
fn local_now() -> (r: (i64, u32, i32))
    ensures
        0 <= r.0 <= MAX_SECS,
        r.1 < 1_000_000_000,
        -86_400 < r.2 < 86_400,
{
    let t = chrono::Local::now();
    (t.timestamp(), t.timestamp_subsec_nanos(), t.offset().local_minus_utc())
}

impl Timestamp {
    #[verifier::type_invariant]
    spec fn inv(self) -> bool {
        self@.valid()
    }

    /// The point in time with these parts; `None` where no date can be given to it.
    pub fn new(secs: i64, nanos: u32, offset_secs: i32) -> (r: Option<Self>)
        ensures
            r is Some == (Instant {
                secs: secs as int,
                nanos: nanos as int,
                offset: offset_secs as int,
            }).valid(),
            r matches Some(t) ==> t@ == (Instant {
                secs: secs as int,
                nanos: nanos as int,
                offset: offset_secs as int,
            }),
    {
        if MIN_SECS <= secs && secs <= MAX_SECS && nanos < 2_000_000_000 && (nanos < 1_000_000_000
            || (secs - MIN_SECS) as u64 % 60 == 59) && -86_400 < offset_secs && offset_secs
            < 86_400 {
            Some(Timestamp { secs, nanos, offset_secs })
        } else {
            None
        }
    }

    /// The current local time: not before the Unix epoch, and in no leap second.
    pub fn now() -> (r: Self)
        ensures
            r@.valid(),
            r@.secs >= 0,
            r@.leap() == 0,
    {
        let (secs, nanos, offset_secs) = local_now();
        Timestamp { secs, nanos, offset_secs }
    }

    /// Seconds since the Unix epoch.
    pub fn secs(&self) -> (r: i64)
        ensures
            r == self@.secs,
    {
        self.secs
    }

    /// Nanoseconds since the second began.
    pub fn nanos(&self) -> (r: u32)
        ensures
            r == self@.nanos,
    {
        self.nanos
    }

    /// Seconds by which local time is ahead of UTC.
    pub fn offset_secs(&self) -> (r: i32)
        ensures
            r == self@.offset,
    {
        self.offset_secs
    }

    /// Local date and time.
    pub fn date_time(&self) -> (r: String)
        ensures
            r@ == date_time_text(self@),
    {
        proof {
            use_type_invariant(self);
        }
        strftime(self.secs, self.nanos, self.offset_secs, DATE_TIME)
    }

    /// Local time of day.
    pub fn time_of_day(&self) -> (r: String)
        ensures
            r@ == clock_text(self@.second_of_day(), self@.leap()),
    {
        proof {
            use_type_invariant(self);
        }
        strftime(self.secs, self.nanos, self.offset_secs, TIME_OF_DAY)
    }
}

/// The local date and time of a point in time, as text.
pub open spec fn date_time_text(t: Instant) -> Seq<char> {
    strftime_text(t.secs, t.nanos, t.offset, DATE_TIME@)
}

/// The current local date and time, as text.
pub fn ts() -> (r: String)
    ensures
        exists|t: Instant| #[trigger]
            t.valid() && t.secs >= 0 && t.leap() == 0 && r@ == date_time_text(t),
{
    let now = Timestamp::now();
    assert(now@.valid());
    now.date_time()
}

/// The number that two digits write.
pub open spec fn two_digit_value(s: Seq<char>, i: int) -> int {
    10 * (s[i] as int - '0' as int) + (s[i + 1] as int - '0' as int)
}

/// The time of day has two digits each for hours, minutes and seconds, which make up the
/// second of the day.
pub proof fn law_clock_text(s: int, leap: int)
    requires
        0 <= s < 86_400,
        0 <= leap <= 1,
    ensures
        clock_text(s, leap).len() == 8,
        clock_text(s, leap)[2] == ':',
        clock_text(s, leap)[5] == ':',
        0 <= two_digit_value(clock_text(s, leap), 0) < 24,
        0 <= two_digit_value(clock_text(s, leap), 3) < 60,
        leap <= two_digit_value(clock_text(s, leap), 6) < 60 + leap,
        3600 * two_digit_value(clock_text(s, leap), 0) + 60 * two_digit_value(
            clock_text(s, leap),
            3,
        ) + two_digit_value(clock_text(s, leap), 6) == s + leap,
{
}

/// The local second of the day goes with the time zone: it is that of the time in UTC,
/// as many seconds on as local time is ahead, and repeats every day.
pub proof fn law_second_of_day(t: Instant)
    ensures
        0 <= t.second_of_day() < 86_400,
        exists|days: int| #[trigger] (86_400 * days) + t.second_of_day() == t.secs + t.offset,
{
    let n = t.secs + t.offset;
    assert(86_400 * (n / 86_400) + n % 86_400 == n);
}

/// Every second of the years from 1970 to 9999 is a valid time, in every time zone.
pub proof fn law_valid_times(secs: int, nanos: int, offset: int)
    requires
        0 <= secs <= 253_402_300_799,
        0 <= nanos < 1_000_000_000,
        -86_400 < offset < 86_400,
    ensures
        (Instant { secs, nanos, offset }).valid(),
        (Instant { secs, nanos, offset }).leap() == 0,
        !(Instant { secs, nanos, offset: 86_400 }).valid(),
        !(Instant { secs, nanos: 2_000_000_000, offset }).valid(),
{
}

}
