//! Points in time, how they are written to a row and how they are shown.

#[allow(unused_imports)]
use crate::text::{decimal, decimal_text};
use vstd::prelude::*;
use vstd::string::*;

verus! {

/// The format in which times are stored.
pub const DATE_TIME_FORMAT: &'static str = "%Y-%m-%d %H:%M:%S";

/// The other format in which a stored time is understood.
pub const ISO_FORMAT: &'static str = "%Y-%m-%dT%H:%M:%S";

/// The format of a day in the name of a conversation.
pub const DAY_FORMAT: &'static str = "%Y%m%d";

/// The first second of the calendar that times are written in.
pub const MIN_SECONDS: i64 = -8334601228800;

/// The last second of the calendar that times are written in.
pub const MAX_SECONDS: i64 = 8210266876799;

/// A date and time without a zone: the seconds since 1970-01-01 00:00:00 and
/// the nanoseconds into that second. A leap second is counted on top of the
/// second before it, so its nanoseconds run past a billion.
#[derive(Clone, Copy, PartialEq, Eq, Structural, Debug)]
pub struct Timestamp {
    pub seconds: i64,
    pub nanos: u32,
}

impl Timestamp {
    /// The calendar has this point in time.
    pub open spec fn valid(self) -> bool {
        &&& MIN_SECONDS <= self.seconds <= MAX_SECONDS
        &&& self.nanos < 2_000_000_000
        &&& self.nanos >= 1_000_000_000 ==> self.seconds % 60 == 59
    }

    /// Inside a leap second.
    pub open spec fn leap(self) -> bool {
        self.nanos >= 1_000_000_000
    }

    /// The year is between 0 and 9999.
    pub open spec fn four_digit_year(self) -> bool {
        -62167219200 <= self.seconds <= 253402300799
    }

    /// `self` is later than `other`.
    pub open spec fn after(self, other: Timestamp) -> bool {
        self.seconds > other.seconds || (self.seconds == other.seconds && self.nanos > other.nanos)
    }

    pub fn is_after(self, other: Timestamp) -> (r: bool)
        ensures
            r == self.after(other),
            r <==> self.seconds > other.seconds || (self.seconds == other.seconds && self.nanos
                > other.nanos),
    {
        self.seconds > other.seconds || (self.seconds == other.seconds && self.nanos > other.nanos)
    }

    pub fn is_valid(self) -> (r: bool)
        ensures
            r == self.valid(),
    {
        let minute = (self.seconds as i128 + 9_000_000_000_000_000_000_000i128) % 60;
        assert((self.seconds as int + 9_000_000_000_000_000_000_000) % 60 == (self.seconds as int)
            % 60);
        MIN_SECONDS <= self.seconds && self.seconds <= MAX_SECONDS && self.nanos < 2_000_000_000
            && (self.nanos < 1_000_000_000 || minute == 59)
    }

    /// The calendar has this point in time and the same time a day later.
    pub open spec fn storable(self) -> bool {
        self.valid() && self.seconds + 86400 <= MAX_SECONDS
    }

    pub fn is_storable(self) -> (r: bool)
        ensures
            r == self.storable(),
    {
        self.is_valid() && self.seconds <= MAX_SECONDS - 86400
    }
}

impl Default for Timestamp {
    /// 1970-01-01 00:00:00.
    fn default() -> (r: Timestamp)
        ensures
            r == (Timestamp { seconds: 0, nanos: 0 }),
    {
        Timestamp { seconds: 0, nanos: 0 }
    }
}

// ---------------------------------------------------------------------
// What the calendar crate is trusted for
// ---------------------------------------------------------------------

/// The text holds nothing but decimal digits.
pub open spec fn all_digits(s: Seq<char>) -> bool {
    forall|i: int| 0 <= i < s.len() ==> '0' <= #[trigger] s[i] <= '9'
}

/// A point in time in a `strftime` format, as `NaiveDateTime::format` writes
/// it.
pub uninterp spec fn formatted(seconds: i64, nanos: u32, format: Seq<char>) -> Seq<char>;

/// `chrono::NaiveDateTime::format`, turned into a string: a function of the
/// time and the format. In the format of a day, a year between 0 and 9999 is
/// written with four digits, and the month and the day with two each.
#[verifier::external_body]
fn write_time(at: Timestamp, format: &str) -> (r: String)
    requires
        at.valid(),
        format@ == DATE_TIME_FORMAT@ || format@ == DAY_FORMAT@,
    ensures
        r@ == formatted(at.seconds, at.nanos, format@),
        format@ == DAY_FORMAT@ && at.four_digit_year() ==> r@.len() == 8 && all_digits(r@),
{
    let time = chrono::DateTime::from_timestamp(at.seconds, at.nanos).unwrap().naive_utc();
    time.format(format).to_string()
}

/// What `NaiveDateTime::parse_from_str` makes of a text in a format: the
/// seconds and nanoseconds, if it is a time in that format.
pub uninterp spec fn parsed(value: Seq<char>, format: Seq<char>) -> Option<(i64, u32)>;

/// `chrono::NaiveDateTime::parse_from_str`: a function of the text and the
/// format. A time of a four-digit year that was written in the storage format
/// reads back as the same second.
#[verifier::external_body]
fn read_time(value: &str, format: &str) -> (r: Option<Timestamp>)
    ensures
        match r {
            Some(at) => at.valid() && parsed(value@, format@) == Some((at.seconds, at.nanos)),
            None => parsed(value@, format@) is None,
        },
        forall|at: Timestamp|
            #![trigger formatted(at.seconds, at.nanos, format@)]
            at.valid() && !at.leap() && at.four_digit_year() && format@ == DATE_TIME_FORMAT@
                && value@ == formatted(at.seconds, at.nanos, format@) ==> r == Some(
                Timestamp { seconds: at.seconds, nanos: 0 },
            ),
{
    let time = chrono::NaiveDateTime::parse_from_str(value, format).ok()?;
    let utc = time.and_utc();
    Some(Timestamp { seconds: utc.timestamp(), nanos: utc.timestamp_subsec_nanos() })
}

/// `NaiveDateTime + Duration::hours(hours)`: so many hours later. Leaving a
/// leap second drops it.
#[verifier::external_body]
fn later_by_hours(at: Timestamp, hours: i64) -> (r: Timestamp)
    requires
        at.valid(),
        0 < hours,
        at.seconds + 3600 * hours <= MAX_SECONDS,
    ensures
        r.valid(),
        r.seconds == at.seconds + 3600 * hours,
        r.nanos == at.nanos % 1_000_000_000,
{
    let time = chrono::DateTime::from_timestamp(at.seconds, at.nanos).unwrap().naive_utc();
    let utc = (time + chrono::Duration::hours(hours)).and_utc();
    Timestamp { seconds: utc.timestamp(), nanos: utc.timestamp_subsec_nanos() }
}

/// The second of the day.
pub open spec fn second_of_day(at: Timestamp) -> int {
    at.seconds as int % 86400
}

/// The whole seconds from one time to another: the fraction of a second is cut
/// off, in whichever direction time runs. A leap second counts when the
/// earlier of the two times of day lies in it.
pub open spec fn seconds_between(from: Timestamp, to: Timestamp) -> int {
    let leap: int = if second_of_day(to) > second_of_day(from) && from.leap() {
        1
    } else if second_of_day(to) < second_of_day(from) && to.leap() {
        -1
    } else {
        0
    };
    let nanos = to.nanos - from.nanos;
    let seconds = to.seconds - from.seconds + leap + nanos / 1_000_000_000;
    if seconds < 0 && nanos % 1_000_000_000 > 0 {
        seconds + 1
    } else {
        seconds
    }
}

/// `(to - from).num_seconds()` on two `NaiveDateTime`s. The days between them
/// and the difference of the times of day are added up; the latter knows a
/// leap second only by the nanoseconds of the time that lies in it.
#[verifier::external_body]
fn whole_seconds(from: Timestamp, to: Timestamp) -> (r: i64)
    requires
        from.valid(),
        to.valid(),
    ensures
        r == seconds_between(from, to),
{
    let start = chrono::DateTime::from_timestamp(from.seconds, from.nanos).unwrap().naive_utc();
    let end = chrono::DateTime::from_timestamp(to.seconds, to.nanos).unwrap().naive_utc();
    (end - start).num_seconds()
}

// ---------------------------------------------------------------------
// Storage
// ---------------------------------------------------------------------

/// A time as it is stored.
pub fn format_time(value: Timestamp) -> (r: String)
    requires
        value.valid(),
    ensures
        r@ == formatted(value.seconds, value.nanos, DATE_TIME_FORMAT@),
{
    write_time(value, DATE_TIME_FORMAT)
}

/// The day of a time, as it stands in the name of a conversation.
pub fn day_text(value: Timestamp) -> (r: String)
    requires
        value.valid(),
    ensures
        r@ == formatted(value.seconds, value.nanos, DAY_FORMAT@),
        value.four_digit_year() ==> r@.len() == 8 && all_digits(r@),
{
    write_time(value, DAY_FORMAT)
}

/// `expires_at` is retained purely so that a session stays readable by an
/// older program, which sorts on it. It carries no other meaning than a day
/// after the last use.
pub fn legacy_expires_at(last_used_at: Timestamp) -> (r: String)
    requires
        last_used_at.storable(),
    ensures
        r@ == formatted(
            (last_used_at.seconds + 86400) as i64,
            (last_used_at.nanos % 1_000_000_000) as u32,
            DATE_TIME_FORMAT@,
        ),
{
    format_time(later_by_hours(last_used_at, 24))
}

/// The time a stored text stands for; the epoch when it is not one.
pub open spec fn stored_time(value: Seq<char>) -> (i64, u32) {
    match parsed(value, DATE_TIME_FORMAT@) {
        Some(at) => at,
        None => match parsed(value, ISO_FORMAT@) {
            Some(at) => at,
            None => (0i64, 0u32),
        },
    }
}

/// Read a stored time. What `format_time` wrote reads back to the second.
pub fn parse_time(value: &str) -> (r: Timestamp)
    ensures
        r.valid(),
        (r.seconds, r.nanos) == stored_time(value@),
        parsed(value@, DATE_TIME_FORMAT@) is Some ==> (r.seconds, r.nanos) == parsed(
            value@,
            DATE_TIME_FORMAT@,
        )->0,
        parsed(value@, DATE_TIME_FORMAT@) is None && parsed(value@, ISO_FORMAT@) is Some ==> (
            r.seconds,
            r.nanos,
        ) == parsed(value@, ISO_FORMAT@)->0,
        parsed(value@, DATE_TIME_FORMAT@) is None && parsed(value@, ISO_FORMAT@) is None
            ==> r.seconds == 0 && r.nanos == 0,
        forall|at: Timestamp|
            #![trigger formatted(at.seconds, at.nanos, DATE_TIME_FORMAT@)]
            at.valid() && !at.leap() && at.four_digit_year() && value@ == formatted(
                at.seconds,
                at.nanos,
                DATE_TIME_FORMAT@,
            ) ==> r == (Timestamp { seconds: at.seconds, nanos: 0 }),
{
    match read_time(value, DATE_TIME_FORMAT) {
        Some(at) => at,
        None => match read_time(value, ISO_FORMAT) {
            Some(at) => at,
            None => Timestamp::default(),
        },
    }
}

// ---------------------------------------------------------------------
// Display
// ---------------------------------------------------------------------

/// A count with its unit: "1 day ago", "2 days ago".
pub open spec fn ago(value: int, unit: Seq<char>) -> Seq<char> {
    decimal(value as nat) + " "@ + unit + (if value == 1 {
        ""@
    } else {
        "s"@
    }) + " ago"@
}

/// An age in words, in the largest unit that it fills.
pub open spec fn age_text(seconds: int) -> Seq<char> {
    if seconds < 60 {
        "just now"@
    } else if seconds < 3600 {
        ago(seconds / 60, "minute"@)
    } else if seconds < 86_400 {
        ago(seconds / 3600, "hour"@)
    } else if seconds < 2_592_000 {
        ago(seconds / 86_400, "day"@)
    } else if seconds < 31_536_000 {
        ago(seconds / 2_592_000, "month"@)
    } else {
        ago(seconds / 31_536_000, "year"@)
    }
}

fn write_ago(value: u64, unit: &str) -> (r: String)
    ensures
        r@ == ago(value as int, unit@),
{
    let mut r = decimal_text(value);
    r.append(" ");
    r.append(unit);
    r.append(if value == 1 {
        ""
    } else {
        "s"
    });
    r.append(" ago");
    r
}

/// An age of so many seconds in words.
pub fn humanise_seconds(seconds: i64) -> (r: String)
    ensures
        r@ == age_text(seconds as int),
{
    if seconds < 60 {
        return "just now".to_owned();
    }
    let s = seconds as u64;
    if s < 3600 {
        write_ago(s / 60, "minute")
    } else if s < 86_400 {
        write_ago(s / 3600, "hour")
    } else if s < 2_592_000 {
        write_ago(s / 86_400, "day")
    } else if s < 31_536_000 {
        write_ago(s / 2_592_000, "month")
    } else {
        write_ago(s / 31_536_000, "year")
    }
}

/// How long ago `moment` was, in words.
pub open spec fn age_at(moment: Timestamp, now: Timestamp) -> Seq<char> {
    age_text(seconds_between(moment, now))
}

/// "3 minutes ago" beats a timestamp the reader has to subtract from today.
pub fn humanise_age(moment: Timestamp, now: Timestamp) -> (r: String)
    requires
        moment.valid(),
        now.valid(),
    ensures
        r@ == age_at(moment, now),
{
    humanise_seconds(whole_seconds(moment, now))
}

// ---------------------------------------------------------------------
// Laws
// ---------------------------------------------------------------------

/// An age is told in whole units of the largest kind that fits into it at
/// least once: minutes, hours, days, months of thirty days and years of three
/// hundred and sixty-five. More than one of a unit is told in the plural, and
/// less than a minute is just now.
pub proof fn an_age_is_told_in_the_largest_unit_that_fits(seconds: int, n: int)
    ensures
        seconds < 60 ==> age_text(seconds) == "just now"@,
        60 <= seconds < 60 * 60 && n * 60 <= seconds < (n + 1) * 60 ==> age_text(seconds) == decimal(n as nat)
            + " "@ + "minute"@ + (if n == 1 {
            ""@
        } else {
            "s"@
        }) + " ago"@,
        60 * 60 <= seconds < 24 * 60 * 60 && n * 3600 <= seconds < (n + 1) * 3600 ==> age_text(seconds)
            == decimal(n as nat) + " "@ + "hour"@ + (if n == 1 {
            ""@
        } else {
            "s"@
        }) + " ago"@,
        24 * 60 * 60 <= seconds < 30 * 24 * 60 * 60 && n * 86_400 <= seconds < (n + 1) * 86_400 ==> age_text(
            seconds,
        ) == decimal(n as nat) + " "@ + "day"@ + (if n == 1 {
            ""@
        } else {
            "s"@
        }) + " ago"@,
        30 * 24 * 60 * 60 <= seconds < 365 * 24 * 60 * 60 && n * 2_592_000 <= seconds < (n + 1) * 2_592_000
            ==> age_text(seconds) == decimal(n as nat) + " "@ + "month"@ + (if n == 1 {
            ""@
        } else {
            "s"@
        }) + " ago"@,
        365 * 24 * 60 * 60 <= seconds && n * 31_536_000 <= seconds < (n + 1) * 31_536_000 ==> age_text(seconds)
            == decimal(n as nat) + " "@ + "year"@ + (if n == 1 {
            ""@
        } else {
            "s"@
        }) + " ago"@,
{
    assert(n * 60 <= seconds < (n + 1) * 60 ==> n == seconds / 60);
    assert(n * 3600 <= seconds < (n + 1) * 3600 ==> n == seconds / 3600);
    assert(n * 86_400 <= seconds < (n + 1) * 86_400 ==> n == seconds / 86_400);
    assert(n * 2_592_000 <= seconds < (n + 1) * 2_592_000 ==> n == seconds / 2_592_000);
    assert(n * 31_536_000 <= seconds < (n + 1) * 31_536_000 ==> n == seconds / 31_536_000);
}

/// How long ago a moment was counts from the moment to now: at one fraction of
/// a second, and outside leap seconds, it is the difference of their seconds.
pub proof fn an_age_counts_from_the_moment_to_now(moment: Timestamp, now: Timestamp)
    requires
        moment.nanos == now.nanos,
        moment.nanos < 1_000_000_000,
    ensures
        age_at(moment, now) == age_text(now.seconds - moment.seconds),
{
}

/// A stored time is read in the format that times are stored in, else in the
/// other one, and is the epoch when it is written in neither.
pub proof fn a_stored_time_is_read_in_either_format(value: Seq<char>)
    ensures
        parsed(value, "%Y-%m-%d %H:%M:%S"@) is Some ==> stored_time(value) == parsed(
            value,
            "%Y-%m-%d %H:%M:%S"@,
        )->0,
        parsed(value, "%Y-%m-%d %H:%M:%S"@) is None && parsed(value, "%Y-%m-%dT%H:%M:%S"@) is Some
            ==> stored_time(value) == parsed(value, "%Y-%m-%dT%H:%M:%S"@)->0,
        parsed(value, "%Y-%m-%d %H:%M:%S"@) is None && parsed(value, "%Y-%m-%dT%H:%M:%S"@) is None
            ==> stored_time(value) == (0i64, 0u32),
{
}

} // verus!
