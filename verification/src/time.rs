//! Points in time and the gaps between them.
//!
//! A point in time is kept as plain numbers. What the calendar decides about it
//! (reading RFC 3339 text, the range of dates, differences, printing) comes from
//! `chrono`.

use vstd::prelude::*;

use crate::text::{decimal, decimal_text, two_digit_text, two_digits};

verus! {

pub const NANOS_PER_SECOND: u32 = 1_000_000_000;

pub const SECONDS_PER_DAY: i64 = 86_400;

/// The first second of the earliest date, in the year -262143.
pub const MIN_SECONDS: i64 = -8_334_601_228_800;

/// The last second of the latest date, in the year 262142.
pub const MAX_SECONDS: i64 = 8_210_266_876_799;

/// The longest gap, in nanoseconds: `i64::MAX` milliseconds.
pub const MAX_GAP: i128 = 9_223_372_036_854_775_807_000_000;

/// A point in time: whole seconds since 1970-01-01 00:00 UTC and the
/// nanoseconds since the last whole second. Within a leap second the
/// nanoseconds run past one second; a leap second follows the last second of
/// a minute.
#[derive(Clone, Copy, Debug, PartialEq, Eq, Structural)]
pub struct Timestamp {
    secs: i64,
    nanos: u32,
}

/// True if the numbers name a point in time on the calendar.
pub open spec fn on_calendar(secs: int, nanos: int) -> bool {
    &&& MIN_SECONDS <= secs <= MAX_SECONDS
    &&& 0 <= nanos < 2 * NANOS_PER_SECOND
    &&& nanos >= NANOS_PER_SECOND ==> secs % 60 == 59
}

impl Timestamp {
    pub closed spec fn seconds(self) -> int {
        self.secs as int
    }

    pub closed spec fn nanoseconds(self) -> int {
        self.nanos as int
    }

    #[verifier::type_invariant]
    spec fn valid(self) -> bool {
        on_calendar(self.secs as int, self.nanos as int)
    }

    /// The beginning of a second.
    pub closed spec fn at_second(seconds: int) -> Timestamp {
        Timestamp { secs: seconds as i64, nanos: 0 }
    }

    /// The beginning of a second has the number of that second.
    pub proof fn lemma_at_second(seconds: int)
        requires
            MIN_SECONDS <= seconds <= MAX_SECONDS,
        ensures
            Timestamp::at_second(seconds).seconds() == seconds,
            Timestamp::at_second(seconds).nanoseconds() == 0,
    {
    }

    /// True if `self` is the earlier of the two.
    pub open spec fn before(self, other: Timestamp) -> bool {
        self.seconds() < other.seconds() || (self.seconds() == other.seconds()
            && self.nanoseconds() < other.nanoseconds())
    }

    pub open spec fn earlier_of(self, other: Timestamp) -> Timestamp {
        if other.before(self) {
            other
        } else {
            self
        }
    }

    pub open spec fn later_of(self, other: Timestamp) -> Timestamp {
        if self.before(other) {
            other
        } else {
            self
        }
    }

    /// The second of the day.
    pub open spec fn second_of_day(self) -> int {
        self.seconds() % (SECONDS_PER_DAY as int)
    }

    pub open spec fn in_leap_second(self) -> bool {
        self.nanoseconds() >= NANOS_PER_SECOND
    }

    /// The nanoseconds from `earlier` to `self`. A leap second at one end
    /// counts as a second of its own where the other end lies beyond it in
    /// the day.
    pub open spec fn nanos_since(self, earlier: Timestamp) -> int {
        let plain = (self.seconds() - earlier.seconds()) * NANOS_PER_SECOND + (self.nanoseconds()
            - earlier.nanoseconds());
        if self.second_of_day() > earlier.second_of_day() && earlier.in_leap_second() {
            plain + NANOS_PER_SECOND
        } else if self.second_of_day() < earlier.second_of_day() && self.in_leap_second() {
            plain - NANOS_PER_SECOND
        } else {
            plain
        }
    }

    /// The nanoseconds since the last whole second once the point in time is
    /// moved ahead by whole seconds. Moving ahead leaves a leap second.
    pub open spec fn nanoseconds_ahead(self) -> int {
        if self.in_leap_second() {
            self.nanoseconds() - NANOS_PER_SECOND
        } else {
            self.nanoseconds()
        }
    }

    /// True if `later` is `self` moved ahead by `seconds`.
    pub open spec fn moved_ahead(self, seconds: int, later: Timestamp) -> bool {
        &&& later.seconds() == self.seconds() + seconds
        &&& later.nanoseconds() == self.nanoseconds_ahead()
    }

    /// True if `self` is later than `start` moved ahead by `seconds`.
    pub open spec fn is_past(self, start: Timestamp, seconds: int) -> bool {
        self.seconds() > start.seconds() + seconds || (self.seconds() == start.seconds() + seconds
            && self.nanoseconds() > start.nanoseconds_ahead())
    }
}

/// A signed stretch of time, of at most `i64::MAX` milliseconds either way.
#[derive(Clone, Copy, Debug, PartialEq, Eq, Structural)]
pub struct Gap {
    nanos: i128,
}

/// True for the lengths that a gap can have, in nanoseconds.
pub open spec fn gap_in_range(nanos: int) -> bool {
    -MAX_GAP <= nanos <= MAX_GAP
}

impl Gap {
    /// The length in nanoseconds.
    pub closed spec fn length(self) -> int {
        self.nanos as int
    }

    #[verifier::type_invariant]
    spec fn possible(self) -> bool {
        gap_in_range(self.nanos as int)
    }
}

// ---- outside calls ------------------------------------------------------------

/// The point in time that an RFC 3339 text names, where it names one.
pub uninterp spec fn rfc3339_time(text: Seq<char>) -> Option<Timestamp>;

/// The month and the day of the month of a point in time in UTC, as `%m-%d`
/// prints them.
pub uninterp spec fn utc_month_day(time: Timestamp) -> Seq<char>;

/// The month, the day, the hour and the minute of a point in time in UTC, as
/// `%m-%d %H:%M` prints them.
pub open spec fn utc_month_day_minute(time: Timestamp) -> Seq<char> {
    utc_month_day(time) + " "@ + two_digits((time.second_of_day() / 3600) as nat) + ":"@
        + two_digits((time.second_of_day() % 3600 / 60) as nat)
}

/// Reads RFC 3339 text with `chrono::DateTime::parse_from_rfc3339` and takes
/// the result to UTC. Nothing is claimed of it but that the same text gives
/// the same result.
#[verifier::external_body]
pub(crate) fn parse_rfc3339(text: &str) -> (time: Option<Timestamp>)
    ensures
        time == rfc3339_time(text@),
{
    match chrono::DateTime::parse_from_rfc3339(text) {
        Ok(time) => {
            let utc = time.with_timezone(&chrono::Utc);
            Some(Timestamp { secs: utc.timestamp(), nanos: utc.timestamp_subsec_nanos() })
        },
        Err(_) => None,
    }
}

/// Looks a number of seconds up on the calendar with
/// `chrono::DateTime::from_timestamp`: it names a point in time exactly where
/// it lies between the first second of the year -262143 and the last one of
/// the year 262142.
#[verifier::external_body]
fn calendar_time(secs: i64) -> (time: Option<Timestamp>)
    ensures
        time is Some <==> MIN_SECONDS <= secs <= MAX_SECONDS,
        time matches Some(t) ==> t.seconds() == secs && t.nanoseconds() == 0,
{
    chrono::DateTime::from_timestamp(secs, 0).map(
        |time| Timestamp { secs: time.timestamp(), nanos: time.timestamp_subsec_nanos() },
    )
}

/// The difference of two points in time, as `chrono::DateTime` subtracts them:
/// whole seconds and the nanoseconds that are left, both with the sign of the
/// difference.
#[verifier::external_body]
fn difference(later: Timestamp, earlier: Timestamp) -> (parts: (i64, i32))
    requires
        on_calendar(later.seconds(), later.nanoseconds()),
        on_calendar(earlier.seconds(), earlier.nanoseconds()),
    ensures
        parts.0 * NANOS_PER_SECOND + parts.1 == later.nanos_since(earlier),
{
    let later = chrono::DateTime::from_timestamp(later.secs, later.nanos).unwrap();
    let earlier = chrono::DateTime::from_timestamp(earlier.secs, earlier.nanos).unwrap();
    let gap = later - earlier;
    (gap.num_seconds(), gap.subsec_nanos())
}

/// Moves a point in time ahead with `chrono::DateTime::checked_add_signed`.
/// The result is missing exactly where it would lie beyond the calendar.
#[verifier::external_body]
fn calendar_sum(time: Timestamp, seconds: u32) -> (later: Option<Timestamp>)
    requires
        on_calendar(time.seconds(), time.nanoseconds()),
        seconds > 0,
    ensures
        later is Some <==> time.seconds() + seconds <= MAX_SECONDS,
        later matches Some(t) ==> time.moved_ahead(seconds as int, t),
{
    let start = chrono::DateTime::from_timestamp(time.secs, time.nanos).unwrap();
    start.checked_add_signed(chrono::TimeDelta::seconds(i64::from(seconds))).map(
        |time| Timestamp { secs: time.timestamp(), nanos: time.timestamp_subsec_nanos() },
    )
}

/// Prints a point in time in UTC as `%m-%d` with `chrono::DateTime::format`.
/// Nothing is claimed of the text but that it depends on the point in time
/// alone.
#[verifier::external_body]
fn print_month_day(time: Timestamp) -> (text: String)
    requires
        on_calendar(time.seconds(), time.nanoseconds()),
    ensures
        text@ == utc_month_day(time),
{
    chrono::DateTime::from_timestamp(time.secs, time.nanos).unwrap().format("%m-%d").to_string()
}

/// Prints a point in time in UTC as `%m-%d %H:%M` with
/// `chrono::DateTime::format`: what `%m-%d` prints, a blank, and the hour and
/// the minute of the day with two digits each. A leap second belongs to the
/// minute before it.
#[verifier::external_body]
fn print_month_day_minute(time: Timestamp) -> (text: String)
    requires
        on_calendar(time.seconds(), time.nanoseconds()),
    ensures
        text@ == utc_month_day_minute(time),
{
    chrono::DateTime::from_timestamp(time.secs, time.nanos).unwrap().format(
        "%m-%d %H:%M",
    ).to_string()
}

// ---- operations ---------------------------------------------------------------

impl Timestamp {
    /// The point in time with these numbers, where they are on the calendar.
    pub fn new(secs: i64, nanos: u32) -> (time: Option<Timestamp>)
        ensures
            time is Some <==> on_calendar(secs as int, nanos as int),
            time matches Some(t) ==> t.seconds() == secs && t.nanoseconds() == nanos,
    {
        if secs < MIN_SECONDS || secs > MAX_SECONDS || nanos >= 2 * NANOS_PER_SECOND {
            return None;
        }
        // The seconds are moved to the years from zero on, by whole minutes.
        let shifted: i64 = secs + 8_334_601_228_800;
        if nanos >= NANOS_PER_SECOND && shifted % 60 != 59 {
            return None;
        }
        Some(Timestamp { secs, nanos })
    }

    /// The point in time so many seconds after 1970-01-01 00:00 UTC, where it
    /// is on the calendar.
    pub fn from_unix(secs: i64) -> (time: Option<Timestamp>)
        ensures
            time is Some <==> MIN_SECONDS <= secs <= MAX_SECONDS,
            time matches Some(t) ==> t == Timestamp::at_second(secs as int),
            time matches Some(t) ==> t.seconds() == secs && t.nanoseconds() == 0,
    {
        calendar_time(secs)
    }

    /// The whole seconds since 1970-01-01 00:00 UTC.
    pub fn unix_seconds(&self) -> (secs: i64)
        ensures
            secs == self.seconds(),
            MIN_SECONDS <= secs <= MAX_SECONDS,
    {
        proof {
            use_type_invariant(self);
        }
        self.secs
    }

    /// The nanoseconds since the last whole second.
    pub fn subsecond_nanos(&self) -> (nanos: u32)
        ensures
            nanos == self.nanoseconds(),
    {
        self.nanos
    }

    /// True if `self` is the earlier of the two.
    pub fn is_before(&self, other: &Timestamp) -> (yes: bool)
        ensures
            yes == self.before(*other),
    {
        self.secs < other.secs || (self.secs == other.secs && self.nanos < other.nanos)
    }

    /// The earlier of the two.
    pub fn min(self, other: Timestamp) -> (time: Timestamp)
        ensures
            time == self.earlier_of(other),
    {
        if other.is_before(&self) {
            other
        } else {
            self
        }
    }

    /// The later of the two.
    pub fn max(self, other: Timestamp) -> (time: Timestamp)
        ensures
            time == self.later_of(other),
    {
        if self.is_before(&other) {
            other
        } else {
            self
        }
    }

    /// The gap from `earlier` to `self`; negative where `earlier` is later.
    pub fn since(&self, earlier: &Timestamp) -> (gap: Gap)
        ensures
            gap.length() == self.nanos_since(*earlier),
            gap_in_range(gap.length()),
    {
        proof {
            use_type_invariant(self);
            use_type_invariant(earlier);
        }
        let (secs, nanos) = difference(*self, *earlier);
        Gap { nanos: (secs as i128) * (NANOS_PER_SECOND as i128) + (nanos as i128) }
    }

    /// The point in time `seconds` later, where it is on the calendar.
    pub fn after(&self, seconds: u32) -> (later: Option<Timestamp>)
        requires
            seconds > 0,
        ensures
            later is Some <==> self.seconds() + seconds <= MAX_SECONDS,
            later matches Some(t) ==> self.moved_ahead(seconds as int, t),
    {
        proof {
            use_type_invariant(self);
        }
        calendar_sum(*self, seconds)
    }

    /// The month and the day in UTC.
    pub fn month_day(&self) -> (text: String)
        ensures
            text@ == utc_month_day(*self),
    {
        proof {
            use_type_invariant(self);
        }
        print_month_day(*self)
    }

    /// The month, the day, the hour and the minute in UTC.
    pub fn month_day_minute(&self) -> (text: String)
        ensures
            text@ == utc_month_day_minute(*self),
    {
        proof {
            use_type_invariant(self);
        }
        print_month_day_minute(*self)
    }
}

/// The whole seconds of a gap of so many nanoseconds, none where it is
/// negative.
pub open spec fn whole_seconds(nanos: int) -> nat {
    if nanos <= 0 {
        0
    } else {
        (nanos / (NANOS_PER_SECOND as int)) as nat
    }
}

/// A number of seconds as hours and minutes, minutes and seconds, or seconds.
pub open spec fn clock_text(seconds: nat) -> Seq<char> {
    let hours = seconds / 3600;
    let minutes = (seconds % 3600) / 60;
    if hours > 0 {
        decimal(hours) + "h "@ + two_digits(minutes) + "m"@
    } else if minutes > 0 {
        decimal(minutes) + "m "@ + two_digits(seconds % 60) + "s"@
    } else {
        decimal(seconds) + "s"@
    }
}

impl Gap {
    /// A gap of so many whole seconds, where a gap can be that long.
    pub fn seconds(count: i64) -> (gap: Option<Gap>)
        ensures
            gap is Some <==> gap_in_range(count * NANOS_PER_SECOND),
            gap matches Some(g) ==> g.length() == count * NANOS_PER_SECOND,
    {
        let nanos: i128 = (count as i128) * (NANOS_PER_SECOND as i128);
        if -MAX_GAP <= nanos && nanos <= MAX_GAP {
            Some(Gap { nanos })
        } else {
            None
        }
    }

    /// No time at all.
    pub fn zero() -> (gap: Gap)
        ensures
            gap.length() == 0,
    {
        Gap { nanos: 0 }
    }

    /// The length in nanoseconds.
    pub fn nanoseconds(&self) -> (nanos: i128)
        ensures
            nanos == self.length(),
            gap_in_range(self.length()),
    {
        proof {
            use_type_invariant(self);
        }
        self.nanos
    }

    /// Both gaps together, where a gap can be that long.
    pub fn plus(&self, other: &Gap) -> (sum: Option<Gap>)
        ensures
            sum is Some <==> gap_in_range(self.length() + other.length()),
            sum matches Some(g) ==> g.length() == self.length() + other.length(),
    {
        proof {
            use_type_invariant(self);
            use_type_invariant(other);
        }
        let nanos: i128 = self.nanos + other.nanos;
        if -MAX_GAP <= nanos && nanos <= MAX_GAP {
            Some(Gap { nanos })
        } else {
            None
        }
    }
}

/// A gap as `"3m 12s"`, `"41s"` or `"2h 05m"`; a negative one as `"0s"`.
pub fn fmt_duration(gap: Gap) -> (text: String)
    ensures
        text@ == clock_text(whole_seconds(gap.length())),
{
    proof {
        use_type_invariant(&gap);
    }
    let total: u64 = if gap.nanos <= 0 {
        0
    } else {
        (gap.nanos / 1_000_000_000) as u64
    };
    let hours: u64 = total / 3600;
    let minutes: u64 = (total % 3600) / 60;
    let mut text;
    if hours > 0 {
        text = decimal_text(hours);
        text.append("h ");
        text.append(two_digit_text(minutes).as_str());
        text.append("m");
    } else if minutes > 0 {
        text = decimal_text(minutes);
        text.append("m ");
        text.append(two_digit_text(total % 60).as_str());
        text.append("s");
    } else {
        assert(total == total % 60);
        text = decimal_text(total);
        text.append("s");
    }
    text
}


// ---- laws ---------------------------------------------------------------------

/// Points in time are ordered by their seconds, then by their nanoseconds, and
/// of two the earlier and the later one are told apart by that.
pub proof fn times_are_ordered(a: Timestamp, b: Timestamp)
    ensures
        a.before(b) <==> (a.seconds() < b.seconds() || (a.seconds() == b.seconds()
            && a.nanoseconds() < b.nanoseconds())),
        a.earlier_of(b) == a || a.earlier_of(b) == b,
        !a.before(a.earlier_of(b)),
        !b.before(a.earlier_of(b)),
        a.later_of(b) == a || a.later_of(b) == b,
        !a.later_of(b).before(a),
        !a.later_of(b).before(b),
{
}

/// Outside leap seconds the gap between two points in time is the difference of
/// their numbers, however large it is, and gaps add up.
pub proof fn gaps_are_differences(a: Timestamp, b: Timestamp, c: Timestamp)
    requires
        a.nanoseconds() < 1_000_000_000,
        b.nanoseconds() < 1_000_000_000,
        c.nanoseconds() < 1_000_000_000,
    ensures
        b.nanos_since(a) == (b.seconds() * 1_000_000_000 + b.nanoseconds()) - (a.seconds()
            * 1_000_000_000 + a.nanoseconds()),
        c.nanos_since(b) + b.nanos_since(a) == c.nanos_since(a),
        a.nanos_since(b) == -b.nanos_since(a),
{
}

/// Whole seconds are what is left of a gap without the rest of a second.
pub proof fn rests_of_a_second_are_dropped(seconds: nat, rest: nat)
    requires
        rest < 1_000_000_000,
    ensures
        whole_seconds((seconds * 1_000_000_000 + rest) as int) == seconds,
        whole_seconds(-(rest as int)) == 0,
{
}

/// A gap is shown in the two largest units that it has.
pub proof fn gaps_show_their_units(hours: nat, minutes: nat, seconds: nat)
    requires
        minutes < 60,
        seconds < 60,
    ensures
        hours > 0 ==> clock_text(hours * 3600 + minutes * 60 + seconds) == decimal(hours) + "h "@
            + two_digits(minutes) + "m"@,
        minutes > 0 ==> clock_text(minutes * 60 + seconds) == decimal(minutes) + "m "@ + two_digits(
            seconds,
        ) + "s"@,
        clock_text(seconds) == decimal(seconds) + "s"@,
{
}

/// A point in time is beyond another one and so many seconds exactly if it
/// comes later than where these seconds lead.
pub proof fn moving_ahead_sets_the_limit(
    start: Timestamp,
    seconds: int,
    limit: Timestamp,
    time: Timestamp,
)
    requires
        start.moved_ahead(seconds, limit),
        start.nanoseconds() < 1_000_000_000,
    ensures
        limit.seconds() == start.seconds() + seconds,
        limit.nanoseconds() == start.nanoseconds(),
        time.is_past(start, seconds) <==> limit.before(time),
{
}

/// The clock of a day shows hours and minutes, whatever the day.
pub proof fn clocks_show_hours_and_minutes(
    time: Timestamp,
    day: int,
    hour: nat,
    minute: nat,
    second: nat,
)
    requires
        hour < 24,
        minute < 60,
        second < 60,
        time.seconds() == day * 86_400 + hour * 3_600 + minute * 60 + second,
    ensures
        utc_month_day_minute(time) == utc_month_day(time) + " "@ + two_digits(hour) + ":"@
            + two_digits(minute),
{
    let rest = hour * 3_600 + minute * 60 + second;
    vstd::arithmetic::div_mod::lemma_fundamental_div_mod_converse(
        time.seconds(),
        86_400,
        day,
        rest as int,
    );
    assert(time.second_of_day() == rest);
    assert(rest / 3_600 == hour);
    assert(rest % 3_600 / 60 == minute);
}

/// A leap second is a second of its own in the gap from it to a later second of
/// the day; the gap into it from a later second of a day is shorter by one.
pub proof fn leap_seconds_count(leap: Timestamp, other: Timestamp)
    requires
        leap.nanoseconds() >= 1_000_000_000,
        other.nanoseconds() < 1_000_000_000,
    ensures
        ({
            let leap_nanos = leap.seconds() * 1_000_000_000 + leap.nanoseconds();
            let other_nanos = other.seconds() * 1_000_000_000 + other.nanoseconds();
            let beyond = other.seconds() % 86_400 > leap.seconds() % 86_400;
            &&& beyond ==> other.nanos_since(leap) == other_nanos - leap_nanos + 1_000_000_000
            &&& beyond ==> leap.nanos_since(other) == leap_nanos - other_nanos - 1_000_000_000
            &&& !beyond ==> other.nanos_since(leap) == other_nanos - leap_nanos
            &&& !beyond ==> leap.nanos_since(other) == leap_nanos - other_nanos
        }),
{
}

/// A point in time has less than two seconds of nanoseconds, and a whole one only
/// in the last second of a minute.
pub proof fn points_in_time_are_on_the_calendar(secs: int, nanos: int)
    ensures
        on_calendar(secs, nanos) <==> {
            &&& -8_334_601_228_800 <= secs <= 8_210_266_876_799
            &&& 0 <= nanos < 2_000_000_000
            &&& nanos < 1_000_000_000 || secs % 60 == 59
        },
{
}

/// Moving ahead from a leap second leads to the same part of a plain one.
pub proof fn moving_ahead_leaves_a_leap_second(
    start: Timestamp,
    seconds: int,
    limit: Timestamp,
    time: Timestamp,
)
    requires
        start.moved_ahead(seconds, limit),
        start.nanoseconds() >= 1_000_000_000,
    ensures
        limit.seconds() == start.seconds() + seconds,
        limit.nanoseconds() == start.nanoseconds() - 1_000_000_000,
        time.is_past(start, seconds) <==> limit.before(time),
{
}

/// Gaps reach as far as the milliseconds that 63 bits can count.
pub proof fn gaps_reach_far(nanos: int)
    ensures
        gap_in_range(nanos) <==> -0x7fff_ffff_ffff_ffff * 1_000_000 <= nanos
            <= 0x7fff_ffff_ffff_ffff * 1_000_000,
{
}

} // verus!
