//! Calendar days, weekdays, and the machine's clock and time zone.
//!
//! A day is counted from 1 January 1970, so that the day after is one more
//! and the weekday is a remainder. What depends on the time zone of the
//! machine is asked of `chrono`.

use chrono::{Local, LocalResult, NaiveDate, TimeZone, Timelike, Utc};
use vstd::prelude::*;

verus! {

/// A day of the week.
#[derive(Debug, Clone, Copy, PartialEq, Eq, Structural)]
pub enum Weekday {
    Mon,
    Tue,
    Wed,
    Thu,
    Fri,
    Sat,
    Sun,
}

impl Weekday {
    /// The weekday's place in the week, Monday being 0.
    pub open spec fn index(self) -> int {
        match self {
            Weekday::Mon => 0,
            Weekday::Tue => 1,
            Weekday::Wed => 2,
            Weekday::Thu => 3,
            Weekday::Fri => 4,
            Weekday::Sat => 5,
            Weekday::Sun => 6,
        }
    }

    /// The weekday at a place in the week, Monday being 0.
    pub open spec fn at(i: int) -> Weekday {
        if i == 0 {
            Weekday::Mon
        } else if i == 1 {
            Weekday::Tue
        } else if i == 2 {
            Weekday::Wed
        } else if i == 3 {
            Weekday::Thu
        } else if i == 4 {
            Weekday::Fri
        } else if i == 5 {
            Weekday::Sat
        } else {
            Weekday::Sun
        }
    }

    /// Whether the weekday is one of Monday to Friday.
    pub open spec fn is_workday(self) -> bool {
        self.index() < 5
    }

    /// How many days the weekday lies after Monday.
    pub fn num_days_from_monday(self) -> (n: u32)
        ensures
            n as int == self.index(),
    {
        match self {
            Weekday::Mon => 0,
            Weekday::Tue => 1,
            Weekday::Wed => 2,
            Weekday::Thu => 3,
            Weekday::Fri => 4,
            Weekday::Sat => 5,
            Weekday::Sun => 6,
        }
    }
}

/// The place in the week, Monday being 0, of the day that lies `days` days
/// after 1 January 1970, a Thursday.
pub open spec fn weekday_index(days: int) -> int {
    (days + 3) % 7
}

/// A calendar day, counted in days from 1 January 1970.
#[derive(Debug, Clone, Copy, PartialEq, Eq, Structural)]
pub struct CalendarDay {
    pub days: i32,
}

impl CalendarDay {
    /// The day that lies `days` days after 1 January 1970.
    pub fn from_epoch_days(days: i32) -> (d: CalendarDay)
        ensures
            d.days == days,
    {
        CalendarDay { days }
    }

    /// How many days the day lies after 1 January 1970.
    pub fn to_epoch_days(self) -> (days: i32)
        ensures
            days == self.days,
    {
        self.days
    }

    /// The day of the week on which the day falls.
    pub open spec fn spec_weekday(self) -> Weekday {
        Weekday::at(weekday_index(self.days as int))
    }

    /// The day of the week on which the day falls.
    pub fn weekday(self) -> (w: Weekday)
        ensures
            w == self.spec_weekday(),
            w.index() == weekday_index(self.days as int),
    {
        // 2147483649 is 3 more than a multiple of 7 and lifts every day above 0.
        let lifted: i64 = self.days as i64 + 2147483649;
        let i: i64 = lifted % 7;
        assert(i as int == weekday_index(self.days as int)) by {
            assert(lifted as int == (self.days as int + 3) + 7 * 306783378);
            vstd::arithmetic::div_mod::lemma_mod_multiples_vanish(
                306783378,
                self.days as int + 3,
                7,
            );
        }
        if i == 0 {
            Weekday::Mon
        } else if i == 1 {
            Weekday::Tue
        } else if i == 2 {
            Weekday::Wed
        } else if i == 3 {
            Weekday::Thu
        } else if i == 4 {
            Weekday::Fri
        } else if i == 5 {
            Weekday::Sat
        } else {
            Weekday::Sun
        }
    }
}

/// The Monday of the week in which a day lies.
pub fn week_start(day: CalendarDay) -> (monday: CalendarDay)
    requires
        day.days >= i32::MIN + 6,
    ensures
        monday.days == day.days - weekday_index(day.days as int),
        weekday_index(monday.days as int) == 0,
        monday.days <= day.days < monday.days + 7,
{
    let back: u32 = day.weekday().num_days_from_monday();
    CalendarDay { days: day.days - back as i32 }
}

/// An instant as the machine's time zone shows it: the day, and the hour and
/// minute of the wall clock.
#[derive(Debug, Clone, Copy, PartialEq, Eq, Structural)]
pub struct LocalMoment {
    pub day: CalendarDay,
    pub hour: u32,
    pub minute: u32,
}

/// The milliseconds that a wall clock counts from the first midnight of
/// 1970 to the given minute of the given day.
pub open spec fn wall_millis(days: int, hour: int, minute: int) -> int {
    days * 86400000 + hour * 3600000 + minute * 60000
}

/// Whether an instant lies less than a day from a reading of the wall
/// clock, both in milliseconds. A wall clock is never a day or more ahead
/// of or behind the clock of the Unix epoch.
pub open spec fn within_a_day(instant: i64, wall: int) -> bool {
    -86400000 < instant - wall < 86400000
}

impl LocalMoment {
    /// The hour and the minute are those of a wall clock.
    pub open spec fn valid(self) -> bool {
        self.hour < 24 && self.minute < 60
    }

    /// What the wall clock reads at the start of the minute, in
    /// milliseconds.
    pub open spec fn wall(self) -> int {
        wall_millis(self.day.days as int, self.hour as int, self.minute as int)
    }

    /// Whether a time zone may show the moment at an instant: the hour and
    /// minute are those of a wall clock, and the minute of the moment
    /// holds the instant as a wall clock reads it that is less than a day
    /// ahead of or behind the clock of the Unix epoch.
    pub open spec fn shown_at(self, instant: i64) -> bool {
        self.valid() && -86460000 < self.wall() - instant < 86400000
    }
}

/// When the wall clock shows a time: never, once, or twice, where the
/// clock was set back over that time. Instants are in milliseconds since
/// the Unix epoch.
#[derive(Debug, Clone, Copy, PartialEq, Eq, Structural)]
pub enum WallClockAnswer {
    Never,
    Once(i64),
    Twice(i64, i64),
}

impl WallClockAnswer {
    /// Whether every instant of the answer lies less than a day from the
    /// reading `wall` of the wall clock.
    pub open spec fn within_a_day_of(self, wall: int) -> bool {
        match self {
            WallClockAnswer::Never => true,
            WallClockAnswer::Once(at) => within_a_day(at, wall),
            WallClockAnswer::Twice(a, b) => within_a_day(a, wall) && within_a_day(b, wall),
        }
    }

    /// The earliest instant of the answer.
    pub open spec fn earliest(self) -> Option<i64> {
        match self {
            WallClockAnswer::Never => None,
            WallClockAnswer::Once(at) => Some(at),
            WallClockAnswer::Twice(a, b) => Some(
                if a <= b {
                    a
                } else {
                    b
                },
            ),
        }
    }
}

/// The earliest instant at which the wall clock shows a time; none where it
/// never shows it.
pub fn earliest_instant(answer: WallClockAnswer) -> (r: Option<i64>)
    ensures
        r == answer.earliest(),
{
    match answer {
        WallClockAnswer::Never => None,
        WallClockAnswer::Once(at) => Some(at),
        WallClockAnswer::Twice(a, b) => Some(
            if a <= b {
                a
            } else {
                b
            },
        ),
    }
}

/// The text that `chrono` writes for a day under the format `%Y-%m-%d`, or
/// `None` for a day that `chrono` cannot represent.
pub uninterp spec fn iso_date_text(days: int) -> Option<Seq<char>>;

/// Reads the machine's clock through `chrono::Utc::now` and gives the
/// instant in milliseconds since the Unix epoch. Nothing is claimed of the
/// value.
#[verifier::external_body]
pub(crate) fn now_millis() -> i64 {
    Utc::now().timestamp_millis()
}

/// How far from the Unix epoch, in milliseconds, an instant may lie and be
/// sure of a place in the calendar of `chrono`: some 253 500 years either
/// way, well inside the years 262144 BCE to 262142 CE that the calendar
/// spans.
pub const CALENDAR_REACH_MS: i64 = 8000000000000000;

/// Whether an instant, in milliseconds since the Unix epoch, lies within
/// [`CALENDAR_REACH_MS`] of the epoch.
pub open spec fn within_reach(millis: i64) -> bool {
    -CALENDAR_REACH_MS <= millis <= CALENDAR_REACH_MS
}

/// Asks `chrono::Local` (`TimeZone::timestamp_millis_opt`) what the
/// machine's time zone shows at an instant given in milliseconds since the
/// Unix epoch. `None` where `chrono` has no single answer or the local time
/// leaves its range. What the answer is depends on the machine. Claimed of
/// every answer:
/// - the hour is below 24 and the minute below 60, as `Timelike::hour` and
///   `Timelike::minute` document;
/// - the minute shown holds the instant moved by the zone's offset, and an
///   offset is less than a day: `FixedOffset::east_opt` admits no other;
/// - there is an answer for every instant within [`CALENDAR_REACH_MS`] of
///   the epoch: `timestamp_millis_opt` documents a single result for every
///   instant in the range of `DateTime::from_timestamp_millis`, which is
///   that of `NaiveDate`, and `NaiveDateTime::checked_add_offset`, which
///   moves the result by less than a day, fails only where it leaves that
///   range.
#[verifier::external_body]
pub(crate) fn local_moment(millis: i64) -> (r: Option<LocalMoment>)
    ensures
        r matches Some(m) ==> m.shown_at(millis),
        within_reach(millis) ==> r is Some,
{
    match Local.timestamp_millis_opt(millis) {
        LocalResult::Single(dt) => match dt.naive_utc().checked_add_offset(*dt.offset()) {
            Some(local) => Some(
                LocalMoment {
                    day: CalendarDay { days: local.date().to_epoch_days() },
                    hour: dt.hour(),
                    minute: dt.minute(),
                },
            ),
            None => None,
        },
        _ => None,
    }
}

/// Asks `chrono::Local` (`TimeZone::from_local_datetime`) at which instants
/// the machine's wall clock shows the given day, hour and minute: never,
/// once, or twice, where the clock was set back. What the answer is depends
/// on the machine. Claimed of every answer:
/// - an hour of 24 or more, or a minute of 60 or more, is never shown, as
///   `NaiveDate::and_hms_opt` documents;
/// - every instant of the answer is the wall-clock time moved by the zone's
///   offset, and an offset is less than a day: `FixedOffset::east_opt`
///   admits no other.
#[verifier::external_body]
pub(crate) fn local_instants(day: CalendarDay, hour: u32, minute: u32) -> (r: WallClockAnswer)
    ensures
        hour >= 24 || minute >= 60 ==> r == WallClockAnswer::Never,
        r.within_a_day_of(wall_millis(day.days as int, hour as int, minute as int)),
{
    let date = match NaiveDate::from_epoch_days(day.days) {
        Some(date) => date,
        None => return WallClockAnswer::Never,
    };
    let wall = match date.and_hms_opt(hour, minute, 0) {
        Some(wall) => wall,
        None => return WallClockAnswer::Never,
    };
    match Local.from_local_datetime(&wall) {
        LocalResult::Single(dt) => WallClockAnswer::Once(dt.timestamp_millis()),
        LocalResult::Ambiguous(a, b) => WallClockAnswer::Twice(a.timestamp_millis(), b.timestamp_millis()),
        LocalResult::None => WallClockAnswer::Never,
    }
}

/// Has `chrono` write a day as year, month and day (`NaiveDate::format` with
/// `%Y-%m-%d`). The text is a function of the day alone and is named
/// [`iso_date_text`]; nothing more is claimed of it.
#[verifier::external_body]
pub(crate) fn iso_date(day: CalendarDay) -> (r: Option<String>)
    ensures
        r.deep_view() == iso_date_text(day.days as int),
{
    match NaiveDate::from_epoch_days(day.days) {
        Some(date) => Some(date.format("%Y-%m-%d").to_string()),
        None => None,
    }
}

} // verus!
