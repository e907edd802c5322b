//! When a repeating task comes back: the day after, the next working day,
//! or the next day that a weekly pattern selects; and the time of day that
//! the new deadline keeps.

use crate::calendar::{
    earliest_instant, local_instants, local_moment, wall_millis, weekday_index, within_a_day,
    CalendarDay, LocalMoment, Weekday,
};
use vstd::prelude::*;

verus! {

/// The bit that stands for a weekday in a weekly pattern: Monday is 1,
/// Tuesday 2, and so on up to Sunday, 64.
pub open spec fn weekday_bit(w: Weekday) -> i64 {
    match w {
        Weekday::Mon => 1,
        Weekday::Tue => 2,
        Weekday::Wed => 4,
        Weekday::Thu => 8,
        Weekday::Fri => 16,
        Weekday::Sat => 32,
        Weekday::Sun => 64,
    }
}

/// The bit that stands for a weekday in a weekly pattern.
pub fn weekday_to_bit(w: Weekday) -> (bit: i64)
    ensures
        bit == weekday_bit(w),
{
    match w {
        Weekday::Mon => 1,
        Weekday::Tue => 2,
        Weekday::Wed => 4,
        Weekday::Thu => 8,
        Weekday::Fri => 16,
        Weekday::Sat => 32,
        Weekday::Sun => 64,
    }
}

/// Whether the day `days` days after 1 January 1970 is one of Monday to
/// Friday.
pub open spec fn is_workday(days: int) -> bool {
    weekday_index(days) < 5
}

/// Whether a weekly pattern selects the day `days` days after 1 January 1970.
pub open spec fn day_selected(mask: i64, days: int) -> bool {
    mask & weekday_bit(Weekday::at(weekday_index(days))) != 0
}

/// The first working day after a day: three days on from a Friday, two from
/// a Saturday, one from any other day.
pub open spec fn next_workday(days: int) -> int {
    if weekday_index(days) == 4 {
        days + 3
    } else if weekday_index(days) == 5 {
        days + 2
    } else {
        days + 1
    }
}

/// The first of the `count` days from `start` on that the pattern selects.
pub open spec fn first_selected(mask: i64, start: int, count: nat) -> Option<int>
    decreases count,
{
    if count == 0 {
        None
    } else if day_selected(mask, start) {
        Some(start)
    } else {
        first_selected(mask, start + 1, (count - 1) as nat)
    }
}

/// The first of the fourteen days after `days` that a pattern selects; none
/// for a pattern that is not positive.
pub open spec fn next_selected(days: int, mask: i64) -> Option<int> {
    if mask <= 0 {
        None
    } else {
        first_selected(mask, days + 1, 14)
    }
}

/// What [`first_selected`] finds lies in the range searched, is selected, and
/// is the first such day; where it finds nothing, no day of the range is
/// selected.
pub proof fn lemma_first_selected(mask: i64, start: int, count: nat)
    ensures
        match first_selected(mask, start, count) {
            Some(d) => {
                &&& start <= d < start + count
                &&& day_selected(mask, d)
                &&& forall|k: int| start <= k < d ==> !day_selected(mask, k)
            },
            None => forall|k: int| start <= k < start + count ==> !day_selected(mask, k),
        },
    decreases count,
{
    if count > 0 && !day_selected(mask, start) {
        lemma_first_selected(mask, start + 1, (count - 1) as nat);
    }
}

/// The first working day after a Friday and after a Saturday is the Monday
/// that follows; after any other day it is the day after.
pub proof fn lemma_next_workday(days: int)
    ensures
        weekday_index(days) == 4 ==> next_workday(days) == days + 3 && weekday_index(days + 3) == 0,
        weekday_index(days) == 5 ==> next_workday(days) == days + 2 && weekday_index(days + 2) == 0,
        weekday_index(days) != 4 && weekday_index(days) != 5 ==> next_workday(days) == days + 1,
        is_workday(next_workday(days)),
        forall|k: int| days < k < next_workday(days) ==> !is_workday(k),
{
    assert(weekday_index(days + 1) == (weekday_index(days) + 1) % 7);
    assert(weekday_index(days + 2) == (weekday_index(days) + 2) % 7);
    assert(weekday_index(days + 3) == (weekday_index(days) + 3) % 7);
}

/// The day after.
pub fn next_date_daily(from: CalendarDay) -> (next: CalendarDay)
    requires
        from.days < i32::MAX,
    ensures
        next.days == from.days + 1,
{
    CalendarDay { days: from.days + 1 }
}

/// The first day after `from` that is one of Monday to Friday.
pub fn next_date_weekdays(from: CalendarDay) -> (next: CalendarDay)
    requires
        from.days <= i32::MAX - 3,
    ensures
        next.days == next_workday(from.days as int),
        from.days < next.days <= from.days + 3,
        is_workday(next.days as int),
        forall|k: int| from.days < k < next.days ==> !is_workday(k),
{
    let mut d: CalendarDay = CalendarDay { days: from.days + 1 };
    loop
        invariant
            from.days <= i32::MAX - 3,
            from.days < d.days <= from.days + 3,
            forall|k: int| from.days < k < d.days ==> !is_workday(k),
        decreases from.days + 3 - d.days,
    {
        match d.weekday() {
            Weekday::Sat | Weekday::Sun => {
                assert(d.days < from.days + 3) by {
                    if d.days == from.days + 3 {
                        assert(!is_workday(from.days + 1));
                        assert(!is_workday(from.days + 2));
                    }
                }
                d = CalendarDay { days: d.days + 1 };
            },
            _ => {
                assert(is_workday(d.days as int));
                assert(weekday_index(from.days + 1) == (weekday_index(from.days as int) + 1) % 7);
                assert(weekday_index(from.days + 2) == (weekday_index(from.days as int) + 2) % 7);
                assert(weekday_index(from.days + 3) == (weekday_index(from.days as int) + 3) % 7);
                if d.days > from.days + 1 {
                    assert(!is_workday(from.days + 1));
                }
                if d.days > from.days + 2 {
                    assert(!is_workday(from.days + 2));
                }
                return d;
            },
        }
    }
}

/// The first of the fourteen days after `from` whose weekday the pattern
/// `mask` selects. `None` for a pattern that is not positive, and where none
/// of the fourteen days is selected.
pub fn next_date_custom(from: CalendarDay, mask: i64) -> (next: Option<CalendarDay>)
    requires
        from.days <= i32::MAX - 14,
    ensures
        match next {
            Some(d) => {
                &&& next_selected(from.days as int, mask) == Some(d.days as int)
                &&& mask > 0
                &&& from.days < d.days <= from.days + 14
                &&& day_selected(mask, d.days as int)
                &&& forall|k: int| from.days < k < d.days ==> !day_selected(mask, k)
            },
            None => {
                &&& next_selected(from.days as int, mask) is None
                &&& (mask <= 0 || forall|k: int|
                    from.days < k <= from.days + 14 ==> !day_selected(mask, k))
            },
        },
        mask > 0 && mask & 127 != 0 ==> next is Some,
{
    if mask <= 0 {
        return None;
    }
    proof {
        if mask & 127 != 0 {
            lemma_next_selected_exists(from.days as int, mask);
        }
    }
    let mut step: i32 = 1;
    while step <= 14
        invariant
            from.days <= i32::MAX - 14,
            1 <= step <= 15,
            mask > 0,
            first_selected(mask, from.days + 1, 14) == first_selected(
                mask,
                from.days + step,
                (15 - step) as nat,
            ),
        decreases 15 - step,
    {
        let d: CalendarDay = CalendarDay { days: from.days + step };
        let bit: i64 = weekday_to_bit(d.weekday());
        assert(day_selected(mask, d.days as int) == ((mask & bit) != 0));
        if (mask & bit) != 0 {
            proof {
                lemma_first_selected(mask, from.days + 1, 14);
            }
            return Some(d);
        }
        step = step + 1;
    }
    proof {
        lemma_first_selected(mask, from.days + 1, 14);
    }
    None
}

/// A pattern that is positive and names at least one weekday selects one of
/// the seven days after any day, so the search over fourteen days succeeds.
pub proof fn lemma_next_selected_exists(days: int, mask: i64)
    requires
        mask > 0,
        mask & 127 != 0,
    ensures
        next_selected(days, mask) matches Some(d) && days < d <= days + 7 && day_selected(mask, d),
{
    lemma_first_selected(mask, days + 1, 14);
    assert(mask & 1 != 0 || mask & 2 != 0 || mask & 4 != 0 || mask & 8 != 0 || mask & 16 != 0
        || mask & 32 != 0 || mask & 64 != 0) by (bit_vector)
        requires
            mask & 127 != 0,
    ;
    let w: int = weekday_index(days);
    // The day of the week with index `i` is reached `(i - w - 1) mod 7 + 1` days on.
    let i: int = if mask & 1 != 0 {
        0
    } else if mask & 2 != 0 {
        1
    } else if mask & 4 != 0 {
        2
    } else if mask & 8 != 0 {
        3
    } else if mask & 16 != 0 {
        4
    } else if mask & 32 != 0 {
        5
    } else {
        6
    };
    let k: int = days + 1 + (i - w - 1) % 7;
    assert(weekday_index(k) == i);
    assert(day_selected(mask, k));
    assert(days + 1 <= k < days + 1 + 14);
}

/// How a task repeats.
#[derive(Debug, Clone, Copy, PartialEq, Eq, Structural)]
pub enum RepeatMode {
    Daily,
    Weekdays,
    Custom,
}

/// The mode that a text names: `"daily"`, `"weekdays"` or `"custom"`.
pub open spec fn repeat_mode_of(text: Seq<char>) -> Option<RepeatMode> {
    if text == "daily"@ {
        Some(RepeatMode::Daily)
    } else if text == "weekdays"@ {
        Some(RepeatMode::Weekdays)
    } else if text == "custom"@ {
        Some(RepeatMode::Custom)
    } else {
        None
    }
}

/// Reads a repeat mode from its text. Any text other than the three names
/// gives `None`.
pub fn parse_repeat_mode(text: &String) -> (mode: Option<RepeatMode>)
    ensures
        mode == repeat_mode_of(text@),
{
    if *text == "daily".to_owned() {
        Some(RepeatMode::Daily)
    } else if *text == "weekdays".to_owned() {
        Some(RepeatMode::Weekdays)
    } else if *text == "custom".to_owned() {
        Some(RepeatMode::Custom)
    } else {
        None
    }
}

/// The day on which a task that repeats comes back after `days`: none
/// without a mode or with a mode that is not known, and none for `"custom"`
/// without a pattern or with one that selects no day.
pub open spec fn next_occurrence_day(
    mode: Option<Seq<char>>,
    mask: Option<i64>,
    days: int,
) -> Option<int> {
    match mode {
        None => None,
        Some(text) => match repeat_mode_of(text) {
            None => None,
            Some(RepeatMode::Daily) => Some(days + 1),
            Some(RepeatMode::Weekdays) => Some(next_workday(days)),
            Some(RepeatMode::Custom) => match mask {
                None => None,
                Some(m) => next_selected(days, m),
            },
        },
    }
}

/// The day on which a task with the given repeat settings comes back after
/// `from`.
pub fn next_occurrence(mode: &Option<String>, mask: Option<i64>, from: CalendarDay) -> (next:
    Option<CalendarDay>)
    requires
        from.days <= i32::MAX - 14,
    ensures
        match next {
            Some(d) => next_occurrence_day(mode.deep_view(), mask, from.days as int) == Some(
                d.days as int,
            ),
            None => next_occurrence_day(mode.deep_view(), mask, from.days as int) is None,
        },
{
    match mode {
        None => None,
        Some(text) => match parse_repeat_mode(text) {
            None => None,
            Some(RepeatMode::Daily) => Some(next_date_daily(from)),
            Some(RepeatMode::Weekdays) => Some(next_date_weekdays(from)),
            Some(RepeatMode::Custom) => match mask {
                None => None,
                Some(m) => next_date_custom(from, m),
            },
        },
    }
}

/// The hour and minute that a new deadline keeps: those at which the old one
/// fell on the wall clock, or nine o'clock where there was none or the wall
/// clock could not be read.
pub open spec fn time_of_day(moment: Option<LocalMoment>) -> (u32, u32) {
    match moment {
        Some(m) => (m.hour, m.minute),
        None => (9, 0),
    }
}

/// See [`time_of_day`].
pub fn time_of_day_or_default(moment: Option<LocalMoment>) -> (t: (u32, u32))
    ensures
        t == time_of_day(moment),
{
    match moment {
        Some(m) => (m.hour, m.minute),
        None => (9, 0),
    }
}

/// The hour and minute of a deadline on the machine's wall clock; nine
/// o'clock where there is no deadline. What the wall clock shows is the
/// machine's to say: whatever it says, the hour is below 24 and the minute
/// below 60.
pub fn pick_time_from_deadline(deadline_ms: Option<i64>) -> (t: (u32, u32))
    ensures
        deadline_ms is None ==> t == (9u32, 0u32),
        t.0 < 24 && t.1 < 60,
{
    match deadline_ms {
        Some(ms) => time_of_day_or_default(local_moment(ms)),
        None => time_of_day_or_default(None),
    }
}

/// The instant, in milliseconds since the Unix epoch, at which the machine's
/// wall clock shows the given day, hour and minute; where it shows them
/// twice, the earliest instant. `None` where it never shows them; an hour
/// of 24 or more, or a minute of 60 or more, is never shown. Whatever the
/// time zone, the instant lies less than a day from the wall-clock time.
pub fn local_date_time_to_ms(date: CalendarDay, hour: u32, minute: u32) -> (ms: Option<i64>)
    ensures
        hour >= 24 || minute >= 60 ==> ms is None,
        ms matches Some(at) ==> within_a_day(
            at,
            wall_millis(date.days as int, hour as int, minute as int),
        ),
{
    earliest_instant(local_instants(date, hour, minute))
}

} // verus!
