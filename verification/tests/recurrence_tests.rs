use chrono::{Datelike, Local, NaiveDate, TimeZone};
use focusflow::calendar::{earliest_instant, CalendarDay, WallClockAnswer, Weekday};
use focusflow::recurrence::{
    local_date_time_to_ms, next_date_custom, next_date_daily, next_date_weekdays, next_occurrence, parse_repeat_mode,
    pick_time_from_deadline, weekday_to_bit, RepeatMode,
};

fn day(y: i32, m: u32, d: u32) -> CalendarDay {
    CalendarDay::from_epoch_days(NaiveDate::from_ymd_opt(y, m, d).unwrap().to_epoch_days())
}

#[test]
fn test_next_date_daily() {
    let d = day(2023, 10, 1); // Sun
    assert_eq!(next_date_daily(d), day(2023, 10, 2));
}

#[test]
fn test_next_date_weekdays() {
    let fri = day(2023, 10, 6);
    assert_eq!(next_date_weekdays(fri), day(2023, 10, 9)); // Mon

    let sat = day(2023, 10, 7);
    assert_eq!(next_date_weekdays(sat), day(2023, 10, 9)); // Mon

    let mon = day(2023, 10, 9);
    assert_eq!(next_date_weekdays(mon), day(2023, 10, 10)); // Tue
}

#[test]
fn test_next_date_custom() {
    let mon = day(2023, 10, 9);
    // Mask: Wed(4)
    let next = next_date_custom(mon, 4);
    assert_eq!(next, Some(day(2023, 10, 11)));

    // Mask: Wed(4) | Fri(16) = 20
    let wed = day(2023, 10, 11);
    let next_fri = next_date_custom(wed, 20);
    assert_eq!(next_fri, Some(day(2023, 10, 13)));
}

#[test]
fn next_date_custom_rejects_empty_and_negative_masks() {
    let mon = day(2023, 10, 9);
    assert_eq!(next_date_custom(mon, 0), None);
    assert_eq!(next_date_custom(mon, -1), None);
    assert_eq!(next_date_custom(mon, i64::MIN), None);
}

#[test]
fn next_date_custom_gives_up_on_a_mask_without_weekday_bits() {
    let mon = day(2023, 10, 9);
    assert_eq!(next_date_custom(mon, 128), None);
    assert_eq!(next_date_custom(mon, 1 << 40), None);
}

#[test]
fn next_date_custom_same_weekday_comes_back_a_week_later() {
    let mon = day(2023, 10, 9);
    assert_eq!(next_date_custom(mon, 1), Some(day(2023, 10, 16)));
}

#[test]
fn next_date_custom_finds_a_set_bit_within_a_week_for_every_mask() {
    let start = day(2024, 2, 26);
    for mask in 1i64..=127 {
        for offset in 0..7 {
            let from = CalendarDay::from_epoch_days(start.to_epoch_days() + offset);
            let next = next_date_custom(from, mask).expect("a valid mask selects a day");
            let gap = next.to_epoch_days() - from.to_epoch_days();
            assert!((1..=7).contains(&gap));
            assert_ne!(mask & weekday_to_bit(next.weekday()), 0);
            for k in 1..gap {
                let between = CalendarDay::from_epoch_days(from.to_epoch_days() + k);
                assert_eq!(mask & weekday_to_bit(between.weekday()), 0);
            }
        }
    }
}

#[test]
fn weekday_agrees_with_the_calendar() {
    let pairs = [
        (chrono::Weekday::Mon, Weekday::Mon),
        (chrono::Weekday::Tue, Weekday::Tue),
        (chrono::Weekday::Wed, Weekday::Wed),
        (chrono::Weekday::Thu, Weekday::Thu),
        (chrono::Weekday::Fri, Weekday::Fri),
        (chrono::Weekday::Sat, Weekday::Sat),
        (chrono::Weekday::Sun, Weekday::Sun),
    ];
    let dates = [
        NaiveDate::from_ymd_opt(1970, 1, 1).unwrap(),
        NaiveDate::from_ymd_opt(1969, 12, 31).unwrap(),
        NaiveDate::from_ymd_opt(1900, 3, 1).unwrap(),
        NaiveDate::from_ymd_opt(2000, 2, 29).unwrap(),
        NaiveDate::from_ymd_opt(2023, 10, 1).unwrap(),
        NaiveDate::from_ymd_opt(2024, 1, 5).unwrap(),
        NaiveDate::from_ymd_opt(1, 1, 1).unwrap(),
        NaiveDate::from_ymd_opt(-4000, 7, 19).unwrap(),
        NaiveDate::from_ymd_opt(9999, 12, 31).unwrap(),
    ];
    for date in dates {
        let ours = CalendarDay::from_epoch_days(date.to_epoch_days()).weekday();
        let expected = pairs.iter().find(|p| p.0 == date.weekday()).unwrap().1;
        assert_eq!(ours, expected);
        assert_eq!(ours.num_days_from_monday(), date.weekday().num_days_from_monday());
    }
    assert_eq!(CalendarDay::from_epoch_days(i32::MIN).weekday(), Weekday::Tue);
    assert_eq!(CalendarDay::from_epoch_days(i32::MAX).weekday(), Weekday::Fri);
}

#[test]
fn weekday_bits_are_the_powers_of_two() {
    assert_eq!(weekday_to_bit(Weekday::Mon), 1);
    assert_eq!(weekday_to_bit(Weekday::Tue), 2);
    assert_eq!(weekday_to_bit(Weekday::Wed), 4);
    assert_eq!(weekday_to_bit(Weekday::Thu), 8);
    assert_eq!(weekday_to_bit(Weekday::Fri), 16);
    assert_eq!(weekday_to_bit(Weekday::Sat), 32);
    assert_eq!(weekday_to_bit(Weekday::Sun), 64);
}

#[test]
fn next_date_weekdays_from_sunday_and_thursday() {
    assert_eq!(next_date_weekdays(day(2023, 10, 8)), day(2023, 10, 9));
    assert_eq!(next_date_weekdays(day(2023, 10, 5)), day(2023, 10, 6));
}

#[test]
fn next_date_daily_crosses_month_and_year() {
    assert_eq!(next_date_daily(day(2023, 12, 31)), day(2024, 1, 1));
    assert_eq!(next_date_daily(day(2024, 2, 28)), day(2024, 2, 29));
}

#[test]
fn repeat_modes_are_read_by_name() {
    assert_eq!(parse_repeat_mode(&"daily".to_string()), Some(RepeatMode::Daily));
    assert_eq!(parse_repeat_mode(&"weekdays".to_string()), Some(RepeatMode::Weekdays));
    assert_eq!(parse_repeat_mode(&"custom".to_string()), Some(RepeatMode::Custom));
    assert_eq!(parse_repeat_mode(&"Daily".to_string()), None);
    assert_eq!(parse_repeat_mode(&"".to_string()), None);
    assert_eq!(parse_repeat_mode(&"none".to_string()), None);
}

#[test]
fn next_occurrence_follows_the_mode() {
    let fri = day(2023, 10, 6);
    assert_eq!(next_occurrence(&None, Some(4), fri), None);
    assert_eq!(next_occurrence(&Some("daily".to_string()), None, fri), Some(day(2023, 10, 7)));
    assert_eq!(next_occurrence(&Some("weekdays".to_string()), None, fri), Some(day(2023, 10, 9)));
    assert_eq!(next_occurrence(&Some("custom".to_string()), Some(4), fri), Some(day(2023, 10, 11)));
    assert_eq!(next_occurrence(&Some("custom".to_string()), None, fri), None);
    assert_eq!(next_occurrence(&Some("custom".to_string()), Some(0), fri), None);
    assert_eq!(next_occurrence(&Some("monthly".to_string()), Some(4), fri), None);
}

#[test]
fn pick_time_defaults_to_nine() {
    assert_eq!(pick_time_from_deadline(None), (9, 0));
    let (h, m) = pick_time_from_deadline(Some(1_696_600_000_000));
    assert!(h < 24 && m < 60);
}

#[test]
fn wall_clock_times_map_to_instants() {
    let d = day(2024, 3, 11);
    let expected = Local.with_ymd_and_hms(2024, 3, 11, 14, 30, 0).earliest().unwrap();
    assert_eq!(local_date_time_to_ms(d, 14, 30), Some(expected.timestamp_millis()));
    assert_eq!(local_date_time_to_ms(d, 24, 0), None);
    assert_eq!(local_date_time_to_ms(d, 0, 60), None);
    assert_eq!(local_date_time_to_ms(d, u32::MAX, u32::MAX), None);
    assert_eq!(local_date_time_to_ms(CalendarDay::from_epoch_days(i32::MAX), 9, 0), None);
    assert_eq!(local_date_time_to_ms(CalendarDay::from_epoch_days(i32::MIN), 9, 0), None);
    let (h, m) = pick_time_from_deadline(Some(expected.timestamp_millis()));
    assert_eq!((h, m), (14, 30));
    assert_eq!(pick_time_from_deadline(Some(i64::MAX)), (9, 0));
    assert_eq!(pick_time_from_deadline(Some(i64::MIN)), (9, 0));
}

#[test]
fn of_two_instants_the_earliest_is_taken() {
    assert_eq!(earliest_instant(WallClockAnswer::Never), None);
    assert_eq!(earliest_instant(WallClockAnswer::Once(7)), Some(7));
    assert_eq!(earliest_instant(WallClockAnswer::Twice(3_600_000, 7_200_000)), Some(3_600_000));
    assert_eq!(earliest_instant(WallClockAnswer::Twice(7_200_000, 3_600_000)), Some(3_600_000));
    assert_eq!(earliest_instant(WallClockAnswer::Twice(-5, -5)), Some(-5));
    assert_eq!(earliest_instant(WallClockAnswer::Twice(i64::MIN, i64::MAX)), Some(i64::MIN));
}

#[test]
fn an_instant_lies_less_than_a_day_from_its_wall_clock_time() {
    for (days, hour, minute) in [(0, 0, 0), (19_793, 14, 30), (-400, 23, 59), (30_000, 9, 0)] {
        let at = local_date_time_to_ms(CalendarDay::from_epoch_days(days), hour, minute).unwrap();
        let wall = days as i64 * 86_400_000 + hour as i64 * 3_600_000 + minute as i64 * 60_000;
        assert!((at - wall).abs() < 86_400_000);
    }
}
