use chrono::NaiveDate;
use focusflow::calendar::{week_start, CalendarDay, Weekday};
use focusflow::streaks::{best_streak, current_streak, distinct_sorted, position_of, run_lengths};

fn date(y: i32, m: u32, d: u32) -> CalendarDay {
    CalendarDay::from_epoch_days(NaiveDate::from_ymd_opt(y, m, d).unwrap().to_epoch_days())
}

fn january() -> Vec<CalendarDay> {
    vec![date(2024, 1, 1), date(2024, 1, 2), date(2024, 1, 3), date(2024, 1, 5)]
}

#[test]
fn streak_with_a_gap() {
    let sorted = distinct_sorted(&january());
    assert_eq!(best_streak(&sorted), 3);
    assert_eq!(current_streak(&sorted, date(2024, 1, 5)), 1);
}

#[test]
fn current_streak_counts_from_yesterday_when_today_is_empty() {
    let sorted = distinct_sorted(&january());
    assert_eq!(current_streak(&sorted, date(2024, 1, 4)), 3);
    assert_eq!(current_streak(&sorted, date(2024, 1, 6)), 1);
    assert_eq!(current_streak(&sorted, date(2024, 1, 7)), 0);
    assert_eq!(current_streak(&sorted, date(2024, 1, 3)), 3);
    assert_eq!(current_streak(&sorted, date(2024, 1, 2)), 2);
    assert_eq!(current_streak(&sorted, date(2023, 12, 31)), 0);
}

#[test]
fn streaks_ignore_order_and_repetition() {
    let days = vec![
        date(2024, 1, 5),
        date(2024, 1, 2),
        date(2024, 1, 2),
        date(2024, 1, 1),
        date(2024, 1, 3),
        date(2024, 1, 5),
        date(2024, 1, 1),
    ];
    let sorted = distinct_sorted(&days);
    assert_eq!(
        sorted,
        vec![
            date(2024, 1, 1).to_epoch_days(),
            date(2024, 1, 2).to_epoch_days(),
            date(2024, 1, 3).to_epoch_days(),
            date(2024, 1, 5).to_epoch_days(),
        ]
    );
    assert_eq!(run_lengths(&sorted), vec![1, 2, 3, 1]);
    assert_eq!(best_streak(&sorted), 3);
}

#[test]
fn streaks_of_nothing_are_zero() {
    let sorted = distinct_sorted(&Vec::new());
    assert!(sorted.is_empty());
    assert_eq!(best_streak(&sorted), 0);
    assert_eq!(current_streak(&sorted, date(2024, 1, 5)), 0);
}

#[test]
fn streaks_at_the_ends_of_the_calendar() {
    let days = vec![
        CalendarDay::from_epoch_days(i32::MIN),
        CalendarDay::from_epoch_days(i32::MIN + 1),
        CalendarDay::from_epoch_days(i32::MAX),
        CalendarDay::from_epoch_days(i32::MAX - 1),
        CalendarDay::from_epoch_days(i32::MAX - 2),
    ];
    let sorted = distinct_sorted(&days);
    assert_eq!(best_streak(&sorted), 3);
    assert_eq!(current_streak(&sorted, CalendarDay::from_epoch_days(i32::MIN)), 1);
    assert_eq!(current_streak(&sorted, CalendarDay::from_epoch_days(i32::MIN + 2)), 2);
    assert_eq!(current_streak(&sorted, CalendarDay::from_epoch_days(i32::MAX)), 3);
}

#[test]
fn later_run_can_be_the_best() {
    let days = vec![date(2024, 2, 1), date(2024, 2, 3), date(2024, 2, 4), date(2024, 2, 5), date(2024, 2, 6)];
    let sorted = distinct_sorted(&days);
    assert_eq!(best_streak(&sorted), 4);
    assert_eq!(current_streak(&sorted, date(2024, 2, 6)), 4);
    assert_eq!(current_streak(&sorted, date(2024, 2, 1)), 1);
}

#[test]
fn position_of_finds_only_what_is_there() {
    let sorted = vec![3, 5, 9];
    assert_eq!(position_of(&sorted, 5), Some(1));
    assert_eq!(position_of(&sorted, 3), Some(0));
    assert_eq!(position_of(&sorted, 4), None);
}

#[test]
fn week_starts_on_monday() {
    let fri = date(2024, 1, 5);
    let monday = week_start(fri);
    assert_eq!(monday, date(2024, 1, 1));
    assert_eq!(monday.weekday(), Weekday::Mon);
    assert_eq!(week_start(date(2024, 1, 1)), date(2024, 1, 1));
    assert_eq!(week_start(date(2024, 1, 7)), date(2024, 1, 1));
    assert_eq!(week_start(date(2024, 1, 8)), date(2024, 1, 8));
}
