use wit::chart::{estimate_entries, estimate_entries_on};
use wit::date::{is_before, Date};
use wit::journal::{backfill_chunk, backfill_end, check_backfill, dated_label, parse_since};
use wit::error::WitError;
use wit::query::TimeSpec;

fn d(y: i32, m: u32, day: u32) -> Date {
    Date { year: y, month: m, day }
}

#[test]
fn resolve_days_and_weeks() {
    let today = d(2024, 3, 10);
    assert_eq!(TimeSpec::DaysAgo(7).resolve_on(today), Some(d(2024, 3, 3)));
    assert_eq!(TimeSpec::DaysAgo(10).resolve_on(today), Some(d(2024, 2, 29)));
    assert_eq!(TimeSpec::DaysAgo(-1).resolve_on(today), Some(d(2024, 3, 11)));
    assert_eq!(TimeSpec::WeeksAgo(2).resolve_on(today), Some(d(2024, 2, 25)));
}

#[test]
fn resolve_months_and_years() {
    assert_eq!(TimeSpec::MonthsAgo(1).resolve_on(d(2024, 3, 31)), Some(d(2024, 2, 29)));
    assert_eq!(TimeSpec::YearsAgo(1).resolve_on(d(2024, 2, 29)), Some(d(2023, 2, 28)));
    assert_eq!(TimeSpec::YearsAgo(2).resolve_on(d(2024, 6, 1)), Some(d(2022, 6, 1)));
}

#[test]
fn resolve_month_is_the_fifteenth() {
    assert_eq!(TimeSpec::Month(2).resolve_on(d(2024, 5, 20)), Some(d(2024, 2, 15)));
    assert_eq!(TimeSpec::Month(12).resolve_on(d(2024, 5, 20)), Some(d(2024, 12, 15)));
}

#[test]
fn resolve_year_keeps_month_and_day() {
    assert_eq!(TimeSpec::Year(2020).resolve_on(d(2024, 5, 20)), Some(d(2020, 5, 20)));
    assert_eq!(TimeSpec::Year(2023).resolve_on(d(2024, 2, 29)), Some(d(2023, 2, 28)));
    assert_eq!(TimeSpec::Year(2020).resolve_on(d(2024, 2, 29)), Some(d(2020, 2, 29)));
    assert_eq!(TimeSpec::Year(-4).resolve_on(d(2024, 2, 29)), Some(d(-4, 2, 29)));
    assert_eq!(TimeSpec::Year(400000).resolve_on(d(2024, 5, 20)), Some(d(2024, 5, 20)));
    assert_eq!(TimeSpec::Month(13).resolve_on(d(2024, 5, 20)), Some(d(2024, 5, 20)));
}

#[test]
fn resolve_out_of_range_is_none() {
    let today = d(2024, 3, 10);
    assert_eq!(TimeSpec::DaysAgo(i64::MAX).resolve_on(today), None);
    assert_eq!(TimeSpec::DaysAgo(1_000_000_000).resolve_on(today), None);
    assert_eq!(TimeSpec::YearsAgo(400_000_000).resolve_on(today), None);
}

#[test]
fn resolve_today_gives_a_date() {
    assert!(TimeSpec::DaysAgo(1).resolve().is_some());
}

#[test]
fn estimate_entries_clamps_days() {
    let today = d(2024, 3, 10);
    assert_eq!(estimate_entries_on("30d", today), Some(30));
    assert_eq!(estimate_entries_on("2d", today), Some(10));
    assert_eq!(estimate_entries_on("3m", today), Some(91));
    assert_eq!(estimate_entries_on("2y", today), Some(365));
    assert_eq!(estimate_entries_on("whenever", today), Some(30));
    assert_eq!(estimate_entries_on("-20d", today), Some(20));
    assert_eq!(estimate("7d"), Some(10));
}

fn estimate(range: &str) -> Option<usize> {
    estimate_entries(range)
}

#[test]
fn since_accepts_dates_and_time_tokens() {
    let today = d(2024, 3, 10);
    assert_eq!(parse_since("2025-01-01", today), Some(Ok(d(2025, 1, 1))));
    assert_eq!(parse_since("30d", today), Some(Ok(d(2024, 2, 9))));
    assert_eq!(
        parse_since("bogus", today),
        Some(Err(WitError::InvalidTime("bogus".to_string())))
    );
}

#[test]
fn backfill_windows_are_ninety_days() {
    let end = d(2024, 12, 31);
    assert_eq!(backfill_chunk(d(2024, 1, 1), end), Some((d(2024, 3, 30), d(2024, 3, 31))));
    assert_eq!(backfill_chunk(d(2024, 12, 1), end), Some((end, d(2025, 1, 1))));
}

#[test]
fn backfill_walk_covers_every_day() {
    let start = d(2023, 11, 15);
    let end = d(2024, 9, 2);
    let mut cur = start;
    let mut windows = 0;
    let mut last_end = None;
    while !is_before(end, cur) {
        let (last, next) = backfill_chunk(cur, end).unwrap();
        assert!(!is_before(last, cur));
        assert!(!is_before(end, last));
        windows += 1;
        last_end = Some(last);
        cur = next;
    }
    assert_eq!(last_end, Some(end));
    assert_eq!(windows, 4);
}

#[test]
fn backfill_ends_yesterday() {
    assert_eq!(backfill_end(d(2024, 3, 1)), Some(d(2024, 2, 29)));
}

#[test]
fn backfill_needs_a_start_before_the_end() {
    assert_eq!(check_backfill(d(2024, 1, 1), d(2024, 1, 31)), Ok(30));
    assert_eq!(
        check_backfill(d(2024, 1, 31), d(2024, 1, 31)),
        Err(WitError::Other(
            "nothing to backfill — start date 2024-01-31 is not before yesterday".to_string()
        ))
    );
}

#[test]
fn dated_labels_use_iso_dates() {
    assert_eq!(dated_label("Tokyo, Tokyo, Japan", d(2026, 2, 27)), "Tokyo, Tokyo, Japan (2026-02-27)");
    assert_eq!(dated_label("X", d(12, 3, 4)), "X (0012-03-04)");
    assert_eq!(dated_label("X", d(-1, 1, 1)), "X (-0001-01-01)");
    assert_eq!(dated_label("X", d(10000, 12, 31)), "X (+10000-12-31)");
    assert_eq!(
        check_backfill(d(-1, 1, 1), d(-1, 1, 1)),
        Err(WitError::Other("nothing to backfill — start date -0001-01-01 is not before yesterday".to_string()))
    );
}

#[test]
fn day_counts_follow_the_gregorian_calendar() {
    assert_eq!(check_backfill(d(2000, 1, 1), d(2024, 1, 1)), Ok(8766));
    assert_eq!(check_backfill(d(1900, 1, 1), d(2000, 1, 1)), Ok(36524));
    assert_eq!(check_backfill(d(-1, 12, 31), d(0, 3, 1)), Ok(61));
    assert_eq!(TimeSpec::DaysAgo(366).resolve_on(d(2024, 3, 10)), Some(d(2023, 3, 10)));
    assert_eq!(TimeSpec::WeeksAgo(53).resolve_on(d(2024, 1, 6)), Some(d(2022, 12, 31)));
    assert_eq!(TimeSpec::MonthsAgo(13).resolve_on(d(2024, 3, 31)), Some(d(2023, 2, 28)));
    assert_eq!(TimeSpec::MonthsAgo(0).resolve_on(d(2024, 3, 31)), Some(d(2024, 3, 31)));
    assert_eq!(TimeSpec::MonthsAgo(-1).resolve_on(d(2024, 3, 31)), None);
}
