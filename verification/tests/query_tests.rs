use wit::error::WitError;
use wit::query::{parse_query, parse_time_token, query_args_valid, Query, TimeSpec};

fn args(v: &[&str]) -> Vec<String> {
    v.iter().map(|s| s.to_string()).collect()
}

#[test]
fn readme_current_weather() {
    assert_eq!(
        parse_query(&args(&["tokyo"])),
        Ok(Query::Current { location: "tokyo".to_string() })
    );
}

#[test]
fn readme_now_vs_seven_days_ago() {
    assert_eq!(
        parse_query(&args(&["tokyo", "7d"])),
        Ok(Query::TimeDiff { location: "tokyo".to_string(), past: TimeSpec::DaysAgo(7) })
    );
}

#[test]
fn readme_compare_two_cities() {
    assert_eq!(
        parse_query(&args(&["tokyo..boston"])),
        Ok(Query::LocationDiff { left: "tokyo".to_string(), right: "boston".to_string() })
    );
}

#[test]
fn readme_compare_two_cities_a_week_ago() {
    assert_eq!(
        parse_query(&args(&["tokyo..boston", "1w"])),
        Ok(Query::LocationDiffAt {
            left: "tokyo".to_string(),
            right: "boston".to_string(),
            time: TimeSpec::WeeksAgo(1),
        })
    );
}

#[test]
fn readme_one_city_across_seasons() {
    assert_eq!(
        parse_query(&args(&["tokyo", "jan..jul"])),
        Ok(Query::TimeRange {
            location: "tokyo".to_string(),
            from: TimeSpec::Month(1),
            to: TimeSpec::Month(7),
        })
    );
}

#[test]
fn readme_same_date_in_a_year() {
    assert_eq!(
        parse_query(&args(&["tokyo", "2024"])),
        Ok(Query::TimeDiff { location: "tokyo".to_string(), past: TimeSpec::Year(2024) })
    );
}

#[test]
fn joined_and_split_arguments_mean_the_same() {
    assert_eq!(parse_query(&args(&["tokyo 7d"])), parse_query(&args(&["tokyo", "7d"])));
    assert_eq!(parse_query(&args(&["  tokyo\t..boston "])), parse_query(&args(&["tokyo", "..boston"])));
}

#[test]
fn multi_word_location_with_time() {
    assert_eq!(
        parse_query(&args(&["new", "york", "3m"])),
        Ok(Query::TimeDiff { location: "new york".to_string(), past: TimeSpec::MonthsAgo(3) })
    );
}

#[test]
fn multi_word_location_without_time() {
    assert_eq!(
        parse_query(&args(&["san", "jose", "costa", "rica"])),
        Ok(Query::Current { location: "san jose costa rica".to_string() })
    );
}

#[test]
fn two_word_city_is_current() {
    assert_eq!(
        parse_query(&args(&["new", "york"])),
        Ok(Query::Current { location: "new york".to_string() })
    );
    assert_eq!(
        parse_query(&args(&["new york"])),
        Ok(Query::Current { location: "new york".to_string() })
    );
    assert_eq!(
        parse_query(&args(&["tokyo", "7d"])),
        Ok(Query::TimeDiff { location: "tokyo".to_string(), past: TimeSpec::DaysAgo(7) })
    );
}

#[test]
fn empty_query_is_an_error() {
    assert_eq!(
        parse_query(&args(&[])),
        Err(WitError::Other(
            "no query provided — try `wit <location>` or `wit --help`".to_string()
        ))
    );
}

#[test]
fn time_range_needs_location() {
    assert_eq!(
        parse_query(&args(&["jan..jul"])),
        Err(WitError::Other(
            "time range needs a location — try `wit <location> jan..jul`".to_string()
        ))
    );
}

#[test]
fn time_range_with_multi_word_location() {
    assert_eq!(
        parse_query(&args(&["new", "york", "7d..1d"])),
        Ok(Query::TimeRange {
            location: "new york".to_string(),
            from: TimeSpec::DaysAgo(7),
            to: TimeSpec::DaysAgo(1),
        })
    );
}

#[test]
fn mixing_location_and_time_is_an_error() {
    assert_eq!(
        parse_query(&args(&["tokyo..7d"])),
        Err(WitError::Other("can't mix location and time in .. syntax".to_string()))
    );
}

#[test]
fn too_many_tokens_after_location_pair() {
    assert_eq!(
        parse_query(&args(&["tokyo..boston", "1w", "2w"])),
        Err(WitError::Other("unexpected tokens after location comparison".to_string()))
    );
}

#[test]
fn bad_time_after_location_pair() {
    assert_eq!(
        parse_query(&args(&["tokyo..boston", "soon"])),
        Err(WitError::InvalidTime("soon".to_string()))
    );
}

#[test]
fn only_first_dotdot_splits() {
    assert_eq!(
        parse_query(&args(&["a..b..c"])),
        Ok(Query::LocationDiff { left: "a".to_string(), right: "b..c".to_string() })
    );
}

#[test]
fn whitespace_only_arguments_are_rejected_up_front() {
    assert!(!query_args_valid(&args(&["   "])));
    assert!(query_args_valid(&args(&[])));
    assert!(query_args_valid(&args(&["tokyo"])));
}

#[test]
fn named_time_shortcuts() {
    assert_eq!(parse_time_token("yesterday"), Ok(TimeSpec::DaysAgo(1)));
    assert_eq!(parse_time_token("last-week"), Ok(TimeSpec::DaysAgo(7)));
    assert_eq!(parse_time_token("lastweek"), Ok(TimeSpec::DaysAgo(7)));
    assert_eq!(parse_time_token("last-month"), Ok(TimeSpec::MonthsAgo(1)));
    assert_eq!(parse_time_token("lastmonth"), Ok(TimeSpec::MonthsAgo(1)));
}

#[test]
fn all_month_names() {
    let short = ["jan", "feb", "mar", "apr", "may", "jun", "jul", "aug", "sep", "oct", "nov", "dec"];
    let full = [
        "january", "february", "march", "april", "may", "june", "july", "august", "september",
        "october", "november", "december",
    ];
    for i in 0..12 {
        assert_eq!(parse_time_token(short[i]), Ok(TimeSpec::Month(i as u32 + 1)));
        assert_eq!(parse_time_token(full[i]), Ok(TimeSpec::Month(i as u32 + 1)));
    }
}

#[test]
fn month_names_ignore_case() {
    assert_eq!(parse_time_token("JAN"), Ok(TimeSpec::Month(1)));
    assert_eq!(parse_time_token("September"), Ok(TimeSpec::Month(9)));
}

#[test]
fn month_abbreviation_with_any_ending() {
    assert_eq!(parse_time_token("mary"), Ok(TimeSpec::Month(3)));
    assert_eq!(parse_time_token("junuary"), Ok(TimeSpec::Month(6)));
    assert_eq!(parse_time_token("sept"), Err(WitError::InvalidTime("sept".to_string())));
}

#[test]
fn duration_tokens() {
    assert_eq!(parse_time_token("7d"), Ok(TimeSpec::DaysAgo(7)));
    assert_eq!(parse_time_token("2w"), Ok(TimeSpec::WeeksAgo(2)));
    assert_eq!(parse_time_token("3m"), Ok(TimeSpec::MonthsAgo(3)));
    assert_eq!(parse_time_token("1y"), Ok(TimeSpec::YearsAgo(1)));
    assert_eq!(parse_time_token("1yr"), Ok(TimeSpec::YearsAgo(1)));
    assert_eq!(parse_time_token("10D"), Ok(TimeSpec::DaysAgo(10)));
    assert_eq!(parse_time_token("-5d"), Ok(TimeSpec::DaysAgo(-5)));
    assert_eq!(parse_time_token("+5w"), Ok(TimeSpec::WeeksAgo(5)));
}

#[test]
fn duration_token_overflow_is_invalid() {
    assert_eq!(
        parse_time_token("99999999999999999999d"),
        Err(WitError::InvalidTime("99999999999999999999d".to_string()))
    );
}

#[test]
fn year_tokens() {
    assert_eq!(parse_time_token("1900"), Ok(TimeSpec::Year(1900)));
    assert_eq!(parse_time_token("2100"), Ok(TimeSpec::Year(2100)));
    assert_eq!(parse_time_token("2101"), Err(WitError::InvalidTime("2101".to_string())));
    assert_eq!(parse_time_token("1899"), Err(WitError::InvalidTime("1899".to_string())));
    assert_eq!(parse_time_token("20245"), Err(WitError::InvalidTime("20245".to_string())));
}

#[test]
fn invalid_time_token_keeps_original_case() {
    assert_eq!(parse_time_token("Soon"), Err(WitError::InvalidTime("Soon".to_string())));
    assert_eq!(parse_time_token(""), Err(WitError::InvalidTime("".to_string())));
    assert_eq!(parse_time_token("d"), Err(WitError::InvalidTime("d".to_string())));
}

#[test]
fn time_tokens_same_after_lowercase() {
    for (s, t) in [
        ("JAN", TimeSpec::Month(1)),
        ("7D", TimeSpec::DaysAgo(7)),
        ("Yesterday", TimeSpec::DaysAgo(1)),
        ("Last-Month", TimeSpec::MonthsAgo(1)),
    ] {
        assert_eq!(parse_time_token(s), Ok(t.clone()));
        assert_eq!(parse_time_token(&s.to_lowercase()), Ok(t));
    }
    assert!(parse_time_token("Tomorrow").is_err());
    assert!(parse_time_token(&"Tomorrow".to_lowercase()).is_err());
}
