use oxidize::periods::{generate_period_keys, get_period_key};

#[test]
fn test_monthly_period_key_clamped_to_end_date() {
    // When end date is mid-month and a prior full month already exists,
    // the partial last month is skipped entirely to avoid showing two
    // points one day apart (e.g., Aug 31 + Sep 1 when end date is Sep 1).
    let keys = generate_period_keys("2025-07-01", "2025-08-05", "1M").unwrap();

    // July: last day is July 31 — full month, included
    assert_eq!(keys[0], "2025-07-31T00:00:00+00:00");

    // August: partial month (only 5 days), skipped because July is already present.
    assert_eq!(keys.len(), 1);
}

#[test]
fn test_monthly_period_key_full_months() {
    // When the range covers full months, keys should be last day of each month
    let keys = generate_period_keys("2025-07-01", "2025-08-31", "1M").unwrap();

    assert_eq!(keys[0], "2025-07-31T00:00:00+00:00");
    assert_eq!(keys[1], "2025-08-31T00:00:00+00:00");
    assert_eq!(keys.len(), 2);
}

#[test]
fn test_monthly_period_key_single_partial_month() {
    // Range within a single month
    let keys = generate_period_keys("2025-08-10", "2025-08-20", "1M").unwrap();

    // Key should be clamped to end date (Aug 20), not Aug 31
    assert_eq!(keys[0], "2025-08-20T00:00:00+00:00");
    assert_eq!(keys.len(), 1);
}

#[test]
fn test_daily_period_keys_no_clamping_needed() {
    // Daily keys are the current date itself, so no clamping issue
    let keys = generate_period_keys("2025-08-01", "2025-08-05", "1D").unwrap();

    assert_eq!(keys.len(), 5);
    assert_eq!(keys[0], "2025-08-01T00:00:00+00:00");
    assert_eq!(keys[4], "2025-08-05T00:00:00+00:00");
}

#[test]
fn test_weekly_period_keys_no_future() {
    // Weekly keys are Monday of each week — should not extend beyond end date
    let keys = generate_period_keys("2025-08-04", "2025-08-12", "1W").unwrap();

    // Aug 4 is Monday, Aug 11 is Monday
    assert_eq!(keys[0], "2025-08-04T00:00:00+00:00");
    assert_eq!(keys[1], "2025-08-11T00:00:00+00:00");
    assert_eq!(keys.len(), 2);
}

#[test]
fn test_quarterly_period_keys() {
    let keys = generate_period_keys("2025-01-01", "2025-07-15", "1Q").unwrap();

    // Q1 starts Jan 1, Q2 starts Apr 1 — both within range
    assert_eq!(keys[0], "2025-01-01T00:00:00+00:00");
    assert_eq!(keys[1], "2025-04-01T00:00:00+00:00");
    // Q3 starts Jul 1 — Jul 1 <= Jul 15, so included
    assert_eq!(keys[2], "2025-07-01T00:00:00+00:00");
    assert_eq!(keys.len(), 3);
}

#[test]
fn test_get_period_key_clamped_to_end() {
    // Without end date, get_period_key returns last day of month (no clamping)
    let key = get_period_key("2025-08-03T10:00:00+00:00", "1M", None);
    assert_eq!(key, "2025-08-31T00:00:00+00:00");

    // With end date, the key is clamped to the end date
    let key = get_period_key("2025-08-03T10:00:00+00:00", "1M", Some("2025-08-05"));
    assert_eq!(key, "2025-08-05T00:00:00+00:00");

    // When end date is beyond last of month, no clamping needed
    let key = get_period_key("2025-08-03T10:00:00+00:00", "1M", Some("2025-08-31"));
    assert_eq!(key, "2025-08-31T00:00:00+00:00");
}

#[test]
fn period_key_weekly_is_monday() {
    // 2026-01-07 is a Wednesday; its week starts on Monday 2026-01-05.
    assert_eq!(get_period_key("2026-01-07T14:45:00Z", "1W", None), "2026-01-05T00:00:00+00:00");
    assert_eq!(get_period_key("2026-01-05T10:30:00+00:00", "1W", None), "2026-01-05T00:00:00+00:00");
}

#[test]
fn period_key_quarter_and_year() {
    assert_eq!(get_period_key("2026-05-20", "1Q", None), "2026-04-01T00:00:00+00:00");
    assert_eq!(get_period_key("2026-11-02T08:00:00+00:00", "1Y", None), "2026-01-01T00:00:00+00:00");
}

#[test]
fn period_key_daily_reads_many_formats() {
    assert_eq!(get_period_key("2026-02-20T14:45:00Z", "1D", None), "2026-02-20T00:00:00+00:00");
    assert_eq!(get_period_key("2026-03-10", "1D", None), "2026-03-10T00:00:00+00:00");
    assert_eq!(get_period_key("2026-03-10T09:15:00.123+00:00", "1D", None), "2026-03-10T00:00:00+00:00");
    assert_eq!(get_period_key("2026-01-15T10:30:00+05:30", "1D", None), "2026-01-15T00:00:00+00:00");
}

#[test]
fn period_key_unreadable_date_is_kept() {
    assert_eq!(get_period_key("not a date", "1M", None), "not a date");
}

#[test]
fn period_keys_bad_dates_are_errors() {
    assert!(generate_period_keys("2025-13-01", "2025-12-31", "1M").is_err());
    assert!(generate_period_keys("2025-01-01", "someday", "1D").is_err());
}

#[test]
fn period_keys_month_ends_from_a_31st() {
    // Starting on the 31st, the monthly walk still reaches every month end.
    let r = generate_period_keys("2025-01-31", "2025-03-31", "1M").unwrap();
    assert_eq!(
        r,
        vec![
            "2025-01-31T00:00:00+00:00".to_string(),
            "2025-02-28T00:00:00+00:00".to_string(),
            "2025-03-31T00:00:00+00:00".to_string(),
        ]
    );
    assert_eq!(generate_period_keys("2025-01-31", "2025-04-30", "1M").unwrap().len(), 4);
}

#[test]
fn weekly_and_quarterly_keys_start_at_the_period_start() {
    // Wednesday January 7 to Monday January 12: both weeks' Mondays.
    assert_eq!(
        generate_period_keys("2026-01-07", "2026-01-12", "1W").unwrap(),
        vec!["2026-01-05T00:00:00+00:00".to_string(), "2026-01-12T00:00:00+00:00".to_string()]
    );
    // A quarterly range starting mid-quarter: the first days of the quarters.
    assert_eq!(
        generate_period_keys("2025-02-15", "2025-07-01", "1Q").unwrap(),
        vec![
            "2025-01-01T00:00:00+00:00".to_string(),
            "2025-04-01T00:00:00+00:00".to_string(),
            "2025-07-01T00:00:00+00:00".to_string(),
        ]
    );
}

#[test]
fn period_keys_empty_when_start_after_end() {
    assert_eq!(generate_period_keys("2025-05-02", "2025-05-01", "1D").unwrap().len(), 0);
}

#[test]
fn period_keys_never_after_end() {
    let keys = generate_period_keys("2025-01-15", "2025-03-20", "1M").unwrap();
    assert_eq!(keys, vec!["2025-01-31T00:00:00+00:00".to_string(), "2025-02-28T00:00:00+00:00".to_string()]);
    for k in &keys {
        assert!(k.as_str() <= "2025-03-20T00:00:00+00:00");
    }
}

#[test]
fn unreadable_dates_give_chronos_message() {
    assert_eq!(oxidize::calendar::parse_date("2025-01").unwrap_err(), "premature end of input");
    assert_eq!(oxidize::calendar::parse_date("2025-01-01x").unwrap_err(), "trailing input");
    assert_eq!(oxidize::calendar::parse_date("abc").unwrap_err(), "input contains invalid characters");
    assert_eq!(oxidize::calendar::parse_date("2025-13-01").unwrap_err(), "input is out of range");
    assert_eq!(
        oxidize::periods::generate_period_keys("2025-01", "2025-02-01", "1D").unwrap_err(),
        "premature end of input"
    );
    assert_eq!(
        oxidize::periods::generate_period_keys("2025-01-01", "nope", "1D").unwrap_err(),
        "input contains invalid characters"
    );
    assert_eq!(
        oxidize::ranges::chunk_date_range("2025-01-01", "2025-02-30").unwrap_err(),
        "input is out of range"
    );
}
