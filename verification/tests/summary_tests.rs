use oxidize::calendar::{format_ymd, Date};
use oxidize::monthly::{month_day_keys, month_period, name_or, parse_month_key, summary_role, SummaryRole};
use oxidize::ranges::{month_range, saved_this_month_ranges, shift_months};

fn d(y: i32, m: u32, day: u32) -> Date {
    Date { year: y, month: m, day }
}

#[test]
fn test_month_range_common_months() {
    let (start, end, days) = month_range(2026, 9).unwrap();
    assert_eq!(format_ymd(&start), "2026-09-01");
    assert_eq!(format_ymd(&end), "2026-09-30");
    assert_eq!(days, 30);
}

#[test]
fn test_month_range_leap_and_non_leap_february() {
    let (_, end, days) = month_range(2024, 2).unwrap();
    assert_eq!(days, 29);
    assert_eq!(format_ymd(&end), "2024-02-29");

    let (_, end, days) = month_range(2026, 2).unwrap();
    assert_eq!(days, 28);
    assert_eq!(format_ymd(&end), "2026-02-28");
}

#[test]
fn test_month_range_december_and_invalid_months() {
    let (_, end, days) = month_range(2026, 12).unwrap();
    assert_eq!(format_ymd(&end), "2026-12-31");
    assert_eq!(days, 31);

    assert!(month_range(2026, 0).is_err());
    assert!(month_range(2026, 13).is_err());
}

#[test]
fn month_range_error_texts() {
    assert_eq!(month_range(2026, 13), Err("Invalid month: 13 (expected 1-12)".to_string()));
    assert_eq!(month_range(300000, 5), Err("Invalid date: 300000-05-01".to_string()));
}

#[test]
fn test_shift_months() {
    assert_eq!(shift_months(2026, 9, -1), (2026, 8));
    assert_eq!(shift_months(2026, 1, -1), (2025, 12));
    assert_eq!(shift_months(2026, 12, 1), (2027, 1));
    assert_eq!(shift_months(2026, 9, -11), (2025, 10));
    assert_eq!(shift_months(2026, 9, 12), (2027, 9));
}

#[test]
fn shift_months_round_trip() {
    for delta in [-30i64, -13, -1, 0, 1, 7, 25] {
        let (y, m) = shift_months(2026, 5, delta);
        assert_eq!(shift_months(y, m, -delta), (2026, 5));
    }
}

#[test]
fn test_ranges_mid_year() {
    let (cur_start, cur_end, prev_start, prev_end) = saved_this_month_ranges(d(2026, 9, 10));
    assert_eq!(cur_start, d(2026, 9, 1));
    assert_eq!(cur_end, d(2026, 9, 10));
    assert_eq!(prev_start, d(2026, 8, 1));
    assert_eq!(prev_end, d(2026, 8, 31));
}

#[test]
fn test_ranges_first_day_of_month() {
    let (cur_start, cur_end, prev_start, prev_end) = saved_this_month_ranges(d(2026, 3, 1));
    assert_eq!(cur_start, d(2026, 3, 1));
    // A partial month that is only one day long
    assert_eq!(cur_end, d(2026, 3, 1));
    assert_eq!(prev_start, d(2026, 2, 1));
    // 2026 is not a leap year
    assert_eq!(prev_end, d(2026, 2, 28));
}

#[test]
fn test_ranges_january_rolls_back_a_year() {
    let (cur_start, cur_end, prev_start, prev_end) = saved_this_month_ranges(d(2026, 1, 5));
    assert_eq!(cur_start, d(2026, 1, 1));
    assert_eq!(cur_end, d(2026, 1, 5));
    // Previous month is December of the prior year
    assert_eq!(prev_start, d(2025, 12, 1));
    assert_eq!(prev_end, d(2025, 12, 31));
}

#[test]
fn month_key_reads_year_and_month() {
    assert_eq!(parse_month_key("2026-03"), Ok((2026, 3)));
    assert_eq!(parse_month_key("+2026-3"), Ok((2026, 3)));
}

#[test]
fn month_key_errors() {
    assert_eq!(parse_month_key("2026"), Err("Invalid month format, expected YYYY-MM".to_string()));
    assert_eq!(parse_month_key("2026-03-01"), Err("Invalid month format, expected YYYY-MM".to_string()));
    assert_eq!(parse_month_key("2026-13"), Err("Invalid month".to_string()));
    assert_eq!(parse_month_key("2026-00"), Err("Invalid month".to_string()));
    assert_eq!(parse_month_key("20x6-03"), Err("invalid digit found in string".to_string()));
    assert_eq!(parse_month_key("-03"), Err("cannot parse integer from empty string".to_string()));
    assert_eq!(parse_month_key("2026-"), Err("cannot parse integer from empty string".to_string()));
    assert_eq!(parse_month_key("99999999999-01"), Err("number too large to fit in target type".to_string()));
}

#[test]
fn month_period_spans_the_month() {
    let p = month_period(2026, 1).unwrap();
    assert_eq!(p.start, d(2026, 1, 1));
    assert_eq!(p.end, d(2026, 1, 31));
    assert_eq!(p.days_in_month, 31);
    assert_eq!(p.prev_month, "2025-12");
    assert_eq!(p.next_month, "2026-02");

    let p = month_period(2024, 12).unwrap();
    assert_eq!(p.prev_month, "2024-11");
    assert_eq!(p.next_month, "2025-01");

    assert_eq!(month_period(300000, 6).unwrap_err(), "Invalid start date");
}

#[test]
fn month_day_keys_lists_every_day() {
    let keys = month_day_keys(2024, 2);
    assert_eq!(keys.len(), 29);
    assert_eq!(keys[0], "2024-02-01");
    assert_eq!(keys[28], "2024-02-29");
}

#[test]
fn name_or_falls_back_on_empty() {
    assert_eq!(name_or("", "Unknown"), "Unknown");
    assert_eq!(name_or("Employer", "Unknown"), "Employer");
}

#[test]
fn summary_roles_by_journal_type() {
    assert_eq!(summary_role("deposit"), SummaryRole::Income);
    assert_eq!(summary_role("withdrawal"), SummaryRole::Expense);
    assert_eq!(summary_role("transfer"), SummaryRole::Transfer);
    assert_eq!(summary_role("opening balance"), SummaryRole::Other);
    assert_eq!(summary_role(""), SummaryRole::Other);
}
