use oxidize::cache::reimbursement_key;
use oxidize::calendar::Date;
use oxidize::exclusions::Exclusions;
use oxidize::flows::{
    classify_card_journal, sankey_budget_link, sankey_category_link, sankey_destination_link, sankey_subcategory_link,
    CardFlow,
};
use oxidize::journal::{earned_spent_class, Journal};
use oxidize::charts::{budget_history_label, earned_spent_key as bucket_key, expense_category_label, subcategory_label};
use oxidize::periods::generate_period_keys;
use oxidize::ranges::{chunk_date_range, saved_this_month_ranges, shift_months};

fn s(v: &str) -> String {
    v.to_string()
}

#[test]
fn reimbursement_key_lists_range_categories_and_markers() {
    let markers = Exclusions::new(vec![s("Work")], vec![s("Client X")]);
    let key = reimbursement_key("2026-07-15", "2026-09-10", &markers, &vec![s("Reimbursed")]);
    assert_eq!(key, "v2:reimbursement:2026-07-15:2026-09-10:Reimbursed:b=Client X&c=Work");
}

#[test]
fn reimbursement_key_without_markers_keeps_range_and_categories() {
    let none = Exclusions::new(vec![], vec![]);
    let key = reimbursement_key("2026-04-01", "2026-04-30", &none, &vec![s("A"), s("B")]);
    assert_eq!(key, "v2:reimbursement:2026-04-01:2026-04-30:A,B");
}

#[test]
fn reimbursement_key_differs_by_range_and_markers() {
    let work = Exclusions::new(vec![s("Work")], vec![]);
    let travel = Exclusions::new(vec![s("Travel")], vec![]);
    let cats = vec![s("Reimbursed")];
    let a = reimbursement_key("2026-04-01", "2026-04-30", &work, &cats);
    let b = reimbursement_key("2026-04-01", "2026-05-31", &work, &cats);
    let c = reimbursement_key("2026-04-01", "2026-04-30", &travel, &cats);
    assert_ne!(a, b);
    assert_ne!(a, c);
}

#[test]
fn transfer_into_card_counts_once() {
    // Checking (asset) -> card: the payment side counts...
    let into_card = classify_card_journal(false, true, Some("asset"), Some("asset"), "transfer", None);
    assert_eq!(into_card, CardFlow::Payment);
    assert!(into_card.is_payment());
    // ...and the other side of the same transfer counts as nothing.
    let out_of_card = classify_card_journal(true, false, Some("asset"), Some("asset"), "transfer", None);
    assert_eq!(out_of_card, CardFlow::SkipPaymentReverseSide);
    assert!(!out_of_card.is_payment());
    assert!(!out_of_card.is_spending());
    // Card to card moves no debt.
    let between_cards = classify_card_journal(true, true, Some("liability"), Some("asset"), "withdrawal", None);
    assert_eq!(between_cards, CardFlow::SkipCardToCard);
}

#[test]
fn shift_months_round_trip_many() {
    for (y, m, delta) in [(2026, 3, 17), (2026, 1, -1), (2026, 12, 1), (2030, 7, -120), (2000, 1, 0), (1999, 12, 0), (1999, 11, 25), (-5, 2, -30)] {
        let (y2, m2) = shift_months(y, m, delta);
        assert_eq!(shift_months(y2, m2, -delta), (y, m));
    }
}

#[test]
fn saved_ranges_are_adjacent() {
    let today = Date { year: 2024, month: 3, day: 9 };
    let (cur_start, cur_end, prev_start, prev_end) = saved_this_month_ranges(today);
    assert_eq!(cur_start, Date { year: 2024, month: 3, day: 1 });
    assert_eq!(cur_end, today);
    assert_eq!(prev_start, Date { year: 2024, month: 2, day: 1 });
    // 2024 is a leap year: February ends on the 29th, the day before March 1.
    assert_eq!(prev_end, Date { year: 2024, month: 2, day: 29 });
    assert_eq!(prev_end.next_day(), cur_start);
}

#[test]
fn chunks_cover_leap_february() {
    let chunks = chunk_date_range("2024-01-20", "2024-04-05").unwrap();
    assert_eq!(
        chunks,
        vec![
            (s("2024-01-20"), s("2024-01-31")),
            (s("2024-02-01"), s("2024-02-29")),
            (s("2024-03-01"), s("2024-03-31")),
            (s("2024-04-01"), s("2024-04-05")),
        ]
    );
}

#[test]
fn period_keys_come_in_date_order() {
    for period in ["1D", "1W", "1M", "1Q"] {
        let keys = generate_period_keys("2025-11-15", "2026-04-20", period).unwrap();
        assert!(!keys.is_empty());
        for pair in keys.windows(2) {
            assert!(pair[0] < pair[1], "{} keys out of order: {:?}", period, keys);
        }
    }
    assert_eq!(
        generate_period_keys("2025-11-15", "2026-04-20", "1Q").unwrap(),
        vec![
            "2025-10-01T00:00:00+00:00".to_string(),
            "2026-01-01T00:00:00+00:00".to_string(),
            "2026-04-01T00:00:00+00:00".to_string(),
        ]
    );
}

#[test]
fn earned_spent_amounts_land_in_generated_buckets() {
    // August 1 to September 10, monthly: the partial September is left out.
    let keys = generate_period_keys("2026-08-01", "2026-09-10", "1M").unwrap();
    assert_eq!(keys, vec!["2026-08-31T00:00:00+00:00".to_string()]);
    for date in ["2026-08-03T10:00:00+00:00", "2026-09-05T08:30:00Z", "2026-09-10"] {
        let key = bucket_key(date, "1M", "2026-09-10", &keys);
        assert!(keys.contains(&key), "{} went to {}", date, key);
    }
    // A September amount goes to the last generated (August) bucket.
    assert_eq!(bucket_key("2026-09-05T08:30:00Z", "1M", "2026-09-10", &keys), "2026-08-31T00:00:00+00:00");
}

fn groceries_withdrawal() -> Journal {
    Journal {
        journal_type: Some(s("withdrawal")),
        source_id: Some(s("1")),
        destination_id: Some(s("10")),
        source_name: Some(s("Checking")),
        destination_name: Some(s("Supermarket")),
        category_id: Some(s("7")),
        category_name: Some(s("Food:Groceries")),
        budget_name: Some(s("Groceries")),
        amount: Some(s("-42.00")),
        date: Some(s("2026-01-15T10:30:00+00:00")),
        description: Some(s("Weekly shop")),
        currency_symbol: Some(s("$")),
        currency_code: Some(s("USD")),
    }
}

#[test]
fn excluded_journal_feeds_no_chart() {
    let j = groceries_withdrawal();
    let sel = vec![s("1")];
    let parents = vec![s("Food")];
    let none: Vec<String> = vec![];
    for ex in [
        Exclusions::new(vec![s("Food")], vec![]),
        Exclusions::new(vec![s("Food:Groceries")], vec![]),
        Exclusions::new(vec![], vec![s("Groceries")]),
    ] {
        assert_eq!(earned_spent_class(&j, &sel, &ex), (false, false));
        assert_eq!(expense_category_label(&j, &sel, &ex, false), None);
        assert_eq!(budget_history_label(&j, &sel, &ex), None);
        assert_eq!(subcategory_label(&j, &sel, &ex, &parents, &none, false), None);
        assert_eq!(sankey_destination_link(&j, &sel, &ex), None);
        assert_eq!(sankey_budget_link(&j, &sel, None, &ex), None);
        assert_eq!(sankey_category_link(&j, &sel, None, &ex), None);
        assert_eq!(sankey_subcategory_link(&j, &sel, None, &ex), None);
    }
    // Without exclusions the same journal feeds every chart.
    let open = Exclusions::new(vec![], vec![]);
    assert_eq!(earned_spent_class(&j, &sel, &open), (false, true));
    assert_eq!(expense_category_label(&j, &sel, &open, false), Some(s("Food:Groceries")));
    assert_eq!(budget_history_label(&j, &sel, &open), Some(s("Groceries")));
    assert_eq!(subcategory_label(&j, &sel, &open, &parents, &none, false), Some(s("Food > Groceries")));
    assert_eq!(sankey_destination_link(&j, &sel, &open), Some((s("Checking"), s("Supermarket"))));
    assert_eq!(sankey_category_link(&j, &sel, None, &open), Some((s("Checking"), s("Food"))));
}

#[test]
fn shift_months_before_2000_is_calendar_shift() {
    assert_eq!(shift_months(1999, 12, 0), (1999, 12));
    assert_eq!(shift_months(1999, 11, 0), (1999, 11));
    assert_eq!(shift_months(2000, 1, -1), (1999, 12));
    assert_eq!(shift_months(1999, 1, -13), (1997, 12));
    assert_eq!(shift_months(-1, 1, -1), (-2, 12));
}

#[test]
fn transaction_keys_are_among_the_generated_ones() {
    use_keys("2025-02-15", "2025-08-20", "1Q", &["2025-02-15T09:00:00Z", "2025-05-31", "2025-08-20T23:00:00+00:00"]);
    use_keys("2025-02-26", "2025-03-03", "1D", &["2025-02-26", "2025-02-28T12:00:00Z", "2025-03-03T01:00:00+00:00"]);
    // Weekly from a Thursday: the first bucket is the Monday before it.
    use_keys("2025-01-02", "2025-01-20", "1W", &["2025-01-02T08:00:00Z", "2025-01-05", "2025-01-06", "2025-01-19T23:59:59+00:00", "2025-01-20"]);
    // Across a year end and a leap day.
    use_keys("2023-12-28", "2024-03-04", "1W", &["2023-12-31", "2024-01-01", "2024-02-29T10:00:00Z", "2024-03-04"]);
}

#[test]
fn weekdays_count_from_monday() {
    let day = |y, m, d| oxidize::calendar::Date { year: y, month: m, day: d };
    assert_eq!(oxidize::calendar::days_from_monday(&day(2024, 1, 1)), 0);
    assert_eq!(oxidize::calendar::days_from_monday(&day(1970, 1, 1)), 3);
    assert_eq!(oxidize::calendar::days_from_monday(&day(2025, 3, 16)), 6);
    assert_eq!(oxidize::calendar::days_from_monday(&day(2024, 2, 29)), 3);
    assert_eq!(oxidize::calendar::days_from_monday(&day(1, 1, 1)), 0);
    assert_eq!(oxidize::calendar::days_from_monday(&day(-100, 3, 1)), 3);
}

fn use_keys(start: &str, end: &str, period: &str, dates: &[&str]) {
    let keys = generate_period_keys(start, end, period).unwrap();
    for d in dates {
        let k = oxidize::periods::get_period_key(d, period, Some(end));
        assert!(keys.contains(&k), "{} key {} not in {:?}", d, k, keys);
    }
}

#[test]
fn card_interest_is_booked_apart_from_spending() {
    let interest = classify_card_journal(true, false, Some("liability"), Some("expense"), "withdrawal", Some("Interest: Credit Card"));
    assert_eq!(interest, CardFlow::Interest);
    assert!(interest.is_interest());
    assert!(!interest.is_spending());
    assert!(!interest.is_payment());
    assert_eq!(interest.describe(), "interest(charge on card)");
    let purchase = classify_card_journal(true, false, Some("liability"), Some("expense"), "withdrawal", Some("Groceries"));
    assert_eq!(purchase, CardFlow::SpendingWithdrawal);
    assert!(purchase.is_spending());
    // A description that only mentions interest later is a purchase.
    assert_eq!(
        classify_card_journal(true, false, None, None, "withdrawal", Some("Card interest: none")),
        CardFlow::SpendingWithdrawal
    );
    // The marker does not turn a payment into interest.
    assert_eq!(
        classify_card_journal(false, true, Some("asset"), Some("liability"), "transfer", Some("Interest: refund")),
        CardFlow::Payment
    );
}
