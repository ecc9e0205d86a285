use oxidize::avgcost::{
    avg_cost_range, avg_point, budget_selected, comparison_plan, month_abbrevs, month_year_label,
    parse_avg_cost_mode, point_sort_key, AvgCostMode,
};
use oxidize::calendar::{format_ymd, parse_tx_date, Date};
use oxidize::catalog::{simple_accounts, AccountArray, AccountAttributes, AccountRead};
use oxidize::config::{parse_flag, parse_list, parse_port, FireflyUrl};
use oxidize::exclusions::Exclusions;
use oxidize::flows::{classify_card_journal, journal_month_key, CardFlow};
use oxidize::journal::{earned_spent_class, journal_counts_earned, journal_counts_spent, Journal};
use oxidize::models::{on_dashboard, remove_dashboard_id};
use oxidize::numparse::{parse_integer_checked, IntErrorKind};
use oxidize::paydown::{balance_month_key, balance_start, card_paydown_months, select_card_accounts};
use oxidize::params::parse_avg_cost_query;
use oxidize::quarterly::{quarter_key, quarterly_picks};
use oxidize::queries::{
    collect_account_ids, month_summary_bad_request, parse_month_summary_query,
    parse_reimbursement_query, parse_sankey_query, reimbursement_bad_request,
    reimbursement_markers_missing,
};
use oxidize::flows::SankeyFlowType;
use oxidize::ranking::{newest_first, oldest_first, smallest_first};
use oxidize::text::contains_text;

fn d(y: i32, m: u32, day: u32) -> Date {
    Date { year: y, month: m, day }
}

fn s(v: &str) -> String {
    v.to_string()
}

fn pairs(v: &[(&str, &str)]) -> Vec<(String, String)> {
    v.iter().map(|(a, b)| (a.to_string(), b.to_string())).collect()
}

fn journal(jtype: &str, source: &str, dest: &str, category: Option<&str>, budget: Option<&str>) -> Journal {
    Journal {
        journal_type: Some(s(jtype)),
        source_id: Some(s(source)),
        destination_id: Some(s(dest)),
        source_name: None,
        destination_name: None,
        category_id: None,
        category_name: category.map(s),
        budget_name: budget.map(s),
        amount: Some(s("10.00")),
        date: Some(s("2026-01-15T10:30:00+00:00")),
        description: None,
        currency_symbol: None,
        currency_code: None,
    }
}

#[test]
fn journal_level_classification() {
    let selected = vec![s("1"), s("2")];
    // Salary into checking: earned; its withdrawal side is not spent.
    assert!(journal_counts_earned(&journal("deposit", "99", "1", None, None), &selected));
    assert!(!journal_counts_spent(&journal("withdrawal", "99", "1", None, None), &selected));
    // Transfer between two selected accounts: neither.
    let t = journal("transfer", "1", "2", None, None);
    assert!(!journal_counts_earned(&t, &selected));
    assert!(!journal_counts_spent(&t, &selected));
    // Purchase: spent; its deposit side is not earned.
    assert!(journal_counts_spent(&journal("withdrawal", "1", "88", None, None), &selected));
    assert!(!journal_counts_earned(&journal("deposit", "1", "88", None, None), &selected));
    // Transfers out of and into the selection.
    assert!(journal_counts_spent(&journal("transfer", "1", "77", None, None), &selected));
    assert!(journal_counts_earned(&journal("transfer", "77", "2", None, None), &selected));
}

#[test]
fn excluded_journal_counts_nowhere() {
    let ex = Exclusions::new(vec![s("Work")], vec![]);
    let selected: Vec<String> = vec![];
    let j = journal("withdrawal", "1", "88", Some("Work:Travel"), None);
    assert_eq!(earned_spent_class(&j, &selected, &ex), (false, false));
    let j = journal("withdrawal", "1", "88", Some("Food"), None);
    assert_eq!(earned_spent_class(&j, &selected, &ex), (false, true));
}

#[test]
fn integer_parse_errors_match_std() {
    assert_eq!(parse_integer_checked("", 0, 100), Err(IntErrorKind::Empty));
    assert_eq!(parse_integer_checked("+", 0, 100), Err(IntErrorKind::InvalidDigit));
    assert_eq!(parse_integer_checked("-5", 0, 100), Err(IntErrorKind::InvalidDigit));
    assert_eq!(parse_integer_checked("-5", -10, 100), Ok(-5));
    assert_eq!(parse_integer_checked("101", 0, 100), Err(IntErrorKind::PosOverflow));
    assert_eq!(parse_integer_checked("-11", -10, 100), Err(IntErrorKind::NegOverflow));
    assert_eq!(parse_integer_checked("1000x", 0, 100), Err(IntErrorKind::PosOverflow));
    assert_eq!(parse_integer_checked("10x0", 0, 100), Err(IntErrorKind::InvalidDigit));
    assert_eq!(parse_integer_checked("+42", 0, 100), Ok(42));
    for (text, kind) in [("", IntErrorKind::Empty), ("x", IntErrorKind::InvalidDigit), ("4294967296", IntErrorKind::PosOverflow)] {
        let std_text = text.parse::<u32>().unwrap_err().to_string();
        assert_eq!(kind.message(), std_text);
        assert_eq!(parse_integer_checked(text, 0, u32::MAX as i64), Err(kind));
    }
    assert_eq!(IntErrorKind::NegOverflow.message(), "-2147483649".parse::<i32>().unwrap_err().to_string());
}

#[test]
fn text_search() {
    assert!(contains_text("Invalid month", "Invalid"));
    assert!(contains_text("abc", ""));
    assert!(!contains_text("ab", "abc"));
    assert!(contains_text("Month is in the future", "future"));
}

#[test]
fn ranking_orders_are_stable() {
    let dates = vec![s("2026-01-02"), s("2026-01-05"), s("2026-01-02"), s("2026-01-09")];
    assert_eq!(newest_first(&dates, 15), vec![3, 1, 0, 2]);
    assert_eq!(newest_first(&dates, 2), vec![3, 1]);
    assert_eq!(oldest_first(&dates), vec![0, 2, 1, 3]);
    assert_eq!(smallest_first(&vec![202602, 202512, 202602, 202601]), vec![1, 3, 0, 2]);
    assert!(newest_first(&vec![], 15).is_empty());
    assert!(newest_first(&dates, 0).is_empty());
}

#[test]
fn quarter_keys_and_picks() {
    assert_eq!(quarter_key("2026-03-31T00:00:00+00:00"), Some(s("2026-Q1")));
    assert_eq!(quarter_key("2026-10-01"), Some(s("2026-Q4")));
    assert_eq!(quarter_key("garbage"), None);
    let dates = vec![d(2026, 1, 31), d(2026, 3, 31), d(2025, 12, 31), d(2026, 2, 28), d(2026, 4, 30)];
    let picks = quarterly_picks(&dates);
    assert_eq!(picks, vec![(s("2025-Q4"), 2), (s("2026-Q1"), 1), (s("2026-Q2"), 4)]);
    // Equal dates: the later entry wins.
    let picks = quarterly_picks(&vec![d(2026, 1, 31), d(2026, 1, 31)]);
    assert_eq!(picks, vec![(s("2026-Q1"), 1)]);
}

#[test]
fn paydown_months_and_balance_start() {
    // Every month that meets the range, February included.
    assert_eq!(
        card_paydown_months(d(2025, 11, 15), d(2026, 2, 10)),
        vec![s("2025-11"), s("2025-12"), s("2026-01"), s("2026-02")]
    );
    assert_eq!(card_paydown_months(d(2026, 1, 15), d(2026, 3, 10)), vec![s("2026-01"), s("2026-02"), s("2026-03")]);
    // A start on the 31st walks through the shorter months too.
    assert_eq!(card_paydown_months(d(2025, 1, 31), d(2025, 3, 1)), vec![s("2025-01"), s("2025-02"), s("2025-03")]);
    assert_eq!(card_paydown_months(d(2026, 3, 10), d(2026, 3, 10)), vec![s("2026-03")]);
    assert_eq!(balance_start(&d(2026, 1, 15)), d(2025, 12, 15));
    assert_eq!(balance_start(&d(2026, 3, 31)), d(2026, 2, 28));
    assert_eq!(balance_start(&d(2024, 3, 30)), d(2024, 2, 29));
    assert_eq!(balance_month_key("2026-01-31T00:00:00+00:00"), Some(s("2026-01")));
    assert_eq!(balance_month_key("2026"), None);
}

#[test]
fn card_accounts_fall_back_to_all() {
    let ids = vec![s("1"), s("2"), s("3")];
    assert_eq!(select_card_accounts(&ids, &vec![false, true, true]), vec![s("2"), s("3")]);
    assert_eq!(select_card_accounts(&ids, &vec![false, false, false]), ids);
}

#[test]
fn card_journal_classification() {
    assert_eq!(classify_card_journal(true, true, Some("asset"), Some("asset"), "transfer", None), CardFlow::SkipCardToCard);
    assert_eq!(classify_card_journal(false, true, Some("asset"), Some("asset"), "transfer", None), CardFlow::Payment);
    assert_eq!(classify_card_journal(false, true, Some("revenue"), Some("asset"), "deposit", None), CardFlow::SkipIntoCardFromNonAsset);
    assert_eq!(classify_card_journal(true, false, Some("asset"), Some("expense"), "withdrawal", None), CardFlow::SpendingWithdrawal);
    assert_eq!(classify_card_journal(true, false, Some("asset"), Some("revenue"), "transfer", None), CardFlow::SpendingTransfer);
    assert_eq!(classify_card_journal(true, false, Some("asset"), Some("asset"), "transfer", None), CardFlow::SkipPaymentReverseSide);
    assert_eq!(classify_card_journal(true, false, Some("asset"), None, "deposit", None), CardFlow::SkipUnknownType);
    assert_eq!(classify_card_journal(false, false, None, None, "withdrawal", None), CardFlow::SkipNoCard);
    assert_eq!(CardFlow::Payment.describe(), "payment(into card from asset)");
    assert_eq!(journal_month_key("2026-01-15T00:00:00"), Some(s("2026-01")));
}

#[test]
fn avg_cost_ranges() {
    let today = d(2026, 3, 15);
    let (start, end, n) = avg_cost_range(today, AvgCostMode::LastNMonths, 6, None, None).unwrap();
    assert_eq!((start, end, n), (d(2025, 9, 1), today, 6));
    let (start, _, n) = avg_cost_range(today, AvgCostMode::LastNMonths, 0, None, None).unwrap();
    assert_eq!((start, n), (d(2026, 2, 1), 1));
    let (start, _, n) = avg_cost_range(today, AvgCostMode::LastNMonths, 99, None, None).unwrap();
    assert_eq!((start, n), (d(2024, 3, 1), 24));
    let r = avg_cost_range(today, AvgCostMode::PreviousYearSameMonth, 6, None, None).unwrap();
    assert_eq!(r, (d(2025, 3, 1), d(2025, 3, 31), 1));
    let r = avg_cost_range(today, AvgCostMode::PreviousYearSameMonth, 6, Some(2), Some(2024)).unwrap();
    assert_eq!(r, (d(2024, 2, 1), d(2024, 2, 29), 1));
    // Only one of month and year: the current month.
    let r = avg_cost_range(today, AvgCostMode::PreviousYearSameMonth, 6, Some(2), None).unwrap();
    assert_eq!(r, (d(2026, 3, 1), d(2026, 3, 31), 1));
    assert_eq!(
        avg_cost_range(today, AvgCostMode::PreviousYearSameMonth, 6, Some(13), Some(2024)),
        Err(s("Failed to compute start date"))
    );
    assert_eq!(
        avg_cost_range(today, AvgCostMode::PreviousYearSameMonth, 6, Some(12), Some(262142)),
        Err(s("Failed to compute end date"))
    );
    assert_eq!(parse_avg_cost_mode(Some("previous_year_same_month")), AvgCostMode::PreviousYearSameMonth);
    assert_eq!(parse_avg_cost_mode(Some("other")), AvgCostMode::LastNMonths);
    assert_eq!(parse_avg_cost_mode(None), AvgCostMode::LastNMonths);
}

#[test]
fn avg_cost_points() {
    assert_eq!(avg_point("2026-01-01T00:00:00+00:00"), Some((2026, 1, s("Jan 2026"))));
    assert_eq!(avg_point("2025-12-31"), Some((2025, 12, s("Dec 2025"))));
    assert_eq!(avg_point("2025-13-01"), None);
    assert_eq!(avg_point("0000-05-01"), None);
    assert_eq!(avg_point("2025-1"), None);
    assert_eq!(point_sort_key(2026, 1), 202601);
}

#[test]
fn budget_selection_and_comparison_plan() {
    let ex = Exclusions::new(vec![], vec![s("Work")]);
    assert!(!budget_selected(&ex, &vec![], "Work"));
    assert!(budget_selected(&ex, &vec![], "Food"));
    assert!(!budget_selected(&ex, &vec![s("Rent")], "Food"));
    assert!(budget_selected(&ex, &vec![s("Rent"), s("Food")], "Food"));
    let p = comparison_plan(d(2026, 5, 20), None, None);
    assert_eq!((p.current_year, p.previous_year), (2026, 2025));
    assert_eq!(p.start, "2026-01-01");
    assert_eq!(p.end, "2026-05-20");
    assert_eq!(p.prev_start, "2025-01-01");
    assert_eq!(p.prev_end, "2025-12-31");
    assert_eq!(p.current_month, 5);
    let p = comparison_plan(d(2026, 5, 20), Some("2026-02-01"), Some("2026-03-31"));
    assert_eq!(p.start, "2026-02-01");
    assert_eq!(p.current_month, 3);
    let p = comparison_plan(d(2026, 5, 20), None, Some("bad"));
    assert_eq!(p.current_month, 5);
    assert_eq!(month_abbrevs()[8], "Sep");
    assert_eq!(month_year_label(&d(2026, 9, 10)), "September 2026");
}

#[test]
fn avg_cost_query_reading() {
    let q = parse_avg_cost_query(&pairs(&[
        ("budget_names", "Food"),
        ("months", "x"),
        ("budget_names", "Rent"),
        ("account_ids", " 1, ,2 "),
        ("months", "12"),
        ("account_ids", "3"),
        ("month", "4"),
        ("year", "2025"),
        ("mode", "previous_year_same_month"),
    ]));
    assert_eq!(q.budget_names, vec![s("Food"), s("Rent")]);
    assert_eq!(q.months, 12);
    assert_eq!(q.account_ids, vec![s("1"), s("2"), s("3")]);
    assert_eq!(q.target_month, Some(4));
    assert_eq!(q.target_year, Some(2025));
    assert_eq!(q.mode, Some(s("previous_year_same_month")));
    let q = parse_avg_cost_query(&pairs(&[("months", "-3")]));
    assert_eq!(q.months, 6);
}

#[test]
fn endpoint_queries() {
    let p = pairs(&[("accounts[]", "1"), ("accounts%5B%5D", "2"), ("accounts", "3")]);
    assert_eq!(collect_account_ids(&p, false), vec![s("1"), s("3")]);
    assert_eq!(collect_account_ids(&p, true), vec![s("1"), s("2"), s("3")]);

    let q = parse_month_summary_query(&pairs(&[("year", "2024"), ("month", "13"), ("month", "x")]), 2026, 9);
    assert_eq!((q.year, q.month), (2024, 13));
    assert!(month_summary_bad_request("Invalid month: 13 (expected 1-12)"));
    assert!(month_summary_bad_request("Month is in the future"));
    assert!(!month_summary_bad_request("upstream timeout"));

    let q = parse_reimbursement_query(&pairs(&[("expense_categories[]", "Work")]), &d(2026, 8, 15));
    assert_eq!(q.start, "2026-08-01");
    assert_eq!(q.end, "2026-08-15");
    assert!(!reimbursement_markers_missing(&q));
    let q = parse_reimbursement_query(&pairs(&[("start", "2026-01-01")]), &d(2026, 8, 15));
    assert_eq!(q.start, "2026-01-01");
    assert!(reimbursement_markers_missing(&q));
    assert!(reimbursement_bad_request("Invalid date"));

    let q = parse_sankey_query(&pairs(&[("flow_type", "budget"), ("accounts[]", "5"), ("start", "2026-01-01")]));
    assert_eq!(q.flow_type, SankeyFlowType::Budget);
    assert_eq!(q.account_ids, vec![s("5")]);
    assert_eq!(q.start, Some(s("2026-01-01")));
    assert_eq!(q.end, None);
}

#[test]
fn accounts_filter_by_type_family() {
    let acct = |id: &str, t: &str| AccountRead {
        id: s(id),
        attributes: AccountAttributes {
            name: format!("acct {}", id),
            account_type: s(t),
            current_balance: s("0"),
            currency_symbol: s("$"),
        },
    };
    let list = || AccountArray { data: vec![acct("1", "asset"), acct("2", "liabilities"), acct("3", "liability")] };
    let liab: Vec<String> = simple_accounts(list(), Some("liability")).into_iter().map(|a| a.id).collect();
    assert_eq!(liab, vec![s("2"), s("3")]);
    let liab: Vec<String> = simple_accounts(list(), Some("liabilities")).into_iter().map(|a| a.id).collect();
    assert_eq!(liab, vec![s("2"), s("3")]);
    let assets: Vec<String> = simple_accounts(list(), Some("asset")).into_iter().map(|a| a.id).collect();
    assert_eq!(assets, vec![s("1")]);
    assert_eq!(simple_accounts(list(), None).len(), 3);
}

#[test]
fn settings_reading() {
    assert_eq!(parse_list(" asset, cash ,,liability "), vec![s("asset"), s("cash"), s("liability")]);
    assert!(parse_list("").is_empty());
    assert!(parse_flag(" TRUE "));
    assert!(parse_flag("1"));
    assert!(!parse_flag("yes"));
    assert_eq!(parse_port("9090"), 9090);
    assert_eq!(parse_port("70000"), 8080);
    assert_eq!(parse_port(""), 8080);
    assert!(FireflyUrl::validate(s("https://firefly.example")).is_ok());
    assert_eq!(
        FireflyUrl::validate(s("ftp://x")).unwrap_err(),
        "FIREFLY_III_URL must be a valid HTTP/HTTPS URL. Got: ftp://x"
    );
}

#[test]
fn dashboard_ids() {
    let ids = vec![s("a"), s("b"), s("a")];
    assert!(on_dashboard(&ids, "b"));
    assert_eq!(remove_dashboard_id(ids.clone(), "a"), (vec![s("b")], true));
    assert_eq!(remove_dashboard_id(ids, "z").1, false);
}

#[test]
fn transaction_timestamps() {
    assert_eq!(parse_tx_date("2026-01-15T10:30:00+00:00"), Some(d(2026, 1, 15)));
    assert_eq!(parse_tx_date("2026-01-15T10:30:00Z"), Some(d(2026, 1, 15)));
    assert_eq!(parse_tx_date("2026-01-15T10:30:00.123+00:00"), Some(d(2026, 1, 15)));
    assert_eq!(parse_tx_date("2026-01-15"), Some(d(2026, 1, 15)));
    assert_eq!(parse_tx_date("15/01/2026"), None);
    assert_eq!(format_ymd(&d(-5, 3, 4)), "-0005-03-04");
    assert_eq!(format_ymd(&d(12345, 3, 4)), "+12345-03-04");
}
