use oxidize::calendar::Date;
use oxidize::exclusions::Exclusions;
use oxidize::journal::{is_reimbursement, is_work_expense, Journal};
use oxidize::ranges::month_bucket_labels;

fn d(y: i32, m: u32, day: u32) -> Date {
    Date { year: y, month: m, day }
}

/// Minimal journal fixture. `amount` signed like the Firefly API
/// (withdrawal side negative, deposit side positive).
fn journal(
    jtype: &str,
    amount: &str,
    category: Option<&str>,
    budget: Option<&str>,
    source: &str,
    dest: &str,
) -> Journal {
    Journal {
        journal_type: Some(jtype.to_string()),
        source_id: Some(source.to_string()),
        destination_id: Some(dest.to_string()),
        source_name: None,
        destination_name: None,
        category_id: None,
        category_name: Some(category.unwrap_or("").to_string()),
        budget_name: Some(budget.unwrap_or("").to_string()),
        amount: Some(amount.to_string()),
        date: Some("2026-08-15T12:00:00.000000".to_string()),
        description: None,
        currency_symbol: None,
        currency_code: None,
    }
}

#[test]
fn test_month_labels_single_month() {
    assert_eq!(month_bucket_labels(d(2026, 8, 10), d(2026, 8, 20)), vec!["2026-08"]);
}

#[test]
fn test_month_labels_partial_range() {
    assert_eq!(
        month_bucket_labels(d(2026, 7, 15), d(2026, 9, 10)),
        vec!["2026-07", "2026-08", "2026-09"]
    );
}

#[test]
fn test_month_labels_crosses_year_boundary() {
    assert_eq!(
        month_bucket_labels(d(2025, 12, 1), d(2026, 1, 31)),
        vec!["2025-12", "2026-01"]
    );
}

#[test]
fn test_month_labels_single_day() {
    assert_eq!(month_bucket_labels(d(2026, 2, 28), d(2026, 2, 28)), vec!["2026-02"]);
}

#[test]
fn month_labels_empty_when_start_after_end() {
    assert!(month_bucket_labels(d(2026, 9, 1), d(2026, 8, 31)).is_empty());
}

#[test]
fn test_work_expense_withdrawal_in_marked_category() {
    let markers = Exclusions::new(vec!["Work".to_string()], vec![]);
    let j = journal("withdrawal", "-100.00", Some("Work"), None, "1", "2");
    assert!(is_work_expense(&j, &markers));
}

#[test]
fn test_work_expense_parent_marker_covers_subcategory() {
    let markers = Exclusions::new(vec!["Work".to_string()], vec![]);
    let j = journal("withdrawal", "-100.00", Some("Work:Travel"), None, "1", "2");
    assert!(is_work_expense(&j, &markers));
}

#[test]
fn test_work_expense_subcategory_marker_matches_exact_only() {
    let markers = Exclusions::new(vec!["Work:Travel".to_string()], vec![]);
    // Exact subcategory match
    let j = journal("withdrawal", "-100.00", Some("Work:Travel"), None, "1", "2");
    assert!(is_work_expense(&j, &markers));
    // Sibling subcategory must NOT match
    let j2 = journal("withdrawal", "-50.00", Some("Work:Meals"), None, "1", "2");
    assert!(!is_work_expense(&j2, &markers));
    // Parent-only journal does not match a sub-only marker
    let j3 = journal("withdrawal", "-50.00", Some("Work"), None, "1", "2");
    assert!(!is_work_expense(&j3, &markers));
}

#[test]
fn test_work_expense_budget_marker_matches() {
    let markers = Exclusions::new(vec![], vec!["Client X".to_string()]);
    // Category is unmarked, budget is marked -> work expense
    let j = journal("withdrawal", "-100.00", Some("Groceries"), Some("Client X"), "1", "2");
    assert!(is_work_expense(&j, &markers));
    // Same category, unmarked budget -> not
    let j2 = journal("withdrawal", "-100.00", Some("Groceries"), None, "1", "2");
    assert!(!is_work_expense(&j2, &markers));
}

#[test]
fn test_work_expense_neither_marker_matches() {
    let markers = Exclusions::new(vec!["Work".to_string()], vec!["Client X".to_string()]);
    let j = journal("withdrawal", "-100.00", Some("Groceries"), None, "1", "2");
    assert!(!is_work_expense(&j, &markers));
}

#[test]
fn test_work_expense_earned_journals_never_count() {
    let markers = Exclusions::new(vec!["Work".to_string()], vec![]);
    let deposit = journal("deposit", "100.00", Some("Work"), None, "1", "2");
    assert!(!is_work_expense(&deposit, &markers));
}

#[test]
fn test_work_expense_transfer_never_counts_without_selection() {
    let markers = Exclusions::new(vec!["Work".to_string()], vec![]);
    let transfer = journal("transfer", "-100.00", Some("Work"), None, "1", "2");
    assert!(!is_work_expense(&transfer, &markers));
}

#[test]
fn test_reimbursement_deposit_in_marked_category() {
    let markers = Exclusions::new(vec!["Reimbursed".to_string()], vec![]);
    let j = journal("deposit", "500.00", Some("Reimbursed"), None, "1", "2");
    assert!(is_reimbursement(&j, &markers));
}

#[test]
fn test_reimbursement_parent_marker_covers_subcategory() {
    let markers = Exclusions::new(vec!["Reimbursed".to_string()], vec![]);
    let j = journal("deposit", "500.00", Some("Reimbursed:2026-08"), None, "1", "2");
    assert!(is_reimbursement(&j, &markers));
}

#[test]
fn test_reimbursement_unmarked_category_never_counts() {
    let markers = Exclusions::new(vec!["Reimbursed".to_string()], vec![]);
    let j = journal("deposit", "500.00", Some("Salary"), None, "1", "2");
    assert!(!is_reimbursement(&j, &markers));
    let uncategorized = journal("deposit", "500.00", None, None, "1", "2");
    assert!(!is_reimbursement(&uncategorized, &markers));
}

#[test]
fn test_reimbursement_spent_journals_never_count() {
    let markers = Exclusions::new(vec!["Work".to_string()], vec![]);
    let withdrawal = journal("withdrawal", "-500.00", Some("Work"), None, "1", "2");
    assert!(!is_reimbursement(&withdrawal, &markers));
}

#[test]
fn work_expense_is_never_a_reimbursement() {
    let markers = Exclusions::new(vec!["Work".to_string()], vec!["Work".to_string()]);
    for t in ["withdrawal", "deposit", "transfer", "opening balance"] {
        let j = journal(t, "10.00", Some("Work"), Some("Work"), "1", "2");
        assert!(!(is_work_expense(&j, &markers) && is_reimbursement(&j, &markers)));
    }
}

#[test]
fn reimbursement_budget_marker_is_ignored() {
    // Reimbursements match on category only.
    let markers = Exclusions::new(vec![], vec!["Client X".to_string()]);
    let j = journal("deposit", "500.00", Some("Salary"), Some("Client X"), "1", "2");
    assert!(!is_reimbursement(&j, &markers));
}
