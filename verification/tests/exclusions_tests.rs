use oxidize::cache::earned_spent_key;
use oxidize::exclusions::Exclusions;

#[test]
fn empty_exclusions_exclude_nothing() {
    let ex = Exclusions::default();
    assert!(ex.is_empty());
    assert!(!ex.is_category_excluded("Work Expenses"));
    assert!(!ex.is_category_excluded("Work Expenses:Reimbursed"));
    assert!(!ex.is_budget_excluded("Work"));
    assert!(!ex.is_journal_excluded(Some("Work Expenses"), Some("Work")));
    assert!(ex.cache_key().is_empty());
}

#[test]
fn parent_exclusion_covers_subcategories() {
    let ex = Exclusions::new(vec!["Work Expenses".into()], vec![]);
    assert!(ex.is_category_excluded("Work Expenses"));
    assert!(ex.is_category_excluded("Work Expenses:Reimbursed"));
    assert!(!ex.is_category_excluded("Work"));
    assert!(!ex.is_category_excluded("Groceries"));
    assert!(!ex.is_category_excluded(""));
}

#[test]
fn full_name_exclusion_is_exact() {
    let ex = Exclusions::new(vec!["Work Expenses:Reimbursed".into()], vec![]);
    assert!(ex.is_category_excluded("Work Expenses:Reimbursed"));
    assert!(!ex.is_category_excluded("Work Expenses:Other"));
    assert!(!ex.is_category_excluded("Work Expenses"));
}

#[test]
fn budget_exclusion_is_exact() {
    let ex = Exclusions::new(vec![], vec!["Work".into()]);
    assert!(ex.is_budget_excluded("Work"));
    assert!(!ex.is_budget_excluded("Work Expenses"));
    assert!(!ex.is_budget_excluded("Unbudgeted"));
}

#[test]
fn journal_exclusion_matches_either_dimension() {
    let ex = Exclusions::new(vec!["Work Expenses".into()], vec!["Work".into()]);
    assert!(ex.is_journal_excluded(Some("Work Expenses:Reimbursed"), None));
    assert!(ex.is_journal_excluded(None, Some("Work")));
    assert!(ex.is_journal_excluded(Some("Work Expenses"), Some("Work")));
    assert!(!ex.is_journal_excluded(Some("Groceries"), Some("Groceries Budget")));
    assert!(!ex.is_journal_excluded(None, None));
    // Category not excluded but budget excluded -> dropped
    assert!(ex.is_journal_excluded(Some("Groceries:Home"), Some("Work")));
    // Neither matches -> kept
    assert!(!ex.is_journal_excluded(Some("Groceries:Home"), Some("Dining")));
}

#[test]
fn union_merges_and_dedupes() {
    let a = Exclusions::new(vec!["A".into(), "B".into()], vec!["X".into()]);
    let b = Exclusions::new(vec!["B".into(), "C".into()], vec!["X".into(), "Y".into()]);
    let merged = a.union(&b);
    assert_eq!(
        merged.categories,
        vec!["A".to_string(), "B".to_string(), "C".to_string()]
    );
    assert_eq!(merged.budgets, vec!["X".to_string(), "Y".to_string()]);
}

#[test]
fn cache_key_is_sorted_and_stable() {
    let ex1 = Exclusions::new(vec!["B".into(), "A".into()], vec!["X".into()]);
    let ex2 = Exclusions::new(vec!["A".into(), "B".into(), "B".into()], vec!["X".into()]);
    assert_eq!(ex1.cache_key(), ex2.cache_key());
    assert_eq!(ex1.cache_key(), "b=X&c=A&c=B");
}

/// Cache keys must differ between excluded and non-excluded queries so
/// one does not serve the other's data.
#[test]
fn test_cache_keys_differ_with_exclusions() {
    let ids = vec!["1".to_string()];
    let plain = earned_spent_key(None, None, Some("1M"), Some(&ids), &Exclusions::default());
    let excluded = earned_spent_key(
        None,
        None,
        Some("1M"),
        Some(&ids),
        &Exclusions::new(vec!["Work Expenses".into()], vec![]),
    );
    assert_ne!(plain, excluded);
    // Default exclusions produce the same key format as before (no suffix)
    assert!(!plain.contains("c="));
    assert!(excluded.contains("c=Work Expenses"));
}

#[test]
fn union_excludes_what_either_excludes() {
    let a = Exclusions::new(vec!["Work".into()], vec![]);
    let b = Exclusions::new(vec!["Travel:Flights".into()], vec!["Client X".into()]);
    let u = a.union(&b);
    assert!(u.is_category_excluded("Work:Meals"));
    assert!(u.is_category_excluded("Travel:Flights"));
    assert!(!u.is_category_excluded("Travel:Hotels"));
    assert!(u.is_budget_excluded("Client X"));
    assert!(!u.is_budget_excluded("Work"));
}

#[test]
fn union_keeps_non_adjacent_repeats() {
    // Only neighbouring repeats are merged, as `Vec::dedup` does.
    let a = Exclusions::new(vec!["A".into(), "B".into()], vec![]);
    let b = Exclusions::new(vec!["A".into()], vec![]);
    let u = a.union(&b);
    assert_eq!(u.categories, vec!["A".to_string(), "B".to_string(), "A".to_string()]);
}

#[test]
fn cache_key_of_budgets_only() {
    let ex = Exclusions::new(vec![], vec!["Z".into(), "M".into(), "Z".into()]);
    assert_eq!(ex.cache_key(), "b=M&b=Z");
}

#[test]
fn empty_budget_name_is_not_matched_as_category() {
    let ex = Exclusions::new(vec!["".into()], vec![]);
    assert!(!ex.is_category_excluded(""));
}
