use oxidize::cache::{
    account_key, balance_history_key, budget_key, earned_spent_key, expiry, kind_prefix, MemoryCache,
    DEFAULT_TTL_SECONDS, PROMOTE_TTL_SECONDS,
};
use oxidize::exclusions::Exclusions;

const NOW: i64 = 1_760_000_000;

#[test]
fn test_account_cache() {
    let mut cache = MemoryCache::new();
    let accounts = r#"["account1", "account2"]"#.to_string();

    cache.store_fresh(account_key(Some("asset")), accounts.clone(), NOW, 300);

    let cached = cache.lookup(&account_key(Some("asset")), NOW);
    assert_eq!(cached, Some(accounts));
}

#[test]
fn test_balance_history_cache() {
    let mut cache = MemoryCache::new();
    let data = r#"{"key": "value"}"#.to_string();
    let ids = vec!["1".to_string()];

    cache.store_fresh(
        balance_history_key(Some(&ids), Some("2024-01-01"), Some("2024-01-31"), Some("1D")),
        data.clone(),
        NOW,
        300,
    );

    let cached = cache.lookup(&balance_history_key(Some(&ids), Some("2024-01-01"), Some("2024-01-31"), Some("1D")), NOW);
    assert_eq!(cached, Some(data));
}

#[test]
fn test_cache_clear() {
    let mut cache = MemoryCache::new();
    cache.store_fresh(account_key(Some("asset")), r#"["a"]"#.to_string(), NOW, 300);

    cache.clear();

    let cached = cache.lookup(&account_key(Some("asset")), NOW);
    assert_eq!(cached, None);
}

#[test]
fn cache_entry_expires() {
    let mut cache = MemoryCache::new();
    cache.store("k".to_string(), "v".to_string(), expiry(NOW, 60));
    assert_eq!(cache.lookup("k", NOW + 60), Some("v".to_string()));
    assert_eq!(cache.lookup("k", NOW + 61), None);
}

#[test]
fn cache_write_replaces_and_keeps_others() {
    let mut cache = MemoryCache::new();
    cache.store_fresh("a".to_string(), "1".to_string(), NOW, DEFAULT_TTL_SECONDS);
    cache.store_fresh("b".to_string(), "2".to_string(), NOW, DEFAULT_TTL_SECONDS);
    cache.store_fresh("a".to_string(), "3".to_string(), NOW, DEFAULT_TTL_SECONDS);
    assert_eq!(cache.lookup("a", NOW), Some("3".to_string()));
    assert_eq!(cache.lookup("b", NOW), Some("2".to_string()));
    assert_eq!(cache.lookup("c", NOW), None);
}

#[test]
fn promote_stores_what_the_persistent_tier_had() {
    let mut cache = MemoryCache::new();
    assert_eq!(cache.promote("k".to_string(), Some("data".to_string()), NOW), Some("data".to_string()));
    assert_eq!(cache.lookup("k", NOW + PROMOTE_TTL_SECONDS as i64), Some("data".to_string()));
    assert_eq!(cache.lookup("k", NOW + PROMOTE_TTL_SECONDS as i64 + 1), None);
    assert_eq!(cache.promote("other".to_string(), None, NOW), None);
    assert_eq!(cache.lookup("other", NOW), None);
}

#[test]
fn cache_key_formats() {
    assert_eq!(account_key(Some("asset")), "v2:accounts:asset");
    assert_eq!(account_key(None), "v2:accounts:all");
    let ids = vec!["1".to_string(), "2".to_string()];
    assert_eq!(
        balance_history_key(Some(&ids), None, Some("2024-01-31"), None),
        "v2:balance:1,2:default:2024-01-31:default"
    );
    assert_eq!(budget_key(Some("2024-01-01"), None), "v2:budgets:2024-01-01:default");
    assert_eq!(kind_prefix("balance"), "v2:balance:");
}

#[test]
fn earned_spent_key_appends_exclusions() {
    let ex = Exclusions::new(vec!["Work".into()], vec!["Trips".into()]);
    assert_eq!(
        earned_spent_key(Some("2024-01-01"), Some("2024-12-31"), Some("1M"), None, &ex),
        "v2:earned_spent:2024-01-01:2024-12-31:1M:all:b=Trips&c=Work"
    );
    assert_eq!(
        earned_spent_key(Some("2024-01-01"), Some("2024-12-31"), Some("1M"), None, &Exclusions::default()),
        "v2:earned_spent:2024-01-01:2024-12-31:1M:all"
    );
}

#[test]
fn default_lifetime_is_five_minutes() {
    assert_eq!(DEFAULT_TTL_SECONDS, 300);
}
