//! Persistence round trips: the pool file, the cache file, and the
//! restart path through the loaders.

use kiro_rs::balance::{BalanceCache, CachedBalance, BalanceResponse, BALANCE_CACHE_TTL_SECS};
use kiro_rs::credential::NewCredential;
use kiro_rs::persist::{encode_balance_cache, encode_pool, parse_balance_cache, parse_pool};
use kiro_rs::pool::{LoadBalancingMode, MultiTokenManager};

fn new_cred(token: &str, priority: u32) -> NewCredential {
    NewCredential {
        refresh_token: token.to_string(),
        access_token: Some(format!("at-{}", token)),
        profile_arn: Some("arn:aws:test".to_string()),
        expires_at: Some("2024-01-01T00:00:00Z".to_string()),
        auth_method: "idc".to_string(),
        client_id: Some("cid".to_string()),
        client_secret: None,
        priority,
        region: Some("us-east-1".to_string()),
        auth_region: None,
        api_region: None,
        machine_id: Some("m-1".to_string()),
        proxy_url: None,
        proxy_username: None,
        proxy_password: None,
        email: Some("user@example.com".to_string()),
    }
}

#[test]
fn pool_serialize_then_deserialize_is_identity() {
    let mut pool = MultiTokenManager::new(LoadBalancingMode::Priority, 3);
    pool.add_credential(new_cred("rA", 1)).unwrap();
    pool.add_credential(new_cred("rB", 2)).unwrap();
    let _ = pool.record_refresh_failure(1);
    let text = encode_pool(&pool.creds);
    let parsed = parse_pool(&text).unwrap();
    assert_eq!(parsed.len(), pool.creds.len());
    for (a, b) in parsed.iter().zip(pool.creds.iter()) {
        assert_eq!(a.id, b.id);
        assert_eq!(a.refresh_token, b.refresh_token);
        assert_eq!(a.access_token, b.access_token);
        assert_eq!(a.profile_arn, b.profile_arn);
        assert_eq!(a.expires_at, b.expires_at);
        assert_eq!(a.auth_method, b.auth_method);
        assert_eq!(a.priority, b.priority);
        assert_eq!(a.disabled, b.disabled);
        assert_eq!(a.failure_count, b.failure_count);
        assert_eq!(a.success_count, b.success_count);
        assert_eq!(a.machine_id, b.machine_id);
        assert_eq!(a.email, b.email);
    }
}

#[test]
fn restart_reconstructs_the_persisted_pool() {
    let mut pool = MultiTokenManager::new(LoadBalancingMode::Priority, 3);
    pool.add_credential(new_cred("rA", 1)).unwrap();
    pool.add_credential(new_cred("rB", 2)).unwrap();
    let text = encode_pool(&pool.creds);
    let loaded = parse_pool(&text).unwrap();
    let restarted = MultiTokenManager::from_loaded(loaded, LoadBalancingMode::Priority, 3);
    assert_eq!(restarted.creds.len(), 2);
    assert_eq!(restarted.next_id, 3);
    for (a, b) in restarted.creds.iter().zip(pool.creds.iter()) {
        assert_eq!(a.id, b.id);
        assert_eq!(a.refresh_token, b.refresh_token);
    }
    let next = {
        let mut r = restarted;
        r.add_credential(new_cred("rC", 3)).unwrap()
    };
    assert_eq!(next, 3);
}

#[test]
fn pool_parser_skips_malformed_entries() {
    let text = r#"[{"note":"not a credential"}]"#;
    let parsed = parse_pool(text).unwrap();
    assert_eq!(parsed.len(), 0);
    assert!(parse_pool("not json at all").is_none());
}

#[test]
fn cache_round_trip_and_ttl_filter_on_load() {
    let mut cache = BalanceCache::new();
    let fresh = BalanceResponse {
        id: 7,
        subscription_title: Some("Pro".to_string()),
        current_usage: 50,
        usage_limit: 200,
        remaining: 150,
        usage_percentage_bp: 2500,
        next_reset_at: Some("2024-02-01T00:00:00Z".to_string()),
    };
    cache.upsert(7, fresh, 10_000);
    let stale = BalanceResponse {
        id: 8,
        subscription_title: None,
        current_usage: 1,
        usage_limit: 2,
        remaining: 1,
        usage_percentage_bp: 5000,
        next_reset_at: None,
    };
    cache.upsert(8, stale, 1_000);
    let text = encode_balance_cache(cache.entries_ref());
    // the file is a JSON object keyed by the string-encoded ids
    assert!(text.starts_with('{'));
    assert!(text.contains("\"7\":{"));
    let entries = parse_balance_cache(&text).unwrap();
    assert_eq!(entries.len(), 2);
    assert_eq!(entries[0].0, 7);
    assert_eq!(entries[0].1.cached_at, 10_000);
    assert_eq!(entries[0].1.data.current_usage, 50);
    // a restart shortly after: the stale entry is discarded on load
    let now = 1_000 + BALANCE_CACHE_TTL_SECS;
    let reloaded = BalanceCache::from_loaded(entries, now);
    assert!(reloaded.lookup(7, now).is_some());
    assert!(reloaded.lookup(8, now).is_none());
}

#[test]
fn cache_loader_drops_incoherent_entries() {
    let bad = vec![(9u64, CachedBalance {
        cached_at: 100,
        data: BalanceResponse {
            id: 10,
            subscription_title: None,
            current_usage: 0,
            usage_limit: 0,
            remaining: 0,
            usage_percentage_bp: 0,
            next_reset_at: None,
        },
    })];
    let cache = BalanceCache::from_loaded(bad, 100);
    assert!(cache.lookup(9, 100).is_none());
}
