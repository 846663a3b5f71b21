//! Administrative rules: disable-and-rotate, the error taxonomy, the sorted
//! status report, and the balance cache.

use kiro_rs::admin::{
    classify_add_pool_error, classify_add_upstream, classify_balance_upstream, classify_error,
    AdminError, AdminService, UpstreamError,
};
use kiro_rs::balance::{compute_balance, BalanceCache, BALANCE_CACHE_TTL_SECS};
use kiro_rs::credential::NewCredential;
use kiro_rs::pool::{LoadBalancingMode, MultiTokenManager, PoolError};

fn new_cred(token: &str, priority: u32) -> NewCredential {
    NewCredential {
        refresh_token: token.to_string(),
        access_token: None,
        profile_arn: None,
        expires_at: None,
        auth_method: "social".to_string(),
        client_id: None,
        client_secret: None,
        priority,
        region: None,
        auth_region: None,
        api_region: None,
        machine_id: None,
        proxy_url: None,
        proxy_username: None,
        proxy_password: None,
        email: None,
    }
}

fn service_with(tokens: &[(&str, u32)]) -> AdminService {
    let mut pool = MultiTokenManager::new(LoadBalancingMode::Priority, 3);
    for (t, p) in tokens {
        pool.add_credential(new_cred(t, *p)).unwrap();
    }
    AdminService::new(pool, BalanceCache::new())
}

#[test]
fn disabling_the_current_credential_rotates_away() {
    let mut svc = service_with(&[("rA", 1), ("rB", 2)]);
    let _ = svc.pool.current_decision(0);
    assert_eq!(svc.pool.current_id, 1);
    svc.set_disabled(1, true).unwrap();
    assert_eq!(svc.pool.current_id, 2);
    svc.set_disabled(2, true).unwrap();
    assert_eq!(svc.pool.current_id, 0);
}

#[test]
fn error_taxonomy_is_stable() {
    assert_eq!(classify_error(PoolError::NotFound { id: 7 }, 7), AdminError::NotFound { id: 7 });
    assert_eq!(classify_error(PoolError::InvalidMode, 7), AdminError::Internal);
    assert_eq!(
        classify_add_pool_error(PoolError::DuplicateRefreshToken),
        AdminError::InvalidCredential
    );
    assert_eq!(classify_add_pool_error(PoolError::EmptyRefreshToken), AdminError::InvalidCredential);
    assert_eq!(classify_add_pool_error(PoolError::IdSpaceExhausted), AdminError::Internal);
    assert_eq!(classify_add_upstream(UpstreamError::ExpiredOrInvalid), AdminError::InvalidCredential);
    assert_eq!(classify_add_upstream(UpstreamError::Timeout), AdminError::Upstream);
    assert_eq!(classify_add_upstream(UpstreamError::Other), AdminError::Internal);
    assert_eq!(classify_balance_upstream(UpstreamError::RateLimited), AdminError::Upstream);
    assert_eq!(classify_balance_upstream(UpstreamError::Other), AdminError::Internal);
}

#[test]
fn add_duplicate_is_a_client_error() {
    let mut svc = service_with(&[]);
    let id = svc.add_credential(new_cred("rX", 0)).unwrap();
    assert_eq!(id, 1);
    assert_eq!(svc.add_credential(new_cred("rX", 0)), Err(AdminError::InvalidCredential));
    assert_eq!(svc.pool.creds.len(), 1);
}

#[test]
fn status_report_is_sorted_by_priority_then_id() {
    let mut svc = service_with(&[("r1", 5), ("r2", 1), ("r3", 5), ("r4", 0)]);
    let _ = svc.pool.current_decision(0);
    let report = svc.get_all_credentials();
    assert_eq!(report.total, 4);
    assert_eq!(report.available, 4);
    let order: Vec<(u32, u64)> = report.credentials.iter().map(|c| (c.priority, c.id)).collect();
    assert_eq!(order, vec![(0, 4), (1, 2), (5, 1), (5, 3)]);
    let current_flags: Vec<bool> = report.credentials.iter().map(|c| c.is_current).collect();
    assert_eq!(current_flags, vec![true, false, false, false]);
}

#[test]
fn balance_cache_serves_fresh_entries_only() {
    let mut svc = service_with(&[("rA", 1)]);
    assert!(svc.get_balance_cached(7, 1000).is_none());
    let data = compute_balance(7, 50, 200, Some("Pro".to_string()), None);
    assert_eq!(data.remaining, 150);
    assert_eq!(data.usage_percentage_bp, 2500);
    svc.record_balance(7, data.clone(), 1000);
    let hit = svc.get_balance_cached(7, 1000 + BALANCE_CACHE_TTL_SECS - 1).unwrap();
    assert_eq!(hit.current_usage, 50);
    assert_eq!(hit.usage_limit, 200);
    assert_eq!(hit.remaining, 150);
    assert_eq!(hit.usage_percentage_bp, 2500);
    assert_eq!(hit.subscription_title.as_deref(), Some("Pro"));
    assert!(svc.get_balance_cached(7, 1000 + BALANCE_CACHE_TTL_SECS).is_none());
}

#[test]
fn deleting_a_credential_purges_its_cached_balance() {
    let mut svc = service_with(&[("rA", 1)]);
    let data = compute_balance(1, 10, 100, None, None);
    svc.record_balance(1, data, 500);
    assert!(svc.get_balance_cached(1, 501).is_some());
    svc.delete_credential(1).unwrap();
    assert!(svc.get_balance_cached(1, 501).is_none());
}

#[test]
fn compute_balance_handles_zero_limit_and_overuse() {
    let zero = compute_balance(1, 50, 0, None, None);
    assert_eq!(zero.usage_percentage_bp, 0);
    assert_eq!(zero.remaining, 0);
    let over = compute_balance(1, 300, 200, None, None);
    assert_eq!(over.remaining, 0);
    assert_eq!(over.usage_percentage_bp, 10000);
}

#[test]
fn mode_validation_is_a_client_error() {
    let mut svc = service_with(&[]);
    assert_eq!(svc.set_load_balancing_mode("nonsense"), Err(AdminError::InvalidCredential));
    svc.set_load_balancing_mode("balanced").unwrap();
    assert_eq!(svc.get_load_balancing_mode(), "balanced");
}
