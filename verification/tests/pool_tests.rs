//! Pool scheduling, failure accounting and rotation.

use kiro_rs::credential::NewCredential;
use kiro_rs::pool::{CurrentDecision, LoadBalancingMode, MultiTokenManager, PoolError};

fn new_cred(token: &str, priority: u32) -> NewCredential {
    NewCredential {
        refresh_token: token.to_string(),
        access_token: None,
        profile_arn: None,
        expires_at: None,
        auth_method: "social".to_string(),
        client_id: None,
        client_secret: None,
        priority,
        region: None,
        auth_region: None,
        api_region: None,
        machine_id: None,
        proxy_url: None,
        proxy_username: None,
        proxy_password: None,
        email: None,
    }
}

#[test]
fn ids_are_strictly_increasing_and_never_reused() {
    let mut pool = MultiTokenManager::new(LoadBalancingMode::Priority, 3);
    let a = pool.add_credential(new_cred("rA", 1)).unwrap();
    let b = pool.add_credential(new_cred("rB", 2)).unwrap();
    assert_eq!(a, 1);
    assert_eq!(b, 2);
    pool.delete_credential(b).unwrap();
    let c = pool.add_credential(new_cred("rC", 3)).unwrap();
    assert_eq!(c, 3);
    assert!(c > b);
}

#[test]
fn duplicate_refresh_token_is_rejected_and_pool_unchanged() {
    let mut pool = MultiTokenManager::new(LoadBalancingMode::Priority, 3);
    let id = pool.add_credential(new_cred("rX", 0)).unwrap();
    assert_eq!(id, 1);
    let again = pool.add_credential(new_cred("rX", 5));
    assert_eq!(again, Err(PoolError::DuplicateRefreshToken));
    assert_eq!(pool.creds.len(), 1);
}

#[test]
fn token_shape_is_validated() {
    let mut pool = MultiTokenManager::new(LoadBalancingMode::Priority, 3);
    assert_eq!(pool.add_credential(new_cred("", 0)), Err(PoolError::EmptyRefreshToken));
    assert_eq!(pool.add_credential(new_cred("abc...", 0)), Err(PoolError::TruncatedRefreshToken));
    assert_eq!(pool.add_credential(new_cred("ab***cd", 0)), Err(PoolError::MaskedRefreshToken));
    assert_eq!(pool.creds.len(), 0);
}

#[test]
fn priority_selection_and_failure_rotation() {
    let mut pool = MultiTokenManager::new(LoadBalancingMode::Priority, 2);
    let a = pool.add_credential(new_cred("rA", 1)).unwrap();
    let b = pool.add_credential(new_cred("rB", 2)).unwrap();
    let _c = pool.add_credential(new_cred("rC", 3)).unwrap();
    match pool.current_decision(0) {
        CurrentDecision::NeedsRefresh { id } => assert_eq!(id, a),
        other => panic!("expected a refresh decision for A, got {:?}", decision_name(&other)),
    }
    assert_eq!(pool.current_id, a);
    let disabled_now = pool.record_refresh_failure(a);
    assert!(!disabled_now);
    let disabled_now = pool.record_refresh_failure(a);
    assert!(disabled_now);
    let av = pool.creds.iter().find(|c| c.id == a).unwrap();
    assert!(av.disabled);
    assert_eq!(av.failure_count, 2);
    assert_eq!(pool.current_id, b);
    let snap = pool.snapshot();
    assert_eq!(snap.current_id, b);
}

fn decision_name(d: &CurrentDecision) -> &'static str {
    match d {
        CurrentDecision::NoCredentials => "no credentials",
        CurrentDecision::Fresh { .. } => "fresh",
        CurrentDecision::NeedsRefresh { .. } => "needs refresh",
    }
}

#[test]
fn balanced_rotation_walks_the_ring() {
    let mut pool = MultiTokenManager::new(LoadBalancingMode::Balanced, 3);
    let a = pool.add_credential(new_cred("rA", 1)).unwrap();
    let b = pool.add_credential(new_cred("rB", 1)).unwrap();
    let c = pool.add_credential(new_cred("rC", 1)).unwrap();
    match pool.current_decision(0) {
        CurrentDecision::NeedsRefresh { id } => assert_eq!(id, a),
        _ => panic!("expected selection of A"),
    }
    assert_eq!(pool.switch_to_next(), Some(b));
    assert_eq!(pool.switch_to_next(), Some(c));
    assert_eq!(pool.switch_to_next(), Some(a));
    assert_eq!(pool.switch_to_next(), Some(b));
}

#[test]
fn failure_count_is_bounded_by_threshold() {
    let mut pool = MultiTokenManager::new(LoadBalancingMode::Priority, 3);
    let a = pool.add_credential(new_cred("rA", 1)).unwrap();
    for _ in 0..10 {
        let _ = pool.record_refresh_failure(a);
    }
    let av = &pool.creds[0];
    assert_eq!(av.failure_count, 3);
    assert!(av.disabled);
}

#[test]
fn refresh_success_resets_failures_and_counts() {
    let mut pool = MultiTokenManager::new(LoadBalancingMode::Priority, 3);
    let a = pool.add_credential(new_cred("rA", 1)).unwrap();
    let _ = pool.record_refresh_failure(a);
    let found = pool.record_refresh_success(
        a,
        "token-1".to_string(),
        Some("2099-01-01T00:00:00Z".to_string()),
        "2024-01-01T00:00:00Z".to_string(),
    );
    assert!(found);
    let av = &pool.creds[0];
    assert_eq!(av.failure_count, 0);
    assert_eq!(av.success_count, 1);
    assert_eq!(av.access_token.as_deref(), Some("token-1"));
    match pool.current_decision(0) {
        CurrentDecision::Fresh { id, access_token } => {
            assert_eq!(id, a);
            assert_eq!(access_token, "token-1");
        },
        _ => panic!("expected a fresh token"),
    }
}

#[test]
fn current_decision_with_no_enabled_credentials() {
    let mut pool = MultiTokenManager::new(LoadBalancingMode::Priority, 3);
    assert!(matches!(pool.current_decision(0), CurrentDecision::NoCredentials));
    let a = pool.add_credential(new_cred("rA", 1)).unwrap();
    pool.set_disabled(a, true).unwrap();
    assert!(matches!(pool.current_decision(0), CurrentDecision::NoCredentials));
    assert_eq!(pool.current_id, 0);
}

#[test]
fn delete_current_advances_or_clears() {
    let mut pool = MultiTokenManager::new(LoadBalancingMode::Priority, 3);
    let a = pool.add_credential(new_cred("rA", 1)).unwrap();
    let b = pool.add_credential(new_cred("rB", 2)).unwrap();
    let _ = pool.current_decision(0);
    assert_eq!(pool.current_id, a);
    pool.delete_credential(a).unwrap();
    assert_eq!(pool.current_id, b);
    pool.delete_credential(b).unwrap();
    assert_eq!(pool.current_id, 0);
    assert_eq!(pool.delete_credential(99), Err(PoolError::NotFound { id: 99 }));
}

#[test]
fn mode_words_round_trip() {
    let mut pool = MultiTokenManager::new(LoadBalancingMode::Priority, 3);
    assert_eq!(pool.get_load_balancing_mode(), "priority");
    pool.set_load_balancing_mode("balanced").unwrap();
    assert_eq!(pool.get_load_balancing_mode(), "balanced");
    assert_eq!(pool.set_load_balancing_mode("round-robin"), Err(PoolError::InvalidMode));
}
