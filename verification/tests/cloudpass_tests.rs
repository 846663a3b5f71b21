//! Cloud Pass: response resolution precedence, worker decisions, the
//! kicked-and-reassign cycle, and the observable state.

use kiro_rs::cloudpass::model::{
    CloudPassCredentials, CloudPassData, CloudPassResponse, ResolvedCredentials,
};
use kiro_rs::cloudpass::state::CloudPassStatusInner;
use kiro_rs::cloudpass::worker::{
    build_injected_credential, classify_injection, decide_after_fetch, FetchDecision,
    InjectionOutcome,
};
use kiro_rs::pool::{LoadBalancingMode, MultiTokenManager, PoolError};

fn empty_response() -> CloudPassResponse {
    CloudPassResponse {
        success: true,
        message: None,
        access_token: None,
        refresh_token: None,
        client_id: None,
        client_secret: None,
        expires_at: None,
        region: None,
        profile_arn: None,
        kicked: None,
        license_expires_at: None,
        credentials: None,
        data: None,
    }
}

fn empty_data() -> CloudPassData {
    CloudPassData {
        access_token: None,
        refresh_token: None,
        client_id: None,
        client_secret: None,
        expires_at: None,
        region: None,
        profile_arn: None,
        kicked: None,
        license_expires_at: None,
        credentials: None,
    }
}

#[test]
fn resolve_prefers_nested_credentials_over_data_over_top_level() {
    let mut resp = empty_response();
    resp.access_token = Some("top".to_string());
    let mut data = empty_data();
    data.access_token = Some("data".to_string());
    data.credentials = Some(CloudPassCredentials {
        access_token: Some("nested".to_string()),
        refresh_token: Some("rT".to_string()),
        client_id: None,
        client_secret: None,
        expires_at: None,
        region: None,
        profile_arn: None,
    });
    resp.data = Some(data);
    let r = resp.resolve();
    assert_eq!(r.access_token.as_deref(), Some("nested"));
    assert_eq!(r.refresh_token.as_deref(), Some("rT"));
    assert!(!r.kicked);
}

#[test]
fn resolve_reads_each_field_from_the_first_source_that_has_it() {
    // the top-level credentials object is present but lacks the client id;
    // the credentials object under data carries it, and wins over data and
    // the top level
    let mut resp = empty_response();
    resp.client_id = Some("top".to_string());
    resp.credentials = Some(CloudPassCredentials {
        access_token: Some("top-cred-at".to_string()),
        refresh_token: None,
        client_id: None,
        client_secret: None,
        expires_at: None,
        region: None,
        profile_arn: None,
    });
    let mut data = empty_data();
    data.client_id = Some("data".to_string());
    data.credentials = Some(CloudPassCredentials {
        access_token: Some("data-cred-at".to_string()),
        refresh_token: None,
        client_id: Some("data-cred".to_string()),
        client_secret: None,
        expires_at: None,
        region: None,
        profile_arn: None,
    });
    resp.data = Some(data);
    let r = resp.resolve();
    assert_eq!(r.access_token.as_deref(), Some("top-cred-at"));
    assert_eq!(r.client_id.as_deref(), Some("data-cred"));
}

#[test]
fn resolve_falls_back_through_the_levels() {
    let mut resp = empty_response();
    resp.refresh_token = Some("top-rt".to_string());
    resp.kicked = Some(true);
    let mut data = empty_data();
    data.region = Some("eu-west-1".to_string());
    resp.data = Some(data);
    let r = resp.resolve();
    assert_eq!(r.refresh_token.as_deref(), Some("top-rt"));
    assert_eq!(r.region.as_deref(), Some("eu-west-1"));
    assert!(r.kicked);
}

#[test]
fn data_kicked_wins_over_top_level() {
    let mut resp = empty_response();
    resp.kicked = Some(true);
    let mut data = empty_data();
    data.kicked = Some(false);
    resp.data = Some(data);
    assert!(!resp.resolve().kicked);
}

#[test]
fn worker_kicked_reassign_cycle_injects_on_second_fetch() {
    // first fetch: kicked, reassign configured: claim then refetch
    assert_eq!(decide_after_fetch(true, true, false), FetchDecision::ClaimAndRefetch);
    // kicked without reassign fails the cycle
    assert_eq!(decide_after_fetch(true, false, false), FetchDecision::FailKicked);
    // kicked again after the retry fails the cycle
    assert_eq!(decide_after_fetch(true, true, true), FetchDecision::FailKicked);
    // second fetch not kicked: inject
    assert_eq!(decide_after_fetch(false, true, true), FetchDecision::Inject);

    let resolved = ResolvedCredentials {
        access_token: Some("at".to_string()),
        refresh_token: Some("rZ".to_string()),
        client_id: None,
        client_secret: None,
        expires_at: None,
        region: Some("us-east-1".to_string()),
        profile_arn: None,
        kicked: false,
        license_expires_at: Some("2025-01-01T00:00:00Z".to_string()),
    };
    let cred = build_injected_credential(resolved, None, "device-1").unwrap();
    assert_eq!(cred.auth_method, "idc");
    assert_eq!(cred.machine_id.as_deref(), Some("device-1"));
    assert_eq!(cred.priority, 0);

    let mut pool = MultiTokenManager::new(LoadBalancingMode::Priority, 3);
    let outcome = classify_injection(pool.add_credential(cred.clone()));
    let id = match outcome {
        InjectionOutcome::Injected { id } => id,
        _ => panic!("expected an injection"),
    };
    let mut state = CloudPassStatusInner::from_config(
        "https://pass.example",
        "device-1",
        "LICENSE-123456",
        900,
        true,
        "1.1.2",
    );
    state.record_success_at(
        Some(id),
        Some("2025-01-01T00:00:00Z".to_string()),
        false,
        "2024-01-01T00:00:00Z".to_string(),
    );
    assert!(state.connected);
    assert!(state.last_refresh_ok);
    assert_eq!(state.refresh_success_count, 1);
    assert_eq!(state.injected_credential_id, Some(id));
    assert_eq!(state.license_expires_at.as_deref(), Some("2025-01-01T00:00:00Z"));
}

#[test]
fn duplicate_injection_counts_as_unchanged() {
    let mut pool = MultiTokenManager::new(LoadBalancingMode::Priority, 3);
    let resolved = ResolvedCredentials {
        access_token: None,
        refresh_token: Some("rZ".to_string()),
        client_id: None,
        client_secret: None,
        expires_at: None,
        region: None,
        profile_arn: None,
        kicked: false,
        license_expires_at: None,
    };
    let cred = build_injected_credential(resolved, Some("fixed-m".to_string()), "dev").unwrap();
    assert_eq!(cred.machine_id.as_deref(), Some("fixed-m"));
    let first = classify_injection(pool.add_credential(cred.clone()));
    assert!(matches!(first, InjectionOutcome::Injected { .. }));
    let second = classify_injection(pool.add_credential(cred));
    assert_eq!(second, InjectionOutcome::UnchangedDuplicate);
}

#[test]
fn missing_refresh_token_cannot_be_injected() {
    let resolved = ResolvedCredentials {
        access_token: Some("at".to_string()),
        refresh_token: None,
        client_id: None,
        client_secret: None,
        expires_at: None,
        region: None,
        profile_arn: None,
        kicked: false,
        license_expires_at: None,
    };
    assert!(build_injected_credential(resolved, None, "dev").is_err());
}

#[test]
fn state_masks_the_license_code_and_counts_failures() {
    let state = CloudPassStatusInner::from_config(
        "https://pass.example",
        "device-1",
        "SECRETCODE",
        900,
        false,
        "1.1.2",
    );
    assert_eq!(state.license_code_masked, "SECRET***");
    let short = CloudPassStatusInner::from_config("u", "d", "AB", 1, false, "v");
    assert_eq!(short.license_code_masked, "AB***");

    let mut state = state;
    state.record_failure_at("boom".to_string(), "2024-01-01T00:00:00Z".to_string());
    assert!(!state.last_refresh_ok);
    assert_eq!(state.last_refresh_error.as_deref(), Some("boom"));
    assert_eq!(state.refresh_failure_count, 1);
    state.record_kicked();
    assert!(state.kicked);

    let off = CloudPassStatusInner::disabled();
    assert!(!off.enabled);
    assert_eq!(off.refresh_interval, 0);
}

#[test]
fn injection_failure_propagates_its_reason() {
    let outcome = classify_injection(Err(PoolError::EmptyRefreshToken));
    assert_eq!(outcome, InjectionOutcome::Failed { error: PoolError::EmptyRefreshToken });
}
