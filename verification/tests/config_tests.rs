//! Configuration defaults, region fallbacks, the single-flight gate and
//! the device-id generator.

use kiro_rs::config::{Config, TlsBackend};
use kiro_rs::gate::RefreshGates;
use kiro_rs::rng::generate_device_id;

#[test]
fn defaults_match_the_documented_values() {
    let cfg = Config::default();
    assert_eq!(cfg.host, "127.0.0.1");
    assert_eq!(cfg.port, 8080);
    assert_eq!(cfg.region, "us-east-1");
    assert_eq!(cfg.kiro_version, "0.10.0");
    assert_eq!(cfg.node_version, "22.21.1");
    assert_eq!(cfg.tls_backend, TlsBackend::Rustls);
    assert_eq!(cfg.count_tokens_auth_type, "x-api-key");
    assert_eq!(cfg.load_balancing_mode, "priority");
    assert!(cfg.system_version == "darwin#24.6.0" || cfg.system_version == "win32#10.0.22631");
    assert!(cfg.cloud_pass.is_none());
    assert_eq!(Config::default_config_path(), "config.json");
}

#[test]
fn effective_regions_fall_back_to_the_global_region() {
    let mut cfg = Config::default();
    assert_eq!(cfg.effective_auth_region(), "us-east-1");
    assert_eq!(cfg.effective_api_region(), "us-east-1");
    cfg.auth_region = Some("eu-west-1".to_string());
    cfg.api_region = Some("ap-south-1".to_string());
    assert_eq!(cfg.effective_auth_region(), "eu-west-1");
    assert_eq!(cfg.effective_api_region(), "ap-south-1");
}

#[test]
fn refresh_gate_is_single_flight_per_id() {
    let mut gates = RefreshGates::new();
    // the first caller for an id wins the slot; later callers get false
    assert!(gates.acquire(7));
    assert!(!gates.acquire(7));
    // another id is unaffected
    assert!(gates.acquire(8));
    assert!(gates.holds(7));
    gates.release(7);
    assert!(!gates.holds(7));
    assert!(gates.acquire(7));
    assert!(gates.holds(8));
}

#[test]
fn generated_device_ids_are_32_hex_chars() {
    let id = generate_device_id();
    assert_eq!(id.len(), 32);
    assert!(id.chars().all(|c| c.is_ascii_hexdigit() && !c.is_ascii_uppercase()));
}
