//! The IDE credential-file model.

use kiro_rs::kiro::KiroCredentials;

#[test]
fn test_from_json() {
    let json = r#"{
            "accessToken": "test_token",
            "refreshToken": "test_refresh",
            "profileArn": "arn:aws:test",
            "expiresAt": "2024-01-01T00:00:00Z",
            "authMethod": "social",
            "provider": "Google"
        }"#;

    let creds = KiroCredentials::from_json(json).unwrap();
    assert_eq!(creds.access_token, Some("test_token".to_string()));
    assert_eq!(creds.refresh_token, Some("test_refresh".to_string()));
    assert_eq!(creds.profile_arn, Some("arn:aws:test".to_string()));
    assert_eq!(creds.expires_at, Some("2024-01-01T00:00:00Z".to_string()));
    assert_eq!(creds.auth_method, Some("social".to_string()));
    assert_eq!(creds.provider, Some("Google".to_string()));
}

#[test]
fn test_from_json_with_unknown_keys() {
    let json = r#"{
            "accessToken": "test_token",
            "unknownField": "should be ignored"
        }"#;

    let creds = KiroCredentials::from_json(json).unwrap();
    assert_eq!(creds.access_token, Some("test_token".to_string()));
}

#[test]
fn test_to_json() {
    let creds = KiroCredentials {
        access_token: Some("token".to_string()),
        refresh_token: None,
        profile_arn: None,
        expires_at: None,
        auth_method: Some("social".to_string()),
        provider: None,
    };

    let json = creds.to_pretty_json().unwrap();
    assert!(json.contains("accessToken"));
    assert!(json.contains("authMethod"));
    assert!(!json.contains("refreshToken"));
}

#[test]
fn test_default_credentials_path() {
    assert_eq!(KiroCredentials::default_credentials_path(), "credentials.json");
}

#[test]
fn to_json_then_from_json_is_identity() {
    let creds = KiroCredentials {
        access_token: Some("tok".to_string()),
        refresh_token: Some("r1".to_string()),
        profile_arn: None,
        expires_at: Some("2024-01-01T00:00:00Z".to_string()),
        auth_method: Some("social".to_string()),
        provider: None,
    };
    let json = creds.to_pretty_json().unwrap();
    let back = KiroCredentials::from_json(&json).unwrap();
    assert_eq!(back.access_token, creds.access_token);
    assert_eq!(back.refresh_token, creds.refresh_token);
    assert_eq!(back.profile_arn, creds.profile_arn);
    assert_eq!(back.expires_at, creds.expires_at);
    assert_eq!(back.auth_method, creds.auth_method);
    assert_eq!(back.provider, creds.provider);
}
