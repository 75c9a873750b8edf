use vibe_cockpit::auth::{
    authenticate, authorize, bearer_token, default_true, ApiToken, AuthConfig, AuthResult, Role,
};

fn test_config() -> AuthConfig {
    AuthConfig {
        enabled: true,
        tokens: vec![
            ApiToken {
                name: "read-token".to_string(),
                token: "tok-read-123".to_string(),
                role: Role::Read,
                allowed_ips: vec![],
                enabled: true,
            },
            ApiToken {
                name: "operator-token".to_string(),
                token: "tok-op-456".to_string(),
                role: Role::Operator,
                allowed_ips: vec![],
                enabled: true,
            },
            ApiToken {
                name: "admin-token".to_string(),
                token: "tok-admin-789".to_string(),
                role: Role::Admin,
                allowed_ips: vec![],
                enabled: true,
            },
            ApiToken {
                name: "restricted-token".to_string(),
                token: "tok-restricted".to_string(),
                role: Role::Read,
                allowed_ips: vec!["10.0.0.1".to_string()],
                enabled: true,
            },
            ApiToken {
                name: "disabled-token".to_string(),
                token: "tok-disabled".to_string(),
                role: Role::Admin,
                allowed_ips: vec![],
                enabled: false,
            },
        ],
        local_bypass: true,
    }
}

#[test]
fn test_role_ordering() {
    assert!(Role::Admin > Role::Operator);
    assert!(Role::Operator > Role::Read);
}

#[test]
fn test_role_permissions() {
    assert!(Role::Admin.has_permission(Role::Read));
    assert!(Role::Admin.has_permission(Role::Operator));
    assert!(Role::Admin.has_permission(Role::Admin));
    assert!(Role::Operator.has_permission(Role::Read));
    assert!(Role::Operator.has_permission(Role::Operator));
    assert!(!Role::Operator.has_permission(Role::Admin));
    assert!(Role::Read.has_permission(Role::Read));
    assert!(!Role::Read.has_permission(Role::Operator));
    assert!(!Role::Read.has_permission(Role::Admin));
}

#[test]
fn test_role_parse() {
    assert_eq!(Role::parse("read"), Some(Role::Read));
    assert_eq!(Role::parse("operator"), Some(Role::Operator));
    assert_eq!(Role::parse("admin"), Some(Role::Admin));
    assert_eq!(Role::parse("Admin"), Some(Role::Admin));
    assert_eq!(Role::parse("unknown"), None);
}

#[test]
fn role_from_lowercase_is_case_sensitive() {
    assert_eq!(Role::from_lowercase("admin"), Some(Role::Admin));
    assert_eq!(Role::from_lowercase("Admin"), None);
}

#[test]
fn test_role_as_str() {
    assert_eq!(Role::Read.as_str(), "read");
    assert_eq!(Role::Operator.as_str(), "operator");
    assert_eq!(Role::Admin.as_str(), "admin");
}

#[test]
fn test_validate_valid_token() {
    let config = test_config();
    let token = config.validate_token("tok-read-123");
    assert!(token.is_some());
    assert_eq!(token.unwrap().name, "read-token");
}

#[test]
fn test_validate_invalid_token() {
    let config = test_config();
    assert!(config.validate_token("invalid").is_none());
}

#[test]
fn test_validate_disabled_token() {
    let config = test_config();
    assert!(config.validate_token("tok-disabled").is_none());
}

#[test]
fn test_local_bypass_127() {
    let config = test_config();
    assert!(config.is_local_bypass("127.0.0.1"));
}

#[test]
fn test_local_bypass_ipv6() {
    let config = test_config();
    assert!(config.is_local_bypass("::1"));
}

#[test]
fn test_local_bypass_disabled() {
    let mut config = test_config();
    config.local_bypass = false;
    assert!(!config.is_local_bypass("127.0.0.1"));
}

#[test]
fn test_remote_ip_no_bypass() {
    let config = test_config();
    assert!(!config.is_local_bypass("10.0.0.1"));
}

#[test]
fn test_ip_allowlist_empty_allows_all() {
    let config = test_config();
    let token = config.validate_token("tok-read-123").unwrap();
    assert!(config.check_ip_allowlist(token, "10.0.0.5"));
}

#[test]
fn test_ip_allowlist_match() {
    let config = test_config();
    let token = config.validate_token("tok-restricted").unwrap();
    assert!(config.check_ip_allowlist(token, "10.0.0.1"));
}

#[test]
fn test_ip_allowlist_no_match() {
    let config = test_config();
    let token = config.validate_token("tok-restricted").unwrap();
    assert!(!config.check_ip_allowlist(token, "10.0.0.99"));
}

#[test]
fn test_extract_bearer_token() {
    assert_eq!(bearer_token("Bearer my-token"), Some("my-token".to_string()));
}

#[test]
fn test_extract_bearer_wrong_scheme() {
    assert!(bearer_token("Basic abc123").is_none());
}

#[test]
fn test_auth_disabled() {
    let mut config = test_config();
    config.enabled = false;
    let result = authenticate(&config, None, "10.0.0.1");
    assert!(result.authenticated);
    assert_eq!(result.reason, "local_bypass");
}

#[test]
fn test_auth_local_bypass() {
    let config = test_config();
    let result = authenticate(&config, None, "127.0.0.1");
    assert!(result.authenticated);
    assert_eq!(result.reason, "local_bypass");
}

#[test]
fn test_auth_missing_token() {
    let config = test_config();
    let result = authenticate(&config, None, "10.0.0.1");
    assert!(!result.authenticated);
    assert_eq!(result.reason, "missing_token");
}

#[test]
fn test_auth_invalid_token() {
    let config = test_config();
    let result = authenticate(&config, Some("Bearer bad-token"), "10.0.0.1");
    assert!(!result.authenticated);
    assert_eq!(result.reason, "invalid_token");
}

#[test]
fn test_auth_valid_token() {
    let config = test_config();
    let result = authenticate(&config, Some("Bearer tok-admin-789"), "10.0.0.1");
    assert!(result.authenticated);
    assert_eq!(result.token_name, Some("admin-token".to_string()));
    assert_eq!(result.role, Some(Role::Admin));
}

#[test]
fn test_auth_ip_restricted() {
    let config = test_config();
    let result = authenticate(&config, Some("Bearer tok-restricted"), "10.0.0.99");
    assert!(!result.authenticated);
    assert_eq!(result.reason, "ip_not_allowed");
}

#[test]
fn test_auth_ip_restricted_allowed() {
    let config = test_config();
    let result = authenticate(&config, Some("Bearer tok-restricted"), "10.0.0.1");
    assert!(result.authenticated);
}

#[test]
fn auth_wrong_scheme_counts_as_missing_token() {
    let config = test_config();
    let result = authenticate(&config, Some("Basic abc123"), "10.0.0.1");
    assert!(!result.authenticated);
    assert_eq!(result.reason, "missing_token");
}

#[test]
fn test_authorize_read_for_read() {
    let result = AuthResult::allowed("test", Role::Read);
    assert!(authorize(&result, Role::Read));
}

#[test]
fn test_authorize_read_denied_operator() {
    let result = AuthResult::allowed("test", Role::Read);
    assert!(!authorize(&result, Role::Operator));
}

#[test]
fn test_authorize_admin_for_all() {
    let result = AuthResult::allowed("test", Role::Admin);
    assert!(authorize(&result, Role::Read));
    assert!(authorize(&result, Role::Operator));
    assert!(authorize(&result, Role::Admin));
}

#[test]
fn test_authorize_denied_not_authenticated() {
    let result = AuthResult::denied("test");
    assert!(!authorize(&result, Role::Read));
}

#[test]
fn test_auth_config_default() {
    let config = AuthConfig::default();
    assert!(!config.enabled);
    assert!(config.tokens.is_empty());
    assert!(config.local_bypass);
    assert!(default_true());
}
