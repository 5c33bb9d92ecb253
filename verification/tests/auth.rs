use std::collections::HashMap;
use vico_vee::auth::{required_scope_for_path, ApiKey, AuthError, AuthKeys};

fn test_keys() -> AuthKeys {
    let mut keys = HashMap::new();
    keys.insert(
        "submit-only".to_string(),
        ApiKey { token: "submit-token".to_string(), scopes: vec!["submit".to_string()] },
    );
    keys.insert(
        "read-only".to_string(),
        ApiKey { token: "read-token".to_string(), scopes: vec!["read".to_string()] },
    );
    keys.insert(
        "admin-key".to_string(),
        ApiKey { token: "admin-token".to_string(), scopes: vec!["admin".to_string()] },
    );
    AuthKeys::from_map(keys, true)
}

#[test]
fn auth_accepts_valid_scope() {
    let keys = test_keys();
    assert!(keys.check("Bearer submit-token", "submit").is_ok());
    assert!(keys.check("Bearer read-token", "read").is_ok());
    assert!(keys.check("Bearer admin-token", "submit").is_ok());
}

#[test]
fn auth_rejects_missing_scope() {
    let keys = test_keys();
    assert_eq!(keys.check("Bearer read-token", "submit"), Err(AuthError::Forbidden));
}

#[test]
fn auth_rejects_invalid_token() {
    let keys = test_keys();
    assert_eq!(keys.check("Bearer bad-token", "read"), Err(AuthError::Invalid));
}

#[test]
fn auth_rejects_missing_header_when_required() {
    let keys = test_keys();
    assert_eq!(keys.check("", "read"), Err(AuthError::Invalid));
}

#[test]
fn public_routes_have_no_scope() {
    assert!(required_scope_for_path("/health").is_none());
    assert!(required_scope_for_path("/openapi.json").is_none());
    assert!(required_scope_for_path("/docs").is_none());
}

#[test]
fn scoped_routes_require_scope() {
    assert_eq!(required_scope_for_path("/vee/submit"), Some("submit"));
    assert_eq!(required_scope_for_path("/vee/dashboard"), Some("read"));
    assert_eq!(required_scope_for_path("/vee/odin/model"), Some("admin"));
}

#[test]
fn admin_scope_passes_every_scope() {
    let keys = test_keys();
    for scope in ["submit", "read", "admin", "anything"] {
        assert!(keys.check("Bearer admin-token", scope).is_ok());
    }
}

#[test]
fn auth_without_keys_accepts_anything() {
    let keys = AuthKeys::from_map(HashMap::new(), false);
    assert!(!keys.require_auth);
    assert!(keys.check("", "submit").is_ok());
}

#[test]
fn auth_required_without_keys_refuses_everything() {
    let keys = AuthKeys::from_map(HashMap::new(), true);
    assert!(keys.require_auth);
    assert_eq!(keys.check("", "read"), Err(AuthError::Invalid));
    assert_eq!(keys.check("Bearer anything", "submit"), Err(AuthError::Invalid));
}

#[test]
fn auth_with_keys_checks_even_when_not_required() {
    let mut map = HashMap::new();
    map.insert("k".to_string(), ApiKey { token: "t".to_string(), scopes: vec!["READ".to_string()] });
    let keys = AuthKeys::from_map(map, false);
    assert!(!keys.require_auth);
    assert_eq!(keys.check("Bearer nope", "read"), Err(AuthError::Invalid));
    assert!(keys.check("Bearer t", "read").is_ok());
    assert_eq!(keys.check("Bearer t", "submit"), Err(AuthError::Forbidden));
}

#[test]
fn auth_token_prefix_forms() {
    let keys = test_keys();
    assert!(keys.check("submit-token", "submit").is_ok());
    assert!(keys.check("bearer submit-token", "submit").is_ok());
    assert!(keys.check("Bearer   submit-token  ", "submit").is_ok());
}

#[test]
fn unknown_routes_require_read() {
    assert_eq!(required_scope_for_path("/ready"), None);
    assert_eq!(required_scope_for_path("/metrics"), None);
    assert_eq!(required_scope_for_path("/vee/cancel"), Some("submit"));
    assert_eq!(required_scope_for_path("/somewhere"), Some("read"));
}

#[test]
fn documented_route_scopes() {
    assert_eq!(required_scope_for_path("/vee/odin/health"), Some("read"));
    assert_eq!(required_scope_for_path("/vee/odin/model"), Some("admin"));
    assert_eq!(required_scope_for_path("/admin/backup"), Some("admin"));
    assert_eq!(required_scope_for_path("/admin/restore"), Some("admin"));
    assert_eq!(required_scope_for_path("/vee/status"), Some("read"));
    assert_eq!(required_scope_for_path("/ready"), None);
    assert_eq!(required_scope_for_path("/metrics"), None);
}
