use vico_vee::tenant::{project_from_header, validate_project_id, ProjectContext, DEFAULT_PROJECT, MAX_PROJECT_ID_LEN};

#[test]
fn default_project_is_default() {
    assert_eq!(ProjectContext::default().project_id, "default");
}

#[test]
fn validate_accepts_simple_names() {
    assert_eq!(validate_project_id("acme").unwrap(), "acme");
    assert_eq!(validate_project_id("acme-corp-01").unwrap(), "acme-corp-01");
    assert_eq!(validate_project_id("acme.corp_01").unwrap(), "acme.corp_01");
}

#[test]
fn validate_rejects_empty() {
    assert!(validate_project_id("").is_err());
    assert!(validate_project_id("   ").is_err());
}

#[test]
fn validate_rejects_too_long() {
    let long = "a".repeat(MAX_PROJECT_ID_LEN + 1);
    assert!(validate_project_id(&long).is_err());
}

#[test]
fn validate_rejects_special_characters() {
    assert!(validate_project_id("acme/corp").is_err());
    assert!(validate_project_id("acme corp").is_err());
    assert!(validate_project_id("acme@corp").is_err());
}

#[test]
fn validate_is_idempotent_and_trims() {
    let once = validate_project_id("  acme  ").unwrap();
    assert_eq!(once, "acme");
    assert_eq!(validate_project_id(&once).unwrap(), once);
    let max = "b".repeat(MAX_PROJECT_ID_LEN);
    assert_eq!(validate_project_id(&max).unwrap(), max);
}

#[test]
fn header_project_defaults() {
    assert_eq!(project_from_header(None).unwrap().project_id, DEFAULT_PROJECT);
    assert_eq!(project_from_header(Some("team-a")).unwrap().project_id, "team-a");
    assert!(project_from_header(Some("bad/id")).is_err());
}
