use sha2::{Digest, Sha256};
use vico_vee::provenance::{build_provenance, build_provenance_at, verify_provenance};

#[test]
fn test_provenance_hash_chain() {
    let prov = build_provenance(
        "art-001",
        "exec-001",
        "task-001",
        "agent-A",
        vec!["art-parent".into()],
        "gpt-4",
        "print('hello')",
        vec!["filesystem_read".into()],
        "genesis",
    )
    .unwrap();
    assert!(!prov.self_hash.is_empty());
    assert!(verify_provenance(&prov));
}

#[test]
fn test_provenance_tamper_detection() {
    let mut prov = build_provenance(
        "art-001",
        "exec-001",
        "task-001",
        "agent-A",
        vec![],
        "gpt-4",
        "print('hello')",
        vec![],
        "genesis",
    )
    .unwrap();
    assert!(verify_provenance(&prov));
    prov.executed_code = "print('tampered')".into();
    assert!(!verify_provenance(&prov));
}

#[test]
fn provenance_hash_is_sha256_of_fields() {
    let prov = build_provenance_at(
        "a",
        "e",
        "t",
        "c",
        vec!["p1".into(), "p2".into()],
        "g",
        "code",
        vec!["x".into()],
        "prev",
        "2024-01-01T00:00:00+00:00".into(),
    );
    let input = "a:e:t:c:p1,p2:g:code:x:prev:2024-01-01T00:00:00+00:00";
    let expected = format!("{:x}", Sha256::digest(input.as_bytes()));
    assert_eq!(prov.self_hash, expected);
    assert_eq!(prov.created_at, "2024-01-01T00:00:00+00:00");
    assert!(prov.project_id.is_none());
    let next = build_provenance_at("b", "e", "t", "c", vec![], "g", "", vec![], &prov.self_hash, "later".into());
    assert_eq!(next.previous_hash, prov.self_hash);
    assert!(verify_provenance(&next));
}
