use vico_vee::capability::CapabilityRegistry;
use vico_vee::server::{
    is_rate_limited_path, new_execution_id, parse_language, pick_client_ip, rate_limit_keys, status_filter,
    execution_id_with, osmosis_task, submission_task,
};
use vico_vee::types::api::VeeBudgetRequest;
use vico_vee::types::capability::Capability;
use vico_vee::types::result::ExecutionStatus;
use vico_vee::types::task::ExecutionLanguage;

#[test]
fn client_ip_uses_x_forwarded_for_from_trusted_proxy() {
    let forwarded = vec![Some(("203.0.113.5".to_string(), false)), Some(("127.0.0.1".to_string(), true))];
    assert_eq!(pick_client_ip(Some(("127.0.0.1".to_string(), true)), Some(forwarded)), "203.0.113.5");
}

#[test]
fn client_ip_ignores_x_forwarded_for_from_untrusted_peer() {
    let forwarded = vec![Some(("203.0.113.5".to_string(), false))];
    assert_eq!(pick_client_ip(Some(("198.51.100.1".to_string(), false)), Some(forwarded)), "198.51.100.1");
}

#[test]
fn client_ip_fallbacks() {
    assert_eq!(pick_client_ip(None, None), "127.0.0.1");
    let forwarded = vec![None, Some(("10.0.0.1".to_string(), true))];
    assert_eq!(pick_client_ip(Some(("10.0.0.2".to_string(), true)), Some(forwarded)), "10.0.0.2");
}

#[test]
fn rate_limited_routes_and_keys() {
    assert!(is_rate_limited_path("/vee/submit"));
    assert!(is_rate_limited_path("/vee/reject"));
    assert!(!is_rate_limited_path("/vee/status"));
    assert_eq!(rate_limit_keys(None, None, None), ("unknown".to_string(), "default".to_string()));
    assert_eq!(rate_limit_keys(Some("h"), Some("a"), Some("b")), ("a".to_string(), "h".to_string()));
    assert_eq!(rate_limit_keys(None, Some("a"), Some("b")), ("a".to_string(), "b".to_string()));
}

#[test]
fn submission_languages_and_filters() {
    assert_eq!(parse_language("bound"), ExecutionLanguage::ContextBundle);
    assert_eq!(parse_language("wasm"), ExecutionLanguage::Wasm);
    assert_eq!(parse_language("cobol"), ExecutionLanguage::Python);
    assert_eq!(status_filter("cancelled"), Some(ExecutionStatus::Cancelled));
    assert_eq!(status_filter("recovered"), None);
}

#[test]
fn submissions_grant_their_capabilities() {
    let id = new_execution_id().unwrap();
    assert!(id.starts_with("vee-"));
    assert_eq!(id.len(), 40);
    let mut registry = CapabilityRegistry::new_with_seed([8u8; 32]);
    let task = submission_task(
        &mut registry,
        "vee-1".into(),
        None,
        "agent".into(),
        "go",
        "print(1)".into(),
        vec!["network_dns".into(), "bogus".into(), "filesystem_read:/a".into()],
        Some(VeeBudgetRequest {
            cpu_seconds: None,
            memory_mb: Some(1),
            disk_mb: None,
            token_budget: None,
            wall_clock_seconds: None,
        }),
        None,
        "2024-01-01T00:00:00Z".into(),
    )
    .unwrap();
    assert_eq!(task.language, ExecutionLanguage::Go);
    assert_eq!(task.capabilities, vec![Capability::NetworkDns, Capability::FilesystemRead { paths: vec!["/a".into()] }]);
    assert_eq!(task.capability_grants.len(), 2);
    assert_eq!(task.budget.memory_mb, 1);
    assert_eq!(task.budget.cpu_seconds, 30);
    assert_eq!(task.provenance.artifact_id, "prov-vee-1");
    assert_eq!(task.provenance.previous_hash, "genesis");
    assert_eq!(task.provenance.granted_capabilities.len(), 3);
    assert!(registry.verify("vee-1", "network_dns"));
    assert!(registry.verify("vee-1", "filesystem_read"));
    assert_eq!(registry.get_grants("vee-1").len(), 2);
    let plain = submission_task(&mut registry, "vee-2".into(), None, "a".into(), "python", "".into(), vec![], None, None, "t".into()).unwrap();
    assert_eq!(plain.budget.cpu_seconds, 0);
}

#[test]
fn osmosis_task_grants_its_capabilities() {
    let mut registry = CapabilityRegistry::new_with_seed([3u8; 32]);
    let caps = vec![
        Capability::FilesystemRead { paths: vec!["*".into()] },
        Capability::FilesystemWrite { paths: vec!["*".into()] },
    ];
    let task = osmosis_task(&mut registry, "vee-o".into(), "osmosis", "{\"op\":\"diff\"}".into(), caps, "2024-01-01T00:00:00+00:00".into()).unwrap();
    assert_eq!(task.language, ExecutionLanguage::Osmosis);
    assert_eq!(task.source_code, "{\"op\":\"diff\"}");
    assert_eq!(task.budget.cpu_seconds, 10);
    assert_eq!(task.budget.memory_mb, 128);
    assert_eq!(task.budget.wall_clock_seconds, 30);
    assert_eq!(task.capability_grants.len(), 2);
    assert_eq!(task.provenance.artifact_id, "prov-vee-o");
    assert_eq!(task.provenance.granted_capabilities, vec!["filesystem_read".to_string(), "filesystem_write".to_string()]);
    assert_eq!(task.provenance.previous_hash, "genesis");
    assert!(registry.verify("vee-o", "filesystem_write"));
    assert!(!registry.verify("vee-o", "network_access"));
}

#[test]
fn execution_ids_are_vee_and_a_v4_uuid() {
    assert_eq!(execution_id_with("abc"), "vee-abc");
    let id = new_execution_id().unwrap();
    let u: Vec<char> = id[4..].chars().collect();
    assert_eq!(u.len(), 36);
    assert_eq!(u[14], '4');
    assert!(matches!(u[19], '8' | '9' | 'a' | 'b'));
    for (i, c) in u.iter().enumerate() {
        if [8, 13, 18, 23].contains(&i) {
            assert_eq!(*c, '-');
        } else {
            assert!(c.is_ascii_hexdigit() && !c.is_ascii_uppercase());
        }
    }
}

#[test]
fn submissions_keep_their_run_and_grant_as_orchestrator() {
    let mut registry = CapabilityRegistry::new_with_seed([5u8; 32]);
    let task = submission_task(
        &mut registry,
        "vee-r".into(),
        Some("run-7".into()),
        "agent".into(),
        "python",
        "x = 1".into(),
        vec!["bogus".into()],
        None,
        None,
        "t".into(),
    )
    .unwrap();
    assert_eq!(task.run_id.as_deref(), Some("run-7"));
    assert!(task.capability_grants.is_empty());
    let task = submission_task(
        &mut registry,
        "vee-s".into(),
        None,
        "agent".into(),
        "python",
        "".into(),
        vec!["process_spawn".into()],
        None,
        None,
        "t".into(),
    )
    .unwrap();
    assert_eq!(task.capability_grants.len(), 1);
    assert!(task.capability_grants[0].reason.is_none());
    assert!(matches!(task.capability_grants[0].granted_by, vico_vee::types::capability::GrantAuthority::Orchestrator));
}
