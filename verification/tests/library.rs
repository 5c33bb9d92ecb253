use vico_vee::audit::AuditSeverity;
use vico_vee::diff::diff_text;
use vico_vee::types::api::VeeBudgetRequest;
use vico_vee::types::budget::ExecutionBudget;
use vico_vee::types::capability::Capability;
use vico_vee::types::result::{parse_phase, parse_status, ExecutionPhase, ExecutionStatus};
use vico_vee::types::task::ExecutionLanguage;

#[test]
fn test_capability_names() {
    let cap = Capability::FilesystemRead { paths: vec!["/tmp".into()] };
    assert_eq!(cap.name(), "filesystem_read");

    let cap = Capability::NetworkAccess { hosts: vec![], ports: vec![] };
    assert_eq!(cap.name(), "network_access");

    let cap = Capability::GpuCompute { device: None };
    assert_eq!(cap.name(), "gpu_compute");
}

#[test]
fn test_execution_budget_default() {
    let budget = ExecutionBudget::default();
    assert_eq!(budget.cpu_seconds, 0);
    assert_eq!(budget.memory_mb, 0);
}

#[test]
fn test_vee_budget_request_conversion() {
    let req = VeeBudgetRequest {
        cpu_seconds: Some(60),
        memory_mb: Some(1024),
        disk_mb: Some(200),
        token_budget: Some(10000),
        wall_clock_seconds: Some(120),
    };
    let budget: ExecutionBudget = req.into();
    assert_eq!(budget.cpu_seconds, 60);
    assert_eq!(budget.memory_mb, 1024);
    assert_eq!(budget.disk_mb, 200);
    assert_eq!(budget.token_budget, 10000);
    assert_eq!(budget.wall_clock_seconds, 120);
}

#[test]
fn budget_request_defaults_fill_gaps() {
    let req = VeeBudgetRequest {
        cpu_seconds: None,
        memory_mb: Some(64),
        disk_mb: None,
        token_budget: None,
        wall_clock_seconds: None,
    };
    let budget: ExecutionBudget = req.into();
    assert_eq!(budget.cpu_seconds, 30);
    assert_eq!(budget.memory_mb, 64);
    assert_eq!(budget.disk_mb, 100);
    assert_eq!(budget.token_budget, 5000);
    assert_eq!(budget.wall_clock_seconds, 60);
}

#[test]
fn test_execution_status_enum_equality() {
    assert_eq!(ExecutionStatus::Completed, ExecutionStatus::Completed);
    assert_ne!(ExecutionStatus::Pending, ExecutionStatus::Completed);
}

#[test]
fn status_and_phase_labels_round_trip() {
    for s in [
        ExecutionStatus::Pending,
        ExecutionStatus::Queued,
        ExecutionStatus::Simulating,
        ExecutionStatus::Executing,
        ExecutionStatus::Validating,
        ExecutionStatus::Completed,
        ExecutionStatus::Failed,
        ExecutionStatus::Recovered,
        ExecutionStatus::Cancelled,
    ] {
        assert_eq!(parse_status(s.label()), s);
    }
    for p in [
        ExecutionPhase::Hypothesis,
        ExecutionPhase::Simulation,
        ExecutionPhase::Execution,
        ExecutionPhase::Validation,
        ExecutionPhase::Feedback,
    ] {
        assert_eq!(parse_phase(p.label()), p);
    }
}

#[test]
fn test_execution_language_display_for_integrated_tools() {
    assert_eq!(ExecutionLanguage::Go.to_string(), "go");
    assert_eq!(ExecutionLanguage::ContextBundle.to_string(), "context_bundle");
}

#[test]
fn test_audit_severity_enum() {
    let _ = AuditSeverity::Critical;
    let _ = AuditSeverity::High;
    let _ = AuditSeverity::Info;
}

#[test]
fn test_osmosis_large_diff_performance() {
    let base: Vec<String> = (0..500).map(|i| format!("line {}", i)).collect();
    let mut changed = base.clone();
    changed[100] = "modified line".into();
    changed.push("extra line".into());

    let old_text = base.join("\n");
    let new_text = changed.join("\n");

    let start = std::time::Instant::now();
    let diff = diff_text(&old_text, &new_text);
    let elapsed = start.elapsed();

    assert_eq!(diff.files.len(), 1);
    assert!(!diff.files[0].hunks.is_empty());
    assert!(elapsed.as_millis() < 1000, "diff took too long: {:?}", elapsed);
}
