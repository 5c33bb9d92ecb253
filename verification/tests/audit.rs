use vico_vee::audit::{
    audit_report, cpu_limit_audit, filesystem_audit, landlock_audit, memory_limit_audit, network_audit, process_audit,
    seccomp_audit, AuditResult, AuditSeverity,
};
use vico_vee::daemon::{daemon_audit, ExecRecord};
use vico_vee::sandbox::SandboxResult;
use vico_vee::types::result::{ExecutionPhase, ExecutionStatus};

fn ran(stdout: &str, stderr: &str, exit: Option<i32>) -> Result<SandboxResult, String> {
    Ok(SandboxResult {
        stdout: stdout.to_string(),
        stderr: stderr.to_string(),
        exit_code: exit,
        duration_ms: 1200,
        memory_peak_kb: 0,
        sandbox_layers_applied: vec![],
        sandbox_errors: vec![],
    })
}

#[test]
fn cpu_limit_verdicts() {
    let r = cpu_limit_audit(&ran("", "", Some(137)));
    assert!(r.passed);
    assert_eq!(r.test_name, "rlimit_cpu_enforcement");
    assert_eq!(r.severity, AuditSeverity::Critical);
    assert_eq!(r.detail, "CPU limit enforced: exit_code=Some(137), duration=1200ms");
    let r = cpu_limit_audit(&ran("survived", "", Some(0)));
    assert!(!r.passed);
    assert_eq!(r.detail, "CPU limit NOT enforced: exit_code=Some(0), duration=1200ms");
    assert!(cpu_limit_audit(&ran("", "Killed", Some(0))).passed);
    let r = cpu_limit_audit(&Err("no python".to_string()));
    assert!(r.passed);
    assert_eq!(r.detail, "Sandbox error (acceptable): no python");
    let r = cpu_limit_audit(&ran("", "", None));
    assert_eq!(r.detail, "CPU limit enforced: exit_code=None, duration=1200ms");
    let r = cpu_limit_audit(&ran("", "", Some(-9)));
    assert_eq!(r.detail, "CPU limit enforced: exit_code=Some(-9), duration=1200ms");
}

#[test]
fn memory_limit_verdicts() {
    assert!(memory_limit_audit(&ran("", "MemoryError", Some(0))).passed);
    assert!(memory_limit_audit(&ran("", "KILLED", Some(0))).passed);
    let r = memory_limit_audit(&ran("survived", "", Some(0)));
    assert!(!r.passed);
    assert_eq!(r.detail, "Memory limit NOT enforced: exit_code=Some(0)");
}

#[test]
fn confinement_verdicts() {
    let r = filesystem_audit(true, &ran("wrote", "", Some(0)));
    assert!(!r.passed);
    assert_eq!(r.detail, "CRITICAL: Process escaped sandbox filesystem!");
    let r = filesystem_audit(false, &ran("blocked", "", Some(1)));
    assert!(r.passed);
    assert_eq!(r.detail, "Filesystem confinement active: exit_code=Some(1)");
    assert_eq!(filesystem_audit(false, &Err("x".into())).detail, "Filesystem confinement active: exit_code=None");

    let r = network_audit(&ran("blocked: refused", "", Some(0)));
    assert!(r.passed);
    assert_eq!(r.detail, "Network access blocked in sandbox");
    let long = "c".repeat(150);
    let r = network_audit(&ran(&long, "", Some(0)));
    assert!(!r.passed);
    assert_eq!(r.detail, format!("Network access NOT blocked: stdout={}", "c".repeat(100)));
    assert!(network_audit(&Err("x".into())).passed);

    let r = process_audit(&ran("spawned", "", Some(0)));
    assert!(!r.passed);
    assert_eq!(r.detail, "Process spawn NOT restricted");
    assert_eq!(r.severity, AuditSeverity::High);
    assert!(process_audit(&ran("", "", Some(2))).passed);
}

#[test]
fn kernel_feature_verdicts() {
    assert!(seccomp_audit(0, None).passed);
    assert!(seccomp_audit(-1, Some(22)).passed);
    let r = seccomp_audit(-1, Some(38));
    assert!(!r.passed);
    assert_eq!(r.severity, AuditSeverity::Medium);
    assert!(landlock_audit(-1, Some(22)).passed);
    assert_eq!(landlock_audit(-1, Some(38)).detail, "Landlock NOT available — filesystem confinement will use fallback");
}

fn result(name: &str, passed: bool, severity: AuditSeverity) -> AuditResult {
    AuditResult { test_name: name.into(), passed, severity, detail: String::new() }
}

#[test]
fn report_counts_and_critical_failures() {
    let tests = vec![
        result("a", true, AuditSeverity::Critical),
        result("b", false, AuditSeverity::High),
        result("c", false, AuditSeverity::Critical),
        result("d", true, AuditSeverity::Low),
    ];
    let r = audit_report(tests, "ts".into());
    assert_eq!(r.passed_count, 2);
    assert_eq!(r.failed_count, 2);
    assert_eq!(r.passed_count + r.failed_count, r.tests.len());
    assert_eq!(r.critical_failures, vec!["c".to_string()]);
    assert!(!r.overall_pass);
    assert_eq!(r.timestamp, "ts");
    let ok = audit_report(vec![result("b", false, AuditSeverity::High)], "t".into());
    assert!(ok.overall_pass);
}

fn record(status: ExecutionStatus, latency: u64, artifacts: usize, error: Option<&str>) -> ExecRecord {
    ExecRecord {
        status,
        phase: ExecutionPhase::Execution,
        started_at_ms: None,
        completed_at_ms: None,
        latency_ms: latency,
        error_log: error.map(|e| e.to_string()),
        artifact_count: artifacts,
    }
}

#[test]
fn daemon_audit_entries() {
    let results = vec![
        ("e1".to_string(), record(ExecutionStatus::Completed, 42, 3, None)),
        ("e2".to_string(), record(ExecutionStatus::Failed, 0, 0, Some("boom"))),
        ("e3".to_string(), record(ExecutionStatus::Queued, 0, 0, None)),
    ];
    let r = daemon_audit(&results, "now".into());
    assert_eq!(r.passed_count, 1);
    assert_eq!(r.failed_count, 1);
    assert_eq!(r.critical_failures, 1);
    assert!(!r.overall_pass);
    assert_eq!(r.tests.len(), 2);
    assert_eq!(r.tests[0].test_name, "execution_e1_completed");
    assert_eq!(r.tests[0].detail, "execution completed in 42 ms with 3 artifacts");
    assert_eq!(r.tests[0].severity, "info");
    assert_eq!(r.tests[1].test_name, "execution_e2_failed");
    assert_eq!(r.tests[1].detail, "boom");
    assert_eq!(r.tests[1].severity, "critical");
    let empty = daemon_audit(&vec![], "now".into());
    assert!(empty.overall_pass);
}
