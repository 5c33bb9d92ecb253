use vico_vee::capability::CapabilityRegistry;
use vico_vee::daemon::{in_project, 
    admit_task_at, cancel_record, dashboard_stats, execution_id, latency_ms, queued_record, run_step, store_key,
    RunAction, RunEvent, RunStage,
};
use vico_vee::types::capability::{Capability, GrantAuthority};
use vico_vee::types::result::{ExecutionPhase, ExecutionStatus};

#[test]
fn run_completes() {
    let mut rec = queued_record();
    let (stage, action) = run_step(RunStage::Queued, &mut rec, RunEvent::Start { cancelled: false }, 1_000);
    assert_eq!(stage, RunStage::Initializing);
    assert!(matches!(action, RunAction::BuildWorker));
    assert_eq!(rec.status, ExecutionStatus::Executing);
    assert_eq!(rec.started_at_ms, Some(1_000));
    let (stage, action) = run_step(stage, &mut rec, RunEvent::Initialized { result: Ok(()), cancelled: false }, 1_100);
    assert_eq!(stage, RunStage::Executing);
    assert!(matches!(action, RunAction::Execute));
    let (stage, action) = run_step(stage, &mut rec, RunEvent::Finished { result: Ok(4) }, 1_750);
    assert_eq!(stage, RunStage::Done);
    assert!(matches!(action, RunAction::Stop));
    assert_eq!(rec.status, ExecutionStatus::Completed);
    assert_eq!(rec.phase, ExecutionPhase::Validation);
    assert_eq!(rec.latency_ms, 750);
    assert_eq!(rec.artifact_count, 4);
    let (stage2, action2) = run_step(stage, &mut rec, RunEvent::Cancelled, 2_000);
    assert_eq!(stage2, RunStage::Done);
    assert!(matches!(action2, RunAction::Stop));
    assert_eq!(rec.status, ExecutionStatus::Completed);
}

#[test]
fn run_fails_and_cancels() {
    let mut rec = queued_record();
    let (stage, _) = run_step(RunStage::Queued, &mut rec, RunEvent::Start { cancelled: false }, 10);
    let (stage, _) = run_step(stage, &mut rec, RunEvent::Initialized { result: Err("no python".into()), cancelled: false }, 30);
    assert_eq!(stage, RunStage::Done);
    assert_eq!(rec.status, ExecutionStatus::Failed);
    assert_eq!(rec.error_log, Some("worker init failed: no python".to_string()));
    assert_eq!(rec.latency_ms, 20);

    let mut rec = queued_record();
    let (stage, _) = run_step(RunStage::Queued, &mut rec, RunEvent::Start { cancelled: true }, 10);
    assert_eq!(stage, RunStage::Done);
    assert_eq!(rec.status, ExecutionStatus::Cancelled);
    assert_eq!(rec.completed_at_ms, Some(10));

    let mut rec = queued_record();
    let (stage, _) = run_step(RunStage::Queued, &mut rec, RunEvent::Start { cancelled: false }, 0);
    let (stage, _) = run_step(stage, &mut rec, RunEvent::Initialized { result: Ok(()), cancelled: false }, 1);
    let (_, _) = run_step(stage, &mut rec, RunEvent::Finished { result: Err(("E42".into(), "bad".into())) }, 5);
    assert_eq!(rec.error_log, Some("E42: bad".to_string()));
}

#[test]
fn latency_and_keys() {
    assert_eq!(latency_ms(100, 350), 250);
    assert_eq!(latency_ms(400, 350), 0);
    assert_eq!(store_key(&Some("team".into()), "e1"), "team/e1");
    assert_eq!(execution_id("team/e1"), "e1");
    assert_eq!(execution_id("e2"), "e2");
}

#[test]
fn dashboard_counts() {
    let stats = dashboard_stats(&vec![
        (ExecutionStatus::Completed, 100),
        (ExecutionStatus::Failed, 50),
        (ExecutionStatus::Queued, 0),
        (ExecutionStatus::Executing, 0),
    ]);
    assert_eq!(stats.total, 4);
    assert_eq!(stats.completed, 1);
    assert_eq!(stats.failed, 1);
    assert_eq!(stats.pending, 2);
    assert_eq!(stats.avg_latency_ms, 37);
}

#[test]
fn cancel_unknown_execution() {
    assert_eq!(cancel_record(None, "x", 5), Err("execution 'x' not found".to_string()));
    let mut rec = queued_record();
    assert_eq!(cancel_record(Some(&mut rec), "x", 5), Ok(()));
    assert_eq!(rec.status, ExecutionStatus::Cancelled);
}

#[test]
fn admission_requires_grants() {
    let mut registry = CapabilityRegistry::new_with_seed([2u8; 32]);
    let g = registry.grant_at("e1", Capability::NetworkDns, GrantAuthority::System, None, 100, "t", "ts".into());
    let v = registry.grant_verifier();
    assert_eq!(admit_task_at(&v, "e1", &[g.clone()], &[Capability::NetworkDns], 200), Ok(()));
    assert_eq!(
        admit_task_at(&v, "e1", &[], &[Capability::NetworkDns], 200),
        Err("missing or invalid capability grant: missing capability grant for 'network_dns'".to_string())
    );
    assert_eq!(
        admit_task_at(&v, "e2", &[g], &[], 200),
        Err("missing or invalid capability grant: capability grant execution ID mismatch".to_string())
    );
}

#[test]
fn store_keys_belong_to_their_project() {
    assert!(in_project("default/vee-1", "default"));
    assert!(in_project("acme/x", "acme"));
    assert!(!in_project("acme/x", "acm"));
    assert!(!in_project("acme", "acme"));
    assert!(!in_project("acmex/y", "acme"));
    assert!(!in_project("other/acme", "acme"));
}

#[test]
fn store_key_gives_back_its_execution_id() {
    for (project, id) in [(Some("team".to_string()), "vee-1"), (None, "vee-2"), (Some("a/b".to_string()), "x")] {
        let key = store_key(&project, id);
        assert_eq!(execution_id(&key), id);
        assert!(in_project(&key, project.as_deref().unwrap_or("default")));
    }
}
