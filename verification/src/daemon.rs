//! The executor daemon's decisions: how an execution moves through its
//! lifecycle, how its record changes, how the store is keyed and summarised.
//! Spawning the worker, waiting on it and broadcasting events are left to
//! the caller, which feeds each outcome back as an event.
use vstd::prelude::*;
use crate::text::{chars_of, decimal, owned, push_char, push_str, string_from, u64_to_decimal, usize_to_decimal};
use crate::types::api::VeeDashboardStats;
use crate::capability::{capability_views, grant_views, spec_grants_for_task, unit_result, CapabilityVerifier};
use crate::types::capability::{Capability, CapabilityGrant};
use crate::types::result::{ExecutionPhase, ExecutionStatus};

verus! {

broadcast use vstd::string::group_string_axioms;

/// The parts of an execution's result that its lifecycle changes.
#[derive(Debug, Clone)]
pub struct ExecRecord {
    pub status: ExecutionStatus,
    pub phase: ExecutionPhase,
    pub started_at_ms: Option<i64>,
    pub completed_at_ms: Option<i64>,
    pub latency_ms: u64,
    pub error_log: Option<String>,
    pub artifact_count: usize,
}

/// Where a run stands.
#[derive(Debug, Clone, Copy, PartialEq, Eq, Structural)]
pub enum RunStage {
    /// Submitted, not yet started.
    Queued,
    /// Marked as executing; the worker is being built.
    Initializing,
    /// The worker runs the task.
    Executing,
    /// Completed, failed or cancelled.
    Done,
}

/// What the caller reports.
#[derive(Debug)]
pub enum RunEvent {
    /// The run was picked up; `cancelled` tells whether it was already
    /// cancelled.
    Start { cancelled: bool },
    /// The worker was built, or could not be; `cancelled` tells whether the
    /// run was cancelled meanwhile.
    Initialized { result: Result<(), String>, cancelled: bool },
    /// The worker finished with this many artifacts, or failed with a code
    /// and a message.
    Finished { result: Result<usize, (String, String)> },
    /// The run was cancelled while the worker ran.
    Cancelled,
}

/// What the caller does next.
#[derive(Debug, Clone)]
pub enum RunAction {
    /// Build the worker and report `Initialized`.
    BuildWorker,
    /// Run the task and report `Finished` or `Cancelled`.
    Execute,
    /// Nothing more: the run is over.
    Stop,
}

pub open spec fn done_record(r: ExecRecord) -> bool {
    r.status == ExecutionStatus::Completed || r.status == ExecutionStatus::Failed || r.status == ExecutionStatus::Cancelled
}

/// Milliseconds from `start` to `end`, and no less than zero.
pub open spec fn spec_latency(start: i64, end: i64) -> u64 {
    if end - start > 0 { (end - start) as u64 } else { 0 }
}

pub fn latency_ms(start: i64, end: i64) -> (r: u64)
    ensures
        r == spec_latency(start, end),
{
    let d: i128 = (end as i128) - (start as i128);
    if d > 0 {
        d as u64
    } else {
        0
    }
}

pub open spec fn failed_at(r: ExecRecord, message: Seq<char>, now: i64, n: ExecRecord) -> bool {
    &&& n.status == ExecutionStatus::Failed
    &&& n.phase == r.phase
    &&& n.error_log is Some && n.error_log->Some_0@ == message
    &&& n.completed_at_ms == Some(now)
    &&& n.started_at_ms == r.started_at_ms
    &&& n.latency_ms == match r.started_at_ms { Some(s) => spec_latency(s, now), None => 0 }
    &&& n.artifact_count == r.artifact_count
}

pub open spec fn cancelled_at(r: ExecRecord, now: i64, n: ExecRecord) -> bool {
    &&& n.status == ExecutionStatus::Cancelled
    &&& n.phase == r.phase
    &&& n.completed_at_ms == Some(now)
    &&& n.started_at_ms == r.started_at_ms
    &&& n.latency_ms == r.latency_ms
    &&& n.artifact_count == r.artifact_count
    &&& opt_str(n.error_log) == opt_str(r.error_log)
}

pub open spec fn opt_str(o: Option<String>) -> Option<Seq<char>> {
    match o {
        Some(s) => Some(s@),
        None => None,
    }
}

/// One step of a run: the next stage and action, and how the record
/// changes, for the event the caller reports at time `now`.
pub open spec fn spec_run_step(stage: RunStage, r: ExecRecord, e: RunEvent, now: i64, next: (RunStage, RunAction), n: ExecRecord) -> bool {
    match (stage, e) {
        (RunStage::Queued, RunEvent::Start { cancelled }) => {
            let started = ExecRecord {
                status: ExecutionStatus::Executing,
                phase: ExecutionPhase::Execution,
                started_at_ms: Some(now),
                ..r
            };
            if cancelled {
                next.0 == RunStage::Done && next.1 is Stop && cancelled_at(started, now, n)
            } else {
                next.0 == RunStage::Initializing && next.1 is BuildWorker
                    && n.status == started.status && n.phase == started.phase && n.started_at_ms == started.started_at_ms
                    && n.completed_at_ms == r.completed_at_ms && n.latency_ms == r.latency_ms
                    && n.artifact_count == r.artifact_count && opt_str(n.error_log) == opt_str(r.error_log)
            }
        },
        (RunStage::Initializing, RunEvent::Initialized { result, cancelled }) => match result {
            Err(msg) => next.0 == RunStage::Done && next.1 is Stop && failed_at(r, "worker init failed: "@ + msg@, now, n),
            Ok(()) => if cancelled {
                next.0 == RunStage::Done && next.1 is Stop && cancelled_at(r, now, n)
            } else {
                next.0 == RunStage::Executing && next.1 is Execute && n == r
            },
        },
        (RunStage::Executing, RunEvent::Finished { result }) => match result {
            Ok(count) => next.0 == RunStage::Done && next.1 is Stop
                && n.status == ExecutionStatus::Completed && n.phase == ExecutionPhase::Validation
                && n.completed_at_ms == Some(now) && n.started_at_ms == r.started_at_ms
                && n.latency_ms == match r.started_at_ms { Some(s) => spec_latency(s, now), None => 0 }
                && n.artifact_count == count && opt_str(n.error_log) == opt_str(r.error_log),
            Err((code, message)) => next.0 == RunStage::Done && next.1 is Stop
                && failed_at(r, code@ + ": "@ + message@, now, n),
        },
        (RunStage::Executing, RunEvent::Cancelled) => next.0 == RunStage::Done && next.1 is Stop && cancelled_at(r, now, n),
        _ => next == (stage, RunAction::Stop) && n == r,
    }
}

fn mark_failed(rec: &mut ExecRecord, message: String, now: i64)
    ensures
        failed_at(*old(rec), message@, now, *final(rec)),
{
    let latency = match rec.started_at_ms {
        Some(s) => latency_ms(s, now),
        None => 0,
    };
    rec.status = ExecutionStatus::Failed;
    rec.error_log = Some(message);
    rec.completed_at_ms = Some(now);
    rec.latency_ms = latency;
}

fn mark_cancelled(rec: &mut ExecRecord, now: i64)
    ensures
        cancelled_at(*old(rec), now, *final(rec)),
{
    rec.status = ExecutionStatus::Cancelled;
    rec.completed_at_ms = Some(now);
}

/// Advance a run by one event.
pub fn run_step(stage: RunStage, rec: &mut ExecRecord, event: RunEvent, now: i64) -> (next: (RunStage, RunAction))
    ensures
        spec_run_step(stage, *old(rec), event, now, next, *final(rec)),
{
    match (stage, event) {
        (RunStage::Queued, RunEvent::Start { cancelled }) => {
            rec.status = ExecutionStatus::Executing;
            rec.phase = ExecutionPhase::Execution;
            rec.started_at_ms = Some(now);
            if cancelled {
                mark_cancelled(rec, now);
                (RunStage::Done, RunAction::Stop)
            } else {
                (RunStage::Initializing, RunAction::BuildWorker)
            }
        },
        (RunStage::Initializing, RunEvent::Initialized { result, cancelled }) => match result {
            Err(msg) => {
                let mut m = owned("worker init failed: ");
                push_str(&mut m, msg.as_str());
                mark_failed(rec, m, now);
                (RunStage::Done, RunAction::Stop)
            },
            Ok(()) => {
                if cancelled {
                    mark_cancelled(rec, now);
                    (RunStage::Done, RunAction::Stop)
                } else {
                    (RunStage::Executing, RunAction::Execute)
                }
            },
        },
        (RunStage::Executing, RunEvent::Finished { result }) => match result {
            Ok(count) => {
                let latency = match rec.started_at_ms {
                    Some(s) => latency_ms(s, now),
                    None => 0,
                };
                rec.status = ExecutionStatus::Completed;
                rec.phase = ExecutionPhase::Validation;
                rec.completed_at_ms = Some(now);
                rec.latency_ms = latency;
                rec.artifact_count = count;
                (RunStage::Done, RunAction::Stop)
            },
            Err((code, message)) => {
                let mut m = code;
                push_str(&mut m, ": ");
                push_str(&mut m, message.as_str());
                mark_failed(rec, m, now);
                (RunStage::Done, RunAction::Stop)
            },
        },
        (RunStage::Executing, RunEvent::Cancelled) => {
            mark_cancelled(rec, now);
            (RunStage::Done, RunAction::Stop)
        },
        (s, _) => (s, RunAction::Stop),
    }
}

/// A run that is over stays over: every event leaves it done and its
/// record untouched.
pub proof fn lemma_done_is_final(r: ExecRecord, e: RunEvent, now: i64, next: (RunStage, RunAction), n: ExecRecord)
    requires
        spec_run_step(RunStage::Done, r, e, now, next, n),
    ensures
        next.0 == RunStage::Done,
        n == r,
{
}

/// A step that ends a run leaves the record completed, failed or cancelled.
pub proof fn lemma_run_ends_terminal(stage: RunStage, r: ExecRecord, e: RunEvent, now: i64, next: (RunStage, RunAction), n: ExecRecord)
    requires
        stage != RunStage::Done,
        spec_run_step(stage, r, e, now, next, n),
        next.0 == RunStage::Done,
    ensures
        done_record(n),
{
}

// ─── Store keys ─────────────────────────────────────────────────────────────

/// The part of a store key after its last `/`, or the whole key.
pub open spec fn spec_execution_id(key: Seq<char>) -> Seq<char> {
    if exists|i: int| 0 <= i < key.len() && key[i] == '/' {
        let i = choose|i: int| 0 <= i < key.len() && key[i] == '/' && forall|j: int| i < j < key.len() ==> key[j] != '/';
        key.skip(i + 1)
    } else {
        key
    }
}

/// The execution id of a store key `project/execution`.
pub fn execution_id(store_key: &str) -> (r: String)
    ensures
        r@ == spec_execution_id(store_key@),
{
    let cs = chars_of(store_key);
    let mut i: usize = cs.len();
    while i > 0 && cs[i - 1] != '/'
        invariant
            i <= cs@.len(),
            cs@ == store_key@,
            forall|j: int| i <= j < cs@.len() ==> cs@[j] != '/',
        decreases i,
    {
        i = i - 1;
    }
    if i == 0 {
        proof {
            assert(!exists|k: int| 0 <= k < cs@.len() && cs@[k] == '/');
        }
        return owned(store_key);
    }
    proof {
        let k = (i - 1) as int;
        assert(cs@[k] == '/');
        let c = choose|c: int| 0 <= c < cs@.len() && cs@[c] == '/' && forall|j: int| c < j < cs@.len() ==> cs@[j] != '/';
        if c < k {
            assert(cs@[k] != '/');
        }
        if c > k {
            assert(cs@[c] != '/');
        }
    }
    let mut out: Vec<char> = Vec::new();
    let mut k: usize = i;
    while k < cs.len()
        invariant
            i <= k <= cs@.len(),
            out@ == cs@.subrange(i as int, k as int),
        decreases cs@.len() - k,
    {
        out.push(cs[k]);
        proof { assert(cs@.subrange(i as int, k + 1) =~= out@); }
        k = k + 1;
    }
    assert(out@ =~= cs@.skip(i as int));
    string_from(&out)
}

/// The store key of an execution whose id holds no `/` gives back that id,
/// and belongs to its project.
pub proof fn lemma_store_key_round_trip(project_id: Seq<char>, id: Seq<char>)
    requires
        forall|j: int| 0 <= j < id.len() ==> id[j] != '/',
    ensures
        spec_execution_id(project_id + seq!['/'] + id) == id,
        spec_in_project(project_id + seq!['/'] + id, project_id),
{
    let key = project_id + seq!['/'] + id;
    let n = project_id.len() as int;
    assert(key[n] == '/');
    assert forall|j: int| n < j < key.len() implies key[j] != '/' by {
        assert(key[j] == id[j - n - 1]);
    }
    let i = choose|i: int| 0 <= i < key.len() && key[i] == '/' && forall|j: int| i < j < key.len() ==> key[j] != '/';
    if i < n {
        assert(key[n] == '/');
    }
    assert(i == n);
    assert(key.skip(n + 1) =~= id);
    assert(key.take(n) =~= project_id);
}

/// Whether a store key belongs to a project: it is the project's name, a
/// slash, and the rest.
pub open spec fn spec_in_project(store_key: Seq<char>, project_id: Seq<char>) -> bool {
    &&& store_key.len() > project_id.len()
    &&& store_key.take(project_id.len() as int) == project_id
    &&& store_key[project_id.len() as int] == '/'
}

pub fn in_project(store_key: &str, project_id: &str) -> (r: bool)
    ensures
        r == spec_in_project(store_key@, project_id@),
{
    let k = chars_of(store_key);
    let p = chars_of(project_id);
    if k.len() <= p.len() {
        return false;
    }
    let mut i: usize = 0;
    while i < p.len()
        invariant
            i <= p@.len(),
            p@.len() < k@.len(),
            k@ == store_key@,
            p@ == project_id@,
            forall|j: int| 0 <= j < i ==> k@[j] == p@[j],
        decreases p@.len() - i,
    {
        if k[i] != p[i] {
            proof {
                assert(k@.take(p@.len() as int)[i as int] != p@[i as int]);
            }
            return false;
        }
        i = i + 1;
    }
    proof {
        assert(k@.take(p@.len() as int) =~= p@);
    }
    k[p.len()] == '/'
}

/// The store key of an execution: `project/execution`, in the `default`
/// project when none is given.
pub fn store_key(project_id: &Option<String>, execution_id: &str) -> (r: String)
    ensures
        r@ == (match project_id { Some(p) => p@, None => "default"@ }) + seq!['/'] + execution_id@,
{
    let mut k = match project_id {
        Some(p) => p.clone(),
        None => owned("default"),
    };
    push_char(&mut k, '/');
    push_str(&mut k, execution_id);
    k
}

// ─── Summaries ──────────────────────────────────────────────────────────────

/// How many of the executions have a status that `group` selects: 0 for
/// completed, 1 for failed, 2 for pending (pending, queued or executing).
pub open spec fn selects(group: int, s: ExecutionStatus) -> bool {
    if group == 0 {
        s == ExecutionStatus::Completed
    } else if group == 1 {
        s == ExecutionStatus::Failed
    } else {
        is_pending(s)
    }
}

pub open spec fn count_status(rs: Seq<(ExecutionStatus, u64)>, group: int) -> nat
    decreases rs.len(),
{
    if rs.len() == 0 {
        0
    } else {
        count_status(rs.drop_last(), group) + if selects(group, rs.last().0) { 1nat } else { 0nat }
    }
}

pub open spec fn sum_latency(rs: Seq<(ExecutionStatus, u64)>) -> nat
    decreases rs.len(),
{
    if rs.len() == 0 {
        0
    } else {
        sum_latency(rs.drop_last()) + rs.last().1 as nat
    }
}

pub open spec fn is_pending(s: ExecutionStatus) -> bool {
    s == ExecutionStatus::Pending || s == ExecutionStatus::Queued || s == ExecutionStatus::Executing
}

/// Counts by status, and the mean latency rounded down, of the executions
/// given by status and latency.
pub fn dashboard_stats(records: &Vec<(ExecutionStatus, u64)>) -> (r: VeeDashboardStats)
    requires
        records@.len() <= i64::MAX,
        sum_latency(records@) <= i64::MAX,
    ensures
        r.total == records@.len(),
        r.completed == count_status(records@, 0),
        r.failed == count_status(records@, 1),
        r.pending == count_status(records@, 2),
        r.avg_latency_ms == if records@.len() > 0 { sum_latency(records@) as int / records@.len() as int } else { 0 },
{
    let mut completed: i64 = 0;
    let mut failed: i64 = 0;
    let mut pending: i64 = 0;
    let mut sum: i64 = 0;
    let mut i: usize = 0;
    while i < records.len()
        invariant
            i <= records@.len(),
            records@.len() <= i64::MAX,
            sum_latency(records@) <= i64::MAX,
            completed == count_status(records@.take(i as int), 0),
            failed == count_status(records@.take(i as int), 1),
            pending == count_status(records@.take(i as int), 2),
            sum == sum_latency(records@.take(i as int)),
            completed <= i && failed <= i && pending <= i,
        decreases records@.len() - i,
    {
        proof {
            assert(records@.take(i + 1).drop_last() =~= records@.take(i as int));
            lemma_sum_latency_prefix(records@, i + 1);
        }
        let (s, l) = records[i];
        if s == ExecutionStatus::Completed {
            completed = completed + 1;
        }
        if s == ExecutionStatus::Failed {
            failed = failed + 1;
        }
        if s == ExecutionStatus::Pending || s == ExecutionStatus::Queued || s == ExecutionStatus::Executing {
            pending = pending + 1;
        }
        sum = sum + l as i64;
        i = i + 1;
    }
    assert(records@.take(records@.len() as int) =~= records@);
    let total = records.len() as i64;
    let avg = if total > 0 { sum / total } else { 0 };
    VeeDashboardStats { total, completed, failed, pending, avg_latency_ms: avg }
}

proof fn lemma_sum_latency_prefix(rs: Seq<(ExecutionStatus, u64)>, k: int)
    requires
        0 <= k <= rs.len(),
    ensures
        sum_latency(rs.take(k)) <= sum_latency(rs),
    decreases rs.len() - k,
{
    if k < rs.len() {
        lemma_sum_latency_prefix(rs, k + 1);
        assert(rs.take(k + 1).drop_last() =~= rs.take(k));
    } else {
        assert(rs.take(k) =~= rs);
    }
}

/// The record a submitted execution starts with.
pub fn queued_record() -> (r: ExecRecord)
    ensures
        r.status == ExecutionStatus::Queued,
        r.phase == ExecutionPhase::Hypothesis,
        r.started_at_ms is None,
        r.completed_at_ms is None,
        r.latency_ms == 0,
        r.error_log is None,
        r.artifact_count == 0,
{
    ExecRecord {
        status: ExecutionStatus::Queued,
        phase: ExecutionPhase::Hypothesis,
        started_at_ms: None,
        completed_at_ms: None,
        latency_ms: 0,
        error_log: None,
        artifact_count: 0,
    }
}

/// Cancel an execution by request: its record is marked cancelled at `now`,
/// whatever its status; an unknown execution is refused.
pub fn cancel_record(rec: Option<&mut ExecRecord>, execution_id: &str, now: i64) -> (r: Result<(), String>)
    ensures
        rec is None ==> r is Err && r->Err_0@ == "execution '"@ + execution_id@ + "' not found"@,
        rec is Some ==> r is Ok,
{
    match rec {
        Some(x) => {
            mark_cancelled(x, now);
            Ok(())
        },
        None => {
            let mut m = owned("execution '");
            push_str(&mut m, execution_id);
            push_str(&mut m, "' not found");
            Err(m)
        },
    }
}

// ─── Audit ──────────────────────────────────────────────────────────────────

/// A minimal audit report produced by the executor daemon.
#[derive(Debug, Clone)]
pub struct AuditReport {
    pub overall_pass: bool,
    pub passed_count: usize,
    pub failed_count: usize,
    pub critical_failures: usize,
    pub timestamp: String,
    pub tests: Vec<AuditTest>,
}

/// A single audit test entry.
#[derive(Debug, Clone)]
pub struct AuditTest {
    pub test_name: String,
    pub passed: bool,
    pub severity: String,
    pub detail: String,
}

/// An audit test entry as plain values.
pub struct AuditTestView {
    pub test_name: Seq<char>,
    pub passed: bool,
    pub severity: Seq<char>,
    pub detail: Seq<char>,
}

impl View for AuditTest {
    type V = AuditTestView;

    open spec fn view(&self) -> AuditTestView {
        AuditTestView { test_name: self.test_name@, passed: self.passed, severity: self.severity@, detail: self.detail@ }
    }
}

/// The entry a stored execution contributes: completed ones pass, failed
/// ones fail critically, others give none.
pub open spec fn audit_entry(execution_id: Seq<char>, r: ExecRecord) -> Option<AuditTestView> {
    match r.status {
        ExecutionStatus::Completed => Some(AuditTestView {
            test_name: "execution_"@ + execution_id + "_completed"@,
            passed: true,
            severity: "info"@,
            detail: "execution completed in "@ + decimal(r.latency_ms as nat) + " ms with "@
                + decimal(r.artifact_count as nat) + " artifacts"@,
        }),
        ExecutionStatus::Failed => Some(AuditTestView {
            test_name: "execution_"@ + execution_id + "_failed"@,
            passed: false,
            severity: "critical"@,
            detail: match r.error_log {
                Some(e) => e@,
                None => Seq::<char>::empty(),
            },
        }),
        _ => None,
    }
}

/// The entries of the stored executions, in the order given.
pub open spec fn audit_entries(rs: Seq<(String, ExecRecord)>) -> Seq<AuditTestView> {
    rs.filter_map(|p: (String, ExecRecord)| audit_entry(p.0@, p.1))
}

/// How many stored executions have the status `s`.
pub open spec fn count_with(rs: Seq<(String, ExecRecord)>, s: ExecutionStatus) -> nat
    decreases rs.len(),
{
    if rs.len() == 0 {
        0
    } else {
        count_with(rs.drop_last(), s) + if rs.last().1.status == s { 1nat } else { 0nat }
    }
}

proof fn lemma_count_with_le(rs: Seq<(String, ExecRecord)>, s: ExecutionStatus)
    ensures
        count_with(rs, s) <= rs.len(),
    decreases rs.len(),
{
    if rs.len() > 0 {
        lemma_count_with_le(rs.drop_last(), s);
    }
}

/// The views of a list of audit entries.
pub open spec fn audit_test_views(v: Seq<AuditTest>) -> Seq<AuditTestView> {
    v.map_values(|t: AuditTest| t@)
}

fn audit_entry_of(execution_id: &str, r: &ExecRecord) -> (e: Option<AuditTest>)
    ensures
        match audit_entry(execution_id@, *r) {
            Some(v) => e is Some && e->Some_0@ == v,
            None => e is None,
        },
{
    match r.status {
        ExecutionStatus::Completed => {
            let mut name = owned("execution_");
            push_str(&mut name, execution_id);
            push_str(&mut name, "_completed");
            let mut detail = owned("execution completed in ");
            let ms = u64_to_decimal(r.latency_ms);
            push_str(&mut detail, ms.as_str());
            push_str(&mut detail, " ms with ");
            let n = usize_to_decimal(r.artifact_count);
            push_str(&mut detail, n.as_str());
            push_str(&mut detail, " artifacts");
            Some(AuditTest { test_name: name, passed: true, severity: owned("info"), detail })
        },
        ExecutionStatus::Failed => {
            let mut name = owned("execution_");
            push_str(&mut name, execution_id);
            push_str(&mut name, "_failed");
            let detail = match &r.error_log {
                Some(e) => owned(e.as_str()),
                None => String::new(),
            };
            Some(AuditTest { test_name: name, passed: false, severity: owned("critical"), detail })
        },
        _ => None,
    }
}

/// The daemon's audit of its stored executions, taken at `timestamp`:
/// completed ones pass, failed ones fail critically, and the audit passes
/// when none failed.
pub fn daemon_audit(results: &Vec<(String, ExecRecord)>, timestamp: String) -> (r: AuditReport)
    ensures
        audit_test_views(r.tests@) == audit_entries(results@),
        r.passed_count == count_with(results@, ExecutionStatus::Completed),
        r.failed_count == count_with(results@, ExecutionStatus::Failed),
        r.critical_failures == r.failed_count,
        r.overall_pass == (r.failed_count == 0),
        r.timestamp@ == timestamp@,
{
    let ghost rs = results@;
    let ghost f = |p: (String, ExecRecord)| audit_entry(p.0@, p.1);
    let mut passed: usize = 0;
    let mut failed: usize = 0;
    let mut tests: Vec<AuditTest> = Vec::new();
    let mut i: usize = 0;
    assert(audit_test_views(tests@) =~= rs.take(0).filter_map(f));
    while i < results.len()
        invariant
            i <= rs.len(),
            rs == results@,
            f == |p: (String, ExecRecord)| audit_entry(p.0@, p.1),
            passed == count_with(rs.take(i as int), ExecutionStatus::Completed),
            failed == count_with(rs.take(i as int), ExecutionStatus::Failed),
            passed + failed <= i,
            audit_test_views(tests@) == rs.take(i as int).filter_map(f),
        decreases rs.len() - i,
    {
        let (id, rec) = (&results[i].0, &results[i].1);
        proof {
            assert(rs.take(i + 1).drop_last() =~= rs.take(i as int));
            assert(rs.take(i + 1).last() == rs[i as int]);
        }
        match audit_entry_of(id.as_str(), rec) {
            Some(t) => {
                let ghost before = audit_test_views(tests@);
                let ghost tv = t@;
                tests.push(t);
                proof { assert(audit_test_views(tests@) =~= before + seq![tv]); }
            },
            None => {},
        }
        if rec.status == ExecutionStatus::Completed {
            passed = passed + 1;
        } else if rec.status == ExecutionStatus::Failed {
            failed = failed + 1;
        }
        i = i + 1;
    }
    assert(rs.take(rs.len() as int) =~= rs);
    AuditReport {
        overall_pass: failed == 0,
        passed_count: passed,
        failed_count: failed,
        critical_failures: failed,
        timestamp,
        tests,
    }
}

// ─── Admission ──────────────────────────────────────────────────────────────

/// What admitting a task answers at time `now`: accepted when its grants
/// cover it, else refused with the reason.
pub open spec fn spec_admission(
    key: Seq<u8>,
    revocations: Option<Seq<Seq<char>>>,
    execution_id: Seq<char>,
    grants: Seq<CapabilityGrant>,
    required: Seq<Capability>,
    now: i64,
) -> Result<(), Seq<char>> {
    match spec_grants_for_task(key, revocations, execution_id, grant_views(grants), capability_views(required), now) {
        Ok(_) => Ok(()),
        Err(e) => Err("missing or invalid capability grant: "@ + e),
    }
}

/// Admit a task at time `now`: its grants must be bound to it, verify, be
/// granted, and cover every capability it requires.
pub fn admit_task_at(
    verifier: &CapabilityVerifier,
    execution_id: &str,
    grants: &[CapabilityGrant],
    required: &[Capability],
    now: i64,
) -> (r: Result<(), String>)
    ensures
        unit_result(r) == spec_admission(verifier.key(), verifier.revocations(), execution_id@, grants@, required@, now),
{
    match verifier.verify_grants_for_task_at(execution_id, grants, required, now) {
        Ok(_) => Ok(()),
        Err(e) => {
            let mut msg = owned("missing or invalid capability grant: ");
            push_str(&mut msg, e.as_str());
            Err(msg)
        },
    }
}

/// Admit a task: its grants must be bound to it, verify now, be granted,
/// and cover every capability it requires.
/// When the clock cannot be read, the task is refused with that reason.
pub fn admit_task(
    verifier: &CapabilityVerifier,
    execution_id: &str,
    grants: &[CapabilityGrant],
    required: &[Capability],
) -> (r: Result<(), String>)
    ensures
        (r is Err && r->Err_0@ == crate::capability::clock_error())
            || exists|now: i64| unit_result(r) == #[trigger] spec_admission(verifier.key(), verifier.revocations(), execution_id@, grants@, required@, now),
{
    match crate::capability::now_timestamp() {
        Some(now) => admit_task_at(verifier, execution_id, grants, required, now),
        None => Err(crate::capability::clock_error_text()),
    }
}

} // verus!
