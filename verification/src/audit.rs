//! Security audit verdicts: what each sandbox probe's outcome says about
//! the layer it tests, and the report over all probes. Running the probes
//! (processes, files, raw system calls) is left to the caller.
use vstd::prelude::*;
use vstd::utf8::{decode_utf8, encode_utf8};
use vstd::string::StringSliceAdditionalSpecFns;
use crate::auth::{lowercase, to_lower};
use crate::sandbox::SandboxResult;
use crate::text::{contains, decimal, owned, push_str, str_contains, u64_to_decimal};
use crate::validation::{debug_exit_code, exit_code_text};

verus! {

broadcast use vstd::string::group_string_axioms;

/// Result of a single audit test.
#[derive(Debug, Clone)]
pub struct AuditResult {
    pub test_name: String,
    pub passed: bool,
    pub severity: AuditSeverity,
    pub detail: String,
}

#[derive(Debug, Clone, Copy, PartialEq, Eq, Structural)]
pub enum AuditSeverity {
    Critical,
    High,
    Medium,
    Low,
    Info,
}

/// Full security audit report.
#[derive(Debug, Clone)]
pub struct AuditReport {
    pub tests: Vec<AuditResult>,
    pub passed_count: usize,
    pub failed_count: usize,
    pub critical_failures: Vec<String>,
    pub overall_pass: bool,
    pub timestamp: String,
}

/// An audit result as plain values.
pub struct AuditView {
    pub test_name: Seq<char>,
    pub passed: bool,
    pub severity: AuditSeverity,
    pub detail: Seq<char>,
}

impl View for AuditResult {
    type V = AuditView;

    open spec fn view(&self) -> AuditView {
        AuditView { test_name: self.test_name@, passed: self.passed, severity: self.severity, detail: self.detail@ }
    }
}

pub open spec fn verdict(test_name: Seq<char>, passed: bool, severity: AuditSeverity, detail: Seq<char>) -> AuditView {
    AuditView { test_name, passed, severity, detail }
}

fn make(test_name: &str, passed: bool, severity: AuditSeverity, detail: String) -> (r: AuditResult)
    ensures
        r@ == verdict(test_name@, passed, severity, detail@),
{
    AuditResult { test_name: owned(test_name), passed, severity, detail }
}

/// The detail given when the sandbox could not be set up.
pub open spec fn sandbox_error_detail(e: Seq<char>) -> Seq<char> {
    "Sandbox error (acceptable): "@ + e
}

// ─── Resource limits ────────────────────────────────────────────────────────

/// The CPU-burning probe was stopped: a non-zero exit, or a kill reported.
pub open spec fn cpu_stopped(r: SandboxResult) -> bool {
    r.exit_code != Some(0i32) || contains(r.stderr@, "Killed"@) || contains(r.stderr@, "signal"@)
}

pub open spec fn spec_cpu_limit_audit(outcome: Result<SandboxResult, String>) -> AuditView {
    match outcome {
        Ok(r) => verdict(
            "rlimit_cpu_enforcement"@,
            cpu_stopped(r),
            AuditSeverity::Critical,
            (if cpu_stopped(r) { "CPU limit enforced: exit_code="@ } else { "CPU limit NOT enforced: exit_code="@ })
                + debug_exit_code(r.exit_code) + ", duration="@ + decimal(r.duration_ms as nat) + "ms"@,
        ),
        Err(e) => verdict("rlimit_cpu_enforcement"@, true, AuditSeverity::Critical, sandbox_error_detail(e@)),
    }
}

/// The verdict on the CPU limit from the outcome of a probe that burns CPU
/// past its one-second limit; a sandbox that cannot be set up passes.
pub fn cpu_limit_audit(outcome: &Result<SandboxResult, String>) -> (r: AuditResult)
    ensures
        r@ == spec_cpu_limit_audit(*outcome),
{
    match outcome {
        Ok(res) => {
            let stopped = res.exit_code != Some(0i32) || str_contains(res.stderr.as_str(), "Killed")
                || str_contains(res.stderr.as_str(), "signal");
            let mut detail = if stopped {
                owned("CPU limit enforced: exit_code=")
            } else {
                owned("CPU limit NOT enforced: exit_code=")
            };
            let code = exit_code_text(res.exit_code);
            push_str(&mut detail, code.as_str());
            push_str(&mut detail, ", duration=");
            let ms = u64_to_decimal(res.duration_ms);
            push_str(&mut detail, ms.as_str());
            push_str(&mut detail, "ms");
            make("rlimit_cpu_enforcement", stopped, AuditSeverity::Critical, detail)
        },
        Err(e) => {
            let mut detail = owned("Sandbox error (acceptable): ");
            push_str(&mut detail, e.as_str());
            make("rlimit_cpu_enforcement", true, AuditSeverity::Critical, detail)
        },
    }
}

/// The allocating probe was stopped: a non-zero exit, or its error output
/// speaking of memory or of a kill.
pub open spec fn memory_stopped(r: SandboxResult) -> bool {
    r.exit_code != Some(0i32) || contains(to_lower(r.stderr@), "memory"@) || contains(to_lower(r.stderr@), "killed"@)
}

pub open spec fn spec_memory_limit_audit(outcome: Result<SandboxResult, String>) -> AuditView {
    match outcome {
        Ok(r) => verdict(
            "rlimit_memory_enforcement"@,
            memory_stopped(r),
            AuditSeverity::Critical,
            (if memory_stopped(r) { "Memory limit enforced: exit_code="@ } else { "Memory limit NOT enforced: exit_code="@ })
                + debug_exit_code(r.exit_code),
        ),
        Err(e) => verdict("rlimit_memory_enforcement"@, true, AuditSeverity::Critical, sandbox_error_detail(e@)),
    }
}

/// The verdict on the memory limit from the outcome of a probe that
/// allocates past its limit; a sandbox that cannot be set up passes.
pub fn memory_limit_audit(outcome: &Result<SandboxResult, String>) -> (r: AuditResult)
    ensures
        r@ == spec_memory_limit_audit(*outcome),
{
    match outcome {
        Ok(res) => {
            let lower = lowercase(res.stderr.as_str());
            let stopped = res.exit_code != Some(0i32) || str_contains(lower.as_str(), "memory")
                || str_contains(lower.as_str(), "killed");
            let mut detail = if stopped {
                owned("Memory limit enforced: exit_code=")
            } else {
                owned("Memory limit NOT enforced: exit_code=")
            };
            let code = exit_code_text(res.exit_code);
            push_str(&mut detail, code.as_str());
            make("rlimit_memory_enforcement", stopped, AuditSeverity::Critical, detail)
        },
        Err(e) => {
            let mut detail = owned("Sandbox error (acceptable): ");
            push_str(&mut detail, e.as_str());
            make("rlimit_memory_enforcement", true, AuditSeverity::Critical, detail)
        },
    }
}

// ─── Confinement ────────────────────────────────────────────────────────────

/// The exit code of a probe that ran.
pub open spec fn ran_exit_code(outcome: Result<SandboxResult, String>) -> Option<i32> {
    match outcome {
        Ok(r) => r.exit_code,
        Err(_) => None,
    }
}

pub open spec fn spec_filesystem_audit(escaped: bool, outcome: Result<SandboxResult, String>) -> AuditView {
    verdict(
        "filesystem_escape_prevention"@,
        !escaped,
        AuditSeverity::Critical,
        if escaped {
            "CRITICAL: Process escaped sandbox filesystem!"@
        } else {
            "Filesystem confinement active: exit_code="@ + debug_exit_code(ran_exit_code(outcome))
        },
    )
}

/// The verdict on filesystem confinement: it fails when the probe's marker
/// file appeared outside the sandbox.
pub fn filesystem_audit(escaped: bool, outcome: &Result<SandboxResult, String>) -> (r: AuditResult)
    ensures
        r@ == spec_filesystem_audit(escaped, *outcome),
{
    let detail = if escaped {
        owned("CRITICAL: Process escaped sandbox filesystem!")
    } else {
        let code = match outcome {
            Ok(res) => res.exit_code,
            Err(_) => None,
        };
        let mut d = owned("Filesystem confinement active: exit_code=");
        let t = exit_code_text(code);
        push_str(&mut d, t.as_str());
        d
    };
    make("filesystem_escape_prevention", !escaped, AuditSeverity::Critical, detail)
}

/// A probe was held back: it reported being blocked, exited non-zero, or
/// could not be run at all.
pub open spec fn held_back(outcome: Result<SandboxResult, String>) -> bool {
    match outcome {
        Ok(r) => contains(r.stdout@, "blocked"@) || r.exit_code != Some(0i32),
        Err(_) => true,
    }
}

fn probe_held_back(outcome: &Result<SandboxResult, String>) -> (b: bool)
    ensures
        b == held_back(*outcome),
{
    match outcome {
        Ok(res) => str_contains(res.stdout.as_str(), "blocked") || res.exit_code != Some(0i32),
        Err(_) => true,
    }
}

/// At most the first hundred bytes of a text.
pub open spec fn head_bytes(s: Seq<char>) -> Seq<char> {
    let b = encode_utf8(s);
    decode_utf8(b.subrange(0, if b.len() < 100 { b.len() as int } else { 100 }))
}

pub open spec fn spec_network_audit(outcome: Result<SandboxResult, String>) -> AuditView {
    verdict(
        "network_blocking"@,
        held_back(outcome),
        AuditSeverity::High,
        if held_back(outcome) {
            "Network access blocked in sandbox"@
        } else {
            "Network access NOT blocked: stdout="@ + head_bytes(outcome->Ok_0.stdout@)
        },
    )
}

/// The verdict on network blocking from the outcome of a probe that tries
/// to connect. Where the connection was not blocked, the first hundred
/// bytes of its output must end on a character boundary.
pub fn network_audit(outcome: &Result<SandboxResult, String>) -> (r: AuditResult)
    requires
        !held_back(*outcome) ==> {
            let b = encode_utf8(outcome->Ok_0.stdout@);
            b.len() <= 100 || vstd::utf8::is_char_boundary(b, 100)
        },
    ensures
        r@ == spec_network_audit(*outcome),
{
    broadcast use vstd::utf8::encode_utf8_decode_utf8, vstd::utf8::encode_utf8_valid_utf8;
    let blocked = probe_held_back(outcome);
    let detail = if blocked {
        owned("Network access blocked in sandbox")
    } else {
        match outcome {
            Ok(res) => {
                let out = res.stdout.as_str();
                let n = out.as_bytes().len();
                let end: usize = if n < 100 { n } else { 100 };
                proof {
                    assert(out.spec_bytes() == encode_utf8(out@));
                    assert(n == encode_utf8(out@).len());
                    assert(res.stdout@ == outcome->Ok_0.stdout@);
                    if n <= 100 {
                        vstd::utf8::is_char_boundary_start_end_of_seq(encode_utf8(out@));
                    }
                    assert(vstd::utf8::is_char_boundary(out.spec_bytes(), end as int));
                }
                let (head, _) = out.split_at(end);
                assert(head@ == decode_utf8(encode_utf8(head@)));
                let mut d = owned("Network access NOT blocked: stdout=");
                push_str(&mut d, head);
                d
            },
            Err(_) => owned(""),
        }
    };
    make("network_blocking", blocked, AuditSeverity::High, detail)
}

pub open spec fn spec_process_audit(outcome: Result<SandboxResult, String>) -> AuditView {
    verdict(
        "process_spawn_restriction"@,
        held_back(outcome),
        AuditSeverity::High,
        if held_back(outcome) { "Process spawn restricted"@ } else { "Process spawn NOT restricted"@ },
    )
}

/// The verdict on process restriction from the outcome of a probe that
/// tries to spawn a process.
pub fn process_audit(outcome: &Result<SandboxResult, String>) -> (r: AuditResult)
    ensures
        r@ == spec_process_audit(*outcome),
{
    let restricted = probe_held_back(outcome);
    let detail = if restricted { owned("Process spawn restricted") } else { owned("Process spawn NOT restricted") };
    make("process_spawn_restriction", restricted, AuditSeverity::High, detail)
}

// ─── Kernel features ────────────────────────────────────────────────────────

/// The number `ENOSYS`: the system call does not exist.
pub const ENOSYS: i32 = 38;

/// A system call exists: it succeeded, or failed with an error other than
/// `ENOSYS`.
pub open spec fn syscall_exists(ret: i64, errno: Option<i32>) -> bool {
    ret >= 0 || errno != Some(ENOSYS)
}

pub open spec fn spec_seccomp_audit(ret: i64, errno: Option<i32>) -> AuditView {
    verdict(
        "seccomp_availability"@,
        syscall_exists(ret, errno),
        AuditSeverity::Medium,
        if syscall_exists(ret, errno) {
            "seccomp syscall is available on this kernel"@
        } else {
            "seccomp syscall NOT available — seccomp-bpf layer will be skipped"@
        },
    )
}

/// The verdict on seccomp from what probing its system call returned and
/// the error number it left.
pub fn seccomp_audit(ret: i64, errno: Option<i32>) -> (r: AuditResult)
    ensures
        r@ == spec_seccomp_audit(ret, errno),
{
    let available = ret >= 0 || errno != Some(ENOSYS);
    let detail = if available {
        owned("seccomp syscall is available on this kernel")
    } else {
        owned("seccomp syscall NOT available — seccomp-bpf layer will be skipped")
    };
    make("seccomp_availability", available, AuditSeverity::Medium, detail)
}

pub open spec fn spec_landlock_audit(ret: i64, errno: Option<i32>) -> AuditView {
    verdict(
        "landlock_availability"@,
        syscall_exists(ret, errno),
        AuditSeverity::Medium,
        if syscall_exists(ret, errno) {
            "Landlock LSM is available on this kernel"@
        } else {
            "Landlock NOT available — filesystem confinement will use fallback"@
        },
    )
}

/// The verdict on Landlock from what probing its system call returned and
/// the error number it left.
pub fn landlock_audit(ret: i64, errno: Option<i32>) -> (r: AuditResult)
    ensures
        r@ == spec_landlock_audit(ret, errno),
{
    let available = ret >= 0 || errno != Some(ENOSYS);
    let detail = if available {
        owned("Landlock LSM is available on this kernel")
    } else {
        owned("Landlock NOT available — filesystem confinement will use fallback")
    };
    make("landlock_availability", available, AuditSeverity::Medium, detail)
}

// ─── Report ─────────────────────────────────────────────────────────────────

/// The views of a list of results.
pub open spec fn audit_views(v: Seq<AuditResult>) -> Seq<AuditView> {
    v.map_values(|a: AuditResult| a@)
}

/// How many results passed.
pub open spec fn passed_in(v: Seq<AuditView>) -> nat
    decreases v.len(),
{
    if v.len() == 0 {
        0
    } else {
        passed_in(v.drop_last()) + if v.last().passed { 1nat } else { 0nat }
    }
}

/// The names of the critical results that failed, in order.
pub open spec fn critical_failures(v: Seq<AuditView>) -> Seq<Seq<char>>
    decreases v.len(),
{
    if v.len() == 0 {
        seq![]
    } else if !v.last().passed && v.last().severity == AuditSeverity::Critical {
        critical_failures(v.drop_last()).push(v.last().test_name)
    } else {
        critical_failures(v.drop_last())
    }
}

proof fn lemma_passed_le(v: Seq<AuditView>)
    ensures
        passed_in(v) <= v.len(),
    decreases v.len(),
{
    if v.len() > 0 {
        lemma_passed_le(v.drop_last());
    }
}

/// The report over all results taken at `timestamp`: how many passed and
/// failed, which critical ones failed, and whether none did.
pub fn audit_report(tests: Vec<AuditResult>, timestamp: String) -> (r: AuditReport)
    ensures
        audit_views(r.tests@) == audit_views(tests@),
        r.passed_count == passed_in(audit_views(tests@)),
        r.failed_count == tests@.len() - passed_in(audit_views(tests@)),
        crate::text::string_views(r.critical_failures@) == critical_failures(audit_views(tests@)),
        r.overall_pass == (critical_failures(audit_views(tests@)).len() == 0),
        r.timestamp@ == timestamp@,
{
    let ghost v = audit_views(tests@);
    let mut passed: usize = 0;
    let mut critical: Vec<String> = Vec::new();
    let mut i: usize = 0;
    assert(crate::text::string_views(critical@) =~= critical_failures(v.take(0)));
    while i < tests.len()
        invariant
            i <= tests@.len(),
            v == audit_views(tests@),
            passed == passed_in(v.take(i as int)),
            passed <= i,
            crate::text::string_views(critical@) == critical_failures(v.take(i as int)),
        decreases tests@.len() - i,
    {
        let t = &tests[i];
        proof {
            assert(v.take(i + 1).drop_last() =~= v.take(i as int));
            assert(v.take(i + 1).last() == t@);
        }
        if t.passed {
            passed = passed + 1;
        } else if t.severity == AuditSeverity::Critical {
            let ghost before = crate::text::string_views(critical@);
            critical.push(owned(t.test_name.as_str()));
            proof { assert(crate::text::string_views(critical@) =~= before.push(t.test_name@)); }
        }
        i = i + 1;
    }
    assert(v.take(tests@.len() as int) =~= v);
    let failed = tests.len() - passed;
    let overall_pass = critical.len() == 0;
    AuditReport { tests, passed_count: passed, failed_count: failed, critical_failures: critical, overall_pass, timestamp }
}

} // verus!
