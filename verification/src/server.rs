//! Request bodies of the HTTP API and the decisions the handlers make on
//! them: the language of a submission, the status filter of a listing, and
//! the Osmosis requests built from their inputs. Serving HTTP is left to the
//! caller.
use vstd::prelude::*;
use crate::text::{owned, push_str, str_eq, string_views};
use crate::capability::{grant_views, parse_one, capability_views, CapabilityRegistry};
use crate::provenance::Provenance;
use crate::types::api::{budget_from_request, VeeBudgetRequest};
use crate::types::capability::{clone_capability, Capability, CapabilityGrant, CapabilityView, GrantAuthority, GrantView};
use crate::types::schema::ExecutionHypothesis;
use crate::types::task::ExecutionTask;
use crate::types::budget::ExecutionBudget;
use crate::types::osmosis::{
    opt_str_view, OsmosisArtifactRef, OsmosisDiffFormat, OsmosisDiffRequest, OsmosisMergeRequest,
    OsmosisMergeStrategy, OsmosisRejectRequest,
};
use crate::types::result::ExecutionStatus;
use crate::types::task::ExecutionLanguage;

verus! {

broadcast use vstd::string::group_string_axioms;

#[derive(Debug, Clone)]
pub struct VeeExecutionIdInput {
    pub execution_id: String,
}

#[derive(Debug, Clone)]
pub struct VeeListInput {
    pub status: Option<String>,
    pub agent_id: Option<String>,
    pub limit: usize,
}

#[derive(Debug, Clone)]
pub struct VeePatternInput {
    pub tag: Option<String>,
    pub limit: usize,
}

#[derive(Debug, Clone)]
pub struct OdinSetModelInput {
    pub model: String,
}

#[derive(Debug, Clone)]
pub struct OsmosisDiffInput {
    pub left_execution_id: String,
    pub left_artifact_id: Option<String>,
    pub right_execution_id: Option<String>,
    pub right_artifact_id: Option<String>,
    pub target_path: Option<String>,
    pub format: Option<String>,
}

#[derive(Debug, Clone)]
pub struct OsmosisMergeInput {
    pub source_execution_id: String,
    pub source_artifact_id: Option<String>,
    pub target_path: String,
    pub strategy: Option<String>,
    pub base_execution_id: Option<String>,
    pub base_artifact_id: Option<String>,
}

#[derive(Debug, Clone)]
pub struct OsmosisRejectInput {
    pub source_execution_id: String,
    pub source_artifact_id: Option<String>,
    pub target_path: String,
    pub base_execution_id: Option<String>,
    pub base_artifact_id: Option<String>,
    pub reason: Option<String>,
}

/// The number of entries a listing returns when no limit is given.
pub fn default_vee_limit() -> (r: usize)
    ensures
        r == 50,
{
    50
}

/// The language a submission names; an unknown name is taken as Python.
pub open spec fn spec_parse_language(s: Seq<char>) -> ExecutionLanguage {
    if s == "rust"@ {
        ExecutionLanguage::Rust
    } else if s == "javascript"@ {
        ExecutionLanguage::JavaScript
    } else if s == "go"@ {
        ExecutionLanguage::Go
    } else if s == "bound"@ || s == "context_bundle"@ {
        ExecutionLanguage::ContextBundle
    } else if s == "shell"@ {
        ExecutionLanguage::Shell
    } else if s == "wasm"@ {
        ExecutionLanguage::Wasm
    } else {
        ExecutionLanguage::Python
    }
}

pub fn parse_language(s: &str) -> (r: ExecutionLanguage)
    ensures
        r == spec_parse_language(s@),
{
    if str_eq(s, "rust") {
        ExecutionLanguage::Rust
    } else if str_eq(s, "javascript") {
        ExecutionLanguage::JavaScript
    } else if str_eq(s, "go") {
        ExecutionLanguage::Go
    } else if str_eq(s, "bound") || str_eq(s, "context_bundle") {
        ExecutionLanguage::ContextBundle
    } else if str_eq(s, "shell") {
        ExecutionLanguage::Shell
    } else if str_eq(s, "wasm") {
        ExecutionLanguage::Wasm
    } else {
        ExecutionLanguage::Python
    }
}

/// The status a listing filters on; an unknown name filters on nothing.
pub open spec fn spec_status_filter(s: Seq<char>) -> Option<ExecutionStatus> {
    if s == "pending"@ {
        Some(ExecutionStatus::Pending)
    } else if s == "queued"@ {
        Some(ExecutionStatus::Queued)
    } else if s == "executing"@ {
        Some(ExecutionStatus::Executing)
    } else if s == "completed"@ {
        Some(ExecutionStatus::Completed)
    } else if s == "failed"@ {
        Some(ExecutionStatus::Failed)
    } else if s == "cancelled"@ {
        Some(ExecutionStatus::Cancelled)
    } else {
        None
    }
}

pub fn status_filter(s: &str) -> (r: Option<ExecutionStatus>)
    ensures
        r == spec_status_filter(s@),
{
    if str_eq(s, "pending") {
        Some(ExecutionStatus::Pending)
    } else if str_eq(s, "queued") {
        Some(ExecutionStatus::Queued)
    } else if str_eq(s, "executing") {
        Some(ExecutionStatus::Executing)
    } else if str_eq(s, "completed") {
        Some(ExecutionStatus::Completed)
    } else if str_eq(s, "failed") {
        Some(ExecutionStatus::Failed)
    } else if str_eq(s, "cancelled") {
        Some(ExecutionStatus::Cancelled)
    } else {
        None
    }
}

/// The budget of an Osmosis task.
pub fn osmosis_budget() -> (r: ExecutionBudget)
    ensures
        r == (ExecutionBudget { cpu_seconds: 10, memory_mb: 128, disk_mb: 10, token_budget: 0, wall_clock_seconds: 30 }),
{
    ExecutionBudget { cpu_seconds: 10, memory_mb: 128, disk_mb: 10, token_budget: 0, wall_clock_seconds: 30 }
}

pub open spec fn artifact_ref_is(r: OsmosisArtifactRef, execution_id: Seq<char>, artifact_id: Option<Seq<char>>) -> bool {
    r.execution_id@ == execution_id && opt_str_view(r.artifact_id) == artifact_id
}

pub open spec fn opt_ref_is(r: Option<OsmosisArtifactRef>, execution_id: Option<String>, artifact_id: Option<String>) -> bool {
    match execution_id {
        None => r is None,
        Some(id) => r is Some && artifact_ref_is(r->Some_0, id@, opt_str_view(artifact_id)),
    }
}

/// The diff request an input asks for: `unified` format when so named, the
/// structured format for any other name.
pub fn diff_request_from(input: OsmosisDiffInput) -> (r: OsmosisDiffRequest)
    ensures
        artifact_ref_is(r.left, input.left_execution_id@, opt_str_view(input.left_artifact_id)),
        opt_ref_is(r.right, input.right_execution_id, input.right_artifact_id),
        opt_str_view(r.target_path) == opt_str_view(input.target_path),
        r.format == match input.format {
            None => None,
            Some(f) => Some(if f@ == "unified"@ { OsmosisDiffFormat::Unified } else { OsmosisDiffFormat::Structured }),
        },
{
    let format = match &input.format {
        None => None,
        Some(f) => Some(if str_eq(f.as_str(), "unified") { OsmosisDiffFormat::Unified } else { OsmosisDiffFormat::Structured }),
    };
    let left = OsmosisArtifactRef { execution_id: input.left_execution_id, artifact_id: input.left_artifact_id };
    let right = match input.right_execution_id {
        Some(id) => Some(OsmosisArtifactRef { execution_id: id, artifact_id: input.right_artifact_id }),
        None => None,
    };
    OsmosisDiffRequest { left, right, target_path: input.target_path, format }
}

/// The merge request an input asks for: `append` when so named, overwrite
/// for any other strategy name.
pub fn merge_request_from(input: OsmosisMergeInput) -> (r: OsmosisMergeRequest)
    ensures
        artifact_ref_is(r.source, input.source_execution_id@, opt_str_view(input.source_artifact_id)),
        opt_ref_is(r.base, input.base_execution_id, input.base_artifact_id),
        r.target_path@ == input.target_path@,
        r.strategy == match input.strategy {
            None => None,
            Some(s) => Some(if s@ == "append"@ { OsmosisMergeStrategy::Append } else { OsmosisMergeStrategy::Overwrite }),
        },
{
    let strategy = match &input.strategy {
        None => None,
        Some(s) => Some(if str_eq(s.as_str(), "append") { OsmosisMergeStrategy::Append } else { OsmosisMergeStrategy::Overwrite }),
    };
    let source = OsmosisArtifactRef { execution_id: input.source_execution_id, artifact_id: input.source_artifact_id };
    let base = match input.base_execution_id {
        Some(id) => Some(OsmosisArtifactRef { execution_id: id, artifact_id: input.base_artifact_id }),
        None => None,
    };
    OsmosisMergeRequest { source, target_path: input.target_path, strategy, base }
}

/// The reject request an input asks for.
pub fn reject_request_from(input: OsmosisRejectInput) -> (r: OsmosisRejectRequest)
    ensures
        artifact_ref_is(r.source, input.source_execution_id@, opt_str_view(input.source_artifact_id)),
        opt_ref_is(r.base, input.base_execution_id, input.base_artifact_id),
        r.target_path@ == input.target_path@,
        opt_str_view(r.reason) == opt_str_view(input.reason),
{
    let source = OsmosisArtifactRef { execution_id: input.source_execution_id, artifact_id: input.source_artifact_id };
    let base = match input.base_execution_id {
        Some(id) => Some(OsmosisArtifactRef { execution_id: id, artifact_id: input.base_artifact_id }),
        None => None,
    };
    OsmosisRejectRequest { source, target_path: input.target_path, base, reason: input.reason }
}

// ─── Rate limiting ──────────────────────────────────────────────────────────

/// The routes whose requests count against the per-agent and per-project
/// execution limits.
pub open spec fn spec_rate_limited(path: Seq<char>) -> bool {
    path == "/vee/submit"@ || path == "/vee/diff"@ || path == "/vee/merge"@ || path == "/vee/reject"@
}

/// Whether a route's requests count against the execution limits.
pub fn is_rate_limited_path(path: &str) -> (r: bool)
    ensures
        r == spec_rate_limited(path@),
{
    str_eq(path, "/vee/submit") || str_eq(path, "/vee/diff") || str_eq(path, "/vee/merge") || str_eq(path, "/vee/reject")
}

/// The agent and project a submission's execution limits are kept for: the
/// body's `agent_id`, else `unknown`; the project header, else the body's
/// `project_id`, else the default project.
pub fn rate_limit_keys(header_project: Option<&str>, body_agent: Option<&str>, body_project: Option<&str>) -> (r: (
    String,
    String,
))
    ensures
        r.0@ == match body_agent {
            Some(a) => a@,
            None => "unknown"@,
        },
        r.1@ == match header_project {
            Some(p) => p@,
            None => match body_project {
                Some(p) => p@,
                None => crate::tenant::DEFAULT_PROJECT@,
            },
        },
{
    let agent = match body_agent {
        Some(a) => owned(a),
        None => owned("unknown"),
    };
    let project = match header_project {
        Some(p) => owned(p),
        None => match body_project {
            Some(p) => owned(p),
            None => owned(crate::tenant::DEFAULT_PROJECT),
        },
    };
    (agent, project)
}

/// The address a request comes from, given the peer's address and whether
/// it is a trusted proxy, and the `x-forwarded-for` entries, each as an
/// address and whether it is trusted, or none where the entry is not an
/// address. Behind a trusted proxy it is the rightmost untrusted forwarded
/// address; otherwise, or when there is none, the peer, or `127.0.0.1`
/// without one.
pub open spec fn spec_client_ip(
    peer: Option<(Seq<char>, bool)>,
    forwarded: Option<Seq<Option<(Seq<char>, bool)>>>,
) -> Seq<char> {
    let fallback = match peer {
        Some(p) => p.0,
        None => "127.0.0.1"@,
    };
    match (peer, forwarded) {
        (Some(p), Some(f)) if p.1 => match rightmost_untrusted(f) {
            Some(ip) => ip,
            None => fallback,
        },
        _ => fallback,
    }
}

/// The rightmost entry that is an untrusted address.
pub open spec fn rightmost_untrusted(f: Seq<Option<(Seq<char>, bool)>>) -> Option<Seq<char>>
    decreases f.len(),
{
    if f.len() == 0 {
        None
    } else {
        match f.last() {
            Some(e) if !e.1 => Some(e.0),
            _ => rightmost_untrusted(f.drop_last()),
        }
    }
}

pub open spec fn entry_view(e: Option<(String, bool)>) -> Option<(Seq<char>, bool)> {
    match e {
        Some(x) => Some((x.0@, x.1)),
        None => None,
    }
}

/// Determine the real client IP, respecting trusted proxies.
pub fn pick_client_ip(peer: Option<(String, bool)>, forwarded: Option<Vec<Option<(String, bool)>>>) -> (r: String)
    ensures
        r@ == spec_client_ip(
            entry_view(peer),
            match forwarded {
                Some(f) => Some(f@.map_values(|e: Option<(String, bool)>| entry_view(e))),
                None => None,
            },
        ),
{
    let fallback = match &peer {
        Some(p) => owned(p.0.as_str()),
        None => owned("127.0.0.1"),
    };
    let trusted = match &peer {
        Some(p) => p.1,
        None => false,
    };
    if !trusted {
        return fallback;
    }
    let f = match forwarded {
        Some(f) => f,
        None => return fallback,
    };
    let ghost fv = f@.map_values(|e: Option<(String, bool)>| entry_view(e));
    let ghost target = spec_client_ip(entry_view(peer), Some(fv));
    assert(target == match rightmost_untrusted(fv) { Some(ip) => ip, None => fallback@ });
    let mut i: usize = f.len();
    assert(fv.take(f@.len() as int) =~= fv);
    while i > 0
        invariant
            i <= f@.len(),
            fv == f@.map_values(|e: Option<(String, bool)>| entry_view(e)),
            rightmost_untrusted(fv) == rightmost_untrusted(fv.take(i as int)),
            target == match rightmost_untrusted(fv) { Some(ip) => ip, None => fallback@ },
            target == spec_client_ip(
                entry_view(peer),
                match forwarded {
                    Some(ff) => Some(ff@.map_values(|e: Option<(String, bool)>| entry_view(e))),
                    None => None,
                },
            ),
        decreases i,
    {
        proof {
            assert(fv.take(i as int).drop_last() =~= fv.take(i - 1));
            assert(fv.take(i as int).last() == fv[i - 1]);
        }
        match &f[i - 1] {
            Some(e) => {
                if !e.1 {
                    return owned(e.0.as_str());
                }
            },
            None => {},
        }
        i = i - 1;
    }
    proof { assert(fv.take(0) =~= Seq::<Option<(Seq<char>, bool)>>::empty()); }
    fallback
}

// ─── Submissions ────────────────────────────────────────────────────────────

/// The execution identifier made of `token`: `vee-` and the token.
pub fn execution_id_with(token: &str) -> (r: String)
    ensures
        r@ == "vee-"@ + token@,
{
    let mut id = owned("vee-");
    push_str(&mut id, token);
    id
}

/// A fresh execution identifier: `vee-` and a random version 4 UUID; none
/// when the operating system gives no randomness.
pub fn new_execution_id() -> (r: Option<String>)
    ensures
        r is Some ==> r->Some_0@.len() == 40 && r->Some_0@.take(4) == "vee-"@,
        r is Some ==> exists|token: Seq<char>| crate::capability::is_uuid_v4_text(token) && r->Some_0@ == "vee-"@ + token,
{
    proof { reveal_strlit("vee-"); }
    let u = match crate::capability::new_uuid() {
        Some(u) => u,
        None => return None,
    };
    let id = execution_id_with(u.as_str());
    assert(id@.take(4) =~= "vee-"@);
    Some(id)
}

/// Grant every capability to an execution on the orchestrator's authority,
/// in order. When a grant cannot be made (no clock, no randomness), the
/// grants made so far stay recorded and the refusal says why.
pub fn grant_all(registry: &mut CapabilityRegistry, execution_id: &str, capabilities: &Vec<Capability>) -> (r: Result<Vec<
    CapabilityGrant,
>, String>)
    ensures
        capabilities@.len() == 0 ==> r is Ok,
        r is Ok ==> r->Ok_0@.len() == capabilities@.len(),
        r is Ok ==> forall|i: int| 0 <= i < r->Ok_0@.len() ==> {
            &&& #[trigger] r->Ok_0@[i]@.capability == capabilities@[i]@
            &&& r->Ok_0@[i]@.execution_id == execution_id@
            &&& r->Ok_0@[i]@.granted
            &&& r->Ok_0@[i]@.granted_by == GrantAuthority::Orchestrator
            &&& r->Ok_0@[i]@.reason is None
        },
        r is Ok ==> final(registry).grants_for(execution_id@) == old(registry).grants_for(execution_id@) + grant_views(r->Ok_0@),
        r is Err ==> r->Err_0@ == crate::capability::clock_error() || r->Err_0@ == crate::capability::randomness_error(),
        forall|k: Seq<char>| k != execution_id@ ==> final(registry).grants_for(k) == old(registry).grants_for(k),
        final(registry).signing_seed() == old(registry).signing_seed(),
        final(registry).revoked_ids() == old(registry).revoked_ids(),
{
    let mut out: Vec<CapabilityGrant> = Vec::new();
    let mut i: usize = 0;
    assert(old(registry).grants_for(execution_id@) + grant_views(out@) =~= old(registry).grants_for(execution_id@));
    while i < capabilities.len()
        invariant
            i <= capabilities@.len(),
            out@.len() == i,
            forall|j: int| 0 <= j < i ==> {
                &&& #[trigger] out@[j]@.capability == capabilities@[j]@
                &&& out@[j]@.execution_id == execution_id@
                &&& out@[j]@.granted
                &&& out@[j]@.granted_by == GrantAuthority::Orchestrator
                &&& out@[j]@.reason is None
            },
            registry.grants_for(execution_id@) == old(registry).grants_for(execution_id@) + grant_views(out@),
            forall|k: Seq<char>| k != execution_id@ ==> registry.grants_for(k) == old(registry).grants_for(k),
            registry.signing_seed() == old(registry).signing_seed(),
            registry.revoked_ids() == old(registry).revoked_ids(),
        decreases capabilities@.len() - i,
    {
        let g = match registry.grant(execution_id, clone_capability(&capabilities[i]), GrantAuthority::Orchestrator, None) {
            Ok(g) => g,
            Err(e) => return Err(e),
        };
        let ghost before = grant_views(out@);
        out.push(g);
        proof {
            assert(grant_views(out@) =~= before.push(out@[i as int]@));
        }
        i = i + 1;
    }
    Ok(out)
}

/// The provenance a submission starts its lineage with: the genesis record
/// of its execution, not yet hashed.
pub open spec fn submission_provenance(
    execution_id: Seq<char>,
    agent_id: Seq<char>,
    source_code: Seq<char>,
    capabilities: Seq<Seq<char>>,
    created_at: Seq<char>,
    p: Provenance,
) -> bool {
    &&& p.artifact_id@ == "prov-"@ + execution_id
    &&& p.task_id@ == execution_id
    &&& p.execution_id@ == execution_id
    &&& p.creator_agent@ == agent_id
    &&& p.parent_artifacts@.len() == 0
    &&& p.code_generator@ == agent_id
    &&& p.executed_code@ == source_code
    &&& string_views(p.granted_capabilities@) == capabilities
    &&& p.created_at@ == created_at
    &&& p.previous_hash@ == "genesis"@
    &&& p.self_hash@.len() == 0
    &&& p.project_id is None
}

/// The task a submission becomes, made at `created_at` under the identifier
/// `execution_id`: its language and capabilities read from their names, a
/// grant of each capability recorded in the registry, its budget from the
/// request or the default, and its genesis provenance. It fails only when a
/// grant is made and the clock or the operating system's randomness fails.
pub fn submission_task(
    registry: &mut CapabilityRegistry,
    execution_id: String,
    run_id: Option<String>,
    agent_id: String,
    language: &str,
    source_code: String,
    capabilities: Vec<String>,
    budget: Option<VeeBudgetRequest>,
    hypothesis: Option<ExecutionHypothesis>,
    created_at: String,
) -> (r: Result<ExecutionTask, String>)
    ensures
        string_views(capabilities@).filter_map(|s: Seq<char>| parse_one(s)).len() == 0 ==> r is Ok,
        r is Err ==> r->Err_0@ == crate::capability::clock_error() || r->Err_0@ == crate::capability::randomness_error(),
        forall|k: Seq<char>| k != execution_id@ ==> final(registry).grants_for(k) == old(registry).grants_for(k),
        r is Ok ==> {
            let t = r->Ok_0;
            &&& t.execution_id@ == execution_id@
            &&& t.run_id == run_id
            &&& t.agent_id@ == agent_id@
            &&& t.source_code@ == source_code@
            &&& t.language == spec_parse_language(language@)
            &&& capability_views(t.capabilities@) == string_views(capabilities@).filter_map(|s: Seq<char>| parse_one(s))
            &&& t.capability_grants@.len() == t.capabilities@.len()
            &&& forall|i: int| 0 <= i < t.capability_grants@.len() ==> {
                &&& #[trigger] t.capability_grants@[i]@.capability == t.capabilities@[i]@
                &&& t.capability_grants@[i]@.execution_id == execution_id@
                &&& t.capability_grants@[i]@.granted
                &&& t.capability_grants@[i]@.granted_by == GrantAuthority::Orchestrator
                &&& t.capability_grants@[i]@.reason is None
            }
            &&& final(registry).grants_for(execution_id@) == old(registry).grants_for(execution_id@) + grant_views(t.capability_grants@)
            &&& t.budget == match budget {
                Some(b) => budget_from_request(b),
                None => ExecutionBudget { cpu_seconds: 0, memory_mb: 0, disk_mb: 0, token_budget: 0, wall_clock_seconds: 0 },
            }
            &&& t.hypothesis == hypothesis
            &&& submission_provenance(execution_id@, agent_id@, source_code@, string_views(capabilities@), created_at@, t.provenance)
            &&& t.project_id is None
        },
{
    let lang = parse_language(language);
    let caps = CapabilityRegistry::parse_capabilities(capabilities.as_slice());
    let grants = match grant_all(registry, execution_id.as_str(), &caps) {
        Ok(g) => g,
        Err(e) => return Err(e),
    };
    let b = match budget {
        Some(req) => ExecutionBudget::from(req),
        None => ExecutionBudget::default(),
    };
    let mut artifact_id = owned("prov-");
    push_str(&mut artifact_id, execution_id.as_str());
    let provenance = Provenance {
        artifact_id,
        task_id: owned(execution_id.as_str()),
        execution_id: owned(execution_id.as_str()),
        creator_agent: owned(agent_id.as_str()),
        parent_artifacts: Vec::new(),
        code_generator: owned(agent_id.as_str()),
        executed_code: owned(source_code.as_str()),
        granted_capabilities: crate::types::capability::clone_strings(&capabilities),
        created_at,
        previous_hash: owned("genesis"),
        self_hash: String::new(),
        project_id: None,
    };
    Ok(ExecutionTask {
        execution_id,
        run_id,
        agent_id,
        language: lang,
        source_code,
        capabilities: caps,
        capability_grants: grants,
        budget: b,
        hypothesis,
        provenance,
        project_id: None,
    })
}


/// The names of capabilities, in order.
fn capability_names(capabilities: &Vec<Capability>) -> (r: Vec<String>)
    ensures
        string_views(r@) == capabilities@.map_values(|c: Capability| crate::types::capability::capability_name(c)),
{
    let mut out: Vec<String> = Vec::new();
    let mut i: usize = 0;
    while i < capabilities.len()
        invariant
            i <= capabilities@.len(),
            string_views(out@) == capabilities@.take(i as int).map_values(|c: Capability| crate::types::capability::capability_name(c)),
        decreases capabilities@.len() - i,
    {
        let ghost before = out@;
        out.push(owned(capabilities[i].name()));
        proof {
            assert(capabilities@.take(i + 1) =~= capabilities@.take(i as int).push(capabilities@[i as int]));
            assert(string_views(out@) =~= string_views(before).push(out@[i as int]@));
        }
        i = i + 1;
    }
    proof { assert(capabilities@.take(capabilities@.len() as int) =~= capabilities@); }
    out
}

/// The task that carries an Osmosis operation: `payload` is the operation's
/// serialised form, run by agent `agent_id` with `capabilities`, each
/// granted to the task by the orchestrator, within the Osmosis budget. It
/// fails only when a grant is made and the clock or the operating system's
/// randomness fails.
pub fn osmosis_task(
    registry: &mut CapabilityRegistry,
    execution_id: String,
    agent_id: &str,
    payload: String,
    capabilities: Vec<Capability>,
    created_at: String,
) -> (r: Result<ExecutionTask, String>)
    ensures
        capabilities@.len() == 0 ==> r is Ok,
        r is Err ==> r->Err_0@ == crate::capability::clock_error() || r->Err_0@ == crate::capability::randomness_error(),
        forall|k: Seq<char>| k != execution_id@ ==> final(registry).grants_for(k) == old(registry).grants_for(k),
        r is Ok ==> {
            let t = r->Ok_0;
            &&& t.execution_id@ == execution_id@
            &&& t.run_id is None
            &&& t.agent_id@ == agent_id@
            &&& t.language == ExecutionLanguage::Osmosis
            &&& t.source_code@ == payload@
            &&& t.capabilities@ == capabilities@
            &&& t.capability_grants@.len() == t.capabilities@.len()
            &&& forall|i: int| 0 <= i < t.capability_grants@.len() ==> {
                &&& #[trigger] t.capability_grants@[i]@.capability == t.capabilities@[i]@
                &&& t.capability_grants@[i]@.execution_id == execution_id@
                &&& t.capability_grants@[i]@.granted
                &&& t.capability_grants@[i]@.granted_by == GrantAuthority::Orchestrator
                &&& t.capability_grants@[i]@.reason is None
            }
            &&& final(registry).grants_for(execution_id@) == old(registry).grants_for(execution_id@) + grant_views(t.capability_grants@)
            &&& t.budget == (ExecutionBudget { cpu_seconds: 10, memory_mb: 128, disk_mb: 10, token_budget: 0, wall_clock_seconds: 30 })
            &&& t.hypothesis is None
            &&& submission_provenance(
                execution_id@,
                agent_id@,
                payload@,
                capabilities@.map_values(|c: Capability| crate::types::capability::capability_name(c)),
                created_at@,
                t.provenance,
            )
            &&& t.project_id is None
        },
{
    let grants = match grant_all(registry, execution_id.as_str(), &capabilities) {
        Ok(g) => g,
        Err(e) => return Err(e),
    };
    let names = capability_names(&capabilities);
    let mut artifact_id = owned("prov-");
    push_str(&mut artifact_id, execution_id.as_str());
    let provenance = Provenance {
        artifact_id,
        task_id: owned(execution_id.as_str()),
        execution_id: owned(execution_id.as_str()),
        creator_agent: owned(agent_id),
        parent_artifacts: Vec::new(),
        code_generator: owned(agent_id),
        executed_code: owned(payload.as_str()),
        granted_capabilities: names,
        created_at,
        previous_hash: owned("genesis"),
        self_hash: String::new(),
        project_id: None,
    };
    Ok(ExecutionTask {
        execution_id,
        run_id: None,
        agent_id: owned(agent_id),
        language: ExecutionLanguage::Osmosis,
        source_code: payload,
        capabilities,
        capability_grants: grants,
        budget: osmosis_budget(),
        hypothesis: None,
        provenance,
        project_id: None,
    })
}

} // verus!
