//! Request and response bodies of the execution API.
use vstd::prelude::*;
use crate::types::budget::ExecutionBudget;

verus! {

/// Budget fields of a submit request; each may be left out.
#[derive(Debug, Clone, Copy, PartialEq, Eq, Structural)]
pub struct VeeBudgetRequest {
    pub cpu_seconds: Option<u64>,
    pub memory_mb: Option<u64>,
    pub disk_mb: Option<u64>,
    pub token_budget: Option<u64>,
    pub wall_clock_seconds: Option<u64>,
}

impl Default for VeeBudgetRequest {
    fn default() -> (r: Self)
        ensures
            r == (VeeBudgetRequest { cpu_seconds: None, memory_mb: None, disk_mb: None, token_budget: None, wall_clock_seconds: None }),
    {
        VeeBudgetRequest { cpu_seconds: None, memory_mb: None, disk_mb: None, token_budget: None, wall_clock_seconds: None }
    }
}

pub open spec fn or_default(v: Option<u64>, d: u64) -> u64 {
    match v {
        Some(x) => x,
        None => d,
    }
}

/// The budget a request asks for, with the defaults 30 s of CPU, 512 MB of
/// memory, 100 MB of disk, 5000 tokens and 60 s of wall clock.
pub open spec fn budget_from_request(req: VeeBudgetRequest) -> ExecutionBudget {
    ExecutionBudget {
        cpu_seconds: or_default(req.cpu_seconds, 30),
        memory_mb: or_default(req.memory_mb, 512),
        disk_mb: or_default(req.disk_mb, 100),
        token_budget: or_default(req.token_budget, 5000),
        wall_clock_seconds: or_default(req.wall_clock_seconds, 60),
    }
}

fn value_or(v: Option<u64>, d: u64) -> (r: u64)
    ensures
        r == or_default(v, d),
{
    match v {
        Some(x) => x,
        None => d,
    }
}

impl From<VeeBudgetRequest> for ExecutionBudget {
    fn from(req: VeeBudgetRequest) -> (r: Self) {
        ExecutionBudget {
            cpu_seconds: value_or(req.cpu_seconds, 30),
            memory_mb: value_or(req.memory_mb, 512),
            disk_mb: value_or(req.disk_mb, 100),
            token_budget: value_or(req.token_budget, 5000),
            wall_clock_seconds: value_or(req.wall_clock_seconds, 60),
        }
    }
}

impl vstd::std_specs::convert::FromSpecImpl<VeeBudgetRequest> for ExecutionBudget {
    open spec fn obeys_from_spec() -> bool {
        true
    }

    open spec fn from_spec(v: VeeBudgetRequest) -> ExecutionBudget {
        budget_from_request(v)
    }
}

/// Reply to an accepted submission.
#[derive(Debug, Clone)]
pub struct VeeSubmitResponse {
    pub execution_id: String,
    pub status: String,
    pub estimated_start: String,
}

/// Counts shown on the dashboard.
#[derive(Debug, Clone, Copy, PartialEq, Eq, Structural)]
pub struct VeeDashboardStats {
    pub total: i64,
    pub completed: i64,
    pub failed: i64,
    pub pending: i64,
    pub avg_latency_ms: i64,
}

} // verus!
