//! Resource budgets for a single execution.
use vstd::prelude::*;

verus! {

/// Resource budget for a single execution. Enforced, not suggested.
#[derive(Debug, Clone, Copy, PartialEq, Eq, Structural)]
pub struct ExecutionBudget {
    /// CPU time limit (seconds)
    pub cpu_seconds: u64,
    /// Memory limit (megabytes)
    pub memory_mb: u64,
    /// Disk limit (megabytes)
    pub disk_mb: u64,
    /// Token budget for model calls during execution
    pub token_budget: u64,
    /// Maximum wall-clock time (seconds)
    pub wall_clock_seconds: u64,
}

impl Default for ExecutionBudget {
    fn default() -> (r: Self)
        ensures
            r == (ExecutionBudget { cpu_seconds: 0, memory_mb: 0, disk_mb: 0, token_budget: 0, wall_clock_seconds: 0 }),
    {
        ExecutionBudget { cpu_seconds: 0, memory_mb: 0, disk_mb: 0, token_budget: 0, wall_clock_seconds: 0 }
    }
}

} // verus!
