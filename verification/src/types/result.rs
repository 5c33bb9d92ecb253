//! Status and phase of an execution.
use vstd::prelude::*;
use crate::text::str_eq;

verus! {

#[derive(Debug, Clone, Copy, PartialEq, Eq, Structural)]
pub enum ExecutionStatus {
    Pending,
    Queued,
    Simulating,
    Executing,
    Validating,
    Completed,
    Failed,
    Recovered,
    Cancelled,
}

#[derive(Debug, Clone, Copy, PartialEq, Eq, Structural)]
pub enum ExecutionPhase {
    Hypothesis,
    Simulation,
    Execution,
    Validation,
    Feedback,
}

#[derive(Debug, Clone)]
pub struct ExecutionError {
    pub code: String,
    pub message: String,
    pub recoverable: bool,
    pub recovery_hint: Option<String>,
}

/// The stored name of a status: its variant name.
pub open spec fn status_label(s: ExecutionStatus) -> Seq<char> {
    match s {
        ExecutionStatus::Pending => "Pending"@,
        ExecutionStatus::Queued => "Queued"@,
        ExecutionStatus::Simulating => "Simulating"@,
        ExecutionStatus::Executing => "Executing"@,
        ExecutionStatus::Validating => "Validating"@,
        ExecutionStatus::Completed => "Completed"@,
        ExecutionStatus::Failed => "Failed"@,
        ExecutionStatus::Recovered => "Recovered"@,
        ExecutionStatus::Cancelled => "Cancelled"@,
    }
}

/// The stored name of a phase: its variant name.
pub open spec fn phase_label(p: ExecutionPhase) -> Seq<char> {
    match p {
        ExecutionPhase::Hypothesis => "Hypothesis"@,
        ExecutionPhase::Simulation => "Simulation"@,
        ExecutionPhase::Execution => "Execution"@,
        ExecutionPhase::Validation => "Validation"@,
        ExecutionPhase::Feedback => "Feedback"@,
    }
}

/// The status a stored name stands for; an unknown name reads as `Pending`.
pub open spec fn spec_parse_status(t: Seq<char>) -> ExecutionStatus {
    if t == "Queued"@ {
        ExecutionStatus::Queued
    } else if t == "Simulating"@ {
        ExecutionStatus::Simulating
    } else if t == "Executing"@ {
        ExecutionStatus::Executing
    } else if t == "Validating"@ {
        ExecutionStatus::Validating
    } else if t == "Completed"@ {
        ExecutionStatus::Completed
    } else if t == "Failed"@ {
        ExecutionStatus::Failed
    } else if t == "Recovered"@ {
        ExecutionStatus::Recovered
    } else if t == "Cancelled"@ {
        ExecutionStatus::Cancelled
    } else {
        ExecutionStatus::Pending
    }
}

/// The phase a stored name stands for; an unknown name reads as `Hypothesis`.
pub open spec fn spec_parse_phase(t: Seq<char>) -> ExecutionPhase {
    if t == "Simulation"@ {
        ExecutionPhase::Simulation
    } else if t == "Execution"@ {
        ExecutionPhase::Execution
    } else if t == "Validation"@ {
        ExecutionPhase::Validation
    } else if t == "Feedback"@ {
        ExecutionPhase::Feedback
    } else {
        ExecutionPhase::Hypothesis
    }
}

impl ExecutionStatus {
    /// The variant name, as stored.
    pub fn label(&self) -> (r: &'static str)
        ensures
            r@ == status_label(*self),
    {
        match self {
            ExecutionStatus::Pending => "Pending",
            ExecutionStatus::Queued => "Queued",
            ExecutionStatus::Simulating => "Simulating",
            ExecutionStatus::Executing => "Executing",
            ExecutionStatus::Validating => "Validating",
            ExecutionStatus::Completed => "Completed",
            ExecutionStatus::Failed => "Failed",
            ExecutionStatus::Recovered => "Recovered",
            ExecutionStatus::Cancelled => "Cancelled",
        }
    }
}

impl ExecutionPhase {
    /// The variant name, as stored.
    pub fn label(&self) -> (r: &'static str)
        ensures
            r@ == phase_label(*self),
    {
        match self {
            ExecutionPhase::Hypothesis => "Hypothesis",
            ExecutionPhase::Simulation => "Simulation",
            ExecutionPhase::Execution => "Execution",
            ExecutionPhase::Validation => "Validation",
            ExecutionPhase::Feedback => "Feedback",
        }
    }
}

/// The status a stored name stands for.
pub fn parse_status(s: &str) -> (r: ExecutionStatus)
    ensures
        r == spec_parse_status(s@),
{
    if str_eq(s, "Queued") {
        ExecutionStatus::Queued
    } else if str_eq(s, "Simulating") {
        ExecutionStatus::Simulating
    } else if str_eq(s, "Executing") {
        ExecutionStatus::Executing
    } else if str_eq(s, "Validating") {
        ExecutionStatus::Validating
    } else if str_eq(s, "Completed") {
        ExecutionStatus::Completed
    } else if str_eq(s, "Failed") {
        ExecutionStatus::Failed
    } else if str_eq(s, "Recovered") {
        ExecutionStatus::Recovered
    } else if str_eq(s, "Cancelled") {
        ExecutionStatus::Cancelled
    } else {
        ExecutionStatus::Pending
    }
}

/// The phase a stored name stands for.
pub fn parse_phase(s: &str) -> (r: ExecutionPhase)
    ensures
        r == spec_parse_phase(s@),
{
    if str_eq(s, "Simulation") {
        ExecutionPhase::Simulation
    } else if str_eq(s, "Execution") {
        ExecutionPhase::Execution
    } else if str_eq(s, "Validation") {
        ExecutionPhase::Validation
    } else if str_eq(s, "Feedback") {
        ExecutionPhase::Feedback
    } else {
        ExecutionPhase::Hypothesis
    }
}

/// A stored status reads back as the status that was stored.
pub proof fn lemma_status_round_trip(s: ExecutionStatus)
    ensures
        spec_parse_status(status_label(s)) == s,
{
    reveal_strlit("Pending");
    reveal_strlit("Queued");
    reveal_strlit("Simulating");
    reveal_strlit("Executing");
    reveal_strlit("Validating");
    reveal_strlit("Completed");
    reveal_strlit("Failed");
    reveal_strlit("Recovered");
    reveal_strlit("Cancelled");
    match s {
        ExecutionStatus::Pending => {
            assert("Pending"@.len() != "Queued"@.len());
            assert("Pending"@.len() != "Simulating"@.len());
            assert("Pending"@.len() != "Executing"@.len());
            assert("Pending"@.len() != "Validating"@.len());
            assert("Pending"@.len() != "Completed"@.len());
            assert("Pending"@.len() != "Failed"@.len());
            assert("Pending"@.len() != "Recovered"@.len());
            assert("Pending"@.len() != "Cancelled"@.len());
        },
        ExecutionStatus::Queued => {
        },
        ExecutionStatus::Simulating => {
            assert("Simulating"@.len() != "Queued"@.len());
        },
        ExecutionStatus::Executing => {
            assert("Executing"@.len() != "Queued"@.len());
            assert("Executing"@.len() != "Simulating"@.len());
        },
        ExecutionStatus::Validating => {
            assert("Validating"@.len() != "Queued"@.len());
            assert("Validating"@[0] != "Simulating"@[0]);
            assert("Validating"@.len() != "Executing"@.len());
        },
        ExecutionStatus::Completed => {
            assert("Completed"@.len() != "Queued"@.len());
            assert("Completed"@.len() != "Simulating"@.len());
            assert("Completed"@[0] != "Executing"@[0]);
            assert("Completed"@.len() != "Validating"@.len());
        },
        ExecutionStatus::Failed => {
            assert("Failed"@[0] != "Queued"@[0]);
            assert("Failed"@.len() != "Simulating"@.len());
            assert("Failed"@.len() != "Executing"@.len());
            assert("Failed"@.len() != "Validating"@.len());
            assert("Failed"@.len() != "Completed"@.len());
        },
        ExecutionStatus::Recovered => {
            assert("Recovered"@.len() != "Queued"@.len());
            assert("Recovered"@.len() != "Simulating"@.len());
            assert("Recovered"@[0] != "Executing"@[0]);
            assert("Recovered"@.len() != "Validating"@.len());
            assert("Recovered"@[0] != "Completed"@[0]);
            assert("Recovered"@.len() != "Failed"@.len());
        },
        ExecutionStatus::Cancelled => {
            assert("Cancelled"@.len() != "Queued"@.len());
            assert("Cancelled"@.len() != "Simulating"@.len());
            assert("Cancelled"@[0] != "Executing"@[0]);
            assert("Cancelled"@.len() != "Validating"@.len());
            assert("Cancelled"@[1] != "Completed"@[1]);
            assert("Cancelled"@.len() != "Failed"@.len());
            assert("Cancelled"@[0] != "Recovered"@[0]);
        },
    }
}

/// A stored phase reads back as the phase that was stored.
pub proof fn lemma_phase_round_trip(p: ExecutionPhase)
    ensures
        spec_parse_phase(phase_label(p)) == p,
{
    reveal_strlit("Hypothesis");
    reveal_strlit("Simulation");
    reveal_strlit("Execution");
    reveal_strlit("Validation");
    reveal_strlit("Feedback");
    match p {
        ExecutionPhase::Hypothesis => {
            assert("Hypothesis"@[0] != "Simulation"@[0]);
            assert("Hypothesis"@.len() != "Execution"@.len());
            assert("Hypothesis"@[0] != "Validation"@[0]);
            assert("Hypothesis"@.len() != "Feedback"@.len());
        },
        ExecutionPhase::Simulation => {
        },
        ExecutionPhase::Execution => {
            assert("Execution"@.len() != "Simulation"@.len());
        },
        ExecutionPhase::Validation => {
            assert("Validation"@[0] != "Simulation"@[0]);
            assert("Validation"@.len() != "Execution"@.len());
        },
        ExecutionPhase::Feedback => {
            assert("Feedback"@.len() != "Simulation"@.len());
            assert("Feedback"@.len() != "Execution"@.len());
            assert("Feedback"@.len() != "Validation"@.len());
        },
    }
}

} // verus!
