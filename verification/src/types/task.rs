//! Languages an execution task can be written in.
use vstd::prelude::*;
use crate::text::owned;
use crate::provenance::Provenance;
use crate::types::budget::ExecutionBudget;
use crate::types::capability::{Capability, CapabilityGrant};
use crate::types::schema::ExecutionHypothesis;

verus! {

#[derive(Debug, Clone, Copy, PartialEq, Eq, Structural)]
pub enum ExecutionLanguage {
    Python,
    Rust,
    JavaScript,
    Go,
    ContextBundle,
    Shell,
    Wasm,
    Osmosis,
}

/// The lower-case name of a language.
pub open spec fn language_name(l: ExecutionLanguage) -> Seq<char> {
    match l {
        ExecutionLanguage::Python => "python"@,
        ExecutionLanguage::Rust => "rust"@,
        ExecutionLanguage::JavaScript => "javascript"@,
        ExecutionLanguage::Go => "go"@,
        ExecutionLanguage::ContextBundle => "context_bundle"@,
        ExecutionLanguage::Shell => "shell"@,
        ExecutionLanguage::Wasm => "wasm"@,
        ExecutionLanguage::Osmosis => "osmosis"@,
    }
}

impl ExecutionLanguage {
    /// The lower-case name of the language.
    pub fn to_string(&self) -> (r: String)
        ensures
            r@ == language_name(*self),
    {
        match self {
            ExecutionLanguage::Python => owned("python"),
            ExecutionLanguage::Rust => owned("rust"),
            ExecutionLanguage::JavaScript => owned("javascript"),
            ExecutionLanguage::Go => owned("go"),
            ExecutionLanguage::ContextBundle => owned("context_bundle"),
            ExecutionLanguage::Shell => owned("shell"),
            ExecutionLanguage::Wasm => owned("wasm"),
            ExecutionLanguage::Osmosis => owned("osmosis"),
        }
    }
}

/// A task submitted for execution.
#[derive(Debug, Clone)]
pub struct ExecutionTask {
    pub execution_id: String,
    pub run_id: Option<String>,
    pub agent_id: String,
    pub language: ExecutionLanguage,
    pub source_code: String,
    pub capabilities: Vec<Capability>,
    /// Signed capability grants issued by the orchestrator/authority. The
    /// executor daemon and each worker verify these before exercising a
    /// capability.
    pub capability_grants: Vec<CapabilityGrant>,
    pub budget: ExecutionBudget,
    pub hypothesis: Option<ExecutionHypothesis>,
    pub provenance: Provenance,
    /// The project the task belongs to; without one it runs in the
    /// `default` project.
    pub project_id: Option<String>,
}

} // verus!
