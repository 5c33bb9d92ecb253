//! Signatures by which execution patterns are matched.
use vstd::prelude::*;
use crate::types::task::ExecutionLanguage;

verus! {

#[derive(Debug, Clone)]
pub struct TaskSignature {
    pub language: ExecutionLanguage,
    pub intent_keywords: Vec<String>,
    pub required_capabilities: Vec<String>,
    /// From 1 to 10.
    pub estimated_complexity: u8,
}

} // verus!
