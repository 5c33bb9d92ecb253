//! Hypotheses about the data an execution produces, and the outcome of
//! checking them.
use vstd::prelude::*;
use std::collections::HashMap;

verus! {

/// What an execution is expected to produce.
#[derive(Debug, Clone)]
pub struct ExecutionHypothesis {
    pub expected_schema: Option<DataSchema>,
    pub expected_row_count: Option<Range<usize>>,
    pub expected_columns: Vec<String>,
    pub expected_types: HashMap<String, DataType>,
    pub invariants: Vec<String>,
}

#[derive(Debug, Clone)]
pub struct DataSchema {
    pub columns: Vec<ColumnDef>,
}

#[derive(Debug, Clone)]
pub struct ColumnDef {
    pub name: String,
    pub data_type: DataType,
    pub nullable: bool,
}

#[derive(Debug, Clone, Copy, PartialEq, Eq, Structural)]
pub enum DataType {
    String,
    Integer,
    Float,
    Boolean,
    DateTime,
    Json,
    Binary,
}

/// An inclusive range.
#[derive(Debug, Clone, Copy)]
pub struct Range<T> {
    pub min: T,
    pub max: T,
}

#[derive(Debug, Clone)]
pub struct ValidationCheck {
    pub name: String,
    pub passed: bool,
    pub detail: String,
}

#[derive(Debug, Clone)]
pub struct Deviation {
    pub field: String,
    pub expected: String,
    pub actual: String,
    pub severity: DeviationSeverity,
}

#[derive(Debug, Clone, Copy, PartialEq, Eq, Structural)]
pub enum DeviationSeverity {
    Minor,
    Major,
    Critical,
}

} // verus!
