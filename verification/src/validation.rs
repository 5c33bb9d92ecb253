//! Hypothesis validation: execution outputs checked against the stated
//! hypothesis (exit code, stderr, schema, column types, row counts and
//! invariants), and pattern extraction from successful executions.
//!
//! What is read from the sampled rows of a dataset (ordering, uniqueness and
//! nulls per column) is measured by the caller and handed in as facts.
use vstd::prelude::*;
use std::collections::HashMap;
use crate::auth::{lowercase, to_lower};
use crate::text::{contains, decimal, owned, push_char, push_str, str_contains, str_eq, string_views, usize_to_decimal, u64_to_decimal};
use crate::diff::{lines_of, text_lines};
use crate::types::budget::ExecutionBudget;
use crate::types::schema::{ColumnDef, DataType, Deviation, DeviationSeverity, ExecutionHypothesis, ValidationCheck};

verus! {

broadcast use vstd::string::group_string_axioms;

/// What the sampled values of one column of a dataset show.
#[derive(Debug, Clone, Copy)]
pub struct ColumnFacts {
    /// The sampled values of the column are in ascending order.
    pub sorted_ascending: bool,
    /// No sampled value of the column occurs twice.
    pub distinct: bool,
    /// No sampled value of the column is null.
    pub no_nulls: bool,
}

/// A dataset artifact as validation reads it: its schema, its row count, and
/// the facts measured on its sample, one per schema column.
#[derive(Debug, Clone)]
pub struct DatasetFacts {
    pub schema: Vec<ColumnDef>,
    pub row_count: usize,
    pub column_facts: Vec<ColumnFacts>,
    /// No sampled row occurs twice.
    pub rows_distinct: bool,
}

/// The kind of each artifact, with the facts of a dataset.
#[derive(Debug, Clone)]
pub enum ArtifactFacts {
    Text,
    Dataset(DatasetFacts),
    Image,
    Model,
    Json,
    Log,
    File,
}

/// The outcome of validation; the confidence score is derived from it.
#[derive(Debug, Clone)]
pub struct ValidationOutcome {
    pub hypothesis_validated: bool,
    pub checks: Vec<ValidationCheck>,
    pub deviations: Vec<Deviation>,
}

pub struct CheckView {
    pub name: Seq<char>,
    pub passed: bool,
    pub detail: Seq<char>,
}

pub struct DeviationView {
    pub field: Seq<char>,
    pub expected: Seq<char>,
    pub actual: Seq<char>,
    pub severity: DeviationSeverity,
}

pub open spec fn check_view(c: ValidationCheck) -> CheckView {
    CheckView { name: c.name@, passed: c.passed, detail: c.detail@ }
}

pub open spec fn deviation_view(d: Deviation) -> DeviationView {
    DeviationView { field: d.field@, expected: d.expected@, actual: d.actual@, severity: d.severity }
}

pub open spec fn checks_view(v: Seq<ValidationCheck>) -> Seq<CheckView> {
    v.map_values(|c: ValidationCheck| check_view(c))
}

pub open spec fn deviations_view(v: Seq<Deviation>) -> Seq<DeviationView> {
    v.map_values(|d: Deviation| deviation_view(d))
}

pub open spec fn facts_wf(a: Seq<ArtifactFacts>) -> bool {
    forall|i: int| 0 <= i < a.len() ==> match #[trigger] a[i] {
        ArtifactFacts::Dataset(d) => d.column_facts@.len() == d.schema@.len(),
        _ => true,
    }
}

// ─── Text helpers ───────────────────────────────────────────────────────────

pub open spec fn ascii_lower(c: char) -> char {
    if 'A' <= c <= 'Z' { ((c as u32) + 32) as char } else { c }
}

/// `char::to_ascii_uppercase`.
pub open spec fn ascii_upper(c: char) -> char {
    if 'a' <= c <= 'z' { ((c as u32) - 32) as char } else { c }
}

/// All characters of the text are ASCII.
pub open spec fn is_ascii_text(s: Seq<char>) -> bool {
    forall|i: int| 0 <= i < s.len() ==> (s[i] as u32) < 128
}

/// `str::to_ascii_uppercase`.
pub open spec fn ascii_upper_text(s: Seq<char>) -> Seq<char> {
    s.map_values(|c: char| ascii_upper(c))
}

/// `str::eq_ignore_ascii_case`.
pub open spec fn eq_ignore_ascii_case(a: Seq<char>, b: Seq<char>) -> bool {
    a.len() == b.len() && forall|i: int| 0 <= i < a.len() ==> ascii_lower(#[trigger] a[i]) == ascii_lower(b[i])
}

fn char_ascii_lower(c: char) -> (r: char)
    ensures
        r == ascii_lower(c),
{
    if 'A' <= c && c <= 'Z' {
        let u = (c as u32) + 32;
        proof { assert(0x61 <= u <= 0x7a); }
        crate::validation::u32_to_char(u)
    } else {
        c
    }
}

#[verifier::external_body]
fn u32_to_char(u: u32) -> (c: char)
    requires
        0x61 <= u <= 0x7a,
    ensures
        c == u as char,
{
    char::from_u32(u).unwrap()
}

fn eq_ascii_ci(a: &str, b: &str) -> (r: bool)
    ensures
        r == eq_ignore_ascii_case(a@, b@),
{
    let ca = crate::text::chars_of(a);
    let cb = crate::text::chars_of(b);
    if ca.len() != cb.len() {
        return false;
    }
    let mut i: usize = 0;
    while i < ca.len()
        invariant
            i <= ca@.len(),
            ca@.len() == cb@.len(),
            ca@ == a@,
            cb@ == b@,
            forall|k: int| 0 <= k < i ==> ascii_lower(#[trigger] ca@[k]) == ascii_lower(cb@[k]),
        decreases ca@.len() - i,
    {
        if char_ascii_lower(ca[i]) != char_ascii_lower(cb[i]) {
            return false;
        }
        i = i + 1;
    }
    true
}

/// Decimal notation of a signed integer.
pub open spec fn int_text(i: int) -> Seq<char> {
    if i < 0 { seq!['-'] + decimal((-i) as nat) } else { decimal(i as nat) }
}

/// `{:?}` of an optional exit code.
pub open spec fn debug_exit_code(c: Option<i32>) -> Seq<char> {
    match c {
        Some(v) => "Some("@ + int_text(v as int) + ")"@,
        None => "None"@,
    }
}

pub(crate) fn exit_code_text(c: Option<i32>) -> (r: String)
    ensures
        r@ == debug_exit_code(c),
{
    match c {
        None => owned("None"),
        Some(v) => {
            let mut s = owned("Some(");
            if v < 0 {
                push_char(&mut s, '-');
                let m: u64 = (-(v as i64)) as u64;
                let d = u64_to_decimal(m);
                push_str(&mut s, d.as_str());
            } else {
                let d = u64_to_decimal(v as u64);
                push_str(&mut s, d.as_str());
            }
            push_str(&mut s, ")");
            s
        },
    }
}

/// Items joined by `", "`.
pub open spec fn join_comma(v: Seq<Seq<char>>) -> Seq<char>
    decreases v.len(),
{
    if v.len() == 0 {
        seq![]
    } else if v.len() == 1 {
        v[0]
    } else {
        join_comma(v.drop_last()) + ", "@ + v.last()
    }
}

fn join_names(v: &Vec<String>) -> (r: String)
    ensures
        r@ == join_comma(string_views(v@)),
{
    let ghost sv = string_views(v@);
    let mut out = String::new();
    let mut i: usize = 0;
    while i < v.len()
        invariant
            i <= v@.len(),
            sv == string_views(v@),
            out@ == join_comma(sv.take(i as int)),
        decreases v@.len() - i,
    {
        proof {
            assert(sv.take(i + 1).drop_last() =~= sv.take(i as int));
            assert(sv[i as int] == v@[i as int]@);
        }
        if i > 0 {
            push_str(&mut out, ", ");
        }
        push_str(&mut out, v[i].as_str());
        proof {
            if i == 0 {
                assert(sv.take(1) =~= seq![sv[0]]);
                assert(out@ =~= sv[0]);
            }
        }
        i = i + 1;
    }
    assert(sv.take(sv.len() as int) =~= sv);
    out
}

/// What `{:?}` makes of a list of strings.
pub uninterp spec fn debug_strings(v: Seq<Seq<char>>) -> Seq<char>;

/// `Debug` of `Vec<String>` (`format!("{:?}", v)`): the list in brackets,
/// each string quoted and escaped. Its result is given the name
/// `debug_strings`; the escaping rules are not stated.
#[verifier::external_body]
fn debug_string_list(v: &Vec<String>) -> (r: String)
    ensures
        r@ == debug_strings(string_views(v@)),
{
    format!("{:?}", v)
}

/// `{:?}` of a data type: its variant name.
pub open spec fn data_type_name(t: DataType) -> Seq<char> {
    match t {
        DataType::String => "String"@,
        DataType::Integer => "Integer"@,
        DataType::Float => "Float"@,
        DataType::Boolean => "Boolean"@,
        DataType::DateTime => "DateTime"@,
        DataType::Json => "Json"@,
        DataType::Binary => "Binary"@,
    }
}

fn data_type_text(t: DataType) -> (r: String)
    ensures
        r@ == data_type_name(t),
{
    match t {
        DataType::String => owned("String"),
        DataType::Integer => owned("Integer"),
        DataType::Float => owned("Float"),
        DataType::Boolean => owned("Boolean"),
        DataType::DateTime => owned("DateTime"),
        DataType::Json => owned("Json"),
        DataType::Binary => owned("Binary"),
    }
}

/// Data types match when they are equal, or when one is an integer and the
/// other a float.
pub open spec fn spec_data_type_eq(a: DataType, b: DataType) -> bool {
    a == b || (a == DataType::Integer && b == DataType::Float) || (a == DataType::Float && b == DataType::Integer)
}

/// Compare two data types with fuzzy matching.
pub fn data_type_eq(a: &DataType, b: &DataType) -> (r: bool)
    ensures
        r == spec_data_type_eq(*a, *b),
{
    match (a, b) {
        (DataType::String, DataType::String) => true,
        (DataType::Integer, DataType::Integer) => true,
        (DataType::Integer, DataType::Float) => true,
        (DataType::Float, DataType::Float) => true,
        (DataType::Float, DataType::Integer) => true,
        (DataType::Boolean, DataType::Boolean) => true,
        (DataType::DateTime, DataType::DateTime) => true,
        (DataType::Json, DataType::Json) => true,
        (DataType::Binary, DataType::Binary) => true,
        _ => false,
    }
}

// ─── Invariants ─────────────────────────────────────────────────────────────

/// The first schema column whose lower-cased name occurs in the
/// (lower-cased) invariant.
#[verifier::opaque]
pub open spec fn first_named_column(lower_invariant: Seq<char>, schema: Seq<ColumnDef>) -> Option<int> {
    if exists|j: int| 0 <= j < schema.len() && contains(lower_invariant, to_lower(#[trigger] schema[j].name@)) {
        Some(choose|j: int| 0 <= j < schema.len() && contains(lower_invariant, to_lower(#[trigger] schema[j].name@))
            && forall|k: int| 0 <= k < j ==> !contains(lower_invariant, to_lower(#[trigger] schema[k].name@)))
    } else {
        None
    }
}

/// The name of the first schema column whose lower-cased name occurs in the
/// lower-cased invariant.
pub fn extract_column_name(lower_invariant: &str, schema: &Vec<ColumnDef>) -> (r: Option<usize>)
    ensures
        r is Some ==> r->Some_0 < schema@.len(),
        match r {
            Some(j) => first_named_column(lower_invariant@, schema@) == Some(j as int),
            None => first_named_column(lower_invariant@, schema@) is None,
        },
{
    proof { reveal(first_named_column); }
    let mut j: usize = 0;
    while j < schema.len()
        invariant
            j <= schema@.len(),
            forall|k: int| 0 <= k < j ==> !contains(lower_invariant@, to_lower(#[trigger] schema@[k].name@)),
        decreases schema@.len() - j,
    {
        let l = lowercase(schema[j].name.as_str());
        if str_contains(lower_invariant, l.as_str()) {
            proof {
                reveal(first_named_column);
                let c = choose|c: int| 0 <= c < schema@.len() && contains(lower_invariant@, to_lower(#[trigger] schema@[c].name@))
                    && forall|k: int| 0 <= k < c ==> !contains(lower_invariant@, to_lower(#[trigger] schema@[k].name@));
                assert(contains(lower_invariant@, to_lower(schema@[j as int].name@)));
                if c < j {
                    assert(!contains(lower_invariant@, to_lower(schema@[c].name@)));
                }
                if c > j {
                    assert(!contains(lower_invariant@, to_lower(schema@[j as int].name@)));
                }
            }
            return Some(j);
        }
        j = j + 1;
    }
    None
}

#[verifier::opaque]
pub open spec fn first_dataset(a: Seq<ArtifactFacts>) -> Option<int> {
    if exists|i: int| 0 <= i < a.len() && #[trigger] a[i] is Dataset {
        Some(choose|i: int| 0 <= i < a.len() && #[trigger] a[i] is Dataset && forall|k: int| 0 <= k < i ==> !(#[trigger] a[k] is Dataset))
    } else {
        None
    }
}

/// The verdict on one invariant, and its explanation. Only the first
/// dataset is read; an invariant of a kind that is not recognised is taken
/// to hold.
pub open spec fn spec_check_invariant(inv: Seq<char>, artifacts: Seq<ArtifactFacts>) -> (bool, Seq<char>) {
    let lower = to_lower(inv);
    match first_dataset(artifacts) {
        None => (false, "Invariant '"@ + inv + "' requires a dataset artifact but none was produced"@),
        Some(i) => {
            let d = artifacts[i]->Dataset_0;
            let col = first_named_column(lower, d.schema@);
            if contains(lower, "sorted"@) && contains(lower, "ascending"@) {
                match col {
                    None => (false, "Invariant '"@ + inv + "' specifies sorting but no matching column found"@),
                    Some(j) => {
                        let ok = d.column_facts@[j].sorted_ascending;
                        let name = d.schema@[j].name@;
                        (ok, if ok { "Column '"@ + name + "' is sorted ascending"@ } else { "Column '"@ + name + "' is not sorted ascending"@ })
                    },
                }
            } else if contains(lower, "no duplicate"@) || contains(lower, "unique"@) {
                let ok = match col {
                    Some(j) => d.column_facts@[j].distinct,
                    None => d.rows_distinct,
                };
                (ok, if ok { "No duplicate values found"@ } else { "Duplicate values found"@ })
            } else if contains(lower, "no null"@) {
                match col {
                    None => (false, "Invariant '"@ + inv + "' specifies no-null but no matching column found"@),
                    Some(j) => {
                        let ok = d.column_facts@[j].no_nulls;
                        let name = d.schema@[j].name@;
                        (ok, if ok { "Column '"@ + name + "' has no null values"@ } else { "Column '"@ + name + "' contains null values"@ })
                    },
                }
            } else {
                (true, "Invariant '"@ + inv + "' not specifically checked \u{2014} assumed valid"@)
            }
        },
    }
}

/// The dataset and column a statement is judged against: `i` is the first
/// dataset among the artifacts, `j` the first of its columns whose
/// lower-cased name occurs in the lower-cased statement.
pub open spec fn judged_column(inv: Seq<char>, a: Seq<ArtifactFacts>, i: int, j: int) -> bool {
    &&& 0 <= i < a.len()
    &&& a[i] is Dataset
    &&& forall|k: int| 0 <= k < i ==> !(#[trigger] a[k] is Dataset)
    &&& 0 <= j < a[i]->Dataset_0.schema@.len()
    &&& contains(to_lower(inv), to_lower(a[i]->Dataset_0.schema@[j].name@))
    &&& forall|k: int| 0 <= k < j ==> !contains(to_lower(inv), to_lower(#[trigger] a[i]->Dataset_0.schema@[k].name@))
}

proof fn lemma_judged_column(inv: Seq<char>, a: Seq<ArtifactFacts>, i: int, j: int)
    requires
        judged_column(inv, a, i, j),
    ensures
        first_dataset(a) == Some(i),
        first_named_column(to_lower(inv), a[i]->Dataset_0.schema@) == Some(j),
{
    reveal(first_dataset);
    reveal(first_named_column);
    let c = choose|c: int| 0 <= c < a.len() && #[trigger] a[c] is Dataset && forall|k: int| 0 <= k < c ==> !(#[trigger] a[k] is Dataset);
    assert(a[i] is Dataset);
    if c < i {
        assert(!(a[c] is Dataset));
    }
    if c > i {
        assert(!(a[i] is Dataset));
    }
    let sc = a[i]->Dataset_0.schema@;
    let lower = to_lower(inv);
    assert(contains(lower, to_lower(sc[j].name@)));
    let x = choose|x: int| 0 <= x < sc.len() && contains(lower, to_lower(#[trigger] sc[x].name@))
        && forall|k: int| 0 <= k < x ==> !contains(lower, to_lower(#[trigger] sc[k].name@));
    if x < j {
        assert(!contains(lower, to_lower(sc[x].name@)));
    }
    if x > j {
        assert(!contains(lower, to_lower(sc[j].name@)));
    }
}

/// A statement that asks for a sorted column (its lower case holds
/// `sorted` and `ascending`) is judged by the sortedness of the column it
/// names in the first dataset, whatever that column's null and uniqueness
/// facts, and the explanation names the column and the verdict.
pub proof fn lemma_sorted_invariant_verdict(inv: Seq<char>, a: Seq<ArtifactFacts>, i: int, j: int)
    requires
        judged_column(inv, a, i, j),
        contains(to_lower(inv), "sorted"@),
        contains(to_lower(inv), "ascending"@),
    ensures
        ({
            let d = a[i]->Dataset_0;
            let name = d.schema@[j].name@;
            let r = spec_check_invariant(inv, a);
            &&& r.0 == d.column_facts@[j].sorted_ascending
            &&& r.1 == (if d.column_facts@[j].sorted_ascending {
                "Column '"@ + name + "' is sorted ascending"@
            } else {
                "Column '"@ + name + "' is not sorted ascending"@
            })
        }),
{
    lemma_judged_column(inv, a, i, j);
}

/// A statement that asks for no nulls (and not for sorting) is judged by
/// the null fact of the column it names in the first dataset, whatever its
/// order and uniqueness.
pub proof fn lemma_no_null_invariant_verdict(inv: Seq<char>, a: Seq<ArtifactFacts>, i: int, j: int)
    requires
        judged_column(inv, a, i, j),
        !(contains(to_lower(inv), "sorted"@) && contains(to_lower(inv), "ascending"@)),
        !contains(to_lower(inv), "no duplicate"@),
        !contains(to_lower(inv), "unique"@),
        contains(to_lower(inv), "no null"@),
    ensures
        spec_check_invariant(inv, a).0 == a[i]->Dataset_0.column_facts@[j].no_nulls,
{
    lemma_judged_column(inv, a, i, j);
}

/// A statement that asks for uniqueness (and not for sorting) is judged by
/// the distinctness of the column it names in the first dataset.
pub proof fn lemma_unique_invariant_verdict(inv: Seq<char>, a: Seq<ArtifactFacts>, i: int, j: int)
    requires
        judged_column(inv, a, i, j),
        !(contains(to_lower(inv), "sorted"@) && contains(to_lower(inv), "ascending"@)),
        contains(to_lower(inv), "no duplicate"@) || contains(to_lower(inv), "unique"@),
    ensures
        spec_check_invariant(inv, a).0 == a[i]->Dataset_0.column_facts@[j].distinct,
{
    lemma_judged_column(inv, a, i, j);
}

fn quoted(prefix: &str, middle: &str, suffix: &str) -> (r: String)
    ensures
        r@ == prefix@ + middle@ + suffix@,
{
    let mut s = owned(prefix);
    push_str(&mut s, middle);
    push_str(&mut s, suffix);
    s
}

fn find_first_dataset(artifacts: &Vec<ArtifactFacts>) -> (r: Option<usize>)
    ensures
        r is Some ==> r->Some_0 < artifacts@.len() && artifacts@[r->Some_0 as int] is Dataset,
        match r {
            Some(i) => first_dataset(artifacts@) == Some(i as int),
            None => first_dataset(artifacts@) is None,
        },
{
    proof { reveal(first_dataset); }
    let mut i: usize = 0;
    while i < artifacts.len()
        invariant
            i <= artifacts@.len(),
            forall|k: int| 0 <= k < i ==> !(#[trigger] artifacts@[k] is Dataset),
        decreases artifacts@.len() - i,
    {
        if let ArtifactFacts::Dataset(_) = &artifacts[i] {
            proof {
                reveal(first_dataset);
                let c = choose|c: int| 0 <= c < artifacts@.len() && #[trigger] artifacts@[c] is Dataset && forall|k: int| 0 <= k < c ==> !(#[trigger] artifacts@[k] is Dataset);
                assert(artifacts@[i as int] is Dataset);
                if c < i {
                    assert(!(artifacts@[c] is Dataset));
                }
                if c > i {
                    assert(!(artifacts@[i as int] is Dataset));
                }
            }
            return Some(i);
        }
        i = i + 1;
    }
    None
}

/// Check a single invariant against the artifacts.
pub fn check_invariant(statement: &str, artifacts: &Vec<ArtifactFacts>) -> (r: (bool, String))
    requires
        facts_wf(artifacts@),
    ensures
        (r.0, r.1@) == spec_check_invariant(statement@, artifacts@),
{
    let lower = lowercase(statement);
    let first = find_first_dataset(artifacts);
    let i = match first {
        None => {
            return (false, quoted("Invariant '", statement, "' requires a dataset artifact but none was produced"));
        },
        Some(i) => i,
    };
    let d = match &artifacts[i] {
        ArtifactFacts::Dataset(d) => d,
        _ => {
            proof { assert(false); }
            return (false, String::new());
        },
    };
    proof {
        assert(artifacts@[i as int] matches ArtifactFacts::Dataset(x) && x == *d);
        assert(d.column_facts@.len() == d.schema@.len());
    }
    let col = extract_column_name(lower.as_str(), &d.schema);
    proof {
        assert(first_dataset(artifacts@) == Some(i as int));
        assert(artifacts@[i as int]->Dataset_0 == *d);
        assert(lower@ == to_lower(statement@));
    }
    if str_contains(lower.as_str(), "sorted") && str_contains(lower.as_str(), "ascending") {
        match col {
            None => (false, quoted("Invariant '", statement, "' specifies sorting but no matching column found")),
            Some(j) => {
                let ok = d.column_facts[j].sorted_ascending;
                let name = d.schema[j].name.as_str();
                if ok {
                    (true, quoted("Column '", name, "' is sorted ascending"))
                } else {
                    (false, quoted("Column '", name, "' is not sorted ascending"))
                }
            },
        }
    } else if str_contains(lower.as_str(), "no duplicate") || str_contains(lower.as_str(), "unique") {
        let ok = match col {
            Some(j) => d.column_facts[j].distinct,
            None => d.rows_distinct,
        };
        if ok {
            (true, owned("No duplicate values found"))
        } else {
            (false, owned("Duplicate values found"))
        }
    } else if str_contains(lower.as_str(), "no null") {
        match col {
            None => (false, quoted("Invariant '", statement, "' specifies no-null but no matching column found")),
            Some(j) => {
                let ok = d.column_facts[j].no_nulls;
                let name = d.schema[j].name.as_str();
                if ok {
                    (true, quoted("Column '", name, "' has no null values"))
                } else {
                    (false, quoted("Column '", name, "' contains null values"))
                }
            },
        }
    } else {
        (true, quoted("Invariant '", statement, "' not specifically checked \u{2014} assumed valid"))
    }
}

// ─── Validation ─────────────────────────────────────────────────────────────

pub open spec fn ck(name: Seq<char>, passed: bool, detail: Seq<char>) -> CheckView {
    CheckView { name, passed, detail }
}

pub open spec fn dev(field: Seq<char>, expected: Seq<char>, actual: Seq<char>, severity: DeviationSeverity) -> DeviationView {
    DeviationView { field, expected, actual, severity }
}

/// Checks and deviations, in the order they are reported.
pub struct Report {
    pub checks: Seq<CheckView>,
    pub devs: Seq<DeviationView>,
}

pub open spec fn rep(checks: Seq<CheckView>, devs: Seq<DeviationView>) -> Report {
    Report { checks, devs }
}

pub open spec fn cat(a: Report, b: Report) -> Report {
    Report { checks: a.checks + b.checks, devs: a.devs + b.devs }
}

pub open spec fn empty_report() -> Report {
    Report { checks: seq![], devs: seq![] }
}

pub open spec fn exit_report(code: Option<i32>) -> Report {
    if code == Some(0i32) {
        rep(seq![ck("exit_code_zero"@, true, "Process exited with code 0"@)], seq![])
    } else {
        rep(
            seq![ck("exit_code_zero"@, false, "Process exited with code "@ + debug_exit_code(code))],
            seq![dev("exit_code"@, "0"@, debug_exit_code(code), DeviationSeverity::Critical)],
        )
    }
}

pub open spec fn stderr_report(stderr: Seq<char>) -> Report {
    let l = to_lower(stderr);
    if !contains(l, "error"@) && !contains(l, "traceback"@) {
        rep(seq![ck("stderr_clean"@, true, "No errors in stderr"@)], seq![])
    } else {
        rep(
            seq![ck("stderr_clean"@, false, "Errors detected in stderr output"@)],
            seq![dev("stderr"@, "no errors"@, "errors found"@, DeviationSeverity::Major)],
        )
    }
}

pub open spec fn column_names(schema: Seq<ColumnDef>) -> Seq<Seq<char>> {
    schema.map_values(|c: ColumnDef| c.name@)
}

pub open spec fn column_report(names: Seq<Seq<char>>, col: Seq<char>) -> Report {
    let found = exists|k: int| 0 <= k < names.len() && eq_ignore_ascii_case(#[trigger] names[k], col);
    if found {
        rep(seq![ck("column_"@ + col, true, "Column '"@ + col + "' found in schema"@)], seq![])
    } else {
        rep(
            seq![ck("column_"@ + col, false, "Column '"@ + col + "' missing from schema "@ + debug_strings(names))],
            seq![dev("column."@ + col, col, join_comma(names), DeviationSeverity::Major)],
        )
    }
}

pub open spec fn columns_report(names: Seq<Seq<char>>, cols: Seq<Seq<char>>) -> Report
    decreases cols.len(),
{
    if cols.len() == 0 {
        empty_report()
    } else {
        cat(columns_report(names, cols.drop_last()), column_report(names, cols.last()))
    }
}

/// The first schema column whose name equals `name` up to ASCII case.
#[verifier::opaque]
pub open spec fn first_column_named(schema: Seq<ColumnDef>, name: Seq<char>) -> Option<int> {
    if exists|j: int| 0 <= j < schema.len() && eq_ignore_ascii_case(#[trigger] schema[j].name@, name) {
        Some(choose|j: int| 0 <= j < schema.len() && eq_ignore_ascii_case(#[trigger] schema[j].name@, name)
            && forall|k: int| 0 <= k < j ==> !eq_ignore_ascii_case(#[trigger] schema[k].name@, name))
    } else {
        None
    }
}

pub open spec fn type_report(schema: Seq<ColumnDef>, name: Seq<char>, t: DataType) -> Report {
    match first_column_named(schema, name) {
        Some(j) => {
            let actual = schema[j].data_type;
            if spec_data_type_eq(actual, t) {
                rep(seq![ck("type_"@ + name, true, "Column '"@ + name + "' has expected type"@)], seq![])
            } else {
                rep(
                    seq![ck("type_"@ + name, false, "Column '"@ + name + "' type mismatch"@)],
                    seq![dev("type."@ + name, data_type_name(t), data_type_name(actual), DeviationSeverity::Major)],
                )
            }
        },
        None => rep(seq![ck("type_"@ + name, false, "Column '"@ + name + "' not found for type check"@)], seq![]),
    }
}

pub open spec fn types_report(schema: Seq<ColumnDef>, entries: Seq<(String, DataType)>) -> Report
    decreases entries.len(),
{
    if entries.len() == 0 {
        empty_report()
    } else {
        cat(types_report(schema, entries.drop_last()), type_report(schema, entries.last().0@, entries.last().1))
    }
}

pub open spec fn dataset_report(d: DatasetFacts, cols: Seq<Seq<char>>, entries: Seq<(String, DataType)>) -> Report {
    cat(columns_report(column_names(d.schema@), cols), types_report(d.schema@, entries))
}

/// The datasets among the artifacts, in order.
pub open spec fn datasets(a: Seq<ArtifactFacts>) -> Seq<DatasetFacts>
    decreases a.len(),
{
    if a.len() == 0 {
        seq![]
    } else {
        match a.last() {
            ArtifactFacts::Dataset(d) => datasets(a.drop_last()).push(d),
            _ => datasets(a.drop_last()),
        }
    }
}

pub open spec fn datasets_report(ds: Seq<DatasetFacts>, cols: Seq<Seq<char>>, entries: Seq<(String, DataType)>) -> Report
    decreases ds.len(),
{
    if ds.len() == 0 {
        empty_report()
    } else {
        cat(datasets_report(ds.drop_last(), cols, entries), dataset_report(ds.last(), cols, entries))
    }
}

pub open spec fn schema_report(a: Seq<ArtifactFacts>, h: ExecutionHypothesis, entries: Seq<(String, DataType)>) -> Report {
    let cols = string_views(h.expected_columns@);
    if cols.len() != 0 || h.expected_schema is Some {
        let ds = datasets(a);
        if ds.len() == 0 {
            rep(
                seq![ck("dataset_produced"@, false, "No dataset artifact produced but hypothesis expects one"@)],
                seq![dev("dataset"@, "dataset artifact"@, "none"@, DeviationSeverity::Critical)],
            )
        } else {
            cat(
                rep(seq![ck("dataset_produced"@, true, decimal(ds.len()) + " dataset artifact(s) produced"@)], seq![]),
                datasets_report(ds, cols, entries),
            )
        }
    } else {
        empty_report()
    }
}

pub open spec fn total_rows(ds: Seq<DatasetFacts>) -> nat
    decreases ds.len(),
{
    if ds.len() == 0 {
        0
    } else {
        total_rows(ds.drop_last()) + ds.last().row_count as nat
    }
}

pub open spec fn rows_report(a: Seq<ArtifactFacts>, h: ExecutionHypothesis) -> Report {
    match h.expected_row_count {
        None => empty_report(),
        Some(range) => {
            let ds = datasets(a);
            if ds.len() == 0 {
                rep(seq![ck("row_count"@, false, "No dataset to check row count"@)], seq![])
            } else {
                let t = total_rows(ds);
                let ok = range.min <= t && t <= range.max;
                let expected = decimal(range.min as nat) + "-"@ + decimal(range.max as nat);
                let c = ck("row_count"@, ok, "Total rows: "@ + decimal(t) + " (expected "@ + expected + ")"@);
                if ok {
                    rep(seq![c], seq![])
                } else {
                    rep(seq![c], seq![dev("row_count"@, expected, decimal(t), DeviationSeverity::Major)])
                }
            }
        },
    }
}

pub open spec fn invariant_report(inv: Seq<char>, a: Seq<ArtifactFacts>) -> Report {
    let (passed, detail) = spec_check_invariant(inv, a);
    if passed {
        rep(seq![ck("invariant: "@ + inv, true, detail)], seq![])
    } else {
        rep(
            seq![ck("invariant: "@ + inv, false, detail)],
            seq![dev("invariant."@ + inv, "true"@, "false"@, DeviationSeverity::Major)],
        )
    }
}

pub open spec fn invariants_report(invs: Seq<Seq<char>>, a: Seq<ArtifactFacts>) -> Report
    decreases invs.len(),
{
    if invs.len() == 0 {
        empty_report()
    } else {
        cat(invariants_report(invs.drop_last(), a), invariant_report(invs.last(), a))
    }
}

/// Everything validation reports, in order: exit code, stderr, schema and
/// column types, row count, invariants. `entries` are the expected types in
/// the order the hypothesis' map gives them.
pub open spec fn spec_validate(a: Seq<ArtifactFacts>, h: ExecutionHypothesis, stderr: Seq<char>, code: Option<i32>, entries: Seq<(String, DataType)>) -> Report {
    cat(cat(cat(cat(exit_report(code), stderr_report(stderr)), schema_report(a, h, entries)), rows_report(a, h)), invariants_report(string_views(h.invariants@), a))
}

/// Validation reports the stderr check second, right after the exit code:
/// it passes exactly when the lower-cased stderr mentions neither `error`
/// nor `traceback`. When it mentions either, a major `stderr` deviation is
/// reported and some check fails, so the hypothesis is not validated.
pub proof fn lemma_stderr_verdict(
    a: Seq<ArtifactFacts>,
    h: ExecutionHypothesis,
    stderr: Seq<char>,
    code: Option<i32>,
    entries: Seq<(String, DataType)>,
)
    ensures
        ({
            let r = spec_validate(a, h, stderr, code, entries);
            let l = to_lower(stderr);
            let dirty = contains(l, "error"@) || contains(l, "traceback"@);
            &&& r.checks.len() >= 2
            &&& r.checks[1].name == "stderr_clean"@
            &&& r.checks[1].passed == !dirty
            &&& dirty ==> r.devs.contains(dev("stderr"@, "no errors"@, "errors found"@, DeviationSeverity::Major))
            &&& dirty ==> exists|i: int| 0 <= i < r.checks.len() && !(#[trigger] r.checks[i]).passed
        }),
{
    let e = exit_report(code);
    let st = stderr_report(stderr);
    let r = spec_validate(a, h, stderr, code, entries);
    let l = to_lower(stderr);
    let dirty = contains(l, "error"@) || contains(l, "traceback"@);
    assert(e.checks.len() == 1);
    assert(st.checks.len() == 1);
    assert(r.checks[1] == st.checks[0]);
    if dirty {
        let k = e.devs.len() as int;
        assert(r.devs[k] == st.devs[0]);
        assert(r.devs.contains(dev("stderr"@, "no errors"@, "errors found"@, DeviationSeverity::Major)));
        assert(!r.checks[1].passed);
    }
}

/// `HashMap::iter`, collected: every entry of the map once, in an order
/// that the map does not fix.
#[verifier::external_body]
fn type_entries(m: &HashMap<String, DataType>) -> (r: Vec<(String, DataType)>)
    ensures
        r@.len() == m@.len(),
        forall|i: int| 0 <= i < r@.len() ==> m@.contains_key(#[trigger] r@[i].0) && m@[r@[i].0] == r@[i].1,
        forall|i: int, j: int| 0 <= i < j < r@.len() ==> #[trigger] r@[i].0 != #[trigger] r@[j].0,
        forall|k: String| #[trigger] m@.contains_key(k) ==> exists|i: int| 0 <= i < r@.len() && #[trigger] r@[i].0 == k,
{
    m.iter().map(|(k, v)| (k.clone(), *v)).collect()
}

/// A listing of a map's entries, each once.
pub open spec fn lists_map(entries: Seq<(String, DataType)>, m: Map<String, DataType>) -> bool {
    &&& entries.len() == m.len()
    &&& forall|i: int| 0 <= i < entries.len() ==> m.contains_key(#[trigger] entries[i].0) && m[entries[i].0] == entries[i].1
    &&& forall|i: int, j: int| 0 <= i < j < entries.len() ==> #[trigger] entries[i].0 != #[trigger] entries[j].0
    &&& forall|k: String| #[trigger] m.contains_key(k) ==> exists|i: int| 0 <= i < entries.len() && #[trigger] entries[i].0 == k
}

struct Acc {
    checks: Vec<ValidationCheck>,
    devs: Vec<Deviation>,
}

impl Acc {
    spec fn report(&self) -> Report {
        rep(checks_view(self.checks@), deviations_view(self.devs@))
    }

    fn check(&mut self, name: String, passed: bool, detail: String)
        ensures
            final(self).report() == cat(old(self).report(), rep(seq![ck(name@, passed, detail@)], seq![])),
    {
        let c = ValidationCheck { name, passed, detail };
        self.checks.push(c);
        proof {
            assert(checks_view(self.checks@) =~= checks_view(old(self).checks@) + seq![check_view(c)]);
            assert(deviations_view(self.devs@) =~= deviations_view(old(self).devs@) + Seq::<DeviationView>::empty());
        }
    }

    fn deviation(&mut self, field: String, expected: String, actual: String, severity: DeviationSeverity)
        ensures
            final(self).report() == cat(old(self).report(), rep(seq![], seq![dev(field@, expected@, actual@, severity)])),
    {
        let d = Deviation { field, expected, actual, severity };
        self.devs.push(d);
        proof {
            assert(deviations_view(self.devs@) =~= deviations_view(old(self).devs@) + seq![deviation_view(d)]);
            assert(checks_view(self.checks@) =~= checks_view(old(self).checks@) + Seq::<CheckView>::empty());
        }
    }
}

proof fn lemma_cat_assoc(a: Report, b: Report, c: Report)
    ensures
        cat(cat(a, b), c) == cat(a, cat(b, c)),
{
    assert(cat(cat(a, b), c).checks =~= cat(a, cat(b, c)).checks);
    assert(cat(cat(a, b), c).devs =~= cat(a, cat(b, c)).devs);
}

proof fn lemma_cat_empty(a: Report)
    ensures
        cat(a, empty_report()) == a,
{
    assert(cat(a, empty_report()).checks =~= a.checks);
    assert(cat(a, empty_report()).devs =~= a.devs);
}

proof fn lemma_cat_single(a: Report, c: Seq<CheckView>, d: Seq<DeviationView>)
    ensures
        cat(cat(a, rep(c, seq![])), rep(seq![], d)) == cat(a, rep(c, d)),
{
    assert(cat(cat(a, rep(c, seq![])), rep(seq![], d)).checks =~= cat(a, rep(c, d)).checks);
    assert(cat(cat(a, rep(c, seq![])), rep(seq![], d)).devs =~= cat(a, rep(c, d)).devs);
}

fn exit_section(acc: &mut Acc, code: Option<i32>)
    ensures
        final(acc).report() == cat(old(acc).report(), exit_report(code)),
{
    let ok = match code {
        Some(c) => c == 0,
        None => false,
    };
    if ok {
        acc.check(owned("exit_code_zero"), true, owned("Process exited with code 0"));
    } else {
        let text = exit_code_text(code);
        let mut detail = owned("Process exited with code ");
        push_str(&mut detail, text.as_str());
        let ghost before = acc.report();
        acc.check(owned("exit_code_zero"), false, detail);
        acc.deviation(owned("exit_code"), owned("0"), text, DeviationSeverity::Critical);
        proof {
            lemma_cat_single(before, seq![ck("exit_code_zero"@, false, "Process exited with code "@ + debug_exit_code(code))],
                seq![dev("exit_code"@, "0"@, debug_exit_code(code), DeviationSeverity::Critical)]);
        }
    }
}

fn stderr_section(acc: &mut Acc, stderr: &str)
    ensures
        final(acc).report() == cat(old(acc).report(), stderr_report(stderr@)),
{
    let l = lowercase(stderr);
    let clean = !str_contains(l.as_str(), "error") && !str_contains(l.as_str(), "traceback");
    if clean {
        acc.check(owned("stderr_clean"), true, owned("No errors in stderr"));
    } else {
        let ghost before = acc.report();
        acc.check(owned("stderr_clean"), false, owned("Errors detected in stderr output"));
        acc.deviation(owned("stderr"), owned("no errors"), owned("errors found"), DeviationSeverity::Major);
        proof {
            lemma_cat_single(before, seq![ck("stderr_clean"@, false, "Errors detected in stderr output"@)],
                seq![dev("stderr"@, "no errors"@, "errors found"@, DeviationSeverity::Major)]);
        }
    }
}

fn schema_names(schema: &Vec<ColumnDef>) -> (r: Vec<String>)
    ensures
        string_views(r@) == column_names(schema@),
{
    let mut out: Vec<String> = Vec::new();
    let mut i: usize = 0;
    while i < schema.len()
        invariant
            i <= schema@.len(),
            string_views(out@) == column_names(schema@.take(i as int)),
        decreases schema@.len() - i,
    {
        let ghost before = string_views(out@);
        out.push(schema[i].name.clone());
        proof {
            assert(string_views(out@) =~= before.push(schema@[i as int].name@));
            assert(column_names(schema@.take(i + 1)) =~= column_names(schema@.take(i as int)).push(schema@[i as int].name@));
        }
        i = i + 1;
    }
    assert(schema@.take(schema@.len() as int) =~= schema@);
    out
}

fn column_section(acc: &mut Acc, names: &Vec<String>, col: &String)
    ensures
        final(acc).report() == cat(old(acc).report(), column_report(string_views(names@), col@)),
{
    let ghost nv = string_views(names@);
    let mut found = false;
    let mut k: usize = 0;
    while k < names.len()
        invariant
            k <= names@.len(),
            nv == string_views(names@),
            found == exists|t: int| 0 <= t < k && eq_ignore_ascii_case(#[trigger] nv[t], col@),
        decreases names@.len() - k,
    {
        let m = eq_ascii_ci(names[k].as_str(), col.as_str());
        proof {
            assert(nv[k as int] == names@[k as int]@);
            if m {
                assert(eq_ignore_ascii_case(nv[k as int], col@));
            }
            if found || m {
                let t = if m { k as int } else { choose|t: int| 0 <= t < k && eq_ignore_ascii_case(#[trigger] nv[t], col@) };
                assert(0 <= t < k + 1 && eq_ignore_ascii_case(nv[t], col@));
            } else {
                assert forall|t: int| 0 <= t < k + 1 implies !eq_ignore_ascii_case(#[trigger] nv[t], col@) by {
                    if t < k {
                    }
                }
            }
        }
        found = found || m;
        k = k + 1;
    }
    let mut name = owned("column_");
    push_str(&mut name, col.as_str());
    if found {
        let detail = quoted("Column '", col.as_str(), "' found in schema");
        acc.check(name, true, detail);
    } else {
        let mut detail = quoted("Column '", col.as_str(), "' missing from schema ");
        let dbg = debug_string_list(names);
        push_str(&mut detail, dbg.as_str());
        let mut field = owned("column.");
        push_str(&mut field, col.as_str());
        let joined = join_names(names);
        let ghost before = acc.report();
        acc.check(name, false, detail);
        acc.deviation(field, col.clone(), joined, DeviationSeverity::Major);
        proof {
            lemma_cat_single(before, seq![ck("column_"@ + col@, false, "Column '"@ + col@ + "' missing from schema "@ + debug_strings(nv))],
                seq![dev("column."@ + col@, col@, join_comma(nv), DeviationSeverity::Major)]);
        }
    }
}

fn find_column(schema: &Vec<ColumnDef>, name: &String) -> (r: Option<usize>)
    ensures
        match r {
            Some(j) => first_column_named(schema@, name@) == Some(j as int) && j < schema@.len(),
            None => first_column_named(schema@, name@) is None,
        },
{
    proof { reveal(first_column_named); }
    let mut j: usize = 0;
    while j < schema.len()
        invariant
            j <= schema@.len(),
            forall|k: int| 0 <= k < j ==> !eq_ignore_ascii_case(#[trigger] schema@[k].name@, name@),
        decreases schema@.len() - j,
    {
        if eq_ascii_ci(schema[j].name.as_str(), name.as_str()) {
            proof {
                reveal(first_column_named);
                let c = choose|c: int| 0 <= c < schema@.len() && eq_ignore_ascii_case(#[trigger] schema@[c].name@, name@)
                    && forall|k: int| 0 <= k < c ==> !eq_ignore_ascii_case(#[trigger] schema@[k].name@, name@);
                assert(eq_ignore_ascii_case(schema@[j as int].name@, name@));
                if c < j {
                    assert(!eq_ignore_ascii_case(schema@[c].name@, name@));
                }
                if c > j {
                    assert(!eq_ignore_ascii_case(schema@[j as int].name@, name@));
                }
            }
            return Some(j);
        }
        j = j + 1;
    }
    None
}

fn type_section(acc: &mut Acc, schema: &Vec<ColumnDef>, name: &String, t: DataType)
    ensures
        final(acc).report() == cat(old(acc).report(), type_report(schema@, name@, t)),
{
    let mut cname = owned("type_");
    push_str(&mut cname, name.as_str());
    match find_column(schema, name) {
        Some(j) => {
            let actual = schema[j].data_type;
            if data_type_eq(&actual, &t) {
                acc.check(cname, true, quoted("Column '", name.as_str(), "' has expected type"));
            } else {
                let ghost before = acc.report();
                acc.check(cname, false, quoted("Column '", name.as_str(), "' type mismatch"));
                let mut field = owned("type.");
                push_str(&mut field, name.as_str());
                acc.deviation(field, data_type_text(t), data_type_text(actual), DeviationSeverity::Major);
                proof {
                    lemma_cat_single(before, seq![ck("type_"@ + name@, false, "Column '"@ + name@ + "' type mismatch"@)],
                        seq![dev("type."@ + name@, data_type_name(t), data_type_name(actual), DeviationSeverity::Major)]);
                }
            }
        },
        None => {
            acc.check(cname, false, quoted("Column '", name.as_str(), "' not found for type check"));
        },
    }
}

fn dataset_section(acc: &mut Acc, d: &DatasetFacts, cols: &Vec<String>, entries: &Vec<(String, DataType)>)
    ensures
        final(acc).report() == cat(old(acc).report(), dataset_report(*d, string_views(cols@), entries@)),
{
    let names = schema_names(&d.schema);
    let ghost start = acc.report();
    let ghost cv = string_views(cols@);
    let mut i: usize = 0;
    while i < cols.len()
        invariant
            i <= cols@.len(),
            cv == string_views(cols@),
            string_views(names@) == column_names(d.schema@),
            acc.report() == cat(start, columns_report(column_names(d.schema@), cv.take(i as int))),
        decreases cols@.len() - i,
    {
        let ghost before = acc.report();
        column_section(acc, &names, &cols[i]);
        proof {
            assert(cv.take(i + 1).drop_last() =~= cv.take(i as int));
            assert(cv[i as int] == cols@[i as int]@);
            lemma_cat_assoc(start, columns_report(column_names(d.schema@), cv.take(i as int)), column_report(column_names(d.schema@), cv[i as int]));
        }
        i = i + 1;
    }
    proof { assert(cv.take(cv.len() as int) =~= cv); }
    let ghost mid = acc.report();
    let mut k: usize = 0;
    while k < entries.len()
        invariant
            k <= entries@.len(),
            acc.report() == cat(mid, types_report(d.schema@, entries@.take(k as int))),
        decreases entries@.len() - k,
    {
        type_section(acc, &d.schema, &entries[k].0, entries[k].1);
        proof {
            assert(entries@.take(k + 1).drop_last() =~= entries@.take(k as int));
            lemma_cat_assoc(mid, types_report(d.schema@, entries@.take(k as int)), type_report(d.schema@, entries@[k as int].0@, entries@[k as int].1));
        }
        k = k + 1;
    }
    proof {
        assert(entries@.take(entries@.len() as int) =~= entries@);
        lemma_cat_assoc(start, columns_report(column_names(d.schema@), cv), types_report(d.schema@, entries@));
    }
}

fn count_datasets(artifacts: &Vec<ArtifactFacts>) -> (n: usize)
    ensures
        n == datasets(artifacts@).len(),
{
    let mut n: usize = 0;
    let mut k: usize = 0;
    while k < artifacts.len()
        invariant
            k <= artifacts@.len(),
            n == datasets(artifacts@.take(k as int)).len(),
            n <= k,
        decreases artifacts@.len() - k,
    {
        proof {
            assert(artifacts@.take(k + 1).drop_last() =~= artifacts@.take(k as int));
        }
        if let ArtifactFacts::Dataset(_) = &artifacts[k] {
            n = n + 1;
        }
        k = k + 1;
    }
    assert(artifacts@.take(artifacts@.len() as int) =~= artifacts@);
    n
}

fn schema_section(acc: &mut Acc, artifacts: &Vec<ArtifactFacts>, h: &ExecutionHypothesis, entries: &Vec<(String, DataType)>)
    ensures
        final(acc).report() == cat(old(acc).report(), schema_report(artifacts@, *h, entries@)),
{
    if h.expected_columns.len() == 0 && h.expected_schema.is_none() {
        proof {
            lemma_cat_empty(acc.report());
        }
        return;
    }
    let n = count_datasets(artifacts);
    if n == 0 {
        let ghost before = acc.report();
        acc.check(owned("dataset_produced"), false, owned("No dataset artifact produced but hypothesis expects one"));
        acc.deviation(owned("dataset"), owned("dataset artifact"), owned("none"), DeviationSeverity::Critical);
        proof {
            lemma_cat_single(before, seq![ck("dataset_produced"@, false, "No dataset artifact produced but hypothesis expects one"@)],
                seq![dev("dataset"@, "dataset artifact"@, "none"@, DeviationSeverity::Critical)]);
        }
        return;
    }
    let ghost base = acc.report();
    let count = usize_to_decimal(n);
    let mut detail = count;
    push_str(&mut detail, " dataset artifact(s) produced");
    acc.check(owned("dataset_produced"), true, detail);
    let ghost start = acc.report();
    let ghost cols = string_views(h.expected_columns@);
    let mut k: usize = 0;
    while k < artifacts.len()
        invariant
            k <= artifacts@.len(),
            cols == string_views(h.expected_columns@),
            acc.report() == cat(start, datasets_report(datasets(artifacts@.take(k as int)), cols, entries@)),
        decreases artifacts@.len() - k,
    {
        proof {
            assert(artifacts@.take(k + 1).drop_last() =~= artifacts@.take(k as int));
        }
        match &artifacts[k] {
            ArtifactFacts::Dataset(d) => {
                let ghost ds = datasets(artifacts@.take(k as int));
                dataset_section(acc, d, &h.expected_columns, entries);
                proof {
                    assert(datasets(artifacts@.take(k + 1)) == ds.push(*d));
                    assert(ds.push(*d).drop_last() =~= ds);
                    lemma_cat_assoc(start, datasets_report(ds, cols, entries@), dataset_report(*d, cols, entries@));
                }
            },
            _ => {},
        }
        k = k + 1;
    }
    proof {
        assert(artifacts@.take(artifacts@.len() as int) =~= artifacts@);
        lemma_cat_assoc(base, rep(seq![ck("dataset_produced"@, true, decimal(n as nat) + " dataset artifact(s) produced"@)], seq![]),
            datasets_report(datasets(artifacts@), cols, entries@));
    }
}

fn rows_section(acc: &mut Acc, artifacts: &Vec<ArtifactFacts>, h: &ExecutionHypothesis)
    requires
        total_rows(datasets(artifacts@)) <= usize::MAX,
    ensures
        final(acc).report() == cat(old(acc).report(), rows_report(artifacts@, *h)),
{
    let range = match &h.expected_row_count {
        None => {
            proof { lemma_cat_empty(acc.report()); }
            return;
        },
        Some(r) => *r,
    };
    let n = count_datasets(artifacts);
    if n == 0 {
        acc.check(owned("row_count"), false, owned("No dataset to check row count"));
        return;
    }
    let mut total: usize = 0;
    let mut k: usize = 0;
    while k < artifacts.len()
        invariant
            k <= artifacts@.len(),
            total == total_rows(datasets(artifacts@.take(k as int))),
            total_rows(datasets(artifacts@)) <= usize::MAX,
        decreases artifacts@.len() - k,
    {
        proof {
            assert(artifacts@.take(k + 1).drop_last() =~= artifacts@.take(k as int));
            assert(artifacts@.take(k + 1).last() == artifacts@[k as int]);
            lemma_total_rows_prefix(artifacts@, k + 1);
        }
        if let ArtifactFacts::Dataset(d) = &artifacts[k] {
            proof {
                let ds = datasets(artifacts@.take(k as int));
                assert(datasets(artifacts@.take(k + 1)) == ds.push(*d));
                assert(ds.push(*d).drop_last() =~= ds);
            }
            total = total + d.row_count;
        }
        k = k + 1;
    }
    assert(artifacts@.take(artifacts@.len() as int) =~= artifacts@);
    let ok = range.min <= total && total <= range.max;
    let mut expected = usize_to_decimal(range.min);
    push_str(&mut expected, "-");
    let mx = usize_to_decimal(range.max);
    push_str(&mut expected, mx.as_str());
    let tt = usize_to_decimal(total);
    let mut detail = owned("Total rows: ");
    push_str(&mut detail, tt.as_str());
    push_str(&mut detail, " (expected ");
    push_str(&mut detail, expected.as_str());
    push_str(&mut detail, ")");
    if ok {
        acc.check(owned("row_count"), true, detail);
    } else {
        let ghost before = acc.report();
        let ghost dv = detail@;
        acc.check(owned("row_count"), false, detail);
        let e2 = expected.clone();
        acc.deviation(owned("row_count"), e2, tt, DeviationSeverity::Major);
        proof {
            lemma_cat_single(before, seq![ck("row_count"@, false, dv)],
                seq![dev("row_count"@, expected@, decimal(total as nat), DeviationSeverity::Major)]);
        }
    }
}

proof fn lemma_total_rows_prefix(a: Seq<ArtifactFacts>, k: int)
    requires
        0 <= k <= a.len(),
    ensures
        total_rows(datasets(a.take(k))) <= total_rows(datasets(a)),
    decreases a.len() - k,
{
    if k < a.len() {
        lemma_total_rows_prefix(a, k + 1);
        assert(a.take(k + 1).drop_last() =~= a.take(k));
        assert(a.take(k + 1).last() == a[k]);
        let ds = datasets(a.take(k));
        if let ArtifactFacts::Dataset(d) = a[k] {
            assert(datasets(a.take(k + 1)) == ds.push(d));
            assert(ds.push(d).drop_last() =~= ds);
        }
        assert(total_rows(datasets(a.take(k))) <= total_rows(datasets(a.take(k + 1))));
    } else {
        assert(a.take(k) =~= a);
    }
}

fn invariants_section(acc: &mut Acc, invs: &Vec<String>, artifacts: &Vec<ArtifactFacts>)
    requires
        facts_wf(artifacts@),
    ensures
        final(acc).report() == cat(old(acc).report(), invariants_report(string_views(invs@), artifacts@)),
{
    let ghost start = acc.report();
    let ghost iv = string_views(invs@);
    let mut k: usize = 0;
    while k < invs.len()
        invariant
            k <= invs@.len(),
            iv == string_views(invs@),
            facts_wf(artifacts@),
            acc.report() == cat(start, invariants_report(iv.take(k as int), artifacts@)),
        decreases invs@.len() - k,
    {
        let inv = &invs[k];
        let (passed, detail) = check_invariant(inv.as_str(), artifacts);
        let mut name = owned("invariant: ");
        push_str(&mut name, inv.as_str());
        let ghost before = acc.report();
        proof {
            assert(iv.take(k + 1).drop_last() =~= iv.take(k as int));
            assert(iv[k as int] == inv@);
        }
        if passed {
            acc.check(name, true, detail);
        } else {
            let ghost dd = detail@;
            acc.check(name, false, detail);
            let mut field = owned("invariant.");
            push_str(&mut field, inv.as_str());
            acc.deviation(field, owned("true"), owned("false"), DeviationSeverity::Major);
            proof {
                lemma_cat_single(before, seq![ck("invariant: "@ + inv@, false, dd)],
                    seq![dev("invariant."@ + inv@, "true"@, "false"@, DeviationSeverity::Major)]);
            }
        }
        proof {
            lemma_cat_assoc(start, invariants_report(iv.take(k as int), artifacts@), invariant_report(iv[k as int], artifacts@));
        }
        k = k + 1;
    }
    proof { assert(iv.take(iv.len() as int) =~= iv); }
}

fn all_passed(checks: &Vec<ValidationCheck>) -> (b: bool)
    ensures
        b == forall|i: int| 0 <= i < checks@.len() ==> (#[trigger] checks@[i]).passed,
{
    let mut i: usize = 0;
    while i < checks.len()
        invariant
            i <= checks@.len(),
            forall|k: int| 0 <= k < i ==> (#[trigger] checks@[k]).passed,
        decreases checks@.len() - i,
    {
        if !checks[i].passed {
            return false;
        }
        i = i + 1;
    }
    true
}

/// Validate artifacts against a hypothesis: the checks and deviations in the
/// order exit code, stderr, schema and column types, row count, invariants;
/// the hypothesis holds when every check passed.
pub fn validate_artifacts(
    artifacts: &Vec<ArtifactFacts>,
    hypothesis: &ExecutionHypothesis,
    stderr: &str,
    exit_code: Option<i32>,
) -> (r: ValidationOutcome)
    requires
        facts_wf(artifacts@),
        total_rows(datasets(artifacts@)) <= usize::MAX,
    ensures
        exists|entries: Seq<(String, DataType)>| #[trigger] lists_map(entries, hypothesis.expected_types@)
            && rep(checks_view(r.checks@), deviations_view(r.deviations@)) == spec_validate(artifacts@, *hypothesis, stderr@, exit_code, entries),
        r.hypothesis_validated == forall|i: int| 0 <= i < r.checks@.len() ==> (#[trigger] r.checks@[i]).passed,
{
    let entries = type_entries(&hypothesis.expected_types);
    let mut acc = Acc { checks: Vec::new(), devs: Vec::new() };
    proof {
        assert(acc.report().checks =~= Seq::<CheckView>::empty());
        assert(acc.report().devs =~= Seq::<DeviationView>::empty());
    }
    let ghost e = empty_report();
    exit_section(&mut acc, exit_code);
    stderr_section(&mut acc, stderr);
    schema_section(&mut acc, artifacts, hypothesis, &entries);
    rows_section(&mut acc, artifacts, hypothesis);
    invariants_section(&mut acc, &hypothesis.invariants, artifacts);
    proof {
        let x = exit_report(exit_code);
        assert(cat(e, x).checks =~= x.checks);
        assert(cat(e, x).devs =~= x.devs);
        assert(lists_map(entries@, hypothesis.expected_types@));
    }
    let validated = all_passed(&acc.checks);
    ValidationOutcome { hypothesis_validated: validated, checks: acc.checks, deviations: acc.devs }
}

// ─── Pattern extraction ─────────────────────────────────────────────────────

/// The words looked for in source code, in order.
pub open spec fn keyword_list() -> Seq<Seq<char>> {
    seq![
        "csv"@, "json"@, "pandas"@, "DataFrame"@, "plot"@, "chart"@, "matplotlib"@, "sort"@,
        "filter"@, "group"@, "merge"@, "clean"@, "transform"@, "read"@, "write"@, "train"@,
        "model"@, "predict"@, "fit"@, "score"@, "evaluate"@, "aggregate"@, "normalize"@,
        "encode"@, "decode"@, "parse"@, "serialize"@, "deserialize"@,
    ]
}

/// No keyword is listed twice.
proof fn lemma_keyword_list_distinct()
    ensures
        keyword_list().no_duplicates(),
{
    reveal_strlit("csv"); reveal_strlit("json"); reveal_strlit("pandas"); reveal_strlit("DataFrame");
    reveal_strlit("plot"); reveal_strlit("chart"); reveal_strlit("matplotlib"); reveal_strlit("sort");
    reveal_strlit("filter"); reveal_strlit("group"); reveal_strlit("merge"); reveal_strlit("clean");
    reveal_strlit("transform"); reveal_strlit("read"); reveal_strlit("write"); reveal_strlit("train");
    reveal_strlit("model"); reveal_strlit("predict"); reveal_strlit("fit"); reveal_strlit("score");
    reveal_strlit("evaluate"); reveal_strlit("aggregate"); reveal_strlit("normalize"); reveal_strlit("encode");
    reveal_strlit("decode"); reveal_strlit("parse"); reveal_strlit("serialize"); reveal_strlit("deserialize");
    let l = keyword_list();
    assert forall|i: int, j: int| 0 <= i < l.len() && 0 <= j < l.len() && i != j implies l[i] != l[j] by {
        if l[i] == l[j] {
            assert(l[i].len() == l[j].len());
            assert(l[i][0] == l[j][0]);
            assert(l[i][1] == l[j][1]);
            assert(l[i][2] == l[j][2]);
        }
    }
}

/// The words of `kws` that occur in `text`, in order.
pub open spec fn words_in(kws: Seq<Seq<char>>, text: Seq<char>) -> Seq<Seq<char>>
    decreases kws.len(),
{
    if kws.len() == 0 {
        seq![]
    } else if contains(text, kws.last()) {
        words_in(kws.drop_last(), text).push(kws.last())
    } else {
        words_in(kws.drop_last(), text)
    }
}

fn keyword_vec() -> (r: Vec<String>)
    ensures
        string_views(r@) == keyword_list(),
{
    let mut v: Vec<String> = Vec::new();
    v.push(owned("csv"));
    v.push(owned("json"));
    v.push(owned("pandas"));
    v.push(owned("DataFrame"));
    v.push(owned("plot"));
    v.push(owned("chart"));
    v.push(owned("matplotlib"));
    v.push(owned("sort"));
    v.push(owned("filter"));
    v.push(owned("group"));
    v.push(owned("merge"));
    v.push(owned("clean"));
    v.push(owned("transform"));
    v.push(owned("read"));
    v.push(owned("write"));
    v.push(owned("train"));
    v.push(owned("model"));
    v.push(owned("predict"));
    v.push(owned("fit"));
    v.push(owned("score"));
    v.push(owned("evaluate"));
    v.push(owned("aggregate"));
    v.push(owned("normalize"));
    v.push(owned("encode"));
    v.push(owned("decode"));
    v.push(owned("parse"));
    v.push(owned("serialize"));
    v.push(owned("deserialize"));
    assert(string_views(v@) =~= keyword_list());
    v
}

/// The known keywords that occur in the lower-cased source, in list order.
pub fn extract_keywords(source_code: &str) -> (r: Vec<String>)
    ensures
        string_views(r@) == words_in(keyword_list(), to_lower(source_code@)),
        is_ascii_text(source_code@) ==> string_views(r@) == words_in(
            keyword_list(),
            source_code@.map_values(|c: char| ascii_lower(c)),
        ),
{
    let kws = keyword_vec();
    let lower = lowercase(source_code);
    let ghost kv = string_views(kws@);
    let mut out: Vec<String> = Vec::new();
    let mut i: usize = 0;
    while i < kws.len()
        invariant
            i <= kws@.len(),
            kv == string_views(kws@),
            string_views(out@) == words_in(kv.take(i as int), lower@),
        decreases kws@.len() - i,
    {
        proof {
            assert(kv.take(i + 1).drop_last() =~= kv.take(i as int));
            assert(kv.take(i + 1).last() == kws@[i as int]@);
        }
        if str_contains(lower.as_str(), kws[i].as_str()) {
            let ghost before = string_views(out@);
            out.push(kws[i].clone());
            proof { assert(string_views(out@) =~= before.push(kws@[i as int]@)); }
        }
        i = i + 1;
    }
    proof { assert(kv.take(kv.len() as int) =~= kv); }
    out
}

/// The identifier of the pattern a successful execution yields:
/// `#auto-` and the execution's identifier.
pub fn pattern_id(execution_id: &str) -> (r: String)
    ensures
        r@ == "#auto-"@ + execution_id@,
{
    proof { reveal_strlit("#auto-"); }
    let mut id = owned("#auto-");
    push_str(&mut id, execution_id);
    id
}

/// The cost a new pattern records from the run it was drawn from: whole
/// seconds of its latency as CPU time, ten seconds more as wall-clock time,
/// its tokens, and fixed memory and disk.
pub fn pattern_cost(latency_ms: u64, tokens: u64) -> (r: ExecutionBudget)
    ensures
        r.cpu_seconds == latency_ms / 1000,
        r.memory_mb == 512,
        r.disk_mb == 100,
        r.token_budget == tokens,
        r.wall_clock_seconds == latency_ms / 1000 + 10,
{
    let secs = latency_ms / 1000;
    ExecutionBudget { cpu_seconds: secs, memory_mb: 512, disk_mb: 100, token_budget: tokens, wall_clock_seconds: secs + 10 }
}

/// Capabilities a source file is taken to need: filesystem read and write,
/// then network access (twice when both groups of words occur), process
/// spawning and GPU compute as the lower-cased source mentions them.
pub open spec fn spec_infer_capabilities(src: Seq<char>) -> Seq<Seq<char>> {
    let l = to_lower(src);
    let a = seq!["filesystem_read"@, "filesystem_write"@];
    let b = if contains(l, "http"@) || contains(l, "url"@) || contains(l, "request"@) { a.push("network_access"@) } else { a };
    let c = if contains(l, "socket"@) || contains(l, "tcp"@) || contains(l, "udp"@) { b.push("network_access"@) } else { b };
    let d = if contains(l, "subprocess"@) || contains(l, "os.system"@) || contains(l, "popen"@) { c.push("process_spawn"@) } else { c };
    if contains(l, "gpu"@) || contains(l, "cuda"@) || contains(l, "torch"@) { d.push("gpu_compute"@) } else { d }
}

fn push_owned(v: &mut Vec<String>, s: &str)
    ensures
        string_views(final(v)@) == string_views(old(v)@).push(s@),
{
    v.push(owned(s));
    assert(string_views(v@) =~= string_views(old(v)@).push(s@));
}

pub fn infer_capabilities(source_code: &str) -> (r: Vec<String>)
    ensures
        string_views(r@) == spec_infer_capabilities(source_code@),
{
    let mut caps: Vec<String> = Vec::new();
    push_owned(&mut caps, "filesystem_read");
    push_owned(&mut caps, "filesystem_write");
    let l = lowercase(source_code);
    let t = l.as_str();
    if str_contains(t, "http") || str_contains(t, "url") || str_contains(t, "request") {
        push_owned(&mut caps, "network_access");
    }
    if str_contains(t, "socket") || str_contains(t, "tcp") || str_contains(t, "udp") {
        push_owned(&mut caps, "network_access");
    }
    if str_contains(t, "subprocess") || str_contains(t, "os.system") || str_contains(t, "popen") {
        push_owned(&mut caps, "process_spawn");
    }
    if str_contains(t, "gpu") || str_contains(t, "cuda") || str_contains(t, "torch") {
        push_owned(&mut caps, "gpu_compute");
    }
    caps
}

/// `s` without its leading `#` characters.
pub open spec fn strip_hashes(s: Seq<char>) -> Seq<char>
    decreases s.len(),
{
    if s.len() > 0 && s[0] == '#' { strip_hashes(s.drop_first()) } else { s }
}

/// The first line of a text, or nothing.
pub open spec fn first_line(src: Seq<char>) -> Seq<char> {
    let ls = crate::diff::lines_of(src);
    if ls.len() > 0 { ls[0] } else { seq![] }
}

/// A description from the keywords, else from a leading `#` comment, else
/// the keywords listed.
pub open spec fn spec_infer_description(kws: Seq<Seq<char>>, src: Seq<char>) -> Seq<char> {
    if kws.contains("csv"@) && kws.contains("sort"@) {
        "Sort and process CSV data"@
    } else if kws.contains("json"@) && kws.contains("flatten"@) {
        "Transform and flatten JSON"@
    } else if kws.contains("plot"@) || kws.contains("chart"@) {
        "Generate visualisations"@
    } else if kws.contains("train"@) || kws.contains("model"@) {
        "Train or evaluate ML model"@
    } else if kws.contains("clean"@) {
        "Clean and preprocess data"@
    } else {
        let fl = crate::text::trim(first_line(src));
        if fl.len() > 0 && fl[0] == '#' {
            crate::text::trim(strip_hashes(fl))
        } else {
            "Auto-extracted pattern: "@ + join_comma(kws)
        }
    }
}

fn has_word(kws: &Vec<String>, w: &str) -> (b: bool)
    ensures
        b == string_views(kws@).contains(w@),
{
    let mut i: usize = 0;
    while i < kws.len()
        invariant
            i <= kws@.len(),
            forall|k: int| 0 <= k < i ==> kws@[k]@ != w@,
        decreases kws@.len() - i,
    {
        if str_eq(kws[i].as_str(), w) {
            assert(string_views(kws@)[i as int] == w@);
            return true;
        }
        i = i + 1;
    }
    proof {
        if string_views(kws@).contains(w@) {
            let k = choose|k: int| 0 <= k < string_views(kws@).len() && string_views(kws@)[k] == w@;
            assert(kws@[k]@ == w@);
        }
    }
    false
}

fn without_hashes(s: &str) -> (r: String)
    ensures
        r@ == strip_hashes(s@),
{
    let cs = crate::text::chars_of(s);
    let mut i: usize = 0;
    assert(cs@.skip(0) =~= cs@);
    while i < cs.len() && cs[i] == '#'
        invariant
            i <= cs@.len(),
            cs@ == s@,
            strip_hashes(s@) == strip_hashes(cs@.skip(i as int)),
        decreases cs@.len() - i,
    {
        proof {
            assert(cs@.skip(i as int).drop_first() =~= cs@.skip(i + 1));
        }
        i = i + 1;
    }
    let mut out: Vec<char> = Vec::new();
    let mut k: usize = i;
    while k < cs.len()
        invariant
            i <= k <= cs@.len(),
            out@ == cs@.subrange(i as int, k as int),
        decreases cs@.len() - k,
    {
        out.push(cs[k]);
        proof { assert(cs@.subrange(i as int, k + 1) =~= out@); }
        k = k + 1;
    }
    assert(out@ =~= cs@.skip(i as int));
    crate::text::string_from(&out)
}

pub fn infer_description(keywords: &Vec<String>, source_code: &str) -> (r: String)
    ensures
        r@ == spec_infer_description(string_views(keywords@), source_code@),
{
    if has_word(keywords, "csv") && has_word(keywords, "sort") {
        return owned("Sort and process CSV data");
    }
    if has_word(keywords, "json") && has_word(keywords, "flatten") {
        return owned("Transform and flatten JSON");
    }
    if has_word(keywords, "plot") || has_word(keywords, "chart") {
        return owned("Generate visualisations");
    }
    if has_word(keywords, "train") || has_word(keywords, "model") {
        return owned("Train or evaluate ML model");
    }
    if has_word(keywords, "clean") {
        return owned("Clean and preprocess data");
    }
    let lines = crate::diff::text_lines(source_code);
    let first = if lines.len() > 0 { lines[0].clone() } else { String::new() };
    proof {
        assert(crate::lcs::strs(lines@) == crate::diff::lines_of(source_code@));
        if lines@.len() > 0 {
            assert(crate::lcs::strs(lines@)[0] == lines@[0]@);
        }
    }
    let fl = crate::text::trim_str(first.as_str());
    let fc = crate::text::chars_of(fl.as_str());
    if fc.len() > 0 && fc[0] == '#' {
        let rest = without_hashes(fl.as_str());
        crate::text::trim_str(rest.as_str())
    } else {
        let mut out = owned("Auto-extracted pattern: ");
        let joined = join_names(keywords);
        push_str(&mut out, joined.as_str());
        out
    }
}

/// Tags from the lower-cased source, then one per artifact kind met
/// (dataset, image, model), each once.
pub open spec fn source_tags(src: Seq<char>) -> Seq<Seq<char>> {
    let l = to_lower(src);
    let a: Seq<Seq<char>> = if contains(l, "csv"@) { seq!["csv"@] } else { seq![] };
    let b = if contains(l, "json"@) { a.push("json"@) } else { a };
    let c = if contains(l, "pandas"@) || contains(l, "dataframe"@) { b.push("pandas"@) } else { b };
    let d = if contains(l, "plot"@) || contains(l, "matplotlib"@) { c.push("visualisation"@) } else { c };
    let e = if contains(l, "sklearn"@) || contains(l, "train"@) || contains(l, "model"@) { d.push("ml"@) } else { d };
    if contains(l, "clean"@) || contains(l, "preprocess"@) { e.push("data-cleaning"@) } else { e }
}

pub open spec fn artifact_tag(a: ArtifactFacts) -> Option<Seq<char>> {
    match a {
        ArtifactFacts::Dataset(_) => Some("dataset"@),
        ArtifactFacts::Image => Some("image"@),
        ArtifactFacts::Model => Some("model"@),
        _ => None,
    }
}

pub open spec fn add_artifact_tags(tags: Seq<Seq<char>>, arts: Seq<ArtifactFacts>) -> Seq<Seq<char>>
    decreases arts.len(),
{
    if arts.len() == 0 {
        tags
    } else {
        let t = add_artifact_tags(tags, arts.drop_last());
        match artifact_tag(arts.last()) {
            Some(x) => if t.contains(x) { t } else { t.push(x) },
            None => t,
        }
    }
}

pub open spec fn spec_infer_tags(src: Seq<char>, arts: Seq<ArtifactFacts>) -> Seq<Seq<char>> {
    add_artifact_tags(source_tags(src), arts)
}

pub fn infer_tags(source_code: &str, artifacts: &Vec<ArtifactFacts>) -> (r: Vec<String>)
    ensures
        string_views(r@) == spec_infer_tags(source_code@, artifacts@),
{
    let mut tags: Vec<String> = Vec::new();
    let l = lowercase(source_code);
    let t = l.as_str();
    if str_contains(t, "csv") {
        push_owned(&mut tags, "csv");
    }
    if str_contains(t, "json") {
        push_owned(&mut tags, "json");
    }
    if str_contains(t, "pandas") || str_contains(t, "dataframe") {
        push_owned(&mut tags, "pandas");
    }
    if str_contains(t, "plot") || str_contains(t, "matplotlib") {
        push_owned(&mut tags, "visualisation");
    }
    if str_contains(t, "sklearn") || str_contains(t, "train") || str_contains(t, "model") {
        push_owned(&mut tags, "ml");
    }
    if str_contains(t, "clean") || str_contains(t, "preprocess") {
        push_owned(&mut tags, "data-cleaning");
    }
    proof {
        assert(string_views(Seq::<String>::empty()) =~= Seq::<Seq<char>>::empty());
    }
    let ghost base = string_views(tags@);
    assert(base == source_tags(source_code@));
    let mut k: usize = 0;
    while k < artifacts.len()
        invariant
            k <= artifacts@.len(),
            base == source_tags(source_code@),
            string_views(tags@) == add_artifact_tags(base, artifacts@.take(k as int)),
        decreases artifacts@.len() - k,
    {
        proof {
            assert(artifacts@.take(k + 1).drop_last() =~= artifacts@.take(k as int));
            assert(artifacts@.take(k + 1).last() == artifacts@[k as int]);
        }
        let tag: Option<&str> = match &artifacts[k] {
            ArtifactFacts::Dataset(_) => Some("dataset"),
            ArtifactFacts::Image => Some("image"),
            ArtifactFacts::Model => Some("model"),
            _ => None,
        };
        if let Some(x) = tag {
            if !has_word(&tags, x) {
                push_owned(&mut tags, x);
            }
        }
        k = k + 1;
    }
    proof { assert(artifacts@.take(artifacts@.len() as int) =~= artifacts@); }
    tags
}


/// The complexity estimated from a source's size: its number of lines,
/// counted up to a hundred, in tens, plus one, and at most ten.
pub open spec fn spec_complexity(source: Seq<char>) -> u8 {
    let n = lines_of(source).len();
    let capped = if n < 100 { n } else { 100 };
    let c = capped / 10 + 1;
    if c > 10 { 10 } else { c as u8 }
}

pub fn estimate_complexity(source_code: &str) -> (r: u8)
    ensures
        r == spec_complexity(source_code@),
        1 <= r <= 10,
{
    let lines = text_lines(source_code);
    let n: usize = if lines.len() < 100 { lines.len() } else { 100 };
    let c: usize = n / 10 + 1;
    if c > 10 { 10 } else { c as u8 }
}

/// The words of a list found in a text are the list filtered by occurrence:
/// they keep the list's order, each occurs in the text, every word of the
/// list that occurs is among them, and a list without repeats gives none.
pub proof fn lemma_words_in_filters(kws: Seq<Seq<char>>, text: Seq<char>)
    ensures
        words_in(kws, text) == kws.filter(|k: Seq<char>| contains(text, k)),
        forall|k: Seq<char>| #[trigger] words_in(kws, text).contains(k) <==> (kws.contains(k) && contains(text, k)),
        kws.no_duplicates() ==> words_in(kws, text).no_duplicates(),
    decreases kws.len(),
{
    reveal(Seq::filter);
    if kws.len() > 0 {
        let rest = kws.drop_last();
        let last = kws.last();
        lemma_words_in_filters(rest, text);
        assert forall|k: Seq<char>| kws.contains(k) <==> (rest.contains(k) || k == last) by {
            if kws.contains(k) {
                let i = choose|i: int| 0 <= i < kws.len() && kws[i] == k;
                if i < kws.len() - 1 {
                    assert(rest[i] == k);
                }
            }
            if rest.contains(k) {
                let i = choose|i: int| 0 <= i < rest.len() && rest[i] == k;
                assert(kws[i] == k);
            }
            if k == last {
                assert(kws[kws.len() - 1] == k);
            }
        }
        if kws.no_duplicates() {
            assert(rest.no_duplicates()) by {
                assert forall|i: int, j: int| 0 <= i < rest.len() && 0 <= j < rest.len() && i != j implies rest[i] != rest[j] by {
                    assert(rest[i] == kws[i] && rest[j] == kws[j]);
                }
            }
            assert(!rest.contains(last)) by {
                if rest.contains(last) {
                    let i = choose|i: int| 0 <= i < rest.len() && rest[i] == last;
                    assert(kws[i] == kws[kws.len() - 1]);
                }
            }
            if contains(text, last) {
                let w = words_in(rest, text);
                assert(!w.contains(last));
                assert forall|i: int, j: int| 0 <= i < w.push(last).len() && 0 <= j < w.push(last).len() && i != j implies w.push(last)[i] != w.push(last)[j] by {
                    if i == w.len() {
                        assert(w.contains(w[j]));
                    } else if j == w.len() {
                        assert(w.contains(w[i]));
                    }
                }
            }
        }
        let w = words_in(rest, text);
        assert forall|k: Seq<char>| #[trigger] words_in(kws, text).contains(k) <==> (kws.contains(k) && contains(text, k)) by {
            if contains(text, last) {
                if w.push(last).contains(k) {
                    let i = choose|i: int| 0 <= i < w.push(last).len() && w.push(last)[i] == k;
                    if i < w.len() {
                        assert(w.contains(k));
                    }
                }
                if w.contains(k) {
                    let i = choose|i: int| 0 <= i < w.len() && w[i] == k;
                    assert(w.push(last)[i] == k);
                }
                assert(w.push(last)[w.len() as int] == last);
            }
        }
    }
}

/// The keywords found in a source are the known keywords that occur in its
/// lower-cased text, in list order and each once.
pub proof fn lemma_keywords_found(source: Seq<char>)
    ensures
        words_in(keyword_list(), to_lower(source)) == keyword_list().filter(|k: Seq<char>| contains(to_lower(source), k)),
        forall|k: Seq<char>| #[trigger] words_in(keyword_list(), to_lower(source)).contains(k)
            <==> (keyword_list().contains(k) && contains(to_lower(source), k)),
        words_in(keyword_list(), to_lower(source)).no_duplicates(),
{
    lemma_keyword_list_distinct();
    lemma_words_in_filters(keyword_list(), to_lower(source));
}

/// Upper-casing the ASCII letters of an ASCII text changes neither that it
/// is ASCII nor which keywords are found in it: both texts lower-case alike.
pub proof fn lemma_keywords_ignore_ascii_case(s: Seq<char>)
    requires
        is_ascii_text(s),
    ensures
        is_ascii_text(ascii_upper_text(s)),
        ascii_upper_text(s).map_values(|c: char| ascii_lower(c)) == s.map_values(|c: char| ascii_lower(c)),
        words_in(keyword_list(), ascii_upper_text(s).map_values(|c: char| ascii_lower(c)))
            == words_in(keyword_list(), s.map_values(|c: char| ascii_lower(c))),
{
    let u = ascii_upper_text(s);
    assert forall|i: int| 0 <= i < u.len() implies (u[i] as u32) < 128 && ascii_lower(u[i]) == ascii_lower(s[i]) by {
        let c = s[i];
        if 'a' <= c <= 'z' {
            assert(u[i] == ((c as u32) - 32) as char);
            assert((u[i] as u32) == (c as u32) - 32);
            assert('A' <= u[i] <= 'Z');
            assert(((u[i] as u32) + 32) as char == c);
        } else {
            assert(u[i] == c);
        }
    }
    assert(u.map_values(|c: char| ascii_lower(c)) =~= s.map_values(|c: char| ascii_lower(c)));
}

} // verus!
