use std::collections::HashMap;
use vico_vee::artifact::{summary_with, SummarySource};
use vico_vee::types::schema::{ColumnDef, DataType, ExecutionHypothesis, Range};
use vico_vee::validation::{
    check_invariant, estimate_complexity, extract_keywords, infer_capabilities, pattern_cost, pattern_id, validate_artifacts, ArtifactFacts, ColumnFacts,
    DatasetFacts, ValidationOutcome,
};

/// The score validation reports: 0.95 when every check passed, otherwise
/// four fifths of the share of checks that passed.
fn confidence(o: &ValidationOutcome) -> f64 {
    if o.hypothesis_validated {
        0.95
    } else {
        let passed = o.checks.iter().filter(|c| c.passed).count() as f64;
        passed / (o.checks.len().max(1) as f64) * 0.8
    }
}

fn clean_column() -> ColumnFacts {
    ColumnFacts { sorted_ascending: true, distinct: true, no_nulls: true }
}

#[test]
fn test_real_validation_pass() {
    let artifacts = vec![ArtifactFacts::Dataset(DatasetFacts {
        schema: vec![
            ColumnDef { name: "date".into(), data_type: DataType::DateTime, nullable: false },
            ColumnDef { name: "value".into(), data_type: DataType::Float, nullable: true },
        ],
        row_count: 100,
        column_facts: vec![clean_column(), clean_column()],
        rows_distinct: true,
    })];

    let hypothesis = ExecutionHypothesis {
        expected_columns: vec!["date".into(), "value".into()],
        expected_row_count: Some(Range { min: 50, max: 200 }),
        expected_types: {
            let mut m = HashMap::new();
            m.insert("date".into(), DataType::DateTime);
            m.insert("value".into(), DataType::Float);
            m
        },
        invariants: vec!["no duplicate rows".into()],
        expected_schema: None,
    };

    let result = validate_artifacts(&artifacts, &hypothesis, "", Some(0));
    assert!(result.hypothesis_validated);
    assert!(confidence(&result) >= 0.9);
    assert!(result.checks.iter().any(|c| c.name == "exit_code_zero"));
    assert!(result.checks.iter().any(|c| c.name == "dataset_produced"));
    assert!(result.checks.iter().any(|c| c.name == "row_count"));
}

#[test]
fn test_real_validation_fail() {
    let artifacts = vec![];
    let hypothesis = ExecutionHypothesis {
        expected_columns: vec!["missing".into()],
        expected_row_count: Some(Range { min: 10, max: 20 }),
        expected_types: HashMap::new(),
        invariants: vec![],
        expected_schema: None,
    };

    let result = validate_artifacts(&artifacts, &hypothesis, "error: something broke", Some(1));
    assert!(!result.hypothesis_validated);
    assert!(confidence(&result) < 0.5);
    assert!(!result.deviations.is_empty());
}

#[test]
fn test_artifact_summary_from_dataset() {
    let summary = summary_with(&SummarySource::Dataset, "00000000-0000-0000-0000-000000000000");
    assert_eq!(summary.artifact_type, "dataset");
}

#[test]
fn test_artifact_summary_from_text() {
    let summary = summary_with(&SummarySource::Text { content_bytes: "Hello world".len() as u64 }, "x");
    assert_eq!(summary.artifact_type, "text");
    assert_eq!(summary.size_bytes, 11);
}

#[test]
fn summaries_by_kind() {
    let s = summary_with(&SummarySource::Log { message_bytes: vec![3, 4, 5] }, "id");
    assert_eq!(s.artifact_id, "art-log-id");
    assert_eq!(s.size_bytes, 12);
    assert_eq!(s.mime_type, Some("text/plain".to_string()));
    let f = summary_with(&SummarySource::File { size_bytes: 9, mime_type: "image/gif".into() }, "z");
    assert_eq!(f.mime_type, Some("image/gif".to_string()));
    assert_eq!(f.artifact_type, "file");
    assert_eq!(summary_with(&SummarySource::Model, "m").mime_type, Some("application/octet-stream".to_string()));
}

#[test]
fn invariants_on_datasets() {
    let ds = ArtifactFacts::Dataset(DatasetFacts {
        schema: vec![ColumnDef { name: "id".into(), data_type: DataType::Integer, nullable: false }],
        row_count: 3,
        column_facts: vec![ColumnFacts { sorted_ascending: true, distinct: false, no_nulls: true }],
        rows_distinct: true,
    });
    let arts = vec![ds];
    assert!(check_invariant("no duplicate rows", &arts).0);
    assert!(!check_invariant("id is unique", &arts).0);
}

#[test]
fn keyword_and_capability_inference() {
    let kws = extract_keywords("import CSV; df.sort_values()");
    assert!(kws.contains(&"csv".to_string()));
    assert!(kws.contains(&"sort".to_string()));
    let caps = infer_capabilities("requests.get(url)");
    assert_eq!(caps[0], "filesystem_read");
    assert_eq!(caps[1], "filesystem_write");
    assert!(caps.contains(&"network_access".to_string()));
}

#[test]
fn estimate_complexity_counts_lines_in_tens() {
    assert_eq!(estimate_complexity(""), 1);
    assert_eq!(estimate_complexity("a\nb\nc"), 1);
    let nine = "x\n".repeat(9);
    assert_eq!(estimate_complexity(&nine), 1);
    let ten = "x\n".repeat(10);
    assert_eq!(estimate_complexity(&ten), 2);
    let long = "x\r\n".repeat(95);
    assert_eq!(estimate_complexity(&long), 10);
    let longer = "x\n".repeat(250);
    assert_eq!(estimate_complexity(&longer), 10);
}

#[test]
fn keywords_ignore_ascii_case() {
    let s = "import pandas as pd\ndf = pd.read_csv('data.csv')\ndf_sorted = df.sort_values('date')";
    let upper = s.to_ascii_uppercase();
    assert_eq!(extract_keywords(&upper), extract_keywords(s));
    assert!(extract_keywords(s).contains(&"csv".to_string()));
}

#[test]
fn extracted_patterns_are_named_and_costed_from_the_run() {
    assert_eq!(pattern_id("vee-42"), "#auto-vee-42");
    let cost = pattern_cost(12_345, 77);
    assert_eq!(cost.cpu_seconds, 12);
    assert_eq!(cost.wall_clock_seconds, 22);
    assert_eq!(cost.memory_mb, 512);
    assert_eq!(cost.disk_mb, 100);
    assert_eq!(cost.token_budget, 77);
    assert_eq!(pattern_cost(999, 0).cpu_seconds, 0);
}

#[test]
fn keywords_found_are_listed_once_in_list_order() {
    let found = extract_keywords("WRITE csv; read csv; import pandas; df.sort_values(); json.dumps(csv)");
    assert_eq!(found, vec!["csv", "json", "pandas", "sort", "read", "write"]);
}
