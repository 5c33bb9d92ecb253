use vico_vee::diff::diff_text;
use vico_vee::osmosis::{
    merge_content, merge_result, normalize_path, reject_removes_file, reject_result, resolve_workspace_path,
    structured_to_unified,
};
use vico_vee::types::osmosis::OsmosisMergeStrategy;

#[test]
fn diff_detects_single_line_change() {
    let diff = diff_text("hello\nworld\n", "hello\nViCo\n");
    assert_eq!(diff.files.len(), 1);
    let file = &diff.files[0];
    assert_eq!(file.status, "Modified");
    assert_eq!(file.hunks.len(), 1);
    let kinds: Vec<&str> = file.hunks[0].lines.iter().map(|l| l.kind.as_str()).collect();
    assert!(kinds.contains(&"remove"));
    assert!(kinds.contains(&"add"));
}

#[test]
fn diff_reports_unchanged() {
    let diff = diff_text("same\n", "same\n");
    assert_eq!(diff.files[0].status, "Unchanged");
    assert!(diff.files[0].hunks.is_empty());
}

#[test]
fn unified_format_includes_headers() {
    let diff = diff_text("a\nb\n", "a\nc\n");
    let unified = structured_to_unified(&diff);
    assert!(unified.contains("--- "));
    assert!(unified.contains("+++ "));
    assert!(unified.contains("@@"));
    assert!(unified.contains("-b"));
    assert!(unified.contains("+c"));
}

#[test]
fn diff_hunk_applies_to_old_text() {
    let old = "one\ntwo\nthree\nfour\n";
    let new = "one\n2\nthree\nfour\nfive\n";
    let diff = diff_text(old, new);
    let file = &diff.files[0];
    assert_eq!(file.status, "Modified");
    let hunk = &file.hunks[0];
    let mut rebuilt: Vec<String> = old.lines().take(hunk.old_start - 1).map(|s| s.to_string()).collect();
    for line in &hunk.lines {
        if line.kind != "remove" {
            rebuilt.push(line.content.clone());
        }
    }
    let old_lines: Vec<&str> = old.lines().collect();
    for l in &old_lines[(hunk.old_start - 1 + hunk.old_lines)..] {
        rebuilt.push(l.to_string());
    }
    let new_lines: Vec<String> = new.lines().map(|s| s.to_string()).collect();
    assert_eq!(rebuilt, new_lines);
}

#[test]
fn unified_exact_small_diff() {
    let diff = diff_text("a\nb\n", "a\nc\n");
    let unified = structured_to_unified(&diff);
    assert!(unified.starts_with("--- "));
    assert!(unified.contains(" a\n"));
}

#[test]
fn normalize_resolves_dots_and_separators() {
    assert_eq!(normalize_path("/ws", "src/./lib.rs"), "/ws/src/lib.rs");
    assert_eq!(normalize_path("/ws", "a//b"), "/ws/a/b");
    assert_eq!(normalize_path("/ws", "a/../b"), "/ws/b");
    assert_eq!(normalize_path("/ws", "/abs/x"), "/ws/abs/x");
}

#[test]
fn resolve_requires_a_workspace() {
    assert_eq!(resolve_workspace_path(None, "x"), Err("No project workspace is open".to_string()));
    assert_eq!(resolve_workspace_path(Some("/ws"), "dir/file.txt"), Ok("/ws/dir/file.txt".to_string()));
}

#[test]
fn merge_strategies() {
    assert_eq!(merge_content(Some("old"), "new", OsmosisMergeStrategy::Overwrite), "new");
    assert_eq!(merge_content(Some("old"), "new", OsmosisMergeStrategy::Append), "old\nnew");
    assert_eq!(merge_content(None, "new", OsmosisMergeStrategy::Append), "\nnew");
    let r = merge_result(&"f.txt".to_string(), "héllo", OsmosisMergeStrategy::Append);
    assert_eq!(r.bytes_written, 6);
    assert_eq!(r.strategy, "append");
    assert_eq!(r.target_path, "f.txt");
}

#[test]
fn reject_rules() {
    assert!(reject_removes_file(Some("x"), Some("x")));
    assert!(!reject_removes_file(Some("x"), Some("y")));
    assert!(!reject_removes_file(None, Some("x")));
    let r = reject_result(&"f.txt".to_string(), true, &Some("bad".to_string()));
    assert!(r.restored);
    assert_eq!(r.reason, Some("bad".to_string()));
}

#[test]
fn workspace_path_climbing_above_root_is_refused() {
    assert_eq!(
        resolve_workspace_path(Some("/p"), "../x"),
        Err("Target path escapes project root: ../x".to_string())
    );
    assert_eq!(
        resolve_workspace_path(Some("/p"), "a/../../x"),
        Err("Target path escapes project root: a/../../x".to_string())
    );
    assert_eq!(resolve_workspace_path(Some("/p"), "a/../b"), Ok("/p/b".to_string()));
    assert_eq!(resolve_workspace_path(Some("/p"), "/etc/passwd"), Ok("/p/etc/passwd".to_string()));
}
