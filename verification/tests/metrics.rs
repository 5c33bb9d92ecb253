use vico_vee::metrics::{escape_label_value, format_labels};

#[test]
fn label_values_escape_backslash_quote_and_newline() {
    assert_eq!(escape_label_value("plain"), "plain");
    assert_eq!(escape_label_value("a\\b"), "a\\\\b");
    assert_eq!(escape_label_value("say \"hi\""), "say \\\"hi\\\"");
    assert_eq!(escape_label_value("two\nlines"), "two\\nlines");
    assert_eq!(escape_label_value(""), "");
}

#[test]
fn label_sets_are_braced_and_comma_separated() {
    assert_eq!(format_labels(&vec![]), "");
    assert_eq!(format_labels(&vec![("route".to_string(), "/health".to_string())]), "{route=\"/health\"}");
    let labels = vec![
        ("method".to_string(), "GET".to_string()),
        ("route".to_string(), "/vee/\"x\"".to_string()),
        ("status".to_string(), "200".to_string()),
    ];
    assert_eq!(format_labels(&labels), "{method=\"GET\",route=\"/vee/\\\"x\\\"\",status=\"200\"}");
}
