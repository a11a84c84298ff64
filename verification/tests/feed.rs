use gateway::feed::{arguments_text, format_result_preview, heading_text, report_text, result_text, tool_icon};

#[test]
fn tool_icon_known() {
    assert_eq!(tool_icon("read_self"), "📖");
    assert_eq!(tool_icon("search_self"), "🔍");
    assert_eq!(tool_icon("write_self"), "✏️");
    assert_eq!(tool_icon("update_task"), "✅");
    assert_eq!(tool_icon("run_bash"), "🔧");
}

#[test]
fn tool_icon_unknown_is_default() {
    assert_eq!(tool_icon("nonexistent"), "💻");
    assert_eq!(tool_icon(""), "💻");
}

#[test]
fn format_result_preview_empty() {
    assert_eq!(format_result_preview(""), "");
    assert_eq!(format_result_preview("   "), "");
    assert_eq!(format_result_preview("\n  \n"), "");
}

#[test]
fn format_result_preview_fewer_than_5_lines() {
    let result = "line1\nline2\nline3";
    let preview = format_result_preview(result);
    assert!(preview.contains("line1"));
    assert!(preview.contains("line3"));
    assert!(!preview.contains("…"), "no ellipsis for ≤5 lines");
}

#[test]
fn format_result_preview_exactly_5_lines() {
    let result = "a\nb\nc\nd\ne";
    let preview = format_result_preview(result);
    assert!(preview.contains("a"));
    assert!(preview.contains("e"));
    assert!(!preview.contains("…"));
}

#[test]
fn format_result_preview_more_than_5_lines() {
    let result = "1\n2\n3\n4\n5\n6\n7";
    let preview = format_result_preview(result);
    assert!(preview.contains("…"), "ellipsis for >5 lines");
    assert!(preview.contains("1"));
    assert!(preview.contains("5"));
    assert!(!preview.contains("6"), "line 6 should be truncated");
}

#[test]
fn preview_is_exact() {
    assert_eq!(format_result_preview("a\r\nb\n"), "\n┊   a\n┊   b");
    assert_eq!(
        format_result_preview("1\n2\n3\n4\n5\n6"),
        "\n┊   1\n┊   2\n┊   3\n┊   4\n┊   5\n┊   …"
    );
}

#[test]
fn call_is_announced_with_icon_and_arguments() {
    assert_eq!(heading_text("run_bash"), "┊ 🔧 `run_bash`\n");
    assert_eq!(arguments_text("{\"command\":\"ls\"}"), "┊   ```` {\"command\":\"ls\"} ````\n");
}

#[test]
fn report_counts_bytes_and_lines() {
    assert_eq!(report_text("é\nb", "0.2"), "┊   ✅ 4B, 2 lines (0.2s)\n┊   é\n┊   b\n\n---\n\n");
    assert_eq!(report_text("", "1.0"), "┊   ✅ 0B, 0 lines (1.0s)\n\n---\n\n");
}

#[test]
fn failed_call_is_told_as_error() {
    assert_eq!(result_text(Ok("fine".to_string())), "fine");
    assert_eq!(result_text(Err("Read error: no".to_string())), "Error: Read error: no");
}
