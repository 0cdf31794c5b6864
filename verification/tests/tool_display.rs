use zeno::engine::query::tool_display::summarize_tool_output;


#[test]
fn tool_display_test_summarize_mcp_call_tool_short() {
    let result = summarize_tool_output(
        "mcp_call_tool",
        "hello world",
        r#"{"server_name":"playwright","tool_name":"screenshot"}"#,
    );
    assert_eq!(result, "playwright/screenshot ✓ (1 lines)");
}

#[test]
fn tool_display_test_summarize_mcp_call_tool_long() {
    let long = "x".repeat(250);
    let result = summarize_tool_output(
        "mcp_call_tool",
        &long,
        r#"{"server_name":"filesystem","tool_name":"read"}"#,
    );
    assert_eq!(result, "filesystem/read ✓ (1 lines, 250 chars)");
}

#[test]
fn tool_display_test_summarize_mcp_call_tool_empty() {
    let result = summarize_tool_output(
        "mcp_call_tool",
        "",
        r#"{"server_name":"playwright","tool_name":"screenshot"}"#,
    );
    assert_eq!(result, "playwright/screenshot ✓ (0 lines)");
}

#[test]
fn tool_display_test_summarize_mcp_call_tool_missing_input() {
    let result = summarize_tool_output("mcp_call_tool", "some output", "");
    assert_eq!(result, "?/? ✓ (1 lines)");
}

#[test]
fn tool_display_test_summarize_mcp_call_tool_multi_line() {
    let output = "line1\nline2\nline3\nline4\nline5";
    let result = summarize_tool_output(
        "mcp_call_tool",
        output,
        r#"{"server_name":"git","tool_name":"status"}"#,
    );
    assert_eq!(result, "git/status ✓ (5 lines)");
}


#[test]
fn query_test_summarize_mcp_call_tool_short() {
    let result = summarize_tool_output(
        "mcp_call_tool",
        "hello world",
        r#"{"server_name":"playwright","tool_name":"screenshot"}"#,
    );
    assert_eq!(result, "playwright/screenshot ✓ (1 lines)");
}

#[test]
fn query_test_summarize_mcp_call_tool_long() {
    let long = "x".repeat(250);
    let result = summarize_tool_output(
        "mcp_call_tool",
        &long,
        r#"{"server_name":"filesystem","tool_name":"read"}"#,
    );
    assert_eq!(result, "filesystem/read ✓ (1 lines, 250 chars)");
}

#[test]
fn query_test_summarize_mcp_call_tool_empty() {
    let result = summarize_tool_output(
        "mcp_call_tool",
        "",
        r#"{"server_name":"playwright","tool_name":"screenshot"}"#,
    );
    assert_eq!(result, "playwright/screenshot ✓ (0 lines)");
}

#[test]
fn query_test_summarize_mcp_call_tool_missing_input() {
    let result = summarize_tool_output("mcp_call_tool", "some output", "");
    assert_eq!(result, "?/? ✓ (1 lines)");
}

#[test]
fn query_test_summarize_mcp_call_tool_multi_line() {
    let output = "line1\nline2\nline3\nline4\nline5";
    let result = summarize_tool_output(
        "mcp_call_tool",
        output,
        r#"{"server_name":"git","tool_name":"status"}"#,
    );
    assert_eq!(result, "git/status ✓ (5 lines)");
}
