use zeno::engine::query::tool_display::format_tool_input_summary;
use zeno::engine::query::tool_display::summarize_tool_output;

fn output(tool: &str, text: &str, input: &str) -> String {
    summarize_tool_output(tool, text, input)
}

#[test]
fn failed_commands_show_their_code() {
    assert_eq!(output("bash", "[exit code: 1]\nPermission denied", ""), "exit 1: [exit code: 1]");
    assert_eq!(output("bash", "[stderr]\nboom\n[exit code: 2]", ""), "exit 2: [stderr]");
    assert_eq!(output("bash", "[stderr]\nboom", ""), "[stderr]");
    assert_eq!(output("bash", "", ""), "(no output)");
    assert_eq!(output("bash", "(no output)", ""), "(no output)");
    assert_eq!(output("bash", "a\nb\n", ""), "(2 lines)");
}

#[test]
fn files_show_their_lines() {
    let whole = "     1|fn main() {\n     2|}\n(showing lines 1-2 of 2 total)";
    assert_eq!(output("read", whole, ""), "(2 lines, full)");
    let part = "  10|a\n  11|b\n(showing lines 10-11 of 300 total)";
    assert_eq!(output("read_file", part, ""), "L10-L11 (of 300)");
    assert_eq!(output("read", "  5|x", ""), "L5-L5");
    assert_eq!(output("read", "no numbers", ""), "(1 lines)");
}

#[test]
fn searches_show_what_they_found() {
    assert_eq!(output("glob", "Found 3 files\na", ""), "Found 3 files");
    assert_eq!(output("glob", "a\nb", ""), "(2 lines)");
    let hits = "Found 3 matches\na.rs:1:x\na.rs:2:y\n\nb.rs:1:z";
    assert_eq!(output("grep", hits, ""), "Found 3 matches (2 file(s))");
    assert_eq!(output("grep", "Found 0 matches", ""), "Found 0 matches");
    assert_eq!(output("grep", "nothing", ""), "(1 lines)");
    assert_eq!(output("web_search", "a\n\nb", ""), "2 results");
    assert_eq!(output("web_fetch", "héllo", ""), "6 chars");
}

#[test]
fn structured_outputs_are_read() {
    assert_eq!(output("edit", r#"{"summary": "Replaced 1"}"#, ""), "Replaced 1");
    assert_eq!(output("edit", "Replaced 2", ""), "Replaced 2");
    assert_eq!(output("todo", "Created\nx", ""), "Created");
    let listed = r#"{"success": true, "target": "user", "message": "saved", "usage": "10%",
        "entry_count": 7, "entries": ["a", "b", 3, "d", "e", "f"]}"#;
    assert_eq!(
        output("memory", listed, ""),
        "memory user: saved (10%)\n  7 entries:\n  · a\n  · b\n  · d\n  · e\n  … and 1 more"
    );
    assert_eq!(output("memory", r#"{"success": true}"#, ""), "memory memory ok");
    assert_eq!(output("memory", r#"{"error": "full"}"#, ""), "memory memory error: full");
    assert_eq!(output("memory", "{}", ""), "memory memory failed");
    assert_eq!(output("memory", "plain", ""), "plain");
    let long = "é".repeat(81);
    assert_eq!(
        output("memory", &format!(r#"{{"success": true, "entries": ["{long}"]}}"#), ""),
        format!("memory memory ok\n  0 entries:\n  · {}…", "é".repeat(80))
    );
}

#[test]
fn skills_and_servers_are_named() {
    assert_eq!(output("skill_view", "x\ny", r#"{"name": "deploy"}"#), "deploy (2 lines)");
    assert_eq!(
        output("skill_view", "x\ny", r#"{"name": "deploy", "file_path": "a.md"}"#),
        "deploy (a.md, 2 lines)"
    );
    assert_eq!(output("skill_list", "3 skills\nx", ""), "3 skills");
    assert_eq!(output("skill_list", "\nx", ""), "(2 lines)");
    assert_eq!(output("mcp_list_tools", "- a\n- b\nc", r#"{"server_name": "fs"}"#), "fs: 2 tool(s)");
    assert_eq!(output("mcp_list_tools", "c", "{}"), "?: (1 lines)");
    assert_eq!(
        output("mcp_describe_tool", "x", r#"{"server_name": "fs", "tool_name": "read"}"#),
        "fs/read (1 lines)"
    );
    assert_eq!(output("mcp_list_servers", "● a\n○ b\nc", ""), "1/2 servers connected");
    assert_eq!(output("mcp_list_servers", "none", ""), "(1 lines)");
    assert_eq!(output("other", "as it is", ""), "as it is");
}

#[test]
fn delegated_tasks_are_counted() {
    let two = r#"[{"exit_reason": "completed"}, {"exit_reason": "timeout"}, {"exit_reason": "success"}]"#;
    assert_eq!(output("delegate_task", two, ""), "2/3 tasks completed");
    assert_eq!(output("delegate_task", r#"{"error": "no tools"}"#, ""), "delegate_task: no tools");
    assert_eq!(output("delegate_task", r#"{"summary": "done"}"#, ""), "delegate_task: done");
    assert_eq!(
        output("delegate_task", r#"{"exit_reason": "timeout"}"#, ""),
        "delegate_task: exit_reason=timeout"
    );
    assert_eq!(output("delegate_task", "a\nb", ""), "delegate_task (2 lines)");
    let long = "x".repeat(81);
    assert_eq!(
        output("delegate_task", &format!(r#"{{"summary": "{long}"}}"#), ""),
        format!("delegate_task: {}…", "x".repeat(80))
    );
}

#[test]
fn inputs_are_shown_in_a_line() {
    let show = format_tool_input_summary;
    assert_eq!(show("bash", r#"{"command": " ls -l "}"#), "\u{f489} $ ls -l");
    assert_eq!(show("bash", "{}"), "\u{f489} bash");
    assert_eq!(show("read", r#"{"file_path": "a.rs"}"#), "\u{f15c} read a.rs");
    assert_eq!(show("read_file", r#"{"path": 1, "file_path": "a.rs"}"#), "\u{f15c} read");
    assert_eq!(show("write", r#"{"path": "a", "content": "x\ny"}"#), "\u{f040} write a (2 lines)");
    assert_eq!(show("write", r#"{"path": "a"}"#), "\u{f040} write a");
    assert_eq!(show("edit", r#"{"path": "a", "replace_all": true}"#), "\u{f040} edit a (replace all)");
    assert_eq!(show("edit", "{}"), "\u{f040} edit file");
    assert_eq!(show("grep", r#"{"pattern": "x", "path": "src"}"#), "\u{f002} grep x in src");
    assert_eq!(show("grep", "{}"), "\u{f002} grep (unknown)");
    assert_eq!(show("glob", r#"{"pattern": "*.rs"}"#), "\u{f07b} glob *.rs");
    assert_eq!(show("web_search", r#"{"query": "q"}"#), "\u{f0ac} web_search: q");
    assert_eq!(show("web_fetch", r#"{"url": "u"}"#), "\u{f0c1} web_fetch u");
    assert_eq!(show("skill_list", r#"{"tag": "t"}"#), "\u{f0ca} skill_list tag: t");
    assert_eq!(show("skill_list", r#"{"category": "c", "tag": "t"}"#), "\u{f0ca} skill_list category: c");
    assert_eq!(show("skill_view", r#"{"name": "n"}"#), "\u{f06e} skill_view n");
    assert_eq!(show("ask_user", "{}"), "\u{f059} ask_user");
    assert_eq!(show("todo", r#"{"action": "add"}"#), "\u{f067} todo add");
    assert_eq!(show("todo", "{}"), "\u{f0ca} todo ?");
    assert_eq!(show("delegate_task", "{}"), "\u{f0c0} delegate_task");
    assert_eq!(
        show("delegate_task", &format!(r#"{{"goal": "{}"}}"#, "g".repeat(41))),
        format!("\u{f0c0} delegate_task: {}", "g".repeat(40))
    );
    assert_eq!(show("skill_manage", r#"{"action": "edit", "name": "n"}"#), "\u{f013} skill_manage edit n");
    assert_eq!(show("mcp_call_tool", r#"{"server_name": "fs"}"#), "\u{f1e6} mcp_call_tool on fs");
    assert_eq!(show("mcp_list_servers", "{}"), "\u{f1e6} mcp_list_servers");
    assert_eq!(show("other", "{}"), "\u{f0ad} other");
}

#[test]
fn memory_inputs_are_shown_in_a_line() {
    let show = |input: &str| format_tool_input_summary("memory", input);
    assert_eq!(show(r#"{"action": "add", "content": "c"}"#), "\u{f1c0} memory memory add: c");
    assert_eq!(
        show(&format!(r#"{{"action": "add", "target": "user", "content": "{}"}}"#, "c".repeat(61))),
        format!("\u{f1c0} memory user add: {}…", "c".repeat(60))
    );
    assert_eq!(
        show(r#"{"action": "replace", "old_text": "a", "content": "b"}"#),
        "\u{f040} memory memory replace: a → b"
    );
    assert_eq!(show(r#"{"action": "remove", "old_text": "a"}"#), "\u{f1f8} memory memory remove: a");
    assert_eq!(show("{}"), "\u{f1c0} memory ?");
}
