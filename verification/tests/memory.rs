use zeno::engine::carryover::strip_line_numbers;
use zeno::engine::carryover::Carryover;
use zeno::engine::carryover::ReadContent;
use zeno::engine::carryover::MAX_ACTIVE_ARTIFACTS;
use zeno::engine::carryover::MAX_READ_FILES;
use zeno::engine::carryover::MAX_USER_GOALS;
use zeno::engine::carryover::MAX_WORK_LOG;
use zeno::json::Json;

fn json(text: &str) -> Json {
    match Json::parse(text) {
        Ok(v) => v,
        Err(e) => panic!("{e}"),
    }
}

fn record(c: &mut Carryover, tool: &str, input: &str, output: &str, path: Option<&str>) {
    c.record_tool_result(tool, &json(input), output, false, &path.map(String::from));
}

#[test]
fn failed_call_leaves_no_trace() {
    let mut c = Carryover::default();
    c.record_tool_result("bash", &json(r#"{"command": "ls"}"#), "no", true, &Some("/a".into()));
    assert!(!c.has_data());
    assert_eq!(c.to_context_text(), "");
}

#[test]
fn calls_are_recorded_by_tool() {
    let mut c = Carryover::default();
    record(&mut c, "read", r#"{"offset": 9, "limit": 2}"#, "    10 | a\n    11 | b\n(lines 10-11 of 40)", Some("/a"));
    record(&mut c, "edit", "{}", "ok", Some("/b"));
    record(&mut c, "bash", r#"{"command": "ls"}"#, " two \nlines", None);
    record(&mut c, "bash", r#"{"command": "true"}"#, "", None);
    record(&mut c, "glob", r#"{"pattern": "*.rs"}"#, "", None);
    record(&mut c, "grep", r#"{"pattern": "x"}"#, "", None);
    record(&mut c, "web_fetch", r#"{"url": "http://u"}"#, "", None);
    record(&mut c, "web_search", r#"{"query": "q"}"#, "", None);
    record(&mut c, "skill_view", r#"{"name": "deploy"}"#, "", None);
    record(&mut c, "todo", "{}", "", None);
    assert_eq!(
        c.work_log,
        [
            "Read file /a (lines 10-11)",
            "Wrote/edited file /b",
            "Ran bash: ls [two]",
            "Ran bash: true [no output]",
            "Expanded glob *.rs",
            "Searched with grep pattern=x",
            "Fetched remote content from http://u",
            "Web search: q",
            "Loaded skill deploy",
        ]
    );
    assert_eq!(c.active_artifacts, ["/a", "/b", "http://u", "skill:deploy"]);
    assert_eq!(c.read_files[0].span, "lines 10-11");
    assert!(matches!(&c.read_files[0].content, ReadContent::Full(s) if s == "a\nb"));
}

#[test]
fn memory_keeps_its_limits() {
    let mut c = Carryover::default();
    for i in 0..20 {
        record(&mut c, "read", "{}", "     1 | x", Some(&format!("/f{i}")));
        c.remember_user_goal(&format!("goal {i}"));
        c.set_goal(&format!("goal {i}"));
    }
    c.remember_artifact("/f19");
    assert_eq!(c.read_files.len(), MAX_READ_FILES);
    assert_eq!(c.read_files[MAX_READ_FILES - 1].path, "/f19");
    assert_eq!(c.active_artifacts.len(), MAX_ACTIVE_ARTIFACTS);
    assert_eq!(c.active_artifacts[MAX_ACTIVE_ARTIFACTS - 1], "/f19");
    assert_eq!(c.work_log.len(), MAX_WORK_LOG);
    assert_eq!(c.user_goals.len(), MAX_USER_GOALS);
    assert_eq!(c.task_focus.recent_goals, ["goal 15", "goal 16", "goal 17", "goal 18", "goal 19"]);
}

#[test]
fn memory_is_told_in_sections() {
    let mut c = Carryover::default();
    c.remember_user_goal("fix  it");
    record(&mut c, "read", r#"{"limit": 1}"#, "     1 | x", Some("/a"));
    c.set_goal("ship it");
    let text = c.to_context_text();
    assert!(text.starts_with(
        "## User Goals\n- fix it\n## Files Read\n- /a (lines 1-1, full content preserved):\n  \
         ````text\nx\n  ````\n## Active Artifacts\n- /a\n## Work Done\n- Read file /a (lines 1-1)\n\
         ## Task Focus\n- Current goal: ship it"
    ));
}

#[test]
fn blank_lines_lose_their_numbers_too() {
    assert_eq!(strip_line_numbers("     1 | a\n     2 | \n     3 | b"), "a\n\nb");
}

#[test]
fn what_is_kept_of_a_file_fits() {
    let mut c = Carryover::default();
    c.remember_read_file("/a", 0, 1, &"你".repeat(5000));
    match &c.read_files[0].content {
        ReadContent::Full(s) => assert_eq!(s.len(), 4095),
        ReadContent::Preview(_) => panic!("expected the content"),
    }
    c.remember_read_file("/b", 4, 3, &"x\n".repeat(300));
    assert!(matches!(&c.read_files[1].content, ReadContent::Preview(s) if s == "x | x | x | x | x | x"));
    assert_eq!(c.read_files[1].span, "lines 5-7");
}

#[test]
fn text_is_empty_only_where_there_is_nothing_to_tell() {
    assert_eq!(Carryover::default().to_context_text(), "");

    let mut c = Carryover::default();
    c.set_goal("ship it");
    assert!(c.has_pending_goal());
    assert!(c.to_context_text().lines().any(|line| line == "- Current goal: ship it"));
    c.clear_goal();
    assert_eq!(c.to_context_text(), "");

    c.remember_user_goal("fix it");
    assert_eq!(c.to_context_text(), "## User Goals\n- fix it");

    let mut c = Carryover::default();
    c.remember_artifact("/a");
    assert!(c.has_data());
    assert_eq!(c.to_context_text(), "## Active Artifacts\n- /a");

    let mut c = Carryover::default();
    c.verified_work.push("it builds".into());
    assert!(!c.has_data());
    assert_eq!(c.to_context_text(), "## Verified Completed\n- it builds");

    let mut c = Carryover::default();
    record(&mut c, "glob", r#"{"pattern": "*.rs"}"#, "", None);
    assert!(c.has_data());
    assert_eq!(c.to_context_text(), "## Work Done\n- Expanded glob *.rs");
}
