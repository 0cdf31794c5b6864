use zeno::api::ContentBlock;
use zeno::engine::query::json_utils::parse_tool_input_or_empty;
use zeno::engine::query::json_utils::repair_candidates;
use zeno::engine::query::tool_display::format_tool_input_summary;
use zeno::engine::query::tool_exec::extract_scope_path;
use zeno::engine::query::tool_exec::format_permission_detail;
use zeno::engine::query::tool_exec::should_parallelize;
use zeno::engine::query::tool_exec::should_parallelize_in;
use zeno::engine::query::tool_exec::CollectedToolUse;
use zeno::engine::query::tool_run::execute_single_tool_tui;
use zeno::engine::query::tool_run::execute_single_tool_tui_catch;
use zeno::engine::query::tool_run::PermissionDecision;
use zeno::engine::query::tool_run::ToolAction;
use zeno::engine::query::tool_run::ToolEvent;
use zeno::engine::query::tool_run::ToolPhase;
use zeno::engine::query::tool_run::ToolReaction;
use zeno::engine::query::tool_run::ToolRun;
use zeno::engine::tui_events::EngineEvent;
use zeno::json::Json;
use zeno::paths::paths_overlap;

fn tool(name: &str, input: &str) -> CollectedToolUse {
    CollectedToolUse { id: "t1".into(), name: name.into(), input_json: input.into() }
}

fn result(r: &ToolReaction) -> (&str, Option<bool>) {
    match &r.action {
        ToolAction::Finish { block: Some(ContentBlock::ToolResult { content, is_error, .. }), .. } => {
            (content, *is_error)
        }
        _ => panic!("expected a result"),
    }
}

/// Takes a call to where the policy is asked.
fn to_policy(name: &str, input: &str) -> ToolRun {
    let (mut run, r) = ToolRun::begin(tool(name, input), 7);
    assert!(matches!(r.action, ToolAction::RunPreHooks));
    let r = execute_single_tool_tui(&mut run, ToolEvent::HooksRan(None));
    assert!(matches!(r.action, ToolAction::Validate));
    let r = execute_single_tool_tui(&mut run, ToolEvent::Validated(None));
    assert!(matches!(r.action, ToolAction::CheckPermission));
    run
}

fn asked() -> ToolEvent {
    ToolEvent::Decided(PermissionDecision {
        allowed: false,
        requires_confirmation: true,
        reason: "writes outside".into(),
    })
}

#[test]
fn allowed_tool_runs() {
    let mut run = to_policy("bash", r#"{"command": "ls"}"#);
    let r = execute_single_tool_tui(&mut run, ToolEvent::AllAllowed);
    assert!(matches!(r.action, ToolAction::Execute));
    let r = execute_single_tool_tui(&mut run, ToolEvent::Executed(Ok("a\nb".into())));
    assert_eq!(result(&r), ("a\nb", None));
    assert!(run.phase == ToolPhase::Over);
}

#[test]
fn tool_that_failed_says_so() {
    let mut run = to_policy("bash", r#"{"command": "ls"}"#);
    execute_single_tool_tui(&mut run, ToolEvent::AllAllowed);
    let r = execute_single_tool_tui(&mut run, ToolEvent::Executed(Err("no such file".into())));
    assert_eq!(result(&r).1, Some(true));
    assert!(result(&r).0.contains("no such file"));
}

#[test]
fn user_is_asked_and_answers() {
    for (answer, allowed, all) in [
        ("y", true, false),
        (" YES ", true, false),
        ("a", true, true),
        ("Always", true, true),
        ("n", false, false),
        ("", false, false),
    ] {
        let mut run = to_policy("bash", r#"{"command": " rm x "}"#);
        let r = execute_single_tool_tui(&mut run, asked());
        assert!(matches!(&r.events[0], EngineEvent::PermissionAsk { input, reply_to: 7, .. } if input == "$ rm x"));
        let r = execute_single_tool_tui(&mut run, ToolEvent::Replied(Some(answer.into())));
        assert_eq!(r.grant_all, all, "{answer}");
        if allowed {
            assert!(matches!(r.action, ToolAction::Execute), "{answer}");
        } else {
            assert_eq!(result(&r), ("Permission denied by user.", Some(true)), "{answer}");
        }
    }
}

#[test]
fn refused_calls_never_run() {
    let mut run = to_policy("write", r#"{"path": "x", "content": "y"}"#);
    let r = execute_single_tool_tui(
        &mut run,
        ToolEvent::Decided(PermissionDecision {
            allowed: false,
            requires_confirmation: false,
            reason: "read-only".into(),
        }),
    );
    assert_eq!(result(&r), ("read-only", Some(true)));

    let (mut run, _) = ToolRun::begin(tool("write", "{}"), 7);
    let r = execute_single_tool_tui(&mut run, ToolEvent::HooksRan(Some("not now".into())));
    assert_eq!(result(&r), ("not now", Some(true)));

    let (mut run, _) = ToolRun::begin(tool("write", "{}"), 7);
    execute_single_tool_tui(&mut run, ToolEvent::HooksRan(None));
    let r = execute_single_tool_tui(&mut run, ToolEvent::Validated(Some("no path".into())));
    assert_eq!(result(&r), ("Validation error: no path", Some(true)));
}

#[test]
fn kept_result_is_used() {
    let mut run = to_policy("read", r#"{"path": "x"}"#);
    let r = execute_single_tool_tui(&mut run, ToolEvent::AllAllowed);
    assert!(matches!(r.action, ToolAction::LookUpCache));
    let r = execute_single_tool_tui(&mut run, ToolEvent::CacheLooked(Some("kept".into())));
    assert_eq!(result(&r), ("kept", None));
    assert!(matches!(&r.events[0], EngineEvent::ToolOutput { output, .. } if output == "(cached) 4 chars"));
}

#[test]
fn arguments_that_cannot_be_read_end_the_call() {
    let (run, r) = ToolRun::begin(tool("bash", "not json at all"), 7);
    assert!(run.phase == ToolPhase::Over);
    assert_eq!(result(&r).1, Some(true));
    match &r.action {
        ToolAction::Finish { effects, .. } => {
            assert_eq!(effects.failed_input.as_deref(), Some("not json at all"))
        }
        _ => panic!("expected the end"),
    }
}

#[test]
fn call_without_a_result_gets_one() {
    let mut run = to_policy("bash", r#"{"command": "ls"}"#);
    execute_single_tool_tui(&mut run, asked());
    let r = execute_single_tool_tui(&mut run, ToolEvent::Cancelled);
    let block = match r.action {
        ToolAction::Finish { block, .. } => block,
        _ => panic!("expected the end"),
    };
    assert!(block.is_none());
    let (block, events) = execute_single_tool_tui_catch(&run.call, block);
    assert!(matches!(&block, ContentBlock::ToolResult { content, is_error: Some(true), .. }
        if content == "Tool bash returned no result (internal error)"));
    assert_eq!(events.len(), 1);
}

#[test]
fn calls_side_by_side_do_not_collide() {
    let home = Some("/home/u".to_string());
    let batch = |calls: &[(&str, &str)]| {
        let v: Vec<CollectedToolUse> = calls.iter().map(|(n, i)| tool(n, i)).collect();
        should_parallelize_in(&v, "/w", &home)
    };
    assert!(batch(&[("ask_user", "{}")]));
    assert!(!batch(&[("ask_user", "{}"), ("read", "{}")]));
    assert!(batch(&[("read", r#"{"path": "a"}"#), ("read", r#"{"path": "b"}"#)]));
    assert!(!batch(&[("read", r#"{"path": "a"}"#), ("edit", r#"{"path": "./a"}"#)]));
    assert!(!batch(&[("read", r#"{"path": "a/b"}"#), ("write", r#"{"path": "/w/a"}"#)]));
    assert!(!batch(&[("read", r#"{"path": "~/x"}"#), ("write", r#"{"path": "/home/u/x"}"#)]));
    assert!(!batch(&[("read", "[1]"), ("grep", "{}")]));
    assert!(batch(&[("grep", r#"{"path": "a"}"#), ("bash", "{}")]));
    // The machine's own home makes no difference here.
    let v = vec![tool("read", r#"{"path": "a"}"#), tool("read", r#"{"path": "b"}"#)];
    assert!(should_parallelize(&v, "/w"));
}

#[test]
fn scope_of_a_call_is_absolute() {
    let path = |name: &str, input: &str| {
        extract_scope_path(name, &Json::parse(input).unwrap(), "/w", &Some("/home/u".into()))
    };
    assert_eq!(path("read", r#"{"path": "a.rs"}"#).as_deref(), Some("/w/a.rs"));
    assert_eq!(path("edit", r#"{"path": "/x/a.rs"}"#).as_deref(), Some("/x/a.rs"));
    assert_eq!(path("write", r#"{"path": "~/a.rs"}"#).as_deref(), Some("/home/u/a.rs"));
    assert_eq!(path("grep", r#"{"path": "a.rs"}"#), None);
    assert_eq!(path("read", r#"{"path": ""}"#), None);
}

#[test]
fn overlap_goes_by_components() {
    assert!(paths_overlap("/a/b", "/a/b/c"));
    assert!(paths_overlap("/a//b/", "/a/./b"));
    assert!(!paths_overlap("/a/b", "/a/bc"));
}

#[test]
fn permission_is_asked_for_in_words() {
    assert_eq!(format_permission_detail("bash", r#"{"command": " ls -l "}"#), "$ ls -l");
    assert_eq!(format_permission_detail("write", r#"{"path": "a", "content": "1\n2"}"#), "write a (2 lines)");
    assert_eq!(format_permission_detail("grep", "{}"), "grep (unknown) in cwd");
    assert_eq!(format_permission_detail("web_fetch", r#"{"url": "u"}"#), "web_fetch u");
    assert_eq!(format_permission_detail("other", r#"{"k": 1}"#), r#"{"k": 1}"#);
}

#[test]
fn repaired_input_is_read() {
    let j = parse_tool_input_or_empty(r#"{"command": "ls", "#);
    assert_eq!(j.get_str("command").as_deref(), Some("ls"));
    assert!(!repair_candidates(r#"{"a": 1"#).is_empty());
    let empty = parse_tool_input_or_empty("hopeless");
    assert!(empty.members.unwrap().is_empty());
}

#[test]
fn input_is_summarised_by_tool() {
    assert!(format_tool_input_summary("bash", r#"{"command": "ls"}"#).contains("ls"));
    assert!(format_tool_input_summary("read", r#"{"path": "a.rs"}"#).contains("a.rs"));
}
