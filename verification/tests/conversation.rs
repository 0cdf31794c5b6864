use zeno::api::ApiError;
use zeno::api::ContentBlock;
use zeno::api::Role;
use zeno::engine::compact::auto_compact_if_needed;
use zeno::engine::compact::context_collapse;
use zeno::engine::compact::estimate_extra_tokens;
use zeno::engine::compact::estimate_tokens;
use zeno::engine::compact::full_compact;
use zeno::engine::compact::is_prompt_too_long_error;
use zeno::engine::compact::micro_compact;
use zeno::engine::compact::resume_compact;
use zeno::engine::compact::CompactConfig;
use zeno::engine::compact::CompactError;
use zeno::engine::compact::CompactMethod;
use zeno::engine::compact::CompactStep;
use zeno::engine::messages::boundary_crosses_tool_pair;
use zeno::engine::messages::find_safe_split_point;
use zeno::engine::messages::ConversationHistory;
use zeno::engine::query::context::build_request_prompt;
use zeno::engine::query::context::summarize_turn;
use zeno::engine::query::context::PromptParts;
use zeno::json::Json;

fn says(text: &str) -> ContentBlock {
    ContentBlock::Text { text: text.into() }
}

fn calls(id: &str) -> ContentBlock {
    ContentBlock::ToolUse { id: id.into(), name: "read".into(), input: Json::empty_object() }
}

fn gives(id: &str, content: &str) -> ContentBlock {
    ContentBlock::ToolResult { tool_use_id: id.into(), content: content.into(), is_error: None }
}

/// A conversation of one tool call, with something before and after.
fn with_call(result: &str) -> ConversationHistory {
    let mut h = ConversationHistory::new();
    h.push_user("q1");
    h.push_assistant_blocks(vec![says("looking"), calls("t1")]);
    h.push_tool_results(vec![gives("t1", result)]);
    h.push_assistant_blocks(vec![says("found")]);
    h.push_user("q2");
    h
}

fn answered(h: &ConversationHistory) -> bool {
    h.entries_raw().iter().all(|e| {
        e.content.iter().all(|b| match b {
            ContentBlock::ToolUse { id, .. } => h.entries_raw().iter().any(|f| {
                f.content
                    .iter()
                    .any(|c| matches!(c, ContentBlock::ToolResult { tool_use_id, .. } if tool_use_id == id))
            }),
            _ => true,
        })
    })
}

#[test]
fn sanitizing_drops_calls_without_results() {
    let mut h = ConversationHistory::new();
    h.push_user("q");
    h.push_assistant_blocks(vec![says("looking"), calls("t1"), calls("t2")]);
    h.push_tool_results(vec![gives("t1", "r"), gives("t9", "stray")]);
    h.sanitize();
    assert!(answered(&h));
    assert_eq!(h.entries_raw()[1].content.len(), 2);
    assert_eq!(h.entries_raw()[2].content.len(), 1);
    let before = h.len();
    h.sanitize();
    assert_eq!(h.len(), before);
}

#[test]
fn sound_conversation_stays_as_it_is() {
    let mut h = with_call("r");
    h.sanitize();
    assert_eq!(h.len(), 5);
    assert_eq!(h.entries_raw()[1].content.len(), 2);
}

#[test]
fn split_does_not_part_a_call_from_its_result() {
    let h = with_call("r");
    assert!(boundary_crosses_tool_pair(h.entries_raw(), 2));
    assert!(!boundary_crosses_tool_pair(h.entries_raw(), 3));
    assert_eq!(find_safe_split_point(h.entries_raw(), 3), 1);
    assert_eq!(find_safe_split_point(h.entries_raw(), 2), 3);
    assert_eq!(find_safe_split_point(h.entries_raw(), 9), 0);
}

#[test]
fn old_results_are_shortened() {
    let mut h = with_call(&"x".repeat(5000));
    assert!(micro_compact(&mut h, 1));
    match &h.entries_raw()[2].content[0] {
        ContentBlock::ToolResult { content, tool_use_id, .. } => {
            assert!(content.len() < 5000);
            assert_eq!(tool_use_id, "t1");
        }
        _ => panic!("expected the result"),
    }
    assert_eq!(h.len(), 5);
}

#[test]
fn summary_takes_the_place_of_older_entries() {
    let mut h = with_call("r");
    h.replace_with_summary("what went before".into(), 2);
    assert_eq!(h.len(), 3);
    assert!(h.entries_raw()[0].role == Role::User);
    assert!(matches!(&h.entries_raw()[0].content[0], ContentBlock::Text { text } if text.contains("what went before")));
    assert!(matches!(&h.entries_raw()[2].content[0], ContentBlock::Text { text } if text == "q2"));
}

#[test]
fn guidance_goes_to_the_last_result() {
    let mut h = ConversationHistory::new();
    assert!(!h.append_steer_to_last_tool_result("stop"));
    h.push_user("q");
    h.push_assistant_blocks(vec![calls("t1")]);
    h.push_tool_results(vec![gives("t1", "r")]);
    assert!(h.append_steer_to_last_tool_result("stop"));
    assert!(h.append_steer_to_last_tool_result("left\n\nright"));
    let shown: Vec<&str> = h.entries_raw()[2]
        .content
        .iter()
        .map(|b| match b {
            ContentBlock::Text { text } => text.as_str(),
            _ => "",
        })
        .collect();
    assert_eq!(
        shown,
        ["", "[User guidance]: stop", "[User guidance 1/2]: left", "[User guidance 2/2]: right"]
    );
}

#[test]
fn estimate_goes_by_characters() {
    let mut h = ConversationHistory::new();
    h.push_user(&"a".repeat(35));
    assert_eq!(estimate_tokens(&h), 10);
    assert_eq!(estimate_extra_tokens("", &Vec::new()), 0);
    assert!(estimate_extra_tokens("prompt", &vec!["{}".to_string()]) > 0);
}

#[test]
fn errors_that_are_too_long_are_told_apart() {
    let http = |body: &str| ApiError::Http {
        status: 400,
        body: body.into(),
        retry_after: None,
        message: String::new(),
    };
    assert!(is_prompt_too_long_error(&http("This model's MAXIMUM CONTEXT is 8k")));
    assert!(is_prompt_too_long_error(&http("too large for the model")));
    assert!(!is_prompt_too_long_error(&http("rate limit")));
    assert!(!is_prompt_too_long_error(&ApiError::Other { message: "prompt too long".into() }));
}

fn config(threshold: usize) -> CompactConfig {
    CompactConfig { threshold_tokens: Some(threshold), keep_recent: 1, enabled: true }
}

#[test]
fn small_conversation_is_not_compacted() {
    let mut h = with_call("r");
    assert!(matches!(auto_compact_if_needed(&mut h, &config(10_000), 0), CompactStep::Nothing));
    let off = CompactConfig { enabled: false, ..config(0) };
    assert!(matches!(auto_compact_if_needed(&mut h, &off, 0), CompactStep::Nothing));
    assert_eq!(h.len(), 5);
}

#[test]
fn shortened_results_may_be_enough() {
    let mut h = with_call(&"x".repeat(50_000));
    match auto_compact_if_needed(&mut h, &config(5000), 0) {
        CompactStep::Done(r) => {
            assert!(r.method == CompactMethod::Micro);
            assert!(r.tokens_before > 5000 && r.tokens_after < 5000);
        }
        _ => panic!("expected a micro compaction"),
    }
}

#[test]
fn compaction_asks_for_a_summary_and_gives_up_in_time() {
    let mut h = ConversationHistory::new();
    for i in 0..9 {
        h.push_user(&format!("question {i} {}", "x".repeat(5000)));
        h.push_assistant_blocks(vec![says("answer")]);
    }
    let mut run = match auto_compact_if_needed(&mut h, &config(100), 0) {
        CompactStep::Summarize(run) => run,
        _ => panic!("expected a summary to be asked for"),
    };
    let mut asked = 1;
    loop {
        match resume_compact(&mut h, &config(100), run, Err("Prompt too long".into())) {
            CompactStep::Summarize(next) => {
                run = next;
                asked += 1;
            }
            CompactStep::Failed(e) => {
                assert!(matches!(&e, CompactError::LlmFailed(m) if m == "Prompt too long"));
                break;
            }
            _ => panic!("expected to go on or give up"),
        }
    }
    assert_eq!(asked, 4);
    let before = h.len();
    match auto_compact_if_needed(&mut h, &config(100), 0) {
        CompactStep::Summarize(run) => {
            match resume_compact(&mut h, &config(100), run, Ok("all of it".into())) {
                CompactStep::Done(r) => assert!(r.method == CompactMethod::Full),
                _ => panic!("expected the end"),
            }
        }
        _ => panic!("expected a summary to be asked for"),
    }
    assert!(h.len() < before);
}

#[test]
fn text_is_collapsed_by_its_characters() {
    let build = |n: usize| {
        let mut h = ConversationHistory::new();
        h.push_user(&"你".repeat(n));
        h.push_assistant_blocks(vec![says("a")]);
        h.push_user("b");
        h.push_assistant_blocks(vec![says("c")]);
        h
    };
    let text = |h: &ConversationHistory| match &h.entries_raw()[0].content[0] {
        ContentBlock::Text { text } => text.clone(),
        _ => panic!("expected text"),
    };
    for n in [900, 2400] {
        let mut h = build(n);
        assert!(!context_collapse(&mut h, 1));
        assert_eq!(text(&h), "你".repeat(n));
    }
    let mut h = build(2401);
    assert!(context_collapse(&mut h, 1));
    assert_eq!(
        text(&h),
        format!("{}\n...[collapsed 1000 chars]...\n{}", "你".repeat(900), "你".repeat(501))
    );
}

#[test]
fn nothing_may_be_kept() {
    let mut h = ConversationHistory::new();
    h.push_user("hi");
    assert_eq!(find_safe_split_point(h.entries_raw(), 0), 1);
    assert!(!boundary_crosses_tool_pair(h.entries_raw(), 1));
    h.replace_with_summary("all of it".into(), 0);
    assert_eq!(h.len(), 1);
}

#[test]
fn results_are_shortened_by_their_characters() {
    let mut h = with_call(&"你".repeat(50));
    assert!(!h.truncate_old_tool_results(1, 50));
    assert!(h.truncate_old_tool_results(1, 49));
    match &h.entries_raw()[2].content[0] {
        ContentBlock::ToolResult { content, .. } => assert_eq!(*content, "你".repeat(49) + "..."),
        _ => panic!("expected the result"),
    }
}

#[test]
fn sanitizing_drops_what_says_nothing() {
    let mut h = ConversationHistory::new();
    h.push_user("q");
    h.push_assistant_blocks(vec![says("  "), calls("t1")]);
    h.push_user("again");
    h.sanitize();
    assert_eq!(h.len(), 2);
    assert!(h.entries_raw().iter().all(|e| e.role == Role::User));
    h.sanitize();
    assert_eq!(h.len(), 2);
}

#[test]
fn case_of_an_error_makes_no_difference() {
    let error = |body: &str| ApiError::Http {
        status: 400,
        body: body.into(),
        retry_after: None,
        message: String::new(),
    };
    for body in ["Prompt too long for model", "PROMPT TOO LONG FOR MODEL", "Context Length exceeded"] {
        assert!(is_prompt_too_long_error(&error(body)));
    }
    assert!(!is_prompt_too_long_error(&error("network timeout")));
    assert!(!is_prompt_too_long_error(&ApiError::Other { message: "prompt too long".into() }));
}

#[test]
fn request_prompt_is_put_together() {
    let parts = PromptParts {
        vision: "\n\nseen".into(),
        session_files: Some("files".into()),
        sub_agents: None,
        injected: vec!["one".into(), "two".into()],
        relevant_memory: "remember".into(),
        memory_guidance: "guidance".into(),
        memory: "live".into(),
    };
    assert_eq!(
        build_request_prompt("base", &parts),
        "base\n\nseen\n\nfiles\n\none\n\ntwo\n\n## Relevant Memory\n\nremember\n\nguidance\n\nlive"
    );
}

#[test]
fn turn_is_summarised_by_words_or_tools() {
    assert_eq!(summarize_turn("done", &Vec::new()), "done");
    let call = zeno::engine::query::tool_exec::CollectedToolUse {
        id: "t".into(),
        name: "read".into(),
        input_json: String::new(),
    };
    assert_eq!(summarize_turn("  ", &vec![call]), "[read]");
}

#[test]
fn failed_summary_changes_nothing() {
    let mut h = ConversationHistory::new();
    for i in 0..12 {
        h.push_user(&format!("message {i}"));
    }
    match full_compact(&mut h, 4, Err("no model".into())) {
        Err(e) => assert!(e.message().ends_with("no model")),
        Ok(()) => panic!("expected an error"),
    }
    assert_eq!(h.len(), 12);
    assert!(full_compact(&mut h, 4, Ok("what was said".into())).is_ok());
    assert!(h.len() < 12);
    assert!(matches!(&h.entries_raw()[h.len() - 1].content[0], ContentBlock::Text { text }
        if text == "message 11"));
}
