use zeno::api::ApiError;
use zeno::api::ContentBlock;
use zeno::api::Role;
use zeno::api::StopReason;
use zeno::api::StreamEvent;
use zeno::api::Usage;
use zeno::engine::compact::CompactConfig;
use zeno::engine::compact::CompactMethod;
use zeno::engine::compact::CompactResult;
use zeno::engine::messages::ConversationHistory;
use zeno::engine::query::run::begin_query;
use zeno::engine::query::run::can_step;
use zeno::engine::query::run::query_tui;
use zeno::engine::query::run::QueryAction;
use zeno::engine::query::run::QueryEvent;
use zeno::engine::query::run::QueryPhase;
use zeno::engine::query::run::QueryReaction;
use zeno::engine::query::run::QueryRun;
use zeno::engine::query_engine::steer_into_slot;
use zeno::engine::query_engine::EngineSettings;
use zeno::engine::query_engine::ProviderConfig;
use zeno::engine::query_engine::QueryEngine;
use zeno::engine::review::should_run_review;
use zeno::engine::review::spawn_background_review;
use zeno::engine::review::SkillsConfig;
use zeno::engine::review::SKILL_REVIEW_PROMPT;
use zeno::engine::tui_events::EngineEvent;

fn engine() -> QueryEngine {
    QueryEngine::new(
        "m1".into(),
        "be kind".into(),
        ConversationHistory::new(),
        3,
        4096,
        CompactConfig::with_threshold(None),
        EngineSettings {
            active_provider: "p1".into(),
            providers: vec![ProviderConfig {
                name: "p1".into(),
                default_model: "d1".into(),
                max_output_tokens: Some(8192),
                sees_images: false,
            }],
            max_retries: 1,
            max_auto_continue: 2,
            stream_timeout_secs: 30,
            skills: SkillsConfig {
                curator_enabled: false,
                curator_interval_hours: 24,
                stale_after_days: 30,
                archive_after_days: 90,
                background_review_enabled: true,
                review_interval_turns: 2,
            },
            can_delegate: true,
        },
        "/work".into(),
    )
}

fn step(engine: &mut QueryEngine, run: &mut QueryRun, event: QueryEvent) -> QueryReaction {
    assert!(can_step(engine, run, &event));
    query_tui(engine, run, event)
}

fn begin(engine: &mut QueryEngine) -> QueryRun {
    begin_query(engine, "hello", &Vec::new(), None)
}

/// Takes a query to where its stream is open.
fn open(engine: &mut QueryEngine, run: &mut QueryRun) {
    let r = step(engine, run, QueryEvent::TurnTop { cancelled: false });
    assert!(matches!(r.action, QueryAction::Compact { .. }));
    let r = step(engine, run, QueryEvent::Compacted(None));
    assert!(matches!(r.action, QueryAction::Open));
    let r = step(engine, run, QueryEvent::Opened);
    assert!(matches!(r.action, QueryAction::Read { usage: None }));
}

fn text(engine: &mut QueryEngine, run: &mut QueryRun, s: &str) {
    let r = step(engine, run, QueryEvent::Piece(StreamEvent::TextDelta(s.into())));
    assert!(matches!(&r.events[0], EngineEvent::TextDelta(d) if d == s));
}

fn complete(engine: &mut QueryEngine, run: &mut QueryRun, stop_reason: StopReason) {
    let usage = Usage { input_tokens: 10, output_tokens: 5, ..Usage::default() };
    let r = step(engine, run, QueryEvent::Piece(StreamEvent::MessageComplete { stop_reason, usage }));
    assert!(matches!(r.action, QueryAction::Read { usage: Some(_) }));
}

fn call(engine: &mut QueryEngine, run: &mut QueryRun, id: &str, name: &str, input: &str) {
    step(
        engine,
        run,
        QueryEvent::Piece(StreamEvent::ToolUseStart { id: id.into(), name: name.into(), input_json: None }),
    );
    step(
        engine,
        run,
        QueryEvent::Piece(StreamEvent::ToolUseDelta { id: id.into(), delta_json: input.into() }),
    );
}

fn statuses(r: &QueryReaction) -> Vec<String> {
    r.events
        .iter()
        .filter_map(|e| match e {
            EngineEvent::Status(s) => Some(s.clone()),
            _ => None,
        })
        .collect()
}

#[test]
fn answer_in_words_ends_the_query() {
    let mut e = engine();
    let mut q = begin(&mut e);
    open(&mut e, &mut q);
    text(&mut e, &mut q, "hi ");
    text(&mut e, &mut q, "there");
    complete(&mut e, &mut q, StopReason::EndTurn);
    let r = step(&mut e, &mut q, QueryEvent::StreamEnded);
    assert!(matches!(r.action, QueryAction::Stop { .. }));
    assert!(matches!(r.events.last(), Some(EngineEvent::QueryDone { tokens: 15, .. })));
    assert!(q.phase == QueryPhase::Over);
    assert_eq!(e.history.len(), 2);
    assert!(matches!(&e.history.entries_raw()[1].content[0], ContentBlock::Text { text } if text == "hi there"));
}

#[test]
fn tools_run_and_their_results_go_back() {
    let mut e = engine();
    let mut q = begin(&mut e);
    open(&mut e, &mut q);
    call(&mut e, &mut q, "t1", "read", r#"{"path": "a.rs"}"#);
    complete(&mut e, &mut q, StopReason::ToolUse);
    let r = step(&mut e, &mut q, QueryEvent::StreamEnded);
    assert!(matches!(r.action, QueryAction::ConfirmTools));
    let r = step(&mut e, &mut q, QueryEvent::ToolsReady { cancelled: false });
    match &r.action {
        QueryAction::RunTools { calls, parallel } => {
            assert_eq!(calls.len(), 1);
            assert_eq!(calls[0].input_json, r#"{"path": "a.rs"}"#);
            assert!(*parallel);
        }
        _ => panic!("expected the tools to run"),
    }
    assert!(matches!(&r.events[0], EngineEvent::ToolStart { name, .. } if name == "read"));
    steer_into_slot(&mut e.pending_steer, "mind the gap");
    let results = vec![ContentBlock::ToolResult {
        tool_use_id: "t1".into(),
        content: "contents".into(),
        is_error: None,
    }];
    let r = step(&mut e, &mut q, QueryEvent::ToolsRan { results, cancelled: false });
    assert!(matches!(&r.action, QueryAction::CompressEdits(ids) if ids.is_empty()));
    let r = step(&mut e, &mut q, QueryEvent::EditsCompressed(Vec::new()));
    assert!(statuses(&r)[0].starts_with("⇢ Steered: mind the gap"));
    assert!(matches!(&r.action, QueryAction::Sync { input, summary } if input == "hello" && summary == "[read]"));
    assert!(e.pending_steer.is_none());
    assert!(matches!(&e.history.entries_raw()[2].content[1], ContentBlock::Text { text }
        if text == "[User guidance]: mind the gap"));
    assert!(q.phase == QueryPhase::Top);
}

#[test]
fn turns_are_bounded() {
    let mut e = engine();
    e.max_turns = 0;
    let mut q = begin(&mut e);
    let r = step(&mut e, &mut q, QueryEvent::TurnTop { cancelled: false });
    assert_eq!(
        statuses(&r)[0],
        "max turns (0) reached — task may not be complete. Type '继续' or 'continue' to resume."
    );
    assert!(matches!(r.action, QueryAction::Stop { unannounced: Some(1), .. }));
}

#[test]
fn failed_request_is_made_again() {
    let mut e = engine();
    let mut q = begin(&mut e);
    step(&mut e, &mut q, QueryEvent::TurnTop { cancelled: false });
    step(&mut e, &mut q, QueryEvent::Compacted(None));
    let error = ApiError::Http {
        status: 529,
        body: "overloaded".into(),
        retry_after: Some("2".into()),
        message: "HTTP 529".into(),
    };
    let r = step(&mut e, &mut q, QueryEvent::OpenFailed(error));
    assert_eq!(statuses(&r)[0], "LLM response failed: HTTP 529 — retrying (1/1)...");
    match &r.action {
        QueryAction::Wait { attempt: 1, status: Some(529), retry_after: Some(s) } => assert_eq!(s, "2"),
        _ => panic!("expected a pause"),
    }
    let r = step(&mut e, &mut q, QueryEvent::Waited);
    assert!(matches!(r.action, QueryAction::Open));
    let r = step(&mut e, &mut q, QueryEvent::OpenFailed(ApiError::Other { message: "gone".into() }));
    assert_eq!(
        statuses(&r)[0],
        "Model returned empty response after 2 attempts. Last error: gone"
    );
    assert!(matches!(r.action, QueryAction::Stop { .. }));
}

#[test]
fn request_that_is_too_long_is_compacted() {
    let mut e = engine();
    let mut q = begin(&mut e);
    step(&mut e, &mut q, QueryEvent::TurnTop { cancelled: false });
    step(&mut e, &mut q, QueryEvent::Compacted(None));
    let error = ApiError::Http {
        status: 400,
        body: "Prompt Too Long".into(),
        retry_after: None,
        message: "HTTP 400".into(),
    };
    let r = step(&mut e, &mut q, QueryEvent::OpenFailed(error));
    assert!(matches!(r.action, QueryAction::CompactAgain));
    let result = CompactResult { method: CompactMethod::Full, tokens_before: 900, tokens_after: 90 };
    let r = step(&mut e, &mut q, QueryEvent::Compacted(Some(result)));
    assert_eq!(statuses(&r)[0], "reactive-compact: 900 → 90 tokens");
    assert!(matches!(r.action, QueryAction::Reopen));
}

#[test]
fn silent_model_is_asked_again() {
    let mut e = engine();
    let mut q = begin(&mut e);
    open(&mut e, &mut q);
    let r = step(&mut e, &mut q, QueryEvent::StreamEnded);
    assert_eq!(statuses(&r)[0], "LLM response empty — retrying (1/1)...");
    step(&mut e, &mut q, QueryEvent::Waited);
    step(&mut e, &mut q, QueryEvent::Opened);
    e.carryover.set_goal("build it");
    let r = step(&mut e, &mut q, QueryEvent::StreamEnded);
    assert_eq!(statuses(&r)[1], "Model returned empty — retrying with goal reminder...");
    assert!(matches!(r.action, QueryAction::NextTurn));
    assert_eq!(q.auto_continue, 1);
}

#[test]
fn silent_stream_is_given_up() {
    let mut e = engine();
    let mut q = begin(&mut e);
    open(&mut e, &mut q);
    text(&mut e, &mut q, "half a");
    let r = step(&mut e, &mut q, QueryEvent::StreamTimedOut);
    assert!(matches!(&r.events[0], EngineEvent::Error(s) if s == "Stream timed out after 30s of inactivity."));
    assert!(matches!(r.action, QueryAction::Wait { attempt: 1, .. }));
}

#[test]
fn cut_off_answer_is_continued() {
    let mut e = engine();
    let mut q = begin(&mut e);
    open(&mut e, &mut q);
    text(&mut e, &mut q, "once upon");
    complete(&mut e, &mut q, StopReason::MaxTokens);
    let r = step(&mut e, &mut q, QueryEvent::StreamEnded);
    assert_eq!(statuses(&r)[0], "Output truncated (max tokens reached) — continuing...");
    assert!(matches!(r.action, QueryAction::NextTurn));
    assert_eq!(e.history.len(), 3);
}

#[test]
fn goal_is_pursued_until_done() {
    let mut e = engine();
    e.carryover.set_goal("build it");
    let mut q = begin(&mut e);
    open(&mut e, &mut q);
    text(&mut e, &mut q, "I could build it");
    let r = step(&mut e, &mut q, QueryEvent::StreamEnded);
    assert_eq!(statuses(&r)[0], "Task not complete — enforcing tool use...");
    open(&mut e, &mut q);
    text(&mut e, &mut q, "built [DONE]");
    let r = step(&mut e, &mut q, QueryEvent::StreamEnded);
    assert!(matches!(r.action, QueryAction::Stop { .. }));
    assert!(!e.carryover.has_pending_goal());
    let last = e.history.entries_raw().last().unwrap();
    assert!(matches!(&last.content[0], ContentBlock::Text { text } if text == "built "));
}

#[test]
fn thinking_alone_is_not_an_answer() {
    let mut e = engine();
    let mut q = begin(&mut e);
    open(&mut e, &mut q);
    step(&mut e, &mut q, QueryEvent::Piece(StreamEvent::ReasoningDelta("hmm".into())));
    let r = step(&mut e, &mut q, QueryEvent::StreamEnded);
    assert_eq!(statuses(&r)[0], "Model is thinking...");
    assert_eq!(e.history.entries_raw()[1].reasoning_content.as_deref(), Some("hmm"));
}

#[test]
fn interrupted_query_keeps_what_was_said() {
    let mut e = engine();
    let mut q = begin(&mut e);
    open(&mut e, &mut q);
    text(&mut e, &mut q, "so far");
    steer_into_slot(&mut e.pending_steer, "wait");
    let r = step(&mut e, &mut q, QueryEvent::Cancelled);
    assert!(matches!(r.events[0], EngineEvent::Interrupted));
    assert!(matches!(r.action, QueryAction::Stop { unannounced: None, .. }));
    assert!(e.pending_steer.is_none());
    assert_eq!(e.history.len(), 2);
}

#[test]
fn interrupted_tools_leave_no_call_unanswered() {
    let mut e = engine();
    let mut q = begin(&mut e);
    open(&mut e, &mut q);
    call(&mut e, &mut q, "t1", "bash", r#"{"command": "ls"}"#);
    step(&mut e, &mut q, QueryEvent::StreamEnded);
    step(&mut e, &mut q, QueryEvent::ToolsReady { cancelled: false });
    step(&mut e, &mut q, QueryEvent::ToolsAborted);
    let unanswered = e
        .history
        .entries_raw()
        .iter()
        .any(|x| x.content.iter().any(|b| matches!(b, ContentBlock::ToolUse { .. })));
    assert!(!unanswered);
}

#[test]
fn pictures_are_described_for_models_that_cannot_see() {
    let mut e = engine();
    let images = vec![("image/png".to_string(), "AAAA".to_string())];
    let mut q = begin_query(&mut e, "what is this", &images, Some("what is this?".into()));
    assert_eq!(q.input, "what is this?");
    step(&mut e, &mut q, QueryEvent::TurnTop { cancelled: false });
    let r = step(&mut e, &mut q, QueryEvent::Compacted(None));
    assert!(matches!(r.action, QueryAction::DescribeImages));
    assert!(!can_step(&e, &q, &QueryEvent::Described(Vec::new())));
    let r = step(&mut e, &mut q, QueryEvent::Described(vec![Ok("a cat".into())]));
    assert!(matches!(r.action, QueryAction::Open));
    assert!(q.vision.ends_with("[Image Analysis — image (clipboard)]:\na cat"));
    assert_eq!(e.history.entries_raw()[0].content.len(), 1);
}

#[test]
fn event_out_of_turn_is_not_taken() {
    let mut e = engine();
    let q = begin(&mut e);
    assert!(!can_step(&e, &q, &QueryEvent::StreamEnded));
    assert!(can_step(&e, &q, &QueryEvent::TurnTop { cancelled: true }));
}

#[test]
fn review_comes_once_in_an_interval() {
    let config = engine().settings.skills;
    let due: Vec<u32> = (0..7).filter(|n| should_run_review(*n, &config)).collect();
    assert_eq!(due, [2, 4, 6]);
    let off = SkillsConfig { background_review_enabled: false, ..config };
    assert!(!should_run_review(2, &off));
    let never = SkillsConfig { review_interval_turns: 0, ..config };
    assert!(!should_run_review(2, &never));
    let task = spawn_background_review("User: hi");
    assert_eq!(task.goal, format!("{SKILL_REVIEW_PROMPT}\n\n## Conversation Summary\n\nUser: hi"));
    assert!(!task.tools.contains(&"bash".to_string()));
}

#[test]
fn guidance_adds_up_line_by_line() {
    let mut slot = None;
    assert!(steer_into_slot(&mut slot, " first "));
    assert!(!steer_into_slot(&mut slot, "   "));
    assert!(steer_into_slot(&mut slot, "second"));
    assert_eq!(slot.as_deref(), Some("first\nsecond"));
}

#[test]
fn engine_settings_can_be_changed() {
    let mut e = engine();
    assert!(e.set_provider("p1").is_ok());
    assert_eq!(e.model, "d1");
    assert!(e.set_provider("p2").is_err());
    assert_eq!(e.provider_max_tokens(), Some(8192));
    e.set_system_prompt("be brief".into());
    e.set_max_turns(9);
    assert_eq!((e.system_prompt.as_str(), e.max_turns), ("be brief", 9));
    e.history.push_user("q");
    assert!(!e.has_pending_continuation());
    let entries = e.history.entries_raw().iter().map(|x| x.copy()).collect();
    e.load_messages(entries);
    assert_eq!(e.history.len(), 1);
    assert!(e.history.entries_raw()[0].role == Role::User);
    assert!(!e.can_auto_continue());
    e.carryover.set_goal("finish the work");
    assert!(e.can_auto_continue());
    e.set_compact_config(CompactConfig::with_threshold(Some(1000)));
    assert_eq!(e.compact_config.threshold_tokens, Some(1000));
}

#[test]
fn talk_is_prompted_as_often_as_allowed_and_then_given_up() {
    let mut e = engine();
    let mut q = begin(&mut e);
    e.carryover.set_goal("build it");
    for round in 0..3 {
        open(&mut e, &mut q);
        text(&mut e, &mut q, "I will build it soon.");
        complete(&mut e, &mut q, if round == 1 { StopReason::MaxTokens } else { StopReason::EndTurn });
        let r = step(&mut e, &mut q, QueryEvent::StreamEnded);
        if round < 2 {
            assert!(matches!(r.action, QueryAction::NextTurn));
            assert!(e.carryover.has_pending_goal());
            assert!(!r.events.iter().any(|e| matches!(e, EngineEvent::QueryDone { .. })));
        } else {
            assert!(matches!(r.action, QueryAction::Stop { .. }));
            assert!(matches!(r.events.last(), Some(EngineEvent::QueryDone { .. })));
        }
    }
    assert!(q.phase == QueryPhase::Over);
    assert_eq!(q.auto_continue, 2);
    assert!(!e.carryover.has_pending_goal());
    let said: Vec<(bool, String)> = e
        .history
        .entries_raw()
        .iter()
        .map(|entry| match &entry.content[0] {
            ContentBlock::Text { text } => (entry.role == Role::User, text.lines().next().unwrap().to_string()),
            _ => panic!("expected words"),
        })
        .collect();
    let reply = (false, "I will build it soon.".to_string());
    let prompt = |s: &str| (true, s.to_string());
    assert_eq!(
        said,
        [
            prompt("hello"),
            reply.clone(),
            prompt("[system] You stopped before completing the task. Continue working on the goal."),
            reply.clone(),
            prompt("Your previous response was cut off because it reached the maximum output token limit. Please continue from exactly where you left off — do not repeat what you already said."),
            reply,
        ]
    );
}
