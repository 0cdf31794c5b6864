use zeno::api::ContentBlock;
use zeno::api::StopReason;
use zeno::api::StreamEvent;
use zeno::api::Usage;
use zeno::engine::delegation::batch_completed;
use zeno::engine::delegation::batch_started;
use zeno::engine::delegation::batch_width;
use zeno::engine::delegation::collect_results;
use zeno::engine::delegation::run_delegated_task;
use zeno::engine::delegation::run_delegated_tasks_batch;
use zeno::engine::delegation::task_timeout;
use zeno::engine::delegation::DelegationConfig;
use zeno::engine::delegation::TaskOutcome;
use zeno::engine::sub_agent::build_effective_tools;
use zeno::engine::sub_agent::build_subagent_system_prompt;
use zeno::engine::sub_agent::create_subagent_client;
use zeno::engine::sub_agent::DelegationClient;
use zeno::engine::sub_agent::ProviderAccess;
use zeno::engine::sub_agent::SubAgentError;
use zeno::engine::sub_agent_run::can_step;
use zeno::engine::sub_agent_run::no_client_result;
use zeno::engine::sub_agent_run::run_single_sub_agent;
use zeno::engine::sub_agent_run::SubAgentAction;
use zeno::engine::sub_agent_run::SubAgentEvent;
use zeno::engine::sub_agent_run::SubAgentInput;
use zeno::engine::sub_agent_run::SubAgentLimits;
use zeno::engine::sub_agent_run::SubAgentReaction;
use zeno::engine::sub_agent_run::SubAgentResult;
use zeno::engine::sub_agent_run::SubAgentRun;

fn config(max_turns: u32) -> DelegationConfig {
    DelegationConfig {
        default_tools: vec!["read".into(), "write".into()],
        blocked_tools: vec!["bash".into()],
        child_timeout_ms: 1000,
        limits: SubAgentLimits { max_turns, max_auto_continue: 1 },
    }
}

fn agent(max_turns: u32) -> SubAgentRun {
    run_delegated_task(&config(max_turns), "count files", &Vec::new(), "30")
}

fn step(run: &mut SubAgentRun, input: SubAgentInput) -> SubAgentReaction {
    assert!(can_step(run, &input));
    run_single_sub_agent(run, input, "1.5")
}

fn open(run: &mut SubAgentRun) {
    let r = step(run, SubAgentInput::Top { cancelled: false, timed_out: false });
    assert!(matches!(r.action, SubAgentAction::Open));
    step(run, SubAgentInput::Opened);
}

fn piece(run: &mut SubAgentRun, e: StreamEvent) {
    step(run, SubAgentInput::Piece(e));
}

fn finished(r: SubAgentReaction) -> SubAgentResult {
    match r.action {
        SubAgentAction::Finish { result, .. } => result,
        _ => panic!("expected the end"),
    }
}

fn statuses(r: &SubAgentReaction) -> Vec<&str> {
    r.events
        .iter()
        .filter_map(|e| match e {
            SubAgentEvent::Status { message, .. } => Some(message.as_str()),
            _ => None,
        })
        .collect()
}

#[test]
fn sub_agent_runs_its_tools_and_reports() {
    let mut a = agent(5);
    open(&mut a);
    piece(&mut a, StreamEvent::TextDelta("writing".into()));
    piece(&mut a, StreamEvent::ToolUseStart {
        id: "t1".into(),
        name: "write".into(),
        input_json: Some(r#"{"path": "out.txt"}"#.into()),
    });
    piece(&mut a, StreamEvent::ToolUseStart { id: "t2".into(), name: "bash".into(), input_json: Some("{}".into()) });
    let r = step(&mut a, SubAgentInput::StreamEnded);
    assert!(matches!(r.action, SubAgentAction::ConfirmTool));
    assert_eq!(r.events.len(), 2);
    let r = step(&mut a, SubAgentInput::BeforeTool { cancelled: false });
    assert!(matches!(&r.action, SubAgentAction::RunTool { name, .. } if name == "write"));
    assert!(matches!(&r.events[0], SubAgentEvent::Thinking { text, .. } if text == "writing"));
    step(&mut a, SubAgentInput::ToolRan(Ok("ok".into())));
    // A tool that is not allowed is refused, not run.
    let r = step(&mut a, SubAgentInput::BeforeTool { cancelled: false });
    assert!(matches!(r.action, SubAgentAction::NextTurn));
    assert!(matches!(&r.events[0], SubAgentEvent::ToolCompleted { is_error: true, result_bytes: 0, .. }));
    let last = a.history.entries_raw().last().unwrap();
    assert_eq!(last.content.len(), 2);
    assert!(matches!(&last.content[1], ContentBlock::ToolResult { content, is_error: Some(true), .. }
        if content == "Tool 'bash' is not available to sub-agents. Allowed tools: read, write"));
    open(&mut a);
    piece(&mut a, StreamEvent::TextDelta("12 files".into()));
    piece(&mut a, StreamEvent::MessageComplete {
        stop_reason: StopReason::EndTurn,
        usage: Usage { input_tokens: 7, output_tokens: 3, ..Usage::default() },
    });
    let r = step(&mut a, SubAgentInput::StreamEnded);
    assert_eq!(statuses(&r), ["Completed in 1.5s, 2 API calls"]);
    assert!(matches!(r.action, SubAgentAction::Finish { absorb: true, .. }));
    let result = finished(r);
    assert_eq!(
        result.summary,
        "12 files\n\n[NOTE: sub-agent modified files: out.txt. Re-read them before editing.]"
    );
    assert_eq!(result.exit_reason, "completed");
    assert_eq!(result.modified_files, ["out.txt"]);
    assert_eq!(result.tool_trace.len(), 2);
    assert_eq!((result.tokens.input_tokens, result.tokens.output_tokens), (7, 3));
}

#[test]
fn sub_agent_is_asked_to_go_on_once() {
    let mut a = agent(5);
    open(&mut a);
    let r = step(&mut a, SubAgentInput::StreamEnded);
    assert_eq!(statuses(&r), ["Empty response, continuing..."]);
    open(&mut a);
    piece(&mut a, StreamEvent::TextDelta("done".into()));
    let r = step(&mut a, SubAgentInput::StreamEnded);
    assert_eq!(finished(r).summary, "done");
}

#[test]
fn sub_agent_runs_out_of_turns() {
    let mut a = agent(1);
    open(&mut a);
    let r = step(&mut a, SubAgentInput::StreamFailed);
    assert_eq!(statuses(&r), ["Stream error, retrying..."]);
    assert!(matches!(r.action, SubAgentAction::Pause));
    let r = step(&mut a, SubAgentInput::Top { cancelled: false, timed_out: false });
    let result = finished(r);
    assert_eq!(result.exit_reason, "max_turns");
    assert_eq!(result.api_calls, 2);
}

#[test]
fn sub_agent_can_be_stopped() {
    let mut a = agent(5);
    open(&mut a);
    let result = finished(step(&mut a, SubAgentInput::Cancelled));
    assert!(result.interrupted && result.exit_reason == "interrupted");
    let mut a = agent(5);
    let result = finished(step(&mut a, SubAgentInput::Top { cancelled: false, timed_out: true }));
    assert_eq!(result.error.as_deref(), Some("Sub-agent timed out after 30s"));
    assert_eq!(result.exit_reason, "timeout");
    assert!(!can_step(&a, &SubAgentInput::Opened));
}

#[test]
fn failed_request_is_told_of() {
    let mut a = agent(5);
    step(&mut a, SubAgentInput::Top { cancelled: false, timed_out: false });
    let r = step(&mut a, SubAgentInput::OpenFailed("HTTP 500".into()));
    assert_eq!(statuses(&r), ["API error: HTTP 500"]);
}

#[test]
fn blocked_tools_are_never_given() {
    let list = |v: &[&str]| v.iter().map(|s| s.to_string()).collect::<Vec<String>>();
    let tools = build_effective_tools(&list(&["bash", "glob", "glob"]), &list(&["read", "bash"]), &list(&["bash"]));
    assert_eq!(tools, ["read", "glob"]);
    let builtin = build_effective_tools(&Vec::new(), &Vec::new(), &Vec::new());
    assert!(builtin.contains(&"read".to_string()));
    assert!(!builtin.contains(&"delegate_task".to_string()));
}

#[test]
fn sub_agent_is_told_its_task() {
    let prompt = build_subagent_system_prompt("count", &Some("in src".into()), &vec!["read".into()]);
    assert!(prompt.starts_with("You are a focused sub-agent working on a specific delegated task.\n\nYOUR TASK:\ncount\n\nCONTEXT:\nin src"));
    assert!(prompt.contains("## Available Tools\n\nread"));
    assert!(prompt.contains(" using the tools available to you. When finished, provide a clear, concise summary of:\n- What you did"));
    let bare = build_subagent_system_prompt("count", &Some("  ".into()), &Vec::new());
    assert!(!bare.contains("CONTEXT") && !bare.contains("Available Tools"));
}

fn provider(name: &str, key: Option<&str>) -> ProviderAccess {
    ProviderAccess {
        name: name.into(),
        base_url: format!("https://{name}"),
        api_key: key.map(String::from),
        default_model: "d".into(),
        max_output_tokens: None,
    }
}

fn delegation(provider: &str) -> DelegationClient {
    DelegationClient { provider: provider.into(), url: None, api_key: None, model: String::new() }
}

#[test]
fn client_is_that_of_the_session_or_the_one_named() {
    let providers = vec![provider("a", Some("KEY_A")), provider("b", Some("KEY_B"))];
    let plan = |d: &DelegationClient, model: &str| match create_subagent_client(d, &providers, "a", model) {
        Ok(p) => (p.name, p.base_url, p.default_model),
        Err(e) => panic!("{}", e.message()),
    };
    assert_eq!(plan(&delegation("auto"), "m"), ("a".into(), "https://a".into(), "m".into()));
    assert_eq!(plan(&delegation("b"), ""), ("b".into(), "https://b".into(), "d".into()));
    let custom = DelegationClient { url: Some("http://x".into()), model: "small".into(), ..delegation("") };
    assert_eq!(plan(&custom, "m"), ("a".into(), "http://x".into(), "small".into()));
}

#[test]
fn client_that_cannot_be_had_is_explained() {
    let providers = vec![provider("a", None)];
    let error = |d: &DelegationClient, active: &str| match create_subagent_client(d, &providers, active, "m") {
        Ok(_) => panic!("expected an error"),
        Err(e) => e.message(),
    };
    assert_eq!(error(&delegation("auto"), "z"), "No provider available");
    assert_eq!(
        error(&delegation("z"), "a"),
        "Client creation failed: Provider 'z' not found in config for sub-agent delegation"
    );
    assert_eq!(error(&delegation("auto"), "a"), "Client creation failed: No API key for provider 'a'");
    assert_eq!(SubAgentError::Timeout("9".to_string()).message(), "Sub-agent timed out after 9s");
    assert_eq!(SubAgentError::<String>::Cancelled.message(), "Cancelled");
    let result = no_client_result(&SubAgentError::NoProvider, "0.1");
    assert_eq!(result.error.as_deref(), Some("Failed to create sub-agent client: No provider available"));
}

#[test]
fn batch_is_run_and_collected_in_order() {
    let goals = vec!["one".to_string(), "two".to_string()];
    let runs = run_delegated_tasks_batch(&config(5), &goals, &vec!["glob".into()], "60");
    assert_eq!(runs.len(), 2);
    assert_eq!(runs[1].task_index, 1);
    assert_eq!(runs[1].allowed_tools, ["read", "write", "glob"]);
    assert!(matches!(batch_started(&runs[1], "two"), SubAgentEvent::Started { task_index: 1, goal, .. } if goal == "two"));
    assert_eq!((batch_width(0), batch_width(4)), (1, 4));
    assert_eq!(task_timeout(&config(5)), 30_000);
    let mut a = agent(5);
    let done = finished(step(&mut a, SubAgentInput::Top { cancelled: true, timed_out: false }));
    match batch_completed(3, &done) {
        SubAgentEvent::Completed { task_index: 3, result } => {
            assert_eq!(result.exit_reason, done.exit_reason);
            assert!(result.interrupted);
        }
        _ => panic!("expected the end of the task"),
    }
    let results = collect_results(vec![
        TaskOutcome::Broken("boom".into()),
        TaskOutcome::Finished(done),
        TaskOutcome::Interrupted,
    ]);
    assert_eq!(results[0].error.as_deref(), Some("Sub-agent task panicked: boom"));
    assert_eq!(results[1].exit_reason, "interrupted");
    assert!(results[2].interrupted && results[2].duration_seconds == "0.0");
}
