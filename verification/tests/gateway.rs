use zeno::engine::compact::CompactConfig;
use zeno::engine::messages::ConversationHistory;
use zeno::engine::query_engine::EngineSettings;
use zeno::engine::query_engine::QueryEngine;
use zeno::engine::review::SkillsConfig;
use zeno::engine::sub_agent_run::unfinished_result;
use zeno::engine::sub_agent_run::SubAgentEvent;
use zeno::engine::tui_events::EngineEvent;
use zeno::gateway::commands::CommandRouter;
use zeno::gateway::commands::CommandTask;
use zeno::gateway::commands::Services;
use zeno::gateway::hub::Gateway;
use zeno::gateway::ui::AppMode;
use zeno::gateway::ui::UiCommand;

fn gateway() -> Gateway {
    Gateway::new(CommandRouter::new("p".into(), "m".into(), vec!["read".into()]), false)
}

fn engine() -> QueryEngine {
    QueryEngine::new(
        "m".into(),
        String::new(),
        ConversationHistory::new(),
        10,
        1000,
        CompactConfig::with_threshold(None),
        EngineSettings {
            active_provider: "p".into(),
            providers: Vec::new(),
            max_retries: 0,
            max_auto_continue: 0,
            stream_timeout_secs: 0,
            skills: SkillsConfig {
                curator_enabled: false,
                curator_interval_hours: 1,
                stale_after_days: 1,
                archive_after_days: 1,
                background_review_enabled: false,
                review_interval_turns: 0,
            },
            can_delegate: false,
        },
        "/".into(),
    )
}

fn services() -> Services {
    Services {
        memory_summary: String::new(),
        external_memory: None,
        mcp_summary: String::new(),
        mcp_server_count: 0,
        skills: Vec::new(),
        categories: Vec::new(),
        hooks: Vec::new(),
        hook_count: 0,
        identities: Vec::new(),
        sessions: Vec::new(),
    }
}

#[test]
fn events_become_commands() {
    let g = gateway();
    let cmds = g.event_map(EngineEvent::QueryDone { text: "bye".into(), tool_calls: 0, tokens: 9 });
    assert_eq!(cmds.len(), 4);
    assert!(matches!(&cmds[0], UiCommand::AppendText(s) if s == "bye"));
    assert!(matches!(cmds[1], UiCommand::SetMode(AppMode::Idle)));
    assert!(matches!(cmds[2], UiCommand::UpdateTokens(9)));
    assert!(matches!(cmds[3], UiCommand::ClearSteerQueue));
    assert_eq!(g.event_map(EngineEvent::QueryDone { text: String::new(), tool_calls: 0, tokens: 9 }).len(), 3);
    let cmds = g.event_map(EngineEvent::Interrupted);
    assert!(matches!(&cmds[0], UiCommand::ShowStatus(s) if s == "⏸  Interrupted — press Ctrl+C again to quit."));
    let cmds = g.event_map(EngineEvent::CompactProgress { method: "micro".into(), tokens_before: 9, tokens_after: 3 });
    assert!(matches!(&cmds[0], UiCommand::ShowStatus(s) if s == "\u{f03d6} compact: micro (9 → 3 tokens)"));
    let cmds = g.event_map(EngineEvent::PermissionAsk {
        tool_name: "bash".into(),
        reason: "r".into(),
        input: "$ ls".into(),
        reply_to: 5,
    });
    assert!(matches!(&cmds[0], UiCommand::ShowPermission { detail, reply_to: 5, .. } if detail == "$ ls"));
    let cmds = g.event_map(EngineEvent::ToolOutput { name: "read".into(), output: "o".into() });
    assert!(matches!(&cmds[0], UiCommand::ToolComplete { output, .. } if output == "o"));
    let cmds = g.event_map(EngineEvent::ImagePasteFailed);
    assert!(matches!(&cmds[0], UiCommand::ShowError(_)));
    assert!(g.event_map(EngineEvent::PermissionAllowAllSet).is_empty());
    assert_eq!(g.event_map(EngineEvent::TokenUpdate { total_tokens: 1, turn_count: 2 }).len(), 2);
    assert_eq!(g.event_map(EngineEvent::Error("e".into())).len(), 2);
}

#[test]
fn events_are_taken_in_batches() {
    let mut g = gateway();
    for i in 0..300 {
        g.receive_engine_event(EngineEvent::TextDelta(format!("{i}")));
    }
    g.receive_engine_event(EngineEvent::PermissionAllowAllSet);
    let first = g.drain_engine_events();
    assert_eq!(first.len(), 256);
    assert!(!g.permission_allow_all);
    let rest = g.drain_engine_events();
    assert_eq!(rest.len(), 44);
    assert!(g.permission_allow_all);
    assert!(matches!(&rest[0], UiCommand::AppendText(s) if s == "256"));
    assert!(g.drain_engine_events().is_empty());
}

#[test]
fn sub_agents_are_shown() {
    let g = gateway();
    let line = |e: SubAgentEvent, short: &str| match g.handle_sub_agent_event(e, short).pop() {
        Some(UiCommand::SubAgentProgress { line, .. }) => line,
        Some(UiCommand::SubAgentStarted { summary }) => summary,
        _ => String::new(),
    };
    let started = SubAgentEvent::Started { task_index: 2, goal: "long goal".into(), tools: Vec::new() };
    assert_eq!(line(started, "long…"), "sub-agent #2: long…");
    assert_eq!(line(SubAgentEvent::Thinking { task_index: 0, text: "t".into() }, " "), "");
    assert_eq!(line(SubAgentEvent::Thinking { task_index: 0, text: "t".into() }, "t"), "t");
    let tool = |summary: &str| SubAgentEvent::ToolStarted {
        task_index: 0,
        tool: "read".into(),
        input_summary: summary.into(),
    };
    assert_eq!(line(tool(""), ""), "read");
    assert_eq!(line(tool("a.rs"), ""), "read (a.rs)");
    let over = |is_error: bool| SubAgentEvent::ToolCompleted {
        task_index: 0,
        tool: "read".into(),
        result_bytes: 1,
        is_error,
    };
    assert_eq!(line(over(true), ""), "read failed");
    assert_eq!(line(over(false), ""), "");
    let done = |error: Option<String>| SubAgentEvent::Completed { task_index: 0, result: unfinished_result(error) };
    assert_eq!(line(done(None), ""), "interrupted (0 calls, 0.0s)");
    assert_eq!(line(done(Some("e".into())), ""), "failed (0 calls, 0.0s)");
}

#[test]
fn sub_agent_events_are_taken_in_batches() {
    let mut g = gateway();
    for i in 0..130 {
        g.receive_sub_agent_event(SubAgentEvent::Status { task_index: i, message: "m".into() }, String::new());
    }
    assert_eq!(g.drain_sub_agent_events().len(), 128);
    let rest = g.drain_sub_agent_events();
    assert!(matches!(rest[0], UiCommand::SubAgentProgress { task_index: 128, .. }));
    assert_eq!(rest.len(), 2);
}

#[test]
fn input_is_answered_or_asked() {
    let mut g = gateway();
    let mut e = engine();
    let s = services();
    let r = g.handle_input(&mut e, &s, "/tools");
    assert!(!r.query && r.commands.len() == 2);
    let r = g.handle_input(&mut e, &s, "/unheard-of");
    assert!(r.query && r.commands.is_empty());
    let r = g.handle_input(&mut e, &s, "plain words");
    assert!(r.query && r.commands.is_empty());
    let r = g.handle_input(&mut e, &s, "");
    assert!(r.query);
    let r = g.dispatch_slash(&mut e, &s, "/compact");
    assert!(!r.query);
    assert!(matches!(g.commands.task, Some(CommandTask::Compact { entries: 0 })));
}

#[test]
fn resume_is_restore_by_another_name() {
    let mut g = gateway();
    let mut e = engine();
    let r = g.handle_input(&mut e, &services(), "/resume");
    assert!(matches!(&r.commands[0], UiCommand::AppendText(s) if s == "No saved session to resume."));
}
