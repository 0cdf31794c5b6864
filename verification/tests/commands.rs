use zeno::api::ContentBlock;
use zeno::api::Usage;
use zeno::engine::compact::CompactConfig;
use zeno::engine::messages::ConversationHistory;
use zeno::engine::query_engine::EngineSettings;
use zeno::engine::query_engine::QueryEngine;
use zeno::engine::review::SkillsConfig;
use zeno::engine::session::SessionData;
use zeno::engine::session::SessionIndexEntry;
use zeno::engine::session_index::update_session_index;
use zeno::engine::tui_events::EngineEvent;
use zeno::gateway::command_texts::HELP_TEXT;
use zeno::gateway::commands::begin_search;
use zeno::gateway::commands::finish_compact;
use zeno::gateway::commands::finish_restore;
use zeno::gateway::commands::finish_search;
use zeno::gateway::commands::CategoryInfo;
use zeno::gateway::commands::CommandResult;
use zeno::gateway::commands::CommandRouter;
use zeno::gateway::commands::CommandTask;
use zeno::gateway::commands::Services;
use zeno::gateway::commands::SkillSummary;
use zeno::gateway::ui::AppMode;
use zeno::gateway::ui::UiCommand;
use zeno::terminal::session_to_save;

struct Fixture {
    router: CommandRouter,
    engine: QueryEngine,
    services: Services,
}

impl Fixture {
    fn dispatch(&mut self, input: &str) -> CommandResult {
        self.router.dispatch(&mut self.engine, &self.services, input)
    }
}

fn test_engine() -> QueryEngine {
    QueryEngine::new(
        "sonnet-4".into(),
        "You are a helpful assistant.".into(),
        ConversationHistory::new(),
        100,
        4096,
        CompactConfig::with_threshold(None),
        EngineSettings {
            active_provider: "TestProvider".into(),
            providers: Vec::new(),
            max_retries: 3,
            max_auto_continue: 3,
            stream_timeout_secs: 0,
            skills: SkillsConfig {
                curator_enabled: false,
                curator_interval_hours: 24,
                stale_after_days: 30,
                archive_after_days: 90,
                background_review_enabled: false,
                review_interval_turns: 0,
            },
            can_delegate: false,
        },
        "/tmp".into(),
    )
}

fn test_router() -> Fixture {
    Fixture {
        router: CommandRouter::new(
            "TestProvider".into(),
            "sonnet-4".into(),
            vec!["read".into(), "write".into(), "edit".into(), "bash".into()],
        ),
        engine: test_engine(),
        services: Services {
            memory_summary: "MEMORY.md: 0 entries\nUSER.md: 0 entries".into(),
            external_memory: None,
            mcp_summary: "No MCP servers configured.".into(),
            mcp_server_count: 0,
            skills: Vec::new(),
            categories: Vec::new(),
            hooks: Vec::new(),
            hook_count: 0,
            identities: Vec::new(),
            sessions: Vec::new(),
        },
    }
}

fn handled(result: CommandResult) -> Vec<UiCommand> {
    match result {
        CommandResult::Handled(cmds) => cmds,
        CommandResult::PassThrough => panic!("expected Handled"),
    }
}

fn text_of(cmd: &UiCommand) -> &str {
    match cmd {
        UiCommand::AppendText(text) => text,
        _ => panic!("expected AppendText"),
    }
}

fn saved(id: &str, identity: Option<&str>) -> SessionIndexEntry {
    SessionIndexEntry {
        id: id.into(),
        saved_at: "some time".into(),
        model: "m".into(),
        provider: "p".into(),
        total_tokens: 1,
        one_liner: format!("about {id}"),
        entry_count: 1,
        title: String::new(),
        identity: identity.map(String::from),
    }
}

#[test]
fn test_help() {
    let mut r = test_router();
    let cmds = handled(r.dispatch("/help"));
    assert_eq!(cmds.len(), 2);
    assert!(matches!(cmds[0], UiCommand::AppendText(_)));
    assert!(matches!(cmds[1], UiCommand::SetMode(AppMode::Idle)));
    assert_eq!(text_of(&cmds[0]), HELP_TEXT);
}

#[test]
fn test_tools() {
    let mut r = test_router();
    let cmds = handled(r.dispatch("/tools"));
    assert_eq!(cmds.len(), 2);
    let text = text_of(&cmds[0]);
    assert!(text.starts_with("Tools (4)"));
    assert!(text.contains("read"));
    assert!(text.contains("bash"));
}

#[test]
fn test_exit_and_quit() {
    let mut r = test_router();
    for cmd in ["/exit", "/quit"] {
        assert!(handled(r.dispatch(cmd)).is_empty());
    }
}

#[test]
fn test_unknown_command() {
    let mut r = test_router();
    assert!(matches!(r.dispatch("/foobar"), CommandResult::PassThrough));
}

#[test]
fn test_not_a_slash() {
    let mut r = test_router();
    assert!(matches!(r.dispatch("hello world"), CommandResult::PassThrough));
}

#[test]
fn test_clear_empty() {
    let mut r = test_router();
    let cmds = handled(r.dispatch("/clear"));
    assert!(cmds.len() >= 2);
    assert!(matches!(cmds[0], UiCommand::ClearOutput));
    assert_eq!(text_of(&cmds[1]), "Cleared 0 entries.");
}

#[test]
fn test_clear_with_history() {
    let mut r = test_router();
    r.engine.history.push_user("Hello");
    r.engine.history.push_assistant_blocks(vec![ContentBlock::Text {
        text: "Hi there!".into(),
    }]);
    r.engine.history.push_user("How are you?");
    let cmds = handled(r.dispatch("/clear"));
    assert_eq!(text_of(&cmds[1]), "Cleared 3 entries.");
    assert_eq!(r.engine.history.len(), 0);
}

#[test]
fn test_cost_empty() {
    let mut r = test_router();
    let cmds = handled(r.dispatch("/cost"));
    assert_eq!(cmds.len(), 2);
    let text = text_of(&cmds[0]);
    assert!(text.contains("Token usage"));
    assert!(text.contains("0 total"));
    assert_eq!(
        text,
        "Token usage: 0 total (0 input + 0 output) — 0 calls\n\
         Context pressure: 0 prompt + 0 output = 0 tokens"
    );
}

#[test]
fn test_cost_with_tokens() {
    let mut r = test_router();
    r.engine.cost_tracker.record(
        "sonnet-4",
        &Usage {
            input_tokens: 100,
            output_tokens: 50,
            cache_read_input_tokens: 5,
            cache_creation_input_tokens: 0,
            reasoning_tokens: 0,
        },
    );
    let cmds = handled(r.dispatch("/cost"));
    let text = text_of(&cmds[0]);
    assert!(text.contains("155 total"));
    assert!(text.contains("100 input"));
    assert!(text.contains("50 output"));
    assert_eq!(
        text,
        "Token usage: 155 total (100 input + 50 output + 5 cached) — 1 call\n\
         Context pressure: 105 prompt + 50 output = 155 tokens"
    );
}

#[test]
fn test_model_get() {
    let mut r = test_router();
    let cmds = handled(r.dispatch("/model"));
    assert_eq!(cmds.len(), 2);
    let text = text_of(&cmds[0]);
    assert!(text.contains("sonnet-4"));
    assert!(text.contains("TestProvider"));
}

#[test]
fn test_model_set() {
    let mut r = test_router();
    let cmds = handled(r.dispatch("/model haiku-3"));
    assert_eq!(cmds.len(), 3);
    assert!(matches!(&cmds[0], UiCommand::SetModel(m) if m == "haiku-3"));
    assert!(text_of(&cmds[1]).contains("haiku-3"));
    assert_eq!(r.router.model_name, "haiku-3");
    assert_eq!(r.engine.model, "haiku-3");
}

#[test]
fn test_goal_status_no_goal() {
    let mut r = test_router();
    let cmds = handled(r.dispatch("/goal"));
    assert!(text_of(&cmds[0]).contains("No active goal"));
}

#[test]
fn test_goal_set_and_status() {
    let mut r = test_router();
    let cmds = handled(r.dispatch("/goal implement login"));
    assert!(text_of(&cmds[0]).contains("Goal set"));
    assert!(text_of(&cmds[0]).contains("implement login"));
    let cmds = handled(r.dispatch("/goal status"));
    assert!(text_of(&cmds[0]).contains("implement login"));
}

#[test]
fn test_goal_clear() {
    let mut r = test_router();
    handled(r.dispatch("/goal implement login"));
    let cmds = handled(r.dispatch("/goal clear"));
    let text = text_of(&cmds[0]);
    assert!(text.contains("cleared") || text.contains("Cleared"));
}

#[test]
fn test_goal_clear_when_none() {
    let mut r = test_router();
    let cmds = handled(r.dispatch("/goal clear"));
    assert!(text_of(&cmds[0]).contains("No active goal"));
}

#[test]
fn test_goal_pause_resume() {
    let mut r = test_router();
    handled(r.dispatch("/goal implement login"));
    let cmds = handled(r.dispatch("/goal pause"));
    let text = text_of(&cmds[0]);
    assert!(text.contains("paused") || text.contains("Paused"));
    assert!(text.contains("implement login"));
    let cmds = handled(r.dispatch("/goal resume"));
    let text = text_of(&cmds[0]);
    assert!(text.contains("resumed") || text.contains("Resumed"));
    assert!(text.contains("implement login"));
    assert_eq!(r.engine.carryover.task_focus.goal, "implement login");
}

#[test]
fn test_goal_pause_when_none() {
    let mut r = test_router();
    let cmds = handled(r.dispatch("/goal pause"));
    assert!(text_of(&cmds[0]).contains("No active goal to pause"));
}

#[test]
fn test_goal_resume_no_recent() {
    let mut r = test_router();
    let cmds = handled(r.dispatch("/goal resume"));
    assert!(text_of(&cmds[0]).contains("No recent goal to resume"));
}

#[test]
fn test_hooks_no_executor() {
    let mut r = test_router();
    let cmds = handled(r.dispatch("/hooks"));
    assert!(text_of(&cmds[0]).contains("No hooks registered"));
}

#[test]
fn test_hooks_with_executor() {
    let mut r = test_router();
    let lua = mlua::Lua::new();
    let func = lua.create_function(|_, ()| Ok(())).unwrap();
    let entry = lua.create_table().unwrap();
    entry.set("fn", func).unwrap();
    lua.set_named_registry_value("_rc_hooks", lua.create_sequence_from([entry]).unwrap()).unwrap();
    let mut executor = zeno::hooks::executor::HookExecutor::new(lua);
    assert!(executor.register(zeno::hooks::types::HookEvent::PreToolUse, 1).is_ok());
    r.services.hooks = executor.registered_events();
    r.services.hook_count = executor.hook_count();
    let cmds = handled(r.dispatch("/hooks"));
    let text = text_of(&cmds[0]);
    assert!(text.contains("Registered hooks"));
    assert!(text.contains("pre_tool_use"));
    assert!(text.contains("1 handler(s)"));
}

#[test]
fn test_memory() {
    let mut r = test_router();
    let cmds = handled(r.dispatch("/memory"));
    assert_eq!(cmds.len(), 2);
    let text = text_of(&cmds[0]);
    assert!(text.contains("MEMORY.md"));
    assert!(text.contains("USER.md"));
    assert!(text.contains("0 entries"));
}

#[test]
fn test_mcp_empty() {
    let mut r = test_router();
    let cmds = handled(r.dispatch("/mcp"));
    assert_eq!(cmds.len(), 2);
    assert!(!text_of(&cmds[0]).is_empty());
}

#[test]
fn test_skills_empty() {
    let mut r = test_router();
    let cmds = handled(r.dispatch("/skills"));
    assert!(text_of(&cmds[0]).contains("Skills (0)"));
}

#[test]
fn test_skills_with_entries() {
    let mut r = test_router();
    r.services.categories = vec![
        CategoryInfo {
            name: "software-development".into(),
            description: "Coding skills".into(),
            skill_names: vec!["code-review".into(), "git-commit".into()],
        },
        CategoryInfo {
            name: "research".into(),
            description: "Research skills".into(),
            skill_names: vec!["llm-wiki".into()],
        },
    ];
    r.services.skills = vec![
        SkillSummary {
            name: "code-review".into(),
            description: "Review code rigorously".into(),
        },
        SkillSummary {
            name: "git-commit".into(),
            description: "Write commit messages".into(),
        },
        SkillSummary {
            name: "llm-wiki".into(),
            description: "LLM knowledge base".into(),
        },
    ];
    let cmds = handled(r.dispatch("/skills"));
    let text = text_of(&cmds[0]);
    assert!(text.contains("3 skills"));
    assert!(text.contains("software-development"));
    assert!(text.contains("code-review"));
    assert!(text.contains("git-commit"));
    assert!(text.contains("research"));
    assert!(text.contains("llm-wiki"));
}

#[test]
fn test_identity_no_identity() {
    let mut r = test_router();
    let cmds = handled(r.dispatch("/identity"));
    assert!(text_of(&cmds[0]).contains("No active identity"));
}

#[test]
fn test_identity_status_with_active() {
    let mut r = test_router();
    r.engine.active_identity = Some("work".into());
    let cmds = handled(r.dispatch("/identity"));
    let text = text_of(&cmds[0]);
    assert!(text.contains("work"));
    assert!(text.contains("active"));
}

#[test]
fn test_identity_unknown() {
    let mut r = test_router();
    let cmds = handled(r.dispatch("/identity nonexistent"));
    let text = text_of(&cmds[0]);
    assert!(text.contains("Unknown identity"));
    assert!(text.contains("nonexistent"));
}

#[test]
fn test_restore_no_session() {
    let mut r = test_router();
    let cmds = handled(r.dispatch("/restore"));
    assert!(text_of(&cmds[0]).contains("No saved session"));
}

#[test]
fn test_restore_out_of_range() {
    let mut r = test_router();
    let cmds = handled(r.dispatch("/restore 999"));
    assert!(text_of(&cmds[0]).contains("Invalid session number"));
}

#[test]
fn test_restore_zero_invalid() {
    let mut r = test_router();
    let cmds = handled(r.dispatch("/restore 0"));
    assert!(text_of(&cmds[0]).contains("Invalid session number"));
}

#[test]
fn test_restore_list_format() {
    let mut r = test_router();
    let cmds = handled(r.dispatch("/restore list"));
    assert!(!text_of(&cmds[0]).is_empty());
}

#[test]
fn test_search_no_sessions() {
    let mut r = test_router();
    let cmds = handled(r.dispatch("/search"));
    let text = text_of(&cmds[0]);
    assert!(
        text.contains("No saved sessions") || text.contains("Usage:"),
        "unexpected text: {text}"
    );
}

#[test]
fn test_search_with_query_empty_index() {
    let mut r = test_router();
    let cmds = handled(r.dispatch("/search hello"));
    assert!(text_of(&cmds[0]).contains("No saved sessions"));
}

#[test]
fn test_compact_spawns_async() {
    let mut r = test_router();
    assert!(handled(r.dispatch("/compact")).is_empty());
    assert!(matches!(r.router.task, Some(CommandTask::Compact { entries: 0 })));
}

#[test]
fn test_model_get_with_whitespace() {
    let mut r = test_router();
    let cmds = handled(r.dispatch("/model "));
    assert_eq!(cmds.len(), 2);
    let text = text_of(&cmds[0]);
    assert!(
        text.contains("sonnet-4"),
        "should show current model, got: {text}"
    );
    assert_eq!(r.router.model_name, "sonnet-4");
}

#[test]
fn test_tools_format() {
    let mut r = test_router();
    let cmds = handled(r.dispatch("/tools"));
    assert_eq!(cmds.len(), 2);
    let text = text_of(&cmds[0]);
    assert!(text.contains("Tools"));
    assert!(text.contains("read"));
    assert!(text.contains("write"));
    assert!(text.contains("bash"));
    let first_line = text.lines().next().unwrap_or("");
    assert!(
        first_line.contains('(') && first_line.contains(')'),
        "should show tool count in parens: {first_line}"
    );
}

#[test]
fn test_help_includes_sections() {
    let mut r = test_router();
    let cmds = handled(r.dispatch("/help"));
    let text = text_of(&cmds[0]);
    assert!(text.contains("/help"));
    assert!(text.contains("/search"));
    assert!(text.contains("/restore"));
    assert!(text.contains("/model"));
    let lower = text.to_lowercase();
    assert!(lower.contains("commands"), "help should list commands");
}

#[test]
fn test_search_returns_handled() {
    let mut r = test_router();
    assert!(
        matches!(r.dispatch("/search"), CommandResult::Handled(_)),
        "expected Handled"
    );
    assert!(
        matches!(r.dispatch("/search something"), CommandResult::Handled(_)),
        "expected Handled"
    );
}

#[test]
fn test_restore_non_numeric_arg() {
    let mut r = test_router();
    let cmds = handled(r.dispatch("/restore help"));
    assert!(!cmds.is_empty(), "should return session list or message");
    let text = text_of(&cmds[0]);
    let lower = text.to_lowercase();
    assert!(
        lower.contains("saved") || lower.contains("invalid"),
        "unexpected: {text}"
    );
}

#[test]
fn test_restore_zero_returns_error() {
    let mut r = test_router();
    let cmds = handled(r.dispatch("/restore 0"));
    let text = text_of(&cmds[0]);
    assert!(text.contains("Invalid session number: 0"), "got: {text}");
}

#[test]
fn test_dispatch_unknown_is_passthrough() {
    let mut r = test_router();
    assert!(
        matches!(r.dispatch("/nonexistent"), CommandResult::PassThrough),
        "expected PassThrough for unknown command"
    );
}

#[test]
fn test_dispatch_passthrough_for_plain_text() {
    let mut r = test_router();
    assert!(
        matches!(r.dispatch("hello world"), CommandResult::PassThrough),
        "expected PassThrough for plain text"
    );
}

// --- beyond the basics ---

#[test]
fn cost_of_two_models_is_broken_down() {
    let mut r = test_router();
    let usage = |i: u64, c: u64, n: u64| Usage {
        input_tokens: i,
        output_tokens: 1,
        cache_read_input_tokens: c,
        cache_creation_input_tokens: 0,
        reasoning_tokens: n,
    };
    r.engine.cost_tracker.record("a", &usage(10, 0, 0));
    r.engine.cost_tracker.record("b", &usage(20, 4, 3));
    r.engine.cost_tracker.record("b", &usage(30, 0, 0));
    let cmds = handled(r.dispatch("/cost"));
    assert_eq!(
        text_of(&cmds[0]),
        "Token usage: 67 total (60 input + 3 output + 4 cache) — 3 API calls\n\
         Context pressure: 30 prompt + 1 output = 31 tokens\n  \
         b: 50 input + 2 output (2 calls)\n    \
         cache: 4 read + 0 write\n    \
         reasoning: 3 (included in output)\n  \
         a: 10 input + 1 output (1 calls)"
    );
}

#[test]
fn skills_are_listed_exactly() {
    let mut r = test_router();
    r.services.skills = vec![SkillSummary {
        name: "a".into(),
        description: "does a".into(),
    }];
    let cmds = handled(r.dispatch("/skills"));
    assert_eq!(text_of(&cmds[0]), "Skills (1)\n\n- a: does a");
    r.services.categories = vec![CategoryInfo {
        name: "c".into(),
        description: String::new(),
        skill_names: vec!["gone".into(), "a".into()],
    }];
    let cmds = handled(r.dispatch("/skills"));
    assert_eq!(
        text_of(&cmds[0]),
        "Skills (1 skills in 1 categories)\n\n## c — \n- a: does a\n"
    );
}

#[test]
fn external_memory_is_named() {
    let mut r = test_router();
    r.services.external_memory = Some("vault".into());
    let cmds = handled(r.dispatch("/memory"));
    assert!(text_of(&cmds[0]).ends_with("\n\nExternal provider: vault (active)"));
}

#[test]
fn identity_is_switched_and_cleared() {
    let mut r = test_router();
    r.services.identities = vec!["home".into(), "work".into()];
    let cmds = handled(r.dispatch("/identity work"));
    assert_eq!(r.engine.active_identity.as_deref(), Some("work"));
    assert!(matches!(&r.router.task, Some(CommandTask::SwitchIdentity { name: Some(n) }) if n == "work"));
    assert!(matches!(&cmds[0], UiCommand::UpdateStatus(info) if info.active_identity.as_deref() == Some("work")));
    assert!(matches!(&cmds[1], UiCommand::SetInputIdentity(Some(n)) if n == "work"));
    assert_eq!(text_of(&cmds[2]), "Switched to identity: work");
    for word in ["none", "clear"] {
        r.engine.active_identity = Some("work".into());
        let cmds = handled(r.dispatch(&format!("/identity {word}")));
        assert!(r.engine.active_identity.is_none());
        assert_eq!(text_of(&cmds[2]), "Identity cleared — using default role.");
    }
    let cmds = handled(r.dispatch("/identity play"));
    assert_eq!(text_of(&cmds[0]), "Unknown identity: 'play'. Available: home, work");
    assert!(r.router.task.is_none());
}

#[test]
fn restore_loads_a_session_of_the_identity() {
    let mut r = test_router();
    r.services.sessions = vec![saved("a", None), saved("b", Some("work")), saved("c", Some("work"))];
    assert!(handled(r.dispatch("/restore")).is_empty());
    assert!(matches!(&r.router.task, Some(CommandTask::LoadSession { id, latest: true }) if id == "a"));
    r.engine.active_identity = Some("work".into());
    assert!(handled(r.dispatch("/restore")).is_empty());
    assert!(matches!(&r.router.task, Some(CommandTask::LoadSession { id, latest: true }) if id == "b"));
    assert!(handled(r.dispatch("/restore 2")).is_empty());
    assert!(matches!(&r.router.task, Some(CommandTask::LoadSession { id, latest: false }) if id == "c"));
    let cmds = handled(r.dispatch("/restore 3"));
    assert!(text_of(&cmds[0]).starts_with("Invalid session number: 3. \n\n### Saved Sessions (2)"));
    assert!(r.router.task.is_none());
}

#[test]
fn search_is_left_to_be_done() {
    let mut r = test_router();
    r.services.sessions = vec![saved("a", None)];
    let cmds = handled(r.dispatch("/search"));
    assert!(text_of(&cmds[0]).starts_with("Usage: `/search [query]`\n\n### Saved Sessions (1)"));
    assert!(handled(r.dispatch("/search  login ")).is_empty());
    assert!(matches!(&r.router.task, Some(CommandTask::Search { query }) if query == "login"));
    assert!(matches!(begin_search(), EngineEvent::Status(s) if s == "Searching sessions..."));
    let events = finish_search("login", &Ok("found it".into()));
    assert_eq!(events.len(), 2);
    assert!(matches!(&events[0], EngineEvent::TextDelta(s)
        if s == "### Session Search: login\n\nfound it\n\nUse `/restore N` to load a session."));
    let events = finish_search("login", &Err("no network".into()));
    assert!(matches!(&events[0], EngineEvent::TextDelta(s) if s == "Search failed: no network"));
}

#[test]
fn loaded_session_goes_on() {
    let mut r = test_router();
    r.engine.history.push_user("before");
    let mut entries = ConversationHistory::new();
    entries.push_user("saved question");
    let data = SessionData {
        id: "1".into(),
        saved_at: "2025-07-23T12:00:00Z".into(),
        model: "m1".into(),
        provider: "p1".into(),
        cwd: "/".into(),
        entries: entries.entries_raw().iter().map(|e| e.copy()).collect(),
        total_tokens: 42,
        summary: "what was said".into(),
        final_response: String::new(),
        title: String::new(),
        identity: None,
    };
    let cmds = finish_restore(&mut r.engine, true, Some(data));
    assert_eq!(r.engine.history.len(), 1);
    assert_eq!(r.engine.cost_tracker.turn_count, 0);
    assert_eq!(cmds.len(), 6);
    assert_eq!(
        text_of(&cmds[2]),
        "━━━ Session Resume ━━━\nSaved: 2025-07-23 12:00:00\nModel: m1 | Provider: p1\n\
         Total tokens: 42\n\nwhat was said\n━━━ End of Session ━━━\n\n\
         Ready to continue — type your next message."
    );
    assert!(matches!(cmds[5], UiCommand::QueryDone { tokens: 42 }));
    assert_eq!(
        text_of(&finish_restore(&mut r.engine, true, None)[0]),
        "No saved session to resume."
    );
    assert!(finish_restore(&mut r.engine, false, None).is_empty());
}

#[test]
fn summary_takes_the_place_of_the_history() {
    let mut r = test_router();
    for i in 0..4 {
        r.engine.history.push_user(&format!("message {i}"));
    }
    let events = finish_compact(&mut r.engine, 4, &Ok("short".into()));
    assert_eq!(r.engine.history.len(), 1);
    assert!(matches!(&events[0], EngineEvent::Status(s) if s == "Compressed 4 entries → 5 chars"));
    assert!(matches!(&r.engine.history.entries_raw()[0].content[0], ContentBlock::Text { text }
        if text == "[Compressed conversation history (4 entries)]\n\nshort"));
    // It has shrunk to less than half meanwhile: it stays.
    let events = finish_compact(&mut r.engine, 4, &Ok("other".into()));
    assert_eq!(events.len(), 2);
    assert!(matches!(&r.engine.history.entries_raw()[0].content[0], ContentBlock::Text { text }
        if text.ends_with("short")));
    let events = finish_compact(&mut r.engine, 4, &Err("timeout".into()));
    assert!(matches!(&events[0], EngineEvent::Error(s) if s == "Compression failed: timeout"));
}

#[test]
fn session_goes_on_where_it_ended() {
    let mut r = test_router();
    r.engine.active_identity = Some("tester".into());
    r.engine.history.push_user("what was asked");
    r.engine.history.push_user("and asked again");
    let data = session_to_save(
        "7-1".into(),
        "2025-07-24T08:00:00Z".into(),
        "m1".into(),
        "p1".into(),
        "/".into(),
        r.engine.history.entries_raw().iter().map(|e| e.copy()).collect(),
        42,
        String::new(),
        Some("tester".into()),
    )
    .unwrap();
    let mut older = saved("6-1", Some("tester"));
    older.saved_at = "2025-07-23T08:00:00Z".into();
    let mut other = saved("5-1", None);
    other.saved_at = "2025-07-22T08:00:00Z".into();
    r.services.sessions = update_session_index(&vec![older, other], &data);
    r.engine.history.clear();
    assert!(handled(r.dispatch("/restore")).is_empty());
    assert!(matches!(&r.router.task, Some(CommandTask::LoadSession { id, latest: true }) if id == "7-1"));
    finish_restore(&mut r.engine, true, Some(data));
    assert_eq!(r.engine.history.len(), 2);
    assert!(matches!(&r.engine.history.entries_raw()[1].content[0], ContentBlock::Text { text }
        if text == "and asked again"));
}
