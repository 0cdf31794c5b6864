use zeno::api::ContentBlock;
use zeno::api::Role;
use zeno::engine::messages::ConversationEntry;
use zeno::engine::session::build_index_liner;
use zeno::engine::session::build_one_liner;
use zeno::engine::session::build_summary;
use zeno::engine::session::count_user_messages;
use zeno::engine::session::extract_final_response;
use zeno::engine::session::generate_session_id;
use zeno::engine::session::SessionData;
use zeno::engine::session::SessionIndexEntry;
use zeno::engine::session_index::filter_index_by_identity;
use zeno::engine::session_index::format_session_lines;
use zeno::engine::session_index::format_session_list;
use zeno::engine::session_index::is_session_file;
use zeno::engine::session_index::latest_session_file;
use zeno::engine::session_index::load_session_index;
use zeno::engine::session_index::rebuild_session_index;
use zeno::engine::session_index::session_file;
use zeno::engine::session_index::update_session_index;
use zeno::terminal::session_to_save;
use zeno::time::display_instant;
use zeno::time::format_timestamp;
use zeno::time::show_in_zone;
use zeno::time::utc_to_local_display;



fn make_text_entry(role: Role, text: &str) -> ConversationEntry {
    ConversationEntry {
        role,
        content: vec![ContentBlock::Text { text: text.into() }],
        reasoning_content: None,
    }
}

fn make_tool_result_entry(text: &str) -> ConversationEntry {
    ConversationEntry {
        role: Role::User,
        content: vec![ContentBlock::ToolResult {
            tool_use_id: "tool1".into(),
            content: text.into(),
            is_error: None,
        }],
        reasoning_content: None,
    }
}

#[test]
fn test_generate_session_id_unique() {
    let id1 = generate_session_id(1_721_743_567_890_123, 12345);
    let id2 = generate_session_id(1_721_743_567_890_124, 12345);
    assert_ne!(id1, id2, "consecutive session IDs must differ");
}

#[test]
fn test_generate_session_id_format() {
    let id = generate_session_id(1_721_743_567_890_123, 12345);
    assert!(id.contains('-'), "session ID must contain '-' separator");
    let parts: Vec<&str> = id.split('-').collect();
    assert_eq!(parts.len(), 2, "session ID must have exactly 2 parts");
    let pid: u32 = parts[1].parse().expect("second part must be PID");
    assert!(pid > 0, "PID must be positive");
    assert_eq!(id, "1721743567890123-12345");
}

#[test]
fn test_format_timestamp_epoch() {
    let formatted = format_timestamp(0).unwrap();
    // The result depends on local timezone, but should be a valid date
    assert!(formatted.starts_with("1969-12-31") || formatted.starts_with("1970-01-01"));
    assert!(formatted.contains(":"));
}

#[test]
fn test_count_user_messages_empty() {
    assert_eq!(count_user_messages(&Vec::new()), 0);
}

#[test]
fn test_count_user_messages_mixed() {
    let entries = vec![
        make_text_entry(Role::User, "hello"),
        make_text_entry(Role::Assistant, "hi there"),
        make_text_entry(Role::User, "how are you?"),
        make_tool_result_entry("ls output"),
        make_text_entry(Role::User, "thanks"),
    ];
    // 3 user messages with text, 1 tool result (excluded) = 3
    assert_eq!(count_user_messages(&entries), 3);
}

#[test]
fn test_count_user_messages_tool_results_excluded() {
    let entries = vec![
        make_tool_result_entry("cat output"),
        make_tool_result_entry("build log"),
    ];
    assert_eq!(count_user_messages(&entries), 0);
}

#[test]
fn test_format_session_list_empty() {
    let result = format_session_list(&Vec::new());
    assert_eq!(result, "No saved sessions found.");
}

#[test]
fn test_format_session_list_non_empty() {
    let entries = vec![SessionIndexEntry {
        id: "1".into(),
        saved_at: "2025-07-23T10:30:00".into(),
        model: "sonnet-4".into(),
        provider: "anthropic".into(),
        total_tokens: 5000,
        one_liner: "3 msgs, sonnet — code review".into(),
        entry_count: 5,
        title: String::new(),
        identity: None,
    }];
    let result = format_session_list(&entries);
    assert!(result.contains("### Saved Sessions (1)"));
    // Check that date is present (converted to local time)
    assert!(result.contains("2025-07-23"));
    assert!(result.contains("code review"));
    assert!(result.contains("/restore"));
}

#[test]
fn test_extract_final_response_empty() {
    assert_eq!(extract_final_response(&Vec::new()), None);
}

#[test]
fn test_extract_final_response_only_user() {
    let entries = vec![make_text_entry(Role::User, "hello")];
    assert_eq!(extract_final_response(&entries), None);
}

#[test]
fn test_extract_final_response_with_assistant() {
    let entries = vec![
        make_text_entry(Role::User, "hello"),
        make_text_entry(Role::Assistant, "Hello! How can I help?"),
    ];
    assert_eq!(
        extract_final_response(&entries),
        Some("Hello! How can I help?".to_string())
    );
}

#[test]
fn test_extract_final_response_last_assistant() {
    let entries = vec![
        make_text_entry(Role::User, "q1"),
        make_text_entry(Role::Assistant, "a1"),
        make_text_entry(Role::User, "q2"),
        make_text_entry(Role::Assistant, "a2"),
    ];
    assert_eq!(extract_final_response(&entries), Some("a2".to_string()));
}

#[test]
fn test_build_one_liner_basic() {
    let data = SessionData {
        id: "test-id".into(),
        saved_at: "2025-07-23T12:00:00".into(),
        model: "sonnet-4".into(),
        provider: "anthropic".into(),
        cwd: "/home/user".into(),
        entries: vec![
            make_text_entry(Role::User, "hello"),
            make_text_entry(Role::Assistant, "world"),
        ],
        total_tokens: 1500,
        summary: "test".into(),
        final_response: "world".into(),
        title: String::new(),
        identity: None,
    };
    let result = build_one_liner(&data);
    assert!(result.contains("2025-07-23 12:00:00"));
    assert!(result.contains("1500 tokens"));
    assert!(result.contains("sonnet-4"));
    assert!(result.contains("2 entries"));
}

// --- beyond the basics ---

fn make_session(id: &str, saved_at: &str, title: &str, entries: Vec<ConversationEntry>) -> SessionData {
    SessionData {
        id: id.into(),
        saved_at: saved_at.into(),
        model: "m1".into(),
        provider: "p1".into(),
        cwd: "/w".into(),
        entries,
        total_tokens: 7,
        summary: String::new(),
        final_response: String::new(),
        title: title.into(),
        identity: None,
    }
}

fn make_index_entry(id: &str, saved_at: &str, identity: Option<&str>) -> SessionIndexEntry {
    SessionIndexEntry {
        id: id.into(),
        saved_at: saved_at.into(),
        model: "m1".into(),
        provider: "p1".into(),
        total_tokens: 7,
        one_liner: format!("line of {id}"),
        entry_count: 1,
        title: String::new(),
        identity: identity.map(String::from),
    }
}

fn ids(index: &[SessionIndexEntry]) -> Vec<String> {
    index.iter().map(|e| e.id.clone()).collect()
}

#[test]
fn summary_of_an_empty_session() {
    assert_eq!(build_summary(&Vec::new()), "Empty session — no messages.");
}

#[test]
fn summary_counts_and_quotes() {
    let entries = vec![
        make_text_entry(Role::User, "  first question  "),
        ConversationEntry {
            role: Role::Assistant,
            content: vec![
                ContentBlock::Text { text: "x".repeat(1536) },
                ContentBlock::ToolUse {
                    id: "t1".into(),
                    name: "read".into(),
                    input: zeno::json::Json::empty_object(),
                },
            ],
            reasoning_content: None,
        },
        make_tool_result_entry("contents"),
        make_text_entry(Role::Assistant, " done "),
    ];
    // 1536 + 6 bytes of text are 1.505 kilobytes.
    assert_eq!(
        build_summary(&entries),
        "4 entries | 1 user messages | 1 tool calls | 1 tool results | ~1.5 KB AI text\n\n\
         Recent messages:\nfirst question\n\nLast AI response:\ndone"
    );
}

#[test]
fn summary_rounds_kilobytes_as_floats_do() {
    for n in [0usize, 1, 51, 52, 128, 153, 256, 384, 640, 1024, 1075, 1100, 5000, 123_456] {
        let entries = vec![make_text_entry(Role::Assistant, &"y".repeat(n))];
        let shown = format!("~{:.1} KB AI text", n as f64 / 1024.0);
        assert!(build_summary(&entries).contains(&shown), "{n}: {shown}");
    }
}

#[test]
fn summary_keeps_the_last_three_messages_in_order() {
    let entries: Vec<ConversationEntry> = (1..=5)
        .map(|i| make_text_entry(Role::User, &format!("message {i}")))
        .collect();
    let summary = build_summary(&entries);
    assert!(summary.ends_with("Recent messages:\nmessage 3\nmessage 4\nmessage 5"));
    assert!(!summary.contains("message 2"));
}

#[test]
fn summary_shortens_long_texts() {
    let entries = vec![
        make_text_entry(Role::User, &"q".repeat(121)),
        make_text_entry(Role::Assistant, &"你".repeat(3000)),
    ];
    let summary = build_summary(&entries);
    assert!(summary.contains(&format!("Recent messages:\n{}…", "q".repeat(120))));
    assert!(summary.ends_with(&format!("Last AI response:\n{}…\n[truncated — 3000 total chars]", "你".repeat(2000))));
}

#[test]
fn index_liner_prefers_the_title() {
    let titled = make_session("1", "t", "Fix login", vec![make_text_entry(Role::User, "hello")]);
    assert_eq!(build_index_liner(&titled), "1 msgs, m1 — Fix login");
    let untitled = make_session("1", "t", "", vec![make_text_entry(Role::User, " two\nlines ")]);
    assert_eq!(build_index_liner(&untitled), "1 msgs, m1 model — two lines");
    let silent = make_session("1", "t", "", vec![make_text_entry(Role::Assistant, "hello")]);
    assert_eq!(build_index_liner(&silent), "0 msgs, m1 model — (no user messages)");
}

#[test]
fn one_liner_cuts_the_fraction_of_a_second() {
    let data = make_session("1", "2025-07-23T12:00:00.123Z", "", Vec::new());
    assert_eq!(
        build_one_liner(&data),
        "Session from 2025-07-23 12:00:00 — 0 entries, 0 user messages, m1 model, ~7 tokens"
    );
}

#[test]
fn time_that_is_none_stays_as_it_is() {
    assert_eq!(utc_to_local_display("yesterday"), "yesterday");
    assert_eq!(utc_to_local_display(""), "");
}

#[test]
fn both_forms_of_a_time_are_shown_alike() {
    let a = utc_to_local_display("2025-07-23 10:30:00");
    let b = utc_to_local_display("2025-07-23T10:30:00");
    assert_eq!(a, b);
    assert_eq!(a.len(), 19);
    assert!(!a.contains('T'));
    // A zone is a whole number of minutes away.
    assert!(a.ends_with(":00"));
}

#[test]
fn time_is_shown_in_its_zone() {
    let noon = Some((1_753_272_000, 0));
    assert_eq!(display_instant("?", noon, Some(0)), "2025-07-23 12:00:00");
    assert_eq!(display_instant("?", noon, Some(7200)), "2025-07-23 14:00:00");
    assert_eq!(display_instant("?", noon, Some(-46_800)), "2025-07-22 23:00:00");
    assert_eq!(display_instant("?", noon, None), "?");
    assert_eq!(display_instant("?", None, Some(0)), "?");
    assert_eq!(show_in_zone(0, 0, Some(0)).as_deref(), Some("1970-01-01 00:00:00"));
    assert_eq!(show_in_zone(0, 0, Some(86_400)), None);
}

#[test]
fn time_beyond_all_calendars_is_not_shown() {
    assert!(format_timestamp(i64::MAX).is_none());
    assert!(format_timestamp(253_402_300_799).is_some());
}

#[test]
fn index_is_kept_newest_first() {
    let mut index = Vec::new();
    for (id, at) in [("a", "2025-01-02"), ("b", "2025-01-03"), ("c", "2025-01-01")] {
        index = update_session_index(&index, &make_session(id, at, "", Vec::new()));
    }
    assert_eq!(ids(&index), ["b", "a", "c"]);
    // Saved again, a session is listed once, with its new time.
    index = update_session_index(&index, &make_session("c", "2025-01-04", "", Vec::new()));
    assert_eq!(ids(&index), ["c", "b", "a"]);
    assert_eq!(latest_session_file(&index), Some("c.json".to_string()));
    // Of the same time, the one listed before stays before.
    index = update_session_index(&index, &make_session("d", "2025-01-04", "", Vec::new()));
    assert_eq!(ids(&index), ["c", "d", "b", "a"]);
}

#[test]
fn index_lists_fifty_sessions() {
    let mut index = Vec::new();
    for i in 0..60 {
        index = update_session_index(&index, &make_session(&format!("s{i}"), &format!("{i:03}"), "", Vec::new()));
    }
    assert_eq!(index.len(), 50);
    assert_eq!(index[0].id, "s59");
    assert_eq!(index[49].id, "s10");
}

#[test]
fn lost_index_is_made_anew() {
    let sessions = vec![
        make_session("a", "2025-01-01", "", Vec::new()),
        make_session("b", "2025-01-02", "", Vec::new()),
    ];
    assert_eq!(ids(&rebuild_session_index(&sessions)), ["b", "a"]);
    assert_eq!(ids(&load_session_index(None, &sessions)), ["b", "a"]);
    assert_eq!(ids(&load_session_index(Some(Vec::new()), &sessions)), ["b", "a"]);
    let stored = vec![make_index_entry("x", "2020-01-01", None)];
    assert_eq!(ids(&load_session_index(Some(stored), &sessions)), ["x"]);
    assert_eq!(latest_session_file(&Vec::new()), None);
}

#[test]
fn session_files_are_told_apart() {
    assert_eq!(session_file("17-3"), "17-3.json");
    assert!(is_session_file("17-3.json"));
    assert!(!is_session_file("index.json"));
    assert!(!is_session_file(".json"));
    assert!(!is_session_file("notes.txt"));
}

#[test]
fn index_is_filtered_by_identity() {
    let index = vec![
        make_index_entry("a", "3", Some("work")),
        make_index_entry("b", "2", None),
        make_index_entry("c", "1", Some("home")),
    ];
    assert_eq!(ids(&filter_index_by_identity(&index, &Some("work".into()))), ["a"]);
    assert_eq!(ids(&filter_index_by_identity(&index, &None)), ["a", "b", "c"]);
    assert_eq!(ids(&filter_index_by_identity(&index, &Some(String::new()))), ["a", "b", "c"]);
    assert!(filter_index_by_identity(&index, &Some("play".into())).is_empty());
}

#[test]
fn list_of_sessions_is_exact() {
    let mut titled = make_index_entry("a", "x", Some("work"));
    titled.title = "Fix login".into();
    let index = vec![titled, make_index_entry("b", "y", None)];
    let times = vec!["2025-07-23 10:30:00".to_string(), "long ago".to_string()];
    assert_eq!(
        format_session_lines(&index, &times),
        "### Saved Sessions (2)\n\n1. **2025-07-23 10:30** — Fix login [work]\n\
         2. **long ago** — line of b\n\nUse `/restore N` to load a session."
    );
}

#[test]
fn answer_is_kept_by_its_characters() {
    let answer = |n: usize| {
        vec![ConversationEntry {
            role: Role::Assistant,
            content: vec![ContentBlock::Text { text: "你".repeat(n) }],
            reasoning_content: None,
        }]
    };
    assert_eq!(
        build_summary(&answer(1000)),
        "1 entries | 0 user messages | 0 tool calls | 0 tool results | ~2.9 KB AI text\n\n\
         Last AI response:\n"
            .to_string()
            + &"你".repeat(1000)
    );
    assert!(build_summary(&answer(2001))
        .ends_with(&("\n".to_string() + &"你".repeat(2000) + "…\n[truncated — 2001 total chars]")));
    let words = |n: usize| {
        let saved = session_to_save(
            "1".into(),
            "now".into(),
            "m".into(),
            "p".into(),
            "/".into(),
            answer(n),
            0,
            String::new(),
            None,
        );
        saved.unwrap().final_response
    };
    assert_eq!(words(1000), "你".repeat(1000));
    assert_eq!(words(2001), "你".repeat(2000));
}
