use mlua::Lua;
use mlua::Value;
use zeno::api::StopReason;
use zeno::api::Usage;
use zeno::hooks::context::after_request_context;
use zeno::hooks::context::after_tool_context;
use zeno::hooks::context::before_request_context;
use zeno::hooks::context::before_tool_context;
use zeno::hooks::context::context_text;
use zeno::hooks::context::session_context;
use zeno::hooks::context::user_message_context;
use zeno::hooks::context::HookValue;
use zeno::hooks::executor::collect_asked;
use zeno::hooks::executor::parse_hook_result;
use zeno::hooks::executor::planned_read;
use zeno::hooks::executor::planned_reads;
use zeno::hooks::executor::HookExecutor;
use zeno::hooks::executor::HookReturn;
use zeno::hooks::executor::HOOK_LIST;
use zeno::hooks::loader::load_hooks;
use zeno::hooks::loader::take_hooks;
use zeno::hooks::types::event_name_for;
use zeno::hooks::types::event_named;
use zeno::hooks::types::valid_hook_events;
use zeno::hooks::types::HookEvent;
use zeno::hooks::types::HookResult;
use zeno::json::Json;

fn test_executor() -> HookExecutor {
    HookExecutor::new(Lua::new())
}

fn json(text: &str) -> Json {
    match Json::parse(text) {
        Ok(v) => v,
        Err(e) => panic!("{e}"),
    }
}

/// Put a function into the machine's list, and register it from there.
fn register(exec: &mut HookExecutor, lua: &Lua, event: HookEvent, func: mlua::Function) {
    let list: mlua::Table = match lua.named_registry_value(HOOK_LIST) {
        Ok(list) => list,
        Err(_) => lua.create_table().unwrap(),
    };
    let entry = lua.create_table().unwrap();
    entry.set("event", event_name_for(event)).unwrap();
    entry.set("fn", func).unwrap();
    list.push(entry).unwrap();
    let place = list.raw_len();
    lua.set_named_registry_value(HOOK_LIST, list).unwrap();
    assert!(exec.register(event, place).is_ok());
}

#[test]
fn test_event_name_for_all_variants() {
    for (name, event) in valid_hook_events() {
        assert_eq!(event_name_for(event), name);
    }
}

#[test]
fn test_executor_default_is_empty() {
    let exec = test_executor();
    assert_eq!(exec.hook_count(), 0);
    assert!(exec.registered_events().is_empty());
}

#[test]
fn test_register_and_count() {
    let lua = Lua::new();
    let func = lua.create_function(|_, ()| Ok(())).unwrap();
    let mut exec = HookExecutor::new(lua.clone());
    register(&mut exec, &lua, HookEvent::PreToolUse, func);
    assert_eq!(exec.hook_count(), 1);
    assert!(exec.has_hooks_for(HookEvent::PreToolUse));
    assert!(!exec.has_hooks_for(HookEvent::PostToolUse));
}

#[test]
fn test_execute_nil_returns_empty() {
    let lua = Lua::new();
    let func = lua.create_function(|_, ()| Ok(Value::Nil)).unwrap();
    let ctx = Vec::new();
    let mut exec = HookExecutor::new(lua.clone());
    register(&mut exec, &lua, HookEvent::PreToolUse, func);
    assert!(exec.execute(HookEvent::PreToolUse, &ctx).is_empty());
}

#[test]
fn test_execute_block_from_table() {
    let lua = Lua::new();
    let func = lua
        .create_function(|lua, ()| -> Result<Value, mlua::Error> {
            let t = lua.create_table()?;
            t.set("block", "no entry")?;
            Ok(Value::Table(t))
        })
        .unwrap();
    let ctx = Vec::new();
    let mut exec = HookExecutor::new(lua.clone());
    register(&mut exec, &lua, HookEvent::PreToolUse, func);
    let results = exec.execute(HookEvent::PreToolUse, &ctx);
    assert_eq!(results.len(), 1);
    match &results[0] {
        HookResult::Block { reason } => assert_eq!(reason, "no entry"),
        _ => panic!("expected Block"),
    }
}

#[test]
fn test_execute_block_from_string() {
    let lua = Lua::new();
    let func = lua
        .create_function(|_, ()| -> Result<String, mlua::Error> { Ok("forbidden".into()) })
        .unwrap();
    let ctx = Vec::new();
    let mut exec = HookExecutor::new(lua.clone());
    register(&mut exec, &lua, HookEvent::PreToolUse, func);
    let results = exec.execute(HookEvent::PreToolUse, &ctx);
    assert_eq!(results.len(), 1);
    match &results[0] {
        HookResult::Block { reason } => assert_eq!(reason, "forbidden"),
        _ => panic!("expected Block"),
    }
}

#[test]
fn test_execute_first_block() {
    let lua = Lua::new();
    let func1 = lua
        .create_function(|_, ()| -> Result<Value, mlua::Error> { Ok(Value::Nil) })
        .unwrap();
    let func2 = lua
        .create_function(|_, ()| -> Result<String, mlua::Error> { Ok("blocked!".into()) })
        .unwrap();
    let ctx = Vec::new();
    let mut exec = HookExecutor::new(lua.clone());
    register(&mut exec, &lua, HookEvent::PreToolUse, func1);
    register(&mut exec, &lua, HookEvent::PreToolUse, func2);
    let result = exec.execute_first_block(HookEvent::PreToolUse, &ctx);
    assert_eq!(result, Some("blocked!".into()));
}

#[test]
fn test_execute_user_message_modified() {
    let lua = Lua::new();
    let func = lua
        .create_function(|_, ()| -> Result<String, mlua::Error> { Ok("modified input".into()) })
        .unwrap();
    let ctx = Vec::new();
    let mut exec = HookExecutor::new(lua.clone());
    register(&mut exec, &lua, HookEvent::UserMessage, func);
    assert_eq!(exec.execute_user_message(&ctx), Some("modified input".into()));
}

#[test]
fn test_execute_pre_llm_inject_context() {
    let lua = Lua::new();
    let func = lua
        .create_function(|_, ()| -> Result<String, mlua::Error> { Ok("extra context".into()) })
        .unwrap();
    let ctx = Vec::new();
    let mut exec = HookExecutor::new(lua.clone());
    register(&mut exec, &lua, HookEvent::PreLlmCall, func);
    assert_eq!(exec.execute_pre_llm(&ctx), vec!["extra context".to_string()]);
}

#[test]
fn test_context_table_passed_to_hook() {
    let lua = Lua::new();
    let func = lua
        .create_function(|_, ctx: mlua::Table| -> Result<String, mlua::Error> {
            let name: String = ctx.get("tool_name")?;
            Ok(format!("blocked: {}", name))
        })
        .unwrap();
    let ctx = vec![("tool_name".to_string(), HookValue::Words("bash".to_string()))];
    let mut exec = HookExecutor::new(lua.clone());
    register(&mut exec, &lua, HookEvent::PreToolUse, func);
    let results = exec.execute(HookEvent::PreToolUse, &ctx);
    assert_eq!(results.len(), 1);
    match &results[0] {
        HookResult::Block { reason } => assert_eq!(reason, "blocked: bash"),
        _ => panic!("expected Block"),
    }
}

fn table(
    block: Option<&str>,
    inject_context: Option<&str>,
    modified_input: Option<&str>,
) -> HookReturn {
    HookReturn::Table {
        block: block.map(String::from),
        inject_context: inject_context.map(String::from),
        modified_input: modified_input.map(String::from),
    }
}

#[test]
fn test_parse_hook_result_from_table_block() {
    let result = parse_hook_result(HookEvent::PreToolUse, table(Some("nope"), None, None));
    match result {
        Some(HookResult::Block { reason }) => assert_eq!(reason, "nope"),
        _ => panic!("expected Block"),
    }
}

#[test]
fn test_parse_hook_result_from_table_inject() {
    let result = parse_hook_result(HookEvent::PreLlmCall, table(None, Some("hello"), None));
    match result {
        Some(HookResult::InjectContext(text)) => assert_eq!(text, "hello"),
        _ => panic!("expected InjectContext"),
    }
}

#[test]
fn test_parse_hook_result_from_table_modified_input() {
    let result = parse_hook_result(HookEvent::UserMessage, table(None, None, Some("rewritten")));
    match result {
        Some(HookResult::ModifiedInput(text)) => assert_eq!(text, "rewritten"),
        _ => panic!("expected ModifiedInput"),
    }
}

#[test]
fn test_parse_hook_result_false_blocks_pre_tool() {
    match parse_hook_result(HookEvent::PreToolUse, HookReturn::Boolean(false)) {
        Some(HookResult::Block { reason }) => assert_eq!(reason, "Blocked by hook"),
        _ => panic!("expected Block"),
    }
}

#[test]
fn test_parse_hook_result_false_ignored_for_other_events() {
    assert!(parse_hook_result(HookEvent::SessionStart, HookReturn::Boolean(false)).is_none());
}

// --- beyond the basics ---

#[test]
fn bare_strings_mean_what_the_event_allows() {
    let words = || HookReturn::Words("w".to_string());
    assert!(matches!(parse_hook_result(HookEvent::PreToolUse, words()), Some(HookResult::Block { .. })));
    assert!(matches!(parse_hook_result(HookEvent::PreLlmCall, words()), Some(HookResult::InjectContext(_))));
    assert!(matches!(parse_hook_result(HookEvent::UserMessage, words()), Some(HookResult::ModifiedInput(_))));
    assert!(parse_hook_result(HookEvent::SessionEnd, words()).is_none());
    assert!(parse_hook_result(HookEvent::PreToolUse, HookReturn::Boolean(true)).is_none());
    assert!(parse_hook_result(HookEvent::PreToolUse, HookReturn::Nil).is_none());
    assert!(parse_hook_result(HookEvent::PreToolUse, HookReturn::Other).is_none());
}

#[test]
fn names_lead_back_to_events() {
    for (name, event) in valid_hook_events() {
        assert!(event_named(name) == Some(event));
    }
    assert!(event_named("after_lunch").is_none());
}

#[test]
fn failing_hook_does_not_stop_the_others() {
    let lua = Lua::new();
    let bad = lua
        .create_function(|_, ()| -> Result<(), mlua::Error> {
            Err(mlua::Error::RuntimeError("boom".into()))
        })
        .unwrap();
    let good = lua
        .create_function(|_, ()| -> Result<bool, mlua::Error> { Ok(false) })
        .unwrap();
    let ctx = Vec::new();
    let mut exec = HookExecutor::new(lua.clone());
    register(&mut exec, &lua, HookEvent::PreToolUse, bad);
    register(&mut exec, &lua, HookEvent::PreToolUse, good);
    let results = exec.execute(HookEvent::PreToolUse, &ctx);
    assert_eq!(results.len(), 1);
    assert!(matches!(&results[0], HookResult::Block { reason } if reason == "Blocked by hook"));
}

#[test]
fn events_are_listed_in_the_order_of_their_first_hook() {
    let lua = Lua::new();
    let func = lua.create_function(|_, ()| Ok(())).unwrap();
    let mut exec = HookExecutor::new(lua.clone());
    register(&mut exec, &lua, HookEvent::UserMessage, func.clone());
    register(&mut exec, &lua, HookEvent::PreToolUse, func.clone());
    register(&mut exec, &lua, HookEvent::UserMessage, func);
    assert_eq!(
        exec.registered_events(),
        vec![("user_message".to_string(), 2), ("pre_tool_use".to_string(), 1)]
    );
}

#[test]
fn hooks_of_a_configuration_are_loaded() {
    let lua = Lua::new();
    let list = lua.create_table().unwrap();
    for (i, name) in ["pre_tool_use", "after_lunch", "user_message"].iter().enumerate() {
        let entry = lua.create_table().unwrap();
        entry.set("event", *name).unwrap();
        entry.set("fn", lua.create_function(|_, ()| Ok("no")).unwrap()).unwrap();
        list.set(i + 1, entry).unwrap();
    }
    lua.set_named_registry_value("_rc_hooks", list).unwrap();
    let ctx = Vec::new();
    let loaded = load_hooks(lua);
    match loaded {
        Ok(Some(exec)) => {
            assert_eq!(exec.hook_count(), 2);
            assert_eq!(exec.execute_first_block(HookEvent::PreToolUse, &ctx), Some("no".into()));
            assert_eq!(exec.execute_user_message(&ctx), Some("no".into()));
        }
        _ => panic!("expected hooks"),
    }
}

#[test]
fn configuration_without_hooks_has_no_executor() {
    assert!(matches!(load_hooks(Lua::new()), Ok(None)));
}

#[test]
fn configuration_with_a_broken_entry_is_refused() {
    let lua = Lua::new();
    let list = lua.create_table().unwrap();
    let entry = lua.create_table().unwrap();
    entry.set("event", "pre_tool_use").unwrap();
    list.set(1, entry).unwrap();
    lua.set_named_registry_value("_rc_hooks", list).unwrap();
    match load_hooks(lua) {
        Err(e) => assert!(!e.cause.to_string().is_empty()),
        Ok(_) => panic!("expected an error"),
    }
}

#[test]
fn test_failed_hooks_count_for_nothing() {
    let answers = vec![
        None,
        Some(HookReturn::Nil),
        Some(HookReturn::Words("first".into())),
        Some(HookReturn::Other),
        Some(HookReturn::Table {
            block: Some("stop".into()),
            inject_context: Some("unread".into()),
            modified_input: None,
        }),
    ];
    let results = collect_asked(HookEvent::PreLlmCall, answers);
    assert_eq!(results.len(), 2);
    assert!(matches!(&results[0], HookResult::InjectContext(s) if s == "first"));
    assert!(matches!(&results[1], HookResult::Block { reason } if reason == "stop"));
}

#[test]
fn hook_that_cannot_be_kept_is_not_added() {
    let lua = Lua::new();
    let func = lua.create_function(|_, ()| Ok("stop")).unwrap();
    let key = lua.create_registry_value(func).unwrap();
    let ctx = Vec::new();
    let mut exec = HookExecutor::new(lua.clone());
    match exec.add_kept(HookEvent::PreToolUse, Err(mlua::Error::runtime("full"))) {
        Err(e) => assert!(e.cause.to_string().contains("full")),
        Ok(()) => panic!("expected an error"),
    }
    assert_eq!(exec.hook_count(), 0);
    assert!(exec.add_kept(HookEvent::PreToolUse, Ok(key)).is_ok());
    assert_eq!(exec.hook_count(), 1);
    assert_eq!(exec.execute_first_block(HookEvent::PreToolUse, &ctx).as_deref(), Some("stop"));
}

#[test]
fn hooks_are_taken_as_they_were_read() {
    let entry = |lua: &Lua, name: &str| {
        let function = lua.create_function(|_, ()| Ok(())).unwrap();
        (name.to_string(), lua.create_registry_value(function).unwrap())
    };
    assert!(matches!(take_hooks(Lua::new(), None), Ok(None)));

    let lua = Lua::new();
    let unknown = vec![entry(&lua, "no_such_event")];
    assert!(matches!(take_hooks(lua, Some((unknown, None))), Ok(None)));

    let lua = Lua::new();
    let some = vec![entry(&lua, "user_message"), entry(&lua, "no_such_event"), entry(&lua, "session_end")];
    match take_hooks(lua, Some((some, None))) {
        Ok(Some(exec)) => assert_eq!(
            exec.registered_events(),
            [("user_message".to_string(), 1), ("session_end".to_string(), 1)]
        ),
        _ => panic!("expected an executor"),
    }

    let lua = Lua::new();
    let some = vec![entry(&lua, "user_message")];
    match take_hooks(lua, Some((some, Some(mlua::Error::runtime("no event"))))) {
        Err(e) => assert!(e.cause.to_string().contains("no event")),
        Ok(_) => panic!("expected an error"),
    }
}

#[test]
fn only_the_hooks_of_the_event_are_called_and_in_order() {
    let lua = Lua::new();
    let mut exec = HookExecutor::new(lua.clone());
    for (event, word) in [
        (HookEvent::UserMessage, "not this"),
        (HookEvent::PreLlmCall, "one"),
        (HookEvent::PreToolUse, "nor this"),
        (HookEvent::PreLlmCall, "two"),
    ] {
        let func = lua.create_function(move |_, ()| Ok(word)).unwrap();
        register(&mut exec, &lua, event, func);
    }
    assert_eq!(exec.execute_pre_llm(&Vec::new()), ["one", "two"]);
    assert!(exec.execute(HookEvent::SessionEnd, &Vec::new()).is_empty());
}

#[test]
fn hook_without_a_listed_function_is_not_registered() {
    let mut exec = HookExecutor::new(Lua::new());
    assert!(exec.register(HookEvent::PreToolUse, 1).is_err());
    assert_eq!(exec.hook_count(), 0);
}

#[test]
fn key_of_another_machine_calls_nothing() {
    let other = Lua::new();
    let func = other.create_function(|_, ()| Ok("stop")).unwrap();
    let key = other.create_registry_value(func).unwrap();
    let mut exec = HookExecutor::new(Lua::new());
    assert!(exec.add_kept(HookEvent::PreToolUse, Ok(key)).is_ok());
    assert!(exec.execute(HookEvent::PreToolUse, &Vec::new()).is_empty());
}

#[test]
fn context_reaches_a_hook_as_a_table() {
    let lua = Lua::new();
    let func = lua
        .load(
            "return function(c) return c.input.path .. ' ' .. #c.list .. ' ' .. c.list[3].n .. ' ' \
             .. math.type(c.half) .. ' ' .. tostring(c.none) .. ' ' .. tostring(c.on) .. ' ' \
             .. math.type(c.small) .. c.small .. ' ' .. c.words end",
        )
        .eval::<mlua::Function>()
        .unwrap();
    let mut exec = HookExecutor::new(lua.clone());
    register(&mut exec, &lua, HookEvent::UserMessage, func);
    let document = |text: &str| HookValue::Document(json(text).item.text);
    let ctx = vec![
        ("input".to_string(), document(r#"{"path": "a"}"#)),
        ("list".to_string(), document(r#"[1, 2, {"n": 7}]"#)),
        ("half".to_string(), document("0.5")),
        ("none".to_string(), document("null")),
        ("on".to_string(), HookValue::Flag(true)),
        ("small".to_string(), HookValue::Whole(i64::MIN)),
        ("words".to_string(), HookValue::Words("\"a\\b\"\n\u{1}\u{1f}\u{e9}\u{1f600}".to_string())),
    ];
    assert_eq!(
        exec.execute_user_message(&ctx).as_deref(),
        Some("a 3 7 float nil true integer-9223372036854775808 \"a\\b\"\n\u{1}\u{1f}\u{e9}\u{1f600}")
    );
}

#[test]
fn hooks_of_an_event_share_one_table() {
    let lua = Lua::new();
    let mut exec = HookExecutor::new(lua.clone());
    for code in ["return function(c) c.seen = c.model end", "return function(c) return c.seen end"] {
        let func = lua.load(code).eval::<mlua::Function>().unwrap();
        register(&mut exec, &lua, HookEvent::PreLlmCall, func);
    }
    assert_eq!(exec.execute_pre_llm(&before_request_context("haiku-3", 1, 2, "/w")), ["haiku-3"]);
}

#[test]
fn context_that_is_no_json_fails_every_hook() {
    let lua = Lua::new();
    let func = lua.create_function(|_, ()| Ok("stop")).unwrap();
    let mut exec = HookExecutor::new(lua.clone());
    register(&mut exec, &lua, HookEvent::PreToolUse, func);
    let ctx = vec![("tool_input".to_string(), HookValue::Document("{".to_string()))];
    assert!(exec.execute(HookEvent::PreToolUse, &ctx).is_empty());
}

#[test]
fn each_event_tells_its_own() {
    let input = json(r#"{"command": "ls"}"#);
    assert_eq!(context_text(&Vec::new()), "{}");
    assert_eq!(
        context_text(&user_message_context("say \"hi\"\t\\", "/w")),
        r#"{"input":"say \"hi\"\u0009\\","cwd":"/w"}"#
    );
    assert_eq!(
        context_text(&before_tool_context("bash", &input, "/w")),
        r#"{"tool_name":"bash","tool_input":{"command":"ls"},"cwd":"/w"}"#
    );
    assert_eq!(
        context_text(&after_tool_context("bash", &input, "a\u{1b}b", true, "/w")),
        r#"{"tool_name":"bash","tool_input":{"command":"ls"},"tool_output":"a\u001bb","tool_is_error":true,"cwd":"/w"}"#
    );
    assert_eq!(
        context_text(&before_request_context("haiku-3", 4, 12, "/w")),
        r#"{"model":"haiku-3","turn":4,"cwd":"/w","message_count":12}"#
    );
    let usage = Usage {
        input_tokens: 100,
        output_tokens: 20,
        cache_read_input_tokens: 7,
        cache_creation_input_tokens: 8,
        reasoning_tokens: 9,
    };
    assert_eq!(
        context_text(&after_request_context("haiku-3", 4, &usage, Some(StopReason::EndTurn), "/w")),
        r#"{"model":"haiku-3","turn":4,"input_tokens":100,"output_tokens":20,"total_tokens":120,"stop_reason":"Some(EndTurn)","cwd":"/w"}"#
    );
    assert_eq!(
        context_text(&session_context("/w", "haiku-3", "acme")),
        r#"{"cwd":"/w","model":"haiku-3","provider":"acme"}"#
    );
}

#[test]
fn hooks_are_told_why_the_model_stopped() {
    let usage = Usage {
        input_tokens: u64::MAX,
        output_tokens: 0,
        cache_read_input_tokens: 0,
        cache_creation_input_tokens: 0,
        reasoning_tokens: 0,
    };
    for (reason, words) in [
        (None, "None"),
        (Some(StopReason::ToolUse), "Some(ToolUse)"),
        (Some(StopReason::MaxTokens), "Some(MaxTokens)"),
        (Some(StopReason::Other), "Some(Other)"),
    ] {
        let told = after_request_context("m", 0, &usage, reason, "/");
        assert!(matches!(&told[2].1, HookValue::Whole(-1)));
        assert!(matches!(&told[5].1, HookValue::Words(s) if s == words));
    }
}

#[test]
fn calls_are_planned_for_the_hooks_of_the_event() {
    let lua = Lua::new();
    let func = lua.create_function(|_, ()| Ok(())).unwrap();
    let mut exec = HookExecutor::new(lua.clone());
    for event in [HookEvent::UserMessage, HookEvent::PreToolUse, HookEvent::UserMessage] {
        register(&mut exec, &lua, event, func.clone());
    }
    let calls = exec.planned_calls(HookEvent::UserMessage, &user_message_context("hi", "/w"));
    let planned: Vec<(usize, &str)> = calls.iter().map(|c| (c.place, c.context.as_str())).collect();
    let told = r#"{"input":"hi","cwd":"/w"}"#;
    assert_eq!(planned, [(0, told), (2, told)]);
    register(&mut exec, &lua, HookEvent::UserMessage, func);
    let calls = exec.planned_calls(HookEvent::UserMessage, &Vec::new());
    assert_eq!(calls.iter().map(|c| c.place).collect::<Vec<usize>>(), [0, 2, 3]);
    assert!(exec.planned_calls(HookEvent::SessionEnd, &Vec::new()).is_empty());
}

#[test]
fn entries_are_read_from_the_first_place_on() {
    let places: Vec<usize> = planned_reads(3).iter().map(|r| r.place).collect();
    assert_eq!(places, [1, 2, 3]);
    assert!(planned_reads(0).is_empty());
    let read = planned_read(2);
    assert_eq!(read.place, 2);
    assert_eq!(read.list, "_rc_hooks");
    assert_eq!(read.event, "event");
    assert_eq!(read.function, "fn");
}
