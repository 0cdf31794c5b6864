use zeno::gateway::dispatch::MethodError;
use zeno::gateway::handlers::config::ConfigGetHandler;
use zeno::gateway::handlers::config::ConfigSettings;
use zeno::gateway::handlers::config::ConfigValue;
use zeno::gateway::handlers::prompt::PromptSubmitHandler;
use zeno::gateway::handlers::session::SessionCreateHandler;
use zeno::gateway::handlers::session::SessionListHandler;
use zeno::json::Json;

fn json(text: &str) -> Json {
    Json::parse(text).unwrap()
}

fn test_settings() -> ConfigSettings {
    ConfigSettings {
        active_provider: "anthropic".into(),
        model: "sonnet-4-20250514".into(),
        max_tokens: 4096,
        max_turns: 100,
    }
}

#[test]
fn test_config_get_provider() {
    let handler = ConfigGetHandler::new(test_settings());
    match handler.handle(&json(r#"{"key": "provider"}"#)) {
        Ok(reply) => {
            assert_eq!(reply.key, "provider");
            assert!(matches!(reply.value, ConfigValue::Words(s) if s == "anthropic"));
        }
        Err(e) => panic!("{}", e.message()),
    }
}

#[test]
fn test_config_get_unknown_key() {
    let handler = ConfigGetHandler::new(test_settings());
    assert!(handler.handle(&json(r#"{"key": "nonexistent"}"#)).is_err());
}

#[test]
fn test_config_get_missing_key() {
    let handler = ConfigGetHandler::new(test_settings());
    match handler.handle(&json("{}")) {
        Err(e) => assert!(e.message().contains("missing 'key'")),
        Ok(_) => panic!("expected an error"),
    }
}

#[test]
fn test_session_create() {
    let created = SessionCreateHandler.handle(&json(r#"{"title": "Test"}"#), 42);
    assert!(created.id.contains("session-"));
    assert_eq!(created.id, "session-42");
    assert_eq!(created.title, "Test");
}

#[test]
fn test_session_create_default_title() {
    let created = SessionCreateHandler.handle(&json("{}"), 42);
    assert_eq!(created.title, "Untitled Session");
}

#[test]
fn test_session_list() {
    let listing = SessionListHandler.handle();
    assert_eq!(listing.total, 0);
    assert!(listing.sessions.is_empty());
}

#[test]
fn config_values_are_told_by_key() {
    let handler = ConfigGetHandler::new(test_settings());
    let value = |key: &str| match handler.handle(&json(&format!("{{\"key\": \"{key}\"}}"))) {
        Ok(reply) => reply.value,
        Err(e) => panic!("{}", e.message()),
    };
    assert!(matches!(value("model"), ConfigValue::Words(s) if s == "sonnet-4-20250514"));
    assert!(matches!(value("max_tokens"), ConfigValue::Number(4096)));
    assert!(matches!(value("max_turns"), ConfigValue::Number(100)));
}

#[test]
fn config_errors_are_worded() {
    let handler = ConfigGetHandler::new(test_settings());
    match handler.handle(&json(r#"{"key": "color"}"#)) {
        Err(e) => {
            assert!(matches!(&e, MethodError::NotFound(_)));
            assert_eq!(e.message(), "method not found: unknown config key: color");
        }
        Ok(_) => panic!("expected an error"),
    }
    assert_eq!(
        MethodError::ExecutionError("oh".to_string()).message(),
        "execution error: oh"
    );
}

#[test]
fn prompt_is_accepted_with_its_pictures() {
    let handler = PromptSubmitHandler::new();
    match handler.handle(&json(r#"{"text": "hi", "images": ["a", 1, "b"]}"#), 77) {
        Ok(receipt) => {
            assert_eq!(receipt.text, "hi");
            assert_eq!(receipt.image_count, 2);
            assert_eq!(receipt.id, "q-77");
        }
        Err(e) => panic!("{}", e.message()),
    }
    match handler.handle(&json(r#"{"text": "hi", "images": "a"}"#), 1) {
        Ok(receipt) => assert_eq!(receipt.image_count, 0),
        Err(e) => panic!("{}", e.message()),
    }
    match handler.handle(&json("{}"), 1) {
        Err(e) => assert_eq!(e.message(), "invalid params: missing 'text' field"),
        Ok(_) => panic!("expected an error"),
    }
}
