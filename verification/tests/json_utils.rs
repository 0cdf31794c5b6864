use zeno::engine::query::json_utils::parse_tool_input;
use zeno::engine::query::json_utils::safe_truncate_str;
use zeno::engine::query::json_utils::try_repair_json;


#[test]
fn test_repair_missing_closing_brace() {
    let result = try_repair_json(r#"{"key": "value""#);
    assert!(result.is_some());
    let v: serde_json::Value = serde_json::from_str(&result.unwrap()).unwrap();
    assert_eq!(v["key"], "value");
}

#[test]
fn test_repair_trailing_comma() {
    let result = try_repair_json(r#"{"key": "value",}"#);
    assert!(result.is_some());
}

#[test]
fn test_repair_unclosed_string() {
    let result = try_repair_json(r#"{"key": "val"#);
    assert!(result.is_some());
}

#[test]
fn test_parse_empty_input() {
    let result = parse_tool_input("");
    assert!(result.is_ok());
    assert!(result.unwrap().members.unwrap().is_empty());
}

#[test]
fn test_parse_valid_json() {
    let result = parse_tool_input(r#"{"command": "ls"}"#);
    assert!(result.is_ok());
}

#[test]
fn test_safe_truncate_str_ascii() {
    assert_eq!(safe_truncate_str("hello", 10), "hello");
    assert_eq!(safe_truncate_str("hello world", 5), "hello...(truncated)");
}

#[test]
fn test_safe_truncate_str_cjk() {
    assert_eq!(safe_truncate_str("你好世界", 2), "你好...(truncated)");
}
