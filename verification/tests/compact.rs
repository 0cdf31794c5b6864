use zeno::api::ContentBlock;
use zeno::engine::compact::context_collapse;
use zeno::engine::compact::estimate_tokens;
use zeno::engine::compact::group_messages_by_prompt_round;
use zeno::engine::compact::is_cjk;
use zeno::engine::compact::is_prompt_too_long_msg;
use zeno::engine::compact::truncate_head_for_ptl_retry;
use zeno::engine::messages::ConversationHistory;


#[test]
fn test_cjk_token_estimation() {
    // Pure ASCII
    let mut h = ConversationHistory::new();
    h.push_user("Hello world test"); // 17 chars → ~4 tokens
    let tokens = estimate_tokens(&h);
    assert!(tokens > 0);

    // With CJK — should estimate higher token count per char
    let mut h2 = ConversationHistory::new();
    h2.push_user("你好世界"); // 4 CJK chars → ~6 tokens
    let tokens2 = estimate_tokens(&h2);
    assert!(tokens2 > 0);
    // CJK should have more tokens per char than ASCII
    let ratio_ascii = tokens as f64 / 17.0;
    let ratio_cjk = tokens2 as f64 / 4.0;
    assert!(
        ratio_cjk > ratio_ascii,
        "CJK should have higher token/char ratio"
    );
}

#[test]
fn test_is_cjk() {
    assert!(is_cjk('你'));
    assert!(is_cjk('の'));
    assert!(is_cjk('한'));
    assert!(!is_cjk('a'));
    assert!(!is_cjk('1'));
}

#[test]
fn test_context_collapse_short_text_unchanged() {
    let mut h = ConversationHistory::new();
    h.push_user("short text");
    h.push_assistant_blocks(vec![ContentBlock::Text { text: "ok".into() }]);
    h.push_user("another prompt");

    // All text is short — collapse should not modify anything
    let changed = context_collapse(&mut h, 1);
    assert!(!changed);
}

#[test]
fn test_context_collapse_long_text_truncated() {
    let mut h = ConversationHistory::new();
    // Create a long text entry (> 2400 chars)
    let long_text = "x".repeat(3000);
    h.push_user(&long_text);
    h.push_assistant_blocks(vec![ContentBlock::Text {
        text: "response".into(),
    }]);
    h.push_user("prompt 2");
    h.push_assistant_blocks(vec![ContentBlock::Text {
        text: "response 2".into(),
    }]);
    h.push_user("keep this");

    let changed = context_collapse(&mut h, 1);
    assert!(changed);

    // The first entry's text should now contain "[collapsed"
    let entries = h.entries_raw();
    let first_text = entries[0]
        .content
        .iter()
        .filter_map(|b| match b {
            ContentBlock::Text { text } => Some(text.as_str()),
            _ => None,
        })
        .collect::<String>();
    assert!(first_text.contains("[collapsed"));
}

#[test]
fn test_group_messages_by_prompt_round() {
    let mut h = ConversationHistory::new();
    h.push_user("prompt 1");
    h.push_assistant_blocks(vec![ContentBlock::Text {
        text: "answer 1".into(),
    }]);
    h.push_user("prompt 2");
    h.push_assistant_blocks(vec![ContentBlock::Text {
        text: "answer 2".into(),
    }]);

    let groups = group_messages_by_prompt_round(h.entries_raw());
    assert_eq!(groups.len(), 2);
    assert_eq!(groups[0].len(), 2); // [user, assistant]
    assert_eq!(groups[1].len(), 2);
}

#[test]
fn test_truncate_head_for_ptl_retry() {
    let mut h = ConversationHistory::new();
    h.push_user("prompt 1");
    h.push_assistant_blocks(vec![ContentBlock::Text {
        text: "answer 1".into(),
    }]);
    h.push_user("prompt 2");
    h.push_assistant_blocks(vec![ContentBlock::Text {
        text: "answer 2".into(),
    }]);
    h.push_user("prompt 3");
    h.push_assistant_blocks(vec![ContentBlock::Text {
        text: "answer 3".into(),
    }]);

    let original_len = h.len();
    let truncated = truncate_head_for_ptl_retry(&mut h);
    assert!(truncated);
    assert!(h.len() < original_len);
}

#[test]
fn test_truncate_head_single_round_no_op() {
    let mut h = ConversationHistory::new();
    h.push_user("only prompt");
    h.push_assistant_blocks(vec![ContentBlock::Text {
        text: "only answer".into(),
    }]);

    let truncated = truncate_head_for_ptl_retry(&mut h);
    assert!(!truncated); // Only 1 round, can't truncate
}

#[test]
fn test_is_prompt_too_long_msg() {
    assert!(is_prompt_too_long_msg("Prompt too long for model"));
    assert!(is_prompt_too_long_msg("context length exceeded"));
    assert!(!is_prompt_too_long_msg("network timeout"));
}
