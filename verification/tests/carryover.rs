use zeno::engine::carryover::Carryover;
use zeno::engine::carryover::ReadContent;


// --- remember_user_goal: never sets task_focus.goal ---

#[test]
fn test_remember_user_goal_no_auto_goal() {
    let mut c = Carryover::default();
    c.remember_user_goal("fix the login bug");
    assert!(c.user_goals.contains(&"fix the login bug".to_string()));
    assert!(
        c.task_focus.goal.is_empty(),
        "remember_user_goal must NOT set task_focus.goal"
    );
}

#[test]
fn test_remember_user_goal_casual_no_goal() {
    let mut c = Carryover::default();
    c.remember_user_goal("test");
    assert!(c.user_goals.contains(&"test".to_string()));
    assert!(c.task_focus.goal.is_empty());
}

// --- set_goal: explicit goal activation ---

#[test]
fn test_set_goal_activates() {
    let mut c = Carryover::default();
    c.set_goal("implement auth");
    assert_eq!(c.task_focus.goal, "implement auth");
    assert!(c.has_pending_goal());
}

#[test]
fn test_set_goal_empty_ignored() {
    let mut c = Carryover::default();
    c.set_goal("");
    assert!(!c.has_pending_goal());
}

// --- build_continuation_prompt ---

#[test]
fn test_continuation_prompt_with_goal() {
    let mut c = Carryover::default();
    c.task_focus.goal = "implement auth".into();
    let prompt = c.build_continuation_prompt();
    assert!(prompt.is_some());
    let text = prompt.unwrap();
    assert!(text.contains("implement auth"));
    assert!(text.contains("[system]"));
}

#[test]
fn test_continuation_prompt_no_goal() {
    let c = Carryover::default();
    assert!(c.build_continuation_prompt().is_none());
}

// --- has_pending_goal ---

#[test]
fn test_has_pending_goal() {
    let mut c = Carryover::default();
    assert!(!c.has_pending_goal());
    c.task_focus.goal = "do stuff".into();
    assert!(c.has_pending_goal());
}

// --- clear_goal ---

#[test]
fn test_clear_goal() {
    let mut c = Carryover::default();
    c.task_focus.goal = "do stuff".into();
    c.task_focus.next_step = "step 1".into();
    c.clear_goal();
    assert!(c.task_focus.goal.is_empty());
    assert!(c.task_focus.next_step.is_empty());
}

// --- full-content budget ---

#[test]
fn test_full_content_within_budget() {
    // A small file well within budget should be stored as Full.
    let mut c = Carryover::default();
    // 20 lines of ~40 chars each ≈ 800 chars — well under 12,000 budget.
    let output: String = (0..20)
        .map(|i| format!("{:>6} | line {}", i + 1, i))
        .collect::<Vec<_>>()
        .join("\n");
    c.remember_read_file("/small.rs", 0, 20, &output);
    assert!(matches!(c.read_files[0].content, ReadContent::Full(_)));
}

#[test]
fn test_full_content_budget_exhausted() {
    // Read multiple small files until budget is exhausted.
    // Each line: ~70 chars of content after stripping line numbers.
    // 80 lines × ~70 chars = ~5,600 chars per file.
    // Budget is 12,000: files 0 & 1 fit (~11,200), file 2 exceeds.
    let mut c = Carryover::default();

    for i in 0..3 {
        let content: String = (0..80)
            .map(|j| {
                format!(
                    "{:>6} | {} line {:04} padding_padding_padding_padding_padding",
                    j + 1,
                    i,
                    j
                )
            })
            .collect::<Vec<_>>()
            .join("\n");
        c.remember_read_file(&format!("/file_{}.rs", i), 0, 80, &content);
    }

    // First two files should be Full (within budget)
    assert!(matches!(c.read_files[0].content, ReadContent::Full(_)));
    assert!(matches!(c.read_files[1].content, ReadContent::Full(_)));
    // Third file should fall back to Preview (budget exhausted)
    assert!(matches!(c.read_files[2].content, ReadContent::Preview(_)));
}

#[test]
fn test_full_content_re_read_same_file() {
    // Re-reading the same file should not double-count budget.
    let mut c = Carryover::default();
    let content: String = (0..100)
        .map(|j| format!("{:>6} | line {:04} padding_padding_padding", j + 1, j))
        .collect::<Vec<_>>()
        .join("\n");

    // Read same file twice
    c.remember_read_file("/file.rs", 0, 100, &content);
    c.remember_read_file("/file.rs", 0, 100, &content);

    assert_eq!(c.read_files.len(), 1);
    // Should still be Full — old entry was removed before budget check
    assert!(matches!(c.read_files[0].content, ReadContent::Full(_)));
}
