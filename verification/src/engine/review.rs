//! When a background review of the conversation is due, and what it is asked.

use crate::text;
use crate::text::Text;
use vstd::prelude::*;
use vstd::string::*;

verus! {

/// Settings of the skill library.
#[derive(Clone, Copy, PartialEq, Eq, Structural)]
pub struct SkillsConfig {
    pub curator_enabled: bool,
    pub curator_interval_hours: u64,
    pub stale_after_days: u64,
    pub archive_after_days: u64,
    pub background_review_enabled: bool,
    pub review_interval_turns: u32,
}

/// Whether a review is due: at every multiple of the interval.
pub open spec fn review_due(turn_count: u32, config: SkillsConfig) -> bool {
    config.background_review_enabled && config.review_interval_turns > 0 && turn_count > 0
        && turn_count as int % config.review_interval_turns as int == 0
}

/// Whether a review is due.
pub fn should_run_review(turn_count: u32, config: &SkillsConfig) -> (r: bool)
    ensures
        r == review_due(turn_count, *config),
{
    if !config.background_review_enabled {
        return false;
    }
    if config.review_interval_turns == 0 {
        return false;
    }
    turn_count > 0 && turn_count % config.review_interval_turns == 0
}

/// What a review is asked to do.
pub const SKILL_REVIEW_PROMPT: &'static str = "Review the conversation above and update the skill library. Be ACTIVE — most sessions produce at least one skill update, even if small. A pass that does nothing is a missed learning opportunity, not a neutral outcome.\n\nTarget shape of the library: CLASS-LEVEL skills, each with a rich SKILL.md and a references/ directory for session-specific detail. Not a long flat list of narrow one-session-one-skill entries.\n\nSignals to look for (any one of these warrants action):\n  • User corrected your style, tone, format, legibility, or verbosity.\n  • User corrected your workflow, approach, or sequence of steps.\n  • Non-trivial technique, fix, workaround, debugging path, or tool-usage pattern emerged.\n  • A skill that got loaded or consulted this session turned out to be wrong, missing a step, or outdated.\n\nPreference order:\n  1. UPDATE A CURRENTLY-LOADED SKILL via skill_manage(action=\"patch\").\n  2. UPDATE AN EXISTING UMBRELLA via skill_list + skill_view + skill_manage(action=\"patch\").\n  3. ADD A SUPPORT FILE under an existing umbrella via skill_manage(action=\"write_file\").\n  4. CREATE A NEW CLASS-LEVEL UMBRELLA SKILL via skill_manage(action=\"create\").\n\nDo NOT capture:\n  • Environment-dependent failures (missing binaries, fresh-install errors).\n  • Negative claims about tools or features (\"X tool is broken\").\n  • Session-specific transient errors that resolved before the conversation ended.\n  • One-off task narratives.\n\nIf nothing to save, just say \"Nothing to save.\" and stop.";

/// The tools that a review may use beside the usual ones.
pub open spec fn review_tools_view() -> Seq<Text> {
    seq!["skill_view"@, "skill_list"@, "skill_manage"@, "read"@, "grep"@, "glob"@]
}

/// The tools that a review may use beside the usual ones.
pub fn review_tools() -> (r: Vec<String>)
    ensures
        text::texts(r@) == review_tools_view(),
{
    let mut r: Vec<String> = Vec::new();
    text::push_text(&mut r, text::copy("skill_view"));
    text::push_text(&mut r, text::copy("skill_list"));
    text::push_text(&mut r, text::copy("skill_manage"));
    text::push_text(&mut r, text::copy("read"));
    text::push_text(&mut r, text::copy("grep"));
    text::push_text(&mut r, text::copy("glob"));
    assert(text::texts(r@) =~= review_tools_view());
    r
}

/// A task for a sub-agent in the background: what it is to do, and the tools that
/// it may use beside the usual ones.
pub struct BackgroundTask {
    pub goal: String,
    pub tools: Vec<String>,
}

/// What a `BackgroundTask` holds.
#[verifier::ext_equal]
pub struct BackgroundTaskView {
    pub goal: Text,
    pub tools: Seq<Text>,
}

impl View for BackgroundTask {
    type V = BackgroundTaskView;

    open spec fn view(&self) -> BackgroundTaskView {
        BackgroundTaskView { goal: self.goal@, tools: text::texts(self.tools@) }
    }
}

/// The review of a conversation, which is told what was said in it.
pub fn spawn_background_review(conversation_summary: &str) -> (r: BackgroundTask)
    ensures
        r@ == (BackgroundTaskView {
            goal: SKILL_REVIEW_PROMPT@ + "\n\n## Conversation Summary\n\n"@
                + conversation_summary@,
            tools: review_tools_view(),
        }),
{
    BackgroundTask {
        goal: text::cat3(
            SKILL_REVIEW_PROMPT,
            "\n\n## Conversation Summary\n\n",
            conversation_summary,
        ),
        tools: review_tools(),
    }
}

/// A review that is switched off, or has no interval, never runs; else it runs
/// once in every interval.
pub proof fn law_review_runs_once_per_interval(turn_count: u32, config: SkillsConfig)
    ensures
        !config.background_review_enabled || config.review_interval_turns == 0 ==> !review_due(
            turn_count,
            config,
        ),
        0 < turn_count < config.review_interval_turns ==> !review_due(turn_count, config),
        config.background_review_enabled && config.review_interval_turns > 0 ==> review_due(
            config.review_interval_turns,
            config,
        ),
{
    if 0 < turn_count < config.review_interval_turns {
        assert(turn_count as int % config.review_interval_turns as int == turn_count as int)
            by (nonlinear_arith)
            requires
                0 < turn_count < config.review_interval_turns,
        ;
    }
    if config.review_interval_turns > 0 {
        assert(config.review_interval_turns as int % config.review_interval_turns as int == 0)
            by (nonlinear_arith)
            requires
                config.review_interval_turns > 0,
        ;
    }
}

} // verus!
