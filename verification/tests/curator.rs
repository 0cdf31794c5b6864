use zeno::engine::curator::is_paused;
use zeno::engine::curator::plan_transition;
use zeno::engine::curator::review_candidates;
use zeno::engine::curator::run_curator_pass;
use zeno::engine::curator::run_lifecycle_maintenance;
use zeno::engine::curator::set_paused;
use zeno::engine::curator::should_run_after;
use zeno::engine::curator::should_run_now;
use zeno::engine::curator::spawn_curator_review;
use zeno::engine::curator::try_lock_background_work;
use zeno::engine::curator::unlock_background_work;
use zeno::engine::curator::ArchiveOutcome;
use zeno::engine::curator::BackgroundLock;
use zeno::engine::curator::CuratorState;
use zeno::engine::curator::SkillFacts;
use zeno::engine::curator::Transition;
use zeno::engine::review::SkillsConfig;
use zeno::time::iso_text;
use zeno::time::parse_iso_to_secs;
use zeno::time::seconds_since;

fn config() -> SkillsConfig {
    SkillsConfig {
        curator_enabled: true,
        curator_interval_hours: 24,
        stale_after_days: 30,
        archive_after_days: 90,
        background_review_enabled: false,
        review_interval_turns: 0,
    }
}

const FREE: BackgroundLock = BackgroundLock { held: false };

fn skill(name: &str) -> SkillFacts {
    SkillFacts {
        name: name.into(),
        source: "user".into(),
        directory: Some(format!("/skills/{name}")),
        created_by: Some("agent".into()),
        pinned: false,
        archive_due: false,
        stale_due: false,
        activity: 3,
    }
}

fn outcome(ok: bool, message: &str) -> ArchiveOutcome {
    ArchiveOutcome { ok, message: message.into() }
}

#[test]
fn test_should_run_never_ran() {
    let state = CuratorState::default();
    assert!(state.last_run_at.is_none());
    assert!(should_run_now(&config(), &state, &FREE, 0));
}

#[test]
fn test_hours_since() {
    let now = 1_753_266_600;
    let ts = iso_text(now).unwrap();
    let h = seconds_since(&ts, now).unwrap() as f64 / 3600.0;
    assert!(h < 0.01); // just now
    assert_eq!(seconds_since(&ts, now + 7200), Some(7200));
}

#[test]
fn test_parse_iso() {
    let secs = parse_iso_to_secs("2025-07-23T10:30:00Z").unwrap();
    assert!(secs > 0);
    assert_eq!(secs, 1_753_266_600);
    assert_eq!(iso_text(secs).as_deref(), Some("2025-07-23T10:30:00Z"));
    assert_eq!(parse_iso_to_secs("yesterday"), None);
}

#[test]
fn lock_is_held_by_one() {
    let mut lock = FREE;
    assert!(try_lock_background_work(&mut lock));
    assert!(!try_lock_background_work(&mut lock));
    assert!(!should_run_now(&config(), &CuratorState::default(), &lock, 0));
    unlock_background_work(&mut lock);
    assert!(try_lock_background_work(&mut lock));
}

#[test]
fn pass_waits_for_its_interval() {
    let mut state = CuratorState::default();
    state.last_run_at = Some("2025-07-23T10:30:00Z".into());
    let ran = 1_753_266_600;
    assert!(!should_run_now(&config(), &state, &FREE, ran + 24 * 3600 - 1));
    assert!(should_run_now(&config(), &state, &FREE, ran + 24 * 3600));
    // A time that cannot be read does not hold it up.
    assert!(should_run_after(&config(), &state, &FREE, None));
    let off = SkillsConfig { curator_enabled: false, ..config() };
    assert!(!should_run_after(&off, &state, &FREE, None));
    set_paused(&mut state, true);
    assert!(is_paused(&state));
    assert!(!should_run_after(&config(), &state, &FREE, None));
}

#[test]
fn skills_go_by_their_use() {
    let mut old = skill("old");
    old.archive_due = true;
    old.stale_due = true;
    assert!(matches!(plan_transition(&old), Transition::Archive { name, directory } if name == "old" && directory == "/skills/old"));
    old.directory = None;
    assert!(matches!(plan_transition(&old), Transition::Keep));
    let mut stale = skill("stale");
    stale.stale_due = true;
    assert!(matches!(plan_transition(&stale), Transition::MarkStale { .. }));
    stale.pinned = true;
    assert!(matches!(plan_transition(&stale), Transition::Keep));
    let mut bundled = skill("b");
    bundled.source = "bundled".into();
    bundled.archive_due = true;
    assert!(matches!(plan_transition(&bundled), Transition::Keep));
}

#[test]
fn upkeep_is_reported() {
    let mut a = skill("a");
    a.archive_due = true;
    let mut b = skill("b");
    b.archive_due = true;
    let mut c = skill("c");
    c.stale_due = true;
    let skills = vec![a, skill("quiet"), b, c];
    let outcomes = vec![outcome(true, "moved"), outcome(false, ""), outcome(false, "in use"), outcome(false, "")];
    assert_eq!(
        run_lifecycle_maintenance(&skills, &outcomes),
        "Archived 'a' (activity: 3): moved\nFailed to archive 'b': in use\nMarked 'c' as stale (activity: 3)"
    );
    assert_eq!(
        run_lifecycle_maintenance(&Vec::new(), &Vec::new()),
        "No lifecycle transitions needed."
    );
}

#[test]
fn review_is_given_what_may_be_merged() {
    let mut pinned = skill("pinned");
    pinned.pinned = true;
    let mut human = skill("human");
    human.created_by = None;
    let skills = vec![skill("a"), pinned, human, skill("b")];
    assert_eq!(review_candidates(&skills), ["a", "b"]);
    let task = spawn_curator_review(&skills).unwrap();
    assert!(task.goal.contains("Candidate skills (agent-created, not pinned):\na\nb\n\nWhen done"));
    assert_eq!(task.tools, ["skill_view", "skill_list", "skill_manage", "read", "grep", "glob"]);
    assert!(spawn_curator_review(&Vec::new()).is_none());
}

#[test]
fn pass_is_remembered() {
    let mut state = CuratorState::default();
    let skills = vec![skill("a")];
    let pass = run_curator_pass(&mut state, &skills, &vec![outcome(false, "")], true, "2025-07-23T10:30:00Z");
    assert_eq!(pass.summary, "No lifecycle transitions needed.");
    assert!(pass.review.is_some());
    assert_eq!(state.run_count, 1);
    assert_eq!(state.last_run_at.as_deref(), Some("2025-07-23T10:30:00Z"));
    assert_eq!(state.last_run_summary.as_deref(), Some("No lifecycle transitions needed."));
    assert!(!should_run_now(&config(), &state, &FREE, 1_753_266_660));
    let pass = run_curator_pass(&mut state, &skills, &vec![outcome(false, "")], false, "later");
    assert!(pass.review.is_none());
    assert_eq!(state.run_count, 2);
}
