//! Upkeep of the skill library: when it is due, what becomes of unused skills,
//! and what the review of the library is asked.

use crate::engine::review;
use crate::engine::review::BackgroundTask;
use crate::engine::review::BackgroundTaskView;
use crate::engine::review::SkillsConfig;
use crate::text;
use crate::text::Text;
use crate::time;
use vstd::prelude::*;
use vstd::string::*;

verus! {

// ---------------------------------------------------------------------------
// One background task at a time
// ---------------------------------------------------------------------------

/// Whether a background task is at work: a review of the conversation, or one
/// of the skill library.
#[derive(Clone, Copy, PartialEq, Eq, Structural)]
pub struct BackgroundLock {
    pub held: bool,
}

/// Take the lock, unless it is held.
pub fn try_lock_background_work(lock: &mut BackgroundLock) -> (r: bool)
    ensures
        r == !old(lock).held,
        final(lock).held,
{
    let free = !lock.held;
    lock.held = true;
    free
}

/// Let go of the lock.
pub fn unlock_background_work(lock: &mut BackgroundLock)
    ensures
        !final(lock).held,
{
    lock.held = false;
}

// ---------------------------------------------------------------------------
// State
// ---------------------------------------------------------------------------

/// What is remembered from one pass to the next.
pub struct CuratorState<S = String> {
    pub last_run_at: Option<S>,
    pub last_run_summary: Option<S>,
    pub paused: bool,
    pub run_count: u64,
}

impl View for CuratorState<String> {
    type V = CuratorState<Text>;

    open spec fn view(&self) -> CuratorState<Text> {
        CuratorState {
            last_run_at: text::opt_text(self.last_run_at),
            last_run_summary: text::opt_text(self.last_run_summary),
            paused: self.paused,
            run_count: self.run_count,
        }
    }
}

impl Default for CuratorState<String> {
    fn default() -> (r: CuratorState<String>)
        ensures
            r.last_run_at is None,
            r.last_run_summary is None,
            !r.paused,
            r.run_count == 0,
    {
        CuratorState { last_run_at: None, last_run_summary: None, paused: false, run_count: 0 }
    }
}

/// Pause the upkeep, or go on with it.
pub fn set_paused(state: &mut CuratorState, paused: bool)
    ensures
        final(state)@ == (CuratorState { paused, ..old(state)@ }),
{
    state.paused = paused;
}

/// Whether the upkeep is paused.
pub fn is_paused(state: &CuratorState) -> (r: bool)
    ensures
        r == state@.paused,
{
    state.paused
}

/// Whether a pass is due. `elapsed` are the seconds since the last one, where
/// its time can be read.
pub open spec fn pass_due(
    config: SkillsConfig,
    state: CuratorState<Text>,
    lock: BackgroundLock,
    elapsed: Option<i64>,
) -> bool {
    config.curator_enabled && !state.paused && !lock.held && (match (state.last_run_at, elapsed) {
        (Some(_), Some(seconds)) => seconds >= config.curator_interval_hours * 3600,
        _ => true,
    })
}

/// Whether a pass is due: the upkeep is on and not paused, no background task is
/// at work, and the last pass is an interval ago, or its time is not known.
pub fn should_run_after(
    config: &SkillsConfig,
    state: &CuratorState,
    lock: &BackgroundLock,
    elapsed: Option<i64>,
) -> (r: bool)
    ensures
        r == pass_due(*config, state@, *lock, elapsed),
{
    if !config.curator_enabled {
        return false;
    }
    if state.paused {
        return false;
    }
    if lock.held {
        return false;
    }
    match &state.last_run_at {
        None => true,
        Some(_) => match elapsed {
            None => true,
            Some(seconds) => seconds as i128 >= config.curator_interval_hours as i128 * 3600,
        },
    }
}

/// The seconds since the last pass, where its time can be read.
pub open spec fn since_last_run(state: CuratorState<Text>, now: i64) -> Option<i64> {
    match state.last_run_at {
        Some(ts) => time::elapsed_since(ts, now),
        None => None,
    }
}

/// Whether a pass is due at `now`, in seconds since the epoch.
pub fn should_run_now(
    config: &SkillsConfig,
    state: &CuratorState,
    lock: &BackgroundLock,
    now: i64,
) -> (r: bool)
    ensures
        r == pass_due(*config, state@, *lock, since_last_run(state@, now)),
{
    let elapsed = match &state.last_run_at {
        Some(ts) => time::seconds_since(ts.as_str(), now),
        None => None,
    };
    should_run_after(config, state, lock, elapsed)
}

// ---------------------------------------------------------------------------
// Unused skills
// ---------------------------------------------------------------------------

/// A skill, and how it has been used.
pub struct SkillFacts<S = String> {
    pub name: S,
    /// Where it comes from.
    pub source: S,
    /// The directory that it is kept in, where it has a file.
    pub directory: Option<S>,
    /// Who made it.
    pub created_by: Option<S>,
    pub pinned: bool,
    /// Whether it has been unused for so long that it is put away.
    pub archive_due: bool,
    /// Whether it has been unused for so long that it is stale.
    pub stale_due: bool,
    /// How often it was used, looked at or changed.
    pub activity: u64,
}

impl View for SkillFacts<String> {
    type V = SkillFacts<Text>;

    open spec fn view(&self) -> SkillFacts<Text> {
        SkillFacts {
            name: self.name@,
            source: self.source@,
            directory: text::opt_text(self.directory),
            created_by: text::opt_text(self.created_by),
            pinned: self.pinned,
            archive_due: self.archive_due,
            stale_due: self.stale_due,
            activity: self.activity,
        }
    }
}

/// What a list of skills holds.
pub open spec fn skills_view(v: Seq<SkillFacts>) -> Seq<SkillFacts<Text>> {
    Seq::new(v.len(), |i: int| v[i]@)
}

/// What becomes of a skill.
pub enum Transition<S = String> {
    Keep,
    Archive { name: S, directory: S },
    MarkStale { name: S },
}

impl View for Transition<String> {
    type V = Transition<Text>;

    open spec fn view(&self) -> Transition<Text> {
        match self {
            Transition::Keep => Transition::Keep,
            Transition::Archive { name, directory } => Transition::Archive {
                name: name@,
                directory: directory@,
            },
            Transition::MarkStale { name } => Transition::MarkStale { name: name@ },
        }
    }
}

/// What becomes of a skill. Only the user's own are touched, and none that is
/// pinned.
pub open spec fn transition_of(s: SkillFacts<Text>) -> Transition<Text> {
    if s.source != "user"@ || s.pinned {
        Transition::Keep
    } else if s.archive_due {
        match s.directory {
            Some(directory) => Transition::Archive { name: s.name, directory },
            None => Transition::Keep,
        }
    } else if s.stale_due {
        Transition::MarkStale { name: s.name }
    } else {
        Transition::Keep
    }
}

/// What becomes of a skill.
pub fn plan_transition(skill: &SkillFacts) -> (r: Transition)
    ensures
        r@ == transition_of(skill@),
{
    if !text::same(skill.source.as_str(), "user") || skill.pinned {
        Transition::Keep
    } else if skill.archive_due {
        match &skill.directory {
            Some(directory) => Transition::Archive {
                name: text::copy(skill.name.as_str()),
                directory: text::copy(directory.as_str()),
            },
            None => Transition::Keep,
        }
    } else if skill.stale_due {
        Transition::MarkStale { name: text::copy(skill.name.as_str()) }
    } else {
        Transition::Keep
    }
}

/// How putting a skill away went.
pub struct ArchiveOutcome<S = String> {
    pub ok: bool,
    pub message: S,
}

impl View for ArchiveOutcome<String> {
    type V = ArchiveOutcome<Text>;

    open spec fn view(&self) -> ArchiveOutcome<Text> {
        ArchiveOutcome { ok: self.ok, message: self.message@ }
    }
}

/// What a list of outcomes holds.
pub open spec fn outcomes_view(v: Seq<ArchiveOutcome>) -> Seq<ArchiveOutcome<Text>> {
    Seq::new(v.len(), |i: int| v[i]@)
}

/// The line that tells what became of a skill. The outcome counts only for one
/// that was put away.
pub open spec fn transition_line(s: SkillFacts<Text>, outcome: ArchiveOutcome<Text>) -> Option<
    Text,
> {
    match transition_of(s) {
        Transition::Keep => None,
        Transition::Archive { .. } => if outcome.ok {
            Some(
                "Archived '"@ + s.name + "' (activity: "@ + text::decimal(s.activity as nat)
                    + "): "@ + outcome.message,
            )
        } else {
            Some("Failed to archive '"@ + s.name + "': "@ + outcome.message)
        },
        Transition::MarkStale { .. } => Some(
            "Marked '"@ + s.name + "' as stale (activity: "@ + text::decimal(s.activity as nat)
                + ")"@,
        ),
    }
}

fn tell_transition(skill: &SkillFacts, outcome: &ArchiveOutcome) -> (r: Option<String>)
    ensures
        text::opt_text(r) == transition_line(skill@, outcome@),
{
    let activity = text::number(skill.activity);
    match plan_transition(skill) {
        Transition::Keep => None,
        Transition::Archive { .. } => if outcome.ok {
            Some(
                text::cat6(
                    "Archived '",
                    skill.name.as_str(),
                    "' (activity: ",
                    activity.as_str(),
                    "): ",
                    outcome.message.as_str(),
                ),
            )
        } else {
            Some(
                text::cat4(
                    "Failed to archive '",
                    skill.name.as_str(),
                    "': ",
                    outcome.message.as_str(),
                ),
            )
        },
        Transition::MarkStale { .. } => Some(
            text::cat5(
                "Marked '",
                skill.name.as_str(),
                "' as stale (activity: ",
                activity.as_str(),
                ")",
            ),
        ),
    }
}

/// The lines that tell what became of the skills, in their order.
pub open spec fn transition_lines(
    skills: Seq<SkillFacts<Text>>,
    outcomes: Seq<ArchiveOutcome<Text>>,
) -> Seq<Text>
    decreases skills.len(),
{
    if skills.len() == 0 {
        Seq::empty()
    } else {
        let n = skills.len() - 1;
        let before = transition_lines(skills.drop_last(), outcomes);
        match transition_line(skills[n], outcomes[n]) {
            Some(line) => before.push(line),
            None => before,
        }
    }
}

/// What the upkeep reports.
pub open spec fn maintenance_report(
    skills: Seq<SkillFacts<Text>>,
    outcomes: Seq<ArchiveOutcome<Text>>,
) -> Text {
    let lines = transition_lines(skills, outcomes);
    if lines.len() == 0 {
        "No lifecycle transitions needed."@
    } else {
        text::joined(lines, "\n"@)
    }
}

/// Report what became of the skills. There is an outcome for each skill, which
/// counts where the skill was put away.
pub fn run_lifecycle_maintenance(
    skills: &Vec<SkillFacts>,
    outcomes: &Vec<ArchiveOutcome>,
) -> (r: String)
    requires
        skills@.len() == outcomes@.len(),
    ensures
        r@ == maintenance_report(skills_view(skills@), outcomes_view(outcomes@)),
{
    let ghost all = skills_view(skills@);
    let ghost done = outcomes_view(outcomes@);
    let mut actions: Vec<String> = Vec::new();
    let mut i: usize = 0;
    assert(text::texts(actions@) =~= transition_lines(all.take(0), done));
    while i < skills.len()
        invariant
            i <= skills@.len(),
            skills@.len() == outcomes@.len(),
            all == skills_view(skills@),
            done == outcomes_view(outcomes@),
            text::texts(actions@) == transition_lines(all.take(i as int), done),
        decreases skills@.len() - i,
    {
        assert(all.take(i + 1).drop_last() =~= all.take(i as int));
        assert(all.take(i + 1)[i as int] == skills@[i as int]@);
        if let Some(line) = tell_transition(&skills[i], &outcomes[i]) {
            text::push_text(&mut actions, line);
        }
        i = i + 1;
    }
    assert(all.take(i as int) =~= all);
    assert(text::texts(actions@).len() == actions@.len());
    if actions.len() == 0 {
        text::copy("No lifecycle transitions needed.")
    } else {
        text::join(&actions, "\n")
    }
}

/// Skills that the user did not make, and pinned ones, are left alone.
pub proof fn law_pinned_skills_stay(s: SkillFacts<Text>)
    ensures
        s.pinned || s.source != "user"@ ==> transition_of(s) == Transition::<Text>::Keep,
        transition_of(s) is MarkStale ==> !s.archive_due,
{
}

// ---------------------------------------------------------------------------
// The review of the library
// ---------------------------------------------------------------------------

/// Which skills the review may merge: the user's, made by the agent, not pinned.
pub open spec fn may_be_merged() -> spec_fn(SkillFacts<Text>) -> bool {
    |s: SkillFacts<Text>| s.source == "user"@ && s.created_by == Some("agent"@) && !s.pinned
}

/// The names of the skills that the review may merge.
pub open spec fn candidate_names(skills: Seq<SkillFacts<Text>>) -> Seq<Text> {
    let found = skills.filter(may_be_merged());
    Seq::new(found.len(), |i: int| found[i].name)
}

fn is_candidate(s: &SkillFacts) -> (r: bool)
    ensures
        r == may_be_merged()(s@),
{
    let by_agent = match &s.created_by {
        Some(who) => text::same(who.as_str(), "agent"),
        None => false,
    };
    text::same(s.source.as_str(), "user") && by_agent && !s.pinned
}

/// The names of the skills that the review may merge.
pub fn review_candidates(skills: &Vec<SkillFacts>) -> (r: Vec<String>)
    ensures
        text::texts(r@) == candidate_names(skills_view(skills@)),
{
    let ghost all = skills_view(skills@);
    let mut out: Vec<String> = Vec::new();
    let mut i: usize = 0;
    assert(all.take(0).filter(may_be_merged()) =~= Seq::<SkillFacts<Text>>::empty()) by {
        assert(all.take(0) =~= Seq::<SkillFacts<Text>>::empty());
        reveal(Seq::filter);
    }
    assert(text::texts(out@) =~= candidate_names(all.take(0)));
    while i < skills.len()
        invariant
            i <= skills@.len(),
            all == skills_view(skills@),
            text::texts(out@) == candidate_names(all.take(i as int)),
        decreases skills@.len() - i,
    {
        proof {
            assert(all.take(i + 1) =~= all.take(i as int).push(all[i as int]));
            all.take(i as int).lemma_filter_push(all[i as int], may_be_merged());
        }
        if is_candidate(&skills[i]) {
            text::push_text(&mut out, text::copy(skills[i].name.as_str()));
            assert(text::texts(out@) =~= candidate_names(all.take(i + 1)));
        }
        i = i + 1;
    }
    assert(all.take(i as int) =~= all);
    out
}

/// What the review is told, before the skills.
pub const CURATOR_PROMPT: &'static str = "You are running as the background skill CURATOR. This is a consolidation pass.\n\nThe goal is a LIBRARY OF CLASS-LEVEL INSTRUCTIONS. A collection of hundreds of narrow skills where each one captures one session's specific bug is a FAILURE of the library.\n\nHard rules:\n1. DO NOT touch bundled or hub-installed skills.\n2. DO NOT delete any skill. Use skill_manage(action=\"delete\") with absorbed_into=\"<umbrella>\" to archive merged skills.\n3. DO NOT touch skills shown as pinned=yes.\n4. DO NOT reject consolidation because \"each skill has a distinct trigger\". If a human would write one skill with N labeled subsections, merge.\n\nHow to work:\n1. Scan the candidate list. Identify PREFIX CLUSTERS (skills sharing a first word or domain keyword).\n2. For each cluster with 2+ members, ask \"what is the UMBRELLA CLASS these skills all serve?\"\n3. Three ways to consolidate:\n   a. MERGE INTO EXISTING UMBRELLA — patch the umbrella to add sections, then archive siblings.\n   b. CREATE A NEW UMBRELLA — skill_manage(action=\"create\") with a class-level name, archive siblings.\n   c. DEMOTE TO REFERENCES — move narrow content into the umbrella's references/ directory, archive the sibling.\n4. Use skill_manage(action=\"delete\") with absorbed_into=\"<umbrella_name>\" when merging content into another skill.\n\nCandidate skills (agent-created, not pinned):\n";

/// What the review is told, after the skills.
pub const CURATOR_PROMPT_END: &'static str = "\n\nWhen done, write a summary of what was consolidated.";

/// The review of a library; none where it has nothing that may be merged.
pub open spec fn curator_task(skills: Seq<SkillFacts<Text>>) -> Option<BackgroundTaskView> {
    let names = candidate_names(skills);
    if names.len() == 0 {
        None
    } else {
        Some(
            BackgroundTaskView {
                goal: CURATOR_PROMPT@ + text::joined(names, "\n"@) + CURATOR_PROMPT_END@,
                tools: review::review_tools_view(),
            },
        )
    }
}

/// Plan the review of the library. It gets no tool that runs commands.
pub fn spawn_curator_review(skills: &Vec<SkillFacts>) -> (r: Option<BackgroundTask>)
    ensures
        (match r {
            Some(task) => Some(task@),
            None => None,
        }) == curator_task(skills_view(skills@)),
{
    let names = review_candidates(skills);
    assert(text::texts(names@).len() == names@.len());
    if names.len() == 0 {
        return None;
    }
    let list = text::join(&names, "\n");
    Some(
        BackgroundTask {
            goal: text::cat3(CURATOR_PROMPT, list.as_str(), CURATOR_PROMPT_END),
            tools: review::review_tools(),
        },
    )
}

/// A background review never runs commands.
pub proof fn law_no_commands_in_the_background()
    ensures
        !review::review_tools_view().contains("bash"@),
{
    reveal_strlit("bash");
    reveal_strlit("skill_view");
    reveal_strlit("skill_list");
    reveal_strlit("skill_manage");
    reveal_strlit("read");
    reveal_strlit("grep");
    reveal_strlit("glob");
    let tools = review::review_tools_view();
    assert(tools[0].len() == 10);
    assert(tools[1].len() == 10);
    assert(tools[2].len() == 12);
    assert(tools[3][0] == 'r');
    assert(tools[4][0] == 'g');
    assert(tools[5][0] == 'g');
    assert("bash"@.len() == 4 && "bash"@[0] == 'b');
    if tools.contains("bash"@) {
        let i = choose|i: int| 0 <= i < tools.len() && tools[i] == "bash"@;
        assert(i == 0 || i == 1 || i == 2 || i == 3 || i == 4 || i == 5);
    }
}

// ---------------------------------------------------------------------------
// A pass
// ---------------------------------------------------------------------------

/// What is remembered after a pass.
pub open spec fn after_pass(state: CuratorState<Text>, now: Text, summary: Text) -> CuratorState<
    Text,
> {
    CuratorState {
        last_run_at: Some(now),
        last_run_summary: Some(summary),
        paused: state.paused,
        run_count: (state.run_count + 1) as u64,
    }
}

/// What a pass comes to: what it reports, and the review that it starts.
pub struct CuratorPass {
    pub summary: String,
    pub review: Option<BackgroundTask>,
}

/// Finish a pass over the skills: report it, remember it, and start the review
/// where one can be run.
pub fn run_curator_pass(
    state: &mut CuratorState,
    skills: &Vec<SkillFacts>,
    outcomes: &Vec<ArchiveOutcome>,
    can_review: bool,
    now: &str,
) -> (r: CuratorPass)
    requires
        skills@.len() == outcomes@.len(),
        old(state).run_count < u64::MAX,
    ensures
        r.summary@ == maintenance_report(skills_view(skills@), outcomes_view(outcomes@)),
        (match r.review {
            Some(task) => Some(task@),
            None => None,
        }) == if can_review {
            curator_task(skills_view(skills@))
        } else {
            None
        },
        final(state)@ == after_pass(old(state)@, now@, r.summary@),
{
    let summary = run_lifecycle_maintenance(skills, outcomes);
    let review = if can_review {
        spawn_curator_review(skills)
    } else {
        None
    };
    state.last_run_at = Some(text::copy(now));
    state.last_run_summary = Some(text::copy(summary.as_str()));
    state.run_count = state.run_count + 1;
    CuratorPass { summary, review }
}

/// After a pass, none is due until an interval has gone by; pausing stops all.
pub proof fn law_passes_keep_their_distance(
    config: SkillsConfig,
    state: CuratorState<Text>,
    lock: BackgroundLock,
    now: Text,
    summary: Text,
    elapsed: i64,
)
    ensures
        elapsed < config.curator_interval_hours * 3600 ==> !pass_due(
            config,
            after_pass(state, now, summary),
            lock,
            Some(elapsed),
        ),
        config.curator_enabled && !state.paused && !lock.held && elapsed
            >= config.curator_interval_hours * 3600 ==> pass_due(
            config,
            after_pass(state, now, summary),
            lock,
            Some(elapsed),
        ),
        state.paused ==> !pass_due(config, after_pass(state, now, summary), lock, Some(elapsed)),
{
}

/// A skill of the user that is not pinned is put away when it is due, marked as stale when
/// that is due alone, and otherwise left.
pub proof fn law_due_skills_are_tended(s: SkillFacts<Text>, directory: Text)
    requires
        s.source == "user"@,
        !s.pinned,
        s.directory == Some(directory),
    ensures
        s.archive_due ==> transition_of(s) == (Transition::Archive { name: s.name, directory }),
        !s.archive_due && s.stale_due ==> transition_of(s) == (Transition::MarkStale {
            name: s.name,
        }),
        !s.archive_due && !s.stale_due ==> transition_of(s) == Transition::<Text>::Keep,
{
}

/// The report names every skill that was put away, failed to be, or was marked, and says
/// how putting it away went.
pub proof fn law_report_names_every_change(
    skills: Seq<SkillFacts<Text>>,
    outcomes: Seq<ArchiveOutcome<Text>>,
    i: int,
)
    requires
        0 <= i < skills.len(),
        !(transition_of(skills[i]) is Keep),
    ensures
        text::has_substring(maintenance_report(skills, outcomes), skills[i].name),
        transition_of(skills[i]) is Archive ==> text::has_substring(
            maintenance_report(skills, outcomes),
            outcomes[i].message,
        ),
{
    let line = transition_line(skills[i], outcomes[i])->Some_0;
    lemma_change_is_told(skills, outcomes, i);
    let lines = transition_lines(skills, outcomes);
    let k = choose|k: int| 0 <= k < lines.len() && lines[k] == line;
    text::lemma_joined_has(lines, "\n"@, k);
    let report = maintenance_report(skills, outcomes);
    let s = skills[i];
    let o = outcomes[i];
    let activity = text::decimal(s.activity as nat);
    if transition_of(s) is Archive {
        if o.ok {
            let tail = "' (activity: "@ + activity + "): "@ + o.message;
            text::lemma_stands_between("Archived '"@, s.name, tail);
            assert(line =~= "Archived '"@ + s.name + tail);
            text::lemma_both_stand(
                "Archived '"@ + s.name + "' (activity: "@ + activity + "): "@,
                o.message,
            );
        } else {
            let tail = "': "@ + o.message;
            text::lemma_stands_between("Failed to archive '"@, s.name, tail);
            assert(line =~= "Failed to archive '"@ + s.name + tail);
            text::lemma_both_stand("Failed to archive '"@ + s.name + "': "@, o.message);
        }
        text::lemma_stands_within(report, line, o.message);
    } else {
        let tail = "' as stale (activity: "@ + activity + ")"@;
        text::lemma_stands_between("Marked '"@, s.name, tail);
        assert(line =~= "Marked '"@ + s.name + tail);
    }
    text::lemma_stands_within(report, line, s.name);
}

proof fn lemma_change_is_told(
    skills: Seq<SkillFacts<Text>>,
    outcomes: Seq<ArchiveOutcome<Text>>,
    i: int,
)
    requires
        0 <= i < skills.len(),
        transition_line(skills[i], outcomes[i]) is Some,
    ensures
        transition_lines(skills, outcomes).contains(
            transition_line(skills[i], outcomes[i])->Some_0,
        ),
    decreases skills.len(),
{
    let lines = transition_lines(skills, outcomes);
    let before = transition_lines(skills.drop_last(), outcomes);
    let line = transition_line(skills[i], outcomes[i])->Some_0;
    if i == skills.len() - 1 {
        assert(lines[lines.len() - 1] == line);
    } else {
        lemma_change_is_told(skills.drop_last(), outcomes, i);
        let k = choose|k: int| 0 <= k < before.len() && before[k] == line;
        assert(lines[k] == line);
    }
}

/// The review of the library is told the name of every skill that it may merge: the
/// user's own that the agent made and that are not pinned.
pub proof fn law_review_names_its_candidates(skills: Seq<SkillFacts<Text>>, i: int)
    requires
        0 <= i < skills.len(),
        skills[i].source == "user"@,
        skills[i].created_by == Some("agent"@),
        !skills[i].pinned,
    ensures
        curator_task(skills) matches Some(task) && text::has_substring(
            task.goal,
            skills[i].name,
        ),
{
    let pred = may_be_merged();
    skills.lemma_filter_contains(pred, i);
    let found = skills.filter(pred);
    let k = choose|k: int| 0 <= k < found.len() && found[k] == skills[i];
    let names = candidate_names(skills);
    assert(names[k] == skills[i].name);
    text::lemma_joined_has(names, "\n"@, k);
    let list = text::joined(names, "\n"@);
    text::lemma_stands_between(CURATOR_PROMPT@, list, CURATOR_PROMPT_END@);
    text::lemma_stands_within(
        CURATOR_PROMPT@ + list + CURATOR_PROMPT_END@,
        list,
        skills[i].name,
    );
}

/// A pass is remembered: when it was, what it reported, and that there was one more.
pub proof fn law_passes_are_remembered(state: CuratorState<Text>, now: Text, summary: Text)
    requires
        state.run_count < u64::MAX,
    ensures
        after_pass(state, now, summary).last_run_at == Some(now),
        after_pass(state, now, summary).last_run_summary == Some(summary),
        after_pass(state, now, summary).run_count == state.run_count + 1,
        after_pass(state, now, summary).paused == state.paused,
{
}

} // verus!
