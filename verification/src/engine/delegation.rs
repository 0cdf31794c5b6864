//! Handing tasks to sub-agents, one or several at a time.

use crate::engine::sub_agent;
use crate::engine::sub_agent_run;
use crate::engine::sub_agent_run::ResultView;
use crate::engine::sub_agent_run::SubAgentEvent;
use crate::engine::sub_agent_run::SubAgentLimits;
use crate::engine::sub_agent_run::SubAgentResult;
use crate::engine::sub_agent_run::SubAgentRun;
use crate::engine::sub_agent_run::SubEventView;
use crate::engine::sub_agent_run::SubView;
use crate::text;
use crate::text::Text;
use vstd::prelude::*;
use vstd::string::*;

verus! {

/// The shortest time, in milliseconds, after which a single task is given up.
pub const MIN_CHILD_TIMEOUT_MS: u64 = 30_000;

/// What tasks are handed over with.
pub struct DelegationConfig {
    /// Tools in place of the built-in ones.
    pub default_tools: Vec<String>,
    pub blocked_tools: Vec<String>,
    /// The milliseconds after which a task is given up.
    pub child_timeout_ms: u64,
    pub limits: SubAgentLimits,
}

/// The tools that a task gets.
pub open spec fn task_tools(config: DelegationConfig, extra_tools: Seq<Text>) -> Seq<Text> {
    sub_agent::effective_tools(
        extra_tools,
        text::texts(config.default_tools@),
        text::texts(config.blocked_tools@),
    )
}

/// The milliseconds after which a single task is given up.
pub fn task_timeout(config: &DelegationConfig) -> (r: u64)
    ensures
        r == if config.child_timeout_ms < MIN_CHILD_TIMEOUT_MS {
            MIN_CHILD_TIMEOUT_MS
        } else {
            config.child_timeout_ms
        },
{
    if config.child_timeout_ms < MIN_CHILD_TIMEOUT_MS {
        MIN_CHILD_TIMEOUT_MS
    } else {
        config.child_timeout_ms
    }
}

/// Hand over a single task. `timeout_label` is the time after which it is given
/// up, for display.
pub fn run_delegated_task(
    config: &DelegationConfig,
    goal: &str,
    extra_tools: &Vec<String>,
    timeout_label: &str,
) -> (r: SubAgentRun)
    ensures
        r@ == sub_agent_run::fresh_sub_agent(
            0,
            goal@,
            task_tools(*config, text::texts(extra_tools@)),
            config.limits,
            timeout_label@,
        ),
        sub_agent_run::sub_wf(r@),
{
    let tools = sub_agent::build_effective_tools(
        extra_tools,
        &config.default_tools,
        &config.blocked_tools,
    );
    SubAgentRun::new(0, goal, &tools, config.limits, timeout_label)
}

/// How many tasks of a batch run at once: at least one.
pub fn batch_width(max_concurrent: usize) -> (r: usize)
    ensures
        r == if max_concurrent < 1 {
            1
        } else {
            max_concurrent
        },
{
    if max_concurrent < 1 {
        1
    } else {
        max_concurrent
    }
}

/// What a list of sub-agents holds.
pub open spec fn runs_view(v: Seq<SubAgentRun>) -> Seq<SubView> {
    Seq::new(v.len(), |i: int| v[i]@)
}

/// Hand over a batch of tasks: a sub-agent for each, in their order, all with
/// the same tools.
pub fn run_delegated_tasks_batch(
    config: &DelegationConfig,
    goals: &Vec<String>,
    extra_tools: &Vec<String>,
    timeout_label: &str,
) -> (r: Vec<SubAgentRun>)
    ensures
        runs_view(r@) == Seq::new(
            goals@.len(),
            |i: int|
                sub_agent_run::fresh_sub_agent(
                    i as usize,
                    goals@[i]@,
                    task_tools(*config, text::texts(extra_tools@)),
                    config.limits,
                    timeout_label@,
                ),
        ),
        forall|i: int| 0 <= i < r@.len() ==> sub_agent_run::sub_wf((#[trigger] r@[i])@),
{
    let tools = sub_agent::build_effective_tools(
        extra_tools,
        &config.default_tools,
        &config.blocked_tools,
    );
    let mut out: Vec<SubAgentRun> = Vec::new();
    let mut i: usize = 0;
    while i < goals.len()
        invariant
            i <= goals@.len(),
            out@.len() == i,
            text::texts(tools@) == task_tools(*config, text::texts(extra_tools@)),
            forall|k: int|
                0 <= k < i ==> (#[trigger] out@[k])@ == sub_agent_run::fresh_sub_agent(
                    k as usize,
                    goals@[k]@,
                    task_tools(*config, text::texts(extra_tools@)),
                    config.limits,
                    timeout_label@,
                ) && sub_agent_run::sub_wf(out@[k]@),
        decreases goals@.len() - i,
    {
        out.push(SubAgentRun::new(i, goals[i].as_str(), &tools, config.limits, timeout_label));
        i = i + 1;
    }
    assert(runs_view(out@) =~= Seq::new(
        goals@.len(),
        |i: int|
            sub_agent_run::fresh_sub_agent(
                i as usize,
                goals@[i]@,
                task_tools(*config, text::texts(extra_tools@)),
                config.limits,
                timeout_label@,
            ),
    ));
    out
}

/// What is told when a task of a batch starts.
pub fn batch_started(run: &SubAgentRun, goal: &str) -> (r: SubAgentEvent)
    ensures
        r@ == (SubEventView::Started {
            task_index: run@.task_index,
            goal: goal@,
            tools: run@.allowed_tools,
        }),
{
    SubAgentEvent::Started {
        task_index: run.task_index,
        goal: text::copy(goal),
        tools: text::copy_all(&run.allowed_tools),
    }
}

/// What is told when a task of a batch is over.
pub fn batch_completed(task_index: usize, result: &SubAgentResult) -> (r: SubAgentEvent)
    ensures
        r@ == (SubEventView::Completed { task_index, result: result@ }),
{
    SubAgentEvent::Completed { task_index, result: result.copy() }
}

/// How a task of a batch ended.
pub enum TaskOutcome {
    Finished(SubAgentResult),
    /// It did not end in time after the batch was cancelled.
    Interrupted,
    /// It broke down.
    Broken(String),
}

/// The result of a task of a batch.
pub open spec fn outcome_result(o: TaskOutcome) -> ResultView {
    match o {
        TaskOutcome::Finished(result) => result@,
        TaskOutcome::Interrupted => sub_agent_run::unfinished(None),
        TaskOutcome::Broken(e) => sub_agent_run::unfinished(
            Some("Sub-agent task panicked: "@ + e@),
        ),
    }
}

/// What a list of results holds.
pub open spec fn results_view(v: Seq<SubAgentResult>) -> Seq<ResultView> {
    Seq::new(v.len(), |i: int| v[i]@)
}

/// The results of a batch, in the order of its tasks: one for each, however it
/// ended.
pub fn collect_results(outcomes: Vec<TaskOutcome>) -> (r: Vec<SubAgentResult>)
    ensures
        results_view(r@) == Seq::new(outcomes@.len(), |i: int| outcome_result(outcomes@[i])),
{
    let ghost all = outcomes@;
    let mut rest = outcomes;
    let mut out: Vec<SubAgentResult> = Vec::new();
    let n: usize = rest.len();
    let mut i: usize = 0;
    while i < n
        invariant
            i <= n,
            n == all.len(),
            rest@ == all.skip(i as int),
            out@.len() == i,
            forall|k: int| 0 <= k < i ==> (#[trigger] out@[k])@ == outcome_result(all[k]),
        decreases n - i,
    {
        let outcome = rest.remove(0);
        assert(outcome == all[i as int]);
        assert(rest@ =~= all.skip(i + 1));
        let result = match outcome {
            TaskOutcome::Finished(result) => result,
            TaskOutcome::Interrupted => sub_agent_run::unfinished_result(None),
            TaskOutcome::Broken(e) => sub_agent_run::unfinished_result(
                Some(text::cat2("Sub-agent task panicked: ", e.as_str())),
            ),
        };
        out.push(result);
        i = i + 1;
    }
    assert(results_view(out@) =~= Seq::new(all.len(), |i: int| outcome_result(all[i])));
    out
}

/// What a task came to is handed on as it is; one that broke down is reported as an error
/// that says why, and one that was stopped as interrupted.
pub proof fn law_outcomes_are_handed_on(result: SubAgentResult, why: String)
    ensures
        outcome_result(TaskOutcome::Finished(result)) == result@,
        outcome_result(TaskOutcome::Interrupted).interrupted,
        outcome_result(TaskOutcome::Interrupted).error is None,
        !outcome_result(TaskOutcome::Broken(why)).interrupted,
        outcome_result(TaskOutcome::Broken(why)).error matches Some(e) && text::has_suffix(
            e,
            why@,
        ),
{
    let e = "Sub-agent task panicked: "@ + why@;
    assert(e.subrange(e.len() - why@.len(), e.len() as int) =~= why@);
}

/// A task has the tools that it asks for and those it always has, and never one that is
/// blocked.
pub proof fn law_tasks_have_their_tools(config: DelegationConfig, extra: Seq<Text>, tool: Text)
    ensures
        text::texts(config.blocked_tools@).contains(tool) ==> !task_tools(config, extra).contains(
            tool,
        ),
        (extra.contains(tool) || text::texts(config.default_tools@).contains(tool)) && tool
            != "delegate_task"@ && tool != "ask_user"@ && tool != "memory"@ && tool
            != "skill_manage"@ && !text::texts(config.blocked_tools@).contains(tool)
            ==> task_tools(config, extra).contains(tool),
{
    sub_agent::law_sub_agent_has_its_tools(
        extra,
        text::texts(config.default_tools@),
        text::texts(config.blocked_tools@),
        tool,
    );
}

} // verus!
