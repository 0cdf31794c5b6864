//! Events of sub-agents, as commands to the user interface.

use crate::engine::sub_agent_run::SubAgentEvent;
use crate::engine::sub_agent_run::SubEventView;
use crate::gateway::hub::Gateway;
use crate::gateway::ui;
use crate::gateway::ui::UiCommand;
use crate::gateway::ui::UiView;
use crate::text;
use crate::text::Text;
use vstd::prelude::*;
use vstd::string::*;

verus! {

/// What the user interface is told of an event. `short` is the goal or the
/// thought that it holds, as shortened for display.
pub open spec fn mapped(event: SubEventView, short: Text) -> Seq<UiView> {
    match event {
        SubEventView::Started { task_index, .. } => seq![
            UiCommand::SubAgentStarted {
                summary: "sub-agent #"@ + text::decimal(task_index as nat) + ": "@ + short,
            },
        ],
        SubEventView::Thinking { task_index, .. } => if text::is_blank(short) {
            Seq::empty()
        } else {
            seq![UiCommand::SubAgentProgress { task_index, line: short }]
        },
        SubEventView::ToolStarted { task_index, tool, input_summary } => seq![
            UiCommand::SubAgentProgress {
                task_index,
                line: if input_summary.len() == 0 {
                    tool
                } else {
                    tool + " ("@ + input_summary + ")"@
                },
            },
        ],
        SubEventView::ToolCompleted { task_index, tool, is_error, .. } => if is_error {
            seq![UiCommand::SubAgentProgress { task_index, line: tool + " failed"@ }]
        } else {
            Seq::empty()
        },
        SubEventView::Status { task_index, message } => seq![
            UiCommand::SubAgentProgress { task_index, line: message },
        ],
        SubEventView::Completed { task_index, result } => seq![
            UiCommand::SubAgentProgress {
                task_index,
                line: (if result.interrupted {
                    "interrupted"@
                } else if result.error is Some {
                    "failed"@
                } else {
                    "completed"@
                }) + " ("@ + text::decimal(result.api_calls as nat) + " calls, "@
                    + result.duration_seconds + "s)"@,
            },
        ],
    }
}

fn no_commands() -> (r: Vec<UiCommand>)
    ensures
        ui::commands_view(r@) == Seq::<UiView>::empty(),
{
    let r: Vec<UiCommand> = Vec::new();
    assert(ui::commands_view(r@) =~= Seq::<UiView>::empty());
    r
}

impl Gateway {
    /// Map an event of a sub-agent to what the user interface is told of it.
    /// `short` is the goal or the thought that it holds, as shortened for
    /// display.
    pub fn handle_sub_agent_event(&self, event: SubAgentEvent, short: &str) -> (r: Vec<UiCommand>)
        ensures
            ui::commands_view(r@) == mapped(event@, short@),
    {
        match event {
            SubAgentEvent::Started { task_index, goal: _, tools: _ } => {
                let n = text::count(task_index);
                let summary = text::cat4("sub-agent #", n.as_str(), ": ", short);
                ui::one_command(UiCommand::SubAgentStarted { summary })
            },
            SubAgentEvent::Thinking { task_index, text: _ } => if text::blank(short) {
                no_commands()
            } else {
                ui::one_command(
                    UiCommand::SubAgentProgress { task_index, line: text::copy(short) },
                )
            },
            SubAgentEvent::ToolStarted { task_index, tool, input_summary } => {
                let line = if input_summary.as_str().is_empty() {
                    tool
                } else {
                    text::cat4(tool.as_str(), " (", input_summary.as_str(), ")")
                };
                ui::one_command(UiCommand::SubAgentProgress { task_index, line })
            },
            SubAgentEvent::ToolCompleted {
                task_index,
                tool,
                result_bytes: _,
                is_error,
            } => if is_error {
                let line = text::cat2(tool.as_str(), " failed");
                ui::one_command(UiCommand::SubAgentProgress { task_index, line })
            } else {
                no_commands()
            },
            SubAgentEvent::Status { task_index, message } => ui::one_command(
                UiCommand::SubAgentProgress { task_index, line: message },
            ),
            SubAgentEvent::Completed { task_index, result } => {
                let status = if result.interrupted {
                    "interrupted"
                } else if result.error.is_some() {
                    "failed"
                } else {
                    "completed"
                };
                let calls = text::number(result.api_calls as u64);
                let line = text::cat6(
                    status,
                    " (",
                    calls.as_str(),
                    " calls, ",
                    result.duration_seconds.as_str(),
                    "s)",
                );
                ui::one_command(UiCommand::SubAgentProgress { task_index, line })
            },
        }
    }
}

/// What a sub-agent thinks and how it stands is shown under its own number, as it is.
pub proof fn law_sub_agents_are_followed(
    task_index: usize,
    message: Text,
    thought: Text,
    short: Text,
)
    ensures
        !text::is_blank(short) ==> mapped(
            SubEventView::Thinking { task_index, text: thought },
            short,
        ) == seq![UiCommand::SubAgentProgress { task_index, line: short }],
        mapped(SubEventView::Status { task_index, message }, short) == seq![
            UiCommand::SubAgentProgress { task_index, line: message },
        ],
{
}

/// Which tool a sub-agent runs, and with what, is shown under its own number; and so is
/// that it failed.
pub proof fn law_tools_of_sub_agents_are_shown(
    task_index: usize,
    tool: Text,
    detail: Text,
    short: Text,
)
    ensures
        ({
            let started = mapped(
                SubEventView::ToolStarted { task_index, tool, input_summary: detail },
                short,
            );
            &&& started.len() == 1
            &&& started[0] matches UiCommand::SubAgentProgress { task_index: i, line } && i
                == task_index && text::has_substring(line, tool) && text::has_substring(
                line,
                detail,
            )
        }),
{
    if detail.len() > 0 {
        lemma_tool_line(tool, detail);
    } else {
        text::lemma_both_stand(tool, detail);
        assert(tool + detail =~= tool);
    }
}

proof fn lemma_tool_line(tool: Text, detail: Text)
    ensures
        text::has_substring(tool + " ("@ + detail + ")"@, tool),
        text::has_substring(tool + " ("@ + detail + ")"@, detail),
{
    let line = tool + " ("@ + detail + ")"@;
    text::lemma_stands_between(tool + " ("@, detail, ")"@);
    text::lemma_both_stand(tool, " ("@);
    text::lemma_both_stand(tool + " ("@, detail);
    text::lemma_both_stand(tool + " ("@ + detail, ")"@);
    text::lemma_stands_within(tool + " ("@ + detail, tool + " ("@, tool);
    text::lemma_stands_within(line, tool + " ("@ + detail, tool);
}

/// That a tool of a sub-agent failed is shown under its number.
pub proof fn law_failures_of_sub_agents_are_shown(
    task_index: usize,
    tool: Text,
    result_bytes: usize,
    short: Text,
)
    ensures
        ({
            let failed = mapped(
                SubEventView::ToolCompleted { task_index, tool, result_bytes, is_error: true },
                short,
            );
            &&& failed.len() == 1
            &&& failed[0] matches UiCommand::SubAgentProgress { task_index: i, line } && i
                == task_index && text::has_prefix(line, tool)
        }),
{
    text::lemma_both_stand(tool, " failed"@);
}

} // verus!
