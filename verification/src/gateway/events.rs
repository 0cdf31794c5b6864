//! Events of the engine, as commands to the user interface.

use crate::engine::tui_events::EngineEvent;
use crate::engine::tui_events::EventView;
use crate::gateway::hub::Gateway;
use crate::gateway::ui;
use crate::gateway::ui::AppMode;
use crate::gateway::ui::UiCommand;
use crate::gateway::ui::UiView;
use crate::text;
use crate::text::Text;
use vstd::prelude::*;
use vstd::string::*;

verus! {

/// What the user interface is told of an event.
pub open spec fn mapped(event: EventView) -> Seq<UiView> {
    match event {
        EngineEvent::TextDelta(s) => seq![UiCommand::AppendText(s)],
        EngineEvent::ReasoningDelta(s) => seq![UiCommand::AppendReasoning(s)],
        EngineEvent::ClearOutput => seq![UiCommand::ClearOutput],
        EngineEvent::ToolStart { name, input_summary } => seq![
            UiCommand::ToolStart { name, input_summary },
        ],
        EngineEvent::ToolOutput { name, output } => seq![UiCommand::ToolComplete { name, output }],
        EngineEvent::ToolDiff { name, diff } => seq![UiCommand::ToolDiff { name, diff }],
        EngineEvent::ToolError { name, error } => seq![UiCommand::ToolError { name, error }],
        EngineEvent::QueryDone { text, tool_calls: _, tokens } => (if text.len() > 0 {
            seq![UiCommand::AppendText(text)]
        } else {
            Seq::empty()
        }) + seq![
            UiCommand::SetMode(AppMode::Idle),
            UiCommand::UpdateTokens(tokens),
            UiCommand::ClearSteerQueue,
        ],
        EngineEvent::Interrupted => seq![
            UiCommand::ShowStatus("⏸  Interrupted — press Ctrl+C again to quit."@),
            UiCommand::SetMode(AppMode::Idle),
            UiCommand::ClearSteerQueue,
        ],
        EngineEvent::Error(err) => seq![
            UiCommand::ShowError(err),
            UiCommand::SetMode(AppMode::Idle),
        ],
        EngineEvent::Status(msg) => seq![UiCommand::ShowStatus(msg)],
        EngineEvent::TokenUpdate { total_tokens, turn_count } => seq![
            UiCommand::UpdateTokens(total_tokens),
            UiCommand::UpdateTurnCount(turn_count),
        ],
        EngineEvent::CompactProgress { method, tokens_before, tokens_after } => seq![
            UiCommand::ShowStatus(
                "󰏖 compact: "@ + method + " ("@ + text::decimal(tokens_before as nat) + " → "@
                    + text::decimal(tokens_after as nat) + " tokens)"@,
            ),
        ],
        EngineEvent::AskUser { question, reply_to } => seq![
            UiCommand::ShowAskUser { question, reply_to },
        ],
        EngineEvent::PermissionAsk { tool_name, reason, input, reply_to } => seq![
            UiCommand::ShowPermission { tool_name, reason, detail: input, reply_to },
        ],
        EngineEvent::ImagePasted { media_type, base64_data, size_kb } => seq![
            UiCommand::PasteImage { media_type, base64_data, size_kb },
        ],
        EngineEvent::ImagePasteFailed => seq![
            UiCommand::ShowError("No image in clipboard, or clipboard tool not available."@),
        ],
        EngineEvent::PermissionAllowAllSet => Seq::empty(),
        EngineEvent::SteerHandled => seq![UiCommand::ClearSteerQueue],
    }
}

impl Gateway {
    /// Map an event to what the user interface is told of it.
    pub fn event_map(&self, event: EngineEvent) -> (r: Vec<UiCommand>)
        ensures
            ui::commands_view(r@) == mapped(event@),
    {
        match event {
            EngineEvent::TextDelta(s) => ui::one_command(UiCommand::AppendText(s)),
            EngineEvent::ReasoningDelta(s) => ui::one_command(UiCommand::AppendReasoning(s)),
            EngineEvent::ClearOutput => ui::one_command(UiCommand::ClearOutput),
            EngineEvent::ToolStart { name, input_summary } => ui::one_command(
                UiCommand::ToolStart { name, input_summary },
            ),
            EngineEvent::ToolOutput { name, output } => ui::one_command(
                UiCommand::ToolComplete { name, output },
            ),
            EngineEvent::ToolDiff { name, diff } => ui::one_command(
                UiCommand::ToolDiff { name, diff },
            ),
            EngineEvent::ToolError { name, error } => ui::one_command(
                UiCommand::ToolError { name, error },
            ),
            EngineEvent::QueryDone { text, tool_calls: _, tokens } => {
                let ghost told = text@;
                let mut cmds: Vec<UiCommand> = Vec::new();
                if !text.as_str().is_empty() {
                    ui::push_command(&mut cmds, UiCommand::AppendText(text));
                }
                ui::push_command(&mut cmds, UiCommand::SetMode(AppMode::Idle));
                ui::push_command(&mut cmds, UiCommand::UpdateTokens(tokens));
                ui::push_command(&mut cmds, UiCommand::ClearSteerQueue);
                assert(ui::commands_view(cmds@) =~= (if told.len() > 0 {
                    seq![UiCommand::AppendText(told)]
                } else {
                    Seq::<UiView>::empty()
                }) + seq![
                    UiCommand::SetMode(AppMode::Idle),
                    UiCommand::UpdateTokens(tokens),
                    UiCommand::ClearSteerQueue,
                ]);
                cmds
            },
            EngineEvent::Interrupted => {
                let mut cmds = ui::two_commands(
                    UiCommand::ShowStatus(
                        text::copy("⏸  Interrupted — press Ctrl+C again to quit."),
                    ),
                    UiCommand::SetMode(AppMode::Idle),
                );
                ui::push_command(&mut cmds, UiCommand::ClearSteerQueue);
                assert(ui::commands_view(cmds@) =~= seq![
                    UiCommand::ShowStatus("⏸  Interrupted — press Ctrl+C again to quit."@),
                    UiCommand::SetMode(AppMode::Idle),
                    UiCommand::ClearSteerQueue,
                ]);
                cmds
            },
            EngineEvent::Error(err) => ui::two_commands(
                UiCommand::ShowError(err),
                UiCommand::SetMode(AppMode::Idle),
            ),
            EngineEvent::Status(msg) => ui::one_command(UiCommand::ShowStatus(msg)),
            EngineEvent::TokenUpdate { total_tokens, turn_count } => ui::two_commands(
                UiCommand::UpdateTokens(total_tokens),
                UiCommand::UpdateTurnCount(turn_count),
            ),
            EngineEvent::CompactProgress { method, tokens_before, tokens_after } => {
                let before = text::number(tokens_before);
                let after = text::number(tokens_after);
                let line = text::cat7(
                    "󰏖 compact: ",
                    method.as_str(),
                    " (",
                    before.as_str(),
                    " → ",
                    after.as_str(),
                    " tokens)",
                );
                ui::one_command(UiCommand::ShowStatus(line))
            },
            EngineEvent::AskUser { question, reply_to } => ui::one_command(
                UiCommand::ShowAskUser { question, reply_to },
            ),
            EngineEvent::PermissionAsk { tool_name, reason, input, reply_to } => ui::one_command(
                UiCommand::ShowPermission { tool_name, reason, detail: input, reply_to },
            ),
            EngineEvent::ImagePasted { media_type, base64_data, size_kb } => ui::one_command(
                UiCommand::PasteImage { media_type, base64_data, size_kb },
            ),
            EngineEvent::ImagePasteFailed => ui::one_command(
                UiCommand::ShowError(
                    text::copy("No image in clipboard, or clipboard tool not available."),
                ),
            ),
            EngineEvent::PermissionAllowAllSet => {
                let none: Vec<UiCommand> = Vec::new();
                assert(ui::commands_view(none@) =~= Seq::<UiView>::empty());
                none
            },
            EngineEvent::SteerHandled => ui::one_command(UiCommand::ClearSteerQueue),
        }
    }
}

/// A query that ends, by itself, by an interruption or by an error, leaves the
/// terminal idle.
pub proof fn law_ended_query_leaves_terminal_idle(event: EventView)
    requires
        event is QueryDone || event is Interrupted || event is Error,
    ensures
        mapped(event).contains(UiCommand::SetMode(AppMode::Idle)),
{
    let cmds = mapped(event);
    let idle = UiCommand::<text::Text>::SetMode(AppMode::Idle);
    match event {
        EngineEvent::QueryDone { text, .. } => {
            if text.len() > 0 {
                assert(cmds[1] == idle);
            } else {
                assert(cmds[0] == idle);
            }
        },
        _ => {
            assert(cmds[1] == idle);
        },
    }
}

/// What the model says, what tools do, and what goes wrong is shown to the user as it is,
/// and at once: nothing of it is cut, changed or shown under another name.
pub proof fn law_the_user_sees_what_happens(name: Text, s: Text)
    ensures
        mapped(EngineEvent::TextDelta(s)) == seq![UiCommand::AppendText(s)],
        mapped(EngineEvent::ReasoningDelta(s)) == seq![UiCommand::AppendReasoning(s)],
        mapped(EngineEvent::ToolStart { name, input_summary: s }) == seq![
            UiCommand::ToolStart { name, input_summary: s },
        ],
        mapped(EngineEvent::ToolOutput { name, output: s }) == seq![
            UiCommand::ToolComplete { name, output: s },
        ],
        mapped(EngineEvent::ToolDiff { name, diff: s }) == seq![
            UiCommand::ToolDiff { name, diff: s },
        ],
        mapped(EngineEvent::ToolError { name, error: s }) == seq![
            UiCommand::ToolError { name, error: s },
        ],
        mapped(EngineEvent::Error(s)).contains(UiCommand::ShowError(s)),
        mapped(EngineEvent::Status(s)) == seq![UiCommand::ShowStatus(s)],
{
    assert(mapped(EngineEvent::Error(s))[0] == UiCommand::<Text>::ShowError(s));
}

/// A question is put to the user as it was asked, and the answer goes back to who asked.
pub proof fn law_questions_reach_the_user(
    name: Text,
    reason: Text,
    detail: Text,
    question: Text,
    reply_to: u64,
)
    ensures
        mapped(
            EngineEvent::PermissionAsk { tool_name: name, reason, input: detail, reply_to },
        ) == seq![UiCommand::ShowPermission { tool_name: name, reason, detail, reply_to }],
        mapped(EngineEvent::AskUser { question, reply_to }) == seq![
            UiCommand::ShowAskUser { question, reply_to },
        ],
{
}

/// How full the context is, and how many turns were taken, is shown as it is counted.
pub proof fn law_counts_are_shown(tokens: u64, turns: u64, said: Text, calls: usize)
    ensures
        mapped(EngineEvent::TokenUpdate { total_tokens: tokens, turn_count: turns }).contains(
            UiCommand::UpdateTokens(tokens),
        ),
        mapped(EngineEvent::TokenUpdate { total_tokens: tokens, turn_count: turns }).contains(
            UiCommand::UpdateTurnCount(turns),
        ),
        forall|done: EventView|
            #![trigger mapped(done)]
            (done matches EngineEvent::QueryDone { tokens: t, .. } && t == tokens) ==> mapped(
                done,
            ).contains(UiCommand::UpdateTokens(tokens)),
{
    let cmds = mapped(EngineEvent::TokenUpdate { total_tokens: tokens, turn_count: turns });
    assert(cmds[0] == UiCommand::<Text>::UpdateTokens(tokens));
    assert(cmds[1] == UiCommand::<Text>::UpdateTurnCount(turns));
    assert forall|done: EventView|
        #![trigger mapped(done)]
        (done matches EngineEvent::QueryDone { tokens: t, .. } && t == tokens) implies mapped(
        done,
    ).contains(UiCommand::UpdateTokens(tokens)) by {
        let shown = mapped(done);
        assert(shown[shown.len() - 2] == UiCommand::<Text>::UpdateTokens(tokens));
    }
}

} // verus!
