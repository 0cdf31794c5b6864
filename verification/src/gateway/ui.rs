//! What the user interface is told.

use crate::text;
use crate::text::Text;
use vstd::prelude::*;

verus! {

/// What the terminal is doing.
#[derive(Clone, Copy, PartialEq, Eq, Structural)]
pub enum AppMode {
    Idle,
    WaitingInput,
}

/// What the status bar shows.
pub struct StatusInfo<S = String> {
    pub model: S,
    pub provider: S,
    pub total_tokens: u64,
    pub context_window: u64,
    pub turn_count: u64,
    pub mcp_server_count: usize,
    pub skill_count: usize,
    pub mode: AppMode,
    pub steer_count: usize,
    pub active_identity: Option<S>,
    pub tick: u64,
}

/// What a `StatusInfo` holds.
pub type StatusView = StatusInfo<Text>;

impl View for StatusInfo<String> {
    type V = StatusInfo<Text>;

    open spec fn view(&self) -> StatusInfo<Text> {
        StatusInfo {
            model: self.model@,
            provider: self.provider@,
            total_tokens: self.total_tokens,
            context_window: self.context_window,
            turn_count: self.turn_count,
            mcp_server_count: self.mcp_server_count,
            skill_count: self.skill_count,
            mode: self.mode,
            steer_count: self.steer_count,
            active_identity: text::opt_text(self.active_identity),
            tick: self.tick,
        }
    }
}

/// A command to the user interface. Where an answer is awaited, `reply_to` names
/// who waits for it.
pub enum UiCommand<S = String> {
    AppendText(S),
    AppendReasoning(S),
    ClearOutput,
    ToolStart { name: S, input_summary: S },
    ToolComplete { name: S, output: S },
    ToolDiff { name: S, diff: S },
    ToolError { name: S, error: S },
    /// Scroll the output; up, where positive.
    ScrollBy(i32),
    ScrollToBottom,
    SetMode(AppMode),
    UpdateStatus(StatusInfo<S>),
    UpdateTokens(u64),
    UpdateTurnCount(u64),
    SetModel(S),
    ShowPermission { tool_name: S, reason: S, detail: S, reply_to: u64 },
    ShowAskUser { question: S, reply_to: u64 },
    HideOverlay,
    SetInputText(S),
    SetInputPlaceholder(S),
    FocusInput,
    BlurInput,
    ClearSteerQueue,
    SubAgentStarted { summary: S },
    SubAgentProgress { task_index: usize, line: S },
    SteerSlot { steer_count: usize },
    SetInputIdentity(Option<S>),
    PasteImage { media_type: S, base64_data: S, size_kb: usize },
    QueryDone { tokens: u64 },
    ShowError(S),
    ShowStatus(S),
}

/// What a `UiCommand` holds.
pub type UiView = UiCommand<Text>;

impl View for UiCommand<String> {
    type V = UiCommand<Text>;

    open spec fn view(&self) -> UiCommand<Text> {
        match *self {
            UiCommand::AppendText(s) => UiCommand::AppendText(s@),
            UiCommand::AppendReasoning(s) => UiCommand::AppendReasoning(s@),
            UiCommand::ClearOutput => UiCommand::ClearOutput,
            UiCommand::ToolStart { name, input_summary } => UiCommand::ToolStart {
                name: name@,
                input_summary: input_summary@,
            },
            UiCommand::ToolComplete { name, output } => UiCommand::ToolComplete {
                name: name@,
                output: output@,
            },
            UiCommand::ToolDiff { name, diff } => UiCommand::ToolDiff { name: name@, diff: diff@ },
            UiCommand::ToolError { name, error } => UiCommand::ToolError {
                name: name@,
                error: error@,
            },
            UiCommand::ScrollBy(n) => UiCommand::ScrollBy(n),
            UiCommand::ScrollToBottom => UiCommand::ScrollToBottom,
            UiCommand::SetMode(m) => UiCommand::SetMode(m),
            UiCommand::UpdateStatus(info) => UiCommand::UpdateStatus(info@),
            UiCommand::UpdateTokens(n) => UiCommand::UpdateTokens(n),
            UiCommand::UpdateTurnCount(n) => UiCommand::UpdateTurnCount(n),
            UiCommand::SetModel(s) => UiCommand::SetModel(s@),
            UiCommand::ShowPermission {
                tool_name,
                reason,
                detail,
                reply_to,
            } => UiCommand::ShowPermission {
                tool_name: tool_name@,
                reason: reason@,
                detail: detail@,
                reply_to,
            },
            UiCommand::ShowAskUser { question, reply_to } => UiCommand::ShowAskUser {
                question: question@,
                reply_to,
            },
            UiCommand::HideOverlay => UiCommand::HideOverlay,
            UiCommand::SetInputText(s) => UiCommand::SetInputText(s@),
            UiCommand::SetInputPlaceholder(s) => UiCommand::SetInputPlaceholder(s@),
            UiCommand::FocusInput => UiCommand::FocusInput,
            UiCommand::BlurInput => UiCommand::BlurInput,
            UiCommand::ClearSteerQueue => UiCommand::ClearSteerQueue,
            UiCommand::SubAgentStarted { summary } => UiCommand::SubAgentStarted {
                summary: summary@,
            },
            UiCommand::SubAgentProgress { task_index, line } => UiCommand::SubAgentProgress {
                task_index,
                line: line@,
            },
            UiCommand::SteerSlot { steer_count } => UiCommand::SteerSlot { steer_count },
            UiCommand::SetInputIdentity(name) => UiCommand::SetInputIdentity(text::opt_text(name)),
            UiCommand::PasteImage { media_type, base64_data, size_kb } => UiCommand::PasteImage {
                media_type: media_type@,
                base64_data: base64_data@,
                size_kb,
            },
            UiCommand::QueryDone { tokens } => UiCommand::QueryDone { tokens },
            UiCommand::ShowError(s) => UiCommand::ShowError(s@),
            UiCommand::ShowStatus(s) => UiCommand::ShowStatus(s@),
        }
    }
}

/// What a list of commands holds.
pub open spec fn commands_view(v: Seq<UiCommand>) -> Seq<UiView> {
    Seq::new(v.len(), |i: int| v[i]@)
}

/// Append a command to a list.
pub fn push_command(list: &mut Vec<UiCommand>, c: UiCommand)
    ensures
        commands_view(final(list)@) == commands_view(old(list)@).push(c@),
{
    let ghost was = list@;
    let ghost added = c@;
    list.push(c);
    assert(commands_view(list@) =~= commands_view(was).push(added));
}

/// Append commands to a list, in their order.
pub fn push_commands(list: &mut Vec<UiCommand>, more: Vec<UiCommand>)
    ensures
        commands_view(final(list)@) == commands_view(old(list)@) + commands_view(more@),
{
    let ghost was = list@;
    let ghost added = more@;
    let mut rest = more;
    list.append(&mut rest);
    assert(commands_view(list@) =~= commands_view(was) + commands_view(added));
}

/// A list of one command.
pub fn one_command(c: UiCommand) -> (r: Vec<UiCommand>)
    ensures
        commands_view(r@) == seq![c@],
{
    let mut r: Vec<UiCommand> = Vec::new();
    push_command(&mut r, c);
    assert(commands_view(r@) =~= seq![c@]);
    r
}

/// A list of two commands.
pub fn two_commands(a: UiCommand, b: UiCommand) -> (r: Vec<UiCommand>)
    ensures
        commands_view(r@) == seq![a@, b@],
{
    let mut r: Vec<UiCommand> = Vec::new();
    push_command(&mut r, a);
    push_command(&mut r, b);
    assert(commands_view(r@) =~= seq![a@, b@]);
    r
}

} // verus!
