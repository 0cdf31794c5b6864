//! What the engine tells the terminal while it works.

use crate::text;
use crate::text::Text;
use vstd::prelude::*;

verus! {

/// An event of the engine. Where an answer is awaited, `reply_to` names who
/// waits for it.
pub enum EngineEvent<S = String> {
    TextDelta(S),
    ReasoningDelta(S),
    ClearOutput,
    ToolStart { name: S, input_summary: S },
    ToolOutput { name: S, output: S },
    ToolDiff { name: S, diff: S },
    ToolError { name: S, error: S },
    QueryDone { text: S, tool_calls: u64, tokens: u64 },
    Interrupted,
    Error(S),
    Status(S),
    TokenUpdate { total_tokens: u64, turn_count: u64 },
    CompactProgress { method: S, tokens_before: u64, tokens_after: u64 },
    AskUser { question: S, reply_to: u64 },
    PermissionAsk { tool_name: S, reason: S, input: S, reply_to: u64 },
    ImagePasted { media_type: S, base64_data: S, size_kb: usize },
    ImagePasteFailed,
    PermissionAllowAllSet,
    SteerHandled,
}

/// What an event holds.
pub type EventView = EngineEvent<Text>;

impl View for EngineEvent<String> {
    type V = EngineEvent<Text>;

    open spec fn view(&self) -> EngineEvent<Text> {
        match *self {
            EngineEvent::TextDelta(s) => EngineEvent::TextDelta(s@),
            EngineEvent::ReasoningDelta(s) => EngineEvent::ReasoningDelta(s@),
            EngineEvent::ClearOutput => EngineEvent::ClearOutput,
            EngineEvent::ToolStart { name, input_summary } => EngineEvent::ToolStart {
                name: name@,
                input_summary: input_summary@,
            },
            EngineEvent::ToolOutput { name, output } => EngineEvent::ToolOutput {
                name: name@,
                output: output@,
            },
            EngineEvent::ToolDiff { name, diff } => EngineEvent::ToolDiff {
                name: name@,
                diff: diff@,
            },
            EngineEvent::ToolError { name, error } => EngineEvent::ToolError {
                name: name@,
                error: error@,
            },
            EngineEvent::QueryDone { text, tool_calls, tokens } => EngineEvent::QueryDone {
                text: text@,
                tool_calls,
                tokens,
            },
            EngineEvent::Interrupted => EngineEvent::Interrupted,
            EngineEvent::Error(s) => EngineEvent::Error(s@),
            EngineEvent::Status(s) => EngineEvent::Status(s@),
            EngineEvent::TokenUpdate { total_tokens, turn_count } => EngineEvent::TokenUpdate {
                total_tokens,
                turn_count,
            },
            EngineEvent::CompactProgress {
                method,
                tokens_before,
                tokens_after,
            } => EngineEvent::CompactProgress { method: method@, tokens_before, tokens_after },
            EngineEvent::AskUser { question, reply_to } => EngineEvent::AskUser {
                question: question@,
                reply_to,
            },
            EngineEvent::PermissionAsk {
                tool_name,
                reason,
                input,
                reply_to,
            } => EngineEvent::PermissionAsk {
                tool_name: tool_name@,
                reason: reason@,
                input: input@,
                reply_to,
            },
            EngineEvent::ImagePasted {
                media_type,
                base64_data,
                size_kb,
            } => EngineEvent::ImagePasted {
                media_type: media_type@,
                base64_data: base64_data@,
                size_kb,
            },
            EngineEvent::ImagePasteFailed => EngineEvent::ImagePasteFailed,
            EngineEvent::PermissionAllowAllSet => EngineEvent::PermissionAllowAllSet,
            EngineEvent::SteerHandled => EngineEvent::SteerHandled,
        }
    }
}

/// What a list of events holds.
pub open spec fn events(v: Seq<EngineEvent>) -> Seq<EventView> {
    Seq::new(v.len(), |i: int| v[i]@)
}

/// Append an event to a list.
pub fn push_event(list: &mut Vec<EngineEvent>, e: EngineEvent)
    ensures
        events(final(list)@) == events(old(list)@).push(e@),
{
    let ghost was = list@;
    let ghost added = e@;
    list.push(e);
    assert(events(list@) =~= events(was).push(added));
}

} // verus!
