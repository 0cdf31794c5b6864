//! When hooks are called, and what they can ask for.

use crate::text;
use crate::text::Text;
use vstd::prelude::*;
use vstd::string::*;

verus! {

/// When a hook is called.
#[derive(Clone, Copy, PartialEq, Eq, Structural)]
pub enum HookEvent {
    /// Before a tool runs, which can be blocked.
    PreToolUse,
    /// After a tool ran.
    PostToolUse,
    /// When a session begins.
    SessionStart,
    /// When a session ends.
    SessionEnd,
    /// Before the model is asked; context can be added.
    PreLlmCall,
    /// After the model answered.
    PostLlmCall,
    /// When the user submitted something, which can be changed.
    UserMessage,
}

/// What a hook asks for.
pub enum HookResult<S = String> {
    /// Nothing: go on.
    Continue,
    /// Do not do it.
    Block { reason: S },
    /// Tell the model this as well.
    InjectContext(S),
    /// Take this for what the user submitted.
    ModifiedInput(S),
}

/// What a `HookResult` holds.
pub type ResultView = HookResult<Text>;

impl View for HookResult<String> {
    type V = HookResult<Text>;

    open spec fn view(&self) -> HookResult<Text> {
        match *self {
            HookResult::Continue => HookResult::Continue,
            HookResult::Block { reason } => HookResult::Block { reason: reason@ },
            HookResult::InjectContext(s) => HookResult::InjectContext(s@),
            HookResult::ModifiedInput(s) => HookResult::ModifiedInput(s@),
        }
    }
}

/// What a list of results holds.
pub open spec fn results_view(v: Seq<HookResult>) -> Seq<ResultView> {
    Seq::new(v.len(), |i: int| v[i]@)
}

/// The name of an event.
pub open spec fn event_name(event: HookEvent) -> Text {
    match event {
        HookEvent::PreToolUse => "pre_tool_use"@,
        HookEvent::PostToolUse => "post_tool_use"@,
        HookEvent::SessionStart => "session_start"@,
        HookEvent::SessionEnd => "session_end"@,
        HookEvent::PreLlmCall => "pre_llm_call"@,
        HookEvent::PostLlmCall => "post_llm_call"@,
        HookEvent::UserMessage => "user_message"@,
    }
}

/// The event of a name.
pub open spec fn event_of(name: Text) -> Option<HookEvent> {
    if name == "pre_tool_use"@ {
        Some(HookEvent::PreToolUse)
    } else if name == "post_tool_use"@ {
        Some(HookEvent::PostToolUse)
    } else if name == "session_start"@ {
        Some(HookEvent::SessionStart)
    } else if name == "session_end"@ {
        Some(HookEvent::SessionEnd)
    } else if name == "pre_llm_call"@ {
        Some(HookEvent::PreLlmCall)
    } else if name == "post_llm_call"@ {
        Some(HookEvent::PostLlmCall)
    } else if name == "user_message"@ {
        Some(HookEvent::UserMessage)
    } else {
        None
    }
}

/// The name of an event.
pub fn event_name_for(event: HookEvent) -> (r: &'static str)
    ensures
        r@ == event_name(event),
{
    match event {
        HookEvent::PreToolUse => "pre_tool_use",
        HookEvent::PostToolUse => "post_tool_use",
        HookEvent::SessionStart => "session_start",
        HookEvent::SessionEnd => "session_end",
        HookEvent::PreLlmCall => "pre_llm_call",
        HookEvent::PostLlmCall => "post_llm_call",
        HookEvent::UserMessage => "user_message",
    }
}

/// The event of a name.
pub fn event_named(name: &str) -> (r: Option<HookEvent>)
    ensures
        r == event_of(name@),
{
    if text::same(name, "pre_tool_use") {
        Some(HookEvent::PreToolUse)
    } else if text::same(name, "post_tool_use") {
        Some(HookEvent::PostToolUse)
    } else if text::same(name, "session_start") {
        Some(HookEvent::SessionStart)
    } else if text::same(name, "session_end") {
        Some(HookEvent::SessionEnd)
    } else if text::same(name, "pre_llm_call") {
        Some(HookEvent::PreLlmCall)
    } else if text::same(name, "post_llm_call") {
        Some(HookEvent::PostLlmCall)
    } else if text::same(name, "user_message") {
        Some(HookEvent::UserMessage)
    } else {
        None
    }
}

/// Every event, in the order in which they are listed.
pub open spec fn all_events() -> Seq<HookEvent> {
    seq![
        HookEvent::PreToolUse,
        HookEvent::PostToolUse,
        HookEvent::SessionStart,
        HookEvent::SessionEnd,
        HookEvent::PreLlmCall,
        HookEvent::PostLlmCall,
        HookEvent::UserMessage,
    ]
}

/// Every event with its name.
pub fn valid_hook_events() -> (r: Vec<(&'static str, HookEvent)>)
    ensures
        r@.len() == all_events().len(),
        forall|i: int|
            0 <= i < r@.len() ==> (#[trigger] r@[i]).1 == all_events()[i] && r@[i].0@
                == event_name(all_events()[i]),
{
    let mut r: Vec<(&'static str, HookEvent)> = Vec::new();
    r.push(("pre_tool_use", HookEvent::PreToolUse));
    r.push(("post_tool_use", HookEvent::PostToolUse));
    r.push(("session_start", HookEvent::SessionStart));
    r.push(("session_end", HookEvent::SessionEnd));
    r.push(("pre_llm_call", HookEvent::PreLlmCall));
    r.push(("post_llm_call", HookEvent::PostLlmCall));
    r.push(("user_message", HookEvent::UserMessage));
    r
}

/// Every event is found by its name, so that no two have the same.
pub proof fn law_events_have_names_of_their_own(event: HookEvent)
    ensures
        event_of(event_name(event)) == Some(event),
        all_events().contains(event),
{
    reveal_strlit("pre_tool_use");
    reveal_strlit("post_tool_use");
    reveal_strlit("session_start");
    reveal_strlit("session_end");
    reveal_strlit("pre_llm_call");
    reveal_strlit("post_llm_call");
    reveal_strlit("user_message");
    assert("pre_tool_use"@.len() == 12 && "pre_tool_use"@[4] == 't');
    assert("post_tool_use"@.len() == 13 && "post_tool_use"@[5] == 't' && "post_tool_use"@[0]
        == 'p');
    assert("session_start"@.len() == 13 && "session_start"@[0] == 's');
    assert("session_end"@.len() == 11);
    assert("pre_llm_call"@.len() == 12 && "pre_llm_call"@[4] == 'l' && "pre_llm_call"@[0] == 'p');
    assert("post_llm_call"@.len() == 13 && "post_llm_call"@[5] == 'l' && "post_llm_call"@[0]
        == 'p');
    assert("user_message"@.len() == 12 && "user_message"@[0] == 'u');
    assert("pre_tool_use"@[0] == 'p');
    let all = all_events();
    assert(all[0] == HookEvent::PreToolUse && all[1] == HookEvent::PostToolUse && all[2]
        == HookEvent::SessionStart && all[3] == HookEvent::SessionEnd && all[4]
        == HookEvent::PreLlmCall && all[5] == HookEvent::PostLlmCall && all[6]
        == HookEvent::UserMessage);
}

} // verus!
