//! Putting the pieces of the model's reply together.

use crate::api;
use crate::api::StopReason;
use crate::api::StreamEvent;
use crate::api::Usage;
use crate::engine::cost_tracker;
use crate::engine::cost_tracker::CostTracker;
use crate::engine::cost_tracker::CostView;
use crate::engine::query::tool_exec;
use crate::engine::query::tool_exec::CallView;
use crate::engine::query::tool_exec::CollectedToolUse;
use crate::engine::tui_events;
use crate::engine::tui_events::EngineEvent;
use crate::engine::tui_events::EventView;
use crate::text;
use crate::text::Text;
use vstd::prelude::*;
use vstd::string::*;

verus! {

/// What has come of a reply so far.
pub struct StreamState {
    pub text: String,
    pub reasoning: String,
    /// Tool calls that are complete.
    pub calls: Vec<CollectedToolUse>,
    /// The tool call that is coming in.
    pub current: Option<CollectedToolUse>,
    /// Usage that was reported before the end.
    pub pending_usage: Option<Usage>,
    pub stop_reason: Option<StopReason>,
}

/// What a `StreamState` holds.
#[verifier::ext_equal]
pub struct StreamView {
    pub text: Text,
    pub reasoning: Text,
    pub calls: Seq<CallView>,
    pub current: Option<CallView>,
    pub pending_usage: Option<Usage>,
    pub stop_reason: Option<StopReason>,
}

/// What an optional call holds.
pub open spec fn opt_call(o: Option<CollectedToolUse>) -> Option<CallView> {
    match o {
        Some(c) => Some(c@),
        None => None,
    }
}

impl View for StreamState {
    type V = StreamView;

    open spec fn view(&self) -> StreamView {
        StreamView {
            text: self.text@,
            reasoning: self.reasoning@,
            calls: tool_exec::calls(self.calls@),
            current: opt_call(self.current),
            pending_usage: self.pending_usage,
            stop_reason: self.stop_reason,
        }
    }
}

/// Nothing has come yet.
pub open spec fn nothing_streamed() -> StreamView {
    StreamView {
        text: Seq::empty(),
        reasoning: Seq::empty(),
        calls: Seq::empty(),
        current: None,
        pending_usage: None,
        stop_reason: None,
    }
}

/// The reply with its current call complete.
pub open spec fn flushed(st: StreamView) -> StreamView {
    match st.current {
        Some(c) => StreamView { calls: st.calls.push(c), current: None, ..st },
        None => st,
    }
}

/// The usage of a request: what was reported before the end counts, but for the
/// output.
pub open spec fn final_usage(pending: Option<Usage>, usage: Usage) -> Usage {
    match pending {
        Some(p) => Usage { output_tokens: usage.output_tokens, ..p },
        None => usage,
    }
}

/// The reply after one more piece.
pub open spec fn streamed(st: StreamView, e: StreamEvent<Text>) -> StreamView {
    match e {
        StreamEvent::TextDelta(delta) => StreamView { text: st.text + delta, ..st },
        StreamEvent::ReasoningDelta(delta) => StreamView { reasoning: st.reasoning + delta, ..st },
        StreamEvent::ToolUseStart { id, name, input_json } => StreamView {
            current: Some(
                CollectedToolUse {
                    id,
                    name,
                    input_json: match input_json {
                        Some(s) => s,
                        None => Seq::empty(),
                    },
                },
            ),
            ..flushed(st)
        },
        StreamEvent::ToolUseDelta { id, delta_json } => match st.current {
            Some(c) => if c.id == id {
                StreamView {
                    current: Some(CollectedToolUse { input_json: c.input_json + delta_json, ..c }),
                    ..st
                }
            } else {
                st
            },
            None => st,
        },
        StreamEvent::UsageUpdate(u) => StreamView { pending_usage: Some(u), ..st },
        StreamEvent::MessageComplete { stop_reason, .. } => StreamView {
            pending_usage: None,
            stop_reason: Some(stop_reason),
            ..st
        },
    }
}

/// The usage that a piece completes.
pub open spec fn completed_usage(st: StreamView, e: StreamEvent<Text>) -> Option<Usage> {
    match e {
        StreamEvent::MessageComplete { usage, .. } => Some(final_usage(st.pending_usage, usage)),
        _ => None,
    }
}

/// The costs after one more piece.
pub open spec fn costs_after(
    costs: CostView,
    model: Text,
    st: StreamView,
    e: StreamEvent<Text>,
) -> CostView {
    match completed_usage(st, e) {
        Some(u) => cost_tracker::after_request(costs, model, u),
        None => costs,
    }
}

/// Whether the costs can take one more piece.
pub open spec fn can_cost(
    costs: CostView,
    model: Text,
    st: StreamView,
    e: StreamEvent<Text>,
) -> bool {
    match completed_usage(st, e) {
        Some(u) => cost_tracker::has_room(costs, model, u) && api::prompt_size(u)
            + u.output_tokens <= u64::MAX,
        None => true,
    }
}

/// What the terminal is told of one more piece.
pub open spec fn piece_events(
    costs: CostView,
    model: Text,
    st: StreamView,
    e: StreamEvent<Text>,
) -> Seq<EventView> {
    match e {
        StreamEvent::TextDelta(delta) => seq![EngineEvent::<Text>::TextDelta(delta)],
        StreamEvent::ReasoningDelta(delta) => seq![EngineEvent::<Text>::ReasoningDelta(delta)],
        StreamEvent::MessageComplete { .. } => {
            let after = costs_after(costs, model, st, e);
            seq![
                EngineEvent::<Text>::TokenUpdate {
                    total_tokens: (after.last_prompt + after.last_output) as u64,
                    turn_count: after.turns as u64,
                },
            ]
        },
        _ => Seq::empty(),
    }
}

/// Whether a reply says nothing and calls nothing.
pub open spec fn is_empty_reply(st: StreamView) -> bool {
    text::is_blank(st.text) && text::is_blank(st.reasoning) && st.calls.len() == 0
}

impl StreamState {
    /// Nothing has come yet.
    pub fn new() -> (r: StreamState)
        ensures
            r@ == nothing_streamed(),
    {
        let r = StreamState {
            text: String::new(),
            reasoning: String::new(),
            calls: Vec::new(),
            current: None,
            pending_usage: None,
            stop_reason: None,
        };
        assert(r@ =~= nothing_streamed());
        r
    }

    /// Complete the current call.
    pub fn flush(&mut self)
        ensures
            final(self)@ == flushed(old(self)@),
    {
        let ghost was = self@;
        if let Some(c) = &self.current {
            let call = c.copy();
            self.calls.push(call);
            assert(tool_exec::calls(self.calls@) =~= was.calls.push(c@));
            self.current = None;
        }
    }

    /// The usage that a piece completes.
    pub fn completes(&self, event: &StreamEvent) -> (r: Option<Usage>)
        ensures
            r == completed_usage(self@, event@),
    {
        match event {
            StreamEvent::MessageComplete { stop_reason: _, usage } => Some(
                match self.pending_usage {
                    Some(p) => Usage {
                        input_tokens: p.input_tokens,
                        output_tokens: usage.output_tokens,
                        cache_read_input_tokens: p.cache_read_input_tokens,
                        cache_creation_input_tokens: p.cache_creation_input_tokens,
                        reasoning_tokens: p.reasoning_tokens,
                    },
                    None => *usage,
                },
            ),
            _ => None,
        }
    }

    /// Whether the costs can take one more piece.
    pub fn can_apply(&self, event: &StreamEvent, costs: &CostTracker, model: &str) -> (r: bool)
        ensures
            r == can_cost(costs@, model@, self@, event@),
    {
        match self.completes(event) {
            Some(u) => costs.can_record(model, &u) && u.input_tokens as u128
                + u.cache_read_input_tokens as u128 + u.cache_creation_input_tokens as u128
                + u.output_tokens as u128 <= u64::MAX as u128,
            None => true,
        }
    }

    /// Add one more piece to the reply. Returns the usage of the request where
    /// it is complete.
    pub fn absorb(&mut self, event: StreamEvent) -> (r: Option<Usage>)
        ensures
            final(self)@ == streamed(old(self)@, event@),
            r == completed_usage(old(self)@, event@),
    {
        let completed = self.completes(&event);
        match event {
            StreamEvent::TextDelta(delta) => {
                self.text.append(delta.as_str());
                None
            },
            StreamEvent::ReasoningDelta(delta) => {
                self.reasoning.append(delta.as_str());
                None
            },
            StreamEvent::ToolUseStart { id, name, input_json } => {
                self.flush();
                let input = match input_json {
                    Some(s) => s,
                    None => String::new(),
                };
                self.current = Some(CollectedToolUse { id, name, input_json: input });
                None
            },
            StreamEvent::ToolUseDelta { id, delta_json } => {
                let mut next: Option<CollectedToolUse> = None;
                if let Some(c) = &self.current {
                    if text::same(c.id.as_str(), id.as_str()) {
                        next =
                        Some(
                            CollectedToolUse {
                                id,
                                name: text::copy(c.name.as_str()),
                                input_json: text::cat2(
                                    c.input_json.as_str(),
                                    delta_json.as_str(),
                                ),
                            },
                        );
                    }
                }
                if next.is_some() {
                    self.current = next;
                }
                None
            },
            StreamEvent::UsageUpdate(u) => {
                self.pending_usage = Some(u);
                None
            },
            StreamEvent::MessageComplete { stop_reason, usage: _ } => {
                self.pending_usage = None;
                self.stop_reason = Some(stop_reason);
                completed
            },
        }
    }

    /// Add one more piece to the reply, and its usage to the costs. Returns what
    /// the terminal is told, and the usage of the request where it is complete.
    pub fn apply(&mut self, event: StreamEvent, costs: &mut CostTracker, model: &str) -> (r: (
        Vec<EngineEvent>,
        Option<Usage>,
    ))
        requires
            can_cost(old(costs)@, model@, old(self)@, event@),
        ensures
            final(self)@ == streamed(old(self)@, event@),
            final(costs)@ == costs_after(old(costs)@, model@, old(self)@, event@),
            tui_events::events(r.0@) == piece_events(
                old(costs)@,
                model@,
                old(self)@,
                event@,
            ),
            r.1 == completed_usage(old(self)@, event@),
    {
        let mut events: Vec<EngineEvent> = Vec::new();
        match &event {
            StreamEvent::TextDelta(delta) => {
                tui_events::push_event(
                    &mut events,
                    EngineEvent::TextDelta(text::copy(delta.as_str())),
                );
            },
            StreamEvent::ReasoningDelta(delta) => {
                tui_events::push_event(
                    &mut events,
                    EngineEvent::ReasoningDelta(text::copy(delta.as_str())),
                );
            },
            _ => {},
        }
        let done = self.absorb(event);
        if let Some(u) = &done {
            costs.record(model, u);
            tui_events::push_event(
                &mut events,
                EngineEvent::TokenUpdate {
                    total_tokens: costs.last_prompt_tokens + costs.last_output_tokens,
                    turn_count: costs.turn_count,
                },
            );
        }
        assert(tui_events::events(events@) =~= piece_events(
            old(costs)@,
            model@,
            old(self)@,
            event@,
        ));
        (events, done)
    }

    /// Whether the reply says nothing and calls nothing.
    pub fn is_empty(&self) -> (r: bool)
        ensures
            r == is_empty_reply(self@),
    {
        assert(self@.calls.len() == self.calls@.len());
        text::blank(self.text.as_str()) && text::blank(self.reasoning.as_str()) && self.calls.len()
            == 0
    }
}

/// A call that starts while another is coming in completes that one: no call of
/// a reply is lost.
pub proof fn law_no_call_is_lost(st: StreamView, e: StreamEvent<Text>)
    ensures
        st.calls.is_prefix_of(streamed(st, e).calls),
        st.current is Some && e is ToolUseStart ==> streamed(st, e).calls.last()
            == st.current->Some_0,
        e is ToolUseStart ==> flushed(streamed(st, e)).calls.len() == flushed(st).calls.len() + 1,
{
    assert(streamed(st, e).calls.subrange(0, st.calls.len() as int) =~= st.calls);
}

/// Text and arguments come out as they came in, one piece after the other.
pub proof fn law_pieces_add_up(st: StreamView, a: Text, b: Text)
    ensures
        streamed(
            streamed(st, StreamEvent::TextDelta(a)),
            StreamEvent::TextDelta(b),
        ) == streamed(st, StreamEvent::TextDelta(a + b)),
        streamed(
            streamed(st, StreamEvent::ReasoningDelta(a)),
            StreamEvent::ReasoningDelta(b),
        ) == streamed(st, StreamEvent::ReasoningDelta(a + b)),
        st.current matches Some(c) ==> streamed(
            streamed(st, StreamEvent::ToolUseDelta { id: c.id, delta_json: a }),
            StreamEvent::ToolUseDelta { id: c.id, delta_json: b },
        ) == streamed(st, StreamEvent::ToolUseDelta { id: c.id, delta_json: a + b }),
{
    assert((st.text + a) + b =~= st.text + (a + b));
    assert((st.reasoning + a) + b =~= st.reasoning + (a + b));
    if let Some(c) = st.current {
        assert((c.input_json + a) + b =~= c.input_json + (a + b));
    }
}

} // verus!
