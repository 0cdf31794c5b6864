//! What one tool call goes through: its arguments, the hooks before it, its
//! validation, the permission, the cache, the tool itself, and its result.
//!
//! The steps that only the outside can take (running hooks, asking the user,
//! running the tool) are named by a `ToolAction`; what they came to is handed
//! back as a `ToolEvent`.

use crate::api::BlockView;
use crate::api::ContentBlock;
use crate::engine::query::json_utils;
use crate::engine::query::tool_display;
use crate::engine::query::tool_exec;
use crate::engine::query::tool_exec::CallView;
use crate::engine::query::tool_exec::CollectedToolUse;
use crate::engine::tui_events;
use crate::engine::tui_events::EngineEvent;
use crate::engine::tui_events::EventView;
use crate::json;
use crate::json::Json;
use crate::json::JsonView;
use crate::text;
use crate::text::Text;
use vstd::prelude::*;

verus! {

/// What a policy says of a call.
pub struct PermissionDecision<S = String> {
    pub allowed: bool,
    pub requires_confirmation: bool,
    pub reason: S,
}

impl View for PermissionDecision<String> {
    type V = PermissionDecision<Text>;

    open spec fn view(&self) -> PermissionDecision<Text> {
        PermissionDecision {
            allowed: self.allowed,
            requires_confirmation: self.requires_confirmation,
            reason: self.reason@,
        }
    }
}

/// What a call waits for.
#[derive(Clone, Copy, PartialEq, Eq, Structural)]
pub enum ToolPhase {
    /// The hooks that run before a tool.
    Hooks,
    /// The tool's own check of the arguments.
    Validation,
    /// The policy.
    Permission,
    /// The user's answer.
    Reply,
    /// A result of the same call that was kept.
    Cache,
    /// The tool.
    Tool,
    /// Nothing: the call is over.
    Over,
}

/// What a step outside came to.
pub enum ToolEvent<S = String> {
    /// The hooks ran; one may have blocked the call, with a reason.
    HooksRan(Option<S>),
    /// The tool checked the arguments; it may have objected.
    Validated(Option<S>),
    /// Everything is allowed in this session.
    AllAllowed,
    /// The policy was asked.
    Decided(PermissionDecision<S>),
    /// The user answered, or nobody will.
    Replied(Option<S>),
    /// The query was cancelled while the user was asked.
    Cancelled,
    /// The cache was looked into.
    CacheLooked(Option<S>),
    /// The tool ran: its result or its error.
    Executed(Result<S, S>),
}

/// What an optional string of an event holds.
pub open spec fn result_text(r: Result<String, String>) -> Result<Text, Text> {
    match r {
        Ok(s) => Ok(s@),
        Err(e) => Err(e@),
    }
}

impl View for ToolEvent<String> {
    type V = ToolEvent<Text>;

    open spec fn view(&self) -> ToolEvent<Text> {
        match *self {
            ToolEvent::HooksRan(o) => ToolEvent::HooksRan(text::opt_text(o)),
            ToolEvent::Validated(o) => ToolEvent::Validated(text::opt_text(o)),
            ToolEvent::AllAllowed => ToolEvent::AllAllowed,
            ToolEvent::Decided(d) => ToolEvent::Decided(d@),
            ToolEvent::Replied(o) => ToolEvent::Replied(text::opt_text(o)),
            ToolEvent::Cancelled => ToolEvent::Cancelled,
            ToolEvent::CacheLooked(o) => ToolEvent::CacheLooked(text::opt_text(o)),
            ToolEvent::Executed(r) => ToolEvent::Executed(result_text(r)),
        }
    }
}

/// What is left to do around a finished call.
pub struct ToolEffects<S = String> {
    /// Keep the result for the same call.
    pub cache_result: bool,
    /// Forget what was kept of this path.
    pub invalidate: Option<S>,
    /// Run the hooks after a tool, with its output and whether that is an error.
    pub post_hook: Option<(S, bool)>,
    /// The arguments that could not be parsed.
    pub failed_input: Option<S>,
}

/// What an optional hook call holds.
pub open spec fn hook_text(o: Option<(String, bool)>) -> Option<(Text, bool)> {
    match o {
        Some(p) => Some((p.0@, p.1)),
        None => None,
    }
}

impl View for ToolEffects<String> {
    type V = ToolEffects<Text>;

    open spec fn view(&self) -> ToolEffects<Text> {
        ToolEffects {
            cache_result: self.cache_result,
            invalidate: text::opt_text(self.invalidate),
            post_hook: hook_text(self.post_hook),
            failed_input: text::opt_text(self.failed_input),
        }
    }
}

/// Nothing to do.
pub open spec fn no_effects() -> ToolEffects<Text> {
    ToolEffects { cache_result: false, invalidate: None, post_hook: None, failed_input: None }
}

/// What is to be done outside.
pub enum ToolAction<S = String, J = Json> {
    RunPreHooks,
    Validate,
    CheckPermission,
    AwaitReply,
    LookUpCache,
    Execute,
    /// The call is over. There is no result where the query was cancelled.
    Finish { block: Option<ContentBlock<S, J>>, effects: ToolEffects<S> },
}

/// What an optional block holds.
pub open spec fn opt_block(o: Option<ContentBlock>) -> Option<BlockView> {
    match o {
        Some(b) => Some(b@),
        None => None,
    }
}

impl View for ToolAction<String, Json> {
    type V = ToolAction<Text, JsonView>;

    open spec fn view(&self) -> ToolAction<Text, JsonView> {
        match *self {
            ToolAction::RunPreHooks => ToolAction::RunPreHooks,
            ToolAction::Validate => ToolAction::Validate,
            ToolAction::CheckPermission => ToolAction::CheckPermission,
            ToolAction::AwaitReply => ToolAction::AwaitReply,
            ToolAction::LookUpCache => ToolAction::LookUpCache,
            ToolAction::Execute => ToolAction::Execute,
            ToolAction::Finish { block, effects } => ToolAction::Finish {
                block: opt_block(block),
                effects: effects@,
            },
        }
    }
}

/// What a step leads to: what the terminal is told, whether everything is
/// allowed from now on, and what is to be done next.
pub struct ToolReaction {
    pub events: Vec<EngineEvent>,
    pub grant_all: bool,
    pub action: ToolAction,
}

/// What a `ToolReaction` holds.
#[verifier::ext_equal]
pub struct ReactionView {
    pub events: Seq<EventView>,
    pub grant_all: bool,
    pub action: ToolAction<Text, JsonView>,
}

impl View for ToolReaction {
    type V = ReactionView;

    open spec fn view(&self) -> ReactionView {
        ReactionView {
            events: tui_events::events(self.events@),
            grant_all: self.grant_all,
            action: self.action@,
        }
    }
}

/// A call on its way.
pub struct ToolRun {
    pub call: CollectedToolUse,
    pub input: Json,
    pub phase: ToolPhase,
    /// Who waits for the user's answer.
    pub reply_to: u64,
}

/// What a `ToolRun` holds.
#[verifier::ext_equal]
pub struct RunView {
    pub call: CallView,
    pub input: JsonView,
    pub phase: ToolPhase,
    pub reply_to: u64,
}

impl View for ToolRun {
    type V = RunView;

    open spec fn view(&self) -> RunView {
        RunView {
            call: self.call@,
            input: self.input@,
            phase: self.phase,
            reply_to: self.reply_to,
        }
    }
}

// ---------------------------------------------------------------------------
// Results
// ---------------------------------------------------------------------------

/// The result of a call.
pub open spec fn result_block(call: CallView, content: Text, is_error: Option<bool>) -> BlockView {
    ContentBlock::ToolResult { tool_use_id: call.id, content, is_error }
}

/// A call that ends with nothing left to do around it.
pub open spec fn finished(block: Option<BlockView>) -> ToolAction<Text, JsonView> {
    ToolAction::Finish { block, effects: no_effects() }
}

/// A call that is refused: the terminal is told `error`, the model `content`.
pub open spec fn refused(call: CallView, error: Text, content: Text) -> ReactionView {
    ReactionView {
        events: seq![EngineEvent::<Text>::ToolError { name: call.name, error }],
        grant_all: false,
        action: finished(Some(result_block(call, content, Some(true)))),
    }
}

/// Nothing but the next thing to do.
pub open spec fn just(action: ToolAction<Text, JsonView>) -> ReactionView {
    ReactionView { events: Seq::empty(), grant_all: false, action }
}

/// Whether the result of a tool is kept for the same call.
pub open spec fn is_cacheable(name: Text) -> bool {
    name == "read"@ || name == "glob"@ || name == "grep"@
}

/// What a permitted call does next.
pub open spec fn permitted_phase(name: Text) -> ToolPhase {
    if is_cacheable(name) {
        ToolPhase::Cache
    } else {
        ToolPhase::Tool
    }
}

/// What a permitted call does next.
pub open spec fn permitted_action(name: Text) -> ToolAction<Text, JsonView> {
    if is_cacheable(name) {
        ToolAction::LookUpCache
    } else {
        ToolAction::Execute
    }
}

/// Whether an answer, trimmed and in lower case, allows the call.
pub open spec fn answer_allows(answer: Text) -> bool {
    answer == "y"@ || answer == "yes"@ || answer_allows_all(answer)
}

/// Whether an answer, trimmed and in lower case, allows every call to come.
pub open spec fn answer_allows_all(answer: Text) -> bool {
    answer == "a"@ || answer == "all"@ || answer == "always"@
}

/// The path that a write or an edit makes stale.
pub open spec fn stale_path(name: Text, input: JsonView) -> Option<Text> {
    if name == "write"@ || name == "edit"@ {
        json::str_member(input, "path"@)
    } else {
        None
    }
}

/// The changes that an edit reports.
pub open spec fn reported_diff(name: Text, doc: Option<JsonView>) -> Option<Text> {
    match doc {
        Some(v) => match json::str_member(v, "diff"@) {
            Some(d) => if name == "edit"@ && d.len() > 0 {
                Some(d)
            } else {
                None
            },
            None => None,
        },
        None => None,
    }
}

/// How a call ends whose tool gave `result` back, where the terminal is shown
/// `display` and `diff`.
pub open spec fn succeeded(
    run: RunView,
    result: Text,
    display: Text,
    diff: Option<Text>,
) -> ReactionView {
    let name = run.call.name;
    let shown = EngineEvent::<Text>::ToolOutput { name, output: display };
    ReactionView {
        events: match diff {
            Some(diff) => seq![shown, EngineEvent::<Text>::ToolDiff { name, diff }],
            None => seq![shown],
        },
        grant_all: false,
        action: ToolAction::Finish {
            block: Some(result_block(run.call, result, None)),
            effects: ToolEffects {
                cache_result: is_cacheable(name),
                invalidate: stale_path(name, run.input),
                post_hook: Some((result, false)),
                failed_input: None,
            },
        },
    }
}

/// How a call ends whose tool failed.
pub open spec fn failed(run: RunView, error: Text) -> ReactionView {
    ReactionView {
        events: seq![EngineEvent::<Text>::ToolError { name: run.call.name, error }],
        grant_all: false,
        action: ToolAction::Finish {
            block: Some(result_block(run.call, "Error: "@ + error, Some(true))),
            effects: ToolEffects {
                cache_result: false,
                invalidate: None,
                post_hook: Some((error, true)),
                failed_input: None,
            },
        },
    }
}

/// What the terminal is shown of a result.
pub open spec fn result_display(call: CallView, result: Text) -> Text {
    tool_display::output_summary(
        call.name,
        result,
        tool_display::output_docs(result),
        json_utils::tool_input_or_empty(call.input_json),
    )
}

// ---------------------------------------------------------------------------
// The steps
// ---------------------------------------------------------------------------

/// Whether an event is what a call waits for.
pub open spec fn awaits(phase: ToolPhase, event: ToolEvent<Text>) -> bool {
    match event {
        ToolEvent::HooksRan(_) => phase == ToolPhase::Hooks,
        ToolEvent::Validated(_) => phase == ToolPhase::Validation,
        ToolEvent::AllAllowed => phase == ToolPhase::Permission,
        ToolEvent::Decided(_) => phase == ToolPhase::Permission,
        ToolEvent::Replied(_) => phase == ToolPhase::Reply,
        ToolEvent::Cancelled => phase == ToolPhase::Reply,
        ToolEvent::CacheLooked(_) => phase == ToolPhase::Cache,
        ToolEvent::Executed(_) => phase == ToolPhase::Tool,
    }
}

/// How a call starts, from what its arguments came to.
pub open spec fn started(call: CallView, parsed: Result<JsonView, Text>, reply_to: u64) -> (
    RunView,
    ReactionView,
) {
    match parsed {
        Ok(input) => (
            RunView { call, input, phase: ToolPhase::Hooks, reply_to },
            just(ToolAction::RunPreHooks),
        ),
        Err(error) => (
            RunView {
                call,
                input: json::empty_object_view(),
                phase: ToolPhase::Over,
                reply_to,
            },
            ReactionView {
                events: seq![EngineEvent::<Text>::ToolError { name: call.name, error }],
                grant_all: false,
                action: ToolAction::Finish {
                    block: Some(result_block(call, "Error: "@ + error, Some(true))),
                    effects: ToolEffects {
                        failed_input: Some(call.input_json),
                        ..no_effects()
                    },
                },
            },
        ),
    }
}

/// What the policy's word leads to.
pub open spec fn decided(run: RunView, d: PermissionDecision<Text>) -> (ToolPhase, ReactionView) {
    let call = run.call;
    if d.allowed {
        (permitted_phase(call.name), just(permitted_action(call.name)))
    } else if d.requires_confirmation {
        (
            ToolPhase::Reply,
            ReactionView {
                events: seq![
                    EngineEvent::<Text>::PermissionAsk {
                        tool_name: call.name,
                        reason: d.reason,
                        input: tool_exec::permission_detail(call.name, call.input_json),
                        reply_to: run.reply_to,
                    },
                ],
                grant_all: false,
                action: ToolAction::AwaitReply,
            },
        )
    } else {
        (ToolPhase::Over, refused(call, d.reason, d.reason))
    }
}

/// What the user's answer, trimmed and in lower case, leads to.
pub open spec fn answered(run: RunView, answer: Option<Text>) -> (ToolPhase, ReactionView) {
    let call = run.call;
    match answer {
        Some(a) => if answer_allows(a) {
            (
                permitted_phase(call.name),
                ReactionView {
                    events: if answer_allows_all(a) {
                        seq![
                            EngineEvent::<Text>::Status(
                                "All permissions granted for this session."@,
                            ),
                        ]
                    } else {
                        Seq::empty()
                    },
                    grant_all: answer_allows_all(a),
                    action: permitted_action(call.name),
                },
            )
        } else {
            (
                ToolPhase::Over,
                refused(call, "Permission denied by user."@, "Permission denied by user."@),
            )
        },
        None => (
            ToolPhase::Over,
            refused(call, "Permission denied by user."@, "Permission denied by user."@),
        ),
    }
}

/// The user's answer as it is compared.
pub open spec fn normalized_answer(reply: Option<Text>) -> Option<Text> {
    match reply {
        Some(r) => Some(text::lowercased(text::trimmed(r))),
        None => None,
    }
}

/// What an event leads to: what the call waits for next, and the reaction.
pub open spec fn stepped(run: RunView, event: ToolEvent<Text>) -> (ToolPhase, ReactionView) {
    let call = run.call;
    match event {
        ToolEvent::HooksRan(blocked) => match blocked {
            Some(reason) => (ToolPhase::Over, refused(call, reason, reason)),
            None => (ToolPhase::Validation, just(ToolAction::Validate)),
        },
        ToolEvent::Validated(objection) => match objection {
            Some(error) => (
                ToolPhase::Over,
                refused(call, error, "Validation error: "@ + error),
            ),
            None => (ToolPhase::Permission, just(ToolAction::CheckPermission)),
        },
        ToolEvent::AllAllowed => (
            permitted_phase(call.name),
            just(permitted_action(call.name)),
        ),
        ToolEvent::Decided(d) => decided(run, d),
        ToolEvent::Replied(reply) => answered(run, normalized_answer(reply)),
        ToolEvent::Cancelled => (ToolPhase::Over, just(finished(None))),
        ToolEvent::CacheLooked(hit) => match hit {
            Some(cached) => (
                ToolPhase::Over,
                ReactionView {
                    events: seq![
                        EngineEvent::<Text>::ToolOutput {
                            name: call.name,
                            output: "(cached) "@ + text::decimal(text::byte_len(cached))
                                + " chars"@,
                        },
                    ],
                    grant_all: false,
                    action: finished(Some(result_block(call, cached, None))),
                },
            ),
            None => (ToolPhase::Tool, just(ToolAction::Execute)),
        },
        ToolEvent::Executed(outcome) => match outcome {
            Ok(result) => (
                ToolPhase::Over,
                succeeded(
                    run,
                    result,
                    result_display(call, result),
                    reported_diff(call.name, tool_display::output_docs(result).whole),
                ),
            ),
            Err(error) => (ToolPhase::Over, failed(run, error)),
        },
    }
}

fn no_event() -> (r: Vec<EngineEvent>)
    ensures
        tui_events::events(r@) == Seq::<EventView>::empty(),
{
    let r: Vec<EngineEvent> = Vec::new();
    assert(tui_events::events(r@) =~= Seq::<EventView>::empty());
    r
}

fn one_event(e: EngineEvent) -> (r: Vec<EngineEvent>)
    ensures
        tui_events::events(r@) == seq![e@],
{
    let mut r: Vec<EngineEvent> = Vec::new();
    let ghost ev = e@;
    r.push(e);
    assert(tui_events::events(r@) =~= seq![ev]);
    r
}

fn effects_none() -> (r: ToolEffects)
    ensures
        r@ == no_effects(),
{
    ToolEffects { cache_result: false, invalidate: None, post_hook: None, failed_input: None }
}

fn react(action: ToolAction) -> (r: ToolReaction)
    ensures
        r@ == just(action@),
{
    ToolReaction { events: no_event(), grant_all: false, action }
}

fn make_result(call: &CollectedToolUse, content: &str, is_error: Option<bool>) -> (r: ContentBlock)
    ensures
        r@ == result_block(call@, content@, is_error),
{
    ContentBlock::ToolResult {
        tool_use_id: text::copy(call.id.as_str()),
        content: text::copy(content),
        is_error,
    }
}

fn refuse(call: &CollectedToolUse, error: &str, content: &str) -> (r: ToolReaction)
    ensures
        r@ == refused(call@, error@, content@),
{
    let events = one_event(
        EngineEvent::ToolError { name: text::copy(call.name.as_str()), error: text::copy(error) },
    );
    let block = make_result(call, content, Some(true));
    ToolReaction {
        events,
        grant_all: false,
        action: ToolAction::Finish { block: Some(block), effects: effects_none() },
    }
}

fn cacheable(name: &str) -> (r: bool)
    ensures
        r == is_cacheable(name@),
{
    text::same(name, "read") || text::same(name, "glob") || text::same(name, "grep")
}

fn permit(name: &str) -> (r: (ToolPhase, ToolAction))
    ensures
        r.0 == permitted_phase(name@),
        r.1@ == permitted_action(name@),
{
    if cacheable(name) {
        (ToolPhase::Cache, ToolAction::LookUpCache)
    } else {
        (ToolPhase::Tool, ToolAction::Execute)
    }
}

/// Whether an answer, trimmed and in lower case, allows the call, and whether
/// it allows every call to come.
pub fn read_answer(answer: &str) -> (r: (bool, bool))
    ensures
        r == (answer_allows(answer@), answer_allows_all(answer@)),
{
    let all = text::same(answer, "a") || text::same(answer, "all") || text::same(
        answer,
        "always",
    );
    (all || text::same(answer, "y") || text::same(answer, "yes"), all)
}

impl ToolRun {
    /// Start a call whose arguments came to `parsed`.
    pub fn begin_parsed(call: CollectedToolUse, parsed: Result<Json, String>, reply_to: u64) -> (r:
        (ToolRun, ToolReaction))
        ensures
            (r.0@, r.1@) == started(call@, json::parse_view(parsed), reply_to),
    {
        match parsed {
            Ok(input) => {
                let run = ToolRun { call, input, phase: ToolPhase::Hooks, reply_to };
                (run, react(ToolAction::RunPreHooks))
            },
            Err(error) => {
                let events = one_event(
                    EngineEvent::ToolError {
                        name: text::copy(call.name.as_str()),
                        error: text::copy(error.as_str()),
                    },
                );
                let content = text::cat2("Error: ", error.as_str());
                let block = make_result(&call, content.as_str(), Some(true));
                let effects = ToolEffects {
                    cache_result: false,
                    invalidate: None,
                    post_hook: None,
                    failed_input: Some(text::copy(call.input_json.as_str())),
                };
                let run = ToolRun {
                    call,
                    input: Json::empty_object(),
                    phase: ToolPhase::Over,
                    reply_to,
                };
                let reaction = ToolReaction {
                    events,
                    grant_all: false,
                    action: ToolAction::Finish { block: Some(block), effects },
                };
                (run, reaction)
            },
        }
    }

    /// Start a call.
    pub fn begin(call: CollectedToolUse, reply_to: u64) -> (r: (ToolRun, ToolReaction))
        ensures
            (r.0@, r.1@) == started(call@, json_utils::tool_input(call@.input_json), reply_to),
    {
        let parsed = json_utils::parse_tool_input(call.input_json.as_str());
        ToolRun::begin_parsed(call, parsed, reply_to)
    }

    fn decide(&self, d: PermissionDecision) -> (r: (ToolPhase, ToolReaction))
        ensures
            (r.0, r.1@) == decided(self@, d@),
    {
        if d.allowed {
            let (phase, action) = permit(self.call.name.as_str());
            (phase, react(action))
        } else if d.requires_confirmation {
            let detail = tool_exec::format_permission_detail(
                self.call.name.as_str(),
                self.call.input_json.as_str(),
            );
            let events = one_event(
                EngineEvent::PermissionAsk {
                    tool_name: text::copy(self.call.name.as_str()),
                    reason: d.reason,
                    input: detail,
                    reply_to: self.reply_to,
                },
            );
            (
                ToolPhase::Reply,
                ToolReaction { events, grant_all: false, action: ToolAction::AwaitReply },
            )
        } else {
            (ToolPhase::Over, refuse(&self.call, d.reason.as_str(), d.reason.as_str()))
        }
    }

    /// What the user's answer, trimmed and in lower case, leads to.
    pub fn take_answer(&self, answer: &Option<String>) -> (r: (ToolPhase, ToolReaction))
        ensures
            (r.0, r.1@) == answered(self@, text::opt_text(*answer)),
    {
        if let Some(a) = answer {
            let (allowed, all) = read_answer(a.as_str());
            if allowed {
                let (phase, action) = permit(self.call.name.as_str());
                let events = if all {
                    one_event(
                        EngineEvent::Status(
                            text::copy("All permissions granted for this session."),
                        ),
                    )
                } else {
                    no_event()
                };
                return (phase, ToolReaction { events, grant_all: all, action });
            }
        }
        (
            ToolPhase::Over,
            refuse(&self.call, "Permission denied by user.", "Permission denied by user."),
        )
    }

    /// How the call ends with `result`, where the terminal is shown `display`
    /// and `diff`.
    pub fn succeed(&self, result: String, display: String, diff: Option<String>) -> (r:
        ToolReaction)
        ensures
            r@ == succeeded(self@, result@, display@, text::opt_text(diff)),
    {
        let name = self.call.name.as_str();
        let mut events = one_event(
            EngineEvent::ToolOutput { name: text::copy(name), output: display },
        );
        let ghost first = tui_events::events(events@);
        if let Some(d) = diff {
            tui_events::push_event(
                &mut events,
                EngineEvent::ToolDiff { name: text::copy(name), diff: d },
            );
            assert(tui_events::events(events@) =~= seq![
                first[0],
                EngineEvent::<Text>::ToolDiff { name: name@, diff: d@ },
            ]);
        }
        let invalidate = if text::same(name, "write") || text::same(name, "edit") {
            self.input.get_str("path")
        } else {
            None
        };
        let effects = ToolEffects {
            cache_result: cacheable(name),
            invalidate,
            post_hook: Some((text::copy(result.as_str()), false)),
            failed_input: None,
        };
        let block = make_result(&self.call, result.as_str(), None);
        let r = ToolReaction {
            events,
            grant_all: false,
            action: ToolAction::Finish { block: Some(block), effects },
        };
        assert(r@.events =~= succeeded(
            self@,
            result@,
            display@,
            text::opt_text(diff),
        ).events);
        r
    }

    fn fail(&self, error: String) -> (r: ToolReaction)
        ensures
            r@ == failed(self@, error@),
    {
        let events = one_event(
            EngineEvent::ToolError {
                name: text::copy(self.call.name.as_str()),
                error: text::copy(error.as_str()),
            },
        );
        let content = text::cat2("Error: ", error.as_str());
        let block = make_result(&self.call, content.as_str(), Some(true));
        let effects = ToolEffects {
            cache_result: false,
            invalidate: None,
            post_hook: Some((error, true)),
            failed_input: None,
        };
        ToolReaction {
            events,
            grant_all: false,
            action: ToolAction::Finish { block: Some(block), effects },
        }
    }

    fn finish_with(&self, result: String) -> (r: ToolReaction)
        ensures
            r@ == succeeded(
                self@,
                result@,
                result_display(self@.call, result@),
                reported_diff(self@.call.name, tool_display::output_docs(result@).whole),
            ),
    {
        let display = tool_display::summarize_tool_output(
            self.call.name.as_str(),
            result.as_str(),
            self.call.input_json.as_str(),
        );
        let docs = tool_display::read_output(result.as_str());
        let mut diff: Option<String> = None;
        if let Some(doc) = &docs.whole {
            if let Some(d) = doc.get_str("diff") {
                if text::same(self.call.name.as_str(), "edit") && !d.as_str().is_empty() {
                    diff = Some(d);
                }
            }
        }
        self.succeed(result, display, diff)
    }
}

/// Take one call a step further: what an event leads to.
pub fn execute_single_tool_tui(run: &mut ToolRun, event: ToolEvent) -> (r: ToolReaction)
    requires
        awaits(old(run)@.phase, event@),
    ensures
        final(run)@ == (RunView { phase: stepped(old(run)@, event@).0, ..old(run)@ }),
        r@ == stepped(old(run)@, event@).1,
{
    let (phase, reaction) = match event {
        ToolEvent::HooksRan(blocked) => match blocked {
            Some(reason) => (
                ToolPhase::Over,
                refuse(&run.call, reason.as_str(), reason.as_str()),
            ),
            None => (ToolPhase::Validation, react(ToolAction::Validate)),
        },
        ToolEvent::Validated(objection) => match objection {
            Some(error) => {
                let content = text::cat2("Validation error: ", error.as_str());
                (ToolPhase::Over, refuse(&run.call, error.as_str(), content.as_str()))
            },
            None => (ToolPhase::Permission, react(ToolAction::CheckPermission)),
        },
        ToolEvent::AllAllowed => {
            let (phase, action) = permit(run.call.name.as_str());
            (phase, react(action))
        },
        ToolEvent::Decided(d) => run.decide(d),
        ToolEvent::Replied(reply) => {
            let answer = match reply {
                Some(s) => {
                    let t = text::trim(s.as_str());
                    Some(text::to_lower(t.as_str()))
                },
                None => None,
            };
            run.take_answer(&answer)
        },
        ToolEvent::Cancelled => (
            ToolPhase::Over,
            react(ToolAction::Finish { block: None, effects: effects_none() }),
        ),
        ToolEvent::CacheLooked(hit) => match hit {
            Some(cached) => {
                let n = text::count(text::str_bytes(cached.as_str()));
                let events = one_event(
                    EngineEvent::ToolOutput {
                        name: text::copy(run.call.name.as_str()),
                        output: text::cat3("(cached) ", n.as_str(), " chars"),
                    },
                );
                let block = make_result(&run.call, cached.as_str(), None);
                (
                    ToolPhase::Over,
                    ToolReaction {
                        events,
                        grant_all: false,
                        action: ToolAction::Finish { block: Some(block), effects: effects_none() },
                    },
                )
            },
            None => (ToolPhase::Tool, react(ToolAction::Execute)),
        },
        ToolEvent::Executed(outcome) => match outcome {
            Ok(result) => (ToolPhase::Over, run.finish_with(result)),
            Err(error) => (ToolPhase::Over, run.fail(error)),
        },
    };
    run.phase = phase;
    reaction
}

/// The result of a call that came to none.
pub open spec fn missing_result(call: CallView) -> BlockView {
    result_block(
        call,
        "Tool "@ + call.name + " returned no result (internal error)"@,
        Some(true),
    )
}

/// The result of a call, and an error in place of none.
pub fn execute_single_tool_tui_catch(call: &CollectedToolUse, block: Option<ContentBlock>) -> (r: (
    ContentBlock,
    Vec<EngineEvent>,
))
    ensures
        match opt_block(block) {
            Some(b) => r.0@ == b && tui_events::events(r.1@) == Seq::<EventView>::empty(),
            None => r.0@ == missing_result(call@) && tui_events::events(r.1@) == seq![
                EngineEvent::<Text>::ToolError {
                    name: call@.name,
                    error: "Internal error: tool returned no result"@,
                },
            ],
        },
{
    match block {
        Some(b) => (b, no_event()),
        None => {
            let events = one_event(
                EngineEvent::ToolError {
                    name: text::copy(call.name.as_str()),
                    error: text::copy("Internal error: tool returned no result"),
                },
            );
            let content = text::cat3(
                "Tool ",
                call.name.as_str(),
                " returned no result (internal error)",
            );
            (make_result(call, content.as_str(), Some(true)), events)
        },
    }
}

// ---------------------------------------------------------------------------
// Laws
// ---------------------------------------------------------------------------

/// Whether an event permits the call.
pub open spec fn permits(event: ToolEvent<Text>) -> bool {
    match event {
        ToolEvent::AllAllowed => true,
        ToolEvent::Decided(d) => d.allowed,
        ToolEvent::Replied(reply) => match normalized_answer(reply) {
            Some(a) => answer_allows(a),
            None => false,
        },
        _ => false,
    }
}

/// A tool runs, and its cache is looked into, only after the call was permitted:
/// the one way into those two phases is an event that permits it, or the cache
/// that had nothing.
pub proof fn law_nothing_runs_unpermitted(run: RunView, event: ToolEvent<Text>)
    requires
        awaits(run.phase, event),
        stepped(run, event).0 == ToolPhase::Tool || stepped(run, event).0 == ToolPhase::Cache,
    ensures
        permits(event) || (run.phase == ToolPhase::Cache && event is CacheLooked),
        stepped(run, event).1.action == if stepped(run, event).0 == ToolPhase::Tool {
            ToolAction::<Text, JsonView>::Execute
        } else {
            ToolAction::<Text, JsonView>::LookUpCache
        },
{
}

/// A tool is asked to run exactly where the call then waits for it.
pub proof fn law_execute_means_tool_phase(run: RunView, event: ToolEvent<Text>)
    requires
        awaits(run.phase, event),
    ensures
        stepped(run, event).1.action is Execute <==> stepped(run, event).0 == ToolPhase::Tool,
        stepped(run, event).1.action is Finish <==> stepped(run, event).0 == ToolPhase::Over,
{
}

/// Every result answers its own call.
pub proof fn law_results_answer_their_call(run: RunView, event: ToolEvent<Text>)
    requires
        awaits(run.phase, event),
    ensures
        stepped(run, event).1.action matches ToolAction::Finish { block: Some(b), .. } ==> (
        b matches ContentBlock::ToolResult { tool_use_id, .. } && tool_use_id == run.call.id),
{
}

/// A call that was refused, by a hook, the tool, the policy or the user, ends in
/// an error, and nothing of it is cached.
pub proof fn law_refused_calls_end_in_errors(run: RunView, event: ToolEvent<Text>)
    requires
        awaits(run.phase, event),
        stepped(run, event).0 == ToolPhase::Over,
        event is HooksRan || event is Validated || event is Decided || event is Replied,
    ensures
        stepped(run, event).1.action matches ToolAction::Finish { block: Some(b), effects } && (
        b matches ContentBlock::ToolResult { is_error, .. } && is_error == Some(true))
            && !effects.cache_result && effects.post_hook is None,
{
}

/// The model gets what the tool gave back, whole and unchanged, whatever the tool and
/// whatever the terminal is shown; so do the hooks after it. It is kept for the same call
/// where the tool only reads.
pub proof fn law_model_gets_what_the_tool_gave(run: RunView, output: Text)
    ensures
        ({
            let (phase, next) = stepped(run, ToolEvent::Executed(Ok(output)));
            &&& phase == ToolPhase::Over
            &&& !next.grant_all
            &&& next.action matches ToolAction::Finish { block: Some(b), effects } && b == (
            ContentBlock::<Text, JsonView>::ToolResult {
                tool_use_id: run.call.id,
                content: output,
                is_error: None,
            }) && effects.post_hook == Some((output, false)) && effects.failed_input is None
                && effects.cache_result == (run.call.name == "read"@ || run.call.name == "glob"@
                || run.call.name == "grep"@)
        }),
{
}

/// A write or an edit makes what was kept of its path stale, and nothing else does.
pub proof fn law_changes_make_the_cache_stale(run: RunView, output: Text)
    ensures
        stepped(run, ToolEvent::Executed(Ok(output))).1.action matches ToolAction::Finish {
            effects,
            ..
        } && effects.invalidate == if run.call.name == "write"@ || run.call.name == "edit"@ {
            json::str_member(run.input, "path"@)
        } else {
            None
        },
{
}

/// The model is told that a tool failed, and why; nothing of it is kept, and the hooks
/// after it hear the error.
pub proof fn law_model_hears_why_the_tool_failed(run: RunView, error: Text)
    ensures
        ({
            let (phase, next) = stepped(run, ToolEvent::Executed(Err(error)));
            &&& phase == ToolPhase::Over
            &&& next.events == seq![
                EngineEvent::<Text>::ToolError { name: run.call.name, error },
            ]
            &&& next.action matches ToolAction::Finish { block: Some(b), effects } && (
            b matches ContentBlock::ToolResult { tool_use_id, content, is_error } && tool_use_id
                == run.call.id && text::has_suffix(content, error) && is_error == Some(true))
                && effects.post_hook == Some((error, true)) && !effects.cache_result
                && effects.invalidate is None
        }),
{
    let content = "Error: "@ + error;
    let at = content.len() - error.len();
    assert(content.subrange(at, content.len() as int) =~= error);
    assert(text::occurs_at(content, error, at));
}

/// A result that was kept is given to the model as it was, and the tool does not run
/// again; where nothing was kept, the tool runs.
pub proof fn law_kept_results_come_back(run: RunView, kept: Text)
    ensures
        ({
            let (phase, next) = stepped(run, ToolEvent::CacheLooked(Some(kept)));
            &&& phase == ToolPhase::Over
            &&& next.action matches ToolAction::Finish { block: Some(b), .. } && b == (
            ContentBlock::<Text, JsonView>::ToolResult {
                tool_use_id: run.call.id,
                content: kept,
                is_error: None,
            })
        }),
        stepped(run, ToolEvent::CacheLooked(None)).0 == ToolPhase::Tool,
        stepped(run, ToolEvent::CacheLooked(None)).1.action is Execute,
{
}

/// The model and the user are told the reason for which a call is refused: that of the
/// hook, of the tool's own check, or of the policy.
pub proof fn law_refusals_give_their_reason(run: RunView, reason: Text)
    ensures
        ({
            let (phase, next) = stepped(run, ToolEvent::HooksRan(Some(reason)));
            &&& phase == ToolPhase::Over
            &&& next.action matches ToolAction::Finish { block: Some(b), .. } && (
            b matches ContentBlock::ToolResult { content, is_error, .. } && content == reason
                && is_error == Some(true))
            &&& next.events == seq![
                EngineEvent::<Text>::ToolError { name: run.call.name, error: reason },
            ]
        }),
        ({
            let (phase, next) = stepped(run, ToolEvent::Validated(Some(reason)));
            &&& phase == ToolPhase::Over
            &&& next.action matches ToolAction::Finish { block: Some(b), .. } && (
            b matches ContentBlock::ToolResult { content, is_error, .. } && text::has_suffix(
                content,
                reason,
            ) && is_error == Some(true))
            &&& next.events == seq![
                EngineEvent::<Text>::ToolError { name: run.call.name, error: reason },
            ]
        }),
        ({
            let no = PermissionDecision { allowed: false, requires_confirmation: false, reason };
            let (phase, next) = stepped(run, ToolEvent::Decided(no));
            &&& phase == ToolPhase::Over
            &&& next.action matches ToolAction::Finish { block: Some(b), .. } && (
            b matches ContentBlock::ToolResult { content, is_error, .. } && content == reason
                && is_error == Some(true))
            &&& next.events == seq![
                EngineEvent::<Text>::ToolError { name: run.call.name, error: reason },
            ]
        }),
{
    let content = "Validation error: "@ + reason;
    let at = content.len() - reason.len();
    assert(content.subrange(at, content.len() as int) =~= reason);
    assert(text::occurs_at(content, reason, at));
}

/// A call that no one objects to goes on: from the hooks to the tool's own check, from
/// there to the policy, and where that asks, to the user, who is told what is asked. One
/// that is permitted runs, unless a result of the same call may have been kept.
pub proof fn law_unopposed_calls_go_on(run: RunView, d: PermissionDecision<Text>)
    ensures
        stepped(run, ToolEvent::HooksRan(None)).1.action is Validate,
        stepped(run, ToolEvent::Validated(None)).1.action is CheckPermission,
        d.allowed ==> stepped(run, ToolEvent::Decided(d)) == stepped(run, ToolEvent::AllAllowed),
        !d.allowed && d.requires_confirmation ==> {
            let (phase, next) = stepped(run, ToolEvent::Decided(d));
            &&& phase == ToolPhase::Reply
            &&& next.action is AwaitReply
            &&& next.events.len() == 1
            &&& next.events[0] matches EngineEvent::PermissionAsk {
                tool_name,
                reason,
                reply_to,
                ..
            } && tool_name == run.call.name && reason == d.reason && reply_to == run.reply_to
        },
        stepped(run, ToolEvent::AllAllowed).1.action == if run.call.name == "read"@
            || run.call.name == "glob"@ || run.call.name == "grep"@ {
            ToolAction::<Text, JsonView>::LookUpCache
        } else {
            ToolAction::<Text, JsonView>::Execute
        },
        !stepped(run, ToolEvent::AllAllowed).1.grant_all,
{
}

/// The user's word decides: yes lets the call go on, all or always lets every call to
/// come go on too, anything else, and no answer, is a refusal.
pub proof fn law_the_users_word_decides(run: RunView, reply: Text)
    ensures
        ({
            let word = text::lowercased(text::trimmed(reply));
            let all = word == "a"@ || word == "all"@ || word == "always"@;
            let yes = word == "y"@ || word == "yes"@ || all;
            let (phase, next) = stepped(run, ToolEvent::Replied(Some(reply)));
            &&& next.grant_all == all
            &&& yes ==> next.action == stepped(run, ToolEvent::AllAllowed).1.action && phase
                == stepped(run, ToolEvent::AllAllowed).0
            &&& !yes ==> phase == ToolPhase::Over && (next.action matches ToolAction::Finish {
                block: Some(b),
                ..
            } && (b matches ContentBlock::ToolResult { is_error, .. } && is_error == Some(true)))
        }),
        stepped(run, ToolEvent::Replied(None)).0 == ToolPhase::Over,
        !stepped(run, ToolEvent::Replied(None)).1.grant_all,
        stepped(run, ToolEvent::Cancelled).1.action matches ToolAction::Finish {
            block: None,
            ..
        },
{
}

/// Arguments that can be read lead to the hooks, and the tool gets them as they are; of
/// those that cannot, the model and the user are told why, and what was sent is handed on.
pub proof fn law_arguments_are_read_first(
    call: CallView,
    parsed: Result<JsonView, Text>,
    reply_to: u64,
)
    ensures
        ({
            let (run, next) = started(call, parsed, reply_to);
            &&& run.call == call
            &&& run.reply_to == reply_to
            &&& match parsed {
                Ok(input) => run.input == input && run.phase == ToolPhase::Hooks && next.action
                    is RunPreHooks && next.events.len() == 0,
                Err(error) => run.phase == ToolPhase::Over && next.events == seq![
                    EngineEvent::<Text>::ToolError { name: call.name, error },
                ] && (next.action matches ToolAction::Finish { block: Some(b), effects } && (
                b matches ContentBlock::ToolResult { tool_use_id, content, is_error }
                    && tool_use_id == call.id && text::has_suffix(content, error) && is_error
                    == Some(true)) && effects.failed_input == Some(call.input_json)),
            }
        }),
{
    if let Err(error) = parsed {
        let content = "Error: "@ + error;
        assert(content.subrange(content.len() - error.len(), content.len() as int) =~= error);
    }
}

/// A call that came back with nothing is answered all the same: with an error, under the
/// call's own id, that names the tool.
pub proof fn law_no_call_goes_unanswered(call: CallView)
    ensures
        missing_result(call) matches ContentBlock::ToolResult { tool_use_id, content, is_error }
            && tool_use_id == call.id && is_error == Some(true) && text::has_substring(
            content,
            call.name,
        ),
{
    text::lemma_stands_between("Tool "@, call.name, " returned no result (internal error)"@);
}

} // verus!
