//! The conversation of a sub-agent, from its goal to its result.
//!
//! What only the outside can do is named by a `SubAgentAction`; what came of it
//! is handed back as a `SubAgentInput`.

use crate::api;
use crate::api::BlockView;
use crate::api::ContentBlock;
use crate::api::Role;
use crate::api::StreamEvent;
use crate::api::Usage;
use crate::engine::messages;
use crate::engine::messages::ConversationHistory;
use crate::engine::messages::EntryView;
use crate::engine::query::stream;
use crate::engine::query::stream::StreamState;
use crate::engine::query::stream::StreamView;
use crate::engine::query::tool_exec;
use crate::engine::query::tool_exec::CallView;
use crate::engine::sub_agent;
use crate::json;
use crate::json::Json;
use crate::json::JsonView;
use crate::text;
use crate::text::Text;
use vstd::prelude::*;
use vstd::string::*;

verus! {

// ---------------------------------------------------------------------------
// Results and events
// ---------------------------------------------------------------------------

/// The tokens that a sub-agent took.
#[derive(Clone, Copy, PartialEq, Eq, Structural)]
pub struct SubAgentTokenUsage {
    pub input_tokens: u64,
    pub output_tokens: u64,
}

impl Default for SubAgentTokenUsage {
    fn default() -> (r: SubAgentTokenUsage)
        ensures
            r == (SubAgentTokenUsage { input_tokens: 0, output_tokens: 0 }),
    {
        SubAgentTokenUsage { input_tokens: 0, output_tokens: 0 }
    }
}

/// One call of a sub-agent.
pub struct ToolTraceEntry<S = String> {
    pub tool: S,
    pub args_bytes: usize,
    pub result_bytes: usize,
    pub is_error: bool,
}

impl View for ToolTraceEntry<String> {
    type V = ToolTraceEntry<Text>;

    open spec fn view(&self) -> ToolTraceEntry<Text> {
        ToolTraceEntry {
            tool: self.tool@,
            args_bytes: self.args_bytes,
            result_bytes: self.result_bytes,
            is_error: self.is_error,
        }
    }
}

/// What a list of calls holds.
pub open spec fn trace_view(v: Seq<ToolTraceEntry>) -> Seq<ToolTraceEntry<Text>> {
    Seq::new(v.len(), |i: int| v[i]@)
}

/// What a sub-agent came to.
pub struct SubAgentResult {
    pub summary: String,
    /// Turns that it took.
    pub api_calls: u32,
    /// `completed`, `max_turns`, `interrupted`, `timeout` or `error`.
    pub exit_reason: String,
    pub tokens: SubAgentTokenUsage,
    pub tool_trace: Vec<ToolTraceEntry>,
    pub interrupted: bool,
    pub error: Option<String>,
    /// The seconds that it took, with one decimal.
    pub duration_seconds: String,
    /// Files that it created or changed.
    pub modified_files: Vec<String>,
}

/// What a `SubAgentResult` holds.
#[verifier::ext_equal]
pub struct ResultView {
    pub summary: Text,
    pub api_calls: u32,
    pub exit_reason: Text,
    pub tokens: SubAgentTokenUsage,
    pub tool_trace: Seq<ToolTraceEntry<Text>>,
    pub interrupted: bool,
    pub error: Option<Text>,
    pub duration_seconds: Text,
    pub modified_files: Seq<Text>,
}

impl View for SubAgentResult {
    type V = ResultView;

    open spec fn view(&self) -> ResultView {
        ResultView {
            summary: self.summary@,
            api_calls: self.api_calls,
            exit_reason: self.exit_reason@,
            tokens: self.tokens,
            tool_trace: trace_view(self.tool_trace@),
            interrupted: self.interrupted,
            error: text::opt_text(self.error),
            duration_seconds: self.duration_seconds@,
            modified_files: text::texts(self.modified_files@),
        }
    }
}

impl ToolTraceEntry<String> {
    /// The same call.
    pub fn copy(&self) -> (r: ToolTraceEntry<String>)
        ensures
            r@ == self@,
    {
        ToolTraceEntry {
            tool: text::copy(self.tool.as_str()),
            args_bytes: self.args_bytes,
            result_bytes: self.result_bytes,
            is_error: self.is_error,
        }
    }
}

impl SubAgentResult {
    /// The same result.
    pub fn copy(&self) -> (r: SubAgentResult)
        ensures
            r@ == self@,
    {
        let mut tool_trace: Vec<ToolTraceEntry> = Vec::new();
        let mut i: usize = 0;
        while i < self.tool_trace.len()
            invariant
                i <= self.tool_trace@.len(),
                tool_trace@.len() == i,
                forall|k: int| 0 <= k < i ==> (#[trigger] tool_trace@[k])@ == self.tool_trace@[k]@,
            decreases self.tool_trace@.len() - i,
        {
            tool_trace.push(self.tool_trace[i].copy());
            i = i + 1;
        }
        assert(trace_view(tool_trace@) =~= trace_view(self.tool_trace@));
        SubAgentResult {
            summary: text::copy(self.summary.as_str()),
            api_calls: self.api_calls,
            exit_reason: text::copy(self.exit_reason.as_str()),
            tokens: self.tokens,
            tool_trace,
            interrupted: self.interrupted,
            error: text::copy_opt(&self.error),
            duration_seconds: text::copy(self.duration_seconds.as_str()),
            modified_files: text::copy_all(&self.modified_files),
        }
    }
}

/// What a sub-agent tells while it works.
pub enum SubAgentEvent {
    Started { task_index: usize, goal: String, tools: Vec<String> },
    Thinking { task_index: usize, text: String },
    ToolStarted { task_index: usize, tool: String, input_summary: String },
    ToolCompleted { task_index: usize, tool: String, result_bytes: usize, is_error: bool },
    Status { task_index: usize, message: String },
    Completed { task_index: usize, result: SubAgentResult },
}

/// What a `SubAgentEvent` holds.
pub enum SubEventView {
    Started { task_index: usize, goal: Text, tools: Seq<Text> },
    Thinking { task_index: usize, text: Text },
    ToolStarted { task_index: usize, tool: Text, input_summary: Text },
    ToolCompleted { task_index: usize, tool: Text, result_bytes: usize, is_error: bool },
    Status { task_index: usize, message: Text },
    Completed { task_index: usize, result: ResultView },
}

impl View for SubAgentEvent {
    type V = SubEventView;

    open spec fn view(&self) -> SubEventView {
        match *self {
            SubAgentEvent::Started { task_index, goal, tools } => SubEventView::Started {
                task_index,
                goal: goal@,
                tools: text::texts(tools@),
            },
            SubAgentEvent::Thinking { task_index, text } => SubEventView::Thinking {
                task_index,
                text: text@,
            },
            SubAgentEvent::ToolStarted {
                task_index,
                tool,
                input_summary,
            } => SubEventView::ToolStarted {
                task_index,
                tool: tool@,
                input_summary: input_summary@,
            },
            SubAgentEvent::ToolCompleted {
                task_index,
                tool,
                result_bytes,
                is_error,
            } => SubEventView::ToolCompleted { task_index, tool: tool@, result_bytes, is_error },
            SubAgentEvent::Status { task_index, message } => SubEventView::Status {
                task_index,
                message: message@,
            },
            SubAgentEvent::Completed { task_index, result } => SubEventView::Completed {
                task_index,
                result: result@,
            },
        }
    }
}

/// What a list of events holds.
pub open spec fn sub_events(v: Seq<SubAgentEvent>) -> Seq<SubEventView> {
    Seq::new(v.len(), |i: int| v[i]@)
}

/// No calls.
pub open spec fn no_trace() -> Seq<ToolTraceEntry<Text>> {
    Seq::empty()
}

/// The result of a task that was never finished: interrupted, or with an error.
pub open spec fn unfinished(error: Option<Text>) -> ResultView {
    ResultView {
        summary: Seq::empty(),
        api_calls: 0,
        exit_reason: if error is Some {
            "error"@
        } else {
            "interrupted"@
        },
        tokens: SubAgentTokenUsage { input_tokens: 0, output_tokens: 0 },
        tool_trace: no_trace(),
        interrupted: error is None,
        error,
        duration_seconds: "0.0"@,
        modified_files: Seq::empty(),
    }
}

/// The result of a task in a batch that came to no result of its own: it was
/// interrupted, or it broke down with `error`.
pub fn unfinished_result(error: Option<String>) -> (r: SubAgentResult)
    ensures
        r@ == unfinished(text::opt_text(error)),
{
    let failed = error.is_some();
    let r = SubAgentResult {
        summary: String::new(),
        api_calls: 0,
        exit_reason: if failed {
            text::copy("error")
        } else {
            text::copy("interrupted")
        },
        tokens: SubAgentTokenUsage::default(),
        tool_trace: Vec::new(),
        interrupted: !failed,
        error,
        duration_seconds: text::copy("0.0"),
        modified_files: Vec::new(),
    };
    assert(r@.tool_trace =~= no_trace());
    assert(r@.modified_files =~= Seq::<Text>::empty());
    r
}

/// The result of a sub-agent that got no client.
pub open spec fn without_client(error: Text, elapsed: Text) -> ResultView {
    ResultView {
        error: Some("Failed to create sub-agent client: "@ + error),
        exit_reason: "error"@,
        interrupted: false,
        duration_seconds: elapsed,
        ..unfinished(None)
    }
}

/// The result of a sub-agent that got no client, after `elapsed` seconds.
pub fn no_client_result(error: &sub_agent::SubAgentError, elapsed: &str) -> (r: SubAgentResult)
    ensures
        r@ == without_client(sub_agent::error_text(error@), elapsed@),
{
    let e = error.message();
    let r = SubAgentResult {
        summary: String::new(),
        api_calls: 0,
        exit_reason: text::copy("error"),
        tokens: SubAgentTokenUsage::default(),
        tool_trace: Vec::new(),
        interrupted: false,
        error: Some(text::cat2("Failed to create sub-agent client: ", e.as_str())),
        duration_seconds: text::copy(elapsed),
        modified_files: Vec::new(),
    };
    assert(r@.tool_trace =~= no_trace());
    assert(r@.modified_files =~= Seq::<Text>::empty());
    r
}

/// What a sub-agent tells first.
pub fn starting_event(task_index: usize) -> (r: SubAgentEvent)
    ensures
        r@ == (SubEventView::Status { task_index, message: "Starting..."@ }),
{
    SubAgentEvent::Status { task_index, message: text::copy("Starting...") }
}

// ---------------------------------------------------------------------------
// The state of a sub-agent
// ---------------------------------------------------------------------------

/// What a sub-agent may do.
#[derive(Clone, Copy, PartialEq, Eq, Structural)]
pub struct SubAgentLimits {
    pub max_turns: u32,
    pub max_auto_continue: u32,
}

/// What a sub-agent waits for.
#[derive(Clone, Copy, PartialEq, Eq, Structural)]
pub enum SubAgentPhase {
    /// The start of a turn.
    Top,
    /// The stream of a request.
    Opening,
    /// The pieces of the reply.
    Streaming,
    /// The word that the next tool may run.
    BeforeTool,
    /// The result of a tool.
    Tool,
    /// Nothing: it is over.
    Over,
}

/// A sub-agent at work.
pub struct SubAgentRun {
    pub task_index: usize,
    pub allowed_tools: Vec<String>,
    pub limits: SubAgentLimits,
    /// The seconds after which it is given up.
    pub timeout_label: String,
    pub history: ConversationHistory,
    pub turn: u32,
    pub auto_continue: u32,
    pub tokens: SubAgentTokenUsage,
    pub tool_trace: Vec<ToolTraceEntry>,
    pub modified_files: Vec<String>,
    pub has_executed_tools: bool,
    pub stream: StreamState,
    /// The next call of the reply.
    pub next_call: usize,
    /// Results of the calls before it.
    pub results: Vec<ContentBlock>,
    /// Whether the text of the reply was told.
    pub announced: bool,
    pub phase: SubAgentPhase,
}

/// What a `SubAgentRun` holds.
#[verifier::ext_equal]
pub struct SubView {
    pub task_index: usize,
    pub allowed_tools: Seq<Text>,
    pub limits: SubAgentLimits,
    pub timeout_label: Text,
    pub history: Seq<EntryView>,
    pub turn: u32,
    pub auto_continue: u32,
    pub tokens: SubAgentTokenUsage,
    pub tool_trace: Seq<ToolTraceEntry<Text>>,
    pub modified_files: Seq<Text>,
    pub has_executed_tools: bool,
    pub stream: StreamView,
    pub next_call: usize,
    pub results: Seq<BlockView>,
    pub announced: bool,
    pub phase: SubAgentPhase,
}

impl View for SubAgentRun {
    type V = SubView;

    open spec fn view(&self) -> SubView {
        SubView {
            task_index: self.task_index,
            allowed_tools: text::texts(self.allowed_tools@),
            limits: self.limits,
            timeout_label: self.timeout_label@,
            history: self.history@,
            turn: self.turn,
            auto_continue: self.auto_continue,
            tokens: self.tokens,
            tool_trace: trace_view(self.tool_trace@),
            modified_files: text::texts(self.modified_files@),
            has_executed_tools: self.has_executed_tools,
            stream: self.stream@,
            next_call: self.next_call,
            results: api::blocks(self.results@),
            announced: self.announced,
            phase: self.phase,
        }
    }
}

/// What came of an action.
pub enum SubAgentInput<S = String> {
    /// A turn may start, unless the sub-agent was cancelled or took too long.
    Top { cancelled: bool, timed_out: bool },
    Opened,
    /// No stream could be opened, with the error in words.
    OpenFailed(S),
    Piece(StreamEvent<S>),
    StreamEnded,
    StreamFailed,
    /// The sub-agent was cancelled while it waited for pieces.
    Cancelled,
    /// The next tool may run, unless the sub-agent was cancelled.
    BeforeTool { cancelled: bool },
    ToolRan(Result<S, S>),
}

impl View for SubAgentInput<String> {
    type V = SubAgentInput<Text>;

    open spec fn view(&self) -> SubAgentInput<Text> {
        match *self {
            SubAgentInput::Top { cancelled, timed_out } => SubAgentInput::Top {
                cancelled,
                timed_out,
            },
            SubAgentInput::Opened => SubAgentInput::Opened,
            SubAgentInput::OpenFailed(s) => SubAgentInput::OpenFailed(s@),
            SubAgentInput::Piece(e) => SubAgentInput::Piece(e@),
            SubAgentInput::StreamEnded => SubAgentInput::StreamEnded,
            SubAgentInput::StreamFailed => SubAgentInput::StreamFailed,
            SubAgentInput::Cancelled => SubAgentInput::Cancelled,
            SubAgentInput::BeforeTool { cancelled } => SubAgentInput::BeforeTool { cancelled },
            SubAgentInput::ToolRan(r) => SubAgentInput::ToolRan(
                match r {
                    Ok(s) => Ok(s@),
                    Err(e) => Err(e@),
                },
            ),
        }
    }
}

/// What is to be done outside.
pub enum SubAgentAction {
    /// Make the request.
    Open,
    /// Read on.
    Read,
    /// Go on to the next turn.
    NextTurn,
    /// Wait half a second and go on to the next turn.
    Pause,
    /// Look whether the sub-agent was cancelled before the next tool runs.
    ConfirmTool,
    /// Run a tool with its arguments as they came.
    RunTool { name: String, input_json: String },
    /// The sub-agent is over. Its tokens are to be added to the parent's where
    /// `absorb` holds.
    Finish { result: SubAgentResult, absorb: bool },
}

/// What a `SubAgentAction` holds.
pub enum SubActionView {
    Open,
    Read,
    NextTurn,
    Pause,
    ConfirmTool,
    RunTool { name: Text, input_json: Text },
    Finish { result: ResultView, absorb: bool },
}

impl View for SubAgentAction {
    type V = SubActionView;

    open spec fn view(&self) -> SubActionView {
        match *self {
            SubAgentAction::Open => SubActionView::Open,
            SubAgentAction::Read => SubActionView::Read,
            SubAgentAction::NextTurn => SubActionView::NextTurn,
            SubAgentAction::Pause => SubActionView::Pause,
            SubAgentAction::ConfirmTool => SubActionView::ConfirmTool,
            SubAgentAction::RunTool { name, input_json } => SubActionView::RunTool {
                name: name@,
                input_json: input_json@,
            },
            SubAgentAction::Finish { result, absorb } => SubActionView::Finish {
                result: result@,
                absorb,
            },
        }
    }
}

/// A sub-agent, what it tells, and what is next.
#[verifier::ext_equal]
pub struct SubStep {
    pub run: SubView,
    pub told: Seq<SubEventView>,
    pub action: SubActionView,
}

// ---------------------------------------------------------------------------
// How a sub-agent ends
// ---------------------------------------------------------------------------

/// A sub-agent that was stopped: interrupted, or given up after too long.
pub open spec fn cut_short(run: SubView, timed_out: bool, elapsed: Text) -> SubStep {
    SubStep {
        run: SubView { phase: SubAgentPhase::Over, ..run },
        told: Seq::empty(),
        action: SubActionView::Finish {
            result: ResultView {
                summary: Seq::empty(),
                api_calls: run.turn,
                exit_reason: if timed_out {
                    "timeout"@
                } else {
                    "interrupted"@
                },
                tokens: run.tokens,
                tool_trace: run.tool_trace,
                interrupted: !timed_out,
                error: if timed_out {
                    Some("Sub-agent timed out after "@ + run.timeout_label + "s"@)
                } else {
                    None
                },
                duration_seconds: elapsed,
                modified_files: Seq::empty(),
            },
            absorb: false,
        },
    }
}

/// What the parent is told of files that were changed.
pub open spec fn file_warning(files: Seq<Text>) -> Text {
    if files.len() > 0 {
        "\n\n[NOTE: sub-agent modified files: "@ + text::joined(files, ", "@)
            + ". Re-read them before editing.]"@
    } else {
        Seq::empty()
    }
}

/// A sub-agent that is done or out of turns.
pub open spec fn completed(run: SubView, elapsed: Text) -> SubStep {
    SubStep {
        run: SubView { phase: SubAgentPhase::Over, ..run },
        told: seq![
            SubEventView::Status {
                task_index: run.task_index,
                message: "Completed in "@ + elapsed + "s, "@ + text::decimal(run.turn as nat)
                    + " API calls"@,
            },
        ],
        action: SubActionView::Finish {
            result: ResultView {
                summary: sub_agent::conversation_result(run.history) + file_warning(
                    run.modified_files,
                ),
                api_calls: run.turn,
                exit_reason: if run.turn >= run.limits.max_turns {
                    "max_turns"@
                } else {
                    "completed"@
                },
                tokens: run.tokens,
                tool_trace: run.tool_trace,
                interrupted: false,
                error: None,
                duration_seconds: elapsed,
                modified_files: run.modified_files,
            },
            absorb: run.tokens.input_tokens > 0 || run.tokens.output_tokens > 0,
        },
    }
}

// ---------------------------------------------------------------------------
// Turns
// ---------------------------------------------------------------------------

/// The start of a turn: a request, or the end.
pub open spec fn sub_turn(run: SubView, elapsed: Text) -> SubStep {
    let next = SubView { turn: (run.turn + 1) as u32, ..run };
    if next.turn > run.limits.max_turns {
        completed(next, elapsed)
    } else {
        SubStep {
            run: SubView {
                history: messages::sanitized(run.history),
                stream: stream::nothing_streamed(),
                phase: SubAgentPhase::Opening,
                ..next
            },
            told: Seq::empty(),
            action: SubActionView::Open,
        }
    }
}

/// A pause before the next turn, with word of why.
pub open spec fn paused(run: SubView, message: Text) -> SubStep {
    SubStep {
        run: SubView { phase: SubAgentPhase::Top, ..run },
        told: seq![SubEventView::Status { task_index: run.task_index, message }],
        action: SubActionView::Pause,
    }
}

/// The sub-agent is asked to go on.
pub open spec fn sub_continued(run: SubView, message: Text, prompt: Text) -> SubStep {
    SubStep {
        run: SubView {
            auto_continue: (run.auto_continue + 1) as u32,
            history: run.history.push(messages::text_entry(Role::User, prompt)),
            phase: SubAgentPhase::Top,
            ..run
        },
        told: seq![SubEventView::Status { task_index: run.task_index, message }],
        action: SubActionView::NextTurn,
    }
}

/// The tool calls of a reply as blocks.
pub open spec fn sub_call_blocks(tus: Seq<CallView>) -> Seq<BlockView> {
    tus.map_values(
        |t: CallView|
            ContentBlock::<Text, JsonView>::ToolUse {
                id: t.id,
                name: t.name,
                input: sub_agent::parsed_or_empty(t.input_json),
            },
    )
}

/// The entry of a reply.
pub open spec fn sub_reply(st: StreamView) -> EntryView {
    EntryView {
        role: Role::Assistant,
        content: (if text::is_blank(st.text) {
            Seq::empty()
        } else {
            seq![ContentBlock::<Text, JsonView>::Text { text: st.text }]
        }) + sub_call_blocks(st.calls),
        reasoning_content: if st.reasoning.len() == 0 {
            None
        } else {
            Some(st.reasoning)
        },
    }
}

/// What is told of calls that start.
pub open spec fn sub_starts(task_index: usize, tus: Seq<CallView>) -> Seq<SubEventView> {
    tus.map_values(
        |t: CallView|
            SubEventView::ToolStarted {
                task_index,
                tool: t.name,
                input_summary: sub_agent::call_summary(
                    t.name,
                    sub_agent::parsed_or_empty(t.input_json),
                ),
            },
    )
}

/// What a reply leads to. Text alone is the end once tools have run; before
/// that, and where nothing came, the sub-agent is asked to go on.
pub open spec fn sub_responded(run: SubView, elapsed: Text) -> SubStep {
    let st = stream::flushed(run.stream);
    let next = SubView { stream: st, ..run };
    let more = run.auto_continue < run.limits.max_auto_continue;
    if text::is_blank(st.text) && st.calls.len() == 0 {
        if more {
            sub_continued(
                next,
                "Empty response, continuing..."@,
                "Please continue with your task."@,
            )
        } else {
            completed(next, elapsed)
        }
    } else {
        let heard = SubView { history: run.history.push(sub_reply(st)), ..next };
        if st.calls.len() == 0 {
            if !run.has_executed_tools && more {
                sub_continued(
                    heard,
                    "Continuing..."@,
                    "Please complete your task and provide a summary of what you did."@,
                )
            } else {
                completed(heard, elapsed)
            }
        } else {
            SubStep {
                run: SubView {
                    has_executed_tools: true,
                    next_call: 0,
                    results: Seq::empty(),
                    announced: false,
                    phase: SubAgentPhase::BeforeTool,
                    ..heard
                },
                told: sub_starts(run.task_index, st.calls),
                action: SubActionView::ConfirmTool,
            }
        }
    }
}

/// The call after this one, or the next turn where it was the last.
pub open spec fn call_over(
    run: SubView,
    block: BlockView,
    trace: ToolTraceEntry<Text>,
    files: Seq<Text>,
    before: Seq<SubEventView>,
) -> SubStep {
    let results = run.results.push(block);
    let next = SubView {
        results,
        tool_trace: run.tool_trace.push(trace),
        modified_files: run.modified_files + files,
        next_call: (run.next_call + 1) as usize,
        ..run
    };
    let told = before.push(
        SubEventView::ToolCompleted {
            task_index: run.task_index,
            tool: trace.tool,
            result_bytes: trace.result_bytes,
            is_error: trace.is_error,
        },
    );
    if next.next_call < run.stream.calls.len() {
        SubStep {
            run: SubView { phase: SubAgentPhase::BeforeTool, ..next },
            told,
            action: SubActionView::ConfirmTool,
        }
    } else {
        SubStep {
            run: SubView {
                history: run.history.push(messages::plain_entry(Role::User, results)),
                phase: SubAgentPhase::Top,
                ..next
            },
            told,
            action: SubActionView::NextTurn,
        }
    }
}

/// The next call runs, where its tool is allowed.
pub open spec fn call_ready(run: SubView, cancelled: bool, elapsed: Text) -> SubStep {
    let call = run.stream.calls[run.next_call as int];
    if cancelled {
        cut_short(run, false, elapsed)
    } else if !run.allowed_tools.contains(call.name) {
        call_over(
            run,
            ContentBlock::ToolResult {
                tool_use_id: call.id,
                content: "Tool '"@ + call.name
                    + "' is not available to sub-agents. Allowed tools: "@ + text::joined(
                    run.allowed_tools,
                    ", "@,
                ),
                is_error: Some(true),
            },
            ToolTraceEntry {
                tool: call.name,
                args_bytes: text::byte_len(call.input_json) as usize,
                result_bytes: 0,
                is_error: true,
            },
            Seq::empty(),
            Seq::empty(),
        )
    } else {
        let speak = !run.announced && !text::is_blank(run.stream.text);
        SubStep {
            run: SubView {
                announced: run.announced || speak,
                phase: SubAgentPhase::Tool,
                ..run
            },
            told: if speak {
                seq![
                    SubEventView::Thinking { task_index: run.task_index, text: run.stream.text },
                ]
            } else {
                Seq::empty()
            },
            action: SubActionView::RunTool { name: call.name, input_json: call.input_json },
        }
    }
}

/// The file that a call changed, from its parsed arguments.
pub open spec fn changed_file(name: Text, input: JsonView, is_error: bool) -> Seq<Text> {
    match json::str_member(input, "path"@) {
        Some(p) => if !is_error && (name == "write"@ || name == "edit"@) {
            seq![p]
        } else {
            Seq::empty()
        },
        None => Seq::empty(),
    }
}

/// What a tool gave back, as a result.
pub open spec fn outcome_text(outcome: Result<Text, Text>) -> Text {
    match outcome {
        Ok(output) => output,
        Err(e) => "Tool execution error: "@ + e,
    }
}

/// A tool has run.
pub open spec fn call_ran(run: SubView, outcome: Result<Text, Text>) -> SubStep {
    let call = run.stream.calls[run.next_call as int];
    let content = outcome_text(outcome);
    call_over(
        run,
        ContentBlock::ToolResult {
            tool_use_id: call.id,
            content,
            is_error: if outcome is Err {
                Some(true)
            } else {
                None
            },
        },
        ToolTraceEntry {
            tool: call.name,
            args_bytes: text::byte_len(call.input_json) as usize,
            result_bytes: text::byte_len(content) as usize,
            is_error: outcome is Err,
        },
        changed_file(call.name, sub_agent::parsed_or_empty(call.input_json), outcome is Err),
        Seq::empty(),
    )
}

/// The tokens with those of one more request.
pub open spec fn plus_usage(t: SubAgentTokenUsage, u: Option<Usage>) -> SubAgentTokenUsage {
    match u {
        Some(u) => SubAgentTokenUsage {
            input_tokens: (t.input_tokens + u.input_tokens) as u64,
            output_tokens: (t.output_tokens + u.output_tokens) as u64,
        },
        None => t,
    }
}

/// Whether an input is what a sub-agent waits for.
pub open spec fn sub_awaits(run: SubView, input: SubAgentInput<Text>) -> bool {
    match input {
        SubAgentInput::Top { .. } => run.phase == SubAgentPhase::Top,
        SubAgentInput::Opened => run.phase == SubAgentPhase::Opening,
        SubAgentInput::OpenFailed(_) => run.phase == SubAgentPhase::Opening,
        SubAgentInput::Piece(_) => run.phase == SubAgentPhase::Streaming,
        SubAgentInput::StreamEnded => run.phase == SubAgentPhase::Streaming,
        SubAgentInput::StreamFailed => run.phase == SubAgentPhase::Streaming,
        SubAgentInput::Cancelled => run.phase == SubAgentPhase::Streaming,
        SubAgentInput::BeforeTool { .. } => run.phase == SubAgentPhase::BeforeTool,
        SubAgentInput::ToolRan(_) => run.phase == SubAgentPhase::Tool,
    }
}

/// Whether a sub-agent that is about to run a tool, or runs one, has a call for
/// it.
pub open spec fn sub_wf(run: SubView) -> bool {
    run.phase == SubAgentPhase::BeforeTool || run.phase == SubAgentPhase::Tool ==> run.next_call
        < run.stream.calls.len()
}

/// Whether no count leaves its bounds.
pub open spec fn sub_has_room(run: SubView, input: SubAgentInput<Text>) -> bool {
    &&& input is Top ==> run.turn < u32::MAX
    &&& input matches SubAgentInput::Piece(e) ==> (match stream::completed_usage(run.stream, e) {
        Some(u) => run.tokens.input_tokens + u.input_tokens <= u64::MAX
            && run.tokens.output_tokens + u.output_tokens <= u64::MAX,
        None => true,
    })
}

/// What an input leads to. `elapsed` is the seconds since the start, with one
/// decimal.
pub open spec fn sub_stepped(run: SubView, input: SubAgentInput<Text>, elapsed: Text) -> SubStep {
    match input {
        SubAgentInput::Top { cancelled, timed_out } => if cancelled {
            cut_short(run, false, elapsed)
        } else if timed_out {
            cut_short(run, true, elapsed)
        } else {
            sub_turn(run, elapsed)
        },
        SubAgentInput::Opened => SubStep {
            run: SubView { phase: SubAgentPhase::Streaming, ..run },
            told: Seq::empty(),
            action: SubActionView::Read,
        },
        SubAgentInput::OpenFailed(e) => paused(run, "API error: "@ + e),
        SubAgentInput::Piece(e) => SubStep {
            run: SubView {
                stream: stream::streamed(run.stream, e),
                tokens: plus_usage(run.tokens, stream::completed_usage(run.stream, e)),
                ..run
            },
            told: Seq::empty(),
            action: SubActionView::Read,
        },
        SubAgentInput::StreamEnded => sub_responded(run, elapsed),
        SubAgentInput::StreamFailed => paused(
            SubView { stream: stream::flushed(run.stream), ..run },
            "Stream error, retrying..."@,
        ),
        SubAgentInput::Cancelled => cut_short(run, false, elapsed),
        SubAgentInput::BeforeTool { cancelled } => call_ready(run, cancelled, elapsed),
        SubAgentInput::ToolRan(outcome) => call_ran(run, outcome),
    }
}

/// A sub-agent that has not taken a turn.
pub open spec fn fresh_sub_agent(
    task_index: usize,
    goal: Text,
    allowed_tools: Seq<Text>,
    limits: SubAgentLimits,
    timeout_label: Text,
) -> SubView {
    SubView {
        task_index,
        allowed_tools,
        limits,
        timeout_label,
        history: seq![messages::text_entry(Role::User, goal)],
        turn: 0,
        auto_continue: 0,
        tokens: SubAgentTokenUsage { input_tokens: 0, output_tokens: 0 },
        tool_trace: no_trace(),
        modified_files: Seq::empty(),
        has_executed_tools: false,
        stream: stream::nothing_streamed(),
        next_call: 0,
        results: Seq::empty(),
        announced: false,
        phase: SubAgentPhase::Top,
    }
}

impl SubAgentRun {
    /// A sub-agent that is to work on `goal`.
    pub fn new(
        task_index: usize,
        goal: &str,
        allowed_tools: &Vec<String>,
        limits: SubAgentLimits,
        timeout_label: &str,
    ) -> (r: SubAgentRun)
        ensures
            r@ == fresh_sub_agent(
                task_index,
                goal@,
                text::texts(allowed_tools@),
                limits,
                timeout_label@,
            ),
            sub_wf(r@),
    {
        let mut history = ConversationHistory::new();
        history.push_user(goal);
        let r = SubAgentRun {
            task_index,
            allowed_tools: text::copy_all(allowed_tools),
            limits,
            timeout_label: text::copy(timeout_label),
            history,
            turn: 0,
            auto_continue: 0,
            tokens: SubAgentTokenUsage::default(),
            tool_trace: Vec::new(),
            modified_files: Vec::new(),
            has_executed_tools: false,
            stream: StreamState::new(),
            next_call: 0,
            results: Vec::new(),
            announced: false,
            phase: SubAgentPhase::Top,
        };
        assert(r@ =~= fresh_sub_agent(
            task_index,
            goal@,
            text::texts(allowed_tools@),
            limits,
            timeout_label@,
        ));
        r
    }

    fn copy_trace(&self) -> (r: Vec<ToolTraceEntry>)
        ensures
            trace_view(r@) == self@.tool_trace,
    {
        let mut out: Vec<ToolTraceEntry> = Vec::new();
        let mut i: usize = 0;
        while i < self.tool_trace.len()
            invariant
                i <= self.tool_trace@.len(),
                out@.len() == i,
                forall|k: int| 0 <= k < i ==> (#[trigger] out@[k])@ == self.tool_trace@[k]@,
            decreases self.tool_trace@.len() - i,
        {
            let t = &self.tool_trace[i];
            out.push(
                ToolTraceEntry {
                    tool: text::copy(t.tool.as_str()),
                    args_bytes: t.args_bytes,
                    result_bytes: t.result_bytes,
                    is_error: t.is_error,
                },
            );
            i = i + 1;
        }
        assert(trace_view(out@) =~= self@.tool_trace);
        out
    }

    fn cut(&mut self, timed_out: bool, elapsed: &str) -> (r: SubAgentReaction)
        ensures
            (SubStep {
                run: final(self)@,
                told: sub_events(r.events@),
                action: r.action@,
            }) == cut_short(old(self)@, timed_out, elapsed@),
    {
        let result = SubAgentResult {
            summary: String::new(),
            api_calls: self.turn,
            exit_reason: if timed_out {
                text::copy("timeout")
            } else {
                text::copy("interrupted")
            },
            tokens: self.tokens,
            tool_trace: self.copy_trace(),
            interrupted: !timed_out,
            error: if timed_out {
                Some(
                    text::cat3("Sub-agent timed out after ", self.timeout_label.as_str(), "s"),
                )
            } else {
                None
            },
            duration_seconds: text::copy(elapsed),
            modified_files: Vec::new(),
        };
        assert(result@.modified_files =~= Seq::<Text>::empty());
        self.phase = SubAgentPhase::Over;
        no_word(SubAgentAction::Finish { result, absorb: false })
    }

    fn complete(&mut self, elapsed: &str) -> (r: SubAgentReaction)
        ensures
            (SubStep {
                run: final(self)@,
                told: sub_events(r.events@),
                action: r.action@,
            }) == completed(old(self)@, elapsed@),
    {
        let n = text::number(self.turn as u64);
        let message = text::cat5("Completed in ", elapsed, "s, ", n.as_str(), " API calls");
        let said = sub_agent::extract_subagent_summary(&self.history);
        assert(self@.modified_files.len() == self.modified_files@.len());
        let warning = if self.modified_files.len() > 0 {
            let list = text::join(&self.modified_files, ", ");
            text::cat3(
                "\n\n[NOTE: sub-agent modified files: ",
                list.as_str(),
                ". Re-read them before editing.]",
            )
        } else {
            String::new()
        };
        let result = SubAgentResult {
            summary: text::cat2(said.as_str(), warning.as_str()),
            api_calls: self.turn,
            exit_reason: if self.turn >= self.limits.max_turns {
                text::copy("max_turns")
            } else {
                text::copy("completed")
            },
            tokens: self.tokens,
            tool_trace: self.copy_trace(),
            interrupted: false,
            error: None,
            duration_seconds: text::copy(elapsed),
            modified_files: text::copy_all(&self.modified_files),
        };
        let absorb = self.tokens.input_tokens > 0 || self.tokens.output_tokens > 0;
        self.phase = SubAgentPhase::Over;
        one_status(
            self.task_index,
            message,
            SubAgentAction::Finish { result, absorb },
        )
    }

    fn next_turn(&mut self, elapsed: &str) -> (r: SubAgentReaction)
        requires
            old(self)@.turn < u32::MAX,
        ensures
            (SubStep {
                run: final(self)@,
                told: sub_events(r.events@),
                action: r.action@,
            }) == sub_turn(old(self)@, elapsed@),
    {
        self.turn = self.turn + 1;
        if self.turn > self.limits.max_turns {
            return self.complete(elapsed);
        }
        self.history.sanitize();
        self.stream = StreamState::new();
        self.phase = SubAgentPhase::Opening;
        no_word(SubAgentAction::Open)
    }

    fn ask_on(&mut self, message: &str, prompt: &str) -> (r: SubAgentReaction)
        requires
            old(self)@.auto_continue < u32::MAX,
        ensures
            (SubStep {
                run: final(self)@,
                told: sub_events(r.events@),
                action: r.action@,
            }) == sub_continued(old(self)@, message@, prompt@),
    {
        self.auto_continue = self.auto_continue + 1;
        self.history.push_user(prompt);
        self.phase = SubAgentPhase::Top;
        one_status(self.task_index, text::copy(message), SubAgentAction::NextTurn)
    }

    fn reply_blocks(&self) -> (r: Vec<ContentBlock>)
        ensures
            api::blocks(r@) == sub_reply(self@.stream).content,
    {
        let ghost tus = self@.stream.calls;
        let ghost want = sub_call_blocks(tus);
        let mut out: Vec<ContentBlock> = Vec::new();
        if !text::blank(self.stream.text.as_str()) {
            out.push(ContentBlock::Text { text: text::copy(self.stream.text.as_str()) });
        }
        let ghost first = api::blocks(out@);
        assert(first =~= if text::is_blank(self@.stream.text) {
            Seq::<BlockView>::empty()
        } else {
            seq![ContentBlock::<Text, JsonView>::Text { text: self@.stream.text }]
        });
        let mut i: usize = 0;
        assert(first + want.take(0) =~= first);
        while i < self.stream.calls.len()
            invariant
                i <= self.stream.calls@.len(),
                tus == tool_exec::calls(self.stream.calls@),
                want == sub_call_blocks(tus),
                api::blocks(out@) == first + want.take(i as int),
            decreases self.stream.calls@.len() - i,
        {
            let ghost was = api::blocks(out@);
            let c = &self.stream.calls[i];
            let input = match json::parse_json(c.input_json.as_str()) {
                Ok(v) => v,
                Err(_) => Json::empty_object(),
            };
            out.push(
                ContentBlock::ToolUse {
                    id: text::copy(c.id.as_str()),
                    name: text::copy(c.name.as_str()),
                    input,
                },
            );
            assert(out@.last()@ == want[i as int]);
            assert(api::blocks(out@) =~= was.push(want[i as int]));
            assert(first + want.take(i + 1) =~= (first + want.take(i as int)).push(
                want[i as int],
            ));
            i = i + 1;
        }
        assert(want.take(i as int) =~= want);
        out
    }

    fn starts(&self) -> (r: Vec<SubAgentEvent>)
        ensures
            sub_events(r@) == sub_starts(self@.task_index, self@.stream.calls),
    {
        let ghost want = sub_starts(self@.task_index, self@.stream.calls);
        let mut out: Vec<SubAgentEvent> = Vec::new();
        let mut i: usize = 0;
        while i < self.stream.calls.len()
            invariant
                i <= self.stream.calls@.len(),
                want == sub_starts(self@.task_index, self@.stream.calls),
                out@.len() == i,
                forall|k: int| 0 <= k < i ==> (#[trigger] out@[k])@ == want[k],
            decreases self.stream.calls@.len() - i,
        {
            let c = &self.stream.calls[i];
            let summary = sub_agent::format_tool_input_summary(
                c.name.as_str(),
                c.input_json.as_str(),
            );
            let e = SubAgentEvent::ToolStarted {
                task_index: self.task_index,
                tool: text::copy(c.name.as_str()),
                input_summary: summary,
            };
            assert(e@ == want[i as int]);
            out.push(e);
            i = i + 1;
        }
        assert(sub_events(out@) =~= want);
        out
    }

    fn respond(&mut self, elapsed: &str) -> (r: SubAgentReaction)
        ensures
            (SubStep {
                run: final(self)@,
                told: sub_events(r.events@),
                action: r.action@,
            }) == sub_responded(old(self)@, elapsed@),
    {
        self.stream.flush();
        assert(self@.stream.calls.len() == self.stream.calls@.len());
        let more = self.auto_continue < self.limits.max_auto_continue;
        if text::blank(self.stream.text.as_str()) && self.stream.calls.len() == 0 {
            if more {
                return self.ask_on(
                    "Empty response, continuing...",
                    "Please continue with your task.",
                );
            }
            return self.complete(elapsed);
        }
        let blocks = self.reply_blocks();
        let reasoning = if self.stream.reasoning.as_str().is_empty() {
            None
        } else {
            Some(text::copy(self.stream.reasoning.as_str()))
        };
        self.history.push_assistant_with_reasoning(blocks, reasoning);
        if self.stream.calls.len() == 0 {
            if !self.has_executed_tools && more {
                return self.ask_on(
                    "Continuing...",
                    "Please complete your task and provide a summary of what you did.",
                );
            }
            return self.complete(elapsed);
        }
        self.has_executed_tools = true;
        self.next_call = 0;
        self.results = Vec::new();
        assert(api::blocks(self.results@) =~= Seq::<BlockView>::empty());
        self.announced = false;
        self.phase = SubAgentPhase::BeforeTool;
        let events = self.starts();
        SubAgentReaction { events, action: SubAgentAction::ConfirmTool }
    }

    fn end_call(
        &mut self,
        block: ContentBlock,
        trace: ToolTraceEntry,
        file: Option<String>,
    ) -> (r: SubAgentReaction)
        requires
            old(self)@.next_call < old(self)@.stream.calls.len(),
        ensures
            (SubStep {
                run: final(self)@,
                told: sub_events(r.events@),
                action: r.action@,
            }) == call_over(
                old(self)@,
                block@,
                trace@,
                match text::opt_text(file) {
                    Some(f) => seq![f],
                    None => Seq::empty(),
                },
                Seq::empty(),
            ),
    {
        let ghost was = self@;
        let ghost bv = block@;
        let ghost tv = trace@;
        let ghost fv = match text::opt_text(file) {
            Some(f) => seq![f],
            None => Seq::<Text>::empty(),
        };
        assert(self@.stream.calls.len() == self.stream.calls@.len());
        let event = SubAgentEvent::ToolCompleted {
            task_index: self.task_index,
            tool: text::copy(trace.tool.as_str()),
            result_bytes: trace.result_bytes,
            is_error: trace.is_error,
        };
        let events = one_sub_event(event);
        self.results.push(block);
        assert(api::blocks(self.results@) =~= was.results.push(bv));
        self.tool_trace.push(trace);
        assert(trace_view(self.tool_trace@) =~= was.tool_trace.push(tv));
        if let Some(f) = file {
            text::push_text(&mut self.modified_files, f);
        }
        assert(text::texts(self.modified_files@) =~= was.modified_files + fv);
        let n: usize = self.stream.calls.len();
        self.next_call = self.next_call + 1;
        let r = if self.next_call < n {
            self.phase = SubAgentPhase::BeforeTool;
            SubAgentReaction { events, action: SubAgentAction::ConfirmTool }
        } else {
            let results = api::copy_blocks(&self.results);
            self.history.push_tool_results(results);
            self.phase = SubAgentPhase::Top;
            SubAgentReaction { events, action: SubAgentAction::NextTurn }
        };
        assert(sub_events(r.events@) =~= call_over(was, bv, tv, fv, Seq::empty()).told);
        r
    }

    fn is_allowed(&self, name: &str) -> (r: bool)
        ensures
            r == self@.allowed_tools.contains(name@),
    {
        let ghost all = self@.allowed_tools;
        let mut i: usize = 0;
        while i < self.allowed_tools.len()
            invariant
                i <= self.allowed_tools@.len(),
                all == text::texts(self.allowed_tools@),
                all == self@.allowed_tools,
                forall|j: int| 0 <= j < i ==> all[j] != name@,
            decreases self.allowed_tools@.len() - i,
        {
            if text::same(self.allowed_tools[i].as_str(), name) {
                assert(all[i as int] == name@);
                return true;
            }
            i = i + 1;
        }
        false
    }

    fn ready(&mut self, cancelled: bool, elapsed: &str) -> (r: SubAgentReaction)
        requires
            old(self)@.next_call < old(self)@.stream.calls.len(),
        ensures
            (SubStep {
                run: final(self)@,
                told: sub_events(r.events@),
                action: r.action@,
            }) == call_ready(old(self)@, cancelled, elapsed@),
    {
        if cancelled {
            return self.cut(false, elapsed);
        }
        assert(self@.stream.calls.len() == self.stream.calls@.len());
        let call = self.stream.calls[self.next_call].copy();
        assert(call@ == self@.stream.calls[self.next_call as int]);
        if !self.is_allowed(call.name.as_str()) {
            let list = text::join(&self.allowed_tools, ", ");
            let content = text::cat4(
                "Tool '",
                call.name.as_str(),
                "' is not available to sub-agents. Allowed tools: ",
                list.as_str(),
            );
            let args_bytes: usize = text::str_bytes(call.input_json.as_str());
            let block = ContentBlock::ToolResult {
                tool_use_id: call.id,
                content,
                is_error: Some(true),
            };
            let trace = ToolTraceEntry {
                tool: call.name,
                args_bytes,
                result_bytes: 0,
                is_error: true,
            };
            return self.end_call(block, trace, None);
        }
        let speak = !self.announced && !text::blank(self.stream.text.as_str());
        let action = SubAgentAction::RunTool { name: call.name, input_json: call.input_json };
        self.phase = SubAgentPhase::Tool;
        if speak {
            self.announced = true;
            let events = one_sub_event(
                SubAgentEvent::Thinking {
                    task_index: self.task_index,
                    text: text::copy(self.stream.text.as_str()),
                },
            );
            SubAgentReaction { events, action }
        } else {
            no_word(action)
        }
    }

    fn take_outcome(&mut self, outcome: Result<String, String>) -> (r: SubAgentReaction)
        requires
            old(self)@.next_call < old(self)@.stream.calls.len(),
        ensures
            (SubStep {
                run: final(self)@,
                told: sub_events(r.events@),
                action: r.action@,
            }) == call_ran(
                old(self)@,
                match outcome {
                    Ok(s) => Ok(s@),
                    Err(e) => Err(e@),
                },
            ),
    {
        assert(self@.stream.calls.len() == self.stream.calls@.len());
        let call = self.stream.calls[self.next_call].copy();
        assert(call@ == self@.stream.calls[self.next_call as int]);
        let (content, is_error) = match outcome {
            Ok(output) => (output, false),
            Err(e) => (text::cat2("Tool execution error: ", e.as_str()), true),
        };
        let args_bytes: usize = text::str_bytes(call.input_json.as_str());
        let result_bytes: usize = text::str_bytes(content.as_str());
        let input = match json::parse_json(call.input_json.as_str()) {
            Ok(v) => v,
            Err(_) => Json::empty_object(),
        };
        assert(input@ == sub_agent::parsed_or_empty(call@.input_json));
        let file = if !is_error && (text::same(call.name.as_str(), "write") || text::same(
            call.name.as_str(),
            "edit",
        )) {
            input.get_str("path")
        } else {
            None
        };
        assert(changed_file(call@.name, input@, is_error) == match text::opt_text(file) {
            Some(f) => seq![f],
            None => Seq::<Text>::empty(),
        });
        let block = ContentBlock::ToolResult {
            tool_use_id: call.id,
            content,
            is_error: if is_error {
                Some(true)
            } else {
                None
            },
        };
        let trace = ToolTraceEntry { tool: call.name, args_bytes, result_bytes, is_error };
        self.end_call(block, trace, file)
    }
}

/// What a step leads to: what is told, and what is next.
pub struct SubAgentReaction {
    pub events: Vec<SubAgentEvent>,
    pub action: SubAgentAction,
}

fn no_word(action: SubAgentAction) -> (r: SubAgentReaction)
    ensures
        sub_events(r.events@) == Seq::<SubEventView>::empty(),
        r.action@ == action@,
{
    let events: Vec<SubAgentEvent> = Vec::new();
    assert(sub_events(events@) =~= Seq::<SubEventView>::empty());
    SubAgentReaction { events, action }
}

fn one_sub_event(e: SubAgentEvent) -> (r: Vec<SubAgentEvent>)
    ensures
        sub_events(r@) == seq![e@],
{
    let ghost ev = e@;
    let mut r: Vec<SubAgentEvent> = Vec::new();
    r.push(e);
    assert(sub_events(r@) =~= seq![ev]);
    r
}

fn one_status(task_index: usize, message: String, action: SubAgentAction) -> (r: SubAgentReaction)
    ensures
        sub_events(r.events@) == seq![
            SubEventView::Status { task_index, message: message@ },
        ],
        r.action@ == action@,
{
    let events = one_sub_event(SubAgentEvent::Status { task_index, message });
    SubAgentReaction { events, action }
}

/// Whether a sub-agent waits for an input, and can take it.
pub fn can_step(run: &SubAgentRun, input: &SubAgentInput) -> (r: bool)
    ensures
        r == (sub_wf(run@) && sub_awaits(run@, input@) && sub_has_room(run@, input@)),
{
    assert(run@.stream.calls.len() == run.stream.calls@.len());
    if (run.phase == SubAgentPhase::BeforeTool || run.phase == SubAgentPhase::Tool) && run.next_call
        >= run.stream.calls.len() {
        return false;
    }
    match input {
        SubAgentInput::Top { .. } => run.phase == SubAgentPhase::Top && run.turn < u32::MAX,
        SubAgentInput::Opened => run.phase == SubAgentPhase::Opening,
        SubAgentInput::OpenFailed(_) => run.phase == SubAgentPhase::Opening,
        SubAgentInput::Piece(e) => run.phase == SubAgentPhase::Streaming && (
        match run.stream.completes(e) {
            Some(u) => u.input_tokens <= u64::MAX - run.tokens.input_tokens && u.output_tokens
                <= u64::MAX - run.tokens.output_tokens,
            None => true,
        }),
        SubAgentInput::StreamEnded => run.phase == SubAgentPhase::Streaming,
        SubAgentInput::StreamFailed => run.phase == SubAgentPhase::Streaming,
        SubAgentInput::Cancelled => run.phase == SubAgentPhase::Streaming,
        SubAgentInput::BeforeTool { .. } => run.phase == SubAgentPhase::BeforeTool,
        SubAgentInput::ToolRan(_) => run.phase == SubAgentPhase::Tool,
    }
}

/// Take a sub-agent one step further. `elapsed` is the seconds since its start,
/// with one decimal.
pub fn run_single_sub_agent(run: &mut SubAgentRun, input: SubAgentInput, elapsed: &str) -> (r:
    SubAgentReaction)
    requires
        sub_wf(old(run)@),
        sub_awaits(old(run)@, input@),
        sub_has_room(old(run)@, input@),
    ensures
        (SubStep {
            run: final(run)@,
            told: sub_events(r.events@),
            action: r.action@,
        }) == sub_stepped(old(run)@, input@, elapsed@),
        sub_wf(final(run)@),
{
    match input {
        SubAgentInput::Top { cancelled, timed_out } => if cancelled {
            run.cut(false, elapsed)
        } else if timed_out {
            run.cut(true, elapsed)
        } else {
            run.next_turn(elapsed)
        },
        SubAgentInput::Opened => {
            run.phase = SubAgentPhase::Streaming;
            no_word(SubAgentAction::Read)
        },
        SubAgentInput::OpenFailed(e) => {
            run.phase = SubAgentPhase::Top;
            one_status(
                run.task_index,
                text::cat2("API error: ", e.as_str()),
                SubAgentAction::Pause,
            )
        },
        SubAgentInput::Piece(e) => {
            if let Some(u) = run.stream.absorb(e) {
                run.tokens =
                SubAgentTokenUsage {
                    input_tokens: run.tokens.input_tokens + u.input_tokens,
                    output_tokens: run.tokens.output_tokens + u.output_tokens,
                };
            }
            no_word(SubAgentAction::Read)
        },
        SubAgentInput::StreamEnded => run.respond(elapsed),
        SubAgentInput::StreamFailed => {
            run.stream.flush();
            run.phase = SubAgentPhase::Top;
            one_status(
                run.task_index,
                text::copy("Stream error, retrying..."),
                SubAgentAction::Pause,
            )
        },
        SubAgentInput::Cancelled => run.cut(false, elapsed),
        SubAgentInput::BeforeTool { cancelled } => run.ready(cancelled, elapsed),
        SubAgentInput::ToolRan(outcome) => run.take_outcome(outcome),
    }
}

// ---------------------------------------------------------------------------
// Laws
// ---------------------------------------------------------------------------

/// A sub-agent runs no tool that it is not allowed.
pub proof fn law_only_allowed_tools_run(run: SubView, input: SubAgentInput<Text>, elapsed: Text)
    requires
        sub_wf(run),
        sub_awaits(run, input),
    ensures
        sub_stepped(run, input, elapsed).action matches SubActionView::RunTool { name, .. }
            ==> run.allowed_tools.contains(name),
{
}

/// Every call of a reply is answered in its place: the results that a turn ends
/// with are as many as the calls.
pub proof fn law_every_call_is_answered(run: SubView, input: SubAgentInput<Text>, elapsed: Text)
    requires
        sub_wf(run),
        sub_awaits(run, input),
        input is BeforeTool || input is ToolRan,
        run.results.len() == run.next_call,
        run.stream.calls.len() <= usize::MAX,
    ensures
        ({
            let next = sub_stepped(run, input, elapsed);
            &&& next.action is NextTurn ==> next.run.history.last().content.len()
                == run.stream.calls.len() && next.run.history.last().role == Role::User
            &&& next.action is ConfirmTool ==> next.run.results.len() == next.run.next_call
            &&& next.action is NextTurn || next.action is ConfirmTool ==> messages::result_id(
                next.run.results.last(),
            ) == Some(run.stream.calls[run.next_call as int].id)
        }),
{
}

/// A sub-agent takes at most `max_turns` turns and is asked to go on at most
/// `max_auto_continue` times.
pub proof fn law_sub_agent_limits(run: SubView, input: SubAgentInput<Text>, elapsed: Text)
    requires
        sub_wf(run),
        sub_awaits(run, input),
        sub_has_room(run, input),
        run.auto_continue <= run.limits.max_auto_continue,
    ensures
        sub_stepped(run, input, elapsed).run.auto_continue <= run.limits.max_auto_continue,
        sub_stepped(run, input, elapsed).run.limits == run.limits,
        sub_stepped(run, input, elapsed).action is Open ==> sub_stepped(
            run,
            input,
            elapsed,
        ).run.turn <= run.limits.max_turns,
{
}

/// A sub-agent sees what its tools gave back: the output as it is, or, where the tool
/// failed, an error that ends in what the tool said. Once its last call has run, all the
/// results stand in its conversation, in the order of the calls.
pub proof fn law_sub_agent_sees_what_its_tools_gave(
    run: SubView,
    outcome: Result<Text, Text>,
    elapsed: Text,
)
    requires
        sub_wf(run),
        run.phase == SubAgentPhase::Tool,
        run.stream.calls.len() <= usize::MAX,
    ensures
        ({
            let next = sub_stepped(run, SubAgentInput::ToolRan(outcome), elapsed);
            let call = run.stream.calls[run.next_call as int];
            let last = run.next_call + 1 == run.stream.calls.len();
            &&& next.run.results.len() == run.results.len() + 1
            &&& next.run.results.drop_last() == run.results
            &&& next.run.results.last() matches ContentBlock::ToolResult {
                tool_use_id,
                content,
                is_error,
            } && tool_use_id == call.id && match outcome {
                Ok(s) => content == s && is_error is None,
                Err(e) => text::has_suffix(content, e) && is_error == Some(true),
            }
            &&& last ==> next.action is NextTurn && next.run.history == run.history.push(
                EntryView {
                    role: Role::User,
                    content: next.run.results,
                    reasoning_content: None,
                },
            )
            &&& !last ==> next.action is ConfirmTool && next.run.history == run.history
                && next.run.next_call == run.next_call + 1
            &&& next.run.stream == run.stream
            &&& next.run.tokens == run.tokens
        }),
{
    let next = sub_stepped(run, SubAgentInput::ToolRan(outcome), elapsed);
    assert(next.run.results.drop_last() =~= run.results);
    if let Err(e) = outcome {
        let content = "Tool execution error: "@ + e;
        let at = content.len() - e.len();
        assert(content.subrange(at, content.len() as int) =~= e);
        assert(text::occurs_at(content, e, at));
    }
}

/// A call of an allowed tool runs with the name and the arguments that the model gave;
/// any other is answered with an error and runs nothing.
pub proof fn law_sub_agent_calls_run_as_asked(run: SubView, elapsed: Text)
    requires
        sub_wf(run),
        run.phase == SubAgentPhase::BeforeTool,
        run.stream.calls.len() <= usize::MAX,
    ensures
        ({
            let next = sub_stepped(run, SubAgentInput::BeforeTool { cancelled: false }, elapsed);
            let call = run.stream.calls[run.next_call as int];
            if run.allowed_tools.contains(call.name) {
                &&& next.action == (SubActionView::RunTool {
                    name: call.name,
                    input_json: call.input_json,
                })
                &&& next.run.phase == SubAgentPhase::Tool
                &&& next.run.next_call == run.next_call
                &&& next.run.results == run.results
            } else {
                &&& !(next.action is RunTool)
                &&& next.run.next_call == run.next_call + 1
                &&& next.run.results.len() == run.results.len() + 1
                &&& next.run.results.last() matches ContentBlock::ToolResult {
                    tool_use_id,
                    is_error,
                    ..
                } && tool_use_id == call.id && is_error == Some(true)
            }
        }),
{
}

/// What a sub-agent said and called stands in its conversation: its words as they are,
/// and each call, in order, with its own id and name.
pub proof fn law_sub_agent_reply_is_kept(run: SubView, elapsed: Text)
    requires
        !text::is_blank(run.stream.text),
    ensures
        ({
            let next = sub_stepped(run, SubAgentInput::StreamEnded, elapsed);
            let calls = match run.stream.current {
                Some(c) => run.stream.calls.push(c),
                None => run.stream.calls,
            };
            let at = run.history.len() as int;
            &&& next.run.history.len() > at
            &&& next.run.history.take(at) == run.history
            &&& next.run.history[at].role == Role::Assistant
            &&& next.run.history[at].content.len() == calls.len() + 1
            &&& next.run.history[at].content[0] == (ContentBlock::<Text, JsonView>::Text {
                text: run.stream.text,
            })
            &&& forall|k: int|
                0 <= k < calls.len() ==> (#[trigger] next.run.history[at].content[k + 1]
                    matches ContentBlock::ToolUse { id, name, .. } && id == calls[k].id && name
                    == calls[k].name)
            &&& calls.len() > 0 ==> next.run.history.len() == at + 1 && next.run.stream.calls
                == calls && next.run.next_call == 0 && next.run.results.len() == 0
                && next.action is ConfirmTool
        }),
{
    let next = sub_stepped(run, SubAgentInput::StreamEnded, elapsed);
    assert(next.run.history.take(run.history.len() as int) =~= run.history);
}

/// A sub-agent that is done reports what it said last, and every file that it changed.
pub proof fn law_sub_agent_reports_back(run: SubView, elapsed: Text)
    requires
        !text::is_blank(run.stream.text),
        run.stream.calls.len() == 0,
        run.stream.current is None,
        run.has_executed_tools,
    ensures
        ({
            let next = sub_stepped(run, SubAgentInput::StreamEnded, elapsed);
            &&& next.run.phase == SubAgentPhase::Over
            &&& next.action matches SubActionView::Finish { result, .. } && text::has_prefix(
                result.summary,
                sub_agent::short_summary(text::trimmed(run.stream.text)),
            ) && result.modified_files == run.modified_files && result.tokens == run.tokens
                && result.tool_trace == run.tool_trace && result.api_calls == run.turn
                && result.error is None && !result.interrupted && (forall|i: int|
                0 <= i < run.modified_files.len() ==> text::has_substring(
                    result.summary,
                    #[trigger] run.modified_files[i],
                ))
        }),
{
    let st = run.stream;
    let said = run.history.push(sub_reply(st));
    let spoken = sub_reply(st).content;
    assert(sub_call_blocks(st.calls) =~= Seq::<BlockView>::empty());
    assert(spoken =~= seq![ContentBlock::<Text, JsonView>::Text { text: st.text }]);
    assert(sub_agent::first_saying(spoken) == Some(text::trimmed(st.text)));
    assert(said.drop_last() =~= run.history);
    let head = sub_agent::short_summary(text::trimmed(st.text));
    let note = file_warning(run.modified_files);
    let summary = head + note;
    assert(sub_agent::conversation_result(said) == head);
    assert(summary.subrange(0, head.len() as int) =~= head);
    assert forall|i: int| 0 <= i < run.modified_files.len() implies text::has_substring(
        summary,
        #[trigger] run.modified_files[i],
    ) by {
        let files = text::joined(run.modified_files, ", "@);
        let f = run.modified_files[i];
        text::lemma_joined_has(run.modified_files, ", "@, i);
        let at = choose|at: int| text::occurs_at(files, f, at);
        let from = head.len() + "\n\n[NOTE: sub-agent modified files: "@.len() + at;
        assert(summary.subrange(from, from + f.len()) =~= files.subrange(at, at + f.len()));
        assert(text::occurs_at(summary, f, from));
    }
}

/// A sub-agent starts with its goal and nothing else in its conversation, and with
/// nothing counted or changed; what it used is what its requests took together.
pub proof fn law_sub_agent_starts_with_its_goal(
    task_index: usize,
    goal: Text,
    tools: Seq<Text>,
    limits: SubAgentLimits,
    label: Text,
)
    ensures
        ({
            let run = fresh_sub_agent(task_index, goal, tools, limits, label);
            &&& run.history.len() == 1
            &&& run.history[0].role == Role::User
            &&& run.history[0].content == seq![
                ContentBlock::<Text, JsonView>::Text { text: goal },
            ]
            &&& run.allowed_tools == tools
            &&& run.limits == limits
            &&& run.task_index == task_index
            &&& run.turn == 0
            &&& run.tokens.input_tokens == 0 && run.tokens.output_tokens == 0
            &&& run.modified_files.len() == 0
            &&& run.phase == SubAgentPhase::Top
        }),
{
}

/// The tokens of a sub-agent grow by what each complete reply took, and by nothing else.
pub proof fn law_sub_agent_tokens_add_up(
    run: SubView,
    reason: api::StopReason,
    usage: Usage,
    elapsed: Text,
)
    requires
        run.stream.pending_usage is None,
        run.tokens.input_tokens + usage.input_tokens <= u64::MAX,
        run.tokens.output_tokens + usage.output_tokens <= u64::MAX,
    ensures
        ({
            let done = SubAgentInput::Piece(
                StreamEvent::MessageComplete { stop_reason: reason, usage },
            );
            let next = sub_stepped(run, done, elapsed).run;
            &&& next.tokens.input_tokens == run.tokens.input_tokens + usage.input_tokens
            &&& next.tokens.output_tokens == run.tokens.output_tokens + usage.output_tokens
            &&& next.history == run.history
        }),
{
}

/// A file that a sub-agent wrote or edited is remembered, and no other; a call that failed
/// changed none.
pub proof fn law_changed_files_are_remembered(
    run: SubView,
    outcome: Result<Text, Text>,
    elapsed: Text,
)
    requires
        sub_wf(run),
        run.phase == SubAgentPhase::Tool,
    ensures
        ({
            let next = sub_stepped(run, SubAgentInput::ToolRan(outcome), elapsed).run;
            let call = run.stream.calls[run.next_call as int];
            let path = json::str_member(sub_agent::parsed_or_empty(call.input_json), "path"@);
            let changes = call.name == "write"@ || call.name == "edit"@;
            &&& outcome is Ok && changes && path is Some ==> next.modified_files
                == run.modified_files.push(path->Some_0)
            &&& outcome is Err || !changes || path is None ==> next.modified_files
                == run.modified_files
        }),
{
    let next = sub_stepped(run, SubAgentInput::ToolRan(outcome), elapsed).run;
    assert(run.modified_files + Seq::<Text>::empty() =~= run.modified_files);
    let call = run.stream.calls[run.next_call as int];
    let path = json::str_member(sub_agent::parsed_or_empty(call.input_json), "path"@);
    if let Some(p) = path {
        assert(run.modified_files + seq![p] =~= run.modified_files.push(p));
    }
}

/// A sub-agent that is stopped, or takes too long, reports that, with what it used and did
/// up to then.
pub proof fn law_stopped_sub_agents_say_so(run: SubView, elapsed: Text)
    ensures
        sub_stepped(run, SubAgentInput::Top { cancelled: true, timed_out: false }, elapsed).action
            matches SubActionView::Finish { result, .. } && result.interrupted && result.error
            is None && result.tokens == run.tokens && result.tool_trace == run.tool_trace,
        sub_stepped(run, SubAgentInput::Top { cancelled: false, timed_out: true }, elapsed).action
            matches SubActionView::Finish { result, .. } && !result.interrupted && result.error
            is Some && result.tokens == run.tokens && result.tool_trace == run.tool_trace,
        sub_stepped(run, SubAgentInput::Cancelled, elapsed).action matches SubActionView::Finish {
            result,
            ..
        } && result.interrupted,
{
}

/// A sub-agent that has nobody to ask reports why, as an error, and has changed nothing.
pub proof fn law_missing_clients_are_reported(error: Text, elapsed: Text)
    ensures
        ({
            let r = without_client(error, elapsed);
            &&& r.error matches Some(said) && text::has_substring(said, error)
            &&& r.duration_seconds == elapsed
            &&& !r.interrupted
            &&& r.api_calls == 0
            &&& r.modified_files.len() == 0
            &&& r.summary.len() == 0
        }),
        text::has_substring(
            sub_agent::error_text(sub_agent::SubAgentError::ClientCreation(error)),
            error,
        ),
        text::has_substring(
            sub_agent::error_text(sub_agent::SubAgentError::Timeout(error)),
            error,
        ),
{
    text::lemma_both_stand("Failed to create sub-agent client: "@, error);
    text::lemma_both_stand("Client creation failed: "@, error);
    text::lemma_stands_between("Sub-agent timed out after "@, error, "s"@);
}

} // verus!
