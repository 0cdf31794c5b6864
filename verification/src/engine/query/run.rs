//! The query loop: turn after turn, requests to the model and the tools that it
//! calls, until it is done, gives up or is interrupted.
//!
//! What only the outside can do is named by a `QueryAction`; what came of it is
//! handed back as a `QueryEvent`. `query_tui` takes the loop from one to the
//! next.

use crate::api;
use crate::api::ApiError;
use crate::api::BlockView;
use crate::api::ContentBlock;
use crate::api::Role;
use crate::api::StopReason;
use crate::api::StreamEvent;
use crate::api::Usage;
use crate::engine::carryover;
use crate::engine::compact;
use crate::engine::compact::CompactMethod;
use crate::engine::compact::CompactResult;
use crate::engine::messages;
use crate::engine::messages::EntryView;
use crate::engine::query::context;
use crate::engine::query::json_utils;
use crate::engine::query::stream;
use crate::engine::query::stream::StreamState;
use crate::engine::query::stream::StreamView;
use crate::engine::query::tool_display;
use crate::engine::query::tool_exec;
use crate::engine::query::tool_exec::CallView;
use crate::engine::query::tool_exec::CollectedToolUse;
use crate::engine::query_engine;
use crate::engine::query_engine::EngineView;
use crate::engine::query_engine::QueryEngine;
use crate::engine::review;
use crate::engine::tui_events;
use crate::engine::tui_events::EngineEvent;
use crate::engine::tui_events::EventView;
use crate::json::Json;
use crate::json::JsonView;
use crate::text;
use crate::text::Text;
use vstd::prelude::*;
use vstd::string::*;

verus! {

// ---------------------------------------------------------------------------
// The state of a query
// ---------------------------------------------------------------------------

/// What a query waits for.
#[derive(Clone, Copy, PartialEq, Eq, Structural)]
pub enum QueryPhase {
    /// The start of a turn.
    Top,
    /// The compaction before a request.
    Compacting,
    /// The pause before a request is made again.
    Waiting,
    /// The descriptions of pictures.
    Describing,
    /// The stream of a request.
    Opening,
    /// The compaction after a request was too long.
    CompactingAgain,
    /// The stream of the request after that.
    Reopening,
    /// The pieces of the reply.
    Streaming,
    /// The word that tools may run.
    Ready,
    /// The results of tools.
    Tools,
    /// The shorter inputs of edits.
    Edits,
    /// Nothing: the query is over.
    Over,
}

/// A query on its way.
pub struct QueryRun {
    /// What the user said, as hooks left it.
    pub input: String,
    pub turn: u32,
    /// How often the model was asked to go on by itself.
    pub auto_continue: u32,
    /// How often the request of this turn was made again.
    pub attempt: u32,
    pub last_error: Option<ApiError>,
    /// The error of a request that was too long.
    pub too_long: Option<ApiError>,
    pub stream: StreamState,
    /// What pictures show.
    pub vision: String,
    pub phase: QueryPhase,
}

/// What a `QueryRun` holds.
#[verifier::ext_equal]
pub struct QueryView {
    pub input: Text,
    pub turn: u32,
    pub auto_continue: u32,
    pub attempt: u32,
    pub last_error: Option<ApiError<Text>>,
    pub too_long: Option<ApiError<Text>>,
    pub stream: StreamView,
    pub vision: Text,
    pub phase: QueryPhase,
}

/// What an optional error holds.
pub open spec fn opt_error(o: Option<ApiError>) -> Option<ApiError<Text>> {
    match o {
        Some(e) => Some(e@),
        None => None,
    }
}

impl View for QueryRun {
    type V = QueryView;

    open spec fn view(&self) -> QueryView {
        QueryView {
            input: self.input@,
            turn: self.turn,
            auto_continue: self.auto_continue,
            attempt: self.attempt,
            last_error: opt_error(self.last_error),
            too_long: opt_error(self.too_long),
            stream: self.stream@,
            vision: self.vision@,
            phase: self.phase,
        }
    }
}

/// What came of an action.
pub enum QueryEvent {
    /// A turn may start, unless the query was cancelled.
    TurnTop { cancelled: bool },
    /// A compaction is over; it may have changed nothing or failed.
    Compacted(Option<CompactResult>),
    /// The pause is over.
    Waited,
    /// What the analyses of the pictures came to, in order.
    Described(Vec<Result<String, String>>),
    /// A stream is open.
    Opened,
    /// No stream could be opened.
    OpenFailed(ApiError),
    /// A piece of the reply.
    Piece(StreamEvent),
    /// The stream is at its end.
    StreamEnded,
    /// Nothing came for too long.
    StreamTimedOut,
    /// The stream broke.
    StreamFailed(ApiError),
    /// Tools may run, unless the query was cancelled.
    ToolsReady { cancelled: bool },
    /// All tools ran; the query may have been cancelled meanwhile.
    ToolsRan { results: Vec<ContentBlock>, cancelled: bool },
    /// The query was cancelled before all tools ran.
    ToolsAborted,
    /// Shorter inputs for edits that succeeded.
    EditsCompressed(Vec<(String, Json)>),
    /// The query was cancelled.
    Cancelled,
}

/// What a `QueryEvent` holds.
pub enum QueryEventView {
    TurnTop { cancelled: bool },
    Compacted(Option<CompactResult>),
    Waited,
    Described(Seq<Result<Text, Text>>),
    Opened,
    OpenFailed(ApiError<Text>),
    Piece(StreamEvent<Text>),
    StreamEnded,
    StreamTimedOut,
    StreamFailed(ApiError<Text>),
    ToolsReady { cancelled: bool },
    ToolsRan { results: Seq<BlockView>, cancelled: bool },
    ToolsAborted,
    EditsCompressed(Seq<(Text, JsonView)>),
    Cancelled,
}

impl View for QueryEvent {
    type V = QueryEventView;

    open spec fn view(&self) -> QueryEventView {
        match *self {
            QueryEvent::TurnTop { cancelled } => QueryEventView::TurnTop { cancelled },
            QueryEvent::Compacted(r) => QueryEventView::Compacted(r),
            QueryEvent::Waited => QueryEventView::Waited,
            QueryEvent::Described(v) => QueryEventView::Described(context::analyses_view(v@)),
            QueryEvent::Opened => QueryEventView::Opened,
            QueryEvent::OpenFailed(e) => QueryEventView::OpenFailed(e@),
            QueryEvent::Piece(e) => QueryEventView::Piece(e@),
            QueryEvent::StreamEnded => QueryEventView::StreamEnded,
            QueryEvent::StreamTimedOut => QueryEventView::StreamTimedOut,
            QueryEvent::StreamFailed(e) => QueryEventView::StreamFailed(e@),
            QueryEvent::ToolsReady { cancelled } => QueryEventView::ToolsReady { cancelled },
            QueryEvent::ToolsRan { results, cancelled } => QueryEventView::ToolsRan {
                results: api::blocks(results@),
                cancelled,
            },
            QueryEvent::ToolsAborted => QueryEventView::ToolsAborted,
            QueryEvent::EditsCompressed(v) => QueryEventView::EditsCompressed(
                messages::inputs_view(v@),
            ),
            QueryEvent::Cancelled => QueryEventView::Cancelled,
        }
    }
}

/// What is to be done outside.
pub enum QueryAction {
    /// Go on to the next turn.
    NextTurn,
    /// Tell the memory that a turn starts, and compact the conversation.
    Compact { turn: u32 },
    /// Wait before the request is made again.
    Wait { attempt: u32, status: Option<u16>, retry_after: Option<String> },
    /// Describe the pictures of the conversation.
    DescribeImages,
    /// Make the request, with all that belongs into its system prompt.
    Open,
    /// Compact the conversation, for the request was too long.
    CompactAgain,
    /// Make the request again, with the session's system prompt alone.
    Reopen,
    /// Read on. Where a reply is complete, run the hooks after it.
    Read { usage: Option<Usage> },
    /// Look whether the query was cancelled before tools run.
    ConfirmTools,
    /// Run the tools, side by side or one after the other.
    RunTools { calls: Vec<CollectedToolUse>, parallel: bool },
    /// Shorten the inputs of these edits.
    CompressEdits(Vec<String>),
    /// Tell the memory what was said, and go on to the next turn.
    Sync { input: String, summary: String },
    /// The query is over. Reviews of the conversation may be due. `unannounced`
    /// is a turn that the memory is still to be told of.
    Stop { unannounced: Option<u32>, reviews: Vec<String> },
}

/// What a `QueryAction` holds.
pub enum ActionView {
    NextTurn,
    Compact { turn: u32 },
    Wait { attempt: u32, status: Option<u16>, retry_after: Option<Text> },
    DescribeImages,
    Open,
    CompactAgain,
    Reopen,
    Read { usage: Option<Usage> },
    ConfirmTools,
    RunTools { calls: Seq<CallView>, parallel: bool },
    CompressEdits(Seq<Text>),
    Sync { input: Text, summary: Text },
    Stop { unannounced: Option<u32>, reviews: Seq<Text> },
}

impl View for QueryAction {
    type V = ActionView;

    open spec fn view(&self) -> ActionView {
        match *self {
            QueryAction::NextTurn => ActionView::NextTurn,
            QueryAction::Compact { turn } => ActionView::Compact { turn },
            QueryAction::Wait { attempt, status, retry_after } => ActionView::Wait {
                attempt,
                status,
                retry_after: text::opt_text(retry_after),
            },
            QueryAction::DescribeImages => ActionView::DescribeImages,
            QueryAction::Open => ActionView::Open,
            QueryAction::CompactAgain => ActionView::CompactAgain,
            QueryAction::Reopen => ActionView::Reopen,
            QueryAction::Read { usage } => ActionView::Read { usage },
            QueryAction::ConfirmTools => ActionView::ConfirmTools,
            QueryAction::RunTools { calls, parallel } => ActionView::RunTools {
                calls: tool_exec::calls(calls@),
                parallel,
            },
            QueryAction::CompressEdits(ids) => ActionView::CompressEdits(text::texts(ids@)),
            QueryAction::Sync { input, summary } => ActionView::Sync {
                input: input@,
                summary: summary@,
            },
            QueryAction::Stop { unannounced, reviews } => ActionView::Stop {
                unannounced,
                reviews: text::texts(reviews@),
            },
        }
    }
}

/// A session and a query, what the terminal is told, and what is next.
#[verifier::ext_equal]
pub struct Step {
    pub engine: EngineView,
    pub run: QueryView,
    pub told: Seq<EventView>,
    pub action: ActionView,
}

// ---------------------------------------------------------------------------
// How a query starts
// ---------------------------------------------------------------------------

/// The entry of what the user said, with pictures.
pub open spec fn user_entry(input: Text, images: Seq<(Text, Text)>) -> EntryView {
    messages::plain_entry(
        Role::User,
        seq![ContentBlock::<Text, JsonView>::Text { text: input }] + images.map_values(
            |i: (Text, Text)|
                ContentBlock::<Text, JsonView>::Image {
                    media_type: i.0,
                    data: i.1,
                    source_path: Seq::empty(),
                },
        ),
    )
}

/// What a list of pictures holds.
pub open spec fn pictures_view(v: Seq<(String, String)>) -> Seq<(Text, Text)> {
    Seq::new(v.len(), |i: int| (v[i].0@, v[i].1@))
}

/// What the user said, as hooks left it.
pub open spec fn effective_input(user_input: Text, modified: Option<Text>) -> Text {
    match modified {
        Some(m) => m,
        None => user_input,
    }
}

/// A query that has not taken a turn.
pub open spec fn fresh_query(input: Text) -> QueryView {
    QueryView {
        input,
        turn: 0,
        auto_continue: 0,
        attempt: 0,
        last_error: None,
        too_long: None,
        stream: stream::nothing_streamed(),
        vision: Seq::empty(),
        phase: QueryPhase::Top,
    }
}

/// The session once the user has said something.
pub open spec fn engine_asked(
    engine: EngineView,
    user_input: Text,
    images: Seq<(Text, Text)>,
    modified: Option<Text>,
) -> EngineView {
    EngineView {
        history: engine.history.push(user_entry(effective_input(user_input, modified), images)),
        carryover: carryover::with_user_goal(engine.carryover, user_input),
        ..engine
    }
}

/// Start a query with what the user said, the pictures that came with it, and
/// what hooks made of it.
pub fn begin_query(
    engine: &mut QueryEngine,
    user_input: &str,
    images: &Vec<(String, String)>,
    modified: Option<String>,
) -> (r: QueryRun)
    ensures
        r@ == fresh_query(effective_input(user_input@, text::opt_text(modified))),
        final(engine)@ == engine_asked(
            old(engine)@,
            user_input@,
            pictures_view(images@),
            text::opt_text(modified),
        ),
{
    let input = match modified {
        Some(m) => m,
        None => text::copy(user_input),
    };
    let ghost pics = pictures_view(images@);
    let ghost want = user_entry(input@, pics).content;
    let mut blocks: Vec<ContentBlock> = Vec::new();
    blocks.push(ContentBlock::Text { text: text::copy(input.as_str()) });
    assert(api::blocks(blocks@) =~= want.take(1));
    let mut i: usize = 0;
    while i < images.len()
        invariant
            i <= images@.len(),
            pics == pictures_view(images@),
            want == user_entry(input@, pics).content,
            want.len() == images@.len() + 1,
            api::blocks(blocks@) == want.take(i + 1),
        decreases images@.len() - i,
    {
        let ghost was = api::blocks(blocks@);
        blocks.push(
            ContentBlock::Image {
                media_type: text::copy(images[i].0.as_str()),
                data: text::copy(images[i].1.as_str()),
                source_path: String::new(),
            },
        );
        assert(blocks@.last()@ == want[i + 1]);
        assert(api::blocks(blocks@) =~= was.push(want[i + 1]));
        assert(want.take(i + 2) =~= want.take(i + 1).push(want[i + 1]));
        i = i + 1;
    }
    assert(want.take(i + 1) =~= want);
    engine.history.push_user_blocks(blocks);
    engine.carryover.remember_user_goal(user_input);
    QueryRun {
        input,
        turn: 0,
        auto_continue: 0,
        attempt: 0,
        last_error: None,
        too_long: None,
        stream: StreamState::new(),
        vision: String::new(),
        phase: QueryPhase::Top,
    }
}

// ---------------------------------------------------------------------------
// How a query ends
// ---------------------------------------------------------------------------

/// How full the context window is.
pub open spec fn window_tokens(engine: EngineView) -> u64 {
    (engine.costs.last_prompt + engine.costs.last_output) as u64
}

/// The event that a query is over.
pub open spec fn query_done(engine: EngineView) -> EventView {
    EngineEvent::QueryDone { text: Seq::empty(), tool_calls: 0, tokens: window_tokens(engine) }
}

/// The turns since the last review, after one more, and the summary that a
/// review is given where one is due.
pub open spec fn reviewed(engine: EngineView) -> (u32, Option<Text>) {
    let n = (engine.turns_since_skill_review + 1) as u32;
    if review::review_due(n, engine.settings.skills) && engine.settings.can_delegate {
        (0, Some(context::conversation_summary(engine.history)))
    } else {
        (n, None)
    }
}

/// The session after a turn counted towards a review.
pub open spec fn after_review(engine: EngineView) -> EngineView {
    EngineView { turns_since_skill_review: reviewed(engine).0, ..engine }
}

/// The reviews with one more, where it is due.
pub open spec fn plus_review(reviews: Seq<Text>, due: Option<Text>) -> Seq<Text> {
    match due {
        Some(s) => reviews.push(s),
        None => reviews,
    }
}

/// The end of a query, where `reviews` are due already.
pub open spec fn stopped(
    engine: EngineView,
    run: QueryView,
    told: Seq<EventView>,
    turn: Option<u32>,
    reviews: Seq<Text>,
) -> Step {
    Step {
        engine: after_review(engine),
        run: QueryView { phase: QueryPhase::Over, ..run },
        told,
        action: ActionView::Stop { unannounced: turn, reviews: plus_review(reviews, reviewed(engine).1) },
    }
}

/// The end of a query that was interrupted: the conversation is left as the API
/// accepts it.
#[verifier::opaque]
pub open spec fn interrupted(engine: EngineView, run: QueryView, told: Seq<EventView>) -> Step {
    Step {
        engine: EngineView {
            steer: None,
            history: messages::sanitized(engine.history),
            ..engine
        },
        run: QueryView { phase: QueryPhase::Over, ..run },
        told: told.push(EngineEvent::Interrupted).push(query_done(engine)),
        action: ActionView::Stop { unannounced: None, reviews: Seq::empty() },
    }
}

fn tell(told: &mut Vec<EngineEvent>, e: EngineEvent)
    ensures
        tui_events::events(final(told)@) == tui_events::events(old(told)@).push(e@),
{
    tui_events::push_event(told, e);
}

fn tell_status(told: &mut Vec<EngineEvent>, msg: &str)
    ensures
        tui_events::events(final(told)@) == tui_events::events(old(told)@).push(
            EngineEvent::<Text>::Status(msg@),
        ),
{
    tui_events::push_event(told, EngineEvent::Status(text::copy(msg)));
}

fn tell_done(engine: &QueryEngine, told: &mut Vec<EngineEvent>)
    requires
        engine@.costs.last_prompt + engine@.costs.last_output <= u64::MAX,
    ensures
        tui_events::events(final(told)@) == tui_events::events(old(told)@).push(
            query_done(engine@),
        ),
{
    let e = EngineEvent::QueryDone {
        text: String::new(),
        tool_calls: 0,
        tokens: engine.cost_tracker.last_prompt_tokens + engine.cost_tracker.last_output_tokens,
    };
    assert(e@ == query_done(engine@));
    tui_events::push_event(told, e);
}

/// Count a turn towards a review. Returns the summary that a review is given
/// where one is due.
pub fn maybe_spawn_background_review(engine: &mut QueryEngine) -> (r: Option<String>)
    requires
        old(engine)@.turns_since_skill_review < u32::MAX,
    ensures
        final(engine)@ == after_review(old(engine)@),
        text::opt_text(r) == reviewed(old(engine)@).1,
{
    let n: u32 = engine.turns_since_skill_review + 1;
    if review::should_run_review(n, &engine.settings.skills) && engine.settings.can_delegate {
        let summary = context::build_conversation_summary(&engine.history);
        engine.turns_since_skill_review = 0;
        Some(summary)
    } else {
        engine.turns_since_skill_review = n;
        None
    }
}

fn stop(
    engine: &mut QueryEngine,
    run: &mut QueryRun,
    told: &mut Vec<EngineEvent>,
    turn: Option<u32>,
    reviews: Vec<String>,
) -> (r: QueryAction)
    requires
        old(engine)@.turns_since_skill_review < u32::MAX,
    ensures
        ({
            let want = stopped(
                old(engine)@,
                old(run)@,
                tui_events::events(old(told)@),
                turn,
                text::texts(reviews@),
            );
            &&& final(engine)@ == want.engine
            &&& final(run)@ == want.run
            &&& tui_events::events(final(told)@) == want.told
            &&& r@ == want.action
        }),
{
    let mut all = reviews;
    if let Some(s) = maybe_spawn_background_review(engine) {
        text::push_text(&mut all, s);
    }
    run.phase = QueryPhase::Over;
    QueryAction::Stop { unannounced: turn, reviews: all }
}

/// End a query that was interrupted.
pub fn handle_interrupt(
    engine: &mut QueryEngine,
    run: &mut QueryRun,
    told: &mut Vec<EngineEvent>,
) -> (r: QueryAction)
    requires
        old(engine)@.costs.last_prompt + old(engine)@.costs.last_output <= u64::MAX,
    ensures
        ({
            let want = interrupted(old(engine)@, old(run)@, tui_events::events(old(told)@));
            &&& final(engine)@ == want.engine
            &&& final(run)@ == want.run
            &&& tui_events::events(final(told)@) == want.told
            &&& r@ == want.action
        }),
{
    proof {
        reveal(interrupted);
    }
    engine.clear_steer();
    engine.history.sanitize();
    tell(told, EngineEvent::Interrupted);
    tell_done(engine, told);
    run.phase = QueryPhase::Over;
    let r = QueryAction::Stop { unannounced: None, reviews: Vec::new() };
    assert(r@->reviews =~= Seq::<Text>::empty());
    r
}

// ---------------------------------------------------------------------------
// The start of a turn
// ---------------------------------------------------------------------------

/// The start of a turn: its compaction, or the end where all turns are taken.
#[verifier::opaque]
pub open spec fn turn_started(engine: EngineView, run: QueryView, told: Seq<EventView>) -> Step {
    let turn = (run.turn + 1) as u32;
    let next = QueryView { turn, ..run };
    if turn > engine.max_turns {
        let quiet = EngineView { steer: None, ..engine };
        stopped(
            quiet,
            next,
            told.push(
                EngineEvent::Status(
                    "max turns ("@ + text::decimal(engine.max_turns as nat)
                        + ") reached — task may not be complete. Type '继续' or 'continue' to resume."@,
                ),
            ).push(query_done(quiet)),
            Some(turn),
            Seq::empty(),
        )
    } else {
        Step {
            engine,
            run: QueryView { phase: QueryPhase::Compacting, ..next },
            told,
            action: ActionView::Compact { turn },
        }
    }
}

fn start_turn(engine: &mut QueryEngine, run: &mut QueryRun, told: &mut Vec<EngineEvent>) -> (r:
    QueryAction)
    requires
        old(run)@.turn < u32::MAX,
        old(engine)@.turns_since_skill_review < u32::MAX,
        old(engine)@.costs.last_prompt + old(engine)@.costs.last_output <= u64::MAX,
    ensures
        ({
            let want = turn_started(old(engine)@, old(run)@, tui_events::events(old(told)@));
            &&& final(engine)@ == want.engine
            &&& final(run)@ == want.run
            &&& tui_events::events(final(told)@) == want.told
            &&& r@ == want.action
        }),
{
    proof {
        reveal(turn_started);
    }
    run.turn = run.turn + 1;
    if run.turn > engine.max_turns {
        let n = text::number(engine.max_turns as u64);
        let msg = text::cat3(
            "max turns (",
            n.as_str(),
            ") reached — task may not be complete. Type '继续' or 'continue' to resume.",
        );
        tell_status(told, msg.as_str());
        engine.clear_steer();
        tell_done(engine, told);
        let turn: u32 = run.turn;
        let none: Vec<String> = Vec::new();
        assert(text::texts(none@) =~= Seq::<Text>::empty());
        stop(engine, run, told, Some(turn), none)
    } else {
        run.phase = QueryPhase::Compacting;
        QueryAction::Compact { turn: run.turn }
    }
}

// ---------------------------------------------------------------------------
// Requests
// ---------------------------------------------------------------------------

/// Whether the active provider's models take pictures.
pub open spec fn sees_images(engine: EngineView) -> bool {
    match query_engine::provider_named(
        engine.settings.providers,
        engine.settings.active_provider,
    ) {
        Some(p) => p.sees_images,
        None => false,
    }
}

/// `n` times the same status.
pub open spec fn analyzing(n: nat) -> Seq<EventView> {
    Seq::new(
        n,
        |i: int| EngineEvent::<Text>::Status("Analyzing image via auxiliary model..."@),
    )
}

/// A request is prepared: the conversation as the API accepts it, its pictures
/// described where the model cannot see them.
#[verifier::opaque]
pub open spec fn prepared(engine: EngineView, run: QueryView, told: Seq<EventView>) -> Step {
    let clean = EngineView { history: messages::sanitized(engine.history), ..engine };
    let images = context::images_of(clean.history);
    let blank = QueryView { vision: Seq::empty(), ..run };
    if !sees_images(clean) && images.len() > 0 {
        Step {
            engine: clean,
            run: QueryView { phase: QueryPhase::Describing, ..blank },
            told: told + analyzing(images.len()),
            action: ActionView::DescribeImages,
        }
    } else {
        Step {
            engine: clean,
            run: QueryView { phase: QueryPhase::Opening, ..blank },
            told,
            action: ActionView::Open,
        }
    }
}

/// What is said before a request is made again.
pub open spec fn retry_status(last_error: Option<ApiError<Text>>, attempt: u32, max: u32) -> Text {
    (match last_error {
        Some(e) => "LLM response failed: "@ + api::error_message(e),
        None => "LLM response empty"@,
    }) + " — retrying ("@ + text::decimal(attempt as nat) + "/"@ + text::decimal(max as nat)
        + ")..."@
}

/// What the server said with an error.
pub open spec fn error_status(last_error: Option<ApiError<Text>>) -> Option<u16> {
    match last_error {
        Some(ApiError::Http { status, .. }) => Some(status),
        _ => None,
    }
}

/// What the server said of when to ask again.
pub open spec fn error_retry_after(last_error: Option<ApiError<Text>>) -> Option<Text> {
    match last_error {
        Some(ApiError::Http { retry_after, .. }) => retry_after,
        _ => None,
    }
}

/// A request is made, for the first time or again.
pub open spec fn attempted(
    engine: EngineView,
    run: QueryView,
    told: Seq<EventView>,
    attempt: u32,
) -> Step {
    let next = QueryView { attempt, stream: stream::nothing_streamed(), ..run };
    if attempt > 0 {
        Step {
            engine,
            run: QueryView { phase: QueryPhase::Waiting, ..next },
            told: told.push(
                EngineEvent::Status(
                    retry_status(run.last_error, attempt, engine.settings.max_retries),
                ),
            ),
            action: ActionView::Wait {
                attempt,
                status: error_status(run.last_error),
                retry_after: error_retry_after(run.last_error),
            },
        }
    } else {
        prepared(engine, next, told)
    }
}

/// A request is made again, or what has come is taken as it is.
pub open spec fn tried_again(engine: EngineView, run: QueryView, told: Seq<EventView>) -> Step {
    if run.attempt < engine.settings.max_retries {
        attempted(engine, run, told, (run.attempt + 1) as u32)
    } else {
        responded(engine, run, told)
    }
}

/// The requests of a turn start once the conversation was compacted.
#[verifier::opaque]
pub open spec fn compacted(
    engine: EngineView,
    run: QueryView,
    told: Seq<EventView>,
    result: Option<CompactResult>,
) -> Step {
    let said = match result {
        Some(r) => told.push(
            EngineEvent::CompactProgress {
                method: match r.method {
                    CompactMethod::Micro => "micro"@,
                    CompactMethod::Full => "full"@,
                },
                tokens_before: r.tokens_before as u64,
                tokens_after: r.tokens_after as u64,
            },
        ),
        None => told,
    };
    attempted(
        EngineView { history: messages::sanitized(engine.history), ..engine },
        QueryView { last_error: None, too_long: None, ..run },
        said,
        0,
    )
}

/// No stream could be opened: a request that was too long is made again after a
/// compaction, any other after a pause.
#[verifier::opaque]
pub open spec fn open_failed(
    engine: EngineView,
    run: QueryView,
    told: Seq<EventView>,
    error: ApiError<Text>,
    too_long: bool,
) -> Step {
    if run.phase == QueryPhase::Opening && too_long {
        Step {
            engine,
            run: QueryView {
                too_long: Some(error),
                phase: QueryPhase::CompactingAgain,
                ..run
            },
            told: told.push(EngineEvent::Status("Prompt too long, compressing..."@)),
            action: ActionView::CompactAgain,
        }
    } else {
        tried_again(engine, QueryView { last_error: Some(error), ..run }, told)
    }
}

/// The request that was too long is made again where a compaction helped.
#[verifier::opaque]
pub open spec fn compacted_again(
    engine: EngineView,
    run: QueryView,
    told: Seq<EventView>,
    result: Option<CompactResult>,
) -> Step {
    match result {
        Some(r) => Step {
            engine: EngineView { history: messages::sanitized(engine.history), ..engine },
            run: QueryView { too_long: None, phase: QueryPhase::Reopening, ..run },
            told: told.push(
                EngineEvent::Status(
                    "reactive-compact: "@ + text::decimal(r.tokens_before as nat) + " → "@
                        + text::decimal(r.tokens_after as nat) + " tokens"@,
                ),
            ),
            action: ActionView::Reopen,
        },
        None => tried_again(
            engine,
            QueryView { last_error: run.too_long, too_long: None, ..run },
            told,
        ),
    }
}

// ---------------------------------------------------------------------------
// The reply
// ---------------------------------------------------------------------------

/// Whether the model says that the task is complete.
pub open spec fn says_done(text: Text) -> bool {
    text::has_substring(text, "[DONE]"@)
}

/// A reply without the word that the task is complete.
pub open spec fn without_done(text: Text) -> Text {
    if says_done(text) {
        text::replaced(text, "[DONE]"@, Seq::empty())
    } else {
        text
    }
}

/// The tool calls of a reply as blocks.
pub open spec fn call_blocks(tus: Seq<CallView>) -> Seq<BlockView> {
    tus.map_values(
        |t: CallView|
            ContentBlock::<Text, JsonView>::ToolUse {
                id: t.id,
                name: t.name,
                input: json_utils::tool_input_or_empty(t.input_json),
            },
    )
}

/// A text as blocks: none where `keep` does not hold.
pub open spec fn text_blocks(text: Text, keep: bool) -> Seq<BlockView> {
    if keep {
        seq![ContentBlock::<Text, JsonView>::Text { text }]
    } else {
        Seq::empty()
    }
}

/// The entry of a reply.
pub open spec fn reply_entry(st: StreamView) -> EntryView {
    EntryView {
        role: Role::Assistant,
        content: text_blocks(st.text, st.text.len() > 0) + call_blocks(st.calls),
        reasoning_content: if st.reasoning.len() == 0 {
            None
        } else {
            Some(st.reasoning)
        },
    }
}

/// The session with one more user message.
pub open spec fn with_user(engine: EngineView, s: Text) -> EngineView {
    EngineView {
        history: engine.history.push(messages::text_entry(Role::User, s)),
        ..engine
    }
}

/// The session with the reminder of the goal, where there is one.
pub open spec fn with_reminder(engine: EngineView) -> EngineView {
    match carryover::continuation(engine.carryover) {
        Some(prompt) => with_user(engine, prompt),
        None => engine,
    }
}

/// The model is asked to go on by itself.
pub open spec fn continued(
    engine: EngineView,
    run: QueryView,
    told: Seq<EventView>,
    status: Text,
) -> Step {
    Step {
        engine,
        run: QueryView {
            auto_continue: (run.auto_continue + 1) as u32,
            phase: QueryPhase::Top,
            ..run
        },
        told: told.push(EngineEvent::Status(status)),
        action: ActionView::NextTurn,
    }
}

/// Whether the model may be asked to go on by itself once more.
pub open spec fn may_continue(engine: EngineView, run: QueryView) -> bool {
    run.auto_continue < engine.settings.max_auto_continue
}

/// Whether there is a goal.
pub open spec fn has_goal(engine: EngineView) -> bool {
    engine.carryover.task_focus.goal.len() > 0
}

/// What is said of a reply that came to nothing.
pub open spec fn empty_status(engine: EngineView, run: QueryView) -> Text {
    "Model returned empty response after "@ + text::decimal(
        (engine.settings.max_retries + 1) as nat,
    ) + " attempts"@ + (match run.last_error {
        Some(e) => ". Last error: "@ + api::error_message(e),
        None => Seq::empty(),
    })
}

/// A reply that came to nothing: the model is reminded of its goal, or the query
/// ends.
pub open spec fn empty_response(engine: EngineView, run: QueryView, told: Seq<EventView>) -> Step {
    let said = told.push(EngineEvent::Status(empty_status(engine, run)));
    if may_continue(engine, run) && has_goal(engine) {
        continued(
            with_reminder(engine),
            run,
            said,
            "Model returned empty — retrying with goal reminder..."@,
        )
    } else {
        stopped(engine, run, said.push(query_done(engine)), None, Seq::empty())
    }
}

/// What the model is told when its output was cut off.
pub open spec fn cut_off_prompt() -> Text {
    "Your previous response was cut off because it reached the maximum output token limit. Please continue from exactly where you left off — do not repeat what you already said."@
}

/// What the model is told when it has only thought so far.
pub open spec fn respond_prompt() -> Text {
    "Please provide your response or tool calls based on your analysis above. Do not repeat your reasoning."@
}

/// The query ends with the reply.
pub open spec fn concluded(engine: EngineView, run: QueryView, told: Seq<EventView>) -> Step {
    let settled = EngineView {
        carryover: carryover::without_goal(engine.carryover),
        steer: None,
        ..engine
    };
    stopped(
        after_review(settled),
        run,
        told.push(query_done(settled)),
        None,
        plus_review(Seq::empty(), reviewed(settled).1),
    )
}

/// A reply without tool calls: it was cut off, the model has only thought so
/// far, the goal is not reached, or the query ends.
pub open spec fn text_response(
    engine: EngineView,
    run: QueryView,
    told: Seq<EventView>,
    done: bool,
) -> Step {
    let st = run.stream;
    if st.stop_reason == Some(StopReason::MaxTokens) && may_continue(engine, run) {
        continued(
            with_user(engine, cut_off_prompt()),
            run,
            told,
            "Output truncated (max tokens reached) — continuing..."@,
        )
    } else if !text::is_blank(st.reasoning) && text::is_blank(st.text) && may_continue(
        engine,
        run,
    ) {
        continued(
            match carryover::continuation(engine.carryover) {
                Some(prompt) => with_user(engine, prompt),
                None => with_user(engine, respond_prompt()),
            },
            run,
            told,
            "Model is thinking..."@,
        )
    } else if !done && may_continue(engine, run) && has_goal(engine) {
        continued(
            with_reminder(engine),
            run,
            told,
            "Task not complete — enforcing tool use..."@,
        )
    } else {
        concluded(engine, run, told)
    }
}

/// What a reply leads to.
pub open spec fn responded(engine: EngineView, run: QueryView, told: Seq<EventView>) -> Step {
    let done = says_done(run.stream.text);
    let st = StreamView { text: without_done(run.stream.text), ..run.stream };
    let next = QueryView { stream: st, ..run };
    if stream::is_empty_reply(st) {
        empty_response(engine, next, told)
    } else {
        let heard = EngineView { history: engine.history.push(reply_entry(st)), ..engine };
        if st.calls.len() == 0 {
            text_response(heard, next, told, done)
        } else {
            Step {
                engine: heard,
                run: QueryView { phase: QueryPhase::Ready, ..next },
                told,
                action: ActionView::ConfirmTools,
            }
        }
    }
}

/// A stream is at its end: what has come is taken, unless it is nothing and the
/// request can be made again.
#[verifier::opaque]
pub open spec fn stream_ended(engine: EngineView, run: QueryView, told: Seq<EventView>) -> Step {
    let next = QueryView { stream: stream::flushed(run.stream), ..run };
    if stream::is_empty_reply(next.stream) && run.attempt < engine.settings.max_retries {
        tried_again(engine, next, told)
    } else {
        responded(engine, next, told)
    }
}

/// A stream broke or fell silent: the request is made again, or what has come is
/// taken as it is.
#[verifier::opaque]
pub open spec fn stream_broken(
    engine: EngineView,
    run: QueryView,
    told: Seq<EventView>,
    error: Option<ApiError<Text>>,
) -> Step {
    let flushed = QueryView { stream: stream::flushed(run.stream), ..run };
    tried_again(
        engine,
        QueryView {
            last_error: if error is Some {
                error
            } else {
                run.last_error
            },
            ..flushed
        },
        told,
    )
}

/// A reply that is interrupted: what was said so far stays.
#[verifier::opaque]
pub open spec fn reply_interrupted(
    engine: EngineView,
    run: QueryView,
    told: Seq<EventView>,
) -> Step {
    let st = run.stream;
    let kept = if text::is_blank(st.text) {
        engine
    } else {
        EngineView {
            history: engine.history.push(
                EntryView {
                    role: Role::Assistant,
                    content: text_blocks(st.text, true),
                    reasoning_content: if st.reasoning.len() == 0 {
                        None
                    } else {
                        Some(st.reasoning)
                    },
                },
            ),
            ..engine
        }
    };
    interrupted(kept, run, told)
}

// ---------------------------------------------------------------------------
// Tools
// ---------------------------------------------------------------------------

/// What the terminal is told of calls that start.
pub open spec fn start_events(tus: Seq<CallView>) -> Seq<EventView> {
    tus.map_values(
        |t: CallView|
            EngineEvent::<Text>::ToolStart {
                name: t.name,
                input_summary: tool_display::input_summary(
                    t.name,
                    json_utils::tool_input_or_empty(t.input_json),
                ),
            },
    )
}

/// The tools run, unless the query was cancelled.
#[verifier::opaque]
pub open spec fn tools_ready(
    engine: EngineView,
    run: QueryView,
    told: Seq<EventView>,
    cancelled: bool,
) -> Step {
    let st = run.stream;
    if cancelled {
        let content = text_blocks(st.text, !text::is_blank(st.text)) + call_blocks(st.calls);
        interrupted(
            EngineView {
                history: engine.history.push(messages::plain_entry(Role::Assistant, content)),
                ..engine
            },
            run,
            told,
        )
    } else {
        Step {
            engine,
            run: QueryView { phase: QueryPhase::Tools, ..run },
            told: told + start_events(st.calls),
            action: ActionView::RunTools {
                calls: st.calls,
                parallel: tool_exec::may_run_together(st.calls, engine.cwd, engine.home),
            },
        }
    }
}

/// The results are there.
#[verifier::opaque]
pub open spec fn tools_ran(
    engine: EngineView,
    run: QueryView,
    told: Seq<EventView>,
    results: Seq<BlockView>,
    cancelled: bool,
) -> Step {
    let next = EngineView {
        history: engine.history.push(messages::plain_entry(Role::User, results)),
        ..engine
    };
    if cancelled {
        interrupted(next, run, told)
    } else {
        Step {
            engine: next,
            run: QueryView { phase: QueryPhase::Edits, ..run },
            told,
            action: ActionView::CompressEdits(context::edits_done(run.stream.calls, results)),
        }
    }
}

/// The session once what the user said in between has reached the model.
pub open spec fn guided(engine: EngineView) -> EngineView {
    match engine.steer {
        Some(s) => if messages::takes_guidance(engine.history) {
            EngineView {
                steer: None,
                history: messages::with_guidance(engine.history, s),
                ..engine
            }
        } else {
            with_user(EngineView { steer: None, ..engine }, s)
        },
        None => engine,
    }
}

/// What the terminal is told of what the user said in between.
pub open spec fn guidance_events(steer: Option<Text>) -> Seq<EventView> {
    match steer {
        Some(s) => seq![
            EngineEvent::<Text>::Status("⇢ Steered: "@ + json_utils::safely_truncated(s, 60)),
            EngineEvent::<Text>::SteerHandled,
        ],
        None => Seq::empty(),
    }
}

/// A turn is over: edits are shortened, the user's guidance is taken up, and the
/// working memory is brought up to date.
#[verifier::opaque]
pub open spec fn turn_ended(
    engine: EngineView,
    run: QueryView,
    told: Seq<EventView>,
    edits: Seq<(Text, JsonView)>,
) -> Step {
    let short = EngineView {
        history: messages::with_compressed_inputs(engine.history, edits),
        ..engine
    };
    let heard = guided(short);
    Step {
        engine: EngineView {
            carryover: context::after_calls(
                heard.carryover,
                context::last_content(heard.history),
                run.stream.calls,
            ),
            ..heard
        },
        run: QueryView { phase: QueryPhase::Top, ..run },
        told: told + guidance_events(engine.steer),
        action: ActionView::Sync {
            input: run.input,
            summary: context::turn_summary(run.stream.text, run.stream.calls),
        },
    }
}

// ---------------------------------------------------------------------------
// The loop
// ---------------------------------------------------------------------------

/// Whether an event is what a query waits for.
pub open spec fn awaits(phase: QueryPhase, event: QueryEventView) -> bool {
    match event {
        QueryEventView::TurnTop { .. } => phase == QueryPhase::Top,
        QueryEventView::Compacted(_) => phase == QueryPhase::Compacting || phase
            == QueryPhase::CompactingAgain,
        QueryEventView::Waited => phase == QueryPhase::Waiting,
        QueryEventView::Described(_) => phase == QueryPhase::Describing,
        QueryEventView::Opened => phase == QueryPhase::Opening || phase == QueryPhase::Reopening,
        QueryEventView::OpenFailed(_) => phase == QueryPhase::Opening || phase
            == QueryPhase::Reopening,
        QueryEventView::Piece(_) => phase == QueryPhase::Streaming,
        QueryEventView::StreamEnded => phase == QueryPhase::Streaming,
        QueryEventView::StreamTimedOut => phase == QueryPhase::Streaming,
        QueryEventView::StreamFailed(_) => phase == QueryPhase::Streaming,
        QueryEventView::ToolsReady { .. } => phase == QueryPhase::Ready,
        QueryEventView::ToolsRan { .. } => phase == QueryPhase::Tools,
        QueryEventView::ToolsAborted => phase == QueryPhase::Tools,
        QueryEventView::EditsCompressed(_) => phase == QueryPhase::Edits,
        QueryEventView::Cancelled => phase == QueryPhase::Compacting || phase
            == QueryPhase::Opening || phase == QueryPhase::CompactingAgain || phase
            == QueryPhase::Reopening || phase == QueryPhase::Streaming,
    }
}

/// Whether no count leaves its bounds, and as many pictures are described as
/// there are.
pub open spec fn has_room(engine: EngineView, run: QueryView, event: QueryEventView) -> bool {
    &&& engine.costs.last_prompt + engine.costs.last_output <= u64::MAX
    &&& engine.turns_since_skill_review < u32::MAX - 1
    &&& event is TurnTop ==> run.turn < u32::MAX
    &&& event matches QueryEventView::Described(analyses) ==> analyses.len() == context::images_of(
        engine.history,
    ).len()
    &&& event matches QueryEventView::Piece(e) ==> stream::can_cost(
        engine.costs,
        engine.model,
        run.stream,
        e,
    )
}

/// What an event leads to. `too_long` says whether the error that came with it
/// is that the request was too long.
pub open spec fn stepped(
    engine: EngineView,
    run: QueryView,
    event: QueryEventView,
    too_long: bool,
) -> Step {
    let told = Seq::<EventView>::empty();
    match event {
        QueryEventView::TurnTop { cancelled } => if cancelled {
            interrupted(engine, run, told)
        } else {
            turn_started(engine, run, told)
        },
        QueryEventView::Compacted(result) => if run.phase == QueryPhase::Compacting {
            compacted(engine, run, told, result)
        } else {
            compacted_again(engine, run, told, result)
        },
        QueryEventView::Waited => prepared(engine, run, told),
        QueryEventView::Described(analyses) => Step {
            engine: EngineView {
                history: context::without_images(engine.history),
                ..engine
            },
            run: QueryView {
                vision: context::vision_context(context::images_of(engine.history), analyses),
                phase: QueryPhase::Opening,
                ..run
            },
            told,
            action: ActionView::Open,
        },
        QueryEventView::Opened => Step {
            engine,
            run: QueryView { phase: QueryPhase::Streaming, ..run },
            told,
            action: ActionView::Read { usage: None },
        },
        QueryEventView::OpenFailed(error) => open_failed(engine, run, told, error, too_long),
        QueryEventView::Piece(e) => Step {
            engine: EngineView {
                costs: stream::costs_after(engine.costs, engine.model, run.stream, e),
                ..engine
            },
            run: QueryView { stream: stream::streamed(run.stream, e), ..run },
            told: stream::piece_events(engine.costs, engine.model, run.stream, e),
            action: ActionView::Read { usage: stream::completed_usage(run.stream, e) },
        },
        QueryEventView::StreamEnded => stream_ended(engine, run, told),
        QueryEventView::StreamTimedOut => stream_broken(
            engine,
            run,
            told.push(
                EngineEvent::Error(
                    "Stream timed out after "@ + text::decimal(
                        engine.settings.stream_timeout_secs as nat,
                    ) + "s of inactivity."@,
                ),
            ),
            None,
        ),
        QueryEventView::StreamFailed(error) => stream_broken(engine, run, told, Some(error)),
        QueryEventView::ToolsReady { cancelled } => tools_ready(engine, run, told, cancelled),
        QueryEventView::ToolsRan { results, cancelled } => tools_ran(
            engine,
            run,
            told,
            results,
            cancelled,
        ),
        QueryEventView::ToolsAborted => interrupted(engine, run, told),
        QueryEventView::EditsCompressed(edits) => turn_ended(engine, run, told, edits),
        QueryEventView::Cancelled => if run.phase == QueryPhase::Streaming {
            reply_interrupted(engine, run, told)
        } else {
            interrupted(engine, run, told)
        },
    }
}

fn provider_sees_images(engine: &QueryEngine) -> (r: bool)
    ensures
        r == sees_images(engine@),
{
    match engine.settings.provider(engine.settings.active_provider.as_str()) {
        Some(p) => p.sees_images,
        None => false,
    }
}

fn prepare(engine: &mut QueryEngine, run: &mut QueryRun, told: &mut Vec<EngineEvent>) -> (r:
    QueryAction)
    ensures
        (Step {
            engine: final(engine)@,
            run: final(run)@,
            told: tui_events::events(final(told)@),
            action: r@,
        }) == prepared(old(engine)@, old(run)@, tui_events::events(old(told)@)),
{
    proof {
        reveal(prepared);
    }
    let ghost before = tui_events::events(told@);
    engine.history.sanitize();
    run.vision = String::new();
    if !provider_sees_images(engine) {
        let images = context::list_images(&engine.history);
        let ghost ims = context::images_of(engine@.history);
        assert(ims.len() == images@.len());
        if images.len() > 0 {
            let mut i: usize = 0;
            assert(before + analyzing(0) =~= before);
            while i < images.len()
                invariant
                    i <= images@.len(),
                    tui_events::events(told@) == before + analyzing(i as nat),
                decreases images@.len() - i,
            {
                tell_status(told, "Analyzing image via auxiliary model...");
                assert(before + analyzing((i + 1) as nat) =~= (before + analyzing(i as nat)).push(
                    EngineEvent::<Text>::Status("Analyzing image via auxiliary model..."@),
                ));
                i = i + 1;
            }
            run.phase = QueryPhase::Describing;
            return QueryAction::DescribeImages;
        }
    }
    run.phase = QueryPhase::Opening;
    QueryAction::Open
}

fn word_retry(last_error: &Option<ApiError>, attempt: u32, max: u32) -> (r: String)
    ensures
        r@ == retry_status(opt_error(*last_error), attempt, max),
{
    let head = match last_error {
        Some(e) => {
            let m = e.message();
            text::cat2("LLM response failed: ", m.as_str())
        },
        None => text::copy("LLM response empty"),
    };
    let a = text::number(attempt as u64);
    let b = text::number(max as u64);
    text::cat6(head.as_str(), " — retrying (", a.as_str(), "/", b.as_str(), ")...")
}

fn attempt_request(
    engine: &mut QueryEngine,
    run: &mut QueryRun,
    told: &mut Vec<EngineEvent>,
    attempt: u32,
) -> (r: QueryAction)
    ensures
        (Step {
            engine: final(engine)@,
            run: final(run)@,
            told: tui_events::events(final(told)@),
            action: r@,
        }) == attempted(old(engine)@, old(run)@, tui_events::events(old(told)@), attempt),
{
    run.attempt = attempt;
    run.stream = StreamState::new();
    if attempt > 0 {
        let msg = word_retry(&run.last_error, attempt, engine.settings.max_retries);
        tell_status(told, msg.as_str());
        run.phase = QueryPhase::Waiting;
        let status = match &run.last_error {
            Some(ApiError::Http { status, .. }) => Some(*status),
            _ => None,
        };
        let retry_after = match &run.last_error {
            Some(ApiError::Http { retry_after, .. }) => text::copy_opt(retry_after),
            _ => None,
        };
        QueryAction::Wait { attempt, status, retry_after }
    } else {
        prepare(engine, run, told)
    }
}

fn ask_to_continue(run: &mut QueryRun, told: &mut Vec<EngineEvent>, status: &str) -> (r:
    QueryAction)
    requires
        old(run)@.auto_continue < u32::MAX,
    ensures
        final(run)@ == (QueryView {
            auto_continue: (old(run)@.auto_continue + 1) as u32,
            phase: QueryPhase::Top,
            ..old(run)@
        }),
        tui_events::events(final(told)@) == tui_events::events(old(told)@).push(
            EngineEvent::<Text>::Status(status@),
        ),
        r@ == ActionView::NextTurn,
{
    run.auto_continue = run.auto_continue + 1;
    run.phase = QueryPhase::Top;
    tell_status(told, status);
    QueryAction::NextTurn
}

fn remind(engine: &mut QueryEngine)
    ensures
        final(engine)@ == with_reminder(old(engine)@),
{
    if let Some(prompt) = engine.carryover.build_continuation_prompt() {
        engine.history.push_user(prompt.as_str());
    }
}

fn respond_empty(engine: &mut QueryEngine, run: &mut QueryRun, told: &mut Vec<EngineEvent>) -> (r:
    QueryAction)
    requires
        old(engine)@.turns_since_skill_review < u32::MAX,
        old(engine)@.costs.last_prompt + old(engine)@.costs.last_output <= u64::MAX,
    ensures
        (Step {
            engine: final(engine)@,
            run: final(run)@,
            told: tui_events::events(final(told)@),
            action: r@,
        }) == empty_response(old(engine)@, old(run)@, tui_events::events(old(told)@)),
{
    let n = text::number(engine.settings.max_retries as u64 + 1);
    let detail = match &run.last_error {
        Some(e) => {
            let m = e.message();
            text::cat2(". Last error: ", m.as_str())
        },
        None => String::new(),
    };
    let msg = text::cat4(
        "Model returned empty response after ",
        n.as_str(),
        " attempts",
        detail.as_str(),
    );
    tell_status(told, msg.as_str());
    if run.auto_continue < engine.settings.max_auto_continue && engine.carryover.has_pending_goal() {
        remind(engine);
        ask_to_continue(run, told, "Model returned empty — retrying with goal reminder...")
    } else {
        tell_done(engine, told);
        let none: Vec<String> = Vec::new();
        assert(text::texts(none@) =~= Seq::<Text>::empty());
        stop(engine, run, told, None, none)
    }
}

fn conclude(engine: &mut QueryEngine, run: &mut QueryRun, told: &mut Vec<EngineEvent>) -> (r:
    QueryAction)
    requires
        old(engine)@.turns_since_skill_review < u32::MAX - 1,
        old(engine)@.costs.last_prompt + old(engine)@.costs.last_output <= u64::MAX,
    ensures
        (Step {
            engine: final(engine)@,
            run: final(run)@,
            told: tui_events::events(final(told)@),
            action: r@,
        }) == concluded(old(engine)@, old(run)@, tui_events::events(old(told)@)),
{
    engine.carryover.clear_goal();
    engine.clear_steer();
    let mut reviews: Vec<String> = Vec::new();
    assert(text::texts(reviews@) =~= Seq::<Text>::empty());
    let due = maybe_spawn_background_review(engine);
    if let Some(s) = due {
        text::push_text(&mut reviews, s);
    }
    tell_done(engine, told);
    stop(engine, run, told, None, reviews)
}

fn respond_text(
    engine: &mut QueryEngine,
    run: &mut QueryRun,
    told: &mut Vec<EngineEvent>,
    done: bool,
) -> (r: QueryAction)
    requires
        old(engine)@.turns_since_skill_review < u32::MAX - 1,
        old(engine)@.costs.last_prompt + old(engine)@.costs.last_output <= u64::MAX,
    ensures
        (Step {
            engine: final(engine)@,
            run: final(run)@,
            told: tui_events::events(final(told)@),
            action: r@,
        }) == text_response(old(engine)@, old(run)@, tui_events::events(old(told)@), done),
{
    let more = run.auto_continue < engine.settings.max_auto_continue;
    if run.stream.stop_reason == Some(StopReason::MaxTokens) && more {
        engine.history.push_user(
            "Your previous response was cut off because it reached the maximum output token limit. Please continue from exactly where you left off — do not repeat what you already said.",
        );
        ask_to_continue(run, told, "Output truncated (max tokens reached) — continuing...")
    } else if !text::blank(run.stream.reasoning.as_str()) && text::blank(run.stream.text.as_str())
        && more {
        match engine.carryover.build_continuation_prompt() {
            Some(prompt) => {
                engine.history.push_user(prompt.as_str());
            },
            None => {
                engine.history.push_user(
                    "Please provide your response or tool calls based on your analysis above. Do not repeat your reasoning.",
                );
            },
        }
        ask_to_continue(run, told, "Model is thinking...")
    } else if !done && more && engine.carryover.has_pending_goal() {
        remind(engine);
        ask_to_continue(run, told, "Task not complete — enforcing tool use...")
    } else {
        conclude(engine, run, told)
    }
}

fn make_call_blocks(calls: &Vec<CollectedToolUse>, head: Vec<ContentBlock>) -> (r: Vec<
    ContentBlock,
>)
    ensures
        api::blocks(r@) == api::blocks(head@) + call_blocks(tool_exec::calls(calls@)),
{
    let ghost tus = tool_exec::calls(calls@);
    let ghost want = call_blocks(tus);
    let ghost first = api::blocks(head@);
    let mut out = head;
    let mut i: usize = 0;
    assert(first + want.take(0) =~= first);
    while i < calls.len()
        invariant
            i <= calls@.len(),
            tus == tool_exec::calls(calls@),
            want == call_blocks(tus),
            api::blocks(out@) == first + want.take(i as int),
        decreases calls@.len() - i,
    {
        let ghost was = api::blocks(out@);
        let input = json_utils::parse_tool_input_or_empty(calls[i].input_json.as_str());
        out.push(
            ContentBlock::ToolUse {
                id: text::copy(calls[i].id.as_str()),
                name: text::copy(calls[i].name.as_str()),
                input,
            },
        );
        assert(out@.last()@ == want[i as int]);
        assert(api::blocks(out@) =~= was.push(want[i as int]));
        assert(first + want.take(i + 1) =~= (first + want.take(i as int)).push(want[i as int]));
        i = i + 1;
    }
    assert(want.take(i as int) =~= want);
    out
}

fn make_text_blocks(s: &str, keep: bool) -> (r: Vec<ContentBlock>)
    ensures
        api::blocks(r@) == text_blocks(s@, keep),
{
    let mut out: Vec<ContentBlock> = Vec::new();
    if keep {
        out.push(ContentBlock::Text { text: text::copy(s) });
    }
    assert(api::blocks(out@) =~= text_blocks(s@, keep));
    out
}

fn some_if_any(s: &str) -> (r: Option<String>)
    ensures
        text::opt_text(r) == if s@.len() == 0 {
            None
        } else {
            Some(s@)
        },
{
    if s.is_empty() {
        None
    } else {
        Some(text::copy(s))
    }
}

fn respond(engine: &mut QueryEngine, run: &mut QueryRun, told: &mut Vec<EngineEvent>) -> (r:
    QueryAction)
    requires
        old(engine)@.turns_since_skill_review < u32::MAX - 1,
        old(engine)@.costs.last_prompt + old(engine)@.costs.last_output <= u64::MAX,
    ensures
        (Step {
            engine: final(engine)@,
            run: final(run)@,
            told: tui_events::events(final(told)@),
            action: r@,
        }) == responded(old(engine)@, old(run)@, tui_events::events(old(told)@)),
{
    let done = text::contains(run.stream.text.as_str(), "[DONE]");
    if done {
        proof {
            reveal_strlit("[DONE]");
            reveal_strlit("");
            assert(""@ =~= Seq::<char>::empty());
        }
        run.stream.text = text::replace(run.stream.text.as_str(), "[DONE]", "");
    }
    if run.stream.is_empty() {
        return respond_empty(engine, run, told);
    }
    let st = &run.stream;
    let head = make_text_blocks(st.text.as_str(), !st.text.as_str().is_empty());
    let blocks = make_call_blocks(&st.calls, head);
    let reasoning = some_if_any(st.reasoning.as_str());
    engine.history.push_assistant_with_reasoning(blocks, reasoning);
    assert(run@.stream.calls.len() == run.stream.calls@.len());
    if run.stream.calls.len() == 0 {
        respond_text(engine, run, told, done)
    } else {
        run.phase = QueryPhase::Ready;
        QueryAction::ConfirmTools
    }
}

fn try_again(engine: &mut QueryEngine, run: &mut QueryRun, told: &mut Vec<EngineEvent>) -> (r:
    QueryAction)
    requires
        old(engine)@.turns_since_skill_review < u32::MAX - 1,
        old(engine)@.costs.last_prompt + old(engine)@.costs.last_output <= u64::MAX,
    ensures
        (Step {
            engine: final(engine)@,
            run: final(run)@,
            told: tui_events::events(final(told)@),
            action: r@,
        }) == tried_again(old(engine)@, old(run)@, tui_events::events(old(told)@)),
{
    if run.attempt < engine.settings.max_retries {
        let next: u32 = run.attempt + 1;
        attempt_request(engine, run, told, next)
    } else {
        respond(engine, run, told)
    }
}

fn start_requests(
    engine: &mut QueryEngine,
    run: &mut QueryRun,
    told: &mut Vec<EngineEvent>,
    result: Option<CompactResult>,
) -> (r: QueryAction)
    ensures
        (Step {
            engine: final(engine)@,
            run: final(run)@,
            told: tui_events::events(final(told)@),
            action: r@,
        }) == compacted(old(engine)@, old(run)@, tui_events::events(old(told)@), result),
{
    proof {
        reveal(compacted);
    }
    if let Some(c) = result {
        let method = match c.method {
            CompactMethod::Micro => text::copy("micro"),
            CompactMethod::Full => text::copy("full"),
        };
        tell(
            told,
            EngineEvent::CompactProgress {
                method,
                tokens_before: c.tokens_before as u64,
                tokens_after: c.tokens_after as u64,
            },
        );
    }
    engine.history.sanitize();
    run.last_error = None;
    run.too_long = None;
    attempt_request(engine, run, told, 0)
}

fn retry_compacted(
    engine: &mut QueryEngine,
    run: &mut QueryRun,
    told: &mut Vec<EngineEvent>,
    result: Option<CompactResult>,
) -> (r: QueryAction)
    requires
        old(engine)@.turns_since_skill_review < u32::MAX - 1,
        old(engine)@.costs.last_prompt + old(engine)@.costs.last_output <= u64::MAX,
    ensures
        (Step {
            engine: final(engine)@,
            run: final(run)@,
            told: tui_events::events(final(told)@),
            action: r@,
        }) == compacted_again(old(engine)@, old(run)@, tui_events::events(old(told)@), result),
{
    proof {
        reveal(compacted_again);
    }
    match result {
        Some(c) => {
            let a = text::count(c.tokens_before);
            let b = text::count(c.tokens_after);
            let msg = text::cat5("reactive-compact: ", a.as_str(), " → ", b.as_str(), " tokens");
            tell_status(told, msg.as_str());
            engine.history.sanitize();
            run.too_long = None;
            run.phase = QueryPhase::Reopening;
            QueryAction::Reopen
        },
        None => {
            let error = run.too_long.take();
            run.last_error = error;
            try_again(engine, run, told)
        },
    }
}

fn fail_open(
    engine: &mut QueryEngine,
    run: &mut QueryRun,
    told: &mut Vec<EngineEvent>,
    error: ApiError,
    too_long: bool,
) -> (r: QueryAction)
    requires
        old(engine)@.turns_since_skill_review < u32::MAX - 1,
        old(engine)@.costs.last_prompt + old(engine)@.costs.last_output <= u64::MAX,
    ensures
        (Step {
            engine: final(engine)@,
            run: final(run)@,
            told: tui_events::events(final(told)@),
            action: r@,
        }) == open_failed(
            old(engine)@,
            old(run)@,
            tui_events::events(old(told)@),
            error@,
            too_long,
        ),
{
    proof {
        reveal(open_failed);
    }
    if run.phase == QueryPhase::Opening && too_long {
        tell_status(told, "Prompt too long, compressing...");
        run.too_long = Some(error);
        run.phase = QueryPhase::CompactingAgain;
        QueryAction::CompactAgain
    } else {
        run.last_error = Some(error);
        try_again(engine, run, told)
    }
}

fn end_stream(engine: &mut QueryEngine, run: &mut QueryRun, told: &mut Vec<EngineEvent>) -> (r:
    QueryAction)
    requires
        old(engine)@.turns_since_skill_review < u32::MAX - 1,
        old(engine)@.costs.last_prompt + old(engine)@.costs.last_output <= u64::MAX,
    ensures
        (Step {
            engine: final(engine)@,
            run: final(run)@,
            told: tui_events::events(final(told)@),
            action: r@,
        }) == stream_ended(old(engine)@, old(run)@, tui_events::events(old(told)@)),
{
    proof {
        reveal(stream_ended);
    }
    run.stream.flush();
    if run.stream.is_empty() && run.attempt < engine.settings.max_retries {
        try_again(engine, run, told)
    } else {
        respond(engine, run, told)
    }
}

fn break_stream(
    engine: &mut QueryEngine,
    run: &mut QueryRun,
    told: &mut Vec<EngineEvent>,
    error: Option<ApiError>,
) -> (r: QueryAction)
    requires
        old(engine)@.turns_since_skill_review < u32::MAX - 1,
        old(engine)@.costs.last_prompt + old(engine)@.costs.last_output <= u64::MAX,
    ensures
        (Step {
            engine: final(engine)@,
            run: final(run)@,
            told: tui_events::events(final(told)@),
            action: r@,
        }) == stream_broken(
            old(engine)@,
            old(run)@,
            tui_events::events(old(told)@),
            opt_error(error),
        ),
{
    proof {
        reveal(stream_broken);
    }
    run.stream.flush();
    if error.is_some() {
        run.last_error = error;
    }
    try_again(engine, run, told)
}

fn interrupt_reply(engine: &mut QueryEngine, run: &mut QueryRun, told: &mut Vec<EngineEvent>) -> (r:
    QueryAction)
    requires
        old(engine)@.costs.last_prompt + old(engine)@.costs.last_output <= u64::MAX,
    ensures
        (Step {
            engine: final(engine)@,
            run: final(run)@,
            told: tui_events::events(final(told)@),
            action: r@,
        }) == reply_interrupted(old(engine)@, old(run)@, tui_events::events(old(told)@)),
{
    proof {
        reveal(reply_interrupted);
    }
    if !text::blank(run.stream.text.as_str()) {
        let blocks = make_text_blocks(run.stream.text.as_str(), true);
        let reasoning = some_if_any(run.stream.reasoning.as_str());
        engine.history.push_assistant_with_reasoning(blocks, reasoning);
    }
    handle_interrupt(engine, run, told)
}

fn tell_starts(told: &mut Vec<EngineEvent>, calls: &Vec<CollectedToolUse>)
    ensures
        tui_events::events(final(told)@) == tui_events::events(old(told)@) + start_events(
            tool_exec::calls(calls@),
        ),
{
    let ghost before = tui_events::events(told@);
    let ghost want = start_events(tool_exec::calls(calls@));
    let mut i: usize = 0;
    assert(before + want.take(0) =~= before);
    while i < calls.len()
        invariant
            i <= calls@.len(),
            want == start_events(tool_exec::calls(calls@)),
            tui_events::events(told@) == before + want.take(i as int),
        decreases calls@.len() - i,
    {
        let summary = tool_display::format_tool_input_summary(
            calls[i].name.as_str(),
            calls[i].input_json.as_str(),
        );
        let e = EngineEvent::ToolStart {
            name: text::copy(calls[i].name.as_str()),
            input_summary: summary,
        };
        assert(e@ == want[i as int]);
        tell(told, e);
        assert(before + want.take(i + 1) =~= (before + want.take(i as int)).push(want[i as int]));
        i = i + 1;
    }
    assert(want.take(i as int) =~= want);
}

fn copy_calls(calls: &Vec<CollectedToolUse>) -> (r: Vec<CollectedToolUse>)
    ensures
        tool_exec::calls(r@) == tool_exec::calls(calls@),
{
    let mut out: Vec<CollectedToolUse> = Vec::new();
    let mut i: usize = 0;
    while i < calls.len()
        invariant
            i <= calls@.len(),
            out@.len() == i,
            forall|k: int| 0 <= k < i ==> (#[trigger] out@[k])@ == calls@[k]@,
        decreases calls@.len() - i,
    {
        out.push(calls[i].copy());
        i = i + 1;
    }
    assert(tool_exec::calls(out@) =~= tool_exec::calls(calls@));
    out
}

fn ready_tools(
    engine: &mut QueryEngine,
    run: &mut QueryRun,
    told: &mut Vec<EngineEvent>,
    cancelled: bool,
) -> (r: QueryAction)
    requires
        old(engine)@.costs.last_prompt + old(engine)@.costs.last_output <= u64::MAX,
    ensures
        (Step {
            engine: final(engine)@,
            run: final(run)@,
            told: tui_events::events(final(told)@),
            action: r@,
        }) == tools_ready(old(engine)@, old(run)@, tui_events::events(old(told)@), cancelled),
{
    proof {
        reveal(tools_ready);
    }
    if cancelled {
        let st = &run.stream;
        let head = make_text_blocks(st.text.as_str(), !text::blank(st.text.as_str()));
        let blocks = make_call_blocks(&st.calls, head);
        engine.history.push_assistant_blocks(blocks);
        return handle_interrupt(engine, run, told);
    }
    tell_starts(told, &run.stream.calls);
    let parallel = tool_exec::should_parallelize_in(
        &run.stream.calls,
        engine.cwd.as_str(),
        &engine.home,
    );
    run.phase = QueryPhase::Tools;
    QueryAction::RunTools { calls: copy_calls(&run.stream.calls), parallel }
}

fn take_results(
    engine: &mut QueryEngine,
    run: &mut QueryRun,
    told: &mut Vec<EngineEvent>,
    results: Vec<ContentBlock>,
    cancelled: bool,
) -> (r: QueryAction)
    requires
        old(engine)@.costs.last_prompt + old(engine)@.costs.last_output <= u64::MAX,
    ensures
        (Step {
            engine: final(engine)@,
            run: final(run)@,
            told: tui_events::events(final(told)@),
            action: r@,
        }) == tools_ran(
            old(engine)@,
            old(run)@,
            tui_events::events(old(told)@),
            api::blocks(results@),
            cancelled,
        ),
{
    proof {
        reveal(tools_ran);
    }
    let ids = context::successful_edits(&run.stream.calls, &results);
    engine.history.push_tool_results(results);
    if cancelled {
        return handle_interrupt(engine, run, told);
    }
    run.phase = QueryPhase::Edits;
    QueryAction::CompressEdits(ids)
}

fn take_guidance(engine: &mut QueryEngine, told: &mut Vec<EngineEvent>)
    ensures
        final(engine)@ == guided(old(engine)@),
        tui_events::events(final(told)@) == tui_events::events(old(told)@) + guidance_events(
            old(engine)@.steer,
        ),
{
    let ghost before = tui_events::events(told@);
    match engine.drain_steer() {
        Some(s) => {
            let short = json_utils::safe_truncate_str(s.as_str(), 60);
            let msg = text::cat2("⇢ Steered: ", short.as_str());
            tell_status(told, msg.as_str());
            tell(told, EngineEvent::SteerHandled);
            if !engine.history.append_steer_to_last_tool_result(s.as_str()) {
                engine.history.push_user(s.as_str());
            }
            assert(tui_events::events(told@) =~= before + guidance_events(old(engine)@.steer));
        },
        None => {
            assert(before + guidance_events(None) =~= before);
        },
    }
}

fn end_turn(
    engine: &mut QueryEngine,
    run: &mut QueryRun,
    told: &mut Vec<EngineEvent>,
    edits: Vec<(String, Json)>,
) -> (r: QueryAction)
    ensures
        (Step {
            engine: final(engine)@,
            run: final(run)@,
            told: tui_events::events(final(told)@),
            action: r@,
        }) == turn_ended(
            old(engine)@,
            old(run)@,
            tui_events::events(old(told)@),
            messages::inputs_view(edits@),
        ),
{
    proof {
        reveal(turn_ended);
    }
    engine.history.compress_edit_inputs(&edits);
    take_guidance(engine, told);
    context::record_tool_carryover(&mut engine.carryover, &engine.history, &run.stream.calls);
    run.phase = QueryPhase::Top;
    let summary = context::summarize_turn(run.stream.text.as_str(), &run.stream.calls);
    QueryAction::Sync { input: text::copy(run.input.as_str()), summary }
}

fn awaits_event(phase: QueryPhase, event: &QueryEvent) -> (r: bool)
    ensures
        r == awaits(phase, event@),
{
    match event {
        QueryEvent::TurnTop { .. } => phase == QueryPhase::Top,
        QueryEvent::Compacted(_) => phase == QueryPhase::Compacting || phase
            == QueryPhase::CompactingAgain,
        QueryEvent::Waited => phase == QueryPhase::Waiting,
        QueryEvent::Described(_) => phase == QueryPhase::Describing,
        QueryEvent::Opened => phase == QueryPhase::Opening || phase == QueryPhase::Reopening,
        QueryEvent::OpenFailed(_) => phase == QueryPhase::Opening || phase
            == QueryPhase::Reopening,
        QueryEvent::Piece(_) => phase == QueryPhase::Streaming,
        QueryEvent::StreamEnded => phase == QueryPhase::Streaming,
        QueryEvent::StreamTimedOut => phase == QueryPhase::Streaming,
        QueryEvent::StreamFailed(_) => phase == QueryPhase::Streaming,
        QueryEvent::ToolsReady { .. } => phase == QueryPhase::Ready,
        QueryEvent::ToolsRan { .. } => phase == QueryPhase::Tools,
        QueryEvent::ToolsAborted => phase == QueryPhase::Tools,
        QueryEvent::EditsCompressed(_) => phase == QueryPhase::Edits,
        QueryEvent::Cancelled => phase == QueryPhase::Compacting || phase == QueryPhase::Opening
            || phase == QueryPhase::CompactingAgain || phase == QueryPhase::Reopening || phase
            == QueryPhase::Streaming,
    }
}

/// Whether a query waits for an event, and can take it.
pub fn can_step(engine: &QueryEngine, run: &QueryRun, event: &QueryEvent) -> (r: bool)
    ensures
        r == (awaits(run@.phase, event@) && has_room(engine@, run@, event@)),
{
    let window: u128 = engine.cost_tracker.last_prompt_tokens as u128
        + engine.cost_tracker.last_output_tokens as u128;
    if !awaits_event(run.phase, event) || window > u64::MAX as u128
        || engine.turns_since_skill_review >= u32::MAX - 1 {
        return false;
    }
    match event {
        QueryEvent::TurnTop { .. } => run.turn < u32::MAX,
        QueryEvent::Described(analyses) => {
            let images = context::list_images(&engine.history);
            assert(api::blocks(images@).len() == images@.len());
            assert(context::analyses_view(analyses@).len() == analyses@.len());
            analyses.len() == images.len()
        },
        QueryEvent::Piece(e) => run.stream.can_apply(
            e,
            &engine.cost_tracker,
            engine.model.as_str(),
        ),
        _ => true,
    }
}

/// What a step leads to: what the terminal is told, and what is next.
pub struct QueryReaction {
    pub events: Vec<EngineEvent>,
    pub action: QueryAction,
}

/// Take a query one step further, given whether the error that came with the
/// event is that the request was too long.
pub fn step_query(
    engine: &mut QueryEngine,
    run: &mut QueryRun,
    event: QueryEvent,
    too_long: bool,
) -> (r: QueryReaction)
    requires
        awaits(old(run)@.phase, event@),
        has_room(old(engine)@, old(run)@, event@),
    ensures
        (Step {
            engine: final(engine)@,
            run: final(run)@,
            told: tui_events::events(r.events@),
            action: r.action@,
        }) == stepped(old(engine)@, old(run)@, event@, too_long),
{
    let mut told: Vec<EngineEvent> = Vec::new();
    assert(tui_events::events(told@) =~= Seq::<EventView>::empty());
    let action = match event {
        QueryEvent::TurnTop { cancelled } => if cancelled {
            handle_interrupt(engine, run, &mut told)
        } else {
            start_turn(engine, run, &mut told)
        },
        QueryEvent::Compacted(result) => if run.phase == QueryPhase::Compacting {
            start_requests(engine, run, &mut told, result)
        } else {
            retry_compacted(engine, run, &mut told, result)
        },
        QueryEvent::Waited => prepare(engine, run, &mut told),
        QueryEvent::Described(analyses) => {
            run.vision = context::preprocess_images(&mut engine.history, &analyses);
            run.phase = QueryPhase::Opening;
            QueryAction::Open
        },
        QueryEvent::Opened => {
            run.phase = QueryPhase::Streaming;
            QueryAction::Read { usage: None }
        },
        QueryEvent::OpenFailed(error) => fail_open(engine, run, &mut told, error, too_long),
        QueryEvent::Piece(e) => {
            let (events, usage) = run.stream.apply(
                e,
                &mut engine.cost_tracker,
                engine.model.as_str(),
            );
            told = events;
            QueryAction::Read { usage }
        },
        QueryEvent::StreamEnded => end_stream(engine, run, &mut told),
        QueryEvent::StreamTimedOut => {
            let n = text::number(engine.settings.stream_timeout_secs);
            let msg = text::cat3("Stream timed out after ", n.as_str(), "s of inactivity.");
            tell(&mut told, EngineEvent::Error(msg));
            break_stream(engine, run, &mut told, None)
        },
        QueryEvent::StreamFailed(error) => break_stream(engine, run, &mut told, Some(error)),
        QueryEvent::ToolsReady { cancelled } => ready_tools(engine, run, &mut told, cancelled),
        QueryEvent::ToolsRan { results, cancelled } => take_results(
            engine,
            run,
            &mut told,
            results,
            cancelled,
        ),
        QueryEvent::ToolsAborted => handle_interrupt(engine, run, &mut told),
        QueryEvent::EditsCompressed(edits) => end_turn(engine, run, &mut told, edits),
        QueryEvent::Cancelled => if run.phase == QueryPhase::Streaming {
            interrupt_reply(engine, run, &mut told)
        } else {
            handle_interrupt(engine, run, &mut told)
        },
    };
    QueryReaction { events: told, action }
}

/// Whether the error of an event is that the request was too long.
pub open spec fn event_too_long(event: QueryEventView) -> bool {
    match event {
        QueryEventView::OpenFailed(e) => compact::is_too_long(e),
        _ => false,
    }
}

/// Take a query one step further.
pub fn query_tui(engine: &mut QueryEngine, run: &mut QueryRun, event: QueryEvent) -> (r:
    QueryReaction)
    requires
        awaits(old(run)@.phase, event@),
        has_room(old(engine)@, old(run)@, event@),
    ensures
        (Step {
            engine: final(engine)@,
            run: final(run)@,
            told: tui_events::events(r.events@),
            action: r.action@,
        }) == stepped(old(engine)@, old(run)@, event@, event_too_long(event@)),
{
    let too_long = match &event {
        QueryEvent::OpenFailed(e) => compact::is_prompt_too_long_error(e),
        _ => false,
    };
    step_query(engine, run, event, too_long)
}

// ---------------------------------------------------------------------------
// Laws
// ---------------------------------------------------------------------------

/// Whether the model was not asked to go on, nor a request made again, more
/// often than the settings allow.
pub open spec fn counts_kept(engine: EngineView, run: QueryView) -> bool {
    run.auto_continue <= engine.settings.max_auto_continue && run.attempt
        <= engine.settings.max_retries
}

/// Whether a step leaves what a session is set up with as it was.
pub open spec fn same_setup(a: EngineView, b: EngineView) -> bool {
    &&& a.model == b.model
    &&& a.system_prompt == b.system_prompt
    &&& a.max_turns == b.max_turns
    &&& a.max_tokens == b.max_tokens
    &&& a.compact_config == b.compact_config
    &&& a.settings == b.settings
    &&& a.cwd == b.cwd
    &&& a.home == b.home
    &&& a.permission_allow_all == b.permission_allow_all
    &&& a.active_identity == b.active_identity
}

spec fn keeps(engine: EngineView, step: Step) -> bool {
    counts_kept(step.engine, step.run) && same_setup(engine, step.engine)
}

proof fn lemma_responded_keeps(engine: EngineView, run: QueryView, told: Seq<EventView>)
    requires
        counts_kept(engine, run),
    ensures
        keeps(engine, responded(engine, run, told)),
{
}

proof fn lemma_attempted_keeps(
    engine: EngineView,
    run: QueryView,
    told: Seq<EventView>,
    attempt: u32,
)
    requires
        counts_kept(engine, run),
        attempt <= engine.settings.max_retries,
    ensures
        keeps(engine, attempted(engine, run, told, attempt)),
{
    reveal(prepared);
}

proof fn lemma_tried_again_keeps(engine: EngineView, run: QueryView, told: Seq<EventView>)
    requires
        counts_kept(engine, run),
    ensures
        keeps(engine, tried_again(engine, run, told)),
{
    lemma_responded_keeps(engine, run, told);
    if run.attempt < engine.settings.max_retries {
        lemma_attempted_keeps(engine, run, told, (run.attempt + 1) as u32);
    }
}

proof fn lemma_interrupted_keeps(engine: EngineView, run: QueryView, told: Seq<EventView>)
    requires
        counts_kept(engine, run),
    ensures
        keeps(engine, interrupted(engine, run, told)),
{
    reveal(interrupted);
}

/// Whatever happens, the model is asked to go on at most `max_auto_continue`
/// times and a request is made at most `max_retries` times again, and no step
/// changes what the session is set up with.
pub proof fn law_limits_are_kept(
    engine: EngineView,
    run: QueryView,
    event: QueryEventView,
    too_long: bool,
)
    requires
        awaits(run.phase, event),
        counts_kept(engine, run),
    ensures
        counts_kept(
            stepped(engine, run, event, too_long).engine,
            stepped(engine, run, event, too_long).run,
        ),
        same_setup(engine, stepped(engine, run, event, too_long).engine),
{
    let told = Seq::<EventView>::empty();
    let clean = EngineView { history: messages::sanitized(engine.history), ..engine };
    match event {
        QueryEventView::TurnTop { cancelled } => {
            lemma_interrupted_keeps(engine, run, told);
            reveal(turn_started);
        },
        QueryEventView::Compacted(result) => {
            reveal(compacted);
            reveal(compacted_again);
            let said = match result {
                Some(r) => told.push(
                    EngineEvent::CompactProgress {
                        method: match r.method {
                            CompactMethod::Micro => "micro"@,
                            CompactMethod::Full => "full"@,
                        },
                        tokens_before: r.tokens_before as u64,
                        tokens_after: r.tokens_after as u64,
                    },
                ),
                None => told,
            };
            lemma_attempted_keeps(
                clean,
                QueryView { last_error: None, too_long: None, ..run },
                said,
                0,
            );
            lemma_tried_again_keeps(
                engine,
                QueryView { last_error: run.too_long, too_long: None, ..run },
                told,
            );
        },
        QueryEventView::Waited => {
            reveal(prepared);
        },
        QueryEventView::OpenFailed(error) => {
            reveal(open_failed);
            lemma_tried_again_keeps(
                engine,
                QueryView { last_error: Some(error), ..run },
                told,
            );
        },
        QueryEventView::StreamEnded => {
            reveal(stream_ended);
            let next = QueryView { stream: stream::flushed(run.stream), ..run };
            lemma_tried_again_keeps(engine, next, told);
            lemma_responded_keeps(engine, next, told);
        },
        QueryEventView::StreamTimedOut => {
            lemma_broken_keeps(
                engine,
                run,
                told.push(
                    EngineEvent::Error(
                        "Stream timed out after "@ + text::decimal(
                            engine.settings.stream_timeout_secs as nat,
                        ) + "s of inactivity."@,
                    ),
                ),
                None,
            );
        },
        QueryEventView::StreamFailed(error) => {
            lemma_broken_keeps(engine, run, told, Some(error));
        },
        QueryEventView::ToolsReady { cancelled } => {
            reveal(tools_ready);
            reveal(interrupted);
        },
        QueryEventView::ToolsRan { .. } => {
            reveal(tools_ran);
            reveal(interrupted);
        },
        QueryEventView::ToolsAborted => {
            reveal(interrupted);
        },
        QueryEventView::EditsCompressed(_) => {
            reveal(turn_ended);
        },
        QueryEventView::Cancelled => {
            reveal(reply_interrupted);
            reveal(interrupted);
        },
        _ => {},
    }
}

proof fn lemma_broken_keeps(
    engine: EngineView,
    run: QueryView,
    told: Seq<EventView>,
    error: Option<ApiError<Text>>,
)
    requires
        counts_kept(engine, run),
    ensures
        keeps(engine, stream_broken(engine, run, told, error)),
{
    reveal(stream_broken);
    let flushed = QueryView { stream: stream::flushed(run.stream), ..run };
    lemma_tried_again_keeps(
        engine,
        QueryView {
            last_error: if error is Some {
                error
            } else {
                run.last_error
            },
            ..flushed
        },
        told,
    );
}

/// A query takes at most `max_turns` turns: each start of a turn counts one, and
/// the one after the last ends the query.
pub proof fn law_turns_are_bounded(engine: EngineView, run: QueryView, too_long: bool)
    requires
        run.phase == QueryPhase::Top,
        run.turn < u32::MAX,
    ensures
        ({
            let next = stepped(
                engine,
                run,
                QueryEventView::TurnTop { cancelled: false },
                too_long,
            ).run;
            &&& next.turn == run.turn + 1
            &&& next.turn > engine.max_turns <==> next.phase == QueryPhase::Over
        }),
{
    reveal(turn_started);
}

/// A query that is cancelled is over at once, and leaves a conversation without
/// an unanswered call or an unasked result.
pub proof fn law_cancelled_query_leaves_clean_conversation(
    engine: EngineView,
    run: QueryView,
    event: QueryEventView,
    too_long: bool,
)
    requires
        awaits(run.phase, event),
        event is Cancelled || event is ToolsAborted || event == (QueryEventView::TurnTop {
            cancelled: true,
        }),
    ensures
        ({
            let next = stepped(engine, run, event, too_long);
            &&& next.run.phase == QueryPhase::Over
            &&& next.engine.steer is None
            &&& forall|k: int, j: int|
                #![trigger next.engine.history[k].content[j]]
                0 <= k < next.engine.history.len() && 0 <= j
                    < next.engine.history[k].content.len() ==> messages::has_partner(
                    next.engine.history,
                    next.engine.history[k].role,
                    next.engine.history[k].content[j],
                )
        }),
{
    reveal(interrupted);
    reveal(reply_interrupted);
    let next = stepped(engine, run, event, too_long);
    let st = run.stream;
    let said = EngineView {
        history: engine.history.push(
            EntryView {
                role: Role::Assistant,
                content: text_blocks(st.text, true),
                reasoning_content: if st.reasoning.len() == 0 {
                    None
                } else {
                    Some(st.reasoning)
                },
            },
        ),
        ..engine
    };
    let before = if event is Cancelled && run.phase == QueryPhase::Streaming && !text::is_blank(
        st.text,
    ) {
        said.history
    } else {
        engine.history
    };
    assert(next.engine.history == messages::sanitized(before));
    assert forall|k: int, j: int|
        #![trigger next.engine.history[k].content[j]]
        0 <= k < next.engine.history.len() && 0 <= j
            < next.engine.history[k].content.len() implies messages::has_partner(
        next.engine.history,
        next.engine.history[k].role,
        next.engine.history[k].content[j],
    ) by {
        messages::law_sanitize_pairs(before, k, j);
    }
}

/// A query that is over waits for nothing more.
pub proof fn law_over_is_over(event: QueryEventView)
    ensures
        !awaits(QueryPhase::Over, event),
{
}

/// A goal is not given up while the model may still be asked to go on: a reply
/// in words alone that does not say it is done leads to another turn, and the
/// goal stays.
pub proof fn law_goal_is_pursued(engine: EngineView, run: QueryView, told: Seq<EventView>)
    requires
        has_goal(engine),
        may_continue(engine, run),
        run.stream.calls.len() == 0,
        !says_done(run.stream.text),
    ensures
        responded(engine, run, told).run.phase == QueryPhase::Top,
        responded(engine, run, told).engine.carryover == engine.carryover,
        responded(engine, run, told).run.auto_continue == run.auto_continue + 1,
{
}

/// Tools run only after a reply that called them, and exactly those.
pub proof fn law_only_called_tools_run(
    engine: EngineView,
    run: QueryView,
    event: QueryEventView,
    too_long: bool,
)
    requires
        awaits(run.phase, event),
        event is ToolsReady || event is ToolsRan || event is EditsCompressed,
    ensures
        stepped(engine, run, event, too_long).action matches ActionView::RunTools { calls, .. }
            ==> calls == run.stream.calls && run.phase == QueryPhase::Ready,
{
    reveal(tools_ready);
    reveal(tools_ran);
    reveal(turn_ended);
    reveal(interrupted);
}

} // verus!
