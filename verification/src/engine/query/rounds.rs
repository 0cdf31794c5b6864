//! A query turn after turn, while the model is asked and answers in words.

use crate::api::Role;
use crate::api::StopReason;
use crate::api::StreamEvent;
use crate::engine::carryover;
use crate::engine::compact::CompactResult;
use crate::engine::messages;
use crate::engine::messages::EntryView;
use crate::engine::query::context;
use crate::engine::query::run;
use crate::engine::query::run::ActionView;
use crate::engine::query::run::QueryEventView;
use crate::engine::query::run::QueryPhase;
use crate::engine::query::run::QueryView;
use crate::engine::query::run::Step;
use crate::engine::query::stream;
use crate::engine::query::stream::StreamView;
use crate::engine::query_engine::EngineView;
use crate::text;
use crate::text::Text;
use vstd::prelude::*;

verus! {

/// What comes from outside in a turn: what the compaction came to and the conversation
/// that it left, where it changed anything, what the analyses of pictures came to, where
/// they are needed, and the pieces of the reply.
pub struct Round {
    pub compacted: Option<(CompactResult, Seq<EntryView>)>,
    pub analyses: Seq<Result<Text, Text>>,
    pub pieces: Seq<StreamEvent<Text>>,
}

/// One more event.
pub open spec fn followed(step: Step, event: QueryEventView) -> Step {
    let next = run::stepped(step.engine, step.run, event, false);
    Step { told: step.told + next.told, ..next }
}

/// The pieces of a reply, one after the other.
pub open spec fn pieces_read(step: Step, pieces: Seq<StreamEvent<Text>>) -> Step
    decreases pieces.len(),
{
    if pieces.len() == 0 {
        step
    } else {
        followed(pieces_read(step, pieces.drop_last()), QueryEventView::Piece(pieces.last()))
    }
}

/// The reply that pieces make.
pub open spec fn replied(pieces: Seq<StreamEvent<Text>>) -> StreamView
    decreases pieces.len(),
{
    if pieces.len() == 0 {
        stream::nothing_streamed()
    } else {
        stream::streamed(replied(pieces.drop_last()), pieces.last())
    }
}

/// A turn up to where the reply is read.
pub open spec fn request_made(engine: EngineView, run: QueryView, round: Round) -> Step {
    let started = run::stepped(engine, run, QueryEventView::TurnTop { cancelled: false }, false);
    let asked = match round.compacted {
        Some((result, left)) => followed(
            Step { engine: EngineView { history: left, ..started.engine }, ..started },
            QueryEventView::Compacted(Some(result)),
        ),
        None => followed(started, QueryEventView::Compacted(None)),
    };
    let seen = if asked.run.phase == QueryPhase::Describing {
        followed(asked, QueryEventView::Described(round.analyses))
    } else {
        asked
    };
    followed(seen, QueryEventView::Opened)
}

/// A turn in which the request is answered.
#[verifier::opaque]
pub open spec fn turn_taken(engine: EngineView, run: QueryView, round: Round) -> Step {
    followed(
        pieces_read(request_made(engine, run, round), round.pieces),
        QueryEventView::StreamEnded,
    )
}

/// Turns in which the request is answered, one after the other.
pub open spec fn turns_taken(engine: EngineView, run: QueryView, rounds: Seq<Round>) -> Step
    decreases rounds.len(),
{
    if rounds.len() == 0 {
        Step { engine, run, told: Seq::empty(), action: ActionView::NextTurn }
    } else {
        let before = turns_taken(engine, run, rounds.drop_last());
        let next = turn_taken(before.engine, before.run, rounds.last());
        Step { told: before.told + next.told, ..next }
    }
}

/// The conversation that the request of a turn is made with.
pub open spec fn asked_with(engine: EngineView, round: Round) -> Seq<EntryView> {
    let clean = messages::sanitized(
        match round.compacted {
            Some((_, left)) => left,
            None => engine.history,
        },
    );
    if !run::sees_images(engine) && context::images_of(clean).len() > 0 {
        context::without_images(clean)
    } else {
        clean
    }
}

/// How many messages the turns add to the conversation besides the replies.
pub open spec fn prompts_added(engine: EngineView, run: QueryView, rounds: Seq<Round>) -> int
    decreases rounds.len(),
{
    if rounds.len() == 0 {
        0
    } else {
        let before = turns_taken(engine, run, rounds.drop_last());
        let after = turns_taken(engine, run, rounds);
        prompts_added(engine, run, rounds.drop_last()) + (after.engine.history.len() - asked_with(
            before.engine,
            rounds.last(),
        ).len() - 1)
    }
}

/// Whether a reply is words alone that do not say that the task is complete.
pub open spec fn only_talks(st: StreamView) -> bool {
    &&& !text::is_blank(st.text)
    &&& st.calls.len() == 0
    &&& st.current is None
    &&& !run::says_done(st.text)
}

/// What the model is told after a reply in words: to go on where it was cut off, or what
/// its goal is.
pub open spec fn prompt_after(engine: EngineView, st: StreamView) -> Text {
    if st.stop_reason == Some(StopReason::MaxTokens) {
        run::cut_off_prompt()
    } else {
        match carryover::continuation(engine.carryover) {
            Some(prompt) => prompt,
            None => Seq::empty(),
        }
    }
}

proof fn lemma_pieces_read(step: Step, pieces: Seq<StreamEvent<Text>>)
    requires
        step.run.stream == stream::nothing_streamed(),
    ensures
        pieces_read(step, pieces).run == (QueryView { stream: replied(pieces), ..step.run }),
        pieces_read(step, pieces).engine == (EngineView {
            costs: pieces_read(step, pieces).engine.costs,
            ..step.engine
        }),
    decreases pieces.len(),
{
    if pieces.len() > 0 {
        lemma_pieces_read(step, pieces.drop_last());
    }
}

/// What a reply that only talks leads to, where `said` is the conversation with it.
spec fn talk_leads_to(
    engine: EngineView,
    run: QueryView,
    st: StreamView,
    said: Seq<EntryView>,
    after: Step,
) -> bool {
    &&& run::same_setup(engine, after.engine)
    &&& if run::may_continue(engine, run) {
        &&& after.engine.history == said.push(
            messages::text_entry(Role::User, prompt_after(engine, st)),
        )
        &&& after.engine.carryover == engine.carryover
        &&& after.run.auto_continue == run.auto_continue + 1
        &&& after.run.phase == QueryPhase::Top
        &&& after.action == ActionView::NextTurn
    } else {
        &&& after.engine.history == said
        &&& after.engine.carryover == carryover::without_goal(engine.carryover)
        &&& after.run.auto_continue == run.auto_continue
        &&& after.run.phase == QueryPhase::Over
        &&& after.action is Stop
        &&& after.told.len() > 0
        &&& after.told.last() == run::query_done(after.engine)
    }
}

proof fn lemma_request_made(engine: EngineView, run: QueryView, round: Round)
    requires
        run.phase == QueryPhase::Top,
        run.turn < engine.max_turns,
    ensures
        ({
            let opened = request_made(engine, run, round);
            &&& opened.engine == (EngineView { history: asked_with(engine, round), ..engine })
            &&& opened.run.stream == stream::nothing_streamed()
            &&& opened.run.turn == run.turn + 1
            &&& opened.run.auto_continue == run.auto_continue
        }),
{
    reveal(run::turn_started);
    reveal(run::compacted);
    reveal(run::prepared);
    let start = match round.compacted {
        Some((_, left)) => left,
        None => engine.history,
    };
    messages::law_sanitize_idempotent(start);
}

proof fn lemma_talk_heard(step: Step)
    requires
        only_talks(step.run.stream),
        run::has_goal(step.engine),
    ensures
        ({
            let after = followed(step, QueryEventView::StreamEnded);
            let said = step.engine.history.push(run::reply_entry(step.run.stream));
            &&& after.run.turn == step.run.turn
            &&& talk_leads_to(step.engine, step.run, step.run.stream, said, after)
        }),
{
    reveal(run::stream_ended);
}

proof fn lemma_turn_taken(engine: EngineView, run: QueryView, round: Round)
    requires
        run.phase == QueryPhase::Top,
        run.turn < engine.max_turns,
        run::has_goal(engine),
        only_talks(replied(round.pieces)),
    ensures
        ({
            let after = turn_taken(engine, run, round);
            let st = replied(round.pieces);
            let said = asked_with(engine, round).push(run::reply_entry(st));
            &&& after.run.turn == run.turn + 1
            &&& talk_leads_to(engine, run, st, said, after)
        }),
{
    reveal(turn_taken);
    lemma_request_made(engine, run, round);
    let opened = request_made(engine, run, round);
    lemma_pieces_read(opened, round.pieces);
    lemma_talk_heard(pieces_read(opened, round.pieces));
}

/// Where a query stands after turns in which the model only talked.
spec fn talked_so_far(engine: EngineView, run: QueryView, rounds: Seq<Round>) -> bool {
    let now = turns_taken(engine, run, rounds);
    &&& run::same_setup(engine, now.engine)
    &&& now.engine.carryover == engine.carryover
    &&& now.run.phase == QueryPhase::Top
    &&& now.run.turn == run.turn + rounds.len()
    &&& now.run.auto_continue == run.auto_continue + rounds.len()
    &&& prompts_added(engine, run, rounds) == rounds.len()
}

proof fn lemma_talked_so_far(engine: EngineView, run: QueryView, rounds: Seq<Round>, i: int)
    requires
        0 <= i < rounds.len(),
        run.phase == QueryPhase::Top,
        run::has_goal(engine),
        rounds.len() <= engine.settings.max_auto_continue - run.auto_continue + 1,
        run.turn + rounds.len() <= engine.max_turns,
        forall|i: int| 0 <= i < rounds.len() ==> only_talks(replied((#[trigger] rounds[i]).pieces)),
    ensures
        talked_so_far(engine, run, rounds.take(i)),
    decreases i,
{
    if i > 0 {
        lemma_talked_so_far(engine, run, rounds, i - 1);
        assert(rounds.take(i).drop_last() =~= rounds.take(i - 1));
        let before = turns_taken(engine, run, rounds.take(i - 1));
        lemma_turn_taken(before.engine, before.run, rounds[i - 1]);
    }
}

/// Whether the turn at a place adds the reply and one prompt to the conversation, keeps
/// the goal, and leads to another turn.
pub open spec fn is_prompted(engine: EngineView, run: QueryView, rounds: Seq<Round>, i: int) -> bool {
    let before = turns_taken(engine, run, rounds.take(i));
    let after = turns_taken(engine, run, rounds.take(i + 1));
    let st = replied(rounds[i].pieces);
    &&& after.engine.history == asked_with(before.engine, rounds[i]).push(
        run::reply_entry(st),
    ).push(messages::text_entry(Role::User, prompt_after(engine, st)))
    &&& after.engine.carryover == engine.carryover
    &&& after.action == ActionView::NextTurn
}

/// Whether the last turn adds the reply alone, clears the goal, ends the query, and says
/// so.
pub open spec fn is_given_up(engine: EngineView, run: QueryView, rounds: Seq<Round>) -> bool {
    let before = turns_taken(engine, run, rounds.drop_last());
    let last = turns_taken(engine, run, rounds);
    &&& last.engine.history == asked_with(before.engine, rounds.last()).push(
        run::reply_entry(replied(rounds.last().pieces)),
    )
    &&& last.engine.carryover.task_focus.goal.len() == 0
    &&& last.run.phase == QueryPhase::Over
    &&& last.action is Stop
    &&& last.told.len() > 0
    &&& last.told.last() == run::query_done(last.engine)
}

/// A goal is pursued as long as it may be, and then given up: of a model that only talks
/// and never says that it is done, each reply is answered with one prompt to go on, as
/// often as `max_auto_continue` says, while the goal stays; the reply after that ends
/// the query, clears the goal, and is followed by `QueryDone` instead of a prompt.
pub proof fn law_goal_is_given_up_after_the_last_prompt(
    engine: EngineView,
    run: QueryView,
    rounds: Seq<Round>,
)
    requires
        run.phase == QueryPhase::Top,
        run::has_goal(engine),
        run.auto_continue <= engine.settings.max_auto_continue,
        rounds.len() == engine.settings.max_auto_continue - run.auto_continue + 1,
        run.turn + rounds.len() <= engine.max_turns,
        forall|i: int| 0 <= i < rounds.len() ==> only_talks(replied((#[trigger] rounds[i]).pieces)),
    ensures
        forall|i: int|
            0 <= i < rounds.len() - 1 ==> #[trigger] is_prompted(engine, run, rounds, i),
        prompts_added(engine, run, rounds) == engine.settings.max_auto_continue
            - run.auto_continue,
        is_given_up(engine, run, rounds),
        turns_taken(engine, run, rounds).run.auto_continue == engine.settings.max_auto_continue,
{
    let n = rounds.len() - 1;
    assert forall|i: int| 0 <= i < n implies #[trigger] is_prompted(engine, run, rounds, i) by {
        lemma_talked_so_far(engine, run, rounds, i);
        let before = turns_taken(engine, run, rounds.take(i));
        assert(rounds.take(i + 1).drop_last() =~= rounds.take(i));
        assert(rounds.take(i + 1).last() == rounds[i]);
        lemma_turn_taken(before.engine, before.run, rounds[i]);
    }
    lemma_talked_so_far(engine, run, rounds, n);
    assert(rounds.take(n) =~= rounds.drop_last());
    let before = turns_taken(engine, run, rounds.drop_last());
    lemma_turn_taken(before.engine, before.run, rounds.last());
}

} // verus!
