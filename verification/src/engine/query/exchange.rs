//! What passes between the user, the model and its tools in a query: nothing that one of
//! them says is lost on the way to the others.

use crate::api::ApiError;
use crate::api::BlockView;
use crate::api::ContentBlock;
use crate::api::Role;
use crate::api::StopReason;
use crate::api::StreamEvent;
use crate::api::Usage;
use crate::engine::compact::CompactResult;
use crate::engine::messages;
use crate::engine::messages::EntryView;
use crate::engine::query::context;
use crate::engine::query::json_utils;
use crate::engine::query::run;
use crate::engine::query::run::ActionView;
use crate::engine::query::run::QueryEventView;
use crate::engine::query::run::QueryPhase;
use crate::engine::query::run::QueryView;
use crate::engine::query::stream;
use crate::engine::query::stream::StreamView;
use crate::engine::query::tool_exec::CallView;
use crate::engine::query_engine::EngineView;
use crate::engine::tui_events::EngineEvent;
use crate::engine::tui_events::EventView;
use crate::json::JsonView;
use crate::text;
use crate::text::Text;
use vstd::prelude::*;

verus! {

/// What the user said is asked of the model, as hooks left it, with all the pictures
/// that came with it, behind what was said before; and the query starts at its first
/// turn, with nothing counted.
pub proof fn law_the_question_is_asked(
    engine: EngineView,
    input: Text,
    images: Seq<(Text, Text)>,
    modified: Option<Text>,
)
    ensures
        ({
            let asked = run::engine_asked(engine, input, images, modified).history;
            let said = match modified {
                Some(m) => m,
                None => input,
            };
            &&& asked.len() == engine.history.len() + 1
            &&& asked.drop_last() == engine.history
            &&& asked.last().role == Role::User
            &&& asked.last().content.len() == images.len() + 1
            &&& asked.last().content[0] == (ContentBlock::<Text, JsonView>::Text { text: said })
            &&& forall|i: int|
                0 <= i < images.len() ==> (#[trigger] asked.last().content[i + 1]
                    matches ContentBlock::Image { media_type, data, .. } && media_type
                    == images[i].0 && data == images[i].1)
            &&& run::effective_input(input, modified) == said
            &&& run::fresh_query(said).input == said
            &&& run::fresh_query(said).turn == 0
            &&& run::fresh_query(said).auto_continue == 0
            &&& run::fresh_query(said).phase == QueryPhase::Top
        }),
{
    let asked = run::engine_asked(engine, input, images, modified).history;
    assert(asked.drop_last() =~= engine.history);
}

/// The reply comes together piece by piece, and the user sees it as it comes: words are
/// added to the words, thoughts to the thoughts, and nothing else of the query changes.
pub proof fn law_words_are_shown_and_kept(engine: EngineView, run: QueryView, s: Text)
    ensures
        ({
            let next = run::stepped(
                engine,
                run,
                QueryEventView::Piece(StreamEvent::TextDelta(s)),
                false,
            );
            &&& next.told == seq![EngineEvent::<Text>::TextDelta(s)]
            &&& next.engine == engine
            &&& next.run == (QueryView {
                stream: StreamView { text: run.stream.text + s, ..run.stream },
                ..run
            })
            &&& next.action is Read
        }),
        ({
            let next = run::stepped(
                engine,
                run,
                QueryEventView::Piece(StreamEvent::ReasoningDelta(s)),
                false,
            );
            &&& next.told == seq![EngineEvent::<Text>::ReasoningDelta(s)]
            &&& next.engine == engine
            &&& next.run == (QueryView {
                stream: StreamView { reasoning: run.stream.reasoning + s, ..run.stream },
                ..run
            })
            &&& next.action is Read
        }),
{
}

/// A call comes together from its start and the pieces of its arguments that bear its
/// id, whatever came before it.
pub proof fn law_calls_come_together(
    engine: EngineView,
    run: QueryView,
    id: Text,
    name: Text,
    a: Text,
    b: Text,
)
    ensures
        ({
            let start = run::stepped(
                engine,
                run,
                QueryEventView::Piece(
                    StreamEvent::ToolUseStart { id, name, input_json: Some(a) },
                ),
                false,
            );
            let more = run::stepped(
                start.engine,
                start.run,
                QueryEventView::Piece(StreamEvent::ToolUseDelta { id, delta_json: b }),
                false,
            );
            let calls = stream::flushed(more.run.stream).calls;
            &&& calls.len() == stream::flushed(run.stream).calls.len() + 1
            &&& calls.drop_last() == stream::flushed(run.stream).calls
            &&& calls.last().id == id
            &&& calls.last().name == name
            &&& calls.last().input_json == a + b
            &&& more.run.stream.text == run.stream.text
            &&& more.run.stream.reasoning == run.stream.reasoning
        }),
{
    let start = run::stepped(
        engine,
        run,
        QueryEventView::Piece(StreamEvent::ToolUseStart { id, name, input_json: Some(a) }),
        false,
    );
    let more = run::stepped(
        start.engine,
        start.run,
        QueryEventView::Piece(StreamEvent::ToolUseDelta { id, delta_json: b }),
        false,
    );
    let calls = stream::flushed(more.run.stream).calls;
    assert(calls.drop_last() =~= stream::flushed(run.stream).calls);
}

/// The calls of a reply that is complete.
pub open spec fn calls_made(st: StreamView) -> Seq<CallView> {
    match st.current {
        Some(c) => st.calls.push(c),
        None => st.calls,
    }
}

/// What the model said and called stands in the conversation behind what was there: its
/// words as they are, and each call, in order, with its id, its name and its arguments.
/// A reply with calls leads to them, and to nothing else.
pub proof fn law_the_reply_is_kept(engine: EngineView, run: QueryView)
    requires
        !text::is_blank(run.stream.text),
        !run::says_done(run.stream.text),
    ensures
        ({
            let next = run::stepped(engine, run, QueryEventView::StreamEnded, false);
            let calls = calls_made(run.stream);
            let at = engine.history.len() as int;
            &&& next.engine.history.len() > at
            &&& next.engine.history.take(at) == engine.history
            &&& next.engine.history[at].role == Role::Assistant
            &&& next.engine.history[at].content.len() == calls.len() + 1
            &&& next.engine.history[at].content[0] == (ContentBlock::<Text, JsonView>::Text {
                text: run.stream.text,
            })
            &&& forall|k: int|
                0 <= k < calls.len() ==> #[trigger] next.engine.history[at].content[k + 1] == (
                ContentBlock::<Text, JsonView>::ToolUse {
                    id: calls[k].id,
                    name: calls[k].name,
                    input: json_utils::tool_input_or_empty(calls[k].input_json),
                })
            &&& run.stream.reasoning.len() > 0 ==> next.engine.history[at].reasoning_content
                == Some(run.stream.reasoning)
            &&& calls.len() > 0 ==> {
                &&& next.engine.history.len() == at + 1
                &&& next.engine.carryover == engine.carryover
                &&& next.run.stream.calls == calls
                &&& next.run.phase == QueryPhase::Ready
                &&& next.action is ConfirmTools
            }
        }),
{
    reveal(run::stream_ended);
    let next = run::stepped(engine, run, QueryEventView::StreamEnded, false);
    assert(next.engine.history.take(engine.history.len() as int) =~= engine.history);
}

/// Every call of a reply is run, as the model asked for it and in its order, and the user
/// sees each of them start.
pub proof fn law_every_call_is_run(engine: EngineView, run: QueryView)
    ensures
        ({
            let next = run::stepped(
                engine,
                run,
                QueryEventView::ToolsReady { cancelled: false },
                false,
            );
            &&& next.action matches ActionView::RunTools { calls, .. } && calls
                == run.stream.calls
            &&& next.engine == engine
            &&& next.run == (QueryView { phase: QueryPhase::Tools, ..run })
            &&& next.told.len() == run.stream.calls.len()
            &&& forall|k: int|
                0 <= k < run.stream.calls.len() ==> (#[trigger] next.told[k]
                    matches EngineEvent::ToolStart { name, .. } && name
                    == run.stream.calls[k].name)
        }),
{
    reveal(run::tools_ready);
}

/// The model gets every result that its calls came to: the conversation ends in an entry
/// of the user that holds exactly them, in their order, and is otherwise as it was.
pub proof fn law_every_result_is_handed_back(
    engine: EngineView,
    run: QueryView,
    results: Seq<BlockView>,
)
    ensures
        ({
            let next = run::stepped(
                engine,
                run,
                QueryEventView::ToolsRan { results, cancelled: false },
                false,
            );
            let last = next.engine.history.last();
            &&& next.engine.history.len() == engine.history.len() + 1
            &&& next.engine.history.drop_last() == engine.history
            &&& last.role == Role::User
            &&& last.content.len() == results.len()
            &&& forall|i: int| 0 <= i < results.len() ==> #[trigger] last.content[i] == results[i]
            &&& last.reasoning_content is None
            &&& next.engine == (EngineView { history: next.engine.history, ..engine })
            &&& next.run == (QueryView { phase: QueryPhase::Edits, ..run })
            &&& next.action is CompressEdits
            &&& next.told.len() == 0
        }),
{
    reveal(run::tools_ran);
    let next = run::stepped(
        engine,
        run,
        QueryEventView::ToolsRan { results, cancelled: false },
        false,
    );
    assert(next.engine.history.drop_last() =~= engine.history);
}

/// A call that the last reply made, and that has a result among those handed back, is
/// still there with its result when the next request is made.
pub proof fn law_answered_calls_reach_the_next_request(
    engine: EngineView,
    run: QueryView,
    results: Seq<BlockView>,
    i: int,
    j: int,
)
    requires
        engine.history.len() > 0,
        0 <= i < engine.history.last().content.len(),
        0 <= j < results.len(),
        messages::use_id(engine.history.last().content[i]) is Some,
        messages::use_id(engine.history.last().content[i]) == messages::result_id(results[j]),
    ensures
        ({
            let next = run::stepped(
                engine,
                run,
                QueryEventView::ToolsRan { results, cancelled: false },
                false,
            );
            let id = messages::use_id(engine.history.last().content[i])->Some_0;
            let sent = messages::sanitized(next.engine.history);
            messages::is_called(sent, id) && messages::is_answered(sent, id)
        }),
{
    law_every_result_is_handed_back(engine, run, results);
    let h = run::stepped(
        engine,
        run,
        QueryEventView::ToolsRan { results, cancelled: false },
        false,
    ).engine.history;
    let id = messages::use_id(engine.history.last().content[i])->Some_0;
    let n = engine.history.len() - 1;
    assert(h.drop_last()[n] == engine.history[n]);
    assert(messages::use_id(h[n].content[i]) == Some(id));
    assert(messages::content_calls(h[n].content, id));
    assert(messages::result_id(h.last().content[j]) == Some(id));
    assert(messages::content_answers(h[n + 1].content, id));
    messages::law_sanitize_keeps_pairs(h, id);
}

/// What the user says while the model works reaches it after the tools have run, every
/// line of it, and is not said twice; the results beside it stay.
pub proof fn law_guidance_reaches_the_model(
    engine: EngineView,
    run: QueryView,
    edits: Seq<(Text, JsonView)>,
    line: Text,
)
    requires
        engine.steer is Some,
        messages::guidance_lines(engine.steer->Some_0).contains(line),
    ensures
        ({
            let next = run::stepped(engine, run, QueryEventView::EditsCompressed(edits), false);
            &&& next.engine.steer is None
            &&& next.engine.history.len() > 0
            &&& next.engine.history.last().content.len() > 0
            &&& exists|k: int|
                0 <= k < next.engine.history.last().content.len() && (
                #[trigger] next.engine.history.last().content[k] matches ContentBlock::Text {
                    text,
                } && text::has_substring(text, line))
            &&& next.told.contains(EngineEvent::<Text>::SteerHandled)
        }),
{
    reveal(run::turn_ended);
    let steer = engine.steer->Some_0;
    let next = run::stepped(engine, run, QueryEventView::EditsCompressed(edits), false);
    let short = messages::with_compressed_inputs(engine.history, edits);
    let lines = messages::guidance_lines(steer);
    let i = choose|i: int| 0 <= i < lines.len() && lines[i] == line;
    assert(next.told[next.told.len() - 1] == EngineEvent::<Text>::SteerHandled);
    if messages::takes_guidance(short) {
        let k = short.last().content.len() + i;
        let label = messages::guidance_label(lines, i);
        let at = label.len() - line.len();
        assert(label.subrange(at, label.len() as int) =~= line);
        assert(text::occurs_at(label, line, at));
        assert(next.engine.history.last().content[k] == (ContentBlock::<Text, JsonView>::Text {
            text: label,
        }));
    } else {
        let pred = |l: Text| l.len() > 0;
        text::split_at_char(steer, '\n').lemma_filter_contains_rev(pred, line);
        lemma_split_part_stands(steer, '\n', line);
        assert(next.engine.history.last().content[0] == (ContentBlock::<Text, JsonView>::Text {
            text: steer,
        }));
    }
}

proof fn lemma_split_part_stands(s: Text, c: char, part: Text)
    requires
        text::split_at_char(s, c).contains(part),
    ensures
        text::has_substring(s, part),
{
    let parts = text::split_at_char(s, c);
    let k = choose|k: int| 0 <= k < parts.len() && parts[k] == part;
    lemma_split_parts_stand(s, c, k);
}

proof fn lemma_split_parts_stand(s: Text, c: char, k: int)
    requires
        0 <= k < text::split_at_char(s, c).len(),
    ensures
        text::has_substring(s, text::split_at_char(s, c)[k]),
        text::has_suffix(s, text::split_at_char(s, c).last()),
    decreases s.len(),
{
    let parts = text::split_at_char(s, c);
    if s.len() == 0 {
        assert(s.subrange(0, 0) =~= parts[0]);
        assert(text::occurs_at(s, parts[0], 0));
    } else {
        let rest = s.drop_last();
        let before = text::split_at_char(rest, c);
        text::lemma_split_nonempty(rest, c);
        lemma_split_parts_stand(rest, c, if k < before.len() {
            k
        } else {
            0
        });
        let tail = parts.last();
        let from = s.len() - tail.len();
        if s.last() == c {
            assert(s.subrange(from, s.len() as int) =~= tail);
        } else {
            let was = before.last();
            assert(rest.subrange(rest.len() - was.len(), rest.len() as int) == was);
            assert(s.subrange(from, s.len() as int) =~= tail);
        }
        assert(text::occurs_at(s, tail, from));
        if k < parts.len() - 1 {
            assert(parts[k] == before[k]);
            let at = choose|at: int| text::occurs_at(rest, before[k], at);
            assert(s.subrange(at, at + parts[k].len()) =~= rest.subrange(at, at + parts[k].len()));
            assert(text::occurs_at(s, parts[k], at));
        }
    }
}

/// Whether a call became the same call with the arguments that are given for it.
pub open spec fn is_shorter_call(
    before: BlockView,
    after: BlockView,
    edits: Seq<(Text, JsonView)>,
) -> bool {
    match (before, after) {
        (
            ContentBlock::ToolUse { id, name, .. },
            ContentBlock::ToolUse { id: same_id, name: same_name, input },
        ) => same_id == id && same_name == name && edits.contains((id, input)),
        _ => false,
    }
}

proof fn lemma_compressed_is_given(edits: Seq<(Text, JsonView)>, id: Text)
    ensures
        messages::compressed_for(edits, id) matches Some(input) ==> edits.contains((id, input)),
    decreases edits.len(),
{
    if edits.len() > 0 {
        if edits[0].0 == id {
            assert(edits.contains(edits[0]));
        } else {
            let rest = edits.drop_first();
            lemma_compressed_is_given(rest, id);
            if let Some(input) = messages::compressed_for(rest, id) {
                let k = choose|k: int| 0 <= k < rest.len() && rest[k] == (id, input);
                assert(edits[k + 1] == (id, input));
            }
        }
    }
}

/// Where nothing was said in between, a turn that is over changes nothing of the
/// conversation but the arguments of calls for which shorter ones are given.
pub proof fn law_a_turn_keeps_the_conversation(
    engine: EngineView,
    run: QueryView,
    edits: Seq<(Text, JsonView)>,
)
    requires
        engine.steer is None,
    ensures
        ({
            let next = run::stepped(engine, run, QueryEventView::EditsCompressed(edits), false);
            &&& next.engine.history.len() == engine.history.len()
            &&& edits.len() == 0 ==> next.engine.history == engine.history
            &&& forall|k: int, j: int|
                #![trigger next.engine.history[k].content[j]]
                0 <= k < engine.history.len() && 0 <= j < engine.history[k].content.len() ==> (
                next.engine.history[k].content.len() == engine.history[k].content.len() && (
                next.engine.history[k].content[j] == engine.history[k].content[j]
                    || is_shorter_call(
                    engine.history[k].content[j],
                    next.engine.history[k].content[j],
                    edits,
                )))
            &&& next.run.phase == QueryPhase::Top
            &&& next.action matches ActionView::Sync { input, .. } && input == run.input
        }),
{
    reveal(run::turn_ended);
    let next = run::stepped(engine, run, QueryEventView::EditsCompressed(edits), false);
    lemma_last_assistant_place(engine.history);
    assert forall|k: int, j: int|
        #![trigger next.engine.history[k].content[j]]
        0 <= k < engine.history.len() && 0 <= j < engine.history[k].content.len() implies (
    next.engine.history[k].content.len() == engine.history[k].content.len() && (
    next.engine.history[k].content[j] == engine.history[k].content[j] || is_shorter_call(
        engine.history[k].content[j],
        next.engine.history[k].content[j],
        edits,
    ))) by {
        if let ContentBlock::ToolUse { id, .. } = engine.history[k].content[j] {
            lemma_compressed_is_given(edits, id);
        }
    }
    if edits.len() == 0 {
        if let Some(k) = messages::last_assistant(engine.history) {
            assert(engine.history[k].content.map_values(
                |b: BlockView| messages::compressed_block(b, edits),
            ) =~= engine.history[k].content);
        }
        assert(next.engine.history =~= engine.history);
    }
}

proof fn lemma_last_assistant_place(es: Seq<EntryView>)
    ensures
        messages::last_assistant(es) matches Some(k) ==> 0 <= k < es.len() && es[k].role
            == Role::Assistant,
    decreases es.len(),
{
    if es.len() > 0 {
        lemma_last_assistant_place(es.drop_last());
    }
}

/// A request that cannot be made, or whose reply breaks off, is made again as long as it
/// may be, and counted; the user hears of it, and the conversation is left as it was. One
/// that was too long is made again after the conversation was compacted.
pub proof fn law_failed_requests_are_made_again(
    engine: EngineView,
    run: QueryView,
    error: ApiError<Text>,
)
    requires
        run.attempt < engine.settings.max_retries,
        run.phase == QueryPhase::Opening || run.phase == QueryPhase::Streaming,
    ensures
        ({
            let next = run::stepped(engine, run, QueryEventView::OpenFailed(error), false);
            &&& next.action matches ActionView::Wait { attempt, .. } && attempt
                == run.attempt + 1
            &&& next.run.attempt == run.attempt + 1
            &&& next.run.last_error == Some(error)
            &&& next.engine == engine
            &&& next.told.len() == 1 && next.told[0] is Status
        }),
        ({
            let next = run::stepped(engine, run, QueryEventView::StreamFailed(error), false);
            &&& next.action matches ActionView::Wait { attempt, .. } && attempt
                == run.attempt + 1
            &&& next.run.attempt == run.attempt + 1
            &&& next.run.last_error == Some(error)
            &&& next.run.stream == stream::nothing_streamed()
            &&& next.engine == engine
        }),
        ({
            let next = run::stepped(engine, run, QueryEventView::StreamTimedOut, false);
            &&& next.action matches ActionView::Wait { attempt, .. } && attempt
                == run.attempt + 1
            &&& next.engine == engine
            &&& next.told.len() == 2 && next.told[0] is Error
        }),
        run.phase == QueryPhase::Opening ==> {
            let next = run::stepped(engine, run, QueryEventView::OpenFailed(error), true);
            &&& next.action is CompactAgain
            &&& next.run.too_long == Some(error)
            &&& next.engine == engine
        },
{
    reveal(run::open_failed);
    reveal(run::stream_broken);
}

/// The model's word that the task is complete ends the query: the goal is cleared, and
/// `QueryDone` is told last.
pub proof fn law_done_is_done(engine: EngineView, run: QueryView)
    requires
        run::says_done(run.stream.text),
        !text::is_blank(run::without_done(run.stream.text)),
        run.stream.calls.len() == 0,
        run.stream.current is None,
        run.stream.stop_reason != Some(StopReason::MaxTokens),
    ensures
        ({
            let next = run::stepped(engine, run, QueryEventView::StreamEnded, false);
            &&& next.run.phase == QueryPhase::Over
            &&& next.action is Stop
            &&& next.engine.carryover.task_focus.goal.len() == 0
            &&& next.engine.steer is None
            &&& next.told.len() > 0 && next.told.last() is QueryDone
            &&& next.engine.history.len() == engine.history.len() + 1
        }),
{
    reveal(run::stream_ended);
    reveal_strlit("[DONE]");
    let said = run.stream.text;
    let at = choose|at: int| text::occurs_at(said, "[DONE]"@, at);
    assert(said.subrange(at, at + "[DONE]"@.len())[0] == '[');
    assert(said[at] == '[');
    text::law_blank_is_all_white(said);
    assert(!text::is_white(said[at]));
}

/// The request is made with the conversation as the API accepts it; and where the model
/// cannot see pictures, each of them is described for it, in words that it gets.
pub proof fn law_pictures_are_described(
    engine: EngineView,
    run: QueryView,
    analyses: Seq<Result<Text, Text>>,
    i: int,
)
    requires
        0 <= i < context::images_of(engine.history).len(),
        analyses.len() == context::images_of(engine.history).len(),
    ensures
        ({
            let next = run::stepped(engine, run, QueryEventView::Described(analyses), false);
            &&& text::has_substring(
                next.run.vision,
                match analyses[i] {
                    Ok(description) => description,
                    Err(error) => error,
                },
            )
            &&& next.action is Open
            &&& next.engine.history.len() == engine.history.len()
        }),
{
    let images = context::images_of(engine.history);
    let notes = context::image_notes(images, analyses);
    let words = match analyses[i] {
        Ok(description) => description,
        Err(error) => error,
    };
    let vision = context::vision_context(images, analyses);
    let all = text::joined(notes, "\n\n---\n\n"@);
    text::lemma_joined_has(notes, "\n\n---\n\n"@, i);
    let a = choose|a: int| text::occurs_at(all, notes[i], a);
    let note = notes[i];
    let b = match analyses[i] {
        Ok(_) => note.len() - words.len(),
        Err(_) => note.len() - words.len() - "]"@.len(),
    };
    assert(note.subrange(b, b + words.len()) =~= words);
    let from = vision.len() - all.len() + a + b;
    assert(vision.subrange(from, from + words.len()) =~= all.subrange(a, a + note.len()).subrange(
        b,
        b + words.len(),
    ));
    assert(text::occurs_at(vision, words, from));
}

/// What a request cost is counted when its reply is complete, by what was reported of it
/// last, and the user is told how full the context is.
pub proof fn law_costs_are_counted(
    engine: EngineView,
    run: QueryView,
    reason: StopReason,
    usage: Usage,
)
    requires
        run.stream.pending_usage is None,
        engine.costs.turns + 1 <= u64::MAX,
    ensures
        ({
            let done = QueryEventView::Piece(
                StreamEvent::MessageComplete { stop_reason: reason, usage },
            );
            let next = run::stepped(engine, run, done, false);
            &&& next.run.stream.stop_reason == Some(reason)
            &&& next.run.stream.text == run.stream.text
            &&& next.run.stream.calls == run.stream.calls
            &&& next.engine.costs.last_output == usage.output_tokens
            &&& next.engine.costs.last_prompt == usage.input_tokens
                + usage.cache_read_input_tokens + usage.cache_creation_input_tokens
            &&& next.engine.costs.turns == engine.costs.turns + 1
            &&& next.engine.history == engine.history
            &&& next.action == (ActionView::Read { usage: Some(usage) })
            &&& next.told.len() == 1 && next.told[0] is TokenUpdate
        }),
{
}

/// Whatever was compacted, the request is made with the conversation as the API accepts
/// it and nothing less; and the user is told what a compaction brought.
pub proof fn law_requests_carry_the_conversation(
    engine: EngineView,
    run: QueryView,
    result: Option<CompactResult>,
)
    requires
        run.phase == QueryPhase::Compacting,
    ensures
        ({
            let next = run::stepped(engine, run, QueryEventView::Compacted(result), false);
            &&& next.engine == (EngineView {
                history: messages::sanitized(engine.history),
                ..engine
            })
            &&& next.run.attempt == 0
            &&& next.run.stream == stream::nothing_streamed()
            &&& next.run.turn == run.turn
            &&& next.action is Open || next.action is DescribeImages
            &&& next.action is DescribeImages ==> !run::sees_images(engine)
                && context::images_of(messages::sanitized(engine.history)).len() > 0
            &&& result matches Some(r) ==> next.told.len() > 0 && (
            next.told[0] matches EngineEvent::CompactProgress { tokens_before, tokens_after, .. }
                && tokens_before == r.tokens_before as u64 && tokens_after
                == r.tokens_after as u64)
        }),
{
    reveal(run::compacted);
    reveal(run::prepared);
    messages::law_sanitize_idempotent(engine.history);
}

/// What the model had said when the user stopped it stays in the conversation.
pub proof fn law_interrupted_words_are_kept(engine: EngineView, run: QueryView)
    requires
        run.phase == QueryPhase::Streaming,
        !text::is_blank(run.stream.text),
    ensures
        ({
            let next = run::stepped(engine, run, QueryEventView::Cancelled, false);
            &&& next.run.phase == QueryPhase::Over
            &&& next.told.contains(EngineEvent::<Text>::Interrupted)
            &&& exists|k: int|
                0 <= k < next.engine.history.len() && (#[trigger] next.engine.history[k]).role
                    == Role::Assistant && next.engine.history[k].content.contains(
                    ContentBlock::<Text, JsonView>::Text { text: run.stream.text },
                )
        }),
{
    reveal(run::reply_interrupted);
    reveal(run::interrupted);
    let next = run::stepped(engine, run, QueryEventView::Cancelled, false);
    let said = EntryView {
        role: Role::Assistant,
        content: seq![ContentBlock::<Text, JsonView>::Text { text: run.stream.text }],
        reasoning_content: if run.stream.reasoning.len() == 0 {
            None
        } else {
            Some(run.stream.reasoning)
        },
    };
    let h = engine.history.push(said);
    assert(next.engine.history == messages::sanitized(h));
    assert(h[engine.history.len() as int] == said);
    messages::law_sanitize_keeps_words(h, engine.history.len() as int, 0);
    assert(next.told[0] == EngineEvent::<Text>::Interrupted);
}

/// A review that is due is given the conversation, and counting begins anew; until then
/// each query that ends counts one.
pub proof fn law_due_reviews_are_handed_over(engine: EngineView)
    requires
        engine.turns_since_skill_review < u32::MAX,
    ensures
        ({
            let n = (engine.turns_since_skill_review + 1) as u32;
            let skills = engine.settings.skills;
            let due = skills.background_review_enabled && skills.review_interval_turns > 0 && n
                as int % skills.review_interval_turns as int == 0
                && engine.settings.can_delegate;
            &&& due ==> run::reviewed(engine) == (
                0u32,
                Some(context::conversation_summary(engine.history)),
            )
            &&& !due ==> run::reviewed(engine) == (n, None::<Text>)
            &&& run::after_review(engine) == (EngineView {
                turns_since_skill_review: run::reviewed(engine).0,
                ..engine
            })
        }),
{
}

/// A reply that comes to nothing is not passed over in silence: the user hears why, and
/// the model is reminded of its goal, or the query ends with word of it.
pub proof fn law_empty_replies_are_told(engine: EngineView, run: QueryView)
    requires
        run.stream == stream::nothing_streamed(),
        run.attempt >= engine.settings.max_retries,
    ensures
        ({
            let next = run::stepped(engine, run, QueryEventView::StreamEnded, false);
            &&& next.told.len() >= 2 && next.told[0] is Status
            &&& run::has_goal(engine) && run.auto_continue < engine.settings.max_auto_continue
                ==> next.action is NextTurn && next.engine.history.len()
                == engine.history.len() + 1
            &&& !(run::has_goal(engine) && run.auto_continue
                < engine.settings.max_auto_continue) ==> next.action is Stop && next.told.last()
                is QueryDone && next.engine.history == engine.history
        }),
{
    reveal(run::stream_ended);
    reveal_strlit("[DONE]");
    assert(!run::says_done(Seq::empty())) by {
        let none = Seq::<char>::empty();
        if run::says_done(none) {
            let at = choose|at: int| text::occurs_at(none, "[DONE]"@, at);
            assert(at + 6 <= 0);
        }
    }
}

/// Where the server reports what a request took before its end, that counts, but for the
/// reply, which counts by the end.
pub proof fn law_early_reports_count(
    engine: EngineView,
    run: QueryView,
    early: Usage,
    reason: StopReason,
    late: Usage,
)
    ensures
        ({
            let told = run::stepped(
                engine,
                run,
                QueryEventView::Piece(StreamEvent::UsageUpdate(early)),
                false,
            );
            let done = run::stepped(
                told.engine,
                told.run,
                QueryEventView::Piece(
                    StreamEvent::MessageComplete { stop_reason: reason, usage: late },
                ),
                false,
            );
            &&& told.engine == engine
            &&& done.engine.costs.input == engine.costs.input + early.input_tokens
            &&& done.engine.costs.output == engine.costs.output + late.output_tokens
            &&& done.engine.costs.last_output == late.output_tokens
            &&& done.engine.costs.last_prompt == early.input_tokens
                + early.cache_read_input_tokens + early.cache_creation_input_tokens
            &&& done.run.stream.pending_usage is None
        }),
{
}

} // verus!
