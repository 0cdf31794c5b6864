//! What the query loop takes from the conversation and puts into it: pictures
//! that are described, the summary for a review, the working memory, and the
//! system prompt of a request.

use crate::api;
use crate::api::BlockView;
use crate::api::ContentBlock;
use crate::api::Role;
use crate::engine::carryover;
use crate::engine::carryover::Carryover;
use crate::engine::carryover::CarryoverView;
use crate::engine::messages;
use crate::engine::messages::ConversationEntry;
use crate::engine::messages::ConversationHistory;
use crate::engine::messages::EntryView;
use crate::engine::query::json_utils;
use crate::engine::query::tool_exec;
use crate::engine::query::tool_exec::CallView;
use crate::engine::query::tool_exec::CollectedToolUse;
use crate::json::Json;
use crate::json::JsonView;
use crate::text;
use crate::text::Text;
use vstd::prelude::*;
use vstd::string::*;

verus! {

// ---------------------------------------------------------------------------
// Pictures
// ---------------------------------------------------------------------------

/// The pictures among blocks.
pub open spec fn images_in(content: Seq<BlockView>) -> Seq<BlockView> {
    content.filter(|b: BlockView| b is Image)
}

/// What is not a picture among blocks.
pub open spec fn others_in(content: Seq<BlockView>) -> Seq<BlockView> {
    content.filter(|b: BlockView| !(b is Image))
}

/// The pictures of a conversation, in order.
pub open spec fn images_of(es: Seq<EntryView>) -> Seq<BlockView>
    decreases es.len(),
{
    if es.len() == 0 {
        Seq::empty()
    } else {
        images_of(es.drop_last()) + images_in(es.last().content)
    }
}

/// A conversation without its pictures.
pub open spec fn without_images(es: Seq<EntryView>) -> Seq<EntryView> {
    es.map_values(|e: EntryView| EntryView { content: others_in(e.content), ..e })
}

/// What is said of a picture, from what its analysis came to.
pub open spec fn image_note(image: BlockView, analysis: Result<Text, Text>) -> Text {
    let path = image->source_path;
    match analysis {
        Ok(description) => "[Image Analysis — "@ + (if path.len() == 0 {
            "image (clipboard)"@
        } else {
            "image ("@ + path + ")"@
        }) + "]:\n"@ + description,
        Err(error) => "[Image ("@ + (if path.len() == 0 {
            "clipboard"@
        } else {
            path
        }) + "): analysis failed — "@ + error + "]"@,
    }
}

/// What is said of pictures.
pub open spec fn image_notes(images: Seq<BlockView>, analyses: Seq<Result<Text, Text>>) -> Seq<
    Text,
> {
    Seq::new(images.len(), |i: int| image_note(images[i], analyses[i]))
}

/// What the system prompt says of pictures that were described.
pub open spec fn vision_context(images: Seq<BlockView>, analyses: Seq<Result<Text, Text>>) -> Text {
    if images.len() == 0 {
        Seq::empty()
    } else {
        "\n\n## Attached Image Descriptions\n\nThe following images were attached by the user. Their content has been analyzed and described below. Treat these as context, not as user input:\n\n"@
            + text::joined(image_notes(images, analyses), "\n\n---\n\n"@)
    }
}

/// What a list of analyses holds.
pub open spec fn analyses_view(v: Seq<Result<String, String>>) -> Seq<Result<Text, Text>> {
    Seq::new(
        v.len(),
        |i: int|
            match v[i] {
                Ok(s) => Ok(s@),
                Err(e) => Err(e@),
            },
    )
}

/// The pictures of a conversation, to be described: media type, data and path
/// of each.
pub fn list_images(history: &ConversationHistory) -> (r: Vec<ContentBlock>)
    ensures
        api::blocks(r@) == images_of(history@),
{
    let entries = history.entries_raw();
    let ghost es = history@;
    let mut out: Vec<ContentBlock> = Vec::new();
    let mut i: usize = 0;
    assert(api::blocks(out@) =~= images_of(es.take(0)));
    while i < entries.len()
        invariant
            i <= entries@.len(),
            es == messages::entries_view(entries@),
            api::blocks(out@) == images_of(es.take(i as int)),
        decreases entries@.len() - i,
    {
        let ghost base = api::blocks(out@);
        let ghost all = es[i as int].content;
        let ghost pred = |b: BlockView| b is Image;
        assert(es.take(i + 1).drop_last() =~= es.take(i as int));
        assert(es.take(i + 1).last() == es[i as int]);
        let content = &entries[i].content;
        assert(all == api::blocks(content@));
        let mut j: usize = 0;
        assert(all.take(0).filter(pred) =~= Seq::<BlockView>::empty()) by {
            assert(all.take(0) =~= Seq::<BlockView>::empty());
            reveal(Seq::filter);
        }
        assert(base + all.take(0).filter(pred) =~= base);
        while j < content.len()
            invariant
                j <= content@.len(),
                all == api::blocks(content@),
                pred == (|b: BlockView| b is Image),
                api::blocks(out@) == base + all.take(j as int).filter(pred),
            decreases content@.len() - j,
        {
            proof {
                assert(all.take(j + 1) =~= all.take(j as int).push(all[j as int]));
                all.take(j as int).lemma_filter_push(all[j as int], pred);
            }
            let is_image = match &content[j] {
                ContentBlock::Image { .. } => true,
                _ => false,
            };
            if is_image {
                let ghost was = api::blocks(out@);
                out.push(content[j].copy());
                assert(api::blocks(out@) =~= was.push(all[j as int]));
                assert(was.push(all[j as int]) =~= base + all.take(j as int).filter(pred).push(
                    all[j as int],
                ));
            }
            j = j + 1;
        }
        assert(all.take(j as int) =~= all);
        i = i + 1;
    }
    assert(es.take(i as int) =~= es);
    out
}

fn drop_images(content: &Vec<ContentBlock>) -> (r: Vec<ContentBlock>)
    ensures
        api::blocks(r@) == others_in(api::blocks(content@)),
{
    let ghost all = api::blocks(content@);
    let ghost pred = |b: BlockView| !(b is Image);
    let mut out: Vec<ContentBlock> = Vec::new();
    let mut j: usize = 0;
    assert(all.take(0).filter(pred) =~= Seq::<BlockView>::empty()) by {
        assert(all.take(0) =~= Seq::<BlockView>::empty());
        reveal(Seq::filter);
    }
    while j < content.len()
        invariant
            j <= content@.len(),
            all == api::blocks(content@),
            pred == (|b: BlockView| !(b is Image)),
            api::blocks(out@) == all.take(j as int).filter(pred),
        decreases content@.len() - j,
    {
        proof {
            assert(all.take(j + 1) =~= all.take(j as int).push(all[j as int]));
            all.take(j as int).lemma_filter_push(all[j as int], pred);
        }
        let is_image = match &content[j] {
            ContentBlock::Image { .. } => true,
            _ => false,
        };
        if !is_image {
            let ghost was = api::blocks(out@);
            out.push(content[j].copy());
            assert(api::blocks(out@) =~= was.push(all[j as int]));
        }
        j = j + 1;
    }
    assert(all.take(j as int) =~= all);
    out
}

fn note_image(image: &ContentBlock, analysis: &Result<String, String>) -> (r: String)
    requires
        image@ is Image,
    ensures
        r@ == image_note(
            image@,
            match *analysis {
                Ok(s) => Ok(s@),
                Err(e) => Err(e@),
            },
        ),
{
    match image {
        ContentBlock::Image { source_path, .. } => {
            let clipboard = source_path.as_str().is_empty();
            match analysis {
                Ok(description) => {
                    let label = if clipboard {
                        text::copy("image (clipboard)")
                    } else {
                        text::cat3("image (", source_path.as_str(), ")")
                    };
                    text::cat4(
                        "[Image Analysis — ",
                        label.as_str(),
                        "]:\n",
                        description.as_str(),
                    )
                },
                Err(error) => {
                    let label = if clipboard {
                        text::copy("clipboard")
                    } else {
                        text::copy(source_path.as_str())
                    };
                    text::cat5(
                        "[Image (",
                        label.as_str(),
                        "): analysis failed — ",
                        error.as_str(),
                        "]",
                    )
                },
            }
        },
        _ => String::new(),
    }
}

proof fn lemma_images_are_images(es: Seq<EntryView>)
    ensures
        forall|i: int| 0 <= i < images_of(es).len() ==> (#[trigger] images_of(es)[i]) is Image,
    decreases es.len(),
{
    if es.len() > 0 {
        lemma_images_are_images(es.drop_last());
        let pred = |b: BlockView| b is Image;
        let last = es.last().content;
        assert forall|i: int| 0 <= i < last.filter(pred).len() implies (
        #[trigger] last.filter(pred)[i]) is Image by {
            last.lemma_filter_pred(pred, i);
        }
    }
}

/// Take the pictures out of the conversation and say in words what is in them.
/// `analyses` is what their analyses came to, one for each picture in order.
pub fn preprocess_images(
    history: &mut ConversationHistory,
    analyses: &Vec<Result<String, String>>,
) -> (r: String)
    requires
        analyses@.len() == images_of(old(history)@).len(),
    ensures
        r@ == vision_context(images_of(old(history)@), analyses_view(analyses@)),
        final(history)@ == without_images(old(history)@),
{
    let ghost es = history@;
    let images = list_images(history);
    let ghost ims = images_of(es);
    assert(ims.len() == images@.len());
    proof {
        lemma_images_are_images(es);
    }
    let mut notes: Vec<String> = Vec::new();
    let mut i: usize = 0;
    while i < images.len()
        invariant
            i <= images@.len(),
            images@.len() == analyses@.len(),
            ims == api::blocks(images@),
            forall|k: int| 0 <= k < ims.len() ==> (#[trigger] ims[k]) is Image,
            notes@.len() == i,
            forall|k: int|
                0 <= k < i ==> (#[trigger] notes@[k])@ == image_note(
                    ims[k],
                    analyses_view(analyses@)[k],
                ),
        decreases images@.len() - i,
    {
        assert(ims[i as int] == images@[i as int]@);
        notes.push(note_image(&images[i], &analyses[i]));
        i = i + 1;
    }
    assert(text::texts(notes@) =~= image_notes(ims, analyses_view(analyses@)));

    let entries = history.entries_raw();
    let mut out: Vec<ConversationEntry> = Vec::new();
    let mut k: usize = 0;
    while k < entries.len()
        invariant
            k <= entries@.len(),
            es == messages::entries_view(entries@),
            out@.len() == k,
            forall|m: int|
                0 <= m < k ==> (#[trigger] out@[m])@ == (EntryView {
                    content: others_in(es[m].content),
                    ..es[m]
                }),
        decreases entries@.len() - k,
    {
        let e = &entries[k];
        assert(es[k as int] == e@);
        out.push(
            ConversationEntry {
                role: e.role,
                content: drop_images(&e.content),
                reasoning_content: text::copy_opt(&e.reasoning_content),
            },
        );
        k = k + 1;
    }
    *history = ConversationHistory::from_entries(out);
    assert(history@ =~= without_images(es));
    if notes.len() == 0 {
        String::new()
    } else {
        let joined = text::join(&notes, "\n\n---\n\n");
        text::cat2(
            "\n\n## Attached Image Descriptions\n\nThe following images were attached by the user. Their content has been analyzed and described below. Treat these as context, not as user input:\n\n",
            joined.as_str(),
        )
    }
}

// ---------------------------------------------------------------------------
// The conversation in short
// ---------------------------------------------------------------------------

/// What a review reads of a block.
pub open spec fn summary_line(role: Role, b: BlockView) -> Option<Text> {
    match b {
        ContentBlock::Text { text } => {
            let preview = text::first_chars(text, 2000);
            if text::is_blank(preview) {
                None
            } else if role == Role::User {
                Some("User: "@ + preview)
            } else {
                Some("Assistant: "@ + preview)
            }
        },
        ContentBlock::ToolUse { name, input, .. } => Some(
            "Tool call: "@ + name + " ("@ + text::first_chars(input.item.text, 500) + ")"@,
        ),
        ContentBlock::ToolResult { content, is_error, .. } => if is_error == Some(true) {
            Some("Tool error: "@ + text::first_chars(content, 500))
        } else {
            Some("Tool result: "@ + text::first_chars(content, 500))
        },
        ContentBlock::Image { .. } => None,
    }
}

/// What a review reads of an entry.
pub open spec fn entry_lines(e: EntryView) -> Seq<Text> {
    e.content.filter_map(|b: BlockView| summary_line(e.role, b))
}

/// What a review reads of entries.
pub open spec fn entries_lines(es: Seq<EntryView>) -> Seq<Text>
    decreases es.len(),
{
    if es.len() == 0 {
        Seq::empty()
    } else {
        entries_lines(es.drop_last()) + entry_lines(es.last())
    }
}

/// The last ten entries.
pub open spec fn recent_entries(es: Seq<EntryView>) -> Seq<EntryView> {
    if es.len() > 10 {
        es.skip(es.len() - 10)
    } else {
        es
    }
}

/// The conversation as a review reads it.
pub open spec fn conversation_summary(es: Seq<EntryView>) -> Text {
    text::joined(entries_lines(recent_entries(es)), "\n"@)
}

fn line_of(role: Role, b: &ContentBlock) -> (r: Option<String>)
    ensures
        text::opt_text(r) == summary_line(role, b@),
{
    match b {
        ContentBlock::Text { text } => {
            let preview = text::take_chars(text.as_str(), 2000);
            if text::blank(preview.as_str()) {
                None
            } else if role == Role::User {
                Some(text::cat2("User: ", preview.as_str()))
            } else {
                Some(text::cat2("Assistant: ", preview.as_str()))
            }
        },
        ContentBlock::ToolUse { name, input, .. } => {
            let preview = text::take_chars(input.item.text.as_str(), 500);
            Some(text::cat5("Tool call: ", name.as_str(), " (", preview.as_str(), ")"))
        },
        ContentBlock::ToolResult { content, is_error, .. } => {
            let preview = text::take_chars(content.as_str(), 500);
            if *is_error == Some(true) {
                Some(text::cat2("Tool error: ", preview.as_str()))
            } else {
                Some(text::cat2("Tool result: ", preview.as_str()))
            }
        },
        ContentBlock::Image { .. } => None,
    }
}

fn push_entry_lines(lines: &mut Vec<String>, e: &ConversationEntry)
    ensures
        text::texts(final(lines)@) == text::texts(old(lines)@) + entry_lines(e@),
{
    let ghost base = text::texts(lines@);
    let ghost all = e@.content;
    let ghost f = |b: BlockView| summary_line(e@.role, b);
    let mut j: usize = 0;
    assert(all.take(0).filter_map(f) =~= Seq::<Text>::empty()) by {
        assert(all.take(0) =~= Seq::<BlockView>::empty());
    }
    assert(base + all.take(0).filter_map(f) =~= base);
    while j < e.content.len()
        invariant
            j <= e.content@.len(),
            all == e@.content,
            f == (|b: BlockView| summary_line(e@.role, b)),
            text::texts(lines@) == base + all.take(j as int).filter_map(f),
        decreases e.content@.len() - j,
    {
        proof {
            all.lemma_filter_map_take_succ(f, j as int);
        }
        let ghost was = text::texts(lines@);
        assert(all[j as int] == e.content@[j as int]@);
        if let Some(line) = line_of(e.role, &e.content[j]) {
            assert(f(all[j as int]) == Some(line@));
            assert(was.push(line@) =~= base + (all.take(j as int).filter_map(f) + seq![line@]));
            text::push_text(lines, line);
        } else {
            assert(was =~= base + (all.take(j as int).filter_map(f) + Seq::<Text>::empty()));
        }
        j = j + 1;
    }
    assert(all.take(j as int) =~= all);
}

/// The conversation as a review reads it: the last ten entries, each block on
/// lines of its own.
pub fn build_conversation_summary(history: &ConversationHistory) -> (r: String)
    ensures
        r@ == conversation_summary(history@),
{
    let entries = history.entries_raw();
    let ghost es = history@;
    let n: usize = entries.len();
    let start: usize = if n > 10 {
        n - 10
    } else {
        0
    };
    let ghost recent = recent_entries(es);
    assert(recent =~= es.skip(start as int));
    let mut lines: Vec<String> = Vec::new();
    let mut i: usize = start;
    assert(text::texts(lines@) =~= entries_lines(recent.take(0)));
    while i < entries.len()
        invariant
            start <= i <= entries@.len(),
            es == messages::entries_view(entries@),
            recent == es.skip(start as int),
            text::texts(lines@) == entries_lines(recent.take(i - start)),
        decreases entries@.len() - i,
    {
        assert(recent.take(i + 1 - start).drop_last() =~= recent.take(i - start));
        assert(recent.take(i + 1 - start).last() == entries@[i as int]@);
        push_entry_lines(&mut lines, &entries[i]);
        i = i + 1;
    }
    assert(recent.take(i - start) =~= recent);
    text::join(&lines, "\n")
}

/// What an external memory is told of the assistant's turn: its words, or the
/// tools that it called.
pub open spec fn turn_summary(assistant_text: Text, tus: Seq<CallView>) -> Text {
    if !text::is_blank(assistant_text) {
        assistant_text
    } else {
        text::joined(tus.map_values(|t: CallView| "["@ + t.name + "]"@), ", "@)
    }
}

/// What an external memory is told of the assistant's turn.
pub fn summarize_turn(assistant_text: &str, tool_uses: &Vec<CollectedToolUse>) -> (r: String)
    ensures
        r@ == turn_summary(assistant_text@, tool_exec::calls(tool_uses@)),
{
    if !text::blank(assistant_text) {
        return text::copy(assistant_text);
    }
    let ghost tus = tool_exec::calls(tool_uses@);
    let mut names: Vec<String> = Vec::new();
    let mut i: usize = 0;
    while i < tool_uses.len()
        invariant
            i <= tool_uses@.len(),
            tus == tool_exec::calls(tool_uses@),
            names@.len() == i,
            forall|k: int|
                0 <= k < i ==> (#[trigger] names@[k])@ == "["@ + tus[k].name + "]"@,
        decreases tool_uses@.len() - i,
    {
        names.push(text::cat3("[", tool_uses[i].name.as_str(), "]"));
        i = i + 1;
    }
    assert(text::texts(names@) =~= tus.map_values(|t: CallView| "["@ + t.name + "]"@));
    text::join(&names, ", ")
}

// ---------------------------------------------------------------------------
// The working memory
// ---------------------------------------------------------------------------

/// The result of a call among blocks: its content, and whether it is an error.
pub open spec fn result_for(content: Seq<BlockView>, id: Text) -> Option<(Text, bool)>
    decreases content.len(),
{
    if content.len() == 0 {
        None
    } else {
        match content[0] {
            ContentBlock::ToolResult { tool_use_id, content: result, is_error } => if tool_use_id
                == id {
                Some((result, is_error == Some(true)))
            } else {
                result_for(content.drop_first(), id)
            },
            _ => result_for(content.drop_first(), id),
        }
    }
}

/// The memory after a call with the given arguments, whose result stands among
/// `content`. A read whose span cannot be written down leaves no trace.
pub open spec fn after_one_call(
    c: CarryoverView,
    content: Seq<BlockView>,
    call: CallView,
    input: JsonView,
) -> CarryoverView {
    match result_for(content, call.id) {
        Some((output, is_error)) => if carryover::is_read(call.name) && !is_error
            && !carryover::span_fits(input) {
            c
        } else {
            carryover::recorded(
                c,
                call.name,
                input,
                output,
                is_error,
                carryover::resolved_path(input),
            )
        },
        None => c,
    }
}

/// The memory after calls whose results stand among `content`.
pub open spec fn after_calls(
    c: CarryoverView,
    content: Seq<BlockView>,
    tus: Seq<CallView>,
) -> CarryoverView
    decreases tus.len(),
{
    if tus.len() == 0 {
        c
    } else {
        after_one_call(
            after_calls(c, content, tus.drop_last()),
            content,
            tus.last(),
            json_utils::tool_input_or_empty(tus.last().input_json),
        )
    }
}

/// The blocks of the last entry.
pub open spec fn last_content(es: Seq<EntryView>) -> Seq<BlockView> {
    if es.len() == 0 {
        Seq::empty()
    } else {
        es.last().content
    }
}

fn find_result(content: &Vec<ContentBlock>, id: &str) -> (r: Option<(String, bool)>)
    ensures
        match r {
            Some(p) => result_for(api::blocks(content@), id@) == Some((p.0@, p.1)),
            None => result_for(api::blocks(content@), id@) is None,
        },
{
    let ghost all = api::blocks(content@);
    let mut i: usize = 0;
    assert(all.skip(0) =~= all);
    while i < content.len()
        invariant
            i <= content@.len(),
            all == api::blocks(content@),
            result_for(all, id@) == result_for(all.skip(i as int), id@),
        decreases content@.len() - i,
    {
        assert(all.skip(i as int)[0] == content@[i as int]@);
        assert(all.skip(i as int).drop_first() =~= all.skip(i + 1));
        if let ContentBlock::ToolResult { tool_use_id, content: result, is_error } = &content[i] {
            if text::same(tool_use_id.as_str(), id) {
                return Some((text::copy(result.as_str()), *is_error == Some(true)));
            }
        }
        i = i + 1;
    }
    None
}

fn fits_span(input: &Json) -> (r: bool)
    ensures
        r == carryover::span_fits(input@),
{
    let offset: usize = match input.get_u64("offset") {
        Some(n) => n as usize,
        None => 0,
    };
    let limit: usize = match input.get_u64("limit") {
        Some(n) => n as usize,
        None => 200,
    };
    offset < usize::MAX && limit <= usize::MAX - offset
}

/// Record one call with the given arguments, whose result stands among
/// `content`.
pub fn record_call(
    memory: &mut Carryover,
    content: &Vec<ContentBlock>,
    call: &CollectedToolUse,
    input: &Json,
)
    ensures
        final(memory)@ == after_one_call(
            old(memory)@,
            api::blocks(content@),
            call@,
            input@,
        ),
{
    if let Some((output, is_error)) = find_result(content, call.id.as_str()) {
        let name = call.name.as_str();
        let reads = text::same(name, "read") || text::same(name, "read_file");
        if reads && !is_error && !fits_span(input) {
            return;
        }
        let path = carryover::resolve_file_path(input);
        memory.record_tool_result(name, input, output.as_str(), is_error, &path);
    }
}

/// Record calls whose results stand in the last entry of the conversation.
pub fn record_tool_carryover(
    memory: &mut Carryover,
    history: &ConversationHistory,
    tool_uses: &Vec<CollectedToolUse>,
)
    ensures
        final(memory)@ == after_calls(
            old(memory)@,
            last_content(history@),
            tool_exec::calls(tool_uses@),
        ),
{
    let ghost c = memory@;
    let ghost tus = tool_exec::calls(tool_uses@);
    let entries = history.entries_raw();
    let n: usize = entries.len();
    let nothing: Vec<ContentBlock> = Vec::new();
    let content = if n > 0 {
        &entries[n - 1].content
    } else {
        &nothing
    };
    let ghost shown = last_content(history@);
    assert(shown =~= api::blocks(content@)) by {
        if n > 0 {
            assert(history@.last() == entries@[n - 1]@);
        }
    }
    let mut i: usize = 0;
    while i < tool_uses.len()
        invariant
            i <= tool_uses@.len(),
            tus == tool_exec::calls(tool_uses@),
            shown == api::blocks(content@),
            memory@ == after_calls(c, shown, tus.take(i as int)),
        decreases tool_uses@.len() - i,
    {
        assert(tus.take(i + 1).drop_last() =~= tus.take(i as int));
        assert(tus.take(i + 1).last() == tool_uses@[i as int]@);
        let input = json_utils::parse_tool_input_or_empty(tool_uses[i].input_json.as_str());
        record_call(memory, content, &tool_uses[i], &input);
        i = i + 1;
    }
    assert(tus.take(i as int) =~= tus);
}

// ---------------------------------------------------------------------------
// Edits that succeeded
// ---------------------------------------------------------------------------

/// Whether a call of `edit` has the identifier.
pub open spec fn is_edit_call(tus: Seq<CallView>, id: Text) -> bool {
    exists|k: int| 0 <= k < tus.len() && (#[trigger] tus[k]).id == id && tus[k].name == "edit"@
}

/// The identifier of the edit that a block reports as done.
pub open spec fn edit_done(tus: Seq<CallView>, b: BlockView) -> Option<Text> {
    match b {
        ContentBlock::ToolResult { tool_use_id, content, is_error } => if is_error != Some(true)
            && text::has_prefix(content, "Replaced"@) && is_edit_call(tus, tool_use_id) {
            Some(tool_use_id)
        } else {
            None
        },
        _ => None,
    }
}

/// The edits that blocks report as done.
pub open spec fn edits_done(tus: Seq<CallView>, content: Seq<BlockView>) -> Seq<Text> {
    content.filter_map(|b: BlockView| edit_done(tus, b))
}

fn calls_edit(tool_uses: &Vec<CollectedToolUse>, id: &str) -> (r: bool)
    ensures
        r == is_edit_call(tool_exec::calls(tool_uses@), id@),
{
    let ghost tus = tool_exec::calls(tool_uses@);
    let mut i: usize = 0;
    while i < tool_uses.len()
        invariant
            i <= tool_uses@.len(),
            tus == tool_exec::calls(tool_uses@),
            forall|k: int|
                0 <= k < i ==> !((#[trigger] tus[k]).id == id@ && tus[k].name == "edit"@),
        decreases tool_uses@.len() - i,
    {
        assert(tus[i as int] == tool_uses@[i as int]@);
        if text::same(tool_uses[i].id.as_str(), id) && text::same(
            tool_uses[i].name.as_str(),
            "edit",
        ) {
            return true;
        }
        i = i + 1;
    }
    false
}

/// The edits that blocks report as done.
pub fn successful_edits(tool_uses: &Vec<CollectedToolUse>, content: &Vec<ContentBlock>) -> (r: Vec<
    String,
>)
    ensures
        text::texts(r@) == edits_done(tool_exec::calls(tool_uses@), api::blocks(content@)),
{
    let ghost tus = tool_exec::calls(tool_uses@);
    let ghost all = api::blocks(content@);
    let ghost f = |b: BlockView| edit_done(tus, b);
    let mut out: Vec<String> = Vec::new();
    let mut j: usize = 0;
    assert(all.take(0).filter_map(f) =~= Seq::<Text>::empty()) by {
        assert(all.take(0) =~= Seq::<BlockView>::empty());
    }
    while j < content.len()
        invariant
            j <= content@.len(),
            tus == tool_exec::calls(tool_uses@),
            all == api::blocks(content@),
            f == (|b: BlockView| edit_done(tus, b)),
            text::texts(out@) == all.take(j as int).filter_map(f),
        decreases content@.len() - j,
    {
        proof {
            all.lemma_filter_map_take_succ(f, j as int);
        }
        let ghost was = text::texts(out@);
        assert(all[j as int] == content@[j as int]@);
        let mut done: Option<String> = None;
        if let ContentBlock::ToolResult { tool_use_id, content: result, is_error } = &content[j] {
            if *is_error != Some(true) && text::starts_with(result.as_str(), "Replaced")
                && calls_edit(tool_uses, tool_use_id.as_str()) {
                done = Some(text::copy(tool_use_id.as_str()));
            }
        }
        assert(text::opt_text(done) == f(all[j as int]));
        if let Some(id) = done {
            assert(was.push(id@) =~= was + seq![id@]);
            text::push_text(&mut out, id);
        } else {
            assert(was =~= was + Seq::<Text>::empty());
        }
        j = j + 1;
    }
    assert(all.take(j as int) =~= all);
    out
}

// ---------------------------------------------------------------------------
// The system prompt of a request
// ---------------------------------------------------------------------------

/// What a request's system prompt carries beside the session's own: what
/// pictures show, the files that were read, the sub-agents at work, what hooks
/// inject, what the memory finds relevant, and the memory itself with guidance
/// on its use. A part that is empty is left out.
pub struct PromptParts {
    pub vision: String,
    pub session_files: Option<String>,
    pub sub_agents: Option<String>,
    pub injected: Vec<String>,
    pub relevant_memory: String,
    pub memory_guidance: String,
    pub memory: String,
}

/// A part on a paragraph of its own.
pub open spec fn paragraph(part: Option<Text>) -> Text {
    match part {
        Some(p) => "\n\n"@ + p,
        None => Seq::empty(),
    }
}

/// Parts on paragraphs of their own.
pub open spec fn paragraphs(parts: Seq<Text>) -> Text
    decreases parts.len(),
{
    if parts.len() == 0 {
        Seq::empty()
    } else {
        paragraphs(parts.drop_last()) + paragraph(Some(parts.last()))
    }
}

/// The system prompt of a request.
pub open spec fn request_prompt(base: Text, parts: PromptParts) -> Text {
    base + parts.vision@ + paragraph(text::opt_text(parts.session_files)) + paragraph(
        text::opt_text(parts.sub_agents),
    ) + paragraphs(text::texts(parts.injected@)) + (if parts.relevant_memory@.len() > 0 {
        "\n\n## Relevant Memory\n\n"@ + parts.relevant_memory@
    } else {
        Seq::empty()
    }) + (if parts.memory@.len() > 0 {
        paragraph(Some(parts.memory_guidance@)) + paragraph(Some(parts.memory@))
    } else {
        Seq::empty()
    })
}

/// Put the system prompt of a request together.
pub fn build_request_prompt(base: &str, parts: &PromptParts) -> (r: String)
    ensures
        r@ == request_prompt(base@, *parts),
{
    let mut s = text::cat2(base, parts.vision.as_str());
    let ghost p0 = s@;
    if let Some(block) = &parts.session_files {
        s.append("\n\n");
        s.append(block.as_str());
    }
    let ghost p1 = p0 + paragraph(text::opt_text(parts.session_files));
    assert(s@ =~= p1);
    if let Some(block) = &parts.sub_agents {
        s.append("\n\n");
        s.append(block.as_str());
    }
    let ghost p2 = p1 + paragraph(text::opt_text(parts.sub_agents));
    assert(s@ =~= p2);
    let ghost all = text::texts(parts.injected@);
    let mut i: usize = 0;
    assert(p2 + paragraphs(all.take(0)) =~= p2);
    while i < parts.injected.len()
        invariant
            i <= parts.injected@.len(),
            all == text::texts(parts.injected@),
            s@ == p2 + paragraphs(all.take(i as int)),
        decreases parts.injected@.len() - i,
    {
        assert(all.take(i + 1).drop_last() =~= all.take(i as int));
        assert(all.take(i + 1).last() == all[i as int]);
        s.append("\n\n");
        s.append(parts.injected[i].as_str());
        assert(s@ =~= p2 + paragraphs(all.take(i + 1)));
        i = i + 1;
    }
    assert(all.take(i as int) =~= all);
    let ghost p3 = s@;
    if !parts.relevant_memory.as_str().is_empty() {
        s.append("\n\n## Relevant Memory\n\n");
        s.append(parts.relevant_memory.as_str());
    }
    let ghost p4 = p3 + (if parts.relevant_memory@.len() > 0 {
        "\n\n## Relevant Memory\n\n"@ + parts.relevant_memory@
    } else {
        Seq::empty()
    });
    assert(s@ =~= p4);
    if !parts.memory.as_str().is_empty() {
        s.append("\n\n");
        s.append(parts.memory_guidance.as_str());
        s.append("\n\n");
        s.append(parts.memory.as_str());
    }
    assert(s@ =~= request_prompt(base@, *parts));
    s
}

// ---------------------------------------------------------------------------
// Laws
// ---------------------------------------------------------------------------

/// Once its pictures are described a conversation has none, and nothing else of
/// it has changed in number or role.
pub proof fn law_described_images_are_gone(es: Seq<EntryView>)
    ensures
        images_of(without_images(es)).len() == 0,
        without_images(es).len() == es.len(),
        forall|i: int| 0 <= i < es.len() ==> (#[trigger] without_images(es)[i]).role == es[i].role,
    decreases es.len(),
{
    if es.len() > 0 {
        law_described_images_are_gone(es.drop_last());
        let out = without_images(es);
        assert(out.drop_last() =~= without_images(es.drop_last()));
        let left = others_in(es.last().content);
        let pred = |b: BlockView| !(b is Image);
        assert forall|j: int| 0 <= j < left.len() implies !((#[trigger] left[j]) is Image) by {
            es.last().content.lemma_filter_pred(pred, j);
        }
        lemma_no_images(left);
    }
}

proof fn lemma_no_images(content: Seq<BlockView>)
    requires
        forall|j: int| 0 <= j < content.len() ==> !((#[trigger] content[j]) is Image),
    ensures
        images_in(content).len() == 0,
    decreases content.len(),
{
    reveal(Seq::filter);
    if content.len() > 0 {
        let rest = content.drop_last();
        assert forall|j: int| 0 <= j < rest.len() implies !((#[trigger] rest[j]) is Image) by {
            assert(rest[j] == content[j]);
        }
        lemma_no_images(rest);
        assert(!(content[content.len() - 1] is Image));
    }
}

/// Recording calls keeps the limits of the working memory.
pub proof fn law_calls_keep_limits(c: CarryoverView, content: Seq<BlockView>, tus: Seq<CallView>)
    requires
        carryover::within_limits(c),
    ensures
        carryover::within_limits(after_calls(c, content, tus)),
    decreases tus.len(),
{
    if tus.len() > 0 {
        law_calls_keep_limits(c, content, tus.drop_last());
        let call = tus.last();
        let input = json_utils::tool_input_or_empty(call.input_json);
        if let Some((output, is_error)) = result_for(content, call.id) {
            carryover::law_record_keeps_limits(
                after_calls(c, content, tus.drop_last()),
                call.name,
                input,
                output,
                is_error,
                carryover::resolved_path(input),
            );
        }
    }
}

/// The system prompt of a request begins with that of the session and holds every part
/// that there is: what pictures show, the files that were read, the sub-agents at work,
/// all that hooks inject, and what the memory has to say.
pub proof fn law_request_prompt_holds_every_part(base: Text, parts: PromptParts)
    ensures
        text::has_prefix(request_prompt(base, parts), base),
        text::has_substring(request_prompt(base, parts), parts.vision@),
        parts.session_files matches Some(p) ==> text::has_substring(
            request_prompt(base, parts),
            p@,
        ),
        parts.sub_agents matches Some(p) ==> text::has_substring(request_prompt(base, parts), p@),
        forall|i: int|
            0 <= i < parts.injected@.len() ==> text::has_substring(
                request_prompt(base, parts),
                (#[trigger] parts.injected@[i])@,
            ),
        text::has_substring(request_prompt(base, parts), parts.relevant_memory@),
        text::has_substring(request_prompt(base, parts), parts.memory@),
        parts.memory@.len() > 0 ==> text::has_substring(
            request_prompt(base, parts),
            parts.memory_guidance@,
        ),
{
    let whole = request_prompt(base, parts);
    let none = Seq::<char>::empty();
    let p1 = base + parts.vision@;
    let files = paragraph(text::opt_text(parts.session_files));
    let p2 = p1 + files;
    let agents = paragraph(text::opt_text(parts.sub_agents));
    let p3 = p2 + agents;
    let injected = paragraphs(text::texts(parts.injected@));
    let p4 = p3 + injected;
    let relevant = if parts.relevant_memory@.len() > 0 {
        "\n\n## Relevant Memory\n\n"@ + parts.relevant_memory@
    } else {
        none
    };
    let p5 = p4 + relevant;
    let memory = if parts.memory@.len() > 0 {
        paragraph(Some(parts.memory_guidance@)) + paragraph(Some(parts.memory@))
    } else {
        none
    };
    assert(whole == p5 + memory);
    lemma_end_stands(whole, p5, memory, whole);
    lemma_end_stands(whole, p4, relevant, p5);
    lemma_end_stands(whole, p3, injected, p4);
    lemma_end_stands(whole, p2, agents, p3);
    lemma_end_stands(whole, p1, files, p2);
    lemma_end_stands(whole, base, parts.vision@, p1);
    assert(whole.len() >= p1.len() && whole.subrange(0, base.len() as int) =~= base) by {
        assert(p2.subrange(0, base.len() as int) =~= base);
        assert(p3.subrange(0, base.len() as int) =~= base);
        assert(p4.subrange(0, base.len() as int) =~= base);
        assert(p5.subrange(0, base.len() as int) =~= base);
    }
    if let Some(p) = parts.session_files {
        lemma_end_stands(whole, "\n\n"@, p@, files);
    }
    if let Some(p) = parts.sub_agents {
        lemma_end_stands(whole, "\n\n"@, p@, agents);
    }
    assert forall|i: int| 0 <= i < parts.injected@.len() implies text::has_substring(
        whole,
        (#[trigger] parts.injected@[i])@,
    ) by {
        lemma_paragraph_stands(text::texts(parts.injected@), i);
        text::lemma_stands_within(whole, injected, parts.injected@[i]@);
    }
    if parts.relevant_memory@.len() > 0 {
        lemma_end_stands(
            whole,
            "\n\n## Relevant Memory\n\n"@,
            parts.relevant_memory@,
            relevant,
        );
    } else {
        assert(parts.relevant_memory@ =~= relevant);
    }
    if parts.memory@.len() > 0 {
        let guidance = paragraph(Some(parts.memory_guidance@));
        let kept = paragraph(Some(parts.memory@));
        lemma_end_stands(whole, guidance, kept, memory);
        lemma_end_stands(whole, "\n\n"@, parts.memory_guidance@, guidance);
        lemma_end_stands(whole, "\n\n"@, parts.memory@, kept);
    } else {
        assert(parts.memory@ =~= memory);
    }
}

/// Where two texts put together stand in a whole, each of them does.
proof fn lemma_end_stands(whole: Text, a: Text, b: Text, both: Text)
    requires
        both == a + b,
        both == whole || text::has_substring(whole, both),
    ensures
        text::has_substring(whole, a),
        text::has_substring(whole, b),
{
    text::lemma_both_stand(a, b);
    if both != whole {
        text::lemma_stands_within(whole, both, a);
        text::lemma_stands_within(whole, both, b);
    }
}

proof fn lemma_part_stands(whole: Text, before: Text, part: Text, after: Text)
    requires
        whole =~= before + part + after,
    ensures
        text::has_substring(whole, part),
{
    text::lemma_stands_between(before, part, after);
    assert(whole == before + part + after);
}

proof fn lemma_paragraph_stands(parts: Seq<Text>, i: int)
    requires
        0 <= i < parts.len(),
    ensures
        text::has_substring(paragraphs(parts), parts[i]),
    decreases parts.len(),
{
    let none = Seq::<char>::empty();
    let front = paragraphs(parts.drop_last());
    if i == parts.len() - 1 {
        lemma_part_stands(paragraphs(parts), front + "\n\n"@, parts[i], none);
    } else {
        lemma_paragraph_stands(parts.drop_last(), i);
        lemma_part_stands(paragraphs(parts), none, front, paragraph(Some(parts.last())));
        text::lemma_stands_within(paragraphs(parts), front, parts[i]);
    }
}

/// A review reads what was said and done in the last ten entries: every text of at most
/// 2000 characters that is not blank, every result of at most 500, and the name of every
/// tool that was called.
pub proof fn law_review_reads_what_happened(es: Seq<EntryView>, i: int, j: int)
    requires
        0 <= i < es.len(),
        i >= es.len() - 10,
        0 <= j < es[i].content.len(),
    ensures
        match es[i].content[j] {
            ContentBlock::Text { text } => text.len() <= 2000 && !text::is_blank(text)
                ==> text::has_substring(conversation_summary(es), text),
            ContentBlock::ToolResult { content, .. } => content.len() <= 500
                ==> text::has_substring(conversation_summary(es), content),
            ContentBlock::ToolUse { name, .. } => text::has_substring(
                conversation_summary(es),
                name,
            ),
            ContentBlock::Image { .. } => true,
        },
{
    let recent = recent_entries(es);
    let k = i - (es.len() - recent.len());
    assert(recent[k] == es[i]);
    let role = es[i].role;
    let b = es[i].content[j];
    let none = Seq::<char>::empty();
    if let Some(line) = summary_line(role, b) {
        lemma_line_is_read(es[i], j);
        lemma_lines_are_read(recent, k, line);
        let lines = entries_lines(recent);
        let n = choose|n: int| 0 <= n < lines.len() && lines[n] == line;
        text::lemma_joined_has(lines, "\n"@, n);
        match b {
            ContentBlock::Text { text } => {
                if text.len() <= 2000 && !text::is_blank(text) {
                    let head = if role == Role::User {
                        "User: "@
                    } else {
                        "Assistant: "@
                    };
                    lemma_part_stands(line, head, text, none);
                    text::lemma_stands_within(conversation_summary(es), line, text);
                }
            },
            ContentBlock::ToolResult { content, is_error, .. } => {
                if content.len() <= 500 {
                    let head = if is_error == Some(true) {
                        "Tool error: "@
                    } else {
                        "Tool result: "@
                    };
                    lemma_part_stands(line, head, content, none);
                    text::lemma_stands_within(conversation_summary(es), line, content);
                }
            },
            ContentBlock::ToolUse { name, input, .. } => {
                lemma_part_stands(
                    line,
                    "Tool call: "@,
                    name,
                    " ("@ + text::first_chars(input.item.text, 500) + ")"@,
                );
                text::lemma_stands_within(conversation_summary(es), line, name);
            },
            ContentBlock::Image { .. } => {},
        }
    }
}

proof fn lemma_line_is_read(e: EntryView, j: int)
    requires
        0 <= j < e.content.len(),
        summary_line(e.role, e.content[j]) is Some,
    ensures
        entry_lines(e).contains(summary_line(e.role, e.content[j])->Some_0),
{
    let f = |b: BlockView| summary_line(e.role, b);
    lemma_filter_map_finds(e.content, f, j);
}

proof fn lemma_filter_map_finds(
    content: Seq<BlockView>,
    f: spec_fn(BlockView) -> Option<Text>,
    j: int,
)
    requires
        0 <= j < content.len(),
        f(content[j]) is Some,
    ensures
        content.filter_map(f).contains(f(content[j])->Some_0),
    decreases content.len(),
{
    let rest = content.drop_last();
    let x = f(content[j])->Some_0;
    let out = content.filter_map(f);
    if j == content.len() - 1 {
        assert(out == rest.filter_map(f) + seq![x]);
        assert(out[out.len() - 1] == x);
    } else {
        lemma_filter_map_finds(rest, f, j);
        let inner = rest.filter_map(f);
        let k = choose|k: int| 0 <= k < inner.len() && inner[k] == x;
        assert(out[k] == x);
    }
}

proof fn lemma_lines_are_read(es: Seq<EntryView>, k: int, line: Text)
    requires
        0 <= k < es.len(),
        entry_lines(es[k]).contains(line),
    ensures
        entries_lines(es).contains(line),
    decreases es.len(),
{
    let before = entries_lines(es.drop_last());
    let last = entry_lines(es.last());
    if k == es.len() - 1 {
        let n = choose|n: int| 0 <= n < last.len() && last[n] == line;
        assert((before + last)[before.len() + n] == line);
    } else {
        lemma_lines_are_read(es.drop_last(), k, line);
        let n = choose|n: int| 0 <= n < before.len() && before[n] == line;
        assert((before + last)[n] == line);
    }
}

/// The edits that are reported as done are those calls of `edit` whose result says that
/// something was replaced, and no others.
pub proof fn law_done_edits_are_edits_that_succeeded(
    tus: Seq<CallView>,
    content: Seq<BlockView>,
    k: int,
    j: int,
)
    requires
        0 <= k < tus.len(),
        0 <= j < content.len(),
        tus[k].name == "edit"@,
        content[j] matches ContentBlock::ToolResult { tool_use_id, content, is_error }
            && tool_use_id == tus[k].id && is_error != Some(true) && text::has_prefix(
            content,
            "Replaced"@,
        ),
    ensures
        edits_done(tus, content).contains(tus[k].id),
{
    let f = |b: BlockView| edit_done(tus, b);
    assert(is_edit_call(tus, tus[k].id));
    assert(f(content[j]) == Some(tus[k].id));
    lemma_filter_map_finds(content, f, j);
}

/// An external memory is told the assistant's words, or, where there are none, the name
/// of every tool that it called.
pub proof fn law_turn_is_summed_up(said: Text, tus: Seq<CallView>, k: int)
    requires
        0 <= k < tus.len(),
    ensures
        !text::is_blank(said) ==> turn_summary(said, tus) == said,
        text::is_blank(said) ==> text::has_substring(turn_summary(said, tus), tus[k].name),
{
    if text::is_blank(said) {
        let names = tus.map_values(|t: CallView| "["@ + t.name + "]"@);
        text::lemma_joined_has(names, ", "@, k);
        lemma_part_stands(names[k], "["@, tus[k].name, "]"@);
        text::lemma_stands_within(turn_summary(said, tus), names[k], tus[k].name);
    }
}

/// What a call came to is remembered by its own result: the one among the blocks that
/// answers it first; a call without a result leaves the memory as it was.
pub proof fn law_calls_are_remembered_by_their_results(
    c: CarryoverView,
    content: Seq<BlockView>,
    call: CallView,
    input: JsonView,
)
    ensures
        (forall|j: int|
            0 <= j < content.len() ==> !((#[trigger] content[j])
                matches ContentBlock::ToolResult { tool_use_id, .. } && tool_use_id == call.id))
            ==> after_one_call(c, content, call, input) == c,
        content.len() > 0 && (content[0] matches ContentBlock::ToolResult { tool_use_id, .. }
            && tool_use_id == call.id) && !carryover::is_read(call.name) ==> after_one_call(
            c,
            content,
            call,
            input,
        ) == carryover::recorded(
            c,
            call.name,
            input,
            content[0]->content,
            content[0]->is_error == Some(true),
            carryover::resolved_path(input),
        ),
{
    if forall|j: int|
        0 <= j < content.len() ==> !((#[trigger] content[j]) matches ContentBlock::ToolResult {
            tool_use_id,
            ..
        } && tool_use_id == call.id) {
        lemma_no_result(content, call.id);
    }
}

proof fn lemma_no_result(content: Seq<BlockView>, id: Text)
    requires
        forall|j: int|
            0 <= j < content.len() ==> !((#[trigger] content[j])
                matches ContentBlock::ToolResult { tool_use_id, .. } && tool_use_id == id),
    ensures
        result_for(content, id) is None,
    decreases content.len(),
{
    if content.len() > 0 {
        let rest = content.drop_first();
        assert forall|j: int| 0 <= j < rest.len() implies !((#[trigger] rest[j])
            matches ContentBlock::ToolResult { tool_use_id, .. } && tool_use_id == id) by {
            assert(rest[j] == content[j + 1]);
        }
        lemma_no_result(rest, id);
        assert(!(content[0] matches ContentBlock::ToolResult { tool_use_id, .. } && tool_use_id
            == id));
    }
}

/// What was seen in a picture is told whole, with where the picture came from, and so is
/// why it could not be looked at.
pub proof fn law_what_was_seen_is_told(image: BlockView, said: Text)
    ensures
        text::has_substring(image_note(image, Ok(said)), said),
        text::has_substring(image_note(image, Err(said)), said),
        image->source_path.len() > 0 ==> text::has_substring(
            image_note(image, Ok(said)),
            image->source_path,
        ) && text::has_substring(image_note(image, Err(said)), image->source_path),
{
    let path = image->source_path;
    let seen = "[Image Analysis — "@ + (if path.len() == 0 {
        "image (clipboard)"@
    } else {
        "image ("@ + path + ")"@
    });
    text::lemma_both_stand(seen + "]:\n"@, said);
    let missed = "[Image ("@ + (if path.len() == 0 {
        "clipboard"@
    } else {
        path
    });
    let note = missed + "): analysis failed — "@;
    text::lemma_stands_between(note, said, "]"@);
    if path.len() > 0 {
        text::lemma_stands_between("image ("@, path, ")"@);
        text::lemma_stands_on("image ("@ + path + ")"@, path, "[Image Analysis — "@);
        text::lemma_stands_on(seen, path, "]:\n"@);
        text::lemma_stands_on(seen + "]:\n"@, path, said);
        text::lemma_both_stand("[Image ("@, path);
        text::lemma_stands_on(missed, path, "): analysis failed — "@);
        text::lemma_stands_on(note, path, said);
        text::lemma_stands_on(note + said, path, "]"@);
    }
}

} // verus!
