//! Saved sessions: their summaries, the index of them, and how they are listed.

use crate::api;
use crate::api::BlockView;
use crate::api::ContentBlock;
use crate::api::Role;
use crate::engine::compact;
use crate::engine::messages;
use crate::engine::messages::ConversationEntry;
use crate::engine::messages::EntryView;
use crate::engine::sub_agent;
use crate::text;
use crate::text::Text;
use vstd::prelude::*;
use vstd::string::*;

verus! {

// ---------------------------------------------------------------------------
// Identifiers
// ---------------------------------------------------------------------------

/// The identifier of a session: the microseconds since the epoch, and the
/// process that it runs in.
pub open spec fn session_id(micros: u128, pid: u32) -> Text {
    text::decimal(micros as nat) + "-"@ + text::decimal(pid as nat)
}

/// Make the identifier of a session.
pub fn generate_session_id(micros: u128, pid: u32) -> (r: String)
    ensures
        r@ == session_id(micros, pid),
{
    let a = text::big_number(micros);
    let b = text::number(pid as u64);
    text::cat3(a.as_str(), "-", b.as_str())
}

/// Sessions that start at different microseconds, or in different processes,
/// have different identifiers.
pub proof fn law_session_ids_are_unique(m1: u128, p1: u32, m2: u128, p2: u32)
    requires
        m1 != m2 || p1 != p2,
    ensures
        session_id(m1, p1) != session_id(m2, p2),
{
    reveal_strlit("-");
    let a1 = text::decimal(m1 as nat);
    let a2 = text::decimal(m2 as nat);
    let b1 = text::decimal(p1 as nat);
    let b2 = text::decimal(p2 as nat);
    text::lemma_decimal_digits(m1 as nat);
    text::lemma_decimal_digits(m2 as nat);
    let s1 = session_id(m1, p1);
    let s2 = session_id(m2, p2);
    if s1 == s2 {
        assert(s1[a1.len() as int] == '-');
        assert(s2[a2.len() as int] == '-');
        if a1.len() < a2.len() {
            assert(s2[a1.len() as int] == a2[a1.len() as int]);
        } else if a2.len() < a1.len() {
            assert(s1[a2.len() as int] == a1[a2.len() as int]);
        }
        assert(s1.take(a1.len() as int) =~= a1);
        assert(s2.take(a2.len() as int) =~= a2);
        assert(s1.skip((a1.len() + 1) as int) =~= b1);
        assert(s2.skip((a2.len() + 1) as int) =~= b2);
        text::lemma_decimal_injective(m1 as nat, m2 as nat);
        text::lemma_decimal_injective(p1 as nat, p2 as nat);
    }
}

// ---------------------------------------------------------------------------
// Sessions
// ---------------------------------------------------------------------------

/// A session as it is saved.
pub struct SessionData {
    pub id: String,
    pub saved_at: String,
    pub model: String,
    pub provider: String,
    pub cwd: String,
    pub entries: Vec<ConversationEntry>,
    pub total_tokens: u64,
    pub summary: String,
    /// The last thing that the assistant said.
    pub final_response: String,
    pub title: String,
    /// The identity that the session ran under.
    pub identity: Option<String>,
}

/// What a `SessionData` holds.
#[verifier::ext_equal]
pub struct SessionView {
    pub id: Text,
    pub saved_at: Text,
    pub model: Text,
    pub provider: Text,
    pub cwd: Text,
    pub entries: Seq<EntryView>,
    pub total_tokens: u64,
    pub summary: Text,
    pub final_response: Text,
    pub title: Text,
    pub identity: Option<Text>,
}

impl View for SessionData {
    type V = SessionView;

    open spec fn view(&self) -> SessionView {
        SessionView {
            id: self.id@,
            saved_at: self.saved_at@,
            model: self.model@,
            provider: self.provider@,
            cwd: self.cwd@,
            entries: messages::entries_view(self.entries@),
            total_tokens: self.total_tokens,
            summary: self.summary@,
            final_response: self.final_response@,
            title: self.title@,
            identity: text::opt_text(self.identity),
        }
    }
}

/// What a list of sessions holds.
pub open spec fn sessions_view(v: Seq<SessionData>) -> Seq<SessionView> {
    Seq::new(v.len(), |i: int| v[i]@)
}

/// A session as it is listed.
pub struct SessionIndexEntry {
    pub id: String,
    pub saved_at: String,
    pub model: String,
    pub provider: String,
    pub total_tokens: u64,
    pub one_liner: String,
    pub entry_count: usize,
    pub title: String,
    pub identity: Option<String>,
}

/// What a `SessionIndexEntry` holds.
#[verifier::ext_equal]
pub struct IndexView {
    pub id: Text,
    pub saved_at: Text,
    pub model: Text,
    pub provider: Text,
    pub total_tokens: u64,
    pub one_liner: Text,
    pub entry_count: usize,
    pub title: Text,
    pub identity: Option<Text>,
}

impl View for SessionIndexEntry {
    type V = IndexView;

    open spec fn view(&self) -> IndexView {
        IndexView {
            id: self.id@,
            saved_at: self.saved_at@,
            model: self.model@,
            provider: self.provider@,
            total_tokens: self.total_tokens,
            one_liner: self.one_liner@,
            entry_count: self.entry_count,
            title: self.title@,
            identity: text::opt_text(self.identity),
        }
    }
}

/// What an index holds.
pub open spec fn index_view(v: Seq<SessionIndexEntry>) -> Seq<IndexView> {
    Seq::new(v.len(), |i: int| v[i]@)
}

impl SessionIndexEntry {
    /// A copy of the entry.
    pub fn copy(&self) -> (r: SessionIndexEntry)
        ensures
            r@ == self@,
    {
        SessionIndexEntry {
            id: text::copy(self.id.as_str()),
            saved_at: text::copy(self.saved_at.as_str()),
            model: text::copy(self.model.as_str()),
            provider: text::copy(self.provider.as_str()),
            total_tokens: self.total_tokens,
            one_liner: text::copy(self.one_liner.as_str()),
            entry_count: self.entry_count,
            title: text::copy(self.title.as_str()),
            identity: text::copy_opt(&self.identity),
        }
    }
}

// ---------------------------------------------------------------------------
// What was said
// ---------------------------------------------------------------------------

/// Whether one of the blocks is a text.
pub open spec fn holds_text(content: Seq<BlockView>) -> bool {
    exists|j: int| 0 <= j < content.len() && (#[trigger] content[j]) is Text
}

/// Whether an entry is a message of the user, not results of tools.
pub open spec fn is_user_message(e: EntryView) -> bool {
    e.role == Role::User && holds_text(e.content) && !messages::holds_result(e.content)
}

/// How many messages of the user there are.
pub open spec fn user_messages(es: Seq<EntryView>) -> nat {
    es.filter(|e: EntryView| is_user_message(e)).len()
}

fn has_text_block(content: &Vec<ContentBlock>) -> (r: bool)
    ensures
        r == holds_text(api::blocks(content@)),
{
    let ghost all = api::blocks(content@);
    let mut i: usize = 0;
    while i < content.len()
        invariant
            i <= content@.len(),
            all == api::blocks(content@),
            forall|j: int| 0 <= j < i ==> !((#[trigger] all[j]) is Text),
        decreases content@.len() - i,
    {
        let is_text = match &content[i] {
            ContentBlock::Text { .. } => true,
            _ => false,
        };
        assert(is_text == (all[i as int] is Text));
        if is_text {
            return true;
        }
        i = i + 1;
    }
    false
}

/// Whether an entry is a message of the user, not results of tools.
pub fn user_message(e: &ConversationEntry) -> (r: bool)
    ensures
        r == is_user_message(e@),
{
    e.role == Role::User && has_text_block(&e.content) && !messages::has_result_block(&e.content)
}

/// Count the messages of the user.
pub fn count_user_messages(entries: &Vec<ConversationEntry>) -> (r: usize)
    ensures
        r == user_messages(messages::entries_view(entries@)),
        r <= entries@.len(),
{
    let ghost es = messages::entries_view(entries@);
    let ghost pred = |e: EntryView| is_user_message(e);
    let mut n: usize = 0;
    let mut i: usize = 0;
    assert(es.take(0).filter(pred).len() == 0) by {
        assert(es.take(0) =~= Seq::<EntryView>::empty());
        reveal(Seq::filter);
    }
    while i < entries.len()
        invariant
            i <= entries@.len(),
            n <= i,
            es == messages::entries_view(entries@),
            pred == (|e: EntryView| is_user_message(e)),
            n == es.take(i as int).filter(pred).len(),
        decreases entries@.len() - i,
    {
        proof {
            assert(es.take(i + 1) =~= es.take(i as int).push(es[i as int]));
            es.take(i as int).lemma_filter_len_push(pred, es[i as int]);
        }
        if user_message(&entries[i]) {
            n = n + 1;
        }
        i = i + 1;
    }
    assert(es.take(i as int) =~= es);
    n
}

/// The last thing that the assistant said.
pub fn extract_final_response(entries: &Vec<ConversationEntry>) -> (r: Option<String>)
    ensures
        text::opt_text(r) == sub_agent::last_said(messages::entries_view(entries@)),
{
    let ghost es = messages::entries_view(entries@);
    let mut k: usize = entries.len();
    assert(es.take(k as int) =~= es);
    while k > 0
        invariant
            k <= entries@.len(),
            es == messages::entries_view(entries@),
            sub_agent::last_said(es) == sub_agent::last_said(es.take(k as int)),
        decreases k,
    {
        assert(es.take(k as int).last() == entries@[k - 1]@);
        assert(es.take(k as int).drop_last() =~= es.take(k - 1));
        if entries[k - 1].role == Role::Assistant {
            if let Some(s) = sub_agent::find_saying(&entries[k - 1].content) {
                return Some(s);
            }
        }
        k = k - 1;
    }
    None
}

// ---------------------------------------------------------------------------
// Summaries
// ---------------------------------------------------------------------------

/// How many blocks are calls of tools.
pub open spec fn calls_in(content: Seq<BlockView>) -> nat {
    content.filter(|b: BlockView| b is ToolUse).len()
}

/// How many blocks are results of tools.
pub open spec fn results_in(content: Seq<BlockView>) -> nat {
    content.filter(|b: BlockView| b is ToolResult).len()
}

/// Bytes of the texts among blocks.
pub open spec fn text_bytes(content: Seq<BlockView>) -> nat
    decreases content.len(),
{
    if content.len() == 0 {
        0
    } else {
        text_bytes(content.drop_last()) + (match content.last() {
            ContentBlock::Text { text } => text::byte_len(text),
            _ => 0,
        })
    }
}

/// What a session has in it.
#[verifier::ext_equal]
pub struct Stats {
    pub tool_calls: nat,
    pub tool_results: nat,
    pub assistant_bytes: nat,
}

/// What a session has in it: calls and text of the assistant, results that the
/// user carried.
pub open spec fn stats_of(es: Seq<EntryView>) -> Stats
    decreases es.len(),
{
    if es.len() == 0 {
        Stats { tool_calls: 0, tool_results: 0, assistant_bytes: 0 }
    } else {
        let before = stats_of(es.drop_last());
        let e = es.last();
        match e.role {
            Role::User => Stats {
                tool_results: before.tool_results + results_in(e.content),
                ..before
            },
            Role::Assistant => Stats {
                tool_calls: before.tool_calls + calls_in(e.content),
                assistant_bytes: before.assistant_bytes + text_bytes(e.content),
                ..before
            },
        }
    }
}

/// Bytes as kilobytes with one decimal, rounded to the nearest, ties to even.
pub open spec fn kilobytes(bytes: nat) -> Text {
    let q = bytes * 5 / 512;
    let r = bytes * 5 % 512;
    let tenths = if r > 256 || (r == 256 && q % 2 == 1) {
        q + 1
    } else {
        q
    };
    text::decimal(tenths / 10) + "."@ + text::decimal(tenths % 10)
}

/// The line of numbers that a summary begins with.
pub open spec fn stats_line(es: Seq<EntryView>) -> Text {
    let s = stats_of(es);
    text::decimal(es.len()) + " entries | "@ + text::decimal(user_messages(es))
        + " user messages | "@ + text::decimal(s.tool_calls) + " tool calls | "@ + text::decimal(
        s.tool_results,
    ) + " tool results | ~"@ + kilobytes(compact::at_most_max(s.assistant_bytes))
        + " KB AI text"@
}

/// The characters that are kept of the last thing that the assistant said.
pub const MAX_RESPONSE_CHARS: usize = 2000;

/// What is shown of a message.
pub open spec fn message_preview(e: EntryView) -> Option<Text> {
    match sub_agent::first_saying(e.content) {
        Some(clean) => if text::byte_len(clean) > 120 {
            Some(text::first_chars(clean, 120) + "…"@)
        } else {
            Some(text::first_chars(clean, 120))
        },
        None => None,
    }
}

/// The last three messages of the user.
pub open spec fn last_messages(es: Seq<EntryView>) -> Seq<EntryView> {
    let all = es.filter(|e: EntryView| is_user_message(e));
    if all.len() > 3 {
        all.skip(all.len() - 3)
    } else {
        all
    }
}

/// What is shown of the last messages of the user, oldest first.
pub open spec fn recent_messages(es: Seq<EntryView>) -> Seq<Text> {
    last_messages(es).filter_map(|e: EntryView| message_preview(e))
}

/// What is shown of the last thing that the assistant said: up to so many characters.
pub open spec fn response_preview(s: Text) -> Text {
    if s.len() > MAX_RESPONSE_CHARS {
        s.take(MAX_RESPONSE_CHARS as int) + "…\n[truncated — "@ + text::decimal(s.len())
            + " total chars]"@
    } else {
        s
    }
}

/// The parts of a summary.
pub open spec fn summary_parts(es: Seq<EntryView>) -> Seq<Text> {
    let recent = recent_messages(es);
    seq![stats_line(es)] + (if recent.len() > 0 {
        seq!["Recent messages:\n"@ + text::joined(recent, "\n"@)]
    } else {
        Seq::empty()
    }) + (match sub_agent::last_said(es) {
        Some(s) => seq!["Last AI response:\n"@ + response_preview(s)],
        None => Seq::empty(),
    })
}

/// The summary of a session.
pub open spec fn summary_of(es: Seq<EntryView>) -> Text {
    if es.len() == 0 {
        "Empty session — no messages."@
    } else {
        text::joined(summary_parts(es), "\n\n"@)
    }
}

/// A count that stops at the largest that fits.
spec fn stopped(n: nat) -> nat {
    compact::at_most_max(n)
}

fn count_blocks(content: &Vec<ContentBlock>, calls: bool) -> (r: usize)
    ensures
        r == if calls {
            calls_in(api::blocks(content@))
        } else {
            results_in(api::blocks(content@))
        },
{
    let ghost all = api::blocks(content@);
    let ghost is_call = |b: BlockView| b is ToolUse;
    let ghost is_result = |b: BlockView| b is ToolResult;
    let mut n: usize = 0;
    let mut i: usize = 0;
    assert(all.take(0).filter(is_call).len() == 0 && all.take(0).filter(is_result).len() == 0) by {
        assert(all.take(0) =~= Seq::<BlockView>::empty());
        reveal(Seq::filter);
    }
    while i < content.len()
        invariant
            i <= content@.len(),
            n <= i,
            all == api::blocks(content@),
            is_call == (|b: BlockView| b is ToolUse),
            is_result == (|b: BlockView| b is ToolResult),
            n == if calls {
                all.take(i as int).filter(is_call).len()
            } else {
                all.take(i as int).filter(is_result).len()
            },
        decreases content@.len() - i,
    {
        proof {
            assert(all.take(i + 1) =~= all.take(i as int).push(all[i as int]));
            all.take(i as int).lemma_filter_len_push(is_call, all[i as int]);
            all.take(i as int).lemma_filter_len_push(is_result, all[i as int]);
        }
        let hit = match &content[i] {
            ContentBlock::ToolUse { .. } => calls,
            ContentBlock::ToolResult { .. } => !calls,
            _ => false,
        };
        if hit {
            n = n + 1;
        }
        i = i + 1;
    }
    assert(all.take(i as int) =~= all);
    n
}

fn add_text_bytes(content: &Vec<ContentBlock>, start: usize, so_far: Ghost<nat>) -> (r: usize)
    requires
        start == stopped(so_far@),
    ensures
        r == stopped(so_far@ + text_bytes(api::blocks(content@))),
{
    let ghost all = api::blocks(content@);
    let mut sum: usize = start;
    let mut i: usize = 0;
    assert(text_bytes(all.take(0)) == 0);
    while i < content.len()
        invariant
            i <= content@.len(),
            all == api::blocks(content@),
            sum == stopped(so_far@ + text_bytes(all.take(i as int))),
        decreases content@.len() - i,
    {
        assert(all.take(i + 1).drop_last() =~= all.take(i as int));
        assert(all.take(i + 1).last() == content@[i as int]@);
        if let ContentBlock::Text { text } = &content[i] {
            sum = sum.saturating_add(text::str_bytes(text.as_str()));
        }
        i = i + 1;
    }
    assert(all.take(i as int) =~= all);
    sum
}

fn show_kilobytes(bytes: usize) -> (r: String)
    ensures
        r@ == kilobytes(bytes as nat),
{
    let five: u128 = bytes as u128 * 5;
    let q: u128 = five / 512;
    let rest: u128 = five % 512;
    let tenths: u128 = if rest > 256 || (rest == 256 && q % 2 == 1) {
        q + 1
    } else {
        q
    };
    let a = text::big_number(tenths / 10);
    let b = text::big_number(tenths % 10);
    text::cat3(a.as_str(), ".", b.as_str())
}

fn show_stats(entries: &Vec<ConversationEntry>) -> (r: String)
    ensures
        r@ == stats_line(messages::entries_view(entries@)),
{
    let ghost es = messages::entries_view(entries@);
    let mut calls: u128 = 0;
    let mut results: u128 = 0;
    let mut bytes: usize = 0;
    let mut i: usize = 0;
    while i < entries.len()
        invariant
            i <= entries@.len(),
            es == messages::entries_view(entries@),
            calls == stats_of(es.take(i as int)).tool_calls,
            results == stats_of(es.take(i as int)).tool_results,
            calls <= i * (usize::MAX as u128),
            results <= i * (usize::MAX as u128),
            bytes == stopped(stats_of(es.take(i as int)).assistant_bytes),
        decreases entries@.len() - i,
    {
        proof {
            assert(es.take(i + 1).drop_last() =~= es.take(i as int));
            assert(es.take(i + 1).last() == entries@[i as int]@);
            assert((i + 1) * (usize::MAX as int) == i * (usize::MAX as int) + usize::MAX)
                by (nonlinear_arith);
            assert(i * (usize::MAX as int) <= 0xffff_ffff_ffff_ffff * 0xffff_ffff_ffff_ffff)
                by (nonlinear_arith)
                requires
                    0 <= i <= 0xffff_ffff_ffff_ffff,
                    0 <= usize::MAX <= 0xffff_ffff_ffff_ffff,
            ;
        }
        let e = &entries[i];
        match e.role {
            Role::User => {
                results = results + count_blocks(&e.content, false) as u128;
            },
            Role::Assistant => {
                calls = calls + count_blocks(&e.content, true) as u128;
                bytes =
                add_text_bytes(
                    &e.content,
                    bytes,
                    Ghost(stats_of(es.take(i as int)).assistant_bytes),
                );
            },
        }
        i = i + 1;
    }
    assert(es.take(i as int) =~= es);
    let n = text::count(entries.len());
    let u = text::count(count_user_messages(entries));
    let c = text::big_number(calls);
    let t = text::big_number(results);
    let kb = show_kilobytes(bytes);
    let head = text::cat5(
        n.as_str(),
        " entries | ",
        u.as_str(),
        " user messages | ",
        c.as_str(),
    );
    text::cat6(
        head.as_str(),
        " tool calls | ",
        t.as_str(),
        " tool results | ~",
        kb.as_str(),
        " KB AI text",
    )
}

fn show_message(e: &ConversationEntry) -> (r: Option<String>)
    ensures
        text::opt_text(r) == message_preview(e@),
{
    match sub_agent::find_saying(&e.content) {
        Some(clean) => {
            let preview = text::take_chars(clean.as_str(), 120);
            if text::str_bytes(clean.as_str()) > 120 {
                Some(text::cat2(preview.as_str(), "…"))
            } else {
                Some(preview)
            }
        },
        None => None,
    }
}

/// The positions of the messages of the user.
fn message_positions(entries: &Vec<ConversationEntry>) -> (r: Vec<usize>)
    ensures
        forall|k: int| 0 <= k < r@.len() ==> (#[trigger] r@[k]) < entries@.len(),
        Seq::new(r@.len(), |k: int| entries@[r@[k] as int]@) == messages::entries_view(
            entries@,
        ).filter(|e: EntryView| is_user_message(e)),
{
    let ghost es = messages::entries_view(entries@);
    let ghost pred = |e: EntryView| is_user_message(e);
    let mut out: Vec<usize> = Vec::new();
    let mut i: usize = 0;
    assert(es.take(0).filter(pred) =~= Seq::<EntryView>::empty()) by {
        assert(es.take(0) =~= Seq::<EntryView>::empty());
        reveal(Seq::filter);
    }
    while i < entries.len()
        invariant
            i <= entries@.len(),
            es == messages::entries_view(entries@),
            pred == (|e: EntryView| is_user_message(e)),
            forall|k: int| 0 <= k < out@.len() ==> (#[trigger] out@[k]) < i,
            Seq::new(out@.len(), |k: int| entries@[out@[k] as int]@) == es.take(i as int).filter(
                pred,
            ),
        decreases entries@.len() - i,
    {
        proof {
            assert(es.take(i + 1) =~= es.take(i as int).push(es[i as int]));
            es.take(i as int).lemma_filter_push(es[i as int], pred);
        }
        let ghost was = Seq::new(out@.len(), |k: int| entries@[out@[k] as int]@);
        if user_message(&entries[i]) {
            out.push(i);
            assert(Seq::new(out@.len(), |k: int| entries@[out@[k] as int]@) =~= was.push(
                es[i as int],
            ));
        }
        i = i + 1;
    }
    assert(es.take(i as int) =~= es);
    out
}

fn show_recent(entries: &Vec<ConversationEntry>) -> (r: Vec<String>)
    ensures
        text::texts(r@) == recent_messages(messages::entries_view(entries@)),
{
    let ghost es = messages::entries_view(entries@);
    let at = message_positions(entries);
    let ghost all = es.filter(|e: EntryView| is_user_message(e));
    assert(all.len() == at@.len());
    let start: usize = if at.len() > 3 {
        at.len() - 3
    } else {
        0
    };
    let ghost last = last_messages(es);
    assert(last =~= all.skip(start as int));
    let ghost f = |e: EntryView| message_preview(e);
    let mut out: Vec<String> = Vec::new();
    let mut i: usize = start;
    assert(last.take(0).filter_map(f) =~= Seq::<Text>::empty()) by {
        assert(last.take(0) =~= Seq::<EntryView>::empty());
    }
    while i < at.len()
        invariant
            start <= i <= at@.len(),
            all.len() == at@.len(),
            all == Seq::new(at@.len(), |k: int| entries@[at@[k] as int]@),
            forall|k: int| 0 <= k < at@.len() ==> (#[trigger] at@[k]) < entries@.len(),
            last == all.skip(start as int),
            f == (|e: EntryView| message_preview(e)),
            text::texts(out@) == last.take(i - start).filter_map(f),
        decreases at@.len() - i,
    {
        proof {
            last.lemma_filter_map_take_succ(f, i - start);
        }
        let ghost was = text::texts(out@);
        assert(last[i - start] == entries@[at@[i as int] as int]@);
        if let Some(s) = show_message(&entries[at[i]]) {
            assert(f(last[i - start]) == Some(s@));
            assert(was.push(s@) =~= was + seq![s@]);
            text::push_text(&mut out, s);
        } else {
            assert(was =~= was + Seq::<Text>::empty());
        }
        i = i + 1;
    }
    assert(last.take(i - start) =~= last);
    out
}

/// Summarise a session: its numbers, the last messages of the user, and the last
/// thing that the assistant said.
pub fn build_summary(entries: &Vec<ConversationEntry>) -> (r: String)
    ensures
        r@ == summary_of(messages::entries_view(entries@)),
{
    let ghost es = messages::entries_view(entries@);
    if entries.len() == 0 {
        return text::copy("Empty session — no messages.");
    }
    let mut parts: Vec<String> = Vec::new();
    text::push_text(&mut parts, show_stats(entries));
    let recent = show_recent(entries);
    assert(text::texts(recent@).len() == recent@.len());
    if recent.len() > 0 {
        let list = text::join(&recent, "\n");
        text::push_text(&mut parts, text::cat2("Recent messages:\n", list.as_str()));
    }
    if let Some(s) = extract_final_response(entries) {
        let n: usize = s.as_str().unicode_len();
        let shown = if n > MAX_RESPONSE_CHARS {
            let head = text::take_chars(s.as_str(), MAX_RESPONSE_CHARS);
            let count = text::count(n);
            text::cat4(head.as_str(), "…\n[truncated — ", count.as_str(), " total chars]")
        } else {
            s
        };
        text::push_text(&mut parts, text::cat2("Last AI response:\n", shown.as_str()));
    }
    assert(text::texts(parts@) =~= summary_parts(es));
    text::join(&parts, "\n\n")
}

// ---------------------------------------------------------------------------
// One line for a session
// ---------------------------------------------------------------------------

/// The first text among blocks.
pub open spec fn first_text(content: Seq<BlockView>) -> Option<Text>
    decreases content.len(),
{
    if content.len() == 0 {
        None
    } else {
        match content[0] {
            ContentBlock::Text { text } => Some(text),
            _ => first_text(content.drop_first()),
        }
    }
}

/// A message on one line, shortened.
pub open spec fn topic_line(s: Text) -> Text {
    let clean = text::replaced(text::trimmed(s), "\n"@, " "@);
    if text::byte_len(clean) > 80 {
        text::first_chars(clean, 80) + "…"@
    } else {
        text::first_chars(clean, 80)
    }
}

/// What the last message of the user is about.
pub open spec fn topic_of(es: Seq<EntryView>) -> Text
    decreases es.len(),
{
    if es.len() == 0 {
        "(no user messages)"@
    } else if is_user_message(es.last()) {
        match first_text(es.last().content) {
            Some(s) => topic_line(s),
            None => "(no user messages)"@,
        }
    } else {
        topic_of(es.drop_last())
    }
}

/// The line of a session in the index.
pub open spec fn index_line(d: SessionView) -> Text {
    let n = text::decimal(user_messages(d.entries));
    if d.title.len() > 0 {
        n + " msgs, "@ + d.model + " — "@ + d.title
    } else {
        n + " msgs, "@ + d.model + " model — "@ + topic_of(d.entries)
    }
}

/// The first text among blocks.
pub fn find_text(content: &Vec<ContentBlock>) -> (r: Option<String>)
    ensures
        text::opt_text(r) == first_text(api::blocks(content@)),
{
    let ghost all = api::blocks(content@);
    let mut i: usize = 0;
    assert(all.skip(0) =~= all);
    while i < content.len()
        invariant
            i <= content@.len(),
            all == api::blocks(content@),
            first_text(all) == first_text(all.skip(i as int)),
        decreases content@.len() - i,
    {
        assert(all.skip(i as int)[0] == content@[i as int]@);
        assert(all.skip(i as int).drop_first() =~= all.skip(i + 1));
        if let ContentBlock::Text { text } = &content[i] {
            return Some(text::copy(text.as_str()));
        }
        i = i + 1;
    }
    None
}

fn show_topic(entries: &Vec<ConversationEntry>) -> (r: String)
    ensures
        r@ == topic_of(messages::entries_view(entries@)),
{
    let ghost es = messages::entries_view(entries@);
    let mut k: usize = entries.len();
    assert(es.take(k as int) =~= es);
    while k > 0
        invariant
            k <= entries@.len(),
            es == messages::entries_view(entries@),
            topic_of(es) == topic_of(es.take(k as int)),
        decreases k,
    {
        assert(es.take(k as int).last() == entries@[k - 1]@);
        assert(es.take(k as int).drop_last() =~= es.take(k - 1));
        if user_message(&entries[k - 1]) {
            return match find_text(&entries[k - 1].content) {
                Some(s) => {
                    let t = text::trim(s.as_str());
                    proof {
                        reveal_strlit("\n");
                    }
                    let clean = text::replace(t.as_str(), "\n", " ");
                    let preview = text::take_chars(clean.as_str(), 80);
                    if text::str_bytes(clean.as_str()) > 80 {
                        text::cat2(preview.as_str(), "…")
                    } else {
                        preview
                    }
                },
                None => text::copy("(no user messages)"),
            };
        }
        k = k - 1;
    }
    text::copy("(no user messages)")
}

/// The line of a session in the index: its title, or what the last message of
/// the user is about.
pub fn build_index_liner(data: &SessionData) -> (r: String)
    ensures
        r@ == index_line(data@),
{
    let n = text::count(count_user_messages(&data.entries));
    if !data.title.as_str().is_empty() {
        text::cat5(n.as_str(), " msgs, ", data.model.as_str(), " — ", data.title.as_str())
    } else {
        let topic = show_topic(&data.entries);
        text::cat5(n.as_str(), " msgs, ", data.model.as_str(), " model — ", topic.as_str())
    }
}

/// A time without what follows its seconds.
pub open spec fn short_time(saved_at: Text) -> Text {
    let n = if text::byte_len(saved_at) < 19 {
        text::byte_len(saved_at) as int
    } else {
        19
    };
    text::replaced(text::byte_prefix(saved_at, n), "T"@, " "@)
}

/// The line that a restored session is announced with.
pub open spec fn restore_line(d: SessionView) -> Text {
    "Session from "@ + short_time(d.saved_at) + " — "@ + text::decimal(d.entries.len())
        + " entries, "@ + text::decimal(user_messages(d.entries)) + " user messages, "@ + d.model
        + " model, ~"@ + text::decimal(d.total_tokens as nat) + " tokens"@
}

/// The line that a restored session is announced with.
pub fn build_one_liner(data: &SessionData) -> (r: String)
    ensures
        r@ == restore_line(data@),
{
    let bytes: usize = text::str_bytes(data.saved_at.as_str());
    let n: usize = if bytes < 19 {
        bytes
    } else {
        19
    };
    let head = text::take_bytes(data.saved_at.as_str(), n);
    proof {
        reveal_strlit("T");
    }
    let date = text::replace(head.as_str(), "T", " ");
    let entries = text::count(data.entries.len());
    assert(data@.entries.len() == data.entries@.len());
    let messages = text::count(count_user_messages(&data.entries));
    let tokens = text::number(data.total_tokens);
    let first = text::cat5(
        "Session from ",
        date.as_str(),
        " — ",
        entries.as_str(),
        " entries, ",
    );
    text::cat7(
        first.as_str(),
        messages.as_str(),
        " user messages, ",
        data.model.as_str(),
        " model, ~",
        tokens.as_str(),
        " tokens",
    )
}

/// The summary of a session tells what the assistant said last, whole where it is at most
/// 2000 characters and else its start; and it counts all entries.
pub proof fn law_summary_tells_what_was_said(es: Seq<EntryView>)
    requires
        es.len() > 0,
    ensures
        text::has_prefix(summary_parts(es)[0], text::decimal(es.len())),
        text::has_substring(summary_of(es), summary_parts(es)[0]),
        sub_agent::last_said(es) matches Some(s) ==> {
            &&& s.len() <= 2000 ==> text::has_substring(summary_of(es), s)
            &&& s.len() > 2000 ==> text::has_substring(summary_of(es), s.take(2000))
        },
        forall|i: int|
            0 <= i < recent_messages(es).len() ==> text::has_substring(
                summary_of(es),
                #[trigger] recent_messages(es)[i],
            ),
{
    lemma_summary_starts(es);
    if let Some(s) = sub_agent::last_said(es) {
        lemma_summary_holds_response(es, s);
        if s.len() <= 2000 {
            assert(response_preview(s) == s);
        } else {
            lemma_preview_starts(s);
            text::lemma_stands_within(summary_of(es), response_preview(s), s.take(2000));
        }
    }
    assert forall|i: int| 0 <= i < recent_messages(es).len() implies text::has_substring(
        summary_of(es),
        #[trigger] recent_messages(es)[i],
    ) by {
        lemma_summary_holds_recent(es, i);
    }
}

proof fn lemma_summary_starts(es: Seq<EntryView>)
    requires
        es.len() > 0,
    ensures
        text::has_prefix(summary_parts(es)[0], text::decimal(es.len())),
        text::has_substring(summary_of(es), summary_parts(es)[0]),
{
    text::lemma_joined_has(summary_parts(es), "\n\n"@, 0);
    let first = stats_line(es);
    let n = text::decimal(es.len());
    assert(summary_parts(es)[0] == first);
    assert(first.subrange(0, n.len() as int) =~= n);
}

proof fn lemma_start_stands(a: Text, b: Text, c: Text, d: Text)
    ensures
        text::has_substring(a + b + c + d, a),
{
    text::lemma_both_stand(a, b);
    text::lemma_both_stand(a + b, c);
    text::lemma_both_stand(a + b + c, d);
    text::lemma_stands_within(a + b + c, a + b, a);
    text::lemma_stands_within(a + b + c + d, a + b + c, a);
}

proof fn lemma_preview_starts(s: Text)
    requires
        s.len() > 2000,
    ensures
        text::has_substring(response_preview(s), s.take(2000)),
{
    lemma_start_stands(
        s.take(2000),
        "…\n[truncated — "@,
        text::decimal(s.len()),
        " total chars]"@,
    );
}

proof fn lemma_summary_holds_response(es: Seq<EntryView>, s: Text)
    requires
        es.len() > 0,
        sub_agent::last_said(es) == Some(s),
    ensures
        text::has_substring(summary_of(es), response_preview(s)),
{
    let parts = summary_parts(es);
    let at = parts.len() - 1;
    let head = "Last AI response:\n"@;
    assert(parts[at] == head + response_preview(s));
    text::lemma_joined_has(parts, "\n\n"@, at);
    text::lemma_both_stand(head, response_preview(s));
    text::lemma_stands_within(summary_of(es), parts[at], response_preview(s));
}

proof fn lemma_summary_holds_recent(es: Seq<EntryView>, i: int)
    requires
        es.len() > 0,
        0 <= i < recent_messages(es).len(),
    ensures
        text::has_substring(summary_of(es), recent_messages(es)[i]),
{
    let parts = summary_parts(es);
    let recent = recent_messages(es);
    let head = "Recent messages:\n"@;
    let all = text::joined(recent, "\n"@);
    assert(parts[1] == head + all);
    text::lemma_joined_has(parts, "\n\n"@, 1);
    text::lemma_both_stand(head, all);
    text::lemma_stands_within(summary_of(es), parts[1], all);
    text::lemma_joined_has(recent, "\n"@, i);
    text::lemma_stands_within(summary_of(es), all, recent[i]);
}

/// A message of the user, a call, a result: each that is added is counted, and nothing
/// else is.
pub proof fn law_counts_follow_the_conversation(es: Seq<EntryView>, e: EntryView)
    ensures
        user_messages(es.push(e)) == user_messages(es) + (if is_user_message(e) {
            1nat
        } else {
            0
        }),
        stats_of(es.push(e)).tool_calls == stats_of(es).tool_calls + (if e.role == Role::Assistant {
            calls_in(e.content)
        } else {
            0
        }),
        stats_of(es.push(e)).tool_results == stats_of(es).tool_results + (if e.role == Role::User {
            results_in(e.content)
        } else {
            0
        }),
        stats_of(es.push(e)).assistant_bytes == stats_of(es).assistant_bytes + (if e.role
            == Role::Assistant {
            text_bytes(e.content)
        } else {
            0
        }),
{
    assert(es.push(e).drop_last() =~= es);
    reveal(Seq::filter);
}

/// The line of a restored session names its model, and that of a session in the list its
/// model and its title.
pub proof fn law_lines_name_the_model(d: SessionView)
    ensures
        text::has_substring(restore_line(d), d.model),
        text::has_substring(index_line(d), d.model),
        d.title.len() > 0 ==> text::has_substring(index_line(d), d.title),
{
    let n = text::decimal(user_messages(d.entries));
    let head = "Session from "@ + short_time(d.saved_at) + " — "@ + text::decimal(d.entries.len())
        + " entries, "@ + n + " user messages, "@;
    let tokens = text::decimal(d.total_tokens as nat);
    text::lemma_both_stand(head, d.model);
    text::lemma_stands_on(head + d.model, d.model, " model, ~"@);
    text::lemma_stands_on(head + d.model + " model, ~"@, d.model, tokens);
    text::lemma_stands_on(head + d.model + " model, ~"@ + tokens, d.model, " tokens"@);
    let start = n + " msgs, "@ + d.model;
    text::lemma_both_stand(n + " msgs, "@, d.model);
    if d.title.len() > 0 {
        text::lemma_stands_on(start, d.model, " — "@);
        text::lemma_stands_on(start + " — "@, d.model, d.title);
        text::lemma_both_stand(start + " — "@, d.title);
    } else {
        text::lemma_stands_on(start, d.model, " model — "@);
        text::lemma_stands_on(start + " model — "@, d.model, topic_of(d.entries));
    }
}

/// What counts as a message of the user is what the user wrote, not what tools gave back;
/// and its words are those of its first text.
pub proof fn law_messages_are_what_users_write(words: Text, more: Seq<BlockView>, e: EntryView)
    ensures
        first_text(seq![ContentBlock::Text { text: words }] + more) == Some(words),
        e.role == Role::Assistant ==> !is_user_message(e),
        forall|j: int|
            0 <= j < e.content.len() && (#[trigger] e.content[j]) is ToolResult
                ==> !is_user_message(e),
        e.role == Role::User && e.content.len() > 0 && (forall|j: int|
            0 <= j < e.content.len() ==> (#[trigger] e.content[j]) is Text) ==> is_user_message(e),
{
    if e.role == Role::User && e.content.len() > 0 && (forall|j: int|
        0 <= j < e.content.len() ==> (#[trigger] e.content[j]) is Text) {
        assert(e.content[0] is Text);
        assert(holds_text(e.content));
    }
}

} // verus!
