//! Keeping the conversation within the model's context window.
//!
//! Old tool results are shortened first, at no cost. Then long texts in older
//! entries are collapsed, and a model is asked for a summary that takes the
//! place of the older entries. Where even that request is too long, the oldest
//! rounds of the conversation are dropped and the request is made again.

use crate::api;
use crate::api::ApiError;
use crate::api::BlockView;
use crate::api::ContentBlock;
use crate::api::Role;
use crate::engine::messages;
use crate::engine::messages::ConversationEntry;
use crate::engine::messages::ConversationHistory;
use crate::engine::messages::EntryView;
use crate::text;
use crate::text::Text;
use vstd::prelude::*;
use vstd::string::*;

verus! {

/// How often a summary is asked for again when the request itself is too long.
pub const MAX_PTL_RETRIES: usize = 3;

/// Characters above which a text is collapsed.
pub const CONTEXT_COLLAPSE_CHAR_LIMIT: usize = 2400;

/// Characters that a collapsed text keeps at its start.
pub const CONTEXT_COLLAPSE_HEAD_CHARS: usize = 900;

/// The position, counted from the end, of the first character that a collapsed
/// text keeps at its end.
pub const CONTEXT_COLLAPSE_TAIL_CHARS: usize = 500;

/// Characters to which old tool results are shortened.
pub const MICRO_COMPACT_CHARS: usize = 200;

// ---------------------------------------------------------------------------
// Types
// ---------------------------------------------------------------------------

/// Why a compaction failed.
pub enum CompactError<S = String> {
    LlmFailed(S),
}

impl View for CompactError<String> {
    type V = CompactError<Text>;

    open spec fn view(&self) -> CompactError<Text> {
        match *self {
            CompactError::LlmFailed(msg) => CompactError::LlmFailed(msg@),
        }
    }
}

impl CompactError<String> {
    /// The error in words.
    pub fn message(&self) -> (r: String)
        ensures
            r@ == "Compression LLM call failed: "@ + self@->LlmFailed_0,
    {
        match self {
            CompactError::LlmFailed(msg) => text::cat2(
                "Compression LLM call failed: ",
                msg.as_str(),
            ),
        }
    }
}

/// How the conversation was made smaller.
#[derive(Clone, Copy, PartialEq, Eq, Structural)]
pub enum CompactMethod {
    Micro,
    Full,
}

/// What a compaction came to.
#[derive(Clone, Copy, PartialEq, Eq, Structural)]
pub struct CompactResult {
    pub method: CompactMethod,
    pub tokens_before: usize,
    pub tokens_after: usize,
}

/// When the conversation is compacted.
#[derive(Clone, Copy, PartialEq, Eq, Structural)]
pub struct CompactConfig {
    /// The estimate from which on the conversation is compacted: a share of the
    /// model's context window. `None` where compaction is switched off.
    pub threshold_tokens: Option<usize>,
    /// Entries at the end that are never touched.
    pub keep_recent: usize,
    pub enabled: bool,
}

impl CompactConfig {
    /// The usual settings, with the threshold of the model in use.
    pub fn with_threshold(threshold_tokens: Option<usize>) -> (r: CompactConfig)
        ensures
            r == (CompactConfig { threshold_tokens, keep_recent: 3, enabled: true }),
    {
        CompactConfig { threshold_tokens, keep_recent: 3, enabled: true }
    }
}

// ---------------------------------------------------------------------------
// Token estimation
// ---------------------------------------------------------------------------

/// Whether a character is Chinese, Japanese or Korean.
pub open spec fn cjk(c: char) -> bool {
    ||| '\u{4E00}' <= c <= '\u{9FFF}'
    ||| '\u{3400}' <= c <= '\u{4DBF}'
    ||| '\u{20000}' <= c <= '\u{2A6DF}'
    ||| '\u{F900}' <= c <= '\u{FAFF}'
    ||| '\u{2F800}' <= c <= '\u{2FA1F}'
    ||| '\u{3000}' <= c <= '\u{303F}'
    ||| '\u{3040}' <= c <= '\u{309F}'
    ||| '\u{30A0}' <= c <= '\u{30FF}'
    ||| '\u{AC00}' <= c <= '\u{D7AF}'
    ||| '\u{FF00}' <= c <= '\u{FFEF}'
}

/// Whether `ch` is Chinese, Japanese or Korean.
pub fn is_cjk(ch: char) -> (r: bool)
    ensures
        r == cjk(ch),
{
    ('\u{4E00}' <= ch && ch <= '\u{9FFF}') || ('\u{3400}' <= ch && ch <= '\u{4DBF}') || (
    '\u{20000}' <= ch && ch <= '\u{2A6DF}') || ('\u{F900}' <= ch && ch <= '\u{FAFF}') || (
    '\u{2F800}' <= ch && ch <= '\u{2FA1F}') || ('\u{3000}' <= ch && ch <= '\u{303F}') || (
    '\u{3040}' <= ch && ch <= '\u{309F}') || ('\u{30A0}' <= ch && ch <= '\u{30FF}') || (
    '\u{AC00}' <= ch && ch <= '\u{D7AF}') || ('\u{FF00}' <= ch && ch <= '\u{FFEF}')
}

/// Whether a character is one that code is full of.
pub open spec fn code_char(c: char) -> bool {
    c == '{' || c == '}' || c == '(' || c == ')' || c == ';' || c == '=' || c == '>' || c == '<'
        || c == '|' || c == '&' || c == '*' || c == '/' || c == '[' || c == ']'
}

fn is_code_char(c: char) -> (r: bool)
    ensures
        r == code_char(c),
{
    c == '{' || c == '}' || c == '(' || c == ')' || c == ';' || c == '=' || c == '>' || c == '<'
        || c == '|' || c == '&' || c == '*' || c == '/' || c == '[' || c == ']'
}

/// How many characters of a text are code characters.
pub open spec fn code_chars(s: Text) -> nat
    decreases s.len(),
{
    if s.len() == 0 {
        0
    } else {
        code_chars(s.drop_last()) + if code_char(s.last()) {
            1nat
        } else {
            0nat
        }
    }
}

/// How many characters of a text are Chinese, Japanese or Korean.
pub open spec fn cjk_chars(s: Text) -> nat
    decreases s.len(),
{
    if s.len() == 0 {
        0
    } else {
        cjk_chars(s.drop_last()) + if cjk(s.last()) {
            1nat
        } else {
            0nat
        }
    }
}

/// What counts towards an estimate: plain characters, bytes of code, and
/// Chinese, Japanese and Korean characters.
#[verifier::ext_equal]
pub struct Units {
    pub plain: nat,
    pub code: nat,
    pub cjk: nat,
}

/// Nothing.
pub open spec fn no_units() -> Units {
    Units { plain: 0, code: 0, cjk: 0 }
}

/// Two counts together.
pub open spec fn plus(a: Units, b: Units) -> Units {
    Units { plain: a.plain + b.plain, code: a.code + b.code, cjk: a.cjk + b.cjk }
}

/// What a line counts for. A line is code where more than a fifth of it are
/// code characters.
pub open spec fn line_units(line: Text) -> Units {
    let t = text::trimmed(line);
    let bytes = text::byte_len(t);
    if t.len() == 0 {
        no_units()
    } else if bytes > 4 && code_chars(t) * 100 > bytes * 20 {
        Units { plain: 0, code: bytes, cjk: 0 }
    } else {
        Units { plain: (t.len() - cjk_chars(t)) as nat, code: 0, cjk: cjk_chars(t) }
    }
}

/// What lines count for.
pub open spec fn lines_units(lines: Seq<Text>) -> Units
    decreases lines.len(),
{
    if lines.len() == 0 {
        no_units()
    } else {
        plus(lines_units(lines.drop_last()), line_units(lines.last()))
    }
}

/// What a block counts for: a tool call has some overhead, and a picture costs
/// about a thousand tokens.
pub open spec fn block_units(b: BlockView) -> Units {
    match b {
        ContentBlock::Text { text } => lines_units(text::lines_of(text)),
        ContentBlock::ToolResult { content, .. } => lines_units(text::lines_of(content)),
        ContentBlock::ToolUse { name, .. } => Units {
            plain: text::byte_len(name) + 50,
            code: 0,
            cjk: 0,
        },
        ContentBlock::Image { .. } => Units { plain: 3500, code: 0, cjk: 0 },
    }
}

/// What the blocks of an entry count for.
pub open spec fn content_units(content: Seq<BlockView>) -> Units
    decreases content.len(),
{
    if content.len() == 0 {
        no_units()
    } else {
        plus(content_units(content.drop_last()), block_units(content.last()))
    }
}

/// What a conversation counts for.
pub open spec fn history_units(es: Seq<EntryView>) -> Units
    decreases es.len(),
{
    if es.len() == 0 {
        no_units()
    } else {
        plus(history_units(es.drop_last()), content_units(es.last().content))
    }
}

/// Tokens of a count: 3.5 plain characters, 2.5 bytes of code, or 1.5 Chinese,
/// Japanese or Korean characters make one.
pub open spec fn units_tokens(u: Units) -> nat {
    u.plain * 2 / 7 + u.code * 2 / 5 + u.cjk * 2 / 3
}

/// A count, or the largest that fits.
pub open spec fn at_most_max(n: nat) -> nat {
    if n <= usize::MAX {
        n
    } else {
        usize::MAX as nat
    }
}

/// The tokens that a conversation is estimated at.
pub open spec fn estimated_tokens(es: Seq<EntryView>) -> nat {
    at_most_max(units_tokens(history_units(es)))
}

/// Counters that stop growing far beyond what a token estimate can show.
struct Tally {
    plain: u128,
    code: u128,
    cjk: u128,
}

/// Where the counters stop.
const CAP: u128 = 0x10_0000_0000_0000_0000;

spec fn capped(n: nat) -> nat {
    if n <= CAP {
        n
    } else {
        CAP as nat
    }
}

impl Tally {
    spec fn counts(self, u: Units) -> bool {
        self.plain == capped(u.plain) && self.code == capped(u.code) && self.cjk == capped(u.cjk)
    }

    fn new() -> (r: Tally)
        ensures
            r.counts(no_units()),
    {
        Tally { plain: 0, code: 0, cjk: 0 }
    }

    fn grow(&mut self, plain: usize, code: usize, cjk: usize, u: Ghost<Units>)
        requires
            old(self).counts(u@),
        ensures
            final(self).counts(
                plus(u@, Units { plain: plain as nat, code: code as nat, cjk: cjk as nat }),
            ),
    {
        self.plain = add_capped(self.plain, plain);
        self.code = add_capped(self.code, code);
        self.cjk = add_capped(self.cjk, cjk);
    }

    fn tokens(&self, u: Ghost<Units>) -> (r: usize)
        requires
            self.counts(u@),
        ensures
            r == at_most_max(units_tokens(u@)),
    {
        let n: u128 = self.plain * 2 / 7 + self.code * 2 / 5 + self.cjk * 2 / 3;
        if n <= usize::MAX as u128 {
            n as usize
        } else {
            usize::MAX
        }
    }
}

fn add_capped(a: u128, b: usize) -> (r: u128)
    requires
        a <= CAP,
    ensures
        a + b <= CAP ==> r == a + b,
        a + b > CAP ==> r == CAP,
{
    let sum: u128 = a + b as u128;
    if sum <= CAP {
        sum
    } else {
        CAP
    }
}

fn count_code_chars(v: &Vec<char>) -> (r: usize)
    ensures
        r == code_chars(v@),
        r <= v@.len(),
{
    let mut n: usize = 0;
    let mut i: usize = 0;
    assert(v@.take(0) =~= Seq::<char>::empty());
    while i < v.len()
        invariant
            i <= v@.len(),
            n <= i,
            n == code_chars(v@.take(i as int)),
        decreases v@.len() - i,
    {
        assert(v@.take(i + 1).drop_last() =~= v@.take(i as int));
        assert(v@.take(i + 1).last() == v@[i as int]);
        if is_code_char(v[i]) {
            n = n + 1;
        }
        i = i + 1;
    }
    assert(v@.take(i as int) =~= v@);
    n
}

fn count_cjk_chars(v: &Vec<char>) -> (r: usize)
    ensures
        r == cjk_chars(v@),
        r <= v@.len(),
{
    let mut n: usize = 0;
    let mut i: usize = 0;
    assert(v@.take(0) =~= Seq::<char>::empty());
    while i < v.len()
        invariant
            i <= v@.len(),
            n <= i,
            n == cjk_chars(v@.take(i as int)),
        decreases v@.len() - i,
    {
        assert(v@.take(i + 1).drop_last() =~= v@.take(i as int));
        assert(v@.take(i + 1).last() == v@[i as int]);
        if is_cjk(v[i]) {
            n = n + 1;
        }
        i = i + 1;
    }
    assert(v@.take(i as int) =~= v@);
    n
}

fn tally_line(t: &mut Tally, line: &str, u: Ghost<Units>)
    requires
        old(t).counts(u@),
    ensures
        final(t).counts(plus(u@, line_units(line@))),
{
    let trimmed = text::trim(line);
    if trimmed.as_str().is_empty() {
        assert(plus(u@, no_units()) =~= u@);
        return;
    }
    let v = text::to_chars(trimmed.as_str());
    let bytes: usize = text::str_bytes(trimmed.as_str());
    let special: usize = count_code_chars(&v);
    if bytes > 4 && special as u128 * 100 > bytes as u128 * 20 {
        t.grow(0, bytes, 0, u);
    } else {
        let c: usize = count_cjk_chars(&v);
        t.grow(v.len() - c, 0, c, u);
    }
}

proof fn lemma_plus_assoc(a: Units, b: Units, c: Units)
    ensures
        plus(plus(a, b), c) == plus(a, plus(b, c)),
{
}

fn tally_text(t: &mut Tally, s: &str, u: Ghost<Units>)
    requires
        old(t).counts(u@),
    ensures
        final(t).counts(plus(u@, lines_units(text::lines_of(s@)))),
{
    let lines = text::lines(s);
    let ghost all = text::texts(lines@);
    let mut i: usize = 0;
    assert(plus(u@, lines_units(all.take(0))) =~= u@);
    while i < lines.len()
        invariant
            i <= lines@.len(),
            all == text::texts(lines@),
            t.counts(plus(u@, lines_units(all.take(i as int)))),
        decreases lines@.len() - i,
    {
        proof {
            assert(all.take(i + 1).drop_last() =~= all.take(i as int));
            assert(all.take(i + 1).last() == all[i as int]);
            lemma_plus_assoc(u@, lines_units(all.take(i as int)), line_units(all[i as int]));
        }
        tally_line(
            t,
            lines[i].as_str(),
            Ghost(plus(u@, lines_units(all.take(i as int)))),
        );
        i = i + 1;
    }
    assert(all.take(i as int) =~= all);
}

fn tally_block(t: &mut Tally, b: &ContentBlock, u: Ghost<Units>)
    requires
        old(t).counts(u@),
    ensures
        final(t).counts(plus(u@, block_units(b@))),
{
    match b {
        ContentBlock::Text { text } => {
            tally_text(t, text.as_str(), u);
        },
        ContentBlock::ToolResult { content, .. } => {
            tally_text(t, content.as_str(), u);
        },
        ContentBlock::ToolUse { name, .. } => {
            let n: usize = text::str_bytes(name.as_str());
            let ghost half = Units { plain: n as nat, code: 0, cjk: 0 };
            t.grow(n, 0, 0, u);
            t.grow(50, 0, 0, Ghost(plus(u@, half)));
            proof {
                lemma_plus_assoc(u@, half, Units { plain: 50, code: 0, cjk: 0 });
            }
        },
        ContentBlock::Image { .. } => {
            t.grow(3500, 0, 0, u);
        },
    }
}

fn tally_content(t: &mut Tally, content: &Vec<ContentBlock>, u: Ghost<Units>)
    requires
        old(t).counts(u@),
    ensures
        final(t).counts(plus(u@, content_units(api::blocks(content@)))),
{
    let ghost all = api::blocks(content@);
    let mut i: usize = 0;
    assert(plus(u@, content_units(all.take(0))) =~= u@);
    while i < content.len()
        invariant
            i <= content@.len(),
            all == api::blocks(content@),
            t.counts(plus(u@, content_units(all.take(i as int)))),
        decreases content@.len() - i,
    {
        proof {
            assert(all.take(i + 1).drop_last() =~= all.take(i as int));
            assert(all.take(i + 1).last() == all[i as int]);
            lemma_plus_assoc(u@, content_units(all.take(i as int)), block_units(all[i as int]));
        }
        tally_block(t, &content[i], Ghost(plus(u@, content_units(all.take(i as int)))));
        i = i + 1;
    }
    assert(all.take(i as int) =~= all);
}

/// Estimate the tokens of a conversation. The ratios err on the side of too
/// many: an early compaction is better than a request that is refused.
pub fn estimate_tokens(history: &ConversationHistory) -> (r: usize)
    ensures
        r == estimated_tokens(history@),
{
    let entries = history.entries_raw();
    let ghost es = history@;
    let mut t = Tally::new();
    let mut i: usize = 0;
    assert(history_units(es.take(0)) =~= no_units());
    while i < entries.len()
        invariant
            i <= entries@.len(),
            es == messages::entries_view(entries@),
            t.counts(history_units(es.take(i as int))),
        decreases entries@.len() - i,
    {
        assert(es.take(i + 1).drop_last() =~= es.take(i as int));
        assert(es.take(i + 1).last() == es[i as int]);
        assert(es[i as int].content == api::blocks(entries@[i as int].content@));
        tally_content(&mut t, &entries[i].content, Ghost(history_units(es.take(i as int))));
        i = i + 1;
    }
    assert(es.take(i as int) =~= es);
    t.tokens(Ghost(history_units(es)))
}

/// Bytes of the characters that are not Chinese, Japanese or Korean.
pub open spec fn plain_bytes(s: Text) -> nat
    decreases s.len(),
{
    if s.len() == 0 {
        0
    } else {
        plain_bytes(s.drop_last()) + if cjk(s.last()) {
            0nat
        } else {
            text::char_width(s.last())
        }
    }
}

/// Tokens of tool schemas: four bytes of JSON make one.
pub open spec fn schema_tokens(schemas: Seq<Text>) -> nat
    decreases schemas.len(),
{
    if schemas.len() == 0 {
        0
    } else {
        schema_tokens(schemas.drop_last()) + text::byte_len(schemas.last()) / 4
    }
}

/// The tokens that the system prompt and the tool schemas are estimated at.
pub open spec fn extra_tokens(system_prompt: Text, schemas: Seq<Text>) -> nat {
    at_most_max(
        units_tokens(
            Units {
                plain: plain_bytes(system_prompt),
                code: 0,
                cjk: cjk_chars(system_prompt),
            },
        ) + schema_tokens(schemas),
    )
}

fn count_plain_bytes(s: &str) -> (r: usize)
    ensures
        r == plain_bytes(s@),
{
    let v = text::to_chars(s);
    let total: usize = text::str_bytes(s);
    let mut n: usize = 0;
    let mut i: usize = 0;
    assert(v@.take(0) =~= Seq::<char>::empty());
    while i < v.len()
        invariant
            i <= v@.len(),
            v@ == s@,
            total == text::byte_len(s@),
            n == plain_bytes(v@.take(i as int)),
            n <= text::byte_len(v@.take(i as int)),
        decreases v@.len() - i,
    {
        proof {
            assert(v@.take(i + 1).drop_last() =~= v@.take(i as int));
            assert(v@.take(i + 1).last() == v@[i as int]);
            text::lemma_byte_len_mono(v@, i + 1, v@.len() as int);
            assert(v@.take(v@.len() as int) =~= v@);
        }
        if !is_cjk(v[i]) {
            n = n + text::width_of(v[i]);
        }
        i = i + 1;
    }
    assert(v@.take(i as int) =~= v@);
    n
}

/// Estimate the tokens of what a request carries beside the conversation: the
/// system prompt, and the tool schemas as the JSON that is sent.
pub fn estimate_extra_tokens(system_prompt: &str, tool_schemas: &Vec<String>) -> (r: usize)
    ensures
        r == extra_tokens(system_prompt@, text::texts(tool_schemas@)),
{
    let plain: usize = count_plain_bytes(system_prompt);
    let v = text::to_chars(system_prompt);
    let c: usize = count_cjk_chars(&v);
    let base: u128 = plain as u128 * 2 / 7 + c as u128 * 2 / 3;
    let ghost all = text::texts(tool_schemas@);
    let mut sum: u128 = 0;
    let mut i: usize = 0;
    while i < tool_schemas.len()
        invariant
            i <= tool_schemas@.len(),
            all == text::texts(tool_schemas@),
            sum == capped(schema_tokens(all.take(i as int))),
        decreases tool_schemas@.len() - i,
    {
        assert(all.take(i + 1).drop_last() =~= all.take(i as int));
        assert(all.take(i + 1).last() == all[i as int]);
        let bytes: usize = text::str_bytes(tool_schemas[i].as_str());
        sum = add_capped(sum, bytes / 4);
        i = i + 1;
    }
    assert(all.take(i as int) =~= all);
    let n: u128 = base + sum;
    assert(base == units_tokens(
        Units { plain: plain_bytes(system_prompt@), code: 0, cjk: cjk_chars(system_prompt@) },
    ));
    if n <= usize::MAX as u128 {
        n as usize
    } else {
        usize::MAX
    }
}

// ---------------------------------------------------------------------------
// Old tool results
// ---------------------------------------------------------------------------

/// The conversation with its old tool results shortened.
pub open spec fn micro_compacted(es: Seq<EntryView>, keep_recent: int) -> Seq<EntryView> {
    messages::shortened_before(
        es,
        messages::safe_split(es, keep_recent),
        MICRO_COMPACT_CHARS as int,
    )
}

/// Shorten old tool results. Returns whether any was too long.
pub fn micro_compact(history: &mut ConversationHistory, keep_recent: usize) -> (r: bool)
    ensures
        final(history)@ == micro_compacted(old(history)@, keep_recent as int),
        r == messages::long_before(
            old(history)@,
            messages::safe_split(old(history)@, keep_recent as int),
            MICRO_COMPACT_CHARS as int,
        ),
{
    history.truncate_old_tool_results(keep_recent, MICRO_COMPACT_CHARS)
}

// ---------------------------------------------------------------------------
// Long texts
// ---------------------------------------------------------------------------

/// Whether a text is long enough to be collapsed.
pub open spec fn is_oversized(s: Text) -> bool {
    s.len() > CONTEXT_COLLAPSE_CHAR_LIMIT
}

/// The start and the end of a text, with the number of characters left out between
/// them.
pub open spec fn collapsed_text(s: Text) -> Text {
    let head_end = CONTEXT_COLLAPSE_HEAD_CHARS as int;
    let tail_start = s.len() - CONTEXT_COLLAPSE_TAIL_CHARS - 1;
    text::trimmed_end(s.take(head_end)) + "\n...[collapsed "@ + text::decimal(
        (tail_start - head_end) as nat,
    ) + " chars]...\n"@ + text::trimmed_start(s.skip(tail_start))
}

/// A block with its text collapsed.
pub open spec fn collapsed_block(b: BlockView) -> BlockView {
    match b {
        ContentBlock::Text { text } => if is_oversized(text) {
            ContentBlock::Text { text: collapsed_text(text) }
        } else {
            b
        },
        _ => b,
    }
}

/// Whether a block is a text long enough to be collapsed.
pub open spec fn is_oversized_block(b: BlockView) -> bool {
    match b {
        ContentBlock::Text { text } => is_oversized(text),
        _ => false,
    }
}

/// An entry with its texts collapsed.
pub open spec fn collapsed_entry(e: EntryView) -> EntryView {
    EntryView {
        content: Seq::new(e.content.len(), |j: int| collapsed_block(e.content[j])),
        ..e
    }
}

/// Whether an entry holds a text long enough to be collapsed.
pub open spec fn has_oversized(e: EntryView) -> bool {
    exists|j: int| 0 <= j < e.content.len() && is_oversized_block(#[trigger] e.content[j])
}

/// Where collapsing stops: nowhere near the recent entries.
pub open spec fn collapse_end(es: Seq<EntryView>, keep_recent: int) -> int {
    if es.len() <= keep_recent + 2 {
        0
    } else {
        messages::safe_split(es, keep_recent)
    }
}

/// The conversation with the long texts before `end` collapsed.
pub open spec fn collapsed_before(es: Seq<EntryView>, end: int) -> Seq<EntryView> {
    Seq::new(
        es.len(),
        |i: int|
            if i < end {
                collapsed_entry(es[i])
            } else {
                es[i]
            },
    )
}

/// The conversation with the long texts of older entries collapsed.
pub open spec fn collapsed(es: Seq<EntryView>, keep_recent: int) -> Seq<EntryView> {
    collapsed_before(es, collapse_end(es, keep_recent))
}

/// Collapse a long text.
pub fn collapse_text(s: &str) -> (r: String)
    requires
        s@.len() > CONTEXT_COLLAPSE_HEAD_CHARS + CONTEXT_COLLAPSE_TAIL_CHARS,
    ensures
        r@ == collapsed_text(s@),
{
    let v = text::to_chars(s);
    let n: usize = v.len();
    let tail_start: usize = n - CONTEXT_COLLAPSE_TAIL_CHARS - 1;
    let head = text::from_chars(&v, 0, CONTEXT_COLLAPSE_HEAD_CHARS);
    let tail = text::from_chars(&v, tail_start, n);
    proof {
        assert(head@ =~= s@.take(CONTEXT_COLLAPSE_HEAD_CHARS as int));
        assert(tail@ =~= s@.skip(tail_start as int));
    }
    let omitted = text::count(tail_start - CONTEXT_COLLAPSE_HEAD_CHARS);
    let start = text::trim_end(head.as_str());
    let end = text::trim_start(tail.as_str());
    text::cat5(
        start.as_str(),
        "\n...[collapsed ",
        omitted.as_str(),
        " chars]...\n",
        end.as_str(),
    )
}

fn collapse_content(content: &Vec<ContentBlock>) -> (r: (Vec<ContentBlock>, bool))
    ensures
        api::blocks(r.0@) == Seq::new(content@.len(), |j: int| collapsed_block(content@[j]@)),
        r.1 == exists|j: int|
            0 <= j < content@.len() && is_oversized_block((#[trigger] content@[j])@),
{
    let mut out: Vec<ContentBlock> = Vec::new();
    let mut changed = false;
    let mut i: usize = 0;
    while i < content.len()
        invariant
            i <= content@.len(),
            out@.len() == i,
            forall|j: int| 0 <= j < i ==> (#[trigger] out@[j])@ == collapsed_block(content@[j]@),
            changed == exists|j: int|
                0 <= j < i && is_oversized_block((#[trigger] content@[j])@),
        decreases content@.len() - i,
    {
        let mut block = content[i].copy();
        if let ContentBlock::Text { text } = &content[i] {
            if text.as_str().unicode_len() > CONTEXT_COLLAPSE_CHAR_LIMIT {
                block = ContentBlock::Text { text: collapse_text(text.as_str()) };
                changed = true;
                assert(is_oversized_block(content@[i as int]@));
            }
        }
        assert(block@ == collapsed_block(content@[i as int]@));
        out.push(block);
        i = i + 1;
    }
    assert(api::blocks(out@) =~= Seq::new(
        content@.len(),
        |j: int| collapsed_block(content@[j]@),
    ));
    (out, changed)
}

/// Collapse the long texts of older entries: their start and end stay, with a
/// note of what is left out. Returns whether any text was long.
pub fn context_collapse(history: &mut ConversationHistory, keep_recent: usize) -> (r: bool)
    ensures
        final(history)@ == collapsed(old(history)@, keep_recent as int),
        r == exists|i: int|
            0 <= i < collapse_end(old(history)@, keep_recent as int) && has_oversized(
                #[trigger] old(history)@[i],
            ),
{
    let ghost es = history@;
    let total: usize = history.len();
    if total <= 2 || total - 2 <= keep_recent {
        assert(history@ =~= collapsed(es, keep_recent as int));
        return false;
    }
    let end: usize = messages::find_safe_split_point(history.entries_raw(), keep_recent);
    let entries = history.entries_raw();
    let mut out: Vec<ConversationEntry> = Vec::new();
    let mut changed = false;
    let mut i: usize = 0;
    while i < entries.len()
        invariant
            i <= entries@.len(),
            end <= entries@.len(),
            es == messages::entries_view(entries@),
            out@.len() == i,
            forall|k: int|
                0 <= k < i ==> (#[trigger] out@[k])@ == (if k < end {
                    collapsed_entry(es[k])
                } else {
                    es[k]
                }),
            changed == exists|k: int| 0 <= k < i && k < end && has_oversized(#[trigger] es[k]),
        decreases entries@.len() - i,
    {
        let e = &entries[i];
        assert(es[i as int] == e@);
        if i < end {
            let (content, long) = collapse_content(&e.content);
            let next = ConversationEntry {
                role: e.role,
                content,
                reasoning_content: text::copy_opt(&e.reasoning_content),
            };
            proof {
                assert(next@.content =~= collapsed_entry(e@).content);
                if long {
                    let j = choose|j: int|
                        0 <= j < e.content@.len() && is_oversized_block((#[trigger] e.content@[j])@);
                    assert(is_oversized_block(e@.content[j]));
                } else if has_oversized(e@) {
                    let j = choose|j: int|
                        0 <= j < e@.content.len() && is_oversized_block(#[trigger] e@.content[j]);
                    assert(is_oversized_block(e.content@[j]@));
                }
                assert(long == has_oversized(es[i as int]));
            }
            out.push(next);
            if long {
                changed = true;
            }
        } else {
            out.push(e.copy());
        }
        i = i + 1;
    }
    *history = ConversationHistory::from_entries(out);
    proof {
        messages::law_safe_split(es, keep_recent as int);
        assert(history@ =~= collapsed(es, keep_recent as int));
    }
    changed
}

// ---------------------------------------------------------------------------
// Requests that are too long
// ---------------------------------------------------------------------------

/// Whether a message, in lower case, says that a request was too long.
pub open spec fn says_too_long(lowered: Text) -> bool {
    ||| text::has_substring(lowered, "prompt too long"@)
    ||| text::has_substring(lowered, "context length"@)
    ||| text::has_substring(lowered, "too many tokens"@)
    ||| text::has_substring(lowered, "maximum context"@)
    ||| text::has_substring(lowered, "too large for the model"@)
}

/// Whether a message, in lower case, says that a request was too long.
pub fn mentions_too_long(lowered: &str) -> (r: bool)
    ensures
        r == says_too_long(lowered@),
{
    text::contains(lowered, "prompt too long") || text::contains(lowered, "context length")
        || text::contains(lowered, "too many tokens") || text::contains(lowered, "maximum context")
        || text::contains(lowered, "too large for the model")
}

/// Whether an error message says that the request was too long. The case of its
/// letters makes no difference.
pub fn is_prompt_too_long_msg(msg: &str) -> (r: bool)
    ensures
        r == says_too_long(text::lowercased(msg@)),
        text::is_ascii(msg@) ==> r == says_too_long(text::ascii_lowered(msg@)),
        forall|other: Text|
            text::ascii_lowered(other) == text::ascii_lowered(msg@) ==> r == says_too_long(
                #[trigger] text::lowercased(other),
            ),
{
    let lowered = text::to_lower(msg);
    mentions_too_long(lowered.as_str())
}

/// Whether an error of the API says that the request was too long.
pub open spec fn is_too_long(error: ApiError<Text>) -> bool {
    match error {
        ApiError::Http { body, .. } => says_too_long(text::lowercased(body)),
        _ => false,
    }
}

/// Whether an error of the API says that the request was too long. The case of the
/// letters in what the server said makes no difference.
pub fn is_prompt_too_long_error(error: &ApiError) -> (r: bool)
    ensures
        r == is_too_long(error@),
        match error@ {
            ApiError::Http { body, .. } => (text::is_ascii(body) ==> r == says_too_long(
                text::ascii_lowered(body),
            )) && (forall|other: Text|
                text::ascii_lowered(other) == text::ascii_lowered(body) ==> r == says_too_long(
                    #[trigger] text::lowercased(other),
                )),
            _ => !r,
        },
{
    match error {
        ApiError::Http { body, .. } => is_prompt_too_long_msg(body.as_str()),
        _ => false,
    }
}

// ---------------------------------------------------------------------------
// Prompt rounds
// ---------------------------------------------------------------------------

/// Whether one of the blocks is a text that says something.
pub open spec fn says_something(content: Seq<BlockView>) -> bool {
    exists|j: int|
        0 <= j < content.len() && (#[trigger] content[j]) is Text && !messages::is_blank_text(
            content[j],
        )
}

/// Whether an entry is something the user asked, not just results of tools.
pub open spec fn starts_round(e: EntryView) -> bool {
    e.role == Role::User && !messages::holds_result(e.content) && says_something(e.content)
}

/// The positions of the entries, grouped by what the user asked.
pub open spec fn rounds(es: Seq<EntryView>) -> Seq<Seq<int>>
    decreases es.len(),
{
    if es.len() == 0 {
        Seq::empty()
    } else {
        let before = rounds(es.drop_last());
        if before.len() == 0 || starts_round(es.last()) {
            before.push(seq![es.len() - 1])
        } else {
            before.drop_last().push(before.last().push(es.len() - 1))
        }
    }
}

/// What a list of positions holds.
pub open spec fn positions(v: Seq<usize>) -> Seq<int> {
    Seq::new(v.len(), |i: int| v[i] as int)
}

/// What a list of lists of positions holds.
pub open spec fn groups_view(v: Seq<Vec<usize>>) -> Seq<Seq<int>> {
    Seq::new(v.len(), |i: int| positions(v[i]@))
}

fn does_start_round(e: &ConversationEntry) -> (r: bool)
    ensures
        r == starts_round(e@),
{
    if e.role != Role::User {
        return false;
    }
    let mut result = false;
    let mut says = false;
    let mut i: usize = 0;
    while i < e.content.len()
        invariant
            i <= e.content@.len(),
            result == exists|j: int|
                0 <= j < i && (#[trigger] e@.content[j]) is ToolResult,
            says == exists|j: int|
                0 <= j < i && (#[trigger] e@.content[j]) is Text && !messages::is_blank_text(
                    e@.content[j],
                ),
        decreases e.content@.len() - i,
    {
        assert(e@.content[i as int] == e.content@[i as int]@);
        match &e.content[i] {
            ContentBlock::ToolResult { .. } => {
                assert(e@.content[i as int] is ToolResult);
                result = true;
            },
            ContentBlock::Text { text } => {
                if !text::blank(text.as_str()) {
                    assert(e@.content[i as int] is Text && !messages::is_blank_text(
                        e@.content[i as int],
                    ));
                    says = true;
                }
            },
            _ => {},
        }
        i = i + 1;
    }
    !result && says
}

/// Group the entries by prompt round: a round starts with a user message that
/// says something and carries no tool results.
pub fn group_messages_by_prompt_round(entries: &Vec<ConversationEntry>) -> (r: Vec<Vec<usize>>)
    ensures
        groups_view(r@) == rounds(messages::entries_view(entries@)),
{
    let ghost es = messages::entries_view(entries@);
    let mut groups: Vec<Vec<usize>> = Vec::new();
    let mut current: Vec<usize> = Vec::new();
    let mut i: usize = 0;
    assert(rounds(es.take(0)) =~= Seq::<Seq<int>>::empty());
    assert(groups_view(groups@) =~= Seq::<Seq<int>>::empty());
    while i < entries.len()
        invariant
            i <= entries@.len(),
            es == messages::entries_view(entries@),
            i == 0 ==> current@.len() == 0 && groups@.len() == 0,
            i > 0 ==> current@.len() > 0,
            rounds(es.take(i as int)) == if i == 0 {
                groups_view(groups@)
            } else {
                groups_view(groups@).push(positions(current@))
            },
        decreases entries@.len() - i,
    {
        assert(es.take(i + 1).drop_last() =~= es.take(i as int));
        assert(es.take(i + 1).last() == entries@[i as int]@);
        let ghost gs = groups_view(groups@);
        let ghost cur = positions(current@);
        if does_start_round(&entries[i]) && current.len() > 0 {
            groups.push(current);
            current = Vec::new();
            assert(groups_view(groups@) =~= gs.push(cur));
            current.push(i);
            assert(positions(current@) =~= seq![i as int]);
        } else {
            current.push(i);
            assert(positions(current@) =~= cur.push(i as int));
            assert(gs.push(cur).drop_last() =~= gs);
            proof {
                if i == 0 {
                    assert(positions(current@) =~= seq![0int]);
                }
            }
        }
        i = i + 1;
    }
    assert(es.take(i as int) =~= es);
    if current.len() > 0 {
        let ghost gs = groups_view(groups@);
        let ghost cur = positions(current@);
        groups.push(current);
        assert(groups_view(groups@) =~= gs.push(cur));
    }
    groups
}

/// How many of `n` rounds are dropped: a fifth, but at least one, and never all.
pub open spec fn rounds_dropped(n: int) -> int {
    let fifth = if n / 5 > 1 {
        n / 5
    } else {
        1
    };
    if fifth < n - 1 {
        fifth
    } else {
        n - 1
    }
}

/// The text that stands for what was dropped.
pub open spec fn retry_marker() -> Text {
    "[earlier conversation truncated for compaction retry]"@
}

/// The conversation after its oldest rounds, where it has at least two rounds.
pub open spec fn without_oldest(es: Seq<EntryView>) -> Option<Seq<EntryView>> {
    let groups = rounds(es);
    if groups.len() < 2 {
        None
    } else {
        let retained = es.skip(groups[rounds_dropped(groups.len() as int)][0]);
        if retained[0].role == Role::Assistant {
            Some(seq![messages::text_entry(Role::User, retry_marker())] + retained)
        } else {
            Some(retained)
        }
    }
}

/// The groups partition the positions in order, and every group but the first
/// starts with what the user asked.
proof fn lemma_rounds(es: Seq<EntryView>)
    ensures
        es.len() > 0 ==> rounds(es).len() > 0,
        forall|g: int|
            #![trigger rounds(es)[g]]
            0 <= g < rounds(es).len() ==> rounds(es)[g].len() > 0 && 0 <= rounds(es)[g][0]
                < es.len() && (g > 0 ==> starts_round(es[rounds(es)[g][0]]) && rounds(es)[g][0] > 0)
                && (g == 0 ==> rounds(es)[g][0] == 0),
    decreases es.len(),
{
    if es.len() > 0 {
        let front = es.drop_last();
        lemma_rounds(front);
        let before = rounds(front);
        let now = rounds(es);
        assert forall|g: int|
            #![trigger now[g]]
            0 <= g < now.len() implies now[g].len() > 0 && 0 <= now[g][0] < es.len() && (g > 0
            ==> starts_round(es[now[g][0]]) && now[g][0] > 0) && (g == 0 ==> now[g][0] == 0) by {
            if g < before.len() - 1 {
                assert(now[g] == before[g]);
                assert(front[before[g][0]] == es[before[g][0]]);
            } else if g < before.len() {
                assert(now[g][0] == before[g][0]);
                assert(front[before[g][0]] == es[before[g][0]]);
            } else if before.len() == 0 {
                assert(front.len() == 0);
            }
        }
    }
}

/// Drop the oldest rounds when even the request for a summary is too long.
/// Returns whether there was anything that could be dropped.
pub fn truncate_head_for_ptl_retry(history: &mut ConversationHistory) -> (r: bool)
    ensures
        r == without_oldest(old(history)@) is Some,
        r ==> final(history)@ == without_oldest(old(history)@)->Some_0,
        !r ==> final(history)@ == old(history)@,
{
    let ghost es = history@;
    let groups = group_messages_by_prompt_round(history.entries_raw());
    let ghost gs = rounds(es);
    let n: usize = groups.len();
    assert(groups_view(groups@).len() == n);
    if n < 2 {
        return false;
    }
    let fifth: usize = if n / 5 > 1 {
        n / 5
    } else {
        1
    };
    let dropped: usize = if fifth < n - 1 {
        fifth
    } else {
        n - 1
    };
    proof {
        lemma_rounds(es);
        assert(groups_view(groups@)[dropped as int] == gs[dropped as int]);
        assert(positions(groups@[dropped as int]@).len() == groups@[dropped as int]@.len());
        assert(gs[dropped as int][0] == groups@[dropped as int]@[0]);
    }
    let from: usize = groups[dropped][0];
    let entries = history.entries_mut();
    let retained = entries.split_off(from);
    assert(messages::entries_view(retained@) =~= es.skip(from as int));
    assert(messages::entries_view(retained@)[0] == retained@[0]@);
    if retained[0].role == Role::Assistant {
        let mut next = ConversationHistory::new();
        next.push_user("[earlier conversation truncated for compaction retry]");
        let mut rest = retained;
        let ghost head = next@;
        let all = next.entries_mut();
        all.append(&mut rest);
        assert(next@ =~= head + es.skip(from as int));
        *history = next;
        assert(history@ =~= without_oldest(es)->Some_0);
    } else {
        *history = ConversationHistory::from_entries(retained);
    }
    true
}

// ---------------------------------------------------------------------------
// Summaries
// ---------------------------------------------------------------------------

/// What a model is told beside the conversation it is to summarise: the working
/// memory, and what an external memory had to add.
pub open spec fn combined_context(carryover: Option<Text>, insight: Text) -> Option<Text> {
    match carryover {
        Some(carry) => if insight.len() > 0 {
            Some(carry + "\n\n## External memory insights\n\n"@ + insight)
        } else {
            Some(carry)
        },
        None => if insight.len() > 0 {
            Some("## External memory insights\n\n"@ + insight)
        } else {
            None
        },
    }
}

/// Put the working memory and the insight of an external memory together.
pub fn combine_context(carryover: &Option<String>, insight: &str) -> (r: Option<String>)
    ensures
        text::opt_text(r) == combined_context(text::opt_text(*carryover), insight@),
{
    match carryover {
        Some(carry) => if !insight.is_empty() {
            Some(text::cat3(carry.as_str(), "\n\n## External memory insights\n\n", insight))
        } else {
            Some(text::copy(carry.as_str()))
        },
        None => if !insight.is_empty() {
            Some(text::cat2("## External memory insights\n\n", insight))
        } else {
            None
        },
    }
}

/// What a result of strings holds.
pub open spec fn reply_view(r: Result<String, String>) -> Result<Text, Text> {
    match r {
        Ok(s) => Ok(s@),
        Err(e) => Err(e@),
    }
}

/// Take a model's summary of the older entries in their place. `summary` is
/// what the model answered, or why it did not.
pub fn full_compact(
    history: &mut ConversationHistory,
    keep_recent: usize,
    summary: Result<String, String>,
) -> (r: Result<(), CompactError>)
    ensures
        match reply_view(summary) {
            Ok(s) => r is Ok && final(history)@ == messages::summarized(
                old(history)@,
                s,
                keep_recent as int,
            ),
            Err(msg) => r is Err && r->Err_0@ == CompactError::LlmFailed(msg) && final(history)@
                == old(history)@,
        },
{
    match summary {
        Ok(s) => {
            history.replace_with_summary(s, keep_recent);
            Ok(())
        },
        Err(msg) => Err(CompactError::LlmFailed(msg)),
    }
}

// ---------------------------------------------------------------------------
// Automatic compaction
// ---------------------------------------------------------------------------

/// A compaction that waits for a summary.
#[derive(Clone, Copy, PartialEq, Eq, Structural)]
pub struct CompactRun {
    pub tokens_before: usize,
    pub extra_tokens: usize,
    /// Requests that were too long so far.
    pub attempt: usize,
}

/// What is to be done next.
pub enum CompactStep<S = String> {
    /// The conversation is small enough.
    Nothing,
    /// The conversation was made smaller.
    Done(CompactResult),
    /// A model is to be asked for a summary of the conversation as it stands.
    Summarize(CompactRun),
    /// The compaction failed.
    Failed(CompactError<S>),
}

impl View for CompactStep<String> {
    type V = CompactStep<Text>;

    open spec fn view(&self) -> CompactStep<Text> {
        match *self {
            CompactStep::Nothing => CompactStep::Nothing,
            CompactStep::Done(result) => CompactStep::Done(result),
            CompactStep::Summarize(run) => CompactStep::Summarize(run),
            CompactStep::Failed(error) => CompactStep::Failed(error@),
        }
    }
}

/// The tokens of a conversation and of what else a request carries.
pub open spec fn total_tokens(es: Seq<EntryView>, extra: usize) -> usize {
    at_most_max(estimated_tokens(es) + extra as nat) as usize
}

fn count_tokens(history: &ConversationHistory, extra: usize) -> (r: usize)
    ensures
        r == total_tokens(history@, extra),
{
    let n: usize = estimate_tokens(history);
    n.saturating_add(extra)
}

/// How a compaction starts: with the conversation after it, and what is next.
pub open spec fn compact_started(
    es: Seq<EntryView>,
    config: CompactConfig,
    extra: usize,
) -> (Seq<EntryView>, CompactStep<Text>) {
    if !config.enabled || config.threshold_tokens is None {
        (es, CompactStep::Nothing)
    } else {
        let threshold = config.threshold_tokens->Some_0;
        let keep = config.keep_recent as int;
        let before = total_tokens(es, extra);
        if before < threshold {
            (es, CompactStep::Nothing)
        } else {
            let micro = micro_compacted(es, keep);
            let after = total_tokens(micro, extra);
            if after < threshold {
                (
                    micro,
                    CompactStep::Done(
                        CompactResult {
                            method: CompactMethod::Micro,
                            tokens_before: before,
                            tokens_after: after,
                        },
                    ),
                )
            } else {
                (
                    collapsed(micro, keep),
                    CompactStep::Summarize(
                        CompactRun { tokens_before: before, extra_tokens: extra, attempt: 0 },
                    ),
                )
            }
        }
    }
}

/// Compact the conversation if its estimate has reached the threshold: old tool
/// results first, and where that is not enough long texts, after which a
/// summary is needed.
pub fn auto_compact_if_needed(
    history: &mut ConversationHistory,
    config: &CompactConfig,
    extra_tokens: usize,
) -> (r: CompactStep)
    ensures
        (final(history)@, r@) == compact_started(old(history)@, *config, extra_tokens),
{
    let threshold: usize = match config.threshold_tokens {
        Some(t) => t,
        None => {
            return CompactStep::Nothing;
        },
    };
    if !config.enabled {
        return CompactStep::Nothing;
    }
    let before: usize = count_tokens(history, extra_tokens);
    if before < threshold {
        return CompactStep::Nothing;
    }
    micro_compact(history, config.keep_recent);
    let after: usize = count_tokens(history, extra_tokens);
    if after < threshold {
        return CompactStep::Done(
            CompactResult {
                method: CompactMethod::Micro,
                tokens_before: before,
                tokens_after: after,
            },
        );
    }
    context_collapse(history, config.keep_recent);
    CompactStep::Summarize(CompactRun { tokens_before: before, extra_tokens, attempt: 0 })
}

/// How a compaction goes on once a summary was asked for. `too_long` says
/// whether the request was refused for its length.
pub open spec fn compact_replied(
    es: Seq<EntryView>,
    config: CompactConfig,
    run: CompactRun,
    reply: Result<Text, Text>,
    too_long: bool,
) -> (Seq<EntryView>, CompactStep<Text>) {
    match reply {
        Ok(summary) => {
            let after = messages::summarized(es, summary, config.keep_recent as int);
            (
                after,
                CompactStep::Done(
                    CompactResult {
                        method: CompactMethod::Full,
                        tokens_before: run.tokens_before,
                        tokens_after: total_tokens(after, run.extra_tokens),
                    },
                ),
            )
        },
        Err(msg) => if too_long && run.attempt < MAX_PTL_RETRIES && without_oldest(es) is Some {
            (
                without_oldest(es)->Some_0,
                CompactStep::Summarize(
                    CompactRun { attempt: (run.attempt + 1) as usize, ..run },
                ),
            )
        } else {
            (es, CompactStep::Failed(CompactError::LlmFailed(msg)))
        },
    }
}

/// Go on with a compaction, given the model's reply and whether it says that
/// the request was too long.
pub fn continue_compact(
    history: &mut ConversationHistory,
    config: &CompactConfig,
    run: CompactRun,
    reply: Result<String, String>,
    too_long: bool,
) -> (r: CompactStep)
    ensures
        (final(history)@, r@) == compact_replied(
            old(history)@,
            *config,
            run,
            reply_view(reply),
            too_long,
        ),
{
    match reply {
        Ok(summary) => {
            history.replace_with_summary(summary, config.keep_recent);
            CompactStep::Done(
                CompactResult {
                    method: CompactMethod::Full,
                    tokens_before: run.tokens_before,
                    tokens_after: count_tokens(history, run.extra_tokens),
                },
            )
        },
        Err(msg) => {
            if too_long && run.attempt < MAX_PTL_RETRIES && truncate_head_for_ptl_retry(history) {
                CompactStep::Summarize(
                    CompactRun {
                        tokens_before: run.tokens_before,
                        extra_tokens: run.extra_tokens,
                        attempt: run.attempt + 1,
                    },
                )
            } else {
                CompactStep::Failed(CompactError::LlmFailed(msg))
            }
        },
    }
}

/// Whether a reply says that the request was too long.
pub open spec fn reply_too_long(reply: Result<Text, Text>) -> bool {
    match reply {
        Ok(_) => false,
        Err(msg) => says_too_long(text::lowercased(msg)),
    }
}

/// Go on with a compaction, given the model's reply.
pub fn resume_compact(
    history: &mut ConversationHistory,
    config: &CompactConfig,
    run: CompactRun,
    reply: Result<String, String>,
) -> (r: CompactStep)
    ensures
        (final(history)@, r@) == compact_replied(
            old(history)@,
            *config,
            run,
            reply_view(reply),
            reply_too_long(reply_view(reply)),
        ),
{
    let too_long = match &reply {
        Ok(_) => false,
        Err(msg) => is_prompt_too_long_msg(msg.as_str()),
    };
    continue_compact(history, config, run, reply, too_long)
}

// ---------------------------------------------------------------------------
// Laws
// ---------------------------------------------------------------------------

/// Dropping the oldest rounds makes the conversation shorter, drops nothing but
/// its start, and what remains begins with something the user asked.
pub proof fn law_dropping_rounds(es: Seq<EntryView>)
    requires
        without_oldest(es) is Some,
    ensures
        ({
            let out = without_oldest(es)->Some_0;
            &&& 0 < out.len() < es.len()
            &&& out == es.skip(es.len() - out.len())
            &&& starts_round(out[0])
        }),
{
    lemma_rounds(es);
    let groups = rounds(es);
    let d = rounds_dropped(groups.len() as int);
    let from = groups[d][0];
    let retained = es.skip(from);
    assert(starts_round(es[from]));
    assert(retained[0] == es[from]);
    assert(retained =~= es.skip(es.len() - retained.len()));
}

/// A compaction asks for a summary at most four times: the first time, and once
/// for each of three requests that were too long. Each time the conversation is
/// shorter.
pub proof fn law_compaction_ends(
    es: Seq<EntryView>,
    config: CompactConfig,
    run: CompactRun,
    reply: Result<Text, Text>,
    too_long: bool,
)
    requires
        run.attempt <= MAX_PTL_RETRIES,
    ensures
        compact_replied(es, config, run, reply, too_long).1 matches CompactStep::Summarize(next)
            ==> {
            &&& next.attempt == run.attempt + 1
            &&& next.attempt <= MAX_PTL_RETRIES
            &&& compact_replied(es, config, run, reply, too_long).0.len() < es.len()
        },
{
    if without_oldest(es) is Some {
        law_dropping_rounds(es);
    }
}

/// A conversation below the threshold is left as it is.
pub proof fn law_small_conversation_is_kept(
    es: Seq<EntryView>,
    config: CompactConfig,
    extra: usize,
)
    requires
        !config.enabled || config.threshold_tokens is None || total_tokens(es, extra)
            < config.threshold_tokens->Some_0,
    ensures
        compact_started(es, config, extra) == (es, CompactStep::<Text>::Nothing),
{
}

/// Collapsing leaves the number of entries, every role and the recent entries
/// as they were.
pub proof fn law_collapse_keeps_shape(es: Seq<EntryView>, keep_recent: int)
    requires
        0 <= keep_recent,
    ensures
        ({
            let out = collapsed(es, keep_recent);
            &&& out.len() == es.len()
            &&& es.len() > keep_recent ==> out.skip(es.len() - keep_recent) == es.skip(
                es.len() - keep_recent,
            )
            &&& forall|i: int|
                0 <= i < es.len() ==> (#[trigger] out[i]).role == es[i].role
                    && out[i].content.len() == es[i].content.len()
        }),
{
    messages::law_safe_split(es, keep_recent);
    if es.len() > keep_recent {
        let out = collapsed(es, keep_recent);
        assert(out.skip(es.len() - keep_recent) =~= es.skip(es.len() - keep_recent));
    }
}

/// Characters of lines, without the white space around each.
pub open spec fn lines_chars(lines: Seq<Text>) -> nat
    decreases lines.len(),
{
    if lines.len() == 0 {
        0
    } else {
        lines_chars(lines.drop_last()) + text::trimmed(lines.last()).len()
    }
}

/// Characters that a block says, without the white space around each line.
pub open spec fn block_chars(b: BlockView) -> nat {
    match b {
        ContentBlock::Text { text } => lines_chars(text::lines_of(text)),
        ContentBlock::ToolResult { content, .. } => lines_chars(text::lines_of(content)),
        _ => 0,
    }
}

/// Characters that blocks say.
pub open spec fn content_chars(content: Seq<BlockView>) -> nat
    decreases content.len(),
{
    if content.len() == 0 {
        0
    } else {
        content_chars(content.drop_last()) + block_chars(content.last())
    }
}

/// Characters that a conversation says.
pub open spec fn history_chars(es: Seq<EntryView>) -> nat
    decreases es.len(),
{
    if es.len() == 0 {
        0
    } else {
        history_chars(es.drop_last()) + content_chars(es.last().content)
    }
}

proof fn lemma_cjk_within(s: Text)
    ensures
        cjk_chars(s) <= s.len(),
    decreases s.len(),
{
    if s.len() > 0 {
        lemma_cjk_within(s.drop_last());
    }
}

proof fn lemma_line_chars(line: Text)
    ensures
        ({
            let u = line_units(line);
            u.plain + u.code + u.cjk >= text::trimmed(line).len()
        }),
{
    let t = text::trimmed(line);
    lemma_cjk_within(t);
    text::lemma_byte_len_bounds(t);
}

proof fn lemma_lines_chars(lines: Seq<Text>)
    ensures
        ({
            let u = lines_units(lines);
            u.plain + u.code + u.cjk >= lines_chars(lines)
        }),
    decreases lines.len(),
{
    if lines.len() > 0 {
        lemma_lines_chars(lines.drop_last());
        lemma_line_chars(lines.last());
    }
}

proof fn lemma_content_chars(content: Seq<BlockView>)
    ensures
        ({
            let u = content_units(content);
            u.plain + u.code + u.cjk >= content_chars(content)
        }),
    decreases content.len(),
{
    if content.len() > 0 {
        lemma_content_chars(content.drop_last());
        match content.last() {
            ContentBlock::Text { text } => lemma_lines_chars(text::lines_of(text)),
            ContentBlock::ToolResult { content, .. } => lemma_lines_chars(text::lines_of(content)),
            _ => {},
        }
    }
}

proof fn lemma_history_chars(es: Seq<EntryView>)
    ensures
        ({
            let u = history_units(es);
            u.plain + u.code + u.cjk >= history_chars(es)
        }),
    decreases es.len(),
{
    if es.len() > 0 {
        lemma_history_chars(es.drop_last());
        lemma_content_chars(es.last().content);
    }
}

/// Nothing that a conversation says is free: its estimate is at least two tokens for
/// seven characters, whatever they are, but for what rounding takes.
pub proof fn law_every_character_counts(es: Seq<EntryView>)
    ensures
        estimated_tokens(es) == usize::MAX || estimated_tokens(es) * 7 + 17 >= history_chars(es)
            * 2,
{
    lemma_history_chars(es);
    let u = history_units(es);
    assert(units_tokens(u) * 7 + 17 >= (u.plain + u.code + u.cjk) * 2);
}

/// What a line costs by itself: two tokens for seven plain characters, for five bytes of
/// code, and for three Chinese, Japanese or Korean characters. A line of more than four
/// bytes is code where more than a fifth of it are code characters, and code costs at
/// least as much as as many plain characters.
pub proof fn law_what_a_line_costs(line: Text)
    ensures
        ({
            let t = text::trimmed(line);
            let bytes = text::byte_len(t);
            let plain = t.len() - cjk_chars(t);
            let cost = units_tokens(line_units(line));
            if bytes > 4 && code_chars(t) * 5 > bytes {
                cost == bytes * 2 / 5 && cost >= t.len() * 2 / 7
            } else {
                cost == plain * 2 / 7 + cjk_chars(t) * 2 / 3
            }
        }),
        units_tokens(line_units(line)) <= text::byte_len(text::trimmed(line)),
{
    let t = text::trimmed(line);
    lemma_cjk_within(t);
    text::lemma_byte_len_bounds(t);
}

/// A conversation that goes on costs no less, and each of its entries adds what it would
/// cost by itself, but for what rounding takes; a picture costs a thousand tokens, and a
/// call costs something too.
pub proof fn law_longer_conversations_cost_more(es: Seq<EntryView>, e: EntryView)
    ensures
        estimated_tokens(es.push(e)) >= estimated_tokens(es),
        estimated_tokens(es.push(e)) >= estimated_tokens(seq![e]),
        units_tokens(history_units(es.push(e))) >= units_tokens(history_units(es)) + units_tokens(
            content_units(e.content),
        ),
        forall|j: int|
            0 <= j < e.content.len() && (#[trigger] e.content[j]) is Image
                ==> units_tokens(content_units(e.content)) >= 1000,
        forall|j: int|
            0 <= j < e.content.len() && (#[trigger] e.content[j]) is ToolUse
                ==> units_tokens(content_units(e.content)) >= 14,
{
    assert(es.push(e).drop_last() =~= es);
    let one = seq![e];
    assert(one.drop_last() =~= Seq::<EntryView>::empty());
    assert(history_units(Seq::<EntryView>::empty()) == no_units());
    assert(history_units(one) == plus(history_units(one.drop_last()), content_units(e.content)));
    assert forall|j: int| 0 <= j < e.content.len() && (#[trigger] e.content[j]) is Image implies
        units_tokens(content_units(e.content)) >= 1000 by {
        lemma_block_within(e.content, j);
    }
    assert forall|j: int| 0 <= j < e.content.len() && (#[trigger] e.content[j]) is ToolUse implies
        units_tokens(content_units(e.content)) >= 14 by {
        lemma_block_within(e.content, j);
    }
}

proof fn lemma_block_within(content: Seq<BlockView>, j: int)
    requires
        0 <= j < content.len(),
    ensures
        content_units(content).plain >= block_units(content[j]).plain,
        content_units(content).code >= block_units(content[j]).code,
        content_units(content).cjk >= block_units(content[j]).cjk,
    decreases content.len(),
{
    if j < content.len() - 1 {
        lemma_block_within(content.drop_last(), j);
    }
}

/// A conversation that has reached the threshold does not stay as it is without a word:
/// it is small enough once its old results are shortened, which is then reported as it
/// is, or a summary is asked for.
pub proof fn law_full_conversation_is_compacted(
    es: Seq<EntryView>,
    config: CompactConfig,
    extra: usize,
)
    requires
        config.enabled,
        config.threshold_tokens is Some,
        estimated_tokens(es) + extra >= config.threshold_tokens->Some_0,
    ensures
        ({
            let (after, step) = compact_started(es, config, extra);
            &&& after.len() == es.len()
            &&& match step {
                CompactStep::Done(result) => {
                    &&& result.method == CompactMethod::Micro
                    &&& result.tokens_before == at_most_max(estimated_tokens(es) + extra as nat)
                    &&& result.tokens_after == at_most_max(estimated_tokens(after) + extra as nat)
                    &&& result.tokens_after < config.threshold_tokens->Some_0
                },
                CompactStep::Summarize(run) => {
                    &&& run.tokens_before == at_most_max(estimated_tokens(es) + extra as nat)
                    &&& run.extra_tokens == extra
                    &&& run.attempt == 0
                },
                _ => false,
            }
        }),
{
}

/// A summary takes the place of the older entries and says all that the model said; the
/// recent entries stay, and the size is reported as it is. A compaction that fails leaves
/// the conversation, and says why.
pub proof fn law_summary_takes_the_place(
    es: Seq<EntryView>,
    config: CompactConfig,
    run: CompactRun,
    reply: Result<Text, Text>,
)
    requires
        config.keep_recent < es.len(),
    ensures
        ({
            let (after, step) = compact_replied(es, config, run, reply, false);
            match reply {
                Ok(summary) => {
                    &&& after.len() > config.keep_recent
                    &&& after.skip(after.len() - config.keep_recent) == es.skip(
                        es.len() - config.keep_recent,
                    )
                    &&& after[0].role == Role::User
                    &&& after[0].content.len() == 1
                    &&& after[0].content[0] matches ContentBlock::Text { text }
                        && text::has_substring(text, summary)
                    &&& step matches CompactStep::Done(result) && result.method
                        == CompactMethod::Full && result.tokens_before == run.tokens_before
                        && result.tokens_after == at_most_max(
                        estimated_tokens(after) + run.extra_tokens as nat,
                    )
                },
                Err(msg) => after == es && step == CompactStep::Failed(
                    CompactError::LlmFailed(msg),
                ),
            }
        }),
{
    if let Ok(summary) = reply {
        lemma_recent_entries_stay(es, summary, config.keep_recent as int);
        messages::law_summary_says_it(es, summary, config.keep_recent as int);
    }
}

proof fn lemma_recent_entries_stay(es: Seq<EntryView>, summary: Text, keep: int)
    requires
        0 <= keep < es.len(),
    ensures
        ({
            let after = messages::summarized(es, summary, keep);
            &&& after.len() > keep
            &&& after.skip(after.len() - keep) == es.skip(es.len() - keep)
            &&& after[0].role == Role::User
        }),
{
    messages::law_summary_keeps_recent(es, summary, keep);
    messages::law_safe_split(es, keep);
    let after = messages::summarized(es, summary, keep);
    let split = messages::safe_split(es, keep);
    let rest = es.skip(split);
    assert(after.skip(1) == rest);
    let kept = after.skip(after.len() - keep);
    let recent = es.skip(es.len() - keep);
    assert forall|k: int| 0 <= k < keep implies #[trigger] kept[k] == recent[k] by {
        assert(after.skip(1)[after.len() - keep + k - 1] == after[after.len() - keep + k]);
        assert(rest[after.len() - keep + k - 1] == es[es.len() - keep + k]);
    }
    assert(kept =~= recent);
}

/// A long text keeps its first 900 and its last 501 characters, but for white space
/// where it is cut, and becomes shorter; how many characters are left out is said.
pub proof fn law_collapse_keeps_both_ends(s: Text)
    requires
        s.len() > 2400,
    ensures
        text::has_prefix(collapsed_text(s), text::trimmed_end(s.take(900))),
        text::has_suffix(collapsed_text(s), text::trimmed_start(s.skip(s.len() - 501))),
        text::has_substring(collapsed_text(s), text::decimal((s.len() - 501 - 900) as nat)),
        collapsed_block(ContentBlock::Text { text: s }) matches ContentBlock::Text { text } && text
            == collapsed_text(s),
{
    let c = collapsed_text(s);
    let head = text::trimmed_end(s.take(900));
    let tail = text::trimmed_start(s.skip(s.len() - 501));
    let n = text::decimal((s.len() - 501 - 900) as nat);
    assert(c.subrange(0, head.len() as int) =~= head);
    let at = c.len() - tail.len();
    assert(c.subrange(at, c.len() as int) =~= tail);
    let from: int = (head.len() + "\n...[collapsed "@.len()) as int;
    assert(c.subrange(from, from + n.len()) =~= n);
    assert(text::occurs_at(c, n, from));
}

/// Only long texts are collapsed: a text of at most 2400 characters, a call, a result and
/// a picture stay as they are.
pub proof fn law_collapse_touches_long_texts_alone(b: BlockView)
    requires
        b matches ContentBlock::Text { text } ==> text.len() <= 2400,
    ensures
        collapsed_block(b) == b,
{
}

/// The working memory and what an external memory had to add both reach the model that
/// summarises.
pub proof fn law_summary_context_holds_both(carryover: Text, insight: Text)
    ensures
        combined_context(Some(carryover), insight) matches Some(both) && text::has_prefix(
            both,
            carryover,
        ) && text::has_suffix(both, insight),
        insight.len() > 0 ==> (combined_context(None, insight) matches Some(both)
            && text::has_suffix(both, insight)),
        insight.len() == 0 ==> combined_context(None, insight) is None,
{
    let both = combined_context(Some(carryover), insight)->Some_0;
    assert(both.subrange(0, carryover.len() as int) =~= carryover);
    assert(both.subrange(both.len() - insight.len(), both.len() as int) =~= insight);
    if insight.len() > 0 {
        let alone = combined_context(None, insight)->Some_0;
        assert(alone.subrange(alone.len() - insight.len(), alone.len() as int) =~= insight);
    }
}

/// The estimate of what else a request carries counts the whole prompt and every schema:
/// at least two tokens for seven characters of the prompt, and one for four bytes of a
/// schema.
pub proof fn law_extra_tokens_count_everything(prompt: Text, schemas: Seq<Text>, i: int)
    requires
        0 <= i < schemas.len(),
    ensures
        extra_tokens(prompt, schemas) == usize::MAX || (extra_tokens(prompt, schemas) * 7 + 11
            >= prompt.len() * 2 && extra_tokens(prompt, schemas) >= text::byte_len(schemas[i])
            / 4),
{
    lemma_plain_bytes(prompt);
    lemma_schema_within(schemas, i);
}

proof fn lemma_plain_bytes(s: Text)
    ensures
        plain_bytes(s) + cjk_chars(s) >= s.len(),
    decreases s.len(),
{
    if s.len() > 0 {
        lemma_plain_bytes(s.drop_last());
    }
}

proof fn lemma_schema_within(schemas: Seq<Text>, i: int)
    requires
        0 <= i < schemas.len(),
    ensures
        schema_tokens(schemas) >= text::byte_len(schemas[i]) / 4,
    decreases schemas.len(),
{
    if i < schemas.len() - 1 {
        lemma_schema_within(schemas.drop_last(), i);
    }
}

/// The first step of a compaction cuts old results to 200 characters and touches nothing
/// else: what is not a result, what is short, and the recent entries stay.
pub proof fn law_old_results_are_cut_to_200(
    es: Seq<EntryView>,
    keep_recent: int,
    i: int,
    j: int,
)
    requires
        0 <= keep_recent,
        0 <= i < es.len(),
        0 <= j < es[i].content.len(),
    ensures
        ({
            let before = es[i].content[j];
            let after = micro_compacted(es, keep_recent)[i].content[j];
            &&& !(before is ToolResult) ==> after == before
            &&& before matches ContentBlock::ToolResult { tool_use_id, content, is_error } ==> (
            after matches ContentBlock::ToolResult {
                tool_use_id: id,
                content: cut,
                is_error: failed,
            } && id == tool_use_id && failed == is_error && (cut == content || (i
                < messages::safe_split(es, keep_recent) && content.len() > 200 && cut
                == content.take(200) + "..."@)) && (i < messages::safe_split(es, keep_recent)
                ==> cut.len() <= 203))
        }),
{
    reveal_strlit("...");
    messages::law_shortened_results_keep_their_start(es, keep_recent, 200, i, j);
}

/// Long texts of older entries are collapsed, each of them, where the conversation has
/// more entries than are kept and two.
pub proof fn law_old_long_texts_are_collapsed(
    es: Seq<EntryView>,
    keep_recent: int,
    i: int,
    j: int,
)
    requires
        0 <= keep_recent,
        es.len() > keep_recent + 2,
        0 <= i < messages::safe_split(es, keep_recent),
        i < es.len(),
        0 <= j < es[i].content.len(),
        es[i].content[j] matches ContentBlock::Text { text } && text.len() > 2400,
    ensures
        collapsed(es, keep_recent)[i].content[j] matches ContentBlock::Text { text } && text
            == collapsed_text(es[i].content[j]->text),
{
}

/// A conversation in which the user asked for something after its start can be made
/// shorter by its oldest rounds.
pub proof fn law_long_conversations_can_be_shortened(es: Seq<EntryView>, k: int)
    requires
        0 < k < es.len(),
        starts_round(es[k]),
    ensures
        without_oldest(es) is Some,
{
    lemma_rounds(es);
    lemma_two_rounds(es, k);
}

proof fn lemma_two_rounds(es: Seq<EntryView>, k: int)
    requires
        0 < k < es.len(),
        starts_round(es[k]),
    ensures
        rounds(es).len() >= 2,
    decreases es.len(),
{
    let rest = es.drop_last();
    lemma_some_round(rest);
    if k < es.len() - 1 {
        assert(rest[k] == es[k]);
        lemma_two_rounds(rest, k);
    }
}

proof fn lemma_some_round(es: Seq<EntryView>)
    ensures
        es.len() > 0 ==> rounds(es).len() >= 1,
    decreases es.len(),
{
    if es.len() > 0 {
        lemma_some_round(es.drop_last());
    }
}

/// A server's refusal is about the length of the conversation where it says so in any of
/// the usual ways; and what is no server's refusal is not.
pub proof fn law_length_refusals_are_known(e: ApiError<Text>)
    ensures
        e matches ApiError::Http { body, .. } ==> {
            let said = text::lowercased(body);
            is_too_long(e) == (text::has_substring(said, "prompt too long"@) || text::has_substring(
                said,
                "context length"@,
            ) || text::has_substring(said, "too many tokens"@) || text::has_substring(
                said,
                "maximum context"@,
            ) || text::has_substring(said, "too large for the model"@))
        },
        e is Other ==> !is_too_long(e),
{
}

} // verus!
