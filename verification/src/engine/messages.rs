//! The conversation so far.

use crate::api;
use crate::api::BlockView;
use crate::api::ContentBlock;
use crate::api::Message;
use crate::api::Role;
use crate::json::Json;
use crate::json::JsonView;
use crate::text;
use crate::text::Text;
use vstd::prelude::*;
use vstd::string::*;

verus! {

/// One entry of the conversation.
pub struct ConversationEntry {
    pub role: Role,
    pub content: Vec<ContentBlock>,
    /// The provider's reasoning, echoed back to it.
    pub reasoning_content: Option<String>,
}

/// What an entry holds.
#[verifier::ext_equal]
pub struct EntryView {
    pub role: Role,
    pub content: Seq<BlockView>,
    pub reasoning_content: Option<Text>,
}

impl View for ConversationEntry {
    type V = EntryView;

    open spec fn view(&self) -> EntryView {
        EntryView {
            role: self.role,
            content: api::blocks(self.content@),
            reasoning_content: text::opt_text(self.reasoning_content),
        }
    }
}

impl View for Message {
    type V = EntryView;

    open spec fn view(&self) -> EntryView {
        EntryView {
            role: self.role,
            content: api::blocks(self.content@),
            reasoning_content: text::opt_text(self.reasoning_content),
        }
    }
}

/// What a list of entries holds.
pub open spec fn entries_view(v: Seq<ConversationEntry>) -> Seq<EntryView> {
    Seq::new(v.len(), |i: int| v[i]@)
}

/// What a list of messages holds.
pub open spec fn messages_view(v: Seq<Message>) -> Seq<EntryView> {
    Seq::new(v.len(), |i: int| v[i]@)
}

impl ConversationEntry {
    /// A copy of the entry.
    pub fn copy(&self) -> (r: ConversationEntry)
        ensures
            r@ == self@,
    {
        ConversationEntry {
            role: self.role,
            content: api::copy_blocks(&self.content),
            reasoning_content: text::copy_opt(&self.reasoning_content),
        }
    }
}

/// A copy of a list of entries.
pub fn copy_entries(v: &Vec<ConversationEntry>) -> (r: Vec<ConversationEntry>)
    ensures
        entries_view(r@) == entries_view(v@),
{
    let mut r: Vec<ConversationEntry> = Vec::new();
    let mut i: usize = 0;
    while i < v.len()
        invariant
            i <= v@.len(),
            r@.len() == i,
            forall|j: int| 0 <= j < i ==> r@[j]@ == v@[j]@,
        decreases v@.len() - i,
    {
        r.push(v[i].copy());
        i = i + 1;
    }
    assert(entries_view(r@) =~= entries_view(v@));
    r
}

/// The conversation.
pub struct ConversationHistory {
    entries: Vec<ConversationEntry>,
}

impl View for ConversationHistory {
    type V = Seq<EntryView>;

    closed spec fn view(&self) -> Seq<EntryView> {
        entries_view(self.entries@)
    }
}

impl Default for ConversationHistory {
    fn default() -> (r: ConversationHistory)
        ensures
            r@ == Seq::<EntryView>::empty(),
    {
        ConversationHistory::new()
    }
}

/// An entry without reasoning.
pub open spec fn plain_entry(role: Role, content: Seq<BlockView>) -> EntryView {
    EntryView { role, content, reasoning_content: None }
}

/// An entry of one text.
pub open spec fn text_entry(role: Role, s: Text) -> EntryView {
    plain_entry(role, seq![ContentBlock::Text { text: s }])
}

impl ConversationHistory {
    /// An empty conversation.
    pub fn new() -> (r: ConversationHistory)
        ensures
            r@ == Seq::<EntryView>::empty(),
    {
        let r = ConversationHistory { entries: Vec::new() };
        assert(r@ =~= Seq::<EntryView>::empty());
        r
    }

    fn push_entry(&mut self, entry: ConversationEntry)
        ensures
            final(self)@ == old(self)@.push(entry@),
    {
        let ghost was = self@;
        let ghost e = entry@;
        self.entries.push(entry);
        assert(self@ =~= was.push(e));
    }

    /// Add a user message of one text.
    pub fn push_user(&mut self, text: &str)
        ensures
            final(self)@ == old(self)@.push(text_entry(Role::User, text@)),
    {
        let mut content: Vec<ContentBlock> = Vec::new();
        content.push(ContentBlock::Text { text: text::copy(text) });
        let entry = ConversationEntry { role: Role::User, content, reasoning_content: None };
        assert(entry@ =~= text_entry(Role::User, text@));
        self.push_entry(entry);
    }

    /// Add a user message of several blocks.
    pub fn push_user_blocks(&mut self, blocks: Vec<ContentBlock>)
        ensures
            final(self)@ == old(self)@.push(plain_entry(Role::User, api::blocks(blocks@))),
    {
        self.push_entry(
            ConversationEntry { role: Role::User, content: blocks, reasoning_content: None },
        );
    }

    /// Add an assistant message of several blocks.
    pub fn push_assistant_blocks(&mut self, blocks: Vec<ContentBlock>)
        ensures
            final(self)@ == old(self)@.push(plain_entry(Role::Assistant, api::blocks(blocks@))),
    {
        self.push_entry(
            ConversationEntry { role: Role::Assistant, content: blocks, reasoning_content: None },
        );
    }

    /// Add an assistant message with its reasoning.
    pub fn push_assistant_with_reasoning(
        &mut self,
        blocks: Vec<ContentBlock>,
        reasoning_content: Option<String>,
    )
        ensures
            final(self)@ == old(self)@.push(
                EntryView {
                    role: Role::Assistant,
                    content: api::blocks(blocks@),
                    reasoning_content: text::opt_text(reasoning_content),
                },
            ),
    {
        self.push_entry(
            ConversationEntry { role: Role::Assistant, content: blocks, reasoning_content },
        );
    }

    /// Add the results of tool calls, as a user message.
    pub fn push_tool_results(&mut self, results: Vec<ContentBlock>)
        ensures
            final(self)@ == old(self)@.push(plain_entry(Role::User, api::blocks(results@))),
    {
        self.push_entry(
            ConversationEntry { role: Role::User, content: results, reasoning_content: None },
        );
    }

    /// The number of entries.
    pub fn len(&self) -> (r: usize)
        ensures
            r == self@.len(),
    {
        self.entries.len()
    }

    /// Whether the conversation is empty.
    pub fn is_empty(&self) -> (r: bool)
        ensures
            r == (self@.len() == 0),
    {
        self.entries.len() == 0
    }

    /// The entries.
    pub fn entries_raw(&self) -> (r: &Vec<ConversationEntry>)
        ensures
            entries_view(r@) == self@,
    {
        &self.entries
    }

    /// The entries, to be changed in place.
    pub fn entries_mut(&mut self) -> (r: &mut Vec<ConversationEntry>)
        ensures
            entries_view(r@) == old(self)@,
            final(self)@ == entries_view(final(r)@),
    {
        &mut self.entries
    }

    /// A conversation of given entries.
    pub fn from_entries(entries: Vec<ConversationEntry>) -> (r: ConversationHistory)
        ensures
            r@ == entries_view(entries@),
    {
        ConversationHistory { entries }
    }

    /// Drop every entry.
    pub fn clear(&mut self)
        ensures
            final(self)@ == Seq::<EntryView>::empty(),
    {
        self.entries.clear();
        assert(self@ =~= Seq::<EntryView>::empty());
    }

    /// The conversation as it is sent to the API.
    pub fn to_api_messages(&self) -> (r: Vec<Message>)
        ensures
            messages_view(r@) == self@,
    {
        let mut r: Vec<Message> = Vec::new();
        let mut i: usize = 0;
        while i < self.entries.len()
            invariant
                i <= self.entries@.len(),
                r@.len() == i,
                forall|j: int| 0 <= j < i ==> (#[trigger] r@[j])@ == self.entries@[j]@,
            decreases self.entries@.len() - i,
        {
            let e = &self.entries[i];
            r.push(
                Message {
                    role: e.role,
                    content: api::copy_blocks(&e.content),
                    reasoning_content: text::copy_opt(&e.reasoning_content),
                },
            );
            i = i + 1;
        }
        assert(messages_view(r@) =~= self@);
        r
    }
}

// ---------------------------------------------------------------------------
// Tool calls and their results
// ---------------------------------------------------------------------------

/// The identifier of the tool call that a block is.
pub open spec fn use_id(b: BlockView) -> Option<Text> {
    match b {
        ContentBlock::ToolUse { id, .. } => Some(id),
        _ => None,
    }
}

/// The identifier of the tool call that a block answers.
pub open spec fn result_id(b: BlockView) -> Option<Text> {
    match b {
        ContentBlock::ToolResult { tool_use_id, .. } => Some(tool_use_id),
        _ => None,
    }
}

/// Whether one of the blocks is the tool call `id`.
pub open spec fn content_calls(content: Seq<BlockView>, id: Text) -> bool {
    exists|j: int| 0 <= j < content.len() && use_id(#[trigger] content[j]) == Some(id)
}

/// Whether one of the blocks answers the tool call `id`.
pub open spec fn content_answers(content: Seq<BlockView>, id: Text) -> bool {
    exists|j: int| 0 <= j < content.len() && result_id(#[trigger] content[j]) == Some(id)
}

/// Whether the tool call `id` stands in the conversation.
pub open spec fn is_called(es: Seq<EntryView>, id: Text) -> bool {
    exists|i: int| 0 <= i < es.len() && content_calls((#[trigger] es[i]).content, id)
}

/// Whether a result of the tool call `id` stands in the conversation.
pub open spec fn is_answered(es: Seq<EntryView>, id: Text) -> bool {
    exists|i: int| 0 <= i < es.len() && content_answers((#[trigger] es[i]).content, id)
}

/// Whether a block may stay in an entry of the given role: a call of the
/// assistant needs a result, and a result of the user needs a call.
pub open spec fn has_partner(es: Seq<EntryView>, role: Role, b: BlockView) -> bool {
    match (role, b) {
        (Role::Assistant, ContentBlock::ToolUse { id, .. }) => is_answered(es, id),
        (Role::User, ContentBlock::ToolResult { tool_use_id, .. }) => is_called(es, tool_use_id),
        _ => true,
    }
}

/// The blocks of an entry that have their partner in the conversation `es`.
pub open spec fn partnered(es: Seq<EntryView>, e: EntryView) -> Seq<BlockView> {
    e.content.filter(|b: BlockView| has_partner(es, e.role, b))
}

/// Whether an entry holds reasoning.
pub open spec fn has_reasoning(e: EntryView) -> bool {
    match e.reasoning_content {
        Some(rc) => !text::is_blank(rc),
        None => false,
    }
}

/// Whether a block is a blank text.
pub open spec fn is_blank_text(b: BlockView) -> bool {
    match b {
        ContentBlock::Text { text } => text::is_blank(text),
        _ => false,
    }
}

/// Whether a content is nothing but blank text.
pub open spec fn all_blank(content: Seq<BlockView>) -> bool {
    forall|j: int| 0 <= j < content.len() ==> is_blank_text(#[trigger] content[j])
}

/// What becomes of an entry: blocks without a partner in `es` go, and with them an
/// assistant entry that they leave with nothing to say, or a user entry that they
/// leave empty.
pub open spec fn cleaned_entry(es: Seq<EntryView>, e: EntryView) -> Option<EntryView> {
    let content = partnered(es, e);
    if e.role == Role::Assistant && !has_reasoning(e) && all_blank(content) {
        None
    } else if e.role == Role::User && content.len() == 0 && e.content.len() > 0 {
        None
    } else {
        Some(EntryView { content, ..e })
    }
}

/// The conversation without the unanswered calls of its last entry, where that
/// is the assistant's: what an interrupted turn leaves behind.
pub open spec fn without_trailing_calls(es: Seq<EntryView>) -> Seq<EntryView> {
    if es.len() > 0 && es.last().role == Role::Assistant && partnered(es, es.last()).len()
        < es.last().content.len() {
        let content = partnered(es, es.last());
        if content.len() == 0 {
            es.drop_last()
        } else {
            es.drop_last().push(EntryView { content, ..es.last() })
        }
    } else {
        es
    }
}

/// The conversation as the API accepts it.
pub open spec fn sanitized(es: Seq<EntryView>) -> Seq<EntryView> {
    without_trailing_calls(es).filter_map(|e: EntryView| cleaned_entry(es, e))
}

/// A list of strings without repetition: a set.
struct IdSet {
    ids: Vec<String>,
}

impl IdSet {
    spec fn has(self, id: Text) -> bool {
        text::texts(self.ids@).contains(id)
    }

    fn new() -> (r: IdSet)
        ensures
            forall|id: Text| !r.has(id),
    {
        IdSet { ids: Vec::new() }
    }

    fn contains(&self, id: &str) -> (r: bool)
        ensures
            r == self.has(id@),
    {
        let mut i: usize = 0;
        while i < self.ids.len()
            invariant
                i <= self.ids@.len(),
                forall|j: int| 0 <= j < i ==> self.ids@[j]@ != id@,
            decreases self.ids@.len() - i,
        {
            if text::same(self.ids[i].as_str(), id) {
                assert(text::texts(self.ids@)[i as int] == id@);
                return true;
            }
            i = i + 1;
        }
        false
    }

    fn insert(&mut self, id: &str)
        ensures
            forall|x: Text| final(self).has(x) == (old(self).has(x) || x == id@),
    {
        if self.contains(id) {
            return;
        }
        let ghost was = text::texts(self.ids@);
        self.ids.push(text::copy(id));
        let ghost now = text::texts(self.ids@);
        assert(now =~= was.push(id@));
        assert forall|x: Text| now.contains(x) == (was.contains(x) || x == id@) by {
            if was.contains(x) {
                let k = choose|k: int| 0 <= k < was.len() && was[k] == x;
                assert(now[k] == x);
            }
            if x == id@ {
                assert(now[was.len() as int] == x);
            }
        }
    }
}

fn add_ids(content: &Vec<ContentBlock>, uses: &mut IdSet, results: &mut IdSet)
    ensures
        forall|id: Text|
            #![auto]
            final(uses).has(id) == (old(uses).has(id) || content_calls(api::blocks(content@), id)),
        forall|id: Text|
            #![auto]
            final(results).has(id) == (old(results).has(id) || content_answers(
                api::blocks(content@),
                id,
            )),
{
    let ghost all = api::blocks(content@);
    let mut i: usize = 0;
    assert(all.take(0) =~= Seq::<BlockView>::empty());
    while i < content.len()
        invariant
            i <= content@.len(),
            all == api::blocks(content@),
            forall|id: Text|
                #![auto]
                uses.has(id) == (old(uses).has(id) || content_calls(all.take(i as int), id)),
            forall|id: Text|
                #![auto]
                results.has(id) == (old(results).has(id) || content_answers(
                    all.take(i as int),
                    id,
                )),
        decreases content@.len() - i,
    {
        proof {
            lemma_content_push(all, i as int);
        }
        match &content[i] {
            ContentBlock::ToolUse { id, .. } => {
                uses.insert(id.as_str());
            },
            ContentBlock::ToolResult { tool_use_id, .. } => {
                results.insert(tool_use_id.as_str());
            },
            _ => {},
        }
        i = i + 1;
    }
    assert(all.take(i as int) =~= all);
}

proof fn lemma_content_push(all: Seq<BlockView>, i: int)
    requires
        0 <= i < all.len(),
    ensures
        forall|id: Text|
            #![auto]
            content_calls(all.take(i + 1), id) == (content_calls(all.take(i), id) || use_id(all[i])
                == Some(id)),
        forall|id: Text|
            #![auto]
            content_answers(all.take(i + 1), id) == (content_answers(all.take(i), id) || result_id(
                all[i],
            ) == Some(id)),
{
    let a = all.take(i);
    let b = all.take(i + 1);
    assert forall|id: Text|
        #![auto]
        content_calls(b, id) == (content_calls(a, id) || use_id(all[i]) == Some(id)) by {
        if content_calls(a, id) {
            let j = choose|j: int| 0 <= j < a.len() && use_id(#[trigger] a[j]) == Some(id);
            assert(use_id(b[j]) == Some(id));
        }
        if use_id(all[i]) == Some(id) {
            assert(use_id(b[i]) == Some(id));
        }
        if content_calls(b, id) {
            let j = choose|j: int| 0 <= j < b.len() && use_id(#[trigger] b[j]) == Some(id);
            if j < i {
                assert(use_id(a[j]) == Some(id));
            }
        }
    }
    assert forall|id: Text|
        #![auto]
        content_answers(b, id) == (content_answers(a, id) || result_id(all[i]) == Some(id)) by {
        if content_answers(a, id) {
            let j = choose|j: int| 0 <= j < a.len() && result_id(#[trigger] a[j]) == Some(id);
            assert(result_id(b[j]) == Some(id));
        }
        if result_id(all[i]) == Some(id) {
            assert(result_id(b[i]) == Some(id));
        }
        if content_answers(b, id) {
            let j = choose|j: int| 0 <= j < b.len() && result_id(#[trigger] b[j]) == Some(id);
            if j < i {
                assert(result_id(a[j]) == Some(id));
            }
        }
    }
}

proof fn lemma_called_push(es: Seq<EntryView>, i: int)
    requires
        0 <= i < es.len(),
    ensures
        forall|id: Text|
            #![auto]
            is_called(es.take(i + 1), id) == (is_called(es.take(i), id) || content_calls(
                es[i].content,
                id,
            )),
        forall|id: Text|
            #![auto]
            is_answered(es.take(i + 1), id) == (is_answered(es.take(i), id) || content_answers(
                es[i].content,
                id,
            )),
{
    let a = es.take(i);
    let b = es.take(i + 1);
    assert forall|id: Text|
        #![auto]
        is_called(b, id) == (is_called(a, id) || content_calls(es[i].content, id)) by {
        if is_called(a, id) {
            let k = choose|k: int| 0 <= k < a.len() && content_calls((#[trigger] a[k]).content, id);
            assert(content_calls(b[k].content, id));
        }
        if content_calls(es[i].content, id) {
            assert(content_calls(b[i].content, id));
        }
        if is_called(b, id) {
            let k = choose|k: int| 0 <= k < b.len() && content_calls((#[trigger] b[k]).content, id);
            if k < i {
                assert(content_calls(a[k].content, id));
            }
        }
    }
    assert forall|id: Text|
        #![auto]
        is_answered(b, id) == (is_answered(a, id) || content_answers(es[i].content, id)) by {
        if is_answered(a, id) {
            let k = choose|k: int|
                0 <= k < a.len() && content_answers((#[trigger] a[k]).content, id);
            assert(content_answers(b[k].content, id));
        }
        if content_answers(es[i].content, id) {
            assert(content_answers(b[i].content, id));
        }
        if is_answered(b, id) {
            let k = choose|k: int|
                0 <= k < b.len() && content_answers((#[trigger] b[k]).content, id);
            if k < i {
                assert(content_answers(a[k].content, id));
            }
        }
    }
}

fn collect_ids(entries: &Vec<ConversationEntry>) -> (r: (IdSet, IdSet))
    ensures
        forall|id: Text| #![auto] r.0.has(id) == is_called(entries_view(entries@), id),
        forall|id: Text| #![auto] r.1.has(id) == is_answered(entries_view(entries@), id),
{
    let ghost es = entries_view(entries@);
    let mut uses = IdSet::new();
    let mut results = IdSet::new();
    let mut i: usize = 0;
    assert(es.take(0) =~= Seq::<EntryView>::empty());
    while i < entries.len()
        invariant
            i <= entries@.len(),
            es == entries_view(entries@),
            forall|id: Text| #![auto] uses.has(id) == is_called(es.take(i as int), id),
            forall|id: Text| #![auto] results.has(id) == is_answered(es.take(i as int), id),
        decreases entries@.len() - i,
    {
        proof {
            lemma_called_push(es, i as int);
        }
        let ghost before = (uses, results);
        add_ids(&entries[i].content, &mut uses, &mut results);
        assert(es[i as int].content == api::blocks(entries@[i as int].content@));
        assert forall|id: Text| #![auto] uses.has(id) == is_called(es.take(i + 1), id) by {
            assert(uses.has(id) == (before.0.has(id) || content_calls(es[i as int].content, id)));
        }
        assert forall|id: Text| #![auto] results.has(id) == is_answered(es.take(i + 1), id) by {
            assert(results.has(id) == (before.1.has(id) || content_answers(
                es[i as int].content,
                id,
            )));
        }
        i = i + 1;
    }
    assert(es.take(i as int) =~= es);
    (uses, results)
}

fn keep_partnered(
    content: &Vec<ContentBlock>,
    role: Role,
    uses: &IdSet,
    results: &IdSet,
    es: Ghost<Seq<EntryView>>,
) -> (r: Vec<ContentBlock>)
    requires
        forall|id: Text| #![auto] uses.has(id) == is_called(es@, id),
        forall|id: Text| #![auto] results.has(id) == is_answered(es@, id),
    ensures
        api::blocks(r@) == api::blocks(content@).filter(|b: BlockView| has_partner(es@, role, b)),
{
    let ghost all = api::blocks(content@);
    let ghost pred = |b: BlockView| has_partner(es@, role, b);
    let mut out: Vec<ContentBlock> = Vec::new();
    let mut i: usize = 0;
    assert(all.take(0).filter(pred) =~= Seq::<BlockView>::empty()) by {
        assert(all.take(0) =~= Seq::<BlockView>::empty());
        reveal(Seq::filter);
    }
    while i < content.len()
        invariant
            i <= content@.len(),
            all == api::blocks(content@),
            pred == (|b: BlockView| has_partner(es@, role, b)),
            forall|id: Text| #![auto] uses.has(id) == is_called(es@, id),
            forall|id: Text| #![auto] results.has(id) == is_answered(es@, id),
            api::blocks(out@) == all.take(i as int).filter(pred),
        decreases content@.len() - i,
    {
        proof {
            assert(all.take(i + 1) =~= all.take(i as int).push(all[i as int]));
            all.take(i as int).lemma_filter_push(all[i as int], pred);
        }
        let keep = match role {
            Role::Assistant => match &content[i] {
                ContentBlock::ToolUse { id, .. } => results.contains(id.as_str()),
                _ => true,
            },
            Role::User => match &content[i] {
                ContentBlock::ToolResult { tool_use_id, .. } => uses.contains(
                    tool_use_id.as_str(),
                ),
                _ => true,
            },
        };
        assert(keep == pred(all[i as int]));
        if keep {
            let ghost was = api::blocks(out@);
            out.push(content[i].copy());
            assert(api::blocks(out@) =~= was.push(all[i as int]));
        }
        i = i + 1;
    }
    assert(all.take(i as int) =~= all);
    out
}

fn holds_reasoning(e: &ConversationEntry) -> (r: bool)
    ensures
        r == has_reasoning(e@),
{
    match &e.reasoning_content {
        Some(rc) => !text::blank(rc.as_str()),
        None => false,
    }
}

fn is_all_blank(content: &Vec<ContentBlock>) -> (r: bool)
    ensures
        r == all_blank(api::blocks(content@)),
{
    let ghost all = api::blocks(content@);
    let mut i: usize = 0;
    while i < content.len()
        invariant
            i <= content@.len(),
            all == api::blocks(content@),
            forall|j: int| 0 <= j < i ==> is_blank_text(#[trigger] all[j]),
        decreases content@.len() - i,
    {
        let blank = match &content[i] {
            ContentBlock::Text { text } => text::blank(text.as_str()),
            _ => false,
        };
        assert(blank == is_blank_text(all[i as int]));
        if !blank {
            return false;
        }
        i = i + 1;
    }
    true
}

fn clean_entry(
    e: &ConversationEntry,
    uses: &IdSet,
    results: &IdSet,
    es: Ghost<Seq<EntryView>>,
) -> (r: Option<ConversationEntry>)
    requires
        forall|id: Text| #![auto] uses.has(id) == is_called(es@, id),
        forall|id: Text| #![auto] results.has(id) == is_answered(es@, id),
    ensures
        match r {
            Some(out) => cleaned_entry(es@, e@) == Some(out@),
            None => cleaned_entry(es@, e@) is None,
        },
{
    let content = keep_partnered(&e.content, e.role, uses, results, es);
    assert(api::blocks(content@) == partnered(es@, e@));
    assert(api::blocks(content@).len() == content@.len());
    assert(e@.content.len() == e.content@.len());
    match e.role {
        Role::Assistant => {
            if !holds_reasoning(e) && is_all_blank(&content) {
                return None;
            }
        },
        Role::User => {
            if content.len() == 0 && e.content.len() > 0 {
                return None;
            }
        },
    }
    Some(
        ConversationEntry {
            role: e.role,
            content,
            reasoning_content: text::copy_opt(&e.reasoning_content),
        },
    )
}

impl ConversationHistory {
    /// Make the conversation acceptable to the API: assistant entries that say
    /// nothing go, and so do tool calls without a result and results without a
    /// call, the trailing calls of an interrupted turn among them.
    pub fn sanitize(&mut self)
        ensures
            final(self)@ == sanitized(old(self)@),
    {
        let ghost es = self@;
        let ghost f = |e: EntryView| cleaned_entry(es, e);
        let (uses, results) = collect_ids(&self.entries);

        // Calls that an interrupted turn left at the end.
        let n: usize = self.entries.len();
        if n > 0 && self.entries[n - 1].role == Role::Assistant {
            let content = keep_partnered(
                &self.entries[n - 1].content,
                Role::Assistant,
                &uses,
                &results,
                Ghost(es),
            );
            assert(api::blocks(content@) == partnered(es, es.last()));
            assert(api::blocks(content@).len() == content@.len());
            proof {
                lemma_filter_shrinks(
                    es.last().content,
                    |b: BlockView| has_partner(es, Role::Assistant, b),
                );
            }
            if content.len() < self.entries[n - 1].content.len() {
                let last = self.entries.pop();
                assert(entries_view(self.entries@) =~= es.drop_last());
                if content.len() > 0 {
                    if let Some(e) = last {
                        let trimmed = ConversationEntry {
                            role: e.role,
                            content,
                            reasoning_content: e.reasoning_content,
                        };
                        self.push_entry(trimmed);
                    }
                }
            }
        }
        let ghost ts = self@;
        assert(ts == without_trailing_calls(es));

        // Every entry.
        let mut out: Vec<ConversationEntry> = Vec::new();
        let mut i: usize = 0;
        assert(ts.take(0).filter_map(f) =~= Seq::<EntryView>::empty()) by {
            assert(ts.take(0) =~= Seq::<EntryView>::empty());
        }
        while i < self.entries.len()
            invariant
                i <= self.entries@.len(),
                ts == entries_view(self.entries@),
                f == (|e: EntryView| cleaned_entry(es, e)),
                forall|id: Text| #![auto] uses.has(id) == is_called(es, id),
                forall|id: Text| #![auto] results.has(id) == is_answered(es, id),
                entries_view(out@) == ts.take(i as int).filter_map(f),
            decreases self.entries@.len() - i,
        {
            proof {
                ts.lemma_filter_map_take_succ(f, i as int);
            }
            let ghost was = entries_view(out@);
            if let Some(e) = clean_entry(&self.entries[i], &uses, &results, Ghost(es)) {
                let ghost ev = e@;
                out.push(e);
                assert(entries_view(out@) =~= was.push(ev));
                assert(f(ts[i as int]) == Some(ev));
                assert(entries_view(out@) =~= was + seq![ev]);
            } else {
                assert(was =~= was + Seq::<EntryView>::empty());
            }
            i = i + 1;
        }
        assert(ts.take(i as int) =~= ts);
        self.entries = out;
    }
}

proof fn lemma_filter_shrinks(s: Seq<BlockView>, pred: spec_fn(BlockView) -> bool)
    ensures
        s.filter(pred).len() <= s.len(),
{
    s.lemma_filter_len(pred);
}

// ---------------------------------------------------------------------------
// Guidance from the user
// ---------------------------------------------------------------------------

/// Whether one of the blocks is the result of a tool call.
pub open spec fn holds_result(content: Seq<BlockView>) -> bool {
    exists|j: int| 0 <= j < content.len() && (#[trigger] content[j]) is ToolResult
}

/// The lines of guidance that hold anything.
pub open spec fn guidance_lines(steer: Text) -> Seq<Text> {
    text::split_at_char(steer, '\n').filter(|l: Text| l.len() > 0)
}

/// One line of guidance as the model reads it, numbered where there are more.
pub open spec fn guidance_label(lines: Seq<Text>, i: int) -> Text {
    if lines.len() == 1 {
        "[User guidance]: "@ + lines[i]
    } else {
        "[User guidance "@ + text::decimal((i + 1) as nat) + "/"@ + text::decimal(lines.len())
            + "]: "@ + lines[i]
    }
}

/// The blocks that carry guidance.
pub open spec fn guidance_blocks(steer: Text) -> Seq<BlockView> {
    let lines = guidance_lines(steer);
    Seq::new(
        lines.len(),
        |i: int| ContentBlock::<Text, JsonView>::Text { text: guidance_label(lines, i) },
    )
}

/// The conversation with guidance beside the tool results of its last entry.
pub open spec fn with_guidance(es: Seq<EntryView>, steer: Text) -> Seq<EntryView> {
    let last = es.last();
    es.drop_last().push(EntryView { content: last.content + guidance_blocks(steer), ..last })
}

/// Whether guidance can be put beside tool results.
pub open spec fn takes_guidance(es: Seq<EntryView>) -> bool {
    es.len() > 0 && holds_result(es.last().content)
}

/// Whether one of the blocks is the result of a tool call.
pub fn has_result_block(content: &Vec<ContentBlock>) -> (r: bool)
    ensures
        r == holds_result(api::blocks(content@)),
{
    let ghost all = api::blocks(content@);
    let mut i: usize = 0;
    while i < content.len()
        invariant
            i <= content@.len(),
            all == api::blocks(content@),
            forall|j: int| 0 <= j < i ==> !((#[trigger] all[j]) is ToolResult),
        decreases content@.len() - i,
    {
        let is_result = match &content[i] {
            ContentBlock::ToolResult { .. } => true,
            _ => false,
        };
        assert(is_result == (all[i as int] is ToolResult));
        if is_result {
            return true;
        }
        i = i + 1;
    }
    false
}

fn nonempty_lines(steer: &str) -> (r: Vec<String>)
    ensures
        text::texts(r@) == guidance_lines(steer@),
{
    let pieces = text::split_char(steer, '\n');
    let ghost all = text::texts(pieces@);
    let ghost pred = |l: Text| l.len() > 0;
    let mut out: Vec<String> = Vec::new();
    let mut i: usize = 0;
    assert(all.take(0).filter(pred) =~= Seq::<Text>::empty()) by {
        assert(all.take(0) =~= Seq::<Text>::empty());
        reveal(Seq::filter);
    }
    while i < pieces.len()
        invariant
            i <= pieces@.len(),
            all == text::texts(pieces@),
            pred == (|l: Text| l.len() > 0),
            text::texts(out@) == all.take(i as int).filter(pred),
        decreases pieces@.len() - i,
    {
        proof {
            assert(all.take(i + 1) =~= all.take(i as int).push(all[i as int]));
            all.take(i as int).lemma_filter_push(all[i as int], pred);
        }
        if !pieces[i].as_str().is_empty() {
            let ghost was = text::texts(out@);
            out.push(text::copy(pieces[i].as_str()));
            assert(text::texts(out@) =~= was.push(all[i as int]));
        }
        i = i + 1;
    }
    assert(all.take(i as int) =~= all);
    out
}

impl ConversationHistory {
    /// Put guidance from the user beside the tool results of the last entry, one
    /// block for each line. Returns whether there were tool results there.
    pub fn append_steer_to_last_tool_result(&mut self, steer_text: &str) -> (r: bool)
        ensures
            r == takes_guidance(old(self)@),
            r ==> final(self)@ == with_guidance(old(self)@, steer_text@),
            !r ==> final(self)@ == old(self)@,
    {
        let ghost es = self@;
        let n: usize = self.entries.len();
        if n == 0 {
            return false;
        }
        assert(es.last() == self.entries@.last()@);
        if !has_result_block(&self.entries[n - 1].content) {
            return false;
        }
        let lines = nonempty_lines(steer_text);
        let ghost ls = text::texts(lines@);
        let ghost more = guidance_blocks(steer_text@);
        let mut content = api::copy_blocks(&self.entries[n - 1].content);
        let ghost before = api::blocks(content@);
        let total = text::count(lines.len());
        let mut i: usize = 0;
        assert(before + more.take(0) =~= before);
        while i < lines.len()
            invariant
                i <= lines@.len(),
                ls == text::texts(lines@),
                ls == guidance_lines(steer_text@),
                more == guidance_blocks(steer_text@),
                total@ == text::decimal(lines@.len()),
                api::blocks(content@) == before + more.take(i as int),
            decreases lines@.len() - i,
        {
            let label = if lines.len() == 1 {
                text::cat2("[User guidance]: ", lines[i].as_str())
            } else {
                let k = text::count(i + 1);
                text::cat6(
                    "[User guidance ",
                    k.as_str(),
                    "/",
                    total.as_str(),
                    "]: ",
                    lines[i].as_str(),
                )
            };
            assert(label@ == guidance_label(ls, i as int));
            let ghost was = api::blocks(content@);
            content.push(ContentBlock::Text { text: label });
            assert(api::blocks(content@) =~= was.push(more[i as int]));
            assert(before + more.take(i + 1) =~= (before + more.take(i as int)).push(
                more[i as int],
            ));
            i = i + 1;
        }
        assert(more.take(i as int) =~= more);
        let last = self.entries.pop();
        assert(entries_view(self.entries@) =~= es.drop_last());
        if let Some(e) = last {
            self.push_entry(
                ConversationEntry {
                    role: e.role,
                    content,
                    reasoning_content: e.reasoning_content,
                },
            );
        }
        true
    }
}

// ---------------------------------------------------------------------------
// Split points
// ---------------------------------------------------------------------------

/// Whether a split before entry `idx` would part an assistant's tool call from
/// its result.
pub open spec fn crosses_pair(es: Seq<EntryView>, idx: int) -> bool {
    0 < idx < es.len() && es[idx - 1].role == Role::Assistant && es[idx].role == Role::User
        && exists|id: Text|
        #![auto]
        content_calls(es[idx - 1].content, id) && content_answers(es[idx].content, id)
}

/// The last position up to `split` that parts no tool call from its result.
pub open spec fn walked_back(es: Seq<EntryView>, split: int) -> int
    decreases split,
{
    if split > 0 && crosses_pair(es, split) {
        walked_back(es, split - 1)
    } else {
        split
    }
}

/// Where the conversation is split so that the last `keep_recent` entries stay,
/// and with them the call that an entry among them answers.
pub open spec fn safe_split(es: Seq<EntryView>, keep_recent: int) -> int {
    if es.len() <= keep_recent {
        0
    } else {
        walked_back(es, es.len() - keep_recent)
    }
}

proof fn lemma_walked_back(es: Seq<EntryView>, split: int)
    requires
        0 <= split,
    ensures
        0 <= walked_back(es, split) <= split,
        !crosses_pair(es, walked_back(es, split)),
        forall|j: int| walked_back(es, split) < j <= split ==> crosses_pair(es, j),
    decreases split,
{
    if split > 0 && crosses_pair(es, split) {
        lemma_walked_back(es, split - 1);
    }
}

/// The split keeps at least `keep_recent` entries, parts no tool call from its
/// result, and no later position would do both.
pub proof fn law_safe_split(es: Seq<EntryView>, keep_recent: int)
    requires
        0 <= keep_recent,
    ensures
        0 <= safe_split(es, keep_recent) <= es.len(),
        es.len() > keep_recent ==> es.len() - safe_split(es, keep_recent) >= keep_recent,
        !crosses_pair(es, safe_split(es, keep_recent)),
        forall|j: int|
            safe_split(es, keep_recent) < j <= es.len() - keep_recent ==> crosses_pair(es, j),
{
    if es.len() > keep_recent {
        lemma_walked_back(es, es.len() - keep_recent);
    }
}

/// Whether splitting at `idx` would separate an assistant's tool call from the
/// user's result of it.
pub fn boundary_crosses_tool_pair(entries: &Vec<ConversationEntry>, idx: usize) -> (r: bool)
    ensures
        r == crosses_pair(entries_view(entries@), idx as int),
{
    let ghost es = entries_view(entries@);
    if idx == 0 || idx >= entries.len() {
        return false;
    }
    let prev = &entries[idx - 1];
    let curr = &entries[idx];
    assert(es[idx - 1] == prev@);
    assert(es[idx as int] == curr@);
    if prev.role != Role::Assistant || curr.role != Role::User {
        return false;
    }
    let mut ignored = IdSet::new();
    let mut answered = IdSet::new();
    add_ids(&curr.content, &mut ignored, &mut answered);
    assert(forall|id: Text|
        #![auto]
        answered.has(id) == content_answers(es[idx as int].content, id));
    let mut i: usize = 0;
    while i < prev.content.len()
        invariant
            i <= prev.content@.len(),
            0 < idx < entries@.len(),
            es == entries_view(entries@),
            es[idx - 1] == prev@,
            es[idx - 1].role == Role::Assistant,
            es[idx as int].role == Role::User,
            forall|id: Text|
                #![auto]
                answered.has(id) == content_answers(es[idx as int].content, id),
            forall|j: int, id: Text|
                0 <= j < i && use_id(#[trigger] prev@.content[j]) == Some(id)
                    ==> !#[trigger] content_answers(es[idx as int].content, id),
        decreases prev.content@.len() - i,
    {
        assert(prev@.content[i as int] == prev.content@[i as int]@);
        if let ContentBlock::ToolUse { id, .. } = &prev.content[i] {
            if answered.contains(id.as_str()) {
                assert(use_id(es[idx - 1].content[i as int]) == Some(id@));
                assert(content_calls(es[idx - 1].content, id@));
                return true;
            }
        }
        i = i + 1;
    }
    proof {
        if crosses_pair(es, idx as int) {
            let id = choose|id: Text|
                #![auto]
                content_calls(es[idx - 1].content, id) && content_answers(
                    es[idx as int].content,
                    id,
                );
            let j = choose|j: int|
                0 <= j < prev@.content.len() && use_id(#[trigger] prev@.content[j]) == Some(id);
            assert(use_id(prev@.content[j]) == Some(id));
            assert(!content_answers(es[idx as int].content, id));
        }
    }
    false
}

/// The split that keeps the last `keep_recent` entries and parts no tool call
/// from its result.
pub fn find_safe_split_point(entries: &Vec<ConversationEntry>, keep_recent: usize) -> (r: usize)
    ensures
        r == safe_split(entries_view(entries@), keep_recent as int),
        r <= entries@.len(),
{
    let total: usize = entries.len();
    if total <= keep_recent {
        return 0;
    }
    let mut split: usize = total - keep_recent;
    while split > 0 && boundary_crosses_tool_pair(entries, split)
        invariant
            split <= entries@.len(),
            walked_back(entries_view(entries@), split as int) == safe_split(
                entries_view(entries@),
                keep_recent as int,
            ),
        decreases split,
    {
        split = split - 1;
    }
    split
}

// ---------------------------------------------------------------------------
// Compaction
// ---------------------------------------------------------------------------

/// A tool result of more than `max_chars` characters, cut to as many and marked.
pub open spec fn shortened_result(content: Text, max_chars: int) -> Text {
    if content.len() > max_chars {
        text::first_chars(content, max_chars) + "..."@
    } else {
        content
    }
}

/// A block with its tool result shortened.
pub open spec fn shortened_block(b: BlockView, max_chars: int) -> BlockView {
    match b {
        ContentBlock::ToolResult { tool_use_id, content, is_error } => ContentBlock::ToolResult {
            tool_use_id,
            content: shortened_result(content, max_chars),
            is_error,
        },
        _ => b,
    }
}

/// Whether a block is a tool result that is too long.
pub open spec fn is_long_result(b: BlockView, max_chars: int) -> bool {
    match b {
        ContentBlock::ToolResult { content, .. } => content.len() > max_chars,
        _ => false,
    }
}

/// An entry with its tool results shortened.
pub open spec fn shortened_entry(e: EntryView, max_chars: int) -> EntryView {
    EntryView {
        content: Seq::new(e.content.len(), |j: int| shortened_block(e.content[j], max_chars)),
        ..e
    }
}

/// Whether an entry holds a tool result that is too long.
pub open spec fn has_long_result(e: EntryView, max_chars: int) -> bool {
    exists|j: int| 0 <= j < e.content.len() && is_long_result(#[trigger] e.content[j], max_chars)
}

/// The conversation with the tool results before `cutoff` shortened.
pub open spec fn shortened_before(es: Seq<EntryView>, cutoff: int, max_chars: int) -> Seq<
    EntryView,
> {
    Seq::new(
        es.len(),
        |i: int|
            if i < cutoff {
                shortened_entry(es[i], max_chars)
            } else {
                es[i]
            },
    )
}

/// Whether an entry before `cutoff` holds a tool result that is too long.
pub open spec fn long_before(es: Seq<EntryView>, cutoff: int, max_chars: int) -> bool {
    exists|i: int| 0 <= i < cutoff && has_long_result(#[trigger] es[i], max_chars)
}

fn shorten_content(content: &Vec<ContentBlock>, max_chars: usize) -> (r: (Vec<ContentBlock>, bool))
    ensures
        api::blocks(r.0@) == Seq::new(
            content@.len(),
            |j: int| shortened_block(content@[j]@, max_chars as int),
        ),
        r.1 == exists|j: int|
            0 <= j < content@.len() && is_long_result(#[trigger] content@[j]@, max_chars as int),
{
    let mut out: Vec<ContentBlock> = Vec::new();
    let mut modified = false;
    let mut i: usize = 0;
    while i < content.len()
        invariant
            i <= content@.len(),
            out@.len() == i,
            forall|j: int|
                0 <= j < i ==> (#[trigger] out@[j])@ == shortened_block(
                    content@[j]@,
                    max_chars as int,
                ),
            modified == exists|j: int|
                0 <= j < i && is_long_result(#[trigger] content@[j]@, max_chars as int),
        decreases content@.len() - i,
    {
        let mut block = content[i].copy();
        if let ContentBlock::ToolResult { tool_use_id, content: text, is_error } = &content[i] {
            if text.as_str().unicode_len() > max_chars {
                let head = text::take_chars(text.as_str(), max_chars);
                block =
                ContentBlock::ToolResult {
                    tool_use_id: text::copy(tool_use_id.as_str()),
                    content: text::cat2(head.as_str(), "..."),
                    is_error: *is_error,
                };
                modified = true;
                assert(is_long_result(content@[i as int]@, max_chars as int));
            }
        }
        assert(block@ == shortened_block(content@[i as int]@, max_chars as int));
        out.push(block);
        i = i + 1;
    }
    assert(api::blocks(out@) =~= Seq::new(
        content@.len(),
        |j: int| shortened_block(content@[j]@, max_chars as int),
    ));
    (out, modified)
}

/// The entry that stands for everything a summary replaced.
pub open spec fn summary_entry(split: int, summary: Text) -> EntryView {
    text_entry(
        Role::User,
        "[Compressed conversation history ("@ + text::decimal(split as nat) + " entries)]\n\n"@
            + summary,
    )
}

/// The conversation with everything before the split replaced by a summary.
pub open spec fn summarized(es: Seq<EntryView>, summary: Text, keep_recent: int) -> Seq<EntryView> {
    if es.len() <= keep_recent {
        es
    } else {
        let split = safe_split(es, keep_recent);
        seq![summary_entry(split, summary)] + es.skip(split)
    }
}

impl ConversationHistory {
    /// Shorten the tool results of older entries. Returns whether any was too
    /// long.
    pub fn truncate_old_tool_results(&mut self, keep_recent: usize, max_chars: usize) -> (r: bool)
        ensures
            final(self)@ == shortened_before(
                old(self)@,
                safe_split(old(self)@, keep_recent as int),
                max_chars as int,
            ),
            r == long_before(
                old(self)@,
                safe_split(old(self)@, keep_recent as int),
                max_chars as int,
            ),
    {
        let ghost es = self@;
        let cutoff: usize = find_safe_split_point(&self.entries, keep_recent);
        let mut modified = false;
        let mut out: Vec<ConversationEntry> = Vec::new();
        let mut i: usize = 0;
        while i < self.entries.len()
            invariant
                i <= self.entries@.len(),
                cutoff <= self.entries@.len(),
                es == entries_view(self.entries@),
                out@.len() == i,
                forall|k: int|
                    0 <= k < i ==> (#[trigger] out@[k])@ == (if k < cutoff {
                        shortened_entry(es[k], max_chars as int)
                    } else {
                        es[k]
                    }),
                modified == exists|k: int|
                    0 <= k < i && k < cutoff && has_long_result(
                        #[trigger] es[k],
                        max_chars as int,
                    ),
            decreases self.entries@.len() - i,
        {
            let e = &self.entries[i];
            assert(es[i as int] == e@);
            if i < cutoff {
                let (content, long) = shorten_content(&e.content, max_chars);
                let next = ConversationEntry {
                    role: e.role,
                    content,
                    reasoning_content: text::copy_opt(&e.reasoning_content),
                };
                proof {
                    assert(next@.content =~= shortened_entry(e@, max_chars as int).content);
                    assert(next@ == shortened_entry(e@, max_chars as int));
                    if long {
                        let j = choose|j: int|
                            0 <= j < e.content@.len() && is_long_result(
                                #[trigger] e.content@[j]@,
                                max_chars as int,
                            );
                        assert(is_long_result(e@.content[j], max_chars as int));
                    } else if has_long_result(e@, max_chars as int) {
                        let j = choose|j: int|
                            0 <= j < e@.content.len() && is_long_result(
                                #[trigger] e@.content[j],
                                max_chars as int,
                            );
                        assert(is_long_result(e.content@[j]@, max_chars as int));
                    }
                    assert(long == has_long_result(es[i as int], max_chars as int));
                }
                out.push(next);
                if long {
                    modified = true;
                }
            } else {
                out.push(e.copy());
            }
            i = i + 1;
        }
        self.entries = out;
        proof {
            law_safe_split(es, keep_recent as int);
            assert(self@ =~= shortened_before(es, cutoff as int, max_chars as int));
        }
        modified
    }

    /// Replace older entries with a summary of them; the recent ones stay.
    pub fn replace_with_summary(&mut self, summary: String, keep_recent: usize)
        ensures
            final(self)@ == summarized(old(self)@, summary@, keep_recent as int),
    {
        let ghost es = self@;
        if self.entries.len() <= keep_recent {
            return;
        }
        let split: usize = find_safe_split_point(&self.entries, keep_recent);
        let mut recent = self.entries.split_off(split);
        assert(entries_view(recent@) =~= es.skip(split as int));
        self.entries.clear();
        let n = text::count(split);
        let text = text::cat4(
            "[Compressed conversation history (",
            n.as_str(),
            " entries)]\n\n",
            summary.as_str(),
        );
        assert(self@ =~= Seq::<EntryView>::empty());
        self.push_user(text.as_str());
        let ghost head = self.entries@;
        self.entries.append(&mut recent);
        assert(self@ =~= entries_view(head) + es.skip(split as int));
    }
}

// ---------------------------------------------------------------------------
// Inputs of edits
// ---------------------------------------------------------------------------

/// The position of the most recent assistant entry.
pub open spec fn last_assistant(es: Seq<EntryView>) -> Option<int>
    decreases es.len(),
{
    if es.len() == 0 {
        None
    } else if es.last().role == Role::Assistant {
        Some(es.len() - 1)
    } else {
        last_assistant(es.drop_last())
    }
}

/// The input that `compressed` gives for the tool call `id`.
pub open spec fn compressed_for(compressed: Seq<(Text, JsonView)>, id: Text) -> Option<JsonView>
    decreases compressed.len(),
{
    if compressed.len() == 0 {
        None
    } else if compressed[0].0 == id {
        Some(compressed[0].1)
    } else {
        compressed_for(compressed.drop_first(), id)
    }
}

/// A block with the input of its call replaced, where there is another for it.
pub open spec fn compressed_block(b: BlockView, compressed: Seq<(Text, JsonView)>) -> BlockView {
    match b {
        ContentBlock::ToolUse { id, name, input } => match compressed_for(compressed, id) {
            Some(short) => ContentBlock::ToolUse { id, name, input: short },
            None => b,
        },
        _ => b,
    }
}

/// The conversation with the inputs in its most recent assistant entry replaced.
pub open spec fn with_compressed_inputs(
    es: Seq<EntryView>,
    compressed: Seq<(Text, JsonView)>,
) -> Seq<EntryView> {
    match last_assistant(es) {
        Some(k) => es.update(
            k,
            EntryView {
                content: es[k].content.map_values(|b: BlockView| compressed_block(b, compressed)),
                ..es[k]
            },
        ),
        None => es,
    }
}

/// What a list of inputs by tool call holds.
pub open spec fn inputs_view(v: Seq<(String, Json)>) -> Seq<(Text, JsonView)> {
    Seq::new(v.len(), |i: int| (v[i].0@, v[i].1@))
}

proof fn lemma_last_assistant(es: Seq<EntryView>, n: int, k: int)
    requires
        0 <= k < n <= es.len(),
        es[k].role == Role::Assistant,
        forall|j: int| k < j < n ==> (#[trigger] es[j]).role != Role::Assistant,
    ensures
        last_assistant(es.take(n)) == Some(k),
    decreases n,
{
    if k < n - 1 {
        assert(es[n - 1].role != Role::Assistant);
        lemma_last_assistant(es, n - 1, k);
        assert(es.take(n).drop_last() =~= es.take(n - 1));
    }
}

proof fn lemma_no_assistant(es: Seq<EntryView>)
    requires
        forall|j: int| 0 <= j < es.len() ==> (#[trigger] es[j]).role != Role::Assistant,
    ensures
        last_assistant(es) is None,
    decreases es.len(),
{
    if es.len() > 0 {
        assert(es[es.len() - 1].role != Role::Assistant);
        assert forall|j: int| 0 <= j < es.drop_last().len() implies (
        #[trigger] es.drop_last()[j]).role != Role::Assistant by {
            assert(es[j].role != Role::Assistant);
        }
        lemma_no_assistant(es.drop_last());
    }
}

fn find_compressed(compressed: &Vec<(String, Json)>, id: &str) -> (r: Option<Json>)
    ensures
        match r {
            Some(j) => compressed_for(inputs_view(compressed@), id@) == Some(j@),
            None => compressed_for(inputs_view(compressed@), id@) is None,
        },
{
    let ghost all = inputs_view(compressed@);
    let mut i: usize = 0;
    assert(all.skip(0) =~= all);
    while i < compressed.len()
        invariant
            i <= compressed@.len(),
            all == inputs_view(compressed@),
            compressed_for(all, id@) == compressed_for(all.skip(i as int), id@),
        decreases compressed@.len() - i,
    {
        assert(all.skip(i as int)[0] == all[i as int]);
        assert(all.skip(i as int).drop_first() =~= all.skip(i + 1));
        if text::same(compressed[i].0.as_str(), id) {
            return Some(compressed[i].1.copy());
        }
        i = i + 1;
    }
    None
}

impl ConversationHistory {
    /// Put shorter inputs in place of those of edits that succeeded.
    /// `compressed` gives the input for each such call; only calls in the most
    /// recent assistant entry are looked at.
    pub fn compress_edit_inputs(&mut self, compressed: &Vec<(String, Json)>)
        ensures
            final(self)@ == with_compressed_inputs(old(self)@, inputs_view(compressed@)),
    {
        let ghost es = self@;
        let ghost cs = inputs_view(compressed@);
        let mut k: usize = self.entries.len();
        proof {
            if k == 0 {
                lemma_no_assistant(es);
            }
        }
        while k > 0
            invariant_except_break
                k <= self.entries@.len(),
                es == entries_view(self.entries@),
                forall|j: int| k <= j < es.len() ==> (#[trigger] es[j]).role != Role::Assistant,
                k == 0 ==> last_assistant(es) is None,
            ensures
                k <= self.entries@.len(),
                es == entries_view(self.entries@),
                k == 0 ==> last_assistant(es) is None,
                k > 0 ==> last_assistant(es) == Some(k - 1),
            decreases k,
        {
            assert(es[k - 1] == self.entries@[k - 1]@);
            if self.entries[k - 1].role == Role::Assistant {
                proof {
                    lemma_last_assistant(es, es.len() as int, k - 1);
                    assert(es.take(es.len() as int) =~= es);
                }
                break;
            }
            k = k - 1;
            proof {
                if k == 0 {
                    lemma_no_assistant(es);
                }
            }
        }
        if k == 0 {
            return;
        }
        let e = &self.entries[k - 1];
        let mut content: Vec<ContentBlock> = Vec::new();
        let mut i: usize = 0;
        while i < e.content.len()
            invariant
                i <= e.content@.len(),
                cs == inputs_view(compressed@),
                content@.len() == i,
                forall|j: int|
                    0 <= j < i ==> (#[trigger] content@[j])@ == compressed_block(
                        e.content@[j]@,
                        cs,
                    ),
            decreases e.content@.len() - i,
        {
            let block = match &e.content[i] {
                ContentBlock::ToolUse { id, name, .. } => match find_compressed(
                    compressed,
                    id.as_str(),
                ) {
                    Some(short) => ContentBlock::ToolUse {
                        id: text::copy(id.as_str()),
                        name: text::copy(name.as_str()),
                        input: short,
                    },
                    None => e.content[i].copy(),
                },
                _ => e.content[i].copy(),
            };
            content.push(block);
            i = i + 1;
        }
        let next = ConversationEntry {
            role: e.role,
            content,
            reasoning_content: text::copy_opt(&e.reasoning_content),
        };
        assert(next@.content =~= es[k - 1].content.map_values(
            |b: BlockView| compressed_block(b, cs),
        ));
        let ghost nv = next@;
        self.entries.set(k - 1, next);
        assert(self@ =~= es.update(k - 1, nv));
    }
}

// ---------------------------------------------------------------------------
// Laws
// ---------------------------------------------------------------------------

proof fn lemma_filter_map_has(ts: Seq<EntryView>, f: spec_fn(EntryView) -> Option<EntryView>, i: int)
    requires
        0 <= i < ts.len(),
        f(ts[i]) is Some,
    ensures
        ts.filter_map(f).contains(f(ts[i])->Some_0),
    decreases ts.len(),
{
    let rest = ts.drop_last();
    let x = f(ts[i])->Some_0;
    let out = ts.filter_map(f);
    if i == ts.len() - 1 {
        assert(out == rest.filter_map(f) + seq![x]);
        assert(out[out.len() - 1] == x);
    } else {
        lemma_filter_map_has(rest, f, i);
        let inner = rest.filter_map(f);
        let k = choose|k: int| 0 <= k < inner.len() && inner[k] == x;
        assert(out[k] == x);
    }
}

proof fn lemma_filter_map_same(ts: Seq<EntryView>, f: spec_fn(EntryView) -> Option<EntryView>)
    requires
        forall|i: int| 0 <= i < ts.len() ==> f(#[trigger] ts[i]) == Some(ts[i]),
    ensures
        ts.filter_map(f) == ts,
    decreases ts.len(),
{
    if ts.len() > 0 {
        let rest = ts.drop_last();
        assert forall|i: int| 0 <= i < rest.len() implies f(#[trigger] rest[i]) == Some(
            rest[i],
        ) by {
            assert(rest[i] == ts[i]);
        }
        lemma_filter_map_same(rest, f);
        assert(f(ts[ts.len() - 1]) == Some(ts[ts.len() - 1]));
        assert(ts.filter_map(f) =~= ts);
    }
}

proof fn lemma_filter_map_len(ts: Seq<EntryView>, f: spec_fn(EntryView) -> Option<EntryView>)
    ensures
        ts.filter_map(f).len() <= ts.len(),
    decreases ts.len(),
{
    if ts.len() > 0 {
        lemma_filter_map_len(ts.drop_last(), f);
    }
}

proof fn lemma_filter_same(s: Seq<BlockView>, pred: spec_fn(BlockView) -> bool)
    requires
        forall|i: int| 0 <= i < s.len() ==> pred(#[trigger] s[i]),
    ensures
        s.filter(pred) == s,
    decreases s.len(),
{
    reveal(Seq::filter);
    if s.len() > 0 {
        let rest = s.drop_last();
        assert forall|i: int| 0 <= i < rest.len() implies pred(#[trigger] rest[i]) by {
            assert(rest[i] == s[i]);
        }
        lemma_filter_same(rest, pred);
        assert(pred(s[s.len() - 1]));
        assert(s.filter(pred) =~= s);
    }
}

/// A block that is no text and has its partner survives.
proof fn lemma_survives(es: Seq<EntryView>, i: int, j: int)
    requires
        0 <= i < es.len(),
        0 <= j < es[i].content.len(),
        has_partner(es, es[i].role, es[i].content[j]),
        !(es[i].content[j] is Text),
    ensures
        exists|k: int|
            0 <= k < sanitized(es).len() && (#[trigger] sanitized(es)[k]).content.contains(
                es[i].content[j],
            ),
{
    let e = es[i];
    let b = e.content[j];
    let ts = without_trailing_calls(es);
    let f = |x: EntryView| cleaned_entry(es, x);
    let pred = |x: BlockView| has_partner(es, e.role, x);
    let kept = partnered(es, e);
    e.content.lemma_filter_contains(pred, j);
    assert(kept.contains(b));
    let m = choose|m: int| 0 <= m < kept.len() && kept[m] == b;
    // The entry that is cleaned: `e`, or what is left of it at the end.
    let trimmed = i == es.len() - 1 && e.role == Role::Assistant && kept.len() < e.content.len();
    let t = if trimmed {
        EntryView { content: kept, ..e }
    } else {
        e
    };
    let n = if trimmed {
        m
    } else {
        j
    };
    assert(t.content[n] == b);
    assert(ts[i] == t);
    let again = partnered(es, t);
    t.content.lemma_filter_contains(pred, n);
    assert(again.contains(b));
    let a = choose|a: int| 0 <= a < again.len() && again[a] == b;
    assert(!is_blank_text(again[a]));
    assert(!all_blank(again));
    assert(f(ts[i]) == Some(EntryView { content: again, ..t }));
    lemma_filter_map_has(ts, f, i);
    let x = f(ts[i])->Some_0;
    let k = choose|k: int| 0 <= k < sanitized(es).len() && sanitized(es)[k] == x;
    assert(sanitized(es)[k].content.contains(b));
}

/// Every entry of the sanitized conversation is a cleaned one.
proof fn lemma_origin(es: Seq<EntryView>, k: int) -> (i: int)
    requires
        0 <= k < sanitized(es).len(),
    ensures
        0 <= i < without_trailing_calls(es).len(),
        cleaned_entry(es, without_trailing_calls(es)[i]) == Some(sanitized(es)[k]),
{
    let ts = without_trailing_calls(es);
    let f = |x: EntryView| cleaned_entry(es, x);
    let x = sanitized(es)[k];
    assert(ts.filter_map(f).contains(x));
    ts.lemma_filter_map_contains(f, x);
    let t = choose|t: EntryView| #[trigger] ts.contains(t) && f(t) == Some(x);
    let i = choose|i: int| 0 <= i < ts.len() && ts[i] == t;
    i
}

/// What an entry holds after the trailing calls are gone, it held before.
proof fn lemma_trailing_content(es: Seq<EntryView>, i: int, b: BlockView)
    requires
        0 <= i < without_trailing_calls(es).len(),
        without_trailing_calls(es)[i].content.contains(b),
    ensures
        i < es.len(),
        es[i].content.contains(b),
        without_trailing_calls(es)[i].role == es[i].role,
{
    let ts = without_trailing_calls(es);
    if ts[i] != es[i] {
        let e = es.last();
        let pred = |x: BlockView| has_partner(es, e.role, x);
        e.content.lemma_filter_contains_rev(pred, b);
    }
}

/// After `sanitize` every tool call of the assistant has a result in the
/// conversation, and every result of the user has a call.
pub proof fn law_sanitize_pairs(es: Seq<EntryView>, k: int, j: int)
    requires
        0 <= k < sanitized(es).len(),
        0 <= j < sanitized(es)[k].content.len(),
    ensures
        has_partner(sanitized(es), sanitized(es)[k].role, sanitized(es)[k].content[j]),
{
    let out = sanitized(es);
    let b = out[k].content[j];
    let i = lemma_origin(es, k);
    let ts = without_trailing_calls(es);
    let t = ts[i];
    let pred = |x: BlockView| has_partner(es, t.role, x);
    assert(out[k].content == t.content.filter(pred));
    assert(out[k].content.contains(b));
    t.content.lemma_filter_pred(pred, j);
    t.content.lemma_filter_contains_rev(pred, b);
    lemma_trailing_content(es, i, b);
    let bj = choose|bj: int| 0 <= bj < es[i].content.len() && es[i].content[bj] == b;
    match (out[k].role, b) {
        (Role::Assistant, ContentBlock::ToolUse { id, .. }) => {
            assert(use_id(es[i].content[bj]) == Some(id));
            assert(content_calls(es[i].content, id));
            assert(is_called(es, id));
            let p = choose|p: int|
                0 <= p < es.len() && content_answers((#[trigger] es[p]).content, id);
            let q = choose|q: int|
                0 <= q < es[p].content.len() && result_id(#[trigger] es[p].content[q]) == Some(id);
            lemma_survives(es, p, q);
            let r = es[p].content[q];
            let m = choose|m: int| 0 <= m < out.len() && (#[trigger] out[m]).content.contains(r);
            let n = choose|n: int| 0 <= n < out[m].content.len() && out[m].content[n] == r;
            assert(result_id(out[m].content[n]) == Some(id));
            assert(content_answers(out[m].content, id));
        },
        (Role::User, ContentBlock::ToolResult { tool_use_id, .. }) => {
            let id = tool_use_id;
            assert(result_id(es[i].content[bj]) == Some(id));
            assert(content_answers(es[i].content, id));
            assert(is_answered(es, id));
            let p = choose|p: int|
                0 <= p < es.len() && content_calls((#[trigger] es[p]).content, id);
            let q = choose|q: int|
                0 <= q < es[p].content.len() && use_id(#[trigger] es[p].content[q]) == Some(id);
            lemma_survives(es, p, q);
            let r = es[p].content[q];
            let m = choose|m: int| 0 <= m < out.len() && (#[trigger] out[m]).content.contains(r);
            let n = choose|n: int| 0 <= n < out[m].content.len() && out[m].content[n] == r;
            assert(use_id(out[m].content[n]) == Some(id));
            assert(content_calls(out[m].content, id));
        },
        _ => {},
    }
}

/// A matched pair is never lost: a tool call that is answered, and the answer,
/// are both there after `sanitize`.
pub proof fn law_sanitize_keeps_pairs(es: Seq<EntryView>, id: Text)
    requires
        is_called(es, id),
        is_answered(es, id),
    ensures
        is_called(sanitized(es), id),
        is_answered(sanitized(es), id),
{
    let out = sanitized(es);
    let p = choose|p: int| 0 <= p < es.len() && content_answers((#[trigger] es[p]).content, id);
    let q = choose|q: int|
        0 <= q < es[p].content.len() && result_id(#[trigger] es[p].content[q]) == Some(id);
    lemma_survives(es, p, q);
    let r = es[p].content[q];
    let m = choose|m: int| 0 <= m < out.len() && (#[trigger] out[m]).content.contains(r);
    let n = choose|n: int| 0 <= n < out[m].content.len() && out[m].content[n] == r;
    assert(result_id(out[m].content[n]) == Some(id));
    assert(content_answers(out[m].content, id));
    let p = choose|p: int| 0 <= p < es.len() && content_calls((#[trigger] es[p]).content, id);
    let q = choose|q: int|
        0 <= q < es[p].content.len() && use_id(#[trigger] es[p].content[q]) == Some(id);
    lemma_survives(es, p, q);
    let r = es[p].content[q];
    let m = choose|m: int| 0 <= m < out.len() && (#[trigger] out[m]).content.contains(r);
    let n = choose|n: int| 0 <= n < out[m].content.len() && out[m].content[n] == r;
    assert(use_id(out[m].content[n]) == Some(id));
    assert(content_calls(out[m].content, id));
}

/// `sanitize` adds no entry.
pub proof fn law_sanitize_adds_nothing(es: Seq<EntryView>)
    ensures
        sanitized(es).len() <= es.len(),
{
    lemma_filter_map_len(
        without_trailing_calls(es),
        |e: EntryView| cleaned_entry(es, e),
    );
}

/// After `sanitize` no entry of the assistant is left that says nothing: that has
/// neither reasoning nor anything but blank text.
pub proof fn law_sanitize_leaves_nothing_blank(es: Seq<EntryView>, k: int)
    requires
        0 <= k < sanitized(es).len(),
        sanitized(es)[k].role == Role::Assistant,
    ensures
        has_reasoning(sanitized(es)[k]) || !all_blank(sanitized(es)[k].content),
{
    let i = lemma_origin(es, k);
    let t = without_trailing_calls(es)[i];
    assert(sanitized(es)[k].content == partnered(es, t));
}

/// A second `sanitize` changes nothing.
pub proof fn law_sanitize_idempotent(es: Seq<EntryView>)
    ensures
        sanitized(sanitized(es)) == sanitized(es),
{
    let out = sanitized(es);
    let f = |e: EntryView| cleaned_entry(out, e);
    assert forall|k: int| 0 <= k < out.len() implies partnered(out, #[trigger] out[k])
        == out[k].content by {
        let pred = |b: BlockView| has_partner(out, out[k].role, b);
        assert forall|j: int| 0 <= j < out[k].content.len() implies pred(
            #[trigger] out[k].content[j],
        ) by {
            law_sanitize_pairs(es, k, j);
        }
        lemma_filter_same(out[k].content, pred);
    }
    if out.len() > 0 {
        assert(partnered(out, out[out.len() - 1]) == out[out.len() - 1].content);
    }
    assert(without_trailing_calls(out) == out);
    assert forall|k: int| 0 <= k < out.len() implies f(#[trigger] out[k]) == Some(out[k]) by {
        assert(partnered(out, out[k]) == out[k].content);
        if out[k].role == Role::Assistant {
            law_sanitize_leaves_nothing_blank(es, k);
        }
    }
    lemma_filter_map_same(out, f);
}

/// Shortening older tool results leaves the number of entries, every role and
/// everything after the split as it was, and parts no call from its result.
pub proof fn law_shortening_keeps_shape(es: Seq<EntryView>, keep_recent: int, max_chars: int)
    requires
        0 <= keep_recent,
    ensures
        ({
            let split = safe_split(es, keep_recent);
            let out = shortened_before(es, split, max_chars);
            &&& out.len() == es.len()
            &&& out.skip(split) == es.skip(split)
            &&& forall|i: int|
                0 <= i < es.len() ==> (#[trigger] out[i]).role == es[i].role
                    && out[i].content.len() == es[i].content.len()
        }),
{
    law_safe_split(es, keep_recent);
    let split = safe_split(es, keep_recent);
    let out = shortened_before(es, split, max_chars);
    assert(out.skip(split) =~= es.skip(split));
}

/// A summary keeps at least the `keep_recent` last entries as they were, and
/// the call of a result that it keeps.
pub proof fn law_summary_keeps_recent(es: Seq<EntryView>, summary: Text, keep_recent: int)
    requires
        0 <= keep_recent < es.len(),
    ensures
        ({
            let split = safe_split(es, keep_recent);
            let out = summarized(es, summary, keep_recent);
            &&& out.len() == 1 + es.len() - split
            &&& out.skip(1) == es.skip(split)
            &&& es.len() - split >= keep_recent
            &&& out[0].role == Role::User
            &&& !crosses_pair(es, split)
        }),
{
    law_safe_split(es, keep_recent);
    let split = safe_split(es, keep_recent);
    assert(summarized(es, summary, keep_recent).skip(1) =~= es.skip(split));
}

/// The entry that takes the place of the older ones says the whole summary.
pub proof fn law_summary_says_it(es: Seq<EntryView>, summary: Text, keep_recent: int)
    requires
        0 <= keep_recent < es.len(),
    ensures
        ({
            let first = summarized(es, summary, keep_recent)[0];
            &&& first.content.len() == 1
            &&& first.content[0] matches ContentBlock::Text { text } && text::has_substring(
                text,
                summary,
            )
        }),
{
    let said = summary_entry(safe_split(es, keep_recent), summary).content[0]->text;
    let at = said.len() - summary.len();
    assert(said.subrange(at, said.len() as int) =~= summary);
    assert(text::occurs_at(said, summary, at));
}

/// Shortening touches nothing but results that are too long: those keep their call, their
/// first characters, as many as are allowed, and whether they are errors, and are marked
/// as cut; every other block stays as it was.
pub proof fn law_shortened_results_keep_their_start(
    es: Seq<EntryView>,
    keep_recent: int,
    max_chars: int,
    i: int,
    j: int,
)
    requires
        0 <= keep_recent,
        0 <= max_chars,
        0 <= i < es.len(),
        0 <= j < es[i].content.len(),
    ensures
        ({
            let split = safe_split(es, keep_recent);
            let before = es[i].content[j];
            let after = shortened_before(es, split, max_chars)[i].content[j];
            match before {
                ContentBlock::ToolResult { tool_use_id, content, is_error } => {
                    if i < split && content.len() > max_chars {
                        after == (ContentBlock::<Text, JsonView>::ToolResult {
                            tool_use_id,
                            content: content.take(max_chars) + "..."@,
                            is_error,
                        })
                    } else {
                        after == before
                    }
                },
                _ => after == before,
            }
        }),
        shortened_before(es, safe_split(es, keep_recent), max_chars)[i].reasoning_content
            == es[i].reasoning_content,
{
}

/// Guidance reaches the model as one block per line, after the results that
/// were there, in the same entry.
pub proof fn law_guidance_keeps_results(es: Seq<EntryView>, steer: Text)
    requires
        takes_guidance(es),
    ensures
        with_guidance(es, steer).len() == es.len(),
        with_guidance(es, steer).drop_last() == es.drop_last(),
        with_guidance(es, steer).last().role == es.last().role,
        es.last().content.is_prefix_of(with_guidance(es, steer).last().content),
        with_guidance(es, steer).last().content.len() == es.last().content.len()
            + guidance_lines(steer).len(),
{
    let w = with_guidance(es, steer);
    assert(w.drop_last() =~= es.drop_last());
    assert(w.last().content.subrange(0, es.last().content.len() as int) =~= es.last().content);
}

/// Sanitizing loses no words: a text that is not blank is still there, in an entry of the
/// same role.
pub proof fn law_sanitize_keeps_words(es: Seq<EntryView>, i: int, j: int)
    requires
        0 <= i < es.len(),
        0 <= j < es[i].content.len(),
        es[i].content[j] is Text,
        !is_blank_text(es[i].content[j]),
    ensures
        exists|k: int|
            0 <= k < sanitized(es).len() && (#[trigger] sanitized(es)[k]).role == es[i].role
                && sanitized(es)[k].content.contains(es[i].content[j]),
{
    let e = es[i];
    let b = e.content[j];
    let ts = without_trailing_calls(es);
    let f = |x: EntryView| cleaned_entry(es, x);
    let pred = |x: BlockView| has_partner(es, e.role, x);
    let kept = partnered(es, e);
    e.content.lemma_filter_contains(pred, j);
    assert(kept.contains(b));
    let m = choose|m: int| 0 <= m < kept.len() && kept[m] == b;
    let cut = i == es.len() - 1 && e.role == Role::Assistant && kept.len() < e.content.len();
    let t = if cut {
        EntryView { content: kept, ..e }
    } else {
        e
    };
    let n = if cut {
        m
    } else {
        j
    };
    assert(t.content[n] == b);
    assert(ts[i] == t);
    let again = partnered(es, t);
    t.content.lemma_filter_contains(pred, n);
    assert(again.contains(b));
    let a = choose|a: int| 0 <= a < again.len() && again[a] == b;
    assert(!is_blank_text(again[a]));
    assert(!all_blank(again));
    assert(f(ts[i]) == Some(EntryView { content: again, ..t }));
    lemma_filter_map_has(ts, f, i);
    let x = f(ts[i])->Some_0;
    let k = choose|k: int| 0 <= k < sanitized(es).len() && sanitized(es)[k] == x;
    assert(sanitized(es)[k].content.contains(b));
}

/// A single old result that is longer than it may be is noticed.
pub proof fn law_long_results_are_noticed(
    es: Seq<EntryView>,
    cutoff: int,
    max_chars: int,
    i: int,
    j: int,
)
    requires
        0 <= i < cutoff,
        0 <= j < es[i].content.len(),
        es[i].content[j] matches ContentBlock::ToolResult { content, .. } && content.len()
            > max_chars,
    ensures
        long_before(es, cutoff, max_chars),
{
    assert(is_long_result(es[i].content[j], max_chars));
    assert(has_long_result(es[i], max_chars));
}

} // verus!
