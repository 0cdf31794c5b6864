//! Agents that work on a task of their own: a fresh conversation, a restricted
//! set of tools, and a prompt made of the goal. The parent sees nothing of it
//! but the summary at the end.

use crate::api;
use crate::api::BlockView;
use crate::api::ContentBlock;
use crate::api::Role;
use crate::engine::messages;
use crate::engine::messages::ConversationHistory;
use crate::engine::messages::EntryView;
use crate::json;
use crate::json::Json;
use crate::json::JsonView;
use crate::text;
use crate::text::Text;
use vstd::prelude::*;
use vstd::string::*;

verus! {

// ---------------------------------------------------------------------------
// Tools
// ---------------------------------------------------------------------------

/// Tools that a sub-agent never has: it does not delegate further, talk to the
/// user, or write to the shared memory and the skills.
pub open spec fn builtin_blocked() -> Seq<Text> {
    seq!["delegate_task"@, "ask_user"@, "memory"@, "skill_manage"@]
}

/// Tools that a sub-agent has where nothing else is said: those that only read.
pub open spec fn builtin_tools() -> Seq<Text> {
    seq!["read"@, "glob"@, "grep"@, "web_search"@, "web_fetch"@]
}

/// Whether a tool is blocked.
pub open spec fn is_blocked(tool: Text, blocked: Seq<Text>) -> bool {
    builtin_blocked().contains(tool) || blocked.contains(tool)
}

/// The tools with those of `more` that are neither blocked nor there already.
pub open spec fn plus_tools(tools: Seq<Text>, more: Seq<Text>, blocked: Seq<Text>) -> Seq<Text>
    decreases more.len(),
{
    if more.len() == 0 {
        tools
    } else {
        let before = plus_tools(tools, more.drop_last(), blocked);
        if is_blocked(more.last(), blocked) || before.contains(more.last()) {
            before
        } else {
            before.push(more.last())
        }
    }
}

/// The tools of a sub-agent: the defaults and the extras, without the blocked.
pub open spec fn effective_tools(extra: Seq<Text>, defaults: Seq<Text>, blocked: Seq<Text>) -> Seq<
    Text,
> {
    let base = if defaults.len() == 0 {
        builtin_tools()
    } else {
        defaults
    };
    plus_tools(
        base.filter(|t: Text| !is_blocked(t, blocked)),
        extra,
        blocked,
    )
}

fn list_contains(list: &Vec<String>, s: &str) -> (r: bool)
    ensures
        r == text::texts(list@).contains(s@),
{
    let ghost all = text::texts(list@);
    let mut i: usize = 0;
    while i < list.len()
        invariant
            i <= list@.len(),
            all == text::texts(list@),
            forall|j: int| 0 <= j < i ==> all[j] != s@,
        decreases list@.len() - i,
    {
        if text::same(list[i].as_str(), s) {
            assert(all[i as int] == s@);
            return true;
        }
        i = i + 1;
    }
    false
}

fn blocks_tool(tool: &str, blocked: &Vec<String>) -> (r: bool)
    ensures
        r == is_blocked(tool@, text::texts(blocked@)),
{
    let ghost b = builtin_blocked();
    if text::same(tool, "delegate_task") {
        assert(b[0] == tool@);
        return true;
    }
    if text::same(tool, "ask_user") {
        assert(b[1] == tool@);
        return true;
    }
    if text::same(tool, "memory") {
        assert(b[2] == tool@);
        return true;
    }
    if text::same(tool, "skill_manage") {
        assert(b[3] == tool@);
        return true;
    }
    assert(!b.contains(tool@));
    list_contains(blocked, tool)
}

fn default_tools(config: &Vec<String>) -> (r: Vec<String>)
    ensures
        text::texts(r@) == if config@.len() == 0 {
            builtin_tools()
        } else {
            text::texts(config@)
        },
{
    if config.len() == 0 {
        let mut r: Vec<String> = Vec::new();
        text::push_text(&mut r, text::copy("read"));
        text::push_text(&mut r, text::copy("glob"));
        text::push_text(&mut r, text::copy("grep"));
        text::push_text(&mut r, text::copy("web_search"));
        text::push_text(&mut r, text::copy("web_fetch"));
        assert(text::texts(r@) =~= builtin_tools());
        r
    } else {
        text::copy_all(config)
    }
}

/// The tools of a sub-agent: the defaults and the extras, without the blocked.
/// Defaults in the configuration take the place of the built-in ones.
pub fn build_effective_tools(
    extra_tools: &Vec<String>,
    config_default_tools: &Vec<String>,
    config_blocked_tools: &Vec<String>,
) -> (r: Vec<String>)
    ensures
        text::texts(r@) == effective_tools(
            text::texts(extra_tools@),
            text::texts(config_default_tools@),
            text::texts(config_blocked_tools@),
        ),
{
    let ghost blocked = text::texts(config_blocked_tools@);
    let base = default_tools(config_default_tools);
    let ghost all = text::texts(base@);
    let ghost pred = |t: Text| !is_blocked(t, blocked);
    let mut tools: Vec<String> = Vec::new();
    let mut i: usize = 0;
    assert(all.take(0).filter(pred) =~= Seq::<Text>::empty()) by {
        assert(all.take(0) =~= Seq::<Text>::empty());
        reveal(Seq::filter);
    }
    while i < base.len()
        invariant
            i <= base@.len(),
            all == text::texts(base@),
            blocked == text::texts(config_blocked_tools@),
            pred == (|t: Text| !is_blocked(t, blocked)),
            text::texts(tools@) == all.take(i as int).filter(pred),
        decreases base@.len() - i,
    {
        proof {
            assert(all.take(i + 1) =~= all.take(i as int).push(all[i as int]));
            all.take(i as int).lemma_filter_push(all[i as int], pred);
        }
        if !blocks_tool(base[i].as_str(), config_blocked_tools) {
            text::push_text(&mut tools, text::copy(base[i].as_str()));
        }
        i = i + 1;
    }
    assert(all.take(i as int) =~= all);
    let ghost first = text::texts(tools@);
    let ghost more = text::texts(extra_tools@);
    let mut j: usize = 0;
    while j < extra_tools.len()
        invariant
            j <= extra_tools@.len(),
            more == text::texts(extra_tools@),
            blocked == text::texts(config_blocked_tools@),
            text::texts(tools@) == plus_tools(first, more.take(j as int), blocked),
        decreases extra_tools@.len() - j,
    {
        assert(more.take(j + 1).drop_last() =~= more.take(j as int));
        assert(more.take(j + 1).last() == more[j as int]);
        let tool = extra_tools[j].as_str();
        if !blocks_tool(tool, config_blocked_tools) && !list_contains(&tools, tool) {
            text::push_text(&mut tools, text::copy(tool));
        }
        j = j + 1;
    }
    assert(more.take(j as int) =~= more);
    tools
}

proof fn lemma_plus_tools(tools: Seq<Text>, more: Seq<Text>, blocked: Seq<Text>)
    requires
        forall|i: int| 0 <= i < tools.len() ==> !is_blocked(#[trigger] tools[i], blocked),
    ensures
        forall|i: int|
            0 <= i < plus_tools(tools, more, blocked).len() ==> !is_blocked(
                #[trigger] plus_tools(tools, more, blocked)[i],
                blocked,
            ),
        forall|j: int|
            0 <= j < more.len() && !is_blocked(#[trigger] more[j], blocked) ==> plus_tools(
                tools,
                more,
                blocked,
            ).contains(more[j]),
    decreases more.len(),
{
    if more.len() > 0 {
        let rest = more.drop_last();
        lemma_plus_tools(tools, rest, blocked);
        let before = plus_tools(tools, rest, blocked);
        let out = plus_tools(tools, more, blocked);
        assert forall|j: int| 0 <= j < more.len() && !is_blocked(
            #[trigger] more[j],
            blocked,
        ) implies out.contains(more[j]) by {
            if j < rest.len() {
                assert(rest[j] == more[j]);
                let k = choose|k: int| 0 <= k < before.len() && before[k] == more[j];
                assert(out[k] == more[j]);
            } else if !before.contains(more.last()) {
                assert(out[before.len() as int] == more[j]);
            }
        }
    }
}

/// A sub-agent never has a tool that is blocked, and has every extra tool that
/// is not.
pub proof fn law_no_blocked_tool(extra: Seq<Text>, defaults: Seq<Text>, blocked: Seq<Text>)
    ensures
        forall|i: int|
            0 <= i < effective_tools(extra, defaults, blocked).len() ==> !is_blocked(
                #[trigger] effective_tools(extra, defaults, blocked)[i],
                blocked,
            ),
        forall|j: int|
            0 <= j < extra.len() && !is_blocked(#[trigger] extra[j], blocked) ==> effective_tools(
                extra,
                defaults,
                blocked,
            ).contains(extra[j]),
{
    let base = if defaults.len() == 0 {
        builtin_tools()
    } else {
        defaults
    };
    let pred = |t: Text| !is_blocked(t, blocked);
    let kept = base.filter(pred);
    assert forall|i: int| 0 <= i < kept.len() implies !is_blocked(
        #[trigger] kept[i],
        blocked,
    ) by {
        base.lemma_filter_pred(pred, i);
    }
    lemma_plus_tools(kept, extra, blocked);
}

// ---------------------------------------------------------------------------
// The prompt and the display
// ---------------------------------------------------------------------------

/// The beginning of what a sub-agent is told last.
pub const TASK_OPENING: &'static str = "\nComplete this";

/// The rest of it: how to work on the task, and what to report.
pub const TASK_INSTRUCTIONS: &'static str = " task using the tools available to you. When finished, provide a clear, concise summary of:\n- What you did\n- What you found or accomplished\n- Any files you created or modified\n- Any issues encountered\n\nBe thorough but concise — your response is returned to the parent agent as a summary.";

/// The lines of a sub-agent's system prompt.
pub open spec fn prompt_parts(goal: Text, context: Option<Text>, tools: Seq<Text>) -> Seq<Text> {
    seq![
        "You are a focused sub-agent working on a specific delegated task."@,
        Seq::<char>::empty(),
        "YOUR TASK:\n"@ + goal,
    ] + (match context {
        Some(c) => if text::is_blank(c) {
            Seq::empty()
        } else {
            seq!["\nCONTEXT:\n"@ + c]
        },
        None => Seq::empty(),
    }) + (if tools.len() == 0 {
        Seq::empty()
    } else {
        seq!["\n## Available Tools\n\n"@ + text::joined(tools, ", "@)]
    }) + seq![
        TASK_OPENING@ + TASK_INSTRUCTIONS@,
    ]
}

/// The system prompt of a sub-agent.
pub fn build_subagent_system_prompt(
    goal: &str,
    context: &Option<String>,
    allowed_tools: &Vec<String>,
) -> (r: String)
    ensures
        r@ == text::joined(
            prompt_parts(goal@, text::opt_text(*context), text::texts(allowed_tools@)),
            "\n"@,
        ),
{
    let mut parts: Vec<String> = Vec::new();
    text::push_text(
        &mut parts,
        text::copy("You are a focused sub-agent working on a specific delegated task."),
    );
    text::push_text(&mut parts, String::new());
    text::push_text(&mut parts, text::cat2("YOUR TASK:\n", goal));
    if let Some(c) = context {
        if !text::blank(c.as_str()) {
            text::push_text(&mut parts, text::cat2("\nCONTEXT:\n", c.as_str()));
        }
    }
    assert(text::texts(allowed_tools@).len() == allowed_tools@.len());
    if allowed_tools.len() > 0 {
        let list = text::join(allowed_tools, ", ");
        text::push_text(&mut parts, text::cat2("\n## Available Tools\n\n", list.as_str()));
    }
    text::push_text(
        &mut parts,
        text::cat2(TASK_OPENING, TASK_INSTRUCTIONS),
    );
    assert(text::texts(parts@) =~= prompt_parts(
        goal@,
        text::opt_text(*context),
        text::texts(allowed_tools@),
    ));
    text::join(&parts, "\n")
}

/// The arguments of a sub-agent's call: an empty object where they do not parse.
pub open spec fn parsed_or_empty(input_json: Text) -> JsonView {
    match json::json_parsed(input_json) {
        Ok(v) => v,
        Err(_) => json::empty_object_view(),
    }
}

fn parse_or_empty(input_json: &str) -> (r: Json)
    ensures
        r@ == parsed_or_empty(input_json@),
{
    match json::parse_json(input_json) {
        Ok(v) => v,
        Err(_) => Json::empty_object(),
    }
}

/// A pattern of at most 60 bytes, or its start.
pub open spec fn short_pattern(p: Text) -> Text {
    if text::byte_len(p) > 60 {
        text::prefix_within(p, 57) + "..."@
    } else {
        p
    }
}

/// What is shown of a sub-agent's call, from its parsed arguments.
pub open spec fn call_summary(name: Text, input: JsonView) -> Text {
    if name == "read"@ || name == "write"@ || name == "edit"@ {
        json::str_member_or(input, "path"@, Seq::empty())
    } else if name == "bash"@ {
        json::str_member_or(input, "command"@, Seq::empty())
    } else if name == "web_search"@ {
        json::str_member_or(input, "query"@, Seq::empty())
    } else if name == "web_fetch"@ {
        json::str_member_or(input, "url"@, Seq::empty())
    } else if name == "glob"@ {
        json::str_member_or(input, "pattern"@, Seq::empty())
    } else if name == "grep"@ {
        match json::str_member(input, "pattern"@) {
            Some(p) => short_pattern(p),
            None => Seq::empty(),
        }
    } else {
        Seq::empty()
    }
}

fn member_or_empty(input: &Json, key: &str) -> (r: String)
    ensures
        r@ == json::str_member_or(input@, key@, Seq::empty()),
{
    match input.get_str(key) {
        Some(s) => s,
        None => String::new(),
    }
}

/// What is shown of a sub-agent's call, given its parsed arguments.
pub fn summarize_call(name: &str, input: &Json) -> (r: String)
    ensures
        r@ == call_summary(name@, input@),
{
    if text::same(name, "read") || text::same(name, "write") || text::same(name, "edit") {
        member_or_empty(input, "path")
    } else if text::same(name, "bash") {
        member_or_empty(input, "command")
    } else if text::same(name, "web_search") {
        member_or_empty(input, "query")
    } else if text::same(name, "web_fetch") {
        member_or_empty(input, "url")
    } else if text::same(name, "glob") {
        member_or_empty(input, "pattern")
    } else if text::same(name, "grep") {
        match input.get_str("pattern") {
            Some(p) => if text::str_bytes(p.as_str()) > 60 {
                let head = text::cut_bytes(p.as_str(), 57);
                text::cat2(head.as_str(), "...")
            } else {
                p
            },
            None => String::new(),
        }
    } else {
        String::new()
    }
}

/// What is shown of a sub-agent's call.
pub fn format_tool_input_summary(name: &str, input_json: &str) -> (r: String)
    ensures
        r@ == call_summary(name@, parsed_or_empty(input_json@)),
{
    let input = parse_or_empty(input_json);
    summarize_call(name, &input)
}

/// A text of at most 2000 bytes, or its first 2000 characters, marked.
pub open spec fn short_summary(s: Text) -> Text {
    if text::byte_len(s) > 2000 {
        text::first_chars(s, 2000) + "..."@
    } else {
        s
    }
}

/// The first text among blocks that says something.
pub open spec fn first_saying(content: Seq<BlockView>) -> Option<Text>
    decreases content.len(),
{
    if content.len() == 0 {
        None
    } else {
        match content[0] {
            ContentBlock::Text { text } => if text::is_blank(text) {
                first_saying(content.drop_first())
            } else {
                Some(text::trimmed(text))
            },
            _ => first_saying(content.drop_first()),
        }
    }
}

/// The latest text of the assistant that says something.
pub open spec fn last_said(es: Seq<EntryView>) -> Option<Text>
    decreases es.len(),
{
    if es.len() == 0 {
        None
    } else {
        let here = if es.last().role == Role::Assistant {
            first_saying(es.last().content)
        } else {
            None
        };
        if here is Some {
            here
        } else {
            last_said(es.drop_last())
        }
    }
}

/// The summary of a sub-agent's conversation.
pub open spec fn conversation_result(es: Seq<EntryView>) -> Text {
    match last_said(es) {
        Some(s) => short_summary(s),
        None => Seq::empty(),
    }
}

/// The first text among blocks that says something, trimmed.
pub fn find_saying(content: &Vec<ContentBlock>) -> (r: Option<String>)
    ensures
        text::opt_text(r) == first_saying(api::blocks(content@)),
{
    let ghost all = api::blocks(content@);
    let mut i: usize = 0;
    assert(all.skip(0) =~= all);
    while i < content.len()
        invariant
            i <= content@.len(),
            all == api::blocks(content@),
            first_saying(all) == first_saying(all.skip(i as int)),
        decreases content@.len() - i,
    {
        assert(all.skip(i as int)[0] == content@[i as int]@);
        assert(all.skip(i as int).drop_first() =~= all.skip(i + 1));
        if let ContentBlock::Text { text } = &content[i] {
            let t = text::trim(text.as_str());
            if !t.as_str().is_empty() {
                return Some(t);
            }
        }
        i = i + 1;
    }
    None
}

/// The summary of a sub-agent's conversation: the latest thing it said.
pub fn extract_subagent_summary(history: &ConversationHistory) -> (r: String)
    ensures
        r@ == conversation_result(history@),
{
    let entries = history.entries_raw();
    let ghost es = history@;
    let mut k: usize = entries.len();
    assert(es.take(k as int) =~= es);
    while k > 0
        invariant
            k <= entries@.len(),
            es == history@,
            es == messages::entries_view(entries@),
            last_said(es) == last_said(es.take(k as int)),
        decreases k,
    {
        assert(es.take(k as int).last() == entries@[k - 1]@);
        assert(es.take(k as int).drop_last() =~= es.take(k - 1));
        if entries[k - 1].role == Role::Assistant {
            if let Some(s) = find_saying(&entries[k - 1].content) {
                if text::str_bytes(s.as_str()) > 2000 {
                    let head = text::take_chars(s.as_str(), 2000);
                    return text::cat2(head.as_str(), "...");
                }
                return s;
            }
        }
        k = k - 1;
    }
    String::new()
}

// ---------------------------------------------------------------------------
// The client
// ---------------------------------------------------------------------------

/// Why a sub-agent could not be set up or did not finish.
pub enum SubAgentError<S = String> {
    ClientCreation(S),
    NoProvider,
    /// The seconds after which it was given up.
    Timeout(S),
    Cancelled,
}

impl View for SubAgentError<String> {
    type V = SubAgentError<Text>;

    open spec fn view(&self) -> SubAgentError<Text> {
        match *self {
            SubAgentError::ClientCreation(s) => SubAgentError::ClientCreation(s@),
            SubAgentError::NoProvider => SubAgentError::NoProvider,
            SubAgentError::Timeout(s) => SubAgentError::Timeout(s@),
            SubAgentError::Cancelled => SubAgentError::Cancelled,
        }
    }
}

/// An error in words.
pub open spec fn error_text(e: SubAgentError<Text>) -> Text {
    match e {
        SubAgentError::ClientCreation(s) => "Client creation failed: "@ + s,
        SubAgentError::NoProvider => "No provider available"@,
        SubAgentError::Timeout(s) => "Sub-agent timed out after "@ + s + "s"@,
        SubAgentError::Cancelled => "Cancelled"@,
    }
}

impl SubAgentError<String> {
    /// The error in words.
    pub fn message(&self) -> (r: String)
        ensures
            r@ == error_text(self@),
    {
        match self {
            SubAgentError::ClientCreation(s) => text::cat2("Client creation failed: ", s.as_str()),
            SubAgentError::NoProvider => text::copy("No provider available"),
            SubAgentError::Timeout(s) => text::cat3("Sub-agent timed out after ", s.as_str(), "s"),
            SubAgentError::Cancelled => text::copy("Cancelled"),
        }
    }
}

/// How a provider is reached.
pub struct ProviderAccess<S = String> {
    pub name: S,
    pub base_url: S,
    pub api_key: Option<S>,
    pub default_model: S,
    pub max_output_tokens: Option<u32>,
}

impl View for ProviderAccess<String> {
    type V = ProviderAccess<Text>;

    open spec fn view(&self) -> ProviderAccess<Text> {
        ProviderAccess {
            name: self.name@,
            base_url: self.base_url@,
            api_key: text::opt_text(self.api_key),
            default_model: self.default_model@,
            max_output_tokens: self.max_output_tokens,
        }
    }
}

/// What a list of providers holds.
pub open spec fn accesses(v: Seq<ProviderAccess>) -> Seq<ProviderAccess<Text>> {
    Seq::new(v.len(), |i: int| v[i]@)
}

/// What the settings say of the clients of sub-agents: empty fields are left to
/// the provider.
pub struct DelegationClient<S = String> {
    pub provider: S,
    pub url: Option<S>,
    pub api_key: Option<S>,
    pub model: S,
}

impl View for DelegationClient<String> {
    type V = DelegationClient<Text>;

    open spec fn view(&self) -> DelegationClient<Text> {
        DelegationClient {
            provider: self.provider@,
            url: text::opt_text(self.url),
            api_key: text::opt_text(self.api_key),
            model: self.model@,
        }
    }
}

/// The provider of a name.
pub open spec fn access_named(providers: Seq<ProviderAccess<Text>>, name: Text) -> Option<
    ProviderAccess<Text>,
>
    decreases providers.len(),
{
    if providers.len() == 0 {
        None
    } else if providers[0].name == name {
        Some(providers[0])
    } else {
        access_named(providers.drop_first(), name)
    }
}

/// Whether the provider is left to the session.
pub open spec fn is_auto(d: DelegationClient<Text>) -> bool {
    d.provider == "auto"@ || d.provider.len() == 0
}

/// The client of a sub-agent: the session's provider or the one that is named,
/// with what the settings put in place of its address, key and model.
pub open spec fn client_plan(
    d: DelegationClient<Text>,
    providers: Seq<ProviderAccess<Text>>,
    active_provider: Text,
    session_model: Text,
) -> Result<ProviderAccess<Text>, SubAgentError<Text>> {
    let name = if is_auto(d) {
        active_provider
    } else {
        d.provider
    };
    match access_named(providers, name) {
        None => if is_auto(d) {
            Err(SubAgentError::NoProvider)
        } else {
            Err(
                SubAgentError::ClientCreation(
                    "Provider '"@ + d.provider
                        + "' not found in config for sub-agent delegation"@,
                ),
            )
        },
        Some(p) => {
            let key = if d.api_key is Some {
                d.api_key
            } else {
                p.api_key
            };
            if key is None {
                Err(SubAgentError::ClientCreation("No API key for provider '"@ + name + "'"@))
            } else {
                Ok(
                    ProviderAccess {
                        name,
                        base_url: match d.url {
                            Some(u) => u,
                            None => p.base_url,
                        },
                        api_key: key,
                        default_model: if d.model.len() > 0 {
                            d.model
                        } else if session_model.len() > 0 {
                            session_model
                        } else {
                            p.default_model
                        },
                        max_output_tokens: p.max_output_tokens,
                    },
                )
            }
        },
    }
}

fn find_access<'a>(providers: &'a Vec<ProviderAccess>, name: &str) -> (r: Option<
    &'a ProviderAccess,
>)
    ensures
        match r {
            Some(p) => access_named(accesses(providers@), name@) == Some(p@),
            None => access_named(accesses(providers@), name@) is None,
        },
{
    let ghost all = accesses(providers@);
    let mut i: usize = 0;
    assert(all.skip(0) =~= all);
    while i < providers.len()
        invariant
            i <= providers@.len(),
            all == accesses(providers@),
            access_named(all, name@) == access_named(all.skip(i as int), name@),
        decreases providers@.len() - i,
    {
        assert(all.skip(i as int)[0] == providers@[i as int]@);
        assert(all.skip(i as int).drop_first() =~= all.skip(i + 1));
        if text::same(providers[i].name.as_str(), name) {
            return Some(&providers[i]);
        }
        i = i + 1;
    }
    None
}

/// Settle which client a sub-agent gets. The key may still name a variable of
/// the environment.
pub fn create_subagent_client(
    delegation: &DelegationClient,
    providers: &Vec<ProviderAccess>,
    active_provider: &str,
    session_model: &str,
) -> (r: Result<ProviderAccess, SubAgentError>)
    ensures
        match client_plan(
            delegation@,
            accesses(providers@),
            active_provider@,
            session_model@,
        ) {
            Ok(plan) => r is Ok && r->Ok_0@ == plan,
            Err(e) => r is Err && r->Err_0@ == e,
        },
{
    let auto = text::same(delegation.provider.as_str(), "auto")
        || delegation.provider.as_str().is_empty();
    let name = if auto {
        text::copy(active_provider)
    } else {
        text::copy(delegation.provider.as_str())
    };
    let p = match find_access(providers, name.as_str()) {
        Some(p) => p,
        None => {
            if auto {
                return Err(SubAgentError::NoProvider);
            }
            return Err(
                SubAgentError::ClientCreation(
                    text::cat3(
                        "Provider '",
                        delegation.provider.as_str(),
                        "' not found in config for sub-agent delegation",
                    ),
                ),
            );
        },
    };
    let key = if delegation.api_key.is_some() {
        text::copy_opt(&delegation.api_key)
    } else {
        text::copy_opt(&p.api_key)
    };
    if key.is_none() {
        return Err(
            SubAgentError::ClientCreation(
                text::cat3("No API key for provider '", name.as_str(), "'"),
            ),
        );
    }
    let base_url = match &delegation.url {
        Some(u) => text::copy(u.as_str()),
        None => text::copy(p.base_url.as_str()),
    };
    let model = if !delegation.model.as_str().is_empty() {
        text::copy(delegation.model.as_str())
    } else if !session_model.is_empty() {
        text::copy(session_model)
    } else {
        text::copy(p.default_model.as_str())
    };
    Ok(
        ProviderAccess {
            name,
            base_url,
            api_key: key,
            default_model: model,
            max_output_tokens: p.max_output_tokens,
        },
    )
}

/// A sub-agent is told its task, what it is to know for it, and every tool that it has.
pub proof fn law_sub_agent_is_told_its_task(goal: Text, context: Option<Text>, tools: Seq<Text>)
    ensures
        text::has_substring(text::joined(prompt_parts(goal, context, tools), "\n"@), goal),
        context matches Some(c) && !text::is_blank(c) ==> text::has_substring(
            text::joined(prompt_parts(goal, context, tools), "\n"@),
            context->Some_0,
        ),
        forall|i: int|
            0 <= i < tools.len() ==> text::has_substring(
                text::joined(prompt_parts(goal, context, tools), "\n"@),
                #[trigger] tools[i],
            ),
{
    let parts = prompt_parts(goal, context, tools);
    let whole = text::joined(parts, "\n"@);
    let none = Seq::<char>::empty();
    text::lemma_joined_has(parts, "\n"@, 2);
    text::lemma_stands_between("YOUR TASK:\n"@, goal, none);
    assert(parts[2] =~= "YOUR TASK:\n"@ + goal + none);
    text::lemma_stands_within(whole, parts[2], goal);
    if let Some(c) = context {
        if !text::is_blank(c) {
            text::lemma_joined_has(parts, "\n"@, 3);
            text::lemma_stands_between("\nCONTEXT:\n"@, c, none);
            assert(parts[3] =~= "\nCONTEXT:\n"@ + c + none);
            text::lemma_stands_within(whole, parts[3], c);
        }
    }
    assert forall|i: int| 0 <= i < tools.len() implies text::has_substring(
        whole,
        #[trigger] tools[i],
    ) by {
        let n = parts.len() - 2;
        let all = text::joined(tools, ", "@);
        text::lemma_joined_has(parts, "\n"@, n);
        text::lemma_stands_between("\n## Available Tools\n\n"@, all, none);
        assert(parts[n] =~= "\n## Available Tools\n\n"@ + all + none);
        text::lemma_stands_within(whole, parts[n], all);
        text::lemma_joined_has(tools, ", "@, i);
        text::lemma_stands_within(whole, all, tools[i]);
    }
}

/// A sub-agent has every tool that is meant for it and not blocked, and no tool that
/// nobody named: those that are set, or the five that only read where none are.
pub proof fn law_sub_agent_has_its_tools(
    extra: Seq<Text>,
    defaults: Seq<Text>,
    blocked: Seq<Text>,
    tool: Text,
)
    ensures
        ({
            let base = if defaults.len() == 0 {
                seq!["read"@, "glob"@, "grep"@, "web_search"@, "web_fetch"@]
            } else {
                defaults
            };
            let barred = blocked.contains(tool) || tool == "delegate_task"@ || tool
                == "ask_user"@ || tool == "memory"@ || tool == "skill_manage"@;
            effective_tools(extra, defaults, blocked).contains(tool) == (!barred && (
            base.contains(tool) || extra.contains(tool)))
        }),
{
    let base = if defaults.len() == 0 {
        builtin_tools()
    } else {
        defaults
    };
    let pred = |t: Text| !is_blocked(t, blocked);
    let kept = base.filter(pred);
    let b = builtin_blocked();
    assert(b[0] == "delegate_task"@ && b[1] == "ask_user"@ && b[2] == "memory"@ && b[3]
        == "skill_manage"@);
    if base.contains(tool) && pred(tool) {
        let k = choose|k: int| 0 <= k < base.len() && base[k] == tool;
        base.lemma_filter_contains(pred, k);
    }
    if kept.contains(tool) {
        base.lemma_filter_contains_rev(pred, tool);
        let k = choose|k: int| 0 <= k < kept.len() && kept[k] == tool;
        base.lemma_filter_pred(pred, k);
    }
    lemma_plus_tools_holds(kept, extra, blocked, tool);
}

proof fn lemma_plus_tools_holds(tools: Seq<Text>, more: Seq<Text>, blocked: Seq<Text>, tool: Text)
    ensures
        plus_tools(tools, more, blocked).contains(tool) == (tools.contains(tool) || (
        more.contains(tool) && !is_blocked(tool, blocked))),
    decreases more.len(),
{
    if more.len() > 0 {
        let rest = more.drop_last();
        lemma_plus_tools_holds(tools, rest, blocked, tool);
        let before = plus_tools(tools, rest, blocked);
        let x = more.last();
        assert(more.contains(tool) == (rest.contains(tool) || x == tool)) by {
            if more.contains(tool) && x != tool {
                let k = choose|k: int| 0 <= k < more.len() && more[k] == tool;
                assert(rest[k] == tool);
            }
            if rest.contains(tool) {
                let k = choose|k: int| 0 <= k < rest.len() && rest[k] == tool;
                assert(more[k] == tool);
            }
            if x == tool {
                assert(more[more.len() - 1] == tool);
            }
        }
        let after = before.push(x);
        assert(after.contains(tool) == (before.contains(tool) || x == tool)) by {
            if after.contains(tool) && x != tool {
                let k = choose|k: int| 0 <= k < after.len() && after[k] == tool;
                assert(before[k] == tool);
            }
            if before.contains(tool) {
                let k = choose|k: int| 0 <= k < before.len() && before[k] == tool;
                assert(after[k] == tool);
            }
            if x == tool {
                assert(after[after.len() - 1] == tool);
            }
        }
    }
}

/// What was said last is the latest text of the assistant that is not blank: it is there,
/// trimmed, and no later entry of the assistant says anything; where there is none, the
/// assistant said nothing at all.
pub proof fn law_last_said_is_the_latest(es: Seq<EntryView>, k: int, j: int)
    requires
        0 <= k < es.len(),
        es[k].role == Role::Assistant,
        0 <= j < es[k].content.len(),
        es[k].content[j] is Text,
        !text::is_blank(es[k].content[j]->text),
        forall|i: int, m: int|
            #![trigger es[i].content[m]]
            k < i < es.len() && es[i].role == Role::Assistant && 0 <= m < es[i].content.len()
                && es[i].content[m] is Text ==> text::is_blank(es[i].content[m]->text),
        forall|m: int|
            #![trigger es[k].content[m]]
            0 <= m < j && es[k].content[m] is Text ==> text::is_blank(es[k].content[m]->text),
    ensures
        last_said(es) == Some(text::trimmed(es[k].content[j]->text)),
    decreases es.len(),
{
    let rest = es.drop_last();
    if k == es.len() - 1 {
        lemma_first_saying(es[k].content, j);
    } else {
        let last = es[es.len() - 1];
        if last.role == Role::Assistant {
            assert forall|m: int| 0 <= m < last.content.len() && (#[trigger] last.content[m]) is Text
                implies text::is_blank(last.content[m]->text) by {
                assert(es[es.len() - 1].content[m] == last.content[m]);
            }
            lemma_nothing_said(last.content);
        }
        assert forall|i: int, m: int|
            #![trigger rest[i].content[m]]
            k < i < rest.len() && rest[i].role == Role::Assistant && 0 <= m < rest[i].content.len()
                && rest[i].content[m] is Text implies text::is_blank(rest[i].content[m]->text) by {
            assert(es[i].content[m] == rest[i].content[m]);
        }
        assert(rest[k] == es[k]);
        law_last_said_is_the_latest(rest, k, j);
    }
}

proof fn lemma_first_saying(content: Seq<BlockView>, j: int)
    requires
        0 <= j < content.len(),
        content[j] is Text,
        !text::is_blank(content[j]->text),
        forall|m: int|
            0 <= m < j && (#[trigger] content[m]) is Text ==> text::is_blank(content[m]->text),
    ensures
        first_saying(content) == Some(text::trimmed(content[j]->text)),
    decreases content.len(),
{
    if j > 0 {
        let rest = content.drop_first();
        assert forall|m: int| 0 <= m < j - 1 && (#[trigger] rest[m]) is Text implies text::is_blank(
            rest[m]->text,
        ) by {
            assert(rest[m] == content[m + 1]);
        }
        assert(rest[j - 1] == content[j]);
        lemma_first_saying(rest, j - 1);
        assert(content[0] is Text ==> text::is_blank(content[0]->text));
    }
}

proof fn lemma_nothing_said(content: Seq<BlockView>)
    requires
        forall|m: int|
            0 <= m < content.len() && (#[trigger] content[m]) is Text ==> text::is_blank(
                content[m]->text,
            ),
    ensures
        first_saying(content) is None,
    decreases content.len(),
{
    if content.len() > 0 {
        let rest = content.drop_first();
        assert forall|m: int| 0 <= m < rest.len() && (#[trigger] rest[m]) is Text implies
            text::is_blank(rest[m]->text) by {
            assert(rest[m] == content[m + 1]);
        }
        lemma_nothing_said(rest);
        assert(content[0] is Text ==> text::is_blank(content[0]->text));
    }
}

/// What a sub-agent reports is what it said last, whole where it is at most 2000 bytes.
pub proof fn law_short_reports_are_whole(es: Seq<EntryView>)
    ensures
        match last_said(es) {
            Some(s) => {
                &&& text::byte_len(s) <= 2000 ==> conversation_result(es) == s
                &&& s.len() > 2000 ==> text::has_prefix(conversation_result(es), s.take(2000))
            },
            None => conversation_result(es).len() == 0,
        },
{
    if let Some(s) = last_said(es) {
        text::lemma_byte_len_bounds(s);
        if s.len() > 2000 {
            text::lemma_both_stand(s.take(2000), "..."@);
        }
    }
}

/// A sub-agent asks the provider that its delegation names, or the session's own where it
/// names none, with the delegation's own key, address and model wherever it has them; and
/// it asks nobody without a key.
pub proof fn law_sub_agent_asks_whom_it_is_told_to(
    d: DelegationClient<Text>,
    providers: Seq<ProviderAccess<Text>>,
    active_provider: Text,
    session_model: Text,
    i: int,
)
    requires
        0 <= i < providers.len(),
        providers[i].name == (if d.provider.len() == 0 || d.provider == "auto"@ {
            active_provider
        } else {
            d.provider
        }),
        forall|j: int| 0 <= j < i ==> (#[trigger] providers[j]).name != providers[i].name,
    ensures
        match client_plan(d, providers, active_provider, session_model) {
            Ok(access) => {
                &&& access.name == providers[i].name
                &&& access.api_key is Some
                &&& d.api_key is Some ==> access.api_key == d.api_key
                &&& d.api_key is None ==> access.api_key == providers[i].api_key
                &&& d.url matches Some(url) ==> access.base_url == url
                &&& d.url is None ==> access.base_url == providers[i].base_url
                &&& d.model.len() > 0 ==> access.default_model == d.model
                &&& d.model.len() == 0 && session_model.len() > 0 ==> access.default_model
                    == session_model
                &&& d.model.len() == 0 && session_model.len() == 0 ==> access.default_model
                    == providers[i].default_model
                &&& access.max_output_tokens == providers[i].max_output_tokens
            },
            Err(_) => d.api_key is None && providers[i].api_key is None,
        },
{
    lemma_first_access(providers, providers[i].name, i);
}

proof fn lemma_first_access(providers: Seq<ProviderAccess<Text>>, name: Text, i: int)
    requires
        0 <= i < providers.len(),
        providers[i].name == name,
        forall|j: int| 0 <= j < i ==> (#[trigger] providers[j]).name != name,
    ensures
        access_named(providers, name) == Some(providers[i]),
    decreases providers.len(),
{
    if i > 0 {
        assert(providers[0].name != name);
        assert(providers.drop_first()[i - 1] == providers[i]);
        lemma_first_access(providers.drop_first(), name, i - 1);
    }
}

/// A sub-agent's call is told by the file it touches, the command it runs, the page it
/// fetches or what it looks for, whole.
pub proof fn law_sub_agent_calls_are_told_whole(input: JsonView, x: Text)
    ensures
        json::str_member(input, "path"@) == Some(x) ==> call_summary("read"@, input) == x
            && call_summary("write"@, input) == x && call_summary("edit"@, input) == x,
        json::str_member(input, "command"@) == Some(x) ==> call_summary("bash"@, input) == x,
        json::str_member(input, "query"@) == Some(x) ==> call_summary("web_search"@, input) == x,
        json::str_member(input, "url"@) == Some(x) ==> call_summary("web_fetch"@, input) == x,
        json::str_member(input, "pattern"@) == Some(x) ==> call_summary("glob"@, input) == x,
{
    reveal_strlit("read");
    reveal_strlit("write");
    reveal_strlit("edit");
    reveal_strlit("bash");
    reveal_strlit("web_search");
    reveal_strlit("web_fetch");
    reveal_strlit("glob");
    assert("bash"@[0] == 'b' && "read"@[0] == 'r' && "write"@[1] == 'r' && "edit"@[0] == 'e');
    assert("web_search"@.len() == 10 && "web_fetch"@.len() == 9);
    assert("glob"@[0] == 'g' && "glob"@.len() == 4 && "bash"@.len() == 4);
    assert("read"@.len() == 4 && "write"@.len() == 5 && "edit"@.len() == 4);
}

} // verus!
