//! The state of a session.

use crate::api::ContentBlock;
use crate::api::Role;
use crate::engine::carryover;
use crate::engine::carryover::Carryover;
use crate::engine::carryover::CarryoverView;
use crate::engine::compact::CompactConfig;
use crate::engine::cost_tracker;
use crate::engine::cost_tracker::CostTracker;
use crate::engine::cost_tracker::CostView;
use crate::engine::messages;
use crate::engine::messages::ConversationEntry;
use crate::engine::messages::ConversationHistory;
use crate::engine::messages::EntryView;
use crate::engine::review::SkillsConfig;
use crate::text;
use crate::text::Text;
use vstd::prelude::*;
use vstd::string::*;

verus! {

/// A provider of models.
pub struct ProviderConfig<S = String> {
    pub name: S,
    pub default_model: S,
    pub max_output_tokens: Option<u32>,
    /// Whether its models take pictures.
    pub sees_images: bool,
}

/// What a `ProviderConfig` holds.
pub type ProviderView = ProviderConfig<Text>;

impl View for ProviderConfig<String> {
    type V = ProviderConfig<Text>;

    open spec fn view(&self) -> ProviderConfig<Text> {
        ProviderConfig {
            name: self.name@,
            default_model: self.default_model@,
            max_output_tokens: self.max_output_tokens,
            sees_images: self.sees_images,
        }
    }
}

/// What a list of providers holds.
pub open spec fn providers_view(v: Seq<ProviderConfig>) -> Seq<ProviderView> {
    Seq::new(v.len(), |i: int| v[i]@)
}

/// The settings that the engine goes by.
pub struct EngineSettings {
    pub active_provider: String,
    pub providers: Vec<ProviderConfig>,
    /// How often a request is made again after it failed or came to nothing.
    pub max_retries: u32,
    /// How often the model is asked to go on by itself.
    pub max_auto_continue: u32,
    /// Seconds without a token after which a stream is given up; 0 for never.
    pub stream_timeout_secs: u64,
    pub skills: SkillsConfig,
    /// Whether sub-agents can be started.
    pub can_delegate: bool,
}

/// What an `EngineSettings` holds.
#[verifier::ext_equal]
pub struct SettingsView {
    pub active_provider: Text,
    pub providers: Seq<ProviderView>,
    pub max_retries: u32,
    pub max_auto_continue: u32,
    pub stream_timeout_secs: u64,
    pub skills: SkillsConfig,
    pub can_delegate: bool,
}

impl View for EngineSettings {
    type V = SettingsView;

    open spec fn view(&self) -> SettingsView {
        SettingsView {
            active_provider: self.active_provider@,
            providers: providers_view(self.providers@),
            max_retries: self.max_retries,
            max_auto_continue: self.max_auto_continue,
            stream_timeout_secs: self.stream_timeout_secs,
            skills: self.skills,
            can_delegate: self.can_delegate,
        }
    }
}

/// The state of a session.
pub struct QueryEngine {
    pub model: String,
    pub system_prompt: String,
    pub history: ConversationHistory,
    pub max_turns: u32,
    pub max_tokens: u32,
    pub cost_tracker: CostTracker,
    pub compact_config: CompactConfig,
    pub settings: EngineSettings,
    /// The working directory when the session started.
    pub cwd: String,
    /// The user's home directory, where there is one.
    pub home: Option<String>,
    pub carryover: Carryover,
    /// Whether every tool call is allowed in this session.
    pub permission_allow_all: bool,
    /// What the user said while the model was at work.
    pub pending_steer: Option<String>,
    pub turns_since_skill_review: u32,
    /// The identity that the session runs under.
    pub active_identity: Option<String>,
}

/// What a `QueryEngine` holds.
#[verifier::ext_equal]
pub struct EngineView {
    pub model: Text,
    pub system_prompt: Text,
    pub history: Seq<EntryView>,
    pub max_turns: u32,
    pub max_tokens: u32,
    pub costs: CostView,
    pub compact_config: CompactConfig,
    pub settings: SettingsView,
    pub cwd: Text,
    pub home: Option<Text>,
    pub carryover: CarryoverView,
    pub permission_allow_all: bool,
    pub steer: Option<Text>,
    pub turns_since_skill_review: u32,
    pub active_identity: Option<Text>,
}

impl View for QueryEngine {
    type V = EngineView;

    open spec fn view(&self) -> EngineView {
        EngineView {
            model: self.model@,
            system_prompt: self.system_prompt@,
            history: self.history@,
            max_turns: self.max_turns,
            max_tokens: self.max_tokens,
            costs: self.cost_tracker@,
            compact_config: self.compact_config,
            settings: self.settings@,
            cwd: self.cwd@,
            home: text::opt_text(self.home),
            carryover: self.carryover@,
            permission_allow_all: self.permission_allow_all,
            steer: text::opt_text(self.pending_steer),
            turns_since_skill_review: self.turns_since_skill_review,
            active_identity: text::opt_text(self.active_identity),
        }
    }
}

// ---------------------------------------------------------------------------
// What the user says in between
// ---------------------------------------------------------------------------

/// The slot after `text` was put into it: trimmed, and on a line of its own
/// after what was there.
pub open spec fn steered(slot: Option<Text>, text: Text) -> Option<Text> {
    let cleaned = text::trimmed(text);
    if cleaned.len() == 0 {
        slot
    } else {
        match slot {
            Some(existing) => Some(existing.push('\n') + cleaned),
            None => Some(cleaned),
        }
    }
}

/// Put what the user says into the slot that the engine looks at between tool
/// results and the next request. Returns whether there was anything to put.
pub fn steer_into_slot(slot: &mut Option<String>, text: &str) -> (r: bool)
    ensures
        text::opt_text(*final(slot)) == steered(text::opt_text(*old(slot)), text@),
        r == !text::is_blank(text@),
{
    let cleaned = text::trim(text);
    if cleaned.as_str().is_empty() {
        return false;
    }
    let next = match slot {
        Some(existing) => {
            let mut s = text::copy(existing.as_str());
            s.push('\n');
            s.append(cleaned.as_str());
            s
        },
        None => cleaned,
    };
    *slot = Some(next);
    true
}

/// The provider of a name.
pub open spec fn provider_named(providers: Seq<ProviderView>, name: Text) -> Option<ProviderView>
    decreases providers.len(),
{
    if providers.len() == 0 {
        None
    } else if providers[0].name == name {
        Some(providers[0])
    } else {
        provider_named(providers.drop_first(), name)
    }
}

/// Whether the last entry holds tool results that the model has not seen.
pub open spec fn awaits_model(es: Seq<EntryView>) -> bool {
    es.len() >= 2 && es.last().role == Role::User && messages::holds_result(es.last().content)
        && es[es.len() - 2].role == Role::Assistant && holds_call(es[es.len() - 2].content)
}

/// Whether one of the blocks is a tool call.
pub open spec fn holds_call(content: Seq<crate::api::BlockView>) -> bool {
    exists|j: int| 0 <= j < content.len() && (#[trigger] content[j]) is ToolUse
}

fn has_call_block(content: &Vec<ContentBlock>) -> (r: bool)
    ensures
        r == holds_call(crate::api::blocks(content@)),
{
    let ghost all = crate::api::blocks(content@);
    let mut i: usize = 0;
    while i < content.len()
        invariant
            i <= content@.len(),
            all == crate::api::blocks(content@),
            forall|j: int| 0 <= j < i ==> !((#[trigger] all[j]) is ToolUse),
        decreases content@.len() - i,
    {
        let is_call = match &content[i] {
            ContentBlock::ToolUse { .. } => true,
            _ => false,
        };
        assert(is_call == (all[i as int] is ToolUse));
        if is_call {
            return true;
        }
        i = i + 1;
    }
    false
}

impl EngineSettings {
    /// The provider of a name.
    pub fn provider(&self, name: &str) -> (r: Option<&ProviderConfig>)
        ensures
            match r {
                Some(p) => provider_named(self@.providers, name@) == Some(p@),
                None => provider_named(self@.providers, name@) is None,
            },
    {
        let ghost all = self@.providers;
        let mut i: usize = 0;
        assert(all.skip(0) =~= all);
        while i < self.providers.len()
            invariant
                i <= self.providers@.len(),
                all == providers_view(self.providers@),
                all == self@.providers,
                provider_named(all, name@) == provider_named(all.skip(i as int), name@),
            decreases self.providers@.len() - i,
        {
            assert(all.skip(i as int)[0] == self.providers@[i as int]@);
            assert(all.skip(i as int).drop_first() =~= all.skip(i + 1));
            if text::same(self.providers[i].name.as_str(), name) {
                return Some(&self.providers[i]);
            }
            i = i + 1;
        }
        None
    }
}

/// A session that has not begun.
pub open spec fn fresh_engine(
    model: Text,
    system_prompt: Text,
    history: Seq<EntryView>,
    max_turns: u32,
    max_tokens: u32,
    compact_config: CompactConfig,
    settings: SettingsView,
    cwd: Text,
) -> EngineView {
    EngineView {
        model,
        system_prompt,
        history,
        max_turns,
        max_tokens,
        costs: cost_tracker::no_costs(),
        compact_config,
        settings,
        cwd,
        home: None,
        carryover: carryover::no_carryover(),
        permission_allow_all: false,
        steer: None,
        turns_since_skill_review: 0,
        active_identity: None,
    }
}

impl QueryEngine {
    /// A session that has not begun.
    pub fn new(
        model: String,
        system_prompt: String,
        history: ConversationHistory,
        max_turns: u32,
        max_tokens: u32,
        compact_config: CompactConfig,
        settings: EngineSettings,
        cwd: String,
    ) -> (r: QueryEngine)
        ensures
            r@ == fresh_engine(
                model@,
                system_prompt@,
                history@,
                max_turns,
                max_tokens,
                compact_config,
                settings@,
                cwd@,
            ),
    {
        QueryEngine {
            model,
            system_prompt,
            history,
            max_turns,
            max_tokens,
            cost_tracker: CostTracker::default(),
            compact_config,
            settings,
            cwd,
            home: None,
            carryover: Carryover::default(),
            permission_allow_all: false,
            pending_steer: None,
            turns_since_skill_review: 0,
            active_identity: None,
        }
    }

    /// Change when the conversation is compacted.
    pub fn set_compact_config(&mut self, config: CompactConfig)
        ensures
            final(self)@ == (EngineView { compact_config: config, ..old(self)@ }),
    {
        self.compact_config = config;
    }

    /// Change the model.
    pub fn set_model(&mut self, model: String)
        ensures
            final(self)@ == (EngineView { model: model@, ..old(self)@ }),
    {
        self.model = model;
    }

    /// Change to the default model of a provider.
    pub fn set_provider(&mut self, provider: &str) -> (r: Result<(), String>)
        ensures
            match provider_named(old(self)@.settings.providers, provider@) {
                Some(p) => r is Ok && final(self)@ == (EngineView {
                    model: p.default_model,
                    ..old(self)@
                }),
                None => r is Err && r->Err_0@ == "Provider '"@ + provider@
                    + "' not found in config"@ && final(self)@ == old(self)@,
            },
    {
        let model = match self.settings.provider(provider) {
            Some(p) => text::copy(p.default_model.as_str()),
            None => {
                return Err(text::cat3("Provider '", provider, "' not found in config"));
            },
        };
        self.model = model;
        Ok(())
    }

    /// Change the system prompt.
    pub fn set_system_prompt(&mut self, prompt: String)
        ensures
            final(self)@ == (EngineView { system_prompt: prompt@, ..old(self)@ }),
    {
        self.system_prompt = prompt;
    }

    /// Change how many turns a query may take: at least one.
    pub fn set_max_turns(&mut self, max_turns: u32)
        ensures
            final(self)@ == (EngineView {
                max_turns: if max_turns < 1 {
                    1
                } else {
                    max_turns
                },
                ..old(self)@
            }),
    {
        self.max_turns = if max_turns < 1 {
            1
        } else {
            max_turns
        };
    }

    /// Take what the user said in between.
    pub fn drain_steer(&mut self) -> (r: Option<String>)
        ensures
            text::opt_text(r) == old(self)@.steer,
            final(self)@ == (EngineView { steer: None, ..old(self)@ }),
    {
        let r = text::copy_opt(&self.pending_steer);
        self.pending_steer = None;
        r
    }

    /// Drop what the user said in between.
    pub fn clear_steer(&mut self)
        ensures
            final(self)@ == (EngineView { steer: None, ..old(self)@ }),
    {
        self.pending_steer = None;
    }

    /// Take up a conversation that was saved. The costs start anew.
    pub fn load_messages(&mut self, entries: Vec<ConversationEntry>)
        ensures
            final(self)@ == (EngineView {
                history: messages::sanitized(messages::entries_view(entries@)),
                costs: cost_tracker::no_costs(),
                ..old(self)@
            }),
    {
        self.history = ConversationHistory::from_entries(entries);
        self.history.sanitize();
        self.cost_tracker = CostTracker::default();
    }

    /// Whether the conversation ends with tool results that the model has not
    /// seen.
    pub fn has_pending_continuation(&self) -> (r: bool)
        ensures
            r == awaits_model(self@.history),
    {
        let entries = self.history.entries_raw();
        let ghost es = self@.history;
        let n: usize = entries.len();
        assert(es.len() == n);
        if n < 2 {
            return false;
        }
        assert(es.last() == entries@[n - 1]@);
        assert(es[n - 2] == entries@[n - 2]@);
        let last = &entries[n - 1];
        let prev = &entries[n - 2];
        last.role == Role::User && messages::has_result_block(&last.content) && prev.role
            == Role::Assistant && has_call_block(&prev.content)
    }

    /// Whether there is a goal to go on with.
    pub fn can_auto_continue(&self) -> (r: bool)
        ensures
            r == (self@.carryover.task_focus.goal.len() > 0),
    {
        self.carryover.has_pending_goal()
    }

    /// The limit on output tokens that the active provider sets.
    pub fn provider_max_tokens(&self) -> (r: Option<u32>)
        ensures
            r == match provider_named(
                self@.settings.providers,
                self@.settings.active_provider,
            ) {
                Some(p) => p.max_output_tokens,
                None => None,
            },
    {
        match self.settings.provider(self.settings.active_provider.as_str()) {
            Some(p) => p.max_output_tokens,
            None => None,
        }
    }
}

/// What the user says in between comes out as it went in, each time on a line
/// of its own, and a second look finds nothing.
pub proof fn law_steer_keeps_every_line(slot: Option<Text>, first: Text, second: Text)
    requires
        !text::is_blank(first),
        !text::is_blank(second),
    ensures
        steered(steered(None, first), second) == Some(
            text::trimmed(first).push('\n') + text::trimmed(second),
        ),
        steered(slot, first) is Some,
{
}

/// An engine starts with what it is given, has spent nothing, is allowed nothing without
/// being asked for, and carries nothing over.
pub proof fn law_engines_start_fresh(
    model: Text,
    system_prompt: Text,
    history: Seq<EntryView>,
    max_turns: u32,
    max_tokens: u32,
    compact_config: CompactConfig,
    settings: SettingsView,
    cwd: Text,
)
    ensures
        ({
            let e = fresh_engine(
                model,
                system_prompt,
                history,
                max_turns,
                max_tokens,
                compact_config,
                settings,
                cwd,
            );
            &&& e.model == model
            &&& e.system_prompt == system_prompt
            &&& e.history == history
            &&& e.max_turns == max_turns
            &&& e.max_tokens == max_tokens
            &&& e.compact_config == compact_config
            &&& e.settings == settings
            &&& e.cwd == cwd
            &&& e.costs.input == 0 && e.costs.output == 0 && e.costs.turns == 0
            &&& e.costs.models.len() == 0
            &&& !e.permission_allow_all
            &&& e.steer is None
            &&& e.active_identity is None
            &&& e.turns_since_skill_review == 0
        }),
{
}

/// The provider of a name is the first that has it.
pub proof fn law_providers_are_found_by_name(providers: Seq<ProviderView>, i: int)
    requires
        0 <= i < providers.len(),
        forall|j: int| 0 <= j < i ==> (#[trigger] providers[j]).name != providers[i].name,
    ensures
        provider_named(providers, providers[i].name) == Some(providers[i]),
    decreases providers.len(),
{
    if i > 0 {
        let rest = providers.drop_first();
        assert(providers[0].name != providers[i].name);
        assert forall|j: int| 0 <= j < i - 1 implies (#[trigger] rest[j]).name
            != rest[i - 1].name by {
            assert(rest[j] == providers[j + 1]);
        }
        law_providers_are_found_by_name(rest, i - 1);
    }
}

/// A conversation waits for the model where tools have answered its calls, and not where
/// the model spoke last.
pub proof fn law_answered_calls_await_the_model(es: Seq<EntryView>, j: int, k: int)
    requires
        es.len() >= 2,
        0 <= j < es.last().content.len(),
        0 <= k < es[es.len() - 2].content.len(),
    ensures
        es.last().role == Role::Assistant ==> !awaits_model(es),
        es.last().role == Role::User && es.last().content[j] is ToolResult && es[es.len()
            - 2].role == Role::Assistant && es[es.len() - 2].content[k] is ToolUse
            ==> awaits_model(es),
{
}

} // verus!
