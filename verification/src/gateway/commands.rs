//! Slash commands: what each of them says and does.

use crate::engine::carryover;
use crate::engine::carryover::CarryoverView;
use crate::engine::cost_tracker;
use crate::engine::cost_tracker::CostTracker;
use crate::engine::cost_tracker::ModelCost;
use crate::engine::messages;
use crate::engine::messages::ConversationHistory;
use crate::engine::query_engine::EngineView;
use crate::engine::query_engine::QueryEngine;
use crate::engine::session;
use crate::engine::session::IndexView;
use crate::engine::session::SessionData;
use crate::engine::session::SessionIndexEntry;
use crate::engine::session::SessionView;
use crate::engine::session_index;
use crate::engine::tui_events;
use crate::engine::tui_events::EngineEvent;
use crate::engine::tui_events::EventView;
use crate::gateway::command_texts;
use crate::gateway::ui;
use crate::gateway::ui::AppMode;
use crate::gateway::ui::StatusInfo;
use crate::gateway::ui::StatusView;
use crate::gateway::ui::UiCommand;
use crate::gateway::ui::UiView;
use crate::text;
use crate::text::Text;
use vstd::prelude::*;
use vstd::string::*;

verus! {

// ---------------------------------------------------------------------------
// Commands
// ---------------------------------------------------------------------------

/// A slash command. What follows its name is trimmed.
pub enum Command<S = String> {
    Help,
    Exit,
    Tools,
    Memory,
    Mcp,
    Skills,
    Cost,
    Clear,
    Compact,
    Restore(S),
    Model(S),
    Hooks,
    Search(S),
    Goal(S),
    Identity(S),
    /// Not a command: the model is asked.
    Unknown,
}

/// What a `Command` holds.
pub type CommandView = Command<Text>;

impl View for Command<String> {
    type V = Command<Text>;

    open spec fn view(&self) -> Command<Text> {
        match *self {
            Command::Help => Command::Help,
            Command::Exit => Command::Exit,
            Command::Tools => Command::Tools,
            Command::Memory => Command::Memory,
            Command::Mcp => Command::Mcp,
            Command::Skills => Command::Skills,
            Command::Cost => Command::Cost,
            Command::Clear => Command::Clear,
            Command::Compact => Command::Compact,
            Command::Restore(s) => Command::Restore(s@),
            Command::Model(s) => Command::Model(s@),
            Command::Hooks => Command::Hooks,
            Command::Search(s) => Command::Search(s@),
            Command::Goal(s) => Command::Goal(s@),
            Command::Identity(s) => Command::Identity(s@),
            Command::Unknown => Command::Unknown,
        }
    }
}

/// What follows the name of a command.
pub open spec fn argument(input: Text, name: Text) -> Text {
    text::trimmed(input.skip(name.len() as int))
}

/// The command that a line is.
pub open spec fn parsed(input: Text) -> CommandView {
    if input == "/help"@ {
        Command::Help
    } else if input == "/exit"@ || input == "/quit"@ {
        Command::Exit
    } else if input == "/tools"@ {
        Command::Tools
    } else if input == "/memory"@ {
        Command::Memory
    } else if input == "/mcp"@ {
        Command::Mcp
    } else if input == "/skills"@ {
        Command::Skills
    } else if input == "/cost"@ {
        Command::Cost
    } else if input == "/clear"@ {
        Command::Clear
    } else if input == "/compact"@ {
        Command::Compact
    } else if text::has_prefix(input, "/restore"@) {
        Command::Restore(argument(input, "/restore"@))
    } else if text::has_prefix(input, "/resume"@) {
        Command::Restore(argument(input, "/resume"@))
    } else if text::has_prefix(input, "/model"@) {
        Command::Model(argument(input, "/model"@))
    } else if input == "/hooks"@ {
        Command::Hooks
    } else if text::has_prefix(input, "/search"@) {
        Command::Search(argument(input, "/search"@))
    } else if text::has_prefix(input, "/goal"@) {
        Command::Goal(argument(input, "/goal"@))
    } else if text::has_prefix(input, "/identity"@) {
        Command::Identity(argument(input, "/identity"@))
    } else {
        Command::Unknown
    }
}

fn argument_of(input: &str, name: &str) -> (r: Option<String>)
    ensures
        match r {
            Some(s) => text::has_prefix(input@, name@) && s@ == argument(input@, name@),
            None => !text::has_prefix(input@, name@),
        },
{
    match text::strip_prefix(input, name) {
        Some(rest) => Some(text::trim(rest.as_str())),
        None => None,
    }
}

/// The command that a line is.
pub fn parse_command(input: &str) -> (r: Command)
    ensures
        r@ == parsed(input@),
{
    if text::same(input, "/help") {
        return Command::Help;
    }
    if text::same(input, "/exit") || text::same(input, "/quit") {
        return Command::Exit;
    }
    if text::same(input, "/tools") {
        return Command::Tools;
    }
    if text::same(input, "/memory") {
        return Command::Memory;
    }
    if text::same(input, "/mcp") {
        return Command::Mcp;
    }
    if text::same(input, "/skills") {
        return Command::Skills;
    }
    if text::same(input, "/cost") {
        return Command::Cost;
    }
    if text::same(input, "/clear") {
        return Command::Clear;
    }
    if text::same(input, "/compact") {
        return Command::Compact;
    }
    if let Some(arg) = argument_of(input, "/restore") {
        return Command::Restore(arg);
    }
    if let Some(arg) = argument_of(input, "/resume") {
        return Command::Restore(arg);
    }
    if let Some(arg) = argument_of(input, "/model") {
        return Command::Model(arg);
    }
    if text::same(input, "/hooks") {
        return Command::Hooks;
    }
    if let Some(arg) = argument_of(input, "/search") {
        return Command::Search(arg);
    }
    if let Some(arg) = argument_of(input, "/goal") {
        return Command::Goal(arg);
    }
    if let Some(arg) = argument_of(input, "/identity") {
        return Command::Identity(arg);
    }
    Command::Unknown
}

/// What is done after a command was answered.
pub enum CommandTask<S = String> {
    /// Have the history summarised, which had so many entries.
    Compact { entries: usize },
    /// Load a session; the latest, where no other was asked for.
    LoadSession { id: S, latest: bool },
    /// Search the sessions.
    Search { query: S },
    /// Make the system prompt anew for an identity, or for none.
    SwitchIdentity { name: Option<S> },
}

/// What a `CommandTask` holds.
pub type TaskView = CommandTask<Text>;

impl View for CommandTask<String> {
    type V = CommandTask<Text>;

    open spec fn view(&self) -> CommandTask<Text> {
        match *self {
            CommandTask::Compact { entries } => CommandTask::Compact { entries },
            CommandTask::LoadSession { id, latest } => CommandTask::LoadSession { id: id@, latest },
            CommandTask::Search { query } => CommandTask::Search { query: query@ },
            CommandTask::SwitchIdentity { name } => CommandTask::SwitchIdentity {
                name: text::opt_text(name),
            },
        }
    }
}

/// What became of a line that began with a slash.
pub enum CommandResult {
    /// The user interface is told this.
    Handled(Vec<UiCommand>),
    /// It is no command: the model is asked.
    PassThrough,
}

/// What a `CommandResult` holds.
#[verifier::ext_equal]
pub enum ReplyView {
    Handled(Seq<UiView>),
    PassThrough,
}

impl View for CommandResult {
    type V = ReplyView;

    open spec fn view(&self) -> ReplyView {
        match self {
            CommandResult::Handled(cmds) => ReplyView::Handled(ui::commands_view(cmds@)),
            CommandResult::PassThrough => ReplyView::PassThrough,
        }
    }
}

// ---------------------------------------------------------------------------
// What commands speak of
// ---------------------------------------------------------------------------

/// A skill as it is listed.
pub struct SkillSummary<S = String> {
    pub name: S,
    pub description: S,
}

impl View for SkillSummary<String> {
    type V = SkillSummary<Text>;

    open spec fn view(&self) -> SkillSummary<Text> {
        SkillSummary { name: self.name@, description: self.description@ }
    }
}

/// What a list of skills holds.
pub open spec fn skills_view(v: Seq<SkillSummary>) -> Seq<SkillSummary<Text>> {
    Seq::new(v.len(), |i: int| v[i]@)
}

/// A group of skills.
pub struct CategoryInfo {
    pub name: String,
    pub description: String,
    pub skill_names: Vec<String>,
}

/// What a `CategoryInfo` holds.
#[verifier::ext_equal]
pub struct CategoryView {
    pub name: Text,
    pub description: Text,
    pub skill_names: Seq<Text>,
}

impl View for CategoryInfo {
    type V = CategoryView;

    open spec fn view(&self) -> CategoryView {
        CategoryView {
            name: self.name@,
            description: self.description@,
            skill_names: text::texts(self.skill_names@),
        }
    }
}

/// What a list of groups holds.
pub open spec fn categories_view(v: Seq<CategoryInfo>) -> Seq<CategoryView> {
    Seq::new(v.len(), |i: int| v[i]@)
}

/// What a list of hooks holds.
pub open spec fn hooks_view(v: Seq<(String, usize)>) -> Seq<(Text, usize)> {
    Seq::new(v.len(), |i: int| (v[i].0@, v[i].1))
}

/// What the other services say, as far as commands speak of it.
pub struct Services {
    pub memory_summary: String,
    /// The external memory, where there is one.
    pub external_memory: Option<String>,
    pub mcp_summary: String,
    pub mcp_server_count: usize,
    pub skills: Vec<SkillSummary>,
    pub categories: Vec<CategoryInfo>,
    /// The events that have hooks, and how many each.
    pub hooks: Vec<(String, usize)>,
    pub hook_count: usize,
    /// The identities that are defined.
    pub identities: Vec<String>,
    /// The sessions that are saved.
    pub sessions: Vec<SessionIndexEntry>,
}

/// What a `Services` holds.
#[verifier::ext_equal]
pub struct ServicesView {
    pub memory_summary: Text,
    pub external_memory: Option<Text>,
    pub mcp_summary: Text,
    pub mcp_server_count: usize,
    pub skills: Seq<SkillSummary<Text>>,
    pub categories: Seq<CategoryView>,
    pub hooks: Seq<(Text, usize)>,
    pub hook_count: usize,
    pub identities: Seq<Text>,
    pub sessions: Seq<IndexView>,
}

impl View for Services {
    type V = ServicesView;

    open spec fn view(&self) -> ServicesView {
        ServicesView {
            memory_summary: self.memory_summary@,
            external_memory: text::opt_text(self.external_memory),
            mcp_summary: self.mcp_summary@,
            mcp_server_count: self.mcp_server_count,
            skills: skills_view(self.skills@),
            categories: categories_view(self.categories@),
            hooks: hooks_view(self.hooks@),
            hook_count: self.hook_count,
            identities: text::texts(self.identities@),
            sessions: session::index_view(self.sessions@),
        }
    }
}

/// Answers commands.
pub struct CommandRouter {
    pub provider_name: String,
    pub model_name: String,
    pub builtin_tool_names: Vec<String>,
    /// What is to be done after the last command.
    pub task: Option<CommandTask>,
}

/// What a `CommandRouter` holds.
#[verifier::ext_equal]
pub struct RouterView {
    pub provider_name: Text,
    pub model_name: Text,
    pub tools: Seq<Text>,
    pub task: Option<TaskView>,
}

/// What an optional task holds.
pub open spec fn opt_task(t: Option<CommandTask>) -> Option<TaskView> {
    match t {
        Some(t) => Some(t@),
        None => None,
    }
}

impl View for CommandRouter {
    type V = RouterView;

    open spec fn view(&self) -> RouterView {
        RouterView {
            provider_name: self.provider_name@,
            model_name: self.model_name@,
            tools: text::texts(self.builtin_tool_names@),
            task: opt_task(self.task),
        }
    }
}

/// A text to the user, after which the terminal is idle.
pub open spec fn said(s: Text) -> Seq<UiView> {
    seq![UiCommand::AppendText(s), UiCommand::SetMode(AppMode::Idle)]
}

fn say(s: String) -> (r: CommandResult)
    ensures
        r@ == ReplyView::Handled(said(s@)),
{
    CommandResult::Handled(
        ui::two_commands(UiCommand::AppendText(s), UiCommand::SetMode(AppMode::Idle)),
    )
}

fn say_nothing() -> (r: CommandResult)
    ensures
        r@ == ReplyView::Handled(Seq::empty()),
{
    let none: Vec<UiCommand> = Vec::new();
    assert(ui::commands_view(none@) =~= Seq::<UiView>::empty());
    CommandResult::Handled(none)
}

// ---------------------------------------------------------------------------
// What commands do
// ---------------------------------------------------------------------------

/// What comes of a command: what is said, and what becomes of the session and
/// of the router.
#[verifier::ext_equal]
pub struct Dispatched {
    pub reply: ReplyView,
    pub engine: EngineView,
    pub router: RouterView,
}

/// A command that is only answered.
pub open spec fn answered(r: RouterView, e: EngineView, cmds: Seq<UiView>) -> Dispatched {
    Dispatched { reply: ReplyView::Handled(cmds), engine: e, router: r }
}

/// A command that leaves something to be done.
pub open spec fn tasked(r: RouterView, e: EngineView, task: TaskView) -> Dispatched {
    Dispatched {
        reply: ReplyView::Handled(Seq::empty()),
        engine: e,
        router: RouterView { task: Some(task), ..r },
    }
}

/// What `/clear` comes to.
pub open spec fn cleared(r: RouterView, e: EngineView) -> Dispatched {
    answered(
        r,
        EngineView { history: Seq::empty(), ..e },
        seq![
            UiCommand::ClearOutput,
            UiCommand::AppendText("Cleared "@ + text::decimal(e.history.len()) + " entries."@),
            UiCommand::SetMode(AppMode::Idle),
        ],
    )
}

/// What `/restore` comes to; `listing` lists the sessions of the identity.
pub open spec fn restoring(
    r: RouterView,
    e: EngineView,
    sessions: Seq<IndexView>,
    listing: Text,
    arg: Text,
) -> Dispatched {
    let own = session_index::filtered_by_identity(sessions, e.active_identity);
    if arg.len() == 0 {
        if own.len() > 0 {
            tasked(r, e, CommandTask::LoadSession { id: own[0].id, latest: true })
        } else {
            answered(r, e, said("No saved session to resume."@))
        }
    } else {
        match text::parsed_number(arg, usize::MAX as nat + 1) {
            Some(n) => if n == 0 || n > own.len() {
                answered(
                    r,
                    e,
                    said(
                        "Invalid session number: "@ + text::decimal(n) + ". "@ + (if own.len()
                            == 0 {
                            "No sessions available."@
                        } else {
                            ""@
                        }) + "\n\n"@ + listing,
                    ),
                )
            } else {
                tasked(r, e, CommandTask::LoadSession { id: own[n - 1].id, latest: false })
            },
            None => answered(r, e, said(listing)),
        }
    }
}

/// What `/model` comes to.
pub open spec fn modelled(r: RouterView, e: EngineView, arg: Text) -> Dispatched {
    if arg.len() > 0 {
        answered(
            RouterView { model_name: arg, ..r },
            EngineView { model: arg, ..e },
            seq![
                UiCommand::SetModel(arg),
                UiCommand::AppendText("Model temporarily set to: "@ + arg),
                UiCommand::SetMode(AppMode::Idle),
            ],
        )
    } else {
        answered(
            r,
            e,
            said("Model: "@ + r.model_name + " (provider: "@ + r.provider_name + ")"@),
        )
    }
}

/// What `/search` comes to; `listing` lists the sessions of the identity.
pub open spec fn searching(
    r: RouterView,
    e: EngineView,
    sessions: Seq<IndexView>,
    listing: Text,
    query: Text,
) -> Dispatched {
    if session_index::filtered_by_identity(sessions, e.active_identity).len() == 0 {
        answered(r, e, said("No saved sessions to search."@))
    } else if query.len() == 0 {
        answered(r, e, said("Usage: `/search [query]`\n\n"@ + listing))
    } else {
        tasked(r, e, CommandTask::Search { query })
    }
}

/// What `/goal` says.
pub open spec fn goal_reply(c: CarryoverView, arg: Text) -> Text {
    let goal = c.task_focus.goal;
    if arg.len() == 0 || arg == "status"@ {
        if goal.len() > 0 {
            " Goal (active): "@ + goal
        } else {
            "No active goal. Use /goal <text> to set one."@
        }
    } else if arg == "clear"@ || arg == "stop"@ {
        if goal.len() > 0 {
            " Goal cleared."@
        } else {
            "No active goal."@
        }
    } else if arg == "pause"@ {
        if goal.len() > 0 {
            "⏸ Goal paused: "@ + goal
        } else {
            "No active goal to pause."@
        }
    } else if arg == "resume"@ {
        if c.task_focus.recent_goals.len() > 0 {
            "▶ Goal resumed: "@ + c.task_focus.recent_goals.last()
        } else {
            "No recent goal to resume."@
        }
    } else {
        " Goal set: "@ + arg
    }
}

/// What `/goal` makes of the memory.
pub open spec fn goal_after(c: CarryoverView, arg: Text) -> CarryoverView {
    if arg.len() == 0 || arg == "status"@ {
        c
    } else if arg == "clear"@ || arg == "stop"@ {
        carryover::without_goal(c)
    } else if arg == "pause"@ {
        if c.task_focus.goal.len() > 0 {
            carryover::without_goal(c)
        } else {
            c
        }
    } else if arg == "resume"@ {
        if c.task_focus.recent_goals.len() > 0 {
            carryover::with_goal(c, c.task_focus.recent_goals.last())
        } else {
            c
        }
    } else {
        carryover::with_goal(c, arg)
    }
}

/// What the status bar shows after the identity changed.
pub open spec fn status_after(r: RouterView, s: ServicesView, name: Option<Text>) -> StatusView {
    StatusInfo {
        model: r.model_name,
        provider: r.provider_name,
        total_tokens: 0,
        context_window: 0,
        turn_count: 0,
        mcp_server_count: s.mcp_server_count,
        skill_count: s.skills.len() as usize,
        mode: AppMode::Idle,
        steer_count: 0,
        active_identity: name,
        tick: 0,
    }
}

/// What a change of identity comes to.
pub open spec fn switched(
    r: RouterView,
    e: EngineView,
    s: ServicesView,
    name: Option<Text>,
) -> Dispatched {
    Dispatched {
        reply: ReplyView::Handled(
            seq![
                UiCommand::UpdateStatus(status_after(r, s, name)),
                UiCommand::SetInputIdentity(name),
                UiCommand::AppendText(
                    match name {
                        Some(n) => "Switched to identity: "@ + n,
                        None => "Identity cleared — using default role."@,
                    },
                ),
                UiCommand::SetMode(AppMode::Idle),
            ],
        ),
        engine: EngineView { active_identity: name, ..e },
        router: RouterView { task: Some(CommandTask::SwitchIdentity { name }), ..r },
    }
}

/// What `/identity` comes to.
pub open spec fn identified(r: RouterView, e: EngineView, s: ServicesView, arg: Text) -> Dispatched {
    if arg.len() == 0 || arg == "status"@ {
        answered(
            r,
            e,
            said(
                match e.active_identity {
                    Some(name) => "Identity: "@ + name + " (active)"@,
                    None => "No active identity (using default role)."@,
                },
            ),
        )
    } else if arg == "none"@ || arg == "clear"@ {
        switched(r, e, s, None)
    } else if s.identities.contains(arg) {
        switched(r, e, s, Some(arg))
    } else {
        answered(
            r,
            e,
            said(
                "Unknown identity: '"@ + arg + "'. Available: "@ + (if s.identities.len() == 0 {
                    "(none defined — use zn.def_identity() in init.lua)"@
                } else {
                    text::joined(s.identities, ", "@)
                }),
            ),
        )
    }
}

/// What a command comes to. `listing` lists the saved sessions of the identity,
/// and `breakdown` are the costs by model.
pub open spec fn dispatched(
    before: RouterView,
    e: EngineView,
    s: ServicesView,
    listing: Text,
    breakdown: Seq<(Text, ModelCost)>,
    command: CommandView,
) -> Dispatched {
    let r = RouterView { task: None, ..before };
    match command {
        Command::Help => answered(r, e, said(command_texts::HELP_TEXT@)),
        Command::Exit => answered(r, e, Seq::empty()),
        Command::Tools => answered(r, e, said(command_texts::tools_text(r.tools))),
        Command::Memory => answered(r, e, said(command_texts::memory_text(s))),
        Command::Mcp => answered(r, e, said(s.mcp_summary)),
        Command::Skills => answered(r, e, said(command_texts::skills_text(s))),
        Command::Cost => answered(r, e, said(command_texts::cost_text(e.costs, breakdown))),
        Command::Clear => cleared(r, e),
        Command::Compact => tasked(
            r,
            e,
            CommandTask::Compact { entries: e.history.len() as usize },
        ),
        Command::Restore(arg) => restoring(r, e, s.sessions, listing, arg),
        Command::Model(arg) => modelled(r, e, arg),
        Command::Hooks => answered(r, e, said(command_texts::hooks_text(s.hooks, s.hook_count))),
        Command::Search(query) => searching(r, e, s.sessions, listing, query),
        Command::Goal(arg) => answered(
            r,
            EngineView { carryover: goal_after(e.carryover, arg), ..e },
            said(goal_reply(e.carryover, arg)),
        ),
        Command::Identity(arg) => identified(r, e, s, arg),
        Command::Unknown => Dispatched { reply: ReplyView::PassThrough, engine: e, router: r },
    }
}

fn handle_goal(engine: &mut QueryEngine, arg: &str) -> (r: String)
    ensures
        r@ == goal_reply(old(engine)@.carryover, arg@),
        final(engine)@ == (EngineView {
            carryover: goal_after(old(engine)@.carryover, arg@),
            ..old(engine)@
        }),
{
    let had = engine.carryover.has_pending_goal();
    if arg.is_empty() || text::same(arg, "status") {
        if had {
            text::cat2(" Goal (active): ", engine.carryover.task_focus.goal.as_str())
        } else {
            text::copy("No active goal. Use /goal <text> to set one.")
        }
    } else if text::same(arg, "clear") || text::same(arg, "stop") {
        engine.carryover.clear_goal();
        if had {
            text::copy(" Goal cleared.")
        } else {
            text::copy("No active goal.")
        }
    } else if text::same(arg, "pause") {
        if had {
            let reply = text::cat2("⏸ Goal paused: ", engine.carryover.task_focus.goal.as_str());
            engine.carryover.clear_goal();
            reply
        } else {
            text::copy("No active goal to pause.")
        }
    } else if text::same(arg, "resume") {
        let n: usize = engine.carryover.task_focus.recent_goals.len();
        if n > 0 {
            let last = text::copy(engine.carryover.task_focus.recent_goals[n - 1].as_str());
            assert(last@ == engine@.carryover.task_focus.recent_goals.last());
            engine.carryover.set_goal(last.as_str());
            text::cat2("▶ Goal resumed: ", last.as_str())
        } else {
            text::copy("No recent goal to resume.")
        }
    } else {
        engine.carryover.set_goal(arg);
        text::cat2(" Goal set: ", arg)
    }
}

fn is_listed(names: &Vec<String>, name: &str) -> (r: bool)
    ensures
        r == text::texts(names@).contains(name@),
{
    let ghost all = text::texts(names@);
    let mut i: usize = 0;
    while i < names.len()
        invariant
            i <= names@.len(),
            all == text::texts(names@),
            forall|k: int| 0 <= k < i ==> #[trigger] all[k] != name@,
        decreases names@.len() - i,
    {
        if text::same(names[i].as_str(), name) {
            assert(all[i as int] == name@);
            return true;
        }
        i = i + 1;
    }
    false
}

impl CommandRouter {
    /// A router that has answered nothing yet.
    pub fn new(
        provider_name: String,
        model_name: String,
        builtin_tool_names: Vec<String>,
    ) -> (r: CommandRouter)
        ensures
            r@ == (RouterView {
                provider_name: provider_name@,
                model_name: model_name@,
                tools: text::texts(builtin_tool_names@),
                task: None,
            }),
    {
        CommandRouter { provider_name, model_name, builtin_tool_names, task: None }
    }

    fn handle_clear_cmd(&mut self, engine: &mut QueryEngine) -> (r: CommandResult)
        ensures
            (Dispatched { reply: r@, engine: final(engine)@, router: final(self)@ }) == cleared(
                old(self)@,
                old(engine)@,
            ),
    {
        let n = text::count(engine.history.len());
        engine.history.clear();
        let line = text::cat3("Cleared ", n.as_str(), " entries.");
        let ghost shown = line@;
        let mut cmds = ui::two_commands(UiCommand::ClearOutput, UiCommand::AppendText(line));
        ui::push_command(&mut cmds, UiCommand::SetMode(AppMode::Idle));
        assert(ui::commands_view(cmds@) =~= seq![
            UiCommand::ClearOutput,
            UiCommand::AppendText(shown),
            UiCommand::SetMode(AppMode::Idle),
        ]);
        CommandResult::Handled(cmds)
    }

    fn handle_restore_cmd(
        &mut self,
        engine: &QueryEngine,
        services: &Services,
        listing: &str,
        arg: &str,
    ) -> (r: CommandResult)
        ensures
            (Dispatched { reply: r@, engine: engine@, router: final(self)@ }) == restoring(
                old(self)@,
                engine@,
                services@.sessions,
                listing@,
                arg@,
            ),
    {
        let own = session_index::filter_index_by_identity(
            &services.sessions,
            &engine.active_identity,
        );
        let ghost shown = session::index_view(own@);
        assert(shown.len() == own@.len());
        if arg.is_empty() {
            if own.len() > 0 {
                assert(shown[0] == own@[0]@);
                self.task =
                Some(
                    CommandTask::LoadSession { id: text::copy(own[0].id.as_str()), latest: true },
                );
                say_nothing()
            } else {
                say(text::copy("No saved session to resume."))
            }
        } else {
            match text::parse_usize(arg) {
                Some(n) => if n == 0 || n > own.len() {
                    let number = text::count(n);
                    let note = if own.len() == 0 {
                        "No sessions available."
                    } else {
                        ""
                    };
                    say(
                        text::cat6(
                            "Invalid session number: ",
                            number.as_str(),
                            ". ",
                            note,
                            "\n\n",
                            listing,
                        ),
                    )
                } else {
                    assert(shown[n - 1] == own@[n - 1]@);
                    self.task =
                    Some(
                        CommandTask::LoadSession {
                            id: text::copy(own[n - 1].id.as_str()),
                            latest: false,
                        },
                    );
                    say_nothing()
                },
                None => say(text::copy(listing)),
            }
        }
    }

    fn handle_model_cmd(&mut self, engine: &mut QueryEngine, arg: &str) -> (r: CommandResult)
        ensures
            (Dispatched { reply: r@, engine: final(engine)@, router: final(self)@ }) == modelled(
                old(self)@,
                old(engine)@,
                arg@,
            ),
    {
        if !arg.is_empty() {
            engine.set_model(text::copy(arg));
            self.model_name = text::copy(arg);
            let line = text::cat2("Model temporarily set to: ", arg);
            let ghost shown = line@;
            let mut cmds = ui::two_commands(
                UiCommand::SetModel(text::copy(arg)),
                UiCommand::AppendText(line),
            );
            ui::push_command(&mut cmds, UiCommand::SetMode(AppMode::Idle));
            assert(ui::commands_view(cmds@) =~= seq![
                UiCommand::SetModel(arg@),
                UiCommand::AppendText(shown),
                UiCommand::SetMode(AppMode::Idle),
            ]);
            CommandResult::Handled(cmds)
        } else {
            say(
                text::cat5(
                    "Model: ",
                    self.model_name.as_str(),
                    " (provider: ",
                    self.provider_name.as_str(),
                    ")",
                ),
            )
        }
    }

    fn handle_search_cmd(
        &mut self,
        engine: &QueryEngine,
        services: &Services,
        listing: &str,
        query: &str,
    ) -> (r: CommandResult)
        ensures
            (Dispatched { reply: r@, engine: engine@, router: final(self)@ }) == searching(
                old(self)@,
                engine@,
                services@.sessions,
                listing@,
                query@,
            ),
    {
        let own = session_index::filter_index_by_identity(
            &services.sessions,
            &engine.active_identity,
        );
        assert(session::index_view(own@).len() == own@.len());
        if own.len() == 0 {
            say(text::copy("No saved sessions to search."))
        } else if query.is_empty() {
            say(text::cat2("Usage: `/search [query]`\n\n", listing))
        } else {
            self.task = Some(CommandTask::Search { query: text::copy(query) });
            say_nothing()
        }
    }

    fn default_status_info(&self, services: &Services, name: &Option<String>) -> (r: StatusInfo)
        ensures
            r@ == status_after(self@, services@, text::opt_text(*name)),
    {
        assert(services@.skills.len() == services.skills@.len());
        StatusInfo {
            model: text::copy(self.model_name.as_str()),
            provider: text::copy(self.provider_name.as_str()),
            total_tokens: 0,
            context_window: 0,
            turn_count: 0,
            mcp_server_count: services.mcp_server_count,
            skill_count: services.skills.len(),
            mode: AppMode::Idle,
            steer_count: 0,
            active_identity: text::copy_opt(name),
            tick: 0,
        }
    }

    fn switch_identity(
        &mut self,
        engine: &mut QueryEngine,
        services: &Services,
        name: Option<String>,
    ) -> (r: CommandResult)
        ensures
            (Dispatched { reply: r@, engine: final(engine)@, router: final(self)@ }) == switched(
                old(self)@,
                old(engine)@,
                services@,
                text::opt_text(name),
            ),
    {
        let status = self.default_status_info(services, &name);
        let line = match &name {
            Some(n) => text::cat2("Switched to identity: ", n.as_str()),
            None => text::copy("Identity cleared — using default role."),
        };
        let ghost told = status@;
        let ghost shown = line@;
        let mut cmds = ui::two_commands(
            UiCommand::UpdateStatus(status),
            UiCommand::SetInputIdentity(text::copy_opt(&name)),
        );
        ui::push_command(&mut cmds, UiCommand::AppendText(line));
        ui::push_command(&mut cmds, UiCommand::SetMode(AppMode::Idle));
        assert(ui::commands_view(cmds@) =~= seq![
            UiCommand::UpdateStatus(told),
            UiCommand::SetInputIdentity(text::opt_text(name)),
            UiCommand::AppendText(shown),
            UiCommand::SetMode(AppMode::Idle),
        ]);
        engine.active_identity = text::copy_opt(&name);
        let ghost named = text::opt_text(name);
        self.task = Some(CommandTask::SwitchIdentity { name });
        assert(self@ =~= (RouterView {
            task: Some(CommandTask::SwitchIdentity { name: named }),
            ..old(self)@
        }));
        assert(engine@ =~= (EngineView { active_identity: named, ..old(engine)@ }));
        let reply = CommandResult::Handled(cmds);
        assert(reply@ == switched(old(self)@, old(engine)@, services@, named).reply);
        reply
    }

    fn handle_identity_cmd(
        &mut self,
        engine: &mut QueryEngine,
        services: &Services,
        arg: &str,
    ) -> (r: CommandResult)
        ensures
            (Dispatched { reply: r@, engine: final(engine)@, router: final(self)@ }) == identified(
                old(self)@,
                old(engine)@,
                services@,
                arg@,
            ),
    {
        if arg.is_empty() || text::same(arg, "status") {
            let line = match &engine.active_identity {
                Some(name) => text::cat3("Identity: ", name.as_str(), " (active)"),
                None => text::copy("No active identity (using default role)."),
            };
            say(line)
        } else if text::same(arg, "none") || text::same(arg, "clear") {
            self.switch_identity(engine, services, None)
        } else if is_listed(&services.identities, arg) {
            self.switch_identity(engine, services, Some(text::copy(arg)))
        } else {
            assert(services@.identities.len() == services.identities@.len());
            let available = if services.identities.len() == 0 {
                text::copy("(none defined — use zn.def_identity() in init.lua)")
            } else {
                text::join(&services.identities, ", ")
            };
            say(text::cat4("Unknown identity: '", arg, "'. Available: ", available.as_str()))
        }
    }

    /// Answer a command. `listing` lists the saved sessions of the identity, and
    /// `breakdown` are the costs by model.
    pub fn dispatch_shown(
        &mut self,
        engine: &mut QueryEngine,
        services: &Services,
        listing: &str,
        breakdown: &Vec<(String, ModelCost)>,
        input: &str,
    ) -> (r: CommandResult)
        requires
            parsed(input@) is Cost ==> command_texts::costs_fit(old(engine)@.costs),
        ensures
            (Dispatched { reply: r@, engine: final(engine)@, router: final(self)@ }) == dispatched(
                old(self)@,
                old(engine)@,
                services@,
                listing@,
                cost_tracker::costs_view(breakdown@),
                parsed(input@),
            ),
    {
        self.task = None;
        match parse_command(input) {
            Command::Help => say(text::copy(command_texts::HELP_TEXT)),
            Command::Exit => say_nothing(),
            Command::Tools => say(command_texts::show_tools(&self.builtin_tool_names)),
            Command::Memory => say(command_texts::show_memory(services)),
            Command::Mcp => say(text::copy(services.mcp_summary.as_str())),
            Command::Skills => say(command_texts::show_skills(services)),
            Command::Cost => say(command_texts::show_cost(&engine.cost_tracker, breakdown)),
            Command::Clear => self.handle_clear_cmd(engine),
            Command::Compact => {
                self.task = Some(CommandTask::Compact { entries: engine.history.len() });
                say_nothing()
            },
            Command::Restore(arg) => self.handle_restore_cmd(
                &*engine,
                services,
                listing,
                arg.as_str(),
            ),
            Command::Model(arg) => self.handle_model_cmd(engine, arg.as_str()),
            Command::Hooks => say(command_texts::show_hooks(&services.hooks, services.hook_count)),
            Command::Search(query) => self.handle_search_cmd(
                &*engine,
                services,
                listing,
                query.as_str(),
            ),
            Command::Goal(arg) => {
                let line = handle_goal(engine, arg.as_str());
                say(line)
            },
            Command::Identity(arg) => self.handle_identity_cmd(engine, services, arg.as_str()),
            Command::Unknown => CommandResult::PassThrough,
        }
    }

    /// Answer a command. The times of the sessions that it lists are those of
    /// the machine's own zone, and models that were called equally often may
    /// come in any order.
    pub fn dispatch(
        &mut self,
        engine: &mut QueryEngine,
        services: &Services,
        input: &str,
    ) -> (r: CommandResult)
        requires
            parsed(input@) is Cost ==> command_texts::costs_fit(old(engine)@.costs),
        ensures
            exists|locals: Seq<Text>, breakdown: Seq<(Text, ModelCost)>|
                #![trigger shown_as(old(engine)@, services@, locals, breakdown)]
                shown_as(old(engine)@, services@, locals, breakdown) && (Dispatched {
                    reply: r@,
                    engine: final(engine)@,
                    router: final(self)@,
                }) == dispatched(
                    old(self)@,
                    old(engine)@,
                    services@,
                    session_index::list_text(
                        session_index::filtered_by_identity(
                            services@.sessions,
                            old(engine)@.active_identity,
                        ),
                        locals,
                    ),
                    breakdown,
                    parsed(input@),
                ),
    {
        let own = session_index::filter_index_by_identity(
            &services.sessions,
            &engine.active_identity,
        );
        let listing = session_index::format_session_list(&own);
        let breakdown = engine.cost_tracker.model_breakdown();
        proof {
            let all = session::index_view(own@);
            let locals = choose|locals: Seq<Text>|
                #![trigger session_index::shows_times(all, locals)]
                session_index::shows_times(all, locals) && listing@ == session_index::list_text(
                    all,
                    locals,
                );
            assert(shown_as(
                engine@,
                services@,
                locals,
                cost_tracker::costs_view(breakdown@),
            ));
        }
        self.dispatch_shown(engine, services, listing.as_str(), &breakdown, input)
    }
}

/// Whether the sessions of the identity may be shown with these times, and the
/// costs by model in this order.
pub open spec fn shown_as(
    e: EngineView,
    s: ServicesView,
    locals: Seq<Text>,
    breakdown: Seq<(Text, ModelCost)>,
) -> bool {
    session_index::shows_times(
        session_index::filtered_by_identity(s.sessions, e.active_identity),
        locals,
    ) && cost_tracker::by_calls(breakdown) && breakdown.to_multiset() == e.costs.models.to_multiset()
}

// ---------------------------------------------------------------------------
// What commands leave to be done
// ---------------------------------------------------------------------------

/// The session after its history was summarised, unless it has shrunk to less
/// than half meanwhile.
pub open spec fn compacted(e: EngineView, entries: nat, summary: Text) -> EngineView {
    if e.history.len() >= entries / 2 {
        EngineView {
            history: seq![
                messages::text_entry(
                    crate::api::Role::User,
                    "[Compressed conversation history ("@ + text::decimal(entries)
                        + " entries)]\n\n"@ + summary,
                ),
            ],
            ..e
        }
    } else {
        e
    }
}

/// What is told of a summary of the history.
pub open spec fn compaction_events(
    e: EngineView,
    entries: nat,
    outcome: Result<Text, Text>,
) -> Seq<EventView> {
    match outcome {
        Ok(summary) => seq![
            EngineEvent::Status(
                "Compressed "@ + text::decimal(entries) + " entries → "@ + text::decimal(
                    text::byte_len(summary),
                ) + " chars"@,
            ),
            EngineEvent::QueryDone {
                text: Seq::empty(),
                tool_calls: 0,
                tokens: (e.costs.last_prompt + e.costs.last_output) as u64,
            },
        ],
        Err(message) => seq![EngineEvent::Error("Compression failed: "@ + message)],
    }
}

/// What a result of texts holds.
pub open spec fn outcome_view(r: Result<String, String>) -> Result<Text, Text> {
    match r {
        Ok(s) => Ok(s@),
        Err(s) => Err(s@),
    }
}

/// Put the summary of a history in its place, and tell of it.
pub fn finish_compact(
    engine: &mut QueryEngine,
    entries: usize,
    outcome: &Result<String, String>,
) -> (r: Vec<EngineEvent>)
    requires
        *outcome is Ok ==> old(engine)@.costs.last_prompt + old(engine)@.costs.last_output
            <= u64::MAX,
    ensures
        tui_events::events(r@) == compaction_events(
            old(engine)@,
            entries as nat,
            outcome_view(*outcome),
        ),
        final(engine)@ == match *outcome {
            Ok(summary) => compacted(old(engine)@, entries as nat, summary@),
            Err(_) => old(engine)@,
        },
{
    let ghost before = engine@;
    let n = text::count(entries);
    let mut out: Vec<EngineEvent> = Vec::new();
    match outcome {
        Ok(summary) => {
            if engine.history.len() >= entries / 2 {
                engine.history.clear();
                let line = text::cat4(
                    "[Compressed conversation history (",
                    n.as_str(),
                    " entries)]\n\n",
                    summary.as_str(),
                );
                engine.history.push_user(line.as_str());
                assert(engine@ =~= compacted(before, entries as nat, summary@));
            }
            let size = text::count(text::str_bytes(summary.as_str()));
            let line = text::cat5(
                "Compressed ",
                n.as_str(),
                " entries → ",
                size.as_str(),
                " chars",
            );
            tui_events::push_event(&mut out, EngineEvent::Status(line));
            let none = String::new();
            assert(none@ =~= Seq::<char>::empty());
            tui_events::push_event(
                &mut out,
                EngineEvent::QueryDone {
                    text: none,
                    tool_calls: 0,
                    tokens: engine.cost_tracker.last_prompt_tokens
                        + engine.cost_tracker.last_output_tokens,
                },
            );
        },
        Err(message) => {
            let line = text::cat2("Compression failed: ", message.as_str());
            tui_events::push_event(&mut out, EngineEvent::Error(line));
        },
    }
    assert(tui_events::events(out@) =~= compaction_events(
        before,
        entries as nat,
        outcome_view(*outcome),
    ));
    out
}

/// What a resumed session is greeted with.
pub open spec fn resume_text(d: SessionView) -> Text {
    "━━━ Session Resume ━━━\nSaved: "@ + text::replaced(
        text::byte_prefix(d.saved_at, 19),
        "T"@,
        " "@,
    ) + "\nModel: "@ + d.model + " | Provider: "@ + d.provider + "\nTotal tokens: "@
        + text::decimal(d.total_tokens as nat) + "\n\n"@ + d.summary
        + "\n━━━ End of Session ━━━\n\nReady to continue — type your next message."@
}

/// What the user interface is told of a session that was to be loaded.
pub open spec fn resume_commands(d: Option<SessionView>, latest: bool) -> Seq<UiView> {
    match d {
        Some(d) => seq![
            UiCommand::ClearOutput,
            UiCommand::ShowStatus(" Resumed: "@ + session::restore_line(d)),
            UiCommand::AppendText(resume_text(d)),
            UiCommand::ClearSteerQueue,
            UiCommand::SetMode(AppMode::Idle),
            UiCommand::QueryDone { tokens: d.total_tokens },
        ],
        None => if latest {
            said("No saved session to resume."@)
        } else {
            Seq::empty()
        },
    }
}

/// The session that goes on with a saved one: with its entries, and no costs.
pub open spec fn resumed(e: EngineView, d: Option<SessionView>) -> EngineView {
    match d {
        Some(d) => EngineView { history: d.entries, costs: cost_tracker::no_costs(), ..e },
        None => e,
    }
}

/// What an optional session holds.
pub open spec fn opt_session(d: Option<SessionData>) -> Option<SessionView> {
    match d {
        Some(d) => Some(d@),
        None => None,
    }
}

fn show_resume(d: &SessionData) -> (r: String)
    ensures
        r@ == resume_text(d@),
{
    proof {
        reveal_strlit("T");
    }
    let head = text::take_bytes(d.saved_at.as_str(), 19);
    let date = text::replace(head.as_str(), "T", " ");
    let tokens = text::number(d.total_tokens);
    let first = text::cat4(
        "━━━ Session Resume ━━━\nSaved: ",
        date.as_str(),
        "\nModel: ",
        d.model.as_str(),
    );
    let second = text::cat5(
        first.as_str(),
        " | Provider: ",
        d.provider.as_str(),
        "\nTotal tokens: ",
        tokens.as_str(),
    );
    text::cat4(
        second.as_str(),
        "\n\n",
        d.summary.as_str(),
        "\n━━━ End of Session ━━━\n\nReady to continue — type your next message.",
    )
}

/// Go on with a session that was loaded, or say that there is none.
pub fn finish_restore(
    engine: &mut QueryEngine,
    latest: bool,
    data: Option<SessionData>,
) -> (r: Vec<UiCommand>)
    ensures
        ui::commands_view(r@) == resume_commands(opt_session(data), latest),
        final(engine)@ == resumed(old(engine)@, opt_session(data)),
{
    match data {
        Some(d) => {
            let ghost loaded = d@;
            let one_liner = session::build_one_liner(&d);
            let status = text::cat2(" Resumed: ", one_liner.as_str());
            let greeting = show_resume(&d);
            let tokens: u64 = d.total_tokens;
            let ghost told = status@;
            engine.history = ConversationHistory::from_entries(d.entries);
            engine.cost_tracker = CostTracker::default();
            assert(engine@ =~= resumed(old(engine)@, Some(loaded)));
            let mut cmds = ui::two_commands(UiCommand::ClearOutput, UiCommand::ShowStatus(status));
            ui::push_command(&mut cmds, UiCommand::AppendText(greeting));
            ui::push_command(&mut cmds, UiCommand::ClearSteerQueue);
            ui::push_command(&mut cmds, UiCommand::SetMode(AppMode::Idle));
            ui::push_command(&mut cmds, UiCommand::QueryDone { tokens });
            assert(ui::commands_view(cmds@) =~= resume_commands(Some(loaded), latest));
            cmds
        },
        None => if latest {
            ui::two_commands(
                UiCommand::AppendText(text::copy("No saved session to resume.")),
                UiCommand::SetMode(AppMode::Idle),
            )
        } else {
            let none: Vec<UiCommand> = Vec::new();
            assert(ui::commands_view(none@) =~= Seq::<UiView>::empty());
            none
        },
    }
}

/// What is told of a search through the sessions.
pub open spec fn search_events(query: Text, outcome: Result<Text, Text>) -> Seq<EventView> {
    seq![
        EngineEvent::TextDelta(
            match outcome {
                Ok(found) => "### Session Search: "@ + query + "\n\n"@ + found
                    + "\n\nUse `/restore N` to load a session."@,
                Err(message) => "Search failed: "@ + message,
            },
        ),
        EngineEvent::QueryDone { text: Seq::empty(), tool_calls: 0, tokens: 0 },
    ]
}

/// Tell that the sessions are searched.
pub fn begin_search() -> (r: EngineEvent)
    ensures
        r@ == EngineEvent::Status("Searching sessions..."@),
{
    EngineEvent::Status(text::copy("Searching sessions..."))
}

/// Tell what a search through the sessions came to.
pub fn finish_search(query: &str, outcome: &Result<String, String>) -> (r: Vec<EngineEvent>)
    ensures
        tui_events::events(r@) == search_events(query@, outcome_view(*outcome)),
{
    let line = match outcome {
        Ok(found) => text::cat5(
            "### Session Search: ",
            query,
            "\n\n",
            found.as_str(),
            "\n\nUse `/restore N` to load a session.",
        ),
        Err(message) => text::cat2("Search failed: ", message.as_str()),
    };
    let mut out: Vec<EngineEvent> = Vec::new();
    tui_events::push_event(&mut out, EngineEvent::TextDelta(line));
    let none = String::new();
    assert(none@ =~= Seq::<char>::empty());
    tui_events::push_event(
        &mut out,
        EngineEvent::QueryDone { text: none, tool_calls: 0, tokens: 0 },
    );
    assert(tui_events::events(out@) =~= search_events(query@, outcome_view(*outcome)));
    out
}

// ---------------------------------------------------------------------------
// Laws
// ---------------------------------------------------------------------------

/// What does not begin with a slash is no command.
pub proof fn law_plain_text_is_no_command(input: Text)
    requires
        input.len() == 0 || input[0] != '/',
    ensures
        parsed(input) is Unknown,
{
    reveal_strlit("/help");
    reveal_strlit("/exit");
    reveal_strlit("/quit");
    reveal_strlit("/tools");
    reveal_strlit("/memory");
    reveal_strlit("/mcp");
    reveal_strlit("/skills");
    reveal_strlit("/cost");
    reveal_strlit("/clear");
    reveal_strlit("/compact");
    reveal_strlit("/restore");
    reveal_strlit("/resume");
    reveal_strlit("/model");
    reveal_strlit("/hooks");
    reveal_strlit("/search");
    reveal_strlit("/goal");
    reveal_strlit("/identity");
    lemma_no_prefix(input, "/restore"@);
    lemma_no_prefix(input, "/resume"@);
    lemma_no_prefix(input, "/model"@);
    lemma_no_prefix(input, "/search"@);
    lemma_no_prefix(input, "/goal"@);
    lemma_no_prefix(input, "/identity"@);
    assert("/help"@[0] == '/' && "/exit"@[0] == '/' && "/quit"@[0] == '/');
    assert("/tools"@[0] == '/' && "/memory"@[0] == '/' && "/mcp"@[0] == '/');
    assert("/skills"@[0] == '/' && "/cost"@[0] == '/' && "/clear"@[0] == '/');
    assert("/compact"@[0] == '/' && "/hooks"@[0] == '/');
}

proof fn lemma_no_prefix(input: Text, name: Text)
    requires
        input.len() == 0 || input[0] != '/',
        name.len() > 0,
        name[0] == '/',
    ensures
        !text::has_prefix(input, name),
{
    if text::has_prefix(input, name) {
        assert(input.subrange(0, name.len() as int)[0] == input[0]);
    }
}

/// A command that only asks leaves the session as it is; what other commands
/// change of it, is the history, the model, the goal or the identity, and
/// nothing else.
pub proof fn law_commands_change_little(
    r: RouterView,
    e: EngineView,
    s: ServicesView,
    listing: Text,
    breakdown: Seq<(Text, ModelCost)>,
    command: CommandView,
)
    ensures
        ({
            let after = dispatched(r, e, s, listing, breakdown, command).engine;
            after == (match command {
                Command::Clear => EngineView { history: after.history, ..e },
                Command::Model(_) => EngineView { model: after.model, ..e },
                Command::Goal(_) => EngineView { carryover: after.carryover, ..e },
                Command::Identity(_) => EngineView { active_identity: after.active_identity, ..e },
                _ => e,
            })
        }),
{
}

/// Every command is answered, and the model is not asked for it; what is no
/// command is left to the model.
pub proof fn law_commands_are_answered(
    r: RouterView,
    e: EngineView,
    s: ServicesView,
    listing: Text,
    breakdown: Seq<(Text, ModelCost)>,
    command: CommandView,
)
    ensures
        (dispatched(r, e, s, listing, breakdown, command).reply is PassThrough) == (
        command is Unknown),
{
}

/// A session goes on where it ended: the one that was saved last is the one that
/// `/restore` has loaded under the same identity, and once it is loaded, the
/// conversation is what it was when it was saved.
pub proof fn law_restored_session_is_the_saved_one(
    r: RouterView,
    e: EngineView,
    s: ServicesView,
    listing: Text,
    breakdown: Seq<(Text, ModelCost)>,
    index: Seq<IndexView>,
    d: SessionView,
)
    requires
        session_index::later_than_others(index, d),
        s.sessions == session_index::with_session(index, d),
        e.active_identity == d.identity,
    ensures
        dispatched(r, e, s, listing, breakdown, Command::Restore(Seq::empty())).router.task == Some(
            TaskView::LoadSession { id: d.id, latest: true },
        ),
        resumed(e, Some(d)).history == d.entries,
{
    session_index::law_saved_session_is_offered(index, d);
}

/// A goal that is set, paused and resumed is the goal that was set, unless it is
/// too long to be kept whole.
pub proof fn law_paused_goal_is_resumed(c: CarryoverView, goal: Text)
    requires
        !carryover::no_words(goal),
        text::byte_len(text::joined(text::words_of(goal), " "@)) <= 240,
    ensures
        ({
            let set = carryover::with_goal(c, goal);
            let paused = goal_after(set, "pause"@);
            let resumed = goal_after(paused, "resume"@);
            &&& set.task_focus.goal.len() > 0
            &&& paused.task_focus.goal.len() == 0
            &&& resumed.task_focus.goal == set.task_focus.goal
        }),
{
    reveal_strlit("pause");
    reveal_strlit("resume");
    reveal_strlit("status");
    reveal_strlit("clear");
    reveal_strlit("stop");
    assert("pause"@.len() == 5 && "pause"@[0] == 'p');
    assert("resume"@.len() == 6 && "resume"@[0] == 'r');
    assert("status"@.len() == 6 && "status"@[0] == 's');
    assert("clear"@.len() == 5 && "clear"@[0] == 'c');
    assert("stop"@.len() == 4);
    let full = text::joined(text::words_of(goal), " "@);
    assert(full.take(full.len() as int) =~= full);
    assert(carryover::normalized_goal(goal) == full);
    let set = carryover::with_goal(c, goal);
    let kept = set.task_focus.recent_goals;
    let all = c.task_focus.recent_goals.filter(carryover::other_than(full)).push(full);
    assert(kept.len() > 0 && kept.last() == full) by {
        assert(all.last() == full);
    }
    text::lemma_words_are_words(goal);
    text::lemma_words_of_joined(text::words_of(goal));
    assert(text::words_of(full) == text::words_of(goal));
    assert(carryover::normalized_goal(full) == full);
}

/// `/clear` leaves nothing of the conversation and says how much there was; `/model` has
/// the model asked that was named from then on; `/compact` has the whole conversation
/// summarised.
pub proof fn law_commands_do_what_they_say(
    r: RouterView,
    e: EngineView,
    s: ServicesView,
    listing: Text,
    breakdown: Seq<(Text, ModelCost)>,
    name: Text,
)
    requires
        e.history.len() <= usize::MAX,
    ensures
        ({
            let d = dispatched(r, e, s, listing, breakdown, Command::Clear);
            &&& d.engine.history.len() == 0
            &&& d.reply matches ReplyView::Handled(cmds) && cmds.contains(UiCommand::ClearOutput)
        }),
        name.len() > 0 ==> {
            let d = dispatched(r, e, s, listing, breakdown, Command::Model(name));
            &&& d.engine == (EngineView { model: name, ..e })
            &&& d.router == (RouterView { model_name: name, task: None, ..r })
            &&& d.reply matches ReplyView::Handled(cmds) && cmds.contains(
                UiCommand::SetModel(name),
            )
        },
        dispatched(r, e, s, listing, breakdown, Command::Compact).router.task == Some(
            TaskView::Compact { entries: e.history.len() as usize },
        ),
{
    let d = dispatched(r, e, s, listing, breakdown, Command::Clear);
    assert(d.reply->Handled_0[0] == UiCommand::<Text>::ClearOutput);
    if name.len() > 0 {
        let d = dispatched(r, e, s, listing, breakdown, Command::Model(name));
        assert(d.reply->Handled_0[0] == UiCommand::<Text>::SetModel(name));
    }
}

/// `/restore` with a number loads the session at that place of the list that the user is
/// shown, counted from 1, and none where there is no such place.
pub proof fn law_restore_loads_the_numbered_session(
    r: RouterView,
    e: EngineView,
    s: ServicesView,
    listing: Text,
    breakdown: Seq<(Text, ModelCost)>,
    arg: Text,
    n: nat,
)
    requires
        arg.len() > 0,
        text::parsed_number(arg, usize::MAX as nat + 1) == Some(n),
    ensures
        ({
            let own = session_index::filtered_by_identity(s.sessions, e.active_identity);
            let d = dispatched(r, e, s, listing, breakdown, Command::Restore(arg));
            &&& 1 <= n <= own.len() ==> d.router.task == Some(
                TaskView::LoadSession { id: own[n - 1].id, latest: false },
            )
            &&& !(1 <= n <= own.len()) ==> d.router.task is None
            &&& d.engine == e
        }),
{
}

/// `/goal` sets the goal to the words that were given, tells it when asked, and drops it
/// when told to; and `/search` looks for what was given.
pub proof fn law_goal_and_search_take_their_words(
    r: RouterView,
    e: EngineView,
    s: ServicesView,
    listing: Text,
    breakdown: Seq<(Text, ModelCost)>,
    words: Text,
)
    requires
        words.len() > 0,
        words != "status"@,
        words != "clear"@,
        words != "stop"@,
        words != "pause"@,
        words != "resume"@,
        text::words_of(words).len() > 0,
        text::byte_len(text::joined(text::words_of(words), " "@)) <= 240,
    ensures
        dispatched(r, e, s, listing, breakdown, Command::Goal(words)).engine.carryover.task_focus.goal
            == text::joined(text::words_of(words), " "@),
        dispatched(
            r,
            e,
            s,
            listing,
            breakdown,
            Command::Goal("clear"@),
        ).engine.carryover.task_focus.goal.len() == 0,
        text::has_suffix(
            goal_reply(e.carryover, "status"@),
            e.carryover.task_focus.goal,
        ) || e.carryover.task_focus.goal.len() == 0,
        session_index::filtered_by_identity(s.sessions, e.active_identity).len() > 0
            ==> dispatched(r, e, s, listing, breakdown, Command::Search(words)).router.task == Some(
            TaskView::Search { query: words },
        ),
{
    reveal_strlit("clear");
    reveal_strlit("status");
    let full = text::joined(text::words_of(words), " "@);
    text::lemma_words_are_words(words);
    text::lemma_joined_has(text::words_of(words), " "@, 0);
    assert(full.len() > 0);
    assert(full.take(full.len() as int) =~= full);
    assert(carryover::normalized_goal(words) == full);
    assert("clear"@.len() == 5 && "status"@.len() == 6);
    let goal = e.carryover.task_focus.goal;
    if goal.len() > 0 {
        let told = goal_reply(e.carryover, "status"@);
        assert(told.subrange(told.len() - goal.len(), told.len() as int) =~= goal);
    }
}

/// A conversation that the user has compacted is the summary alone, and says all of it;
/// where that fails, it stays, and the user hears why.
pub proof fn law_compacted_conversation_says_the_summary(
    e: EngineView,
    entries: nat,
    summary: Text,
    error: Text,
)
    requires
        e.history.len() >= entries,
    ensures
        ({
            let after = compacted(e, entries, summary);
            &&& after.history.len() == 1
            &&& after.history[0].role == crate::api::Role::User
            &&& after.history[0].content.len() == 1
            &&& after.history[0].content[0] matches crate::api::ContentBlock::Text { text }
                && text::has_suffix(text, summary)
        }),
        ({
            let told = compaction_events(e, entries, Err(error));
            told.len() == 1 && (told[0] matches EngineEvent::Error(words) && text::has_suffix(
                words,
                error,
            ))
        }),
{
    let said = compacted(e, entries, summary).history[0].content[0]->text;
    assert(said.subrange(said.len() - summary.len(), said.len() as int) =~= summary);
    let words = "Compression failed: "@ + error;
    assert(words.subrange(words.len() - error.len(), words.len() as int) =~= error);
}

/// A session that is loaded goes on with exactly its entries and without costs, and the
/// user is shown its summary.
pub proof fn law_loaded_session_goes_on(e: EngineView, d: SessionView, latest: bool)
    ensures
        resumed(e, Some(d)).history == d.entries,
        resumed(e, Some(d)) == (EngineView {
            history: d.entries,
            costs: resumed(e, Some(d)).costs,
            ..e
        }),
        resumed(e, None) == e,
        exists|i: int|
            0 <= i < resume_commands(Some(d), latest).len() && (#[trigger] resume_commands(
                Some(d),
                latest,
            )[i] matches UiCommand::AppendText(words) && text::has_substring(words, d.summary)),
{
    let words = resume_text(d);
    let head = "━━━ Session Resume ━━━\nSaved: "@ + text::replaced(
        text::byte_prefix(d.saved_at, 19),
        "T"@,
        " "@,
    ) + "\nModel: "@ + d.model + " | Provider: "@ + d.provider + "\nTotal tokens: "@
        + text::decimal(d.total_tokens as nat) + "\n\n"@;
    text::lemma_stands_between(
        head,
        d.summary,
        "\n━━━ End of Session ━━━\n\nReady to continue — type your next message."@,
    );
    assert(resume_commands(Some(d), latest)[2] == UiCommand::<Text>::AppendText(words));
}

/// `/identity` with a known name switches to it, `none` and `clear` drop it, and a name that
/// nobody knows changes nothing.
pub proof fn law_identity_is_switched(
    r: RouterView,
    e: EngineView,
    s: ServicesView,
    name: Text,
)
    requires
        name.len() > 0,
        name != "status"@,
    ensures
        ({
            let d = identified(r, e, s, name);
            &&& name == "none"@ || name == "clear"@ ==> d.engine == (EngineView {
                active_identity: None,
                ..e
            })
            &&& name != "none"@ && name != "clear"@ && s.identities.contains(name) ==> d.engine
                == (EngineView { active_identity: Some(name), ..e }) && d.router.task == Some(
                CommandTask::SwitchIdentity { name: Some(name) },
            )
            &&& name != "none"@ && name != "clear"@ && !s.identities.contains(name) ==> d.engine
                == e && d.router == r
        }),
{
}

/// What a search found is shown whole, and so is why it failed; and then it is over.
pub proof fn law_findings_are_shown_whole(query: Text, words: Text)
    ensures
        ({
            let events = search_events(query, Ok(words));
            &&& events.len() == 2
            &&& events[0] matches EngineEvent::TextDelta(s) && text::has_substring(s, words)
            &&& events[1] is QueryDone
        }),
        ({
            let events = search_events(query, Err(words));
            &&& events.len() == 2
            &&& events[0] matches EngineEvent::TextDelta(s) && text::has_substring(s, words)
            &&& events[1] is QueryDone
        }),
{
    let head = "### Session Search: "@ + query + "\n\n"@;
    text::lemma_stands_between(head, words, "\n\nUse `/restore N` to load a session."@);
    text::lemma_both_stand("Search failed: "@, words);
}

} // verus!
