//! The gateway: takes in events and what the user types, and hands out commands
//! to the user interface.

use crate::engine::cost_tracker::ModelCost;
use crate::engine::query_engine::EngineView;
use crate::engine::query_engine::QueryEngine;
use crate::engine::session_index;
use crate::engine::sub_agent_run::SubAgentEvent;
use crate::engine::sub_agent_run::SubEventView;
use crate::engine::tui_events::EngineEvent;
use crate::engine::tui_events::EventView;
use crate::gateway::command_texts;
use crate::gateway::commands;
use crate::gateway::commands::CommandResult;
use crate::gateway::commands::CommandRouter;
use crate::gateway::commands::ReplyView;
use crate::gateway::commands::RouterView;
use crate::gateway::commands::Services;
use crate::gateway::commands::ServicesView;
use crate::gateway::events;
use crate::gateway::sub_agent;
use crate::gateway::ui;
use crate::gateway::ui::UiCommand;
use crate::gateway::ui::UiView;
use crate::text;
use crate::text::Text;
use std::collections::VecDeque;
use vstd::prelude::*;
use vstd::string::*;

verus! {

/// How many events of the engine are taken in one go.
pub const MAX_ENGINE_BATCH: usize = 256;

/// How many events of sub-agents are taken in one go.
pub const MAX_SUB_AGENT_BATCH: usize = 128;

/// An event of a sub-agent, with its goal or its thought as shortened for
/// display.
pub struct SubAgentNotice {
    pub event: SubAgentEvent,
    pub short: String,
}

/// The gateway.
pub struct Gateway {
    /// Events of the engine that wait, oldest first.
    pub engine_events: VecDeque<EngineEvent>,
    /// Events of sub-agents that wait, oldest first.
    pub sub_agent_events: VecDeque<SubAgentNotice>,
    /// Whether every tool call is allowed in this session.
    pub permission_allow_all: bool,
    pub commands: CommandRouter,
}

/// What a `Gateway` holds.
#[verifier::ext_equal]
pub struct GatewayView {
    pub engine_events: Seq<EventView>,
    pub sub_agent_events: Seq<(SubEventView, Text)>,
    pub permission_allow_all: bool,
    pub commands: RouterView,
}

/// What a list of notices holds.
pub open spec fn notices(v: Seq<SubAgentNotice>) -> Seq<(SubEventView, Text)> {
    Seq::new(v.len(), |i: int| (v[i].event@, v[i].short@))
}

impl View for Gateway {
    type V = GatewayView;

    open spec fn view(&self) -> GatewayView {
        GatewayView {
            engine_events: crate::engine::tui_events::events(self.engine_events@),
            sub_agent_events: notices(self.sub_agent_events@),
            permission_allow_all: self.permission_allow_all,
            commands: self.commands@,
        }
    }
}

/// What the user interface is told of events, in their order.
pub open spec fn all_mapped(es: Seq<EventView>) -> Seq<UiView>
    decreases es.len(),
{
    if es.len() == 0 {
        Seq::empty()
    } else {
        all_mapped(es.drop_last()) + events::mapped(es.last())
    }
}

/// What the user interface is told of events of sub-agents, in their order.
pub open spec fn all_sub_mapped(es: Seq<(SubEventView, Text)>) -> Seq<UiView>
    decreases es.len(),
{
    if es.len() == 0 {
        Seq::empty()
    } else {
        all_sub_mapped(es.drop_last()) + sub_agent::mapped(es.last().0, es.last().1)
    }
}

/// Whether one of the events allows every tool call.
pub open spec fn allows_all(es: Seq<EventView>) -> bool {
    exists|i: int| 0 <= i < es.len() && (#[trigger] es[i]) is PermissionAllowAllSet
}

/// How many of `n` events are taken, of at most `max`.
pub open spec fn batch(n: nat, max: int) -> int {
    if n < max {
        n as int
    } else {
        max
    }
}

/// The gateway after events of the engine were taken.
pub open spec fn engine_drained(g: GatewayView) -> GatewayView {
    let n = batch(g.engine_events.len(), MAX_ENGINE_BATCH as int);
    GatewayView {
        engine_events: g.engine_events.skip(n),
        permission_allow_all: g.permission_allow_all || allows_all(g.engine_events.take(n)),
        ..g
    }
}

/// What the user interface is told when events of the engine are taken.
pub open spec fn engine_told(g: GatewayView) -> Seq<UiView> {
    all_mapped(g.engine_events.take(batch(g.engine_events.len(), MAX_ENGINE_BATCH as int)))
}

/// The gateway after events of sub-agents were taken.
pub open spec fn sub_agents_drained(g: GatewayView) -> GatewayView {
    GatewayView {
        sub_agent_events: g.sub_agent_events.skip(
            batch(g.sub_agent_events.len(), MAX_SUB_AGENT_BATCH as int),
        ),
        ..g
    }
}

/// What the user interface is told when events of sub-agents are taken.
pub open spec fn sub_agents_told(g: GatewayView) -> Seq<UiView> {
    all_sub_mapped(
        g.sub_agent_events.take(batch(g.sub_agent_events.len(), MAX_SUB_AGENT_BATCH as int)),
    )
}

/// What becomes of a line that the user typed.
pub struct InputOutcome {
    /// What the user interface is told.
    pub commands: Vec<UiCommand>,
    /// Whether the model is asked.
    pub query: bool,
}

/// What an `InputOutcome` holds.
#[verifier::ext_equal]
pub struct OutcomeView {
    pub commands: Seq<UiView>,
    pub query: bool,
}

impl View for InputOutcome {
    type V = OutcomeView;

    open spec fn view(&self) -> OutcomeView {
        OutcomeView { commands: ui::commands_view(self.commands@), query: self.query }
    }
}

/// What a reply makes of a line.
pub open spec fn outcome_of(reply: ReplyView) -> OutcomeView {
    match reply {
        ReplyView::Handled(cmds) => OutcomeView { commands: cmds, query: false },
        ReplyView::PassThrough => OutcomeView { commands: Seq::empty(), query: true },
    }
}

/// Whether a line is a command by its look.
pub open spec fn looks_like_command(input: Text) -> bool {
    input.len() > 0 && input[0] == '/'
}

impl Gateway {
    /// A gateway with nothing waiting.
    pub fn new(commands: CommandRouter, permission_allow_all: bool) -> (r: Gateway)
        ensures
            r@ == (GatewayView {
                engine_events: Seq::empty(),
                sub_agent_events: Seq::empty(),
                permission_allow_all,
                commands: commands@,
            }),
    {
        let r = Gateway {
            engine_events: VecDeque::new(),
            sub_agent_events: VecDeque::new(),
            permission_allow_all,
            commands,
        };
        assert(r@.engine_events =~= Seq::<EventView>::empty());
        assert(r@.sub_agent_events =~= Seq::<(SubEventView, Text)>::empty());
        r
    }

    /// Take in an event of the engine.
    pub fn receive_engine_event(&mut self, event: EngineEvent)
        ensures
            final(self)@ == (GatewayView {
                engine_events: old(self)@.engine_events.push(event@),
                ..old(self)@
            }),
    {
        self.engine_events.push_back(event);
        assert(self@.engine_events =~= old(self)@.engine_events.push(event@));
    }

    /// Take in an event of a sub-agent.
    pub fn receive_sub_agent_event(&mut self, event: SubAgentEvent, short: String)
        ensures
            final(self)@ == (GatewayView {
                sub_agent_events: old(self)@.sub_agent_events.push((event@, short@)),
                ..old(self)@
            }),
    {
        self.sub_agent_events.push_back(SubAgentNotice { event, short });
        assert(self@.sub_agent_events =~= old(self)@.sub_agent_events.push((event@, short@)));
    }

    /// Take the oldest events of the engine, and tell the user interface of
    /// them.
    pub fn drain_engine_events(&mut self) -> (r: Vec<UiCommand>)
        ensures
            final(self)@ == engine_drained(old(self)@),
            ui::commands_view(r@) == engine_told(old(self)@),
    {
        let ghost before = self@;
        let ghost all = before.engine_events;
        let mut out: Vec<UiCommand> = Vec::new();
        let mut i: usize = 0;
        assert(all.skip(0) =~= all);
        assert(ui::commands_view(out@) =~= all_mapped(all.take(0)));
        while i < MAX_ENGINE_BATCH && self.engine_events.len() > 0
            invariant
                i <= MAX_ENGINE_BATCH,
                i <= all.len(),
                all == before.engine_events,
                self@ == (GatewayView {
                    engine_events: all.skip(i as int),
                    permission_allow_all: before.permission_allow_all || allows_all(
                        all.take(i as int),
                    ),
                    ..before
                }),
                ui::commands_view(out@) == all_mapped(all.take(i as int)),
            decreases MAX_ENGINE_BATCH - i,
        {
            let ghost waiting = self.engine_events@;
            assert(self@.engine_events.len() == waiting.len());
            assert(all.skip(i as int)[0] == all[i as int]);
            if let Some(event) = self.engine_events.pop_front() {
                assert(event@ == all[i as int]);
                assert forall|k: int| 0 <= k < self@.engine_events.len() implies (
                #[trigger] self@.engine_events[k]) == all.skip(i + 1)[k] by {
                    assert(waiting[k + 1]@ == all.skip(i as int)[k + 1]);
                }
                assert(self@.engine_events =~= all.skip(i + 1));
                proof {
                    assert(all.take(i + 1).drop_last() =~= all.take(i as int));
                    assert(all.take(i + 1).last() == all[i as int]);
                    lemma_allows_next(all, i as int);
                }
                let sets = match &event {
                    EngineEvent::PermissionAllowAllSet => true,
                    _ => false,
                };
                if sets {
                    self.permission_allow_all = true;
                }
                let cmds = self.event_map(event);
                ui::push_commands(&mut out, cmds);
                i = i + 1;
            }
        }
        assert(self@.engine_events.len() == self.engine_events@.len());
        assert(i == batch(all.len(), MAX_ENGINE_BATCH as int));
        out
    }

    /// Take the oldest events of sub-agents, and tell the user interface of
    /// them.
    pub fn drain_sub_agent_events(&mut self) -> (r: Vec<UiCommand>)
        ensures
            final(self)@ == sub_agents_drained(old(self)@),
            ui::commands_view(r@) == sub_agents_told(old(self)@),
    {
        let ghost before = self@;
        let ghost all = before.sub_agent_events;
        let mut out: Vec<UiCommand> = Vec::new();
        let mut i: usize = 0;
        assert(all.skip(0) =~= all);
        assert(ui::commands_view(out@) =~= all_sub_mapped(all.take(0)));
        while i < MAX_SUB_AGENT_BATCH && self.sub_agent_events.len() > 0
            invariant
                i <= MAX_SUB_AGENT_BATCH,
                i <= all.len(),
                all == before.sub_agent_events,
                self@ == (GatewayView { sub_agent_events: all.skip(i as int), ..before }),
                ui::commands_view(out@) == all_sub_mapped(all.take(i as int)),
            decreases MAX_SUB_AGENT_BATCH - i,
        {
            let ghost waiting = self.sub_agent_events@;
            assert(self@.sub_agent_events.len() == waiting.len());
            assert(all.skip(i as int)[0] == all[i as int]);
            if let Some(notice) = self.sub_agent_events.pop_front() {
                assert((notice.event@, notice.short@) == all[i as int]);
                assert forall|k: int| 0 <= k < self@.sub_agent_events.len() implies (
                #[trigger] self@.sub_agent_events[k]) == all.skip(i + 1)[k] by {
                    assert((waiting[k + 1].event@, waiting[k + 1].short@) == all.skip(
                        i as int,
                    )[k + 1]);
                }
                assert(self@.sub_agent_events =~= all.skip(i + 1));
                proof {
                    assert(all.take(i + 1).drop_last() =~= all.take(i as int));
                    assert(all.take(i + 1).last() == all[i as int]);
                }
                let cmds = self.handle_sub_agent_event(notice.event, notice.short.as_str());
                ui::push_commands(&mut out, cmds);
                i = i + 1;
            }
        }
        assert(self@.sub_agent_events.len() == self.sub_agent_events@.len());
        assert(i == batch(all.len(), MAX_SUB_AGENT_BATCH as int));
        out
    }

    /// Answer a line that begins with a slash; with one that is no command the
    /// model is asked.
    pub fn dispatch_slash(
        &mut self,
        engine: &mut QueryEngine,
        services: &Services,
        input: &str,
    ) -> (r: InputOutcome)
        requires
            commands::parsed(input@) is Cost ==> command_texts::costs_fit(old(engine)@.costs),
        ensures
            slash_outcome(
                old(self)@,
                old(engine)@,
                services@,
                input@,
                final(self)@,
                final(engine)@,
                r@,
            ),
    {
        let ghost before = self@;
        let reply = self.commands.dispatch(engine, services, input);
        let ghost said = reply@;
        let r = match reply {
            CommandResult::Handled(cmds) => InputOutcome { commands: cmds, query: false },
            CommandResult::PassThrough => InputOutcome { commands: Vec::new(), query: true },
        };
        assert(r@ =~= outcome_of(said));
        assert(self@ =~= (GatewayView { commands: self@.commands, ..before }));
        r
    }

    /// Take a line that the user typed: a command is answered, and with
    /// everything else the model is asked.
    pub fn handle_input(
        &mut self,
        engine: &mut QueryEngine,
        services: &Services,
        input: &str,
    ) -> (r: InputOutcome)
        requires
            commands::parsed(input@) is Cost ==> command_texts::costs_fit(old(engine)@.costs),
        ensures
            input_outcome(
                old(self)@,
                old(engine)@,
                services@,
                input@,
                final(self)@,
                final(engine)@,
                r@,
            ),
    {
        proof {
            lemma_slash(input@);
        }
        if text::starts_with(input, "/") {
            self.dispatch_slash(engine, services, input)
        } else {
            let r = InputOutcome { commands: Vec::new(), query: true };
            assert(r@.commands =~= Seq::<UiView>::empty());
            r
        }
    }
}

/// What a line that begins with a slash comes to: nothing but the router and the
/// session change, and those as the command says.
pub open spec fn slash_outcome(
    before: GatewayView,
    engine: EngineView,
    services: ServicesView,
    input: Text,
    after: GatewayView,
    engine_after: EngineView,
    outcome: OutcomeView,
) -> bool {
    exists|locals: Seq<Text>, breakdown: Seq<(Text, ModelCost)>|
        #![trigger commands::shown_as(engine, services, locals, breakdown)]
        commands::shown_as(engine, services, locals, breakdown) && ({
            let d = commands::dispatched(
                before.commands,
                engine,
                services,
                session_index::list_text(
                    session_index::filtered_by_identity(services.sessions, engine.active_identity),
                    locals,
                ),
                breakdown,
                commands::parsed(input),
            );
            outcome == outcome_of(d.reply) && engine_after == d.engine && after == (GatewayView {
                commands: d.router,
                ..before
            })
        })
}

/// What a line of the user comes to: one that begins with a slash is answered,
/// and with any other the model is asked, and nothing changes.
pub open spec fn input_outcome(
    before: GatewayView,
    engine: EngineView,
    services: ServicesView,
    input: Text,
    after: GatewayView,
    engine_after: EngineView,
    outcome: OutcomeView,
) -> bool {
    if looks_like_command(input) {
        slash_outcome(before, engine, services, input, after, engine_after, outcome)
    } else {
        outcome == outcome_of(ReplyView::PassThrough) && engine_after == engine && after == before
    }
}

proof fn lemma_slash(input: Text)
    ensures
        text::has_prefix(input, "/"@) == looks_like_command(input),
{
    reveal_strlit("/");
    assert("/"@ =~= seq!['/']);
    if looks_like_command(input) {
        assert(input.subrange(0, 1) =~= seq!['/']);
    }
    if text::has_prefix(input, "/"@) {
        assert(input.subrange(0, 1)[0] == input[0]);
    }
}

proof fn lemma_allows_next(all: Seq<EventView>, i: int)
    requires
        0 <= i < all.len(),
    ensures
        allows_all(all.take(i + 1)) == (allows_all(all.take(i)) || all[i] is PermissionAllowAllSet),
{
    let now = all.take(i + 1);
    let was = all.take(i);
    if allows_all(was) {
        let k = choose|k: int| 0 <= k < was.len() && (#[trigger] was[k]) is PermissionAllowAllSet;
        assert(now[k] is PermissionAllowAllSet);
    }
    if all[i] is PermissionAllowAllSet {
        assert(now[i] is PermissionAllowAllSet);
    }
    if allows_all(now) {
        let k = choose|k: int| 0 <= k < now.len() && (#[trigger] now[k]) is PermissionAllowAllSet;
        if k < i {
            assert(was[k] is PermissionAllowAllSet);
        }
    }
}

proof fn lemma_all_mapped_add(a: Seq<EventView>, b: Seq<EventView>)
    ensures
        all_mapped(a + b) == all_mapped(a) + all_mapped(b),
    decreases b.len(),
{
    if b.len() == 0 {
        assert(a + b =~= a);
        assert(all_mapped(a) + all_mapped(b) =~= all_mapped(a));
    } else {
        assert((a + b).drop_last() =~= a + b.drop_last());
        assert((a + b).last() == b.last());
        lemma_all_mapped_add(a, b.drop_last());
        assert((all_mapped(a) + all_mapped(b.drop_last())) + events::mapped(b.last())
            =~= all_mapped(a) + (all_mapped(b.drop_last()) + events::mapped(b.last())));
    }
}

/// No event of the engine is lost or told out of turn: what is told when events
/// are taken, and what the events that stay will be told as, is together what
/// all of them are told as.
pub proof fn law_no_event_is_lost(g: GatewayView)
    ensures
        engine_told(g) + all_mapped(engine_drained(g).engine_events) == all_mapped(
            g.engine_events,
        ),
        g.engine_events.len() <= MAX_ENGINE_BATCH ==> engine_drained(g).engine_events.len() == 0,
{
    let n = batch(g.engine_events.len(), MAX_ENGINE_BATCH as int);
    assert(g.engine_events =~= g.engine_events.take(n) + g.engine_events.skip(n));
    lemma_all_mapped_add(g.engine_events.take(n), g.engine_events.skip(n));
}

/// Once every tool call is allowed, it stays so, whatever events are taken.
pub proof fn law_permission_is_kept(g: GatewayView)
    ensures
        g.permission_allow_all ==> engine_drained(g).permission_allow_all,
        !g.permission_allow_all && engine_drained(g).permission_allow_all ==> allows_all(
            g.engine_events,
        ),
{
    let n = batch(g.engine_events.len(), MAX_ENGINE_BATCH as int);
    let taken = g.engine_events.take(n);
    if allows_all(taken) {
        let k = choose|k: int|
            0 <= k < taken.len() && (#[trigger] taken[k]) is PermissionAllowAllSet;
        assert(g.engine_events[k] is PermissionAllowAllSet);
    }
}

/// What is no command is left to the model, and changes nothing; a command is not.
pub proof fn law_prompts_go_to_the_model(
    before: GatewayView,
    engine: EngineView,
    services: ServicesView,
    input: Text,
    after: GatewayView,
    engine_after: EngineView,
    outcome: OutcomeView,
)
    requires
        input_outcome(before, engine, services, input, after, engine_after, outcome),
    ensures
        input.len() == 0 || input[0] != '/' ==> outcome.query && outcome.commands.len() == 0
            && engine_after == engine && after == before,
        !(commands::parsed(input) is Unknown) ==> !outcome.query,
        after.engine_events == before.engine_events,
        after.permission_allow_all == before.permission_allow_all,
{
    if input.len() == 0 || input[0] != '/' {
        commands::law_plain_text_is_no_command(input);
    }
}

/// No event of a sub-agent is lost, and each event is shown as the events of its kind are,
/// behind those that came before it.
pub proof fn law_every_event_is_shown_in_its_turn(
    g: GatewayView,
    es: Seq<EventView>,
    e: EventView,
    subs: Seq<(SubEventView, Text)>,
    sub: (SubEventView, Text),
)
    ensures
        all_mapped(es.push(e)) == all_mapped(es) + events::mapped(e),
        all_sub_mapped(subs.push(sub)) == all_sub_mapped(subs) + sub_agent::mapped(sub.0, sub.1),
        exists|n: int|
            #![trigger g.sub_agent_events.take(n)]
            0 <= n <= g.sub_agent_events.len() && (g.sub_agent_events.len() > 0 ==> n > 0)
                && sub_agents_told(g) == all_sub_mapped(g.sub_agent_events.take(n))
                && sub_agents_drained(g).sub_agent_events == g.sub_agent_events.skip(n),
{
    assert(es.push(e).drop_last() =~= es);
    assert(subs.push(sub).drop_last() =~= subs);
    let n = batch(g.sub_agent_events.len(), MAX_SUB_AGENT_BATCH as int);
    assert(0 <= n <= g.sub_agent_events.len());
    assert(sub_agents_told(g) == all_sub_mapped(g.sub_agent_events.take(n)));
}

} // verus!
