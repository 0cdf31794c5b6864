//! What slash commands say.

use crate::engine::cost_tracker;
use crate::engine::cost_tracker::CostTracker;
use crate::engine::cost_tracker::CostView;
use crate::engine::cost_tracker::ModelCost;
use crate::gateway::commands;
use crate::gateway::commands::CategoryView;
use crate::gateway::commands::Services;
use crate::gateway::commands::ServicesView;
use crate::gateway::commands::SkillSummary;
use crate::text;
use crate::text::Text;
use vstd::prelude::*;
use vstd::string::*;

verus! {

/// What `/help` says.
pub const HELP_TEXT: &'static str = "## Available Commands\n\n**Session**\n- `/help` — Show this help\n- `/exit` `/quit` — Exit\n- `/clear` — Clear history\n- `/compact` — Compress history\n- `/cost` — Token usage\n- `/model` — Current model\n\n**Inspect**\n- `/tools` — List builtin tools\n- `/mcp` — List MCP servers and tools\n- `/skills` — List loaded skills\n- `/memory` — Memory files\n- `/hooks` — List hooks\n\n**History**\n- `/restore` — Restore the last session\n- `/restore N` — Restore session #N\n- `/search` — Search past sessions\n- `/search [query]` — Search by topic\n\n**Goal**\n- `/goal [text]` — Set goal\n- `/goal clear` — Clear goal\n- `/goal pause` — Pause goal\n- `/goal resume` — Resume goal\n\n**Identity**\n- `/identity` — Show current identity\n- `/identity [name]` — Switch to named identity\n- `/identity clear` — Clear identity (use default role)\n- `/identity none` — Same as clear\n\n## Navigation\n\n- `/` — History (input) or scroll (output)\n- `PgUp` `PgDn` — Scroll output\n- `Mouse wheel` — Scroll output\n- `Shift+drag` — Select and copy text\n- `Ctrl+C` — Clear input / Interrupt\n- `Ctrl+D` — Hard quit (immediate)\n";

/// What `/tools` says.
pub open spec fn tools_text(tools: Seq<Text>) -> Text {
    "Tools ("@ + text::decimal(tools.len()) + ")\n"@ + text::joined(tools, ", "@)
}

/// What `/memory` says.
pub open spec fn memory_text(s: ServicesView) -> Text {
    match s.external_memory {
        Some(name) => s.memory_summary + "\n\nExternal provider: "@ + name + " (active)"@,
        None => s.memory_summary,
    }
}

/// The line of a skill.
pub open spec fn skill_line(s: SkillSummary<Text>) -> Text {
    "- "@ + s.name + ": "@ + s.description
}

/// The first skill of a name.
pub open spec fn skill_named(skills: Seq<SkillSummary<Text>>, name: Text) -> Option<
    SkillSummary<Text>,
>
    decreases skills.len(),
{
    if skills.len() == 0 {
        None
    } else if skills[0].name == name {
        Some(skills[0])
    } else {
        skill_named(skills.drop_first(), name)
    }
}

/// The lines of the skills of a group, as far as they are known.
pub open spec fn group_lines(skills: Seq<SkillSummary<Text>>, names: Seq<Text>) -> Seq<Text>
    decreases names.len(),
{
    if names.len() == 0 {
        Seq::empty()
    } else {
        let before = group_lines(skills, names.drop_last());
        match skill_named(skills, names.last()) {
            Some(s) => before.push(skill_line(s)),
            None => before,
        }
    }
}

/// The lines of the groups of skills.
pub open spec fn category_lines(
    skills: Seq<SkillSummary<Text>>,
    categories: Seq<CategoryView>,
) -> Seq<Text>
    decreases categories.len(),
{
    if categories.len() == 0 {
        Seq::empty()
    } else {
        let c = categories.last();
        (category_lines(skills, categories.drop_last()).push(
            "## "@ + c.name + " — "@ + c.description,
        ) + group_lines(skills, c.skill_names)).push(""@)
    }
}

/// What `/skills` says.
pub open spec fn skills_text(s: ServicesView) -> Text {
    if s.categories.len() == 0 {
        text::joined(
            seq!["Skills ("@ + text::decimal(s.skills.len()) + ")\n"@] + Seq::new(
                s.skills.len(),
                |i: int| skill_line(s.skills[i]),
            ),
            "\n"@,
        )
    } else {
        text::joined(
            seq![
                "Skills ("@ + text::decimal(s.skills.len()) + " skills in "@ + text::decimal(
                    s.categories.len(),
                ) + " categories)\n"@,
            ] + category_lines(s.skills, s.categories),
            "\n"@,
        )
    }
}

/// Whether the sums of a session's tokens can be told.
pub open spec fn costs_fit(c: CostView) -> bool {
    cost_tracker::grand_total(c) <= u64::MAX && c.last_prompt + c.last_output <= u64::MAX
}

/// The lines of the costs of a model.
pub open spec fn model_lines(model: Text, c: ModelCost) -> Seq<Text> {
    seq![
        "  "@ + model + ": "@ + text::decimal(c.input_tokens as nat) + " input + "@
            + text::decimal(c.output_tokens as nat) + " output ("@ + text::decimal(c.calls as nat)
            + " calls)"@,
    ] + (if c.cache_read_input_tokens > 0 || c.cache_creation_input_tokens > 0 {
        seq![
            "    cache: "@ + text::decimal(c.cache_read_input_tokens as nat) + " read + "@
                + text::decimal(c.cache_creation_input_tokens as nat) + " write"@,
        ]
    } else {
        Seq::empty()
    }) + (if c.reasoning_tokens > 0 {
        seq![
            "    reasoning: "@ + text::decimal(c.reasoning_tokens as nat)
                + " (included in output)"@,
        ]
    } else {
        Seq::empty()
    })
}

/// The lines of the costs by model.
pub open spec fn breakdown_lines(models: Seq<(Text, ModelCost)>) -> Seq<Text>
    decreases models.len(),
{
    if models.len() == 0 {
        Seq::empty()
    } else {
        breakdown_lines(models.drop_last()) + model_lines(models.last().0, models.last().1)
    }
}

/// How full the context is.
pub open spec fn pressure_text(c: CostView) -> Text {
    "Context pressure: "@ + text::decimal(c.last_prompt as nat) + " prompt + "@ + text::decimal(
        c.last_output as nat,
    ) + " output = "@ + text::decimal((c.last_prompt + c.last_output) as nat) + " tokens"@
}

/// What `/cost` says where one model was asked, or none.
pub open spec fn single_cost_text(c: CostView) -> Text {
    "Token usage: "@ + text::decimal(cost_tracker::grand_total(c) as nat) + " total ("@
        + text::decimal(c.input as nat) + " input + "@ + text::decimal(c.output as nat)
        + " output"@ + (if c.cache_read + c.cache_creation > 0 {
        " + "@ + text::decimal((c.cache_read + c.cache_creation) as nat) + " cached"@
    } else {
        ""@
    }) + ")"@ + (if c.reasoning > 0 {
        " (reasoning: "@ + text::decimal(c.reasoning as nat) + ", included in output)"@
    } else {
        ""@
    }) + " — "@ + text::decimal(c.turns as nat) + (if c.turns == 1 {
        " call"@
    } else {
        " calls"@
    }) + "\n"@ + pressure_text(c)
}

/// What `/cost` says; `breakdown` are the costs by model.
pub open spec fn cost_text(c: CostView, breakdown: Seq<(Text, ModelCost)>) -> Text {
    if breakdown.len() > 1 {
        text::joined(
            seq![
                "Token usage: "@ + text::decimal(cost_tracker::grand_total(c) as nat) + " total ("@
                    + text::decimal(c.input as nat) + " input + "@ + text::decimal(c.output as nat)
                    + " output + "@ + text::decimal((c.cache_read + c.cache_creation) as nat)
                    + " cache) — "@ + text::decimal(c.turns as nat) + " API calls"@,
                pressure_text(c),
            ] + breakdown_lines(breakdown),
            "\n"@,
        )
    } else {
        single_cost_text(c)
    }
}

/// What `/hooks` says where there are none.
pub const NO_HOOKS: &'static str =
    "No hooks registered. Use zn.hook(event, fn) in init.lua to register hooks.";

/// The line of an event that has hooks.
pub open spec fn hook_line(h: (Text, usize)) -> Text {
    "  "@ + h.0 + " — "@ + text::decimal(h.1 as nat) + " handler(s)"@
}

/// What `/hooks` says.
pub open spec fn hooks_text(hooks: Seq<(Text, usize)>, count: usize) -> Text {
    if hooks.len() == 0 {
        NO_HOOKS@
    } else {
        text::joined(
            seq!["Registered hooks ("@ + text::decimal(count as nat) + " total):"@] + Seq::new(
                hooks.len(),
                |i: int| hook_line(hooks[i]),
            ),
            "\n"@,
        )
    }
}

// ---------------------------------------------------------------------------
// Making them
// ---------------------------------------------------------------------------

/// What `/tools` says.
pub fn show_tools(tools: &Vec<String>) -> (r: String)
    ensures
        r@ == tools_text(text::texts(tools@)),
{
    assert(text::texts(tools@).len() == tools@.len());
    let n = text::count(tools.len());
    let list = text::join(tools, ", ");
    text::cat4("Tools (", n.as_str(), ")\n", list.as_str())
}

/// What `/memory` says.
pub fn show_memory(s: &Services) -> (r: String)
    ensures
        r@ == memory_text(s@),
{
    match &s.external_memory {
        Some(name) => text::cat4(
            s.memory_summary.as_str(),
            "\n\nExternal provider: ",
            name.as_str(),
            " (active)",
        ),
        None => text::copy(s.memory_summary.as_str()),
    }
}

fn show_skill(s: &SkillSummary) -> (r: String)
    ensures
        r@ == skill_line(s@),
{
    text::cat4("- ", s.name.as_str(), ": ", s.description.as_str())
}

fn find_skill<'a>(skills: &'a Vec<SkillSummary>, name: &str) -> (r: Option<&'a SkillSummary>)
    ensures
        match r {
            Some(s) => skill_named(commands::skills_view(skills@), name@) == Some(s@),
            None => skill_named(commands::skills_view(skills@), name@) is None,
        },
{
    let ghost all = commands::skills_view(skills@);
    let mut i: usize = 0;
    assert(all.skip(0) =~= all);
    while i < skills.len()
        invariant
            i <= skills@.len(),
            all == commands::skills_view(skills@),
            skill_named(all, name@) == skill_named(all.skip(i as int), name@),
        decreases skills@.len() - i,
    {
        assert(all.skip(i as int)[0] == skills@[i as int]@);
        assert(all.skip(i as int).drop_first() =~= all.skip(i + 1));
        if text::same(skills[i].name.as_str(), name) {
            return Some(&skills[i]);
        }
        i = i + 1;
    }
    None
}

fn push_group(lines: &mut Vec<String>, skills: &Vec<SkillSummary>, names: &Vec<String>)
    ensures
        text::texts(final(lines)@) == text::texts(old(lines)@) + group_lines(
            commands::skills_view(skills@),
            text::texts(names@),
        ),
{
    let ghost all = text::texts(names@);
    let ghost known = commands::skills_view(skills@);
    let ghost first = text::texts(lines@);
    let mut i: usize = 0;
    assert(first + group_lines(known, all.take(0)) =~= first);
    while i < names.len()
        invariant
            i <= names@.len(),
            all == text::texts(names@),
            known == commands::skills_view(skills@),
            text::texts(lines@) == first + group_lines(known, all.take(i as int)),
        decreases names@.len() - i,
    {
        assert(all.take(i + 1).drop_last() =~= all.take(i as int));
        assert(all.take(i + 1).last() == names@[i as int]@);
        let ghost was = group_lines(known, all.take(i as int));
        if let Some(s) = find_skill(skills, names[i].as_str()) {
            text::push_text(lines, show_skill(s));
            assert(first + was.push(skill_line(s@)) =~= (first + was).push(skill_line(s@)));
        }
        i = i + 1;
    }
    assert(all.take(i as int) =~= all);
}

fn show_plain_skills(s: &Services) -> (r: String)
    requires
        s.categories@.len() == 0,
    ensures
        r@ == skills_text(s@),
{
    let ghost all = s@.skills;
    let n = text::count(s.skills.len());
    let head = text::cat3("Skills (", n.as_str(), ")\n");
    let ghost first = head@;
    let mut lines: Vec<String> = Vec::new();
    text::push_text(&mut lines, head);
    let mut i: usize = 0;
    assert(text::texts(lines@) =~= seq![first] + Seq::new(0, |k: int| skill_line(all[k])));
    while i < s.skills.len()
        invariant
            i <= s.skills@.len(),
            all == commands::skills_view(s.skills@),
            text::texts(lines@) == seq![first] + Seq::new(i as nat, |k: int| skill_line(all[k])),
        decreases s.skills@.len() - i,
    {
        text::push_text(&mut lines, show_skill(&s.skills[i]));
        i = i + 1;
        assert(text::texts(lines@) =~= seq![first] + Seq::new(
            i as nat,
            |k: int| skill_line(all[k]),
        ));
    }
    assert(all.len() == s.skills@.len());
    text::join(&lines, "\n")
}

fn show_grouped_skills(s: &Services) -> (r: String)
    requires
        s.categories@.len() > 0,
    ensures
        r@ == skills_text(s@),
{
    let ghost known = s@.skills;
    let ghost all = s@.categories;
    let n = text::count(s.skills.len());
    let m = text::count(s.categories.len());
    let head = text::cat5("Skills (", n.as_str(), " skills in ", m.as_str(), " categories)\n");
    let ghost first = head@;
    let mut lines: Vec<String> = Vec::new();
    text::push_text(&mut lines, head);
    let mut i: usize = 0;
    assert(text::texts(lines@) =~= seq![first] + category_lines(known, all.take(0)));
    while i < s.categories.len()
        invariant
            i <= s.categories@.len(),
            known == commands::skills_view(s.skills@),
            all == commands::categories_view(s.categories@),
            text::texts(lines@) == seq![first] + category_lines(known, all.take(i as int)),
        decreases s.categories@.len() - i,
    {
        let c = &s.categories[i];
        assert(all.take(i + 1).drop_last() =~= all.take(i as int));
        assert(all.take(i + 1).last() == c@);
        let ghost was = category_lines(known, all.take(i as int));
        let title = text::cat4("## ", c.name.as_str(), " — ", c.description.as_str());
        let ghost shown = title@;
        text::push_text(&mut lines, title);
        push_group(&mut lines, &s.skills, &c.skill_names);
        text::push_text(&mut lines, text::copy(""));
        assert(text::texts(lines@) =~= seq![first] + (was.push(shown) + group_lines(
            known,
            c@.skill_names,
        )).push(""@));
        i = i + 1;
    }
    assert(all.take(i as int) =~= all);
    assert(all.len() == s.categories@.len());
    assert(known.len() == s.skills@.len());
    text::join(&lines, "\n")
}

/// What `/skills` says.
pub fn show_skills(s: &Services) -> (r: String)
    ensures
        r@ == skills_text(s@),
{
    if s.categories.len() == 0 {
        show_plain_skills(s)
    } else {
        show_grouped_skills(s)
    }
}

fn push_model(lines: &mut Vec<String>, model: &str, c: &ModelCost)
    ensures
        text::texts(final(lines)@) == text::texts(old(lines)@) + model_lines(model@, *c),
{
    let ghost first = text::texts(lines@);
    let input = text::number(c.input_tokens);
    let output = text::number(c.output_tokens);
    let calls = text::number(c.calls);
    let head = text::cat4("  ", model, ": ", input.as_str());
    let line = text::cat6(
        head.as_str(),
        " input + ",
        output.as_str(),
        " output (",
        calls.as_str(),
        " calls)",
    );
    text::push_text(lines, line);
    if c.cache_read_input_tokens > 0 || c.cache_creation_input_tokens > 0 {
        let read = text::number(c.cache_read_input_tokens);
        let written = text::number(c.cache_creation_input_tokens);
        let part = text::cat5(
            "    cache: ",
            read.as_str(),
            " read + ",
            written.as_str(),
            " write",
        );
        text::push_text(lines, part);
    }
    if c.reasoning_tokens > 0 {
        let n = text::number(c.reasoning_tokens);
        let part = text::cat3("    reasoning: ", n.as_str(), " (included in output)");
        text::push_text(lines, part);
    }
    assert(text::texts(lines@) =~= first + model_lines(model@, *c));
}

fn show_pressure(c: &CostTracker) -> (r: String)
    requires
        c@.last_prompt + c@.last_output <= u64::MAX,
    ensures
        r@ == pressure_text(c@),
{
    let prompt = text::number(c.last_prompt_tokens);
    let output = text::number(c.last_output_tokens);
    let sum = text::number(c.last_prompt_tokens + c.last_output_tokens);
    text::cat7(
        "Context pressure: ",
        prompt.as_str(),
        " prompt + ",
        output.as_str(),
        " output = ",
        sum.as_str(),
        " tokens",
    )
}

fn show_single_cost(c: &CostTracker) -> (r: String)
    requires
        costs_fit(c@),
    ensures
        r@ == single_cost_text(c@),
{
    let total = text::number(c.total_tokens());
    let input = text::number(c.total_input_tokens);
    let output = text::number(c.total_output_tokens);
    let cached: u64 = c.total_cached_tokens();
    let cached_part = if cached > 0 {
        let n = text::number(cached);
        text::cat3(" + ", n.as_str(), " cached")
    } else {
        text::copy("")
    };
    let reasoning_part = if c.total_reasoning_tokens > 0 {
        let n = text::number(c.total_reasoning_tokens);
        text::cat3(" (reasoning: ", n.as_str(), ", included in output)")
    } else {
        text::copy("")
    };
    let turns = text::number(c.turn_count);
    let calls = if c.turn_count == 1 {
        " call"
    } else {
        " calls"
    };
    let pressure = show_pressure(c);
    let head = text::cat7(
        "Token usage: ",
        total.as_str(),
        " total (",
        input.as_str(),
        " input + ",
        output.as_str(),
        " output",
    );
    let middle = text::cat5(
        head.as_str(),
        cached_part.as_str(),
        ")",
        reasoning_part.as_str(),
        " — ",
    );
    text::cat5(middle.as_str(), turns.as_str(), calls, "\n", pressure.as_str())
}

/// What `/cost` says; `breakdown` are the costs by model.
pub fn show_cost(c: &CostTracker, breakdown: &Vec<(String, ModelCost)>) -> (r: String)
    requires
        costs_fit(c@),
    ensures
        r@ == cost_text(c@, cost_tracker::costs_view(breakdown@)),
{
    let ghost all = cost_tracker::costs_view(breakdown@);
    assert(all.len() == breakdown@.len());
    if breakdown.len() <= 1 {
        return show_single_cost(c);
    }
    let total = text::number(c.total_tokens());
    let input = text::number(c.total_input_tokens);
    let output = text::number(c.total_output_tokens);
    let cached = text::number(c.total_cached_tokens());
    let turns = text::number(c.turn_count);
    let head = text::cat7(
        "Token usage: ",
        total.as_str(),
        " total (",
        input.as_str(),
        " input + ",
        output.as_str(),
        " output + ",
    );
    let usage = text::cat5(
        head.as_str(),
        cached.as_str(),
        " cache) — ",
        turns.as_str(),
        " API calls",
    );
    let pressure = show_pressure(c);
    let ghost first = seq![usage@, pressure@];
    let mut lines: Vec<String> = Vec::new();
    text::push_text(&mut lines, usage);
    text::push_text(&mut lines, pressure);
    let mut i: usize = 0;
    assert(text::texts(lines@) =~= first + breakdown_lines(all.take(0)));
    while i < breakdown.len()
        invariant
            i <= breakdown@.len(),
            all == cost_tracker::costs_view(breakdown@),
            text::texts(lines@) == first + breakdown_lines(all.take(i as int)),
        decreases breakdown@.len() - i,
    {
        assert(all.take(i + 1).drop_last() =~= all.take(i as int));
        assert(all.take(i + 1).last() == all[i as int]);
        let ghost was = breakdown_lines(all.take(i as int));
        let ghost more = model_lines(all[i as int].0, all[i as int].1);
        push_model(&mut lines, breakdown[i].0.as_str(), &breakdown[i].1);
        assert((first + was) + more =~= first + (was + more));
        i = i + 1;
    }
    assert(all.take(i as int) =~= all);
    text::join(&lines, "\n")
}

/// Whether the sums of a session's tokens can be told.
pub fn cost_can_be_told(c: &CostTracker) -> (r: bool)
    ensures
        r == costs_fit(c@),
{
    let total: u128 = c.total_input_tokens as u128 + c.total_output_tokens as u128
        + c.total_cache_read_input_tokens as u128 + c.total_cache_creation_input_tokens as u128;
    let last: u128 = c.last_prompt_tokens as u128 + c.last_output_tokens as u128;
    total <= u64::MAX as u128 && last <= u64::MAX as u128
}

/// What `/hooks` says.
pub fn show_hooks(hooks: &Vec<(String, usize)>, count: usize) -> (r: String)
    ensures
        r@ == hooks_text(commands::hooks_view(hooks@), count),
{
    let ghost all = commands::hooks_view(hooks@);
    assert(all.len() == hooks@.len());
    if hooks.len() == 0 {
        return text::copy(NO_HOOKS);
    }
    let n = text::count(count);
    let head = text::cat3("Registered hooks (", n.as_str(), " total):");
    let ghost first = head@;
    let mut lines: Vec<String> = Vec::new();
    text::push_text(&mut lines, head);
    let mut i: usize = 0;
    assert(text::texts(lines@) =~= seq![first] + Seq::new(0, |k: int| hook_line(all[k])));
    while i < hooks.len()
        invariant
            i <= hooks@.len(),
            all == commands::hooks_view(hooks@),
            text::texts(lines@) == seq![first] + Seq::new(i as nat, |k: int| hook_line(all[k])),
        decreases hooks@.len() - i,
    {
        let m = text::count(hooks[i].1);
        let line = text::cat5("  ", hooks[i].0.as_str(), " — ", m.as_str(), " handler(s)");
        assert(line@ == hook_line(all[i as int]));
        text::push_text(&mut lines, line);
        i = i + 1;
        assert(text::texts(lines@) =~= seq![first] + Seq::new(
            i as nat,
            |k: int| hook_line(all[k]),
        ));
    }
    text::join(&lines, "\n")
}

/// Where skills are not grouped, each of them is listed with its name and its description.
pub proof fn law_every_skill_is_listed(s: ServicesView, i: int)
    requires
        s.categories.len() == 0,
        0 <= i < s.skills.len(),
    ensures
        text::has_substring(skills_text(s), "- "@ + s.skills[i].name + ": "@ + s.skills[i].description),
{
    let lines = Seq::new(s.skills.len(), |k: int| skill_line(s.skills[k]));
    let parts = seq!["Skills ("@ + text::decimal(s.skills.len()) + ")\n"@] + lines;
    assert(parts[i + 1] == lines[i]);
    text::lemma_joined_has(parts, "\n"@, i + 1);
}

/// Each kind of hook is listed with how many there are of it.
pub proof fn law_every_hook_is_listed(hooks: Seq<(Text, usize)>, count: usize, i: int)
    requires
        0 <= i < hooks.len(),
    ensures
        text::has_substring(
            hooks_text(hooks, count),
            hooks[i].0 + " — "@ + text::decimal(hooks[i].1 as nat),
        ),
{
    let lines = Seq::new(hooks.len(), |k: int| hook_line(hooks[k]));
    let parts = seq!["Registered hooks ("@ + text::decimal(count as nat) + " total):"@] + lines;
    assert(parts[i + 1] == lines[i]);
    text::lemma_joined_has(parts, "\n"@, i + 1);
    let inner = hooks[i].0 + " — "@ + text::decimal(hooks[i].1 as nat);
    text::lemma_stands_between("  "@, inner, " handler(s)"@);
    assert("  "@ + inner + " handler(s)"@ =~= hook_line(hooks[i]));
    text::lemma_stands_within(hooks_text(hooks, count), hook_line(hooks[i]), inner);
}

/// What the last request took is told wherever the cost of a session is.
pub proof fn law_pressure_is_told(c: CostView, breakdown: Seq<(Text, ModelCost)>)
    ensures
        text::has_substring(cost_text(c, breakdown), pressure_text(c)),
        text::has_substring(pressure_text(c), text::decimal(c.last_prompt as nat) + " prompt + "@),
{
    lemma_pair_stands(
        "Context pressure: "@,
        text::decimal(c.last_prompt as nat),
        " prompt + "@,
        text::decimal(c.last_output as nat),
        " output = "@,
        text::decimal((c.last_prompt + c.last_output) as nat),
        " tokens"@,
    );
    if breakdown.len() > 1 {
        lemma_breakdown_tells_pressure(c, breakdown);
    } else {
        lemma_single_tells_pressure(c);
    }
}

proof fn lemma_pair_stands(a: Text, b: Text, c: Text, d: Text, e: Text, f: Text, g: Text)
    ensures
        text::has_substring(a + b + c + d + e + f + g, b + c),
{
    let pair = b + c;
    let rest = d + e + f + g;
    let all = a + b + c + d + e + f + g;
    assert(all =~= a + pair + rest);
    text::lemma_stands_between(a, pair, rest);
}

proof fn lemma_breakdown_tells_pressure(c: CostView, breakdown: Seq<(Text, ModelCost)>)
    requires
        breakdown.len() > 1,
    ensures
        text::has_substring(cost_text(c, breakdown), pressure_text(c)),
{
    let head = "Token usage: "@ + text::decimal(cost_tracker::grand_total(c) as nat) + " total ("@
        + text::decimal(c.input as nat) + " input + "@ + text::decimal(c.output as nat)
        + " output + "@ + text::decimal((c.cache_read + c.cache_creation) as nat) + " cache) — "@
        + text::decimal(c.turns as nat) + " API calls"@;
    let parts = seq![head, pressure_text(c)] + breakdown_lines(breakdown);
    assert(parts[1] == pressure_text(c));
    text::lemma_joined_has(parts, "\n"@, 1);
}

proof fn lemma_single_tells_pressure(c: CostView)
    ensures
        text::has_substring(single_cost_text(c), pressure_text(c)),
{
    let cut = single_cost_text(c).len() - pressure_text(c).len();
    let head = single_cost_text(c).take(cut);
    assert(single_cost_text(c) =~= head + pressure_text(c));
    text::lemma_both_stand(head, pressure_text(c));
}

} // verus!
