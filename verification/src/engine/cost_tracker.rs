//! The tokens that a session has taken.
//!
//! Every request is billed for all it sends, the conversation so far included,
//! so every count adds up over the requests. Only the two `last_` counts speak
//! of the latest request alone: they show how full the context window is.

use crate::api;
use crate::api::Usage;
use crate::text;
use crate::text::Text;
use vstd::prelude::*;

verus! {

/// The tokens that one model has taken.
#[derive(Clone, Copy, PartialEq, Eq, Structural)]
pub struct ModelCost {
    pub input_tokens: u64,
    pub output_tokens: u64,
    pub cache_read_input_tokens: u64,
    pub cache_creation_input_tokens: u64,
    pub reasoning_tokens: u64,
    pub calls: u64,
}

/// The cost of a model that was not used.
pub open spec fn no_cost() -> ModelCost {
    ModelCost {
        input_tokens: 0,
        output_tokens: 0,
        cache_read_input_tokens: 0,
        cache_creation_input_tokens: 0,
        reasoning_tokens: 0,
        calls: 0,
    }
}

impl Default for ModelCost {
    fn default() -> (r: ModelCost)
        ensures
            r == no_cost(),
    {
        ModelCost {
            input_tokens: 0,
            output_tokens: 0,
            cache_read_input_tokens: 0,
            cache_creation_input_tokens: 0,
            reasoning_tokens: 0,
            calls: 0,
        }
    }
}

/// The tokens that a session has taken.
pub struct CostTracker {
    /// Input tokens that were not cached.
    pub total_input_tokens: u64,
    pub total_output_tokens: u64,
    pub total_cache_read_input_tokens: u64,
    pub total_cache_creation_input_tokens: u64,
    pub total_reasoning_tokens: u64,
    /// Requests that were recorded.
    pub turn_count: u64,
    /// The costs by model, each model once.
    pub model_costs: Vec<(String, ModelCost)>,
    /// Tokens of the latest request's prompt.
    pub last_prompt_tokens: u64,
    /// Tokens of the latest request's reply.
    pub last_output_tokens: u64,
}

/// What a `CostTracker` holds.
#[verifier::ext_equal]
pub struct CostView {
    pub input: int,
    pub output: int,
    pub cache_read: int,
    pub cache_creation: int,
    pub reasoning: int,
    pub turns: int,
    pub models: Seq<(Text, ModelCost)>,
    pub last_prompt: int,
    pub last_output: int,
}

/// What a list of costs by model holds.
pub open spec fn costs_view(v: Seq<(String, ModelCost)>) -> Seq<(Text, ModelCost)> {
    Seq::new(v.len(), |i: int| (v[i].0@, v[i].1))
}

impl View for CostTracker {
    type V = CostView;

    open spec fn view(&self) -> CostView {
        CostView {
            input: self.total_input_tokens as int,
            output: self.total_output_tokens as int,
            cache_read: self.total_cache_read_input_tokens as int,
            cache_creation: self.total_cache_creation_input_tokens as int,
            reasoning: self.total_reasoning_tokens as int,
            turns: self.turn_count as int,
            models: costs_view(self.model_costs@),
            last_prompt: self.last_prompt_tokens as int,
            last_output: self.last_output_tokens as int,
        }
    }
}

/// A tracker that has recorded nothing.
pub open spec fn no_costs() -> CostView {
    CostView {
        input: 0,
        output: 0,
        cache_read: 0,
        cache_creation: 0,
        reasoning: 0,
        turns: 0,
        models: Seq::empty(),
        last_prompt: 0,
        last_output: 0,
    }
}

impl Default for CostTracker {
    fn default() -> (r: CostTracker)
        ensures
            r@ == no_costs(),
    {
        let r = CostTracker {
            total_input_tokens: 0,
            total_output_tokens: 0,
            total_cache_read_input_tokens: 0,
            total_cache_creation_input_tokens: 0,
            total_reasoning_tokens: 0,
            turn_count: 0,
            model_costs: Vec::new(),
            last_prompt_tokens: 0,
            last_output_tokens: 0,
        };
        assert(r@ =~= no_costs());
        r
    }
}

/// The position of a model, or the number of models.
pub open spec fn model_index(models: Seq<(Text, ModelCost)>, model: Text) -> int
    decreases models.len(),
{
    if models.len() == 0 || models[0].0 == model {
        0
    } else {
        1 + model_index(models.drop_first(), model)
    }
}

/// The cost of a model.
pub open spec fn cost_of(models: Seq<(Text, ModelCost)>, model: Text) -> ModelCost {
    let i = model_index(models, model);
    if i < models.len() {
        models[i].1
    } else {
        no_cost()
    }
}

/// The costs with that of one model replaced.
pub open spec fn with_cost(
    models: Seq<(Text, ModelCost)>,
    model: Text,
    cost: ModelCost,
) -> Seq<(Text, ModelCost)> {
    let i = model_index(models, model);
    if i < models.len() {
        models.update(i, (model, cost))
    } else {
        models.push((model, cost))
    }
}

/// Whether one more request keeps a model's counts within 64 bits.
pub open spec fn cost_has_room(c: ModelCost, u: Usage) -> bool {
    &&& c.input_tokens + u.input_tokens <= u64::MAX
    &&& c.output_tokens + u.output_tokens <= u64::MAX
    &&& c.cache_read_input_tokens + u.cache_read_input_tokens <= u64::MAX
    &&& c.cache_creation_input_tokens + u.cache_creation_input_tokens <= u64::MAX
    &&& c.reasoning_tokens + u.reasoning_tokens <= u64::MAX
    &&& c.calls < u64::MAX
}

/// A model's cost with one more request.
pub open spec fn cost_plus(c: ModelCost, u: Usage) -> ModelCost {
    ModelCost {
        input_tokens: (c.input_tokens + u.input_tokens) as u64,
        output_tokens: (c.output_tokens + u.output_tokens) as u64,
        cache_read_input_tokens: (c.cache_read_input_tokens + u.cache_read_input_tokens) as u64,
        cache_creation_input_tokens: (c.cache_creation_input_tokens
            + u.cache_creation_input_tokens) as u64,
        reasoning_tokens: (c.reasoning_tokens + u.reasoning_tokens) as u64,
        calls: (c.calls + 1) as u64,
    }
}

/// Whether a request can be recorded without a count leaving 64 bits.
pub open spec fn has_room(t: CostView, model: Text, u: Usage) -> bool {
    &&& t.input + u.input_tokens <= u64::MAX
    &&& t.output + u.output_tokens <= u64::MAX
    &&& t.cache_read + u.cache_read_input_tokens <= u64::MAX
    &&& t.cache_creation + u.cache_creation_input_tokens <= u64::MAX
    &&& t.reasoning + u.reasoning_tokens <= u64::MAX
    &&& t.turns < u64::MAX
    &&& api::prompt_size(u) <= u64::MAX
    &&& cost_has_room(cost_of(t.models, model), u)
}

/// The counts after a request.
pub open spec fn after_request(t: CostView, model: Text, u: Usage) -> CostView {
    CostView {
        input: t.input + u.input_tokens,
        output: t.output + u.output_tokens,
        cache_read: t.cache_read + u.cache_read_input_tokens,
        cache_creation: t.cache_creation + u.cache_creation_input_tokens,
        reasoning: t.reasoning + u.reasoning_tokens,
        turns: t.turns + 1,
        models: with_cost(t.models, model, cost_plus(cost_of(t.models, model), u)),
        last_prompt: api::prompt_size(u),
        last_output: u.output_tokens as int,
    }
}

/// What a sub-agent took, as one request.
pub open spec fn subagent_usage(input_tokens: u64, output_tokens: u64) -> Usage {
    Usage {
        input_tokens,
        output_tokens,
        cache_read_input_tokens: 0,
        cache_creation_input_tokens: 0,
        reasoning_tokens: 0,
    }
}

/// The counts after a sub-agent's work: its turns are not the parent's.
pub open spec fn after_subagent(
    t: CostView,
    model: Text,
    input_tokens: u64,
    output_tokens: u64,
) -> CostView {
    let u = subagent_usage(input_tokens, output_tokens);
    CostView {
        input: t.input + input_tokens,
        output: t.output + output_tokens,
        models: with_cost(t.models, model, cost_plus(cost_of(t.models, model), u)),
        ..t
    }
}

/// Prompts and replies together. Reasoning is part of the replies.
pub open spec fn grand_total(t: CostView) -> int {
    t.input + t.output + t.cache_read + t.cache_creation
}

/// Whether the costs are ordered by calls, most first.
pub open spec fn by_calls(costs: Seq<(Text, ModelCost)>) -> bool {
    forall|i: int, j: int|
        0 <= i <= j < costs.len() ==> (#[trigger] costs[i]).1.calls >= (
        #[trigger] costs[j]).1.calls
}

proof fn lemma_model_index(models: Seq<(Text, ModelCost)>, model: Text)
    ensures
        0 <= model_index(models, model) <= models.len(),
        model_index(models, model) < models.len() ==> models[model_index(models, model)].0
            == model,
        forall|k: int|
            0 <= k < model_index(models, model) ==> (#[trigger] models[k]).0 != model,
    decreases models.len(),
{
    if models.len() > 0 && models[0].0 != model {
        let rest = models.drop_first();
        lemma_model_index(rest, model);
        assert forall|k: int| 0 <= k < model_index(models, model) implies (#[trigger] models[k]).0
            != model by {
            if k > 0 {
                assert(rest[k - 1] == models[k]);
            }
        }
    }
}

impl CostTracker {
    fn index_of(&self, model: &str) -> (r: usize)
        ensures
            r == model_index(costs_view(self.model_costs@), model@),
            r <= self.model_costs@.len(),
    {
        let ghost all = costs_view(self.model_costs@);
        let mut i: usize = 0;
        assert(all.skip(0) =~= all);
        while i < self.model_costs.len()
            invariant
                i <= self.model_costs@.len(),
                all == costs_view(self.model_costs@),
                model_index(all, model@) == i + model_index(all.skip(i as int), model@),
            decreases self.model_costs@.len() - i,
        {
            assert(all.skip(i as int)[0] == all[i as int]);
            assert(all.skip(i as int).drop_first() =~= all.skip(i + 1));
            if text::same(self.model_costs[i].0.as_str(), model) {
                return i;
            }
            i = i + 1;
        }
        i
    }

    fn add_cost(&mut self, model: &str, u: &Usage)
        requires
            cost_has_room(cost_of(old(self)@.models, model@), *u),
        ensures
            final(self)@ == (CostView {
                models: with_cost(
                    old(self)@.models,
                    model@,
                    cost_plus(cost_of(old(self)@.models, model@), *u),
                ),
                ..old(self)@
            }),
    {
        let ghost was = self@;
        let i: usize = self.index_of(model);
        let c = if i < self.model_costs.len() {
            self.model_costs[i].1
        } else {
            ModelCost::default()
        };
        assert(c == cost_of(was.models, model@));
        let next = ModelCost {
            input_tokens: c.input_tokens + u.input_tokens,
            output_tokens: c.output_tokens + u.output_tokens,
            cache_read_input_tokens: c.cache_read_input_tokens + u.cache_read_input_tokens,
            cache_creation_input_tokens: c.cache_creation_input_tokens
                + u.cache_creation_input_tokens,
            reasoning_tokens: c.reasoning_tokens + u.reasoning_tokens,
            calls: c.calls + 1,
        };
        if i < self.model_costs.len() {
            self.model_costs.set(i, (text::copy(model), next));
        } else {
            self.model_costs.push((text::copy(model), next));
        }
        assert(self@.models =~= with_cost(was.models, model@, next));
    }

    /// Record a request: every count is added to the totals.
    pub fn record(&mut self, model: &str, usage: &Usage)
        requires
            has_room(old(self)@, model@, *usage),
        ensures
            final(self)@ == after_request(old(self)@, model@, *usage),
    {
        self.total_input_tokens = self.total_input_tokens + usage.input_tokens;
        self.total_output_tokens = self.total_output_tokens + usage.output_tokens;
        self.total_cache_read_input_tokens =
        self.total_cache_read_input_tokens + usage.cache_read_input_tokens;
        self.total_cache_creation_input_tokens =
        self.total_cache_creation_input_tokens + usage.cache_creation_input_tokens;
        self.total_reasoning_tokens = self.total_reasoning_tokens + usage.reasoning_tokens;
        self.turn_count = self.turn_count + 1;
        self.last_prompt_tokens = usage.prompt_tokens();
        self.last_output_tokens = usage.output_tokens;
        self.add_cost(model, usage);
    }

    /// Whether a request can be recorded without a count leaving 64 bits.
    pub fn can_record(&self, model: &str, usage: &Usage) -> (r: bool)
        ensures
            r == has_room(self@, model@, *usage),
    {
        let i: usize = self.index_of(model);
        let c = if i < self.model_costs.len() {
            self.model_costs[i].1
        } else {
            ModelCost::default()
        };
        let max: u64 = u64::MAX;
        usage.input_tokens <= max - self.total_input_tokens && usage.output_tokens <= max
            - self.total_output_tokens && usage.cache_read_input_tokens <= max
            - self.total_cache_read_input_tokens && usage.cache_creation_input_tokens <= max
            - self.total_cache_creation_input_tokens && usage.reasoning_tokens <= max
            - self.total_reasoning_tokens && self.turn_count < max && usage.input_tokens as u128
            + usage.cache_read_input_tokens as u128 + usage.cache_creation_input_tokens as u128
            <= max as u128 && usage.input_tokens <= max - c.input_tokens && usage.output_tokens
            <= max - c.output_tokens && usage.cache_read_input_tokens <= max
            - c.cache_read_input_tokens && usage.cache_creation_input_tokens <= max
            - c.cache_creation_input_tokens && usage.reasoning_tokens <= max - c.reasoning_tokens
            && c.calls < max
    }

    /// Prompts and replies together, as a provider bills them.
    pub fn total_tokens(&self) -> (r: u64)
        requires
            grand_total(self@) <= u64::MAX,
        ensures
            r == grand_total(self@),
    {
        self.total_input_tokens + self.total_output_tokens + self.total_cache_read_input_tokens
            + self.total_cache_creation_input_tokens
    }

    /// Tokens read from the cache and written to it.
    pub fn total_cached_tokens(&self) -> (r: u64)
        requires
            self@.cache_read + self@.cache_creation <= u64::MAX,
        ensures
            r == self@.cache_read + self@.cache_creation,
    {
        self.total_cache_read_input_tokens + self.total_cache_creation_input_tokens
    }

    /// The costs by model, the most called first.
    pub fn model_breakdown(&self) -> (r: Vec<(String, ModelCost)>)
        ensures
            by_calls(costs_view(r@)),
            costs_view(r@).to_multiset() == self@.models.to_multiset(),
    {
        let ghost all = costs_view(self.model_costs@);
        let mut out: Vec<(String, ModelCost)> = Vec::new();
        let mut i: usize = 0;
        assert(all.take(0) =~= Seq::<(Text, ModelCost)>::empty());
        assert(costs_view(out@) =~= Seq::<(Text, ModelCost)>::empty());
        while i < self.model_costs.len()
            invariant
                i <= self.model_costs@.len(),
                all == costs_view(self.model_costs@),
                by_calls(costs_view(out@)),
                costs_view(out@).to_multiset() == all.take(i as int).to_multiset(),
            decreases self.model_costs@.len() - i,
        {
            let cost = self.model_costs[i].1;
            let mut k: usize = 0;
            while k < out.len() && out[k].1.calls >= cost.calls
                invariant
                    k <= out@.len(),
                    forall|j: int| 0 <= j < k ==> (#[trigger] out@[j]).1.calls >= cost.calls,
                decreases out@.len() - k,
            {
                k = k + 1;
            }
            let ghost was = costs_view(out@);
            let name = text::copy(self.model_costs[i].0.as_str());
            out.insert(k, (name, cost));
            proof {
                let now = costs_view(out@);
                let x = all[i as int];
                assert(now =~= was.insert(k as int, x));
                assert forall|a: int, b: int| 0 <= a <= b < now.len() implies (
                #[trigger] now[a]).1.calls >= (#[trigger] now[b]).1.calls by {
                    let a0 = if a < k {
                        a
                    } else {
                        a - 1
                    };
                    let b0 = if b < k {
                        b
                    } else {
                        b - 1
                    };
                    if a != k && b != k {
                        assert(was[a0].1.calls >= was[b0].1.calls);
                    } else if a == k && b > k {
                        assert(was[k as int].1.calls >= was[b0].1.calls);
                    }
                }
                vstd::seq_lib::to_multiset_insert(was, k as int, x);
                assert(all.take(i + 1) =~= all.take(i as int).push(x));
                vstd::seq_lib::to_multiset_build(all.take(i as int), x);
            }
            i = i + 1;
        }
        assert(all.take(i as int) =~= all);
        out
    }

    /// Add what a sub-agent took. Its turns are not the parent's.
    pub fn absorb_subagent(&mut self, model: &str, input_tokens: u64, output_tokens: u64)
        requires
            old(self)@.input + input_tokens <= u64::MAX,
            old(self)@.output + output_tokens <= u64::MAX,
            cost_has_room(
                cost_of(old(self)@.models, model@),
                subagent_usage(input_tokens, output_tokens),
            ),
        ensures
            final(self)@ == after_subagent(old(self)@, model@, input_tokens, output_tokens),
    {
        self.total_input_tokens = self.total_input_tokens + input_tokens;
        self.total_output_tokens = self.total_output_tokens + output_tokens;
        let usage = Usage {
            input_tokens,
            output_tokens,
            cache_read_input_tokens: 0,
            cache_creation_input_tokens: 0,
            reasoning_tokens: 0,
        };
        self.add_cost(model, &usage);
    }
}

// ---------------------------------------------------------------------------
// Laws
// ---------------------------------------------------------------------------

/// What all models come to together, by what each of them counts for.
pub open spec fn sum_of(models: Seq<(Text, ModelCost)>, count: spec_fn(ModelCost) -> int) -> int
    decreases models.len(),
{
    if models.len() == 0 {
        0
    } else {
        sum_of(models.drop_last(), count) + count(models.last().1)
    }
}

/// The tokens of prompts.
pub open spec fn inputs() -> spec_fn(ModelCost) -> int {
    |c: ModelCost| c.input_tokens as int
}

/// The tokens of replies.
pub open spec fn outputs() -> spec_fn(ModelCost) -> int {
    |c: ModelCost| c.output_tokens as int
}

/// The tokens that were read from the cache.
pub open spec fn cache_reads() -> spec_fn(ModelCost) -> int {
    |c: ModelCost| c.cache_read_input_tokens as int
}

/// The tokens that were written to the cache.
pub open spec fn cache_creations() -> spec_fn(ModelCost) -> int {
    |c: ModelCost| c.cache_creation_input_tokens as int
}

/// The tokens of reasoning.
pub open spec fn reasonings() -> spec_fn(ModelCost) -> int {
    |c: ModelCost| c.reasoning_tokens as int
}

/// Whether no model is listed twice.
pub open spec fn are_distinct(models: Seq<(Text, ModelCost)>) -> bool {
    forall|i: int, j: int|
        0 <= i < j < models.len() ==> (#[trigger] models[i]).0 != (#[trigger] models[j]).0
}

/// Whether the totals are those of the rows together.
pub open spec fn totals_are(t: CostView, rows: Seq<(Text, ModelCost)>) -> bool {
    &&& t.input == sum_of(rows, inputs())
    &&& t.output == sum_of(rows, outputs())
    &&& t.cache_read == sum_of(rows, cache_reads())
    &&& t.cache_creation == sum_of(rows, cache_creations())
    &&& t.reasoning == sum_of(rows, reasonings())
}

/// Whether no model is listed twice and the totals are those of the models
/// together.
pub open spec fn adds_up(t: CostView) -> bool {
    totals_are(t, t.models) && are_distinct(t.models)
}

proof fn lemma_sum_update(
    models: Seq<(Text, ModelCost)>,
    i: int,
    x: (Text, ModelCost),
    count: spec_fn(ModelCost) -> int,
)
    requires
        0 <= i < models.len(),
    ensures
        sum_of(models.update(i, x), count) == sum_of(models, count) - count(models[i].1) + count(
            x.1,
        ),
    decreases models.len(),
{
    if i == models.len() - 1 {
        assert(models.update(i, x).drop_last() =~= models.drop_last());
    } else {
        assert(models.update(i, x).drop_last() =~= models.drop_last().update(i, x));
        lemma_sum_update(models.drop_last(), i, x, count);
    }
}

proof fn lemma_sum_with_cost(
    models: Seq<(Text, ModelCost)>,
    model: Text,
    cost: ModelCost,
    count: spec_fn(ModelCost) -> int,
)
    requires
        count(no_cost()) == 0,
    ensures
        sum_of(with_cost(models, model, cost), count) == sum_of(models, count) - count(
            cost_of(models, model),
        ) + count(cost),
{
    lemma_model_index(models, model);
    let i = model_index(models, model);
    if i < models.len() {
        lemma_sum_update(models, i, (model, cost), count);
    } else {
        assert(with_cost(models, model, cost).drop_last() =~= models);
    }
}

proof fn lemma_with_cost(t: CostView, model: Text, u: Usage)
    requires
        adds_up(t),
        cost_has_room(cost_of(t.models, model), u),
    ensures
        ({
            let models = with_cost(t.models, model, cost_plus(cost_of(t.models, model), u));
            &&& sum_of(models, inputs()) == t.input + u.input_tokens
            &&& sum_of(models, outputs()) == t.output + u.output_tokens
            &&& sum_of(models, cache_reads()) == t.cache_read + u.cache_read_input_tokens
            &&& sum_of(models, cache_creations()) == t.cache_creation
                + u.cache_creation_input_tokens
            &&& sum_of(models, reasonings()) == t.reasoning + u.reasoning_tokens
            &&& are_distinct(models)
        }),
{
    let c = cost_plus(cost_of(t.models, model), u);
    lemma_model_index(t.models, model);
    lemma_sum_with_cost(t.models, model, c, inputs());
    lemma_sum_with_cost(t.models, model, c, outputs());
    lemma_sum_with_cost(t.models, model, c, cache_reads());
    lemma_sum_with_cost(t.models, model, c, cache_creations());
    lemma_sum_with_cost(t.models, model, c, reasonings());
}

/// The totals stay those of the models together, whatever is recorded, and no
/// model is listed twice.
pub proof fn law_totals_add_up(t: CostView, model: Text, u: Usage)
    requires
        adds_up(t),
        has_room(t, model, u),
    ensures
        adds_up(after_request(t, model, u)),
        adds_up(after_subagent(t, model, u.input_tokens, u.output_tokens)),
{
    lemma_with_cost(t, model, u);
    lemma_with_cost(t, model, subagent_usage(u.input_tokens, u.output_tokens));
}

/// Something that was recorded: a request, or the work of a sub-agent.
pub struct CostRecord {
    pub model: Text,
    pub usage: Usage,
    pub by_sub_agent: bool,
}

/// What a record counts for: of a sub-agent's work, the prompts and the replies.
pub open spec fn counted_usage(r: CostRecord) -> Usage {
    if r.by_sub_agent {
        subagent_usage(r.usage.input_tokens, r.usage.output_tokens)
    } else {
        r.usage
    }
}

/// The counts after records, from nothing.
pub open spec fn costs_after(records: Seq<CostRecord>) -> CostView
    decreases records.len(),
{
    if records.len() == 0 {
        no_costs()
    } else {
        let before = costs_after(records.drop_last());
        let r = records.last();
        if r.by_sub_agent {
            after_subagent(before, r.model, r.usage.input_tokens, r.usage.output_tokens)
        } else {
            after_request(before, r.model, r.usage)
        }
    }
}

/// Whether records keep the counts of every model within 64 bits.
pub open spec fn records_fit(records: Seq<CostRecord>) -> bool
    decreases records.len(),
{
    records.len() > 0 ==> records_fit(records.drop_last()) && cost_has_room(
        cost_of(costs_after(records.drop_last()).models, records.last().model),
        counted_usage(records.last()),
    )
}

/// How many of the records are a model's.
pub open spec fn records_of(records: Seq<CostRecord>, model: Text) -> nat
    decreases records.len(),
{
    if records.len() == 0 {
        0
    } else {
        records_of(records.drop_last(), model) + (if records.last().model == model {
            1nat
        } else {
            0nat
        })
    }
}

/// Whether rows tell what was recorded: one row for every model that was named, with
/// the number of its records, and the totals of all records together.
pub open spec fn tells(rows: Seq<(Text, ModelCost)>, records: Seq<CostRecord>) -> bool {
    &&& are_distinct(rows)
    &&& totals_are(costs_after(records), rows)
    &&& forall|i: int|
        0 <= i < rows.len() ==> (#[trigger] rows[i]).1.calls == records_of(records, rows[i].0)
            && rows[i].1.calls > 0
    &&& forall|model: Text|
        #[trigger] records_of(records, model) > 0 ==> exists|i: int|
            0 <= i < rows.len() && (#[trigger] rows[i]).0 == model
}

proof fn lemma_models_tell(records: Seq<CostRecord>)
    requires
        records_fit(records),
    ensures
        tells(costs_after(records).models, records),
    decreases records.len(),
{
    let now = costs_after(records);
    if records.len() > 0 {
        let rest = records.drop_last();
        let r = records.last();
        let u = counted_usage(r);
        lemma_models_tell(rest);
        let t = costs_after(rest);
        lemma_with_cost(t, r.model, u);
        lemma_model_index(t.models, r.model);
        let k = model_index(t.models, r.model);
        assert(now.models == with_cost(t.models, r.model, cost_plus(cost_of(t.models, r.model), u)));
        if k == t.models.len() {
            assert(records_of(rest, r.model) == 0) by {
                if records_of(rest, r.model) > 0 {
                    let i = choose|i: int|
                        0 <= i < t.models.len() && (#[trigger] t.models[i]).0 == r.model;
                    assert(t.models[i].0 != r.model);
                }
            }
        }
        assert forall|i: int| 0 <= i < now.models.len() implies (
        #[trigger] now.models[i]).1.calls == records_of(records, now.models[i].0)
            && now.models[i].1.calls > 0 by {
            if i != k {
                assert(now.models[i] == t.models[i]);
                if k < t.models.len() {
                    assert(t.models[k].0 == r.model);
                    assert(t.models[i].0 != r.model);
                }
            }
        }
        assert forall|model: Text| #[trigger] records_of(records, model) > 0 implies exists|i: int|
            0 <= i < now.models.len() && (#[trigger] now.models[i]).0 == model by {
            if model == r.model {
                assert(now.models[k].0 == model);
            } else {
                assert(records_of(rest, model) > 0);
                let i = choose|i: int|
                    0 <= i < t.models.len() && (#[trigger] t.models[i]).0 == model;
                assert(now.models[i].0 == model);
            }
        }
    }
}

proof fn lemma_sum_remove(
    rows: Seq<(Text, ModelCost)>,
    i: int,
    count: spec_fn(ModelCost) -> int,
)
    requires
        0 <= i < rows.len(),
    ensures
        sum_of(rows, count) == sum_of(rows.remove(i), count) + count(rows[i].1),
    decreases rows.len(),
{
    if i == rows.len() - 1 {
        assert(rows.remove(i) =~= rows.drop_last());
    } else {
        lemma_sum_remove(rows.drop_last(), i, count);
        assert(rows.remove(i).drop_last() =~= rows.drop_last().remove(i));
        assert(rows.remove(i).last() == rows.last());
    }
}

proof fn lemma_sum_of_same(
    a: Seq<(Text, ModelCost)>,
    b: Seq<(Text, ModelCost)>,
    count: spec_fn(ModelCost) -> int,
)
    requires
        a.to_multiset() == b.to_multiset(),
    ensures
        sum_of(a, count) == sum_of(b, count),
    decreases a.len(),
{
    a.to_multiset_ensures();
    b.to_multiset_ensures();
    if a.len() > 0 {
        let x = a.last();
        assert(a.contains(x));
        assert(b.to_multiset().count(x) > 0);
        assert(b.contains(x));
        let i = choose|i: int| 0 <= i < b.len() && b[i] == x;
        let n = a.len() - 1;
        vstd::seq_lib::to_multiset_remove(a, n);
        vstd::seq_lib::to_multiset_remove(b, i);
        assert(a.remove(n) =~= a.drop_last());
        lemma_sum_of_same(a.drop_last(), b.remove(i), count);
        lemma_sum_remove(b, i, count);
    }
}

/// Whatever was recorded, from nothing: the costs by model, in any order, have one row
/// for every model that was named, with the number of its records, and come to the
/// totals.
pub proof fn law_breakdown_tells_all(records: Seq<CostRecord>, rows: Seq<(Text, ModelCost)>)
    requires
        records_fit(records),
        rows.to_multiset() == costs_after(records).models.to_multiset(),
    ensures
        tells(rows, records),
{
    let models = costs_after(records).models;
    lemma_models_tell(records);
    lemma_sum_of_same(rows, models, inputs());
    lemma_sum_of_same(rows, models, outputs());
    lemma_sum_of_same(rows, models, cache_reads());
    lemma_sum_of_same(rows, models, cache_creations());
    lemma_sum_of_same(rows, models, reasonings());
    rows.to_multiset_ensures();
    models.to_multiset_ensures();
    assert(models.no_duplicates());
    models.lemma_multiset_has_no_duplicates();
    rows.lemma_multiset_has_no_duplicates_conv();
    assert forall|i: int| 0 <= i < rows.len() implies models.contains(#[trigger] rows[i]) by {
        assert(rows.contains(rows[i]));
        assert(rows.to_multiset().count(rows[i]) > 0);
    }
    assert forall|i: int| 0 <= i < models.len() implies rows.contains(#[trigger] models[i]) by {
        assert(models.contains(models[i]));
        assert(models.to_multiset().count(models[i]) > 0);
    }
    assert forall|i: int, j: int| 0 <= i < j < rows.len() implies (#[trigger] rows[i]).0 != (
    #[trigger] rows[j]).0 by {
        assert(rows[i] != rows[j]);
        let a = choose|a: int| 0 <= a < models.len() && models[a] == rows[i];
        let b = choose|b: int| 0 <= b < models.len() && models[b] == rows[j];
        if a < b {
            assert(models[a].0 != models[b].0);
        } else {
            assert(models[b].0 != models[a].0);
        }
    }
    assert forall|i: int| 0 <= i < rows.len() implies (#[trigger] rows[i]).1.calls == records_of(
        records,
        rows[i].0,
    ) && rows[i].1.calls > 0 by {
        let a = choose|a: int| 0 <= a < models.len() && models[a] == rows[i];
        assert(models[a].1.calls == records_of(records, models[a].0));
    }
    assert forall|model: Text| #[trigger] records_of(records, model) > 0 implies exists|i: int|
        0 <= i < rows.len() && (#[trigger] rows[i]).0 == model by {
        let a = choose|a: int| 0 <= a < models.len() && (#[trigger] models[a]).0 == model;
        assert(rows.contains(models[a]));
        let i = choose|i: int| 0 <= i < rows.len() && rows[i] == models[a];
        assert(rows[i].0 == model);
    }
}

/// A request adds its prompt and its reply to the grand total, and one turn; a
/// sub-agent's work adds its tokens and no turn. Nothing ever decreases.
pub proof fn law_requests_accumulate(t: CostView, model: Text, u: Usage)
    ensures
        grand_total(after_request(t, model, u)) == grand_total(t) + api::prompt_size(u)
            + u.output_tokens,
        after_request(t, model, u).turns == t.turns + 1,
        grand_total(after_subagent(t, model, u.input_tokens, u.output_tokens)) == grand_total(t)
            + u.input_tokens + u.output_tokens,
        after_subagent(t, model, u.input_tokens, u.output_tokens).turns == t.turns,
        after_request(t, model, u).input >= t.input,
        after_request(t, model, u).output >= t.output,
        after_request(t, model, u).cache_read >= t.cache_read,
        after_request(t, model, u).cache_creation >= t.cache_creation,
        after_request(t, model, u).reasoning >= t.reasoning,
{
}

/// A request counts under each heading by what it took: prompts, replies, what the cache
/// gave and took, and thoughts; and it is the one that the size of the context is told by.
pub proof fn law_requests_count_under_each_heading(t: CostView, model: Text, u: Usage)
    ensures
        ({
            let after = after_request(t, model, u);
            &&& after.input == t.input + u.input_tokens
            &&& after.output == t.output + u.output_tokens
            &&& after.cache_read == t.cache_read + u.cache_read_input_tokens
            &&& after.cache_creation == t.cache_creation + u.cache_creation_input_tokens
            &&& after.reasoning == t.reasoning + u.reasoning_tokens
            &&& after.last_output == u.output_tokens
            &&& after.last_prompt == u.input_tokens + u.cache_read_input_tokens
                + u.cache_creation_input_tokens
        }),
{
}

} // verus!
