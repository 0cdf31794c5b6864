use zeno::api::Usage;
use zeno::engine::cost_tracker::CostTracker;
use zeno::engine::cost_tracker::ModelCost;


fn make_usage(input: u64, output: u64) -> Usage {
    Usage {
        input_tokens: input,
        output_tokens: output,
        ..Default::default()
    }
}

#[test]
fn test_accumulates_input_tokens() {
    let mut ct = CostTracker::default();
    ct.record("model-a", &make_usage(1000, 100));
    ct.record("model-a", &make_usage(2100, 200));
    ct.record("model-a", &make_usage(3300, 300));

    // All input tokens accumulate: 1000 + 2100 + 3300 = 6400
    assert_eq!(ct.total_input_tokens, 6400);
    // All output tokens accumulate: 100 + 200 + 300 = 600
    assert_eq!(ct.total_output_tokens, 600);
    // Grand total: 6400 + 600 = 7000
    assert_eq!(ct.total_tokens(), 7000);
    assert_eq!(ct.turn_count, 3);
}

#[test]
fn test_cache_and_reasoning_tokens() {
    let mut ct = CostTracker::default();
    ct.record(
        "model-a",
        &Usage {
            input_tokens: 1000,
            output_tokens: 200,
            cache_read_input_tokens: 500,
            cache_creation_input_tokens: 100,
            reasoning_tokens: 50,
        },
    );
    assert_eq!(ct.total_input_tokens, 1000);
    assert_eq!(ct.total_output_tokens, 200);
    assert_eq!(ct.total_cache_read_input_tokens, 500);
    assert_eq!(ct.total_cache_creation_input_tokens, 100);
    assert_eq!(ct.total_reasoning_tokens, 50);
    // total = 1000 (input) + 200 (output, includes reason) + 500 + 100 = 1800
    assert_eq!(ct.total_tokens(), 1800);
    // cached = 500 + 100 = 600
    assert_eq!(ct.total_cached_tokens(), 600);
}

#[test]
fn test_model_breakdown() {
    let mut ct = CostTracker::default();
    ct.record("model-a", &make_usage(100, 10));
    ct.record("model-b", &make_usage(200, 20));
    ct.record("model-a", &make_usage(300, 30));

    let breakdown = ct.model_breakdown();
    assert_eq!(breakdown.len(), 2);
    // model-a has 2 calls, model-b has 1 → model-a first
    assert_eq!(breakdown[0].0, "model-a");
    assert_eq!(breakdown[0].1.calls, 2);
    assert_eq!(breakdown[0].1.input_tokens, 400);
    assert_eq!(breakdown[0].1.output_tokens, 40);
}

#[test]
fn rows_tell_all_that_was_recorded() {
    let usage = |n: u64| Usage {
        input_tokens: n,
        output_tokens: 2 * n,
        cache_read_input_tokens: 3 * n,
        cache_creation_input_tokens: 4 * n,
        reasoning_tokens: n,
    };
    let mut t = CostTracker::default();
    t.record("a", &usage(1));
    t.record("b", &usage(10));
    t.record("b", &usage(7));
    t.absorb_subagent("a", 100, 200);
    t.absorb_subagent("a", 1, 1);
    let rows = t.model_breakdown();
    assert_eq!(rows.len(), 2);
    assert_eq!((rows[0].0.as_str(), rows[0].1.calls), ("a", 3));
    assert_eq!((rows[1].0.as_str(), rows[1].1.calls), ("b", 2));
    let sum = |f: fn(&ModelCost) -> u64| rows.iter().map(|r| f(&r.1)).sum::<u64>();
    assert_eq!(sum(|c| c.input_tokens), t.total_input_tokens);
    assert_eq!(sum(|c| c.output_tokens), t.total_output_tokens);
    assert_eq!(sum(|c| c.cache_read_input_tokens), t.total_cache_read_input_tokens);
    assert_eq!(sum(|c| c.cache_creation_input_tokens), t.total_cache_creation_input_tokens);
    assert_eq!(t.turn_count, 3);
}
