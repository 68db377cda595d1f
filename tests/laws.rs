use llm_sentinel::budget::BudgetController;
use llm_sentinel::catalogue::{sync_plan, CatalogueEntry};
use llm_sentinel::meter::{BillingEvent, EventKind, StreamMeter};
use llm_sentinel::naming::normalize_model_name;
use llm_sentinel::pricing::{PriceCache, PriceInfo};
use llm_sentinel::store::{cache_from_store, price_key, StoredPrice};
use llm_sentinel::tokenizer::Tokenizer;

#[test]
fn emitted_costs_never_decrease() {
    let mut budget = BudgetController::new(u64::MAX);
    budget.add_picos(5_000_000_000);
    let price = PriceInfo { input_price: 0, output_price: 30_000_000 };
    let mut meter = StreamMeter::new(0);
    let mut costs: Vec<u64> = Vec::new();
    for step in 0..40u64 {
        let events = meter.on_delta(&mut budget, "gpt-4o", &price, 1 + step % 3, step * 50, true);
        costs.extend(events.iter().map(|e| e.cost));
    }
    assert!(costs.len() > 3);
    assert!(costs.windows(2).all(|w| w[0] <= w[1]));
    assert!(costs.iter().all(|c| *c <= budget.current()));
}

#[test]
fn chunks_pass_until_fused() {
    let tokenizer = Tokenizer::cl100k().expect("cl100k tables");
    let cache = PriceCache::new();
    let mut budget = BudgetController::new(30_000_000);
    let mut meter = StreamMeter::new(0);
    let chunk = "data: {\"choices\":[{\"delta\":{\"content\":\"hello world\"}}]}\n\n";
    let mut forwarded = 0;
    let mut after_fuse = 0;
    for t in 0..10u64 {
        let was_fused = meter.fused;
        let out = meter.on_chunk(&mut budget, &cache, &tokenizer, "unknown-model", chunk, t);
        assert_eq!(out.forward, !was_fused);
        if out.forward {
            forwarded += 1;
        }
        if was_fused {
            after_fuse += 1;
            assert!(out.events.is_empty());
        }
    }
    assert!(meter.fused);
    assert!(forwarded >= 1);
    assert!(after_fuse >= 1);
}

#[test]
fn sync_never_writes_zero_prices() {
    let entries = vec![
        CatalogueEntry { model_id: "free-model".to_string(), input_price: 0, output_price: 0 },
        CatalogueEntry { model_id: "half-free".to_string(), input_price: 0, output_price: 7 },
        CatalogueEntry { model_id: "paid".to_string(), input_price: 3, output_price: 0 },
    ];
    let plan = sync_plan(&entries, &Vec::new());
    assert_eq!(plan.len(), 2);
    assert!(plan.iter().all(|w| w.price.input_price != 0 || w.price.output_price != 0));
}

#[test]
fn normalize_is_idempotent() {
    for name in [
        "openai/gpt-4o@20240501",
        "  Qwen/Qwen-VL-Max  ",
        "a/ b",
        "DeepSeek-V3",
        "",
        "x/y/z@@",
    ] {
        let once = normalize_model_name(name);
        let twice = normalize_model_name(&once);
        assert_eq!(once, twice);
    }
    assert_eq!(normalize_model_name("openai/gpt-4o@20240501"), "gpt-4o-20240501");
    assert_eq!(normalize_model_name("a/ b"), "b");
}

#[test]
fn reset_then_next_event_is_request_cost() {
    let mut budget = BudgetController::new(u64::MAX);
    budget.add_picos(123_456_789_000);
    budget.reset();
    assert_eq!(budget.current(), 0);
    let price = PriceInfo { input_price: 0, output_price: 40_000_000 };
    let mut meter = StreamMeter::new(0);
    let mut spent: u64 = 0;
    let mut first: Option<BillingEvent> = None;
    for step in 0..5u64 {
        let events = meter.on_delta(&mut budget, "gpt-4o", &price, 2, step, true);
        spent += 2 * 40_000_000;
        if first.is_none() && !events.is_empty() {
            assert_eq!(events[0].cost, spent);
            first = Some(events[0].clone());
        }
    }
    assert!(first.is_some());
    assert_eq!(budget.current(), spent);
}

#[test]
fn written_price_is_found_after_refresh() {
    let entries = vec![
        CatalogueEntry { model_id: "openai/GPT-4o".to_string(), input_price: 2_500_000, output_price: 10_000_000 },
        CatalogueEntry { model_id: "glm-4".to_string(), input_price: 100_000_000, output_price: 100_000_000 },
    ];
    let plan = sync_plan(&entries, &Vec::new());
    let records: Vec<StoredPrice> = plan
        .iter()
        .rev()
        .map(|w| StoredPrice { store_key: price_key(&w.key), price: w.price })
        .collect();
    let cache = cache_from_store(&records);
    for w in &plan {
        assert_eq!(cache.lookup(&w.key), w.price);
    }
    assert_eq!(cache.len(), 2);
}

#[test]
fn throttle_bounds_event_count() {
    // One token every 50 ms for one second, at the fallback price.
    let mut budget = BudgetController::new(u64::MAX);
    let price = PriceInfo { input_price: 10_000_000, output_price: 10_000_000 };
    let mut meter = StreamMeter::new(0);
    let mut count = 0u64;
    let mut tokens = 0u64;
    let mut t = 0u64;
    while t < 1000 {
        t += 50;
        tokens += 1;
        count += meter.on_delta(&mut budget, "gpt-4o", &price, 1, t, true).len() as u64;
    }
    let window_ms = 1000u64;
    assert!(count <= std::cmp::max(1 + window_ms / 200, tokens / 10));
    assert!(count >= 1);
    // One token every 5 ms: the token threshold governs.
    let mut budget = BudgetController::new(u64::MAX);
    let mut meter = StreamMeter::new(0);
    let mut count = 0u64;
    let mut tokens = 0u64;
    let mut t = 0u64;
    while t < 1000 {
        t += 5;
        tokens += 1;
        let events = meter.on_delta(&mut budget, "gpt-4o", &price, 1, t, true);
        assert!(events.iter().all(|e| e.kind == EventKind::Billing));
        count += events.len() as u64;
    }
    assert!(count <= std::cmp::max(1 + window_ms / 200, tokens / 10));
    assert_eq!(count, 20);
}

#[test]
fn final_bill_covers_earlier_events() {
    let mut cache = PriceCache::new();
    cache.insert("deepseek-chat".to_string(), PriceInfo { input_price: 270_000, output_price: 1_100_000 });
    let price = cache.lookup("deepseek-chat");
    let mut budget = BudgetController::new(u64::MAX);
    budget.reset();
    let mut meter = StreamMeter::new(0);
    let mut costs: Vec<u64> = Vec::new();
    for step in 0..30u64 {
        let events = meter.on_delta(&mut budget, "deepseek-chat", &price, 1 + step % 4, step * 30, true);
        costs.extend(events.iter().map(|e| e.cost));
    }
    let bill = meter.on_usage(&mut budget, "deepseek-chat", 12, &cache);
    assert!(!costs.is_empty());
    assert!(costs.iter().all(|c| *c <= bill.cost));
}
