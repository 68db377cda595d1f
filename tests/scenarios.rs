use llm_sentinel::budget::BudgetController;
use llm_sentinel::catalogue::{
    catalogue_decision, sync_plan, CatalogueDecision, CatalogueEntry, SkipReason,
};
use llm_sentinel::meter::{EventKind, StreamMeter};
use llm_sentinel::pricing::{Currency, PriceCache, PriceInfo};
use llm_sentinel::request::bill_response;
use llm_sentinel::tokenizer::Tokenizer;
use llm_sentinel::usage::{parse_usage, usage_from_fields, UsageField};

fn entry(id: &str, input: u64, output: u64) -> CatalogueEntry {
    CatalogueEntry { model_id: id.to_string(), input_price: input, output_price: output }
}

fn cache_with(entries: &[(&str, u64, u64)]) -> PriceCache {
    let mut cache = PriceCache::new();
    for (k, i, o) in entries {
        cache.insert(k.to_string(), PriceInfo { input_price: *i, output_price: *o });
    }
    cache
}

#[test]
fn budget_breach_mid_stream() {
    // Limit 0.001 CNY, qwen-plus at 0.0002 per output token, 3 tokens per chunk.
    let mut budget = BudgetController::new(1_000_000_000);
    let price = PriceInfo { input_price: 0, output_price: 200_000_000 };
    let mut meter = StreamMeter::new(0);
    let first = meter.on_delta(&mut budget, "qwen-plus", &price, 3, 10, true);
    assert_eq!(budget.current(), 600_000_000);
    assert!(!meter.fused);
    assert!(first.iter().all(|e| e.kind == EventKind::Billing && !e.fused));
    let second = meter.on_delta(&mut budget, "qwen-plus", &price, 3, 20, true);
    assert_eq!(budget.current(), 1_200_000_000);
    assert!(meter.fused);
    assert_eq!(second.len(), 2);
    assert_eq!(second[0].kind, EventKind::Billing);
    assert!(second[0].fused);
    assert_eq!(second[0].currency, Currency::Cny);
    assert_eq!(second[1].kind, EventKind::BudgetExceeded);
}

#[test]
fn budget_breach_stops_forwarding() {
    let tokenizer = Tokenizer::cl100k().expect("cl100k tables");
    let n = tokenizer.count_tokens("你好");
    assert!(n > 0);
    // Pick the limit so that the second chunk reaches it.
    let per_chunk = n * 200_000_000;
    let mut budget = BudgetController::new(2 * per_chunk);
    let cache = cache_with(&[("qwen-plus", 0, 200_000_000)]);
    let mut meter = StreamMeter::new(0);
    let chunk = "data: {\"choices\":[{\"delta\":{\"content\":\"你好\"}}]}\n\n";
    let a = meter.on_chunk(&mut budget, &cache, &tokenizer, "qwen-plus", chunk, 1);
    assert!(a.forward);
    assert!(!meter.fused);
    let b = meter.on_chunk(&mut budget, &cache, &tokenizer, "qwen-plus", chunk, 2);
    assert!(b.forward);
    assert!(meter.fused);
    assert!(b.events.iter().any(|e| e.kind == EventKind::Billing && e.fused));
    assert!(b.events.iter().any(|e| e.kind == EventKind::BudgetExceeded));
    let c = meter.on_chunk(&mut budget, &cache, &tokenizer, "qwen-plus", chunk, 3);
    assert!(!c.forward);
    assert!(c.events.is_empty());
    assert_eq!(budget.current(), 2 * per_chunk);
}

#[test]
fn terminal_chunk_authoritative_bill() {
    let cache = cache_with(&[("deepseek-v3", 1_000_000, 2_000_000)]);
    let body = "{\"usage\":{\"prompt_tokens\":100,\"completion_tokens\":50}}";
    let bill = bill_response("deepseek-v3", body, &cache).ok().expect("a bill");
    let event = bill.event.expect("an event");
    // (100 * 1e-6 + 50 * 2e-6) * 7.2 = 0.00144
    assert_eq!(event.cost, 1_440_000_000);
    assert_eq!(event.currency, Currency::Cny);
    assert_eq!(event.kind, EventKind::Billing);
    assert_eq!(event.model, "deepseek-v3");
}

#[test]
fn alias_tolerance() {
    let v = llm_sentinel::json::parse_json("{\"input_tokens\":10,\"output_tokens\":5}").unwrap();
    let usage = parse_usage(&v).ok().expect("usage");
    assert_eq!(usage.prompt_tokens, Some(10));
    assert_eq!(usage.completion_tokens, Some(5));
    let direct = usage_from_fields(
        UsageField::Absent,
        UsageField::Count(10),
        UsageField::Absent,
        UsageField::Count(5),
        UsageField::Absent,
    )
    .ok()
    .unwrap();
    assert_eq!(direct.prompt_tokens, Some(10));
    assert_eq!(direct.completion_tokens, Some(5));
    assert_eq!(direct.total_tokens, None);
}

#[test]
fn substring_match_fallback() {
    let cache = cache_with(&[("gpt-4o", 2_500_000, 10_000_000)]);
    let p = cache.lookup("openai/gpt-4o");
    assert_eq!(p, PriceInfo { input_price: 2_500_000, output_price: 10_000_000 });
    let q = cache.lookup("openai/gpt-4o-mini");
    assert_eq!(q, PriceInfo { input_price: 2_500_000, output_price: 10_000_000 });
}

#[test]
fn catalogue_filter() {
    let protected: Vec<String> = Vec::new();
    let entries = vec![
        entry("gpt-4o-2024-05-13", 5_000_000, 15_000_000),
        entry("sonnet-3-20240229", 3_000_000, 15_000_000),
        entry("gpt-4o-chat", 5_000_000, 15_000_000),
        entry("gpt-4o:0", 5_000_000, 15_000_000),
        entry("gpt-4o", 2_500_000, 10_000_000),
    ];
    let plan = sync_plan(&entries, &protected);
    assert_eq!(plan.len(), 1);
    assert_eq!(plan[0].key, "gpt-4o");
    assert_eq!(plan[0].price, PriceInfo { input_price: 2_500_000, output_price: 10_000_000 });
    match catalogue_decision(&entries[0], &protected) {
        CatalogueDecision::Skip(r) => assert_eq!(r, SkipReason::Dated),
        CatalogueDecision::Upsert(_) => panic!("dated entry written"),
    }
    match catalogue_decision(&entries[1], &protected) {
        CatalogueDecision::Skip(r) => assert_eq!(r, SkipReason::Dated),
        CatalogueDecision::Upsert(_) => panic!("dated entry written"),
    }
    match catalogue_decision(&entries[2], &protected) {
        CatalogueDecision::Skip(r) => assert_eq!(r, SkipReason::VariantSuffix),
        CatalogueDecision::Upsert(_) => panic!("suffixed entry written"),
    }
    match catalogue_decision(&entries[3], &protected) {
        CatalogueDecision::Skip(r) => assert_eq!(r, SkipReason::VariantSuffix),
        CatalogueDecision::Upsert(_) => panic!("suffixed entry written"),
    }
}

#[test]
fn protected_allow_list() {
    let protected = vec!["qwen-vl-max".to_string()];
    let entries = vec![entry("qwen-vl-max", 3_000_000, 9_000_000), entry("qwen-max", 1, 2)];
    match catalogue_decision(&entries[0], &protected) {
        CatalogueDecision::Skip(r) => assert_eq!(r, SkipReason::Protected),
        CatalogueDecision::Upsert(_) => panic!("protected entry written"),
    }
    let plan = sync_plan(&entries, &protected);
    assert_eq!(plan.len(), 1);
    assert_eq!(plan[0].key, "qwen-max");
}
