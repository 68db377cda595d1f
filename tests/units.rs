use llm_sentinel::budget::BudgetController;
use llm_sentinel::catalogue::{has_date_suffix, has_variant_suffix_of, vendor_sync_plan, CatalogueEntry};
use llm_sentinel::dispatch::{
    is_visual_model, route, simplify_model_id, stream_options_edit, vendor_for, Credentials,
    DispatchError, StreamOptionsEdit, Vendor,
};
use llm_sentinel::meter::{EventKind, StreamMeter};
use llm_sentinel::naming::normalize_model_name;
use llm_sentinel::pricing::{currency_of, priced_cost, Currency, PriceCache, PriceInfo, FALLBACK_PRICE};
use llm_sentinel::request::{
    apply_stream_options, bill_response, bill_usage, calculate_real_time_cost, conversation_of,
    estimate_cost, estimate_from_counts, extract_prompt, extract_tokens_and_images,
    last_message_text, parse_history, parse_request, prepare_messages, request_options,
};
use llm_sentinel::sse::sse_payloads;
use llm_sentinel::store::{chat_key, model_of_price_key, price_key, CHAT_HISTORY_TTL_SECS};
use llm_sentinel::text::{str_contains, str_ends_with};
use llm_sentinel::tokenizer::Tokenizer;
use llm_sentinel::usage::{
    calculate_actual_cost, calculate_actual_cost_with_tokens, extract_usage_from_chunk,
    parse_usage, usage_from_fields, Usage, UsageField,
};

fn creds(d: &str, z: &str, s: &str) -> Credentials {
    Credentials {
        dashscope_api_key: d.to_string(),
        zhipu_ai_key: z.to_string(),
        deepseek_api_key: s.to_string(),
    }
}

#[test]
fn normalize_lowercases_and_cuts_prefix() {
    assert_eq!(normalize_model_name("Mistral/Large-3@Latest"), "large-3-latest");
    assert_eq!(normalize_model_name("  GPT-4o  "), "gpt-4o");
    assert_eq!(normalize_model_name("a/b/"), "");
}

#[test]
fn lookup_misses_give_fallback() {
    let cache = PriceCache::new();
    assert_eq!(
        cache.lookup("mystery"),
        PriceInfo { input_price: FALLBACK_PRICE, output_price: FALLBACK_PRICE }
    );
}

#[test]
fn lookup_prefers_exact_key() {
    let mut cache = PriceCache::new();
    cache.insert("gpt-4o-mini".to_string(), PriceInfo { input_price: 1, output_price: 2 });
    cache.insert("gpt-4o".to_string(), PriceInfo { input_price: 3, output_price: 4 });
    assert_eq!(cache.lookup("gpt-4o"), PriceInfo { input_price: 3, output_price: 4 });
    cache.insert("gpt-4o".to_string(), PriceInfo { input_price: 5, output_price: 6 });
    assert_eq!(cache.len(), 2);
    assert_eq!(cache.lookup("GPT-4o"), PriceInfo { input_price: 5, output_price: 6 });
    assert_eq!(cache.lookup("gpt"), PriceInfo { input_price: 1, output_price: 2 });
}

#[test]
fn currency_attribution() {
    let cheap = PriceInfo { input_price: 1_000_000, output_price: 2_000_000 };
    let dear = PriceInfo { input_price: 20_000_000_000, output_price: 1 };
    assert_eq!(currency_of("qwen-max", &cheap), Currency::Cny);
    assert_eq!(currency_of("GLM-4", &cheap), Currency::Cny);
    assert_eq!(currency_of("zhipu-x", &cheap), Currency::Cny);
    assert_eq!(currency_of("yi-large", &cheap), Currency::Cny);
    assert_eq!(currency_of("deepseek-chat", &cheap), Currency::Cny);
    assert_eq!(currency_of("gpt-4o", &cheap), Currency::Usd);
    assert_eq!(currency_of("gpt-4o", &dear), Currency::Cny);
    assert_eq!(Currency::Usd.code(), "USD");
    assert_eq!(Currency::Cny.code(), "CNY");
}

#[test]
fn priced_cost_formula() {
    let p = PriceInfo { input_price: 1_000_000, output_price: 2_000_000 };
    assert_eq!(priced_cost("gpt-4o", 100, 50, &p), (200_000_000, Currency::Usd));
    assert_eq!(priced_cost("qwen-plus", 100, 50, &p), (200_000_000, Currency::Cny));
    assert_eq!(priced_cost("DeepSeek-R1", 100, 50, &p), (1_440_000_000, Currency::Cny));
    let huge = PriceInfo { input_price: u64::MAX, output_price: u64::MAX };
    assert_eq!(priced_cost("gpt-4o", u64::MAX, u64::MAX, &huge).0, u64::MAX);
}

#[test]
fn actual_cost_from_usage() {
    let mut cache = PriceCache::new();
    cache.insert("glm-4".to_string(), PriceInfo { input_price: 100_000_000, output_price: 200_000_000 });
    let usage = Usage { prompt_tokens: Some(3), completion_tokens: None, total_tokens: None };
    assert_eq!(calculate_actual_cost("glm-4", &usage, &cache), (300_000_000, Currency::Cny));
    assert_eq!(
        calculate_actual_cost_with_tokens("zhipu/GLM-4", 1, 1, &cache),
        (300_000_000, Currency::Cny)
    );
}

#[test]
fn usage_field_errors() {
    assert!(usage_from_fields(
        UsageField::Count(1),
        UsageField::Count(1),
        UsageField::Absent,
        UsageField::Absent,
        UsageField::Absent
    )
    .is_err());
    assert!(usage_from_fields(
        UsageField::Invalid,
        UsageField::Absent,
        UsageField::Absent,
        UsageField::Absent,
        UsageField::Absent
    )
    .is_err());
    let u = usage_from_fields(
        UsageField::Null,
        UsageField::Absent,
        UsageField::Count(7),
        UsageField::Absent,
        UsageField::Count(7),
    )
    .ok()
    .unwrap();
    assert_eq!(u, Usage { prompt_tokens: None, completion_tokens: Some(7), total_tokens: Some(7) });
    let v = llm_sentinel::json::parse_json("{\"prompt_tokens\":-1}").unwrap();
    let err = parse_usage(&v).err().expect("refused");
    assert!(!err.to_string().is_empty());
    let v = llm_sentinel::json::parse_json("[1,2]").unwrap();
    assert!(parse_usage(&v).is_err());
}

#[test]
fn usage_from_chunk() {
    let v = llm_sentinel::json::parse_json("{\"usage\":{\"prompt_tokens\":4,\"completion_tokens\":9}}").unwrap();
    assert_eq!(extract_usage_from_chunk(&v), Some((4, 9)));
    let v = llm_sentinel::json::parse_json("{\"usage\":{\"input_tokens\":4,\"output_tokens\":9}}").unwrap();
    assert_eq!(extract_usage_from_chunk(&v), Some((4, 9)));
    let v = llm_sentinel::json::parse_json("{\"usage\":{\"prompt_tokens\":4}}").unwrap();
    assert_eq!(extract_usage_from_chunk(&v), None);
    let v = llm_sentinel::json::parse_json("{\"choices\":[]}").unwrap();
    assert_eq!(extract_usage_from_chunk(&v), None);
}

#[test]
fn sse_payload_lines() {
    let text = "data: {\"a\":1}\r\n\ndata: [DONE]\nevent: x\ndata: tail";
    assert_eq!(sse_payloads(text), vec!["{\"a\":1}".to_string(), "tail".to_string()]);
    assert!(sse_payloads("").is_empty());
    assert_eq!(sse_payloads("data: "), vec!["".to_string()]);
}

#[test]
fn budget_gate_and_limit() {
    let mut b = BudgetController::new(100);
    assert!(b.gate().allowed);
    b.add_picos(100);
    let g = b.gate();
    assert!(!g.allowed);
    assert_eq!((g.current, g.limit), (100, 100));
    b.set_limit(1000);
    assert!(b.gate().allowed);
    assert_eq!(b.limit(), 1000);
    b.add_picos(u64::MAX);
    assert_eq!(b.current(), u64::MAX);
    b.reset();
    assert_eq!(b.current(), 0);
}

#[test]
fn meter_throttles_and_terminal_bill() {
    let mut cache = PriceCache::new();
    cache.insert("qwen-plus".to_string(), PriceInfo { input_price: 1_000, output_price: 1_000 });
    let mut b = BudgetController::new(u64::MAX);
    let price = cache.lookup("qwen-plus");
    let mut m = StreamMeter::new(1000);
    assert!(m.on_delta(&mut b, "qwen-plus", &price, 3, 1010, true).is_empty());
    let e = m.on_delta(&mut b, "qwen-plus", &price, 7, 1020, true);
    assert_eq!(e.len(), 1);
    assert_eq!(e[0].cost, 10_000);
    assert_eq!(m.tokens_since_emit, 0);
    assert!(m.on_delta(&mut b, "qwen-plus", &price, 1, 1100, true).is_empty());
    let e = m.on_delta(&mut b, "qwen-plus", &price, 1, 1220, true);
    assert_eq!(e.len(), 1);
    assert!(m.on_delta(&mut b, "qwen-plus", &price, 20, 1300, false).is_empty());
    assert_eq!(m.completion_tokens, 32);
    let bill = m.on_usage(&mut b, "qwen-plus", 8, &cache);
    assert_eq!(bill.cost, 40_000);
    assert_eq!(bill.kind, EventKind::Billing);
    assert!(!bill.fused);
    let mut zero = StreamMeter::new(0);
    let mut fresh = BudgetController::new(u64::MAX);
    let e = zero.on_usage(&mut fresh, "qwen-plus", 0, &cache);
    assert_eq!(e.cost, 0);
    assert_eq!(fresh.current(), 0);
}

#[test]
fn chunk_with_usage_is_terminal() {
    let tokenizer = Tokenizer::cl100k().expect("cl100k tables");
    let mut cache = PriceCache::new();
    cache.insert("glm-4".to_string(), PriceInfo { input_price: 1_000_000, output_price: 1_000_000 });
    let mut b = BudgetController::new(u64::MAX);
    let mut m = StreamMeter::new(0);
    let mid = "data: {\"choices\":[{\"delta\":{\"content\":\"hi\"}}],\"usage\":null}\n\n";
    let out = m.on_chunk(&mut b, &cache, &tokenizer, "glm-4", mid, 5);
    assert!(!out.terminal);
    let n = tokenizer.count_tokens("hi");
    assert_eq!(m.completion_tokens, n);
    let last = "data: {\"choices\":[{\"message\":{\"role\":\"assistant\",\"content\":\"hi\"}}],\"usage\":{\"prompt_tokens\":10,\"completion_tokens\":99}}\n\ndata: [DONE]\n\n";
    let out = m.on_chunk(&mut b, &cache, &tokenizer, "glm-4", last, 6);
    assert!(out.terminal);
    let bill = out.events.last().expect("final bill");
    assert_eq!(bill.cost, (10 + n) * 1_000_000);
    assert!(out.reply.expect("reply").contains("assistant"));
    let junk = m.on_chunk(&mut b, &cache, &tokenizer, "glm-4", "data: not json\n", 7);
    assert!(junk.forward && junk.events.is_empty() && !junk.terminal);
}

#[test]
fn tokenizer_counts_tokens() {
    let tokenizer = Tokenizer::cl100k().expect("cl100k tables");
    assert_eq!(tokenizer.count_tokens(""), 0);
    assert_eq!(tokenizer.count_tokens("hello world"), 2);
    assert!(tokenizer.count_tokens("<|endoftext|>") == 1);
}

#[test]
fn real_time_cost_of_chunk() {
    let tokenizer = Tokenizer::cl100k().expect("cl100k tables");
    let mut cache = PriceCache::new();
    cache.insert("gpt-4o".to_string(), PriceInfo { input_price: 5, output_price: 7 });
    let v = llm_sentinel::json::parse_json("{\"choices\":[{\"delta\":{\"content\":\"hello world\"}}]}").unwrap();
    assert_eq!(calculate_real_time_cost(&v, "gpt-4o", &cache, &tokenizer), (14, Currency::Usd));
    let v = llm_sentinel::json::parse_json("{\"usage\":{\"prompt_tokens\":2,\"completion_tokens\":3}}").unwrap();
    assert_eq!(calculate_real_time_cost(&v, "gpt-4o", &cache, &tokenizer), (31, Currency::Usd));
    let v = llm_sentinel::json::parse_json("{\"usage\":null}").unwrap();
    assert_eq!(calculate_real_time_cost(&v, "gpt-4o", &cache, &tokenizer), (0, Currency::Usd));
    let v = llm_sentinel::json::parse_json("{\"usage\":{\"prompt_tokens\":2,\"input_tokens\":3,\"completion_tokens\":1}}").unwrap();
    assert_eq!(calculate_real_time_cost(&v, "gpt-4o", &cache, &tokenizer), (17, Currency::Usd));
}

#[test]
fn regex_date_filter() {
    assert!(has_date_suffix("gpt-4o-2024-05-13"));
    assert!(has_date_suffix("sonnet-3-20240229"));
    assert!(has_date_suffix("gemini@20251001"));
    assert!(has_date_suffix("gemini-2.5-pro-preview-03-25"));
    assert!(has_date_suffix("qwen-plus-2407"));
    assert!(!has_date_suffix("gpt-4o"));
    assert!(!has_date_suffix("llama-3-70b"));
    assert!(has_variant_suffix_of("mistral-instruct"));
    assert!(has_variant_suffix_of("bedrock.titan-v1:0"));
    assert!(!has_variant_suffix_of("gpt-4o"));
}

#[test]
fn vendor_sync_skips_zero_and_protected() {
    let entries = vec![
        CatalogueEntry { model_id: "a/Zero".to_string(), input_price: 0, output_price: 3 },
        CatalogueEntry { model_id: "free".to_string(), input_price: 0, output_price: 0 },
        CatalogueEntry { model_id: "qwen-vl-max".to_string(), input_price: 1, output_price: 1 },
    ];
    let plan = vendor_sync_plan(&entries, &vec!["qwen-vl-max".to_string()]);
    assert_eq!(plan.len(), 1);
    assert_eq!(plan[0].key, "zero");
}

#[test]
fn simplify_and_route() {
    assert_eq!(simplify_model_id("Qwen/Qwen-Plus-Latest"), "qwen-plus");
    assert_eq!(simplify_model_id("deepseek-ai/DeepSeek-V3-0324"), "deepseek-v3");
    assert_eq!(simplify_model_id("glm-4v-plus"), "glm-4v");
    assert_eq!(simplify_model_id("yi-large-chat-latest"), "yi-large");
    assert_eq!(simplify_model_id("mistral-2024-instruct"), "mistral");
    assert_eq!(vendor_for("qwq-32b"), Some(Vendor::DashScope));
    assert_eq!(vendor_for("glm-4"), Some(Vendor::Zhipu));
    assert_eq!(vendor_for("deepseek-chat"), Some(Vendor::DeepSeek));
    assert_eq!(vendor_for("gpt-4o"), None);
    let c = creds("d", "", "s");
    assert_eq!(route("gpt-4o", &c).err(), Some(DispatchError::UnsupportedModel));
    assert_eq!(route("qwen/llama", &c).ok().map(|r| r.0), Some(Vendor::DashScope));
    assert_eq!(route("glm-4", &c).err(), Some(DispatchError::MissingCredential));
    let (v, key) = route("qwen-max", &c).ok().unwrap();
    assert_eq!(v, Vendor::DashScope);
    assert_eq!(key, "d");
    assert!(v.endpoint().starts_with("https://dashscope"));
    assert!(is_visual_model("qwen-vl-max"));
    assert!(!is_visual_model("qwen-max"));
}

#[test]
fn stream_options_edits() {
    assert_eq!(stream_options_edit(true, false), StreamOptionsEdit::Inject);
    assert_eq!(stream_options_edit(true, true), StreamOptionsEdit::Keep);
    assert_eq!(stream_options_edit(false, true), StreamOptionsEdit::Remove);
    let mut v = llm_sentinel::json::parse_json("{\"stream\":true}").unwrap();
    assert_eq!(apply_stream_options(&mut v), StreamOptionsEdit::Inject);
    assert_eq!(llm_sentinel::json::json_text(&v), "{\"stream\":true,\"stream_options\":{\"include_usage\":true}}");
    let mut v = llm_sentinel::json::parse_json("{\"stream\":false,\"stream_options\":{}}").unwrap();
    assert_eq!(apply_stream_options(&mut v), StreamOptionsEdit::Remove);
    assert_eq!(llm_sentinel::json::json_text(&v), "{\"stream\":false}");
}

#[test]
fn messages_prepared_for_text_models() {
    let mut v = llm_sentinel::json::parse_json(
        "{\"messages\":[{\"role\":\"user\",\"content\":[{\"type\":\"image_url\",\"image_url\":{}},{\"type\":\"text\",\"text\":\"look\"}]}]}",
    ).unwrap();
    let history = parse_history(&vec![
        "{\"role\":\"user\",\"content\":\"earlier\"}".to_string(),
        "not json".to_string(),
    ]);
    assert_eq!(history.len(), 1);
    prepare_messages(&mut v, history, false);
    assert_eq!(
        llm_sentinel::json::json_text(&v),
        "{\"messages\":[{\"content\":\"earlier\",\"role\":\"user\"},{\"content\":\"look\",\"role\":\"user\"}]}"
    );
    assert_eq!(last_message_text(&v), Some("{\"content\":\"look\",\"role\":\"user\"}".to_string()));
}

#[test]
fn request_reading() {
    let body = "{\"model\":\"qwen-max\",\"messages\":[{\"role\":\"system\",\"content\":\"be brief\"},{\"content\":\"hi\"}]}";
    let parsed = parse_request(body).ok().unwrap();
    assert_eq!(parsed.model, "qwen-max");
    assert_eq!(parsed.prompt, "system: be brief\nuser: hi");
    assert_eq!(extract_prompt(&parsed.original_request), "hi");
    let err = parse_request("{\"messages\":[]}").err().unwrap();
    assert_eq!(err.message, "Missing 'model' field");
    assert!(parse_request("{").is_err());
    let alt = parse_request("{\"model\":\"m\",\"input\":{\"messages\":[{\"role\":\"user\",\"content\":\"x\"}]}}").ok().unwrap();
    assert_eq!(alt.prompt, "user: x");
    assert_eq!(conversation_of(&Vec::new()), "");
    let opts = request_options(&parsed.original_request);
    assert_eq!(opts.session_id, "default");
    assert!(!opts.load_history && !opts.stream);
    let v = llm_sentinel::json::parse_json("{\"model\":\"x\",\"session_id\":\"s1\",\"load_history\":true,\"stream\":true}").unwrap();
    let opts = request_options(&v);
    assert_eq!((opts.session_id.as_str(), opts.load_history, opts.stream), ("s1", true, true));
}

#[test]
fn estimates() {
    let v = llm_sentinel::json::parse_json(
        "{\"messages\":[{\"content\":[{\"type\":\"text\",\"text\":\"abcd\"},{\"type\":\"image_url\"},{\"type\":\"image_url\"}]}]}",
    ).unwrap();
    assert_eq!(extract_tokens_and_images(&v), (4, 2));
    assert_eq!(estimate_cost("qwen-vl-max", &v), 2004 * 3_000_000);
    assert_eq!(estimate_cost("qwen-max", &v), 4 * 1_040_000_000);
    assert_eq!(estimate_from_counts("QWEN-VL", 0, 1), 3_000_000_000);
}

#[test]
fn whole_response_bills() {
    let mut cache = PriceCache::new();
    cache.insert("qwen-max".to_string(), PriceInfo { input_price: 2, output_price: 3 });
    let usage = Usage { prompt_tokens: Some(1), completion_tokens: Some(1), total_tokens: None };
    let e = bill_usage("  Qwen-Max ", &usage, &cache);
    assert_eq!(e.cost, 5);
    assert_eq!(e.model, "  Qwen-Max ");
    let none = Usage { prompt_tokens: None, completion_tokens: None, total_tokens: None };
    assert_eq!(bill_usage("qwen-max", &none, &cache).cost, 0);
    assert!(bill_response("qwen-max", "nope", &cache).is_err());
    assert!(bill_response("qwen-max", "{\"usage\":{\"prompt_tokens\":\"x\"}}", &cache).is_err());
    let b = bill_response("qwen-max", "{\"choices\":[{\"message\":{\"content\":\"ok\"}}]}", &cache).ok().unwrap();
    assert!(b.event.is_none());
    assert_eq!(b.reply, Some("{\"content\":\"ok\"}".to_string()));
}

#[test]
fn store_keys() {
    assert_eq!(price_key("gpt-4o"), "price:gpt-4o");
    assert_eq!(model_of_price_key("price:gpt-4o"), Some("gpt-4o".to_string()));
    assert_eq!(model_of_price_key("other:gpt-4o"), None);
    assert_eq!(chat_key("abc"), "sentinel:chat:abc");
    assert_eq!(CHAT_HISTORY_TTL_SECS, 86400);
}

#[test]
fn text_helpers() {
    assert!(str_contains("gpt-4o-mini", "4o-m"));
    assert!(str_contains("abc", ""));
    assert!(!str_contains("ab", "abc"));
    assert!(str_ends_with("model:0", ":0"));
    assert!(!str_ends_with("0", ":0"));
    let v = llm_sentinel::json::parse_json("{\"a\":{\"b\":1}}").unwrap();
    assert!(v.get("a").is_some());
    assert!(v.get("z").is_none());
    assert!(llm_sentinel::json::parse_json("{").is_err());
}
