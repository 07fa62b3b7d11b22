//! Prices: which rates a use is priced with, and how it enters the history.
use chrono::{TimeZone, Utc};
use openquota_codex::aggregate::{
    aggregate_into, includes_pi, scan_codex_events, scan_local_usage_scoped, scan_since_day, since_day,
    source_note, source_note_after, usage_entry, DatedEvent, UsageEntry, FIRST_DAY, LOG_CACHE_SCHEMA_VERSION,
};
use openquota_codex::error::CodexError;
use openquota_codex::pricing::{
    auto_review_fallback, codex_cost, codex_long_context_rates, codex_model_has_no_cache_discount,
    codex_priority_multiplier, dated_base_model, estimate_cost, priced_model, rate_lookup,
    CostQuote, ModelRates, Rate,
};
use openquota_codex::time::{day_of_date, day_of_instant, Timestamp};
use openquota_codex::usage::{parse_jsonl, TokenEvent};

fn rate(value: f64) -> Rate {
    Rate {
        bits: value.to_bits(),
    }
}

fn value(rate: Rate) -> f64 {
    f64::from_bits(rate.bits)
}

fn rates(input: f64, output: f64) -> ModelRates {
    ModelRates {
        input_per_million: rate(input),
        output_per_million: rate(output),
        cache_read_per_million: rate(input * 0.1),
        input_above_200k_per_million: None,
        output_above_200k_per_million: None,
        cache_read_above_200k_per_million: None,
        long_context_threshold_tokens: 200_000,
        cache_read_is_explicit: true,
        fast_multiplier: rate(1.0),
    }
}

/// What a quote comes to: the whole prompt is priced by its length.
fn dollars(quote: CostQuote) -> f64 {
    let (rates, tokens) = (quote.rates, quote.tokens);
    let long = tokens.input + tokens.cache_read > rates.long_context_threshold_tokens;
    let pick = |base: Rate, above: Option<Rate>| value(if long { above.unwrap_or(base) } else { base });
    let cost = (tokens.input as f64
        * pick(rates.input_per_million, rates.input_above_200k_per_million)
        + tokens.cache_read as f64
            * pick(
                rates.cache_read_per_million,
                rates.cache_read_above_200k_per_million,
            )
        + tokens.output as f64
            * pick(
                rates.output_per_million,
                rates.output_above_200k_per_million,
            ))
        / 1_000_000.0;
    if tokens.is_fast {
        cost * value(rates.fast_multiplier)
    } else {
        cost
    }
}

struct Prices {
    aliases: Vec<(&'static str, &'static str)>,
    entries: Vec<(&'static str, ModelRates)>,
}

impl Prices {
    fn of(entries: Vec<(&'static str, ModelRates)>) -> Prices {
        Prices {
            aliases: Vec::new(),
            entries,
        }
    }

    fn resolve(&self, model: &str) -> Option<ModelRates> {
        self.entries
            .iter()
            .find(|(name, _)| *name == model)
            .map(|(_, rates)| *rates)
    }

    fn quote(&self, event: &TokenEvent) -> Option<CostQuote> {
        let model = priced_model(event);
        let canonical = self
            .aliases
            .iter()
            .find(|(alias, _)| *alias == model)
            .map(|(_, name)| *name);
        let lookup = rate_lookup(&model, canonical);
        estimate_cost(
            event,
            &lookup,
            self.resolve(&lookup.rate_model),
            self.resolve(&model),
        )
    }

    fn cost(&self, event: &TokenEvent) -> Option<f64> {
        self.quote(event).map(dollars)
    }
}

#[derive(Default)]
struct Day {
    tokens: u64,
    cost: f64,
    models: Vec<(String, f64)>,
    unknown: Vec<String>,
}

/// The history of the day of `now`, in UTC.
fn history(content: &str, now: chrono::DateTime<Utc>, prices: &Prices) -> Day {
    let today = day_of_instant(Timestamp::new(now.timestamp(), 0).unwrap());
    let events = parse_jsonl(content)
        .into_iter()
        .map(|event| DatedEvent {
            day: day_of_instant(event.timestamp),
            event,
        })
        .collect();
    let mut day = Day::default();
    for dated in aggregate_into(events, today) {
        match usage_entry(&dated, prices.quote(&dated.event)) {
            Some(UsageEntry::Priced {
                total,
                quote,
                model,
                ..
            }) => {
                day.tokens += total;
                day.cost += dollars(quote);
                day.models.push((model, dollars(quote)));
            }
            Some(UsageEntry::Unpriced { model, .. }) => day.unknown.push(model),
            None => {}
        }
    }
    day
}

fn now() -> Timestamp {
    let now = Utc::now();
    Timestamp::new(now.timestamp(), now.timestamp_subsec_nanos()).unwrap()
}

fn event(model: &str, input: u64, cached: u64, is_fast: bool) -> TokenEvent {
    TokenEvent {
        timestamp: now(),
        model: model.to_owned(),
        input,
        cached,
        output: 0,
        reasoning: 0,
        total: input,
        is_fast,
    }
}

fn at(day: i64, second: i64, total: u64) -> DatedEvent {
    let mut one = event("gpt-5.5", total, 0, false);
    one.timestamp = Timestamp::new(day * 86_400 + second, 0).unwrap();
    DatedEvent { day, event: one }
}

#[test]
fn auto_review_uses_fallback_rates_but_keeps_its_breakdown_label() {
    let now = Utc.with_ymd_and_hms(2026, 3, 10, 12, 0, 0).unwrap();
    let content = r#"{"timestamp":"2026-03-10T08:00:00Z","type":"turn_context","payload":{"model":"codex-auto-review"}}
{"timestamp":"2026-03-10T08:01:00Z","type":"event_msg","payload":{"type":"token_count","info":{"last_token_usage":{"input_tokens":100000,"output_tokens":100000,"total_tokens":200000}}}}"#;
    let prices = Prices::of(vec![("gpt-5.4", rates(2.0, 8.0))]);

    let today = history(content, now, &prices);

    assert_eq!(today.cost, 1.0);
    assert!(today.unknown.is_empty());
    assert_eq!(today.models.len(), 1);
    assert_eq!(today.models[0].0, "codex-auto-review");
    assert_eq!(today.models[0].1, 1.0);
}

#[test]
fn newly_priced_models_produce_a_complete_estimate() {
    let now = Utc.with_ymd_and_hms(2026, 7, 10, 12, 0, 0).unwrap();
    let content = r#"{"timestamp":"2026-07-10T08:00:00Z","type":"event_msg","payload":{"type":"token_count","model":"gpt-5.6-sol","info":{"last_token_usage":{"input_tokens":100,"output_tokens":10,"total_tokens":110}}}}"#;
    let prices = Prices::of(vec![("gpt-5.6-sol", rates(5.0, 30.0))]);
    let today = history(content, now, &prices);
    assert_eq!(today.tokens, 110);
    assert_eq!(today.models.len(), 1);
    assert!(today.unknown.is_empty());
}

#[test]
fn daybreak_uses_sol_rates_without_losing_its_breakdown_identity() {
    let now = Utc.with_ymd_and_hms(2026, 7, 10, 12, 0, 0).unwrap();
    let content = r#"{"timestamp":"2026-07-10T08:00:00Z","type":"event_msg","payload":{"type":"token_count","model":"gpt-daybreak-blue-latest","info":{"last_token_usage":{"input_tokens":100,"output_tokens":10,"total_tokens":110}}}}"#;
    let prices = Prices {
        aliases: vec![("gpt-daybreak-blue-latest", "gpt-5.6-sol")],
        entries: vec![("gpt-5.6-sol", rates(5.0, 30.0))],
    };
    let today = history(content, now, &prices);
    assert_eq!(today.tokens, 110);
    assert_eq!(today.cost, 0.0008);
    assert_eq!(today.models[0].0, "gpt-daybreak-blue-latest");
    assert!(today.unknown.is_empty());
}

#[test]
fn period_breakdown_uses_model_names_and_excludes_unpriced_usage() {
    let now = Utc.with_ymd_and_hms(2026, 7, 10, 12, 0, 0).unwrap();
    let content = r#"{"timestamp":"2026-07-10T08:00:00Z","type":"event_msg","payload":{"type":"token_count","model":"gpt-5.4","info":{"last_token_usage":{"input_tokens":1000,"output_tokens":100,"total_tokens":1100}}}}
{"timestamp":"2026-07-10T09:00:00Z","type":"event_msg","payload":{"type":"token_count","model":"gpt-5.3-codex","info":{"last_token_usage":{"input_tokens":800,"output_tokens":100,"total_tokens":900}}}}
{"timestamp":"2026-07-10T10:00:00Z","type":"event_msg","payload":{"type":"token_count","model":"future-unpriced-model","info":{"last_token_usage":{"input_tokens":400,"output_tokens":100,"total_tokens":500}}}}"#;
    let prices = Prices::of(vec![
        ("gpt-5.4", rates(2.5, 15.0)),
        ("gpt-5.3-codex", rates(1.75, 14.0)),
    ]);
    let today = history(content, now, &prices);

    assert_eq!(today.tokens, 2_000);
    assert_eq!(today.unknown, ["future-unpriced-model"]);
    assert_eq!(
        today
            .models
            .iter()
            .map(|(model, _)| model.as_str())
            .collect::<Vec<_>>(),
        ["gpt-5.4", "gpt-5.3-codex"]
    );
    assert_eq!(source_note(false), "From your Codex logs (estimated)");
}

#[test]
fn unknown_only_usage_does_not_create_spend_periods() {
    let now = Utc.with_ymd_and_hms(2026, 7, 10, 12, 0, 0).unwrap();
    let content = r#"{"timestamp":"2026-07-10T10:00:00Z","type":"event_msg","payload":{"type":"token_count","model":"future-unpriced-model","info":{"last_token_usage":{"input_tokens":400,"output_tokens":100,"total_tokens":500}}}}"#;
    let today = history(content, now, &Prices::of(Vec::new()));

    assert_eq!(today.tokens, 0);
    assert!(today.models.is_empty());
    assert_eq!(today.unknown, ["future-unpriced-model"]);
}

#[test]
fn event_fast_tier_defaults_to_two_x_multiplier() {
    let prices = Prices::of(vec![("test-model", rates(2.0, 8.0))]);
    assert_eq!(
        prices.cost(&event("test-model", 1_000_000, 0, false)),
        Some(2.0)
    );
    assert_eq!(
        prices.cost(&event("test-model", 1_000_000, 0, true)),
        Some(4.0)
    );
}

#[test]
fn missing_cache_rate_provenance_uses_full_input_price() {
    let mut inferred_rates = rates(2.0, 8.0);
    inferred_rates.cache_read_is_explicit = false;
    let prices = Prices::of(vec![("test-model", inferred_rates)]);

    assert_eq!(
        prices.cost(&event("test-model", 1_000_000, 1_000_000, false)),
        Some(2.0)
    );
}

#[test]
fn pro_model_overrides_an_explicit_legacy_cache_discount() {
    let mut discounted = rates(2.0, 8.0);
    discounted.cache_read_per_million = rate(0.2);
    let prices = Prices::of(vec![("gpt-5.5-pro", discounted)]);

    assert_eq!(
        prices.cost(&event("gpt-5.5-pro", 100_000, 100_000, false)),
        Some(0.2)
    );
}

#[test]
fn codex_long_context_rates_start_above_272k_prompt_tokens() {
    let prices = Prices::of(vec![("gpt-5.4", rates(2.5, 15.0))]);
    let cost = |input| prices.cost(&event("gpt-5.4", input, 0, false)).unwrap();

    assert!((cost(272_000) - 0.68).abs() < 0.000_001);
    assert!((cost(272_001) - 1.360_005).abs() < 0.000_001);
}

#[test]
fn codex_long_context_rate_matrix_matches_supported_model_families() {
    let long = |model: &str| {
        codex_long_context_rates(model)
            .map(|(input, output, cached)| (value(input), value(output), value(cached)))
    };
    for (model, expected) in [
        ("gpt-5.4", (5.0, 22.5, 0.5)),
        ("gpt-5.4-pro", (60.0, 270.0, 60.0)),
        ("gpt-5.5", (10.0, 45.0, 1.0)),
        ("gpt-5.5-pro", (60.0, 270.0, 60.0)),
        ("gpt-5.6-sol", (10.0, 45.0, 1.0)),
        ("gpt-5.6-terra", (4.0, 18.0, 0.4)),
        ("gpt-5.6-luna", (0.4, 1.8, 0.04)),
    ] {
        assert_eq!(long(model), Some(expected), "{model}");
    }
    assert_eq!(long("gpt-5.5-2026-04-23"), Some((10.0, 45.0, 1.0)));
    assert_eq!(long("gpt-5.3-codex"), None);
}

#[test]
fn codex_priority_multiplier_matrix_overrides_generic_fast_prices() {
    let mut catalog_rates = rates(2.0, 8.0);
    catalog_rates.fast_multiplier = rate(3.0);
    let factor = |model: &str, rates: ModelRates| value(codex_priority_multiplier(model, rates));

    for model in ["gpt-5.5", "gpt-5.5-pro-20260423"] {
        assert_eq!(factor(model, catalog_rates), 2.5);
    }
    for model in [
        "gpt-5.4",
        "gpt-5.4-pro",
        "gpt-5.6-sol",
        "gpt-5.6-terra-2026-07-01",
        "gpt-5.6-luna",
    ] {
        assert_eq!(factor(model, catalog_rates), 2.0, "{model}");
    }
    assert_eq!(factor("future-model", catalog_rates), 3.0);
    assert_eq!(factor("future-model", rates(2.0, 8.0)), 2.0);
}

#[test]
fn fast_alias_uses_unscaled_base_rates_and_one_codex_multiplier() {
    let mut base = rates(2.0, 8.0);
    base.fast_multiplier = rate(2.5);
    let prices = Prices::of(vec![("gpt-5.5", base)]);

    assert_eq!(
        prices.cost(&event("gpt-5.5-fast", 100_000, 0, true)),
        Some(0.5)
    );
}

#[test]
fn fast_only_catalog_model_keeps_its_existing_rate_without_a_second_multiplier() {
    let prices = Prices::of(vec![("vendor-model-fast", rates(6.0, 20.0))]);

    let cost = prices
        .cost(&event("vendor-model-fast", 100_000, 0, true))
        .unwrap();
    assert_eq!(cost, 0.6);
}

#[test]
fn dates_name_versions() {
    assert_eq!(dated_base_model("gpt-5.5-2026-04-23"), "gpt-5.5");
    assert_eq!(dated_base_model("gpt-5.5-20260423"), "gpt-5.5");
    assert_eq!(dated_base_model("gpt-5.5-2026-4-23"), "gpt-5.5-2026-4-23");
    assert_eq!(dated_base_model("gpt-5.5-pro"), "gpt-5.5-pro");
    assert_eq!(dated_base_model("-20260423"), "");
    assert_eq!(dated_base_model("ü-20260423"), "ü");
    assert!(codex_model_has_no_cache_discount("gpt-5.4-pro-20260423"));
    assert!(!codex_model_has_no_cache_discount("gpt-5.4"));
}

#[test]
fn the_reviewer_changes_over_time() {
    let on = |year, month, day| {
        auto_review_fallback(
            &Timestamp::new(day_of_date(year, month, day) * 86_400, 0).unwrap(),
        )
    };
    assert_eq!(on(2026, 4, 23), "gpt-5.5");
    assert_eq!(on(2026, 4, 22), "gpt-5.4");
    assert_eq!(on(2026, 3, 5), "gpt-5.4");
    assert_ne!(on(2026, 3, 4), "gpt-5.4");
    let mut review = event(" codex-auto-review ", 1, 0, false);
    review.timestamp = Timestamp::new(day_of_date(2026, 5, 1) * 86_400, 0).unwrap();
    assert_eq!(priced_model(&review), "gpt-5.5");
}

#[test]
fn names_of_fast_variants_are_cut() {
    let lookup = rate_lookup("gpt-5.5-fast", None);
    assert_eq!(lookup.rate_model, "gpt-5.5");
    assert!(lookup.is_fast_alias);
    let bare = rate_lookup("-fast", None);
    assert_eq!(bare.rate_model, "-fast");
    assert!(!bare.is_fast_alias);
    let aliased = rate_lookup("daybreak", Some("gpt-5.6-sol-fast"));
    assert_eq!(aliased.rate_model, "gpt-5.6-sol");
}

#[test]
fn every_input_token_is_priced_once() {
    let quote = codex_cost(rates(2.0, 8.0), &event("gpt-5.5", 100, 30, false), "gpt-5.5", true);
    assert_eq!((quote.tokens.input, quote.tokens.cache_read), (70, 30));
    assert!(quote.tokens.is_fast);
    assert_eq!(quote.rates.long_context_threshold_tokens, 272_000);
}

#[test]
fn a_use_counts_once_and_only_in_the_window() {
    let today = 20_000;
    let events = vec![
        at(today - 31, 5, 1),
        at(today - 30, 5, 2),
        at(today, 5, 3),
        at(today, 5, 3),
        at(today, 6, 3),
    ];
    let totals: Vec<(i64, u64)> = aggregate_into(events, today)
        .iter()
        .map(|one| (one.day, one.event.total))
        .collect();
    assert_eq!(totals, [(today - 30, 2), (today, 3), (today, 3)]);
}

#[test]
fn a_use_that_differs_in_its_tier_alone_is_the_same_use() {
    let today = 20_000;
    let mut fast = at(today, 5, 3);
    fast.event.is_fast = true;
    let kept = aggregate_into(vec![fast, at(today, 5, 3)], today);
    assert_eq!(kept.len(), 1);
    assert!(kept[0].event.is_fast);
}

#[test]
fn logs_are_put_together() {
    let today = 20_000;
    let logs = || {
        vec![
            vec![at(today - 40, 0, 1), at(today, 0, 2)],
            Vec::new(),
            vec![at(today, 0, 2), at(today - 1, 0, 3)],
        ]
    };
    let recent: Vec<u64> = scan_codex_events(logs(), today - 30)
        .iter()
        .map(|one| one.event.total)
        .collect();
    assert_eq!(recent, [2, 2, 3]);
    let counted: Vec<u64> = scan_local_usage_scoped(logs(), today)
        .iter()
        .map(|one| one.event.total)
        .collect();
    assert_eq!(counted, [2, 3]);
}

#[test]
fn the_window_ends_with_the_calendar() {
    assert_eq!(since_day(20_000), 19_970);
    assert_eq!(scan_since_day(20_000), 19_970);
    assert_eq!(since_day(FIRST_DAY + 29), FIRST_DAY + 29);
    assert_eq!(scan_since_day(FIRST_DAY + 29), FIRST_DAY);
    let first = chrono::NaiveDate::MIN;
    let epoch = chrono::NaiveDate::from_ymd_opt(1970, 1, 1).unwrap();
    assert_eq!(first.signed_duration_since(epoch).num_days(), FIRST_DAY);
}

#[test]
fn uses_without_tokens_and_prices_leave_no_trace() {
    let silent = at(20_000, 0, 0);
    assert!(usage_entry(&silent, None).is_none());
    assert_eq!(source_note(true), "From your Codex logs and pi (estimated)");
    assert_eq!(LOG_CACHE_SCHEMA_VERSION, 3);
}

#[test]
fn a_failed_search_for_pi_usage_counts_as_none() {
    let with_pi = "From your Codex logs and pi (estimated)";
    let without = "From your Codex logs (estimated)";
    assert_eq!(source_note_after(Ok(true)), with_pi);
    assert_eq!(source_note_after(Ok(false)), without);
    assert_eq!(source_note_after(Err(CodexError::Storage)), without);
    assert!(!includes_pi(Err(CodexError::LocalUsage)));
}
