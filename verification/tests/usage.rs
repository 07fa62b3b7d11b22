//! Logs: which uses they record.
use openquota_codex::json::Json;
use openquota_codex::time::{parse_log_timestamp, Timestamp};
use openquota_codex::usage::{
    has_non_null_value, integer, is_child_session_meta, model_name, nonblank_text, parse_jsonl,
    resolve_model, service_tier, ChildReplayGate, RawUsage, UsageReader,
};

fn json(text: &str) -> Json {
    Json::from_text(text).unwrap()
}

#[test]
fn parses_last_usage_and_tracks_turn_model() {
    let content = r#"{"timestamp":"2026-07-10T08:00:00Z","type":"turn_context","payload":{"model":"gpt-5.5"}}
{"timestamp":"2026-07-10T08:01:00Z","type":"event_msg","payload":{"type":"token_count","info":{"last_token_usage":{"input_tokens":100,"cached_input_tokens":20,"output_tokens":10,"reasoning_output_tokens":5,"total_tokens":115}}}}"#;
    let events = parse_jsonl(content);
    assert_eq!(events.len(), 1);
    assert_eq!(events[0].model, "gpt-5.5");
    assert_eq!(events[0].total, 115);
    assert_eq!(events[0].cached, 20);
}

#[test]
fn cumulative_totals_become_deltas() {
    let content = r#"{"timestamp":"2026-07-10T08:00:00Z","type":"event_msg","payload":{"type":"token_count","info":{"total_token_usage":{"input_tokens":100,"output_tokens":10,"total_tokens":110}}}}
{"timestamp":"2026-07-10T08:01:00Z","type":"event_msg","payload":{"type":"token_count","info":{"total_token_usage":{"input_tokens":160,"output_tokens":20,"total_tokens":180}}}}"#;
    let events = parse_jsonl(content);
    assert_eq!(events.len(), 2);
    assert_eq!(events[1].input, 60);
    assert_eq!(events[1].output, 10);
}

#[test]
fn auto_review_keeps_its_model_name() {
    let content = r#"{"timestamp":"2026-03-10T08:00:00Z","type":"turn_context","payload":{"model":"codex-auto-review"}}
{"timestamp":"2026-03-10T08:01:00Z","type":"event_msg","payload":{"type":"token_count","info":{"last_token_usage":{"input_tokens":10,"output_tokens":5,"total_tokens":15}}}}"#;
    let events = parse_jsonl(content);
    assert_eq!(events[0].model, "codex-auto-review");
}

#[test]
fn subagent_replay_seeds_the_cumulative_baseline() {
    let content = r#"{"timestamp":"2026-05-12T08:03:00Z","type":"session_meta","payload":{"source":{"subagent":{"thread_spawn":true}}}}
{"timestamp":"2026-05-12T08:03:00Z","type":"event_msg","payload":{"type":"token_count","info":{"total_token_usage":{"input_tokens":1000,"cached_input_tokens":100,"output_tokens":200,"total_tokens":1200}}}}
{"timestamp":"2026-05-12T08:04:00Z","type":"event_msg","payload":{"type":"token_count","info":{"total_token_usage":{"input_tokens":1500,"cached_input_tokens":150,"output_tokens":300,"total_tokens":1800}}}}
{"timestamp":"2026-05-12T08:04:30Z","type":"event_msg","payload":{"type":"task_started","started_at":1}}
{"timestamp":"2026-05-12T08:05:00Z","type":"event_msg","payload":{"type":"task_started","started_at":9999999999}}
{"timestamp":"2026-05-12T08:06:00Z","type":"event_msg","payload":{"type":"token_count","info":{"total_token_usage":{"input_tokens":1600,"cached_input_tokens":160,"output_tokens":320,"total_tokens":1920}}}}"#;
    let events = parse_jsonl(content);
    assert_eq!(events.len(), 1);
    assert_eq!(events[0].input, 100);
    assert_eq!(events[0].cached, 10);
    assert_eq!(events[0].output, 20);
    assert_eq!(events[0].total, 120);
}

#[test]
fn child_without_a_live_task_emits_no_replayed_usage() {
    let content = r#"{"timestamp":"2026-05-12T08:03:00Z","type":"session_meta","payload":{"forked_from_id":"parent"}}
{"timestamp":"2026-05-12T08:04:00Z","type":"event_msg","payload":{"type":"token_count","info":{"last_token_usage":{"input_tokens":100,"output_tokens":20,"total_tokens":120},"total_token_usage":{"input_tokens":1000,"output_tokens":200,"total_tokens":1200}}}}"#;
    assert!(parse_jsonl(content).is_empty());
}

#[test]
fn child_without_a_metadata_timestamp_opens_only_on_its_live_task() {
    let content = r#"{"type":"session_meta","payload":{"forked_from_id":"parent"}}
{"timestamp":"2026-05-12T08:03:00Z","type":"event_msg","payload":{"type":"token_count","info":{"total_token_usage":{"input_tokens":1000,"output_tokens":200,"total_tokens":1200}}}}
{"timestamp":"2026-05-12T08:03:30Z","type":"event_msg","payload":{"type":"task_started","started_at":1}}
{"timestamp":"2026-05-12T08:04:00Z","type":"event_msg","payload":{"type":"token_count","info":{"total_token_usage":{"input_tokens":1500,"output_tokens":300,"total_tokens":1800}}}}
{"timestamp":"2026-05-12T08:05:00Z","type":"event_msg","payload":{"type":"task_started","started_at":9999999999}}
{"timestamp":"2026-05-12T08:06:00Z","type":"event_msg","payload":{"type":"token_count","info":{"total_token_usage":{"input_tokens":1600,"output_tokens":320,"total_tokens":1920}}}}"#;
    let events = parse_jsonl(content);

    assert_eq!(events.len(), 1);
    assert_eq!(events[0].input, 100);
    assert_eq!(events[0].output, 20);
    assert_eq!(events[0].total, 120);
}

#[test]
fn null_parent_metadata_keeps_root_session_usage() {
    let content = r#"{"timestamp":"2026-05-12T08:03:00Z","type":"session_meta","payload":{"forked_from_id":null,"parent_thread_id":" "}}
{"timestamp":"2026-05-12T08:04:00Z","type":"event_msg","payload":{"type":"token_count","info":{"last_token_usage":{"input_tokens":100,"output_tokens":20,"total_tokens":120}}}}"#;
    assert_eq!(parse_jsonl(content).len(), 1);
}

#[test]
fn service_tier_is_attached_to_each_usage_event() {
    let content = r#"{"timestamp":"2026-07-10T08:00:00Z","type":"event_msg","payload":{"type":"thread_settings_applied","thread_settings":{"service_tier":" fast "}}}
{"timestamp":"2026-07-10T08:01:00Z","type":"event_msg","payload":{"type":"token_count","info":{"last_token_usage":{"input_tokens":100,"output_tokens":10,"total_tokens":110}}}}
{"timestamp":"2026-07-10T08:02:00Z","type":"event_msg","payload":{"type":"thread_settings_applied","service_tier":"default"}}
{"timestamp":"2026-07-10T08:03:00Z","type":"event_msg","payload":{"type":"token_count","info":{"last_token_usage":{"input_tokens":50,"output_tokens":5,"total_tokens":55}}}}"#;
    let events = parse_jsonl(content);
    assert!(events[0].is_fast);
    assert!(!events[1].is_fast);
}

#[test]
fn unchanged_cumulative_snapshot_is_not_counted_twice() {
    let content = r#"{"timestamp":"2026-07-10T08:00:00Z","type":"event_msg","payload":{"type":"token_count","info":{"last_token_usage":{"input_tokens":100,"output_tokens":10,"total_tokens":110},"total_token_usage":{"input_tokens":100,"output_tokens":10,"total_tokens":110}}}}
{"timestamp":"2026-07-10T08:01:00Z","type":"event_msg","payload":{"type":"token_count","info":{"last_token_usage":{"input_tokens":100,"output_tokens":10,"total_tokens":110},"total_token_usage":{"input_tokens":100,"output_tokens":10,"total_tokens":110}}}}"#;
    assert_eq!(parse_jsonl(content).len(), 1);
}

#[test]
fn accepts_trimmed_timestamps_and_rejects_numeric_strings() {
    let content = r#"{"timestamp":" 2026-07-10T08:00:00Z ","type":"event_msg","payload":{"type":"token_count","model":"gpt-5.5","info":{"last_token_usage":{"input_tokens":100,"output_tokens":10,"total_tokens":110}}}}
{"timestamp":"2026-07-10T08:01:00Z","type":"event_msg","payload":{"type":"token_count","model":"gpt-5.5","info":{"last_token_usage":{"input_tokens":"100","output_tokens":"10","total_tokens":"110"}}}}"#;
    let events = parse_jsonl(content);
    assert_eq!(events.len(), 1);
    assert_eq!(events[0].total, 110);
}

#[test]
fn parses_cross_device_timestamp_offsets() {
    let content = r#"{"timestamp":"2026-07-15 15:00:00.123456+03:00","type":"event_msg","payload":{"type":"token_count","model":"gpt-5.5","info":{"last_token_usage":{"input_tokens":100,"output_tokens":10,"total_tokens":110}}}}"#;
    let events = parse_jsonl(content);
    assert_eq!(
        events[0].timestamp.to_rfc3339(),
        "2026-07-15T12:00:00.123+00:00"
    );
}

#[test]
fn counts_are_read_under_several_names() {
    let value = json(r#"{"prompt_tokens":7,"input":9,"text":"5","negative":-1}"#);
    assert_eq!(integer(&value, &["input_tokens", "prompt_tokens", "input"]), 7);
    assert_eq!(integer(&value, &["text", "input"]), 9);
    assert_eq!(integer(&value, &["negative"]), 0);
    assert_eq!(integer(&value, &[]), 0);
}

#[test]
fn totals_are_added_up_where_they_are_missing() {
    let usage = RawUsage::from_value(&json(
        r#"{"input_tokens":100,"cached_input_tokens":20,"output_tokens":10,"reasoning_output_tokens":5}"#,
    ));
    assert_eq!(usage.total, 115);
    assert_eq!(usage.cached, 20);
    let stated = RawUsage::from_value(&json(r#"{"input_tokens":1,"total_tokens":50}"#));
    assert_eq!(stated.total, 50);
}

#[test]
fn usage_beyond_an_earlier_total_is_never_negative() {
    let earlier = RawUsage { input: 10, cached: 5, output: 3, reasoning: 2, total: 13 };
    let later = RawUsage { input: 15, cached: 4, output: 3, reasoning: 9, total: 20 };
    assert_eq!(
        later.subtracting(Some(earlier)),
        RawUsage { input: 5, cached: 0, output: 0, reasoning: 7, total: 7 }
    );
    assert_eq!(later.subtracting(None), later);
}

#[test]
fn models_are_resolved_from_the_record_the_turn_or_the_default() {
    let mut current = None;
    assert_eq!(resolve_model(None, &mut current), "gpt-5");
    assert_eq!(current.as_deref(), Some("gpt-5"));
    assert_eq!(resolve_model(Some("gpt-5.5".into()), &mut current), "gpt-5.5");
    assert_eq!(resolve_model(None, &mut current), "gpt-5.5");
}

#[test]
fn models_and_tiers_are_named_in_several_places() {
    assert_eq!(model_name(Some(&json(r#"{"model":" a "}"#))).as_deref(), Some("a"));
    assert_eq!(
        model_name(Some(&json(r#"{"model":" ","model_name":"b"}"#))).as_deref(),
        Some("b")
    );
    assert!(model_name(None).is_none());
    assert_eq!(
        service_tier(&json(r#"{"thread_settings":{"service_tier":" "},"service_tier":"priority"}"#))
            .as_deref(),
        Some("priority")
    );
    assert_eq!(nonblank_text(Some(&json(r#"" x ""#))).as_deref(), Some("x"));
}

#[test]
fn children_are_told_from_their_metadata() {
    assert!(is_child_session_meta(&json(r#"{"forked_from_id":"x"}"#)));
    assert!(is_child_session_meta(&json(r#"{"parent_thread_id":7}"#)));
    assert!(is_child_session_meta(&json(r#"{"thread_source":"subagent"}"#)));
    assert!(is_child_session_meta(&json(r#"{"source":{"subagent":false}}"#)));
    assert!(!is_child_session_meta(&json(r#"{"source":"subagent","thread_source":"cli"}"#)));
    assert!(has_non_null_value(Some(&json("0"))));
    assert!(!has_non_null_value(Some(&json(r#"" ""#))));
    assert!(!has_non_null_value(None));
}

#[test]
fn replay_ends_with_a_task_that_started_late_enough() {
    let gate = ChildReplayGate::UntilStartedAt(100);
    assert!(gate.is_cleared(&json(r#"{"started_at":100}"#), None));
    assert!(gate.is_cleared(&json(r#"{"started_at":100.0}"#), None));
    assert!(!gate.is_cleared(&json(r#"{"started_at":99.9}"#), None));
    assert!(!gate.is_cleared(&json(r#"{"started_at":"100"}"#), None));
    assert!(!gate.is_cleared(&json("{}"), None));
    let late = ChildReplayGate::UntilStartedAt(9007199254740993);
    assert!(late.is_cleared(&json(r#"{"started_at":9007199254740992}"#), None));
    assert!(!late.is_cleared(&json(r#"{"started_at":9007199254740991}"#), None));
    let timed = ChildReplayGate::UntilSelfTimedTaskStarted;
    let stamp = Timestamp::new(50, 900_000_000);
    assert!(timed.is_cleared(&json(r#"{"started_at":50}"#), stamp));
    assert!(!timed.is_cleared(&json(r#"{"started_at":49}"#), stamp));
    assert!(!timed.is_cleared(&json(r#"{"started_at":50}"#), None));
}

#[test]
fn growing_totals_of_a_log_add_up() {
    let count = |minute: u32, input: u64, output: u64, reasoning: u64| {
        format!(
            r#"{{"timestamp":"2026-07-10T08:{minute:02}:00Z","type":"event_msg","payload":{{"type":"token_count","info":{{"total_token_usage":{{"input_tokens":{input},"output_tokens":{output},"reasoning_output_tokens":{reasoning}}}}}}}}}"#
        )
    };
    let content = [
        r#"{"type":"session_meta","payload":{}}"#.to_owned(),
        count(1, 100, 10, 1),
        r#"{"type":"turn_context","payload":{"model":"gpt-5.5"}}"#.to_owned(),
        count(2, 100, 10, 1),
        "not json".to_owned(),
        count(3, 160, 20, 1),
        r#"{"type":"event_msg","payload":{"type":"thread_settings_applied"}}"#.to_owned(),
        count(9, 175, 20, 8),
    ]
    .join("\n");
    let events = parse_jsonl(&content);
    assert_eq!(events.len(), 3);
    assert_eq!(events.iter().map(|event| event.input).sum::<u64>(), 175);
    assert_eq!(events.iter().map(|event| event.output).sum::<u64>(), 20);
    assert_eq!(events.iter().map(|event| event.reasoning).sum::<u64>(), 8);
}

#[test]
fn a_log_that_grows_keeps_its_uses() {
    let first = r#"{"timestamp":"2026-07-10T08:00:00Z","type":"event_msg","payload":{"type":"token_count","info":{"total_token_usage":{"input_tokens":100,"output_tokens":10,"total_tokens":110}}}}"#;
    let second = r#"{"timestamp":"2026-07-10T08:01:00Z","type":"event_msg","payload":{"type":"token_count","info":{"total_token_usage":{"input_tokens":160,"output_tokens":20,"total_tokens":180}}}}"#;
    let short = parse_jsonl(&format!("{first}\n"));
    let long = parse_jsonl(&format!("{first}\r\nnot json\n{second}\n"));
    assert_eq!(short.len(), 1);
    assert_eq!(long.len(), 2);
    assert_eq!(short[0], long[0]);
    assert_eq!(long.iter().map(|event| event.total).sum::<u64>(), 180);
}

#[test]
fn a_reader_goes_on_where_it_stopped() {
    let mut reader = UsageReader::new();
    let context = r#"{"type":"turn_context","payload":{"model":"gpt-5.5"}}"#;
    let count = r#"{"timestamp":"2026-07-10T08:00:00Z","type":"event_msg","payload":{"type":"token_count","info":{"last_token_usage":{"input_tokens":5,"cached_input_tokens":9,"output_tokens":0}}}}"#;
    assert!(reader.read_line(context).is_none());
    let event = reader.read_line(count).unwrap();
    assert_eq!(event.model, "gpt-5.5");
    // No more input is cached than there is.
    assert_eq!((event.input, event.cached), (5, 5));
    let nothing = r#"{"timestamp":"2026-07-10T08:00:00Z","type":"event_msg","payload":{"type":"token_count","info":{"last_token_usage":{"total_tokens":5}}}}"#;
    assert!(reader.read_line(nothing).is_none());
}

#[test]
fn log_times_are_cut_to_milliseconds() {
    let instant = parse_log_timestamp("2026-07-10T08:00:00.1239Z").unwrap();
    assert_eq!(instant.nanos, 123_000_000);
    assert!(parse_log_timestamp("2026-07-10").is_none());
    assert!(parse_log_timestamp(" 2026-07-10T08:00:00Z").is_none());
}

#[test]
fn a_log_with_an_open_line_keeps_its_uses() {
    let first = r#"{"timestamp":"2026-07-10T08:00:00Z","type":"event_msg","payload":{"type":"token_count","info":{"last_token_usage":{"input_tokens":100,"total_tokens":110}}}}"#;
    let second = r#"{"timestamp":"2026-07-10T08:01:00Z","type":"event_msg","payload":{"type":"token_count","info":{"last_token_usage":{"input_tokens":160,"total_tokens":180}}}}"#;
    for open in ["", "\r", "\r\r", "\n"] {
        let content = format!("{first}{open}");
        let short = parse_jsonl(&content);
        let long = parse_jsonl(&format!("{content}\n{second}"));
        assert_eq!(short.len(), 1);
        assert_eq!(long.len(), 2);
        assert_eq!(short[0], long[0]);
    }
}
