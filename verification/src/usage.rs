//! Token usage recorded in session logs: one JSON record per line.
use vstd::prelude::*;

use crate::json::{get_of, text_of_json, Json, JsonView};
use crate::time::{parse_log_timestamp, Timestamp};
use crate::{json, text, time, usage_laws};

verus! {

/// Token counts as a record states them.
#[derive(Debug, Clone, Copy, PartialEq, Eq, Structural)]
pub struct RawUsage {
    pub input: u64,
    pub cached: u64,
    pub output: u64,
    pub reasoning: u64,
    pub total: u64,
}

/// One use of a model.
#[derive(Debug, Clone, PartialEq, Eq)]
pub struct TokenEvent {
    pub timestamp: Timestamp,
    pub model: String,
    pub input: u64,
    pub cached: u64,
    pub output: u64,
    pub reasoning: u64,
    pub total: u64,
    pub is_fast: bool,
}

/// What a token event holds.
pub struct EventView {
    pub timestamp: Timestamp,
    pub model: Seq<char>,
    pub input: u64,
    pub cached: u64,
    pub output: u64,
    pub reasoning: u64,
    pub total: u64,
    pub is_fast: bool,
}

impl View for TokenEvent {
    type V = EventView;

    open spec fn view(&self) -> EventView {
        EventView {
            timestamp: self.timestamp,
            model: self.model@,
            input: self.input,
            cached: self.cached,
            output: self.output,
            reasoning: self.reasoning,
            total: self.total,
            is_fast: self.is_fast,
        }
    }
}

/// What a list of token events holds.
pub open spec fn event_views(events: Seq<TokenEvent>) -> Seq<EventView> {
    events.map_values(|event: TokenEvent| event@)
}

/// Until when the records of a child session repeat those of its parent.
#[derive(Debug, Clone, Copy, PartialEq, Eq, Structural)]
pub enum ChildReplayGate {
    /// Until a task that started at that second or later.
    UntilStartedAt(i64),
    /// Until a task that started no earlier than its own record was written.
    UntilSelfTimedTaskStarted,
}

/// The first unsigned integer under one of the names, or zero.
pub open spec fn integer_at(value: JsonView, keys: Seq<&str>) -> u64
    decreases keys.len(),
{
    if keys.len() == 0 {
        0
    } else {
        match json::u64_in(json::member(value, keys[0]@)) {
            Some(number) => number,
            None => integer_at(value, keys.drop_first()),
        }
    }
}

/// The first unsigned integer under one of the names, or zero.
pub fn integer(value: &Json, keys: &[&str]) -> (number: u64)
    ensures
        number == integer_at(value@, keys@),
{
    let mut i: usize = 0;
    assert(keys@.skip(0) =~= keys@);
    while i < keys.len()
        invariant
            i <= keys@.len(),
            integer_at(value@, keys@) == integer_at(value@, keys@.skip(i as int)),
        decreases keys@.len() - i,
    {
        let found = value.get(keys[i]);
        proof {
            assert(keys@.skip(i as int)[0] == keys@[i as int]);
            assert(keys@.skip(i as int).drop_first() =~= keys@.skip(i + 1));
        }
        if let Some(inner) = found {
            if let Some(number) = inner.as_u64() {
                return number;
            }
        }
        i += 1;
    }
    0
}

/// The larger minus the smaller where the first is larger, else zero.
pub open spec fn less_by(value: u64, taken: u64) -> u64 {
    if value > taken {
        (value - taken) as u64
    } else {
        0
    }
}

/// The counts that a usage record states. The total is the reported one, or, where none is
/// reported, the sum of the input, output and reasoning counts in 64-bit arithmetic.
pub open spec fn raw_usage(value: JsonView) -> RawUsage {
    let input = integer_at(value, seq!["input_tokens", "prompt_tokens", "input"]);
    let cached = integer_at(
        value,
        seq!["cached_input_tokens", "cache_read_input_tokens", "cached_tokens"],
    );
    let output = integer_at(value, seq!["output_tokens", "completion_tokens", "output"]);
    let reasoning = integer_at(value, seq!["reasoning_output_tokens", "reasoning_tokens"]);
    let reported = integer_at(value, seq!["total_tokens"]);
    let recomputed = ((input + output + reasoning) % 0x1_0000_0000_0000_0000) as u64;
    RawUsage {
        input,
        cached,
        output,
        reasoning,
        total: if reported > 0 || recomputed == 0 {
            reported
        } else {
            recomputed
        },
    }
}

/// No tokens at all.
pub open spec fn no_usage() -> RawUsage {
    RawUsage { input: 0, cached: 0, output: 0, reasoning: 0, total: 0 }
}

/// The counts beyond those already counted, each no lower than zero.
pub open spec fn usage_beyond(usage: RawUsage, previous: Option<RawUsage>) -> RawUsage {
    let base = match previous {
        Some(inner) => inner,
        None => no_usage(),
    };
    RawUsage {
        input: less_by(usage.input, base.input),
        cached: less_by(usage.cached, base.cached),
        output: less_by(usage.output, base.output),
        reasoning: less_by(usage.reasoning, base.reasoning),
        total: less_by(usage.total, base.total),
    }
}

impl RawUsage {
    /// The counts that a usage record states.
    pub fn from_value(value: &Json) -> (usage: RawUsage)
        ensures
            usage == raw_usage(value@),
    {
        let input_keys: [&str; 3] = ["input_tokens", "prompt_tokens", "input"];
        let cached_keys: [&str; 3] = [
            "cached_input_tokens",
            "cache_read_input_tokens",
            "cached_tokens",
        ];
        let output_keys: [&str; 3] = ["output_tokens", "completion_tokens", "output"];
        let reasoning_keys: [&str; 2] = ["reasoning_output_tokens", "reasoning_tokens"];
        let total_keys: [&str; 1] = ["total_tokens"];
        proof {
            assert(input_keys@ =~= seq!["input_tokens", "prompt_tokens", "input"]);
            assert(cached_keys@ =~= seq![
                "cached_input_tokens",
                "cache_read_input_tokens",
                "cached_tokens",
            ]);
            assert(output_keys@ =~= seq!["output_tokens", "completion_tokens", "output"]);
            assert(reasoning_keys@ =~= seq!["reasoning_output_tokens", "reasoning_tokens"]);
            assert(total_keys@ =~= seq!["total_tokens"]);
        }
        let input: u64 = integer(value, input_keys.as_slice());
        let cached: u64 = integer(value, cached_keys.as_slice());
        let output: u64 = integer(value, output_keys.as_slice());
        let reasoning: u64 = integer(value, reasoning_keys.as_slice());
        let reported: u64 = integer(value, total_keys.as_slice());
        let recomputed: u64 = input.wrapping_add(output).wrapping_add(reasoning);
        RawUsage {
            input,
            cached,
            output,
            reasoning,
            total: if reported > 0 || recomputed == 0 {
                reported
            } else {
                recomputed
            },
        }
    }

    /// The counts beyond those already counted.
    pub fn subtracting(self, previous: Option<RawUsage>) -> (usage: RawUsage)
        ensures
            usage == usage_beyond(self, previous),
    {
        let base = match previous {
            Some(inner) => inner,
            None => RawUsage { input: 0, cached: 0, output: 0, reasoning: 0, total: 0 },
        };
        RawUsage {
            input: self.input.saturating_sub(base.input),
            cached: self.cached.saturating_sub(base.cached),
            output: self.output.saturating_sub(base.output),
            reasoning: self.reasoning.saturating_sub(base.reasoning),
            total: self.total.saturating_sub(base.total),
        }
    }
}

/// The text under a name, trimmed, where it is a text and not blank.
pub open spec fn nonblank(value: Option<JsonView>) -> Option<Seq<char>> {
    match json::text_in(value) {
        Some(inner) => if text::trimmed(inner).len() > 0 {
            Some(text::trimmed(inner))
        } else {
            None
        },
        None => None,
    }
}

/// The first of two texts that is there.
pub open spec fn first_of(first: Option<Seq<char>>, second: Option<Seq<char>>) -> Option<Seq<char>> {
    match first {
        Some(_) => first,
        None => second,
    }
}

/// The service tier that a settings record names: that of its thread settings, else its own.
pub open spec fn tier_named(payload: JsonView) -> Option<Seq<char>> {
    first_of(
        nonblank(json::member_of(json::member(payload, "thread_settings"@), "service_tier"@)),
        nonblank(json::member(payload, "service_tier"@)),
    )
}

/// The model that a record names: as `model`, else as `model_name`, else in its metadata.
pub open spec fn model_named(value: Option<JsonView>) -> Option<Seq<char>> {
    first_of(
        nonblank(json::member_of(value, "model"@)),
        first_of(
            nonblank(json::member_of(value, "model_name"@)),
            nonblank(json::member_of(json::member_of(value, "metadata"@), "model"@)),
        ),
    )
}

/// Whether something is there that is neither null nor a blank text.
pub open spec fn is_set(value: Option<JsonView>) -> bool {
    match value {
        None => false,
        Some(JsonView::Null) => false,
        Some(JsonView::Text(inner)) => text::trimmed(inner).len() > 0,
        Some(_) => true,
    }
}

/// Whether the metadata are those of a session that continues another one.
pub open spec fn is_child(payload: JsonView) -> bool {
    ||| is_set(json::member(payload, "forked_from_id"@))
    ||| is_set(json::member(payload, "parent_thread_id"@))
    ||| json::text_in(json::member(payload, "thread_source"@)) == Some("subagent"@)
    ||| is_set(json::member_of(json::member(payload, "source"@), "subagent"@))
}

/// Whether a task record ends the repetition, `stamp` being when the record was written. The start
/// of the task and the second it is held against are compared as doubles.
pub open spec fn clears(
    gate: ChildReplayGate,
    payload: JsonView,
    stamp: Option<Timestamp>,
) -> bool {
    match json::member(payload, "started_at"@) {
        Some(JsonView::Number(started)) => match gate {
            ChildReplayGate::UntilStartedAt(second) => json::number_at_least(
                started,
                second as int,
            ),
            ChildReplayGate::UntilSelfTimedTaskStarted => stamp matches Some(instant)
                && json::number_at_least(started, instant.secs as int),
        },
        _ => false,
    }
}

/// Whether an optional text is there and is `wanted`.
fn text_is(given: Option<&str>, wanted: &str) -> (is: bool)
    ensures
        is == (text::text_view(given) == Some(wanted@)),
{
    match given {
        Some(inner) => text::same_text(inner, wanted),
        None => false,
    }
}

/// The text, trimmed, where it is a text and not blank.
pub fn nonblank_text(value: Option<&Json>) -> (out: Option<String>)
    ensures
        text::string_view(out) == nonblank(json::found(value)),
{
    match text_of_json(value) {
        Some(inner) => {
            let cut = text::trim(inner);
            if cut.as_str().is_empty() {
                None
            } else {
                Some(cut)
            }
        },
        None => None,
    }
}

/// The service tier that a settings record names.
pub fn service_tier(payload: &Json) -> (tier: Option<String>)
    ensures
        text::string_view(tier) == tier_named(payload@),
{
    let nested = nonblank_text(get_of(payload.get("thread_settings"), "service_tier"));
    if nested.is_some() {
        return nested;
    }
    nonblank_text(payload.get("service_tier"))
}

/// The model that a record names.
pub fn model_name(value: Option<&Json>) -> (model: Option<String>)
    ensures
        text::string_view(model) == model_named(json::found(value)),
{
    let direct = nonblank_text(get_of(value, "model"));
    if direct.is_some() {
        return direct;
    }
    let named = nonblank_text(get_of(value, "model_name"));
    if named.is_some() {
        return named;
    }
    nonblank_text(get_of(get_of(value, "metadata"), "model"))
}

/// Whether something is there that is neither null nor a blank text.
pub fn has_non_null_value(value: Option<&Json>) -> (set: bool)
    ensures
        set == is_set(json::found(value)),
{
    match value {
        None => false,
        Some(Json::Null) => false,
        Some(Json::Text(inner)) => !text::trim(inner.as_str()).as_str().is_empty(),
        Some(_) => true,
    }
}

/// Whether the metadata are those of a session that continues another one.
pub fn is_child_session_meta(payload: &Json) -> (child: bool)
    ensures
        child == is_child(payload@),
{
    has_non_null_value(payload.get("forked_from_id")) || has_non_null_value(
        payload.get("parent_thread_id"),
    ) || text_is(text_of_json(payload.get("thread_source")), "subagent") || has_non_null_value(
        get_of(payload.get("source"), "subagent"),
    )
}

impl ChildReplayGate {
    /// Whether a task record ends the repetition, `stamp` being when the record was written.
    pub fn is_cleared(self, payload: &Json, stamp: Option<Timestamp>) -> (cleared: bool)
        ensures
            cleared == clears(self, payload@, stamp),
    {
        let started = match payload.get("started_at") {
            Some(value) => value.as_number(),
            None => None,
        };
        match started {
            Some(started) => match self {
                ChildReplayGate::UntilStartedAt(second) => started.at_least(second),
                ChildReplayGate::UntilSelfTimedTaskStarted => match stamp {
                    Some(instant) => started.at_least(instant.secs),
                    None => false,
                },
            },
            _ => false,
        }
    }
}

/// The model that a use counts under, and the model then in force: the one named, else the one in
/// force, else `gpt-5`.
pub open spec fn model_resolved(named: Option<Seq<char>>, current: Option<Seq<char>>) -> Seq<char> {
    match first_of(named, current) {
        Some(model) => model,
        None => "gpt-5"@,
    }
}

/// The model that a use counts under, which is then the model in force.
pub fn resolve_model(parsed: Option<String>, current_model: &mut Option<String>) -> (model: String)
    ensures
        model@ == model_resolved(text::string_view(parsed), text::string_view(*old(current_model))),
        text::string_view(*final(current_model)) == Some(model@),
{
    let model = match parsed {
        Some(inner) => inner,
        None => match current_model {
            Some(inner) => inner.clone(),
            None => "gpt-5".to_owned(),
        },
    };
    *current_model = Some(model.clone());
    model
}

/// What is known of a log after some of its lines.
pub struct ReaderView {
    pub current_model: Option<Seq<char>>,
    pub tier_is_fast: bool,
    pub previous_totals: Option<RawUsage>,
    pub saw_session_meta: bool,
    pub replay_gate: Option<ChildReplayGate>,
}

/// What is known of a log before its first line.
pub open spec fn nothing_read() -> ReaderView {
    ReaderView {
        current_model: None,
        tier_is_fast: false,
        previous_totals: None,
        saw_session_meta: false,
        replay_gate: None,
    }
}

/// Whether no tokens were used, the total left aside.
pub open spec fn is_idle(usage: RawUsage) -> bool {
    usage.input == 0 && usage.cached == 0 && usage.output == 0 && usage.reasoning == 0
}

/// The usage that a count record states beyond what was counted before, where it states any: its
/// last usage, else what its totals exceed the previous totals by. Totals that did not change
/// state none.
pub open spec fn usage_stated(
    last: Option<JsonView>,
    totals: Option<RawUsage>,
    previous: Option<RawUsage>,
) -> Option<RawUsage> {
    if totals is Some && totals == previous {
        None
    } else {
        match (last, totals) {
            (Some(usage), _) => Some(raw_usage(usage)),
            (None, Some(inner)) => Some(usage_beyond(inner, previous)),
            (None, None) => None,
        }
    }
}

/// The step that a count record takes, written at `instant`.
pub open spec fn count_step(state: ReaderView, payload: JsonView, instant: Timestamp) -> (
    ReaderView,
    Option<EventView>,
) {
    let info = json::member(payload, "info"@);
    let totals = match json::member_of(info, "total_token_usage"@) {
        Some(value) => Some(raw_usage(value)),
        None => None,
    };
    let counted = match totals {
        Some(_) => ReaderView { previous_totals: totals, ..state },
        None => state,
    };
    if state.replay_gate is Some {
        (counted, None)
    } else {
        match usage_stated(
            json::member_of(info, "last_token_usage"@),
            totals,
            state.previous_totals,
        ) {
            None => (state, None),
            Some(usage) => if is_idle(usage) {
                (counted, None)
            } else {
                let model = model_resolved(
                    first_of(model_named(Some(payload)), model_named(info)),
                    state.current_model,
                );
                (
                    ReaderView { current_model: Some(model), ..counted },
                    Some(
                        EventView {
                            timestamp: instant,
                            model,
                            input: usage.input,
                            cached: if usage.cached <= usage.input {
                                usage.cached
                            } else {
                                usage.input
                            },
                            output: usage.output,
                            reasoning: usage.reasoning,
                            total: usage.total,
                            is_fast: state.tier_is_fast,
                        },
                    ),
                )
            },
        }
    }
}

/// The step that an event record takes.
pub open spec fn event_step(
    state: ReaderView,
    payload: JsonView,
    stamp: Option<Timestamp>,
) -> (ReaderView, Option<EventView>) {
    let kind = json::text_in(json::member(payload, "type"@));
    if kind == Some("thread_settings_applied"@) {
        match tier_named(payload) {
            Some(tier) => (
                ReaderView { tier_is_fast: tier == "fast"@ || tier == "priority"@, ..state },
                None,
            ),
            None => (state, None),
        }
    } else if kind == Some("task_started"@) {
        match state.replay_gate {
            Some(gate) => if clears(gate, payload, stamp) {
                (ReaderView { replay_gate: None, ..state }, None)
            } else {
                (state, None)
            },
            None => (state, None),
        }
    } else if kind == Some("token_count"@) {
        match stamp {
            Some(instant) => count_step(state, payload, instant),
            None => (state, None),
        }
    } else {
        (state, None)
    }
}

/// The step that a record takes, `stamp` being the instant that it states.
pub open spec fn record_step(state: ReaderView, object: JsonView, stamp: Option<Timestamp>) -> (
    ReaderView,
    Option<EventView>,
) {
    let kind = json::text_in(json::member(object, "type"@));
    let payload = json::member(object, "payload"@);
    if kind == Some("turn_context"@) {
        match model_named(payload) {
            Some(model) => (ReaderView { current_model: Some(model), ..state }, None),
            None => (state, None),
        }
    } else if kind == Some("session_meta"@) && !state.saw_session_meta {
        let gate = if payload is Some && is_child(payload->0) {
            match stamp {
                Some(instant) => Some(ChildReplayGate::UntilStartedAt(instant.secs)),
                None => Some(ChildReplayGate::UntilSelfTimedTaskStarted),
            }
        } else {
            state.replay_gate
        };
        (ReaderView { saw_session_meta: true, replay_gate: gate, ..state }, None)
    } else if payload is Some && kind == Some("event_msg"@) {
        event_step(state, payload->0, stamp)
    } else {
        (state, None)
    }
}

/// The instant that a record states.
pub open spec fn record_instant(object: JsonView) -> Option<Timestamp> {
    match json::text_in(json::member(object, "timestamp"@)) {
        Some(inner) => time::log_instant(text::trimmed(inner)),
        None => None,
    }
}

/// Whether a line looks like a record that matters.
pub open spec fn is_wanted(state: ReaderView, line: Seq<char>) -> bool {
    ||| text::contains_text(line, "\"type\":\"turn_context\""@)
    ||| !state.saw_session_meta && text::contains_text(line, "\"type\":\"session_meta\""@)
    ||| state.replay_gate is Some && text::contains_text(line, "\"type\":\"task_started\""@)
    ||| text::contains_text(line, "\"type\":\"thread_settings_applied\""@)
    ||| text::contains_text(line, "\"type\":\"token_count\""@)
}

/// The step that a line takes: none where it does not matter or is no JSON.
pub open spec fn line_step(state: ReaderView, line: Seq<char>) -> (ReaderView, Option<EventView>) {
    if is_wanted(state, line) {
        match json::json_from_text(line) {
            Some(object) => record_step(state, object, record_instant(object)),
            None => (state, None),
        }
    } else {
        (state, None)
    }
}

/// What is known after the lines, and the uses that they record.
pub open spec fn lines_read(lines: Seq<Seq<char>>) -> (ReaderView, Seq<EventView>)
    decreases lines.len(),
{
    if lines.len() == 0 {
        (nothing_read(), Seq::empty())
    } else {
        let (before, events) = lines_read(lines.drop_last());
        let (after, event) = line_step(before, lines.last());
        match event {
            Some(inner) => (after, events.push(inner)),
            None => (after, events),
        }
    }
}

/// What is known of a log after some of its lines.
pub struct UsageReader {
    pub current_model: Option<String>,
    pub tier_is_fast: bool,
    pub previous_totals: Option<RawUsage>,
    pub saw_session_meta: bool,
    pub replay_gate: Option<ChildReplayGate>,
}

impl View for UsageReader {
    type V = ReaderView;

    open spec fn view(&self) -> ReaderView {
        ReaderView {
            current_model: text::string_view(self.current_model),
            tier_is_fast: self.tier_is_fast,
            previous_totals: self.previous_totals,
            saw_session_meta: self.saw_session_meta,
            replay_gate: self.replay_gate,
        }
    }
}

/// What an optional token event holds.
pub open spec fn event_view(event: Option<TokenEvent>) -> Option<EventView> {
    match event {
        Some(inner) => Some(inner@),
        None => None,
    }
}

/// Whether two optional counts are equal.
fn same_usage(left: RawUsage, right: Option<RawUsage>) -> (same: bool)
    ensures
        same == (right == Some(left)),
{
    match right {
        Some(inner) => inner == left,
        None => false,
    }
}

impl UsageReader {
    /// A reader before the first line.
    pub fn new() -> (reader: UsageReader)
        ensures
            reader@ == nothing_read(),
    {
        UsageReader {
            current_model: None,
            tier_is_fast: false,
            previous_totals: None,
            saw_session_meta: false,
            replay_gate: None,
        }
    }

    /// Takes in a count record, written at `instant`.
    pub fn read_count(&mut self, payload: &Json, instant: Timestamp) -> (event: Option<TokenEvent>)
        ensures
            (final(self)@, event_view(event)) == count_step(old(self)@, payload@, instant),
    {
        let info = payload.get("info");
        let totals: Option<RawUsage> = match get_of(info, "total_token_usage") {
            Some(value) => Some(RawUsage::from_value(value)),
            None => None,
        };
        if self.replay_gate.is_some() {
            if totals.is_some() {
                self.previous_totals = totals;
            }
            return None;
        }
        if let Some(inner) = totals {
            if same_usage(inner, self.previous_totals) {
                return None;
            }
        }
        let usage = match get_of(info, "last_token_usage") {
            Some(last) => RawUsage::from_value(last),
            None => match totals {
                Some(inner) => inner.subtracting(self.previous_totals),
                None => {
                    return None;
                },
            },
        };
        if totals.is_some() {
            self.previous_totals = totals;
        }
        if usage.input == 0 && usage.cached == 0 && usage.output == 0 && usage.reasoning == 0 {
            return None;
        }
        let named = model_name(Some(payload));
        let parsed = if named.is_some() {
            named
        } else {
            model_name(info)
        };
        let model = resolve_model(parsed, &mut self.current_model);
        Some(
            TokenEvent {
                timestamp: instant,
                model,
                input: usage.input,
                cached: if usage.cached <= usage.input {
                    usage.cached
                } else {
                    usage.input
                },
                output: usage.output,
                reasoning: usage.reasoning,
                total: usage.total,
                is_fast: self.tier_is_fast,
            },
        )
    }

    /// Takes in an event record.
    pub fn read_event(&mut self, payload: &Json, stamp: Option<Timestamp>) -> (event: Option<
        TokenEvent,
    >)
        ensures
            (final(self)@, event_view(event)) == event_step(old(self)@, payload@, stamp),
    {
        let kind = text_of_json(payload.get("type"));
        if text_is(kind, "thread_settings_applied") {
            if let Some(tier) = service_tier(payload) {
                self.tier_is_fast = text::same_text(tier.as_str(), "fast") || text::same_text(
                    tier.as_str(),
                    "priority",
                );
            }
            return None;
        }
        if text_is(kind, "task_started") {
            if let Some(gate) = self.replay_gate {
                if gate.is_cleared(payload, stamp) {
                    self.replay_gate = None;
                }
            }
            return None;
        }
        if text_is(kind, "token_count") {
            match stamp {
                Some(instant) => self.read_count(payload, instant),
                None => None,
            }
        } else {
            None
        }
    }

    /// Takes in a record, `stamp` being the instant that it states.
    pub fn read_record(&mut self, object: &Json, stamp: Option<Timestamp>) -> (event: Option<
        TokenEvent,
    >)
        ensures
            (final(self)@, event_view(event)) == record_step(old(self)@, object@, stamp),
    {
        let kind = text_of_json(object.get("type"));
        let payload = object.get("payload");
        if text_is(kind, "turn_context") {
            if let Some(model) = model_name(payload) {
                self.current_model = Some(model);
            }
            return None;
        }
        if text_is(kind, "session_meta") && !self.saw_session_meta {
            self.saw_session_meta = true;
            if let Some(inner) = payload {
                if is_child_session_meta(inner) {
                    self.replay_gate = match stamp {
                        Some(instant) => Some(ChildReplayGate::UntilStartedAt(instant.secs)),
                        None => Some(ChildReplayGate::UntilSelfTimedTaskStarted),
                    };
                }
            }
            return None;
        }
        match payload {
            Some(inner) => if text_is(kind, "event_msg") {
                self.read_event(inner, stamp)
            } else {
                None
            },
            None => None,
        }
    }

    /// Whether a line looks like a record that matters.
    fn wants(&self, line: &str) -> (wanted: bool)
        ensures
            wanted == is_wanted(self@, line@),
    {
        let chars = text::characters(line);
        text::holds(&chars, "\"type\":\"turn_context\"") || (!self.saw_session_meta && text::holds(
            &chars,
            "\"type\":\"session_meta\"",
        )) || (self.replay_gate.is_some() && text::holds(&chars, "\"type\":\"task_started\""))
            || text::holds(&chars, "\"type\":\"thread_settings_applied\"") || text::holds(
            &chars,
            "\"type\":\"token_count\"",
        )
    }

    /// Takes in a line.
    pub fn read_line(&mut self, line: &str) -> (event: Option<TokenEvent>)
        ensures
            (final(self)@, event_view(event)) == line_step(old(self)@, line@),
            (final(self)@, event_view(event)) == line_step(
                old(self)@,
                text::without_return(line@),
            ),
            event matches Some(inner) ==> inner.timestamp.valid(),
    {
        proof {
            usage_laws::lemma_wanted_before_return(self@, line@);
        }
        if !self.wants(line) {
            return None;
        }
        match Json::from_text(line) {
            Some(object) => {
                let stamp = match text_of_json(object.get("timestamp")) {
                    Some(inner) => parse_log_timestamp(text::trim(inner).as_str()),
                    None => None,
                };
                self.read_record(&object, stamp)
            },
            None => None,
        }
    }
}

/// The uses that a session log records.
pub open spec fn uses_in(content: Seq<char>) -> Seq<EventView> {
    lines_read(text::lines_of(content)).1
}

/// A log that goes on behind a line feed.
pub open spec fn continued(content: Seq<char>, more: Seq<char>) -> Seq<char> {
    content + seq!['\n'] + more
}

/// The uses that a session log records. However the log goes on behind a line feed, it starts with
/// the same uses; and where its lines count by growing totals alone, they add up to the last totals.
pub fn parse_jsonl(content: &str) -> (events: Vec<TokenEvent>)
    ensures
        event_views(events@) == uses_in(content@),
        forall|more: Seq<char>|
            event_views(events@).is_prefix_of(uses_in(#[trigger] continued(content@, more))),
        forall|i: int| 0 <= i < events@.len() ==> (#[trigger] events@[i]).timestamp.valid(),
        usage_laws::cumulative(no_usage(), text::lines_of(content@)) ==> ({
            let last = usage_laws::last_totals(no_usage(), text::lines_of(content@));
            usage_laws::tokens_recorded(event_views(events@)) == (
                last.input as int,
                last.output as int,
                last.reasoning as int,
            )
        }),
{
    let lines = text::lines(content);
    let ghost all = text::lines_of(content@);
    let mut reader = UsageReader::new();
    let mut events: Vec<TokenEvent> = Vec::new();
    let mut i: usize = 0;
    assert(event_views(events@) =~= Seq::<EventView>::empty());
    while i < lines.len()
        invariant
            text::texts(lines@) == all,
            i <= lines@.len(),
            reader@ == lines_read(all.take(i as int)).0,
            event_views(events@) == lines_read(all.take(i as int)).1,
            forall|k: int| 0 <= k < events@.len() ==> (#[trigger] events@[k]).timestamp.valid(),
            i > 0 ==> line_step(lines_read(all.take(i - 1)).0, all[i - 1]) == line_step(
                lines_read(all.take(i - 1)).0,
                text::without_return(all[i - 1]),
            ),
        decreases lines@.len() - i,
    {
        let ghost before = event_views(events@);
        proof {
            assert(all.take(i + 1).drop_last() =~= all.take(i as int));
            assert(all[i as int] == lines@[i as int]@);
        }
        if let Some(event) = reader.read_line(lines[i].as_str()) {
            events.push(event);
            assert(event_views(events@) =~= before.push(event@));
        }
        i += 1;
    }
    assert(all.take(all.len() as int) =~= all);
    proof {
        assert(all.len() > 0 ==> all.take(all.len() - 1) =~= all.drop_last());
        assert forall|more: Seq<char>| event_views(events@).is_prefix_of(
            uses_in(#[trigger] continued(content@, more)),
        ) by {
            usage_laws::lemma_log_goes_on(content@, more);
        }
        if usage_laws::cumulative(no_usage(), text::lines_of(content@)) {
            usage_laws::cumulative_totals_add_up(content@);
        }
    }
    events
}

} // verus!
