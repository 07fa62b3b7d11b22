//! What each kind of line in a session log comes to.
use vstd::prelude::*;

use crate::json::JsonView;
use crate::time::Timestamp;
use crate::usage::{ChildReplayGate, EventView, RawUsage, ReaderView};
use crate::{json, text, time, usage};

verus! {

/// The unsigned integer that is written under a name.
pub open spec fn written(value: JsonView, name: Seq<char>) -> Option<u64> {
    json::u64_in(json::member(value, name))
}

/// The first of three integers that is there, or zero.
pub open spec fn first_of_three(a: Option<u64>, b: Option<u64>, c: Option<u64>) -> u64 {
    match (a, b, c) {
        (Some(n), _, _) => n,
        (None, Some(n), _) => n,
        (None, None, Some(n)) => n,
        (None, None, None) => 0,
    }
}

/// The input tokens that a usage record states.
pub open spec fn input_written(value: JsonView) -> u64 {
    first_of_three(
        written(value, "input_tokens"@),
        written(value, "prompt_tokens"@),
        written(value, "input"@),
    )
}

/// The cached input tokens that a usage record states.
pub open spec fn cached_written(value: JsonView) -> u64 {
    first_of_three(
        written(value, "cached_input_tokens"@),
        written(value, "cache_read_input_tokens"@),
        written(value, "cached_tokens"@),
    )
}

/// The output tokens that a usage record states.
pub open spec fn output_written(value: JsonView) -> u64 {
    first_of_three(
        written(value, "output_tokens"@),
        written(value, "completion_tokens"@),
        written(value, "output"@),
    )
}

/// The reasoning tokens that a usage record states.
pub open spec fn reasoning_written(value: JsonView) -> u64 {
    first_of_three(
        written(value, "reasoning_output_tokens"@),
        written(value, "reasoning_tokens"@),
        None,
    )
}

/// Whether `total` is the total that a usage record states, or, where it states none, the sum of
/// its counts as far as the sum is a 64-bit number.
pub open spec fn is_total_of(value: JsonView, total: u64) -> bool {
    match written(value, "total_tokens"@) {
        Some(stated) if stated > 0 => total == stated,
        _ => {
            let sum = input_written(value) + output_written(value) + reasoning_written(value);
            sum <= u64::MAX ==> total == sum
        },
    }
}

/// Each count of a usage record is read under its own names, in this order, and is zero where none
/// of them has a number.
pub proof fn counts_are_read_under_these_names(value: JsonView)
    ensures
        usage::raw_usage(value).input == input_written(value),
        usage::raw_usage(value).cached == cached_written(value),
        usage::raw_usage(value).output == output_written(value),
        usage::raw_usage(value).reasoning == reasoning_written(value),
        is_total_of(value, usage::raw_usage(value).total),
{
    reveal_with_fuel(usage::integer_at, 4);
    let inputs = seq!["input_tokens", "prompt_tokens", "input"];
    assert(inputs.drop_first() =~= seq!["prompt_tokens", "input"]);
    assert(inputs.drop_first().drop_first() =~= seq!["input"]);
    let caches = seq!["cached_input_tokens", "cache_read_input_tokens", "cached_tokens"];
    assert(caches.drop_first() =~= seq!["cache_read_input_tokens", "cached_tokens"]);
    assert(caches.drop_first().drop_first() =~= seq!["cached_tokens"]);
    let outputs = seq!["output_tokens", "completion_tokens", "output"];
    assert(outputs.drop_first() =~= seq!["completion_tokens", "output"]);
    assert(outputs.drop_first().drop_first() =~= seq!["output"]);
    let reasonings = seq!["reasoning_output_tokens", "reasoning_tokens"];
    assert(reasonings.drop_first() =~= seq!["reasoning_tokens"]);
}

/// The text under a name without the blanks around it, where anything is left of it.
pub open spec fn text_at(value: Option<JsonView>, name: Seq<char>) -> Option<Seq<char>> {
    match json::text_in(json::member_of(value, name)) {
        Some(inner) if text::trimmed(inner).len() > 0 => Some(text::trimmed(inner)),
        _ => None,
    }
}

/// Whether `model` is the model that a record names: under `model`, else under `model_name`, else
/// under `model` in its metadata.
pub open spec fn names_model(value: Option<JsonView>, model: Seq<char>) -> bool {
    ||| text_at(value, "model"@) == Some(model)
    ||| text_at(value, "model"@) is None && text_at(value, "model_name"@) == Some(model)
    ||| text_at(value, "model"@) is None && text_at(value, "model_name"@) is None && text_at(
        json::member_of(value, "metadata"@),
        "model"@,
    ) == Some(model)
}

/// Whether a record names no model.
pub open spec fn names_no_model(value: Option<JsonView>) -> bool {
    &&& text_at(value, "model"@) is None
    &&& text_at(value, "model_name"@) is None
    &&& text_at(json::member_of(value, "metadata"@), "model"@) is None
}

/// Whether a use counts under the right model: the one that its record names, else the one that
/// the information in it names, else the one in force, else `gpt-5`.
pub open spec fn is_model_of(payload: JsonView, current: Option<Seq<char>>, model: Seq<char>) -> bool {
    let info = json::member(payload, "info"@);
    ||| names_model(Some(payload), model)
    ||| names_no_model(Some(payload)) && names_model(info, model)
    ||| names_no_model(Some(payload)) && names_no_model(info) && current == Some(model)
    ||| names_no_model(Some(payload)) && names_no_model(info) && current is None && model
        == "gpt-5"@
}

/// Whether a line holds a record of that kind, with that payload.
pub open spec fn is_record(
    line: Seq<char>,
    object: JsonView,
    kind: Seq<char>,
    payload: JsonView,
) -> bool {
    &&& json::json_from_text(line) == Some(object)
    &&& json::text_in(json::member(object, "type"@)) == Some(kind)
    &&& json::member(object, "payload"@) == Some(payload)
}

/// Whether a record was written at that instant, as far as it says so.
pub open spec fn is_written_at(object: JsonView, stamp: Option<Timestamp>) -> bool {
    match json::text_in(json::member(object, "timestamp"@)) {
        Some(inner) => stamp == time::log_instant(text::trimmed(inner)),
        None => stamp is None,
    }
}

/// Whether a line holds a count of tokens that was made at an instant.
pub open spec fn is_count(
    line: Seq<char>,
    object: JsonView,
    payload: JsonView,
    instant: Timestamp,
) -> bool {
    &&& text::contains_text(line, "\"type\":\"token_count\""@)
    &&& is_record(line, object, "event_msg"@, payload)
    &&& json::text_in(json::member(payload, "type"@)) == Some("token_count"@)
    &&& is_written_at(object, Some(instant))
}

/// The usage under a name in the information of a count record.
pub open spec fn usage_at(payload: JsonView, name: Seq<char>) -> Option<JsonView> {
    json::member_of(json::member(payload, "info"@), name)
}

/// The names of kinds of records differ.
proof fn lemma_kinds_differ()
    ensures
        "event_msg"@ != "turn_context"@,
        "event_msg"@ != "session_meta"@,
        "turn_context"@ != "session_meta"@,
        "token_count"@ != "thread_settings_applied"@,
        "token_count"@ != "task_started"@,
        "task_started"@ != "thread_settings_applied"@,
{
    reveal_strlit("event_msg");
    reveal_strlit("turn_context");
    reveal_strlit("session_meta");
    reveal_strlit("token_count");
    reveal_strlit("task_started");
    reveal_strlit("thread_settings_applied");
    assert("event_msg"@.len() == 9 && "turn_context"@.len() == 12 && "session_meta"@.len() == 12);
    assert("turn_context"@[0] == 't' && "session_meta"@[0] == 's');
    assert("token_count"@.len() == 11 && "task_started"@.len() == 12);
    assert("thread_settings_applied"@.len() == 23);
}

/// What one more line comes to.
proof fn lemma_one_more_line(first: Seq<Seq<char>>, line: Seq<char>)
    ensures
        ({
            let (before, earlier) = usage::lines_read(first);
            let (after, event) = usage::line_step(before, line);
            usage::lines_read(first.push(line)) == (
                after,
                match event {
                    Some(inner) => earlier.push(inner),
                    None => earlier,
                },
            )
        }),
{
    assert(first.push(line).drop_last() =~= first);
}

/// What the line of a count comes to.
proof fn lemma_count_line(
    state: ReaderView,
    line: Seq<char>,
    object: JsonView,
    payload: JsonView,
    instant: Timestamp,
)
    requires
        is_count(line, object, payload, instant),
    ensures
        usage::line_step(state, line) == usage::count_step(state, payload, instant),
{
    lemma_kinds_differ();
}

/// A count record outside a repetition that states a last usage records that usage, whatever
/// totals it states beside it, so long as they are not the totals known already. The use is the
/// counts written under `last_token_usage`, at the instant of the record, under the model in force
/// and on the tier in force.
pub proof fn a_stated_last_usage_is_recorded(
    first: Seq<Seq<char>>,
    line: Seq<char>,
    object: JsonView,
    payload: JsonView,
    instant: Timestamp,
)
    requires
        usage::lines_read(first).0.replay_gate is None,
        is_count(line, object, payload, instant),
        usage_at(payload, "last_token_usage"@) is Some,
        usage_at(payload, "total_token_usage"@) matches Some(totals) ==> Some(
            usage::raw_usage(totals),
        ) != usage::lines_read(first).0.previous_totals,
    ensures
        ({
            let (before, earlier) = usage::lines_read(first);
            let (after, events) = usage::lines_read(first.push(line));
            let last = usage_at(payload, "last_token_usage"@)->0;
            let is_empty = input_written(last) == 0 && cached_written(last) == 0 && output_written(
                last,
            ) == 0 && reasoning_written(last) == 0;
            &&& is_empty ==> events == earlier && after.current_model == before.current_model
            &&& !is_empty ==> {
                let event = events.last();
                &&& events == earlier.push(event)
                &&& event.input == input_written(last)
                &&& event.output == output_written(last)
                &&& event.reasoning == reasoning_written(last)
                &&& is_total_of(last, event.total)
                &&& event.cached <= event.input
                &&& cached_written(last) <= event.input ==> event.cached == cached_written(last)
                &&& cached_written(last) > event.input ==> event.cached == event.input
                &&& event.timestamp == instant
                &&& event.is_fast == before.tier_is_fast
                &&& is_model_of(payload, before.current_model, event.model)
                &&& after.current_model == Some(event.model)
            }
            &&& after.tier_is_fast == before.tier_is_fast
            &&& after.replay_gate is None
            &&& after.saw_session_meta == before.saw_session_meta
            &&& match usage_at(payload, "total_token_usage"@) {
                Some(totals) => after.previous_totals == Some(usage::raw_usage(totals)),
                None => after.previous_totals == before.previous_totals,
            }
        }),
{
    let (before, earlier) = usage::lines_read(first);
    let last = usage_at(payload, "last_token_usage"@)->0;
    lemma_one_more_line(first, line);
    lemma_count_line(before, line, object, payload, instant);
    counts_are_read_under_these_names(last);
    lemma_model(payload, before.current_model);
    let step = usage::count_step(before, payload, instant);
    if let Some(event) = step.1 {
        assert(earlier.push(event).last() == event);
    }
}

/// The model that a count resolves to is the right one.
proof fn lemma_model(payload: JsonView, current: Option<Seq<char>>)
    ensures
        is_model_of(
            payload,
            current,
            usage::model_resolved(
                usage::first_of(
                    usage::model_named(Some(payload)),
                    usage::model_named(json::member(payload, "info"@)),
                ),
                current,
            ),
        ),
{
}

/// How much a count grew, where it grew.
pub open spec fn growth(now: u64, known: u64) -> int {
    if now > known {
        now - known
    } else {
        0
    }
}

/// A count record outside a repetition that states totals alone records what each count grew by
/// since the totals known before, which are then those of the record.
pub proof fn totals_alone_record_their_growth(
    first: Seq<Seq<char>>,
    line: Seq<char>,
    object: JsonView,
    payload: JsonView,
    instant: Timestamp,
)
    requires
        usage::lines_read(first).0.replay_gate is None,
        is_count(line, object, payload, instant),
        usage_at(payload, "last_token_usage"@) is None,
        usage_at(payload, "total_token_usage"@) is Some,
    ensures
        ({
            let (before, earlier) = usage::lines_read(first);
            let (after, events) = usage::lines_read(first.push(line));
            let totals = usage_at(payload, "total_token_usage"@)->0;
            let known = match before.previous_totals {
                Some(inner) => inner,
                None => RawUsage { input: 0, cached: 0, output: 0, reasoning: 0, total: 0 },
            };
            let input = growth(input_written(totals), known.input);
            let cached = growth(cached_written(totals), known.cached);
            let output = growth(output_written(totals), known.output);
            let reasoning = growth(reasoning_written(totals), known.reasoning);
            &&& input == 0 && cached == 0 && output == 0 && reasoning == 0 ==> events == earlier
            &&& input > 0 || cached > 0 || output > 0 || reasoning > 0 ==> {
                let event = events.last();
                &&& events == earlier.push(event)
                &&& event.input == input
                &&& event.output == output
                &&& event.reasoning == reasoning
                &&& event.total == growth(after.previous_totals->0.total, known.total)
                &&& cached <= input ==> event.cached == cached
                &&& cached > input ==> event.cached == input
                &&& event.timestamp == instant
                &&& event.is_fast == before.tier_is_fast
                &&& is_model_of(payload, before.current_model, event.model)
                &&& after.current_model == Some(event.model)
            }
            &&& after.previous_totals matches Some(now) && now.input == input_written(totals)
                && now.cached == cached_written(totals) && now.output == output_written(totals)
                && now.reasoning == reasoning_written(totals) && is_total_of(totals, now.total)
            &&& after.tier_is_fast == before.tier_is_fast
            &&& after.replay_gate is None
            &&& after.saw_session_meta == before.saw_session_meta
        }),
{
    let (before, earlier) = usage::lines_read(first);
    let totals = usage_at(payload, "total_token_usage"@)->0;
    lemma_one_more_line(first, line);
    lemma_count_line(before, line, object, payload, instant);
    counts_are_read_under_these_names(totals);
    lemma_model(payload, before.current_model);
    if let Some(event) = usage::count_step(before, payload, instant).1 {
        assert(earlier.push(event).last() == event);
    }
}

/// A count record whose totals are those known already, or which states neither totals nor a last
/// usage, changes nothing; and neither does one without an instant.
pub proof fn a_count_without_news_changes_nothing(
    first: Seq<Seq<char>>,
    line: Seq<char>,
    object: JsonView,
    payload: JsonView,
)
    requires
        usage::lines_read(first).0.replay_gate is None,
        is_record(line, object, "event_msg"@, payload),
        json::text_in(json::member(payload, "type"@)) == Some("token_count"@),
        ({
            let totals = usage_at(payload, "total_token_usage"@);
            ||| totals is Some && Some(usage::raw_usage(totals->0)) == usage::lines_read(
                first,
            ).0.previous_totals
            ||| totals is None && usage_at(payload, "last_token_usage"@) is None
            ||| is_written_at(object, None)
        }),
    ensures
        usage::lines_read(first.push(line)) == usage::lines_read(first),
{
    lemma_one_more_line(first, line);
    lemma_kinds_differ();
}

/// While a child session repeats its parent, a count records nothing, and its totals are those that
/// later ones are measured against.
pub proof fn a_repeated_count_sets_the_baseline(
    first: Seq<Seq<char>>,
    line: Seq<char>,
    object: JsonView,
    payload: JsonView,
    instant: Timestamp,
)
    requires
        usage::lines_read(first).0.replay_gate is Some,
        is_count(line, object, payload, instant),
    ensures
        ({
            let (before, earlier) = usage::lines_read(first);
            let (after, events) = usage::lines_read(first.push(line));
            &&& events == earlier
            &&& after == (ReaderView { previous_totals: after.previous_totals, ..before })
            &&& match usage_at(payload, "total_token_usage"@) {
                Some(totals) => after.previous_totals matches Some(now) && now.input
                    == input_written(totals) && now.cached == cached_written(totals) && now.output
                    == output_written(totals) && now.reasoning == reasoning_written(totals)
                    && is_total_of(totals, now.total),
                None => after.previous_totals == before.previous_totals,
            }
        }),
{
    lemma_one_more_line(first, line);
    lemma_count_line(usage::lines_read(first).0, line, object, payload, instant);
    if let Some(totals) = usage_at(payload, "total_token_usage"@) {
        counts_are_read_under_these_names(totals);
    }
}

/// Settings choose the tier: uses after them are fast where the service tier of the thread
/// settings, or else that of the record, is `fast` or `priority`, and are not where it is any other
/// one. Settings that name no tier leave it, and settings change nothing else.
pub proof fn settings_choose_the_tier(
    first: Seq<Seq<char>>,
    line: Seq<char>,
    object: JsonView,
    payload: JsonView,
)
    requires
        text::contains_text(line, "\"type\":\"thread_settings_applied\""@),
        is_record(line, object, "event_msg"@, payload),
        json::text_in(json::member(payload, "type"@)) == Some("thread_settings_applied"@),
    ensures
        ({
            let (before, earlier) = usage::lines_read(first);
            let (after, events) = usage::lines_read(first.push(line));
            let nested = text_at(json::member(payload, "thread_settings"@), "service_tier"@);
            let own = text_at(Some(payload), "service_tier"@);
            &&& events == earlier
            &&& after == (ReaderView { tier_is_fast: after.tier_is_fast, ..before })
            &&& nested matches Some(tier) ==> after.tier_is_fast == (tier == "fast"@ || tier
                == "priority"@)
            &&& nested is None ==> (own matches Some(tier) ==> after.tier_is_fast == (tier
                == "fast"@ || tier == "priority"@))
            &&& nested is None && own is None ==> after.tier_is_fast == before.tier_is_fast
        }),
{
    lemma_one_more_line(first, line);
    lemma_kinds_differ();
}

/// The context of a turn puts the model that it names in force, and changes nothing else.
pub proof fn a_turn_puts_its_model_in_force(
    first: Seq<Seq<char>>,
    line: Seq<char>,
    object: JsonView,
)
    requires
        text::contains_text(line, "\"type\":\"turn_context\""@),
        json::json_from_text(line) == Some(object),
        json::text_in(json::member(object, "type"@)) == Some("turn_context"@),
    ensures
        ({
            let (before, earlier) = usage::lines_read(first);
            let (after, events) = usage::lines_read(first.push(line));
            let payload = json::member(object, "payload"@);
            &&& events == earlier
            &&& after == (ReaderView { current_model: after.current_model, ..before })
            &&& names_no_model(payload) ==> after.current_model == before.current_model
            &&& !names_no_model(payload) ==> (after.current_model matches Some(model)
                && names_model(payload, model))
        }),
{
    lemma_one_more_line(first, line);
    lemma_kinds_differ();
}

/// Whether a member is there that is neither null nor a blank text.
pub open spec fn is_given(value: Option<JsonView>, name: Seq<char>) -> bool {
    match json::member_of(value, name) {
        Some(JsonView::Null) => false,
        Some(JsonView::Text(inner)) => text::trimmed(inner).len() > 0,
        Some(_) => true,
        None => false,
    }
}

/// Whether metadata say that a session continues another one.
pub open spec fn continues_another(payload: JsonView) -> bool {
    ||| is_given(Some(payload), "forked_from_id"@)
    ||| is_given(Some(payload), "parent_thread_id"@)
    ||| json::text_in(json::member(payload, "thread_source"@)) == Some("subagent"@)
    ||| is_given(json::member(payload, "source"@), "subagent"@)
}

/// The first metadata of a log decide whether its lines repeat those of another session: they do
/// where the metadata say that it continues one, until a task that started at the second of the
/// metadata or later, or, where they have no instant, until one that started no earlier than its own
/// record was written. Later metadata change nothing.
pub proof fn the_first_metadata_decide_on_repetition(
    first: Seq<Seq<char>>,
    line: Seq<char>,
    object: JsonView,
    payload: JsonView,
    stamp: Option<Timestamp>,
)
    requires
        text::contains_text(line, "\"type\":\"session_meta\""@),
        is_record(line, object, "session_meta"@, payload),
        is_written_at(object, stamp),
    ensures
        ({
            let (before, earlier) = usage::lines_read(first);
            let (after, events) = usage::lines_read(first.push(line));
            &&& events == earlier
            &&& before.saw_session_meta ==> after == before
            &&& !before.saw_session_meta ==> {
                &&& after == (ReaderView {
                    saw_session_meta: true,
                    replay_gate: after.replay_gate,
                    ..before
                })
                &&& !continues_another(payload) ==> after.replay_gate == before.replay_gate
                &&& continues_another(payload) ==> match stamp {
                    Some(instant) => after.replay_gate == Some(
                        ChildReplayGate::UntilStartedAt(instant.secs),
                    ),
                    None => after.replay_gate == Some(ChildReplayGate::UntilSelfTimedTaskStarted),
                }
            }
        }),
{
    lemma_one_more_line(first, line);
    lemma_kinds_differ();
}

/// A task ends the repetition where it started at the second that is waited for or later, that
/// second being fixed or that of the record itself; and the start of a task changes nothing else.
/// Where nothing is repeated, it changes nothing at all.
pub proof fn a_task_ends_the_repetition(
    first: Seq<Seq<char>>,
    line: Seq<char>,
    object: JsonView,
    payload: JsonView,
    stamp: Option<Timestamp>,
)
    requires
        text::contains_text(line, "\"type\":\"task_started\""@),
        is_record(line, object, "event_msg"@, payload),
        json::text_in(json::member(payload, "type"@)) == Some("task_started"@),
        is_written_at(object, stamp),
    ensures
        ({
            let (before, earlier) = usage::lines_read(first);
            let (after, events) = usage::lines_read(first.push(line));
            let started = json::number_in(json::member(payload, "started_at"@));
            let awaited = match before.replay_gate {
                Some(ChildReplayGate::UntilStartedAt(second)) => Some(second as int),
                Some(ChildReplayGate::UntilSelfTimedTaskStarted) => match stamp {
                    Some(instant) => Some(instant.secs as int),
                    None => None,
                },
                None => None,
            };
            let ends = started is Some && awaited is Some && json::number_at_least(
                started->0,
                awaited->0,
            );
            &&& events == earlier
            &&& after == (ReaderView {
                replay_gate: if ends {
                    None
                } else {
                    before.replay_gate
                },
                ..before
            })
        }),
{
    lemma_one_more_line(first, line);
    lemma_kinds_differ();
}

/// A line that is no JSON, or that holds none of the kinds of records that matter, changes nothing.
pub proof fn other_lines_change_nothing(first: Seq<Seq<char>>, line: Seq<char>)
    requires
        match json::json_from_text(line) {
            None => true,
            Some(object) => {
                let kind = json::text_in(json::member(object, "type"@));
                let inner = json::text_in(
                    json::member_of(json::member(object, "payload"@), "type"@),
                );
                &&& kind != Some("turn_context"@) && kind != Some("session_meta"@)
                &&& kind == Some("event_msg"@) ==> inner != Some("token_count"@) && inner != Some(
                    "task_started"@,
                ) && inner != Some("thread_settings_applied"@)
            },
        },
    ensures
        usage::lines_read(first.push(line)) == usage::lines_read(first),
{
    lemma_one_more_line(first, line);
}

/// Before its first line nothing is known of a log, and no line is repeated.
pub proof fn an_empty_log_records_nothing()
    ensures
        ({
            let (state, events) = usage::lines_read(Seq::empty());
            &&& events.len() == 0
            &&& state.current_model is None && state.previous_totals is None
            &&& !state.tier_is_fast && !state.saw_session_meta && state.replay_gate is None
        }),
        usage::uses_in(Seq::empty()).len() == 0,
{
    let none = Seq::<char>::empty();
    assert(text::lines_of(none) =~= Seq::<Seq<char>>::empty());
}

/// The uses of a log are those of its lines, one after another: where the log goes on with one more
/// line, the uses are those of the lines up to it, that line being read without the carriage return
/// that ends it.
pub proof fn a_log_is_read_line_by_line(content: Seq<char>, line: Seq<char>)
    requires
        content.len() == 0 || content.last() == '\n',
        forall|i: int| 0 <= i < line.len() ==> #[trigger] line[i] != '\n',
    ensures
        usage::uses_in(content) == usage::lines_read(text::lines_of(content)).1,
        usage::uses_in(content + line.push('\n')) == usage::lines_read(
            text::lines_of(content).push(text::without_return(line)),
        ).1,
        line.len() > 0 ==> usage::uses_in(content + line) == usage::lines_read(
            text::lines_of(content).push(line),
        ).1,
{
    crate::text_laws::a_line_ends_at_a_line_feed(content, line);
}

/// An instant of a log is the instant that its text states, to the millisecond.
pub proof fn log_instants_are_cut_to_milliseconds(written: Seq<char>)
    ensures
        time::log_instant(written) is Some == time::rfc3339_instant(written) is Some,
        time::log_instant(written) matches Some(instant) ==> {
            let (secs, nanos) = time::rfc3339_instant(written)->0;
            &&& instant.secs == secs
            &&& instant.nanos <= nanos < instant.nanos + 1_000_000
            &&& instant.nanos % 1_000_000 == 0
        },
{
}

} // verus!
