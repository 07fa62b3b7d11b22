//! What holds of every session log.
use vstd::prelude::*;

use crate::json::JsonView;
use crate::time::Timestamp;
use crate::usage::{EventView, RawUsage, ReaderView};
use crate::{json, text, usage};

verus! {

/// The totals that a count record states.
pub open spec fn stated_totals(payload: JsonView) -> Option<RawUsage> {
    match json::member_of(json::member(payload, "info"@), "total_token_usage"@) {
        Some(value) => Some(usage::raw_usage(value)),
        None => None,
    }
}

/// The last usage that a count record states.
pub open spec fn stated_last(payload: JsonView) -> Option<JsonView> {
    json::member_of(json::member(payload, "info"@), "last_token_usage"@)
}

/// While a child session repeats its parent, no line of it records a use.
pub proof fn replayed_lines_record_nothing(state: ReaderView, line: Seq<char>)
    requires
        state.replay_gate is Some,
    ensures
        usage::line_step(state, line).1 is None,
{
}

/// While a child session repeats its parent, the totals of a count record become the totals that
/// later ones are measured against, and nothing else changes.
pub proof fn replayed_totals_become_the_baseline(
    state: ReaderView,
    payload: JsonView,
    instant: Timestamp,
)
    requires
        state.replay_gate is Some,
        stated_totals(payload) is Some,
    ensures
        usage::count_step(state, payload, instant) == (
            ReaderView { previous_totals: stated_totals(payload), ..state },
            None::<EventView>,
        ),
{
}

/// A count record whose totals are there is counted at most once in a row, however often and
/// whenever it is written.
pub proof fn unchanged_totals_are_not_counted_twice(
    state: ReaderView,
    payload: JsonView,
    first: Timestamp,
    second: Timestamp,
)
    requires
        stated_totals(payload) is Some,
    ensures
        ({
            let after = usage::count_step(state, payload, first).0;
            usage::count_step(after, payload, second) == (after, None::<EventView>)
        }),
{
}

/// The input, output and reasoning counts of the uses recorded.
pub open spec fn tokens_recorded(events: Seq<EventView>) -> (int, int, int)
    decreases events.len(),
{
    if events.len() == 0 {
        (0, 0, 0)
    } else {
        let (input, output, reasoning) = tokens_recorded(events.drop_last());
        let event = events.last();
        (input + event.input, output + event.output, reasoning + event.reasoning)
    }
}

/// Whether none of the input, output and reasoning counts goes down from `before` to `after`.
pub open spec fn grows(before: RawUsage, after: RawUsage) -> bool {
    &&& before.input <= after.input
    &&& before.output <= after.output
    &&& before.reasoning <= after.reasoning
}

/// The counts that the next totals are measured against.
pub open spec fn baseline(state: ReaderView) -> RawUsage {
    match state.previous_totals {
        Some(totals) => totals,
        None => usage::no_usage(),
    }
}

/// Whether a line is read whatever is known of the log.
pub open spec fn is_always_read(line: Seq<char>) -> bool {
    ||| text::contains_text(line, "\"type\":\"turn_context\""@)
    ||| text::contains_text(line, "\"type\":\"thread_settings_applied\""@)
    ||| text::contains_text(line, "\"type\":\"token_count\""@)
}

/// Whether a line is passed over whatever is known of the log.
pub open spec fn is_never_read(line: Seq<char>) -> bool {
    &&& !is_always_read(line)
    &&& !text::contains_text(line, "\"type\":\"session_meta\""@)
    &&& !text::contains_text(line, "\"type\":\"task_started\""@)
}

/// The payload of a record that counts tokens at an instant.
pub open spec fn count_in(object: JsonView) -> Option<JsonView> {
    let payload = json::member(object, "payload"@);
    if json::text_in(json::member(object, "type"@)) == Some("event_msg"@) && json::text_in(
        json::member_of(payload, "type"@),
    ) == Some("token_count"@) && usage::record_instant(object) is Some {
        payload
    } else {
        None
    }
}

/// Whether a record starts a session that continues another one.
pub open spec fn starts_child(object: JsonView) -> bool {
    &&& json::text_in(json::member(object, "type"@)) == Some("session_meta"@)
    &&& json::member(object, "payload"@) matches Some(payload) && usage::is_child(payload)
}

/// The totals of a line that is read and counts by its totals alone.
pub open spec fn totals_in(line: Seq<char>) -> Option<RawUsage> {
    match json::json_from_text(line) {
        Some(object) => match count_in(object) {
            Some(payload) => if is_always_read(line) && stated_last(payload) is None {
                stated_totals(payload)
            } else {
                None
            },
            None => None,
        },
        None => None,
    }
}

/// Whether a line counts nothing and starts no session that continues another one.
pub open spec fn leaves_counts(line: Seq<char>) -> bool {
    ||| is_never_read(line)
    ||| match json::json_from_text(line) {
        Some(object) => count_in(object) is None && !starts_child(object),
        None => true,
    }
}

/// The last totals that the lines state, or those before them.
pub open spec fn last_totals(base: RawUsage, lines: Seq<Seq<char>>) -> RawUsage
    decreases lines.len(),
{
    if lines.len() == 0 {
        base
    } else {
        match totals_in(lines.last()) {
            Some(totals) => totals,
            None => last_totals(base, lines.drop_last()),
        }
    }
}

/// Whether the lines that count do so by totals alone, each no lower than those before it.
pub open spec fn cumulative(base: RawUsage, lines: Seq<Seq<char>>) -> bool
    decreases lines.len(),
{
    if lines.len() == 0 {
        true
    } else {
        &&& cumulative(base, lines.drop_last())
        &&& match totals_in(lines.last()) {
            Some(totals) => grows(last_totals(base, lines.drop_last()), totals),
            None => leaves_counts(lines.last()),
        }
    }
}

/// One count record that states grown totals alone: the use recorded, if any, is what they grew by.
proof fn lemma_one_delta(state: ReaderView, payload: JsonView, instant: Timestamp)
    requires
        state.replay_gate is None,
        stated_last(payload) is None,
        stated_totals(payload) is Some,
        grows(baseline(state), stated_totals(payload)->0),
    ensures
        ({
            let (after, event) = usage::count_step(state, payload, instant);
            let totals = stated_totals(payload)->0;
            let base = baseline(state);
            &&& after.previous_totals == Some(totals)
            &&& after.replay_gate is None
            &&& match event {
                Some(inner) => {
                    &&& inner.input == totals.input - base.input
                    &&& inner.output == totals.output - base.output
                    &&& inner.reasoning == totals.reasoning - base.reasoning
                },
                None => {
                    &&& totals.input == base.input
                    &&& totals.output == base.output
                    &&& totals.reasoning == base.reasoning
                },
            }
        }),
{
}

/// One line of a log that counts by totals alone: the use recorded, if any, is what they grew by.
proof fn lemma_one_line(state: ReaderView, line: Seq<char>)
    requires
        state.replay_gate is None,
        totals_in(line) matches Some(totals) ==> grows(baseline(state), totals),
        totals_in(line) is None ==> leaves_counts(line),
    ensures
        ({
            let (after, event) = usage::line_step(state, line);
            let base = baseline(state);
            let totals = match totals_in(line) {
                Some(inner) => inner,
                None => base,
            };
            &&& after.replay_gate is None
            &&& baseline(after) == totals
            &&& match event {
                Some(inner) => {
                    &&& inner.input == totals.input - base.input
                    &&& inner.output == totals.output - base.output
                    &&& inner.reasoning == totals.reasoning - base.reasoning
                },
                None => {
                    &&& totals.input == base.input
                    &&& totals.output == base.output
                    &&& totals.reasoning == base.reasoning
                },
            }
        }),
{
    reveal_strlit("event_msg");
    reveal_strlit("session_meta");
    reveal_strlit("turn_context");
    reveal_strlit("token_count");
    reveal_strlit("task_started");
    reveal_strlit("thread_settings_applied");
    assert("event_msg"@.len() == 9 && "session_meta"@.len() == 12 && "turn_context"@.len() == 12);
    assert("token_count"@.len() == 11 && "task_started"@.len() == 12);
    assert("thread_settings_applied"@.len() == 23);
    if let Some(object) = json::json_from_text(line) {
        if let Some(totals) = totals_in(line) {
            let payload = count_in(object)->0;
            let instant = usage::record_instant(object)->0;
            lemma_one_delta(state, payload, instant);
            assert(usage::line_step(state, line) == usage::count_step(state, payload, instant));
        }
    }
}

/// Reading on, once nothing is repeated any more: where the further lines count by growing totals
/// alone, the uses that they record add up to what the last totals exceed the baseline by.
pub proof fn later_totals_add_up(first: Seq<Seq<char>>, more: Seq<Seq<char>>)
    requires
        usage::lines_read(first).0.replay_gate is None,
        cumulative(baseline(usage::lines_read(first).0), more),
    ensures
        ({
            let (before, earlier) = usage::lines_read(first);
            let (after, events) = usage::lines_read(first + more);
            let base = baseline(before);
            let last = last_totals(base, more);
            &&& after.replay_gate is None
            &&& baseline(after) == last
            &&& tokens_recorded(events) == (
                tokens_recorded(earlier).0 + last.input - base.input,
                tokens_recorded(earlier).1 + last.output - base.output,
                tokens_recorded(earlier).2 + last.reasoning - base.reasoning,
            )
        }),
    decreases more.len(),
{
    if more.len() == 0 {
        assert(first + more =~= first);
    } else {
        later_totals_add_up(first, more.drop_last());
        assert((first + more).drop_last() =~= first + more.drop_last());
        let (reached, events) = usage::lines_read(first + more.drop_last());
        let line = more.last();
        lemma_one_line(reached, line);
        if let Some(inner) = usage::line_step(reached, line).1 {
            assert(events.push(inner).drop_last() =~= events);
        }
    }
}

/// Cumulative totals become deltas: where the lines of a log count by growing totals alone, the
/// uses that the log records add up to the last totals, whenever each was written and whatever
/// other lines stand between them.
pub proof fn cumulative_totals_add_up(content: Seq<char>)
    requires
        cumulative(usage::no_usage(), text::lines_of(content)),
    ensures
        ({
            let last = last_totals(usage::no_usage(), text::lines_of(content));
            tokens_recorded(usage::uses_in(content)) == (
                last.input as int,
                last.output as int,
                last.reasoning as int,
            )
        }),
        text::lines_of(content).len() > 0 && totals_in(last_line(content)) is Some
            ==> tokens_recorded(usage::uses_in(content)) == (
            totals_in(last_line(content))->0.input as int,
            totals_in(last_line(content))->0.output as int,
            totals_in(last_line(content))->0.reasoning as int,
        ),
{
    let none = Seq::<Seq<char>>::empty();
    let lines = text::lines_of(content);
    assert(none + lines =~= lines);
    later_totals_add_up(none, lines);
}

/// The use that one line records has no more cached than input tokens and names a model.
proof fn lemma_one_use(state: ReaderView, line: Seq<char>)
    requires
        state.current_model matches Some(model) ==> model.len() > 0,
    ensures
        usage::line_step(state, line).1 matches Some(event) ==> event.cached <= event.input
            && event.model.len() > 0,
        usage::line_step(state, line).0.current_model matches Some(model) ==> model.len() > 0,
{
    reveal_strlit("gpt-5");
}

/// The uses that a log records: none has more cached than input tokens, and each names a model.
pub proof fn every_use_is_well_formed(lines: Seq<Seq<char>>)
    ensures
        forall|i: int|
            0 <= i < usage::lines_read(lines).1.len() ==> {
                let event = #[trigger] usage::lines_read(lines).1[i];
                event.cached <= event.input && event.model.len() > 0
            },
        usage::lines_read(lines).0.current_model matches Some(model) ==> model.len() > 0,
    decreases lines.len(),
{
    if lines.len() > 0 {
        let (before, events) = usage::lines_read(lines.drop_last());
        every_use_is_well_formed(lines.drop_last());
        lemma_one_use(before, lines.last());
        let recorded = usage::lines_read(lines).1;
        assert forall|i: int| 0 <= i < recorded.len() implies {
            let event = #[trigger] recorded[i];
            event.cached <= event.input && event.model.len() > 0
        } by {
            if i < events.len() {
                assert(recorded[i] == events[i]);
            }
        }
    }
}

/// Reading on: what the further lines record follows what the first lines recorded.
pub proof fn reading_on_keeps_what_was_read(first: Seq<Seq<char>>, more: Seq<Seq<char>>)
    ensures
        usage::lines_read(first).1.is_prefix_of(usage::lines_read(first + more).1),
    decreases more.len(),
{
    if more.len() == 0 {
        assert(first + more =~= first);
    } else {
        reading_on_keeps_what_was_read(first, more.drop_last());
        assert((first + more).drop_last() =~= first + more.drop_last());
    }
}

/// The pieces of a text that ends in the separator and of the text that follows it.
proof fn lemma_split_after(head: Seq<char>, tail: Seq<char>, separator: char)
    requires
        head.len() == 0 || head.last() == separator,
    ensures
        text::split_at_each(head + tail, separator) == text::split_at_each(
            head,
            separator,
        ).drop_last() + text::split_at_each(tail, separator),
        text::split_at_each(tail, separator).len() > 0,
        text::split_at_each(head, separator).len() > 0,
    decreases tail.len(),
{
    text::lemma_split_nonempty(head, separator);
    text::lemma_split_nonempty(tail, separator);
    let pieces = text::split_at_each(head, separator);
    if tail.len() == 0 {
        assert(head + tail =~= head);
        assert(pieces.last() == Seq::<char>::empty());
        assert(pieces =~= pieces.drop_last().push(Seq::empty()));
        assert(pieces =~= pieces.drop_last() + text::split_at_each(tail, separator));
    } else {
        lemma_split_after(head, tail.drop_last(), separator);
        assert((head + tail).drop_last() =~= head + tail.drop_last());
        assert((head + tail).last() == tail.last());
        let before = text::split_at_each(tail.drop_last(), separator);
        text::lemma_split_nonempty(tail.drop_last(), separator);
        assert((pieces.drop_last() + before).drop_last() =~= pieces.drop_last()
            + before.drop_last());
        assert(text::split_at_each(head + tail, separator) =~= pieces.drop_last()
            + text::split_at_each(tail, separator));
    }
}

/// The lines of a text that ends in a line feed, and of the text that follows it.
proof fn lemma_lines_after(head: Seq<char>, tail: Seq<char>)
    requires
        head.len() == 0 || head.last() == '\n',
    ensures
        text::lines_of(head + tail) == text::lines_of(head) + text::lines_of(tail),
{
    lemma_split_after(head, tail, '\n');
    let first = text::split_at_each(head, '\n');
    let second = text::split_at_each(tail, '\n');
    assert(first.last() == Seq::<char>::empty());
    assert((first.drop_last() + second).drop_last() =~= first.drop_last() + second.drop_last());
    assert(text::lines_of(head + tail) =~= text::lines_of(head) + text::lines_of(tail));
}

/// A log that grows by whole lines keeps the uses that it recorded.
pub proof fn a_growing_log_keeps_its_uses(content: Seq<char>, more: Seq<char>)
    requires
        content.len() == 0 || content.last() == '\n',
    ensures
        usage::uses_in(content).is_prefix_of(usage::uses_in(content + more)),
{
    lemma_lines_after(content, more);
    reading_on_keeps_what_was_read(text::lines_of(content), text::lines_of(more));
}

/// The last line of a text that is not empty.
pub open spec fn last_line(content: Seq<char>) -> Seq<char> {
    text::lines_of(content).last()
}

/// What is known of a log before its last line.
pub open spec fn known_before_last_line(content: Seq<char>) -> ReaderView {
    usage::lines_read(text::lines_of(content).drop_last()).0
}

/// Whether the last line takes the same step without the carriage return that may end it.
pub open spec fn last_line_needs_no_return(content: Seq<char>) -> bool {
    text::lines_of(content).len() > 0 ==> usage::line_step(
        known_before_last_line(content),
        last_line(content),
    ) == usage::line_step(
        known_before_last_line(content),
        text::without_return(last_line(content)),
    )
}

/// The lines of a text that a line feed is put behind: its lines, the last of them without the
/// carriage return that ends it, or one more empty line.
proof fn lemma_lines_ended(content: Seq<char>)
    ensures
        ({
            let lines = text::lines_of(content);
            let ended = text::lines_of(content.push('\n'));
            ||| ended == lines.push(Seq::empty())
            ||| lines.len() > 0 && content.last() == lines.last().last() && ended
                == lines.drop_last().push(text::without_return(lines.last()))
        }),
{
    text::lemma_split_nonempty(content, '\n');
    let pieces = text::split_at_each(content, '\n');
    let lines = text::lines_of(content);
    let whole = content.push('\n');
    assert(whole.drop_last() =~= content);
    assert(text::split_at_each(whole, '\n') == pieces.push(Seq::empty()));
    assert(pieces.push(Seq::<char>::empty()).drop_last() =~= pieces);
    let stripped = pieces.map_values(|line: Seq<char>| text::without_return(line));
    assert(text::lines_of(whole) =~= stripped);
    if pieces.last().len() == 0 {
        assert(stripped =~= lines.push(Seq::empty()));
    } else {
        assert(lines.drop_last() =~= pieces.drop_last().map_values(
            |line: Seq<char>| text::without_return(line),
        ));
        assert(stripped =~= lines.drop_last().push(text::without_return(lines.last())));
        assert(content.last() == pieces.last().last());
    }
}

/// A log that goes on behind a line feed keeps the uses that it recorded, where its last line takes
/// the same step without the carriage return that may end it.
pub proof fn lemma_log_goes_on(content: Seq<char>, more: Seq<char>)
    requires
        last_line_needs_no_return(content),
    ensures
        usage::uses_in(content).is_prefix_of(usage::uses_in(usage::continued(content, more))),
{
    let lines = text::lines_of(content);
    let whole = content.push('\n');
    let ended = text::lines_of(whole);
    lemma_lines_ended(content);
    lemma_lines_after(whole, more);
    assert(whole + more =~= usage::continued(content, more));
    reading_on_keeps_what_was_read(ended, text::lines_of(more));
    if ended == lines.push(Seq::empty()) {
        assert(lines.push(Seq::<char>::empty()) =~= lines + seq![Seq::<char>::empty()]);
        reading_on_keeps_what_was_read(lines, seq![Seq::<char>::empty()]);
    } else {
        assert(ended.drop_last() =~= lines.drop_last());
        assert(usage::lines_read(ended).1 == usage::lines_read(lines).1);
    }
}

/// A log whose last line is still open keeps the uses that it recorded when it goes on behind a line
/// feed, where that line does not end in a carriage return.
pub proof fn a_log_with_an_open_line_keeps_its_uses(content: Seq<char>, more: Seq<char>)
    requires
        content.len() > 0 ==> content.last() != '\r',
    ensures
        usage::uses_in(content).is_prefix_of(usage::uses_in(usage::continued(content, more))),
{
    lemma_lines_ended(content);
    let lines = text::lines_of(content);
    let whole = content.push('\n');
    if text::lines_of(whole) == lines.push(Seq::empty()) {
        lemma_lines_after(whole, more);
        assert(whole + more =~= usage::continued(content, more));
        assert(lines.push(Seq::<char>::empty()) + text::lines_of(more) =~= lines + (
        seq![Seq::<char>::empty()] + text::lines_of(more)));
        reading_on_keeps_what_was_read(lines, seq![Seq::<char>::empty()] + text::lines_of(more));
    } else {
        lemma_log_goes_on(content, more);
    }
}

/// A carriage return at the end of a line does not decide whether a text stands in it that does not
/// end in one.
proof fn lemma_contains_before_return(line: Seq<char>, needle: Seq<char>)
    requires
        line.len() > 0,
        line.last() == '\r',
        needle.len() > 0,
        needle.last() != '\r',
    ensures
        text::contains_text(line, needle) == text::contains_text(line.drop_last(), needle),
{
    let short = line.drop_last();
    if text::contains_text(line, needle) {
        let at = choose|at: int| text::occurs_at(line, needle, at);
        let end = at + needle.len();
        assert(line.subrange(at, end)[needle.len() - 1] == line[end - 1]);
        assert(end <= short.len());
        assert(short.subrange(at, end) =~= line.subrange(at, end));
        assert(text::occurs_at(short, needle, at));
    }
    if text::contains_text(short, needle) {
        let at = choose|at: int| text::occurs_at(short, needle, at);
        assert(short.subrange(at, at + needle.len()) =~= line.subrange(at, at + needle.len()));
        assert(text::occurs_at(line, needle, at));
    }
}

/// A carriage return at the end of a line does not decide whether the line matters.
pub proof fn lemma_wanted_before_return(state: ReaderView, line: Seq<char>)
    ensures
        usage::is_wanted(state, line) == usage::is_wanted(state, text::without_return(line)),
{
    if line.len() > 0 && line.last() == '\r' {
        reveal_strlit("\"type\":\"turn_context\"");
        reveal_strlit("\"type\":\"session_meta\"");
        reveal_strlit("\"type\":\"task_started\"");
        reveal_strlit("\"type\":\"thread_settings_applied\"");
        reveal_strlit("\"type\":\"token_count\"");
        lemma_contains_before_return(line, "\"type\":\"turn_context\""@);
        lemma_contains_before_return(line, "\"type\":\"session_meta\""@);
        lemma_contains_before_return(line, "\"type\":\"task_started\""@);
        lemma_contains_before_return(line, "\"type\":\"thread_settings_applied\""@);
        lemma_contains_before_return(line, "\"type\":\"token_count\""@);
    }
}

} // verus!
