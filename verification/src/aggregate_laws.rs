//! Which uses of the logs of a machine count.
use vstd::prelude::*;

use crate::aggregate;
use crate::aggregate::{DatedView, EntryView};
use crate::error;
use crate::error::{CodexError, LogCacheFault};
use crate::pricing::CostQuote;
use crate::text;
use crate::usage::EventView;

verus! {

/// Whether two records agree in all that tells uses apart: the instant, the model and the counts.
pub open spec fn agree(left: EventView, right: EventView) -> bool {
    &&& left.timestamp == right.timestamp
    &&& left.model == right.model
    &&& left.input == right.input
    &&& left.cached == right.cached
    &&& left.output == right.output
    &&& left.reasoning == right.reasoning
    &&& left.total == right.total
}

/// The uses that count out of logs, seen from a day.
pub open spec fn uses_counted(logs: Seq<Seq<DatedView>>, today: int) -> Seq<DatedView> {
    aggregate::counted(
        aggregate::all_recent(logs, aggregate::scan_start(today)),
        aggregate::window_start(today),
    )
}

/// Whether the calendar goes back thirty days from a day.
pub open spec fn has_past(today: int) -> bool {
    today - 30 >= -96_465_292
}

/// Whether there is a record at that place of that log.
pub open spec fn is_record(logs: Seq<Seq<DatedView>>, log: int, at: int) -> bool {
    0 <= log < logs.len() && 0 <= at < logs[log].len()
}

/// Whether one record stands before another: in an earlier log, or earlier in the same log.
pub open spec fn stands_before(log: int, at: int, later_log: int, later: int) -> bool {
    log < later_log || (log == later_log && at < later)
}

/// Whether the use at a place was recorded before within the thirty days.
pub open spec fn is_recorded_before(
    logs: Seq<Seq<DatedView>>,
    today: int,
    log: int,
    at: int,
) -> bool {
    exists|l: int, r: int|
        is_record(logs, l, r) && stands_before(l, r, log, at) && (#[trigger] logs[l][r]).day
            >= today - 30 && agree(logs[l][r].event, logs[log][at].event)
}

/// The days that count begin thirty days before today. Where the calendar does not go back that far,
/// uses count from today, and logs are read from its first day.
pub proof fn thirty_days_count(today: int)
    requires
        today >= -96_465_292,
    ensures
        has_past(today) ==> aggregate::scan_start(today) == today - 30 && aggregate::window_start(
            today,
        ) == today - 30,
        !has_past(today) ==> aggregate::scan_start(today) == -96_465_292 && aggregate::window_start(
            today,
        ) == today,
{
}

/// Whether a recent record is one that stands before `at` in its log.
spec fn is_among_first(log: Seq<DatedView>, since: int, at: int, one: DatedView) -> bool {
    exists|r: int| 0 <= r < at && #[trigger] log[r] == one && log[r].day >= since
}

/// Whether a recent record is one that stands before another of the logs.
pub open spec fn is_among_earlier(
    logs: Seq<Seq<DatedView>>,
    since: int,
    log: int,
    at: int,
    one: DatedView,
) -> bool {
    exists|l: int, r: int|
        is_record(logs, l, r) && stands_before(l, r, log, at) && #[trigger] logs[l][r] == one
            && logs[l][r].day >= since
}

/// Where a record of a log stands among its recent records.
proof fn lemma_recent_place(log: Seq<DatedView>, since: int, at: int) -> (place: int)
    requires
        0 <= at < log.len(),
        log[at].day >= since,
    ensures
        0 <= place < aggregate::recent(log, since).len(),
        aggregate::recent(log, since)[place] == log[at],
        forall|q: int|
            0 <= q < place ==> is_among_first(
                log,
                since,
                at,
                #[trigger] aggregate::recent(log, since)[q],
            ),
    decreases log.len(),
{
    reveal(Seq::filter);
    let before = log.drop_last();
    let known = aggregate::recent(before, since);
    if at < before.len() {
        let place = lemma_recent_place(before, since, at);
        assert forall|q: int| 0 <= q < place implies is_among_first(
            log,
            since,
            at,
            #[trigger] aggregate::recent(log, since)[q],
        ) by {
            assert(is_among_first(before, since, at, known[q]));
            let r = choose|r: int|
                0 <= r < at && #[trigger] before[r] == known[q] && before[r].day >= since;
            assert(log[r] == before[r]);
        }
        place
    } else {
        let place = known.len() as int;
        assert forall|q: int| 0 <= q < place implies is_among_first(
            log,
            since,
            at,
            #[trigger] aggregate::recent(log, since)[q],
        ) by {
            let r = lemma_recent_origin(before, since, q);
            assert(log[r] == before[r]);
        }
        place
    }
}

/// Which record of a log a recent record is.
proof fn lemma_recent_origin(log: Seq<DatedView>, since: int, place: int) -> (at: int)
    requires
        0 <= place < aggregate::recent(log, since).len(),
    ensures
        0 <= at < log.len(),
        log[at] == aggregate::recent(log, since)[place],
        log[at].day >= since,
    decreases log.len(),
{
    reveal(Seq::filter);
    let before = log.drop_last();
    let known = aggregate::recent(before, since);
    if place < known.len() {
        let at = lemma_recent_origin(before, since, place);
        assert(before[at] == log[at]);
        at
    } else {
        log.len() - 1
    }
}

/// Which record a recent record of several logs is.
pub proof fn lemma_all_recent_origin(logs: Seq<Seq<DatedView>>, since: int, place: int) -> (found: (
    int,
    int,
))
    requires
        0 <= place < aggregate::all_recent(logs, since).len(),
    ensures
        is_record(logs, found.0, found.1),
        logs[found.0][found.1] == aggregate::all_recent(logs, since)[place],
        logs[found.0][found.1].day >= since,
    decreases logs.len(),
{
    let before = logs.drop_last();
    let known = aggregate::all_recent(before, since);
    if place < known.len() {
        let (log, at) = lemma_all_recent_origin(before, since, place);
        assert(before[log] == logs[log]);
        (log, at)
    } else {
        let at = lemma_recent_origin(logs.last(), since, place - known.len());
        (logs.len() - 1, at)
    }
}

/// Where a record stands among the recent records of several logs.
pub proof fn lemma_all_recent_place(logs: Seq<Seq<DatedView>>, since: int, log: int, at: int) -> (place:
    int)
    requires
        is_record(logs, log, at),
        logs[log][at].day >= since,
    ensures
        0 <= place < aggregate::all_recent(logs, since).len(),
        aggregate::all_recent(logs, since)[place] == logs[log][at],
        forall|q: int|
            0 <= q < place ==> is_among_earlier(
                logs,
                since,
                log,
                at,
                #[trigger] aggregate::all_recent(logs, since)[q],
            ),
    decreases logs.len(),
{
    let before = logs.drop_last();
    let known = aggregate::all_recent(before, since);
    let all = aggregate::all_recent(logs, since);
    if log < before.len() {
        assert(before[log] == logs[log]);
        let place = lemma_all_recent_place(before, since, log, at);
        assert forall|q: int| 0 <= q < place implies is_among_earlier(
            logs,
            since,
            log,
            at,
            #[trigger] all[q],
        ) by {
            assert(is_among_earlier(before, since, log, at, known[q]));
            let (l, r) = choose|l: int, r: int|
                is_record(before, l, r) && stands_before(l, r, log, at) && #[trigger] before[l][r]
                    == known[q] && before[l][r].day >= since;
            assert(before[l] == logs[l]);
            assert(logs[l][r] == all[q]);
        }
        place
    } else {
        let inner = lemma_recent_place(logs.last(), since, at);
        let place = known.len() + inner;
        assert forall|q: int| 0 <= q < place implies is_among_earlier(
            logs,
            since,
            log,
            at,
            #[trigger] all[q],
        ) by {
            if q < known.len() {
                let (l, r) = lemma_all_recent_origin(before, since, q);
                assert(before[l] == logs[l]);
                assert(logs[l][r] == all[q]);
            } else {
                let one = aggregate::recent(logs.last(), since)[q - known.len()];
                assert(is_among_first(logs.last(), since, at, one));
                let r = choose|r: int|
                    0 <= r < at && #[trigger] logs.last()[r] == one && logs.last()[r].day >= since;
                assert(logs[log][r] == all[q]);
            }
        }
        place
    }
}

/// Whether no earlier record is of the same use.
pub open spec fn is_first_record(events: Seq<DatedView>, at: int) -> bool {
    forall|i: int| 0 <= i < at ==> !agree((#[trigger] events[i]).event, events[at].event)
}

/// A first record counts.
pub proof fn lemma_first_counts(events: Seq<DatedView>, since: int, at: int)
    requires
        0 <= at < events.len(),
        events[at].day >= since,
        forall|i: int| 0 <= i < at ==> !agree((#[trigger] events[i]).event, events[at].event),
    ensures
        aggregate::counted(events, since).contains(events[at]),
    decreases events.len(),
{
    let before = events.drop_last();
    let out = aggregate::counted(events, since);
    if at < before.len() {
        assert(before[at] == events[at]);
        assert forall|i: int| 0 <= i < at implies !agree(
            (#[trigger] before[i]).event,
            before[at].event,
        ) by {
            assert(before[i] == events[i]);
        }
        lemma_first_counts(before, since, at);
        let known = aggregate::counted(before, since);
        let k = choose|k: int| 0 <= k < known.len() && known[k] == events[at];
        assert(out[k] == events[at]);
    } else {
        if aggregate::is_repeat(events, at) {
            let i = choose|i: int|
                0 <= i < at && aggregate::same_use(
                    (#[trigger] events[i]).event,
                    events[at].event,
                );
            assert(agree(events[i].event, events[at].event));
        }
        assert(out[out.len() - 1] == events[at]);
    }
}

/// Some record of every use counts.
proof fn lemma_some_record_counts(events: Seq<DatedView>, since: int, at: int)
    requires
        0 <= at < events.len(),
        forall|i: int| 0 <= i <= at ==> (#[trigger] events[i]).day >= since,
    ensures
        exists|k: int|
            0 <= k < aggregate::counted(events, since).len() && agree(
                (#[trigger] aggregate::counted(events, since)[k]).event,
                events[at].event,
            ),
    decreases at,
{
    let out = aggregate::counted(events, since);
    if exists|i: int| 0 <= i < at && agree((#[trigger] events[i]).event, events[at].event) {
        let i = choose|i: int|
            0 <= i < at && agree((#[trigger] events[i]).event, events[at].event);
        lemma_some_record_counts(events, since, i);
        let k = choose|k: int|
            0 <= k < out.len() && agree((#[trigger] out[k]).event, events[i].event);
        assert(agree(out[k].event, events[at].event));
    } else {
        lemma_first_counts(events, since, at);
        let k = choose|k: int| 0 <= k < out.len() && out[k] == events[at];
        assert(agree(out[k].event, events[at].event));
    }
}

/// No use of the last thirty days is lost: for every record of a log whose day is at most thirty
/// days back, a record of its use counts; and the record itself does, where no earlier one in that
/// time is of the same use.
pub proof fn no_recent_use_is_lost(logs: Seq<Seq<DatedView>>, today: int, log: int, at: int)
    requires
        has_past(today),
        is_record(logs, log, at),
        logs[log][at].day >= today - 30,
    ensures
        exists|k: int|
            0 <= k < uses_counted(logs, today).len() && agree(
                (#[trigger] uses_counted(logs, today)[k]).event,
                logs[log][at].event,
            ),
        !is_recorded_before(logs, today, log, at) ==> uses_counted(logs, today).contains(
            logs[log][at],
        ),
{
    let since = today - 30;
    let events = aggregate::all_recent(logs, since);
    let place = lemma_all_recent_place(logs, since, log, at);
    assert forall|i: int| 0 <= i <= place implies (#[trigger] events[i]).day >= since by {
        let (l, r) = lemma_all_recent_origin(logs, since, i);
        assert(logs[l][r].day >= since);
    }
    lemma_some_record_counts(events, since, place);
    let out = uses_counted(logs, today);
    assert(out == aggregate::counted(events, since));
    let k = choose|k: int|
        0 <= k < out.len() && agree((#[trigger] out[k]).event, events[place].event);
    assert(agree(uses_counted(logs, today)[k].event, logs[log][at].event));
    if !is_recorded_before(logs, today, log, at) {
        assert forall|i: int| 0 <= i < place implies !agree(
            (#[trigger] events[i]).event,
            events[place].event,
        ) by {
            assert(is_among_earlier(logs, since, log, at, events[i]));
            let (l, r) = choose|l: int, r: int|
                is_record(logs, l, r) && stands_before(l, r, log, at) && #[trigger] logs[l][r]
                    == events[i] && logs[l][r].day >= since;
            assert(logs[l][r].day >= today - 30);
        }
        lemma_first_counts(events, since, place);
    }
}

/// A record that counts is one of those that were given.
pub proof fn lemma_counted_place(events: Seq<DatedView>, since: int, k: int) -> (at: int)
    requires
        0 <= k < aggregate::counted(events, since).len(),
    ensures
        0 <= at < events.len(),
        events[at] == aggregate::counted(events, since)[k],
        events[at].day >= since,
        forall|i: int| 0 <= i < at ==> !agree((#[trigger] events[i]).event, events[at].event),
    decreases events.len(),
{
    let before = events.drop_last();
    let known = aggregate::counted(before, since);
    if k < known.len() {
        let at = lemma_counted_place(before, since, k);
        assert(before[at] == events[at]);
        assert forall|i: int| 0 <= i < at implies !agree(
            (#[trigger] events[i]).event,
            events[at].event,
        ) by {
            assert(before[i] == events[i]);
        }
        at
    } else {
        let at = events.len() - 1;
        assert forall|i: int| 0 <= i < at implies !agree(
            (#[trigger] events[i]).event,
            events[at].event,
        ) by {
            if agree(events[i].event, events[at].event) {
                assert(aggregate::same_use(events[i].event, events[at].event));
            }
        }
        at
    }
}

/// Nothing else counts: every use that counts is a record of one of the logs, unchanged, from one of
/// the last thirty days.
pub proof fn only_recent_records_count(logs: Seq<Seq<DatedView>>, today: int, k: int)
    requires
        has_past(today),
        0 <= k < uses_counted(logs, today).len(),
    ensures
        exists|l: int, r: int|
            is_record(logs, l, r) && #[trigger] logs[l][r] == uses_counted(logs, today)[k],
        uses_counted(logs, today)[k].day >= today - 30,
{
    let events = aggregate::all_recent(logs, today - 30);
    let place = lemma_counted_place(events, today - 30, k);
    let (l, r) = lemma_all_recent_origin(logs, today - 30, place);
    assert(logs[l][r] == uses_counted(logs, today)[k]);
}

/// Every use counts once: no two that count agree.
pub proof fn every_use_counts_once(logs: Seq<Seq<DatedView>>, today: int, i: int, j: int)
    requires
        0 <= i < j < uses_counted(logs, today).len(),
    ensures
        !agree(uses_counted(logs, today)[i].event, uses_counted(logs, today)[j].event),
{
    let events = aggregate::all_recent(logs, aggregate::scan_start(today));
    let since = aggregate::window_start(today);
    aggregate::no_use_counts_twice(events, since);
    let left = uses_counted(logs, today)[i].event;
    let right = uses_counted(logs, today)[j].event;
    if agree(left, right) {
        assert(aggregate::same_use(left, right));
    }
}

/// Uses count in the order in which they are read: one more record at the end of the last log leaves
/// those before it as they were and, if it counts, comes behind them; and an empty log adds none.
pub proof fn uses_count_in_the_order_of_their_records(
    logs: Seq<Seq<DatedView>>,
    log: Seq<DatedView>,
    one: DatedView,
    today: int,
)
    ensures
        uses_counted(logs.push(log.push(one)), today) == uses_counted(logs.push(log), today)
            || uses_counted(logs.push(log.push(one)), today) == uses_counted(
            logs.push(log),
            today,
        ).push(one),
        uses_counted(logs.push(Seq::empty()), today) == uses_counted(logs, today),
        uses_counted(Seq::empty(), today).len() == 0,
{
    let since = aggregate::scan_start(today);
    let shorter = logs.push(log);
    let longer = logs.push(log.push(one));
    let empty = logs.push(Seq::empty());
    assert(shorter.drop_last() =~= logs);
    assert(longer.drop_last() =~= logs);
    assert(empty.drop_last() =~= logs);
    assert(log.push(one).drop_last() =~= log);
    reveal(Seq::filter);
    let known = aggregate::all_recent(shorter, since);
    let all = aggregate::all_recent(longer, since);
    if one.day >= since {
        assert(all =~= known.push(one));
        assert(all.drop_last() =~= known);
    } else {
        assert(all =~= known);
    }
    assert(aggregate::all_recent(empty, since) =~= aggregate::all_recent(logs, since));
}

/// A use enters the history of its day with its total: under its model name without the blanks
/// around it and with its price, where it has one; else as a use without a known price, unless it
/// has no tokens.
pub proof fn a_use_enters_the_history_of_its_day(use_: DatedView, quote: Option<CostQuote>)
    ensures
        ({
            let entry = aggregate::entry_of(use_, quote);
            &&& quote is Some ==> (entry matches Some(
                EntryView::Priced { day, total, quote: price, model },
            ) && day == use_.day && total == use_.event.total && price == quote->0 && model
                == text::trimmed(use_.event.model))
            &&& quote is None && use_.event.total > 0 ==> (entry matches Some(
                EntryView::Unpriced { day, model },
            ) && day == use_.day && model == use_.event.model)
            &&& quote is None && use_.event.total == 0 ==> entry is None
        }),
{
}

/// The note on the source of a history tells of pi exactly where usage recorded by it was found.
pub proof fn the_note_tells_of_pi(scan: Result<bool, CodexError>)
    ensures
        aggregate::note_on_source(aggregate::found_pi(scan)) == (match scan {
            Ok(true) => "From your Codex logs and pi (estimated)"@,
            _ => "From your Codex logs (estimated)"@,
        }),
{
}

/// Where logs that are kept cannot be loaded or stored, the database is the reason; where they
/// cannot be put into their form, the history is.
pub proof fn faults_of_kept_logs_have_these_reasons(fault: LogCacheFault)
    ensures
        fault == LogCacheFault::Storage ==> error::error_for(fault) == CodexError::Storage,
        fault == LogCacheFault::Encode ==> error::error_for(fault) == CodexError::LocalUsage,
{
}

} // verus!
