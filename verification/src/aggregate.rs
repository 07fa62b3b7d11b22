//! Which uses of a month of logs count, and how each counts.
use std::collections::HashMap;

use vstd::prelude::*;

use crate::aggregate_laws;
use crate::error::CodexError;
use crate::pricing::CostQuote;
use crate::text;
use crate::usage::{EventView, TokenEvent};

verus! {

/// A use, with its calendar day in the time zone of the machine. Days are counted from 1970-01-01.
#[derive(Debug)]
pub struct DatedEvent {
    pub day: i64,
    pub event: TokenEvent,
}

/// What a dated use holds.
pub struct DatedView {
    pub day: i64,
    pub event: EventView,
}

impl View for DatedEvent {
    type V = DatedView;

    open spec fn view(&self) -> DatedView {
        DatedView { day: self.day, event: self.event@ }
    }
}

/// What a list of dated uses holds.
pub open spec fn dated_views(events: Seq<DatedEvent>) -> Seq<DatedView> {
    events.map_values(|event: DatedEvent| event@)
}

/// The first day of the calendar.
pub const FIRST_DAY: i64 = -96_465_292;

/// The version of the form in which read logs are kept. Logs kept in another form are read anew.
pub const LOG_CACHE_SCHEMA_VERSION: u8 = 3;

/// How many days before today still count.
pub const WINDOW_DAYS: i64 = 30;

/// The day from which uses count, seen from `today`. Where the calendar does not go back that far,
/// today.
pub open spec fn window_start(today: int) -> int {
    if today - WINDOW_DAYS >= FIRST_DAY {
        today - WINDOW_DAYS
    } else {
        today
    }
}

/// The day from which logs are read, seen from `today`. Where the calendar does not go back that
/// far, its first day.
pub open spec fn scan_start(today: int) -> int {
    if today - WINDOW_DAYS >= FIRST_DAY {
        today - WINDOW_DAYS
    } else {
        FIRST_DAY as int
    }
}

/// The day from which uses count.
pub fn since_day(today: i64) -> (since: i64)
    requires
        today >= FIRST_DAY,
    ensures
        since == window_start(today as int),
{
    if today >= FIRST_DAY + WINDOW_DAYS {
        today - WINDOW_DAYS
    } else {
        today
    }
}

/// The day from which logs are read.
pub fn scan_since_day(today: i64) -> (since: i64)
    requires
        today >= FIRST_DAY,
    ensures
        since == scan_start(today as int),
{
    if today >= FIRST_DAY + WINDOW_DAYS {
        today - WINDOW_DAYS
    } else {
        FIRST_DAY
    }
}

/// Whether two records are of the same use: they agree in all but the tier.
pub open spec fn same_use(left: EventView, right: EventView) -> bool {
    EventView { is_fast: false, ..left } == EventView { is_fast: false, ..right }
}

/// Whether the use at `at` was recorded before.
pub open spec fn is_repeat(events: Seq<DatedView>, at: int) -> bool {
    exists|i: int| 0 <= i < at && same_use((#[trigger] events[i]).event, events[at].event)
}

/// The uses that count: each once, at its first record, and none before `since`.
pub open spec fn counted(events: Seq<DatedView>, since: int) -> Seq<DatedView>
    decreases events.len(),
{
    if events.len() == 0 {
        Seq::empty()
    } else {
        let before = counted(events.drop_last(), since);
        if is_repeat(events, events.len() - 1) || events.last().day < since {
            before
        } else {
            before.push(events.last())
        }
    }
}

/// The uses of a log from `since` on.
pub open spec fn recent(events: Seq<DatedView>, since: int) -> Seq<DatedView> {
    events.filter(|event: DatedView| event.day >= since)
}

/// The uses of several logs, one log after another.
pub open spec fn all_recent(logs: Seq<Seq<DatedView>>, since: int) -> Seq<DatedView>
    decreases logs.len(),
{
    if logs.len() == 0 {
        Seq::empty()
    } else {
        all_recent(logs.drop_last(), since) + recent(logs.last(), since)
    }
}

/// What a list of logs holds.
pub open spec fn log_views(logs: Seq<Vec<DatedEvent>>) -> Seq<Seq<DatedView>> {
    logs.map_values(|log: Vec<DatedEvent>| dated_views(log@))
}

/// Whether two records are of the same use.
fn records_same_use(left: &TokenEvent, right: &TokenEvent) -> (same: bool)
    ensures
        same == same_use(left@, right@),
{
    left.timestamp == right.timestamp && left.input == right.input && left.cached == right.cached
        && left.output == right.output && left.reasoning == right.reasoning && left.total
        == right.total && text::same_text(left.model.as_str(), right.model.as_str())
}

/// Whether one of the listed records is of the same use as `event`.
fn any_same_use(events: &Vec<DatedEvent>, places: &Vec<usize>, event: &TokenEvent) -> (any: bool)
    requires
        forall|i: int| 0 <= i < places@.len() ==> (#[trigger] places@[i]) < events@.len(),
    ensures
        any == exists|i: int|
            0 <= i < places@.len() && same_use(
                events@[(#[trigger] places@[i]) as int].event@,
                event@,
            ),
{
    let mut i: usize = 0;
    while i < places.len()
        invariant
            i <= places@.len(),
            forall|k: int| 0 <= k < places@.len() ==> (#[trigger] places@[k]) < events@.len(),
            forall|k: int|
                0 <= k < i ==> !same_use(events@[(#[trigger] places@[k]) as int].event@, event@),
        decreases places@.len() - i,
    {
        let place: usize = places[i];
        assert(place == places@[i as int]);
        if records_same_use(&events[place].event, event) {
            return true;
        }
        i += 1;
    }
    false
}

/// Whether the list of places under each second leads, for every record before `upto`, to a record
/// of the same use.
spec fn covers(places: Map<i64, Vec<usize>>, events: Seq<DatedEvent>, upto: int) -> bool {
    &&& forall|second: i64, i: int|
        places.contains_key(second) && 0 <= i < places[second]@.len() ==> (
        #[trigger] places[second]@[i]) < upto
    &&& forall|k: int|
        0 <= k < upto ==> leads(places, events, #[trigger] events[k].event@)
}

/// Whether the list of places under the second of a use leads to a record of that use.
spec fn leads(places: Map<i64, Vec<usize>>, events: Seq<DatedEvent>, event: EventView) -> bool {
    &&& places.contains_key(event.timestamp.secs)
    &&& exists|i: int|
        0 <= i < places[event.timestamp.secs]@.len() && same_use(
            events[(#[trigger] places[event.timestamp.secs]@[i]) as int].event@,
            event,
        )
}

/// The places after the record at `at` was looked up and, where it was new, added.
proof fn lemma_covers_one_more(
    before: Map<i64, Vec<usize>>,
    after: Map<i64, Vec<usize>>,
    events: Seq<DatedEvent>,
    at: usize,
    old_list: Seq<usize>,
    new_list: Vec<usize>,
    repeat: bool,
)
    requires
        at < events.len(),
        covers(before, events, at as int),
        after == before.insert(events[at as int].event@.timestamp.secs, new_list),
        before.contains_key(events[at as int].event@.timestamp.secs) ==> old_list
            == before[events[at as int].event@.timestamp.secs]@,
        !before.contains_key(events[at as int].event@.timestamp.secs) ==> old_list.len() == 0,
        repeat == exists|i: int|
            0 <= i < old_list.len() && same_use(
                events[(#[trigger] old_list[i]) as int].event@,
                events[at as int].event@,
            ),
        new_list@ == (if repeat {
            old_list
        } else {
            old_list.push(at)
        }),
    ensures
        covers(after, events, at + 1),
        repeat == is_repeat(dated_views(events), at as int),
{
    let event = events[at as int].event@;
    let second = event.timestamp.secs;
    let views = dated_views(events);
    assert forall|key: i64, i: int|
        after.contains_key(key) && 0 <= i < after[key]@.len() implies (#[trigger] after[key]@[i])
        < at + 1 by {
        if key == second {
            if i < old_list.len() {
                assert(before[second]@[i] < at);
            }
        } else {
            assert(before[key]@[i] < at);
        }
    }
    assert forall|k: int| 0 <= k < at + 1 implies leads(after, events, #[trigger] events[k].event@) by {
        let here = events[k].event@;
        if k < at {
            assert(leads(before, events, events[k].event@));
            let i = choose|i: int|
                0 <= i < before[here.timestamp.secs]@.len() && same_use(
                    events[(#[trigger] before[here.timestamp.secs]@[i]) as int].event@,
                    here,
                );
            assert(after[here.timestamp.secs]@[i] == before[here.timestamp.secs]@[i]);
        } else if repeat {
            let i = choose|i: int|
                0 <= i < old_list.len() && same_use(
                    events[(#[trigger] old_list[i]) as int].event@,
                    event,
                );
            assert(after[second]@[i] == old_list[i]);
        } else {
            assert(after[second]@[old_list.len() as int] == at);
        }
    }
    if repeat {
        let i = choose|i: int|
            0 <= i < old_list.len() && same_use(
                events[(#[trigger] old_list[i]) as int].event@,
                event,
            );
        assert(before[second]@[i] < at);
        assert(same_use(views[old_list[i] as int].event, views[at as int].event));
    }
    if is_repeat(views, at as int) {
        let k = choose|k: int|
            0 <= k < at && same_use((#[trigger] views[k]).event, views[at as int].event);
        assert(views[k].event == events[k].event@);
        assert(leads(before, events, events[k].event@));
        let i = choose|i: int|
            0 <= i < before[second]@.len() && same_use(
                events[(#[trigger] before[second]@[i]) as int].event@,
                events[k].event@,
            );
        assert(same_use(events[old_list[i] as int].event@, event));
    }
}

/// For each record, whether it counts.
fn counting_marks(events: &Vec<DatedEvent>, since: i64) -> (marks: Vec<bool>)
    ensures
        marks@.len() == events@.len(),
        forall|i: int|
            0 <= i < marks@.len() ==> #[trigger] marks@[i] == (!is_repeat(
                dated_views(events@),
                i,
            ) && events@[i].day >= since),
{
    let mut places: HashMap<i64, Vec<usize>> = HashMap::new();
    let mut marks: Vec<bool> = Vec::new();
    let mut i: usize = 0;
    while i < events.len()
        invariant
            i <= events@.len(),
            marks@.len() == i,
            covers(places@, events@, i as int),
            forall|k: int|
                0 <= k < i ==> #[trigger] marks@[k] == (!is_repeat(dated_views(events@), k)
                    && events@[k].day >= since),
        decreases events@.len() - i,
    {
        broadcast use vstd::std_specs::hash::group_hash_axioms;

        let event = &events[i].event;
        let second: i64 = event.timestamp.secs;
        let ghost before = places@;
        let known = places.remove(&second);
        let mut there: Vec<usize> = match known {
            Some(list) => list,
            None => Vec::new(),
        };
        let ghost listed = there@;
        proof {
            assert forall|k: int| 0 <= k < there@.len() implies (#[trigger] there@[k]) < events@.len() by {
                assert(before[second]@[k] < i);
            }
        }
        let repeat = any_same_use(events, &there, event);
        if !repeat {
            there.push(i);
        }
        places.insert(second, there);
        proof {
            assert(places@ =~= before.insert(second, there));
            lemma_covers_one_more(before, places@, events@, i, listed, there, repeat);
        }
        marks.push(!repeat && events[i].day >= since);
        i += 1;
    }
    marks
}

/// Which of the first records count depends on these records alone.
proof fn lemma_repeat_in_prefix(events: Seq<DatedView>, upto: int, at: int)
    requires
        0 <= at < upto <= events.len(),
    ensures
        is_repeat(events.take(upto), at) == is_repeat(events, at),
{
    let first = events.take(upto);
    if is_repeat(events, at) {
        let i = choose|i: int| 0 <= i < at && same_use((#[trigger] events[i]).event, events[at].event);
        assert(same_use(first[i].event, first[at].event));
    }
    if is_repeat(first, at) {
        let i = choose|i: int| 0 <= i < at && same_use((#[trigger] first[i]).event, first[at].event);
        assert(same_use(events[i].event, events[at].event));
    }
}

/// The uses that count, out of records with their days: each once, at its first record, and none
/// from before the thirty days up to `today`.
pub fn aggregate_into(events: Vec<DatedEvent>, today: i64) -> (out: Vec<DatedEvent>)
    requires
        today >= FIRST_DAY,
    ensures
        dated_views(out@) == counted(dated_views(events@), window_start(today as int)),
        forall|i: int|
            0 <= i < events@.len() && aggregate_laws::has_past(today as int) && events@[i].day
                >= today - 30 && aggregate_laws::is_first_record(dated_views(events@), i)
                ==> dated_views(out@).contains(#[trigger] dated_views(events@)[i]),
        forall|k: int|
            0 <= k < out@.len() && aggregate_laws::has_past(today as int) ==> (#[trigger] out@[k]).day
                >= today - 30,
{
    let since: i64 = since_day(today);
    let marks = counting_marks(&events, since);
    let ghost all = events@;
    let ghost views = dated_views(all);
    let mut out: Vec<DatedEvent> = Vec::new();
    let mut at: usize = 0;
    assert(dated_views(out@) =~= Seq::<DatedView>::empty());
    for event in it: events
        invariant
            it.seq() == all,
            views == dated_views(all),
            at == it.index(),
            marks@.len() == all.len(),
            forall|i: int|
                0 <= i < marks@.len() ==> #[trigger] marks@[i] == (!is_repeat(views, i)
                    && all[i].day >= since),
            dated_views(out@) == counted(views.take(at as int), since as int),
    {
        let ghost before = dated_views(out@);
        proof {
            let taken = views.take(at + 1);
            assert(taken.drop_last() =~= views.take(at as int));
            lemma_repeat_in_prefix(views, at + 1, at as int);
            assert(taken.last() == all[at as int]@);
        }
        if marks[at] {
            out.push(event);
            assert(dated_views(out@) =~= before.push(event@));
        }
        assert(at < marks.len());
        at += 1;
    }
    assert(views.take(views.len() as int) =~= views);
    proof {
        assert forall|i: int|
            0 <= i < all.len() && aggregate_laws::has_past(today as int) && all[i].day >= today - 30
                && aggregate_laws::is_first_record(views, i) implies dated_views(out@).contains(
            #[trigger] views[i],
        ) by {
            aggregate_laws::lemma_first_counts(views, since as int, i);
        }
        assert forall|k: int|
            0 <= k < out@.len() && aggregate_laws::has_past(today as int) implies (
        #[trigger] out@[k]).day >= today - 30 by {
            let place = aggregate_laws::lemma_counted_place(views, since as int, k);
            assert(dated_views(out@)[k] == views[place]);
        }
    }
    out
}

/// The uses of several logs from `since` on, one log after another.
pub fn scan_codex_events(logs: Vec<Vec<DatedEvent>>, since: i64) -> (out: Vec<DatedEvent>)
    ensures
        dated_views(out@) == all_recent(log_views(logs@), since as int),
        forall|l: int, r: int|
            aggregate_laws::is_record(log_views(logs@), l, r) && log_views(logs@)[l][r].day >= since
                ==> dated_views(out@).contains(#[trigger] log_views(logs@)[l][r]),
        forall|k: int| 0 <= k < out@.len() ==> (#[trigger] out@[k]).day >= since,
{
    let ghost all = logs@;
    let ghost views = log_views(all);
    let mut out: Vec<DatedEvent> = Vec::new();
    assert(dated_views(out@) =~= Seq::<DatedView>::empty());
    for log in it: logs
        invariant
            it.seq() == all,
            views == log_views(all),
            dated_views(out@) == all_recent(views.take(it.index() as int), since as int),
    {
        let ghost done = dated_views(out@);
        let ghost here = dated_views(log@);
        let ghost records = log@;
        proof {
            assert(views.take(it.index() + 1).drop_last() =~= views.take(it.index() as int));
            assert(views.take(it.index() + 1).last() == here);
            assert(here.take(0) =~= Seq::<DatedView>::empty());
            assert(recent(here.take(0), since as int) =~= Seq::<DatedView>::empty());
            assert(done + recent(here.take(0), since as int) =~= done);
        }
        for event in inner: log
            invariant
                inner.seq() == records,
                here == dated_views(records),
                dated_views(out@) == done + recent(here.take(inner.index() as int), since as int),
        {
            let ghost before = dated_views(out@);
            let ghost at = inner.index() as int;
            proof {
                assert(here[at] == event@);
                assert(here.take(at + 1) =~= here.take(at).push(here[at]));
                reveal(Seq::filter);
                assert(here.take(at + 1).drop_last() =~= here.take(at));
            }
            if event.day >= since {
                out.push(event);
                proof {
                    assert(dated_views(out@) =~= before.push(event@));
                    assert(dated_views(out@) =~= done + recent(here.take(at + 1), since as int));
                }
            } else {
                assert(dated_views(out@) =~= done + recent(here.take(at + 1), since as int));
            }
        }
        assert(here.take(here.len() as int) =~= here);
    }
    assert(views.take(views.len() as int) =~= views);
    proof {
        assert forall|l: int, r: int|
            aggregate_laws::is_record(views, l, r) && views[l][r].day >= since implies dated_views(
            out@,
        ).contains(#[trigger] views[l][r]) by {
            let place = aggregate_laws::lemma_all_recent_place(views, since as int, l, r);
            assert(dated_views(out@)[place] == views[l][r]);
        }
        assert forall|k: int| 0 <= k < out@.len() implies (#[trigger] out@[k]).day >= since by {
            let (l, r) = aggregate_laws::lemma_all_recent_origin(views, since as int, k);
            assert(dated_views(out@)[k] == views[l][r]);
        }
    }
    out
}

/// The uses that count, out of the logs of a machine, seen from `today`.
pub fn scan_local_usage_scoped(logs: Vec<Vec<DatedEvent>>, today: i64) -> (out: Vec<DatedEvent>)
    requires
        today >= FIRST_DAY,
    ensures
        dated_views(out@) == counted(
            all_recent(log_views(logs@), scan_start(today as int)),
            window_start(today as int),
        ),
        dated_views(out@) == aggregate_laws::uses_counted(log_views(logs@), today as int),
        forall|l: int, r: int|
            aggregate_laws::has_past(today as int) && aggregate_laws::is_record(
                log_views(logs@),
                l,
                r,
            ) && log_views(logs@)[l][r].day >= today - 30 && !aggregate_laws::is_recorded_before(
                log_views(logs@),
                today as int,
                l,
                r,
            ) ==> dated_views(out@).contains(#[trigger] log_views(logs@)[l][r]),
{
    proof {
        let views = log_views(logs@);
        assert forall|l: int, r: int|
            aggregate_laws::has_past(today as int) && aggregate_laws::is_record(views, l, r)
                && views[l][r].day >= today - 30 && !aggregate_laws::is_recorded_before(
                views,
                today as int,
                l,
                r,
            ) implies aggregate_laws::uses_counted(views, today as int).contains(
            #[trigger] views[l][r],
        ) by {
            aggregate_laws::no_recent_use_is_lost(views, today as int, l, r);
        }
    }
    let events = scan_codex_events(logs, scan_since_day(today));
    aggregate_into(events, today)
}

/// The note on where a usage history comes from.
pub open spec fn note_on_source(includes_pi: bool) -> Seq<char> {
    if includes_pi {
        "From your Codex logs and pi (estimated)"@
    } else {
        "From your Codex logs (estimated)"@
    }
}

/// Whether a search for usage recorded by pi found any. One that failed found none.
pub open spec fn found_pi(scan: Result<bool, CodexError>) -> bool {
    scan == Ok::<bool, CodexError>(true)
}

/// Whether a search for usage recorded by pi found any. One that failed found none, and does not keep
/// the history from being shown.
pub fn includes_pi(scan: Result<bool, CodexError>) -> (includes: bool)
    ensures
        includes == found_pi(scan),
{
    match scan {
        Ok(found) => found,
        Err(_) => false,
    }
}

/// The note on where a usage history comes from, by the outcome of the search for usage recorded by
/// pi.
pub fn source_note_after(scan: Result<bool, CodexError>) -> (note: &'static str)
    ensures
        note@ == note_on_source(found_pi(scan)),
{
    source_note(includes_pi(scan))
}

/// The note on where a usage history comes from.
pub fn source_note(includes_pi: bool) -> (note: &'static str)
    ensures
        note@ == note_on_source(includes_pi),
{
    if includes_pi {
        "From your Codex logs and pi (estimated)"
    } else {
        "From your Codex logs (estimated)"
    }
}

/// How a use enters the history of its day: with its tokens and its price, or as a use of a model
/// without a known price.
#[derive(Debug)]
pub enum UsageEntry {
    Priced { day: i64, total: u64, quote: CostQuote, model: String },
    Unpriced { day: i64, model: String },
}

/// What a history entry holds.
pub enum EntryView {
    Priced { day: i64, total: u64, quote: CostQuote, model: Seq<char> },
    Unpriced { day: i64, model: Seq<char> },
}

impl View for UsageEntry {
    type V = EntryView;

    open spec fn view(&self) -> EntryView {
        match self {
            UsageEntry::Priced { day, total, quote, model } => EntryView::Priced {
                day: *day,
                total: *total,
                quote: *quote,
                model: model@,
            },
            UsageEntry::Unpriced { day, model } => EntryView::Unpriced { day: *day, model: model@ },
        }
    }
}

/// How a use enters the history, where it does: priced under its trimmed model name, or, where it
/// has no price but tokens, unpriced under its model name.
pub open spec fn entry_of(use_: DatedView, quote: Option<CostQuote>) -> Option<EntryView> {
    match quote {
        Some(inner) => Some(
            EntryView::Priced {
                day: use_.day,
                total: use_.event.total,
                quote: inner,
                model: text::trimmed(use_.event.model),
            },
        ),
        None => if use_.event.total > 0 {
            Some(EntryView::Unpriced { day: use_.day, model: use_.event.model })
        } else {
            None
        },
    }
}

/// What an optional history entry holds.
pub open spec fn entry_view(entry: Option<UsageEntry>) -> Option<EntryView> {
    match entry {
        Some(inner) => Some(inner@),
        None => None,
    }
}

/// How a use enters the history, `quote` being how it is priced.
pub fn usage_entry(dated: &DatedEvent, quote: Option<CostQuote>) -> (entry: Option<UsageEntry>)
    ensures
        entry_view(entry) == entry_of(dated@, quote),
{
    match quote {
        Some(inner) => Some(
            UsageEntry::Priced {
                day: dated.day,
                total: dated.event.total,
                quote: inner,
                model: text::trim(dated.event.model.as_str()),
            },
        ),
        None => if dated.event.total > 0 {
            Some(UsageEntry::Unpriced { day: dated.day, model: dated.event.model.clone() })
        } else {
            None
        },
    }
}

/// The uses that count are records that were read, from the window on.
proof fn lemma_counted_origin(events: Seq<DatedView>, since: int)
    ensures
        forall|i: int|
            0 <= i < counted(events, since).len() ==> events.contains(
                #[trigger] counted(events, since)[i],
            ) && counted(events, since)[i].day >= since,
    decreases events.len(),
{
    if events.len() > 0 {
        let before = events.drop_last();
        lemma_counted_origin(before, since);
        assert forall|i: int| 0 <= i < counted(events, since).len() implies events.contains(
            #[trigger] counted(events, since)[i],
        ) && counted(events, since)[i].day >= since by {
            if i < counted(before, since).len() {
                assert(before.contains(counted(before, since)[i]));
                let k = choose|k: int| 0 <= k < before.len() && before[k] == counted(before, since)[i];
                assert(events[k] == counted(events, since)[i]);
            } else {
                assert(events[events.len() - 1] == counted(events, since)[i]);
            }
        }
    }
}

/// No use counts twice, and every use that counts lies in the window.
pub proof fn no_use_counts_twice(events: Seq<DatedView>, since: int)
    ensures
        forall|i: int, j: int|
            0 <= i < j < counted(events, since).len() ==> !same_use(
                (#[trigger] counted(events, since)[i]).event,
                (#[trigger] counted(events, since)[j]).event,
            ),
        forall|i: int|
            0 <= i < counted(events, since).len() ==> (#[trigger] counted(events, since)[i]).day
                >= since,
    decreases events.len(),
{
    lemma_counted_origin(events, since);
    if events.len() > 0 {
        let before = events.drop_last();
        no_use_counts_twice(before, since);
        lemma_counted_origin(before, since);
        let out = counted(events, since);
        assert forall|i: int, j: int| 0 <= i < j < out.len() implies !same_use(
            (#[trigger] out[i]).event,
            (#[trigger] out[j]).event,
        ) by {
            if j == counted(before, since).len() {
                assert(before.contains(counted(before, since)[i]));
                let k = choose|k: int| 0 <= k < before.len() && before[k] == counted(before, since)[i];
                if same_use(out[i].event, out[j].event) {
                    assert(same_use(events[k].event, events[events.len() - 1].event));
                }
            }
        }
    }
}

/// One of the records is of the use.
pub open spec fn is_known(events: Seq<DatedView>, use_: DatedView) -> bool {
    exists|k: int| 0 <= k < events.len() && same_use((#[trigger] events[k]).event, use_.event)
}

/// Reading the records of known uses again changes nothing.
pub proof fn known_uses_add_nothing(events: Seq<DatedView>, again: Seq<DatedView>, since: int)
    requires
        forall|i: int| 0 <= i < again.len() ==> is_known(events, #[trigger] again[i]),
    ensures
        counted(events + again, since) == counted(events, since),
    decreases again.len(),
{
    if again.len() == 0 {
        assert(events + again =~= events);
    } else {
        let before = again.drop_last();
        assert forall|i: int| 0 <= i < before.len() implies is_known(
            events,
            #[trigger] before[i],
        ) by {
            assert(again[i] == before[i]);
        }
        known_uses_add_nothing(events, before, since);
        let all = events + again;
        assert(all.drop_last() =~= events + before);
        assert(is_known(events, again[again.len() - 1]));
        let k = choose|k: int|
            0 <= k < events.len() && same_use((#[trigger] events[k]).event, all.last().event);
        assert(same_use(all[k].event, all[all.len() - 1].event));
    }
}

} // verus!
