//! Aggregates over the last 30 days of transcripts of a project.

use vstd::prelude::*;

use crate::order::{
    lemma_every_position_listed, lemma_positions_fit, lists_positions, sorts_before, stable_order,
    Ranked,
};
use crate::session::{prompt_count, reported_output};
use crate::tally::{count_of, lists_names, tallies, Tally};
use crate::text::{sorts_before_text, text_before, text_order_laws};
use crate::time::{gap_in_range, Gap, Timestamp};
use crate::transcript::{edits_files, event_views, is_file_edit, EventView, TranscriptEvent};

verus! {

/// The events of one past session. `days` gives the local calendar day of each
/// event, in days since 1970-01-01.
pub struct SessionLog {
    pub id: String,
    pub events: Vec<TranscriptEvent>,
    pub days: Vec<i64>,
}

/// What the log of a session holds.
pub struct LogView {
    pub id: Seq<char>,
    pub events: Seq<EventView>,
    pub days: Seq<i64>,
}

impl View for SessionLog {
    type V = LogView;

    open spec fn view(&self) -> LogView {
        LogView { id: self.id@, events: event_views(self.events@), days: self.days@ }
    }
}

/// What the logs of a list hold.
pub open spec fn log_views(logs: Seq<SessionLog>) -> Seq<LogView> {
    logs.map_values(|log: SessionLog| log@)
}

/// True if every event of the log has a day.
pub open spec fn is_dated(log: LogView) -> bool {
    log.days.len() == log.events.len()
}

pub open spec fn all_dated(logs: Seq<LogView>) -> bool {
    forall|i: int| 0 <= i < logs.len() ==> is_dated(#[trigger] logs[i])
}

// ---- edits --------------------------------------------------------------------

/// One edit of a file, on a local calendar day.
pub struct Edit {
    pub file: String,
    pub day: i64,
}

/// What an edit holds.
pub struct EditView {
    pub file: Seq<char>,
    pub day: i64,
}

impl View for Edit {
    type V = EditView;

    open spec fn view(&self) -> EditView {
        EditView { file: self.file@, day: self.day }
    }
}

/// What the edits of a list hold.
pub open spec fn edit_views(edits: Seq<Edit>) -> Seq<EditView> {
    edits.map_values(|edit: Edit| edit@)
}

/// The edit that an event records, if any.
pub open spec fn event_edits(event: EventView, day: i64) -> Seq<EditView> {
    match event {
        EventView::ToolCall { name, label, .. } => if edits_files(name) && label.len() > 0 {
            seq![EditView { file: label, day }]
        } else {
            Seq::empty()
        },
        _ => Seq::empty(),
    }
}

/// The edits that the events record, in their order.
pub open spec fn edits_in(events: Seq<EventView>, days: Seq<i64>) -> Seq<EditView>
    decreases events.len(),
{
    if events.len() == 0 {
        Seq::empty()
    } else {
        edits_in(events.drop_last(), days) + event_edits(events.last(), days[events.len() - 1])
    }
}

/// The edits of all sessions.
pub open spec fn all_edits(logs: Seq<LogView>) -> Seq<EditView>
    decreases logs.len(),
{
    if logs.len() == 0 {
        Seq::empty()
    } else {
        all_edits(logs.drop_last()) + edits_in(logs.last().events, logs.last().days)
    }
}

/// How many of the edits are of this file.
pub open spec fn edits_of(edits: Seq<EditView>, file: Seq<char>) -> nat
    decreases edits.len(),
{
    if edits.len() == 0 {
        0
    } else {
        edits_of(edits.drop_last(), file) + if edits.last().file == file {
            1nat
        } else {
            0nat
        }
    }
}

/// How many of the edits are of this file and on this day.
pub open spec fn edits_on(edits: Seq<EditView>, file: Seq<char>, day: int) -> nat
    decreases edits.len(),
{
    if edits.len() == 0 {
        0
    } else {
        edits_on(edits.drop_last(), file, day) + if edits.last().file == file && edits.last().day
            == day {
            1nat
        } else {
            0nat
        }
    }
}

/// How many of the sessions edited this file.
pub open spec fn sessions_editing(logs: Seq<LogView>, file: Seq<char>) -> nat
    decreases logs.len(),
{
    if logs.len() == 0 {
        0
    } else {
        sessions_editing(logs.drop_last(), file) + if edits_of(
            edits_in(logs.last().events, logs.last().days),
            file,
        ) > 0 {
            1nat
        } else {
            0nat
        }
    }
}

proof fn lemma_edits_of_bounded(edits: Seq<EditView>, file: Seq<char>)
    ensures
        edits_of(edits, file) <= edits.len(),
    decreases edits.len(),
{
    if edits.len() > 0 {
        lemma_edits_of_bounded(edits.drop_last(), file);
    }
}

proof fn lemma_sessions_editing_bounded(logs: Seq<LogView>, file: Seq<char>)
    ensures
        sessions_editing(logs, file) <= logs.len(),
    decreases logs.len(),
{
    if logs.len() > 0 {
        lemma_sessions_editing_bounded(logs.drop_last(), file);
    }
}

/// The edits that a session records.
fn collect_edits(log: &SessionLog) -> (edits: Vec<Edit>)
    requires
        is_dated(log@),
    ensures
        edit_views(edits@) == edits_in(log@.events, log@.days),
{
    let mut edits: Vec<Edit> = Vec::new();
    let ghost events = event_views(log.events@);
    for i in 0..log.events.len()
        invariant
            is_dated(log@),
            events == event_views(log.events@),
            edit_views(edits@) == edits_in(events.take(i as int), log.days@),
    {
        let ghost before = edit_views(edits@);
        assert(events.take(i + 1).drop_last() == events.take(i as int));
        assert(events.take(i + 1).last() == log.events@[i as int]@);
        if let TranscriptEvent::ToolCall { name, label, .. } = &log.events[i] {
            if is_file_edit(name.as_str()) && !label.as_str().is_empty() {
                edits.push(Edit { file: label.clone(), day: log.days[i] });
                assert(edit_views(edits@) == before.push(edits@.last()@));
            }
        }
        assert(edit_views(edits@) == edits_in(events.take(i + 1), log.days@));
    }
    assert(events.take(events.len() as int) == events);
    edits
}

/// Counts the edits of each file.
fn tally_edits(edits: &Vec<Edit>) -> (tally: Tally)
    ensures
        tallies(tally@, |file: Seq<char>| edits_of(edit_views(edits@), file)),
{
    let mut tally = Tally::new();
    let ghost all = edit_views(edits@);
    for i in 0..edits.len()
        invariant
            all == edit_views(edits@),
            tallies(tally@, |file: Seq<char>| edits_of(all.take(i as int), file)),
    {
        let ghost number = |file: Seq<char>| edits_of(all.take(i as int), file);
        let file = &edits[i].file;
        assert(all.take(i + 1).drop_last() == all.take(i as int));
        assert(all.take(i + 1).last().file == file@);
        proof {
            lemma_edits_of_bounded(all.take(i as int), file@);
            assert(count_of(tally@, file@) == number(file@));
        }
        let ghost before = tally@;
        let done = tally.add(file.as_str(), 1);
        assert(done);
        assert forall|other: Seq<char>| #[trigger]
            count_of(tally@, other) == edits_of(all.take(i + 1), other) && (tally@.contains_key(
                other,
            ) <==> edits_of(all.take(i + 1), other) > 0) by {
            assert(count_of(before, other) == number(other));
        }
    }
    assert(all.take(all.len() as int) == all);
    tally
}

/// True if the tally holds the earlier number for the file, and one more where
/// the file is listed.
spec fn seen_with(
    counts: Map<Seq<char>, u64>,
    earlier: spec_fn(Seq<char>) -> nat,
    listed: Seq<Seq<char>>,
    file: Seq<char>,
) -> bool {
    let number = if listed.contains(file) {
        earlier(file) + 1
    } else {
        earlier(file)
    };
    count_of(counts, file) == number && (counts.contains_key(file) <==> number > 0)
}

/// Counts, for each file, the sessions that edited it.
fn tally_sessions(logs: &Vec<SessionLog>) -> (tally: Tally)
    requires
        all_dated(log_views(logs@)),
    ensures
        tallies(tally@, |file: Seq<char>| sessions_editing(log_views(logs@), file)),
{
    let mut tally = Tally::new();
    let ghost all = log_views(logs@);
    for i in 0..logs.len()
        invariant
            all == log_views(logs@),
            all_dated(all),
            tallies(tally@, |file: Seq<char>| sessions_editing(all.take(i as int), file)),
    {
        let ghost earlier = |file: Seq<char>| sessions_editing(all.take(i as int), file);
        let ghost before = tally@;
        assert(all[i as int] == logs@[i as int]@);
        let edits = collect_edits(&logs[i]);
        let files = tally_edits(&edits);
        let ghost own = |file: Seq<char>| edits_of(edit_views(edits@), file);
        assert(all.take(i + 1).drop_last() == all.take(i as int));
        assert(all.take(i + 1).last() == all[i as int]);
        let count: usize = files.len();
        let ghost names = files.order();
        let ghost mut listed = names.take(0);
        proof {
            assert forall|file: Seq<char>| #[trigger] earlier(file) <= i by {
                lemma_sessions_editing_bounded(all.take(i as int), file);
            }
            assert forall|file: Seq<char>| seen_with(before, earlier, listed, file) by {
                assert(count_of(before, file) == earlier(file));
            }
        }
        let mut k: usize = 0;
        while k < count
            invariant
                i < usize::MAX,
                k <= count,
                count == names.len(),
                names == files.order(),
                names.no_duplicates(),
                listed == names.take(k as int),
                forall|file: Seq<char>| #[trigger] earlier(file) <= i,
                forall|file: Seq<char>| seen_with(tally@, earlier, listed, file),
            decreases count - k,
        {
            let file = files.name(k);
            let ghost now = tally@;
            let ghost longer = listed.push(file@);
            proof {
                assert(names.take(k + 1) == longer);
                if listed.contains(file@) {
                    let j = listed.index_of(file@);
                    assert(names[j] == names[k as int]);
                }
                assert(seen_with(now, earlier, listed, file@));
                assert(earlier(file@) <= i);
            }
            let done = tally.add(file.as_str(), 1);
            assert(done);
            assert forall|other: Seq<char>| seen_with(tally@, earlier, longer, other) by {
                assert(seen_with(now, earlier, listed, other));
                if other == file@ {
                    assert(longer[k as int] == other);
                } else if listed.contains(other) {
                    let j = listed.index_of(other);
                    assert(longer[j] == other);
                } else if longer.contains(other) {
                    let j = longer.index_of(other);
                    assert(listed[j] == other);
                }
            }
            proof {
                listed = longer;
            }
            k += 1;
        }
        assert(names.take(count as int) == names);
        let ghost now = |file: Seq<char>| sessions_editing(all.take(i + 1), file);
        assert forall|file: Seq<char>| #[trigger]
            count_of(tally@, file) == now(file) && (tally@.contains_key(file) <==> now(file) > 0) by {
            assert(count_of(files@, file) == own(file));
            assert(files@.contains_key(file) <==> names.contains(file));
            assert(seen_with(tally@, earlier, names, file));
        }
        assert(tallies(tally@, now));
    }
    assert(all.take(all.len() as int) == all);
    tally
}

/// The edits of all sessions.
fn collect_all_edits(logs: &Vec<SessionLog>) -> (edits: Vec<Edit>)
    requires
        all_dated(log_views(logs@)),
    ensures
        edit_views(edits@) == all_edits(log_views(logs@)),
{
    let mut edits: Vec<Edit> = Vec::new();
    let ghost all = log_views(logs@);
    for i in 0..logs.len()
        invariant
            all == log_views(logs@),
            all_dated(all),
            edit_views(edits@) == all_edits(all.take(i as int)),
    {
        let ghost before = edit_views(edits@);
        assert(all[i as int] == logs@[i as int]@);
        assert(all.take(i + 1).drop_last() == all.take(i as int));
        let mut more = collect_edits(&logs[i]);
        let ghost added = edit_views(more@);
        edits.append(&mut more);
        assert(edit_views(edits@) == before + added);
    }
    assert(all.take(all.len() as int) == all);
    edits
}

// ---- tokens -------------------------------------------------------------------

/// The output tokens that an event reports.
pub open spec fn event_output(event: EventView) -> int {
    match event {
        EventView::Usage { output_tokens, .. } => output_tokens as int,
        _ => 0,
    }
}

/// The output tokens that the events report on this day.
pub open spec fn tokens_on(events: Seq<EventView>, days: Seq<i64>, day: int) -> int
    decreases events.len(),
{
    if events.len() == 0 {
        0
    } else {
        tokens_on(events.drop_last(), days, day) + if days[events.len() - 1] == day {
            event_output(events.last())
        } else {
            0
        }
    }
}

/// The output tokens of all sessions on this day.
pub open spec fn all_tokens_on(logs: Seq<LogView>, day: int) -> int
    decreases logs.len(),
{
    if logs.len() == 0 {
        0
    } else {
        all_tokens_on(logs.drop_last(), day) + tokens_on(logs.last().events, logs.last().days, day)
    }
}

proof fn lemma_tokens_on_grow(events: Seq<EventView>, days: Seq<i64>, day: int, i: int)
    requires
        0 <= i <= events.len(),
    ensures
        0 <= tokens_on(events.take(i), days, day) <= tokens_on(events, days, day),
    decreases events.len(),
{
    if i < events.len() {
        lemma_tokens_on_grow(events.drop_last(), days, day, i);
        assert(events.drop_last().take(i) == events.take(i));
    } else {
        assert(events.take(i) == events);
        if i > 0 {
            assert(events.drop_last().take(i - 1) == events.drop_last());
            lemma_tokens_on_grow(events.drop_last(), days, day, i - 1);
        }
    }
}

proof fn lemma_all_tokens_on_grow(logs: Seq<LogView>, day: int, i: int)
    requires
        0 <= i <= logs.len(),
    ensures
        0 <= all_tokens_on(logs.take(i), day) <= all_tokens_on(logs, day),
    decreases logs.len(),
{
    if logs.len() > 0 {
        let last = logs.last();
        assert(last.events.take(last.events.len() as int) == last.events);
        lemma_tokens_on_grow(last.events, last.days, day, last.events.len() as int);
    }
    if i < logs.len() {
        lemma_all_tokens_on_grow(logs.drop_last(), day, i);
        assert(logs.drop_last().take(i) == logs.take(i));
    } else {
        assert(logs.take(i) == logs);
        if i > 0 {
            assert(logs.drop_last().take(i - 1) == logs.drop_last());
            lemma_all_tokens_on_grow(logs.drop_last(), day, i - 1);
        }
    }
}

/// The output tokens of all sessions on this day, where the counter can hold
/// them.
fn sum_tokens_on(logs: &Vec<SessionLog>, day: i64) -> (total: Option<u64>)
    requires
        all_dated(log_views(logs@)),
    ensures
        match total {
            Some(n) => n == all_tokens_on(log_views(logs@), day as int),
            None => all_tokens_on(log_views(logs@), day as int) > u64::MAX,
        },
{
    let ghost all = log_views(logs@);
    let mut total: u64 = 0;
    for i in 0..logs.len()
        invariant
            all == log_views(logs@),
            all_dated(all),
            total == all_tokens_on(all.take(i as int), day as int),
    {
        let log = &logs[i];
        let ghost events = event_views(log.events@);
        assert(all[i as int] == log@);
        proof {
            assert(all.take(i + 1).drop_last() == all.take(i as int));
            assert(all.take(i + 1).last() == log@);
            lemma_all_tokens_on_grow(all, day as int, i + 1);
        }
        for j in 0..log.events.len()
            invariant
                all == log_views(logs@),
                events == event_views(log.events@),
                log.days@.len() == events.len(),
                all_tokens_on(all.take(i as int), day as int) + tokens_on(
                    events,
                    log.days@,
                    day as int,
                ) <= all_tokens_on(all, day as int),
                total == all_tokens_on(all.take(i as int), day as int) + tokens_on(
                    events.take(j as int),
                    log.days@,
                    day as int,
                ),
        {
            proof {
                assert(events.take(j + 1).drop_last() == events.take(j as int));
                assert(events.take(j + 1).last() == log.events@[j as int]@);
                lemma_tokens_on_grow(events, log.days@, day as int, j + 1);
            }
            if let TranscriptEvent::Usage { output_tokens, .. } = &log.events[j] {
                if log.days[j] == day {
                    match total.checked_add(*output_tokens) {
                        Some(sum) => {
                            total = sum;
                        },
                        None => {
                            return None;
                        },
                    }
                }
            }
        }
        assert(events.take(events.len() as int) == events);
    }
    assert(all.take(all.len() as int) == all);
    Some(total)
}

// ---- waiting ------------------------------------------------------------------

/// Since when the agent waits after the events: since the end of the turn, as
/// long as neither a prompt nor a tool call followed.
pub open spec fn waiting_after(events: Seq<EventView>) -> Option<Timestamp>
    decreases events.len(),
{
    if events.len() == 0 {
        None
    } else {
        match events.last() {
            EventView::UserPrompt { .. } => None,
            EventView::ToolCall { .. } => None,
            EventView::TurnDone { at } => Some(at),
            _ => waiting_after(events.drop_last()),
        }
    }
}

/// The nanoseconds for which the last of the events ended a wait, if it did.
pub open spec fn wait_ended(events: Seq<EventView>) -> int
    recommends
        events.len() > 0,
{
    match (events.last(), waiting_after(events.drop_last())) {
        (EventView::UserPrompt { at }, Some(since)) => at.nanos_since(since),
        _ => 0,
    }
}

/// The nanoseconds for which the agent waited for prompts.
pub open spec fn babysit_of(events: Seq<EventView>) -> int
    decreases events.len(),
{
    if events.len() == 0 {
        0
    } else {
        babysit_of(events.drop_last()) + wait_ended(events)
    }
}

/// The nanoseconds of the waits that ended on this day.
pub open spec fn babysit_on(events: Seq<EventView>, days: Seq<i64>, day: int) -> int
    decreases events.len(),
{
    if events.len() == 0 {
        0
    } else {
        babysit_on(events.drop_last(), days, day) + if days[events.len() - 1] == day {
            wait_ended(events)
        } else {
            0
        }
    }
}

/// The nanoseconds of the waits of all sessions that ended on this day.
pub open spec fn all_babysit_on(logs: Seq<LogView>, day: int) -> int
    decreases logs.len(),
{
    if logs.len() == 0 {
        0
    } else {
        all_babysit_on(logs.drop_last(), day) + babysit_on(
            logs.last().events,
            logs.last().days,
            day,
        )
    }
}

/// True if a gap can hold the waits of the session as they add up.
pub open spec fn babysit_fits(events: Seq<EventView>) -> bool {
    forall|i: int|
        0 <= i <= events.len() ==> gap_in_range(babysit_of(#[trigger] events.take(i)))
}

/// True if a gap can hold the waits of the first `j` events of log `i` that
/// ended on this day, together with those of the logs before.
pub open spec fn babysit_on_fits_at(logs: Seq<LogView>, day: int, i: int, j: int) -> bool {
    gap_in_range(
        all_babysit_on(logs.take(i), day) + babysit_on(
            logs[i].events.take(j),
            logs[i].days,
            day,
        ),
    )
}

/// True if a gap can hold the waits that ended on this day as they add up.
pub open spec fn babysit_on_fits(logs: Seq<LogView>, day: int) -> bool {
    forall|i: int, j: int|
        0 <= i < logs.len() && 0 <= j <= logs[i].events.len() ==> #[trigger] babysit_on_fits_at(
            logs,
            day,
            i,
            j,
        )
}

/// Since when the agent waits after one event more.
fn wait_after(waiting: Option<Timestamp>, event: &TranscriptEvent) -> (next: Option<Timestamp>)
    ensures
        forall|events: Seq<EventView>|
            events.len() > 0 && events.last() == event@ && waiting_after(events.drop_last())
                == waiting ==> next == #[trigger] waiting_after(events),
{
    match event {
        TranscriptEvent::UserPrompt { .. } => None,
        TranscriptEvent::ToolCall { .. } => None,
        TranscriptEvent::TurnDone { at } => Some(*at),
        _ => waiting,
    }
}

/// The wait that an event ends.
fn ended_wait(waiting: Option<Timestamp>, event: &TranscriptEvent) -> (gap: Gap)
    ensures
        gap_in_range(gap.length()),
        forall|events: Seq<EventView>|
            events.len() > 0 && events.last() == event@ && waiting_after(events.drop_last())
                == waiting ==> gap.length() == #[trigger] wait_ended(events),
{
    if let TranscriptEvent::UserPrompt { at } = event {
        if let Some(since) = waiting {
            return at.since(&since);
        }
    }
    Gap::zero()
}

/// The time that the agent waited for prompts, where a gap can hold it.
fn sum_babysit(events: &Vec<TranscriptEvent>) -> (total: Option<Gap>)
    ensures
        total is Some <==> babysit_fits(event_views(events@)),
        total matches Some(gap) ==> gap.length() == babysit_of(event_views(events@)),
{
    let ghost all = event_views(events@);
    let mut waiting: Option<Timestamp> = None;
    let mut total = Gap::zero();
    assert(all.take(0) == Seq::<EventView>::empty());
    for i in 0..events.len()
        invariant
            all == event_views(events@),
            waiting == waiting_after(all.take(i as int)),
            total.length() == babysit_of(all.take(i as int)),
            forall|k: int| 0 <= k <= i ==> gap_in_range(babysit_of(#[trigger] all.take(k))),
    {
        assert(all.take(i + 1).drop_last() == all.take(i as int));
        assert(all.take(i + 1).last() == events@[i as int]@);
        let gap = ended_wait(waiting, &events[i]);
        assert(gap.length() == wait_ended(all.take(i + 1)));
        match total.plus(&gap) {
            Some(sum) => {
                total = sum;
            },
            None => {
                assert(!gap_in_range(babysit_of(all.take(i + 1))));
                return None;
            },
        }
        waiting = wait_after(waiting, &events[i]);
    }
    assert(all.take(all.len() as int) == all);
    Some(total)
}

/// The waits of all sessions that ended on this day, where a gap can hold them.
fn sum_babysit_on(logs: &Vec<SessionLog>, day: i64) -> (total: Option<Gap>)
    requires
        all_dated(log_views(logs@)),
    ensures
        total is Some <==> babysit_on_fits(log_views(logs@), day as int),
        total matches Some(gap) ==> gap.length() == all_babysit_on(log_views(logs@), day as int)
            && gap_in_range(gap.length()),
{
    let ghost all = log_views(logs@);
    let mut total = Gap::zero();
    for i in 0..logs.len()
        invariant
            all == log_views(logs@),
            all_dated(all),
            gap_in_range(total.length()),
            total.length() == all_babysit_on(all.take(i as int), day as int),
            forall|k: int, l: int|
                0 <= k < i && 0 <= l <= all[k].events.len() ==> #[trigger] babysit_on_fits_at(
                    all,
                    day as int,
                    k,
                    l,
                ),
    {
        let log = &logs[i];
        let ghost events = event_views(log.events@);
        let mut waiting: Option<Timestamp> = None;
        assert(all[i as int] == log@);
        assert(events.take(0) == Seq::<EventView>::empty());
        for j in 0..log.events.len()
            invariant
                all == log_views(logs@),
                i < all.len(),
                all[i as int] == log@,
                events == event_views(log.events@),
                log.days@.len() == events.len(),
                gap_in_range(total.length()),
                waiting == waiting_after(events.take(j as int)),
                total.length() == all_babysit_on(all.take(i as int), day as int) + babysit_on(
                    events.take(j as int),
                    log.days@,
                    day as int,
                ),
                forall|l: int|
                    0 <= l <= j ==> #[trigger] babysit_on_fits_at(all, day as int, i as int, l),
        {
            assert(events.take(j + 1).drop_last() == events.take(j as int));
            assert(events.take(j + 1).last() == log.events@[j as int]@);
            if log.days[j] == day {
                let gap = ended_wait(waiting, &log.events[j]);
                assert(gap.length() == wait_ended(events.take(j + 1)));
                match total.plus(&gap) {
                    Some(sum) => {
                        total = sum;
                    },
                    None => {
                        assert(!babysit_on_fits_at(all, day as int, i as int, j + 1));
                        return None;
                    },
                }
            }
            waiting = wait_after(waiting, &log.events[j]);
            assert(babysit_on_fits_at(all, day as int, i as int, j + 1));
        }
        assert(events.take(events.len() as int) == events);
        assert(all.take(i + 1).drop_last() == all.take(i as int));
    }
    assert(all.take(all.len() as int) == all);
    Some(total)
}

// ---- summaries ----------------------------------------------------------------

/// A digest of one past session, used to join sessions to git commits.
pub struct SessionSummary {
    pub id: String,
    pub start: Timestamp,
    pub end: Timestamp,
    pub prompts: u64,
    pub output_tokens: u64,
    pub babysit: Gap,
}

/// What the digest of a session holds.
pub struct SummaryView {
    pub id: Seq<char>,
    pub start: Timestamp,
    pub end: Timestamp,
    pub prompts: int,
    pub output_tokens: int,
    pub babysit: int,
}

impl View for SessionSummary {
    type V = SummaryView;

    open spec fn view(&self) -> SummaryView {
        SummaryView {
            id: self.id@,
            start: self.start,
            end: self.end,
            prompts: self.prompts as int,
            output_tokens: self.output_tokens as int,
            babysit: self.babysit.length(),
        }
    }
}

/// What the digests of a list hold.
pub open spec fn summary_views(summaries: Seq<SessionSummary>) -> Seq<SummaryView> {
    summaries.map_values(|summary: SessionSummary| summary@)
}

/// The time of the earliest prompt.
pub open spec fn first_prompt(events: Seq<EventView>) -> Option<Timestamp>
    decreases events.len(),
{
    if events.len() == 0 {
        None
    } else {
        match events.last() {
            EventView::UserPrompt { at } => Some(
                match first_prompt(events.drop_last()) {
                    Some(start) => start.earlier_of(at),
                    None => at,
                },
            ),
            _ => first_prompt(events.drop_last()),
        }
    }
}

/// The time of an event that counts as activity: a prompt, a tool call, usage
/// or the end of a turn.
pub open spec fn activity(event: EventView) -> Option<Timestamp> {
    match event {
        EventView::UserPrompt { at } => Some(at),
        EventView::TurnDone { at } => Some(at),
        EventView::ToolCall { at, .. } => Some(at),
        EventView::Usage { at, .. } => Some(at),
        _ => None,
    }
}

/// The time of the latest activity.
pub open spec fn last_activity(events: Seq<EventView>) -> Option<Timestamp>
    decreases events.len(),
{
    if events.len() == 0 {
        None
    } else {
        match activity(events.last()) {
            Some(at) => Some(
                match last_activity(events.drop_last()) {
                    Some(end) => end.later_of(at),
                    None => at,
                },
            ),
            None => last_activity(events.drop_last()),
        }
    }
}

/// The digest of a session with at least one prompt.
pub open spec fn summary_of(log: LogView) -> SummaryView {
    SummaryView {
        id: log.id,
        start: first_prompt(log.events)->0,
        end: last_activity(log.events)->0,
        prompts: prompt_count(log.events) as int,
        output_tokens: reported_output(log.events),
        babysit: babysit_of(log.events),
    }
}

/// The digests of the sessions with at least one prompt, in their order.
pub open spec fn summaries_of(logs: Seq<LogView>) -> Seq<SummaryView>
    decreases logs.len(),
{
    if logs.len() == 0 {
        Seq::empty()
    } else if prompt_count(logs.last().events) > 0 {
        summaries_of(logs.drop_last()).push(summary_of(logs.last()))
    } else {
        summaries_of(logs.drop_last())
    }
}

/// True if the counters of a digest can hold the session.
pub open spec fn summary_fits(log: LogView) -> bool {
    reported_output(log.events) <= u64::MAX && babysit_fits(log.events)
}

/// True if `sorted` is `list`, by the start of the sessions; sessions that
/// start at the same time keep their order.
pub open spec fn by_start(list: Seq<SummaryView>, sorted: Seq<SummaryView>) -> bool {
    exists|order: Seq<usize>|
        {
            &&& lists_positions(order, list.len())
            &&& #[trigger] reordered(list, order, sorted)
            &&& forall|i: int, j: int|
                0 <= i < j < order.len() ==> starts_before(
                    list,
                    #[trigger] order[i] as int,
                    #[trigger] order[j] as int,
                )
        }
}

/// True if `sorted` holds the items of `list` in this order.
pub open spec fn reordered<A>(list: Seq<A>, order: Seq<usize>, sorted: Seq<A>) -> bool {
    &&& sorted.len() == order.len()
    &&& forall|i: int| 0 <= i < order.len() ==> #[trigger] sorted[i] == list[order[i] as int]
}

/// True if position `i` of the list stands before position `j` by the start of
/// the sessions.
pub open spec fn starts_before(list: Seq<SummaryView>, i: int, j: int) -> bool {
    list[i].start.before(list[j].start) || (!list[j].start.before(list[i].start) && i < j)
}

/// The follow-ups of a session: its prompts after the first.
pub open spec fn followups(events: Seq<EventView>) -> int {
    if prompt_count(events) > 0 {
        prompt_count(events) - 1
    } else {
        0
    }
}

/// The follow-ups of all sessions.
pub open spec fn all_followups(logs: Seq<LogView>) -> int
    decreases logs.len(),
{
    if logs.len() == 0 {
        0
    } else {
        all_followups(logs.drop_last()) + followups(logs.last().events)
    }
}

/// Counts the prompts.
fn count_prompts(events: &Vec<TranscriptEvent>) -> (count: u64)
    ensures
        count == prompt_count(event_views(events@)),
{
    let ghost all = event_views(events@);
    let mut count: u64 = 0;
    for i in 0..events.len()
        invariant
            all == event_views(events@),
            count <= i,
            count == prompt_count(all.take(i as int)),
    {
        assert(all.take(i + 1).drop_last() == all.take(i as int));
        assert(all.take(i + 1).last() == events@[i as int]@);
        if let TranscriptEvent::UserPrompt { .. } = &events[i] {
            count += 1;
        }
    }
    assert(all.take(all.len() as int) == all);
    count
}

proof fn lemma_reported_output_grows(events: Seq<EventView>, i: int)
    requires
        0 <= i <= events.len(),
    ensures
        0 <= reported_output(events.take(i)) <= reported_output(events),
    decreases events.len(),
{
    if i < events.len() {
        lemma_reported_output_grows(events.drop_last(), i);
        assert(events.drop_last().take(i) == events.take(i));
    } else {
        assert(events.take(i) == events);
        if i > 0 {
            assert(events.drop_last().take(i - 1) == events.drop_last());
            lemma_reported_output_grows(events.drop_last(), i - 1);
        }
    }
}

/// The output tokens of a session, where the counter can hold them.
fn sum_output(events: &Vec<TranscriptEvent>) -> (total: Option<u64>)
    ensures
        match total {
            Some(n) => n == reported_output(event_views(events@)),
            None => reported_output(event_views(events@)) > u64::MAX,
        },
{
    let ghost all = event_views(events@);
    let mut total: u64 = 0;
    for i in 0..events.len()
        invariant
            all == event_views(events@),
            total == reported_output(all.take(i as int)),
    {
        proof {
            assert(all.take(i + 1).drop_last() == all.take(i as int));
            assert(all.take(i + 1).last() == events@[i as int]@);
            lemma_reported_output_grows(all, i + 1);
        }
        if let TranscriptEvent::Usage { output_tokens, .. } = &events[i] {
            match total.checked_add(*output_tokens) {
                Some(sum) => {
                    total = sum;
                },
                None => {
                    return None;
                },
            }
        }
    }
    assert(all.take(all.len() as int) == all);
    Some(total)
}

/// The time of an event that counts as activity.
fn activity_time(event: &TranscriptEvent) -> (at: Option<Timestamp>)
    ensures
        at == activity(event@),
{
    match event {
        TranscriptEvent::UserPrompt { at } => Some(*at),
        TranscriptEvent::TurnDone { at } => Some(*at),
        TranscriptEvent::ToolCall { at, .. } => Some(*at),
        TranscriptEvent::Usage { at, .. } => Some(*at),
        _ => None,
    }
}

/// The times of the earliest prompt and of the latest activity.
fn session_window(events: &Vec<TranscriptEvent>) -> (window: (Option<Timestamp>, Option<Timestamp>))
    ensures
        window.0 == first_prompt(event_views(events@)),
        window.1 == last_activity(event_views(events@)),
        prompt_count(event_views(events@)) > 0 ==> window.0 is Some && window.1 is Some,
{
    let ghost all = event_views(events@);
    let mut start: Option<Timestamp> = None;
    let mut end: Option<Timestamp> = None;
    for i in 0..events.len()
        invariant
            all == event_views(events@),
            start == first_prompt(all.take(i as int)),
            end == last_activity(all.take(i as int)),
            prompt_count(all.take(i as int)) > 0 ==> start is Some && end is Some,
    {
        assert(all.take(i + 1).drop_last() == all.take(i as int));
        assert(all.take(i + 1).last() == events@[i as int]@);
        if let TranscriptEvent::UserPrompt { at } = &events[i] {
            start = match start {
                Some(earlier) => Some(earlier.min(*at)),
                None => Some(*at),
            };
        }
        if let Some(at) = activity_time(&events[i]) {
            end = match end {
                Some(earlier) => Some(earlier.max(at)),
                None => Some(at),
            };
        }
    }
    assert(all.take(all.len() as int) == all);
    (start, end)
}

/// The outcome of digesting a session.
enum Digest {
    /// The session has no prompt.
    Silent,
    /// The session has a digest.
    Summary(SessionSummary),
    /// The counters cannot hold the session.
    TooLarge,
}

/// Digests a session.
fn digest(log: &SessionLog) -> (result: Digest)
    ensures
        match result {
            Digest::Silent => summary_fits(log@) && prompt_count(log@.events) == 0,
            Digest::Summary(summary) => {
                &&& summary_fits(log@)
                &&& prompt_count(log@.events) > 0
                &&& summary@ == summary_of(log@)
            },
            Digest::TooLarge => !summary_fits(log@),
        },
{
    let output_tokens: u64 = match sum_output(&log.events) {
        Some(total) => total,
        None => {
            return Digest::TooLarge;
        },
    };
    let babysit = match sum_babysit(&log.events) {
        Some(gap) => gap,
        None => {
            return Digest::TooLarge;
        },
    };
    let prompts: u64 = count_prompts(&log.events);
    if prompts == 0 {
        return Digest::Silent;
    }
    if let (Some(start), Some(end)) = session_window(&log.events) {
        return Digest::Summary(
            SessionSummary { id: log.id.clone(), start, end, prompts, output_tokens, babysit },
        );
    }
    Digest::Silent
}

/// The digests of all sessions with a prompt, where the counters can hold them.
fn collect_summaries(logs: &Vec<SessionLog>) -> (summaries: Option<Vec<SessionSummary>>)
    ensures
        summaries is Some <==> forall|i: int|
            0 <= i < logs@.len() ==> summary_fits(#[trigger] log_views(logs@)[i]),
        summaries matches Some(list) ==> summary_views(list@) == summaries_of(log_views(logs@)),
{
    let ghost all = log_views(logs@);
    let mut summaries: Vec<SessionSummary> = Vec::new();
    for i in 0..logs.len()
        invariant
            all == log_views(logs@),
            forall|k: int| 0 <= k < i ==> summary_fits(#[trigger] all[k]),
            summary_views(summaries@) == summaries_of(all.take(i as int)),
    {
        assert(all[i as int] == logs@[i as int]@);
        assert(all.take(i + 1).drop_last() == all.take(i as int));
        let ghost before = summary_views(summaries@);
        match digest(&logs[i]) {
            Digest::Silent => {},
            Digest::Summary(summary) => {
                summaries.push(summary);
                assert(summary_views(summaries@) == before.push(summary@));
            },
            Digest::TooLarge => {
                return None;
            },
        }
    }
    assert(all.take(all.len() as int) == all);
    Some(summaries)
}

/// The start of a session, earliest first.
struct Start {
    at: Timestamp,
}

impl Ranked for Start {
    closed spec fn precedes(&self, other: &Self) -> bool {
        self.at.before(other.at)
    }

    proof fn order_laws(a: &Self, b: &Self, c: &Self) {
    }

    fn goes_before(&self, other: &Self) -> (yes: bool) {
        self.at.is_before(&other.at)
    }
}

/// A copy of a digest.
fn copy_summary(summary: &SessionSummary) -> (copy: SessionSummary)
    ensures
        copy@ == summary@,
{
    SessionSummary {
        id: summary.id.clone(),
        start: summary.start,
        end: summary.end,
        prompts: summary.prompts,
        output_tokens: summary.output_tokens,
        babysit: summary.babysit,
    }
}

/// Sorts digests by the start of the sessions.
fn sort_by_start(summaries: &Vec<SessionSummary>) -> (sorted: Vec<SessionSummary>)
    ensures
        by_start(summary_views(summaries@), summary_views(sorted@)),
{
    let ghost list = summary_views(summaries@);
    let mut keys: Vec<Start> = Vec::new();
    for i in 0..summaries.len()
        invariant
            list == summary_views(summaries@),
            keys@.len() == i,
            forall|k: int| 0 <= k < i ==> (#[trigger] keys@[k]).at == list[k].start,
    {
        keys.push(Start { at: summaries[i].start });
    }
    let order = stable_order(&keys);
    let mut sorted: Vec<SessionSummary> = Vec::new();
    for i in 0..order.len()
        invariant
            list == summary_views(summaries@),
            lists_positions(order@, list.len()),
            sorted@.len() == i,
            forall|k: int| 0 <= k < i ==> (#[trigger] sorted@[k])@ == list[order@[k] as int],
    {
        assert(order@[i as int] < list.len());
        sorted.push(copy_summary(&summaries[order[i]]));
    }
    proof {
        assert(reordered(list, order@, summary_views(sorted@)));
        assert forall|i: int, j: int| 0 <= i < j < order@.len() implies starts_before(
            list,
            #[trigger] order@[i] as int,
            #[trigger] order@[j] as int,
        ) by {
            assert(sorts_before(keys@, order@[i] as int, order@[j] as int));
        }
    }
    sorted
}

proof fn lemma_all_followups_grow(logs: Seq<LogView>, i: int)
    requires
        0 <= i <= logs.len(),
    ensures
        0 <= all_followups(logs.take(i)) <= all_followups(logs),
    decreases logs.len(),
{
    if i < logs.len() {
        lemma_all_followups_grow(logs.drop_last(), i);
        assert(logs.drop_last().take(i) == logs.take(i));
    } else {
        assert(logs.take(i) == logs);
        if i > 0 {
            assert(logs.drop_last().take(i - 1) == logs.drop_last());
            lemma_all_followups_grow(logs.drop_last(), i - 1);
        }
    }
}

/// The follow-ups of all sessions, where the counter can hold them.
fn sum_followups(logs: &Vec<SessionLog>) -> (total: Option<u64>)
    ensures
        match total {
            Some(n) => n == all_followups(log_views(logs@)),
            None => all_followups(log_views(logs@)) > u64::MAX,
        },
{
    let ghost all = log_views(logs@);
    let mut total: u64 = 0;
    for i in 0..logs.len()
        invariant
            all == log_views(logs@),
            total == all_followups(all.take(i as int)),
    {
        proof {
            assert(all[i as int] == logs@[i as int]@);
            assert(all.take(i + 1).drop_last() == all.take(i as int));
            lemma_all_followups_grow(all, i + 1);
        }
        let prompts: u64 = count_prompts(&logs[i].events);
        match total.checked_add(prompts.saturating_sub(1)) {
            Some(sum) => {
                total = sum;
            },
            None => {
                return None;
            },
        }
    }
    assert(all.take(all.len() as int) == all);
    Some(total)
}

// ---- history ------------------------------------------------------------------

/// How many days the history, and the commits that it is joined with, go back.
pub const HISTORY_DAYS: u64 = 30;

/// How many days the sparkline shows.
pub const SPARK_DAYS: i64 = 8;

/// Aggregates over the recent transcripts of a project.
pub struct History {
    /// How many sessions there were.
    pub sessions: u64,
    /// The last days, oldest first, each with its output tokens.
    pub tokens_by_day: Vec<(i64, u64)>,
    pub edits_per_file: Tally,
    pub sessions_per_file: Tally,
    /// Every edit with its local day: the heatmap grid.
    pub edits: Vec<Edit>,
    /// The prompts after the first one of each session, all together.
    pub followups: u64,
    pub babysit_today: Gap,
    /// The sessions with a prompt, by their start.
    pub summaries: Vec<SessionSummary>,
}

/// True if the counters can hold the sessions.
pub open spec fn history_fits(logs: Seq<LogView>, today: int) -> bool {
    &&& forall|i: int| 0 <= i < logs.len() ==> summary_fits(#[trigger] logs[i])
    &&& all_followups(logs) <= u64::MAX
    &&& babysit_on_fits(logs, today)
    &&& forall|k: int|
        0 <= k < SPARK_DAYS ==> #[trigger] all_tokens_on(logs, spark_day(today, k)) <= u64::MAX
}

/// Day `k` of the sparkline: its last one is today.
pub open spec fn spark_day(today: int, k: int) -> int {
    today - (SPARK_DAYS - 1) + k
}

impl History {
    /// True if the aggregates are those of the sessions.
    pub open spec fn aggregates(self, logs: Seq<LogView>, today: int) -> bool {
        &&& self.sessions == logs.len()
        &&& self.tokens_by_day@.len() == SPARK_DAYS
        &&& forall|k: int|
            0 <= k < SPARK_DAYS ==> {
                &&& (#[trigger] self.tokens_by_day@[k]).0 == spark_day(today, k)
                &&& self.tokens_by_day@[k].1 == all_tokens_on(logs, spark_day(today, k))
            }
        &&& tallies(self.edits_per_file@, |file: Seq<char>| edits_of(all_edits(logs), file))
        &&& tallies(self.sessions_per_file@, |file: Seq<char>| sessions_editing(logs, file))
        &&& edit_views(self.edits@) == all_edits(logs)
        &&& self.followups == all_followups(logs)
        &&& self.babysit_today.length() == all_babysit_on(logs, today)
        &&& gap_in_range(self.babysit_today.length())
        &&& by_start(summaries_of(logs), summary_views(self.summaries@))
    }

    /// The history of a project without sessions.
    pub fn new() -> (history: History)
        ensures
            history.sessions == 0,
            history.tokens_by_day@.len() == 0,
            history.edits_per_file@ == Map::<Seq<char>, u64>::empty(),
            history.sessions_per_file@ == Map::<Seq<char>, u64>::empty(),
            history.edits@.len() == 0,
            history.followups == 0,
            history.babysit_today.length() == 0,
            history.summaries@.len() == 0,
    {
        History {
            sessions: 0,
            tokens_by_day: Vec::new(),
            edits_per_file: Tally::new(),
            sessions_per_file: Tally::new(),
            edits: Vec::new(),
            followups: 0,
            babysit_today: Gap::zero(),
            summaries: Vec::new(),
        }
    }

    /// Aggregates the sessions, each given by its events and their local days.
    /// The result is missing exactly where the counters cannot hold them.
    pub fn scan(logs: &Vec<SessionLog>, today: i64) -> (history: Option<History>)
        requires
            all_dated(log_views(logs@)),
            i64::MIN + SPARK_DAYS <= today,
        ensures
            history is Some <==> history_fits(log_views(logs@), today as int),
            history matches Some(h) ==> h.aggregates(log_views(logs@), today as int),
    {
        let ghost all = log_views(logs@);
        let summaries = match collect_summaries(logs) {
            Some(list) => sort_by_start(&list),
            None => {
                return None;
            },
        };
        let followups: u64 = match sum_followups(logs) {
            Some(total) => total,
            None => {
                return None;
            },
        };
        let babysit_today = match sum_babysit_on(logs, today) {
            Some(gap) => gap,
            None => {
                return None;
            },
        };
        let mut tokens_by_day: Vec<(i64, u64)> = Vec::new();
        let mut k: i64 = 0;
        while k < SPARK_DAYS
            invariant
                all == log_views(logs@),
                all_dated(all),
                i64::MIN + SPARK_DAYS <= today,
                0 <= k <= SPARK_DAYS,
                tokens_by_day@.len() == k,
                forall|j: int|
                    0 <= j < k ==> {
                        &&& (#[trigger] tokens_by_day@[j]).0 == spark_day(today as int, j)
                        &&& tokens_by_day@[j].1 == all_tokens_on(all, spark_day(today as int, j))
                    },
            decreases SPARK_DAYS - k,
        {
            let day: i64 = today - (SPARK_DAYS - 1 - k);
            assert(day == spark_day(today as int, k as int));
            match sum_tokens_on(logs, day) {
                Some(total) => {
                    tokens_by_day.push((day, total));
                },
                None => {
                    assert(!(all_tokens_on(all, spark_day(today as int, k as int)) <= u64::MAX));
                    return None;
                },
            }
            k += 1;
        }
        assert forall|j: int| 0 <= j < SPARK_DAYS implies #[trigger] all_tokens_on(
            all,
            spark_day(today as int, j),
        ) <= u64::MAX by {
            assert(tokens_by_day@[j].1 == all_tokens_on(all, spark_day(today as int, j)));
        }
        let edits = collect_all_edits(logs);
        let edits_per_file = tally_edits(&edits);
        let sessions_per_file = tally_sessions(logs);
        Some(
            History {
                sessions: logs.len() as u64,
                tokens_by_day,
                edits_per_file,
                sessions_per_file,
                edits,
                followups,
                babysit_today,
                summaries,
            },
        )
    }

    /// Historical churn of a file: how often it was edited.
    pub fn churn(&self, file: &str) -> (edits: u64)
        ensures
            edits == count_of(self.edits_per_file@, file@),
    {
        self.edits_per_file.count(file)
    }

    /// How often a file was edited on a local day.
    pub fn edits_on_day(&self, file: &str, day: i64) -> (count: u64)
        ensures
            count == edits_on(edit_views(self.edits@), file@, day as int),
    {
        let ghost all = edit_views(self.edits@);
        let name = file.to_owned();
        let mut count: u64 = 0;
        for i in 0..self.edits.len()
            invariant
                all == edit_views(self.edits@),
                name@ == file@,
                count <= i,
                count == edits_on(all.take(i as int), file@, day as int),
        {
            assert(all.take(i + 1).drop_last() == all.take(i as int));
            assert(all.take(i + 1).last() == self.edits@[i as int]@);
            if self.edits[i].day == day && self.edits[i].file == name {
                count += 1;
            }
        }
        assert(all.take(all.len() as int) == all);
        count
    }
}

// ---- ranking ------------------------------------------------------------------

/// A file with the number of its edits.
pub struct HotFile {
    pub file: String,
    pub edits: u64,
}

/// True if the first file stands before the second: it was edited more often,
/// or as often and comes first alphabetically.
pub open spec fn hotter(file: Seq<char>, edits: int, other: Seq<char>, others: int) -> bool {
    edits > others || (edits == others && text_before(file, other))
}

/// True if the file is one of the list.
pub open spec fn lists_file(list: Seq<HotFile>, file: Seq<char>) -> bool {
    exists|i: int| 0 <= i < list.len() && (#[trigger] list[i]).file@ == file
}

/// True if `list` holds the `count` hottest files, or all of them where there
/// are fewer, hottest first.
pub open spec fn hottest(counts: Map<Seq<char>, u64>, list: Seq<HotFile>, count: nat) -> bool {
    &&& list.len() <= count
    &&& forall|i: int|
        0 <= i < list.len() ==> counts.contains_key((#[trigger] list[i]).file@)
            && counts[list[i].file@] == list[i].edits
    &&& forall|i: int, j: int|
        0 <= i < j < list.len() ==> hotter(
            (#[trigger] list[i]).file@,
            list[i].edits as int,
            (#[trigger] list[j]).file@,
            list[j].edits as int,
        )
    &&& forall|file: Seq<char>| #[trigger]
        counts.contains_key(file) && !lists_file(list, file) ==> list.len() == count && forall|
            i: int,
        |
            0 <= i < list.len() ==> hotter(
                (#[trigger] list[i]).file@,
                list[i].edits as int,
                file,
                counts[file] as int,
            )
}

impl Ranked for HotFile {
    open spec fn precedes(&self, other: &Self) -> bool {
        hotter(self.file@, self.edits as int, other.file@, other.edits as int)
    }

    proof fn order_laws(a: &Self, b: &Self, c: &Self) {
        text_order_laws(a.file@, b.file@, c.file@);
        text_order_laws(a.file@, c.file@, b.file@);
        text_order_laws(b.file@, a.file@, c.file@);
        text_order_laws(b.file@, c.file@, a.file@);
    }

    fn goes_before(&self, other: &Self) -> (yes: bool) {
        self.edits > other.edits || (self.edits == other.edits && sorts_before_text(
            self.file.as_str(),
            other.file.as_str(),
        ))
    }
}

impl History {
    /// The most-edited files, descending: the heatmap rows.
    pub fn hottest_files(&self, count: usize) -> (files: Vec<HotFile>)
        ensures
            hottest(self.edits_per_file@, files@, count as nat),
    {
        let tally = &self.edits_per_file;
        let ghost counts = tally@;
        let ghost names = tally.order();
        let total: usize = tally.len();
        let mut all: Vec<HotFile> = Vec::new();
        for i in 0..total
            invariant
                total == names.len(),
                names == tally.order(),
                counts == tally@,
                lists_names(names, counts),
                all@.len() == i,
                forall|k: int|
                    0 <= k < i ==> (#[trigger] all@[k]).file@ == names[k] && all@[k].edits
                        == counts[names[k]],
        {
            let name = tally.name(i);
            assert(names.contains(names[i as int]));
            assert(counts.contains_key(names[i as int]));
            all.push(HotFile { file: name.clone(), edits: tally.count(name.as_str()) });
        }
        let order = stable_order(&all);
        let shown: usize = if count < total {
            count
        } else {
            total
        };
        let mut files: Vec<HotFile> = Vec::new();
        for i in 0..shown
            invariant
                shown <= total,
                total == names.len(),
                all@.len() == total,
                lists_positions(order@, total as nat),
                files@.len() == i,
                forall|k: int|
                    0 <= k < i ==> (#[trigger] files@[k]).file@ == all@[order@[k] as int].file@
                        && files@[k].edits == all@[order@[k] as int].edits,
        {
            assert(order@[i as int] < total);
            let hot = &all[order[i]];
            files.push(HotFile { file: hot.file.clone(), edits: hot.edits });
        }
        proof {
            assert forall|i: int, j: int| 0 <= i < j < order@.len() implies hotter(
                all@[#[trigger] order@[i] as int].file@,
                all@[order@[i] as int].edits as int,
                all@[#[trigger] order@[j] as int].file@,
                all@[order@[j] as int].edits as int,
            ) by {
                let a = order@[i] as int;
                let b = order@[j] as int;
                assert(sorts_before(all@, a, b));
                assert(names[a] != names[b]);
                text_order_laws(names[a], names[b], names[a]);
            }
            assert forall|i: int| 0 <= i < files@.len() implies counts.contains_key(
                (#[trigger] files@[i]).file@,
            ) && counts[files@[i].file@] == files@[i].edits by {
                assert(names.contains(names[order@[i] as int]));
            }
            assert forall|i: int, j: int| 0 <= i < j < files@.len() implies hotter(
                (#[trigger] files@[i]).file@,
                files@[i].edits as int,
                (#[trigger] files@[j]).file@,
                files@[j].edits as int,
            ) by {
                assert(order@[i] != order@[j]);
            }
            assert forall|file: Seq<char>| #[trigger]
                counts.contains_key(file) && !lists_file(files@, file) implies files@.len() == count
                && forall|i: int|
                0 <= i < files@.len() ==> hotter(
                    (#[trigger] files@[i]).file@,
                    files@[i].edits as int,
                    file,
                    counts[file] as int,
                ) by {
                assert(names.contains(file));
                let p = names.index_of(file);
                lemma_every_position_listed(order@, p as usize);
                let n = order@.index_of(p as usize);
                if n < shown {
                    assert(files@[n].file@ == file);
                }
                assert(n >= shown);
                assert forall|i: int| 0 <= i < files@.len() implies hotter(
                    (#[trigger] files@[i]).file@,
                    files@[i].edits as int,
                    file,
                    counts[file] as int,
                ) by {
                    assert(order@[i] != order@[n]);
                }
            }
        }
        files
    }
}

// ---- laws ---------------------------------------------------------------------

/// The order in which the sorted list holds the digests.
proof fn order_of_starts(list: Seq<SummaryView>, sorted: Seq<SummaryView>) -> (order: Seq<usize>)
    requires
        by_start(list, sorted),
    ensures
        lists_positions(order, list.len()),
        reordered(list, order, sorted),
        forall|i: int, j: int|
            0 <= i < j < order.len() ==> starts_before(
                list,
                #[trigger] order[i] as int,
                #[trigger] order[j] as int,
            ),
{
    choose|order: Seq<usize>|
        {
            &&& lists_positions(order, list.len())
            &&& #[trigger] reordered(list, order, sorted)
            &&& forall|i: int, j: int|
                0 <= i < j < order.len() ==> starts_before(
                    list,
                    #[trigger] order[i] as int,
                    #[trigger] order[j] as int,
                )
        }
}

/// The digests are in the order in which the sessions began.
pub proof fn summaries_are_in_order(
    list: Seq<SummaryView>,
    sorted: Seq<SummaryView>,
    i: int,
    j: int,
)
    requires
        by_start(list, sorted),
        0 <= i < j < sorted.len(),
    ensures
        !sorted[j].start.before(sorted[i].start),
{
    let order = order_of_starts(list, sorted);
    assert(starts_before(list, order[i] as int, order[j] as int));
    assert(sorted[i] == list[order[i] as int]);
    assert(sorted[j] == list[order[j] as int]);
}

/// Sorting loses no digest.
pub proof fn summaries_keep_every_session(
    list: Seq<SummaryView>,
    sorted: Seq<SummaryView>,
    i: int,
)
    requires
        by_start(list, sorted),
        0 <= i < list.len(),
    ensures
        sorted.len() == list.len(),
        sorted.contains(list[i]),
{
    let order = order_of_starts(list, sorted);
    lemma_positions_fit(order);
    lemma_every_position_listed(order, i as usize);
    let k = order.index_of(i as usize);
    assert(sorted[k] == list[i]);
}

/// A session with a prompt has a window, and the window does not end before it
/// begins.
pub proof fn windows_end_after_they_begin(events: Seq<EventView>)
    requires
        prompt_count(events) > 0,
    ensures
        first_prompt(events) is Some,
        last_activity(events) is Some,
        !last_activity(events)->0.before(first_prompt(events)->0),
    decreases events.len(),
{
    if events.len() > 0 {
        let earlier = events.drop_last();
        if prompt_count(earlier) > 0 {
            windows_end_after_they_begin(earlier);
        } else {
            lemma_no_prompt(earlier);
        }
    }
}

proof fn lemma_no_prompt(events: Seq<EventView>)
    requires
        prompt_count(events) == 0,
    ensures
        first_prompt(events) is None,
    decreases events.len(),
{
    if events.len() > 0 {
        lemma_no_prompt(events.drop_last());
    }
}

/// The edits of a file on all of the days, together.
pub open spec fn edits_on_days(edits: Seq<EditView>, file: Seq<char>, days: Seq<int>) -> nat
    decreases days.len(),
{
    if days.len() == 0 {
        0
    } else {
        edits_on_days(edits, file, days.drop_last()) + edits_on(edits, file, days.last())
    }
}

/// The grid of the heatmap divides the churn of a file: its edits on all days
/// on which there were edits add up to its edits.
pub proof fn days_divide_the_edits(edits: Seq<EditView>, file: Seq<char>, days: Seq<int>)
    requires
        days.no_duplicates(),
        forall|i: int| 0 <= i < edits.len() ==> days.contains((#[trigger] edits[i]).day as int),
    ensures
        edits_on_days(edits, file, days) == edits_of(edits, file),
    decreases edits.len(),
{
    if edits.len() == 0 {
        lemma_no_edits(edits, file, days);
    } else {
        let fewer = edits.drop_last();
        assert forall|i: int| 0 <= i < fewer.len() implies days.contains(
            (#[trigger] fewer[i]).day as int,
        ) by {
            assert(fewer[i] == edits[i]);
        }
        days_divide_the_edits(fewer, file, days);
        assert(days.contains(edits[edits.len() - 1].day as int));
        lemma_one_more_edit(edits, file, days);
    }
}

proof fn lemma_no_edits(edits: Seq<EditView>, file: Seq<char>, days: Seq<int>)
    requires
        edits.len() == 0,
    ensures
        edits_on_days(edits, file, days) == 0,
    decreases days.len(),
{
    if days.len() > 0 {
        lemma_no_edits(edits, file, days.drop_last());
    }
}

proof fn lemma_one_more_edit(edits: Seq<EditView>, file: Seq<char>, days: Seq<int>)
    requires
        edits.len() > 0,
        days.no_duplicates(),
    ensures
        edits_on_days(edits, file, days) == edits_on_days(edits.drop_last(), file, days)
            + if edits.last().file == file && days.contains(edits.last().day as int) {
            1nat
        } else {
            0nat
        },
    decreases days.len(),
{
    if days.len() > 0 {
        let rest = days.drop_last();
        let day = edits.last().day as int;
        assert(rest.no_duplicates());
        lemma_one_more_edit(edits, file, rest);
        if rest.contains(day) {
            let i = rest.index_of(day);
            assert(days[i] == day);
        } else if days.contains(day) {
            let i = days.index_of(day);
            if i < rest.len() {
                assert(rest[i] == day);
            }
        }
        if days.last() == day {
            assert(days[days.len() - 1] == day);
        }
    }
}

/// There is one list of the hottest files only.
pub proof fn hottest_files_are_unique(
    counts: Map<Seq<char>, u64>,
    a: Seq<HotFile>,
    b: Seq<HotFile>,
    count: nat,
)
    requires
        hottest(counts, a, count),
        hottest(counts, b, count),
    ensures
        a.len() == b.len(),
        forall|i: int|
            0 <= i < a.len() ==> (#[trigger] a[i]).file@ == b[i].file@ && a[i].edits == b[i].edits,
{
    let shared = if a.len() < b.len() {
        a.len()
    } else {
        b.len()
    };
    assert forall|i: int| 0 <= i < shared implies (#[trigger] a[i]).file@ == b[i].file@ by {
        lemma_same_hottest(counts, a, b, count, i);
    }
    lemma_not_longer(counts, a, b, count);
    assert forall|i: int| 0 <= i < b.len() && i < a.len() implies (#[trigger] b[i]).file@
        == a[i].file@ by {
        assert(a[i].file@ == b[i].file@);
    }
    lemma_not_longer(counts, b, a, count);
}

/// A list of the hottest files that agrees with another one is not longer.
proof fn lemma_not_longer(
    counts: Map<Seq<char>, u64>,
    list: Seq<HotFile>,
    other: Seq<HotFile>,
    count: nat,
)
    requires
        hottest(counts, list, count),
        hottest(counts, other, count),
        forall|i: int|
            0 <= i < list.len() && i < other.len() ==> (#[trigger] list[i]).file@ == other[i].file@,
    ensures
        other.len() <= list.len(),
{
    if list.len() < other.len() {
        let extra = other[list.len() as int];
        assert(counts.contains_key(extra.file@));
        if lists_file(list, extra.file@) {
            let i = choose|i: int|
                0 <= i < list.len() && (#[trigger] list[i]).file@ == extra.file@;
            assert(other[i].file@ == extra.file@);
            text_order_laws(extra.file@, extra.file@, extra.file@);
        }
    }
}

proof fn lemma_same_hottest(
    counts: Map<Seq<char>, u64>,
    a: Seq<HotFile>,
    b: Seq<HotFile>,
    count: nat,
    n: int,
)
    requires
        hottest(counts, a, count),
        hottest(counts, b, count),
        0 <= n < a.len(),
        n < b.len(),
    ensures
        a[n].file@ == b[n].file@,
    decreases n,
{
    if a[n].file@ != b[n].file@ {
        assert forall|i: int| 0 <= i < n implies (#[trigger] a[i]).file@ == b[i].file@ by {
            lemma_same_hottest(counts, a, b, count, i);
        }
        lemma_not_cooler(counts, a, b, count, n);
        assert forall|i: int| 0 <= i < n implies (#[trigger] b[i]).file@ == a[i].file@ by {
            assert(a[i].file@ == b[i].file@);
        }
        lemma_not_cooler(counts, b, a, count, n);
        text_order_laws(a[n].file@, b[n].file@, a[n].file@);
    }
}

/// Where two lists agree up to a place, the file that the first one has there
/// is hotter than that of the second.
proof fn lemma_not_cooler(
    counts: Map<Seq<char>, u64>,
    a: Seq<HotFile>,
    b: Seq<HotFile>,
    count: nat,
    n: int,
)
    requires
        hottest(counts, a, count),
        hottest(counts, b, count),
        0 <= n < a.len(),
        n < b.len(),
        a[n].file@ != b[n].file@,
        forall|i: int| 0 <= i < n ==> (#[trigger] a[i]).file@ == b[i].file@,
    ensures
        hotter(a[n].file@, a[n].edits as int, b[n].file@, b[n].edits as int),
{
    let file = b[n].file@;
    assert(counts.contains_key(file));
    if lists_file(a, file) {
        let j = choose|j: int| 0 <= j < a.len() && (#[trigger] a[j]).file@ == file;
        if j < n {
            assert(a[j].file@ == b[j].file@);
            text_order_laws(file, file, file);
        }
    }
}


// ---- what one event more does -------------------------------------------------

/// True if none of the events begins or ends a wait.
pub open spec fn leaves_the_wait(events: Seq<EventView>) -> bool {
    forall|i: int|
        0 <= i < events.len() ==> (#[trigger] events[i] is AssistantText || events[i] is ToolResult
            || events[i] is Usage || events[i] is Interrupted)
}

/// A wait from the end of a turn to the next prompt counts in full, however long
/// it is and whatever is recorded meanwhile: for the session, and for the day of
/// the prompt.
pub proof fn waits_count_in_full(
    events: Seq<EventView>,
    ended: Timestamp,
    meanwhile: Seq<EventView>,
    at: Timestamp,
    days: Seq<i64>,
    day: int,
)
    requires
        leaves_the_wait(meanwhile),
    ensures
        ({
            let all = events.push(EventView::TurnDone { at: ended }) + meanwhile.push(
                EventView::UserPrompt { at },
            );
            &&& babysit_of(all) == babysit_of(events) + at.nanos_since(ended)
            &&& babysit_on(all, days, day) == babysit_on(events, days, day) + if days[all.len()
                - 1] == day {
                at.nanos_since(ended)
            } else {
                0
            }
        }),
{
    let started = events.push(EventView::TurnDone { at: ended });
    let prompted = meanwhile.push(EventView::UserPrompt { at });
    let all = started + prompted;
    assert(started.drop_last() == events);
    lemma_wait_goes_on(started, meanwhile, days, day);
    assert(all.drop_last() == started + meanwhile);
}

proof fn lemma_wait_goes_on(
    events: Seq<EventView>,
    meanwhile: Seq<EventView>,
    days: Seq<i64>,
    day: int,
)
    requires
        leaves_the_wait(meanwhile),
    ensures
        waiting_after(events + meanwhile) == waiting_after(events),
        babysit_of(events + meanwhile) == babysit_of(events),
        babysit_on(events + meanwhile, days, day) == babysit_on(events, days, day),
    decreases meanwhile.len(),
{
    if meanwhile.len() == 0 {
        assert(events + meanwhile == events);
    } else {
        let earlier = meanwhile.drop_last();
        assert forall|i: int| 0 <= i < earlier.len() implies (#[trigger] earlier[
            i
        ] is AssistantText || earlier[i] is ToolResult || earlier[i] is Usage || earlier[
            i
        ] is Interrupted) by {
            assert(earlier[i] == meanwhile[i]);
        }
        lemma_wait_goes_on(events, earlier, days, day);
        assert((events + meanwhile).drop_last() == events + earlier);
        assert(meanwhile[meanwhile.len() - 1] == meanwhile.last());
    }
}

/// Only a prompt that ends a wait adds to the time of waiting: no other event
/// does, nor a prompt right after a prompt or a call.
pub proof fn nothing_else_is_waiting(
    events: Seq<EventView>,
    event: EventView,
    before: EventView,
    at: Timestamp,
    days: Seq<i64>,
    day: int,
)
    requires
        !(event is UserPrompt),
        before is UserPrompt || before is ToolCall,
    ensures
        babysit_of(Seq::empty()) == 0,
        babysit_of(events.push(event)) == babysit_of(events),
        babysit_on(events.push(event), days, day) == babysit_on(events, days, day),
        babysit_of(events.push(before).push(EventView::UserPrompt { at })) == babysit_of(
            events.push(before),
        ),
{
    assert(events.push(event).drop_last() == events);
    assert(events.push(before).push(EventView::UserPrompt { at }).drop_last() == events.push(
        before,
    ));
}

/// The tokens of a message count on its day, in full, and on no other; nothing
/// but usage has tokens.
pub proof fn tokens_count_on_their_day(
    events: Seq<EventView>,
    days: Seq<i64>,
    at: Timestamp,
    input: u64,
    output: u64,
    other: EventView,
    day: int,
)
    requires
        !(other is Usage),
    ensures
        tokens_on(Seq::empty(), days, day) == 0,
        tokens_on(
            events.push(EventView::Usage { at, input_tokens: input, output_tokens: output }),
            days,
            day,
        ) == tokens_on(events, days, day) + if days[events.len() as int] == day {
            output as int
        } else {
            0
        },
        tokens_on(events.push(other), days, day) == tokens_on(events, days, day),
{
    let usage = EventView::Usage { at, input_tokens: input, output_tokens: output };
    assert(events.push(usage).drop_last() == events);
    assert(events.push(other).drop_last() == events);
}

/// An edit is recorded with its file and its day; other calls, and calls that
/// name no file, are no edits.
pub proof fn edits_are_recorded(
    events: Seq<EventView>,
    days: Seq<i64>,
    at: Timestamp,
    id: Seq<char>,
    name: Seq<char>,
    file: Seq<char>,
    other: EventView,
)
    requires
        !(other is ToolCall),
    ensures
        ({
            let call = EventView::ToolCall { at, id, name, label: file };
            let edits = name == "Edit"@ || name == "Write"@ || name == "NotebookEdit"@;
            &&& edits && file.len() > 0 ==> edits_in(events.push(call), days) == edits_in(
                events,
                days,
            ).push(EditView { file, day: days[events.len() as int] })
            &&& !edits || file.len() == 0 ==> edits_in(events.push(call), days) == edits_in(
                events,
                days,
            )
        }),
        edits_in(events.push(other), days) == edits_in(events, days),
{
    let call = EventView::ToolCall { at, id, name, label: file };
    assert(events.push(call).drop_last() == events);
    assert(events.push(other).drop_last() == events);
    let edits = edits_in(events, days);
    assert(edits + Seq::<EditView>::empty() == edits);
    assert(edits + seq![EditView { file, day: days[events.len() as int] }] == edits.push(
        EditView { file, day: days[events.len() as int] },
    ));
}

/// One edit more counts for its file, and on its day, and for nothing else.
pub proof fn edits_count_for_their_file(
    edits: Seq<EditView>,
    edit: EditView,
    file: Seq<char>,
    day: int,
)
    ensures
        edits_of(Seq::empty(), file) == 0,
        edits_of(edits.push(edit), file) == edits_of(edits, file) + if edit.file == file {
            1nat
        } else {
            0nat
        },
        edits_on(edits.push(edit), file, day) == edits_on(edits, file, day) + if edit.file == file
            && edit.day == day {
            1nat
        } else {
            0nat
        },
{
    assert(edits.push(edit).drop_last() == edits);
}

/// One session more adds its own edits, tokens, waits and follow-ups to those of
/// the others, and counts once for each file that it edited.
pub proof fn sessions_add_up(logs: Seq<LogView>, log: LogView, file: Seq<char>, day: int)
    ensures
        all_edits(logs.push(log)) == all_edits(logs) + edits_in(log.events, log.days),
        all_tokens_on(logs.push(log), day) == all_tokens_on(logs, day) + tokens_on(
            log.events,
            log.days,
            day,
        ),
        all_babysit_on(logs.push(log), day) == all_babysit_on(logs, day) + babysit_on(
            log.events,
            log.days,
            day,
        ),
        all_followups(logs.push(log)) == all_followups(logs) + if prompt_count(log.events) > 1 {
            prompt_count(log.events) - 1
        } else {
            0
        },
        sessions_editing(logs.push(log), file) == sessions_editing(logs, file) + if edits_of(
            edits_in(log.events, log.days),
            file,
        ) > 0 {
            1nat
        } else {
            0nat
        },
        all_tokens_on(Seq::empty(), day) == 0,
        all_babysit_on(Seq::empty(), day) == 0,
        all_followups(Seq::empty()) == 0,
        sessions_editing(Seq::empty(), file) == 0,
{
    assert(logs.push(log).drop_last() == logs);
}

/// True if the event is something that the user or the agent does: a prompt, the
/// end of a turn, a call or a message.
pub open spec fn acts_at(event: EventView, time: Timestamp) -> bool {
    ||| event matches EventView::UserPrompt { at } && at == time
    ||| event matches EventView::TurnDone { at } && at == time
    ||| event matches EventView::ToolCall { at, .. } && at == time
    ||| event matches EventView::Usage { at, .. } && at == time
}

/// A session begins with its earliest prompt.
pub proof fn sessions_begin_with_their_earliest_prompt(events: Seq<EventView>)
    ensures
        first_prompt(events) is None <==> forall|i: int|
            0 <= i < events.len() ==> !(#[trigger] events[i] is UserPrompt),
        first_prompt(events) matches Some(start) ==> {
            &&& exists|i: int|
                0 <= i < events.len() && #[trigger] events[i] == (EventView::UserPrompt {
                    at: start,
                })
            &&& forall|i: int|
                0 <= i < events.len() ==> (#[trigger] events[i] matches EventView::UserPrompt { at }
                    ==> !at.before(start))
        },
    decreases events.len(),
{
    if events.len() > 0 {
        let earlier = events.drop_last();
        let last = events.len() - 1;
        sessions_begin_with_their_earliest_prompt(earlier);
        assert(events[last] == events.last());
        assert forall|i: int| 0 <= i < last implies #[trigger] events[i] == earlier[i] by {}
        if let Some(start) = first_prompt(events) {
            if !(events[last] == (EventView::UserPrompt { at: start })) {
                let i = choose|i: int|
                    0 <= i < earlier.len() && #[trigger] earlier[i] == (EventView::UserPrompt {
                        at: start,
                    });
                assert(events[i] == earlier[i]);
            }
            assert forall|i: int| 0 <= i < events.len() implies (#[trigger] events[
                i
            ] matches EventView::UserPrompt { at } ==> !at.before(start)) by {
                if i < last {
                    assert(events[i] == earlier[i]);
                }
            }
        }
    }
}

/// A session ends with its latest activity.
pub proof fn sessions_end_with_their_latest_activity(events: Seq<EventView>)
    ensures
        last_activity(events) matches Some(end) ==> exists|i: int|
            0 <= i < events.len() && acts_at(#[trigger] events[i], end),
        forall|i: int, time: Timestamp|
            0 <= i < events.len() && #[trigger] acts_at(events[i], time) ==> last_activity(
                events,
            ) is Some && !last_activity(events)->0.before(time),
    decreases events.len(),
{
    if events.len() > 0 {
        let earlier = events.drop_last();
        let last = events.len() - 1;
        sessions_end_with_their_latest_activity(earlier);
        assert(events[last] == events.last());
        if let Some(end) = last_activity(events) {
            if !acts_at(events[last], end) {
                let i = choose|i: int|
                    0 <= i < earlier.len() && acts_at(#[trigger] earlier[i], end);
                assert(acts_at(events[i], end));
            }
        }
        assert forall|i: int, time: Timestamp|
            0 <= i < events.len() && #[trigger] acts_at(events[i], time) implies last_activity(
            events,
        ) is Some && !last_activity(events)->0.before(time) by {
            if i < last {
                assert(acts_at(earlier[i], time));
            }
        }
    }
}

/// A session with a prompt gets a digest with its identifier, its window, all of
/// its prompts and tokens and the time that the agent waited; one without a
/// prompt gets none.
pub proof fn prompted_sessions_are_digested(logs: Seq<LogView>, log: LogView)
    ensures
        (exists|i: int|
            0 <= i < log.events.len() && #[trigger] log.events[i] is UserPrompt) ==> summaries_of(
            logs.push(log),
        ) == summaries_of(logs).push(
            SummaryView {
                id: log.id,
                start: first_prompt(log.events)->0,
                end: last_activity(log.events)->0,
                prompts: prompt_count(log.events) as int,
                output_tokens: reported_output(log.events),
                babysit: babysit_of(log.events),
            },
        ),
        (forall|i: int|
            0 <= i < log.events.len() ==> !(#[trigger] log.events[i] is UserPrompt))
            ==> summaries_of(logs.push(log)) == summaries_of(logs),
{
    assert(logs.push(log).drop_last() == logs);
    lemma_prompts_count(log.events);
}

proof fn lemma_prompts_count(events: Seq<EventView>)
    ensures
        prompt_count(events) > 0 <==> exists|i: int|
            0 <= i < events.len() && #[trigger] events[i] is UserPrompt,
    decreases events.len(),
{
    if events.len() > 0 {
        let earlier = events.drop_last();
        lemma_prompts_count(earlier);
        if prompt_count(earlier) > 0 {
            let i = choose|i: int| 0 <= i < earlier.len() && #[trigger] earlier[i] is UserPrompt;
            assert(events[i] is UserPrompt);
        } else if events.last() is UserPrompt {
            assert(events[events.len() - 1] is UserPrompt);
        } else if exists|i: int| 0 <= i < events.len() && #[trigger] events[i] is UserPrompt {
            let i = choose|i: int| 0 <= i < events.len() && #[trigger] events[i] is UserPrompt;
            assert(earlier[i] is UserPrompt);
        }
    }
}

/// A history holds the numbers of its sessions: their count, the tokens of the
/// last eight days up to today, the edits and the sessions of every file, the
/// follow-ups, and the time of waiting today.
pub proof fn histories_hold_their_numbers(
    history: History,
    logs: Seq<LogView>,
    today: int,
    file: Seq<char>,
)
    requires
        history.aggregates(logs, today),
    ensures
        history.sessions == logs.len(),
        history.tokens_by_day@.len() == 8,
        forall|k: int|
            0 <= k < 8 ==> (#[trigger] history.tokens_by_day@[k]).0 == today - 7 + k
                && history.tokens_by_day@[k].1 == all_tokens_on(logs, today - 7 + k),
        count_of(history.edits_per_file@, file) == edits_of(all_edits(logs), file),
        count_of(history.sessions_per_file@, file) == sessions_editing(logs, file),
        edit_views(history.edits@) == all_edits(logs),
        history.followups == all_followups(logs),
        history.babysit_today.length() == all_babysit_on(logs, today),
{
    let edits = |file: Seq<char>| edits_of(all_edits(logs), file);
    let sessions = |file: Seq<char>| sessions_editing(logs, file);
    assert(count_of(history.edits_per_file@, file) == edits(file));
    assert(count_of(history.sessions_per_file@, file) == sessions(file));
    assert forall|k: int| 0 <= k < 8 implies (#[trigger] history.tokens_by_day@[k]).0 == today - 7
        + k && history.tokens_by_day@[k].1 == all_tokens_on(logs, today - 7 + k) by {
        assert(spark_day(today, k) == today - 7 + k);
    }
}

/// The hottest files fall by their edits, and ties are alphabetical; every file
/// that is left out was edited no more often than those that are listed.
pub proof fn the_hottest_files_fall(
    counts: Map<Seq<char>, u64>,
    list: Seq<HotFile>,
    count: nat,
    i: int,
    j: int,
    file: Seq<char>,
)
    requires
        hottest(counts, list, count),
        0 <= i < j < list.len(),
    ensures
        list[i].edits >= list[j].edits,
        list[i].edits == list[j].edits ==> text_before(list[i].file@, list[j].file@),
        list[i].edits == counts[list[i].file@],
        counts.contains_key(file) && (forall|k: int|
            0 <= k < list.len() ==> (#[trigger] list[k]).file@ != file) ==> list.len() == count
            && counts[file] <= list[j].edits,
{
    if counts.contains_key(file) && (forall|k: int|
        0 <= k < list.len() ==> (#[trigger] list[k]).file@ != file) {
        assert(!lists_file(list, file));
    }
}

/// A history can be made of all sessions whose numbers the counters can hold:
/// 64 bits of tokens and follow-ups, and waits within the longest gap at every
/// step of adding them up.
pub proof fn histories_are_made_where_counters_hold(logs: Seq<LogView>, today: int)
    requires
        forall|i: int|
            0 <= i < logs.len() ==> reported_output((#[trigger] logs[i]).events)
                <= 0xffff_ffff_ffff_ffff,
        forall|i: int, n: int|
            0 <= i < logs.len() && 0 <= n <= logs[i].events.len()
                ==> -9_223_372_036_854_775_807_000_000 <= babysit_of(
                #[trigger] logs[i].events.take(n),
            ) <= 9_223_372_036_854_775_807_000_000,
        forall|i: int, n: int|
            0 <= i < logs.len() && 0 <= n <= logs[i].events.len()
                ==> -9_223_372_036_854_775_807_000_000 <= all_babysit_on(logs.take(i), today)
                + babysit_on(#[trigger] logs[i].events.take(n), logs[i].days, today)
                <= 9_223_372_036_854_775_807_000_000,
        all_followups(logs) <= 0xffff_ffff_ffff_ffff,
        forall|day: int| today - 8 < day <= today ==> #[trigger] all_tokens_on(logs, day)
            <= 0xffff_ffff_ffff_ffff,
    ensures
        history_fits(logs, today),
{
    assert forall|i: int| 0 <= i < logs.len() implies summary_fits(#[trigger] logs[i]) by {
        let events = logs[i].events;
        assert forall|n: int| 0 <= n <= events.len() implies gap_in_range(
            babysit_of(#[trigger] events.take(n)),
        ) by {
            assert(logs[i].events.take(n) == events.take(n));
        }
    }
    assert forall|i: int, j: int|
        0 <= i < logs.len() && 0 <= j <= logs[i].events.len() implies #[trigger] babysit_on_fits_at(
        logs,
        today,
        i,
        j,
    ) by {
        assert(logs[i].events.take(j) == logs[i].events.take(j));
    }
}

/// Sessions that began at the same time stay in the order in which they were
/// read.
pub proof fn simultaneous_sessions_keep_their_order(
    list: Seq<SummaryView>,
    sorted: Seq<SummaryView>,
    i: int,
    j: int,
)
    requires
        by_start(list, sorted),
        0 <= i < j < list.len(),
        list[i].start == list[j].start,
    ensures
        exists|a: int, b: int|
            0 <= a < b < sorted.len() && #[trigger] sorted[a] == list[i] && #[trigger] sorted[b]
                == list[j],
{
    let order = order_of_starts(list, sorted);
    lemma_positions_fit(order);
    lemma_every_position_listed(order, i as usize);
    lemma_every_position_listed(order, j as usize);
    let a = order.index_of(i as usize);
    let b = order.index_of(j as usize);
    if b < a {
        assert(starts_before(list, order[b] as int, order[a] as int));
    }
    assert(sorted[a] == list[i] && sorted[b] == list[j]);
}

/// Each of the hottest files is listed with its edits; a file that is left out
/// was edited no more often than any that is listed, and is left out only where
/// there is no room.
pub proof fn the_hottest_files_are_listed(
    counts: Map<Seq<char>, u64>,
    list: Seq<HotFile>,
    count: nat,
    i: int,
    file: Seq<char>,
)
    requires
        hottest(counts, list, count),
        0 <= i < list.len(),
        counts.contains_key(file),
        forall|k: int| 0 <= k < list.len() ==> (#[trigger] list[k]).file@ != file,
    ensures
        list.len() == count,
        counts.contains_key(list[i].file@),
        counts[list[i].file@] == list[i].edits,
        counts[file] <= list[i].edits,
        counts[file] == list[i].edits ==> text_before(list[i].file@, file),
{
    assert(!lists_file(list, file));
}

/// There are never more of the hottest files than asked for, and all of them
/// where they are not more than that.
pub proof fn as_many_hottest_files_as_asked(
    counts: Map<Seq<char>, u64>,
    list: Seq<HotFile>,
    count: nat,
    file: Seq<char>,
)
    requires
        hottest(counts, list, count),
    ensures
        list.len() <= count,
        list.len() < count && counts.contains_key(file) ==> exists|k: int|
            0 <= k < list.len() && (#[trigger] list[k]).file@ == file && list[k].edits
                == counts[file],
{
    if list.len() < count && counts.contains_key(file) {
        assert(lists_file(list, file));
        let k = choose|k: int| 0 <= k < list.len() && (#[trigger] list[k]).file@ == file;
        assert(counts[list[k].file@] == list[k].edits);
    }
}

} // verus!
