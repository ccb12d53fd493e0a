//! The panels on the past sessions: the history, the heatmap of edits, and the
//! latest sessions.

use vstd::prelude::*;

use crate::figures::{
    bars_are_sevenths_of_the_peak, fmt_tokens, heat_cells_tell_the_edits, heat_glyph, heat_shade,
    spark_bars, spark_char, spark_level, spark_levels_rise, spark_levels_span_the_bars,
    tokens_text,
};
use crate::history::{
    edit_views, edits_on, hottest, summary_views, History, HotFile, SessionSummary, SummaryView,
};
use crate::paint::{
    bold, columns, inner_width, inside, kv_row, labelled, line_views, paint_bold, paint_str,
    paint_text, painted, rgb_of, span_views, two_columns, Paint, Span, SpanView,
};
use crate::report::{session_row_views, ReportData, SessionRow, SessionRowView};
use crate::session::first_items;
use crate::text::{
    decimal, decimal_text, digit, head, heads_are_prefixes, left_aligned, pad_end, repeat_char,
    repeated, short_id, texts, truncate, truncated,
};

verus! {

// ---- history ------------------------------------------------------------------

/// The tokens of the days.
pub open spec fn day_tokens(days: Seq<(i64, u64)>) -> Seq<u64> {
    days.map_values(|day: (i64, u64)| day.1)
}

/// The largest number of a list, zero for none.
pub open spec fn largest(numbers: Seq<u64>) -> u64
    decreases numbers.len(),
{
    if numbers.len() == 0 {
        0
    } else if numbers.last() > largest(numbers.drop_last()) {
        numbers.last()
    } else {
        largest(numbers.drop_last())
    }
}

/// The largest number of a list is at least as large as each of them, and one
/// of them unless there is none.
pub proof fn the_largest_is_a_bound(numbers: Seq<u64>)
    ensures
        forall|i: int| 0 <= i < numbers.len() ==> (#[trigger] numbers[i]) <= largest(numbers),
        numbers.len() > 0 ==> numbers.contains(largest(numbers)),
    decreases numbers.len(),
{
    if numbers.len() > 0 {
        let fewer = numbers.drop_last();
        the_largest_is_a_bound(fewer);
        assert forall|i: int| 0 <= i < numbers.len() implies (#[trigger] numbers[i]) <= largest(
            numbers,
        ) by {
            if i < fewer.len() {
                assert(fewer[i] <= largest(fewer));
            }
        }
        if largest(numbers) == numbers.last() {
            assert(numbers[numbers.len() - 1] == largest(numbers));
        } else {
            let i = fewer.index_of(largest(fewer));
            assert(numbers[i] == largest(numbers));
        }
    }
}

/// The bars of the days, where the largest one is a whole bar.
pub open spec fn sparkline(numbers: Seq<u64>) -> Seq<char> {
    Seq::new(
        numbers.len(),
        |i: int|
            spark_bars()[spark_level(numbers[i] as nat, largest(numbers) as nat) as int],
    )
}

/// The lines on the history: its sessions, the tokens of the last days, and
/// the follow-ups per session.
pub open spec fn history_panel(
    sessions: nat,
    tokens: Seq<u64>,
    average: Seq<char>,
    width: u16,
) -> Seq<Seq<SpanView>> {
    seq![
        labelled(
            inner_width(width),
            "sessions"@,
            seq![bold(decimal(sessions), Paint::Green)],
        ),
        seq![
            painted(sparkline(tokens), Paint::Purple),
            painted("  tok/day · 8d"@, Paint::Dim),
        ],
        labelled(inner_width(width), "follow-ups/session"@, seq![painted(average, Paint::Text)]),
    ]
}

/// The largest number of tokens of a day.
fn peak_tokens(days: &Vec<(i64, u64)>) -> (peak: u64)
    ensures
        peak == largest(day_tokens(days@)),
{
    let ghost all = day_tokens(days@);
    let mut peak: u64 = 0;
    for i in 0..days.len()
        invariant
            all == day_tokens(days@),
            peak == largest(all.take(i as int)),
    {
        assert(all.take(i + 1).drop_last() == all.take(i as int));
        assert(all.take(i + 1).last() == days@[i as int].1);
        if days[i].1 > peak {
            peak = days[i].1;
        }
    }
    assert(all.take(all.len() as int) == all);
    peak
}

/// The lines on the history. `average` gives its follow-ups per session, with
/// one decimal. The lines are missing exactly where a day has so many tokens
/// that seven times as many cannot be counted.
pub fn history_lines(history: &History, average: &str, width: u16) -> (lines: Option<
    Vec<Vec<Span>>,
>)
    ensures
        lines is Some <==> largest(day_tokens(history.tokens_by_day@)) * 7 <= u64::MAX,
        lines matches Some(lines) ==> line_views(lines@) == history_panel(
            history.sessions as nat,
            day_tokens(history.tokens_by_day@),
            average@,
            width,
        ),
{
    let days = &history.tokens_by_day;
    let ghost tokens = day_tokens(days@);
    let peak: u64 = peak_tokens(days);
    if peak > u64::MAX / 7 {
        return None;
    }
    proof {
        the_largest_is_a_bound(tokens);
    }
    let mut bars = String::new();
    assert(bars@ == sparkline(tokens).take(0));
    for i in 0..days.len()
        invariant
            tokens == day_tokens(days@),
            peak == largest(tokens),
            peak * 7 <= u64::MAX,
            forall|k: int| 0 <= k < tokens.len() ==> (#[trigger] tokens[k]) <= peak,
            bars@ == sparkline(tokens).take(i as int),
    {
        assert(tokens[i as int] == days@[i as int].1);
        bars.push(spark_char(days[i].1, peak));
        assert(sparkline(tokens).take(i + 1) == sparkline(tokens).take(i as int).push(
            sparkline(tokens)[i as int],
        ));
    }
    assert(sparkline(tokens).take(tokens.len() as int) == sparkline(tokens));
    let count = vec![paint_bold(decimal_text(history.sessions), Paint::Green)];
    assert(span_views(count@) == seq![bold(decimal(history.sessions as nat), Paint::Green)]);
    let spark = vec![paint_text(bars, Paint::Purple), paint_str("  tok/day · 8d", Paint::Dim)];
    assert(span_views(spark@) == seq![
        painted(bars@, Paint::Purple),
        painted("  tok/day · 8d"@, Paint::Dim),
    ]);
    let value = vec![paint_str(average, Paint::Text)];
    assert(span_views(value@) == seq![painted(average@, Paint::Text)]);
    let sessions = kv_row(inside(width), "sessions", count);
    let followups = kv_row(inside(width), "follow-ups/session", value);
    let lines = vec![sessions, spark, followups];
    assert(line_views(lines@) =~= seq![
        span_views(sessions@),
        span_views(spark@),
        span_views(followups@),
    ]);
    Some(lines)
}

// ---- heatmap ------------------------------------------------------------------

/// How many days a row of the heatmap shows; each cell is two characters wide.
pub const HEAT_DAYS: i64 = 14;

/// The colour of a cell. Fixed thresholds make a shade mean the same number of
/// edits on every day and every run.
pub open spec fn heat_paint(edits: nat) -> Paint {
    if heat_shade(edits) == 0 {
        Paint::Faint
    } else if heat_shade(edits) == 1 {
        Paint::HeatLow
    } else if heat_shade(edits) == 2 {
        Paint::HeatMild
    } else if heat_shade(edits) == 3 {
        Paint::HeatHigh
    } else {
        Paint::HeatPeak
    }
}

/// The cell for the edits of one day.
pub open spec fn heat_span(edits: nat) -> SpanView {
    bold(seq![heat_glyph(edits), ' '], heat_paint(edits))
}

/// More edits never show darker: where the colours of two cells differ, each
/// part of the colour for more edits is the brighter one.
pub proof fn heat_brightens(less: nat, more: nat)
    requires
        less <= more,
    ensures
        heat_paint(less) == heat_paint(more) || {
            let dark = rgb_of(heat_paint(less))->0;
            let bright = rgb_of(heat_paint(more))->0;
            less > 0 ==> dark.0 < bright.0 && dark.1 < bright.1 && dark.2 < bright.2
        },
{
}

/// The cell for the edits of one day.
pub fn heat_cell(edits: u64) -> (span: Span)
    ensures
        span@ == heat_span(edits as nat),
{
    let glyph = if edits == 0 {
        '·'
    } else if edits < 10 {
        digit(edits as u8)
    } else {
        '+'
    };
    let paint = if edits == 0 {
        Paint::Faint
    } else if edits == 1 {
        Paint::HeatLow
    } else if edits <= 3 {
        Paint::HeatMild
    } else if edits <= 6 {
        Paint::HeatHigh
    } else {
        Paint::HeatPeak
    };
    let mut text = String::new();
    text.push(glyph);
    text.push(' ');
    assert(text@ == seq![heat_glyph(edits as nat), ' ']);
    paint_bold(text, paint)
}

/// How many columns the names of the files get: what the cells leave, but at
/// least eight.
pub open spec fn label_width(width: u16) -> nat {
    let room = inner_width(width) - (HEAT_DAYS * 2 + 1);
    if room > 8 {
        room as nat
    } else {
        8
    }
}

/// The cells of a file for the days up to `today`, oldest first.
pub open spec fn heat_cells(history: History, file: Seq<char>, today: int) -> Seq<SpanView> {
    Seq::new(
        HEAT_DAYS as nat,
        |i: int|
            heat_span(
                edits_on(edit_views(history.edits@), file, today - (HEAT_DAYS - 1) + i),
            ),
    )
}

/// The row of a file: its name and its cells.
pub open spec fn heat_spans(history: History, file: Seq<char>, today: int, width: nat) -> Seq<
    SpanView,
> {
    seq![painted(left_aligned(truncated(file, width), width) + " "@, Paint::Text)] + heat_cells(
        history,
        file,
        today,
    )
}

/// The line below the rows, which names the first and the last day.
pub open spec fn heat_axis(width: nat) -> Seq<SpanView> {
    seq![
        painted(repeated(' ', width + 1), Paint::Plain),
        painted(left_aligned("14d ago"@, (HEAT_DAYS * 2 - 5) as nat) + "today"@, Paint::Faint),
    ]
}

/// The lines on the hottest files: files by days, with the edits of each day.
pub open spec fn heat_panel(
    history: History,
    files: Seq<HotFile>,
    today: int,
    width: u16,
) -> Seq<Seq<SpanView>> {
    if files.len() == 0 {
        seq![seq![painted("no edits in 30 days"@, Paint::Dim)]]
    } else {
        Seq::new(
            files.len(),
            |i: int| heat_spans(history, files[i].file@, today, label_width(width)),
        ).push(heat_axis(label_width(width)))
    }
}

/// The row of a file.
fn heat_row_line(history: &History, file: &String, today: i64, width: usize) -> (line: Vec<Span>)
    requires
        i64::MIN + HEAT_DAYS <= today,
    ensures
        span_views(line@) == heat_spans(*history, file@, today as int, width as nat),
{
    let mut label = pad_end(truncate(file.as_str(), width).as_str(), width);
    label.append(" ");
    let mut line = vec![paint_text(label, Paint::Text)];
    let ghost top = seq![painted(label@, Paint::Text)];
    let ghost cells = heat_cells(*history, file@, today as int);
    assert(span_views(line@) == top);
    assert(top + cells.take(0) == top);
    let mut i: i64 = 0;
    while i < HEAT_DAYS
        invariant
            0 <= i <= HEAT_DAYS,
            i64::MIN + HEAT_DAYS <= today,
            cells == heat_cells(*history, file@, today as int),
            span_views(line@) == top + cells.take(i as int),
        decreases HEAT_DAYS - i,
    {
        let day: i64 = today - (HEAT_DAYS - 1 - i);
        let cell = heat_cell(history.edits_on_day(file.as_str(), day));
        let ghost before = span_views(line@);
        line.push(cell);
        assert(span_views(line@) == before.push(cell@));
        assert(cells.take(i + 1) == cells.take(i as int).push(cells[i as int]));
        i += 1;
    }
    assert(cells.take(HEAT_DAYS as int) == cells);
    line
}

/// The lines on the four hottest files: files by days, with the edits of each
/// day.
pub fn heat_lines(history: &History, today: i64, width: u16) -> (lines: Vec<Vec<Span>>)
    requires
        i64::MIN + HEAT_DAYS <= today,
    ensures
        exists|files: Seq<HotFile>| #[trigger]
            hottest(history.edits_per_file@, files, 4) && line_views(lines@) == heat_panel(
                *history,
                files,
                today as int,
                width,
            ),
{
    let files = history.hottest_files(4);
    assert(hottest(history.edits_per_file@, files@, 4));
    let ghost expected = heat_panel(*history, files@, today as int, width);
    let room: u16 = inside(width).saturating_sub(29);
    let label: usize = if room > 8 {
        room as usize
    } else {
        8
    };
    assert(label == label_width(width));
    let mut lines: Vec<Vec<Span>> = Vec::new();
    for i in 0..files.len()
        invariant
            i64::MIN + HEAT_DAYS <= today,
            label == label_width(width),
            expected == heat_panel(*history, files@, today as int, width),
            lines@.len() == i,
            line_views(lines@) == expected.take(i as int),
    {
        let ghost before = line_views(lines@);
        let line = heat_row_line(history, &files[i].file, today, label);
        lines.push(line);
        assert(line_views(lines@) == before.push(span_views(line@)));
        assert(expected.take(i + 1) == expected.take(i as int).push(expected[i as int]));
    }
    let ghost before = line_views(lines@);
    if lines.len() == 0 {
        let line = vec![paint_str("no edits in 30 days", Paint::Dim)];
        assert(span_views(line@) == seq![painted("no edits in 30 days"@, Paint::Dim)]);
        lines.push(line);
        assert(line_views(lines@) == seq![span_views(line@)]);
    } else {
        let mut axis = pad_end("14d ago", 23);
        axis.append("today");
        let line = vec![
            paint_text(repeat_char(' ', label + 1), Paint::Plain),
            paint_text(axis, Paint::Faint),
        ];
        assert(span_views(line@) == heat_axis(label_width(width)));
        lines.push(line);
        assert(line_views(lines@) == before.push(span_views(line@)));
        assert(expected == expected.take(files@.len() as int).push(heat_axis(label_width(width))));
    }
    lines
}

// ---- sessions -----------------------------------------------------------------

/// The commits that the report links to the session; zero where it does not
/// list the session.
pub open spec fn commits_linked(rows: Seq<SessionRowView>, id: Seq<char>) -> int
    decreases rows.len(),
{
    if rows.len() == 0 {
        0
    } else if rows[0].id == id {
        rows[0].commits
    } else {
        commits_linked(rows.drop_first(), id)
    }
}

/// The flag with the commits of a session, which are known once there is a
/// report.
pub open spec fn flag_span(report: Option<Seq<SessionRowView>>, id: Seq<char>) -> SpanView {
    match report {
        Some(rows) => painted(
            "  ⚑"@ + decimal(commits_linked(rows, id) as nat),
            if commits_linked(rows, id) > 0 {
                Paint::Green
            } else {
                Paint::Dim
            },
        ),
        None => painted("  ⚑—"@, Paint::Faint),
    }
}

/// The line on a session, which began at `start` on the local clock.
pub open spec fn session_spans(
    summary: SummaryView,
    report: Option<Seq<SessionRowView>>,
    start: Seq<char>,
    width: int,
) -> Seq<SpanView> {
    columns(
        width,
        seq![
            painted(head(summary.id, 8) + " "@, Paint::Purple),
            painted(start, Paint::Faint),
        ],
        seq![
            painted(
                decimal(summary.prompts as nat) + "t  "@ + tokens_text(
                    summary.output_tokens as nat,
                ),
                Paint::Text,
            ),
            flag_span(report, summary.id),
        ],
    )
}

/// The lines on the two latest sessions, latest first. `starts` gives the
/// local clock at the beginning of each.
pub open spec fn sessions_panel(
    summaries: Seq<SummaryView>,
    report: Option<Seq<SessionRowView>>,
    starts: Seq<Seq<char>>,
    width: u16,
) -> Seq<Seq<SpanView>> {
    let latest = first_items(summaries.reverse(), 2);
    if latest.len() == 0 {
        seq![seq![painted("no sessions yet"@, Paint::Dim)]]
    } else {
        Seq::new(
            latest.len(),
            |i: int| session_spans(latest[i], report, starts[i], inner_width(width)),
        )
    }
}

/// The session rows of a report, where there is one.
pub open spec fn reported_sessions(report: Option<&ReportData>) -> Option<Seq<SessionRowView>> {
    match report {
        Some(data) => Some(session_row_views(data.sessions@)),
        None => None,
    }
}

/// The commits that the report links to the session.
fn count_linked(rows: &Vec<SessionRow>, id: &String) -> (count: u64)
    ensures
        count == commits_linked(session_row_views(rows@), id@),
{
    let ghost all = session_row_views(rows@);
    assert(all.skip(0) == all);
    for i in 0..rows.len()
        invariant
            all == session_row_views(rows@),
            commits_linked(all, id@) == commits_linked(all.skip(i as int), id@),
    {
        assert(all.skip(i as int)[0] == rows@[i as int]@);
        assert(all.skip(i as int).drop_first() == all.skip(i + 1));
        if rows[i].id == *id {
            return rows[i].commits;
        }
    }
    0
}

/// The line on a session.
fn session_line(
    summary: &SessionSummary,
    report: Option<&ReportData>,
    start: &String,
    width: u16,
) -> (line: Vec<Span>)
    ensures
        span_views(line@) == session_spans(
            summary@,
            reported_sessions(report),
            start@,
            width as int,
        ),
{
    let mut size = decimal_text(summary.prompts);
    size.append("t  ");
    size.append(fmt_tokens(summary.output_tokens).as_str());
    let flag = match report {
        Some(data) => {
            let count: u64 = count_linked(&data.sessions, &summary.id);
            let mut text = "  ⚑".to_owned();
            text.append(decimal_text(count).as_str());
            paint_text(
                text,
                if count > 0 {
                    Paint::Green
                } else {
                    Paint::Dim
                },
            )
        },
        None => paint_str("  ⚑—", Paint::Faint),
    };
    let mut id = short_id(summary.id.as_str());
    id.append(" ");
    let left = vec![paint_text(id, Paint::Purple), paint_text(start.clone(), Paint::Faint)];
    assert(span_views(left@) == seq![painted(id@, Paint::Purple), painted(start@, Paint::Faint)]);
    let right = vec![paint_text(size, Paint::Text), flag];
    assert(span_views(right@) == seq![
        painted(size@, Paint::Text),
        flag_span(reported_sessions(report), summary@.id),
    ]);
    two_columns(width, left, right)
}

/// The lines on the two latest sessions, latest first, with the commits that
/// the report links to them. `starts` gives the local clock at the beginning
/// of each.
pub fn sessions_lines(
    history: &History,
    report: Option<&ReportData>,
    starts: &Vec<String>,
    width: u16,
) -> (lines: Vec<Vec<Span>>)
    requires
        starts@.len() == first_items(summary_views(history.summaries@).reverse(), 2).len(),
    ensures
        line_views(lines@) == sessions_panel(
            summary_views(history.summaries@),
            reported_sessions(report),
            texts(starts@),
            width,
        ),
{
    let summaries = &history.summaries;
    let ghost all = summary_views(summaries@);
    let ghost latest = first_items(all.reverse(), 2);
    let ghost expected = sessions_panel(all, reported_sessions(report), texts(starts@), width);
    let count: usize = summaries.len();
    let room: usize = if count < 2 {
        count
    } else {
        2
    };
    let mut lines: Vec<Vec<Span>> = Vec::new();
    for i in 0..room
        invariant
            all == summary_views(summaries@),
            latest == first_items(all.reverse(), 2),
            expected == sessions_panel(all, reported_sessions(report), texts(starts@), width),
            count == summaries@.len(),
            room == latest.len(),
            room <= count,
            starts@.len() == room,
            lines@.len() == i,
            line_views(lines@) == expected.take(i as int),
    {
        let summary = &summaries[count - 1 - i];
        assert(latest[i as int] == summary@);
        assert(texts(starts@)[i as int] == starts@[i as int]@);
        let ghost before = line_views(lines@);
        let line = session_line(summary, report, &starts[i], inside(width));
        lines.push(line);
        assert(line_views(lines@) == before.push(span_views(line@)));
        assert(expected.take(i + 1) == expected.take(i as int).push(expected[i as int]));
    }
    if lines.len() == 0 {
        let line = vec![paint_str("no sessions yet", Paint::Dim)];
        assert(span_views(line@) == seq![painted("no sessions yet"@, Paint::Dim)]);
        lines.push(line);
        assert(line_views(lines@) == seq![span_views(line@)]);
    } else {
        assert(expected.take(room as int) == expected);
    }
    lines
}

// ---- laws ---------------------------------------------------------------------

/// The bar of a day stands for the least number of sevenths of the largest day
/// that holds its tokens.
pub proof fn days_are_compared_with_the_largest(tokens: Seq<u64>, i: int, k: int)
    requires
        0 <= i < tokens.len(),
        0 <= k < tokens.len(),
        forall|j: int| 0 <= j < tokens.len() ==> (#[trigger] tokens[j]) <= tokens[k],
    ensures
        sparkline(tokens).len() == tokens.len(),
        tokens[i] == 0 ==> sparkline(tokens)[i] == '▁',
        tokens[i] > 0 ==> ({
            let level = sparkline(tokens)[i] as int - 0x2581;
            &&& 1 <= level <= 7
            &&& (level - 1) * tokens[k] < 7 * tokens[i] <= level * tokens[k]
        }),
{
    the_largest_is_a_bound(tokens);
    let j = tokens.index_of(largest(tokens));
    assert(tokens[j] <= tokens[k]);
    assert(largest(tokens) == tokens[k]);
    bars_are_sevenths_of_the_peak(tokens[i] as nat, tokens[k] as nat);
    spark_levels_rise(tokens[i] as nat, tokens[i] as nat, tokens[k] as nat);
    if tokens[i] > 0 {
        spark_levels_span_the_bars(tokens[i] as nat, tokens[k] as nat);
        let level = spark_level(tokens[i] as nat, tokens[k] as nat) as int;
        assert(spark_bars()[level] as int == 0x2581 + level);
    }
}

/// The history panel shows the sessions, the bars and the follow-ups.
pub proof fn the_history_is_shown(
    sessions: nat,
    tokens: Seq<u64>,
    average: Seq<char>,
    width: u16,
)
    requires
        width >= 2,
    ensures
        ({
            let panel = history_panel(sessions, tokens, average, width);
            &&& panel.len() == 3
            &&& panel[0] == columns(
                width - 2,
                seq![painted("sessions"@, Paint::Dim)],
                seq![bold(decimal(sessions), Paint::Green)],
            )
            &&& panel[1].len() == 2
            &&& panel[1][0] == painted(sparkline(tokens), Paint::Purple)
            &&& panel[1][1] == painted("  tok/day · 8d"@, Paint::Dim)
            &&& panel[2] == columns(
                width - 2,
                seq![painted("follow-ups/session"@, Paint::Dim)],
                seq![painted(average, Paint::Text)],
            )
        }),
{
}

/// The cells of a row show the edits of the last fourteen days, the last one
/// those of today.
pub proof fn cells_show_their_day(history: History, file: Seq<char>, today: int, width: nat, ago: int)
    requires
        0 <= ago < 14,
    ensures
        ({
            let row = heat_spans(history, file, today, width);
            let edits = edits_on(edit_views(history.edits@), file, today - ago);
            let cell = row[14 - ago];
            &&& row.len() == 15
            &&& row[0] == painted(
                left_aligned(truncated(file, width), width) + " "@,
                Paint::Text,
            )
            &&& edits == 0 ==> cell.text == seq!['·', ' ']
            &&& 1 <= edits <= 9 ==> cell.text == seq![('0' as int + edits) as char, ' ']
            &&& edits >= 10 ==> cell.text == seq!['+', ' ']
            &&& cell.paint == if edits == 0 {
                Paint::Faint
            } else if edits < 2 {
                Paint::HeatLow
            } else if edits < 4 {
                Paint::HeatMild
            } else if edits < 7 {
                Paint::HeatHigh
            } else {
                Paint::HeatPeak
            }
            &&& cell.bold
        }),
{
    let cells = heat_cells(history, file, today);
    assert(heat_spans(history, file, today, width)[14 - ago] == cells[13 - ago]);
    heat_cells_tell_the_edits(edits_on(edit_views(history.edits@), file, today - ago));
}

/// The heatmap has a row for each file, in their order, and the days below.
pub proof fn the_heatmap_lists_the_files(
    history: History,
    files: Seq<HotFile>,
    today: int,
    width: u16,
    i: int,
)
    requires
        0 <= i < files.len(),
        width >= 2,
    ensures
        ({
            let panel = heat_panel(history, files, today, width);
            let room = if width >= 39 {
                (width - 31) as nat
            } else {
                8nat
            };
            &&& panel.len() == files.len() + 1
            &&& panel[i] == heat_spans(history, files[i].file@, today, room)
            &&& panel.last().len() == 2
            &&& panel.last()[0] == painted(repeated(' ', room + 1), Paint::Plain)
            &&& panel.last()[1] == painted(left_aligned("14d ago"@, 23) + "today"@, Paint::Faint)
            &&& heat_panel(history, Seq::empty(), today, width) == seq![
                seq![painted("no edits in 30 days"@, Paint::Dim)],
            ]
        }),
{
}

/// The commits of a session are those of its row; a session without a row has
/// none.
pub proof fn commits_are_found_by_session(
    before: Seq<SessionRowView>,
    row: SessionRowView,
    after: Seq<SessionRowView>,
)
    requires
        forall|i: int| 0 <= i < before.len() ==> (#[trigger] before[i]).id != row.id,
    ensures
        commits_linked(before.push(row) + after, row.id) == row.commits,
        commits_linked(before, row.id) == 0,
    decreases before.len(),
{
    let all = before.push(row) + after;
    if before.len() == 0 {
        assert(all[0] == row);
    } else {
        let fewer = before.drop_first();
        assert forall|i: int| 0 <= i < fewer.len() implies (#[trigger] fewer[i]).id != row.id by {
            assert(fewer[i] == before[i + 1]);
        }
        commits_are_found_by_session(fewer, row, after);
        assert(all[0] == before[0]);
        assert(all.drop_first() == fewer.push(row) + after);
    }
}

/// The line on a session shows the start of its identifier, when it began, its
/// turns, the tokens that it wrote, and its commits.
pub proof fn sessions_show_their_numbers(
    summary: SummaryView,
    rows: Seq<SessionRowView>,
    start: Seq<char>,
    rest: Seq<char>,
    clock: Seq<char>,
    width: int,
    commits: nat,
)
    requires
        start.len() == 8,
        summary.id == start + rest,
        summary.prompts >= 0,
        summary.output_tokens >= 0,
        commits_linked(rows, summary.id) == commits,
    ensures
        ({
            let left = seq![
                painted(start + " "@, Paint::Purple),
                painted(clock, Paint::Faint),
            ];
            let size = painted(
                decimal(summary.prompts as nat) + "t  "@ + tokens_text(
                    summary.output_tokens as nat,
                ),
                Paint::Text,
            );
            let flag = "  ⚑"@ + decimal(commits);
            &&& commits > 0 ==> session_spans(summary, Some(rows), clock, width) == columns(
                width,
                left,
                seq![size, painted(flag, Paint::Green)],
            )
            &&& commits == 0 ==> session_spans(summary, Some(rows), clock, width) == columns(
                width,
                left,
                seq![size, painted(flag, Paint::Dim)],
            )
            &&& session_spans(summary, None, clock, width) == columns(
                width,
                left,
                seq![size, painted("  ⚑—"@, Paint::Faint)],
            )
        }),
{
    heads_are_prefixes(start, rest, 0);
}

/// The panel lists the two latest sessions, latest first.
pub proof fn the_latest_sessions_are_listed(
    summaries: Seq<SummaryView>,
    report: Option<Seq<SessionRowView>>,
    starts: Seq<Seq<char>>,
    width: u16,
    i: int,
)
    requires
        width >= 2,
        0 <= i < 2,
        i < summaries.len(),
    ensures
        ({
            let panel = sessions_panel(summaries, report, starts, width);
            &&& panel[i] == session_spans(
                summaries[summaries.len() - 1 - i],
                report,
                starts[i],
                width - 2,
            )
            &&& panel.len() == if summaries.len() == 1 {
                1int
            } else {
                2
            }
            &&& sessions_panel(Seq::empty(), report, starts, width) == seq![
                seq![painted("no sessions yet"@, Paint::Dim)],
            ]
        }),
{
    let latest = first_items(summaries.reverse(), 2);
    assert(latest[i] == summaries[summaries.len() - 1 - i]);
    assert(first_items(Seq::<SummaryView>::empty().reverse(), 2).len() == 0);
}

} // verus!
