//! The screens: the watch pane with its panels, and the full-screen views.

use vstd::prelude::*;

use crate::history::{hottest, summary_views, History, HotFile};
use crate::live::{
    attention_lines, attention_panel, files_lines, files_panel, header_line, header_spans,
    live_lines, live_panel, session_lines, session_panel, status_line, status_spans, tools_shown,
    waits_since, watched,
};
use crate::paint::{
    bold, kv_line, line_views, listed, paint_bold, paint_str, paint_text, painted, span_views,
    Paint, Span, SpanView,
};
use crate::past::{
    day_tokens, heat_lines, heat_panel, history_lines, history_panel, largest, reported_sessions,
    sessions_lines, sessions_panel, HEAT_DAYS,
};
use crate::plain::{
    heatmap_page, heatmap_text, lines_added, sessions_page, sessions_text, survival_share,
    Quotients,
};
use crate::report::{commit_row_views, total_added, CommitRow, CommitRowView, ReportData};
use crate::session::{first_items, text_view, SessionState};
use crate::text::{
    decimal, decimal_text, head, heads_are_prefixes, left_aligned, short_id, texts, truncate,
    truncated,
};
use crate::time::{utc_month_day, Timestamp};

verus! {

// ---- footer -------------------------------------------------------------------

/// What fills the terminal: the watch pane, or one of the full-screen views.
#[derive(Clone, Copy, Debug, PartialEq, Eq, Structural)]
pub enum Screen {
    Watch,
    Report,
    Heatmap,
    Sessions,
}

/// The names of keys, each with what completes its name to a word.
pub open spec fn key_spans(keys: Seq<(Seq<char>, Seq<char>)>) -> Seq<SpanView>
    decreases keys.len(),
{
    if keys.len() == 0 {
        Seq::empty()
    } else {
        key_spans(keys.drop_last()) + seq![
            painted("["@ + keys.last().0 + "]"@, Paint::Faint),
            painted(keys.last().1, Paint::Dim),
        ]
    }
}

/// The line with the keys; the pane never writes anything.
pub open spec fn keys_spans(keys: Seq<(Seq<char>, Seq<char>)>) -> Seq<SpanView> {
    key_spans(keys) + seq![painted("· ro-mode"@, Paint::Faint)]
}

/// The keys that the footer of a screen names.
pub open spec fn screen_keys(screen: Screen) -> Seq<(Seq<char>, Seq<char>)> {
    if screen == Screen::Watch {
        seq![("q"@, "uit  "@), ("r"@, "eport  "@)]
    } else {
        seq![("b"@, "ack  "@), ("r"@, "efresh  "@)]
    }
}

/// The last line: a message as long as there is one, else the keys.
pub open spec fn footer_spans(toast: Option<Seq<char>>, screen: Screen) -> Seq<SpanView> {
    match toast {
        Some(message) => seq![painted(message, Paint::Yellow)],
        None => keys_spans(screen_keys(screen)),
    }
}

/// What a list of keys holds.
pub open spec fn key_views(keys: Seq<(&str, &str)>) -> Seq<(Seq<char>, Seq<char>)> {
    keys.map_values(|key: (&str, &str)| (key.0@, key.1@))
}

/// The line with the keys.
pub fn keys_line(keys: &Vec<(&str, &str)>) -> (line: Vec<Span>)
    ensures
        span_views(line@) == keys_spans(key_views(keys@)),
{
    let ghost all = key_views(keys@);
    let mut line: Vec<Span> = Vec::new();
    assert(span_views(line@) == key_spans(all.take(0)));
    for i in 0..keys.len()
        invariant
            all == key_views(keys@),
            span_views(line@) == key_spans(all.take(i as int)),
    {
        let ghost before = span_views(line@);
        let (key, rest) = keys[i];
        assert(all.take(i + 1).drop_last() == all.take(i as int));
        assert(all.take(i + 1).last() == (key@, rest@));
        let mut name = "[".to_owned();
        name.append(key);
        name.append("]");
        let first = paint_text(name, Paint::Faint);
        let second = paint_str(rest, Paint::Dim);
        line.push(first);
        line.push(second);
        assert(span_views(line@) == before + seq![first@, second@]);
    }
    assert(all.take(all.len() as int) == all);
    let ghost before = span_views(line@);
    let mode = paint_str("· ro-mode", Paint::Faint);
    line.push(mode);
    assert(span_views(line@) == before + seq![mode@]);
    line
}

/// The last line: a message as long as there is one, else the keys.
pub fn footer_line(toast: Option<&str>, screen: Screen) -> (line: Vec<Span>)
    ensures
        span_views(line@) == footer_spans(
            match toast {
                Some(message) => Some(message@),
                None => None,
            },
            screen,
        ),
{
    match toast {
        Some(message) => {
            let line = vec![paint_str(message, Paint::Yellow)];
            assert(span_views(line@) == seq![painted(message@, Paint::Yellow)]);
            line
        },
        None => {
            let keys = if screen == Screen::Watch {
                vec![("q", "uit  "), ("r", "eport  ")]
            } else {
                vec![("b", "ack  "), ("r", "efresh  ")]
            };
            assert(key_views(keys@) == screen_keys(screen));
            keys_line(&keys)
        },
    }
}

// ---- borders ------------------------------------------------------------------

/// The border of a panel: its title and its colour.
pub struct Block {
    pub title: Span,
    pub border: Paint,
}

/// The border of a panel, in other colours where it calls for attention.
pub fn block(title: &str, alert: bool) -> (block: Block)
    ensures
        block.title@ == bold(" "@ + title@ + " "@, if alert {
            Paint::Red
        } else {
            Paint::Cyan
        }),
        block.border == if alert {
            Paint::BorderAlert
        } else {
            Paint::Border
        },
{
    let mut text = " ".to_owned();
    text.append(title);
    text.append(" ");
    if alert {
        Block { title: paint_bold(text, Paint::Red), border: Paint::BorderAlert }
    } else {
        Block { title: paint_bold(text, Paint::Cyan), border: Paint::Border }
    }
}

// ---- report -------------------------------------------------------------------

/// The line on the survival of mature lines, in another colour where it is
/// low.
pub open spec fn survival_spans(data: ReportData, quotients: Quotients) -> Seq<SpanView> {
    if data.added_mature > 0 {
        listed(
            "line survival 7d+"@,
            quotients.survival_percent@ + "%  ("@ + decimal(data.surviving_mature as nat) + "/"@
                + decimal(data.added_mature as nat) + " mature)"@,
            if quotients.survives_well {
                Paint::Green
            } else {
                Paint::Yellow
            },
        )
    } else {
        listed("line survival 7d+"@, "— (<7d old)"@, Paint::Dim)
    }
}

/// The line on a commit: its hash, its day, its live lines, its subject, and
/// its session. The colour of the live lines tells whether they are at least
/// half of those that the commit added.
pub open spec fn commit_spans(row: CommitRowView) -> Seq<SpanView> {
    let age = if row.mature {
        Seq::empty()
    } else {
        " <7d"@
    };
    let session = match row.session_id {
        Some(id) => "  ⇠"@ + head(id, 8),
        None => Seq::empty(),
    };
    seq![
        painted(head(row.sha, 8), Paint::Purple),
        painted("  "@ + utc_month_day(row.at), Paint::Faint),
        painted(
            "  "@ + (decimal(row.surviving as nat) + "/"@ + decimal(row.added as nat)) + age,
            if row.surviving * 2 >= row.added {
                Paint::Green
            } else {
                Paint::Yellow
            },
        ),
        painted("  "@ + truncated(row.subject, 24), Paint::Text),
        painted(session, Paint::Dim),
    ]
}

/// The lines above the commits.
pub open spec fn report_top(data: ReportData, quotients: Quotients) -> Seq<Seq<SpanView>> {
    let rows = commit_row_views(data.commits@);
    let cost = if data.surviving_mature > 0 {
        seq![listed("tok/surviving line"@, quotients.cost@, Paint::Text)]
    } else {
        Seq::empty()
    };
    seq![
        listed("AI commits"@, decimal(rows.len()), Paint::Green),
        listed("lines added"@, decimal(total_added(rows) as nat), Paint::Text),
        survival_spans(data, quotients),
    ] + cost + seq![seq![painted(Seq::empty(), Paint::Plain)]]
}

/// The lines of the report, with its first twelve commits.
pub open spec fn report_panel(data: Option<ReportData>, quotients: Quotients) -> Seq<
    Seq<SpanView>,
> {
    match data {
        None => seq![seq![painted("no data — press r"@, Paint::Dim)]],
        Some(data) => report_top(data, quotients) + first_items(
            commit_row_views(data.commits@),
            12,
        ).map_values(|row: CommitRowView| commit_spans(row)),
    }
}

/// True if the counters can hold what the report shows: the lines that the
/// commits added, and twice the live lines of each commit.
pub open spec fn report_shows(data: ReportData) -> bool {
    let rows = commit_row_views(data.commits@);
    let shown = first_items(rows, 12);
    &&& total_added(rows) <= u64::MAX
    &&& forall|i: int|
        0 <= i < shown.len() ==> (#[trigger] shown[i]).surviving * 2 <= u64::MAX
}

/// The line on the survival of mature lines.
fn survival_row(data: &ReportData, quotients: &Quotients) -> (line: Vec<Span>)
    ensures
        span_views(line@) == survival_spans(*data, *quotients),
{
    if data.added_mature > 0 {
        let mut text = quotients.survival_percent.clone();
        text.append("%  (");
        text.append(decimal_text(data.surviving_mature).as_str());
        text.append("/");
        text.append(decimal_text(data.added_mature).as_str());
        text.append(" mature)");
        kv_line(
            "line survival 7d+",
            text,
            if quotients.survives_well {
                Paint::Green
            } else {
                Paint::Yellow
            },
        )
    } else {
        kv_line("line survival 7d+", "— (<7d old)".to_owned(), Paint::Dim)
    }
}

/// The line on a commit.
fn commit_line(row: &CommitRow) -> (line: Option<Vec<Span>>)
    ensures
        line is Some <==> row@.surviving * 2 <= u64::MAX,
        line matches Some(line) ==> span_views(line@) == commit_spans(row@),
{
    let double: u64 = match row.surviving.checked_mul(2) {
        Some(double) => double,
        None => {
            return None;
        },
    };
    let mut day = "  ".to_owned();
    day.append(row.at.month_day().as_str());
    let mut share = "  ".to_owned();
    share.append(survival_share(row).as_str());
    if row.mature {
        assert(share@ + Seq::<char>::empty() == share@);
    } else {
        share.append(" <7d");
    }
    let mut subject = "  ".to_owned();
    subject.append(truncate(row.subject.as_str(), 24).as_str());
    let session = match &row.session_id {
        Some(id) => {
            let mut text = "  ⇠".to_owned();
            text.append(short_id(id.as_str()).as_str());
            text
        },
        None => String::new(),
    };
    let line = vec![
        paint_text(short_id(row.sha.as_str()), Paint::Purple),
        paint_text(day, Paint::Faint),
        paint_text(
            share,
            if double >= row.added {
                Paint::Green
            } else {
                Paint::Yellow
            },
        ),
        paint_text(subject, Paint::Text),
        paint_text(session, Paint::Dim),
    ];
    assert(span_views(line@) == commit_spans(row@));
    Some(line)
}

/// The lines above the commits.
fn report_top_lines(data: &ReportData, quotients: &Quotients, added: u64) -> (lines: Vec<Vec<Span>>)
    requires
        added == total_added(commit_row_views(data.commits@)),
    ensures
        line_views(lines@) == report_top(*data, *quotients),
{
    let count = kv_line("AI commits", decimal_text(data.commits.len() as u64), Paint::Green);
    let total = kv_line("lines added", decimal_text(added), Paint::Text);
    let survival = survival_row(data, quotients);
    let mut lines = vec![count, total, survival];
    assert(line_views(lines@) =~= seq![
        span_views(count@),
        span_views(total@),
        span_views(survival@),
    ]);
    let ghost start = line_views(lines@);
    if data.surviving_mature > 0 {
        let cost = kv_line("tok/surviving line", quotients.cost.clone(), Paint::Text);
        lines.push(cost);
        assert(line_views(lines@) == start.push(span_views(cost@)));
    }
    let ghost so_far = line_views(lines@);
    let blank = vec![paint_text(String::new(), Paint::Plain)];
    assert(span_views(blank@) == seq![painted(Seq::empty(), Paint::Plain)]);
    lines.push(blank);
    assert(line_views(lines@) == so_far.push(span_views(blank@)));
    assert(line_views(lines@) == report_top(*data, *quotients));
    lines
}

/// The line that stands for a report that was not made yet.
fn no_data_line() -> (line: Vec<Span>)
    ensures
        span_views(line@) == seq![painted("no data — press r"@, Paint::Dim)],
{
    let line = vec![paint_str("no data — press r", Paint::Dim)];
    assert(span_views(line@) == seq![painted("no data — press r"@, Paint::Dim)]);
    line
}

/// The lines of the report, with its first twelve commits. They are missing
/// exactly where the counters cannot hold what the report shows.
pub fn report_lines(report: Option<&ReportData>, quotients: &Quotients) -> (lines: Option<
    Vec<Vec<Span>>,
>)
    ensures
        lines is Some <==> (report matches Some(data) ==> report_shows(*data)),
        lines matches Some(lines) ==> line_views(lines@) == report_panel(
            report_data(report),
            *quotients,
        ),
{
    let data = match report {
        Some(data) => data,
        None => {
            return Some(alone(no_data_line()));
        },
    };
    let ghost rows = commit_row_views(data.commits@);
    let ghost shown = first_items(rows, 12);
    let added: u64 = match lines_added(&data.commits) {
        Some(total) => total,
        None => {
            return None;
        },
    };
    let mut lines = report_top_lines(data, quotients, added);
    let ghost top = line_views(lines@);
    let count: usize = if data.commits.len() < 12 {
        data.commits.len()
    } else {
        12
    };
    let ghost line_of = |row: CommitRowView| commit_spans(row);
    assert(shown.take(0).map_values(line_of) == Seq::<Seq<SpanView>>::empty());
    for i in 0..count
        invariant
            report == Some(data),
            rows == commit_row_views(data.commits@),
            shown == first_items(rows, 12),
            count == shown.len(),
            count <= data.commits@.len(),
            total_added(rows) <= u64::MAX,
            line_of == (|row: CommitRowView| commit_spans(row)),
            forall|k: int| 0 <= k < i ==> (#[trigger] shown[k]).surviving * 2 <= u64::MAX,
            line_views(lines@) == top + shown.take(i as int).map_values(line_of),
    {
        let ghost before = line_views(lines@);
        assert(shown[i as int] == data.commits@[i as int]@);
        match commit_line(&data.commits[i]) {
            Some(line) => {
                lines.push(line);
                assert(line_views(lines@) == before.push(span_views(line@)));
                assert(shown.take(i + 1).map_values(line_of) == shown.take(i as int).map_values(
                    line_of,
                ).push(span_views(line@)));
            },
            None => {
                return None;
            },
        }
    }
    assert(shown.take(shown.len() as int) == shown);
    Some(lines)
}

// ---- screens ------------------------------------------------------------------

/// A part of the screen, over its whole width: how many rows it takes (what is
/// left over, where that is not fixed), its border, and its lines.
pub struct Panel {
    pub height: Option<u16>,
    pub block: Option<Block>,
    pub lines: Vec<Vec<Span>>,
}

/// True if the panel takes so many rows, has no border, and holds these lines.
pub open spec fn is_bare(panel: Panel, height: Option<u16>, lines: Seq<Seq<SpanView>>) -> bool {
    &&& panel.height == height
    &&& panel.block is None
    &&& line_views(panel.lines@) == lines
}

/// True if the panel takes so many rows, has a border with this title, and
/// holds these lines.
pub open spec fn is_titled(
    panel: Panel,
    height: Option<u16>,
    title: Seq<char>,
    alert: bool,
    lines: Seq<Seq<SpanView>>,
) -> bool {
    &&& panel.height == height
    &&& panel.block matches Some(block) && block.title@ == bold(
        " "@ + title + " "@,
        if alert {
            Paint::Red
        } else {
            Paint::Cyan
        },
    ) && block.border == if alert {
        Paint::BorderAlert
    } else {
        Paint::Border
    }
    &&& line_views(panel.lines@) == lines
}

fn bare(height: Option<u16>, lines: Vec<Vec<Span>>) -> (panel: Panel)
    ensures
        is_bare(panel, height, line_views(lines@)),
{
    Panel { height, block: None, lines }
}

fn titled(height: Option<u16>, title: &str, alert: bool, lines: Vec<Vec<Span>>) -> (panel: Panel)
    ensures
        is_titled(panel, height, title@, alert, line_views(lines@)),
{
    Panel { height, block: Some(block(title, alert)), lines }
}

/// One line alone.
fn alone(line: Vec<Span>) -> (lines: Vec<Vec<Span>>)
    ensures
        line_views(lines@) == seq![span_views(line@)],
{
    let lines = vec![line];
    assert(line_views(lines@) == seq![span_views(line@)]);
    lines
}

/// What the watch pane shows of the local clock: when the session began, when
/// each of the shown tools was called, and when the latest sessions began.
pub struct Clocks {
    pub started: Option<String>,
    pub tools: Vec<String>,
    pub sessions: Vec<String>,
}

/// Everything that the watch pane is drawn from. `average` gives the
/// follow-ups per session of the history, with one decimal; `today` is the
/// local day.
pub struct WatchModel<'a> {
    pub project: &'a str,
    pub session: Option<&'a SessionState>,
    pub history: &'a History,
    pub report: Option<&'a ReportData>,
    pub toast: Option<&'a str>,
    pub clocks: &'a Clocks,
    pub average: &'a str,
    pub now: Timestamp,
    pub today: i64,
}

pub open spec fn str_view(text: Option<&str>) -> Option<Seq<char>> {
    match text {
        Some(text) => Some(text@),
        None => None,
    }
}

impl<'a> WatchModel<'a> {
    /// True if there is a clock for everything that the pane shows one of, and
    /// the days of the heatmap can be counted back from today.
    pub open spec fn is_timed(self) -> bool {
        &&& self.session matches Some(s) ==> self.clocks.tools@.len() == tools_shown(s@).len()
        &&& self.clocks.sessions@.len() == first_items(
            summary_views(self.history.summaries@).reverse(),
            2,
        ).len()
        &&& i64::MIN + HEAT_DAYS <= self.today
    }

    /// True if the counters can hold what the pane shows.
    pub open spec fn fits(self) -> bool {
        &&& self.session matches Some(s) ==> s@.input_tokens + s@.output_tokens <= u64::MAX
        &&& largest(day_tokens(self.history.tokens_by_day@)) * 7 <= u64::MAX
    }

    /// True if the panels show the model, from top to bottom.
    pub open spec fn shown_by(self, panels: Seq<Panel>, width: u16) -> bool {
        let session = watched(self.session);
        let average = self.average@;
        &&& panels.len() == 11
        &&& is_bare(panels[0], Some(1), seq![header_spans(width, self.project@)])
        &&& is_bare(
            panels[1],
            Some(1),
            seq![status_spans(session, text_view(self.clocks.started))],
        )
        &&& is_titled(
            panels[2],
            Some(8),
            "LIVE TURN"@,
            false,
            live_panel(session, self.now, texts(self.clocks.tools@), width),
        )
        &&& is_titled(
            panels[3],
            Some(5),
            "FILES THIS TURN"@,
            false,
            files_panel(session, self.history.edits_per_file@),
        )
        &&& is_titled(
            panels[4],
            Some(6),
            "SESSION"@,
            false,
            session_panel(session, average, self.history.babysit_today.length(), width),
        )
        &&& is_titled(
            panels[5],
            Some(5),
            "HISTORY · 30D"@,
            false,
            history_panel(
                self.history.sessions as nat,
                day_tokens(self.history.tokens_by_day@),
                average,
                width,
            ),
        )
        &&& exists|files: Seq<HotFile>| #[trigger]
            hottest(self.history.edits_per_file@, files, 4) && is_titled(
                panels[6],
                Some(7),
                "HEATMAP · EDITS × 14D"@,
                false,
                heat_panel(*self.history, files, self.today as int, width),
            )
        &&& is_titled(
            panels[7],
            Some(4),
            "SESSIONS"@,
            false,
            sessions_panel(
                summary_views(self.history.summaries@),
                reported_sessions(self.report),
                texts(self.clocks.sessions@),
                width,
            ),
        )
        &&& is_titled(
            panels[8],
            Some(4),
            "ATTENTION"@,
            waits_since(session) is Some,
            attention_panel(session, self.now, width),
        )
        &&& is_bare(panels[9], None, Seq::empty())
        &&& is_bare(
            panels[10],
            Some(1),
            seq![footer_spans(str_view(self.toast), Screen::Watch)],
        )
    }
}

/// The panels of the watch pane, from top to bottom. They are missing exactly
/// where the counters cannot hold what the pane shows.
pub fn watch_panels(model: &WatchModel, width: u16) -> (panels: Option<Vec<Panel>>)
    requires
        model.is_timed(),
    ensures
        panels is Some <==> model.fits(),
        panels matches Some(panels) ==> model.shown_by(panels@, width),
{
    let session = model.session;
    let history = model.history;
    let started: Option<&str> = match &model.clocks.started {
        Some(clock) => Some(clock.as_str()),
        None => None,
    };
    let session_part = match session_lines(session, history, model.average, width) {
        Some(lines) => lines,
        None => {
            return None;
        },
    };
    let history_part = match history_lines(history, model.average, width) {
        Some(lines) => lines,
        None => {
            return None;
        },
    };
    let waiting = match session {
        Some(session) => session.waiting_since.is_some(),
        None => false,
    };
    let live_part = live_lines(session, &model.now, &model.clocks.tools, width);
    let heat_part = heat_lines(history, model.today, width);
    let sessions_part = sessions_lines(history, model.report, &model.clocks.sessions, width);
    let nothing: Vec<Vec<Span>> = Vec::new();
    assert(line_views(nothing@) == Seq::<Seq<SpanView>>::empty());
    let panels = vec![
        bare(Some(1), alone(header_line(width, model.project))),
        bare(Some(1), alone(status_line(session, started))),
        titled(Some(8), "LIVE TURN", false, live_part),
        titled(Some(5), "FILES THIS TURN", false, files_lines(session, history)),
        titled(Some(6), "SESSION", false, session_part),
        titled(Some(5), "HISTORY · 30D", false, history_part),
        titled(Some(7), "HEATMAP · EDITS × 14D", false, heat_part),
        titled(Some(4), "SESSIONS", false, sessions_part),
        titled(Some(4), "ATTENTION", waiting, attention_lines(session, &model.now, width)),
        bare(None, nothing),
        bare(Some(1), alone(footer_line(model.toast, Screen::Watch))),
    ];
    Some(panels)
}

/// Lines of plain text, one piece each.
pub open spec fn plain_lines(page: Seq<Seq<char>>) -> Seq<Seq<SpanView>> {
    Seq::new(page.len(), |i: int| seq![painted(page[i], Paint::Text)])
}

/// What a full-screen view shows: the report in colours, the other views as
/// they are printed.
pub open spec fn full_screen_lines(
    screen: Screen,
    report: Option<ReportData>,
    quotients: Quotients,
) -> Seq<Seq<SpanView>> {
    match report {
        Some(data) => match screen {
            Screen::Heatmap => plain_lines(heatmap_page(data)),
            Screen::Sessions => plain_lines(sessions_page(data)),
            _ => report_panel(report, quotients),
        },
        None => report_panel(report, quotients),
    }
}

/// The title of a full-screen view.
pub open spec fn full_screen_title(screen: Screen) -> Seq<char> {
    match screen {
        Screen::Heatmap => "HEATMAP · 30D"@,
        Screen::Sessions => "SESSIONS · 30D"@,
        _ => "REPORT · 30D"@,
    }
}

/// Lines of plain text, one piece each.
fn plain_spans(page: Vec<String>) -> (lines: Vec<Vec<Span>>)
    ensures
        line_views(lines@) == plain_lines(texts(page@)),
{
    let ghost expected = plain_lines(texts(page@));
    let mut lines: Vec<Vec<Span>> = Vec::new();
    for i in 0..page.len()
        invariant
            expected == plain_lines(texts(page@)),
            line_views(lines@) == expected.take(i as int),
    {
        let ghost before = line_views(lines@);
        let line = vec![paint_text(page[i].clone(), Paint::Text)];
        assert(span_views(line@) == seq![painted(texts(page@)[i as int], Paint::Text)]);
        lines.push(line);
        assert(line_views(lines@) == before.push(span_views(line@)));
        assert(expected.take(i + 1) == expected.take(i as int).push(expected[i as int]));
    }
    assert(expected.take(expected.len() as int) == expected);
    lines
}

/// The report itself, where there is one.
pub open spec fn report_data(report: Option<&ReportData>) -> Option<ReportData> {
    match report {
        Some(data) => Some(*data),
        None => None,
    }
}

/// The panels of a full-screen view: its lines, and the footer. They are
/// missing exactly where the view shows the report and the counters cannot
/// hold what it shows.
pub fn full_screen_panels(
    screen: Screen,
    report: Option<&ReportData>,
    quotients: &Quotients,
    toast: Option<&str>,
) -> (panels: Option<Vec<Panel>>)
    requires
        screen != Screen::Watch,
    ensures
        panels is Some <==> (screen == Screen::Report ==> (report matches Some(data)
            ==> report_shows(*data))),
        panels matches Some(panels) ==> {
            &&& panels@.len() == 2
            &&& is_titled(
                panels@[0],
                None,
                full_screen_title(screen),
                false,
                full_screen_lines(screen, report_data(report), *quotients),
            )
            &&& is_bare(panels@[1], Some(1), seq![footer_spans(str_view(toast), screen)])
        },
{
    let (title, lines) = match screen {
        Screen::Heatmap => {
            let lines = match report {
                Some(data) => plain_spans(heatmap_text(data)),
                None => alone(no_data_line()),
            };
            ("HEATMAP · 30D", lines)
        },
        Screen::Sessions => {
            let lines = match report {
                Some(data) => plain_spans(sessions_text(data)),
                None => alone(no_data_line()),
            };
            ("SESSIONS · 30D", lines)
        },
        _ => match report_lines(report, quotients) {
            Some(lines) => ("REPORT · 30D", lines),
            None => {
                return None;
            },
        },
    };
    let panels = vec![
        titled(None, title, false, lines),
        bare(Some(1), alone(footer_line(toast, screen))),
    ];
    Some(panels)
}

// ---- laws ---------------------------------------------------------------------

/// The footer names each key in brackets, in their order, and says at its end
/// that the pane only reads. A message takes its place.
pub proof fn the_footer_names_the_keys(
    keys: Seq<(Seq<char>, Seq<char>)>,
    key: Seq<char>,
    rest: Seq<char>,
    message: Seq<char>,
    screen: Screen,
)
    ensures
        key_spans(Seq::empty()) == Seq::<SpanView>::empty(),
        key_spans(keys.push((key, rest))) == key_spans(keys).push(
            painted("["@ + key + "]"@, Paint::Faint),
        ).push(painted(rest, Paint::Dim)),
        keys_spans(keys) == key_spans(keys).push(painted("· ro-mode"@, Paint::Faint)),
        footer_spans(Some(message), screen) == seq![painted(message, Paint::Yellow)],
        footer_spans(None, Screen::Watch) == keys_spans(
            seq![("q"@, "uit  "@), ("r"@, "eport  "@)],
        ),
        screen != Screen::Watch ==> footer_spans(None, screen) == keys_spans(
            seq![("b"@, "ack  "@), ("r"@, "efresh  "@)],
        ),
{
    assert(keys.push((key, rest)).drop_last() == keys);
    let first = painted("["@ + key + "]"@, Paint::Faint);
    let second = painted(rest, Paint::Dim);
    assert(key_spans(keys) + seq![first, second] == key_spans(keys).push(first).push(second));
    let end = painted("· ro-mode"@, Paint::Faint);
    assert(key_spans(keys) + seq![end] == key_spans(keys).push(end));
}

/// A commit shows the start of its hash, its day, its live and its added lines,
/// its subject in at most 24 characters, and its session. It is green from half
/// of its lines on.
pub proof fn commits_show_their_lines(
    row: CommitRowView,
    start: Seq<char>,
    rest: Seq<char>,
    live: nat,
    added: nat,
    session: Seq<char>,
    more: Seq<char>,
)
    requires
        start.len() == 8,
        row.sha == start + rest,
        row.surviving == live,
        row.added == added,
        session.len() == 8,
    ensures
        ({
            let line = commit_spans(row);
            let share = decimal(live) + "/"@ + decimal(added);
            &&& line.len() == 5
            &&& line[0] == painted(start, Paint::Purple)
            &&& line[1] == painted("  "@ + utc_month_day(row.at), Paint::Faint)
            &&& row.mature ==> line[2].text == "  "@ + share
            &&& !row.mature ==> line[2].text == "  "@ + share + " <7d"@
            &&& line[2].paint == if live + live >= added {
                Paint::Green
            } else {
                Paint::Yellow
            }
            &&& !line[2].bold
            &&& row.subject.len() <= 24 ==> line[3] == painted("  "@ + row.subject, Paint::Text)
            &&& row.subject.len() > 24 ==> line[3] == painted(
                "  "@ + row.subject.take(23).push('…'),
                Paint::Text,
            )
            &&& row.session_id == Some(session + more) ==> line[4] == painted(
                "  ⇠"@ + session,
                Paint::Dim,
            )
            &&& row.session_id is None ==> line[4] == painted(Seq::empty(), Paint::Dim)
        }),
{
    heads_are_prefixes(start, rest, 0);
    heads_are_prefixes(session, more, 0);
    let share = "  "@ + (decimal(live) + "/"@ + decimal(added));
    assert(share + Seq::<char>::empty() == share);
}

/// The report counts the commits and the lines that they added, tells how many
/// mature lines survive, and what a surviving line cost; then come the first
/// twelve commits, in their order.
pub proof fn the_report_is_shown(
    data: ReportData,
    quotients: Quotients,
    i: int,
    live: nat,
    mature: nat,
)
    requires
        data.surviving_mature == live,
        data.added_mature == mature,
        0 <= i < 12,
        i < data.commits@.len(),
    ensures
        ({
            let panel = report_panel(Some(data), quotients);
            let count = data.commits@.len();
            let shown = if count < 12 {
                count as int
            } else {
                12
            };
            let name = |label: Seq<char>| painted(left_aligned(label, 19), Paint::Dim);
            &&& panel[0] == seq![name("AI commits"@), painted(decimal(count), Paint::Green)]
            &&& panel[1] == seq![
                name("lines added"@),
                painted(
                    decimal(total_added(commit_row_views(data.commits@)) as nat),
                    Paint::Text,
                ),
            ]
            &&& mature > 0 ==> panel[2] == seq![
                name("line survival 7d+"@),
                painted(
                    quotients.survival_percent@ + "%  ("@ + decimal(live) + "/"@ + decimal(mature)
                        + " mature)"@,
                    if quotients.survives_well {
                        Paint::Green
                    } else {
                        Paint::Yellow
                    },
                ),
            ]
            &&& mature == 0 ==> panel[2] == seq![
                name("line survival 7d+"@),
                painted("— (<7d old)"@, Paint::Dim),
            ]
            &&& live > 0 ==> {
                &&& panel[3] == seq![
                    name("tok/surviving line"@),
                    painted(quotients.cost@, Paint::Text),
                ]
                &&& panel[5 + i] == commit_spans(data.commits@[i]@)
                &&& panel.len() == 5 + shown
            }
            &&& live == 0 ==> {
                &&& panel[4 + i] == commit_spans(data.commits@[i]@)
                &&& panel.len() == 4 + shown
            }
            &&& report_panel(None, quotients) == seq![
                seq![painted("no data — press r"@, Paint::Dim)],
            ]
        }),
{
}

/// The full-screen views show what their titles say: the heatmap and the sessions
/// line by line as they are printed, the report in colours.
pub proof fn views_show_what_they_are_named_for(
    data: ReportData,
    quotients: Quotients,
    heat: int,
    row: int,
)
    requires
        0 <= heat < heatmap_page(data).len(),
        0 <= row < sessions_page(data).len(),
    ensures
        full_screen_lines(Screen::Heatmap, Some(data), quotients).len() == heatmap_page(data).len(),
        full_screen_lines(Screen::Heatmap, Some(data), quotients)[heat] == seq![
            painted(heatmap_page(data)[heat], Paint::Text),
        ],
        full_screen_lines(Screen::Sessions, Some(data), quotients).len() == sessions_page(
            data,
        ).len(),
        full_screen_lines(Screen::Sessions, Some(data), quotients)[row] == seq![
            painted(sessions_page(data)[row], Paint::Text),
        ],
        full_screen_lines(Screen::Report, Some(data), quotients) == report_panel(
            Some(data),
            quotients,
        ),
        forall|screen: Screen| #[trigger]
            full_screen_lines(screen, None, quotients) == seq![
                seq![painted("no data — press r"@, Paint::Dim)],
            ],
        full_screen_title(Screen::Heatmap) == "HEATMAP · 30D"@,
        full_screen_title(Screen::Sessions) == "SESSIONS · 30D"@,
        full_screen_title(Screen::Report) == "REPORT · 30D"@,
{
}

/// The watch pane shows its model: each panel stands in its place, with its
/// height and its lines, and the last one calls for attention exactly while the
/// agent waits.
pub proof fn the_pane_shows_its_model(model: WatchModel, panels: Seq<Panel>, width: u16)
    requires
        model.shown_by(panels, width),
    ensures
        panels.len() == 11,
        panels[0].height == Some(1u16) && panels[1].height == Some(1u16),
        panels[2].height == Some(8u16) && panels[3].height == Some(5u16),
        panels[4].height == Some(6u16) && panels[5].height == Some(5u16),
        panels[6].height == Some(7u16) && panels[7].height == Some(4u16),
        panels[8].height == Some(4u16) && panels[9].height is None,
        panels[10].height == Some(1u16),
        line_views(panels[0].lines@) == seq![header_spans(width, model.project@)],
        line_views(panels[2].lines@) == live_panel(
            watched(model.session),
            model.now,
            texts(model.clocks.tools@),
            width,
        ),
        line_views(panels[3].lines@) == files_panel(
            watched(model.session),
            model.history.edits_per_file@,
        ),
        line_views(panels[4].lines@) == session_panel(
            watched(model.session),
            model.average@,
            model.history.babysit_today.length(),
            width,
        ),
        line_views(panels[1].lines@) == seq![
            status_spans(watched(model.session), text_view(model.clocks.started)),
        ],
        line_views(panels[5].lines@) == history_panel(
            model.history.sessions as nat,
            day_tokens(model.history.tokens_by_day@),
            model.average@,
            width,
        ),
        line_views(panels[7].lines@) == sessions_panel(
            summary_views(model.history.summaries@),
            reported_sessions(model.report),
            texts(model.clocks.sessions@),
            width,
        ),
        line_views(panels[9].lines@).len() == 0,
        line_views(panels[10].lines@) == seq![
            footer_spans(str_view(model.toast), Screen::Watch),
        ],
        panels[0].block is None && panels[1].block is None,
        panels[9].block is None && panels[10].block is None,
        panels[2].block matches Some(block) && block.title@.text == " "@ + "LIVE TURN"@ + " "@,
        panels[3].block matches Some(block) && block.title@.text == " "@ + "FILES THIS TURN"@
            + " "@,
        panels[4].block matches Some(block) && block.title@.text == " "@ + "SESSION"@ + " "@,
        panels[5].block matches Some(block) && block.title@.text == " "@ + "HISTORY · 30D"@
            + " "@,
        panels[6].block matches Some(block) && block.title@.text == " "@
            + "HEATMAP · EDITS × 14D"@ + " "@,
        panels[7].block matches Some(block) && block.title@.text == " "@ + "SESSIONS"@ + " "@,
        panels[8].block matches Some(block) && block.title@.text == " "@ + "ATTENTION"@ + " "@,
        exists|files: Seq<HotFile>| #[trigger]
            hottest(model.history.edits_per_file@, files, 4) && line_views(panels[6].lines@)
                == heat_panel(*model.history, files, model.today as int, width),
        line_views(panels[8].lines@) == attention_panel(watched(model.session), model.now, width),
        panels[8].block matches Some(block) && (block.border == Paint::BorderAlert <==> (
        model.session matches Some(session) && session@.waiting_since is Some)),
        forall|i: int|
            2 <= i <= 7 ==> ((#[trigger] panels[i]).block matches Some(block) && block.border
                == Paint::Border),
{
}

/// The screens show whatever their counters of 64 bits can hold.
pub proof fn screens_show_what_counters_hold(data: ReportData, model: WatchModel)
    ensures
        total_added(commit_row_views(data.commits@)) <= 0xffff_ffff_ffff_ffff && (forall|i: int|
            0 <= i < 12 && i < data.commits@.len() ==> (#[trigger] data.commits@[i])@.surviving * 2
                <= 0xffff_ffff_ffff_ffff) <==> report_shows(data),
        (model.session matches Some(session) ==> session@.input_tokens + session@.output_tokens
            <= 0xffff_ffff_ffff_ffff) && largest(day_tokens(model.history.tokens_by_day@)) * 7
            <= 0xffff_ffff_ffff_ffff <==> model.fits(),
{
    let rows = commit_row_views(data.commits@);
    let shown = first_items(rows, 12);
    if forall|i: int|
        0 <= i < 12 && i < data.commits@.len() ==> (#[trigger] data.commits@[i])@.surviving * 2
            <= 0xffff_ffff_ffff_ffff {
        assert forall|i: int| 0 <= i < shown.len() implies (#[trigger] shown[i]).surviving * 2
            <= u64::MAX by {
            assert(shown[i] == data.commits@[i]@);
        }
    }
    if report_shows(data) {
        assert forall|i: int| 0 <= i < 12 && i < data.commits@.len() implies (
        #[trigger] data.commits@[i])@.surviving * 2 <= 0xffff_ffff_ffff_ffff by {
            assert(shown[i] == data.commits@[i]@);
        }
    }
}

} // verus!
