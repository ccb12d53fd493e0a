use benclaude::git::{ai_commits, survival, Blame, Survival};
use benclaude::history::{History, SessionLog, SessionSummary};
use benclaude::live::{
    attention_lines, files_lines, header_line, live_lines, session_lines, shown_tools, status_line,
};
use benclaude::paint::{kv_line, kv_row, rgb, two_columns, Paint, Span};
use benclaude::past::{heat_cell, heat_lines, history_lines, sessions_lines};
use benclaude::plain::Quotients;
use benclaude::report::{build, ReportData};
use benclaude::screen::{
    block, footer_line, full_screen_panels, keys_line, report_lines, watch_panels, Clocks, Screen,
    WatchModel,
};
use benclaude::session::SessionState;
use benclaude::time::{Gap, Timestamp};
use benclaude::transcript::TranscriptEvent;

const TODAY: i64 = 20_833;

fn at(secs: i64) -> Timestamp {
    Timestamp::from_unix(1_800_000_000 + secs).expect("valid timestamp")
}

fn text(line: &[Span]) -> String {
    line.iter().map(|span| span.text.as_str()).collect()
}

fn texts(lines: &[Vec<Span>]) -> Vec<String> {
    lines.iter().map(|line| text(line)).collect()
}

fn call(secs: i64, id: &str, name: &str, label: &str) -> TranscriptEvent {
    TranscriptEvent::ToolCall {
        at: at(secs),
        id: id.into(),
        name: name.into(),
        label: label.into(),
    }
}

fn span(text: &str, paint: Paint) -> Span {
    Span {
        text: text.to_string(),
        paint,
        bold: false,
    }
}

fn sample_session() -> SessionState {
    let mut session = SessionState::new("0123456789".into());
    let events = vec![
        TranscriptEvent::UserPrompt { at: at(0) },
        call(1, "a", "Edit", "one.rs"),
        TranscriptEvent::ToolResult {
            at: at(4),
            id: "a".into(),
        },
        call(5, "b", "Bash", "cargo test"),
        TranscriptEvent::Usage {
            at: at(6),
            input_tokens: 1_000,
            output_tokens: 8_243,
        },
        TranscriptEvent::AssistantText {
            text: "first line\nsecond".into(),
        },
    ];
    assert!(session.apply_all(&events));
    session
}

fn edits(files: &[&str]) -> SessionLog {
    SessionLog {
        id: "edits".into(),
        events: files.iter().map(|f| call(0, "", "Edit", f)).collect(),
        days: files.iter().map(|_| TODAY).collect(),
    }
}

// ---- lines ---------------------------------------------------------------------

#[test]
fn two_columns_fill_the_line() {
    let line = two_columns(
        12,
        vec![span("ab", Paint::Dim)],
        vec![span("cd", Paint::Text)],
    );
    assert_eq!(text(&line), "ab        cd");
    assert_eq!(line.len(), 3);
    assert_eq!(line[1].paint, Paint::Plain);
    // Wide characters take two columns.
    let wide = two_columns(
        12,
        vec![span("漢字", Paint::Dim)],
        vec![span("cd", Paint::Text)],
    );
    assert_eq!(text(&wide), "漢字      cd");
    // Where nothing is left there is one blank.
    let narrow = two_columns(
        3,
        vec![span("ab", Paint::Dim)],
        vec![span("cd", Paint::Text)],
    );
    assert_eq!(text(&narrow), "ab cd");
    let empty = two_columns(0, vec![], vec![]);
    assert_eq!(text(&empty), " ");
}

#[test]
fn labels_stand_before_their_values() {
    let row = kv_row(10, "key", vec![span("v", Paint::Text)]);
    assert_eq!(text(&row), "key      v");
    assert_eq!(row[0].paint, Paint::Dim);
    let line = kv_line("key", "v".to_string(), Paint::Green);
    assert_eq!(text(&line), format!("{:<19}v", "key"));
    assert_eq!(line[1].paint, Paint::Green);
}

#[test]
fn colours_have_their_parts() {
    assert_eq!(rgb(Paint::Plain), None);
    assert_eq!(rgb(Paint::Purple), Some((0xb5, 0x8f, 0xf2)));
    assert_eq!(rgb(Paint::BorderAlert), Some((0x5c, 0x3a, 0x41)));
}

// ---- the session that is watched -----------------------------------------------

#[test]
fn the_header_names_program_and_project() {
    let line = header_line(30, "x/app");
    assert_eq!(text(&line), "▚ benclaude watch        x/app");
    assert!(line[0].bold);
}

#[test]
fn the_status_tells_whether_there_is_a_session() {
    let session = sample_session();
    let live = status_line(Some(&session), Some("12:41"));
    assert_eq!(text(&live), "session 01234567 · started 12:41 · ● live");
    let none = status_line(None, None);
    assert_eq!(text(&none), "session  · started --:-- · ○ no session");
    assert_eq!(none[1].paint, Paint::Dim);
    assert_eq!(none[2].paint, Paint::Green);
}

#[test]
fn the_live_turn_lists_running_and_finished_tools() {
    let session = sample_session();
    assert_eq!(shown_tools(&session).len(), 1);
    let lines = live_lines(Some(&session), &at(192), &vec!["12:00:01".to_string()], 32);
    assert_eq!(
        texts(&lines),
        vec![
            "turn 1  ·  3m 12s     8.2k tok",
            "└ Bash  cargo test — running 3m 07s",
            "12:00:01  Edit  one.rs 3s",
        ]
    );
    let waiting = live_lines(None, &at(0), &vec![], 32);
    assert_eq!(texts(&waiting), vec!["waiting for a session to start…"]);
    let fresh = SessionState::new("x".into());
    let lines = live_lines(Some(&fresh), &at(0), &vec![], 24);
    assert_eq!(texts(&lines), vec!["turn 0  ·  0s    0 tok"]);
}

#[test]
fn a_running_tool_takes_the_place_of_a_finished_one() {
    let mut session = SessionState::new("x".into());
    for i in 0..7 {
        let id = format!("t{i}");
        session.apply(&call(i, &id, "Bash", &id));
        session.apply(&TranscriptEvent::ToolResult { at: at(i), id });
    }
    assert_eq!(shown_tools(&session).len(), 5);
    session.apply(&call(9, "r", "Bash", "r"));
    assert_eq!(shown_tools(&session).len(), 4);
    assert_eq!(shown_tools(&session)[0].label, "t6");
}

#[test]
fn a_call_that_died_with_its_turn_is_not_shown_as_running() {
    let mut session = sample_session();
    assert_eq!(
        live_lines(Some(&session), &at(9), &vec!["c".to_string()], 32).len(),
        3
    );
    session.apply(&TranscriptEvent::TurnDone { at: at(9) });
    assert_eq!(shown_tools(&session).len(), 1);
    let lines = live_lines(Some(&session), &at(9), &vec!["c".to_string()], 32);
    assert_eq!(lines.len(), 2);
    assert!(lines.iter().all(|line| !text(line).contains("running")));
}

#[test]
fn files_of_the_turn_show_their_churn() {
    let history = History::scan(
        &vec![edits(&["hot.rs", "hot.rs", "hot.rs", "hot.rs", "warm.rs", "warm.rs", "warm.rs"])],
        TODAY,
    )
    .unwrap();
    let mut session = SessionState::new("x".into());
    for file in ["old.rs", "hot.rs", "warm.rs", "new.rs"] {
        session.apply(&call(0, "", "Edit", file));
    }
    assert_eq!(
        texts(&files_lines(Some(&session), &history)),
        vec![
            "✓ new.rs — quiet file",
            "✓ warm.rs — quiet file",
            "⚠ hot.rs — 4 edits /30d",
        ]
    );
    assert_eq!(
        texts(&files_lines(None, &history)),
        vec!["no edits yet this turn"]
    );
    let fresh = SessionState::new("x".into());
    assert_eq!(
        texts(&files_lines(Some(&fresh), &history)),
        vec!["no edits yet this turn"]
    );
}

#[test]
fn the_session_panel_sums_its_tokens() {
    let mut history = History::new();
    history.babysit_today = Gap::seconds(60).unwrap();
    let session = sample_session();
    let lines = session_lines(Some(&session), &history, "1.5", 42).unwrap();
    assert_eq!(
        texts(&lines),
        vec![
            "tokens                   9.2k (8.2k out)",
            "follow-ups                   0 (avg 1.5)",
            "interruptions                          0",
            "babysit gap              0s today 1m 00s",
        ]
    );
    assert!(session_lines(None, &history, "1.5", 42).unwrap().is_empty());
    let mut full = SessionState::new("x".into());
    full.apply(&TranscriptEvent::Usage {
        at: at(0),
        input_tokens: u64::MAX,
        output_tokens: 1,
    });
    assert!(session_lines(Some(&full), &history, "0.0", 42).is_none());
}

#[test]
fn attention_is_called_for_while_the_agent_waits() {
    let mut session = sample_session();
    let working = attention_lines(Some(&session), &at(10), 30);
    assert_eq!(texts(&working), vec!["● agent working", "last: “first line”"]);
    session.apply(&TranscriptEvent::TurnDone { at: at(10) });
    let waiting = attention_lines(Some(&session), &at(170), 17);
    assert_eq!(
        texts(&waiting),
        vec!["⏳ waiting on you — 2m 40s", "last: “firs…”"]
    );
    assert_eq!(waiting[0][0].paint, Paint::Red);
    assert!(waiting[0][0].bold);
    assert_eq!(texts(&attention_lines(None, &at(0), 5)), vec!["● agent working"]);
}

// ---- past sessions -------------------------------------------------------------

#[test]
fn the_history_draws_its_sparkline() {
    let mut history = History::new();
    history.sessions = 12;
    history.tokens_by_day = vec![(1, 0), (2, 50), (3, 100), (4, 1)];
    let lines = history_lines(&history, "2.0", 26).unwrap();
    assert_eq!(
        texts(&lines),
        vec![
            "sessions              12",
            "▁▅█▂  tok/day · 8d",
            "follow-ups/session   2.0",
        ]
    );
    history.tokens_by_day.push((5, u64::MAX / 7 + 1));
    assert!(history_lines(&history, "2.0", 26).is_none());
}

#[test]
fn cells_show_their_count_in_fixed_shades() {
    let shown: Vec<(String, Paint)> = [0, 1, 2, 3, 4, 6, 7, 9, 10, u64::MAX]
        .iter()
        .map(|edits| {
            let cell = heat_cell(*edits);
            assert!(cell.bold);
            (cell.text, cell.paint)
        })
        .collect();
    let expected = [
        ("· ", Paint::Faint),
        ("1 ", Paint::HeatLow),
        ("2 ", Paint::HeatMild),
        ("3 ", Paint::HeatMild),
        ("4 ", Paint::HeatHigh),
        ("6 ", Paint::HeatHigh),
        ("7 ", Paint::HeatPeak),
        ("9 ", Paint::HeatPeak),
        ("+ ", Paint::HeatPeak),
        ("+ ", Paint::HeatPeak),
    ];
    for ((text, paint), (glyph, colour)) in shown.iter().zip(expected) {
        assert_eq!(text, glyph);
        assert_eq!(*paint, colour);
    }
    let dark = rgb(heat_cell(1).paint).unwrap();
    let bright = rgb(heat_cell(7).paint).unwrap();
    assert!(dark.0 < bright.0 && dark.1 < bright.1 && dark.2 < bright.2);
}

#[test]
fn the_heatmap_lines_files_up_with_days() {
    let mut log = edits(&["a_very_long_name.rs", "b.rs", "b.rs"]);
    log.days = vec![TODAY, TODAY - 13, TODAY - 14];
    let history = History::scan(&vec![log], TODAY).unwrap();
    let lines = heat_lines(&history, TODAY, 43);
    assert_eq!(
        texts(&lines),
        vec![
            "b.rs         1 · · · · · · · · · · · · · ",
            "a_very_long… · · · · · · · · · · · · · 1 ",
            "             14d ago                today",
        ]
    );
    let narrow = heat_lines(&history, TODAY, 5);
    assert!(text(&narrow[0]).starts_with("b.rs     1 "));
    assert_eq!(
        texts(&heat_lines(&History::new(), TODAY, 43)),
        vec!["no edits in 30 days"]
    );
    let many = History::scan(&vec![edits(&["a", "b", "c", "d", "e"])], TODAY).unwrap();
    assert_eq!(heat_lines(&many, TODAY, 43).len(), 5);
}

fn summary(id: &str, start: i64) -> SessionSummary {
    SessionSummary {
        id: id.into(),
        start: at(start),
        end: at(start + 10),
        prompts: 3,
        output_tokens: 1_500,
        babysit: Gap::zero(),
    }
}

fn sample_report(history: &History) -> ReportData {
    let log = "\u{1}0123456789\u{2}1800000100\u{2}a subject that is far too long\u{2}Agent\n4\t0\tx.rs\n\u{1}ffff\u{2}1800600000\u{2}young\u{2}Agent\n9\t0\ty.rs\n";
    let commits = ai_commits(log, "Agent").unwrap();
    let blames = vec![Blame {
        file: "x.rs".into(),
        output: Some("0123456789 1 1\n0123456789 2 2\n".into()),
    }];
    let alive = survival(&commits, &blames);
    build(history, &commits, &alive, at(700_000)).unwrap()
}

#[test]
fn the_latest_sessions_show_their_commits() {
    let mut history = History::new();
    history.summaries = vec![summary("older", -9_000), summary("middle-one", 50), summary("newest", 9_000)];
    let starts = vec!["01-15 10:30".to_string(), "01-15 08:00".to_string()];
    let before = sessions_lines(&history, None, &starts, 42);
    assert_eq!(
        texts(&before),
        vec![
            "newest 01-15 10:30          3t  1.5k  ⚑—",
            "middle-o 01-15 08:00        3t  1.5k  ⚑—",
        ]
    );
    let report = sample_report(&history);
    let after = sessions_lines(&history, Some(&report), &starts, 42);
    assert_eq!(
        texts(&after),
        vec![
            "newest 01-15 10:30          3t  1.5k  ⚑0",
            "middle-o 01-15 08:00        3t  1.5k  ⚑1",
        ]
    );
    assert_eq!(after[0].last().unwrap().paint, Paint::Dim);
    assert_eq!(after[1].last().unwrap().paint, Paint::Green);
    assert_eq!(
        texts(&sessions_lines(&History::new(), None, &vec![], 42)),
        vec!["no sessions yet"]
    );
}

// ---- screens -------------------------------------------------------------------

fn quotients(survives_well: bool) -> Quotients {
    Quotients {
        survival_percent: "50".to_string(),
        survives_well,
        cost: "750".to_string(),
    }
}

#[test]
fn the_footer_names_the_keys_or_a_message() {
    assert_eq!(text(&footer_line(None, Screen::Watch)), "[q]uit  [r]eport  · ro-mode");
    for screen in [Screen::Report, Screen::Heatmap, Screen::Sessions] {
        assert_eq!(text(&footer_line(None, screen)), "[b]ack  [r]efresh  · ro-mode");
    }
    let toast = footer_line(Some("no repository"), Screen::Watch);
    assert_eq!(text(&toast), "no repository");
    assert_eq!(toast[0].paint, Paint::Yellow);
    assert_eq!(text(&keys_line(&vec![])), "· ro-mode");
}

#[test]
fn borders_change_colour_with_an_alert() {
    let calm = block("LIVE", false);
    assert_eq!(calm.title.text, " LIVE ");
    assert_eq!(calm.title.paint, Paint::Cyan);
    assert_eq!(calm.border, Paint::Border);
    let alert = block("LIVE", true);
    assert_eq!(alert.title.paint, Paint::Red);
    assert_eq!(alert.border, Paint::BorderAlert);
}

#[test]
fn the_report_view_lists_its_commits() {
    let mut history = History::new();
    history.summaries = vec![summary("middle-one", 50)];
    let data = sample_report(&history);
    let lines = report_lines(Some(&data), &quotients(true)).unwrap();
    assert_eq!(
        texts(&lines),
        vec![
            "AI commits         2".to_string(),
            "lines added        13".to_string(),
            "line survival 7d+  50%  (2/4 mature)".to_string(),
            "tok/surviving line 750".to_string(),
            String::new(),
            "01234567  01-15  2/4  a subject that is far t…  ⇠middle-o".to_string(),
            "ffff  01-22  0/9 <7d  young".to_string(),
        ]
    );
    assert_eq!(lines[2][1].paint, Paint::Green);
    assert_eq!(lines[5][2].paint, Paint::Green);
    assert_eq!(lines[6][2].paint, Paint::Yellow);
    let low = report_lines(Some(&data), &quotients(false)).unwrap();
    assert_eq!(low[2][1].paint, Paint::Yellow);
    let nothing = report_lines(None, &quotients(true)).unwrap();
    assert_eq!(texts(&nothing), vec!["no data — press r"]);
}

#[test]
fn an_empty_report_has_no_quotients() {
    let data = build(&History::new(), &vec![], &Survival::new(), at(0)).unwrap();
    let lines = report_lines(Some(&data), &quotients(true)).unwrap();
    assert_eq!(
        texts(&lines),
        vec![
            "AI commits         0",
            "lines added        0",
            "line survival 7d+  — (<7d old)",
            "",
        ]
    );
}

#[test]
fn the_report_view_shows_twelve_commits_that_can_be_counted() {
    let log: String = (0..15).map(|i| format!("\u{1}{i}\u{2}0\u{2}s\u{2}Agent\n")).collect();
    let commits = ai_commits(&log, "Agent").unwrap();
    let mut data = build(&History::new(), &commits, &Survival::new(), at(0)).unwrap();
    assert_eq!(report_lines(Some(&data), &quotients(true)).unwrap().len(), 4 + 12);
    data.commits[12].surviving = u64::MAX;
    assert!(report_lines(Some(&data), &quotients(true)).is_some());
    data.commits[11].surviving = u64::MAX;
    assert!(report_lines(Some(&data), &quotients(true)).is_none());
    data.commits[11].surviving = 0;
    data.commits[0].added = u64::MAX;
    data.commits[1].added = 1;
    assert!(report_lines(Some(&data), &quotients(true)).is_none());
}

#[test]
fn the_watch_pane_stacks_its_panels() {
    let history = History::new();
    let mut session = sample_session();
    session.apply(&TranscriptEvent::TurnDone { at: at(9) });
    let clocks = Clocks {
        started: Some("12:00".into()),
        tools: vec!["12:00:01".into()],
        sessions: vec![],
    };
    let model = WatchModel {
        project: "x/app",
        session: Some(&session),
        history: &history,
        report: None,
        toast: Some("hello"),
        clocks: &clocks,
        average: "0.0",
        now: at(10),
        today: TODAY,
    };
    let panels = watch_panels(&model, 40).unwrap();
    let heights: Vec<Option<u16>> = panels.iter().map(|panel| panel.height).collect();
    assert_eq!(
        heights,
        vec![
            Some(1), Some(1), Some(8), Some(5), Some(6), Some(5), Some(7), Some(4), Some(4), None,
            Some(1),
        ]
    );
    let titles: Vec<&str> = panels
        .iter()
        .filter_map(|panel| panel.block.as_ref())
        .map(|block| block.title.text.as_str())
        .collect();
    assert_eq!(
        titles,
        vec![
            " LIVE TURN ",
            " FILES THIS TURN ",
            " SESSION ",
            " HISTORY · 30D ",
            " HEATMAP · EDITS × 14D ",
            " SESSIONS ",
            " ATTENTION ",
        ]
    );
    assert_eq!(panels[8].block.as_ref().unwrap().border, Paint::BorderAlert);
    assert!(panels[9].lines.is_empty());
    assert_eq!(texts(&panels[10].lines), vec!["hello"]);
}

#[test]
fn the_views_fill_the_screen() {
    let mut history = History::new();
    history.summaries = vec![summary("middle-one", 50)];
    let data = sample_report(&history);
    for (screen, title, first) in [
        (Screen::Report, " REPORT · 30D ", "AI commits         2"),
        (
            Screen::Heatmap,
            " HEATMAP · 30D ",
            "benclaude heatmap — agent friction, last 30 days",
        ),
        (
            Screen::Sessions,
            " SESSIONS · 30D ",
            "benclaude sessions — last 30 days",
        ),
    ] {
        let panels = full_screen_panels(screen, Some(&data), &quotients(true), None).unwrap();
        assert_eq!(panels.len(), 2);
        assert_eq!(panels[0].height, None);
        assert_eq!(panels[0].block.as_ref().unwrap().title.text, title);
        assert_eq!(text(&panels[0].lines[0]), first);
        assert_eq!(text(&panels[1].lines[0]), "[b]ack  [r]efresh  · ro-mode");
        let empty = full_screen_panels(screen, None, &quotients(true), None).unwrap();
        assert_eq!(texts(&empty[0].lines), vec!["no data — press r"]);
    }
}
