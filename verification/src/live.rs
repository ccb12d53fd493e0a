//! The panels on the session that is watched: the header, the live turn, the
//! files of the turn, the session, and who waits for whom.

use vstd::prelude::*;

use crate::figures::{fmt_tokens, tokens_text};
use crate::history::History;
use crate::paint::{
    bold, columns, inner_width, inside, kv_row, labelled, line_views, paint_bold, paint_str,
    paint_text, painted, span_views, two_columns, Paint, Span, SpanView,
};
use crate::session::{
    finished_newest_first, first_items, running, SessionState, SessionView, ToolRun, ToolView,
};
use crate::tally::count_of;
use crate::text::{
    decimal, decimal_text, head, heads_are_prefixes, left_aligned, lemma_first_piece,
    lemma_one_piece, lemma_pieces_not_empty, lines, lines_of, only, pad_end, short_id, texts,
    truncate, truncated, uncut,
};
use crate::time::{clock_text, fmt_duration, whole_seconds, Timestamp};

verus! {

// ---- header -------------------------------------------------------------------

/// What is known of the session that is watched, if there is one.
pub open spec fn watched(session: Option<&SessionState>) -> Option<SessionView> {
    match session {
        Some(session) => Some(session@),
        None => None,
    }
}

/// The title and the project.
pub open spec fn header_spans(width: u16, project: Seq<char>) -> Seq<SpanView> {
    columns(
        width as int,
        seq![bold("▚ benclaude "@, Paint::Purple), painted("watch"@, Paint::Dim)],
        seq![painted(project, Paint::Dim)],
    )
}

/// The session, when it began on the local clock, and whether there is one.
pub open spec fn status_spans(
    session: Option<SessionView>,
    started: Option<Seq<char>>,
) -> Seq<SpanView> {
    let id = match session {
        Some(session) => session.session_id,
        None => Seq::empty(),
    };
    let clock = match started {
        Some(clock) => clock,
        None => "--:--"@,
    };
    let dot = if session is Some {
        painted("● "@, Paint::Green)
    } else {
        painted("○ "@, Paint::Dim)
    };
    let status = if session is Some {
        "live"@
    } else {
        "no session"@
    };
    seq![
        painted("session "@ + head(id, 8) + " · started "@ + clock + " · "@, Paint::Dim),
        dot,
        painted(status, Paint::Green),
    ]
}

/// The title and the project.
pub fn header_line(width: u16, project: &str) -> (line: Vec<Span>)
    ensures
        span_views(line@) == header_spans(width, project@),
{
    let left = vec![
        paint_bold("▚ benclaude ".to_owned(), Paint::Purple),
        paint_str("watch", Paint::Dim),
    ];
    let right = vec![paint_str(project, Paint::Dim)];
    assert(span_views(left@) == seq![
        bold("▚ benclaude "@, Paint::Purple),
        painted("watch"@, Paint::Dim),
    ]);
    assert(span_views(right@) == seq![painted(project@, Paint::Dim)]);
    two_columns(width, left, right)
}

/// The session and whether there is one. `started` gives the local clock at
/// its beginning, where that is known.
pub fn status_line(session: Option<&SessionState>, started: Option<&str>) -> (line: Vec<Span>)
    ensures
        span_views(line@) == status_spans(
            watched(session),
            match started {
                Some(clock) => Some(clock@),
                None => None,
            },
        ),
{
    let mut text = "session ".to_owned();
    match session {
        Some(session) => {
            text.append(short_id(session.session_id.as_str()).as_str());
        },
        None => {
            assert(text@ == "session "@ + Seq::<char>::empty());
        },
    }
    text.append(" · started ");
    match started {
        Some(clock) => {
            text.append(clock);
        },
        None => {
            text.append("--:--");
        },
    }
    text.append(" · ");
    let (dot, status) = if session.is_some() {
        (paint_str("● ", Paint::Green), paint_str("live", Paint::Green))
    } else {
        (paint_str("○ ", Paint::Dim), paint_str("no session", Paint::Green))
    };
    let line = vec![paint_text(text, Paint::Dim), dot, status];
    assert(span_views(line@) =~= seq![painted(text@, Paint::Dim), dot@, status@]);
    line
}

// ---- live turn ----------------------------------------------------------------

/// The time from one point to another, as the panels show it.
pub open spec fn elapsed(from: Timestamp, to: Timestamp) -> Seq<char> {
    clock_text(whole_seconds(to.nanos_since(from)))
}

/// The time from one point to another, as the panels show it.
fn elapsed_text(from: &Timestamp, to: &Timestamp) -> (text: String)
    ensures
        text@ == elapsed(*from, *to),
{
    fmt_duration(to.since(from))
}

/// The line on the turn: its number, how long it runs, and its tokens.
pub open spec fn turn_spans(session: SessionView, now: Timestamp, width: int) -> Seq<SpanView> {
    let since = match session.last_prompt_at {
        Some(at) => elapsed(at, now),
        None => "0s"@,
    };
    columns(
        width,
        seq![
            painted("turn "@, Paint::Text),
            bold(decimal(session.prompts as nat), Paint::Text),
            painted("  ·  "@, Paint::Dim),
            painted(since, Paint::Yellow),
        ],
        seq![painted(tokens_text(session.turn_output_tokens as nat) + " tok"@, Paint::Dim)],
    )
}

/// The line on the tool that is running.
pub open spec fn running_spans(tool: ToolView, now: Timestamp) -> Seq<SpanView> {
    seq![
        painted("└ "@, Paint::Dim),
        painted(tool.name + "  "@, Paint::Text),
        painted(tool.label, Paint::Text),
        painted(" — running "@ + elapsed(tool.at, now), Paint::Faint),
    ]
}

/// The line on a finished tool, which was called at `clock`.
pub open spec fn finished_spans(tool: ToolView, clock: Seq<char>) -> Seq<SpanView> {
    let duration = match tool.done_at {
        Some(done) => " "@ + elapsed(tool.at, done),
        None => Seq::empty(),
    };
    seq![
        painted(clock, Paint::Faint),
        painted("  "@, Paint::Plain),
        painted(left_aligned(tool.name, 5), Paint::Green),
        painted(" "@, Paint::Plain),
        painted(tool.label, Paint::Text),
        painted(duration, Paint::Dim),
    ]
}

/// The finished tools that the panel has room for, newest first: five, or four
/// beside a running one.
pub open spec fn tools_shown(session: SessionView) -> Seq<ToolView> {
    let room = if running(session) is Some {
        4nat
    } else {
        5nat
    };
    first_items(finished_newest_first(session.tools), room)
}

/// The lines on the finished tools.
pub open spec fn finished_lines(tools: Seq<ToolView>, clocks: Seq<Seq<char>>) -> Seq<
    Seq<SpanView>,
> {
    Seq::new(tools.len(), |i: int| finished_spans(tools[i], clocks[i]))
}

/// The lines on the live turn. `clocks` gives the local clock at each of the
/// finished tools.
pub open spec fn live_panel(
    session: Option<SessionView>,
    now: Timestamp,
    clocks: Seq<Seq<char>>,
    width: u16,
) -> Seq<Seq<SpanView>> {
    match session {
        None => seq![seq![painted("waiting for a session to start…"@, Paint::Dim)]],
        Some(session) => {
            let turn = seq![turn_spans(session, now, inner_width(width))];
            let now_running = match running(session) {
                Some(tool) => seq![running_spans(tool, now)],
                None => Seq::empty(),
            };
            turn + now_running + finished_lines(tools_shown(session), clocks)
        },
    }
}

/// The finished tools that the live panel shows, newest first.
pub fn shown_tools(session: &SessionState) -> (tools: Vec<&ToolRun>)
    ensures
        tools@.map_values(|tool: &ToolRun| tool@) == tools_shown(session@),
{
    if session.running_tool().is_some() {
        session.recent_finished(4)
    } else {
        session.recent_finished(5)
    }
}

/// The line on the turn.
fn turn_line(session: &SessionState, now: &Timestamp, width: u16) -> (line: Vec<Span>)
    ensures
        span_views(line@) == turn_spans(session@, *now, width as int),
{
    let since = match &session.last_prompt_at {
        Some(at) => elapsed_text(at, now),
        None => "0s".to_owned(),
    };
    let mut tokens = fmt_tokens(session.turn_output_tokens);
    tokens.append(" tok");
    let left = vec![
        paint_str("turn ", Paint::Text),
        paint_bold(decimal_text(session.prompts), Paint::Text),
        paint_str("  ·  ", Paint::Dim),
        paint_text(since, Paint::Yellow),
    ];
    let right = vec![paint_text(tokens, Paint::Dim)];
    assert(span_views(left@) == seq![
        painted("turn "@, Paint::Text),
        bold(decimal(session.prompts as nat), Paint::Text),
        painted("  ·  "@, Paint::Dim),
        painted(since@, Paint::Yellow),
    ]);
    assert(span_views(right@) == seq![painted(tokens@, Paint::Dim)]);
    two_columns(width, left, right)
}

/// The line on the tool that is running.
fn running_line(tool: &ToolRun, now: &Timestamp) -> (line: Vec<Span>)
    ensures
        span_views(line@) == running_spans(tool@, *now),
{
    let mut name = tool.name.clone();
    name.append("  ");
    let mut note = " — running ".to_owned();
    note.append(elapsed_text(&tool.at, now).as_str());
    let line = vec![
        paint_str("└ ", Paint::Dim),
        paint_text(name, Paint::Text),
        paint_text(tool.label.clone(), Paint::Text),
        paint_text(note, Paint::Faint),
    ];
    assert(span_views(line@) == running_spans(tool@, *now));
    line
}

/// The line on a finished tool.
fn finished_line(tool: &ToolRun, clock: &String) -> (line: Vec<Span>)
    ensures
        span_views(line@) == finished_spans(tool@, clock@),
{
    let duration = match &tool.done_at {
        Some(done) => {
            let mut text = " ".to_owned();
            text.append(elapsed_text(&tool.at, done).as_str());
            text
        },
        None => String::new(),
    };
    let line = vec![
        paint_text(clock.clone(), Paint::Faint),
        paint_str("  ", Paint::Plain),
        paint_text(pad_end(tool.name.as_str(), 5), Paint::Green),
        paint_str(" ", Paint::Plain),
        paint_text(tool.label.clone(), Paint::Text),
        paint_text(duration, Paint::Dim),
    ];
    assert(span_views(line@) == finished_spans(tool@, clock@));
    line
}

/// The lines on the live turn. `clocks` gives the local clock at each of the
/// tools that `shown_tools` lists.
pub fn live_lines(
    session: Option<&SessionState>,
    now: &Timestamp,
    clocks: &Vec<String>,
    width: u16,
) -> (lines: Vec<Vec<Span>>)
    requires
        session matches Some(s) ==> clocks@.len() == tools_shown(s@).len(),
    ensures
        line_views(lines@) == live_panel(watched(session), *now, texts(clocks@), width),
{
    let mut lines: Vec<Vec<Span>> = Vec::new();
    match session {
        None => {
            let line = vec![paint_str("waiting for a session to start…", Paint::Dim)];
            assert(span_views(line@) == seq![
                painted("waiting for a session to start…"@, Paint::Dim),
            ]);
            lines.push(line);
            assert(line_views(lines@) == seq![span_views(line@)]);
        },
        Some(session) => {
            let turn = turn_line(session, now, inside(width));
            lines.push(turn);
            assert(line_views(lines@) == seq![span_views(turn@)]);
            if let Some(tool) = session.running_tool() {
                let line = running_line(tool, now);
                let ghost before = line_views(lines@);
                lines.push(line);
                assert(line_views(lines@) == before.push(span_views(line@)));
            }
            let tools = shown_tools(session);
            let ghost shown = tools_shown(session@);
            let ghost top = line_views(lines@);
            let ghost view_of = |tool: &ToolRun| tool@;
            let ghost expected = finished_lines(shown, texts(clocks@));
            for i in 0..tools.len()
                invariant
                    tools@.map_values(view_of) == shown,
                    view_of == (|tool: &ToolRun| tool@),
                    clocks@.len() == shown.len(),
                    expected == finished_lines(shown, texts(clocks@)),
                    line_views(lines@) == top + expected.take(i as int),
            {
                let ghost before = line_views(lines@);
                let line = finished_line(tools[i], &clocks[i]);
                assert(shown[i as int] == view_of(tools@[i as int]));
                assert(texts(clocks@)[i as int] == clocks@[i as int]@);
                lines.push(line);
                assert(line_views(lines@) == before.push(span_views(line@)));
                assert(expected.take(i + 1) == expected.take(i as int).push(expected[i as int]));
            }
            assert(expected.take(expected.len() as int) == expected);
        },
    }
    lines
}

// ---- files this turn ----------------------------------------------------------

/// The line on a file of the turn: quiet, or with its churn from four edits on.
pub open spec fn file_spans(file: Seq<char>, churn: nat) -> Seq<SpanView> {
    if churn >= 4 {
        seq![
            painted("⚠ "@, Paint::Yellow),
            painted(file, Paint::Text),
            painted(" — "@ + decimal(churn) + " edits /30d"@, Paint::Dim),
        ]
    } else {
        seq![
            painted("✓ "@, Paint::Green),
            painted(file, Paint::Text),
            painted(" — quiet file"@, Paint::Dim),
        ]
    }
}

/// The lines on the last three files of the turn, latest first.
pub open spec fn files_panel(
    session: Option<SessionView>,
    churn: Map<Seq<char>, u64>,
) -> Seq<Seq<SpanView>> {
    let files = match session {
        Some(session) => first_items(session.files_this_turn.reverse(), 3),
        None => Seq::empty(),
    };
    if files.len() == 0 {
        seq![seq![painted("no edits yet this turn"@, Paint::Dim)]]
    } else {
        Seq::new(
            files.len(),
            |i: int| file_spans(files[i], count_of(churn, files[i]) as nat),
        )
    }
}

/// The line on a file of the turn.
fn file_line(file: &String, churn: u64) -> (line: Vec<Span>)
    ensures
        span_views(line@) == file_spans(file@, churn as nat),
{
    let line = if churn >= 4 {
        let mut note = " — ".to_owned();
        note.append(decimal_text(churn).as_str());
        note.append(" edits /30d");
        vec![
            paint_str("⚠ ", Paint::Yellow),
            paint_text(file.clone(), Paint::Text),
            paint_text(note, Paint::Dim),
        ]
    } else {
        vec![
            paint_str("✓ ", Paint::Green),
            paint_text(file.clone(), Paint::Text),
            paint_str(" — quiet file", Paint::Dim),
        ]
    };
    assert(span_views(line@) == file_spans(file@, churn as nat));
    line
}

/// The lines on the last three files of the turn, latest first.
pub fn files_lines(session: Option<&SessionState>, history: &History) -> (lines: Vec<Vec<Span>>)
    ensures
        line_views(lines@) == files_panel(watched(session), history.edits_per_file@),
{
    let mut lines: Vec<Vec<Span>> = Vec::new();
    let ghost expected = files_panel(watched(session), history.edits_per_file@);
    if let Some(session) = session {
        let files = &session.files_this_turn;
        let ghost names = texts(files@);
        let ghost shown = first_items(names.reverse(), 3);
        let count: usize = files.len();
        let room: usize = if count < 3 {
            count
        } else {
            3
        };
        for i in 0..room
            invariant
                names == texts(files@),
                shown == first_items(names.reverse(), 3),
                count == files@.len(),
                room == shown.len(),
                room <= count,
                room > 0 ==> expected == Seq::new(
                    shown.len(),
                    |i: int|
                        file_spans(shown[i], count_of(history.edits_per_file@, shown[i]) as nat),
                ),
                room > 0 ==> line_views(lines@) == expected.take(i as int),
                lines@.len() == i,
        {
            let file = &files[count - 1 - i];
            assert(shown[i as int] == file@);
            let ghost before = line_views(lines@);
            let line = file_line(file, history.churn(file.as_str()));
            lines.push(line);
            assert(line_views(lines@) == before.push(span_views(line@)));
            assert(expected.take(i + 1) == expected.take(i as int).push(expected[i as int]));
        }
        assert(room > 0 ==> expected.take(expected.len() as int) == expected);
    }
    if lines.len() == 0 {
        let line = vec![paint_str("no edits yet this turn", Paint::Dim)];
        assert(span_views(line@) == seq![painted("no edits yet this turn"@, Paint::Dim)]);
        lines.push(line);
        assert(line_views(lines@) == seq![span_views(line@)]);
    }
    lines
}

// ---- session ------------------------------------------------------------------

/// The lines on the session: its tokens, its follow-ups beside their average,
/// its interruptions, and the time that the agent waited.
pub open spec fn session_panel(
    session: Option<SessionView>,
    average: Seq<char>,
    babysit_today: int,
    width: u16,
) -> Seq<Seq<SpanView>> {
    let inner = inner_width(width);
    match session {
        None => Seq::empty(),
        Some(session) => seq![
            labelled(
                inner,
                "tokens"@,
                seq![
                    painted(
                        tokens_text((session.input_tokens + session.output_tokens) as nat),
                        Paint::Text,
                    ),
                    painted(
                        " ("@ + tokens_text(session.output_tokens as nat) + " out)"@,
                        Paint::Dim,
                    ),
                ],
            ),
            labelled(
                inner,
                "follow-ups"@,
                seq![
                    painted(decimal(after_first(session.prompts)), Paint::Yellow),
                    painted(" (avg "@ + average + ")"@, Paint::Dim),
                ],
            ),
            labelled(
                inner,
                "interruptions"@,
                seq![painted(decimal(session.interruptions as nat), Paint::Text)],
            ),
            labelled(
                inner,
                "babysit gap"@,
                seq![
                    painted(clock_text(whole_seconds(session.babysit)), Paint::Text),
                    painted(" today "@ + clock_text(whole_seconds(babysit_today)), Paint::Dim),
                ],
            ),
        ],
    }
}

/// The prompts after the first one.
pub open spec fn after_first(prompts: int) -> nat {
    if prompts > 0 {
        (prompts - 1) as nat
    } else {
        0
    }
}

/// The line on the tokens of a session.
fn tokens_row(session: &SessionState, total: u64, width: u16) -> (line: Vec<Span>)
    ensures
        span_views(line@) == labelled(
            width as int,
            "tokens"@,
            seq![
                painted(tokens_text(total as nat), Paint::Text),
                painted(" ("@ + tokens_text(session@.output_tokens as nat) + " out)"@, Paint::Dim),
            ],
        ),
{
    let mut out = " (".to_owned();
    out.append(fmt_tokens(session.output_tokens).as_str());
    out.append(" out)");
    let value = vec![paint_text(fmt_tokens(total), Paint::Text), paint_text(out, Paint::Dim)];
    assert(span_views(value@) == seq![
        painted(tokens_text(total as nat), Paint::Text),
        painted(out@, Paint::Dim),
    ]);
    kv_row(width, "tokens", value)
}

/// The line on the follow-ups of a session.
fn followups_row(session: &SessionState, average: &str, width: u16) -> (line: Vec<Span>)
    ensures
        span_views(line@) == labelled(
            width as int,
            "follow-ups"@,
            seq![
                painted(decimal(after_first(session@.prompts)), Paint::Yellow),
                painted(" (avg "@ + average@ + ")"@, Paint::Dim),
            ],
        ),
{
    let mut note = " (avg ".to_owned();
    note.append(average);
    note.append(")");
    let value = vec![
        paint_text(decimal_text(session.prompts.saturating_sub(1)), Paint::Yellow),
        paint_text(note, Paint::Dim),
    ];
    assert(span_views(value@) == seq![
        painted(decimal(after_first(session@.prompts)), Paint::Yellow),
        painted(note@, Paint::Dim),
    ]);
    kv_row(width, "follow-ups", value)
}

/// The line on the time that the agent waited.
fn babysit_row(session: &SessionState, history: &History, width: u16) -> (line: Vec<Span>)
    ensures
        span_views(line@) == labelled(
            width as int,
            "babysit gap"@,
            seq![
                painted(clock_text(whole_seconds(session@.babysit)), Paint::Text),
                painted(
                    " today "@ + clock_text(whole_seconds(history.babysit_today.length())),
                    Paint::Dim,
                ),
            ],
        ),
{
    let mut note = " today ".to_owned();
    note.append(fmt_duration(history.babysit_today).as_str());
    let value = vec![
        paint_text(fmt_duration(session.babysit), Paint::Text),
        paint_text(note, Paint::Dim),
    ];
    assert(span_views(value@) == seq![
        painted(clock_text(whole_seconds(session@.babysit)), Paint::Text),
        painted(note@, Paint::Dim),
    ]);
    kv_row(width, "babysit gap", value)
}

/// The lines on the session. `average` gives the follow-ups per session of the
/// history, with one decimal. The lines are missing exactly where the counter
/// cannot hold the input and the output tokens together.
pub fn session_lines(
    session: Option<&SessionState>,
    history: &History,
    average: &str,
    width: u16,
) -> (lines: Option<Vec<Vec<Span>>>)
    ensures
        lines is Some <==> (session matches Some(s) ==> s@.input_tokens + s@.output_tokens
            <= u64::MAX),
        lines matches Some(lines) ==> line_views(lines@) == session_panel(
            watched(session),
            average@,
            history.babysit_today.length(),
            width,
        ),
{
    match session {
        None => {
            let lines: Vec<Vec<Span>> = Vec::new();
            assert(line_views(lines@) == Seq::<Seq<SpanView>>::empty());
            Some(lines)
        },
        Some(session) => {
            let total: u64 = match session.input_tokens.checked_add(session.output_tokens) {
                Some(total) => total,
                None => {
                    return None;
                },
            };
            let inner: u16 = inside(width);
            let count = vec![paint_text(decimal_text(session.interruptions), Paint::Text)];
            assert(span_views(count@) == seq![
                painted(decimal(session.interruptions as nat), Paint::Text),
            ]);
            let tokens = tokens_row(session, total, inner);
            let followups = followups_row(session, average, inner);
            let interruptions = kv_row(inner, "interruptions", count);
            let babysit = babysit_row(session, history, inner);
            let lines = vec![tokens, followups, interruptions, babysit];
            assert(line_views(lines@) =~= seq![
                span_views(tokens@),
                span_views(followups@),
                span_views(interruptions@),
                span_views(babysit@),
            ]);
            Some(lines)
        },
    }
}

// ---- attention ----------------------------------------------------------------

/// Since when the agent waits for the user, if it does.
pub open spec fn waits_since(session: Option<SessionView>) -> Option<Timestamp> {
    match session {
        Some(session) => session.waiting_since,
        None => None,
    }
}

/// The first line of a text.
pub open spec fn first_line(text: Seq<char>) -> Seq<char> {
    if lines_of(text).len() > 0 {
        lines_of(text)[0]
    } else {
        Seq::empty()
    }
}

/// The lines on who waits for whom, and the last words of the agent.
pub open spec fn attention_panel(
    session: Option<SessionView>,
    now: Timestamp,
    width: u16,
) -> Seq<Seq<SpanView>> {
    let state = match waits_since(session) {
        Some(since) => bold("⏳ waiting on you — "@ + elapsed(since, now), Paint::Red),
        None => painted("● agent working"@, Paint::Green),
    };
    let room = if width > 12 {
        (width - 12) as nat
    } else {
        0
    };
    match session {
        Some(session) => match session.last_assistant_text {
            Some(text) => seq![
                seq![state],
                seq![
                    painted("last: “"@ + truncated(first_line(text), room) + "”"@, Paint::Dim),
                ],
            ],
            None => seq![seq![state]],
        },
        None => seq![seq![state]],
    }
}

/// The first line of a text.
fn first_line_of(text: &str) -> (line: String)
    ensures
        line@ == first_line(text@),
{
    let rows = lines(text);
    let ghost all = lines_of(text@);
    assert(rows@.len() == all.len());
    if rows.len() > 0 {
        assert(all[0] == rows@[0]@);
        rows[0].clone()
    } else {
        String::new()
    }
}

/// The lines on who waits for whom, and the last words of the agent.
pub fn attention_lines(session: Option<&SessionState>, now: &Timestamp, width: u16) -> (lines: Vec<
    Vec<Span>,
>)
    ensures
        line_views(lines@) == attention_panel(watched(session), *now, width),
{
    let waiting: Option<Timestamp> = match session {
        Some(session) => session.waiting_since,
        None => None,
    };
    let state = match &waiting {
        Some(since) => {
            let mut text = "⏳ waiting on you — ".to_owned();
            text.append(elapsed_text(since, now).as_str());
            paint_bold(text, Paint::Red)
        },
        None => paint_str("● agent working", Paint::Green),
    };
    let first = vec![state];
    assert(span_views(first@) == seq![state@]);
    let mut lines = vec![first];
    assert(line_views(lines@) == seq![span_views(first@)]);
    if let Some(session) = session {
        if let Some(words) = &session.last_assistant_text {
            let room: usize = (width as usize).saturating_sub(12);
            let mut text = "last: “".to_owned();
            text.append(truncate(first_line_of(words.as_str()).as_str(), room).as_str());
            text.append("”");
            let line = vec![paint_text(text, Paint::Dim)];
            assert(span_views(line@) == seq![painted(text@, Paint::Dim)]);
            lines.push(line);
            assert(line_views(lines@) =~= seq![span_views(first@), span_views(line@)]);
        }
    }
    lines
}

// ---- laws ---------------------------------------------------------------------

/// The line on the turn shows its number, the time since its prompt, and the
/// tokens that the agent wrote in it.
pub proof fn the_turn_is_shown(session: SessionView, prompt: Timestamp, now: Timestamp, width: int)
    requires
        session.prompts >= 0,
        session.turn_output_tokens >= 0,
    ensures
        ({
            let number = SpanView {
                text: decimal(session.prompts as nat),
                paint: Paint::Text,
                bold: true,
            };
            let tokens = seq![
                painted(tokens_text(session.turn_output_tokens as nat) + " tok"@, Paint::Dim),
            ];
            let start = seq![painted("turn "@, Paint::Text), number, painted("  ·  "@, Paint::Dim)];
            &&& session.last_prompt_at == Some(prompt) ==> turn_spans(session, now, width)
                == columns(
                width,
                start.push(
                    painted(clock_text(whole_seconds(now.nanos_since(prompt))), Paint::Yellow),
                ),
                tokens,
            )
            &&& session.last_prompt_at is None ==> turn_spans(session, now, width) == columns(
                width,
                start.push(painted("0s"@, Paint::Yellow)),
                tokens,
            )
        }),
{
    assert(seq![
        painted("turn "@, Paint::Text),
        bold(decimal(session.prompts as nat), Paint::Text),
        painted("  ·  "@, Paint::Dim),
    ].push(painted("0s"@, Paint::Yellow)) == seq![
        painted("turn "@, Paint::Text),
        bold(decimal(session.prompts as nat), Paint::Text),
        painted("  ·  "@, Paint::Dim),
        painted("0s"@, Paint::Yellow),
    ]);
    let since = elapsed(prompt, now);
    assert(seq![
        painted("turn "@, Paint::Text),
        bold(decimal(session.prompts as nat), Paint::Text),
        painted("  ·  "@, Paint::Dim),
    ].push(painted(since, Paint::Yellow)) == seq![
        painted("turn "@, Paint::Text),
        bold(decimal(session.prompts as nat), Paint::Text),
        painted("  ·  "@, Paint::Dim),
        painted(since, Paint::Yellow),
    ]);
}

/// A running tool shows for how long it has been running; a finished one when it
/// was called, and how long it took.
pub proof fn tools_show_their_times(
    name: Seq<char>,
    label: Seq<char>,
    at: Timestamp,
    later: Timestamp,
    clock: Seq<char>,
)
    ensures
        ({
            let tool = ToolView { name, label, at, done_at: None };
            let done = ToolView { name, label, at, done_at: Some(later) };
            let took = clock_text(whole_seconds(later.nanos_since(at)));
            let shown = running_spans(tool, later);
            let past = finished_spans(done, clock);
            &&& shown.len() == 4
            &&& shown[0] == painted("└ "@, Paint::Dim)
            &&& shown[1] == painted(name + "  "@, Paint::Text)
            &&& shown[2] == painted(label, Paint::Text)
            &&& shown[3] == painted(" — running "@ + took, Paint::Faint)
            &&& past.len() == 6
            &&& past[0] == painted(clock, Paint::Faint)
            &&& past[1] == painted("  "@, Paint::Plain)
            &&& past[2] == painted(left_aligned(name, 5), Paint::Green)
            &&& past[3] == painted(" "@, Paint::Plain)
            &&& past[4] == painted(label, Paint::Text)
            &&& past[5] == painted(" "@ + took, Paint::Dim)
            &&& finished_spans(tool, clock)[5].text == Seq::<char>::empty()
        }),
{
}

/// The live panel shows the turn, then the tool that is running, then the newest
/// finished ones: five lines on tools at most.
pub proof fn the_live_panel_lists_the_tools(
    session: SessionView,
    now: Timestamp,
    clocks: Seq<Seq<char>>,
    width: u16,
    i: int,
)
    requires
        0 <= i < 5,
        i < finished_newest_first(session.tools).len(),
        running(session) is Some ==> i < 4,
        width >= 2,
    ensures
        ({
            let panel = live_panel(Some(session), now, clocks, width);
            let finished = finished_newest_first(session.tools);
            let row = finished_spans(finished[i], clocks[i]);
            &&& panel[0] == turn_spans(session, now, width - 2)
            &&& running(session) matches Some(tool) ==> {
                &&& panel[1] == running_spans(tool, now)
                &&& panel[2 + i] == row
                &&& panel.len() == 2 + if finished.len() < 4 {
                    finished.len()
                } else {
                    4
                }
            }
            &&& running(session) is None ==> {
                &&& panel[1 + i] == row
                &&& panel.len() == 1 + if finished.len() < 5 {
                    finished.len()
                } else {
                    5
                }
            }
            &&& live_panel(None, now, clocks, width) == seq![
                seq![painted("waiting for a session to start…"@, Paint::Dim)],
            ]
        }),
{
    let panel = live_panel(Some(session), now, clocks, width);
    let rows = finished_lines(tools_shown(session), clocks);
    let turn = seq![turn_spans(session, now, inner_width(width))];
    match running(session) {
        Some(tool) => {
            assert(panel == turn + seq![running_spans(tool, now)] + rows);
            assert(panel[2 + i] == rows[i]);
        },
        None => {
            assert(panel == turn + rows);
            assert(panel[1 + i] == rows[i]);
        },
    }
}

/// A file that was edited four times or more is marked with that number; one with
/// fewer edits is quiet.
pub proof fn busy_files_are_marked(file: Seq<char>, few: nat, many: nat)
    requires
        few <= 3,
        many >= 4,
    ensures
        file_spans(file, few)[0] == painted("✓ "@, Paint::Green),
        file_spans(file, few)[1] == painted(file, Paint::Text),
        file_spans(file, few)[2] == painted(" — quiet file"@, Paint::Dim),
        file_spans(file, many)[0] == painted("⚠ "@, Paint::Yellow),
        file_spans(file, many)[1] == painted(file, Paint::Text),
        file_spans(file, many)[2] == painted(
            " — "@ + decimal(many) + " edits /30d"@,
            Paint::Dim,
        ),
        file_spans(file, few).len() == 3 && file_spans(file, many).len() == 3,
{
}

/// The panel lists the last three files of the turn, latest first, each with the
/// edits of the history.
pub proof fn the_last_files_are_listed(
    session: SessionView,
    churn: Map<Seq<char>, u64>,
    i: int,
    file: Seq<char>,
    edits: u64,
)
    requires
        0 <= i < 3,
        i < session.files_this_turn.len(),
        session.files_this_turn[session.files_this_turn.len() - 1 - i] == file,
        churn.dom().contains(file) && churn[file] == edits || !churn.dom().contains(file) && edits
            == 0,
    ensures
        files_panel(Some(session), churn)[i] == file_spans(file, edits as nat),
        files_panel(Some(session), churn).len() == if session.files_this_turn.len() < 3 {
            session.files_this_turn.len()
        } else {
            3
        },
{
    let files = first_items(session.files_this_turn.reverse(), 3);
    assert(files[i] == file);
}

/// Without edits the panel says so.
pub proof fn turns_without_edits_say_so(session: SessionView, churn: Map<Seq<char>, u64>)
    requires
        session.files_this_turn.len() == 0,
    ensures
        files_panel(Some(session), churn) == seq![
            seq![painted("no edits yet this turn"@, Paint::Dim)],
        ],
        files_panel(None, churn) == files_panel(Some(session), churn),
{
}

/// The session panel: all tokens and those that were written, the prompts after
/// the first beside their average, the interruptions, and the waits.
pub proof fn the_session_is_shown(
    session: SessionView,
    average: Seq<char>,
    today: int,
    width: u16,
    input: nat,
    output: nat,
    prompts: nat,
)
    requires
        width >= 2,
        session.input_tokens == input,
        session.output_tokens == output,
        session.prompts == prompts,
        session.interruptions >= 0,
    ensures
        ({
            let inner = width - 2;
            let panel = session_panel(Some(session), average, today, width);
            let dim = |label: Seq<char>| seq![painted(label, Paint::Dim)];
            &&& panel.len() == 4
            &&& panel[0] == columns(
                inner,
                dim("tokens"@),
                seq![
                    painted(tokens_text(input + output), Paint::Text),
                    painted(" ("@ + tokens_text(output) + " out)"@, Paint::Dim),
                ],
            )
            &&& prompts > 0 ==> panel[1] == columns(
                inner,
                dim("follow-ups"@),
                seq![
                    painted(decimal((prompts - 1) as nat), Paint::Yellow),
                    painted(" (avg "@ + average + ")"@, Paint::Dim),
                ],
            )
            &&& prompts == 0 ==> panel[1] == columns(
                inner,
                dim("follow-ups"@),
                seq![
                    painted(decimal(0), Paint::Yellow),
                    painted(" (avg "@ + average + ")"@, Paint::Dim),
                ],
            )
            &&& panel[2] == columns(
                inner,
                dim("interruptions"@),
                seq![painted(decimal(session.interruptions as nat), Paint::Text)],
            )
            &&& panel[3] == columns(
                inner,
                dim("babysit gap"@),
                seq![
                    painted(clock_text(whole_seconds(session.babysit)), Paint::Text),
                    painted(" today "@ + clock_text(whole_seconds(today)), Paint::Dim),
                ],
            )
            &&& session_panel(None, average, today, width).len() == 0
        }),
{
}

/// The attention panel says for how long the agent waits, or that it works, and
/// quotes the first line of its last words as far as it fits.
pub proof fn attention_is_called_for(
    session: SessionView,
    since: Timestamp,
    now: Timestamp,
    width: u16,
    line: Seq<char>,
    more: Seq<char>,
)
    requires
        width > 12,
        uncut(line, only('\n')),
        line.len() == 0 || line.last() != '\r',
        line.len() <= width - 12,
    ensures
        ({
            let panel = attention_panel(Some(session), now, width);
            let quoted = seq![painted("last: “"@ + line + "”"@, Paint::Dim)];
            &&& session.waiting_since == Some(since) ==> panel[0] == seq![
                bold(
                    "⏳ waiting on you — "@ + clock_text(whole_seconds(now.nanos_since(since))),
                    Paint::Red,
                ),
            ]
            &&& session.waiting_since is None ==> panel[0] == seq![
                painted("● agent working"@, Paint::Green),
            ]
            &&& session.last_assistant_text is None ==> panel.len() == 1
            &&& session.last_assistant_text == Some(line.push('\n') + more) ==> panel.len() == 2
                && panel[1] == quoted
            &&& session.last_assistant_text == Some(line) ==> panel.len() == 2
                && panel[1] == quoted
            &&& attention_panel(None, now, width) == seq![
                seq![painted("● agent working"@, Paint::Green)],
            ]
        }),
{
    lemma_first_line(line, more);
}

proof fn lemma_first_line(line: Seq<char>, more: Seq<char>)
    requires
        uncut(line, only('\n')),
        line.len() == 0 || line.last() != '\r',
    ensures
        first_line(line.push('\n') + more) == line,
        first_line(line) == line,
{
    let cut = only('\n');
    lemma_one_piece(line, cut);
    lemma_first_piece(line, '\n', more, cut);
    lemma_pieces_not_empty(more, cut);
}

/// The status names the session by the start of its identifier, when it began,
/// and that it is live.
pub proof fn the_status_names_the_session(
    session: SessionView,
    start: Seq<char>,
    rest: Seq<char>,
    clock: Seq<char>,
)
    requires
        start.len() == 8,
        session.session_id == start + rest,
    ensures
        status_spans(Some(session), Some(clock)) == seq![
            painted("session "@ + start + " · started "@ + clock + " · "@, Paint::Dim),
            painted("● "@, Paint::Green),
            painted("live"@, Paint::Green),
        ],
        status_spans(Some(session), None)[0] == painted(
            "session "@ + start + " · started "@ + "--:--"@ + " · "@,
            Paint::Dim,
        ),
        status_spans(None, None) == seq![
            painted(
                "session "@ + Seq::<char>::empty() + " · started "@ + "--:--"@ + " · "@,
                Paint::Dim,
            ),
            painted("○ "@, Paint::Dim),
            painted("no session"@, Paint::Green),
        ],
{
    heads_are_prefixes(start, rest, 0);
    assert(head(Seq::<char>::empty(), 8) == Seq::<char>::empty());
}

/// The header begins with the title and ends with the project.
pub proof fn the_header_names_the_project(width: u16, project: Seq<char>)
    ensures
        ({
            let line = header_spans(width, project);
            &&& line.len() == 4
            &&& line[0] == bold("▚ benclaude "@, Paint::Purple)
            &&& line[1] == painted("watch"@, Paint::Dim)
            &&& line.last() == painted(project, Paint::Dim)
        }),
{
}

} // verus!
