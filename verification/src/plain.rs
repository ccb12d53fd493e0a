//! The report, heatmap and sessions views as plain text, for scripts and
//! agents.

use vstd::prelude::*;
use vstd::utf8::{encode_scalar, encode_utf8};

use crate::figures::{fmt_tokens, tokens_text};
use crate::report::{
    commit_row_views, heat_row_views, session_row_views, total_added, CommitRow, CommitRowView,
    HeatRowView, ReportData, SessionRow, SessionRowView,
};
use crate::session::first_items;
use crate::text::{
    chars_of, decimal, decimal_text, head, heads_are_prefixes, left_aligned, pad_end, pad_start,
    right_aligned, short_id, string_of, texts,
};
use crate::time::{
    clock_text, fmt_duration, utc_month_day, utc_month_day_minute, whole_seconds,
};

verus! {

/// The quotients of a report, rounded and printed. `survival_percent` is
/// `surviving_mature` in percent of `added_mature`, and `survives_well` tells
/// whether that is at least 80; `cost` is `output_tokens_30d` by
/// `surviving_mature`. Where the divisor is zero they are not looked at.
pub struct Quotients {
    pub survival_percent: String,
    pub survives_well: bool,
    pub cost: String,
}

/// How many bytes a character takes in UTF-8.
pub open spec fn utf8_length(c: char) -> int {
    if c <= '\u{7f}' {
        1
    } else if c <= '\u{7ff}' {
        2
    } else if c <= '\u{ffff}' {
        3
    } else {
        4
    }
}

/// The first `bytes` bytes of `text`, or all of it where it is shorter. There
/// is no such text where the cut falls inside a character.
pub open spec fn first_bytes(text: Seq<char>, bytes: int) -> Option<Seq<char>>
    decreases text.len(),
{
    if bytes == 0 || text.len() == 0 {
        Some(Seq::empty())
    } else if utf8_length(text[0]) > bytes {
        None
    } else {
        match first_bytes(text.drop_first(), bytes - utf8_length(text[0])) {
            Some(rest) => Some(seq![text[0]] + rest),
            None => None,
        }
    }
}

/// The first `bytes` bytes of `text`, or all of it where it is shorter.
fn cut_bytes(text: &str, bytes: u8) -> (start: Option<String>)
    ensures
        match start {
            Some(start) => first_bytes(text@, bytes as int) == Some(start@),
            None => first_bytes(text@, bytes as int) is None,
        },
{
    let chars = chars_of(text);
    let mut left: u8 = bytes;
    let mut count: usize = 0;
    assert(chars@.skip(0) == chars@);
    assert(chars@.take(0) + (first_bytes(chars@, bytes as int)->0) == first_bytes(
        chars@,
        bytes as int,
    )->0);
    while left > 0 && count < chars.len()
        invariant
            chars@ == text@,
            count <= chars@.len(),
            first_bytes(chars@, bytes as int) == (match first_bytes(
                chars@.skip(count as int),
                left as int,
            ) {
                Some(rest) => Some(chars@.take(count as int) + rest),
                None => None,
            }),
        decreases chars@.len() - count,
    {
        let c = chars[count];
        let width: u8 = if c <= '\u{7f}' {
            1
        } else if c <= '\u{7ff}' {
            2
        } else if c <= '\u{ffff}' {
            3
        } else {
            4
        };
        let ghost rest = chars@.skip(count as int);
        assert(rest[0] == c);
        if width > left {
            return None;
        }
        assert(rest.drop_first() == chars@.skip(count + 1));
        proof {
            if let Some(more) = first_bytes(chars@.skip(count + 1), left - width) {
                assert(chars@.take(count as int) + (seq![c] + more) == chars@.take(count + 1)
                    + more);
            }
        }
        left -= width;
        count += 1;
    }
    assert(chars@.take(count as int) + Seq::<char>::empty() == chars@.subrange(0, count as int));
    Some(string_of(&chars, 0, count))
}

// ---- report -------------------------------------------------------------------

/// The live lines of a commit out of those that it added, with a note where
/// the commit is too young to judge.
pub open spec fn survival_cell(row: CommitRowView) -> Seq<char> {
    let share = decimal(row.surviving as nat) + "/"@ + decimal(row.added as nat);
    if row.mature {
        share
    } else {
        share + " <7d"@
    }
}

/// The line for a commit: its hash, its day, its survival and its subject.
pub open spec fn commit_line(row: CommitRowView) -> Seq<char> {
    first_bytes(row.sha, 8)->0 + "  "@ + utc_month_day(row.at) + "  "@ + right_aligned(
        survival_cell(row),
        12,
    ) + "  "@ + row.subject
}

/// The line on the survival of mature lines.
pub open spec fn survival_line(data: ReportData, quotients: Quotients) -> Seq<char> {
    if data.added_mature > 0 {
        "line survival 7d+ "@ + quotients.survival_percent@ + "%  ("@ + decimal(
            data.surviving_mature as nat,
        ) + " of "@ + decimal(data.added_mature as nat) + " mature lines)"@
    } else {
        "line survival 7d+ — (no commits old enough yet)"@
    }
}

/// The lines above the commits.
pub open spec fn report_head(data: ReportData, quotients: Quotients) -> Seq<Seq<char>> {
    let rows = commit_row_views(data.commits@);
    let start = seq![
        "benclaude report — last 30 days"@,
        Seq::empty(),
        "AI commits        "@ + decimal(rows.len()),
        "lines added       "@ + decimal(total_added(rows) as nat),
        survival_line(data, quotients),
    ];
    let cost = if data.surviving_mature > 0 {
        seq!["tok/surviving ln  "@ + quotients.cost@]
    } else {
        Seq::empty()
    };
    start + cost + seq![Seq::<char>::empty()]
}

/// The lines of the report.
pub open spec fn report_page(data: ReportData, quotients: Quotients) -> Seq<Seq<char>> {
    report_head(data, quotients) + commit_row_views(data.commits@).map_values(
        |row: CommitRowView| commit_line(row),
    )
}

/// True if the report can be printed: the counter can hold the lines that the
/// commits added, and the hashes can be cut.
pub open spec fn report_prints(data: ReportData) -> bool {
    let rows = commit_row_views(data.commits@);
    &&& total_added(rows) <= u64::MAX
    &&& forall|i: int| 0 <= i < rows.len() ==> first_bytes((#[trigger] rows[i]).sha, 8) is Some
}

proof fn lemma_total_added_grows(rows: Seq<CommitRowView>, i: int)
    requires
        0 <= i <= rows.len(),
        forall|k: int| 0 <= k < rows.len() ==> (#[trigger] rows[k]).added >= 0,
    ensures
        0 <= total_added(rows.take(i)) <= total_added(rows),
    decreases rows.len(),
{
    if rows.len() > 0 {
        let fewer = rows.drop_last();
        let j = if i < rows.len() {
            i
        } else {
            i - 1
        };
        assert(rows[rows.len() - 1].added >= 0);
        assert forall|k: int| 0 <= k < fewer.len() implies (#[trigger] fewer[k]).added >= 0 by {
            assert(fewer[k] == rows[k]);
        }
        lemma_total_added_grows(fewer, j);
        assert(fewer.take(j) == rows.take(j));
        assert(fewer.take(fewer.len() as int) == fewer);
        if i == rows.len() {
            assert(rows.take(i) == rows);
        }
    }
}

/// The lines that the commits added, where the counter can hold them.
pub fn lines_added(rows: &Vec<CommitRow>) -> (total: Option<u64>)
    ensures
        match total {
            Some(n) => n == total_added(commit_row_views(rows@)),
            None => total_added(commit_row_views(rows@)) > u64::MAX,
        },
{
    let ghost all = commit_row_views(rows@);
    let mut total: u64 = 0;
    for i in 0..rows.len()
        invariant
            all == commit_row_views(rows@),
            total == total_added(all.take(i as int)),
    {
        proof {
            assert(all.take(i + 1).drop_last() == all.take(i as int));
            assert(all.take(i + 1).last() == rows@[i as int]@);
            lemma_total_added_grows(all, i + 1);
        }
        match total.checked_add(rows[i].added) {
            Some(sum) => {
                total = sum;
            },
            None => {
                return None;
            },
        }
    }
    assert(all.take(all.len() as int) == all);
    Some(total)
}

/// The live lines of a commit out of those that it added.
pub(crate) fn survival_share(row: &CommitRow) -> (share: String)
    ensures
        share@ == decimal(row.surviving as nat) + "/"@ + decimal(row.added as nat),
{
    let mut share = decimal_text(row.surviving);
    share.append("/");
    share.append(decimal_text(row.added).as_str());
    share
}

/// The line for a commit.
fn commit_text(row: &CommitRow) -> (line: Option<String>)
    ensures
        line is Some <==> first_bytes(row@.sha, 8) is Some,
        line matches Some(text) ==> text@ == commit_line(row@),
{
    let mut survival = survival_share(row);
    if !row.mature {
        survival.append(" <7d");
    }
    match cut_bytes(row.sha.as_str(), 8) {
        Some(start) => {
            let mut line = start;
            line.append("  ");
            line.append(row.at.month_day().as_str());
            line.append("  ");
            line.append(pad_start(survival.as_str(), 12).as_str());
            line.append("  ");
            line.append(row.subject.as_str());
            Some(line)
        },
        None => None,
    }
}

/// The line on the survival of mature lines.
fn survival_text(data: &ReportData, quotients: &Quotients) -> (line: String)
    ensures
        line@ == survival_line(*data, *quotients),
{
    if data.added_mature > 0 {
        let mut line = "line survival 7d+ ".to_owned();
        line.append(quotients.survival_percent.as_str());
        line.append("%  (");
        line.append(decimal_text(data.surviving_mature).as_str());
        line.append(" of ");
        line.append(decimal_text(data.added_mature).as_str());
        line.append(" mature lines)");
        line
    } else {
        "line survival 7d+ — (no commits old enough yet)".to_owned()
    }
}

/// The lines of the report. They are missing exactly where the report cannot
/// be printed.
pub fn report_text(data: &ReportData, quotients: &Quotients) -> (page: Option<Vec<String>>)
    ensures
        page is Some <==> report_prints(*data),
        page matches Some(lines) ==> texts(lines@) == report_page(*data, *quotients),
{
    let ghost rows = commit_row_views(data.commits@);
    let added: u64 = match lines_added(&data.commits) {
        Some(total) => total,
        None => {
            return None;
        },
    };
    let mut count_line = "AI commits        ".to_owned();
    count_line.append(decimal_text(data.commits.len() as u64).as_str());
    let mut added_line = "lines added       ".to_owned();
    added_line.append(decimal_text(added).as_str());
    let mut lines = vec![
        "benclaude report — last 30 days".to_owned(),
        String::new(),
        count_line,
        added_line,
        survival_text(data, quotients),
    ];
    let ghost start = texts(lines@);
    if data.surviving_mature > 0 {
        let mut cost_line = "tok/surviving ln  ".to_owned();
        cost_line.append(quotients.cost.as_str());
        lines.push(cost_line);
        assert(texts(lines@) == start.push(cost_line@));
    }
    let ghost so_far = texts(lines@);
    lines.push(String::new());
    assert(texts(lines@) == so_far.push(Seq::<char>::empty()));
    assert(texts(lines@) == report_head(*data, *quotients));
    let ghost line_of = |row: CommitRowView| commit_line(row);
    assert(rows.take(0).map_values(line_of) == Seq::<Seq<char>>::empty());
    for i in 0..data.commits.len()
        invariant
            rows == commit_row_views(data.commits@),
            total_added(rows) <= u64::MAX,
            line_of == (|row: CommitRowView| commit_line(row)),
            forall|k: int| 0 <= k < i ==> first_bytes((#[trigger] rows[k]).sha, 8) is Some,
            texts(lines@) == report_head(*data, *quotients) + rows.take(i as int).map_values(
                line_of,
            ),
    {
        let ghost before = texts(lines@);
        assert(rows[i as int] == data.commits@[i as int]@);
        match commit_text(&data.commits[i]) {
            Some(line) => {
                lines.push(line);
                assert(texts(lines@) == before.push(line@));
                assert(rows.take(i + 1).map_values(line_of) == rows.take(i as int).map_values(
                    line_of,
                ).push(line@));
            },
            None => {
                return None;
            },
        }
    }
    assert(rows.take(rows.len() as int) == rows);
    Some(lines)
}

// ---- heatmap ------------------------------------------------------------------

/// Five columns of the heatmap.
pub open spec fn heat_columns(
    file: Seq<char>,
    edits: Seq<char>,
    sessions: Seq<char>,
    added: Seq<char>,
    alive: Seq<char>,
) -> Seq<char> {
    left_aligned(file, 34) + " "@ + right_aligned(edits, 5) + " "@ + right_aligned(sessions, 5)
        + " "@ + right_aligned(added, 7) + " "@ + right_aligned(alive, 7)
}

/// The line for a file.
pub open spec fn heat_line(row: HeatRowView) -> Seq<char> {
    heat_columns(
        row.file,
        decimal(row.edits as nat),
        decimal(row.sessions as nat),
        decimal(row.added as nat),
        decimal(row.surviving as nat),
    )
}

/// The lines of the heatmap.
pub open spec fn heatmap_page(data: ReportData) -> Seq<Seq<char>> {
    seq![
        "benclaude heatmap — agent friction, last 30 days"@,
        Seq::empty(),
        heat_columns("file"@, "edits"@, "sess"@, "added"@, "alive"@),
    ] + first_items(heat_row_views(data.heat@), 20).map_values(|row: HeatRowView| heat_line(row))
}

/// Five columns of the heatmap.
fn heat_columns_text(file: &str, edits: &str, sessions: &str, added: &str, alive: &str) -> (line:
    String)
    ensures
        line@ == heat_columns(file@, edits@, sessions@, added@, alive@),
{
    let mut line = pad_end(file, 34);
    line.append(" ");
    line.append(pad_start(edits, 5).as_str());
    line.append(" ");
    line.append(pad_start(sessions, 5).as_str());
    line.append(" ");
    line.append(pad_start(added, 7).as_str());
    line.append(" ");
    line.append(pad_start(alive, 7).as_str());
    line
}

/// The lines of the heatmap.
pub fn heatmap_text(data: &ReportData) -> (lines: Vec<String>)
    ensures
        texts(lines@) == heatmap_page(*data),
{
    let ghost rows = heat_row_views(data.heat@);
    let mut lines = vec![
        "benclaude heatmap — agent friction, last 30 days".to_owned(),
        String::new(),
        heat_columns_text("file", "edits", "sess", "added", "alive"),
    ];
    let ghost top = texts(lines@);
    let count: usize = if data.heat.len() <= 20 {
        data.heat.len()
    } else {
        20
    };
    let ghost line_of = |row: HeatRowView| heat_line(row);
    assert(rows.take(0).map_values(line_of) == Seq::<Seq<char>>::empty());
    for i in 0..count
        invariant
            rows == heat_row_views(data.heat@),
            count <= rows.len(),
            line_of == (|row: HeatRowView| heat_line(row)),
            texts(lines@) == top + rows.take(i as int).map_values(line_of),
    {
        let row = &data.heat[i];
        assert(rows[i as int] == row@);
        let line = heat_columns_text(
            row.file.as_str(),
            decimal_text(row.edits).as_str(),
            decimal_text(row.sessions).as_str(),
            decimal_text(row.added).as_str(),
            decimal_text(row.surviving).as_str(),
        );
        let ghost before = texts(lines@);
        lines.push(line);
        assert(texts(lines@) == before.push(line@));
        assert(rows.take(i + 1).map_values(line_of) == rows.take(i as int).map_values(
            line_of,
        ).push(line@));
    }
    assert(rows.take(count as int) == first_items(rows, 20));
    assert(top == seq![
        "benclaude heatmap — agent friction, last 30 days"@,
        Seq::empty(),
        heat_columns("file"@, "edits"@, "sess"@, "added"@, "alive"@),
    ]);
    lines
}

// ---- sessions -----------------------------------------------------------------

/// Six columns of the sessions.
pub open spec fn session_columns(
    session: Seq<char>,
    start: Seq<char>,
    turns: Seq<char>,
    tokens: Seq<char>,
    babysit: Seq<char>,
    commits: Seq<char>,
) -> Seq<char> {
    left_aligned(session, 10) + " "@ + left_aligned(start, 12) + " "@ + right_aligned(turns, 7)
        + " "@ + right_aligned(tokens, 8) + " "@ + right_aligned(babysit, 8) + " "@
        + right_aligned(commits, 7)
}

/// The line for a session.
pub open spec fn session_line(row: SessionRowView) -> Seq<char> {
    session_columns(
        head(row.id, 8),
        utc_month_day_minute(row.start),
        decimal(row.prompts as nat),
        tokens_text(row.output_tokens as nat),
        clock_text(whole_seconds(row.babysit)),
        decimal(row.commits as nat),
    )
}

/// The lines of the sessions.
pub open spec fn sessions_page(data: ReportData) -> Seq<Seq<char>> {
    seq![
        "benclaude sessions — last 30 days"@,
        Seq::empty(),
        session_columns("session"@, "start"@, "turns"@, "tokens"@, "babysit"@, "commits"@),
    ] + session_row_views(data.sessions@).map_values(|row: SessionRowView| session_line(row))
}

/// Six columns of the sessions.
fn session_columns_text(
    session: &str,
    start: &str,
    turns: &str,
    tokens: &str,
    babysit: &str,
    commits: &str,
) -> (line: String)
    ensures
        line@ == session_columns(session@, start@, turns@, tokens@, babysit@, commits@),
{
    let mut line = pad_end(session, 10);
    line.append(" ");
    line.append(pad_end(start, 12).as_str());
    line.append(" ");
    line.append(pad_start(turns, 7).as_str());
    line.append(" ");
    line.append(pad_start(tokens, 8).as_str());
    line.append(" ");
    line.append(pad_start(babysit, 8).as_str());
    line.append(" ");
    line.append(pad_start(commits, 7).as_str());
    line
}

/// The line for a session.
fn session_text(row: &SessionRow) -> (line: String)
    ensures
        line@ == session_line(row@),
{
    session_columns_text(
        short_id(row.id.as_str()).as_str(),
        row.start.month_day_minute().as_str(),
        decimal_text(row.prompts).as_str(),
        fmt_tokens(row.output_tokens).as_str(),
        fmt_duration(row.babysit).as_str(),
        decimal_text(row.commits).as_str(),
    )
}

/// The lines of the sessions.
pub fn sessions_text(data: &ReportData) -> (lines: Vec<String>)
    ensures
        texts(lines@) == sessions_page(*data),
{
    let ghost rows = session_row_views(data.sessions@);
    let mut lines = vec![
        "benclaude sessions — last 30 days".to_owned(),
        String::new(),
        session_columns_text("session", "start", "turns", "tokens", "babysit", "commits"),
    ];
    let ghost top = texts(lines@);
    let ghost line_of = |row: SessionRowView| session_line(row);
    assert(rows.take(0).map_values(line_of) == Seq::<Seq<char>>::empty());
    for i in 0..data.sessions.len()
        invariant
            rows == session_row_views(data.sessions@),
            line_of == (|row: SessionRowView| session_line(row)),
            texts(lines@) == top + rows.take(i as int).map_values(line_of),
    {
        assert(rows[i as int] == data.sessions@[i as int]@);
        let line = session_text(&data.sessions[i]);
        let ghost before = texts(lines@);
        lines.push(line);
        assert(texts(lines@) == before.push(line@));
        assert(rows.take(i + 1).map_values(line_of) == rows.take(i as int).map_values(
            line_of,
        ).push(line@));
    }
    assert(rows.take(rows.len() as int) == rows);
    assert(top == seq![
        "benclaude sessions — last 30 days"@,
        Seq::empty(),
        session_columns("session"@, "start"@, "turns"@, "tokens"@, "babysit"@, "commits"@),
    ]);
    lines
}

// ---- laws ---------------------------------------------------------------------

/// Texts are cut by the bytes that UTF-8 takes for them: a part that takes just
/// these bytes is kept, whatever follows, and a shorter text is kept whole. A
/// character that would be cut through leaves nothing.
pub proof fn texts_are_cut_by_bytes(kept: Seq<char>, c: char, rest: Seq<char>, missing: int)
    requires
        missing >= 0,
    ensures
        first_bytes(kept + rest, encode_utf8(kept).len() as int) == Some(kept),
        first_bytes(kept, encode_utf8(kept).len() + missing) == Some(kept),
        0 < missing < encode_utf8(seq![c]).len() ==> first_bytes(
            kept + (seq![c] + rest),
            encode_utf8(kept).len() + missing,
        ) is None,
    decreases kept.len(),
{
    lemma_character_bytes(c);
    if kept.len() == 0 {
        assert(encode_utf8(kept).len() == 0);
        assert((kept + (seq![c] + rest))[0] == c);
    } else {
        let shorter = kept.drop_first();
        texts_are_cut_by_bytes(shorter, c, rest, missing);
        lemma_character_bytes(kept[0]);
        assert(encode_utf8(kept).len() == utf8_length(kept[0]) + encode_utf8(shorter).len());
        assert((kept + rest).drop_first() == shorter + rest);
        assert((kept + (seq![c] + rest)).drop_first() == shorter + (seq![c] + rest));
        assert(seq![kept[0]] + shorter == kept);
    }
}

proof fn lemma_character_bytes(c: char)
    ensures
        encode_utf8(seq![c]).len() == utf8_length(c),
        encode_scalar(c as u32).len() == utf8_length(c),
{
    assert(seq![c].drop_first() == Seq::<char>::empty());
    assert(encode_utf8(Seq::<char>::empty()).len() == 0);
}

/// A commit is printed with the start of its hash, its day, its live and its
/// added lines, and its subject; a young one is marked.
pub proof fn commits_are_printed(
    row: CommitRowView,
    start: Seq<char>,
    rest: Seq<char>,
    live: nat,
    added: nat,
)
    requires
        encode_utf8(start).len() == 8,
        row.sha == start + rest,
        row.surviving == live,
        row.added == added,
    ensures
        row.mature ==> commit_line(row) == start + "  "@ + utc_month_day(row.at) + "  "@
            + right_aligned(decimal(live) + "/"@ + decimal(added), 12) + "  "@ + row.subject,
        !row.mature ==> commit_line(row) == start + "  "@ + utc_month_day(row.at) + "  "@
            + right_aligned(decimal(live) + "/"@ + decimal(added) + " <7d"@, 12) + "  "@
            + row.subject,
{
    texts_are_cut_by_bytes(start, ' ', rest, 0);
}

/// The report counts the commits and the lines that they added, tells how many
/// mature lines survive, and what a surviving line cost; then come the commits,
/// in their order.
pub proof fn the_report_is_printed(data: ReportData, quotients: Quotients, i: int, live: nat, mature: nat)
    requires
        data.surviving_mature == live,
        data.added_mature == mature,
        0 <= i < data.commits@.len(),
    ensures
        ({
            let page = report_page(data, quotients);
            let rows = commit_row_views(data.commits@);
            let count = data.commits@.len();
            &&& page[0] == "benclaude report — last 30 days"@
            &&& page[1] == Seq::<char>::empty()
            &&& page[2] == "AI commits        "@ + decimal(count)
            &&& page[3] == "lines added       "@ + decimal(total_added(rows) as nat)
            &&& mature > 0 ==> page[4] == "line survival 7d+ "@ + quotients.survival_percent@
                + "%  ("@ + decimal(live) + " of "@ + decimal(mature) + " mature lines)"@
            &&& mature == 0 ==> page[4] == "line survival 7d+ — (no commits old enough yet)"@
            &&& live > 0 ==> {
                &&& page.len() == count + 7
                &&& page[5] == "tok/surviving ln  "@ + quotients.cost@
                &&& page[6] == Seq::<char>::empty()
                &&& page[7 + i] == commit_line(data.commits@[i]@)
            }
            &&& live == 0 ==> {
                &&& page.len() == count + 6
                &&& page[5] == Seq::<char>::empty()
                &&& page[6 + i] == commit_line(data.commits@[i]@)
            }
        }),
{
}

/// The columns of a file: its name, its edits, its sessions, and its added and
/// its live lines.
pub proof fn files_are_printed_in_columns(row: HeatRowView)
    requires
        row.edits >= 0,
        row.sessions >= 0,
        row.added >= 0,
        row.surviving >= 0,
    ensures
        heat_line(row) == left_aligned(row.file, 34) + " "@ + right_aligned(
            decimal(row.edits as nat),
            5,
        ) + " "@ + right_aligned(decimal(row.sessions as nat), 5) + " "@ + right_aligned(
            decimal(row.added as nat),
            7,
        ) + " "@ + right_aligned(decimal(row.surviving as nat), 7),
{
}

/// The heatmap prints the first twenty files, in their order, below its columns.
pub proof fn the_heatmap_is_printed(data: ReportData, i: int)
    requires
        0 <= i < 20,
        i < data.heat@.len(),
    ensures
        ({
            let page = heatmap_page(data);
            &&& page[0] == "benclaude heatmap — agent friction, last 30 days"@
            &&& page[1] == Seq::<char>::empty()
            &&& page[2] == left_aligned("file"@, 34) + " "@ + right_aligned("edits"@, 5) + " "@
                + right_aligned("sess"@, 5) + " "@ + right_aligned("added"@, 7) + " "@
                + right_aligned("alive"@, 7)
            &&& page[3 + i] == heat_line(data.heat@[i]@)
            &&& page.len() == 3 + if data.heat@.len() < 20 {
                data.heat@.len()
            } else {
                20
            }
        }),
{
}

/// The columns of a session: the start of its identifier, when it began, its
/// turns, the tokens that it wrote, its waits, and its commits.
pub proof fn sessions_are_printed_in_columns(row: SessionRowView, start: Seq<char>, rest: Seq<char>)
    requires
        start.len() == 8,
        row.id == start + rest,
        row.prompts >= 0,
        row.output_tokens >= 0,
        row.commits >= 0,
    ensures
        session_line(row) == left_aligned(start, 10) + " "@ + left_aligned(
            utc_month_day_minute(row.start),
            12,
        ) + " "@ + right_aligned(decimal(row.prompts as nat), 7) + " "@ + right_aligned(
            tokens_text(row.output_tokens as nat),
            8,
        ) + " "@ + right_aligned(clock_text(whole_seconds(row.babysit)), 8) + " "@ + right_aligned(
            decimal(row.commits as nat),
            7,
        ),
{
    heads_are_prefixes(start, rest, 0);
}

/// The sessions are all printed, in their order, below their columns.
pub proof fn the_sessions_are_printed(data: ReportData, i: int)
    requires
        0 <= i < data.sessions@.len(),
    ensures
        ({
            let page = sessions_page(data);
            &&& page[0] == "benclaude sessions — last 30 days"@
            &&& page[1] == Seq::<char>::empty()
            &&& page[2] == left_aligned("session"@, 10) + " "@ + left_aligned("start"@, 12) + " "@
                + right_aligned("turns"@, 7) + " "@ + right_aligned("tokens"@, 8) + " "@
                + right_aligned("babysit"@, 8) + " "@ + right_aligned("commits"@, 7)
            &&& page[3 + i] == session_line(data.sessions@[i]@)
            &&& page.len() == 3 + data.sessions@.len()
        }),
{
}

/// A report can be printed where the counter of 64 bits holds its lines and its
/// hashes are plain ASCII.
pub proof fn reports_with_plain_hashes_print(data: ReportData)
    requires
        total_added(commit_row_views(data.commits@)) <= 0xffff_ffff_ffff_ffff,
        forall|i: int, k: int|
            0 <= i < data.commits@.len() && 0 <= k < data.commits@[i].sha@.len()
                ==> #[trigger] data.commits@[i].sha@[k] as int <= 0x7f,
    ensures
        report_prints(data),
{
    let rows = commit_row_views(data.commits@);
    assert forall|i: int| 0 <= i < rows.len() implies first_bytes(
        (#[trigger] rows[i]).sha,
        8,
    ) is Some by {
        assert(rows[i].sha == data.commits@[i].sha@);
        lemma_ascii_can_be_cut(rows[i].sha, 8);
    }
}

proof fn lemma_ascii_can_be_cut(text: Seq<char>, bytes: int)
    requires
        bytes >= 0,
        forall|k: int| 0 <= k < text.len() ==> (#[trigger] text[k]) as int <= 0x7f,
    ensures
        first_bytes(text, bytes) is Some,
    decreases text.len(),
{
    if text.len() > 0 && bytes > 0 {
        let rest = text.drop_first();
        assert forall|k: int| 0 <= k < rest.len() implies (#[trigger] rest[k]) as int <= 0x7f by {
            assert(rest[k] == text[k + 1]);
        }
        assert(text[0] as int <= 0x7f);
        lemma_ascii_can_be_cut(rest, bytes - 1);
    }
}

} // verus!
