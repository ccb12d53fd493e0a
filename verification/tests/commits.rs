use std::collections::BTreeSet;

use benclaude::git::{
    ai_commits, blame_args, git_outcome, log_args, repo_root, root_args, survival, touched_files,
    AiCommit, Blame, Survival,
};
use benclaude::history::{History, SessionLog, SessionSummary, HISTORY_DAYS};
use benclaude::plain::{heatmap_text, lines_added, report_text, sessions_text, Quotients};
use benclaude::report::{basename, build, find_link, heat_rows, link_session, ReportData};
use benclaude::time::{Gap, Timestamp};
use benclaude::transcript::TranscriptEvent;

#[test]
fn repo_root_is_none_outside_a_repo() {
    let outcome = git_outcome(
        &root_args(),
        false,
        &vec![],
        &b"fatal: not a git repository (or any of the parent directories): .git\n".to_vec(),
    );
    assert!(repo_root(&outcome).is_none());
}

#[test]
fn links_commits_landing_inside_the_padded_session_window() {
    let start = Timestamp::from_unix(1_800_000_000).expect("ts");
    let end = start.after(60 * 60).expect("ts");
    let history = History {
        summaries: vec![SessionSummary {
            id: "abc".into(),
            start,
            end,
            prompts: 3,
            output_tokens: 1000,
            babysit: Gap::zero(),
        }],
        ..History::new()
    };
    let commit = AiCommit {
        sha: "deadbeef".into(),
        at: end.after(20 * 60).expect("ts"),
        subject: "x".into(),
        added: 10,
        files: vec![],
    };
    assert_eq!(link_session(&history, &commit), Some("abc".into()));

    let too_late = AiCommit {
        at: end.after(2 * 60 * 60).expect("ts"),
        ..commit
    };
    assert_eq!(link_session(&history, &too_late), None);
}

#[test]
fn what_git_says_is_passed_on_or_complained_about() {
    let ok = git_outcome(&root_args(), true, &b" /repo\n".to_vec(), &vec![]);
    assert_eq!(ok.as_deref(), Ok(" /repo\n"));
    assert_eq!(repo_root(&ok), Some("/repo".to_string()));
    let blank = git_outcome(&root_args(), true, &b" \n".to_vec(), &vec![]);
    assert_eq!(repo_root(&blank), None);
    let failed = git_outcome(&log_args("Agent", HISTORY_DAYS), false, &b"x".to_vec(), &b"\n bad \xff \n".to_vec());
    assert_eq!(
        failed,
        Err("git log failed: bad \u{fffd}".to_string())
    );
    assert_eq!(
        git_outcome(&vec![], false, &vec![], &vec![]),
        Err("git  failed: ".to_string())
    );
}

#[test]
fn git_is_asked_for_what_is_needed() {
    assert_eq!(root_args(), vec!["rev-parse", "--show-toplevel"]);
    assert_eq!(
        log_args("Agent", HISTORY_DAYS),
        vec![
            "log",
            "--since=30.days",
            "--no-merges",
            "--grep=Co-Authored-By: Agent",
            "--format=%x01%H%x02%ct%x02%s%x02%(trailers:key=Co-Authored-By,valueonly,unfold,separator=%x03)",
            "--numstat",
        ]
    );
    assert_eq!(
        blame_args("src/a.rs"),
        vec!["blame", "--line-porcelain", "HEAD", "--", "src/a.rs"]
    );
}

const AUTHOR: &str = "Agent";

/// The commits of a log in which every heading names a human and the agent.
fn commits_in(log: &str) -> Option<Vec<AiCommit>> {
    let signed: Vec<String> = log
        .split('\n')
        .map(|line| {
            if line.starts_with('\u{1}') {
                format!("{line}\u{2}Jo <jo@x.org>\u{3}Agent 4 <agent@x.org>")
            } else {
                line.to_string()
            }
        })
        .collect();
    ai_commits(&signed.join("\n"), AUTHOR)
}

const LOG: &str = "\u{1}aaaa\u{2}1800000000\u{2}first thing\n\n10\t2\tsrc/a.rs\n-\t-\tlogo.png\n3\t0\tsrc/b.rs\n\u{1}bbbb\u{2}nonsense\u{2}skipped\n\n4\t4\tsrc/c.rs\n\u{1}cccc\u{2}1800000100\u{2}\n\n+5\t0\tx/a.rs\textra\n7\tonly\n";

#[test]
fn a_log_is_read_commit_by_commit() {
    let commits = commits_in(LOG).expect("counters have room");
    assert_eq!(commits.len(), 2);
    let first = &commits[0];
    assert_eq!(first.sha, "aaaa");
    assert_eq!(first.at, Timestamp::from_unix(1_800_000_000).unwrap());
    assert_eq!(first.subject, "first thing");
    // The rows after the heading without a time belong to no commit.
    assert_eq!(first.added, 13);
    assert_eq!(
        first.files,
        vec![("src/a.rs".to_string(), 10), ("src/b.rs".to_string(), 3)]
    );
    let second = &commits[1];
    assert_eq!(second.sha, "cccc");
    assert_eq!(second.subject, "");
    assert_eq!(second.files, vec![("x/a.rs".to_string(), 5)]);
}

#[test]
fn only_commits_with_the_trailer_are_listed() {
    let log = "\u{1}a\u{2}0\u{2}by a human\u{2}\n5\t0\tx\n\
               \u{1}b\u{2}0\u{2}mentions Co-Authored-By: Agent\u{2}Jo <jo@x.org>\n6\t0\tx\n\
               \u{1}c\u{2}0\u{2}by both\u{2}Jo <jo@x.org>\u{3}Agent <a@x.org>\n7\t0\tx\n\
               \u{1}d\u{2}0\u{2}by another\u{2}The Agent <a@x.org>\n8\t0\tx\n\
               \u{1}e\u{2}0\u{2}a\u{2}b\u{2}Agent\n9\t0\tx\n\
               \u{1}f\u{2}0\u{2}Agent\n";
    let commits = ai_commits(log, AUTHOR).unwrap();
    let listed: Vec<(&str, &str, u64)> = commits
        .iter()
        .map(|c| (c.sha.as_str(), c.subject.as_str(), c.added))
        .collect();
    assert_eq!(listed, vec![("c", "by both", 7), ("e", "a", 9)]);
    for commit in &commits {
        assert_eq!(commit.added, commit.files.iter().map(|f| f.1).sum::<u64>());
    }
    assert!(ai_commits(log, "Nobody").unwrap().is_empty());
}

#[test]
fn rows_before_a_commit_belong_to_none() {
    assert!(commits_in("1\t1\tx\n").unwrap().is_empty());
    assert!(commits_in("").unwrap().is_empty());
    assert!(commits_in("\u{1}sha").unwrap().is_empty());
    assert!(commits_in("\u{1}sha\u{2}9000000000000\u{2}too late").unwrap().is_empty());
}

#[test]
fn a_commit_with_too_many_lines_cannot_be_counted() {
    let log = "\u{1}a\u{2}0\u{2}s\n18446744073709551615\t0\tx\n0\t0\ty\n";
    assert_eq!(commits_in(log).unwrap()[0].added, u64::MAX);
    let more = "\u{1}a\u{2}0\u{2}s\n18446744073709551615\t0\tx\n1\t0\ty\n";
    assert!(commits_in(more).is_none());
}

#[test]
fn printed_commits_read_back() {
    let printed = [("00ff", -5_i64, "a subject", vec![("p/q", 3_u64), ("r", 0)]), ("1", 7, "", vec![])];
    let mut log = String::new();
    for (sha, secs, subject, files) in &printed {
        log += &format!("\u{1}{sha}\u{2}{secs}\u{2}{subject}\n\n");
        for (path, added) in files {
            log += &format!("{added}\t9\t{path}\n");
        }
    }
    let commits = commits_in(&log).unwrap();
    assert_eq!(commits.len(), printed.len());
    for (commit, (sha, secs, subject, files)) in commits.iter().zip(&printed) {
        assert_eq!(commit.sha, *sha);
        assert_eq!(commit.at.unix_seconds(), *secs);
        assert_eq!(commit.subject, *subject);
        assert_eq!(commit.files.len(), files.len());
        assert_eq!(commit.added, files.iter().map(|f| f.1).sum::<u64>());
    }
}

fn blame(file: &str, output: Option<&str>) -> Blame {
    Blame {
        file: file.to_string(),
        output: output.map(|text| text.to_string()),
    }
}

fn sample_blames() -> Vec<Blame> {
    vec![
        blame(
            "src/a.rs",
            Some("aaaa 1 1 2\nauthor x\n\taaaa code\naaaa 2 2\ncccc 1 3\nzzzz 1 4\naaaa\n"),
        ),
        blame("src/b.rs", None),
        blame("x/a.rs", Some("cccc 1 1\n\t\n")),
    ]
}

#[test]
fn live_lines_are_counted_by_commit_and_by_file() {
    let commits = commits_in(LOG).unwrap();
    let alive = survival(&commits, &sample_blames());
    assert_eq!(alive.per_commit.count("aaaa"), 3);
    assert_eq!(alive.per_commit.count("cccc"), 2);
    assert_eq!(alive.per_commit.count("zzzz"), 0);
    assert_eq!(alive.per_file.count("src/a.rs"), 4);
    assert_eq!(alive.per_file.count("src/b.rs"), 0);
    assert_eq!(alive.per_file.count("x/a.rs"), 1);
    let by_commit: u64 = ["aaaa", "cccc"].iter().map(|s| alive.per_commit.count(s)).sum();
    let by_file: u64 = (0..alive.per_file.len())
        .map(|i| alive.per_file.count(alive.per_file.name(i)))
        .sum();
    assert_eq!(by_commit, by_file);
}

#[test]
fn failed_blames_change_nothing() {
    let commits = commits_in(LOG).unwrap();
    let mut blames = sample_blames();
    let before = survival(&commits, &blames);
    blames.push(blame("gone.rs", None));
    let after = survival(&commits, &blames);
    assert_eq!(before.per_file.len(), after.per_file.len());
    assert_eq!(before.per_commit.count("aaaa"), after.per_commit.count("aaaa"));
}

#[test]
fn touched_files_are_listed_once_in_order() {
    let commits = commits_in(LOG).unwrap();
    let files: BTreeSet<&str> = commits
        .iter()
        .flat_map(|c| c.files.iter().map(|(file, _)| file.as_str()))
        .collect();
    assert_eq!(touched_files(&commits), files.into_iter().collect::<Vec<_>>());
    assert!(touched_files(&vec![]).is_empty());
}

// ---- the report ----------------------------------------------------------------

const NOW: i64 = 1_800_700_000;

fn at(secs: i64) -> Timestamp {
    Timestamp::from_unix(secs).expect("valid timestamp")
}

fn summary(id: &str, start: i64, end: i64, output_tokens: u64) -> SessionSummary {
    SessionSummary {
        id: id.into(),
        start: at(start),
        end: at(end),
        prompts: 2,
        output_tokens,
        babysit: Gap::seconds(75).unwrap(),
    }
}

fn edits(files: &[&str]) -> SessionLog {
    SessionLog {
        id: "edits".into(),
        events: files
            .iter()
            .map(|file| TranscriptEvent::ToolCall {
                at: at(0),
                id: String::new(),
                name: "Write".into(),
                label: file.to_string(),
            })
            .collect(),
        days: files.iter().map(|_| 0).collect(),
    }
}

fn sample_history() -> History {
    let mut history = History::scan(&vec![edits(&["b.rs", "a.rs", "a.rs", "z.rs"])], 0).unwrap();
    history.summaries = vec![
        summary("session-one", 1_799_990_000, 1_799_998_000, 1_000),
        summary("session-two", 1_799_999_000, 1_800_000_050, 500),
    ];
    history
}

fn sample_report() -> ReportData {
    let commits = commits_in(LOG).unwrap();
    let alive = survival(&commits, &sample_blames());
    build(&sample_history(), &commits, &alive, at(NOW)).expect("counters have room")
}

#[test]
fn the_report_joins_sessions_and_commits() {
    let data = sample_report();
    assert_eq!(data.commits.len(), 2);
    assert_eq!(data.commits[0].session_id.as_deref(), Some("session-one"));
    assert_eq!(data.commits[0].surviving, 3);
    assert!(data.commits[0].mature);
    assert_eq!(data.commits[1].session_id.as_deref(), Some("session-one"));
    assert_eq!(data.added_mature, 18);
    assert_eq!(data.surviving_mature, 5);
    assert_eq!(data.output_tokens_30d, 1_500);
    let sessions: Vec<(&str, u64)> = data
        .sessions
        .iter()
        .map(|row| (row.id.as_str(), row.commits))
        .collect();
    assert_eq!(sessions, vec![("session-two", 0), ("session-one", 2)]);
    let linked = data.commits.iter().filter(|c| c.session_id.is_some()).count();
    assert_eq!(data.sessions.iter().map(|row| row.commits).sum::<u64>(), linked as u64);
}

#[test]
fn young_commits_are_not_judged() {
    let commits = commits_in(LOG).unwrap();
    let alive = survival(&commits, &sample_blames());
    let week = 7 * 86_400;
    let data = build(&sample_history(), &commits, &alive, at(1_800_000_000 + week)).unwrap();
    assert!(data.commits[0].mature);
    assert!(!data.commits[1].mature);
    assert_eq!(data.added_mature, 13);
    assert_eq!(data.surviving_mature, 3);
    let early = build(&sample_history(), &commits, &alive, at(1_800_000_000 + week - 1)).unwrap();
    assert_eq!(early.added_mature, 0);
    assert!(early.added_mature <= lines_added(&early.commits).unwrap());
}

#[test]
fn heat_rows_join_by_name_and_put_the_worst_first() {
    let data = sample_report();
    let rows: Vec<(&str, u64, u64, u64, u64)> = data
        .heat
        .iter()
        .map(|r| (r.file.as_str(), r.edits, r.sessions, r.added, r.surviving))
        .collect();
    assert_eq!(
        rows,
        vec![
            ("a.rs", 2, 1, 15, 5),
            ("b.rs", 1, 1, 3, 0),
            ("z.rs", 1, 1, 0, 0),
        ]
    );
    let commits = commits_in(LOG).unwrap();
    let none = Survival::new();
    let rows = heat_rows(&sample_history(), &commits, &none.per_file).unwrap();
    assert!(rows.iter().all(|row| row.surviving == 0));
}

#[test]
fn names_are_taken_off_their_directories() {
    assert_eq!(basename("a/b/c.rs"), "c.rs");
    assert_eq!(basename("c.rs"), "c.rs");
    assert_eq!(basename("a/.."), "a/..");
    assert_eq!(basename(""), "");
    assert_eq!(basename("/"), "/");
}

#[test]
fn windows_are_stretched_by_three_quarters_of_an_hour() {
    let history = sample_history();
    let commit = |secs: i64| AiCommit {
        sha: "x".into(),
        at: at(secs),
        subject: String::new(),
        added: 0,
        files: vec![],
    };
    assert_eq!(link_session(&history, &commit(1_799_989_999)), None);
    assert_eq!(link_session(&history, &commit(1_799_990_000)).as_deref(), Some("session-one"));
    assert_eq!(link_session(&history, &commit(1_800_000_700)).as_deref(), Some("session-one"));
    assert_eq!(link_session(&history, &commit(1_800_000_701)).as_deref(), Some("session-two"));
    assert_eq!(link_session(&history, &commit(1_800_002_750)).as_deref(), Some("session-two"));
    assert_eq!(link_session(&history, &commit(1_800_002_751)), None);
}

#[test]
fn a_window_beyond_the_calendar_gives_no_report() {
    let mut history = History::new();
    history.summaries = vec![summary("last", 0, 8_210_266_876_799, 1)];
    let commits = commits_in("\u{1}a\u{2}5\u{2}s\n").unwrap();
    assert!(build(&history, &commits, &Survival::new(), at(NOW)).is_none());
    let before = commits_in("\u{1}a\u{2}-5\u{2}s\n").unwrap();
    assert!(build(&history, &before, &Survival::new(), at(NOW)).is_some());
    assert_eq!(find_link(&history.summaries, at(5)), None);
    assert_eq!(find_link(&history.summaries, at(-5)), Some(None));
}

#[test]
fn sums_that_overflow_give_no_report() {
    let max = "18446744073709551615";
    let log = format!("\u{1}a\u{2}0\u{2}s\n{max}\t0\tx\n\u{1}b\u{2}0\u{2}s\n1\t0\ty\n");
    let commits = commits_in(&log).unwrap();
    assert!(build(&History::new(), &commits, &Survival::new(), at(NOW)).is_none());
    // As long as the commits are young only the file names are summed up.
    let young = build(&History::new(), &commits, &Survival::new(), at(1)).unwrap();
    assert_eq!(lines_added(&young.commits), None);
    assert!(report_text(&young, &quotients()).is_none());
    let same = format!("\u{1}a\u{2}0\u{2}s\n{max}\t0\tx\n\u{1}b\u{2}0\u{2}s\n1\t0\td/x\n");
    let merged = commits_in(&same).unwrap();
    assert!(build(&History::new(), &merged, &Survival::new(), at(1)).is_none());
    let mut rich = History::new();
    rich.summaries = vec![summary("a", 0, 1, u64::MAX), summary("b", 0, 1, 1)];
    assert!(build(&rich, &vec![], &Survival::new(), at(1)).is_none());
}

// ---- plain text ----------------------------------------------------------------

fn quotients() -> Quotients {
    Quotients {
        survival_percent: "23".to_string(),
        survives_well: false,
        cost: "300".to_string(),
    }
}

#[test]
fn the_report_prints_its_totals_and_commits() {
    let page = report_text(&sample_report(), &quotients()).unwrap();
    assert_eq!(
        page,
        vec![
            "benclaude report — last 30 days",
            "",
            "AI commits        2",
            "lines added       18",
            "line survival 7d+ 23%  (5 of 18 mature lines)",
            "tok/surviving ln  300",
            "",
            "aaaa  01-15          3/13  first thing",
            "cccc  01-15           2/5  ",
        ]
    );
}

#[test]
fn a_young_report_says_so() {
    let commits = commits_in("\u{1}0123456789\u{2}1800000000\u{2}s\n2\t0\tx\n").unwrap();
    let data = build(&History::new(), &commits, &Survival::new(), at(1_800_000_001)).unwrap();
    let page = report_text(&data, &quotients()).unwrap();
    assert_eq!(
        page,
        vec![
            "benclaude report — last 30 days",
            "",
            "AI commits        1",
            "lines added       2",
            "line survival 7d+ — (no commits old enough yet)",
            "",
            "01234567  01-15       0/2 <7d  s",
        ]
    );
}

#[test]
fn hashes_are_cut_by_bytes() {
    let report = |sha: &str| {
        let commits = commits_in(&format!("\u{1}{sha}\u{2}0\u{2}s\n")).unwrap();
        let data = build(&History::new(), &commits, &Survival::new(), at(1)).unwrap();
        report_text(&data, &quotients()).map(|page| page[6].clone())
    };
    assert!(report("äöüßx").unwrap().starts_with("äöüß  "));
    assert!(report("aäöüß").is_none());
    assert!(report("a€€€").is_none());
    assert!(report("ab€€").unwrap().starts_with("ab€€  "));
    assert!(report("😀😀").unwrap().starts_with("😀😀  "));
}

#[test]
fn the_heatmap_prints_its_columns() {
    let page = heatmap_text(&sample_report());
    assert_eq!(
        page,
        vec![
            "benclaude heatmap — agent friction, last 30 days".to_string(),
            String::new(),
            format!("{:<34} {:>5} {:>5} {:>7} {:>7}", "file", "edits", "sess", "added", "alive"),
            format!("{:<34} {:>5} {:>5} {:>7} {:>7}", "a.rs", 2, 1, 15, 5),
            format!("{:<34} {:>5} {:>5} {:>7} {:>7}", "b.rs", 1, 1, 3, 0),
            format!("{:<34} {:>5} {:>5} {:>7} {:>7}", "z.rs", 1, 1, 0, 0),
        ]
    );
    let names: Vec<String> = (0..25).map(|i| format!("{i:02}.rs")).collect();
    let names: Vec<&str> = names.iter().map(|s| s.as_str()).collect();
    let history = History::scan(&vec![edits(&names)], 0).unwrap();
    let data = build(&history, &vec![], &Survival::new(), at(NOW)).unwrap();
    assert_eq!(data.heat.len(), 25);
    assert_eq!(heatmap_text(&data).len(), 23);
}

#[test]
fn the_sessions_print_their_columns() {
    let page = sessions_text(&sample_report());
    assert_eq!(
        page,
        vec![
            "benclaude sessions — last 30 days".to_string(),
            String::new(),
            format!(
                "{:<10} {:<12} {:>7} {:>8} {:>8} {:>7}",
                "session", "start", "turns", "tokens", "babysit", "commits"
            ),
            format!(
                "{:<10} {:<12} {:>7} {:>8} {:>8} {:>7}",
                "session-", "01-15 07:43", 2, "500", "1m 15s", 0
            ),
            format!(
                "{:<10} {:<12} {:>7} {:>8} {:>8} {:>7}",
                "session-", "01-15 05:13", 2, "1.0k", "1m 15s", 2
            ),
        ]
    );
}
