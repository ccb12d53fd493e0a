use benclaude::history::{History, SessionLog};
use benclaude::time::{Gap, Timestamp};
use benclaude::transcript::TranscriptEvent;

const TODAY: i64 = 20_833;

fn at(secs: i64) -> Timestamp {
    Timestamp::from_unix(1_800_000_000 + secs).expect("valid timestamp")
}

fn prompt(secs: i64) -> TranscriptEvent {
    TranscriptEvent::UserPrompt { at: at(secs) }
}

fn done(secs: i64) -> TranscriptEvent {
    TranscriptEvent::TurnDone { at: at(secs) }
}

fn edit(secs: i64, label: &str) -> TranscriptEvent {
    TranscriptEvent::ToolCall {
        at: at(secs),
        id: String::new(),
        name: "Edit".into(),
        label: label.into(),
    }
}

fn usage(secs: i64, output_tokens: u64) -> TranscriptEvent {
    TranscriptEvent::Usage {
        at: at(secs),
        input_tokens: 1,
        output_tokens,
    }
}

fn log(id: &str, events: Vec<(TranscriptEvent, i64)>) -> SessionLog {
    let (events, days) = events.into_iter().unzip();
    SessionLog {
        id: id.into(),
        events,
        days,
    }
}

fn sample() -> Vec<SessionLog> {
    vec![
        log(
            "late",
            vec![
                (prompt(1_000), TODAY),
                (edit(1_010, "a.rs"), TODAY),
                (edit(1_020, "a.rs"), TODAY),
                (edit(1_030, "b.rs"), TODAY - 1),
                (edit(1_040, ""), TODAY),
                (usage(1_050, 70), TODAY),
                (done(1_060), TODAY),
                (prompt(1_090), TODAY),
                (usage(1_100, 5), TODAY - 7),
                (usage(1_110, 11), TODAY - 8),
            ],
        ),
        log("silent", vec![(usage(50, 3), TODAY), (edit(51, "b.rs"), TODAY)]),
        log(
            "early",
            vec![
                (prompt(500), TODAY - 1),
                (done(510), TODAY - 1),
                (prompt(530), TODAY - 1),
                (prompt(540), TODAY - 1),
                (edit(545, "c.rs"), TODAY - 1),
                (
                    TranscriptEvent::AssistantText { text: "x".into() },
                    TODAY - 1,
                ),
            ],
        ),
    ]
}

#[test]
fn a_history_sums_the_sessions_up() {
    let history = History::scan(&sample(), TODAY).expect("counters have room");
    assert_eq!(history.sessions, 3);
    assert_eq!(history.followups, 3);
    assert_eq!(history.babysit_today, Gap::seconds(30).unwrap());
    assert_eq!(
        history.tokens_by_day,
        vec![
            (TODAY - 7, 5),
            (TODAY - 6, 0),
            (TODAY - 5, 0),
            (TODAY - 4, 0),
            (TODAY - 3, 0),
            (TODAY - 2, 0),
            (TODAY - 1, 0),
            (TODAY, 73),
        ]
    );
    assert_eq!(history.churn("a.rs"), 2);
    assert_eq!(history.churn("b.rs"), 2);
    assert_eq!(history.churn("none"), 0);
    assert_eq!(history.sessions_per_file.count("a.rs"), 1);
    assert_eq!(history.sessions_per_file.count("b.rs"), 2);
}

#[test]
fn summaries_are_sorted_by_their_start_and_skip_silent_sessions() {
    let history = History::scan(&sample(), TODAY).unwrap();
    let ids: Vec<&str> = history.summaries.iter().map(|s| s.id.as_str()).collect();
    assert_eq!(ids, vec!["early", "late"]);
    let early = &history.summaries[0];
    assert_eq!(early.start, at(500));
    assert_eq!(early.end, at(545));
    assert_eq!(early.prompts, 3);
    assert_eq!(early.output_tokens, 0);
    assert_eq!(early.babysit, Gap::seconds(20).unwrap());
    let late = &history.summaries[1];
    assert_eq!(late.start, at(1_000));
    assert_eq!(late.end, at(1_110));
    assert_eq!(late.output_tokens, 86);
    assert!(!late.start.is_before(&early.start));
    assert!(!early.end.is_before(&early.start));
}

#[test]
fn the_hottest_files_come_first_and_ties_are_alphabetical() {
    let history = History::scan(&sample(), TODAY).unwrap();
    let list = |count: usize| -> Vec<(String, u64)> {
        history
            .hottest_files(count)
            .into_iter()
            .map(|hot| (hot.file, hot.edits))
            .collect()
    };
    assert_eq!(
        list(9),
        vec![
            ("a.rs".to_string(), 2),
            ("b.rs".to_string(), 2),
            ("c.rs".to_string(), 1)
        ]
    );
    assert_eq!(list(1), vec![("a.rs".to_string(), 2)]);
    assert!(list(0).is_empty());
}

#[test]
fn the_days_of_a_file_add_up_to_its_churn() {
    let history = History::scan(&sample(), TODAY).unwrap();
    assert_eq!(history.edits_on_day("b.rs", TODAY), 1);
    assert_eq!(history.edits_on_day("b.rs", TODAY - 1), 1);
    assert_eq!(history.edits_on_day("b.rs", TODAY - 2), 0);
    for file in ["a.rs", "b.rs", "c.rs"] {
        let total: u64 = (0..30)
            .map(|ago| history.edits_on_day(file, TODAY - ago))
            .sum();
        assert_eq!(total, history.churn(file));
    }
}

#[test]
fn waits_only_count_until_a_prompt() {
    let logs = vec![log(
        "a",
        vec![
            (done(0), TODAY),
            (edit(5, "x"), TODAY),
            (prompt(100), TODAY),
            (done(200), TODAY),
            (TranscriptEvent::Interrupted { at: at(210) }, TODAY),
            (prompt(260), TODAY - 1),
        ],
    )];
    let history = History::scan(&logs, TODAY).unwrap();
    assert_eq!(history.summaries[0].babysit, Gap::seconds(60).unwrap());
    assert_eq!(history.babysit_today, Gap::zero());
}

#[test]
fn counters_that_overflow_give_no_history() {
    let logs = vec![
        log("a", vec![(usage(0, u64::MAX), TODAY)]),
        log("b", vec![(usage(0, 1), TODAY)]),
    ];
    assert!(History::scan(&logs, TODAY).is_none());
    assert!(History::scan(&logs, TODAY - 1).is_some());
    let one = vec![log(
        "a",
        vec![(usage(0, u64::MAX), TODAY), (usage(0, 1), TODAY - 99)],
    )];
    assert!(History::scan(&one, TODAY).is_none());
}

#[test]
fn a_project_without_sessions_has_an_empty_history() {
    let history = History::scan(&vec![], TODAY).unwrap();
    assert_eq!(history.sessions, 0);
    assert_eq!(history.tokens_by_day.len(), 8);
    assert!(history.hottest_files(4).is_empty());
    let new = History::new();
    assert!(new.tokens_by_day.is_empty());
    assert_eq!(new.edits_per_file.len(), 0);
}
