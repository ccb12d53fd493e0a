use benclaude::session::SessionState;
use benclaude::time::{fmt_duration, Gap, Timestamp};
use benclaude::figures::fmt_tokens;
use benclaude::transcript::TranscriptEvent;

fn at(secs: i64) -> Timestamp {
    Timestamp::from_unix(1_800_000_000 + secs).expect("valid timestamp")
}

fn seconds(count: i64) -> Gap {
    Gap::seconds(count).expect("a gap of ordinary length")
}

#[test]
fn folds_a_turn_and_tracks_waiting() {
    let mut session = SessionState::new("s1".into());
    session.apply(&TranscriptEvent::UserPrompt { at: at(0) });
    session.apply(&TranscriptEvent::ToolCall {
        at: at(1),
        id: "t1".into(),
        name: "Edit".into(),
        label: "profile_tab.dart".into(),
    });
    session.apply(&TranscriptEvent::ToolResult {
        at: at(5),
        id: "t1".into(),
    });
    session.apply(&TranscriptEvent::Usage {
        at: at(6),
        input_tokens: 100,
        output_tokens: 900,
    });
    session.apply(&TranscriptEvent::TurnDone { at: at(6) });

    assert_eq!(session.prompts, 1);
    assert_eq!(session.turn_output_tokens, 900);
    assert_eq!(session.files_this_turn, vec!["profile_tab.dart"]);
    assert!(session.running_tool().is_none());
    assert_eq!(session.waiting_since, Some(at(6)));

    // The next prompt banks the babysit gap and resets turn counters.
    session.apply(&TranscriptEvent::UserPrompt { at: at(66) });
    assert_eq!(session.babysit, seconds(60));
    assert_eq!(session.turn_output_tokens, 0);
    assert!(session.files_this_turn.is_empty());
}

#[test]
fn stale_unmatched_tool_is_not_running_and_does_not_block_waiting() {
    let mut session = SessionState::new("s1".into());
    session.apply(&TranscriptEvent::UserPrompt { at: at(0) });
    // A tool whose result never arrives (unmatched tool_use_id).
    session.apply(&TranscriptEvent::ToolCall {
        at: at(1),
        id: "lost".into(),
        name: "Read".into(),
        label: "app.dart".into(),
    });
    // A newer tool that completes normally.
    session.apply(&TranscriptEvent::ToolCall {
        at: at(10),
        id: "ok".into(),
        name: "Bash".into(),
        label: "cargo test".into(),
    });
    session.apply(&TranscriptEvent::ToolResult {
        at: at(12),
        id: "ok".into(),
    });

    // The stale Read must not resurface as "running".
    assert!(session.running_tool().is_none());
    // And it must not appear among finished tools (duration unknown).
    assert!(session.recent_finished(5).iter().all(|t| t.name == "Bash"));

    // Turn end still detects waiting despite the unmatched open tool.
    session.apply(&TranscriptEvent::TurnDone { at: at(20) });
    assert_eq!(session.waiting_since, Some(at(20)));
}

#[test]
fn formats_tokens_and_durations() {
    assert_eq!(fmt_tokens(999), "999");
    assert_eq!(fmt_tokens(8_243), "8.2k");
    assert_eq!(fmt_tokens(412_390), "412k");
    assert_eq!(fmt_duration(seconds(41)), "41s");
    assert_eq!(fmt_duration(seconds(192)), "3m 12s");
    assert_eq!(fmt_duration(seconds(7500)), "2h 05m");
}

fn call(secs: i64, id: &str, name: &str, label: &str) -> TranscriptEvent {
    TranscriptEvent::ToolCall {
        at: at(secs),
        id: id.into(),
        name: name.into(),
        label: label.into(),
    }
}

fn result(secs: i64, id: &str) -> TranscriptEvent {
    TranscriptEvent::ToolResult {
        at: at(secs),
        id: id.into(),
    }
}

#[test]
fn results_that_come_after_their_turn_are_ignored() {
    let mut session = SessionState::new("s".into());
    session.apply(&TranscriptEvent::UserPrompt { at: at(0) });
    session.apply(&call(1, "a", "Bash", "x"));
    session.apply(&TranscriptEvent::UserPrompt { at: at(2) });
    session.apply(&result(3, "a"));
    assert!(session.recent_finished(5).is_empty());
    assert!(session.running_tool().is_none());

    session.apply(&call(4, "b", "Bash", "y"));
    session.apply(&TranscriptEvent::TurnDone { at: at(5) });
    session.apply(&result(6, "b"));
    assert!(session.recent_finished(5).is_empty());
}

#[test]
fn nothing_runs_once_the_turn_is_over() {
    let mut session = SessionState::new("s1".into());
    session.apply(&TranscriptEvent::UserPrompt { at: at(0) });
    session.apply(&call(1, "t1", "Bash", "ls"));
    assert_eq!(session.running_tool().map(|t| t.label.as_str()), Some("ls"));
    session.apply(&TranscriptEvent::TurnDone { at: at(2) });
    assert!(session.running_tool().is_none());
    session.apply(&TranscriptEvent::AssistantText { text: "x".into() });
    assert!(session.running_tool().is_none());
    session.apply(&TranscriptEvent::UserPrompt { at: at(3) });
    assert!(session.running_tool().is_none());
    session.apply(&call(4, "t2", "Bash", "pwd"));
    assert_eq!(session.running_tool().map(|t| t.label.as_str()), Some("pwd"));
}

#[test]
fn a_session_follows_from_its_events() {
    let mut session = SessionState::new("s".into());
    let events = vec![
        TranscriptEvent::UserPrompt { at: at(0) },
        call(1, "a", "Edit", "one.rs"),
        TranscriptEvent::Usage {
            at: at(2),
            input_tokens: 3,
            output_tokens: 4,
        },
        TranscriptEvent::UserPrompt { at: at(5) },
        call(6, "a", "Edit", "two.rs"),
        call(7, "a", "Write", "three.rs"),
        TranscriptEvent::Usage {
            at: at(8),
            input_tokens: 5,
            output_tokens: 6,
        },
        TranscriptEvent::Interrupted { at: at(9) },
        result(10, "a"),
        result(11, "a"),
    ];
    assert!(session.apply_all(&events));
    assert_eq!(session.input_tokens, 8);
    assert_eq!(session.output_tokens, 10);
    assert_eq!(session.turn_output_tokens, 6);
    assert_eq!(session.interruptions, 1);
    assert_eq!(session.started, Some(at(0)));
    assert_eq!(session.files_this_turn, vec!["two.rs", "three.rs"]);
    assert_eq!(session.waiting_since, Some(at(9)));
    // The result ended the last call that had its identifier.
    let done: Vec<_> = session.tools.iter().map(|t| t.done_at).collect();
    assert_eq!(done, vec![None, None, Some(at(10))]);
}

#[test]
fn finished_tools_come_newest_first() {
    let mut session = SessionState::new("s".into());
    for i in 0..4 {
        let id = format!("t{i}");
        session.apply(&call(i, &id, "Bash", &id));
    }
    for i in [2, 0, 3] {
        session.apply(&result(10 + i, &format!("t{i}")));
    }
    let labels: Vec<&str> = session
        .recent_finished(2)
        .iter()
        .map(|t| t.label.as_str())
        .collect();
    assert_eq!(labels, vec!["t3", "t2"]);
    assert_eq!(session.recent_finished(9).len(), 3);
    assert_eq!(session.tools[0].done_at, Some(at(10)));
    assert_eq!(session.tools[1].done_at, None);
}

#[test]
fn a_call_without_an_identifier_takes_no_result() {
    let mut session = SessionState::new("s".into());
    session.apply(&call(0, "", "Bash", "x"));
    session.apply(&result(1, ""));
    assert!(session.running_tool().is_some());
}

#[test]
fn a_file_is_listed_once_per_turn() {
    let mut session = SessionState::new("s".into());
    for label in ["a", "b", "a", ""] {
        session.apply(&call(0, "", "Edit", label));
    }
    session.apply(&call(0, "", "Read", "c"));
    assert_eq!(session.files_this_turn, vec!["a", "b"]);
}

#[test]
fn an_interruption_waits_and_a_call_ends_the_wait() {
    let mut session = SessionState::new("s".into());
    session.apply(&TranscriptEvent::Interrupted { at: at(3) });
    assert_eq!(session.interruptions, 1);
    assert_eq!(session.waiting_since, Some(at(3)));
    session.apply(&TranscriptEvent::TurnDone { at: at(9) });
    assert_eq!(session.waiting_since, Some(at(3)));
    session.apply(&call(10, "a", "Bash", "x"));
    assert_eq!(session.waiting_since, None);
    session.apply(&TranscriptEvent::UserPrompt { at: at(20) });
    assert_eq!(session.babysit, seconds(0));
    assert_eq!(session.started, Some(at(20)));
    session.apply(&TranscriptEvent::UserPrompt { at: at(30) });
    assert_eq!(session.started, Some(at(20)));
    assert_eq!(session.last_prompt_at, Some(at(30)));
}

#[test]
fn counters_that_are_full_take_no_more() {
    let usage = |input_tokens: u64, output_tokens: u64| TranscriptEvent::Usage {
        at: at(0),
        input_tokens,
        output_tokens,
    };
    let mut session = SessionState::new("s".into());
    session.apply(&usage(u64::MAX, 1));
    assert!(!session.accepts(&usage(1, 0)));
    assert!(session.accepts(&usage(0, u64::MAX - 1)));
    assert!(!session.accepts(&usage(0, u64::MAX)));
    assert!(!session.apply_all(&vec![usage(0, 1), usage(1, 1), usage(0, 1)]));
    assert_eq!(session.output_tokens, 2);
    assert!(session.apply_all(&vec![
        usage(0, 1),
        TranscriptEvent::AssistantText { text: "hi".into() }
    ]));
    assert_eq!(session.output_tokens, 3);
    assert_eq!(session.last_assistant_text.as_deref(), Some("hi"));
}
