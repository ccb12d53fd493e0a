use benclaude::cli::{
    doctor_head_lines, doctor_session_lines, parse_args, Command, Invocation,
};
use benclaude::history::History;
use benclaude::pane::{on_key, Action, Key, Pane, RESCAN_SESSIONS, TOAST_FOR};
use benclaude::screen::Screen;
use benclaude::time::Timestamp;
use benclaude::transcript::TranscriptEvent;

const VIEWS: [Screen; 3] = [Screen::Report, Screen::Heatmap, Screen::Sessions];

#[test]
fn keys_open_views_and_lead_back() {
    for (key, screen) in [('r', Screen::Report), ('h', Screen::Heatmap), ('s', Screen::Sessions)] {
        assert_eq!(
            on_key(Screen::Watch, Key::Char(key), false, false),
            (screen, Action::Build)
        );
        assert_eq!(
            on_key(Screen::Watch, Key::Char(key), false, true),
            (screen, Action::Nothing)
        );
    }
    for screen in VIEWS {
        for key in ['b', 'q'] {
            assert_eq!(
                on_key(screen, Key::Char(key), false, true),
                (Screen::Watch, Action::Nothing)
            );
        }
        assert_eq!(
            on_key(screen, Key::Char('r'), false, true),
            (screen, Action::Build)
        );
        assert_eq!(
            on_key(screen, Key::Char('h'), false, true),
            (screen, Action::Nothing)
        );
    }
}

#[test]
fn keys_quit_the_program() {
    assert_eq!(
        on_key(Screen::Watch, Key::Char('q'), false, false).1,
        Action::Quit
    );
    for screen in [Screen::Watch, Screen::Report, Screen::Heatmap, Screen::Sessions] {
        assert_eq!(on_key(screen, Key::Esc, false, false), (screen, Action::Quit));
        assert_eq!(
            on_key(screen, Key::Char('c'), true, false),
            (screen, Action::Quit)
        );
        assert_eq!(
            on_key(screen, Key::Char('c'), false, false),
            (screen, Action::Nothing)
        );
        assert_eq!(on_key(screen, Key::Other, true, false), (screen, Action::Nothing));
    }
}

fn pane() -> Pane {
    Pane::new("x/app".to_string(), History::new())
}

#[test]
fn newer_sessions_are_looked_for_every_five_seconds() {
    let mut pane = pane();
    assert!(pane.rescan_due(10));
    assert!(!pane.rescan_due(10 + RESCAN_SESSIONS - 1));
    assert!(pane.rescan_due(10 + RESCAN_SESSIONS));
    assert!(!pane.rescan_due(11 + RESCAN_SESSIONS));
}

#[test]
fn a_newer_session_starts_afresh() {
    let mut pane = pane();
    assert_eq!(pane.followed(), None);
    pane.follow("/p/one.jsonl");
    assert_eq!(pane.followed(), Some("/p/one.jsonl"));
    assert_eq!(pane.session.as_ref().unwrap().session_id, "one");

    let line = "{\"type\":\"user\",\"timestamp\":\"2026-07-17T04:00:00Z\",\"message\":{\"content\":\"x\"}}\n";
    let len = line.len() as u64;
    assert_eq!(pane.begin_poll(len), Some((0, len)));
    assert!(pane.finish_poll(&line.as_bytes().to_vec()));
    assert_eq!(pane.session.as_ref().unwrap().prompts, 1);

    // The same transcript goes on where it was.
    pane.follow("/p/one.jsonl");
    assert_eq!(pane.begin_poll(len), None);
    assert_eq!(pane.session.as_ref().unwrap().prompts, 1);

    pane.follow("/p/two.jsonl");
    assert_eq!(pane.session.as_ref().unwrap().session_id, "two");
    assert_eq!(pane.session.as_ref().unwrap().prompts, 0);
    assert_eq!(pane.begin_poll(len), Some((0, len)));
}

#[test]
fn a_pane_without_a_session_polls_nothing() {
    let mut pane = pane();
    assert_eq!(pane.begin_poll(100), None);
    assert!(pane.finish_poll(&b"x\n".to_vec()));
    assert!(pane.session.is_none());
}

#[test]
fn a_session_with_full_counters_reports_it() {
    let mut pane = pane();
    pane.follow("a.jsonl");
    let usage = |n: u64| {
        format!(
            "{{\"type\":\"assistant\",\"timestamp\":\"2026-07-17T04:00:00Z\",\"message\":{{\"usage\":{{\"output_tokens\":{n}}}}}}}\n"
        )
    };
    assert!(pane.finish_poll(&usage(u64::MAX).into_bytes()));
    assert!(!pane.finish_poll(&usage(1).into_bytes()));
}

#[test]
fn messages_go_away_after_three_seconds() {
    let mut pane = pane();
    pane.expire_toast(0);
    assert!(pane.toast.is_none());
    pane.show_toast("hi".to_string(), 7);
    pane.expire_toast(7 + TOAST_FOR - 1);
    assert_eq!(pane.toast.as_ref().map(|t| t.message.as_str()), Some("hi"));
    pane.expire_toast(7 + TOAST_FOR);
    assert!(pane.toast.is_none());
}

// ---- command line --------------------------------------------------------------

fn parse(args: &[&str]) -> Invocation {
    parse_args(&args.iter().map(|arg| arg.to_string()).collect())
}

fn runs(args: &[&str]) -> (Command, Option<String>) {
    match parse(args) {
        Invocation::Run { command, project } => (command, project),
        _ => panic!("a command"),
    }
}

#[test]
fn the_first_argument_names_the_command() {
    assert_eq!(runs(&[]), (Command::Watch, None));
    assert_eq!(runs(&["watch"]), (Command::Watch, None));
    assert_eq!(runs(&["doctor"]), (Command::Doctor, None));
    assert_eq!(runs(&["report"]), (Command::Report, None));
    assert_eq!(runs(&["heatmap"]), (Command::Heatmap, None));
    assert_eq!(runs(&["sessions"]), (Command::Sessions, None));
    assert_eq!(
        runs(&["report", "-p", "/a", "--project", "/b"]),
        (Command::Report, Some("/b".to_string()))
    );
    assert_eq!(
        runs(&["--project", "/a", "doctor"]),
        (Command::Watch, Some("/a".to_string()))
    );
    assert_eq!(runs(&["doctor", "watch"]), (Command::Doctor, None));
}

#[test]
fn senseless_arguments_are_refused() {
    let refusal = |args: &[&str]| match parse(args) {
        Invocation::Refused { message } => message,
        _ => panic!("a refusal"),
    };
    assert_eq!(refusal(&["watch", "--project"]), "--project needs a path");
    assert_eq!(refusal(&["-p"]), "--project needs a path");
    assert_eq!(
        refusal(&["watch", "--colour", "--help"]),
        "unknown argument: --colour (try --help)"
    );
    assert!(matches!(parse(&["--help", "--colour"]), Invocation::Help));
    assert!(matches!(parse(&["watch", "-h"]), Invocation::Help));
    assert_eq!(runs(&["-p", "--help"]), (Command::Watch, Some("--help".to_string())));
}

#[test]
fn doctor_tells_what_it_can_see() {
    assert_eq!(
        doctor_head_lines("/a", "/home/p", true, 3, Some("/home/p/x.jsonl")),
        vec![
            "cwd          /a",
            "project dir  /home/p",
            "exists       true",
            "sessions 30d 3",
            "latest       /home/p/x.jsonl",
        ]
    );
    let none = doctor_head_lines("/a", "/home/p", false, 0, None);
    assert_eq!(none[2], "exists       false");
    assert_eq!(none[4], "latest       none found");

    let at = Timestamp::from_unix(0).unwrap();
    let call = |label: &str| TranscriptEvent::ToolCall {
        at,
        id: String::new(),
        name: "Edit".into(),
        label: label.into(),
    };
    let events = vec![
        TranscriptEvent::UserPrompt { at },
        call("a\"b.rs"),
        call("c.rs"),
        TranscriptEvent::Usage {
            at,
            input_tokens: 5,
            output_tokens: 6,
        },
    ];
    assert_eq!(
        doctor_session_lines(&events).unwrap(),
        vec![
            "events       4",
            "prompts      1",
            "tool calls   2",
            "tokens       5 in / 6 out",
            "files (turn) [\"a\\\"b.rs\", \"c.rs\"]",
        ]
    );
    let huge = TranscriptEvent::Usage {
        at,
        input_tokens: u64::MAX,
        output_tokens: 0,
    };
    let more = TranscriptEvent::Usage {
        at,
        input_tokens: 1,
        output_tokens: 0,
    };
    assert!(doctor_session_lines(&vec![huge, more]).is_none());
}
