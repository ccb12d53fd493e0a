use benclaude::json::{parse, Json};
use benclaude::tail::Tailer;
use benclaude::time::Timestamp;
use benclaude::transcript::{is_file_edit, parse_line, parse_text, tool_label, TranscriptEvent};

#[test]
fn parses_user_prompt_and_tool_result() {
    let prompt = r#"{"type":"user","timestamp":"2026-07-17T04:00:00.000Z","message":{"role":"user","content":"fix the banner"}}"#;
    assert!(matches!(
        parse_line(prompt).as_slice(),
        [TranscriptEvent::UserPrompt { .. }]
    ));

    let result = r#"{"type":"user","timestamp":"2026-07-17T04:00:01.000Z","message":{"role":"user","content":[{"type":"tool_result","tool_use_id":"tu_1","content":"ok"}]}}"#;
    assert!(matches!(
        parse_line(result).as_slice(),
        [TranscriptEvent::ToolResult { .. }]
    ));
}

#[test]
fn parses_assistant_tools_usage_and_turn_end() {
    let line = r#"{"type":"assistant","timestamp":"2026-07-17T04:00:02.000Z","message":{"role":"assistant","stop_reason":"end_turn","usage":{"input_tokens":10,"output_tokens":42},"content":[{"type":"text","text":"done"},{"type":"tool_use","id":"tu_2","name":"Edit","input":{"file_path":"/a/b/profile_tab.dart"}}]}}"#;
    let events = parse_line(line);
    assert_eq!(events.len(), 4);
    assert!(events.iter().any(|e| matches!(
        e,
        TranscriptEvent::ToolCall { label, .. } if label == "profile_tab.dart"
    )));
    assert!(events
        .iter()
        .any(|e| matches!(e, TranscriptEvent::TurnDone { .. })));
    assert!(events.iter().any(|e| matches!(
        e,
        TranscriptEvent::Usage {
            output_tokens: 42,
            ..
        }
    )));
}

#[test]
fn garbage_and_partial_lines_are_skipped() {
    assert!(parse_line("{not json").is_empty());
    assert!(parse_line(r#"{"type":"user"}"#).is_empty());
}

fn user_line(content: &str) -> String {
    format!(
        r#"{{"type":"user","timestamp":"2026-07-17T04:00:00Z","message":{{"content":{content}}}}}"#
    )
}

fn kinds(line: &str) -> Vec<&'static str> {
    parse_line(line)
        .iter()
        .map(|event| match event {
            TranscriptEvent::UserPrompt { .. } => "prompt",
            TranscriptEvent::Interrupted { .. } => "interrupted",
            TranscriptEvent::ToolCall { .. } => "call",
            TranscriptEvent::ToolResult { .. } => "result",
            TranscriptEvent::AssistantText { .. } => "text",
            TranscriptEvent::Usage { .. } => "usage",
            TranscriptEvent::TurnDone { .. } => "done",
        })
        .collect()
}

#[test]
fn what_the_harness_injects_is_no_prompt() {
    assert!(kinds(&user_line(r#""<command-name>/clear</command-name>""#)).is_empty());
    assert!(kinds(&user_line(r#""   \n ""#)).is_empty());
    assert_eq!(kinds(&user_line(r#""  a < b ""#)), vec!["prompt"]);
    let meta = r#"{"type":"user","isMeta":true,"timestamp":"2026-07-17T04:00:00Z","message":{"content":"hello"}}"#;
    assert!(kinds(meta).is_empty());
    let not_meta = r#"{"type":"user","isMeta":false,"timestamp":"2026-07-17T04:00:00Z","message":{"content":"hello"}}"#;
    assert_eq!(kinds(not_meta), vec!["prompt"]);
}

#[test]
fn an_interruption_is_told_from_a_prompt() {
    assert_eq!(
        kinds(&user_line(r#""[Request interrupted by user]""#)),
        vec!["interrupted"]
    );
    assert_eq!(
        kinds(&user_line(
            r#"[{"type":"text","text":"[Request interr"},{"type":"text","text":"upted by user]"}]"#
        )),
        vec!["interrupted"]
    );
}

#[test]
fn results_come_before_the_prompt_of_their_line() {
    let line = user_line(
        r#"[{"type":"text","text":"go on"},{"type":"tool_result","tool_use_id":"a"},{"type":"tool_result"},{"type":"tool_result","tool_use_id":"b"},{"type":"image"}]"#,
    );
    let events = parse_line(&line);
    assert_eq!(kinds(&line), vec!["result", "result", "prompt"]);
    assert!(matches!(&events[0], TranscriptEvent::ToolResult { id, .. } if id == "a"));
    assert!(matches!(&events[1], TranscriptEvent::ToolResult { id, .. } if id == "b"));
}

#[test]
fn the_time_of_a_line_is_taken_to_utc() {
    let line = r#"{"type":"user","timestamp":"2026-07-17T06:00:00.250+02:00","message":{"content":"x"}}"#;
    match parse_line(line).as_slice() {
        [TranscriptEvent::UserPrompt { at }] => {
            assert_eq!(*at, Timestamp::new(1_784_260_800, 250_000_000).unwrap());
        }
        _ => panic!("one prompt"),
    }
    let broken = r#"{"type":"user","timestamp":"yesterday","message":{"content":"x"}}"#;
    assert!(parse_line(broken).is_empty());
    let other = r#"{"type":"summary","timestamp":"2026-07-17T06:00:00Z"}"#;
    assert!(parse_line(other).is_empty());
}

#[test]
fn usage_without_numbers_counts_as_zero() {
    let line = r#"{"type":"assistant","timestamp":"2026-07-17T04:00:02Z","message":{"usage":{"input_tokens":-1,"output_tokens":1.5},"content":[{"type":"text","text":"  "},{"type":"tool_use"}]}}"#;
    match parse_line(line).as_slice() {
        [TranscriptEvent::Usage {
            input_tokens,
            output_tokens,
            ..
        }, TranscriptEvent::ToolCall {
            id, name, label, ..
        }] => {
            assert_eq!(*input_tokens, 0);
            assert_eq!(*output_tokens, 0);
            assert_eq!(id, "");
            assert_eq!(name, "?");
            assert_eq!(label, "");
        }
        _ => panic!("usage and a call"),
    }
}

#[test]
fn labels_name_what_a_tool_is_about() {
    let input = |text: &str| parse(text).unwrap();
    assert_eq!(
        tool_label("Read", &input(r#"{"file_path":"/a/b/main.rs"}"#)),
        "main.rs"
    );
    assert_eq!(
        tool_label("NotebookEdit", &input(r#"{"file_path":"x.ipynb"}"#)),
        "x.ipynb"
    );
    assert_eq!(tool_label("Write", &input(r#"{"file_path":"/a/.."}"#)), "");
    assert_eq!(
        tool_label("Bash", &input(r#"{"command":"  cargo \n test\t--all "}"#)),
        "cargo test --all"
    );
    assert_eq!(tool_label("Grep", &input(r#"{"pattern":"fn x"}"#)), "fn x");
    assert_eq!(tool_label("Glob", &input(r#"{"pattern":"*.rs"}"#)), "*.rs");
    assert_eq!(
        tool_label("WebFetch", &input(r#"{"url":"https://a.b"}"#)),
        "https://a.b"
    );
    assert_eq!(tool_label("Skill", &input(r#"{"skill":"tidy"}"#)), "tidy");
    assert_eq!(
        tool_label("Agent", &input(r#"{"description":"look"}"#)),
        "look"
    );
    assert_eq!(
        tool_label("Task", &input(r#"{"description":"look"}"#)),
        "look"
    );
    assert_eq!(
        tool_label("Other", &input(r#"{"description":"look"}"#)),
        ""
    );
    assert_eq!(
        tool_label("Grep", &input(r#"{"pattern":"0123456789012345678901234567"}"#)),
        "0123456789012345678901234567"
    );
    assert_eq!(
        tool_label("Grep", &input(r#"{"pattern":"01234567890123456789012345678"}"#)),
        "012345678901234567890123456…"
    );
}

#[test]
fn file_edits_are_told_from_other_tools() {
    assert!(is_file_edit("Edit"));
    assert!(is_file_edit("Write"));
    assert!(is_file_edit("NotebookEdit"));
    assert!(!is_file_edit("Read"));
    assert!(!is_file_edit("edit"));
}

#[test]
fn a_text_is_read_line_by_line() {
    let text = format!("{}\r\n\nnonsense\n{}", user_line(r#""one""#), user_line(r#""two""#));
    assert_eq!(parse_text(&text).len(), 2);
    assert!(parse_text("").is_empty());
}

#[test]
fn json_values_keep_what_the_transcripts_need() {
    let value = parse(r#"{"b":true,"n":18446744073709551615,"big":18446744073709551616,"f":2.0,"s":"xé","l":[1,null],"o":{"k":"v"}}"#).unwrap();
    assert!(value.is_object());
    assert_eq!(value.member("b").as_bool(), Some(true));
    assert_eq!(value.member("n").as_u64(), Some(u64::MAX));
    assert_eq!(value.member("big").as_u64(), None);
    assert_eq!(value.member("f").as_u64(), None);
    assert_eq!(value.member("s").as_str(), Some("xé"));
    let list = value.member("l").as_array().unwrap();
    assert_eq!(list.len(), 2);
    assert_eq!(list[0].as_u64(), Some(1));
    assert!(matches!(list[1], Json::Null));
    assert_eq!(value.member("o").member("k").as_str(), Some("v"));
    assert!(matches!(value.member("missing"), Json::Null));
    assert!(matches!(value.member("b").member("x"), Json::Null));
    assert!(value.member("b").as_str().is_none());
    assert!(value.member("s").as_array().is_none());
    assert!(!value.member("s").is_object());
    assert!(parse("").is_none());
    assert!(parse("{} x").is_none());
}

#[test]
fn a_repeated_member_counts_with_its_last_value() {
    let value = parse(r#"{"k":1,"k":2}"#).unwrap();
    assert_eq!(value.member("k").as_u64(), Some(2));
}

// ---- tailing -------------------------------------------------------------------

fn prompts(bytes: &[u8], tailer: &mut Tailer) -> usize {
    tailer.finish_poll(&bytes.to_vec()).len()
}

#[test]
fn a_line_still_being_written_is_held_back() {
    let first = user_line(r#""one""#);
    let second = user_line(r#""two""#);
    let mut tailer = Tailer::new("/p/a.jsonl".to_string());
    assert_eq!(tailer.path(), "/p/a.jsonl");
    let whole = format!("{first}\n{second}\n");
    let cut = first.len() + 1 + 10;
    let total = whole.len() as u64;

    assert_eq!(tailer.begin_poll(0), None);
    assert_eq!(tailer.begin_poll(cut as u64), Some((0, cut as u64)));
    assert_eq!(prompts(&whole.as_bytes()[..cut], &mut tailer), 1);
    let consumed = (first.len() + 1) as u64;
    assert_eq!(tailer.begin_poll(total), Some((consumed, total - consumed)));
    assert_eq!(prompts(&whole.as_bytes()[first.len() + 1..], &mut tailer), 1);
    assert_eq!(tailer.begin_poll(total), None);

    // A shorter file was replaced: reading starts over.
    assert_eq!(tailer.begin_poll(5), Some((0, 5)));
    assert_eq!(prompts(b"xxxxx", &mut tailer), 0);
    assert_eq!(tailer.begin_poll(total), Some((0, total)));
}

#[test]
fn polling_in_steps_gives_the_events_of_one_poll() {
    let lines: Vec<String> = (0..5).map(|i| user_line(&format!(r#""prompt {i}""#))).collect();
    let whole = lines.join("\r\n") + "\n";
    let bytes = whole.as_bytes();
    let mut once = Tailer::new("a".to_string());
    let all = once.finish_poll(&bytes.to_vec()).len();
    assert_eq!(all, 5);
    for cut in 0..=bytes.len() {
        let mut tailer = Tailer::new("a".to_string());
        let first = match tailer.begin_poll(cut as u64) {
            Some((from, count)) => {
                let (from, to) = (from as usize, (from + count) as usize);
                prompts(&bytes[from..to], &mut tailer)
            }
            None => 0,
        };
        let second = match tailer.begin_poll(bytes.len() as u64) {
            Some((from, count)) => {
                let (from, to) = (from as usize, (from + count) as usize);
                prompts(&bytes[from..to], &mut tailer)
            }
            None => 0,
        };
        assert_eq!(first + second, all);
    }
}

#[test]
fn broken_bytes_do_not_lose_their_line() {
    let mut bytes = br#"{"type":"user","timestamp":"2026-07-17T04:00:00Z","message":{"content":"a"#.to_vec();
    bytes.push(0xff);
    bytes.extend_from_slice(br#"b"}}"#);
    bytes.push(b'\n');
    let mut tailer = Tailer::new("a".to_string());
    assert_eq!(tailer.finish_poll(&bytes).len(), 1);
}
