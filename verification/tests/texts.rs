use std::path::Path;

use benclaude::figures::{fmt_tokens, spark_char};
use benclaude::files::{
    latest_session, names_transcript, project_dir, project_name, recent_sessions, sanitize,
    session_id, sessions_by_recency, SessionFile,
};
use benclaude::text::{
    components, file_name, first_chars, is_space, join, lines, pad_end, pad_start, parse_i64,
    parse_u64, repeat_char, same_text, short_id, sorts_before_text, split_char, squeeze,
    starts_with, trim, truncate, decimal_text,
};
use benclaude::time::{fmt_duration, Gap, Timestamp};

#[test]
fn sanitize_matches_claude_code_scheme() {
    assert_eq!(
        sanitize("/Users/hemang/code/yana/frontend"),
        "-Users-hemang-code-yana-frontend"
    );
}

#[test]
fn sanitized_names_hold_nothing_but_letters_digits_and_dashes() {
    assert_eq!(sanitize("/a b/ü.9Z"), "-a-b---9Z");
    assert_eq!(sanitize(""), "");
    assert_eq!(
        project_dir(".agent", "/x/y"),
        vec![".agent", "projects", "-x-y"]
    );
}

#[test]
fn white_space_is_that_of_unicode() {
    for code in 0..=0x10ffff_u32 {
        if let Some(c) = char::from_u32(code) {
            assert_eq!(is_space(c), c.is_whitespace());
        }
    }
}

const SAMPLES: [&str; 14] = [
    "",
    " ",
    "\n",
    "a",
    " a b\tc \u{a0}",
    "one\ntwo\r\nthree\r",
    "\n\nx\n",
    "x\r\n\r\n",
    "a,b,,c,",
    ",",
    "+12",
    "-0",
    "äöü ß\u{3000}x",
    "a\rb\n\r",
];

#[test]
fn splitting_and_trimming_follow_the_standard_library() {
    for text in SAMPLES {
        assert_eq!(trim(text), text.trim());
        assert_eq!(lines(text), text.lines().collect::<Vec<_>>());
        assert_eq!(split_char(text, ','), text.split(',').collect::<Vec<_>>());
        assert_eq!(
            squeeze(text),
            text.split_whitespace().collect::<Vec<_>>().join(" ")
        );
        for other in SAMPLES {
            assert_eq!(same_text(text, other), text == other);
            assert_eq!(starts_with(text, other), text.starts_with(other));
            assert_eq!(sorts_before_text(text, other), text < other);
        }
    }
    assert_eq!(join(&vec!["a".to_string(), "b".to_string()], ", "), "a, b");
    assert!(sorts_before_text("a\u{ffff}", "a\u{10000}"));
}

#[test]
fn numbers_are_read_as_the_standard_library_reads_them() {
    let texts = [
        "", "0", "7", "+7", "-7", "--7", "+-7", "007", "18446744073709551615",
        "18446744073709551616", "9223372036854775807", "9223372036854775808",
        "-9223372036854775808", "-9223372036854775809", "1 ", " 1", "1a", "-", "+", "٣",
        "99999999999999999999999999999999999",
    ];
    for text in texts {
        assert_eq!(parse_u64(text), text.parse::<u64>().ok());
        assert_eq!(parse_i64(text), text.parse::<i64>().ok());
    }
    for n in [0, 9, 10, 99, 100, 1_000_000, u64::MAX] {
        assert_eq!(decimal_text(n), n.to_string());
        assert_eq!(parse_u64(&decimal_text(n)), Some(n));
    }
}

#[test]
fn columns_are_padded_by_characters() {
    for text in ["", "ab", "äöüß", "abcdefgh"] {
        assert_eq!(pad_end(text, 5), format!("{text:<5}"));
        assert_eq!(pad_start(text, 5), format!("{text:>5}"));
    }
    assert_eq!(repeat_char('x', 3), "xxx");
}

#[test]
fn texts_are_cut_with_an_ellipsis() {
    assert_eq!(truncate("hello", 5), "hello");
    assert_eq!(truncate("hello", 4), "hel…");
    assert_eq!(truncate("hello", 1), "…");
    assert_eq!(truncate("hello", 0), "…");
    assert_eq!(truncate("", 0), "");
    assert_eq!(truncate(&truncate("hello", 4), 4), "hel…");
    assert_eq!(short_id("0123456789"), "01234567");
    assert_eq!(short_id("äb"), "äb");
    assert_eq!(first_chars("äbc", 2), "äb");
}

#[test]
fn paths_are_taken_apart_as_the_standard_library_does() {
    let paths = [
        "", "/", ".", "..", "a", "/a", "a/", "/a/b.c", "a/./b/.", "a/..", "./x", ".hidden",
        "a/.b.c", "x.", "a//b", "/a/b/", "no_dot", "two.dots.jsonl", ".jsonl", "a.jsonl/",
    ];
    for path in paths {
        let std_name = Path::new(path)
            .file_name()
            .map(|n| n.to_string_lossy().into_owned());
        assert_eq!(file_name(path), std_name);
        let std_stem = Path::new(path)
            .file_stem()
            .map(|n| n.to_string_lossy().into_owned())
            .unwrap_or_default();
        assert_eq!(session_id(path), std_stem);
        let std_transcript = Path::new(path).extension().is_some_and(|e| e == "jsonl");
        assert_eq!(names_transcript(path), std_transcript);
    }
    assert_eq!(components("/a/./b//c/"), vec!["a", "b", "c"]);
}

#[test]
fn projects_are_shown_with_their_parent() {
    assert_eq!(project_name("/home/x/app"), "x/app");
    assert_eq!(project_name("/app"), "app");
    assert_eq!(project_name("/"), "/");
    assert_eq!(project_name("/a/../b"), "b");
}

fn file(path: &str, modified: Option<i128>) -> SessionFile {
    SessionFile {
        path: path.to_string(),
        modified,
    }
}

#[test]
fn transcripts_are_ordered_by_their_last_change() {
    let files = vec![
        file("/p/a.jsonl", Some(5)),
        file("/p/b.txt", Some(99)),
        file("/p/c.jsonl", None),
        file("/p/d.jsonl", Some(7)),
        file("/p/e.jsonl", Some(5)),
        file("/p/f.jsonl", Some(-3)),
    ];
    assert_eq!(sessions_by_recency(&files), vec![3, 0, 4, 5]);
    assert_eq!(latest_session(&files), Some(3));
    assert_eq!(latest_session(&vec![file("x", Some(1))]), None);
}

#[test]
fn old_transcripts_are_left_out() {
    let day: i128 = 86_400_000_000_000;
    let now = 100 * day;
    let files = vec![
        file("a.jsonl", Some(now - 30 * day)),
        file("b.jsonl", Some(now - 30 * day - 1)),
        file("c.jsonl", Some(now + 1)),
        file("d", Some(now)),
        file("e.jsonl", None),
    ];
    assert_eq!(recent_sessions(&files, now, 30), vec![0, 2]);
}

// ---- figures -------------------------------------------------------------------

#[test]
fn thousands_are_rounded_as_doubles_are_printed() {
    for tokens in 1_000..100_000_u64 {
        let printed = format!("{:.1}k", tokens as f64 / 1_000.0);
        assert_eq!(fmt_tokens(tokens), printed);
    }
    assert_eq!(fmt_tokens(0), "0");
    assert_eq!(fmt_tokens(1_250), "1.2k");
    assert_eq!(fmt_tokens(1_350), "1.4k");
    assert_eq!(fmt_tokens(99_999), "100.0k");
    assert_eq!(fmt_tokens(100_000), "100k");
    assert_eq!(fmt_tokens(u64::MAX), "18446744073709551k");
}

#[test]
fn bars_rise_with_their_value() {
    assert_eq!(spark_char(0, 0), '▁');
    assert_eq!(spark_char(u64::MAX, 0), '▁');
    assert_eq!(spark_char(0, 10), '▁');
    assert_eq!(spark_char(1, 1_000_000), '▂');
    assert_eq!(spark_char(5, 10), '▅');
    assert_eq!(spark_char(9, 10), '█');
    assert_eq!(spark_char(10, 10), '█');
    assert_eq!(spark_char(20, 10), '█');
    let bars: String = (0..=14).map(|v| spark_char(v, 14)).collect();
    assert_eq!(bars, "▁▂▂▃▃▄▄▅▅▆▆▇▇██");
}

// ---- time ----------------------------------------------------------------------

fn sample_times() -> Vec<(i64, u32)> {
    let mut times = Vec::new();
    for secs in [
        0,
        59,
        60,
        119,
        86_399,
        86_400,
        -1,
        -60,
        1_800_000_059,
        1_483_228_799,
        -8_334_601_228_800,
        8_210_266_876_799,
    ] {
        for nanos in [0, 1, 999_999_999, 1_000_000_000, 1_500_000_000, 1_999_999_999] {
            times.push((secs, nanos));
        }
    }
    times
}

#[test]
fn the_calendar_is_that_of_chrono() {
    for (secs, nanos) in sample_times() {
        let ours = Timestamp::new(secs, nanos);
        let theirs = chrono::DateTime::from_timestamp(secs, nanos);
        assert_eq!(ours.is_some(), theirs.is_some(), "{secs} {nanos}");
        if let (Some(ours), Some(theirs)) = (ours, theirs) {
            assert_eq!(ours.unix_seconds(), theirs.timestamp());
            assert_eq!(ours.subsecond_nanos(), theirs.timestamp_subsec_nanos());
            assert_eq!(ours.month_day(), theirs.format("%m-%d").to_string());
            assert_eq!(
                ours.month_day_minute(),
                theirs.format("%m-%d %H:%M").to_string()
            );
            let second = secs.rem_euclid(86_400);
            assert_eq!(
                ours.month_day_minute(),
                format!(
                    "{} {:02}:{:02}",
                    ours.month_day(),
                    second / 3_600,
                    second % 3_600 / 60
                )
            );
        }
    }
    assert!(Timestamp::from_unix(8_210_266_876_800).is_none());
    assert!(Timestamp::from_unix(-8_334_601_228_801).is_none());
    assert!(Timestamp::from_unix(8_210_266_876_799).is_some());
    assert!(Timestamp::from_unix(-8_334_601_228_800).is_some());
    assert!(Timestamp::new(0, 2_000_000_000).is_none());
}

#[test]
fn differences_and_sums_are_those_of_chrono() {
    let times: Vec<_> = sample_times()
        .into_iter()
        .filter_map(|(secs, nanos)| {
            Some((
                Timestamp::new(secs, nanos)?,
                chrono::DateTime::from_timestamp(secs, nanos)?,
            ))
        })
        .collect();
    for (a, chrono_a) in &times {
        for (b, chrono_b) in &times {
            let gap = *chrono_a - *chrono_b;
            let nanos = i128::from(gap.num_seconds()) * 1_000_000_000 + i128::from(gap.subsec_nanos());
            assert_eq!(a.since(b).nanoseconds(), nanos);
            assert_eq!(a.is_before(b), chrono_a < chrono_b);
            assert_eq!(a.min(*b) == *a, chrono_a <= chrono_b || a == b);
            assert_eq!(a.max(*b) == *a, chrono_a >= chrono_b || a == b);
        }
        for seconds in [1, 59, 2_700, u32::MAX] {
            let ours = a.after(seconds);
            let theirs =
                chrono_a.checked_add_signed(chrono::TimeDelta::seconds(i64::from(seconds)));
            assert_eq!(ours.is_some(), theirs.is_some());
            if let (Some(ours), Some(theirs)) = (ours, theirs) {
                assert_eq!(ours.unix_seconds(), theirs.timestamp());
                assert_eq!(ours.subsecond_nanos(), theirs.timestamp_subsec_nanos());
            }
        }
    }
}

#[test]
fn gaps_have_a_longest_length() {
    let longest = 9_223_372_036_854_775;
    assert!(Gap::seconds(longest).is_some());
    assert!(Gap::seconds(longest + 1).is_none());
    assert!(Gap::seconds(-longest - 1).is_none());
    let long = Gap::seconds(longest).unwrap();
    assert!(long.plus(&Gap::seconds(1).unwrap()).is_none());
    assert_eq!(
        long.plus(&Gap::seconds(-longest).unwrap()),
        Some(Gap::zero())
    );
}

#[test]
fn gaps_are_shown_in_their_largest_units() {
    let shown = |secs: i64| fmt_duration(Gap::seconds(secs).unwrap());
    assert_eq!(shown(-5), "0s");
    assert_eq!(shown(0), "0s");
    assert_eq!(shown(59), "59s");
    assert_eq!(shown(60), "1m 00s");
    assert_eq!(shown(3_599), "59m 59s");
    assert_eq!(shown(3_600), "1h 00m");
    assert_eq!(shown(360_000), "100h 00m");
    let early = Timestamp::new(0, 500_000_000).unwrap();
    let late = Timestamp::new(2, 400_000_000).unwrap();
    assert_eq!(fmt_duration(late.since(&early)), "1s");
}
