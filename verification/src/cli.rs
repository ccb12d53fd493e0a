//! The command line, and what `doctor` prints.

use vstd::prelude::*;

use crate::session::{SessionState, SessionView};
use crate::text::{decimal, decimal_text, same_text, texts};
use crate::transcript::{event_views, TranscriptEvent};

verus! {

// ---- arguments ----------------------------------------------------------------

/// What the program does.
#[derive(Clone, Copy, Debug, PartialEq, Eq, Structural)]
pub enum Command {
    Watch,
    Doctor,
    Report,
    Heatmap,
    Sessions,
}

/// What the arguments ask for.
pub enum Invocation {
    /// Run the command, for the given project or the one around the current
    /// directory.
    Run { command: Command, project: Option<String> },
    /// Explain the usage.
    Help,
    /// The arguments make no sense.
    Refused { message: String },
}

/// What the arguments ask for, with its texts as sequences.
pub enum InvocationView {
    Run { command: Command, project: Option<Seq<char>> },
    Help,
    Refused { message: Seq<char> },
}

impl View for Invocation {
    type V = InvocationView;

    open spec fn view(&self) -> InvocationView {
        match self {
            Invocation::Run { command, project } => InvocationView::Run {
                command: *command,
                project: match project {
                    Some(path) => Some(path@),
                    None => None,
                },
            },
            Invocation::Help => InvocationView::Help,
            Invocation::Refused { message } => InvocationView::Refused { message: message@ },
        }
    }
}

/// The command that a word names, if it names one.
pub open spec fn command_named(word: Seq<char>) -> Option<Command> {
    if word == "watch"@ {
        Some(Command::Watch)
    } else if word == "doctor"@ {
        Some(Command::Doctor)
    } else if word == "report"@ {
        Some(Command::Report)
    } else if word == "heatmap"@ {
        Some(Command::Heatmap)
    } else if word == "sessions"@ {
        Some(Command::Sessions)
    } else {
        None
    }
}

/// The command is named by the first argument; without a name it is `watch`.
pub open spec fn command_of(args: Seq<Seq<char>>) -> Command {
    if args.len() > 0 && command_named(args[0]) is Some {
        command_named(args[0])->0
    } else {
        Command::Watch
    }
}

/// What the arguments ask for, read from the first one on, where `project` was
/// given before them. Commands after the first argument are passed over; the
/// last project counts.
pub open spec fn invocation(
    command: Command,
    args: Seq<Seq<char>>,
    project: Option<Seq<char>>,
) -> InvocationView
    decreases args.len(),
{
    if args.len() == 0 {
        InvocationView::Run { command, project }
    } else if command_named(args[0]) is Some {
        invocation(command, args.skip(1), project)
    } else if args[0] == "--project"@ || args[0] == "-p"@ {
        if args.len() < 2 {
            InvocationView::Refused { message: "--project needs a path"@ }
        } else {
            invocation(command, args.skip(2), Some(args[1]))
        }
    } else if args[0] == "--help"@ || args[0] == "-h"@ {
        InvocationView::Help
    } else {
        InvocationView::Refused { message: "unknown argument: "@ + args[0] + " (try --help)"@ }
    }
}

/// The command that a word names, if it names one.
fn named_command(word: &str) -> (command: Option<Command>)
    ensures
        command == command_named(word@),
{
    if same_text(word, "watch") {
        Some(Command::Watch)
    } else if same_text(word, "doctor") {
        Some(Command::Doctor)
    } else if same_text(word, "report") {
        Some(Command::Report)
    } else if same_text(word, "heatmap") {
        Some(Command::Heatmap)
    } else if same_text(word, "sessions") {
        Some(Command::Sessions)
    } else {
        None
    }
}

/// Reads the arguments after the name of the program.
pub fn parse_args(args: &Vec<String>) -> (asked: Invocation)
    ensures
        asked@ == invocation(command_of(texts(args@)), texts(args@), None),
{
    let ghost all = texts(args@);
    let command = if args.len() > 0 {
        assert(all[0] == args@[0]@);
        match named_command(args[0].as_str()) {
            Some(command) => command,
            None => Command::Watch,
        }
    } else {
        Command::Watch
    };
    let mut project: Option<String> = None;
    let mut i: usize = 0;
    assert(all.skip(0) == all);
    while i < args.len()
        invariant
            all == texts(args@),
            command == command_of(all),
            i <= args@.len(),
            invocation(command, all, None) == invocation(
                command,
                all.skip(i as int),
                match project {
                    Some(path) => Some(path@),
                    None => None,
                },
            ),
        decreases args@.len() - i,
    {
        let arg = args[i].as_str();
        let ghost rest = all.skip(i as int);
        assert(rest[0] == arg@);
        assert(rest.skip(1) == all.skip(i + 1));
        if named_command(arg).is_some() {
            i += 1;
        } else if same_text(arg, "--project") || same_text(arg, "-p") {
            if args.len() - i < 2 {
                return Invocation::Refused { message: "--project needs a path".to_owned() };
            }
            assert(rest[1] == args@[i + 1]@);
            assert(rest.skip(2) == all.skip(i + 2));
            project = Some(args[i + 1].clone());
            i += 2;
        } else if same_text(arg, "--help") || same_text(arg, "-h") {
            return Invocation::Help;
        } else {
            let mut message = "unknown argument: ".to_owned();
            message.append(arg);
            message.append(" (try --help)");
            return Invocation::Refused { message };
        }
    }
    Invocation::Run { command, project }
}

// ---- doctor -------------------------------------------------------------------

/// A list of texts as the `Debug` format of the standard library prints it.
pub uninterp spec fn debug_list(list: Seq<Seq<char>>) -> Seq<char>;

/// Prints a list of texts with the `Debug` format of `Vec<String>`. Nothing is
/// claimed of the text but that the same list gives the same text.
#[verifier::external_body]
fn print_list(list: &Vec<String>) -> (text: String)
    ensures
        text@ == debug_list(texts(list@)),
{
    format!("{:?}", list)
}

/// What `doctor` prints of the project: the directories, whether there are
/// transcripts, how many sessions are recent, and the latest one.
pub open spec fn doctor_head(
    cwd: Seq<char>,
    project_dir: Seq<char>,
    exists: bool,
    sessions: nat,
    latest: Option<Seq<char>>,
) -> Seq<Seq<char>> {
    seq![
        "cwd          "@ + cwd,
        "project dir  "@ + project_dir,
        "exists       "@ + if exists {
            "true"@
        } else {
            "false"@
        },
        "sessions 30d "@ + decimal(sessions),
        "latest       "@ + match latest {
            Some(path) => path,
            None => "none found"@,
        },
    ]
}

/// What `doctor` prints of the latest session.
pub open spec fn doctor_session(session: SessionView, events: nat) -> Seq<Seq<char>> {
    seq![
        "events       "@ + decimal(events),
        "prompts      "@ + decimal(session.prompts as nat),
        "tool calls   "@ + decimal(session.tools.len()),
        "tokens       "@ + decimal(session.input_tokens as nat) + " in / "@ + decimal(
            session.output_tokens as nat,
        ) + " out"@,
        "files (turn) "@ + debug_list(session.files_this_turn),
    ]
}

/// A label with its value.
fn row(label: &str, value: &str) -> (line: String)
    ensures
        line@ == label@ + value@,
{
    let mut line = label.to_owned();
    line.append(value);
    line
}

/// What `doctor` prints of the project.
pub fn doctor_head_lines(
    cwd: &str,
    project_dir: &str,
    exists: bool,
    sessions: usize,
    latest: Option<&str>,
) -> (lines: Vec<String>)
    ensures
        texts(lines@) == doctor_head(
            cwd@,
            project_dir@,
            exists,
            sessions as nat,
            match latest {
                Some(path) => Some(path@),
                None => None,
            },
        ),
{
    let lines = vec![
        row("cwd          ", cwd),
        row("project dir  ", project_dir),
        row(
            "exists       ",
            if exists {
                "true"
            } else {
                "false"
            },
        ),
        row("sessions 30d ", decimal_text(sessions as u64).as_str()),
        row(
            "latest       ",
            match latest {
                Some(path) => path,
                None => "none found",
            },
        ),
    ];
    assert(texts(lines@) == doctor_head(
        cwd@,
        project_dir@,
        exists,
        sessions as nat,
        match latest {
            Some(path) => Some(path@),
            None => None,
        },
    ));
    lines
}

/// What `doctor` prints of the latest session, given its events. The lines are
/// missing exactly where the counters of a session cannot take the events.
pub fn doctor_session_lines(events: &Vec<TranscriptEvent>) -> (lines: Option<Vec<String>>)
    ensures
        lines is Some <==> SessionView::fresh(Seq::empty()).has_room_for_all(event_views(events@)),
        lines matches Some(lines) ==> texts(lines@) == doctor_session(
            SessionView::fresh(Seq::empty()).steps(event_views(events@)),
            events@.len(),
        ),
{
    let mut session = SessionState::new(String::new());
    assert(session@ == SessionView::fresh(Seq::empty()));
    if !session.apply_all(events) {
        return None;
    }
    let mut tokens = row("tokens       ", decimal_text(session.input_tokens).as_str());
    tokens.append(" in / ");
    tokens.append(decimal_text(session.output_tokens).as_str());
    tokens.append(" out");
    let lines = vec![
        row("events       ", decimal_text(events.len() as u64).as_str()),
        row("prompts      ", decimal_text(session.prompts).as_str()),
        row("tool calls   ", decimal_text(session.tools.len() as u64).as_str()),
        tokens,
        row("files (turn) ", print_list(&session.files_this_turn).as_str()),
    ];
    assert(texts(lines@) == doctor_session(session@, events@.len()));
    Some(lines)
}

// ---- laws ---------------------------------------------------------------------

proof fn lemma_words_differ()
    ensures
        command_named("watch"@) == Some(Command::Watch),
        command_named("doctor"@) == Some(Command::Doctor),
        command_named("report"@) == Some(Command::Report),
        command_named("heatmap"@) == Some(Command::Heatmap),
        command_named("sessions"@) == Some(Command::Sessions),
        command_named("--project"@) is None,
        command_named("-p"@) is None,
        command_named("--help"@) is None,
        command_named("-h"@) is None,
        "--help"@ != "--project"@ && "--help"@ != "-p"@,
        "-h"@ != "--project"@ && "-h"@ != "-p"@,
{
    reveal_strlit("watch");
    reveal_strlit("doctor");
    reveal_strlit("report");
    reveal_strlit("heatmap");
    reveal_strlit("sessions");
    reveal_strlit("--project");
    reveal_strlit("-p");
    reveal_strlit("--help");
    reveal_strlit("-h");
    assert("watch"@.len() == 5 && "doctor"@.len() == 6 && "report"@.len() == 6);
    assert("heatmap"@.len() == 7 && "sessions"@.len() == 8 && "--project"@.len() == 9);
    assert("-p"@.len() == 2 && "--help"@.len() == 6 && "-h"@.len() == 2);
    assert("doctor"@[0] == 'd' && "report"@[0] == 'r' && "--help"@[0] == '-');
    assert("-p"@[1] == 'p' && "-h"@[1] == 'h');
}

/// The first word names the command; where it names none, the pane is watched.
pub proof fn the_first_word_names_the_command(rest: Seq<Seq<char>>, other: Seq<char>)
    requires
        other != "watch"@,
        other != "doctor"@,
        other != "report"@,
        other != "heatmap"@,
        other != "sessions"@,
    ensures
        command_of(seq!["watch"@] + rest) == Command::Watch,
        command_of(seq!["doctor"@] + rest) == Command::Doctor,
        command_of(seq!["report"@] + rest) == Command::Report,
        command_of(seq!["heatmap"@] + rest) == Command::Heatmap,
        command_of(seq!["sessions"@] + rest) == Command::Sessions,
        command_of(seq![other] + rest) == Command::Watch,
        command_of(Seq::empty()) == Command::Watch,
{
    lemma_words_differ();
    assert((seq!["watch"@] + rest)[0] == "watch"@);
    assert((seq!["doctor"@] + rest)[0] == "doctor"@);
    assert((seq!["report"@] + rest)[0] == "report"@);
    assert((seq!["heatmap"@] + rest)[0] == "heatmap"@);
    assert((seq!["sessions"@] + rest)[0] == "sessions"@);
    assert((seq![other] + rest)[0] == other);
}

/// The words are read in turn. At their end the command runs for the project
/// that was named last; a project needs its path, help ends the reading, and so
/// does a word that means nothing.
pub proof fn words_are_read_in_turn(
    command: Command,
    project: Option<Seq<char>>,
    path: Seq<char>,
    rest: Seq<Seq<char>>,
    word: Seq<char>,
)
    ensures
        invocation(command, Seq::empty(), project) == (InvocationView::Run { command, project }),
        invocation(command, seq!["--project"@, path] + rest, project) == invocation(
            command,
            rest,
            Some(path),
        ),
        invocation(command, seq!["-p"@, path] + rest, project) == invocation(
            command,
            rest,
            Some(path),
        ),
        word == "watch"@ || word == "doctor"@ || word == "report"@ || word == "heatmap"@ || word
            == "sessions"@ ==> invocation(command, seq![word] + rest, project) == invocation(
            command,
            rest,
            project,
        ),
        word == "--project"@ || word == "-p"@ ==> invocation(command, seq![word], project) == (
        InvocationView::Refused { message: "--project needs a path"@ }),
        word == "--help"@ || word == "-h"@ ==> invocation(command, seq![word] + rest, project)
            == InvocationView::Help,
        word != "watch"@ && word != "doctor"@ && word != "report"@ && word != "heatmap"@ && word
            != "sessions"@ && word != "--project"@ && word != "-p"@ && word != "--help"@ && word
            != "-h"@ ==> invocation(command, seq![word] + rest, project) == (
        InvocationView::Refused { message: "unknown argument: "@ + word + " (try --help)"@ }),
{
    lemma_words_differ();
    let long = seq!["--project"@, path] + rest;
    let short = seq!["-p"@, path] + rest;
    let one = seq![word] + rest;
    assert(long[0] == "--project"@ && long[1] == path && long.skip(2) == rest);
    assert(short[0] == "-p"@ && short[1] == path && short.skip(2) == rest);
    assert(one[0] == word && one.skip(1) == rest);
    assert(seq![word][0] == word);
}

/// What `doctor` prints of a project holds its values behind their labels.
pub proof fn doctor_shows_the_project(
    cwd: Seq<char>,
    project_dir: Seq<char>,
    sessions: nat,
    path: Seq<char>,
)
    ensures
        doctor_head(cwd, project_dir, true, sessions, Some(path)) == seq![
            "cwd          "@ + cwd,
            "project dir  "@ + project_dir,
            "exists       "@ + "true"@,
            "sessions 30d "@ + decimal(sessions),
            "latest       "@ + path,
        ],
        doctor_head(cwd, project_dir, false, sessions, None) == seq![
            "cwd          "@ + cwd,
            "project dir  "@ + project_dir,
            "exists       "@ + "false"@,
            "sessions 30d "@ + decimal(sessions),
            "latest       "@ + "none found"@,
        ],
{
}

/// What `doctor` prints of a session counts its events, its prompts, its tool
/// calls and its tokens.
pub proof fn doctor_shows_the_session(session: SessionView, events: nat, calls: nat)
    requires
        session.tools.len() == calls,
        session.prompts >= 0,
        session.input_tokens >= 0,
        session.output_tokens >= 0,
    ensures
        doctor_session(session, events)[0] == "events       "@ + decimal(events),
        doctor_session(session, events)[1] == "prompts      "@ + decimal(session.prompts as nat),
        doctor_session(session, events)[2] == "tool calls   "@ + decimal(calls),
        doctor_session(session, events)[3] == "tokens       "@ + decimal(
            session.input_tokens as nat,
        ) + " in / "@ + decimal(session.output_tokens as nat) + " out"@,
        doctor_session(session, events)[4] == "files (turn) "@ + debug_list(
            session.files_this_turn,
        ),
        doctor_session(session, events).len() == 5,
{
}

} // verus!
