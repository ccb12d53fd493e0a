//! The state of the watch pane between two frames: which session is followed,
//! which screen is shown, and what the keys do.

use vstd::prelude::*;

use crate::files::{session_id, stem_of};
use crate::history::History;
use crate::report::ReportData;
use crate::screen::Screen;
use crate::session::{SessionState, SessionView};
use crate::tail::{chunk_events, complete_length, resumes_at, to_read, Tailer};
use crate::text::same_text;

verus! {

/// How long the pane keeps to a session before it looks for a newer one, in
/// nanoseconds: five seconds.
pub const RESCAN_SESSIONS: u128 = 5_000_000_000;

/// How long a message is shown, in nanoseconds: three seconds.
pub const TOAST_FOR: u128 = 3_000_000_000;

// ---- keys ---------------------------------------------------------------------

/// A key.
#[derive(Clone, Copy, Debug, PartialEq, Eq, Structural)]
pub enum Key {
    Char(char),
    Esc,
    Other,
}

/// What is to be done after a key.
#[derive(Clone, Copy, Debug, PartialEq, Eq, Structural)]
pub enum Action {
    Nothing,
    /// Leave the program.
    Quit,
    /// Make the report anew.
    Build,
}

/// True if the key leaves the program: Escape and Ctrl-C on every screen, `q`
/// in the watch pane.
pub open spec fn key_quits(screen: Screen, key: Key, control: bool) -> bool {
    key == Key::Esc || (key == Key::Char('c') && control) || (screen == Screen::Watch && key
        == Key::Char('q'))
}

/// The screen after a key. The watch pane opens the views; `b` and `q` lead
/// back from them.
pub open spec fn next_screen(screen: Screen, key: Key, control: bool) -> Screen {
    if key_quits(screen, key, control) {
        screen
    } else if screen == Screen::Watch {
        if key == Key::Char('r') {
            Screen::Report
        } else if key == Key::Char('h') {
            Screen::Heatmap
        } else if key == Key::Char('s') {
            Screen::Sessions
        } else {
            screen
        }
    } else if key == Key::Char('b') || key == Key::Char('q') {
        Screen::Watch
    } else {
        screen
    }
}

/// What is to be done after a key: the report is made anew when a view is
/// opened and there is none, and when a view is refreshed.
pub open spec fn key_action(screen: Screen, key: Key, control: bool, has_report: bool) -> Action {
    if key_quits(screen, key, control) {
        Action::Quit
    } else if screen == Screen::Watch {
        if next_screen(screen, key, control) != Screen::Watch && !has_report {
            Action::Build
        } else {
            Action::Nothing
        }
    } else if key == Key::Char('r') {
        Action::Build
    } else {
        Action::Nothing
    }
}

/// Every view can be left for the watch pane, and refreshing keeps the view.
pub proof fn views_lead_back(screen: Screen, control: bool)
    requires
        screen != Screen::Watch,
    ensures
        next_screen(screen, Key::Char('b'), control) == Screen::Watch,
        next_screen(screen, Key::Char('q'), control) == Screen::Watch,
        next_screen(screen, Key::Char('r'), control) == screen,
{
}

/// Every view can be reached from the watch pane.
pub proof fn views_can_be_opened(screen: Screen, control: bool)
    requires
        screen != Screen::Watch,
    ensures
        exists|c: char| #[trigger]
            next_screen(Screen::Watch, Key::Char(c), control) == screen,
{
    assert(next_screen(Screen::Watch, Key::Char('r'), control) == Screen::Report);
    assert(next_screen(Screen::Watch, Key::Char('h'), control) == Screen::Heatmap);
    assert(next_screen(Screen::Watch, Key::Char('s'), control) == Screen::Sessions);
}

/// The screen after a key, and what is to be done.
pub fn on_key(screen: Screen, key: Key, control: bool, has_report: bool) -> (next: (Screen, Action))
    ensures
        next.0 == next_screen(screen, key, control),
        next.1 == key_action(screen, key, control, has_report),
{
    if key == Key::Esc || (key == Key::Char('c') && control) || (screen == Screen::Watch && key
        == Key::Char('q')) {
        return (screen, Action::Quit);
    }
    if screen == Screen::Watch {
        let next = if key == Key::Char('r') {
            Screen::Report
        } else if key == Key::Char('h') {
            Screen::Heatmap
        } else if key == Key::Char('s') {
            Screen::Sessions
        } else {
            Screen::Watch
        };
        if next != Screen::Watch && !has_report {
            (next, Action::Build)
        } else {
            (next, Action::Nothing)
        }
    } else if key == Key::Char('b') || key == Key::Char('q') {
        (Screen::Watch, Action::Nothing)
    } else if key == Key::Char('r') {
        (screen, Action::Build)
    } else {
        (screen, Action::Nothing)
    }
}

// ---- the pane -----------------------------------------------------------------

/// A message that is shown until a point on the clock of the program.
pub struct Toast {
    pub message: String,
    pub until: u128,
}

/// The state of the pane. Points in time are nanoseconds on a clock that never
/// runs back.
pub struct Pane {
    pub project_name: String,
    pub screen: Screen,
    pub session: Option<SessionState>,
    pub history: History,
    pub report: Option<ReportData>,
    pub toast: Option<Toast>,
    pub tailer: Option<Tailer>,
    pub last_check: Option<u128>,
}

/// True if it is time to look for a newer session, where the pane last looked at
/// `checked`.
pub open spec fn is_rescan_due(checked: Option<int>, now: int) -> bool {
    match checked {
        Some(at) => now - at >= RESCAN_SESSIONS,
        None => true,
    }
}

/// Until when a message is shown that comes now.
pub open spec fn shown_until(now: int) -> int {
    now + TOAST_FOR
}

/// The message that is left of one.
pub open spec fn toast_left(toast: Option<Toast>, now: int) -> Option<Toast> {
    match toast {
        Some(toast) => if now >= toast.until {
            None
        } else {
            Some(toast)
        },
        None => None,
    }
}

/// What is known of a session, if there is one.
pub open spec fn session_known(session: Option<SessionState>) -> Option<SessionView> {
    match session {
        Some(session) => Some(session@),
        None => None,
    }
}

impl Pane {
    /// The transcript that is followed, and how much of it was consumed.
    pub open spec fn follows(self) -> Option<(Seq<char>, nat)> {
        match self.tailer {
            Some(tailer) => Some((tailer.file(), tailer.consumed())),
            None => None,
        }
    }

    /// When the pane last looked for a newer session.
    pub open spec fn checked(self) -> Option<int> {
        match self.last_check {
            Some(at) => Some(at as int),
            None => None,
        }
    }

    /// True if nothing changed but, possibly, what is followed.
    pub open spec fn same_surroundings(self, other: Pane) -> bool {
        &&& self.project_name == other.project_name
        &&& self.screen == other.screen
        &&& self.history == other.history
        &&& self.report == other.report
        &&& self.toast == other.toast
    }

    /// A pane that follows nothing yet.
    pub fn new(project_name: String, history: History) -> (pane: Pane)
        ensures
            pane.project_name == project_name,
            pane.screen == Screen::Watch,
            pane.session is None,
            pane.history == history,
            pane.report is None,
            pane.toast is None,
            pane.follows() is None,
            pane.checked() is None,
    {
        Pane {
            project_name,
            screen: Screen::Watch,
            session: None,
            history,
            report: None,
            toast: None,
            tailer: None,
            last_check: None,
        }
    }

    /// Tells whether it is time to look for a newer session, and notes the
    /// time if so.
    pub fn rescan_due(&mut self, now: u128) -> (due: bool)
        ensures
            due == is_rescan_due(old(self).checked(), now as int),
            final(self).checked() == if due {
                Some(now as int)
            } else {
                old(self).checked()
            },
            final(self).same_surroundings(*old(self)),
            final(self).session == old(self).session,
            final(self).follows() == old(self).follows(),
    {
        let due = match self.last_check {
            Some(at) => now >= at && now - at >= RESCAN_SESSIONS,
            None => true,
        };
        if due {
            self.last_check = Some(now);
        }
        due
    }

    /// Follows the latest transcript from its beginning, unless it is the one
    /// that is followed already.
    pub fn follow(&mut self, latest: &str)
        ensures
            final(self).same_surroundings(*old(self)),
            final(self).checked() == old(self).checked(),
            (old(self).follows() matches Some(f) && f.0 == latest@) ==> *final(self) == *old(self),
            !(old(self).follows() matches Some(f) && f.0 == latest@) ==> {
                &&& final(self).follows() == Some((latest@, 0nat))
                &&& session_known(final(self).session) == Some(SessionView::fresh(stem_of(latest@)))
            },
    {
        let known = match &self.tailer {
            Some(tailer) => same_text(tailer.path(), latest),
            None => false,
        };
        if !known {
            self.session = Some(SessionState::new(session_id(latest)));
            self.tailer = Some(Tailer::new(latest.to_owned()));
        }
    }

    /// The transcript that is followed.
    pub fn followed(&self) -> (path: Option<&str>)
        ensures
            path is Some <==> self.follows() is Some,
            path matches Some(path) ==> path@ == (self.follows()->0).0,
    {
        match &self.tailer {
            Some(tailer) => Some(tailer.path()),
            None => None,
        }
    }

    /// Decides what to read of the followed transcript, which is `len` bytes
    /// long: from which byte on, and how many bytes.
    pub fn begin_poll(&mut self, len: u64) -> (range: Option<(u64, u64)>)
        ensures
            final(self).same_surroundings(*old(self)),
            final(self).session == old(self).session,
            final(self).checked() == old(self).checked(),
            match old(self).follows() {
                None => range is None && final(self).follows() is None,
                Some((file, consumed)) => {
                    let from = resumes_at(consumed, len as int);
                    &&& final(self).follows() == Some((file, from))
                    &&& range == to_read(from, len)
                },
            },
    {
        match self.tailer.take() {
            Some(mut tailer) => {
                let range = tailer.begin_poll(len);
                self.tailer = Some(tailer);
                range
            },
            None => None,
        }
    }

    /// Takes the bytes that were read: the complete lines among them are
    /// consumed, and their events are folded into the session, as long as its
    /// counters can take them.
    pub fn finish_poll(&mut self, bytes: &Vec<u8>) -> (done: bool)
        requires
            old(self).follows() matches Some(f) ==> f.1 + bytes@.len() <= u64::MAX,
        ensures
            final(self).same_surroundings(*old(self)),
            final(self).checked() == old(self).checked(),
            match old(self).follows() {
                None => final(self).follows() is None && done && final(self).session == old(
                    self,
                ).session,
                Some((file, consumed)) => {
                    &&& final(self).follows() == Some((file, consumed + complete_length(bytes@)))
                    &&& match old(self).session {
                        None => done && final(self).session is None,
                        Some(session) => {
                            &&& done <==> session@.has_room_for_all(chunk_events(bytes@))
                            &&& done ==> session_known(final(self).session) == Some(
                                session@.steps(chunk_events(bytes@)),
                            )
                            &&& !done ==> exists|k: int|
                                0 <= k < chunk_events(bytes@).len() && session_known(
                                    final(self).session,
                                ) == Some(session@.steps(#[trigger] chunk_events(bytes@).take(k)))
                                    && !session@.steps(chunk_events(bytes@).take(k)).has_room_for(
                                    chunk_events(bytes@)[k],
                                )
                        },
                    }
                },
            },
    {
        match self.tailer.take() {
            Some(mut tailer) => {
                let events = tailer.finish_poll(bytes);
                self.tailer = Some(tailer);
                match self.session.take() {
                    Some(mut session) => {
                        let done = session.apply_all(&events);
                        self.session = Some(session);
                        done
                    },
                    None => true,
                }
            },
            None => true,
        }
    }

    /// Shows a message for a while.
    pub fn show_toast(&mut self, message: String, now: u128)
        requires
            now + TOAST_FOR <= u128::MAX,
        ensures
            final(self).toast == Some(Toast { message, until: shown_until(now as int) as u128 }),
            final(self).project_name == old(self).project_name,
            final(self).screen == old(self).screen,
            final(self).session == old(self).session,
            final(self).history == old(self).history,
            final(self).report == old(self).report,
            final(self).follows() == old(self).follows(),
            final(self).checked() == old(self).checked(),
    {
        self.toast = Some(Toast { message, until: now + TOAST_FOR });
    }

    /// Takes the message away once its time is over.
    pub fn expire_toast(&mut self, now: u128)
        ensures
            final(self).toast == toast_left(old(self).toast, now as int),
            final(self).project_name == old(self).project_name,
            final(self).screen == old(self).screen,
            final(self).session == old(self).session,
            final(self).history == old(self).history,
            final(self).report == old(self).report,
            final(self).follows() == old(self).follows(),
            final(self).checked() == old(self).checked(),
    {
        let over = match &self.toast {
            Some(toast) => now >= toast.until,
            None => false,
        };
        if over {
            self.toast = None;
        }
    }
}

// ---- laws ---------------------------------------------------------------------

/// The keys: Escape and Ctrl-C leave from everywhere, `q` leaves the watch pane;
/// `r`, `h` and `s` open the views there, and the report is made for the first
/// of them; in a view `r` makes the report anew. All other keys do nothing.
pub proof fn keys_do_what_the_footer_says(
    screen: Screen,
    view: Screen,
    control: bool,
    has_report: bool,
    other: char,
)
    requires
        view != Screen::Watch,
        other != 'c' || !control,
        other != 'q' && other != 'r' && other != 'h' && other != 's' && other != 'b',
    ensures
        key_action(screen, Key::Esc, control, has_report) == Action::Quit,
        key_action(screen, Key::Char('c'), true, has_report) == Action::Quit,
        key_action(Screen::Watch, Key::Char('q'), control, has_report) == Action::Quit,
        next_screen(screen, Key::Esc, control) == screen,
        next_screen(Screen::Watch, Key::Char('r'), control) == Screen::Report,
        next_screen(Screen::Watch, Key::Char('h'), control) == Screen::Heatmap,
        next_screen(Screen::Watch, Key::Char('s'), control) == Screen::Sessions,
        forall|c: char|
            c == 'r' || c == 'h' || c == 's' ==> #[trigger] key_action(
                Screen::Watch,
                Key::Char(c),
                control,
                has_report,
            ) == if has_report {
                Action::Nothing
            } else {
                Action::Build
            },
        key_action(view, Key::Char('r'), control, has_report) == Action::Build,
        key_action(view, Key::Char('b'), control, has_report) == Action::Nothing,
        key_action(view, Key::Char('q'), control, has_report) == Action::Nothing,
        next_screen(screen, Key::Char(other), control) == screen,
        key_action(screen, Key::Char(other), control, has_report) == Action::Nothing,
        next_screen(Screen::Watch, Key::Char('b'), control) == Screen::Watch,
        key_action(Screen::Watch, Key::Char('b'), control, has_report) == Action::Nothing,
        next_screen(screen, Key::Other, control) == screen,
        key_action(screen, Key::Other, control, has_report) == Action::Nothing,
        next_screen(view, Key::Char('h'), control) == view,
        next_screen(view, Key::Char('s'), control) == view,
{
}

/// The pane looks for a newer session every five seconds, and shows a message
/// for three.
pub proof fn the_pane_keeps_its_times(start: int, passed: int, toast: Toast)
    ensures
        is_rescan_due(None, start),
        is_rescan_due(Some(start), start + passed) <==> passed >= 5 * 1_000_000_000,
        toast.until == shown_until(start) ==> (toast_left(Some(toast), start + passed) is None
            <==> passed >= 3 * 1_000_000_000),
        toast_left(Some(toast), start) is Some ==> toast_left(Some(toast), start) == Some(toast),
        toast_left(None, start) is None,
{
}

} // verus!
