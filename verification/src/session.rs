//! The state of the live session, folded from its transcript events.

use vstd::hash_map::StringHashMap;
use vstd::prelude::*;

use crate::text::texts;
use crate::time::{gap_in_range, Gap, Timestamp};
use crate::transcript::{edits_files, event_views, is_file_edit, EventView, TranscriptEvent};

verus! {

/// One tool invocation as shown in the live feed.
pub struct ToolRun {
    pub at: Timestamp,
    pub name: String,
    pub label: String,
    pub done_at: Option<Timestamp>,
}

/// What a tool invocation holds.
pub struct ToolView {
    pub at: Timestamp,
    pub name: Seq<char>,
    pub label: Seq<char>,
    pub done_at: Option<Timestamp>,
}

impl View for ToolRun {
    type V = ToolView;

    open spec fn view(&self) -> ToolView {
        ToolView { at: self.at, name: self.name@, label: self.label@, done_at: self.done_at }
    }
}

/// What the tool invocations of a list hold.
pub open spec fn tool_views(tools: Seq<ToolRun>) -> Seq<ToolView> {
    tools.map_values(|tool: ToolRun| tool@)
}

/// Everything derived from the live session transcript.
pub struct SessionState {
    pub session_id: String,
    pub started: Option<Timestamp>,
    pub prompts: u64,
    pub last_prompt_at: Option<Timestamp>,
    pub interruptions: u64,
    pub input_tokens: u64,
    pub output_tokens: u64,
    pub turn_output_tokens: u64,
    pub tools: Vec<ToolRun>,
    pub open_tools: StringHashMap<usize>,
    /// How many calls there were when the turn began or the last one ended.
    pub calls_before_turn: usize,
    pub files_this_turn: Vec<String>,
    pub last_assistant_text: Option<String>,
    pub waiting_since: Option<Timestamp>,
    pub babysit: Gap,
}

/// What the state of a session holds. `open_tools` gives the position in
/// `tools` of each call whose result may still arrive, by its identifier;
/// `calls_before_turn` tells how many calls there were when the last prompt
/// came or the last turn ended; `babysit` is in nanoseconds.
pub struct SessionView {
    pub session_id: Seq<char>,
    pub started: Option<Timestamp>,
    pub prompts: int,
    pub last_prompt_at: Option<Timestamp>,
    pub interruptions: int,
    pub input_tokens: int,
    pub output_tokens: int,
    pub turn_output_tokens: int,
    pub tools: Seq<ToolView>,
    pub open_tools: Map<Seq<char>, usize>,
    pub calls_before_turn: int,
    pub files_this_turn: Seq<Seq<char>>,
    pub last_assistant_text: Option<Seq<char>>,
    pub waiting_since: Option<Timestamp>,
    pub babysit: int,
}

pub open spec fn text_view(text: Option<String>) -> Option<Seq<char>> {
    match text {
        Some(text) => Some(text@),
        None => None,
    }
}

impl View for SessionState {
    type V = SessionView;

    open spec fn view(&self) -> SessionView {
        SessionView {
            session_id: self.session_id@,
            started: self.started,
            prompts: self.prompts as int,
            last_prompt_at: self.last_prompt_at,
            interruptions: self.interruptions as int,
            input_tokens: self.input_tokens as int,
            output_tokens: self.output_tokens as int,
            turn_output_tokens: self.turn_output_tokens as int,
            tools: tool_views(self.tools@),
            open_tools: self.open_tools@,
            calls_before_turn: self.calls_before_turn as int,
            files_this_turn: texts(self.files_this_turn@),
            last_assistant_text: text_view(self.last_assistant_text),
            waiting_since: self.waiting_since,
            babysit: self.babysit.length(),
        }
    }
}

impl SessionView {
    /// A session of which nothing is known yet.
    pub open spec fn fresh(session_id: Seq<char>) -> SessionView {
        SessionView {
            session_id,
            started: None,
            prompts: 0,
            last_prompt_at: None,
            interruptions: 0,
            input_tokens: 0,
            output_tokens: 0,
            turn_output_tokens: 0,
            tools: Seq::empty(),
            open_tools: Map::empty(),
            calls_before_turn: 0,
            files_this_turn: Seq::empty(),
            last_assistant_text: None,
            waiting_since: None,
            babysit: 0,
        }
    }

    /// The gap that a prompt at `at` ends.
    pub open spec fn wait_ended_by(self, at: Timestamp) -> int {
        match self.waiting_since {
            Some(since) => at.nanos_since(since),
            None => 0,
        }
    }

    /// A prompt begins a turn. Every call of the turn before that is still
    /// open is dead: results cannot arrive across turns. The time that the
    /// agent was waiting is banked.
    pub open spec fn after_prompt(self, at: Timestamp) -> SessionView {
        SessionView {
            started: match self.started {
                Some(started) => Some(started),
                None => Some(at),
            },
            open_tools: Map::empty(),
            calls_before_turn: self.tools.len() as int,
            waiting_since: None,
            babysit: self.babysit + self.wait_ended_by(at),
            prompts: self.prompts + 1,
            last_prompt_at: Some(at),
            turn_output_tokens: 0,
            files_this_turn: Seq::empty(),
            ..self
        }
    }

    /// The files of the turn once a tool was called. Each file is listed once.
    pub open spec fn files_after_call(self, name: Seq<char>, label: Seq<char>) -> Seq<Seq<char>> {
        if edits_files(name) && label.len() > 0 && !self.files_this_turn.contains(label) {
            self.files_this_turn.push(label)
        } else {
            self.files_this_turn
        }
    }

    /// A tool call. One without an identifier cannot be matched to a result.
    pub open spec fn after_call(
        self,
        at: Timestamp,
        id: Seq<char>,
        name: Seq<char>,
        label: Seq<char>,
    ) -> SessionView {
        SessionView {
            waiting_since: None,
            files_this_turn: self.files_after_call(name, label),
            tools: self.tools.push(ToolView { at, name, label, done_at: None }),
            open_tools: if id.len() > 0 {
                self.open_tools.insert(id, self.tools.len() as usize)
            } else {
                self.open_tools
            },
            ..self
        }
    }

    /// The result of a tool call ends the call that it belongs to, if that is
    /// still open.
    pub open spec fn after_result(self, at: Timestamp, id: Seq<char>) -> SessionView {
        if self.open_tools.contains_key(id) {
            let index = self.open_tools[id] as int;
            SessionView {
                open_tools: self.open_tools.remove(id),
                tools: if index < self.tools.len() {
                    self.tools.update(index, ToolView { done_at: Some(at), ..self.tools[index] })
                } else {
                    self.tools
                },
                ..self
            }
        } else {
            self
        }
    }

    /// The end of a turn: nothing is running any more, and the agent waits
    /// from now on, unless it was waiting already.
    pub open spec fn after_turn(self, at: Timestamp) -> SessionView {
        SessionView {
            open_tools: Map::empty(),
            calls_before_turn: self.tools.len() as int,
            waiting_since: match self.waiting_since {
                Some(since) => Some(since),
                None => Some(at),
            },
            ..self
        }
    }

    /// The session after one event more.
    pub open spec fn step(self, event: EventView) -> SessionView {
        match event {
            EventView::UserPrompt { at } => self.after_prompt(at),
            EventView::Interrupted { at } => SessionView {
                interruptions: self.interruptions + 1,
                waiting_since: Some(at),
                ..self
            },
            EventView::ToolCall { at, id, name, label } => self.after_call(at, id, name, label),
            EventView::ToolResult { at, id } => self.after_result(at, id),
            EventView::AssistantText { text } => SessionView {
                last_assistant_text: Some(text),
                ..self
            },
            EventView::Usage { at, input_tokens, output_tokens } => SessionView {
                input_tokens: self.input_tokens + input_tokens,
                output_tokens: self.output_tokens + output_tokens,
                turn_output_tokens: self.turn_output_tokens + output_tokens,
                ..self
            },
            EventView::TurnDone { at } => self.after_turn(at),
        }
    }

    /// The session after all of the events.
    pub open spec fn steps(self, events: Seq<EventView>) -> SessionView
        decreases events.len(),
    {
        if events.len() == 0 {
            self
        } else {
            self.steps(events.drop_last()).step(events.last())
        }
    }

    /// True if the counters can take the event.
    pub open spec fn has_room_for(self, event: EventView) -> bool {
        match event {
            EventView::UserPrompt { at } => {
                &&& self.prompts < u64::MAX
                &&& self.waiting_since is Some ==> gap_in_range(
                    self.babysit + self.wait_ended_by(at),
                )
            },
            EventView::Interrupted { at } => self.interruptions < u64::MAX,
            EventView::Usage { at, input_tokens, output_tokens } => {
                &&& self.input_tokens + input_tokens <= u64::MAX
                &&& self.output_tokens + output_tokens <= u64::MAX
                &&& self.turn_output_tokens + output_tokens <= u64::MAX
            },
            _ => true,
        }
    }

    /// True if the counters can take the events, one after the other.
    pub open spec fn has_room_for_all(self, events: Seq<EventView>) -> bool {
        forall|k: int|
            0 <= k < events.len() ==> self.steps(#[trigger] events.take(k)).has_room_for(events[k])
    }
}

/// True if one of the strings is `text`.
pub fn contains_text(list: &Vec<String>, text: &String) -> (found: bool)
    ensures
        found == texts(list@).contains(text@),
{
    for i in 0..list.len()
        invariant
            forall|j: int| 0 <= j < i ==> (#[trigger] list@[j])@ != text@,
    {
        if list[i] == *text {
            assert(texts(list@)[i as int] == text@);
            return true;
        }
    }
    proof {
        if texts(list@).contains(text@) {
            let j = choose|j: int| 0 <= j < list@.len() && texts(list@)[j] == text@;
            assert(list@[j]@ == text@);
        }
    }
    false
}

impl SessionState {
    /// A session of which nothing is known yet.
    pub fn new(session_id: String) -> (session: SessionState)
        ensures
            session@ == SessionView::fresh(session_id@),
    {
        let session = SessionState {
            session_id,
            started: None,
            prompts: 0,
            last_prompt_at: None,
            interruptions: 0,
            input_tokens: 0,
            output_tokens: 0,
            turn_output_tokens: 0,
            tools: Vec::new(),
            open_tools: StringHashMap::new(),
            calls_before_turn: 0,
            files_this_turn: Vec::new(),
            last_assistant_text: None,
            waiting_since: None,
            babysit: Gap::zero(),
        };
        assert(session@.tools == Seq::<ToolView>::empty());
        assert(session@.files_this_turn == Seq::<Seq<char>>::empty());
        session
    }

    /// True if the counters can take the event.
    pub fn accepts(&self, event: &TranscriptEvent) -> (yes: bool)
        ensures
            yes == self@.has_room_for(event@),
    {
        match event {
            TranscriptEvent::UserPrompt { at } => {
                let room = match self.waiting_since {
                    Some(since) => self.babysit.plus(&at.since(&since)).is_some(),
                    None => true,
                };
                self.prompts < u64::MAX && room
            },
            TranscriptEvent::Interrupted { .. } => self.interruptions < u64::MAX,
            TranscriptEvent::Usage { input_tokens, output_tokens, .. } => {
                self.input_tokens.checked_add(*input_tokens).is_some()
                    && self.output_tokens.checked_add(*output_tokens).is_some()
                    && self.turn_output_tokens.checked_add(*output_tokens).is_some()
            },
            _ => true,
        }
    }

    /// Takes one event more.
    pub fn apply(&mut self, event: &TranscriptEvent)
        requires
            old(self)@.has_room_for(event@),
        ensures
            final(self)@ == old(self)@.step(event@),
    {
        match event {
            TranscriptEvent::UserPrompt { at } => {
                if self.started.is_none() {
                    self.started = Some(*at);
                }
                self.open_tools.clear();
                self.calls_before_turn = self.tools.len();
                if let Some(since) = self.waiting_since {
                    if let Some(babysit) = self.babysit.plus(&at.since(&since)) {
                        self.babysit = babysit;
                    }
                    self.waiting_since = None;
                }
                self.prompts = self.prompts + 1;
                self.last_prompt_at = Some(*at);
                self.turn_output_tokens = 0;
                self.files_this_turn.clear();
                assert(self@.files_this_turn == Seq::<Seq<char>>::empty());
            },
            TranscriptEvent::Interrupted { at } => {
                self.interruptions = self.interruptions + 1;
                self.waiting_since = Some(*at);
            },
            TranscriptEvent::ToolCall { at, id, name, label } => {
                self.waiting_since = None;
                if is_file_edit(name.as_str()) && !label.as_str().is_empty() && !contains_text(
                    &self.files_this_turn,
                    label,
                ) {
                    self.files_this_turn.push(label.clone());
                    assert(self@.files_this_turn == old(self)@.files_this_turn.push(label@));
                }
                if !id.as_str().is_empty() {
                    let index: usize = self.tools.len();
                    self.open_tools.insert(id.clone(), index);
                }
                self.tools.push(
                    ToolRun { at: *at, name: name.clone(), label: label.clone(), done_at: None },
                );
                assert(self@.tools == old(self)@.tools.push(
                    ToolView { at: *at, name: name@, label: label@, done_at: None },
                ));
            },
            TranscriptEvent::ToolResult { at, id } => {
                let found: Option<usize> = match self.open_tools.get(id.as_str()) {
                    Some(index) => Some(*index),
                    None => None,
                };
                if let Some(index) = found {
                    self.open_tools.remove(id.as_str());
                    if index < self.tools.len() {
                        self.tools[index].done_at = Some(*at);
                        assert(self@.tools == old(self)@.step(event@).tools);
                    }
                }
            },
            TranscriptEvent::AssistantText { text } => {
                self.last_assistant_text = Some(text.clone());
            },
            TranscriptEvent::Usage { input_tokens, output_tokens, .. } => {
                self.input_tokens = self.input_tokens + *input_tokens;
                self.output_tokens = self.output_tokens + *output_tokens;
                self.turn_output_tokens = self.turn_output_tokens + *output_tokens;
            },
            TranscriptEvent::TurnDone { at } => {
                self.open_tools.clear();
                self.calls_before_turn = self.tools.len();
                if self.waiting_since.is_none() {
                    self.waiting_since = Some(*at);
                }
            },
        }
    }

    /// Takes the events in their order, as long as the counters can take them.
    pub fn apply_all(&mut self, events: &Vec<TranscriptEvent>) -> (done: bool)
        ensures
            done <==> old(self)@.has_room_for_all(event_views(events@)),
            done ==> final(self)@ == old(self)@.steps(event_views(events@)),
            !done ==> exists|k: int|
                0 <= k < events@.len() && final(self)@ == old(self)@.steps(
                    #[trigger] event_views(events@).take(k),
                ) && !final(self)@.has_room_for(event_views(events@)[k]),
    {
        let ghost all = event_views(events@);
        let ghost start = self@;
        for i in 0..events.len()
            invariant
                all == event_views(events@),
                start == old(self)@,
                self@ == start.steps(all.take(i as int)),
                forall|k: int|
                    0 <= k < i ==> start.steps(#[trigger] all.take(k)).has_room_for(all[k]),
        {
            let event = &events[i];
            assert(all[i as int] == event@);
            assert(all.take(i + 1).drop_last() == all.take(i as int));
            if !self.accepts(event) {
                assert(!start.steps(all.take(i as int)).has_room_for(all[i as int]));
                return false;
            }
            self.apply(event);
        }
        assert(all.take(all.len() as int) == all);
        true
    }

    /// The tool that is genuinely running now: only the newest call counts, an
    /// older call whose result never matched is stale, not running. Once a turn
    /// is over, and when the next one begins, nothing runs.
    pub fn running_tool(&self) -> (tool: Option<&ToolRun>)
        ensures
            match tool {
                Some(tool) => running(self@) == Some(tool@),
                None => running(self@) is None,
            },
    {
        let count: usize = self.tools.len();
        if count <= self.calls_before_turn {
            return None;
        }
        let last = &self.tools[count - 1];
        assert(self@.tools.last() == last@);
        if last.done_at.is_none() {
            Some(last)
        } else {
            None
        }
    }

    /// Most recent finished tools, newest first.
    pub fn recent_finished(&self, count: usize) -> (tools: Vec<&ToolRun>)
        ensures
            tools@.map_values(|tool: &ToolRun| tool@) == first_items(
                finished_newest_first(self@.tools),
                count as nat,
            ),
    {
        let mut tools: Vec<&ToolRun> = Vec::new();
        let ghost all = self@.tools;
        let ghost shown = |tool: &ToolRun| tool@;
        let mut i: usize = self.tools.len();
        assert(all.take(all.len() as int) == all);
        while i > 0 && tools.len() < count
            invariant
                i <= all.len(),
                all == tool_views(self.tools@),
                shown == (|tool: &ToolRun| tool@),
                tools@.len() <= count,
                tools@.map_values(shown) + finished_newest_first(all.take(i as int))
                    == finished_newest_first(all),
            decreases i,
        {
            let tool = &self.tools[i - 1];
            let ghost before = tools@.map_values(shown);
            assert(all.take(i as int).drop_last() == all.take(i - 1));
            assert(all.take(i as int).last() == tool@);
            if tool.done_at.is_some() {
                tools.push(tool);
                assert(tools@.map_values(shown) == before.push(tool@));
                assert(before.push(tool@) + finished_newest_first(all.take(i - 1)) == before + (seq![
                    tool@,
                ] + finished_newest_first(all.take(i - 1))));
            }
            i -= 1;
        }
        proof {
            let listed = tools@.map_values(shown);
            if i == 0 {
                assert(all.take(0) == Seq::<ToolView>::empty());
                assert(listed + finished_newest_first(all.take(0)) == listed);
            } else {
                assert(first_items(finished_newest_first(all), count as nat) == listed);
            }
        }
        tools
    }
}

/// The newest call, where it was made since the last prompt and the last end of
/// a turn, and has no result yet.
pub open spec fn running(session: SessionView) -> Option<ToolView> {
    if session.tools.len() > session.calls_before_turn && session.tools.last().done_at is None {
        Some(session.tools.last())
    } else {
        None
    }
}

/// The calls that have a result, newest first.
pub open spec fn finished_newest_first(tools: Seq<ToolView>) -> Seq<ToolView>
    decreases tools.len(),
{
    if tools.len() == 0 {
        Seq::empty()
    } else if tools.last().done_at is Some {
        seq![tools.last()] + finished_newest_first(tools.drop_last())
    } else {
        finished_newest_first(tools.drop_last())
    }
}

/// The first `count` items of a list, or all of it where it is shorter.
pub open spec fn first_items<A>(items: Seq<A>, count: nat) -> Seq<A> {
    if items.len() <= count {
        items
    } else {
        items.take(count as int)
    }
}

// ---- laws ---------------------------------------------------------------------

impl SessionView {
    /// What holds of every session: a call that is open is of this turn and has
    /// no result, no two identifiers stand for one call, a file is listed once per turn and has a
    /// name, a turn has not used more tokens than the session, and the first and
    /// the last prompt are known exactly where there was a prompt.
    pub open spec fn consistent(self) -> bool {
        &&& forall|id: Seq<char>| #[trigger]
            self.open_tools.contains_key(id) ==> self.calls_before_turn <= self.open_tools[id]
                < self.tools.len() && self.tools[self.open_tools[id] as int].done_at is None
        &&& forall|a: Seq<char>, b: Seq<char>| #[trigger]
            self.open_tools.contains_key(a) && #[trigger] self.open_tools.contains_key(b) && a != b
                ==> self.open_tools[a] != self.open_tools[b]
        &&& self.files_this_turn.no_duplicates()
        &&& forall|i: int|
            0 <= i < self.files_this_turn.len() ==> (#[trigger] self.files_this_turn[i]).len() > 0
        &&& 0 <= self.turn_output_tokens <= self.output_tokens
        &&& 0 <= self.input_tokens
        &&& self.prompts >= 0
        &&& self.started is Some <==> self.prompts > 0
        &&& self.last_prompt_at is Some <==> self.prompts > 0
        &&& 0 <= self.calls_before_turn <= self.tools.len()
        &&& self.tools.len() <= usize::MAX
    }
}

/// A new session is consistent.
pub proof fn fresh_session_is_consistent(session_id: Seq<char>)
    ensures
        SessionView::fresh(session_id).consistent(),
{
}

/// Every event keeps a session consistent, as long as the list of its calls has
/// a length that a list can have.
pub proof fn events_keep_a_session_consistent(session: SessionView, event: EventView)
    requires
        session.consistent(),
        session.step(event).tools.len() <= usize::MAX,
    ensures
        session.step(event).consistent(),
{
    let next = session.step(event);
    match event {
        EventView::ToolCall { at, id, name, label } => {
            assert forall|other: Seq<char>| #[trigger]
                next.open_tools.contains_key(other) implies next.calls_before_turn
                <= next.open_tools[other] < next.tools.len() && next.tools[next.open_tools[other] as int].done_at is None by {
                if id.len() > 0 && other == id {
                } else {
                    assert(session.open_tools.contains_key(other));
                }
            }
            assert forall|a: Seq<char>, b: Seq<char>| #[trigger]
                next.open_tools.contains_key(a) && #[trigger] next.open_tools.contains_key(b) && a
                    != b implies next.open_tools[a] != next.open_tools[b] by {
                if id.len() > 0 && a == id {
                    assert(session.open_tools.contains_key(b));
                } else if id.len() > 0 && b == id {
                    assert(session.open_tools.contains_key(a));
                } else {
                    assert(session.open_tools.contains_key(a));
                    assert(session.open_tools.contains_key(b));
                }
            }
        },
        EventView::ToolResult { at, id } => {
            assert forall|other: Seq<char>| #[trigger]
                next.open_tools.contains_key(other) implies next.calls_before_turn
                <= next.open_tools[other] < next.tools.len() && next.tools[next.open_tools[other] as int].done_at is None by {
                assert(session.open_tools.contains_key(other));
                if session.open_tools.contains_key(id) {
                    assert(session.open_tools[id] != session.open_tools[other]);
                }
            }
            assert forall|a: Seq<char>, b: Seq<char>| #[trigger]
                next.open_tools.contains_key(a) && #[trigger] next.open_tools.contains_key(b) && a
                    != b implies next.open_tools[a] != next.open_tools[b] by {
                assert(session.open_tools.contains_key(a));
                assert(session.open_tools.contains_key(b));
            }
        },
        _ => {},
    }
}

/// Results cannot arrive across turns: once a prompt began a turn or a turn
/// ended, the result of a call made before changes nothing.
pub proof fn results_do_not_cross_turns(session: SessionView, at: Timestamp, late: Timestamp, id: Seq<char>)
    ensures
        session.after_prompt(at).step(EventView::ToolResult { at: late, id })
            == session.after_prompt(at),
        session.after_turn(at).step(EventView::ToolResult { at: late, id }) == session.after_turn(at),
{
}

/// A call whose result never arrives does not keep the end of a turn from being
/// noticed: whatever is open, the agent waits after a turn ended.
pub proof fn an_ended_turn_waits(session: SessionView, at: Timestamp)
    ensures
        session.step(EventView::TurnDone { at }).waiting_since is Some,
        session.waiting_since is None ==> session.step(EventView::TurnDone { at }).waiting_since
            == Some(at),
{
}

/// The next prompt banks the time since the turn ended and resets what is
/// counted per turn.
pub proof fn a_prompt_banks_the_wait(session: SessionView, ended: Timestamp, at: Timestamp)
    requires
        session.waiting_since is None,
    ensures
        ({
            let next = session.step(EventView::TurnDone { at: ended }).step(
                EventView::UserPrompt { at },
            );
            &&& next.babysit == session.babysit + at.nanos_since(ended)
            &&& next.waiting_since is None
            &&& next.turn_output_tokens == 0
            &&& next.files_this_turn.len() == 0
            &&& next.prompts == session.prompts + 1
        }),
{
}

/// A tool that finished does not run, and an older call without a result is
/// never taken for the one that runs.
pub proof fn a_finished_newest_call_means_nothing_runs(
    session: SessionView,
    at: Timestamp,
    done: Timestamp,
    id: Seq<char>,
    name: Seq<char>,
    label: Seq<char>,
)
    requires
        id.len() > 0,
        session.tools.len() < usize::MAX,
    ensures
        running(
            session.step(EventView::ToolCall { at, id, name, label }).step(
                EventView::ToolResult { at: done, id },
            ),
        ) is None,
{
}

/// Once a turn is over nothing runs, and nothing of an earlier turn runs when a
/// prompt begins the next one, whatever results are missing. It stays so until
/// the next call.
pub proof fn nothing_runs_between_turns(session: SessionView, at: Timestamp, event: EventView)
    requires
        !(event is ToolCall),
    ensures
        running(session.step(EventView::TurnDone { at })) is None,
        running(session.step(EventView::UserPrompt { at })) is None,
        running(session.step(EventView::TurnDone { at }).step(event)) is None,
        running(session.step(EventView::UserPrompt { at }).step(event)) is None,
{
}

/// A call runs from the moment it is made, with or without an identifier.
pub proof fn a_new_call_runs(
    session: SessionView,
    at: Timestamp,
    id: Seq<char>,
    name: Seq<char>,
    label: Seq<char>,
)
    requires
        session.consistent(),
    ensures
        running(session.step(EventView::ToolCall { at, id, name, label })) == Some(
            ToolView { at, name, label, done_at: None },
        ),
{
}

/// The output tokens that the events report.
pub open spec fn reported_output(events: Seq<EventView>) -> int
    decreases events.len(),
{
    if events.len() == 0 {
        0
    } else {
        reported_output(events.drop_last()) + match events.last() {
            EventView::Usage { output_tokens, .. } => output_tokens as int,
            _ => 0,
        }
    }
}

/// The number of prompts among the events.
pub open spec fn prompt_count(events: Seq<EventView>) -> nat
    decreases events.len(),
{
    if events.len() == 0 {
        0
    } else {
        prompt_count(events.drop_last()) + if events.last() is UserPrompt {
            1nat
        } else {
            0nat
        }
    }
}

/// The number of tool calls among the events.
pub open spec fn call_count(events: Seq<EventView>) -> nat
    decreases events.len(),
{
    if events.len() == 0 {
        0
    } else {
        call_count(events.drop_last()) + if events.last() is ToolCall {
            1nat
        } else {
            0nat
        }
    }
}

/// The number of interruptions among the events.
pub open spec fn interruption_count(events: Seq<EventView>) -> nat
    decreases events.len(),
{
    if events.len() == 0 {
        0
    } else {
        interruption_count(events.drop_last()) + if events.last() is Interrupted {
            1nat
        } else {
            0nat
        }
    }
}

/// The input tokens that the events report.
pub open spec fn reported_input(events: Seq<EventView>) -> int
    decreases events.len(),
{
    if events.len() == 0 {
        0
    } else {
        reported_input(events.drop_last()) + match events.last() {
            EventView::Usage { input_tokens, .. } => input_tokens as int,
            _ => 0,
        }
    }
}

/// The events since the last prompt: those of the turn.
pub open spec fn turn_events(events: Seq<EventView>) -> Seq<EventView>
    decreases events.len(),
{
    if events.len() == 0 || events.last() is UserPrompt {
        Seq::empty()
    } else {
        turn_events(events.drop_last()).push(events.last())
    }
}

/// The time of the first prompt.
pub open spec fn first_prompt_time(events: Seq<EventView>) -> Option<Timestamp>
    decreases events.len(),
{
    if events.len() == 0 {
        None
    } else {
        match (first_prompt_time(events.drop_last()), events.last()) {
            (None, EventView::UserPrompt { at }) => Some(at),
            (earlier, _) => earlier,
        }
    }
}

/// The time of the last prompt.
pub open spec fn last_prompt_time(events: Seq<EventView>) -> Option<Timestamp>
    decreases events.len(),
{
    if events.len() == 0 {
        None
    } else {
        match events.last() {
            EventView::UserPrompt { at } => Some(at),
            _ => last_prompt_time(events.drop_last()),
        }
    }
}

/// The counters of a session are the sums over its events, those of a turn the
/// sums over the events since the last prompt, and the session began with its
/// first prompt.
pub proof fn counters_are_sums(session_id: Seq<char>, events: Seq<EventView>)
    ensures
        ({
            let session = SessionView::fresh(session_id).steps(events);
            &&& session.session_id == session_id
            &&& session.prompts == prompt_count(events)
            &&& session.interruptions == interruption_count(events)
            &&& session.input_tokens == reported_input(events)
            &&& session.output_tokens == reported_output(events)
            &&& session.turn_output_tokens == reported_output(turn_events(events))
            &&& session.tools.len() == call_count(events)
            &&& session.started == first_prompt_time(events)
            &&& session.last_prompt_at == last_prompt_time(events)
        }),
    decreases events.len(),
{
    if events.len() > 0 {
        let earlier = events.drop_last();
        counters_are_sums(session_id, earlier);
        assert(turn_events(earlier).push(events.last()).drop_last() == turn_events(earlier));
    }
}

/// True if the event is the edit of this file.
pub open spec fn edits_file(event: EventView, file: Seq<char>) -> bool {
    event matches EventView::ToolCall { name, label, .. } && edits_files(name) && label == file
        && file.len() > 0
}

/// The files of a turn are those that its events edit.
pub proof fn files_are_those_of_the_turn(session_id: Seq<char>, events: Seq<EventView>, file: Seq<char>)
    ensures
        SessionView::fresh(session_id).steps(events).files_this_turn.contains(file)
            <==> exists|i: int|
            0 <= i < turn_events(events).len() && edits_file(#[trigger] turn_events(events)[i], file),
    decreases events.len(),
{
    let files = SessionView::fresh(session_id).steps(events).files_this_turn;
    let turn = turn_events(events);
    if events.len() > 0 && !(events.last() is UserPrompt) {
        let earlier = events.drop_last();
        let before = SessionView::fresh(session_id).steps(earlier).files_this_turn;
        let shorter = turn_events(earlier);
        files_are_those_of_the_turn(session_id, earlier, file);
        assert(turn == shorter.push(events.last()));
        if before.contains(file) {
            let i = choose|i: int| 0 <= i < shorter.len() && edits_file(#[trigger] shorter[i], file);
            assert(edits_file(turn[i], file));
            let j = before.index_of(file);
            assert(files[j] == file);
        } else if edits_file(events.last(), file) {
            assert(turn[shorter.len() as int] == events.last());
            assert(files[before.len() as int] == file);
        } else {
            if files.contains(file) {
                let j = files.index_of(file);
                assert(j < before.len() ==> before[j] == file);
            }
            assert forall|i: int| 0 <= i < turn.len() implies !edits_file(
                #[trigger] turn[i],
                file,
            ) by {
                if i < shorter.len() {
                    assert(turn[i] == shorter[i]);
                }
            }
        }
    }
}

/// Since when the agent waits for the user: since an interruption, or since the
/// end of a turn if it did not wait before. A prompt and a call end the wait.
pub open spec fn waits_after(events: Seq<EventView>) -> Option<Timestamp>
    decreases events.len(),
{
    if events.len() == 0 {
        None
    } else {
        match (events.last(), waits_after(events.drop_last())) {
            (EventView::UserPrompt { .. }, _) => None,
            (EventView::ToolCall { .. }, _) => None,
            (EventView::Interrupted { at }, _) => Some(at),
            (EventView::TurnDone { at }, None) => Some(at),
            (_, since) => since,
        }
    }
}

/// The number of the call, among all calls, that a result with this identifier
/// ends: the last one that had it, if neither a result with it, nor a prompt,
/// nor the end of a turn came since.
pub open spec fn awaited_call(events: Seq<EventView>, id: Seq<char>) -> Option<nat>
    decreases events.len(),
{
    if events.len() == 0 {
        None
    } else {
        let earlier = events.drop_last();
        match events.last() {
            EventView::UserPrompt { .. } => None,
            EventView::TurnDone { .. } => None,
            EventView::ToolCall { id: own, .. } => if own == id && id.len() > 0 {
                Some(call_count(earlier))
            } else {
                awaited_call(earlier, id)
            },
            EventView::ToolResult { id: own, .. } => if own == id {
                None
            } else {
                awaited_call(earlier, id)
            },
            _ => awaited_call(earlier, id),
        }
    }
}

/// How many calls the events before the last prompt or end of a turn hold.
pub open spec fn calls_before(events: Seq<EventView>) -> nat
    decreases events.len(),
{
    if events.len() == 0 {
        0
    } else if events.last() is UserPrompt || events.last() is TurnDone {
        call_count(events)
    } else {
        calls_before(events.drop_last())
    }
}

/// The agent waits as the events say, and a call counts as one of the turn
/// exactly if neither a prompt nor the end of a turn came since.
pub proof fn waits_and_turns_follow_the_events(session_id: Seq<char>, events: Seq<EventView>)
    ensures
        ({
            let session = SessionView::fresh(session_id).steps(events);
            &&& session.waiting_since == waits_after(events)
            &&& session.calls_before_turn == calls_before(events)
        }),
    decreases events.len(),
{
    if events.len() > 0 {
        waits_and_turns_follow_the_events(session_id, events.drop_last());
        counters_are_sums(session_id, events.drop_last());
    }
}

proof fn lemma_calls_grow(events: Seq<EventView>, id: Seq<char>)
    ensures
        awaited_call(events, id) matches Some(call) ==> call < call_count(events),
    decreases events.len(),
{
    if events.len() > 0 {
        lemma_calls_grow(events.drop_last(), id);
    }
}

/// A result ends the call that it belongs to, and no other; a result that
/// belongs to none changes nothing.
pub proof fn results_end_their_call(
    session_id: Seq<char>,
    events: Seq<EventView>,
    at: Timestamp,
    id: Seq<char>,
)
    requires
        call_count(events) <= usize::MAX,
    ensures
        ({
            let session = SessionView::fresh(session_id).steps(events);
            let next = session.step(EventView::ToolResult { at, id });
            match awaited_call(events, id) {
                Some(call) => {
                    &&& call < session.tools.len()
                    &&& next.tools == session.tools.update(
                        call as int,
                        ToolView { done_at: Some(at), ..session.tools[call as int] },
                    )
                },
                None => next == session,
            }
        }),
{
    lemma_open_calls(session_id, events, id);
    lemma_calls_grow(events, id);
    counters_are_sums(session_id, events);
}

proof fn lemma_open_calls(session_id: Seq<char>, events: Seq<EventView>, id: Seq<char>)
    requires
        call_count(events) <= usize::MAX,
    ensures
        ({
            let open = SessionView::fresh(session_id).steps(events).open_tools;
            &&& open.contains_key(id) <==> awaited_call(events, id) is Some
            &&& open.contains_key(id) ==> open[id] == awaited_call(events, id)->0
        }),
    decreases events.len(),
{
    if events.len() > 0 {
        lemma_open_calls(session_id, events.drop_last(), id);
        counters_are_sums(session_id, events.drop_last());
    }
}


/// Taking events in two parts is taking them at once.
pub proof fn events_can_be_taken_in_parts(
    session: SessionView,
    first: Seq<EventView>,
    second: Seq<EventView>,
)
    ensures
        session.steps(first + second) == session.steps(first).steps(second),
    decreases second.len(),
{
    if second.len() == 0 {
        assert(first + second == first);
    } else {
        events_can_be_taken_in_parts(session, first, second.drop_last());
        assert((first + second).drop_last() == first + second.drop_last());
    }
}

/// True if none of the events is prose.
pub open spec fn without_prose(events: Seq<EventView>) -> bool {
    forall|i: int| 0 <= i < events.len() ==> !(#[trigger] events[i] is AssistantText)
}

/// The last words of the agent are those of its last prose, whatever came
/// before and since; without prose there are none.
pub proof fn the_last_words_are_kept(
    session_id: Seq<char>,
    before: Seq<EventView>,
    text: Seq<char>,
    since: Seq<EventView>,
)
    requires
        without_prose(since),
    ensures
        SessionView::fresh(session_id).steps(
            before.push(EventView::AssistantText { text }) + since,
        ).last_assistant_text == Some(text),
        SessionView::fresh(session_id).steps(since).last_assistant_text is None,
{
    let told = before.push(EventView::AssistantText { text });
    let fresh = SessionView::fresh(session_id);
    events_can_be_taken_in_parts(fresh, told, since);
    assert(told.drop_last() == before);
    lemma_words_stay(fresh.steps(told), since);
    lemma_words_stay(fresh, since);
}

proof fn lemma_words_stay(session: SessionView, events: Seq<EventView>)
    requires
        without_prose(events),
    ensures
        session.steps(events).last_assistant_text == session.last_assistant_text,
    decreases events.len(),
{
    if events.len() > 0 {
        let earlier = events.drop_last();
        assert forall|i: int| 0 <= i < earlier.len() implies !(#[trigger] earlier[
            i
        ] is AssistantText) by {
            assert(earlier[i] == events[i]);
        }
        lemma_words_stay(session, earlier);
        assert(!(events[events.len() - 1] is AssistantText));
    }
}

/// The calls of a session are listed as they were made.
pub proof fn calls_are_listed_as_made(
    session: SessionView,
    at: Timestamp,
    id: Seq<char>,
    name: Seq<char>,
    label: Seq<char>,
)
    ensures
        ({
            let next = session.step(EventView::ToolCall { at, id, name, label });
            &&& next.tools.drop_last() == session.tools
            &&& next.tools.len() == session.tools.len() + 1
            &&& next.tools.last().at == at
            &&& next.tools.last().name == name
            &&& next.tools.last().label == label
            &&& next.tools.last().done_at is None
            &&& next.waiting_since is None
        }),
{
    let next = session.step(EventView::ToolCall { at, id, name, label });
    assert(next.tools.drop_last() == session.tools);
}

/// A file that a turn edits is listed behind those before it, and once.
pub proof fn edited_files_are_listed(
    session: SessionView,
    at: Timestamp,
    id: Seq<char>,
    file: Seq<char>,
)
    requires
        file.len() > 0,
    ensures
        forall|name: Seq<char>|
            name == "Edit"@ || name == "Write"@ || name == "NotebookEdit"@ ==> (#[trigger]
            session.step(EventView::ToolCall { at, id, name, label: file })).files_this_turn
                == if session.files_this_turn.contains(file) {
                session.files_this_turn
            } else {
                session.files_this_turn.push(file)
            },
        forall|name: Seq<char>|
            !(name == "Edit"@ || name == "Write"@ || name == "NotebookEdit"@) ==> (#[trigger]
            session.step(
                EventView::ToolCall { at, id, name, label: file },
            )).files_this_turn == session.files_this_turn,
{
}

/// A result that arrives in time ends its call, which then counts as finished
/// at that time, and leaves all other calls alone. Nothing else ends a call.
pub proof fn a_result_in_time_ends_its_call(
    session: SessionView,
    at: Timestamp,
    done: Timestamp,
    id: Seq<char>,
    name: Seq<char>,
    label: Seq<char>,
)
    requires
        id.len() > 0,
        session.tools.len() < usize::MAX,
    ensures
        session.step(EventView::ToolCall { at, id, name, label }).step(
            EventView::ToolResult { at: done, id },
        ).tools == session.tools.push(ToolView { at, name, label, done_at: Some(done) }),
{
    let called = session.step(EventView::ToolCall { at, id, name, label });
    let ended = called.step(EventView::ToolResult { at: done, id });
    assert(ended.tools == session.tools.push(ToolView { at, name, label, done_at: Some(done) }));
}

/// The tokens of a message are added to those of the turn and of the session,
/// however many they are, and nothing else changes.
pub proof fn tokens_are_added(session: SessionView, at: Timestamp, input: u64, output: u64)
    ensures
        session.step(EventView::Usage { at, input_tokens: input, output_tokens: output }) == (
        SessionView {
            input_tokens: session.input_tokens + input,
            output_tokens: session.output_tokens + output,
            turn_output_tokens: session.turn_output_tokens + output,
            ..session
        }),
{
}

/// A prompt counts, begins a turn without tokens and files, and banks the whole
/// wait, if there was one. The session began with the first prompt.
pub proof fn a_prompt_begins_a_turn(session: SessionView, at: Timestamp)
    ensures
        ({
            let next = session.step(EventView::UserPrompt { at });
            &&& next.prompts == session.prompts + 1
            &&& next.last_prompt_at == Some(at)
            &&& next.turn_output_tokens == 0
            &&& next.files_this_turn == Seq::<Seq<char>>::empty()
            &&& next.waiting_since is None
            &&& next.started == if session.started is Some {
                session.started
            } else {
                Some(at)
            }
            &&& session.waiting_since is None ==> next.babysit == session.babysit
            &&& session.waiting_since matches Some(since) ==> next.babysit == session.babysit
                + at.nanos_since(since)
            &&& next.tools == session.tools
            &&& next.interruptions == session.interruptions
            &&& next.input_tokens == session.input_tokens
            &&& next.output_tokens == session.output_tokens
            &&& next.last_assistant_text == session.last_assistant_text
            &&& next.session_id == session.session_id
        }),
{
}

/// An interruption counts and makes the agent wait from then on; the end of a
/// turn makes it wait unless it does already. Neither changes the counters of
/// tokens, the calls or the files.
pub proof fn interruptions_and_ends_make_the_agent_wait(session: SessionView, at: Timestamp)
    ensures
        session.step(EventView::Interrupted { at }) == (SessionView {
            interruptions: session.interruptions + 1,
            waiting_since: Some(at),
            ..session
        }),
        ({
            let next = session.step(EventView::TurnDone { at });
            &&& session.waiting_since is None ==> next.waiting_since == Some(at)
            &&& session.waiting_since is Some ==> next.waiting_since == session.waiting_since
            &&& next.babysit == session.babysit
            &&& next.prompts == session.prompts
            &&& next.interruptions == session.interruptions
            &&& next.input_tokens == session.input_tokens
            &&& next.output_tokens == session.output_tokens
            &&& next.turn_output_tokens == session.turn_output_tokens
            &&& next.tools == session.tools
            &&& next.files_this_turn == session.files_this_turn
            &&& next.last_assistant_text == session.last_assistant_text
            &&& next.started == session.started
            &&& next.last_prompt_at == session.last_prompt_at
        }),
{
}

/// What lies between the end of a turn and the next prompt is banked, whatever
/// else the transcript records meanwhile, as long as the agent does not go on.
pub proof fn the_whole_wait_is_banked(
    session: SessionView,
    ended: Timestamp,
    meanwhile: Seq<EventView>,
    at: Timestamp,
)
    requires
        session.waiting_since is None,
        forall|i: int|
            0 <= i < meanwhile.len() ==> (#[trigger] meanwhile[i] is AssistantText
                || meanwhile[i] is ToolResult || meanwhile[i] is Usage || meanwhile[i] is TurnDone),
    ensures
        session.step(EventView::TurnDone { at: ended }).steps(meanwhile).step(
            EventView::UserPrompt { at },
        ).babysit == session.babysit + at.nanos_since(ended),
{
    lemma_still_waiting(session.step(EventView::TurnDone { at: ended }), meanwhile);
}

proof fn lemma_still_waiting(session: SessionView, events: Seq<EventView>)
    requires
        session.waiting_since is Some,
        forall|i: int|
            0 <= i < events.len() ==> (#[trigger] events[i] is AssistantText
                || events[i] is ToolResult || events[i] is Usage || events[i] is TurnDone),
    ensures
        session.steps(events).waiting_since == session.waiting_since,
        session.steps(events).babysit == session.babysit,
    decreases events.len(),
{
    if events.len() > 0 {
        let earlier = events.drop_last();
        assert forall|i: int| 0 <= i < earlier.len() implies (#[trigger] earlier[
            i
        ] is AssistantText || earlier[i] is ToolResult || earlier[i] is Usage || earlier[
            i
        ] is TurnDone) by {
            assert(earlier[i] == events[i]);
        }
        lemma_still_waiting(session, earlier);
        assert(events[events.len() - 1] == events.last());
    }
}

/// Finished calls are listed newest first: one more finished call comes to the
/// front, one without a result is left out.
pub proof fn finished_calls_are_listed(tools: Seq<ToolView>, tool: ToolView)
    ensures
        tool.done_at is Some ==> finished_newest_first(tools.push(tool)) == seq![tool]
            + finished_newest_first(tools),
        tool.done_at is None ==> finished_newest_first(tools.push(tool)) == finished_newest_first(
            tools,
        ),
{
    assert(tools.push(tool).drop_last() == tools);
}

/// The first items of a list are those in front, as many as asked.
pub proof fn first_items_are_in_front<A>(front: Seq<A>, rest: Seq<A>, more: nat)
    ensures
        first_items(front + rest, front.len()) == front,
        first_items(front, front.len() + more) == front,
{
    assert((front + rest).take(front.len() as int) == front);
    assert(rest.len() == 0 ==> front + rest == front);
}


/// Every prompt, call, interruption and token among the events is counted.
pub proof fn counts_grow_with_their_events(events: Seq<EventView>, event: EventView)
    ensures
        prompt_count(events.push(event)) == prompt_count(events) + if event is UserPrompt {
            1nat
        } else {
            0nat
        },
        call_count(events.push(event)) == call_count(events) + if event is ToolCall {
            1nat
        } else {
            0nat
        },
        interruption_count(events.push(event)) == interruption_count(events)
            + if event is Interrupted {
            1nat
        } else {
            0nat
        },
        event matches EventView::Usage { input_tokens, output_tokens, .. } ==> reported_input(
            events.push(event),
        ) == reported_input(events) + input_tokens && reported_output(events.push(event))
            == reported_output(events) + output_tokens,
        !(event is Usage) ==> reported_input(events.push(event)) == reported_input(events)
            && reported_output(events.push(event)) == reported_output(events),
{
    assert(events.push(event).drop_last() == events);
}

/// A result ends its call however late it comes, and whatever other calls and
/// results there are meanwhile, as long as the turn is not over.
pub proof fn results_may_come_late(
    session: SessionView,
    at: Timestamp,
    id: Seq<char>,
    name: Seq<char>,
    label: Seq<char>,
    meanwhile: Seq<EventView>,
    done: Timestamp,
)
    requires
        id.len() > 0,
        session.consistent(),
        session.tools.len() + meanwhile.len() < usize::MAX,
        leaves_the_call(meanwhile, id),
    ensures
        session.step(EventView::ToolCall { at, id, name, label }).steps(meanwhile).step(
            EventView::ToolResult { at: done, id },
        ).tools[session.tools.len() as int] == (ToolView { at, name, label, done_at: Some(done) }),
{
    let called = session.step(EventView::ToolCall { at, id, name, label });
    events_keep_a_session_consistent(session, EventView::ToolCall { at, id, name, label });
    lemma_call_stays_open(called, session.tools.len() as int, id, meanwhile);
}

/// True if none of the events ends the turn, or has to do with the call.
pub open spec fn leaves_the_call(events: Seq<EventView>, id: Seq<char>) -> bool {
    forall|i: int|
        0 <= i < events.len() ==> match #[trigger] events[i] {
            EventView::UserPrompt { .. } => false,
            EventView::TurnDone { .. } => false,
            EventView::ToolCall { id: other, .. } => other != id,
            EventView::ToolResult { id: other, .. } => other != id,
            _ => true,
        }
}

proof fn lemma_call_stays_open(session: SessionView, index: int, id: Seq<char>, events: Seq<EventView>)
    requires
        session.consistent(),
        session.open_tools.contains_key(id),
        session.open_tools[id] == index,
        0 <= index < session.tools.len(),
        session.tools.len() + events.len() <= usize::MAX,
        leaves_the_call(events, id),
    ensures
        ({
            let after = session.steps(events);
            &&& after.consistent()
            &&& after.open_tools.contains_key(id)
            &&& after.open_tools[id] == index
            &&& after.tools.len() <= session.tools.len() + events.len()
            &&& index < after.tools.len()
            &&& after.tools[index] == session.tools[index]
        }),
    decreases events.len(),
{
    if events.len() > 0 {
        let earlier = events.drop_last();
        assert forall|i: int| 0 <= i < earlier.len() implies match #[trigger] earlier[i] {
            EventView::UserPrompt { .. } => false,
            EventView::TurnDone { .. } => false,
            EventView::ToolCall { id: other, .. } => other != id,
            EventView::ToolResult { id: other, .. } => other != id,
            _ => true,
        } by {
            assert(earlier[i] == events[i]);
        }
        lemma_call_stays_open(session, index, id, earlier);
        let before = session.steps(earlier);
        let event = events[events.len() - 1];
        events_keep_a_session_consistent(before, event);
        assert(session.steps(events) == before.step(event));
    }
}

/// A call that names no file is no edit of the turn, and prose changes nothing
/// but the last words.
pub proof fn calls_and_prose_change_nothing_else(
    session: SessionView,
    at: Timestamp,
    id: Seq<char>,
    name: Seq<char>,
    label: Seq<char>,
    text: Seq<char>,
)
    ensures
        session.step(
            EventView::ToolCall { at, id, name, label: Seq::empty() },
        ).files_this_turn == session.files_this_turn,
        ({
            let next = session.step(EventView::ToolCall { at, id, name, label });
            &&& next.babysit == session.babysit
            &&& next.prompts == session.prompts
            &&& next.interruptions == session.interruptions
            &&& next.input_tokens == session.input_tokens
            &&& next.output_tokens == session.output_tokens
            &&& next.turn_output_tokens == session.turn_output_tokens
            &&& next.last_assistant_text == session.last_assistant_text
            &&& next.started == session.started
            &&& next.last_prompt_at == session.last_prompt_at
        }),
        session.step(EventView::AssistantText { text }) == (SessionView {
            last_assistant_text: Some(text),
            ..session
        }),
{
}

/// The counters take whatever they can hold: 64 bits of prompts, interruptions
/// and tokens.
pub proof fn counters_take_what_they_can_hold(
    session: SessionView,
    events: Seq<EventView>,
    event: EventView,
)
    ensures
        event matches EventView::UserPrompt { at } ==> (session.has_room_for(event) <==> (
        session.prompts + 1 <= 0xffff_ffff_ffff_ffff && (session.waiting_since matches Some(since)
            ==> -9_223_372_036_854_775_807_000_000 <= session.babysit + at.nanos_since(since)
            <= 9_223_372_036_854_775_807_000_000))),
        event is Interrupted ==> (session.has_room_for(event) <==> session.interruptions + 1
            <= 0xffff_ffff_ffff_ffff),
        event matches EventView::Usage { input_tokens, output_tokens, .. } ==> (
        session.has_room_for(event) <==> (session.input_tokens + input_tokens
            <= 0xffff_ffff_ffff_ffff && session.output_tokens + output_tokens
            <= 0xffff_ffff_ffff_ffff && session.turn_output_tokens + output_tokens
            <= 0xffff_ffff_ffff_ffff)),
        !(event is UserPrompt || event is Interrupted || event is Usage) ==> session.has_room_for(
            event,
        ),
        session.has_room_for_all(events.push(event)) <==> session.has_room_for_all(events)
            && session.steps(events).has_room_for(event),
        session.has_room_for_all(Seq::empty()),
{
    let all = events.push(event);
    let n = events.len() as int;
    assert(all.take(n) == events);
    assert(all[n] == event);
    assert forall|k: int| 0 <= k < n implies all.take(k) == events.take(k) && all[k] == events[k] by {
    }
    if session.has_room_for_all(all) {
        assert(session.steps(all.take(n)).has_room_for(all[n]));
        assert forall|k: int| 0 <= k < n implies session.steps(
            #[trigger] events.take(k),
        ).has_room_for(events[k]) by {
            assert(session.steps(all.take(k)).has_room_for(all[k]));
        }
    }
    if session.has_room_for_all(events) && session.steps(events).has_room_for(event) {
        assert forall|k: int| 0 <= k < all.len() implies session.steps(
            #[trigger] all.take(k),
        ).has_room_for(all[k]) by {
            if k < n {
                assert(session.steps(events.take(k)).has_room_for(events[k]));
            }
        }
    }
}

} // verus!
