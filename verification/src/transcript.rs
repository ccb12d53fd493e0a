//! Reading session transcripts: from the lines of a JSONL file to the events
//! that they record.
//!
//! Transcripts live under `projects/<sanitized-cwd>/<session>.jsonl` in the
//! directory of the agent and are appended to while a session runs.

use vstd::prelude::*;

use crate::json::{self, Json, JsonView};
use crate::text::{
    begins_with, file_name, files_are_named_behind_the_last_slash, is_blank, is_white_space,
    joined, last_component, lines, lines_of, only, prefixes_leave_a_rest, same_text, squeeze,
    starts_with, texts, trim, trimmed, trimming_takes_off_white_space, truncate, truncated,
    truncation_is_short, truncation_keeps_the_start, uncut, words_of,
};
use crate::time::{parse_rfc3339, rfc3339_time, Timestamp};

verus! {

/// One semantic event pulled out of a transcript line. A single line can
/// yield several events (an assistant message carries usage plus any number
/// of tool calls).
pub enum TranscriptEvent {
    /// A real prompt typed by the user (tool results are not prompts).
    UserPrompt { at: Timestamp },
    /// The user interrupted the agent mid-turn.
    Interrupted { at: Timestamp },
    /// The assistant invoked a tool.
    ToolCall { at: Timestamp, id: String, name: String, label: String },
    /// A tool finished and its result was recorded.
    ToolResult { at: Timestamp, id: String },
    /// Plain assistant prose.
    AssistantText { text: String },
    /// Token usage reported on an assistant message.
    Usage { at: Timestamp, input_tokens: u64, output_tokens: u64 },
    /// The assistant ended its turn and is now waiting on the user.
    TurnDone { at: Timestamp },
}

/// What an event holds.
pub enum EventView {
    UserPrompt { at: Timestamp },
    Interrupted { at: Timestamp },
    ToolCall { at: Timestamp, id: Seq<char>, name: Seq<char>, label: Seq<char> },
    ToolResult { at: Timestamp, id: Seq<char> },
    AssistantText { text: Seq<char> },
    Usage { at: Timestamp, input_tokens: u64, output_tokens: u64 },
    TurnDone { at: Timestamp },
}

impl View for TranscriptEvent {
    type V = EventView;

    open spec fn view(&self) -> EventView {
        match *self {
            TranscriptEvent::UserPrompt { at } => EventView::UserPrompt { at },
            TranscriptEvent::Interrupted { at } => EventView::Interrupted { at },
            TranscriptEvent::ToolCall { at, id, name, label } => EventView::ToolCall {
                at,
                id: id@,
                name: name@,
                label: label@,
            },
            TranscriptEvent::ToolResult { at, id } => EventView::ToolResult { at, id: id@ },
            TranscriptEvent::AssistantText { text } => EventView::AssistantText { text: text@ },
            TranscriptEvent::Usage { at, input_tokens, output_tokens } => EventView::Usage {
                at,
                input_tokens,
                output_tokens,
            },
            TranscriptEvent::TurnDone { at } => EventView::TurnDone { at },
        }
    }
}

/// What the events of a list hold.
pub open spec fn event_views(events: Seq<TranscriptEvent>) -> Seq<EventView> {
    events.map_values(|event: TranscriptEvent| event@)
}

pub open spec fn or_empty(text: Option<Seq<char>>) -> Seq<char> {
    match text {
        Some(text) => text,
        None => Seq::empty(),
    }
}

// ---- tools --------------------------------------------------------------------

/// True for the tools that change files.
pub open spec fn edits_files(name: Seq<char>) -> bool {
    name == "Edit"@ || name == "Write"@ || name == "NotebookEdit"@
}

/// What a tool call is about: the name of the file for file tools, the command
/// on one line for a shell, and so on. Tools that are not known have none.
pub open spec fn tool_subject(name: Seq<char>, input: JsonView) -> Option<Seq<char>> {
    if name == "Read"@ || edits_files(name) {
        match input.member("file_path"@).as_text() {
            Some(path) => last_component(path),
            None => None,
        }
    } else if name == "Bash"@ {
        match input.member("command"@).as_text() {
            Some(command) => Some(joined(words_of(command), seq![' '])),
            None => None,
        }
    } else if name == "Grep"@ || name == "Glob"@ {
        input.member("pattern"@).as_text()
    } else if name == "WebFetch"@ {
        input.member("url"@).as_text()
    } else if name == "Skill"@ {
        input.member("skill"@).as_text()
    } else if name == "Agent"@ || name == "Task"@ {
        input.member("description"@).as_text()
    } else {
        None
    }
}

/// The label of a tool call: its subject in at most 28 characters.
pub open spec fn label_of(name: Seq<char>, input: JsonView) -> Seq<char> {
    truncated(or_empty(tool_subject(name, input)), 28)
}

/// True for tools that mutate files; used for the files of the current turn and
/// for the historical churn.
pub fn is_file_edit(name: &str) -> (yes: bool)
    ensures
        yes == edits_files(name@),
{
    same_text(name, "Edit") || same_text(name, "Write") || same_text(name, "NotebookEdit")
}

/// The text of a string member, where it is one.
fn text_member(value: &Json, name: &str) -> (text: Option<String>)
    ensures
        match text {
            Some(text) => value@.member(name@).as_text() == Some(text@),
            None => value@.member(name@).as_text() is None,
        },
{
    match value.member(name).as_str() {
        Some(text) => Some(text.to_owned()),
        None => None,
    }
}

/// True if the member is a string with this text.
fn member_is(value: &Json, name: &str, wanted: &str) -> (yes: bool)
    ensures
        yes == (value@.member(name@).as_text() == Some(wanted@)),
{
    match value.member(name).as_str() {
        Some(text) => same_text(text, wanted),
        None => false,
    }
}

/// A short human label for a tool call: file basename for file tools, command
/// for a shell, cut to 28 characters.
pub fn tool_label(name: &str, input: &Json) -> (label: String)
    ensures
        label@ == label_of(name@, input@),
{
    let subject: Option<String> = if same_text(name, "Read") || is_file_edit(name) {
        match input.member("file_path").as_str() {
            Some(path) => file_name(path),
            None => None,
        }
    } else if same_text(name, "Bash") {
        match input.member("command").as_str() {
            Some(command) => Some(squeeze(command)),
            None => None,
        }
    } else if same_text(name, "Grep") || same_text(name, "Glob") {
        text_member(input, "pattern")
    } else if same_text(name, "WebFetch") {
        text_member(input, "url")
    } else if same_text(name, "Skill") {
        text_member(input, "skill")
    } else if same_text(name, "Agent") || same_text(name, "Task") {
        text_member(input, "description")
    } else {
        None
    };
    let text = match subject {
        Some(text) => text,
        None => String::new(),
    };
    assert(text@ == or_empty(tool_subject(name@, input@)));
    truncate(text.as_str(), 28)
}

// ---- user lines ---------------------------------------------------------------

/// The text that one item of a user message adds to the prompt.
pub open spec fn item_text(item: JsonView) -> Seq<char> {
    if item.member("type"@).as_text() == Some("text"@) {
        or_empty(item.member("text"@).as_text())
    } else {
        Seq::empty()
    }
}

/// The tool result that one item of a user message records, if any.
pub open spec fn item_result(item: JsonView, at: Timestamp) -> Seq<EventView> {
    if item.member("type"@).as_text() == Some("tool_result"@) {
        match item.member("tool_use_id"@).as_text() {
            Some(id) => seq![EventView::ToolResult { at, id }],
            None => Seq::empty(),
        }
    } else {
        Seq::empty()
    }
}

/// The texts of the items, one after the other.
pub open spec fn items_text(items: Seq<JsonView>) -> Seq<char>
    decreases items.len(),
{
    if items.len() == 0 {
        Seq::empty()
    } else {
        items_text(items.drop_last()) + item_text(items.last())
    }
}

/// The tool results of the items, one after the other.
pub open spec fn items_results(items: Seq<JsonView>, at: Timestamp) -> Seq<EventView>
    decreases items.len(),
{
    if items.len() == 0 {
        Seq::empty()
    } else {
        items_results(items.drop_last(), at) + item_result(items.last(), at)
    }
}

/// The text of a user message.
pub open spec fn message_text(content: JsonView) -> Seq<char> {
    match content {
        JsonView::Text(text) => text,
        JsonView::List(items) => items_text(items),
        _ => Seq::empty(),
    }
}

/// The tool results of a user message.
pub open spec fn message_results(content: JsonView, at: Timestamp) -> Seq<EventView> {
    match content {
        JsonView::List(items) => items_results(items, at),
        _ => Seq::empty(),
    }
}

/// What the user did with a text. What begins with `<` was injected by the
/// harness (command output, caveats, reminders), not typed.
pub open spec fn typed_events(text: Seq<char>, at: Timestamp) -> Seq<EventView> {
    let inner = trimmed(text);
    if begins_with(inner, "[Request interrupted"@) {
        seq![EventView::Interrupted { at }]
    } else if inner.len() > 0 && inner[0] != '<' {
        seq![EventView::UserPrompt { at }]
    } else {
        Seq::empty()
    }
}

/// The events of a user line: its tool results, then what the user did.
pub open spec fn user_events(value: JsonView, at: Timestamp) -> Seq<EventView> {
    if value.member("isMeta"@).as_bool() == Some(true) {
        Seq::empty()
    } else {
        let content = value.member("message"@).member("content"@);
        message_results(content, at) + typed_events(message_text(content), at)
    }
}

/// The events of a user line.
pub fn parse_user(value: &Json, at: Timestamp) -> (events: Vec<TranscriptEvent>)
    ensures
        event_views(events@) == user_events(value@, at),
{
    let mut events: Vec<TranscriptEvent> = Vec::new();
    if let Some(true) = value.member("isMeta").as_bool() {
        assert(event_views(events@) == Seq::<EventView>::empty());
        return events;
    }
    let content = value.member("message").member("content");
    let mut text = String::new();
    if let Some(s) = content.as_str() {
        text.append(s);
        assert(text@ == message_text(content@));
    }
    if let Some(items) = content.as_array() {
        let ghost all = json::views(items@);
        for i in 0..items.len()
            invariant
                all == json::views(items@),
                text@ == items_text(all.take(i as int)),
                event_views(events@) == items_results(all.take(i as int), at),
        {
            let item = &items[i];
            let ghost earlier = event_views(events@);
            proof {
                assert(all.take(i + 1).drop_last() == all.take(i as int));
                assert(all.take(i + 1).last() == item@);
                reveal_strlit("text");
                reveal_strlit("tool_result");
                assert("text"@.len() != "tool_result"@.len());
            }
            if member_is(item, "type", "tool_result") {
                if let Some(id) = text_member(item, "tool_use_id") {
                    events.push(TranscriptEvent::ToolResult { at, id });
                    assert(event_views(events@) == earlier.push(events@.last()@));
                }
            } else if member_is(item, "type", "text") {
                if let Some(s) = item.member("text").as_str() {
                    text.append(s);
                }
            }
            assert(text@ == items_text(all.take(i + 1)));
            assert(event_views(events@) == items_results(all.take(i + 1), at));
        }
        assert(all.take(all.len() as int) == all);
    }
    let ghost earlier = event_views(events@);
    assert(earlier == message_results(content@, at));
    assert(text@ == message_text(content@));
    let text = trim(text.as_str());
    proof {
        reveal_strlit("<");
        assert(begins_with(text@, "<"@) == (text@.len() > 0 && text@[0] == '<')) by {
            assert("<"@ == seq!['<']);
            if text@.len() > 0 {
                assert(text@.take(1) == seq![text@[0]]);
                assert(seq![text@[0]][0] == text@[0]);
                assert(seq!['<'][0] == '<');
            }
        }
    }
    if starts_with(text.as_str(), "[Request interrupted") {
        events.push(TranscriptEvent::Interrupted { at });
        assert(event_views(events@) == earlier.push(events@.last()@));
    } else if !text.as_str().is_empty() && !starts_with(text.as_str(), "<") {
        events.push(TranscriptEvent::UserPrompt { at });
        assert(event_views(events@) == earlier.push(events@.last()@));
    }
    assert(event_views(events@) == user_events(value@, at));
    events
}

// ---- assistant lines ----------------------------------------------------------

/// The token usage that an assistant message reports, if any.
pub open spec fn usage_events(usage: JsonView, at: Timestamp) -> Seq<EventView> {
    if usage is Record {
        seq![
            EventView::Usage {
                at,
                input_tokens: or_zero(usage.member("input_tokens"@).as_u64()),
                output_tokens: or_zero(usage.member("output_tokens"@).as_u64()),
            },
        ]
    } else {
        Seq::empty()
    }
}

pub open spec fn or_zero(number: Option<u64>) -> u64 {
    match number {
        Some(n) => n,
        None => 0,
    }
}

/// The name of the tool that a block invokes.
pub open spec fn block_tool(block: JsonView) -> Seq<char> {
    match block.member("name"@).as_text() {
        Some(name) => name,
        None => "?"@,
    }
}

/// What one block of an assistant message records: a tool call or prose.
pub open spec fn block_events(block: JsonView, at: Timestamp) -> Seq<EventView> {
    let kind = block.member("type"@).as_text();
    if kind == Some("tool_use"@) {
        seq![
            EventView::ToolCall {
                at,
                id: or_empty(block.member("id"@).as_text()),
                name: block_tool(block),
                label: label_of(block_tool(block), block.member("input"@)),
            },
        ]
    } else if kind == Some("text"@) && trimmed(or_empty(block.member("text"@).as_text())).len() > 0 {
        seq![
            EventView::AssistantText { text: trimmed(or_empty(block.member("text"@).as_text())) },
        ]
    } else {
        Seq::empty()
    }
}

/// The events of the blocks, one after the other.
pub open spec fn blocks_events(blocks: Seq<JsonView>, at: Timestamp) -> Seq<EventView>
    decreases blocks.len(),
{
    if blocks.len() == 0 {
        Seq::empty()
    } else {
        blocks_events(blocks.drop_last(), at) + block_events(blocks.last(), at)
    }
}

/// The events of the content of an assistant message.
pub open spec fn content_events(content: JsonView, at: Timestamp) -> Seq<EventView> {
    match content {
        JsonView::List(blocks) => blocks_events(blocks, at),
        _ => Seq::empty(),
    }
}

/// The end of the turn, where the message says so.
pub open spec fn stop_events(message: JsonView, at: Timestamp) -> Seq<EventView> {
    if message.member("stop_reason"@).as_text() == Some("end_turn"@) {
        seq![EventView::TurnDone { at }]
    } else {
        Seq::empty()
    }
}

/// The events of an assistant line: usage, then the blocks, then the end of
/// the turn.
pub open spec fn assistant_events(value: JsonView, at: Timestamp) -> Seq<EventView> {
    let message = value.member("message"@);
    usage_events(message.member("usage"@), at) + content_events(message.member("content"@), at)
        + stop_events(message, at)
}

/// Appends what one block of an assistant message records.
fn push_block(events: &mut Vec<TranscriptEvent>, block: &Json, at: Timestamp)
    ensures
        event_views(final(events)@) == event_views(old(events)@) + block_events(block@, at),
{
    let ghost earlier = event_views(events@);
    proof {
        reveal_strlit("text");
        reveal_strlit("tool_use");
        assert("text"@.len() != "tool_use"@.len());
    }
    if member_is(block, "type", "tool_use") {
        let name = match text_member(block, "name") {
            Some(name) => name,
            None => "?".to_owned(),
        };
        let id = match text_member(block, "id") {
            Some(id) => id,
            None => String::new(),
        };
        let label = tool_label(name.as_str(), block.member("input"));
        events.push(TranscriptEvent::ToolCall { at, id, name, label });
        assert(event_views(events@) == earlier.push(events@.last()@));
    } else if member_is(block, "type", "text") {
        if let Some(s) = block.member("text").as_str() {
            let text = trim(s);
            if !text.as_str().is_empty() {
                events.push(TranscriptEvent::AssistantText { text });
                assert(event_views(events@) == earlier.push(events@.last()@));
            }
        }
    }
    assert(event_views(events@) == earlier + block_events(block@, at));
}

/// The events of an assistant line.
pub fn parse_assistant(value: &Json, at: Timestamp) -> (events: Vec<TranscriptEvent>)
    ensures
        event_views(events@) == assistant_events(value@, at),
{
    let message = value.member("message");
    let mut events: Vec<TranscriptEvent> = Vec::new();
    let usage = message.member("usage");
    if usage.is_object() {
        let input_tokens: u64 = usage.member("input_tokens").as_u64().unwrap_or(0);
        let output_tokens: u64 = usage.member("output_tokens").as_u64().unwrap_or(0);
        events.push(TranscriptEvent::Usage { at, input_tokens, output_tokens });
    }
    let ghost reported = event_views(events@);
    assert(reported == usage_events(usage@, at));
    if let Some(blocks) = message.member("content").as_array() {
        let ghost all = json::views(blocks@);
        for i in 0..blocks.len()
            invariant
                all == json::views(blocks@),
                event_views(events@) == reported + blocks_events(all.take(i as int), at),
        {
            push_block(&mut events, &blocks[i], at);
            assert(all.take(i + 1).drop_last() == all.take(i as int));
            assert(all.take(i + 1).last() == blocks@[i as int]@);
        }
        assert(all.take(all.len() as int) == all);
    }
    let ghost earlier = event_views(events@);
    assert(earlier == reported + content_events(message@.member("content"@), at));
    if member_is(message, "stop_reason", "end_turn") {
        events.push(TranscriptEvent::TurnDone { at });
        assert(event_views(events@) == earlier.push(events@.last()@));
    }
    assert(event_views(events@) == assistant_events(value@, at));
    events
}

// ---- lines --------------------------------------------------------------------

/// The events of a parsed line. A line without a time or of another kind has
/// none.
pub open spec fn record_events(value: JsonView) -> Seq<EventView> {
    match value.member("timestamp"@).as_text() {
        Some(text) => match rfc3339_time(text) {
            Some(at) => dated_events(value, at),
            None => Seq::empty(),
        },
        None => Seq::empty(),
    }
}

/// The events of a parsed line with its time.
pub open spec fn dated_events(value: JsonView, at: Timestamp) -> Seq<EventView> {
    let kind = value.member("type"@).as_text();
    if kind == Some("user"@) {
        user_events(value, at)
    } else if kind == Some("assistant"@) {
        assistant_events(value, at)
    } else {
        Seq::empty()
    }
}

/// The events of a line. A line that is no JSON has none.
pub open spec fn line_events(line: Seq<char>) -> Seq<EventView> {
    match json::json_of(line) {
        Some(value) => record_events(value),
        None => Seq::empty(),
    }
}

/// The events of the lines, one after the other.
pub open spec fn lines_events(lines: Seq<Seq<char>>) -> Seq<EventView>
    decreases lines.len(),
{
    if lines.len() == 0 {
        Seq::empty()
    } else {
        lines_events(lines.drop_last()) + line_events(lines.last())
    }
}

/// The events of a parsed line whose time is known.
pub fn parse_dated(value: &Json, at: Timestamp) -> (events: Vec<TranscriptEvent>)
    ensures
        event_views(events@) == dated_events(value@, at),
{
    if member_is(value, "type", "user") {
        parse_user(value, at)
    } else if member_is(value, "type", "assistant") {
        parse_assistant(value, at)
    } else {
        let events: Vec<TranscriptEvent> = Vec::new();
        assert(event_views(events@) == Seq::<EventView>::empty());
        events
    }
}

/// The events of a parsed line. A line without a time or of another kind has
/// none.
pub fn parse_record(value: &Json) -> (events: Vec<TranscriptEvent>)
    ensures
        event_views(events@) == record_events(value@),
{
    if let Some(text) = value.member("timestamp").as_str() {
        if let Some(at) = parse_rfc3339(text) {
            return parse_dated(value, at);
        }
    }
    let events: Vec<TranscriptEvent> = Vec::new();
    assert(event_views(events@) == Seq::<EventView>::empty());
    events
}

/// Parses one transcript line into zero or more events. Unknown or malformed
/// lines are skipped: the transcript format is not a public contract, so
/// tolerance beats strictness here.
pub fn parse_line(line: &str) -> (events: Vec<TranscriptEvent>)
    ensures
        event_views(events@) == line_events(line@),
{
    match json::parse(line) {
        Some(value) => parse_record(&value),
        None => {
            let events: Vec<TranscriptEvent> = Vec::new();
            assert(event_views(events@) == Seq::<EventView>::empty());
            events
        },
    }
}

/// Appends the events of a line.
fn push_line(events: &mut Vec<TranscriptEvent>, line: &str)
    ensures
        event_views(final(events)@) == event_views(old(events)@) + line_events(line@),
{
    let ghost earlier = event_views(events@);
    let mut more = parse_line(line);
    let ghost added = event_views(more@);
    events.append(&mut more);
    assert(event_views(events@) == earlier + added);
}

/// The events of a whole transcript.
pub fn parse_text(text: &str) -> (events: Vec<TranscriptEvent>)
    ensures
        event_views(events@) == lines_events(lines_of(text@)),
{
    let all = lines(text);
    let ghost views = texts(all@);
    let mut events: Vec<TranscriptEvent> = Vec::new();
    for i in 0..all.len()
        invariant
            views == texts(all@),
            event_views(events@) == lines_events(views.take(i as int)),
    {
        push_line(&mut events, all[i].as_str());
        assert(views.take(i + 1).drop_last() == views.take(i as int));
        assert(views.take(i + 1).last() == all@[i as int]@);
    }
    assert(views.take(views.len() as int) == views);
    events
}

// ---- laws ---------------------------------------------------------------------

/// The time of an event; prose has none.
pub open spec fn event_time(event: EventView) -> Option<Timestamp> {
    match event {
        EventView::UserPrompt { at } => Some(at),
        EventView::Interrupted { at } => Some(at),
        EventView::ToolCall { at, .. } => Some(at),
        EventView::ToolResult { at, .. } => Some(at),
        EventView::AssistantText { .. } => None,
        EventView::Usage { at, .. } => Some(at),
        EventView::TurnDone { at } => Some(at),
    }
}

/// True for what a user does: to prompt or to interrupt.
pub open spec fn is_typed(event: EventView) -> bool {
    event is UserPrompt || event is Interrupted
}

/// All events of a line have the time of the line.
pub proof fn events_have_the_time_of_their_line(value: JsonView, at: Timestamp, i: int)
    requires
        0 <= i < dated_events(value, at).len(),
    ensures
        event_time(dated_events(value, at)[i]) matches Some(time) ==> time == at,
{
    let kind = value.member("type"@).as_text();
    if kind == Some("user"@) {
        let content = value.member("message"@).member("content"@);
        let results = message_results(content, at);
        if i < results.len() {
            lemma_results(content->List_0, at, i);
        }
    } else {
        let message = value.member("message"@);
        let usage = usage_events(message.member("usage"@), at);
        let content = message.member("content"@);
        if usage.len() <= i < usage.len() + content_events(content, at).len() {
            lemma_blocks(content->List_0, at, i - usage.len());
        }
    }
}

proof fn lemma_results(items: Seq<JsonView>, at: Timestamp, i: int)
    requires
        0 <= i < items_results(items, at).len(),
    ensures
        items_results(items, at)[i] is ToolResult,
        event_time(items_results(items, at)[i]) == Some(at),
    decreases items.len(),
{
    if items.len() > 0 && i < items_results(items.drop_last(), at).len() {
        lemma_results(items.drop_last(), at, i);
    }
}

proof fn lemma_blocks(blocks: Seq<JsonView>, at: Timestamp, i: int)
    requires
        0 <= i < blocks_events(blocks, at).len(),
    ensures
        blocks_events(blocks, at)[i] is ToolCall || blocks_events(blocks, at)[i] is AssistantText,
        event_time(blocks_events(blocks, at)[i]) matches Some(time) ==> time == at,
    decreases blocks.len(),
{
    if blocks.len() > 0 && i < blocks_events(blocks.drop_last(), at).len() {
        lemma_blocks(blocks.drop_last(), at, i);
    }
}

/// A user line holds one prompt or one interruption at most, as its last event,
/// and a prompt only where there is text that the user typed: tool results are
/// no prompts, nor is what the harness injected.
pub proof fn prompts_are_typed(value: JsonView, at: Timestamp, i: int)
    requires
        0 <= i < user_events(value, at).len(),
    ensures
        is_typed(user_events(value, at)[i]) ==> i == user_events(value, at).len() - 1,
        user_events(value, at)[i] is UserPrompt ==> {
            let text = trimmed(message_text(value.member("message"@).member("content"@)));
            text.len() > 0 && text[0] != '<' && !begins_with(text, "[Request interrupted"@)
        },
{
    let content = value.member("message"@).member("content"@);
    let results = message_results(content, at);
    if i < results.len() {
        lemma_results(content->List_0, at, i);
    }
}

/// Nothing in an assistant line was typed by the user.
pub proof fn assistant_lines_hold_no_prompts(value: JsonView, at: Timestamp, i: int)
    requires
        0 <= i < assistant_events(value, at).len(),
    ensures
        !is_typed(assistant_events(value, at)[i]),
{
    let message = value.member("message"@);
    let usage = usage_events(message.member("usage"@), at);
    let content = message.member("content"@);
    if usage.len() <= i < usage.len() + content_events(content, at).len() {
        lemma_blocks(content->List_0, at, i - usage.len());
    }
}

/// A message that the harness marks as its own has no events.
pub proof fn meta_lines_have_no_events(value: JsonView, at: Timestamp)
    requires
        value.member("isMeta"@).as_bool() == Some(true),
    ensures
        user_events(value, at).len() == 0,
{
}

/// The label of a tool call has at most 28 characters.
pub proof fn labels_are_short(name: Seq<char>, input: JsonView)
    ensures
        label_of(name, input).len() <= 28,
{
    truncation_is_short(or_empty(tool_subject(name, input)), 28);
}


// ---- what the lines record ----------------------------------------------------

/// The record of an assistant message as the agent writes it.
pub open spec fn written_assistant(
    timestamp: Seq<char>,
    input: u64,
    output: u64,
    blocks: Seq<JsonView>,
    stop_reason: JsonView,
) -> JsonView {
    JsonView::Record(
        seq![
            ("type"@, JsonView::Text("assistant"@)),
            ("timestamp"@, JsonView::Text(timestamp)),
            (
                "message"@,
                JsonView::Record(
                    seq![
                        (
                            "usage"@,
                            JsonView::Record(
                                seq![
                                    ("input_tokens"@, JsonView::Number(Some(input))),
                                    ("output_tokens"@, JsonView::Number(Some(output))),
                                ],
                            ),
                        ),
                        ("content"@, JsonView::List(blocks)),
                        ("stop_reason"@, stop_reason),
                    ],
                ),
            ),
        ],
    )
}

proof fn lemma_record_names_differ()
    ensures
        "type"@ != "timestamp"@,
        "type"@ != "message"@,
        "timestamp"@ != "message"@,
        "usage"@ != "content"@,
        "usage"@ != "stop_reason"@,
        "content"@ != "stop_reason"@,
        "input_tokens"@ != "output_tokens"@,
        "user"@ != "assistant"@,
        "tool_use"@ != "text"@,
        "tool_result"@ != "text"@,
        "type"@ != "text"@,
        "type"@ != "id"@,
        "type"@ != "name"@,
        "type"@ != "input"@,
        "type"@ != "tool_use_id"@,
        "id"@ != "name"@,
        "id"@ != "input"@,
        "name"@ != "input"@,
{
    reveal_strlit("type");
    reveal_strlit("timestamp");
    reveal_strlit("message");
    reveal_strlit("usage");
    reveal_strlit("content");
    reveal_strlit("stop_reason");
    reveal_strlit("input_tokens");
    reveal_strlit("output_tokens");
    reveal_strlit("user");
    reveal_strlit("assistant");
    reveal_strlit("tool_use");
    reveal_strlit("tool_result");
    reveal_strlit("text");
    reveal_strlit("id");
    reveal_strlit("name");
    reveal_strlit("input");
    reveal_strlit("tool_use_id");
    assert("type"@.len() == 4 && "timestamp"@.len() == 9 && "message"@.len() == 7);
    assert("usage"@.len() == 5 && "content"@.len() == 7 && "stop_reason"@.len() == 11);
    assert("input_tokens"@.len() == 12 && "output_tokens"@.len() == 13);
    assert("user"@.len() == 4 && "assistant"@.len() == 9);
    assert("tool_use"@.len() == 8 && "tool_result"@.len() == 11 && "text"@.len() == 4);
    assert("id"@.len() == 2 && "name"@.len() == 4 && "input"@.len() == 5);
    assert("tool_use_id"@.len() == 11);
    assert("type"@[1] == 'y' && "text"@[1] == 'e');
    assert("type"@[0] == 't' && "name"@[0] == 'n');
}

/// An assistant message records the tokens that it reports, as they are, then
/// its blocks, then the end of the turn where it stops for that reason; all at
/// the time of the line.
pub proof fn assistant_messages_are_recorded(
    timestamp: Seq<char>,
    at: Timestamp,
    input: u64,
    output: u64,
    blocks: Seq<JsonView>,
    stop_reason: JsonView,
)
    requires
        rfc3339_time(timestamp) == Some(at),
    ensures
        record_events(written_assistant(timestamp, input, output, blocks, stop_reason)) == seq![
            EventView::Usage { at, input_tokens: input, output_tokens: output },
        ] + blocks_events(blocks, at) + if stop_reason == JsonView::Text("end_turn"@) {
            seq![EventView::TurnDone { at }]
        } else {
            Seq::empty()
        },
{
    lemma_record_names_differ();
    reveal_with_fuel(json::first_named, 4);
    let value = written_assistant(timestamp, input, output, blocks, stop_reason);
    let members = value->Record_0;
    assert(members.drop_first()[0] == members[1]);
    assert(members.drop_first().drop_first()[0] == members[2]);
    let message = members[2].1;
    assert(value.member("message"@) == message);
    assert(value.member("type"@) == JsonView::Text("assistant"@));
    assert(value.member("timestamp"@) == JsonView::Text(timestamp));
    let parts = message->Record_0;
    assert(parts.drop_first()[0] == parts[1]);
    assert(parts.drop_first().drop_first()[0] == parts[2]);
    let usage = parts[0].1;
    assert(message.member("usage"@) == usage);
    assert(message.member("content"@) == JsonView::List(blocks));
    assert(message.member("stop_reason"@) == stop_reason);
    let numbers = usage->Record_0;
    assert(numbers.drop_first()[0] == numbers[1]);
    assert(usage.member("input_tokens"@) == JsonView::Number(Some(input)));
    assert(usage.member("output_tokens"@) == JsonView::Number(Some(output)));
    assert(stop_reason == JsonView::Text("end_turn"@) <==> stop_reason.as_text() == Some(
        "end_turn"@,
    ));
}

/// Wherever the tokens of a message stand in its record, they are the first that
/// it records; without a report of usage it records none.
pub proof fn reported_tokens_are_recorded(value: JsonView, at: Timestamp, input: u64, output: u64)
    ensures
        ({
            let usage = value.member("message"@).member("usage"@);
            &&& usage.member("input_tokens"@) == JsonView::Number(Some(input)) && usage.member(
                "output_tokens"@,
            ) == JsonView::Number(Some(output)) ==> assistant_events(value, at).len() > 0
                && assistant_events(value, at)[0] == (EventView::Usage {
                at,
                input_tokens: input,
                output_tokens: output,
            })
            &&& !(usage is Record) ==> forall|i: int|
                0 <= i < assistant_events(value, at).len() ==> !(#[trigger] assistant_events(
                    value,
                    at,
                )[i] is Usage)
        }),
{
    let message = value.member("message"@);
    let usage = message.member("usage"@);
    if !(usage is Record) {
        let content = message.member("content"@);
        assert forall|i: int| 0 <= i < assistant_events(value, at).len() implies !(
        #[trigger] assistant_events(value, at)[i] is Usage) by {
            if i < content_events(content, at).len() {
                lemma_blocks(content->List_0, at, i);
            }
        }
    }
}

/// The blocks of a message are recorded in their order: a tool call with its
/// identifier, its name and its label, prose without the white space around it;
/// other blocks record nothing.
pub proof fn blocks_are_recorded(
    blocks: Seq<JsonView>,
    at: Timestamp,
    id: Seq<char>,
    name: Seq<char>,
    input: JsonView,
    before: Seq<char>,
    prose: Seq<char>,
    after: Seq<char>,
    other: JsonView,
)
    requires
        is_blank(before),
        is_blank(after),
        prose.len() > 0,
        !is_white_space(prose[0]),
        !is_white_space(prose.last()),
        other.member("type"@) != JsonView::Text("tool_use"@),
        other.member("type"@) != JsonView::Text("text"@),
    ensures
        blocks_events(Seq::empty(), at) == Seq::<EventView>::empty(),
        blocks_events(
            blocks.push(
                JsonView::Record(
                    seq![
                        ("type"@, JsonView::Text("tool_use"@)),
                        ("id"@, JsonView::Text(id)),
                        ("name"@, JsonView::Text(name)),
                        ("input"@, input),
                    ],
                ),
            ),
            at,
        ) == blocks_events(blocks, at).push(
            EventView::ToolCall { at, id, name, label: label_of(name, input) },
        ),
        blocks_events(
            blocks.push(
                JsonView::Record(
                    seq![
                        ("type"@, JsonView::Text("text"@)),
                        ("text"@, JsonView::Text(before + prose + after)),
                    ],
                ),
            ),
            at,
        ) == blocks_events(blocks, at).push(EventView::AssistantText { text: prose }),
        blocks_events(blocks.push(other), at) == blocks_events(blocks, at),
{
    lemma_record_names_differ();
    reveal_with_fuel(json::first_named, 5);
    let call = JsonView::Record(
        seq![
            ("type"@, JsonView::Text("tool_use"@)),
            ("id"@, JsonView::Text(id)),
            ("name"@, JsonView::Text(name)),
            ("input"@, input),
        ],
    );
    let members = call->Record_0;
    assert(members.drop_first()[0] == members[1]);
    assert(members.drop_first().drop_first()[0] == members[2]);
    assert(members.drop_first().drop_first().drop_first()[0] == members[3]);
    assert(call.member("type"@) == JsonView::Text("tool_use"@));
    assert(call.member("id"@) == JsonView::Text(id));
    assert(call.member("name"@) == JsonView::Text(name));
    assert(call.member("input"@) == input);
    let text = JsonView::Record(
        seq![
            ("type"@, JsonView::Text("text"@)),
            ("text"@, JsonView::Text(before + prose + after)),
        ],
    );
    let parts = text->Record_0;
    assert(parts.drop_first()[0] == parts[1]);
    assert(text.member("type"@) == JsonView::Text("text"@));
    assert(text.member("text"@) == JsonView::Text(before + prose + after));
    trimming_takes_off_white_space(before, prose, after);
    assert(blocks.push(call).drop_last() == blocks);
    assert(blocks.push(text).drop_last() == blocks);
    assert(blocks.push(other).drop_last() == blocks);
    let events = blocks_events(blocks, at);
    let called = EventView::ToolCall { at, id, name, label: label_of(name, input) };
    let said = EventView::AssistantText { text: prose };
    assert(events + seq![called] == events.push(called));
    assert(events + seq![said] == events.push(said));
    assert(other.member("type"@).as_text() != Some("tool_use"@));
    assert(other.member("type"@).as_text() != Some("text"@));
    assert(events + Seq::<EventView>::empty() == events);
}

/// Blocks that lack something: a call without an identifier or a name, and prose
/// that is blank.
pub proof fn blocks_may_lack_something(block: JsonView, at: Timestamp, blank: Seq<char>)
    requires
        is_blank(blank),
    ensures
        block.member("type"@) == JsonView::Text("tool_use"@) && !(block.member("id"@) is Text) && !(
        block.member("name"@) is Text) ==> block_events(block, at) == seq![
            EventView::ToolCall {
                at,
                id: Seq::empty(),
                name: "?"@,
                label: label_of("?"@, block.member("input"@)),
            },
        ],
        block.member("type"@) == JsonView::Text("text"@) && block.member("text"@)
            == JsonView::Text(blank) ==> block_events(block, at) == Seq::<EventView>::empty(),
{
    lemma_record_names_differ();
    assert(blank + Seq::<char>::empty() + Seq::<char>::empty() == blank);
    trimming_takes_off_white_space(blank, Seq::empty(), Seq::empty());
}

/// The record of a user message as the agent writes it.
pub open spec fn written_user(timestamp: Seq<char>, content: JsonView) -> JsonView {
    JsonView::Record(
        seq![
            ("type"@, JsonView::Text("user"@)),
            ("timestamp"@, JsonView::Text(timestamp)),
            ("message"@, JsonView::Record(seq![("content"@, content)])),
        ],
    )
}

/// What a user types is a prompt, unless it begins with `<`, which the harness
/// injects, or tells of an interruption. White space around it does not matter;
/// white space alone is nothing.
pub proof fn typed_text_is_a_prompt(
    before: Seq<char>,
    text: Seq<char>,
    after: Seq<char>,
    at: Timestamp,
)
    requires
        is_blank(before),
        is_blank(after),
        text.len() > 0 ==> !is_white_space(text[0]) && !is_white_space(text.last()),
    ensures
        ({
            let events = typed_events(before + text + after, at);
            let interrupted = exists|rest: Seq<char>| #[trigger]
                ("[Request interrupted"@ + rest) == text;
            &&& text.len() == 0 ==> events == Seq::<EventView>::empty()
            &&& interrupted ==> events == seq![EventView::Interrupted { at }]
            &&& text.len() > 0 && text[0] == '<' ==> events == Seq::<EventView>::empty()
            &&& text.len() > 0 && text[0] != '<' && !interrupted ==> events == seq![
                EventView::UserPrompt { at },
            ]
        }),
{
    trimming_takes_off_white_space(before, text, after);
    prefixes_leave_a_rest(text, "[Request interrupted"@);
    reveal_strlit("[Request interrupted");
    assert("[Request interrupted"@.len() == 20);
    if begins_with(text, "[Request interrupted"@) {
        assert(text.take(20)[0] == "[Request interrupted"@[0]);
        assert("[Request interrupted"@[0] == '[');
    }
}

/// A user message records what its text says; a list of items records the tool
/// results among them, in their order, and then what their texts say together.
pub proof fn user_messages_are_recorded(
    timestamp: Seq<char>,
    at: Timestamp,
    text: Seq<char>,
    items: Seq<JsonView>,
)
    requires
        rfc3339_time(timestamp) == Some(at),
    ensures
        record_events(written_user(timestamp, JsonView::Text(text))) == typed_events(text, at),
        record_events(written_user(timestamp, JsonView::List(items))) == items_results(items, at)
            + typed_events(items_text(items), at),
{
    lemma_record_names_differ();
    reveal_strlit("isMeta");
    reveal_strlit("type");
    reveal_strlit("timestamp");
    reveal_strlit("message");
    reveal_with_fuel(json::first_named, 4);
    assert forall|content: JsonView| #[trigger]
        record_events(written_user(timestamp, content)) == message_results(content, at)
            + typed_events(message_text(content), at) by {
        let value = written_user(timestamp, content);
        let members = value->Record_0;
        assert(members.drop_first()[0] == members[1]);
        assert(members.drop_first().drop_first()[0] == members[2]);
        assert(members.drop_first().drop_first().drop_first().len() == 0);
        assert("isMeta"@.len() == 6);
        assert(value.member("isMeta"@) == JsonView::Null);
        assert(value.member("type"@) == JsonView::Text("user"@));
        assert(value.member("timestamp"@) == JsonView::Text(timestamp));
        assert(value.member("message"@) == members[2].1);
        assert(value.member("message"@).member("content"@) == content);
    }
    assert(message_results(JsonView::Text(text), at) + typed_events(text, at) == typed_events(
        text,
        at,
    ));
}

/// The items of a message: a tool result records its identifier, a text adds to
/// the text of the message; other items do neither.
pub proof fn items_are_recorded(
    items: Seq<JsonView>,
    at: Timestamp,
    id: Seq<char>,
    text: Seq<char>,
    other: JsonView,
)
    requires
        other.member("type"@) != JsonView::Text("tool_result"@),
        other.member("type"@) != JsonView::Text("text"@),
    ensures
        ({
            let result = JsonView::Record(
                seq![
                    ("type"@, JsonView::Text("tool_result"@)),
                    ("tool_use_id"@, JsonView::Text(id)),
                ],
            );
            let words = JsonView::Record(
                seq![("type"@, JsonView::Text("text"@)), ("text"@, JsonView::Text(text))],
            );
            &&& items_results(items.push(result), at) == items_results(items, at).push(
                EventView::ToolResult { at, id },
            )
            &&& items_text(items.push(result)) == items_text(items)
            &&& items_results(items.push(words), at) == items_results(items, at)
            &&& items_text(items.push(words)) == items_text(items) + text
            &&& items_results(items.push(other), at) == items_results(items, at)
            &&& items_text(items.push(other)) == items_text(items)
        }),
        items_results(Seq::empty(), at) == Seq::<EventView>::empty(),
        items_text(Seq::empty()) == Seq::<char>::empty(),
{
    lemma_record_names_differ();
    reveal_with_fuel(json::first_named, 3);
    let result = JsonView::Record(
        seq![
            ("type"@, JsonView::Text("tool_result"@)),
            ("tool_use_id"@, JsonView::Text(id)),
        ],
    );
    let words = JsonView::Record(
        seq![("type"@, JsonView::Text("text"@)), ("text"@, JsonView::Text(text))],
    );
    assert(result->Record_0.drop_first()[0] == result->Record_0[1]);
    assert(words->Record_0.drop_first()[0] == words->Record_0[1]);
    assert(result.member("type"@) == JsonView::Text("tool_result"@));
    assert(result.member("tool_use_id"@) == JsonView::Text(id));
    assert(words.member("type"@) == JsonView::Text("text"@));
    assert(words.member("text"@) == JsonView::Text(text));
    assert(items.push(result).drop_last() == items);
    assert(items.push(words).drop_last() == items);
    assert(items.push(other).drop_last() == items);
    let results = items_results(items, at);
    let ended = EventView::ToolResult { at, id };
    assert(results + seq![ended] == results.push(ended));
    assert(results + Seq::<EventView>::empty() == results);
    assert(items_text(items) + Seq::<char>::empty() == items_text(items));
    assert(other.member("type"@).as_text() != Some("tool_result"@));
    assert(other.member("type"@).as_text() != Some("text"@));
}

/// A line records what its JSON says, where it is JSON with a time; the lines of
/// a transcript are taken one after the other.
pub proof fn lines_are_taken_in_turn(lines: Seq<Seq<char>>, line: Seq<char>)
    ensures
        lines_events(Seq::empty()) == Seq::<EventView>::empty(),
        lines_events(lines.push(line)) == lines_events(lines) + line_events(line),
        json::json_of(line) is None ==> line_events(line) == Seq::<EventView>::empty(),
        json::json_of(line) matches Some(value) ==> line_events(line) == record_events(value),
        json::json_of(line) matches Some(value) ==> (!(value.member("timestamp"@) is Text) || (
        value.member("timestamp"@) matches JsonView::Text(time) && rfc3339_time(time) is None))
            ==> line_events(line) == Seq::<EventView>::empty(),
        json::json_of(line) matches Some(value) ==> value.member("type"@) != JsonView::Text(
            "user"@,
        ) && value.member("type"@) != JsonView::Text("assistant"@) ==> line_events(line)
            == Seq::<EventView>::empty(),
{
    assert(lines.push(line).drop_last() == lines);
}

proof fn lemma_tool_names_differ()
    ensures
        "Bash"@ != "Read"@,
        !edits_files("Bash"@),
        !edits_files("Read"@),
        forall|name: Seq<char>|
            name == "Grep"@ || name == "Glob"@ ==> name != "Read"@ && !edits_files(name) && name
                != "Bash"@,
        "WebFetch"@ != "Read"@ && !edits_files("WebFetch"@) && "WebFetch"@ != "Bash"@,
        "WebFetch"@ != "Grep"@ && "WebFetch"@ != "Glob"@,
        "Skill"@ != "Read"@ && !edits_files("Skill"@) && "Skill"@ != "Bash"@,
        "Skill"@ != "Grep"@ && "Skill"@ != "Glob"@ && "Skill"@ != "WebFetch"@,
        forall|name: Seq<char>|
            name == "Agent"@ || name == "Task"@ ==> name != "Read"@ && !edits_files(name) && name
                != "Bash"@ && name != "Grep"@ && name != "Glob"@ && name != "WebFetch"@ && name
                != "Skill"@,
{
    reveal_strlit("Read");
    reveal_strlit("Edit");
    reveal_strlit("Write");
    reveal_strlit("NotebookEdit");
    reveal_strlit("Bash");
    reveal_strlit("Grep");
    reveal_strlit("Glob");
    reveal_strlit("WebFetch");
    reveal_strlit("Skill");
    reveal_strlit("Agent");
    reveal_strlit("Task");
    assert("Write"@.len() == 5 && "NotebookEdit"@.len() == 12 && "WebFetch"@.len() == 8);
    assert("Read"@.len() == 4 && "Edit"@.len() == 4 && "Bash"@.len() == 4 && "Task"@.len() == 4);
    assert("Grep"@.len() == 4 && "Glob"@.len() == 4 && "Skill"@.len() == 5 && "Agent"@.len() == 5);
    assert("Read"@[0] == 'R' && "Edit"@[0] == 'E' && "Write"@[0] == 'W' && "Bash"@[0] == 'B'
        && "Grep"@[0] == 'G' && "Glob"@[0] == 'G' && "Skill"@[0] == 'S' && "Agent"@[0] == 'A'
        && "Task"@[0] == 'T');
}

/// A call of a file tool is labelled with the name of its file, whatever the
/// directory.
pub proof fn file_tools_are_labelled_by_their_file(
    tool: Seq<char>,
    input: JsonView,
    dir: Seq<char>,
    name: Seq<char>,
)
    requires
        tool == "Read"@ || tool == "Edit"@ || tool == "Write"@ || tool == "NotebookEdit"@,
        input.member("file_path"@) == JsonView::Text(dir.push('/') + name) || input.member(
            "file_path"@,
        ) == JsonView::Text(name),
        0 < name.len(),
        uncut(name, only('/')),
        name != seq!['.'],
        name != seq!['.', '.'],
    ensures
        name.len() <= 28 ==> label_of(tool, input) == name,
        name.len() > 28 ==> label_of(tool, input) == name.take(27).push('…'),
{
    files_are_named_behind_the_last_slash(dir, name);
}

/// A call of another tool is labelled with what it is about: the command on one
/// line, the pattern, the address, the skill, or the description. Tools that are
/// not known have no label.
pub proof fn other_tools_are_labelled_by_their_subject(
    tool: Seq<char>,
    input: JsonView,
    command: Seq<char>,
    text: Seq<char>,
)
    requires
        text.len() <= 28,
    ensures
        tool == "Bash"@ && input.member("command"@) == JsonView::Text(command) && joined(
            words_of(command),
            seq![' '],
        ) == text ==> label_of(tool, input) == text,
        (tool == "Grep"@ || tool == "Glob"@) && input.member("pattern"@) == JsonView::Text(text)
            ==> label_of(tool, input) == text,
        tool == "WebFetch"@ && input.member("url"@) == JsonView::Text(text) ==> label_of(
            tool,
            input,
        ) == text,
        tool == "Skill"@ && input.member("skill"@) == JsonView::Text(text) ==> label_of(
            tool,
            input,
        ) == text,
        (tool == "Agent"@ || tool == "Task"@) && input.member("description"@) == JsonView::Text(
            text,
        ) ==> label_of(tool, input) == text,
        tool != "Read"@ && tool != "Edit"@ && tool != "Write"@ && tool != "NotebookEdit"@ && tool
            != "Bash"@ && tool != "Grep"@ && tool != "Glob"@ && tool != "WebFetch"@ && tool
            != "Skill"@ && tool != "Agent"@ && tool != "Task"@ ==> label_of(tool, input)
            == Seq::<char>::empty(),
{
    lemma_tool_names_differ();
}

/// A label that is too long keeps its first 27 characters before an ellipsis.
pub proof fn long_labels_keep_their_start(tool: Seq<char>, input: JsonView, kept: Seq<char>, more: Seq<
    char,
>)
    requires
        tool == "Grep"@ || tool == "Glob"@,
        kept.len() == 27,
        more.len() >= 2,
        input.member("pattern"@) == JsonView::Text(kept + more),
    ensures
        label_of(tool, input) == kept.push('…'),
{
    lemma_tool_names_differ();
    truncation_keeps_the_start(kept, more, 0);
}

/// The tools that change files are these three.
pub proof fn three_tools_change_files(name: Seq<char>)
    ensures
        edits_files(name) <==> name == "Edit"@ || name == "Write"@ || name == "NotebookEdit"@,
{
}

/// A number of tokens that is missing, or is no whole number, counts as none.
pub proof fn missing_tokens_count_as_none(value: JsonView, at: Timestamp, tokens: u64)
    ensures
        ({
            let usage = value.member("message"@).member("usage"@);
            let input = usage.member("input_tokens"@);
            let output = usage.member("output_tokens"@);
            &&& usage is Record && input == JsonView::Number(Some(tokens)) && !(output matches
                JsonView::Number(Some(_))) ==> assistant_events(value, at)[0] == (
            EventView::Usage { at, input_tokens: tokens, output_tokens: 0 })
            &&& usage is Record && output == JsonView::Number(Some(tokens)) && !(input matches
                JsonView::Number(Some(_))) ==> assistant_events(value, at)[0] == (
            EventView::Usage { at, input_tokens: 0, output_tokens: tokens })
        }),
{
}

/// Lines that the harness marks as its own are no prompts, whatever they say;
/// neither is a message without a content. A tool result that names no call is
/// passed over.
pub proof fn unspoken_lines_record_nothing(value: JsonView, item: JsonView, at: Timestamp)
    ensures
        value.member("isMeta"@) == JsonView::Bool(true) ==> user_events(value, at) == Seq::<
            EventView,
        >::empty(),
        value.member("message"@).member("content"@) == JsonView::Null ==> user_events(value, at)
            == Seq::<EventView>::empty(),
        item.member("type"@) == JsonView::Text("tool_result"@) && !(item.member(
            "tool_use_id"@,
        ) is Text) ==> items_results(seq![item], at) == Seq::<EventView>::empty(),
{
    let nothing = Seq::<char>::empty();
    assert(nothing + nothing + nothing == nothing);
    typed_text_is_a_prompt(nothing, nothing, nothing, at);
    reveal_with_fuel(items_results, 2);
    assert(seq![item].drop_last() == Seq::<JsonView>::empty());
    assert(seq![item].last() == item);
    assert(Seq::<EventView>::empty() + Seq::<EventView>::empty() == Seq::<EventView>::empty());
}

/// Without a list of blocks a message records its tokens and its end alone.
pub proof fn messages_without_blocks_record_no_calls(value: JsonView, at: Timestamp)
    requires
        !(value.member("message"@).member("content"@) is List),
    ensures
        assistant_events(value, at) == (if value.member("message"@).member("usage"@) is Record {
            seq![assistant_events(value, at)[0]]
        } else {
            Seq::<EventView>::empty()
        }) + if value.member("message"@).member("stop_reason"@) == JsonView::Text("end_turn"@) {
            seq![EventView::TurnDone { at }]
        } else {
            Seq::<EventView>::empty()
        },
{
    let stop = value.member("message"@).member("stop_reason"@);
    assert(stop == JsonView::Text("end_turn"@) <==> stop.as_text() == Some("end_turn"@));
}

} // verus!
