//! JSON values, as far as transcripts are read: a tree of plain values.
//! `serde_json` does the parsing.

use vstd::prelude::*;

use crate::text::same_text;

verus! {

/// A JSON value. Of a number only its value as an unsigned 64-bit integer is
/// kept, where it has one.
pub enum Json {
    Null,
    Bool(bool),
    Number(Option<u64>),
    Text(String),
    List(Vec<Json>),
    Record(Vec<Member>),
}

/// One member of a JSON object.
pub struct Member {
    pub name: String,
    pub value: Json,
}

/// What a JSON value holds.
pub enum JsonView {
    Null,
    Bool(bool),
    Number(Option<u64>),
    Text(Seq<char>),
    List(Seq<JsonView>),
    Record(Seq<(Seq<char>, JsonView)>),
}

impl View for Json {
    type V = JsonView;

    open spec fn view(&self) -> JsonView {
        json_view(*self)
    }
}

pub open spec fn json_view(value: Json) -> JsonView
    decreases value,
{
    match value {
        Json::Null => JsonView::Null,
        Json::Bool(b) => JsonView::Bool(b),
        Json::Number(n) => JsonView::Number(n),
        Json::Text(s) => JsonView::Text(s@),
        Json::List(items) => JsonView::List(
            Seq::new(
                items@.len(),
                |i: int|
                    if 0 <= i < items@.len() {
                        json_view(items@[i])
                    } else {
                        JsonView::Null
                    },
            ),
        ),
        Json::Record(members) => JsonView::Record(
            Seq::new(
                members@.len(),
                |i: int|
                    if 0 <= i < members@.len() {
                        (members@[i].name@, json_view(members@[i].value))
                    } else {
                        (Seq::empty(), JsonView::Null)
                    },
            ),
        ),
    }
}

/// What the values of a list hold.
pub open spec fn views(items: Seq<Json>) -> Seq<JsonView> {
    Seq::new(items.len(), |i: int| items[i]@)
}

/// The value of the first member with this name; null where there is none.
pub open spec fn first_named(members: Seq<(Seq<char>, JsonView)>, name: Seq<char>) -> JsonView
    decreases members.len(),
{
    if members.len() == 0 {
        JsonView::Null
    } else if members[0].0 == name {
        members[0].1
    } else {
        first_named(members.drop_first(), name)
    }
}

impl JsonView {
    /// The member with this name. A member that is missing is null, as is
    /// every member of what is no object.
    pub open spec fn member(self, name: Seq<char>) -> JsonView {
        match self {
            JsonView::Record(members) => first_named(members, name),
            _ => JsonView::Null,
        }
    }

    pub open spec fn as_text(self) -> Option<Seq<char>> {
        match self {
            JsonView::Text(s) => Some(s),
            _ => None,
        }
    }

    pub open spec fn as_bool(self) -> Option<bool> {
        match self {
            JsonView::Bool(b) => Some(b),
            _ => None,
        }
    }

    pub open spec fn as_u64(self) -> Option<u64> {
        match self {
            JsonView::Number(n) => n,
            _ => None,
        }
    }

    pub open spec fn as_list(self) -> Option<Seq<JsonView>> {
        match self {
            JsonView::List(items) => Some(items),
            _ => None,
        }
    }
}

// ---- outside calls ------------------------------------------------------------

/// A parsed value as `serde_json` holds it.
#[verifier::external_type_specification]
#[verifier::external_body]
pub struct ExValue(serde_json::Value);

/// What a parsed value holds: the literals, the elements of an array in their
/// order, the members of an object in the order of the map.
pub uninterp spec fn parsed_content(value: serde_json::Value) -> JsonView;

/// What a JSON text stands for, where it is one.
pub uninterp spec fn json_of(text: Seq<char>) -> Option<JsonView>;

/// One level of a parsed value.
enum Node {
    Null,
    Bool(bool),
    Number(Option<u64>),
    Text(String),
    List(Vec<serde_json::Value>),
    Record(Vec<(String, serde_json::Value)>),
}

/// True if `node` is the outermost level of a value that holds `content`.
spec fn outermost(node: Node, content: JsonView) -> bool {
    match node {
        Node::Null => content == JsonView::Null,
        Node::Bool(b) => content == JsonView::Bool(b),
        Node::Number(n) => content == JsonView::Number(n),
        Node::Text(s) => content == JsonView::Text(s@),
        Node::List(items) => {
            &&& content is List
            &&& content->List_0.len() == items@.len()
            &&& forall|i: int|
                0 <= i < items@.len() ==> content->List_0[i] == parsed_content(#[trigger] items@[i])
        },
        Node::Record(members) => {
            &&& content is Record
            &&& content->Record_0.len() == members@.len()
            &&& forall|i: int|
                0 <= i < members@.len() ==> content->Record_0[i] == (
                    (#[trigger] members@[i]).0@,
                    parsed_content(members@[i].1),
                )
        },
    }
}

/// Parses JSON text with `serde_json::from_str`. Nothing is claimed of the
/// result but that the same text gives a value that holds the same.
#[verifier::external_body]
fn parse_value(text: &str) -> (value: Option<serde_json::Value>)
    ensures
        match value {
            Some(value) => json_of(text@) == Some(parsed_content(value)),
            None => json_of(text@) is None,
        },
{
    serde_json::from_str::<serde_json::Value>(text).ok()
}

/// Takes the outermost level of a `serde_json::Value` apart. A number is read
/// with `serde_json::Number::as_u64`.
#[verifier::external_body]
fn open_value(value: serde_json::Value) -> (node: Node)
    ensures
        outermost(node, parsed_content(value)),
{
    match value {
        serde_json::Value::Null => Node::Null,
        serde_json::Value::Bool(b) => Node::Bool(b),
        serde_json::Value::Number(n) => Node::Number(n.as_u64()),
        serde_json::Value::String(s) => Node::Text(s),
        serde_json::Value::Array(items) => Node::List(items),
        serde_json::Value::Object(members) => Node::Record(members.into_iter().collect()),
    }
}

// ---- parsing and lookup -------------------------------------------------------

/// The tree of plain values for a parsed value.
fn build(value: serde_json::Value) -> (tree: Json)
    ensures
        tree@ == parsed_content(value),
    decreases parsed_content(value),
{
    let ghost content = parsed_content(value);
    match open_value(value) {
        Node::Null => Json::Null,
        Node::Bool(b) => Json::Bool(b),
        Node::Number(n) => Json::Number(n),
        Node::Text(s) => Json::Text(s),
        Node::List(items) => {
            let mut list: Vec<Json> = Vec::new();
            for item in it: items
                invariant
                    content is List,
                    content == parsed_content(value),
                    it.seq().len() == content->List_0.len(),
                    forall|i: int|
                        0 <= i < it.seq().len() ==> content->List_0[i] == parsed_content(
                            #[trigger] it.seq()[i],
                        ),
                    list@.len() == it.index(),
                    forall|i: int|
                        0 <= i < list@.len() ==> content->List_0[i] == json_view(
                            #[trigger] list@[i],
                        ),
            {
                assert(content->List_0[it.index() as int] == parsed_content(item));
                list.push(build(item));
            }
            let tree = Json::List(list);
            assert(tree@->List_0 == content->List_0);
            tree
        },
        Node::Record(members) => {
            let mut record: Vec<Member> = Vec::new();
            for member in it: members
                invariant
                    content is Record,
                    content == parsed_content(value),
                    it.seq().len() == content->Record_0.len(),
                    forall|i: int|
                        0 <= i < it.seq().len() ==> content->Record_0[i] == (
                            (#[trigger] it.seq()[i]).0@,
                            parsed_content(it.seq()[i].1),
                        ),
                    record@.len() == it.index(),
                    forall|i: int|
                        0 <= i < record@.len() ==> content->Record_0[i] == (
                            (#[trigger] record@[i]).name@,
                            json_view(record@[i].value),
                        ),
            {
                let ghost pair = content->Record_0[it.index() as int];
                let (name, inner) = member;
                assert(pair == (name@, parsed_content(inner)));
                assert(decreases_to!(content => pair));
                assert(decreases_to!(pair => pair.1));
                record.push(Member { name, value: build(inner) });
            }
            let tree = Json::Record(record);
            assert(tree@->Record_0 == content->Record_0);
            tree
        },
    }
}

/// Parses JSON text.
pub fn parse(text: &str) -> (tree: Option<Json>)
    ensures
        match tree {
            Some(tree) => json_of(text@) == Some(tree@),
            None => json_of(text@) is None,
        },
{
    match parse_value(text) {
        Some(value) => Some(build(value)),
        None => None,
    }
}

impl Json {
    /// The member with this name. A member that is missing is null, as is
    /// every member of what is no object.
    pub fn member(&self, name: &str) -> (value: &Json)
        ensures
            value@ == self@.member(name@),
    {
        match self {
            Json::Record(members) => {
                let ghost all = self@->Record_0;
                assert(all.skip(0) == all);
                for i in 0..members.len()
                    invariant
                        self@ == JsonView::Record(all),
                        all.len() == members@.len(),
                        forall|j: int|
                            0 <= j < all.len() ==> #[trigger] all[j] == (
                                members@[j].name@,
                                members@[j].value@,
                            ),
                        self@.member(name@) == first_named(all.skip(i as int), name@),
                {
                    assert(all.skip(i as int)[0] == all[i as int]);
                    assert(all.skip(i as int).drop_first() == all.skip(i + 1));
                    if same_text(members[i].name.as_str(), name) {
                        return &members[i].value;
                    }
                }
                &Json::Null
            },
            _ => &Json::Null,
        }
    }

    /// The characters of a string.
    pub fn as_str(&self) -> (text: Option<&str>)
        ensures
            match text {
                Some(text) => self@.as_text() == Some(text@),
                None => self@.as_text() is None,
            },
    {
        match self {
            Json::Text(s) => Some(s.as_str()),
            _ => None,
        }
    }

    /// The value of a boolean.
    pub fn as_bool(&self) -> (value: Option<bool>)
        ensures
            value == self@.as_bool(),
    {
        match self {
            Json::Bool(b) => Some(*b),
            _ => None,
        }
    }

    /// The value of a number, where it is an unsigned integer of 64 bits.
    pub fn as_u64(&self) -> (value: Option<u64>)
        ensures
            value == self@.as_u64(),
    {
        match self {
            Json::Number(n) => *n,
            _ => None,
        }
    }

    /// The elements of an array.
    pub fn as_array(&self) -> (items: Option<&Vec<Json>>)
        ensures
            match items {
                Some(items) => self@.as_list() == Some(views(items@)),
                None => self@.as_list() is None,
            },
    {
        match self {
            Json::List(items) => {
                assert(self@->List_0 == views(items@));
                Some(items)
            },
            _ => None,
        }
    }

    /// True for an object.
    pub fn is_object(&self) -> (yes: bool)
        ensures
            yes == (self@ is Record),
    {
        match self {
            Json::Record(_) => true,
            _ => false,
        }
    }
}


/// The member with a name is found wherever it stands; a name that none has is
/// null.
pub proof fn members_are_found(
    before: Seq<(Seq<char>, JsonView)>,
    name: Seq<char>,
    value: JsonView,
    after: Seq<(Seq<char>, JsonView)>,
)
    requires
        forall|i: int| 0 <= i < before.len() ==> (#[trigger] before[i]).0 != name,
    ensures
        JsonView::Record(before.push((name, value)) + after).member(name) == value,
        JsonView::Record(before).member(name) == JsonView::Null,
    decreases before.len(),
{
    let all = before.push((name, value)) + after;
    if before.len() == 0 {
        assert(all[0] == (name, value));
    } else {
        let fewer = before.drop_first();
        assert forall|i: int| 0 <= i < fewer.len() implies (#[trigger] fewer[i]).0 != name by {
            assert(fewer[i] == before[i + 1]);
        }
        members_are_found(fewer, name, value, after);
        assert(all[0] == before[0]);
        assert(all.drop_first() == fewer.push((name, value)) + after);
    }
}

/// Values are read as what they are, and as nothing else.
pub proof fn values_are_read_as_what_they_are(
    text: Seq<char>,
    truth: bool,
    number: Option<u64>,
    items: Seq<JsonView>,
    members: Seq<(Seq<char>, JsonView)>,
    name: Seq<char>,
)
    ensures
        JsonView::Text(text).as_text() == Some(text),
        JsonView::Bool(truth).as_bool() == Some(truth),
        JsonView::Number(number).as_u64() == number,
        JsonView::List(items).as_list() == Some(items),
        forall|value: JsonView| !(value is Text) ==> (#[trigger] value.as_text()) is None,
        forall|value: JsonView| !(value is Bool) ==> (#[trigger] value.as_bool()) is None,
        forall|value: JsonView| !(value is Number) ==> (#[trigger] value.as_u64()) is None,
        forall|value: JsonView| !(value is List) ==> (#[trigger] value.as_list()) is None,
        forall|value: JsonView|
            !(value is Record) ==> (#[trigger] value.member(name)) == JsonView::Null,
{
}

} // verus!
