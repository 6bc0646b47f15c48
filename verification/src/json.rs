//! JSON values, as the extraction reads them.

use vstd::prelude::*;

use crate::text::same_text;

verus! {

/// A JSON value. Null, booleans and numbers are not told apart.
pub enum Json {
    Other,
    Text(String),
    List(Vec<Json>),
    Object(Vec<(String, Json)>),
}

/// The texts and values that a `Json` holds.
pub enum JsonView {
    Other,
    Text(Seq<char>),
    List(Seq<JsonView>),
    Object(Seq<(Seq<char>, JsonView)>),
}

impl View for Json {
    type V = JsonView;

    open spec fn view(&self) -> JsonView
        decreases self,
    {
        match self {
            Json::Other => JsonView::Other,
            Json::Text(t) => JsonView::Text(t@),
            Json::List(items) => JsonView::List(
                Seq::new(
                    items@.len(),
                    |i: int|
                        if 0 <= i < items@.len() {
                            items@[i].view()
                        } else {
                            JsonView::Other
                        },
                ),
            ),
            Json::Object(members) => JsonView::Object(
                Seq::new(
                    members@.len(),
                    |i: int|
                        if 0 <= i < members@.len() {
                            (members@[i].0@, members@[i].1.view())
                        } else {
                            (Seq::empty(), JsonView::Other)
                        },
                ),
            ),
        }
    }
}

/// A JSON value as the `serde_json` crate holds it.
#[verifier::external_type_specification]
#[verifier::external_body]
pub struct ExValue(serde_json::Value);

/// What a `serde_json` value holds.
pub uninterp spec fn value_tree(value: serde_json::Value) -> JsonView;

/// The JSON value that a text spells, if it spells one.
pub uninterp spec fn json_document(text: Seq<char>) -> Option<JsonView>;

/// `serde_json::from_str`: whether a text is JSON, and which value it spells, is
/// a function of the text.
#[verifier::external_body]
fn value_from_str(text: &str) -> (result: Option<serde_json::Value>)
    ensures
        match result {
            Some(value) => json_document(text@) == Some(value_tree(value)),
            None => json_document(text@) is None,
        },
{
    serde_json::from_str::<serde_json::Value>(text).ok()
}

/// The variants of `serde_json::Value`, each with what it holds.
#[verifier::external_body]
fn json_of(value: serde_json::Value) -> (result: Json)
    ensures
        result@ == value_tree(value),
{
    match value {
        serde_json::Value::String(t) => Json::Text(t),
        serde_json::Value::Array(items) => Json::List(items.into_iter().map(json_of).collect()),
        serde_json::Value::Object(members) => Json::Object(
            members.into_iter().map(|(key, member)| (key, json_of(member))).collect(),
        ),
        serde_json::Value::Null => Json::Other,
        serde_json::Value::Bool(_) => Json::Other,
        serde_json::Value::Number(_) => Json::Other,
    }
}

/// Parses a JSON text.
pub fn parse_json(text: &str) -> (result: Option<Json>)
    ensures
        match result {
            Some(json) => json_document(text@) == Some(json@),
            None => json_document(text@) is None,
        },
{
    match value_from_str(text) {
        Some(value) => Some(json_of(value)),
        None => None,
    }
}

/// The value of the first member with a key, from an index on.
pub open spec fn member_from(
    members: Seq<(Seq<char>, JsonView)>,
    key: Seq<char>,
    i: int,
) -> Option<JsonView>
    decreases members.len() - i,
{
    if i < 0 || i >= members.len() {
        None
    } else if members[i].0 == key {
        Some(members[i].1)
    } else {
        member_from(members, key, i + 1)
    }
}

impl JsonView {
    /// The value of an object's member with a key.
    pub open spec fn member(self, key: Seq<char>) -> Option<JsonView> {
        match self {
            JsonView::Object(members) => member_from(members, key, 0),
            _ => None,
        }
    }

    /// The text, where the value is one.
    pub open spec fn text(self) -> Option<Seq<char>> {
        match self {
            JsonView::Text(t) => Some(t),
            _ => None,
        }
    }

    /// The text of an object's member with a key.
    pub open spec fn text_member(self, key: Seq<char>) -> Option<Seq<char>> {
        match self.member(key) {
            Some(value) => value.text(),
            None => None,
        }
    }
}

/// The members of an object, key and value each.
proof fn lemma_object_view(json: Json, members: Vec<(String, Json)>)
    requires
        json == Json::Object(members),
    ensures
        json@ matches JsonView::Object(m) && m.len() == members@.len() && forall|j: int|
            0 <= j < m.len() ==> #[trigger] m[j] == (members@[j].0@, members@[j].1@),
{
    reveal_with_fuel(<Json as View>::view, 2);
}

/// The items of a list.
pub(crate) proof fn lemma_list_view(json: Json, items: Vec<Json>)
    requires
        json == Json::List(items),
    ensures
        json@ matches JsonView::List(m) && m.len() == items@.len() && forall|j: int|
            0 <= j < m.len() ==> #[trigger] m[j] == items@[j]@,
{
    reveal_with_fuel(<Json as View>::view, 2);
}

impl Json {
    /// The value of an object's member with a key.
    pub fn get(&self, key: &str) -> (result: Option<&Json>)
        ensures
            match result {
                Some(value) => self@.member(key@) == Some(value@),
                None => self@.member(key@) is None,
            },
    {
        match self {
            Json::Object(members) => {
                proof {
                    lemma_object_view(*self, *members);
                }
                let ghost m = self@->Object_0;
                let mut i: usize = 0;
                while i < members.len()
                    invariant
                        i <= members@.len() == m.len(),
                        self@ == JsonView::Object(m),
                        forall|j: int|
                            0 <= j < m.len() ==> #[trigger] m[j] == (
                                members@[j].0@,
                                members@[j].1@,
                            ),
                        self@.member(key@) == member_from(m, key@, i as int),
                    decreases members@.len() - i,
                {
                    if same_text(members[i].0.as_str(), key) {
                        return Some(&members[i].1);
                    }
                    i += 1;
                }
                None
            },
            _ => None,
        }
    }

    /// The text, where the value is one.
    pub fn as_text(&self) -> (result: Option<&String>)
        ensures
            match result {
                Some(t) => self@.text() == Some(t@),
                None => self@.text() is None,
            },
    {
        match self {
            Json::Text(t) => Some(t),
            _ => None,
        }
    }

    /// The text of an object's member with a key.
    pub fn get_text(&self, key: &str) -> (result: Option<&String>)
        ensures
            match result {
                Some(t) => self@.text_member(key@) == Some(t@),
                None => self@.text_member(key@) is None,
            },
    {
        match self.get(key) {
            Some(value) => value.as_text(),
            None => None,
        }
    }
}

} // verus!
