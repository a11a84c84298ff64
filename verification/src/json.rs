//! JSON documents as plain values: what the gateway reads of a provider's
//! replies, and what it builds of its own requests.
use crate::text;
use crate::text::same;
use vstd::prelude::*;

verus! {

/// A JSON value. Of a number, only what it is as an unsigned integer is kept.
pub enum Json {
    Null,
    Bool(bool),
    Number(Option<u64>),
    Str(String),
    Array(Vec<Json>),
    Object(Vec<(String, Json)>),
}

/// A JSON value over mathematical sequences.
pub enum JsonView {
    Null,
    Bool(bool),
    Number(Option<u64>),
    Str(Seq<char>),
    Array(Seq<JsonView>),
    Object(Seq<(Seq<char>, JsonView)>),
}

/// The value over mathematical sequences that a JSON value is.
pub open spec fn tree(j: Json) -> JsonView
    decreases j,
{
    match j {
        Json::Null => JsonView::Null,
        Json::Bool(b) => JsonView::Bool(b),
        Json::Number(n) => JsonView::Number(n),
        Json::Str(s) => JsonView::Str(s@),
        Json::Array(v) => JsonView::Array(
            Seq::new(
                v@.len(),
                |i: int|
                    if 0 <= i < v@.len() {
                        tree(v@[i])
                    } else {
                        JsonView::Null
                    },
            ),
        ),
        Json::Object(v) => JsonView::Object(
            Seq::new(
                v@.len(),
                |i: int|
                    if 0 <= i < v@.len() {
                        (v@[i].0@, tree(v@[i].1))
                    } else {
                        (Seq::empty(), JsonView::Null)
                    },
            ),
        ),
    }
}

impl View for Json {
    type V = JsonView;

    open spec fn view(&self) -> JsonView {
        tree(*self)
    }
}

/// The value of the first entry under `key`.
pub open spec fn lookup(entries: Seq<(Seq<char>, JsonView)>, key: Seq<char>) -> Option<JsonView>
    decreases entries.len(),
{
    if entries.len() == 0 {
        None
    } else if entries[0].0 == key {
        Some(entries[0].1)
    } else {
        lookup(entries.drop_first(), key)
    }
}

impl JsonView {
    /// The member of an object under `key`. Other values have no members.
    pub open spec fn field(self, key: Seq<char>) -> Option<JsonView> {
        match self {
            JsonView::Object(entries) => lookup(entries, key),
            _ => None,
        }
    }

    /// The text of a string.
    pub open spec fn text(self) -> Option<Seq<char>> {
        match self {
            JsonView::Str(s) => Some(s),
            _ => None,
        }
    }

    /// The items of an array.
    pub open spec fn items(self) -> Option<Seq<JsonView>> {
        match self {
            JsonView::Array(v) => Some(v),
            _ => None,
        }
    }

    /// The value of a number that is an unsigned integer.
    pub open spec fn uint(self) -> Option<u64> {
        match self {
            JsonView::Number(n) => n,
            _ => None,
        }
    }

    /// The text of the string under `key`.
    pub open spec fn text_field(self, key: Seq<char>) -> Option<Seq<char>> {
        match self.field(key) {
            Some(v) => v.text(),
            None => None,
        }
    }

    /// The items of the array under `key`.
    pub open spec fn items_field(self, key: Seq<char>) -> Option<Seq<JsonView>> {
        match self.field(key) {
            Some(v) => v.items(),
            None => None,
        }
    }
}

/// The entries of an object, as the view of the object has them.
pub open spec fn entry_views(s: Seq<(String, Json)>) -> Seq<(Seq<char>, JsonView)> {
    s.map_values(|e: (String, Json)| (e.0@, e.1@))
}

/// The view of an array or an object is made of the views of its parts.
pub proof fn lemma_json_view(j: Json)
    ensures
        j matches Json::Array(v) ==> j@ == JsonView::Array(text::views(v@)),
        j matches Json::Object(v) ==> j@ == JsonView::Object(entry_views(v@)),
{
    match j {
        Json::Array(v) => {
            assert(j@->Array_0 =~= text::views(v@));
        },
        Json::Object(v) => {
            assert(j@->Object_0 =~= entry_views(v@));
        },
        _ => {},
    }
}

impl Json {
    /// The member of an object under `key`. Other values have no members.
    pub fn get(&self, key: &str) -> (r: Option<&Json>)
        ensures
            text::opt_view(r) == self@.field(key@),
    {
        proof {
            lemma_json_view(*self);
        }
        match self {
            Json::Object(entries) => {
                let mut i: usize = 0;
                let ghost all = entry_views(entries@);
                assert(all.skip(0) =~= all);
                while i < entries.len()
                    invariant
                        i <= entries@.len(),
                        all == entry_views(entries@),
                        lookup(all.skip(i as int), key@) == lookup(all, key@),
                        self@.field(key@) == lookup(all, key@),
                    decreases entries@.len() - i,
                {
                    assert(all.skip(i as int).drop_first() =~= all.skip(i + 1));
                    let entry = &entries[i];
                    if same(entry.0.as_str(), key) {
                        return Some(&entry.1);
                    }
                    i = i + 1;
                }
                None
            },
            _ => None,
        }
    }

    /// The text of a string.
    pub fn as_str(&self) -> (r: Option<&str>)
        ensures
            text::opt_view(r) == self@.text(),
    {
        match self {
            Json::Str(s) => Some(s.as_str()),
            _ => None,
        }
    }

    /// The items of an array.
    pub fn as_array(&self) -> (r: Option<&Vec<Json>>)
        ensures
            match r {
                Some(v) => self@.items() == Some(text::views(v@)),
                None => self@.items() is None,
            },
    {
        proof {
            lemma_json_view(*self);
        }
        match self {
            Json::Array(v) => Some(v),
            _ => None,
        }
    }

    /// The value of a number that is an unsigned integer.
    pub fn as_u64(&self) -> (r: Option<u64>)
        ensures
            r == self@.uint(),
    {
        match self {
            Json::Number(n) => *n,
            _ => None,
        }
    }

    /// The text of the string under `key`.
    pub fn get_str(&self, key: &str) -> (r: Option<&str>)
        ensures
            text::opt_view(r) == self@.text_field(key@),
    {
        match self.get(key) {
            Some(v) => v.as_str(),
            None => None,
        }
    }
}

/// The JSON string that holds a text.
pub fn json_str(s: &str) -> (j: Json)
    ensures
        j@ == JsonView::Str(s@),
{
    Json::Str(s.to_owned())
}

/// The JSON object with these entries.
pub fn json_object(entries: Vec<(String, Json)>) -> (j: Json)
    ensures
        j@ == JsonView::Object(entry_views(entries@)),
{
    let j = Json::Object(entries);
    proof {
        lemma_json_view(j);
    }
    j
}

/// The JSON array with these items.
pub fn json_array(items: Vec<Json>) -> (j: Json)
    ensures
        j@ == JsonView::Array(text::views(items@)),
{
    let j = Json::Array(items);
    proof {
        lemma_json_view(j);
    }
    j
}

#[verifier::external_type_specification]
#[verifier::external_body]
pub struct ExJsonValue(serde_json::Value);

/// The JSON document that a text is, where it is one.
pub uninterp spec fn json_document(text: Seq<char>) -> Option<JsonView>;

/// The variants of `serde_json::Value`, each as the variant of `Json` with the
/// same parts. A number keeps what `serde_json::Number::as_u64` says of it.
/// Nothing is claimed of the result here; `parse_json` names it.
#[verifier::external_body]
fn json_of_value(value: serde_json::Value) -> (json: Json) {
    match value {
        serde_json::Value::Null => Json::Null,
        serde_json::Value::Bool(b) => Json::Bool(b),
        serde_json::Value::Number(n) => Json::Number(n.as_u64()),
        serde_json::Value::String(s) => Json::Str(s),
        serde_json::Value::Array(items) => Json::Array(items.into_iter().map(json_of_value).collect()),
        serde_json::Value::Object(map) => Json::Object(map.into_iter().map(|(k, v)| (k, json_of_value(v))).collect()),
    }
}

/// `serde_json::from_str` into a `serde_json::Value`: the document that the text
/// is, or `None` where it is not JSON. That is a function of the text alone,
/// named `json_document`.
#[verifier::external_body]
pub(crate) fn parse_json(text: &str) -> (doc: Option<Json>)
    ensures
        text::opt_view(doc) == json_document(text@),
{
    match serde_json::from_str::<serde_json::Value>(text) {
        Ok(value) => Some(json_of_value(value)),
        Err(_) => None,
    }
}

/// The member under a key is the first that stands there. Where none does, and in what is
/// no object, there is none.
pub proof fn law_field(entries: Seq<(Seq<char>, JsonView)>, key: Seq<char>)
    ensures
        match JsonView::Object(entries).field(key) {
            Some(v) => exists|i: int|
                {
                    &&& 0 <= i < entries.len()
                    &&& #[trigger] entries[i] == (key, v)
                    &&& forall|j: int| 0 <= j < i ==> (#[trigger] entries[j]).0 != key
                },
            None => forall|j: int| 0 <= j < entries.len() ==> (#[trigger] entries[j]).0 != key,
        },
    decreases entries.len(),
{
    if entries.len() > 0 {
        if entries[0].0 == key {
            assert(entries[0] == (key, entries[0].1));
        } else {
            let rest = entries.drop_first();
            law_field(rest, key);
            match lookup(rest, key) {
                Some(v) => {
                    let i = choose|i: int|
                        {
                            &&& 0 <= i < rest.len()
                            &&& #[trigger] rest[i] == (key, v)
                            &&& forall|j: int| 0 <= j < i ==> (#[trigger] rest[j]).0 != key
                        };
                    assert(entries[i + 1] == (key, v));
                    assert forall|j: int| 0 <= j < i + 1 implies (#[trigger] entries[j]).0 != key by {
                        if j > 0 {
                            assert(entries[j] == rest[j - 1]);
                        }
                    }
                },
                None => {
                    assert forall|j: int| 0 <= j < entries.len() implies (
                    #[trigger] entries[j]).0 != key by {
                        if j > 0 {
                            assert(entries[j] == rest[j - 1]);
                        }
                    }
                },
            }
        }
    }
}

/// Only an object has members, only a string a text, only an array items, and only a
/// number that is one an unsigned integer.
pub proof fn law_parts(j: JsonView, key: Seq<char>, t: Seq<char>, items: Seq<JsonView>, n: u64)
    ensures
        j.field(key) is Some ==> j is Object,
        j.text() == Some(t) <==> j == JsonView::Str(t),
        j.items() == Some(items) <==> j == JsonView::Array(items),
        j.uint() == Some(n) <==> j == JsonView::Number(Some(n)),
        j.text_field(key) == Some(t) <==> j.field(key) == Some(JsonView::Str(t)),
        j.items_field(key) == Some(items) <==> j.field(key) == Some(JsonView::Array(items)),
{
}

/// A JSON value is seen as what it is, part by part.
pub proof fn law_json_view(j: Json)
    ensures
        match j {
            Json::Null => j@ == JsonView::Null,
            Json::Bool(b) => j@ == JsonView::Bool(b),
            Json::Number(n) => j@ == JsonView::Number(n),
            Json::Str(s) => j@ == JsonView::Str(s@),
            Json::Array(v) => {
                &&& j@ is Array
                &&& j@->Array_0.len() == v@.len()
                &&& forall|i: int| 0 <= i < v@.len() ==> #[trigger] j@->Array_0[i] == v@[i]@
            },
            Json::Object(v) => {
                &&& j@ is Object
                &&& j@->Object_0.len() == v@.len()
                &&& forall|i: int|
                    0 <= i < v@.len() ==> #[trigger] j@->Object_0[i] == (v@[i].0@, v@[i].1@)
            },
        },
{
    lemma_json_view(j);
}

} // verus!
