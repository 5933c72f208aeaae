//! JSON values.

use serde_json::Value;
use vstd::prelude::*;
use vstd::string::*;
use crate::text;

verus! {

/// A JSON value.
#[derive(Debug)]
pub enum Json {
    Null,
    Bool(bool),
    /// A number, as far as it is a whole one that fits.
    Number { whole: Option<u64>, signed: Option<i64> },
    Text(String),
    List(Vec<Json>),
    Object(Vec<(String, Json)>),
}

pub ghost enum JsonView {
    Null,
    Bool(bool),
    Number { whole: Option<u64>, signed: Option<i64> },
    Text(Seq<char>),
    List(Seq<JsonView>),
    Object(Seq<(Seq<char>, JsonView)>),
}

impl Json {
    /// The value with its texts taken by their characters.
    pub open spec fn model(self) -> JsonView
        decreases self,
    {
        match self {
            Json::Null => JsonView::Null,
            Json::Bool(b) => JsonView::Bool(b),
            Json::Number { whole, signed } => JsonView::Number { whole, signed },
            Json::Text(s) => JsonView::Text(s@),
            Json::List(v) => JsonView::List(
                Seq::new(
                    v@.len(),
                    |i: int|
                        if 0 <= i < v@.len() {
                            v@[i].model()
                        } else {
                            JsonView::Null
                        },
                ),
            ),
            Json::Object(v) => JsonView::Object(
                Seq::new(
                    v@.len(),
                    |i: int|
                        if 0 <= i < v@.len() {
                            (v@[i].0@, v@[i].1.model())
                        } else {
                            (seq![], JsonView::Null)
                        },
                ),
            ),
        }
    }
}

pub open spec fn json_model(r: Result<Json, String>) -> Result<JsonView, Seq<char>> {
    match r {
        Ok(v) => Ok(v.model()),
        Err(e) => Err(e@),
    }
}

/// A JSON value of the parser.
#[verifier::external_type_specification]
#[verifier::external_body]
pub struct ExValue(Value);

/// What `serde_json::from_str` reads out of a line, or why the line is no JSON.
pub uninterp spec fn json_value(line: Seq<char>) -> Result<JsonView, Seq<char>>;

/// The value that a `serde_json::Value` is.
pub uninterp spec fn value_model(v: Value) -> JsonView;

/// Parses a line with `serde_json::from_str` into a `serde_json::Value`. What comes
/// out, the value or the words of the error, depends on the line alone.
#[verifier::external_body]
fn parse_value(line: &str) -> (r: Result<Value, String>)
    ensures
        json_value(line@) == match r {
            Ok(v) => Ok(value_model(v)),
            Err(e) => Err(e@),
        },
{
    serde_json::from_str(line).map_err(|e| e.to_string())
}

/// Takes a `serde_json::Value` apart, variant by variant. A number is what its
/// `as_u64` and `as_i64` say; the members of an object come in the order of the
/// parser's map.
#[verifier::external_body]
fn json_of(v: Value) -> (r: Json)
    ensures
        r.model() == value_model(v),
{
    match v {
        Value::Null => Json::Null,
        Value::Bool(b) => Json::Bool(b),
        Value::Number(n) => Json::Number { whole: n.as_u64(), signed: n.as_i64() },
        Value::String(s) => Json::Text(s),
        Value::Array(a) => Json::List(a.into_iter().map(json_of).collect()),
        Value::Object(m) => Json::Object(m.into_iter().map(|(k, v)| (k, json_of(v))).collect()),
    }
}

/// Parse a line of JSON.
pub fn parse_json(line: &str) -> (r: Result<Json, String>)
    ensures
        json_model(r) == json_value(line@),
{
    match parse_value(line) {
        Ok(v) => Ok(json_of(v)),
        Err(e) => Err(e),
    }
}

/// The value of the first member with a name.
pub open spec fn find_member(members: Seq<(Seq<char>, JsonView)>, name: Seq<char>) -> Option<JsonView>
    decreases members.len(),
{
    if members.len() == 0 {
        None
    } else if members[0].0 == name {
        Some(members[0].1)
    } else {
        find_member(members.skip(1), name)
    }
}

/// The member of an object with a name; other values have no members.
pub open spec fn member(v: JsonView, name: Seq<char>) -> Option<JsonView> {
    match v {
        JsonView::Object(members) => find_member(members, name),
        _ => None,
    }
}

pub open spec fn model_of(v: Option<&Json>) -> Option<JsonView> {
    match v {
        Some(j) => Some(j.model()),
        None => None,
    }
}

pub open spec fn text_in(v: Option<JsonView>) -> Option<Seq<char>> {
    match v {
        Some(JsonView::Text(s)) => Some(s),
        _ => None,
    }
}

pub open spec fn bool_in(v: Option<JsonView>) -> Option<bool> {
    match v {
        Some(JsonView::Bool(b)) => Some(b),
        _ => None,
    }
}

pub open spec fn whole_in(v: Option<JsonView>) -> Option<u64> {
    match v {
        Some(JsonView::Number { whole, signed: _ }) => whole,
        _ => None,
    }
}

pub open spec fn signed_in(v: Option<JsonView>) -> Option<i64> {
    match v {
        Some(JsonView::Number { whole: _, signed }) => signed,
        _ => None,
    }
}

pub open spec fn list_in(v: Option<JsonView>) -> Option<Seq<JsonView>> {
    match v {
        Some(JsonView::List(items)) => Some(items),
        _ => None,
    }
}

impl Json {
    /// The member of an object with a name.
    pub fn member(&self, name: &str) -> (r: Option<&Json>)
        ensures
            model_of(r) == member(self.model(), name@),
    {
        match self {
            Json::Object(members) => {
                let ghost all = self.model()->Object_0;
                assert(all.skip(0) =~= all);
                for i in 0..members.len()
                    invariant
                        all == self.model()->Object_0,
                        *self == Json::Object(*members),
                        all.len() == members@.len(),
                        find_member(all, name@) == find_member(all.skip(i as int), name@),
                {
                    let ghost rest = all.skip(i as int);
                    assert(rest[0] == all[i as int]);
                    assert(all[i as int] == (members@[i as int].0@, members@[i as int].1.model()));
                    assert(rest.skip(1) =~= all.skip(i + 1));
                    if text::same(members[i].0.as_str(), name) {
                        return Some(&members[i].1);
                    }
                }
                None
            },
            _ => None,
        }
    }

    pub fn as_text(&self) -> (r: Option<String>)
        ensures
            text::option_view(r) == text_in(Some(self.model())),
    {
        match self {
            Json::Text(s) => Some(s.as_str().to_owned()),
            _ => None,
        }
    }

    pub fn as_bool(&self) -> (r: Option<bool>)
        ensures
            r == bool_in(Some(self.model())),
    {
        match self {
            Json::Bool(b) => Some(*b),
            _ => None,
        }
    }

    pub fn as_whole(&self) -> (r: Option<u64>)
        ensures
            r == whole_in(Some(self.model())),
    {
        match self {
            Json::Number { whole, signed: _ } => *whole,
            _ => None,
        }
    }

    pub fn as_signed(&self) -> (r: Option<i64>)
        ensures
            r == signed_in(Some(self.model())),
    {
        match self {
            Json::Number { whole: _, signed } => *signed,
            _ => None,
        }
    }
}

/// Fields of an object that are lists of texts.
pub open spec fn list_texts(lists: Seq<(String, Vec<String>)>) -> Seq<(Seq<char>, Seq<Seq<char>>)> {
    lists.map_values(|f: (String, Vec<String>)| (f.0@, text::texts(f.1@)))
}

/// The names of the fields of an object.
pub open spec fn field_names(
    texts: Seq<(Seq<char>, Seq<char>)>,
    lists: Seq<(Seq<char>, Seq<Seq<char>>)>,
) -> Seq<Seq<char>> {
    texts.map_values(|f: (Seq<char>, Seq<char>)| f.0) + lists.map_values(
        |f: (Seq<char>, Seq<Seq<char>>)| f.0,
    )
}

/// Whether a value is an object with these fields.
pub open spec fn has_fields(
    v: JsonView,
    texts: Seq<(Seq<char>, Seq<char>)>,
    lists: Seq<(Seq<char>, Seq<Seq<char>>)>,
) -> bool {
    &&& forall|i: int|
        0 <= i < texts.len() ==> member(v, #[trigger] texts[i].0) == Some(
            JsonView::Text(texts[i].1),
        )
    &&& forall|i: int|
        0 <= i < lists.len() ==> member(v, #[trigger] lists[i].0) == Some(
            JsonView::List(lists[i].1.map_values(|s: Seq<char>| JsonView::Text(s))),
        )
}

/// Whether an object with these fields is read out of a text, if their names
/// differ.
pub open spec fn reads_back(
    written: Seq<char>,
    texts: Seq<(Seq<char>, Seq<char>)>,
    lists: Seq<(Seq<char>, Seq<Seq<char>>)>,
) -> bool {
    field_names(texts, lists).no_duplicates() ==> match json_value(written) {
        Ok(v) => has_fields(v, texts, lists),
        Err(_) => false,
    }
}

/// How `serde_json` writes an object whose fields are texts and lists of texts.
pub uninterp spec fn json_object(
    texts: Seq<(Seq<char>, Seq<char>)>,
    lists: Seq<(Seq<char>, Seq<Seq<char>>)>,
) -> Seq<char>;

/// Writes an object as JSON: its fields go into a `serde_json::Value`, and that is
/// written by its compact `Display`. What is written depends on the fields alone,
/// and no line ends in it: control characters are escaped. Where the names differ,
/// `serde_json::from_str` reads an object with these fields out of it again.
#[verifier::external_body]
pub(crate) fn write_object(
    texts: &Vec<(String, String)>,
    lists: &Vec<(String, Vec<String>)>,
) -> (r: String)
    ensures
        r@ == json_object(text::pair_texts(texts@), list_texts(lists@)),
        !r@.contains('\n'),
        reads_back(r@, text::pair_texts(texts@), list_texts(lists@)),
{
    let texts = texts.iter().map(|(name, text)| (name.clone(), Value::from(text.as_str())));
    let lists = lists.iter().map(|(name, list)| (name.clone(), Value::from(list.clone())));
    Value::Object(texts.chain(lists).collect()).to_string()
}

/// A member has the value of the first one with its name, and only objects have
/// members.
pub proof fn law_first_member_counts(members: Seq<(Seq<char>, JsonView)>, name: Seq<char>, i: int)
    requires
        0 <= i <= members.len(),
        forall|k: int| 0 <= k < i ==> (#[trigger] members[k]).0 != name,
        i < members.len() ==> members[i].0 == name,
    ensures
        member(JsonView::Object(members), name) == if i < members.len() {
            Some(members[i].1)
        } else {
            None
        },
    decreases members.len(),
{
    if i > 0 {
        let rest = members.skip(1);
        assert(members[0].0 != name);
        assert forall|k: int| 0 <= k < i - 1 implies (#[trigger] rest[k]).0 != name by {
            assert(rest[k] == members[k + 1]);
        }
        law_first_member_counts(rest, name, i - 1);
    }
}

/// A value is read as what it is and as nothing else.
pub proof fn law_values_are_read_as_what_they_are(v: JsonView, name: Seq<char>)
    ensures
        v matches JsonView::Text(s) ==> text_in(Some(v)) == Some(s),
        v matches JsonView::Bool(b) ==> bool_in(Some(v)) == Some(b),
        v matches JsonView::List(items) ==> list_in(Some(v)) == Some(items),
        v matches JsonView::Number { whole, signed } ==> whole_in(Some(v)) == whole && signed_in(
            Some(v),
        ) == signed,
        !(v is Text) ==> text_in(Some(v)) is None,
        !(v is Bool) ==> bool_in(Some(v)) is None,
        !(v is List) ==> list_in(Some(v)) is None,
        !(v is Number) ==> whole_in(Some(v)) is None && signed_in(Some(v)) is None,
        !(v is Object) ==> member(v, name) is None,
        text_in(None) is None && bool_in(None) is None && list_in(None) is None && whole_in(
            None,
        ) is None && signed_in(None) is None,
{
}

} // verus!
