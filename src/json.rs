//! A JSON document tree held as plain values, and the accessors the graph
//! extractor reads it through.

use vstd::prelude::*;

verus! {

broadcast use vstd::string::group_string_axioms;

/// A JSON number: its value where it is a signed 64-bit integer, and its
/// shortest decimal text (the form in which a fractional value travels on).
pub struct JsonNumber {
    pub int: Option<i64>,
    pub text: String,
}

/// A parsed JSON value. Object members keep the order of the document's map.
pub enum Json {
    Null,
    Bool(bool),
    Number(JsonNumber),
    Str(String),
    Array(Vec<Json>),
    Object(Vec<(String, Json)>),
}

/// The value of the last member of `entries` named `key`.
pub open spec fn lookup(entries: Seq<(String, Json)>, key: Seq<char>) -> Option<Json>
    decreases entries.len(),
{
    if entries.len() == 0 {
        None
    } else if entries.last().0@ == key {
        Some(entries.last().1)
    } else {
        lookup(entries.drop_last(), key)
    }
}

impl Json {
    pub open spec fn entries_of(self) -> Option<Seq<(String, Json)>> {
        match self {
            Json::Object(e) => Some(e@),
            _ => None,
        }
    }

    pub open spec fn items_of(self) -> Option<Seq<Json>> {
        match self {
            Json::Array(a) => Some(a@),
            _ => None,
        }
    }

    pub open spec fn str_of(self) -> Option<Seq<char>> {
        match self {
            Json::Str(s) => Some(s@),
            _ => None,
        }
    }

    pub open spec fn int_of(self) -> Option<i64> {
        match self {
            Json::Number(n) => n.int,
            _ => None,
        }
    }

    pub open spec fn number_text_of(self) -> Option<Seq<char>> {
        match self {
            Json::Number(n) => Some(n.text@),
            _ => None,
        }
    }

    /// The member `key` of an object; `None` for any other value.
    pub open spec fn field(self, key: Seq<char>) -> Option<Json> {
        match self {
            Json::Object(e) => lookup(e@, key),
            _ => None,
        }
    }

    pub fn as_str(&self) -> (r: Option<&String>)
        ensures
            r matches Some(s) ==> self.str_of() == Some(s@),
            r is None ==> self.str_of() is None,
    {
        match self {
            Json::Str(s) => Some(s),
            _ => None,
        }
    }

    pub fn as_i64(&self) -> (r: Option<i64>)
        ensures
            r == self.int_of(),
    {
        match self {
            Json::Number(n) => n.int,
            _ => None,
        }
    }

    pub fn as_number_text(&self) -> (r: Option<&String>)
        ensures
            r matches Some(s) ==> self.number_text_of() == Some(s@),
            r is None ==> self.number_text_of() is None,
    {
        match self {
            Json::Number(n) => Some(&n.text),
            _ => None,
        }
    }

    pub fn as_array(&self) -> (r: Option<&Vec<Json>>)
        ensures
            r matches Some(a) ==> self.items_of() == Some(a@),
            r is None ==> self.items_of() is None,
    {
        match self {
            Json::Array(a) => Some(a),
            _ => None,
        }
    }

    pub fn as_object(&self) -> (r: Option<&Vec<(String, Json)>>)
        ensures
            r matches Some(e) ==> self.entries_of() == Some(e@),
            r is None ==> self.entries_of() is None,
    {
        match self {
            Json::Object(e) => Some(e),
            _ => None,
        }
    }

    pub fn get(&self, key: &str) -> (r: Option<&Json>)
        ensures
            r matches Some(v) ==> self.field(key@) == Some(*v),
            r is None ==> self.field(key@) is None,
    {
        match self {
            Json::Object(entries) => {
                let wanted = key.to_string();
                let mut i: usize = entries.len();
                assert(entries@.take(i as int) == entries@);
                while i > 0
                    invariant
                        i <= entries@.len(),
                        wanted@ == key@,
                        self.field(key@) == lookup(entries@.take(i as int), key@),
                    decreases i,
                {
                    let ghost prefix = entries@.take(i as int);
                    assert(prefix.drop_last() == entries@.take(i - 1));
                    assert(prefix.last() == entries@[i - 1]);
                    if entries[i - 1].0.eq(&wanted) {
                        return Some(&entries[i - 1].1);
                    }
                    i = i - 1;
                }
                None
            },
            _ => None,
        }
    }
}

/// What `serde_json` makes of a JSON text, as a `Json` tree; `None` where it
/// rejects the text.
pub uninterp spec fn parsed_json(text: Seq<char>) -> Option<Json>;

#[verifier::external_type_specification]
#[verifier::external_body]
pub struct ExValue(serde_json::Value);

/// Relies on `serde_json::from_str` into a `serde_json::Value`: the result
/// depends on the text alone. The error is `serde_json`'s own message.
#[verifier::external_body]
pub(crate) fn parse_json(text: &str) -> (r: Result<Json, String>)
    ensures
        r matches Ok(j) ==> parsed_json(text@) == Some(j),
        r is Err ==> parsed_json(text@) is None,
{
    match serde_json::from_str::<serde_json::Value>(text) {
        Ok(v) => Ok(from_value(v)),
        Err(e) => Err(e.to_string()),
    }
}

/// Moves a `serde_json::Value` into a `Json`, variant for variant.
#[verifier::external_body]
fn from_value(v: serde_json::Value) -> Json {
    match v {
        serde_json::Value::Null => Json::Null,
        serde_json::Value::Bool(b) => Json::Bool(b),
        serde_json::Value::Number(n) => Json::Number(JsonNumber { int: n.as_i64(), text: n.to_string() }),
        serde_json::Value::String(s) => Json::Str(s),
        serde_json::Value::Array(a) => Json::Array(a.into_iter().map(from_value).collect()),
        serde_json::Value::Object(m) => Json::Object(m.into_iter().map(|(k, v)| (k, from_value(v))).collect()),
    }
}

} // verus!
