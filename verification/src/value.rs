//! Structured values: the tree of null, booleans, numbers, strings, arrays
//! and objects that request parameters and bodies are made of.

use crate::error::ConfigError;
use crate::error::Fault;
use vstd::prelude::*;

verus! {

/// A number, held as the text that writes it.
#[derive(Debug, PartialEq, Eq)]
pub struct Number {
    text: String,
}

impl Clone for Number {
    fn clone(&self) -> (copy: Self)
        ensures
            copy == *self,
    {
        Number { text: self.text.clone() }
    }
}

impl View for Number {
    type V = Seq<char>;

    closed spec fn view(&self) -> Seq<char> {
        self.text@
    }
}

/// What `serde_json` makes of a text that is to be a number: the text that
/// writes the number, or what it says against the text.
pub uninterp spec fn json_number(text: Seq<char>) -> Result<Seq<char>, Seq<char>>;

/// `serde_json::Number::from_str`, then `to_string` of the number or of the
/// error: the result is a function of the text alone.
#[verifier::external_body]
pub(crate) fn parse_number(text: &str) -> (r: Result<Number, String>)
    ensures
        match r {
            Ok(n) => json_number(text@) == Ok::<Seq<char>, Seq<char>>(n@),
            Err(reason) => json_number(text@) == Err::<Seq<char>, Seq<char>>(reason@),
        },
{
    match text.parse::<serde_json::Number>() {
        Ok(n) => Ok(Number { text: n.to_string() }),
        Err(e) => Err(e.to_string()),
    }
}

/// `serde_json::Value`, of which nothing is seen but through `json_tree`.
#[verifier::external_type_specification]
#[verifier::external_body]
pub struct ExJsonValue(serde_json::Value);

/// What a `serde_json::Value` holds, part for part: a number as the text
/// that `to_string` writes for it, the members of an object in the order of
/// its map.
pub uninterp spec fn json_tree(json: serde_json::Value) -> Json;

/// What `serde_json` makes of a text that is to be a document: the value
/// that the text writes, or what it says against the text.
pub uninterp spec fn json_document(text: Seq<char>) -> Result<Json, Seq<char>>;

/// `serde_json::from_str` to a `serde_json::Value`, or `to_string` of the
/// error: the result is a function of the text alone.
#[verifier::external_body]
pub(crate) fn read_json(text: &str) -> (r: Result<serde_json::Value, String>)
    ensures
        match r {
            Ok(json) => json_document(text@) == Ok::<Json, Seq<char>>(json_tree(json)),
            Err(reason) => json_document(text@) == Err::<Json, Seq<char>>(reason@),
        },
{
    match serde_json::from_str::<serde_json::Value>(text) {
        Ok(json) => Ok(json),
        Err(e) => Err(e.to_string()),
    }
}

/// A `serde_json::Value` written as a value of this library, part for part.
#[verifier::external_body]
pub(crate) fn from_json(json: &serde_json::Value) -> (value: JsonValue)
    ensures
        value@ == json_tree(*json),
{
    match json {
        serde_json::Value::Null => JsonValue::Null,
        serde_json::Value::Bool(b) => JsonValue::Bool(*b),
        serde_json::Value::Number(n) => JsonValue::Number(Number { text: n.to_string() }),
        serde_json::Value::String(s) => JsonValue::String(s.clone()),
        serde_json::Value::Array(a) => JsonValue::Array(a.iter().map(from_json).collect()),
        serde_json::Value::Object(o) => JsonValue::Object(
            o.iter().map(|(k, v)| (k.clone(), from_json(v))).collect(),
        ),
    }
}

impl JsonValue {
    /// The value that `text` writes as a document.
    pub fn parse(text: &str) -> (r: Result<JsonValue, ConfigError>)
        ensures
            match r {
                Ok(value) => json_document(text@) == Ok::<Json, Seq<char>>(value@),
                Err(e) => json_document(text@) is Err && e@ == Fault::Parse(
                    json_document(text@)->Err_0,
                ),
            },
    {
        match read_json(text) {
            Ok(json) => Ok(from_json(&json)),
            Err(reason) => Err(ConfigError::Parse(reason)),
        }
    }
}

impl Number {
    /// The number that `text` writes, if it writes one.
    pub fn parse(text: &str) -> (r: Option<Number>)
        ensures
            match r {
                Some(n) => json_number(text@) == Ok::<Seq<char>, Seq<char>>(n@),
                None => json_number(text@) is Err,
            },
    {
        match parse_number(text) {
            Ok(n) => Some(n),
            Err(_) => None,
        }
    }

    /// The text that writes the number.
    pub fn as_str(&self) -> (text: &str)
        ensures
            text@ == self@,
    {
        self.text.as_str()
    }
}

/// A structured value. The members of an object keep their order.
#[derive(Debug, PartialEq, Eq)]
pub enum JsonValue {
    Null,
    Bool(bool),
    Number(Number),
    String(String),
    Array(Vec<JsonValue>),
    Object(Vec<(String, JsonValue)>),
}

/// A structured value as contracts see it.
pub enum Json {
    Null,
    Bool(bool),
    Number(Seq<char>),
    Text(Seq<char>),
    Array(Seq<Json>),
    Object(Seq<Member>),
}

/// A member of an object as contracts see it.
pub struct Member {
    pub key: Seq<char>,
    pub value: Json,
}

impl View for JsonValue {
    type V = Json;

    open spec fn view(&self) -> Json
        decreases self,
    {
        match self {
            JsonValue::Null => Json::Null,
            JsonValue::Bool(b) => Json::Bool(*b),
            JsonValue::Number(n) => Json::Number(n@),
            JsonValue::String(s) => Json::Text(s@),
            JsonValue::Array(items) => Json::Array(
                Seq::new(
                    items@.len(),
                    |i: int|
                        if 0 <= i < items@.len() {
                            items@[i].view()
                        } else {
                            Json::Null
                        },
                ),
            ),
            JsonValue::Object(members) => Json::Object(
                Seq::new(
                    members@.len(),
                    |i: int|
                        if 0 <= i < members@.len() {
                            Member { key: members@[i].0@, value: members@[i].1.view() }
                        } else {
                            Member { key: Seq::empty(), value: Json::Null }
                        },
                ),
            ),
        }
    }
}

impl Clone for JsonValue {
    fn clone(&self) -> (copy: Self)
        ensures
            copy@ == self@,
        decreases self,
    {
        match self {
            JsonValue::Null => JsonValue::Null,
            JsonValue::Bool(b) => JsonValue::Bool(*b),
            JsonValue::Number(n) => JsonValue::Number(n.clone()),
            JsonValue::String(s) => JsonValue::String(s.clone()),
            JsonValue::Array(items) => {
                let out = clone_items(items);
                proof {
                    lemma_view_array(*items);
                    lemma_view_array(out);
                }
                JsonValue::Array(out)
            },
            JsonValue::Object(members) => {
                let out = clone_members(members);
                proof {
                    lemma_view_object(*members);
                    lemma_view_object(out);
                }
                JsonValue::Object(out)
            },
        }
    }
}

/// A copy of the elements of an array.
pub fn clone_items(items: &Vec<JsonValue>) -> (out: Vec<JsonValue>)
    ensures
        array_view(out@) == array_view(items@),
    decreases items,
{
    let mut out: Vec<JsonValue> = Vec::new();
    let mut k: usize = 0;
    while k < items.len()
        invariant
            k <= items.len(),
            array_view(out@) == array_view(items@).take(k as int),
        decreases items.len() - k,
    {
        let ghost before = array_view(out@);
        out.push(items[k].clone());
        proof {
            assert(array_view(out@) =~= before.push(items@[k as int]@));
            assert(array_view(items@).take(k + 1) =~= before.push(items@[k as int]@));
        }
        k += 1;
    }
    proof {
        assert(array_view(items@).take(k as int) =~= array_view(items@));
    }
    out
}

/// A copy of the members of an object.
pub fn clone_members(members: &Vec<(String, JsonValue)>) -> (out: Vec<(String, JsonValue)>)
    ensures
        object_view(out@) == object_view(members@),
    decreases members,
{
    let mut out: Vec<(String, JsonValue)> = Vec::new();
    let mut k: usize = 0;
    while k < members.len()
        invariant
            k <= members.len(),
            object_view(out@) == object_view(members@).take(k as int),
        decreases members.len() - k,
    {
        let ghost before = object_view(out@);
        let ghost member = object_view(members@)[k as int];
        out.push((members[k].0.clone(), members[k].1.clone()));
        proof {
            assert(object_view(out@) =~= before.push(member));
            assert(object_view(members@).take(k + 1) =~= before.push(member));
        }
        k += 1;
    }
    proof {
        assert(object_view(members@).take(k as int) =~= object_view(members@));
    }
    out
}

/// The elements of an array as contracts see them.
pub open spec fn array_view(items: Seq<JsonValue>) -> Seq<Json> {
    Seq::new(items.len(), |i: int| items[i]@)
}

/// The members of an object as contracts see them.
pub open spec fn object_view(members: Seq<(String, JsonValue)>) -> Seq<Member> {
    Seq::new(members.len(), |i: int| Member { key: members[i].0@, value: members[i].1@ })
}

/// The view of an array is the array of the views of its elements.
pub proof fn lemma_view_array(items: Vec<JsonValue>)
    ensures
        JsonValue::Array(items)@ == Json::Array(array_view(items@)),
{
    assert(JsonValue::Array(items)@->Array_0 =~= array_view(items@));
}

/// The view of an object is the object of its keys with the views of its
/// members.
pub proof fn lemma_view_object(members: Vec<(String, JsonValue)>)
    ensures
        JsonValue::Object(members)@ == Json::Object(object_view(members@)),
{
    assert(JsonValue::Object(members)@->Object_0 =~= object_view(members@));
}

} // verus!
