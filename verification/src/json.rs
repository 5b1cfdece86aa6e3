//! JSON values, and the calls that read and write JSON text.

use crate::text::same;
use vstd::prelude::*;

verus! {

/// A JSON value.
pub enum Json {
    Null,
    Bool(bool),
    /// A number, with its value where that is an unsigned 64-bit integer.
    Number(Option<u64>),
    Text(String),
    List(Vec<Json>),
    /// The members of an object, each name once.
    Object(Vec<(String, Json)>),
}

/// A JSON value over mathematical sequences.
pub enum JsonView {
    Null,
    Bool(bool),
    Number(Option<u64>),
    Text(Seq<char>),
    List(Seq<JsonView>),
    Object(Seq<(Seq<char>, JsonView)>),
}

/// What a JSON value holds.
pub open spec fn json_view(j: Json) -> JsonView
    decreases j,
{
    match j {
        Json::Null => JsonView::Null,
        Json::Bool(b) => JsonView::Bool(b),
        Json::Number(n) => JsonView::Number(n),
        Json::Text(s) => JsonView::Text(s@),
        Json::List(items) => JsonView::List(
            Seq::new(
                items@.len(),
                |i: int|
                    if 0 <= i < items@.len() {
                        json_view(items@[i])
                    } else {
                        JsonView::Null
                    },
            ),
        ),
        Json::Object(fields) => JsonView::Object(
            Seq::new(
                fields@.len(),
                |i: int|
                    if 0 <= i < fields@.len() {
                        (fields@[i].0@, json_view(fields@[i].1))
                    } else {
                        (Seq::empty(), JsonView::Null)
                    },
            ),
        ),
    }
}

impl DeepView for Json {
    type V = JsonView;

    open spec fn deep_view(&self) -> JsonView {
        json_view(*self)
    }
}

/// The value of the first of `fields` from `i` on that is named `key`.
pub open spec fn field_from(fields: Seq<(Seq<char>, JsonView)>, key: Seq<char>, i: int) -> Option<
    JsonView,
>
    decreases fields.len() - i,
{
    if i < 0 || i >= fields.len() {
        None
    } else if fields[i].0 == key {
        Some(fields[i].1)
    } else {
        field_from(fields, key, i + 1)
    }
}

/// The member named `key`, where the value is an object that has it.
pub open spec fn member_of(j: JsonView, key: Seq<char>) -> Option<JsonView> {
    match j {
        JsonView::Object(fields) => field_from(fields, key, 0),
        _ => None,
    }
}

/// The text, where the value is one.
pub open spec fn text_of(j: JsonView) -> Option<Seq<char>> {
    match j {
        JsonView::Text(s) => Some(s),
        _ => None,
    }
}

/// The text of the member named `key`, where there is one and it is a text.
pub open spec fn text_at(j: JsonView, key: Seq<char>) -> Option<Seq<char>> {
    match member_of(j, key) {
        Some(v) => text_of(v),
        None => None,
    }
}

impl Json {
    /// The member named `key`, where the value is an object that has it.
    pub fn get(&self, key: &str) -> (r: Option<&Json>)
        ensures
            match r {
                Some(v) => member_of(json_view(*self), key@) == Some(json_view(*v)),
                None => member_of(json_view(*self), key@) is None,
            },
    {
        match self {
            Json::Object(fields) => {
                let ghost all = json_view(*self)->Object_0;
                let mut i: usize = 0;
                while i < fields.len()
                    invariant
                        i <= fields@.len(),
                        *self == Json::Object(*fields),
                        all == json_view(*self)->Object_0,
                        field_from(all, key@, 0) == field_from(all, key@, i as int),
                    decreases fields@.len() - i,
                {
                    assert(all[i as int] == (fields@[i as int].0@, json_view(fields@[i as int].1)));
                    if same(fields[i].0.as_str(), key) {
                        return Some(&fields[i].1);
                    }
                    i = i + 1;
                }
                None
            },
            _ => None,
        }
    }

    /// The text, where the value is one.
    pub fn as_str(&self) -> (r: Option<&String>)
        ensures
            match r {
                Some(s) => text_of(json_view(*self)) == Some(s@),
                None => text_of(json_view(*self)) is None,
            },
    {
        match self {
            Json::Text(s) => Some(s),
            _ => None,
        }
    }

    /// The text of the member named `key`, where there is one and it is a text.
    pub fn str_at(&self, key: &str) -> (r: Option<&String>)
        ensures
            match r {
                Some(s) => text_at(json_view(*self), key@) == Some(s@),
                None => text_at(json_view(*self), key@) is None,
            },
    {
        match self.get(key) {
            Some(v) => v.as_str(),
            None => None,
        }
    }
}

// ---- trusted: serde_json ------------------------------------------------------------

/// `serde_json::Value`, a parsed JSON text.
#[verifier::external_type_specification]
#[verifier::external_body]
pub struct ExValue(serde_json::Value);

/// What a `serde_json::Value` holds.
pub uninterp spec fn value_tree(v: serde_json::Value) -> JsonView;

/// What `serde_json::from_str` reads in a text, or nothing where it fails.
pub uninterp spec fn json_in_text(text: Seq<char>) -> Option<JsonView>;

/// What `serde_json::from_slice` reads in bytes, or nothing where it fails.
pub uninterp spec fn json_in_bytes(bytes: Seq<u8>) -> Option<JsonView>;

/// `serde_json::from_str` into a `Value`: whether it succeeds, and what the value
/// holds, is a function of the text alone. The JSON grammar itself is left to it.
#[verifier::external_body]
fn value_in_text(text: &str) -> (r: Option<serde_json::Value>)
    ensures
        match r {
            Some(v) => json_in_text(text@) == Some(value_tree(v)),
            None => json_in_text(text@) is None,
        },
{
    serde_json::from_str::<serde_json::Value>(text).ok()
}

/// `serde_json::from_slice` into a `Value`: whether it succeeds, and what the value
/// holds, is a function of the bytes alone. The JSON grammar itself is left to it.
#[verifier::external_body]
fn value_in_bytes(bytes: &[u8]) -> (r: Option<serde_json::Value>)
    ensures
        match r {
            Some(v) => json_in_bytes(bytes@) == Some(value_tree(v)),
            None => json_in_bytes(bytes@) is None,
        },
{
    serde_json::from_slice::<serde_json::Value>(bytes).ok()
}

/// A `serde_json::Value` taken apart, variant by variant; of a number,
/// `Number::as_u64` is kept.
#[verifier::external_body]
fn open_value(v: serde_json::Value) -> (r: Json)
    ensures
        json_view(r) == value_tree(v),
{
    match v {
        serde_json::Value::Null => Json::Null,
        serde_json::Value::Bool(b) => Json::Bool(b),
        serde_json::Value::Number(n) => Json::Number(n.as_u64()),
        serde_json::Value::String(s) => Json::Text(s),
        serde_json::Value::Array(a) => Json::List(a.into_iter().map(open_value).collect()),
        serde_json::Value::Object(m) => Json::Object(
            m.into_iter().map(|(k, v)| (k, open_value(v))).collect(),
        ),
    }
}

/// How JSON writes one character of a text.
pub open spec fn escaped_char(c: char) -> Seq<char> {
    if c == '"' {
        seq!['\\', '"']
    } else if c == '\\' {
        seq!['\\', '\\']
    } else if c == '\u{8}' {
        seq!['\\', 'b']
    } else if c == '\t' {
        seq!['\\', 't']
    } else if c == '\n' {
        seq!['\\', 'n']
    } else if c == '\u{c}' {
        seq!['\\', 'f']
    } else if c == '\r' {
        seq!['\\', 'r']
    } else if (c as u32) < 32 {
        seq!['\\', 'u', '0', '0', hex_digit(c as int / 16), hex_digit(c as int % 16)]
    } else {
        seq![c]
    }
}

/// The lower-case hexadecimal digit of value `d`.
pub open spec fn hex_digit(d: int) -> char {
    if d < 10 {
        ('0' as u32 + d) as char
    } else {
        ('a' as u32 + (d - 10)) as char
    }
}

/// How JSON writes the characters of a text.
pub open spec fn escaped(s: Seq<char>) -> Seq<char>
    decreases s.len(),
{
    if s.len() == 0 {
        Seq::empty()
    } else {
        escaped(s.drop_last()) + escaped_char(s.last())
    }
}

/// A text as a JSON string.
pub open spec fn quoted(s: Seq<char>) -> Seq<char> {
    seq!['"'] + escaped(s) + seq!['"']
}

/// `serde_json::to_string` of a text: it succeeds, puts the text in double quotes,
/// escapes the double quote, the backslash and the control characters below the blank,
/// and writes every other character as it stands.
#[verifier::external_body]
fn quote_text(s: &str) -> (r: Option<String>)
    ensures
        r is Some,
        r->0@ == quoted(s@),
{
    serde_json::to_string(s).ok()
}

// ---- reading and writing --------------------------------------------------------------

/// The JSON value in `text`, where there is one.
pub fn read_text(text: &str) -> (r: Option<Json>)
    ensures
        match r {
            Some(j) => json_in_text(text@) == Some(json_view(j)),
            None => json_in_text(text@) is None,
        },
{
    match value_in_text(text) {
        Some(v) => Some(open_value(v)),
        None => None,
    }
}

/// The JSON value in `bytes`, where there is one.
pub fn read_bytes(bytes: &[u8]) -> (r: Option<Json>)
    ensures
        match r {
            Some(j) => json_in_bytes(bytes@) == Some(json_view(j)),
            None => json_in_bytes(bytes@) is None,
        },
{
    match value_in_bytes(bytes) {
        Some(v) => Some(open_value(v)),
        None => None,
    }
}

/// `s` as a JSON string.
pub fn quote(s: &str) -> (r: String)
    ensures
        r@ == quoted(s@),
{
    match quote_text(s) {
        Some(q) => q,
        None => "\"\"".to_owned(),
    }
}

} // verus!
