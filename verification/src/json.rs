//! JSON values as the library reads them: requests, interpreter output and
//! message payloads arrive as JSON and are looked into by key.
use vstd::prelude::*;

use crate::store::hex_digit;

verus! {

/// A JSON value as it was read: what it holds, and its JSON text as the
/// parser that read it writes it back (`serde_json::to_string`). The text of
/// null, booleans and strings is fixed by the value (see `json_text`); the
/// `text` field is read only for numbers, arrays and objects.
#[derive(Debug)]
pub struct Json {
    pub value: JsonValue,
    pub text: String,
}

/// What a JSON value holds. A number keeps its value where it is an integer
/// that fits in `i64`. An object keeps its members in order.
#[derive(Debug)]
pub enum JsonValue {
    Null,
    Bool(bool),
    Number(Option<i64>),
    Str(String),
    Array(Vec<Json>),
    Object(Vec<(String, Json)>),
}

/// Whether some entry has key `key`.
pub open spec fn has_key(entries: Seq<(String, Json)>, key: Seq<char>) -> bool {
    exists|i: int| 0 <= i < entries.len() && (#[trigger] entries[i]).0@ == key
}

/// The position of the first entry with key `key`.
pub open spec fn first_key_index(entries: Seq<(String, Json)>, key: Seq<char>) -> int {
    choose|i: int|
        0 <= i < entries.len() && (#[trigger] entries[i]).0@ == key && forall|k: int|
            0 <= k < i ==> (#[trigger] entries[k]).0@ != key
}

/// The member of an object under `key` (the first one, where keys repeat), or
/// `None` for any other value or a missing key.
pub open spec fn member(v: Json, key: Seq<char>) -> Option<Json> {
    match v.value {
        JsonValue::Object(entries) => {
            if has_key(entries@, key) {
                Some(entries@[first_key_index(entries@, key)].1)
            } else {
                None
            }
        },
        _ => None,
    }
}

/// The text of a string value.
pub open spec fn str_of(v: Json) -> Option<Seq<char>> {
    match v.value {
        JsonValue::Str(s) => Some(s@),
        _ => None,
    }
}

pub proof fn lemma_first_index_unique(entries: Seq<(String, Json)>, key: Seq<char>, i: int)
    requires
        0 <= i < entries.len(),
        entries[i].0@ == key,
        forall|k: int| 0 <= k < i ==> (#[trigger] entries[k]).0@ != key,
    ensures
        has_key(entries, key),
        first_key_index(entries, key) == i,
{
    assert(has_key(entries, key));
    let j = first_key_index(entries, key);
    assert(0 <= j < entries.len() && entries[j].0@ == key && forall|k: int|
        0 <= k < j ==> (#[trigger] entries[k]).0@ != key);
    if j < i {
        assert(entries[j].0@ != key);
    } else if j > i {
        assert(entries[i].0@ != key);
    }
}

impl Json {
    /// The member under `key`, where this is an object that has one.
    pub fn get(&self, key: &str) -> (r: Option<&Json>)
        ensures
            match r {
                Some(x) => member(*self, key@) == Some(*x),
                None => member(*self, key@) is None,
            },
    {
        match &self.value {
            JsonValue::Object(entries) => {
                let k = key.to_owned();
                let n = entries.len();
                let mut i: usize = 0;
                while i < n
                    invariant
                        n == entries.len(),
                        self.value == JsonValue::Object(*entries),
                        k@ == key@,
                        i <= n,
                        forall|j: int| 0 <= j < i ==> (#[trigger] entries@[j]).0@ != key@,
                    decreases n - i,
                {
                    if entries[i].0 == k {
                        proof {
                            assert(entries@[i as int].0@ == key@);
                            lemma_first_index_unique(entries@, key@, i as int);
                        }
                        return Some(&entries[i].1);
                    }
                    i = i + 1;
                }
                None
            },
            _ => None,
        }
    }

    /// The text, where this is a string.
    pub fn as_str(&self) -> (r: Option<&String>)
        ensures
            match r {
                Some(s) => str_of(*self) == Some(s@),
                None => str_of(*self) is None,
            },
    {
        match &self.value {
            JsonValue::Str(s) => Some(s),
            _ => None,
        }
    }

    /// The value, where this is a boolean.
    pub fn as_bool(&self) -> (r: Option<bool>)
        ensures
            r == match self.value {
                JsonValue::Bool(b) => Some(b),
                _ => None,
            },
    {
        match &self.value {
            JsonValue::Bool(b) => Some(*b),
            _ => None,
        }
    }

    /// The value, where this is an integer number that fits in `i64`.
    pub fn as_i64(&self) -> (r: Option<i64>)
        ensures
            r == match self.value {
                JsonValue::Number(n) => n,
                _ => None,
            },
    {
        match &self.value {
            JsonValue::Number(n) => *n,
            _ => None,
        }
    }

    /// The elements, where this is an array.
    pub fn as_array(&self) -> (r: Option<&Vec<Json>>)
        ensures
            match r {
                Some(a) => self.value == JsonValue::Array(*a),
                None => !(self.value is Array),
            },
    {
        match &self.value {
            JsonValue::Array(a) => Some(a),
            _ => None,
        }
    }
}

/// A character as `serde_json` writes it inside a string: `"` and `\` and
/// the control characters below U+0020 escaped (`\b`, `\t`, `\n`, `\f`,
/// `\r`, or `\u00` and two lower-case hexadecimal digits), every other
/// character as it is.
pub open spec fn json_escaped_char(c: char) -> Seq<char> {
    if c == '"' {
        seq!['\\', '"']
    } else if c == '\\' {
        seq!['\\', '\\']
    } else if c == '\u{8}' {
        seq!['\\', 'b']
    } else if c == '\t' {
        seq!['\\', 't']
    } else if c == '\n' {
        seq!['\\', 'n']
    } else if c == '\u{c}' {
        seq!['\\', 'f']
    } else if c == '\r' {
        seq!['\\', 'r']
    } else if (c as u32) < 0x20 {
        seq!['\\', 'u', '0', '0', hex_digit((c as u32) as int / 16), hex_digit((c as u32) as int % 16)]
    } else {
        seq![c]
    }
}

/// The characters of a string, each as `serde_json` writes it.
pub open spec fn json_escaped(s: Seq<char>) -> Seq<char>
    decreases s.len(),
{
    if s.len() == 0 {
        seq![]
    } else {
        json_escaped_char(s[0]) + json_escaped(s.drop_first())
    }
}

/// A string as a JSON string literal: quoted, with its characters escaped.
pub open spec fn json_quote(s: Seq<char>) -> Seq<char> {
    seq!['"'] + json_escaped(s) + seq!['"']
}

/// The JSON text of a value: `null`, `true`, `false` and string literals as
/// they are written; the text it was read with for numbers, arrays and
/// objects.
pub open spec fn json_text_of(j: Json) -> Seq<char> {
    match j.value {
        JsonValue::Null => "null"@,
        JsonValue::Bool(b) => if b {
            "true"@
        } else {
            "false"@
        },
        JsonValue::Str(s) => json_quote(s@),
        _ => j.text@,
    }
}

/// Writes a string as a JSON string literal (`serde_json::to_string` of a
/// `&str`), as `json_quote` states.
#[verifier::external_body]
fn json_string_literal(s: &str) -> (r: String)
    ensures
        r@ == json_quote(s@),
{
    serde_json::to_string(s).unwrap_or_default()
}

/// The JSON text of a value, as `json_text_of` states.
pub fn json_text(j: &Json) -> (r: String)
    ensures
        r@ == json_text_of(*j),
{
    proof {
        reveal_strlit("null");
        reveal_strlit("true");
        reveal_strlit("false");
    }
    match &j.value {
        JsonValue::Null => String::from_str("null"),
        JsonValue::Bool(b) => {
            if *b {
                String::from_str("true")
            } else {
                String::from_str("false")
            }
        },
        JsonValue::Str(s) => json_string_literal(s.as_str()),
        _ => j.text.clone(),
    }
}

} // verus!
