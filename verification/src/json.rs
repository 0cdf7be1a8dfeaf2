//! A decoded JSON document held as plain values.
//!
//! The engine never parses JSON text itself; the caller decodes the wire
//! format and hands over a `JsonValue` tree.  Field readers return `None`
//! instead of failing, so walking an adversarial or truncated document can
//! never panic.

use vstd::prelude::*;

use crate::text::str_eq;

verus! {

/// One decoded JSON value.  A number that fits a signed 64-bit integer is
/// `Int`; any other number (fractional or out of range) is `OtherNum`, which
/// no field reader accepts.
#[derive(Debug)]
pub enum JsonValue {
    Null,
    Bool(bool),
    Int(i64),
    OtherNum,
    Str(String),
    Array(Vec<JsonValue>),
    Object(Vec<(String, JsonValue)>),
}

/// First binding of `key` in an object's field list.
pub open spec fn lookup_fields(fields: Seq<(String, JsonValue)>, key: Seq<char>) -> Option<
    JsonValue,
>
    decreases fields.len(),
{
    if fields.len() == 0 {
        None
    } else if fields[0].0@ == key {
        Some(fields[0].1)
    } else {
        lookup_fields(fields.subrange(1, fields.len() as int), key)
    }
}

proof fn lemma_lookup_skip(fields: Seq<(String, JsonValue)>, key: Seq<char>, i: int)
    requires
        0 <= i <= fields.len(),
        forall|j: int| 0 <= j < i ==> fields[j].0@ != key,
    ensures
        lookup_fields(fields, key) == lookup_fields(fields.subrange(i, fields.len() as int), key),
    decreases i,
{
    if i > 0 {
        assert(fields[0].0@ != key);
        let t = fields.subrange(1, fields.len() as int);
        lemma_lookup_skip(t, key, i - 1);
        assert(t.subrange(i - 1, t.len() as int) =~= fields.subrange(i, fields.len() as int));
    } else {
        assert(fields.subrange(0, fields.len() as int) =~= fields);
    }
}

impl JsonValue {
    /// Value bound to `key` when this is an object that has the field.
    pub open spec fn spec_get(self, key: Seq<char>) -> Option<JsonValue> {
        match self {
            JsonValue::Object(fields) => lookup_fields(fields@, key),
            _ => None,
        }
    }

    pub open spec fn spec_as_int(self) -> Option<i64> {
        match self {
            JsonValue::Int(i) => Some(i),
            _ => None,
        }
    }

    pub open spec fn spec_as_str(self) -> Option<Seq<char>> {
        match self {
            JsonValue::Str(s) => Some(s@),
            _ => None,
        }
    }

    pub open spec fn spec_as_array(self) -> Option<Seq<JsonValue>> {
        match self {
            JsonValue::Array(a) => Some(a@),
            _ => None,
        }
    }

    /// Looks a field up in an object; `None` on any other value or when the
    /// field is absent.
    pub fn get<'a>(&'a self, key: &str) -> (r: Option<&'a JsonValue>)
        ensures
            r is Some <==> self.spec_get(key@) is Some,
            r is Some ==> Some(*r->0) == self.spec_get(key@),
    {
        match self {
            JsonValue::Object(fields) => {
                let n = fields.len();
                let mut i: usize = 0;
                while i < n
                    invariant
                        0 <= i <= n,
                        n == fields@.len(),
                        self.spec_get(key@) == lookup_fields(fields@, key@),
                        forall|j: int| 0 <= j < i ==> fields@[j].0@ != key@,
                    decreases n - i,
                {
                    if str_eq(fields[i].0.as_str(), key) {
                        proof {
                            lemma_lookup_skip(fields@, key@, i as int);
                            let sub = fields@.subrange(i as int, n as int);
                            assert(sub[0] == fields@[i as int]);
                            assert(lookup_fields(sub, key@) == Some(fields@[i as int].1));
                            assert(self.spec_get(key@) == Some(fields@[i as int].1));
                        }
                        return Some(&fields[i].1);
                    }
                    i = i + 1;
                }
                proof {
                    lemma_lookup_skip(fields@, key@, n as int);
                    assert(fields@.subrange(n as int, n as int) =~= Seq::<(
                        String,
                        JsonValue,
                    )>::empty());
                }
                None
            },
            _ => None,
        }
    }

    /// The integer held by this value, when it is an integer.
    pub fn as_int(&self) -> (r: Option<i64>)
        ensures
            r == self.spec_as_int(),
    {
        match self {
            JsonValue::Int(i) => Some(*i),
            _ => None,
        }
    }

    /// The string held by this value, when it is a string.
    pub fn as_str<'a>(&'a self) -> (r: Option<&'a String>)
        ensures
            r is Some <==> self.spec_as_str() is Some,
            r is Some ==> Some(r->0@) == self.spec_as_str(),
    {
        match self {
            JsonValue::Str(s) => Some(s),
            _ => None,
        }
    }

    /// The elements held by this value, when it is an array.
    pub fn as_array<'a>(&'a self) -> (r: Option<&'a Vec<JsonValue>>)
        ensures
            r is Some <==> self.spec_as_array() is Some,
            r is Some ==> Some(r->0@) == self.spec_as_array(),
    {
        match self {
            JsonValue::Array(a) => Some(a),
            _ => None,
        }
    }
}

} // verus!
