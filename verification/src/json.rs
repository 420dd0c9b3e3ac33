//! JSON values as the GitFlic API returns them, held as plain values.
use vstd::prelude::*;

use crate::diff::string_from;

verus! {

/// A JSON number: the integer forms are kept, a fraction is only marked.
pub enum JsonNumber {
    PosInt(u64),
    NegInt(i64),
    Float,
}

/// A JSON value; an object keeps its members in order.
pub enum Json {
    Null,
    Bool(bool),
    Number(JsonNumber),
    Str(String),
    Array(Vec<Json>),
    Object(Vec<(String, Json)>),
}

/// The first member named `key` among `members`.
pub open spec fn find_member(members: Seq<(String, Json)>, key: Seq<char>) -> Option<Json>
    decreases members.len(),
{
    if members.len() == 0 {
        None
    } else if members[0].0@ == key {
        Some(members[0].1)
    } else {
        find_member(members.drop_first(), key)
    }
}

/// The member `key` of an object (`Value::get` with a string key).
pub open spec fn field(v: Json, key: Seq<char>) -> Option<Json> {
    match v {
        Json::Object(members) => find_member(members@, key),
        _ => None,
    }
}

/// The member `key`, when `v` is `Some` object that has it.
pub open spec fn field_of(v: Option<Json>, key: Seq<char>) -> Option<Json> {
    match v {
        Some(x) => field(x, key),
        None => None,
    }
}

/// The text of a string value (`Value::as_str`).
pub open spec fn as_text(v: Option<Json>) -> Option<Seq<char>> {
    match v {
        Some(Json::Str(s)) => Some(s@),
        _ => None,
    }
}

/// The value of a boolean (`Value::as_bool`).
pub open spec fn as_flag(v: Option<Json>) -> Option<bool> {
    match v {
        Some(Json::Bool(b)) => Some(b),
        _ => None,
    }
}

/// The value of a non-negative integer (`Value::as_u64`).
pub open spec fn as_unsigned(v: Option<Json>) -> Option<u64> {
    match v {
        Some(Json::Number(JsonNumber::PosInt(n))) => Some(n),
        _ => None,
    }
}

/// The value of an integer that fits in `i64` (`Value::as_i64`).
pub open spec fn as_signed(v: Option<Json>) -> Option<i64> {
    match v {
        Some(Json::Number(JsonNumber::PosInt(n))) => if n <= i64::MAX {
            Some(n as i64)
        } else {
            None
        },
        Some(Json::Number(JsonNumber::NegInt(n))) => Some(n),
        _ => None,
    }
}

/// The elements of an array (`Value::as_array`).
pub open spec fn as_list(v: Option<Json>) -> Option<Seq<Json>> {
    match v {
        Some(Json::Array(items)) => Some(items@),
        _ => None,
    }
}

impl Json {
    /// The member `key` of an object.
    pub fn get(&self, key: &str) -> (r: Option<&Json>)
        ensures
            match r {
                Some(x) => field(*self, key@) == Some(*x),
                None => field(*self, key@) is None,
            },
    {
        match self {
            Json::Object(members) => {
                let k = string_from(key);
                let mut i: usize = 0;
                assert(members@.skip(0) == members@);
                assert(field(*self, key@) == find_member(members@, key@));
                while i < members.len()
                    invariant
                        i <= members@.len(),
                        field(*self, key@) == find_member(members@, key@),
                        k@ == key@,
                        find_member(members@.skip(i as int), key@) == find_member(members@, key@),
                    decreases members@.len() - i,
                {
                    proof {
                        assert(members@.skip(i as int)[0] == members@[i as int]);
                        assert(members@.skip(i as int).drop_first() == members@.skip(i + 1));
                    }
                    if members[i].0 == k {
                        return Some(&members[i].1);
                    }
                    i = i + 1;
                }
                None
            },
            _ => None,
        }
    }

    /// The text of a string value.
    pub fn as_str(&self) -> (r: Option<&String>)
        ensures
            match r {
                Some(s) => as_text(Some(*self)) == Some(s@),
                None => as_text(Some(*self)) is None,
            },
    {
        match self {
            Json::Str(s) => Some(s),
            _ => None,
        }
    }

    /// The value of a boolean.
    pub fn as_bool(&self) -> (r: Option<bool>)
        ensures
            r == as_flag(Some(*self)),
    {
        match self {
            Json::Bool(b) => Some(*b),
            _ => None,
        }
    }

    /// The value of a non-negative integer.
    pub fn as_u64(&self) -> (r: Option<u64>)
        ensures
            r == as_unsigned(Some(*self)),
    {
        match self {
            Json::Number(JsonNumber::PosInt(n)) => Some(*n),
            _ => None,
        }
    }

    /// The value of an integer that fits in `i64`.
    pub fn as_i64(&self) -> (r: Option<i64>)
        ensures
            r == as_signed(Some(*self)),
    {
        match self {
            Json::Number(JsonNumber::PosInt(n)) => if *n <= i64::MAX as u64 {
                Some(*n as i64)
            } else {
                None
            },
            Json::Number(JsonNumber::NegInt(n)) => Some(*n),
            _ => None,
        }
    }

    /// The elements of an array.
    pub fn as_array(&self) -> (r: Option<&Vec<Json>>)
        ensures
            match r {
                Some(items) => as_list(Some(*self)) == Some(items@),
                None => as_list(Some(*self)) is None,
            },
    {
        match self {
            Json::Array(items) => Some(items),
            _ => None,
        }
    }
}

/// The member `key` of an optional value.
pub fn get_of<'a>(v: Option<&'a Json>, key: &str) -> (r: Option<&'a Json>)
    ensures
        match r {
            Some(x) => field_of(opt_json(v), key@) == Some(*x),
            None => field_of(opt_json(v), key@) is None,
        },
{
    match v {
        Some(x) => x.get(key),
        None => None,
    }
}

/// The value behind an optional reference.
pub open spec fn opt_json(v: Option<&Json>) -> Option<Json> {
    match v {
        Some(x) => Some(*x),
        None => None,
    }
}

/// The text of an optional string value, as a new string.
pub fn text_of(v: Option<&Json>) -> (r: Option<String>)
    ensures
        match r {
            Some(s) => as_text(opt_json(v)) == Some(s@),
            None => as_text(opt_json(v)) is None,
        },
{
    match v {
        Some(x) => match x.as_str() {
            Some(s) => Some(s.clone()),
            None => None,
        },
        None => None,
    }
}

/// The boolean of an optional value.
pub fn flag_of(v: Option<&Json>) -> (r: Option<bool>)
    ensures
        r == as_flag(opt_json(v)),
{
    match v {
        Some(x) => x.as_bool(),
        None => None,
    }
}

/// The non-negative integer of an optional value.
pub fn unsigned_of(v: Option<&Json>) -> (r: Option<u64>)
    ensures
        r == as_unsigned(opt_json(v)),
{
    match v {
        Some(x) => x.as_u64(),
        None => None,
    }
}

/// The `i64` integer of an optional value.
pub fn signed_of(v: Option<&Json>) -> (r: Option<i64>)
    ensures
        r == as_signed(opt_json(v)),
{
    match v {
        Some(x) => x.as_i64(),
        None => None,
    }
}

/// The elements of an optional array value.
pub fn list_of(v: Option<&Json>) -> (r: Option<&Vec<Json>>)
    ensures
        match r {
            Some(items) => as_list(opt_json(v)) == Some(items@),
            None => as_list(opt_json(v)) is None,
        },
{
    match v {
        Some(x) => x.as_array(),
        None => None,
    }
}

} // verus!
