//! A JSON document as plain values, and the lookups the library makes in
//! one (those of `serde_json::Value`: `get`, `as_array`, `as_str`).
use vstd::prelude::*;
use crate::text::{parse_i64, parse_i64_str, str_eq};

verus! {

broadcast use vstd::string::group_string_axioms;

/// A JSON value. Numbers keep the text `serde_json` writes for them (an
/// integer in decimal, a float with a fraction or exponent); an object
/// keeps its members in order, each key once.
#[derive(Debug)]
pub enum Json {
    Null,
    Bool(bool),
    Number(String),
    Str(String),
    Array(Vec<Json>),
    Object(Vec<(String, Json)>),
}

/// The member `key` of an object's members (the first with that key).
pub open spec fn member(entries: Seq<(String, Json)>, key: Seq<char>) -> Option<Json>
    decreases entries.len(),
{
    if entries.len() == 0 {
        None
    } else if entries[0].0@ == key {
        Some(entries[0].1)
    } else {
        member(entries.skip(1), key)
    }
}

/// `Value::get(key)`: the member `key` of an object; nothing for any other
/// value.
pub open spec fn json_get(v: Option<Json>, key: Seq<char>) -> Option<Json> {
    match v {
        Some(Json::Object(e)) => member(e@, key),
        _ => None,
    }
}

/// `Value::as_array`: the items of an array.
pub open spec fn json_items(v: Option<Json>) -> Option<Seq<Json>> {
    match v {
        Some(Json::Array(a)) => Some(a@),
        _ => None,
    }
}

/// `Value::as_str`: the text of a string.
pub open spec fn json_text(v: Option<Json>) -> Option<Seq<char>> {
    match v {
        Some(Json::Str(s)) => Some(s@),
        _ => None,
    }
}

/// `Value::as_bool`: the value of a boolean.
pub open spec fn json_bool(v: Option<Json>) -> Option<bool> {
    match v {
        Some(Json::Bool(b)) => Some(b),
        _ => None,
    }
}

/// `Value::as_i64`: the value of an integer number that fits in `i64`.
pub open spec fn json_i64(v: Option<Json>) -> Option<i64> {
    match v {
        Some(Json::Number(t)) => parse_i64(t@),
        _ => None,
    }
}

pub open spec fn opt_ref(v: Option<&Json>) -> Option<Json> {
    match v {
        Some(x) => Some(*x),
        None => None,
    }
}

/// The member `key` of `v` when `v` is an object.
pub fn get<'a>(v: &'a Json, key: &str) -> (r: Option<&'a Json>)
    ensures
        opt_ref(r) == json_get(Some(*v), key@),
{
    match v {
        Json::Object(entries) => {
            let mut i: usize = 0;
            proof {
                assert(entries@.skip(0) =~= entries@);
            }
            let ghost whole = json_get(Some(*v), key@);
            assert(whole == member(entries@, key@));
            while i < entries.len()
                invariant
                    i <= entries@.len(),
                    whole == json_get(Some(*v), key@),
                    whole == member(entries@, key@),
                    member(entries@, key@) == member(entries@.skip(i as int), key@),
                decreases entries@.len() - i,
            {
                proof {
                    assert(entries@.skip(i as int)[0] == entries@[i as int]);
                    assert(entries@.skip(i as int).skip(1) =~= entries@.skip(i + 1));
                }
                if str_eq(entries[i].0.as_str(), key) {
                    return Some(&entries[i].1);
                }
                i = i + 1;
            }
            None
        },
        _ => None,
    }
}

/// The member `key` of `v` when there is a `v` and it is an object.
pub fn get_opt<'a>(v: Option<&'a Json>, key: &str) -> (r: Option<&'a Json>)
    ensures
        opt_ref(r) == json_get(opt_ref(v), key@),
{
    match v {
        Some(x) => get(x, key),
        None => None,
    }
}

/// The items of `v` when it is an array.
pub fn as_array<'a>(v: Option<&'a Json>) -> (r: Option<&'a Vec<Json>>)
    ensures
        match r {
            Some(a) => json_items(opt_ref(v)) == Some(a@),
            None => json_items(opt_ref(v)) is None,
        },
{
    match v {
        Some(Json::Array(a)) => Some(a),
        _ => None,
    }
}

/// The value of `v` when it is a boolean.
pub fn as_bool(v: Option<&Json>) -> (r: Option<bool>)
    ensures
        r == json_bool(opt_ref(v)),
{
    match v {
        Some(Json::Bool(b)) => Some(*b),
        _ => None,
    }
}

/// The value of `v` when it is an integer that fits in `i64`.
pub fn as_i64(v: Option<&Json>) -> (r: Option<i64>)
    ensures
        r == json_i64(opt_ref(v)),
{
    match v {
        Some(Json::Number(t)) => parse_i64_str(t.as_str()),
        _ => None,
    }
}

/// The text of `v` when it is a string.
pub fn as_str<'a>(v: Option<&'a Json>) -> (r: Option<&'a str>)
    ensures
        match r {
            Some(s) => json_text(opt_ref(v)) == Some(s@),
            None => json_text(opt_ref(v)) is None,
        },
{
    match v {
        Some(Json::Str(s)) => Some(s.as_str()),
        _ => None,
    }
}

} // verus!
