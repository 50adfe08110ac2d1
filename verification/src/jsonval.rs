//! Trusted doorway to serde_json, and the model its values are read
//! through.
//!
//! The scrobbling service answers with JSON whose shape varies from call
//! to call.  Parsing the text is serde_json's work; every value it hands
//! back is opaque here.  What such a value holds is given a name: the
//! model [`JVal`], reached by [`jcontents`] for a value in hand and by
//! [`jval_of`] for the parse of a text.  Each wrapper below states what
//! its serde_json call returns in terms of that model, and the verified
//! response logic is exact over it.

use vstd::prelude::*;
use crate::text::spec_u64_chars;

verus! {

/// The model of a JSON value, as far as the response logic reads one:
/// null, booleans, numbers split by whether `as_u64` yields them,
/// strings, arrays, and objects as maps (with serde_json's default
/// handling, a duplicated key keeps its last value).  A number `as_u64`
/// cannot yield carries the decimal text serde_json writes for it, so
/// that rendering stays a function of the model.
pub enum JVal {
    Null,
    Bool(bool),
    UInt(u64),
    NumOther(Seq<char>),
    Str(Seq<char>),
    Arr(Seq<JVal>),
    Obj(Map<Seq<char>, JVal>),
}

/// What a parsed serde_json value holds, as the model reads it.
pub uninterp spec fn jcontents(v: serde_json::Value) -> JVal;

/// What serde_json::from_str parses a text to, as the model reads it;
/// nothing for a text that is not valid JSON.
pub uninterp spec fn jval_of(text: Seq<char>) -> Option<JVal>;

/// The member of an object under a key, if the value is an object and
/// has one.
pub open spec fn jget(m: JVal, key: Seq<char>) -> Option<JVal> {
    match m {
        JVal::Obj(members) => if members.contains_key(key) {
            Some(members[key])
        } else {
            None
        },
        _ => None,
    }
}

#[verifier::external_type_specification]
#[verifier::external_body]
pub struct ExValue(serde_json::Value);

/// Relies on serde_json::from_str: the payload parsed as JSON, or
/// nothing when the text is not valid JSON; the outcome depends on the
/// text alone.
#[verifier::external_body]
pub(crate) fn json_parse(text: &str) -> (r: Option<serde_json::Value>)
    ensures
        match r {
            Some(v) => jval_of(text@) == Some(jcontents(v)),
            None => jval_of(text@) is None,
        },
{
    serde_json::from_str(text).ok()
}

/// Relies on serde_json::Value::get: the value under a key of an object,
/// if there is one.
#[verifier::external_body]
pub(crate) fn json_get<'a>(v: &'a serde_json::Value, key: &str) -> (r: Option<
    &'a serde_json::Value,
>)
    ensures
        match r {
            Some(m) => jget(jcontents(*v), key@) == Some(jcontents(*m)),
            None => jget(jcontents(*v), key@) is None,
        },
{
    v.get(key)
}

/// Relies on serde_json::Value::as_str: the owned text of a JSON string,
/// if the value is one.
#[verifier::external_body]
pub(crate) fn json_as_str(v: &serde_json::Value) -> (r: Option<String>)
    ensures
        match r {
            Some(s) => jcontents(*v) == JVal::Str(s@),
            None => !(jcontents(*v) is Str),
        },
{
    match v.as_str() {
        Some(s) => Some(s.to_owned()),
        None => None,
    }
}

/// Relies on serde_json::Value::as_u64: the number, if the value is a
/// non-negative integer that fits.
#[verifier::external_body]
pub(crate) fn json_as_u64(v: &serde_json::Value) -> (r: Option<u64>)
    ensures
        match r {
            Some(n) => jcontents(*v) == JVal::UInt(n),
            None => !(jcontents(*v) is UInt),
        },
{
    v.as_u64()
}

/// Relies on serde_json::Value::as_array: the elements, if the value is
/// an array.
#[verifier::external_body]
pub(crate) fn json_as_array<'a>(v: &'a serde_json::Value) -> (r: Option<
    &'a Vec<serde_json::Value>,
>)
    ensures
        match r {
            Some(arr) => jcontents(*v) == JVal::Arr(
                arr@.map_values(|e: serde_json::Value| jcontents(e)),
            ),
            None => !(jcontents(*v) is Arr),
        },
{
    v.as_array()
}

/// Relies on serde_json::Value::is_object.
#[verifier::external_body]
pub(crate) fn json_is_object(v: &serde_json::Value) -> (r: bool)
    ensures
        r == (jcontents(*v) is Obj),
{
    v.is_object()
}

/// Relies on serde_json's Display for Value: the value rendered back as
/// compact JSON text.  For null, booleans and numbers the rendering is
/// pinned; for strings, arrays and objects it involves quoting and
/// escaping the model does not carry, so nothing is said of it.
#[verifier::external_body]
pub(crate) fn json_render(v: &serde_json::Value) -> (r: String)
    ensures
        jcontents(*v) is Null ==> r@ == "null"@,
        jcontents(*v) matches JVal::Bool(b) ==> r@ == (if b {
            "true"@
        } else {
            "false"@
        }),
        jcontents(*v) matches JVal::UInt(n) ==> r@ == spec_u64_chars(n as int),
        jcontents(*v) matches JVal::NumOther(t) ==> r@ == t,
{
    v.to_string()
}

} // verus!
