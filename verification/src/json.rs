//! JSON documents: serde_json's `Value`, read through serde_json's own
//! methods, and what a value holds as a plain document.

use vstd::prelude::*;
use serde_json::Value;

verus! {

/// A JSON number as serde_json holds it: a non-negative integer, a negative
/// integer, or a finite float, kept as the text serde_json prints for it.
pub enum NumberView {
    PosInt(u64),
    NegInt(i64),
    Float(Seq<char>),
}

/// A JSON document. Object members come in the order the map keeps them.
pub enum JsonView {
    Null,
    Bool(bool),
    Number(NumberView),
    Str(Seq<char>),
    Array(Seq<JsonView>),
    Object(Seq<(Seq<char>, JsonView)>),
}

/// A float text that stands for zero (`0.0` or `-0.0`): the two compare equal.
pub open spec fn zero_text(t: Seq<char>) -> bool {
    t == seq!['0', '.', '0'] || t == seq!['-', '0', '.', '0']
}

/// Number equality as serde_json's `Number` defines it: same kind, same value.
pub open spec fn number_equal(a: NumberView, b: NumberView) -> bool {
    match (a, b) {
        (NumberView::PosInt(x), NumberView::PosInt(y)) => x == y,
        (NumberView::NegInt(x), NumberView::NegInt(y)) => x == y,
        (NumberView::Float(x), NumberView::Float(y)) => x == y || (zero_text(x) && zero_text(y)),
        _ => false,
    }
}

/// Equality of JSON documents as serde_json's `Value` defines it; objects
/// (whose keys are unique) compare as maps.
pub open spec fn json_equal(a: JsonView, b: JsonView) -> bool
    decreases a,
{
    match a {
        JsonView::Null => b is Null,
        JsonView::Bool(x) => b matches JsonView::Bool(y) && x == y,
        JsonView::Number(x) => b matches JsonView::Number(y) && number_equal(x, y),
        JsonView::Str(x) => b matches JsonView::Str(y) && x == y,
        JsonView::Array(xs) => b matches JsonView::Array(ys) && xs.len() == ys.len() && forall|i: int|
            0 <= i < xs.len() ==> json_equal(#[trigger] xs[i], ys[i]),
        JsonView::Object(xs) => b matches JsonView::Object(ys) && xs.len() == ys.len() && forall|i: int|
            0 <= i < xs.len() ==> has_equal_member(ys, #[trigger] xs[i]),
    }
}

/// Some member of `ys` has the key of `m` and a value equal to that of `m`.
pub open spec fn has_equal_member(ys: Seq<(Seq<char>, JsonView)>, m: (Seq<char>, JsonView)) -> bool
    decreases m,
{
    exists|k: int| 0 <= k < ys.len() && ys[k].0 == m.0 && json_equal(m.1, #[trigger] ys[k].1)
}

/// Every document equals itself.
pub proof fn lemma_json_equal_refl(j: JsonView)
    ensures
        json_equal(j, j),
    decreases j,
{
    match j {
        JsonView::Array(xs) => {
            assert forall|i: int| 0 <= i < xs.len() implies json_equal(#[trigger] xs[i], xs[i]) by {
                lemma_json_equal_refl(xs[i]);
            }
        },
        JsonView::Object(ms) => {
            assert forall|i: int| 0 <= i < ms.len() implies has_equal_member(ms, #[trigger] ms[i]) by {
                lemma_json_equal_refl(ms[i].1);
                assert(ms[i].0 == ms[i].0 && json_equal(ms[i].1, ms[i].1));
            }
        },
        _ => {},
    }
}

/// The value of the first member of `ms` with key `key`.
pub open spec fn lookup(ms: Seq<(Seq<char>, JsonView)>, key: Seq<char>) -> Option<JsonView>
    decreases ms.len(),
{
    if ms.len() == 0 {
        None
    } else if ms[0].0 == key {
        Some(ms[0].1)
    } else {
        lookup(ms.drop_first(), key)
    }
}

/// `Value::get(key)`: the member `key` of an object; `None` for anything else.
pub open spec fn view_get(j: JsonView, key: Seq<char>) -> Option<JsonView> {
    match j {
        JsonView::Object(ms) => lookup(ms, key),
        _ => None,
    }
}

/// `Value::as_str`, on a document that may be absent.
pub open spec fn view_str(j: Option<JsonView>) -> Option<Seq<char>> {
    match j {
        Some(JsonView::Str(s)) => Some(s),
        _ => None,
    }
}

/// `Value::as_u64`, on a document that may be absent.
pub open spec fn view_u64(j: Option<JsonView>) -> Option<u64> {
    match j {
        Some(JsonView::Number(NumberView::PosInt(u))) => Some(u),
        _ => None,
    }
}

/// The keys of an object's members, in order.
pub open spec fn member_keys(ms: Seq<(Seq<char>, JsonView)>) -> Seq<Seq<char>> {
    ms.map_values(|m: (Seq<char>, JsonView)| m.0)
}

/// serde_json's `Value`, held opaque.
#[verifier::external_type_specification]
#[verifier::external_body]
pub struct ExValue(serde_json::Value);

/// What a serde_json `Value` holds: its document, object members in the
/// map's order (by key), a float by the text serde_json prints for it.
pub uninterp spec fn value_contents(v: serde_json::Value) -> JsonView;

/// The outcome of `serde_json::from_str::<Value>` on a text: the document, or
/// the error's message.
pub uninterp spec fn parsed_json(text: Seq<char>) -> Result<JsonView, Seq<char>>;

/// The text serde_json writes for a document (`Display` for `Value`).
pub uninterp spec fn json_display(j: JsonView) -> Seq<char>;

/// Parses a JSON text with `serde_json::from_str::<Value>`. The outcome is the
/// named result `parsed_json` of the text; an error is given by its message.
#[verifier::external_body]
pub(crate) fn parse_value(text: &str) -> (r: Result<Value, String>)
    ensures
        match r {
            Ok(v) => parsed_json(text@) == Ok::<JsonView, Seq<char>>(value_contents(v)),
            Err(e) => parsed_json(text@) == Err::<JsonView, Seq<char>>(e@),
        },
{
    serde_json::from_str::<Value>(text).map_err(|e| e.to_string())
}

/// The member `key` of an object value (`Value::get` with a string key).
/// Claims that it is the value of the member that `view_get` finds.
#[verifier::external_body]
pub(crate) fn value_member<'a>(v: &'a Value, key: &str) -> (r: Option<&'a Value>)
    ensures
        match r {
            Some(m) => view_get(value_contents(*v), key@) == Some(value_contents(*m)),
            None => view_get(value_contents(*v), key@) is None,
        },
{
    v.get(key)
}

/// The string of a string value (`Value::as_str`). Claims it is the string
/// the value holds, and `None` exactly for a value that is no string.
#[verifier::external_body]
pub(crate) fn value_as_str(v: &Value) -> (r: Option<&str>)
    ensures
        match r {
            Some(s) => value_contents(*v) == JsonView::Str(s@),
            None => !(value_contents(*v) is Str),
        },
{
    v.as_str()
}

/// The number of a value that is a non-negative integer (`Value::as_u64`).
/// Claims it is that integer, and `None` for any other value.
#[verifier::external_body]
pub(crate) fn value_as_u64(v: &Value) -> (r: Option<u64>)
    ensures
        r == view_u64(Some(value_contents(*v))),
{
    v.as_u64()
}

/// The keys of an object value (`Map::keys`, cloned). Claims they are the
/// keys of the object's members in order, and `None` exactly for a value
/// that is no object.
#[verifier::external_body]
pub(crate) fn value_keys(v: &Value) -> (r: Option<Vec<String>>)
    ensures
        match r {
            Some(ks) => value_contents(*v) matches JsonView::Object(ms) && ks@.map_values(|k: String| k@)
                == member_keys(ms),
            None => !(value_contents(*v) is Object),
        },
{
    match v {
        Value::Object(m) => Some(m.keys().cloned().collect()),
        _ => None,
    }
}

/// Compares two values with serde_json's `PartialEq` for `Value`. Claims the
/// result is `json_equal` of the two documents.
#[verifier::external_body]
pub(crate) fn value_eq(a: &Value, b: &Value) -> (r: bool)
    ensures
        r == json_equal(value_contents(*a), value_contents(*b)),
{
    a == b
}

/// The text serde_json writes for a value (`Value::to_string`). The result
/// is the named result `json_display` of the value's document.
#[verifier::external_body]
pub(crate) fn value_text(v: &Value) -> (r: String)
    ensures
        r@ == json_display(value_contents(*v)),
{
    v.to_string()
}

} // verus!
