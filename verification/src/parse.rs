//! The boundary to the JSON parser.
//!
//! Parsing the upstream body is serde_json's work; everything after it —
//! classifying numbers, walking the tree, formatting, serializing — is the
//! library's own, verified code.  The items here declare serde_json's types
//! to the verifier, name what its calls return, and convert its values into
//! the library's document type, one level per trusted wrapper.
//!
//! serde_json is used with its `preserve_order` feature, so an object's
//! fields come out in document order.

use vstd::prelude::*;
use crate::json::Json;
use crate::json::JsonNum;
use crate::json::JsonValue;

verus! {

#[verifier::external_type_specification]
#[verifier::external_body]
pub struct ExValue(serde_json::Value);

#[verifier::external_type_specification]
#[verifier::external_body]
pub struct ExNumber(serde_json::Number);

/// The document a parsed serde_json value represents.
pub uninterp spec fn value_rep(v: serde_json::Value) -> Json;

/// The parse of a byte sequence: the document, if the bytes are one JSON
/// value the parser accepts (valid, and within the parser's own recursion
/// limit), and nothing otherwise.
pub uninterp spec fn json_doc(bytes: Seq<u8>) -> Option<Json>;

/// What `serde_json::Number::as_i64` returns for a number.
pub uninterp spec fn num_as_i64(n: serde_json::Number) -> Option<i64>;

/// What `serde_json::Number::as_u64` returns for a number.
pub uninterp spec fn num_as_u64(n: serde_json::Number) -> Option<u64>;

/// The decimal text `serde_json::Number`'s serializer prints for a number.
pub uninterp spec fn num_text(n: serde_json::Number) -> Seq<char>;

/// The document a number leaf represents, by the representation it holds:
/// an integer fitting `i64` is signed, any other integer is unsigned, and
/// what remains is a float, carried as its decimal text.
pub open spec fn num_rep(n: serde_json::Number) -> Json {
    if num_as_i64(n) is Some {
        Json::Int(num_as_i64(n).unwrap())
    } else if num_as_u64(n) is Some {
        Json::UInt(num_as_u64(n).unwrap())
    } else {
        Json::Float(num_text(n))
    }
}

/// One level of a parsed value, with the library's own data at the leaves
/// and parsed subvalues below.
pub enum RawNode {
    Null,
    Bool(bool),
    Num(serde_json::Number),
    Str(String),
    Arr(Vec<serde_json::Value>),
    Obj(Vec<(String, serde_json::Value)>),
}

/// Relies on `serde_json::from_slice::<serde_json::Value>`: it returns `Ok`
/// exactly when it accepts the bytes as one JSON document, and then
/// returns that document.
#[verifier::external_body]
pub(crate) fn parse_value(bytes: &Vec<u8>) -> (r: Option<serde_json::Value>)
    ensures
        r is Some <==> json_doc(bytes@) is Some,
        r matches Some(v) ==> json_doc(bytes@) == Some(value_rep(v)),
{
    serde_json::from_slice::<serde_json::Value>(bytes.as_slice()).ok()
}

/// Relies on `serde_json::Value` being the enum of the six JSON kinds it
/// documents, and on `serde_json::Map::into_iter` yielding the fields in
/// order (document order under `preserve_order`): each variant is told
/// apart, its contents moved out.
#[verifier::external_body]
pub(crate) fn value_take(v: serde_json::Value) -> (r: RawNode)
    ensures
        match r {
            RawNode::Null => value_rep(v) == Json::Null,
            RawNode::Bool(b) => value_rep(v) == Json::Bool(b),
            RawNode::Num(n) => value_rep(v) == num_rep(n),
            RawNode::Str(s) => value_rep(v) == Json::Str(s@),
            RawNode::Arr(items) => value_rep(v) matches Json::Arr(ms) && ms.len() == items@.len()
                && (forall|i: int|
                0 <= i < items@.len() ==> value_rep(#[trigger] items@[i]) == ms[i]),
            RawNode::Obj(fields) => value_rep(v) matches Json::Obj(ms) && ms.len() == fields@.len()
                && (forall|i: int|
                0 <= i < fields@.len() ==> ms[i] == (
                    (#[trigger] fields@[i]).0@,
                    value_rep(fields@[i].1),
                )),
        },
{
    match v {
        serde_json::Value::Null => RawNode::Null,
        serde_json::Value::Bool(b) => RawNode::Bool(b),
        serde_json::Value::Number(n) => RawNode::Num(n),
        serde_json::Value::String(s) => RawNode::Str(s),
        serde_json::Value::Array(items) => RawNode::Arr(items),
        serde_json::Value::Object(fields) => RawNode::Obj(fields.into_iter().collect()),
    }
}

/// Relies on `serde_json::Number::as_i64`: `Some` exactly for an integer
/// representable as `i64`.
#[verifier::external_body]
pub(crate) fn number_as_i64(n: &serde_json::Number) -> (r: Option<i64>)
    ensures
        r == num_as_i64(*n),
{
    n.as_i64()
}

/// Relies on `serde_json::Number::as_u64`: `Some` exactly for an integer
/// representable as `u64`.
#[verifier::external_body]
pub(crate) fn number_as_u64(n: &serde_json::Number) -> (r: Option<u64>)
    ensures
        r == num_as_u64(*n),
{
    n.as_u64()
}

/// Relies on `serde_json::Number`'s serializer (its `Display`): the decimal
/// text of the number, a function of the number alone.
#[verifier::external_body]
pub(crate) fn number_text(n: &serde_json::Number) -> (r: String)
    ensures
        r@ == num_text(*n),
{
    n.to_string()
}

/// How deep a document the converter follows before giving up, so that a
/// hostile body cannot exhaust the stack.  Stricter than the parser's own
/// recursion limit, so the bound here is the one that decides.
pub const MAX_DEPTH: u64 = 64;

/// The error for a document nested more deeply than `MAX_DEPTH`.
pub struct DepthError;

/// Converts a parsed value into the library's document type, depth-bounded:
/// it fails only on a document nested at least `depth` deep.
#[verifier::loop_isolation(false)]
pub(crate) fn convert(v: serde_json::Value, depth: u64) -> (r: Result<JsonValue, DepthError>)
    ensures
        r matches Ok(out) ==> out@ == value_rep(v),
        crate::json::json_depth(value_rep(v)) < depth ==> r is Ok,
    decreases depth,
{
    if depth == 0 {
        return Err(DepthError);
    }
    match value_take(v) {
        RawNode::Null => Ok(JsonValue::Null),
        RawNode::Bool(b) => Ok(JsonValue::Bool(b)),
        RawNode::Num(n) => match number_as_i64(&n) {
            Some(i) => Ok(JsonValue::Num(JsonNum::Int(i))),
            None => match number_as_u64(&n) {
                Some(u) => Ok(JsonValue::Num(JsonNum::UInt(u))),
                None => Ok(JsonValue::Num(JsonNum::Float(number_text(&n)))),
            },
        },
        RawNode::Str(s) => Ok(JsonValue::Str(s)),
        RawNode::Arr(items) => {
            let ghost ms = value_rep(v)->Arr_0;
            let ghost orig = items@;
            let mut items = items;
            let mut out: Vec<JsonValue> = Vec::new();
            while items.len() > 0
                invariant
                    depth >= 1,
                    out@.len() + items@.len() == orig.len(),
                    items@ == orig.skip(out@.len() as int),
                    ms.len() == orig.len(),
                    forall|i: int| 0 <= i < orig.len() ==> value_rep(#[trigger] orig[i]) == ms[i],
                    forall|i: int| 0 <= i < out@.len() ==> #[trigger] out@[i].model() == ms[i],
                decreases items@.len(),
            {
                let x = items.remove(0);
                proof {
                    assert(x == orig[out@.len() as int]);
                    assert(items@ =~= orig.skip(out@.len() as int + 1));
                }
                match convert(x, depth - 1) {
                    Ok(c) => {
                        out.push(c);
                    },
                    Err(e) => {
                        proof {
                            crate::json::lemma_depth_items(ms);
                            assert(crate::json::json_depth(ms[out@.len() as int]) >= depth - 1);
                        }
                        return Err(e);
                    },
                }
            }
            proof {
                crate::json::lemma_model_items(out@);
                assert(crate::json::model_items(out@) =~= ms);
            }
            Ok(JsonValue::Arr(out))
        },
        RawNode::Obj(fields) => {
            let ghost ms = value_rep(v)->Obj_0;
            let ghost orig = fields@;
            let mut fields = fields;
            let mut out: Vec<(String, JsonValue)> = Vec::new();
            while fields.len() > 0
                invariant
                    depth >= 1,
                    out@.len() + fields@.len() == orig.len(),
                    fields@ == orig.skip(out@.len() as int),
                    ms.len() == orig.len(),
                    forall|i: int|
                        0 <= i < orig.len() ==> ms[i] == (
                            (#[trigger] orig[i]).0@,
                            value_rep(orig[i].1),
                        ),
                    forall|i: int|
                        0 <= i < out@.len() ==> ((#[trigger] out@[i]).0@, out@[i].1.model()) == ms[i],
                decreases fields@.len(),
            {
                let x = fields.remove(0);
                proof {
                    assert(x == orig[out@.len() as int]);
                    assert(fields@ =~= orig.skip(out@.len() as int + 1));
                }
                match convert(x.1, depth - 1) {
                    Ok(c) => {
                        out.push((x.0, c));
                    },
                    Err(e) => {
                        proof {
                            crate::json::lemma_depth_fields(ms);
                            assert(crate::json::json_depth(ms[out@.len() as int].1) >= depth - 1);
                        }
                        return Err(e);
                    },
                }
            }
            proof {
                crate::json::lemma_model_fields(out@);
                assert(crate::json::model_fields(out@) =~= ms);
            }
            Ok(JsonValue::Obj(out))
        },
    }
}

} // verus!
