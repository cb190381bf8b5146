//! The JSON document model and the tree transformer.
//!
//! A document is a tree of nulls, booleans, numbers, strings, arrays and
//! objects; object fields keep their order.  A number carries the
//! representation found in the document: signed, unsigned, or a float — a
//! float as the decimal text its serializer printed, which is all the
//! formatting rule reads of it.  The transformer rebuilds the tree with
//! every number leaf replaced by a string leaf holding its rendering, and
//! changes nothing else.

use vstd::prelude::*;
use crate::format::format_float;
use crate::format::format_int;
use crate::format::format_uint;
use crate::format::spec_format_float;
use crate::format::spec_format_int;
use crate::format::spec_format_uint;
use crate::format::Policy;

verus! {

/// The mathematical form of a JSON document.
pub enum Json {
    Null,
    Bool(bool),
    Int(i64),
    UInt(u64),
    Float(Seq<char>),
    Str(Seq<char>),
    Arr(Seq<Json>),
    Obj(Seq<(Seq<char>, Json)>),
}

/// A JSON numeric value, tagged with the representation present in the
/// parsed document.
pub enum JsonNum {
    Int(i64),
    UInt(u64),
    /// A float, carried as the decimal text its JSON serializer printed.
    Float(String),
}

/// A JSON document.
pub enum JsonValue {
    Null,
    Bool(bool),
    Num(JsonNum),
    Str(String),
    Arr(Vec<JsonValue>),
    Obj(Vec<(String, JsonValue)>),
}

impl JsonValue {
    /// The document this value represents.
    pub open spec fn model(self) -> Json
        decreases self, 1int,
    {
        match self {
            JsonValue::Null => Json::Null,
            JsonValue::Bool(b) => Json::Bool(b),
            JsonValue::Num(JsonNum::Int(i)) => Json::Int(i),
            JsonValue::Num(JsonNum::UInt(u)) => Json::UInt(u),
            JsonValue::Num(JsonNum::Float(t)) => Json::Float(t@),
            JsonValue::Str(s) => Json::Str(s@),
            JsonValue::Arr(items) => {
                proof {
                    assert(decreases_to!(self => items));
                    assert(decreases_to!(items => items@));
                }
                Json::Arr(model_items(items@))
            },
            JsonValue::Obj(fields) => {
                proof {
                    assert(decreases_to!(self => fields));
                    assert(decreases_to!(fields => fields@));
                }
                Json::Obj(model_fields(fields@))
            },
        }
    }
}

/// The documents a sequence of values represents, element by element.
pub open spec fn model_items(items: Seq<JsonValue>) -> Seq<Json>
    decreases items, 0int,
{
    if items.len() == 0 {
        Seq::<Json>::empty()
    } else {
        model_items(items.subrange(0, items.len() - 1)).push(items[items.len() - 1].model())
    }
}

/// The fields a sequence of key-value pairs represents, pair by pair.
pub open spec fn model_fields(fields: Seq<(String, JsonValue)>) -> Seq<(Seq<char>, Json)>
    decreases fields, 0int,
{
    if fields.len() == 0 {
        Seq::<(Seq<char>, Json)>::empty()
    } else {
        model_fields(fields.subrange(0, fields.len() - 1)).push(
            (fields[fields.len() - 1].0@, fields[fields.len() - 1].1.model()),
        )
    }
}

/// `model_items`, element by element.
pub proof fn lemma_model_items(items: Seq<JsonValue>)
    ensures
        model_items(items).len() == items.len(),
        forall|i: int| 0 <= i < items.len() ==> model_items(items)[i] == items[i].model(),
    decreases items.len(),
{
    if items.len() > 0 {
        lemma_model_items(items.subrange(0, items.len() - 1));
    }
}

/// `model_fields`, pair by pair.
pub proof fn lemma_model_fields(fields: Seq<(String, JsonValue)>)
    ensures
        model_fields(fields).len() == fields.len(),
        forall|i: int|
            0 <= i < fields.len() ==> model_fields(fields)[i] == (
                fields[i].0@,
                fields[i].1.model(),
            ),
    decreases fields.len(),
{
    if fields.len() > 0 {
        lemma_model_fields(fields.subrange(0, fields.len() - 1));
    }
}

impl View for JsonValue {
    type V = Json;

    open spec fn view(&self) -> Json {
        self.model()
    }
}

/// The error for a numeric leaf that cannot be rendered: a float whose
/// text is not a decimal literal.  A document parsed from JSON never
/// holds one, since JSON cannot encode non-finite numbers.
pub struct FormatError;

/// Whether every float leaf of the document carries decimal text the
/// formatting rule accepts.
pub open spec fn spec_json_ok(j: Json, rescale: bool) -> bool
    decreases j, 1int,
{
    match j {
        Json::Float(s) => spec_format_float(s, rescale) is Some,
        Json::Arr(items) => spec_json_ok_items(items, rescale),
        Json::Obj(fields) => spec_json_ok_fields(fields, rescale),
        _ => true,
    }
}

pub open spec fn spec_json_ok_items(items: Seq<Json>, rescale: bool) -> bool
    decreases items, 0int,
{
    if items.len() == 0 {
        true
    } else {
        spec_json_ok_items(items.subrange(0, items.len() - 1), rescale) && spec_json_ok(
            items[items.len() - 1],
            rescale,
        )
    }
}

pub open spec fn spec_json_ok_fields(fields: Seq<(Seq<char>, Json)>, rescale: bool) -> bool
    decreases fields, 0int,
{
    if fields.len() == 0 {
        true
    } else {
        spec_json_ok_fields(fields.subrange(0, fields.len() - 1), rescale) && spec_json_ok(
            fields[fields.len() - 1].1,
            rescale,
        )
    }
}

/// `spec_json_ok_items` holds exactly when it holds of every element.
pub proof fn lemma_json_ok_items(items: Seq<Json>, rescale: bool)
    ensures
        spec_json_ok_items(items, rescale) <==> (forall|i: int|
            0 <= i < items.len() ==> spec_json_ok(#[trigger] items[i], rescale)),
    decreases items.len(),
{
    if items.len() > 0 {
        lemma_json_ok_items(items.subrange(0, items.len() - 1), rescale);
        assert(forall|i: int|
            0 <= i < items.len() - 1 ==> items.subrange(0, items.len() - 1)[i] == #[trigger] items[i]);
    }
}

/// `spec_json_ok_fields` holds exactly when it holds of every field value.
pub proof fn lemma_json_ok_fields(fields: Seq<(Seq<char>, Json)>, rescale: bool)
    ensures
        spec_json_ok_fields(fields, rescale) <==> (forall|i: int|
            0 <= i < fields.len() ==> spec_json_ok((#[trigger] fields[i]).1, rescale)),
    decreases fields.len(),
{
    if fields.len() > 0 {
        lemma_json_ok_fields(fields.subrange(0, fields.len() - 1), rescale);
        assert(forall|i: int|
            0 <= i < fields.len() - 1 ==> fields.subrange(0, fields.len() - 1)[i]
                == #[trigger] fields[i]);
    }
}

/// The transformed document: the same tree, every number leaf replaced by
/// a string leaf holding its rendering, everything else unchanged.
pub open spec fn spec_transform(j: Json, rescale: bool) -> Json
    decreases j, 1int,
{
    match j {
        Json::Null => Json::Null,
        Json::Bool(b) => Json::Bool(b),
        Json::Int(i) => Json::Str(spec_format_int(i, rescale)),
        Json::UInt(u) => Json::Str(spec_format_uint(u, rescale)),
        Json::Float(s) => Json::Str(
            if spec_format_float(s, rescale) is Some {
                spec_format_float(s, rescale).unwrap()
            } else {
                Seq::<char>::empty()
            },
        ),
        Json::Str(s) => Json::Str(s),
        Json::Arr(items) => Json::Arr(spec_transform_items(items, rescale)),
        Json::Obj(fields) => Json::Obj(spec_transform_fields(fields, rescale)),
    }
}

pub open spec fn spec_transform_items(items: Seq<Json>, rescale: bool) -> Seq<Json>
    decreases items, 0int,
{
    if items.len() == 0 {
        Seq::<Json>::empty()
    } else {
        spec_transform_items(items.subrange(0, items.len() - 1), rescale).push(
            spec_transform(items[items.len() - 1], rescale),
        )
    }
}

pub open spec fn spec_transform_fields(fields: Seq<(Seq<char>, Json)>, rescale: bool) -> Seq<
    (Seq<char>, Json),
>
    decreases fields, 0int,
{
    if fields.len() == 0 {
        Seq::<(Seq<char>, Json)>::empty()
    } else {
        spec_transform_fields(fields.subrange(0, fields.len() - 1), rescale).push(
            (fields[fields.len() - 1].0, spec_transform(fields[fields.len() - 1].1, rescale)),
        )
    }
}

/// `spec_transform_items`, element by element.
pub proof fn lemma_transform_items(items: Seq<Json>, rescale: bool)
    ensures
        spec_transform_items(items, rescale).len() == items.len(),
        forall|i: int|
            0 <= i < items.len() ==> spec_transform_items(items, rescale)[i] == spec_transform(
                #[trigger] items[i],
                rescale,
            ),
    decreases items.len(),
{
    if items.len() > 0 {
        lemma_transform_items(items.subrange(0, items.len() - 1), rescale);
        assert(forall|i: int|
            0 <= i < items.len() - 1 ==> items.subrange(0, items.len() - 1)[i] == #[trigger] items[i]);
    }
}

/// `spec_transform_fields`, pair by pair: keys are kept, values transformed.
pub proof fn lemma_transform_fields(fields: Seq<(Seq<char>, Json)>, rescale: bool)
    ensures
        spec_transform_fields(fields, rescale).len() == fields.len(),
        forall|i: int|
            0 <= i < fields.len() ==> spec_transform_fields(fields, rescale)[i] == (
                (#[trigger] fields[i]).0,
                spec_transform(fields[i].1, rescale),
            ),
    decreases fields.len(),
{
    if fields.len() > 0 {
        lemma_transform_fields(fields.subrange(0, fields.len() - 1), rescale);
        assert(forall|i: int|
            0 <= i < fields.len() - 1 ==> fields.subrange(0, fields.len() - 1)[i]
                == #[trigger] fields[i]);
    }
}

/// Rebuilds the document with every number leaf rendered as a string.
/// Fails exactly when some float leaf carries text that is not a decimal
/// literal; the shape of the tree and every other leaf are preserved.
#[verifier::loop_isolation(false)]
pub fn transform(v: &JsonValue, policy: Policy) -> (r: Result<JsonValue, FormatError>)
    ensures
        r is Ok <==> spec_json_ok(v@, policy.rescale),
        r matches Ok(t) ==> t@ == spec_transform(v@, policy.rescale),
    decreases *v,
{
    match v {
        JsonValue::Null => Ok(JsonValue::Null),
        JsonValue::Bool(b) => Ok(JsonValue::Bool(*b)),
        JsonValue::Num(JsonNum::Int(i)) => Ok(JsonValue::Str(format_int(*i, policy))),
        JsonValue::Num(JsonNum::UInt(u)) => Ok(JsonValue::Str(format_uint(*u, policy))),
        JsonValue::Num(JsonNum::Float(text)) => match format_float(text, policy) {
            Some(s) => Ok(JsonValue::Str(s)),
            None => Err(FormatError),
        },
        JsonValue::Str(s) => Ok(JsonValue::Str(s.clone())),
        JsonValue::Arr(items) => {
            let ghost m = v@->Arr_0;
            proof {
                lemma_model_items(items@);
                lemma_json_ok_items(m, policy.rescale);
                lemma_transform_items(m, policy.rescale);
            }
            let mut out: Vec<JsonValue> = Vec::new();
            let n = items.len();
            let mut j: usize = 0;
            while j < n
                invariant
                    j <= n == items@.len(),
                    m == v@->Arr_0,
                    m.len() == items@.len(),
                    forall|i: int| 0 <= i < items@.len() ==> m[i] == #[trigger] items@[i].model(),
                    out@.len() == j,
                    forall|i: int|
                        0 <= i < j ==> spec_json_ok(#[trigger] items@[i].model(), policy.rescale),
                    forall|i: int|
                        0 <= i < j ==> #[trigger] out@[i].model() == spec_transform(
                            items@[i].model(),
                            policy.rescale,
                        ),
                decreases n - j,
            {
                proof {
                    let vv = *v;
                    assert(items@ == vv->Arr_0@);
                    assert(decreases_to!(vv => vv->Arr_0));
                    assert(decreases_to!(vv->Arr_0 => vv->Arr_0@));
                    assert(decreases_to!(vv->Arr_0@ => vv->Arr_0@[j as int]));
                }
                match transform(&items[j], policy) {
                    Ok(t) => {
                        out.push(t);
                    },
                    Err(e) => {
                        proof {
                            assert(!spec_json_ok(m[j as int], policy.rescale));
                            lemma_json_ok_items(m, policy.rescale);
                        }
                        return Err(e);
                    },
                }
                j = j + 1;
            }
            proof {
                lemma_model_items(out@);
                lemma_json_ok_items(m, policy.rescale);
                lemma_transform_items(m, policy.rescale);
                assert(model_items(out@) =~= spec_transform_items(m, policy.rescale));
            }
            Ok(JsonValue::Arr(out))
        },
        JsonValue::Obj(fields) => {
            let ghost m = v@->Obj_0;
            proof {
                lemma_model_fields(fields@);
                lemma_json_ok_fields(m, policy.rescale);
                lemma_transform_fields(m, policy.rescale);
            }
            let mut out: Vec<(String, JsonValue)> = Vec::new();
            let n = fields.len();
            let mut j: usize = 0;
            while j < n
                invariant
                    j <= n == fields@.len(),
                    m == v@->Obj_0,
                    m.len() == fields@.len(),
                    forall|i: int|
                        0 <= i < fields@.len() ==> m[i] == (
                            (#[trigger] fields@[i]).0@,
                            fields@[i].1.model(),
                        ),
                    out@.len() == j,
                    forall|i: int|
                        0 <= i < j ==> spec_json_ok(#[trigger] fields@[i].1.model(), policy.rescale),
                    forall|i: int|
                        0 <= i < j ==> #[trigger] out@[i].0@ == fields@[i].0@ && out@[i].1.model()
                            == spec_transform(fields@[i].1.model(), policy.rescale),
                decreases n - j,
            {
                let key = fields[j].0.clone();
                proof {
                    let vv = *v;
                    assert(fields@ == vv->Obj_0@);
                    assert(decreases_to!(vv => vv->Obj_0));
                    assert(decreases_to!(vv->Obj_0 => vv->Obj_0@));
                    assert(decreases_to!(vv->Obj_0@ => vv->Obj_0@[j as int]));
                    assert(decreases_to!(vv->Obj_0@[j as int] => vv->Obj_0@[j as int].1));
                }
                match transform(&fields[j].1, policy) {
                    Ok(t) => {
                        out.push((key, t));
                    },
                    Err(e) => {
                        proof {
                            assert(!spec_json_ok(m[j as int].1, policy.rescale));
                            lemma_json_ok_fields(m, policy.rescale);
                        }
                        return Err(e);
                    },
                }
                j = j + 1;
            }
            proof {
                lemma_model_fields(out@);
                lemma_json_ok_fields(m, policy.rescale);
                lemma_transform_fields(m, policy.rescale);
                assert(model_fields(out@) =~= spec_transform_fields(m, policy.rescale));
            }
            Ok(JsonValue::Obj(out))
        },
    }
}

/// The nesting depth of a document: leaves are flat, a container is one
/// deeper than its deepest child.
pub open spec fn json_depth(j: Json) -> nat
    decreases j, 1int,
{
    match j {
        Json::Arr(items) => 1 + json_depth_items(items),
        Json::Obj(fields) => 1 + json_depth_fields(fields),
        _ => 0,
    }
}

pub open spec fn json_depth_items(items: Seq<Json>) -> nat
    decreases items, 0int,
{
    if items.len() == 0 {
        0
    } else {
        let rest = json_depth_items(items.subrange(0, items.len() - 1));
        let last = json_depth(items[items.len() - 1]);
        if rest >= last {
            rest
        } else {
            last
        }
    }
}

pub open spec fn json_depth_fields(fields: Seq<(Seq<char>, Json)>) -> nat
    decreases fields, 0int,
{
    if fields.len() == 0 {
        0
    } else {
        let rest = json_depth_fields(fields.subrange(0, fields.len() - 1));
        let last = json_depth(fields[fields.len() - 1].1);
        if rest >= last {
            rest
        } else {
            last
        }
    }
}

/// No element is deeper than the sequence's depth.
pub proof fn lemma_depth_items(items: Seq<Json>)
    ensures
        forall|i: int|
            0 <= i < items.len() ==> json_depth(#[trigger] items[i]) <= json_depth_items(items),
    decreases items.len(),
{
    if items.len() > 0 {
        lemma_depth_items(items.subrange(0, items.len() - 1));
        assert(forall|i: int|
            0 <= i < items.len() - 1 ==> items.subrange(0, items.len() - 1)[i] == #[trigger] items[i]);
    }
}

/// No field value is deeper than the sequence's depth.
pub proof fn lemma_depth_fields(fields: Seq<(Seq<char>, Json)>)
    ensures
        forall|i: int|
            0 <= i < fields.len() ==> json_depth((#[trigger] fields[i]).1) <= json_depth_fields(
                fields,
            ),
    decreases fields.len(),
{
    if fields.len() > 0 {
        lemma_depth_fields(fields.subrange(0, fields.len() - 1));
        assert(forall|i: int|
            0 <= i < fields.len() - 1 ==> fields.subrange(0, fields.len() - 1)[i]
                == #[trigger] fields[i]);
    }
}

/// Shape preservation, leaf by leaf: `b` is `a` with every number leaf
/// replaced by some string leaf — key order, array length and order, and
/// all other leaves exactly as in `a`.
pub open spec fn same_shape_formatted(a: Json, b: Json) -> bool
    decreases a, 1int,
{
    match a {
        Json::Null => b == Json::Null,
        Json::Bool(x) => b == Json::Bool(x),
        Json::Int(_) => b is Str,
        Json::UInt(_) => b is Str,
        Json::Float(_) => b is Str,
        Json::Str(s) => b == Json::Str(s),
        Json::Arr(xs) => b matches Json::Arr(ys) && same_shape_items(xs, ys),
        Json::Obj(fs) => b matches Json::Obj(gs) && same_shape_fields(fs, gs),
    }
}

pub open spec fn same_shape_items(xs: Seq<Json>, ys: Seq<Json>) -> bool
    decreases xs, 0int,
{
    if xs.len() != ys.len() {
        false
    } else if xs.len() == 0 {
        true
    } else {
        same_shape_items(xs.subrange(0, xs.len() - 1), ys.subrange(0, ys.len() - 1))
            && same_shape_formatted(xs[xs.len() - 1], ys[ys.len() - 1])
    }
}

pub open spec fn same_shape_fields(fs: Seq<(Seq<char>, Json)>, gs: Seq<(Seq<char>, Json)>) -> bool
    decreases fs, 0int,
{
    if fs.len() != gs.len() {
        false
    } else if fs.len() == 0 {
        true
    } else {
        same_shape_fields(fs.subrange(0, fs.len() - 1), gs.subrange(0, gs.len() - 1))
            && fs[fs.len() - 1].0 == gs[gs.len() - 1].0 && same_shape_formatted(
            fs[fs.len() - 1].1,
            gs[gs.len() - 1].1,
        )
    }
}

/// Law: the transformer preserves object key sets and order and array
/// lengths and order, turns every number leaf into a string leaf, and
/// leaves every other leaf unchanged.
pub proof fn lemma_transform_preserves_shape(j: Json, rescale: bool)
    ensures
        same_shape_formatted(j, spec_transform(j, rescale)),
    decreases j, 1int,
{
    match j {
        Json::Arr(xs) => {
            lemma_transform_preserves_shape_items(xs, rescale);
        },
        Json::Obj(fs) => {
            lemma_transform_preserves_shape_fields(fs, rescale);
        },
        _ => {},
    }
}

proof fn lemma_transform_preserves_shape_items(xs: Seq<Json>, rescale: bool)
    ensures
        same_shape_items(xs, spec_transform_items(xs, rescale)),
    decreases xs, 0int,
{
    if xs.len() > 0 {
        lemma_transform_preserves_shape_items(xs.subrange(0, xs.len() - 1), rescale);
        lemma_transform_preserves_shape(xs[xs.len() - 1], rescale);
        lemma_transform_items(xs, rescale);
        assert(spec_transform_items(xs, rescale).subrange(0, xs.len() - 1) =~= spec_transform_items(
            xs.subrange(0, xs.len() - 1),
            rescale,
        ));
    }
}

proof fn lemma_transform_preserves_shape_fields(fs: Seq<(Seq<char>, Json)>, rescale: bool)
    ensures
        same_shape_fields(fs, spec_transform_fields(fs, rescale)),
    decreases fs, 0int,
{
    if fs.len() > 0 {
        lemma_transform_preserves_shape_fields(fs.subrange(0, fs.len() - 1), rescale);
        lemma_transform_preserves_shape(fs[fs.len() - 1].1, rescale);
        lemma_transform_fields(fs, rescale);
        assert(spec_transform_fields(fs, rescale).subrange(0, fs.len() - 1)
            =~= spec_transform_fields(fs.subrange(0, fs.len() - 1), rescale));
    }
}

/// Whether the document holds no number leaf at all.
pub open spec fn no_numbers(j: Json) -> bool
    decreases j, 1int,
{
    match j {
        Json::Int(_) => false,
        Json::UInt(_) => false,
        Json::Float(_) => false,
        Json::Arr(items) => no_numbers_items(items),
        Json::Obj(fields) => no_numbers_fields(fields),
        _ => true,
    }
}

pub open spec fn no_numbers_items(items: Seq<Json>) -> bool
    decreases items, 0int,
{
    if items.len() == 0 {
        true
    } else {
        no_numbers_items(items.subrange(0, items.len() - 1)) && no_numbers(items[items.len() - 1])
    }
}

pub open spec fn no_numbers_fields(fields: Seq<(Seq<char>, Json)>) -> bool
    decreases fields, 0int,
{
    if fields.len() == 0 {
        true
    } else {
        no_numbers_fields(fields.subrange(0, fields.len() - 1)) && no_numbers(
            fields[fields.len() - 1].1,
        )
    }
}

/// The transformer's output holds no number leaves.
pub proof fn lemma_transform_no_numbers(j: Json, rescale: bool)
    ensures
        no_numbers(spec_transform(j, rescale)),
    decreases j, 1int,
{
    match j {
        Json::Arr(xs) => {
            lemma_transform_no_numbers_items(xs, rescale);
        },
        Json::Obj(fs) => {
            lemma_transform_no_numbers_fields(fs, rescale);
        },
        _ => {},
    }
}

proof fn lemma_transform_no_numbers_items(xs: Seq<Json>, rescale: bool)
    ensures
        no_numbers_items(spec_transform_items(xs, rescale)),
    decreases xs, 0int,
{
    if xs.len() > 0 {
        lemma_transform_no_numbers_items(xs.subrange(0, xs.len() - 1), rescale);
        lemma_transform_no_numbers(xs[xs.len() - 1], rescale);
        lemma_transform_items(xs, rescale);
        assert(spec_transform_items(xs, rescale).subrange(0, xs.len() - 1) =~= spec_transform_items(
            xs.subrange(0, xs.len() - 1),
            rescale,
        ));
    }
}

proof fn lemma_transform_no_numbers_fields(fs: Seq<(Seq<char>, Json)>, rescale: bool)
    ensures
        no_numbers_fields(spec_transform_fields(fs, rescale)),
    decreases fs, 0int,
{
    if fs.len() > 0 {
        lemma_transform_no_numbers_fields(fs.subrange(0, fs.len() - 1), rescale);
        lemma_transform_no_numbers(fs[fs.len() - 1].1, rescale);
        lemma_transform_fields(fs, rescale);
        assert(spec_transform_fields(fs, rescale).subrange(0, fs.len() - 1)
            =~= spec_transform_fields(fs.subrange(0, fs.len() - 1), rescale));
    }
}

/// A document without number leaves is left exactly as it is: the
/// transformer never re-parses strings as numbers.
pub proof fn lemma_transform_fixpoint(j: Json, rescale: bool)
    requires
        no_numbers(j),
    ensures
        spec_transform(j, rescale) == j,
        spec_json_ok(j, rescale),
    decreases j, 1int,
{
    match j {
        Json::Arr(xs) => {
            lemma_transform_fixpoint_items(xs, rescale);
        },
        Json::Obj(fs) => {
            lemma_transform_fixpoint_fields(fs, rescale);
        },
        _ => {},
    }
}

proof fn lemma_transform_fixpoint_items(xs: Seq<Json>, rescale: bool)
    requires
        no_numbers_items(xs),
    ensures
        spec_transform_items(xs, rescale) == xs,
        spec_json_ok_items(xs, rescale),
    decreases xs, 0int,
{
    if xs.len() > 0 {
        lemma_transform_fixpoint_items(xs.subrange(0, xs.len() - 1), rescale);
        lemma_transform_fixpoint(xs[xs.len() - 1], rescale);
        assert(spec_transform_items(xs, rescale) =~= xs);
    }
}

proof fn lemma_transform_fixpoint_fields(fs: Seq<(Seq<char>, Json)>, rescale: bool)
    requires
        no_numbers_fields(fs),
    ensures
        spec_transform_fields(fs, rescale) == fs,
        spec_json_ok_fields(fs, rescale),
    decreases fs, 0int,
{
    if fs.len() > 0 {
        lemma_transform_fixpoint_fields(fs.subrange(0, fs.len() - 1), rescale);
        lemma_transform_fixpoint(fs[fs.len() - 1].1, rescale);
        assert(spec_transform_fields(fs, rescale) =~= fs);
    }
}

/// Law: running the transformer on its own output changes nothing — not
/// because the pass is idempotent on numbers, but because the output has
/// no number leaves left and strings are never re-parsed.
pub proof fn lemma_transform_twice(j: Json, rescale: bool)
    ensures
        spec_transform(spec_transform(j, rescale), rescale) == spec_transform(j, rescale),
{
    lemma_transform_no_numbers(j, rescale);
    lemma_transform_fixpoint(spec_transform(j, rescale), rescale);
}

} // verus!
