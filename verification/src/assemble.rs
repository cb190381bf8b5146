//! The response assembler: from the upstream's status, headers and body
//! bytes (or its transport failure) to the outbound response.
//!
//! A body that parses as JSON is transformed and re-serialized, and goes
//! out under the upstream's status with the upstream's headers, minus any
//! content-length claim — the rewritten body's length differs.  A body
//! that does not parse is answered with a fixed bad-request message, the
//! upstream status discarded.  A transport failure is answered with a
//! server error carrying the failure's description.  Nothing is retried;
//! every failure is terminal, and no failure of one request touches
//! another.

use vstd::prelude::*;
use vstd::string::StringExecFns;
use crate::format::Policy;
use crate::json::spec_json_ok;
use crate::json::spec_transform;
use crate::json::transform;
use crate::parse::convert;
use crate::parse::json_doc;
use crate::parse::parse_value;
use crate::parse::MAX_DEPTH;
use crate::ser::spec_ser;
use crate::ser::to_json_text;
use crate::text::str_to_chars;

verus! {

pub const STATUS_BAD_REQUEST: u16 = 400;

pub const STATUS_INTERNAL_ERROR: u16 = 500;

/// The fixed answer for an upstream body that is not JSON.
pub open spec fn unsupported_body_message() -> Seq<char> {
    "API does not have a json output. This proxy formatter supports only API with json output."@
}

/// The answer for a body nested too deeply to walk.
pub open spec fn too_deep_message() -> Seq<char> {
    "Response body is nested too deeply to be formatted."@
}

/// The answer for a numeric leaf that cannot be rendered; a body parsed
/// from JSON never holds one.
pub open spec fn bad_number_message() -> Seq<char> {
    "Response body holds a numeric value that cannot be formatted."@
}

/// An outbound HTTP response: status, headers, text body.
pub struct Reply {
    pub status: u16,
    pub headers: Vec<(String, Vec<u8>)>,
    pub body: String,
}

/// The headers as plain data: name chars and value bytes.
pub open spec fn spec_headers_model(hs: Seq<(String, Vec<u8>)>) -> Seq<(Seq<char>, Seq<u8>)> {
    Seq::new(hs.len(), |i: int| (hs[i].0@, hs[i].1@))
}

pub open spec fn content_length_chars() -> Seq<char> {
    seq!['c', 'o', 'n', 't', 'e', 'n', 't', '-', 'l', 'e', 'n', 'g', 't', 'h']
}

/// One name character matches the lowercase target character, ignoring
/// ASCII case.
pub open spec fn char_eq_ci(c: char, t: char) -> bool {
    c == t || (97 <= t as u32 <= 122 && c as u32 + 32 == t as u32)
}

/// Whether a header name is `content-length`, ASCII case ignored.
pub open spec fn is_content_length(name: Seq<char>) -> bool {
    name.len() == 14 && (forall|i: int|
        0 <= i < 14 ==> char_eq_ci(#[trigger] name[i], content_length_chars()[i]))
}

/// The headers with every `content-length` entry removed, order kept.
pub open spec fn spec_strip_content_length(hs: Seq<(Seq<char>, Seq<u8>)>) -> Seq<
    (Seq<char>, Seq<u8>),
>
    decreases hs.len(),
{
    if hs.len() == 0 {
        Seq::<(Seq<char>, Seq<u8>)>::empty()
    } else {
        spec_strip_content_length(hs.drop_last()) + (if is_content_length(hs.last().0) {
            Seq::<(Seq<char>, Seq<u8>)>::empty()
        } else {
            seq![hs.last()]
        })
    }
}

fn header_is_content_length(name: &String) -> (r: bool)
    ensures
        r == is_content_length(name@),
{
    let cs = str_to_chars(name.as_str());
    let target: Vec<char> = vec!['c', 'o', 'n', 't', 'e', 'n', 't', '-', 'l', 'e', 'n', 'g', 't', 'h'];
    assert(target@ =~= content_length_chars());
    if cs.len() != 14 {
        return false;
    }
    let mut i: usize = 0;
    while i < 14
        invariant
            i <= 14,
            cs@ == name@,
            cs@.len() == 14,
            target@ == content_length_chars(),
            forall|j: int| 0 <= j < i ==> char_eq_ci(#[trigger] name@[j], content_length_chars()[j]),
        decreases 14 - i,
    {
        let c = cs[i];
        let t = target[i];
        let cu = c as u32 as u64;
        let tu = t as u32 as u64;
        if !(c == t || (tu >= 97 && tu <= 122 && cu + 32 == tu)) {
            assert(!char_eq_ci(name@[i as int], content_length_chars()[i as int]));
            return false;
        }
        i = i + 1;
    }
    true
}

/// Removes every header claiming the body's byte length, keeping the rest
/// in order.
pub fn strip_content_length(headers: Vec<(String, Vec<u8>)>) -> (r: Vec<(String, Vec<u8>)>)
    ensures
        spec_headers_model(r@) == spec_strip_content_length(spec_headers_model(headers@)),
{
    let ghost orig = spec_headers_model(headers@);
    let ghost origv = headers@;
    let mut hs = headers;
    let mut out: Vec<(String, Vec<u8>)> = Vec::new();
    let ghost mut k: int = 0;
    while hs.len() > 0
        invariant
            0 <= k <= origv.len(),
            k + hs@.len() == origv.len(),
            hs@ == origv.skip(k),
            orig == spec_headers_model(origv),
            spec_headers_model(out@) == spec_strip_content_length(orig.take(k)),
        decreases hs@.len(),
    {
        let h = hs.remove(0);
        proof {
            assert(h == origv[k]);
            assert(hs@ =~= origv.skip(k + 1));
        }
        let keep = !header_is_content_length(&h.0);
        let ghost before = spec_headers_model(out@);
        if keep {
            out.push(h);
        }
        proof {
            k = k + 1;
            assert(orig.take(k).drop_last() =~= orig.take(k - 1));
            assert(orig.take(k).last() == orig[k - 1]);
            assert(orig[k - 1] == (origv[k - 1].0@, origv[k - 1].1@));
            if keep {
                assert(spec_headers_model(out@) =~= before + seq![orig[k - 1]]);
            } else {
                assert(spec_headers_model(out@) =~= before);
            }
            assert(spec_headers_model(out@) =~= spec_strip_content_length(orig.take(k)));
        }
    }
    proof {
        assert(orig.take(orig.len() as int) =~= orig);
    }
    out
}

/// Builds the outbound response from an upstream response.  The body is
/// parsed as JSON; on success the transformed, re-serialized document goes
/// out under the upstream status and headers minus content-length.  A body
/// that is not one JSON document is answered `400` with the fixed message,
/// whatever the upstream status; only a document nested at least
/// `MAX_DEPTH` deep is answered `400` for depth; a numeric leaf that
/// cannot be rendered (unreachable for a body that came from JSON) is
/// answered `500`.
pub fn respond(status: u16, headers: Vec<(String, Vec<u8>)>, body: &Vec<u8>, policy: Policy) -> (r:
    Reply)
    ensures
        json_doc(body@) is None ==> r.status == STATUS_BAD_REQUEST && r.body@
            == unsupported_body_message() && r.headers@.len() == 0,
        json_doc(body@) matches Some(doc) ==> {
            ||| {
                &&& spec_json_ok(doc, policy.rescale)
                &&& r.status == status
                &&& spec_headers_model(r.headers@) == spec_strip_content_length(
                    spec_headers_model(headers@),
                )
                &&& r.body@ == spec_ser(spec_transform(doc, policy.rescale))
            }
            ||| {
                &&& crate::json::json_depth(doc) >= MAX_DEPTH
                &&& r.status == STATUS_BAD_REQUEST
                &&& r.body@ == too_deep_message()
            }
            ||| {
                &&& !spec_json_ok(doc, policy.rescale)
                &&& r.status == STATUS_INTERNAL_ERROR
                &&& r.body@ == bad_number_message()
            }
        },
{
    match parse_value(body) {
        None => Reply {
            status: STATUS_BAD_REQUEST,
            headers: Vec::new(),
            body: String::from_str(
                "API does not have a json output. This proxy formatter supports only API with json output.",
            ),
        },
        Some(v) => match convert(v, MAX_DEPTH) {
            Err(_) => Reply {
                status: STATUS_BAD_REQUEST,
                headers: Vec::new(),
                body: String::from_str("Response body is nested too deeply to be formatted."),
            },
            Ok(doc) => match transform(&doc, policy) {
                Err(_) => Reply {
                    status: STATUS_INTERNAL_ERROR,
                    headers: Vec::new(),
                    body: String::from_str(
                        "Response body holds a numeric value that cannot be formatted.",
                    ),
                },
                Ok(t) => Reply {
                    status,
                    headers: strip_content_length(headers),
                    body: to_json_text(&t),
                },
            },
        },
    }
}

/// The outbound response for a transport failure: a server error carrying
/// the failure's description.  Nothing is retried.
pub fn transport_reply(reason: String) -> (r: Reply)
    ensures
        r.status == STATUS_INTERNAL_ERROR,
        r.body@ == reason@,
        r.headers@.len() == 0,
{
    Reply { status: STATUS_INTERNAL_ERROR, headers: Vec::new(), body: reason }
}

} // verus!
