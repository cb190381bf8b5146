//! The number formatter: one raw JSON numeric value in, one human-readable
//! string out.
//!
//! Integers render as their exact decimal digits with a thousands
//! separator.  Floats render per the fixed rule of `decimal`: grouped
//! integer digits, three fractional digits, truncated toward zero.  Under
//! the rescaling policy, a magnitude at or above `10^12` is divided by that
//! threshold (the decimal point moves twelve places left, exactly) and
//! rendered per the float rule, whatever the source kind — so equal values
//! of different kinds render identically.  Rescaling is lossy by design:
//! it trades digits for readability.

use vstd::prelude::*;
use crate::digits::format_i64;
use crate::digits::format_u64;
use crate::digits::lemma_digits_len;
use crate::digits::lemma_digits_len_u64;
use crate::digits::push_digits;
use crate::digits::spec_digits;
use crate::digits::spec_signed;
use crate::digits::spec_unsigned;
use crate::decimal::dec_at_threshold;
use crate::decimal::lemma_parse_dec_bounds;
use crate::decimal::parse_dec;
use crate::decimal::push_fixed3;
use crate::decimal::spec_at_threshold;
use crate::decimal::spec_parse_dec;
use crate::decimal::spec_render_fixed3;
use crate::text::chars_to_string;
use crate::text::str_to_chars;

verus! {

/// The magnitude at or above which the rescaling policy divides a value by
/// `10^12` before rendering it per the float rule.
pub const RESCALE_THRESHOLD: u64 = 1000000000000;

/// The formatting policy: whether large magnitudes are rescaled.
/// Rescaling is off by default.
#[derive(Clone, Copy)]
pub struct Policy {
    pub rescale: bool,
}

impl Default for Policy {
    fn default() -> (r: Self)
        ensures
            !r.rescale,
    {
        Policy { rescale: false }
    }
}

/// The rendering of an unsigned 64-bit value under `rescale`.
pub open spec fn spec_format_uint(u: u64, rescale: bool) -> Seq<char> {
    if rescale && u >= RESCALE_THRESHOLD {
        spec_render_fixed3(false, spec_digits(u as nat), spec_digits(u as nat).len() - 12)
    } else {
        spec_unsigned(u as nat)
    }
}

/// The rendering of a signed 64-bit value under `rescale`.
pub open spec fn spec_format_int(i: i64, rescale: bool) -> Seq<char> {
    let mag = if i < 0 {
        (-(i as int)) as nat
    } else {
        i as nat
    };
    if rescale && mag >= RESCALE_THRESHOLD {
        spec_render_fixed3(i < 0, spec_digits(mag), spec_digits(mag).len() - 12)
    } else {
        spec_signed(i as int)
    }
}

/// The rendering of a float given as decimal text under `rescale`; `None`
/// exactly when the text is not a decimal literal (a float that JSON could
/// not have carried, such as a non-finite one).
pub open spec fn spec_format_float(s: Seq<char>, rescale: bool) -> Option<Seq<char>> {
    match spec_parse_dec(s) {
        None => None,
        Some(parts) => {
            if rescale && spec_at_threshold(parts.1, parts.2) {
                Some(spec_render_fixed3(parts.0, parts.1, parts.2 - 12))
            } else {
                Some(spec_render_fixed3(parts.0, parts.1, parts.2))
            }
        },
    }
}

/// Renders an unsigned 64-bit value: grouped digits, or the rescaled float
/// form at or above the threshold when the policy asks for it.
pub fn format_uint(u: u64, policy: Policy) -> (r: String)
    ensures
        r@ == spec_format_uint(u, policy.rescale),
{
    if policy.rescale && u >= RESCALE_THRESHOLD {
        let mut ds: Vec<char> = Vec::new();
        push_digits(&mut ds, u);
        assert(ds@ =~= spec_digits(u as nat));
        proof {
            lemma_digits_len(u as nat);
            lemma_digits_len_u64(u as nat);
        }
        let point: i64 = ds.len() as i64 - 12;
        let mut out: Vec<char> = Vec::new();
        push_fixed3(&mut out, false, &ds, point);
        chars_to_string(&out)
    } else {
        format_u64(u)
    }
}

/// Renders a signed 64-bit value: sign and grouped digits, or the rescaled
/// float form at or above the threshold when the policy asks for it.
pub fn format_int(i: i64, policy: Policy) -> (r: String)
    ensures
        r@ == spec_format_int(i, policy.rescale),
{
    let neg = i < 0;
    let mag: u64 = if i >= 0 {
        i as u64
    } else if i == i64::MIN {
        9223372036854775808u64
    } else {
        (-i) as u64
    };
    if policy.rescale && mag >= RESCALE_THRESHOLD {
        let mut ds: Vec<char> = Vec::new();
        push_digits(&mut ds, mag);
        assert(ds@ =~= spec_digits(mag as nat));
        proof {
            lemma_digits_len(mag as nat);
            lemma_digits_len_u64(mag as nat);
        }
        let point: i64 = ds.len() as i64 - 12;
        let mut out: Vec<char> = Vec::new();
        push_fixed3(&mut out, neg, &ds, point);
        chars_to_string(&out)
    } else {
        format_i64(i)
    }
}

/// Renders a float from its decimal text; `None` exactly when the text is
/// not a decimal literal.
pub fn format_float(text: &String, policy: Policy) -> (r: Option<String>)
    ensures
        match r {
            Some(s) => spec_format_float(text@, policy.rescale) == Some(s@),
            None => spec_format_float(text@, policy.rescale) is None,
        },
{
    let cs = str_to_chars(text.as_str());
    match parse_dec(&cs) {
        None => None,
        Some(dec) => {
            proof {
                lemma_parse_dec_bounds(cs@);
            }
            let at = dec_at_threshold(&dec);
            let point: i64 = if policy.rescale && at {
                dec.point - 12
            } else {
                dec.point
            };
            let mut out: Vec<char> = Vec::new();
            push_fixed3(&mut out, dec.neg, &dec.digits, point);
            Some(chars_to_string(&out))
        },
    }
}

} // verus!
