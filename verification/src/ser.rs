//! Serialization of a document back to compact JSON text, exact to the
//! character: no whitespace, fields in order, strings escaped as JSON asks
//! (quote, backslash, and control characters; the short escapes where they
//! exist, `\u00XX` otherwise).

use vstd::prelude::*;
use crate::digits::digit_char;
use crate::digits::push_digits;
use crate::digits::spec_digits;
use crate::json::Json;
use crate::json::JsonNum;
use crate::json::JsonValue;
use crate::text::chars_to_string;
use crate::text::str_to_chars;

verus! {

/// The lowercase hex digit for a value below sixteen.
pub open spec fn hex_char(d: nat) -> char {
    if d < 10 {
        digit_char(d)
    } else if d == 10 {
        'a'
    } else if d == 11 {
        'b'
    } else if d == 12 {
        'c'
    } else if d == 13 {
        'd'
    } else if d == 14 {
        'e'
    } else {
        'f'
    }
}

/// The JSON escape of one string character.
pub open spec fn spec_escape_char(c: char) -> Seq<char> {
    if c == '"' {
        seq!['\\', '"']
    } else if c == '\\' {
        seq!['\\', '\\']
    } else if c == '\u{8}' {
        seq!['\\', 'b']
    } else if c == '\t' {
        seq!['\\', 't']
    } else if c == '\n' {
        seq!['\\', 'n']
    } else if c == '\u{c}' {
        seq!['\\', 'f']
    } else if c == '\r' {
        seq!['\\', 'r']
    } else if (c as u32) < 0x20 {
        seq!['\\', 'u', '0', '0', hex_char((c as u32 / 16) as nat), hex_char((c as u32 % 16) as nat)]
    } else {
        seq![c]
    }
}

/// The JSON escape of a whole string body.
pub open spec fn spec_escape(s: Seq<char>) -> Seq<char>
    decreases s.len(),
{
    if s.len() == 0 {
        Seq::<char>::empty()
    } else {
        spec_escape(s.drop_last()) + spec_escape_char(s.last())
    }
}

/// A JSON string: the escaped body in quotes.
pub open spec fn spec_ser_string(s: Seq<char>) -> Seq<char> {
    seq!['"'] + spec_escape(s) + seq!['"']
}

/// The plain (ungrouped) decimal rendering of a signed value.
pub open spec fn spec_plain_int(i: int) -> Seq<char> {
    if i < 0 {
        seq!['-'] + spec_digits((-i) as nat)
    } else {
        spec_digits(i as nat)
    }
}

/// The compact JSON text of a document.
pub open spec fn spec_ser(j: Json) -> Seq<char>
    decreases j, 1int,
{
    match j {
        Json::Null => seq!['n', 'u', 'l', 'l'],
        Json::Bool(b) => if b {
            seq!['t', 'r', 'u', 'e']
        } else {
            seq!['f', 'a', 'l', 's', 'e']
        },
        Json::Int(i) => spec_plain_int(i as int),
        Json::UInt(u) => spec_digits(u as nat),
        Json::Float(s) => s,
        Json::Str(s) => spec_ser_string(s),
        Json::Arr(items) => seq!['['] + spec_ser_items(items) + seq![']'],
        Json::Obj(fields) => seq!['{'] + spec_ser_fields(fields) + seq!['}'],
    }
}

pub open spec fn spec_ser_items(items: Seq<Json>) -> Seq<char>
    decreases items, 0int,
{
    if items.len() == 0 {
        Seq::<char>::empty()
    } else {
        spec_ser_items(items.subrange(0, items.len() - 1)) + (if items.len() == 1 {
            Seq::<char>::empty()
        } else {
            seq![',']
        }) + spec_ser(items[items.len() - 1])
    }
}

pub open spec fn spec_ser_fields(fields: Seq<(Seq<char>, Json)>) -> Seq<char>
    decreases fields, 0int,
{
    if fields.len() == 0 {
        Seq::<char>::empty()
    } else {
        spec_ser_fields(fields.subrange(0, fields.len() - 1)) + (if fields.len() == 1 {
            Seq::<char>::empty()
        } else {
            seq![',']
        }) + spec_ser_string(fields[fields.len() - 1].0) + seq![':'] + spec_ser(
            fields[fields.len() - 1].1,
        )
    }
}

fn hex_char_x(d: u32) -> (c: char)
    requires
        d < 16,
    ensures
        c == hex_char(d as nat),
{
    match d {
        0 => '0',
        1 => '1',
        2 => '2',
        3 => '3',
        4 => '4',
        5 => '5',
        6 => '6',
        7 => '7',
        8 => '8',
        9 => '9',
        10 => 'a',
        11 => 'b',
        12 => 'c',
        13 => 'd',
        14 => 'e',
        _ => 'f',
    }
}

fn push_escape_char(out: &mut Vec<char>, c: char)
    ensures
        final(out)@ == old(out)@ + spec_escape_char(c),
{
    if c == '"' {
        out.push('\\');
        out.push('"');
    } else if c == '\\' {
        out.push('\\');
        out.push('\\');
    } else if c == '\u{8}' {
        out.push('\\');
        out.push('b');
    } else if c == '\t' {
        out.push('\\');
        out.push('t');
    } else if c == '\n' {
        out.push('\\');
        out.push('n');
    } else if c == '\u{c}' {
        out.push('\\');
        out.push('f');
    } else if c == '\r' {
        out.push('\\');
        out.push('r');
    } else if (c as u32) < 0x20 {
        out.push('\\');
        out.push('u');
        out.push('0');
        out.push('0');
        out.push(hex_char_x(c as u32 / 16));
        out.push(hex_char_x(c as u32 % 16));
    } else {
        out.push(c);
    }
    assert(out@ =~= old(out)@ + spec_escape_char(c));
}

fn push_string_body(out: &mut Vec<char>, s: &Vec<char>)
    ensures
        final(out)@ == old(out)@ + spec_escape(s@),
{
    let mut i: usize = 0;
    while i < s.len()
        invariant
            i <= s@.len(),
            out@ == old(out)@ + spec_escape(s@.take(i as int)),
        decreases s@.len() - i,
    {
        push_escape_char(out, s[i]);
        i = i + 1;
        proof {
            assert(s@.take(i as int).drop_last() =~= s@.take(i - 1));
            assert(s@.take(i as int).last() == s@[i - 1]);
            assert(out@ =~= old(out)@ + spec_escape(s@.take(i as int)));
        }
    }
    proof {
        assert(s@.take(s@.len() as int) =~= s@);
    }
}

fn push_json_string(out: &mut Vec<char>, s: &str)
    ensures
        final(out)@ == old(out)@ + spec_ser_string(s@),
{
    let body = str_to_chars(s);
    out.push('"');
    push_string_body(out, &body);
    out.push('"');
    assert(out@ =~= old(out)@ + spec_ser_string(s@));
}

/// Appends the compact JSON text of `v` to `out`.
#[verifier::loop_isolation(false)]
#[verifier::rlimit(100)]
pub(crate) fn push_json(out: &mut Vec<char>, v: &JsonValue)
    ensures
        final(out)@ == old(out)@ + spec_ser(v@),
    decreases *v,
{
    match v {
        JsonValue::Null => {
            out.push('n');
            out.push('u');
            out.push('l');
            out.push('l');
            assert(out@ =~= old(out)@ + spec_ser(v@));
        },
        JsonValue::Bool(b) => {
            if *b {
                out.push('t');
                out.push('r');
                out.push('u');
                out.push('e');
            } else {
                out.push('f');
                out.push('a');
                out.push('l');
                out.push('s');
                out.push('e');
            }
            assert(out@ =~= old(out)@ + spec_ser(v@));
        },
        JsonValue::Num(JsonNum::Int(i)) => {
            let iv = *i;
            if iv >= 0 {
                push_digits(out, iv as u64);
            } else {
                out.push('-');
                let m: u64 = if iv == i64::MIN {
                    9223372036854775808u64
                } else {
                    (-iv) as u64
                };
                let ghost mid = out@;
                assert(mid =~= old(out)@ + seq!['-']);
                push_digits(out, m);
            }
            assert(out@ =~= old(out)@ + spec_ser(v@));
        },
        JsonValue::Num(JsonNum::UInt(u)) => {
            push_digits(out, *u);
            assert(out@ =~= old(out)@ + spec_ser(v@));
        },
        JsonValue::Num(JsonNum::Float(t)) => {
            let body = str_to_chars(t.as_str());
            let mut i: usize = 0;
            while i < body.len()
                invariant
                    i <= body@.len(),
                    out@ == old(out)@ + body@.take(i as int),
                decreases body@.len() - i,
            {
                out.push(body[i]);
                i = i + 1;
                assert(out@ =~= old(out)@ + body@.take(i as int));
            }
            assert(out@ =~= old(out)@ + spec_ser(v@));
        },
        JsonValue::Str(s) => {
            push_json_string(out, s.as_str());
            assert(out@ =~= old(out)@ + spec_ser(v@));
        },
        JsonValue::Arr(items) => {
            let ghost m = v@->Arr_0;
            proof {
                crate::json::lemma_model_items(items@);
            }
            out.push('[');
            let n = items.len();
            let mut j: usize = 0;
            while j < n
                invariant
                    j <= n == items@.len(),
                    m.len() == items@.len(),
                    forall|i: int| 0 <= i < items@.len() ==> m[i] == #[trigger] items@[i].model(),
                    out@ == old(out)@ + seq!['['] + spec_ser_items(m.take(j as int)),
                decreases n - j,
            {
                if j > 0 {
                    out.push(',');
                }
                proof {
                    let vv = *v;
                    assert(items@ == vv->Arr_0@);
                    assert(decreases_to!(vv => vv->Arr_0));
                    assert(decreases_to!(vv->Arr_0 => vv->Arr_0@));
                    assert(decreases_to!(vv->Arr_0@ => vv->Arr_0@[j as int]));
                }
                push_json(out, &items[j]);
                j = j + 1;
                proof {
                    assert(m.take(j as int).drop_last() =~= m.take(j - 1));
                    assert(m.take(j as int).last() == m[j - 1]);
                    assert(out@ =~= old(out)@ + seq!['['] + spec_ser_items(m.take(j as int)));
                }
            }
            out.push(']');
            proof {
                assert(m.take(m.len() as int) =~= m);
                assert(out@ =~= old(out)@ + spec_ser(v@));
            }
        },
        JsonValue::Obj(fields) => {
            let ghost m = v@->Obj_0;
            proof {
                crate::json::lemma_model_fields(fields@);
            }
            out.push('{');
            let n = fields.len();
            let mut j: usize = 0;
            while j < n
                invariant
                    j <= n == fields@.len(),
                    m.len() == fields@.len(),
                    forall|i: int|
                        0 <= i < fields@.len() ==> m[i] == (
                            (#[trigger] fields@[i]).0@,
                            fields@[i].1.model(),
                        ),
                    out@ == old(out)@ + seq!['{'] + spec_ser_fields(m.take(j as int)),
                decreases n - j,
            {
                if j > 0 {
                    out.push(',');
                }
                push_json_string(out, fields[j].0.as_str());
                out.push(':');
                proof {
                    let vv = *v;
                    assert(fields@ == vv->Obj_0@);
                    assert(decreases_to!(vv => vv->Obj_0));
                    assert(decreases_to!(vv->Obj_0 => vv->Obj_0@));
                    assert(decreases_to!(vv->Obj_0@ => vv->Obj_0@[j as int]));
                    assert(decreases_to!(vv->Obj_0@[j as int] => vv->Obj_0@[j as int].1));
                }
                push_json(out, &fields[j].1);
                j = j + 1;
                proof {
                    assert(m.take(j as int).drop_last() =~= m.take(j - 1));
                    assert(m.take(j as int).last() == m[j - 1]);
                    assert(out@ =~= old(out)@ + seq!['{'] + spec_ser_fields(m.take(j as int)));
                }
            }
            out.push('}');
            proof {
                assert(m.take(m.len() as int) =~= m);
                assert(out@ =~= old(out)@ + spec_ser(v@));
            }
        },
    }
}

/// The compact JSON text of a document.
pub fn to_json_text(v: &JsonValue) -> (r: String)
    ensures
        r@ == spec_ser(v@),
{
    let mut out: Vec<char> = Vec::new();
    push_json(&mut out, v);
    chars_to_string(&out)
}

} // verus!
