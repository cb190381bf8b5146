//! Rendering of 64-bit integers as decimal digit sequences with a
//! thousands-grouping separator, exact to the digit.

use vstd::prelude::*;
use crate::text::chars_to_string;

verus! {

/// The decimal digit character for a value below ten.
pub open spec fn digit_char(d: nat) -> char {
    if d == 0 {
        '0'
    } else if d == 1 {
        '1'
    } else if d == 2 {
        '2'
    } else if d == 3 {
        '3'
    } else if d == 4 {
        '4'
    } else if d == 5 {
        '5'
    } else if d == 6 {
        '6'
    } else if d == 7 {
        '7'
    } else if d == 8 {
        '8'
    } else {
        '9'
    }
}

/// The decimal digits of `n`, most significant first, no leading zeros
/// (a single `'0'` for zero).
pub open spec fn spec_digits(n: nat) -> Seq<char>
    decreases n,
{
    if n < 10 {
        seq![digit_char(n)]
    } else {
        spec_digits(n / 10).push(digit_char(n % 10))
    }
}

/// A digit sequence with a comma inserted before every group of three
/// digits, counted from the right.
pub open spec fn spec_grouped(ds: Seq<char>) -> Seq<char>
    decreases ds.len(),
{
    if ds.len() <= 3 {
        ds
    } else {
        spec_grouped(ds.take(ds.len() - 3)) + seq![','] + ds.skip(ds.len() - 3)
    }
}

/// The rendering of an unsigned value: grouped decimal digits.
pub open spec fn spec_unsigned(n: nat) -> Seq<char> {
    spec_grouped(spec_digits(n))
}

/// The rendering of a signed value: a minus sign for negatives, then the
/// grouped digits of the magnitude.
pub open spec fn spec_signed(i: int) -> Seq<char> {
    if i < 0 {
        seq!['-'] + spec_unsigned((-i) as nat)
    } else {
        spec_unsigned(i as nat)
    }
}

fn digit_char_x(d: u64) -> (c: char)
    requires
        d < 10,
    ensures
        c == digit_char(d as nat),
{
    match d {
        0 => '0',
        1 => '1',
        2 => '2',
        3 => '3',
        4 => '4',
        5 => '5',
        6 => '6',
        7 => '7',
        8 => '8',
        _ => '9',
    }
}

/// Appends the decimal digits of `n` to `out`.
pub(crate) fn push_digits(out: &mut Vec<char>, n: u64)
    ensures
        final(out)@ == old(out)@ + spec_digits(n as nat),
    decreases n,
{
    if n < 10 {
        out.push(digit_char_x(n));
        assert(out@ =~= old(out)@ + spec_digits(n as nat));
    } else {
        push_digits(out, n / 10);
        out.push(digit_char_x(n % 10));
        assert(out@ =~= old(out)@ + spec_digits(n as nat));
    }
}

/// Appends `ds[..end]` to `out` with a comma before each group of three
/// digits counted from the right.
pub(crate) fn push_grouped_prefix(out: &mut Vec<char>, ds: &Vec<char>, end: usize)
    requires
        end <= ds@.len(),
    ensures
        final(out)@ == old(out)@ + spec_grouped(ds@.take(end as int)),
    decreases end,
{
    if end <= 3 {
        let mut i: usize = 0;
        while i < end
            invariant
                i <= end,
                end <= ds@.len(),
                out@ == old(out)@ + ds@.take(i as int),
            decreases end - i,
        {
            out.push(ds[i]);
            i = i + 1;
            assert(out@ =~= old(out)@ + ds@.take(i as int));
        }
        assert(out@ =~= old(out)@ + spec_grouped(ds@.take(end as int)));
    } else {
        push_grouped_prefix(out, ds, end - 3);
        out.push(',');
        out.push(ds[end - 3]);
        out.push(ds[end - 2]);
        out.push(ds[end - 1]);
        proof {
            let whole = ds@.take(end as int);
            assert(whole.take(whole.len() - 3) =~= ds@.take(end - 3 as int));
            assert(out@ =~= old(out)@ + spec_grouped(whole));
        }
    }
}

/// Powers of ten.
pub open spec fn pow10(k: nat) -> nat
    decreases k,
{
    if k == 0 {
        1
    } else {
        10 * pow10((k - 1) as nat)
    }
}

/// A value below `10^k` has at most `k` decimal digits.
pub proof fn lemma_digits_len_le(n: nat, k: nat)
    requires
        k >= 1,
        n < pow10(k),
    ensures
        spec_digits(n).len() <= k,
    decreases k,
{
    if n >= 10 {
        assert(pow10(k) == 10 * pow10((k - 1) as nat));
        lemma_digits_len_le(n / 10, (k - 1) as nat);
    }
}

/// A 64-bit value has at most twenty decimal digits.
pub proof fn lemma_digits_len_u64(n: nat)
    requires
        n < 0x1_0000_0000_0000_0000,
    ensures
        spec_digits(n).len() <= 20,
{
    assert(pow10(20) == 100000000000000000000) by {
        reveal_with_fuel(pow10, 21);
    }
    lemma_digits_len_le(n, 20);
}

/// `spec_digits` is never empty.
pub proof fn lemma_digits_len(n: nat)
    ensures
        1 <= spec_digits(n).len(),
    decreases n,
{
    if n >= 10 {
        lemma_digits_len(n / 10);
    }
}

/// Appends the grouped decimal digits of `n` to `out`.
pub(crate) fn push_u64_grouped(out: &mut Vec<char>, n: u64)
    ensures
        final(out)@ == old(out)@ + spec_unsigned(n as nat),
{
    let mut ds: Vec<char> = Vec::new();
    push_digits(&mut ds, n);
    assert(ds@ =~= spec_digits(n as nat));
    push_grouped_prefix(out, &ds, ds.len());
    proof {
        assert(ds@.take(ds@.len() as int) =~= ds@);
    }
}

/// Appends the rendering of `i` (sign, then grouped magnitude digits) to
/// `out`.
pub(crate) fn push_i64_grouped(out: &mut Vec<char>, i: i64)
    ensures
        final(out)@ == old(out)@ + spec_signed(i as int),
{
    if i >= 0 {
        push_u64_grouped(out, i as u64);
    } else {
        out.push('-');
        let m: u64 = if i == i64::MIN {
            9223372036854775808u64
        } else {
            (-i) as u64
        };
        assert(m as nat == (-(i as int)) as nat);
        let ghost mid = out@;
        assert(mid =~= old(out)@ + seq!['-']);
        push_u64_grouped(out, m);
        assert(out@ =~= old(out)@ + spec_signed(i as int));
    }
}

/// Renders `n` with a thousands separator: `1000000` becomes `"1,000,000"`.
pub fn format_u64(n: u64) -> (r: String)
    ensures
        r@ == spec_unsigned(n as nat),
{
    let mut out: Vec<char> = Vec::new();
    push_u64_grouped(&mut out, n);
    chars_to_string(&out)
}

/// Renders `i` with a thousands separator, preserving the sign:
/// `-42` becomes `"-42"`.
pub fn format_i64(i: i64) -> (r: String)
    ensures
        r@ == spec_signed(i as int),
{
    let mut out: Vec<char> = Vec::new();
    push_i64_grouped(&mut out, i);
    chars_to_string(&out)
}

/// Grouping only inserts commas: dropping them recovers exactly the decimal
/// digits, so no digit of the value is lost or changed by formatting.
pub proof fn lemma_grouping_is_exact(ds: Seq<char>)
    ensures
        spec_grouped(ds).filter(|c: char| c != ',') == ds.filter(|c: char| c != ','),
    decreases ds.len(),
{
    let pred = |c: char| c != ',';
    if ds.len() > 3 {
        let head = ds.take(ds.len() - 3);
        let tail = ds.skip(ds.len() - 3);
        lemma_grouping_is_exact(head);
        Seq::<char>::filter_distributes_over_add(spec_grouped(head) + seq![','], tail, pred);
        Seq::<char>::filter_distributes_over_add(spec_grouped(head), seq![','], pred);
        Seq::<char>::filter_distributes_over_add(head, tail, pred);
        assert(seq![','].filter(pred) =~= Seq::<char>::empty()) by {
            reveal_with_fuel(Seq::<_>::filter, 2);
        }
        assert(head + tail =~= ds);
        assert(spec_grouped(ds) =~= (spec_grouped(head) + seq![',']) + tail);
        assert(spec_grouped(head).filter(pred) + Seq::<char>::empty() =~= spec_grouped(head).filter(
            pred,
        ));
    }
}

} // verus!
