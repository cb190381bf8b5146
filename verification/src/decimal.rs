//! The float formatting rule, over decimal text.
//!
//! A float reaches the library as the decimal text a JSON serializer prints
//! for it (digits, an optional fraction, an optional exponent).  The rule
//! here parses that text, optionally shifts the decimal point twelve places
//! left (the rescaling policy), and renders the value with grouped integer
//! digits and exactly three fractional digits, truncated toward zero.

use vstd::prelude::*;
use crate::digits::spec_grouped;
use crate::digits::push_grouped_prefix;

verus! {

/// A decimal digit.
pub open spec fn is_digit(c: char) -> bool {
    48 <= c as u32 <= 57
}

pub open spec fn all_digits(s: Seq<char>) -> bool {
    forall|i: int| 0 <= i < s.len() ==> is_digit(#[trigger] s[i])
}

/// The numeric value of a digit sequence, most significant digit first.
pub open spec fn dec_val(s: Seq<char>) -> nat
    decreases s.len(),
{
    if s.len() == 0 {
        0
    } else {
        dec_val(s.drop_last()) * 10 + (s.last() as u32 - 48) as nat
    }
}

/// First index at or after `i` holding `a` or `b`; the length if none does.
pub open spec fn spec_find2(s: Seq<char>, i: int, a: char, b: char) -> int
    decreases s.len() - i,
{
    if i < 0 || i >= s.len() {
        s.len() as int
    } else if s[i] == a || s[i] == b {
        i
    } else {
        spec_find2(s, i + 1, a, b)
    }
}

/// A parsed exponent: an optional sign and at most three digits (enough for
/// every exponent a 64-bit float can print; anything longer is rejected).
pub open spec fn spec_parse_exp(s: Seq<char>) -> Option<int> {
    let neg = s.len() > 0 && s[0] == '-';
    let plus = s.len() > 0 && s[0] == '+';
    let ds = if neg || plus {
        s.skip(1)
    } else {
        s
    };
    if 1 <= ds.len() <= 3 && all_digits(ds) {
        if neg {
            Some(-(dec_val(ds) as int))
        } else {
            Some(dec_val(ds) as int)
        }
    } else {
        None
    }
}

/// A parsed decimal literal `[-] digits [. digits] [e|E [+|-] digits]`,
/// given as its sign, the digits of the mantissa, and the position of the
/// decimal point within them: the value is `sign * 0.digits * 10^point`.
pub open spec fn spec_parse_dec(s: Seq<char>) -> Option<(bool, Seq<char>, int)> {
    let neg = s.len() > 0 && s[0] == '-';
    let t = if neg {
        s.skip(1)
    } else {
        s
    };
    let epos = spec_find2(t, 0, 'e', 'E');
    let mant = t.take(epos);
    let exp = if epos == t.len() {
        Some(0int)
    } else {
        spec_parse_exp(t.skip(epos + 1))
    };
    let ppos = spec_find2(mant, 0, '.', '.');
    let ipart = mant.take(ppos);
    let fpart = if ppos == mant.len() {
        Seq::<char>::empty()
    } else {
        mant.skip(ppos + 1)
    };
    match exp {
        None => None,
        Some(e) => {
            if 1 <= ipart.len() && all_digits(ipart) && all_digits(fpart) && (ppos == mant.len()
                || fpart.len() >= 1) && mant.len() <= 0x1000000 {
                Some((neg, ipart + fpart, ipart.len() + e))
            } else {
                None
            }
        },
    }
}

/// The digit sequence with its leading zeros removed.
pub open spec fn strip_zeros(ds: Seq<char>) -> Seq<char>
    decreases ds.len(),
{
    if ds.len() > 0 && ds[0] == '0' {
        strip_zeros(ds.skip(1))
    } else {
        ds
    }
}

pub open spec fn zeros(n: int) -> Seq<char> {
    if n <= 0 {
        Seq::<char>::empty()
    } else {
        Seq::new(n as nat, |i: int| '0')
    }
}

/// Whether the parsed value's magnitude is at least `10^12`: it has a
/// nonzero digit and more than twelve digits before the decimal point.
pub open spec fn spec_at_threshold(digits: Seq<char>, point: int) -> bool {
    let d = strip_zeros(digits);
    d.len() > 0 && point - (digits.len() - d.len()) >= 13
}

/// The integer digits of the value `0.d * 10^p` (`d` without leading
/// zeros): `d` cut or zero-padded at the point, a single zero if none.
pub open spec fn spec_int_digits(d: Seq<char>, p: int) -> Seq<char> {
    if p <= 0 {
        seq!['0']
    } else if p >= d.len() {
        d + zeros(p - d.len())
    } else {
        d.take(p)
    }
}

/// The first three fractional digits of `0.d * 10^p`, zero-padded.
pub open spec fn spec_frac3(d: Seq<char>, p: int) -> Seq<char> {
    let frac = if p <= 0 {
        zeros(-p) + d
    } else if p >= d.len() {
        Seq::<char>::empty()
    } else {
        d.skip(p)
    };
    (frac + zeros(3)).take(3)
}

/// The fixed rendering of a parsed decimal: sign, grouped integer digits, a
/// point, and exactly three fractional digits, truncated toward zero.  A
/// value whose digits are all zero renders as `0.000`, unsigned.
pub open spec fn spec_render_fixed3(neg: bool, digits: Seq<char>, point: int) -> Seq<char> {
    let d = strip_zeros(digits);
    let p = point - (digits.len() - d.len());
    if d.len() == 0 {
        seq!['0', '.', '0', '0', '0']
    } else {
        (if neg {
            seq!['-']
        } else {
            Seq::<char>::empty()
        }) + spec_grouped(spec_int_digits(d, p)) + seq!['.'] + spec_frac3(d, p)
    }
}

fn is_digit_x(c: char) -> (r: bool)
    ensures
        r == is_digit(c),
{
    let u = c as u32;
    48 <= u && u <= 57
}

fn find2(s: &Vec<char>, from: usize, a: char, b: char) -> (r: usize)
    requires
        from <= s@.len(),
    ensures
        r == spec_find2(s@, from as int, a, b),
        from <= r <= s@.len(),
    decreases s@.len() - from,
{
    if from == s.len() {
        from
    } else if s[from] == a || s[from] == b {
        from
    } else {
        find2(s, from + 1, a, b)
    }
}

fn sub_chars(s: &Vec<char>, from: usize, to: usize) -> (r: Vec<char>)
    requires
        from <= to <= s@.len(),
    ensures
        r@ == s@.subrange(from as int, to as int),
{
    let mut r: Vec<char> = Vec::new();
    let mut i: usize = from;
    while i < to
        invariant
            from <= i <= to <= s@.len(),
            r@ == s@.subrange(from as int, i as int),
        decreases to - i,
    {
        r.push(s[i]);
        i = i + 1;
        assert(r@ =~= s@.subrange(from as int, i as int));
    }
    r
}

fn check_all_digits(s: &Vec<char>, from: usize, to: usize) -> (r: bool)
    requires
        from <= to <= s@.len(),
    ensures
        r == all_digits(s@.subrange(from as int, to as int)),
{
    let ghost sub = s@.subrange(from as int, to as int);
    let mut i: usize = from;
    while i < to
        invariant
            from <= i <= to <= s@.len(),
            forall|j: int| 0 <= j < i - from ==> is_digit(#[trigger] sub[j]),
            sub == s@.subrange(from as int, to as int),
        decreases to - i,
    {
        if !is_digit_x(s[i]) {
            assert(sub[i - from] == s@[i as int]);
            return false;
        }
        i = i + 1;
    }
    true
}

proof fn lemma_dec_val_small(s: Seq<char>)
    requires
        all_digits(s),
    ensures
        s.len() <= 1 ==> dec_val(s) <= 9,
        s.len() <= 2 ==> dec_val(s) <= 99,
        s.len() <= 3 ==> dec_val(s) <= 999,
    decreases s.len(),
{
    if s.len() > 0 {
        assert(all_digits(s.drop_last())) by {
            assert(forall|i: int|
                0 <= i < s.len() - 1 ==> #[trigger] s.drop_last()[i] == s[i]);
        }
        lemma_dec_val_small(s.drop_last());
        assert(is_digit(s.last()));
    }
}

fn parse_exp(s: &Vec<char>) -> (r: Option<i64>)
    ensures
        match r {
            Some(e) => spec_parse_exp(s@) == Some(e as int) && -999 <= e <= 999,
            None => spec_parse_exp(s@) is None,
        },
{
    let n = s.len();
    let signed: bool = n > 0 && (s[0] == '-' || s[0] == '+');
    let neg: bool = n > 0 && s[0] == '-';
    let start: usize = if signed {
        1
    } else {
        0
    };
    let ghost ds = if signed {
        s@.skip(1)
    } else {
        s@
    };
    assert(ds =~= s@.subrange(start as int, n as int));
    if n - start < 1 || n - start > 3 || !check_all_digits(s, start, n) {
        return None;
    }
    let mut val: u64 = 0;
    let mut i: usize = start;
    while i < n
        invariant
            start <= i <= n == s@.len(),
            n - start <= 3,
            ds == s@.subrange(start as int, s@.len() as int),
            all_digits(ds),
            val == dec_val(ds.take(i - start)),
            val <= 999,
        decreases n - i,
    {
        assert(is_digit(ds[i - start]));
        val = val * 10 + (s[i] as u32 as u64 - 48);
        i = i + 1;
        proof {
            assert(ds.take(i - start).drop_last() =~= ds.take(i - start - 1));
            assert(ds.take(i - start).last() == ds[i - start - 1]);
            assert(all_digits(ds.take(i - start))) by {
                assert(forall|j: int|
                    0 <= j < i - start ==> #[trigger] ds.take(i - start)[j] == ds[j]);
            }
            lemma_dec_val_small(ds.take(i - start));
        }
    }
    proof {
        assert(ds.take(n - start) =~= ds);
    }
    if neg {
        Some(-(val as i64))
    } else {
        Some(val as i64)
    }
}

/// A decimal literal, parsed: the value is `sign * 0.digits * 10^point`.
pub struct Dec {
    pub neg: bool,
    pub digits: Vec<char>,
    pub point: i64,
}

impl Dec {
    /// The parsed form this structure holds.
    pub open spec fn parts(self) -> (bool, Seq<char>, int) {
        (self.neg, self.digits@, self.point as int)
    }
}

/// Parses a decimal literal as a JSON serializer prints floats:
/// `[-] digits [. digits] [e|E [+|-] digits]`, the exponent at most three
/// digits.  Returns `None` exactly when the text is not of that form.
pub(crate) fn parse_dec(s: &Vec<char>) -> (r: Option<Dec>)
    ensures
        match r {
            Some(d) => spec_parse_dec(s@) == Some(d.parts()),
            None => spec_parse_dec(s@) is None,
        },
{
    let n = s.len();
    let neg: bool = n > 0 && s[0] == '-';
    let start: usize = if neg {
        1
    } else {
        0
    };
    let ghost t = if neg {
        s@.skip(1)
    } else {
        s@
    };
    assert(t =~= s@.subrange(start as int, n as int));
    let epos = find2(s, start, 'e', 'E');
    proof {
        lemma_find2_shift(s@, start as int, epos as int, 'e', 'E');
    }
    let ghost mant = t.take(epos - start);
    assert(mant =~= s@.subrange(start as int, epos as int));
    let exp: Option<i64> = if epos == n {
        Some(0i64)
    } else {
        let etext = sub_chars(s, epos + 1, n);
        proof {
            assert(t.skip(epos - start + 1) =~= s@.subrange(epos + 1, n as int));
        }
        parse_exp(&etext)
    };
    let e: i64 = match exp {
        None => {
            return None;
        },
        Some(e) => e,
    };
    let ppos = find2(s, start, '.', '.');
    proof {
        lemma_find2_shift(s@, start as int, ppos as int, '.', '.');
        lemma_find2_take_rec(t, epos - start, 0, '.');
    }
    let ppos = if ppos > epos {
        epos
    } else {
        ppos
    };
    let ghost ipart = mant.take(ppos - start);
    let ghost fpart = if ppos == epos {
        Seq::<char>::empty()
    } else {
        mant.skip(ppos - start + 1)
    };
    assert(ipart =~= s@.subrange(start as int, ppos as int));
    proof {
        if ppos < epos {
            assert(fpart =~= s@.subrange(ppos + 1, epos as int));
        }
    }
    if ppos == start {
        return None;
    }
    if !check_all_digits(s, start, ppos) {
        return None;
    }
    if ppos < epos && ppos + 1 == epos {
        return None;
    }
    if ppos < epos && !check_all_digits(s, ppos + 1, epos) {
        return None;
    }
    if epos - start > 0x1000000 {
        return None;
    }
    let mut digits = sub_chars(s, start, ppos);
    let frac = if ppos < epos {
        sub_chars(s, ppos + 1, epos)
    } else {
        Vec::<char>::new()
    };
    let ipart_len = digits.len();
    let mut j: usize = 0;
    while j < frac.len()
        invariant
            j <= frac@.len(),
            digits@ == ipart + frac@.take(j as int),
        decreases frac@.len() - j,
    {
        digits.push(frac[j]);
        j = j + 1;
        assert(digits@ =~= ipart + frac@.take(j as int));
    }
    assert(digits@ =~= ipart + fpart);
    let point: i64 = ipart_len as i64 + e;
    proof {
        assert(mant.len() <= 0x1000000);
    }
    Some(Dec { neg, digits, point })
}

proof fn lemma_find2_shift(s: Seq<char>, start: int, r: int, a: char, b: char)
    requires
        0 <= start <= s.len(),
        r == spec_find2(s, start, a, b),
    ensures
        spec_find2(s.subrange(start, s.len() as int), 0, a, b) == r - start,
{
    lemma_find2_shift_rec(s, start, start, a, b);
}

proof fn lemma_find2_shift_rec(s: Seq<char>, start: int, i: int, a: char, b: char)
    requires
        0 <= start <= i <= s.len(),
    ensures
        spec_find2(s.subrange(start, s.len() as int), i - start, a, b) == spec_find2(s, i, a, b)
            - start,
    decreases s.len() - i,
{
    let sub = s.subrange(start, s.len() as int);
    if i < s.len() {
        assert(sub[i - start] == s[i]);
        if !(s[i] == a || s[i] == b) {
            lemma_find2_shift_rec(s, start, i + 1, a, b);
        }
    }
}

proof fn lemma_find2_take_rec(t: Seq<char>, cut: int, i: int, a: char)
    requires
        0 <= i <= cut <= t.len(),
    ensures
        spec_find2(t.take(cut), i, a, a) == if spec_find2(t, i, a, a) <= cut {
            spec_find2(t, i, a, a)
        } else {
            cut
        },
    decreases cut - i,
{
    lemma_find2_range(t, i, a, a);
    let sub = t.take(cut);
    if i < cut {
        assert(sub[i] == t[i]);
        if !(t[i] == a) {
            lemma_find2_take_rec(t, cut, i + 1, a);
        }
    }
}

fn count_leading_zeros(d: &Vec<char>) -> (z: usize)
    ensures
        z <= d@.len(),
        strip_zeros(d@) == d@.skip(z as int),
        z < d@.len() ==> d@[z as int] != '0',
{
    let mut z: usize = 0;
    assert(d@.skip(0) =~= d@);
    while z < d.len() && d[z] == '0'
        invariant
            z <= d@.len(),
            strip_zeros(d@) == strip_zeros(d@.skip(z as int)),
        decreases d@.len() - z,
    {
        proof {
            assert(d@.skip(z as int).skip(1) =~= d@.skip(z + 1));
        }
        z = z + 1;
    }
    proof {
        assert(strip_zeros(d@.skip(z as int)) == d@.skip(z as int));
    }
    z
}

/// The character at offset `k` of the three rendered fractional digits of
/// `0.d * 10^p`, where `d` is `digits` without its first `z` chars.
fn frac_at(digits: &Vec<char>, z: usize, p: i64, k: usize) -> (c: char)
    requires
        z <= digits@.len(),
        digits@.len() <= 0x1000000,
        -0x20000000 <= p <= 0x20000000,
        k < 3,
    ensures
        c == spec_frac3(digits@.skip(z as int), p as int)[k as int],
{
    let dlen = digits.len() - z;
    let ghost d = digits@.skip(z as int);
    if p <= 0 {
        let ki = k as i64;
        if ki < -p {
            '0'
        } else {
            let di = (ki + p) as usize;
            if di < dlen {
                digits[z + di]
            } else {
                '0'
            }
        }
    } else if p >= dlen as i64 {
        '0'
    } else {
        let pp = p as usize;
        if pp + k < dlen {
            digits[z + pp + k]
        } else {
            '0'
        }
    }
}

fn push_zeros(out: &mut Vec<char>, n: usize)
    ensures
        final(out)@ == old(out)@ + zeros(n as int),
{
    let mut i: usize = 0;
    while i < n
        invariant
            i <= n,
            out@ == old(out)@ + zeros(i as int),
        decreases n - i,
    {
        out.push('0');
        i = i + 1;
        assert(out@ =~= old(out)@ + zeros(i as int));
    }
}

/// Appends the fixed rendering of the parsed decimal
/// `sign * 0.digits * 10^point` to `out`.
#[verifier::rlimit(100)]
pub(crate) fn push_fixed3(out: &mut Vec<char>, neg: bool, digits: &Vec<char>, point: i64)
    requires
        digits@.len() <= 0x1000000,
        -0x10000000 <= point <= 0x10000000,
    ensures
        final(out)@ == old(out)@ + spec_render_fixed3(neg, digits@, point as int),
{
    let z = count_leading_zeros(digits);
    let ghost d = digits@.skip(z as int);
    let dlen = digits.len() - z;
    if dlen == 0 {
        out.push('0');
        out.push('.');
        out.push('0');
        out.push('0');
        out.push('0');
        assert(out@ =~= old(out)@ + spec_render_fixed3(neg, digits@, point as int));
        return ;
    }
    let p: i64 = point - (z as i64);
    if neg {
        out.push('-');
    }
    let ghost before_int = out@;
    let mut ip: Vec<char>;
    if p <= 0 {
        ip = Vec::new();
        ip.push('0');
        assert(ip@ =~= spec_int_digits(d, p as int));
    } else if p >= dlen as i64 {
        ip = sub_chars(digits, z, digits.len());
        assert(ip@ =~= d);
        let pad = (p - dlen as i64) as usize;
        push_zeros(&mut ip, pad);
        assert(ip@ =~= spec_int_digits(d, p as int));
    } else {
        ip = sub_chars(digits, z, z + p as usize);
        assert(ip@ =~= spec_int_digits(d, p as int));
    }
    push_grouped_prefix(out, &ip, ip.len());
    proof {
        assert(ip@.take(ip@.len() as int) =~= ip@);
    }
    out.push('.');
    out.push(frac_at(digits, z, p, 0));
    out.push(frac_at(digits, z, p, 1));
    out.push(frac_at(digits, z, p, 2));
    proof {
        let fr = spec_frac3(d, p as int);
        assert(fr.len() == 3);
        assert(out@ =~= old(out)@ + spec_render_fixed3(neg, digits@, point as int));
    }
}

proof fn lemma_find2_range(s: Seq<char>, i: int, a: char, b: char)
    requires
        0 <= i <= s.len(),
    ensures
        i <= spec_find2(s, i, a, b) <= s.len(),
    decreases s.len() - i,
{
    if i < s.len() && !(s[i] == a || s[i] == b) {
        lemma_find2_range(s, i + 1, a, b);
    }
}

/// A successfully parsed decimal has fewer mantissa digits than the text
/// and an exponent a 64-bit float could carry, so its parts stay small.
pub proof fn lemma_parse_dec_bounds(s: Seq<char>)
    ensures
        spec_parse_dec(s) matches Some(parts) ==> {
            &&& parts.1.len() <= 0x1000000
            &&& -1000 <= parts.2 <= 0x1000000 + 999
        },
{
    if spec_parse_dec(s) is Some {
        let neg = s.len() > 0 && s[0] == '-';
        let t = if neg {
            s.skip(1)
        } else {
            s
        };
        let epos = spec_find2(t, 0, 'e', 'E');
        lemma_find2_range(t, 0, 'e', 'E');
        let mant = t.take(epos);
        let ppos = spec_find2(mant, 0, '.', '.');
        lemma_find2_range(mant, 0, '.', '.');
        if epos < t.len() {
            let es = t.skip(epos + 1);
            let signed = es.len() > 0 && (es[0] == '-' || es[0] == '+');
            let ds = if signed {
                es.skip(1)
            } else {
                es
            };
            if 1 <= ds.len() <= 3 && all_digits(ds) {
                lemma_dec_val_small(ds);
            }
        }
    }
}

/// Whether the parsed value's magnitude reaches the rescaling threshold.
pub(crate) fn dec_at_threshold(d: &Dec) -> (r: bool)
    requires
        d.digits@.len() <= 0x1000000,
        -0x10000000 <= d.point <= 0x10000000,
    ensures
        r == spec_at_threshold(d.digits@, d.point as int),
{
    let z = count_leading_zeros(&d.digits);
    let dlen = d.digits.len() - z;
    dlen > 0 && d.point - (z as i64) >= 13
}

proof fn lemma_strip_zeros_all(k: int)
    requires
        k >= 0,
    ensures
        strip_zeros(zeros(k)).len() == 0,
    decreases k,
{
    if k > 0 {
        assert(zeros(k)[0] == '0');
        assert(zeros(k).skip(1) =~= zeros(k - 1));
        lemma_strip_zeros_all(k - 1);
    }
}

proof fn lemma_strip_zeros_append(ds: Seq<char>, k: int)
    requires
        k >= 0,
    ensures
        strip_zeros(ds).len() > 0 ==> strip_zeros(ds + zeros(k)) == strip_zeros(ds) + zeros(k),
        strip_zeros(ds).len() == 0 ==> strip_zeros(ds + zeros(k)).len() == 0,
    decreases ds.len(),
{
    if ds.len() == 0 {
        assert(ds + zeros(k) =~= zeros(k));
        lemma_strip_zeros_all(k);
    } else if ds[0] == '0' {
        assert((ds + zeros(k))[0] == '0');
        assert((ds + zeros(k)).skip(1) =~= ds.skip(1) + zeros(k));
        lemma_strip_zeros_append(ds.skip(1), k);
    } else {
        assert((ds + zeros(k))[0] != '0');
        assert(strip_zeros(ds + zeros(k)) == ds + zeros(k));
        assert(strip_zeros(ds) == ds);
    }
}

/// Law: the fixed rendering reads the value, not its spelling — digits
/// padded with trailing zeros (as an integer's digit string is, next to a
/// float text of the same value) render exactly the same.
pub proof fn lemma_render_trailing_zeros(neg: bool, digits: Seq<char>, point: int, k: int)
    requires
        k >= 0,
    ensures
        spec_render_fixed3(neg, digits + zeros(k), point) == spec_render_fixed3(
            neg,
            digits,
            point,
        ),
{
    lemma_strip_zeros_append(digits, k);
    let d = strip_zeros(digits);
    let dk = strip_zeros(digits + zeros(k));
    if d.len() == 0 {
        assert(dk.len() == 0);
    } else {
        assert(dk == d + zeros(k));
        assert((digits + zeros(k)).len() - dk.len() == digits.len() - d.len());
        let p = point - (digits.len() - d.len());
        assert(spec_int_digits(d + zeros(k), p) =~= spec_int_digits(d, p));
        assert(spec_frac3(d + zeros(k), p) =~= spec_frac3(d, p));
    }
}

/// Law: a spelling with extra leading zeros and the point moved to match
/// (the same value again) renders exactly the same.
pub proof fn lemma_render_leading_zeros(neg: bool, digits: Seq<char>, point: int, k: int)
    requires
        k >= 0,
    ensures
        spec_render_fixed3(neg, zeros(k) + digits, point + k) == spec_render_fixed3(
            neg,
            digits,
            point,
        ),
    decreases k,
{
    if k > 0 {
        assert((zeros(k) + digits)[0] == '0');
        assert((zeros(k) + digits).skip(1) =~= zeros(k - 1) + digits);
        lemma_render_leading_zeros(neg, digits, point, k - 1);
        assert(strip_zeros(zeros(k) + digits) == strip_zeros(zeros(k - 1) + digits));
    } else {
        assert(zeros(0) + digits =~= digits);
    }
}

} // verus!

