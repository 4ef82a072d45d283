//! Exact decimal text for fixed-point integers.
//!
//! Every metric in a reading is a fixed-point integer: a raw count of
//! hundredths, tenths or thousandths of its unit. In the JSON log such a
//! value appears as a plain decimal number with exactly as many fraction
//! digits as the scale carries (`1000` at scale 2 is `10.00`, `-50` at
//! scale 2 is `-0.50`). This module renders those numbers and parses
//! them back, each direction specified against the same spec-level
//! grammar so that parsing inverts rendering.

use vstd::prelude::*;

verus! {

/// The byte of one decimal digit.
pub open spec fn spec_digit_byte(d: nat) -> u8
    recommends
        d < 10,
{
    (('0' as u8) + d) as u8
}

/// An ASCII decimal digit.
pub open spec fn spec_is_digit(c: u8) -> bool {
    ('0' as u8) <= c <= ('9' as u8)
}

/// Ten to the `width`.
pub open spec fn spec_pow10(width: nat) -> nat
    decreases width,
{
    if width == 0 {
        1
    } else {
        10 * spec_pow10((width - 1) as nat)
    }
}

/// The canonical decimal digits of a number: no leading zeros, `0`
/// rendered as one digit.
pub open spec fn spec_digits(n: nat) -> Seq<u8>
    decreases n,
{
    if n < 10 {
        seq![spec_digit_byte(n)]
    } else {
        spec_digits(n / 10).push(spec_digit_byte(n % 10))
    }
}

/// The low `width` decimal digits of a number, zero-padded to exactly
/// `width` bytes.
pub open spec fn spec_padded(f: nat, width: nat) -> Seq<u8>
    decreases width,
{
    if width == 0 {
        Seq::empty()
    } else {
        spec_padded(f / 10, (width - 1) as nat).push(spec_digit_byte(f % 10))
    }
}

/// A non-negative fixed-point value at a scale: integer part, a dot,
/// then exactly `width` fraction digits.
pub open spec fn spec_fixed_u(v: nat, width: nat) -> Seq<u8> {
    spec_digits(v / spec_pow10(width)) + seq![('.' as u8)] + spec_padded(
        v % spec_pow10(width),
        width,
    )
}

/// A signed fixed-point value at a scale: a leading minus for negative
/// values, then the magnitude.
pub open spec fn spec_fixed_i(v: int, width: nat) -> Seq<u8> {
    if v < 0 {
        seq![('-' as u8)] + spec_fixed_u((-v) as nat, width)
    } else {
        spec_fixed_u(v as nat, width)
    }
}

/// Ten to the `width`, for the scales in use.
pub fn pow10_small(width: usize) -> (p: u64)
    requires
        width <= 3,
    ensures
        p == spec_pow10(width as nat),
        1 <= p <= 1000,
{
    proof {
        reveal_with_fuel(spec_pow10, 4);
    }
    if width == 0 {
        1
    } else if width == 1 {
        10
    } else if width == 2 {
        100
    } else {
        1000
    }
}

/// Append the canonical decimal digits of a number.
pub fn push_digits(out: &mut Vec<u8>, n: u64)
    ensures
        final(out)@ == old(out)@ + spec_digits(n as nat),
    decreases n,
{
    if n >= 10 {
        push_digits(out, n / 10);
    }
    out.push(('0' as u8) + (n % 10) as u8);
    proof {
        assert(out@ =~= old(out)@ + spec_digits(n as nat));
    }
}

/// Append the low `width` digits of a number, zero-padded.
pub fn push_padded(out: &mut Vec<u8>, f: u64, width: usize)
    ensures
        final(out)@ == old(out)@ + spec_padded(f as nat, width as nat),
    decreases width,
{
    if width > 0 {
        push_padded(out, f / 10, width - 1);
        out.push(('0' as u8) + (f % 10) as u8);
    }
    proof {
        assert(out@ =~= old(out)@ + spec_padded(f as nat, width as nat));
    }
}

/// Append a non-negative fixed-point value at a scale.
pub fn push_fixed_u(out: &mut Vec<u8>, v: u64, width: usize)
    requires
        width <= 3,
    ensures
        final(out)@ == old(out)@ + spec_fixed_u(v as nat, width as nat),
{
    let divisor = pow10_small(width);
    push_digits(out, v / divisor);
    out.push('.' as u8);
    push_padded(out, v % divisor, width);
    proof {
        assert(out@ =~= old(out)@ + spec_fixed_u(v as nat, width as nat));
    }
}

/// Append a signed fixed-point value at a scale.
pub fn push_fixed_i(out: &mut Vec<u8>, v: i64, width: usize)
    requires
        width <= 3,
        v > i64::MIN,
    ensures
        final(out)@ == old(out)@ + spec_fixed_i(v as int, width as nat),
{
    if v < 0 {
        out.push('-' as u8);
        push_fixed_u(out, (-v) as u64, width);
        proof {
            assert(out@ =~= old(out)@ + spec_fixed_i(v as int, width as nat));
        }
    } else {
        push_fixed_u(out, v as u64, width);
    }
}

/// Index just past the maximal run of digits starting at `pos`.
pub open spec fn spec_digit_run_end(s: Seq<u8>, pos: int) -> int
    decreases s.len() - pos,
    when 0 <= pos <= s.len()
{
    if pos < s.len() && spec_is_digit(s[pos]) {
        spec_digit_run_end(s, pos + 1)
    } else {
        pos
    }
}

/// The number a sequence of digit bytes denotes.
pub open spec fn spec_digits_value(s: Seq<u8>) -> int
    decreases s.len(),
{
    if s.len() == 0 {
        0
    } else {
        spec_digits_value(s.drop_last()) * 10 + (s.last() - ('0' as u8))
    }
}

/// Parse the maximal digit run at `pos`: its value and the index just
/// past it. Nothing to parse when no digit stands at `pos`.
pub open spec fn spec_parse_uint(s: Seq<u8>, pos: int) -> Option<(int, int)>
    recommends
        0 <= pos <= s.len(),
{
    let end = spec_digit_run_end(s, pos);
    if end == pos {
        None
    } else {
        Some((spec_digits_value(s.subrange(pos, end)), end))
    }
}

/// Parse a non-negative fixed-point value at `pos`: an integer part, a
/// dot, exactly `width` fraction digits, with the combined raw value at
/// most `max`.
pub open spec fn spec_parse_fixed_u(s: Seq<u8>, pos: int, width: nat, max: int) -> Option<
    (int, int),
>
    recommends
        0 <= pos <= s.len(),
{
    match spec_parse_uint(s, pos) {
        None => None,
        Some((ip, p1)) => {
            if p1 < s.len() && s[p1] == ('.' as u8) {
                let end = spec_digit_run_end(s, p1 + 1);
                if end - (p1 + 1) == width {
                    let v = ip * spec_pow10(width) + spec_digits_value(s.subrange(p1 + 1, end));
                    if v <= max {
                        Some((v, end))
                    } else {
                        None
                    }
                } else {
                    None
                }
            } else {
                None
            }
        },
    }
}

/// Parse a signed fixed-point value at `pos`: an optional leading minus,
/// then the magnitude, bounded by `neg_mag_max` when negative and
/// `pos_max` otherwise.
pub open spec fn spec_parse_fixed_i(
    s: Seq<u8>,
    pos: int,
    width: nat,
    neg_mag_max: int,
    pos_max: int,
) -> Option<(int, int)>
    recommends
        0 <= pos <= s.len(),
{
    if pos < s.len() && s[pos] == ('-' as u8) {
        match spec_parse_fixed_u(s, pos + 1, width, neg_mag_max) {
            None => None,
            Some((m, end)) => Some((-m, end)),
        }
    } else {
        spec_parse_fixed_u(s, pos, width, pos_max)
    }
}

/// Index just past the maximal digit run at `pos`.
pub fn digit_run_end(s: &Vec<u8>, pos: usize) -> (end: usize)
    requires
        pos <= s@.len(),
    ensures
        end == spec_digit_run_end(s@, pos as int),
        pos <= end <= s@.len(),
{
    let n: usize = s.len();
    let mut end: usize = pos;
    while end < n && ('0' as u8) <= s[end] && s[end] <= ('9' as u8)
        invariant
            pos <= end <= n,
            n == s@.len(),
            spec_digit_run_end(s@, pos as int) == spec_digit_run_end(s@, end as int),
        decreases n - end,
    {
        end = end + 1;
    }
    end
}

/// A sequence of digit bytes denotes a number below ten to its length.
pub proof fn lemma_digits_value_bounds(s: Seq<u8>)
    requires
        forall|i: int| 0 <= i < s.len() ==> spec_is_digit(#[trigger] s[i]),
    ensures
        0 <= spec_digits_value(s) < spec_pow10(s.len()),
    decreases s.len(),
{
    if s.len() > 0 {
        lemma_digits_value_bounds(s.drop_last());
        let prefix = spec_digits_value(s.drop_last());
        assert(spec_pow10(s.len()) == 10 * spec_pow10((s.len() - 1) as nat));
        assert(prefix * 10 + (s.last() - ('0' as u8)) < spec_pow10(s.len())) by (nonlinear_arith)
            requires
                0 <= prefix < spec_pow10((s.len() - 1) as nat),
                0 <= s.last() - ('0' as u8) < 10,
                spec_pow10(s.len()) == 10 * spec_pow10((s.len() - 1) as nat),
        ;
    }
}

/// The canonical digits of a number are nonempty digit bytes.
pub proof fn lemma_digits_are_digits(n: nat)
    ensures
        spec_digits(n).len() >= 1,
        forall|i: int| 0 <= i < spec_digits(n).len()
            ==> spec_is_digit(#[trigger] spec_digits(n)[i]),
    decreases n,
{
    if n >= 10 {
        lemma_digits_are_digits(n / 10);
    }
}

/// The zero-padded digits of a number are exactly `width` digit bytes.
pub proof fn lemma_padded_are_digits(f: nat, width: nat)
    ensures
        spec_padded(f, width).len() == width,
        forall|i: int| 0 <= i < width ==> spec_is_digit(#[trigger] spec_padded(f, width)[i]),
    decreases width,
{
    if width > 0 {
        lemma_padded_are_digits(f / 10, (width - 1) as nat);
    }
}

/// The canonical digits of a number denote it.
pub proof fn lemma_digits_value_of_digits(n: nat)
    ensures
        spec_digits_value(spec_digits(n)) == n,
    decreases n,
{
    vstd::arithmetic::div_mod::lemma_fundamental_div_mod(n as int, 10);
    if n < 10 {
        let s = spec_digits(n);
        assert(s.drop_last() =~= Seq::empty());
        assert(s.last() == spec_digit_byte(n));
        assert(spec_digits_value(Seq::<u8>::empty()) == 0);
        assert(spec_digits_value(s) == 0 * 10 + (spec_digit_byte(n) - ('0' as u8)));
        assert(spec_digit_byte(n) == ('0' as u8) + n);
    } else {
        lemma_digits_value_of_digits(n / 10);
        let s = spec_digits(n);
        assert(s.drop_last() =~= spec_digits(n / 10));
        assert(s.last() == spec_digit_byte(n % 10));
        assert(spec_digit_byte(n % 10) == ('0' as u8) + n % 10);
        assert(spec_digits_value(s) == (n / 10) * 10 + n % 10);
        assert((n / 10) * 10 == 10 * (n / 10));
    }
}

/// The zero-padded digits of a small enough number denote it.
pub proof fn lemma_padded_value(f: nat, width: nat)
    requires
        f < spec_pow10(width),
    ensures
        spec_digits_value(spec_padded(f, width)) == f,
    decreases width,
{
    if width == 0 {
        assert(spec_pow10(0) == 1);
    } else {
        assert(spec_pow10(width) == 10 * spec_pow10((width - 1) as nat));
        assert(f / 10 < spec_pow10((width - 1) as nat)) by (nonlinear_arith)
            requires
                f < 10 * spec_pow10((width - 1) as nat),
                spec_pow10((width - 1) as nat) >= 0,
        ;
        lemma_padded_value(f / 10, (width - 1) as nat);
        assert(spec_padded(f, width).drop_last() =~= spec_padded(f / 10, (width - 1) as nat));
    }
}

/// Ten to any width is at least one.
pub proof fn lemma_pow10_pos(width: nat)
    ensures
        spec_pow10(width) >= 1,
    decreases width,
{
    if width > 0 {
        lemma_pow10_pos((width - 1) as nat);
    }
}

/// The maximal digit run at `pos` lies within the buffer, consists of
/// digits, and ends at a non-digit or the end of the buffer.
pub proof fn lemma_digit_run_end_props(s: Seq<u8>, pos: int)
    requires
        0 <= pos <= s.len(),
    ensures
        pos <= spec_digit_run_end(s, pos) <= s.len(),
        forall|i: int| pos <= i < spec_digit_run_end(s, pos) ==> spec_is_digit(#[trigger] s[i]),
        spec_digit_run_end(s, pos) == s.len() || !spec_is_digit(s[spec_digit_run_end(s, pos)]),
    decreases s.len() - pos,
{
    if pos < s.len() && spec_is_digit(s[pos]) {
        lemma_digit_run_end_props(s, pos + 1);
    }
}

/// A run of digits followed by a non-digit (or the end) is maximal.
pub proof fn lemma_digit_run_end_is(s: Seq<u8>, pos: int, end: int)
    requires
        0 <= pos <= end <= s.len(),
        forall|i: int| pos <= i < end ==> spec_is_digit(#[trigger] s[i]),
        end == s.len() || !spec_is_digit(s[end]),
    ensures
        spec_digit_run_end(s, pos) == end,
    decreases end - pos,
{
    if pos < end {
        lemma_digit_run_end_is(s, pos + 1, end);
    }
}

/// Appending one digit multiplies the denoted value by ten and adds it.
pub proof fn lemma_digits_value_snoc(s: Seq<u8>, c: u8)
    ensures
        spec_digits_value(s.push(c)) == spec_digits_value(s) * 10 + (c - ('0' as u8)),
{
    assert(s.push(c).drop_last() =~= s);
    assert(s.push(c).last() == c);
}

/// A digit run's value does not shrink as the run extends.
pub proof fn lemma_digits_value_prefix_le(s: Seq<u8>, k: int)
    requires
        0 <= k <= s.len(),
        forall|i: int| 0 <= i < s.len() ==> spec_is_digit(#[trigger] s[i]),
    ensures
        spec_digits_value(s.take(k)) <= spec_digits_value(s),
    decreases s.len() - k,
{
    if k < s.len() {
        lemma_digits_value_prefix_le(s, k + 1);
        let t = s.take(k);
        lemma_digits_value_bounds(t);
        assert(s.take(k + 1) =~= t.push(s[k]));
        lemma_digits_value_snoc(t, s[k]);
        assert(spec_digits_value(t) * 10 >= spec_digits_value(t)) by (nonlinear_arith)
            requires
                spec_digits_value(t) >= 0,
        ;
    } else {
        assert(s.take(k) =~= s);
    }
}

/// Parse the maximal digit run at `pos` into a 64-bit value. `None`
/// exactly when no digit stands at `pos` or the run's value does not fit.
pub fn parse_uint(s: &Vec<u8>, pos: usize) -> (parsed: Option<(u64, usize)>)
    requires
        pos <= s@.len(),
    ensures
        match parsed {
            Some((v, next)) => spec_parse_uint(s@, pos as int) == Some((v as int, next as int)),
            None => spec_parse_uint(s@, pos as int) is None || (spec_parse_uint(
                s@,
                pos as int,
            ) matches Some((v, _)) && v > u64::MAX),
        },
{
    let end = digit_run_end(s, pos);
    if end == pos {
        return None;
    }
    let ghost run = s@.subrange(pos as int, end as int);
    proof {
        lemma_digit_run_end_props(s@, pos as int);
        assert(forall|i: int| 0 <= i < run.len() ==> spec_is_digit(#[trigger] run[i]));
    }
    let mut acc: u64 = 0;
    let mut i: usize = pos;
    while i < end
        invariant
            pos <= i <= end <= s@.len(),
            run == s@.subrange(pos as int, end as int),
            forall|k: int| 0 <= k < run.len() ==> spec_is_digit(#[trigger] run[k]),
            forall|k: int| pos <= k < end ==> spec_is_digit(#[trigger] s@[k]),
            acc == spec_digits_value(run.take(i - pos)),
            end == spec_digit_run_end(s@, pos as int),
        decreases end - i,
    {
        let d: u64 = (s[i] - ('0' as u8)) as u64;
        if acc > (u64::MAX - d) / 10 {
            proof {
                let taken = run.take(i - pos + 1);
                assert(taken =~= run.take(i - pos).push(s@[i as int]));
                lemma_digits_value_snoc(run.take(i - pos), s@[i as int]);
                assert(spec_digits_value(taken) == acc * 10 + d);
                assert(acc * 10 + d > u64::MAX) by (nonlinear_arith)
                    requires
                        acc > (u64::MAX as int - d) / 10,
                        0 <= d <= 9,
                        acc >= 0,
                ;
                lemma_digits_value_prefix_le(run, i - pos + 1);
                assert(spec_digits_value(run) > u64::MAX);
            }
            return None;
        }
        proof {
            assert(acc * 10 + d <= u64::MAX) by (nonlinear_arith)
                requires
                    acc <= (u64::MAX as int - d) / 10,
                    0 <= d <= 9,
                    acc >= 0,
            ;
            let taken = run.take(i - pos + 1);
            assert(taken =~= run.take(i - pos).push(s@[i as int]));
            lemma_digits_value_snoc(run.take(i - pos), s@[i as int]);
        }
        acc = acc * 10 + d;
        i = i + 1;
    }
    proof {
        assert(run.take(end - pos) =~= run);
    }
    Some((acc, end))
}

/// Parse a non-negative fixed-point value at `pos`, its raw value at
/// most `max`. `None` exactly when the spec grammar rejects.
pub fn parse_fixed_u(s: &Vec<u8>, pos: usize, width: usize, max: u64) -> (parsed: Option<
    (u64, usize),
>)
    requires
        pos <= s@.len(),
        1 <= width <= 3,
        max <= u32::MAX,
    ensures
        match parsed {
            Some((v, next)) => spec_parse_fixed_u(s@, pos as int, width as nat, max as int)
                == Some((v as int, next as int)) && v <= max,
            None => spec_parse_fixed_u(s@, pos as int, width as nat, max as int) is None,
        },
{
    proof {
        lemma_pow10_pos(width as nat);
    }
    let ip_parsed = parse_uint(s, pos);
    match ip_parsed {
        None => {
            proof {
                // If the integer run parsed but its value exceeds
                // u64::MAX, it exceeds `max` whatever the fraction holds.
                lemma_digit_run_end_props(s@, pos as int);
                match spec_parse_uint(s@, pos as int) {
                    None => {},
                    Some((v, p1)) => {
                        if p1 < s@.len() && s@[p1] == ('.' as u8) {
                            lemma_digit_run_end_props(s@, p1 + 1);
                            let end = spec_digit_run_end(s@, p1 + 1);
                            if end - (p1 + 1) == width {
                                let frac = spec_digits_value(s@.subrange(p1 + 1, end));
                                lemma_digits_value_bounds(s@.subrange(p1 + 1, end));
                                assert(v * spec_pow10(width as nat) + frac > max)
                                    by (nonlinear_arith)
                                    requires
                                        v > u64::MAX as int,
                                        max <= u32::MAX,
                                        spec_pow10(width as nat) >= 1,
                                        frac >= 0,
                                ;
                            }
                        }
                    },
                }
            }
            None
        },
        Some((ip, p1)) => {
            if !(p1 < s.len() && s[p1] == ('.' as u8)) {
                return None;
            }
            let end = digit_run_end(s, p1 + 1);
            if end - (p1 + 1) != width {
                return None;
            }
            proof {
                lemma_digit_run_end_props(s@, p1 + 1);
            }
            let frac_parsed = parse_uint(s, p1 + 1);
            match frac_parsed {
                None => {
                    proof {
                        let frac_run = s@.subrange(p1 + 1 as int, end as int);
                        lemma_digits_value_bounds(frac_run);
                        reveal_with_fuel(spec_pow10, 4);
                        assert(false);
                    }
                    None
                },
                Some((frac, frac_end)) => {
                    let divisor = pow10_small(width);
                    proof {
                        let frac_run = s@.subrange(p1 + 1 as int, end as int);
                        lemma_digits_value_bounds(frac_run);
                        vstd::arithmetic::div_mod::lemma_fundamental_div_mod(
                            max as int,
                            divisor as int,
                        );
                    }
                    if ip > max / divisor {
                        proof {
                            assert(ip * divisor + frac > max) by (nonlinear_arith)
                                requires
                                    ip > max as int / (divisor as int),
                                    max as int == (divisor as int) * (max as int / (divisor as int))
                                        + max as int % (divisor as int),
                                    0 <= max as int % (divisor as int) < divisor,
                                    frac >= 0,
                                    divisor >= 1,
                            ;
                        }
                        return None;
                    }
                    proof {
                        assert(ip * divisor <= max) by (nonlinear_arith)
                            requires
                                ip <= max as int / (divisor as int),
                                max as int == (divisor as int) * (max as int / (divisor as int))
                                    + max as int % (divisor as int),
                                0 <= max as int % (divisor as int),
                                divisor >= 1,
                        ;
                    }
                    let scaled = ip * divisor;
                    let v = scaled + frac;
                    if v > max {
                        return None;
                    }
                    Some((v, end))
                },
            }
        },
    }
}

/// Parse a signed fixed-point value at `pos`. `None` exactly when the
/// spec grammar rejects.
pub fn parse_fixed_i(s: &Vec<u8>, pos: usize, width: usize, neg_mag_max: u64, pos_max: u64) -> (
parsed: Option<(i64, usize)>)
    requires
        pos <= s@.len(),
        1 <= width <= 3,
        neg_mag_max <= u32::MAX,
        pos_max <= u32::MAX,
    ensures
        match parsed {
            Some((v, next)) => spec_parse_fixed_i(
                s@,
                pos as int,
                width as nat,
                neg_mag_max as int,
                pos_max as int,
            ) == Some((v as int, next as int)) && -(neg_mag_max as int) <= v <= pos_max,
            None => spec_parse_fixed_i(
                s@,
                pos as int,
                width as nat,
                neg_mag_max as int,
                pos_max as int,
            ) is None,
        },
{
    if pos < s.len() && s[pos] == ('-' as u8) {
        match parse_fixed_u(s, pos + 1, width, neg_mag_max) {
            None => None,
            Some((m, end)) => Some((-(m as i64), end)),
        }
    } else {
        match parse_fixed_u(s, pos, width, pos_max) {
            None => None,
            Some((v, end)) => Some((v as i64, end)),
        }
    }
}

/// Parsing a buffer that holds the canonical digits of a number,
/// followed by a non-digit or the end, yields that number.
pub proof fn lemma_parse_uint_of_digits(s: Seq<u8>, pos: int, n: nat)
    requires
        0 <= pos,
        pos + spec_digits(n).len() <= s.len(),
        s.subrange(pos, pos + spec_digits(n).len()) == spec_digits(n),
        pos + spec_digits(n).len() == s.len() || !spec_is_digit(s[pos + spec_digits(n).len()]),
    ensures
        spec_parse_uint(s, pos) == Some((n as int, pos + spec_digits(n).len())),
{
    let digits = spec_digits(n);
    lemma_digits_are_digits(n);
    assert(forall|i: int| pos <= i < pos + digits.len()
        ==> spec_is_digit(#[trigger] s[i])) by {
        assert forall|i: int| pos <= i < pos + digits.len() implies spec_is_digit(
            #[trigger] s[i],
        ) by {
            assert(s[i] == digits[i - pos]);
        }
    }
    lemma_digit_run_end_is(s, pos, pos + digits.len());
    lemma_digits_value_of_digits(n);
}

/// Parsing a buffer that holds the rendering of a non-negative
/// fixed-point value, followed by a non-digit or the end, yields that
/// value.
pub proof fn lemma_parse_fixed_u_of_render(s: Seq<u8>, pos: int, v: nat, width: nat, max: int)
    requires
        1 <= width,
        v <= max,
        0 <= pos,
        pos + spec_fixed_u(v, width).len() <= s.len(),
        s.subrange(pos, pos + spec_fixed_u(v, width).len()) == spec_fixed_u(v, width),
        pos + spec_fixed_u(v, width).len() == s.len() || !spec_is_digit(
            s[pos + spec_fixed_u(v, width).len()],
        ),
    ensures
        spec_parse_fixed_u(s, pos, width, max) == Some(
            (v as int, pos + spec_fixed_u(v, width).len()),
        ),
{
    let rendered = spec_fixed_u(v, width);
    let pow = spec_pow10(width);
    lemma_pow10_pos(width);
    let ip = v / pow;
    let f = v % pow;
    let digits = spec_digits(ip);
    let padded = spec_padded(f, width);
    lemma_digits_are_digits(ip);
    lemma_padded_are_digits(f, width);
    assert(rendered.len() == digits.len() + 1 + width);
    let dot = pos + digits.len();

    assert(s.subrange(pos, dot) =~= digits) by {
        assert forall|i: int| 0 <= i < digits.len() implies s.subrange(pos, dot)[i]
            == digits[i] by {
            assert(s[pos + i] == rendered[i]);
            assert(rendered[i] == digits[i]);
        }
    }
    assert(s[dot] == rendered[digits.len() as int]);
    assert(s[dot] == ('.' as u8));
    assert(!spec_is_digit(s[dot]));
    lemma_parse_uint_of_digits(s, pos, ip);
    assert(spec_parse_uint(s, pos) == Some((ip as int, dot)));

    let fstart = dot + 1;
    let fend = fstart + width;
    assert(s.subrange(fstart, fend) =~= padded) by {
        assert forall|i: int| 0 <= i < width implies s.subrange(fstart, fend)[i]
            == padded[i] by {
            assert(s[fstart + i] == rendered[digits.len() + 1 + i]);
            assert(rendered[digits.len() + 1 + i] == padded[i]);
        }
    }
    assert(forall|i: int| fstart <= i < fend ==> spec_is_digit(#[trigger] s[i])) by {
        assert forall|i: int| fstart <= i < fend implies spec_is_digit(#[trigger] s[i]) by {
            assert(s[i] == padded[i - fstart]);
        }
    }
    assert(fend == pos + rendered.len());
    lemma_digit_run_end_is(s, fstart, fend);

    vstd::arithmetic::div_mod::lemma_fundamental_div_mod(v as int, pow as int);
    assert(0 <= f < pow) by {
        vstd::arithmetic::div_mod::lemma_mod_bound(v as int, pow as int);
    }
    lemma_padded_value(f, width);
    assert(spec_digits_value(s.subrange(fstart, fend)) == f);
    assert(ip * pow + f == v) by {
        assert(v as int == pow * (v as int / pow as int) + v as int % pow as int);
        assert(ip * pow == pow * ip) by (nonlinear_arith);
    }
}

/// Parsing a buffer that holds the rendering of a signed fixed-point
/// value, followed by a non-digit or the end, yields that value.
pub proof fn lemma_parse_fixed_i_of_render(
    s: Seq<u8>,
    pos: int,
    v: int,
    width: nat,
    neg_mag_max: int,
    pos_max: int,
)
    requires
        1 <= width,
        v < 0 ==> -v <= neg_mag_max,
        v >= 0 ==> v <= pos_max,
        0 <= pos,
        pos + spec_fixed_i(v, width).len() <= s.len(),
        s.subrange(pos, pos + spec_fixed_i(v, width).len()) == spec_fixed_i(v, width),
        pos + spec_fixed_i(v, width).len() == s.len() || !spec_is_digit(
            s[pos + spec_fixed_i(v, width).len()],
        ),
    ensures
        spec_parse_fixed_i(s, pos, width, neg_mag_max, pos_max) == Some(
            (v, pos + spec_fixed_i(v, width).len()),
        ),
{
    let rendered = spec_fixed_i(v, width);
    if v < 0 {
        let magnitude = (-v) as nat;
        let mag_rendered = spec_fixed_u(magnitude, width);
        assert(s[pos] == rendered[0]);
        assert(rendered[0] == ('-' as u8));
        assert(s.subrange(pos + 1, pos + 1 + mag_rendered.len()) =~= mag_rendered) by {
            assert forall|i: int| 0 <= i < mag_rendered.len() implies s.subrange(
                pos + 1,
                pos + 1 + mag_rendered.len(),
            )[i] == mag_rendered[i] by {
                assert(s[pos + 1 + i] == rendered[1 + i]);
                assert(rendered[1 + i] == mag_rendered[i]);
            }
        }
        lemma_parse_fixed_u_of_render(s, pos + 1, magnitude, width, neg_mag_max);
    } else {
        let pow = spec_pow10(width);
        let digits = spec_digits(v as nat / pow);
        lemma_digits_are_digits(v as nat / pow);
        assert(s[pos] == rendered[0]);
        assert(rendered[0] == digits[0]);
        assert(spec_is_digit(s[pos]));
        assert(s[pos] != ('-' as u8));
        lemma_parse_fixed_u_of_render(s, pos, v as nat, width, pos_max);
    }
}

} // verus!
