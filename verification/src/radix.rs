//! Positional numerals: the number that a row of digits writes in a base, and the
//! digits that write a number. Digits are bytes, most significant first, so the
//! same functions speak of byte strings (base 256) and of base-62 digit rows.

use vstd::arithmetic::div_mod::{
    lemma_breakdown, lemma_div_denominator, lemma_fundamental_div_mod,
    lemma_fundamental_div_mod_converse,
};
use vstd::prelude::*;

verus! {

/// `base` to the power `width`: how many numbers `width` digits can write.
pub open spec fn span(base: nat, width: nat) -> nat
    decreases width,
{
    if width == 0 {
        1
    } else {
        span(base, (width - 1) as nat) * base
    }
}

/// The number that `digits` write in `base`, most significant digit first.
pub open spec fn value_of(digits: Seq<u8>, base: nat) -> nat
    decreases digits.len(),
{
    if digits.len() == 0 {
        0
    } else {
        value_of(digits.drop_last(), base) * base + digits.last() as nat
    }
}

/// The shortest numeral of `v`: it starts with a digit that is not zero, and zero
/// has no digit at all.
pub open spec fn numeral(v: nat, base: nat) -> Seq<u8>
    decreases v,
    via numeral_terminates
{
    if v == 0 || base < 2 {
        Seq::empty()
    } else {
        numeral(v / base, base).push((v % base) as u8)
    }
}

#[via_fn]
proof fn numeral_terminates(v: nat, base: nat) {
    if v != 0 && base >= 2 {
        lemma_quotient_is_smaller(v, base);
    }
}

/// Dividing a number that is not zero by two or more makes it smaller.
pub proof fn lemma_quotient_is_smaller(v: nat, base: nat)
    requires
        v > 0,
        base >= 2,
    ensures
        v / base < v,
        v == base * (v / base) + v % base,
        v % base < base,
{
    let q = v / base;
    let r = v % base;
    lemma_fundamental_div_mod(v as int, base as int);
    assert(q < v) by (nonlinear_arith)
        requires
            v == base * q + r,
            base >= 2,
            v > 0,
            r >= 0,
            q >= 0,
    ;
}

/// The numeral of `v` in exactly `width` digits, with zeros to the left; digits
/// that do not fit are cut off at the left.
pub open spec fn fixed_numeral(v: nat, base: nat, width: nat) -> Seq<u8>
    decreases width,
{
    if width == 0 || base == 0 {
        Seq::empty()
    } else {
        fixed_numeral(v / base, base, (width - 1) as nat).push((v % base) as u8)
    }
}

/// `n` zero digits.
pub open spec fn zeros(n: nat) -> Seq<u8> {
    Seq::new(n, |i: int| 0u8)
}

/// How many zero digits stand at the left end of `digits`.
pub open spec fn leading_zeros(digits: Seq<u8>) -> nat
    decreases digits.len(),
{
    if digits.len() == 0 || digits[0] != 0 {
        0
    } else {
        1 + leading_zeros(digits.drop_first())
    }
}

/// Every digit is a digit of `base`.
pub open spec fn digits_below(digits: Seq<u8>, base: nat) -> bool {
    forall|i: int| 0 <= i < digits.len() ==> (#[trigger] digits[i] as nat) < base
}

/// `s` comes before `t` in dictionary order: at the first place where they differ
/// `s` has the smaller digit, or `s` ends there and `t` goes on.
pub open spec fn digits_precede(s: Seq<u8>, t: Seq<u8>) -> bool {
    exists|i: int|
        0 <= i <= s.len() && i < t.len() && s.take(i) == t.take(i) && (i < s.len() ==> s[i]
            < t[i])
}

/// A power of a base that is not zero is not zero.
pub proof fn lemma_span_positive(base: nat, width: nat)
    requires
        base >= 1,
    ensures
        span(base, width) >= 1,
    decreases width,
{
    if width > 0 {
        lemma_span_positive(base, (width - 1) as nat);
        let below = span(base, (width - 1) as nat);
        assert(below * base >= 1) by (nonlinear_arith)
            requires
                below >= 1,
                base >= 1,
        ;
    }
}

/// Powers of one base multiply as their exponents add.
pub proof fn lemma_span_adds(base: nat, m: nat, n: nat)
    ensures
        span(base, m + n) == span(base, m) * span(base, n),
    decreases n,
{
    if n == 0 {
        assert(span(base, m) * 1 == span(base, m));
    } else {
        lemma_span_adds(base, m, (n - 1) as nat);
        let a = span(base, m);
        let b = span(base, (n - 1) as nat);
        assert((a * b) * base == a * (b * base)) by (nonlinear_arith);
    }
}

/// The larger base has the larger power.
pub proof fn lemma_span_grows_with_base(small: nat, large: nat, width: nat)
    requires
        small <= large,
    ensures
        span(small, width) <= span(large, width),
    decreases width,
{
    if width > 0 {
        lemma_span_grows_with_base(small, large, (width - 1) as nat);
        let a = span(small, (width - 1) as nat);
        let b = span(large, (width - 1) as nat);
        assert(a * small <= b * large) by (nonlinear_arith)
            requires
                a <= b,
                small <= large,
        ;
    }
}

/// The larger exponent gives the larger power.
pub proof fn lemma_span_grows_with_width(base: nat, m: nat, n: nat)
    requires
        base >= 1,
        m <= n,
    ensures
        span(base, m) <= span(base, n),
{
    lemma_span_adds(base, m, (n - m) as nat);
    lemma_span_positive(base, (n - m) as nat);
    let a = span(base, m);
    let b = span(base, (n - m) as nat);
    assert(a <= a * b) by (nonlinear_arith)
        requires
            b >= 1,
    ;
}

/// Appending one digit multiplies by the base and adds the digit.
pub proof fn lemma_value_push(digits: Seq<u8>, d: u8, base: nat)
    ensures
        value_of(digits.push(d), base) == value_of(digits, base) * base + d as nat,
{
    assert(digits.push(d).drop_last() =~= digits);
}

/// `n` digits write a number below `base` to the `n`.
pub proof fn lemma_value_bound(digits: Seq<u8>, base: nat)
    requires
        digits_below(digits, base),
    ensures
        value_of(digits, base) < span(base, digits.len()),
    decreases digits.len(),
{
    if digits.len() > 0 {
        let front = digits.drop_last();
        assert(digits_below(front, base));
        lemma_value_bound(front, base);
        let hi = value_of(front, base);
        let cap = span(base, front.len());
        let last = digits.last() as nat;
        assert(hi * base + last < cap * base) by (nonlinear_arith)
            requires
                hi < cap,
                last < base,
        ;
    }
}

/// The value of two rows set side by side.
pub proof fn lemma_value_concat(s: Seq<u8>, t: Seq<u8>, base: nat)
    ensures
        value_of(s + t, base) == value_of(s, base) * span(base, t.len()) + value_of(t, base),
    decreases t.len(),
{
    if t.len() == 0 {
        assert(value_of(s, base) * 1 == value_of(s, base));
    } else {
        let front = t.drop_last();
        assert((s + t).drop_last() =~= s + front);
        lemma_value_concat(s, front, base);
        let a = value_of(s, base);
        let w = span(base, front.len());
        let f = value_of(front, base);
        assert((a * w + f) * base == a * (w * base) + f * base) by (nonlinear_arith);
    }
}

/// Zeros write zero.
pub proof fn lemma_value_zeros(n: nat, base: nat)
    ensures
        value_of(zeros(n), base) == 0,
    decreases n,
{
    if n > 0 {
        assert(zeros(n).drop_last() =~= zeros((n - 1) as nat));
        lemma_value_zeros((n - 1) as nat, base);
        assert(0 * base == 0);
    }
}

/// Zeros to the left change nothing.
pub proof fn lemma_value_padded(n: nat, digits: Seq<u8>, base: nat)
    ensures
        value_of(zeros(n) + digits, base) == value_of(digits, base),
{
    lemma_value_concat(zeros(n), digits, base);
    lemma_value_zeros(n, base);
}

/// The shortest numeral writes its number, in digits of the base, and does not
/// start with zero.
pub proof fn lemma_numeral(v: nat, base: nat)
    requires
        2 <= base <= 256,
    ensures
        digits_below(numeral(v, base), base),
        value_of(numeral(v, base), base) == v,
        v == 0 <==> numeral(v, base).len() == 0,
        v > 0 ==> numeral(v, base)[0] != 0,
    decreases v,
{
    if v > 0 {
        let q = v / base;
        let r = v % base;
        lemma_quotient_is_smaller(v, base);
        lemma_numeral(q, base);
        let front = numeral(q, base);
        let all = front.push(r as u8);
        assert(digits_below(all, base));
        lemma_value_push(front, r as u8, base);
        assert(q * base == base * q) by (nonlinear_arith);
    }
}

/// A number has at most `n` digits exactly when it is below `base` to the `n`.
pub proof fn lemma_numeral_len(v: nat, base: nat, n: nat)
    requires
        2 <= base,
    ensures
        numeral(v, base).len() <= n <==> v < span(base, n),
    decreases v,
{
    lemma_span_positive(base, n);
    if v > 0 {
        let q = v / base;
        let r = v % base;
        lemma_quotient_is_smaller(v, base);
        if n > 0 {
            lemma_numeral_len(q, base, (n - 1) as nat);
            let cap = span(base, (n - 1) as nat);
            assert(q < cap <==> v < cap * base) by (nonlinear_arith)
                requires
                    v == base * q + r,
                    0 <= r < base,
                    q >= 0,
                    cap >= 0,
            ;
        }
    }
}

/// A fixed numeral has its width, holds digits of the base, and writes its number
/// as far as the width reaches.
pub proof fn lemma_fixed_numeral(v: nat, base: nat, width: nat)
    requires
        1 <= base <= 256,
    ensures
        fixed_numeral(v, base, width).len() == width,
        digits_below(fixed_numeral(v, base, width), base),
        value_of(fixed_numeral(v, base, width), base) == v % span(base, width),
    decreases width,
{
    if width > 0 {
        let q = v / base;
        let r = v % base;
        let below = (width - 1) as nat;
        lemma_fixed_numeral(q, base, below);
        let front = fixed_numeral(q, base, below);
        let all = front.push(r as u8);
        assert(digits_below(all, base));
        lemma_value_push(front, r as u8, base);
        lemma_span_positive(base, below);
        let cap = span(base, below);
        lemma_breakdown(v as int, base as int, cap as int);
        assert(base * cap == cap * base) by (nonlinear_arith);
        assert((q % cap) * base == base * (q % cap)) by (nonlinear_arith);
    }
}

/// Each digit of a fixed numeral by itself: the digit at place `j` counts
/// multiples of `base` to the number of places to its right.
pub proof fn lemma_fixed_digit(v: nat, base: nat, width: nat, j: int)
    requires
        1 <= base <= 256,
        0 <= j < width,
    ensures
        fixed_numeral(v, base, width).len() == width,
        fixed_numeral(v, base, width)[j] as nat == (v / span(base, (width - 1 - j) as nat))
            % base,
    decreases width,
{
    lemma_fixed_numeral(v, base, width);
    let below = (width - 1) as nat;
    if j == width - 1 {
        assert(v / 1 == v);
    } else {
        lemma_fixed_digit(v / base, base, below, j);
        let right = (width - 2 - j) as nat;
        lemma_span_positive(base, right);
        let cap = span(base, right);
        lemma_div_denominator(v as int, base as int, cap as int);
        assert(base * cap == cap * base) by (nonlinear_arith);
    }
}

/// Where the number fits, the fixed numeral is the shortest one with zeros before it.
pub proof fn lemma_fixed_is_padded(v: nat, base: nat, width: nat)
    requires
        2 <= base,
        v < span(base, width),
    ensures
        numeral(v, base).len() <= width,
        fixed_numeral(v, base, width) == zeros((width - numeral(v, base).len()) as nat)
            + numeral(v, base),
    decreases width,
{
    if width > 0 {
        let q = v / base;
        let r = v % base;
        let below = (width - 1) as nat;
        let cap = span(base, below);
        lemma_fundamental_div_mod(v as int, base as int);
        assert(q < cap) by (nonlinear_arith)
            requires
                v == base * q + r,
                0 <= r < base,
                v < cap * base,
                q >= 0,
                cap >= 0,
        ;
        lemma_fixed_is_padded(q, base, below);
    }
}

/// A row of digits is the fixed numeral of the number it writes.
pub proof fn lemma_fixed_of_value(digits: Seq<u8>, base: nat)
    requires
        digits_below(digits, base),
    ensures
        fixed_numeral(value_of(digits, base), base, digits.len()) == digits,
    decreases digits.len(),
{
    if digits.len() > 0 {
        let front = digits.drop_last();
        let last = digits.last();
        assert(digits_below(front, base));
        let hi = value_of(front, base);
        let v = value_of(digits, base);
        assert(hi * base == hi as int * base as int) by (nonlinear_arith);
        lemma_fundamental_div_mod_converse(v as int, base as int, hi as int, last as int);
        lemma_fixed_of_value(front, base);
    }
}

/// Two rows of one length that write the same number are the same row.
pub proof fn lemma_value_injective(s: Seq<u8>, t: Seq<u8>, base: nat)
    requires
        s.len() == t.len(),
        digits_below(s, base),
        digits_below(t, base),
        value_of(s, base) == value_of(t, base),
    ensures
        s == t,
{
    lemma_fixed_of_value(s, base);
    lemma_fixed_of_value(t, base);
}

/// Among rows of one length, the smaller number is the row that comes first in
/// dictionary order.
pub proof fn lemma_value_order(s: Seq<u8>, t: Seq<u8>, base: nat)
    requires
        s.len() == t.len(),
        digits_below(s, base),
        digits_below(t, base),
    ensures
        value_of(s, base) < value_of(t, base) <==> digits_precede(s, t),
    decreases s.len(),
{
    if s.len() > 0 {
        let n = s.len() - 1;
        let sf = s.drop_last();
        let tf = t.drop_last();
        assert(digits_below(sf, base));
        assert(digits_below(tf, base));
        lemma_value_order(sf, tf, base);
        let a = value_of(sf, base);
        let b = value_of(tf, base);
        let x = s.last() as nat;
        let y = t.last() as nat;
        assert(a * base + x < b * base + y <==> a < b || (a == b && x < y)) by (nonlinear_arith)
            requires
                x < base,
                y < base,
        ;
        if digits_precede(s, t) {
            let i = choose|i: int|
                0 <= i <= s.len() && i < t.len() && s.take(i) == t.take(i) && (i < s.len()
                    ==> s[i] < t[i]);
            if i < n {
                assert(sf.take(i) =~= s.take(i));
                assert(tf.take(i) =~= t.take(i));
            }
        }
        if a < b {
            let i = choose|i: int|
                0 <= i <= sf.len() && i < tf.len() && sf.take(i) == tf.take(i) && (i
                    < sf.len() ==> sf[i] < tf[i]);
            assert(s.take(i) =~= sf.take(i));
            assert(t.take(i) =~= tf.take(i));
        } else if a == b && x < y {
            lemma_value_injective(sf, tf, base);
        }
    }
}

/// What stands before the first digit that is not zero, and what the row writes.
pub proof fn lemma_leading_zeros(digits: Seq<u8>, base: nat)
    requires
        digits_below(digits, base),
    ensures
        leading_zeros(digits) <= digits.len(),
        digits == zeros(leading_zeros(digits)) + digits.skip(leading_zeros(digits) as int),
        leading_zeros(digits) < digits.len() ==> digits[leading_zeros(digits) as int] != 0,
        value_of(digits, base) < span(base, (digits.len() - leading_zeros(digits)) as nat),
        value_of(digits, base) == 0 <==> leading_zeros(digits) == digits.len(),
    decreases digits.len(),
{
    let k = leading_zeros(digits);
    if digits.len() > 0 && digits[0] == 0 {
        let rest = digits.drop_first();
        assert(digits_below(rest, base));
        lemma_leading_zeros(rest, base);
        let j = leading_zeros(rest);
        let joined = zeros(k) + digits.skip(k as int);
        assert forall|i: int| 0 <= i < digits.len() implies digits[i] == joined[i] by {
            if i > 0 {
                assert(digits[i] == rest[i - 1]);
            }
        }
        assert(digits =~= zeros(1) + rest);
        lemma_value_padded(1, rest, base);
    } else {
        lemma_value_bound(digits, base);
        if digits.len() > 0 {
            lemma_first_digit_counts(digits, base);
            lemma_span_positive(base, (digits.len() - 1) as nat);
        }
    }
}

/// A row that starts with a digit other than zero writes a number other than zero.
pub proof fn lemma_first_digit_counts(digits: Seq<u8>, base: nat)
    requires
        digits.len() > 0,
        digits[0] != 0,
    ensures
        value_of(digits, base) >= span(base, (digits.len() - 1) as nat),
    decreases digits.len(),
{
    if digits.len() > 1 {
        let front = digits.drop_last();
        lemma_first_digit_counts(front, base);
        let hi = value_of(front, base);
        let cap = span(base, (front.len() - 1) as nat);
        assert(hi * base >= cap * base) by (nonlinear_arith)
            requires
                hi >= cap,
        ;
    }
}

} // verus!
