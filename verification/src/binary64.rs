//! IEEE 754 binary64 numbers, handled as their bit patterns.
//!
//! A pattern is a sign bit above a magnitude. Read as an integer, the
//! magnitude is an ordinal: finite magnitudes grow with it, infinity follows
//! the largest finite one, and every pattern above infinity is a NaN. The
//! magnitude of a finite number is measured here in units of `2^-1074`, the
//! smallest positive binary64 value, so that every finite number is a
//! natural number of units.

use vstd::prelude::*;
use vstd::arithmetic::div_mod::{
    lemma_basic_div, lemma_div_by_multiple, lemma_div_multiples_vanish_quotient,
    lemma_mod_multiples_basic, lemma_small_mod, lemma_truncate_middle,
};
use vstd::arithmetic::mul::{lemma_mul_is_associative, lemma_mul_is_commutative};
use vstd::arithmetic::power2::{
    lemma2_to64, lemma2_to64_rest, lemma_pow2_adds, lemma_pow2_pos, pow2,
};
use crate::power::{lemma_pow2_at_most, power_of_two};

verus! {

/// The sign bit of a binary64 pattern.
pub const SIGN64: u64 = 0x8000_0000_0000_0000;

/// The magnitude of binary64 infinity.
pub const INFINITY64: u64 = 0x7ff0_0000_0000_0000;

/// `2^52`: the weight of the leading significand bit of binary64.
pub const HIDDEN64: u64 = 0x0010_0000_0000_0000;

/// The significand of the finite magnitude `ordinal` in a format with
/// `fraction_bits` bits of fraction: the fraction itself for a subnormal
/// number, the fraction under a leading one otherwise.
pub open spec fn significand(ordinal: nat, fraction_bits: nat) -> nat {
    if ordinal < pow2(fraction_bits) {
        ordinal
    } else {
        pow2(fraction_bits) + ordinal % pow2(fraction_bits)
    }
}

/// The power of two that scales the significand of `ordinal`.
pub open spec fn shift(ordinal: nat, fraction_bits: nat) -> nat {
    if ordinal < pow2(fraction_bits) {
        0
    } else {
        (ordinal / pow2(fraction_bits) - 1) as nat
    }
}

/// The number that the magnitude `ordinal` stands for, in units of the
/// format's smallest positive value.
pub open spec fn grid_value(ordinal: nat, fraction_bits: nat) -> nat {
    significand(ordinal, fraction_bits) * pow2(shift(ordinal, fraction_bits))
}

/// The pattern without its sign bit.
pub open spec fn magnitude64(bits: u64) -> nat {
    (bits % SIGN64) as nat
}

/// The sign bit is set. This holds of negative zero and of some NaNs too.
pub open spec fn negative64(bits: u64) -> bool {
    bits >= SIGN64
}

/// Zero, subnormal or normal: neither infinite nor NaN.
pub open spec fn finite64(bits: u64) -> bool {
    magnitude64(bits) < INFINITY64
}

/// Not a number: a magnitude above that of infinity.
pub open spec fn nan64(bits: u64) -> bool {
    magnitude64(bits) > INFINITY64
}

/// The absolute value of a finite binary64 number, in units of `2^-1074`.
pub open spec fn scaled64(bits: u64) -> nat {
    grid_value(magnitude64(bits), 52)
}

/// The number of units of `2^-1074` in one.
pub open spec fn one64() -> nat {
    pow2(1074)
}

/// The number is finite and has no fractional part.
pub open spec fn whole64(bits: u64) -> bool {
    finite64(bits) && scaled64(bits) % one64() == 0
}

/// The integer that a whole binary64 number equals.
pub open spec fn whole_value64(bits: u64) -> int {
    if negative64(bits) {
        -((scaled64(bits) / one64()) as int)
    } else {
        (scaled64(bits) / one64()) as int
    }
}

/// Two patterns stand for the same number: they are equal, or both are zero.
/// A NaN is the same number as nothing, itself included.
pub open spec fn same_number64(left: u64, right: u64) -> bool {
    !nan64(left) && !nan64(right) && (left == right || (magnitude64(left) == 0 && magnitude64(
        right,
    ) == 0))
}

/// Dividing `m * 2^a` by `2^b`: an exact shift where `a >= b`, and otherwise
/// the division of `m` by `2^(b - a)`, with the remainder scaled by `2^a`.
pub proof fn lemma_scaled_division(m: nat, a: nat, b: nat)
    ensures
        pow2(b) > 0,
        a >= b ==> (m * pow2(a)) % pow2(b) == 0 && (m * pow2(a)) / pow2(b) == m * pow2(
            (a - b) as nat,
        ),
        a < b ==> (m * pow2(a)) % pow2(b) == pow2(a) * (m % pow2((b - a) as nat)) && (m * pow2(
            a,
        )) / pow2(b) == m / pow2((b - a) as nat),
{
    lemma_pow2_pos(a);
    lemma_pow2_pos(b);
    if a >= b {
        let rest = (a - b) as nat;
        lemma_pow2_adds(rest, b);
        lemma_mul_is_associative(m as int, pow2(rest) as int, pow2(b) as int);
        lemma_mod_multiples_basic((m * pow2(rest)) as int, pow2(b) as int);
        lemma_div_by_multiple((m * pow2(rest)) as int, pow2(b) as int);
    } else {
        let gap = (b - a) as nat;
        lemma_pow2_pos(gap);
        lemma_pow2_adds(a, gap);
        lemma_mul_is_commutative(m as int, pow2(a) as int);
        lemma_truncate_middle(m as int, pow2(a) as int, pow2(gap) as int);
        lemma_div_multiples_vanish_quotient(pow2(a) as int, m as int, pow2(gap) as int);
    }
}

/// Whether the sign bit is set.
pub fn is_negative(bits: u64) -> (negative: bool)
    ensures
        negative == negative64(bits),
{
    bits >= SIGN64
}

/// Whether the number is zero, subnormal or normal.
pub fn is_finite(bits: u64) -> (finite: bool)
    ensures
        finite == finite64(bits),
{
    bits % SIGN64 < INFINITY64
}

/// Whether the pattern is a NaN.
pub fn is_nan(bits: u64) -> (nan: bool)
    ensures
        nan == nan64(bits),
{
    bits % SIGN64 > INFINITY64
}

/// Splits a finite number into its significand and the power of two that
/// scales it.
pub(crate) fn decompose(bits: u64) -> (parts: (u64, u32))
    requires
        finite64(bits),
    ensures
        parts.0 == significand(magnitude64(bits), 52),
        parts.1 == shift(magnitude64(bits), 52),
        scaled64(bits) == parts.0 * pow2(parts.1 as nat),
        parts.0 < 2 * HIDDEN64,
        parts.1 <= 2045,
        parts.1 > 0 ==> parts.0 >= HIDDEN64,
{
    let magnitude: u64 = bits % SIGN64;
    proof {
        lemma2_to64_rest();
    }
    if magnitude < HIDDEN64 {
        (magnitude, 0)
    } else {
        (HIDDEN64 + magnitude % HIDDEN64, (magnitude / HIDDEN64 - 1) as u32)
    }
}

/// What a binary64 pattern is when it is asked for an integer.
#[derive(Debug, Clone, Copy, PartialEq, Eq, Structural)]
pub enum WholeReading {
    /// Infinite or NaN.
    NotFinite,

    /// Finite, with a fractional part.
    Fractional,

    /// A whole number that no `i64` holds.
    Beyond,

    /// A whole number, with its value.
    Whole(i64),
}

/// What `read_whole` finds in a pattern.
pub open spec fn whole_reading(bits: u64) -> WholeReading {
    if !finite64(bits) {
        WholeReading::NotFinite
    } else if !whole64(bits) {
        WholeReading::Fractional
    } else if !(i64::MIN <= whole_value64(bits) <= i64::MAX) {
        WholeReading::Beyond
    } else {
        WholeReading::Whole(whole_value64(bits) as i64)
    }
}

/// Reads a binary64 pattern as an integer.
pub fn read_whole(bits: u64) -> (reading: WholeReading)
    ensures
        reading == whole_reading(bits),
        reading matches WholeReading::Whole(value) ==> value == whole_value64(bits),
{
    if !is_finite(bits) {
        return WholeReading::NotFinite;
    }
    let (m, s) = decompose(bits);
    proof {
        lemma2_to64();
        lemma2_to64_rest();
        lemma_scaled_division(m as nat, s as nat, 1074);
    }
    let magnitude: u64 = if s >= 1074 {
        let up: u32 = s - 1074;
        if up >= 12 {
            proof {
                lemma_pow2_at_most(12, up as nat);
                assert(m * pow2(up as nat) > 0x8000_0000_0000_0000) by (nonlinear_arith)
                    requires
                        m >= 0x0010_0000_0000_0000,
                        pow2(up as nat) >= 0x1000,
                ;
            }
            return WholeReading::Beyond;
        }
        let factor: u64 = power_of_two(up);
        proof {
            lemma_pow2_at_most(up as nat, 11);
            assert(m * factor <= 0xffff_ffff_ffff_ffff) by (nonlinear_arith)
                requires
                    m < 0x0020_0000_0000_0000,
                    factor <= 0x800,
            ;
        }
        m * factor
    } else {
        let down: u32 = 1074 - s;
        if m == 0 {
            proof {
                lemma_pow2_pos(down as nat);
                lemma_small_mod(0, pow2(down as nat));
                lemma_basic_div(0, pow2(down as nat) as int);
            }
            0
        } else if down >= 53 {
            proof {
                lemma_pow2_at_most(53, down as nat);
                lemma_small_mod(m as nat, pow2(down as nat));
                lemma_pow2_pos(s as nat);
                assert(pow2(s as nat) * m > 0) by (nonlinear_arith)
                    requires
                        pow2(s as nat) > 0,
                        m > 0,
                ;
            }
            return WholeReading::Fractional;
        } else {
            let divisor: u64 = power_of_two(down);
            if m % divisor != 0 {
                proof {
                    lemma_pow2_pos(s as nat);
                    assert(pow2(s as nat) * (m % divisor) > 0) by (nonlinear_arith)
                        requires
                            pow2(s as nat) > 0,
                            m % divisor > 0,
                    ;
                }
                return WholeReading::Fractional;
            }
            proof {
                assert(pow2(s as nat) * (m % divisor) == 0) by (nonlinear_arith)
                    requires
                        m % divisor == 0,
                ;
            }
            m / divisor
        }
    };
    assert(magnitude == scaled64(bits) / one64());
    assert(whole64(bits));
    if is_negative(bits) {
        if magnitude > 0x8000_0000_0000_0000 {
            WholeReading::Beyond
        } else if magnitude == 0x8000_0000_0000_0000 {
            WholeReading::Whole(i64::MIN)
        } else {
            WholeReading::Whole(0 - (magnitude as i64))
        }
    } else {
        if magnitude >= 0x8000_0000_0000_0000 {
            WholeReading::Beyond
        } else {
            WholeReading::Whole(magnitude as i64)
        }
    }
}

/// The number of binary digits of `a`.
pub open spec fn bit_length(a: nat) -> nat
    decreases a,
{
    if a == 0 {
        0
    } else {
        1 + bit_length(a / 2)
    }
}

/// A number between `2^top` and `2^(top + 1)` has `top + 1` binary digits.
pub proof fn lemma_bit_length_between(a: nat, top: nat)
    requires
        pow2(top) <= a < pow2(top + 1),
    ensures
        bit_length(a) == top + 1,
    decreases top,
{
    lemma2_to64();
    if top == 0 {
        assert(a == 1);
        assert(bit_length(1) == 1 + bit_length(0));
    } else {
        vstd::arithmetic::power2::lemma_pow2_unfold(top);
        vstd::arithmetic::power2::lemma_pow2_unfold(top + 1);
        lemma_bit_length_between(a / 2, (top - 1) as nat);
    }
}

/// A positive number lies between the powers of two that its digit count
/// names.
pub proof fn lemma_bit_length_bounds(a: nat)
    requires
        a > 0,
    ensures
        bit_length(a) >= 1,
        pow2((bit_length(a) - 1) as nat) <= a < pow2(bit_length(a)),
    decreases a,
{
    lemma2_to64();
    if a == 1 {
        assert(bit_length(1) == 1 + bit_length(0));
    } else {
        lemma_bit_length_bounds(a / 2);
        vstd::arithmetic::power2::lemma_pow2_unfold(bit_length(a / 2));
        vstd::arithmetic::power2::lemma_pow2_unfold(bit_length(a));
    }
}

/// The magnitude of the normal binary64 number that equals `a * 2^s` units,
/// for a positive `a` below `2^53`.
pub open spec fn ordinal_of(a: nat, s: nat) -> nat {
    let top = (bit_length(a) - 1) as nat;
    ((s + top - 52) * pow2(52) + a * pow2((52 - top) as nat)) as nat
}

/// `ordinal_of(a, s)` is a finite magnitude that stands for `a * 2^s` units.
pub proof fn lemma_ordinal_of(a: nat, s: nat)
    requires
        0 < a < pow2(53),
        53 <= s + bit_length(a) <= 2098,
    ensures
        pow2(52) <= ordinal_of(a, s) < INFINITY64,
        grid_value(ordinal_of(a, s), 52) == a * pow2(s),
{
    lemma2_to64_rest();
    lemma_bit_length_bounds(a);
    let digits = bit_length(a);
    if digits > 53 {
        lemma_pow2_at_most(53, (digits - 1) as nat);
    }
    let top = (digits - 1) as nat;
    let up = (52 - top) as nat;
    let hidden = pow2(52);
    let w = a * pow2(up);
    lemma_pow2_adds(top, up);
    lemma_pow2_adds(top + 1, up);
    lemma_pow2_pos(up);
    assert(hidden <= w < 2 * hidden) by (nonlinear_arith)
        requires
            pow2(top) <= a < pow2(top + 1),
            pow2(top) * pow2(up) == hidden,
            pow2(top + 1) * pow2(up) == 2 * hidden,
            pow2(up) > 0,
            w == a * pow2(up),
    ;
    let exponent = (s + top - 51) as nat;
    let n = ordinal_of(a, s);
    assert(n == exponent * hidden + (w - hidden)) by (nonlinear_arith)
        requires
            n == (s + top - 52) * hidden + w,
            exponent == s + top - 51,
    ;
    vstd::arithmetic::div_mod::lemma_fundamental_div_mod_converse(
        n as int,
        hidden as int,
        exponent as int,
        (w - hidden) as int,
    );
    assert(n < INFINITY64) by (nonlinear_arith)
        requires
            n == exponent * hidden + (w - hidden),
            exponent <= 2046,
            w < 2 * hidden,
            hidden == 0x0010_0000_0000_0000,
    ;
    assert(n >= hidden) by (nonlinear_arith)
        requires
            n == exponent * hidden + (w - hidden),
            exponent >= 1,
            w >= hidden,
    ;
    let down = (s + top - 52) as nat;
    lemma_pow2_adds(up, down);
    assert(w * pow2(down) == a * pow2(s)) by (nonlinear_arith)
        requires
            w == a * pow2(up),
            pow2(up) * pow2(down) == pow2(s),
    ;
}

/// The magnitude of the normal binary64 number that equals `a * 2^s` units.
pub(crate) fn pack(a: u64, s: u32) -> (ordinal: u64)
    requires
        0 < a < 2 * HIDDEN64,
        53 <= s + bit_length(a as nat),
        s <= 2045,
    ensures
        ordinal == ordinal_of(a as nat, s as nat),
        HIDDEN64 <= ordinal < INFINITY64,
        grid_value(ordinal as nat, 52) == a * pow2(s as nat),
{
    let mut top: u32 = 0;
    let mut reach: u64 = 1;
    proof {
        lemma2_to64();
        lemma2_to64_rest();
    }
    while reach <= a / 2
        invariant
            0 < a < 2 * HIDDEN64,
            top <= 52,
            reach == pow2(top as nat),
            reach <= a,
        decreases a - reach,
    {
        proof {
            lemma2_to64_rest();
            lemma_pow2_pos(top as nat);
            vstd::arithmetic::power2::lemma_pow2_unfold((top + 1) as nat);
            if top >= 52 {
                lemma_pow2_at_most(52, top as nat);
            }
        }
        reach = reach * 2;
        top = top + 1;
    }
    proof {
        vstd::arithmetic::power2::lemma_pow2_unfold((top + 1) as nat);
        lemma_bit_length_between(a as nat, top as nat);
        lemma_ordinal_of(a as nat, s as nat);
        lemma_pow2_adds(top as nat, (52 - top) as nat);
        lemma_pow2_pos((52 - top) as nat);
        assert(a * pow2((52 - top) as nat) < 2 * HIDDEN64) by (nonlinear_arith)
            requires
                a < 2 * pow2(top as nat),
                pow2(top as nat) * pow2((52 - top) as nat) == HIDDEN64,
                pow2((52 - top) as nat) > 0,
        ;
    }
    let widened: u64 = a * power_of_two(52 - top);
    let exponent: u64 = (s + top - 52) as u64;
    assert(exponent * HIDDEN64 <= 2045 * HIDDEN64) by (nonlinear_arith)
        requires
            exponent <= 2045,
    ;
    exponent * HIDDEN64 + widened
}

/// The binary64 pattern of the integer `value`, for a magnitude below `2^53`.
/// Zero is positive zero.
pub open spec fn bits_of_whole(value: int) -> u64 {
    if value == 0 {
        0
    } else if value > 0 {
        ordinal_of(value as nat, 1074) as u64
    } else {
        (SIGN64 + ordinal_of((-value) as nat, 1074)) as u64
    }
}

/// The pattern of an integer is a whole number that equals the integer.
pub proof fn lemma_bits_of_whole(value: int)
    requires
        -pow2(53) < value < pow2(53),
    ensures
        whole64(bits_of_whole(value)),
        whole_value64(bits_of_whole(value)) == value,
        negative64(bits_of_whole(value)) == (value < 0),
        value >= 0 ==> scaled64(bits_of_whole(value)) == value * one64(),
        value < 0 ==> scaled64(bits_of_whole(value)) == (-value) * one64(),
{
    lemma2_to64();
    lemma2_to64_rest();
    let bits = bits_of_whole(value);
    if value == 0 {
        lemma_pow2_pos(1074);
        lemma_small_mod(0, one64());
        lemma_basic_div(0, one64() as int);
        assert(significand(0, 52) == 0);
        assert(scaled64(bits) == 0) by (nonlinear_arith)
            requires
                scaled64(bits) == 0 * pow2(shift(0, 52)),
        ;
    } else {
        let a: nat = if value > 0 {
            value as nat
        } else {
            (-value) as nat
        };
        lemma_bit_length_bounds(a);
        if bit_length(a) > 53 {
            lemma_pow2_at_most(53, (bit_length(a) - 1) as nat);
        }
        lemma_ordinal_of(a, 1074);
        let n = ordinal_of(a, 1074);
        assert(magnitude64(bits) == n);
        assert(negative64(bits) == (value < 0));
        lemma_scaled_division(a, 1074, 1074);
        assert(a * pow2(0) == a) by (nonlinear_arith)
            requires
                pow2(0) == 1,
        ;
    }
}

/// The binary64 pattern of an integer of magnitude below `2^53`.
pub fn whole_bits(value: i64) -> (bits: u64)
    requires
        -0x0020_0000_0000_0000 < value < 0x0020_0000_0000_0000,
    ensures
        bits == bits_of_whole(value as int),
{
    if value == 0 {
        return 0;
    }
    proof {
        lemma2_to64_rest();
        let a: nat = if value > 0 {
            value as nat
        } else {
            (-value) as nat
        };
        lemma_bit_length_bounds(a);
        if bit_length(a) > 53 {
            lemma_pow2_at_most(53, (bit_length(a) - 1) as nat);
        }
    }
    if value > 0 {
        pack(value as u64, 1074)
    } else {
        SIGN64 + pack((0 - value) as u64, 1074)
    }
}

/// From one finite magnitude to the next, the number grows by the weight of
/// the last bit of the significand.
pub proof fn lemma_grid_step(ordinal: nat, fraction_bits: nat)
    ensures
        grid_value(ordinal + 1, fraction_bits) == grid_value(ordinal, fraction_bits) + pow2(
            shift(ordinal, fraction_bits),
        ),
        shift(ordinal, fraction_bits) <= shift(ordinal + 1, fraction_bits) <= shift(
            ordinal,
            fraction_bits,
        ) + 1,
{
    let hidden = pow2(fraction_bits);
    lemma_pow2_pos(fraction_bits);
    lemma2_to64();
    let n = ordinal;
    if n + 1 < hidden {
        assert(grid_value(n, fraction_bits) == n * 1);
        assert(grid_value(n + 1, fraction_bits) == (n + 1) * 1);
    } else if n + 1 == hidden {
        vstd::arithmetic::div_mod::lemma_fundamental_div_mod_converse(
            hidden as int,
            hidden as int,
            1,
            0,
        );
        assert(grid_value(n, fraction_bits) == n * 1);
        assert(grid_value(n + 1, fraction_bits) == hidden * 1);
    } else {
        let e = n / hidden;
        let f = n % hidden;
        vstd::arithmetic::div_mod::lemma_fundamental_div_mod(n as int, hidden as int);
        vstd::arithmetic::div_mod::lemma_mod_bound(n as int, hidden as int);
        assert(e >= 1) by {
            if e < 1 {
                assert(e == 0) by {
                    vstd::arithmetic::div_mod::lemma_div_pos_is_pos(n as int, hidden as int);
                }
                assert(hidden * 0 == 0);
                assert(hidden * e == 0);
            }
        }
        let low = pow2((e - 1) as nat);
        if f + 1 < hidden {
            assert(n + 1 == e * hidden + (f + 1)) by (nonlinear_arith)
                requires
                    n == hidden * e + f,
            ;
            vstd::arithmetic::div_mod::lemma_fundamental_div_mod_converse(
                (n + 1) as int,
                hidden as int,
                e as int,
                (f + 1) as int,
            );
            assert((hidden + f + 1) * low == (hidden + f) * low + low) by (nonlinear_arith);
        } else {
            assert(n + 1 == (e + 1) * hidden + 0) by (nonlinear_arith)
                requires
                    n == hidden * e + f,
                    f + 1 == hidden,
            ;
            vstd::arithmetic::div_mod::lemma_fundamental_div_mod_converse(
                (n + 1) as int,
                hidden as int,
                (e + 1) as int,
                0,
            );
            vstd::arithmetic::power2::lemma_pow2_unfold(e);
            assert((hidden + 0) * (2 * low) == (hidden + f) * low + low) by (nonlinear_arith)
                requires
                    f + 1 == hidden,
            ;
        }
    }
}

/// Finite magnitudes are ordered as the numbers they stand for.
pub proof fn lemma_grid_monotone(low: nat, high: nat, fraction_bits: nat)
    requires
        low < high,
    ensures
        grid_value(low, fraction_bits) < grid_value(high, fraction_bits),
        shift(low, fraction_bits) <= shift(high, fraction_bits),
    decreases high - low,
{
    lemma_grid_step((high - 1) as nat, fraction_bits);
    lemma_pow2_pos(shift((high - 1) as nat, fraction_bits));
    if low < high - 1 {
        lemma_grid_monotone(low, (high - 1) as nat, fraction_bits);
    }
}

/// Two finite magnitudes that stand for the same number are the same.
pub proof fn lemma_grid_injective(left: nat, right: nat, fraction_bits: nat)
    requires
        grid_value(left, fraction_bits) == grid_value(right, fraction_bits),
    ensures
        left == right,
{
    if left < right {
        lemma_grid_monotone(left, right, fraction_bits);
    } else if right < left {
        lemma_grid_monotone(right, left, fraction_bits);
    }
}

/// A whole number below `2^53` in magnitude is the same number as the
/// pattern of its value: the same pattern, but for negative zero, whose
/// value has the pattern of positive zero.
pub proof fn lemma_whole_round_trip(bits: u64)
    requires
        whole64(bits),
        -pow2(53) < whole_value64(bits) < pow2(53),
    ensures
        same_number64(bits_of_whole(whole_value64(bits)), bits),
        magnitude64(bits) != 0 ==> bits_of_whole(whole_value64(bits)) == bits,
        magnitude64(bits) == 0 ==> bits_of_whole(whole_value64(bits)) == 0,
{
    lemma2_to64_rest();
    let value = whole_value64(bits);
    let back = bits_of_whole(value);
    let a = scaled64(bits) / one64();
    lemma_pow2_pos(1074);
    vstd::arithmetic::div_mod::lemma_fundamental_div_mod(scaled64(bits) as int, one64() as int);
    assert(scaled64(bits) == a * one64()) by (nonlinear_arith)
        requires
            scaled64(bits) == one64() * a + 0,
    ;
    lemma_bits_of_whole(value);
    assert(grid_value(0, 52) == 0) by (nonlinear_arith)
        requires
            grid_value(0, 52) == 0 * pow2(shift(0, 52)),
    ;
    if a == 0 {
        assert(scaled64(bits) == 0) by (nonlinear_arith)
            requires
                scaled64(bits) == a * one64(),
                a == 0,
        ;
        lemma_grid_injective(magnitude64(bits), 0, 52);
    } else {
        if magnitude64(bits) == 0 {
            assert(a * one64() > 0) by (nonlinear_arith)
                requires
                    a > 0,
                    one64() > 0,
            ;
        }
        lemma_grid_injective(magnitude64(bits), magnitude64(back), 52);
    }
}

} // verus!
