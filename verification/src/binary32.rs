//! IEEE 754 binary32 numbers as bit patterns, and the two conversions
//! between binary32 and binary64.
//!
//! Widening is exact. Narrowing rounds to the nearest binary32 number, a tie
//! going to the even significand: the laws at the end of this file say so,
//! and that a number which binary32 holds exactly comes back unchanged.

use vstd::prelude::*;
use vstd::arithmetic::div_mod::{
    lemma_basic_div, lemma_fundamental_div_mod, lemma_fundamental_div_mod_converse,
    lemma_mod_bound, lemma_multiply_divide_lt, lemma_small_mod,
};
use vstd::arithmetic::power2::{
    lemma2_to64, lemma2_to64_rest, lemma_pow2_adds, lemma_pow2_pos, pow2,
};
use crate::binary64::{
    bit_length, decompose, finite64, grid_value, lemma_bit_length_bounds, lemma_grid_injective,
    lemma_grid_monotone, lemma_grid_step, lemma_ordinal_of, lemma_scaled_division, magnitude64,
    nan64, negative64, ordinal_of, pack, scaled64, shift, significand, HIDDEN64, INFINITY64,
    SIGN64,
};
use crate::power::{lemma_pow2_at_most, power_of_two};

verus! {

/// The sign bit of a binary32 pattern.
pub const SIGN32: u32 = 0x8000_0000;

/// The magnitude of binary32 infinity.
pub const INFINITY32: u32 = 0x7f80_0000;

/// `2^23`: the weight of the leading significand bit of binary32.
pub const HIDDEN32: u32 = 0x0080_0000;

/// The pattern without its sign bit.
pub open spec fn magnitude32(bits: u32) -> nat {
    (bits % SIGN32) as nat
}

/// The sign bit is set. This holds of negative zero and of some NaNs too.
pub open spec fn negative32(bits: u32) -> bool {
    bits >= SIGN32
}

/// Zero, subnormal or normal: neither infinite nor NaN.
pub open spec fn finite32(bits: u32) -> bool {
    magnitude32(bits) < INFINITY32
}

/// Not a number: a magnitude above that of infinity.
pub open spec fn nan32(bits: u32) -> bool {
    magnitude32(bits) > INFINITY32
}

/// The number that a binary32 magnitude stands for, in units of `2^-1074`.
/// The smallest positive binary32 value is `2^-149`, which is `2^925` units.
/// At the magnitude of infinity this is `2^128`, the first power of two
/// that binary32 cannot hold.
pub open spec fn grid32(ordinal: nat) -> nat {
    grid_value(ordinal, 23) * pow2(925)
}

/// The absolute value of a finite binary32 number, in units of `2^-1074`.
pub open spec fn scaled32(bits: u32) -> nat {
    grid32(magnitude32(bits))
}

/// The binary64 magnitude that a binary32 magnitude widens to. A finite
/// number keeps its value. A NaN keeps its payload in the leading fraction
/// bits and comes out quiet.
pub open spec fn widened_magnitude(ordinal: nat) -> nat {
    if ordinal == 0 {
        0
    } else if ordinal < INFINITY32 {
        ordinal_of(significand(ordinal, 23), shift(ordinal, 23) + 925)
    } else if ordinal == INFINITY32 {
        INFINITY64 as nat
    } else {
        let payload = (ordinal - INFINITY32) * pow2(29);
        if payload < pow2(51) {
            (INFINITY64 + pow2(51) + payload) as nat
        } else {
            (INFINITY64 + payload) as nat
        }
    }
}

/// The binary64 pattern that a binary32 pattern widens to.
pub open spec fn widened(bits: u32) -> u64 {
    if negative32(bits) {
        (SIGN64 + widened_magnitude(magnitude32(bits))) as u64
    } else {
        widened_magnitude(magnitude32(bits)) as u64
    }
}

/// `x / unit`, rounded to the nearest integer, a tie going to the even one.
pub open spec fn round_half_even(x: nat, unit: nat) -> nat {
    let below = x / unit;
    let rest = x % unit;
    if 2 * rest < unit || (2 * rest == unit && below % 2 == 0) {
        below
    } else {
        below + 1
    }
}

/// The power of two that scales the binary32 significand nearest to a
/// binary64 number of the given shift, counted from the smallest binary32
/// value: zero throughout the subnormal and the first normal range.
pub open spec fn narrowed_shift(shift64: nat) -> nat {
    if shift64 <= 896 {
        0
    } else {
        (shift64 - 896) as nat
    }
}

/// The binary32 magnitude that a binary64 magnitude narrows to. A finite
/// number is rounded to the nearest binary32 number, a tie going to the even
/// significand, and becomes infinite where that is out of binary32's range.
/// A NaN keeps the leading bits of its payload and comes out quiet.
pub open spec fn narrowed_magnitude(ordinal: nat) -> nat {
    if ordinal < INFINITY64 {
        let up = narrowed_shift(shift(ordinal, 52));
        let rounded = round_half_even(grid_value(ordinal, 52), pow2(925 + up)) + up * pow2(23);
        if rounded < INFINITY32 {
            rounded
        } else {
            INFINITY32 as nat
        }
    } else if ordinal == INFINITY64 {
        INFINITY32 as nat
    } else {
        let payload = (ordinal - INFINITY64) / pow2(29) as int;
        if payload < pow2(22) {
            (INFINITY32 + pow2(22) + payload) as nat
        } else {
            (INFINITY32 + payload) as nat
        }
    }
}

/// The binary32 pattern that a binary64 pattern narrows to.
pub open spec fn narrowed(bits: u64) -> u32 {
    if negative64(bits) {
        (SIGN32 + narrowed_magnitude(magnitude64(bits))) as u32
    } else {
        narrowed_magnitude(magnitude64(bits)) as u32
    }
}

/// Widens a binary32 pattern to binary64.
pub fn widen(bits: u32) -> (wide: u64)
    ensures
        wide == widened(bits),
{
    let magnitude: u32 = bits % SIGN32;
    let sign: u64 = if bits >= SIGN32 {
        SIGN64
    } else {
        0
    };
    proof {
        lemma2_to64();
        lemma2_to64_rest();
    }
    let wide_magnitude: u64 = if magnitude == 0 {
        0
    } else if magnitude < INFINITY32 {
        let m: u32 = if magnitude < HIDDEN32 {
            magnitude
        } else {
            HIDDEN32 + magnitude % HIDDEN32
        };
        let s: u32 = if magnitude < HIDDEN32 {
            0
        } else {
            magnitude / HIDDEN32 - 1
        };
        proof {
            lemma_bit_length_bounds(m as nat);
        }
        pack(m as u64, s + 925)
    } else if magnitude == INFINITY32 {
        INFINITY64
    } else {
        let payload: u64 = ((magnitude - INFINITY32) as u64) * 0x2000_0000;
        if payload < 0x0008_0000_0000_0000 {
            INFINITY64 + 0x0008_0000_0000_0000 + payload
        } else {
            INFINITY64 + payload
        }
    };
    sign + wide_magnitude
}

/// Rounding `m * 2^a` to a multiple of `2^b` rounds `m` to a multiple of
/// `2^(b - a)`.
pub proof fn lemma_round_scaled(m: nat, a: nat, b: nat)
    requires
        a < b,
    ensures
        round_half_even(m * pow2(a), pow2(b)) == round_half_even(m, pow2((b - a) as nat)),
{
    let gap = (b - a) as nat;
    lemma_scaled_division(m, a, b);
    lemma_pow2_adds(a, gap);
    lemma_pow2_pos(a);
    lemma_pow2_pos(gap);
    let rest = m % pow2(gap);
    let scale = pow2(a);
    let unit = pow2(gap);
    assert(2 * (scale * rest) < scale * unit <==> 2 * rest < unit) by (nonlinear_arith)
        requires
            scale > 0,
    ;
    assert(2 * (scale * rest) == scale * unit <==> 2 * rest == unit) by (nonlinear_arith)
        requires
            scale > 0,
    ;
}

/// `m / 2^d`, rounded to the nearest integer, a tie going to the even one.
pub(crate) fn round_shift(m: u64, d: u32) -> (rounded: u64)
    requires
        m < 2 * HIDDEN64,
    ensures
        rounded == round_half_even(m as nat, pow2(d as nat)),
        rounded <= 2 * HIDDEN64,
{
    proof {
        lemma2_to64();
        lemma2_to64_rest();
    }
    if d >= 54 {
        proof {
            lemma_pow2_at_most(54, d as nat);
            lemma_small_mod(m as nat, pow2(d as nat));
            lemma_basic_div(m as int, pow2(d as nat) as int);
        }
        return 0;
    }
    let unit: u64 = power_of_two(d);
    proof {
        lemma_pow2_at_most(d as nat, 53);
    }
    let below: u64 = m / unit;
    let rest: u64 = m % unit;
    assert(below <= m) by (nonlinear_arith)
        requires
            below == m / unit,
            unit >= 1,
    ;
    if 2 * rest < unit || (2 * rest == unit && below % 2 == 0) {
        below
    } else {
        below + 1
    }
}

/// Narrows a binary64 pattern to binary32.
pub fn narrow(bits: u64) -> (slim: u32)
    ensures
        slim == narrowed(bits),
{
    let magnitude: u64 = bits % SIGN64;
    let sign: u32 = if bits >= SIGN64 {
        SIGN32
    } else {
        0
    };
    proof {
        lemma2_to64();
        lemma2_to64_rest();
    }
    let slim_magnitude: u32 = if magnitude < INFINITY64 {
        let (m, s) = decompose(bits);
        let up: u32 = if s <= 896 {
            0
        } else {
            s - 896
        };
        let d: u32 = 925 + up - s;
        proof {
            lemma_round_scaled(m as nat, s as nat, 925 + up as nat);
        }
        let rounded: u64 = round_shift(m, d) + (up as u64) * 0x0080_0000;
        if rounded < INFINITY32 as u64 {
            rounded as u32
        } else {
            INFINITY32
        }
    } else if magnitude == INFINITY64 {
        INFINITY32
    } else {
        let payload: u32 = ((magnitude - INFINITY64) / 0x2000_0000) as u32;
        if payload < 0x0040_0000 {
            INFINITY32 + 0x0040_0000 + payload
        } else {
            INFINITY32 + payload
        }
    };
    sign + slim_magnitude
}

/// Widening keeps the sign and the class of a binary32 number, and the value
/// of a finite one.
pub proof fn lemma_widened(bits: u32)
    ensures
        negative64(widened(bits)) == negative32(bits),
        magnitude64(widened(bits)) == widened_magnitude(magnitude32(bits)),
        finite32(bits) ==> finite64(widened(bits)) && scaled64(widened(bits)) == scaled32(bits),
        finite32(bits) == finite64(widened(bits)),
        nan32(bits) == nan64(widened(bits)),
{
    lemma2_to64();
    lemma2_to64_rest();
    let ordinal = magnitude32(bits);
    if ordinal == 0 {
        assert(grid_value(0, 52) == 0) by (nonlinear_arith)
            requires
                grid_value(0, 52) == 0 * pow2(shift(0, 52)),
        ;
        assert(grid32(0) == 0) by (nonlinear_arith)
            requires
                grid32(0) == (0 * pow2(shift(0, 23))) * pow2(925),
        ;
    } else if ordinal < INFINITY32 {
        let m = significand(ordinal, 23);
        let s = shift(ordinal, 23);
        assert(0 < m < pow2(24));
        assert(s <= 253);
        lemma_bit_length_bounds(m);
        if bit_length(m) > 24 {
            lemma_pow2_at_most(24, (bit_length(m) - 1) as nat);
        }
        lemma_pow2_at_most(24, 53);
        lemma_ordinal_of(m, s + 925);
        lemma_pow2_adds(s, 925);
        assert(m * pow2(s + 925) == (m * pow2(s)) * pow2(925)) by (nonlinear_arith)
            requires
                pow2(s + 925) == pow2(s) * pow2(925),
        ;
    } else if ordinal == INFINITY32 {
    } else {
        let payload = (ordinal - INFINITY32) * pow2(29);
        assert(pow2(29) <= payload < pow2(52)) by (nonlinear_arith)
            requires
                0 < ordinal - INFINITY32 < 0x0080_0000,
                payload == (ordinal - INFINITY32) * pow2(29),
                pow2(29) == 0x2000_0000,
                pow2(52) == 0x0010_0000_0000_0000,
        ;
    }
}

/// Narrowing keeps a NaN a NaN.
pub proof fn lemma_narrowed_nan(bits: u64)
    requires
        nan64(bits),
    ensures
        nan32(narrowed(bits)),
        !finite32(narrowed(bits)),
{
    lemma2_to64();
    lemma2_to64_rest();
    let ordinal = magnitude64(bits);
    let payload = (ordinal - INFINITY64) / pow2(29) as int;
    assert(0 <= payload < pow2(23));
}

/// How far apart two numbers are.
pub open spec fn distance(a: nat, b: nat) -> nat {
    if a >= b {
        (a - b) as nat
    } else {
        (b - a) as nat
    }
}

/// `ordinal` is the binary32 magnitude that round-to-nearest, ties-to-even
/// picks for a number of `x` units: no magnitude up to infinity, taken as
/// `2^128`, is nearer to `x`, and where another is as near, `ordinal` is the
/// even one.
pub open spec fn nearest32(x: nat, ordinal: nat) -> bool {
    &&& ordinal <= INFINITY32
    &&& forall|other: nat|
        other <= INFINITY32 ==> distance(#[trigger] grid32(other), x) >= distance(
            grid32(ordinal),
            x,
        )
    &&& forall|other: nat|
        other <= INFINITY32 && other != ordinal && distance(#[trigger] grid32(other), x)
            == distance(grid32(ordinal), x) ==> ordinal % 2 == 0
}

/// A binary64 number is one that binary32 holds exactly.
pub open spec fn representable32(bits: u64) -> bool {
    finite64(bits) && exists|slim: u32|
        finite32(slim) && #[trigger] scaled32(slim) == scaled64(bits)
}

/// Binary32 magnitudes are ordered as the numbers they stand for.
pub proof fn lemma_grid32_monotone(low: nat, high: nat)
    requires
        low <= high,
    ensures
        grid32(low) <= grid32(high),
        low < high ==> grid32(low) < grid32(high),
{
    lemma_pow2_pos(925);
    if low < high {
        lemma_grid_monotone(low, high, 23);
        assert(grid_value(low, 23) * pow2(925) < grid_value(high, 23) * pow2(925))
            by (nonlinear_arith)
            requires
                grid_value(low, 23) < grid_value(high, 23),
                pow2(925) > 0,
        ;
    }
}

/// The binary32 magnitude just below a finite binary64 number: the number
/// lies from it up to, but not at, the next magnitude, one unit of its last
/// place further.
pub proof fn lemma_narrow_floor(ordinal: nat)
    requires
        ordinal < INFINITY64,
    ensures
        ({
            let x = grid_value(ordinal, 52);
            let up = narrowed_shift(shift(ordinal, 52));
            let unit = pow2(925 + up);
            let floor = x / unit + up * pow2(23);
            &&& unit > 0
            &&& grid32(floor) == (x / unit) * unit
            &&& grid32(floor + 1) == grid32(floor) + unit
            &&& grid32(floor) + x % unit == x
            &&& x % unit < unit
        }),
{
    lemma2_to64();
    lemma2_to64_rest();
    let m = significand(ordinal, 52);
    let s = shift(ordinal, 52);
    let x = grid_value(ordinal, 52);
    let up = narrowed_shift(s);
    let unit = pow2(925 + up);
    let below = x / unit;
    let floor = below + up * pow2(23);
    let hidden = pow2(23);
    lemma_pow2_pos(925 + up);
    lemma_pow2_pos(s);
    lemma_pow2_pos(up);
    lemma_fundamental_div_mod(x as int, unit as int);
    lemma_mod_bound(x as int, unit as int);
    assert(unit * below == below * unit) by (nonlinear_arith);
    lemma_pow2_adds(up, 925);
    assert(m < pow2(53));
    if up == 0 {
        assert(below < pow2(24)) by {
            lemma_pow2_at_most(s, 896);
            lemma_pow2_adds(53, 896);
            lemma_pow2_adds(24, 925);
            assert(x < pow2(53) * pow2(896)) by (nonlinear_arith)
                requires
                    x == m * pow2(s),
                    m < pow2(53),
                    0 < pow2(s) <= pow2(896),
            ;
            lemma_multiply_divide_lt(x as int, unit as int, pow2(24) as int);
        }
        assert(floor == below) by (nonlinear_arith)
            requires
                floor == below + up * hidden,
                up == 0,
        ;
        if below >= hidden {
            lemma_fundamental_div_mod_converse(
                below as int,
                hidden as int,
                1,
                (below - hidden) as int,
            );
        }
        assert(significand(floor, 23) == below);
        assert(shift(floor, 23) == 0);
        assert(grid_value(floor, 23) == below) by (nonlinear_arith)
            requires
                grid_value(floor, 23) == below * pow2(0),
                pow2(0) == 1,
        ;
    } else {
        assert(s == 896 + up);
        assert(ordinal >= pow2(52));
        assert(pow2(52) <= m < pow2(53)) by {
            lemma_mod_bound(ordinal as int, pow2(52) as int);
        }
        lemma_scaled_division(m, s, s + 29);
        assert(below == m / pow2(29));
        assert(hidden <= below < 2 * hidden);
        assert(floor == (up + 1) * hidden + (below - hidden)) by (nonlinear_arith)
            requires
                floor == below + up * hidden,
        ;
        lemma_fundamental_div_mod_converse(
            floor as int,
            hidden as int,
            (up + 1) as int,
            (below - hidden) as int,
        );
        assert(floor >= hidden) by (nonlinear_arith)
            requires
                floor == (up + 1) * hidden + (below - hidden),
                below >= hidden,
        ;
        assert(significand(floor, 23) == below);
        assert(shift(floor, 23) == up);
    }
    assert(grid32(floor) == below * unit) by (nonlinear_arith)
        requires
            grid32(floor) == (significand(floor, 23) * pow2(shift(floor, 23))) * pow2(925),
            significand(floor, 23) == below,
            shift(floor, 23) == up,
            unit == pow2(up) * pow2(925),
            up == 0 ==> pow2(shift(floor, 23)) == pow2(up),
    ;
    lemma_grid_step(floor, 23);
    assert(grid32(floor + 1) == grid32(floor) + unit) by (nonlinear_arith)
        requires
            grid32(floor + 1) == grid_value(floor + 1, 23) * pow2(925),
            grid32(floor) == grid_value(floor, 23) * pow2(925),
            grid_value(floor + 1, 23) == grid_value(floor, 23) + pow2(up),
            unit == pow2(up) * pow2(925),
    ;
}

/// Narrowing rounds a finite binary64 number to the nearest binary32
/// magnitude, a tie going to the even one, and to infinity where the number
/// is at least half a unit in the last place beyond the largest finite
/// binary32 number.
pub proof fn lemma_narrowed_nearest(ordinal: nat)
    requires
        ordinal < INFINITY64,
    ensures
        nearest32(grid_value(ordinal, 52), narrowed_magnitude(ordinal)),
{
    lemma2_to64();
    lemma_narrow_floor(ordinal);
    let x = grid_value(ordinal, 52);
    let up = narrowed_shift(shift(ordinal, 52));
    let unit = pow2(925 + up);
    let below = x / unit;
    let rest = x % unit;
    let floor = below + up * pow2(23);
    let rounded = round_half_even(x, unit) + up * pow2(23);
    let result = narrowed_magnitude(ordinal);
    let top = INFINITY32 as nat;
    assert(rounded == floor || rounded == floor + 1);
    assert(floor % 2 == below % 2);
    assert(result == if rounded < top {
        rounded
    } else {
        top
    });
    if rounded > top {
        lemma_grid32_monotone(top, floor);
    }
    assert forall|other: nat| other <= top implies distance(#[trigger] grid32(other), x)
        >= distance(grid32(result), x) by {
        if rounded > top {
            lemma_grid32_monotone(other, top);
        } else if other <= floor {
            lemma_grid32_monotone(other, floor);
        } else {
            lemma_grid32_monotone(floor + 1, other);
        }
    }
    assert forall|other: nat|
        other <= top && other != result && distance(#[trigger] grid32(other), x) == distance(
            grid32(result),
            x,
        ) implies result % 2 == 0 by {
        if rounded < top {
            if other <= floor {
                lemma_grid32_monotone(other, floor);
            } else {
                lemma_grid32_monotone(floor + 1, other);
            }
        }
    }
}

/// Round-to-nearest, ties-to-even picks one magnitude only.
pub proof fn lemma_nearest32_unique(x: nat, first: nat, second: nat)
    requires
        nearest32(x, first),
        nearest32(x, second),
    ensures
        first == second,
{
    if first != second {
        let low = if first < second {
            first
        } else {
            second
        };
        let high = if first < second {
            second
        } else {
            first
        };
        assert(distance(grid32(low), x) == distance(grid32(high), x));
        assert(low % 2 == 0 && high % 2 == 0);
        let between = low + 1;
        lemma_grid32_monotone(low, between);
        lemma_grid32_monotone(between, high);
        assert(distance(grid32(between), x) < distance(grid32(low), x));
    }
}

/// A number that binary32 holds exactly narrows to the binary32 pattern of
/// that number, and widens back to the pattern it came from.
pub proof fn lemma_representable_round_trip(bits: u64)
    requires
        representable32(bits),
    ensures
        finite32(narrowed(bits)),
        scaled32(narrowed(bits)) == scaled64(bits),
        negative32(narrowed(bits)) == negative64(bits),
        widened(narrowed(bits)) == bits,
{
    lemma2_to64();
    lemma2_to64_rest();
    let ordinal = magnitude64(bits);
    let x = scaled64(bits);
    let witness = choose|slim: u32| finite32(slim) && #[trigger] scaled32(slim) == scaled64(bits);
    let exact = magnitude32(witness);
    let result = narrowed_magnitude(ordinal);
    lemma_narrowed_nearest(ordinal);
    assert(distance(grid32(exact), x) == 0);
    assert(grid32(result) == x);
    lemma_pow2_pos(925);
    assert(grid_value(result, 23) == grid_value(exact, 23)) by (nonlinear_arith)
        requires
            grid_value(result, 23) * pow2(925) == grid_value(exact, 23) * pow2(925),
            pow2(925) > 0,
    ;
    lemma_grid_injective(result, exact, 23);
    let slim = narrowed(bits);
    assert(magnitude32(slim) == result);
    lemma_widened(slim);
    lemma_grid_injective(magnitude64(widened(slim)), ordinal, 52);
}

} // verus!
