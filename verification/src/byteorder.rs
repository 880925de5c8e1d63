//! Unsigned integers as byte sequences, in little- and big-endian order.

use vstd::prelude::*;
use vstd::arithmetic::power2::{lemma2_to64, lemma_pow2_adds, pow2};
use crate::model::Endianness;

verus! {

/// The number whose little-endian digits, base 256, are `bytes`.
pub open spec fn le_value(bytes: Seq<u8>) -> nat
    decreases bytes.len(),
{
    if bytes.len() == 0 {
        0
    } else {
        bytes[0] as nat + 256 * le_value(bytes.drop_first())
    }
}

/// The lowest `width` little-endian digits, base 256, of `value`.
pub open spec fn le_bytes(value: nat, width: nat) -> Seq<u8>
    decreases width,
{
    if width == 0 {
        Seq::empty()
    } else {
        seq![(value % 256) as u8] + le_bytes(value / 256, (width - 1) as nat)
    }
}

/// The number that `bytes` spell in the given byte order.
pub open spec fn ordered_value(bytes: Seq<u8>, endianness: Endianness) -> nat {
    match endianness {
        Endianness::Little => le_value(bytes),
        Endianness::Big => le_value(bytes.reverse()),
    }
}

/// The lowest `width` bytes of `value` in the given byte order.
pub open spec fn ordered_bytes(value: nat, width: nat, endianness: Endianness) -> Seq<u8> {
    match endianness {
        Endianness::Little => le_bytes(value, width),
        Endianness::Big => le_bytes(value, width).reverse(),
    }
}

/// One byte more multiplies the range of a byte sequence by 256.
pub proof fn lemma_radix_step(width: nat)
    ensures
        pow2(8 * (width + 1)) == 256 * pow2(8 * width),
        pow2(8 * width) > 0,
{
    lemma2_to64();
    lemma_pow2_adds(8, 8 * width);
    vstd::arithmetic::power2::lemma_pow2_pos(8 * width);
}

/// A sequence of `n` bytes spells a number below `256^n`.
pub proof fn lemma_le_value_bound(bytes: Seq<u8>)
    ensures
        le_value(bytes) < pow2(8 * bytes.len()),
    decreases bytes.len(),
{
    if bytes.len() == 0 {
        lemma2_to64();
    } else {
        lemma_le_value_bound(bytes.drop_first());
        lemma_radix_step((bytes.len() - 1) as nat);
    }
}

/// The lowest `width` bytes of a number are `width` bytes.
pub proof fn lemma_le_bytes_len(value: nat, width: nat)
    ensures
        le_bytes(value, width).len() == width,
    decreases width,
{
    if width > 0 {
        lemma_le_bytes_len(value / 256, (width - 1) as nat);
    }
}

/// The bytes of a number that fits `width` bytes spell that number.
pub proof fn lemma_le_value_of_bytes(value: nat, width: nat)
    requires
        value < pow2(8 * width),
    ensures
        le_value(le_bytes(value, width)) == value,
    decreases width,
{
    if width == 0 {
        lemma2_to64();
    } else {
        let rest = (width - 1) as nat;
        lemma_radix_step(rest);
        lemma_le_value_of_bytes(value / 256, rest);
        lemma_le_bytes_len(value / 256, rest);
        let bytes = le_bytes(value, width);
        assert(bytes.drop_first() =~= le_bytes(value / 256, rest));
    }
}

/// In either order, `n` bytes spell a number below `256^n`.
pub proof fn lemma_ordered_value_bound(bytes: Seq<u8>, endianness: Endianness)
    ensures
        ordered_value(bytes, endianness) < pow2(8 * bytes.len()),
{
    lemma_le_value_bound(bytes);
    lemma_le_value_bound(bytes.reverse());
}

/// In either order, the lowest `width` bytes of a number are `width` bytes.
pub proof fn lemma_ordered_bytes_len(value: nat, width: nat, endianness: Endianness)
    ensures
        ordered_bytes(value, width, endianness).len() == width,
{
    lemma_le_bytes_len(value, width);
}

/// Writing a number that fits and reading it back gives the number.
pub proof fn lemma_ordered_value_of_bytes(value: nat, width: nat, endianness: Endianness)
    requires
        value < pow2(8 * width),
    ensures
        ordered_value(ordered_bytes(value, width, endianness), endianness) == value,
{
    lemma_le_value_of_bytes(value, width);
    let bytes = le_bytes(value, width);
    assert(bytes.reverse().reverse() =~= bytes);
}

/// Reads up to eight bytes as an unsigned number.
pub(crate) fn read_unsigned(bytes: &[u8], endianness: Endianness) -> (value: u64)
    requires
        bytes@.len() <= 8,
    ensures
        value == ordered_value(bytes@, endianness),
{
    let len = bytes.len();
    let mut value: u64 = 0;
    let mut taken: usize = 0;
    proof {
        lemma2_to64();
    }
    match endianness {
        Endianness::Little => {
            while taken < len
                invariant
                    taken <= len == bytes@.len() <= 8,
                    value == le_value(bytes@.subrange(len - taken, len as int)),
                decreases len - taken,
            {
                let at = len - taken - 1;
                proof {
                    let seen = bytes@.subrange(len - taken, len as int);
                    let next = bytes@.subrange(at as int, len as int);
                    assert(next.drop_first() =~= seen);
                    lemma_le_value_bound(seen);
                    lemma_radix_step(taken as nat);
                    crate::power::lemma_pow2_at_most(8 * (taken as nat + 1), 64);
                    vstd::arithmetic::power2::lemma2_to64_rest();
                }
                value = value * 256 + bytes[at] as u64;
                taken = taken + 1;
            }
            assert(bytes@.subrange(0, len as int) =~= bytes@);
        },
        Endianness::Big => {
            while taken < len
                invariant
                    taken <= len == bytes@.len() <= 8,
                    value == le_value(bytes@.subrange(0, taken as int).reverse()),
                decreases len - taken,
            {
                proof {
                    let seen = bytes@.subrange(0, taken as int).reverse();
                    let next = bytes@.subrange(0, taken + 1).reverse();
                    assert(next.drop_first() =~= seen);
                    lemma_le_value_bound(seen);
                    lemma_radix_step(taken as nat);
                    crate::power::lemma_pow2_at_most(8 * (taken as nat + 1), 64);
                    vstd::arithmetic::power2::lemma2_to64_rest();
                }
                value = value * 256 + bytes[taken] as u64;
                taken = taken + 1;
            }
            assert(bytes@.subrange(0, len as int) =~= bytes@);
        },
    }
    value
}

/// Writes the lowest `width` bytes of `value`.
pub(crate) fn write_unsigned(value: u64, width: usize, endianness: Endianness) -> (bytes: Vec<u8>)
    requires
        width <= 8,
    ensures
        bytes@ == ordered_bytes(value as nat, width as nat, endianness),
{
    let mut low_first: Vec<u8> = Vec::new();
    let mut rest: u64 = value;
    while low_first.len() < width
        invariant
            low_first@.len() <= width,
            le_bytes(value as nat, width as nat) == low_first@ + le_bytes(
                rest as nat,
                (width - low_first@.len()) as nat,
            ),
        decreases width - low_first@.len(),
    {
        proof {
            let left = (width - low_first@.len()) as nat;
            assert(low_first@.push((rest % 256) as u8) + le_bytes(
                (rest / 256) as nat,
                (left - 1) as nat,
            ) =~= low_first@ + le_bytes(rest as nat, left));
        }
        low_first.push((rest % 256) as u8);
        rest = rest / 256;
    }
    assert(low_first@ =~= le_bytes(value as nat, width as nat));
    match endianness {
        Endianness::Little => low_first,
        Endianness::Big => {
            let mut high_first: Vec<u8> = Vec::new();
            while high_first.len() < width
                invariant
                    low_first@.len() == width,
                    high_first@.len() <= width,
                    high_first@ == low_first@.reverse().subrange(0, high_first@.len() as int),
                decreases width - high_first@.len(),
            {
                let done = high_first.len();
                high_first.push(low_first[width - 1 - done]);
                assert(high_first@ =~= low_first@.reverse().subrange(0, done + 1));
            }
            assert(high_first@ =~= low_first@.reverse());
            high_first
        },
    }
}

} // verus!
