//! The numeric value codec: one sample between its binary64 pattern and the
//! fixed-width bytes that a tile stores for it.
//!
//! An integer kind stores a whole number of its range in two's complement.
//! `Float32` stores the nearest binary32 number, `Float64` the pattern
//! itself. Decoding widens every kind back to binary64, which is exact.

use vstd::prelude::*;
use vstd::arithmetic::power2::{lemma2_to64, lemma2_to64_rest, pow2};
use crate::byteorder::{
    lemma_ordered_bytes_len, lemma_ordered_value_bound, lemma_ordered_value_of_bytes,
    ordered_bytes, ordered_value, read_unsigned, write_unsigned,
};
use crate::binary32::{
    finite32, lemma_narrowed_nan, lemma_representable_round_trip, lemma_widened, narrow,
    narrowed, representable32, widen, widened, INFINITY32, SIGN32,
};
use crate::binary64::{
    bits_of_whole, finite64, is_finite, is_nan, is_negative, lemma_bits_of_whole,
    lemma_whole_round_trip, nan64, negative64, read_whole, same_number64, whole64, whole_bits,
    whole_reading, whole_value64, WholeReading,
};
use crate::error::{bytes_outcome, failure, outcome, Failure, TileError, TileErrorCode};
use crate::model::{DType, Endianness};
use crate::text::{decimal_text, hex_text, push_decimal, push_hex};

verus! {

/// The unsigned number that stores the integer `value` in `width` bytes of
/// two's complement.
pub open spec fn stored_integer(value: int, width: nat) -> nat {
    if value >= 0 {
        value as nat
    } else {
        (value + pow2(8 * width)) as nat
    }
}

/// The integer that the unsigned number `stored` stands for in an integer
/// kind: itself, or for a signed kind with the top bit set, the negative
/// number of two's complement.
pub open spec fn integer_of_stored(dtype: DType, stored: nat) -> int {
    if dtype.min_value() < 0 && 2 * stored >= pow2(8 * dtype.width()) {
        stored - pow2(8 * dtype.width())
    } else {
        stored as int
    }
}

/// Whether the integer kind `dtype` can store the number that `bits` stands
/// for: a whole number within the kind's range.
pub open spec fn integer_fits(dtype: DType, bits: u64) -> bool {
    whole64(bits) && dtype.min_value() <= whole_value64(bits) <= dtype.max_value()
}

/// The unsigned number whose bytes are stored for the sample `bits`, or
/// `None` where the kind cannot store it. A NaN is stored only by the float
/// kinds, and only where `allow_nan` is set; an infinity never is.
pub open spec fn stored_number(dtype: DType, bits: u64, allow_nan: bool) -> Option<nat> {
    match dtype {
        DType::Float64 => {
            if finite64(bits) || (allow_nan && nan64(bits)) {
                Some(bits as nat)
            } else {
                None
            }
        },
        DType::Float32 => {
            if (finite64(bits) && finite32(narrowed(bits))) || (allow_nan && nan64(bits)) {
                Some(narrowed(bits) as nat)
            } else {
                None
            }
        },
        _ => {
            if integer_fits(dtype, bits) {
                Some(stored_integer(whole_value64(bits), dtype.width()))
            } else {
                None
            }
        },
    }
}

/// A binary64 pattern as text: `0x` and sixteen hexadecimal digits.
pub open spec fn pattern_text(bits: u64) -> Seq<char> {
    "0x"@ + hex_text(bits as nat, 16)
}

/// The magnitude of an integer.
pub open spec fn magnitude_of(value: int) -> nat {
    if value < 0 {
        (-value) as nat
    } else {
        value as nat
    }
}

/// The largest magnitude up to which every integer is a binary64 number:
/// `2^53`.
pub const EXACT_INTEGER_LIMIT: u64 = 0x0020_0000_0000_0000;

/// How a message cites a sample: a whole number of magnitude up to `2^53`
/// in decimal, under a minus sign where the sign bit is set; an infinity as
/// `inf` or `-inf`; a NaN as `NaN`; and any other number as its pattern.
pub open spec fn sample_text(bits: u64) -> Seq<char> {
    match whole_reading(bits) {
        WholeReading::Whole(value) => if magnitude_of(value as int) > EXACT_INTEGER_LIMIT {
            pattern_text(bits)
        } else if negative64(bits) {
            "-"@ + decimal_text(magnitude_of(value as int))
        } else {
            decimal_text(magnitude_of(value as int))
        },
        WholeReading::NotFinite => if nan64(bits) {
            "NaN"@
        } else if negative64(bits) {
            "-inf"@
        } else {
            "inf"@
        },
        _ => pattern_text(bits),
    }
}

/// Why a number is not a whole number between `min` and `max`: it is not
/// finite, or not whole, or out of the range.
pub open spec fn integer_refusal(bits: u64) -> Failure {
    if !finite64(bits) {
        failure(TileErrorCode::InvalidFieldValue, "Non-finite value: "@ + sample_text(bits))
    } else if !whole64(bits) {
        failure(TileErrorCode::InvalidFieldValue, "Non-integer value: "@ + sample_text(bits))
    } else {
        failure(TileErrorCode::InvalidFieldValue, "Out-of-range value: "@ + sample_text(bits))
    }
}

/// Why a kind does not store a sample. Every such failure is an invalid
/// field value, and its message cites the sample.
pub open spec fn sample_refusal(dtype: DType, bits: u64) -> Failure {
    if dtype.is_integer() {
        integer_refusal(bits)
    } else if !finite64(bits) {
        failure(TileErrorCode::InvalidFieldValue, "Non-finite value: "@ + sample_text(bits))
    } else {
        failure(
            TileErrorCode::InvalidFieldValue,
            "Out-of-range value for float32: "@ + sample_text(bits),
        )
    }
}

/// The bytes stored for the sample `bits`, or the failure.
pub open spec fn encoded_value(
    dtype: DType,
    endianness: Endianness,
    bits: u64,
    allow_nan: bool,
) -> Result<Seq<u8>, Failure> {
    match stored_number(dtype, bits, allow_nan) {
        Some(stored) => Ok(ordered_bytes(stored, dtype.width(), endianness)),
        None => Err(sample_refusal(dtype, bits)),
    }
}

/// The sample that the unsigned number `stored` stands for.
pub open spec fn sample_of_stored(dtype: DType, stored: nat) -> u64 {
    match dtype {
        DType::Float64 => stored as u64,
        DType::Float32 => widened(stored as u32),
        _ => bits_of_whole(integer_of_stored(dtype, stored)),
    }
}

/// The sample that `bytes` store, or the failure where their number is not
/// the kind's width.
pub open spec fn decoded_value(dtype: DType, endianness: Endianness, bytes: Seq<u8>) -> Result<
    u64,
    Failure,
> {
    if bytes.len() != dtype.width() {
        Err(
            failure(
                TileErrorCode::InvalidPayloadLength,
                "Payload chunk size does not match dtype width."@,
            ),
        )
    } else {
        Ok(sample_of_stored(dtype, ordered_value(bytes, endianness)))
    }
}

/// What `validate_integer_range` yields.
pub open spec fn integer_in_range(bits: u64, min: i64, max: i64) -> Result<i64, Failure> {
    if whole64(bits) && min <= whole_value64(bits) <= max {
        Ok(whole_value64(bits) as i64)
    } else {
        Err(integer_refusal(bits))
    }
}

/// The failure of kind invalid field value whose message is `stem` and the
/// sample.
fn citing(stem: &str, bits: u64) -> (error: TileError)
    ensures
        error@ == failure(TileErrorCode::InvalidFieldValue, stem@ + sample_text(bits)),
{
    let mut message: String = stem.to_owned();
    let reading = read_whole(bits);
    let small: Option<u64> = match reading {
        WholeReading::Whole(value) => {
            if value > i64::MIN && value < 0 && (0 - value) as u64 <= EXACT_INTEGER_LIMIT {
                Some((0 - value) as u64)
            } else if value >= 0 && value as u64 <= EXACT_INTEGER_LIMIT {
                Some(value as u64)
            } else {
                None
            }
        },
        _ => None,
    };
    match small {
        Some(magnitude) => {
            if is_negative(bits) {
                message.append("-");
            }
            push_decimal(&mut message, magnitude);
        },
        None => {
            if !is_finite(bits) {
                if is_nan(bits) {
                    message.append("NaN");
                } else if is_negative(bits) {
                    message.append("-inf");
                } else {
                    message.append("inf");
                }
            } else {
                message.append("0x");
                push_hex(&mut message, bits, 16);
            }
        },
    }
    assert(message@ =~= stem@ + sample_text(bits));
    TileError { code: TileErrorCode::InvalidFieldValue, message }
}

/// Checks that `bits` is a whole number between `min` and `max`, and gives
/// the number.
pub fn validate_integer_range(bits: u64, min: i64, max: i64) -> (result: Result<i64, TileError>)
    ensures
        outcome(result) == integer_in_range(bits, min, max),
{
    match read_whole(bits) {
        WholeReading::NotFinite => Err(citing("Non-finite value: ", bits)),
        WholeReading::Fractional => Err(citing("Non-integer value: ", bits)),
        WholeReading::Beyond => Err(citing("Out-of-range value: ", bits)),
        WholeReading::Whole(value) => {
            if value < min || value > max {
                Err(citing("Out-of-range value: ", bits))
            } else {
                Ok(value)
            }
        },
    }
}

/// The range of an integer kind.
fn integer_limits(dtype: DType) -> (limits: (i64, i64))
    ensures
        limits.0 == dtype.min_value(),
        limits.1 == dtype.max_value(),
{
    match dtype {
        DType::Uint8 => (0, 0xff),
        DType::Int8 => (-0x80, 0x7f),
        DType::Uint16 => (0, 0xffff),
        DType::Int16 => (-0x8000, 0x7fff),
        DType::Uint32 => (0, 0xffff_ffff),
        DType::Int32 => (-0x8000_0000, 0x7fff_ffff),
        DType::Float32 | DType::Float64 => (0, 0),
    }
}

/// `2^(8 * width)` for the widths of the integer kinds.
fn radix(width: usize) -> (limit: i64)
    requires
        width == 1 || width == 2 || width == 4,
    ensures
        limit == pow2(8 * width as nat),
{
    proof {
        lemma2_to64();
    }
    if width == 1 {
        0x100
    } else if width == 2 {
        0x1_0000
    } else {
        0x1_0000_0000
    }
}

/// Encodes one sample into the bytes of its kind.
pub fn write_numeric_value(
    dtype: DType,
    endianness: Endianness,
    value: u64,
    allow_float_nan: bool,
) -> (result: Result<Vec<u8>, TileError>)
    ensures
        bytes_outcome(result) == encoded_value(dtype, endianness, value, allow_float_nan),
{
    let width = dtype.byte_size();
    match dtype {
        DType::Float64 => {
            if !(is_finite(value) || (allow_float_nan && is_nan(value))) {
                return Err(citing("Non-finite value: ", value));
            }
            Ok(write_unsigned(value, width, endianness))
        },
        DType::Float32 => {
            if !(is_finite(value) || (allow_float_nan && is_nan(value))) {
                return Err(citing("Non-finite value: ", value));
            }
            let slim: u32 = narrow(value);
            if is_finite(value) && slim % SIGN32 >= INFINITY32 {
                return Err(citing("Out-of-range value for float32: ", value));
            }
            Ok(write_unsigned(slim as u64, width, endianness))
        },
        _ => {
            let (min, max) = integer_limits(dtype);
            let whole: i64 = match validate_integer_range(value, min, max) {
                Ok(whole) => whole,
                Err(error) => { return Err(error); },
            };
            proof {
                lemma2_to64();
            }
            let stored: u64 = if whole >= 0 {
                whole as u64
            } else {
                (whole + radix(width)) as u64
            };
            Ok(write_unsigned(stored, width, endianness))
        },
    }
}

/// Decodes the bytes of one sample.
pub fn read_numeric_value(dtype: DType, endianness: Endianness, bytes: &[u8]) -> (result: Result<
    u64,
    TileError,
>)
    ensures
        outcome(result) == decoded_value(dtype, endianness, bytes@),
{
    let width = dtype.byte_size();
    if bytes.len() != width {
        return Err(
            TileError::new(
                TileErrorCode::InvalidPayloadLength,
                "Payload chunk size does not match dtype width.",
            ),
        );
    }
    let stored: u64 = read_unsigned(bytes, endianness);
    proof {
        lemma_ordered_value_bound(bytes@, endianness);
        lemma2_to64();
        lemma2_to64_rest();
    }
    match dtype {
        DType::Float64 => Ok(stored),
        DType::Float32 => Ok(widen(stored as u32)),
        _ => {
            let (min, _max) = integer_limits(dtype);
            let limit: i64 = radix(width);
            let whole: i64 = if min < 0 && 2 * stored >= limit as u64 {
                stored as i64 - limit
            } else {
                stored as i64
            };
            Ok(whole_bits(whole))
        },
    }
}

/// What a sample comes back as once it was stored and read again: itself for
/// `Float64`, the nearest binary32 number for `Float32`, and the pattern of
/// its value for an integer kind.
pub open spec fn restored_sample(dtype: DType, bits: u64) -> u64 {
    match dtype {
        DType::Float64 => bits,
        DType::Float32 => widened(narrowed(bits)),
        _ => bits_of_whole(whole_value64(bits)),
    }
}

/// The bytes stored for a sample are as many as its kind is wide, and spell
/// the stored number.
pub proof fn lemma_encoded_value_spells(
    dtype: DType,
    endianness: Endianness,
    bits: u64,
    allow_nan: bool,
)
    requires
        encoded_value(dtype, endianness, bits, allow_nan) is Ok,
    ensures
        stored_number(dtype, bits, allow_nan) is Some,
        encoded_value(dtype, endianness, bits, allow_nan)->Ok_0.len() == dtype.width(),
        ordered_value(encoded_value(dtype, endianness, bits, allow_nan)->Ok_0, endianness)
            == stored_number(dtype, bits, allow_nan)->Some_0,
        stored_number(dtype, bits, allow_nan)->Some_0 < pow2(8 * dtype.width()),
{
    lemma2_to64();
    lemma2_to64_rest();
    let stored = stored_number(dtype, bits, allow_nan)->Some_0;
    lemma_ordered_bytes_len(stored, dtype.width(), endianness);
    lemma_ordered_value_of_bytes(stored, dtype.width(), endianness);
}

/// A sample that its kind stores is read back as the same number: exactly so
/// for `Float64`, rounded to binary32 for `Float32`, and for an integer kind
/// as the pattern of its value, which negative zero alone does not have.
pub proof fn lemma_value_round_trip(
    dtype: DType,
    endianness: Endianness,
    bits: u64,
    allow_nan: bool,
)
    requires
        encoded_value(dtype, endianness, bits, allow_nan) is Ok,
    ensures
        decoded_value(
            dtype,
            endianness,
            encoded_value(dtype, endianness, bits, allow_nan)->Ok_0,
        ) == Ok::<u64, Failure>(restored_sample(dtype, bits)),
        finite64(bits) == finite64(restored_sample(dtype, bits)),
        nan64(bits) == nan64(restored_sample(dtype, bits)),
        dtype.is_integer() ==> same_number64(restored_sample(dtype, bits), bits),
        dtype == DType::Float32 && representable32(bits) ==> restored_sample(dtype, bits) == bits,
{
    lemma2_to64();
    lemma2_to64_rest();
    lemma_encoded_value_spells(dtype, endianness, bits, allow_nan);
    match dtype {
        DType::Float64 => {},
        DType::Float32 => {
            lemma_widened(narrowed(bits));
            if representable32(bits) {
                lemma_representable_round_trip(bits);
            }
            if nan64(bits) {
                lemma_narrowed_nan(bits);
            }
        },
        _ => {
            let value = whole_value64(bits);
            assert(integer_of_stored(dtype, stored_integer(value, dtype.width())) == value);
            lemma_whole_round_trip(bits);
            lemma_bits_of_whole(value);
        },
    }
}


} // verus!
