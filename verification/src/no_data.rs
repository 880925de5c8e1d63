//! The no-data sentinel: an optional sample that marks missing data, stored
//! as a one-byte discriminator and a fixed field of eight bytes.
//!
//! A present value occupies as many bytes of the field as its kind is wide:
//! the first ones for little-endian tiles, the last ones for big-endian
//! tiles. Every other byte of the field is zero.

use vstd::prelude::*;
use crate::error::{failure, outcome, Failure, TileError, TileErrorCode};
use crate::text::{decimal_text, push_decimal};
use crate::binary64::{finite64, is_finite};
use crate::model::{DType, Endianness};
use crate::binary64::same_number64;
use crate::numeric::{
    decoded_value, encoded_value, lemma_encoded_value_spells, lemma_value_round_trip,
    read_numeric_value, restored_sample, write_numeric_value,
};
use crate::binary32::representable32;

verus! {

/// Width in bytes of the no-data field.
pub const NO_DATA_FIELD_LENGTH: usize = 8;

/// `count` zero bytes.
pub open spec fn zeros(count: nat) -> Seq<u8> {
    Seq::new(count, |i: int| 0u8)
}

/// Every byte is zero.
pub open spec fn all_zero(bytes: Seq<u8>) -> bool {
    forall|i: int| 0 <= i < bytes.len() ==> bytes[i] == 0
}

/// The field that holds the encoded sample `bytes`.
pub open spec fn padded_field(bytes: Seq<u8>, endianness: Endianness) -> Seq<u8> {
    match endianness {
        Endianness::Little => bytes + zeros((NO_DATA_FIELD_LENGTH - bytes.len()) as nat),
        Endianness::Big => zeros((NO_DATA_FIELD_LENGTH - bytes.len()) as nat) + bytes,
    }
}

/// The bytes of the field that a sample of `width` bytes occupies.
pub open spec fn occupied_span(field: Seq<u8>, width: nat, endianness: Endianness) -> Seq<u8> {
    match endianness {
        Endianness::Little => field.subrange(0, width as int),
        Endianness::Big => field.subrange(
            NO_DATA_FIELD_LENGTH - width,
            NO_DATA_FIELD_LENGTH as int,
        ),
    }
}

/// The bytes of the field that a sample of `width` bytes leaves unused.
pub open spec fn padding_span(field: Seq<u8>, width: nat, endianness: Endianness) -> Seq<u8> {
    match endianness {
        Endianness::Little => field.subrange(width as int, NO_DATA_FIELD_LENGTH as int),
        Endianness::Big => field.subrange(0, NO_DATA_FIELD_LENGTH - width),
    }
}

/// The discriminator and the field stored for an optional no-data value. An
/// absent value is discriminator 0 over a zero field. A present value must be
/// finite, and one that its kind stores.
pub open spec fn no_data_field(
    no_data: Option<u64>,
    dtype: DType,
    endianness: Endianness,
) -> Result<(u8, Seq<u8>), Failure> {
    match no_data {
        None => Ok((0u8, zeros(NO_DATA_FIELD_LENGTH as nat))),
        Some(bits) => if !finite64(bits) {
            Err(
                failure(
                    TileErrorCode::InvalidFieldValue,
                    "no_data must be finite number or null."@,
                ),
            )
        } else {
            match encoded_value(dtype, endianness, bits, false) {
                Ok(bytes) => Ok((1u8, padded_field(bytes, endianness))),
                Err(refusal) => Err(refusal),
            }
        },
    }
}

/// The optional no-data value that a discriminator and a field of eight bytes
/// stand for, or the failure: an invalid field value for a discriminator
/// other than 0 and 1, for a field that is not zero where nothing occupies
/// it, and for a value that is not finite.
pub open spec fn no_data_value(
    kind: u8,
    field: Seq<u8>,
    dtype: DType,
    endianness: Endianness,
) -> Result<Option<u64>, Failure> {
    if kind == 0 {
        if all_zero(field) {
            Ok(None)
        } else {
            Err(
                failure(
                    TileErrorCode::InvalidFieldValue,
                    "no_data_value must be zero when no_data_kind=0."@,
                ),
            )
        }
    } else if kind != 1 {
        Err(
            failure(
                TileErrorCode::InvalidFieldValue,
                "Unsupported no_data kind "@ + decimal_text(kind as nat) + "."@,
            ),
        )
    } else if !all_zero(padding_span(field, dtype.width(), endianness)) {
        Err(
            failure(
                TileErrorCode::InvalidFieldValue,
                "no_data_value must pad most significant bytes with 0."@,
            ),
        )
    } else {
        match decoded_value(dtype, endianness, occupied_span(field, dtype.width(), endianness)) {
            Ok(bits) => if finite64(bits) {
                Ok(Some(bits))
            } else {
                Err(
                    failure(
                        TileErrorCode::InvalidFieldValue,
                        "no_data numeric value must be finite."@,
                    ),
                )
            },
            Err(refusal) => Err(refusal),
        }
    }
}

/// What `encode_no_data_field` yields, with the field as a sequence.
pub open spec fn field_outcome(result: Result<(u8, [u8; 8]), TileError>) -> Result<
    (u8, Seq<u8>),
    Failure,
> {
    match result {
        Ok(pair) => Ok((pair.0, pair.1@)),
        Err(error) => Err(error@),
    }
}

/// Encodes an optional no-data value into its discriminator and field.
pub fn encode_no_data_field(no_data: Option<u64>, dtype: DType, endianness: Endianness) -> (result:
    Result<(u8, [u8; 8]), TileError>)
    ensures
        field_outcome(result) == no_data_field(no_data, dtype, endianness),
{
    let mut out: [u8; 8] = [0u8; 8];
    let value: u64 = match no_data {
        None => {
            assert(out@ =~= zeros(NO_DATA_FIELD_LENGTH as nat));
            return Ok((0, out));
        },
        Some(value) => value,
    };
    if !is_finite(value) {
        return Err(
            TileError::new(
                TileErrorCode::InvalidFieldValue,
                "no_data must be finite number or null.",
            ),
        );
    }
    let encoded: Vec<u8> = match write_numeric_value(dtype, endianness, value, false) {
        Ok(encoded) => encoded,
        Err(error) => { return Err(error); },
    };
    let width: usize = dtype.byte_size();
    proof {
        crate::byteorder::lemma_ordered_bytes_len(
            crate::numeric::stored_number(dtype, value, false).unwrap(),
            dtype.width(),
            endianness,
        );
    }
    let start: usize = match endianness {
        Endianness::Little => 0,
        Endianness::Big => NO_DATA_FIELD_LENGTH - width,
    };
    let mut copied: usize = 0;
    while copied < width
        invariant
            copied <= width == encoded@.len() <= 8,
            start + width <= 8,
            out@.len() == 8,
            forall|i: int| 0 <= i < start ==> out@[i] == 0,
            forall|i: int| start <= i < start + copied ==> out@[i] == encoded@[i - start],
            forall|i: int| start + copied <= i < 8 ==> out@[i] == 0,
        decreases width - copied,
    {
        out[start + copied] = encoded[copied];
        copied = copied + 1;
    }
    assert(out@ =~= padded_field(encoded@, endianness));
    Ok((1, out))
}

/// Whether the bytes of `field` from `from` up to `to` are all zero.
fn zero_between(field: &[u8; 8], from: usize, to: usize) -> (zero: bool)
    requires
        from <= to <= 8,
    ensures
        zero == all_zero(field@.subrange(from as int, to as int)),
{
    let mut at: usize = from;
    while at < to
        invariant
            from <= at <= to <= 8,
            forall|i: int| from <= i < at ==> field@[i] == 0,
        decreases to - at,
    {
        if field[at] != 0 {
            assert(field@.subrange(from as int, to as int)[at - from] != 0);
            return false;
        }
        at = at + 1;
    }
    true
}

/// Decodes a discriminator and a field into the optional no-data value.
pub fn decode_no_data_field(
    kind: u8,
    no_data_value_raw: [u8; 8],
    dtype: DType,
    endianness: Endianness,
) -> (result: Result<Option<u64>, TileError>)
    ensures
        outcome(result) == no_data_value(kind, no_data_value_raw@, dtype, endianness),
{
    if kind == 0 {
        assert(no_data_value_raw@.subrange(0, 8) =~= no_data_value_raw@);
        if !zero_between(&no_data_value_raw, 0, NO_DATA_FIELD_LENGTH) {
            return Err(
                TileError::new(
                    TileErrorCode::InvalidFieldValue,
                    "no_data_value must be zero when no_data_kind=0.",
                ),
            );
        }
        return Ok(None);
    }
    if kind != 1 {
        let mut message: String = "Unsupported no_data kind ".to_owned();
        push_decimal(&mut message, kind as u64);
        message.append(".");
        return Err(TileError { code: TileErrorCode::InvalidFieldValue, message });
    }
    let width: usize = dtype.byte_size();
    let start: usize = match endianness {
        Endianness::Little => 0,
        Endianness::Big => NO_DATA_FIELD_LENGTH - width,
    };
    let padding_is_zero: bool = match endianness {
        Endianness::Little => zero_between(&no_data_value_raw, width, NO_DATA_FIELD_LENGTH),
        Endianness::Big => zero_between(&no_data_value_raw, 0, NO_DATA_FIELD_LENGTH - width),
    };
    if !padding_is_zero {
        return Err(
            TileError::new(
                TileErrorCode::InvalidFieldValue,
                "no_data_value must pad most significant bytes with 0.",
            ),
        );
    }
    let mut value_bytes: Vec<u8> = Vec::with_capacity(width);
    while value_bytes.len() < width
        invariant
            start + width <= 8,
            value_bytes@.len() <= width,
            value_bytes@ == no_data_value_raw@.subrange(
                start as int,
                start + value_bytes@.len(),
            ),
        decreases width - value_bytes@.len(),
    {
        let taken: usize = value_bytes.len();
        value_bytes.push(no_data_value_raw[start + taken]);
        assert(value_bytes@ =~= no_data_value_raw@.subrange(start as int, start + taken + 1));
    }
    let value: u64 = match read_numeric_value(dtype, endianness, value_bytes.as_slice()) {
        Ok(value) => value,
        Err(error) => { return Err(error); },
    };
    if !is_finite(value) {
        return Err(
            TileError::new(
                TileErrorCode::InvalidFieldValue,
                "no_data numeric value must be finite.",
            ),
        );
    }
    Ok(Some(value))
}

/// What an optional no-data value comes back as once it was stored and read
/// again.
pub open spec fn restored_no_data(no_data: Option<u64>, dtype: DType) -> Option<u64> {
    match no_data {
        None => None,
        Some(bits) => Some(restored_sample(dtype, bits)),
    }
}

/// Two optional no-data values stand for the same: both are absent, or both
/// are present and the same number.
pub open spec fn same_no_data(left: Option<u64>, right: Option<u64>) -> bool {
    match (left, right) {
        (None, None) => true,
        (Some(a), Some(b)) => same_number64(a, b),
        _ => false,
    }
}

/// A no-data value that was stored is read back: an absent one as absent, a
/// present one as the same number for an integer kind, as the same pattern
/// for `Float64`, and for `Float32` as the nearest binary32 number, which is
/// the same pattern where binary32 holds the value exactly.
pub proof fn lemma_no_data_round_trip(no_data: Option<u64>, dtype: DType, endianness: Endianness)
    requires
        no_data_field(no_data, dtype, endianness) is Ok,
    ensures
        ({
            let stored = no_data_field(no_data, dtype, endianness)->Ok_0;
            no_data_value(stored.0, stored.1, dtype, endianness) == Ok::<Option<u64>, Failure>(
                restored_no_data(no_data, dtype),
            )
        }),
        no_data_field(no_data, dtype, endianness)->Ok_0.1.len() == NO_DATA_FIELD_LENGTH,
        no_data is None ==> restored_no_data(no_data, dtype) is None,
        dtype.is_integer() || dtype == DType::Float64 ==> same_no_data(
            restored_no_data(no_data, dtype),
            no_data,
        ),
        dtype == DType::Float64 ==> restored_no_data(no_data, dtype) == no_data,
        no_data matches Some(bits) && dtype == DType::Float32 && representable32(bits)
            ==> restored_no_data(no_data, dtype) == no_data,
{
    match no_data {
        None => {},
        Some(bits) => {
            lemma_encoded_value_spells(dtype, endianness, bits, false);
            lemma_value_round_trip(dtype, endianness, bits, false);
            let bytes = encoded_value(dtype, endianness, bits, false)->Ok_0;
            let field = padded_field(bytes, endianness);
            assert(occupied_span(field, dtype.width(), endianness) =~= bytes);
            assert(all_zero(padding_span(field, dtype.width(), endianness)));
        },
    }
}

} // verus!
