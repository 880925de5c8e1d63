//! The bulk conversion between samples and the flat payload bytes of a tile.
//!
//! Samples are given and returned as binary64 patterns. Each is stored in as
//! many bytes as its kind is wide, one after the other.

use vstd::prelude::*;
use vstd::arithmetic::div_mod::{lemma_div_by_multiple, lemma_mod_multiples_basic};
use crate::binary32::representable32;
use crate::binary64::{nan64, same_number64};
use crate::byteorder::ordered_value;
use crate::error::{bytes_outcome, failure, Failure, TileError, TileErrorCode};
use crate::model::{DType, Endianness};
use crate::numeric::{
    encoded_value, lemma_encoded_value_spells, lemma_value_round_trip, read_numeric_value,
    restored_sample, sample_of_stored, write_numeric_value,
};
use crate::text::{decimal_text, push_decimal};

verus! {

/// The bytes stored for a sequence of samples, one after the other, or the
/// refusal of the first sample that cannot be stored. A NaN is accepted by
/// the float kinds.
pub open spec fn encoded_values(dtype: DType, endianness: Endianness, values: Seq<u64>) -> Result<
    Seq<u8>,
    Failure,
>
    decreases values.len(),
{
    if values.len() == 0 {
        Ok(Seq::empty())
    } else {
        match encoded_values(dtype, endianness, values.drop_last()) {
            Err(refusal) => Err(refusal),
            Ok(head) => match encoded_value(dtype, endianness, values.last(), true) {
                Err(refusal) => Err(refusal),
                Ok(bytes) => Ok(head + bytes),
            },
        }
    }
}

/// The sample that the `index`-th chunk of `payload` stores.
pub open spec fn sample_at(
    dtype: DType,
    endianness: Endianness,
    payload: Seq<u8>,
    index: int,
) -> u64 {
    sample_of_stored(
        dtype,
        ordered_value(
            payload.subrange(index * dtype.width(), index * dtype.width() + dtype.width()),
            endianness,
        ),
    )
}

/// The samples that `payload` stores, or the failure where its length is no
/// multiple of the kind's width.
pub open spec fn decoded_values(dtype: DType, endianness: Endianness, payload: Seq<u8>) -> Result<
    Seq<u64>,
    Failure,
> {
    if payload.len() % dtype.width() != 0 {
        Err(
            failure(
                TileErrorCode::InvalidPayloadLength,
                "Payload byte length "@ + decimal_text(payload.len()) + " is not divisible by "@
                    + decimal_text(dtype.width()),
            ),
        )
    } else {
        Ok(
            Seq::new(
                payload.len() / dtype.width(),
                |index: int| sample_at(dtype, endianness, payload, index),
            ),
        )
    }
}

/// What an operation that gives samples yields, with the samples as a
/// sequence.
pub open spec fn values_outcome(result: Result<Vec<u64>, TileError>) -> Result<
    Seq<u64>,
    Failure,
> {
    match result {
        Ok(values) => Ok(values@),
        Err(error) => Err(error@),
    }
}

/// Encodes samples, given as binary64 patterns, into payload bytes.
pub fn encode_payload_values(dtype: DType, endianness: Endianness, values: &[u64]) -> (result:
    Result<Vec<u8>, TileError>)
    ensures
        bytes_outcome(result) == encoded_values(dtype, endianness, values@),
{
    let mut out: Vec<u8> = Vec::new();
    let mut index: usize = 0;
    while index < values.len()
        invariant
            index <= values@.len(),
            encoded_values(dtype, endianness, values@.subrange(0, index as int)) == Ok::<
                Seq<u8>,
                Failure,
            >(out@),
        decreases values@.len() - index,
    {
        let ghost head = values@.subrange(0, index as int);
        let ghost next = values@.subrange(0, index + 1);
        assert(next.drop_last() =~= head);
        match write_numeric_value(dtype, endianness, values[index], true) {
            Ok(mut bytes) => {
                out.append(&mut bytes);
            },
            Err(error) => {
                proof {
                    lemma_encoded_values_fail(dtype, endianness, values@, index as int);
                }
                return Err(error);
            },
        }
        index = index + 1;
    }
    assert(values@.subrange(0, index as int) =~= values@);
    Ok(out)
}

/// Decodes payload bytes into samples, given as binary64 patterns.
pub fn decode_payload_values(dtype: DType, endianness: Endianness, payload: &[u8]) -> (result:
    Result<Vec<u64>, TileError>)
    ensures
        values_outcome(result) == decoded_values(dtype, endianness, payload@),
{
    let width: usize = dtype.byte_size();
    if payload.len() % width != 0 {
        let mut message: String = "Payload byte length ".to_owned();
        push_decimal(&mut message, payload.len() as u64);
        message.append(" is not divisible by ");
        push_decimal(&mut message, width as u64);
        return Err(TileError { code: TileErrorCode::InvalidPayloadLength, message });
    }
    let count: usize = payload.len() / width;
    let mut values: Vec<u64> = Vec::with_capacity(count);
    let mut start: usize = 0;
    while values.len() < count
        invariant
            width == dtype.width(),
            payload@.len() <= usize::MAX,
            count == payload@.len() as int / width as int,
            payload@.len() as int % width as int == 0,
            values@.len() <= count,
            start == values@.len() * width,
            forall|i: int|
                0 <= i < values@.len() ==> values@[i] == sample_at(dtype, endianness, payload@, i),
        decreases count - values@.len(),
    {
        let ghost done = values@.len() as int;
        proof {
            assert(payload@.len() == count * width) by (nonlinear_arith)
                requires
                    count == payload@.len() as int / width as int,
                    payload@.len() as int % width as int == 0,
                    width > 0,
            ;
            assert((done + 1) * width <= count * width) by (nonlinear_arith)
                requires
                    done + 1 <= count,
                    width > 0,
            ;
            assert((done + 1) * width == done * width + width) by (nonlinear_arith);
        }
        let chunk: &[u8] = &payload[start..start + width];
        let value: u64 = match read_numeric_value(dtype, endianness, chunk) {
            Ok(value) => value,
            Err(error) => { return Err(error); },
        };
        values.push(value);
        start = start + width;
    }
    assert(values@ =~= decoded_values(dtype, endianness, payload@)->Ok_0);
    Ok(values)
}

/// Storing a sequence fails with the refusal of its first sample that cannot
/// be stored.
pub proof fn lemma_encoded_values_fail(
    dtype: DType,
    endianness: Endianness,
    values: Seq<u64>,
    index: int,
)
    requires
        0 <= index < values.len(),
        encoded_values(dtype, endianness, values.subrange(0, index)) is Ok,
        encoded_value(dtype, endianness, values[index], true) is Err,
    ensures
        encoded_values(dtype, endianness, values) == Err::<Seq<u8>, Failure>(
            encoded_value(dtype, endianness, values[index], true)->Err_0,
        ),
    decreases values.len(),
{
    let front = values.drop_last();
    if index < values.len() - 1 {
        assert(front.subrange(0, index) =~= values.subrange(0, index));
        lemma_encoded_values_fail(dtype, endianness, front, index);
    } else {
        assert(front =~= values.subrange(0, index));
    }
}

/// Where a sequence of samples can be stored, so can each of its prefixes.
pub proof fn lemma_encoded_values_prefix(
    dtype: DType,
    endianness: Endianness,
    values: Seq<u64>,
    count: int,
)
    requires
        encoded_values(dtype, endianness, values) is Ok,
        0 <= count <= values.len(),
    ensures
        encoded_values(dtype, endianness, values.subrange(0, count)) is Ok,
    decreases values.len(),
{
    if count < values.len() {
        let front = values.drop_last();
        lemma_encoded_values_prefix(dtype, endianness, front, count);
        assert(front.subrange(0, count) =~= values.subrange(0, count));
    } else {
        assert(values.subrange(0, count) =~= values);
    }
}

/// Where a sequence of samples can be stored, each of them can.
pub proof fn lemma_encoded_values_each(
    dtype: DType,
    endianness: Endianness,
    values: Seq<u64>,
    index: int,
)
    requires
        encoded_values(dtype, endianness, values) is Ok,
        0 <= index < values.len(),
    ensures
        encoded_value(dtype, endianness, values[index], true) is Ok,
{
    if encoded_value(dtype, endianness, values[index], true) is Err {
        lemma_encoded_values_prefix(dtype, endianness, values, index);
        lemma_encoded_values_fail(dtype, endianness, values, index);
    }
}

/// The bytes stored for a sequence of samples are as many as the samples
/// times the width of their kind.
pub proof fn lemma_encoded_values_len(dtype: DType, endianness: Endianness, values: Seq<u64>)
    requires
        encoded_values(dtype, endianness, values) is Ok,
    ensures
        encoded_values(dtype, endianness, values)->Ok_0.len() == values.len() * dtype.width(),
    decreases values.len(),
{
    if values.len() > 0 {
        lemma_encoded_values_len(dtype, endianness, values.drop_last());
        lemma_encoded_value_spells(dtype, endianness, values.last(), true);
        let head = values.drop_last().len();
        assert((head + 1) * dtype.width() == head * dtype.width() + dtype.width())
            by (nonlinear_arith);
    } else {
        assert(values.len() * dtype.width() == 0) by (nonlinear_arith)
            requires
                values.len() == 0,
        ;
    }
}

/// The bytes stored for a sequence that is not empty are those of all
/// samples but the last, and then those of the last.
pub proof fn lemma_encoded_values_split(dtype: DType, endianness: Endianness, values: Seq<u64>)
    requires
        encoded_values(dtype, endianness, values) is Ok,
        values.len() > 0,
    ensures
        encoded_values(dtype, endianness, values.drop_last()) is Ok,
        encoded_value(dtype, endianness, values.last(), true) is Ok,
        encoded_values(dtype, endianness, values)->Ok_0 == encoded_values(
            dtype,
            endianness,
            values.drop_last(),
        )->Ok_0 + encoded_value(dtype, endianness, values.last(), true)->Ok_0,
        encoded_values(dtype, endianness, values.drop_last())->Ok_0.len() == (values.len() - 1)
            * dtype.width(),
        encoded_value(dtype, endianness, values.last(), true)->Ok_0.len() == dtype.width(),
{
    lemma_encoded_values_len(dtype, endianness, values.drop_last());
    lemma_encoded_value_spells(dtype, endianness, values.last(), true);
}

/// The chunk at `index` of two byte sequences joined, the first of which is
/// `count` chunks long.
proof fn lemma_chunk_of_joined(head: Seq<u8>, tail: Seq<u8>, width: nat, count: nat, index: int)
    requires
        width > 0,
        head.len() == count * width,
        tail.len() == width,
        0 <= index <= count,
    ensures
        index < count ==> 0 <= index * width && index * width + width <= head.len() && (head
            + tail).subrange(index * width, index * width + width) == head.subrange(
            index * width,
            index * width + width,
        ),
        index == count ==> (head + tail).subrange(index * width, index * width + width) == tail,
{
    assert((index + 1) * width == index * width + width) by (nonlinear_arith);
    assert(0 <= index * width) by (nonlinear_arith)
        requires
            0 <= index,
    ;
    if index < count {
        assert((index + 1) * width <= count * width) by (nonlinear_arith)
            requires
                index + 1 <= count,
        ;
        assert((head + tail).subrange(index * width, index * width + width) =~= head.subrange(
            index * width,
            index * width + width,
        ));
    } else {
        assert((head + tail).subrange(index * width, index * width + width) =~= tail);
    }
}

/// The chunk stored for the sample at `index` is read back as that sample
/// restored.
pub proof fn lemma_sample_of_encoded(
    dtype: DType,
    endianness: Endianness,
    values: Seq<u64>,
    index: int,
)
    requires
        encoded_values(dtype, endianness, values) is Ok,
        0 <= index < values.len(),
    ensures
        sample_at(dtype, endianness, encoded_values(dtype, endianness, values)->Ok_0, index)
            == restored_sample(dtype, values[index]),
    decreases values.len(),
{
    let front = values.drop_last();
    let head = encoded_values(dtype, endianness, front)->Ok_0;
    let tail = encoded_value(dtype, endianness, values.last(), true)->Ok_0;
    lemma_encoded_values_split(dtype, endianness, values);
    lemma_chunk_of_joined(head, tail, dtype.width(), front.len(), index);
    if index < front.len() {
        lemma_sample_of_encoded(dtype, endianness, front, index);
    } else {
        lemma_value_round_trip(dtype, endianness, values.last(), true);
    }
}

/// Samples that were stored are read back, each as `restored_sample` says:
/// as many as were stored, an integer or a `Float64` sample as the same
/// number, and a `Float32` sample as the same pattern where binary32 holds
/// it exactly, else as the nearest binary32 number. A NaN comes back a NaN.
pub proof fn lemma_values_round_trip(dtype: DType, endianness: Endianness, values: Seq<u64>)
    requires
        encoded_values(dtype, endianness, values) is Ok,
    ensures
        decoded_values(
            dtype,
            endianness,
            encoded_values(dtype, endianness, values)->Ok_0,
        ) == Ok::<Seq<u64>, Failure>(
            Seq::new(values.len(), |i: int| restored_sample(dtype, values[i])),
        ),
        forall|i: int|
            0 <= i < values.len() && !nan64(values[i]) && (dtype == DType::Float32
                ==> representable32(values[i])) ==> same_number64(
                #[trigger] restored_sample(dtype, values[i]),
                values[i],
            ),
        forall|i: int|
            0 <= i < values.len() && nan64(values[i]) ==> nan64(
                #[trigger] restored_sample(dtype, values[i]),
            ),
{
    let width = dtype.width();
    let payload = encoded_values(dtype, endianness, values)->Ok_0;
    let expected = Seq::new(values.len(), |i: int| restored_sample(dtype, values[i]));
    lemma_encoded_values_len(dtype, endianness, values);
    let count = values.len();
    assert(width > 0);
    assert((count * width) % width == 0 && (count * width) / width == count) by {
        lemma_mod_multiples_basic(count as int, width as int);
        lemma_div_by_multiple(count as int, width as int);
    }
    let back = decoded_values(dtype, endianness, payload)->Ok_0;
    assert forall|i: int| 0 <= i < count implies #[trigger] back[i] == expected[i] by {
        lemma_sample_of_encoded(dtype, endianness, values, i);
    }
    assert(back =~= expected);
    assert forall|i: int|
        0 <= i < values.len() && !nan64(values[i]) && (dtype == DType::Float32
            ==> representable32(values[i])) implies same_number64(
        #[trigger] restored_sample(dtype, values[i]),
        values[i],
    ) by {
        lemma_encoded_values_each(dtype, endianness, values, i);
        lemma_value_round_trip(dtype, endianness, values[i], true);
    }
    assert forall|i: int| 0 <= i < values.len() && nan64(values[i]) implies nan64(
        #[trigger] restored_sample(dtype, values[i]),
    ) by {
        lemma_encoded_values_each(dtype, endianness, values, i);
        lemma_value_round_trip(dtype, endianness, values[i], true);
    }
}

} // verus!
