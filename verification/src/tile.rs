//! Whole tiles: encoding, decoding and header-only inspection.
//!
//! Encoding checks the request, stores the payload under the compression
//! mode, and puts the checksummed header in front. Decoding parses the
//! header, restores the payload and holds it against the header: its
//! declared length, its checksum, and the length that the grid implies.

use vstd::prelude::*;
use crate::binary32::representable32;
use crate::byteorder::write_unsigned;
use crate::checksum::{checksum_mismatch, crc32, crc32_of, mismatch_text};
use crate::compress::{
    compress_payload, compressed, compression_restores, decompress_payload, decompressed,
    stored_form, EncoderReport,
};
use crate::error::{bytes_outcome, failure, outcome, Failure, TileError, TileErrorCode};
use crate::header::{
    field_array, header_bytes, header_prefix, lemma_header_fields, lemma_header_round_trip, magic,
    parse_header, parsed, parsed_with, write_header_prefix, ParsedHeader, HEADER_CHECKSUM_OFFSET,
};
use crate::model::{
    expected_length, expected_payload_length, DType, DecodedTile, EncodedTile, Endianness,
    TileEncodeInput, TileHeader, TILE_FIXED_HEADER_LENGTH, TILE_VERSION_MAJOR,
};
use crate::no_data::{
    encode_no_data_field, lemma_no_data_round_trip, no_data_field, restored_no_data, same_no_data,
};
use crate::text::{decimal_text, push_decimal};
use crate::tile_id::{lemma_tile_id_checked, tile_id_checked, validate_tile_id_for_mesh_kind};

verus! {

/// What a length mismatch says: `stem`, the length that was expected and the
/// one that was found.
pub open spec fn length_mismatch_text(stem: Seq<char>, expected: nat, got: nat) -> Seq<char> {
    stem + " expected="@ + decimal_text(expected) + " got="@ + decimal_text(got)
}

/// The failure that reports a payload of the wrong length.
fn length_mismatch(stem: &str, expected: usize, got: usize) -> (error: TileError)
    ensures
        error@ == failure(
            TileErrorCode::InvalidPayloadLength,
            length_mismatch_text(stem@, expected as nat, got as nat),
        ),
{
    let mut message: String = stem.to_owned();
    message.append(" expected=");
    push_decimal(&mut message, expected as u64);
    message.append(" got=");
    push_decimal(&mut message, got as u64);
    TileError { code: TileErrorCode::InvalidPayloadLength, message }
}

/// The header that encoding writes for `input`, before its own checksum is
/// known: the input's fields, the stored no-data field, the two payload
/// lengths and the checksum of the uncompressed payload.
pub open spec fn unsealed_header(
    input: TileEncodeInput<'_>,
    no_data_kind: u8,
    no_data_value_raw: [u8; 8],
    payload_crc32: u32,
    stored_len: nat,
) -> TileHeader {
    TileHeader {
        format_major: TILE_VERSION_MAJOR,
        tile_id: input.tile_id,
        mesh_kind: input.mesh_kind,
        dtype: input.dtype,
        endianness: input.endianness,
        compression: input.compression,
        dimensions: input.dimensions,
        no_data_kind,
        no_data_value_raw,
        no_data: input.no_data,
        payload_uncompressed_bytes: input.payload@.len() as u64,
        payload_compressed_bytes: stored_len as u64,
        payload_crc32,
        header_crc32: 0,
    }
}

/// `header` with its checksum set to that of its first 54 bytes.
pub open spec fn sealed_header(header: TileHeader) -> TileHeader {
    TileHeader { header_crc32: crc32_of(header_prefix(header)), ..header }
}

/// What encoding checks of a request before it writes anything: the grid
/// extent, the identifier, and the payload length against the extent.
pub open spec fn input_checked(input: TileEncodeInput<'_>) -> Result<(), Failure> {
    match input.dimensions.validated() {
        Err(refusal) => Err(refusal),
        Ok(_) => match tile_id_checked(input.tile_id, input.mesh_kind) {
            Err(refusal) => Err(refusal),
            Ok(_) => match expected_length(input.dimensions, input.dtype) {
                Err(refusal) => Err(refusal),
                Ok(expected) => if input.payload@.len() != expected {
                    Err(
                        failure(
                            TileErrorCode::InvalidPayloadLength,
                            length_mismatch_text(
                                "Payload byte length mismatch."@,
                                expected as nat,
                                input.payload@.len(),
                            ),
                        ),
                    )
                } else {
                    Ok(())
                },
            },
        },
    }
}

/// The bytes and the header that encoding yields for `input`, or the
/// failure, where `report` stands for what the deflate encoder says of its
/// error, should it report one.
pub open spec fn encoded_tile(input: TileEncodeInput<'_>, report: EncoderReport) -> Result<
    (Seq<u8>, TileHeader),
    Failure,
> {
    match input_checked(input) {
        Err(refusal) => Err(refusal),
        Ok(_) => match compressed(input.compression, input.payload@, report) {
            Err(refusal) => Err(refusal),
            Ok(stored) => match no_data_field(input.no_data, input.dtype, input.endianness) {
                Err(refusal) => Err(refusal),
                Ok((kind, field)) => {
                    let header = sealed_header(
                        unsealed_header(
                            input,
                            kind,
                            field_array(field),
                            crc32_of(input.payload@),
                            stored.len(),
                        ),
                    );
                    Ok((header_bytes(header) + stored, header))
                },
            },
        },
    }
}

/// What `encode_tile` yields, with the bytes as a sequence.
pub open spec fn encode_outcome(result: Result<EncodedTile, TileError>) -> Result<
    (Seq<u8>, TileHeader),
    Failure,
> {
    match result {
        Ok(tile) => Ok((tile.bytes@, tile.header)),
        Err(error) => Err(error@),
    }
}

/// Checks a request before anything is written.
pub fn check_input(input: &TileEncodeInput<'_>) -> (result: Result<(), TileError>)
    ensures
        outcome(result) == input_checked(*input),
{
    match input.dimensions.validate() {
        Ok(()) => {},
        Err(error) => { return Err(error); },
    }
    match validate_tile_id_for_mesh_kind(input.tile_id, input.mesh_kind) {
        Ok(()) => {},
        Err(error) => { return Err(error); },
    }
    let expected_payload_len: usize = match expected_payload_length(
        input.dimensions,
        input.dtype,
    ) {
        Ok(expected) => expected,
        Err(error) => { return Err(error); },
    };
    if input.payload.len() != expected_payload_len {
        return Err(
            length_mismatch(
                "Payload byte length mismatch.",
                expected_payload_len,
                input.payload.len(),
            ),
        );
    }
    Ok(())
}

/// Joins the first 54 bytes of a header, the checksum computed over them and
/// the stored payload into a tile.
pub fn seal_tile(header: TileHeader, prefix: Vec<u8>, header_crc32: u32, stored: Vec<u8>) -> (tile:
    EncodedTile)
    requires
        prefix@ == header_prefix(header),
    ensures
        tile.header == (TileHeader { header_crc32, ..header }),
        tile.bytes@ == header_bytes(tile.header) + stored@,
{
    let mut bytes: Vec<u8> = prefix;
    let mut checksum: Vec<u8> = write_unsigned(header_crc32 as u64, 4, Endianness::Little);
    bytes.append(&mut checksum);
    let mut stored = stored;
    bytes.append(&mut stored);
    let sealed = TileHeader {
        format_major: header.format_major,
        tile_id: header.tile_id,
        mesh_kind: header.mesh_kind,
        dtype: header.dtype,
        endianness: header.endianness,
        compression: header.compression,
        dimensions: header.dimensions,
        no_data_kind: header.no_data_kind,
        no_data_value_raw: header.no_data_value_raw,
        no_data: header.no_data,
        payload_uncompressed_bytes: header.payload_uncompressed_bytes,
        payload_compressed_bytes: header.payload_compressed_bytes,
        payload_crc32: header.payload_crc32,
        header_crc32,
    };
    assert(header_prefix(sealed) == header_prefix(header));
    EncodedTile { bytes, header: sealed }
}

/// Encodes one tile: the checked header, then the stored payload. It fails
/// as `encoded_tile` says, where only what the deflate encoder says of its
/// error, the step and the words at the end of the message of a compression
/// failure, is left open.
pub fn encode_tile(input: TileEncodeInput<'_>) -> (result: Result<EncodedTile, TileError>)
    ensures
        exists|report: EncoderReport|
            encode_outcome(result) == #[trigger] encoded_tile(input, report),
{
    match check_input(&input) {
        Ok(()) => {},
        Err(error) => {
            assert(encode_outcome(Err(error)) == encoded_tile(
                input,
                EncoderReport::Write(Seq::empty()),
            ));
            return Err(error);
        },
    }
    let payload_crc32: u32 = crc32(input.payload);
    let stored_or_not = compress_payload(input.compression, input.payload);
    let ghost report: EncoderReport = choose|report: EncoderReport|
        bytes_outcome(stored_or_not) == #[trigger] compressed(
            input.compression,
            input.payload@,
            report,
        );
    let stored: Vec<u8> = match stored_or_not {
        Ok(stored) => stored,
        Err(error) => {
            assert(encode_outcome(Err(error)) == encoded_tile(input, report));
            return Err(error);
        },
    };
    let (no_data_kind, no_data_value_raw) = match encode_no_data_field(
        input.no_data,
        input.dtype,
        input.endianness,
    ) {
        Ok(pair) => pair,
        Err(error) => {
            assert(encode_outcome(Err(error)) == encoded_tile(input, report));
            return Err(error);
        },
    };
    let header = TileHeader {
        format_major: TILE_VERSION_MAJOR,
        tile_id: input.tile_id,
        mesh_kind: input.mesh_kind,
        dtype: input.dtype,
        endianness: input.endianness,
        compression: input.compression,
        dimensions: input.dimensions,
        no_data_kind,
        no_data_value_raw,
        no_data: input.no_data,
        payload_uncompressed_bytes: input.payload.len() as u64,
        payload_compressed_bytes: stored.len() as u64,
        payload_crc32,
        header_crc32: 0,
    };
    proof {
        let field = no_data_field(input.no_data, input.dtype, input.endianness)->Ok_0.1;
        assert(no_data_value_raw =~= field_array(field));
    }
    let prefix: Vec<u8> = write_header_prefix(&header);
    let header_crc32: u32 = crc32(prefix.as_slice());
    let tile = seal_tile(header, prefix, header_crc32, stored);
    assert(encode_outcome(Ok(tile)) == encoded_tile(input, report));
    Ok(tile)
}

/// The header that inspection yields for `bytes`, or the failure.
pub open spec fn inspected(bytes: Seq<u8>) -> Result<TileHeader, Failure> {
    match parsed(bytes) {
        Ok(found) => Ok(found.header),
        Err(refusal) => Err(refusal),
    }
}

/// Reads and validates the header of a tile, and leaves the payload alone.
pub fn inspect_tile(bytes: &[u8]) -> (result: Result<TileHeader, TileError>)
    ensures
        outcome(result) == inspected(bytes@),
{
    match parse_header(bytes) {
        Ok(found) => Ok(found.header),
        Err(error) => Err(error),
    }
}

/// What decoding yields once the header is parsed and the payload is
/// decompressed, given the checksum computed over the payload: the payload
/// must have the length that the header declares, the checksum that the
/// header stores, and the length that the grid extent implies.
pub open spec fn payload_checked(
    found: ParsedHeader,
    payload: Seq<u8>,
    computed_crc32: u32,
) -> Result<(TileHeader, Seq<u8>), Failure> {
    if payload.len() != found.uncompressed_payload_len {
        Err(
            failure(
                TileErrorCode::InvalidPayloadLength,
                length_mismatch_text(
                    "Uncompressed payload length mismatch."@,
                    found.uncompressed_payload_len as nat,
                    payload.len(),
                ),
            ),
        )
    } else if computed_crc32 != found.header.payload_crc32 {
        Err(
            failure(
                TileErrorCode::PayloadChecksumMismatch,
                mismatch_text(
                    "Payload checksum mismatch."@,
                    found.header.payload_crc32,
                    computed_crc32,
                ),
            ),
        )
    } else {
        match expected_length(found.header.dimensions, found.header.dtype) {
            Err(refusal) => Err(refusal),
            Ok(expected) => if payload.len() != expected {
                Err(
                    failure(
                        TileErrorCode::InvalidPayloadLength,
                        length_mismatch_text(
                            "Decoded payload length mismatch."@,
                            expected as nat,
                            payload.len(),
                        ),
                    ),
                )
            } else {
                Ok((found.header, payload))
            },
        }
    }
}

/// The stored payload of a tile whose header was parsed.
pub open spec fn stored_payload(bytes: Seq<u8>, found: ParsedHeader) -> Seq<u8> {
    bytes.subrange(
        TILE_FIXED_HEADER_LENGTH as int,
        TILE_FIXED_HEADER_LENGTH + found.compressed_payload_len,
    )
}

/// The header and the payload that decoding yields for `bytes`, or the
/// failure, where `detail` stands for what the deflate decoder says of its
/// error, should it report one.
pub open spec fn decoded_tile(bytes: Seq<u8>, detail: Seq<char>) -> Result<
    (TileHeader, Seq<u8>),
    Failure,
> {
    match parsed(bytes) {
        Err(refusal) => Err(refusal),
        Ok(found) => match decompressed(
            found.header.compression,
            stored_payload(bytes, found),
            detail,
        ) {
            Err(refusal) => Err(refusal),
            Ok(payload) => payload_checked(found, payload, crc32_of(payload)),
        },
    }
}

/// What `decode_tile_minimal` yields, with the payload as a sequence.
pub open spec fn decode_outcome(result: Result<DecodedTile, TileError>) -> Result<
    (TileHeader, Seq<u8>),
    Failure,
> {
    match result {
        Ok(tile) => Ok((tile.header, tile.payload@)),
        Err(error) => Err(error@),
    }
}

/// Checks a decompressed payload against its parsed header, given the
/// checksum computed over the payload.
pub fn check_payload(found: ParsedHeader, payload: Vec<u8>, computed_crc32: u32) -> (result: Result<
    DecodedTile,
    TileError,
>)
    ensures
        decode_outcome(result) == payload_checked(found, payload@, computed_crc32),
{
    if payload.len() != found.uncompressed_payload_len {
        return Err(
            length_mismatch(
                "Uncompressed payload length mismatch.",
                found.uncompressed_payload_len,
                payload.len(),
            ),
        );
    }
    if computed_crc32 != found.header.payload_crc32 {
        return Err(
            checksum_mismatch(
                TileErrorCode::PayloadChecksumMismatch,
                "Payload checksum mismatch.",
                found.header.payload_crc32,
                computed_crc32,
            ),
        );
    }
    let expected_uncompressed_len: usize = match expected_payload_length(
        found.header.dimensions,
        found.header.dtype,
    ) {
        Ok(expected) => expected,
        Err(error) => { return Err(error); },
    };
    if payload.len() != expected_uncompressed_len {
        return Err(
            length_mismatch(
                "Decoded payload length mismatch.",
                expected_uncompressed_len,
                payload.len(),
            ),
        );
    }
    Ok(DecodedTile { header: found.header, payload })
}

/// Decodes one tile: its header, and its payload decompressed and checked.
/// It fails as `decoded_tile` says, where only the end of the message of a
/// decompression failure, the deflate decoder's own words, is left open.
pub fn decode_tile_minimal(bytes: &[u8]) -> (result: Result<DecodedTile, TileError>)
    ensures
        exists|detail: Seq<char>| decode_outcome(result) == #[trigger] decoded_tile(bytes@, detail),
{
    let found: ParsedHeader = match parse_header(bytes) {
        Ok(found) => found,
        Err(error) => {
            assert(decode_outcome(Err(error)) == decoded_tile(bytes@, Seq::empty()));
            return Err(error);
        },
    };
    let available: usize = bytes.len();
    assert(TILE_FIXED_HEADER_LENGTH + found.compressed_payload_len <= available);
    let payload_end: usize = TILE_FIXED_HEADER_LENGTH + found.compressed_payload_len;
    let stored: &[u8] = &bytes[TILE_FIXED_HEADER_LENGTH..payload_end];
    let payload_or_not = decompress_payload(found.header.compression, stored);
    let ghost detail: Seq<char> = choose|detail: Seq<char>|
        bytes_outcome(payload_or_not) == #[trigger] decompressed(
            found.header.compression,
            stored@,
            detail,
        );
    let payload: Vec<u8> = match payload_or_not {
        Ok(payload) => payload,
        Err(error) => {
            assert(decode_outcome(Err(error)) == decoded_tile(bytes@, detail));
            return Err(error);
        },
    };
    let computed_crc32: u32 = crc32(payload.as_slice());
    let result = check_payload(found, payload, computed_crc32);
    assert(decode_outcome(result) == decoded_tile(bytes@, detail));
    result
}

/// The header of an encoded tile is valid: parsing and inspection give the
/// header that encoding returned, with the no-data value as it is read back,
/// and find the stored payload behind it. This holds of every tile that a
/// slice can hold, whatever its compression mode.
pub proof fn lemma_encoded_header_is_valid(
    input: TileEncodeInput<'_>,
    encoder_report: EncoderReport,
)
    requires
        encoded_tile(input, encoder_report) is Ok,
        encoded_tile(input, encoder_report)->Ok_0.0.len() <= usize::MAX,
    ensures
        ({
            let encoded = encoded_tile(input, encoder_report)->Ok_0;
            let read_back = TileHeader {
                no_data: restored_no_data(input.no_data, input.dtype),
                ..encoded.1
            };
            &&& parsed(encoded.0) matches Ok(found) && found.header == read_back
                && stored_form(input.compression, input.payload@) == Some(
                stored_payload(encoded.0, found),
            )
            &&& inspected(encoded.0) == Ok::<TileHeader, Failure>(read_back)
        }),
{
    let encoded = encoded_tile(input, encoder_report)->Ok_0;
    let bytes = encoded.0;
    let header = encoded.1;
    let stored = stored_form(input.compression, input.payload@)->Some_0;
    let slot = no_data_field(input.no_data, input.dtype, input.endianness)->Ok_0;
    let restored = restored_no_data(input.no_data, input.dtype);
    lemma_no_data_round_trip(input.no_data, input.dtype, input.endianness);
    lemma_tile_id_checked(input.tile_id, input.mesh_kind);
    assert(field_array(slot.1)@ =~= slot.1);
    let unsealed = unsealed_header(
        input,
        slot.0,
        field_array(slot.1),
        crc32_of(input.payload@),
        stored.len(),
    );
    assert(header == sealed_header(unsealed));
    assert(header_prefix(header) == header_prefix(unsealed));
    lemma_header_fields(header, stored);
    lemma_header_round_trip(header, stored, restored);
    let found = parsed(bytes)->Ok_0;
    assert(parsed(bytes) == parsed_with(bytes, header.header_crc32));
    assert(stored_payload(bytes, found) == stored);
}

/// Decoding an encoded tile gives back what was encoded: the payload, and
/// the header that encoding returned, with the identifier, the kinds, the
/// modes and the grid extent of the request. The no-data value comes back as
/// `restored_no_data` says: the same number for an integer kind or
/// `Float64`, and for `Float32` the nearest binary32 number, which is the
/// same pattern where binary32 holds the value. This holds of every tile
/// that a slice can hold, stored as it is, and of a deflated one where the
/// decoder restores what the encoder stored.
pub proof fn lemma_tile_round_trip(
    input: TileEncodeInput<'_>,
    encoder_report: EncoderReport,
    decoder_detail: Seq<char>,
)
    requires
        encoded_tile(input, encoder_report) is Ok,
        encoded_tile(input, encoder_report)->Ok_0.0.len() <= usize::MAX,
        compression_restores(input.compression, input.payload@),
    ensures
        ({
            let encoded = encoded_tile(input, encoder_report)->Ok_0;
            let restored = restored_no_data(input.no_data, input.dtype);
            &&& decoded_tile(encoded.0, decoder_detail) == Ok::<(TileHeader, Seq<u8>), Failure>(
                (TileHeader { no_data: restored, ..encoded.1 }, input.payload@),
            )
            &&& encoded.1.tile_id == input.tile_id
            &&& encoded.1.mesh_kind == input.mesh_kind
            &&& encoded.1.dtype == input.dtype
            &&& encoded.1.endianness == input.endianness
            &&& encoded.1.compression == input.compression
            &&& encoded.1.dimensions == input.dimensions
            &&& encoded.1.no_data == input.no_data
            &&& (input.dtype.is_integer() || input.dtype == DType::Float64 ==> same_no_data(
                restored,
                input.no_data,
            ))
            &&& (input.no_data matches Some(bits) ==> (input.dtype == DType::Float32
                && representable32(bits) ==> restored == input.no_data))
        }),
{
    lemma_encoded_header_is_valid(input, encoder_report);
    lemma_no_data_round_trip(input.no_data, input.dtype, input.endianness);
}

/// Changing one of the first 54 bytes of a tile whose header is valid makes
/// parsing, inspection and decoding fail: with an invalid magic for the first
/// four bytes, with an unsupported version for the fifth, and for every
/// other with a header checksum mismatch. The last is stated of the changes
/// that change the checksum: that a changed byte changes a CRC-32 is a fact
/// about the checksum itself, of which this crate knows the name only.
pub proof fn lemma_corrupted_header_is_refused(
    bytes: Seq<u8>,
    at: int,
    value: u8,
    decoder_detail: Seq<char>,
)
    requires
        parsed(bytes) is Ok,
        0 <= at < HEADER_CHECKSUM_OFFSET,
        value != bytes[at],
        at > 4 ==> crc32_of(bytes.update(at, value).subrange(0, HEADER_CHECKSUM_OFFSET as int))
            != crc32_of(bytes.subrange(0, HEADER_CHECKSUM_OFFSET as int)),
    ensures
        ({
            let corrupted = bytes.update(at, value);
            let kind = if at < 4 {
                TileErrorCode::InvalidMagic
            } else if at == 4 {
                TileErrorCode::UnsupportedVersion
            } else {
                TileErrorCode::HeaderChecksumMismatch
            };
            &&& parsed(corrupted) matches Err(refusal) && refusal.code == kind
            &&& inspected(corrupted) matches Err(refusal) && refusal.code == kind
            &&& decoded_tile(corrupted, decoder_detail) matches Err(refusal) && refusal.code
                == kind
        }),
{
    let corrupted = bytes.update(at, value);
    if at < 4 {
        assert(corrupted.subrange(0, 4)[at] != bytes.subrange(0, 4)[at]);
    } else if at == 4 {
        assert(corrupted.subrange(0, 4) =~= bytes.subrange(0, 4));
    } else {
        assert(corrupted.subrange(0, 4) =~= bytes.subrange(0, 4));
        assert(corrupted.subrange(54, 58) =~= bytes.subrange(54, 58));
    }
}

/// Bytes that do not start with the magic are refused as such, whatever
/// follows, once they are as long as a header.
pub proof fn lemma_wrong_magic_is_refused(bytes: Seq<u8>, decoder_detail: Seq<char>)
    requires
        bytes.len() >= TILE_FIXED_HEADER_LENGTH,
        bytes[0] != 0x4d || bytes[1] != 0x54 || bytes[2] != 0x49 || bytes[3] != 0x31,
    ensures
        parsed(bytes) == Err::<ParsedHeader, Failure>(
            failure(TileErrorCode::InvalidMagic, "Invalid file magic."@),
        ),
        decoded_tile(bytes, decoder_detail) == Err::<(TileHeader, Seq<u8>), Failure>(
            failure(TileErrorCode::InvalidMagic, "Invalid file magic."@),
        ),
{
    if bytes.subrange(0, 4) == magic() {
        assert(bytes.subrange(0, 4)[0] == magic()[0]);
        assert(bytes.subrange(0, 4)[1] == magic()[1]);
        assert(bytes.subrange(0, 4)[2] == magic()[2]);
        assert(bytes.subrange(0, 4)[3] == magic()[3]);
    }
}

/// Changing one of the first 54 bytes of an encoded tile makes parsing,
/// inspection and decoding fail, as `lemma_corrupted_header_is_refused` says
/// of every tile with a valid header, and under the same condition on the
/// checksum for the bytes behind the version.
pub proof fn lemma_corrupted_encoded_tile_is_refused(
    input: TileEncodeInput<'_>,
    encoder_report: EncoderReport,
    at: int,
    value: u8,
    decoder_detail: Seq<char>,
)
    requires
        encoded_tile(input, encoder_report) is Ok,
        encoded_tile(input, encoder_report)->Ok_0.0.len() <= usize::MAX,
        0 <= at < HEADER_CHECKSUM_OFFSET,
        value != encoded_tile(input, encoder_report)->Ok_0.0[at],
        at > 4 ==> crc32_of(
            encoded_tile(input, encoder_report)->Ok_0.0.update(at, value).subrange(
                0,
                HEADER_CHECKSUM_OFFSET as int,
            ),
        ) != crc32_of(
            encoded_tile(input, encoder_report)->Ok_0.0.subrange(0, HEADER_CHECKSUM_OFFSET as int),
        ),
    ensures
        ({
            let corrupted = encoded_tile(input, encoder_report)->Ok_0.0.update(at, value);
            let kind = if at < 4 {
                TileErrorCode::InvalidMagic
            } else if at == 4 {
                TileErrorCode::UnsupportedVersion
            } else {
                TileErrorCode::HeaderChecksumMismatch
            };
            &&& inspected(corrupted) matches Err(refusal) && refusal.code == kind
            &&& decoded_tile(corrupted, decoder_detail) matches Err(refusal) && refusal.code
                == kind
        }),
{
    lemma_encoded_header_is_valid(input, encoder_report);
    lemma_corrupted_header_is_refused(
        encoded_tile(input, encoder_report)->Ok_0.0,
        at,
        value,
        decoder_detail,
    );
}

} // verus!
