//! The header codec: the fixed 58 bytes that start every tile.
//!
//! | offset | width | field                                   |
//! |-------:|------:|-----------------------------------------|
//! |      0 |     4 | magic `MTI1`                            |
//! |      4 |     1 | format version                          |
//! |      5 |     8 | tile identifier                         |
//! |     13 |     1 | mesh kind                               |
//! |     14 |     1 | sample kind, with the byte order on top |
//! |     15 |     1 | compression mode                        |
//! |     16 |     4 | rows                                    |
//! |     20 |     4 | cols                                    |
//! |     24 |     1 | bands                                   |
//! |     25 |     1 | no-data discriminator                   |
//! |     26 |     8 | no-data field                           |
//! |     34 |     8 | uncompressed payload length             |
//! |     42 |     8 | compressed payload length               |
//! |     50 |     4 | payload CRC-32                          |
//! |     54 |     4 | header CRC-32, over bytes 0 to 53       |
//!
//! Every integer of the header is little-endian, whatever the byte order of
//! the samples.

use vstd::prelude::*;
use vstd::arithmetic::power2::{lemma2_to64, lemma2_to64_rest};
use crate::byteorder::{
    le_bytes, le_value, lemma_le_bytes_len, lemma_le_value_bound, lemma_le_value_of_bytes,
    read_unsigned, write_unsigned,
};
use crate::checksum::{checksum_mismatch, crc32, crc32_of, mismatch_text};
use crate::error::{failure, outcome, Failure, TileError, TileErrorCode};
use crate::model::{
    CompressionMode, DType, Endianness, MeshKind, TileDimensions, TileHeader,
    TILE_FIXED_HEADER_LENGTH, TILE_VERSION_MAJOR,
};
use crate::no_data::{decode_no_data_field, no_data_value};
use crate::text::{decimal_text, push_decimal};
use crate::tile_id::{
    lemma_tile_id_checked, tile_id_accepted, tile_id_checked, validate_tile_id_for_mesh_kind,
};

verus! {

/// Offset of the header checksum, and the number of bytes it covers.
pub const HEADER_CHECKSUM_OFFSET: usize = 54;

/// Offsets of the fields, as in the layout above.
pub const OFFSET_FORMAT_MAJOR: usize = 4;

pub const OFFSET_TILE_ID: usize = 5;

pub const OFFSET_MESH_KIND: usize = 13;

pub const OFFSET_DTYPE_ENDIAN: usize = 14;

pub const OFFSET_COMPRESSION: usize = 15;

pub const OFFSET_ROWS: usize = 16;

pub const OFFSET_COLS: usize = 20;

pub const OFFSET_BANDS: usize = 24;

pub const OFFSET_NO_DATA_KIND: usize = 25;

pub const OFFSET_NO_DATA_VALUE: usize = 26;

pub const OFFSET_UNCOMPRESSED_PAYLOAD_LENGTH: usize = 34;

pub const OFFSET_COMPRESSED_PAYLOAD_LENGTH: usize = 42;

pub const OFFSET_PAYLOAD_CHECKSUM: usize = 50;

/// The four bytes `MTI1` that start every tile.
pub open spec fn magic() -> Seq<u8> {
    seq![0x4du8, 0x54u8, 0x49u8, 0x31u8]
}

/// The little-endian number in the `width` bytes at `offset`.
pub open spec fn field_at(bytes: Seq<u8>, offset: int, width: int) -> nat {
    le_value(bytes.subrange(offset, offset + width))
}

/// What `read_u32_le` yields.
pub open spec fn u32_le_at(bytes: Seq<u8>, offset: usize) -> Result<u32, Failure> {
    if offset + 4 > bytes.len() {
        Err(failure(TileErrorCode::InvalidHeaderLength, "Could not read u32 field."@))
    } else {
        Ok(field_at(bytes, offset as int, 4) as u32)
    }
}

/// What `read_u64_le` yields.
pub open spec fn u64_le_at(bytes: Seq<u8>, offset: usize) -> Result<u64, Failure> {
    if offset + 8 > bytes.len() {
        Err(failure(TileErrorCode::InvalidHeaderLength, "Could not read u64 field."@))
    } else {
        Ok(field_at(bytes, offset as int, 8) as u64)
    }
}

/// Reads the little-endian `u32` at `offset`.
pub fn read_u32_le(bytes: &[u8], offset: usize) -> (result: Result<u32, TileError>)
    ensures
        outcome(result) == u32_le_at(bytes@, offset),
{
    if offset > bytes.len() || bytes.len() - offset < 4 {
        return Err(TileError::new(TileErrorCode::InvalidHeaderLength, "Could not read u32 field."));
    }
    let field: &[u8] = &bytes[offset..offset + 4];
    proof {
        lemma_le_value_bound(field@);
        lemma2_to64();
    }
    Ok(read_unsigned(field, Endianness::Little) as u32)
}

/// Reads the little-endian `u64` at `offset`.
pub fn read_u64_le(bytes: &[u8], offset: usize) -> (result: Result<u64, TileError>)
    ensures
        outcome(result) == u64_le_at(bytes@, offset),
{
    if offset > bytes.len() || bytes.len() - offset < 8 {
        return Err(TileError::new(TileErrorCode::InvalidHeaderLength, "Could not read u64 field."));
    }
    let field: &[u8] = &bytes[offset..offset + 8];
    Ok(read_unsigned(field, Endianness::Little))
}

/// The byte that packs a sample kind under a byte order: the kind's code in
/// the low seven bits, and the top bit set for big-endian.
pub open spec fn packed_dtype_endian(dtype: DType, endianness: Endianness) -> u8 {
    match endianness {
        Endianness::Little => dtype.spec_code(),
        Endianness::Big => (0x80 + dtype.spec_code()) as u8,
    }
}

/// The sample kind and byte order that a byte packs.
pub open spec fn unpacked_dtype_endian(value: u8) -> Result<(DType, Endianness), Failure> {
    match DType::of_code(value % 0x80) {
        Ok(dtype) => Ok(
            (
                dtype,
                if value < 0x80 {
                    Endianness::Little
                } else {
                    Endianness::Big
                },
            ),
        ),
        Err(code) => Err(code),
    }
}

/// Packs a sample kind and a byte order into one byte.
pub fn pack_dtype_endian(dtype: DType, endianness: Endianness) -> (packed: u8)
    ensures
        packed == packed_dtype_endian(dtype, endianness),
{
    let endian_bit: u8 = match endianness {
        Endianness::Little => 0,
        Endianness::Big => 0x80,
    };
    endian_bit + dtype.code()
}

/// Unpacks the byte that holds the sample kind and the byte order.
pub fn unpack_dtype_endian(value: u8) -> (result: Result<(DType, Endianness), TileError>)
    ensures
        outcome(result) == unpacked_dtype_endian(value),
{
    let dtype = match DType::from_code(value % 0x80) {
        Ok(dtype) => dtype,
        Err(error) => { return Err(error); },
    };
    let endianness = if value < 0x80 {
        Endianness::Little
    } else {
        Endianness::Big
    };
    Ok((dtype, endianness))
}

/// Packing a kind under a byte order and unpacking the byte gives both back.
pub proof fn lemma_unpack_packed(dtype: DType, endianness: Endianness)
    ensures
        unpacked_dtype_endian(packed_dtype_endian(dtype, endianness)) == Ok::<
            (DType, Endianness),
            Failure,
        >((dtype, endianness)),
{
}

/// A header that was read and checked, with its two payload lengths in the
/// platform's size type.
#[derive(Debug)]
pub struct ParsedHeader {
    pub header: TileHeader,
    pub compressed_payload_len: usize,
    pub uncompressed_payload_len: usize,
}

/// The two lengths of a parsed header are those that its header declares,
/// and the bytes hold the whole stored payload behind the header.
pub open spec fn holds_stored_payload(bytes: Seq<u8>, found: ParsedHeader) -> bool {
    &&& found.compressed_payload_len == found.header.payload_compressed_bytes
    &&& found.uncompressed_payload_len == found.header.payload_uncompressed_bytes
    &&& TILE_FIXED_HEADER_LENGTH + found.compressed_payload_len <= bytes.len()
}

/// The eight bytes at the start of `field` as an array.
pub open spec fn field_array(field: Seq<u8>) -> [u8; 8] {
    [field[0], field[1], field[2], field[3], field[4], field[5], field[6], field[7]]
}

/// The grid extent that the header bytes name.
pub open spec fn dimensions_at(bytes: Seq<u8>) -> TileDimensions {
    TileDimensions {
        rows: field_at(bytes, OFFSET_ROWS as int, 4) as u32,
        cols: field_at(bytes, OFFSET_COLS as int, 4) as u32,
        bands: bytes[OFFSET_BANDS as int],
    }
}

/// The header that at least 58 bytes spell, once its kinds, codes and no-data
/// value have been found valid.
pub open spec fn header_at(
    bytes: Seq<u8>,
    mesh_kind: MeshKind,
    dtype: DType,
    endianness: Endianness,
    compression: CompressionMode,
    no_data: Option<u64>,
) -> TileHeader {
    TileHeader {
        format_major: bytes[OFFSET_FORMAT_MAJOR as int],
        tile_id: field_at(bytes, OFFSET_TILE_ID as int, 8) as u64,
        mesh_kind,
        dtype,
        endianness,
        compression,
        dimensions: dimensions_at(bytes),
        no_data_kind: bytes[OFFSET_NO_DATA_KIND as int],
        no_data_value_raw: field_array(
            bytes.subrange(OFFSET_NO_DATA_VALUE as int, OFFSET_NO_DATA_VALUE + 8),
        ),
        no_data,
        payload_uncompressed_bytes: field_at(
            bytes,
            OFFSET_UNCOMPRESSED_PAYLOAD_LENGTH as int,
            8,
        ) as u64,
        payload_compressed_bytes: field_at(
            bytes,
            OFFSET_COMPRESSED_PAYLOAD_LENGTH as int,
            8,
        ) as u64,
        payload_crc32: field_at(bytes, OFFSET_PAYLOAD_CHECKSUM as int, 4) as u32,
        header_crc32: field_at(bytes, HEADER_CHECKSUM_OFFSET as int, 4) as u32,
    }
}

/// The checks on the two payload lengths of a header whose fields are valid:
/// both fit the platform's size type, and the bytes hold the whole stored
/// payload behind the header.
pub open spec fn lengths_checked(bytes: Seq<u8>, header: TileHeader) -> Result<
    ParsedHeader,
    Failure,
> {
    if header.payload_uncompressed_bytes > usize::MAX {
        Err(
            failure(
                TileErrorCode::InvalidHeaderLength,
                "uncompressed payload length exceeds platform usize."@,
            ),
        )
    } else if header.payload_compressed_bytes > usize::MAX {
        Err(
            failure(
                TileErrorCode::InvalidHeaderLength,
                "compressed payload length exceeds platform usize."@,
            ),
        )
    } else if TILE_FIXED_HEADER_LENGTH + header.payload_compressed_bytes > usize::MAX {
        Err(failure(TileErrorCode::InvalidPayloadLength, "Compressed payload length overflow."@))
    } else if bytes.len() < TILE_FIXED_HEADER_LENGTH + header.payload_compressed_bytes {
        Err(
            failure(
                TileErrorCode::InvalidPayloadLength,
                "File shorter than declared compressed payload length."@,
            ),
        )
    } else {
        Ok(
            ParsedHeader {
                header,
                compressed_payload_len: header.payload_compressed_bytes as usize,
                uncompressed_payload_len: header.payload_uncompressed_bytes as usize,
            },
        )
    }
}

/// The fields of a header of at least 58 bytes whose magic, version and
/// checksum were accepted, each validated in the order of the layout.
pub open spec fn fields_parsed(bytes: Seq<u8>) -> Result<ParsedHeader, Failure> {
    match MeshKind::of_code(bytes[OFFSET_MESH_KIND as int]) {
        Err(refusal) => Err(refusal),
        Ok(mesh_kind) => match tile_id_checked(
            field_at(bytes, OFFSET_TILE_ID as int, 8) as u64,
            mesh_kind,
        ) {
            Err(refusal) => Err(refusal),
            Ok(_) => match unpacked_dtype_endian(bytes[OFFSET_DTYPE_ENDIAN as int]) {
                Err(refusal) => Err(refusal),
                Ok((dtype, endianness)) => match CompressionMode::of_code(
                    bytes[OFFSET_COMPRESSION as int],
                ) {
                    Err(refusal) => Err(refusal),
                    Ok(compression) => match dimensions_at(bytes).validated() {
                        Err(refusal) => Err(refusal),
                        Ok(_) => match no_data_value(
                            bytes[OFFSET_NO_DATA_KIND as int],
                            bytes.subrange(OFFSET_NO_DATA_VALUE as int, OFFSET_NO_DATA_VALUE + 8),
                            dtype,
                            endianness,
                        ) {
                            Err(refusal) => Err(refusal),
                            Ok(no_data) => lengths_checked(
                                bytes,
                                header_at(
                                    bytes,
                                    mesh_kind,
                                    dtype,
                                    endianness,
                                    compression,
                                    no_data,
                                ),
                            ),
                        },
                    },
                },
            },
        },
    }
}

/// What parsing yields for `bytes` when the checksum computed over their
/// first 54 bytes is `computed_crc32`: the length, the magic, the version
/// and the checksum are checked in this order, then the fields.
pub open spec fn parsed_with(bytes: Seq<u8>, computed_crc32: u32) -> Result<
    ParsedHeader,
    Failure,
> {
    if bytes.len() < TILE_FIXED_HEADER_LENGTH {
        Err(failure(TileErrorCode::InvalidHeaderLength, "File shorter than fixed header."@))
    } else if bytes.subrange(0, 4) != magic() {
        Err(failure(TileErrorCode::InvalidMagic, "Invalid file magic."@))
    } else if bytes[OFFSET_FORMAT_MAJOR as int] != TILE_VERSION_MAJOR {
        Err(
            failure(
                TileErrorCode::UnsupportedVersion,
                "Unsupported major version "@ + decimal_text(
                    bytes[OFFSET_FORMAT_MAJOR as int] as nat,
                ) + "."@,
            ),
        )
    } else if field_at(bytes, HEADER_CHECKSUM_OFFSET as int, 4) != computed_crc32 {
        Err(
            failure(
                TileErrorCode::HeaderChecksumMismatch,
                mismatch_text(
                    "Header checksum mismatch."@,
                    field_at(bytes, HEADER_CHECKSUM_OFFSET as int, 4) as u32,
                    computed_crc32,
                ),
            ),
        )
    } else {
        fields_parsed(bytes)
    }
}

/// What parsing yields for `bytes`.
pub open spec fn parsed(bytes: Seq<u8>) -> Result<ParsedHeader, Failure> {
    parsed_with(bytes, crc32_of(bytes.subrange(0, HEADER_CHECKSUM_OFFSET as int)))
}

/// Parses and validates the header at the start of `bytes`, given the
/// checksum computed over their first 54 bytes.
pub fn parse_header_with(bytes: &[u8], computed_crc32: u32) -> (result: Result<
    ParsedHeader,
    TileError,
>)
    ensures
        outcome(result) == parsed_with(bytes@, computed_crc32),
        result matches Ok(found) ==> holds_stored_payload(bytes@, found),
{
    if bytes.len() < TILE_FIXED_HEADER_LENGTH {
        return Err(
            TileError::new(TileErrorCode::InvalidHeaderLength, "File shorter than fixed header."),
        );
    }
    if bytes[0] != 0x4d || bytes[1] != 0x54 || bytes[2] != 0x49 || bytes[3] != 0x31 {
        assert(bytes@.subrange(0, 4) != magic()) by {
            if bytes@.subrange(0, 4) == magic() {
                assert(bytes@.subrange(0, 4)[0] == magic()[0]);
                assert(bytes@.subrange(0, 4)[1] == magic()[1]);
                assert(bytes@.subrange(0, 4)[2] == magic()[2]);
                assert(bytes@.subrange(0, 4)[3] == magic()[3]);
            }
        }
        return Err(TileError::new(TileErrorCode::InvalidMagic, "Invalid file magic."));
    }
    assert(bytes@.subrange(0, 4) =~= magic());
    let format_major: u8 = bytes[OFFSET_FORMAT_MAJOR];
    if format_major != TILE_VERSION_MAJOR {
        let mut message: String = "Unsupported major version ".to_owned();
        push_decimal(&mut message, format_major as u64);
        message.append(".");
        return Err(TileError { code: TileErrorCode::UnsupportedVersion, message });
    }
    let header_crc32: u32 = match read_u32_le(bytes, HEADER_CHECKSUM_OFFSET) {
        Ok(value) => value,
        Err(error) => { return Err(error); },
    };
    proof {
        lemma2_to64();
        lemma2_to64_rest();
        lemma_le_value_bound(bytes@.subrange(54, 58));
        lemma_le_value_bound(bytes@.subrange(5, 13));
        lemma_le_value_bound(bytes@.subrange(16, 20));
        lemma_le_value_bound(bytes@.subrange(20, 24));
        lemma_le_value_bound(bytes@.subrange(34, 42));
        lemma_le_value_bound(bytes@.subrange(42, 50));
        lemma_le_value_bound(bytes@.subrange(50, 54));
    }
    if header_crc32 != computed_crc32 {
        return Err(
            checksum_mismatch(
                TileErrorCode::HeaderChecksumMismatch,
                "Header checksum mismatch.",
                header_crc32,
                computed_crc32,
            ),
        );
    }
    let tile_id: u64 = match read_u64_le(bytes, OFFSET_TILE_ID) {
        Ok(value) => value,
        Err(error) => { return Err(error); },
    };
    let mesh_kind = match MeshKind::from_code(bytes[OFFSET_MESH_KIND]) {
        Ok(kind) => kind,
        Err(error) => { return Err(error); },
    };
    match validate_tile_id_for_mesh_kind(tile_id, mesh_kind) {
        Ok(()) => {},
        Err(error) => { return Err(error); },
    }
    let (dtype, endianness) = match unpack_dtype_endian(bytes[OFFSET_DTYPE_ENDIAN]) {
        Ok(pair) => pair,
        Err(error) => { return Err(error); },
    };
    let compression = match CompressionMode::from_code(bytes[OFFSET_COMPRESSION]) {
        Ok(mode) => mode,
        Err(error) => { return Err(error); },
    };
    let rows: u32 = match read_u32_le(bytes, OFFSET_ROWS) {
        Ok(value) => value,
        Err(error) => { return Err(error); },
    };
    let cols: u32 = match read_u32_le(bytes, OFFSET_COLS) {
        Ok(value) => value,
        Err(error) => { return Err(error); },
    };
    let dimensions = TileDimensions { rows, cols, bands: bytes[OFFSET_BANDS] };
    match dimensions.validate() {
        Ok(()) => {},
        Err(error) => { return Err(error); },
    }
    let no_data_kind: u8 = bytes[OFFSET_NO_DATA_KIND];
    let mut no_data_value_raw: [u8; 8] = [0u8; 8];
    let mut copied: usize = 0;
    while copied < 8
        invariant
            copied <= 8,
            bytes@.len() >= 58,
            forall|i: int| 0 <= i < copied ==> no_data_value_raw@[i] == bytes@[26 + i],
        decreases 8 - copied,
    {
        no_data_value_raw[copied] = bytes[OFFSET_NO_DATA_VALUE + copied];
        copied = copied + 1;
    }
    assert(no_data_value_raw@ =~= bytes@.subrange(26, 34));
    assert(no_data_value_raw =~= field_array(bytes@.subrange(26, 34)));
    let no_data = match decode_no_data_field(no_data_kind, no_data_value_raw, dtype, endianness) {
        Ok(no_data) => no_data,
        Err(error) => { return Err(error); },
    };
    let uncompressed_payload_u64: u64 = match read_u64_le(
        bytes,
        OFFSET_UNCOMPRESSED_PAYLOAD_LENGTH,
    ) {
        Ok(value) => value,
        Err(error) => { return Err(error); },
    };
    let compressed_payload_u64: u64 = match read_u64_le(bytes, OFFSET_COMPRESSED_PAYLOAD_LENGTH) {
        Ok(value) => value,
        Err(error) => { return Err(error); },
    };
    let payload_crc32: u32 = match read_u32_le(bytes, OFFSET_PAYLOAD_CHECKSUM) {
        Ok(value) => value,
        Err(error) => { return Err(error); },
    };
    if uncompressed_payload_u64 > usize::MAX as u64 {
        return Err(
            TileError::new(
                TileErrorCode::InvalidHeaderLength,
                "uncompressed payload length exceeds platform usize.",
            ),
        );
    }
    if compressed_payload_u64 > usize::MAX as u64 {
        return Err(
            TileError::new(
                TileErrorCode::InvalidHeaderLength,
                "compressed payload length exceeds platform usize.",
            ),
        );
    }
    let uncompressed_payload_len: usize = uncompressed_payload_u64 as usize;
    let compressed_payload_len: usize = compressed_payload_u64 as usize;
    let payload_end: usize = match TILE_FIXED_HEADER_LENGTH.checked_add(compressed_payload_len) {
        Some(end) => end,
        None => {
            return Err(
                TileError::new(
                    TileErrorCode::InvalidPayloadLength,
                    "Compressed payload length overflow.",
                ),
            );
        },
    };
    if bytes.len() < payload_end {
        return Err(
            TileError::new(
                TileErrorCode::InvalidPayloadLength,
                "File shorter than declared compressed payload length.",
            ),
        );
    }
    let header = TileHeader {
        format_major,
        tile_id,
        mesh_kind,
        dtype,
        endianness,
        compression,
        dimensions,
        no_data_kind,
        no_data_value_raw,
        no_data,
        payload_uncompressed_bytes: uncompressed_payload_u64,
        payload_compressed_bytes: compressed_payload_u64,
        payload_crc32,
        header_crc32,
    };
    Ok(ParsedHeader { header, compressed_payload_len, uncompressed_payload_len })
}

/// Parses and validates the header at the start of `bytes`.
pub fn parse_header(bytes: &[u8]) -> (result: Result<ParsedHeader, TileError>)
    ensures
        outcome(result) == parsed(bytes@),
        result matches Ok(found) ==> holds_stored_payload(bytes@, found),
{
    if bytes.len() < TILE_FIXED_HEADER_LENGTH {
        return Err(
            TileError::new(TileErrorCode::InvalidHeaderLength, "File shorter than fixed header."),
        );
    }
    let computed_crc32: u32 = crc32(&bytes[0..HEADER_CHECKSUM_OFFSET]);
    parse_header_with(bytes, computed_crc32)
}

/// The first 54 bytes of the header that `header` describes: every field
/// but the header checksum, in the order of the layout.
pub open spec fn header_prefix(header: TileHeader) -> Seq<u8> {
    magic() + seq![header.format_major] + le_bytes(header.tile_id as nat, 8) + seq![
        header.mesh_kind.spec_code(),
        packed_dtype_endian(header.dtype, header.endianness),
        header.compression.spec_code(),
    ] + le_bytes(header.dimensions.rows as nat, 4) + le_bytes(header.dimensions.cols as nat, 4)
        + seq![header.dimensions.bands, header.no_data_kind] + header.no_data_value_raw@
        + le_bytes(header.payload_uncompressed_bytes as nat, 8) + le_bytes(
        header.payload_compressed_bytes as nat,
        8,
    ) + le_bytes(header.payload_crc32 as nat, 4)
}

/// The 58 bytes of the header that `header` describes.
pub open spec fn header_bytes(header: TileHeader) -> Seq<u8> {
    header_prefix(header) + le_bytes(header.header_crc32 as nat, 4)
}

/// The prefix of a header is 54 bytes long.
pub proof fn lemma_header_prefix_len(header: TileHeader)
    ensures
        header_prefix(header).len() == HEADER_CHECKSUM_OFFSET,
        header_bytes(header).len() == TILE_FIXED_HEADER_LENGTH,
{
    crate::byteorder::lemma_le_bytes_len(header.tile_id as nat, 8);
    crate::byteorder::lemma_le_bytes_len(header.dimensions.rows as nat, 4);
    crate::byteorder::lemma_le_bytes_len(header.dimensions.cols as nat, 4);
    crate::byteorder::lemma_le_bytes_len(header.payload_uncompressed_bytes as nat, 8);
    crate::byteorder::lemma_le_bytes_len(header.payload_compressed_bytes as nat, 8);
    crate::byteorder::lemma_le_bytes_len(header.payload_crc32 as nat, 4);
    crate::byteorder::lemma_le_bytes_len(header.header_crc32 as nat, 4);
}

/// Appends the lowest `width` little-endian bytes of `value`.
fn push_le(out: &mut Vec<u8>, value: u64, width: usize)
    requires
        width <= 8,
    ensures
        final(out)@ == old(out)@ + le_bytes(value as nat, width as nat),
{
    let mut field: Vec<u8> = write_unsigned(value, width, Endianness::Little);
    out.append(&mut field);
}

/// Writes the first 54 bytes of the header: every field but its checksum.
pub fn write_header_prefix(header: &TileHeader) -> (out: Vec<u8>)
    ensures
        out@ == header_prefix(*header),
        out@.len() == HEADER_CHECKSUM_OFFSET,
{
    let mut out: Vec<u8> = Vec::with_capacity(TILE_FIXED_HEADER_LENGTH);
    out.push(0x4d);
    out.push(0x54);
    out.push(0x49);
    out.push(0x31);
    assert(out@ =~= magic());
    out.push(header.format_major);
    push_le(&mut out, header.tile_id, 8);
    out.push(header.mesh_kind.code());
    out.push(pack_dtype_endian(header.dtype, header.endianness));
    out.push(header.compression.code());
    assert(out@ =~= magic() + seq![header.format_major] + le_bytes(header.tile_id as nat, 8)
        + seq![
        header.mesh_kind.spec_code(),
        packed_dtype_endian(header.dtype, header.endianness),
        header.compression.spec_code(),
    ]);
    push_le(&mut out, header.dimensions.rows as u64, 4);
    push_le(&mut out, header.dimensions.cols as u64, 4);
    out.push(header.dimensions.bands);
    out.push(header.no_data_kind);
    let ghost before_field = out@;
    assert(before_field =~= magic() + seq![header.format_major] + le_bytes(
        header.tile_id as nat,
        8,
    ) + seq![
        header.mesh_kind.spec_code(),
        packed_dtype_endian(header.dtype, header.endianness),
        header.compression.spec_code(),
    ] + le_bytes(header.dimensions.rows as nat, 4) + le_bytes(header.dimensions.cols as nat, 4)
        + seq![header.dimensions.bands, header.no_data_kind]);
    let mut copied: usize = 0;
    while copied < 8
        invariant
            copied <= 8,
            out@ == before_field + header.no_data_value_raw@.subrange(0, copied as int),
        decreases 8 - copied,
    {
        out.push(header.no_data_value_raw[copied]);
        assert(out@ =~= before_field + header.no_data_value_raw@.subrange(0, copied + 1));
        copied = copied + 1;
    }
    assert(header.no_data_value_raw@.subrange(0, 8) =~= header.no_data_value_raw@);
    push_le(&mut out, header.payload_uncompressed_bytes, 8);
    push_le(&mut out, header.payload_compressed_bytes, 8);
    push_le(&mut out, header.payload_crc32 as u64, 4);
    proof {
        lemma_header_prefix_len(*header);
    }
    out
}

/// The bytes of a written header hold each field at its offset.
pub proof fn lemma_header_fields(header: TileHeader, rest: Seq<u8>)
    ensures
        ({
            let bytes = header_bytes(header) + rest;
            &&& bytes.len() == TILE_FIXED_HEADER_LENGTH + rest.len()
            &&& bytes.subrange(0, HEADER_CHECKSUM_OFFSET as int) == header_prefix(header)
            &&& bytes.subrange(
                TILE_FIXED_HEADER_LENGTH as int,
                TILE_FIXED_HEADER_LENGTH + rest.len(),
            ) == rest
            &&& bytes.subrange(0, 4) == magic()
            &&& bytes[OFFSET_FORMAT_MAJOR as int] == header.format_major
            &&& field_at(bytes, OFFSET_TILE_ID as int, 8) == header.tile_id
            &&& bytes[OFFSET_MESH_KIND as int] == header.mesh_kind.spec_code()
            &&& bytes[OFFSET_DTYPE_ENDIAN as int] == packed_dtype_endian(
                header.dtype,
                header.endianness,
            )
            &&& bytes[OFFSET_COMPRESSION as int] == header.compression.spec_code()
            &&& field_at(bytes, OFFSET_ROWS as int, 4) == header.dimensions.rows
            &&& field_at(bytes, OFFSET_COLS as int, 4) == header.dimensions.cols
            &&& bytes[OFFSET_BANDS as int] == header.dimensions.bands
            &&& bytes[OFFSET_NO_DATA_KIND as int] == header.no_data_kind
            &&& bytes.subrange(OFFSET_NO_DATA_VALUE as int, OFFSET_NO_DATA_VALUE + 8)
                == header.no_data_value_raw@
            &&& field_at(bytes, OFFSET_UNCOMPRESSED_PAYLOAD_LENGTH as int, 8)
                == header.payload_uncompressed_bytes
            &&& field_at(bytes, OFFSET_COMPRESSED_PAYLOAD_LENGTH as int, 8)
                == header.payload_compressed_bytes
            &&& field_at(bytes, OFFSET_PAYLOAD_CHECKSUM as int, 4) == header.payload_crc32
            &&& field_at(bytes, HEADER_CHECKSUM_OFFSET as int, 4) == header.header_crc32
        }),
{
    lemma2_to64();
    lemma2_to64_rest();
    let bytes = header_bytes(header) + rest;
    let tile_id = le_bytes(header.tile_id as nat, 8);
    let rows = le_bytes(header.dimensions.rows as nat, 4);
    let cols = le_bytes(header.dimensions.cols as nat, 4);
    let uncompressed = le_bytes(header.payload_uncompressed_bytes as nat, 8);
    let compressed = le_bytes(header.payload_compressed_bytes as nat, 8);
    let payload_crc = le_bytes(header.payload_crc32 as nat, 4);
    let header_crc = le_bytes(header.header_crc32 as nat, 4);
    lemma_le_bytes_len(header.tile_id as nat, 8);
    lemma_le_bytes_len(header.dimensions.rows as nat, 4);
    lemma_le_bytes_len(header.dimensions.cols as nat, 4);
    lemma_le_bytes_len(header.payload_uncompressed_bytes as nat, 8);
    lemma_le_bytes_len(header.payload_compressed_bytes as nat, 8);
    lemma_le_bytes_len(header.payload_crc32 as nat, 4);
    lemma_le_bytes_len(header.header_crc32 as nat, 4);
    lemma_le_value_of_bytes(header.tile_id as nat, 8);
    lemma_le_value_of_bytes(header.dimensions.rows as nat, 4);
    lemma_le_value_of_bytes(header.dimensions.cols as nat, 4);
    lemma_le_value_of_bytes(header.payload_uncompressed_bytes as nat, 8);
    lemma_le_value_of_bytes(header.payload_compressed_bytes as nat, 8);
    lemma_le_value_of_bytes(header.payload_crc32 as nat, 4);
    lemma_le_value_of_bytes(header.header_crc32 as nat, 4);
    lemma_header_prefix_len(header);
    assert(bytes.subrange(0, 54) =~= header_prefix(header));
    assert(bytes.subrange(58, 58 + rest.len() as int) =~= rest);
    assert(bytes.subrange(0, 4) =~= magic());
    assert(bytes.subrange(5, 13) =~= tile_id);
    assert(bytes.subrange(16, 20) =~= rows);
    assert(bytes.subrange(20, 24) =~= cols);
    assert(bytes.subrange(26, 34) =~= header.no_data_value_raw@);
    assert(bytes.subrange(34, 42) =~= uncompressed);
    assert(bytes.subrange(42, 50) =~= compressed);
    assert(bytes.subrange(50, 54) =~= payload_crc);
    assert(bytes.subrange(54, 58) =~= header_crc);
}

/// A header that was written is parsed back, with its stored payload behind
/// it: the fields are those written, and the no-data value is the one that
/// its discriminator and field stand for.
pub proof fn lemma_header_round_trip(header: TileHeader, stored: Seq<u8>, no_data: Option<u64>)
    requires
        header.format_major == TILE_VERSION_MAJOR,
        tile_id_accepted(header.tile_id, header.mesh_kind),
        header.dimensions.well_formed(),
        no_data_value(
            header.no_data_kind,
            header.no_data_value_raw@,
            header.dtype,
            header.endianness,
        ) == Ok::<Option<u64>, Failure>(no_data),
        header.payload_uncompressed_bytes <= usize::MAX,
        header.payload_compressed_bytes == stored.len(),
        TILE_FIXED_HEADER_LENGTH + stored.len() <= usize::MAX,
    ensures
        parsed_with(header_bytes(header) + stored, header.header_crc32) == Ok::<
            ParsedHeader,
            Failure,
        >(
            ParsedHeader {
                header: TileHeader { no_data, ..header },
                compressed_payload_len: stored.len() as usize,
                uncompressed_payload_len: header.payload_uncompressed_bytes as usize,
            },
        ),
{
    let bytes = header_bytes(header) + stored;
    lemma_header_fields(header, stored);
    lemma_unpack_packed(header.dtype, header.endianness);
    lemma_tile_id_checked(header.tile_id, header.mesh_kind);
    let found = header_at(
        bytes,
        header.mesh_kind,
        header.dtype,
        header.endianness,
        header.compression,
        no_data,
    );
    assert(found.no_data_value_raw =~= header.no_data_value_raw);
    assert(found == TileHeader { no_data, ..header });
    assert(MeshKind::of_code(header.mesh_kind.spec_code()) == Ok::<MeshKind, Failure>(
        header.mesh_kind,
    ));
    assert(CompressionMode::of_code(header.compression.spec_code()) == Ok::<
        CompressionMode,
        Failure,
    >(header.compression));
    assert(dimensions_at(bytes) == header.dimensions);
}

} // verus!
