use mesh_data_tile::checksum::checksum_mismatch;
use mesh_data_tile::compress::copy_bytes;
use mesh_data_tile::header::{
    pack_dtype_endian, parse_header, read_u32_le, read_u64_le, unpack_dtype_endian,
    write_header_prefix,
};
use mesh_data_tile::text::{push_decimal, push_hex};
use mesh_data_tile::tile::{check_input, seal_tile};
use mesh_data_tile::{
    decode_tile_minimal, encode_tile, CompressionMode, DType, Endianness, MeshKind,
    TileDimensions, TileEncodeInput, TileErrorCode, TileHeader, TILE_FIXED_HEADER_LENGTH,
    TILE_VERSION_MAJOR,
};

const KINDS: [DType; 8] = [
    DType::Uint8,
    DType::Int8,
    DType::Uint16,
    DType::Int16,
    DType::Uint32,
    DType::Int32,
    DType::Float32,
    DType::Float64,
];

fn header() -> TileHeader {
    TileHeader {
        format_major: 1,
        tile_id: 0x0102_0304_0506_0708,
        mesh_kind: MeshKind::JisX0410,
        dtype: DType::Int16,
        endianness: Endianness::Big,
        compression: CompressionMode::Uncompressed,
        dimensions: TileDimensions { rows: 0x0a0b_0c0d, cols: 3, bands: 2 },
        no_data_kind: 1,
        no_data_value_raw: [0, 0, 0, 0, 0, 0, 0xd8, 0xf1],
        no_data: Some((-9999.0f64).to_bits()),
        payload_uncompressed_bytes: 0x1122_3344_5566_7788,
        payload_compressed_bytes: 4,
        payload_crc32: 0xdead_beef,
        header_crc32: 0,
    }
}

#[test]
fn the_constants_of_the_format_are_as_documented() {
    assert_eq!(TILE_FIXED_HEADER_LENGTH, 58);
    assert_eq!(TILE_VERSION_MAJOR, 1);
}

#[test]
fn the_header_is_written_field_by_field() {
    let prefix = write_header_prefix(&header());
    let expected: Vec<u8> = vec![
        b'M', b'T', b'I', b'1', // magic
        1,    // version
        0x08, 0x07, 0x06, 0x05, 0x04, 0x03, 0x02, 0x01, // tile identifier
        1,    // mesh kind
        0x83, // Int16 under big-endian
        0,    // compression
        0x0d, 0x0c, 0x0b, 0x0a, // rows
        3, 0, 0, 0, // cols
        2, // bands
        1, // no-data discriminator
        0, 0, 0, 0, 0, 0, 0xd8, 0xf1, // no-data field
        0x88, 0x77, 0x66, 0x55, 0x44, 0x33, 0x22, 0x11, // uncompressed length
        4, 0, 0, 0, 0, 0, 0, 0, // compressed length
        0xef, 0xbe, 0xad, 0xde, // payload checksum
    ];
    assert_eq!(prefix.len(), 54);
    assert_eq!(prefix, expected);
}

#[test]
fn sealing_appends_the_checksum_and_the_payload() {
    let prefix = write_header_prefix(&header());
    let tile = seal_tile(header(), prefix.clone(), 0x0a0b_0c0d, vec![9, 8, 7, 6]);
    assert_eq!(tile.header, TileHeader { header_crc32: 0x0a0b_0c0d, ..header() });
    assert_eq!(tile.bytes.len(), 62);
    assert_eq!(&tile.bytes[..54], &prefix[..]);
    assert_eq!(&tile.bytes[54..58], &[0x0d, 0x0c, 0x0b, 0x0a]);
    assert_eq!(&tile.bytes[58..], &[9, 8, 7, 6]);
}

#[test]
fn a_sealed_header_is_parsed_back() {
    let mut written = header();
    written.payload_uncompressed_bytes = 12;
    let prefix = write_header_prefix(&written);
    let checksum = crc32fast::hash(&prefix);
    let tile = seal_tile(written, prefix, checksum, vec![9, 8, 7, 6]);
    let found = parse_header(&tile.bytes).expect("the header is valid");
    assert_eq!(found.header, tile.header);
    assert_eq!(found.compressed_payload_len, 4);
    assert_eq!(found.uncompressed_payload_len, 12);
}

#[test]
fn a_kind_and_a_byte_order_share_one_byte() {
    for dtype in KINDS {
        let little = pack_dtype_endian(dtype, Endianness::Little);
        let big = pack_dtype_endian(dtype, Endianness::Big);
        assert_eq!(little, dtype.code());
        assert_eq!(big, 0x80 | dtype.code());
        assert_eq!(unpack_dtype_endian(little).unwrap(), (dtype, Endianness::Little));
        assert_eq!(unpack_dtype_endian(big).unwrap(), (dtype, Endianness::Big));
    }
    for value in 0..=255u8 {
        let unpacked = unpack_dtype_endian(value);
        if value & 0x7f < 8 {
            let (dtype, endianness) = unpacked.expect("a kind has this code");
            assert_eq!(pack_dtype_endian(dtype, endianness), value);
        } else {
            let error = unpacked.expect_err("no kind has this code");
            assert_eq!(error.code, TileErrorCode::InvalidFieldValue);
            assert_eq!(
                error.message,
                format!("Unsupported packed dtype code {}.", value & 0x7f)
            );
        }
    }
}

#[test]
fn integers_are_read_in_little_endian_order() {
    let bytes = [0x01u8, 0x02, 0x03, 0x04, 0x05, 0x06, 0x07, 0x08, 0x09, 0xff];
    assert_eq!(read_u32_le(&bytes, 0).unwrap(), 0x0403_0201);
    assert_eq!(read_u32_le(&bytes, 5).unwrap(), 0x0908_0706);
    assert_eq!(read_u32_le(&bytes, 6).unwrap(), 0xff09_0807);
    assert_eq!(read_u64_le(&bytes, 0).unwrap(), 0x0807_0605_0403_0201);
    assert_eq!(read_u64_le(&bytes, 2).unwrap(), 0xff09_0807_0605_0403);
    for offset in [7usize, 8, 10, 11, usize::MAX - 2, usize::MAX] {
        let error = read_u32_le(&bytes, offset).expect_err("beyond the bytes");
        assert_eq!(error.code, TileErrorCode::InvalidHeaderLength);
        assert_eq!(error.message, "Could not read u32 field.");
    }
    for offset in [3usize, 9, 10, 11, usize::MAX - 6, usize::MAX] {
        let error = read_u64_le(&bytes, offset).expect_err("beyond the bytes");
        assert_eq!(error.code, TileErrorCode::InvalidHeaderLength);
        assert_eq!(error.message, "Could not read u64 field.");
    }
}

#[test]
fn a_request_is_checked_before_anything_else() {
    let payload = [0u8; 24];
    let request = TileEncodeInput {
        tile_id: 9,
        mesh_kind: MeshKind::JisX0410,
        dtype: DType::Float32,
        endianness: Endianness::Big,
        compression: CompressionMode::DeflateRaw,
        dimensions: TileDimensions { rows: 3, cols: 2, bands: 1 },
        no_data: None,
        payload: &payload,
    };
    assert!(check_input(&request).is_ok());

    let zero = TileEncodeInput {
        tile_id: (40 << 58) | 1,
        mesh_kind: MeshKind::Xyz,
        dimensions: TileDimensions { rows: 0, cols: 2, bands: 1 },
        payload: &payload[..3],
        ..request.clone()
    };
    assert_eq!(check_input(&zero).unwrap_err().message, "rows, cols, and bands must be > 0.");
    let deep = TileEncodeInput { dimensions: request.dimensions, ..zero.clone() };
    assert_eq!(check_input(&deep).unwrap_err().message, "XYZ tile_id zoom must be <= 29, got 40.");
    let short = TileEncodeInput { payload: &payload[..3], ..request.clone() };
    let error = check_input(&short).unwrap_err();
    assert_eq!(error.code, TileErrorCode::InvalidPayloadLength);
    assert_eq!(error.message, "Payload byte length mismatch. expected=24 got=3");
    assert_eq!(encode_tile(short).unwrap_err(), error);
}

#[test]
fn numbers_are_written_as_text() {
    for number in [0u64, 1, 9, 10, 11, 99, 100, 255, 1000, 65535, 4294967296, u64::MAX] {
        let mut text = String::from("n=");
        push_decimal(&mut text, number);
        assert_eq!(text, format!("n={number}"));
    }
    for number in [0u64, 1, 9, 10, 15, 16, 255, 0xdead_beef, 0x0123_4567_89ab_cdef, u64::MAX] {
        let mut text = String::from("x=");
        push_hex(&mut text, number, 16);
        assert_eq!(text, format!("x={number:016x}"));
        let mut text = String::new();
        push_hex(&mut text, number, 8);
        assert_eq!(text, format!("{:08x}", number as u32));
        let mut text = String::from("kept");
        push_hex(&mut text, number, 0);
        assert_eq!(text, "kept");
    }
}

#[test]
fn a_checksum_mismatch_names_both_checksums() {
    let error = checksum_mismatch(TileErrorCode::PayloadChecksumMismatch, "Differs.", 0xab, 0xcd00_0000);
    assert_eq!(error.code, TileErrorCode::PayloadChecksumMismatch);
    assert_eq!(error.message, "Differs. expected=000000ab actual=cd000000");
}

#[test]
fn bytes_are_copied() {
    assert_eq!(copy_bytes(&[]), Vec::<u8>::new());
    assert_eq!(copy_bytes(&[1, 2, 3]), vec![1, 2, 3]);
}

#[test]
fn every_kind_and_order_and_mode_round_trips() {
    let mut state = 99u32;
    for dtype in KINDS {
        for endianness in [Endianness::Little, Endianness::Big] {
            for compression in [CompressionMode::Uncompressed, CompressionMode::DeflateRaw] {
                for mesh_kind in [MeshKind::JisX0410, MeshKind::Xyz] {
                    let dimensions = TileDimensions { rows: 3, cols: 5, bands: 2 };
                    let mut payload = vec![0u8; 30 * dtype.byte_size()];
                    for byte in payload.iter_mut() {
                        state = state.wrapping_mul(1_664_525).wrapping_add(1_013_904_223);
                        *byte = (state >> 24) as u8;
                    }
                    let tile_id = (7u64 << 58) | 16383;
                    let encoded = encode_tile(TileEncodeInput {
                        tile_id,
                        mesh_kind,
                        dtype,
                        endianness,
                        compression,
                        dimensions,
                        no_data: None,
                        payload: &payload,
                    })
                    .expect("encode tile");
                    assert_eq!(encoded.header.format_major, 1);
                    assert_eq!(encoded.header.payload_crc32, crc32fast::hash(&payload));
                    assert_eq!(
                        encoded.header.payload_compressed_bytes as usize,
                        encoded.bytes.len() - 58
                    );
                    let decoded = decode_tile_minimal(&encoded.bytes).expect("decode tile");
                    assert_eq!(decoded.payload, payload);
                    assert_eq!(decoded.header, encoded.header);
                    assert_eq!(decoded.header.tile_id, tile_id);
                    assert_eq!(decoded.header.mesh_kind, mesh_kind);
                    assert_eq!(decoded.header.dtype, dtype);
                    assert_eq!(decoded.header.endianness, endianness);
                    assert_eq!(decoded.header.compression, compression);
                    assert_eq!(decoded.header.dimensions, dimensions);
                    assert_eq!(decoded.header.no_data, None);
                }
            }
        }
    }
}
