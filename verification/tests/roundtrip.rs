use mesh_data_tile::{
    decode_payload_values, decode_tile_minimal, encode_payload_values, encode_tile, inspect_tile,
    CompressionMode, DType, Endianness, MeshKind, TileDimensions, TileEncodeInput, TileErrorCode,
};

fn bits(values: &[f64]) -> Vec<u64> {
    values.iter().map(|value| value.to_bits()).collect()
}

fn numbers(patterns: &[u64]) -> Vec<f64> {
    patterns.iter().map(|pattern| f64::from_bits(*pattern)).collect()
}

fn tile_dims() -> TileDimensions {
    TileDimensions { rows: 2, cols: 2, bands: 1 }
}

#[test]
fn roundtrip_uncompressed_payload() {
    let payload =
        encode_payload_values(DType::Uint16, Endianness::Little, &bits(&[10.0, 20.0, 30.0, 40.0]))
            .expect("encode payload values");

    let encoded = encode_tile(TileEncodeInput {
        tile_id: 42,
        mesh_kind: MeshKind::JisX0410,
        dtype: DType::Uint16,
        endianness: Endianness::Little,
        compression: CompressionMode::Uncompressed,
        dimensions: tile_dims(),
        no_data: None,
        payload: &payload,
    })
    .expect("encode tile");

    let decoded = decode_tile_minimal(&encoded.bytes).expect("decode tile");
    assert_eq!(decoded.header.tile_id, 42);
    assert_eq!(decoded.header.compression, CompressionMode::Uncompressed);
    assert_eq!(decoded.payload, payload);

    let values = decode_payload_values(
        decoded.header.dtype,
        decoded.header.endianness,
        &decoded.payload,
    )
    .expect("decode payload values");
    assert_eq!(numbers(&values), vec![10.0, 20.0, 30.0, 40.0]);
}

#[test]
fn roundtrip_deflate_payload() {
    let payload =
        encode_payload_values(DType::Uint16, Endianness::Little, &bits(&[1.0, 2.0, 3.0, 4.0]))
            .expect("encode payload values");

    let encoded = encode_tile(TileEncodeInput {
        tile_id: 1004,
        mesh_kind: MeshKind::JisX0410,
        dtype: DType::Uint16,
        endianness: Endianness::Little,
        compression: CompressionMode::DeflateRaw,
        dimensions: tile_dims(),
        no_data: None,
        payload: &payload,
    })
    .expect("encode tile");

    let decoded = decode_tile_minimal(&encoded.bytes).expect("decode tile");
    assert_eq!(decoded.header.compression, CompressionMode::DeflateRaw);
    assert_eq!(decoded.payload, payload);
}

#[test]
fn lib_rejects_invalid_magic() {
    let payload =
        encode_payload_values(DType::Uint8, Endianness::Little, &bits(&[1.0, 2.0, 3.0, 4.0]))
            .expect("encode payload values");

    let encoded = encode_tile(TileEncodeInput {
        tile_id: 1,
        mesh_kind: MeshKind::JisX0410,
        dtype: DType::Uint8,
        endianness: Endianness::Little,
        compression: CompressionMode::Uncompressed,
        dimensions: tile_dims(),
        no_data: None,
        payload: &payload,
    })
    .expect("encode tile");

    let mut malformed = encoded.bytes;
    malformed[1] = 0;
    let error = decode_tile_minimal(&malformed).expect_err("should fail");
    assert_eq!(error.code, TileErrorCode::InvalidMagic);
}

#[test]
fn rejects_invalid_xyz_tile_id() {
    let payload =
        encode_payload_values(DType::Uint8, Endianness::Little, &bits(&[1.0, 2.0, 3.0, 4.0]))
            .expect("encode payload values");

    let bad_tile_id = (1_u64 << 58) | 16_u64;
    let error = encode_tile(TileEncodeInput {
        tile_id: bad_tile_id,
        mesh_kind: MeshKind::Xyz,
        dtype: DType::Uint8,
        endianness: Endianness::Little,
        compression: CompressionMode::Uncompressed,
        dimensions: tile_dims(),
        no_data: None,
        payload: &payload,
    })
    .expect_err("should reject bad xyz tile id");

    assert_eq!(error.code, TileErrorCode::InvalidFieldValue);
}

#[test]
fn uncompressed_tile_has_the_documented_layout() {
    let payload: Vec<u8> = vec![10, 0, 20, 0, 30, 0, 40, 0];
    let encoded = encode_tile(TileEncodeInput {
        tile_id: 42,
        mesh_kind: MeshKind::JisX0410,
        dtype: DType::Uint16,
        endianness: Endianness::Little,
        compression: CompressionMode::Uncompressed,
        dimensions: tile_dims(),
        no_data: None,
        payload: &payload,
    })
    .expect("encode tile");

    let bytes = &encoded.bytes;
    assert_eq!(bytes.len(), 58 + 8);
    assert_eq!(&bytes[0..4], b"MTI1");
    assert_eq!(bytes[4], 1);
    assert_eq!(&bytes[5..13], &42u64.to_le_bytes());
    assert_eq!(bytes[13], 1);
    assert_eq!(bytes[14], 2);
    assert_eq!(bytes[15], 0);
    assert_eq!(&bytes[16..20], &2u32.to_le_bytes());
    assert_eq!(&bytes[20..24], &2u32.to_le_bytes());
    assert_eq!(bytes[24], 1);
    assert_eq!(bytes[25], 0);
    assert_eq!(&bytes[26..34], &[0u8; 8]);
    assert_eq!(&bytes[34..42], &8u64.to_le_bytes());
    assert_eq!(&bytes[42..50], &8u64.to_le_bytes());
    assert_eq!(&bytes[50..54], &crc32fast::hash(&payload).to_le_bytes());
    assert_eq!(&bytes[54..58], &crc32fast::hash(&bytes[0..54]).to_le_bytes());
    assert_eq!(&bytes[58..], &payload[..]);

    assert_eq!(encoded.header.payload_crc32, crc32fast::hash(&payload));
    assert_eq!(encoded.header.header_crc32, crc32fast::hash(&bytes[0..54]));
    assert_eq!(encoded.header.payload_uncompressed_bytes, 8);
    assert_eq!(encoded.header.payload_compressed_bytes, 8);

    let header = inspect_tile(bytes).expect("inspect tile");
    assert_eq!(header, encoded.header);
}

#[test]
fn deflate_tile_declares_the_length_of_its_stream() {
    let payload: Vec<u8> = vec![10, 0, 20, 0, 30, 0, 40, 0];
    let encoded = encode_tile(TileEncodeInput {
        tile_id: 42,
        mesh_kind: MeshKind::JisX0410,
        dtype: DType::Uint16,
        endianness: Endianness::Little,
        compression: CompressionMode::DeflateRaw,
        dimensions: tile_dims(),
        no_data: None,
        payload: &payload,
    })
    .expect("encode tile");

    let stream = &encoded.bytes[58..];
    assert_eq!(encoded.header.payload_compressed_bytes, stream.len() as u64);
    assert_eq!(encoded.header.payload_uncompressed_bytes, 8);
    assert_ne!(stream, &payload[..]);

    let decoded = decode_tile_minimal(&encoded.bytes).expect("decode tile");
    assert_eq!(decoded.header.tile_id, 42);
    assert_eq!(decoded.header.compression, CompressionMode::DeflateRaw);
    assert_eq!(decoded.payload, payload);
    assert_eq!(decoded.header, encoded.header);
}
