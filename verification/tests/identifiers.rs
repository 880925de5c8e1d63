use mesh_data_tile::{
    assert_valid_xyz_tile_id, decode_tile_minimal, encode_tile, validate_tile_id_for_mesh_kind,
    CompressionMode, DType, Endianness, MeshKind, TileDimensions, TileEncodeInput, TileErrorCode,
};

fn xyz(zoom: u64, quadkey: u64) -> u64 {
    (zoom << 58) | quadkey
}

#[test]
fn every_cell_of_every_level_is_accepted() {
    for zoom in 0..=29u64 {
        let cells = 1u64 << (2 * zoom);
        for quadkey in [0, cells / 2, cells - 1] {
            assert!(assert_valid_xyz_tile_id(xyz(zoom, quadkey)).is_ok(), "{zoom}/{quadkey}");
            assert!(validate_tile_id_for_mesh_kind(xyz(zoom, quadkey), MeshKind::Xyz).is_ok());
        }
    }
}

#[test]
fn a_quadkey_beyond_its_level_is_refused() {
    for zoom in 0..=28u64 {
        let cells = 1u64 << (2 * zoom);
        for quadkey in [cells, cells + 1, (1u64 << 58) - 1] {
            let error = assert_valid_xyz_tile_id(xyz(zoom, quadkey)).expect_err("no such cell");
            assert_eq!(error.code, TileErrorCode::InvalidFieldValue);
            assert_eq!(error.message, "XYZ tile_id quadkey_integer must be < 4^zoom.");
            let same = validate_tile_id_for_mesh_kind(xyz(zoom, quadkey), MeshKind::Xyz)
                .expect_err("no such cell");
            assert_eq!(same, error);
        }
    }
}

#[test]
fn a_zoom_beyond_twenty_nine_is_refused() {
    for zoom in 30..=63u64 {
        for quadkey in [0, 1, (1u64 << 58) - 1] {
            let error = assert_valid_xyz_tile_id(xyz(zoom, quadkey)).expect_err("too deep");
            assert_eq!(error.code, TileErrorCode::InvalidFieldValue);
            assert_eq!(error.message, format!("XYZ tile_id zoom must be <= 29, got {zoom}."));
        }
    }
}

#[test]
fn the_other_mesh_kind_accepts_every_identifier() {
    for tile_id in [0, 1, u64::MAX, xyz(30, 0), xyz(1, 16), 0x1234_5678_9abc_def0] {
        assert!(validate_tile_id_for_mesh_kind(tile_id, MeshKind::JisX0410).is_ok());
    }
}

#[test]
fn mesh_kinds_and_compression_modes_have_their_codes() {
    assert_eq!(MeshKind::JisX0410.code(), 1);
    assert_eq!(MeshKind::Xyz.code(), 2);
    assert_eq!(MeshKind::from_code(1).unwrap(), MeshKind::JisX0410);
    assert_eq!(MeshKind::from_code(2).unwrap(), MeshKind::Xyz);
    assert_eq!(CompressionMode::Uncompressed.code(), 0);
    assert_eq!(CompressionMode::DeflateRaw.code(), 1);
    assert_eq!(CompressionMode::from_code(0).unwrap(), CompressionMode::Uncompressed);
    assert_eq!(CompressionMode::from_code(1).unwrap(), CompressionMode::DeflateRaw);
    assert_eq!(CompressionMode::default(), CompressionMode::Uncompressed);
    for code in [0u8, 3, 4, 255] {
        let error = MeshKind::from_code(code).expect_err("no such mesh kind");
        assert_eq!(error.code, TileErrorCode::InvalidFieldValue);
        assert_eq!(error.message, format!("Invalid mesh_kind code {code}."));
    }
    for code in [2u8, 3, 100, 255] {
        let error = CompressionMode::from_code(code).expect_err("no such mode");
        assert_eq!(error.code, TileErrorCode::InvalidFieldValue);
        assert_eq!(error.message, format!("Invalid compression code {code}."));
    }
}

/// The quadkey of a cell: the bits of its column and row, interleaved.
fn quadkey_of(zoom: u32, x: u32, y: u32) -> u64 {
    let mut quadkey = 0u64;
    for level in (0..zoom).rev() {
        let digit = ((x >> level) & 1) as u64 | ((((y >> level) & 1) as u64) << 1);
        quadkey = (quadkey << 2) | digit;
    }
    quadkey
}

#[test]
fn an_xyz_tile_keeps_its_identifier_and_its_bands() {
    let tile_id = xyz(12, quadkey_of(12, 3639, 1612));
    let values: Vec<u64> = [10.0f64, 110.0, 210.0, 20.0, 120.0, 220.0, 30.0, 130.0, 230.0, 40.0, 140.0, 240.0]
        .iter()
        .map(|value| value.to_bits())
        .collect();
    let payload =
        mesh_data_tile::encode_payload_values(DType::Uint8, Endianness::Little, &values).unwrap();
    let mut decoded_payloads = Vec::new();
    for compression in [CompressionMode::Uncompressed, CompressionMode::DeflateRaw] {
        let encoded = encode_tile(TileEncodeInput {
            tile_id,
            mesh_kind: MeshKind::Xyz,
            dtype: DType::Uint8,
            endianness: Endianness::Little,
            compression,
            dimensions: TileDimensions { rows: 2, cols: 2, bands: 3 },
            no_data: None,
            payload: &payload,
        })
        .expect("encode tile");
        let decoded = decode_tile_minimal(&encoded.bytes).expect("decode tile");
        assert_eq!(decoded.header.mesh_kind, MeshKind::Xyz);
        assert_eq!(decoded.header.compression, compression);
        assert_eq!(decoded.header.tile_id, tile_id);
        assert_eq!(decoded.header.tile_id >> 58, 12);
        assert_eq!(decoded.header.dtype, DType::Uint8);
        assert_eq!(decoded.header.dimensions, TileDimensions { rows: 2, cols: 2, bands: 3 });
        let back = mesh_data_tile::decode_payload_values(
            decoded.header.dtype,
            decoded.header.endianness,
            &decoded.payload,
        )
        .unwrap();
        assert_eq!(back, values);
        decoded_payloads.push(decoded.payload);
    }
    assert_eq!(decoded_payloads[0], decoded_payloads[1]);
}

#[test]
fn an_invalid_xyz_identifier_is_refused_before_the_payload_is_looked_at() {
    let error = encode_tile(TileEncodeInput {
        tile_id: xyz(1, 16),
        mesh_kind: MeshKind::Xyz,
        dtype: DType::Uint8,
        endianness: Endianness::Little,
        compression: CompressionMode::DeflateRaw,
        dimensions: TileDimensions { rows: 2, cols: 2, bands: 1 },
        no_data: Some(f64::NAN.to_bits()),
        payload: &[1, 2, 3],
    })
    .expect_err("should reject bad xyz tile id");
    assert_eq!(error.code, TileErrorCode::InvalidFieldValue);
    assert_eq!(error.message, "XYZ tile_id quadkey_integer must be < 4^zoom.");
}
