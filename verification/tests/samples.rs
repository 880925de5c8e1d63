use mesh_data_tile::numeric::{
    read_numeric_value, validate_integer_range, write_numeric_value,
};
use mesh_data_tile::{
    decode_payload_values, encode_payload_values, DType, Endianness, TileErrorCode,
};

const KINDS: [DType; 8] = [
    DType::Uint8,
    DType::Int8,
    DType::Uint16,
    DType::Int16,
    DType::Uint32,
    DType::Int32,
    DType::Float32,
    DType::Float64,
];

const ORDERS: [Endianness; 2] = [Endianness::Little, Endianness::Big];

fn bits(values: &[f64]) -> Vec<u64> {
    values.iter().map(|value| value.to_bits()).collect()
}

/// How a message cites a sample.
fn cited(value: f64) -> String {
    let whole = value.fract() == 0.0 && value.abs() <= 9007199254740992.0;
    if whole || !value.is_finite() {
        format!("{value}")
    } else {
        format!("{:#018x}", value.to_bits())
    }
}

fn numbers(patterns: &[u64]) -> Vec<f64> {
    patterns.iter().map(|pattern| f64::from_bits(*pattern)).collect()
}

/// The bytes that the platform writes for a sample of the kind.
fn native_bytes(dtype: DType, endianness: Endianness, value: f64) -> Vec<u8> {
    let little = endianness == Endianness::Little;
    match dtype {
        DType::Uint8 => vec![value as u8],
        DType::Int8 => (value as i8).to_le_bytes().to_vec(),
        DType::Uint16 => {
            if little { (value as u16).to_le_bytes().to_vec() } else { (value as u16).to_be_bytes().to_vec() }
        }
        DType::Int16 => {
            if little { (value as i16).to_le_bytes().to_vec() } else { (value as i16).to_be_bytes().to_vec() }
        }
        DType::Uint32 => {
            if little { (value as u32).to_le_bytes().to_vec() } else { (value as u32).to_be_bytes().to_vec() }
        }
        DType::Int32 => {
            if little { (value as i32).to_le_bytes().to_vec() } else { (value as i32).to_be_bytes().to_vec() }
        }
        DType::Float32 => {
            if little { (value as f32).to_le_bytes().to_vec() } else { (value as f32).to_be_bytes().to_vec() }
        }
        DType::Float64 => {
            if little { value.to_le_bytes().to_vec() } else { value.to_be_bytes().to_vec() }
        }
    }
}

fn in_range_values(dtype: DType) -> Vec<f64> {
    match dtype {
        DType::Uint8 => vec![0.0, 1.0, 127.0, 128.0, 255.0, -0.0],
        DType::Int8 => vec![-128.0, -1.0, 0.0, 1.0, 127.0, -0.0],
        DType::Uint16 => vec![0.0, 1.0, 255.0, 256.0, 4660.0, 65535.0],
        DType::Int16 => vec![-32768.0, -4660.0, -1.0, 0.0, 258.0, 32767.0],
        DType::Uint32 => vec![0.0, 1.0, 65536.0, 305419896.0, 4294967295.0],
        DType::Int32 => vec![-2147483648.0, -305419896.0, -1.0, 0.0, 16909060.0, 2147483647.0],
        DType::Float32 => vec![
            0.0,
            -0.0,
            1.0,
            -1.5,
            0.1f32 as f64,
            f32::MAX as f64,
            f32::MIN as f64,
            f32::MIN_POSITIVE as f64,
            f32::from_bits(1) as f64,
            16777216.0,
        ],
        DType::Float64 => vec![
            0.0,
            -0.0,
            1.0,
            -1.5,
            0.1,
            f64::MAX,
            f64::MIN,
            f64::MIN_POSITIVE,
            f64::from_bits(1),
            9007199254740993.0,
        ],
    }
}

#[test]
fn every_kind_has_its_width_and_code() {
    let widths = [1usize, 1, 2, 2, 4, 4, 4, 8];
    for (index, dtype) in KINDS.iter().enumerate() {
        assert_eq!(dtype.byte_size(), widths[index]);
        assert_eq!(dtype.code(), index as u8);
        assert_eq!(DType::from_code(index as u8).expect("a code of a kind"), *dtype);
    }
    for code in 8..=255u8 {
        let error = DType::from_code(code).expect_err("no kind has this code");
        assert_eq!(error.code, TileErrorCode::InvalidFieldValue);
        assert_eq!(error.message, format!("Unsupported packed dtype code {code}."));
    }
}

#[test]
fn every_integer_kind_has_its_range() {
    let ranges: [(DType, f64, f64); 6] = [
        (DType::Uint8, 0.0, 255.0),
        (DType::Int8, -128.0, 127.0),
        (DType::Uint16, 0.0, 65535.0),
        (DType::Int16, -32768.0, 32767.0),
        (DType::Uint32, 0.0, 4294967295.0),
        (DType::Int32, -2147483648.0, 2147483647.0),
    ];
    for (dtype, min, max) in ranges {
        for endianness in ORDERS {
            for inside in [min, max, min + 1.0, max - 1.0] {
                assert!(write_numeric_value(dtype, endianness, inside.to_bits(), false).is_ok());
            }
            for outside in [min - 1.0, max + 1.0, min * 2.0 - 2.0, max * 2.0, -1e15, 1e15] {
                let error = write_numeric_value(dtype, endianness, outside.to_bits(), false)
                    .expect_err("out of the range");
                assert_eq!(error.code, TileErrorCode::InvalidFieldValue);
                assert_eq!(error.message, format!("Out-of-range value: {outside}"));
            }
            for fractional in [min - 0.5, max + 0.5, 0.5, -0.5, 1e-300] {
                let error = write_numeric_value(dtype, endianness, fractional.to_bits(), false)
                    .expect_err("no whole number");
                assert_eq!(error.code, TileErrorCode::InvalidFieldValue);
                assert_eq!(
                    error.message,
                    format!("Non-integer value: {:#018x}", fractional.to_bits())
                );
            }
        }
    }
}

#[test]
fn samples_are_stored_as_the_platform_stores_them() {
    for dtype in KINDS {
        for endianness in ORDERS {
            for value in in_range_values(dtype) {
                let stored = write_numeric_value(dtype, endianness, value.to_bits(), false)
                    .expect("the sample is in range");
                assert_eq!(
                    stored,
                    native_bytes(dtype, endianness, value),
                    "{dtype:?} {endianness:?} {value:e}"
                );
            }
        }
    }
}

#[test]
fn chosen_samples_have_the_documented_bytes() {
    let cases: [(DType, Endianness, f64, &[u8]); 12] = [
        (DType::Uint8, Endianness::Big, 200.0, &[200]),
        (DType::Int8, Endianness::Little, -2.0, &[0xfe]),
        (DType::Uint16, Endianness::Little, 4660.0, &[0x34, 0x12]),
        (DType::Uint16, Endianness::Big, 4660.0, &[0x12, 0x34]),
        (DType::Int16, Endianness::Big, -2.0, &[0xff, 0xfe]),
        (DType::Int16, Endianness::Little, -32768.0, &[0x00, 0x80]),
        (DType::Uint32, Endianness::Little, 305419896.0, &[0x78, 0x56, 0x34, 0x12]),
        (DType::Uint32, Endianness::Big, 305419896.0, &[0x12, 0x34, 0x56, 0x78]),
        (DType::Int32, Endianness::Big, -1.0, &[0xff, 0xff, 0xff, 0xff]),
        (DType::Float32, Endianness::Big, 1.0, &[0x3f, 0x80, 0x00, 0x00]),
        (DType::Float64, Endianness::Big, 1.0, &[0x3f, 0xf0, 0, 0, 0, 0, 0, 0]),
        (DType::Float64, Endianness::Little, -2.0, &[0, 0, 0, 0, 0, 0, 0, 0xc0]),
    ];
    for (dtype, endianness, value, bytes) in cases {
        let stored = write_numeric_value(dtype, endianness, value.to_bits(), true)
            .expect("the sample is in range");
        assert_eq!(stored, bytes);
        let back = read_numeric_value(dtype, endianness, bytes).expect("the width is right");
        assert_eq!(f64::from_bits(back), value);
    }
}

#[test]
fn samples_are_read_as_the_platform_reads_them() {
    let mut state = 0x2545_f491_4f6c_dd1d_u64;
    for _ in 0..20_000 {
        state ^= state << 13;
        state ^= state >> 7;
        state ^= state << 17;
        let raw = state.to_le_bytes();
        for endianness in ORDERS {
            let little = endianness == Endianness::Little;
            let read = |dtype: DType| {
                let bytes = &raw[..dtype.byte_size()];
                f64::from_bits(read_numeric_value(dtype, endianness, bytes).expect("right width"))
            };
            let two = [raw[0], raw[1]];
            let four = [raw[0], raw[1], raw[2], raw[3]];
            assert_eq!(read(DType::Uint8), raw[0] as f64);
            assert_eq!(read(DType::Int8), raw[0] as i8 as f64);
            let expected = if little { u16::from_le_bytes(two) } else { u16::from_be_bytes(two) };
            assert_eq!(read(DType::Uint16), expected as f64);
            let expected = if little { i16::from_le_bytes(two) } else { i16::from_be_bytes(two) };
            assert_eq!(read(DType::Int16), expected as f64);
            let expected = if little { u32::from_le_bytes(four) } else { u32::from_be_bytes(four) };
            assert_eq!(read(DType::Uint32), expected as f64);
            let expected = if little { i32::from_le_bytes(four) } else { i32::from_be_bytes(four) };
            assert_eq!(read(DType::Int32), expected as f64);
            let expected = if little { f32::from_le_bytes(four) } else { f32::from_be_bytes(four) };
            if expected.is_nan() {
                assert!(read(DType::Float32).is_nan());
            } else {
                assert_eq!(read(DType::Float32).to_bits(), (expected as f64).to_bits());
            }
            let expected = if little { f64::from_le_bytes(raw) } else { f64::from_be_bytes(raw) };
            assert_eq!(read(DType::Float64).to_bits(), expected.to_bits());
        }
    }
}

#[test]
fn a_chunk_of_another_width_is_not_read() {
    for dtype in KINDS {
        for length in 0..10usize {
            let bytes = vec![0u8; length];
            let result = read_numeric_value(dtype, Endianness::Little, &bytes);
            if length == dtype.byte_size() {
                assert_eq!(result.expect("right width"), 0);
            } else {
                let error = result.expect_err("wrong width");
                assert_eq!(error.code, TileErrorCode::InvalidPayloadLength);
                assert_eq!(error.message, "Payload chunk size does not match dtype width.");
            }
        }
    }
}

#[test]
fn stored_samples_are_read_back() {
    for dtype in KINDS {
        for endianness in ORDERS {
            let values = in_range_values(dtype);
            let payload = encode_payload_values(dtype, endianness, &bits(&values))
                .expect("the samples are in range");
            assert_eq!(payload.len(), values.len() * dtype.byte_size());
            let back = decode_payload_values(dtype, endianness, &payload)
                .expect("the payload holds whole samples");
            assert_eq!(numbers(&back), values, "{dtype:?} {endianness:?}");
        }
    }
}

#[test]
fn float_samples_keep_their_pattern() {
    for endianness in ORDERS {
        let values = in_range_values(DType::Float64);
        let payload = encode_payload_values(DType::Float64, endianness, &bits(&values)).unwrap();
        let back = decode_payload_values(DType::Float64, endianness, &payload).unwrap();
        assert_eq!(back, bits(&values));

        let values = in_range_values(DType::Float32);
        let payload = encode_payload_values(DType::Float32, endianness, &bits(&values)).unwrap();
        let back = decode_payload_values(DType::Float32, endianness, &payload).unwrap();
        assert_eq!(back, bits(&values));
    }
}

#[test]
fn negative_zero_is_stored_as_zero_by_an_integer_kind() {
    for dtype in [DType::Uint8, DType::Int8, DType::Uint16, DType::Int16, DType::Uint32, DType::Int32]
    {
        let payload =
            encode_payload_values(dtype, Endianness::Big, &[(-0.0f64).to_bits()]).unwrap();
        assert_eq!(payload, vec![0u8; dtype.byte_size()]);
        let back = decode_payload_values(dtype, Endianness::Big, &payload).unwrap();
        assert_eq!(back, vec![0u64]);
    }
}

#[test]
fn float32_samples_are_rounded_to_the_nearest() {
    let values = [0.1f64, 1.0 / 3.0, 16777217.0, 1e-46, 3.4028235677973362e38, -2.5e-45];
    let payload = encode_payload_values(DType::Float32, Endianness::Little, &bits(&values))
        .expect("the samples are in range");
    let back = decode_payload_values(DType::Float32, Endianness::Little, &payload).unwrap();
    let expected: Vec<f64> = values.iter().map(|value| *value as f32 as f64).collect();
    assert_eq!(back, bits(&expected));
    assert_eq!(f64::from_bits(back[2]), 16777216.0);
    assert_eq!(f64::from_bits(back[3]), 0.0);
    assert_eq!(f64::from_bits(back[4]), f32::MAX as f64);
}

#[test]
fn a_value_that_rounds_beyond_float32_is_refused() {
    let largest = f32::MAX as f64;
    let half_unit = 2.0f64.powi(103);
    let tie = largest + half_unit;
    let below = f64::from_bits(tie.to_bits() - 1);
    assert!(write_numeric_value(DType::Float32, Endianness::Little, largest.to_bits(), true).is_ok());
    assert_eq!(
        write_numeric_value(DType::Float32, Endianness::Little, below.to_bits(), true).unwrap(),
        f32::MAX.to_le_bytes()
    );
    for value in [tie, -tie, 1e39, f64::MAX] {
        let error = write_numeric_value(DType::Float32, Endianness::Little, value.to_bits(), true)
            .expect_err("rounds to infinity");
        assert_eq!(error.code, TileErrorCode::InvalidFieldValue);
        assert_eq!(error.message, format!("Out-of-range value for float32: {}", cited(value)));
        assert!(error.message.starts_with("Out-of-range value for float32: 0x"));
    }
}

#[test]
fn a_nan_is_stored_only_where_it_is_allowed() {
    for dtype in [DType::Float32, DType::Float64] {
        for endianness in ORDERS {
            let nan = f64::NAN.to_bits();
            let error =
                write_numeric_value(dtype, endianness, nan, false).expect_err("NaN is not allowed");
            assert_eq!(error.code, TileErrorCode::InvalidFieldValue);
            assert_eq!(error.message, "Non-finite value: NaN");

            let stored = write_numeric_value(dtype, endianness, nan, true).expect("NaN is allowed");
            let back = read_numeric_value(dtype, endianness, &stored).unwrap();
            assert!(f64::from_bits(back).is_nan());

            let payload = encode_payload_values(dtype, endianness, &[nan, 1.0f64.to_bits()])
                .expect("bulk samples may be NaN");
            let back = decode_payload_values(dtype, endianness, &payload).unwrap();
            assert!(f64::from_bits(back[0]).is_nan());
            assert_eq!(f64::from_bits(back[1]), 1.0);

            for infinite in [f64::INFINITY, f64::NEG_INFINITY] {
                for allow in [false, true] {
                    let error = write_numeric_value(dtype, endianness, infinite.to_bits(), allow)
                        .expect_err("an infinity is never stored");
                    assert_eq!(error.code, TileErrorCode::InvalidFieldValue);
                    assert_eq!(error.message, format!("Non-finite value: {infinite}"));
                }
            }
        }
    }
    let payload = encode_payload_values(
        DType::Float64,
        Endianness::Little,
        &[0x7ff0_0000_0000_0001, 0xfff8_0000_0000_1234],
    )
    .unwrap();
    let back = decode_payload_values(DType::Float64, Endianness::Little, &payload).unwrap();
    assert_eq!(back, vec![0x7ff0_0000_0000_0001, 0xfff8_0000_0000_1234]);
}

#[test]
fn infinite_float32_bytes_are_read_as_infinite() {
    let bytes = f32::INFINITY.to_be_bytes();
    let back = read_numeric_value(DType::Float32, Endianness::Big, &bytes).unwrap();
    assert_eq!(f64::from_bits(back), f64::INFINITY);
    let bytes = f64::NEG_INFINITY.to_le_bytes();
    let back = read_numeric_value(DType::Float64, Endianness::Little, &bytes).unwrap();
    assert_eq!(f64::from_bits(back), f64::NEG_INFINITY);
}

#[test]
fn a_range_check_gives_the_whole_number() {
    assert_eq!(validate_integer_range(42.0f64.to_bits(), 0, 255).unwrap(), 42);
    assert_eq!(validate_integer_range((-7.0f64).to_bits(), -10, 10).unwrap(), -7);
    assert_eq!(validate_integer_range((-0.0f64).to_bits(), 0, 0).unwrap(), 0);
    assert_eq!(
        validate_integer_range((-9223372036854775808.0f64).to_bits(), i64::MIN, 0).unwrap(),
        i64::MIN
    );
    assert_eq!(
        validate_integer_range(9007199254740992.0f64.to_bits(), 0, i64::MAX).unwrap(),
        9007199254740992
    );
    let cases: [(f64, i64, i64, &str); 7] = [
        (42.0, 43, 255, "Out-of-range value: "),
        (42.0, 0, 41, "Out-of-range value: "),
        (0.5, 0, 255, "Non-integer value: "),
        (f64::MIN_POSITIVE, 0, 255, "Non-integer value: "),
        (9223372036854775808.0, i64::MIN, i64::MAX, "Out-of-range value: "),
        (f64::INFINITY, i64::MIN, i64::MAX, "Non-finite value: "),
        (f64::NAN, i64::MIN, i64::MAX, "Non-finite value: "),
    ];
    for (value, min, max, stem) in cases {
        let error = validate_integer_range(value.to_bits(), min, max).expect_err("not in range");
        assert_eq!(error.code, TileErrorCode::InvalidFieldValue);
        assert_eq!(error.message, format!("{stem}{}", cited(value)));
    }
}

#[test]
fn an_empty_sequence_of_samples_is_an_empty_payload() {
    for dtype in KINDS {
        assert_eq!(encode_payload_values(dtype, Endianness::Little, &[]).unwrap(), Vec::<u8>::new());
        assert_eq!(decode_payload_values(dtype, Endianness::Little, &[]).unwrap(), Vec::<u64>::new());
    }
}

#[test]
fn whole_numbers_are_cited_as_the_platform_writes_them() {
    let mut state = 0x1357_9bdf_0246_8ace_u64;
    for _ in 0..20_000 {
        state ^= state << 13;
        state ^= state >> 7;
        state ^= state << 17;
        let whole = (state as i64 >> (state % 60)) as f64;
        let error = validate_integer_range(whole.to_bits(), 1, 0).expect_err("the range is empty");
        assert_eq!(error.message, format!("Out-of-range value: {}", cited(whole)));
        let any = f64::from_bits(state);
        let error = validate_integer_range(any.to_bits(), 1, 0).expect_err("the range is empty");
        let stem = if !any.is_finite() {
            "Non-finite value: "
        } else if any.fract() != 0.0 {
            "Non-integer value: "
        } else {
            "Out-of-range value: "
        };
        assert_eq!(error.message, format!("{stem}{}", cited(any)));
    }
    let error = validate_integer_range((-0.0f64).to_bits(), 1, 2).expect_err("zero is outside");
    assert_eq!(error.message, "Out-of-range value: -0");
    let error = validate_integer_range(0.0f64.to_bits(), 1, 2).expect_err("zero is outside");
    assert_eq!(error.message, "Out-of-range value: 0");
}
