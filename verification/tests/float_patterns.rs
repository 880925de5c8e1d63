use mesh_data_tile::binary32::{narrow, widen};
use mesh_data_tile::binary64::{
    is_finite, is_nan, is_negative, read_whole, whole_bits, WholeReading,
};

/// A small deterministic generator of 64-bit patterns.
fn next(state: &mut u64) -> u64 {
    *state ^= *state << 13;
    *state ^= *state >> 7;
    *state ^= *state << 17;
    *state
}

fn interesting_doubles() -> Vec<f64> {
    let mut values = vec![
        0.0,
        -0.0,
        1.0,
        -1.0,
        0.5,
        1.5,
        2.5,
        255.0,
        256.0,
        -128.0,
        65535.0,
        4294967295.0,
        4294967296.0,
        -2147483648.0,
        9007199254740992.0,
        9223372036854775808.0,
        -9223372036854775808.0,
        18446744073709551616.0,
        1e300,
        -1e300,
        f64::MAX,
        f64::MIN,
        f64::MIN_POSITIVE,
        f64::from_bits(1),
        f64::from_bits(0x000f_ffff_ffff_ffff),
        f32::MAX as f64,
        f32::MIN_POSITIVE as f64,
        f32::from_bits(1) as f64,
        (f32::from_bits(1) as f64) / 2.0,
        (f32::from_bits(1) as f64) / 2.0 * 1.000001,
        (f32::from_bits(1) as f64) * 1.5,
        (f32::from_bits(1) as f64) * 2.5,
        3.4028235677973366e38,
        3.4028235677973362e38,
        3.4028236e38,
        3.5e38,
        1.0000000596046448,
        1.0000001788139343,
        1.00000005960464477539062,
        0.1,
        1.0 / 3.0,
        16777216.0,
        16777217.0,
        16777219.0,
        1.1754942e-38,
        1.17549435e-38,
        1.401298464324817e-45,
        7.006492321624085e-46,
        7.006492321624086e-46,
        2.1019476964872256e-45,
    ];
    let negated: Vec<f64> = values.iter().map(|value| -value).collect();
    values.extend(negated);
    values
}

#[test]
fn narrow_agrees_with_the_hardware_on_chosen_values() {
    for value in interesting_doubles() {
        let expected = (value as f32).to_bits();
        assert_eq!(narrow(value.to_bits()), expected, "narrowing {value:e}");
    }
}

#[test]
fn narrow_agrees_with_the_hardware_on_many_patterns() {
    let mut state = 0x9e37_79b9_7f4a_7c15_u64;
    for _ in 0..400_000 {
        let pattern = next(&mut state);
        let value = f64::from_bits(pattern);
        if value.is_nan() {
            continue;
        }
        assert_eq!(narrow(pattern), (value as f32).to_bits(), "narrowing {pattern:#018x}");
    }
}

#[test]
fn narrow_agrees_with_the_hardware_around_binary32_values() {
    let mut state = 0x1234_5678_9abc_def1_u64;
    for _ in 0..200_000 {
        let pattern = next(&mut state) as u32;
        let centre = f32::from_bits(pattern);
        if !centre.is_finite() {
            continue;
        }
        let wide = (centre as f64).to_bits();
        for offset in [0u64, 1, 2, 0x0fff_ffff, 0x1000_0000, 0x1000_0001, 0x1fff_ffff, 0x2000_0000]
        {
            for candidate in [wide.wrapping_add(offset), wide.wrapping_sub(offset)] {
                let value = f64::from_bits(candidate);
                if value.is_nan() {
                    continue;
                }
                assert_eq!(
                    narrow(candidate),
                    (value as f32).to_bits(),
                    "narrowing {candidate:#018x}"
                );
            }
        }
    }
}

#[test]
fn narrow_keeps_a_nan_a_nan() {
    for pattern in [
        0x7ff8_0000_0000_0000_u64,
        0xfff8_0000_0000_0000,
        0x7ff0_0000_0000_0001,
        0x7ff4_0000_0000_0000,
        0x7fff_ffff_ffff_ffff,
        f64::NAN.to_bits(),
    ] {
        let slim = f32::from_bits(narrow(pattern));
        assert!(slim.is_nan(), "narrowing {pattern:#018x}");
        assert_eq!(slim.is_sign_negative(), f64::from_bits(pattern).is_sign_negative());
    }
    assert_eq!(narrow(0x7ff8_0000_0000_0000), 0x7fc0_0000);
    assert_eq!(narrow(0x7ff0_0000_0000_0001), 0x7fc0_0000);
    assert_eq!(narrow(0xfff4_0000_2000_0000), 0xffe0_0001);
}

#[test]
fn narrow_maps_infinity_to_infinity() {
    assert_eq!(narrow(f64::INFINITY.to_bits()), f32::INFINITY.to_bits());
    assert_eq!(narrow(f64::NEG_INFINITY.to_bits()), f32::NEG_INFINITY.to_bits());
}

#[test]
fn widen_agrees_with_the_hardware_on_many_patterns() {
    let mut state = 0x0dd_ba11_c0ff_ee11_u64;
    for _ in 0..400_000 {
        let pattern = next(&mut state) as u32;
        let value = f32::from_bits(pattern);
        if value.is_nan() {
            continue;
        }
        assert_eq!(widen(pattern), (value as f64).to_bits(), "widening {pattern:#010x}");
    }
}

#[test]
fn widen_agrees_with_the_hardware_on_every_subnormal_exponent() {
    for top in 0..23 {
        for low in [0u32, 1, 2, 3] {
            let pattern = (1u32 << top) | (low & ((1u32 << top) - 1));
            let value = f32::from_bits(pattern);
            assert_eq!(widen(pattern), (value as f64).to_bits());
            let negative = pattern | 0x8000_0000;
            assert_eq!(widen(negative), (f32::from_bits(negative) as f64).to_bits());
        }
    }
    for pattern in [0u32, 0x8000_0000, 0x0080_0000, 0x007f_ffff, 0x7f7f_ffff, 0x3f80_0000] {
        assert_eq!(widen(pattern), (f32::from_bits(pattern) as f64).to_bits());
    }
    assert_eq!(widen(0x7f80_0000), f64::INFINITY.to_bits());
    assert_eq!(widen(0xff80_0000), f64::NEG_INFINITY.to_bits());
}

#[test]
fn widen_keeps_a_nan_a_nan() {
    for pattern in [0x7fc0_0000_u32, 0xffc0_0000, 0x7f80_0001, 0x7fa0_0000, 0x7fff_ffff] {
        let wide = f64::from_bits(widen(pattern));
        assert!(wide.is_nan());
        assert_eq!(wide.is_sign_negative(), f32::from_bits(pattern).is_sign_negative());
    }
    assert_eq!(widen(0x7fc0_0000), 0x7ff8_0000_0000_0000);
    assert_eq!(widen(0x7f80_0001), 0x7ff8_0000_2000_0000);
}

#[test]
fn whole_bits_agrees_with_the_hardware() {
    let limit = (1i64 << 53) - 1;
    for value in [0i64, 1, -1, 2, 3, 255, -128, 65535, -32768, 4294967295, -2147483648, limit, -limit]
    {
        assert_eq!(whole_bits(value), (value as f64).to_bits(), "pattern of {value}");
    }
    let mut state = 0x5151_5151_aaaa_bbbb_u64;
    for _ in 0..200_000 {
        let value = (next(&mut state) >> 11) as i64 - (1i64 << 52);
        assert_eq!(whole_bits(value), (value as f64).to_bits(), "pattern of {value}");
    }
}

fn expected_reading(value: f64) -> WholeReading {
    if !value.is_finite() {
        WholeReading::NotFinite
    } else if value.fract() != 0.0 {
        WholeReading::Fractional
    } else if value < -9223372036854775808.0 || value >= 9223372036854775808.0 {
        WholeReading::Beyond
    } else {
        WholeReading::Whole(value as i64)
    }
}

#[test]
fn read_whole_agrees_with_the_hardware() {
    for value in interesting_doubles() {
        assert_eq!(read_whole(value.to_bits()), expected_reading(value), "reading {value:e}");
    }
    for value in [f64::INFINITY, f64::NEG_INFINITY, f64::NAN] {
        assert_eq!(read_whole(value.to_bits()), WholeReading::NotFinite);
    }
    let mut state = 0x7777_1234_4321_9999_u64;
    for _ in 0..400_000 {
        let pattern = next(&mut state);
        let value = f64::from_bits(pattern);
        assert_eq!(read_whole(pattern), expected_reading(value), "reading {pattern:#018x}");
        let whole = ((pattern >> 20) as i64 - (1i64 << 43)) as f64 * 0.25;
        assert_eq!(read_whole(whole.to_bits()), expected_reading(whole), "reading {whole:e}");
    }
}

#[test]
fn read_whole_names_each_kind_of_number() {
    assert_eq!(read_whole(3.0f64.to_bits()), WholeReading::Whole(3));
    assert_eq!(read_whole((-0.0f64).to_bits()), WholeReading::Whole(0));
    assert_eq!(read_whole(3.5f64.to_bits()), WholeReading::Fractional);
    assert_eq!(read_whole(1e30f64.to_bits()), WholeReading::Beyond);
    assert_eq!(read_whole((-9223372036854775808.0f64).to_bits()), WholeReading::Whole(i64::MIN));
    assert_eq!(read_whole(9223372036854775808.0f64.to_bits()), WholeReading::Beyond);
    assert_eq!(read_whole(f64::INFINITY.to_bits()), WholeReading::NotFinite);
}

#[test]
fn classification_agrees_with_the_hardware() {
    let mut state = 0x0f0f_0f0f_1234_5678_u64;
    for _ in 0..200_000 {
        let pattern = next(&mut state);
        let value = f64::from_bits(pattern);
        assert_eq!(is_finite(pattern), value.is_finite());
        assert_eq!(is_nan(pattern), value.is_nan());
        assert_eq!(is_negative(pattern), value.is_sign_negative());
    }
    assert!(!is_finite(f64::INFINITY.to_bits()));
    assert!(!is_nan(f64::INFINITY.to_bits()));
    assert!(is_nan(f64::NAN.to_bits()));
    assert!(is_finite(f64::MAX.to_bits()));
}
