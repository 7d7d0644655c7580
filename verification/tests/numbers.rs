use ltspice_raw::layout::{expected_length, has_double, plan_layout};
use ltspice_raw::header::Header;
use ltspice_raw::numbers::{
    byte_order_of, native_byte_order, numbers_equal, read_u32, read_u64, widen,
};
use ltspice_raw::sample::read_sample;
use ltspice_raw::{ByteOrder, DataType, Encoding, Flags, Mode, ParseError, SteppedVariable, Value, VariableClass};

fn widened(x: f32) -> f64 {
    f64::from_bits(widen(x.to_bits()))
}

#[test]
fn words_in_both_byte_orders() {
    let bytes: [u8; 9] = [0x01, 0x02, 0x03, 0x04, 0x05, 0x06, 0x07, 0x08, 0x09];
    assert_eq!(read_u32(&bytes, 0, ByteOrder::LittleEndian), 0x0403_0201);
    assert_eq!(read_u32(&bytes, 0, ByteOrder::BigEndian), 0x0102_0304);
    assert_eq!(read_u32(&bytes, 5, ByteOrder::LittleEndian), 0x0908_0706);
    assert_eq!(read_u32(&bytes, 5, ByteOrder::BigEndian), 0x0607_0809);
    assert_eq!(read_u64(&bytes, 0, ByteOrder::LittleEndian), 0x0807_0605_0403_0201);
    assert_eq!(read_u64(&bytes, 0, ByteOrder::BigEndian), 0x0102_0304_0506_0708);
    assert_eq!(read_u64(&bytes, 1, ByteOrder::LittleEndian), 0x0908_0706_0504_0302);
    assert_eq!(read_u64(&[0xFF; 8], 0, ByteOrder::BigEndian), u64::MAX);
    assert_eq!(read_u32(&[0xFF; 4], 0, ByteOrder::LittleEndian), u32::MAX);
}

#[test]
fn the_byte_order_of_the_machine() {
    let order = native_byte_order();
    let number: u64 = 0x0102_0304_0506_0708;
    assert_eq!(read_u64(&number.to_ne_bytes(), 0, order), number);
    assert_eq!(read_u32(&0x0102_0304u32.to_ne_bytes(), 0, order), 0x0102_0304);
    let x: f64 = -1234.5e-6;
    assert_eq!(read_u64(&x.to_ne_bytes(), 0, order), x.to_bits());
    if order == ByteOrder::LittleEndian {
        assert_eq!(number.to_ne_bytes(), number.to_le_bytes());
    } else {
        assert_eq!(number.to_ne_bytes(), number.to_be_bytes());
    }
}

#[test]
fn the_byte_order_of_a_reading() {
    assert_eq!(byte_order_of(1), ByteOrder::LittleEndian);
    assert_eq!(byte_order_of(256), ByteOrder::BigEndian);
    assert_eq!(byte_order_of(u16::from_le_bytes([1, 0])), ByteOrder::LittleEndian);
    assert_eq!(byte_order_of(u16::from_be_bytes([1, 0])), ByteOrder::BigEndian);
    assert_eq!(byte_order_of(u16::from_ne_bytes([1, 0])), native_byte_order());
}

#[test]
fn samples_of_each_type() {
    let mut bytes: Vec<u8> = Vec::new();
    bytes.extend_from_slice(&1.5f32.to_le_bytes());
    bytes.extend_from_slice(&(-2.25f64).to_le_bytes());
    bytes.extend_from_slice(&3.0e10f64.to_le_bytes());
    let single = read_sample(&bytes, 0, DataType::Float32, ByteOrder::LittleEndian);
    assert_eq!(f64::from_bits(single.real_bits), 1.5);
    assert_eq!(single.imaginary_bits, 0);
    let double = read_sample(&bytes, 4, DataType::Float64, ByteOrder::LittleEndian);
    assert_eq!(f64::from_bits(double.real_bits), -2.25);
    assert_eq!(double.imaginary_bits, 0);
    let complex = read_sample(&bytes, 4, DataType::Complex128, ByteOrder::LittleEndian);
    assert_eq!(f64::from_bits(complex.real_bits), -2.25);
    assert_eq!(f64::from_bits(complex.imaginary_bits), 3.0e10);
    assert_eq!(DataType::Float32.byte_width(), 4);
    assert_eq!(DataType::Float64.byte_width(), 8);
    assert_eq!(DataType::Complex128.byte_width(), 16);
    assert_eq!(Encoding::UTF8.code_unit_width(), 1);
    assert_eq!(Encoding::ASCII.code_unit_width(), 1);
    assert_eq!(Encoding::UTF16.code_unit_width(), 2);
    assert_eq!(Encoding::UTF32.code_unit_width(), 4);
}

#[test]
fn widening_known_numbers() {
    assert_eq!(widen(0x0000_0000), 0x0000_0000_0000_0000);
    assert_eq!(widen(0x8000_0000), 0x8000_0000_0000_0000);
    assert_eq!(widen(0x3F80_0000), 0x3FF0_0000_0000_0000);
    assert_eq!(widen(0xC000_0000), 0xC000_0000_0000_0000);
    assert_eq!(widen(0x7F80_0000), 0x7FF0_0000_0000_0000);
    assert_eq!(widen(0xFF80_0000), 0xFFF0_0000_0000_0000);
    // The largest and the smallest normal number, and the two ends of the
    // subnormal range.
    assert_eq!(widen(0x7F7F_FFFF), 0x47EF_FFFF_E000_0000);
    assert_eq!(widen(0x0080_0000), 0x3810_0000_0000_0000);
    assert_eq!(widen(0x007F_FFFF), 0x380F_FFFF_C000_0000);
    assert_eq!(widen(0x0000_0001), 0x36A0_0000_0000_0000);
    assert_eq!(widen(0x8000_0001), 0xB6A0_0000_0000_0000);
    assert_eq!(widen(0x3DCC_CCCD), 0x3FB9_9999_A000_0000);
    assert_eq!(widened(0.1), 0.1f32 as f64);
    assert_eq!(widened(0.1), 0.100000001490116119384765625);
}

#[test]
fn widening_keeps_the_number() {
    let mut exponent: u32 = 0;
    while exponent < 255 {
        for fraction in [0u32, 1, 2, 3, 0x7F_FFFF, 0x40_0000, 0x3F_FFFF, 0x12_3456, 0x00_0100] {
            for sign in [0u32, 0x8000_0000] {
                let bits: u32 = sign | (exponent << 23) | fraction;
                let x = f32::from_bits(bits);
                assert_eq!(widen(bits), (x as f64).to_bits(), "{:08x}", bits);
            }
        }
        exponent += 1;
    }
    // Every subnormal number with a single bit, and its neighbours.
    let mut place: u32 = 0;
    while place < 23 {
        for bits in [1u32 << place, (1u32 << place) + 1, (1u32 << place).wrapping_sub(1)] {
            assert_eq!(widen(bits), (f32::from_bits(bits) as f64).to_bits(), "{:08x}", bits);
        }
        place += 1;
    }
    let mut state: u32 = 0x2545_F491;
    let mut round: u32 = 0;
    while round < 200_000 {
        state = state.wrapping_mul(1_664_525).wrapping_add(1_013_904_223);
        let x = f32::from_bits(state);
        if !x.is_nan() {
            assert_eq!(widen(state), (x as f64).to_bits(), "{:08x}", state);
        }
        round += 1;
    }
}

#[test]
fn widening_keeps_a_nan_a_nan() {
    for bits in [0x7FC0_0000u32, 0x7F80_0001, 0xFFFF_FFFF, 0x7FBF_FFFF, 0xFF80_0100] {
        let wide = f64::from_bits(widen(bits));
        assert!(wide.is_nan(), "{:08x}", bits);
        assert_eq!(wide.is_sign_negative(), f32::from_bits(bits).is_sign_negative());
        // The payload is kept and the quiet bit is set.
        assert_eq!(
            widen(bits),
            (((bits >> 31) as u64) << 63)
                | 0x7FF8_0000_0000_0000
                | (((bits & 0x7F_FFFF) as u64) << 29)
        );
    }
}

#[test]
fn numbers_compare_as_numbers() {
    let numbers: [f64; 14] = [
        0.0,
        -0.0,
        1.0,
        -1.0,
        f64::MIN_POSITIVE,
        5.0e-324,
        -5.0e-324,
        f64::MAX,
        f64::MIN,
        f64::INFINITY,
        f64::NEG_INFINITY,
        f64::NAN,
        -f64::NAN,
        f64::from_bits(0x7FF0_0000_0000_0001),
    ];
    for a in numbers {
        for b in numbers {
            assert_eq!(numbers_equal(a.to_bits(), b.to_bits()), a == b, "{:?} {:?}", a, b);
        }
    }
    assert!(numbers_equal(0x8000_0000_0000_0000, 0));
    assert!(!numbers_equal(0x7FF8_0000_0000_0000, 0x7FF8_0000_0000_0000));
    assert!(numbers_equal(0x7FF0_0000_0000_0000, 0x7FF0_0000_0000_0000));
    assert!(!numbers_equal(0x7FF0_0000_0000_0000, 0xFFF0_0000_0000_0000));
}

#[test]
fn samples_compare_by_both_parts() {
    let value = |re: f64, im: f64| Value { real_bits: re.to_bits(), imaginary_bits: im.to_bits() };
    assert!(value(1.0, 2.0) == value(1.0, 2.0));
    assert!(value(0.0, -0.0) == value(-0.0, 0.0));
    assert!(value(1.0, 2.0) != value(1.0, 2.5));
    assert!(value(1.0, 2.0) != value(1.5, 2.0));
    assert!(value(f64::NAN, 0.0) != value(f64::NAN, 0.0));
    assert!(value(0.0, f64::NAN) != value(0.0, f64::NAN));
    assert!(value(1.0e-320, 0.0) == value(1.0e-320, 0.0));
}

#[test]
fn the_expected_length_of_a_payload() {
    // 6 points of 8 bytes and 6 * (2 - 1) samples of 4 bytes.
    assert_eq!(expected_length(6, 2, DataType::Float64, DataType::Float32), 72);
    assert_eq!(expected_length(6, 2, DataType::Float64, DataType::Float64), 96);
    assert_eq!(expected_length(3, 3, DataType::Complex128, DataType::Complex128), 144);
    assert_eq!(expected_length(1027, 5, DataType::Float64, DataType::Float32), 1027 * 8 + 1027 * 4 * 4);
    assert_eq!(expected_length(0, 7, DataType::Float64, DataType::Float32), 0);
    assert_eq!(expected_length(5, 1, DataType::Float64, DataType::Float32), 40);
    assert_eq!(expected_length(5, 0, DataType::Float64, DataType::Float32), 20);
    assert_eq!(expected_length(5, 0, DataType::Float32, DataType::Complex128), -60);
    assert_eq!(
        expected_length(u32::MAX, u32::MAX, DataType::Complex128, DataType::Complex128),
        16 * (u32::MAX as i128) * (u32::MAX as i128)
    );
}

fn header(mode: Mode, flags: Vec<Flags>, points: u32, variables: u32, declared: usize) -> Header {
    Header {
        mode,
        flags,
        points,
        variables,
        declared: (0..declared)
            .map(|i| SteppedVariable { class: VariableClass::Unknown, name: format!("x({})", i) })
            .collect(),
        date: None,
        unknown: Vec::new(),
    }
}

#[test]
fn the_layout_that_a_header_implies() {
    let layout = plan_layout(&header(Mode::Transient, vec![Flags::Real], 6, 2, 1), 72).unwrap();
    assert_eq!(layout.x_type, DataType::Float64);
    assert_eq!(layout.y_type, DataType::Float32);
    assert_eq!(layout.points, 6);
    assert_eq!(layout.dependents, 1);
    let layout = plan_layout(&header(Mode::Noise, vec![Flags::Double], 6, 2, 1), 96).unwrap();
    assert_eq!(layout.y_type, DataType::Float64);
    // A complex mode outranks the flag.
    for mode in [Mode::AC, Mode::FFT] {
        let layout = plan_layout(&header(mode, vec![Flags::Double], 2, 3, 2), 96).unwrap();
        assert_eq!(layout.x_type, DataType::Complex128);
        assert_eq!(layout.y_type, DataType::Complex128);
    }
    for mode in [Mode::Transient, Mode::DC, Mode::Noise, Mode::OperatingPoint] {
        let layout = plan_layout(&header(mode, Vec::new(), 2, 3, 2), 32).unwrap();
        assert_eq!(layout.x_type, DataType::Float64);
        assert_eq!(layout.y_type, DataType::Float32);
    }
    assert!(Mode::AC.is_complex());
    assert!(Mode::FFT.is_complex());
    assert!(!Mode::OperatingPoint.is_complex());
    assert!(has_double(&vec![Flags::Real, Flags::Double]));
    assert!(!has_double(&vec![Flags::Real, Flags::Stepped]));
    assert!(!has_double(&Vec::new()));
}

#[test]
fn a_layout_that_does_not_fit() {
    let mismatch = Err(ParseError::LayoutMismatch);
    assert_eq!(plan_layout(&header(Mode::Transient, Vec::new(), 6, 2, 1), 71), mismatch);
    assert_eq!(plan_layout(&header(Mode::Transient, Vec::new(), 6, 2, 1), 73), mismatch);
    assert_eq!(plan_layout(&header(Mode::Transient, Vec::new(), 6, 2, 1), 0), mismatch);
    assert_eq!(plan_layout(&header(Mode::Transient, Vec::new(), 6, 2, 0), 48), mismatch);
    assert_eq!(plan_layout(&header(Mode::Transient, Vec::new(), 6, 2, 2), 96), mismatch);
    assert_eq!(plan_layout(&header(Mode::Transient, Vec::new(), 0, 0, 0), 0), mismatch);
    assert_eq!(plan_layout(&header(Mode::Transient, Vec::new(), 5, 0, 0), 20), mismatch);
    assert!(plan_layout(&header(Mode::Transient, Vec::new(), 0, 1, 0), 0).is_ok());
    assert!(plan_layout(&header(Mode::Transient, Vec::new(), 0, 4, 3), 0).is_ok());
}
