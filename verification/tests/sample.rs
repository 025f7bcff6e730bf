#![allow(non_snake_case)]
use audioadapter::sample::{
    F32_BE, F32_LE, F64_BE, F64_LE,
    BytesSample, ALAW, I16_BE, I16_LE, I24_4LJ_BE, I24_4LJ_LE, I24_4RJ_BE, I24_4RJ_LE, I24_BE, I24_LE,
    I32_BE, I32_LE, I64_BE, I64_LE, I8, MULAW, U16_BE, U16_LE, U24_4LJ_BE, U24_4LJ_LE, U24_4RJ_BE,
    U24_4RJ_LE, U24_BE, U24_LE, U32_BE, U32_LE, U64_BE, U64_LE, U8,
};

#[test]
fn test_I8() {
    assert_eq!(I8::BYTES_PER_SAMPLE, 1);
    assert_eq!(I8::zero().to_number(), 0);
    assert_eq!(I8::from_slice(&[0x80]).to_number(), i8::MIN);

    for number in [0, 1, -1, 100, i8::MIN, i8::MAX] {
        let wrapped = I8::from_number(number);
        assert_eq!(
            wrapped.as_slice(),
            number.to_le_bytes(),
            "bytes for {number}"
        );
        assert_eq!(wrapped.to_number(), number, "roundtrip of {number}");
    }
}

#[test]
fn test_U8() {
    assert_eq!(U8::BYTES_PER_SAMPLE, 1);
    assert_eq!(U8::zero().to_number(), 0);
    assert_eq!(U8::from_slice(&[0x80]).to_number(), 128);

    for number in [0, 1, 128, 200, u8::MAX] {
        let wrapped = U8::from_number(number);
        assert_eq!(
            wrapped.as_slice(),
            number.to_le_bytes(),
            "bytes for {number}"
        );
        assert_eq!(wrapped.to_number(), number, "roundtrip of {number}");
    }
}

#[test]
fn test_I24_LE() {
    let number = i32::MAX / 5 * 4;

    // make sure LSB is zero
    let number = number >> 8;
    let number = number << 8;

    let allbytes = number.to_le_bytes();
    // Little-endian stores the LSB at the smallest address.
    // Drop the LSB!
    let bytes = [allbytes[1], allbytes[2], allbytes[3]];

    let wrapped = I24_LE::from_slice(&bytes);
    assert_eq!(number, wrapped.to_number());
}

#[test]
fn test_I24_BE() {
    let number = i32::MAX / 5 * 4;

    // make sure LSB is zero
    let number = number >> 8;
    let number = number << 8;

    let allbytes = number.to_be_bytes();
    // Big-endian stores the LSB at the largest address.
    // Drop the LSB!
    let bytes = [allbytes[0], allbytes[1], allbytes[2]];

    let wrapped = I24_BE::from_slice(&bytes);
    assert_eq!(number, wrapped.to_number());
}

#[test]
fn test_I24_4RJ_LE() {
    let number = i32::MAX / 5 * 4;

    // make sure LSB is zero
    let number = number >> 8;
    let number = number << 8;

    let allbytes = number.to_le_bytes();
    // Little-endian stores the LSB at the smallest address.
    // Drop the LSB and insert padding at MSB!
    let bytes = [allbytes[1], allbytes[2], allbytes[3], 0];

    let wrapped = I24_4RJ_LE::from_slice(&bytes);
    assert_eq!(number, wrapped.to_number());
}

#[test]
fn test_I24_4RJ_BE() {
    let number = i32::MAX / 5 * 4;

    // make sure LSB is zero
    let number = number >> 8;
    let number = number << 8;

    let allbytes = number.to_be_bytes();
    // Big-endian stores the LSB at the largest address.
    // Drop the LSB and insert padding at MSB!
    let bytes = [0, allbytes[0], allbytes[1], allbytes[2]];

    let wrapped = I24_4RJ_BE::from_slice(&bytes);
    assert_eq!(number, wrapped.to_number());
}

#[test]
fn test_I24_4LJ_LE() {
    let number = i32::MAX / 5 * 4;

    // make sure LSB is zero
    let number = number >> 8;
    let number = number << 8;

    let allbytes = number.to_le_bytes();
    // Little-endian stores the LSB at the smallest address.
    // Put a zero at LSB and keep the rest unchanged.
    let bytes = [0, allbytes[1], allbytes[2], allbytes[3]];

    let wrapped = I24_4LJ_LE::from_slice(&bytes);
    assert_eq!(number, wrapped.to_number());
}

#[test]
fn test_I24_4LJ_BE() {
    let number = i32::MAX / 5 * 4;

    // make sure LSB is zero
    let number = number >> 8;
    let number = number << 8;

    let allbytes = number.to_be_bytes();
    // Big-endian stores the LSB at the largest address.
    // Put a zero at LSB and keep the rest unchanged.
    let bytes = [allbytes[0], allbytes[1], allbytes[2], 0];

    let wrapped = I24_4LJ_BE::from_slice(&bytes);
    assert_eq!(number, wrapped.to_number());
}

#[test]
fn test_U24_LE() {
    let number = u32::MAX / 5 * 4;

    // make sure LSB is zero
    let number = number >> 8;
    let number = number << 8;

    let allbytes = number.to_le_bytes();
    // Little-endian stores the LSB at the smallest address.
    // Drop the LSB!
    let bytes = [allbytes[1], allbytes[2], allbytes[3]];

    let wrapped = U24_LE::from_slice(&bytes);
    assert_eq!(number, wrapped.to_number());
}

#[test]
fn test_U24_BE() {
    let number = u32::MAX / 5 * 4;

    // make sure LSB is zero
    let number = number >> 8;
    let number = number << 8;

    let allbytes = number.to_be_bytes();
    // Big-endian stores the LSB at the largest address.
    // Drop the LSB!
    let bytes = [allbytes[0], allbytes[1], allbytes[2]];

    let wrapped = U24_BE::from_slice(&bytes);
    assert_eq!(number, wrapped.to_number());
}

#[test]
fn test_U24_4RJ_LE() {
    let number = u32::MAX / 5 * 4;

    // make sure LSB is zero
    let number = number >> 8;
    let number = number << 8;

    let allbytes = number.to_le_bytes();
    // Little-endian stores the LSB at the smallest address.
    // Drop the LSB and insert padding at MSB!
    let bytes = [allbytes[1], allbytes[2], allbytes[3], 0];

    let wrapped = U24_4RJ_LE::from_slice(&bytes);
    assert_eq!(number, wrapped.to_number());
}

#[test]
fn test_U24_4RJ_BE() {
    let number = u32::MAX / 5 * 4;

    // make sure LSB is zero
    let number = number >> 8;
    let number = number << 8;

    let allbytes = number.to_be_bytes();
    // Big-endian stores the LSB at the largest address.
    // Drop the LSB and insert padding at MSB!
    let bytes = [0, allbytes[0], allbytes[1], allbytes[2]];

    let wrapped = U24_4RJ_BE::from_slice(&bytes);
    assert_eq!(number, wrapped.to_number());
}

#[test]
fn test_U24_4LJ_LE() {
    let number = u32::MAX / 5 * 4;

    // make sure LSB is zero
    let number = number >> 8;
    let number = number << 8;

    let allbytes = number.to_le_bytes();
    // Little-endian stores the LSB at the smallest address.
    // Put a zero at LSB and keep the rest unchanged.
    let bytes = [0, allbytes[1], allbytes[2], allbytes[3]];

    let wrapped = U24_4LJ_LE::from_slice(&bytes);
    assert_eq!(number, wrapped.to_number());
}

#[test]
fn test_U24_4LJ_BE() {
    let number = u32::MAX / 5 * 4;

    // make sure LSB is zero
    let number = number >> 8;
    let number = number << 8;

    let allbytes = number.to_be_bytes();
    // Big-endian stores the LSB at the largest address.
    // Put a zero at LSB and keep the rest unchanged.
    let bytes = [allbytes[0], allbytes[1], allbytes[2], 0];

    let wrapped = U24_4LJ_BE::from_slice(&bytes);
    assert_eq!(number, wrapped.to_number());
}

// ----- G.711 companded formats -----
//
// The numeric type is wider than these formats, so the roundtrip property
// of the linear formats does not apply. A number does not survive a
// roundtrip unless it happens to be one of the 256 representable values.
// What does hold is that encoding is idempotent, and that every code word
// survives a roundtrip through its numeric value.

#[test]
fn test_ALAW() {
    assert_eq!(ALAW::BYTES_PER_SAMPLE, 1);

    // A-law has no code for exact silence, the smallest magnitudes are +-8.
    assert_eq!(ALAW::from_slice(&[0xd5]).to_number(), 8);
    assert_eq!(ALAW::from_slice(&[0x55]).to_number(), -8);
    assert_eq!(ALAW::from_number(0).as_slice(), [0xd5]);

    // The largest representable magnitudes.
    assert_eq!(ALAW::from_slice(&[0xaa]).to_number(), 32256);
    assert_eq!(ALAW::from_slice(&[0x2a]).to_number(), -32256);

    // An all zero byte is a valid code word, but it is not silence.
    assert_eq!(ALAW::zero().to_number(), -5504);
}

#[test]
fn test_MULAW() {
    assert_eq!(MULAW::BYTES_PER_SAMPLE, 1);

    // Mu-law has two codes for silence, one per sign.
    assert_eq!(MULAW::from_slice(&[0xff]).to_number(), 0);
    assert_eq!(MULAW::from_slice(&[0x7f]).to_number(), 0);
    assert_eq!(MULAW::from_number(0).as_slice(), [0xff]);

    // The largest representable magnitudes. Note that the sign bit means
    // the opposite of what it means in A-law.
    assert_eq!(MULAW::from_slice(&[0x80]).to_number(), 32124);
    assert_eq!(MULAW::from_slice(&[0x00]).to_number(), -32124);

    // An all zero byte is a valid code word, but it is not silence.
    assert_eq!(MULAW::zero().to_number(), -32124);
}


#[test]
fn convert_i16_from_I16_LE() {
    let number: i16 = <i16>::MAX / 5 * 4;
    let wrapped = I16_LE::from_slice(&number.to_le_bytes());
    assert_eq!(number, wrapped.to_number());
}

#[test]
fn convert_i16_from_I16_BE() {
    let number: i16 = <i16>::MAX / 5 * 4;
    let wrapped = I16_BE::from_slice(&number.to_be_bytes());
    assert_eq!(number, wrapped.to_number());
}

#[test]
fn convert_i32_from_I32_LE() {
    let number: i32 = <i32>::MAX / 5 * 4;
    let wrapped = I32_LE::from_slice(&number.to_le_bytes());
    assert_eq!(number, wrapped.to_number());
}

#[test]
fn convert_i32_from_I32_BE() {
    let number: i32 = <i32>::MAX / 5 * 4;
    let wrapped = I32_BE::from_slice(&number.to_be_bytes());
    assert_eq!(number, wrapped.to_number());
}

#[test]
fn convert_i64_from_I64_LE() {
    let number: i64 = <i64>::MAX / 5 * 4;
    let wrapped = I64_LE::from_slice(&number.to_le_bytes());
    assert_eq!(number, wrapped.to_number());
}

#[test]
fn convert_i64_from_I64_BE() {
    let number: i64 = <i64>::MAX / 5 * 4;
    let wrapped = I64_BE::from_slice(&number.to_be_bytes());
    assert_eq!(number, wrapped.to_number());
}

#[test]
fn convert_u16_from_U16_LE() {
    let number: u16 = <u16>::MAX / 5 * 4;
    let wrapped = U16_LE::from_slice(&number.to_le_bytes());
    assert_eq!(number, wrapped.to_number());
}

#[test]
fn convert_u16_from_U16_BE() {
    let number: u16 = <u16>::MAX / 5 * 4;
    let wrapped = U16_BE::from_slice(&number.to_be_bytes());
    assert_eq!(number, wrapped.to_number());
}

#[test]
fn convert_u32_from_U32_LE() {
    let number: u32 = <u32>::MAX / 5 * 4;
    let wrapped = U32_LE::from_slice(&number.to_le_bytes());
    assert_eq!(number, wrapped.to_number());
}

#[test]
fn convert_u32_from_U32_BE() {
    let number: u32 = <u32>::MAX / 5 * 4;
    let wrapped = U32_BE::from_slice(&number.to_be_bytes());
    assert_eq!(number, wrapped.to_number());
}

#[test]
fn convert_u64_from_U64_LE() {
    let number: u64 = <u64>::MAX / 5 * 4;
    let wrapped = U64_LE::from_slice(&number.to_le_bytes());
    assert_eq!(number, wrapped.to_number());
}

#[test]
fn convert_u64_from_U64_BE() {
    let number: u64 = <u64>::MAX / 5 * 4;
    let wrapped = U64_BE::from_slice(&number.to_be_bytes());
    assert_eq!(number, wrapped.to_number());
}

#[test]
fn roundtrip_ALAW() {
    let aliases: [u8; 0] = [];
    // Every code word survives a roundtrip via its numeric value,
    // apart from any duplicate encoding of the same value.
    for byte in 0..=u8::MAX {
        if aliases.contains(&byte) {
            continue;
        }
        let number = ALAW::from_slice(&[byte]).to_number();
        assert_eq!(
            ALAW::from_number(number).as_slice(),
            [byte],
            "code word {byte:#04x} decoded to {number}"
        );
    }

    // Encoding is idempotent.
    for number in (i16::MIN..=i16::MAX).step_by(7) {
        let once = ALAW::from_number(number).to_number();
        let twice = ALAW::from_number(once).to_number();
        assert_eq!(once, twice, "quantizing {number} is not stable");
    }

    // The decoded values never exceed the documented magnitude,
    // and the format is symmetric around zero.
    for byte in 0..=u8::MAX {
        let number = ALAW::from_slice(&[byte]).to_number();
        assert!(
            number.abs() <= 32256,
            "code word {byte:#04x} decoded to {number}"
        );
        let mirrored = ALAW::from_slice(&[byte ^ 0x80]).to_number();
        assert_eq!(number, -mirrored, "code word {byte:#04x} is not symmetric");
    }
}

#[test]
fn roundtrip_MULAW() {
    let aliases: [u8; 1] = [0x7f];
    // Every code word survives a roundtrip via its numeric value,
    // apart from any duplicate encoding of the same value.
    for byte in 0..=u8::MAX {
        if aliases.contains(&byte) {
            continue;
        }
        let number = MULAW::from_slice(&[byte]).to_number();
        assert_eq!(
            MULAW::from_number(number).as_slice(),
            [byte],
            "code word {byte:#04x} decoded to {number}"
        );
    }

    // Encoding is idempotent.
    for number in (i16::MIN..=i16::MAX).step_by(7) {
        let once = MULAW::from_number(number).to_number();
        let twice = MULAW::from_number(once).to_number();
        assert_eq!(once, twice, "quantizing {number} is not stable");
    }

    // The decoded values never exceed the documented magnitude,
    // and the format is symmetric around zero.
    for byte in 0..=u8::MAX {
        let number = MULAW::from_slice(&[byte]).to_number();
        assert!(
            number.abs() <= 32124,
            "code word {byte:#04x} decoded to {number}"
        );
        let mirrored = MULAW::from_slice(&[byte ^ 0x80]).to_number();
        assert_eq!(number, -mirrored, "code word {byte:#04x} is not symmetric");
    }
}

#[test]
fn accuracy_ALAW() {
    for value in (i16::MIN..=i16::MAX).step_by(3) {
        let encoded = ALAW::from_number(value).to_number();
        let error = (i32::from(encoded) - i32::from(value)).abs();
        if value.unsigned_abs() >= 1000 {
            let relative = f64::from(error) / f64::from(value.unsigned_abs());
            assert!(
                relative < 0.05,
                "relative error {relative} at {value} is too large, got {encoded}"
            );
        } else {
            assert!(
                error <= 16,
                "error {error} at {value} is too large, got {encoded}"
            );
        }
    }
}

#[test]
fn accuracy_MULAW() {
    for value in (i16::MIN..=i16::MAX).step_by(3) {
        let encoded = MULAW::from_number(value).to_number();
        let error = (i32::from(encoded) - i32::from(value)).abs();
        if value.unsigned_abs() >= 1000 {
            let relative = f64::from(error) / f64::from(value.unsigned_abs());
            assert!(
                relative < 0.05,
                "relative error {relative} at {value} is too large, got {encoded}"
            );
        } else {
            assert!(
                error <= 32,
                "error {error} at {value} is too large, got {encoded}"
            );
        }
    }
}

#[test]
fn linear_formats_store_numbers_exactly() {
    for number in [i16::MIN, -1, 0, 1, 12345, i16::MAX] {
        assert_eq!(I16_BE::from_number(number).to_number(), number);
        assert_eq!(I16_LE::from_number(number).to_number(), number);
    }
    for number in [i64::MIN, -1, 0, 1, 0x0102_0304_0506_0708, i64::MAX] {
        assert_eq!(I64_BE::from_number(number).to_number(), number);
        assert_eq!(I64_LE::from_number(number).to_number(), number);
    }
    for number in [0, 1, 0x8000_0000, u32::MAX] {
        assert_eq!(U32_BE::from_number(number).to_number(), number);
        assert_eq!(U32_LE::from_number(number).to_number(), number);
    }
    assert_eq!(I32_LE::from_number(0x0102_0304).as_slice(), [4, 3, 2, 1]);
    assert_eq!(I32_BE::from_number(0x0102_0304).as_slice(), [1, 2, 3, 4]);
    assert_eq!(I16_LE::from_number(-2).as_slice(), [0xfe, 0xff]);
    assert_eq!(U64_BE::from_slice(&[0, 0, 0, 0, 0, 0, 1, 2]).to_number(), 0x0102);
    assert_eq!(U16_LE::from_slice(&[0x34, 0x12]).to_number(), 0x1234);
    assert_eq!(U16_BE::from_slice(&[0x12, 0x34]).to_number(), 0x1234);
}

#[test]
fn formats_of_24_bits_clear_the_least_significant_byte() {
    let number: i32 = -0x1234_5678;
    let kept = number - number.rem_euclid(256);
    assert_eq!(I24_LE::from_number(number).to_number(), kept);
    assert_eq!(I24_BE::from_number(number).to_number(), kept);
    assert_eq!(I24_4LJ_LE::from_number(number).to_number(), kept);
    assert_eq!(I24_4RJ_BE::from_number(number).to_number(), kept);
    assert_eq!(I24_4LJ_LE::from_number(number).as_slice()[0], 0);
    assert_eq!(I24_4RJ_LE::from_number(number).as_slice()[3], 0);
    assert_eq!(I24_4LJ_BE::from_number(number).as_slice()[3], 0);
    assert_eq!(I24_4RJ_BE::from_number(number).as_slice()[0], 0);
    let unsigned: u32 = 0xfedc_ba98;
    assert_eq!(U24_LE::from_number(unsigned).to_number(), 0xfedc_ba00);
    assert_eq!(U24_4RJ_LE::from_number(unsigned).as_slice(), [0xba, 0xdc, 0xfe, 0]);
    assert_eq!(U24_4LJ_BE::from_number(unsigned).as_slice(), [0xfe, 0xdc, 0xba, 0]);
    assert_eq!(U24_4RJ_BE::from_number(unsigned).to_number(), 0xfedc_ba00);
    assert_eq!(U24_4LJ_LE::from_number(unsigned).to_number(), 0xfedc_ba00);
    assert_eq!(U24_BE::from_number(unsigned).as_slice(), [0xfe, 0xdc, 0xba]);
}

#[test]
fn samples_start_at_zero_and_accept_writes_through_their_bytes() {
    let mut sample = I32_LE::zero();
    assert_eq!(sample.to_number(), 0);
    sample.as_mut_slice().copy_from_slice(&[1, 0, 0, 0x80]);
    assert_eq!(sample.to_number(), i32::MIN + 1);
    assert_eq!(I24_4LJ_LE::BYTES_PER_SAMPLE, 4);
    assert_eq!(I24_LE::BYTES_PER_SAMPLE, 3);
    assert_eq!(U64_LE::BYTES_PER_SAMPLE, 8);
    assert_eq!(I24_LE::from_slice(&[1, 2, 3, 4, 5]).as_slice(), [1, 2, 3]);
}

#[test]
fn convert_f32_fom_F32_LE() {
    let number: f32 = 12345.0;
    let wrapped = F32_LE::from_slice(&number.to_le_bytes());
    assert_eq!(number, f32::from_bits(wrapped.to_bits()));
}

#[test]
fn convert_f32_fom_F32_BE() {
    let number: f32 = 12345.0;
    let wrapped = F32_BE::from_slice(&number.to_be_bytes());
    assert_eq!(number, f32::from_bits(wrapped.to_bits()));
}

#[test]
fn convert_f64_fom_F64_LE() {
    let number: f64 = 12345.0;
    let wrapped = F64_LE::from_slice(&number.to_le_bytes());
    assert_eq!(number, f64::from_bits(wrapped.to_bits()));
}

#[test]
fn convert_f64_fom_F64_BE() {
    let number: f64 = 12345.0;
    let wrapped = F64_BE::from_slice(&number.to_be_bytes());
    assert_eq!(number, f64::from_bits(wrapped.to_bits()));
}

#[test]
fn float_formats_store_bit_patterns() {
    let number: f64 = -0.375;
    assert_eq!(F64_BE::from_bits(number.to_bits()).as_slice(), number.to_be_bytes());
    assert_eq!(F64_LE::from_bits(number.to_bits()).as_slice(), number.to_le_bytes());
    assert_eq!(F32_LE::zero().to_bits(), 0);
    let mut sample = F32_BE::zero();
    sample.as_mut_slice().copy_from_slice(&1.5f32.to_be_bytes());
    assert_eq!(f32::from_bits(sample.to_bits()), 1.5);
}

/// The A-law value of a code word: sign, 3 bit segment and 4 bit mantissa of the
/// code word with its even bits inverted.
fn alaw_formula(code: u8) -> i32 {
    let bits = code ^ 0x55;
    let segment = ((bits >> 4) & 7) as u32;
    let mantissa = (bits & 15) as i32;
    let magnitude = if segment == 0 {
        mantissa * 16 + 8
    } else {
        (mantissa * 8 + 132) << segment
    };
    if bits >= 128 {
        magnitude
    } else {
        -magnitude
    }
}

/// The mu-law value of a code word: sign, 3 bit segment and 4 bit mantissa of the
/// complemented code word, biased by 132.
fn ulaw_formula(code: u8) -> i32 {
    let bits = code ^ 0xff;
    let segment = ((bits >> 4) & 7) as u32;
    let mantissa = (bits & 15) as i32;
    let magnitude = ((mantissa * 8 + 132) << segment) - 132;
    if bits >= 128 {
        -magnitude
    } else {
        magnitude
    }
}

#[test]
fn g711_code_words_decode_by_their_segments() {
    for code in 0..=u8::MAX {
        assert_eq!(i32::from(ALAW::from_slice(&[code]).to_number()), alaw_formula(code), "A-law {code:#04x}");
        assert_eq!(i32::from(MULAW::from_slice(&[code]).to_number()), ulaw_formula(code), "mu-law {code:#04x}");
    }
}
