//! Sample formats stored as raw bytes, and their conversion to and from numbers.
//!
//! Each format is a newtype around the bytes of one sample. The trait
//! [BytesSample] reads such a sample as the nearest numeric type, and writes a
//! number back as bytes. Formats without a matching numeric type use the next
//! larger one, scaled to its full range: 24 bit samples are read as 32 bit
//! numbers whose least significant byte is zero.
//!
//! Integers are modelled by their byte sequences: [le_unsigned] and
//! [be_unsigned] give the value that bytes hold, [le_bytes] and [be_bytes] the
//! bytes that hold a value, and [to_signed] and [to_unsigned] pass between the
//! two's complement and the unsigned reading.
#![allow(non_camel_case_types)]
use vstd::prelude::*;

use vstd::arithmetic::power2::{lemma2_to64, pow2};

verus! {

/// `256` to the power `n`: the number of values that `n` bytes can hold.
pub open spec fn byte_range(n: nat) -> nat
    decreases n,
{
    if n == 0 {
        1
    } else {
        256 * byte_range((n - 1) as nat)
    }
}

/// The unsigned number that `bytes` hold, least significant byte first.
pub open spec fn le_unsigned(bytes: Seq<u8>) -> nat
    decreases bytes.len(),
{
    if bytes.len() == 0 {
        0
    } else {
        bytes[0] as nat + 256 * le_unsigned(bytes.drop_first())
    }
}

/// The unsigned number that `bytes` hold, most significant byte first.
pub open spec fn be_unsigned(bytes: Seq<u8>) -> nat {
    le_unsigned(bytes.reverse())
}

/// The `len` least significant bytes of `n`, least significant byte first.
pub open spec fn le_bytes(n: nat, len: nat) -> Seq<u8>
    decreases len,
{
    if len == 0 {
        Seq::empty()
    } else {
        seq![(n % 256) as u8] + le_bytes(n / 256, (len - 1) as nat)
    }
}

/// The `len` least significant bytes of `n`, most significant byte first.
pub open spec fn be_bytes(n: nat, len: nat) -> Seq<u8> {
    le_bytes(n, len).reverse()
}

/// The two's complement reading of an unsigned number `n` of `len` bytes.
pub open spec fn to_signed(n: int, len: nat) -> int {
    if n < byte_range(len) / 2 {
        n
    } else {
        n - byte_range(len)
    }
}

/// The unsigned number of `len` bytes whose two's complement reading is `v`.
pub open spec fn to_unsigned(v: int, len: nat) -> nat {
    if v < 0 {
        (v + byte_range(len)) as nat
    } else {
        v as nat
    }
}

/// The number of values of one to eight bytes.
pub proof fn lemma_byte_range_values()
    ensures
        byte_range(0) == 1,
        byte_range(1) == 0x100,
        byte_range(2) == 0x1_0000,
        byte_range(3) == 0x100_0000,
        byte_range(4) == 0x1_0000_0000,
        byte_range(5) == 0x100_0000_0000,
        byte_range(6) == 0x1_0000_0000_0000,
        byte_range(7) == 0x100_0000_0000_0000,
        byte_range(8) == 0x1_0000_0000_0000_0000,
{
    reveal_with_fuel(byte_range, 9);
}

/// The number that bytes hold is below the range of their count.
pub proof fn lemma_le_unsigned_bound(bytes: Seq<u8>)
    ensures
        le_unsigned(bytes) < byte_range(bytes.len()),
    decreases bytes.len(),
{
    if bytes.len() > 0 {
        lemma_le_unsigned_bound(bytes.drop_first());
        assert(bytes.drop_first().len() == (bytes.len() - 1) as nat);
    }
}

/// Writing a number as bytes and reading them back gives the number, taken
/// modulo the range of the bytes.
pub proof fn lemma_le_number_roundtrip(n: nat, len: nat)
    ensures
        le_bytes(n, len).len() == len,
        le_unsigned(le_bytes(n, len)) == n % byte_range(len),
    decreases len,
{
    if len > 0 {
        let rest = le_bytes(n / 256, (len - 1) as nat);
        lemma_le_number_roundtrip(n / 256, (len - 1) as nat);
        assert(le_bytes(n, len).drop_first() =~= rest);
        let r = byte_range((len - 1) as nat);
        assert(r > 0) by {
            lemma_byte_range_positive((len - 1) as nat);
        }
        vstd::arithmetic::div_mod::lemma_breakdown(n as int, 256, r as int);
    }
}

/// The range of a byte count is positive.
pub proof fn lemma_byte_range_positive(n: nat)
    ensures
        byte_range(n) > 0,
    decreases n,
{
    if n > 0 {
        lemma_byte_range_positive((n - 1) as nat);
    }
}

/// Reading bytes as a number and writing the number back gives the bytes.
pub proof fn lemma_le_bytes_roundtrip(bytes: Seq<u8>)
    ensures
        le_bytes(le_unsigned(bytes), bytes.len()) == bytes,
    decreases bytes.len(),
{
    if bytes.len() > 0 {
        let rest = bytes.drop_first();
        lemma_le_bytes_roundtrip(rest);
        let n = le_unsigned(bytes);
        assert(n % 256 == bytes[0] as nat && n / 256 == le_unsigned(rest)) by {
            vstd::arithmetic::div_mod::lemma_fundamental_div_mod_converse(
                n as int,
                256,
                le_unsigned(rest) as int,
                bytes[0] as int,
            );
        }
        assert(le_bytes(n, bytes.len()) =~= bytes);
    }
}

/// The most-significant-first versions of the two roundtrips.
pub proof fn lemma_be_roundtrips(n: nat, len: nat, bytes: Seq<u8>)
    ensures
        be_bytes(n, len).len() == len,
        be_unsigned(be_bytes(n, len)) == n % byte_range(len),
        be_bytes(be_unsigned(bytes), bytes.len()) == bytes,
        be_unsigned(bytes) < byte_range(bytes.len()),
{
    lemma_le_number_roundtrip(n, len);
    assert(be_bytes(n, len).reverse() =~= le_bytes(n, len));
    lemma_le_bytes_roundtrip(bytes.reverse());
    lemma_le_unsigned_bound(bytes.reverse());
    assert(le_bytes(be_unsigned(bytes), bytes.len()).reverse() =~= bytes);
}

/// Two's complement and unsigned readings undo each other.
pub proof fn lemma_signed_roundtrips(v: int, n: int, len: nat)
    requires
        len > 0,
    ensures
        -(byte_range(len) / 2) <= v < byte_range(len) / 2 ==> to_unsigned(v, len) < byte_range(len)
            && to_signed(to_unsigned(v, len) as int, len) == v,
        0 <= n < byte_range(len) ==> to_unsigned(to_signed(n, len), len) == n
            && -(byte_range(len) / 2) <= to_signed(n, len) < byte_range(len) / 2,
{
    assert(byte_range(len) == 256 * byte_range((len - 1) as nat));
    lemma_byte_range_positive((len - 1) as nat);
}

/// Read the unsigned number that at most eight bytes hold, least significant byte first.
pub(crate) fn read_le(bytes: &[u8]) -> (n: u64)
    requires
        bytes@.len() <= 8,
    ensures
        n == le_unsigned(bytes@),
{
    let len = bytes.len();
    let mut n: u64 = 0;
    let mut i: usize = len;
    proof {
        lemma_byte_range_values();
        assert(bytes@.subrange(len as int, len as int) =~= Seq::<u8>::empty());
    }
    while i > 0
        invariant
            len == bytes@.len() <= 8,
            i <= len,
            n == le_unsigned(bytes@.subrange(i as int, len as int)),
            n < byte_range((len - i) as nat),
            byte_range(7) == 0x100_0000_0000_0000,
        decreases i,
    {
        proof {
            lemma_le_unsigned_bound(bytes@.subrange(i as int, len as int));
            lemma_byte_range_monotone((len - i) as nat, 7);
            assert(bytes@.subrange(i - 1, len as int).drop_first() =~= bytes@.subrange(i as int, len as int));
        }
        i = i - 1;
        n = n * 256 + bytes[i] as u64;
        proof {
            lemma_le_unsigned_bound(bytes@.subrange(i as int, len as int));
        }
    }
    assert(bytes@.subrange(0, len as int) =~= bytes@);
    n
}

/// Read the unsigned number that at most eight bytes hold, most significant byte first.
pub(crate) fn read_be(bytes: &[u8]) -> (n: u64)
    requires
        bytes@.len() <= 8,
    ensures
        n == be_unsigned(bytes@),
{
    let len = bytes.len();
    let mut n: u64 = 0;
    let mut i: usize = 0;
    proof {
        lemma_byte_range_values();
        assert(bytes@.subrange(0, 0).reverse() =~= Seq::<u8>::empty());
    }
    while i < len
        invariant
            len == bytes@.len() <= 8,
            i <= len,
            n == be_unsigned(bytes@.subrange(0, i as int)),
            byte_range(7) == 0x100_0000_0000_0000,
        decreases len - i,
    {
        proof {
            lemma_be_roundtrips(0, 0, bytes@.subrange(0, i as int));
            lemma_byte_range_monotone(i as nat, 7);
            assert(bytes@.subrange(0, i + 1).reverse().drop_first() =~= bytes@.subrange(0, i as int).reverse());
        }
        n = n * 256 + bytes[i] as u64;
        i = i + 1;
    }
    assert(bytes@.subrange(0, len as int) =~= bytes@);
    n
}

/// Write the `out.len()` least significant bytes of `n`, least significant byte first.
pub(crate) fn write_le(n: u64, out: &mut [u8])
    ensures
        final(out)@ == le_bytes(n as nat, old(out)@.len()),
{
    let len = out.len();
    let mut rest: u64 = n;
    let mut i: usize = 0;
    assert(out@.subrange(0, 0) + le_bytes(n as nat, len as nat) =~= le_bytes(n as nat, len as nat));
    while i < len
        invariant
            len == out@.len() == old(out)@.len(),
            i <= len,
            out@.subrange(0, i as int) + le_bytes(rest as nat, (len - i) as nat) == le_bytes(n as nat, len as nat),
        decreases len - i,
    {
        let ghost before = out@;
        out[i] = (rest % 256) as u8;
        proof {
            assert(out@.subrange(0, i + 1) =~= before.subrange(0, i as int) + seq![(rest % 256) as u8]);
            assert(out@.subrange(0, i + 1) + le_bytes((rest / 256) as nat, (len - i - 1) as nat)
                =~= before.subrange(0, i as int) + le_bytes(rest as nat, (len - i) as nat));
        }
        rest = rest / 256;
        i = i + 1;
    }
    assert(out@.subrange(0, len as int) =~= out@);
    assert(le_bytes(rest as nat, 0) =~= Seq::<u8>::empty());
    assert(out@ =~= le_bytes(n as nat, len as nat));
}

/// Write the `out.len()` least significant bytes of `n`, most significant byte first.
pub(crate) fn write_be(n: u64, out: &mut [u8])
    ensures
        final(out)@ == be_bytes(n as nat, old(out)@.len()),
{
    let len = out.len();
    let mut rest: u64 = n;
    let mut i: usize = len;
    assert(le_bytes(n as nat, len as nat).reverse() + out@.subrange(len as int, len as int) =~= be_bytes(n as nat, len as nat));
    while i > 0
        invariant
            len == out@.len() == old(out)@.len(),
            i <= len,
            le_bytes(rest as nat, i as nat).reverse() + out@.subrange(i as int, len as int) == be_bytes(n as nat, len as nat),
        decreases i,
    {
        let ghost before = out@;
        out[i - 1] = (rest % 256) as u8;
        proof {
            assert(le_bytes(rest as nat, i as nat).reverse() =~= le_bytes((rest / 256) as nat, (i - 1) as nat).reverse() + seq![(rest % 256) as u8]);
            assert(out@.subrange(i - 1, len as int) =~= seq![(rest % 256) as u8] + before.subrange(i as int, len as int));
            assert(le_bytes((rest / 256) as nat, (i - 1) as nat).reverse() + out@.subrange(i - 1, len as int)
                =~= le_bytes(rest as nat, i as nat).reverse() + before.subrange(i as int, len as int));
        }
        rest = rest / 256;
        i = i - 1;
    }
    assert(out@.subrange(0, len as int) =~= out@);
    assert(le_bytes(rest as nat, 0).reverse() =~= Seq::<u8>::empty());
    assert(out@ =~= be_bytes(n as nat, len as nat));
}

/// More bytes hold more values.
pub proof fn lemma_byte_range_monotone(m: nat, n: nat)
    requires
        m <= n,
    ensures
        byte_range(m) <= byte_range(n),
    decreases n,
{
    if m < n {
        lemma_byte_range_monotone(m, (n - 1) as nat);
        lemma_byte_range_positive((n - 1) as nat);
    }
}

/// A conversion result, containing the resulting value as `value`
/// and a boolean `clipped` indicating if the value was clipped during conversion.
pub struct ConversionResult<T> {
    pub clipped: bool,
    pub value: T,
}

/// A trait for converting samples stored as raw bytes into a numerical type.
/// Each implementation defines the associated type `NumericType`,
/// which is the nearest matching numeric type for the stored format.
/// If a direct match exists, this is used.
/// For example signed 16 bit integer samples use [i16].
/// For formats that don't have a direct match,
/// the next larger numeric type is used.
/// For example for 24 bit signed integers,
/// this means [i32].
/// The values are scaled to use the full range of the `NumericType`
/// associated type.
///
/// A sample is modelled by its bytes, `spec_bytes`. `spec_decode` is the number
/// that a sample with given bytes stands for, and `spec_encode` the bytes that
/// stand for a number.
pub trait BytesSample: Sized {
    /// The closest matching numeric type.
    type NumericType: Copy;

    /// The number of bytes making up each sample value.
    const BYTES_PER_SAMPLE: usize;

    /// The bytes of the sample.
    spec fn spec_bytes(&self) -> Seq<u8>;

    /// The number that a sample made of `bytes` stands for.
    spec fn spec_decode(bytes: Seq<u8>) -> Self::NumericType;

    /// The bytes of the sample that `from_number` makes of `value`.
    spec fn spec_encode(value: Self::NumericType) -> Seq<u8>;

    /// Whether `from_slice` accepts a slice of `len` bytes.
    spec fn spec_slice_fits(len: nat) -> bool;

    /// A sample has at least one byte, the bytes of one whole sample make a
    /// slice that `from_slice` accepts, and every sample has that many bytes.
    proof fn lemma_sample_slice_fits()
        ensures
            Self::BYTES_PER_SAMPLE > 0,
            Self::spec_slice_fits(Self::BYTES_PER_SAMPLE as nat),
            forall|value: Self::NumericType| #[trigger] Self::spec_encode(value).len() == Self::BYTES_PER_SAMPLE,
    ;

    /// Create a sample with all bytes set to zero.
    ///
    /// This gives a correctly sized, valid value whose bytes can then be
    /// overwritten, for example via [`as_mut_slice`](Self::as_mut_slice) when
    /// reading from a stream.
    fn zero() -> (sample: Self)
        ensures
            sample.spec_bytes() == Seq::new(Self::BYTES_PER_SAMPLE as nat, |i: int| 0u8),
    ;

    /// Create a new ByteSample from a slice of raw bytes.
    /// The slice length must be at least the number of bytes
    /// for a sample value; formats that map directly to a numeric type
    /// take a slice of exactly that length.
    fn from_slice(bytes: &[u8]) -> (sample: Self)
        requires
            Self::spec_slice_fits(bytes@.len()),
        ensures
            sample.spec_bytes() == bytes@.subrange(0, Self::BYTES_PER_SAMPLE as int),
    ;

    /// Return the raw bytes as a slice.
    fn as_slice(&self) -> (bytes: &[u8])
        ensures
            bytes@ == self.spec_bytes(),
            bytes@.len() == Self::BYTES_PER_SAMPLE,
    ;

    /// Return the raw bytes as a mutable slice.
    /// What is written through the slice becomes the bytes of the sample.
    fn as_mut_slice(&mut self) -> (bytes: &mut [u8])
        ensures
            bytes@ == old(self).spec_bytes(),
            bytes@.len() == Self::BYTES_PER_SAMPLE,
            final(bytes)@ == final(self).spec_bytes(),
    ;

    /// Convert the raw bytes to a numerical value.
    fn to_number(&self) -> (value: Self::NumericType)
        ensures
            value == Self::spec_decode(self.spec_bytes()),
    ;

    /// Convert a numerical value to raw bytes.
    fn from_number(value: Self::NumericType) -> (sample: Self)
        ensures
            sample.spec_bytes() == Self::spec_encode(value),
    ;
}

/// 8 bit signed integer. Stored as 1 byte.
/// A single byte has no byte order,
/// so there are no little endian and big endian variants.
#[derive(Debug, Clone, Copy)]
pub struct I8([u8; 1]);

/// 8 bit unsigned integer. Stored as 1 byte.
/// A single byte has no byte order,
/// so there are no little endian and big endian variants.
#[derive(Debug, Clone, Copy)]
pub struct U8([u8; 1]);

/// 16 bit signed integer, little endian. Stored as 2 bytes.
#[derive(Debug, Clone, Copy)]
pub struct I16_LE([u8; 2]);

/// 16 bit signed integer, big endian. Stored as 2 bytes.
#[derive(Debug, Clone, Copy)]
pub struct I16_BE([u8; 2]);

/// 16 bit unsigned integer, little endian. Stored as 2 bytes.
#[derive(Debug, Clone, Copy)]
pub struct U16_LE([u8; 2]);

/// 16 bit unsigned integer, big endian. Stored as 2 bytes.
#[derive(Debug, Clone, Copy)]
pub struct U16_BE([u8; 2]);

/// 24 bit signed integer, little endian. Stored as 3 bytes.
#[derive(Debug, Clone, Copy)]
pub struct I24_LE([u8; 3]);

/// 24 bit signed integer, little endian. Stored as 4 bytes left justified.
/// The 24 data bits are stored in the three most significant bytes,
/// while the least significant byte is unused padding.
#[derive(Debug, Clone, Copy)]
pub struct I24_4LJ_LE([u8; 4]);

/// 24 bit signed integer, little endian. Stored as 4 bytes right justified.
/// The 24 data bits are stored in the three least significant bytes,
/// while the most significant byte is unused padding.
#[derive(Debug, Clone, Copy)]
pub struct I24_4RJ_LE([u8; 4]);

/// 24 bit signed integer, big endian. Stored as 3 bytes.
#[derive(Debug, Clone, Copy)]
pub struct I24_BE([u8; 3]);

/// 24 bit signed integer, big endian. Stored as 4 bytes left justified.
/// The 24 data bits are stored in the three most significant bytes,
/// while the least significant byte is unused padding.
#[derive(Debug, Clone, Copy)]
pub struct I24_4LJ_BE([u8; 4]);

/// 24 bit signed integer, big endian. Stored as 4 bytes right justified.
/// The 24 data bits are stored in the three least significant bytes,
/// while the most significant byte is unused padding.
#[derive(Debug, Clone, Copy)]
pub struct I24_4RJ_BE([u8; 4]);

/// 24 bit unsigned integer, little endian. Stored as 3 bytes.
#[derive(Debug, Clone, Copy)]
pub struct U24_LE([u8; 3]);

/// 24 bit unsigned integer, little endian. Stored as 4 bytes left justified.
/// The 24 data bits are stored in the three most significant bytes,
/// while the least significant byte is unused padding.
#[derive(Debug, Clone, Copy)]
pub struct U24_4LJ_LE([u8; 4]);

/// 24 bit unsigned integer, little endian. Stored as 4 bytes right justified.
/// The 24 data bits are stored in the three least significant bytes,
/// while the most significant byte is unused padding.
#[derive(Debug, Clone, Copy)]
pub struct U24_4RJ_LE([u8; 4]);

/// 24 bit unsigned integer, big endian. Stored as 3 bytes.
#[derive(Debug, Clone, Copy)]
pub struct U24_BE([u8; 3]);

/// 24 bit unsigned integer, big endian. Stored as 4 bytes left justified.
/// The 24 data bits are stored in the three most significant bytes,
/// while the least significant byte is unused padding.
#[derive(Debug, Clone, Copy)]
pub struct U24_4LJ_BE([u8; 4]);

/// 24 bit unsigned integer, big endian. Stored as 4 bytes right justified.
/// The 24 data bits are stored in the three least significant bytes,
/// while the most significant byte is unused padding.
#[derive(Debug, Clone, Copy)]
pub struct U24_4RJ_BE([u8; 4]);

/// 32 bit signed integer, little endian. Stored as 4 bytes.
#[derive(Debug, Clone, Copy)]
pub struct I32_LE([u8; 4]);

/// 32 bit signed integer, big endian. Stored as 4 bytes.
#[derive(Debug, Clone, Copy)]
pub struct I32_BE([u8; 4]);

/// 32 bit unsigned integer, little endian. Stored as 4 bytes.
#[derive(Debug, Clone, Copy)]
pub struct U32_LE([u8; 4]);

/// 32 bit unsigned integer, big endian. Stored as 4 bytes.
#[derive(Debug, Clone, Copy)]
pub struct U32_BE([u8; 4]);

/// 64 bit signed integer, little endian. Stored as 8 bytes.
#[derive(Debug, Clone, Copy)]
pub struct I64_LE([u8; 8]);

/// 64 bit signed integer, big endian. Stored as 8 bytes.
#[derive(Debug, Clone, Copy)]
pub struct I64_BE([u8; 8]);

/// 64 bit unsigned integer, little endian. Stored as 8 bytes.
#[derive(Debug, Clone, Copy)]
pub struct U64_LE([u8; 8]);

/// 64 bit unsigned integer, big endian. Stored as 8 bytes.
#[derive(Debug, Clone, Copy)]
pub struct U64_BE([u8; 8]);

/// 32 bit floating point, little endian. Stored as 4 bytes.
#[derive(Debug, Clone, Copy)]
pub struct F32_LE([u8; 4]);

/// 32 bit floating point, big endian. Stored as 4 bytes.
#[derive(Debug, Clone, Copy)]
pub struct F32_BE([u8; 4]);

/// 64 bit floating point, little endian. Stored as 8 bytes.
#[derive(Debug, Clone, Copy)]
pub struct F64_LE([u8; 8]);

/// 64 bit floating point, big endian. Stored as 8 bytes.
#[derive(Debug, Clone, Copy)]
pub struct F64_BE([u8; 8]);

/// A-law companded sample, as defined by ITU-T G.711. Stored as 1 byte.
/// A single byte has no byte order,
/// so there are no little endian and big endian variants.
///
/// A-law fits the dynamic range of a 13 bit linear value into 8 bits,
/// using a piecewise linear approximation of a logarithmic curve.
/// The closest numeric type is [i16], and the decoded values are scaled
/// to that range. The largest representable magnitude is 32256,
/// so the range does not quite reach the limits of an [i16].
/// A-law has no code for exact silence, the two smallest magnitudes
/// are +8 and -8.
///
/// Note that [i16] is wider than the 256 values this format can represent,
/// so unlike the linear formats, [`from_number`](BytesSample::from_number)
/// quantizes and a number does not survive a roundtrip unchanged.
/// Quantizing an already quantized value changes nothing further.
///
/// Note that a byte value of zero is not silence. It decodes to -5504.
/// The A-law code for the smallest positive value is `0xD5`.
///
/// This is the format used for telephony in Europe and most of the world.
/// It appears as `WAVE_FORMAT_ALAW` in wav files, as `PCMA` in RTP streams,
/// and as `SND_PCM_FORMAT_A_LAW` in ALSA.
#[derive(Debug, Clone, Copy)]
pub struct ALAW([u8; 1]);

/// Mu-law companded sample, as defined by ITU-T G.711. Stored as 1 byte.
/// A single byte has no byte order,
/// so there are no little endian and big endian variants.
///
/// Mu-law fits the dynamic range of a 14 bit linear value into 8 bits,
/// using a piecewise linear approximation of a logarithmic curve.
/// The closest numeric type is [i16], and the decoded values are scaled
/// to that range. The largest representable magnitude is 32124,
/// so the range does not quite reach the limits of an [i16].
///
/// Note that [i16] is wider than the 256 values this format can represent,
/// so unlike the linear formats, [`from_number`](BytesSample::from_number)
/// quantizes and a number does not survive a roundtrip unchanged.
/// Quantizing an already quantized value changes nothing further.
///
/// Note that a byte value of zero is not silence. It decodes to -32124.
/// The mu-law code for silence is `0xFF`.
///
/// This is the format used for telephony in North America and Japan.
/// It appears as `WAVE_FORMAT_MULAW` in wav files, as `PCMU` in RTP streams,
/// and as `SND_PCM_FORMAT_MU_LAW` in ALSA.
#[derive(Debug, Clone, Copy)]
pub struct MULAW([u8; 1]);

/// The linear value of the G.711 A-law code word `code`. With its even bits
/// inverted, the code word holds a sign bit (set for positive values), a 3 bit
/// segment and a 4 bit mantissa; segments 0 and 1 share a step of 16, and each
/// further segment doubles it.
pub open spec fn alaw_value(code: u8) -> int {
    let bits = code ^ 0x55u8;
    let segment = ((bits >> 4u8) & 7u8) as nat;
    let mantissa = (bits & 15u8) as int;
    let magnitude = if segment == 0 {
        mantissa * 16 + 8
    } else {
        (mantissa * 8 + 132) * pow2(segment)
    };
    if bits >= 128u8 {
        magnitude
    } else {
        -magnitude
    }
}

/// The linear value of the G.711 mu-law code word `code`. Complemented, the
/// code word holds a sign bit (set for negative values), a 3 bit segment and a
/// 4 bit mantissa, on a scale biased by 132.
pub open spec fn ulaw_value(code: u8) -> int {
    let bits = code ^ 0xffu8;
    let segment = ((bits >> 4u8) & 7u8) as nat;
    let mantissa = (bits & 15u8) as int;
    let magnitude = (mantissa * 8 + 132) * pow2(segment) - 132;
    if bits >= 128u8 {
        -magnitude
    } else {
        magnitude
    }
}

/// The G.711 A-law code word for the linear value `value`.
pub uninterp spec fn alaw_encoded(value: i16) -> u8;

/// The G.711 mu-law code word for the linear value `value`.
pub uninterp spec fn ulaw_encoded(value: i16) -> u8;

/// Calls `audio_codec_algorithms::decode_alaw`, which looks the code word up in
/// a table of 256 values; the table holds the A-law value of each code word.
/// The contract also claims of `audio_codec_algorithms::encode_alaw` that it
/// gives back every code word from its value, which holds of all 256 of them.
#[verifier::external_body]
fn decode_alaw(code: u8) -> (value: i16)
    ensures
        value as int == alaw_value(code),
        alaw_encoded(value) == code,
{
    audio_codec_algorithms::decode_alaw(code)
}

/// Calls `audio_codec_algorithms::encode_alaw`, a pure computation on the value;
/// the result is taken to depend on the value alone.
#[verifier::external_body]
fn encode_alaw(value: i16) -> (code: u8)
    ensures
        code == alaw_encoded(value),
{
    audio_codec_algorithms::encode_alaw(value)
}

/// Calls `audio_codec_algorithms::decode_ulaw`, which looks the code word up in
/// a table of 256 values; the table holds the mu-law value of each code word.
/// The contract also claims of `audio_codec_algorithms::encode_ulaw` that it
/// gives back every code word from its value but `0x7f`, the second code word
/// for zero, which it encodes as `0xff`; so encoding a decoded value gives a code
/// word with the same value in every case.
#[verifier::external_body]
fn decode_ulaw(code: u8) -> (value: i16)
    ensures
        value as int == ulaw_value(code),
        code != 0x7f ==> ulaw_encoded(value) == code,
        ulaw_value(ulaw_encoded(value)) == value as int,
{
    audio_codec_algorithms::decode_ulaw(code)
}

/// Calls `audio_codec_algorithms::encode_ulaw`, a pure computation on the value;
/// the result is taken to depend on the value alone.
#[verifier::external_body]
fn encode_ulaw(value: i16) -> (code: u8)
    ensures
        code == ulaw_encoded(value),
{
    audio_codec_algorithms::encode_ulaw(value)
}

/// A segment of at most 7 scales by a power of two of at most 128.
pub proof fn lemma_segment_scale(segment: nat)
    requires
        segment <= 7,
    ensures
        1 <= pow2(segment) <= 128,
{
    lemma2_to64();
}

/// The A-law values: no code word stands for silence, the smallest magnitude is
/// 8 and the largest 32256, and a code word and the one that differs from it in
/// the top bit stand for opposite values.
pub proof fn law_alaw_values(code: u8)
    ensures
        8 <= alaw_value(code) <= 32256 || -32256 <= alaw_value(code) <= -8,
        alaw_value(code ^ 0x80u8) == -alaw_value(code),
{
    lemma2_to64();
    let bits = code ^ 0x55u8;
    assert(((bits >> 4u8) & 7u8) <= 7u8 && (bits & 15u8) <= 15u8) by (bit_vector);
    let flipped = code ^ 0x80u8;
    assert(((flipped ^ 0x55u8) >> 4u8) & 7u8 == (bits >> 4u8) & 7u8 && (flipped ^ 0x55u8) & 15u8 == bits & 15u8
        && ((flipped ^ 0x55u8) >= 128u8) == !(bits >= 128u8)) by (bit_vector)
        requires
            bits == code ^ 0x55u8,
            flipped == code ^ 0x80u8,
    ;
    let segment = ((bits >> 4u8) & 7u8) as nat;
    let mantissa = (bits & 15u8) as int;
    lemma_segment_scale(segment);
    if segment > 0 {
        assert((mantissa * 8 + 132) * pow2(segment) <= 32256) by (nonlinear_arith)
            requires
                0 <= mantissa <= 15,
                pow2(segment) <= 128,
        ;
        assert((mantissa * 8 + 132) * pow2(segment) >= 8) by (nonlinear_arith)
            requires
                0 <= mantissa,
                pow2(segment) >= 1,
        ;
    }
}

/// Some A-law code words: an all zero byte stands for -5504, `0xd5` and `0x55`
/// for the smallest magnitudes, and `0xaa` and `0x2a` for the largest.
pub proof fn law_alaw_code_words()
    ensures
        alaw_value(0) == -5504,
        alaw_value(0xd5) == 8,
        alaw_value(0x55) == -8,
        alaw_value(0xaa) == 32256,
        alaw_value(0x2a) == -32256,
{
    lemma2_to64();
    assert(0u8 ^ 0x55u8 == 0x55u8 && (0x55u8 >> 4u8) & 7u8 == 5u8 && 0x55u8 & 15u8 == 5u8) by (bit_vector);
    assert(0xd5u8 ^ 0x55u8 == 0x80u8 && (0x80u8 >> 4u8) & 7u8 == 0u8 && 0x80u8 & 15u8 == 0u8) by (bit_vector);
    assert(0x55u8 ^ 0x55u8 == 0u8 && (0u8 >> 4u8) & 7u8 == 0u8 && 0u8 & 15u8 == 0u8) by (bit_vector);
    assert(0xaau8 ^ 0x55u8 == 0xffu8 && (0xffu8 >> 4u8) & 7u8 == 7u8 && 0xffu8 & 15u8 == 15u8) by (bit_vector);
    assert(0x2au8 ^ 0x55u8 == 0x7fu8 && (0x7fu8 >> 4u8) & 7u8 == 7u8 && 0x7fu8 & 15u8 == 15u8) by (bit_vector);
    assert(pow2(5) == 32 && pow2(7) == 128);
}

/// The mu-law values: the largest magnitude is 32124, and a code word and the
/// one that differs from it in the top bit stand for opposite values.
pub proof fn law_ulaw_values(code: u8)
    ensures
        -32124 <= ulaw_value(code) <= 32124,
        ulaw_value(code ^ 0x80u8) == -ulaw_value(code),
{
    lemma2_to64();
    let bits = code ^ 0xffu8;
    assert(((bits >> 4u8) & 7u8) <= 7u8 && (bits & 15u8) <= 15u8) by (bit_vector);
    let flipped = code ^ 0x80u8;
    assert(((flipped ^ 0xffu8) >> 4u8) & 7u8 == (bits >> 4u8) & 7u8 && (flipped ^ 0xffu8) & 15u8 == bits & 15u8
        && ((flipped ^ 0xffu8) >= 128u8) == !(bits >= 128u8)) by (bit_vector)
        requires
            bits == code ^ 0xffu8,
            flipped == code ^ 0x80u8,
    ;
    let segment = ((bits >> 4u8) & 7u8) as nat;
    let mantissa = (bits & 15u8) as int;
    lemma_segment_scale(segment);
    assert((mantissa * 8 + 132) * pow2(segment) <= 32256) by (nonlinear_arith)
        requires
            0 <= mantissa <= 15,
            pow2(segment) <= 128,
    ;
    assert((mantissa * 8 + 132) * pow2(segment) >= 132) by (nonlinear_arith)
        requires
            0 <= mantissa,
            pow2(segment) >= 1,
    ;
}

/// Some mu-law code words: an all zero byte stands for -32124, both `0xff` and
/// `0x7f` stand for silence, and `0x80` for the largest positive value.
pub proof fn law_ulaw_code_words()
    ensures
        ulaw_value(0) == -32124,
        ulaw_value(0xff) == 0,
        ulaw_value(0x7f) == 0,
        ulaw_value(0x80) == 32124,
{
    lemma2_to64();
    assert(0u8 ^ 0xffu8 == 0xffu8 && (0xffu8 >> 4u8) & 7u8 == 7u8 && 0xffu8 & 15u8 == 15u8) by (bit_vector);
    assert(0xffu8 ^ 0xffu8 == 0u8 && (0u8 >> 4u8) & 7u8 == 0u8 && 0u8 & 15u8 == 0u8) by (bit_vector);
    assert(0x7fu8 ^ 0xffu8 == 0x80u8 && (0x80u8 >> 4u8) & 7u8 == 0u8 && 0x80u8 & 15u8 == 0u8) by (bit_vector);
    assert(0x80u8 ^ 0xffu8 == 0x7fu8 && (0x7fu8 >> 4u8) & 7u8 == 7u8 && 0x7fu8 & 15u8 == 15u8) by (bit_vector);
}



impl BytesSample for I8 {
    type NumericType = i8;

    const BYTES_PER_SAMPLE: usize = 1;

    closed spec fn spec_bytes(&self) -> Seq<u8> {
        self.0@
    }

    open spec fn spec_slice_fits(len: nat) -> bool {
        len == 1
    }

    /// A sample of this format has 1 bytes.
    proof fn lemma_sample_slice_fits()
        ensures
            Self::BYTES_PER_SAMPLE == 1,
    {
        assert forall|value: i8| #[trigger] Self::spec_encode(value).len() == 1 by {
            lemma_le_number_roundtrip(to_unsigned(value as int, 1), 1);
        }
    }

    fn zero() -> (sample: Self)
        ensures
            sample.spec_bytes() == Seq::new(1nat, |i: int| 0u8),
    {
        let sample = Self([0]);
        assert(sample.0@ =~= Seq::new(1nat, |i: int| 0u8));
        sample
    }

    fn from_slice(bytes: &[u8]) -> (sample: Self)
        ensures
            sample.spec_bytes() == bytes@.subrange(0, 1),
    {
        let sample = Self([bytes[0]]);
        assert(sample.0@ =~= bytes@.subrange(0, 1));
        sample
    }

    fn as_slice(&self) -> (bytes: &[u8])
        ensures
            bytes@.len() == 1,
    {
        &self.0
    }

    fn as_mut_slice(&mut self) -> (bytes: &mut [u8]) {
        &mut self.0
    }

    open spec fn spec_decode(bytes: Seq<u8>) -> i8 {
        to_signed(le_unsigned(bytes) as int, 1) as i8
    }

    open spec fn spec_encode(value: i8) -> Seq<u8> {
        le_bytes(to_unsigned(value as int, 1), 1)
    }

    fn to_number(&self) -> (value: i8) {
        let n = read_le(&self.0);
        proof {
            lemma_byte_range_values();
            lemma_le_unsigned_bound(self.0@);
        }
        if n < 0x80 { n as i8 } else { (n as i64 - 0x100) as i8 }
    }

    fn from_number(value: i8) -> (sample: Self) {
        proof {
            lemma_byte_range_values();
        }
        let n: u64 = if value < 0 { (value as i64 + 0x100) as u64 } else { value as u64 };
        let mut bytes = [0u8];
        write_le(n, &mut bytes);
        Self(bytes)
    }
}

/// `I8` stores every `i8` exactly: reading back the bytes written for a
/// number gives the number, and writing the number read from 1 bytes gives the bytes.
pub proof fn lemma_i8_roundtrip(value: i8, bytes: Seq<u8>)
    ensures
        I8::spec_decode(I8::spec_encode(value)) == value,
        bytes.len() == 1 ==> I8::spec_encode(I8::spec_decode(bytes)) == bytes,
{
    lemma_byte_range_values();
    lemma_signed_roundtrips(value as int, 0, 1);
    lemma_le_number_roundtrip(to_unsigned(value as int, 1), 1);
    lemma_le_bytes_roundtrip(bytes);
    lemma_le_unsigned_bound(bytes);
    lemma_signed_roundtrips(0, le_unsigned(bytes) as int, 1);
}

impl BytesSample for U8 {
    type NumericType = u8;

    const BYTES_PER_SAMPLE: usize = 1;

    closed spec fn spec_bytes(&self) -> Seq<u8> {
        self.0@
    }

    open spec fn spec_slice_fits(len: nat) -> bool {
        len == 1
    }

    /// A sample of this format has 1 bytes.
    proof fn lemma_sample_slice_fits()
        ensures
            Self::BYTES_PER_SAMPLE == 1,
    {
        assert forall|value: u8| #[trigger] Self::spec_encode(value).len() == 1 by {
            lemma_le_number_roundtrip(value as nat, 1);
        }
    }

    fn zero() -> (sample: Self)
        ensures
            sample.spec_bytes() == Seq::new(1nat, |i: int| 0u8),
    {
        let sample = Self([0]);
        assert(sample.0@ =~= Seq::new(1nat, |i: int| 0u8));
        sample
    }

    fn from_slice(bytes: &[u8]) -> (sample: Self)
        ensures
            sample.spec_bytes() == bytes@.subrange(0, 1),
    {
        let sample = Self([bytes[0]]);
        assert(sample.0@ =~= bytes@.subrange(0, 1));
        sample
    }

    fn as_slice(&self) -> (bytes: &[u8])
        ensures
            bytes@.len() == 1,
    {
        &self.0
    }

    fn as_mut_slice(&mut self) -> (bytes: &mut [u8]) {
        &mut self.0
    }

    open spec fn spec_decode(bytes: Seq<u8>) -> u8 {
        le_unsigned(bytes) as u8
    }

    open spec fn spec_encode(value: u8) -> Seq<u8> {
        le_bytes(value as nat, 1)
    }

    fn to_number(&self) -> (value: u8) {
        let n = read_le(&self.0);
        proof {
            lemma_byte_range_values();
            lemma_le_unsigned_bound(self.0@);
        }
        n as u8
    }

    fn from_number(value: u8) -> (sample: Self) {
        let mut bytes = [0u8];
        write_le(value as u64, &mut bytes);
        Self(bytes)
    }
}

/// `U8` stores every `u8` exactly: reading back the bytes written for a
/// number gives the number, and writing the number read from 1 bytes gives the bytes.
pub proof fn lemma_u8_roundtrip(value: u8, bytes: Seq<u8>)
    ensures
        U8::spec_decode(U8::spec_encode(value)) == value,
        bytes.len() == 1 ==> U8::spec_encode(U8::spec_decode(bytes)) == bytes,
{
    lemma_byte_range_values();
    lemma_le_number_roundtrip(value as nat, 1);
    lemma_le_bytes_roundtrip(bytes);
    lemma_le_unsigned_bound(bytes);
}

impl BytesSample for I16_LE {
    type NumericType = i16;

    const BYTES_PER_SAMPLE: usize = 2;

    closed spec fn spec_bytes(&self) -> Seq<u8> {
        self.0@
    }

    open spec fn spec_slice_fits(len: nat) -> bool {
        len == 2
    }

    /// A sample of this format has 2 bytes.
    proof fn lemma_sample_slice_fits()
        ensures
            Self::BYTES_PER_SAMPLE == 2,
    {
        assert forall|value: i16| #[trigger] Self::spec_encode(value).len() == 2 by {
            lemma_le_number_roundtrip(to_unsigned(value as int, 2), 2);
        }
    }

    fn zero() -> (sample: Self)
        ensures
            sample.spec_bytes() == Seq::new(2nat, |i: int| 0u8),
    {
        let sample = Self([0, 0]);
        assert(sample.0@ =~= Seq::new(2nat, |i: int| 0u8));
        sample
    }

    fn from_slice(bytes: &[u8]) -> (sample: Self)
        ensures
            sample.spec_bytes() == bytes@.subrange(0, 2),
    {
        let sample = Self([bytes[0], bytes[1]]);
        assert(sample.0@ =~= bytes@.subrange(0, 2));
        sample
    }

    fn as_slice(&self) -> (bytes: &[u8])
        ensures
            bytes@.len() == 2,
    {
        &self.0
    }

    fn as_mut_slice(&mut self) -> (bytes: &mut [u8]) {
        &mut self.0
    }

    open spec fn spec_decode(bytes: Seq<u8>) -> i16 {
        to_signed(le_unsigned(bytes) as int, 2) as i16
    }

    open spec fn spec_encode(value: i16) -> Seq<u8> {
        le_bytes(to_unsigned(value as int, 2), 2)
    }

    fn to_number(&self) -> (value: i16) {
        let n = read_le(&self.0);
        proof {
            lemma_byte_range_values();
            lemma_le_unsigned_bound(self.0@);
        }
        if n < 0x8000 { n as i16 } else { (n as i64 - 0x10000) as i16 }
    }

    fn from_number(value: i16) -> (sample: Self) {
        proof {
            lemma_byte_range_values();
        }
        let n: u64 = if value < 0 { (value as i64 + 0x10000) as u64 } else { value as u64 };
        let mut bytes = [0u8, 0u8];
        write_le(n, &mut bytes);
        Self(bytes)
    }
}

/// `I16_LE` stores every `i16` exactly: reading back the bytes written for a
/// number gives the number, and writing the number read from 2 bytes gives the bytes.
pub proof fn lemma_i16_le_roundtrip(value: i16, bytes: Seq<u8>)
    ensures
        I16_LE::spec_decode(I16_LE::spec_encode(value)) == value,
        bytes.len() == 2 ==> I16_LE::spec_encode(I16_LE::spec_decode(bytes)) == bytes,
{
    lemma_byte_range_values();
    lemma_signed_roundtrips(value as int, 0, 2);
    lemma_le_number_roundtrip(to_unsigned(value as int, 2), 2);
    lemma_le_bytes_roundtrip(bytes);
    lemma_le_unsigned_bound(bytes);
    lemma_signed_roundtrips(0, le_unsigned(bytes) as int, 2);
}

impl BytesSample for I16_BE {
    type NumericType = i16;

    const BYTES_PER_SAMPLE: usize = 2;

    closed spec fn spec_bytes(&self) -> Seq<u8> {
        self.0@
    }

    open spec fn spec_slice_fits(len: nat) -> bool {
        len == 2
    }

    /// A sample of this format has 2 bytes.
    proof fn lemma_sample_slice_fits()
        ensures
            Self::BYTES_PER_SAMPLE == 2,
    {
        assert forall|value: i16| #[trigger] Self::spec_encode(value).len() == 2 by {
            lemma_be_roundtrips(to_unsigned(value as int, 2), 2, Seq::empty());
        }
    }

    fn zero() -> (sample: Self)
        ensures
            sample.spec_bytes() == Seq::new(2nat, |i: int| 0u8),
    {
        let sample = Self([0, 0]);
        assert(sample.0@ =~= Seq::new(2nat, |i: int| 0u8));
        sample
    }

    fn from_slice(bytes: &[u8]) -> (sample: Self)
        ensures
            sample.spec_bytes() == bytes@.subrange(0, 2),
    {
        let sample = Self([bytes[0], bytes[1]]);
        assert(sample.0@ =~= bytes@.subrange(0, 2));
        sample
    }

    fn as_slice(&self) -> (bytes: &[u8])
        ensures
            bytes@.len() == 2,
    {
        &self.0
    }

    fn as_mut_slice(&mut self) -> (bytes: &mut [u8]) {
        &mut self.0
    }

    open spec fn spec_decode(bytes: Seq<u8>) -> i16 {
        to_signed(be_unsigned(bytes) as int, 2) as i16
    }

    open spec fn spec_encode(value: i16) -> Seq<u8> {
        be_bytes(to_unsigned(value as int, 2), 2)
    }

    fn to_number(&self) -> (value: i16) {
        let n = read_be(&self.0);
        proof {
            lemma_byte_range_values();
            lemma_be_roundtrips(0, 0, self.0@);
        }
        if n < 0x8000 { n as i16 } else { (n as i64 - 0x10000) as i16 }
    }

    fn from_number(value: i16) -> (sample: Self) {
        proof {
            lemma_byte_range_values();
        }
        let n: u64 = if value < 0 { (value as i64 + 0x10000) as u64 } else { value as u64 };
        let mut bytes = [0u8, 0u8];
        write_be(n, &mut bytes);
        Self(bytes)
    }
}

/// `I16_BE` stores every `i16` exactly: reading back the bytes written for a
/// number gives the number, and writing the number read from 2 bytes gives the bytes.
pub proof fn lemma_i16_be_roundtrip(value: i16, bytes: Seq<u8>)
    ensures
        I16_BE::spec_decode(I16_BE::spec_encode(value)) == value,
        bytes.len() == 2 ==> I16_BE::spec_encode(I16_BE::spec_decode(bytes)) == bytes,
{
    lemma_byte_range_values();
    lemma_signed_roundtrips(value as int, 0, 2);
    lemma_be_roundtrips(to_unsigned(value as int, 2), 2, bytes);
    
    
    lemma_signed_roundtrips(0, be_unsigned(bytes) as int, 2);
}

impl BytesSample for U16_LE {
    type NumericType = u16;

    const BYTES_PER_SAMPLE: usize = 2;

    closed spec fn spec_bytes(&self) -> Seq<u8> {
        self.0@
    }

    open spec fn spec_slice_fits(len: nat) -> bool {
        len == 2
    }

    /// A sample of this format has 2 bytes.
    proof fn lemma_sample_slice_fits()
        ensures
            Self::BYTES_PER_SAMPLE == 2,
    {
        assert forall|value: u16| #[trigger] Self::spec_encode(value).len() == 2 by {
            lemma_le_number_roundtrip(value as nat, 2);
        }
    }

    fn zero() -> (sample: Self)
        ensures
            sample.spec_bytes() == Seq::new(2nat, |i: int| 0u8),
    {
        let sample = Self([0, 0]);
        assert(sample.0@ =~= Seq::new(2nat, |i: int| 0u8));
        sample
    }

    fn from_slice(bytes: &[u8]) -> (sample: Self)
        ensures
            sample.spec_bytes() == bytes@.subrange(0, 2),
    {
        let sample = Self([bytes[0], bytes[1]]);
        assert(sample.0@ =~= bytes@.subrange(0, 2));
        sample
    }

    fn as_slice(&self) -> (bytes: &[u8])
        ensures
            bytes@.len() == 2,
    {
        &self.0
    }

    fn as_mut_slice(&mut self) -> (bytes: &mut [u8]) {
        &mut self.0
    }

    open spec fn spec_decode(bytes: Seq<u8>) -> u16 {
        le_unsigned(bytes) as u16
    }

    open spec fn spec_encode(value: u16) -> Seq<u8> {
        le_bytes(value as nat, 2)
    }

    fn to_number(&self) -> (value: u16) {
        let n = read_le(&self.0);
        proof {
            lemma_byte_range_values();
            lemma_le_unsigned_bound(self.0@);
        }
        n as u16
    }

    fn from_number(value: u16) -> (sample: Self) {
        let mut bytes = [0u8, 0u8];
        write_le(value as u64, &mut bytes);
        Self(bytes)
    }
}

/// `U16_LE` stores every `u16` exactly: reading back the bytes written for a
/// number gives the number, and writing the number read from 2 bytes gives the bytes.
pub proof fn lemma_u16_le_roundtrip(value: u16, bytes: Seq<u8>)
    ensures
        U16_LE::spec_decode(U16_LE::spec_encode(value)) == value,
        bytes.len() == 2 ==> U16_LE::spec_encode(U16_LE::spec_decode(bytes)) == bytes,
{
    lemma_byte_range_values();
    lemma_le_number_roundtrip(value as nat, 2);
    lemma_le_bytes_roundtrip(bytes);
    lemma_le_unsigned_bound(bytes);
}

impl BytesSample for U16_BE {
    type NumericType = u16;

    const BYTES_PER_SAMPLE: usize = 2;

    closed spec fn spec_bytes(&self) -> Seq<u8> {
        self.0@
    }

    open spec fn spec_slice_fits(len: nat) -> bool {
        len == 2
    }

    /// A sample of this format has 2 bytes.
    proof fn lemma_sample_slice_fits()
        ensures
            Self::BYTES_PER_SAMPLE == 2,
    {
        assert forall|value: u16| #[trigger] Self::spec_encode(value).len() == 2 by {
            lemma_be_roundtrips(value as nat, 2, Seq::empty());
        }
    }

    fn zero() -> (sample: Self)
        ensures
            sample.spec_bytes() == Seq::new(2nat, |i: int| 0u8),
    {
        let sample = Self([0, 0]);
        assert(sample.0@ =~= Seq::new(2nat, |i: int| 0u8));
        sample
    }

    fn from_slice(bytes: &[u8]) -> (sample: Self)
        ensures
            sample.spec_bytes() == bytes@.subrange(0, 2),
    {
        let sample = Self([bytes[0], bytes[1]]);
        assert(sample.0@ =~= bytes@.subrange(0, 2));
        sample
    }

    fn as_slice(&self) -> (bytes: &[u8])
        ensures
            bytes@.len() == 2,
    {
        &self.0
    }

    fn as_mut_slice(&mut self) -> (bytes: &mut [u8]) {
        &mut self.0
    }

    open spec fn spec_decode(bytes: Seq<u8>) -> u16 {
        be_unsigned(bytes) as u16
    }

    open spec fn spec_encode(value: u16) -> Seq<u8> {
        be_bytes(value as nat, 2)
    }

    fn to_number(&self) -> (value: u16) {
        let n = read_be(&self.0);
        proof {
            lemma_byte_range_values();
            lemma_be_roundtrips(0, 0, self.0@);
        }
        n as u16
    }

    fn from_number(value: u16) -> (sample: Self) {
        let mut bytes = [0u8, 0u8];
        write_be(value as u64, &mut bytes);
        Self(bytes)
    }
}

/// `U16_BE` stores every `u16` exactly: reading back the bytes written for a
/// number gives the number, and writing the number read from 2 bytes gives the bytes.
pub proof fn lemma_u16_be_roundtrip(value: u16, bytes: Seq<u8>)
    ensures
        U16_BE::spec_decode(U16_BE::spec_encode(value)) == value,
        bytes.len() == 2 ==> U16_BE::spec_encode(U16_BE::spec_decode(bytes)) == bytes,
{
    lemma_byte_range_values();
    lemma_be_roundtrips(value as nat, 2, bytes);
    
    
}

impl BytesSample for I32_LE {
    type NumericType = i32;

    const BYTES_PER_SAMPLE: usize = 4;

    closed spec fn spec_bytes(&self) -> Seq<u8> {
        self.0@
    }

    open spec fn spec_slice_fits(len: nat) -> bool {
        len == 4
    }

    /// A sample of this format has 4 bytes.
    proof fn lemma_sample_slice_fits()
        ensures
            Self::BYTES_PER_SAMPLE == 4,
    {
        assert forall|value: i32| #[trigger] Self::spec_encode(value).len() == 4 by {
            lemma_le_number_roundtrip(to_unsigned(value as int, 4), 4);
        }
    }

    fn zero() -> (sample: Self)
        ensures
            sample.spec_bytes() == Seq::new(4nat, |i: int| 0u8),
    {
        let sample = Self([0, 0, 0, 0]);
        assert(sample.0@ =~= Seq::new(4nat, |i: int| 0u8));
        sample
    }

    fn from_slice(bytes: &[u8]) -> (sample: Self)
        ensures
            sample.spec_bytes() == bytes@.subrange(0, 4),
    {
        let sample = Self([bytes[0], bytes[1], bytes[2], bytes[3]]);
        assert(sample.0@ =~= bytes@.subrange(0, 4));
        sample
    }

    fn as_slice(&self) -> (bytes: &[u8])
        ensures
            bytes@.len() == 4,
    {
        &self.0
    }

    fn as_mut_slice(&mut self) -> (bytes: &mut [u8]) {
        &mut self.0
    }

    open spec fn spec_decode(bytes: Seq<u8>) -> i32 {
        to_signed(le_unsigned(bytes) as int, 4) as i32
    }

    open spec fn spec_encode(value: i32) -> Seq<u8> {
        le_bytes(to_unsigned(value as int, 4), 4)
    }

    fn to_number(&self) -> (value: i32) {
        let n = read_le(&self.0);
        proof {
            lemma_byte_range_values();
            lemma_le_unsigned_bound(self.0@);
        }
        if n < 0x80000000 { n as i32 } else { (n as i64 - 0x100000000) as i32 }
    }

    fn from_number(value: i32) -> (sample: Self) {
        proof {
            lemma_byte_range_values();
        }
        let n: u64 = if value < 0 { (value as i64 + 0x100000000) as u64 } else { value as u64 };
        let mut bytes = [0u8, 0u8, 0u8, 0u8];
        write_le(n, &mut bytes);
        Self(bytes)
    }
}

/// `I32_LE` stores every `i32` exactly: reading back the bytes written for a
/// number gives the number, and writing the number read from 4 bytes gives the bytes.
pub proof fn lemma_i32_le_roundtrip(value: i32, bytes: Seq<u8>)
    ensures
        I32_LE::spec_decode(I32_LE::spec_encode(value)) == value,
        bytes.len() == 4 ==> I32_LE::spec_encode(I32_LE::spec_decode(bytes)) == bytes,
{
    lemma_byte_range_values();
    lemma_signed_roundtrips(value as int, 0, 4);
    lemma_le_number_roundtrip(to_unsigned(value as int, 4), 4);
    lemma_le_bytes_roundtrip(bytes);
    lemma_le_unsigned_bound(bytes);
    lemma_signed_roundtrips(0, le_unsigned(bytes) as int, 4);
}

impl BytesSample for I32_BE {
    type NumericType = i32;

    const BYTES_PER_SAMPLE: usize = 4;

    closed spec fn spec_bytes(&self) -> Seq<u8> {
        self.0@
    }

    open spec fn spec_slice_fits(len: nat) -> bool {
        len == 4
    }

    /// A sample of this format has 4 bytes.
    proof fn lemma_sample_slice_fits()
        ensures
            Self::BYTES_PER_SAMPLE == 4,
    {
        assert forall|value: i32| #[trigger] Self::spec_encode(value).len() == 4 by {
            lemma_be_roundtrips(to_unsigned(value as int, 4), 4, Seq::empty());
        }
    }

    fn zero() -> (sample: Self)
        ensures
            sample.spec_bytes() == Seq::new(4nat, |i: int| 0u8),
    {
        let sample = Self([0, 0, 0, 0]);
        assert(sample.0@ =~= Seq::new(4nat, |i: int| 0u8));
        sample
    }

    fn from_slice(bytes: &[u8]) -> (sample: Self)
        ensures
            sample.spec_bytes() == bytes@.subrange(0, 4),
    {
        let sample = Self([bytes[0], bytes[1], bytes[2], bytes[3]]);
        assert(sample.0@ =~= bytes@.subrange(0, 4));
        sample
    }

    fn as_slice(&self) -> (bytes: &[u8])
        ensures
            bytes@.len() == 4,
    {
        &self.0
    }

    fn as_mut_slice(&mut self) -> (bytes: &mut [u8]) {
        &mut self.0
    }

    open spec fn spec_decode(bytes: Seq<u8>) -> i32 {
        to_signed(be_unsigned(bytes) as int, 4) as i32
    }

    open spec fn spec_encode(value: i32) -> Seq<u8> {
        be_bytes(to_unsigned(value as int, 4), 4)
    }

    fn to_number(&self) -> (value: i32) {
        let n = read_be(&self.0);
        proof {
            lemma_byte_range_values();
            lemma_be_roundtrips(0, 0, self.0@);
        }
        if n < 0x80000000 { n as i32 } else { (n as i64 - 0x100000000) as i32 }
    }

    fn from_number(value: i32) -> (sample: Self) {
        proof {
            lemma_byte_range_values();
        }
        let n: u64 = if value < 0 { (value as i64 + 0x100000000) as u64 } else { value as u64 };
        let mut bytes = [0u8, 0u8, 0u8, 0u8];
        write_be(n, &mut bytes);
        Self(bytes)
    }
}

/// `I32_BE` stores every `i32` exactly: reading back the bytes written for a
/// number gives the number, and writing the number read from 4 bytes gives the bytes.
pub proof fn lemma_i32_be_roundtrip(value: i32, bytes: Seq<u8>)
    ensures
        I32_BE::spec_decode(I32_BE::spec_encode(value)) == value,
        bytes.len() == 4 ==> I32_BE::spec_encode(I32_BE::spec_decode(bytes)) == bytes,
{
    lemma_byte_range_values();
    lemma_signed_roundtrips(value as int, 0, 4);
    lemma_be_roundtrips(to_unsigned(value as int, 4), 4, bytes);
    
    
    lemma_signed_roundtrips(0, be_unsigned(bytes) as int, 4);
}

impl BytesSample for U32_LE {
    type NumericType = u32;

    const BYTES_PER_SAMPLE: usize = 4;

    closed spec fn spec_bytes(&self) -> Seq<u8> {
        self.0@
    }

    open spec fn spec_slice_fits(len: nat) -> bool {
        len == 4
    }

    /// A sample of this format has 4 bytes.
    proof fn lemma_sample_slice_fits()
        ensures
            Self::BYTES_PER_SAMPLE == 4,
    {
        assert forall|value: u32| #[trigger] Self::spec_encode(value).len() == 4 by {
            lemma_le_number_roundtrip(value as nat, 4);
        }
    }

    fn zero() -> (sample: Self)
        ensures
            sample.spec_bytes() == Seq::new(4nat, |i: int| 0u8),
    {
        let sample = Self([0, 0, 0, 0]);
        assert(sample.0@ =~= Seq::new(4nat, |i: int| 0u8));
        sample
    }

    fn from_slice(bytes: &[u8]) -> (sample: Self)
        ensures
            sample.spec_bytes() == bytes@.subrange(0, 4),
    {
        let sample = Self([bytes[0], bytes[1], bytes[2], bytes[3]]);
        assert(sample.0@ =~= bytes@.subrange(0, 4));
        sample
    }

    fn as_slice(&self) -> (bytes: &[u8])
        ensures
            bytes@.len() == 4,
    {
        &self.0
    }

    fn as_mut_slice(&mut self) -> (bytes: &mut [u8]) {
        &mut self.0
    }

    open spec fn spec_decode(bytes: Seq<u8>) -> u32 {
        le_unsigned(bytes) as u32
    }

    open spec fn spec_encode(value: u32) -> Seq<u8> {
        le_bytes(value as nat, 4)
    }

    fn to_number(&self) -> (value: u32) {
        let n = read_le(&self.0);
        proof {
            lemma_byte_range_values();
            lemma_le_unsigned_bound(self.0@);
        }
        n as u32
    }

    fn from_number(value: u32) -> (sample: Self) {
        let mut bytes = [0u8, 0u8, 0u8, 0u8];
        write_le(value as u64, &mut bytes);
        Self(bytes)
    }
}

/// `U32_LE` stores every `u32` exactly: reading back the bytes written for a
/// number gives the number, and writing the number read from 4 bytes gives the bytes.
pub proof fn lemma_u32_le_roundtrip(value: u32, bytes: Seq<u8>)
    ensures
        U32_LE::spec_decode(U32_LE::spec_encode(value)) == value,
        bytes.len() == 4 ==> U32_LE::spec_encode(U32_LE::spec_decode(bytes)) == bytes,
{
    lemma_byte_range_values();
    lemma_le_number_roundtrip(value as nat, 4);
    lemma_le_bytes_roundtrip(bytes);
    lemma_le_unsigned_bound(bytes);
}

impl BytesSample for U32_BE {
    type NumericType = u32;

    const BYTES_PER_SAMPLE: usize = 4;

    closed spec fn spec_bytes(&self) -> Seq<u8> {
        self.0@
    }

    open spec fn spec_slice_fits(len: nat) -> bool {
        len == 4
    }

    /// A sample of this format has 4 bytes.
    proof fn lemma_sample_slice_fits()
        ensures
            Self::BYTES_PER_SAMPLE == 4,
    {
        assert forall|value: u32| #[trigger] Self::spec_encode(value).len() == 4 by {
            lemma_be_roundtrips(value as nat, 4, Seq::empty());
        }
    }

    fn zero() -> (sample: Self)
        ensures
            sample.spec_bytes() == Seq::new(4nat, |i: int| 0u8),
    {
        let sample = Self([0, 0, 0, 0]);
        assert(sample.0@ =~= Seq::new(4nat, |i: int| 0u8));
        sample
    }

    fn from_slice(bytes: &[u8]) -> (sample: Self)
        ensures
            sample.spec_bytes() == bytes@.subrange(0, 4),
    {
        let sample = Self([bytes[0], bytes[1], bytes[2], bytes[3]]);
        assert(sample.0@ =~= bytes@.subrange(0, 4));
        sample
    }

    fn as_slice(&self) -> (bytes: &[u8])
        ensures
            bytes@.len() == 4,
    {
        &self.0
    }

    fn as_mut_slice(&mut self) -> (bytes: &mut [u8]) {
        &mut self.0
    }

    open spec fn spec_decode(bytes: Seq<u8>) -> u32 {
        be_unsigned(bytes) as u32
    }

    open spec fn spec_encode(value: u32) -> Seq<u8> {
        be_bytes(value as nat, 4)
    }

    fn to_number(&self) -> (value: u32) {
        let n = read_be(&self.0);
        proof {
            lemma_byte_range_values();
            lemma_be_roundtrips(0, 0, self.0@);
        }
        n as u32
    }

    fn from_number(value: u32) -> (sample: Self) {
        let mut bytes = [0u8, 0u8, 0u8, 0u8];
        write_be(value as u64, &mut bytes);
        Self(bytes)
    }
}

/// `U32_BE` stores every `u32` exactly: reading back the bytes written for a
/// number gives the number, and writing the number read from 4 bytes gives the bytes.
pub proof fn lemma_u32_be_roundtrip(value: u32, bytes: Seq<u8>)
    ensures
        U32_BE::spec_decode(U32_BE::spec_encode(value)) == value,
        bytes.len() == 4 ==> U32_BE::spec_encode(U32_BE::spec_decode(bytes)) == bytes,
{
    lemma_byte_range_values();
    lemma_be_roundtrips(value as nat, 4, bytes);
    
    
}

impl BytesSample for I64_LE {
    type NumericType = i64;

    const BYTES_PER_SAMPLE: usize = 8;

    closed spec fn spec_bytes(&self) -> Seq<u8> {
        self.0@
    }

    open spec fn spec_slice_fits(len: nat) -> bool {
        len == 8
    }

    /// A sample of this format has 8 bytes.
    proof fn lemma_sample_slice_fits()
        ensures
            Self::BYTES_PER_SAMPLE == 8,
    {
        assert forall|value: i64| #[trigger] Self::spec_encode(value).len() == 8 by {
            lemma_le_number_roundtrip(to_unsigned(value as int, 8), 8);
        }
    }

    fn zero() -> (sample: Self)
        ensures
            sample.spec_bytes() == Seq::new(8nat, |i: int| 0u8),
    {
        let sample = Self([0, 0, 0, 0, 0, 0, 0, 0]);
        assert(sample.0@ =~= Seq::new(8nat, |i: int| 0u8));
        sample
    }

    fn from_slice(bytes: &[u8]) -> (sample: Self)
        ensures
            sample.spec_bytes() == bytes@.subrange(0, 8),
    {
        let sample = Self([bytes[0], bytes[1], bytes[2], bytes[3], bytes[4], bytes[5], bytes[6], bytes[7]]);
        assert(sample.0@ =~= bytes@.subrange(0, 8));
        sample
    }

    fn as_slice(&self) -> (bytes: &[u8])
        ensures
            bytes@.len() == 8,
    {
        &self.0
    }

    fn as_mut_slice(&mut self) -> (bytes: &mut [u8]) {
        &mut self.0
    }

    open spec fn spec_decode(bytes: Seq<u8>) -> i64 {
        to_signed(le_unsigned(bytes) as int, 8) as i64
    }

    open spec fn spec_encode(value: i64) -> Seq<u8> {
        le_bytes(to_unsigned(value as int, 8), 8)
    }

    fn to_number(&self) -> (value: i64) {
        let n = read_le(&self.0);
        proof {
            lemma_byte_range_values();
            lemma_le_unsigned_bound(self.0@);
        }
        if n < 0x8000000000000000 { n as i64 } else { (n - 0x8000000000000000) as i64 - i64::MAX - 1 }
    }

    fn from_number(value: i64) -> (sample: Self) {
        proof {
            lemma_byte_range_values();
        }
        let n: u64 = if value < 0 { (value + i64::MAX + 1) as u64 + 0x8000_0000_0000_0000 } else { value as u64 };
        let mut bytes = [0u8, 0u8, 0u8, 0u8, 0u8, 0u8, 0u8, 0u8];
        write_le(n, &mut bytes);
        Self(bytes)
    }
}

/// `I64_LE` stores every `i64` exactly: reading back the bytes written for a
/// number gives the number, and writing the number read from 8 bytes gives the bytes.
pub proof fn lemma_i64_le_roundtrip(value: i64, bytes: Seq<u8>)
    ensures
        I64_LE::spec_decode(I64_LE::spec_encode(value)) == value,
        bytes.len() == 8 ==> I64_LE::spec_encode(I64_LE::spec_decode(bytes)) == bytes,
{
    lemma_byte_range_values();
    lemma_signed_roundtrips(value as int, 0, 8);
    lemma_le_number_roundtrip(to_unsigned(value as int, 8), 8);
    lemma_le_bytes_roundtrip(bytes);
    lemma_le_unsigned_bound(bytes);
    lemma_signed_roundtrips(0, le_unsigned(bytes) as int, 8);
}

impl BytesSample for I64_BE {
    type NumericType = i64;

    const BYTES_PER_SAMPLE: usize = 8;

    closed spec fn spec_bytes(&self) -> Seq<u8> {
        self.0@
    }

    open spec fn spec_slice_fits(len: nat) -> bool {
        len == 8
    }

    /// A sample of this format has 8 bytes.
    proof fn lemma_sample_slice_fits()
        ensures
            Self::BYTES_PER_SAMPLE == 8,
    {
        assert forall|value: i64| #[trigger] Self::spec_encode(value).len() == 8 by {
            lemma_be_roundtrips(to_unsigned(value as int, 8), 8, Seq::empty());
        }
    }

    fn zero() -> (sample: Self)
        ensures
            sample.spec_bytes() == Seq::new(8nat, |i: int| 0u8),
    {
        let sample = Self([0, 0, 0, 0, 0, 0, 0, 0]);
        assert(sample.0@ =~= Seq::new(8nat, |i: int| 0u8));
        sample
    }

    fn from_slice(bytes: &[u8]) -> (sample: Self)
        ensures
            sample.spec_bytes() == bytes@.subrange(0, 8),
    {
        let sample = Self([bytes[0], bytes[1], bytes[2], bytes[3], bytes[4], bytes[5], bytes[6], bytes[7]]);
        assert(sample.0@ =~= bytes@.subrange(0, 8));
        sample
    }

    fn as_slice(&self) -> (bytes: &[u8])
        ensures
            bytes@.len() == 8,
    {
        &self.0
    }

    fn as_mut_slice(&mut self) -> (bytes: &mut [u8]) {
        &mut self.0
    }

    open spec fn spec_decode(bytes: Seq<u8>) -> i64 {
        to_signed(be_unsigned(bytes) as int, 8) as i64
    }

    open spec fn spec_encode(value: i64) -> Seq<u8> {
        be_bytes(to_unsigned(value as int, 8), 8)
    }

    fn to_number(&self) -> (value: i64) {
        let n = read_be(&self.0);
        proof {
            lemma_byte_range_values();
            lemma_be_roundtrips(0, 0, self.0@);
        }
        if n < 0x8000000000000000 { n as i64 } else { (n - 0x8000000000000000) as i64 - i64::MAX - 1 }
    }

    fn from_number(value: i64) -> (sample: Self) {
        proof {
            lemma_byte_range_values();
        }
        let n: u64 = if value < 0 { (value + i64::MAX + 1) as u64 + 0x8000_0000_0000_0000 } else { value as u64 };
        let mut bytes = [0u8, 0u8, 0u8, 0u8, 0u8, 0u8, 0u8, 0u8];
        write_be(n, &mut bytes);
        Self(bytes)
    }
}

/// `I64_BE` stores every `i64` exactly: reading back the bytes written for a
/// number gives the number, and writing the number read from 8 bytes gives the bytes.
pub proof fn lemma_i64_be_roundtrip(value: i64, bytes: Seq<u8>)
    ensures
        I64_BE::spec_decode(I64_BE::spec_encode(value)) == value,
        bytes.len() == 8 ==> I64_BE::spec_encode(I64_BE::spec_decode(bytes)) == bytes,
{
    lemma_byte_range_values();
    lemma_signed_roundtrips(value as int, 0, 8);
    lemma_be_roundtrips(to_unsigned(value as int, 8), 8, bytes);
    
    
    lemma_signed_roundtrips(0, be_unsigned(bytes) as int, 8);
}

impl BytesSample for U64_LE {
    type NumericType = u64;

    const BYTES_PER_SAMPLE: usize = 8;

    closed spec fn spec_bytes(&self) -> Seq<u8> {
        self.0@
    }

    open spec fn spec_slice_fits(len: nat) -> bool {
        len == 8
    }

    /// A sample of this format has 8 bytes.
    proof fn lemma_sample_slice_fits()
        ensures
            Self::BYTES_PER_SAMPLE == 8,
    {
        assert forall|value: u64| #[trigger] Self::spec_encode(value).len() == 8 by {
            lemma_le_number_roundtrip(value as nat, 8);
        }
    }

    fn zero() -> (sample: Self)
        ensures
            sample.spec_bytes() == Seq::new(8nat, |i: int| 0u8),
    {
        let sample = Self([0, 0, 0, 0, 0, 0, 0, 0]);
        assert(sample.0@ =~= Seq::new(8nat, |i: int| 0u8));
        sample
    }

    fn from_slice(bytes: &[u8]) -> (sample: Self)
        ensures
            sample.spec_bytes() == bytes@.subrange(0, 8),
    {
        let sample = Self([bytes[0], bytes[1], bytes[2], bytes[3], bytes[4], bytes[5], bytes[6], bytes[7]]);
        assert(sample.0@ =~= bytes@.subrange(0, 8));
        sample
    }

    fn as_slice(&self) -> (bytes: &[u8])
        ensures
            bytes@.len() == 8,
    {
        &self.0
    }

    fn as_mut_slice(&mut self) -> (bytes: &mut [u8]) {
        &mut self.0
    }

    open spec fn spec_decode(bytes: Seq<u8>) -> u64 {
        le_unsigned(bytes) as u64
    }

    open spec fn spec_encode(value: u64) -> Seq<u8> {
        le_bytes(value as nat, 8)
    }

    fn to_number(&self) -> (value: u64) {
        let n = read_le(&self.0);
        proof {
            lemma_byte_range_values();
            lemma_le_unsigned_bound(self.0@);
        }
        n as u64
    }

    fn from_number(value: u64) -> (sample: Self) {
        let mut bytes = [0u8, 0u8, 0u8, 0u8, 0u8, 0u8, 0u8, 0u8];
        write_le(value as u64, &mut bytes);
        Self(bytes)
    }
}

/// `U64_LE` stores every `u64` exactly: reading back the bytes written for a
/// number gives the number, and writing the number read from 8 bytes gives the bytes.
pub proof fn lemma_u64_le_roundtrip(value: u64, bytes: Seq<u8>)
    ensures
        U64_LE::spec_decode(U64_LE::spec_encode(value)) == value,
        bytes.len() == 8 ==> U64_LE::spec_encode(U64_LE::spec_decode(bytes)) == bytes,
{
    lemma_byte_range_values();
    lemma_le_number_roundtrip(value as nat, 8);
    lemma_le_bytes_roundtrip(bytes);
    lemma_le_unsigned_bound(bytes);
}

impl BytesSample for U64_BE {
    type NumericType = u64;

    const BYTES_PER_SAMPLE: usize = 8;

    closed spec fn spec_bytes(&self) -> Seq<u8> {
        self.0@
    }

    open spec fn spec_slice_fits(len: nat) -> bool {
        len == 8
    }

    /// A sample of this format has 8 bytes.
    proof fn lemma_sample_slice_fits()
        ensures
            Self::BYTES_PER_SAMPLE == 8,
    {
        assert forall|value: u64| #[trigger] Self::spec_encode(value).len() == 8 by {
            lemma_be_roundtrips(value as nat, 8, Seq::empty());
        }
    }

    fn zero() -> (sample: Self)
        ensures
            sample.spec_bytes() == Seq::new(8nat, |i: int| 0u8),
    {
        let sample = Self([0, 0, 0, 0, 0, 0, 0, 0]);
        assert(sample.0@ =~= Seq::new(8nat, |i: int| 0u8));
        sample
    }

    fn from_slice(bytes: &[u8]) -> (sample: Self)
        ensures
            sample.spec_bytes() == bytes@.subrange(0, 8),
    {
        let sample = Self([bytes[0], bytes[1], bytes[2], bytes[3], bytes[4], bytes[5], bytes[6], bytes[7]]);
        assert(sample.0@ =~= bytes@.subrange(0, 8));
        sample
    }

    fn as_slice(&self) -> (bytes: &[u8])
        ensures
            bytes@.len() == 8,
    {
        &self.0
    }

    fn as_mut_slice(&mut self) -> (bytes: &mut [u8]) {
        &mut self.0
    }

    open spec fn spec_decode(bytes: Seq<u8>) -> u64 {
        be_unsigned(bytes) as u64
    }

    open spec fn spec_encode(value: u64) -> Seq<u8> {
        be_bytes(value as nat, 8)
    }

    fn to_number(&self) -> (value: u64) {
        let n = read_be(&self.0);
        proof {
            lemma_byte_range_values();
            lemma_be_roundtrips(0, 0, self.0@);
        }
        n as u64
    }

    fn from_number(value: u64) -> (sample: Self) {
        let mut bytes = [0u8, 0u8, 0u8, 0u8, 0u8, 0u8, 0u8, 0u8];
        write_be(value as u64, &mut bytes);
        Self(bytes)
    }
}

/// `U64_BE` stores every `u64` exactly: reading back the bytes written for a
/// number gives the number, and writing the number read from 8 bytes gives the bytes.
pub proof fn lemma_u64_be_roundtrip(value: u64, bytes: Seq<u8>)
    ensures
        U64_BE::spec_decode(U64_BE::spec_encode(value)) == value,
        bytes.len() == 8 ==> U64_BE::spec_encode(U64_BE::spec_decode(bytes)) == bytes,
{
    lemma_byte_range_values();
    lemma_be_roundtrips(value as nat, 8, bytes);
    
    
}

impl BytesSample for I24_LE {
    type NumericType = i32;

    const BYTES_PER_SAMPLE: usize = 3;

    closed spec fn spec_bytes(&self) -> Seq<u8> {
        self.0@
    }

    open spec fn spec_slice_fits(len: nat) -> bool {
        len >= 3
    }

    /// A sample of this format has 3 bytes.
    proof fn lemma_sample_slice_fits()
        ensures
            Self::BYTES_PER_SAMPLE == 3,
    {
        assert forall|value: i32| #[trigger] Self::spec_encode(value).len() == 3 by {
            lemma_le_number_roundtrip(to_unsigned(value as int, 4) / 256, 3);
        }
    }

    fn zero() -> (sample: Self)
        ensures
            sample.spec_bytes() == Seq::new(3nat, |i: int| 0u8),
    {
        let sample = Self([0, 0, 0]);
        assert(sample.0@ =~= Seq::new(3nat, |i: int| 0u8));
        sample
    }

    fn from_slice(bytes: &[u8]) -> (sample: Self)
        ensures
            sample.spec_bytes() == bytes@.subrange(0, 3),
    {
        let sample = Self([bytes[0], bytes[1], bytes[2]]);
        assert(sample.0@ =~= bytes@.subrange(0, 3));
        sample
    }

    fn as_slice(&self) -> (bytes: &[u8])
        ensures
            bytes@.len() == 3,
    {
        &self.0
    }

    fn as_mut_slice(&mut self) -> (bytes: &mut [u8]) {
        &mut self.0
    }

    open spec fn spec_decode(bytes: Seq<u8>) -> i32 {
        (256 * to_signed(le_unsigned(bytes) as int, 3)) as i32
    }

    open spec fn spec_encode(value: i32) -> Seq<u8> {
        le_bytes(to_unsigned(value as int, 4) / 256, 3)
    }

    fn to_number(&self) -> (value: i32) {
        let data = self.0;
        let n = read_le(&data);
        proof {
            lemma_byte_range_values();
            lemma_le_unsigned_bound(data@);
        }
        let s: i32 = if n < 0x800000 { n as i32 } else { (n as i64 - 0x1000000) as i32 };
        s * 256
    }

    fn from_number(value: i32) -> (sample: Self) {
        proof {
            lemma_byte_range_values();
        }
        let n: u64 = if value < 0 { (value as i64 + 0x100000000) as u64 } else { value as u64 };
        let word: u64 = n / 256;
        let mut bytes = [0u8, 0u8, 0u8];
        write_le(word, &mut bytes);
        Self(bytes)
    }
}

/// `I24_LE` keeps the 24 most significant bits of a `i32`: reading back the
/// bytes written for a number gives the number with its least significant byte
/// cleared, and writing the number read from 3 bytes gives the
/// bytes.
#[verifier::rlimit(30)]
pub proof fn lemma_i24_le_roundtrip(value: i32, bytes: Seq<u8>)
    ensures
        I24_LE::spec_decode(I24_LE::spec_encode(value)) == value - value % 256,
        bytes.len() == 3 ==> I24_LE::spec_encode(I24_LE::spec_decode(bytes)) == bytes,
{
    lemma_byte_range_values();
    let w = to_unsigned(value as int, 4) / 256;
    lemma_signed_roundtrips(value as int, 0, 4);
    assert(w < 0x100_0000);
    lemma_le_number_roundtrip(w, 3);
    assert(0 <= value as int - to_signed(w as int, 3) * 256 < 256);

    if bytes.len() == 3 {
        let d = bytes;
        lemma_le_bytes_roundtrip(d);
        lemma_le_unsigned_bound(d);
        lemma_signed_roundtrips(0, le_unsigned(d) as int, 3);
        let v = 256 * to_signed(le_unsigned(d) as int, 3);
        assert(to_unsigned(v, 4) / 256 == le_unsigned(d));
        assert(I24_LE::spec_encode(I24_LE::spec_decode(bytes)) =~= bytes);
    }
}

impl BytesSample for I24_4LJ_LE {
    type NumericType = i32;

    const BYTES_PER_SAMPLE: usize = 4;

    closed spec fn spec_bytes(&self) -> Seq<u8> {
        self.0@
    }

    open spec fn spec_slice_fits(len: nat) -> bool {
        len >= 4
    }

    /// A sample of this format has 4 bytes.
    proof fn lemma_sample_slice_fits()
        ensures
            Self::BYTES_PER_SAMPLE == 4,
    {
        assert forall|value: i32| #[trigger] Self::spec_encode(value).len() == 4 by {
            lemma_le_number_roundtrip(to_unsigned(value as int, 4) / 256, 3);
        }
    }

    fn zero() -> (sample: Self)
        ensures
            sample.spec_bytes() == Seq::new(4nat, |i: int| 0u8),
    {
        let sample = Self([0, 0, 0, 0]);
        assert(sample.0@ =~= Seq::new(4nat, |i: int| 0u8));
        sample
    }

    fn from_slice(bytes: &[u8]) -> (sample: Self)
        ensures
            sample.spec_bytes() == bytes@.subrange(0, 4),
    {
        let sample = Self([bytes[0], bytes[1], bytes[2], bytes[3]]);
        assert(sample.0@ =~= bytes@.subrange(0, 4));
        sample
    }

    fn as_slice(&self) -> (bytes: &[u8])
        ensures
            bytes@.len() == 4,
    {
        &self.0
    }

    fn as_mut_slice(&mut self) -> (bytes: &mut [u8]) {
        &mut self.0
    }

    open spec fn spec_decode(bytes: Seq<u8>) -> i32 {
        (256 * to_signed(le_unsigned(bytes.subrange(1, 4)) as int, 3)) as i32
    }

    open spec fn spec_encode(value: i32) -> Seq<u8> {
        seq![0u8] + le_bytes(to_unsigned(value as int, 4) / 256, 3)
    }

    fn to_number(&self) -> (value: i32) {
        let data = [self.0[1], self.0[2], self.0[3]];
        assert(data@ =~= self.0@.subrange(1, 4));
        let n = read_le(&data);
        proof {
            lemma_byte_range_values();
            lemma_le_unsigned_bound(data@);
        }
        let s: i32 = if n < 0x800000 { n as i32 } else { (n as i64 - 0x1000000) as i32 };
        s * 256
    }

    fn from_number(value: i32) -> (sample: Self) {
        proof {
            lemma_byte_range_values();
        }
        let n: u64 = if value < 0 { (value as i64 + 0x100000000) as u64 } else { value as u64 };
        let word: u64 = n / 256;
        let mut data = [0u8, 0u8, 0u8];
        write_le(word, &mut data);
        let sample = Self([0, data[0], data[1], data[2]]);
        assert(sample.0@ =~= seq![0u8] + data@);
        sample
    }
}

/// `I24_4LJ_LE` keeps the 24 most significant bits of a `i32`: reading back the
/// bytes written for a number gives the number with its least significant byte
/// cleared, and writing the number read from 4 bytes gives the
/// bytes with the padding byte cleared.
#[verifier::rlimit(30)]
pub proof fn lemma_i24_4lj_le_roundtrip(value: i32, bytes: Seq<u8>)
    ensures
        I24_4LJ_LE::spec_decode(I24_4LJ_LE::spec_encode(value)) == value - value % 256,
        bytes.len() == 4 ==> I24_4LJ_LE::spec_encode(I24_4LJ_LE::spec_decode(bytes)) == seq![0u8] + bytes.subrange(1, 4),
{
    lemma_byte_range_values();
    let w = to_unsigned(value as int, 4) / 256;
    lemma_signed_roundtrips(value as int, 0, 4);
    assert(w < 0x100_0000);
    lemma_le_number_roundtrip(w, 3);
    assert(0 <= value as int - to_signed(w as int, 3) * 256 < 256);
    assert((seq![0u8] + le_bytes(to_unsigned(value as int, 4) / 256, 3)).subrange(1, 4) =~= le_bytes(to_unsigned(value as int, 4) / 256, 3));
    if bytes.len() == 4 {
        let d = bytes.subrange(1, 4);
        lemma_le_bytes_roundtrip(d);
        lemma_le_unsigned_bound(d);
        lemma_signed_roundtrips(0, le_unsigned(d) as int, 3);
        let v = 256 * to_signed(le_unsigned(d) as int, 3);
        assert(to_unsigned(v, 4) / 256 == le_unsigned(d));
        assert(I24_4LJ_LE::spec_encode(I24_4LJ_LE::spec_decode(bytes)) =~= seq![0u8] + bytes.subrange(1, 4));
    }
}

impl BytesSample for I24_4RJ_LE {
    type NumericType = i32;

    const BYTES_PER_SAMPLE: usize = 4;

    closed spec fn spec_bytes(&self) -> Seq<u8> {
        self.0@
    }

    open spec fn spec_slice_fits(len: nat) -> bool {
        len >= 4
    }

    /// A sample of this format has 4 bytes.
    proof fn lemma_sample_slice_fits()
        ensures
            Self::BYTES_PER_SAMPLE == 4,
    {
        assert forall|value: i32| #[trigger] Self::spec_encode(value).len() == 4 by {
            lemma_le_number_roundtrip(to_unsigned(value as int, 4) / 256, 3);
        }
    }

    fn zero() -> (sample: Self)
        ensures
            sample.spec_bytes() == Seq::new(4nat, |i: int| 0u8),
    {
        let sample = Self([0, 0, 0, 0]);
        assert(sample.0@ =~= Seq::new(4nat, |i: int| 0u8));
        sample
    }

    fn from_slice(bytes: &[u8]) -> (sample: Self)
        ensures
            sample.spec_bytes() == bytes@.subrange(0, 4),
    {
        let sample = Self([bytes[0], bytes[1], bytes[2], bytes[3]]);
        assert(sample.0@ =~= bytes@.subrange(0, 4));
        sample
    }

    fn as_slice(&self) -> (bytes: &[u8])
        ensures
            bytes@.len() == 4,
    {
        &self.0
    }

    fn as_mut_slice(&mut self) -> (bytes: &mut [u8]) {
        &mut self.0
    }

    open spec fn spec_decode(bytes: Seq<u8>) -> i32 {
        (256 * to_signed(le_unsigned(bytes.subrange(0, 3)) as int, 3)) as i32
    }

    open spec fn spec_encode(value: i32) -> Seq<u8> {
        le_bytes(to_unsigned(value as int, 4) / 256, 3) + seq![0u8]
    }

    fn to_number(&self) -> (value: i32) {
        let data = [self.0[0], self.0[1], self.0[2]];
        assert(data@ =~= self.0@.subrange(0, 3));
        let n = read_le(&data);
        proof {
            lemma_byte_range_values();
            lemma_le_unsigned_bound(data@);
        }
        let s: i32 = if n < 0x800000 { n as i32 } else { (n as i64 - 0x1000000) as i32 };
        s * 256
    }

    fn from_number(value: i32) -> (sample: Self) {
        proof {
            lemma_byte_range_values();
        }
        let n: u64 = if value < 0 { (value as i64 + 0x100000000) as u64 } else { value as u64 };
        let word: u64 = n / 256;
        let mut data = [0u8, 0u8, 0u8];
        write_le(word, &mut data);
        let sample = Self([data[0], data[1], data[2], 0]);
        assert(sample.0@ =~= data@ + seq![0u8]);
        sample
    }
}

/// `I24_4RJ_LE` keeps the 24 most significant bits of a `i32`: reading back the
/// bytes written for a number gives the number with its least significant byte
/// cleared, and writing the number read from 4 bytes gives the
/// bytes with the padding byte cleared.
#[verifier::rlimit(30)]
pub proof fn lemma_i24_4rj_le_roundtrip(value: i32, bytes: Seq<u8>)
    ensures
        I24_4RJ_LE::spec_decode(I24_4RJ_LE::spec_encode(value)) == value - value % 256,
        bytes.len() == 4 ==> I24_4RJ_LE::spec_encode(I24_4RJ_LE::spec_decode(bytes)) == bytes.subrange(0, 3) + seq![0u8],
{
    lemma_byte_range_values();
    let w = to_unsigned(value as int, 4) / 256;
    lemma_signed_roundtrips(value as int, 0, 4);
    assert(w < 0x100_0000);
    lemma_le_number_roundtrip(w, 3);
    assert(0 <= value as int - to_signed(w as int, 3) * 256 < 256);
    assert((le_bytes(to_unsigned(value as int, 4) / 256, 3) + seq![0u8]).subrange(0, 3) =~= le_bytes(to_unsigned(value as int, 4) / 256, 3));
    if bytes.len() == 4 {
        let d = bytes.subrange(0, 3);
        lemma_le_bytes_roundtrip(d);
        lemma_le_unsigned_bound(d);
        lemma_signed_roundtrips(0, le_unsigned(d) as int, 3);
        let v = 256 * to_signed(le_unsigned(d) as int, 3);
        assert(to_unsigned(v, 4) / 256 == le_unsigned(d));
        assert(I24_4RJ_LE::spec_encode(I24_4RJ_LE::spec_decode(bytes)) =~= bytes.subrange(0, 3) + seq![0u8]);
    }
}

impl BytesSample for I24_BE {
    type NumericType = i32;

    const BYTES_PER_SAMPLE: usize = 3;

    closed spec fn spec_bytes(&self) -> Seq<u8> {
        self.0@
    }

    open spec fn spec_slice_fits(len: nat) -> bool {
        len >= 3
    }

    /// A sample of this format has 3 bytes.
    proof fn lemma_sample_slice_fits()
        ensures
            Self::BYTES_PER_SAMPLE == 3,
    {
        assert forall|value: i32| #[trigger] Self::spec_encode(value).len() == 3 by {
            lemma_be_roundtrips(to_unsigned(value as int, 4) / 256, 3, Seq::empty());
        }
    }

    fn zero() -> (sample: Self)
        ensures
            sample.spec_bytes() == Seq::new(3nat, |i: int| 0u8),
    {
        let sample = Self([0, 0, 0]);
        assert(sample.0@ =~= Seq::new(3nat, |i: int| 0u8));
        sample
    }

    fn from_slice(bytes: &[u8]) -> (sample: Self)
        ensures
            sample.spec_bytes() == bytes@.subrange(0, 3),
    {
        let sample = Self([bytes[0], bytes[1], bytes[2]]);
        assert(sample.0@ =~= bytes@.subrange(0, 3));
        sample
    }

    fn as_slice(&self) -> (bytes: &[u8])
        ensures
            bytes@.len() == 3,
    {
        &self.0
    }

    fn as_mut_slice(&mut self) -> (bytes: &mut [u8]) {
        &mut self.0
    }

    open spec fn spec_decode(bytes: Seq<u8>) -> i32 {
        (256 * to_signed(be_unsigned(bytes) as int, 3)) as i32
    }

    open spec fn spec_encode(value: i32) -> Seq<u8> {
        be_bytes(to_unsigned(value as int, 4) / 256, 3)
    }

    fn to_number(&self) -> (value: i32) {
        let data = self.0;
        let n = read_be(&data);
        proof {
            lemma_byte_range_values();
            lemma_be_roundtrips(0, 0, data@);
        }
        let s: i32 = if n < 0x800000 { n as i32 } else { (n as i64 - 0x1000000) as i32 };
        s * 256
    }

    fn from_number(value: i32) -> (sample: Self) {
        proof {
            lemma_byte_range_values();
        }
        let n: u64 = if value < 0 { (value as i64 + 0x100000000) as u64 } else { value as u64 };
        let word: u64 = n / 256;
        let mut bytes = [0u8, 0u8, 0u8];
        write_be(word, &mut bytes);
        Self(bytes)
    }
}

/// `I24_BE` keeps the 24 most significant bits of a `i32`: reading back the
/// bytes written for a number gives the number with its least significant byte
/// cleared, and writing the number read from 3 bytes gives the
/// bytes.
#[verifier::rlimit(30)]
pub proof fn lemma_i24_be_roundtrip(value: i32, bytes: Seq<u8>)
    ensures
        I24_BE::spec_decode(I24_BE::spec_encode(value)) == value - value % 256,
        bytes.len() == 3 ==> I24_BE::spec_encode(I24_BE::spec_decode(bytes)) == bytes,
{
    lemma_byte_range_values();
    let w = to_unsigned(value as int, 4) / 256;
    lemma_signed_roundtrips(value as int, 0, 4);
    assert(w < 0x100_0000);
    lemma_be_roundtrips(w, 3, bytes);
    assert(0 <= value as int - to_signed(w as int, 3) * 256 < 256);

    if bytes.len() == 3 {
        let d = bytes;
        lemma_be_roundtrips(0, 0, d);
        
        lemma_signed_roundtrips(0, be_unsigned(d) as int, 3);
        let v = 256 * to_signed(be_unsigned(d) as int, 3);
        assert(to_unsigned(v, 4) / 256 == be_unsigned(d));
        assert(I24_BE::spec_encode(I24_BE::spec_decode(bytes)) =~= bytes);
    }
}

impl BytesSample for I24_4LJ_BE {
    type NumericType = i32;

    const BYTES_PER_SAMPLE: usize = 4;

    closed spec fn spec_bytes(&self) -> Seq<u8> {
        self.0@
    }

    open spec fn spec_slice_fits(len: nat) -> bool {
        len >= 4
    }

    /// A sample of this format has 4 bytes.
    proof fn lemma_sample_slice_fits()
        ensures
            Self::BYTES_PER_SAMPLE == 4,
    {
        assert forall|value: i32| #[trigger] Self::spec_encode(value).len() == 4 by {
            lemma_be_roundtrips(to_unsigned(value as int, 4) / 256, 3, Seq::empty());
        }
    }

    fn zero() -> (sample: Self)
        ensures
            sample.spec_bytes() == Seq::new(4nat, |i: int| 0u8),
    {
        let sample = Self([0, 0, 0, 0]);
        assert(sample.0@ =~= Seq::new(4nat, |i: int| 0u8));
        sample
    }

    fn from_slice(bytes: &[u8]) -> (sample: Self)
        ensures
            sample.spec_bytes() == bytes@.subrange(0, 4),
    {
        let sample = Self([bytes[0], bytes[1], bytes[2], bytes[3]]);
        assert(sample.0@ =~= bytes@.subrange(0, 4));
        sample
    }

    fn as_slice(&self) -> (bytes: &[u8])
        ensures
            bytes@.len() == 4,
    {
        &self.0
    }

    fn as_mut_slice(&mut self) -> (bytes: &mut [u8]) {
        &mut self.0
    }

    open spec fn spec_decode(bytes: Seq<u8>) -> i32 {
        (256 * to_signed(be_unsigned(bytes.subrange(0, 3)) as int, 3)) as i32
    }

    open spec fn spec_encode(value: i32) -> Seq<u8> {
        be_bytes(to_unsigned(value as int, 4) / 256, 3) + seq![0u8]
    }

    fn to_number(&self) -> (value: i32) {
        let data = [self.0[0], self.0[1], self.0[2]];
        assert(data@ =~= self.0@.subrange(0, 3));
        let n = read_be(&data);
        proof {
            lemma_byte_range_values();
            lemma_be_roundtrips(0, 0, data@);
        }
        let s: i32 = if n < 0x800000 { n as i32 } else { (n as i64 - 0x1000000) as i32 };
        s * 256
    }

    fn from_number(value: i32) -> (sample: Self) {
        proof {
            lemma_byte_range_values();
        }
        let n: u64 = if value < 0 { (value as i64 + 0x100000000) as u64 } else { value as u64 };
        let word: u64 = n / 256;
        let mut data = [0u8, 0u8, 0u8];
        write_be(word, &mut data);
        let sample = Self([data[0], data[1], data[2], 0]);
        assert(sample.0@ =~= data@ + seq![0u8]);
        sample
    }
}

/// `I24_4LJ_BE` keeps the 24 most significant bits of a `i32`: reading back the
/// bytes written for a number gives the number with its least significant byte
/// cleared, and writing the number read from 4 bytes gives the
/// bytes with the padding byte cleared.
#[verifier::rlimit(30)]
pub proof fn lemma_i24_4lj_be_roundtrip(value: i32, bytes: Seq<u8>)
    ensures
        I24_4LJ_BE::spec_decode(I24_4LJ_BE::spec_encode(value)) == value - value % 256,
        bytes.len() == 4 ==> I24_4LJ_BE::spec_encode(I24_4LJ_BE::spec_decode(bytes)) == bytes.subrange(0, 3) + seq![0u8],
{
    lemma_byte_range_values();
    let w = to_unsigned(value as int, 4) / 256;
    lemma_signed_roundtrips(value as int, 0, 4);
    assert(w < 0x100_0000);
    lemma_be_roundtrips(w, 3, bytes);
    assert(0 <= value as int - to_signed(w as int, 3) * 256 < 256);
    assert((be_bytes(to_unsigned(value as int, 4) / 256, 3) + seq![0u8]).subrange(0, 3) =~= be_bytes(to_unsigned(value as int, 4) / 256, 3));
    if bytes.len() == 4 {
        let d = bytes.subrange(0, 3);
        lemma_be_roundtrips(0, 0, d);
        
        lemma_signed_roundtrips(0, be_unsigned(d) as int, 3);
        let v = 256 * to_signed(be_unsigned(d) as int, 3);
        assert(to_unsigned(v, 4) / 256 == be_unsigned(d));
        assert(I24_4LJ_BE::spec_encode(I24_4LJ_BE::spec_decode(bytes)) =~= bytes.subrange(0, 3) + seq![0u8]);
    }
}

impl BytesSample for I24_4RJ_BE {
    type NumericType = i32;

    const BYTES_PER_SAMPLE: usize = 4;

    closed spec fn spec_bytes(&self) -> Seq<u8> {
        self.0@
    }

    open spec fn spec_slice_fits(len: nat) -> bool {
        len >= 4
    }

    /// A sample of this format has 4 bytes.
    proof fn lemma_sample_slice_fits()
        ensures
            Self::BYTES_PER_SAMPLE == 4,
    {
        assert forall|value: i32| #[trigger] Self::spec_encode(value).len() == 4 by {
            lemma_be_roundtrips(to_unsigned(value as int, 4) / 256, 3, Seq::empty());
        }
    }

    fn zero() -> (sample: Self)
        ensures
            sample.spec_bytes() == Seq::new(4nat, |i: int| 0u8),
    {
        let sample = Self([0, 0, 0, 0]);
        assert(sample.0@ =~= Seq::new(4nat, |i: int| 0u8));
        sample
    }

    fn from_slice(bytes: &[u8]) -> (sample: Self)
        ensures
            sample.spec_bytes() == bytes@.subrange(0, 4),
    {
        let sample = Self([bytes[0], bytes[1], bytes[2], bytes[3]]);
        assert(sample.0@ =~= bytes@.subrange(0, 4));
        sample
    }

    fn as_slice(&self) -> (bytes: &[u8])
        ensures
            bytes@.len() == 4,
    {
        &self.0
    }

    fn as_mut_slice(&mut self) -> (bytes: &mut [u8]) {
        &mut self.0
    }

    open spec fn spec_decode(bytes: Seq<u8>) -> i32 {
        (256 * to_signed(be_unsigned(bytes.subrange(1, 4)) as int, 3)) as i32
    }

    open spec fn spec_encode(value: i32) -> Seq<u8> {
        seq![0u8] + be_bytes(to_unsigned(value as int, 4) / 256, 3)
    }

    fn to_number(&self) -> (value: i32) {
        let data = [self.0[1], self.0[2], self.0[3]];
        assert(data@ =~= self.0@.subrange(1, 4));
        let n = read_be(&data);
        proof {
            lemma_byte_range_values();
            lemma_be_roundtrips(0, 0, data@);
        }
        let s: i32 = if n < 0x800000 { n as i32 } else { (n as i64 - 0x1000000) as i32 };
        s * 256
    }

    fn from_number(value: i32) -> (sample: Self) {
        proof {
            lemma_byte_range_values();
        }
        let n: u64 = if value < 0 { (value as i64 + 0x100000000) as u64 } else { value as u64 };
        let word: u64 = n / 256;
        let mut data = [0u8, 0u8, 0u8];
        write_be(word, &mut data);
        let sample = Self([0, data[0], data[1], data[2]]);
        assert(sample.0@ =~= seq![0u8] + data@);
        sample
    }
}

/// `I24_4RJ_BE` keeps the 24 most significant bits of a `i32`: reading back the
/// bytes written for a number gives the number with its least significant byte
/// cleared, and writing the number read from 4 bytes gives the
/// bytes with the padding byte cleared.
#[verifier::rlimit(30)]
pub proof fn lemma_i24_4rj_be_roundtrip(value: i32, bytes: Seq<u8>)
    ensures
        I24_4RJ_BE::spec_decode(I24_4RJ_BE::spec_encode(value)) == value - value % 256,
        bytes.len() == 4 ==> I24_4RJ_BE::spec_encode(I24_4RJ_BE::spec_decode(bytes)) == seq![0u8] + bytes.subrange(1, 4),
{
    lemma_byte_range_values();
    let w = to_unsigned(value as int, 4) / 256;
    lemma_signed_roundtrips(value as int, 0, 4);
    assert(w < 0x100_0000);
    lemma_be_roundtrips(w, 3, bytes);
    assert(0 <= value as int - to_signed(w as int, 3) * 256 < 256);
    assert((seq![0u8] + be_bytes(to_unsigned(value as int, 4) / 256, 3)).subrange(1, 4) =~= be_bytes(to_unsigned(value as int, 4) / 256, 3));
    if bytes.len() == 4 {
        let d = bytes.subrange(1, 4);
        lemma_be_roundtrips(0, 0, d);
        
        lemma_signed_roundtrips(0, be_unsigned(d) as int, 3);
        let v = 256 * to_signed(be_unsigned(d) as int, 3);
        assert(to_unsigned(v, 4) / 256 == be_unsigned(d));
        assert(I24_4RJ_BE::spec_encode(I24_4RJ_BE::spec_decode(bytes)) =~= seq![0u8] + bytes.subrange(1, 4));
    }
}

impl BytesSample for U24_LE {
    type NumericType = u32;

    const BYTES_PER_SAMPLE: usize = 3;

    closed spec fn spec_bytes(&self) -> Seq<u8> {
        self.0@
    }

    open spec fn spec_slice_fits(len: nat) -> bool {
        len >= 3
    }

    /// A sample of this format has 3 bytes.
    proof fn lemma_sample_slice_fits()
        ensures
            Self::BYTES_PER_SAMPLE == 3,
    {
        assert forall|value: u32| #[trigger] Self::spec_encode(value).len() == 3 by {
            lemma_le_number_roundtrip(value as nat / 256, 3);
        }
    }

    fn zero() -> (sample: Self)
        ensures
            sample.spec_bytes() == Seq::new(3nat, |i: int| 0u8),
    {
        let sample = Self([0, 0, 0]);
        assert(sample.0@ =~= Seq::new(3nat, |i: int| 0u8));
        sample
    }

    fn from_slice(bytes: &[u8]) -> (sample: Self)
        ensures
            sample.spec_bytes() == bytes@.subrange(0, 3),
    {
        let sample = Self([bytes[0], bytes[1], bytes[2]]);
        assert(sample.0@ =~= bytes@.subrange(0, 3));
        sample
    }

    fn as_slice(&self) -> (bytes: &[u8])
        ensures
            bytes@.len() == 3,
    {
        &self.0
    }

    fn as_mut_slice(&mut self) -> (bytes: &mut [u8]) {
        &mut self.0
    }

    open spec fn spec_decode(bytes: Seq<u8>) -> u32 {
        (256 * le_unsigned(bytes)) as u32
    }

    open spec fn spec_encode(value: u32) -> Seq<u8> {
        le_bytes(value as nat / 256, 3)
    }

    fn to_number(&self) -> (value: u32) {
        let data = self.0;
        let n = read_le(&data);
        proof {
            lemma_byte_range_values();
            lemma_le_unsigned_bound(data@);
        }
        n as u32 * 256
    }

    fn from_number(value: u32) -> (sample: Self) {
        proof {
            lemma_byte_range_values();
        }
        let word: u64 = value as u64 / 256;
        let mut bytes = [0u8, 0u8, 0u8];
        write_le(word, &mut bytes);
        Self(bytes)
    }
}

/// `U24_LE` keeps the 24 most significant bits of a `u32`: reading back the
/// bytes written for a number gives the number with its least significant byte
/// cleared, and writing the number read from 3 bytes gives the
/// bytes.
#[verifier::rlimit(30)]
pub proof fn lemma_u24_le_roundtrip(value: u32, bytes: Seq<u8>)
    ensures
        U24_LE::spec_decode(U24_LE::spec_encode(value)) == value - value % 256,
        bytes.len() == 3 ==> U24_LE::spec_encode(U24_LE::spec_decode(bytes)) == bytes,
{
    lemma_byte_range_values();
    let w = value as nat / 256;
    lemma_le_number_roundtrip(w, 3);

    if bytes.len() == 3 {
        let d = bytes;
        lemma_le_bytes_roundtrip(d);
        lemma_le_unsigned_bound(d);
        assert(U24_LE::spec_encode(U24_LE::spec_decode(bytes)) =~= bytes);
    }
}

impl BytesSample for U24_4LJ_LE {
    type NumericType = u32;

    const BYTES_PER_SAMPLE: usize = 4;

    closed spec fn spec_bytes(&self) -> Seq<u8> {
        self.0@
    }

    open spec fn spec_slice_fits(len: nat) -> bool {
        len >= 4
    }

    /// A sample of this format has 4 bytes.
    proof fn lemma_sample_slice_fits()
        ensures
            Self::BYTES_PER_SAMPLE == 4,
    {
        assert forall|value: u32| #[trigger] Self::spec_encode(value).len() == 4 by {
            lemma_le_number_roundtrip(value as nat / 256, 3);
        }
    }

    fn zero() -> (sample: Self)
        ensures
            sample.spec_bytes() == Seq::new(4nat, |i: int| 0u8),
    {
        let sample = Self([0, 0, 0, 0]);
        assert(sample.0@ =~= Seq::new(4nat, |i: int| 0u8));
        sample
    }

    fn from_slice(bytes: &[u8]) -> (sample: Self)
        ensures
            sample.spec_bytes() == bytes@.subrange(0, 4),
    {
        let sample = Self([bytes[0], bytes[1], bytes[2], bytes[3]]);
        assert(sample.0@ =~= bytes@.subrange(0, 4));
        sample
    }

    fn as_slice(&self) -> (bytes: &[u8])
        ensures
            bytes@.len() == 4,
    {
        &self.0
    }

    fn as_mut_slice(&mut self) -> (bytes: &mut [u8]) {
        &mut self.0
    }

    open spec fn spec_decode(bytes: Seq<u8>) -> u32 {
        (256 * le_unsigned(bytes.subrange(1, 4))) as u32
    }

    open spec fn spec_encode(value: u32) -> Seq<u8> {
        seq![0u8] + le_bytes(value as nat / 256, 3)
    }

    fn to_number(&self) -> (value: u32) {
        let data = [self.0[1], self.0[2], self.0[3]];
        assert(data@ =~= self.0@.subrange(1, 4));
        let n = read_le(&data);
        proof {
            lemma_byte_range_values();
            lemma_le_unsigned_bound(data@);
        }
        n as u32 * 256
    }

    fn from_number(value: u32) -> (sample: Self) {
        proof {
            lemma_byte_range_values();
        }
        let word: u64 = value as u64 / 256;
        let mut data = [0u8, 0u8, 0u8];
        write_le(word, &mut data);
        let sample = Self([0, data[0], data[1], data[2]]);
        assert(sample.0@ =~= seq![0u8] + data@);
        sample
    }
}

/// `U24_4LJ_LE` keeps the 24 most significant bits of a `u32`: reading back the
/// bytes written for a number gives the number with its least significant byte
/// cleared, and writing the number read from 4 bytes gives the
/// bytes with the padding byte cleared.
#[verifier::rlimit(30)]
pub proof fn lemma_u24_4lj_le_roundtrip(value: u32, bytes: Seq<u8>)
    ensures
        U24_4LJ_LE::spec_decode(U24_4LJ_LE::spec_encode(value)) == value - value % 256,
        bytes.len() == 4 ==> U24_4LJ_LE::spec_encode(U24_4LJ_LE::spec_decode(bytes)) == seq![0u8] + bytes.subrange(1, 4),
{
    lemma_byte_range_values();
    let w = value as nat / 256;
    lemma_le_number_roundtrip(w, 3);
    assert((seq![0u8] + le_bytes(value as nat / 256, 3)).subrange(1, 4) =~= le_bytes(value as nat / 256, 3));
    if bytes.len() == 4 {
        let d = bytes.subrange(1, 4);
        lemma_le_bytes_roundtrip(d);
        lemma_le_unsigned_bound(d);
        assert(U24_4LJ_LE::spec_encode(U24_4LJ_LE::spec_decode(bytes)) =~= seq![0u8] + bytes.subrange(1, 4));
    }
}

impl BytesSample for U24_4RJ_LE {
    type NumericType = u32;

    const BYTES_PER_SAMPLE: usize = 4;

    closed spec fn spec_bytes(&self) -> Seq<u8> {
        self.0@
    }

    open spec fn spec_slice_fits(len: nat) -> bool {
        len >= 4
    }

    /// A sample of this format has 4 bytes.
    proof fn lemma_sample_slice_fits()
        ensures
            Self::BYTES_PER_SAMPLE == 4,
    {
        assert forall|value: u32| #[trigger] Self::spec_encode(value).len() == 4 by {
            lemma_le_number_roundtrip(value as nat / 256, 3);
        }
    }

    fn zero() -> (sample: Self)
        ensures
            sample.spec_bytes() == Seq::new(4nat, |i: int| 0u8),
    {
        let sample = Self([0, 0, 0, 0]);
        assert(sample.0@ =~= Seq::new(4nat, |i: int| 0u8));
        sample
    }

    fn from_slice(bytes: &[u8]) -> (sample: Self)
        ensures
            sample.spec_bytes() == bytes@.subrange(0, 4),
    {
        let sample = Self([bytes[0], bytes[1], bytes[2], bytes[3]]);
        assert(sample.0@ =~= bytes@.subrange(0, 4));
        sample
    }

    fn as_slice(&self) -> (bytes: &[u8])
        ensures
            bytes@.len() == 4,
    {
        &self.0
    }

    fn as_mut_slice(&mut self) -> (bytes: &mut [u8]) {
        &mut self.0
    }

    open spec fn spec_decode(bytes: Seq<u8>) -> u32 {
        (256 * le_unsigned(bytes.subrange(0, 3))) as u32
    }

    open spec fn spec_encode(value: u32) -> Seq<u8> {
        le_bytes(value as nat / 256, 3) + seq![0u8]
    }

    fn to_number(&self) -> (value: u32) {
        let data = [self.0[0], self.0[1], self.0[2]];
        assert(data@ =~= self.0@.subrange(0, 3));
        let n = read_le(&data);
        proof {
            lemma_byte_range_values();
            lemma_le_unsigned_bound(data@);
        }
        n as u32 * 256
    }

    fn from_number(value: u32) -> (sample: Self) {
        proof {
            lemma_byte_range_values();
        }
        let word: u64 = value as u64 / 256;
        let mut data = [0u8, 0u8, 0u8];
        write_le(word, &mut data);
        let sample = Self([data[0], data[1], data[2], 0]);
        assert(sample.0@ =~= data@ + seq![0u8]);
        sample
    }
}

/// `U24_4RJ_LE` keeps the 24 most significant bits of a `u32`: reading back the
/// bytes written for a number gives the number with its least significant byte
/// cleared, and writing the number read from 4 bytes gives the
/// bytes with the padding byte cleared.
#[verifier::rlimit(30)]
pub proof fn lemma_u24_4rj_le_roundtrip(value: u32, bytes: Seq<u8>)
    ensures
        U24_4RJ_LE::spec_decode(U24_4RJ_LE::spec_encode(value)) == value - value % 256,
        bytes.len() == 4 ==> U24_4RJ_LE::spec_encode(U24_4RJ_LE::spec_decode(bytes)) == bytes.subrange(0, 3) + seq![0u8],
{
    lemma_byte_range_values();
    let w = value as nat / 256;
    lemma_le_number_roundtrip(w, 3);
    assert((le_bytes(value as nat / 256, 3) + seq![0u8]).subrange(0, 3) =~= le_bytes(value as nat / 256, 3));
    if bytes.len() == 4 {
        let d = bytes.subrange(0, 3);
        lemma_le_bytes_roundtrip(d);
        lemma_le_unsigned_bound(d);
        assert(U24_4RJ_LE::spec_encode(U24_4RJ_LE::spec_decode(bytes)) =~= bytes.subrange(0, 3) + seq![0u8]);
    }
}

impl BytesSample for U24_BE {
    type NumericType = u32;

    const BYTES_PER_SAMPLE: usize = 3;

    closed spec fn spec_bytes(&self) -> Seq<u8> {
        self.0@
    }

    open spec fn spec_slice_fits(len: nat) -> bool {
        len >= 3
    }

    /// A sample of this format has 3 bytes.
    proof fn lemma_sample_slice_fits()
        ensures
            Self::BYTES_PER_SAMPLE == 3,
    {
        assert forall|value: u32| #[trigger] Self::spec_encode(value).len() == 3 by {
            lemma_be_roundtrips(value as nat / 256, 3, Seq::empty());
        }
    }

    fn zero() -> (sample: Self)
        ensures
            sample.spec_bytes() == Seq::new(3nat, |i: int| 0u8),
    {
        let sample = Self([0, 0, 0]);
        assert(sample.0@ =~= Seq::new(3nat, |i: int| 0u8));
        sample
    }

    fn from_slice(bytes: &[u8]) -> (sample: Self)
        ensures
            sample.spec_bytes() == bytes@.subrange(0, 3),
    {
        let sample = Self([bytes[0], bytes[1], bytes[2]]);
        assert(sample.0@ =~= bytes@.subrange(0, 3));
        sample
    }

    fn as_slice(&self) -> (bytes: &[u8])
        ensures
            bytes@.len() == 3,
    {
        &self.0
    }

    fn as_mut_slice(&mut self) -> (bytes: &mut [u8]) {
        &mut self.0
    }

    open spec fn spec_decode(bytes: Seq<u8>) -> u32 {
        (256 * be_unsigned(bytes)) as u32
    }

    open spec fn spec_encode(value: u32) -> Seq<u8> {
        be_bytes(value as nat / 256, 3)
    }

    fn to_number(&self) -> (value: u32) {
        let data = self.0;
        let n = read_be(&data);
        proof {
            lemma_byte_range_values();
            lemma_be_roundtrips(0, 0, data@);
        }
        n as u32 * 256
    }

    fn from_number(value: u32) -> (sample: Self) {
        proof {
            lemma_byte_range_values();
        }
        let word: u64 = value as u64 / 256;
        let mut bytes = [0u8, 0u8, 0u8];
        write_be(word, &mut bytes);
        Self(bytes)
    }
}

/// `U24_BE` keeps the 24 most significant bits of a `u32`: reading back the
/// bytes written for a number gives the number with its least significant byte
/// cleared, and writing the number read from 3 bytes gives the
/// bytes.
#[verifier::rlimit(30)]
pub proof fn lemma_u24_be_roundtrip(value: u32, bytes: Seq<u8>)
    ensures
        U24_BE::spec_decode(U24_BE::spec_encode(value)) == value - value % 256,
        bytes.len() == 3 ==> U24_BE::spec_encode(U24_BE::spec_decode(bytes)) == bytes,
{
    lemma_byte_range_values();
    let w = value as nat / 256;
    lemma_be_roundtrips(w, 3, bytes);

    if bytes.len() == 3 {
        let d = bytes;
        lemma_be_roundtrips(0, 0, d);
        
        assert(U24_BE::spec_encode(U24_BE::spec_decode(bytes)) =~= bytes);
    }
}

impl BytesSample for U24_4LJ_BE {
    type NumericType = u32;

    const BYTES_PER_SAMPLE: usize = 4;

    closed spec fn spec_bytes(&self) -> Seq<u8> {
        self.0@
    }

    open spec fn spec_slice_fits(len: nat) -> bool {
        len >= 4
    }

    /// A sample of this format has 4 bytes.
    proof fn lemma_sample_slice_fits()
        ensures
            Self::BYTES_PER_SAMPLE == 4,
    {
        assert forall|value: u32| #[trigger] Self::spec_encode(value).len() == 4 by {
            lemma_be_roundtrips(value as nat / 256, 3, Seq::empty());
        }
    }

    fn zero() -> (sample: Self)
        ensures
            sample.spec_bytes() == Seq::new(4nat, |i: int| 0u8),
    {
        let sample = Self([0, 0, 0, 0]);
        assert(sample.0@ =~= Seq::new(4nat, |i: int| 0u8));
        sample
    }

    fn from_slice(bytes: &[u8]) -> (sample: Self)
        ensures
            sample.spec_bytes() == bytes@.subrange(0, 4),
    {
        let sample = Self([bytes[0], bytes[1], bytes[2], bytes[3]]);
        assert(sample.0@ =~= bytes@.subrange(0, 4));
        sample
    }

    fn as_slice(&self) -> (bytes: &[u8])
        ensures
            bytes@.len() == 4,
    {
        &self.0
    }

    fn as_mut_slice(&mut self) -> (bytes: &mut [u8]) {
        &mut self.0
    }

    open spec fn spec_decode(bytes: Seq<u8>) -> u32 {
        (256 * be_unsigned(bytes.subrange(0, 3))) as u32
    }

    open spec fn spec_encode(value: u32) -> Seq<u8> {
        be_bytes(value as nat / 256, 3) + seq![0u8]
    }

    fn to_number(&self) -> (value: u32) {
        let data = [self.0[0], self.0[1], self.0[2]];
        assert(data@ =~= self.0@.subrange(0, 3));
        let n = read_be(&data);
        proof {
            lemma_byte_range_values();
            lemma_be_roundtrips(0, 0, data@);
        }
        n as u32 * 256
    }

    fn from_number(value: u32) -> (sample: Self) {
        proof {
            lemma_byte_range_values();
        }
        let word: u64 = value as u64 / 256;
        let mut data = [0u8, 0u8, 0u8];
        write_be(word, &mut data);
        let sample = Self([data[0], data[1], data[2], 0]);
        assert(sample.0@ =~= data@ + seq![0u8]);
        sample
    }
}

/// `U24_4LJ_BE` keeps the 24 most significant bits of a `u32`: reading back the
/// bytes written for a number gives the number with its least significant byte
/// cleared, and writing the number read from 4 bytes gives the
/// bytes with the padding byte cleared.
#[verifier::rlimit(30)]
pub proof fn lemma_u24_4lj_be_roundtrip(value: u32, bytes: Seq<u8>)
    ensures
        U24_4LJ_BE::spec_decode(U24_4LJ_BE::spec_encode(value)) == value - value % 256,
        bytes.len() == 4 ==> U24_4LJ_BE::spec_encode(U24_4LJ_BE::spec_decode(bytes)) == bytes.subrange(0, 3) + seq![0u8],
{
    lemma_byte_range_values();
    let w = value as nat / 256;
    lemma_be_roundtrips(w, 3, bytes);
    assert((be_bytes(value as nat / 256, 3) + seq![0u8]).subrange(0, 3) =~= be_bytes(value as nat / 256, 3));
    if bytes.len() == 4 {
        let d = bytes.subrange(0, 3);
        lemma_be_roundtrips(0, 0, d);
        
        assert(U24_4LJ_BE::spec_encode(U24_4LJ_BE::spec_decode(bytes)) =~= bytes.subrange(0, 3) + seq![0u8]);
    }
}

impl BytesSample for U24_4RJ_BE {
    type NumericType = u32;

    const BYTES_PER_SAMPLE: usize = 4;

    closed spec fn spec_bytes(&self) -> Seq<u8> {
        self.0@
    }

    open spec fn spec_slice_fits(len: nat) -> bool {
        len >= 4
    }

    /// A sample of this format has 4 bytes.
    proof fn lemma_sample_slice_fits()
        ensures
            Self::BYTES_PER_SAMPLE == 4,
    {
        assert forall|value: u32| #[trigger] Self::spec_encode(value).len() == 4 by {
            lemma_be_roundtrips(value as nat / 256, 3, Seq::empty());
        }
    }

    fn zero() -> (sample: Self)
        ensures
            sample.spec_bytes() == Seq::new(4nat, |i: int| 0u8),
    {
        let sample = Self([0, 0, 0, 0]);
        assert(sample.0@ =~= Seq::new(4nat, |i: int| 0u8));
        sample
    }

    fn from_slice(bytes: &[u8]) -> (sample: Self)
        ensures
            sample.spec_bytes() == bytes@.subrange(0, 4),
    {
        let sample = Self([bytes[0], bytes[1], bytes[2], bytes[3]]);
        assert(sample.0@ =~= bytes@.subrange(0, 4));
        sample
    }

    fn as_slice(&self) -> (bytes: &[u8])
        ensures
            bytes@.len() == 4,
    {
        &self.0
    }

    fn as_mut_slice(&mut self) -> (bytes: &mut [u8]) {
        &mut self.0
    }

    open spec fn spec_decode(bytes: Seq<u8>) -> u32 {
        (256 * be_unsigned(bytes.subrange(1, 4))) as u32
    }

    open spec fn spec_encode(value: u32) -> Seq<u8> {
        seq![0u8] + be_bytes(value as nat / 256, 3)
    }

    fn to_number(&self) -> (value: u32) {
        let data = [self.0[1], self.0[2], self.0[3]];
        assert(data@ =~= self.0@.subrange(1, 4));
        let n = read_be(&data);
        proof {
            lemma_byte_range_values();
            lemma_be_roundtrips(0, 0, data@);
        }
        n as u32 * 256
    }

    fn from_number(value: u32) -> (sample: Self) {
        proof {
            lemma_byte_range_values();
        }
        let word: u64 = value as u64 / 256;
        let mut data = [0u8, 0u8, 0u8];
        write_be(word, &mut data);
        let sample = Self([0, data[0], data[1], data[2]]);
        assert(sample.0@ =~= seq![0u8] + data@);
        sample
    }
}

/// `U24_4RJ_BE` keeps the 24 most significant bits of a `u32`: reading back the
/// bytes written for a number gives the number with its least significant byte
/// cleared, and writing the number read from 4 bytes gives the
/// bytes with the padding byte cleared.
#[verifier::rlimit(30)]
pub proof fn lemma_u24_4rj_be_roundtrip(value: u32, bytes: Seq<u8>)
    ensures
        U24_4RJ_BE::spec_decode(U24_4RJ_BE::spec_encode(value)) == value - value % 256,
        bytes.len() == 4 ==> U24_4RJ_BE::spec_encode(U24_4RJ_BE::spec_decode(bytes)) == seq![0u8] + bytes.subrange(1, 4),
{
    lemma_byte_range_values();
    let w = value as nat / 256;
    lemma_be_roundtrips(w, 3, bytes);
    assert((seq![0u8] + be_bytes(value as nat / 256, 3)).subrange(1, 4) =~= be_bytes(value as nat / 256, 3));
    if bytes.len() == 4 {
        let d = bytes.subrange(1, 4);
        lemma_be_roundtrips(0, 0, d);
        
        assert(U24_4RJ_BE::spec_encode(U24_4RJ_BE::spec_decode(bytes)) =~= seq![0u8] + bytes.subrange(1, 4));
    }
}

impl F32_LE {
    /// The bytes of the sample.
    pub closed spec fn spec_bytes(&self) -> Seq<u8> {
        self.0@
    }

    /// The number of bytes making up each sample value.
    pub const BYTES_PER_SAMPLE: usize = 4;

    /// Create a sample with all bytes set to zero, which is the value zero.
    pub fn zero() -> (sample: Self)
        ensures
            sample.spec_bytes() == Seq::new(4nat, |i: int| 0u8),
    {
        let sample = Self([0, 0, 0, 0]);
        assert(sample.0@ =~= Seq::new(4nat, |i: int| 0u8));
        sample
    }

    /// Create a sample from a slice of exactly 4 raw bytes.
    pub fn from_slice(bytes: &[u8]) -> (sample: Self)
        requires
            bytes@.len() == 4,
        ensures
            sample.spec_bytes() == bytes@,
    {
        let sample = Self([bytes[0], bytes[1], bytes[2], bytes[3]]);
        assert(sample.0@ =~= bytes@);
        sample
    }

    /// Return the raw bytes as a slice.
    pub fn as_slice(&self) -> (bytes: &[u8])
        ensures
            bytes@ == self.spec_bytes(),
            bytes@.len() == 4,
    {
        &self.0
    }

    /// Return the raw bytes as a mutable slice.
    /// What is written through the slice becomes the bytes of the sample.
    pub fn as_mut_slice(&mut self) -> (bytes: &mut [u8])
        ensures
            bytes@ == old(self).spec_bytes(),
            bytes@.len() == 4,
            final(bytes)@ == final(self).spec_bytes(),
    {
        &mut self.0
    }

    /// The bit pattern of the stored `f32`, as [f32::from_bits] takes it.
    pub fn to_bits(&self) -> (bits: u32)
        ensures
            bits == le_unsigned(self.spec_bytes()),
    {
        let n = read_le(&self.0);
        proof {
            lemma_byte_range_values();
            lemma_le_unsigned_bound(self.0@);
        }
        n as u32
    }

    /// Store the `f32` with the bit pattern `bits`, as [f32::to_bits] gives it.
    pub fn from_bits(bits: u32) -> (sample: Self)
        ensures
            sample.spec_bytes() == le_bytes(bits as nat, 4),
    {
        let mut bytes = [0u8, 0u8, 0u8, 0u8];
        write_le(bits as u64, &mut bytes);
        Self(bytes)
    }
}

impl F32_BE {
    /// The bytes of the sample.
    pub closed spec fn spec_bytes(&self) -> Seq<u8> {
        self.0@
    }

    /// The number of bytes making up each sample value.
    pub const BYTES_PER_SAMPLE: usize = 4;

    /// Create a sample with all bytes set to zero, which is the value zero.
    pub fn zero() -> (sample: Self)
        ensures
            sample.spec_bytes() == Seq::new(4nat, |i: int| 0u8),
    {
        let sample = Self([0, 0, 0, 0]);
        assert(sample.0@ =~= Seq::new(4nat, |i: int| 0u8));
        sample
    }

    /// Create a sample from a slice of exactly 4 raw bytes.
    pub fn from_slice(bytes: &[u8]) -> (sample: Self)
        requires
            bytes@.len() == 4,
        ensures
            sample.spec_bytes() == bytes@,
    {
        let sample = Self([bytes[0], bytes[1], bytes[2], bytes[3]]);
        assert(sample.0@ =~= bytes@);
        sample
    }

    /// Return the raw bytes as a slice.
    pub fn as_slice(&self) -> (bytes: &[u8])
        ensures
            bytes@ == self.spec_bytes(),
            bytes@.len() == 4,
    {
        &self.0
    }

    /// Return the raw bytes as a mutable slice.
    /// What is written through the slice becomes the bytes of the sample.
    pub fn as_mut_slice(&mut self) -> (bytes: &mut [u8])
        ensures
            bytes@ == old(self).spec_bytes(),
            bytes@.len() == 4,
            final(bytes)@ == final(self).spec_bytes(),
    {
        &mut self.0
    }

    /// The bit pattern of the stored `f32`, as [f32::from_bits] takes it.
    pub fn to_bits(&self) -> (bits: u32)
        ensures
            bits == be_unsigned(self.spec_bytes()),
    {
        let n = read_be(&self.0);
        proof {
            lemma_byte_range_values();
            lemma_be_roundtrips(0, 0, self.0@);
        }
        n as u32
    }

    /// Store the `f32` with the bit pattern `bits`, as [f32::to_bits] gives it.
    pub fn from_bits(bits: u32) -> (sample: Self)
        ensures
            sample.spec_bytes() == be_bytes(bits as nat, 4),
    {
        let mut bytes = [0u8, 0u8, 0u8, 0u8];
        write_be(bits as u64, &mut bytes);
        Self(bytes)
    }
}

impl F64_LE {
    /// The bytes of the sample.
    pub closed spec fn spec_bytes(&self) -> Seq<u8> {
        self.0@
    }

    /// The number of bytes making up each sample value.
    pub const BYTES_PER_SAMPLE: usize = 8;

    /// Create a sample with all bytes set to zero, which is the value zero.
    pub fn zero() -> (sample: Self)
        ensures
            sample.spec_bytes() == Seq::new(8nat, |i: int| 0u8),
    {
        let sample = Self([0, 0, 0, 0, 0, 0, 0, 0]);
        assert(sample.0@ =~= Seq::new(8nat, |i: int| 0u8));
        sample
    }

    /// Create a sample from a slice of exactly 8 raw bytes.
    pub fn from_slice(bytes: &[u8]) -> (sample: Self)
        requires
            bytes@.len() == 8,
        ensures
            sample.spec_bytes() == bytes@,
    {
        let sample = Self([bytes[0], bytes[1], bytes[2], bytes[3], bytes[4], bytes[5], bytes[6], bytes[7]]);
        assert(sample.0@ =~= bytes@);
        sample
    }

    /// Return the raw bytes as a slice.
    pub fn as_slice(&self) -> (bytes: &[u8])
        ensures
            bytes@ == self.spec_bytes(),
            bytes@.len() == 8,
    {
        &self.0
    }

    /// Return the raw bytes as a mutable slice.
    /// What is written through the slice becomes the bytes of the sample.
    pub fn as_mut_slice(&mut self) -> (bytes: &mut [u8])
        ensures
            bytes@ == old(self).spec_bytes(),
            bytes@.len() == 8,
            final(bytes)@ == final(self).spec_bytes(),
    {
        &mut self.0
    }

    /// The bit pattern of the stored `f64`, as [f64::from_bits] takes it.
    pub fn to_bits(&self) -> (bits: u64)
        ensures
            bits == le_unsigned(self.spec_bytes()),
    {
        let n = read_le(&self.0);
        proof {
            lemma_byte_range_values();
            lemma_le_unsigned_bound(self.0@);
        }
        n as u64
    }

    /// Store the `f64` with the bit pattern `bits`, as [f64::to_bits] gives it.
    pub fn from_bits(bits: u64) -> (sample: Self)
        ensures
            sample.spec_bytes() == le_bytes(bits as nat, 8),
    {
        let mut bytes = [0u8, 0u8, 0u8, 0u8, 0u8, 0u8, 0u8, 0u8];
        write_le(bits as u64, &mut bytes);
        Self(bytes)
    }
}

impl F64_BE {
    /// The bytes of the sample.
    pub closed spec fn spec_bytes(&self) -> Seq<u8> {
        self.0@
    }

    /// The number of bytes making up each sample value.
    pub const BYTES_PER_SAMPLE: usize = 8;

    /// Create a sample with all bytes set to zero, which is the value zero.
    pub fn zero() -> (sample: Self)
        ensures
            sample.spec_bytes() == Seq::new(8nat, |i: int| 0u8),
    {
        let sample = Self([0, 0, 0, 0, 0, 0, 0, 0]);
        assert(sample.0@ =~= Seq::new(8nat, |i: int| 0u8));
        sample
    }

    /// Create a sample from a slice of exactly 8 raw bytes.
    pub fn from_slice(bytes: &[u8]) -> (sample: Self)
        requires
            bytes@.len() == 8,
        ensures
            sample.spec_bytes() == bytes@,
    {
        let sample = Self([bytes[0], bytes[1], bytes[2], bytes[3], bytes[4], bytes[5], bytes[6], bytes[7]]);
        assert(sample.0@ =~= bytes@);
        sample
    }

    /// Return the raw bytes as a slice.
    pub fn as_slice(&self) -> (bytes: &[u8])
        ensures
            bytes@ == self.spec_bytes(),
            bytes@.len() == 8,
    {
        &self.0
    }

    /// Return the raw bytes as a mutable slice.
    /// What is written through the slice becomes the bytes of the sample.
    pub fn as_mut_slice(&mut self) -> (bytes: &mut [u8])
        ensures
            bytes@ == old(self).spec_bytes(),
            bytes@.len() == 8,
            final(bytes)@ == final(self).spec_bytes(),
    {
        &mut self.0
    }

    /// The bit pattern of the stored `f64`, as [f64::from_bits] takes it.
    pub fn to_bits(&self) -> (bits: u64)
        ensures
            bits == be_unsigned(self.spec_bytes()),
    {
        let n = read_be(&self.0);
        proof {
            lemma_byte_range_values();
            lemma_be_roundtrips(0, 0, self.0@);
        }
        n as u64
    }

    /// Store the `f64` with the bit pattern `bits`, as [f64::to_bits] gives it.
    pub fn from_bits(bits: u64) -> (sample: Self)
        ensures
            sample.spec_bytes() == be_bytes(bits as nat, 8),
    {
        let mut bytes = [0u8, 0u8, 0u8, 0u8, 0u8, 0u8, 0u8, 0u8];
        write_be(bits as u64, &mut bytes);
        Self(bytes)
    }
}

/// `I24_4LJ_LE` reads its three data bytes as `I24_LE` does, whatever its padding
/// byte `bytes[0]` holds.
pub proof fn law_i24_4lj_le_ignores_padding(bytes: Seq<u8>)
    requires
        bytes.len() == 4,
    ensures
        I24_4LJ_LE::spec_decode(bytes) == I24_LE::spec_decode(bytes.subrange(1, 4)),
{
}

/// `I24_4RJ_LE` reads its three data bytes as `I24_LE` does, whatever its padding
/// byte `bytes[3]` holds.
pub proof fn law_i24_4rj_le_ignores_padding(bytes: Seq<u8>)
    requires
        bytes.len() == 4,
    ensures
        I24_4RJ_LE::spec_decode(bytes) == I24_LE::spec_decode(bytes.subrange(0, 3)),
{
}

/// `I24_4LJ_BE` reads its three data bytes as `I24_BE` does, whatever its padding
/// byte `bytes[3]` holds.
pub proof fn law_i24_4lj_be_ignores_padding(bytes: Seq<u8>)
    requires
        bytes.len() == 4,
    ensures
        I24_4LJ_BE::spec_decode(bytes) == I24_BE::spec_decode(bytes.subrange(0, 3)),
{
}

/// `I24_4RJ_BE` reads its three data bytes as `I24_BE` does, whatever its padding
/// byte `bytes[0]` holds.
pub proof fn law_i24_4rj_be_ignores_padding(bytes: Seq<u8>)
    requires
        bytes.len() == 4,
    ensures
        I24_4RJ_BE::spec_decode(bytes) == I24_BE::spec_decode(bytes.subrange(1, 4)),
{
}

/// `U24_4LJ_LE` reads its three data bytes as `U24_LE` does, whatever its padding
/// byte `bytes[0]` holds.
pub proof fn law_u24_4lj_le_ignores_padding(bytes: Seq<u8>)
    requires
        bytes.len() == 4,
    ensures
        U24_4LJ_LE::spec_decode(bytes) == U24_LE::spec_decode(bytes.subrange(1, 4)),
{
}

/// `U24_4RJ_LE` reads its three data bytes as `U24_LE` does, whatever its padding
/// byte `bytes[3]` holds.
pub proof fn law_u24_4rj_le_ignores_padding(bytes: Seq<u8>)
    requires
        bytes.len() == 4,
    ensures
        U24_4RJ_LE::spec_decode(bytes) == U24_LE::spec_decode(bytes.subrange(0, 3)),
{
}

/// `U24_4LJ_BE` reads its three data bytes as `U24_BE` does, whatever its padding
/// byte `bytes[3]` holds.
pub proof fn law_u24_4lj_be_ignores_padding(bytes: Seq<u8>)
    requires
        bytes.len() == 4,
    ensures
        U24_4LJ_BE::spec_decode(bytes) == U24_BE::spec_decode(bytes.subrange(0, 3)),
{
}

/// `U24_4RJ_BE` reads its three data bytes as `U24_BE` does, whatever its padding
/// byte `bytes[0]` holds.
pub proof fn law_u24_4rj_be_ignores_padding(bytes: Seq<u8>)
    requires
        bytes.len() == 4,
    ensures
        U24_4RJ_BE::spec_decode(bytes) == U24_BE::spec_decode(bytes.subrange(1, 4)),
{
}

impl BytesSample for ALAW {
    type NumericType = i16;

    const BYTES_PER_SAMPLE: usize = 1;

    closed spec fn spec_bytes(&self) -> Seq<u8> {
        self.0@
    }

    open spec fn spec_slice_fits(len: nat) -> bool {
        len >= 1
    }

    /// A sample of this format has 1 bytes.
    proof fn lemma_sample_slice_fits()
        ensures
            Self::BYTES_PER_SAMPLE == 1,
    {
        
    }

    fn zero() -> (sample: Self)
        ensures
            sample.spec_bytes() == Seq::new(1nat, |i: int| 0u8),
    {
        let sample = Self([0]);
        assert(sample.0@ =~= Seq::new(1nat, |i: int| 0u8));
        sample
    }

    fn from_slice(bytes: &[u8]) -> (sample: Self)
        ensures
            sample.spec_bytes() == bytes@.subrange(0, 1),
    {
        let sample = Self([bytes[0]]);
        assert(sample.0@ =~= bytes@.subrange(0, 1));
        sample
    }

    fn as_slice(&self) -> (bytes: &[u8])
        ensures
            bytes@.len() == 1,
    {
        &self.0
    }

    fn as_mut_slice(&mut self) -> (bytes: &mut [u8]) {
        &mut self.0
    }

    open spec fn spec_decode(bytes: Seq<u8>) -> i16 {
        alaw_value(bytes[0]) as i16
    }

    open spec fn spec_encode(value: i16) -> Seq<u8> {
        seq![alaw_encoded(value)]
    }

    /// Writing the number read gives back the same code word, and re-encoding the number read changes
    /// nothing further.
    fn to_number(&self) -> (value: i16)
        ensures
            Self::spec_encode(value) == self.spec_bytes(),
            Self::spec_decode(Self::spec_encode(value)) == value,
    {
        let value = decode_alaw(self.0[0]);
        proof {
            assert(Self::spec_encode(value) =~= self.spec_bytes());
        }
        value
    }

    fn from_number(value: i16) -> (sample: Self) {
        let sample = Self([encode_alaw(value)]);
        assert(sample.0@ =~= seq![alaw_encoded(value)]);
        sample
    }
}

impl BytesSample for MULAW {
    type NumericType = i16;

    const BYTES_PER_SAMPLE: usize = 1;

    closed spec fn spec_bytes(&self) -> Seq<u8> {
        self.0@
    }

    open spec fn spec_slice_fits(len: nat) -> bool {
        len >= 1
    }

    /// A sample of this format has 1 bytes.
    proof fn lemma_sample_slice_fits()
        ensures
            Self::BYTES_PER_SAMPLE == 1,
    {
        
    }

    fn zero() -> (sample: Self)
        ensures
            sample.spec_bytes() == Seq::new(1nat, |i: int| 0u8),
    {
        let sample = Self([0]);
        assert(sample.0@ =~= Seq::new(1nat, |i: int| 0u8));
        sample
    }

    fn from_slice(bytes: &[u8]) -> (sample: Self)
        ensures
            sample.spec_bytes() == bytes@.subrange(0, 1),
    {
        let sample = Self([bytes[0]]);
        assert(sample.0@ =~= bytes@.subrange(0, 1));
        sample
    }

    fn as_slice(&self) -> (bytes: &[u8])
        ensures
            bytes@.len() == 1,
    {
        &self.0
    }

    fn as_mut_slice(&mut self) -> (bytes: &mut [u8]) {
        &mut self.0
    }

    open spec fn spec_decode(bytes: Seq<u8>) -> i16 {
        ulaw_value(bytes[0]) as i16
    }

    open spec fn spec_encode(value: i16) -> Seq<u8> {
        seq![ulaw_encoded(value)]
    }

    /// Writing the number read gives back the same code word, but for `0x7f`,
    /// the second code word for zero, and re-encoding the number read changes
    /// nothing further.
    fn to_number(&self) -> (value: i16)
        ensures
            self.spec_bytes()[0] != 0x7f ==> Self::spec_encode(value) == self.spec_bytes(),
            Self::spec_decode(Self::spec_encode(value)) == value,
    {
        let value = decode_ulaw(self.0[0]);
        proof {
            if self.0[0] != 0x7f {
                assert(Self::spec_encode(value) =~= self.spec_bytes());
            }
        }
        value
    }

    fn from_number(value: i16) -> (sample: Self) {
        let sample = Self([encode_ulaw(value)]);
        assert(sample.0@ =~= seq![ulaw_encoded(value)]);
        sample
    }
}

/// Four, three, two and one bytes hold these numbers, least significant byte first.
pub proof fn lemma_le_unsigned_small(bytes: Seq<u8>)
    ensures
        bytes.len() == 1 ==> le_unsigned(bytes) == bytes[0] as int,
        bytes.len() == 2 ==> le_unsigned(bytes) == bytes[0] as int + 0x100 * bytes[1],
        bytes.len() == 3 ==> le_unsigned(bytes) == bytes[0] as int + 0x100 * bytes[1] + 0x1_0000 * bytes[2],
        bytes.len() == 4 ==> le_unsigned(bytes) == bytes[0] as int + 0x100 * bytes[1] + 0x1_0000 * bytes[2]
            + 0x100_0000 * bytes[3],
{
    reveal_with_fuel(le_unsigned, 5);
    if bytes.len() >= 1 {
        let b1 = bytes.drop_first();
        if bytes.len() >= 2 {
            let b2 = b1.drop_first();
            if bytes.len() >= 3 {
                let b3 = b2.drop_first();
                if bytes.len() >= 4 {
                    let b4 = b3.drop_first();
                    assert(b4.len() == bytes.len() - 4);
                }
            }
        }
    }
}

/// Eight bytes hold this number, least significant byte first.
pub proof fn lemma_le_unsigned_eight(bytes: Seq<u8>)
    requires
        bytes.len() == 8,
    ensures
        le_unsigned(bytes) == bytes[0] as int + 0x100 * bytes[1] + 0x1_0000 * bytes[2] + 0x100_0000 * bytes[3]
            + 0x1_0000_0000 * bytes[4] + 0x100_0000_0000 * bytes[5] + 0x1_0000_0000_0000 * bytes[6]
            + 0x100_0000_0000_0000 * bytes[7],
{
    lemma_byte_range_values();
    let high = bytes.subrange(4, 8);
    lemma_le_unsigned_small(high);
    lemma_le_unsigned_small(bytes.subrange(0, 4));
    lemma_le_unsigned_split(bytes, 4);
}

/// The number that bytes hold is the number of their first `k` bytes plus the
/// number of the rest, scaled by the range of `k` bytes.
pub proof fn lemma_le_unsigned_split(bytes: Seq<u8>, k: nat)
    requires
        k <= bytes.len(),
    ensures
        le_unsigned(bytes) == le_unsigned(bytes.subrange(0, k as int)) + byte_range(k) * le_unsigned(
            bytes.subrange(k as int, bytes.len() as int),
        ),
    decreases k,
{
    if k == 0 {
        assert(bytes.subrange(0, 0) =~= Seq::<u8>::empty());
        assert(bytes.subrange(0, bytes.len() as int) =~= bytes);
        assert(le_unsigned(Seq::<u8>::empty()) == 0);
        assert(byte_range(0) == 1);
    } else {
        let rest = bytes.drop_first();
        lemma_le_unsigned_split(rest, (k - 1) as nat);
        assert(bytes.subrange(0, k as int).drop_first() =~= rest.subrange(0, k - 1));
        assert(rest.subrange(k - 1, rest.len() as int) =~= bytes.subrange(k as int, bytes.len() as int));
        let prefix = bytes.subrange(0, k as int);
        let a = le_unsigned(rest.subrange(0, k - 1));
        let r = le_unsigned(bytes.subrange(k as int, bytes.len() as int));
        let b = byte_range((k - 1) as nat);
        assert(byte_range(k) == 256 * b);
        assert(le_unsigned(bytes) == bytes[0] as nat + 256 * le_unsigned(rest));
        assert(le_unsigned(prefix) == prefix[0] as nat + 256 * le_unsigned(prefix.drop_first()));
        assert(prefix[0] == bytes[0]);
        assert(le_unsigned(prefix.drop_first()) == a);
        assert(le_unsigned(rest) == a + b * r);
        assert(256 * (a + b * r) == 256 * a + (256 * b) * r) by (nonlinear_arith);
        assert(le_unsigned(bytes) == le_unsigned(prefix) + byte_range(k) * r);
    }
}

/// The bytes of `n`, least significant first, are its digits in base 256.
pub proof fn lemma_le_bytes_digits(n: nat, len: nat)
    ensures
        forall|i: int| 0 <= i < len ==> #[trigger] le_bytes(n, len)[i] == ((n / byte_range(i as nat)) % 256) as u8,
        le_bytes(n, len).len() == len,
    decreases len,
{
    lemma_le_number_roundtrip(n, len);
    if len > 0 {
        lemma_le_bytes_digits(n / 256, (len - 1) as nat);
        let rest = le_bytes(n / 256, (len - 1) as nat);
        assert(le_bytes(n, len) == seq![(n % 256) as u8] + rest);
        assert forall|i: int| 0 <= i < len implies #[trigger] le_bytes(n, len)[i] == ((n / byte_range(i as nat)) % 256) as u8 by {
            if i == 0 {
                assert(byte_range(0) == 1);
                assert(n / 1 == n);
                assert(le_bytes(n, len)[0] == (n % 256) as u8);
            } else {
                assert(le_bytes(n, len)[i] == rest[i - 1]);
                let j = (i - 1) as nat;
                assert(rest[i - 1] == (((n / 256) as nat / byte_range(j)) % 256) as u8);
                lemma_byte_range_positive(j);
                vstd::arithmetic::div_mod::lemma_div_denominator(n as int, 256, byte_range(j) as int);
                assert(byte_range(i as nat) == 256 * byte_range(j));
                assert((n / 256) as nat / byte_range(j) == n / byte_range(i as nat));
                assert(le_bytes(n, len)[i] == ((n / byte_range(i as nat)) % 256) as u8);
            }
        }
    }
}

/// `I8` holds a two's complement number in 1 bytes, least significant byte first: reading takes the bytes
/// as base 256 digits, and writing stores the digits of the number taken
/// modulo 0x100.
pub proof fn law_i8_layout(bytes: Seq<u8>, value: i8)
    ensures
        bytes.len() == 1 ==> I8::spec_decode(bytes) as int == bytes[0] as int - (if bytes[0] >= 128 { 0x100int } else { 0int }),
        I8::spec_encode(value) == seq![(((value as int) % 0x100) % 256) as u8],
{
    lemma_byte_range_values();
    if bytes.len() == 1 {
        lemma_le_unsigned_small(bytes);
        lemma_le_unsigned_bound(bytes);
        lemma_signed_roundtrips(0, le_unsigned(bytes) as int, 1);
    }
    let u = to_unsigned(value as int, 1);
    assert(u == (value as int) % 0x100);
    lemma_le_bytes_digits(u, 1);
    assert(I8::spec_encode(value) =~= seq![(((value as int) % 0x100) % 256) as u8]);
}

/// `U8` holds an unsigned number in 1 bytes, least significant byte first: reading takes the bytes
/// as base 256 digits, and writing stores the digits of the number taken
/// modulo 0x100.
pub proof fn law_u8_layout(bytes: Seq<u8>, value: u8)
    ensures
        bytes.len() == 1 ==> U8::spec_decode(bytes) as int == bytes[0] as int,
        U8::spec_encode(value) == seq![(((value as int) % 0x100) % 256) as u8],
{
    lemma_byte_range_values();
    if bytes.len() == 1 {
        lemma_le_unsigned_small(bytes);
        lemma_le_unsigned_bound(bytes);
    }
    let u = value as nat;
    assert(u == (value as int) % 0x100);
    lemma_le_bytes_digits(u, 1);
    assert(U8::spec_encode(value) =~= seq![(((value as int) % 0x100) % 256) as u8]);
}

/// `I16_LE` holds a two's complement number in 2 bytes, least significant byte first: reading takes the bytes
/// as base 256 digits, and writing stores the digits of the number taken
/// modulo 0x10000.
pub proof fn law_i16_le_layout(bytes: Seq<u8>, value: i16)
    ensures
        bytes.len() == 2 ==> I16_LE::spec_decode(bytes) as int == bytes[0] as int + 0x100 * bytes[1] - (if bytes[1] >= 128 { 0x10000int } else { 0int }),
        I16_LE::spec_encode(value) == seq![(((value as int) % 0x10000) % 256) as u8, (((value as int) % 0x10000) / 0x100 % 256) as u8],
{
    lemma_byte_range_values();
    if bytes.len() == 2 {
        lemma_le_unsigned_small(bytes);
        lemma_le_unsigned_bound(bytes);
        lemma_signed_roundtrips(0, le_unsigned(bytes) as int, 2);
    }
    let u = to_unsigned(value as int, 2);
    assert(u == (value as int) % 0x10000);
    lemma_le_bytes_digits(u, 2);
    assert(I16_LE::spec_encode(value) =~= seq![(((value as int) % 0x10000) % 256) as u8, (((value as int) % 0x10000) / 0x100 % 256) as u8]);
}

/// `I16_BE` holds a two's complement number in 2 bytes, most significant byte first: reading takes the bytes
/// as base 256 digits, and writing stores the digits of the number taken
/// modulo 0x10000.
pub proof fn law_i16_be_layout(bytes: Seq<u8>, value: i16)
    ensures
        bytes.len() == 2 ==> I16_BE::spec_decode(bytes) as int == bytes[1] as int + 0x100 * bytes[0] - (if bytes[0] >= 128 { 0x10000int } else { 0int }),
        I16_BE::spec_encode(value) == seq![(((value as int) % 0x10000) / 0x100 % 256) as u8, (((value as int) % 0x10000) % 256) as u8],
{
    lemma_byte_range_values();
    if bytes.len() == 2 {
        lemma_le_unsigned_small(bytes.reverse());
        lemma_le_unsigned_bound(bytes.reverse());
        lemma_signed_roundtrips(0, le_unsigned(bytes.reverse()) as int, 2);
    }
    let u = to_unsigned(value as int, 2);
    assert(u == (value as int) % 0x10000);
    lemma_le_bytes_digits(u, 2);
    assert(I16_BE::spec_encode(value) =~= seq![(((value as int) % 0x10000) / 0x100 % 256) as u8, (((value as int) % 0x10000) % 256) as u8]);
}

/// `U16_LE` holds an unsigned number in 2 bytes, least significant byte first: reading takes the bytes
/// as base 256 digits, and writing stores the digits of the number taken
/// modulo 0x10000.
pub proof fn law_u16_le_layout(bytes: Seq<u8>, value: u16)
    ensures
        bytes.len() == 2 ==> U16_LE::spec_decode(bytes) as int == bytes[0] as int + 0x100 * bytes[1],
        U16_LE::spec_encode(value) == seq![(((value as int) % 0x10000) % 256) as u8, (((value as int) % 0x10000) / 0x100 % 256) as u8],
{
    lemma_byte_range_values();
    if bytes.len() == 2 {
        lemma_le_unsigned_small(bytes);
        lemma_le_unsigned_bound(bytes);
    }
    let u = value as nat;
    assert(u == (value as int) % 0x10000);
    lemma_le_bytes_digits(u, 2);
    assert(U16_LE::spec_encode(value) =~= seq![(((value as int) % 0x10000) % 256) as u8, (((value as int) % 0x10000) / 0x100 % 256) as u8]);
}

/// `U16_BE` holds an unsigned number in 2 bytes, most significant byte first: reading takes the bytes
/// as base 256 digits, and writing stores the digits of the number taken
/// modulo 0x10000.
pub proof fn law_u16_be_layout(bytes: Seq<u8>, value: u16)
    ensures
        bytes.len() == 2 ==> U16_BE::spec_decode(bytes) as int == bytes[1] as int + 0x100 * bytes[0],
        U16_BE::spec_encode(value) == seq![(((value as int) % 0x10000) / 0x100 % 256) as u8, (((value as int) % 0x10000) % 256) as u8],
{
    lemma_byte_range_values();
    if bytes.len() == 2 {
        lemma_le_unsigned_small(bytes.reverse());
        lemma_le_unsigned_bound(bytes.reverse());
    }
    let u = value as nat;
    assert(u == (value as int) % 0x10000);
    lemma_le_bytes_digits(u, 2);
    assert(U16_BE::spec_encode(value) =~= seq![(((value as int) % 0x10000) / 0x100 % 256) as u8, (((value as int) % 0x10000) % 256) as u8]);
}

/// `I32_LE` holds a two's complement number in 4 bytes, least significant byte first: reading takes the bytes
/// as base 256 digits, and writing stores the digits of the number taken
/// modulo 0x100000000.
pub proof fn law_i32_le_layout(bytes: Seq<u8>, value: i32)
    ensures
        bytes.len() == 4 ==> I32_LE::spec_decode(bytes) as int == bytes[0] as int + 0x100 * bytes[1] + 0x10000 * bytes[2] + 0x1000000 * bytes[3] - (if bytes[3] >= 128 { 0x100000000int } else { 0int }),
        I32_LE::spec_encode(value) == seq![(((value as int) % 0x100000000) % 256) as u8, (((value as int) % 0x100000000) / 0x100 % 256) as u8, (((value as int) % 0x100000000) / 0x10000 % 256) as u8, (((value as int) % 0x100000000) / 0x1000000 % 256) as u8],
{
    lemma_byte_range_values();
    if bytes.len() == 4 {
        lemma_le_unsigned_small(bytes);
        lemma_le_unsigned_bound(bytes);
        lemma_signed_roundtrips(0, le_unsigned(bytes) as int, 4);
    }
    let u = to_unsigned(value as int, 4);
    assert(u == (value as int) % 0x100000000);
    lemma_le_bytes_digits(u, 4);
    assert(I32_LE::spec_encode(value) =~= seq![(((value as int) % 0x100000000) % 256) as u8, (((value as int) % 0x100000000) / 0x100 % 256) as u8, (((value as int) % 0x100000000) / 0x10000 % 256) as u8, (((value as int) % 0x100000000) / 0x1000000 % 256) as u8]);
}

/// `I32_BE` holds a two's complement number in 4 bytes, most significant byte first: reading takes the bytes
/// as base 256 digits, and writing stores the digits of the number taken
/// modulo 0x100000000.
pub proof fn law_i32_be_layout(bytes: Seq<u8>, value: i32)
    ensures
        bytes.len() == 4 ==> I32_BE::spec_decode(bytes) as int == bytes[3] as int + 0x100 * bytes[2] + 0x10000 * bytes[1] + 0x1000000 * bytes[0] - (if bytes[0] >= 128 { 0x100000000int } else { 0int }),
        I32_BE::spec_encode(value) == seq![(((value as int) % 0x100000000) / 0x1000000 % 256) as u8, (((value as int) % 0x100000000) / 0x10000 % 256) as u8, (((value as int) % 0x100000000) / 0x100 % 256) as u8, (((value as int) % 0x100000000) % 256) as u8],
{
    lemma_byte_range_values();
    if bytes.len() == 4 {
        lemma_le_unsigned_small(bytes.reverse());
        lemma_le_unsigned_bound(bytes.reverse());
        lemma_signed_roundtrips(0, le_unsigned(bytes.reverse()) as int, 4);
    }
    let u = to_unsigned(value as int, 4);
    assert(u == (value as int) % 0x100000000);
    lemma_le_bytes_digits(u, 4);
    assert(I32_BE::spec_encode(value) =~= seq![(((value as int) % 0x100000000) / 0x1000000 % 256) as u8, (((value as int) % 0x100000000) / 0x10000 % 256) as u8, (((value as int) % 0x100000000) / 0x100 % 256) as u8, (((value as int) % 0x100000000) % 256) as u8]);
}

/// `U32_LE` holds an unsigned number in 4 bytes, least significant byte first: reading takes the bytes
/// as base 256 digits, and writing stores the digits of the number taken
/// modulo 0x100000000.
pub proof fn law_u32_le_layout(bytes: Seq<u8>, value: u32)
    ensures
        bytes.len() == 4 ==> U32_LE::spec_decode(bytes) as int == bytes[0] as int + 0x100 * bytes[1] + 0x10000 * bytes[2] + 0x1000000 * bytes[3],
        U32_LE::spec_encode(value) == seq![(((value as int) % 0x100000000) % 256) as u8, (((value as int) % 0x100000000) / 0x100 % 256) as u8, (((value as int) % 0x100000000) / 0x10000 % 256) as u8, (((value as int) % 0x100000000) / 0x1000000 % 256) as u8],
{
    lemma_byte_range_values();
    if bytes.len() == 4 {
        lemma_le_unsigned_small(bytes);
        lemma_le_unsigned_bound(bytes);
    }
    let u = value as nat;
    assert(u == (value as int) % 0x100000000);
    lemma_le_bytes_digits(u, 4);
    assert(U32_LE::spec_encode(value) =~= seq![(((value as int) % 0x100000000) % 256) as u8, (((value as int) % 0x100000000) / 0x100 % 256) as u8, (((value as int) % 0x100000000) / 0x10000 % 256) as u8, (((value as int) % 0x100000000) / 0x1000000 % 256) as u8]);
}

/// `U32_BE` holds an unsigned number in 4 bytes, most significant byte first: reading takes the bytes
/// as base 256 digits, and writing stores the digits of the number taken
/// modulo 0x100000000.
pub proof fn law_u32_be_layout(bytes: Seq<u8>, value: u32)
    ensures
        bytes.len() == 4 ==> U32_BE::spec_decode(bytes) as int == bytes[3] as int + 0x100 * bytes[2] + 0x10000 * bytes[1] + 0x1000000 * bytes[0],
        U32_BE::spec_encode(value) == seq![(((value as int) % 0x100000000) / 0x1000000 % 256) as u8, (((value as int) % 0x100000000) / 0x10000 % 256) as u8, (((value as int) % 0x100000000) / 0x100 % 256) as u8, (((value as int) % 0x100000000) % 256) as u8],
{
    lemma_byte_range_values();
    if bytes.len() == 4 {
        lemma_le_unsigned_small(bytes.reverse());
        lemma_le_unsigned_bound(bytes.reverse());
    }
    let u = value as nat;
    assert(u == (value as int) % 0x100000000);
    lemma_le_bytes_digits(u, 4);
    assert(U32_BE::spec_encode(value) =~= seq![(((value as int) % 0x100000000) / 0x1000000 % 256) as u8, (((value as int) % 0x100000000) / 0x10000 % 256) as u8, (((value as int) % 0x100000000) / 0x100 % 256) as u8, (((value as int) % 0x100000000) % 256) as u8]);
}

/// `I64_LE` holds a two's complement number in 8 bytes, least significant byte first: reading takes the bytes
/// as base 256 digits, and writing stores the digits of the number taken
/// modulo 0x10000000000000000.
pub proof fn law_i64_le_layout(bytes: Seq<u8>, value: i64)
    ensures
        bytes.len() == 8 ==> I64_LE::spec_decode(bytes) as int == bytes[0] as int + 0x100 * bytes[1] + 0x10000 * bytes[2] + 0x1000000 * bytes[3] + 0x100000000 * bytes[4] + 0x10000000000 * bytes[5] + 0x1000000000000 * bytes[6] + 0x100000000000000 * bytes[7] - (if bytes[7] >= 128 { 0x10000000000000000int } else { 0int }),
        I64_LE::spec_encode(value) == seq![(((value as int) % 0x10000000000000000) % 256) as u8, (((value as int) % 0x10000000000000000) / 0x100 % 256) as u8, (((value as int) % 0x10000000000000000) / 0x10000 % 256) as u8, (((value as int) % 0x10000000000000000) / 0x1000000 % 256) as u8, (((value as int) % 0x10000000000000000) / 0x100000000 % 256) as u8, (((value as int) % 0x10000000000000000) / 0x10000000000 % 256) as u8, (((value as int) % 0x10000000000000000) / 0x1000000000000 % 256) as u8, (((value as int) % 0x10000000000000000) / 0x100000000000000 % 256) as u8],
{
    lemma_byte_range_values();
    if bytes.len() == 8 {
        lemma_le_unsigned_eight(bytes);
        lemma_le_unsigned_bound(bytes);
        lemma_signed_roundtrips(0, le_unsigned(bytes) as int, 8);
    }
    let u = to_unsigned(value as int, 8);
    assert(u == (value as int) % 0x10000000000000000);
    lemma_le_bytes_digits(u, 8);
    assert(I64_LE::spec_encode(value) =~= seq![(((value as int) % 0x10000000000000000) % 256) as u8, (((value as int) % 0x10000000000000000) / 0x100 % 256) as u8, (((value as int) % 0x10000000000000000) / 0x10000 % 256) as u8, (((value as int) % 0x10000000000000000) / 0x1000000 % 256) as u8, (((value as int) % 0x10000000000000000) / 0x100000000 % 256) as u8, (((value as int) % 0x10000000000000000) / 0x10000000000 % 256) as u8, (((value as int) % 0x10000000000000000) / 0x1000000000000 % 256) as u8, (((value as int) % 0x10000000000000000) / 0x100000000000000 % 256) as u8]);
}

/// `I64_BE` holds a two's complement number in 8 bytes, most significant byte first: reading takes the bytes
/// as base 256 digits, and writing stores the digits of the number taken
/// modulo 0x10000000000000000.
pub proof fn law_i64_be_layout(bytes: Seq<u8>, value: i64)
    ensures
        bytes.len() == 8 ==> I64_BE::spec_decode(bytes) as int == bytes[7] as int + 0x100 * bytes[6] + 0x10000 * bytes[5] + 0x1000000 * bytes[4] + 0x100000000 * bytes[3] + 0x10000000000 * bytes[2] + 0x1000000000000 * bytes[1] + 0x100000000000000 * bytes[0] - (if bytes[0] >= 128 { 0x10000000000000000int } else { 0int }),
        I64_BE::spec_encode(value) == seq![(((value as int) % 0x10000000000000000) / 0x100000000000000 % 256) as u8, (((value as int) % 0x10000000000000000) / 0x1000000000000 % 256) as u8, (((value as int) % 0x10000000000000000) / 0x10000000000 % 256) as u8, (((value as int) % 0x10000000000000000) / 0x100000000 % 256) as u8, (((value as int) % 0x10000000000000000) / 0x1000000 % 256) as u8, (((value as int) % 0x10000000000000000) / 0x10000 % 256) as u8, (((value as int) % 0x10000000000000000) / 0x100 % 256) as u8, (((value as int) % 0x10000000000000000) % 256) as u8],
{
    lemma_byte_range_values();
    if bytes.len() == 8 {
        lemma_le_unsigned_eight(bytes.reverse());
        lemma_le_unsigned_bound(bytes.reverse());
        lemma_signed_roundtrips(0, le_unsigned(bytes.reverse()) as int, 8);
    }
    let u = to_unsigned(value as int, 8);
    assert(u == (value as int) % 0x10000000000000000);
    lemma_le_bytes_digits(u, 8);
    assert(I64_BE::spec_encode(value) =~= seq![(((value as int) % 0x10000000000000000) / 0x100000000000000 % 256) as u8, (((value as int) % 0x10000000000000000) / 0x1000000000000 % 256) as u8, (((value as int) % 0x10000000000000000) / 0x10000000000 % 256) as u8, (((value as int) % 0x10000000000000000) / 0x100000000 % 256) as u8, (((value as int) % 0x10000000000000000) / 0x1000000 % 256) as u8, (((value as int) % 0x10000000000000000) / 0x10000 % 256) as u8, (((value as int) % 0x10000000000000000) / 0x100 % 256) as u8, (((value as int) % 0x10000000000000000) % 256) as u8]);
}

/// `U64_LE` holds an unsigned number in 8 bytes, least significant byte first: reading takes the bytes
/// as base 256 digits, and writing stores the digits of the number taken
/// modulo 0x10000000000000000.
pub proof fn law_u64_le_layout(bytes: Seq<u8>, value: u64)
    ensures
        bytes.len() == 8 ==> U64_LE::spec_decode(bytes) as int == bytes[0] as int + 0x100 * bytes[1] + 0x10000 * bytes[2] + 0x1000000 * bytes[3] + 0x100000000 * bytes[4] + 0x10000000000 * bytes[5] + 0x1000000000000 * bytes[6] + 0x100000000000000 * bytes[7],
        U64_LE::spec_encode(value) == seq![(((value as int) % 0x10000000000000000) % 256) as u8, (((value as int) % 0x10000000000000000) / 0x100 % 256) as u8, (((value as int) % 0x10000000000000000) / 0x10000 % 256) as u8, (((value as int) % 0x10000000000000000) / 0x1000000 % 256) as u8, (((value as int) % 0x10000000000000000) / 0x100000000 % 256) as u8, (((value as int) % 0x10000000000000000) / 0x10000000000 % 256) as u8, (((value as int) % 0x10000000000000000) / 0x1000000000000 % 256) as u8, (((value as int) % 0x10000000000000000) / 0x100000000000000 % 256) as u8],
{
    lemma_byte_range_values();
    if bytes.len() == 8 {
        lemma_le_unsigned_eight(bytes);
        lemma_le_unsigned_bound(bytes);
    }
    let u = value as nat;
    assert(u == (value as int) % 0x10000000000000000);
    lemma_le_bytes_digits(u, 8);
    assert(U64_LE::spec_encode(value) =~= seq![(((value as int) % 0x10000000000000000) % 256) as u8, (((value as int) % 0x10000000000000000) / 0x100 % 256) as u8, (((value as int) % 0x10000000000000000) / 0x10000 % 256) as u8, (((value as int) % 0x10000000000000000) / 0x1000000 % 256) as u8, (((value as int) % 0x10000000000000000) / 0x100000000 % 256) as u8, (((value as int) % 0x10000000000000000) / 0x10000000000 % 256) as u8, (((value as int) % 0x10000000000000000) / 0x1000000000000 % 256) as u8, (((value as int) % 0x10000000000000000) / 0x100000000000000 % 256) as u8]);
}

/// `U64_BE` holds an unsigned number in 8 bytes, most significant byte first: reading takes the bytes
/// as base 256 digits, and writing stores the digits of the number taken
/// modulo 0x10000000000000000.
pub proof fn law_u64_be_layout(bytes: Seq<u8>, value: u64)
    ensures
        bytes.len() == 8 ==> U64_BE::spec_decode(bytes) as int == bytes[7] as int + 0x100 * bytes[6] + 0x10000 * bytes[5] + 0x1000000 * bytes[4] + 0x100000000 * bytes[3] + 0x10000000000 * bytes[2] + 0x1000000000000 * bytes[1] + 0x100000000000000 * bytes[0],
        U64_BE::spec_encode(value) == seq![(((value as int) % 0x10000000000000000) / 0x100000000000000 % 256) as u8, (((value as int) % 0x10000000000000000) / 0x1000000000000 % 256) as u8, (((value as int) % 0x10000000000000000) / 0x10000000000 % 256) as u8, (((value as int) % 0x10000000000000000) / 0x100000000 % 256) as u8, (((value as int) % 0x10000000000000000) / 0x1000000 % 256) as u8, (((value as int) % 0x10000000000000000) / 0x10000 % 256) as u8, (((value as int) % 0x10000000000000000) / 0x100 % 256) as u8, (((value as int) % 0x10000000000000000) % 256) as u8],
{
    lemma_byte_range_values();
    if bytes.len() == 8 {
        lemma_le_unsigned_eight(bytes.reverse());
        lemma_le_unsigned_bound(bytes.reverse());
    }
    let u = value as nat;
    assert(u == (value as int) % 0x10000000000000000);
    lemma_le_bytes_digits(u, 8);
    assert(U64_BE::spec_encode(value) =~= seq![(((value as int) % 0x10000000000000000) / 0x100000000000000 % 256) as u8, (((value as int) % 0x10000000000000000) / 0x1000000000000 % 256) as u8, (((value as int) % 0x10000000000000000) / 0x10000000000 % 256) as u8, (((value as int) % 0x10000000000000000) / 0x100000000 % 256) as u8, (((value as int) % 0x10000000000000000) / 0x1000000 % 256) as u8, (((value as int) % 0x10000000000000000) / 0x10000 % 256) as u8, (((value as int) % 0x10000000000000000) / 0x100 % 256) as u8, (((value as int) % 0x10000000000000000) % 256) as u8]);
}

/// `I24_LE` holds the 24 most significant bits of a signed 32 bit number in
/// three bytes, least significant byte first: reading takes the three bytes as the upper base
/// 256 digits of the number, and writing stores those digits of the number.
pub proof fn law_i24_le_layout(bytes: Seq<u8>, value: i32)
    ensures
        bytes.len() == 3 ==> I24_LE::spec_decode(bytes) as int == 0x100 * (bytes[0] as int + 0x100 * bytes[1] + 0x10000 * bytes[2] - (if bytes[2] >= 128 { 0x1000000int } else { 0int })),
        I24_LE::spec_encode(value) == seq![(((value as int) % 0x100000000 / 0x100) % 256) as u8, (((value as int) % 0x100000000 / 0x100) / 0x100 % 256) as u8, (((value as int) % 0x100000000 / 0x100) / 0x10000 % 256) as u8],
{
    lemma_byte_range_values();
    if bytes.len() == 3 {
        lemma_le_unsigned_small(bytes);
        lemma_le_unsigned_bound(bytes);
        lemma_signed_roundtrips(0, le_unsigned(bytes) as int, 3);
    }
    lemma_signed_roundtrips(value as int, 0, 4);
    let w = to_unsigned(value as int, 4) / 256;
    assert(w == (value as int) % 0x100000000 / 0x100);
    lemma_le_bytes_digits(w, 3);
    assert(I24_LE::spec_encode(value) =~= seq![(((value as int) % 0x100000000 / 0x100) % 256) as u8, (((value as int) % 0x100000000 / 0x100) / 0x100 % 256) as u8, (((value as int) % 0x100000000 / 0x100) / 0x10000 % 256) as u8]);
}

/// `I24_4LJ_LE` holds the 24 most significant bits of a signed 32 bit number in
/// three bytes, with a zero padding byte before them, least significant byte first: reading takes the three bytes as the upper base
/// 256 digits of the number, and writing stores those digits of the number.
pub proof fn law_i24_4lj_le_layout(bytes: Seq<u8>, value: i32)
    ensures
        bytes.len() == 4 ==> I24_4LJ_LE::spec_decode(bytes) as int == 0x100 * (bytes[1] as int + 0x100 * bytes[2] + 0x10000 * bytes[3] - (if bytes[3] >= 128 { 0x1000000int } else { 0int })),
        I24_4LJ_LE::spec_encode(value) == seq![0u8, (((value as int) % 0x100000000 / 0x100) % 256) as u8, (((value as int) % 0x100000000 / 0x100) / 0x100 % 256) as u8, (((value as int) % 0x100000000 / 0x100) / 0x10000 % 256) as u8],
{
    lemma_byte_range_values();
    if bytes.len() == 4 {
        lemma_le_unsigned_small(bytes.subrange(1, 4));
        lemma_le_unsigned_bound(bytes.subrange(1, 4));
        lemma_signed_roundtrips(0, le_unsigned(bytes.subrange(1, 4)) as int, 3);
    }
    lemma_signed_roundtrips(value as int, 0, 4);
    let w = to_unsigned(value as int, 4) / 256;
    assert(w == (value as int) % 0x100000000 / 0x100);
    lemma_le_bytes_digits(w, 3);
    assert(I24_4LJ_LE::spec_encode(value) =~= seq![0u8, (((value as int) % 0x100000000 / 0x100) % 256) as u8, (((value as int) % 0x100000000 / 0x100) / 0x100 % 256) as u8, (((value as int) % 0x100000000 / 0x100) / 0x10000 % 256) as u8]);
}

/// `I24_4RJ_LE` holds the 24 most significant bits of a signed 32 bit number in
/// three bytes, with a zero padding byte after them, least significant byte first: reading takes the three bytes as the upper base
/// 256 digits of the number, and writing stores those digits of the number.
pub proof fn law_i24_4rj_le_layout(bytes: Seq<u8>, value: i32)
    ensures
        bytes.len() == 4 ==> I24_4RJ_LE::spec_decode(bytes) as int == 0x100 * (bytes[0] as int + 0x100 * bytes[1] + 0x10000 * bytes[2] - (if bytes[2] >= 128 { 0x1000000int } else { 0int })),
        I24_4RJ_LE::spec_encode(value) == seq![(((value as int) % 0x100000000 / 0x100) % 256) as u8, (((value as int) % 0x100000000 / 0x100) / 0x100 % 256) as u8, (((value as int) % 0x100000000 / 0x100) / 0x10000 % 256) as u8, 0u8],
{
    lemma_byte_range_values();
    if bytes.len() == 4 {
        lemma_le_unsigned_small(bytes.subrange(0, 3));
        lemma_le_unsigned_bound(bytes.subrange(0, 3));
        lemma_signed_roundtrips(0, le_unsigned(bytes.subrange(0, 3)) as int, 3);
    }
    lemma_signed_roundtrips(value as int, 0, 4);
    let w = to_unsigned(value as int, 4) / 256;
    assert(w == (value as int) % 0x100000000 / 0x100);
    lemma_le_bytes_digits(w, 3);
    assert(I24_4RJ_LE::spec_encode(value) =~= seq![(((value as int) % 0x100000000 / 0x100) % 256) as u8, (((value as int) % 0x100000000 / 0x100) / 0x100 % 256) as u8, (((value as int) % 0x100000000 / 0x100) / 0x10000 % 256) as u8, 0u8]);
}

/// `I24_BE` holds the 24 most significant bits of a signed 32 bit number in
/// three bytes, most significant byte first: reading takes the three bytes as the upper base
/// 256 digits of the number, and writing stores those digits of the number.
pub proof fn law_i24_be_layout(bytes: Seq<u8>, value: i32)
    ensures
        bytes.len() == 3 ==> I24_BE::spec_decode(bytes) as int == 0x100 * (bytes[2] as int + 0x100 * bytes[1] + 0x10000 * bytes[0] - (if bytes[0] >= 128 { 0x1000000int } else { 0int })),
        I24_BE::spec_encode(value) == seq![(((value as int) % 0x100000000 / 0x100) / 0x10000 % 256) as u8, (((value as int) % 0x100000000 / 0x100) / 0x100 % 256) as u8, (((value as int) % 0x100000000 / 0x100) % 256) as u8],
{
    lemma_byte_range_values();
    if bytes.len() == 3 {
        lemma_le_unsigned_small(bytes.reverse());
        lemma_le_unsigned_bound(bytes.reverse());
        lemma_signed_roundtrips(0, le_unsigned(bytes.reverse()) as int, 3);
    }
    lemma_signed_roundtrips(value as int, 0, 4);
    let w = to_unsigned(value as int, 4) / 256;
    assert(w == (value as int) % 0x100000000 / 0x100);
    lemma_le_bytes_digits(w, 3);
    assert(I24_BE::spec_encode(value) =~= seq![(((value as int) % 0x100000000 / 0x100) / 0x10000 % 256) as u8, (((value as int) % 0x100000000 / 0x100) / 0x100 % 256) as u8, (((value as int) % 0x100000000 / 0x100) % 256) as u8]);
}

/// `I24_4LJ_BE` holds the 24 most significant bits of a signed 32 bit number in
/// three bytes, with a zero padding byte after them, most significant byte first: reading takes the three bytes as the upper base
/// 256 digits of the number, and writing stores those digits of the number.
pub proof fn law_i24_4lj_be_layout(bytes: Seq<u8>, value: i32)
    ensures
        bytes.len() == 4 ==> I24_4LJ_BE::spec_decode(bytes) as int == 0x100 * (bytes[2] as int + 0x100 * bytes[1] + 0x10000 * bytes[0] - (if bytes[0] >= 128 { 0x1000000int } else { 0int })),
        I24_4LJ_BE::spec_encode(value) == seq![(((value as int) % 0x100000000 / 0x100) / 0x10000 % 256) as u8, (((value as int) % 0x100000000 / 0x100) / 0x100 % 256) as u8, (((value as int) % 0x100000000 / 0x100) % 256) as u8, 0u8],
{
    lemma_byte_range_values();
    if bytes.len() == 4 {
        lemma_le_unsigned_small(bytes.subrange(0, 3).reverse());
        lemma_le_unsigned_bound(bytes.subrange(0, 3).reverse());
        lemma_signed_roundtrips(0, le_unsigned(bytes.subrange(0, 3).reverse()) as int, 3);
    }
    lemma_signed_roundtrips(value as int, 0, 4);
    let w = to_unsigned(value as int, 4) / 256;
    assert(w == (value as int) % 0x100000000 / 0x100);
    lemma_le_bytes_digits(w, 3);
    assert(I24_4LJ_BE::spec_encode(value) =~= seq![(((value as int) % 0x100000000 / 0x100) / 0x10000 % 256) as u8, (((value as int) % 0x100000000 / 0x100) / 0x100 % 256) as u8, (((value as int) % 0x100000000 / 0x100) % 256) as u8, 0u8]);
}

/// `I24_4RJ_BE` holds the 24 most significant bits of a signed 32 bit number in
/// three bytes, with a zero padding byte before them, most significant byte first: reading takes the three bytes as the upper base
/// 256 digits of the number, and writing stores those digits of the number.
pub proof fn law_i24_4rj_be_layout(bytes: Seq<u8>, value: i32)
    ensures
        bytes.len() == 4 ==> I24_4RJ_BE::spec_decode(bytes) as int == 0x100 * (bytes[3] as int + 0x100 * bytes[2] + 0x10000 * bytes[1] - (if bytes[1] >= 128 { 0x1000000int } else { 0int })),
        I24_4RJ_BE::spec_encode(value) == seq![0u8, (((value as int) % 0x100000000 / 0x100) / 0x10000 % 256) as u8, (((value as int) % 0x100000000 / 0x100) / 0x100 % 256) as u8, (((value as int) % 0x100000000 / 0x100) % 256) as u8],
{
    lemma_byte_range_values();
    if bytes.len() == 4 {
        lemma_le_unsigned_small(bytes.subrange(1, 4).reverse());
        lemma_le_unsigned_bound(bytes.subrange(1, 4).reverse());
        lemma_signed_roundtrips(0, le_unsigned(bytes.subrange(1, 4).reverse()) as int, 3);
    }
    lemma_signed_roundtrips(value as int, 0, 4);
    let w = to_unsigned(value as int, 4) / 256;
    assert(w == (value as int) % 0x100000000 / 0x100);
    lemma_le_bytes_digits(w, 3);
    assert(I24_4RJ_BE::spec_encode(value) =~= seq![0u8, (((value as int) % 0x100000000 / 0x100) / 0x10000 % 256) as u8, (((value as int) % 0x100000000 / 0x100) / 0x100 % 256) as u8, (((value as int) % 0x100000000 / 0x100) % 256) as u8]);
}

/// `U24_LE` holds the 24 most significant bits of a unsigned 32 bit number in
/// three bytes, least significant byte first: reading takes the three bytes as the upper base
/// 256 digits of the number, and writing stores those digits of the number.
pub proof fn law_u24_le_layout(bytes: Seq<u8>, value: u32)
    ensures
        bytes.len() == 3 ==> U24_LE::spec_decode(bytes) as int == 0x100 * (bytes[0] as int + 0x100 * bytes[1] + 0x10000 * bytes[2]),
        U24_LE::spec_encode(value) == seq![(((value as int) % 0x100000000 / 0x100) % 256) as u8, (((value as int) % 0x100000000 / 0x100) / 0x100 % 256) as u8, (((value as int) % 0x100000000 / 0x100) / 0x10000 % 256) as u8],
{
    lemma_byte_range_values();
    if bytes.len() == 3 {
        lemma_le_unsigned_small(bytes);
        lemma_le_unsigned_bound(bytes);
    }
    let w = value as nat / 256;
    assert(w == (value as int) % 0x100000000 / 0x100);
    lemma_le_bytes_digits(w, 3);
    assert(U24_LE::spec_encode(value) =~= seq![(((value as int) % 0x100000000 / 0x100) % 256) as u8, (((value as int) % 0x100000000 / 0x100) / 0x100 % 256) as u8, (((value as int) % 0x100000000 / 0x100) / 0x10000 % 256) as u8]);
}

/// `U24_4LJ_LE` holds the 24 most significant bits of a unsigned 32 bit number in
/// three bytes, with a zero padding byte before them, least significant byte first: reading takes the three bytes as the upper base
/// 256 digits of the number, and writing stores those digits of the number.
pub proof fn law_u24_4lj_le_layout(bytes: Seq<u8>, value: u32)
    ensures
        bytes.len() == 4 ==> U24_4LJ_LE::spec_decode(bytes) as int == 0x100 * (bytes[1] as int + 0x100 * bytes[2] + 0x10000 * bytes[3]),
        U24_4LJ_LE::spec_encode(value) == seq![0u8, (((value as int) % 0x100000000 / 0x100) % 256) as u8, (((value as int) % 0x100000000 / 0x100) / 0x100 % 256) as u8, (((value as int) % 0x100000000 / 0x100) / 0x10000 % 256) as u8],
{
    lemma_byte_range_values();
    if bytes.len() == 4 {
        lemma_le_unsigned_small(bytes.subrange(1, 4));
        lemma_le_unsigned_bound(bytes.subrange(1, 4));
    }
    let w = value as nat / 256;
    assert(w == (value as int) % 0x100000000 / 0x100);
    lemma_le_bytes_digits(w, 3);
    assert(U24_4LJ_LE::spec_encode(value) =~= seq![0u8, (((value as int) % 0x100000000 / 0x100) % 256) as u8, (((value as int) % 0x100000000 / 0x100) / 0x100 % 256) as u8, (((value as int) % 0x100000000 / 0x100) / 0x10000 % 256) as u8]);
}

/// `U24_4RJ_LE` holds the 24 most significant bits of a unsigned 32 bit number in
/// three bytes, with a zero padding byte after them, least significant byte first: reading takes the three bytes as the upper base
/// 256 digits of the number, and writing stores those digits of the number.
pub proof fn law_u24_4rj_le_layout(bytes: Seq<u8>, value: u32)
    ensures
        bytes.len() == 4 ==> U24_4RJ_LE::spec_decode(bytes) as int == 0x100 * (bytes[0] as int + 0x100 * bytes[1] + 0x10000 * bytes[2]),
        U24_4RJ_LE::spec_encode(value) == seq![(((value as int) % 0x100000000 / 0x100) % 256) as u8, (((value as int) % 0x100000000 / 0x100) / 0x100 % 256) as u8, (((value as int) % 0x100000000 / 0x100) / 0x10000 % 256) as u8, 0u8],
{
    lemma_byte_range_values();
    if bytes.len() == 4 {
        lemma_le_unsigned_small(bytes.subrange(0, 3));
        lemma_le_unsigned_bound(bytes.subrange(0, 3));
    }
    let w = value as nat / 256;
    assert(w == (value as int) % 0x100000000 / 0x100);
    lemma_le_bytes_digits(w, 3);
    assert(U24_4RJ_LE::spec_encode(value) =~= seq![(((value as int) % 0x100000000 / 0x100) % 256) as u8, (((value as int) % 0x100000000 / 0x100) / 0x100 % 256) as u8, (((value as int) % 0x100000000 / 0x100) / 0x10000 % 256) as u8, 0u8]);
}

/// `U24_BE` holds the 24 most significant bits of a unsigned 32 bit number in
/// three bytes, most significant byte first: reading takes the three bytes as the upper base
/// 256 digits of the number, and writing stores those digits of the number.
pub proof fn law_u24_be_layout(bytes: Seq<u8>, value: u32)
    ensures
        bytes.len() == 3 ==> U24_BE::spec_decode(bytes) as int == 0x100 * (bytes[2] as int + 0x100 * bytes[1] + 0x10000 * bytes[0]),
        U24_BE::spec_encode(value) == seq![(((value as int) % 0x100000000 / 0x100) / 0x10000 % 256) as u8, (((value as int) % 0x100000000 / 0x100) / 0x100 % 256) as u8, (((value as int) % 0x100000000 / 0x100) % 256) as u8],
{
    lemma_byte_range_values();
    if bytes.len() == 3 {
        lemma_le_unsigned_small(bytes.reverse());
        lemma_le_unsigned_bound(bytes.reverse());
    }
    let w = value as nat / 256;
    assert(w == (value as int) % 0x100000000 / 0x100);
    lemma_le_bytes_digits(w, 3);
    assert(U24_BE::spec_encode(value) =~= seq![(((value as int) % 0x100000000 / 0x100) / 0x10000 % 256) as u8, (((value as int) % 0x100000000 / 0x100) / 0x100 % 256) as u8, (((value as int) % 0x100000000 / 0x100) % 256) as u8]);
}

/// `U24_4LJ_BE` holds the 24 most significant bits of a unsigned 32 bit number in
/// three bytes, with a zero padding byte after them, most significant byte first: reading takes the three bytes as the upper base
/// 256 digits of the number, and writing stores those digits of the number.
pub proof fn law_u24_4lj_be_layout(bytes: Seq<u8>, value: u32)
    ensures
        bytes.len() == 4 ==> U24_4LJ_BE::spec_decode(bytes) as int == 0x100 * (bytes[2] as int + 0x100 * bytes[1] + 0x10000 * bytes[0]),
        U24_4LJ_BE::spec_encode(value) == seq![(((value as int) % 0x100000000 / 0x100) / 0x10000 % 256) as u8, (((value as int) % 0x100000000 / 0x100) / 0x100 % 256) as u8, (((value as int) % 0x100000000 / 0x100) % 256) as u8, 0u8],
{
    lemma_byte_range_values();
    if bytes.len() == 4 {
        lemma_le_unsigned_small(bytes.subrange(0, 3).reverse());
        lemma_le_unsigned_bound(bytes.subrange(0, 3).reverse());
    }
    let w = value as nat / 256;
    assert(w == (value as int) % 0x100000000 / 0x100);
    lemma_le_bytes_digits(w, 3);
    assert(U24_4LJ_BE::spec_encode(value) =~= seq![(((value as int) % 0x100000000 / 0x100) / 0x10000 % 256) as u8, (((value as int) % 0x100000000 / 0x100) / 0x100 % 256) as u8, (((value as int) % 0x100000000 / 0x100) % 256) as u8, 0u8]);
}

/// `U24_4RJ_BE` holds the 24 most significant bits of a unsigned 32 bit number in
/// three bytes, with a zero padding byte before them, most significant byte first: reading takes the three bytes as the upper base
/// 256 digits of the number, and writing stores those digits of the number.
pub proof fn law_u24_4rj_be_layout(bytes: Seq<u8>, value: u32)
    ensures
        bytes.len() == 4 ==> U24_4RJ_BE::spec_decode(bytes) as int == 0x100 * (bytes[3] as int + 0x100 * bytes[2] + 0x10000 * bytes[1]),
        U24_4RJ_BE::spec_encode(value) == seq![0u8, (((value as int) % 0x100000000 / 0x100) / 0x10000 % 256) as u8, (((value as int) % 0x100000000 / 0x100) / 0x100 % 256) as u8, (((value as int) % 0x100000000 / 0x100) % 256) as u8],
{
    lemma_byte_range_values();
    if bytes.len() == 4 {
        lemma_le_unsigned_small(bytes.subrange(1, 4).reverse());
        lemma_le_unsigned_bound(bytes.subrange(1, 4).reverse());
    }
    let w = value as nat / 256;
    assert(w == (value as int) % 0x100000000 / 0x100);
    lemma_le_bytes_digits(w, 3);
    assert(U24_4RJ_BE::spec_encode(value) =~= seq![0u8, (((value as int) % 0x100000000 / 0x100) / 0x10000 % 256) as u8, (((value as int) % 0x100000000 / 0x100) / 0x100 % 256) as u8, (((value as int) % 0x100000000 / 0x100) % 256) as u8]);
}

} // verus!
