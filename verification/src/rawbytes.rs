//! Sample formats under compact names, with the 24 bit formats generic over
//! their storage: three packed bytes, or four bytes with the most significant
//! byte as padding. Each format reads and writes its numbers exactly as the
//! format of the same layout in [crate::sample] does.
use vstd::prelude::*;

use crate::sample::{
    BytesSample,
    I24_LE,
    I24_BE,
    U24_LE,
    U24_BE,
    I24_4RJ_LE,
    I24_4RJ_BE,
    U24_4RJ_LE,
    U24_4RJ_BE,
    I32_LE,
    I32_BE,
    I64_LE,
    I64_BE,
    I16_LE,
    I16_BE,
    U32_LE,
    U32_BE,
    U64_LE,
    U64_BE,
    U16_LE,
    U16_BE,
    le_unsigned,
    be_unsigned,
    le_bytes,
    be_bytes,
    read_le,
    read_be,
    write_le,
    write_be,
    lemma_byte_range_values,
    lemma_le_unsigned_bound,
    lemma_be_roundtrips,
    to_signed,
    to_unsigned,
    byte_range,
    lemma_le_number_roundtrip,
    lemma_le_unsigned_small,
    lemma_le_unsigned_eight,
    lemma_le_bytes_digits,
    lemma_signed_roundtrips,
};

verus! {

/// 24 bit signed integer, little endian. 24 bits stored packed as as 3 bytes or padded as 4 bytes.
#[derive(Debug)]
pub struct I24LE<U>(U);

/// 24 bit signed integer, big endian. 24 bits stored packed as as 3 bytes or padded as 4 bytes.
#[derive(Debug)]
pub struct I24BE<U>(U);

/// 24 bit unsigned integer, little endian. 24 bits stored packed as as 3 bytes or padded as 4 bytes.
#[derive(Debug)]
pub struct U24LE<U>(U);

/// 24 bit unsigned integer, big endian. 24 bits stored packed as as 3 bytes or padded as 4 bytes.
#[derive(Debug)]
pub struct U24BE<U>(U);

/// 32 bit signed integer, little endian. Stored as 4 bytes.
#[derive(Debug, Clone, Copy)]
pub struct I32LE([u8; 4]);

/// 32 bit signed integer, big endian. Stored as 4 bytes.
#[derive(Debug, Clone, Copy)]
pub struct I32BE([u8; 4]);

/// 64 bit signed integer, little endian. Stored as 8 bytes.
#[derive(Debug, Clone, Copy)]
pub struct I64LE([u8; 8]);

/// 64 bit signed integer, big endian. Stored as 8 bytes.
#[derive(Debug, Clone, Copy)]
pub struct I64BE([u8; 8]);

/// 16 bit signed integer, little endian. Stored as 2 bytes.
#[derive(Debug, Clone, Copy)]
pub struct I16LE([u8; 2]);

/// 16 bit signed integer, big endian. Stored as 2 bytes.
#[derive(Debug, Clone, Copy)]
pub struct I16BE([u8; 2]);

/// 32 bit unsigned integer, little endian. Stored as 4 bytes.
#[derive(Debug, Clone, Copy)]
pub struct U32LE([u8; 4]);

/// 32 bit unsigned integer, big endian. Stored as 4 bytes.
#[derive(Debug, Clone, Copy)]
pub struct U32BE([u8; 4]);

/// 64 bit unsigned integer, little endian. Stored as 8 bytes.
#[derive(Debug, Clone, Copy)]
pub struct U64LE([u8; 8]);

/// 64 bit unsigned integer, big endian. Stored as 8 bytes.
#[derive(Debug, Clone, Copy)]
pub struct U64BE([u8; 8]);

/// 16 bit unsigned integer, little endian. Stored as 2 bytes.
#[derive(Debug, Clone, Copy)]
pub struct U16LE([u8; 2]);

/// 16 bit unsigned integer, big endian. Stored as 2 bytes.
#[derive(Debug, Clone, Copy)]
pub struct U16BE([u8; 2]);

/// 32 bit floating point, little endian. Stored as 4 bytes.
#[derive(Debug, Clone, Copy)]
pub struct F32LE([u8; 4]);

/// 32 bit floating point, big endian. Stored as 4 bytes.
#[derive(Debug, Clone, Copy)]
pub struct F32BE([u8; 4]);

/// 64 bit floating point, little endian. Stored as 8 bytes.
#[derive(Debug, Clone, Copy)]
pub struct F64LE([u8; 8]);

/// 64 bit floating point, big endian. Stored as 8 bytes.
#[derive(Debug, Clone, Copy)]
pub struct F64BE([u8; 8]);


impl BytesSample for I24LE<[u8; 3]> {
    type NumericType = i32;

    const BYTES_PER_SAMPLE: usize = 3;

    closed spec fn spec_bytes(&self) -> Seq<u8> {
        self.0@
    }

    open spec fn spec_slice_fits(len: nat) -> bool {
        len >= 3
    }

    /// A sample of this format has 3 bytes.
    proof fn lemma_sample_slice_fits()
        ensures
            Self::BYTES_PER_SAMPLE == 3,
    {
        assert forall|value: i32| #[trigger] Self::spec_encode(value).len() == 3 by {
            lemma_le_number_roundtrip(to_unsigned(value as int, 4) / 256, 3);
        }
    }

    fn zero() -> (sample: Self)
        ensures
            sample.spec_bytes() == Seq::new(3nat, |i: int| 0u8),
    {
        let sample = Self([0, 0, 0]);
        assert(sample.0@ =~= Seq::new(3nat, |i: int| 0u8));
        sample
    }

    fn from_slice(bytes: &[u8]) -> (sample: Self)
        ensures
            sample.spec_bytes() == bytes@.subrange(0, 3),
    {
        let sample = Self([bytes[0], bytes[1], bytes[2]]);
        assert(sample.0@ =~= bytes@.subrange(0, 3));
        sample
    }

    fn as_slice(&self) -> (bytes: &[u8])
        ensures
            bytes@.len() == 3,
    {
        &self.0
    }

    fn as_mut_slice(&mut self) -> (bytes: &mut [u8]) {
        &mut self.0
    }

    open spec fn spec_decode(bytes: Seq<u8>) -> i32 {
        I24_LE::spec_decode(bytes)
    }

    open spec fn spec_encode(value: i32) -> Seq<u8> {
        I24_LE::spec_encode(value)
    }

    fn to_number(&self) -> (value: i32) {
        let data = self.0;
        let n = read_le(&data);
        proof {
            lemma_byte_range_values();
            lemma_le_unsigned_bound(data@);
        }
        let s: i32 = if n < 0x800000 { n as i32 } else { (n as i64 - 0x1000000) as i32 };
        s * 256
    }

    fn from_number(value: i32) -> (sample: Self) {
        proof {
            lemma_byte_range_values();
        }
        let n: u64 = if value < 0 { (value as i64 + 0x100000000) as u64 } else { value as u64 };
        let word: u64 = n / 256;
        let mut bytes = [0u8, 0u8, 0u8];
        write_le(word, &mut bytes);
        Self(bytes)
    }
}

impl BytesSample for I24LE<[u8; 4]> {
    type NumericType = i32;

    const BYTES_PER_SAMPLE: usize = 4;

    closed spec fn spec_bytes(&self) -> Seq<u8> {
        self.0@
    }

    open spec fn spec_slice_fits(len: nat) -> bool {
        len >= 4
    }

    /// A sample of this format has 4 bytes.
    proof fn lemma_sample_slice_fits()
        ensures
            Self::BYTES_PER_SAMPLE == 4,
    {
        assert forall|value: i32| #[trigger] Self::spec_encode(value).len() == 4 by {
            lemma_le_number_roundtrip(to_unsigned(value as int, 4) / 256, 3);
        }
    }

    fn zero() -> (sample: Self)
        ensures
            sample.spec_bytes() == Seq::new(4nat, |i: int| 0u8),
    {
        let sample = Self([0, 0, 0, 0]);
        assert(sample.0@ =~= Seq::new(4nat, |i: int| 0u8));
        sample
    }

    fn from_slice(bytes: &[u8]) -> (sample: Self)
        ensures
            sample.spec_bytes() == bytes@.subrange(0, 4),
    {
        let sample = Self([bytes[0], bytes[1], bytes[2], bytes[3]]);
        assert(sample.0@ =~= bytes@.subrange(0, 4));
        sample
    }

    fn as_slice(&self) -> (bytes: &[u8])
        ensures
            bytes@.len() == 4,
    {
        &self.0
    }

    fn as_mut_slice(&mut self) -> (bytes: &mut [u8]) {
        &mut self.0
    }

    open spec fn spec_decode(bytes: Seq<u8>) -> i32 {
        I24_4RJ_LE::spec_decode(bytes)
    }

    open spec fn spec_encode(value: i32) -> Seq<u8> {
        I24_4RJ_LE::spec_encode(value)
    }

    fn to_number(&self) -> (value: i32) {
        let data = [self.0[0], self.0[1], self.0[2]];
        assert(data@ =~= self.0@.subrange(0, 3));
        let n = read_le(&data);
        proof {
            lemma_byte_range_values();
            lemma_le_unsigned_bound(data@);
        }
        let s: i32 = if n < 0x800000 { n as i32 } else { (n as i64 - 0x1000000) as i32 };
        s * 256
    }

    fn from_number(value: i32) -> (sample: Self) {
        proof {
            lemma_byte_range_values();
        }
        let n: u64 = if value < 0 { (value as i64 + 0x100000000) as u64 } else { value as u64 };
        let word: u64 = n / 256;
        let mut data = [0u8, 0u8, 0u8];
        write_le(word, &mut data);
        let sample = Self([data[0], data[1], data[2], 0]);
        assert(sample.0@ =~= data@ + seq![0u8]);
        sample
    }
}

impl BytesSample for I24BE<[u8; 3]> {
    type NumericType = i32;

    const BYTES_PER_SAMPLE: usize = 3;

    closed spec fn spec_bytes(&self) -> Seq<u8> {
        self.0@
    }

    open spec fn spec_slice_fits(len: nat) -> bool {
        len >= 3
    }

    /// A sample of this format has 3 bytes.
    proof fn lemma_sample_slice_fits()
        ensures
            Self::BYTES_PER_SAMPLE == 3,
    {
        assert forall|value: i32| #[trigger] Self::spec_encode(value).len() == 3 by {
            lemma_be_roundtrips(to_unsigned(value as int, 4) / 256, 3, Seq::empty());
        }
    }

    fn zero() -> (sample: Self)
        ensures
            sample.spec_bytes() == Seq::new(3nat, |i: int| 0u8),
    {
        let sample = Self([0, 0, 0]);
        assert(sample.0@ =~= Seq::new(3nat, |i: int| 0u8));
        sample
    }

    fn from_slice(bytes: &[u8]) -> (sample: Self)
        ensures
            sample.spec_bytes() == bytes@.subrange(0, 3),
    {
        let sample = Self([bytes[0], bytes[1], bytes[2]]);
        assert(sample.0@ =~= bytes@.subrange(0, 3));
        sample
    }

    fn as_slice(&self) -> (bytes: &[u8])
        ensures
            bytes@.len() == 3,
    {
        &self.0
    }

    fn as_mut_slice(&mut self) -> (bytes: &mut [u8]) {
        &mut self.0
    }

    open spec fn spec_decode(bytes: Seq<u8>) -> i32 {
        I24_BE::spec_decode(bytes)
    }

    open spec fn spec_encode(value: i32) -> Seq<u8> {
        I24_BE::spec_encode(value)
    }

    fn to_number(&self) -> (value: i32) {
        let data = self.0;
        let n = read_be(&data);
        proof {
            lemma_byte_range_values();
            lemma_be_roundtrips(0, 0, data@);
        }
        let s: i32 = if n < 0x800000 { n as i32 } else { (n as i64 - 0x1000000) as i32 };
        s * 256
    }

    fn from_number(value: i32) -> (sample: Self) {
        proof {
            lemma_byte_range_values();
        }
        let n: u64 = if value < 0 { (value as i64 + 0x100000000) as u64 } else { value as u64 };
        let word: u64 = n / 256;
        let mut bytes = [0u8, 0u8, 0u8];
        write_be(word, &mut bytes);
        Self(bytes)
    }
}

impl BytesSample for I24BE<[u8; 4]> {
    type NumericType = i32;

    const BYTES_PER_SAMPLE: usize = 4;

    closed spec fn spec_bytes(&self) -> Seq<u8> {
        self.0@
    }

    open spec fn spec_slice_fits(len: nat) -> bool {
        len >= 4
    }

    /// A sample of this format has 4 bytes.
    proof fn lemma_sample_slice_fits()
        ensures
            Self::BYTES_PER_SAMPLE == 4,
    {
        assert forall|value: i32| #[trigger] Self::spec_encode(value).len() == 4 by {
            lemma_be_roundtrips(to_unsigned(value as int, 4) / 256, 3, Seq::empty());
        }
    }

    fn zero() -> (sample: Self)
        ensures
            sample.spec_bytes() == Seq::new(4nat, |i: int| 0u8),
    {
        let sample = Self([0, 0, 0, 0]);
        assert(sample.0@ =~= Seq::new(4nat, |i: int| 0u8));
        sample
    }

    fn from_slice(bytes: &[u8]) -> (sample: Self)
        ensures
            sample.spec_bytes() == bytes@.subrange(0, 4),
    {
        let sample = Self([bytes[0], bytes[1], bytes[2], bytes[3]]);
        assert(sample.0@ =~= bytes@.subrange(0, 4));
        sample
    }

    fn as_slice(&self) -> (bytes: &[u8])
        ensures
            bytes@.len() == 4,
    {
        &self.0
    }

    fn as_mut_slice(&mut self) -> (bytes: &mut [u8]) {
        &mut self.0
    }

    open spec fn spec_decode(bytes: Seq<u8>) -> i32 {
        I24_4RJ_BE::spec_decode(bytes)
    }

    open spec fn spec_encode(value: i32) -> Seq<u8> {
        I24_4RJ_BE::spec_encode(value)
    }

    fn to_number(&self) -> (value: i32) {
        let data = [self.0[1], self.0[2], self.0[3]];
        assert(data@ =~= self.0@.subrange(1, 4));
        let n = read_be(&data);
        proof {
            lemma_byte_range_values();
            lemma_be_roundtrips(0, 0, data@);
        }
        let s: i32 = if n < 0x800000 { n as i32 } else { (n as i64 - 0x1000000) as i32 };
        s * 256
    }

    fn from_number(value: i32) -> (sample: Self) {
        proof {
            lemma_byte_range_values();
        }
        let n: u64 = if value < 0 { (value as i64 + 0x100000000) as u64 } else { value as u64 };
        let word: u64 = n / 256;
        let mut data = [0u8, 0u8, 0u8];
        write_be(word, &mut data);
        let sample = Self([0, data[0], data[1], data[2]]);
        assert(sample.0@ =~= seq![0u8] + data@);
        sample
    }
}

impl BytesSample for U24LE<[u8; 3]> {
    type NumericType = u32;

    const BYTES_PER_SAMPLE: usize = 3;

    closed spec fn spec_bytes(&self) -> Seq<u8> {
        self.0@
    }

    open spec fn spec_slice_fits(len: nat) -> bool {
        len >= 3
    }

    /// A sample of this format has 3 bytes.
    proof fn lemma_sample_slice_fits()
        ensures
            Self::BYTES_PER_SAMPLE == 3,
    {
        assert forall|value: u32| #[trigger] Self::spec_encode(value).len() == 3 by {
            lemma_le_number_roundtrip(value as nat / 256, 3);
        }
    }

    fn zero() -> (sample: Self)
        ensures
            sample.spec_bytes() == Seq::new(3nat, |i: int| 0u8),
    {
        let sample = Self([0, 0, 0]);
        assert(sample.0@ =~= Seq::new(3nat, |i: int| 0u8));
        sample
    }

    fn from_slice(bytes: &[u8]) -> (sample: Self)
        ensures
            sample.spec_bytes() == bytes@.subrange(0, 3),
    {
        let sample = Self([bytes[0], bytes[1], bytes[2]]);
        assert(sample.0@ =~= bytes@.subrange(0, 3));
        sample
    }

    fn as_slice(&self) -> (bytes: &[u8])
        ensures
            bytes@.len() == 3,
    {
        &self.0
    }

    fn as_mut_slice(&mut self) -> (bytes: &mut [u8]) {
        &mut self.0
    }

    open spec fn spec_decode(bytes: Seq<u8>) -> u32 {
        U24_LE::spec_decode(bytes)
    }

    open spec fn spec_encode(value: u32) -> Seq<u8> {
        U24_LE::spec_encode(value)
    }

    fn to_number(&self) -> (value: u32) {
        let data = self.0;
        let n = read_le(&data);
        proof {
            lemma_byte_range_values();
            lemma_le_unsigned_bound(data@);
        }
        n as u32 * 256
    }

    fn from_number(value: u32) -> (sample: Self) {
        proof {
            lemma_byte_range_values();
        }
        let word: u64 = value as u64 / 256;
        let mut bytes = [0u8, 0u8, 0u8];
        write_le(word, &mut bytes);
        Self(bytes)
    }
}

impl BytesSample for U24LE<[u8; 4]> {
    type NumericType = u32;

    const BYTES_PER_SAMPLE: usize = 4;

    closed spec fn spec_bytes(&self) -> Seq<u8> {
        self.0@
    }

    open spec fn spec_slice_fits(len: nat) -> bool {
        len >= 4
    }

    /// A sample of this format has 4 bytes.
    proof fn lemma_sample_slice_fits()
        ensures
            Self::BYTES_PER_SAMPLE == 4,
    {
        assert forall|value: u32| #[trigger] Self::spec_encode(value).len() == 4 by {
            lemma_le_number_roundtrip(value as nat / 256, 3);
        }
    }

    fn zero() -> (sample: Self)
        ensures
            sample.spec_bytes() == Seq::new(4nat, |i: int| 0u8),
    {
        let sample = Self([0, 0, 0, 0]);
        assert(sample.0@ =~= Seq::new(4nat, |i: int| 0u8));
        sample
    }

    fn from_slice(bytes: &[u8]) -> (sample: Self)
        ensures
            sample.spec_bytes() == bytes@.subrange(0, 4),
    {
        let sample = Self([bytes[0], bytes[1], bytes[2], bytes[3]]);
        assert(sample.0@ =~= bytes@.subrange(0, 4));
        sample
    }

    fn as_slice(&self) -> (bytes: &[u8])
        ensures
            bytes@.len() == 4,
    {
        &self.0
    }

    fn as_mut_slice(&mut self) -> (bytes: &mut [u8]) {
        &mut self.0
    }

    open spec fn spec_decode(bytes: Seq<u8>) -> u32 {
        U24_4RJ_LE::spec_decode(bytes)
    }

    open spec fn spec_encode(value: u32) -> Seq<u8> {
        U24_4RJ_LE::spec_encode(value)
    }

    fn to_number(&self) -> (value: u32) {
        let data = [self.0[0], self.0[1], self.0[2]];
        assert(data@ =~= self.0@.subrange(0, 3));
        let n = read_le(&data);
        proof {
            lemma_byte_range_values();
            lemma_le_unsigned_bound(data@);
        }
        n as u32 * 256
    }

    fn from_number(value: u32) -> (sample: Self) {
        proof {
            lemma_byte_range_values();
        }
        let word: u64 = value as u64 / 256;
        let mut data = [0u8, 0u8, 0u8];
        write_le(word, &mut data);
        let sample = Self([data[0], data[1], data[2], 0]);
        assert(sample.0@ =~= data@ + seq![0u8]);
        sample
    }
}

impl BytesSample for U24BE<[u8; 3]> {
    type NumericType = u32;

    const BYTES_PER_SAMPLE: usize = 3;

    closed spec fn spec_bytes(&self) -> Seq<u8> {
        self.0@
    }

    open spec fn spec_slice_fits(len: nat) -> bool {
        len >= 3
    }

    /// A sample of this format has 3 bytes.
    proof fn lemma_sample_slice_fits()
        ensures
            Self::BYTES_PER_SAMPLE == 3,
    {
        assert forall|value: u32| #[trigger] Self::spec_encode(value).len() == 3 by {
            lemma_be_roundtrips(value as nat / 256, 3, Seq::empty());
        }
    }

    fn zero() -> (sample: Self)
        ensures
            sample.spec_bytes() == Seq::new(3nat, |i: int| 0u8),
    {
        let sample = Self([0, 0, 0]);
        assert(sample.0@ =~= Seq::new(3nat, |i: int| 0u8));
        sample
    }

    fn from_slice(bytes: &[u8]) -> (sample: Self)
        ensures
            sample.spec_bytes() == bytes@.subrange(0, 3),
    {
        let sample = Self([bytes[0], bytes[1], bytes[2]]);
        assert(sample.0@ =~= bytes@.subrange(0, 3));
        sample
    }

    fn as_slice(&self) -> (bytes: &[u8])
        ensures
            bytes@.len() == 3,
    {
        &self.0
    }

    fn as_mut_slice(&mut self) -> (bytes: &mut [u8]) {
        &mut self.0
    }

    open spec fn spec_decode(bytes: Seq<u8>) -> u32 {
        U24_BE::spec_decode(bytes)
    }

    open spec fn spec_encode(value: u32) -> Seq<u8> {
        U24_BE::spec_encode(value)
    }

    fn to_number(&self) -> (value: u32) {
        let data = self.0;
        let n = read_be(&data);
        proof {
            lemma_byte_range_values();
            lemma_be_roundtrips(0, 0, data@);
        }
        n as u32 * 256
    }

    fn from_number(value: u32) -> (sample: Self) {
        proof {
            lemma_byte_range_values();
        }
        let word: u64 = value as u64 / 256;
        let mut bytes = [0u8, 0u8, 0u8];
        write_be(word, &mut bytes);
        Self(bytes)
    }
}

impl BytesSample for U24BE<[u8; 4]> {
    type NumericType = u32;

    const BYTES_PER_SAMPLE: usize = 4;

    closed spec fn spec_bytes(&self) -> Seq<u8> {
        self.0@
    }

    open spec fn spec_slice_fits(len: nat) -> bool {
        len >= 4
    }

    /// A sample of this format has 4 bytes.
    proof fn lemma_sample_slice_fits()
        ensures
            Self::BYTES_PER_SAMPLE == 4,
    {
        assert forall|value: u32| #[trigger] Self::spec_encode(value).len() == 4 by {
            lemma_be_roundtrips(value as nat / 256, 3, Seq::empty());
        }
    }

    fn zero() -> (sample: Self)
        ensures
            sample.spec_bytes() == Seq::new(4nat, |i: int| 0u8),
    {
        let sample = Self([0, 0, 0, 0]);
        assert(sample.0@ =~= Seq::new(4nat, |i: int| 0u8));
        sample
    }

    fn from_slice(bytes: &[u8]) -> (sample: Self)
        ensures
            sample.spec_bytes() == bytes@.subrange(0, 4),
    {
        let sample = Self([bytes[0], bytes[1], bytes[2], bytes[3]]);
        assert(sample.0@ =~= bytes@.subrange(0, 4));
        sample
    }

    fn as_slice(&self) -> (bytes: &[u8])
        ensures
            bytes@.len() == 4,
    {
        &self.0
    }

    fn as_mut_slice(&mut self) -> (bytes: &mut [u8]) {
        &mut self.0
    }

    open spec fn spec_decode(bytes: Seq<u8>) -> u32 {
        U24_4RJ_BE::spec_decode(bytes)
    }

    open spec fn spec_encode(value: u32) -> Seq<u8> {
        U24_4RJ_BE::spec_encode(value)
    }

    fn to_number(&self) -> (value: u32) {
        let data = [self.0[1], self.0[2], self.0[3]];
        assert(data@ =~= self.0@.subrange(1, 4));
        let n = read_be(&data);
        proof {
            lemma_byte_range_values();
            lemma_be_roundtrips(0, 0, data@);
        }
        n as u32 * 256
    }

    fn from_number(value: u32) -> (sample: Self) {
        proof {
            lemma_byte_range_values();
        }
        let word: u64 = value as u64 / 256;
        let mut data = [0u8, 0u8, 0u8];
        write_be(word, &mut data);
        let sample = Self([0, data[0], data[1], data[2]]);
        assert(sample.0@ =~= seq![0u8] + data@);
        sample
    }
}

impl BytesSample for I32LE {
    type NumericType = i32;

    const BYTES_PER_SAMPLE: usize = 4;

    closed spec fn spec_bytes(&self) -> Seq<u8> {
        self.0@
    }

    open spec fn spec_slice_fits(len: nat) -> bool {
        len == 4
    }

    /// A sample of this format has 4 bytes.
    proof fn lemma_sample_slice_fits()
        ensures
            Self::BYTES_PER_SAMPLE == 4,
    {
        assert forall|value: i32| #[trigger] Self::spec_encode(value).len() == 4 by {
            lemma_le_number_roundtrip(to_unsigned(value as int, 4), 4);
        }
    }

    fn zero() -> (sample: Self)
        ensures
            sample.spec_bytes() == Seq::new(4nat, |i: int| 0u8),
    {
        let sample = Self([0, 0, 0, 0]);
        assert(sample.0@ =~= Seq::new(4nat, |i: int| 0u8));
        sample
    }

    fn from_slice(bytes: &[u8]) -> (sample: Self)
        ensures
            sample.spec_bytes() == bytes@.subrange(0, 4),
    {
        let sample = Self([bytes[0], bytes[1], bytes[2], bytes[3]]);
        assert(sample.0@ =~= bytes@.subrange(0, 4));
        sample
    }

    fn as_slice(&self) -> (bytes: &[u8])
        ensures
            bytes@.len() == 4,
    {
        &self.0
    }

    fn as_mut_slice(&mut self) -> (bytes: &mut [u8]) {
        &mut self.0
    }

    open spec fn spec_decode(bytes: Seq<u8>) -> i32 {
        I32_LE::spec_decode(bytes)
    }

    open spec fn spec_encode(value: i32) -> Seq<u8> {
        I32_LE::spec_encode(value)
    }

    fn to_number(&self) -> (value: i32) {
        let n = read_le(&self.0);
        proof {
            lemma_byte_range_values();
            lemma_le_unsigned_bound(self.0@);
        }
        if n < 0x80000000 { n as i32 } else { (n as i64 - 0x100000000) as i32 }
    }

    fn from_number(value: i32) -> (sample: Self) {
        proof {
            lemma_byte_range_values();
        }
        let n: u64 = if value < 0 { (value as i64 + 0x100000000) as u64 } else { value as u64 };
        let mut bytes = [0u8, 0u8, 0u8, 0u8];
        write_le(n, &mut bytes);
        Self(bytes)
    }
}

impl BytesSample for I32BE {
    type NumericType = i32;

    const BYTES_PER_SAMPLE: usize = 4;

    closed spec fn spec_bytes(&self) -> Seq<u8> {
        self.0@
    }

    open spec fn spec_slice_fits(len: nat) -> bool {
        len == 4
    }

    /// A sample of this format has 4 bytes.
    proof fn lemma_sample_slice_fits()
        ensures
            Self::BYTES_PER_SAMPLE == 4,
    {
        assert forall|value: i32| #[trigger] Self::spec_encode(value).len() == 4 by {
            lemma_be_roundtrips(to_unsigned(value as int, 4), 4, Seq::empty());
        }
    }

    fn zero() -> (sample: Self)
        ensures
            sample.spec_bytes() == Seq::new(4nat, |i: int| 0u8),
    {
        let sample = Self([0, 0, 0, 0]);
        assert(sample.0@ =~= Seq::new(4nat, |i: int| 0u8));
        sample
    }

    fn from_slice(bytes: &[u8]) -> (sample: Self)
        ensures
            sample.spec_bytes() == bytes@.subrange(0, 4),
    {
        let sample = Self([bytes[0], bytes[1], bytes[2], bytes[3]]);
        assert(sample.0@ =~= bytes@.subrange(0, 4));
        sample
    }

    fn as_slice(&self) -> (bytes: &[u8])
        ensures
            bytes@.len() == 4,
    {
        &self.0
    }

    fn as_mut_slice(&mut self) -> (bytes: &mut [u8]) {
        &mut self.0
    }

    open spec fn spec_decode(bytes: Seq<u8>) -> i32 {
        I32_BE::spec_decode(bytes)
    }

    open spec fn spec_encode(value: i32) -> Seq<u8> {
        I32_BE::spec_encode(value)
    }

    fn to_number(&self) -> (value: i32) {
        let n = read_be(&self.0);
        proof {
            lemma_byte_range_values();
            lemma_be_roundtrips(0, 0, self.0@);
        }
        if n < 0x80000000 { n as i32 } else { (n as i64 - 0x100000000) as i32 }
    }

    fn from_number(value: i32) -> (sample: Self) {
        proof {
            lemma_byte_range_values();
        }
        let n: u64 = if value < 0 { (value as i64 + 0x100000000) as u64 } else { value as u64 };
        let mut bytes = [0u8, 0u8, 0u8, 0u8];
        write_be(n, &mut bytes);
        Self(bytes)
    }
}

impl BytesSample for I64LE {
    type NumericType = i64;

    const BYTES_PER_SAMPLE: usize = 8;

    closed spec fn spec_bytes(&self) -> Seq<u8> {
        self.0@
    }

    open spec fn spec_slice_fits(len: nat) -> bool {
        len == 8
    }

    /// A sample of this format has 8 bytes.
    proof fn lemma_sample_slice_fits()
        ensures
            Self::BYTES_PER_SAMPLE == 8,
    {
        assert forall|value: i64| #[trigger] Self::spec_encode(value).len() == 8 by {
            lemma_le_number_roundtrip(to_unsigned(value as int, 8), 8);
        }
    }

    fn zero() -> (sample: Self)
        ensures
            sample.spec_bytes() == Seq::new(8nat, |i: int| 0u8),
    {
        let sample = Self([0, 0, 0, 0, 0, 0, 0, 0]);
        assert(sample.0@ =~= Seq::new(8nat, |i: int| 0u8));
        sample
    }

    fn from_slice(bytes: &[u8]) -> (sample: Self)
        ensures
            sample.spec_bytes() == bytes@.subrange(0, 8),
    {
        let sample = Self([bytes[0], bytes[1], bytes[2], bytes[3], bytes[4], bytes[5], bytes[6], bytes[7]]);
        assert(sample.0@ =~= bytes@.subrange(0, 8));
        sample
    }

    fn as_slice(&self) -> (bytes: &[u8])
        ensures
            bytes@.len() == 8,
    {
        &self.0
    }

    fn as_mut_slice(&mut self) -> (bytes: &mut [u8]) {
        &mut self.0
    }

    open spec fn spec_decode(bytes: Seq<u8>) -> i64 {
        I64_LE::spec_decode(bytes)
    }

    open spec fn spec_encode(value: i64) -> Seq<u8> {
        I64_LE::spec_encode(value)
    }

    fn to_number(&self) -> (value: i64) {
        let n = read_le(&self.0);
        proof {
            lemma_byte_range_values();
            lemma_le_unsigned_bound(self.0@);
        }
        if n < 0x8000000000000000 { n as i64 } else { (n - 0x8000000000000000) as i64 - i64::MAX - 1 }
    }

    fn from_number(value: i64) -> (sample: Self) {
        proof {
            lemma_byte_range_values();
        }
        let n: u64 = if value < 0 { (value + i64::MAX + 1) as u64 + 0x8000_0000_0000_0000 } else { value as u64 };
        let mut bytes = [0u8, 0u8, 0u8, 0u8, 0u8, 0u8, 0u8, 0u8];
        write_le(n, &mut bytes);
        Self(bytes)
    }
}

impl BytesSample for I64BE {
    type NumericType = i64;

    const BYTES_PER_SAMPLE: usize = 8;

    closed spec fn spec_bytes(&self) -> Seq<u8> {
        self.0@
    }

    open spec fn spec_slice_fits(len: nat) -> bool {
        len == 8
    }

    /// A sample of this format has 8 bytes.
    proof fn lemma_sample_slice_fits()
        ensures
            Self::BYTES_PER_SAMPLE == 8,
    {
        assert forall|value: i64| #[trigger] Self::spec_encode(value).len() == 8 by {
            lemma_be_roundtrips(to_unsigned(value as int, 8), 8, Seq::empty());
        }
    }

    fn zero() -> (sample: Self)
        ensures
            sample.spec_bytes() == Seq::new(8nat, |i: int| 0u8),
    {
        let sample = Self([0, 0, 0, 0, 0, 0, 0, 0]);
        assert(sample.0@ =~= Seq::new(8nat, |i: int| 0u8));
        sample
    }

    fn from_slice(bytes: &[u8]) -> (sample: Self)
        ensures
            sample.spec_bytes() == bytes@.subrange(0, 8),
    {
        let sample = Self([bytes[0], bytes[1], bytes[2], bytes[3], bytes[4], bytes[5], bytes[6], bytes[7]]);
        assert(sample.0@ =~= bytes@.subrange(0, 8));
        sample
    }

    fn as_slice(&self) -> (bytes: &[u8])
        ensures
            bytes@.len() == 8,
    {
        &self.0
    }

    fn as_mut_slice(&mut self) -> (bytes: &mut [u8]) {
        &mut self.0
    }

    open spec fn spec_decode(bytes: Seq<u8>) -> i64 {
        I64_BE::spec_decode(bytes)
    }

    open spec fn spec_encode(value: i64) -> Seq<u8> {
        I64_BE::spec_encode(value)
    }

    fn to_number(&self) -> (value: i64) {
        let n = read_be(&self.0);
        proof {
            lemma_byte_range_values();
            lemma_be_roundtrips(0, 0, self.0@);
        }
        if n < 0x8000000000000000 { n as i64 } else { (n - 0x8000000000000000) as i64 - i64::MAX - 1 }
    }

    fn from_number(value: i64) -> (sample: Self) {
        proof {
            lemma_byte_range_values();
        }
        let n: u64 = if value < 0 { (value + i64::MAX + 1) as u64 + 0x8000_0000_0000_0000 } else { value as u64 };
        let mut bytes = [0u8, 0u8, 0u8, 0u8, 0u8, 0u8, 0u8, 0u8];
        write_be(n, &mut bytes);
        Self(bytes)
    }
}

impl BytesSample for I16LE {
    type NumericType = i16;

    const BYTES_PER_SAMPLE: usize = 2;

    closed spec fn spec_bytes(&self) -> Seq<u8> {
        self.0@
    }

    open spec fn spec_slice_fits(len: nat) -> bool {
        len == 2
    }

    /// A sample of this format has 2 bytes.
    proof fn lemma_sample_slice_fits()
        ensures
            Self::BYTES_PER_SAMPLE == 2,
    {
        assert forall|value: i16| #[trigger] Self::spec_encode(value).len() == 2 by {
            lemma_le_number_roundtrip(to_unsigned(value as int, 2), 2);
        }
    }

    fn zero() -> (sample: Self)
        ensures
            sample.spec_bytes() == Seq::new(2nat, |i: int| 0u8),
    {
        let sample = Self([0, 0]);
        assert(sample.0@ =~= Seq::new(2nat, |i: int| 0u8));
        sample
    }

    fn from_slice(bytes: &[u8]) -> (sample: Self)
        ensures
            sample.spec_bytes() == bytes@.subrange(0, 2),
    {
        let sample = Self([bytes[0], bytes[1]]);
        assert(sample.0@ =~= bytes@.subrange(0, 2));
        sample
    }

    fn as_slice(&self) -> (bytes: &[u8])
        ensures
            bytes@.len() == 2,
    {
        &self.0
    }

    fn as_mut_slice(&mut self) -> (bytes: &mut [u8]) {
        &mut self.0
    }

    open spec fn spec_decode(bytes: Seq<u8>) -> i16 {
        I16_LE::spec_decode(bytes)
    }

    open spec fn spec_encode(value: i16) -> Seq<u8> {
        I16_LE::spec_encode(value)
    }

    fn to_number(&self) -> (value: i16) {
        let n = read_le(&self.0);
        proof {
            lemma_byte_range_values();
            lemma_le_unsigned_bound(self.0@);
        }
        if n < 0x8000 { n as i16 } else { (n as i64 - 0x10000) as i16 }
    }

    fn from_number(value: i16) -> (sample: Self) {
        proof {
            lemma_byte_range_values();
        }
        let n: u64 = if value < 0 { (value as i64 + 0x10000) as u64 } else { value as u64 };
        let mut bytes = [0u8, 0u8];
        write_le(n, &mut bytes);
        Self(bytes)
    }
}

impl BytesSample for I16BE {
    type NumericType = i16;

    const BYTES_PER_SAMPLE: usize = 2;

    closed spec fn spec_bytes(&self) -> Seq<u8> {
        self.0@
    }

    open spec fn spec_slice_fits(len: nat) -> bool {
        len == 2
    }

    /// A sample of this format has 2 bytes.
    proof fn lemma_sample_slice_fits()
        ensures
            Self::BYTES_PER_SAMPLE == 2,
    {
        assert forall|value: i16| #[trigger] Self::spec_encode(value).len() == 2 by {
            lemma_be_roundtrips(to_unsigned(value as int, 2), 2, Seq::empty());
        }
    }

    fn zero() -> (sample: Self)
        ensures
            sample.spec_bytes() == Seq::new(2nat, |i: int| 0u8),
    {
        let sample = Self([0, 0]);
        assert(sample.0@ =~= Seq::new(2nat, |i: int| 0u8));
        sample
    }

    fn from_slice(bytes: &[u8]) -> (sample: Self)
        ensures
            sample.spec_bytes() == bytes@.subrange(0, 2),
    {
        let sample = Self([bytes[0], bytes[1]]);
        assert(sample.0@ =~= bytes@.subrange(0, 2));
        sample
    }

    fn as_slice(&self) -> (bytes: &[u8])
        ensures
            bytes@.len() == 2,
    {
        &self.0
    }

    fn as_mut_slice(&mut self) -> (bytes: &mut [u8]) {
        &mut self.0
    }

    open spec fn spec_decode(bytes: Seq<u8>) -> i16 {
        I16_BE::spec_decode(bytes)
    }

    open spec fn spec_encode(value: i16) -> Seq<u8> {
        I16_BE::spec_encode(value)
    }

    fn to_number(&self) -> (value: i16) {
        let n = read_be(&self.0);
        proof {
            lemma_byte_range_values();
            lemma_be_roundtrips(0, 0, self.0@);
        }
        if n < 0x8000 { n as i16 } else { (n as i64 - 0x10000) as i16 }
    }

    fn from_number(value: i16) -> (sample: Self) {
        proof {
            lemma_byte_range_values();
        }
        let n: u64 = if value < 0 { (value as i64 + 0x10000) as u64 } else { value as u64 };
        let mut bytes = [0u8, 0u8];
        write_be(n, &mut bytes);
        Self(bytes)
    }
}

impl BytesSample for U32LE {
    type NumericType = u32;

    const BYTES_PER_SAMPLE: usize = 4;

    closed spec fn spec_bytes(&self) -> Seq<u8> {
        self.0@
    }

    open spec fn spec_slice_fits(len: nat) -> bool {
        len == 4
    }

    /// A sample of this format has 4 bytes.
    proof fn lemma_sample_slice_fits()
        ensures
            Self::BYTES_PER_SAMPLE == 4,
    {
        assert forall|value: u32| #[trigger] Self::spec_encode(value).len() == 4 by {
            lemma_le_number_roundtrip(value as nat, 4);
        }
    }

    fn zero() -> (sample: Self)
        ensures
            sample.spec_bytes() == Seq::new(4nat, |i: int| 0u8),
    {
        let sample = Self([0, 0, 0, 0]);
        assert(sample.0@ =~= Seq::new(4nat, |i: int| 0u8));
        sample
    }

    fn from_slice(bytes: &[u8]) -> (sample: Self)
        ensures
            sample.spec_bytes() == bytes@.subrange(0, 4),
    {
        let sample = Self([bytes[0], bytes[1], bytes[2], bytes[3]]);
        assert(sample.0@ =~= bytes@.subrange(0, 4));
        sample
    }

    fn as_slice(&self) -> (bytes: &[u8])
        ensures
            bytes@.len() == 4,
    {
        &self.0
    }

    fn as_mut_slice(&mut self) -> (bytes: &mut [u8]) {
        &mut self.0
    }

    open spec fn spec_decode(bytes: Seq<u8>) -> u32 {
        U32_LE::spec_decode(bytes)
    }

    open spec fn spec_encode(value: u32) -> Seq<u8> {
        U32_LE::spec_encode(value)
    }

    fn to_number(&self) -> (value: u32) {
        let n = read_le(&self.0);
        proof {
            lemma_byte_range_values();
            lemma_le_unsigned_bound(self.0@);
        }
        n as u32
    }

    fn from_number(value: u32) -> (sample: Self) {
        let mut bytes = [0u8, 0u8, 0u8, 0u8];
        write_le(value as u64, &mut bytes);
        Self(bytes)
    }
}

impl BytesSample for U32BE {
    type NumericType = u32;

    const BYTES_PER_SAMPLE: usize = 4;

    closed spec fn spec_bytes(&self) -> Seq<u8> {
        self.0@
    }

    open spec fn spec_slice_fits(len: nat) -> bool {
        len == 4
    }

    /// A sample of this format has 4 bytes.
    proof fn lemma_sample_slice_fits()
        ensures
            Self::BYTES_PER_SAMPLE == 4,
    {
        assert forall|value: u32| #[trigger] Self::spec_encode(value).len() == 4 by {
            lemma_be_roundtrips(value as nat, 4, Seq::empty());
        }
    }

    fn zero() -> (sample: Self)
        ensures
            sample.spec_bytes() == Seq::new(4nat, |i: int| 0u8),
    {
        let sample = Self([0, 0, 0, 0]);
        assert(sample.0@ =~= Seq::new(4nat, |i: int| 0u8));
        sample
    }

    fn from_slice(bytes: &[u8]) -> (sample: Self)
        ensures
            sample.spec_bytes() == bytes@.subrange(0, 4),
    {
        let sample = Self([bytes[0], bytes[1], bytes[2], bytes[3]]);
        assert(sample.0@ =~= bytes@.subrange(0, 4));
        sample
    }

    fn as_slice(&self) -> (bytes: &[u8])
        ensures
            bytes@.len() == 4,
    {
        &self.0
    }

    fn as_mut_slice(&mut self) -> (bytes: &mut [u8]) {
        &mut self.0
    }

    open spec fn spec_decode(bytes: Seq<u8>) -> u32 {
        U32_BE::spec_decode(bytes)
    }

    open spec fn spec_encode(value: u32) -> Seq<u8> {
        U32_BE::spec_encode(value)
    }

    fn to_number(&self) -> (value: u32) {
        let n = read_be(&self.0);
        proof {
            lemma_byte_range_values();
            lemma_be_roundtrips(0, 0, self.0@);
        }
        n as u32
    }

    fn from_number(value: u32) -> (sample: Self) {
        let mut bytes = [0u8, 0u8, 0u8, 0u8];
        write_be(value as u64, &mut bytes);
        Self(bytes)
    }
}

impl BytesSample for U64LE {
    type NumericType = u64;

    const BYTES_PER_SAMPLE: usize = 8;

    closed spec fn spec_bytes(&self) -> Seq<u8> {
        self.0@
    }

    open spec fn spec_slice_fits(len: nat) -> bool {
        len == 8
    }

    /// A sample of this format has 8 bytes.
    proof fn lemma_sample_slice_fits()
        ensures
            Self::BYTES_PER_SAMPLE == 8,
    {
        assert forall|value: u64| #[trigger] Self::spec_encode(value).len() == 8 by {
            lemma_le_number_roundtrip(value as nat, 8);
        }
    }

    fn zero() -> (sample: Self)
        ensures
            sample.spec_bytes() == Seq::new(8nat, |i: int| 0u8),
    {
        let sample = Self([0, 0, 0, 0, 0, 0, 0, 0]);
        assert(sample.0@ =~= Seq::new(8nat, |i: int| 0u8));
        sample
    }

    fn from_slice(bytes: &[u8]) -> (sample: Self)
        ensures
            sample.spec_bytes() == bytes@.subrange(0, 8),
    {
        let sample = Self([bytes[0], bytes[1], bytes[2], bytes[3], bytes[4], bytes[5], bytes[6], bytes[7]]);
        assert(sample.0@ =~= bytes@.subrange(0, 8));
        sample
    }

    fn as_slice(&self) -> (bytes: &[u8])
        ensures
            bytes@.len() == 8,
    {
        &self.0
    }

    fn as_mut_slice(&mut self) -> (bytes: &mut [u8]) {
        &mut self.0
    }

    open spec fn spec_decode(bytes: Seq<u8>) -> u64 {
        U64_LE::spec_decode(bytes)
    }

    open spec fn spec_encode(value: u64) -> Seq<u8> {
        U64_LE::spec_encode(value)
    }

    fn to_number(&self) -> (value: u64) {
        let n = read_le(&self.0);
        proof {
            lemma_byte_range_values();
            lemma_le_unsigned_bound(self.0@);
        }
        n as u64
    }

    fn from_number(value: u64) -> (sample: Self) {
        let mut bytes = [0u8, 0u8, 0u8, 0u8, 0u8, 0u8, 0u8, 0u8];
        write_le(value as u64, &mut bytes);
        Self(bytes)
    }
}

impl BytesSample for U64BE {
    type NumericType = u64;

    const BYTES_PER_SAMPLE: usize = 8;

    closed spec fn spec_bytes(&self) -> Seq<u8> {
        self.0@
    }

    open spec fn spec_slice_fits(len: nat) -> bool {
        len == 8
    }

    /// A sample of this format has 8 bytes.
    proof fn lemma_sample_slice_fits()
        ensures
            Self::BYTES_PER_SAMPLE == 8,
    {
        assert forall|value: u64| #[trigger] Self::spec_encode(value).len() == 8 by {
            lemma_be_roundtrips(value as nat, 8, Seq::empty());
        }
    }

    fn zero() -> (sample: Self)
        ensures
            sample.spec_bytes() == Seq::new(8nat, |i: int| 0u8),
    {
        let sample = Self([0, 0, 0, 0, 0, 0, 0, 0]);
        assert(sample.0@ =~= Seq::new(8nat, |i: int| 0u8));
        sample
    }

    fn from_slice(bytes: &[u8]) -> (sample: Self)
        ensures
            sample.spec_bytes() == bytes@.subrange(0, 8),
    {
        let sample = Self([bytes[0], bytes[1], bytes[2], bytes[3], bytes[4], bytes[5], bytes[6], bytes[7]]);
        assert(sample.0@ =~= bytes@.subrange(0, 8));
        sample
    }

    fn as_slice(&self) -> (bytes: &[u8])
        ensures
            bytes@.len() == 8,
    {
        &self.0
    }

    fn as_mut_slice(&mut self) -> (bytes: &mut [u8]) {
        &mut self.0
    }

    open spec fn spec_decode(bytes: Seq<u8>) -> u64 {
        U64_BE::spec_decode(bytes)
    }

    open spec fn spec_encode(value: u64) -> Seq<u8> {
        U64_BE::spec_encode(value)
    }

    fn to_number(&self) -> (value: u64) {
        let n = read_be(&self.0);
        proof {
            lemma_byte_range_values();
            lemma_be_roundtrips(0, 0, self.0@);
        }
        n as u64
    }

    fn from_number(value: u64) -> (sample: Self) {
        let mut bytes = [0u8, 0u8, 0u8, 0u8, 0u8, 0u8, 0u8, 0u8];
        write_be(value as u64, &mut bytes);
        Self(bytes)
    }
}

impl BytesSample for U16LE {
    type NumericType = u16;

    const BYTES_PER_SAMPLE: usize = 2;

    closed spec fn spec_bytes(&self) -> Seq<u8> {
        self.0@
    }

    open spec fn spec_slice_fits(len: nat) -> bool {
        len == 2
    }

    /// A sample of this format has 2 bytes.
    proof fn lemma_sample_slice_fits()
        ensures
            Self::BYTES_PER_SAMPLE == 2,
    {
        assert forall|value: u16| #[trigger] Self::spec_encode(value).len() == 2 by {
            lemma_le_number_roundtrip(value as nat, 2);
        }
    }

    fn zero() -> (sample: Self)
        ensures
            sample.spec_bytes() == Seq::new(2nat, |i: int| 0u8),
    {
        let sample = Self([0, 0]);
        assert(sample.0@ =~= Seq::new(2nat, |i: int| 0u8));
        sample
    }

    fn from_slice(bytes: &[u8]) -> (sample: Self)
        ensures
            sample.spec_bytes() == bytes@.subrange(0, 2),
    {
        let sample = Self([bytes[0], bytes[1]]);
        assert(sample.0@ =~= bytes@.subrange(0, 2));
        sample
    }

    fn as_slice(&self) -> (bytes: &[u8])
        ensures
            bytes@.len() == 2,
    {
        &self.0
    }

    fn as_mut_slice(&mut self) -> (bytes: &mut [u8]) {
        &mut self.0
    }

    open spec fn spec_decode(bytes: Seq<u8>) -> u16 {
        U16_LE::spec_decode(bytes)
    }

    open spec fn spec_encode(value: u16) -> Seq<u8> {
        U16_LE::spec_encode(value)
    }

    fn to_number(&self) -> (value: u16) {
        let n = read_le(&self.0);
        proof {
            lemma_byte_range_values();
            lemma_le_unsigned_bound(self.0@);
        }
        n as u16
    }

    fn from_number(value: u16) -> (sample: Self) {
        let mut bytes = [0u8, 0u8];
        write_le(value as u64, &mut bytes);
        Self(bytes)
    }
}

impl BytesSample for U16BE {
    type NumericType = u16;

    const BYTES_PER_SAMPLE: usize = 2;

    closed spec fn spec_bytes(&self) -> Seq<u8> {
        self.0@
    }

    open spec fn spec_slice_fits(len: nat) -> bool {
        len == 2
    }

    /// A sample of this format has 2 bytes.
    proof fn lemma_sample_slice_fits()
        ensures
            Self::BYTES_PER_SAMPLE == 2,
    {
        assert forall|value: u16| #[trigger] Self::spec_encode(value).len() == 2 by {
            lemma_be_roundtrips(value as nat, 2, Seq::empty());
        }
    }

    fn zero() -> (sample: Self)
        ensures
            sample.spec_bytes() == Seq::new(2nat, |i: int| 0u8),
    {
        let sample = Self([0, 0]);
        assert(sample.0@ =~= Seq::new(2nat, |i: int| 0u8));
        sample
    }

    fn from_slice(bytes: &[u8]) -> (sample: Self)
        ensures
            sample.spec_bytes() == bytes@.subrange(0, 2),
    {
        let sample = Self([bytes[0], bytes[1]]);
        assert(sample.0@ =~= bytes@.subrange(0, 2));
        sample
    }

    fn as_slice(&self) -> (bytes: &[u8])
        ensures
            bytes@.len() == 2,
    {
        &self.0
    }

    fn as_mut_slice(&mut self) -> (bytes: &mut [u8]) {
        &mut self.0
    }

    open spec fn spec_decode(bytes: Seq<u8>) -> u16 {
        U16_BE::spec_decode(bytes)
    }

    open spec fn spec_encode(value: u16) -> Seq<u8> {
        U16_BE::spec_encode(value)
    }

    fn to_number(&self) -> (value: u16) {
        let n = read_be(&self.0);
        proof {
            lemma_byte_range_values();
            lemma_be_roundtrips(0, 0, self.0@);
        }
        n as u16
    }

    fn from_number(value: u16) -> (sample: Self) {
        let mut bytes = [0u8, 0u8];
        write_be(value as u64, &mut bytes);
        Self(bytes)
    }
}

impl F32LE {
    /// The bytes of the sample.
    pub closed spec fn spec_bytes(&self) -> Seq<u8> {
        self.0@
    }

    /// The number of bytes making up each sample value.
    pub const BYTES_PER_SAMPLE: usize = 4;

    /// Create a sample with all bytes set to zero, which is the value zero.
    pub fn zero() -> (sample: Self)
        ensures
            sample.spec_bytes() == Seq::new(4nat, |i: int| 0u8),
    {
        let sample = Self([0, 0, 0, 0]);
        assert(sample.0@ =~= Seq::new(4nat, |i: int| 0u8));
        sample
    }

    /// Create a sample from a slice of exactly 4 raw bytes.
    pub fn from_slice(bytes: &[u8]) -> (sample: Self)
        requires
            bytes@.len() == 4,
        ensures
            sample.spec_bytes() == bytes@,
    {
        let sample = Self([bytes[0], bytes[1], bytes[2], bytes[3]]);
        assert(sample.0@ =~= bytes@);
        sample
    }

    /// Return the raw bytes as a slice.
    pub fn as_slice(&self) -> (bytes: &[u8])
        ensures
            bytes@ == self.spec_bytes(),
            bytes@.len() == 4,
    {
        &self.0
    }

    /// Return the raw bytes as a mutable slice.
    /// What is written through the slice becomes the bytes of the sample.
    pub fn as_mut_slice(&mut self) -> (bytes: &mut [u8])
        ensures
            bytes@ == old(self).spec_bytes(),
            bytes@.len() == 4,
            final(bytes)@ == final(self).spec_bytes(),
    {
        &mut self.0
    }

    /// The bit pattern of the stored `f32`, as [f32::from_bits] takes it.
    pub fn to_bits(&self) -> (bits: u32)
        ensures
            bits == le_unsigned(self.spec_bytes()),
    {
        let n = read_le(&self.0);
        proof {
            lemma_byte_range_values();
            lemma_le_unsigned_bound(self.0@);
        }
        n as u32
    }

    /// Store the `f32` with the bit pattern `bits`, as [f32::to_bits] gives it.
    pub fn from_bits(bits: u32) -> (sample: Self)
        ensures
            sample.spec_bytes() == le_bytes(bits as nat, 4),
    {
        let mut bytes = [0u8, 0u8, 0u8, 0u8];
        write_le(bits as u64, &mut bytes);
        Self(bytes)
    }
}

impl F32BE {
    /// The bytes of the sample.
    pub closed spec fn spec_bytes(&self) -> Seq<u8> {
        self.0@
    }

    /// The number of bytes making up each sample value.
    pub const BYTES_PER_SAMPLE: usize = 4;

    /// Create a sample with all bytes set to zero, which is the value zero.
    pub fn zero() -> (sample: Self)
        ensures
            sample.spec_bytes() == Seq::new(4nat, |i: int| 0u8),
    {
        let sample = Self([0, 0, 0, 0]);
        assert(sample.0@ =~= Seq::new(4nat, |i: int| 0u8));
        sample
    }

    /// Create a sample from a slice of exactly 4 raw bytes.
    pub fn from_slice(bytes: &[u8]) -> (sample: Self)
        requires
            bytes@.len() == 4,
        ensures
            sample.spec_bytes() == bytes@,
    {
        let sample = Self([bytes[0], bytes[1], bytes[2], bytes[3]]);
        assert(sample.0@ =~= bytes@);
        sample
    }

    /// Return the raw bytes as a slice.
    pub fn as_slice(&self) -> (bytes: &[u8])
        ensures
            bytes@ == self.spec_bytes(),
            bytes@.len() == 4,
    {
        &self.0
    }

    /// Return the raw bytes as a mutable slice.
    /// What is written through the slice becomes the bytes of the sample.
    pub fn as_mut_slice(&mut self) -> (bytes: &mut [u8])
        ensures
            bytes@ == old(self).spec_bytes(),
            bytes@.len() == 4,
            final(bytes)@ == final(self).spec_bytes(),
    {
        &mut self.0
    }

    /// The bit pattern of the stored `f32`, as [f32::from_bits] takes it.
    pub fn to_bits(&self) -> (bits: u32)
        ensures
            bits == be_unsigned(self.spec_bytes()),
    {
        let n = read_be(&self.0);
        proof {
            lemma_byte_range_values();
            lemma_be_roundtrips(0, 0, self.0@);
        }
        n as u32
    }

    /// Store the `f32` with the bit pattern `bits`, as [f32::to_bits] gives it.
    pub fn from_bits(bits: u32) -> (sample: Self)
        ensures
            sample.spec_bytes() == be_bytes(bits as nat, 4),
    {
        let mut bytes = [0u8, 0u8, 0u8, 0u8];
        write_be(bits as u64, &mut bytes);
        Self(bytes)
    }
}

impl F64LE {
    /// The bytes of the sample.
    pub closed spec fn spec_bytes(&self) -> Seq<u8> {
        self.0@
    }

    /// The number of bytes making up each sample value.
    pub const BYTES_PER_SAMPLE: usize = 8;

    /// Create a sample with all bytes set to zero, which is the value zero.
    pub fn zero() -> (sample: Self)
        ensures
            sample.spec_bytes() == Seq::new(8nat, |i: int| 0u8),
    {
        let sample = Self([0, 0, 0, 0, 0, 0, 0, 0]);
        assert(sample.0@ =~= Seq::new(8nat, |i: int| 0u8));
        sample
    }

    /// Create a sample from a slice of exactly 8 raw bytes.
    pub fn from_slice(bytes: &[u8]) -> (sample: Self)
        requires
            bytes@.len() == 8,
        ensures
            sample.spec_bytes() == bytes@,
    {
        let sample = Self([bytes[0], bytes[1], bytes[2], bytes[3], bytes[4], bytes[5], bytes[6], bytes[7]]);
        assert(sample.0@ =~= bytes@);
        sample
    }

    /// Return the raw bytes as a slice.
    pub fn as_slice(&self) -> (bytes: &[u8])
        ensures
            bytes@ == self.spec_bytes(),
            bytes@.len() == 8,
    {
        &self.0
    }

    /// Return the raw bytes as a mutable slice.
    /// What is written through the slice becomes the bytes of the sample.
    pub fn as_mut_slice(&mut self) -> (bytes: &mut [u8])
        ensures
            bytes@ == old(self).spec_bytes(),
            bytes@.len() == 8,
            final(bytes)@ == final(self).spec_bytes(),
    {
        &mut self.0
    }

    /// The bit pattern of the stored `f64`, as [f64::from_bits] takes it.
    pub fn to_bits(&self) -> (bits: u64)
        ensures
            bits == le_unsigned(self.spec_bytes()),
    {
        let n = read_le(&self.0);
        proof {
            lemma_byte_range_values();
            lemma_le_unsigned_bound(self.0@);
        }
        n as u64
    }

    /// Store the `f64` with the bit pattern `bits`, as [f64::to_bits] gives it.
    pub fn from_bits(bits: u64) -> (sample: Self)
        ensures
            sample.spec_bytes() == le_bytes(bits as nat, 8),
    {
        let mut bytes = [0u8, 0u8, 0u8, 0u8, 0u8, 0u8, 0u8, 0u8];
        write_le(bits as u64, &mut bytes);
        Self(bytes)
    }
}

impl F64BE {
    /// The bytes of the sample.
    pub closed spec fn spec_bytes(&self) -> Seq<u8> {
        self.0@
    }

    /// The number of bytes making up each sample value.
    pub const BYTES_PER_SAMPLE: usize = 8;

    /// Create a sample with all bytes set to zero, which is the value zero.
    pub fn zero() -> (sample: Self)
        ensures
            sample.spec_bytes() == Seq::new(8nat, |i: int| 0u8),
    {
        let sample = Self([0, 0, 0, 0, 0, 0, 0, 0]);
        assert(sample.0@ =~= Seq::new(8nat, |i: int| 0u8));
        sample
    }

    /// Create a sample from a slice of exactly 8 raw bytes.
    pub fn from_slice(bytes: &[u8]) -> (sample: Self)
        requires
            bytes@.len() == 8,
        ensures
            sample.spec_bytes() == bytes@,
    {
        let sample = Self([bytes[0], bytes[1], bytes[2], bytes[3], bytes[4], bytes[5], bytes[6], bytes[7]]);
        assert(sample.0@ =~= bytes@);
        sample
    }

    /// Return the raw bytes as a slice.
    pub fn as_slice(&self) -> (bytes: &[u8])
        ensures
            bytes@ == self.spec_bytes(),
            bytes@.len() == 8,
    {
        &self.0
    }

    /// Return the raw bytes as a mutable slice.
    /// What is written through the slice becomes the bytes of the sample.
    pub fn as_mut_slice(&mut self) -> (bytes: &mut [u8])
        ensures
            bytes@ == old(self).spec_bytes(),
            bytes@.len() == 8,
            final(bytes)@ == final(self).spec_bytes(),
    {
        &mut self.0
    }

    /// The bit pattern of the stored `f64`, as [f64::from_bits] takes it.
    pub fn to_bits(&self) -> (bits: u64)
        ensures
            bits == be_unsigned(self.spec_bytes()),
    {
        let n = read_be(&self.0);
        proof {
            lemma_byte_range_values();
            lemma_be_roundtrips(0, 0, self.0@);
        }
        n as u64
    }

    /// Store the `f64` with the bit pattern `bits`, as [f64::to_bits] gives it.
    pub fn from_bits(bits: u64) -> (sample: Self)
        ensures
            sample.spec_bytes() == be_bytes(bits as nat, 8),
    {
        let mut bytes = [0u8, 0u8, 0u8, 0u8, 0u8, 0u8, 0u8, 0u8];
        write_be(bits as u64, &mut bytes);
        Self(bytes)
    }
}

/// `I32LE` holds a two's complement number in 4 bytes, least significant byte first: reading takes the bytes
/// as base 256 digits, and writing stores the digits of the number taken
/// modulo 0x100000000.
pub proof fn law_i32le_layout(bytes: Seq<u8>, value: i32)
    ensures
        bytes.len() == 4 ==> I32LE::spec_decode(bytes) as int == bytes[0] as int + 0x100 * bytes[1] + 0x10000 * bytes[2] + 0x1000000 * bytes[3] - (if bytes[3] >= 128 { 0x100000000int } else { 0int }),
        I32LE::spec_encode(value) == seq![(((value as int) % 0x100000000) % 256) as u8, (((value as int) % 0x100000000) / 0x100 % 256) as u8, (((value as int) % 0x100000000) / 0x10000 % 256) as u8, (((value as int) % 0x100000000) / 0x1000000 % 256) as u8],
{
    lemma_byte_range_values();
    if bytes.len() == 4 {
        lemma_le_unsigned_small(bytes);
        lemma_le_unsigned_bound(bytes);
        lemma_signed_roundtrips(0, le_unsigned(bytes) as int, 4);
    }
    let u = to_unsigned(value as int, 4);
    assert(u == (value as int) % 0x100000000);
    lemma_le_bytes_digits(u, 4);
    assert(I32LE::spec_encode(value) =~= seq![(((value as int) % 0x100000000) % 256) as u8, (((value as int) % 0x100000000) / 0x100 % 256) as u8, (((value as int) % 0x100000000) / 0x10000 % 256) as u8, (((value as int) % 0x100000000) / 0x1000000 % 256) as u8]);
}

/// `I32BE` holds a two's complement number in 4 bytes, most significant byte first: reading takes the bytes
/// as base 256 digits, and writing stores the digits of the number taken
/// modulo 0x100000000.
pub proof fn law_i32be_layout(bytes: Seq<u8>, value: i32)
    ensures
        bytes.len() == 4 ==> I32BE::spec_decode(bytes) as int == bytes[3] as int + 0x100 * bytes[2] + 0x10000 * bytes[1] + 0x1000000 * bytes[0] - (if bytes[0] >= 128 { 0x100000000int } else { 0int }),
        I32BE::spec_encode(value) == seq![(((value as int) % 0x100000000) / 0x1000000 % 256) as u8, (((value as int) % 0x100000000) / 0x10000 % 256) as u8, (((value as int) % 0x100000000) / 0x100 % 256) as u8, (((value as int) % 0x100000000) % 256) as u8],
{
    lemma_byte_range_values();
    if bytes.len() == 4 {
        lemma_le_unsigned_small(bytes.reverse());
        lemma_le_unsigned_bound(bytes.reverse());
        lemma_signed_roundtrips(0, le_unsigned(bytes.reverse()) as int, 4);
    }
    let u = to_unsigned(value as int, 4);
    assert(u == (value as int) % 0x100000000);
    lemma_le_bytes_digits(u, 4);
    assert(I32BE::spec_encode(value) =~= seq![(((value as int) % 0x100000000) / 0x1000000 % 256) as u8, (((value as int) % 0x100000000) / 0x10000 % 256) as u8, (((value as int) % 0x100000000) / 0x100 % 256) as u8, (((value as int) % 0x100000000) % 256) as u8]);
}

/// `I64LE` holds a two's complement number in 8 bytes, least significant byte first: reading takes the bytes
/// as base 256 digits, and writing stores the digits of the number taken
/// modulo 0x10000000000000000.
pub proof fn law_i64le_layout(bytes: Seq<u8>, value: i64)
    ensures
        bytes.len() == 8 ==> I64LE::spec_decode(bytes) as int == bytes[0] as int + 0x100 * bytes[1] + 0x10000 * bytes[2] + 0x1000000 * bytes[3] + 0x100000000 * bytes[4] + 0x10000000000 * bytes[5] + 0x1000000000000 * bytes[6] + 0x100000000000000 * bytes[7] - (if bytes[7] >= 128 { 0x10000000000000000int } else { 0int }),
        I64LE::spec_encode(value) == seq![(((value as int) % 0x10000000000000000) % 256) as u8, (((value as int) % 0x10000000000000000) / 0x100 % 256) as u8, (((value as int) % 0x10000000000000000) / 0x10000 % 256) as u8, (((value as int) % 0x10000000000000000) / 0x1000000 % 256) as u8, (((value as int) % 0x10000000000000000) / 0x100000000 % 256) as u8, (((value as int) % 0x10000000000000000) / 0x10000000000 % 256) as u8, (((value as int) % 0x10000000000000000) / 0x1000000000000 % 256) as u8, (((value as int) % 0x10000000000000000) / 0x100000000000000 % 256) as u8],
{
    lemma_byte_range_values();
    if bytes.len() == 8 {
        lemma_le_unsigned_eight(bytes);
        lemma_le_unsigned_bound(bytes);
        lemma_signed_roundtrips(0, le_unsigned(bytes) as int, 8);
    }
    let u = to_unsigned(value as int, 8);
    assert(u == (value as int) % 0x10000000000000000);
    lemma_le_bytes_digits(u, 8);
    assert(I64LE::spec_encode(value) =~= seq![(((value as int) % 0x10000000000000000) % 256) as u8, (((value as int) % 0x10000000000000000) / 0x100 % 256) as u8, (((value as int) % 0x10000000000000000) / 0x10000 % 256) as u8, (((value as int) % 0x10000000000000000) / 0x1000000 % 256) as u8, (((value as int) % 0x10000000000000000) / 0x100000000 % 256) as u8, (((value as int) % 0x10000000000000000) / 0x10000000000 % 256) as u8, (((value as int) % 0x10000000000000000) / 0x1000000000000 % 256) as u8, (((value as int) % 0x10000000000000000) / 0x100000000000000 % 256) as u8]);
}

/// `I64BE` holds a two's complement number in 8 bytes, most significant byte first: reading takes the bytes
/// as base 256 digits, and writing stores the digits of the number taken
/// modulo 0x10000000000000000.
pub proof fn law_i64be_layout(bytes: Seq<u8>, value: i64)
    ensures
        bytes.len() == 8 ==> I64BE::spec_decode(bytes) as int == bytes[7] as int + 0x100 * bytes[6] + 0x10000 * bytes[5] + 0x1000000 * bytes[4] + 0x100000000 * bytes[3] + 0x10000000000 * bytes[2] + 0x1000000000000 * bytes[1] + 0x100000000000000 * bytes[0] - (if bytes[0] >= 128 { 0x10000000000000000int } else { 0int }),
        I64BE::spec_encode(value) == seq![(((value as int) % 0x10000000000000000) / 0x100000000000000 % 256) as u8, (((value as int) % 0x10000000000000000) / 0x1000000000000 % 256) as u8, (((value as int) % 0x10000000000000000) / 0x10000000000 % 256) as u8, (((value as int) % 0x10000000000000000) / 0x100000000 % 256) as u8, (((value as int) % 0x10000000000000000) / 0x1000000 % 256) as u8, (((value as int) % 0x10000000000000000) / 0x10000 % 256) as u8, (((value as int) % 0x10000000000000000) / 0x100 % 256) as u8, (((value as int) % 0x10000000000000000) % 256) as u8],
{
    lemma_byte_range_values();
    if bytes.len() == 8 {
        lemma_le_unsigned_eight(bytes.reverse());
        lemma_le_unsigned_bound(bytes.reverse());
        lemma_signed_roundtrips(0, le_unsigned(bytes.reverse()) as int, 8);
    }
    let u = to_unsigned(value as int, 8);
    assert(u == (value as int) % 0x10000000000000000);
    lemma_le_bytes_digits(u, 8);
    assert(I64BE::spec_encode(value) =~= seq![(((value as int) % 0x10000000000000000) / 0x100000000000000 % 256) as u8, (((value as int) % 0x10000000000000000) / 0x1000000000000 % 256) as u8, (((value as int) % 0x10000000000000000) / 0x10000000000 % 256) as u8, (((value as int) % 0x10000000000000000) / 0x100000000 % 256) as u8, (((value as int) % 0x10000000000000000) / 0x1000000 % 256) as u8, (((value as int) % 0x10000000000000000) / 0x10000 % 256) as u8, (((value as int) % 0x10000000000000000) / 0x100 % 256) as u8, (((value as int) % 0x10000000000000000) % 256) as u8]);
}

/// `I16LE` holds a two's complement number in 2 bytes, least significant byte first: reading takes the bytes
/// as base 256 digits, and writing stores the digits of the number taken
/// modulo 0x10000.
pub proof fn law_i16le_layout(bytes: Seq<u8>, value: i16)
    ensures
        bytes.len() == 2 ==> I16LE::spec_decode(bytes) as int == bytes[0] as int + 0x100 * bytes[1] - (if bytes[1] >= 128 { 0x10000int } else { 0int }),
        I16LE::spec_encode(value) == seq![(((value as int) % 0x10000) % 256) as u8, (((value as int) % 0x10000) / 0x100 % 256) as u8],
{
    lemma_byte_range_values();
    if bytes.len() == 2 {
        lemma_le_unsigned_small(bytes);
        lemma_le_unsigned_bound(bytes);
        lemma_signed_roundtrips(0, le_unsigned(bytes) as int, 2);
    }
    let u = to_unsigned(value as int, 2);
    assert(u == (value as int) % 0x10000);
    lemma_le_bytes_digits(u, 2);
    assert(I16LE::spec_encode(value) =~= seq![(((value as int) % 0x10000) % 256) as u8, (((value as int) % 0x10000) / 0x100 % 256) as u8]);
}

/// `I16BE` holds a two's complement number in 2 bytes, most significant byte first: reading takes the bytes
/// as base 256 digits, and writing stores the digits of the number taken
/// modulo 0x10000.
pub proof fn law_i16be_layout(bytes: Seq<u8>, value: i16)
    ensures
        bytes.len() == 2 ==> I16BE::spec_decode(bytes) as int == bytes[1] as int + 0x100 * bytes[0] - (if bytes[0] >= 128 { 0x10000int } else { 0int }),
        I16BE::spec_encode(value) == seq![(((value as int) % 0x10000) / 0x100 % 256) as u8, (((value as int) % 0x10000) % 256) as u8],
{
    lemma_byte_range_values();
    if bytes.len() == 2 {
        lemma_le_unsigned_small(bytes.reverse());
        lemma_le_unsigned_bound(bytes.reverse());
        lemma_signed_roundtrips(0, le_unsigned(bytes.reverse()) as int, 2);
    }
    let u = to_unsigned(value as int, 2);
    assert(u == (value as int) % 0x10000);
    lemma_le_bytes_digits(u, 2);
    assert(I16BE::spec_encode(value) =~= seq![(((value as int) % 0x10000) / 0x100 % 256) as u8, (((value as int) % 0x10000) % 256) as u8]);
}

/// `U32LE` holds an unsigned number in 4 bytes, least significant byte first: reading takes the bytes
/// as base 256 digits, and writing stores the digits of the number taken
/// modulo 0x100000000.
pub proof fn law_u32le_layout(bytes: Seq<u8>, value: u32)
    ensures
        bytes.len() == 4 ==> U32LE::spec_decode(bytes) as int == bytes[0] as int + 0x100 * bytes[1] + 0x10000 * bytes[2] + 0x1000000 * bytes[3],
        U32LE::spec_encode(value) == seq![(((value as int) % 0x100000000) % 256) as u8, (((value as int) % 0x100000000) / 0x100 % 256) as u8, (((value as int) % 0x100000000) / 0x10000 % 256) as u8, (((value as int) % 0x100000000) / 0x1000000 % 256) as u8],
{
    lemma_byte_range_values();
    if bytes.len() == 4 {
        lemma_le_unsigned_small(bytes);
        lemma_le_unsigned_bound(bytes);
    }
    let u = value as nat;
    assert(u == (value as int) % 0x100000000);
    lemma_le_bytes_digits(u, 4);
    assert(U32LE::spec_encode(value) =~= seq![(((value as int) % 0x100000000) % 256) as u8, (((value as int) % 0x100000000) / 0x100 % 256) as u8, (((value as int) % 0x100000000) / 0x10000 % 256) as u8, (((value as int) % 0x100000000) / 0x1000000 % 256) as u8]);
}

/// `U32BE` holds an unsigned number in 4 bytes, most significant byte first: reading takes the bytes
/// as base 256 digits, and writing stores the digits of the number taken
/// modulo 0x100000000.
pub proof fn law_u32be_layout(bytes: Seq<u8>, value: u32)
    ensures
        bytes.len() == 4 ==> U32BE::spec_decode(bytes) as int == bytes[3] as int + 0x100 * bytes[2] + 0x10000 * bytes[1] + 0x1000000 * bytes[0],
        U32BE::spec_encode(value) == seq![(((value as int) % 0x100000000) / 0x1000000 % 256) as u8, (((value as int) % 0x100000000) / 0x10000 % 256) as u8, (((value as int) % 0x100000000) / 0x100 % 256) as u8, (((value as int) % 0x100000000) % 256) as u8],
{
    lemma_byte_range_values();
    if bytes.len() == 4 {
        lemma_le_unsigned_small(bytes.reverse());
        lemma_le_unsigned_bound(bytes.reverse());
    }
    let u = value as nat;
    assert(u == (value as int) % 0x100000000);
    lemma_le_bytes_digits(u, 4);
    assert(U32BE::spec_encode(value) =~= seq![(((value as int) % 0x100000000) / 0x1000000 % 256) as u8, (((value as int) % 0x100000000) / 0x10000 % 256) as u8, (((value as int) % 0x100000000) / 0x100 % 256) as u8, (((value as int) % 0x100000000) % 256) as u8]);
}

/// `U64LE` holds an unsigned number in 8 bytes, least significant byte first: reading takes the bytes
/// as base 256 digits, and writing stores the digits of the number taken
/// modulo 0x10000000000000000.
pub proof fn law_u64le_layout(bytes: Seq<u8>, value: u64)
    ensures
        bytes.len() == 8 ==> U64LE::spec_decode(bytes) as int == bytes[0] as int + 0x100 * bytes[1] + 0x10000 * bytes[2] + 0x1000000 * bytes[3] + 0x100000000 * bytes[4] + 0x10000000000 * bytes[5] + 0x1000000000000 * bytes[6] + 0x100000000000000 * bytes[7],
        U64LE::spec_encode(value) == seq![(((value as int) % 0x10000000000000000) % 256) as u8, (((value as int) % 0x10000000000000000) / 0x100 % 256) as u8, (((value as int) % 0x10000000000000000) / 0x10000 % 256) as u8, (((value as int) % 0x10000000000000000) / 0x1000000 % 256) as u8, (((value as int) % 0x10000000000000000) / 0x100000000 % 256) as u8, (((value as int) % 0x10000000000000000) / 0x10000000000 % 256) as u8, (((value as int) % 0x10000000000000000) / 0x1000000000000 % 256) as u8, (((value as int) % 0x10000000000000000) / 0x100000000000000 % 256) as u8],
{
    lemma_byte_range_values();
    if bytes.len() == 8 {
        lemma_le_unsigned_eight(bytes);
        lemma_le_unsigned_bound(bytes);
    }
    let u = value as nat;
    assert(u == (value as int) % 0x10000000000000000);
    lemma_le_bytes_digits(u, 8);
    assert(U64LE::spec_encode(value) =~= seq![(((value as int) % 0x10000000000000000) % 256) as u8, (((value as int) % 0x10000000000000000) / 0x100 % 256) as u8, (((value as int) % 0x10000000000000000) / 0x10000 % 256) as u8, (((value as int) % 0x10000000000000000) / 0x1000000 % 256) as u8, (((value as int) % 0x10000000000000000) / 0x100000000 % 256) as u8, (((value as int) % 0x10000000000000000) / 0x10000000000 % 256) as u8, (((value as int) % 0x10000000000000000) / 0x1000000000000 % 256) as u8, (((value as int) % 0x10000000000000000) / 0x100000000000000 % 256) as u8]);
}

/// `U64BE` holds an unsigned number in 8 bytes, most significant byte first: reading takes the bytes
/// as base 256 digits, and writing stores the digits of the number taken
/// modulo 0x10000000000000000.
pub proof fn law_u64be_layout(bytes: Seq<u8>, value: u64)
    ensures
        bytes.len() == 8 ==> U64BE::spec_decode(bytes) as int == bytes[7] as int + 0x100 * bytes[6] + 0x10000 * bytes[5] + 0x1000000 * bytes[4] + 0x100000000 * bytes[3] + 0x10000000000 * bytes[2] + 0x1000000000000 * bytes[1] + 0x100000000000000 * bytes[0],
        U64BE::spec_encode(value) == seq![(((value as int) % 0x10000000000000000) / 0x100000000000000 % 256) as u8, (((value as int) % 0x10000000000000000) / 0x1000000000000 % 256) as u8, (((value as int) % 0x10000000000000000) / 0x10000000000 % 256) as u8, (((value as int) % 0x10000000000000000) / 0x100000000 % 256) as u8, (((value as int) % 0x10000000000000000) / 0x1000000 % 256) as u8, (((value as int) % 0x10000000000000000) / 0x10000 % 256) as u8, (((value as int) % 0x10000000000000000) / 0x100 % 256) as u8, (((value as int) % 0x10000000000000000) % 256) as u8],
{
    lemma_byte_range_values();
    if bytes.len() == 8 {
        lemma_le_unsigned_eight(bytes.reverse());
        lemma_le_unsigned_bound(bytes.reverse());
    }
    let u = value as nat;
    assert(u == (value as int) % 0x10000000000000000);
    lemma_le_bytes_digits(u, 8);
    assert(U64BE::spec_encode(value) =~= seq![(((value as int) % 0x10000000000000000) / 0x100000000000000 % 256) as u8, (((value as int) % 0x10000000000000000) / 0x1000000000000 % 256) as u8, (((value as int) % 0x10000000000000000) / 0x10000000000 % 256) as u8, (((value as int) % 0x10000000000000000) / 0x100000000 % 256) as u8, (((value as int) % 0x10000000000000000) / 0x1000000 % 256) as u8, (((value as int) % 0x10000000000000000) / 0x10000 % 256) as u8, (((value as int) % 0x10000000000000000) / 0x100 % 256) as u8, (((value as int) % 0x10000000000000000) % 256) as u8]);
}

/// `U16LE` holds an unsigned number in 2 bytes, least significant byte first: reading takes the bytes
/// as base 256 digits, and writing stores the digits of the number taken
/// modulo 0x10000.
pub proof fn law_u16le_layout(bytes: Seq<u8>, value: u16)
    ensures
        bytes.len() == 2 ==> U16LE::spec_decode(bytes) as int == bytes[0] as int + 0x100 * bytes[1],
        U16LE::spec_encode(value) == seq![(((value as int) % 0x10000) % 256) as u8, (((value as int) % 0x10000) / 0x100 % 256) as u8],
{
    lemma_byte_range_values();
    if bytes.len() == 2 {
        lemma_le_unsigned_small(bytes);
        lemma_le_unsigned_bound(bytes);
    }
    let u = value as nat;
    assert(u == (value as int) % 0x10000);
    lemma_le_bytes_digits(u, 2);
    assert(U16LE::spec_encode(value) =~= seq![(((value as int) % 0x10000) % 256) as u8, (((value as int) % 0x10000) / 0x100 % 256) as u8]);
}

/// `U16BE` holds an unsigned number in 2 bytes, most significant byte first: reading takes the bytes
/// as base 256 digits, and writing stores the digits of the number taken
/// modulo 0x10000.
pub proof fn law_u16be_layout(bytes: Seq<u8>, value: u16)
    ensures
        bytes.len() == 2 ==> U16BE::spec_decode(bytes) as int == bytes[1] as int + 0x100 * bytes[0],
        U16BE::spec_encode(value) == seq![(((value as int) % 0x10000) / 0x100 % 256) as u8, (((value as int) % 0x10000) % 256) as u8],
{
    lemma_byte_range_values();
    if bytes.len() == 2 {
        lemma_le_unsigned_small(bytes.reverse());
        lemma_le_unsigned_bound(bytes.reverse());
    }
    let u = value as nat;
    assert(u == (value as int) % 0x10000);
    lemma_le_bytes_digits(u, 2);
    assert(U16BE::spec_encode(value) =~= seq![(((value as int) % 0x10000) / 0x100 % 256) as u8, (((value as int) % 0x10000) % 256) as u8]);
}

/// `I24LE<[u8; 3]>` holds the 24 most significant bits of a signed 32 bit number in
/// three bytes, least significant byte first: reading takes the three bytes as the upper base
/// 256 digits of the number, and writing stores those digits of the number.
pub proof fn law_i24le_packed_layout(bytes: Seq<u8>, value: i32)
    ensures
        bytes.len() == 3 ==> <I24LE<[u8; 3]> as BytesSample>::spec_decode(bytes) as int == 0x100 * (bytes[0] as int + 0x100 * bytes[1] + 0x10000 * bytes[2] - (if bytes[2] >= 128 { 0x1000000int } else { 0int })),
        <I24LE<[u8; 3]> as BytesSample>::spec_encode(value) == seq![(((value as int) % 0x100000000 / 0x100) % 256) as u8, (((value as int) % 0x100000000 / 0x100) / 0x100 % 256) as u8, (((value as int) % 0x100000000 / 0x100) / 0x10000 % 256) as u8],
{
    lemma_byte_range_values();
    if bytes.len() == 3 {
        lemma_le_unsigned_small(bytes);
        lemma_le_unsigned_bound(bytes);
        lemma_signed_roundtrips(0, le_unsigned(bytes) as int, 3);
    }
    lemma_signed_roundtrips(value as int, 0, 4);
    let w = to_unsigned(value as int, 4) / 256;
    assert(w == (value as int) % 0x100000000 / 0x100);
    lemma_le_bytes_digits(w, 3);
    assert(<I24LE<[u8; 3]> as BytesSample>::spec_encode(value) =~= seq![(((value as int) % 0x100000000 / 0x100) % 256) as u8, (((value as int) % 0x100000000 / 0x100) / 0x100 % 256) as u8, (((value as int) % 0x100000000 / 0x100) / 0x10000 % 256) as u8]);
}

/// `I24LE<[u8; 4]>` holds the 24 most significant bits of a signed 32 bit number in
/// three bytes, with a zero padding byte after them, least significant byte first: reading takes the three bytes as the upper base
/// 256 digits of the number, and writing stores those digits of the number.
pub proof fn law_i24le_padded_layout(bytes: Seq<u8>, value: i32)
    ensures
        bytes.len() == 4 ==> <I24LE<[u8; 4]> as BytesSample>::spec_decode(bytes) as int == 0x100 * (bytes[0] as int + 0x100 * bytes[1] + 0x10000 * bytes[2] - (if bytes[2] >= 128 { 0x1000000int } else { 0int })),
        <I24LE<[u8; 4]> as BytesSample>::spec_encode(value) == seq![(((value as int) % 0x100000000 / 0x100) % 256) as u8, (((value as int) % 0x100000000 / 0x100) / 0x100 % 256) as u8, (((value as int) % 0x100000000 / 0x100) / 0x10000 % 256) as u8, 0u8],
{
    lemma_byte_range_values();
    if bytes.len() == 4 {
        lemma_le_unsigned_small(bytes.subrange(0, 3));
        lemma_le_unsigned_bound(bytes.subrange(0, 3));
        lemma_signed_roundtrips(0, le_unsigned(bytes.subrange(0, 3)) as int, 3);
    }
    lemma_signed_roundtrips(value as int, 0, 4);
    let w = to_unsigned(value as int, 4) / 256;
    assert(w == (value as int) % 0x100000000 / 0x100);
    lemma_le_bytes_digits(w, 3);
    assert(<I24LE<[u8; 4]> as BytesSample>::spec_encode(value) =~= seq![(((value as int) % 0x100000000 / 0x100) % 256) as u8, (((value as int) % 0x100000000 / 0x100) / 0x100 % 256) as u8, (((value as int) % 0x100000000 / 0x100) / 0x10000 % 256) as u8, 0u8]);
}

/// `I24BE<[u8; 3]>` holds the 24 most significant bits of a signed 32 bit number in
/// three bytes, most significant byte first: reading takes the three bytes as the upper base
/// 256 digits of the number, and writing stores those digits of the number.
pub proof fn law_i24be_packed_layout(bytes: Seq<u8>, value: i32)
    ensures
        bytes.len() == 3 ==> <I24BE<[u8; 3]> as BytesSample>::spec_decode(bytes) as int == 0x100 * (bytes[2] as int + 0x100 * bytes[1] + 0x10000 * bytes[0] - (if bytes[0] >= 128 { 0x1000000int } else { 0int })),
        <I24BE<[u8; 3]> as BytesSample>::spec_encode(value) == seq![(((value as int) % 0x100000000 / 0x100) / 0x10000 % 256) as u8, (((value as int) % 0x100000000 / 0x100) / 0x100 % 256) as u8, (((value as int) % 0x100000000 / 0x100) % 256) as u8],
{
    lemma_byte_range_values();
    if bytes.len() == 3 {
        lemma_le_unsigned_small(bytes.reverse());
        lemma_le_unsigned_bound(bytes.reverse());
        lemma_signed_roundtrips(0, le_unsigned(bytes.reverse()) as int, 3);
    }
    lemma_signed_roundtrips(value as int, 0, 4);
    let w = to_unsigned(value as int, 4) / 256;
    assert(w == (value as int) % 0x100000000 / 0x100);
    lemma_le_bytes_digits(w, 3);
    assert(<I24BE<[u8; 3]> as BytesSample>::spec_encode(value) =~= seq![(((value as int) % 0x100000000 / 0x100) / 0x10000 % 256) as u8, (((value as int) % 0x100000000 / 0x100) / 0x100 % 256) as u8, (((value as int) % 0x100000000 / 0x100) % 256) as u8]);
}

/// `I24BE<[u8; 4]>` holds the 24 most significant bits of a signed 32 bit number in
/// three bytes, with a zero padding byte before them, most significant byte first: reading takes the three bytes as the upper base
/// 256 digits of the number, and writing stores those digits of the number.
pub proof fn law_i24be_padded_layout(bytes: Seq<u8>, value: i32)
    ensures
        bytes.len() == 4 ==> <I24BE<[u8; 4]> as BytesSample>::spec_decode(bytes) as int == 0x100 * (bytes[3] as int + 0x100 * bytes[2] + 0x10000 * bytes[1] - (if bytes[1] >= 128 { 0x1000000int } else { 0int })),
        <I24BE<[u8; 4]> as BytesSample>::spec_encode(value) == seq![0u8, (((value as int) % 0x100000000 / 0x100) / 0x10000 % 256) as u8, (((value as int) % 0x100000000 / 0x100) / 0x100 % 256) as u8, (((value as int) % 0x100000000 / 0x100) % 256) as u8],
{
    lemma_byte_range_values();
    if bytes.len() == 4 {
        lemma_le_unsigned_small(bytes.subrange(1, 4).reverse());
        lemma_le_unsigned_bound(bytes.subrange(1, 4).reverse());
        lemma_signed_roundtrips(0, le_unsigned(bytes.subrange(1, 4).reverse()) as int, 3);
    }
    lemma_signed_roundtrips(value as int, 0, 4);
    let w = to_unsigned(value as int, 4) / 256;
    assert(w == (value as int) % 0x100000000 / 0x100);
    lemma_le_bytes_digits(w, 3);
    assert(<I24BE<[u8; 4]> as BytesSample>::spec_encode(value) =~= seq![0u8, (((value as int) % 0x100000000 / 0x100) / 0x10000 % 256) as u8, (((value as int) % 0x100000000 / 0x100) / 0x100 % 256) as u8, (((value as int) % 0x100000000 / 0x100) % 256) as u8]);
}

/// `U24LE<[u8; 3]>` holds the 24 most significant bits of a unsigned 32 bit number in
/// three bytes, least significant byte first: reading takes the three bytes as the upper base
/// 256 digits of the number, and writing stores those digits of the number.
pub proof fn law_u24le_packed_layout(bytes: Seq<u8>, value: u32)
    ensures
        bytes.len() == 3 ==> <U24LE<[u8; 3]> as BytesSample>::spec_decode(bytes) as int == 0x100 * (bytes[0] as int + 0x100 * bytes[1] + 0x10000 * bytes[2]),
        <U24LE<[u8; 3]> as BytesSample>::spec_encode(value) == seq![(((value as int) % 0x100000000 / 0x100) % 256) as u8, (((value as int) % 0x100000000 / 0x100) / 0x100 % 256) as u8, (((value as int) % 0x100000000 / 0x100) / 0x10000 % 256) as u8],
{
    lemma_byte_range_values();
    if bytes.len() == 3 {
        lemma_le_unsigned_small(bytes);
        lemma_le_unsigned_bound(bytes);
    }
    let w = value as nat / 256;
    assert(w == (value as int) % 0x100000000 / 0x100);
    lemma_le_bytes_digits(w, 3);
    assert(<U24LE<[u8; 3]> as BytesSample>::spec_encode(value) =~= seq![(((value as int) % 0x100000000 / 0x100) % 256) as u8, (((value as int) % 0x100000000 / 0x100) / 0x100 % 256) as u8, (((value as int) % 0x100000000 / 0x100) / 0x10000 % 256) as u8]);
}

/// `U24LE<[u8; 4]>` holds the 24 most significant bits of a unsigned 32 bit number in
/// three bytes, with a zero padding byte after them, least significant byte first: reading takes the three bytes as the upper base
/// 256 digits of the number, and writing stores those digits of the number.
pub proof fn law_u24le_padded_layout(bytes: Seq<u8>, value: u32)
    ensures
        bytes.len() == 4 ==> <U24LE<[u8; 4]> as BytesSample>::spec_decode(bytes) as int == 0x100 * (bytes[0] as int + 0x100 * bytes[1] + 0x10000 * bytes[2]),
        <U24LE<[u8; 4]> as BytesSample>::spec_encode(value) == seq![(((value as int) % 0x100000000 / 0x100) % 256) as u8, (((value as int) % 0x100000000 / 0x100) / 0x100 % 256) as u8, (((value as int) % 0x100000000 / 0x100) / 0x10000 % 256) as u8, 0u8],
{
    lemma_byte_range_values();
    if bytes.len() == 4 {
        lemma_le_unsigned_small(bytes.subrange(0, 3));
        lemma_le_unsigned_bound(bytes.subrange(0, 3));
    }
    let w = value as nat / 256;
    assert(w == (value as int) % 0x100000000 / 0x100);
    lemma_le_bytes_digits(w, 3);
    assert(<U24LE<[u8; 4]> as BytesSample>::spec_encode(value) =~= seq![(((value as int) % 0x100000000 / 0x100) % 256) as u8, (((value as int) % 0x100000000 / 0x100) / 0x100 % 256) as u8, (((value as int) % 0x100000000 / 0x100) / 0x10000 % 256) as u8, 0u8]);
}

/// `U24BE<[u8; 3]>` holds the 24 most significant bits of a unsigned 32 bit number in
/// three bytes, most significant byte first: reading takes the three bytes as the upper base
/// 256 digits of the number, and writing stores those digits of the number.
pub proof fn law_u24be_packed_layout(bytes: Seq<u8>, value: u32)
    ensures
        bytes.len() == 3 ==> <U24BE<[u8; 3]> as BytesSample>::spec_decode(bytes) as int == 0x100 * (bytes[2] as int + 0x100 * bytes[1] + 0x10000 * bytes[0]),
        <U24BE<[u8; 3]> as BytesSample>::spec_encode(value) == seq![(((value as int) % 0x100000000 / 0x100) / 0x10000 % 256) as u8, (((value as int) % 0x100000000 / 0x100) / 0x100 % 256) as u8, (((value as int) % 0x100000000 / 0x100) % 256) as u8],
{
    lemma_byte_range_values();
    if bytes.len() == 3 {
        lemma_le_unsigned_small(bytes.reverse());
        lemma_le_unsigned_bound(bytes.reverse());
    }
    let w = value as nat / 256;
    assert(w == (value as int) % 0x100000000 / 0x100);
    lemma_le_bytes_digits(w, 3);
    assert(<U24BE<[u8; 3]> as BytesSample>::spec_encode(value) =~= seq![(((value as int) % 0x100000000 / 0x100) / 0x10000 % 256) as u8, (((value as int) % 0x100000000 / 0x100) / 0x100 % 256) as u8, (((value as int) % 0x100000000 / 0x100) % 256) as u8]);
}

/// `U24BE<[u8; 4]>` holds the 24 most significant bits of a unsigned 32 bit number in
/// three bytes, with a zero padding byte before them, most significant byte first: reading takes the three bytes as the upper base
/// 256 digits of the number, and writing stores those digits of the number.
pub proof fn law_u24be_padded_layout(bytes: Seq<u8>, value: u32)
    ensures
        bytes.len() == 4 ==> <U24BE<[u8; 4]> as BytesSample>::spec_decode(bytes) as int == 0x100 * (bytes[3] as int + 0x100 * bytes[2] + 0x10000 * bytes[1]),
        <U24BE<[u8; 4]> as BytesSample>::spec_encode(value) == seq![0u8, (((value as int) % 0x100000000 / 0x100) / 0x10000 % 256) as u8, (((value as int) % 0x100000000 / 0x100) / 0x100 % 256) as u8, (((value as int) % 0x100000000 / 0x100) % 256) as u8],
{
    lemma_byte_range_values();
    if bytes.len() == 4 {
        lemma_le_unsigned_small(bytes.subrange(1, 4).reverse());
        lemma_le_unsigned_bound(bytes.subrange(1, 4).reverse());
    }
    let w = value as nat / 256;
    assert(w == (value as int) % 0x100000000 / 0x100);
    lemma_le_bytes_digits(w, 3);
    assert(<U24BE<[u8; 4]> as BytesSample>::spec_encode(value) =~= seq![0u8, (((value as int) % 0x100000000 / 0x100) / 0x10000 % 256) as u8, (((value as int) % 0x100000000 / 0x100) / 0x100 % 256) as u8, (((value as int) % 0x100000000 / 0x100) % 256) as u8]);
}

} // verus!
