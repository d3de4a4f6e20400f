//! Big-endian byte layout of the fixed-width integer values, and the
//! two's-complement correspondence between signed values and their bit
//! patterns.  Every record payload is big-endian throughout.

use vstd::prelude::*;

verus! {

/// The two big-endian bytes of a 16-bit value.
pub open spec fn be2(v: u16) -> Seq<u8> {
    seq![(v / 0x100) as u8, (v % 0x100) as u8]
}

/// The 16-bit value of two big-endian bytes.
pub open spec fn be2_val(s: Seq<u8>) -> u16
    recommends
        s.len() == 2,
{
    (s[0] * 0x100 + s[1]) as u16
}

/// The four big-endian bytes of a 32-bit value.
pub open spec fn be4(v: u32) -> Seq<u8> {
    be2((v / 0x10000) as u16) + be2((v % 0x10000) as u16)
}

/// The 32-bit value of four big-endian bytes.
pub open spec fn be4_val(s: Seq<u8>) -> u32
    recommends
        s.len() == 4,
{
    (be2_val(s.subrange(0, 2)) * 0x10000 + be2_val(s.subrange(2, 4))) as u32
}

/// The eight big-endian bytes of a 64-bit value.
pub open spec fn be8(v: u64) -> Seq<u8> {
    be4((v / 0x100000000) as u32) + be4((v % 0x100000000) as u32)
}

/// The 64-bit value of eight big-endian bytes.
pub open spec fn be8_val(s: Seq<u8>) -> u64
    recommends
        s.len() == 8,
{
    (be4_val(s.subrange(0, 4)) * 0x100000000 + be4_val(s.subrange(4, 8))) as u64
}

/// The bit pattern of a signed 16-bit value, two's complement.
pub open spec fn u16_of_i16(x: i16) -> u16 {
    if x >= 0 {
        x as u16
    } else {
        (x + 0x10000) as u16
    }
}

/// The signed 16-bit value of a bit pattern, two's complement.
pub open spec fn i16_of_u16(b: u16) -> i16 {
    if b < 0x8000 {
        b as i16
    } else {
        (b - 0x10000) as i16
    }
}

/// The bit pattern of a signed 32-bit value, two's complement.
pub open spec fn u32_of_i32(x: i32) -> u32 {
    if x >= 0 {
        x as u32
    } else {
        (x + 0x100000000) as u32
    }
}

/// The signed 32-bit value of a bit pattern, two's complement.
pub open spec fn i32_of_u32(b: u32) -> i32 {
    if b < 0x80000000 {
        b as i32
    } else {
        (b - 0x100000000) as i32
    }
}

pub proof fn lemma_be2_roundtrip(v: u16)
    ensures
        be2(v).len() == 2,
        be2_val(be2(v)) == v,
{
}

pub proof fn lemma_be4_roundtrip(v: u32)
    ensures
        be4(v).len() == 4,
        be4_val(be4(v)) == v,
{
    let hi = (v / 0x10000) as u16;
    let lo = (v % 0x10000) as u16;
    lemma_be2_roundtrip(hi);
    lemma_be2_roundtrip(lo);
    assert(be4(v).subrange(0, 2) =~= be2(hi));
    assert(be4(v).subrange(2, 4) =~= be2(lo));
}

pub proof fn lemma_be8_roundtrip(v: u64)
    ensures
        be8(v).len() == 8,
        be8_val(be8(v)) == v,
{
    let hi = (v / 0x100000000) as u32;
    let lo = (v % 0x100000000) as u32;
    lemma_be4_roundtrip(hi);
    lemma_be4_roundtrip(lo);
    assert(be8(v).subrange(0, 4) =~= be4(hi));
    assert(be8(v).subrange(4, 8) =~= be4(lo));
}

pub proof fn lemma_i16_bits_roundtrip(x: i16)
    ensures
        i16_of_u16(u16_of_i16(x)) == x,
{
}

pub proof fn lemma_i32_bits_roundtrip(x: i32)
    ensures
        i32_of_u32(u32_of_i32(x)) == x,
{
}

/// The bit pattern of a signed 16-bit value.
pub fn i16_bits(x: i16) -> (r: u16)
    ensures
        r == u16_of_i16(x),
{
    if x >= 0 {
        x as u16
    } else {
        let w: i32 = (x as i32) + 0x10000;
        w as u16
    }
}

/// The signed 16-bit value of a bit pattern.
pub fn i16_of_bits(b: u16) -> (r: i16)
    ensures
        r == i16_of_u16(b),
{
    if b < 0x8000 {
        b as i16
    } else {
        let w: i32 = (b as i32) - 0x10000;
        w as i16
    }
}

/// The bit pattern of a signed 32-bit value.
pub fn i32_bits(x: i32) -> (r: u32)
    ensures
        r == u32_of_i32(x),
{
    if x >= 0 {
        x as u32
    } else {
        let w: i64 = (x as i64) + 0x100000000;
        w as u32
    }
}

/// The signed 32-bit value of a bit pattern.
pub fn i32_of_bits(b: u32) -> (r: i32)
    ensures
        r == i32_of_u32(b),
{
    if b < 0x80000000 {
        b as i32
    } else {
        let w: i64 = (b as i64) - 0x100000000;
        w as i32
    }
}

/// The two big-endian bytes of an unsigned 16-bit value.
pub fn u16_to_vec(i: u16) -> (r: Vec<u8>)
    ensures
        r@ == be2(i),
{
    let mut v: Vec<u8> = Vec::new();
    v.push((i / 0x100) as u8);
    v.push((i % 0x100) as u8);
    proof {
        assert(v@ =~= be2(i));
    }
    v
}

/// The two big-endian bytes of a signed 16-bit value.
pub fn i16_to_vec(i: i16) -> (r: Vec<u8>)
    ensures
        r@ == be2(u16_of_i16(i)),
{
    u16_to_vec(i16_bits(i))
}

/// The four big-endian bytes of an unsigned 32-bit value.
pub fn u32_to_vec(i: u32) -> (r: Vec<u8>)
    ensures
        r@ == be4(i),
{
    let mut v = u16_to_vec((i / 0x10000) as u16);
    let mut lo = u16_to_vec((i % 0x10000) as u16);
    v.append(&mut lo);
    proof {
        assert(v@ =~= be4(i));
    }
    v
}

/// The four big-endian bytes of a signed 32-bit value.
pub fn i32_to_vec(i: i32) -> (r: Vec<u8>)
    ensures
        r@ == be4(u32_of_i32(i)),
{
    u32_to_vec(i32_bits(i))
}

/// The eight big-endian bytes of an unsigned 64-bit value.
pub fn u64_to_vec(i: u64) -> (r: Vec<u8>)
    ensures
        r@ == be8(i),
{
    let mut v = u32_to_vec((i / 0x100000000) as u32);
    let mut lo = u32_to_vec((i % 0x100000000) as u32);
    v.append(&mut lo);
    proof {
        assert(v@ =~= be8(i));
    }
    v
}

/// The 16-bit value of two big-endian bytes.
pub fn u16_from_be(b0: u8, b1: u8) -> (r: u16)
    ensures
        r == be2_val(seq![b0, b1]),
{
    (b0 as u16) * 0x100 + (b1 as u16)
}

} // verus!
