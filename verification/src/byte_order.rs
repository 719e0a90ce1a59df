//! Big-endian encodings of the multi-byte header and metadata fields.

use vstd::prelude::*;

verus! {

pub open spec fn spec_be16(b0: u8, b1: u8) -> u16 {
    ((b0 as u16) << 8) | (b1 as u16)
}

pub open spec fn spec_be32(b0: u8, b1: u8, b2: u8, b3: u8) -> u32 {
    ((b0 as u32) << 24) | ((b1 as u32) << 16) | ((b2 as u32) << 8) | (b3 as u32)
}

pub open spec fn spec_be64(
    b0: u8,
    b1: u8,
    b2: u8,
    b3: u8,
    b4: u8,
    b5: u8,
    b6: u8,
    b7: u8,
) -> u64 {
    ((b0 as u64) << 56) | ((b1 as u64) << 48) | ((b2 as u64) << 40) | ((b3 as u64) << 32) | ((
    b4 as u64) << 24) | ((b5 as u64) << 16) | ((b6 as u64) << 8) | (b7 as u64)
}

pub fn be16_split(x: u16) -> (r: (u8, u8))
    ensures
        spec_be16(r.0, r.1) == x,
        r.0 == (x >> 8) as u8,
        r.1 == x as u8,
{
    let b0 = (x >> 8) as u8;
    let b1 = x as u8;
    proof {
        assert(((((x >> 8) as u8) as u16) << 8) | ((x as u8) as u16) == x) by (bit_vector);
    }
    (b0, b1)
}

pub fn be16_join(b0: u8, b1: u8) -> (r: u16)
    ensures
        r == spec_be16(b0, b1),
{
    ((b0 as u16) << 8) | (b1 as u16)
}

pub fn be32_split(x: u32) -> (r: (u8, u8, u8, u8))
    ensures
        spec_be32(r.0, r.1, r.2, r.3) == x,
{
    let b0 = (x >> 24) as u8;
    let b1 = (x >> 16) as u8;
    let b2 = (x >> 8) as u8;
    let b3 = x as u8;
    proof {
        assert(((((x >> 24) as u8) as u32) << 24) | ((((x >> 16) as u8) as u32) << 16) | ((((x
            >> 8) as u8) as u32) << 8) | ((x as u8) as u32) == x) by (bit_vector);
    }
    (b0, b1, b2, b3)
}

pub fn be32_join(b0: u8, b1: u8, b2: u8, b3: u8) -> (r: u32)
    ensures
        r == spec_be32(b0, b1, b2, b3),
{
    ((b0 as u32) << 24) | ((b1 as u32) << 16) | ((b2 as u32) << 8) | (b3 as u32)
}

pub fn be64_split(x: u64) -> (r: Vec<u8>)
    ensures
        r.len() == 8,
        spec_be64(r[0], r[1], r[2], r[3], r[4], r[5], r[6], r[7]) == x,
{
    let b0 = (x >> 56) as u8;
    let b1 = (x >> 48) as u8;
    let b2 = (x >> 40) as u8;
    let b3 = (x >> 32) as u8;
    let b4 = (x >> 24) as u8;
    let b5 = (x >> 16) as u8;
    let b6 = (x >> 8) as u8;
    let b7 = x as u8;
    proof {
        assert(((((x >> 56) as u8) as u64) << 56) | ((((x >> 48) as u8) as u64) << 48) | ((((x
            >> 40) as u8) as u64) << 40) | ((((x >> 32) as u8) as u64) << 32) | ((((x
            >> 24) as u8) as u64) << 24) | ((((x >> 16) as u8) as u64) << 16) | ((((x
            >> 8) as u8) as u64) << 8) | ((x as u8) as u64) == x) by (bit_vector);
    }
    let mut v: Vec<u8> = Vec::new();
    v.push(b0);
    v.push(b1);
    v.push(b2);
    v.push(b3);
    v.push(b4);
    v.push(b5);
    v.push(b6);
    v.push(b7);
    v
}

pub fn be64_join(b0: u8, b1: u8, b2: u8, b3: u8, b4: u8, b5: u8, b6: u8, b7: u8) -> (r: u64)
    ensures
        r == spec_be64(b0, b1, b2, b3, b4, b5, b6, b7),
{
    ((b0 as u64) << 56) | ((b1 as u64) << 48) | ((b2 as u64) << 40) | ((b3 as u64) << 32) | ((
    b4 as u64) << 24) | ((b5 as u64) << 16) | ((b6 as u64) << 8) | (b7 as u64)
}

/// Splitting a join gives back the joined bytes.
pub proof fn lemma_be16_round_trip(b0: u8, b1: u8)
    ensures
        (spec_be16(b0, b1) >> 8) as u8 == b0,
        spec_be16(b0, b1) as u8 == b1,
{
    assert(((((b0 as u16) << 8) | (b1 as u16)) >> 8) as u8 == b0) by (bit_vector);
    assert((((b0 as u16) << 8) | (b1 as u16)) as u8 == b1) by (bit_vector);
}

pub proof fn lemma_be32_round_trip(b0: u8, b1: u8, b2: u8, b3: u8)
    ensures
        (spec_be32(b0, b1, b2, b3) >> 24) as u8 == b0,
        (spec_be32(b0, b1, b2, b3) >> 16) as u8 == b1,
        (spec_be32(b0, b1, b2, b3) >> 8) as u8 == b2,
        spec_be32(b0, b1, b2, b3) as u8 == b3,
{
    let x = spec_be32(b0, b1, b2, b3);
    assert((((((b0 as u32) << 24) | ((b1 as u32) << 16) | ((b2 as u32) << 8) | (b3 as u32)) >> 24)
            as u8) == b0) by (bit_vector);
    assert((((((b0 as u32) << 24) | ((b1 as u32) << 16) | ((b2 as u32) << 8) | (b3 as u32)) >> 16)
            as u8) == b1) by (bit_vector);
    assert((((((b0 as u32) << 24) | ((b1 as u32) << 16) | ((b2 as u32) << 8) | (b3 as u32)) >> 8)
            as u8) == b2) by (bit_vector);
    assert(((((b0 as u32) << 24) | ((b1 as u32) << 16) | ((b2 as u32) << 8) | (b3 as u32)) as u8)
        == b3) by (bit_vector);
}

} // verus!
