//! CRC-CCITT (polynomial 0x1021, most-significant-bit first).
//!
//! Every block's header stores a checksum over the file UID, the sequence
//! number and the payload, seeded with the version number.

use vstd::prelude::*;

verus! {

/// One shift step of the MSB-first CRC-CCITT computation.
pub open spec fn spec_crc_bit(crc: u16) -> u16 {
    if crc & 0x8000 != 0 {
        (crc << 1) ^ 0x1021
    } else {
        crc << 1
    }
}

/// Folding one byte into the running checksum: xor into the top byte,
/// then eight shift steps.
pub open spec fn spec_crc_byte(crc: u16, b: u8) -> u16 {
    spec_crc_bit(spec_crc_bit(spec_crc_bit(spec_crc_bit(spec_crc_bit(spec_crc_bit(spec_crc_bit(
        spec_crc_bit(crc ^ ((b as u16) << 8)),
    )))))))
}

/// Checksum of a byte sequence, starting from the given seed.
pub open spec fn spec_crc(crc: u16, data: Seq<u8>) -> u16
    decreases data.len(),
{
    if data.len() == 0 {
        crc
    } else {
        spec_crc(spec_crc_byte(crc, data[0]), data.skip(1))
    }
}

pub proof fn lemma_crc_push(crc: u16, s: Seq<u8>, b: u8)
    ensures
        spec_crc(crc, s.push(b)) == spec_crc_byte(spec_crc(crc, s), b),
    decreases s.len(),
{
    if s.len() == 0 {
        assert(s.push(b)[0] == b);
        assert(s.push(b).skip(1) =~= Seq::<u8>::empty());
        assert(spec_crc(crc, s.push(b)) == spec_crc(spec_crc_byte(crc, b), Seq::<u8>::empty()));
        assert(spec_crc(crc, s) == crc);
    } else {
        assert(s.push(b)[0] == s[0]);
        assert(s.push(b).skip(1) =~= s.skip(1).push(b));
        assert(spec_crc(crc, s.push(b)) == spec_crc(spec_crc_byte(crc, s[0]), s.skip(1).push(b)));
        lemma_crc_push(spec_crc_byte(crc, s[0]), s.skip(1), b);
        assert(spec_crc(crc, s) == spec_crc(spec_crc_byte(crc, s[0]), s.skip(1)));
    }
}

pub fn crc_bit(crc: u16) -> (r: u16)
    ensures
        r == spec_crc_bit(crc),
{
    if crc & 0x8000 != 0 {
        (crc << 1) ^ 0x1021
    } else {
        crc << 1
    }
}

pub fn crc_byte(crc: u16, b: u8) -> (r: u16)
    ensures
        r == spec_crc_byte(crc, b),
{
    let mut c: u16 = crc ^ ((b as u16) << 8);
    c = crc_bit(c);
    c = crc_bit(c);
    c = crc_bit(c);
    c = crc_bit(c);
    c = crc_bit(c);
    c = crc_bit(c);
    c = crc_bit(c);
    c = crc_bit(c);
    c
}

/// Checksum of `data[start..end]`, continuing from `crc`.
pub fn crc_ccitt_range(crc: u16, data: &Vec<u8>, start: usize, end: usize) -> (r: u16)
    requires
        start <= end <= data.len(),
    ensures
        r == spec_crc(crc, data@.subrange(start as int, end as int)),
{
    let mut acc = crc;
    let mut i = start;
    while i < end
        invariant
            start <= i <= end <= data.len(),
            acc == spec_crc(crc, data@.subrange(start as int, i as int)),
        decreases end - i,
    {
        proof {
            assert(data@.subrange(start as int, i + 1) =~= data@.subrange(
                start as int,
                i as int,
            ).push(data@[i as int]));
            lemma_crc_push(crc, data@.subrange(start as int, i as int), data@[i as int]);
        }
        acc = crc_byte(acc, data[i]);
        i = i + 1;
    }
    acc
}

/// Checksum of a whole buffer, continuing from `crc`.
pub fn crc_ccitt_generic(crc: u16, data: &Vec<u8>) -> (r: u16)
    ensures
        r == spec_crc(crc, data@),
{
    let r = crc_ccitt_range(crc, data, 0, data.len());
    proof {
        assert(data@.subrange(0, data@.len() as int) =~= data@);
    }
    r
}


/// Folding a concatenation folds the parts in turn.
pub proof fn lemma_crc_concat(crc: u16, s1: Seq<u8>, s2: Seq<u8>)
    ensures
        spec_crc(crc, s1 + s2) == spec_crc(spec_crc(crc, s1), s2),
    decreases s1.len(),
{
    if s1.len() == 0 {
        assert(s1 + s2 =~= s2);
    } else {
        assert((s1 + s2)[0] == s1[0]);
        assert((s1 + s2).skip(1) =~= s1.skip(1) + s2);
        lemma_crc_concat(spec_crc_byte(crc, s1[0]), s1.skip(1), s2);
    }
}

} // verus!
