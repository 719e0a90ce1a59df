//! The 16-byte block header: signature, version byte, checksum, file UID
//! and sequence number.

use vstd::prelude::*;

use crate::byte_order::{
    be16_join, be16_split, be32_join, be32_split, lemma_be16_round_trip, lemma_be32_round_trip,
    spec_be16, spec_be32,
};
use crate::crc::{crc_byte, spec_crc, spec_crc_byte};
use crate::sbx_specs::{
    u8_to_ver, ver_to_usize, Version, SBX_SIGNATURE_0, SBX_SIGNATURE_1, SBX_SIGNATURE_2,
};

verus! {

#[derive(Clone, Copy, Debug)]
pub enum BlockType {
    Data,
    Meta,
}

#[derive(Clone, Copy, Debug)]
pub struct Header {
    pub version: Version,
    pub crc: u16,
    pub file_uid: [u8; 6],
    pub seq_num: u32,
}

/// The header `h` is what the 16 bytes `b` describe, checksum field included.
pub open spec fn spec_header_matches(h: Header, b: Seq<u8>) -> bool {
    &&& b.len() == 16
    &&& b[0] == SBX_SIGNATURE_0
    &&& b[1] == SBX_SIGNATURE_1
    &&& b[2] == SBX_SIGNATURE_2
    &&& b[3] == crate::sbx_specs::spec_ver_to_usize(h.version) as u8
    &&& h.crc == spec_be16(b[4], b[5])
    &&& h.file_uid@ == b.subrange(6, 12)
    &&& h.seq_num == spec_be32(b[12], b[13], b[14], b[15])
}

/// 16 bytes hold a parsable header: signature and a known version byte.
pub open spec fn spec_header_parsable(b: Seq<u8>) -> bool {
    &&& b.len() == 16
    &&& b[0] == SBX_SIGNATURE_0
    &&& b[1] == SBX_SIGNATURE_1
    &&& b[2] == SBX_SIGNATURE_2
    &&& (b[3] == 1 || b[3] == 2 || b[3] == 3 || b[3] == 17 || b[3] == 18 || b[3] == 19)
}

/// Checksum of the header fields alone (UID then sequence number), seeded
/// with the version number; the payload is folded in afterwards.
pub open spec fn spec_header_crc(h: Header) -> u16 {
    spec_crc_byte(
        spec_crc_byte(
            spec_crc_byte(
                spec_crc(
                    crate::sbx_specs::spec_ver_to_usize(h.version) as u16,
                    h.file_uid@,
                ),
                (h.seq_num >> 24) as u8,
            ),
            (h.seq_num >> 16) as u8,
        ),
        (h.seq_num >> 8) as u8,
    )
}

pub open spec fn spec_header_crc_full(h: Header) -> u16 {
    spec_crc_byte(spec_header_crc(h), h.seq_num as u8)
}

impl Header {
    pub fn new(version: Version, file_uid: [u8; 6]) -> (r: Header)
        ensures
            r.version == version,
            r.crc == 0,
            r.file_uid == file_uid,
            r.seq_num == 0,
    {
        Header { version, crc: 0, file_uid, seq_num: 0 }
    }

    /// Serialize into exactly 16 bytes.
    pub fn to_bytes(&self, buffer: &mut Vec<u8>) -> (r: Result<(), crate::sbx_block::Error>)
        ensures
            match r {
                Ok(()) => old(buffer).len() == 16 && spec_header_matches(*self, final(buffer)@)
                    && final(buffer)@[4] == (self.crc >> 8) as u8 && final(buffer)@[5]
                    == self.crc as u8,
                Err(e) => e is IncorrectBufferSize && old(buffer).len() != 16 && *final(buffer)
                    == *old(buffer),
            },
    {
        if buffer.len() != 16 {
            return Err(crate::sbx_block::Error::IncorrectBufferSize);
        }
        store_header(self, buffer);
        proof {
            assert(buffer@.subrange(0, 16) =~= buffer@);
        }
        Ok(())
    }

    /// Parse 16 bytes, replacing the fields of `self`; the stored checksum
    /// is taken as found and not yet verified.
    pub fn from_bytes(&mut self, buffer: &Vec<u8>) -> (r: Result<(), crate::sbx_block::Error>)
        ensures
            match r {
                Ok(()) => buffer.len() == 16 && spec_header_parsable(buffer@)
                    && spec_header_matches(*final(self), buffer@),
                Err(e) => *final(self) == *old(self) && (if buffer.len() != 16 {
                    e is IncorrectBufferSize
                } else {
                    e is ParseError && !spec_header_parsable(buffer@)
                }),
            },
    {
        if buffer.len() != 16 {
            return Err(crate::sbx_block::Error::IncorrectBufferSize);
        }
        if buffer[0] != SBX_SIGNATURE_0 || buffer[1] != SBX_SIGNATURE_1 || buffer[2]
            != SBX_SIGNATURE_2 {
            return Err(crate::sbx_block::Error::ParseError);
        }
        let version = match u8_to_ver(buffer[3]) {
            Some(v) => v,
            None => {
                return Err(crate::sbx_block::Error::ParseError);
            },
        };
        let crc = be16_join(buffer[4], buffer[5]);
        let file_uid: [u8; 6] = [buffer[6], buffer[7], buffer[8], buffer[9], buffer[10], buffer[11]];
        let seq_num = be32_join(buffer[12], buffer[13], buffer[14], buffer[15]);
        proof {
            assert(file_uid@ =~= buffer@.subrange(6, 12));
        }
        *self = Header { version, crc, file_uid, seq_num };
        Ok(())
    }

    /// Checksum of version, UID and sequence number (the payload is folded
    /// in by the block that owns it).
    pub fn calc_crc(&self) -> (r: u16)
        ensures
            r == spec_header_crc_full(*self),
    {
        let seed = ver_to_usize(self.version) as u16;
        let mut c = crc_byte(seed, self.file_uid[0]);
        c = crc_byte(c, self.file_uid[1]);
        c = crc_byte(c, self.file_uid[2]);
        c = crc_byte(c, self.file_uid[3]);
        c = crc_byte(c, self.file_uid[4]);
        c = crc_byte(c, self.file_uid[5]);
        proof {
            lemma_crc_six(seed, self.file_uid@);
        }
        let (s0, s1, s2, s3) = be32_split(self.seq_num);
        c = crc_byte(c, s0);
        c = crc_byte(c, s1);
        c = crc_byte(c, s2);
        c = crc_byte(c, s3);
        proof {
            lemma_be32_round_trip(s0, s1, s2, s3);
        }
        c
    }

    pub fn header_type(&self) -> (r: BlockType)
        ensures
            r is Meta <==> self.seq_num == 0,
    {
        if self.seq_num == 0 {
            BlockType::Meta
        } else {
            BlockType::Data
        }
    }

    pub fn is_meta(&self) -> (r: bool)
        ensures
            r <==> self.seq_num == 0,
    {
        match self.header_type() {
            BlockType::Data => false,
            BlockType::Meta => true,
        }
    }

    pub fn is_data(&self) -> (r: bool)
        ensures
            r <==> self.seq_num != 0,
    {
        match self.header_type() {
            BlockType::Data => true,
            BlockType::Meta => false,
        }
    }
}

/// A sequence of six bytes folds into the checksum one byte at a time.
proof fn lemma_crc_six(seed: u16, s: Seq<u8>)
    requires
        s.len() == 6,
    ensures
        spec_crc(seed, s) == spec_crc_byte(
            spec_crc_byte(
                spec_crc_byte(
                    spec_crc_byte(spec_crc_byte(spec_crc_byte(seed, s[0]), s[1]), s[2]),
                    s[3],
                ),
                s[4],
            ),
            s[5],
        ),
{
    reveal_with_fuel(spec_crc, 7);
    assert(s.skip(1).skip(1) =~= s.skip(2));
    assert(s.skip(2).skip(1) =~= s.skip(3));
    assert(s.skip(3).skip(1) =~= s.skip(4));
    assert(s.skip(4).skip(1) =~= s.skip(5));
    assert(s.skip(5).skip(1) =~= s.skip(6));
    assert(s.skip(6).len() == 0);
}

/// Write the 16 header bytes at the front of a block-sized buffer,
/// leaving the rest untouched.
pub fn store_header(h: &Header, buffer: &mut Vec<u8>)
    requires
        old(buffer).len() >= 16,
    ensures
        final(buffer).len() == old(buffer).len(),
        spec_header_matches(*h, final(buffer)@.subrange(0, 16)),
        final(buffer)@[4] == (h.crc >> 8) as u8,
        final(buffer)@[5] == h.crc as u8,
        final(buffer)@.skip(16) == old(buffer)@.skip(16),
{
    let ghost orig = buffer@;
    buffer.set(0, SBX_SIGNATURE_0);
    buffer.set(1, SBX_SIGNATURE_1);
    buffer.set(2, SBX_SIGNATURE_2);
    buffer.set(3, ver_to_usize(h.version) as u8);
    let (c0, c1) = be16_split(h.crc);
    buffer.set(4, c0);
    buffer.set(5, c1);
    buffer.set(6, h.file_uid[0]);
    buffer.set(7, h.file_uid[1]);
    buffer.set(8, h.file_uid[2]);
    buffer.set(9, h.file_uid[3]);
    buffer.set(10, h.file_uid[4]);
    buffer.set(11, h.file_uid[5]);
    let (s0, s1, s2, s3) = be32_split(h.seq_num);
    buffer.set(12, s0);
    buffer.set(13, s1);
    buffer.set(14, s2);
    buffer.set(15, s3);
    proof {
        lemma_be16_round_trip((h.crc >> 8) as u8, h.crc as u8);
        assert(h.file_uid@ =~= buffer@.subrange(0, 16).subrange(6, 12));
        assert(buffer@.skip(16) =~= orig.skip(16));
    }
}

/// Writing a header and parsing it back yields the same fields: the header
/// codec round-trips.
pub proof fn lemma_header_bytes_round_trip(h1: Header, h2: Header, b: Seq<u8>)
    requires
        spec_header_matches(h1, b),
        spec_header_matches(h2, b),
    ensures
        h1 == h2,
{
    assert(h1.file_uid@ =~= h2.file_uid@);
    assert(h1.file_uid =~= h2.file_uid);
    assert(crate::sbx_specs::spec_ver_to_usize(h1.version) as u8
        == crate::sbx_specs::spec_ver_to_usize(h2.version) as u8);
    assert(h1.version == h2.version);
}

} // verus!
