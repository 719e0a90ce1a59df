//! SBX blocks: the header codec, the metadata codec, the block itself, and
//! the layout arithmetic that maps sequence numbers to on-disk indices.

pub mod header;
pub mod layout;
pub mod metadata;

use vstd::prelude::*;

pub use header::{BlockType, Header};
pub use layout::{
    calc_data_block_write_index, calc_data_block_write_pos, calc_data_chunk_write_index,
    calc_data_chunk_write_pos, calc_meta_block_all_write_indices, calc_meta_block_all_write_pos_s,
    calc_meta_block_dup_write_indices, calc_seq_num_at_index, seq_num_is_parity, write_padding,
};
pub use metadata::{Metadata, MetadataID};

use crate::crc::{crc_ccitt_range, spec_crc};
use crate::sbx_block::header::{
    spec_header_crc_full, spec_header_matches, spec_header_parsable, store_header,
};
use crate::sbx_block::metadata::{spec_meta_wf, spec_metas_bytes, spec_metas_match};
use crate::sbx_specs::{spec_ver_to_block_size, ver_to_block_size, Version};

verus! {

#[derive(Clone, Debug)]
pub enum Error {
    IncorrectBlockType,
    IncorrectBufferSize,
    ParseError,
    IncorrectCrc,
    TooMuchMetadata(Vec<Metadata>),
}

/// Payload interpretation: a data block carries raw bytes in the buffer, a
/// metadata block carries parsed entries.
#[derive(Clone, Debug)]
pub enum Data {
    Data,
    Meta(Vec<Metadata>),
}

/// One SBX block: its header fields plus how its payload is read.  The
/// payload bytes themselves live in the caller's buffer.
#[derive(Clone, Debug)]
pub struct Block {
    header: Header,
    data: Data,
}

/// Checksum of a whole block: header fields first, payload folded in after.
pub open spec fn spec_block_crc(h: Header, payload: Seq<u8>) -> u16 {
    spec_crc(spec_header_crc_full(h), payload)
}

/// The bytes at the front of `b` are one acceptable block: signature and a
/// known version byte, a whole block present, and a stored checksum that
/// matches the one computed over UID, sequence number and payload.
pub open spec fn spec_block_parses(b: Seq<u8>) -> bool {
    &&& b.len() >= 16
    &&& spec_header_parsable(b.subrange(0, 16))
    &&& {
        let v = crate::sbx_specs::spec_ver_of_byte(b[3]);
        let bs = spec_ver_to_block_size(v);
        &&& b.len() >= bs
        &&& crate::byte_order::spec_be16(b[4], b[5]) == spec_crc(
            crate::sbx_specs::spec_ver_to_usize(v) as u16,
            b.subrange(6, bs),
        )
    }
}

/// The chained block checksum equals one fold over the contiguous bytes
/// from the UID to the end of the payload.
pub proof fn lemma_block_crc_contiguous(h: Header, b: Seq<u8>)
    requires
        b.len() >= 16,
        spec_header_matches(h, b.subrange(0, 16)),
        b.len() >= spec_ver_to_block_size(h.version),
    ensures
        spec_block_crc(h, b.subrange(16, spec_ver_to_block_size(h.version))) == spec_crc(
            crate::sbx_specs::spec_ver_to_usize(h.version) as u16,
            b.subrange(6, spec_ver_to_block_size(h.version)),
        ),
{
    let bs = spec_ver_to_block_size(h.version);
    let seed = crate::sbx_specs::spec_ver_to_usize(h.version) as u16;
    let payload = b.subrange(16, bs);
    let s16 = b.subrange(0, 16);
    let seqbytes = seq![
        (h.seq_num >> 24) as u8,
        (h.seq_num >> 16) as u8,
        (h.seq_num >> 8) as u8,
        h.seq_num as u8,
    ];
    crate::byte_order::lemma_be32_round_trip(s16[12], s16[13], s16[14], s16[15]);
    assert(seqbytes[0] == b[12] && seqbytes[1] == b[13] && seqbytes[2] == b[14] && seqbytes[3]
        == b[15]);
    crate::crc::lemma_crc_concat(seed, h.file_uid@, seqbytes);
    assert(spec_crc(spec_crc(seed, h.file_uid@), seqbytes) == spec_header_crc_full(h)) by {
        reveal_with_fuel(spec_crc, 6);
        assert(seqbytes.skip(1) =~= seq![
            (h.seq_num >> 16) as u8,
            (h.seq_num >> 8) as u8,
            h.seq_num as u8,
        ]);
        assert(seqbytes.skip(1).skip(1) =~= seq![(h.seq_num >> 8) as u8, h.seq_num as u8]);
        assert(seqbytes.skip(1).skip(1).skip(1) =~= seq![h.seq_num as u8]);
        assert(seqbytes.skip(1).skip(1).skip(1).skip(1) =~= Seq::<u8>::empty());
    }
    crate::crc::lemma_crc_concat(seed, h.file_uid@ + seqbytes, payload);
    assert((h.file_uid@ + seqbytes) + payload =~= b.subrange(6, bs));
}

impl Block {
    /// The metadata entries a metadata block will serialize.
    pub closed spec fn spec_metas(self) -> Seq<Metadata> {
        match self.data {
            Data::Data => Seq::empty(),
            Data::Meta(m) => m@,
        }
    }

    pub closed spec fn spec_is_meta(self) -> bool {
        self.data is Meta
    }

    pub closed spec fn spec_header(self) -> Header {
        self.header
    }

    pub closed spec fn spec_data(self) -> Data {
        self.data
    }

    pub closed spec fn spec_metas_wf(self) -> bool {
        forall|i: int| 0 <= i < self.spec_metas().len() ==> spec_meta_wf(#[trigger] self.spec_metas()[i])
    }

    /// The block type matches the sequence number: 0 names metadata.
    pub open spec fn spec_type_consistent(self) -> bool {
        self.spec_is_meta() <==> self.spec_header().seq_num == 0
    }

    pub fn new(version: Version, file_uid: &[u8; 6], block_type: BlockType) -> (r: Block)
        ensures
            r.spec_header().version == version,
            r.spec_header().file_uid == *file_uid,
            r.spec_header().crc == 0,
            r.spec_is_meta() <==> block_type is Meta,
            r.spec_header().seq_num == (if block_type is Meta {
                0int
            } else {
                1int
            }),
            r.spec_metas() == Seq::<Metadata>::empty(),
            r.spec_type_consistent(),
            r.spec_metas_wf(),
    {
        let mut header = Header::new(version, *file_uid);
        match block_type {
            BlockType::Meta => Block { header, data: Data::Meta(Vec::new()) },
            BlockType::Data => {
                header.seq_num = 1;
                Block { header, data: Data::Data }
            },
        }
    }

    pub fn dummy() -> (r: Block)
        ensures
            r.spec_type_consistent(),
            r.spec_metas_wf(),
            !r.spec_is_meta(),
    {
        let uid: [u8; 6] = [0, 0, 0, 0, 0, 0];
        Block::new(Version::V1, &uid, BlockType::Data)
    }

    pub fn block_type(&self) -> (r: BlockType)
        ensures
            r is Meta <==> self.spec_is_meta(),
    {
        match self.data {
            Data::Data => BlockType::Data,
            Data::Meta(_) => BlockType::Meta,
        }
    }

    pub fn is_meta(&self) -> (r: bool)
        ensures
            r == self.spec_is_meta(),
    {
        match self.block_type() {
            BlockType::Data => false,
            BlockType::Meta => true,
        }
    }

    pub fn is_data(&self) -> (r: bool)
        ensures
            r == !self.spec_is_meta(),
    {
        match self.block_type() {
            BlockType::Data => true,
            BlockType::Meta => false,
        }
    }

    pub fn header(&self) -> (r: &Header)
        ensures
            *r == self.spec_header(),
    {
        &self.header
    }

    pub fn header_mut(&mut self) -> (r: &mut Header)
        ensures
            *r == old(self).spec_header(),
            final(self).spec_header() == *final(r),
            final(self).spec_data() == old(self).spec_data(),
    {
        &mut self.header
    }

    pub fn get_version(&self) -> (r: Version)
        ensures
            r == self.spec_header().version,
    {
        self.header.version
    }

    pub fn set_version(&mut self, version: Version)
        ensures
            final(self).spec_header() == (Header { version, ..old(self).spec_header() }),
            final(self).spec_data() == old(self).spec_data(),
    {
        self.header.version = version;
    }

    pub fn get_uid(&self) -> (r: [u8; 6])
        ensures
            r == self.spec_header().file_uid,
    {
        self.header.file_uid
    }

    pub fn set_uid(&mut self, uid: [u8; 6])
        ensures
            final(self).spec_header() == (Header { file_uid: uid, ..old(self).spec_header() }),
            final(self).spec_data() == old(self).spec_data(),
    {
        self.header.file_uid = uid;
    }

    pub fn set_crc(&mut self, crc: u16)
        ensures
            final(self).spec_header() == (Header { crc, ..old(self).spec_header() }),
            final(self).spec_data() == old(self).spec_data(),
            final(self).spec_is_meta() == old(self).spec_is_meta(),
            final(self).spec_metas() == old(self).spec_metas(),
            old(self).spec_metas_wf() ==> final(self).spec_metas_wf(),
    {
        self.header.crc = crc;
    }

    pub fn get_seq_num(&self) -> (r: u32)
        ensures
            r == self.spec_header().seq_num,
    {
        self.header.seq_num
    }

    /// Set the sequence number and switch the payload interpretation to
    /// match it: 0 names metadata, everything else data.
    pub fn set_seq_num(&mut self, seq_num: u32)
        ensures
            final(self).spec_header() == (Header { seq_num, ..old(self).spec_header() }),
            final(self).spec_type_consistent(),
            seq_num == 0 && old(self).spec_is_meta() ==> final(self).spec_metas() == old(self).spec_metas(),
            seq_num == 0 && !old(self).spec_is_meta() ==> final(self).spec_metas()
                == Seq::<Metadata>::empty(),
            seq_num != 0 ==> !final(self).spec_is_meta(),
            old(self).spec_metas_wf() ==> final(self).spec_metas_wf(),
    {
        self.header.seq_num = seq_num;
        if seq_num == 0 {
            match &self.data {
                Data::Meta(_) => {},
                Data::Data => {
                    self.data = Data::Meta(Vec::new());
                },
            }
        } else {
            match &self.data {
                Data::Meta(_) => {
                    self.data = Data::Data;
                },
                Data::Data => {},
            }
        }
        proof {
            if old(self).spec_metas_wf() {
                assert forall|i: int|
                    0 <= i < self.spec_metas().len() implies spec_meta_wf(
                    #[trigger] self.spec_metas()[i],
                ) by {
                    assert(self.spec_metas().len() == 0 || self.spec_metas() == old(
                        self,
                    ).spec_metas());
                }
            }
        }
    }

    /// Step to the next sequence number; fails at the largest one.
    pub fn add1_seq_num(&mut self) -> (r: Result<(), Error>)
        ensures
            match r {
                Ok(()) => old(self).spec_header().seq_num < 0xFFFF_FFFF && final(self).spec_header() == (Header {
                    seq_num: (old(self).spec_header().seq_num + 1) as u32,
                    ..old(self).spec_header()
                }) && final(self).spec_type_consistent() && !final(self).spec_is_meta() && (old(self).spec_metas_wf() ==> final(self).spec_metas_wf()),
                Err(_) => old(self).spec_header().seq_num == 0xFFFF_FFFF && *final(self) == *old(self),
            },
    {
        if self.header.seq_num == 0xFFFF_FFFF {
            Err(Error::IncorrectBlockType)
        } else {
            let next = self.header.seq_num + 1;
            self.set_seq_num(next);
            Ok(())
        }
    }

    /// Append a metadata entry; a data block takes none.
    pub fn add_meta(&mut self, meta: Metadata) -> (r: Result<(), Error>)
        ensures
            match r {
                Ok(()) => old(self).spec_is_meta() && final(self).spec_metas() == old(self).spec_metas().push(meta) && final(self).spec_header() == old(self).spec_header() && final(self).spec_is_meta(),
                Err(e) => e is IncorrectBlockType && !old(self).spec_is_meta() && *final(self)
                    == *old(self),
            },
            (old(self).spec_metas_wf() && metadata::spec_meta_wf(meta)) ==> final(self).spec_metas_wf(),
    {
        let r = match &mut self.data {
            Data::Data => Err(Error::IncorrectBlockType),
            Data::Meta(metas) => {
                metas.push(meta);
                Ok(())
            },
        };
        proof {
            if old(self).spec_metas_wf() && metadata::spec_meta_wf(meta) && r is Ok {
                assert forall|i: int|
                    0 <= i < self.spec_metas().len() implies spec_meta_wf(
                    #[trigger] self.spec_metas()[i],
                ) by {
                    if i < old(self).spec_metas().len() {
                        assert(self.spec_metas()[i] == old(self).spec_metas()[i]);
                    } else {
                        assert(self.spec_metas()[i] == meta);
                    }
                }
            }
        }
        r
    }

    pub fn metas(&self) -> (r: Option<&Vec<Metadata>>)
        ensures
            match r {
                Some(m) => self.spec_is_meta() && m@ == self.spec_metas(),
                None => !self.spec_is_meta(),
            },
    {
        match &self.data {
            Data::Data => None,
            Data::Meta(metas) => Some(metas),
        }
    }

    /// Checksum over the header fields and the payload part of the buffer.
    pub fn crc_ccitt(&self, buffer: &Vec<u8>) -> (r: u16)
        requires
            buffer.len() >= spec_ver_to_block_size(self.spec_header().version),
        ensures
            r == spec_block_crc(
                self.spec_header(),
                buffer@.subrange(16, spec_ver_to_block_size(self.spec_header().version)),
            ),
    {
        let bs = ver_to_block_size(self.header.version);
        let c = self.header.calc_crc();
        crc_ccitt_range(c, buffer, 16, bs)
    }

    pub fn verify_crc(&self, buffer: &Vec<u8>) -> (r: bool)
        requires
            buffer.len() >= spec_ver_to_block_size(self.spec_header().version),
        ensures
            r == (self.spec_header().crc == spec_block_crc(
                self.spec_header(),
                buffer@.subrange(16, spec_ver_to_block_size(self.spec_header().version)),
            )),
    {
        self.header.crc == self.crc_ccitt(buffer)
    }

    /// Whether this block's sequence number names a parity member under the
    /// given shard configuration.
    pub fn is_parity_w_data_par_burst(&self, data_par_burst: Option<(usize, usize, usize)>) -> (r:
        bool)
        requires
            match data_par_burst {
                None => true,
                Some((d, p, _)) => d + p <= 0xFFFF_FFFF,
            },
        ensures
            r == match data_par_burst {
                None => false,
                Some((d, p, _)) => layout::spec_seq_num_is_parity(
                    self.spec_header().seq_num as int,
                    d as int,
                    p as int,
                ),
            },
    {
        match data_par_burst {
            None => false,
            Some((d, p, _)) => seq_num_is_parity(self.header.seq_num, d, p),
        }
    }

    /// Serialize into a block-sized buffer: a metadata block's entries are
    /// packed and padded, a data block's payload bytes stay as they are;
    /// then the checksum is recomputed (unless declined) and the header
    /// written over the first 16 bytes.
    pub fn sync_to_buffer(&mut self, update_crc: Option<bool>, buffer: &mut Vec<u8>) -> (r: Result<
        (),
        Error,
    >)
        requires
            old(self).spec_metas_wf(),
        ensures
            match r {
                Ok(()) => {
                    let bs = spec_ver_to_block_size(old(self).spec_header().version);
                    let payload = final(buffer)@.subrange(16, bs);
                    &&& old(buffer).len() == bs
                    &&& final(buffer).len() == bs
                    &&& final(self).spec_data() == old(self).spec_data()
                    &&& final(self).spec_header() == (Header {
                        crc: final(self).spec_header().crc,
                        ..old(self).spec_header()
                    })
                    &&& (match update_crc {
                        Some(false) => final(self).spec_header().crc == old(self).spec_header().crc,
                        _ => final(self).spec_header().crc == spec_block_crc(
                            final(self).spec_header(),
                            payload,
                        ),
                    })
                    &&& spec_header_matches(final(self).spec_header(), final(buffer)@.subrange(0, 16))
                    &&& (if old(self).spec_is_meta() {
                        payload == spec_metas_bytes(old(self).spec_metas()) + Seq::new(
                            (bs - 16 - spec_metas_bytes(old(self).spec_metas()).len()) as nat,
                            |i: int| 0x1Au8,
                        )
                    } else {
                        payload == old(buffer)@.subrange(16, bs)
                    })
                },
                Err(e) => match e {
                    Error::IncorrectBufferSize => old(buffer).len() != spec_ver_to_block_size(
                        old(self).spec_header().version,
                    ) && *final(buffer) == *old(buffer) && *final(self) == *old(self),
                    Error::TooMuchMetadata(_) => old(self).spec_is_meta() && spec_metas_bytes(
                        old(self).spec_metas(),
                    ).len() > spec_ver_to_block_size(old(self).spec_header().version) - 16
                        && *final(buffer) == *old(buffer) && *final(self) == *old(self),
                    _ => false,
                },
            },
    {
        let bs = ver_to_block_size(self.header.version);
        if buffer.len() != bs {
            return Err(Error::IncorrectBufferSize);
        }
        match &self.data {
            Data::Meta(metas) => {
                let mut payload: Vec<u8> = Vec::new();
                let mut i: usize = 16;
                while i < bs
                    invariant
                        16 <= i <= bs,
                        payload@ == buffer@.subrange(16, i as int),
                        buffer.len() == bs,
                    decreases bs - i,
                {
                    payload.push(buffer[i]);
                    proof {
                        assert(buffer@.subrange(16, i + 1) =~= buffer@.subrange(16, i as int).push(
                            buffer@[i as int],
                        ));
                    }
                    i = i + 1;
                }
                proof {
                    assert(metas@ == old(self).spec_metas());
                    assert(forall|i: int|
                        0 <= i < metas@.len() ==> spec_meta_wf(#[trigger] metas@[i]));
                }
                match metadata::to_bytes(metas, &mut payload) {
                    Ok(()) => {
                        let ghost pre = buffer@;
                        store_range(buffer, 16, &payload);
                        proof {
                            assert(buffer@.subrange(16, bs as int) =~= payload@);
                        }
                        self.finish_sync(update_crc, buffer, bs);
                        Ok(())
                    },
                    Err(_) => Err(Error::TooMuchMetadata(metas.clone())),
                }
            },
            Data::Data => {
                self.finish_sync(update_crc, buffer, bs);
                proof {
                    assert(buffer@.subrange(16, bs as int) =~= old(buffer)@.subrange(16, bs as int));
                }
                Ok(())
            },
        }
    }

    /// Recompute the checksum over the buffer's payload (unless declined)
    /// and write the header bytes.
    fn finish_sync(&mut self, update_crc: Option<bool>, buffer: &mut Vec<u8>, bs: usize)
        requires
            bs == spec_ver_to_block_size(old(self).spec_header().version),
            old(buffer).len() == bs,
        ensures
            final(buffer).len() == bs,
            final(self).spec_data() == old(self).spec_data(),
            final(self).header == (Header { crc: final(self).header.crc, ..old(self).header }),
            (match update_crc {
                Some(false) => final(self).spec_header().crc == old(self).spec_header().crc,
                _ => final(self).spec_header().crc == spec_block_crc(
                    final(self).spec_header(),
                    old(buffer)@.subrange(16, bs as int),
                ),
            }),
            final(buffer)@.subrange(16, bs as int) == old(buffer)@.subrange(16, bs as int),
            spec_header_matches(final(self).spec_header(), final(buffer)@.subrange(0, 16)),
    {
        let do_update = match update_crc {
            None => true,
            Some(b) => b,
        };
        if do_update {
            self.header.crc = self.crc_ccitt(buffer);
        }
        let ghost pre = buffer@;
        store_header(&self.header, buffer);
        proof {
            assert(buffer@.subrange(16, bs as int) =~= pre.subrange(16, bs as int));
        }
    }

    /// Read the block back from a buffer: parse the header, reject a bad
    /// signature, unknown version, short buffer or checksum mismatch, then
    /// adopt the payload interpretation the sequence number names, parsing
    /// the metadata entries if it is 0.
    pub fn sync_from_buffer(&mut self, buffer: &Vec<u8>) -> (r: Result<(), Error>)
        ensures
            match r {
                Ok(()) => {
                    let bs = spec_ver_to_block_size(final(self).spec_header().version);
                    let payload = buffer@.subrange(16, bs);
                    &&& buffer.len() >= 16
                    &&& spec_header_parsable(buffer@.subrange(0, 16))
                    &&& spec_header_matches(final(self).spec_header(), buffer@.subrange(0, 16))
                    &&& buffer.len() >= bs
                    &&& final(self).spec_header().crc == spec_block_crc(
                        final(self).spec_header(),
                        payload,
                    )
                    &&& final(self).spec_type_consistent()
                    &&& (final(self).spec_is_meta() ==> spec_metas_match(
                        payload,
                        final(self).spec_metas(),
                    ))
                    &&& final(self).spec_metas_wf()
                },
                Err(_) => *final(self) == *old(self),
            },
            r is Ok <==> spec_block_parses(buffer@),
    {
        if buffer.len() < 16 {
            return Err(Error::IncorrectBufferSize);
        }
        let mut header_bytes: Vec<u8> = Vec::new();
        let mut i: usize = 0;
        while i < 16
            invariant
                i <= 16,
                buffer.len() >= 16,
                header_bytes@ == buffer@.subrange(0, i as int),
            decreases 16 - i,
        {
            header_bytes.push(buffer[i]);
            proof {
                assert(buffer@.subrange(0, i + 1) =~= buffer@.subrange(0, i as int).push(
                    buffer@[i as int],
                ));
            }
            i = i + 1;
        }
        let mut header = Header::new(Version::V1, [0, 0, 0, 0, 0, 0]);
        match header.from_bytes(&header_bytes) {
            Ok(()) => {},
            Err(e) => {
                proof {
                    assert(buffer@.subrange(0, 16) =~= header_bytes@);
                }
                return Err(e);
            },
        }
        proof {
            assert(buffer@.subrange(0, 16) =~= header_bytes@);
            assert(header.version == crate::sbx_specs::spec_ver_of_byte(buffer@[3]));
        }
        let bs = ver_to_block_size(header.version);
        if buffer.len() < bs {
            return Err(Error::IncorrectBufferSize);
        }
        let stored = header.crc;
        let computed = {
            let c = header.calc_crc();
            crc_ccitt_range(c, buffer, 16, bs)
        };
        proof {
            lemma_block_crc_contiguous(header, buffer@);
        }
        if stored != computed {
            return Err(Error::IncorrectCrc);
        }
        if header.seq_num == 0 {
            let mut payload: Vec<u8> = Vec::new();
            let mut j: usize = 16;
            while j < bs
                invariant
                    16 <= j <= bs,
                    buffer.len() >= bs,
                    payload@ == buffer@.subrange(16, j as int),
                decreases bs - j,
            {
                payload.push(buffer[j]);
                proof {
                    assert(buffer@.subrange(16, j + 1) =~= buffer@.subrange(16, j as int).push(
                        buffer@[j as int],
                    ));
                }
                j = j + 1;
            }
            let metas = match metadata::from_bytes(&payload) {
                Ok(m) => m,
                Err(_) => {
                    return Err(Error::ParseError);
                },
            };
            self.header = header;
            self.data = Data::Meta(metas);
        } else {
            self.header = header;
            self.data = Data::Data;
        }
        Ok(())
    }
}

/// Overwrite `buffer[start..start + src.len()]` with `src`.
pub fn store_range(buffer: &mut Vec<u8>, start: usize, src: &Vec<u8>)
    requires
        start + src.len() <= old(buffer).len(),
    ensures
        final(buffer).len() == old(buffer).len(),
        final(buffer)@.subrange(0, start as int) == old(buffer)@.subrange(0, start as int),
        final(buffer)@.subrange(start as int, start + src.len()) == src@,
        final(buffer)@.skip(start + src.len()) == old(buffer)@.skip(start + src.len()),
{
    let mut i: usize = 0;
    while i < src.len()
        invariant
            i <= src.len(),
            start + src.len() <= buffer.len(),
            buffer.len() == old(buffer).len(),
            buffer@.subrange(0, start as int) == old(buffer)@.subrange(0, start as int),
            buffer@.subrange(start as int, start + i) == src@.subrange(0, i as int),
            buffer@.skip(start + src.len()) == old(buffer)@.skip(start + src.len()),
        decreases src.len() - i,
    {
        let ghost pre = buffer@;
        buffer.set(start + i, src[i]);
        proof {
            assert(buffer@.subrange(0, start as int) =~= pre.subrange(0, start as int));
            assert(buffer@.subrange(start as int, start + i + 1) =~= src@.subrange(0, i + 1));
            assert(buffer@.skip(start + src.len()) =~= pre.skip(start + src.len()));
        }
        i = i + 1;
    }
    proof {
        assert(buffer@.subrange(start as int, start + src.len()) =~= src@);
    }
}

} // verus!
