//! The encoder: stream an input byte source through the staging buffer into
//! an in-memory container image, metadata first as a placeholder and again
//! at the end with the real size and hash.

use vstd::prelude::*;

use crate::container::ContainerBuf;
use crate::data_block_buffer::{BlockArrangement, DataBlockBuffer, InputType, OutputType};
use crate::file_utils::{
    calc_container_size, calc_data_only_and_parity_block_count_exc_burst_gaps, spec_container_size,
    spec_data_chunk_count, spec_parity_block_count, spec_size_ok,
};
use crate::multihash::{HashBytes, HashCtx, HashType};
use crate::sbx_block::layout::spec_dpb_ok;
use crate::sbx_block::{
    calc_meta_block_all_write_pos_s, Block, BlockType, Error, Metadata,
};
use crate::sbx_specs::{
    spec_ver_to_block_size, spec_ver_to_data_size, spec_ver_uses_rs, ver_forces_meta_enabled,
    ver_to_block_size, ver_to_data_size, ver_to_max_data_file_size, ver_uses_rs, Version,
};

verus! {

#[derive(Clone, Debug)]
pub struct Param {
    pub version: Version,
    pub uid: [u8; 6],
    pub data_par_burst: Option<(usize, usize, usize)>,
    pub rs_enabled: bool,
    pub meta_enabled: bool,
    pub hash_type: HashType,
    pub in_file_name: Option<Vec<u8>>,
    pub out_file_name: Option<Vec<u8>>,
    pub file_mtime: Option<i64>,
    pub encode_time: i64,
}

impl Param {
    /// A parameter set the encoder accepts: legal shard counts for the
    /// version, and file names that fit one metadata entry each.
    pub open spec fn spec_wf(self) -> bool {
        &&& spec_dpb_ok(self.data_par_burst)
        &&& (self.data_par_burst is Some) == spec_ver_uses_rs(self.version)
        &&& (match self.data_par_burst {
            Option::None => true,
            Option::Some((d, p, _)) => d + p <= 256,
        })
        &&& self.rs_enabled == spec_ver_uses_rs(self.version)
        &&& (spec_ver_uses_rs(self.version) ==> self.meta_enabled)
        &&& (match self.in_file_name {
            Option::None => true,
            Option::Some(n) => 1 <= n.len() <= 255,
        })
        &&& (match self.out_file_name {
            Option::None => true,
            Option::Some(n) => 1 <= n.len() <= 255,
        })
    }

    /// Assemble encoder parameters; metadata can be declined only for the
    /// versions that do not demand it, and over-long names are trimmed.
    pub fn new(
        version: Version,
        uid: &[u8; 6],
        data_par_burst: Option<(usize, usize, usize)>,
        meta_enabled: bool,
        hash_type: HashType,
        in_file_name: Option<Vec<u8>>,
        out_file_name: Option<Vec<u8>>,
        file_mtime: Option<i64>,
        encode_time: i64,
    ) -> (r: Result<Param, Error>)
        ensures
            match r {
                Ok(p) => {
                    &&& p.spec_wf()
                    &&& p.version == version
                    &&& p.uid == *uid
                    &&& p.data_par_burst == data_par_burst
                    &&& p.meta_enabled == (meta_enabled || spec_ver_uses_rs(version))
                    &&& p.hash_type == hash_type
                },
                Err(_) => !(spec_dpb_ok(data_par_burst) && (data_par_burst is Some)
                    == spec_ver_uses_rs(version) && (match data_par_burst {
                    Option::None => true,
                    Option::Some((d, p, _)) => d + p <= 256,
                })),
            },
    {
        let dpb_ok = match data_par_burst {
            None => !ver_uses_rs(version),
            Some((d, p, b)) => ver_uses_rs(version) && 1 <= d && d <= 256 && 1 <= p && p <= 256
                && d + p <= 256 && b <= 0xFFFF_FFFF,
        };
        if !dpb_ok {
            return Err(Error::IncorrectBlockType);
        }
        Ok(
            Param {
                version,
                uid: *uid,
                data_par_burst,
                rs_enabled: ver_uses_rs(version),
                meta_enabled: ver_forces_meta_enabled(version) || meta_enabled,
                hash_type,
                in_file_name: trim_name(in_file_name),
                out_file_name: trim_name(out_file_name),
                file_mtime,
                encode_time,
            },
        )
    }
}

/// Keep a name to at most one metadata value, dropping an empty one.
fn trim_name(name: Option<Vec<u8>>) -> (r: Option<Vec<u8>>)
    ensures
        match r {
            Option::None => true,
            Option::Some(n) => 1 <= n.len() <= 255,
        },
{
    match name {
        None => None,
        Some(n) => {
            if n.len() == 0 {
                None
            } else if n.len() > 255 {
                let mut t: Vec<u8> = Vec::new();
                let mut i: usize = 0;
                while i < 255
                    invariant
                        i <= 255,
                        t.len() == i,
                        n.len() > 255,
                    decreases 255 - i,
                {
                    t.push(n[i]);
                    i = i + 1;
                }
                Some(t)
            } else {
                Some(n)
            }
        },
    }
}

#[derive(Clone, Debug)]
pub struct Stats {
    pub uid: [u8; 6],
    pub version: Version,
    pub meta_blocks_written: u64,
    pub data_blocks_written: u64,
    pub parity_blocks_written: u64,
    pub data_padding_bytes: u64,
    pub in_file_size: u64,
    pub out_file_size: u64,
    pub hash_bytes: Option<HashBytes>,
}

impl Stats {
    /// Bytes of real content among the data blocks written.
    pub fn data_bytes_encoded(&self) -> (r: u64)
        requires
            self.data_blocks_written * spec_ver_to_data_size(self.version)
                >= self.data_padding_bytes,
            self.data_blocks_written * spec_ver_to_data_size(self.version) <= u64::MAX,
        ensures
            r == self.data_blocks_written * spec_ver_to_data_size(self.version)
                - self.data_padding_bytes,
    {
        let ds = ver_to_data_size(self.version) as u64;
        self.data_blocks_written * ds - self.data_padding_bytes
    }
}

/// The value bytes the hash entry carries.
pub open spec fn spec_hash_digest_bytes(hash_type: HashType, hash: Option<HashBytes>) -> Seq<u8> {
    match hash {
        Option::Some(h) => h.digest@,
        Option::None => crate::multihash::spec_digest_of(hash_type, Seq::<u8>::empty()),
    }
}

/// The hash type the hash entry carries.
pub open spec fn spec_hash_entry_type(hash_type: HashType, hash: Option<HashBytes>) -> HashType {
    match hash {
        Option::Some(h) => h.hash_type,
        Option::None => hash_type,
    }
}

/// The entries one metadata block carries, as (ID, value bytes) pairs: the
/// names and sizes that are known, the encode time, the hash, and for the
/// Reed-Solomon versions the shard counts.
pub open spec fn spec_packed_meta_descr(
    param: Param,
    file_size: Option<u64>,
    hash: Option<HashBytes>,
) -> Seq<(crate::sbx_block::MetadataID, Seq<u8>)> {
    let ht = spec_hash_entry_type(param.hash_type, hash);
    let digest = spec_hash_digest_bytes(param.hash_type, hash);
    (match param.in_file_name {
        Option::Some(n) => seq![(crate::sbx_block::MetadataID::FNM, n@)],
        Option::None => Seq::empty(),
    }) + (match param.out_file_name {
        Option::Some(n) => seq![(crate::sbx_block::MetadataID::SNM, n@)],
        Option::None => Seq::empty(),
    }) + (match file_size {
        Option::Some(sz) => seq![
            (
                crate::sbx_block::MetadataID::FSZ,
                crate::sbx_block::metadata::spec_be64_seq(sz),
            ),
        ],
        Option::None => Seq::empty(),
    }) + (match param.file_mtime {
        Option::Some(t) => seq![
            (
                crate::sbx_block::MetadataID::FDT,
                crate::sbx_block::metadata::spec_be64_seq(t as u64),
            ),
        ],
        Option::None => Seq::empty(),
    }) + seq![
        (
            crate::sbx_block::MetadataID::SDT,
            crate::sbx_block::metadata::spec_be64_seq(param.encode_time as u64),
        ),
        (
            crate::sbx_block::MetadataID::HSH,
            seq![
                crate::multihash::spec_hash_type_code(ht),
                digest.len() as u8,
            ] + digest,
        ),
    ] + (match param.data_par_burst {
        Option::Some((d, p, _)) => seq![
            (crate::sbx_block::MetadataID::RSD, seq![d as u8]),
            (crate::sbx_block::MetadataID::RSP, seq![p as u8]),
        ],
        Option::None => Seq::empty(),
    })
}

/// Build the metadata entries for one metadata block: exactly the described
/// list, appended to what the block held.
#[verifier::rlimit(100)]
pub fn pack_metadata(
    block: &mut Block,
    param: &Param,
    file_size: Option<u64>,
    hash: Option<HashBytes>,
) -> (r: Result<(), Error>)
    requires
        old(block).spec_is_meta(),
        old(block).spec_metas_wf(),
        old(block).spec_metas() == Seq::<Metadata>::empty(),
        param.spec_wf(),
        match hash {
            Option::None => true,
            Option::Some(h) => h.digest.len() == crate::multihash::spec_digest_len(h.hash_type),
        },
    ensures
        r is Ok,
        final(block).spec_is_meta(),
        final(block).spec_metas_wf(),
        final(block).spec_header() == old(block).spec_header(),
        crate::sbx_block::metadata::spec_metas_match_descr(
            final(block).spec_metas(),
            spec_packed_meta_descr(*param, file_size, hash),
        ),
    {
    let ghost mut descr: Seq<(crate::sbx_block::MetadataID, Seq<u8>)> = Seq::empty();
    proof {
        assert(crate::sbx_block::metadata::spec_metas_match_descr(block.spec_metas(), descr));
    }
    match &param.in_file_name {
        None => {},
        Some(n) => {
            let v = copy_vec(n);
            proof {
                crate::sbx_block::metadata::lemma_descr_push(
                    block.spec_metas(),
                    descr,
                    Metadata::FNM(v),
                    (crate::sbx_block::MetadataID::FNM, n@),
                );
                descr = descr.push((crate::sbx_block::MetadataID::FNM, n@));
            }
            let _ = block.add_meta(Metadata::FNM(v));
        },
    }
    match &param.out_file_name {
        None => {},
        Some(n) => {
            let v = copy_vec(n);
            proof {
                crate::sbx_block::metadata::lemma_descr_push(
                    block.spec_metas(),
                    descr,
                    Metadata::SNM(v),
                    (crate::sbx_block::MetadataID::SNM, n@),
                );
                descr = descr.push((crate::sbx_block::MetadataID::SNM, n@));
            }
            let _ = block.add_meta(Metadata::SNM(v));
        },
    }
    match file_size {
        None => {},
        Some(sz) => {
            proof {
                crate::sbx_block::metadata::lemma_descr_push(
                    block.spec_metas(),
                    descr,
                    Metadata::FSZ(sz),
                    (
                        crate::sbx_block::MetadataID::FSZ,
                        crate::sbx_block::metadata::spec_be64_seq(sz),
                    ),
                );
                descr = descr.push(
                    (
                        crate::sbx_block::MetadataID::FSZ,
                        crate::sbx_block::metadata::spec_be64_seq(sz),
                    ),
                );
            }
            let _ = block.add_meta(Metadata::FSZ(sz));
        },
    }
    match param.file_mtime {
        None => {},
        Some(t) => {
            proof {
                crate::sbx_block::metadata::lemma_descr_push(
                    block.spec_metas(),
                    descr,
                    Metadata::FDT(t),
                    (
                        crate::sbx_block::MetadataID::FDT,
                        crate::sbx_block::metadata::spec_be64_seq(t as u64),
                    ),
                );
                descr = descr.push(
                    (
                        crate::sbx_block::MetadataID::FDT,
                        crate::sbx_block::metadata::spec_be64_seq(t as u64),
                    ),
                );
            }
            let _ = block.add_meta(Metadata::FDT(t));
        },
    }
    proof {
        crate::sbx_block::metadata::lemma_descr_push(
            block.spec_metas(),
            descr,
            Metadata::SDT(param.encode_time),
            (
                crate::sbx_block::MetadataID::SDT,
                crate::sbx_block::metadata::spec_be64_seq(param.encode_time as u64),
            ),
        );
        descr = descr.push(
            (
                crate::sbx_block::MetadataID::SDT,
                crate::sbx_block::metadata::spec_be64_seq(param.encode_time as u64),
            ),
        );
    }
    let _ = block.add_meta(Metadata::SDT(param.encode_time));
    let hsh = match hash {
        Some(h) => h,
        None => {
            let empty: Vec<u8> = Vec::new();
            crate::multihash::hash_bytes_of(param.hash_type, &empty)
        },
    };
    let ghost ht = spec_hash_entry_type(param.hash_type, hash);
    let ghost digest = spec_hash_digest_bytes(param.hash_type, hash);
    proof {
        crate::sbx_block::metadata::lemma_descr_push(
            block.spec_metas(),
            descr,
            Metadata::HSH(hsh),
            (
                crate::sbx_block::MetadataID::HSH,
                seq![
                    crate::multihash::spec_hash_type_code(ht),
                    digest.len() as u8,
                ] + digest,
            ),
        );
        descr = descr.push(
            (
                crate::sbx_block::MetadataID::HSH,
                seq![
                    crate::multihash::spec_hash_type_code(ht),
                    digest.len() as u8,
                ] + digest,
            ),
        );
    }
    let _ = block.add_meta(Metadata::HSH(hsh));
    match param.data_par_burst {
        None => {},
        Some((d, p, _)) => {
            proof {
                crate::sbx_block::metadata::lemma_descr_push(
                    block.spec_metas(),
                    descr,
                    Metadata::RSD(d as u8),
                    (crate::sbx_block::MetadataID::RSD, seq![d as u8]),
                );
                descr = descr.push((crate::sbx_block::MetadataID::RSD, seq![d as u8]));
            }
            let _ = block.add_meta(Metadata::RSD(d as u8));
            proof {
                crate::sbx_block::metadata::lemma_descr_push(
                    block.spec_metas(),
                    descr,
                    Metadata::RSP(p as u8),
                    (crate::sbx_block::MetadataID::RSP, seq![p as u8]),
                );
                descr = descr.push((crate::sbx_block::MetadataID::RSP, seq![p as u8]));
            }
            let _ = block.add_meta(Metadata::RSP(p as u8));
        },
    }
    proof {
        assert(descr =~= spec_packed_meta_descr(*param, file_size, hash));
    }
    Ok(())
}

fn copy_vec(src: &Vec<u8>) -> (r: Vec<u8>)
    ensures
        r@ == src@,
{
    let mut v: Vec<u8> = Vec::new();
    let mut i: usize = 0;
    while i < src.len()
        invariant
            i <= src.len(),
            v@ == src@.subrange(0, i as int),
        decreases src.len() - i,
    {
        v.push(src[i]);
        proof {
            assert(src@.subrange(0, i + 1) =~= src@.subrange(0, i as int).push(src@[i as int]));
        }
        i = i + 1;
    }
    proof {
        assert(src@.subrange(0, src@.len() as int) =~= src@);
    }
    v
}

/// The byte positions of every metadata copy: the primary at 0, the
/// duplicates one stride apart.
pub open spec fn spec_meta_positions(param: Param) -> Seq<u64> {
    let bs = spec_ver_to_block_size(param.version);
    match param.data_par_burst {
        Option::None => seq![0u64],
        Option::Some((d, p, b)) => Seq::new(
            (1 + p) as nat,
            |i: int|
                (crate::sbx_block::layout::spec_meta_dup_index(i, b as int) * bs) as u64,
        ),
    }
}

/// The serialized payload of the metadata block: the packed entries,
/// padded out with the padding byte.
pub open spec fn spec_meta_block_payload(
    param: Param,
    file_size: Option<u64>,
    hash: Option<HashBytes>,
) -> Seq<u8> {
    let ds = spec_ver_to_data_size(param.version);
    let entries = crate::sbx_block::metadata::spec_descr_bytes(
        spec_packed_meta_descr(param, file_size, hash),
    );
    entries + Seq::new((ds - entries.len()) as nat, |i: int| 0x1Au8)
}

/// The full serialized metadata block: header with the payload checksum,
/// then the payload.
pub open spec fn spec_meta_block_bytes(
    param: Param,
    file_size: Option<u64>,
    hash: Option<HashBytes>,
) -> Seq<u8> {
    let payload = spec_meta_block_payload(param, file_size, hash);
    let h0 = crate::sbx_block::Header {
        version: param.version,
        crc: 0,
        file_uid: param.uid,
        seq_num: 0,
    };
    let crc = crate::sbx_block::spec_block_crc(h0, payload);
    seq![
        0x53u8,
        0x42u8,
        0x78u8,
        crate::sbx_specs::spec_ver_to_usize(param.version) as u8,
        (crc >> 8) as u8,
        crc as u8,
    ] + h0.file_uid@ + seq![0u8, 0u8, 0u8, 0u8] + payload
}

/// Serialize the metadata block and write it at the primary position and
/// every duplicate position.  Succeeds exactly when the entries fit one
/// payload; the container afterwards is the fold of writing the serialized
/// block at each metadata position in order.
pub fn write_meta_blocks(
    param: &Param,
    file_size: Option<u64>,
    hash: Option<HashBytes>,
    out: &mut ContainerBuf,
) -> (r: Result<u64, Error>)
    requires
        param.spec_wf(),
        usize::MAX >= 0x80_0000_0000_0000,
        old(out).spec_bytes().len() <= 0x41_0000_0000_0000,
        match hash {
            Option::None => true,
            Option::Some(h) => h.digest.len() == crate::multihash::spec_digest_len(h.hash_type),
        },
    ensures
        final(out).spec_bytes().len() <= 0x41_0000_0000_0000,
        (r is Ok) <==> crate::sbx_block::metadata::spec_descr_bytes(
            spec_packed_meta_descr(*param, file_size, hash),
        ).len() <= spec_ver_to_data_size(param.version),
        match r {
            Ok(n) => {
                let ps = spec_meta_positions(*param);
                &&& n == ps.len()
                &&& n == 1 + (match param.data_par_burst {
                    Option::None => 0int,
                    Option::Some((_, p, _)) => p as int,
                })
                &&& final(out).spec_bytes() == crate::container::spec_write_fold_at(
                    old(out).spec_bytes(),
                    spec_meta_block_bytes(*param, file_size, hash),
                    ps,
                    ps.len() as int,
                )
                &&& spec_meta_block_bytes(*param, file_size, hash).len()
                    == spec_ver_to_block_size(param.version)
            },
            Err(e) => e is TooMuchMetadata && *final(out) == *old(out),
        },
{
    let mut block = Block::new(param.version, &param.uid, BlockType::Meta);
    match pack_metadata(&mut block, param, file_size, hash) {
        Ok(()) => {},
        Err(e) => {
            proof {
                assert(false);
            }
            return Err(e);
        },
    }
    proof {
        crate::sbx_block::metadata::lemma_metas_bytes_of_descr(
            block.spec_metas(),
            spec_packed_meta_descr(*param, file_size, hash),
        );
    }
    let bs = ver_to_block_size(param.version);
    let mut buffer: Vec<u8> = Vec::new();
    let mut i: usize = 0;
    while i < bs
        invariant
            i <= bs,
            buffer.len() == i,
        decreases bs - i,
    {
        buffer.push(0);
        i = i + 1;
    }
    match block.sync_to_buffer(None, &mut buffer) {
        Ok(()) => {},
        Err(Error::TooMuchMetadata(m)) => {
            return Err(Error::TooMuchMetadata(m));
        },
        Err(_) => {
            proof {
                assert(false);
            }
            return Err(Error::IncorrectBufferSize);
        },
    }
    proof {
        lemma_meta_buffer_is_block_bytes(*param, file_size, hash, block, buffer@);
    }
    let pos_s = calc_meta_block_all_write_pos_s(param.version, param.data_par_burst);
    proof {
        assert forall|t: int| 0 <= t < pos_s@.len() implies #[trigger] pos_s@[t]
            == spec_meta_positions(*param)[t] by {
            match param.data_par_burst {
                Option::None => {},
                Option::Some((d, p, b)) => {
                    if t == 0 {
                        assert(crate::sbx_block::layout::spec_meta_dup_index(0, b as int) == 0)
                            by (nonlinear_arith);
                    }
                },
            }
        }
        assert(pos_s@ =~= spec_meta_positions(*param));
    }
    let mut j: usize = 0;
    let mut written: u64 = 0;
    while j < pos_s.len()
        invariant
            j <= pos_s.len(),
            written == j,
            usize::MAX >= 0x80_0000_0000_0000,
            buffer.len() == spec_ver_to_block_size(param.version),
            buffer@ == spec_meta_block_bytes(*param, file_size, hash),
            pos_s@ == spec_meta_positions(*param),
            out.spec_bytes() == crate::container::spec_write_fold_at(
                old(out).spec_bytes(),
                buffer@,
                pos_s@,
                j as int,
            ),
            out.spec_bytes().len() <= 0x41_0000_0000_0000,
            forall|t: int|
                0 <= t < pos_s.len() ==> 0 <= #[trigger] pos_s@[t] <= 513 * 0x1_0000_0000u64
                    * 4096,
        decreases pos_s.len() - j,
    {
        out.seek_to(pos_s[j]);
        out.write(&buffer);
        written = written + 1;
        j = j + 1;
    }
    Ok(written)
}

/// The buffer a synchronized metadata block leaves behind is exactly the
/// serialized metadata block.
proof fn lemma_meta_buffer_is_block_bytes(
    param: Param,
    file_size: Option<u64>,
    hash: Option<HashBytes>,
    block: Block,
    b: Seq<u8>,
)
    requires
        b.len() == spec_ver_to_block_size(param.version),
        block.spec_header().version == param.version,
        block.spec_header().file_uid == param.uid,
        block.spec_header().seq_num == 0,
        crate::sbx_block::header::spec_header_matches(block.spec_header(), b.subrange(0, 16)),
        block.spec_header().crc == crate::sbx_block::spec_block_crc(
            block.spec_header(),
            b.subrange(16, spec_ver_to_block_size(param.version)),
        ),
        b.subrange(16, spec_ver_to_block_size(param.version)) == spec_meta_block_payload(
            param,
            file_size,
            hash,
        ),
    ensures
        b == spec_meta_block_bytes(param, file_size, hash),
{
    let bs = spec_ver_to_block_size(param.version);
    let payload = spec_meta_block_payload(param, file_size, hash);
    let h = block.spec_header();
    let h0 = crate::sbx_block::Header {
        version: param.version,
        crc: 0,
        file_uid: param.uid,
        seq_num: 0,
    };
    assert(crate::sbx_block::header::spec_header_crc_full(h)
        == crate::sbx_block::header::spec_header_crc_full(h0));
    let crc = crate::sbx_block::spec_block_crc(h0, payload);
    assert(h.crc == crc);
    let s16 = b.subrange(0, 16);
    crate::byte_order::lemma_be16_round_trip(s16[4], s16[5]);
    crate::byte_order::lemma_be32_round_trip(s16[12], s16[13], s16[14], s16[15]);
    assert(s16[12] == 0 && s16[13] == 0 && s16[14] == 0 && s16[15] == 0) by {
        assert((0u32 >> 24) as u8 == 0 && (0u32 >> 16) as u8 == 0 && (0u32 >> 8) as u8 == 0
            && 0u32 as u8 == 0) by (bit_vector);
    }
    assert(b =~= spec_meta_block_bytes(param, file_size, hash));
}

#[derive(Clone, Debug)]
pub enum EncodeError {
    InputTooLarge,
    SequenceNumbersExhausted,
    TooMuchMetadata(Vec<Metadata>),
}

/// Encode a whole input into a container image.  The reported container
/// size is the one the size calculation gives for the same parameters, the
/// reported block counts are the data chunk count and its parity
/// complement, and the recorded hash is of the bytes the staging buffers
/// fed from the input.  Sequence numbers can run out only when the input
/// together with its parity needs more than the format offers.
pub fn encode_bytes(param: &Param, input: &Vec<u8>) -> (r: Result<(Vec<u8>, Stats), EncodeError>)
    requires
        param.spec_wf(),
        usize::MAX >= 0x80_0000_0000_0000,
    ensures
        match r {
            Ok((container, stats)) => {
                &&& spec_size_ok(param.version, input.len() as int)
                &&& stats.in_file_size == input.len()
                &&& stats.out_file_size == spec_container_size(
                    param.version,
                    Option::Some(param.meta_enabled),
                    param.data_par_burst,
                    input.len() as int,
                )
                &&& stats.data_blocks_written == spec_data_chunk_count(
                    param.version,
                    input.len() as int,
                )
                &&& stats.parity_blocks_written == (match param.data_par_burst {
                    Option::None => 0int,
                    Option::Some((d, p, _)) => spec_parity_block_count(
                        param.version,
                        d as int,
                        p as int,
                        input.len() as int,
                    ),
                })
                &&& stats.meta_blocks_written == (if param.meta_enabled {
                    1 + (match param.data_par_burst {
                        Option::None => 0int,
                        Option::Some((_, p, _)) => p as int,
                    })
                } else {
                    0int
                })
                &&& stats.data_padding_bytes == stats.data_blocks_written
                    * spec_ver_to_data_size(param.version) - input.len()
                &&& (param.meta_enabled ==> (stats.hash_bytes matches Option::Some(h)
                    && h.hash_type == param.hash_type && h.digest.len()
                    == crate::multihash::spec_digest_len(param.hash_type) && h.digest@
                    == crate::multihash::spec_digest_of(param.hash_type, input@)))
                &&& stats.version == param.version
                &&& stats.uid == param.uid
                &&& (param.meta_enabled ==> {
                    let ps = spec_meta_positions(*param);
                    let mb = spec_meta_block_bytes(
                        *param,
                        Option::Some(input.len() as u64),
                        stats.hash_bytes,
                    );
                    &&& mb.len() == spec_ver_to_block_size(param.version)
                    &&& forall|i: int|
                        0 <= i < ps.len() ==> container@.len() >= #[trigger] ps[i] + mb.len()
                            && container@.subrange(ps[i] as int, ps[i] + mb.len()) == mb
                })
            },
            Err(e) => match e {
                EncodeError::InputTooLarge => !spec_size_ok(param.version, input.len() as int),
                EncodeError::SequenceNumbersExhausted => spec_data_chunk_count(
                    param.version,
                    input.len() as int,
                ) >= 1,
                EncodeError::TooMuchMetadata(_) => param.meta_enabled && (
                crate::sbx_block::metadata::spec_descr_bytes(
                    spec_packed_meta_descr(
                        *param,
                        Option::Some(input.len() as u64),
                        Option::None,
                    ),
                ).len() > spec_ver_to_data_size(param.version) || exists|h: HashBytes|
                    h.hash_type == param.hash_type && h.digest@
                        == crate::multihash::spec_digest_of(param.hash_type, input@)
                        && crate::sbx_block::metadata::spec_descr_bytes(
                        spec_packed_meta_descr(
                            *param,
                            Option::Some(input.len() as u64),
                            Option::Some(h),
                        ),
                    ).len() > spec_ver_to_data_size(param.version)),
            },
        },
        (r matches Result::Err(e) && e is InputTooLarge) <==> !spec_size_ok(
            param.version,
            input.len() as int,
        ),
{
    let in_len = input.len() as u64;
    let max = ver_to_max_data_file_size(param.version);
    if in_len > max {
        return Err(EncodeError::InputTooLarge);
    }
    proof {
        assert(0xFFFF_FFFFu64 * spec_ver_to_data_size(param.version) == max);
    }
    let data_size = ver_to_data_size(param.version);
    let mut out = ContainerBuf::new();
    let mut meta_written: u64 = 0;
    if param.meta_enabled {
        match write_meta_blocks(param, Some(in_len), None, &mut out) {
            Ok(n) => {
                meta_written = n;
            },
            Err(Error::TooMuchMetadata(m)) => {
                return Err(EncodeError::TooMuchMetadata(m));
            },
            Err(_) => {
                proof {
                    assert(false);
                }
            },
        }
    }
    let mut buffer = DataBlockBuffer::new(
        param.version,
        Some(&param.uid),
        InputType::Data,
        false,
        OutputType::Block,
        BlockArrangement::OrderedAndNoMissing,
        param.data_par_burst,
        param.meta_enabled,
        0,
        1,
    );
    let mut ctx = HashCtx::new(param.hash_type);
    let mut bytes_processed: usize = 0;
    let mut chunks: u64 = 0;
    let ghost total_chunks = spec_data_chunk_count(param.version, input.len() as int);
    proof {
        lemma_chunk_exact(0, data_size as int);
        crate::file_utils::lemma_chunk_count_bound(param.version, input.len() as int);
        if input.len() > 0 {
            lemma_chunk_lower(0, data_size as int, input.len() as int);
        }
    }
    while bytes_processed < input.len()
        invariant
            param.spec_wf(),
            usize::MAX >= 0x80_0000_0000_0000,
            input.len() <= 0xFFFF_FFFFu64 * spec_ver_to_data_size(param.version),
            data_size == spec_ver_to_data_size(param.version),
            1 <= data_size <= 4080,
            total_chunks == spec_data_chunk_count(param.version, input.len() as int),
            total_chunks <= 0xFFFF_FFFF,
            bytes_processed <= input.len(),
            chunks <= total_chunks,
            bytes_processed == chunks * data_size || (bytes_processed == input.len() && chunks
                == total_chunks),
            bytes_processed == chunks * data_size ==> chunks == spec_data_chunk_count(
                param.version,
                bytes_processed as int,
            ),
            bytes_processed == chunks * data_size && bytes_processed < input.len() ==> chunks
                < total_chunks,
            buffer.spec_wf(),
            buffer.spec_filling(),
            buffer.lots@[0].version == param.version,
            buffer.lots@[0].meta_enabled == param.meta_enabled,
            buffer.lots@[0].data_par_burst == param.data_par_burst,
            buffer.lots@[0].output_type is Block,
            buffer.lots@[0].input_type is Data,
            buffer.lots@[0].arrangement is OrderedAndNoMissing,
            !buffer.lots@[0].skip_good,
            match buffer.start_seq_num {
                Option::Some(s) => 1 <= s,
                Option::None => true,
            },
            ctx.hash_type == param.hash_type,
            ctx.data@ == input@.subrange(0, bytes_processed as int),
            chunks == 0 ==> buffer.lots_used == 0 && buffer.lots@[0].slots_used == 0,
            out.spec_bytes().len() <= 0x41_0000_0000_0000,
        decreases 2 * (input.len() - bytes_processed) + (if buffer.lots_used
            == buffer.lots.len() {
            1int
        } else {
            0int
        }),
    {
        match buffer.get_slot() {
            None => {
                proof {
                    assert(chunks >= 1);
                    assert(spec_data_chunk_count(param.version, input.len() as int) >= 1);
                }
                match flush_buffer(&mut buffer, &mut out) {
                    Ok(()) => {},
                    Err(e) => {
                        return Err(e);
                    },
                }
            },
            Some(slot) => {
                let remaining = input.len() - bytes_processed;
                let len = if remaining < data_size {
                    remaining
                } else {
                    data_size
                };
                buffer.set_slot_content(slot, input, bytes_processed, len);
                ctx.update_range(input, bytes_processed, bytes_processed + len);
                proof {
                    assert(input@.subrange(0, bytes_processed as int) + input@.subrange(
                        bytes_processed as int,
                        bytes_processed + len,
                    ) =~= input@.subrange(0, (bytes_processed + len) as int));
                    assert((chunks as int + 1) * (data_size as int) == (chunks as int) * (
                    data_size as int) + data_size) by (nonlinear_arith);
                    if len == data_size {
                        lemma_chunk_exact(chunks as int + 1, data_size as int);
                        if bytes_processed + len < input.len() {
                            lemma_chunk_lower(
                                chunks as int + 1,
                                data_size as int,
                                input.len() as int,
                            );
                        } else {
                            lemma_chunk_exact(chunks as int + 1, data_size as int);
                        }
                    } else {
                        lemma_chunk_final(
                            chunks as int,
                            data_size as int,
                            (bytes_processed + len) as int,
                        );
                    }
                }
                bytes_processed = bytes_processed + len;
                chunks = chunks + 1;
            },
        }
    }
    if buffer.active() {
        proof {
            assert(chunks >= 1);
            assert(spec_data_chunk_count(param.version, input.len() as int) >= 1);
        }
        match flush_buffer(&mut buffer, &mut out) {
            Ok(()) => {},
            Err(e) => {
                return Err(e);
            },
        }
    }
    proof {
        assert(input@.subrange(0, input@.len() as int) =~= input@);
    }
    let hash_bytes = ctx.finish_into_hash_bytes();
    if param.meta_enabled {
        let hash_copy = hash_bytes.clone_hash();
        let ghost hc = hash_copy;
        let ghost pre_bytes = out.spec_bytes();
        match write_meta_blocks(param, Some(in_len), Some(hash_copy), &mut out) {
            Ok(_) => {},
            Err(Error::TooMuchMetadata(m)) => {
                return Err(EncodeError::TooMuchMetadata(m));
            },
            Err(_) => {
                proof {
                    assert(false);
                }
            },
        }
        proof {
            lemma_meta_regions(
                *param,
                Option::Some(in_len),
                hc,
                hash_bytes,
                pre_bytes,
                out.spec_bytes(),
            );
        }
    }
    let (_, parity_blocks) = calc_data_only_and_parity_block_count_exc_burst_gaps(
        param.version,
        param.data_par_burst,
        in_len,
    );
    let out_file_size = calc_container_size(
        param.version,
        Some(param.meta_enabled),
        param.data_par_burst,
        in_len,
    );
    proof {
        assert((chunks as int) * (data_size as int) <= 0xFFFF_FFFFu64 * 4096)
            by (nonlinear_arith)
            requires
                0 <= chunks <= 0xFFFF_FFFFu64,
                0 < data_size <= 4080,
        ;
        lemma_chunk_mul_ge(param.version, input.len() as int);
    }
    let padding_bytes = chunks * (data_size as u64) - in_len;
    let stats = Stats {
        uid: param.uid,
        version: param.version,
        meta_blocks_written: meta_written,
        data_blocks_written: chunks,
        parity_blocks_written: parity_blocks,
        data_padding_bytes: padding_bytes,
        in_file_size: in_len,
        out_file_size,
        hash_bytes: if param.meta_enabled {
            Some(hash_bytes)
        } else {
            None
        },
    };
    Ok((out.into_bytes(), stats))
}

/// Stage and write out one full (or final partial) batch.
fn flush_buffer(buffer: &mut DataBlockBuffer, out: &mut ContainerBuf) -> (r: Result<
    (),
    EncodeError,
>)
    requires
        old(buffer).spec_wf(),
        old(buffer).spec_filling(),
        old(buffer).lots@[0].output_type is Block,
        old(buffer).lots@[0].input_type is Data,
        old(buffer).lots@[0].arrangement is OrderedAndNoMissing,
        !old(buffer).lots@[0].skip_good,
        usize::MAX >= 0x80_0000_0000_0000,
        old(out).spec_bytes().len() <= 0x41_0000_0000_0000,
    ensures
        final(buffer).spec_wf(),
        final(buffer).spec_filling(),
        final(out).spec_bytes().len() <= 0x41_0000_0000_0000,
        r is Ok ==> final(buffer).lots_used == 0 && lot_eq_cfg(
            old(buffer).lots@[0],
            final(buffer).lots@[0],
        ) && final(buffer).lots.len() == old(buffer).lots.len() && (match final(buffer).start_seq_num {
            Option::Some(s) => 1 <= s,
            Option::None => true,
        }),
        r is Err ==> *final(buffer) == *old(buffer) && *final(out) == *old(out),
        match r {
            Result::Err(e) => e is SequenceNumbersExhausted,
            Result::Ok(_) => true,
        },
{
    let start = match buffer.start_seq_num {
        Some(s) => s,
        None => {
            return Err(EncodeError::SequenceNumbersExhausted);
        },
    };
    if (start as u64) + (buffer.seq_num_incre as u64) > 0x1_0000_0000u64 {
        return Err(EncodeError::SequenceNumbersExhausted);
    }
    let _ = buffer.encode();
    let _ = buffer.write(out);
    Ok(())
}

/// The configuration of a lot, as flushing preserves it.
pub open spec fn lot_eq_cfg(a: crate::data_block_buffer::Lot, b: crate::data_block_buffer::Lot) -> bool {
    crate::data_block_buffer::lot_eq_except_slot_state(a, b)
}

/// Whole chunks cover exactly their own count.
proof fn lemma_chunk_exact(k: int, ds: int)
    requires
        0 <= k,
        1 <= ds,
    ensures
        (k * ds + ds - 1) / ds == k,
{
    vstd::arithmetic::div_mod::lemma_fundamental_div_mod_converse(k * ds + ds - 1, ds, k, ds - 1);
}

/// With more input past a whole number of chunks, more chunks follow.
proof fn lemma_chunk_lower(k: int, ds: int, len: int)
    requires
        0 <= k,
        1 <= ds,
        k * ds < len,
    ensures
        k < (len + ds - 1) / ds,
{
    vstd::arithmetic::div_mod::lemma_fundamental_div_mod_converse(k * ds + ds - 1, ds, k, ds - 1);
    vstd::arithmetic::div_mod::lemma_div_is_ordered(k * ds + ds, len + ds - 1, ds);
    assert(k * ds + ds == (k + 1) * ds) by (nonlinear_arith);
    vstd::arithmetic::div_mod::lemma_fundamental_div_mod_converse(k * ds + ds, ds, k + 1, 0);
}

/// A final short chunk raises the count by exactly one.
proof fn lemma_chunk_final(k: int, ds: int, len: int)
    requires
        0 <= k,
        1 <= ds,
        k * ds < len < k * ds + ds,
    ensures
        (len + ds - 1) / ds == k + 1,
{
    assert(k * ds + ds == (k + 1) * ds) by (nonlinear_arith);
    vstd::arithmetic::div_mod::lemma_fundamental_div_mod_converse(
        len + ds - 1,
        ds,
        k + 1,
        len - k * ds - 1,
    );
}

/// Chunks cover at least the bytes they were counted for.
proof fn lemma_chunk_mul_ge(version: Version, len: int)
    requires
        0 <= len,
    ensures
        spec_data_chunk_count(version, len) * spec_ver_to_data_size(version) >= len,
        spec_data_chunk_count(version, len) >= 0,
{
    let ds = spec_ver_to_data_size(version);
    let q = (len + ds - 1) / ds;
    let rr = (len + ds - 1) % ds;
    vstd::arithmetic::div_mod::lemma_fundamental_div_mod(len + ds - 1, ds);
    vstd::arithmetic::div_mod::lemma_mod_bound(len + ds - 1, ds);
    vstd::arithmetic::div_mod::lemma_div_pos_is_pos(len + ds - 1, ds);
    assert(ds * q == q * ds) by (nonlinear_arith);
}

/// The metadata regions of the finished container: the final rewrite puts
/// the serialized metadata block (same entry bytes whichever copy of the
/// hash is in hand) at every metadata position, and the positions leave a
/// whole block of room between them.
proof fn lemma_meta_regions(
    param: Param,
    file_size: Option<u64>,
    hc: HashBytes,
    orig: HashBytes,
    pre: Seq<u8>,
    post: Seq<u8>,
)
    requires
        param.spec_wf(),
        hc.hash_type == orig.hash_type,
        hc.digest@ == orig.digest@,
        post == crate::container::spec_write_fold_at(
            pre,
            spec_meta_block_bytes(param, file_size, Option::Some(hc)),
            spec_meta_positions(param),
            spec_meta_positions(param).len() as int,
        ),
        spec_meta_block_bytes(param, file_size, Option::Some(hc)).len() == spec_ver_to_block_size(
            param.version,
        ),
    ensures
        spec_meta_block_bytes(param, file_size, Option::Some(orig)).len()
            == spec_ver_to_block_size(param.version),
        forall|i: int|
            0 <= i < spec_meta_positions(param).len() ==> post.len()
                >= #[trigger] spec_meta_positions(param)[i] + spec_ver_to_block_size(param.version)
                && post.subrange(
                spec_meta_positions(param)[i] as int,
                spec_meta_positions(param)[i] + spec_ver_to_block_size(param.version),
            ) == spec_meta_block_bytes(param, file_size, Option::Some(orig)),
{
    let bs = spec_ver_to_block_size(param.version);
    let ps = spec_meta_positions(param);
    let mb_hc = spec_meta_block_bytes(param, file_size, Option::Some(hc));
    let mb = spec_meta_block_bytes(param, file_size, Option::Some(orig));
    assert(spec_packed_meta_descr(param, file_size, Option::Some(hc)) =~= spec_packed_meta_descr(
        param,
        file_size,
        Option::Some(orig),
    ));
    assert(mb_hc =~= mb);
    assert forall|i: int, j: int|
        0 <= i < j < ps.len() implies #[trigger] ps[i] + mb_hc.len() <= #[trigger] ps[j] by {
        match param.data_par_burst {
            Option::None => {},
            Option::Some((d, p, b)) => {
                let stride = (1 + b as int) * bs;
                assert(crate::sbx_block::layout::spec_meta_dup_index(i, b as int) * bs + bs
                    <= crate::sbx_block::layout::spec_meta_dup_index(j, b as int) * bs)
                    by (nonlinear_arith)
                    requires
                        0 <= i < j,
                        0 <= b,
                        0 < bs,
                        crate::sbx_block::layout::spec_meta_dup_index(i, b as int) == i * (1
                            + b as int),
                        crate::sbx_block::layout::spec_meta_dup_index(j, b as int) == j * (1
                            + b as int),
                ;
                assert(crate::sbx_block::layout::spec_meta_dup_index(i, b as int) * bs <= 513
                    * 0x1_0000_0000 * 4096 && crate::sbx_block::layout::spec_meta_dup_index(
                    j,
                    b as int,
                ) * bs <= 513 * 0x1_0000_0000 * 4096 && 0
                    <= crate::sbx_block::layout::spec_meta_dup_index(i, b as int) * bs)
                    by (nonlinear_arith)
                    requires
                        0 <= i < j <= 512,
                        0 <= b <= 0xFFFF_FFFF,
                        0 < bs <= 4096,
                        crate::sbx_block::layout::spec_meta_dup_index(i, b as int) == i * (1
                            + b as int),
                        crate::sbx_block::layout::spec_meta_dup_index(j, b as int) == j * (1
                            + b as int),
                ;
            },
        }
    }
    crate::container::lemma_write_fold_regions(pre, mb_hc, ps, ps.len() as int);
}

} // verus!
