//! The decoder: find a reference block, take version and UID from it, read
//! every data block at its canonical position, verify it, and put its
//! payload at the right place in the output.

use vstd::prelude::*;

use crate::sbx_block::layout::spec_dpb_ok;
use crate::sbx_block::metadata::{Metadata, MetadataID};
use crate::sbx_block::{
    calc_data_block_write_pos, calc_data_chunk_write_index, seq_num_is_parity, Block,
};
use crate::sbx_specs::{
    spec_ver_to_block_size, ver_to_block_size, ver_to_data_size, ver_uses_rs, Version,
};

verus! {

#[derive(Clone, Copy, Debug, PartialEq, Eq, Structural)]
pub enum DecodeError {
    RefBlockNotFound,
    RsParamsMissing,
    BurstNotFound,
    OutputTooLarge,
}

/// Copy `bytes[start..end]` into a fresh vector (clipped to the buffer).
pub fn copy_block_at(bytes: &Vec<u8>, start: usize, len: usize) -> (r: Vec<u8>)
    requires
        start + len <= bytes.len(),
    ensures
        r@ == bytes@.subrange(start as int, start + len),
{
    let mut v: Vec<u8> = Vec::new();
    let mut i = start;
    while i < start + len
        invariant
            start <= i <= start + len <= bytes.len(),
            v@ == bytes@.subrange(start as int, i as int),
        decreases start + len - i,
    {
        v.push(bytes[i]);
        proof {
            assert(bytes@.subrange(start as int, i + 1) =~= bytes@.subrange(
                start as int,
                i as int,
            ).push(bytes@[i as int]));
        }
        i = i + 1;
    }
    v
}

/// One acceptable block starts at the given byte position.
pub open spec fn spec_block_parses_at(b: Seq<u8>, pos: int) -> bool {
    0 <= pos <= b.len() && crate::sbx_block::spec_block_parses(b.skip(pos))
}

/// Try to parse a whole block at a byte position; succeeds exactly when an
/// acceptable block (signature, known version, whole block present,
/// matching checksum) starts there.
pub fn parse_block_at(bytes: &Vec<u8>, pos: usize) -> (r: Option<Block>)
    requires
        pos <= bytes.len(),
    ensures
        r is Some <==> spec_block_parses_at(bytes@, pos as int),
        match r {
            Option::Some(b) => {
                &&& b.spec_type_consistent()
                &&& b.spec_metas_wf()
                &&& pos + spec_ver_to_block_size(b.spec_header().version) <= bytes.len()
                &&& crate::sbx_block::header::spec_header_matches(
                    b.spec_header(),
                    bytes@.subrange(pos as int, pos + 16),
                )
                &&& b.spec_header().crc == crate::sbx_block::spec_block_crc(
                    b.spec_header(),
                    bytes@.subrange(
                        pos + 16,
                        pos + spec_ver_to_block_size(b.spec_header().version),
                    ),
                )
                &&& (b.spec_is_meta() ==> crate::sbx_block::metadata::spec_metas_match(
                    bytes@.subrange(
                        pos + 16,
                        pos + spec_ver_to_block_size(b.spec_header().version),
                    ),
                    b.spec_metas(),
                ))
            },
            Option::None => true,
        },
{
    if bytes.len() - pos < 16 {
        proof {
            lemma_parses_prefix_irrelevant(bytes@, pos as int, bytes.len() - pos);
        }
        return None;
    }
    let avail = bytes.len() - pos;
    let take = if avail < 4096 {
        avail
    } else {
        4096
    };
    let buf = copy_block_at(bytes, pos, take);
    proof {
        lemma_parses_prefix_irrelevant(bytes@, pos as int, take as int);
        assert(buf@ =~= bytes@.skip(pos as int).take(take as int));
    }
    let mut block = Block::dummy();
    match block.sync_from_buffer(&buf) {
        Ok(()) => {
            let bs = ver_to_block_size(block.get_version());
            proof {
                assert(buf@.subrange(0, 16) =~= bytes@.subrange(pos as int, pos + 16));
                assert(buf@.subrange(16, bs as int) =~= bytes@.subrange(pos + 16, pos + bs));
            }
            Some(block)
        },
        Err(_) => None,
    }
}

/// Whether a block parses depends only on the bytes a block can cover:
/// judging the prefix of length `take` (the whole rest, capped at the
/// largest block size) judges the rest itself.
proof fn lemma_parses_prefix_irrelevant(b: Seq<u8>, pos: int, take: int)
    requires
        0 <= pos <= b.len(),
        take == if b.len() - pos < 4096 {
            b.len() - pos
        } else {
            4096int
        },
    ensures
        crate::sbx_block::spec_block_parses(b.skip(pos).take(take))
            == crate::sbx_block::spec_block_parses(b.skip(pos)),
{
    let rest = b.skip(pos);
    let pre = rest.take(take);
    if rest.len() < 16 {
    } else {
        assert(pre.subrange(0, 16) =~= rest.subrange(0, 16));
        if crate::sbx_block::header::spec_header_parsable(rest.subrange(0, 16)) {
            let v = crate::sbx_specs::spec_ver_of_byte(rest[3]);
            let bs = spec_ver_to_block_size(v);
            assert(bs <= 4096);
            if rest.len() >= bs {
                assert(pre.len() >= bs);
                assert(pre.subrange(6, bs) =~= rest.subrange(6, bs));
            }
        }
    }
}

/// A position the reference-block scan visits: aligned to the scan step
/// and inside the container.
pub open spec fn spec_scan_pos(len: int, p: int) -> bool {
    0 <= p < len && p % 128 == 0
}

/// An acceptable metadata block starts at `p`: it parses and its sequence
/// number bytes read zero.
pub open spec fn spec_meta_block_at(b: Seq<u8>, p: int) -> bool {
    spec_block_parses_at(b, p) && crate::byte_order::spec_be32(
        b[p + 12],
        b[p + 13],
        b[p + 14],
        b[p + 15],
    ) == 0
}

/// Scan the container in scan-block steps for a reference block: the first
/// acceptable metadata block when metadata is preferred and one exists,
/// else the first acceptable block; `None` exactly when no scan position
/// holds an acceptable block.
pub fn find_ref_block(bytes: &Vec<u8>, prefer_meta: bool) -> (r: Option<(u64, Block)>)
    ensures
        match r {
            Option::None => forall|p: int|
                spec_scan_pos(bytes@.len() as int, p) ==> !spec_block_parses_at(bytes@, p),
            Option::Some((pos, b)) => {
                &&& spec_scan_pos(bytes@.len() as int, pos as int)
                &&& spec_block_parses_at(bytes@, pos as int)
                &&& b.spec_type_consistent()
                &&& b.spec_metas_wf()
                &&& pos + spec_ver_to_block_size(b.spec_header().version) <= bytes.len()
                &&& crate::sbx_block::header::spec_header_matches(
                    b.spec_header(),
                    bytes@.subrange(pos as int, pos + 16),
                )
                &&& b.spec_header().crc == crate::sbx_block::spec_block_crc(
                    b.spec_header(),
                    bytes@.subrange(
                        pos + 16,
                        pos + spec_ver_to_block_size(b.spec_header().version),
                    ),
                )
                &&& (if prefer_meta && b.spec_is_meta() {
                    forall|p: int|
                        spec_scan_pos(bytes@.len() as int, p) && p < pos
                            ==> !spec_meta_block_at(bytes@, p)
                } else if prefer_meta {
                    (forall|p: int|
                        spec_scan_pos(bytes@.len() as int, p) ==> !spec_meta_block_at(bytes@, p))
                        && (forall|p: int|
                        spec_scan_pos(bytes@.len() as int, p) && p < pos
                            ==> !spec_block_parses_at(bytes@, p))
                } else {
                    forall|p: int|
                        spec_scan_pos(bytes@.len() as int, p) && p < pos
                            ==> !spec_block_parses_at(bytes@, p)
                })
            },
        },
{
    let ghost blen = bytes@.len() as int;
    let mut pos: usize = 0;
    let mut first_any: Option<(u64, Block)> = None;
    loop
        invariant
            pos <= bytes.len(),
            pos % 128 == 0,
            forall|p: int|
                spec_scan_pos(blen, p) && p < pos ==> !spec_meta_block_at(bytes@, p),
            blen == bytes@.len(),
            match first_any {
                Option::Some((fp, fb)) => {
                    &&& prefer_meta
                    &&& fp < pos
                    &&& spec_scan_pos(blen, fp as int)
                    &&& spec_block_parses_at(bytes@, fp as int)
                    &&& fb.spec_type_consistent()
                    &&& fb.spec_metas_wf()
                    &&& !fb.spec_is_meta()
                    &&& fp + spec_ver_to_block_size(fb.spec_header().version) <= bytes.len()
                    &&& crate::sbx_block::header::spec_header_matches(
                        fb.spec_header(),
                        bytes@.subrange(fp as int, fp + 16),
                    )
                    &&& fb.spec_header().crc == crate::sbx_block::spec_block_crc(
                        fb.spec_header(),
                        bytes@.subrange(
                            fp + 16,
                            fp + spec_ver_to_block_size(fb.spec_header().version),
                        ),
                    )
                    &&& forall|p: int|
                        spec_scan_pos(blen, p) && p < fp ==> !spec_block_parses_at(bytes@, p)
                },
                Option::None => forall|p: int|
                    spec_scan_pos(blen, p) && p < pos ==> !spec_block_parses_at(bytes@, p),
            },
        ensures
            forall|p: int| spec_scan_pos(blen, p) ==> !spec_meta_block_at(bytes@, p),
            match first_any {
                Option::Some((fp, fb)) => {
                    &&& prefer_meta
                    &&& spec_scan_pos(blen, fp as int)
                    &&& spec_block_parses_at(bytes@, fp as int)
                    &&& fb.spec_type_consistent()
                    &&& fb.spec_metas_wf()
                    &&& !fb.spec_is_meta()
                    &&& fp + spec_ver_to_block_size(fb.spec_header().version) <= bytes.len()
                    &&& crate::sbx_block::header::spec_header_matches(
                        fb.spec_header(),
                        bytes@.subrange(fp as int, fp + 16),
                    )
                    &&& fb.spec_header().crc == crate::sbx_block::spec_block_crc(
                        fb.spec_header(),
                        bytes@.subrange(
                            fp + 16,
                            fp + spec_ver_to_block_size(fb.spec_header().version),
                        ),
                    )
                    &&& forall|p: int|
                        spec_scan_pos(blen, p) && p < fp ==> !spec_block_parses_at(bytes@, p)
                },
                Option::None => forall|p: int|
                    spec_scan_pos(blen, p) ==> !spec_block_parses_at(bytes@, p),
            },
        decreases bytes.len() - pos,
    {
        if pos >= bytes.len() {
            proof {
                lemma_no_scan_pos_between(blen, pos as int, blen);
            }
            break ;
        }
        match parse_block_at(bytes, pos) {
            Some(block) => {
                if block.is_meta() {
                    proof {
                        assert(spec_meta_block_at(bytes@, pos as int));
                    }
                    return Some((pos as u64, block));
                }
                if !prefer_meta {
                    return Some((pos as u64, block));
                }
                match &first_any {
                    None => {
                        first_any = Some((pos as u64, block));
                    },
                    Some(_) => {},
                }
            },
            None => {},
        }
        if bytes.len() - pos < 128 {
            proof {
                lemma_no_scan_pos_between(blen, pos + 128, blen);
                lemma_scan_pos_step(blen, pos as int);
            }
            break ;
        }
        proof {
            lemma_scan_pos_step(blen, pos as int);
        }
        pos = pos + 128;
    }
    first_any
}

/// Between one scan position and the next there is no other.
proof fn lemma_scan_pos_step(len: int, pos: int)
    requires
        0 <= pos,
        pos % 128 == 0,
    ensures
        forall|p: int| spec_scan_pos(len, p) && pos <= p < pos + 128 ==> p == pos,
{
    assert forall|p: int|
        spec_scan_pos(len, p) && pos <= p < pos + 128 implies p == pos by {
        vstd::arithmetic::div_mod::lemma_fundamental_div_mod(p, 128);
        vstd::arithmetic::div_mod::lemma_fundamental_div_mod(pos, 128);
        assert(p == 128 * (p / 128) && pos == 128 * (pos / 128));
        assert(p - pos == 128 * (p / 128 - pos / 128)) by (nonlinear_arith)
            requires
                p == 128 * (p / 128),
                pos == 128 * (pos / 128),
        ;
        assert(p / 128 - pos / 128 == 0) by (nonlinear_arith)
            requires
                0 <= p - pos < 128,
                p - pos == 128 * (p / 128 - pos / 128),
        ;
    }
}

/// Scan positions do not reach past the container.
proof fn lemma_no_scan_pos_between(len: int, lo: int, hi: int)
    requires
        hi <= lo,
    ensures
        forall|p: int| spec_scan_pos(len, p) && p >= lo ==> !(p < hi),
{
}

/// Whether probing one sequence number confirms this burst level: an
/// acceptable block sits at the predicted position, carries the predicted
/// sequence number and the reference UID.
pub open spec fn spec_burst_probe_hit(
    b: Seq<u8>,
    version: Version,
    uid: [u8; 6],
    data: usize,
    parity: usize,
    burst: usize,
    seq: int,
) -> bool {
    let pos = crate::sbx_block::layout::spec_data_block_write_index(
        seq,
        Option::None,
        Option::Some((data, parity, burst)),
    ) * spec_ver_to_block_size(version);
    &&& pos + 4096 <= usize::MAX
    &&& pos <= b.len()
    &&& spec_block_parses_at(b, pos)
    &&& crate::byte_order::spec_be32(b[pos + 12], b[pos + 13], b[pos + 14], b[pos + 15]) == seq
    &&& b.subrange(pos + 6, pos + 12) == uid@
}

/// How many of the first `n` sequence numbers confirm this burst level.
pub open spec fn spec_burst_score_up_to(
    b: Seq<u8>,
    version: Version,
    uid: [u8; 6],
    data: usize,
    parity: usize,
    burst: usize,
    n: int,
) -> int
    decreases n,
{
    if n <= 0 {
        0
    } else {
        spec_burst_score_up_to(b, version, uid, data, parity, burst, n - 1) + if spec_burst_probe_hit(
            b,
            version,
            uid,
            data,
            parity,
            burst,
            n,
        ) {
            1int
        } else {
            0int
        }
    }
}

/// The match score of one burst level: confirmed probes over the first
/// sixteen sequence numbers.
pub open spec fn spec_burst_score(
    b: Seq<u8>,
    version: Version,
    uid: [u8; 6],
    data: usize,
    parity: usize,
    burst: usize,
) -> int {
    spec_burst_score_up_to(b, version, uid, data, parity, burst, 16)
}

/// The burst level whose predicted positions match stored sequence numbers
/// most often; ties go to the smaller level, and only a level that scores
/// at all is returned.
pub fn guess_burst_err_resistance_level(
    bytes: &Vec<u8>,
    version: Version,
    ref_uid: &[u8; 6],
    data: usize,
    parity: usize,
) -> (r: Option<usize>)
    requires
        1 <= data,
        1 <= parity,
        data + parity <= 256,
    ensures
        match r {
            Option::Some(b) => {
                &&& b <= 1000
                &&& spec_burst_score(bytes@, version, *ref_uid, data, parity, b) >= 1
                &&& forall|b2: usize|
                    b2 <= 1000 ==> #[trigger] spec_burst_score(
                        bytes@,
                        version,
                        *ref_uid,
                        data,
                        parity,
                        b2,
                    ) <= spec_burst_score(bytes@, version, *ref_uid, data, parity, b)
                &&& forall|b2: usize|
                    b2 < b ==> #[trigger] spec_burst_score(
                        bytes@,
                        version,
                        *ref_uid,
                        data,
                        parity,
                        b2,
                    ) < spec_burst_score(bytes@, version, *ref_uid, data, parity, b)
            },
            Option::None => forall|b2: usize|
                b2 <= 1000 ==> #[trigger] spec_burst_score(
                    bytes@,
                    version,
                    *ref_uid,
                    data,
                    parity,
                    b2,
                ) == 0,
        },
{
    let mut best: Option<usize> = None;
    let mut best_score: usize = 0;
    let mut burst: usize = 0;
    while burst <= 1000
        invariant
            burst <= 1001,
            1 <= data,
            1 <= parity,
            data + parity <= 256,
            match best {
                Option::Some(b) => {
                    &&& (b as int) < burst
                    &&& b <= 1000
                    &&& best_score >= 1
                    &&& best_score == spec_burst_score(bytes@, version, *ref_uid, data, parity, b)
                    &&& forall|b2: usize|
                        (b2 as int) < burst ==> #[trigger] spec_burst_score(
                            bytes@,
                            version,
                            *ref_uid,
                            data,
                            parity,
                            b2,
                        ) <= best_score
                    &&& forall|b2: usize|
                        b2 < b ==> #[trigger] spec_burst_score(
                            bytes@,
                            version,
                            *ref_uid,
                            data,
                            parity,
                            b2,
                        ) < best_score
                },
                Option::None => best_score == 0 && forall|b2: usize|
                    (b2 as int) < burst ==> #[trigger] spec_burst_score(
                        bytes@,
                        version,
                        *ref_uid,
                        data,
                        parity,
                        b2,
                    ) == 0,
            },
        decreases 1001 - burst,
    {
        let score = burst_score(bytes, version, ref_uid, data, parity, burst);
        if score > best_score {
            best = Some(burst);
            best_score = score;
        }
        burst = burst + 1;
    }
    best
}

/// Count the confirmed probes of one burst level.
fn burst_score(
    bytes: &Vec<u8>,
    version: Version,
    ref_uid: &[u8; 6],
    data: usize,
    parity: usize,
    burst: usize,
) -> (r: usize)
    requires
        1 <= data,
        1 <= parity,
        data + parity <= 256,
        burst <= 1000,
    ensures
        r == spec_burst_score(bytes@, version, *ref_uid, data, parity, burst),
        r <= 16,
{
    let mut score: usize = 0;
    let mut seq: u32 = 1;
    while seq <= 16
        invariant
            1 <= seq <= 17,
            score < seq,
            1 <= data,
            1 <= parity,
            data + parity <= 256,
            burst <= 1000,
            score == spec_burst_score_up_to(
                bytes@,
                version,
                *ref_uid,
                data,
                parity,
                burst,
                seq as int - 1,
            ),
        decreases 17 - seq,
    {
        let pos = calc_data_block_write_pos(version, seq, None, Some((data, parity, burst)));
        let mut hit = false;
        if pos <= usize::MAX as u64 - 4096 && (pos as usize) <= bytes.len() {
            match parse_block_at(bytes, pos as usize) {
                Some(block) => {
                    if block.get_seq_num() == seq && uid_eq(&block.get_uid(), ref_uid) {
                        hit = true;
                        proof {
                            let pi = pos as int;
                            let s16 = bytes@.subrange(pi, pi + 16);
                            assert(s16[12] == bytes@[pi + 12] && s16[13] == bytes@[pi + 13]
                                && s16[14] == bytes@[pi + 14] && s16[15] == bytes@[pi + 15]);
                            assert(s16.subrange(6, 12) =~= bytes@.subrange(pi + 6, pi + 12));
                            assert(block.spec_header().file_uid@ =~= ref_uid@);
                            assert(spec_burst_probe_hit(
                                bytes@,
                                version,
                                *ref_uid,
                                data,
                                parity,
                                burst,
                                seq as int,
                            ));
                        }
                    } else {
                        proof {
                            let pi = pos as int;
                            let s16 = bytes@.subrange(pi, pi + 16);
                            assert(s16[12] == bytes@[pi + 12] && s16[13] == bytes@[pi + 13]
                                && s16[14] == bytes@[pi + 14] && s16[15] == bytes@[pi + 15]);
                            assert(s16.subrange(6, 12) =~= bytes@.subrange(pi + 6, pi + 12));
                            if bytes@.subrange(pi + 6, pi + 12) == ref_uid@ {
                                assert(block.spec_header().file_uid@ == ref_uid@);
                                assert(block.spec_header().file_uid =~= *ref_uid);
                            }
                            assert(!spec_burst_probe_hit(
                                bytes@,
                                version,
                                *ref_uid,
                                data,
                                parity,
                                burst,
                                seq as int,
                            ));
                        }
                    }
                },
                None => {
                    proof {
                        assert(!spec_burst_probe_hit(
                            bytes@,
                            version,
                            *ref_uid,
                            data,
                            parity,
                            burst,
                            seq as int,
                        ));
                    }
                },
            }
        } else {
            proof {
                assert(!spec_burst_probe_hit(
                    bytes@,
                    version,
                    *ref_uid,
                    data,
                    parity,
                    burst,
                    seq as int,
                ));
            }
        }
        if hit {
            score = score + 1;
        }
        seq = seq + 1;
    }
    score
}

/// Whether two UIDs hold the same six bytes.
pub fn uid_eq(a: &[u8; 6], b: &[u8; 6]) -> (r: bool)
    ensures
        r == (a@ =~= b@),
{
    let r = a[0] == b[0] && a[1] == b[1] && a[2] == b[2] && a[3] == b[3] && a[4] == b[4] && a[5]
        == b[5];
    proof {
        if r {
            assert(a@ =~= b@);
        }
    }
    r
}

#[derive(Clone, Debug)]
pub struct DecodeStats {
    pub version: Version,
    pub uid: [u8; 6],
    pub blocks_decoded: u64,
    pub blocks_failed: u64,
    pub recorded_hash: Option<crate::multihash::HashBytes>,
    pub recorded_size: Option<u64>,
}

/// Decode a container image back into the original bytes.  Every block is
/// read at its canonical position, and its payload accepted only when the
/// block parses, its checksum matches, and UID and sequence number agree
/// with the expectation; the output is trimmed to the recorded size when
/// the metadata gives one.
pub fn decode_bytes(bytes: &Vec<u8>, burst: Option<usize>) -> (r: Result<
    (Vec<u8>, DecodeStats),
    DecodeError,
>)
    requires
        usize::MAX >= 0x80_0000_0000_0000,
        bytes.len() <= 0x1000_0000_0000,
    ensures
        match r {
            Ok((data, stats)) => match stats.recorded_size {
                Option::Some(s) => data.len() == s,
                Option::None => true,
            },
            Err(_) => true,
        },
        (r matches Result::Err(e) && e is RefBlockNotFound) <==> (forall|p: int|
            spec_scan_pos(bytes@.len() as int, p) ==> !spec_block_parses_at(bytes@, p)),
{
    let (ref_pos, ref_block) = match find_ref_block(bytes, true) {
        Some(x) => x,
        None => {
            return Err(DecodeError::RefBlockNotFound);
        },
    };
    let version = ref_block.get_version();
    let uid = ref_block.get_uid();
    let meta_on = ref_block.is_meta();
    let bs = ver_to_block_size(version);
    let ds = ver_to_data_size(version);
    let mut recorded_size: Option<u64> = None;
    let mut recorded_hash: Option<crate::multihash::HashBytes> = None;
    let mut rs_data: usize = 0;
    let mut rs_parity: usize = 0;
    match ref_block.metas() {
        None => {},
        Some(metas) => {
            match crate::sbx_block::metadata::get_meta_ref_by_id(MetadataID::FSZ, metas) {
                Some(Metadata::FSZ(s)) => {
                    recorded_size = Some(*s);
                },
                _ => {},
            }
            match crate::sbx_block::metadata::get_meta_ref_by_id(MetadataID::HSH, metas) {
                Some(Metadata::HSH(h)) => {
                    recorded_hash = Some(h.clone_hash());
                },
                _ => {},
            }
            match crate::sbx_block::metadata::get_meta_ref_by_id(MetadataID::RSD, metas) {
                Some(Metadata::RSD(d)) => {
                    rs_data = *d as usize;
                },
                _ => {},
            }
            match crate::sbx_block::metadata::get_meta_ref_by_id(MetadataID::RSP, metas) {
                Some(Metadata::RSP(p)) => {
                    rs_parity = *p as usize;
                },
                _ => {},
            }
        },
    }
    let data_par_burst: Option<(usize, usize, usize)> = if ver_uses_rs(version) {
        if rs_data == 0 || rs_parity == 0 || rs_data > 255 || rs_parity > 255 || rs_data
            + rs_parity > 256 {
            return Err(DecodeError::RsParamsMissing);
        }
        let b = match burst {
            Some(b) => {
                if b > 0xFFFF_FFFF {
                    return Err(DecodeError::BurstNotFound);
                }
                b
            },
            None => match guess_burst_err_resistance_level(bytes, version, &uid, rs_data, rs_parity) {
                Some(b) => b,
                None => {
                    return Err(DecodeError::BurstNotFound);
                },
            },
        };
        Some((rs_data, rs_parity, b))
    } else {
        None
    };
    let data_par: Option<(usize, usize)> = match data_par_burst {
        None => None,
        Some((d, p, _)) => Some((d, p)),
    };
    let mut out: Vec<u8> = Vec::new();
    let mut blocks_decoded: u64 = 0;
    let mut blocks_failed: u64 = 0;
    let mut seq: u32 = 1;
    let max_blocks = bytes.len() / 128 + 2;
    let mut steps: usize = 0;
    loop
        invariant
            usize::MAX >= 0x80_0000_0000_0000,
            bytes.len() <= 0x1000_0000_0000,
            1 <= seq,
            steps <= max_blocks,
            seq as int == 1 + steps,
            spec_dpb_ok(data_par_burst),
            match data_par {
                Option::None => data_par_burst is None,
                Option::Some((d, p)) => data_par_burst matches Option::Some((d2, p2, _)) && d
                    == d2 && p == p2 && 1 <= d && 1 <= p && d + p <= 512,
            },
            ds == spec_ver_to_block_size(version) - 16,
            1 <= ds <= 4080,
            bs == spec_ver_to_block_size(version),
            out.len() <= (steps as int + 1) * (ds as int),
            blocks_decoded <= steps,
            blocks_failed <= steps,
            steps <= 0x1000_0000_0000,
        decreases max_blocks - steps,
    {
        if steps >= max_blocks {
            break ;
        }
        if seq == 0xFFFF_FFFF {
            break ;
        }
        let pos = calc_data_block_write_pos(version, seq, Some(meta_on), data_par_burst);
        if pos > 0x7FFF_FFFF_FFFFu64 || pos as usize + bs > bytes.len() {
            break ;
        }
        let is_par = match data_par {
            None => false,
            Some((d, p)) => seq_num_is_parity(seq, d, p),
        };
        if !is_par {
            let chunk_index = match calc_data_chunk_write_index(seq, data_par) {
                Some(ci) => ci,
                None => {
                    proof {
                        assert(false);
                    }
                    0
                },
            };
            match parse_block_at(bytes, pos as usize) {
                Some(block) => {
                    if block.get_seq_num() == seq && uid_eq(&block.get_uid(), &uid)
                        && !block.is_meta() {
                        let payload = copy_block_at(bytes, pos as usize + 16, ds);
                        proof {
                            lemma_chunk_index_le(seq as int, data_par);
                            assert((chunk_index as int) * (ds as int) + ds <= (steps as int + 1)
                                * (ds as int)) by (nonlinear_arith)
                                requires
                                    0 <= chunk_index <= steps,
                                    0 < ds,
                            ;
                            assert((steps as int + 1) * (ds as int) <= 0x1000_0000_1000u64
                                * 4096) by (nonlinear_arith)
                                requires
                                    0 <= steps <= 0x1000_0000_0000u64,
                                    0 < ds <= 4096,
                            ;
                        }
                        let chunk_pos = chunk_index * (ds as u64);
                        write_chunk_at(&mut out, chunk_pos, &payload);
                        blocks_decoded = blocks_decoded + 1;
                    } else {
                        blocks_failed = blocks_failed + 1;
                    }
                },
                None => {
                    blocks_failed = blocks_failed + 1;
                },
            }
        }
        proof {
            assert((steps as int + 2) * (ds as int) >= (steps as int + 1) * (ds as int))
                by (nonlinear_arith)
                requires
                    0 <= steps,
                    0 < ds,
            ;
        }
        seq = seq + 1;
        steps = steps + 1;
    }
    match recorded_size {
        None => {
            // without metadata the original length is unknown: strip the
            // trailing padding bytes on a best-effort basis
            while out.len() > 0
                invariant
                    true,
                decreases out.len(),
            {
                if out[out.len() - 1] == 0x1A {
                    let _ = out.pop();
                } else {
                    break ;
                }
            }
        },
        Some(s) => {
            if s > 0x7FFF_FFFF_FFFFu64 {
                return Err(DecodeError::OutputTooLarge);
            }
            resize_to(&mut out, s as usize);
        },
    }
    let stats = DecodeStats {
        version,
        uid,
        blocks_decoded,
        blocks_failed,
        recorded_hash,
        recorded_size,
    };
    Ok((out, stats))
}

/// A data chunk's rank never exceeds its sequence index.
proof fn lemma_chunk_index_le(seq: int, data_par: Option<(usize, usize)>)
    requires
        1 <= seq,
        match data_par {
            Option::None => true,
            Option::Some((d, p)) => 1 <= d && 1 <= p && d + p <= 512,
        },
    ensures
        match crate::sbx_block::layout::spec_data_chunk_index(
            seq,
            match data_par {
                Option::None => Option::None,
                Option::Some((d, p)) => Option::Some((d as int, p as int)),
            },
        ) {
            Option::Some(ci) => ci <= seq - 1,
            Option::None => true,
        },
{
    match data_par {
        Option::None => {},
        Option::Some((du, pu)) => {
            let d = du as int;
            let p = pu as int;
            let n = seq - 1;
            let t = d + p;
            vstd::arithmetic::div_mod::lemma_fundamental_div_mod(n, t);
            vstd::arithmetic::div_mod::lemma_mod_bound(n, t);
            vstd::arithmetic::div_mod::lemma_div_pos_is_pos(n, t);
            let k = n / t;
            let r = n % t;
            assert(k * d + r <= n) by (nonlinear_arith)
                requires
                    n == t * k + r,
                    1 <= d <= t,
                    0 <= r,
                    0 <= k,
            ;
        },
    }
}

/// Write a payload at a byte position in the output, zero-filling any gap
/// and leaving every byte outside the written region as it was.
fn write_chunk_at(out: &mut Vec<u8>, pos: u64, payload: &Vec<u8>)
    requires
        pos + payload.len() <= usize::MAX,
    ensures
        final(out).len() == (if old(out).len() > pos + payload.len() {
            old(out).len() as int
        } else {
            pos + payload.len()
        }),
        final(out)@.subrange(pos as int, pos + payload.len()) == payload@,
        forall|i: int|
            0 <= i < final(out).len() && !(pos <= i < pos + payload.len())
                ==> final(out)@[i] == (if i < old(out).len() {
                old(out)@[i]
            } else {
                0u8
            }),
{
    let mut buf = crate::container::ContainerBuf::from_bytes(std_take(out));
    buf.seek_to(pos);
    buf.write(payload);
    let bytes = buf.into_bytes();
    proof {
        assert(bytes@.subrange(pos as int, pos + payload@.len() as int) =~= payload@);
    }
    *out = bytes;
}

/// Move a vector out, leaving an empty one.
fn std_take(v: &mut Vec<u8>) -> (r: Vec<u8>)
    ensures
        r@ == old(v)@,
        final(v)@ == Seq::<u8>::empty(),
{
    let mut t: Vec<u8> = Vec::new();
    let mut i: usize = 0;
    while i < v.len()
        invariant
            i <= v.len(),
            t@ == v@.subrange(0, i as int),
            v@ == old(v)@,
        decreases v.len() - i,
    {
        t.push(v[i]);
        proof {
            assert(v@.subrange(0, i + 1) =~= v@.subrange(0, i as int).push(v@[i as int]));
        }
        i = i + 1;
    }
    v.clear();
    proof {
        assert(old(v)@.subrange(0, old(v)@.len() as int) =~= old(v)@);
    }
    t
}

/// Trim or zero-extend the output to the recorded size, keeping what both
/// lengths cover.
fn resize_to(out: &mut Vec<u8>, len: usize)
    ensures
        final(out).len() == len,
        forall|i: int|
            0 <= i < len && i < old(out).len() ==> final(out)@[i] == old(out)@[i],
{
    let mut v: Vec<u8> = Vec::new();
    let mut i: usize = 0;
    while i < len
        invariant
            i <= len,
            v.len() == i,
            out@ == old(out)@,
            forall|j: int| 0 <= j < i && j < out.len() ==> v@[j] == out@[j],
        decreases len - i,
    {
        if i < out.len() {
            v.push(out[i]);
        } else {
            v.push(0);
        }
        i = i + 1;
    }
    *out = v;
}

/// Multi-pass decode: bring an existing decoded image up to date in place.
/// Every verified block's payload is written at its chunk position, except
/// that with skipping enabled a region already holding data (present and
/// not blank) is left alone; the image is never truncated.
pub fn decode_bytes_multi_pass(
    bytes: &Vec<u8>,
    burst: Option<usize>,
    out: &mut Vec<u8>,
    skip_good: bool,
) -> (r: Result<DecodeStats, DecodeError>)
    requires
        usize::MAX >= 0x80_0000_0000_0000,
        bytes.len() <= 0x1000_0000_0000,
        old(out).len() <= 0x1000_0000_0000,
    ensures
        r is Ok ==> final(out).len() >= old(out).len(),
        (r matches Result::Err(e) && e is RefBlockNotFound) <==> (forall|p: int|
            spec_scan_pos(bytes@.len() as int, p) ==> !spec_block_parses_at(bytes@, p)),
        r is Err ==> *final(out) == *old(out),
{
    let (_, ref_block) = match find_ref_block(bytes, true) {
        Some(x) => x,
        None => {
            return Err(DecodeError::RefBlockNotFound);
        },
    };
    let version = ref_block.get_version();
    let uid = ref_block.get_uid();
    let meta_on = ref_block.is_meta();
    let bs = ver_to_block_size(version);
    let ds = ver_to_data_size(version);
    let mut rs_data: usize = 0;
    let mut rs_parity: usize = 0;
    match ref_block.metas() {
        None => {},
        Some(metas) => {
            match crate::sbx_block::metadata::get_meta_ref_by_id(MetadataID::RSD, metas) {
                Some(Metadata::RSD(d)) => {
                    rs_data = *d as usize;
                },
                _ => {},
            }
            match crate::sbx_block::metadata::get_meta_ref_by_id(MetadataID::RSP, metas) {
                Some(Metadata::RSP(p)) => {
                    rs_parity = *p as usize;
                },
                _ => {},
            }
        },
    }
    let data_par_burst: Option<(usize, usize, usize)> = if ver_uses_rs(version) {
        if rs_data == 0 || rs_parity == 0 || rs_data > 255 || rs_parity > 255 || rs_data
            + rs_parity > 256 {
            return Err(DecodeError::RsParamsMissing);
        }
        let b = match burst {
            Some(b) => {
                if b > 0xFFFF_FFFF {
                    return Err(DecodeError::BurstNotFound);
                }
                b
            },
            None => match guess_burst_err_resistance_level(bytes, version, &uid, rs_data, rs_parity) {
                Some(b) => b,
                None => {
                    return Err(DecodeError::BurstNotFound);
                },
            },
        };
        Some((rs_data, rs_parity, b))
    } else {
        None
    };
    let data_par: Option<(usize, usize)> = match data_par_burst {
        None => None,
        Some((d, p, _)) => Some((d, p)),
    };
    let mut blocks_decoded: u64 = 0;
    let mut blocks_failed: u64 = 0;
    let mut seq: u32 = 1;
    let max_blocks = bytes.len() / 128 + 2;
    let mut steps: usize = 0;
    loop
        invariant
            usize::MAX >= 0x80_0000_0000_0000,
            bytes.len() <= 0x1000_0000_0000,
            1 <= seq,
            steps <= max_blocks,
            seq as int == 1 + steps,
            crate::sbx_block::layout::spec_dpb_ok(data_par_burst),
            match data_par {
                Option::None => data_par_burst is None,
                Option::Some((d, p)) => data_par_burst matches Option::Some((d2, p2, _)) && d
                    == d2 && p == p2 && 1 <= d && 1 <= p && d + p <= 512,
            },
            ds == spec_ver_to_block_size(version) - 16,
            1 <= ds <= 4080,
            bs == spec_ver_to_block_size(version),
            out.len() <= 0x1000_0000_0000 + (steps as int + 1) * (ds as int),
            out.len() >= old(out).len(),
            blocks_decoded <= steps,
            blocks_failed <= steps,
            steps <= 0x1000_0000_0000,
        decreases max_blocks - steps,
    {
        if steps >= max_blocks {
            break ;
        }
        if seq == 0xFFFF_FFFF {
            break ;
        }
        let pos = calc_data_block_write_pos(version, seq, Some(meta_on), data_par_burst);
        if pos > 0x7FFF_FFFF_FFFFu64 || pos as usize + bs > bytes.len() {
            break ;
        }
        let is_par = match data_par {
            None => false,
            Some((d, p)) => seq_num_is_parity(seq, d, p),
        };
        if !is_par {
            let chunk_index = match calc_data_chunk_write_index(seq, data_par) {
                Some(ci) => ci,
                None => {
                    proof {
                        assert(false);
                    }
                    0
                },
            };
            match parse_block_at(bytes, pos as usize) {
                Some(block) => {
                    if block.get_seq_num() == seq && uid_eq(&block.get_uid(), &uid)
                        && !block.is_meta() {
                        proof {
                            lemma_chunk_index_le(seq as int, data_par);
                            assert((chunk_index as int) * (ds as int) + ds <= (steps as int + 1)
                                * (ds as int)) by (nonlinear_arith)
                                requires
                                    0 <= chunk_index <= steps,
                                    0 < ds,
                            ;
                            assert((steps as int + 1) * (ds as int) <= 0x1000_0000_1000u64
                                * 4096) by (nonlinear_arith)
                                requires
                                    0 <= steps <= 0x1000_0000_0000u64,
                                    0 < ds <= 4096,
                            ;
                        }
                        let chunk_pos = chunk_index * (ds as u64);
                        let eof = chunk_pos >= out.len() as u64;
                        let do_write = if skip_good {
                            let existing: Vec<u8> = if eof {
                                Vec::new()
                            } else {
                                let start = chunk_pos as usize;
                                let end = if start + ds <= out.len() {
                                    start + ds
                                } else {
                                    out.len()
                                };
                                copy_block_at(out, start, end - start)
                            };
                            crate::multi_pass::should_write_data_chunk(&existing, eof)
                        } else {
                            true
                        };
                        if do_write {
                            let payload = copy_block_at(bytes, pos as usize + 16, ds);
                            write_chunk_at(out, chunk_pos, &payload);
                            blocks_decoded = blocks_decoded + 1;
                        }
                    } else {
                        blocks_failed = blocks_failed + 1;
                    }
                },
                None => {
                    blocks_failed = blocks_failed + 1;
                },
            }
        }
        proof {
            assert((steps as int + 2) * (ds as int) >= (steps as int + 1) * (ds as int))
                by (nonlinear_arith)
                requires
                    0 <= steps,
                    0 < ds,
            ;
        }
        seq = seq + 1;
        steps = steps + 1;
    }
    let stats = DecodeStats {
        version,
        uid,
        blocks_decoded,
        blocks_failed,
        recorded_hash: None,
        recorded_size: None,
    };
    Ok(stats)
}

} // verus!
