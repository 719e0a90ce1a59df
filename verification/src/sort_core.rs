//! The sorter: read every block of a container, wherever it sits, and lay a
//! new container out with each valid block at its canonical position for
//! the chosen burst level.

use vstd::prelude::*;

use crate::container::ContainerBuf;
use crate::decode_core::{copy_block_at, find_ref_block, parse_block_at, uid_eq, DecodeError};
use crate::sbx_block::metadata::{Metadata, MetadataID};
use crate::sbx_block::{calc_data_block_write_pos, calc_meta_block_all_write_pos_s};
use crate::sbx_specs::{ver_to_block_size, ver_uses_rs};

verus! {

#[derive(Clone, Debug)]
pub struct SortStats {
    pub blocks_sorted: u64,
    pub blocks_invalid: u64,
    pub meta_blocks_sorted: u64,
}

/// Produce a container with every valid block at its canonical position.
/// Metadata copies land on the metadata positions; a data block lands where
/// its sequence number belongs under the burst level.  In a dry run the
/// placement is computed but no container is produced.
pub fn sort_container(bytes: &Vec<u8>, burst: Option<usize>, dry_run: bool) -> (r: Result<
    (Option<Vec<u8>>, SortStats),
    DecodeError,
>)
    requires
        usize::MAX >= 0x80_0000_0000_0000,
        bytes.len() <= 0x1000_0000_0000,
    ensures
        match r {
            Ok((out, stats)) => (out is Some) == !dry_run,
            Err(_) => true,
        },
        (r matches Result::Err(e) && e is RefBlockNotFound) <==> (forall|p: int|
            crate::decode_core::spec_scan_pos(bytes@.len() as int, p)
                ==> !crate::decode_core::spec_block_parses_at(bytes@, p)),
{
    let (_, ref_block) = match find_ref_block(bytes, true) {
        Some(x) => x,
        None => {
            return Err(DecodeError::RefBlockNotFound);
        },
    };
    let version = ref_block.get_version();
    let uid = ref_block.get_uid();
    let bs = ver_to_block_size(version);
    let mut rs_data: usize = 0;
    let mut rs_parity: usize = 0;
    match ref_block.metas() {
        None => {},
        Some(metas) => {
            match crate::sbx_block::metadata::get_meta_ref_by_id(MetadataID::RSD, metas) {
                Some(Metadata::RSD(d)) => {
                    rs_data = *d as usize;
                },
                _ => {},
            }
            match crate::sbx_block::metadata::get_meta_ref_by_id(MetadataID::RSP, metas) {
                Some(Metadata::RSP(p)) => {
                    rs_parity = *p as usize;
                },
                _ => {},
            }
        },
    }
    let data_par_burst: Option<(usize, usize, usize)> = if ver_uses_rs(version) {
        if rs_data == 0 || rs_parity == 0 || rs_data > 255 || rs_parity > 255 || rs_data
            + rs_parity > 256 {
            return Err(DecodeError::RsParamsMissing);
        }
        let b = match burst {
            Some(b) => {
                if b > 0xFFFF_FFFF {
                    return Err(DecodeError::BurstNotFound);
                }
                b
            },
            None => match crate::decode_core::guess_burst_err_resistance_level(
                bytes,
                version,
                &uid,
                rs_data,
                rs_parity,
            ) {
                Some(b) => b,
                None => {
                    return Err(DecodeError::BurstNotFound);
                },
            },
        };
        Some((rs_data, rs_parity, b))
    } else {
        None
    };
    let meta_pos_s = calc_meta_block_all_write_pos_s(version, data_par_burst);
    let mut out = ContainerBuf::new();
    let mut blocks_sorted: u64 = 0;
    let mut blocks_invalid: u64 = 0;
    let mut meta_blocks_sorted: u64 = 0;
    let mut meta_written: usize = 0;
    let mut pos: usize = 0;
    let mut steps: usize = 0;
    let max_steps = bytes.len() / 128 + 2;
    while steps < max_steps
        invariant
            usize::MAX >= 0x80_0000_0000_0000,
            bytes.len() <= 0x1000_0000_0000,
            bs == crate::sbx_specs::spec_ver_to_block_size(version),
            16 < bs <= 4096,
            crate::sbx_block::layout::spec_dpb_ok(data_par_burst),
            meta_written <= meta_pos_s.len(),
            forall|t: int|
                0 <= t < meta_pos_s.len() ==> 0 <= #[trigger] meta_pos_s@[t] <= 513
                    * 0x1_0000_0000u64 * 4096,
            out.spec_bytes().len() <= 0x41_0000_0000_0000,
            blocks_sorted <= steps,
            blocks_invalid <= steps,
            meta_blocks_sorted <= steps,
            pos == steps * bs,
            steps <= max_steps,
        decreases max_steps - steps,
    {
        if pos >= bytes.len() || bytes.len() - pos < bs {
            break ;
        }
        match parse_block_at(bytes, pos) {
            Some(block) => {
                if uid_eq(&block.get_uid(), &uid) {
                    let blk_bytes = copy_block_at(bytes, pos, bs);
                    if block.is_meta() {
                        if meta_written < meta_pos_s.len() {
                            out.seek_to(meta_pos_s[meta_written]);
                            out.write(&blk_bytes);
                            meta_written = meta_written + 1;
                            meta_blocks_sorted = meta_blocks_sorted + 1;
                        }
                    } else {
                        let seq = block.get_seq_num();
                        proof {
                            crate::sbx_block::layout::lemma_index_bound(
                                seq as int,
                                Option::None,
                                data_par_burst,
                            );
                            assert(crate::sbx_block::layout::spec_data_block_write_index(
                                seq as int,
                                Option::None,
                                data_par_burst,
                            ) * (bs as int) <= 0x400_0000_0000u64 * 4096) by (nonlinear_arith)
                                requires
                                    0 <= crate::sbx_block::layout::spec_data_block_write_index(
                                        seq as int,
                                        Option::None,
                                        data_par_burst,
                                    ) <= 0x400_0000_0000u64,
                                    0 < bs <= 4096,
                            ;
                        }
                        let dest = calc_data_block_write_pos(version, seq, None, data_par_burst);
                        out.seek_to(dest);
                        out.write(&blk_bytes);
                        blocks_sorted = blocks_sorted + 1;
                    }
                } else {
                    blocks_invalid = blocks_invalid + 1;
                }
            },
            None => {
                blocks_invalid = blocks_invalid + 1;
            },
        }
        proof {
            assert((steps as int + 1) * (bs as int) == (steps as int) * (bs as int) + bs)
                by (nonlinear_arith);
            assert((steps as int + 1) * (bs as int) <= 0x1000_0000_2000u64 * 4096)
                by (nonlinear_arith)
                requires
                    0 <= steps <= 0x1000_0000_0000u64,
                    0 < bs <= 4096,
            ;
        }
        pos = pos + bs;
        steps = steps + 1;
    }
    let stats = SortStats { blocks_sorted, blocks_invalid, meta_blocks_sorted };
    if dry_run {
        Ok((None, stats))
    } else {
        Ok((Some(out.into_bytes()), stats))
    }
}

/// Multi-pass sort: bring an existing sorted container up to date in
/// place.  Every valid block is placed at its canonical position, except
/// that a position already holding the same block (same version, UID and
/// sequence number) is left alone; the image is never truncated.
pub fn sort_container_multi_pass(
    bytes: &Vec<u8>,
    burst: Option<usize>,
    existing: &mut Vec<u8>,
) -> (r: Result<SortStats, DecodeError>)
    requires
        usize::MAX >= 0x80_0000_0000_0000,
        bytes.len() <= 0x1000_0000_0000,
        old(existing).len() <= 0x1000_0000_0000,
    ensures
        r is Ok ==> final(existing).len() >= old(existing).len(),
        r is Err ==> *final(existing) == *old(existing),
        (r matches Result::Err(e) && e is RefBlockNotFound) <==> (forall|p: int|
            crate::decode_core::spec_scan_pos(bytes@.len() as int, p)
                ==> !crate::decode_core::spec_block_parses_at(bytes@, p)),
{
    let (_, ref_block) = match find_ref_block(bytes, true) {
        Some(x) => x,
        None => {
            return Err(DecodeError::RefBlockNotFound);
        },
    };
    let version = ref_block.get_version();
    let uid = ref_block.get_uid();
    let bs = ver_to_block_size(version);
    let mut rs_data: usize = 0;
    let mut rs_parity: usize = 0;
    match ref_block.metas() {
        None => {},
        Some(metas) => {
            match crate::sbx_block::metadata::get_meta_ref_by_id(MetadataID::RSD, metas) {
                Some(Metadata::RSD(d)) => {
                    rs_data = *d as usize;
                },
                _ => {},
            }
            match crate::sbx_block::metadata::get_meta_ref_by_id(MetadataID::RSP, metas) {
                Some(Metadata::RSP(p)) => {
                    rs_parity = *p as usize;
                },
                _ => {},
            }
        },
    }
    let data_par_burst: Option<(usize, usize, usize)> = if ver_uses_rs(version) {
        if rs_data == 0 || rs_parity == 0 || rs_data > 255 || rs_parity > 255 || rs_data
            + rs_parity > 256 {
            return Err(DecodeError::RsParamsMissing);
        }
        let b = match burst {
            Some(b) => {
                if b > 0xFFFF_FFFF {
                    return Err(DecodeError::BurstNotFound);
                }
                b
            },
            None => match crate::decode_core::guess_burst_err_resistance_level(
                bytes,
                version,
                &uid,
                rs_data,
                rs_parity,
            ) {
                Some(b) => b,
                None => {
                    return Err(DecodeError::BurstNotFound);
                },
            },
        };
        Some((rs_data, rs_parity, b))
    } else {
        None
    };
    let meta_pos_s = calc_meta_block_all_write_pos_s(version, data_par_burst);
    let mut out = ContainerBuf::from_bytes(take_vec(existing));
    let ghost base_len = out.spec_bytes().len();
    let mut blocks_sorted: u64 = 0;
    let mut blocks_invalid: u64 = 0;
    let mut meta_blocks_sorted: u64 = 0;
    let mut meta_written: usize = 0;
    let mut pos: usize = 0;
    let mut steps: usize = 0;
    let max_steps = bytes.len() / 128 + 2;
    while steps < max_steps
        invariant
            usize::MAX >= 0x80_0000_0000_0000,
            bytes.len() <= 0x1000_0000_0000,
            bs == crate::sbx_specs::spec_ver_to_block_size(version),
            16 < bs <= 4096,
            crate::sbx_block::layout::spec_dpb_ok(data_par_burst),
            meta_written <= meta_pos_s.len(),
            forall|t: int|
                0 <= t < meta_pos_s.len() ==> 0 <= #[trigger] meta_pos_s@[t] <= 513
                    * 0x1_0000_0000u64 * 4096,
            out.spec_bytes().len() <= 0x41_0000_0000_0000,
            out.spec_bytes().len() >= base_len,
            base_len == old(existing)@.len(),
            blocks_sorted <= steps,
            blocks_invalid <= steps,
            meta_blocks_sorted <= steps,
            pos == steps * bs,
            steps <= max_steps,
        decreases max_steps - steps,
    {
        if pos >= bytes.len() || bytes.len() - pos < bs {
            break ;
        }
        match parse_block_at(bytes, pos) {
            Some(block) => {
                if uid_eq(&block.get_uid(), &uid) {
                    let blk_bytes = copy_block_at(bytes, pos, bs);
                    let dest: Option<u64> = if block.is_meta() {
                        if meta_written < meta_pos_s.len() {
                            let d = meta_pos_s[meta_written];
                            meta_written = meta_written + 1;
                            Some(d)
                        } else {
                            None
                        }
                    } else {
                        let seq = block.get_seq_num();
                        proof {
                            crate::sbx_block::layout::lemma_index_bound(
                                seq as int,
                                Option::None,
                                data_par_burst,
                            );
                            assert(crate::sbx_block::layout::spec_data_block_write_index(
                                seq as int,
                                Option::None,
                                data_par_burst,
                            ) * (bs as int) <= 0x400_0000_0000u64 * 4096) by (nonlinear_arith)
                                requires
                                    0 <= crate::sbx_block::layout::spec_data_block_write_index(
                                        seq as int,
                                        Option::None,
                                        data_par_burst,
                                    ) <= 0x400_0000_0000u64,
                                    0 < bs <= 4096,
                            ;
                        }
                        Some(calc_data_block_write_pos(version, seq, None, data_par_burst))
                    };
                    match dest {
                        None => {},
                        Some(d) => {
                            out.seek_to(d);
                            let (existing_region, eof) = match out.read_at_cursor(bs) {
                                None => (Vec::new(), true),
                                Some(v) => (v, false),
                            };
                            if crate::multi_pass::should_write_block(
                                &existing_region,
                                eof,
                                block.header(),
                            ) {
                                out.seek_to(d);
                                out.write(&blk_bytes);
                                if block.is_meta() {
                                    meta_blocks_sorted = meta_blocks_sorted + 1;
                                } else {
                                    blocks_sorted = blocks_sorted + 1;
                                }
                            } else {
                                if block.is_meta() {
                                    meta_blocks_sorted = meta_blocks_sorted + 1;
                                } else {
                                    blocks_sorted = blocks_sorted + 1;
                                }
                            }
                        },
                    }
                } else {
                    blocks_invalid = blocks_invalid + 1;
                }
            },
            None => {
                blocks_invalid = blocks_invalid + 1;
            },
        }
        proof {
            assert((steps as int + 1) * (bs as int) == (steps as int) * (bs as int) + bs)
                by (nonlinear_arith);
            assert((steps as int + 1) * (bs as int) <= 0x1000_0000_2000u64 * 4096)
                by (nonlinear_arith)
                requires
                    0 <= steps <= 0x1000_0000_0000u64,
                    0 < bs <= 4096,
            ;
        }
        pos = pos + bs;
        steps = steps + 1;
    }
    *existing = out.into_bytes();
    Ok(SortStats { blocks_sorted, blocks_invalid, meta_blocks_sorted })
}

/// Move a vector out, leaving an empty one.
fn take_vec(v: &mut Vec<u8>) -> (r: Vec<u8>)
    ensures
        r@ == old(v)@,
        final(v)@ == Seq::<u8>::empty(),
{
    let mut t: Vec<u8> = Vec::new();
    let mut i: usize = 0;
    while i < v.len()
        invariant
            i <= v.len(),
            t@ == v@.subrange(0, i as int),
            v@ == old(v)@,
        decreases v.len() - i,
    {
        t.push(v[i]);
        proof {
            assert(v@.subrange(0, i + 1) =~= v@.subrange(0, i as int).push(v@[i as int]));
        }
        i = i + 1;
    }
    v.clear();
    proof {
        assert(old(v)@.subrange(0, old(v)@.len() as int) =~= old(v)@);
    }
    t
}

} // verus!
