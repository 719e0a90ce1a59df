//! In-place repair: metadata copies are votes for each other, and each RS
//! set is rebuilt from its surviving members at their canonical positions.

use vstd::prelude::*;

use crate::decode_core::{copy_block_at, find_ref_block, parse_block_at, uid_eq, DecodeError};
use crate::rs_codec::repairer::RSRepairer;
use crate::sbx_block::metadata::{Metadata, MetadataID};
use crate::sbx_block::{calc_meta_block_all_write_pos_s, store_range};
use crate::sbx_specs::{ver_to_block_size, ver_to_data_size, ver_uses_rs};

verus! {

#[derive(Clone, Debug)]
pub struct RepairStats {
    pub meta_blocks_repaired: u64,
    pub sets_total: u64,
    pub sets_repaired: u64,
    pub sets_failed: u64,
    pub blocks_repaired: u64,
}

/// Repair a container in place.  A valid metadata copy rewrites the broken
/// ones; each RS set with enough valid members has its missing members
/// reconstructed and written back at their canonical positions.
pub fn repair_container(bytes: &mut Vec<u8>, burst: Option<usize>) -> (r: Result<
    RepairStats,
    DecodeError,
>)
    requires
        usize::MAX >= 0x80_0000_0000_0000,
        old(bytes).len() <= 0x1000_0000_0000,
    ensures
        final(bytes).len() == old(bytes).len(),
        (r matches Result::Err(e) && e is RefBlockNotFound) <==> (forall|p: int|
            crate::decode_core::spec_scan_pos(old(bytes)@.len() as int, p)
                ==> !crate::decode_core::spec_block_parses_at(old(bytes)@, p)),
{
    let (_, ref_block) = match find_ref_block(bytes, true) {
        Some(x) => x,
        None => {
            return Err(DecodeError::RefBlockNotFound);
        },
    };
    let version = ref_block.get_version();
    let uid = ref_block.get_uid();
    let bs = ver_to_block_size(version);
    let ds = ver_to_data_size(version);
    if !ver_uses_rs(version) {
        return Err(DecodeError::RsParamsMissing);
    }
    let mut rs_data: usize = 0;
    let mut rs_parity: usize = 0;
    match ref_block.metas() {
        None => {},
        Some(metas) => {
            match crate::sbx_block::metadata::get_meta_ref_by_id(MetadataID::RSD, metas) {
                Some(Metadata::RSD(d)) => {
                    rs_data = *d as usize;
                },
                _ => {},
            }
            match crate::sbx_block::metadata::get_meta_ref_by_id(MetadataID::RSP, metas) {
                Some(Metadata::RSP(p)) => {
                    rs_parity = *p as usize;
                },
                _ => {},
            }
        },
    }
    if rs_data == 0 || rs_parity == 0 || rs_data > 255 || rs_parity > 255 || rs_data + rs_parity
        > 256 {
        return Err(DecodeError::RsParamsMissing);
    }
    let b = match burst {
        Some(b) => {
            if b > 0xFFFF_FFFF {
                return Err(DecodeError::BurstNotFound);
            }
            b
        },
        None => match crate::decode_core::guess_burst_err_resistance_level(
            bytes,
            version,
            &uid,
            rs_data,
            rs_parity,
        ) {
            Some(b) => b,
            None => {
                return Err(DecodeError::BurstNotFound);
            },
        },
    };
    // metadata repair: any valid copy rewrites the rest
    let mut meta_blocks_repaired: u64 = 0;
    let meta_pos_s = calc_meta_block_all_write_pos_s(version, Some((rs_data, rs_parity, b)));
    let mut good_meta: Option<Vec<u8>> = None;
    let mut mi: usize = 0;
    while mi < meta_pos_s.len()
        invariant
            bytes.len() == old(bytes).len(),
            bs == crate::sbx_specs::spec_ver_to_block_size(version),
            16 < bs <= 4096,
            forall|t: int|
                0 <= t < meta_pos_s.len() ==> 0 <= #[trigger] meta_pos_s@[t] <= 513
                    * 0x1_0000_0000u64 * 4096,
            match good_meta {
                Option::Some(g) => g.len() == bs,
                Option::None => true,
            },
        decreases meta_pos_s.len() - mi,
    {
        let p = meta_pos_s[mi];
        if p + (bs as u64) <= bytes.len() as u64 {
            match parse_block_at(bytes, p as usize) {
                Some(blk) => {
                    if blk.is_meta() && uid_eq(&blk.get_uid(), &uid) {
                        let copy = copy_block_at(bytes, p as usize, bs);
                        good_meta = Some(copy);
                    }
                },
                None => {},
            }
        }
        mi = mi + 1;
    }
    match &good_meta {
        None => {},
        Some(g) => {
            let mut mj: usize = 0;
            while mj < meta_pos_s.len()
                invariant
                    bytes.len() == old(bytes).len(),
                    g.len() == bs,
                    16 < bs <= 4096,
                    forall|t: int|
                        0 <= t < meta_pos_s.len() ==> 0 <= #[trigger] meta_pos_s@[t] <= 513
                            * 0x1_0000_0000u64 * 4096,
                    meta_blocks_repaired <= mj,
                decreases meta_pos_s.len() - mj,
            {
                let p = meta_pos_s[mj];
                if p + (bs as u64) <= bytes.len() as u64 {
                    let already_good = match parse_block_at(bytes, p as usize) {
                        Some(blk) => blk.is_meta() && uid_eq(&blk.get_uid(), &uid),
                        None => false,
                    };
                    if !already_good {
                        store_range(bytes, p as usize, g);
                        meta_blocks_repaired = meta_blocks_repaired + 1;
                    }
                }
                mj = mj + 1;
            }
        },
    }
    // data repair, one RS set at a time
    let total = rs_data + rs_parity;
    let mut sets_total: u64 = 0;
    let mut sets_repaired: u64 = 0;
    let mut sets_failed: u64 = 0;
    let mut blocks_repaired: u64 = 0;
    let mut first_seq: u32 = 1;
    let max_sets = bytes.len() / 128 + 2;
    let mut set_i: usize = 0;
    while set_i < max_sets
        invariant
            usize::MAX >= 0x80_0000_0000_0000,
            bytes.len() == old(bytes).len(),
            bytes.len() <= 0x1000_0000_0000,
            1 <= rs_data <= 255,
            1 <= rs_parity <= 255,
            rs_data + rs_parity <= 256,
            total == rs_data + rs_parity,
            b <= 0xFFFF_FFFF,
            1 <= first_seq,
            first_seq as int == 1 + (set_i as int) * (total as int),
            set_i <= max_sets,
            bs == crate::sbx_specs::spec_ver_to_block_size(version),
            ds == bs - 16,
            16 < bs <= 4096,
            sets_total <= set_i,
            sets_repaired <= set_i,
            sets_failed <= set_i,
            blocks_repaired <= (set_i as int) * 256,
            max_sets <= 0x1000_0000_0000,
        decreases max_sets - set_i,
    {
        if first_seq as u64 + total as u64 > 0xFFFF_FE00u64 {
            break ;
        }
        // check that the whole set lies inside the container
        let mut all_in: bool = true;
        let mut k: usize = 0;
        while k < total
            invariant
                k <= total,
                1 <= first_seq,
                first_seq + total <= 0xFFFF_FFFF,
                1 <= rs_data <= 255,
                1 <= rs_parity <= 255,
                rs_data + rs_parity <= 256,
                b <= 0xFFFF_FFFF,
                bs == crate::sbx_specs::spec_ver_to_block_size(version),
                usize::MAX >= 0x80_0000_0000_0000,
            decreases total - k,
        {
            let seq = first_seq + k as u32;
            let pos = crate::sbx_block::calc_data_block_write_pos(
                version,
                seq,
                None,
                Some((rs_data, rs_parity, b)),
            );
            if pos > 0x7FFF_FFFF_FFFFu64 || pos as usize + bs > bytes.len() {
                all_in = false;
            }
            k = k + 1;
        }
        if !all_in {
            break ;
        }
        sets_total = sets_total + 1;
        let mut repairer = RSRepairer::new(version, &ref_block, rs_data, rs_parity);
        let mut m: usize = 0;
        while m < total
            invariant
                m <= total,
                usize::MAX >= 0x80_0000_0000_0000,
                bytes.len() == old(bytes).len(),
                bytes.len() <= 0x1000_0000_0000,
                repairer.spec_wf(),
                repairer.spec_index() == (if m < total {
                    m as int
                } else {
                    0int
                }),
                repairer.spec_codec().spec_data() == rs_data,
                repairer.spec_codec().spec_parity() == rs_parity,
                repairer.spec_version() == version,
                1 <= rs_data <= 255,
                1 <= rs_parity <= 255,
                rs_data + rs_parity <= 256,
                total == rs_data + rs_parity,
                1 <= first_seq,
                first_seq + total <= 0xFFFF_FFFF,
                b <= 0xFFFF_FFFF,
                bs == crate::sbx_specs::spec_ver_to_block_size(version),
                ds == bs - 16,
                16 < bs <= 4096,
            decreases total - m,
        {
            let seq = first_seq + m as u32;
            let pos = crate::sbx_block::calc_data_block_write_pos(
                version,
                seq,
                None,
                Some((rs_data, rs_parity, b)),
            );
            let ok: Option<Vec<u8>> = if pos <= 0x7FFF_FFFF_FFFFu64 && pos as usize + bs
                <= bytes.len() {
                match parse_block_at(bytes, pos as usize) {
                    Some(blk) => {
                        if blk.get_seq_num() == seq && uid_eq(&blk.get_uid(), &uid)
                            && !blk.is_meta() {
                            Some(copy_block_at(bytes, pos as usize + 16, ds))
                        } else {
                            None
                        }
                    },
                    None => None,
                }
            } else {
                None
            };
            match ok {
                Some(payload) => {
                    if payload.len() == ds {
                        let ghost pre_bufs = repairer.spec_bufs();
                        let ghost pre_idx = repairer.spec_index();
                        let buf = repairer.get_block_buffer();
                        *buf = payload;
                        proof {
                            assert forall|j: int|
                                0 <= j < repairer.spec_bufs().len() implies #[trigger] crate::rs_codec::spec_shard_views(
                                repairer.spec_bufs(),
                            )[j].len() == ds as int by {
                                assert(crate::rs_codec::spec_shard_views(repairer.spec_bufs())[j]
                                    == repairer.spec_bufs()[j]@);
                                if j != pre_idx {
                                    assert(repairer.spec_bufs()[j] == pre_bufs[j]);
                                    assert(crate::rs_codec::spec_shard_views(pre_bufs)[j]
                                        == pre_bufs[j]@);
                                }
                            }
                        }
                    }
                    let _ = repairer.mark_present();
                },
                None => {
                    let _ = repairer.mark_missing();
                },
            }
            proof {
                if m + 1 < total {
                    assert((m + 1) as int % (total as int) == (m + 1) as int) by (nonlinear_arith)
                        requires
                            0 <= m + 1 < total,
                    ;
                } else {
                    assert((total as int) % (total as int) == 0) by (nonlinear_arith)
                        requires
                            1 <= total,
                    ;
                }
            }
            m = m + 1;
        }
        let (stats, repaired) = repairer.repair(first_seq, b);
        if stats.successful {
            if stats.missing_count > 0 {
                sets_repaired = sets_repaired + 1;
            }
            let mut w: usize = 0;
            while w < repaired.len()
                invariant
                    w <= repaired.len(),
                    repaired.len() <= 256,
                    bytes.len() == old(bytes).len(),
                    bytes.len() <= 0x1000_0000_0000,
                    blocks_repaired <= (set_i as int) * 256 + w,
                    set_i < 0x1000_0000_0000,
                    usize::MAX >= 0x80_0000_0000_0000,
                decreases repaired.len() - w,
            {
                let (p, blk_bytes) = &repaired[w];
                if *p <= 0x7FFF_FFFF_FFFFu64 && blk_bytes.len() <= bytes.len() && *p as usize
                    <= bytes.len() - blk_bytes.len() {
                    store_range(bytes, *p as usize, blk_bytes);
                }
                blocks_repaired = blocks_repaired + 1;
                w = w + 1;
            }
        } else {
            sets_failed = sets_failed + 1;
        }
        proof {
            assert((set_i as int + 1) * (total as int) == (set_i as int) * (total as int)
                + total) by (nonlinear_arith);
            assert((set_i as int + 1) * 256 >= (set_i as int) * 256 + 256) by (nonlinear_arith);
        }
        first_seq = first_seq + total as u32;
        set_i = set_i + 1;
    }
    Ok(
        RepairStats {
            meta_blocks_repaired,
            sets_total,
            sets_repaired,
            sets_failed,
            blocks_repaired,
        },
    )
}

} // verus!
