//! Container sizing from an original file size: how many data chunks a file
//! needs, how many parity and metadata blocks come with them, and the
//! container size those blocks add up to (burst gaps not counted).

use vstd::prelude::*;

use crate::sbx_block::layout::{spec_dpb_ok, spec_meta_on};
use crate::sbx_specs::{
    spec_ver_to_block_size, spec_ver_to_data_size, ver_to_block_size, ver_to_data_size, Version,
};

verus! {

/// Ceiling division for container math.
pub open spec fn spec_div_ceil(a: int, b: int) -> int {
    (a + b - 1) / b
}

/// Number of payload chunks an original file of this size fills.
pub open spec fn spec_data_chunk_count(version: Version, size: int) -> int {
    spec_div_ceil(size, spec_ver_to_data_size(version))
}

/// Parity blocks that accompany the data chunks: whole sets, the last one
/// padded up.
pub open spec fn spec_parity_block_count(version: Version, data: int, parity: int, size: int) -> int {
    spec_div_ceil(spec_data_chunk_count(version, size), data) * parity
}

/// Every block the container holds: metadata copies, data chunks, parity.
pub open spec fn spec_total_block_count_exc_burst_gaps(
    version: Version,
    meta_enabled: Option<bool>,
    dpb: Option<(usize, usize, usize)>,
    size: int,
) -> int {
    match dpb {
        None => {
            let meta = if spec_meta_on(meta_enabled) {
                1int
            } else {
                0int
            };
            meta + spec_data_chunk_count(version, size)
        },
        Some((d, p, b)) => (1 + p) + spec_data_chunk_count(version, size)
            + spec_parity_block_count(version, d as int, p as int, size),
    }
}

/// The container size those blocks add up to.
pub open spec fn spec_container_size(
    version: Version,
    meta_enabled: Option<bool>,
    dpb: Option<(usize, usize, usize)>,
    size: int,
) -> int {
    spec_total_block_count_exc_burst_gaps(version, meta_enabled, dpb, size)
        * spec_ver_to_block_size(version)
}

/// Largest original size the calculations accept: one payload for every
/// sequence number.
pub open spec fn spec_size_ok(version: Version, size: int) -> bool {
    0 <= size <= 0xFFFF_FFFF * spec_ver_to_data_size(version)
}

/// No accepted size needs more chunks than there are sequence numbers.
pub proof fn lemma_chunk_count_bound(version: Version, size: int)
    requires
        spec_size_ok(version, size),
    ensures
        0 <= spec_data_chunk_count(version, size) <= 0xFFFF_FFFF,
{
    let ds = spec_ver_to_data_size(version);
    lemma_div_le(size + ds - 1, 0xFFFF_FFFFu64 * ds + ds - 1, ds);
    vstd::arithmetic::div_mod::lemma_fundamental_div_mod_converse(
        0xFFFF_FFFFu64 * ds + ds - 1,
        ds,
        0xFFFF_FFFF,
        ds - 1,
    );
    vstd::arithmetic::div_mod::lemma_div_pos_is_pos(size + ds - 1, ds);
}

pub fn calc_data_chunk_count(version: Version, size: u64) -> (r: u64)
    requires
        spec_size_ok(version, size as int),
    ensures
        r == spec_data_chunk_count(version, size as int),
        r <= 0xFFFF_FFFF,
{
    let ds = ver_to_data_size(version) as u64;
    proof {
        lemma_div_le(size as int + ds - 1, 0xFFFF_FFFFu64 * (ds as int) + ds - 1, ds as int);
        vstd::arithmetic::div_mod::lemma_fundamental_div_mod_converse(
            0xFFFF_FFFFu64 * (ds as int) + ds - 1,
            ds as int,
            0xFFFF_FFFF,
            ds - 1,
        );
        assert(0xFFFF_FFFFu64 * (ds as int) + ds <= 0xFFFF_FFFFu64 * 4096 + 4096)
            by (nonlinear_arith)
            requires
                0 < ds <= 4096,
        ;
    }
    (size + ds - 1) / ds
}

/// Dividing a smaller number gives a smaller quotient.
proof fn lemma_div_le(a: int, b: int, d: int)
    requires
        0 <= a <= b,
        1 <= d,
    ensures
        a / d <= b / d,
{
    vstd::arithmetic::div_mod::lemma_div_is_ordered(a, b, d);
}

/// Dividing by a larger divisor gives a smaller quotient.
proof fn lemma_div_by_larger(a: int, d1: int, d2: int)
    requires
        0 <= a,
        1 <= d1 <= d2,
    ensures
        a / d2 <= a / d1,
{
    vstd::arithmetic::div_mod::lemma_div_is_ordered_by_denominator(a, d1, d2);
}

pub fn calc_data_only_and_parity_block_count_exc_burst_gaps(
    version: Version,
    data_par_burst: Option<(usize, usize, usize)>,
    size: u64,
) -> (r: (u64, u64))
    requires
        spec_size_ok(version, size as int),
        spec_dpb_ok(data_par_burst),
    ensures
        r.0 == spec_data_chunk_count(version, size as int),
        r.1 == match data_par_burst {
            None => 0int,
            Some((d, p, _)) => spec_parity_block_count(version, d as int, p as int, size as int),
        },
        r.0 <= 0xFFFF_FFFF,
        r.1 <= 0x400_0000_0000,
{
    let chunks = calc_data_chunk_count(version, size);
    match data_par_burst {
        None => (chunks, 0),
        Some((d, p, _)) => {
            let sets = (chunks + d as u64 - 1) / d as u64;
            proof {
                lemma_div_by_larger(chunks as int + d - 1, 1, d as int);
                vstd::arithmetic::div_mod::lemma_fundamental_div_mod_converse(
                    chunks as int + d - 1,
                    1,
                    chunks as int + d - 1,
                    0,
                );
                assert((sets as int) * (p as int) <= 0x400_0000_0000u64) by (nonlinear_arith)
                    requires
                        0 <= sets <= 0x1_0000_0000u64 + 512,
                        0 <= p <= 512,
                ;
            }
            let parity_blocks = sets * p as u64;
            (chunks, parity_blocks)
        },
    }
}

pub fn calc_total_block_count_exc_burst_gaps(
    version: Version,
    meta_enabled: Option<bool>,
    data_par_burst: Option<(usize, usize, usize)>,
    size: u64,
) -> (r: u64)
    requires
        spec_size_ok(version, size as int),
        spec_dpb_ok(data_par_burst),
    ensures
        r == spec_total_block_count_exc_burst_gaps(version, meta_enabled, data_par_burst, size as int),
        r <= 0x500_0000_0000,
{
    let (chunks, parity_blocks) = calc_data_only_and_parity_block_count_exc_burst_gaps(
        version,
        data_par_burst,
        size,
    );
    match data_par_burst {
        None => {
            let meta_on = match meta_enabled {
                None => true,
                Some(x) => x,
            };
            if meta_on {
                1 + chunks
            } else {
                chunks
            }
        },
        Some((_, p, _)) => 1 + p as u64 + chunks + parity_blocks,
    }
}

pub fn calc_container_size(
    version: Version,
    meta_enabled: Option<bool>,
    data_par_burst: Option<(usize, usize, usize)>,
    size: u64,
) -> (r: u64)
    requires
        spec_size_ok(version, size as int),
        spec_dpb_ok(data_par_burst),
    ensures
        r == spec_container_size(version, meta_enabled, data_par_burst, size as int),
{
    let blocks = calc_total_block_count_exc_burst_gaps(version, meta_enabled, data_par_burst, size);
    let bs = ver_to_block_size(version) as u64;
    proof {
        assert((blocks as int) * (bs as int) <= 0x500_0000_0000u64 * 4096) by (nonlinear_arith)
            requires
                0 <= blocks <= 0x500_0000_0000u64,
                0 < bs <= 4096,
        ;
    }
    blocks * bs
}

} // verus!
