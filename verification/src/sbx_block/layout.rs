//! Position arithmetic: where each sequence number lives on disk.
//!
//! All positions are block indices; byte offsets are `index * block_size`.
//! Without Reed-Solomon the data blocks follow the optional metadata block
//! in order.  With Reed-Solomon and burst level `b >= 1` the members of one
//! RS set are spread `b` or more block positions apart, and the `1 + parity`
//! metadata copies head the first `1 + parity` stride rows.

use vstd::arithmetic::div_mod::{lemma_fundamental_div_mod, lemma_fundamental_div_mod_converse};
use vstd::prelude::*;

use crate::sbx_specs::{spec_ver_to_block_size, ver_to_block_size, ver_to_data_size, Version};

verus! {

/// Metadata is present unless explicitly switched off.
pub open spec fn spec_meta_on(meta_enabled: Option<bool>) -> bool {
    match meta_enabled {
        None => true,
        Some(b) => b,
    }
}

/// Shard counts and burst level a layout can be computed for: at least one
/// data and one parity shard, a set small enough to fit one byte per shard,
/// and a burst level within the machine bound.
pub open spec fn spec_dpb_ok(dpb: Option<(usize, usize, usize)>) -> bool {
    match dpb {
        None => true,
        Some((d, p, b)) => 1 <= d && 1 <= p && d + p <= 512 && b <= 0xFFFF_FFFF,
    }
}

/// On-disk index of data sequence index `n` (sequence number minus one)
/// under Reed-Solomon with burst level `b >= 1`.
pub open spec fn spec_rs_data_index(n: int, d: int, p: int, b: int) -> int {
    let t = d + p;
    let k = n / t;
    let r = n % t;
    if k < b {
        if r <= p {
            r * (1 + b) + 1 + k
        } else {
            (1 + p) * (1 + b) + (r - 1 - p) * b + k
        }
    } else {
        (1 + p) + t * b * (k / b) + r * b + (k % b)
    }
}

/// On-disk index of a data block.
pub open spec fn spec_data_block_write_index(
    seq_num: int,
    meta_enabled: Option<bool>,
    dpb: Option<(usize, usize, usize)>,
) -> int {
    match dpb {
        None => if spec_meta_on(meta_enabled) {
            seq_num
        } else {
            seq_num - 1
        },
        Some((d, p, b)) => if b == 0 {
            p + seq_num
        } else {
            spec_rs_data_index(seq_num - 1, d as int, p as int, b as int)
        },
    }
}

/// Sequence number found at an on-disk index under Reed-Solomon with burst
/// level `b >= 1`; 0 names the metadata copies.
pub open spec fn spec_rs_seq_at_index(idx: int, d: int, p: int, b: int) -> int {
    let t = d + p;
    let fss = 1 + p + t * b;
    if idx < (1 + p) * (1 + b) {
        let r = idx / (1 + b);
        let off = idx % (1 + b);
        if off == 0 {
            0
        } else {
            (off - 1) * t + r + 1
        }
    } else if idx < fss {
        let rem = idx - (1 + p) * (1 + b);
        (rem % b) * t + (1 + p + rem / b) + 1
    } else {
        let rem = idx - fss;
        let s = 1 + rem / (t * b);
        let rem2 = rem % (t * b);
        (s * b + rem2 % b) * t + rem2 / b + 1
    }
}

/// Sequence number whose canonical position is the given index; 0 names a
/// metadata block position.
pub open spec fn spec_seq_num_at_index(
    idx: int,
    meta_enabled: Option<bool>,
    dpb: Option<(usize, usize, usize)>,
) -> int {
    match dpb {
        None => if spec_meta_on(meta_enabled) {
            idx
        } else {
            idx + 1
        },
        Some((d, p, b)) => if b == 0 {
            if idx <= p {
                0
            } else {
                idx - p
            }
        } else {
            spec_rs_seq_at_index(idx, d as int, p as int, b as int)
        },
    }
}

/// Indices of the duplicate metadata blocks (the primary sits at 0).
pub open spec fn spec_meta_dup_index(i: int, b: int) -> int {
    i * (1 + b)
}

pub fn calc_data_block_write_index(
    seq_num: u32,
    meta_enabled: Option<bool>,
    data_par_burst: Option<(usize, usize, usize)>,
) -> (r: u64)
    requires
        seq_num >= 1,
        spec_dpb_ok(data_par_burst),
    ensures
        r == spec_data_block_write_index(seq_num as int, meta_enabled, data_par_burst),
{
    match data_par_burst {
        None => {
            let meta_on = match meta_enabled {
                None => true,
                Some(b) => b,
            };
            if meta_on {
                seq_num as u64
            } else {
                (seq_num - 1) as u64
            }
        },
        Some((d, p, b)) => {
            if b == 0 {
                p as u64 + seq_num as u64
            } else {
                let data = d as u64;
                let parity = p as u64;
                let burst = b as u64;
                let t = data + parity;
                let n = (seq_num - 1) as u64;
                let k = n / t;
                let r = n % t;
                proof {
                    lemma_fundamental_div_mod(n as int, t as int);
                    assert(t * (k as int) <= n) by (nonlinear_arith)
                        requires
                            n == t * (k as int) + r,
                            r >= 0,
                            t >= 1,
                    ;
                }
                if k < burst {
                    if r <= parity {
                        proof {
                            assert(r * (1 + burst as int) + 1 + k <= 512 * 0x1_0000_0000u64 + 1
                                + 0xFFFF_FFFFu64) by (nonlinear_arith)
                                requires
                                    r <= 512,
                                    burst <= 0xFFFF_FFFFu64,
                                    k < burst,
                                    r >= 0,
                                    k >= 0,
                            ;
                        }
                        r * (1 + burst) + 1 + k
                    } else {
                        proof {
                            assert((1 + parity as int) * (1 + burst as int) + (r - 1 - parity) * (
                            burst as int) + k <= 513 * 0x1_0000_0001u64 + 512 * 0x1_0000_0000u64
                                + 0xFFFF_FFFFu64) by (nonlinear_arith)
                                requires
                                    parity <= 512,
                                    r <= 512,
                                    parity < r,
                                    burst <= 0xFFFF_FFFFu64,
                                    k < burst,
                                    k >= 0,
                            ;
                        }
                        (1 + parity) * (1 + burst) + (r - 1 - parity) * burst + k
                    }
                } else {
                    let s = k / burst;
                    let kk = k % burst;
                    proof {
                        lemma_fundamental_div_mod(k as int, burst as int);
                        assert(burst * (s as int) <= k) by (nonlinear_arith)
                            requires
                                k == burst * (s as int) + kk,
                                kk >= 0,
                                burst >= 1,
                        ;
                        assert((t as int) * (burst as int) * (s as int) <= (t as int) * (k as int))
                            by (nonlinear_arith)
                            requires
                                burst * (s as int) <= k,
                                t >= 1,
                                s >= 0,
                                burst >= 1,
                        ;
                        assert(r * (burst as int) <= 511 * 0x1_0000_0000u64) by (nonlinear_arith)
                            requires
                                r <= 511,
                                burst <= 0xFFFF_FFFFu64,
                                r >= 0,
                        ;
                        assert((t as int) * (burst as int) <= 512 * 0xFFFF_FFFFu64)
                            by (nonlinear_arith)
                            requires
                                1 <= t <= 512,
                                burst <= 0xFFFF_FFFFu64,
                        ;
                    }
                    (1 + parity) + t * burst * s + r * burst + kk
                }
            }
        },
    }
}

pub fn calc_data_block_write_pos(
    version: Version,
    seq_num: u32,
    meta_enabled: Option<bool>,
    data_par_burst: Option<(usize, usize, usize)>,
) -> (r: u64)
    requires
        seq_num >= 1,
        spec_dpb_ok(data_par_burst),
    ensures
        r == spec_data_block_write_index(seq_num as int, meta_enabled, data_par_burst)
            * spec_ver_to_block_size(version),
{
    let idx = calc_data_block_write_index(seq_num, meta_enabled, data_par_burst);
    let bs = ver_to_block_size(version) as u64;
    proof {
        lemma_index_bound(seq_num as int, meta_enabled, data_par_burst);
        assert(idx * (bs as int) <= 0x400_0000_0000u64 * 4096) by (nonlinear_arith)
            requires
                0 <= idx <= 0x400_0000_0000u64,
                0 <= bs <= 4096,
        ;
    }
    idx * bs
}

/// Every data block index is within the machine range.
pub proof fn lemma_index_bound(
    seq_num: int,
    meta_enabled: Option<bool>,
    dpb: Option<(usize, usize, usize)>,
)
    requires
        1 <= seq_num <= 0xFFFF_FFFF,
        spec_dpb_ok(dpb),
    ensures
        0 <= spec_data_block_write_index(seq_num, meta_enabled, dpb) <= 0x400_0000_0000,
{
    match dpb {
        None => {},
        Some((du, pu, bu)) => {
            if bu == 0 {
            } else {
                let d = du as int;
                let p = pu as int;
                let b = bu as int;
                let t = d + p;
                let n = seq_num - 1;
                let k = n / t;
                let r = n % t;
                lemma_fundamental_div_mod(n, t);
                assert(0 <= r < t && 0 <= k) by {
                    vstd::arithmetic::div_mod::lemma_mod_bound(n, t);
                    vstd::arithmetic::div_mod::lemma_div_pos_is_pos(n, t);
                }
                assert(t * k <= n) by (nonlinear_arith)
                    requires
                        n == t * k + r,
                        r >= 0,
                        t >= 1,
                ;
                if k < b {
                    if r <= p {
                        assert(r * (1 + b) + 1 + k <= 0x400_0000_0000) by (nonlinear_arith)
                            requires
                                0 <= r <= 512,
                                0 <= k < b,
                                b <= 0xFFFF_FFFF,
                        ;
                    } else {
                        assert((1 + p) * (1 + b) + (r - 1 - p) * b + k <= 0x400_0000_0000)
                            by (nonlinear_arith)
                            requires
                                0 <= p < r <= 512,
                                0 <= k < b,
                                b <= 0xFFFF_FFFF,
                        ;
                    }
                } else {
                    let s = k / b;
                    let kk = k % b;
                    lemma_fundamental_div_mod(k, b);
                    assert(0 <= kk < b && 0 <= s) by {
                        vstd::arithmetic::div_mod::lemma_mod_bound(k, b);
                        vstd::arithmetic::div_mod::lemma_div_pos_is_pos(k, b);
                    }
                    assert(b * s <= k) by (nonlinear_arith)
                        requires
                            k == b * s + kk,
                            kk >= 0,
                            b >= 1,
                    ;
                    assert(t * b * s <= t * k) by (nonlinear_arith)
                        requires
                            b * s <= k,
                            t >= 1,
                            s >= 0,
                            b >= 1,
                    ;
                    assert(r * b <= 511 * 0x1_0000_0000) by (nonlinear_arith)
                        requires
                            0 <= r <= 511,
                            b <= 0x1_0000_0000,
                    ;
                    assert((1 + p) + t * b * s + r * b + kk <= 0x400_0000_0000);
                }
            }
        },
    }
}

/// Compute the sequence number whose canonical position is `index`
/// (0 names a metadata position).
pub fn calc_seq_num_at_index(
    index: u64,
    meta_enabled: Option<bool>,
    data_par_burst: Option<(usize, usize, usize)>,
) -> (r: u32)
    requires
        spec_dpb_ok(data_par_burst),
        spec_seq_num_at_index(index as int, meta_enabled, data_par_burst) <= 0xFFFF_FFFF,
    ensures
        r == spec_seq_num_at_index(index as int, meta_enabled, data_par_burst),
{
    match data_par_burst {
        None => {
            let meta_on = match meta_enabled {
                None => true,
                Some(b) => b,
            };
            if meta_on {
                index as u32
            } else {
                (index + 1) as u32
            }
        },
        Some((d, p, b)) => {
            if b == 0 {
                if index <= p as u64 {
                    0
                } else {
                    (index - p as u64) as u32
                }
            } else {
                let data = d as u64;
                let parity = p as u64;
                let burst = b as u64;
                let t = data + parity;
                proof {
                    assert(1 <= (t as int) * (burst as int) <= 512 * 0xFFFF_FFFFu64
                        && (1 + parity as int) * (1 + burst as int) <= 513 * 0x1_0000_0000u64)
                        by (nonlinear_arith)
                        requires
                            1 <= t <= 512,
                            1 <= burst <= 0xFFFF_FFFFu64,
                            0 <= parity <= 512,
                    ;
                }
                let fss = 1 + parity + t * burst;
                let region1 = (1 + parity) * (1 + burst);
                if index < region1 {
                    let r = index / (1 + burst);
                    let off = index % (1 + burst);
                    if off == 0 {
                        0
                    } else {
                        proof {
                            lemma_fundamental_div_mod(index as int, 1 + burst as int);
                            assert((r as int) * (1 + burst as int) <= index) by (nonlinear_arith)
                                requires
                                    index == (1 + burst as int) * (r as int) + off,
                                    off >= 0,
                                    burst >= 0,
                            ;
                            assert((off - 1) * (t as int) + r + 1 <= 0xFFFF_FFFF);
                        }
                        ((off - 1) * t + r + 1) as u32
                    }
                } else if index < fss {
                    let rem = index - region1;
                    let r = 1 + parity + rem / burst;
                    let kk = rem % burst;
                    proof {
                        lemma_fundamental_div_mod(rem as int, burst as int);
                        assert((kk as int) * (t as int) + (r as int) + 1 <= 0xFFFF_FFFF);
                    }
                    (kk * t + r + 1) as u32
                } else {
                    let rem = index - fss;
                    let s = 1 + rem / (t * burst);
                    let rem2 = rem % (t * burst);
                    let r = rem2 / burst;
                    let kk = rem2 % burst;
                    proof {
                        lemma_fundamental_div_mod(rem as int, (t * burst) as int);
                        lemma_fundamental_div_mod(rem2 as int, burst as int);
                        vstd::arithmetic::div_mod::lemma_mod_bound(rem as int, (t * burst) as int);
                        vstd::arithmetic::div_mod::lemma_mod_bound(rem2 as int, burst as int);
                        assert(((s as int) * (burst as int) + kk) * (t as int) + r + 1
                            <= 0xFFFF_FFFF);
                        assert((s as int) * (burst as int) + kk >= 0) by (nonlinear_arith)
                            requires
                                s >= 0,
                                burst >= 1,
                                kk >= 0,
                        ;
                        assert((s as int) * (burst as int) <= 0xFFFF_FFFFu64 * 0xFFFF_FFFFu64)
                            by (nonlinear_arith)
                            requires
                                ((s as int) * (burst as int) + kk) * (t as int) + r + 1
                                    <= 0xFFFF_FFFF,
                                t >= 1,
                                kk >= 0,
                                r >= 0,
                                s >= 0,
                                burst >= 1,
                        ;
                        assert(((s * burst) as int + kk) * (t as int)
                            <= 0xFFFF_FFFFu64) by (nonlinear_arith)
                            requires
                                ((s as int) * (burst as int) + kk) * (t as int) + r + 1
                                    <= 0xFFFF_FFFF,
                                t >= 1,
                                kk >= 0,
                                r >= 0,
                                (s as int) * (burst as int) + kk >= 0,
                        ;
                    }
                    ((s * burst + kk) * t + r + 1) as u32
                }
            }
        },
    }
}

/// The layout is invertible: reading back the sequence number at the
/// canonical position of any legal data sequence number gives that number,
/// for every version, metadata choice, shard pair and burst level.
pub proof fn lemma_seq_index_round_trip(
    seq_num: int,
    meta_enabled: Option<bool>,
    dpb: Option<(usize, usize, usize)>,
)
    requires
        1 <= seq_num <= 0xFFFF_FFFF,
        spec_dpb_ok(dpb),
    ensures
        spec_seq_num_at_index(
            spec_data_block_write_index(seq_num, meta_enabled, dpb),
            meta_enabled,
            dpb,
        ) == seq_num,
{
    match dpb {
        None => {},
        Some((du, pu, bu)) => {
            if bu == 0 {
            } else {
                lemma_rs_round_trip(seq_num - 1, du as int, pu as int, bu as int);
            }
        },
    }
}

/// Round trip of the interleaved layout for one data sequence index.
proof fn lemma_rs_round_trip(n: int, d: int, p: int, b: int)
    requires
        0 <= n,
        1 <= d,
        1 <= p,
        d + p <= 512,
        1 <= b,
    ensures
        spec_rs_seq_at_index(spec_rs_data_index(n, d, p, b), d, p, b) == n + 1,
{
    let t = d + p;
    let k = n / t;
    let r = n % t;
    lemma_fundamental_div_mod(n, t);
    vstd::arithmetic::div_mod::lemma_mod_bound(n, t);
    vstd::arithmetic::div_mod::lemma_div_pos_is_pos(n, t);
    let idx = spec_rs_data_index(n, d, p, b);
    if k < b {
        if r <= p {
            // idx = r * (1 + b) + 1 + k, in the metadata-headed rows
            assert(idx == r * (1 + b) + (1 + k));
            assert(idx < (1 + p) * (1 + b)) by (nonlinear_arith)
                requires
                    idx == r * (1 + b) + 1 + k,
                    0 <= r <= p,
                    0 <= k < b,
            ;
            lemma_fundamental_div_mod_converse(idx, 1 + b, r, 1 + k);
            assert(spec_rs_seq_at_index(idx, d, p, b) == k * t + r + 1);
        } else {
            // idx sits in the later rows of the first super set
            assert(idx == (1 + p) * (1 + b) + ((r - 1 - p) * b + k));
            assert((1 + p) * (1 + b) <= idx && idx < 1 + p + t * b) by (nonlinear_arith)
                requires
                    idx == (1 + p) * (1 + b) + (r - 1 - p) * b + k,
                    p < r < t,
                    0 <= k < b,
                    1 <= b,
                    t == d + p,
                    1 <= d,
                    1 <= p,
            ;
            let rem = idx - (1 + p) * (1 + b);
            lemma_fundamental_div_mod_converse(rem, b, r - 1 - p, k);
            assert(spec_rs_seq_at_index(idx, d, p, b) == k * t + (1 + p + (r - 1 - p)) + 1);
        }
    } else {
        let s = k / b;
        let kk = k % b;
        lemma_fundamental_div_mod(k, b);
        vstd::arithmetic::div_mod::lemma_mod_bound(k, b);
        vstd::arithmetic::div_mod::lemma_div_pos_is_pos(k, b);
        assert(s >= 1) by (nonlinear_arith)
            requires
                k == b * s + kk,
                0 <= kk < b,
                b <= k,
                s >= 0,
        ;
        assert(idx == (1 + p) + t * b * s + r * b + kk);
        let fss = 1 + p + t * b;
        assert(t * b * s >= t * b && r * b + kk >= 0) by (nonlinear_arith)
            requires
                s >= 1,
                t >= 1,
                b >= 1,
                r >= 0,
                kk >= 0,
        ;
        let rem = idx - fss;
        assert(rem == t * b * (s - 1) + (r * b + kk)) by (nonlinear_arith)
            requires
                rem == (1 + p) + t * b * s + r * b + kk - (1 + p + t * b),
        ;
        assert(0 <= r * b + kk < t * b) by (nonlinear_arith)
            requires
                0 <= r < t,
                0 <= kk < b,
        ;
        assert(t * b >= 1) by (nonlinear_arith)
            requires
                t >= 1,
                b >= 1,
        ;
        assert(rem == (s - 1) * (t * b) + (r * b + kk)) by (nonlinear_arith)
            requires
                rem == t * b * (s - 1) + (r * b + kk),
        ;
        lemma_fundamental_div_mod_converse(rem, t * b, s - 1, r * b + kk);
        let rem2 = rem % (t * b);
        assert(rem2 == r * b + kk);
        lemma_fundamental_div_mod_converse(rem2, b, r, kk);
        assert((1 + p) * (1 + b) <= 1 + p + t * b) by (nonlinear_arith)
            requires
                1 + p <= t,
                b >= 1,
                p >= 0,
        ;
        assert(idx >= fss);
        assert(spec_rs_seq_at_index(idx, d, p, b) == ((1 + (s - 1)) * b + kk) * t + r + 1);
        assert((s * b + kk) * t + r + 1 == n + 1) by (nonlinear_arith)
            requires
                n == t * k + r,
                k == b * s + kk,
        ;
    }
}

/// A data block never lands on a metadata position: not on the primary copy
/// at index 0, and not on any duplicate.
pub proof fn lemma_data_meta_disjoint(
    seq_num: int,
    meta_enabled: Option<bool>,
    dpb: Option<(usize, usize, usize)>,
    i: int,
)
    requires
        1 <= seq_num <= 0xFFFF_FFFF,
        spec_dpb_ok(dpb),
        match dpb {
            None => i == 0,
            Some((d, p, b)) => 0 <= i <= p,
        },
    ensures
        match dpb {
            None => spec_data_block_write_index(seq_num, meta_enabled, dpb) != 0 || !spec_meta_on(
                meta_enabled,
            ),
            Some((d, p, b)) => spec_data_block_write_index(seq_num, meta_enabled, dpb)
                != spec_meta_dup_index(i, b as int) && spec_data_block_write_index(
                seq_num,
                meta_enabled,
                dpb,
            ) != 0,
        },
{
    match dpb {
        None => {},
        Some((du, pu, bu)) => {
            let d = du as int;
            let p = pu as int;
            let b = bu as int;
            let t = d + p;
            if bu == 0 {
                assert(spec_meta_dup_index(i, 0) == i) by (nonlinear_arith)
                    requires
                        i >= 0,
                ;
            } else {
                let n = seq_num - 1;
                let k = n / t;
                let r = n % t;
                lemma_fundamental_div_mod(n, t);
                vstd::arithmetic::div_mod::lemma_mod_bound(n, t);
                vstd::arithmetic::div_mod::lemma_div_pos_is_pos(n, t);
                let idx = spec_rs_data_index(n, d, p, b);
                let dup = spec_meta_dup_index(i, b);
                if k < b {
                    if r <= p {
                        assert(idx == r * (1 + b) + (1 + k));
                        lemma_fundamental_div_mod_converse(idx, 1 + b, r, 1 + k);
                        assert(idx % (1 + b) == 1 + k);
                        assert(idx % (1 + b) != 0);
                        assert(dup % (1 + b) == 0) by (nonlinear_arith)
                            requires
                                dup == i * (1 + b),
                                0 <= i,
                                1 <= b,
                        ;
                        assert(idx != 0) by (nonlinear_arith)
                            requires
                                idx == r * (1 + b) + 1 + k,
                                r >= 0,
                                k >= 0,
                                b >= 1,
                        ;
                    } else {
                        assert(idx >= (1 + p) * (1 + b) && dup < (1 + p) * (1 + b) && idx != 0)
                            by (nonlinear_arith)
                            requires
                                idx == (1 + p) * (1 + b) + (r - 1 - p) * b + k,
                                dup == i * (1 + b),
                                0 <= i <= p,
                                p < r,
                                0 <= k,
                                1 <= b,
                        ;
                    }
                } else {
                    let s = k / b;
                    let kk = k % b;
                    lemma_fundamental_div_mod(k, b);
                    vstd::arithmetic::div_mod::lemma_mod_bound(k, b);
                    vstd::arithmetic::div_mod::lemma_div_pos_is_pos(k, b);
                    assert(s >= 1) by (nonlinear_arith)
                        requires
                            k == b * s + kk,
                            0 <= kk < b,
                            b <= k,
                            s >= 0,
                    ;
                    assert(idx >= 1 + p + t * b && dup <= p * (1 + b) && p * (1 + b) < 1 + p + t
                        * b && idx != 0) by (nonlinear_arith)
                        requires
                            idx == (1 + p) + t * b * s + r * b + kk,
                            dup == i * (1 + b),
                            0 <= i <= p,
                            s >= 1,
                            t == d + p,
                            1 <= d,
                            1 <= p,
                            1 <= b,
                            r >= 0,
                            kk >= 0,
                    ;
                }
            }
        },
    }
}

/// Members of one RS set sit at least `b` positions apart: member `r2` of a
/// set lies at least `(r2 - r1) * b` block positions after member `r1`.  A
/// contiguous damaged run of at most `parity * b` blocks therefore spans at
/// most `parity` members of any one set, which Reed-Solomon can rebuild.
pub proof fn lemma_rs_set_member_gap(k: int, r1: int, r2: int, d: int, p: int, b: int)
    requires
        1 <= d,
        1 <= p,
        d + p <= 512,
        1 <= b,
        0 <= k,
        0 <= r1 <= r2 < d + p,
    ensures
        spec_rs_data_index(k * (d + p) + r2, d, p, b) - spec_rs_data_index(
            k * (d + p) + r1,
            d,
            p,
            b,
        ) >= (r2 - r1) * b,
{
    let t = d + p;
    let n1 = k * t + r1;
    let n2 = k * t + r2;
    lemma_fundamental_div_mod_converse(n1, t, k, r1);
    lemma_fundamental_div_mod_converse(n2, t, k, r2);
    let i1 = spec_rs_data_index(n1, d, p, b);
    let i2 = spec_rs_data_index(n2, d, p, b);
    if k < b {
        if r2 <= p {
            assert(i2 - i1 >= (r2 - r1) * b) by (nonlinear_arith)
                requires
                    i1 == r1 * (1 + b) + 1 + k,
                    i2 == r2 * (1 + b) + 1 + k,
                    r1 <= r2,
                    b >= 1,
            ;
        } else if r1 <= p {
            assert(i2 - i1 >= (r2 - r1) * b) by (nonlinear_arith)
                requires
                    i1 == r1 * (1 + b) + 1 + k,
                    i2 == (1 + p) * (1 + b) + (r2 - 1 - p) * b + k,
                    r1 <= p < r2,
                    b >= 1,
            ;
        } else {
            assert(i2 - i1 >= (r2 - r1) * b) by (nonlinear_arith)
                requires
                    i1 == (1 + p) * (1 + b) + (r1 - 1 - p) * b + k,
                    i2 == (1 + p) * (1 + b) + (r2 - 1 - p) * b + k,
                    r1 <= r2,
                    b >= 1,
            ;
        }
    } else {
        assert(i2 - i1 >= (r2 - r1) * b) by (nonlinear_arith)
            requires
                i1 == (1 + p) + t * b * (k / b) + r1 * b + (k % b),
                i2 == (1 + p) + t * b * (k / b) + r2 * b + (k % b),
                r1 <= r2,
                b >= 1,
        ;
    }
}

/// Indices of the duplicate metadata copies, in order.
pub fn calc_meta_block_dup_write_indices(data_par_burst: Option<(usize, usize, usize)>) -> (r: Vec<
    u64,
>)
    requires
        spec_dpb_ok(data_par_burst),
    ensures
        match data_par_burst {
            None => r.len() == 0,
            Some((d, p, b)) => r.len() == p && forall|i: int|
                0 <= i < p ==> r@[i] == spec_meta_dup_index(i + 1, b as int),
        },
        forall|i: int| 0 <= i < r.len() ==> 0 <= #[trigger] r@[i] <= 513 * 0x1_0000_0000u64,
{
    match data_par_burst {
        None => Vec::new(),
        Some((_, p, b)) => {
            let mut v: Vec<u64> = Vec::new();
            let mut i: usize = 1;
            while i <= p
                invariant
                    1 <= i <= p + 1,
                    p <= 512,
                    b <= 0xFFFF_FFFF,
                    v.len() == i - 1,
                    forall|j: int| 0 <= j < i - 1 ==> v@[j] == spec_meta_dup_index(j + 1, b as int),
                    forall|j: int| 0 <= j < i - 1 ==> 0 <= #[trigger] v@[j] <= 513 * 0x1_0000_0000u64,
                decreases p + 1 - i,
            {
                proof {
                    assert((i as int) * (1 + b as int) <= 513 * 0x1_0000_0000u64)
                        by (nonlinear_arith)
                        requires
                            1 <= i <= 513,
                            b <= 0xFFFF_FFFFu64,
                    ;
                }
                v.push((i as u64) * (1 + b as u64));
                i = i + 1;
            }
            v
        },
    }
}

/// Indices of every metadata copy: the primary at 0, then the duplicates.
pub fn calc_meta_block_all_write_indices(data_par_burst: Option<(usize, usize, usize)>) -> (r: Vec<
    u64,
>)
    requires
        spec_dpb_ok(data_par_burst),
    ensures
        r.len() >= 1,
        r@[0] == 0,
        match data_par_burst {
            None => r.len() == 1,
            Some((d, p, b)) => r.len() == 1 + p && forall|i: int|
                1 <= i < r.len() ==> r@[i] == spec_meta_dup_index(i, b as int),
        },
        forall|i: int| 0 <= i < r.len() ==> 0 <= #[trigger] r@[i] <= 513 * 0x1_0000_0000u64,
{
    let mut v: Vec<u64> = Vec::new();
    v.push(0);
    let dups = calc_meta_block_dup_write_indices(data_par_burst);
    let mut i: usize = 0;
    while i < dups.len()
        invariant
            v.len() == 1 + i,
            i <= dups.len(),
            v@[0] == 0,
            forall|j: int| 1 <= j < v.len() ==> v@[j] == dups@[j - 1],
            forall|j: int| 0 <= j < v.len() ==> 0 <= #[trigger] v@[j] <= 513 * 0x1_0000_0000u64,
            forall|j: int| 0 <= j < dups.len() ==> 0 <= #[trigger] dups@[j] <= 513 * 0x1_0000_0000u64,
            match data_par_burst {
                None => dups.len() == 0,
                Some((d, p, b)) => dups.len() == p && forall|j: int|
                    0 <= j < dups.len() ==> dups@[j] == spec_meta_dup_index(j + 1, b as int),
            },
        decreases dups.len() - i,
    {
        v.push(dups[i]);
        i = i + 1;
    }
    v
}

/// Byte positions of every metadata copy.
pub fn calc_meta_block_all_write_pos_s(
    version: Version,
    data_par_burst: Option<(usize, usize, usize)>,
) -> (r: Vec<u64>)
    requires
        spec_dpb_ok(data_par_burst),
    ensures
        r.len() >= 1,
        r@[0] == 0,
        match data_par_burst {
            None => r.len() == 1,
            Some((d, p, b)) => r.len() == 1 + p && forall|i: int|
                1 <= i < r.len() ==> r@[i] == spec_meta_dup_index(i, b as int)
                    * spec_ver_to_block_size(version),
        },
        forall|i: int|
            0 <= i < r.len() ==> 0 <= #[trigger] r@[i] <= 513 * 0x1_0000_0000u64 * 4096,
{
    let indices = calc_meta_block_all_write_indices(data_par_burst);
    let bs = ver_to_block_size(version) as u64;
    let mut v: Vec<u64> = Vec::new();
    let mut i: usize = 0;
    while i < indices.len()
        invariant
            i <= indices.len(),
            v.len() == i,
            bs == spec_ver_to_block_size(version),
            16 < bs <= 4096,
            forall|j: int|
                0 <= j < indices.len() ==> 0 <= #[trigger] indices@[j] <= 513 * 0x1_0000_0000u64,
            forall|j: int| 0 <= j < i ==> v@[j] == indices@[j] * (bs as int),
            forall|j: int| 0 <= j < i ==> 0 <= #[trigger] v@[j] <= 513 * 0x1_0000_0000u64 * 4096,
        decreases indices.len() - i,
    {
        proof {
            assert((indices@[i as int] as int) * (bs as int) <= 513 * 0x1_0000_0000u64 * 4096)
                by (nonlinear_arith)
                requires
                    0 <= indices@[i as int] <= 513 * 0x1_0000_0000u64,
                    0 < bs <= 4096,
            ;
        }
        v.push(indices[i] * bs);
        i = i + 1;
    }
    v
}

/// Whether a sequence number names one of the parity members of its RS set:
/// the last `parity` members of each set of `data + parity`.
pub open spec fn spec_seq_num_is_parity(seq_num: int, data: int, parity: int) -> bool {
    &&& seq_num >= 1
    &&& data >= 1
    &&& parity >= 1
    &&& (seq_num - 1) % (data + parity) >= data
}

pub fn seq_num_is_parity(seq_num: u32, data: usize, parity: usize) -> (r: bool)
    requires
        data + parity <= 0xFFFF_FFFF,
    ensures
        r == spec_seq_num_is_parity(seq_num as int, data as int, parity as int),
{
    if seq_num == 0 || data == 0 || parity == 0 {
        false
    } else {
        ((seq_num - 1) as u64 % (data as u64 + parity as u64)) >= data as u64
    }
}

/// Fill the data area from `start` on with the padding byte; returns how
/// many bytes were padded.
pub fn write_padding(version: Version, start: usize, buffer: &mut Vec<u8>) -> (r: usize)
    requires
        old(buffer).len() == spec_ver_to_block_size(version),
        16 + start <= spec_ver_to_block_size(version),
    ensures
        r == spec_ver_to_block_size(version) - 16 - start,
        final(buffer).len() == old(buffer).len(),
        final(buffer)@.subrange(0, 16 + start as int) == old(buffer)@.subrange(
            0,
            16 + start as int,
        ),
        forall|i: int|
            16 + start <= i < final(buffer).len() ==> final(buffer)@[i] == 0x1A,
{
    let bs = ver_to_block_size(version);
    let mut i = 16 + start;
    while i < bs
        invariant
            16 + start <= i <= bs,
            buffer.len() == bs,
            bs == spec_ver_to_block_size(version),
            buffer@.subrange(0, 16 + start as int) == old(buffer)@.subrange(0, 16 + start as int),
            forall|j: int| 16 + start <= j < i ==> buffer@[j] == 0x1A,
        decreases bs - i,
    {
        let ghost prev = buffer@;
        buffer.set(i, 0x1A);
        proof {
            assert(buffer@.subrange(0, 16 + start as int) =~= prev.subrange(0, 16 + start as int));
        }
        i = i + 1;
    }
    bs - 16 - start
}

/// Position of a data chunk in the decoded output: parity members have none,
/// the others follow in order of their data-only rank.
pub open spec fn spec_data_chunk_index(seq_num: int, data_par: Option<(int, int)>) -> Option<int> {
    match data_par {
        None => Some(seq_num - 1),
        Some((d, p)) => {
            let n = seq_num - 1;
            let k = n / (d + p);
            let r = n % (d + p);
            if r >= d {
                None
            } else {
                Some(k * d + r)
            }
        },
    }
}

pub fn calc_data_chunk_write_index(seq_num: u32, data_par: Option<(usize, usize)>) -> (r: Option<
    u64,
>)
    requires
        seq_num >= 1,
        match data_par {
            None => true,
            Some((d, p)) => 1 <= d && 1 <= p && d + p <= 512,
        },
    ensures
        match data_par {
            None => r == Some((seq_num - 1) as u64),
            Some((d, p)) => match r {
                None => spec_data_chunk_index(
                    seq_num as int,
                    Some((d as int, p as int)),
                ) is None,
                Some(x) => spec_data_chunk_index(seq_num as int, Some((d as int, p as int)))
                    == Some(x as int),
            },
        },
        match r {
            None => true,
            Some(x) => x <= 0xFFFF_FFFF,
        },
{
    match data_par {
        None => Some((seq_num - 1) as u64),
        Some((d, p)) => {
            let t = (d + p) as u64;
            let n = (seq_num - 1) as u64;
            let k = n / t;
            let r = n % t;
            proof {
                lemma_fundamental_div_mod(n as int, t as int);
                assert((k as int) * (d as int) <= (k as int) * (t as int) && (k as int) * (
                t as int) <= n) by (nonlinear_arith)
                    requires
                        n == (t as int) * (k as int) + r,
                        r >= 0,
                        1 <= d <= t,
                        k >= 0,
                ;
            }
            if r >= d as u64 {
                None
            } else {
                Some(k * d as u64 + r)
            }
        },
    }
}

/// Byte position of a data chunk in the decoded output.
pub fn calc_data_chunk_write_pos(
    version: Version,
    seq_num: u32,
    data_par: Option<(usize, usize)>,
) -> (r: Option<u64>)
    requires
        seq_num >= 1,
        match data_par {
            None => true,
            Some((d, p)) => 1 <= d && 1 <= p && d + p <= 512,
        },
    ensures
        match r {
            None => spec_data_chunk_index(
                seq_num as int,
                match data_par {
                    None => None,
                    Some((d, p)) => Some((d as int, p as int)),
                },
            ) is None,
            Some(x) => spec_data_chunk_index(
                seq_num as int,
                match data_par {
                    None => None,
                    Some((d, p)) => Some((d as int, p as int)),
                },
            ) matches Some(ci) && x == ci * (spec_ver_to_block_size(version) - 16),
        },
{
    let ds = ver_to_data_size(version) as u64;
    match calc_data_chunk_write_index(seq_num, data_par) {
        None => None,
        Some(ci) => {
            proof {
                assert((ci as int) * (ds as int) <= 0xFFFF_FFFFu64 * 4096) by (nonlinear_arith)
                    requires
                        0 <= ci <= 0xFFFF_FFFFu64,
                        0 <= ds <= 4096,
                ;
            }
            Some(ci * ds)
        },
    }
}

/// Two different data sequence numbers never share an on-disk index: the
/// canonical placement is injective, which the inverse mapping shows.
pub proof fn lemma_index_injective(
    seq_a: int,
    seq_b: int,
    meta_enabled: Option<bool>,
    dpb: Option<(usize, usize, usize)>,
)
    requires
        1 <= seq_a <= 0xFFFF_FFFF,
        1 <= seq_b <= 0xFFFF_FFFF,
        spec_dpb_ok(dpb),
        spec_data_block_write_index(seq_a, meta_enabled, dpb) == spec_data_block_write_index(
            seq_b,
            meta_enabled,
            dpb,
        ),
    ensures
        seq_a == seq_b,
{
    lemma_seq_index_round_trip(seq_a, meta_enabled, dpb);
    lemma_seq_index_round_trip(seq_b, meta_enabled, dpb);
}

} // verus!
