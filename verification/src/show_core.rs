//! The inspector: scan a container for metadata blocks and hand back every
//! copy found (or only the first), each with the position it sat at.

use vstd::prelude::*;

use crate::decode_core::{parse_block_at, spec_meta_block_at};
use crate::sbx_block::Block;

verus! {

#[derive(Clone, Copy, Debug, PartialEq, Eq, Structural)]
pub struct Param {
    pub show_all: bool,
    pub from_pos: u64,
    pub to_pos: Option<u64>,
}

#[derive(Clone, Copy, Debug, PartialEq, Eq, Structural)]
pub struct Stats {
    pub meta_block_count: u64,
    pub bytes_processed: u64,
}

/// Where the scan window starts: the requested position, clipped to the
/// container.
pub open spec fn spec_window_start(param: Param, len: int) -> int {
    if param.from_pos <= len {
        param.from_pos as int
    } else {
        len
    }
}

/// Where the scan window ends.
pub open spec fn spec_window_end(param: Param, len: int) -> int {
    match param.to_pos {
        Option::None => len,
        Option::Some(t) => if t <= len {
            t as int
        } else {
            len
        },
    }
}

/// A position the inspector visits: inside the window, one scan step from
/// its start.
pub open spec fn spec_show_scan_pos(param: Param, len: int, p: int) -> bool {
    &&& spec_window_start(param, len) <= p < spec_window_end(param, len)
    &&& (p - spec_window_start(param, len)) % 128 == 0
}

/// Scan in scan-block steps and collect the metadata blocks found in the
/// window.  Every visited position holding an acceptable metadata block
/// contributes an entry (just the first one when not showing all), and
/// every entry is an acceptable metadata block at its reported position.
pub fn show_file(param: &Param, bytes: &Vec<u8>) -> (r: (Stats, Vec<(u64, Block)>))
    ensures
        r.0.meta_block_count == r.1.len(),
        forall|j: int|
            0 <= j < r.1.len() ==> {
                let (pos, b) = #[trigger] r.1@[j];
                &&& spec_show_scan_pos(*param, bytes@.len() as int, pos as int)
                &&& spec_meta_block_at(bytes@, pos as int)
                &&& b.spec_is_meta()
                &&& b.spec_type_consistent()
                &&& b.spec_metas_wf()
                &&& crate::sbx_block::header::spec_header_matches(
                    b.spec_header(),
                    bytes@.subrange(pos as int, pos + 16),
                )
                &&& crate::sbx_block::metadata::spec_metas_match(
                    bytes@.subrange(
                        pos + 16,
                        pos + crate::sbx_specs::spec_ver_to_block_size(b.spec_header().version),
                    ),
                    b.spec_metas(),
                )
            },
        param.show_all ==> forall|p: int|
            spec_show_scan_pos(*param, bytes@.len() as int, p) && spec_meta_block_at(bytes@, p)
                ==> exists|j: int| 0 <= j < r.1.len() && (#[trigger] r.1@[j]).0 == p,
        !param.show_all ==> r.1.len() <= 1 && (r.1.len() == 0 ==> forall|p: int|
            spec_show_scan_pos(*param, bytes@.len() as int, p) ==> !spec_meta_block_at(bytes@, p)),
{
    let ghost blen = bytes@.len() as int;
    let mut found: Vec<(u64, Block)> = Vec::new();
    let from: usize = if param.from_pos <= bytes.len() as u64 {
        param.from_pos as usize
    } else {
        bytes.len()
    };
    let end: usize = match param.to_pos {
        None => bytes.len(),
        Some(t) => if t <= bytes.len() as u64 {
            t as usize
        } else {
            bytes.len()
        },
    };
    let mut pos: usize = from;
    loop
        invariant
            from == spec_window_start(*param, blen),
            end == spec_window_end(*param, blen),
            from <= pos,
            end <= bytes.len(),
            blen == bytes@.len(),
            (pos - from) % 128 == 0,
            forall|j: int|
                0 <= j < found.len() ==> {
                    let (fp, fb) = #[trigger] found@[j];
                    &&& spec_show_scan_pos(*param, blen, fp as int)
                    &&& spec_meta_block_at(bytes@, fp as int)
                    &&& fb.spec_is_meta()
                    &&& fb.spec_type_consistent()
                    &&& fb.spec_metas_wf()
                    &&& crate::sbx_block::header::spec_header_matches(
                        fb.spec_header(),
                        bytes@.subrange(fp as int, fp + 16),
                    )
                    &&& crate::sbx_block::metadata::spec_metas_match(
                        bytes@.subrange(
                            fp + 16,
                            fp + crate::sbx_specs::spec_ver_to_block_size(
                                fb.spec_header().version,
                            ),
                        ),
                        fb.spec_metas(),
                    )
                },
            param.show_all ==> forall|p: int|
                spec_show_scan_pos(*param, blen, p) && p < pos && spec_meta_block_at(bytes@, p)
                    ==> exists|j: int| 0 <= j < found.len() && (#[trigger] found@[j]).0 == p,
            !param.show_all ==> found.len() <= 1 && (found.len() == 0 ==> forall|p: int|
                spec_show_scan_pos(*param, blen, p) && p < pos ==> !spec_meta_block_at(bytes@, p)),
        ensures
            forall|j: int|
                0 <= j < found.len() ==> {
                    let (fp, fb) = #[trigger] found@[j];
                    &&& spec_show_scan_pos(*param, blen, fp as int)
                    &&& spec_meta_block_at(bytes@, fp as int)
                    &&& fb.spec_is_meta()
                    &&& fb.spec_type_consistent()
                    &&& fb.spec_metas_wf()
                    &&& crate::sbx_block::header::spec_header_matches(
                        fb.spec_header(),
                        bytes@.subrange(fp as int, fp + 16),
                    )
                    &&& crate::sbx_block::metadata::spec_metas_match(
                        bytes@.subrange(
                            fp + 16,
                            fp + crate::sbx_specs::spec_ver_to_block_size(
                                fb.spec_header().version,
                            ),
                        ),
                        fb.spec_metas(),
                    )
                },
            param.show_all ==> forall|p: int|
                spec_show_scan_pos(*param, blen, p) && spec_meta_block_at(bytes@, p)
                    ==> exists|j: int| 0 <= j < found.len() && (#[trigger] found@[j]).0 == p,
            !param.show_all ==> found.len() <= 1 && (found.len() == 0 ==> forall|p: int|
                spec_show_scan_pos(*param, blen, p) ==> !spec_meta_block_at(bytes@, p)),
        decreases end - pos,
    {
        if pos >= end {
            break ;
        }
        if !param.show_all && found.len() > 0 {
            break ;
        }
        let ghost pre_found = found@;
        match parse_block_at(bytes, pos) {
            Some(block) => {
                if block.is_meta() {
                    proof {
                        assert(spec_meta_block_at(bytes@, pos as int));
                    }
                    found.push((pos as u64, block));
                } else {
                    proof {
                        let s16 = bytes@.subrange(pos as int, pos + 16);
                        assert(s16[12] == bytes@[pos + 12] && s16[13] == bytes@[pos + 13]
                            && s16[14] == bytes@[pos + 14] && s16[15] == bytes@[pos + 15]);
                        assert(!spec_meta_block_at(bytes@, pos as int));
                    }
                }
            },
            None => {
                proof {
                    assert(!spec_meta_block_at(bytes@, pos as int));
                }
            },
        }
        proof {
            if param.show_all {
                assert forall|p: int|
                    spec_show_scan_pos(*param, blen, p) && p <= pos && spec_meta_block_at(
                        bytes@,
                        p,
                    ) implies exists|j: int|
                    0 <= j < found.len() && (#[trigger] found@[j]).0 == p by {
                    if p < pos {
                        let j = choose|j: int|
                            0 <= j < pre_found.len() && (#[trigger] pre_found[j]).0 == p;
                        assert(found@[j].0 == p);
                    } else {
                        assert(found@[found@.len() - 1].0 == p);
                    }
                }
            }
            lemma_show_scan_step(*param, blen, pos as int);
        }
        if end - pos < 128 {
            break ;
        }
        pos = pos + 128;
    }
    let count = found.len() as u64;
    let stats = Stats { meta_block_count: count, bytes_processed: pos as u64 };
    (stats, found)
}

/// Between one visited position and the next there is no other.
proof fn lemma_show_scan_step(param: Param, len: int, pos: int)
    requires
        spec_window_start(param, len) <= pos,
        (pos - spec_window_start(param, len)) % 128 == 0,
    ensures
        forall|p: int| spec_show_scan_pos(param, len, p) && pos <= p < pos + 128 ==> p == pos,
        ((pos + 128) - spec_window_start(param, len)) % 128 == 0,
{
    let from = spec_window_start(param, len);
    vstd::arithmetic::div_mod::lemma_mod_adds((pos - from) as int, 128, 128);
    assert(128int % 128 == 0) by (nonlinear_arith);
    assert forall|p: int|
        spec_show_scan_pos(param, len, p) && pos <= p < pos + 128 implies p == pos by {
        let a = p - from;
        let b = pos - from;
        vstd::arithmetic::div_mod::lemma_fundamental_div_mod(a, 128);
        vstd::arithmetic::div_mod::lemma_fundamental_div_mod(b, 128);
        assert(a == 128 * (a / 128) && b == 128 * (b / 128));
        assert(a - b == 128 * (a / 128 - b / 128)) by (nonlinear_arith)
            requires
                a == 128 * (a / 128),
                b == 128 * (b / 128),
        ;
        assert(a / 128 - b / 128 == 0) by (nonlinear_arith)
            requires
                0 <= a - b < 128,
                a - b == 128 * (a / 128 - b / 128),
        ;
    }
}

} // verus!
