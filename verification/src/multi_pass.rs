//! The skip-good policies for writing over an existing container or output
//! file in more than one pass: check what is already there before writing.

use vstd::prelude::*;

use crate::sbx_block::header::Header;
use crate::sbx_block::Block;

verus! {

/// Whether every byte of the buffer is zero.
pub open spec fn spec_all_zero(b: Seq<u8>) -> bool {
    forall|i: int| 0 <= i < b.len() ==> b[i] == 0
}

/// Skip-good decision for a data chunk: write when nothing was read there
/// (end of file), or when what is there is entirely blank.
pub fn should_write_data_chunk(existing: &Vec<u8>, eof: bool) -> (r: bool)
    ensures
        r <==> (eof || spec_all_zero(existing@)),
{
    if eof {
        return true;
    }
    let mut i: usize = 0;
    while i < existing.len()
        invariant
            !eof,
            i <= existing.len(),
            forall|j: int| 0 <= j < i ==> existing@[j] == 0,
        decreases existing.len() - i,
    {
        if existing[i] != 0 {
            proof {
                assert(!spec_all_zero(existing@));
            }
            return false;
        }
        i = i + 1;
    }
    true
}

/// Skip-good decision for a whole block: write when nothing was read there
/// (end of file), when what is there does not parse as a block, or when
/// version, UID or sequence number disagree with the block to be written.
pub fn should_write_block(existing: &Vec<u8>, eof: bool, header: &Header) -> (r: bool)
    ensures
        eof ==> r,
        !r ==> exists|h2: Header|
            {
                &&& crate::sbx_block::header::spec_header_matches(
                    h2,
                    existing@.subrange(0, 16),
                )
                &&& h2.version == header.version
                &&& h2.file_uid == header.file_uid
                &&& h2.seq_num == header.seq_num
            },
{
    if eof {
        return true;
    }
    let mut check = Block::dummy();
    match check.sync_from_buffer(existing) {
        Err(_) => true,
        Ok(()) => {
            let h = *check.header();
            let differs = h.version != header.version || !crate::decode_core::uid_eq(
                &h.file_uid,
                &header.file_uid,
            ) || h.seq_num != header.seq_num;
            proof {
                if !differs {
                    assert(crate::sbx_block::header::spec_header_matches(
                        h,
                        existing@.subrange(0, 16),
                    ));
                }
            }
            differs
        },
    }
}

} // verus!
