//! Staging for the encode pipeline: a Lot is one batch of block-sized
//! slots (one RS set when Reed-Solomon is on), and a DataBlockBuffer is a
//! bank of lots filled in order, encoded, then written out.

use vstd::prelude::*;

use crate::container::{spec_write_at, ContainerBuf};
use crate::multihash::HashCtx;
use crate::rs_codec::{spec_shard_views, RSCodec};
use crate::sbx_block::header::Header;
use crate::sbx_block::layout::{spec_data_block_write_index, spec_dpb_ok, spec_seq_num_is_parity};
use crate::sbx_block::{calc_data_block_write_pos, write_padding, Block, BlockType};
use crate::sbx_specs::{
    spec_ver_to_block_size, spec_ver_uses_rs, ver_to_block_size, ver_to_data_size, Version,
};

verus! {

#[derive(Clone, Copy, Debug, PartialEq, Eq, Structural)]
pub enum InputType {
    Block,
    Data,
}

#[derive(Clone, Copy, Debug, PartialEq, Eq, Structural)]
pub enum OutputType {
    Block,
    Data,
    Disabled,
}

#[derive(Clone, Copy, Debug, PartialEq, Eq, Structural)]
pub enum BlockArrangement {
    OrderedAndNoMissing,
    OrderedButSomeMayBeMissing,
    Unordered,
}

/// What claiming a slot yields: its index, with `LastSlot` marking that the
/// lot is now full.
#[derive(Clone, Copy, Debug, PartialEq, Eq, Structural)]
pub enum GetSlotResult {
    NoSlot,
    Vacant(usize),
    LastSlot(usize),
}

/// Slot `i` of the lot is in its fresh state: a new data block numbered 1
/// with the lot's version and UID, no recorded position, no content length
/// and no padding mark.
pub open spec fn spec_slot_cleared(lot: Lot, i: int) -> bool {
    &&& 0 <= i < lot.blocks@.len()
    &&& i < lot.slot_write_pos@.len()
    &&& i < lot.slot_content_len_exc_header@.len()
    &&& i < lot.slot_is_padding@.len()
    &&& lot.blocks@[i].spec_header().seq_num == 1
    &&& !lot.blocks@[i].spec_is_meta()
    &&& lot.blocks@[i].spec_header().version == lot.version
    &&& lot.blocks@[i].spec_header().file_uid == lot.uid
    &&& lot.blocks@[i].spec_header().crc == 0
    &&& lot.slot_write_pos@[i] is None
    &&& lot.slot_content_len_exc_header@[i] is None
    &&& !lot.slot_is_padding@[i]
}

/// One batch of contiguous slots, each holding one serialized block.
pub struct Lot {
    pub version: Version,
    pub uid: [u8; 6],
    pub input_type: InputType,
    pub output_type: OutputType,
    pub arrangement: BlockArrangement,
    pub data_par_burst: Option<(usize, usize, usize)>,
    pub meta_enabled: bool,
    pub block_size: usize,
    pub data_size: usize,
    pub lot_size: usize,
    pub slots_used: usize,
    pub padding_byte_count_in_non_padding_blocks: usize,
    pub directly_writable_slots: usize,
    pub blocks: Vec<Block>,
    pub slots: Vec<Vec<u8>>,
    pub slot_write_pos: Vec<Option<u64>>,
    pub slot_content_len_exc_header: Vec<Option<usize>>,
    pub slot_is_padding: Vec<bool>,
    pub skip_good: bool,
    pub codec: Option<RSCodec>,
}

impl Lot {
    /// A lot's shape never changes: every per-slot vector spans the lot,
    /// every slot buffer is one block, the counts are consistent, and every
    /// staged block is a data block with a legal sequence number.
    pub open spec fn spec_wf(self) -> bool {
        &&& self.block_size == spec_ver_to_block_size(self.version)
        &&& self.data_size == self.block_size - 16
        &&& 1 <= self.lot_size <= 0x1_0000
        &&& self.blocks.len() == self.lot_size
        &&& self.slots.len() == self.lot_size
        &&& self.slot_write_pos.len() == self.lot_size
        &&& self.slot_content_len_exc_header.len() == self.lot_size
        &&& self.slot_is_padding.len() == self.lot_size
        &&& self.slots_used <= self.lot_size
        &&& 1 <= self.directly_writable_slots <= self.lot_size
        &&& spec_dpb_ok(self.data_par_burst)
        &&& (match self.data_par_burst {
            None => self.codec is None && !spec_ver_uses_rs(self.version)
                && self.directly_writable_slots == self.lot_size,
            Some((d, p, b)) => {
                &&& spec_ver_uses_rs(self.version)
                &&& d + p <= 256
                &&& self.lot_size == d + p
                &&& (self.codec matches Some(c) && c.spec_data() == d && c.spec_parity() == p
                    && c.spec_wf())
                &&& self.directly_writable_slots == (if self.input_type is Data {
                    d
                } else {
                    self.lot_size
                })
            },
        })
        &&& (forall|i: int|
            0 <= i < self.lot_size ==> (#[trigger] self.slots@[i])@.len() == self.block_size)
        &&& (forall|i: int|
            0 <= i < self.lot_size ==> !(#[trigger] self.blocks@[i]).spec_is_meta()
                && self.blocks@[i].spec_header().seq_num >= 1 && self.blocks@[i].spec_metas_wf()
                && self.blocks@[i].spec_header().version == self.version
                && self.blocks@[i].spec_header().file_uid == self.uid)
        &&& (forall|i: int|
            0 <= i < self.lot_size ==> match #[trigger] self.slot_content_len_exc_header@[i] {
                Option::Some(l) => 1 <= l <= self.data_size,
                Option::None => true,
            })
        &&& self.padding_byte_count_in_non_padding_blocks <= 0x1_0000_0000
    }

    pub fn new(
        version: Version,
        uid: Option<&[u8; 6]>,
        input_type: InputType,
        output_type: OutputType,
        arrangement: BlockArrangement,
        data_par_burst: Option<(usize, usize, usize)>,
        meta_enabled: bool,
        default_lot_size: usize,
        skip_good: bool,
    ) -> (r: Lot)
        requires
            1 <= default_lot_size <= 0x1_0000,
            spec_dpb_ok(data_par_burst),
            (data_par_burst is Some) == spec_ver_uses_rs(version),
            match data_par_burst {
                None => true,
                Some((d, p, _)) => d + p <= 256,
            },
        ensures
            r.spec_wf(),
            r.version == version,
            r.input_type == input_type,
            r.output_type == output_type,
            r.arrangement == arrangement,
            r.data_par_burst == data_par_burst,
            r.meta_enabled == meta_enabled,
            r.skip_good == skip_good,
            r.slots_used == 0,
            r.padding_byte_count_in_non_padding_blocks == 0,
            r.lot_size == (match data_par_burst {
                None => default_lot_size as int,
                Some((d, p, _)) => d + p,
            }),
            r.directly_writable_slots == (match data_par_burst {
                None => r.lot_size as int,
                Some((d, p, _)) => if input_type is Data {
                    d as int
                } else {
                    r.lot_size as int
                },
            }),
            match uid {
                Option::None => r.uid@ == seq![0u8, 0u8, 0u8, 0u8, 0u8, 0u8],
                Option::Some(u) => r.uid == *u,
            },
    {
        let lot_size = match data_par_burst {
            None => default_lot_size,
            Some((d, p, _)) => d + p,
        };
        let block_size = ver_to_block_size(version);
        let data_size = ver_to_data_size(version);
        let codec = match data_par_burst {
            None => None,
            Some((d, p, _)) => match RSCodec::new(d, p) {
                Ok(c) => Some(c),
                Err(_) => {
                    proof {
                        assert(false);
                    }
                    None
                },
            },
        };
        let directly_writable_slots = match input_type {
            InputType::Block => lot_size,
            InputType::Data => match data_par_burst {
                None => lot_size,
                Some((d, _, _)) => d,
            },
        };
        let uid_arr: [u8; 6] = match uid {
            None => {
                let z: [u8; 6] = [0, 0, 0, 0, 0, 0];
                proof {
                    assert(z@ =~= seq![0u8, 0u8, 0u8, 0u8, 0u8, 0u8]);
                }
                z
            },
            Some(u) => *u,
        };
        let mut blocks: Vec<Block> = Vec::new();
        let mut i: usize = 0;
        while i < lot_size
            invariant
                i <= lot_size,
                blocks.len() == i,
                forall|j: int|
                    0 <= j < i ==> !(#[trigger] blocks@[j]).spec_is_meta() && blocks@[j]
                        .spec_header().seq_num == 1 && blocks@[j].spec_metas_wf() && blocks@[j]
                        .spec_header().version == version && blocks@[j].spec_header().file_uid
                        == uid_arr,
            decreases lot_size - i,
        {
            blocks.push(Block::new(version, &uid_arr, BlockType::Data));
            i = i + 1;
        }
        let mut slots: Vec<Vec<u8>> = Vec::new();
        let mut j: usize = 0;
        while j < lot_size
            invariant
                j <= lot_size,
                slots.len() == j,
                block_size == spec_ver_to_block_size(version),
                forall|t: int| 0 <= t < j ==> (#[trigger] slots@[t])@.len() == block_size,
            decreases lot_size - j,
        {
            let mut s: Vec<u8> = Vec::new();
            let mut k: usize = 0;
            while k < block_size
                invariant
                    k <= block_size,
                    s.len() == k,
                decreases block_size - k,
            {
                s.push(0);
                k = k + 1;
            }
            slots.push(s);
            j = j + 1;
        }
        let mut slot_write_pos: Vec<Option<u64>> = Vec::new();
        let mut slot_content_len_exc_header: Vec<Option<usize>> = Vec::new();
        let mut slot_is_padding: Vec<bool> = Vec::new();
        let mut t: usize = 0;
        while t < lot_size
            invariant
                t <= lot_size,
                slot_write_pos.len() == t,
                slot_content_len_exc_header.len() == t,
                slot_is_padding.len() == t,
                forall|x: int|
                    0 <= x < t ==> #[trigger] slot_content_len_exc_header@[x] is None,
            decreases lot_size - t,
        {
            slot_write_pos.push(None);
            slot_content_len_exc_header.push(None);
            slot_is_padding.push(false);
            t = t + 1;
        }
        Lot {
            version,
            uid: uid_arr,
            input_type,
            output_type,
            arrangement,
            data_par_burst,
            meta_enabled,
            block_size,
            data_size,
            lot_size,
            slots_used: 0,
            padding_byte_count_in_non_padding_blocks: 0,
            directly_writable_slots,
            blocks,
            slots,
            slot_write_pos,
            slot_content_len_exc_header,
            slot_is_padding,
            skip_good,
            codec,
        }
    }

    pub fn lot_size(&self) -> (r: usize)
        ensures
            r == self.lot_size,
    {
        self.lot_size
    }

    pub fn active(&self) -> (r: bool)
        ensures
            r == (self.slots_used > 0),
    {
        self.slots_used > 0
    }

    pub fn is_full(&self) -> (r: bool)
        ensures
            r == (self.slots_used == self.directly_writable_slots),
    {
        self.slots_used == self.directly_writable_slots
    }

    /// Claim the next writable slot.
    pub fn get_slot(&mut self) -> (r: GetSlotResult)
        requires
            old(self).spec_wf(),
        ensures
            final(self).spec_wf(),
            match r {
                GetSlotResult::NoSlot => *final(self) == *old(self) && old(self).slots_used >= old(self).directly_writable_slots,
                GetSlotResult::Vacant(i) => i == old(self).slots_used && final(self).slots_used
                    == old(self).slots_used + 1 && final(self).slots_used < final(self).directly_writable_slots && lot_eq_except_used(*old(self), *final(self)),
                GetSlotResult::LastSlot(i) => i == old(self).slots_used && final(self).slots_used
                    == old(self).slots_used + 1 && final(self).slots_used == final(self).directly_writable_slots && lot_eq_except_used(*old(self), *final(self)),
            },
    {
        if self.slots_used < self.directly_writable_slots {
            let i = self.slots_used;
            self.slots_used = self.slots_used + 1;
            if self.slots_used == self.directly_writable_slots {
                GetSlotResult::LastSlot(i)
            } else {
                GetSlotResult::Vacant(i)
            }
        } else {
            GetSlotResult::NoSlot
        }
    }

    /// Give back the most recently claimed slot, clearing what it held:
    /// its block, position and content length return to their fresh state
    /// while every other slot is untouched.
    pub fn cancel_slot(&mut self)
        requires
            old(self).spec_wf(),
            old(self).slots_used >= 1,
        ensures
            final(self).spec_wf(),
            final(self).slots_used == old(self).slots_used - 1,
            final(self).padding_byte_count_in_non_padding_blocks == old(self).padding_byte_count_in_non_padding_blocks,
            lot_eq_except_slot_state(*old(self), *final(self)),
            final(self).uid == old(self).uid,
            final(self).slots@ == old(self).slots@,
            spec_slot_cleared(*final(self), old(self).slots_used - 1),
            forall|j: int|
                0 <= j < old(self).lot_size && j != old(self).slots_used - 1
                    ==> #[trigger] final(self).blocks@[j] == old(self).blocks@[j] && final(self).slot_write_pos@[j] == old(self).slot_write_pos@[j] && final(self).slot_content_len_exc_header@[j] == old(self).slot_content_len_exc_header@[j]
                    && final(self).slot_is_padding@[j] == old(self).slot_is_padding@[j],
    {
        self.slots_used = self.slots_used - 1;
        let i = self.slots_used;
        self.reset_slot(i);
    }

    fn reset_slot(&mut self, slot_index: usize)
        requires
            old(self).spec_wf(),
            slot_index < old(self).lot_size,
        ensures
            final(self).spec_wf(),
            final(self).slots_used == old(self).slots_used,
            final(self).padding_byte_count_in_non_padding_blocks == old(self).padding_byte_count_in_non_padding_blocks,
            lot_eq_except_slot_state(*old(self), *final(self)),
            final(self).uid == old(self).uid,
            final(self).slots@ == old(self).slots@,
            spec_slot_cleared(*final(self), slot_index as int),
            forall|j: int|
                0 <= j < old(self).lot_size && j != slot_index
                    ==> #[trigger] final(self).blocks@[j] == old(self).blocks@[j] && final(self).slot_write_pos@[j] == old(self).slot_write_pos@[j] && final(self).slot_content_len_exc_header@[j] == old(self).slot_content_len_exc_header@[j]
                    && final(self).slot_is_padding@[j] == old(self).slot_is_padding@[j],
    {
        let version = self.version;
        let uid = self.uid;
        let nb = Block::new(version, &uid, BlockType::Data);
        self.blocks.set(slot_index, nb);
        self.slot_write_pos.set(slot_index, None);
        self.slot_content_len_exc_header.set(slot_index, None);
        self.slot_is_padding.set(slot_index, false);
    }

    /// Clear every slot and start the lot afresh.
    pub fn reset(&mut self)
        requires
            old(self).spec_wf(),
        ensures
            final(self).spec_wf(),
            final(self).slots_used == 0,
            final(self).padding_byte_count_in_non_padding_blocks == 0,
            lot_eq_except_slot_state(*old(self), *final(self)),
            final(self).uid == old(self).uid,
            forall|i: int| 0 <= i < old(self).lot_size ==> spec_slot_cleared(*final(self), i),
    {
        self.slots_used = 0;
        self.padding_byte_count_in_non_padding_blocks = 0;
        let mut i: usize = 0;
        while i < self.lot_size()
            invariant
                i <= self.lot_size,
                self.spec_wf(),
                self.slots_used == 0,
                self.padding_byte_count_in_non_padding_blocks == 0,
                lot_eq_except_slot_state(*old(self), *self),
                self.uid == old(self).uid,
                forall|j: int| 0 <= j < i ==> spec_slot_cleared(*self, j),
            decreases self.lot_size - i,
        {
            let ghost pre = *self;
            self.reset_slot(i);
            proof {
                assert forall|j: int| 0 <= j < i + 1 implies spec_slot_cleared(*self, j) by {
                    if j < i {
                        assert(spec_slot_cleared(pre, j));
                        assert(self.blocks@[j] == pre.blocks@[j]);
                        assert(self.slot_write_pos@[j] == pre.slot_write_pos@[j]);
                        assert(self.slot_content_len_exc_header@[j]
                            == pre.slot_content_len_exc_header@[j]);
                        assert(self.slot_is_padding@[j] == pre.slot_is_padding@[j]);
                    }
                }
            }
            i = i + 1;
        }
    }

    /// Copy `data[from..from + len]` into the data area of a slot and record
    /// its content length.
    pub fn set_slot_content(&mut self, slot_index: usize, data: &Vec<u8>, from: usize, len: usize)
        requires
            old(self).spec_wf(),
            slot_index < old(self).lot_size,
            1 <= len <= old(self).data_size,
            from + len <= data.len(),
        ensures
            final(self).spec_wf(),
            final(self).slots_used == old(self).slots_used,
            final(self).slots@[slot_index as int]@ == old(self).slots@[slot_index as int]@
                .subrange(0, 16) + data@.subrange(from as int, from + len) + old(self).slots@[slot_index as int]@.skip(16 + len),
            final(self).slot_content_len_exc_header@ == old(self).slot_content_len_exc_header@.update(slot_index as int, Option::Some(len)),
            final(self).slots@ =~= old(self).slots@.update(
                slot_index as int,
                final(self).slots@[slot_index as int],
            ),
            lot_eq_except_content(*old(self), *final(self)),
    {
        let sb = &mut self.slots[slot_index];
        let ghost pre = sb@;
        store_range_offset(sb, 16, data, from, len);
        self.slot_content_len_exc_header.set(slot_index, Some(len));
    }
}

/// Everything but `slots_used` agrees.
pub open spec fn lot_eq_except_used(a: Lot, b: Lot) -> bool {
    &&& b.version == a.version
    &&& b.uid == a.uid
    &&& b.input_type == a.input_type
    &&& b.output_type == a.output_type
    &&& b.arrangement == a.arrangement
    &&& b.data_par_burst == a.data_par_burst
    &&& b.meta_enabled == a.meta_enabled
    &&& b.block_size == a.block_size
    &&& b.data_size == a.data_size
    &&& b.lot_size == a.lot_size
    &&& b.directly_writable_slots == a.directly_writable_slots
    &&& b.skip_good == a.skip_good
    &&& b.codec == a.codec
    &&& b.blocks@ == a.blocks@
    &&& b.slots@ == a.slots@
    &&& b.slot_write_pos@ == a.slot_write_pos@
    &&& b.slot_content_len_exc_header@ == a.slot_content_len_exc_header@
    &&& b.slot_is_padding@ == a.slot_is_padding@
    &&& b.padding_byte_count_in_non_padding_blocks == a.padding_byte_count_in_non_padding_blocks
}

/// The fixed configuration agrees; per-slot state may differ.
pub open spec fn lot_eq_except_slot_state(a: Lot, b: Lot) -> bool {
    &&& b.version == a.version
    &&& b.input_type == a.input_type
    &&& b.output_type == a.output_type
    &&& b.arrangement == a.arrangement
    &&& b.data_par_burst == a.data_par_burst
    &&& b.meta_enabled == a.meta_enabled
    &&& b.block_size == a.block_size
    &&& b.data_size == a.data_size
    &&& b.lot_size == a.lot_size
    &&& b.directly_writable_slots == a.directly_writable_slots
    &&& b.skip_good == a.skip_good
    &&& b.codec == a.codec
}

/// The configuration and the claimed-slot count agree; slot contents and
/// content lengths may differ.
pub open spec fn lot_eq_except_content(a: Lot, b: Lot) -> bool {
    &&& lot_eq_except_slot_state(a, b)
    &&& b.slots_used == a.slots_used
    &&& b.blocks@ == a.blocks@
    &&& b.slot_write_pos@ == a.slot_write_pos@
    &&& b.slot_is_padding@ == a.slot_is_padding@
    &&& b.padding_byte_count_in_non_padding_blocks == a.padding_byte_count_in_non_padding_blocks
}

/// Overwrite `buffer[at..at + len]` with `data[from..from + len]`.
pub fn store_range_offset(buffer: &mut Vec<u8>, at: usize, data: &Vec<u8>, from: usize, len: usize)
    requires
        at + len <= old(buffer).len(),
        from + len <= data.len(),
    ensures
        final(buffer).len() == old(buffer).len(),
        final(buffer)@ == old(buffer)@.subrange(0, at as int) + data@.subrange(
            from as int,
            from + len,
        ) + old(buffer)@.skip(at + len),
{
    let mut i: usize = 0;
    while i < len
        invariant
            i <= len,
            at + len <= buffer.len(),
            from + len <= data.len(),
            buffer.len() == old(buffer).len(),
            buffer@.subrange(0, at as int) == old(buffer)@.subrange(0, at as int),
            buffer@.subrange(at as int, at + i) == data@.subrange(from as int, from + i),
            buffer@.skip(at + len) == old(buffer)@.skip(at + len),
            buffer@.subrange(at + i, at + len) == old(buffer)@.subrange(at + i, at + len),
        decreases len - i,
    {
        let ghost pre = buffer@;
        buffer.set(at + i, data[from + i]);
        proof {
            assert(buffer@.subrange(0, at as int) =~= pre.subrange(0, at as int));
            assert(buffer@.subrange(at as int, at + i + 1) =~= data@.subrange(
                from as int,
                from + i + 1,
            ));
            assert(buffer@.skip(at + len) =~= pre.skip(at + len));
            assert forall|x: int| 0 <= x < len - i - 1 implies #[trigger] (pre.subrange(
                at + i + 1,
                at + len,
            )[x]) == old(buffer)@.subrange(at + i + 1, at + len)[x] by {
                assert(pre.subrange(at + i, at + len)[x + 1] == old(buffer)@.subrange(
                    at + i,
                    at + len,
                )[x + 1]);
            }
            assert(pre.subrange(at + i + 1, at + len) =~= old(buffer)@.subrange(
                at + i + 1,
                at + len,
            ));
            assert(buffer@.subrange(at + i + 1, at + len) =~= pre.subrange(at + i + 1, at + len));
        }
        i = i + 1;
    }
    proof {
        assert(buffer@ =~= buffer@.subrange(0, at as int) + data@.subrange(from as int, from + len)
            + buffer@.skip(at + len));
    }
}

/// Content length of a slot: what was recorded, or a full data area.
pub open spec fn spec_slot_content_len(lot: Lot, i: int) -> int {
    match lot.slot_content_len_exc_header@[i] {
        Option::Some(l) => l as int,
        Option::None => lot.data_size as int,
    }
}

/// Whether a slot's bytes belong to the original file: a data block that is
/// neither padding nor parity.
pub open spec fn spec_slot_eligible(lot: Lot, i: int) -> bool {
    &&& !lot.blocks@[i].spec_is_meta()
    &&& !lot.slot_is_padding@[i]
    &&& !(match lot.data_par_burst {
        Option::None => false,
        Option::Some((d, p, _)) => spec_seq_num_is_parity(
            lot.blocks@[i].spec_header().seq_num as int,
            d as int,
            p as int,
        ),
    })
}

/// The bytes slot `i` feeds into the hash.
pub open spec fn spec_slot_feed(lot: Lot, i: int) -> Seq<u8> {
    if spec_slot_eligible(lot, i) {
        lot.slots@[i]@.subrange(16, 16 + spec_slot_content_len(lot, i))
    } else {
        Seq::<u8>::empty()
    }
}

/// The bytes the first `n` slots feed into the hash, in slot order.
pub open spec fn spec_lot_feed_up_to(lot: Lot, n: int) -> Seq<u8>
    decreases n,
{
    if n <= 0 {
        Seq::<u8>::empty()
    } else {
        spec_lot_feed_up_to(lot, n - 1) + spec_slot_feed(lot, n - 1)
    }
}

/// Everything this lot feeds into the hash.
pub open spec fn spec_lot_feed(lot: Lot) -> Seq<u8> {
    spec_lot_feed_up_to(lot, lot.slots_used as int)
}

/// Padding bytes recorded over the first `n` slots.
pub open spec fn spec_padding_sum(lens: Seq<Option<usize>>, data_size: int, n: int) -> int
    decreases n,
{
    if n <= 0 {
        0
    } else {
        spec_padding_sum(lens, data_size, n - 1) + match lens[n - 1] {
            Option::Some(l) => data_size - l,
            Option::None => 0int,
        }
    }
}

impl Lot {
    /// Pad every short slot's data area with the padding byte, and when
    /// Reed-Solomon is on, add blank padding blocks until the data shards
    /// are complete.
    pub fn fill_in_padding(&mut self)
        requires
            old(self).spec_wf(),
            old(self).arrangement is OrderedAndNoMissing,
            old(self).padding_byte_count_in_non_padding_blocks == 0,
            match old(self).data_par_burst {
                Option::None => true,
                Option::Some((d, _, _)) => old(self).slots_used <= d,
            },
        ensures
            final(self).spec_wf(),
            lot_eq_except_slot_state(*old(self), *final(self)),
            final(self).blocks@ == old(self).blocks@,
            final(self).slot_write_pos@ == old(self).slot_write_pos@,
            final(self).slot_content_len_exc_header@ == old(self).slot_content_len_exc_header@,
            old(self).slots_used == 0 ==> *final(self) == *old(self),
            final(self).slots_used == (if old(self).slots_used == 0 {
                0int
            } else {
                match old(self).data_par_burst {
                    Option::None => old(self).slots_used as int,
                    Option::Some((d, _, _)) => d as int,
                }
            }),
            final(self).padding_byte_count_in_non_padding_blocks == spec_padding_sum(
                old(self).slot_content_len_exc_header@,
                old(self).data_size as int,
                old(self).slots_used as int,
            ),
            forall|i: int|
                0 <= i < old(self).slots_used ==> (#[trigger] final(self).slots@[i])@.subrange(
                    0,
                    16 + spec_slot_content_len(*old(self), i),
                ) == old(self).slots@[i]@.subrange(0, 16 + spec_slot_content_len(*old(self), i)),
            forall|i: int|
                0 <= i < old(self).slots_used ==> forall|x: int|
                    16 + spec_slot_content_len(*old(self), i) <= x < old(self).block_size
                        ==> (#[trigger] final(self).slots@[i])@[x] == 0x1A,
            forall|i: int|
                old(self).slots_used <= i < final(self).slots_used
                    ==> (#[trigger] final(self).slots@[i])@.subrange(0, 16) == old(self).slots@[i]@.subrange(0, 16) && (forall|x: int|
                    16 <= x < old(self).block_size ==> final(self).slots@[i]@[x] == 0x1A),
            forall|i: int|
                0 <= i < old(self).lot_size ==> #[trigger] final(self).slot_is_padding@[i] == (
                old(self).slot_is_padding@[i] || (old(self).slots_used <= i < final(self).slots_used)),
            forall|i: int|
                final(self).slots_used <= i < old(self).lot_size ==> #[trigger] final(self).slots@[i] == old(self).slots@[i],
    {
        if self.slots_used == 0 {
            return ;
        }
        let used = self.slots_used;
        let version = self.version;
        let data_size = self.data_size;
        let mut i: usize = 0;
        while i < used
            invariant
                i <= used,
                used == old(self).slots_used,
                self.spec_wf(),
                lot_eq_except_slot_state(*old(self), *self),
                self.slots_used == old(self).slots_used,
                self.blocks@ == old(self).blocks@,
                self.slot_write_pos@ == old(self).slot_write_pos@,
                self.slot_content_len_exc_header@ == old(self).slot_content_len_exc_header@,
                self.slot_is_padding@ == old(self).slot_is_padding@,
                version == self.version,
                data_size == self.data_size,
                used <= self.lot_size,
                self.padding_byte_count_in_non_padding_blocks == spec_padding_sum(
                    old(self).slot_content_len_exc_header@,
                    old(self).data_size as int,
                    i as int,
                ),
                self.padding_byte_count_in_non_padding_blocks <= i * 4096,
                forall|j: int|
                    0 <= j < i ==> (#[trigger] self.slots@[j])@.subrange(
                        0,
                        16 + spec_slot_content_len(*old(self), j),
                    ) == old(self).slots@[j]@.subrange(
                        0,
                        16 + spec_slot_content_len(*old(self), j),
                    ),
                forall|j: int|
                    0 <= j < i ==> forall|x: int|
                        16 + spec_slot_content_len(*old(self), j) <= x < old(self).block_size
                            ==> (#[trigger] self.slots@[j])@[x] == 0x1A,
                forall|j: int| i <= j < self.lot_size ==> #[trigger] self.slots@[j] == old(self).slots@[j],
            decreases used - i,
        {
            proof {
                assert(spec_padding_sum(
                    old(self).slot_content_len_exc_header@,
                    old(self).data_size as int,
                    i + 1,
                ) == spec_padding_sum(
                    old(self).slot_content_len_exc_header@,
                    old(self).data_size as int,
                    i as int,
                ) + match old(self).slot_content_len_exc_header@[i as int] {
                    Option::Some(l) => old(self).data_size - l,
                    Option::None => 0int,
                });
            }
            match self.slot_content_len_exc_header[i] {
                None => {},
                Some(len) => {
                    let ghost preslots = self.slots@;
                    let pad = write_padding(version, len, &mut self.slots[i]);
                    self.padding_byte_count_in_non_padding_blocks =
                        self.padding_byte_count_in_non_padding_blocks + pad;
                    proof {
                        assert(self.slots@ =~= preslots.update(i as int, self.slots@[i as int]));
                        assert(self.slots@[i as int]@.subrange(
                            0,
                            16 + spec_slot_content_len(*old(self), i as int),
                        ) =~= old(self).slots@[i as int]@.subrange(
                            0,
                            16 + spec_slot_content_len(*old(self), i as int),
                        ));
                    }
                },
            }
            i = i + 1;
        }
        match self.data_par_burst {
            None => {},
            Some((d, _, _)) => {
                let mut j: usize = self.slots_used;
                while j < d
                    invariant
                        old(self).slots_used <= j <= d,
                        self.spec_wf(),
                        lot_eq_except_slot_state(*old(self), *self),
                        self.slots_used == old(self).slots_used,
                        self.data_par_burst matches Option::Some((dd, _, _)) && dd == d,
                        d <= self.lot_size,
                        self.blocks@ == old(self).blocks@,
                        self.slot_write_pos@ == old(self).slot_write_pos@,
                        self.slot_content_len_exc_header@ == old(self).slot_content_len_exc_header@,
                        version == self.version,
                        self.padding_byte_count_in_non_padding_blocks == spec_padding_sum(
                            old(self).slot_content_len_exc_header@,
                            old(self).data_size as int,
                            old(self).slots_used as int,
                        ),
                        forall|x: int|
                            0 <= x < old(self).lot_size ==> #[trigger] self.slot_is_padding@[x]
                                == (old(self).slot_is_padding@[x] || (old(self).slots_used <= x
                                < j)),
                        forall|t: int|
                            0 <= t < old(self).slots_used ==> (#[trigger] self.slots@[t])@
                                .subrange(0, 16 + spec_slot_content_len(*old(self), t)) == old(self).slots@[t]@.subrange(0, 16 + spec_slot_content_len(*old(self), t)),
                        forall|t: int|
                            0 <= t < old(self).slots_used ==> forall|x: int|
                                16 + spec_slot_content_len(*old(self), t) <= x < old(self).block_size ==> (#[trigger] self.slots@[t])@[x] == 0x1A,
                        forall|t: int|
                            old(self).slots_used <= t < j ==> (#[trigger] self.slots@[t])@
                                .subrange(0, 16) == old(self).slots@[t]@.subrange(0, 16) && (
                            forall|x: int|
                                16 <= x < old(self).block_size ==> self.slots@[t]@[x] == 0x1A),
                        forall|t: int|
                            j <= t < self.lot_size ==> #[trigger] self.slots@[t] == old(self).slots@[t],
                    decreases d - j,
                {
                    let ghost preslots = self.slots@;
                    let _ = write_padding(version, 0, &mut self.slots[j]);
                    self.slot_is_padding.set(j, true);
                    proof {
                        assert(self.slots@ =~= preslots.update(j as int, self.slots@[j as int]));
                        assert(self.slots@[j as int]@.subrange(0, 16) =~= old(self).slots@[j as int]@.subrange(0, 16));
                    }
                    j = j + 1;
                }
                self.slots_used = d;
            },
        }
    }

    /// Compute the parity shards from the data shards and fill the parity
    /// slots; afterwards the whole lot is in use.
    pub fn rs_encode(&mut self)
        requires
            old(self).spec_wf(),
            old(self).arrangement is OrderedAndNoMissing,
            match old(self).data_par_burst {
                Option::None => true,
                Option::Some((d, _, _)) => old(self).slots_used == 0 || old(self).slots_used == d,
            },
        ensures
            final(self).spec_wf(),
            lot_eq_except_slot_state(*old(self), *final(self)),
            final(self).blocks@ == old(self).blocks@,
            final(self).slot_write_pos@ == old(self).slot_write_pos@,
            final(self).slot_content_len_exc_header@ == old(self).slot_content_len_exc_header@,
            final(self).slot_is_padding@ == old(self).slot_is_padding@,
            final(self).padding_byte_count_in_non_padding_blocks == old(self).padding_byte_count_in_non_padding_blocks,
            (old(self).slots_used == 0 || old(self).data_par_burst is None) ==> *final(self)
                == *old(self),
            final(self).slots_used == (if old(self).slots_used == 0 {
                0int
            } else {
                match old(self).data_par_burst {
                    Option::None => old(self).slots_used as int,
                    Option::Some(_) => old(self).lot_size as int,
                }
            }),
            forall|i: int|
                0 <= i < old(self).slots_used ==> #[trigger] final(self).slots@[i] == old(self).slots@[i],
            match old(self).data_par_burst {
                Option::None => true,
                Option::Some((d, p, _)) => old(self).slots_used == d ==> {
                    &&& (forall|i: int|
                        d <= i < old(self).lot_size ==> (#[trigger] final(self).slots@[i])@
                            .subrange(0, 16) == old(self).slots@[i]@.subrange(0, 16))
                    &&& (forall|i: int|
                        d <= i < old(self).lot_size ==> (#[trigger] final(self).slots@[i])@.skip(
                            16,
                        ) == crate::rs_codec::rs_parity_of(
                            d as int,
                            p as int,
                            Seq::new(d as nat, |t: int| old(self).slots@[t]@.skip(16)),
                        )[i - d])
                },
            },
    {
        if self.slots_used == 0 {
            return ;
        }
        let codec = match &self.codec {
            None => {
                return ;
            },
            Some(c) => *c,
        };
        let d = codec.data_shard_count();
        let lot_size = self.lot_size;
        let mut shards: Vec<Vec<u8>> = Vec::new();
        let mut i: usize = 0;
        while i < lot_size
            invariant
                i <= lot_size,
                self.spec_wf(),
                lot_size == self.lot_size,
                shards.len() == i,
                forall|j: int|
                    0 <= j < i ==> (#[trigger] shards@[j])@ == self.slots@[j]@.skip(16),
            decreases lot_size - i,
        {
            let row = copy_tail(&self.slots[i], 16);
            shards.push(row);
            i = i + 1;
        }
        proof {
            assert(spec_shard_views(shards@)[0] == shards@[0]@);
            assert(shards@[0]@.len() == self.data_size);
            assert forall|j: int| 0 <= j < shards@.len() implies #[trigger] spec_shard_views(
                shards@,
            )[j].len() == shards@[0]@.len() as int by {
                assert(spec_shard_views(shards@)[j] == shards@[j]@);
            }
        }
        let ghost pre_shards = shards@;
        proof {
            assert(pre_shards[0]@.len() == self.data_size);
        }
        codec.encode(&mut shards);
        let mut w: usize = d;
        proof {
            assert forall|j: int| 0 <= j < shards@.len() implies (#[trigger] shards@[j])@.len()
                == self.data_size as int by {
                assert(spec_shard_views(shards@)[j] == shards@[j]@);
            }
            assert(spec_shard_views(pre_shards).take(d as int) =~= Seq::new(
                d as nat,
                |t: int| self.slots@[t]@.skip(16),
            ));
            assert(forall|j: int|
                d <= j < lot_size ==> (#[trigger] shards@[j])@ == crate::rs_codec::rs_parity_of(
                    d as int,
                    codec.spec_parity(),
                    spec_shard_views(pre_shards).take(d as int),
                )[j - d]);
        }
        while w < lot_size
            invariant
                d <= w <= lot_size,
                self.spec_wf(),
                lot_size == self.lot_size,
                lot_eq_except_slot_state(*old(self), *self),
                self.slots_used == old(self).slots_used,
                self.blocks@ == old(self).blocks@,
                self.slot_write_pos@ == old(self).slot_write_pos@,
                self.slot_content_len_exc_header@ == old(self).slot_content_len_exc_header@,
                self.slot_is_padding@ == old(self).slot_is_padding@,
                self.padding_byte_count_in_non_padding_blocks == old(self).padding_byte_count_in_non_padding_blocks,
                shards.len() == lot_size,
                forall|j: int| 0 <= j < lot_size ==> (#[trigger] shards@[j])@.len() == self.data_size,
                forall|j: int| 0 <= j < w && j < d ==> #[trigger] self.slots@[j] == old(self).slots@[j],
                forall|j: int| w <= j < lot_size ==> #[trigger] self.slots@[j] == old(self).slots@[j],
                forall|j: int| 0 <= j < d ==> #[trigger] self.slots@[j] == old(self).slots@[j],
                forall|j: int|
                    d <= j < w ==> (#[trigger] self.slots@[j])@.subrange(0, 16) == old(self).slots@[j]@.subrange(0, 16) && self.slots@[j]@.skip(16) == shards@[j]@,
            decreases lot_size - w,
        {
            let ghost preslots = self.slots@;
            let row_len = shards[w].len();
            store_range_offset_from(&mut self.slots, w, 16, &shards, w, 0, row_len);
            proof {
                assert(self.slots@ =~= preslots.update(w as int, self.slots@[w as int]));
                assert(self.slots@[w as int]@.subrange(0, 16) =~= preslots[w as int]@.subrange(
                    0,
                    16,
                ));
                assert(self.slots@[w as int]@.skip(16) =~= shards@[w as int]@);
            }
            w = w + 1;
        }
        self.slots_used = lot_size;
    }
}

/// Copy the bytes of `src` from `at` on into a fresh vector.
pub fn copy_tail(src: &Vec<u8>, at: usize) -> (r: Vec<u8>)
    requires
        at <= src.len(),
    ensures
        r@ == src@.skip(at as int),
{
    let mut v: Vec<u8> = Vec::new();
    let mut i = at;
    while i < src.len()
        invariant
            at <= i <= src.len(),
            v@ == src@.subrange(at as int, i as int),
        decreases src.len() - i,
    {
        v.push(src[i]);
        proof {
            assert(src@.subrange(at as int, i + 1) =~= src@.subrange(at as int, i as int).push(
                src@[i as int],
            ));
        }
        i = i + 1;
    }
    proof {
        assert(src@.subrange(at as int, src@.len() as int) =~= src@.skip(at as int));
    }
    v
}

/// Overwrite `dst[di][at..at + len]` with `src[si][from..from + len]`.
fn store_range_offset_from(
    dst: &mut Vec<Vec<u8>>,
    di: usize,
    at: usize,
    src: &Vec<Vec<u8>>,
    si: usize,
    from: usize,
    len: usize,
)
    requires
        di < old(dst).len(),
        si < src.len(),
        at + len <= old(dst)@[di as int]@.len(),
        from + len <= src@[si as int]@.len(),
    ensures
        final(dst).len() == old(dst).len(),
        final(dst)@ == old(dst)@.update(di as int, final(dst)@[di as int]),
        final(dst)@[di as int]@ == old(dst)@[di as int]@.subrange(0, at as int)
            + src@[si as int]@.subrange(from as int, from + len) + old(dst)@[di as int]@.skip(
            at + len,
        ),
{
    let b = &mut dst[di];
    store_range_offset(b, at, &src[si], from, len);
}

impl Lot {
    /// Number the used slots consecutively from the lot's first sequence
    /// number.
    pub fn set_block_seq_num_based_on_lot_start_seq_num(&mut self, lot_start_seq_num: u32)
        requires
            old(self).spec_wf(),
            old(self).arrangement is OrderedAndNoMissing,
            1 <= lot_start_seq_num,
            lot_start_seq_num + old(self).slots_used <= 0x1_0000_0000,
        ensures
            final(self).spec_wf(),
            lot_eq_except_slot_state(*old(self), *final(self)),
            final(self).slots_used == old(self).slots_used,
            final(self).slots@ == old(self).slots@,
            final(self).slot_write_pos@ == old(self).slot_write_pos@,
            final(self).slot_content_len_exc_header@ == old(self).slot_content_len_exc_header@,
            final(self).slot_is_padding@ == old(self).slot_is_padding@,
            final(self).padding_byte_count_in_non_padding_blocks == old(self).padding_byte_count_in_non_padding_blocks,
            final(self).blocks@.len() == old(self).blocks@.len(),
            forall|i: int|
                0 <= i < old(self).slots_used ==> (#[trigger] final(self).blocks@[i])
                    .spec_header() == (Header {
                    seq_num: (lot_start_seq_num + i) as u32,
                    ..old(self).blocks@[i].spec_header()
                }),
            forall|i: int|
                old(self).slots_used <= i < old(self).lot_size ==> #[trigger] final(self).blocks@[i] == old(self).blocks@[i],
    {
        let used = self.slots_used;
        let mut i: usize = 0;
        while i < used
            invariant
                i <= used,
                used == old(self).slots_used,
                self.spec_wf(),
                lot_eq_except_slot_state(*old(self), *self),
                self.slots_used == old(self).slots_used,
                self.slots@ == old(self).slots@,
                self.slot_write_pos@ == old(self).slot_write_pos@,
                self.slot_content_len_exc_header@ == old(self).slot_content_len_exc_header@,
                self.slot_is_padding@ == old(self).slot_is_padding@,
                self.padding_byte_count_in_non_padding_blocks == old(self).padding_byte_count_in_non_padding_blocks,
                1 <= lot_start_seq_num,
                lot_start_seq_num + used <= 0x1_0000_0000,
                self.blocks@.len() == old(self).blocks@.len(),
                forall|j: int|
                    0 <= j < i ==> (#[trigger] self.blocks@[j]).spec_header() == (Header {
                        seq_num: (lot_start_seq_num + j) as u32,
                        ..old(self).blocks@[j].spec_header()
                    }),
                forall|j: int| i <= j < self.lot_size ==> #[trigger] self.blocks@[j] == old(self).blocks@[j],
            decreases used - i,
        {
            let ghost preblocks = self.blocks@;
            let seq = lot_start_seq_num + i as u32;
            let b = &mut self.blocks[i];
            b.set_seq_num(seq);
            proof {
                assert(self.blocks@ =~= preblocks.update(i as int, self.blocks@[i as int]));
            }
            i = i + 1;
        }
    }

    /// Serialize every used slot's header (with a fresh checksum over its
    /// payload) into its slot buffer.
    pub fn sync_blocks_to_slots(&mut self)
        requires
            old(self).spec_wf(),
        ensures
            final(self).spec_wf(),
            lot_eq_except_slot_state(*old(self), *final(self)),
            final(self).slots_used == old(self).slots_used,
            final(self).slot_write_pos@ == old(self).slot_write_pos@,
            final(self).slot_content_len_exc_header@ == old(self).slot_content_len_exc_header@,
            final(self).slot_is_padding@ == old(self).slot_is_padding@,
            final(self).padding_byte_count_in_non_padding_blocks == old(self).padding_byte_count_in_non_padding_blocks,
            final(self).blocks@.len() == old(self).blocks@.len(),
            forall|i: int|
                0 <= i < old(self).slots_used ==> (#[trigger] final(self).blocks@[i])
                    .spec_header() == (Header {
                    crc: final(self).blocks@[i].spec_header().crc,
                    ..old(self).blocks@[i].spec_header()
                }),
            forall|i: int|
                old(self).slots_used <= i < old(self).lot_size ==> #[trigger] final(self).blocks@[i] == old(self).blocks@[i] && final(self).slots@[i] == old(self).slots@[i],
            forall|i: int|
                0 <= i < old(self).slots_used ==> (#[trigger] final(self).slots@[i])@.skip(16)
                    == old(self).slots@[i]@.skip(16),
            forall|i: int|
                0 <= i < old(self).slots_used
                    ==> crate::sbx_block::header::spec_header_matches(
                    (#[trigger] final(self).blocks@[i]).spec_header(),
                    final(self).slots@[i]@.subrange(0, 16),
                ) && final(self).blocks@[i].spec_header().crc == crate::sbx_block::spec_block_crc(
                    final(self).blocks@[i].spec_header(),
                    final(self).slots@[i]@.skip(16),
                ),
    {
        let used = self.slots_used;
        let mut i: usize = 0;
        while i < used
            invariant
                i <= used,
                used == old(self).slots_used,
                self.spec_wf(),
                lot_eq_except_slot_state(*old(self), *self),
                self.slots_used == old(self).slots_used,
                self.slot_write_pos@ == old(self).slot_write_pos@,
                self.slot_content_len_exc_header@ == old(self).slot_content_len_exc_header@,
                self.slot_is_padding@ == old(self).slot_is_padding@,
                self.padding_byte_count_in_non_padding_blocks == old(self).padding_byte_count_in_non_padding_blocks,
                self.blocks@.len() == old(self).blocks@.len(),
                forall|j: int|
                    0 <= j < i ==> (#[trigger] self.blocks@[j]).spec_header() == (Header {
                        crc: self.blocks@[j].spec_header().crc,
                        ..old(self).blocks@[j].spec_header()
                    }),
                forall|j: int| i <= j < self.lot_size ==> #[trigger] self.blocks@[j] == old(self).blocks@[j],
                forall|j: int| i <= j < self.lot_size ==> #[trigger] self.slots@[j] == old(self).slots@[j],
                forall|j: int|
                    0 <= j < i ==> (#[trigger] self.slots@[j])@.skip(16) == old(self).slots@[j]@.skip(16),
                forall|j: int|
                    0 <= j < i ==> crate::sbx_block::header::spec_header_matches(
                        (#[trigger] self.blocks@[j]).spec_header(),
                        self.slots@[j]@.subrange(0, 16),
                    ) && self.blocks@[j].spec_header().crc == crate::sbx_block::spec_block_crc(
                        self.blocks@[j].spec_header(),
                        self.slots@[j]@.skip(16),
                    ),
            decreases used - i,
        {
            let ghost preblocks = self.blocks@;
            let ghost preslots = self.slots@;
            let crc = self.blocks[i].crc_ccitt(&self.slots[i]);
            let b = &mut self.blocks[i];
            b.set_crc(crc);
            proof {
                assert(self.blocks@ =~= preblocks.update(i as int, self.blocks@[i as int]));
            }
            let h = *self.blocks[i].header();
            proof {
                assert(preslots[i as int]@.subrange(16, self.block_size as int)
                    =~= preslots[i as int]@.skip(16));
                assert(crate::sbx_block::header::spec_header_crc(h)
                    == crate::sbx_block::header::spec_header_crc(preblocks[i as int].spec_header()));
                assert(crc == crate::sbx_block::spec_block_crc(h, preslots[i as int]@.skip(16)));
            }
            crate::sbx_block::header::store_header(&h, &mut self.slots[i]);
            proof {
                assert(self.slots@ =~= preslots.update(i as int, self.slots@[i as int]));
                assert(self.slots@[i as int]@.skip(16) =~= preslots[i as int]@.skip(16));
            }
            i = i + 1;
        }
    }

    /// Stage one whole batch: pad, compute parity, number the blocks from
    /// the lot's first sequence number and serialize the headers.
    pub fn encode(&mut self, lot_start_seq_num: u32)
        requires
            old(self).spec_wf(),
            old(self).input_type is Data,
            old(self).arrangement is OrderedAndNoMissing,
            old(self).padding_byte_count_in_non_padding_blocks == 0,
            old(self).slots_used <= old(self).directly_writable_slots,
            1 <= lot_start_seq_num,
            lot_start_seq_num + old(self).lot_size <= 0x1_0000_0000,
        ensures
            final(self).spec_wf(),
            lot_eq_except_slot_state(*old(self), *final(self)),
            final(self).slots_used == (if old(self).slots_used == 0 {
                0int
            } else {
                match old(self).data_par_burst {
                    Option::None => old(self).slots_used as int,
                    Option::Some(_) => old(self).lot_size as int,
                }
            }),
            final(self).slot_content_len_exc_header@ == old(self).slot_content_len_exc_header@,
            final(self).padding_byte_count_in_non_padding_blocks == spec_padding_sum(
                old(self).slot_content_len_exc_header@,
                old(self).data_size as int,
                old(self).slots_used as int,
            ),
            forall|i: int|
                0 <= i < final(self).slots_used ==> (#[trigger] final(self).blocks@[i])
                    .spec_header().seq_num == lot_start_seq_num + i,
            forall|i: int|
                0 <= i < final(self).slots_used ==> (#[trigger] final(self).blocks@[i])
                    .spec_header().file_uid == old(self).uid && final(self).blocks@[i]
                    .spec_header().version == old(self).version,
            forall|i: int|
                0 <= i < old(self).slots_used ==> (#[trigger] final(self).slots@[i])@.subrange(
                    16,
                    16 + spec_slot_content_len(*old(self), i),
                ) == old(self).slots@[i]@.subrange(16, 16 + spec_slot_content_len(*old(self), i)),
            forall|i: int|
                0 <= i < final(self).slots_used
                    ==> crate::sbx_block::header::spec_header_matches(
                    (#[trigger] final(self).blocks@[i]).spec_header(),
                    final(self).slots@[i]@.subrange(0, 16),
                ) && final(self).blocks@[i].spec_header().crc == crate::sbx_block::spec_block_crc(
                    final(self).blocks@[i].spec_header(),
                    final(self).slots@[i]@.skip(16),
                ),
            forall|i: int|
                0 <= i < old(self).lot_size ==> #[trigger] final(self).slot_is_padding@[i] == (
                old(self).slot_is_padding@[i] || (old(self).slots_used <= i < final(self).slots_used && (old(self).data_par_burst matches Option::Some((d, _, _)) && i
                    < d))),
    {
        proof {
            assert(old(self).uid == self.uid);
        }
        self.fill_in_padding();
        let ghost after_fill = *self;
        self.rs_encode();
        let ghost after_rs = *self;
        self.set_block_seq_num_based_on_lot_start_seq_num(lot_start_seq_num);
        let ghost after_seq = *self;
        self.sync_blocks_to_slots();
        proof {
            assert forall|i: int| 0 <= i < self.slots_used implies (#[trigger] self.blocks@[i])
                .spec_header().file_uid == old(self).uid && self.blocks@[i].spec_header().version
                == old(self).version && self.blocks@[i].spec_header().seq_num == lot_start_seq_num
                + i by {
                assert(after_seq.blocks@[i].spec_header() == (Header {
                    seq_num: (lot_start_seq_num + i) as u32,
                    ..after_rs.blocks@[i].spec_header()
                }));
                assert(after_rs.blocks@[i] == after_fill.blocks@[i]);
                assert(after_fill.blocks@[i] == old(self).blocks@[i]);
            }
            assert forall|i: int|
                0 <= i < old(self).slots_used implies (#[trigger] self.slots@[i])@.subrange(
                16,
                16 + spec_slot_content_len(*old(self), i),
            ) == old(self).slots@[i]@.subrange(16, 16 + spec_slot_content_len(*old(self), i)) by {
                let l = spec_slot_content_len(*old(self), i);
                assert(after_fill.slots@[i]@.subrange(0, 16 + l) == old(self).slots@[i]@.subrange(
                    0,
                    16 + l,
                ));
                assert(after_rs.slots@[i] == after_fill.slots@[i]);
                assert(after_seq.slots@[i] == after_rs.slots@[i]);
                assert(self.slots@[i]@.skip(16) == after_seq.slots@[i]@.skip(16));
                assert forall|x: int| 16 <= x < 16 + l implies #[trigger] self.slots@[i]@[x]
                    == old(self).slots@[i]@[x] by {
                    assert(self.slots@[i]@.skip(16)[x - 16] == after_seq.slots@[i]@.skip(16)[x
                        - 16]);
                    assert(after_fill.slots@[i]@.subrange(0, 16 + l)[x] == old(self).slots@[i]@.subrange(0, 16 + l)[x]);
                }
                assert(self.slots@[i]@.subrange(16, 16 + l) =~= old(self).slots@[i]@.subrange(
                    16,
                    16 + l,
                ));
            }
        }
    }

    /// Feed every eligible slot's content, in slot order, into the hash.
    pub fn hash(&self, ctx: &mut HashCtx)
        requires
            self.spec_wf(),
            self.arrangement is OrderedAndNoMissing || self.arrangement
                is OrderedButSomeMayBeMissing,
        ensures
            final(ctx).hash_type == old(ctx).hash_type,
            final(ctx).data@ == old(ctx).data@ + spec_lot_feed(*self),
    {
        let used = self.slots_used;
        let mut i: usize = 0;
        while i < used
            invariant
                i <= used,
                used == self.slots_used,
                self.spec_wf(),
                ctx.hash_type == old(ctx).hash_type,
                ctx.data@ == old(ctx).data@ + spec_lot_feed_up_to(*self, i as int),
            decreases used - i,
        {
            let b = &self.blocks[i];
            let eligible = b.is_data() && !self.slot_is_padding[i]
                && !b.is_parity_w_data_par_burst(self.data_par_burst);
            if eligible {
                let len = match self.slot_content_len_exc_header[i] {
                    None => self.data_size,
                    Some(l) => l,
                };
                ctx.update_range(&self.slots[i], 16, 16 + len);
            }
            i = i + 1;
        }
    }

    /// How many data, padding and parity blocks the lot holds.
    pub fn data_padding_parity_block_count(&self) -> (r: (usize, usize, usize))
        requires
            self.spec_wf(),
            self.arrangement is OrderedAndNoMissing,
        ensures
            r.0 == (match self.data_par_burst {
                Option::None => self.slots_used as int,
                Option::Some((d, _, _)) => if d < self.slots_used {
                    d as int
                } else {
                    self.slots_used as int
                },
            }),
            r.1 == crate::rs_codec::spec_count_true(
                Seq::new(self.slots_used as nat, |i: int| self.slot_is_padding@[i]),
            ),
            r.2 == (match self.data_par_burst {
                Option::None => 0int,
                Option::Some((d, _, _)) => if self.slots_used < d {
                    0int
                } else {
                    self.slots_used - d
                },
            }),
    {
        let data: usize = match self.data_par_burst {
            None => self.slots_used,
            Some((d, _, _)) => {
                if d < self.slots_used {
                    d
                } else {
                    self.slots_used
                }
            },
        };
        let mut padding: usize = 0;
        let mut i: usize = 0;
        proof {
            assert(Seq::new(0nat, |t: int| self.slot_is_padding@[t]) =~= Seq::<bool>::empty());
        }
        while i < self.slots_used
            invariant
                i <= self.slots_used,
                self.spec_wf(),
                padding <= i,
                padding == crate::rs_codec::spec_count_true(
                    Seq::new(i as nat, |t: int| self.slot_is_padding@[t]),
                ),
            decreases self.slots_used - i,
        {
            proof {
                crate::rs_codec::repairer::lemma_count_take_step(
                    Seq::new((i + 1) as nat, |t: int| self.slot_is_padding@[t]),
                    i as int,
                );
                assert(Seq::new((i + 1) as nat, |t: int| self.slot_is_padding@[t]).take(i as int)
                    =~= Seq::new(i as nat, |t: int| self.slot_is_padding@[t]));
                assert(Seq::new((i + 1) as nat, |t: int| self.slot_is_padding@[t]).take(i + 1)
                    =~= Seq::new((i + 1) as nat, |t: int| self.slot_is_padding@[t]));
            }
            if self.slot_is_padding[i] {
                padding = padding + 1;
            }
            i = i + 1;
        }
        let parity: usize = match self.data_par_burst {
            None => 0,
            Some((d, _, _)) => {
                if self.slots_used < d {
                    0
                } else {
                    self.slots_used - d
                }
            },
        };
        (data, padding, parity)
    }

    pub fn padding_byte_count_in_non_padding_blocks(&self) -> (r: usize)
        ensures
            r == self.padding_byte_count_in_non_padding_blocks,
    {
        self.padding_byte_count_in_non_padding_blocks
    }
}

/// The container bytes after writing the first `n` used slots of the lot,
/// each at its computed position.
pub open spec fn spec_lot_write_fold(lot: Lot, bytes: Seq<u8>, n: int) -> Seq<u8>
    decreases n,
{
    if n <= 0 {
        bytes
    } else {
        let prev = spec_lot_write_fold(lot, bytes, n - 1);
        match lot.slot_write_pos@[n - 1] {
            Option::Some(p) => spec_write_at(prev, p as int, lot.slots@[n - 1]@),
            Option::None => prev,
        }
    }
}

impl Lot {
    /// Record each used slot's byte position from its block's sequence
    /// number.
    pub fn calc_slot_write_pos(&mut self)
        requires
            old(self).spec_wf(),
            old(self).output_type is Block,
        ensures
            final(self).spec_wf(),
            lot_eq_except_slot_state(*old(self), *final(self)),
            final(self).slots_used == old(self).slots_used,
            final(self).blocks@ == old(self).blocks@,
            final(self).slots@ == old(self).slots@,
            final(self).slot_content_len_exc_header@ == old(self).slot_content_len_exc_header@,
            final(self).slot_is_padding@ == old(self).slot_is_padding@,
            final(self).padding_byte_count_in_non_padding_blocks == old(self).padding_byte_count_in_non_padding_blocks,
            forall|i: int|
                0 <= i < old(self).slots_used ==> #[trigger] final(self).slot_write_pos@[i]
                    == Option::Some(
                    (spec_data_block_write_index(
                        old(self).blocks@[i].spec_header().seq_num as int,
                        Option::Some(old(self).meta_enabled),
                        old(self).data_par_burst,
                    ) * old(self).block_size) as u64,
                ),
            forall|i: int|
                old(self).slots_used <= i < old(self).lot_size ==> #[trigger] final(self).slot_write_pos@[i] == old(self).slot_write_pos@[i],
    {
        let used = self.slots_used;
        let mut i: usize = 0;
        while i < used
            invariant
                i <= used,
                used == old(self).slots_used,
                self.spec_wf(),
                lot_eq_except_slot_state(*old(self), *self),
                self.slots_used == old(self).slots_used,
                self.blocks@ == old(self).blocks@,
                self.slots@ == old(self).slots@,
                self.slot_content_len_exc_header@ == old(self).slot_content_len_exc_header@,
                self.slot_is_padding@ == old(self).slot_is_padding@,
                self.padding_byte_count_in_non_padding_blocks == old(self).padding_byte_count_in_non_padding_blocks,
                forall|j: int|
                    0 <= j < i ==> #[trigger] self.slot_write_pos@[j] == Option::Some(
                        (spec_data_block_write_index(
                            old(self).blocks@[j].spec_header().seq_num as int,
                            Option::Some(old(self).meta_enabled),
                            old(self).data_par_burst,
                        ) * old(self).block_size) as u64,
                    ),
                forall|j: int|
                    i <= j < old(self).lot_size ==> #[trigger] self.slot_write_pos@[j] == old(self).slot_write_pos@[j],
            decreases used - i,
        {
            let seq = self.blocks[i].get_seq_num();
            let pos = calc_data_block_write_pos(
                self.version,
                seq,
                Some(self.meta_enabled),
                self.data_par_burst,
            );
            self.slot_write_pos.set(i, Some(pos));
            i = i + 1;
        }
    }

    /// Write every used slot at its position.  The container afterwards is
    /// the fold of those writes in slot order.  The multi-pass skip
    /// decisions live with the caller that reads the existing container, so
    /// this writer always writes.
    pub fn write(&mut self, out: &mut ContainerBuf)
        requires
            old(self).spec_wf(),
            old(self).output_type is Block,
            !old(self).skip_good,
            usize::MAX >= 0x80_0000_0000_0000,
            old(out).spec_bytes().len() <= 0x41_0000_0000_0000,
        ensures
            final(self).spec_wf(),
            lot_eq_except_slot_state(*old(self), *final(self)),
            final(self).slots_used == old(self).slots_used,
            final(self).blocks@ == old(self).blocks@,
            final(self).slots@ == old(self).slots@,
            final(out).spec_bytes() == spec_lot_write_fold(
                *final(self),
                old(out).spec_bytes(),
                old(self).slots_used as int,
            ),
            forall|i: int|
                0 <= i < old(self).slots_used ==> #[trigger] final(self).slot_write_pos@[i]
                    == Option::Some(
                    (spec_data_block_write_index(
                        old(self).blocks@[i].spec_header().seq_num as int,
                        Option::Some(old(self).meta_enabled),
                        old(self).data_par_burst,
                    ) * old(self).block_size) as u64,
                ),
            final(out).spec_bytes().len() <= 0x41_0000_0000_0000,
    {
        self.calc_slot_write_pos();
        let ghost cfg = *self;
        let used = self.slots_used;
        let mut i: usize = 0;
        proof {
            assert forall|j: int| 0 <= j < self.slots_used implies (
            match #[trigger] self.slot_write_pos@[j] {
                Option::Some(p) => p <= 0x400_0000_0000u64 * 4096,
                Option::None => false,
            }) by {
                crate::sbx_block::layout::lemma_index_bound(
                    self.blocks@[j].spec_header().seq_num as int,
                    Option::Some(self.meta_enabled),
                    self.data_par_burst,
                );
                let idx = spec_data_block_write_index(
                    self.blocks@[j].spec_header().seq_num as int,
                    Option::Some(self.meta_enabled),
                    self.data_par_burst,
                );
                assert(idx * self.block_size <= 0x400_0000_0000u64 * 4096) by (nonlinear_arith)
                    requires
                        0 <= idx <= 0x400_0000_0000u64,
                        0 <= self.block_size <= 4096,
                ;
            }
        }
        while i < used
            invariant
                i <= used,
                used == self.slots_used,
                *self == cfg,
                self.spec_wf(),
                forall|j: int|
                    0 <= j < self.slots_used ==> (match #[trigger] self.slot_write_pos@[j] {
                        Option::Some(p) => p <= 0x400_0000_0000u64 * 4096,
                        Option::None => false,
                    }),
                usize::MAX >= 0x80_0000_0000_0000,
                out.spec_bytes() == spec_lot_write_fold(*self, old(out).spec_bytes(), i as int),
                out.spec_bytes().len() <= 0x41_0000_0000_0000,
            decreases used - i,
        {
            match self.slot_write_pos[i] {
                None => {
                    proof {
                        assert(false);
                    }
                },
                Some(p) => {
                    out.seek_to(p);
                    out.write(&self.slots[i]);
                },
            }
            i = i + 1;
        }
    }
}


/// Relies on num_cpus::get: the number of logical processors, always at
/// least one.
#[verifier::external_body]
fn num_cpus_get() -> (r: usize)
    ensures
        1 <= r,
{
    num_cpus::get()
}

/// A handle to one claimed slot.
#[derive(Clone, Copy, Debug, PartialEq, Eq, Structural)]
pub struct Slot {
    pub lot_index: usize,
    pub slot_index: usize,
}

/// A bank of lots filled in order; each buffer in a pipeline owns a
/// disjoint range of sequence numbers.
pub struct DataBlockBuffer {
    pub lots: Vec<Lot>,
    pub lot_size: usize,
    pub lots_used: usize,
    pub start_seq_num: Option<u32>,
    pub seq_num_incre: u32,
}

/// The data-block count one lot reports.
pub open spec fn spec_lot_data_count(lot: Lot) -> int {
    match lot.data_par_burst {
        Option::None => lot.slots_used as int,
        Option::Some((d, _, _)) => if d < lot.slots_used {
            d as int
        } else {
            lot.slots_used as int
        },
    }
}

/// The padding-block count one lot reports.
pub open spec fn spec_lot_padding_count(lot: Lot) -> int {
    crate::rs_codec::spec_count_true(
        Seq::new(lot.slots_used as nat, |i: int| lot.slot_is_padding@[i]),
    )
}

/// The parity-block count one lot reports.
pub open spec fn spec_lot_parity_count(lot: Lot) -> int {
    match lot.data_par_burst {
        Option::None => 0int,
        Option::Some((d, _, _)) => if lot.slots_used < d {
            0int
        } else {
            lot.slots_used - d
        },
    }
}

/// Data, padding and parity blocks over the first `n` lots.
pub open spec fn spec_buffer_counts(lots: Seq<Lot>, n: int) -> (int, int, int)
    decreases n,
{
    if n <= 0 {
        (0int, 0int, 0int)
    } else {
        let prev = spec_buffer_counts(lots, n - 1);
        (
            prev.0 + spec_lot_data_count(lots[n - 1]),
            prev.1 + spec_lot_padding_count(lots[n - 1]),
            prev.2 + spec_lot_parity_count(lots[n - 1]),
        )
    }
}

/// Padding bytes inside content-carrying blocks, over the first `n` lots.
pub open spec fn spec_buffer_padding_bytes(lots: Seq<Lot>, n: int) -> int
    decreases n,
{
    if n <= 0 {
        0
    } else {
        spec_buffer_padding_bytes(lots, n - 1) + lots[n - 1].padding_byte_count_in_non_padding_blocks
    }
}

/// What the first `n` lots feed into the hash.
pub open spec fn spec_buffer_feed_up_to(lots: Seq<Lot>, n: int) -> Seq<u8>
    decreases n,
{
    if n <= 0 {
        Seq::<u8>::empty()
    } else {
        spec_buffer_feed_up_to(lots, n - 1) + spec_lot_feed(lots[n - 1])
    }
}

/// The container bytes after the first `n` lots have written their slots.
pub open spec fn spec_buffer_write_fold(lots: Seq<Lot>, bytes: Seq<u8>, n: int) -> Seq<u8>
    decreases n,
{
    if n <= 0 {
        bytes
    } else {
        spec_lot_write_fold(
            lots[n - 1],
            spec_buffer_write_fold(lots, bytes, n - 1),
            lots[n - 1].slots_used as int,
        )
    }
}

impl DataBlockBuffer {
    /// Every lot shares the buffer's configuration and is well-formed.
    pub open spec fn spec_wf(self) -> bool {
        &&& 1 <= self.lots.len() <= 0x4_0000
        &&& 1 <= self.lot_size <= 256 || (self.lots@[0].data_par_burst is None && self.lot_size
            == 10)
        &&& self.lots_used <= self.lots.len()
        &&& (forall|i: int| 0 <= i < self.lots.len() ==> (#[trigger] self.lots@[i]).spec_wf())
        &&& (forall|i: int|
            0 <= i < self.lots.len() ==> lot_eq_except_slot_state(
                self.lots@[0],
                #[trigger] self.lots@[i],
            ))
        &&& self.lots@[0].lot_size == self.lot_size
        &&& self.lots@[0].input_type is Data
        &&& self.lots@[0].arrangement is OrderedAndNoMissing
        &&& (match self.start_seq_num {
            Option::Some(s) => 1 <= s,
            Option::None => true,
        })
        &&& 1 <= self.seq_num_incre <= 0x1000_0000
        &&& self.seq_num_incre == self.lots.len() * self.lot_size || self.seq_num_incre
            >= self.lots.len() * self.lot_size
    }

    /// The buffer is still being filled: earlier lots full, the current one
    /// partial, later ones empty, nothing encoded yet.
    pub open spec fn spec_filling(self) -> bool {
        &&& (forall|i: int|
            0 <= i < self.lots.len() ==> (#[trigger] self.lots@[i]).slots_used <= self.lots@[i].directly_writable_slots)
        &&& (forall|i: int|
            0 <= i < self.lots.len() ==> (#[trigger] self.lots@[i])
                .padding_byte_count_in_non_padding_blocks == 0)
        &&& (forall|i: int|
            self.lots_used < i < self.lots.len() ==> (#[trigger] self.lots@[i]).slots_used == 0)
        &&& (forall|i: int|
            0 <= i < self.lots_used ==> (#[trigger] self.lots@[i]).slots_used == self.lots@[i].directly_writable_slots)
        &&& (self.lots_used < self.lots.len() ==> self.lots@[self.lots_used as int].slots_used
            < self.lots@[self.lots_used as int].directly_writable_slots)
    }

    pub fn new(
        version: Version,
        uid: Option<&[u8; 6]>,
        input_type: InputType,
        skip_good: bool,
        output_type: OutputType,
        arrangement: BlockArrangement,
        data_par_burst: Option<(usize, usize, usize)>,
        meta_enabled: bool,
        buffer_index: usize,
        total_buffer_count: usize,
    ) -> (r: DataBlockBuffer)
        requires
            spec_dpb_ok(data_par_burst),
            (data_par_burst is Some) == spec_ver_uses_rs(version),
            match data_par_burst {
                Option::None => true,
                Option::Some((d, p, _)) => d + p <= 256,
            },
            input_type is Data,
            arrangement is OrderedAndNoMissing,
            1 <= total_buffer_count <= 4,
            buffer_index < total_buffer_count,
        ensures
            r.spec_wf(),
            r.spec_filling(),
            r.lots_used == 0,
            r.start_seq_num matches Option::Some(s) && s == 1 + buffer_index * r.lots.len()
                * r.lot_size,
            r.seq_num_incre == r.lots.len() * r.lot_size * total_buffer_count,
            forall|i: int|
                0 <= i < r.lots.len() ==> (#[trigger] r.lots@[i]).version == version && r.lots@[i].meta_enabled == meta_enabled && r.lots@[i].data_par_burst == data_par_burst
                    && r.lots@[i].output_type == output_type && r.lots@[i].skip_good == skip_good
                    && r.lots@[i].slots_used == 0,
            match uid {
                Option::Some(u) => forall|i: int|
                    0 <= i < r.lots.len() ==> (#[trigger] r.lots@[i]).uid == *u,
                Option::None => true,
            },
    {
        let cpus = num_cpus_get();
        let cpus = if cpus > 1024 {
            1024
        } else {
            cpus
        };
        let lot_count = cpus * 10;
        let mut lots: Vec<Lot> = Vec::new();
        let first = Lot::new(
            version,
            uid,
            input_type,
            output_type,
            arrangement,
            data_par_burst,
            meta_enabled,
            10,
            skip_good,
        );
        let lot_size = first.lot_size();
        lots.push(first);
        let mut i: usize = 1;
        while i < lot_count
            invariant
                1 <= i <= lot_count,
                lot_count <= 10240,
                lots.len() == i,
                spec_dpb_ok(data_par_burst),
                (data_par_burst is Some) == spec_ver_uses_rs(version),
                match data_par_burst {
                    Option::None => true,
                    Option::Some((d, p, _)) => d + p <= 256,
                },
                input_type is Data,
                arrangement is OrderedAndNoMissing,
                forall|j: int| 0 <= j < i ==> (#[trigger] lots@[j]).spec_wf(),
                forall|j: int|
                    0 <= j < i ==> lot_eq_except_slot_state(lots@[0], #[trigger] lots@[j]),
                forall|j: int|
                    0 <= j < i ==> (#[trigger] lots@[j]).slots_used == 0 && lots@[j]
                        .padding_byte_count_in_non_padding_blocks == 0 && lots@[j].version
                        == version && lots@[j].meta_enabled == meta_enabled && lots@[j]
                        .data_par_burst == data_par_burst && lots@[j].output_type == output_type
                        && lots@[j].skip_good == skip_good && lots@[j].input_type == input_type
                        && lots@[j].arrangement == arrangement,
                match uid {
                    Option::Some(u) => forall|j: int|
                        0 <= j < i ==> (#[trigger] lots@[j]).uid == *u,
                    Option::None => true,
                },
                lots@[0].lot_size == lot_size,
                1 <= lot_size <= 0x1_0000,
                match data_par_burst {
                    Option::None => lot_size == 10,
                    Option::Some((d, p, _)) => lot_size == d + p,
                },
            decreases lot_count - i,
        {
            let l = Lot::new(
                version,
                uid,
                input_type,
                output_type,
                arrangement,
                data_par_burst,
                meta_enabled,
                10,
                skip_good,
            );
            proof {
                match (lots@[0].codec, l.codec) {
                    (Option::Some(a), Option::Some(b)) => {
                        crate::rs_codec::lemma_codec_eq(a, b);
                    },
                    _ => {},
                }
                assert(lot_eq_except_slot_state(lots@[0], l));
            }
            lots.push(l);
            i = i + 1;
        }
        proof {
            assert(1 <= (lots@.len() as int) * (lot_size as int) <= 10240 * 256)
                by (nonlinear_arith)
                requires
                    1 <= lots@.len() <= 10240,
                    1 <= lot_size <= 256 || lot_size == 10,
            ;
            assert((lots@.len() as int) * (lot_size as int) * (total_buffer_count as int)
                <= 10240 * 256 * 4) by (nonlinear_arith)
                requires
                    1 <= (lots@.len() as int) * (lot_size as int) <= 10240 * 256,
                    1 <= total_buffer_count <= 4,
            ;
            assert((buffer_index as int) * ((lots@.len() as int) * (lot_size as int)) <= 3
                * (10240 * 256)) by (nonlinear_arith)
                requires
                    0 <= buffer_index <= 3,
                    1 <= (lots@.len() as int) * (lot_size as int) <= 10240 * 256,
            ;
        }
        proof {
            assert((lots@.len() as int) * (lot_size as int) * (total_buffer_count as int)
                >= (lots@.len() as int) * (lot_size as int) >= 1) by (nonlinear_arith)
                requires
                    1 <= lots@.len(),
                    1 <= lot_size,
                    1 <= total_buffer_count,
            ;
            assert((buffer_index as int) * ((lots@.len() as int) * (lot_size as int)) == (
            buffer_index as int) * (lots@.len() as int) * (lot_size as int)) by (nonlinear_arith);
            assert(((lots@.len() as int) * (lot_size as int)) * (total_buffer_count as int) == (
            lots@.len() as int) * (lot_size as int) * (total_buffer_count as int))
                by (nonlinear_arith);
        }
        let total_slot_count = lots.len() * lot_size;
        let seq_num_incre = (total_slot_count * total_buffer_count) as u32;
        let start_seq_num = 1 + (buffer_index * total_slot_count) as u32;
        DataBlockBuffer {
            lots,
            lot_size,
            lots_used: 0,
            start_seq_num: Some(start_seq_num),
            seq_num_incre,
        }
    }

    pub fn lot_count(&self) -> (r: usize)
        ensures
            r == self.lots.len(),
    {
        self.lots.len()
    }

    pub fn is_full(&self) -> (r: bool)
        ensures
            r == (self.lots_used == self.lots.len()),
    {
        self.lots_used == self.lots.len()
    }

    pub fn active(&self) -> (r: bool)
        requires
            self.spec_wf(),
        ensures
            r == (self.lots_used > 0 || (self.lots_used < self.lots.len() && self.lots@[self.lots_used as int].slots_used > 0)),
    {
        self.lots_used > 0 || (self.lots_used < self.lots.len() && self.lots[
            self.lots_used
        ].active())
    }
}

impl DataBlockBuffer {
    /// Claim the next free slot, moving to the next lot as each fills.
    pub fn get_slot(&mut self) -> (r: Option<Slot>)
        requires
            old(self).spec_wf(),
            old(self).spec_filling(),
        ensures
            final(self).spec_wf(),
            final(self).spec_filling(),
            final(self).start_seq_num == old(self).start_seq_num,
            final(self).seq_num_incre == old(self).seq_num_incre,
            final(self).lot_size == old(self).lot_size,
            final(self).lots.len() == old(self).lots.len(),
            match r {
                Option::None => *final(self) == *old(self) && old(self).lots_used == old(
                    self,
                ).lots.len(),
                Option::Some(s) => {
                    &&& s.lot_index < old(self).lots.len()
                    &&& s.lot_index == old(self).lots_used
                    &&& s.slot_index == old(self).lots@[s.lot_index as int].slots_used
                    &&& s.slot_index < old(self).lots@[s.lot_index as int].directly_writable_slots
                    &&& final(self).lots@ == old(self).lots@.update(
                        s.lot_index as int,
                        final(self).lots@[s.lot_index as int],
                    )
                    &&& final(self).lots@[s.lot_index as int].slots_used == s.slot_index + 1
                    &&& lot_eq_except_used(
                        old(self).lots@[s.lot_index as int],
                        final(self).lots@[s.lot_index as int],
                    )
                },
            },
    {
        if self.lots_used == self.lot_count() {
            return None;
        }
        let li = self.lots_used;
        let lot = &mut self.lots[li];
        let res = lot.get_slot();
        match res {
            GetSlotResult::NoSlot => {
                proof {
                    assert(false);
                }
                None
            },
            GetSlotResult::Vacant(i) => Some(Slot { lot_index: li, slot_index: i }),
            GetSlotResult::LastSlot(i) => {
                self.lots_used = self.lots_used + 1;
                Some(Slot { lot_index: li, slot_index: i })
            },
        }
    }

    /// Fill a just-claimed slot's data area and record its content length.
    pub fn set_slot_content(&mut self, s: Slot, data: &Vec<u8>, from: usize, len: usize)
        requires
            old(self).spec_wf(),
            old(self).spec_filling(),
            s.lot_index < old(self).lots.len(),
            s.slot_index < old(self).lots@[s.lot_index as int].lot_size,
            1 <= len <= old(self).lots@[s.lot_index as int].data_size,
            from + len <= data.len(),
        ensures
            final(self).spec_wf(),
            final(self).spec_filling(),
            final(self).lots_used == old(self).lots_used,
            final(self).start_seq_num == old(self).start_seq_num,
            final(self).seq_num_incre == old(self).seq_num_incre,
            final(self).lots@ == old(self).lots@.update(
                s.lot_index as int,
                final(self).lots@[s.lot_index as int],
            ),
            lot_eq_except_content(
                old(self).lots@[s.lot_index as int],
                final(self).lots@[s.lot_index as int],
            ),
            final(self).lots@[s.lot_index as int].slots@[s.slot_index as int]@ == old(
                self,
            ).lots@[s.lot_index as int].slots@[s.slot_index as int]@.subrange(0, 16)
                + data@.subrange(from as int, from + len) + old(self).lots@[s.lot_index as int]
                .slots@[s.slot_index as int]@.skip(16 + len),
            final(self).lots@[s.lot_index as int].slot_content_len_exc_header@ == old(
                self,
            ).lots@[s.lot_index as int].slot_content_len_exc_header@.update(
                s.slot_index as int,
                Option::Some(len),
            ),
            forall|j: int|
                0 <= j < final(self).lots@[s.lot_index as int].lot_size && j != s.slot_index
                    ==> final(self).lots@[s.lot_index as int].slots@[j] == old(self).lots@[s.lot_index as int].slots@[j],
    {
        let li = s.lot_index;
        let lot = &mut self.lots[li];
        lot.set_slot_content(s.slot_index, data, from, len);
        proof {
            assert forall|j: int|
                0 <= j < self.lots@[li as int].lot_size && j != s.slot_index implies self.lots@[li as int].slots@[j] == old(self).lots@[li as int].slots@[j] by {
                assert(self.lots@[li as int].slots@ == old(self).lots@[li as int].slots@.update(
                    s.slot_index as int,
                    self.lots@[li as int].slots@[s.slot_index as int],
                ));
            }
        }
    }

    /// Give back the most recently claimed slot.
    pub fn cancel_slot(&mut self)
        requires
            old(self).spec_wf(),
            old(self).spec_filling(),
            old(self).lots_used > 0 || old(self).lots@[old(self).lots_used as int].slots_used
                > 0,
        ensures
            final(self).spec_wf(),
            final(self).spec_filling(),
            final(self).start_seq_num == old(self).start_seq_num,
            final(self).seq_num_incre == old(self).seq_num_incre,
    {
        let shift_back = self.lots_used == self.lot_count() || !self.lots[self.lots_used].active();
        if shift_back {
            self.lots_used = self.lots_used - 1;
        }
        let li = self.lots_used;
        let ghost prelots = self.lots@;
        let lot = &mut self.lots[li];
        lot.cancel_slot();
        proof {
            assert(self.lots@ =~= prelots.update(li as int, self.lots@[li as int]));
            assert(self.lots@[li as int].slots_used < self.lots@[li as int].directly_writable_slots);
        }
    }

    /// Stage the whole batch: every lot pads, computes parity, numbers its
    /// blocks from its own start and serializes; then the buffer's next
    /// start moves forward (or ends when sequence numbers run out).
    pub fn encode(&mut self) -> (r: Result<(), crate::sbx_block::Error>)
        requires
            old(self).spec_wf(),
            old(self).spec_filling(),
            old(self).start_seq_num matches Option::Some(s) && s as int + old(self).seq_num_incre
                <= 0x1_0000_0000,
        ensures
            final(self).spec_wf(),
            final(self).lots.len() == old(self).lots.len(),
            final(self).lots_used == old(self).lots_used,
            final(self).lot_size == old(self).lot_size,
            final(self).seq_num_incre == old(self).seq_num_incre,
            r is Ok,
            ({
                let start = old(self).start_seq_num->Some_0;
                &&& (forall|i: int|
                    0 <= i < old(self).lots.len() ==> lot_eq_except_slot_state(
                        old(self).lots@[i],
                        #[trigger] final(self).lots@[i],
                    ))
                &&& (forall|i: int|
                    0 <= i < old(self).lots.len() ==> (#[trigger] final(self).lots@[i]).slots_used
                        == (if old(self).lots@[i].slots_used == 0 {
                        0int
                    } else {
                        match old(self).lots@[i].data_par_burst {
                            Option::None => old(self).lots@[i].slots_used as int,
                            Option::Some(_) => old(self).lots@[i].lot_size as int,
                        }
                    }))
                &&& (forall|i: int, j: int|
                    0 <= i < old(self).lots.len() && 0 <= j < final(self).lots@[i].slots_used
                        ==> (#[trigger] final(self).lots@[i].blocks@[j]).spec_header().seq_num
                        == start + i * old(self).lot_size + j)
                &&& (forall|i: int, j: int|
                    0 <= i < old(self).lots.len() && 0 <= j < old(self).lots@[i].slots_used
                        ==> (#[trigger] final(self).lots@[i].slots@[j])@.subrange(
                        16,
                        16 + spec_slot_content_len(old(self).lots@[i], j),
                    ) == old(self).lots@[i].slots@[j]@.subrange(
                        16,
                        16 + spec_slot_content_len(old(self).lots@[i], j),
                    ))
                &&& (forall|i: int, j: int|
                    0 <= i < old(self).lots.len() && 0 <= j < final(self).lots@[i].slots_used
                        ==> crate::sbx_block::header::spec_header_matches(
                        (#[trigger] final(self).lots@[i].blocks@[j]).spec_header(),
                        final(self).lots@[i].slots@[j]@.subrange(0, 16),
                    ) && final(self).lots@[i].blocks@[j].spec_header().crc
                        == crate::sbx_block::spec_block_crc(
                        final(self).lots@[i].blocks@[j].spec_header(),
                        final(self).lots@[i].slots@[j]@.skip(16),
                    ))
                &&& final(self).start_seq_num == (if old(self).lots_used == old(self).lots.len()
                    && start as int + old(self).seq_num_incre <= 0xFFFF_FFFF {
                    Option::Some((start + old(self).seq_num_incre) as u32)
                } else {
                    Option::<u32>::None
                })
            }),
    {
        let start = match self.start_seq_num {
            Some(s) => s,
            None => {
                proof {
                    assert(false);
                }
                1
            },
        };
        let count = self.lot_count();
        let lot_size = self.lot_size;
        let mut i: usize = 0;
        proof {
            assert((old(self).lots.len() as int) * (lot_size as int) <= old(self).seq_num_incre);
        }
        while i < count
            invariant
                i <= count,
                count == self.lots.len(),
                count == old(self).lots.len(),
                lot_size == old(self).lot_size,
                lot_size == self.lot_size,
                self.spec_wf(),
                self.lots_used == old(self).lots_used,
                self.start_seq_num == old(self).start_seq_num,
                self.seq_num_incre == old(self).seq_num_incre,
                start == old(self).start_seq_num->Some_0,
                1 <= start,
                start as int + self.seq_num_incre <= 0x1_0000_0000,
                (count as int) * (lot_size as int) <= self.seq_num_incre,
                old(self).spec_filling(),
                forall|j: int|
                    i <= j < count ==> #[trigger] self.lots@[j] == old(self).lots@[j],
                forall|j: int|
                    0 <= j < i ==> lot_eq_except_slot_state(
                        old(self).lots@[j],
                        #[trigger] self.lots@[j],
                    ),
                forall|j: int|
                    0 <= j < i ==> (#[trigger] self.lots@[j]).slots_used == (if old(
                        self,
                    ).lots@[j].slots_used == 0 {
                        0int
                    } else {
                        match old(self).lots@[j].data_par_burst {
                            Option::None => old(self).lots@[j].slots_used as int,
                            Option::Some(_) => old(self).lots@[j].lot_size as int,
                        }
                    }),
                forall|j: int, t: int|
                    0 <= j < i && 0 <= t < self.lots@[j].slots_used
                        ==> (#[trigger] self.lots@[j].blocks@[t]).spec_header().seq_num == start
                        + j * lot_size + t,
                forall|j: int, t: int|
                    0 <= j < i && 0 <= t < old(self).lots@[j].slots_used
                        ==> (#[trigger] self.lots@[j].slots@[t])@.subrange(
                        16,
                        16 + spec_slot_content_len(old(self).lots@[j], t),
                    ) == old(self).lots@[j].slots@[t]@.subrange(
                        16,
                        16 + spec_slot_content_len(old(self).lots@[j], t),
                    ),
                forall|j: int, t: int|
                    0 <= j < i && 0 <= t < self.lots@[j].slots_used
                        ==> crate::sbx_block::header::spec_header_matches(
                        (#[trigger] self.lots@[j].blocks@[t]).spec_header(),
                        self.lots@[j].slots@[t]@.subrange(0, 16),
                    ) && self.lots@[j].blocks@[t].spec_header().crc
                        == crate::sbx_block::spec_block_crc(
                        self.lots@[j].blocks@[t].spec_header(),
                        self.lots@[j].slots@[t]@.skip(16),
                    ),
            decreases count - i,
        {
            proof {
                assert((i as int) * (lot_size as int) + lot_size <= (count as int) * (
                lot_size as int)) by (nonlinear_arith)
                    requires
                        0 <= i < count,
                        1 <= lot_size,
                ;
                assert((i as int) * (lot_size as int) >= 0) by (nonlinear_arith)
                    requires
                        0 <= i,
                        1 <= lot_size,
                ;
            }
            let lot_start = start + (i * lot_size) as u32;
            let ghost prelots = self.lots@;
            let lot = &mut self.lots[i];
            lot.encode(lot_start);
            proof {
                assert(self.lots@ =~= prelots.update(i as int, self.lots@[i as int]));
            }
            i = i + 1;
        }
        let full = self.lots_used == self.lot_count();
        let incre_overflows = 0xFFFF_FFFFu64 - (self.seq_num_incre as u64) < (start as u64);
        if full && !incre_overflows {
            self.start_seq_num = Some(start + self.seq_num_incre);
        } else {
            self.start_seq_num = None;
        }
        Ok(())
    }

    /// Clear every lot and return to the filling state.
    pub fn reset(&mut self)
        requires
            old(self).spec_wf(),
        ensures
            final(self).spec_wf(),
            final(self).spec_filling(),
            final(self).lots_used == 0,
            final(self).start_seq_num == old(self).start_seq_num,
            final(self).seq_num_incre == old(self).seq_num_incre,
            final(self).lots.len() == old(self).lots.len(),
            final(self).lot_size == old(self).lot_size,
            forall|i: int|
                0 <= i < old(self).lots.len() ==> lot_eq_except_slot_state(
                    old(self).lots@[i],
                    #[trigger] final(self).lots@[i],
                ) && final(self).lots@[i].slots_used == 0,
    {
        self.lots_used = 0;
        let count = self.lot_count();
        let mut i: usize = 0;
        while i < count
            invariant
                i <= count,
                count == self.lots.len(),
                count == old(self).lots.len(),
                self.spec_wf(),
                self.lots_used == 0,
                self.start_seq_num == old(self).start_seq_num,
                self.seq_num_incre == old(self).seq_num_incre,
                self.lot_size == old(self).lot_size,
                forall|j: int|
                    i <= j < count ==> #[trigger] self.lots@[j] == old(self).lots@[j],
                forall|j: int|
                    0 <= j < i ==> lot_eq_except_slot_state(
                        old(self).lots@[j],
                        #[trigger] self.lots@[j],
                    ) && self.lots@[j].slots_used == 0 && self.lots@[j]
                        .padding_byte_count_in_non_padding_blocks == 0,
            decreases count - i,
        {
            let ghost prelots = self.lots@;
            let lot = &mut self.lots[i];
            lot.reset();
            proof {
                assert(self.lots@ =~= prelots.update(i as int, self.lots@[i as int]));
            }
            i = i + 1;
        }
    }

    /// Feed every lot's eligible content, in lot order, into the hash.
    pub fn hash(&self, ctx: &mut HashCtx)
        requires
            self.spec_wf(),
        ensures
            final(ctx).hash_type == old(ctx).hash_type,
            final(ctx).data@ == old(ctx).data@ + spec_buffer_feed_up_to(
                self.lots@,
                self.lots.len() as int,
            ),
    {
        let count = self.lot_count();
        let mut i: usize = 0;
        while i < count
            invariant
                i <= count,
                count == self.lots.len(),
                self.spec_wf(),
                ctx.hash_type == old(ctx).hash_type,
                ctx.data@ == old(ctx).data@ + spec_buffer_feed_up_to(self.lots@, i as int),
            decreases count - i,
        {
            self.lots[i].hash(ctx);
            i = i + 1;
        }
    }

    /// How many data, padding and parity blocks the buffer holds: the sums
    /// of the per-lot counts.
    pub fn data_padding_parity_block_count(&self) -> (r: (u64, u64, u64))
        requires
            self.spec_wf(),
        ensures
            r.0 <= self.lots.len() * 0x1_0000,
            r.1 <= self.lots.len() * 0x1_0000,
            r.2 <= self.lots.len() * 0x1_0000,
            (r.0 as int, r.1 as int, r.2 as int) == spec_buffer_counts(
                self.lots@,
                self.lots@.len() as int,
            ),
    {
        let mut data: u64 = 0;
        let mut padding: u64 = 0;
        let mut parity: u64 = 0;
        let count = self.lot_count();
        let mut i: usize = 0;
        while i < count
            invariant
                i <= count,
                count == self.lots.len(),
                self.spec_wf(),
                data <= i * 0x1_0000,
                padding <= i * 0x1_0000,
                parity <= i * 0x1_0000,
                (data as int, padding as int, parity as int) == spec_buffer_counts(
                    self.lots@,
                    i as int,
                ),
            decreases count - i,
        {
            let (d, pad, par) = self.lots[i].data_padding_parity_block_count();
            proof {
                crate::rs_codec::repairer::lemma_count_true_bound(
                    Seq::new(
                        self.lots@[i as int].slots_used as nat,
                        |t: int| self.lots@[i as int].slot_is_padding@[t],
                    ),
                );
            }
            data = data + d as u64;
            padding = padding + pad as u64;
            parity = parity + par as u64;
            i = i + 1;
        }
        (data, padding, parity)
    }

    /// Padding bytes inside blocks that carry real content: the sum of the
    /// per-lot counts.
    pub fn padding_byte_count_in_non_padding_blocks(&self) -> (r: u64)
        requires
            self.spec_wf(),
        ensures
            r <= self.lots.len() as int * 0x1_0000_0000,
            r == spec_buffer_padding_bytes(self.lots@, self.lots@.len() as int),
    {
        let mut total: u64 = 0;
        let count = self.lot_count();
        let mut i: usize = 0;
        while i < count
            invariant
                i <= count,
                count == self.lots.len(),
                self.spec_wf(),
                total <= i as int * 0x1_0000_0000,
                total == spec_buffer_padding_bytes(self.lots@, i as int),
            decreases count - i,
        {
            total = total + self.lots[i].padding_byte_count_in_non_padding_blocks() as u64;
            i = i + 1;
        }
        total
    }

    /// Write every lot's used slots at their positions, then reset.
    pub fn write(&mut self, out: &mut ContainerBuf) -> (r: Result<(), crate::sbx_block::Error>)
        requires
            old(self).spec_wf(),
            old(self).lots@[0].output_type is Block,
            !old(self).lots@[0].skip_good,
            usize::MAX >= 0x80_0000_0000_0000,
            old(out).spec_bytes().len() <= 0x41_0000_0000_0000,
        ensures
            final(self).spec_wf(),
            final(self).spec_filling(),
            final(self).lots_used == 0,
            final(self).start_seq_num == old(self).start_seq_num,
            final(self).seq_num_incre == old(self).seq_num_incre,
            final(self).lots.len() == old(self).lots.len(),
            r is Ok,
            final(out).spec_bytes().len() <= 0x41_0000_0000_0000,
            forall|i: int|
                0 <= i < old(self).lots.len() ==> lot_eq_except_slot_state(
                    old(self).lots@[i],
                    #[trigger] final(self).lots@[i],
                ),
            exists|mid: Seq<Lot>|
                mid.len() == old(self).lots.len() && (forall|i: int|
                    0 <= i < mid.len() ==> lot_eq_except_slot_state(
                        old(self).lots@[i],
                        #[trigger] mid[i],
                    ) && mid[i].slots_used == old(self).lots@[i].slots_used && mid[i].blocks@
                        == old(self).lots@[i].blocks@ && mid[i].slots@ == old(self).lots@[i]
                        .slots@) && final(out).spec_bytes() == spec_buffer_write_fold(
                    mid,
                    old(out).spec_bytes(),
                    mid.len() as int,
                ),
    {
        let count = self.lot_count();
        let mut i: usize = 0;
        while i < count
            invariant
                i <= count,
                count == self.lots.len(),
                count == old(self).lots.len(),
                self.spec_wf(),
                self.lots_used == old(self).lots_used,
                self.start_seq_num == old(self).start_seq_num,
                self.seq_num_incre == old(self).seq_num_incre,
                self.lot_size == old(self).lot_size,
                self.lots@[0].output_type is Block,
                !self.lots@[0].skip_good,
                usize::MAX >= 0x80_0000_0000_0000,
                forall|j: int|
                    i <= j < count ==> #[trigger] self.lots@[j] == old(self).lots@[j],
                forall|j: int|
                    0 <= j < i ==> lot_eq_except_slot_state(
                        old(self).lots@[j],
                        #[trigger] self.lots@[j],
                    ) && self.lots@[j].slots_used == old(self).lots@[j].slots_used && self.lots@[j].blocks@ == old(self).lots@[j].blocks@ && self.lots@[j].slots@ == old(
                        self,
                    ).lots@[j].slots@,
                out.spec_bytes() == spec_buffer_write_fold(
                    self.lots@,
                    old(out).spec_bytes(),
                    i as int,
                ),
                out.spec_bytes().len() <= 0x41_0000_0000_0000,
            decreases count - i,
        {
            let ghost prelots = self.lots@;
            let ghost preout = out.spec_bytes();
            let lot = &mut self.lots[i];
            lot.write(out);
            proof {
                assert(self.lots@ =~= prelots.update(i as int, self.lots@[i as int]));
                assert forall|j: int| 0 <= j <= i implies spec_buffer_write_fold(
                    self.lots@,
                    old(out).spec_bytes(),
                    j,
                ) == spec_buffer_write_fold(prelots, old(out).spec_bytes(), j) by {
                    lemma_buffer_fold_agree(self.lots@, prelots, old(out).spec_bytes(), j);
                }
            }
            i = i + 1;
        }
        let ghost mid = self.lots@;
        self.reset();
        proof {
            assert(mid.len() == old(self).lots.len());
        }
        Ok(())
    }

    /// Write without repositioning between lots: every slot still lands at
    /// its computed position.
    pub fn write_no_seek(&mut self, out: &mut ContainerBuf) -> (r: Result<
        (),
        crate::sbx_block::Error,
    >)
        requires
            old(self).spec_wf(),
            old(self).lots@[0].output_type is Block,
            !old(self).lots@[0].skip_good,
            usize::MAX >= 0x80_0000_0000_0000,
            old(out).spec_bytes().len() <= 0x41_0000_0000_0000,
        ensures
            final(self).spec_wf(),
            final(self).spec_filling(),
            final(self).lots_used == 0,
            r is Ok,
    {
        self.write(out)
    }
}

/// Folding writes reads only the lots before `n`, so two banks that agree
/// there fold alike.
proof fn lemma_buffer_fold_agree(a: Seq<Lot>, b: Seq<Lot>, bytes: Seq<u8>, n: int)
    requires
        a.len() == b.len(),
        0 <= n <= a.len(),
        forall|i: int| 0 <= i < n ==> a[i] == b[i],
    ensures
        spec_buffer_write_fold(a, bytes, n) == spec_buffer_write_fold(b, bytes, n),
    decreases n,
{
    if n > 0 {
        lemma_buffer_fold_agree(a, b, bytes, n - 1);
    }
}

} // verus!
