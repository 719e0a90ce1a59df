//! Repair of one RS set: collect the payloads of its members, mark each
//! present or missing, rebuild the missing ones and resynthesize their
//! blocks at their canonical positions.

use vstd::arithmetic::div_mod::lemma_fundamental_div_mod;
use vstd::prelude::*;

use crate::crc::crc_ccitt_range;
use crate::sbx_block::header::{spec_header_matches, store_header};

use crate::rs_codec::{
    spec_count_true, spec_rows_len, spec_rs_codeword, spec_shard_views, RSCodec, RSCodecState,
};
use crate::sbx_block::header::Header;
use crate::sbx_block::layout::{calc_data_block_write_pos, spec_data_block_write_index};
use crate::sbx_block::{spec_block_crc, Block};
use crate::sbx_specs::{spec_ver_to_block_size, ver_to_block_size, ver_to_data_size, Version};

verus! {

pub struct RSRepairer {
    index: usize,
    codec: RSCodec,
    version: Version,
    buf: Vec<Vec<u8>>,
    buf_present: Vec<bool>,
    ref_header: Header,
}

pub struct RSRepairStats {
    pub successful: bool,
    pub start_seq_num: u32,
    pub present: Vec<bool>,
    pub missing_count: usize,
    pub present_count: usize,
}

impl RSRepairer {
    pub closed spec fn spec_index(self) -> int {
        self.index as int
    }

    pub closed spec fn spec_codec(self) -> RSCodec {
        self.codec
    }

    pub closed spec fn spec_version(self) -> Version {
        self.version
    }

    pub closed spec fn spec_bufs(self) -> Seq<Vec<u8>> {
        self.buf@
    }

    pub closed spec fn spec_present(self) -> Seq<bool> {
        self.buf_present@
    }

    pub closed spec fn spec_ref_header(self) -> Header {
        self.ref_header
    }

    pub open spec fn spec_total(self) -> int {
        self.spec_codec().spec_data() + self.spec_codec().spec_parity()
    }

    pub open spec fn spec_wf(self) -> bool {
        &&& self.spec_codec().spec_wf()
        &&& self.spec_bufs().len() == self.spec_total()
        &&& self.spec_present().len() == self.spec_total()
        &&& 0 <= self.spec_index() < self.spec_total()
        &&& spec_rows_len(
            spec_shard_views(self.spec_bufs()),
            spec_ver_to_block_size(self.spec_version()) - 16,
        )
    }

    /// A repairer for one RS set; the reference block supplies version and
    /// UID for resynthesized headers.
    pub fn new(version: Version, ref_block: &Block, data_shards: usize, parity_shards: usize) -> (r:
        RSRepairer)
        requires
            1 <= data_shards,
            1 <= parity_shards,
            data_shards + parity_shards <= 256,
        ensures
            r.spec_wf(),
            r.spec_index() == 0,
            r.spec_codec().spec_data() == data_shards,
            r.spec_codec().spec_parity() == parity_shards,
            r.spec_version() == version,
            r.spec_ref_header() == ref_block.spec_header(),
            forall|i: int| 0 <= i < r.spec_total() ==> !(#[trigger] r.spec_present()[i]),
            spec_count_true(r.spec_present()) == 0,
    {
        let codec = match RSCodec::new(data_shards, parity_shards) {
            Ok(c) => c,
            Err(_) => {
                proof {
                    assert(false);
                }
                RSCodec::new(1, 1).unwrap()
            },
        };
        let data_size = ver_to_data_size(version);
        let total = data_shards + parity_shards;
        let mut buf: Vec<Vec<u8>> = Vec::new();
        let mut i: usize = 0;
        while i < total
            invariant
                i <= total,
                buf.len() == i,
                data_size == spec_ver_to_block_size(version) - 16,
                forall|j: int|
                    0 <= j < i ==> #[trigger] buf@[j]@.len() == spec_ver_to_block_size(version)
                        - 16,
            decreases total - i,
        {
            let mut row: Vec<u8> = Vec::new();
            let mut k: usize = 0;
            while k < data_size
                invariant
                    k <= data_size,
                    row.len() == k,
                    data_size == spec_ver_to_block_size(version) - 16,
                decreases data_size - k,
            {
                row.push(0);
                k = k + 1;
            }
            buf.push(row);
            i = i + 1;
        }
        let mut buf_present: Vec<bool> = Vec::new();
        let mut j: usize = 0;
        while j < total
            invariant
                j <= total,
                buf_present.len() == j,
                forall|t: int| 0 <= t < j ==> !(#[trigger] buf_present@[t]),
            decreases total - j,
        {
            buf_present.push(false);
            j = j + 1;
        }
        proof {
            lemma_count_all_false(buf_present@);
        }
        RSRepairer { index: 0, codec, version, buf, buf_present, ref_header: *ref_block.header() }
    }

    /// The payload buffer of the member the cursor points at; the caller
    /// fills it with the bytes read from disk.
    pub fn get_block_buffer(&mut self) -> (r: &mut Vec<u8>)
        requires
            old(self).spec_wf(),
        ensures
            *r == old(self).spec_bufs()[old(self).spec_index()],
            final(self).spec_bufs() == old(self).spec_bufs().update(
                old(self).spec_index(),
                *final(r),
            ),
            final(self).spec_index() == old(self).spec_index(),
            final(self).spec_codec() == old(self).spec_codec(),
            final(self).spec_version() == old(self).spec_version(),
            final(self).spec_present() == old(self).spec_present(),
            final(self).spec_ref_header() == old(self).spec_ref_header(),
    {
        let i = self.index;
        &mut self.buf[i]
    }

    /// Record the member under the cursor as present and step the cursor;
    /// `Ready` says the set is complete.
    pub fn mark_present(&mut self) -> (r: RSCodecState)
        requires
            old(self).spec_wf(),
        ensures
            final(self).spec_wf(),
            final(self).spec_present() == old(self).spec_present().update(
                old(self).spec_index(),
                true,
            ),
            final(self).spec_index() == (old(self).spec_index() + 1) % old(self).spec_total(),
            final(self).spec_bufs() == old(self).spec_bufs(),
            final(self).spec_codec() == old(self).spec_codec(),
            final(self).spec_version() == old(self).spec_version(),
            final(self).spec_ref_header() == old(self).spec_ref_header(),
            (r is Ready <==> old(self).spec_index() == old(self).spec_total() - 1),
    {
        self.mark(true)
    }

    /// Record the member under the cursor as missing and step the cursor.
    pub fn mark_missing(&mut self) -> (r: RSCodecState)
        requires
            old(self).spec_wf(),
        ensures
            final(self).spec_wf(),
            final(self).spec_present() == old(self).spec_present().update(
                old(self).spec_index(),
                false,
            ),
            final(self).spec_index() == (old(self).spec_index() + 1) % old(self).spec_total(),
            final(self).spec_bufs() == old(self).spec_bufs(),
            final(self).spec_codec() == old(self).spec_codec(),
            final(self).spec_version() == old(self).spec_version(),
            final(self).spec_ref_header() == old(self).spec_ref_header(),
            (r is Ready <==> old(self).spec_index() == old(self).spec_total() - 1),
    {
        self.mark(false)
    }

    fn mark(&mut self, present: bool) -> (r: RSCodecState)
        requires
            old(self).spec_wf(),
        ensures
            final(self).spec_wf(),
            final(self).spec_present() == old(self).spec_present().update(
                old(self).spec_index(),
                present,
            ),
            final(self).spec_index() == (old(self).spec_index() + 1) % old(self).spec_total(),
            final(self).spec_bufs() == old(self).spec_bufs(),
            final(self).spec_codec() == old(self).spec_codec(),
            final(self).spec_version() == old(self).spec_version(),
            final(self).spec_ref_header() == old(self).spec_ref_header(),
            (r is Ready <==> old(self).spec_index() == old(self).spec_total() - 1),
    {
        let i = self.index;
        let total = self.codec.total_shard_count();
        self.buf_present.set(i, present);
        self.index = (i + 1) % total;
        if i == total - 1 {
            RSCodecState::Ready
        } else {
            RSCodecState::NotReady
        }
    }

    /// How many members are marked missing.
    pub fn missing_count(&self) -> (r: usize)
        requires
            self.spec_wf(),
        ensures
            r == self.spec_total() - spec_count_true(self.spec_present()),
    {
        proof {
            lemma_count_true_bound(self.spec_present());
        }
        self.total_shard_count_internal() - self.present_count()
    }

    /// How many members are marked present.
    pub fn present_count(&self) -> (r: usize)
        requires
            self.spec_wf(),
        ensures
            r == spec_count_true(self.spec_present()),
    {
        let mut count: usize = 0;
        let mut i: usize = 0;
        proof {
            lemma_count_true_bound(self.buf_present@);
            lemma_count_prefix(self.buf_present@, 0);
        }
        while i < self.buf_present.len()
            invariant
                i <= self.buf_present.len(),
                self.buf_present.len() <= 512,
                count == spec_count_true(self.buf_present@.take(i as int)),
                count <= i,
            decreases self.buf_present.len() - i,
        {
            proof {
                lemma_count_take_step(self.buf_present@, i as int);
                lemma_count_true_bound(self.buf_present@.take(i as int));
            }
            if self.buf_present[i] {
                count = count + 1;
            }
            i = i + 1;
        }
        proof {
            assert(self.buf_present@.take(self.buf_present@.len() as int) =~= self.buf_present@);
        }
        count
    }

    fn total_shard_count_internal(&self) -> (r: usize)
        requires
            self.spec_wf(),
        ensures
            r == self.spec_total(),
    {
        self.codec.total_shard_count()
    }
}

/// A flag count never exceeds the number of flags.
pub proof fn lemma_count_true_bound(s: Seq<bool>)
    ensures
        0 <= spec_count_true(s) <= s.len(),
    decreases s.len(),
{
    if s.len() > 0 {
        lemma_count_true_bound(s.skip(1));
    }
}

/// Extending a prefix by one flag adds that flag's value to the count.
pub proof fn lemma_count_take_step(s: Seq<bool>, i: int)
    requires
        0 <= i < s.len(),
    ensures
        spec_count_true(s.take(i + 1)) == spec_count_true(s.take(i)) + if s[i] {
            1int
        } else {
            0int
        },
    decreases i,
{
    if i == 0 {
        assert(s.take(1) =~= seq![s[0]]);
        assert(s.take(1).skip(1) =~= Seq::<bool>::empty());
        assert(s.take(0) =~= Seq::<bool>::empty());
    } else {
        assert(s.take(i + 1).skip(1) =~= s.skip(1).take(i));
        assert(s.take(i).skip(1) =~= s.skip(1).take(i - 1));
        assert(s.take(i + 1)[0] == s[0]);
        assert(s.take(i)[0] == s[0]);
        lemma_count_take_step(s.skip(1), i - 1);
        assert(s.skip(1)[i - 1] == s[i]);
    }
}

proof fn lemma_count_prefix(s: Seq<bool>, i: int)
    requires
        0 <= i <= s.len(),
    ensures
        spec_count_true(s.take(0)) == 0,
{
    assert(s.take(0) =~= Seq::<bool>::empty());
}

/// The header a repaired block carries: reference version and UID, the
/// member's own sequence number, and the checksum over its payload.
pub open spec fn spec_synth_header(version: Version, uid: [u8; 6], seq_num: int, payload: Seq<u8>) -> Header {
    Header {
        version,
        crc: spec_block_crc(
            Header { version, crc: 0, file_uid: uid, seq_num: seq_num as u32 },
            payload,
        ),
        file_uid: uid,
        seq_num: seq_num as u32,
    }
}

impl RSRepairer {
    /// One repaired block: the full serialized bytes of member `i` of the
    /// set starting at `first_seq`, and its byte position in the container.
    pub open spec fn spec_entry_ok(
        self,
        bufs: Seq<Vec<u8>>,
        first_seq: int,
        burst: int,
        entry: (u64, Vec<u8>),
        i: int,
    ) -> bool {
        let bs = spec_ver_to_block_size(self.spec_version());
        let payload = bufs[i]@;
        let h = spec_synth_header(
            self.spec_version(),
            self.spec_ref_header().file_uid,
            first_seq + i,
            payload,
        );
        &&& entry.1.len() == bs
        &&& spec_header_matches(h, entry.1@.subrange(0, 16))
        &&& entry.1@.skip(16) == payload
        &&& entry.0 == spec_data_block_write_index(
            first_seq + i,
            None,
            Some((
                self.spec_codec().spec_data() as usize,
                self.spec_codec().spec_parity() as usize,
                burst as usize,
            )),
        ) * bs
    }

    /// Rebuild the missing members of the set that `seq_num` belongs to.
    /// Succeeds exactly when at least `data` members are present; each
    /// missing member then comes back as a fully serialized block at its
    /// canonical position, its payload taken from the reconstruction.
    pub fn repair(&mut self, seq_num: u32, burst: usize) -> (r: (RSRepairStats, Vec<(u64, Vec<u8>)>))
        requires
            old(self).spec_wf(),
            old(self).spec_index() == 0,
            1 <= seq_num <= 0xFFFF_FE00,
            burst <= 0xFFFF_FFFF,
        ensures
            final(self).spec_wf(),
            final(self).spec_codec() == old(self).spec_codec(),
            final(self).spec_version() == old(self).spec_version(),
            final(self).spec_present() == old(self).spec_present(),
            final(self).spec_ref_header() == old(self).spec_ref_header(),
            final(self).spec_index() == 0,
            ({
                let t = old(self).spec_total();
                let first_seq = ((seq_num - 1) / t) * t + 1;
                let stats = r.0;
                let entries = r.1;
                &&& stats.start_seq_num == first_seq
                &&& (stats.successful <==> spec_count_true(old(self).spec_present())
                    >= old(self).spec_codec().spec_data())
                &&& stats.present@ == old(self).spec_present()
                &&& stats.present_count == spec_count_true(old(self).spec_present())
                &&& stats.missing_count == t - spec_count_true(old(self).spec_present())
                &&& (!stats.successful ==> entries.len() == 0 && final(self).spec_bufs() == old(self).spec_bufs())
                &&& (stats.successful ==> {
                    &&& forall|i: int|
                        0 <= i < t && old(self).spec_present()[i] ==> final(self).spec_bufs()[i]
                            == old(self).spec_bufs()[i]
                    &&& (forall|orig: Seq<Seq<u8>>|
                        orig.len() == old(self).spec_codec().spec_data() && spec_rows_len(
                            orig,
                            spec_ver_to_block_size(old(self).spec_version()) - 16,
                        ) && (forall|i: int|
                            0 <= i < t && old(self).spec_present()[i]
                                ==> #[trigger] spec_shard_views(old(self).spec_bufs())[i]
                                == spec_rs_codeword(
                                old(self).spec_codec().spec_data(),
                                old(self).spec_codec().spec_parity(),
                                orig,
                            )[i]) ==> spec_shard_views(final(self).spec_bufs())
                            == spec_rs_codeword(
                            old(self).spec_codec().spec_data(),
                            old(self).spec_codec().spec_parity(),
                            orig,
                        ))
                    &&& entries.len() == t - spec_count_true(old(self).spec_present())
                    &&& exists|ms: Seq<int>|
                        {
                            &&& ms.len() == entries.len()
                            &&& (forall|j: int|
                                0 <= j < ms.len() ==> 0 <= #[trigger] ms[j] < t && !old(
                                    self,
                                ).spec_present()[ms[j]])
                            &&& (forall|j1: int, j2: int|
                                0 <= j1 < j2 < ms.len() ==> #[trigger] ms[j1] < #[trigger] ms[j2])
                            &&& (forall|j: int|
                                0 <= j < ms.len() ==> old(self).spec_entry_ok(
                                    final(self).spec_bufs(),
                                    first_seq,
                                    burst as int,
                                    #[trigger] entries[j],
                                    ms[j],
                                ))
                        }
                })
            }),
    {
        let data_shards = self.codec.data_shard_count();
        let parity_shards = self.codec.parity_shard_count();
        let total = self.codec.total_shard_count();
        let t32 = total as u32;
        let data_index = seq_num - 1;
        let block_set_index = data_index / t32;
        proof {
            lemma_fundamental_div_mod(data_index as int, t32 as int);
            vstd::arithmetic::div_mod::lemma_mod_bound(data_index as int, t32 as int);
            assert((block_set_index as int) * (t32 as int) <= data_index) by (nonlinear_arith)
                requires
                    data_index == (t32 as int) * (block_set_index as int) + (data_index as int) % (
                    t32 as int),
                    (data_index as int) % (t32 as int) >= 0,
                    t32 >= 1,
            ;
        }
        let first_seq_in_set = block_set_index * t32 + 1;
        let present_cnt = self.present_count();
        let missing_cnt = self.missing_count();
        let mut present_copy: Vec<bool> = Vec::new();
        let mut ci: usize = 0;
        while ci < self.buf_present.len()
            invariant
                ci <= self.buf_present.len(),
                present_copy@ == self.buf_present@.take(ci as int),
            decreases self.buf_present.len() - ci,
        {
            present_copy.push(self.buf_present[ci]);
            proof {
                assert(self.buf_present@.take(ci + 1) =~= self.buf_present@.take(ci as int).push(
                    self.buf_present@[ci as int],
                ));
            }
            ci = ci + 1;
        }
        proof {
            assert(self.buf_present@.take(self.buf_present@.len() as int) =~= self.buf_present@);
        }
        proof {
            assert(spec_shard_views(self.spec_bufs())[0] == self.spec_bufs()[0]@);
            assert(self.spec_bufs()[0]@.len() == spec_ver_to_block_size(self.spec_version()) - 16);
        }
        let res = self.codec.reconstruct(&mut self.buf, &self.buf_present);
        let successful = res.is_ok();
        proof {
            assert(spec_rows_len(
                spec_shard_views(self.spec_bufs()),
                spec_ver_to_block_size(self.spec_version()) - 16,
            ));
        }
        let mut repaired: Vec<(u64, Vec<u8>)> = Vec::new();
        if successful {
            let bs = ver_to_block_size(self.version);
            let ghost t = self.spec_total();
            let ghost first_seq = ((seq_num - 1) as int / t) * t + 1;
            let ghost mut members: Seq<int> = Seq::empty();
            let mut i: usize = 0;
            while i < total
                invariant
                    i <= total,
                    total == self.spec_total(),
                    self.spec_wf(),
                    self.spec_index() == 0,
                    bs == spec_ver_to_block_size(self.spec_version()),
                    first_seq == ((seq_num - 1) as int / self.spec_total()) * self.spec_total()
                        + 1,
                    first_seq == first_seq_in_set,
                    1 <= first_seq,
                    first_seq + total <= 0xFFFF_FFFF,
                    self.spec_codec().spec_data() + self.spec_codec().spec_parity() == total,
                    data_shards == self.spec_codec().spec_data(),
                    parity_shards == self.spec_codec().spec_parity(),
                    1 <= data_shards,
                    1 <= parity_shards,
                    data_shards + parity_shards <= 256,
                    self.spec_ref_header() == old(self).spec_ref_header(),
                    burst <= 0xFFFF_FFFF,
                    repaired.len() <= i,
                    members.len() == repaired.len(),
                    forall|j: int|
                        0 <= j < members.len() ==> 0 <= #[trigger] members[j] < i
                            && !self.spec_present()[members[j]],
                    forall|j1: int, j2: int|
                        0 <= j1 < j2 < members.len() ==> #[trigger] members[j1]
                            < #[trigger] members[j2],
                    forall|j: int|
                        0 <= j < members.len() ==> self.spec_entry_ok(
                            self.spec_bufs(),
                            first_seq,
                            burst as int,
                            #[trigger] repaired@[j],
                            members[j],
                        ),
                    repaired.len() == i - spec_count_true(self.spec_present().take(i as int)),
                decreases total - i,
            {
                proof {
                    lemma_count_take_step(self.spec_present(), i as int);
                    lemma_count_true_bound(self.spec_present().take(i as int));
                }
                if !self.buf_present[i] {
                    let seq = first_seq_in_set + i as u32;
                    let mut h = Header::new(self.version, self.ref_header.file_uid);
                    h.seq_num = seq;
                    let payload_crc = {
                        let c = h.calc_crc();
                        crc_ccitt_range(c, &self.buf[i], 0, self.buf[i].len())
                    };
                    h.crc = payload_crc;
                    proof {
                        assert(spec_shard_views(self.spec_bufs())[i as int]
                            == self.spec_bufs()[i as int]@);
                    }
                    let mut bytes: Vec<u8> = Vec::new();
                    let mut z: usize = 0;
                    while z < 16
                        invariant
                            z <= 16,
                            bytes.len() == z,
                        decreases 16 - z,
                    {
                        bytes.push(0);
                        z = z + 1;
                    }
                    store_header(&h, &mut bytes);
                    let mut w: usize = 0;
                    let ghost pre16 = bytes@;
                    while w < bs - 16
                        invariant
                            w <= bs - 16,
                            16 <= bs,
                            pre16.len() == 16,
                            bytes.len() == 16 + w,
                            i < self.spec_bufs().len(),
                            self.spec_bufs()[i as int]@.len() == bs - 16,
                            bytes@.subrange(0, 16) == pre16.subrange(0, 16),
                            bytes@.skip(16) == self.spec_bufs()[i as int]@.take(w as int),
                        decreases bs - 16 - w,
                    {
                        let ghost prev = bytes@;
                        bytes.push(self.buf[i][w]);
                        proof {
                            assert(bytes@.subrange(0, 16) =~= prev.subrange(0, 16));
                            assert(bytes@.skip(16) =~= self.spec_bufs()[i as int]@.take(w + 1));
                        }
                        w = w + 1;
                    }
                    proof {
                        assert(bytes@.skip(16) =~= self.spec_bufs()[i as int]@);
                        assert(bytes@.subrange(16, bytes@.len() as int) =~= bytes@.skip(16));
                    }
                    let pos = calc_data_block_write_pos(
                        self.version,
                        seq,
                        None,
                        Some((data_shards, parity_shards, burst)),
                    );
                    repaired.push((pos, bytes));
                    proof {
                        members = members.push(i as int);
                        assert(spec_count_true(self.spec_present().take(i + 1))
                            == spec_count_true(self.spec_present().take(i as int)));
                    }
                } else {
                    proof {
                        assert(spec_count_true(self.spec_present().take(i + 1))
                            == spec_count_true(self.spec_present().take(i as int)) + 1);
                    }
                }
                i = i + 1;
            }
            proof {
                assert(self.spec_present().take(total as int) =~= self.spec_present());
                assert(exists|ms: Seq<int>|
                    {
                        &&& ms.len() == repaired.len()
                        &&& (forall|j: int|
                            0 <= j < ms.len() ==> 0 <= #[trigger] ms[j] < t
                                && !self.spec_present()[ms[j]])
                        &&& (forall|j1: int, j2: int|
                            0 <= j1 < j2 < ms.len() ==> #[trigger] ms[j1] < #[trigger] ms[j2])
                        &&& (forall|j: int|
                            0 <= j < ms.len() ==> old(self).spec_entry_ok(
                                self.spec_bufs(),
                                first_seq,
                                burst as int,
                                #[trigger] repaired@[j],
                                ms[j],
                            ))
                    }) by {
                    assert(members.len() == repaired.len());
                }
            }
        }
        let stats = RSRepairStats {
            successful,
            start_seq_num: first_seq_in_set,
            present: present_copy,
            missing_count: missing_cnt,
            present_count: present_cnt,
        };
        (stats, repaired)
    }
}

/// A run of cleared flags counts to zero.
proof fn lemma_count_all_false(s: Seq<bool>)
    requires
        forall|i: int| 0 <= i < s.len() ==> !(#[trigger] s[i]),
    ensures
        spec_count_true(s) == 0,
    decreases s.len(),
{
    if s.len() > 0 {
        assert(forall|i: int| 0 <= i < s.skip(1).len() ==> !(#[trigger] s.skip(1)[i]));
        lemma_count_all_false(s.skip(1));
    }
}

} // verus!
