//! Reed-Solomon erasure coding over the payloads of one block set: the
//! parity computation and the reconstruction are outside calls; everything
//! around them is verified against the contracts below.

pub mod repairer;

use vstd::prelude::*;

verus! {

#[derive(Clone, Copy, Debug, PartialEq, Eq, Structural)]
pub enum RSError {
    TooFewDataShards,
    TooFewParityShards,
    TooManyShards,
    TooFewShardsPresent,
}

#[derive(Clone, Copy, Debug, PartialEq, Eq, Structural)]
pub enum RSCodecState {
    Ready,
    NotReady,
}

/// The views of a vector of shard buffers.
pub open spec fn spec_shard_views(shards: Seq<Vec<u8>>) -> Seq<Seq<u8>> {
    shards.map_values(|v: Vec<u8>| v@)
}

/// What the erasure code appends to `data` data shards: `parity` parity
/// rows, each as long as a data row.  Named, not spelled out: the matrix
/// arithmetic lives in the outside crate alone.
pub uninterp spec fn rs_parity_of(data: int, parity: int, data_shards: Seq<Seq<u8>>) -> Seq<
    Seq<u8>,
>;

/// The full codeword over the given data rows.
pub open spec fn spec_rs_codeword(data: int, parity: int, data_shards: Seq<Seq<u8>>) -> Seq<
    Seq<u8>,
> {
    data_shards + rs_parity_of(data, parity, data_shards)
}

/// All rows have the given length.
pub open spec fn spec_rows_len(rows: Seq<Seq<u8>>, len: int) -> bool {
    forall|i: int| 0 <= i < rows.len() ==> #[trigger] rows[i].len() == len
}

/// How many of the flags are set.
pub open spec fn spec_count_true(s: Seq<bool>) -> int
    decreases s.len(),
{
    if s.len() == 0 {
        0
    } else {
        spec_count_true(s.skip(1)) + if s[0] {
            1int
        } else {
            0int
        }
    }
}

/// Relies on reed_solomon_erasure::ReedSolomon::{new, encode}: under the
/// shard counts admitted below `new` returns a codec, and `encode`
/// overwrites the last `parity` buffers with the parity rows of the first
/// `data` buffers, touching nothing else.  The parity rows are a function
/// of the data rows and the counts alone.
#[verifier::external_body]
fn rs_encode_shards(data: usize, parity: usize, shards: &mut Vec<Vec<u8>>)
    requires
        1 <= data,
        1 <= parity,
        data + parity <= 256,
        old(shards).len() == data + parity,
        spec_rows_len(spec_shard_views(old(shards)@), old(shards)@[0].len() as int),
        old(shards)@[0].len() >= 1,
    ensures
        final(shards).len() == data + parity,
        forall|i: int| 0 <= i < data ==> final(shards)@[i] == old(shards)@[i],
        forall|i: int|
            data <= i < data + parity ==> #[trigger] final(shards)@[i]@ == rs_parity_of(
                data as int,
                parity as int,
                spec_shard_views(old(shards)@).take(data as int),
            )[i - data],
        rs_parity_of(
            data as int,
            parity as int,
            spec_shard_views(old(shards)@).take(data as int),
        ).len() == parity,
        spec_rows_len(spec_shard_views(final(shards)@), old(shards)@[0].len() as int),
{
    let rs = reed_solomon_erasure::galois_8::ReedSolomon::new(data, parity).unwrap();
    rs.encode(shards.as_mut_slice()).unwrap();
}

/// Relies on reed_solomon_erasure::ReedSolomon::{new, reconstruct}: with at
/// least `data` shards marked present (and equal nonzero lengths, which the
/// requires pin), `reconstruct` succeeds, leaves the present shards as they
/// were, and fills the missing ones so that the whole is the unique
/// codeword agreeing with the present shards; with fewer it fails and
/// touches nothing.
#[verifier::external_body]
fn rs_reconstruct_shards(data: usize, parity: usize, shards: &mut Vec<Vec<u8>>, present: &Vec<
    bool,
>) -> (r: Result<(), RSError>)
    requires
        1 <= data,
        1 <= parity,
        data + parity <= 256,
        old(shards).len() == data + parity,
        present.len() == data + parity,
        spec_rows_len(spec_shard_views(old(shards)@), old(shards)@[0].len() as int),
        old(shards)@[0].len() >= 1,
    ensures
        final(shards).len() == data + parity,
        spec_rows_len(spec_shard_views(final(shards)@), old(shards)@[0].len() as int),
        forall|i: int|
            0 <= i < data + parity && present@[i] ==> final(shards)@[i] == old(shards)@[i],
        r is Ok <==> spec_count_true(present@) >= data,
        r is Err ==> *final(shards) == *old(shards),
        r is Ok ==> forall|orig: Seq<Seq<u8>>|
            orig.len() == data && spec_rows_len(orig, old(shards)@[0].len() as int) && (forall|
                i: int,
            |
                0 <= i < data + parity && present@[i]
                    ==> #[trigger] spec_shard_views(old(shards)@)[i] == spec_rs_codeword(
                    data as int,
                    parity as int,
                    orig,
                )[i]) ==> spec_shard_views(final(shards)@) == spec_rs_codeword(
                data as int,
                parity as int,
                orig,
            ),
{
    let rs = reed_solomon_erasure::galois_8::ReedSolomon::new(data, parity).unwrap();
    let mut pairs: Vec<(Vec<u8>, bool)> = Vec::with_capacity(shards.len());
    for (i, s) in shards.drain(..).enumerate() {
        pairs.push((s, present[i]));
    }
    let res = rs.reconstruct(pairs.as_mut_slice());
    for (s, _) in pairs {
        shards.push(s);
    }
    match res {
        Ok(()) => Ok(()),
        Err(_) => Err(RSError::TooFewShardsPresent),
    }
}

/// A Reed-Solomon codec for one `(data, parity)` pair.
#[derive(Clone, Copy, Debug)]
pub struct RSCodec {
    data: usize,
    parity: usize,
}

/// Two codecs with the same shard counts are the same codec.
pub proof fn lemma_codec_eq(a: RSCodec, b: RSCodec)
    requires
        a.spec_data() == b.spec_data(),
        a.spec_parity() == b.spec_parity(),
    ensures
        a == b,
{
}

impl RSCodec {
    pub closed spec fn spec_data(self) -> int {
        self.data as int
    }

    pub closed spec fn spec_parity(self) -> int {
        self.parity as int
    }

    pub open spec fn spec_wf(self) -> bool {
        1 <= self.spec_data() && 1 <= self.spec_parity() && self.spec_data() + self.spec_parity()
            <= 256
    }

    /// A codec needs at least one data shard, at least one parity shard,
    /// and no more than 256 shards in all.
    pub fn new(data: usize, parity: usize) -> (r: Result<RSCodec, RSError>)
        ensures
            match r {
                Ok(c) => 1 <= data && 1 <= parity && data + parity <= 256 && c.spec_data()
                    == data && c.spec_parity() == parity && c.spec_wf(),
                Err(e) => {
                    &&& (e is TooFewDataShards <==> data == 0)
                    &&& (data >= 1 ==> (e is TooFewParityShards <==> parity == 0))
                    &&& (data >= 1 && parity >= 1 ==> (e is TooManyShards <==> data + parity
                        > 256))
                    &&& (data == 0 || parity == 0 || data + parity > 256)
                },
            },
    {
        if data == 0 {
            Err(RSError::TooFewDataShards)
        } else if parity == 0 {
            Err(RSError::TooFewParityShards)
        } else if data > 256 || parity > 256 || data + parity > 256 {
            Err(RSError::TooManyShards)
        } else {
            Ok(RSCodec { data, parity })
        }
    }

    pub fn data_shard_count(&self) -> (r: usize)
        ensures
            r == self.spec_data(),
    {
        self.data
    }

    pub fn parity_shard_count(&self) -> (r: usize)
        ensures
            r == self.spec_parity(),
    {
        self.parity
    }

    pub fn total_shard_count(&self) -> (r: usize)
        requires
            self.spec_wf(),
        ensures
            r == self.spec_data() + self.spec_parity(),
    {
        self.data + self.parity
    }

    /// Fill the last `parity` shard buffers with the parity of the first
    /// `data` ones.
    pub fn encode(&self, shards: &mut Vec<Vec<u8>>)
        requires
            self.spec_wf(),
            old(shards).len() == self.spec_data() + self.spec_parity(),
            spec_rows_len(spec_shard_views(old(shards)@), old(shards)@[0].len() as int),
            old(shards)@[0].len() >= 1,
        ensures
            final(shards).len() == old(shards).len(),
            forall|i: int| 0 <= i < self.spec_data() ==> final(shards)@[i] == old(shards)@[i],
            forall|i: int|
                self.spec_data() <= i < old(shards).len() ==> #[trigger] final(shards)@[i]@
                    == rs_parity_of(
                    self.spec_data(),
                    self.spec_parity(),
                    spec_shard_views(old(shards)@).take(self.spec_data()),
                )[i - self.spec_data()],
            spec_shard_views(final(shards)@) == spec_rs_codeword(
                self.spec_data(),
                self.spec_parity(),
                spec_shard_views(old(shards)@).take(self.spec_data()),
            ),
            spec_rows_len(spec_shard_views(final(shards)@), old(shards)@[0].len() as int),
    {
        rs_encode_shards(self.data, self.parity, shards);
        proof {
            let dv = spec_shard_views(old(shards)@).take(self.spec_data());
            assert(spec_shard_views(shards@) =~= dv + rs_parity_of(
                self.spec_data(),
                self.spec_parity(),
                dv,
            ));
        }
    }

    /// Rebuild the missing shards from the present ones; fails if and only
    /// if fewer than `data` are present.
    pub fn reconstruct(&self, shards: &mut Vec<Vec<u8>>, present: &Vec<bool>) -> (r: Result<
        (),
        RSError,
    >)
        requires
            self.spec_wf(),
            old(shards).len() == self.spec_data() + self.spec_parity(),
            present.len() == self.spec_data() + self.spec_parity(),
            spec_rows_len(spec_shard_views(old(shards)@), old(shards)@[0].len() as int),
            old(shards)@[0].len() >= 1,
        ensures
            final(shards).len() == old(shards).len(),
            spec_rows_len(spec_shard_views(final(shards)@), old(shards)@[0].len() as int),
            forall|i: int|
                0 <= i < old(shards).len() && present@[i] ==> final(shards)@[i] == old(
                    shards,
                )@[i],
            r is Ok <==> spec_count_true(present@) >= self.spec_data(),
            r is Err ==> *final(shards) == *old(shards),
            r is Ok ==> forall|orig: Seq<Seq<u8>>|
                orig.len() == self.spec_data() && spec_rows_len(
                    orig,
                    old(shards)@[0].len() as int,
                ) && (forall|i: int|
                    0 <= i < old(shards).len() && present@[i] ==> #[trigger] spec_shard_views(
                        old(shards)@,
                    )[i] == spec_rs_codeword(self.spec_data(), self.spec_parity(), orig)[i])
                    ==> spec_shard_views(final(shards)@) == spec_rs_codeword(
                    self.spec_data(),
                    self.spec_parity(),
                    orig,
                ),
    {
        rs_reconstruct_shards(self.data, self.parity, shards, present)
    }
}

} // verus!
