//! Metadata entries and their TLV encoding: a three-byte ASCII ID, a length
//! byte, then the value; the rest of the payload is padded with `0x1A`.
//! Parsing is single-pass and halts at the first unknown ID or at a length
//! that does not fit.

use vstd::prelude::*;

use crate::byte_order::{be64_join, be64_split, spec_be64};
use crate::multihash::{
    hash_type_code, hash_type_of_code, spec_digest_len, spec_hash_type_code, HashBytes,
};
use crate::sbx_block::Error;

verus! {

#[derive(Clone, Debug)]
pub enum Metadata {
    FNM(Vec<u8>),
    SNM(Vec<u8>),
    FSZ(u64),
    FDT(i64),
    SDT(i64),
    HSH(HashBytes),
    RSD(u8),
    RSP(u8),
}

#[derive(Clone, Copy, Debug, PartialEq, Eq, Structural)]
pub enum MetadataID {
    FNM,
    SNM,
    FSZ,
    FDT,
    SDT,
    HSH,
    RSD,
    RSP,
}

pub open spec fn spec_meta_to_id(m: Metadata) -> MetadataID {
    match m {
        Metadata::FNM(_) => MetadataID::FNM,
        Metadata::SNM(_) => MetadataID::SNM,
        Metadata::FSZ(_) => MetadataID::FSZ,
        Metadata::FDT(_) => MetadataID::FDT,
        Metadata::SDT(_) => MetadataID::SDT,
        Metadata::HSH(_) => MetadataID::HSH,
        Metadata::RSD(_) => MetadataID::RSD,
        Metadata::RSP(_) => MetadataID::RSP,
    }
}

pub open spec fn spec_id_bytes(id: MetadataID) -> Seq<u8> {
    match id {
        MetadataID::FNM => seq![0x46u8, 0x4Eu8, 0x4Du8],
        MetadataID::SNM => seq![0x53u8, 0x4Eu8, 0x4Du8],
        MetadataID::FSZ => seq![0x46u8, 0x53u8, 0x5Au8],
        MetadataID::FDT => seq![0x46u8, 0x44u8, 0x54u8],
        MetadataID::SDT => seq![0x53u8, 0x44u8, 0x54u8],
        MetadataID::HSH => seq![0x48u8, 0x53u8, 0x48u8],
        MetadataID::RSD => seq![0x52u8, 0x53u8, 0x44u8],
        MetadataID::RSP => seq![0x52u8, 0x53u8, 0x50u8],
    }
}

pub open spec fn spec_be64_seq(x: u64) -> Seq<u8> {
    seq![
        (x >> 56) as u8,
        (x >> 48) as u8,
        (x >> 40) as u8,
        (x >> 32) as u8,
        (x >> 24) as u8,
        (x >> 16) as u8,
        (x >> 8) as u8,
        x as u8,
    ]
}

/// The value bytes of one entry, without ID and length byte.
pub open spec fn spec_meta_value(m: Metadata) -> Seq<u8> {
    match m {
        Metadata::FNM(v) => v@,
        Metadata::SNM(v) => v@,
        Metadata::FSZ(x) => spec_be64_seq(x),
        Metadata::FDT(x) => spec_be64_seq(x as u64),
        Metadata::SDT(x) => spec_be64_seq(x as u64),
        Metadata::HSH(h) => seq![
            spec_hash_type_code(h.hash_type),
            h.digest.len() as u8,
        ] + h.digest@,
        Metadata::RSD(x) => seq![x],
        Metadata::RSP(x) => seq![x],
    }
}

/// An entry that the TLV form can carry: the value fits the length byte,
/// names are nonempty, and a hash digest has its type's length.
pub open spec fn spec_meta_wf(m: Metadata) -> bool {
    match m {
        Metadata::FNM(v) => 1 <= v.len() <= 255,
        Metadata::SNM(v) => 1 <= v.len() <= 255,
        Metadata::HSH(h) => h.digest.len() == spec_digest_len(h.hash_type),
        _ => true,
    }
}

/// One whole TLV entry.
pub open spec fn spec_meta_bytes(m: Metadata) -> Seq<u8> {
    spec_id_bytes(spec_meta_to_id(m)) + seq![spec_meta_value(m).len() as u8] + spec_meta_value(m)
}

/// All entries, back to back.
pub open spec fn spec_metas_bytes(metas: Seq<Metadata>) -> Seq<u8>
    decreases metas.len(),
{
    if metas.len() == 0 {
        Seq::<u8>::empty()
    } else {
        spec_meta_bytes(metas[0]) + spec_metas_bytes(metas.skip(1))
    }
}

pub fn id_to_bytes(id: MetadataID) -> (r: [u8; 3])
    ensures
        r@ == spec_id_bytes(id),
{
    let r: [u8; 3] = match id {
        MetadataID::FNM => [0x46, 0x4E, 0x4D],
        MetadataID::SNM => [0x53, 0x4E, 0x4D],
        MetadataID::FSZ => [0x46, 0x53, 0x5A],
        MetadataID::FDT => [0x46, 0x44, 0x54],
        MetadataID::SDT => [0x53, 0x44, 0x54],
        MetadataID::HSH => [0x48, 0x53, 0x48],
        MetadataID::RSD => [0x52, 0x53, 0x44],
        MetadataID::RSP => [0x52, 0x53, 0x50],
    };
    proof {
        assert(r@ =~= spec_id_bytes(id));
    }
    r
}

pub fn meta_to_id(meta: &Metadata) -> (r: MetadataID)
    ensures
        r == spec_meta_to_id(*meta),
{
    match meta {
        Metadata::FNM(_) => MetadataID::FNM,
        Metadata::SNM(_) => MetadataID::SNM,
        Metadata::FSZ(_) => MetadataID::FSZ,
        Metadata::FDT(_) => MetadataID::FDT,
        Metadata::SDT(_) => MetadataID::SDT,
        Metadata::HSH(_) => MetadataID::HSH,
        Metadata::RSD(_) => MetadataID::RSD,
        Metadata::RSP(_) => MetadataID::RSP,
    }
}

/// Length of the value bytes of one entry.
pub fn single_info_size(meta: &Metadata) -> (r: usize)
    requires
        spec_meta_wf(*meta),
    ensures
        r == spec_meta_value(*meta).len(),
        r <= 255,
{
    match meta {
        Metadata::FNM(v) => v.len(),
        Metadata::SNM(v) => v.len(),
        Metadata::FSZ(_) => 8,
        Metadata::FDT(_) => 8,
        Metadata::SDT(_) => 8,
        Metadata::HSH(h) => 2 + h.digest.len(),
        Metadata::RSD(_) => 1,
        Metadata::RSP(_) => 1,
    }
}

/// Length of one whole TLV entry.
pub fn single_meta_size(meta: &Metadata) -> (r: usize)
    requires
        spec_meta_wf(*meta),
    ensures
        r == spec_meta_bytes(*meta).len(),
        4 <= r <= 259,
{
    4 + single_info_size(meta)
}

/// Append the value bytes of one entry.
fn push_meta_value(meta: &Metadata, out: &mut Vec<u8>)
    requires
        spec_meta_wf(*meta),
    ensures
        final(out)@ == old(out)@ + spec_meta_value(*meta),
{
    match meta {
        Metadata::FNM(v) | Metadata::SNM(v) => {
            let mut i: usize = 0;
            while i < v.len()
                invariant
                    i <= v.len(),
                    out@ == old(out)@ + v@.subrange(0, i as int),
                decreases v.len() - i,
            {
                out.push(v[i]);
                proof {
                    assert(old(out)@ + v@.subrange(0, i + 1) =~= (old(out)@ + v@.subrange(
                        0,
                        i as int,
                    )).push(v@[i as int]));
                }
                i = i + 1;
            }
            proof {
                assert(v@.subrange(0, v@.len() as int) =~= v@);
            }
        },
        Metadata::FSZ(x) => {
            push_be64(*x, out);
        },
        Metadata::FDT(x) => {
            push_be64(*x as u64, out);
        },
        Metadata::SDT(x) => {
            push_be64(*x as u64, out);
        },
        Metadata::HSH(h) => {
            out.push(hash_type_code(h.hash_type));
            out.push(h.digest.len() as u8);
            let mut i: usize = 0;
            while i < h.digest.len()
                invariant
                    i <= h.digest.len(),
                    out@ == old(out)@ + seq![
                        spec_hash_type_code(h.hash_type),
                        h.digest.len() as u8,
                    ] + h.digest@.subrange(0, i as int),
                decreases h.digest.len() - i,
            {
                out.push(h.digest[i]);
                proof {
                    assert(old(out)@ + seq![
                        spec_hash_type_code(h.hash_type),
                        h.digest.len() as u8,
                    ] + h.digest@.subrange(0, i + 1) =~= (old(out)@ + seq![
                        spec_hash_type_code(h.hash_type),
                        h.digest.len() as u8,
                    ] + h.digest@.subrange(0, i as int)).push(h.digest@[i as int]));
                }
                i = i + 1;
            }
            proof {
                assert(h.digest@.subrange(0, h.digest@.len() as int) =~= h.digest@);
            }
        },
        Metadata::RSD(x) => {
            out.push(*x);
            proof {
                assert(old(out)@ + spec_meta_value(*meta) =~= old(out)@.push(*x));
            }
        },
        Metadata::RSP(x) => {
            out.push(*x);
            proof {
                assert(old(out)@ + spec_meta_value(*meta) =~= old(out)@.push(*x));
            }
        },
    }
}

fn push_be64(x: u64, out: &mut Vec<u8>)
    ensures
        final(out)@ == old(out)@ + spec_be64_seq(x),
{
    let b = be64_split(x);
    out.push(b[0]);
    out.push(b[1]);
    out.push(b[2]);
    out.push(b[3]);
    out.push(b[4]);
    out.push(b[5]);
    out.push(b[6]);
    out.push(b[7]);
    proof {
        lemma_be64_seq_of_split(x, b@);
        assert(out@ =~= old(out)@ + spec_be64_seq(x));
    }
}

proof fn lemma_be64_seq_of_split(x: u64, b: Seq<u8>)
    requires
        b.len() == 8,
        spec_be64(b[0], b[1], b[2], b[3], b[4], b[5], b[6], b[7]) == x,
    ensures
        spec_be64_seq(x) == b,
{
    let b0 = b[0];
    let b1 = b[1];
    let b2 = b[2];
    let b3 = b[3];
    let b4 = b[4];
    let b5 = b[5];
    let b6 = b[6];
    let b7 = b[7];
    let y = spec_be64(b0, b1, b2, b3, b4, b5, b6, b7);
    assert((((((b0 as u64) << 56) | ((b1 as u64) << 48) | ((b2 as u64) << 40) | ((b3 as u64) << 32) | ((b4 as u64) << 24) | ((b5 as u64) << 16) | ((b6 as u64) << 8) | (b7 as u64)) >> 56) as u8) == b0) by (bit_vector);
    assert((((((b0 as u64) << 56) | ((b1 as u64) << 48) | ((b2 as u64) << 40) | ((b3 as u64) << 32) | ((b4 as u64) << 24) | ((b5 as u64) << 16) | ((b6 as u64) << 8) | (b7 as u64)) >> 48) as u8) == b1) by (bit_vector);
    assert((((((b0 as u64) << 56) | ((b1 as u64) << 48) | ((b2 as u64) << 40) | ((b3 as u64) << 32) | ((b4 as u64) << 24) | ((b5 as u64) << 16) | ((b6 as u64) << 8) | (b7 as u64)) >> 40) as u8) == b2) by (bit_vector);
    assert((((((b0 as u64) << 56) | ((b1 as u64) << 48) | ((b2 as u64) << 40) | ((b3 as u64) << 32) | ((b4 as u64) << 24) | ((b5 as u64) << 16) | ((b6 as u64) << 8) | (b7 as u64)) >> 32) as u8) == b3) by (bit_vector);
    assert((((((b0 as u64) << 56) | ((b1 as u64) << 48) | ((b2 as u64) << 40) | ((b3 as u64) << 32) | ((b4 as u64) << 24) | ((b5 as u64) << 16) | ((b6 as u64) << 8) | (b7 as u64)) >> 24) as u8) == b4) by (bit_vector);
    assert((((((b0 as u64) << 56) | ((b1 as u64) << 48) | ((b2 as u64) << 40) | ((b3 as u64) << 32) | ((b4 as u64) << 24) | ((b5 as u64) << 16) | ((b6 as u64) << 8) | (b7 as u64)) >> 16) as u8) == b5) by (bit_vector);
    assert((((((b0 as u64) << 56) | ((b1 as u64) << 48) | ((b2 as u64) << 40) | ((b3 as u64) << 32) | ((b4 as u64) << 24) | ((b5 as u64) << 16) | ((b6 as u64) << 8) | (b7 as u64)) >> 8) as u8) == b6) by (bit_vector);
    assert(((((b0 as u64) << 56) | ((b1 as u64) << 48) | ((b2 as u64) << 40) | ((b3 as u64) << 32) | ((b4 as u64) << 24) | ((b5 as u64) << 16) | ((b6 as u64) << 8) | (b7 as u64)) as u8) == b7) by (bit_vector);
    assert(spec_be64_seq(x) =~= b);
}

/// Append one whole TLV entry.
fn push_meta(meta: &Metadata, out: &mut Vec<u8>)
    requires
        spec_meta_wf(*meta),
    ensures
        final(out)@ == old(out)@ + spec_meta_bytes(*meta),
{
    let id = id_to_bytes(meta_to_id(meta));
    out.push(id[0]);
    out.push(id[1]);
    out.push(id[2]);
    let info = single_info_size(meta);
    out.push(info as u8);
    let ghost mid = out@;
    push_meta_value(meta, out);
    proof {
        assert(mid =~= old(out)@ + spec_id_bytes(spec_meta_to_id(*meta)) + seq![
            spec_meta_value(*meta).len() as u8,
        ]);
        assert(out@ =~= old(out)@ + spec_meta_bytes(*meta));
    }
}

/// Serialize all entries into the buffer and pad the rest with `0x1A`.
/// Fails, leaving the buffer unchanged, exactly when the entries together
/// need more room than the buffer has.
pub fn to_bytes(meta: &Vec<Metadata>, buffer: &mut Vec<u8>) -> (r: Result<(), Error>)
    requires
        forall|i: int| 0 <= i < meta.len() ==> spec_meta_wf(#[trigger] meta@[i]),
    ensures
        match r {
            Ok(()) => spec_metas_bytes(meta@).len() <= old(buffer).len() && final(buffer).len()
                == old(buffer).len() && final(buffer)@ == spec_metas_bytes(meta@) + Seq::new(
                (old(buffer).len() - spec_metas_bytes(meta@).len()) as nat,
                |i: int| 0x1Au8,
            ),
            Err(e) => e is TooMuchMetadata && spec_metas_bytes(meta@).len() > old(buffer).len()
                && *final(buffer) == *old(buffer),
        },
{
    let mut out: Vec<u8> = Vec::new();
    let mut i: usize = 0;
    while i < meta.len()
        invariant
            i <= meta.len(),
            forall|j: int| 0 <= j < meta.len() ==> spec_meta_wf(#[trigger] meta@[j]),
            out@ == spec_metas_bytes(meta@.subrange(0, i as int)),
            out.len() <= buffer.len(),
            buffer == old(buffer),
        decreases meta.len() - i,
    {
        proof {
            lemma_metas_bytes_snoc(meta@.subrange(0, i as int), meta@[i as int]);
            assert(meta@.subrange(0, i + 1) =~= meta@.subrange(0, i as int).push(meta@[i as int]));
        }
        push_meta(&meta[i], &mut out);
        if out.len() > buffer.len() {
            proof {
                lemma_metas_bytes_prefix_len(meta@, i + 1);
            }
            return Err(Error::TooMuchMetadata(meta.clone()));
        }
        i = i + 1;
    }
    proof {
        assert(meta@.subrange(0, meta@.len() as int) =~= meta@);
    }
    let total = out.len();
    let cap = buffer.len();
    let mut j: usize = total;
    while j < cap
        invariant
            total <= j <= cap,
            out@ == spec_metas_bytes(meta@) + Seq::new((j - total) as nat, |k: int| 0x1Au8),
            out.len() == j,
            buffer == old(buffer),
            cap == buffer.len(),
            total == spec_metas_bytes(meta@).len(),
        decreases cap - j,
    {
        out.push(0x1A);
        proof {
            assert(spec_metas_bytes(meta@) + Seq::new((j + 1 - total) as nat, |k: int| 0x1Au8)
                =~= (spec_metas_bytes(meta@) + Seq::new((j - total) as nat, |k: int| 0x1Au8)).push(
                0x1Au8,
            ));
        }
        j = j + 1;
    }
    *buffer = out;
    Ok(())
}

/// Appending one entry appends its bytes.
pub proof fn lemma_metas_bytes_snoc(metas: Seq<Metadata>, m: Metadata)
    ensures
        spec_metas_bytes(metas.push(m)) == spec_metas_bytes(metas) + spec_meta_bytes(m),
    decreases metas.len(),
{
    if metas.len() == 0 {
        assert(metas.push(m)[0] == m);
        assert(metas.push(m).skip(1) =~= Seq::<Metadata>::empty());
        assert(spec_metas_bytes(Seq::<Metadata>::empty()) =~= Seq::<u8>::empty());
        assert(spec_metas_bytes(metas.push(m)) =~= spec_metas_bytes(metas) + spec_meta_bytes(m));
    } else {
        assert(metas.push(m)[0] == metas[0]);
        assert(metas.push(m).skip(1) =~= metas.skip(1).push(m));
        lemma_metas_bytes_snoc(metas.skip(1), m);
        assert(spec_metas_bytes(metas.push(m)) =~= spec_metas_bytes(metas) + spec_meta_bytes(m));
    }
}

/// A prefix of the entries never needs more bytes than all of them.
proof fn lemma_metas_bytes_prefix_len(metas: Seq<Metadata>, n: int)
    requires
        0 <= n <= metas.len(),
    ensures
        spec_metas_bytes(metas.subrange(0, n)).len() <= spec_metas_bytes(metas).len(),
    decreases metas.len() - n,
{
    if n == metas.len() {
        assert(metas.subrange(0, n) =~= metas);
    } else {
        lemma_metas_bytes_snoc(metas.subrange(0, n), metas[n]);
        assert(metas.subrange(0, n + 1) =~= metas.subrange(0, n).push(metas[n]));
        lemma_metas_bytes_prefix_len(metas, n + 1);
    }
}

/// Which ID three bytes name, if any.
pub open spec fn spec_id_of_bytes(b0: u8, b1: u8, b2: u8) -> Option<MetadataID> {
    if b0 == 0x46 && b1 == 0x4E && b2 == 0x4D {
        Some(MetadataID::FNM)
    } else if b0 == 0x53 && b1 == 0x4E && b2 == 0x4D {
        Some(MetadataID::SNM)
    } else if b0 == 0x46 && b1 == 0x53 && b2 == 0x5A {
        Some(MetadataID::FSZ)
    } else if b0 == 0x46 && b1 == 0x44 && b2 == 0x54 {
        Some(MetadataID::FDT)
    } else if b0 == 0x53 && b1 == 0x44 && b2 == 0x54 {
        Some(MetadataID::SDT)
    } else if b0 == 0x48 && b1 == 0x53 && b2 == 0x48 {
        Some(MetadataID::HSH)
    } else if b0 == 0x52 && b1 == 0x53 && b2 == 0x44 {
        Some(MetadataID::RSD)
    } else if b0 == 0x52 && b1 == 0x53 && b2 == 0x50 {
        Some(MetadataID::RSP)
    } else {
        None
    }
}

/// The length byte an entry of this ID may carry.
pub open spec fn spec_len_ok(id: MetadataID, n: int, val: Seq<u8>) -> bool {
    match id {
        MetadataID::FNM | MetadataID::SNM => true,
        MetadataID::FSZ | MetadataID::FDT | MetadataID::SDT => n == 8,
        MetadataID::RSD | MetadataID::RSP => n == 1,
        MetadataID::HSH => n >= 2 && val[1] == n - 2 && {
            &&& (val[0] == 0x11 || val[0] == 0x12 || val[0] == 0x13 || val[0] == 0x40)
            &&& (val[0] == 0x11 ==> n - 2 == 20)
            &&& (val[0] == 0x12 ==> n - 2 == 32)
            &&& (val[0] == 0x13 ==> n - 2 == 64)
            &&& (val[0] == 0x40 ==> n - 2 == 64)
        },
    }
}

/// Whether the front of `b` is one parsable entry, and how many bytes it
/// takes: a known ID, a nonzero length that fits, and a value of the shape
/// the ID asks for.
pub open spec fn spec_head_consumed(b: Seq<u8>) -> Option<(MetadataID, int)> {
    if b.len() < 4 {
        None
    } else {
        match spec_id_of_bytes(b[0], b[1], b[2]) {
            None => None,
            Some(id) => {
                let n = b[3] as int;
                if n < 1 || 4 + n > b.len() {
                    None
                } else if !spec_len_ok(id, n, b.subrange(4, 4 + n)) {
                    None
                } else {
                    Some((id, 4 + n))
                }
            },
        }
    }
}

/// The entry `m` carries the given ID and exactly the value bytes `val`.
pub open spec fn spec_entry_value_matches(id: MetadataID, val: Seq<u8>, m: Metadata) -> bool {
    spec_meta_to_id(m) == id && spec_meta_value(m) == val
}

/// `metas` is exactly what single-pass parsing of `b` yields: entries while
/// the head parses, a halt at the first byte that does not.
pub open spec fn spec_metas_match(b: Seq<u8>, metas: Seq<Metadata>) -> bool
    decreases b.len(),
{
    match spec_head_consumed(b) {
        None => metas.len() == 0,
        Some((id, c)) => {
            &&& metas.len() >= 1
            &&& spec_entry_value_matches(id, b.subrange(4, c), metas[0])
            &&& spec_metas_match(b.skip(c), metas.skip(1))
        },
    }
}

fn id_of_bytes(b0: u8, b1: u8, b2: u8) -> (r: Option<MetadataID>)
    ensures
        r == spec_id_of_bytes(b0, b1, b2),
{
    if b0 == 0x46 && b1 == 0x4E && b2 == 0x4D {
        Some(MetadataID::FNM)
    } else if b0 == 0x53 && b1 == 0x4E && b2 == 0x4D {
        Some(MetadataID::SNM)
    } else if b0 == 0x46 && b1 == 0x53 && b2 == 0x5A {
        Some(MetadataID::FSZ)
    } else if b0 == 0x46 && b1 == 0x44 && b2 == 0x54 {
        Some(MetadataID::FDT)
    } else if b0 == 0x53 && b1 == 0x44 && b2 == 0x54 {
        Some(MetadataID::SDT)
    } else if b0 == 0x48 && b1 == 0x53 && b2 == 0x48 {
        Some(MetadataID::HSH)
    } else if b0 == 0x52 && b1 == 0x53 && b2 == 0x44 {
        Some(MetadataID::RSD)
    } else if b0 == 0x52 && b1 == 0x53 && b2 == 0x50 {
        Some(MetadataID::RSP)
    } else {
        None
    }
}

/// Copy `bytes[start..end]` into a fresh vector.
fn copy_range(bytes: &Vec<u8>, start: usize, end: usize) -> (r: Vec<u8>)
    requires
        start <= end <= bytes.len(),
    ensures
        r@ == bytes@.subrange(start as int, end as int),
{
    let mut v: Vec<u8> = Vec::new();
    let mut i = start;
    while i < end
        invariant
            start <= i <= end <= bytes.len(),
            v@ == bytes@.subrange(start as int, i as int),
        decreases end - i,
    {
        v.push(bytes[i]);
        proof {
            assert(bytes@.subrange(start as int, i + 1) =~= bytes@.subrange(
                start as int,
                i as int,
            ).push(bytes@[i as int]));
        }
        i = i + 1;
    }
    v
}

/// Parse one entry starting at `pos`; `None` means the head does not parse
/// there and the single pass halts.
fn parse_entry(bytes: &Vec<u8>, pos: usize) -> (r: Option<(Metadata, usize)>)
    requires
        pos <= bytes.len(),
    ensures
        match r {
            None => spec_head_consumed(bytes@.skip(pos as int)) is None,
            Some((m, c)) => {
                &&& spec_head_consumed(bytes@.skip(pos as int)) matches Some((id, sc))
                    && sc == c && spec_entry_value_matches(
                    id,
                    bytes@.skip(pos as int).subrange(4, c as int),
                    m,
                )
                &&& spec_meta_wf(m)
                &&& 5 <= c <= bytes.len() - pos
            },
        },
{
    let ghost b = bytes@.skip(pos as int);
    if bytes.len() - pos < 4 {
        return None;
    }
    proof {
        assert(b[0] == bytes@[pos as int]);
        assert(b[1] == bytes@[pos + 1]);
        assert(b[2] == bytes@[pos + 2]);
        assert(b[3] == bytes@[pos + 3]);
    }
    let id = match id_of_bytes(bytes[pos], bytes[pos + 1], bytes[pos + 2]) {
        None => {
            return None;
        },
        Some(id) => id,
    };
    let n = bytes[pos + 3] as usize;
    if n < 1 || n > bytes.len() - pos - 4 {
        return None;
    }
    let vstart = pos + 4;
    let vend = pos + 4 + n;
    proof {
        assert(b.subrange(4, 4 + n as int) =~= bytes@.subrange(vstart as int, vend as int));
    }
    let m: Metadata = match id {
        MetadataID::FNM => Metadata::FNM(copy_range(bytes, vstart, vend)),
        MetadataID::SNM => Metadata::SNM(copy_range(bytes, vstart, vend)),
        MetadataID::FSZ => {
            if n != 8 {
                return None;
            }
            let x = be64_join(
                bytes[vstart],
                bytes[vstart + 1],
                bytes[vstart + 2],
                bytes[vstart + 3],
                bytes[vstart + 4],
                bytes[vstart + 5],
                bytes[vstart + 6],
                bytes[vstart + 7],
            );
            proof {
                lemma_be64_seq_of_join(
                    bytes@[vstart as int],
                    bytes@[vstart + 1],
                    bytes@[vstart + 2],
                    bytes@[vstart + 3],
                    bytes@[vstart + 4],
                    bytes@[vstart + 5],
                    bytes@[vstart + 6],
                    bytes@[vstart + 7],
                );
                assert(spec_be64_seq(x) =~= bytes@.subrange(vstart as int, vend as int));
            }
            Metadata::FSZ(x)
        },
        MetadataID::FDT | MetadataID::SDT => {
            if n != 8 {
                return None;
            }
            let x = be64_join(
                bytes[vstart],
                bytes[vstart + 1],
                bytes[vstart + 2],
                bytes[vstart + 3],
                bytes[vstart + 4],
                bytes[vstart + 5],
                bytes[vstart + 6],
                bytes[vstart + 7],
            );
            proof {
                lemma_be64_seq_of_join(
                    bytes@[vstart as int],
                    bytes@[vstart + 1],
                    bytes@[vstart + 2],
                    bytes@[vstart + 3],
                    bytes@[vstart + 4],
                    bytes@[vstart + 5],
                    bytes@[vstart + 6],
                    bytes@[vstart + 7],
                );
                lemma_u64_i64_round_trip(x);
                assert(spec_be64_seq(x) =~= bytes@.subrange(vstart as int, vend as int));
            }
            let v = #[verifier::truncate] (x as i64);
            if matches!(id, MetadataID::FDT) {
                Metadata::FDT(v)
            } else {
                Metadata::SDT(v)
            }
        },
        MetadataID::HSH => {
            if n < 2 {
                return None;
            }
            let code = bytes[vstart];
            let dlen = bytes[vstart + 1] as usize;
            if dlen != n - 2 {
                return None;
            }
            let ht = match crate::multihash::hash_type_of_code(code) {
                None => {
                    return None;
                },
                Some(ht) => ht,
            };
            if dlen != crate::multihash::digest_len(ht) {
                return None;
            }
            let digest = copy_range(bytes, vstart + 2, vend);
            proof {
                assert(seq![
                    spec_hash_type_code(ht),
                    digest.len() as u8,
                ] + digest@ =~= bytes@.subrange(vstart as int, vend as int));
            }
            Metadata::HSH(HashBytes { hash_type: ht, digest })
        },
        MetadataID::RSD => {
            if n != 1 {
                return None;
            }
            Metadata::RSD(bytes[vstart])
        },
        MetadataID::RSP => {
            if n != 1 {
                return None;
            }
            Metadata::RSP(bytes[vstart])
        },
    };
    proof {
        if matches!(id, MetadataID::RSD) || matches!(id, MetadataID::RSP) {
            assert(spec_meta_value(m) =~= bytes@.subrange(vstart as int, vend as int));
        }
        assert(spec_len_ok(id, n as int, b.subrange(4, 4 + n as int)));
    }
    Some((m, 4 + n))
}

proof fn lemma_be64_seq_of_join(b0: u8, b1: u8, b2: u8, b3: u8, b4: u8, b5: u8, b6: u8, b7: u8)
    ensures
        spec_be64_seq(spec_be64(b0, b1, b2, b3, b4, b5, b6, b7)) == seq![
            b0,
            b1,
            b2,
            b3,
            b4,
            b5,
            b6,
            b7,
        ],
{
    lemma_be64_seq_of_split(
        spec_be64(b0, b1, b2, b3, b4, b5, b6, b7),
        seq![b0, b1, b2, b3, b4, b5, b6, b7],
    );
}

proof fn lemma_u64_i64_round_trip(x: u64)
    ensures
        (x as i64) as u64 == x,
{
    assert((x as i64) as u64 == x) by (bit_vector);
}

/// Single-pass parse of a metadata payload: entries are collected until the
/// first byte that no entry can start with, padding included; this never
/// fails, an unrecognized region simply ends the list.
pub fn from_bytes(bytes: &Vec<u8>) -> (r: Result<Vec<Metadata>, Error>)
    ensures
        match r {
            Ok(metas) => spec_metas_match(bytes@, metas@) && forall|i: int|
                0 <= i < metas.len() ==> spec_meta_wf(#[trigger] metas@[i]),
            Err(_) => false,
        },
{
    let mut res: Vec<Metadata> = Vec::new();
    let mut pos: usize = 0;
    proof {
        assert(bytes@.skip(0) =~= bytes@);
        assert forall|metas_rest: Seq<Metadata>|
            spec_metas_match(bytes@.skip(0), metas_rest) implies #[trigger] spec_metas_match(
            bytes@,
            Seq::<Metadata>::empty() + metas_rest,
        ) by {
            assert(Seq::<Metadata>::empty() + metas_rest =~= metas_rest);
        }
    }
    loop
        invariant
            pos <= bytes.len(),
            forall|i: int| 0 <= i < res.len() ==> spec_meta_wf(#[trigger] res@[i]),
            forall|metas_rest: Seq<Metadata>|
                spec_metas_match(bytes@.skip(pos as int), metas_rest) ==> #[trigger]
                    spec_metas_match(bytes@, res@ + metas_rest),
        decreases bytes.len() - pos,
    {
        match parse_entry(bytes, pos) {
            None => {
                proof {
                    assert(spec_metas_match(bytes@.skip(pos as int), Seq::<Metadata>::empty()));
                    assert(res@ + Seq::<Metadata>::empty() =~= res@);
                }
                return Ok(res);
            },
            Some((m, c)) => {
                proof {
                    let b = bytes@.skip(pos as int);
                    let id = spec_head_consumed(b)->Some_0.0;
                    assert forall|metas_rest: Seq<Metadata>|
                        spec_metas_match(bytes@.skip(pos + c), metas_rest) implies #[trigger]
                        spec_metas_match(bytes@, (res@.push(m)) + metas_rest) by {
                        assert(b.skip(c as int) =~= bytes@.skip(pos + c));
                        let whole = seq![m] + metas_rest;
                        assert(whole[0] == m);
                        assert(whole.skip(1) =~= metas_rest);
                        assert(spec_metas_match(b, whole));
                        assert(res@ + whole =~= (res@.push(m)) + metas_rest);
                    }
                }
                res.push(m);
                pos = pos + c;
            },
        }
    }
}

/// Two entries that carry the same ID and the same value bytes.
pub open spec fn spec_meta_equiv(a: Metadata, b: Metadata) -> bool {
    spec_meta_to_id(a) == spec_meta_to_id(b) && spec_meta_value(a) == spec_meta_value(b)
}

/// The front of a serialized entry parses back as that entry: the ID is
/// found, the length byte is taken, and the value bytes are the entry's own.
proof fn lemma_entry_head(m0: Metadata, rest: Seq<u8>)
    requires
        spec_meta_wf(m0),
    ensures
        spec_head_consumed(spec_meta_bytes(m0) + rest) == Some(
            (spec_meta_to_id(m0), 4 + spec_meta_value(m0).len() as int),
        ),
        (spec_meta_bytes(m0) + rest).subrange(4, 4 + spec_meta_value(m0).len() as int)
            == spec_meta_value(m0),
        (spec_meta_bytes(m0) + rest).skip(4 + spec_meta_value(m0).len() as int) == rest,
{
    let id = spec_meta_to_id(m0);
    let val = spec_meta_value(m0);
    let n = val.len() as int;
    let b = spec_meta_bytes(m0) + rest;
    assert(1 <= n <= 255) by {
        match m0 {
            Metadata::FNM(v) => {},
            Metadata::SNM(v) => {},
            Metadata::FSZ(x) => {},
            Metadata::FDT(x) => {},
            Metadata::SDT(x) => {},
            Metadata::HSH(h) => {
                assert(spec_digest_len(h.hash_type) <= 64);
            },
            Metadata::RSD(x) => {},
            Metadata::RSP(x) => {},
        }
    }
    assert(spec_meta_bytes(m0).len() == 4 + n);
    assert(b[0] == spec_id_bytes(id)[0]);
    assert(b[1] == spec_id_bytes(id)[1]);
    assert(b[2] == spec_id_bytes(id)[2]);
    assert(b[3] == n as u8);
    assert((n as u8) as int == n);
    assert(b.subrange(4, 4 + n) =~= val);
    assert(b.skip(4 + n) =~= rest);
    assert(spec_id_of_bytes(b[0], b[1], b[2]) == Some(id)) by {
        match m0 {
            Metadata::FNM(v) => {},
            Metadata::SNM(v) => {},
            Metadata::FSZ(x) => {},
            Metadata::FDT(x) => {},
            Metadata::SDT(x) => {},
            Metadata::HSH(h) => {},
            Metadata::RSD(x) => {},
            Metadata::RSP(x) => {},
        }
    }
    assert(spec_len_ok(id, n, val)) by {
        match m0 {
            Metadata::FNM(v) => {},
            Metadata::SNM(v) => {},
            Metadata::FSZ(x) => {},
            Metadata::FDT(x) => {},
            Metadata::SDT(x) => {},
            Metadata::HSH(h) => {
                assert(val[0] == spec_hash_type_code(h.hash_type));
                assert(val[1] == h.digest.len() as u8);
                assert(n - 2 == spec_digest_len(h.hash_type));
            },
            Metadata::RSD(x) => {},
            Metadata::RSP(x) => {},
        }
    }
}

/// Padding bytes can start no entry: parsing halts there.
proof fn lemma_pad_halts(pad: Seq<u8>)
    requires
        forall|i: int| 0 <= i < pad.len() ==> pad[i] == 0x1A,
    ensures
        spec_head_consumed(pad) is None,
{
    if pad.len() >= 4 {
        assert(pad[0] == 0x1A);
        assert(spec_id_of_bytes(pad[0], pad[1], pad[2]) is None);
    }
}

/// The metadata codec round-trips: serializing well-formed entries and
/// parsing the padded payload back yields entries with the same IDs and the
/// same value bytes, in the same order.
pub proof fn lemma_metas_round_trip(metas: Seq<Metadata>, parsed: Seq<Metadata>, pad: Seq<u8>)
    requires
        forall|i: int| 0 <= i < metas.len() ==> spec_meta_wf(#[trigger] metas[i]),
        forall|i: int| 0 <= i < pad.len() ==> pad[i] == 0x1A,
        spec_metas_match(spec_metas_bytes(metas) + pad, parsed),
    ensures
        parsed.len() == metas.len(),
        forall|i: int|
            0 <= i < metas.len() ==> spec_meta_equiv(#[trigger] parsed[i], metas[i]),
    decreases metas.len(),
{
    if metas.len() == 0 {
        assert(spec_metas_bytes(metas) + pad =~= pad);
        lemma_pad_halts(pad);
        assert(parsed.len() == 0);
    } else {
        let m0 = metas[0];
        let rest = metas.skip(1);
        let tail_bytes = spec_metas_bytes(rest) + pad;
        assert(spec_metas_bytes(metas) + pad =~= spec_meta_bytes(m0) + tail_bytes);
        lemma_entry_head(m0, tail_bytes);
        let b = spec_meta_bytes(m0) + tail_bytes;
        let c = 4 + spec_meta_value(m0).len() as int;
        assert(spec_head_consumed(b) == Some((spec_meta_to_id(m0), c)));
        assert(parsed.len() >= 1);
        assert(spec_entry_value_matches(spec_meta_to_id(m0), b.subrange(4, c), parsed[0]));
        assert(spec_meta_equiv(parsed[0], m0));
        assert(spec_metas_match(b.skip(c), parsed.skip(1)));
        assert(b.skip(c) == tail_bytes);
        lemma_metas_round_trip(rest, parsed.skip(1), pad);
        assert(parsed.len() == metas.len());
        assert forall|i: int| 0 <= i < metas.len() implies spec_meta_equiv(
            #[trigger] parsed[i],
            metas[i],
        ) by {
            if i > 0 {
                assert(parsed.skip(1)[i - 1] == parsed[i]);
                assert(metas.skip(1)[i - 1] == metas[i]);
            }
        }
    }
}

/// First entry carrying the given ID, if any.
pub open spec fn spec_find_meta(metas: Seq<Metadata>, id: MetadataID) -> Option<int>
    decreases metas.len(),
{
    if metas.len() == 0 {
        None
    } else if spec_meta_to_id(metas[0]) == id {
        Some(0)
    } else {
        match spec_find_meta(metas.skip(1), id) {
            None => None,
            Some(i) => Some(i + 1),
        }
    }
}

/// Index of the first entry carrying the given ID.
fn find_meta_index(id: MetadataID, metas: &Vec<Metadata>) -> (r: Option<usize>)
    ensures
        match r {
            Some(i) => i < metas.len() && spec_meta_to_id(metas@[i as int]) == id && forall|j: int|
                0 <= j < i ==> spec_meta_to_id(#[trigger] metas@[j]) != id,
            None => forall|j: int|
                0 <= j < metas.len() ==> spec_meta_to_id(#[trigger] metas@[j]) != id,
        },
{
    let mut i: usize = 0;
    while i < metas.len()
        invariant
            i <= metas.len(),
            forall|j: int| 0 <= j < i ==> spec_meta_to_id(#[trigger] metas@[j]) != id,
        decreases metas.len() - i,
    {
        if meta_to_id(&metas[i]) == id {
            return Some(i);
        }
        i = i + 1;
    }
    None
}

/// Borrow the first entry carrying the given ID.
pub fn get_meta_ref_by_id(id: MetadataID, metas: &Vec<Metadata>) -> (r: Option<&Metadata>)
    ensures
        match r {
            Some(m) => exists|i: int|
                0 <= i < metas.len() && *m == metas@[i] && spec_meta_to_id(#[trigger] metas@[i])
                    == id && (forall|j: int|
                    0 <= j < i ==> spec_meta_to_id(#[trigger] metas@[j]) != id),
            None => forall|j: int|
                0 <= j < metas.len() ==> spec_meta_to_id(#[trigger] metas@[j]) != id,
        },
{
    match find_meta_index(id, metas) {
        Some(i) => Some(&metas[i]),
        None => None,
    }
}

/// Mutably borrow the first entry carrying the given ID.
pub fn get_meta_ref_mut_by_id(id: MetadataID, metas: &mut Vec<Metadata>) -> (r: Option<
    &mut Metadata,
>)
    ensures
        match r {
            Some(m) => exists|i: int|
                0 <= i < old(metas).len() && *m == old(metas)@[i] && spec_meta_to_id(
                    #[trigger] old(metas)@[i],
                ) == id && final(metas)@ == old(metas)@.update(i, *final(m)) && (forall|j: int|
                    0 <= j < i ==> spec_meta_to_id(#[trigger] old(metas)@[j]) != id),
            None => *final(metas) == *old(metas) && forall|j: int|
                0 <= j < old(metas).len() ==> spec_meta_to_id(#[trigger] old(metas)@[j]) != id,
        },
{
    match find_meta_index(id, metas) {
        Some(i) => Some(&mut metas[i]),
        None => None,
    }
}

/// An entry list matches a description: element by element, the same ID and
/// the same value bytes.
pub open spec fn spec_metas_match_descr(metas: Seq<Metadata>, descr: Seq<(MetadataID, Seq<u8>)>) -> bool {
    &&& metas.len() == descr.len()
    &&& forall|i: int|
        0 <= i < metas.len() ==> spec_meta_to_id(#[trigger] metas[i]) == descr[i].0
            && spec_meta_value(metas[i]) == descr[i].1
}

/// The bytes a described entry list serializes to.
pub open spec fn spec_descr_bytes(descr: Seq<(MetadataID, Seq<u8>)>) -> Seq<u8>
    decreases descr.len(),
{
    if descr.len() == 0 {
        Seq::<u8>::empty()
    } else {
        spec_id_bytes(descr[0].0) + seq![descr[0].1.len() as u8] + descr[0].1 + spec_descr_bytes(
            descr.skip(1),
        )
    }
}

/// Serialized bytes depend only on IDs and value bytes.
pub proof fn lemma_metas_bytes_of_descr(metas: Seq<Metadata>, descr: Seq<(MetadataID, Seq<u8>)>)
    requires
        spec_metas_match_descr(metas, descr),
    ensures
        spec_metas_bytes(metas) == spec_descr_bytes(descr),
    decreases metas.len(),
{
    if metas.len() == 0 {
    } else {
        assert(spec_metas_match_descr(metas.skip(1), descr.skip(1))) by {
            assert forall|i: int|
                0 <= i < metas.skip(1).len() implies spec_meta_to_id(
                #[trigger] metas.skip(1)[i],
            ) == descr.skip(1)[i].0 && spec_meta_value(metas.skip(1)[i]) == descr.skip(1)[i].1 by {
                assert(metas.skip(1)[i] == metas[i + 1]);
                assert(descr.skip(1)[i] == descr[i + 1]);
            }
        }
        lemma_metas_bytes_of_descr(metas.skip(1), descr.skip(1));
        assert(spec_meta_bytes(metas[0]) =~= spec_id_bytes(descr[0].0) + seq![
            descr[0].1.len() as u8,
        ] + descr[0].1);
        assert(spec_metas_bytes(metas) =~= spec_descr_bytes(descr));
    }
}

/// Appending a matching entry extends a matching description.
pub proof fn lemma_descr_push(
    metas: Seq<Metadata>,
    descr: Seq<(MetadataID, Seq<u8>)>,
    m: Metadata,
    e: (MetadataID, Seq<u8>),
)
    requires
        spec_metas_match_descr(metas, descr),
        spec_meta_to_id(m) == e.0,
        spec_meta_value(m) == e.1,
    ensures
        spec_metas_match_descr(metas.push(m), descr.push(e)),
{
    assert forall|i: int|
        0 <= i < metas.push(m).len() implies spec_meta_to_id(#[trigger] metas.push(m)[i])
        == descr.push(e)[i].0 && spec_meta_value(metas.push(m)[i]) == descr.push(e)[i].1 by {
        if i < metas.len() {
            assert(metas.push(m)[i] == metas[i]);
            assert(descr.push(e)[i] == descr[i]);
        } else {
            assert(metas.push(m)[i] == m);
            assert(descr.push(e)[i] == e);
        }
    }
}

} // verus!
