//! Hash functions recorded in metadata: a digest is stored together with a
//! one-byte type code and a one-byte length.
//!
//! The digests themselves come from outside crates; each result is given a
//! name that the contracts of the callers speak of.

use vstd::prelude::*;

verus! {

#[derive(Clone, Copy, Debug, PartialEq, Eq, Structural)]
pub enum HashType {
    SHA1,
    SHA256,
    SHA512,
    BLAKE2B512,
}

#[derive(Clone, Debug)]
pub struct HashBytes {
    pub hash_type: HashType,
    pub digest: Vec<u8>,
}

pub open spec fn spec_hash_type_code(ht: HashType) -> u8 {
    match ht {
        HashType::SHA1 => 0x11,
        HashType::SHA256 => 0x12,
        HashType::SHA512 => 0x13,
        HashType::BLAKE2B512 => 0x40,
    }
}

pub open spec fn spec_digest_len(ht: HashType) -> int {
    match ht {
        HashType::SHA1 => 20,
        HashType::SHA256 => 32,
        HashType::SHA512 => 64,
        HashType::BLAKE2B512 => 64,
    }
}

pub uninterp spec fn sha1_of(data: Seq<u8>) -> Seq<u8>;

pub uninterp spec fn sha256_of(data: Seq<u8>) -> Seq<u8>;

pub uninterp spec fn sha512_of(data: Seq<u8>) -> Seq<u8>;

pub uninterp spec fn blake2b512_of(data: Seq<u8>) -> Seq<u8>;

pub open spec fn spec_digest_of(ht: HashType, data: Seq<u8>) -> Seq<u8> {
    match ht {
        HashType::SHA1 => sha1_of(data),
        HashType::SHA256 => sha256_of(data),
        HashType::SHA512 => sha512_of(data),
        HashType::BLAKE2B512 => blake2b512_of(data),
    }
}

/// Relies on sha1::Sha1::digest: a 20-byte digest that depends on the input
/// bytes alone.
#[verifier::external_body]
fn sha1_digest(data: &Vec<u8>) -> (r: Vec<u8>)
    ensures
        r@ == sha1_of(data@),
        r.len() == 20,
{
    <sha1::Sha1 as sha1::Digest>::digest(data.as_slice()).as_slice().to_vec()
}

/// Relies on sha2::Sha256::digest: a 32-byte digest that depends on the input
/// bytes alone.
#[verifier::external_body]
fn sha256_digest(data: &Vec<u8>) -> (r: Vec<u8>)
    ensures
        r@ == sha256_of(data@),
        r.len() == 32,
{
    <sha2::Sha256 as sha2::Digest>::digest(data.as_slice()).as_slice().to_vec()
}

/// Relies on sha2::Sha512::digest: a 64-byte digest that depends on the input
/// bytes alone.
#[verifier::external_body]
fn sha512_digest(data: &Vec<u8>) -> (r: Vec<u8>)
    ensures
        r@ == sha512_of(data@),
        r.len() == 64,
{
    <sha2::Sha512 as sha2::Digest>::digest(data.as_slice()).as_slice().to_vec()
}

/// Relies on blake2::Blake2b512::digest: a 64-byte digest that depends on the
/// input bytes alone.
#[verifier::external_body]
fn blake2b512_digest(data: &Vec<u8>) -> (r: Vec<u8>)
    ensures
        r@ == blake2b512_of(data@),
        r.len() == 64,
{
    <blake2::Blake2b512 as blake2::Digest>::digest(data.as_slice()).as_slice().to_vec()
}

pub fn digest_len(ht: HashType) -> (r: usize)
    ensures
        r == spec_digest_len(ht),
{
    match ht {
        HashType::SHA1 => 20,
        HashType::SHA256 => 32,
        HashType::SHA512 => 64,
        HashType::BLAKE2B512 => 64,
    }
}

pub fn hash_type_code(ht: HashType) -> (r: u8)
    ensures
        r == spec_hash_type_code(ht),
{
    match ht {
        HashType::SHA1 => 0x11,
        HashType::SHA256 => 0x12,
        HashType::SHA512 => 0x13,
        HashType::BLAKE2B512 => 0x40,
    }
}

pub fn hash_type_of_code(code: u8) -> (r: Option<HashType>)
    ensures
        match r {
            Some(ht) => spec_hash_type_code(ht) == code,
            None => code != 0x11 && code != 0x12 && code != 0x13 && code != 0x40,
        },
{
    match code {
        0x11 => Some(HashType::SHA1),
        0x12 => Some(HashType::SHA256),
        0x13 => Some(HashType::SHA512),
        0x40 => Some(HashType::BLAKE2B512),
        _ => None,
    }
}

pub fn hash_bytes_of(ht: HashType, data: &Vec<u8>) -> (r: HashBytes)
    ensures
        r.hash_type == ht,
        r.digest@ == spec_digest_of(ht, data@),
        r.digest.len() == spec_digest_len(ht),
{
    let digest = match ht {
        HashType::SHA1 => sha1_digest(data),
        HashType::SHA256 => sha256_digest(data),
        HashType::SHA512 => sha512_digest(data),
        HashType::BLAKE2B512 => blake2b512_digest(data),
    };
    HashBytes { hash_type: ht, digest }
}

impl HashBytes {
    /// A copy with the same type and digest bytes.
    pub fn clone_hash(&self) -> (r: HashBytes)
        ensures
            r.hash_type == self.hash_type,
            r.digest@ == self.digest@,
    {
        let mut digest: Vec<u8> = Vec::new();
        let mut i: usize = 0;
        while i < self.digest.len()
            invariant
                i <= self.digest.len(),
                digest@ == self.digest@.subrange(0, i as int),
            decreases self.digest.len() - i,
        {
            digest.push(self.digest[i]);
            proof {
                assert(self.digest@.subrange(0, i + 1) =~= self.digest@.subrange(
                    0,
                    i as int,
                ).push(self.digest@[i as int]));
            }
            i = i + 1;
        }
        proof {
            assert(self.digest@.subrange(0, self.digest@.len() as int) =~= self.digest@);
        }
        HashBytes { hash_type: self.hash_type, digest }
    }
}

/// A running hash: bytes are collected in order and digested once at the end,
/// so the result is the digest of everything fed in.
pub struct HashCtx {
    pub hash_type: HashType,
    pub data: Vec<u8>,
}

impl HashCtx {
    pub fn new(hash_type: HashType) -> (r: HashCtx)
        ensures
            r.hash_type == hash_type,
            r.data@ == Seq::<u8>::empty(),
    {
        HashCtx { hash_type, data: Vec::new() }
    }

    pub fn update(&mut self, data: &Vec<u8>)
        ensures
            final(self).hash_type == old(self).hash_type,
            final(self).data@ == old(self).data@ + data@,
    {
        self.update_range(data, 0, data.len());
        proof {
            assert(data@.subrange(0, data@.len() as int) =~= data@);
        }
    }

    pub fn update_range(&mut self, data: &Vec<u8>, start: usize, end: usize)
        requires
            start <= end <= data.len(),
        ensures
            final(self).hash_type == old(self).hash_type,
            final(self).data@ == old(self).data@ + data@.subrange(start as int, end as int),
    {
        let mut i = start;
        while i < end
            invariant
                start <= i <= end <= data.len(),
                self.hash_type == old(self).hash_type,
                self.data@ == old(self).data@ + data@.subrange(start as int, i as int),
            decreases end - i,
        {
            self.data.push(data[i]);
            proof {
                assert(old(self).data@ + data@.subrange(start as int, i + 1) =~= (old(self).data@
                    + data@.subrange(start as int, i as int)).push(data@[i as int]));
            }
            i = i + 1;
        }
    }

    pub fn finish_into_hash_bytes(&self) -> (r: HashBytes)
        ensures
            r.hash_type == self.hash_type,
            r.digest@ == spec_digest_of(self.hash_type, self.data@),
            r.digest.len() == spec_digest_len(self.hash_type),
    {
        hash_bytes_of(self.hash_type, &self.data)
    }
}

} // verus!
