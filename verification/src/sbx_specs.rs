//! Version table for the SeqBox container format.
//!
//! Each version fixes a block size; the higher version set additionally
//! carries Reed-Solomon parity and always has a metadata block.

use vstd::prelude::*;

verus! {

pub const SBX_HEADER_SIZE: usize = 16;
pub const SBX_FILE_UID_LEN: usize = 6;
pub const SBX_SIGNATURE_0: u8 = 0x53;
pub const SBX_SIGNATURE_1: u8 = 0x42;
pub const SBX_SIGNATURE_2: u8 = 0x78;
pub const SBX_FIRST_DATA_SEQ_NUM: u32 = 1;
pub const SBX_LAST_SEQ_NUM: u32 = 0xFFFF_FFFF;
pub const SBX_LARGEST_BLOCK_SIZE: usize = 4096;
pub const SBX_SCAN_BLOCK_SIZE: usize = 128;
pub const SBX_MAX_BURST_ERR_RESISTANCE: usize = 1000;

#[derive(Clone, Copy, Debug, PartialEq, Eq, Structural)]
pub enum Version {
    V1,
    V2,
    V3,
    V17,
    V18,
    V19,
}

pub open spec fn spec_ver_to_usize(version: Version) -> int {
    match version {
        Version::V1 => 1,
        Version::V2 => 2,
        Version::V3 => 3,
        Version::V17 => 17,
        Version::V18 => 18,
        Version::V19 => 19,
    }
}

pub open spec fn spec_ver_to_block_size(version: Version) -> int {
    match version {
        Version::V1 => 512,
        Version::V2 => 128,
        Version::V3 => 4096,
        Version::V17 => 512,
        Version::V18 => 128,
        Version::V19 => 4096,
    }
}

pub open spec fn spec_ver_to_data_size(version: Version) -> int {
    spec_ver_to_block_size(version) - SBX_HEADER_SIZE
}

pub open spec fn spec_ver_uses_rs(version: Version) -> bool {
    match version {
        Version::V17 | Version::V18 | Version::V19 => true,
        _ => false,
    }
}

pub fn ver_to_usize(version: Version) -> (r: usize)
    ensures
        r == spec_ver_to_usize(version),
{
    match version {
        Version::V1 => 1,
        Version::V2 => 2,
        Version::V3 => 3,
        Version::V17 => 17,
        Version::V18 => 18,
        Version::V19 => 19,
    }
}

pub fn ver_to_block_size(version: Version) -> (r: usize)
    ensures
        r == spec_ver_to_block_size(version),
        16 < r <= SBX_LARGEST_BLOCK_SIZE,
{
    match version {
        Version::V1 => 512,
        Version::V2 => 128,
        Version::V3 => 4096,
        Version::V17 => 512,
        Version::V18 => 128,
        Version::V19 => 4096,
    }
}

pub fn ver_to_data_size(version: Version) -> (r: usize)
    ensures
        r == spec_ver_to_data_size(version),
        0 < r < SBX_LARGEST_BLOCK_SIZE,
{
    ver_to_block_size(version) - 16
}

pub fn ver_uses_rs(version: Version) -> (r: bool)
    ensures
        r == spec_ver_uses_rs(version),
{
    match version {
        Version::V17 | Version::V18 | Version::V19 => true,
        _ => false,
    }
}

/// The higher version set may never omit its metadata block.
pub fn ver_forces_meta_enabled(version: Version) -> (r: bool)
    ensures
        r == spec_ver_uses_rs(version),
{
    ver_uses_rs(version)
}

pub fn ver_supports_rs(version: Version) -> (r: bool)
    ensures
        r == spec_ver_uses_rs(version),
{
    ver_uses_rs(version)
}

/// Largest original file size any container of this version can describe:
/// one payload for every data sequence number.
pub fn ver_to_max_data_file_size(version: Version) -> (r: u64)
    ensures
        r == SBX_LAST_SEQ_NUM * spec_ver_to_data_size(version),
{
    (SBX_LAST_SEQ_NUM as u64) * (ver_to_data_size(version) as u64)
}

pub fn usize_to_ver(x: usize) -> (r: Option<Version>)
    ensures
        match r {
            Some(v) => spec_ver_to_usize(v) == x,
            None => x != 1 && x != 2 && x != 3 && x != 17 && x != 18 && x != 19,
        },
{
    match x {
        1 => Some(Version::V1),
        2 => Some(Version::V2),
        3 => Some(Version::V3),
        17 => Some(Version::V17),
        18 => Some(Version::V18),
        19 => Some(Version::V19),
        _ => None,
    }
}

/// The version a known version byte names (callers guard the byte).
pub open spec fn spec_ver_of_byte(x: u8) -> Version {
    if x == 1 {
        Version::V1
    } else if x == 2 {
        Version::V2
    } else if x == 3 {
        Version::V3
    } else if x == 17 {
        Version::V17
    } else if x == 18 {
        Version::V18
    } else {
        Version::V19
    }
}

pub fn u8_to_ver(x: u8) -> (r: Option<Version>)
    ensures
        match r {
            Some(v) => spec_ver_to_usize(v) == x && v == spec_ver_of_byte(x),
            None => x != 1 && x != 2 && x != 3 && x != 17 && x != 18 && x != 19,
        },
{
    match x {
        1 => Some(Version::V1),
        2 => Some(Version::V2),
        3 => Some(Version::V3),
        17 => Some(Version::V17),
        18 => Some(Version::V18),
        19 => Some(Version::V19),
        _ => None,
    }
}

} // verus!
