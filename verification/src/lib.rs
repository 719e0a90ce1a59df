//! The SeqBox container format: fixed-size self-describing blocks carrying
//! a checksummed header and a payload, with optional Reed-Solomon parity
//! spread over the container by a burst-error interleaving pattern.
//!
//! The library covers the block and metadata codecs, the position
//! arithmetic that maps sequence numbers to on-disk places and back, the
//! staged encode pipeline, and the decode, repair, sort and inspection
//! procedures, each with its contract.

use vstd::prelude::*;

pub mod byte_order;
pub mod container;
pub mod crc;
pub mod data_block_buffer;
pub mod decode_core;
pub mod encode_core;
pub mod file_utils;
pub mod multi_pass;
pub mod multihash;
pub mod repair_core;
pub mod rs_codec;
pub mod sbx_block;
pub mod show_core;
pub mod sort_core;
pub mod sbx_specs;

verus! {

} // verus!
