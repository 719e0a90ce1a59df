use seqbox::decode_core::decode_bytes;
use seqbox::encode_core::{encode_bytes, Param};
use seqbox::file_utils::{
    calc_container_size, calc_data_only_and_parity_block_count_exc_burst_gaps,
    calc_total_block_count_exc_burst_gaps,
};
use seqbox::multihash::{hash_bytes_of, HashType};
use seqbox::repair_core::repair_container;
use seqbox::sbx_block::calc_seq_num_at_index;
use seqbox::sbx_specs::Version;
use seqbox::show_core;
use seqbox::sort_core::sort_container;
use seqbox::multi_pass::{should_write_block, should_write_data_chunk};
use seqbox::rs_codec::{RSCodec, RSError};
use seqbox::sbx_block::metadata::{from_bytes, to_bytes, Metadata};

fn make_param(
    version: Version,
    uid: [u8; 6],
    dpb: Option<(usize, usize, usize)>,
    meta: bool,
) -> Param {
    Param::new(version, &uid, dpb, meta, HashType::SHA256, None, None, None, 0).unwrap()
}

fn hex(bytes: &[u8]) -> String {
    let mut s = String::new();
    for b in bytes {
        s.push_str(&format!("{:02x}", b));
    }
    s
}

/// Version 1, no metadata: one 512-byte data block, the payload padded out,
/// and decoding gives the input back.
#[test]
fn encode_decode_v1_hello() {
    let input: Vec<u8> = b"hello\n".to_vec();
    let param = make_param(Version::V1, [1; 6], None, false);
    let (container, stats) = encode_bytes(&param, &input).unwrap();

    assert_eq!(container.len(), 512);
    assert_eq!(&container[0..3], b"SBx");
    assert_eq!(container[3], 1);
    assert_eq!(&container[16..22], b"hello\n");
    for i in 22..512 {
        assert_eq!(container[i], 0x1A);
    }
    assert_eq!(stats.data_blocks_written, 1);
    assert_eq!(stats.meta_blocks_written, 0);
    assert_eq!(stats.out_file_size, 512);

    let (decoded, _) = decode_bytes(&container, None).unwrap();
    assert_eq!(decoded, input);
}

/// Version 17 with rs-data 3, rs-parity 2 and burst 4: metadata copies at
/// their stride positions and every sequence number at its canonical index.
#[test]
fn encode_v17_layout_s2() {
    let input: Vec<u8> = vec![0; 12];
    let param = make_param(Version::V17, [2; 6], Some((3, 2, 4)), true);
    let (container, stats) = encode_bytes(&param, &input).unwrap();

    assert_eq!(stats.data_blocks_written, 1);
    assert_eq!(stats.parity_blocks_written, 2);
    assert_eq!(stats.meta_blocks_written, 3);

    // metadata copies at block indices 0, 5 and 10
    for idx in [0usize, 5, 10] {
        let at = idx * 512;
        assert_eq!(&container[at..at + 3], b"SBx");
        let seq = u32::from_be_bytes([
            container[at + 12],
            container[at + 13],
            container[at + 14],
            container[at + 15],
        ]);
        assert_eq!(seq, 0);
    }
    // data and parity sequence numbers at their canonical indices
    for (idx, seq_expected) in [(1usize, 1u32), (15, 4), (19, 5)] {
        let at = idx * 512;
        assert_eq!(&container[at..at + 3], b"SBx");
        let seq = u32::from_be_bytes([
            container[at + 12],
            container[at + 13],
            container[at + 14],
            container[at + 15],
        ]);
        assert_eq!(seq, seq_expected);
    }

    let (decoded, _) = decode_bytes(&container, Some(4)).unwrap();
    assert_eq!(decoded, input);
}

/// Version 17 with rs-data 1, rs-parity 1 and burst 2: the on-disk
/// sequence-number pattern of the first twenty data sequence numbers.
#[test]
fn seq_at_index_s3_pattern() {
    let dpb = Some((1usize, 1usize, 2usize));
    let expected: [u32; 22] = [
        0, 1, 3, 0, 2, 4, 5, 7, 6, 8, 9, 11, 10, 12, 13, 15, 14, 16, 17, 19, 18, 20,
    ];
    for (index, want) in expected.iter().enumerate() {
        assert_eq!(calc_seq_num_at_index(index as u64, None, dpb), *want);
    }
}

/// Zeroing one block and repairing brings the container back byte for byte.
#[test]
fn repair_restores_zeroed_block_s4() {
    // six full chunks: two whole RS sets under rs-data 3
    let mut input: Vec<u8> = Vec::new();
    for i in 0..(6 * 496) {
        input.push((i % 251) as u8);
    }
    let param = make_param(Version::V17, [4; 6], Some((3, 2, 4)), true);
    let (container, _) = encode_bytes(&param, &input).unwrap();

    let mut corrupted = container.clone();
    // block of sequence number 7 sits at block index 7
    let at = 7 * 512;
    for i in 0..512 {
        corrupted[at + i] = 0;
    }
    assert_ne!(corrupted, container);

    let stats = repair_container(&mut corrupted, Some(4)).unwrap();
    assert_eq!(stats.sets_repaired, 1);
    assert_eq!(corrupted[at..at + 512], container[at..at + 512]);

    let (decoded, _) = decode_bytes(&corrupted, Some(4)).unwrap();
    assert_eq!(decoded, input);
}

/// A contiguous run of at most parity * burst damaged blocks is repairable.
#[test]
fn repair_restores_burst_run() {
    let mut input: Vec<u8> = Vec::new();
    for i in 0..(12 * 496) {
        input.push((i % 249) as u8);
    }
    let param = make_param(Version::V17, [5; 6], Some((3, 2, 2)), true);
    let (container, _) = encode_bytes(&param, &input).unwrap();

    let mut corrupted = container.clone();
    // zero a contiguous run of parity * burst = 4 blocks
    let start = 4 * 512;
    for i in 0..(4 * 512) {
        corrupted[start + i] = 0;
    }

    let _ = repair_container(&mut corrupted, Some(2)).unwrap();
    let (decoded, _) = decode_bytes(&corrupted, Some(2)).unwrap();
    assert_eq!(decoded, input);
}

/// The size calculation for one million bytes under version 17 with
/// rs-data 10, rs-parity 2 and burst 10.
#[test]
fn calc_sizes_s5() {
    let version = Version::V17;
    let dpb = Some((10usize, 2usize, 10usize));
    let size: u64 = 1_000_000;

    let (data_blocks, parity_blocks) =
        calc_data_only_and_parity_block_count_exc_burst_gaps(version, dpb, size);
    assert_eq!(data_blocks, 2017);
    assert_eq!(parity_blocks, 404);

    let total = calc_total_block_count_exc_burst_gaps(version, None, dpb, size);
    assert_eq!(total, 3 + 2017 + 404);
    assert_eq!(total, 2424);

    let container = calc_container_size(version, None, dpb, size);
    assert_eq!(container, 2424 * 512);
}

/// With the primary metadata block corrupted, the duplicates still carry
/// the metadata.
#[test]
fn show_reads_meta_duplicate_s6() {
    let input: Vec<u8> = vec![3; 12];
    let param = make_param(Version::V17, [6; 6], Some((3, 2, 4)), true);
    let (mut container, _) = encode_bytes(&param, &input).unwrap();

    for i in 0..512 {
        container[i] = 0;
    }

    let show_param = show_core::Param {
        show_all: true,
        from_pos: 0,
        to_pos: None,
    };
    let (stats, found) = show_core::show_file(&show_param, &container);
    assert!(stats.meta_block_count >= 1);
    assert!(found.len() >= 1);
    // the copies found sit at the duplicate positions
    for (pos, block) in &found {
        assert!(*pos == 5 * 512 || *pos == 10 * 512);
        assert!(block.is_meta());
    }
}

/// Encode, decode, and check the recorded hash against the decoded bytes.
#[test]
fn round_trip_hash_matches() {
    let mut input: Vec<u8> = Vec::new();
    for i in 0..2560 {
        input.push((i % 256) as u8);
    }
    let param = make_param(Version::V17, [7; 6], Some((2, 1, 1)), true);
    let (container, stats) = encode_bytes(&param, &input).unwrap();

    let (decoded, dstats) = decode_bytes(&container, Some(1)).unwrap();
    assert_eq!(decoded, input);

    let recorded = dstats.recorded_hash.unwrap();
    let recomputed = hash_bytes_of(HashType::SHA256, &decoded);
    assert_eq!(recorded.digest, recomputed.digest);
    assert_eq!(
        hex(&recomputed.digest),
        "e392378f849d67bbb1a7bbec84f1098ae3faa751049c009a850130ce6073d91a"
    );
    let encoded_hash = stats.hash_bytes.unwrap();
    assert_eq!(encoded_hash.digest, recomputed.digest);
}

/// The well-known digest of a small input comes out of the hash wrapper.
#[test]
fn sha256_known_vector() {
    let input: Vec<u8> = b"hello\n".to_vec();
    let h = hash_bytes_of(HashType::SHA256, &input);
    assert_eq!(
        hex(&h.digest),
        "5891b5b522d5df086d0ff0b110fbd9d21bb4fc7163af34d08286a2e846f6be03"
    );
}

/// Sorting a container leaves every block at its canonical position, so a
/// sorted container still decodes.
#[test]
fn sort_container_keeps_blocks_decodable() {
    let mut input: Vec<u8> = Vec::new();
    for i in 0..(3 * 496) {
        input.push((i % 241) as u8);
    }
    let param = make_param(Version::V17, [8; 6], Some((3, 2, 4)), true);
    let (container, _) = encode_bytes(&param, &input).unwrap();

    let (sorted, stats) = sort_container(&container, Some(4), false).unwrap();
    let sorted = sorted.unwrap();
    assert!(stats.blocks_sorted >= 5);
    let (decoded, _) = decode_bytes(&sorted, Some(4)).unwrap();
    assert_eq!(decoded, input);

    let (none_out, _) = sort_container(&container, Some(4), true).unwrap();
    assert!(none_out.is_none());
}

/// An empty byte source has no reference block.
#[test]
fn decode_empty_container_fails() {
    let empty: Vec<u8> = Vec::new();
    assert!(decode_bytes(&empty, None).is_err());
}

/// The erasure codec refuses empty and oversized shard configurations.
#[test]
fn rs_codec_rejects_bad_counts() {
    assert!(matches!(RSCodec::new(0, 2), Err(RSError::TooFewDataShards)));
    assert!(matches!(RSCodec::new(2, 0), Err(RSError::TooFewParityShards)));
    assert!(matches!(RSCodec::new(200, 200), Err(RSError::TooManyShards)));
    assert!(RSCodec::new(10, 2).is_ok());
}

/// Metadata entries survive packing and parsing.
#[test]
fn metadata_round_trip() {
    let metas = vec![
        Metadata::FNM(b"a.bin".to_vec()),
        Metadata::FSZ(12345),
        Metadata::FDT(-1),
        Metadata::SDT(1234567890),
        Metadata::RSD(10),
        Metadata::RSP(2),
    ];
    let mut buffer: Vec<u8> = vec![0; 496];
    to_bytes(&metas, &mut buffer).unwrap();
    let parsed = from_bytes(&buffer).unwrap();
    assert_eq!(parsed.len(), metas.len());
    for (a, b) in metas.iter().zip(parsed.iter()) {
        match (a, b) {
            (Metadata::FNM(x), Metadata::FNM(y)) => assert_eq!(x, y),
            (Metadata::FSZ(x), Metadata::FSZ(y)) => assert_eq!(x, y),
            (Metadata::FDT(x), Metadata::FDT(y)) => assert_eq!(x, y),
            (Metadata::SDT(x), Metadata::SDT(y)) => assert_eq!(x, y),
            (Metadata::RSD(x), Metadata::RSD(y)) => assert_eq!(x, y),
            (Metadata::RSP(x), Metadata::RSP(y)) => assert_eq!(x, y),
            _ => panic!(),
        }
    }
}

/// The burst level of a container can be guessed from block positions.
#[test]
fn decode_guesses_burst() {
    let mut input: Vec<u8> = Vec::new();
    for i in 0..(6 * 496) {
        input.push((i % 199) as u8);
    }
    let param = make_param(Version::V17, [9; 6], Some((3, 2, 4)), true);
    let (container, _) = encode_bytes(&param, &input).unwrap();
    let (decoded, _) = decode_bytes(&container, None).unwrap();
    assert_eq!(decoded, input);
}

/// Every version round-trips a small input.
#[test]
fn round_trip_all_versions() {
    let mut input: Vec<u8> = Vec::new();
    for i in 0..300 {
        input.push((i % 256) as u8);
    }
    for (version, dpb) in [
        (Version::V1, None),
        (Version::V2, None),
        (Version::V3, None),
        (Version::V17, Some((2usize, 1usize, 1usize))),
        (Version::V18, Some((2, 1, 0))),
        (Version::V19, Some((3, 2, 5))),
    ] {
        let param = make_param(version, [10; 6], dpb, true);
        let (container, _) = encode_bytes(&param, &input).unwrap();
        let burst = dpb.map(|(_, _, b)| b);
        let (decoded, _) = decode_bytes(&container, burst).unwrap();
        assert_eq!(decoded, input, "round trip failed");
    }
}

/// The multi-pass skip decisions follow what is already on disk.
#[test]
fn multi_pass_decisions() {

    let blank: Vec<u8> = vec![0; 16];
    let used: Vec<u8> = vec![0, 1, 0, 0];
    assert!(should_write_data_chunk(&blank, false));
    assert!(!should_write_data_chunk(&used, false));
    assert!(should_write_data_chunk(&used, true));

    // a serialized block is skipped only when it matches the one to write
    let input: Vec<u8> = b"abc".to_vec();
    let param = make_param(Version::V1, [11; 6], None, false);
    let (container, _) = encode_bytes(&param, &input).unwrap();
    let mut block = seqbox::sbx_block::Block::new(
        Version::V1,
        &[11; 6],
        seqbox::sbx_block::BlockType::Data,
    );
    block.set_seq_num(1);
    assert!(!should_write_block(&container, false, block.header()));
    block.set_seq_num(2);
    assert!(should_write_block(&container, false, block.header()));
    let garbage: Vec<u8> = vec![9; 512];
    assert!(should_write_block(&garbage, false, block.header()));
}

/// Multi-pass decode fills only the blank regions of an existing image and
/// never truncates it.
#[test]
fn multi_pass_decode_updates_in_place() {
    let mut input: Vec<u8> = Vec::new();
    for i in 0..(3 * 496) {
        input.push((i % 250 + 1) as u8);
    }
    let param = make_param(Version::V17, [12; 6], Some((3, 2, 4)), true);
    let (container, _) = encode_bytes(&param, &input).unwrap();

    // start from a partially recovered image: first chunk blank
    let mut image: Vec<u8> = input.clone();
    for i in 0..496 {
        image[i] = 0;
    }
    let stats = seqbox::decode_core::decode_bytes_multi_pass(
        &container,
        Some(4),
        &mut image,
        true,
    )
    .unwrap();
    assert!(stats.blocks_decoded >= 1);
    assert_eq!(&image[..input.len()], &input[..]);

    // with skipping declined every chunk is rewritten
    let mut image2: Vec<u8> = vec![0; 10];
    let _ = seqbox::decode_core::decode_bytes_multi_pass(
        &container,
        Some(4),
        &mut image2,
        false,
    )
    .unwrap();
    assert_eq!(&image2[..input.len()], &input[..]);
    assert!(image2.len() >= input.len());
}

/// Multi-pass sort fills an existing image without truncating it, skipping
/// positions that already hold the right block.
#[test]
fn multi_pass_sort_updates_in_place() {
    let mut input: Vec<u8> = Vec::new();
    for i in 0..(3 * 496) {
        input.push((i % 233 + 1) as u8);
    }
    let param = make_param(Version::V17, [13; 6], Some((3, 2, 4)), true);
    let (container, _) = encode_bytes(&param, &input).unwrap();

    // an already-sorted image updated in place stays decodable
    let mut image = container.clone();
    let stats =
        seqbox::sort_core::sort_container_multi_pass(&container, Some(4), &mut image).unwrap();
    assert!(stats.blocks_sorted >= 5);
    let (decoded, _) = decode_bytes(&image, Some(4)).unwrap();
    assert_eq!(decoded, input);

    // starting from nothing, the same pass lays the container out fresh
    let mut empty: Vec<u8> = Vec::new();
    let _ = seqbox::sort_core::sort_container_multi_pass(&container, Some(4), &mut empty).unwrap();
    let (decoded2, _) = decode_bytes(&empty, Some(4)).unwrap();
    assert_eq!(decoded2, input);
}
