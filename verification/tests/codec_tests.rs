use seqbox::rs_codec::repairer::RSRepairer;
use seqbox::rs_codec::RSCodecState;
use seqbox::sbx_block::metadata::{
    get_meta_ref_by_id, get_meta_ref_mut_by_id, id_to_bytes, meta_to_id, single_info_size,
    single_meta_size, Metadata, MetadataID,
};
use seqbox::sbx_block::{Block, BlockType, Header};
use seqbox::sbx_specs::Version;

#[test]
fn header_bytes_round_trip() {
    let mut h = Header::new(Version::V17, [9, 8, 7, 6, 5, 4]);
    h.seq_num = 0x01020304;
    h.crc = 0xBEEF;
    let mut buffer: Vec<u8> = vec![0; 16];
    h.to_bytes(&mut buffer).unwrap();
    assert_eq!(&buffer[0..3], b"SBx");
    assert_eq!(buffer[3], 17);

    let mut parsed = Header::new(Version::V1, [0; 6]);
    parsed.from_bytes(&buffer).unwrap();
    assert_eq!(parsed.seq_num, 0x01020304);
    assert_eq!(parsed.crc, 0xBEEF);
    assert_eq!(parsed.file_uid, [9, 8, 7, 6, 5, 4]);
    assert!(matches!(parsed.header_type(), BlockType::Data));
    assert!(parsed.is_data());
    assert!(!parsed.is_meta());
}

#[test]
fn block_crc_is_verified_on_read() {
    let uid = [1, 2, 3, 4, 5, 6];
    let mut block = Block::new(Version::V1, &uid, BlockType::Data);
    block.set_seq_num(3);
    let mut buffer: Vec<u8> = vec![0x55; 512];
    block.sync_to_buffer(None, &mut buffer).unwrap();
    assert!(block.verify_crc(&buffer));
    assert_eq!(block.crc_ccitt(&buffer), block.header().crc);

    let mut read_back = Block::new(Version::V1, &[0; 6], BlockType::Data);
    read_back.sync_from_buffer(&buffer).unwrap();
    assert_eq!(read_back.get_seq_num(), 3);
    assert_eq!(read_back.get_uid(), uid);

    // one flipped payload byte breaks the checksum
    buffer[100] ^= 0xFF;
    assert!(!block.verify_crc(&buffer));
    assert!(read_back.sync_from_buffer(&buffer).is_err());
}

#[test]
fn add_meta_rejected_on_data_block() {
    let mut block = Block::new(Version::V1, &[0; 6], BlockType::Data);
    assert!(block.add_meta(Metadata::FSZ(1)).is_err());
    let mut meta_block = Block::new(Version::V1, &[0; 6], BlockType::Meta);
    assert!(meta_block.add_meta(Metadata::FSZ(1)).is_ok());
    assert_eq!(meta_block.metas().unwrap().len(), 1);
    let h = meta_block.header_mut();
    h.crc = 7;
    assert_eq!(meta_block.header().crc, 7);
}

#[test]
fn metadata_ids_and_sizes() {
    assert_eq!(id_to_bytes(MetadataID::FNM), [b'F', b'N', b'M']);
    assert_eq!(id_to_bytes(MetadataID::RSP), [b'R', b'S', b'P']);
    let m = Metadata::FSZ(42);
    assert_eq!(meta_to_id(&m), MetadataID::FSZ);
    assert_eq!(single_info_size(&m), 8);
    assert_eq!(single_meta_size(&m), 12);
    let name = Metadata::FNM(b"abc".to_vec());
    assert_eq!(single_info_size(&name), 3);
    assert_eq!(single_meta_size(&name), 7);
}

#[test]
fn meta_lookup_by_id() {
    let mut metas = vec![
        Metadata::FNM(b"x".to_vec()),
        Metadata::FSZ(5),
        Metadata::RSD(3),
    ];
    assert!(matches!(
        get_meta_ref_by_id(MetadataID::FSZ, &metas),
        Some(Metadata::FSZ(5))
    ));
    assert!(get_meta_ref_by_id(MetadataID::HSH, &metas).is_none());

    match get_meta_ref_mut_by_id(MetadataID::FSZ, &mut metas) {
        Some(m) => *m = Metadata::FSZ(9),
        None => panic!(),
    }
    assert!(matches!(
        get_meta_ref_by_id(MetadataID::FSZ, &metas),
        Some(Metadata::FSZ(9))
    ));
}

#[test]
fn repairer_counts_and_marks() {
    let ref_block = Block::new(Version::V17, &[1; 6], BlockType::Data);
    let mut repairer = RSRepairer::new(Version::V17, &ref_block, 2, 1);
    assert_eq!(repairer.present_count(), 0);
    assert_eq!(repairer.missing_count(), 3);

    let buf = repairer.get_block_buffer();
    assert_eq!(buf.len(), 496);
    assert!(matches!(repairer.mark_present(), RSCodecState::NotReady));
    assert!(matches!(repairer.mark_present(), RSCodecState::NotReady));
    assert!(matches!(repairer.mark_missing(), RSCodecState::Ready));
    assert_eq!(repairer.present_count(), 2);
    assert_eq!(repairer.missing_count(), 1);
}
