use seqbox::data_block_buffer::{BlockArrangement, InputType, Lot, OutputType};
use seqbox::multihash::{HashCtx, HashType};
use seqbox::sbx_specs::Version;

#[test]
fn hash_when_correct_arrangment1() {
    let lot = Lot::new(
        Version::V1,
        None,
        InputType::Block,
        OutputType::Block,
        BlockArrangement::OrderedAndNoMissing,
        None,
        true,
        10,
        false,
    );

    let mut hash_ctx = HashCtx::new(HashType::SHA256);

    lot.hash(&mut hash_ctx);
    assert_eq!(hash_ctx.data.len(), 0);
}

#[test]
fn hash_when_correct_arrangment2() {
    let lot = Lot::new(
        Version::V1,
        None,
        InputType::Block,
        OutputType::Block,
        BlockArrangement::OrderedButSomeMayBeMissing,
        None,
        true,
        10,
        false,
    );

    let mut hash_ctx = HashCtx::new(HashType::SHA256);

    lot.hash(&mut hash_ctx);
    assert_eq!(hash_ctx.data.len(), 0);
}

#[test]
fn lot_slot_claims_follow_slot_order() {
    let mut lot = Lot::new(
        Version::V1,
        None,
        InputType::Data,
        OutputType::Block,
        BlockArrangement::OrderedAndNoMissing,
        None,
        true,
        4,
        false,
    );
    assert_eq!(lot.lot_size(), 4);
    assert_eq!(lot.slots_used, 0);
    assert!(!lot.active());
    let r1 = lot.get_slot();
    assert!(matches!(r1, seqbox::data_block_buffer::GetSlotResult::Vacant(0)));
    assert!(lot.active());
    let r2 = lot.get_slot();
    assert!(matches!(r2, seqbox::data_block_buffer::GetSlotResult::Vacant(1)));
    lot.cancel_slot();
    assert_eq!(lot.slots_used, 1);
    let r3 = lot.get_slot();
    assert!(matches!(r3, seqbox::data_block_buffer::GetSlotResult::Vacant(1)));
    let _ = lot.get_slot();
    let r5 = lot.get_slot();
    assert!(matches!(r5, seqbox::data_block_buffer::GetSlotResult::LastSlot(3)));
    let r6 = lot.get_slot();
    assert!(matches!(r6, seqbox::data_block_buffer::GetSlotResult::NoSlot));
}

#[test]
fn lot_fill_in_padding_pads_short_content() {
    let mut lot = Lot::new(
        Version::V1,
        None,
        InputType::Data,
        OutputType::Block,
        BlockArrangement::OrderedAndNoMissing,
        None,
        true,
        4,
        false,
    );
    let _ = lot.get_slot();
    let data: Vec<u8> = vec![7; 10];
    lot.set_slot_content(0, &data, 0, 10);
    lot.fill_in_padding();
    // content kept, the rest of the data area padded
    for i in 0..10 {
        assert_eq!(lot.slots[0][16 + i], 7);
    }
    for i in 10..496 {
        assert_eq!(lot.slots[0][16 + i], 0x1A);
    }
    assert_eq!(lot.padding_byte_count_in_non_padding_blocks, 496 - 10);
}
