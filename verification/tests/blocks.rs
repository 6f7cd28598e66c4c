use classic_rs::block::Block;

#[test]
fn every_block_byte_maps_back_to_itself() {
    for byte in 0u8..=0x31 {
        let block = Block::from(byte);
        assert_eq!(u8::from(block), byte);
    }
}

#[test]
fn bytes_above_the_last_block_are_air() {
    for byte in 0x32u8..=0xFF {
        assert_eq!(Block::from(byte), Block::Air);
    }
}

#[test]
fn named_blocks_have_their_bytes() {
    assert_eq!(u8::from(Block::Air), 0x00);
    assert_eq!(u8::from(Block::Stone), 0x01);
    assert_eq!(u8::from(Block::GrassBlock), 0x02);
    assert_eq!(u8::from(Block::Dirt), 0x03);
    assert_eq!(u8::from(Block::Bedrock), 0x07);
    assert_eq!(u8::from(Block::DoubleSlab), 0x2B);
    assert_eq!(u8::from(Block::Slab), 0x2C);
    assert_eq!(u8::from(Block::Obsidian), 0x31);
    assert_eq!(Block::from(0x2E), Block::TNT);
}

#[test]
fn distinct_bytes_give_distinct_blocks() {
    for a in 0u8..=0x31 {
        for b in 0u8..=0x31 {
            assert_eq!(a == b, Block::from(a) == Block::from(b));
        }
    }
}
