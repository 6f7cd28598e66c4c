//! The fifty block kinds of the classic protocol and their wire bytes.

use vstd::prelude::*;
use vstd::std_specs::convert::FromSpecImpl;

verus! {

/// The largest byte that names a block kind.
pub const MAX_BLOCK_BYTE: u8 = 0x31;

/// A kind of block. Each kind has one wire byte in `0x00 ..= 0x31`.
#[derive(Debug, Copy, Clone, Eq, PartialEq, Structural)]
pub enum Block {
    Air,
    Stone,
    GrassBlock,
    Dirt,
    Cobblestone,
    Planks,
    Sapling,
    Bedrock,
    FlowingWater,
    StationaryWater,
    FlowingLava,
    StationaryLava,
    Sand,
    Gravel,
    GoldOre,
    IronOre,
    CoalOre,
    Wood,
    Leaves,
    Sponge,
    Glass,
    RedCloth,
    OrangeCloth,
    YellowCloth,
    ChartreuseCloth,
    GreenCloth,
    SpringGreenCloth,
    CyanCloth,
    CapriCloth,
    UltramarineCloth,
    VioletCloth,
    PurpleCloth,
    MagentaCloth,
    RoseCloth,
    DarkGrayCloth,
    LightGrayCloth,
    WhiteCloth,
    Dandelion,
    Rose,
    BrownMushroom,
    RedMushroom,
    GoldBlock,
    IronBlock,
    DoubleSlab,
    Slab,
    Bricks,
    TNT,
    Bookshelf,
    MossyCobblestone,
    Obsidian,
}

/// The block kind that a wire byte stands for. Bytes above
/// [`MAX_BLOCK_BYTE`] stand for air.
pub open spec fn block_of_byte(byte: u8) -> Block {
    match byte {
        0x00 => Block::Air,
        0x01 => Block::Stone,
        0x02 => Block::GrassBlock,
        0x03 => Block::Dirt,
        0x04 => Block::Cobblestone,
        0x05 => Block::Planks,
        0x06 => Block::Sapling,
        0x07 => Block::Bedrock,
        0x08 => Block::FlowingWater,
        0x09 => Block::StationaryWater,
        0x0A => Block::FlowingLava,
        0x0B => Block::StationaryLava,
        0x0C => Block::Sand,
        0x0D => Block::Gravel,
        0x0E => Block::GoldOre,
        0x0F => Block::IronOre,
        0x10 => Block::CoalOre,
        0x11 => Block::Wood,
        0x12 => Block::Leaves,
        0x13 => Block::Sponge,
        0x14 => Block::Glass,
        0x15 => Block::RedCloth,
        0x16 => Block::OrangeCloth,
        0x17 => Block::YellowCloth,
        0x18 => Block::ChartreuseCloth,
        0x19 => Block::GreenCloth,
        0x1A => Block::SpringGreenCloth,
        0x1B => Block::CyanCloth,
        0x1C => Block::CapriCloth,
        0x1D => Block::UltramarineCloth,
        0x1E => Block::VioletCloth,
        0x1F => Block::PurpleCloth,
        0x20 => Block::MagentaCloth,
        0x21 => Block::RoseCloth,
        0x22 => Block::DarkGrayCloth,
        0x23 => Block::LightGrayCloth,
        0x24 => Block::WhiteCloth,
        0x25 => Block::Dandelion,
        0x26 => Block::Rose,
        0x27 => Block::BrownMushroom,
        0x28 => Block::RedMushroom,
        0x29 => Block::GoldBlock,
        0x2A => Block::IronBlock,
        0x2B => Block::DoubleSlab,
        0x2C => Block::Slab,
        0x2D => Block::Bricks,
        0x2E => Block::TNT,
        0x2F => Block::Bookshelf,
        0x30 => Block::MossyCobblestone,
        0x31 => Block::Obsidian,
        _ => Block::Air,
    }
}

/// The wire byte of a block kind.
pub open spec fn byte_of_block(block: Block) -> u8 {
    match block {
        Block::Air => 0x00,
        Block::Stone => 0x01,
        Block::GrassBlock => 0x02,
        Block::Dirt => 0x03,
        Block::Cobblestone => 0x04,
        Block::Planks => 0x05,
        Block::Sapling => 0x06,
        Block::Bedrock => 0x07,
        Block::FlowingWater => 0x08,
        Block::StationaryWater => 0x09,
        Block::FlowingLava => 0x0A,
        Block::StationaryLava => 0x0B,
        Block::Sand => 0x0C,
        Block::Gravel => 0x0D,
        Block::GoldOre => 0x0E,
        Block::IronOre => 0x0F,
        Block::CoalOre => 0x10,
        Block::Wood => 0x11,
        Block::Leaves => 0x12,
        Block::Sponge => 0x13,
        Block::Glass => 0x14,
        Block::RedCloth => 0x15,
        Block::OrangeCloth => 0x16,
        Block::YellowCloth => 0x17,
        Block::ChartreuseCloth => 0x18,
        Block::GreenCloth => 0x19,
        Block::SpringGreenCloth => 0x1A,
        Block::CyanCloth => 0x1B,
        Block::CapriCloth => 0x1C,
        Block::UltramarineCloth => 0x1D,
        Block::VioletCloth => 0x1E,
        Block::PurpleCloth => 0x1F,
        Block::MagentaCloth => 0x20,
        Block::RoseCloth => 0x21,
        Block::DarkGrayCloth => 0x22,
        Block::LightGrayCloth => 0x23,
        Block::WhiteCloth => 0x24,
        Block::Dandelion => 0x25,
        Block::Rose => 0x26,
        Block::BrownMushroom => 0x27,
        Block::RedMushroom => 0x28,
        Block::GoldBlock => 0x29,
        Block::IronBlock => 0x2A,
        Block::DoubleSlab => 0x2B,
        Block::Slab => 0x2C,
        Block::Bricks => 0x2D,
        Block::TNT => 0x2E,
        Block::Bookshelf => 0x2F,
        Block::MossyCobblestone => 0x30,
        Block::Obsidian => 0x31,
    }
}

impl From<u8> for Block {
    fn from(byte: u8) -> (block: Block) {
        match byte {
            0x00 => Block::Air,
            0x01 => Block::Stone,
            0x02 => Block::GrassBlock,
            0x03 => Block::Dirt,
            0x04 => Block::Cobblestone,
            0x05 => Block::Planks,
            0x06 => Block::Sapling,
            0x07 => Block::Bedrock,
            0x08 => Block::FlowingWater,
            0x09 => Block::StationaryWater,
            0x0A => Block::FlowingLava,
            0x0B => Block::StationaryLava,
            0x0C => Block::Sand,
            0x0D => Block::Gravel,
            0x0E => Block::GoldOre,
            0x0F => Block::IronOre,
            0x10 => Block::CoalOre,
            0x11 => Block::Wood,
            0x12 => Block::Leaves,
            0x13 => Block::Sponge,
            0x14 => Block::Glass,
            0x15 => Block::RedCloth,
            0x16 => Block::OrangeCloth,
            0x17 => Block::YellowCloth,
            0x18 => Block::ChartreuseCloth,
            0x19 => Block::GreenCloth,
            0x1A => Block::SpringGreenCloth,
            0x1B => Block::CyanCloth,
            0x1C => Block::CapriCloth,
            0x1D => Block::UltramarineCloth,
            0x1E => Block::VioletCloth,
            0x1F => Block::PurpleCloth,
            0x20 => Block::MagentaCloth,
            0x21 => Block::RoseCloth,
            0x22 => Block::DarkGrayCloth,
            0x23 => Block::LightGrayCloth,
            0x24 => Block::WhiteCloth,
            0x25 => Block::Dandelion,
            0x26 => Block::Rose,
            0x27 => Block::BrownMushroom,
            0x28 => Block::RedMushroom,
            0x29 => Block::GoldBlock,
            0x2A => Block::IronBlock,
            0x2B => Block::DoubleSlab,
            0x2C => Block::Slab,
            0x2D => Block::Bricks,
            0x2E => Block::TNT,
            0x2F => Block::Bookshelf,
            0x30 => Block::MossyCobblestone,
            0x31 => Block::Obsidian,
            _ => Block::Air,
        }
    }
}

impl FromSpecImpl<u8> for Block {
    open spec fn obeys_from_spec() -> bool {
        true
    }

    open spec fn from_spec(byte: u8) -> Block {
        block_of_byte(byte)
    }
}

impl From<Block> for u8 {
    fn from(block: Block) -> (byte: u8) {
        match block {
            Block::Air => 0x00,
            Block::Stone => 0x01,
            Block::GrassBlock => 0x02,
            Block::Dirt => 0x03,
            Block::Cobblestone => 0x04,
            Block::Planks => 0x05,
            Block::Sapling => 0x06,
            Block::Bedrock => 0x07,
            Block::FlowingWater => 0x08,
            Block::StationaryWater => 0x09,
            Block::FlowingLava => 0x0A,
            Block::StationaryLava => 0x0B,
            Block::Sand => 0x0C,
            Block::Gravel => 0x0D,
            Block::GoldOre => 0x0E,
            Block::IronOre => 0x0F,
            Block::CoalOre => 0x10,
            Block::Wood => 0x11,
            Block::Leaves => 0x12,
            Block::Sponge => 0x13,
            Block::Glass => 0x14,
            Block::RedCloth => 0x15,
            Block::OrangeCloth => 0x16,
            Block::YellowCloth => 0x17,
            Block::ChartreuseCloth => 0x18,
            Block::GreenCloth => 0x19,
            Block::SpringGreenCloth => 0x1A,
            Block::CyanCloth => 0x1B,
            Block::CapriCloth => 0x1C,
            Block::UltramarineCloth => 0x1D,
            Block::VioletCloth => 0x1E,
            Block::PurpleCloth => 0x1F,
            Block::MagentaCloth => 0x20,
            Block::RoseCloth => 0x21,
            Block::DarkGrayCloth => 0x22,
            Block::LightGrayCloth => 0x23,
            Block::WhiteCloth => 0x24,
            Block::Dandelion => 0x25,
            Block::Rose => 0x26,
            Block::BrownMushroom => 0x27,
            Block::RedMushroom => 0x28,
            Block::GoldBlock => 0x29,
            Block::IronBlock => 0x2A,
            Block::DoubleSlab => 0x2B,
            Block::Slab => 0x2C,
            Block::Bricks => 0x2D,
            Block::TNT => 0x2E,
            Block::Bookshelf => 0x2F,
            Block::MossyCobblestone => 0x30,
            Block::Obsidian => 0x31,
        }
    }
}

impl FromSpecImpl<Block> for u8 {
    open spec fn obeys_from_spec() -> bool {
        true
    }

    open spec fn from_spec(block: Block) -> u8 {
        byte_of_block(block)
    }
}

/// Every wire byte up to [`MAX_BLOCK_BYTE`] names a block kind that maps back
/// to the same byte, and every larger byte names air.
pub proof fn lemma_byte_round_trip(byte: u8)
    ensures
        byte <= MAX_BLOCK_BYTE ==> byte_of_block(block_of_byte(byte)) == byte,
        byte > MAX_BLOCK_BYTE ==> block_of_byte(byte) == Block::Air,
{
}

/// Every block kind has a wire byte up to [`MAX_BLOCK_BYTE`] that names it
/// again: the two maps are inverse to each other on that range.
pub proof fn lemma_block_round_trip(block: Block)
    ensures
        byte_of_block(block) <= MAX_BLOCK_BYTE,
        block_of_byte(byte_of_block(block)) == block,
{
}

/// Two block kinds with the same wire byte are the same kind.
pub proof fn lemma_byte_of_block_injective(a: Block, b: Block)
    requires
        byte_of_block(a) == byte_of_block(b),
    ensures
        a == b,
{
    lemma_block_round_trip(a);
    lemma_block_round_trip(b);
}

} // verus!
