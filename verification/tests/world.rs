use classic_rs::block::Block;
use classic_rs::world::{blocks_are_valid, dimensions_are_valid, find_save, save_file_name, save_path, ClassicWorld};
use std::io::Read;

fn small_world() -> ClassicWorld {
    ClassicWorld::new("world", "tester", 32, 32, 32)
}

#[test]
fn a_fresh_world_has_its_terrain() {
    let world = small_world();
    assert_eq!(world.get_size(), [32, 32, 32]);
    let blocks = world.get_blocks();
    assert_eq!(blocks.len(), 32 * 32 * 32);
    let layer = 32 * 32;
    for (i, byte) in blocks.iter().enumerate() {
        let expected = if i < layer {
            Block::Bedrock
        } else if i < layer * 15 {
            Block::Dirt
        } else if i < layer * 16 {
            Block::GrassBlock
        } else {
            Block::Air
        };
        assert_eq!(*byte, u8::from(expected), "block {}", i);
    }
}

#[test]
fn a_fresh_world_is_read_by_cell() {
    let world = ClassicWorld::new("world", "tester", 8, 16, 4);
    assert_eq!(world.get_size(), [8, 16, 4]);
    assert_eq!(world.get_block(0, 0, 0), Block::Bedrock);
    assert_eq!(world.get_block(7, 0, 3), Block::Bedrock);
    assert_eq!(world.get_block(0, 1, 0), Block::Dirt);
    assert_eq!(world.get_block(7, 6, 3), Block::Dirt);
    assert_eq!(world.get_block(0, 7, 0), Block::GrassBlock);
    assert_eq!(world.get_block(7, 7, 3), Block::GrassBlock);
    assert_eq!(world.get_block(0, 8, 0), Block::Air);
    assert_eq!(world.get_block(7, 15, 3), Block::Air);
}

#[test]
fn a_world_has_a_name_an_identifier_and_a_time() {
    let world = small_world();
    assert_eq!(world.get_name(), "world");
    let uuid = world.get_uuid();
    assert_eq!(uuid[6] >> 4, 4);
    assert_eq!(uuid[8] >> 6, 2);
    assert_ne!(small_world().get_uuid(), uuid);
    assert!(world.get_last_modified() > 1_600_000_000);
}

#[test]
fn cells_are_laid_out_row_by_row_and_layer_by_layer() {
    let mut world = ClassicWorld::new("world", "tester", 8, 16, 4);
    world.set_block_at(3, 9, 2, Block::Glass, 10);
    let index = 3 + 8 * 2 + 8 * 4 * 9;
    assert_eq!(world.get_blocks()[index], u8::from(Block::Glass));
    let changed = world.get_blocks().iter().enumerate().filter(|(i, b)| *i >= 8 * 4 * 8 && **b != 0).count();
    assert_eq!(changed, 1);
}

#[test]
fn a_block_that_was_set_is_read_back() {
    let mut world = small_world();
    for byte in 0u8..=0x31 {
        let block = Block::from(byte);
        if block == Block::Slab {
            continue;
        }
        let effect = world.set_block_at(5, 20, 5, block, 100 + byte as u64);
        assert_eq!(effect, (5, 20, 5, block));
        assert_eq!(world.get_block(5, 20, 5), block);
        assert_eq!(world.get_last_modified(), 100 + byte as u64);
    }
}

#[test]
fn setting_a_block_moves_the_time_of_modification() {
    let mut world = small_world();
    world.set_block_at(1, 1, 1, Block::Stone, 50);
    assert_eq!(world.get_last_modified(), 50);
    world.set_block_at(1, 1, 1, Block::Sand, 51);
    assert_eq!(world.get_last_modified(), 51);
    let before = world.get_last_modified();
    world.set_block(1, 2, 1, Block::Sand);
    assert!(world.get_last_modified() > before);
}

#[test]
fn a_slab_on_a_slab_makes_a_double_slab() {
    let mut world = small_world();
    world.set_block_at(5, 20, 5, Block::Slab, 1);
    assert_eq!(world.get_block(5, 20, 5), Block::Slab);
    let above = world.get_block(5, 21, 5);
    let effect = world.set_block_at(5, 21, 5, Block::Slab, 2);
    assert_eq!(effect, (5, 20, 5, Block::DoubleSlab));
    assert_eq!(world.get_block(5, 20, 5), Block::DoubleSlab);
    assert_eq!(world.get_block(5, 21, 5), above);
}

#[test]
fn a_slab_on_anything_else_stays_a_slab() {
    let mut world = small_world();
    let effect = world.set_block_at(5, 21, 5, Block::Slab, 2);
    assert_eq!(effect, (5, 21, 5, Block::Slab));
    assert_eq!(world.get_block(5, 21, 5), Block::Slab);
    assert_eq!(world.get_block(5, 20, 5), Block::Air);
    let effect = world.set_block_at(6, 1, 6, Block::Slab, 3);
    assert_eq!(effect, (6, 1, 6, Block::Slab));
    assert_eq!(world.get_block(6, 0, 6), Block::Bedrock);
}

#[test]
fn another_block_on_a_slab_is_placed_as_it_is() {
    let mut world = small_world();
    world.set_block_at(5, 20, 5, Block::Slab, 1);
    let effect = world.set_block_at(5, 21, 5, Block::Stone, 2);
    assert_eq!(effect, (5, 21, 5, Block::Stone));
    assert_eq!(world.get_block(5, 20, 5), Block::Slab);
}

#[test]
fn the_floor_cannot_be_changed() {
    let mut world = small_world();
    let before = world.get_blocks().clone();
    let modified = world.get_last_modified();
    for byte in [0x00u8, 0x01, 0x07, 0x2C, 0x31] {
        let effect = world.set_block_at(3, 0, 4, Block::from(byte), 1);
        assert_eq!(effect, (3, 0, 4, Block::Bedrock));
        assert_eq!(world.get_block(3, 0, 4), Block::Bedrock);
    }
    assert_eq!(world.set_block(0, 0, 0, Block::Air), (0, 0, 0, Block::Bedrock));
    assert_eq!(world.get_blocks(), &before);
    assert_eq!(world.get_last_modified(), modified);
}

#[test]
fn the_snapshot_decompresses_to_the_count_and_the_blocks() {
    let mut world = ClassicWorld::new("world", "tester", 16, 16, 16);
    world.set_block_at(1, 9, 1, Block::Obsidian, 1);
    let stream = world.gzip_snapshot();
    assert_eq!(&stream[..2], &[0x1f, 0x8b]);
    let mut decoder = flate2::read::GzDecoder::new(&stream[..]);
    let mut payload = Vec::new();
    decoder.read_to_end(&mut payload).unwrap();
    assert_eq!(&payload[..4], &[0x00, 0x00, 0x10, 0x00]);
    assert_eq!(&payload[4..], &world.get_blocks()[..]);
}

#[test]
fn a_world_is_made_around_saved_blocks() {
    let mut first = ClassicWorld::new("world", "tester", 8, 8, 8);
    first.set_block_at(1, 5, 1, Block::Bricks, 1);
    let saved = first.get_blocks().clone();
    assert!(blocks_are_valid(8, 8, 8, &saved));
    let loaded = ClassicWorld::from_buffer("world", "tester", 8, 8, 8, &saved);
    assert_eq!(loaded.get_size(), [8, 8, 8]);
    assert_eq!(loaded.get_blocks(), &saved);
    assert_eq!(loaded.get_block(1, 5, 1), Block::Bricks);
}

#[test]
fn dimensions_have_bounds() {
    assert!(dimensions_are_valid(32, 32, 32));
    assert!(dimensions_are_valid(1, 4, 1));
    assert!(dimensions_are_valid(1024, 1024, 1024));
    assert!(!dimensions_are_valid(0, 32, 32));
    assert!(!dimensions_are_valid(32, 3, 32));
    assert!(!dimensions_are_valid(32, 32, 0));
    assert!(!dimensions_are_valid(1025, 32, 32));
    assert!(!dimensions_are_valid(32, 1025, 32));
    assert!(!dimensions_are_valid(32, 32, 1025));
}

#[test]
fn saved_blocks_are_checked() {
    let world = ClassicWorld::new("world", "tester", 4, 4, 4);
    let good = world.get_blocks().clone();
    assert!(blocks_are_valid(4, 4, 4, &good));
    assert!(!blocks_are_valid(4, 4, 5, &good));
    assert!(!blocks_are_valid(4, 4, 4, &good[..63]));
    let mut long = good.clone();
    long.push(0);
    assert!(!blocks_are_valid(4, 4, 4, &long));
    let mut holed = good.clone();
    holed[15] = 0;
    assert!(!blocks_are_valid(4, 4, 4, &holed));
    let mut high = good.clone();
    high[16] = 0;
    assert!(blocks_are_valid(4, 4, 4, &high));
    assert!(!blocks_are_valid(0, 4, 4, &[]));
}

#[test]
fn the_save_of_a_world_is_found_by_its_name() {
    assert_eq!(save_file_name("world"), "world.crs");
    assert_eq!(save_path("world"), "./world/world.crs");
    let entries = vec!["other.crs".to_string(), "world.cw".to_string(), "world.crs".to_string(), "world.crs".to_string()];
    assert_eq!(find_save(&entries, "world"), Some(2));
    assert_eq!(find_save(&entries, "other"), Some(0));
    assert_eq!(find_save(&entries, "third"), None);
    assert_eq!(find_save(&Vec::new(), "world"), None);
    assert_eq!(find_save(&vec!["world.cw".to_string()], "world"), None);
}
