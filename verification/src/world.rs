//! The shared world: a cuboid of blocks with a floor of bedrock.
//!
//! The cell `(x, y, z)` of a world of width `sx` and depth `sz` lies at the
//! index `x + sx * z + sx * sz * y` of the block array, so that the array
//! holds one horizontal layer after the other, the floor first.

use crate::block::{block_of_byte, byte_of_block, Block};
use vstd::prelude::*;

verus! {

/// The largest extent of a world in each direction: positions on the wire
/// are 16-bit numbers that count thirty-seconds of a block.
pub const MAX_EXTENT: usize = 1024;

/// The smallest height of a world: the floor, a layer of grass above it,
/// and air to stand in.
pub const MIN_HEIGHT: usize = 4;

/// The format version of every world.
pub const FORMAT_VERSION: u8 = 1;

/// Extension data of a world.
pub trait Metadata {

}

/// Who made a world, and with what.
pub struct CreatedBy {
    pub service: String,
    pub username: String,
}

/// What generated the terrain of a world.
pub struct MapGenerator {
    pub service: String,
    pub username: String,
}

/// The point where players enter a world.
pub struct Spawn {
    pub x: usize,
    pub y: usize,
    pub z: usize,
    /// Heading.
    pub h: u8,
    /// Pitch.
    pub p: u8,
}

/// A world of blocks.
pub struct ClassicWorld {
    /// Constant, always at 1.
    format_version: u8,
    /// World name.
    name: String,
    /// Unique 128-bit world identifier.
    uuid: [u8; 16],
    /// Width of the map.
    x: usize,
    /// Height of the map.
    y: usize,
    /// Length of the map.
    z: usize,
    /// Identifies the creator of the map.
    created_by: Option<CreatedBy>,
    /// Contains data about map generation.
    map_generator: Option<MapGenerator>,
    /// UTC Unix timestamp of when the world was created.
    time_created: u64,
    /// UTC Unix timestamp of when a player last accessed the world.
    last_accessed: u64,
    /// UTC Unix timestamp set when blocks are modified.
    last_modified: u64,
    /// Defines the point where the players spawn on the map.
    spawn: Spawn,
    /// The block data, one byte per block.
    blocks: Vec<u8>,
}

/// What a world is: its name, its extent, its blocks, its makers and its
/// timestamps.
pub struct WorldView {
    pub format_version: u8,
    pub name: Seq<char>,
    pub uuid: Seq<u8>,
    pub x: nat,
    pub y: nat,
    pub z: nat,
    /// The service and the user that made the world, if they are known.
    pub created_by: Option<(Seq<char>, Seq<char>)>,
    /// The service and the user that generated the terrain, if they are
    /// known.
    pub map_generator: Option<(Seq<char>, Seq<char>)>,
    pub time_created: u64,
    pub last_accessed: u64,
    pub last_modified: u64,
    /// The spawn point: position, heading and pitch.
    pub spawn: (nat, nat, nat, u8, u8),
    pub blocks: Seq<u8>,
}

/// The name under which worlds of this server record their maker.
pub open spec fn service_name() -> Seq<char> {
    "Classic-RS"@
}

/// Whether a world can have the given width, height and depth.
pub open spec fn valid_dimensions(x: usize, y: usize, z: usize) -> bool {
    &&& 1 <= x <= MAX_EXTENT
    &&& MIN_HEIGHT <= y <= MAX_EXTENT
    &&& 1 <= z <= MAX_EXTENT
}

/// The index of the cell `(x, y, z)` in the block array of a world of width
/// `sx` and depth `sz`.
pub open spec fn cell_index(sx: nat, sz: nat, x: int, y: int, z: int) -> int {
    x + sx * z + sx * sz * y
}

/// Whether the first layer of a block array is all bedrock.
pub open spec fn floor_is_bedrock(sx: nat, sz: nat, blocks: Seq<u8>) -> bool {
    forall|i: int| 0 <= i < sx * sz && i < blocks.len() ==> blocks[i] == byte_of_block(Block::Bedrock)
}

/// Whether bytes can be the block array of a world of the given extent.
pub open spec fn valid_blocks(x: usize, y: usize, z: usize, blocks: Seq<u8>) -> bool {
    &&& valid_dimensions(x, y, z)
    &&& blocks.len() == x * y * z
    &&& floor_is_bedrock(x as nat, z as nat, blocks)
}

/// The block at an index of a freshly made world: bedrock on the floor,
/// dirt up to the layer below half the height, grass on that layer, and air
/// above.
pub open spec fn initial_block(x: nat, y: nat, z: nat, i: int) -> Block {
    if i < x * z {
        Block::Bedrock
    } else if i < x * z * (y / 2 - 1) {
        Block::Dirt
    } else if i < x * z * (y / 2) {
        Block::GrassBlock
    } else {
        Block::Air
    }
}

/// The block array of a freshly made world.
pub open spec fn initial_terrain(x: nat, y: nat, z: nat) -> Seq<u8> {
    Seq::new(x * y * z, |i: int| byte_of_block(initial_block(x, y, z, i)))
}

/// The four bytes of a count, the most significant one first.
pub open spec fn count_bytes(n: nat) -> Seq<u8> {
    seq![
        ((n / 0x100_0000) % 256) as u8,
        ((n / 0x1_0000) % 256) as u8,
        ((n / 0x100) % 256) as u8,
        (n % 256) as u8,
    ]
}

/// What is compressed for a client: the number of blocks in four bytes,
/// then the blocks.
pub open spec fn snapshot_payload(blocks: Seq<u8>) -> Seq<u8> {
    count_bytes(blocks.len()) + blocks
}

/// The gzip stream that `flate2` makes of the given bytes at its fastest
/// level, with the default header.
pub uninterp spec fn gzip_stream(data: Seq<u8>) -> Seq<u8>;

/// `flate2::write::GzEncoder`, made by `new` over an empty vector with
/// `Compression::fast()`, fed the data by `write_all` and closed by
/// `finish`, hands back the vector with the whole gzip stream of the data.
/// Writing to a vector cannot fail, so neither call reports an error.
#[verifier::external_body]
fn gzip_compress(data: &[u8]) -> (stream: Vec<u8>)
    ensures
        stream@ == gzip_stream(data@),
{
    let mut encoder = flate2::write::GzEncoder::new(Vec::new(), flate2::Compression::fast());
    std::io::Write::write_all(&mut encoder, data).expect("Failed to compress data");
    encoder.finish().expect("Failed to compress data")
}

/// `uuid::Uuid::new_v4` makes a random identifier whose version is 4 and
/// whose variant is the RFC one: the high half of byte 6 is 4 and the two
/// high bits of byte 8 are `10`. `into_bytes` hands out its sixteen bytes.
#[verifier::external_body]
fn random_uuid() -> (id: [u8; 16])
    ensures
        id@[6] / 16 == 4,
        id@[8] / 64 == 2,
{
    uuid::Uuid::new_v4().into_bytes()
}

/// `std::time::SystemTime::elapsed`, asked of `UNIX_EPOCH`, measures the
/// time from the Unix epoch to the reading of the system clock; it reports
/// an error, which is dropped here, if the clock is set before the epoch.
#[verifier::external_body]
fn since_epoch() -> (elapsed: Option<core::time::Duration>) {
    std::time::UNIX_EPOCH.elapsed().ok()
}

/// `core::time::Duration::as_secs` gives the whole seconds of a duration.
pub assume_specification[ core::time::Duration::as_secs ](duration: &core::time::Duration) -> (seconds:
    u64)
;

/// The seconds since the Unix epoch on the system clock; 0 if the clock is
/// set before the epoch.
pub(crate) fn unix_time() -> (seconds: u64) {
    match since_epoch() {
        Some(elapsed) => elapsed.as_secs(),
        None => 0,
    }
}

proof fn lemma_volume_bounds(x: usize, y: usize, z: usize)
    requires
        valid_dimensions(x, y, z),
    ensures
        1 <= x * z <= 0x10_0000,
        x * z <= x * z * (y / 2 - 1),
        x * z * (y / 2 - 1) < x * z * (y / 2),
        x * z * (y / 2) <= x * z * y,
        x * z * y <= 0x4000_0000,
        x * y * z == x * z * y,
{
    let layer: int = x * z;
    let half: int = y as int / 2;
    assert(1 <= layer <= 0x10_0000) by (nonlinear_arith)
        requires
            layer == x * z,
            1 <= x <= 1024,
            1 <= z <= 1024,
    ;
    assert(layer * 1 <= layer * (half - 1) < layer * half <= layer * y <= 0x4000_0000)
        by (nonlinear_arith)
        requires
            1 <= layer <= 0x10_0000,
            2 <= half <= y,
            y <= 1024,
    ;
    assert(x * y * z == x * z * y) by (nonlinear_arith);
}

impl View for ClassicWorld {
    type V = WorldView;

    closed spec fn view(&self) -> WorldView {
        WorldView {
            format_version: self.format_version,
            name: self.name@,
            uuid: self.uuid@,
            x: self.x as nat,
            y: self.y as nat,
            z: self.z as nat,
            created_by: match self.created_by {
                Some(by) => Some((by.service@, by.username@)),
                None => None,
            },
            map_generator: match self.map_generator {
                Some(by) => Some((by.service@, by.username@)),
                None => None,
            },
            time_created: self.time_created,
            last_accessed: self.last_accessed,
            last_modified: self.last_modified,
            spawn: (
                self.spawn.x as nat,
                self.spawn.y as nat,
                self.spawn.z as nat,
                self.spawn.h,
                self.spawn.p,
            ),
            blocks: self.blocks@,
        }
    }
}

impl WorldView {
    /// The index of the cell `(x, y, z)` in the block array.
    pub open spec fn index(&self, x: int, y: int, z: int) -> int {
        cell_index(self.x, self.z, x, y, z)
    }

    /// Whether `(x, y, z)` is a cell of the world.
    pub open spec fn contains(&self, x: int, y: int, z: int) -> bool {
        0 <= x < self.x && 0 <= y < self.y && 0 <= z < self.z
    }

    /// The block in the cell `(x, y, z)`.
    pub open spec fn block(&self, x: int, y: int, z: int) -> Block {
        block_of_byte(self.blocks[self.index(x, y, z)])
    }

    /// Whether the world is as every world is: its extent is valid, it has
    /// one block per cell, its floor is bedrock and its version is 1.
    pub open spec fn well_formed(&self) -> bool {
        &&& self.format_version == FORMAT_VERSION
        &&& 1 <= self.x <= MAX_EXTENT
        &&& MIN_HEIGHT <= self.y <= MAX_EXTENT
        &&& 1 <= self.z <= MAX_EXTENT
        &&& self.blocks.len() == self.x * self.y * self.z
        &&& floor_is_bedrock(self.x, self.z, self.blocks)
        &&& self.uuid.len() == 16
    }
}

/// The cells of a world have distinct indices, all of them within the block
/// array, and the cells of the floor come first.
pub proof fn lemma_cell_index(sx: nat, sy: nat, sz: nat, x: int, y: int, z: int)
    requires
        0 <= x < sx,
        0 <= y < sy,
        0 <= z < sz,
    ensures
        0 <= cell_index(sx, sz, x, y, z) < sx * sy * sz,
        sx * sz * y <= cell_index(sx, sz, x, y, z) < sx * sz * (y + 1),
        y == 0 <==> cell_index(sx, sz, x, y, z) < sx * sz,
{
    let layer: int = (sx * sz) as int;
    assert(0 <= sx * z <= sx * (sz - 1) && sx * (sz - 1) == layer - sx) by (nonlinear_arith)
        requires
            0 <= z <= sz - 1,
            0 <= sx,
            layer == sx * sz,
    ;
    assert(layer * (y + 1) == layer * y + layer && layer * (y + 1) <= layer * sy && 0 <= layer * y
        && (y >= 1 ==> layer * y >= layer)) by (nonlinear_arith)
        requires
            0 <= y < sy,
            0 <= layer,
    ;
    assert(sx * sy * sz == layer * sy) by (nonlinear_arith)
        requires
            layer == sx * sz,
    ;
}

/// Two cells of a world with the same index are the same cell.
pub proof fn lemma_cell_index_injective(
    sx: nat,
    sz: nat,
    x1: int,
    y1: int,
    z1: int,
    x2: int,
    y2: int,
    z2: int,
)
    requires
        0 <= x1 < sx,
        0 <= z1 < sz,
        0 <= y1,
        0 <= x2 < sx,
        0 <= z2 < sz,
        0 <= y2,
        cell_index(sx, sz, x1, y1, z1) == cell_index(sx, sz, x2, y2, z2),
    ensures
        x1 == x2 && y1 == y2 && z1 == z2,
{
    let a: int = x1 + sx * z1;
    let b: int = x2 + sx * z2;
    let layer: int = (sx * sz) as int;
    assert(0 <= a < layer) by (nonlinear_arith)
        requires
            a == x1 + sx * z1,
            0 <= x1 < sx,
            0 <= z1 < sz,
            layer == sx * sz,
    ;
    assert(0 <= b < layer) by (nonlinear_arith)
        requires
            b == x2 + sx * z2,
            0 <= x2 < sx,
            0 <= z2 < sz,
            layer == sx * sz,
    ;
    assert(y1 == y2) by (nonlinear_arith)
        requires
            0 <= a < layer,
            0 <= b < layer,
            a + layer * y1 == b + layer * y2,
    ;
    assert(z1 == z2) by (nonlinear_arith)
        requires
            0 <= x1 < sx,
            0 <= x2 < sx,
            x1 + sx * z1 == x2 + sx * z2,
    ;
}

fn make_terrain(x: usize, y: usize, z: usize) -> (blocks: Vec<u8>)
    requires
        valid_dimensions(x, y, z),
    ensures
        blocks@ == initial_terrain(x as nat, y as nat, z as nat),
{
    proof {
        lemma_volume_bounds(x, y, z);
    }
    let layer: usize = x * z;
    let dirt_end: usize = layer * (y / 2 - 1);
    let grass_end: usize = layer * (y / 2);
    let volume: usize = layer * y;
    let mut blocks: Vec<u8> = Vec::new();
    let mut i: usize = 0;
    while i < volume
        invariant
            i <= volume,
            layer == x * z,
            dirt_end == x * z * (y / 2 - 1),
            grass_end == x * z * (y / 2),
            volume == x * y * z,
            blocks@.len() == i,
            forall|k: int|
                0 <= k < i ==> blocks@[k] == byte_of_block(
                    initial_block(x as nat, y as nat, z as nat, k),
                ),
        decreases volume - i,
    {
        let block = if i < layer {
            Block::Bedrock
        } else if i < dirt_end {
            Block::Dirt
        } else if i < grass_end {
            Block::GrassBlock
        } else {
            Block::Air
        };
        blocks.push(u8::from(block));
        i += 1;
    }
    assert(blocks@ =~= initial_terrain(x as nat, y as nat, z as nat));
    blocks
}

impl WorldView {
    /// Whether placing `block` in the cell `(x, y, z)` stacks a slab on a
    /// slab: the block is a slab, and so is the block right below.
    pub open spec fn stacks(&self, x: int, y: int, z: int, block: Block) -> bool {
        y >= 1 && block == Block::Slab && self.block(x, y - 1, z) == Block::Slab
    }

    /// The write that placing `block` in the cell `(x, y, z)` amounts to.
    /// On the floor nothing is written and bedrock is reported; a slab on a
    /// slab turns the lower one into a double slab; anything else goes where
    /// it was put.
    pub open spec fn effect_of(&self, x: int, y: int, z: int, block: Block) -> (
        int,
        int,
        int,
        Block,
    ) {
        if y == 0 {
            (x, 0, z, Block::Bedrock)
        } else if self.stacks(x, y, z, block) {
            (x, y - 1, z, Block::DoubleSlab)
        } else {
            (x, y, z, block)
        }
    }

    /// The world after `block` was placed in the cell `(x, y, z)` at the
    /// time `now`: unchanged if the cell is on the floor, and else with the
    /// effective block in the effective cell and `now` as the time of the
    /// last modification.
    pub open spec fn after_set(&self, x: int, y: int, z: int, block: Block, now: u64) -> WorldView {
        if y == 0 {
            *self
        } else {
            let effect = self.effect_of(x, y, z, block);
            WorldView {
                blocks: self.blocks.update(
                    self.index(effect.0, effect.1, effect.2),
                    byte_of_block(effect.3),
                ),
                last_modified: now,
                ..*self
            }
        }
    }
}

/// A block placed in a cell above the floor, where it does not stack a slab
/// on a slab, is the block that is read from that cell afterwards; and the
/// time of the last modification grows strictly if the clock has moved on
/// since then.
pub proof fn lemma_get_after_set(world: WorldView, x: int, y: int, z: int, block: Block, now: u64)
    requires
        world.well_formed(),
        0 <= x,
        0 <= z,
        y >= 1,
        world.index(x, y, z) < world.blocks.len(),
        !world.stacks(x, y, z, block),
    ensures
        world.after_set(x, y, z, block, now).block(x, y, z) == block,
        world.after_set(x, y, z, block, now).well_formed(),
        now > world.last_modified ==> world.after_set(x, y, z, block, now).last_modified
            > world.last_modified,
{
    crate::block::lemma_block_round_trip(block);
    lemma_set_keeps_floor(world, x, y, z, block, now);
}

/// A slab placed right above a slab turns the lower slab into a double
/// slab and leaves the cell that it was put in as it was.
pub proof fn lemma_slab_stacking(world: WorldView, x: int, y: int, z: int, now: u64)
    requires
        world.well_formed(),
        0 <= x,
        0 <= z,
        y >= 1,
        world.index(x, y, z) < world.blocks.len(),
        world.block(x, y - 1, z) == Block::Slab,
    ensures
        world.effect_of(x, y, z, Block::Slab) == (x, y - 1, z, Block::DoubleSlab),
        world.after_set(x, y, z, Block::Slab, now).block(x, y - 1, z) == Block::DoubleSlab,
        world.after_set(x, y, z, Block::Slab, now).block(x, y, z) == world.block(x, y, z),
        world.after_set(x, y, z, Block::Slab, now).well_formed(),
{
    let layer: int = (world.x * world.z) as int;
    assert(layer >= 1 && layer * (y - 1) == layer * y - layer && layer * (y - 1) >= 0)
        by (nonlinear_arith)
        requires
            layer == world.x * world.z,
            world.x >= 1,
            world.z >= 1,
            y >= 1,
    ;
    assert(world.x * z >= 0) by (nonlinear_arith)
        requires
            z >= 0,
    ;
    lemma_set_keeps_floor(world, x, y, z, Block::Slab, now);
}

/// Placing a block never changes the floor: whatever is placed wherever,
/// the world stays well formed, so that every cell of the floor still holds
/// bedrock; and placing a block in a cell of the floor changes nothing.
pub proof fn lemma_set_keeps_floor(world: WorldView, x: int, y: int, z: int, block: Block, now: u64)
    requires
        world.well_formed(),
        0 <= x,
        0 <= z,
        0 <= y,
        world.index(x, y, z) < world.blocks.len(),
    ensures
        world.after_set(x, y, z, block, now).well_formed(),
        y == 0 ==> world.after_set(x, y, z, block, now) == world,
        forall|a: int, c: int|
            0 <= a < world.x && 0 <= c < world.z ==> #[trigger] world.after_set(
                x,
                y,
                z,
                block,
                now,
            ).block(a, 0, c) == Block::Bedrock,
{
    let layer: int = (world.x * world.z) as int;
    let after = world.after_set(x, y, z, block, now);
    assert(world.x * z >= 0) by (nonlinear_arith)
        requires
            z >= 0,
    ;
    if y >= 1 {
        assert(layer * (y - 1) == layer * y - layer && layer * (y - 1) >= 0 && layer * y >= layer)
            by (nonlinear_arith)
            requires
                layer >= 0,
                y >= 1,
        ;
        let effect = world.effect_of(x, y, z, block);
        let target = world.index(effect.0, effect.1, effect.2);
        if target < layer {
            assert(world.blocks[target] == byte_of_block(Block::Bedrock));
        }
        assert(target >= layer);
    }
    assert forall|a: int, c: int| 0 <= a < world.x && 0 <= c < world.z implies #[trigger] after.block(
        a,
        0,
        c,
    ) == Block::Bedrock by {
        lemma_cell_index(world.x, world.y, world.z, a, 0, c);
    }
}

/// A freshly made world.
pub open spec fn fresh_world(
    name: Seq<char>,
    author: Seq<char>,
    x: usize,
    y: usize,
    z: usize,
    uuid: Seq<u8>,
    now: u64,
) -> WorldView {
    loaded_world(name, author, x, y, z, uuid, now, initial_terrain(x as nat, y as nat, z as nat))
}

/// A world made around a block array: made and generated by this server
/// for the author, with the spawn point at the top of the first column.
pub open spec fn loaded_world(
    name: Seq<char>,
    author: Seq<char>,
    x: usize,
    y: usize,
    z: usize,
    uuid: Seq<u8>,
    now: u64,
    blocks: Seq<u8>,
) -> WorldView {
    WorldView {
        format_version: FORMAT_VERSION,
        name,
        uuid,
        x: x as nat,
        y: y as nat,
        z: z as nat,
        created_by: Some((service_name(), author)),
        map_generator: Some((service_name(), author)),
        time_created: now,
        last_accessed: now,
        last_modified: now,
        spawn: (0, y as nat, 0, 0, 0),
        blocks,
    }
}

/// The block array of a freshly made world is valid: it has one block per
/// cell and its floor is bedrock.
pub proof fn lemma_initial_terrain_valid(x: usize, y: usize, z: usize)
    requires
        valid_dimensions(x, y, z),
    ensures
        valid_blocks(x, y, z, initial_terrain(x as nat, y as nat, z as nat)),
{
    lemma_volume_bounds(x, y, z);
}

/// Tells whether a world can have the given width, height and depth.
pub fn dimensions_are_valid(x: usize, y: usize, z: usize) -> (valid: bool)
    ensures
        valid == valid_dimensions(x, y, z),
{
    1 <= x && x <= MAX_EXTENT && MIN_HEIGHT <= y && y <= MAX_EXTENT && 1 <= z && z <= MAX_EXTENT
}

/// Tells whether bytes can be the block array of a world of the given
/// extent.
pub fn blocks_are_valid(x: usize, y: usize, z: usize, blocks: &[u8]) -> (valid: bool)
    ensures
        valid == valid_blocks(x, y, z, blocks@),
{
    if !dimensions_are_valid(x, y, z) {
        return false;
    }
    proof {
        lemma_volume_bounds(x, y, z);
    }
    let layer: usize = x * z;
    if blocks.len() != layer * y {
        return false;
    }
    let bedrock: u8 = u8::from(Block::Bedrock);
    let mut i: usize = 0;
    while i < layer
        invariant
            i <= layer,
            layer == x * z,
            layer <= blocks.len(),
            bedrock == byte_of_block(Block::Bedrock),
            forall|k: int| 0 <= k < i ==> blocks@[k] == bedrock,
        decreases layer - i,
    {
        if blocks[i] != bedrock {
            return false;
        }
        i += 1;
    }
    true
}

impl ClassicWorld {
    /// Every world is well formed.
    #[verifier::type_invariant]
    pub open spec fn inv(&self) -> bool {
        self@.well_formed()
    }

    fn assemble(
        name: &str,
        author: &str,
        x: usize,
        y: usize,
        z: usize,
        uuid: [u8; 16],
        now: u64,
        blocks: Vec<u8>,
    ) -> (world: Self)
        requires
            valid_blocks(x, y, z, blocks@),
        ensures
            world@ == loaded_world(name@, author@, x, y, z, uuid@, now, blocks@),
    {
        broadcast use vstd::array::group_array_axioms;

        ClassicWorld {
            format_version: FORMAT_VERSION,
            name: name.to_owned(),
            uuid,
            x,
            y,
            z,
            created_by: Some(
                CreatedBy { service: "Classic-RS".to_owned(), username: author.to_owned() },
            ),
            map_generator: Some(
                MapGenerator { service: "Classic-RS".to_owned(), username: author.to_owned() },
            ),
            time_created: now,
            last_accessed: now,
            last_modified: now,
            spawn: Spawn { x: 0, y, z: 0, h: 0, p: 0 },
            blocks,
        }
    }

    /// Creates a new world with a name, an author and an extent: a floor of
    /// bedrock, dirt up to the layer below half the height, grass on that
    /// layer and air above. The world gets a random identifier, and the
    /// reading of the clock as its three timestamps.
    pub fn new(name: &str, author: &str, x: usize, y: usize, z: usize) -> (world: Self)
        requires
            valid_dimensions(x, y, z),
        ensures
            world@ == fresh_world(
                name@,
                author@,
                x,
                y,
                z,
                world@.uuid,
                world@.time_created,
            ),
            world@.well_formed(),
            world@.uuid[6] / 16 == 4,
            world@.uuid[8] / 64 == 2,
    {
        let blocks = make_terrain(x, y, z);
        proof {
            lemma_initial_terrain_valid(x, y, z);
        }
        Self::assemble(name, author, x, y, z, random_uuid(), unix_time(), blocks)
    }

    /// Creates a world around a block array that was saved before. The
    /// world gets a random identifier, and the reading of the clock as its
    /// three timestamps.
    pub fn from_buffer(name: &str, author: &str, x: usize, y: usize, z: usize, buffer: &[u8]) -> (world:
        Self)
        requires
            valid_blocks(x, y, z, buffer@),
        ensures
            world@ == loaded_world(
                name@,
                author@,
                x,
                y,
                z,
                world@.uuid,
                world@.time_created,
                buffer@,
            ),
            world@.well_formed(),
            world@.uuid[6] / 16 == 4,
            world@.uuid[8] / 64 == 2,
    {
        let blocks = vstd::slice::slice_to_vec(buffer);
        Self::assemble(name, author, x, y, z, random_uuid(), unix_time(), blocks)
    }

    /// The width, height and depth of the world.
    pub fn get_size(&self) -> (size: [usize; 3])
        ensures
            size@ == seq![self@.x as usize, self@.y as usize, self@.z as usize],
            self@.well_formed(),
    {
        broadcast use vstd::array::group_array_axioms;

        proof {
            use_type_invariant(self);
        }
        let size = [self.x, self.y, self.z];
        assert(size@ =~= seq![self@.x as usize, self@.y as usize, self@.z as usize]);
        size
    }

    /// The block array of the world.
    pub fn get_blocks(&self) -> (blocks: &Vec<u8>)
        ensures
            blocks@ == self@.blocks,
            self@.well_formed(),
    {
        proof {
            use_type_invariant(self);
        }
        &self.blocks
    }

    /// The name of the world.
    pub fn get_name(&self) -> (name: &str)
        ensures
            name@ == self@.name,
    {
        self.name.as_str()
    }

    /// The identifier of the world.
    pub fn get_uuid(&self) -> (uuid: [u8; 16])
        ensures
            uuid@ == self@.uuid,
    {
        self.uuid
    }

    /// The time of the last modification of the blocks.
    pub fn get_last_modified(&self) -> (seconds: u64)
        ensures
            seconds == self@.last_modified,
    {
        self.last_modified
    }

    /// Tells whether `(x, y, z)` is a cell of the world.
    pub fn contains(&self, x: usize, y: usize, z: usize) -> (inside: bool)
        ensures
            inside == self@.contains(x as int, y as int, z as int),
            inside ==> 0 <= self@.index(x as int, y as int, z as int) < self@.blocks.len(),
            self@.well_formed(),
    {
        proof {
            use_type_invariant(self);
        }
        let inside = x < self.x && y < self.y && z < self.z;
        proof {
            if inside {
                lemma_cell_index(self@.x, self@.y, self@.z, x as int, y as int, z as int);
            }
        }
        inside
    }

    fn position(&self, x: usize, y: usize, z: usize) -> (pos: usize)
        requires
            self@.index(x as int, y as int, z as int) < self@.blocks.len(),
        ensures
            pos == self@.index(x as int, y as int, z as int),
            self@.well_formed(),
            y >= 1 ==> pos >= self@.x * self@.z,
    {
        proof {
            use_type_invariant(self);
            lemma_volume_bounds(self.x, self.y, self.z);
            let layer: int = (self.x * self.z) as int;
            assert(0 <= self.x * z && 0 <= layer * y && (y >= 1 ==> layer * y >= layer))
                by (nonlinear_arith)
                requires
                    0 <= self.x,
                    0 <= z,
                    0 <= layer,
                    0 <= y,
            ;
            assert(self.z * self.x == layer) by (nonlinear_arith)
                requires
                    layer == self.x * self.z,
            ;
        }
        x + (self.x * z) + ((self.z * self.x) * y)
    }

    /// Reads the block in the cell `(x, y, z)`. The coordinates are not
    /// held against the extent of the world: the index that they give has to
    /// lie within the block array.
    pub fn get_block(&self, x: usize, y: usize, z: usize) -> (block: Block)
        requires
            self@.index(x as int, y as int, z as int) < self@.blocks.len(),
        ensures
            block == self@.block(x as int, y as int, z as int),
    {
        let pos = self.position(x, y, z);
        Block::from(self.blocks[pos])
    }

    /// Places a block in the cell `(x, y, z)` at the time `now`, and
    /// reports the write that this amounted to.
    pub fn set_block_at(&mut self, x: usize, y: usize, z: usize, block: Block, now: u64) -> (effect:
        (usize, usize, usize, Block))
        requires
            old(self)@.index(x as int, y as int, z as int) < old(self)@.blocks.len(),
        ensures
            (effect.0 as int, effect.1 as int, effect.2 as int, effect.3) == old(self)@.effect_of(
                x as int,
                y as int,
                z as int,
                block,
            ),
            final(self)@ == old(self)@.after_set(x as int, y as int, z as int, block, now),
            final(self)@.well_formed(),
    {
        proof {
            use_type_invariant(&*self);
        }
        if y == 0 {
            return (x, 0, z, Block::Bedrock);
        }
        let pos = self.position(x, y, z);
        let layer = self.x * self.z;
        let below = Block::from(self.blocks[pos - layer]);
        proof {
            let lay: int = (self.x * self.z) as int;
            assert(lay * (y - 1) == lay * y - lay) by (nonlinear_arith);
            assert(self@.index(x as int, y - 1, z as int) == pos - layer);
        }
        let stacks = block == Block::Slab && below == Block::Slab;
        let (target, effect) = if stacks {
            (pos - layer, (x, y - 1, z, Block::DoubleSlab))
        } else {
            (pos, (x, y, z, block))
        };
        proof {
            if target < layer {
                assert(self.blocks@[target as int] == byte_of_block(Block::Bedrock));
            }
        }
        self.blocks[target] = u8::from(effect.3);
        self.last_modified = now;
        assert(self@ =~= old(self)@.after_set(x as int, y as int, z as int, block, now));
        effect
    }

    /// Places a block in the cell `(x, y, z)` at the time that the clock
    /// shows, and reports the write that this amounted to.
    pub fn set_block(&mut self, x: usize, y: usize, z: usize, block: Block) -> (effect: (
        usize,
        usize,
        usize,
        Block,
    ))
        requires
            old(self)@.index(x as int, y as int, z as int) < old(self)@.blocks.len(),
        ensures
            (effect.0 as int, effect.1 as int, effect.2 as int, effect.3) == old(self)@.effect_of(
                x as int,
                y as int,
                z as int,
                block,
            ),
            final(self)@ == old(self)@.after_set(
                x as int,
                y as int,
                z as int,
                block,
                final(self)@.last_modified,
            ),
            final(self)@.well_formed(),
    {
        let now = unix_time();
        self.set_block_at(x, y, z, block, now)
    }

    /// Compresses the world for a client: the gzip stream of the number of
    /// blocks, in four bytes, followed by the blocks.
    pub fn gzip_snapshot(&self) -> (stream: Vec<u8>)
        ensures
            stream@ == gzip_stream(snapshot_payload(self@.blocks)),
    {
        proof {
            use_type_invariant(self);
            lemma_volume_bounds(self.x, self.y, self.z);
        }
        let n: usize = self.blocks.len();
        let mut payload: Vec<u8> = Vec::new();
        payload.push(((n / 0x100_0000) % 256) as u8);
        payload.push(((n / 0x1_0000) % 256) as u8);
        payload.push(((n / 0x100) % 256) as u8);
        payload.push((n % 256) as u8);
        let mut i: usize = 0;
        while i < n
            invariant
                i <= n,
                n == self.blocks@.len(),
                payload@ == count_bytes(n as nat) + self.blocks@.take(i as int),
            decreases n - i,
        {
            payload.push(self.blocks[i]);
            assert(payload@ =~= count_bytes(n as nat) + self.blocks@.take(i + 1));
            i += 1;
        }
        assert(self.blocks@.take(n as int) =~= self.blocks@);
        gzip_compress(payload.as_slice())
    }
}

/// The directory that worlds are saved in.
pub const WORLD_DIRECTORY: &'static str = "./world";

/// The most bytes of a saved world that are read at once.
pub const LOAD_CHUNK: usize = 16384;

/// The name of the file that a world of the given name is saved in.
pub open spec fn save_name(name: Seq<char>) -> Seq<char> {
    name + ".crs"@
}

/// The name of the file that a world of the given name is saved in.
pub fn save_file_name(name: &str) -> (file: String)
    ensures
        file@ == save_name(name@),
{
    vstd::string::StringExecFns::concat(name.to_owned(), ".crs")
}

/// The path of the file that a world of the given name is saved in.
pub fn save_path(name: &str) -> (path: String)
    ensures
        path@ == "./world/"@ + save_name(name@),
{
    let file = save_file_name(name);
    let path = vstd::string::StringExecFns::concat("./world/".to_owned(), file.as_str());
    assert(path@ =~= "./world/"@ + save_name(name@));
    path
}

/// The first position of a list of file names at which the save of the
/// world of the given name stands, if it is among them.
pub open spec fn saved_at(entries: Seq<Seq<char>>, name: Seq<char>) -> Option<int>
    decreases entries.len(),
{
    if entries.len() == 0 {
        None
    } else {
        match saved_at(entries.drop_last(), name) {
            Some(at) => Some(at),
            None => if entries.last() == save_name(name) {
                Some(entries.len() - 1)
            } else {
                None
            },
        }
    }
}

/// Looks for the save of the world of the given name among the files of
/// the world directory. Where it is found the world is loaded from it; where
/// it is not, a fresh world is made and saved at once.
pub fn find_save(entries: &Vec<String>, name: &str) -> (found: Option<usize>)
    ensures
        match saved_at(crate::text::string_views(entries@), name@) {
            Some(at) => found == Some(at as usize),
            None => found is None,
        },
{
    let wanted = save_file_name(name);
    let ghost all = crate::text::string_views(entries@);
    let mut i: usize = 0;
    assert(all.take(0) =~= Seq::<Seq<char>>::empty());
    while i < entries.len()
        invariant
            i <= entries.len(),
            all == crate::text::string_views(entries@),
            wanted@ == save_name(name@),
            saved_at(all.take(i as int), name@) is None,
        decreases entries.len() - i,
    {
        proof {
            let next = all.take(i + 1);
            assert(next.drop_last() =~= all.take(i as int));
            assert(next.last() == entries@[i as int]@);
        }
        if entries[i] == wanted {
            proof {
                lemma_saved_at_extends(all, name@, i + 1);
            }
            return Some(i);
        }
        i += 1;
    }
    assert(all.take(entries.len() as int) =~= all);
    None
}

proof fn lemma_saved_at_extends(entries: Seq<Seq<char>>, name: Seq<char>, n: int)
    requires
        0 <= n <= entries.len(),
        saved_at(entries.take(n), name) is Some,
    ensures
        saved_at(entries, name) == saved_at(entries.take(n), name),
    decreases entries.len() - n,
{
    if n < entries.len() {
        let next = entries.take(n + 1);
        assert(next.drop_last() =~= entries.take(n));
        lemma_saved_at_extends(entries, name, n + 1);
    } else {
        assert(entries.take(n) =~= entries);
    }
}

} // verus!
