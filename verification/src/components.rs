//! The parts that an entity of the game can have.

use vstd::prelude::*;

verus! {

/// The kind of block that an entity is, as its wire byte.
pub struct BlockType(pub u8);

impl Default for BlockType {
    fn default() -> (kind: Self)
        ensures
            kind.0 == 0x00,
    {
        Self(0x00)
    }
}

/// A position, in thirty-seconds of a block.
pub struct Pos {
    pub x: i16,
    pub y: i16,
    pub z: i16,
}

impl Pos {
    /// The position with the given coordinates.
    pub fn new(x: i16, y: i16, z: i16) -> (pos: Self)
        ensures
            pos.x == x,
            pos.y == y,
            pos.z == z,
    {
        Self { x, y, z }
    }
}

impl Default for Pos {
    fn default() -> (pos: Self)
        ensures
            pos.x == 0,
            pos.y == 0,
            pos.z == 0,
    {
        Self { x: 0, y: 0, z: 0 }
    }
}

/// A change of position within a tick, in thirty-seconds of a block.
pub struct DeltaVel {
    pub dx: i8,
    pub dy: i8,
    pub dz: i8,
}

impl Default for DeltaVel {
    fn default() -> (delta: Self)
        ensures
            delta.dx == 0,
            delta.dy == 0,
            delta.dz == 0,
    {
        Self { dx: 0, dy: 0, dz: 0 }
    }
}

/// The direction that an entity faces.
pub struct Rotation {
    pub yaw: u8,
    pub pitch: u8,
}

impl Default for Rotation {
    fn default() -> (rotation: Self)
        ensures
            rotation.yaw == 0,
            rotation.pitch == 0,
    {
        Self { yaw: 0, pitch: 0 }
    }
}

/// What makes an entity a player.
pub struct Player {
    pub username: String,
    pub ver_key: String,
    pub user_type: u8,
}

impl Default for Player {
    fn default() -> (player: Self)
        ensures
            player.username@ == Seq::<char>::empty(),
            player.ver_key@ == Seq::<char>::empty(),
            player.user_type == 0x00,
    {
        Self { username: String::new(), ver_key: String::new(), user_type: 0x00 }
    }
}

/// The system that reads what the players send.
pub struct NetworkReadSys;

} // verus!
