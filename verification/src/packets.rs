//! The packets of the classic protocol, version 7, in both directions, and
//! their layout on the wire.
//!
//! A packet starts with one byte, its opcode; the opcode alone decides how
//! many bytes follow. Integers of more than one byte are big-endian. Text
//! travels in fields of 64 bytes, padded with spaces on the right.

use crate::text::{encode_bytes, padded, remove_char, string_from_utf8, take_until_nul, until_nul, without_char};
use vstd::prelude::*;
use vstd::slice::slice_subrange;
use vstd::utf8::{decode_utf8, encode_utf8, valid_utf8};

verus! {

/// A 16-bit signed integer of the protocol.
pub type Short = i16;

/// The payload of one piece of the level stream.
pub type ByteArray = [u8; 1024];

/// A text field.
pub type MString = [u8; 64];

/// A family of packets with a fixed layout per opcode.
pub trait Packet<T>: Sized {
    /// The bytes that stand for the packet on the wire.
    spec fn wire(&self) -> Seq<u8>;

    /// The number of bytes, opcode included, of a packet with the given
    /// opcode; 0 for an opcode that the family does not have.
    spec fn wire_size(id: u8) -> nat;

    /// Whether a buffer starts with a whole packet that can be decoded.
    spec fn can_decode(buffer: T) -> bool;

    /// Whether `packet` is what the start of the buffer decodes to.
    spec fn decodes_to(buffer: T, packet: &Self) -> bool;

    /// Get a packet from a buffer.
    fn from(buffer: T) -> (packet: Self)
        requires
            Self::can_decode(buffer),
        ensures
            Self::decodes_to(buffer, &packet),
    ;

    /// Create the bytes of a packet.
    fn into(&self) -> (bytes: Vec<u8>)
        ensures
            bytes@ == self.wire(),
    ;

    /// The byte length of a packet with the given opcode.
    fn size(id: u8) -> (n: usize)
        ensures
            n == Self::wire_size(id),
    ;
}

/// The two bytes of a 16-bit integer in two's complement, the more
/// significant one first.
pub open spec fn short_bytes(v: i16) -> Seq<u8> {
    let u: int = if v < 0 {
        v + 0x1_0000
    } else {
        v as int
    };
    seq![(u / 256) as u8, (u % 256) as u8]
}

/// The 16-bit integer whose two's complement is the bytes `hi`, `lo`.
pub open spec fn short_of_bytes(hi: u8, lo: u8) -> i16 {
    let u: int = hi * 256 + lo;
    if u >= 0x8000 {
        (u - 0x1_0000) as i16
    } else {
        u as i16
    }
}

/// The two low bytes of a size, the more significant one first.
pub open spec fn low_short_bytes(v: usize) -> Seq<u8> {
    seq![((v / 256) % 256) as u8, (v % 256) as u8]
}

/// The byte of an 8-bit integer in two's complement.
pub open spec fn byte_of_delta(d: i8) -> u8 {
    if d < 0 {
        (d + 256) as u8
    } else {
        d as u8
    }
}

/// The 8-bit integer whose two's complement is the byte.
pub open spec fn delta_of_byte(b: u8) -> i8 {
    if b >= 128 {
        (b - 256) as i8
    } else {
        b as i8
    }
}

/// `byteorder::ByteOrder::read_i16` for `BigEndian` reads the first two bytes
/// of the buffer as an unsigned big-endian number and casts it to `i16`; it
/// panics on a buffer of fewer than two bytes.
#[verifier::external_body]
fn read_short(bytes: &[u8]) -> (v: i16)
    requires
        bytes@.len() >= 2,
    ensures
        v == short_of_bytes(bytes@[0], bytes@[1]),
{
    <byteorder::BigEndian as byteorder::ByteOrder>::read_i16(bytes)
}

/// Reads the 16-bit integer at a position of the buffer.
fn short_at(buffer: &[u8], at: usize) -> (v: i16)
    requires
        at + 2 <= buffer.len(),
    ensures
        v == short_of_bytes(buffer@[at as int], buffer@[at + 1]),
{
    read_short(slice_subrange(buffer, at, at + 2))
}

fn push_short(out: &mut Vec<u8>, v: i16)
    ensures
        final(out)@ == old(out)@ + short_bytes(v),
{
    let u: u16 = if v < 0 {
        (v as i32 + 0x1_0000) as u16
    } else {
        v as u16
    };
    out.push((u / 256) as u8);
    out.push((u % 256) as u8);
    assert(out@ =~= old(out)@ + short_bytes(v));
}

fn push_low_short(out: &mut Vec<u8>, v: usize)
    ensures
        final(out)@ == old(out)@ + low_short_bytes(v),
{
    out.push(((v / 256) % 256) as u8);
    out.push((v % 256) as u8);
    assert(out@ =~= old(out)@ + low_short_bytes(v));
}

fn push_delta(out: &mut Vec<u8>, d: i8)
    ensures
        final(out)@ == old(out)@.push(byte_of_delta(d)),
{
    let b: u8 = if d < 0 {
        (d as i16 + 256) as u8
    } else {
        d as u8
    };
    out.push(b);
}

fn delta_at(buffer: &[u8], at: usize) -> (d: i8)
    requires
        at < buffer.len(),
    ensures
        d == delta_of_byte(buffer@[at as int]),
{
    let b = buffer[at];
    if b >= 128 {
        (b as i16 - 256) as i8
    } else {
        b as i8
    }
}

pub(crate) fn push_all(out: &mut Vec<u8>, bytes: &[u8])
    ensures
        final(out)@ == old(out)@ + bytes@,
{
    let mut i: usize = 0;
    while i < bytes.len()
        invariant
            i <= bytes.len(),
            out@ == old(out)@ + bytes@.take(i as int),
        decreases bytes.len() - i,
    {
        out.push(bytes[i]);
        assert(out@ =~= old(out)@ + bytes@.take(i + 1));
        i += 1;
    }
    assert(bytes@.take(bytes.len() as int) =~= bytes@);
}

/// Copies the text field that starts at a position of the buffer.
fn field_at(buffer: &[u8], at: usize) -> (field: [u8; 64])
    requires
        at + 64 <= buffer.len(),
    ensures
        field@ == buffer@.subrange(at as int, at + 64),
{
    let mut field: [u8; 64] = [0u8; 64];
    let mut i: usize = 0;
    while i < 64
        invariant
            i <= 64,
            at + 64 <= buffer.len(),
            forall|k: int| 0 <= k < i ==> field@[k] == buffer@[at + k],
        decreases 64 - i,
    {
        field[i] = buffer[at + i];
        i += 1;
    }
    assert(field@ =~= buffer@.subrange(at as int, at + 64));
    field
}

/// Copies the level payload that starts at a position of the buffer.
fn chunk_at(buffer: &[u8], at: usize) -> (chunk: [u8; 1024])
    requires
        at + 1024 <= buffer.len(),
    ensures
        chunk@ == buffer@.subrange(at as int, at + 1024),
{
    let mut chunk: [u8; 1024] = [0u8; 1024];
    let mut i: usize = 0;
    while i < 1024
        invariant
            i <= 1024,
            at + 1024 <= buffer.len(),
            forall|k: int| 0 <= k < i ==> chunk@[k] == buffer@[at + k],
        decreases 1024 - i,
    {
        chunk[i] = buffer[at + i];
        i += 1;
    }
    assert(chunk@ =~= buffer@.subrange(at as int, at + 1024));
    chunk
}

/// Packets to be sent to the clients.
#[derive(Debug, Clone, Copy, PartialEq, Eq)]
pub enum ClientBound {
    /// Protocol version, server name, message of the day, user type.
    ServerIdentification(u8, MString, MString, u8),
    Ping,
    LevelInitialize,
    /// Length, payload, percent complete.
    LevelDataChunk(Short, ByteArray, u8),
    /// The dimensions of the level; their two low bytes travel.
    LevelFinalize(usize, usize, usize),
    /// Position and block byte.
    SetBlock(Short, Short, Short, u8),
    /// Player id, name, position, yaw, pitch.
    SpawnPlayer(u8, MString, Short, Short, Short, u8, u8),
    /// Player id, position, yaw, pitch.
    PlayerTeleport(u8, Short, Short, Short, u8, u8),
    /// Player id, change of position, yaw, pitch.
    PositionAndOrientationUpdate(u8, i8, i8, i8, u8, u8),
    /// Player id, change of position.
    PositionUpdate(u8, i8, i8, i8),
    /// Player id, yaw, pitch.
    OrientationUpdate(u8, u8, u8),
    DespawnPlayer(u8),
    /// Player id, text.
    Message(u8, MString),
    /// The reason.
    DisconnectPlayer(MString),
    UpdateUserType(u8),
}

/// The size table of the packets sent to clients.
pub open spec fn client_packet_size(id: u8) -> nat {
    match id {
        0x00 => 131,
        0x01 => 1,
        0x02 => 1,
        0x03 => 1028,
        0x04 => 7,
        0x06 => 8,
        0x07 => 74,
        0x08 => 10,
        0x09 => 7,
        0x0A => 5,
        0x0B => 4,
        0x0C => 2,
        0x0D => 66,
        0x0E => 65,
        0x0F => 2,
        _ => 0,
    }
}

/// A packet to a client, with its text fields and payloads as sequences of
/// bytes.
pub enum ClientBoundView {
    ServerIdentification(u8, Seq<u8>, Seq<u8>, u8),
    Ping,
    LevelInitialize,
    LevelDataChunk(Short, Seq<u8>, u8),
    LevelFinalize(usize, usize, usize),
    SetBlock(Short, Short, Short, u8),
    SpawnPlayer(u8, Seq<u8>, Short, Short, Short, u8, u8),
    PlayerTeleport(u8, Short, Short, Short, u8, u8),
    PositionAndOrientationUpdate(u8, i8, i8, i8, u8, u8),
    PositionUpdate(u8, i8, i8, i8),
    OrientationUpdate(u8, u8, u8),
    DespawnPlayer(u8),
    Message(u8, Seq<u8>),
    DisconnectPlayer(Seq<u8>),
    UpdateUserType(u8),
}

impl View for ClientBound {
    type V = ClientBoundView;

    open spec fn view(&self) -> ClientBoundView {
        match *self {
            ClientBound::ServerIdentification(version, name, motd, user_type) =>
                ClientBoundView::ServerIdentification(version, name@, motd@, user_type),
            ClientBound::Ping => ClientBoundView::Ping,
            ClientBound::LevelInitialize => ClientBoundView::LevelInitialize,
            ClientBound::LevelDataChunk(length, data, percent) => ClientBoundView::LevelDataChunk(
                length,
                data@,
                percent,
            ),
            ClientBound::LevelFinalize(width, height, depth) => ClientBoundView::LevelFinalize(
                width,
                height,
                depth,
            ),
            ClientBound::SetBlock(x, y, z, block) => ClientBoundView::SetBlock(x, y, z, block),
            ClientBound::SpawnPlayer(id, name, x, y, z, yaw, pitch) => ClientBoundView::SpawnPlayer(
                id,
                name@,
                x,
                y,
                z,
                yaw,
                pitch,
            ),
            ClientBound::PlayerTeleport(id, x, y, z, yaw, pitch) => ClientBoundView::PlayerTeleport(
                id,
                x,
                y,
                z,
                yaw,
                pitch,
            ),
            ClientBound::PositionAndOrientationUpdate(id, dx, dy, dz, yaw, pitch) =>
                ClientBoundView::PositionAndOrientationUpdate(id, dx, dy, dz, yaw, pitch),
            ClientBound::PositionUpdate(id, dx, dy, dz) => ClientBoundView::PositionUpdate(
                id,
                dx,
                dy,
                dz,
            ),
            ClientBound::OrientationUpdate(id, yaw, pitch) => ClientBoundView::OrientationUpdate(
                id,
                yaw,
                pitch,
            ),
            ClientBound::DespawnPlayer(id) => ClientBoundView::DespawnPlayer(id),
            ClientBound::Message(id, text) => ClientBoundView::Message(id, text@),
            ClientBound::DisconnectPlayer(reason) => ClientBoundView::DisconnectPlayer(reason@),
            ClientBound::UpdateUserType(user_type) => ClientBoundView::UpdateUserType(user_type),
        }
    }
}

impl ClientBoundView {
    /// The first byte of the packet on the wire.
    pub open spec fn opcode(&self) -> u8 {
        match *self {
            ClientBoundView::ServerIdentification(..) => 0x00,
            ClientBoundView::Ping => 0x01,
            ClientBoundView::LevelInitialize => 0x02,
            ClientBoundView::LevelDataChunk(..) => 0x03,
            ClientBoundView::LevelFinalize(..) => 0x04,
            ClientBoundView::SetBlock(..) => 0x06,
            ClientBoundView::SpawnPlayer(..) => 0x07,
            ClientBoundView::PlayerTeleport(..) => 0x08,
            ClientBoundView::PositionAndOrientationUpdate(..) => 0x09,
            ClientBoundView::PositionUpdate(..) => 0x0A,
            ClientBoundView::OrientationUpdate(..) => 0x0B,
            ClientBoundView::DespawnPlayer(..) => 0x0C,
            ClientBoundView::Message(..) => 0x0D,
            ClientBoundView::DisconnectPlayer(..) => 0x0E,
            ClientBoundView::UpdateUserType(..) => 0x0F,
        }
    }

    /// The bytes that follow the opcode.
    pub open spec fn body(&self) -> Seq<u8> {
        match *self {
            ClientBoundView::ServerIdentification(version, name, motd, user_type) => seq![version]
                + name + motd + seq![user_type],
            ClientBoundView::Ping => Seq::empty(),
            ClientBoundView::LevelInitialize => Seq::empty(),
            ClientBoundView::LevelDataChunk(length, data, percent) => short_bytes(length) + data
                + seq![percent],
            ClientBoundView::LevelFinalize(width, height, depth) => low_short_bytes(width)
                + low_short_bytes(height) + low_short_bytes(depth),
            ClientBoundView::SetBlock(x, y, z, block) => short_bytes(x) + short_bytes(y)
                + short_bytes(z) + seq![block],
            ClientBoundView::SpawnPlayer(id, name, x, y, z, yaw, pitch) => seq![id] + name
                + short_bytes(x) + short_bytes(y) + short_bytes(z) + seq![yaw, pitch],
            ClientBoundView::PlayerTeleport(id, x, y, z, yaw, pitch) => seq![id] + short_bytes(x)
                + short_bytes(y) + short_bytes(z) + seq![yaw, pitch],
            ClientBoundView::PositionAndOrientationUpdate(id, dx, dy, dz, yaw, pitch) => seq![
                id,
                byte_of_delta(dx),
                byte_of_delta(dy),
                byte_of_delta(dz),
                yaw,
                pitch,
            ],
            ClientBoundView::PositionUpdate(id, dx, dy, dz) => seq![
                id,
                byte_of_delta(dx),
                byte_of_delta(dy),
                byte_of_delta(dz),
            ],
            ClientBoundView::OrientationUpdate(id, yaw, pitch) => seq![id, yaw, pitch],
            ClientBoundView::DespawnPlayer(id) => seq![id],
            ClientBoundView::Message(id, text) => seq![id] + text,
            ClientBoundView::DisconnectPlayer(reason) => reason,
            ClientBoundView::UpdateUserType(user_type) => seq![user_type],
        }
    }

    /// The bytes that stand for the packet on the wire.
    pub open spec fn wire(&self) -> Seq<u8> {
        seq![self.opcode()] + self.body()
    }

    /// Whether the packet has the shape of a packet of the protocol: its
    /// text fields hold 64 bytes and its payload 1024.
    pub open spec fn well_formed(&self) -> bool {
        match *self {
            ClientBoundView::ServerIdentification(_, name, motd, _) => name.len() == 64
                && motd.len() == 64,
            ClientBoundView::LevelDataChunk(_, data, _) => data.len() == 1024,
            ClientBoundView::SpawnPlayer(_, name, _, _, _, _, _) => name.len() == 64,
            ClientBoundView::Message(_, text) => text.len() == 64,
            ClientBoundView::DisconnectPlayer(reason) => reason.len() == 64,
            _ => true,
        }
    }

    /// Whether the packet is the one that its own bytes decode to: the
    /// dimensions of a `LevelFinalize` fit in the two bytes that travel.
    pub open spec fn canonical(&self) -> bool {
        match *self {
            ClientBoundView::LevelFinalize(width, height, depth) => width < 0x1_0000 && height
                < 0x1_0000 && depth < 0x1_0000,
            _ => true,
        }
    }
}

impl ClientBound {
    /// The first byte of the packet on the wire.
    pub open spec fn opcode(&self) -> u8 {
        self@.opcode()
    }

    /// Whether the packet is the one that its own bytes decode to.
    pub open spec fn canonical(&self) -> bool {
        self@.canonical()
    }
}

/// The packets of a list, each with its fields as sequences of bytes.
pub open spec fn views(packets: Seq<ClientBound>) -> Seq<ClientBoundView> {
    Seq::new(packets.len(), |i: int| packets[i]@)
}

/// Two packets to a client with the same fields are the same packet.
pub proof fn lemma_client_view_injective(a: ClientBound, b: ClientBound)
    requires
        a@ == b@,
    ensures
        a == b,
{
    broadcast use vstd::array::group_array_axioms;

    match (a, b) {
        (
            ClientBound::ServerIdentification(_, name_a, motd_a, _),
            ClientBound::ServerIdentification(_, name_b, motd_b, _),
        ) => {
            assert(name_a@ == name_b@);
            assert(name_a =~= name_b);
            assert(motd_a@ == motd_b@);
            assert(motd_a =~= motd_b);
        },
        (ClientBound::LevelDataChunk(_, data_a, _), ClientBound::LevelDataChunk(_, data_b, _)) => {
            assert(data_a@ == data_b@);
            assert(data_a =~= data_b);
        },
        (
            ClientBound::SpawnPlayer(_, name_a, _, _, _, _, _),
            ClientBound::SpawnPlayer(_, name_b, _, _, _, _, _),
        ) => {
            assert(name_a@ == name_b@);
            assert(name_a =~= name_b);
        },
        (ClientBound::Message(_, text_a), ClientBound::Message(_, text_b)) => {
            assert(text_a@ == text_b@);
            assert(text_a =~= text_b);
        },
        (ClientBound::DisconnectPlayer(reason_a), ClientBound::DisconnectPlayer(reason_b)) => {
            assert(reason_a@ == reason_b@);
            assert(reason_a =~= reason_b);
        },
        _ => {},
    }
}

/// What the bytes of a packet to a client decode to: the fields, read off
/// at their places.
pub open spec fn client_decoded(buffer: Seq<u8>) -> ClientBoundView {
    match buffer[0] {
        0x00 => ClientBoundView::ServerIdentification(
            buffer[1],
            buffer.subrange(2, 66),
            buffer.subrange(66, 130),
            buffer[130],
        ),
        0x01 => ClientBoundView::Ping,
        0x02 => ClientBoundView::LevelInitialize,
        0x03 => ClientBoundView::LevelDataChunk(
            short_of_bytes(buffer[1], buffer[2]),
            buffer.subrange(3, 1027),
            buffer[1027],
        ),
        0x04 => ClientBoundView::LevelFinalize(
            (buffer[1] * 256 + buffer[2]) as usize,
            (buffer[3] * 256 + buffer[4]) as usize,
            (buffer[5] * 256 + buffer[6]) as usize,
        ),
        0x06 => ClientBoundView::SetBlock(
            short_of_bytes(buffer[1], buffer[2]),
            short_of_bytes(buffer[3], buffer[4]),
            short_of_bytes(buffer[5], buffer[6]),
            buffer[7],
        ),
        0x07 => ClientBoundView::SpawnPlayer(
            buffer[1],
            buffer.subrange(2, 66),
            short_of_bytes(buffer[66], buffer[67]),
            short_of_bytes(buffer[68], buffer[69]),
            short_of_bytes(buffer[70], buffer[71]),
            buffer[72],
            buffer[73],
        ),
        0x08 => ClientBoundView::PlayerTeleport(
            buffer[1],
            short_of_bytes(buffer[2], buffer[3]),
            short_of_bytes(buffer[4], buffer[5]),
            short_of_bytes(buffer[6], buffer[7]),
            buffer[8],
            buffer[9],
        ),
        0x09 => ClientBoundView::PositionAndOrientationUpdate(
            buffer[1],
            delta_of_byte(buffer[2]),
            delta_of_byte(buffer[3]),
            delta_of_byte(buffer[4]),
            buffer[5],
            buffer[6],
        ),
        0x0A => ClientBoundView::PositionUpdate(
            buffer[1],
            delta_of_byte(buffer[2]),
            delta_of_byte(buffer[3]),
            delta_of_byte(buffer[4]),
        ),
        0x0B => ClientBoundView::OrientationUpdate(buffer[1], buffer[2], buffer[3]),
        0x0C => ClientBoundView::DespawnPlayer(buffer[1]),
        0x0D => ClientBoundView::Message(buffer[1], buffer.subrange(2, 66)),
        0x0E => ClientBoundView::DisconnectPlayer(buffer.subrange(1, 65)),
        _ => ClientBoundView::UpdateUserType(buffer[1]),
    }
}

/// Two 16-bit integers with the same bytes are the same, and the bytes
/// of a 16-bit integer stand for it.
pub proof fn lemma_short_round_trip(v: i16)
    ensures
        short_bytes(v).len() == 2,
        short_of_bytes(short_bytes(v)[0], short_bytes(v)[1]) == v,
{
}

/// The bytes that stand for a 16-bit integer are the bytes of that integer.
pub proof fn lemma_bytes_round_trip(hi: u8, lo: u8)
    ensures
        short_bytes(short_of_bytes(hi, lo)) == seq![hi, lo],
{
    assert(short_bytes(short_of_bytes(hi, lo)) =~= seq![hi, lo]);
}

proof fn lemma_three_shorts(x: i16, y: i16, z: i16)
    ensures
        (short_bytes(x) + short_bytes(y) + short_bytes(z)).len() == 6,
        short_of_bytes(
            (short_bytes(x) + short_bytes(y) + short_bytes(z))[0],
            (short_bytes(x) + short_bytes(y) + short_bytes(z))[1],
        ) == x,
        short_of_bytes(
            (short_bytes(x) + short_bytes(y) + short_bytes(z))[2],
            (short_bytes(x) + short_bytes(y) + short_bytes(z))[3],
        ) == y,
        short_of_bytes(
            (short_bytes(x) + short_bytes(y) + short_bytes(z))[4],
            (short_bytes(x) + short_bytes(y) + short_bytes(z))[5],
        ) == z,
{
    lemma_short_round_trip(x);
    lemma_short_round_trip(y);
    lemma_short_round_trip(z);
    let all = short_bytes(x) + short_bytes(y) + short_bytes(z);
    assert(all[0] == short_bytes(x)[0] && all[1] == short_bytes(x)[1]);
    assert(all[2] == short_bytes(y)[0] && all[3] == short_bytes(y)[1]);
    assert(all[4] == short_bytes(z)[0] && all[5] == short_bytes(z)[1]);
}

proof fn lemma_decode_server_identification(version: u8, name: Seq<u8>, motd: Seq<u8>, user_type: u8)
    requires
        name.len() == 64,
        motd.len() == 64,
    ensures
        client_decoded(
            ClientBoundView::ServerIdentification(version, name, motd, user_type).wire(),
        ) == ClientBoundView::ServerIdentification(version, name, motd, user_type),
{
    let w = ClientBoundView::ServerIdentification(version, name, motd, user_type).wire();
    assert(w[0] == 0x00);
    assert(w.subrange(2, 66) =~= name);
    assert(w.subrange(66, 130) =~= motd);
}

proof fn lemma_decode_level_data_chunk(length: i16, data: Seq<u8>, percent: u8)
    requires
        data.len() == 1024,
    ensures
        client_decoded(ClientBoundView::LevelDataChunk(length, data, percent).wire())
            == ClientBoundView::LevelDataChunk(length, data, percent),
{
    let w = ClientBoundView::LevelDataChunk(length, data, percent).wire();
    lemma_short_round_trip(length);
    assert(w[0] == 0x03);
    assert(w[1] == short_bytes(length)[0] && w[2] == short_bytes(length)[1]);
    assert(w.subrange(3, 1027) =~= data);
    assert(w[1027] == percent);
}

proof fn lemma_decode_level_finalize(width: usize, height: usize, depth: usize)
    requires
        width < 0x1_0000,
        height < 0x1_0000,
        depth < 0x1_0000,
    ensures
        client_decoded(ClientBoundView::LevelFinalize(width, height, depth).wire())
            == ClientBoundView::LevelFinalize(width, height, depth),
{
    let w = ClientBoundView::LevelFinalize(width, height, depth).wire();
    assert(w[0] == 0x04);
    assert(w[1] == low_short_bytes(width)[0] && w[2] == low_short_bytes(width)[1]);
    assert(w[3] == low_short_bytes(height)[0] && w[4] == low_short_bytes(height)[1]);
    assert(w[5] == low_short_bytes(depth)[0] && w[6] == low_short_bytes(depth)[1]);
}

proof fn lemma_decode_set_block(x: i16, y: i16, z: i16, block: u8)
    ensures
        client_decoded(ClientBoundView::SetBlock(x, y, z, block).wire())
            == ClientBoundView::SetBlock(x, y, z, block),
{
    let w = ClientBoundView::SetBlock(x, y, z, block).wire();
    let shorts = short_bytes(x) + short_bytes(y) + short_bytes(z);
    lemma_three_shorts(x, y, z);
    assert(w[0] == 0x06);
    assert(w.subrange(1, 7) =~= shorts);
    assert(w[1] == shorts[0] && w[2] == shorts[1] && w[3] == shorts[2] && w[4] == shorts[3]
        && w[5] == shorts[4] && w[6] == shorts[5]);
    assert(w[7] == block);
}

proof fn lemma_decode_spawn_player(
    id: u8,
    name: Seq<u8>,
    x: i16,
    y: i16,
    z: i16,
    yaw: u8,
    pitch: u8,
)
    requires
        name.len() == 64,
    ensures
        client_decoded(ClientBoundView::SpawnPlayer(id, name, x, y, z, yaw, pitch).wire())
            == ClientBoundView::SpawnPlayer(id, name, x, y, z, yaw, pitch),
{
    let w = ClientBoundView::SpawnPlayer(id, name, x, y, z, yaw, pitch).wire();
    let shorts = short_bytes(x) + short_bytes(y) + short_bytes(z);
    lemma_three_shorts(x, y, z);
    assert(w[0] == 0x07);
    assert(w[1] == id);
    assert(w.subrange(2, 66) =~= name);
    assert(w.subrange(66, 72) =~= shorts);
    assert(w[66] == shorts[0] && w[67] == shorts[1] && w[68] == shorts[2] && w[69] == shorts[3]
        && w[70] == shorts[4] && w[71] == shorts[5]);
    assert(w[72] == yaw && w[73] == pitch);
}

proof fn lemma_decode_player_teleport(id: u8, x: i16, y: i16, z: i16, yaw: u8, pitch: u8)
    ensures
        client_decoded(ClientBoundView::PlayerTeleport(id, x, y, z, yaw, pitch).wire())
            == ClientBoundView::PlayerTeleport(id, x, y, z, yaw, pitch),
{
    let w = ClientBoundView::PlayerTeleport(id, x, y, z, yaw, pitch).wire();
    let shorts = short_bytes(x) + short_bytes(y) + short_bytes(z);
    lemma_three_shorts(x, y, z);
    assert(w[0] == 0x08);
    assert(w[1] == id);
    assert(w.subrange(2, 8) =~= shorts);
    assert(w[2] == shorts[0] && w[3] == shorts[1] && w[4] == shorts[2] && w[5] == shorts[3]
        && w[6] == shorts[4] && w[7] == shorts[5]);
    assert(w[8] == yaw && w[9] == pitch);
}

proof fn lemma_decode_message(id: u8, text: Seq<u8>)
    requires
        text.len() == 64,
    ensures
        client_decoded(ClientBoundView::Message(id, text).wire()) == ClientBoundView::Message(
            id,
            text,
        ),
{
    let w = ClientBoundView::Message(id, text).wire();
    assert(w[0] == 0x0D);
    assert(w[1] == id);
    assert(w.subrange(2, 66) =~= text);
}

proof fn lemma_decode_disconnect_player(reason: Seq<u8>)
    requires
        reason.len() == 64,
    ensures
        client_decoded(ClientBoundView::DisconnectPlayer(reason).wire())
            == ClientBoundView::DisconnectPlayer(reason),
{
    let w = ClientBoundView::DisconnectPlayer(reason).wire();
    assert(w[0] == 0x0E);
    assert(w.subrange(1, 65) =~= reason);
}

/// The bytes of a packet to a client decode to the packet, if the packet
/// has the shape of a packet of the protocol and its dimensions fit in the
/// bytes that travel.
pub proof fn lemma_client_decode_wire(packet: ClientBoundView)
    requires
        packet.well_formed(),
        packet.canonical(),
    ensures
        client_decoded(packet.wire()) == packet,
{
    match packet {
        ClientBoundView::ServerIdentification(version, name, motd, user_type) => {
            lemma_decode_server_identification(version, name, motd, user_type);
        },
        ClientBoundView::Ping => {},
        ClientBoundView::LevelInitialize => {},
        ClientBoundView::LevelDataChunk(length, data, percent) => {
            lemma_decode_level_data_chunk(length, data, percent);
        },
        ClientBoundView::LevelFinalize(width, height, depth) => {
            lemma_decode_level_finalize(width, height, depth);
        },
        ClientBoundView::SetBlock(x, y, z, block) => {
            lemma_decode_set_block(x, y, z, block);
        },
        ClientBoundView::SpawnPlayer(id, name, x, y, z, yaw, pitch) => {
            lemma_decode_spawn_player(id, name, x, y, z, yaw, pitch);
        },
        ClientBoundView::PlayerTeleport(id, x, y, z, yaw, pitch) => {
            lemma_decode_player_teleport(id, x, y, z, yaw, pitch);
        },
        ClientBoundView::PositionAndOrientationUpdate(id, dx, dy, dz, yaw, pitch) => {
            let w = packet.wire();
            assert(w[0] == 0x09 && w[1] == id && w[2] == byte_of_delta(dx) && w[3]
                == byte_of_delta(dy) && w[4] == byte_of_delta(dz) && w[5] == yaw && w[6] == pitch);
        },
        ClientBoundView::PositionUpdate(id, dx, dy, dz) => {
            let w = packet.wire();
            assert(w[0] == 0x0A && w[1] == id && w[2] == byte_of_delta(dx) && w[3]
                == byte_of_delta(dy) && w[4] == byte_of_delta(dz));
        },
        ClientBoundView::OrientationUpdate(id, yaw, pitch) => {
            let w = packet.wire();
            assert(w[0] == 0x0B && w[1] == id && w[2] == yaw && w[3] == pitch);
        },
        ClientBoundView::DespawnPlayer(id) => {
            let w = packet.wire();
            assert(w[0] == 0x0C && w[1] == id);
        },
        ClientBoundView::Message(id, text) => {
            lemma_decode_message(id, text);
        },
        ClientBoundView::DisconnectPlayer(reason) => {
            lemma_decode_disconnect_player(reason);
        },
        ClientBoundView::UpdateUserType(user_type) => {
            let w = packet.wire();
            assert(w[0] == 0x0F && w[1] == user_type);
        },
    }
}

/// The bytes of a packet to a client tell what the packet is: two packets
/// of the protocol's shape with the same bytes, both with dimensions that
/// fit in the bytes that travel, are the same packet.
pub proof fn lemma_client_wire_injective(a: ClientBoundView, b: ClientBoundView)
    requires
        a.well_formed(),
        b.well_formed(),
        a.canonical(),
        b.canonical(),
        a.wire() == b.wire(),
    ensures
        a == b,
{
    lemma_client_decode_wire(a);
    lemma_client_decode_wire(b);
}

/// Decoding undoes encoding: what the decoder makes of the bytes of a
/// packet whose dimensions fit in the bytes that travel is that packet.
pub proof fn lemma_client_round_trip(packet: ClientBound, bytes: &[u8], decoded: ClientBound)
    requires
        packet.canonical(),
        bytes@ == packet.wire(),
        <ClientBound as Packet<&[u8]>>::decodes_to(bytes, &decoded),
    ensures
        <ClientBound as Packet<&[u8]>>::can_decode(bytes),
        decoded == packet,
{
    lemma_client_view_well_formed(packet);
    lemma_client_wire_layout(packet@);
    lemma_client_decode_wire(packet@);
    lemma_client_view_injective(packet, decoded);
}

/// Every packet to a client has the shape of a packet of the protocol.
pub proof fn lemma_client_view_well_formed(packet: ClientBound)
    ensures
        packet@.well_formed(),
{
    broadcast use vstd::array::group_array_axioms;

}

/// A packet to a client starts with its opcode, and has the length that the
/// size table gives for that opcode.
pub proof fn lemma_client_wire_layout(packet: ClientBoundView)
    requires
        packet.well_formed(),
    ensures
        packet.wire().len() >= 1,
        packet.wire()[0] == packet.opcode(),
        packet.wire().len() == client_packet_size(packet.opcode()),
        client_packet_size(packet.opcode()) > 0,
{
}

fn decode_server_identification(buffer: &[u8]) -> (packet: ClientBound)
    requires
        buffer.len() >= 131,
        buffer@[0] == 0x00,
    ensures
        packet@ == client_decoded(buffer@),
{
    broadcast use vstd::array::group_array_axioms;

    let packet = ClientBound::ServerIdentification(
        buffer[1],
        field_at(buffer, 2),
        field_at(buffer, 66),
        buffer[130],
    );
    packet
}

fn decode_level_data_chunk(buffer: &[u8]) -> (packet: ClientBound)
    requires
        buffer.len() >= 1028,
        buffer@[0] == 0x03,
    ensures
        packet@ == client_decoded(buffer@),
{
    broadcast use vstd::array::group_array_axioms;

    let packet = ClientBound::LevelDataChunk(
        short_at(buffer, 1),
        chunk_at(buffer, 3),
        buffer[1027],
    );
    packet
}

fn decode_level_finalize(buffer: &[u8]) -> (packet: ClientBound)
    requires
        buffer.len() >= 7,
        buffer@[0] == 0x04,
    ensures
        packet@ == client_decoded(buffer@),
{
    let packet = ClientBound::LevelFinalize(
        buffer[1] as usize * 256 + buffer[2] as usize,
        buffer[3] as usize * 256 + buffer[4] as usize,
        buffer[5] as usize * 256 + buffer[6] as usize,
    );
    packet
}

fn decode_set_block(buffer: &[u8]) -> (packet: ClientBound)
    requires
        buffer.len() >= 8,
        buffer@[0] == 0x06,
    ensures
        packet@ == client_decoded(buffer@),
{
    let packet = ClientBound::SetBlock(
        short_at(buffer, 1),
        short_at(buffer, 3),
        short_at(buffer, 5),
        buffer[7],
    );
    packet
}

fn decode_spawn_player(buffer: &[u8]) -> (packet: ClientBound)
    requires
        buffer.len() >= 74,
        buffer@[0] == 0x07,
    ensures
        packet@ == client_decoded(buffer@),
{
    broadcast use vstd::array::group_array_axioms;

    let packet = ClientBound::SpawnPlayer(
        buffer[1],
        field_at(buffer, 2),
        short_at(buffer, 66),
        short_at(buffer, 68),
        short_at(buffer, 70),
        buffer[72],
        buffer[73],
    );
    packet
}

fn decode_player_teleport(buffer: &[u8]) -> (packet: ClientBound)
    requires
        buffer.len() >= 10,
        buffer@[0] == 0x08,
    ensures
        packet@ == client_decoded(buffer@),
{
    let packet = ClientBound::PlayerTeleport(
        buffer[1],
        short_at(buffer, 2),
        short_at(buffer, 4),
        short_at(buffer, 6),
        buffer[8],
        buffer[9],
    );
    packet
}

fn decode_position_and_orientation_update(buffer: &[u8]) -> (packet: ClientBound)
    requires
        buffer.len() >= 7,
        buffer@[0] == 0x09,
    ensures
        packet@ == client_decoded(buffer@),
{
    let packet = ClientBound::PositionAndOrientationUpdate(
        buffer[1],
        delta_at(buffer, 2),
        delta_at(buffer, 3),
        delta_at(buffer, 4),
        buffer[5],
        buffer[6],
    );
    packet
}

fn decode_position_update(buffer: &[u8]) -> (packet: ClientBound)
    requires
        buffer.len() >= 5,
        buffer@[0] == 0x0A,
    ensures
        packet@ == client_decoded(buffer@),
{
    let packet = ClientBound::PositionUpdate(
        buffer[1],
        delta_at(buffer, 2),
        delta_at(buffer, 3),
        delta_at(buffer, 4),
    );
    packet
}

fn decode_message(buffer: &[u8]) -> (packet: ClientBound)
    requires
        buffer.len() >= 66,
        buffer@[0] == 0x0D,
    ensures
        packet@ == client_decoded(buffer@),
{
    broadcast use vstd::array::group_array_axioms;

    let packet = ClientBound::Message(buffer[1], field_at(buffer, 2));
    packet
}

fn decode_disconnect_player(buffer: &[u8]) -> (packet: ClientBound)
    requires
        buffer.len() >= 65,
        buffer@[0] == 0x0E,
    ensures
        packet@ == client_decoded(buffer@),
{
    broadcast use vstd::array::group_array_axioms;

    let packet = ClientBound::DisconnectPlayer(field_at(buffer, 1));
    packet
}

impl<'a> Packet<&'a [u8]> for ClientBound {
    open spec fn wire(&self) -> Seq<u8> {
        self@.wire()
    }

    open spec fn wire_size(id: u8) -> nat {
        client_packet_size(id)
    }

    open spec fn can_decode(buffer: &'a [u8]) -> bool {
        &&& buffer@.len() >= 1
        &&& client_packet_size(buffer@[0]) > 0
        &&& buffer@.len() >= client_packet_size(buffer@[0])
    }

    open spec fn decodes_to(buffer: &'a [u8], packet: &Self) -> bool {
        packet@ == client_decoded(buffer@)
    }

    fn from(buffer: &'a [u8]) -> (packet: Self) {
        match buffer[0] {
            0x00 => decode_server_identification(buffer),
            0x01 => {
                ClientBound::Ping
            },
            0x02 => {
                ClientBound::LevelInitialize
            },
            0x03 => decode_level_data_chunk(buffer),
            0x04 => decode_level_finalize(buffer),
            0x06 => decode_set_block(buffer),
            0x07 => decode_spawn_player(buffer),
            0x08 => decode_player_teleport(buffer),
            0x09 => decode_position_and_orientation_update(buffer),
            0x0A => decode_position_update(buffer),
            0x0B => {
                let packet = ClientBound::OrientationUpdate(buffer[1], buffer[2], buffer[3]);
                            packet
            },
            0x0C => {
                let packet = ClientBound::DespawnPlayer(buffer[1]);
                            packet
            },
            0x0D => decode_message(buffer),
            0x0E => decode_disconnect_player(buffer),
            _ => {
                let packet = ClientBound::UpdateUserType(buffer[1]);
                            packet
            },
        }
    }

    fn into(&self) -> (bytes: Vec<u8>) {
        broadcast use vstd::array::group_array_axioms;

        let mut bytes: Vec<u8> = Vec::new();
        match self {
            ClientBound::ServerIdentification(version, name, motd, user_type) => {
                bytes.push(0x00);
                bytes.push(*version);
                push_all(&mut bytes, name.as_slice());
                push_all(&mut bytes, motd.as_slice());
                bytes.push(*user_type);
                assert(bytes@ =~= self.wire());
            },
            ClientBound::Ping => {
                bytes.push(0x01);
                assert(bytes@ =~= self.wire());
            },
            ClientBound::LevelInitialize => {
                bytes.push(0x02);
                assert(bytes@ =~= self.wire());
            },
            ClientBound::LevelDataChunk(length, data, percent) => {
                bytes.push(0x03);
                push_short(&mut bytes, *length);
                push_all(&mut bytes, data.as_slice());
                bytes.push(*percent);
                assert(bytes@ =~= self.wire());
            },
            ClientBound::LevelFinalize(width, height, depth) => {
                bytes.push(0x04);
                push_low_short(&mut bytes, *width);
                push_low_short(&mut bytes, *height);
                push_low_short(&mut bytes, *depth);
                assert(bytes@ =~= self.wire());
            },
            ClientBound::SetBlock(x, y, z, block) => {
                bytes.push(0x06);
                push_short(&mut bytes, *x);
                push_short(&mut bytes, *y);
                push_short(&mut bytes, *z);
                bytes.push(*block);
                assert(bytes@ =~= self.wire());
            },
            ClientBound::SpawnPlayer(id, name, x, y, z, yaw, pitch) => {
                bytes.push(0x07);
                bytes.push(*id);
                push_all(&mut bytes, name.as_slice());
                push_short(&mut bytes, *x);
                push_short(&mut bytes, *y);
                push_short(&mut bytes, *z);
                bytes.push(*yaw);
                bytes.push(*pitch);
                assert(bytes@ =~= self.wire());
            },
            ClientBound::PlayerTeleport(id, x, y, z, yaw, pitch) => {
                bytes.push(0x08);
                bytes.push(*id);
                push_short(&mut bytes, *x);
                push_short(&mut bytes, *y);
                push_short(&mut bytes, *z);
                bytes.push(*yaw);
                bytes.push(*pitch);
                assert(bytes@ =~= self.wire());
            },
            ClientBound::PositionAndOrientationUpdate(id, dx, dy, dz, yaw, pitch) => {
                bytes.push(0x09);
                bytes.push(*id);
                push_delta(&mut bytes, *dx);
                push_delta(&mut bytes, *dy);
                push_delta(&mut bytes, *dz);
                bytes.push(*yaw);
                bytes.push(*pitch);
                assert(bytes@ =~= self.wire());
            },
            ClientBound::PositionUpdate(id, dx, dy, dz) => {
                bytes.push(0x0A);
                bytes.push(*id);
                push_delta(&mut bytes, *dx);
                push_delta(&mut bytes, *dy);
                push_delta(&mut bytes, *dz);
                assert(bytes@ =~= self.wire());
            },
            ClientBound::OrientationUpdate(id, yaw, pitch) => {
                bytes.push(0x0B);
                bytes.push(*id);
                bytes.push(*yaw);
                bytes.push(*pitch);
                assert(bytes@ =~= self.wire());
            },
            ClientBound::DespawnPlayer(id) => {
                bytes.push(0x0C);
                bytes.push(*id);
                assert(bytes@ =~= self.wire());
            },
            ClientBound::Message(id, text) => {
                bytes.push(0x0D);
                bytes.push(*id);
                push_all(&mut bytes, text.as_slice());
                assert(bytes@ =~= self.wire());
            },
            ClientBound::DisconnectPlayer(reason) => {
                bytes.push(0x0E);
                push_all(&mut bytes, reason.as_slice());
                assert(bytes@ =~= self.wire());
            },
            ClientBound::UpdateUserType(user_type) => {
                bytes.push(0x0F);
                bytes.push(*user_type);
                assert(bytes@ =~= self.wire());
            },
        }
        bytes
    }

    fn size(id: u8) -> (n: usize) {
        match id {
            0x00 => 131,
            0x01 => 1,
            0x02 => 1,
            0x03 => 1028,
            0x04 => 7,
            0x06 => 8,
            0x07 => 74,
            0x08 => 10,
            0x09 => 7,
            0x0A => 5,
            0x0B => 4,
            0x0C => 2,
            0x0D => 66,
            0x0E => 65,
            0x0F => 2,
            _ => 0,
        }
    }
}

/// Packets to be sent to servers.
#[derive(Debug, PartialEq, Eq)]
pub enum ServerBound {
    /// Protocol version, user name, verification key, and a byte that is
    /// not used and always decodes as `0x00`.
    PlayerIdentification(u8, String, String, u8),
    /// Position, mode (`0x00` breaks, anything else places), block byte.
    SetBlock(Short, Short, Short, u8, u8),
    /// Player id, position, yaw, pitch.
    PositionAndOrientation(u8, Short, Short, Short, u8, u8),
    /// A byte that is not used, and the text.
    Message(u8, String),
    /// A packet with an opcode that this family does not have.
    UnknownPacket,
}

/// A packet to a server, with its text as sequences of characters.
pub enum ServerBoundView {
    PlayerIdentification(u8, Seq<char>, Seq<char>, u8),
    SetBlock(Short, Short, Short, u8, u8),
    PositionAndOrientation(u8, Short, Short, Short, u8, u8),
    Message(u8, Seq<char>),
    UnknownPacket,
}

impl View for ServerBound {
    type V = ServerBoundView;

    open spec fn view(&self) -> ServerBoundView {
        match *self {
            ServerBound::PlayerIdentification(version, name, key, unused) =>
                ServerBoundView::PlayerIdentification(version, name@, key@, unused),
            ServerBound::SetBlock(x, y, z, mode, block) => ServerBoundView::SetBlock(
                x,
                y,
                z,
                mode,
                block,
            ),
            ServerBound::PositionAndOrientation(id, x, y, z, yaw, pitch) =>
                ServerBoundView::PositionAndOrientation(id, x, y, z, yaw, pitch),
            ServerBound::Message(unused, text) => ServerBoundView::Message(unused, text@),
            ServerBound::UnknownPacket => ServerBoundView::UnknownPacket,
        }
    }
}

/// The size table of the packets sent to servers.
pub open spec fn server_packet_size(id: u8) -> nat {
    match id {
        0x00 => 131,
        0x05 => 9,
        0x08 => 10,
        0x0d => 66,
        _ => 0,
    }
}

/// Whether the bytes of a text, taken up to their first zero byte, are
/// well-formed UTF-8.
pub open spec fn text_is_valid(bytes: Seq<u8>) -> bool {
    valid_utf8(until_nul(bytes))
}

/// The text that bytes hold: the characters that the bytes before the first
/// zero byte encode.
pub open spec fn text_of(bytes: Seq<u8>) -> Seq<char> {
    decode_utf8(until_nul(bytes))
}

/// A name or a key: the text that the bytes hold, without its spaces.
pub open spec fn word_of(bytes: Seq<u8>) -> Seq<char> {
    without_char(text_of(bytes), ' ')
}

/// Whether a buffer can be decoded as a packet to a server: it is long
/// enough for what its opcode announces, and its text is well-formed. The
/// last byte of a `PlayerIdentification` is not read, and a `Message` takes
/// the whole rest of the buffer as its text. A buffer with any other opcode
/// decodes as `UnknownPacket`.
pub open spec fn server_can_decode(buffer: Seq<u8>) -> bool {
    &&& buffer.len() >= 1
    &&& match buffer[0] {
        0x00 => buffer.len() >= 130 && text_is_valid(buffer.subrange(2, 66)) && text_is_valid(
            buffer.subrange(66, 130),
        ),
        0x05 => buffer.len() >= 9,
        0x08 => buffer.len() >= 10,
        0x0d => buffer.len() >= 2 && text_is_valid(buffer.skip(2)),
        _ => true,
    }
}

/// What a buffer decodes to as a packet to a server.
pub open spec fn server_decoded(buffer: Seq<u8>) -> ServerBoundView {
    match buffer[0] {
        0x00 => ServerBoundView::PlayerIdentification(
            buffer[1],
            word_of(buffer.subrange(2, 66)),
            word_of(buffer.subrange(66, 130)),
            0x00,
        ),
        0x05 => ServerBoundView::SetBlock(
            short_of_bytes(buffer[1], buffer[2]),
            short_of_bytes(buffer[3], buffer[4]),
            short_of_bytes(buffer[5], buffer[6]),
            buffer[7],
            buffer[8],
        ),
        0x08 => ServerBoundView::PositionAndOrientation(
            buffer[1],
            short_of_bytes(buffer[2], buffer[3]),
            short_of_bytes(buffer[4], buffer[5]),
            short_of_bytes(buffer[6], buffer[7]),
            buffer[8],
            buffer[9],
        ),
        0x0d => ServerBoundView::Message(buffer[1], text_of(buffer.skip(2))),
        _ => ServerBoundView::UnknownPacket,
    }
}

/// Reads the text that bytes hold, if it is well-formed.
fn read_text(bytes: &[u8]) -> (text: Option<String>)
    ensures
        text is Some <==> text_is_valid(bytes@),
        text matches Some(s) ==> s@ == text_of(bytes@),
{
    string_from_utf8(take_until_nul(bytes))
}

/// Reads the name or key that bytes hold, if their text is well-formed.
fn read_word(bytes: &[u8]) -> (word: Option<String>)
    ensures
        word is Some <==> text_is_valid(bytes@),
        word matches Some(s) ==> s@ == word_of(bytes@),
{
    match read_text(bytes) {
        Some(text) => Some(remove_char(text.as_str(), ' ')),
        None => None,
    }
}

impl ServerBound {
    /// The first byte of the packet on the wire; an unknown packet has none.
    pub open spec fn opcode(&self) -> Option<u8> {
        match *self {
            ServerBound::PlayerIdentification(..) => Some(0x00u8),
            ServerBound::SetBlock(..) => Some(0x05u8),
            ServerBound::PositionAndOrientation(..) => Some(0x08u8),
            ServerBound::Message(..) => Some(0x0du8),
            ServerBound::UnknownPacket => None,
        }
    }

    /// Decodes the packet at the start of a buffer, if there is a whole
    /// packet with well-formed text.
    pub fn decode(buffer: &[u8]) -> (packet: Option<ServerBound>)
        ensures
            packet is Some <==> server_can_decode(buffer@),
            packet matches Some(p) ==> p@ == server_decoded(buffer@),
    {
        if buffer.len() < 1 {
            return None;
        }
        match buffer[0] {
            0x00 => {
                if buffer.len() < 130 {
                    return None;
                }
                let name = read_word(slice_subrange(buffer, 2, 66));
                let key = read_word(slice_subrange(buffer, 66, 130));
                match (name, key) {
                    (Some(name), Some(key)) => Some(
                        ServerBound::PlayerIdentification(buffer[1], name, key, 0x00),
                    ),
                    _ => None,
                }
            },
            0x05 => {
                if buffer.len() < 9 {
                    return None;
                }
                Some(
                    ServerBound::SetBlock(
                        short_at(buffer, 1),
                        short_at(buffer, 3),
                        short_at(buffer, 5),
                        buffer[7],
                        buffer[8],
                    ),
                )
            },
            0x08 => {
                if buffer.len() < 10 {
                    return None;
                }
                Some(
                    ServerBound::PositionAndOrientation(
                        buffer[1],
                        short_at(buffer, 2),
                        short_at(buffer, 4),
                        short_at(buffer, 6),
                        buffer[8],
                        buffer[9],
                    ),
                )
            },
            0x0d => {
                if buffer.len() < 2 {
                    return None;
                }
                assert(buffer@.subrange(2, buffer@.len() as int) =~= buffer@.skip(2));
                match read_text(slice_subrange(buffer, 2, buffer.len())) {
                    Some(text) => Some(ServerBound::Message(buffer[1], text)),
                    None => None,
                }
            },
            _ => Some(ServerBound::UnknownPacket),
        }
    }
}

impl<'a> Packet<&'a [u8]> for ServerBound {
    open spec fn wire(&self) -> Seq<u8> {
        match *self {
            ServerBound::PlayerIdentification(version, name, key, unused) => seq![0x00u8, version]
                + padded(encode_utf8(name@)) + padded(encode_utf8(key@)) + seq![unused],
            ServerBound::SetBlock(x, y, z, mode, block) => seq![0x05u8] + short_bytes(x)
                + short_bytes(y) + short_bytes(z) + seq![mode, block],
            ServerBound::PositionAndOrientation(id, x, y, z, yaw, pitch) => seq![0x08u8, id]
                + short_bytes(x) + short_bytes(y) + short_bytes(z) + seq![yaw, pitch],
            ServerBound::Message(unused, text) => seq![0x0du8, unused] + padded(
                encode_utf8(text@),
            ),
            ServerBound::UnknownPacket => Seq::empty(),
        }
    }

    open spec fn wire_size(id: u8) -> nat {
        server_packet_size(id)
    }

    open spec fn can_decode(buffer: &'a [u8]) -> bool {
        server_can_decode(buffer@)
    }

    open spec fn decodes_to(buffer: &'a [u8], packet: &Self) -> bool {
        packet@ == server_decoded(buffer@)
    }

    fn from(buffer: &'a [u8]) -> (packet: Self) {
        match ServerBound::decode(buffer) {
            Some(packet) => packet,
            None => vstd::pervasive::unreached(),
        }
    }

    fn into(&self) -> (bytes: Vec<u8>) {
        broadcast use vstd::array::group_array_axioms;

        let mut bytes: Vec<u8> = Vec::new();
        match self {
            ServerBound::PlayerIdentification(version, name, key, unused) => {
                bytes.push(0x00);
                bytes.push(*version);
                let name_field = encode_bytes(name.as_str().as_bytes());
                push_all(&mut bytes, name_field.as_slice());
                let key_field = encode_bytes(key.as_str().as_bytes());
                push_all(&mut bytes, key_field.as_slice());
                bytes.push(*unused);
            },
            ServerBound::SetBlock(x, y, z, mode, block) => {
                bytes.push(0x05);
                push_short(&mut bytes, *x);
                push_short(&mut bytes, *y);
                push_short(&mut bytes, *z);
                bytes.push(*mode);
                bytes.push(*block);
            },
            ServerBound::PositionAndOrientation(id, x, y, z, yaw, pitch) => {
                bytes.push(0x08);
                bytes.push(*id);
                push_short(&mut bytes, *x);
                push_short(&mut bytes, *y);
                push_short(&mut bytes, *z);
                bytes.push(*yaw);
                bytes.push(*pitch);
            },
            ServerBound::Message(unused, text) => {
                bytes.push(0x0d);
                bytes.push(*unused);
                let field = encode_bytes(text.as_str().as_bytes());
                push_all(&mut bytes, field.as_slice());
            },
            ServerBound::UnknownPacket => {},
        }
        assert(bytes@ =~= self.wire());
        bytes
    }

    fn size(id: u8) -> (n: usize) {
        match id {
            0x00 => 131,
            0x05 => 9,
            0x08 => 10,
            0x0d => 66,
            _ => 0,
        }
    }
}

/// A packet to a server other than an unknown one starts with its opcode,
/// and has the length that the size table gives for that opcode.
pub proof fn lemma_server_wire_layout(packet: ServerBound)
    requires
        packet.opcode() is Some,
    ensures
        packet.wire().len() >= 1,
        packet.wire()[0] == packet.opcode()->0,
        packet.wire().len() == server_packet_size(packet.opcode()->0),
{
}

/// The bytes of a packet to a server that holds no text decode to the
/// packet.
pub proof fn lemma_server_decode_wire(packet: ServerBound)
    requires
        packet is SetBlock || packet is PositionAndOrientation,
    ensures
        server_can_decode(packet.wire()),
        server_decoded(packet.wire()) == packet@,
{
    let w = packet.wire();
    match packet {
        ServerBound::SetBlock(x, y, z, mode, block) => {
            let shorts = short_bytes(x) + short_bytes(y) + short_bytes(z);
            lemma_three_shorts(x, y, z);
            assert(w[0] == 0x05);
            assert(w.subrange(1, 7) =~= shorts);
            assert(w[1] == shorts[0] && w[2] == shorts[1] && w[3] == shorts[2] && w[4]
                == shorts[3] && w[5] == shorts[4] && w[6] == shorts[5]);
            assert(w[7] == mode && w[8] == block);
        },
        ServerBound::PositionAndOrientation(id, x, y, z, yaw, pitch) => {
            let shorts = short_bytes(x) + short_bytes(y) + short_bytes(z);
            lemma_three_shorts(x, y, z);
            assert(w[0] == 0x08);
            assert(w[1] == id);
            assert(w.subrange(2, 8) =~= shorts);
            assert(w[2] == shorts[0] && w[3] == shorts[1] && w[4] == shorts[2] && w[5]
                == shorts[3] && w[6] == shorts[4] && w[7] == shorts[5]);
            assert(w[8] == yaw && w[9] == pitch);
        },
        _ => {},
    }
}

} // verus!
