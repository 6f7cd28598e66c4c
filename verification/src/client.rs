//! A session: what one connected player is, and what the server does with
//! each packet that the player sends.
//!
//! A session starts out waiting for a `PlayerIdentification`. Until a valid
//! one has come, every other packet is left aside. After that the session
//! is active: block edits change the world, moves and chat are passed on.
//! What a packet brings about is made of three lists of packets: those that
//! are written to the player at once, those that are echoed to the player at
//! the end of the tick, and those that are broadcast to every other player.

use crate::auth::{expected_key, key_is_valid};
use crate::block::{block_of_byte, byte_of_block, Block};
use crate::chat::{chat_line, collapse, collapse_whitespace, make_chat_line, message_packets, split_line};
use crate::config::Config;
use crate::framing::{all_decodable, decoded_frames, frames, read_packets, server_views};
use crate::packets::{push_all, views, ClientBound, ClientBoundView, ServerBound, ServerBoundView};
use crate::stream::{cut_level, gather_packets, level_chunks, level_payload, wires, write_buffers};
use crate::text::{encode_bytes, encode_string, padded};
use crate::world::{gzip_stream, snapshot_payload, unix_time, ClassicWorld, WorldView};
use vstd::prelude::*;
use vstd::string::StringSliceAdditionalSpecFns;
use vstd::utf8::encode_utf8;

verus! {

/// The protocol version that the server speaks.
pub const PROTOCOL_VERSION: u8 = 7;

/// The player id that stands for the player who gets the packet, and for
/// the server where a message has no player as its sender.
pub const SELF_ID: u8 = 0xFF;

/// The user type of a standard player.
pub const STANDARD_USER: u8 = 0x00;

/// The user type of an operator.
pub const OPERATOR: u8 = 0x64;

/// What is added to the height that a player reports: the player reports
/// the height of the eyes.
pub const EYE_OFFSET: i16 = 3;

/// A connected player.
pub struct Client {
    username: String,
    ip: String,
    id: u8,
    /// The rank of the user, 0x64 for op, 0x00 for normal.
    user_type: u8,
    logged_in: bool,
    current_x: i16,
    current_y: i16,
    current_z: i16,
    current_yaw: u8,
    current_pitch: u8,
    flying: bool,
}

/// What a connected player is: identity and pose.
pub struct ClientView {
    pub username: Seq<char>,
    pub ip: Seq<char>,
    pub id: u8,
    pub user_type: u8,
    pub logged_in: bool,
    pub x: i16,
    pub y: i16,
    pub z: i16,
    pub yaw: u8,
    pub pitch: u8,
    pub flying: bool,
}

/// The settings that a session goes by.
pub struct Settings {
    /// The name of the server, as bytes.
    pub name: Seq<u8>,
    /// The message of the day, as bytes.
    pub motd: Seq<u8>,
    /// Whether players have to prove that they logged in.
    pub online_mode: bool,
    /// The salt of the server, as bytes.
    pub salt: Seq<u8>,
}

/// What a packet, or a run of packets, brings about.
pub struct Step {
    /// The player afterwards.
    pub client: ClientView,
    /// The world afterwards.
    pub world: WorldView,
    /// The packets that are written to the player at once.
    pub immediate: Seq<ClientBoundView>,
    /// The packets that are echoed to the player at the end of the tick.
    pub echo: Seq<ClientBoundView>,
    /// The packets for every other player.
    pub broadcast: Seq<ClientBoundView>,
    /// Whether the session ends.
    pub shutdown: bool,
}

/// What one tick of a session hands to the hub.
pub struct Tick {
    /// The packets for the player, in the order in which they are written.
    pub replies: Vec<ClientBound>,
    /// The packets for every other player.
    pub broadcast: Vec<ClientBound>,
    /// Whether the session ends: the socket is to be closed.
    pub shutdown: bool,
}

/// The settings that a salt and a configuration amount to.
pub open spec fn settings_of(salt: Seq<char>, config: &Config) -> Settings {
    Settings {
        name: encode_utf8(config.server.name@),
        motd: encode_utf8(config.server.motd@),
        online_mode: config.server.online_mode,
        salt: encode_utf8(salt),
    }
}

/// The reason given to a player who did not log in.
pub open spec fn rejection() -> Seq<u8> {
    "You are not logged in to Minecraft".spec_bytes()
}

/// What the server says of a player who joined, after the name.
pub open spec fn joined_suffix() -> Seq<u8> {
    " joined the Server".spec_bytes()
}

/// What the server says of a player who left, after the name.
pub open spec fn left_suffix() -> Seq<u8> {
    " left the Server".spec_bytes()
}

/// The point where players enter a world, in thirty-seconds of a block:
/// the middle of the world, two blocks above half its height.
pub open spec fn spawn_point(world: WorldView) -> (i16, i16, i16) {
    (
        ((world.x / 2) * 32 + 16) as i16,
        ((world.y / 2 + 2) * 32) as i16,
        ((world.z / 2) * 32 + 16) as i16,
    )
}

/// The height of a player who reports the height `y`: three more, or the
/// largest height there is.
pub open spec fn raised(y: i16) -> i16 {
    if y > i16::MAX - EYE_OFFSET {
        i16::MAX
    } else {
        (y + EYE_OFFSET) as i16
    }
}

/// Whether a change of one coordinate is small enough to be sent as a
/// change.
pub open spec fn is_small(delta: int) -> bool {
    -16 <= delta <= 15
}

impl ClientView {
    /// The name of the player, as bytes.
    pub open spec fn name_bytes(&self) -> Seq<u8> {
        encode_utf8(self.username)
    }

    /// The packet that shows the player to another player.
    pub open spec fn spawn_self(&self) -> ClientBoundView {
        ClientBoundView::SpawnPlayer(
            self.id,
            padded(self.name_bytes()),
            self.x,
            self.y,
            self.z,
            self.yaw,
            self.pitch,
        )
    }

    /// The packets that take the player away from the other players.
    pub open spec fn despawn_self(&self) -> Seq<ClientBoundView> {
        seq![
            ClientBoundView::DespawnPlayer(self.id),
            ClientBoundView::Message(SELF_ID, padded(self.name_bytes() + left_suffix())),
        ]
    }

    /// The packet that tells the other players of a move to the pose
    /// `(x, y, z, yaw, pitch)`, if there is anything to tell. A move of more
    /// than a few thirty-seconds of a block is told as a teleport.
    pub open spec fn movement(&self, x: i16, y: i16, z: i16, yaw: u8, pitch: u8) -> Seq<
        ClientBoundView,
    > {
        let dx = x - self.x;
        let dy = y - self.y;
        let dz = z - self.z;
        let moved = dx != 0 || dy != 0 || dz != 0;
        let turned = yaw != self.yaw || pitch != self.pitch;
        if moved && !(is_small(dx) && is_small(dy) && is_small(dz)) {
            seq![ClientBoundView::PlayerTeleport(self.id, x, y, z, yaw, pitch)]
        } else if moved && turned {
            seq![
                ClientBoundView::PositionAndOrientationUpdate(
                    self.id,
                    dx as i8,
                    dy as i8,
                    dz as i8,
                    yaw,
                    pitch,
                ),
            ]
        } else if moved {
            seq![ClientBoundView::PositionUpdate(self.id, dx as i8, dy as i8, dz as i8)]
        } else if turned {
            seq![ClientBoundView::OrientationUpdate(self.id, yaw, pitch)]
        } else {
            Seq::empty()
        }
    }
}

/// A packet that changes nothing and sends nothing.
pub open spec fn idle(client: ClientView, world: WorldView) -> Step {
    Step {
        client,
        world,
        immediate: Seq::empty(),
        echo: Seq::empty(),
        broadcast: Seq::empty(),
        shutdown: false,
    }
}

/// What a `PlayerIdentification` brings about. From a player who has
/// identified it is left aside. Without a name it ends the session. In
/// online mode a key other than the expected one gets the player the
/// rejection and ends the session. Else the player is logged in under the
/// name, gets the identification of the server and the level, and is put at
/// the spawn point; the other players are shown the player and told of it.
pub open spec fn identify(
    client: ClientView,
    world: WorldView,
    name: Seq<char>,
    key: Seq<char>,
    settings: Settings,
) -> Step {
    if client.logged_in {
        idle(client, world)
    } else if name.len() == 0 {
        Step { shutdown: true, ..idle(client, world) }
    } else if settings.online_mode && encode_utf8(key) != expected_key(
        settings.salt,
        encode_utf8(name),
    ) {
        Step {
            immediate: seq![ClientBoundView::DisconnectPlayer(padded(rejection()))],
            shutdown: true,
            ..idle(client, world)
        }
    } else {
        let spawn = spawn_point(world);
        let joined = ClientView {
            username: name,
            logged_in: true,
            x: spawn.0,
            y: spawn.1,
            z: spawn.2,
            yaw: 0,
            pitch: 0,
            ..client
        };
        Step {
            client: joined,
            world,
            immediate: seq![
                ClientBoundView::ServerIdentification(
                    PROTOCOL_VERSION,
                    padded(settings.name),
                    padded(settings.motd),
                    STANDARD_USER,
                ),
                ClientBoundView::LevelInitialize,
            ] + level_chunks(gzip_stream(snapshot_payload(world.blocks))) + seq![
                ClientBoundView::LevelFinalize(world.x as usize, world.y as usize, world.z as usize),
                ClientBoundView::PlayerTeleport(SELF_ID, spawn.0, spawn.1, spawn.2, 0, 0),
            ],
            echo: Seq::empty(),
            broadcast: seq![
                joined.spawn_self(),
                ClientBoundView::Message(SELF_ID, padded(encode_utf8(name) + joined_suffix())),
            ],
            shutdown: false,
        }
    }
}

/// What a `SetBlock` brings about, at the time `now`. From a player who has
/// not identified, or for a cell outside the world, it is left aside. Mode 0
/// breaks: bedrock stays and is echoed; anything else gives way to air,
/// which is echoed and broadcast. Any other mode places: the cell is echoed
/// as air, then the effective write is echoed and broadcast.
pub open spec fn edit(
    client: ClientView,
    world: WorldView,
    x: i16,
    y: i16,
    z: i16,
    mode: u8,
    block: u8,
    now: u64,
) -> Step {
    if !client.logged_in || !world.contains(x as int, y as int, z as int) {
        idle(client, world)
    } else if mode == 0 {
        if world.block(x as int, y as int, z as int) == Block::Bedrock {
            Step {
                echo: seq![ClientBoundView::SetBlock(x, y, z, byte_of_block(Block::Bedrock))],
                ..idle(client, world)
            }
        } else {
            let cleared = ClientBoundView::SetBlock(x, y, z, byte_of_block(Block::Air));
            Step {
                world: world.after_set(x as int, y as int, z as int, Block::Air, now),
                echo: seq![cleared],
                broadcast: seq![cleared],
                ..idle(client, world)
            }
        }
    } else {
        let placed = block_of_byte(block);
        let effect = world.effect_of(x as int, y as int, z as int, placed);
        let written = ClientBoundView::SetBlock(
            effect.0 as i16,
            effect.1 as i16,
            effect.2 as i16,
            byte_of_block(effect.3),
        );
        Step {
            world: world.after_set(x as int, y as int, z as int, placed, now),
            echo: seq![ClientBoundView::SetBlock(x, y, z, byte_of_block(Block::Air)), written],
            broadcast: seq![written],
            ..idle(client, world)
        }
    }
}

/// What a `PositionAndOrientation` brings about. From a player who has not
/// identified it is left aside. Else the height is raised, the other players
/// are told of the move, and the pose is kept.
pub open spec fn relocate(
    client: ClientView,
    world: WorldView,
    x: i16,
    y: i16,
    z: i16,
    yaw: u8,
    pitch: u8,
) -> Step {
    if !client.logged_in {
        idle(client, world)
    } else {
        Step {
            client: ClientView { x, y: raised(y), z, yaw, pitch, ..client },
            broadcast: client.movement(x, raised(y), z, yaw, pitch),
            ..idle(client, world)
        }
    }
}

/// What a `Message` brings about. From a player who has not identified it
/// is left aside. Else its words, joined by single spaces, are put behind
/// the name of the player, and the line is echoed and broadcast.
pub open spec fn say(client: ClientView, world: WorldView, text: Seq<char>) -> Step {
    if !client.logged_in {
        idle(client, world)
    } else {
        let packets = message_packets(
            client.id,
            chat_line(client.name_bytes(), collapse(encode_utf8(text))),
        );
        Step { echo: packets, broadcast: packets, ..idle(client, world) }
    }
}

/// What a packet brings about.
pub open spec fn step(
    client: ClientView,
    world: WorldView,
    packet: ServerBoundView,
    settings: Settings,
    now: u64,
) -> Step {
    match packet {
        ServerBoundView::PlayerIdentification(_, name, key, _) => identify(
            client,
            world,
            name,
            key,
            settings,
        ),
        ServerBoundView::SetBlock(x, y, z, mode, block) => edit(
            client,
            world,
            x,
            y,
            z,
            mode,
            block,
            now,
        ),
        ServerBoundView::PositionAndOrientation(_, x, y, z, yaw, pitch) => relocate(
            client,
            world,
            x,
            y,
            z,
            yaw,
            pitch,
        ),
        ServerBoundView::Message(_, text) => say(client, world, text),
        ServerBoundView::UnknownPacket => idle(client, world),
    }
}

/// What a run of packets brings about: what each of them brings about in
/// turn, up to the one that ends the session.
pub open spec fn run(
    client: ClientView,
    world: WorldView,
    packets: Seq<ServerBoundView>,
    settings: Settings,
    now: u64,
) -> Step
    decreases packets.len(),
{
    if packets.len() == 0 {
        idle(client, world)
    } else {
        let before = run(client, world, packets.drop_last(), settings, now);
        if before.shutdown {
            before
        } else {
            let last = step(before.client, before.world, packets.last(), settings, now);
            Step {
                client: last.client,
                world: last.world,
                immediate: before.immediate + last.immediate,
                echo: before.echo + last.echo,
                broadcast: before.broadcast + last.broadcast,
                shutdown: last.shutdown,
            }
        }
    }
}

/// What is written to the player in a tick: what was written at once, then
/// the echoes, then a `Ping` unless the session ends.
pub open spec fn replies_of(ran: Step) -> Seq<ClientBoundView> {
    if ran.shutdown {
        ran.immediate + ran.echo
    } else {
        ran.immediate + ran.echo + seq![ClientBoundView::Ping]
    }
}

/// What a buffer brings about in a tick at the time `now`, for a player in
/// a world: what the packets that it holds bring about.
pub open spec fn tick_of(
    client: ClientView,
    world: WorldView,
    buffer: Seq<u8>,
    settings: Settings,
    now: u64,
) -> Step {
    run(client, world, decoded_frames(frames(buffer, client.logged_in)), settings, now)
}

/// Whether a tick is what a buffer brings about at the time `now`.
pub open spec fn is_tick_of(
    tick: Tick,
    after: ClientView,
    world_after: WorldView,
    client: ClientView,
    world: WorldView,
    buffer: Seq<u8>,
    settings: Settings,
    now: u64,
) -> bool {
    let ran = tick_of(client, world, buffer, settings, now);
    &&& after == ran.client
    &&& world_after == ran.world
    &&& views(tick.replies@) == replies_of(ran)
    &&& views(tick.broadcast@) == ran.broadcast
    &&& tick.shutdown == ran.shutdown
}

struct Outbox {
    immediate: Vec<ClientBound>,
    echo: Vec<ClientBound>,
    broadcast: Vec<ClientBound>,
    shutdown: bool,
}

fn emit(list: &mut Vec<ClientBound>, packet: ClientBound)
    ensures
        views(final(list)@) == views(old(list)@).push(packet@),
{
    list.push(packet);
    assert(views(list@) =~= views(old(list)@).push(packet@));
}

pub(crate) fn emit_all(list: &mut Vec<ClientBound>, packets: &Vec<ClientBound>)
    ensures
        views(final(list)@) == views(old(list)@) + views(packets@),
{
    let mut i: usize = 0;
    while i < packets.len()
        invariant
            i <= packets.len(),
            views(list@) == views(old(list)@) + views(packets@).take(i as int),
        decreases packets.len() - i,
    {
        let ghost before = list@;
        list.push(packets[i]);
        assert(views(list@) =~= views(before).push(packets@[i as int]@));
        assert(views(packets@).take(i + 1) =~= views(packets@).take(i as int).push(
            packets@[i as int]@,
        ));
        assert(views(list@) =~= views(old(list)@) + views(packets@).take(i + 1));
        i += 1;
    }
    assert(views(packets@).take(packets.len() as int) =~= views(packets@));
}

impl View for Client {
    type V = ClientView;

    closed spec fn view(&self) -> ClientView {
        ClientView {
            username: self.username@,
            ip: self.ip@,
            id: self.id,
            user_type: self.user_type,
            logged_in: self.logged_in,
            x: self.current_x,
            y: self.current_y,
            z: self.current_z,
            yaw: self.current_yaw,
            pitch: self.current_pitch,
            flying: self.flying,
        }
    }
}

impl Outbox {
    spec fn holds(&self, client: ClientView, world: WorldView, ran: Step) -> bool {
        &&& client == ran.client
        &&& world == ran.world
        &&& views(self.immediate@) == ran.immediate
        &&& views(self.echo@) == ran.echo
        &&& views(self.broadcast@) == ran.broadcast
        &&& self.shutdown == ran.shutdown
    }

    spec fn extended(&self, before: Outbox, last: Step) -> bool {
        &&& views(self.immediate@) == views(before.immediate@) + last.immediate
        &&& views(self.echo@) == views(before.echo@) + last.echo
        &&& views(self.broadcast@) == views(before.broadcast@) + last.broadcast
        &&& self.shutdown == last.shutdown
    }
}

proof fn lemma_nothing_added(list: Seq<ClientBoundView>)
    ensures
        list + Seq::<ClientBoundView>::empty() == list,
{
    assert(list + Seq::<ClientBoundView>::empty() =~= list);
}

/// The level that a player is sent on identifying is the world: the
/// payloads of the level pieces among what is written at once start with
/// the gzip stream of the number of blocks and the blocks of the world, and
/// what follows are the zeros that fill the last piece.
pub proof fn lemma_login_carries_world(
    client: ClientView,
    world: WorldView,
    name: Seq<char>,
    key: Seq<char>,
    settings: Settings,
)
    requires
        identify(client, world, name, key, settings).client.logged_in,
        !client.logged_in,
    ensures
        level_payload(identify(client, world, name, key, settings).immediate).take(
            gzip_stream(snapshot_payload(world.blocks)).len() as int,
        ) == gzip_stream(snapshot_payload(world.blocks)),
        forall|k: int|
            gzip_stream(snapshot_payload(world.blocks)).len() <= k < level_payload(
                identify(client, world, name, key, settings).immediate,
            ).len() ==> level_payload(identify(client, world, name, key, settings).immediate)[k]
                == 0,
{
    let stream = gzip_stream(snapshot_payload(world.blocks));
    let written = identify(client, world, name, key, settings).immediate;
    let spawn = spawn_point(world);
    let head = seq![
        ClientBoundView::ServerIdentification(
            PROTOCOL_VERSION,
            padded(settings.name),
            padded(settings.motd),
            STANDARD_USER,
        ),
        ClientBoundView::LevelInitialize,
    ];
    let tail = seq![
        ClientBoundView::LevelFinalize(world.x as usize, world.y as usize, world.z as usize),
        ClientBoundView::PlayerTeleport(SELF_ID, spawn.0, spawn.1, spawn.2, 0, 0),
    ];
    assert(written == head + level_chunks(stream) + tail);
    crate::stream::lemma_level_payload_concat(head + level_chunks(stream), tail);
    crate::stream::lemma_level_payload_concat(head, level_chunks(stream));
    assert(level_payload(head) =~= Seq::<u8>::empty()) by {
        reveal_with_fuel(level_payload, 3);
    }
    assert(level_payload(tail) =~= Seq::<u8>::empty()) by {
        reveal_with_fuel(level_payload, 3);
    }
    crate::stream::lemma_level_chunks_carry_stream(stream);
    assert(level_payload(written) =~= level_payload(level_chunks(stream)));
}

/// A packet leaves the id and the address of the player alone.
pub proof fn lemma_step_keeps_identity(
    client: ClientView,
    world: WorldView,
    packet: ServerBoundView,
    settings: Settings,
    now: u64,
)
    ensures
        step(client, world, packet, settings, now).client.id == client.id,
        step(client, world, packet, settings, now).client.ip == client.ip,
{
}

/// A run of packets leaves the id and the address of the player alone.
pub proof fn lemma_run_keeps_identity(
    client: ClientView,
    world: WorldView,
    packets: Seq<ServerBoundView>,
    settings: Settings,
    now: u64,
)
    ensures
        run(client, world, packets, settings, now).client.id == client.id,
        run(client, world, packets, settings, now).client.ip == client.ip,
    decreases packets.len(),
{
    if packets.len() > 0 {
        lemma_run_keeps_identity(client, world, packets.drop_last(), settings, now);
        let before = run(client, world, packets.drop_last(), settings, now);
        lemma_step_keeps_identity(before.client, before.world, packets.last(), settings, now);
    }
}

/// Once a packet of a run has ended the session, the packets behind it
/// bring nothing about.
pub proof fn lemma_run_stops(
    client: ClientView,
    world: WorldView,
    packets: Seq<ServerBoundView>,
    settings: Settings,
    now: u64,
    i: int,
)
    requires
        0 <= i <= packets.len(),
        run(client, world, packets.take(i), settings, now).shutdown,
    ensures
        run(client, world, packets, settings, now) == run(
            client,
            world,
            packets.take(i),
            settings,
            now,
        ),
    decreases packets.len(),
{
    if i < packets.len() {
        let before = packets.drop_last();
        assert(before.take(i) =~= packets.take(i));
        lemma_run_stops(client, world, before, settings, now, i);
    } else {
        assert(packets.take(i) =~= packets);
    }
}

impl Client {
    /// A player who has just connected, with the id that the hub gave and
    /// the address of the other end.
    pub fn new(id: u8, ip: String) -> (client: Self)
        ensures
            client@ == (ClientView {
                username: Seq::empty(),
                ip: ip@,
                id,
                user_type: STANDARD_USER,
                logged_in: false,
                x: 0,
                y: 0,
                z: 0,
                yaw: 0,
                pitch: 0,
                flying: false,
            }),
    {
        Self {
            username: String::new(),
            ip,
            id,
            user_type: STANDARD_USER,
            logged_in: false,
            current_x: 0,
            current_y: 0,
            current_z: 0,
            current_yaw: 0,
            current_pitch: 0,
            flying: false,
        }
    }

    /// The id of the player.
    pub fn get_id(&self) -> (id: u8)
        ensures
            id == self@.id,
    {
        self.id
    }

    /// The address that the player connected from.
    pub fn get_ip(&self) -> (ip: String)
        ensures
            ip@ == self@.ip,
    {
        self.ip.clone()
    }

    /// The name of the player; empty until the player has identified.
    pub fn get_username(&self) -> (name: &str)
        ensures
            name@ == self@.username,
    {
        self.username.as_str()
    }

    /// Whether the player has identified.
    pub fn is_logged_in(&self) -> (logged_in: bool)
        ensures
            logged_in == self@.logged_in,
    {
        self.logged_in
    }

    /// The pose of the player: the position, in thirty-seconds of a block,
    /// then yaw and pitch.
    pub fn get_pose(&self) -> (pose: (i16, i16, i16, u8, u8))
        ensures
            pose == (self@.x, self@.y, self@.z, self@.yaw, self@.pitch),
    {
        (self.current_x, self.current_y, self.current_z, self.current_yaw, self.current_pitch)
    }

    /// The rank of the player: `0x64` for an operator, `0x00` for a
    /// standard player.
    pub fn get_user_type(&self) -> (user_type: u8)
        ensures
            user_type == self@.user_type,
    {
        self.user_type
    }

    /// The name of the player as a text field.
    pub fn get_username_as_bytes(&self) -> (field: [u8; 64])
        ensures
            field@ == padded(self@.name_bytes()),
    {
        encode_string(self.username.as_str())
    }

    /// The packet that shows the player to another player.
    pub fn spawn_self(&self) -> (packet: ClientBound)
        ensures
            packet@ == self@.spawn_self(),
    {
        ClientBound::SpawnPlayer(
            self.id,
            self.get_username_as_bytes(),
            self.current_x,
            self.current_y,
            self.current_z,
            self.current_yaw,
            self.current_pitch,
        )
    }

    /// The packets that take the player away from the other players: the
    /// despawn, and the word that the player left.
    pub fn despawn_self(&self) -> (packets: [ClientBound; 2])
        ensures
            views(packets@) == self@.despawn_self(),
    {
        broadcast use vstd::array::group_array_axioms;

        let mut text: Vec<u8> = Vec::new();
        push_all(&mut text, self.username.as_str().as_bytes());
        push_all(&mut text, " left the Server".as_bytes());
        let packets = [
            ClientBound::DespawnPlayer(self.id),
            ClientBound::Message(SELF_ID, encode_bytes(text.as_slice())),
        ];
        assert(views(packets@) =~= self@.despawn_self());
        packets
    }

    /// The packet that tells the player why the session ends.
    pub fn disconnect(&self, msg: &str) -> (packets: Vec<ClientBound>)
        ensures
            views(packets@) == seq![ClientBoundView::DisconnectPlayer(padded(msg.spec_bytes()))],
    {
        let mut packets: Vec<ClientBound> = Vec::new();
        packets.push(ClientBound::DisconnectPlayer(encode_string(msg)));
        assert(views(packets@) =~= seq![
            ClientBoundView::DisconnectPlayer(padded(msg.spec_bytes())),
        ]);
        packets
    }

    /// The packets that carry a line of chat from a sender: the message
    /// behind the name of the sender, cut into runs of 64 bytes.
    pub fn build_message(&self, sender_name: &str, sender_id: u8, msg: &str) -> (packets: Vec<
        ClientBound,
    >)
        ensures
            views(packets@) == message_packets(
                sender_id,
                chat_line(sender_name.spec_bytes(), msg.spec_bytes()),
            ),
    {
        let line = make_chat_line(sender_name.as_bytes(), msg.as_bytes());
        split_line(sender_id, line.as_slice())
    }

    /// The packets that carry the level to the player: the compressed
    /// world, cut into payloads of 1024 bytes.
    pub fn send_blocks(&self, world: &ClassicWorld) -> (packets: Vec<ClientBound>)
        ensures
            views(packets@) == level_chunks(gzip_stream(snapshot_payload(world@.blocks))),
    {
        let compressed = world.gzip_snapshot();
        cut_level(compressed.as_slice())
    }

    /// The buffers in which messages are written to the player, gathered
    /// as any other packets are.
    pub fn send_message(&self, messages: &Vec<ClientBound>) -> (buffers: Vec<Vec<u8>>)
        ensures
            buffers@.len() == write_buffers(wires(messages@)).len(),
            forall|j: int|
                0 <= j < buffers@.len() ==> (#[trigger] buffers@[j])@ == write_buffers(
                    wires(messages@),
                )[j],
    {
        self.write_packets(messages)
    }

    /// The buffers in which packets are written to the player: of at most
    /// 1460 bytes each, a packet that does not fit in what is left of a
    /// buffer starting the next one.
    pub fn write_packets(&self, packets: &Vec<ClientBound>) -> (buffers: Vec<Vec<u8>>)
        ensures
            buffers@.len() == write_buffers(wires(packets@)).len(),
            forall|j: int|
                0 <= j < buffers@.len() ==> (#[trigger] buffers@[j])@ == write_buffers(
                    wires(packets@),
                )[j],
    {
        gather_packets(packets)
    }
}

impl Client {
    fn handle_identification(
        &mut self,
        name: &String,
        key: &String,
        salt: &str,
        config: &Config,
        world: &ClassicWorld,
        out: &mut Outbox,
    )
        requires
            !old(out).shutdown,
        ensures
            final(self)@ == identify(
                old(self)@,
                world@,
                name@,
                key@,
                settings_of(salt@, config),
            ).client,
            final(out).extended(
                *old(out),
                identify(old(self)@, world@, name@, key@, settings_of(salt@, config)),
            ),
    {
        proof {
            lemma_nothing_added(views(out.immediate@));
            lemma_nothing_added(views(out.echo@));
            lemma_nothing_added(views(out.broadcast@));
        }
        if self.logged_in {
            return ;
        }
        if name.as_str().is_empty() {
            out.shutdown = true;
            return ;
        }
        if config.server.online_mode && !key_is_valid(salt, name.as_str(), key.as_str()) {
            let ghost before = views(out.immediate@);
            emit(
                &mut out.immediate,
                ClientBound::DisconnectPlayer(encode_string("You are not logged in to Minecraft")),
            );
            assert(views(out.immediate@) =~= before + seq![
                ClientBoundView::DisconnectPlayer(padded(rejection())),
            ]);
            out.shutdown = true;
            return ;
        }
        let size = world.get_size();
        let width = size[0];
        let height = size[1];
        let depth = size[2];
        let x: i16 = ((width / 2) * 32 + 16) as i16;
        let y: i16 = ((height / 2 + 2) * 32) as i16;
        let z: i16 = ((depth / 2) * 32 + 16) as i16;
        let ghost before = views(out.immediate@);
        let ghost heard = views(out.broadcast@);
        emit(
            &mut out.immediate,
            ClientBound::ServerIdentification(
                PROTOCOL_VERSION,
                encode_string(config.server.name.as_str()),
                encode_string(config.server.motd.as_str()),
                STANDARD_USER,
            ),
        );
        emit(&mut out.immediate, ClientBound::LevelInitialize);
        let chunks = self.send_blocks(world);
        emit_all(&mut out.immediate, &chunks);
        emit(&mut out.immediate, ClientBound::LevelFinalize(width, height, depth));
        emit(&mut out.immediate, ClientBound::PlayerTeleport(SELF_ID, x, y, z, 0, 0));
        self.username = name.clone();
        self.logged_in = true;
        self.current_x = x;
        self.current_y = y;
        self.current_z = z;
        self.current_yaw = 0;
        self.current_pitch = 0;
        emit(&mut out.broadcast, self.spawn_self());
        let mut text: Vec<u8> = Vec::new();
        push_all(&mut text, name.as_str().as_bytes());
        push_all(&mut text, " joined the Server".as_bytes());
        emit(&mut out.broadcast, ClientBound::Message(SELF_ID, encode_bytes(text.as_slice())));
        proof {
            let last = identify(old(self)@, world@, name@, key@, settings_of(salt@, config));
            assert(views(out.immediate@) =~= before + last.immediate);
            assert(views(out.broadcast@) =~= heard + last.broadcast);
        }
    }

    fn handle_set_block(
        &self,
        x: i16,
        y: i16,
        z: i16,
        mode: u8,
        block: u8,
        world: &mut ClassicWorld,
        now: u64,
        out: &mut Outbox,
    )
        requires
            !old(out).shutdown,
        ensures
            final(world)@ == edit(self@, old(world)@, x, y, z, mode, block, now).world,
            final(out).extended(*old(out), edit(self@, old(world)@, x, y, z, mode, block, now)),
    {
        proof {
            lemma_nothing_added(views(out.immediate@));
            lemma_nothing_added(views(out.echo@));
            lemma_nothing_added(views(out.broadcast@));
        }
        if !self.logged_in || x < 0 || y < 0 || z < 0 {
            return ;
        }
        let cell = (x as usize, y as usize, z as usize);
        if !world.contains(cell.0, cell.1, cell.2) {
            return ;
        }
        let ghost echoed = views(out.echo@);
        let ghost heard = views(out.broadcast@);
        let ghost last = edit(self@, old(world)@, x, y, z, mode, block, now);
        if mode == 0 {
            if world.get_block(cell.0, cell.1, cell.2) == Block::Bedrock {
                emit(&mut out.echo, ClientBound::SetBlock(x, y, z, u8::from(Block::Bedrock)));
                assert(views(out.echo@) =~= echoed + last.echo);
            } else {
                world.set_block_at(cell.0, cell.1, cell.2, Block::Air, now);
                let cleared = ClientBound::SetBlock(x, y, z, u8::from(Block::Air));
                emit(&mut out.echo, cleared);
                emit(&mut out.broadcast, cleared);
                assert(views(out.echo@) =~= echoed + last.echo);
                assert(views(out.broadcast@) =~= heard + last.broadcast);
            }
        } else {
            let placed = Block::from(block);
            let effect = world.set_block_at(cell.0, cell.1, cell.2, placed, now);
            let written = ClientBound::SetBlock(
                effect.0 as i16,
                effect.1 as i16,
                effect.2 as i16,
                u8::from(effect.3),
            );
            emit(&mut out.echo, ClientBound::SetBlock(x, y, z, u8::from(Block::Air)));
            emit(&mut out.echo, written);
            emit(&mut out.broadcast, written);
            assert(views(out.echo@) =~= echoed + last.echo);
            assert(views(out.broadcast@) =~= heard + last.broadcast);
        }
    }

    fn handle_position(
        &mut self,
        x: i16,
        y: i16,
        z: i16,
        yaw: u8,
        pitch: u8,
        Ghost(world): Ghost<WorldView>,
        out: &mut Outbox,
    )
        requires
            !old(out).shutdown,
        ensures
            final(self)@ == relocate(old(self)@, world, x, y, z, yaw, pitch).client,
            final(out).extended(*old(out), relocate(old(self)@, world, x, y, z, yaw, pitch)),
    {
        proof {
            lemma_nothing_added(views(out.immediate@));
            lemma_nothing_added(views(out.echo@));
            lemma_nothing_added(views(out.broadcast@));
        }
        if !self.logged_in {
            return ;
        }
        let y: i16 = if y > i16::MAX - EYE_OFFSET {
            i16::MAX
        } else {
            y + EYE_OFFSET
        };
        let dx: i32 = x as i32 - self.current_x as i32;
        let dy: i32 = y as i32 - self.current_y as i32;
        let dz: i32 = z as i32 - self.current_z as i32;
        let moved = dx != 0 || dy != 0 || dz != 0;
        let turned = yaw != self.current_yaw || pitch != self.current_pitch;
        let small = -16 <= dx && dx <= 15 && -16 <= dy && dy <= 15 && -16 <= dz && dz <= 15;
        let ghost heard = views(out.broadcast@);
        let ghost told = old(self)@.movement(x, y, z, yaw, pitch);
        if moved && !small {
            emit(&mut out.broadcast, ClientBound::PlayerTeleport(self.id, x, y, z, yaw, pitch));
        } else if moved && turned {
            emit(
                &mut out.broadcast,
                ClientBound::PositionAndOrientationUpdate(
                    self.id,
                    dx as i8,
                    dy as i8,
                    dz as i8,
                    yaw,
                    pitch,
                ),
            );
        } else if moved {
            emit(&mut out.broadcast, ClientBound::PositionUpdate(self.id, dx as i8, dy as i8, dz as i8));
        } else if turned {
            emit(&mut out.broadcast, ClientBound::OrientationUpdate(self.id, yaw, pitch));
        }
        assert(views(out.broadcast@) =~= heard + told);
        self.current_x = x;
        self.current_y = y;
        self.current_z = z;
        self.current_yaw = yaw;
        self.current_pitch = pitch;
    }

    fn handle_message(&self, text: &String, Ghost(world): Ghost<WorldView>, out: &mut Outbox)
        requires
            !old(out).shutdown,
        ensures
            final(out).extended(*old(out), say(self@, world, text@)),
    {
        proof {
            lemma_nothing_added(views(out.immediate@));
            lemma_nothing_added(views(out.echo@));
            lemma_nothing_added(views(out.broadcast@));
        }
        if !self.logged_in {
            return ;
        }
        let words = collapse_whitespace(text.as_str().as_bytes());
        let line = make_chat_line(self.username.as_str().as_bytes(), words.as_slice());
        let packets = split_line(self.id, line.as_slice());
        emit_all(&mut out.echo, &packets);
        emit_all(&mut out.broadcast, &packets);
    }

    fn handle_packet(
        &mut self,
        packet: &ServerBound,
        salt: &str,
        config: &Config,
        world: &mut ClassicWorld,
        now: u64,
        out: &mut Outbox,
    )
        requires
            !old(out).shutdown,
        ensures
            final(self)@ == step(
                old(self)@,
                old(world)@,
                packet@,
                settings_of(salt@, config),
                now,
            ).client,
            final(world)@ == step(
                old(self)@,
                old(world)@,
                packet@,
                settings_of(salt@, config),
                now,
            ).world,
            final(out).extended(
                *old(out),
                step(old(self)@, old(world)@, packet@, settings_of(salt@, config), now),
            ),
    {
        match packet {
            ServerBound::PlayerIdentification(_, name, key, _) => {
                self.handle_identification(name, key, salt, config, world, out);
            },
            ServerBound::SetBlock(x, y, z, mode, block) => {
                self.handle_set_block(*x, *y, *z, *mode, *block, world, now, out);
            },
            ServerBound::PositionAndOrientation(_, x, y, z, yaw, pitch) => {
                self.handle_position(*x, *y, *z, *yaw, *pitch, Ghost(world@), out);
            },
            ServerBound::Message(_, text) => {
                self.handle_message(text, Ghost(world@), out);
            },
            ServerBound::UnknownPacket => {
                proof {
                    lemma_nothing_added(views(out.immediate@));
                    lemma_nothing_added(views(out.echo@));
                    lemma_nothing_added(views(out.broadcast@));
                }
            },
        }
    }

    /// Handles one inbound buffer at the time `now`: cuts it into packets
    /// and lets each of them take its effect on the player and the world.
    /// `None`, with nothing changed, if the text of one of the packets is
    /// not well-formed.
    pub fn handle_connect_at(
        &mut self,
        buffer: &[u8],
        salt: &str,
        config: &Config,
        world: &mut ClassicWorld,
        now: u64,
    ) -> (tick: Option<Tick>)
        ensures
            tick is Some <==> all_decodable(frames(buffer@, old(self)@.logged_in)),
            tick is None ==> final(self)@ == old(self)@ && final(world)@ == old(world)@,
            tick matches Some(t) ==> is_tick_of(
                t,
                final(self)@,
                final(world)@,
                old(self)@,
                old(world)@,
                buffer@,
                settings_of(salt@, config),
                now,
            ),
    {
        let packets = match read_packets(buffer, self.logged_in) {
            Some(packets) => packets,
            None => {
                return None;
            },
        };
        let ghost all = server_views(packets@);
        let ghost settings = settings_of(salt@, config);
        let mut out = Outbox {
            immediate: Vec::new(),
            echo: Vec::new(),
            broadcast: Vec::new(),
            shutdown: false,
        };
        let mut i: usize = 0;
        assert(all.take(0) =~= Seq::<ServerBoundView>::empty());
        assert(views(out.immediate@) =~= Seq::<ClientBoundView>::empty());
        assert(views(out.echo@) =~= Seq::<ClientBoundView>::empty());
        assert(views(out.broadcast@) =~= Seq::<ClientBoundView>::empty());
        while i < packets.len() && !out.shutdown
            invariant
                i <= packets.len(),
                all == server_views(packets@),
                settings == settings_of(salt@, config),
                out.holds(self@, world@, run(old(self)@, old(world)@, all.take(i as int), settings, now)),
            decreases packets.len() - i,
        {
            proof {
                let next = all.take(i + 1);
                assert(next.drop_last() =~= all.take(i as int));
                assert(next.last() == packets@[i as int]@);
            }
            self.handle_packet(&packets[i], salt, config, world, now, &mut out);
            i += 1;
        }
        proof {
            if out.shutdown {
                lemma_run_stops(old(self)@, old(world)@, all, settings, now, i as int);
            } else {
                assert(all.take(i as int) =~= all);
            }
        }
        let mut replies: Vec<ClientBound> = Vec::new();
        assert(views(replies@) =~= Seq::<ClientBoundView>::empty());
        emit_all(&mut replies, &out.immediate);
        emit_all(&mut replies, &out.echo);
        if !out.shutdown {
            emit(&mut replies, ClientBound::Ping);
        }
        let tick = Tick { replies, broadcast: out.broadcast, shutdown: out.shutdown };
        proof {
            let ran = tick_of(old(self)@, old(world)@, buffer@, settings, now);
            assert(views(tick.replies@) =~= replies_of(ran));
        }
        Some(tick)
    }

    /// Handles one inbound buffer at the time that the clock shows.
    /// `None`, with nothing changed, if the text of one of the packets is
    /// not well-formed.
    pub fn handle_connect(
        &mut self,
        buffer: &[u8],
        salt: &str,
        config: &Config,
        world: &mut ClassicWorld,
    ) -> (tick: Option<Tick>)
        ensures
            tick is Some <==> all_decodable(frames(buffer@, old(self)@.logged_in)),
            tick is None ==> final(self)@ == old(self)@ && final(world)@ == old(world)@,
            tick matches Some(t) ==> exists|now: u64|
                is_tick_of(
                    t,
                    final(self)@,
                    final(world)@,
                    old(self)@,
                    old(world)@,
                    buffer@,
                    settings_of(salt@, config),
                    now,
                ),
    {
        let now = unix_time();
        self.handle_connect_at(buffer, salt, config, world, now)
    }
}

} // verus!
