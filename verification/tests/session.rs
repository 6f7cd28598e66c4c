use classic_rs::block::Block;
use classic_rs::client::{Client, Tick};
use classic_rs::config::Config;
use classic_rs::packets::{ClientBound, Packet, ServerBound};
use classic_rs::stream::{cut_level, gather_packets};
use classic_rs::text::encode_string;
use classic_rs::world::ClassicWorld;
use std::io::Read;

const SALT: &str = "abcdef0123456789";

fn offline() -> Config {
    let mut config = Config::default();
    config.server.online_mode = false;
    config.server.name = "Test Server".to_string();
    config.server.motd = "Have fun".to_string();
    config
}

fn online() -> Config {
    let mut config = offline();
    config.server.online_mode = true;
    config
}

fn world() -> ClassicWorld {
    ClassicWorld::new("world", "tester", 32, 32, 32)
}

fn buffer_of(packets: &[ServerBound]) -> Vec<u8> {
    let mut buffer = Vec::new();
    for packet in packets {
        buffer.extend_from_slice(&<ServerBound as Packet<&[u8]>>::into(packet));
    }
    assert!(buffer.len() <= 1460);
    buffer.resize(1460, 0);
    buffer
}

fn identification(name: &str, key: &str) -> ServerBound {
    ServerBound::PlayerIdentification(7, name.to_string(), key.to_string(), 0x00)
}

fn send(client: &mut Client, config: &Config, world: &mut ClassicWorld, packets: &[ServerBound]) -> Tick {
    client.handle_connect_at(&buffer_of(packets), SALT, config, world, 1000).unwrap()
}

fn logged_in(id: u8, name: &str, world: &mut ClassicWorld) -> Client {
    let mut client = Client::new(id, "127.0.0.1".to_string());
    let tick = send(&mut client, &offline(), world, &[identification(name, "anyKey")]);
    assert!(!tick.shutdown);
    assert!(client.is_logged_in());
    client
}

fn level_of(packets: &[ClientBound]) -> Vec<u8> {
    let mut stream = Vec::new();
    for packet in packets {
        if let ClientBound::LevelDataChunk(length, data, _) = packet {
            assert_eq!(*length, 1024);
            stream.extend_from_slice(data);
        }
    }
    stream
}

#[test]
fn a_new_session_is_nobody_yet() {
    let client = Client::new(4, "10.0.0.1".to_string());
    assert_eq!(client.get_id(), 4);
    assert_eq!(client.get_ip(), "10.0.0.1");
    assert_eq!(client.get_username(), "");
    assert!(!client.is_logged_in());
    assert_eq!(client.get_pose(), (0, 0, 0, 0, 0));
    assert_eq!(client.get_user_type(), 0x00);
}

#[test]
fn login_in_offline_mode_sends_the_level() {
    let mut world = world();
    let mut client = Client::new(0, "127.0.0.1".to_string());
    let padded_name = "Alice".to_string() + &" ".repeat(59);
    let padded_key = "anyKey".to_string() + &" ".repeat(58);
    let mut buffer = vec![0x00u8, 7];
    buffer.extend_from_slice(padded_name.as_bytes());
    buffer.extend_from_slice(padded_key.as_bytes());
    buffer.push(0x00);
    buffer.resize(1460, 0);
    let tick = client.handle_connect_at(&buffer, SALT, &offline(), &mut world, 1000).unwrap();
    assert!(!tick.shutdown);
    let replies = &tick.replies;
    let count = replies.len();
    assert!(count >= 6);
    assert_eq!(
        replies[0],
        ClientBound::ServerIdentification(7, encode_string("Test Server"), encode_string("Have fun"), 0x00)
    );
    assert_eq!(replies[1], ClientBound::LevelInitialize);
    for packet in &replies[2..count - 3] {
        assert!(matches!(packet, ClientBound::LevelDataChunk(1024, _, _)));
    }
    assert_eq!(replies[count - 3], ClientBound::LevelFinalize(32, 32, 32));
    assert_eq!(replies[count - 2], ClientBound::PlayerTeleport(255, 528, 576, 528, 0, 0));
    assert_eq!(replies[count - 1], ClientBound::Ping);
    assert!(client.is_logged_in());
    assert_eq!(client.get_username(), "Alice");
    assert_eq!(client.get_pose(), (528, 576, 528, 0, 0));
    assert_eq!(
        tick.broadcast,
        vec![
            ClientBound::SpawnPlayer(0, encode_string("Alice"), 528, 576, 528, 0, 0),
            ClientBound::Message(255, encode_string("Alice joined the Server")),
        ]
    );
}

#[test]
fn the_level_that_is_sent_decompresses_to_the_world() {
    let mut world = ClassicWorld::new("world", "tester", 64, 32, 64);
    let mut seed: u32 = 12345;
    for _ in 0..20000 {
        seed = seed.wrapping_mul(1664525).wrapping_add(1013904223);
        let x = (seed >> 8) as usize % 64;
        let y = 1 + (seed >> 14) as usize % 31;
        let z = (seed >> 20) as usize % 64;
        world.set_block_at(x, y, z, Block::from((seed >> 26) as u8 % 0x32), 5);
    }
    let mut client = Client::new(0, "127.0.0.1".to_string());
    let tick = send(&mut client, &offline(), &mut world, &[identification("Alice", "anyKey")]);
    let stream = level_of(&tick.replies);
    assert_eq!(stream.len() % 1024, 0);
    assert!(stream.len() > 1024);
    let mut decoder = flate2::read::GzDecoder::new(&stream[..]);
    let mut payload = Vec::new();
    decoder.read_to_end(&mut payload).unwrap();
    let count = u32::from_be_bytes([payload[0], payload[1], payload[2], payload[3]]);
    assert_eq!(count as usize, 64 * 32 * 64);
    assert_eq!(&payload[4..], &world.get_blocks()[..]);
    let compressed = world.gzip_snapshot();
    assert_eq!(&stream[..compressed.len()], &compressed[..]);
    assert!(stream[compressed.len()..].iter().all(|b| *b == 0));
    assert_eq!(client.send_blocks(&world), cut_level(&compressed));
}

#[test]
fn the_percentage_of_the_level_grows_to_a_hundred() {
    let stream: Vec<u8> = (0..2500u32).map(|i| (i % 256) as u8).collect();
    let packets = cut_level(&stream);
    assert_eq!(packets.len(), 3);
    let mut percents = Vec::new();
    for packet in &packets {
        if let ClientBound::LevelDataChunk(length, _, percent) = packet {
            assert_eq!(*length, 1024);
            percents.push(*percent);
        }
    }
    assert_eq!(percents, vec![40, 81, 100]);
    assert_eq!(&level_of(&packets)[..2500], &stream[..]);
    assert!(level_of(&packets)[2500..].iter().all(|b| *b == 0));
    assert_eq!(cut_level(&[]).len(), 0);
    assert_eq!(cut_level(&[7u8; 1024]).len(), 1);
    assert_eq!(cut_level(&[7u8; 1025]).len(), 2);
}

#[test]
fn login_in_online_mode_is_rejected_without_the_key() {
    let mut world = world();
    let mut client = Client::new(1, "127.0.0.1".to_string());
    let tick = send(&mut client, &online(), &mut world, &[identification("Bob", "00000000000000000000000000000000")]);
    assert_eq!(
        tick.replies,
        vec![ClientBound::DisconnectPlayer(encode_string("You are not logged in to Minecraft"))]
    );
    assert!(tick.broadcast.is_empty());
    assert!(tick.shutdown);
    assert!(!client.is_logged_in());
    assert_eq!(client.get_username(), "");
}

#[test]
fn login_in_online_mode_succeeds_with_the_key() {
    let mut world = world();
    let mut client = Client::new(1, "127.0.0.1".to_string());
    let tick = send(&mut client, &online(), &mut world, &[identification("Bob", "38791074cfabea0fc9685f1490949d8c")]);
    assert!(!tick.shutdown);
    assert!(client.is_logged_in());
    assert_eq!(client.get_username(), "Bob");
    assert_eq!(tick.replies[1], ClientBound::LevelInitialize);
    assert_eq!(*tick.replies.last().unwrap(), ClientBound::Ping);
}

#[test]
fn a_player_without_a_name_is_turned_away() {
    let mut world = world();
    let mut client = Client::new(1, "127.0.0.1".to_string());
    let tick = client.handle_connect_at(&[0u8; 1460], SALT, &offline(), &mut world, 1000).unwrap();
    assert!(tick.shutdown);
    assert!(tick.replies.is_empty());
    assert!(tick.broadcast.is_empty());
    assert!(!client.is_logged_in());
}

#[test]
fn packets_before_the_identification_are_left_aside() {
    let mut world = world();
    let before = world.get_blocks().clone();
    let mut client = Client::new(1, "127.0.0.1".to_string());
    let mut buffer = Vec::new();
    for packet in [
        ServerBound::SetBlock(5, 20, 5, 1, 1),
        ServerBound::Message(0xFF, "hello".to_string()),
        ServerBound::PositionAndOrientation(255, 1, 2, 3, 4, 5),
    ] {
        buffer.extend_from_slice(&<ServerBound as Packet<&[u8]>>::into(&packet));
    }
    let tick = client.handle_connect_at(&buffer, SALT, &offline(), &mut world, 1000).unwrap();
    assert_eq!(tick.replies, vec![ClientBound::Ping]);
    assert!(tick.broadcast.is_empty());
    assert!(!tick.shutdown);
    assert_eq!(world.get_blocks(), &before);
    assert_eq!(client.get_pose(), (0, 0, 0, 0, 0));
}

#[test]
fn place_slab_on_slab() {
    let mut world = world();
    world.set_block_at(5, 4, 5, Block::Slab, 1);
    world.set_block_at(5, 5, 5, Block::Air, 2);
    let mut client = logged_in(0, "Alice", &mut world);
    let tick = send(&mut client, &offline(), &mut world, &[ServerBound::SetBlock(5, 5, 5, 1, 0x2C)]);
    assert_eq!(
        tick.replies,
        vec![
            ClientBound::SetBlock(5, 5, 5, u8::from(Block::Air)),
            ClientBound::SetBlock(5, 4, 5, u8::from(Block::DoubleSlab)),
            ClientBound::Ping,
        ]
    );
    assert_eq!(tick.broadcast, vec![ClientBound::SetBlock(5, 4, 5, u8::from(Block::DoubleSlab))]);
    assert_eq!(world.get_block(5, 4, 5), Block::DoubleSlab);
    assert_eq!(world.get_block(5, 5, 5), Block::Air);
    assert_eq!(world.get_last_modified(), 1000);
}

#[test]
fn place_a_block() {
    let mut world = world();
    let mut client = logged_in(0, "Alice", &mut world);
    let tick = send(&mut client, &offline(), &mut world, &[ServerBound::SetBlock(7, 20, 9, 1, 0x14)]);
    assert_eq!(
        tick.replies,
        vec![
            ClientBound::SetBlock(7, 20, 9, 0x00),
            ClientBound::SetBlock(7, 20, 9, 0x14),
            ClientBound::Ping,
        ]
    );
    assert_eq!(tick.broadcast, vec![ClientBound::SetBlock(7, 20, 9, 0x14)]);
    assert_eq!(world.get_block(7, 20, 9), Block::Glass);
}

#[test]
fn place_on_the_floor_is_answered_with_bedrock() {
    let mut world = world();
    let mut client = logged_in(0, "Alice", &mut world);
    let tick = send(&mut client, &offline(), &mut world, &[ServerBound::SetBlock(7, 0, 9, 1, 0x14)]);
    assert_eq!(
        tick.replies,
        vec![
            ClientBound::SetBlock(7, 0, 9, 0x00),
            ClientBound::SetBlock(7, 0, 9, 0x07),
            ClientBound::Ping,
        ]
    );
    assert_eq!(tick.broadcast, vec![ClientBound::SetBlock(7, 0, 9, 0x07)]);
    assert_eq!(world.get_block(7, 0, 9), Block::Bedrock);
}

#[test]
fn break_bedrock() {
    let mut world = world();
    assert_eq!(world.get_block(0, 0, 0), Block::Bedrock);
    let mut client = logged_in(0, "Alice", &mut world);
    let tick = send(&mut client, &offline(), &mut world, &[ServerBound::SetBlock(0, 0, 0, 0, 0x07)]);
    assert_eq!(tick.replies, vec![ClientBound::SetBlock(0, 0, 0, 0x07), ClientBound::Ping]);
    assert!(tick.broadcast.is_empty());
    assert_eq!(world.get_block(0, 0, 0), Block::Bedrock);
}

#[test]
fn break_bedrock_above_the_floor() {
    let mut world = world();
    world.set_block_at(3, 9, 3, Block::Bedrock, 1);
    let mut client = logged_in(0, "Alice", &mut world);
    let tick = send(&mut client, &offline(), &mut world, &[ServerBound::SetBlock(3, 9, 3, 0, 0x01)]);
    assert_eq!(tick.replies, vec![ClientBound::SetBlock(3, 9, 3, 0x07), ClientBound::Ping]);
    assert!(tick.broadcast.is_empty());
    assert_eq!(world.get_block(3, 9, 3), Block::Bedrock);
}

#[test]
fn break_a_block() {
    let mut world = world();
    assert_eq!(world.get_block(3, 9, 3), Block::Dirt);
    let mut client = logged_in(0, "Alice", &mut world);
    let tick = send(&mut client, &offline(), &mut world, &[ServerBound::SetBlock(3, 9, 3, 0, 0x07)]);
    assert_eq!(tick.replies, vec![ClientBound::SetBlock(3, 9, 3, 0x00), ClientBound::Ping]);
    assert_eq!(tick.broadcast, vec![ClientBound::SetBlock(3, 9, 3, 0x00)]);
    assert_eq!(world.get_block(3, 9, 3), Block::Air);
}

#[test]
fn an_edit_outside_the_world_is_left_aside() {
    let mut world = world();
    let before = world.get_blocks().clone();
    let mut client = logged_in(0, "Alice", &mut world);
    for cell in [(-1i16, 5i16, 5i16), (5, -1, 5), (5, 5, -1), (32, 5, 5), (5, 32, 5), (5, 5, 32), (i16::MAX, 0, 0)] {
        for mode in [0u8, 1] {
            let tick = send(&mut client, &offline(), &mut world, &[ServerBound::SetBlock(cell.0, cell.1, cell.2, mode, 1)]);
            assert_eq!(tick.replies, vec![ClientBound::Ping]);
            assert!(tick.broadcast.is_empty());
        }
    }
    assert_eq!(world.get_blocks(), &before);
}

fn at_origin(world: &mut ClassicWorld) -> Client {
    let mut client = logged_in(2, "Alice", world);
    let tick = send(&mut client, &offline(), world, &[ServerBound::PositionAndOrientation(255, 0, -3, 0, 0, 0)]);
    assert_eq!(tick.broadcast, vec![ClientBound::PlayerTeleport(2, 0, 0, 0, 0, 0)]);
    assert_eq!(client.get_pose(), (0, 0, 0, 0, 0));
    client
}

fn moved(x: i16, y: i16, z: i16, yaw: u8, pitch: u8) -> Vec<ClientBound> {
    let mut world = world();
    let mut client = at_origin(&mut world);
    let tick = send(&mut client, &offline(), &mut world, &[ServerBound::PositionAndOrientation(255, x, y - 3, z, yaw, pitch)]);
    assert_eq!(tick.replies, vec![ClientBound::Ping]);
    assert_eq!(client.get_pose(), (x, y, z, yaw, pitch));
    tick.broadcast
}

#[test]
fn a_small_move_is_sent_as_a_change() {
    assert_eq!(moved(15, 0, 0, 0, 0), vec![ClientBound::PositionUpdate(2, 15, 0, 0)]);
    assert_eq!(moved(-16, 0, 0, 0, 0), vec![ClientBound::PositionUpdate(2, -16, 0, 0)]);
    assert_eq!(moved(1, -2, 3, 0, 0), vec![ClientBound::PositionUpdate(2, 1, -2, 3)]);
    assert_eq!(moved(0, 15, -16, 0, 0), vec![ClientBound::PositionUpdate(2, 0, 15, -16)]);
}

#[test]
fn a_large_move_is_sent_as_a_teleport() {
    assert_eq!(moved(16, 0, 0, 0, 0), vec![ClientBound::PlayerTeleport(2, 16, 0, 0, 0, 0)]);
    assert_eq!(moved(17, 0, 0, 0, 0), vec![ClientBound::PlayerTeleport(2, 17, 0, 0, 0, 0)]);
    assert_eq!(moved(-17, 0, 0, 0, 0), vec![ClientBound::PlayerTeleport(2, -17, 0, 0, 0, 0)]);
    assert_eq!(moved(0, 16, 0, 0, 0), vec![ClientBound::PlayerTeleport(2, 0, 16, 0, 0, 0)]);
    assert_eq!(moved(0, 0, -17, 9, 9), vec![ClientBound::PlayerTeleport(2, 0, 0, -17, 9, 9)]);
    assert_eq!(moved(1, 1, 2000, 0, 0), vec![ClientBound::PlayerTeleport(2, 1, 1, 2000, 0, 0)]);
}

#[test]
fn a_move_with_a_turn_is_sent_as_both() {
    assert_eq!(moved(1, 2, 3, 4, 5), vec![ClientBound::PositionAndOrientationUpdate(2, 1, 2, 3, 4, 5)]);
    assert_eq!(moved(15, -16, 0, 0, 1), vec![ClientBound::PositionAndOrientationUpdate(2, 15, -16, 0, 0, 1)]);
}

#[test]
fn a_turn_is_sent_as_a_turn() {
    assert_eq!(moved(0, 0, 0, 4, 5), vec![ClientBound::OrientationUpdate(2, 4, 5)]);
    assert_eq!(moved(0, 0, 0, 0, 1), vec![ClientBound::OrientationUpdate(2, 0, 1)]);
}

#[test]
fn no_move_is_not_sent() {
    assert_eq!(moved(0, 0, 0, 0, 0), vec![]);
}

#[test]
fn the_height_of_the_eyes_is_added() {
    let mut world = world();
    let mut client = at_origin(&mut world);
    let tick = send(&mut client, &offline(), &mut world, &[ServerBound::PositionAndOrientation(255, 0, 0, 0, 0, 0)]);
    assert_eq!(tick.broadcast, vec![ClientBound::PositionUpdate(2, 0, 3, 0)]);
    assert_eq!(client.get_pose(), (0, 3, 0, 0, 0));
    let tick = send(&mut client, &offline(), &mut world, &[ServerBound::PositionAndOrientation(255, 0, i16::MAX, 0, 0, 0)]);
    assert_eq!(tick.broadcast, vec![ClientBound::PlayerTeleport(2, 0, i16::MAX, 0, 0, 0)]);
    assert_eq!(client.get_pose(), (0, i16::MAX, 0, 0, 0));
    let tick = send(&mut client, &offline(), &mut world, &[ServerBound::PositionAndOrientation(255, 0, i16::MAX - 3, 0, 0, 0)]);
    assert!(tick.broadcast.is_empty());
}

#[test]
fn moves_between_the_ends_of_the_range_do_not_overflow() {
    let mut world = world();
    let mut client = at_origin(&mut world);
    let tick = send(
        &mut client,
        &offline(),
        &mut world,
        &[
            ServerBound::PositionAndOrientation(255, i16::MIN, i16::MIN, i16::MIN, 0, 0),
            ServerBound::PositionAndOrientation(255, i16::MAX, i16::MAX, i16::MAX, 0, 0),
        ],
    );
    assert_eq!(
        tick.broadcast,
        vec![
            ClientBound::PlayerTeleport(2, i16::MIN, i16::MIN + 3, i16::MIN, 0, 0),
            ClientBound::PlayerTeleport(2, i16::MAX, i16::MAX, i16::MAX, 0, 0),
        ]
    );
}

#[test]
fn chat_is_echoed_and_broadcast() {
    let mut world = world();
    let mut client = logged_in(0, "Alice", &mut world);
    let text = "hello world".to_string() + &" ".repeat(53);
    let tick = send(&mut client, &offline(), &mut world, &[ServerBound::Message(0xFF, text)]);
    let expected = ClientBound::Message(0, encode_string("<Alice>: hello world"));
    assert_eq!(tick.replies, vec![expected, ClientBound::Ping]);
    assert_eq!(tick.broadcast, vec![expected]);
}

#[test]
fn chat_has_its_whitespace_collapsed() {
    let mut world = world();
    let mut client = logged_in(0, "Alice", &mut world);
    let tick = send(&mut client, &offline(), &mut world, &[ServerBound::Message(0xFF, "  so   much\tspace ".to_string())]);
    assert_eq!(tick.broadcast, vec![ClientBound::Message(0, encode_string("<Alice>: so much space"))]);
}

#[test]
fn a_long_chat_line_is_cut() {
    let mut world = world();
    let mut client = logged_in(0, "Alice", &mut world);
    let text = "abcdefghij".repeat(6);
    let tick = send(&mut client, &offline(), &mut world, &[ServerBound::Message(0xFF, text.clone())]);
    let line = format!("<Alice>: {}", text);
    assert_eq!(
        tick.broadcast,
        vec![
            ClientBound::Message(0, encode_string(&line[..64])),
            ClientBound::Message(0, encode_string(&line[64..])),
        ]
    );
    assert_eq!(tick.replies.len(), 3);
}

#[test]
fn several_packets_of_a_buffer_are_handled_in_turn() {
    let mut world = world();
    let mut client = logged_in(3, "Alice", &mut world);
    let tick = send(
        &mut client,
        &offline(),
        &mut world,
        &[
            ServerBound::SetBlock(1, 20, 1, 1, 0x2C),
            ServerBound::SetBlock(1, 21, 1, 1, 0x2C),
            ServerBound::Message(0xFF, "done".to_string()),
            ServerBound::PositionAndOrientation(255, 528, 573, 529, 0, 0),
        ],
    );
    assert_eq!(
        tick.replies,
        vec![
            ClientBound::SetBlock(1, 20, 1, 0x00),
            ClientBound::SetBlock(1, 20, 1, 0x2C),
            ClientBound::SetBlock(1, 21, 1, 0x00),
            ClientBound::SetBlock(1, 20, 1, 0x2B),
            ClientBound::Message(3, encode_string("<Alice>: done")),
            ClientBound::Ping,
        ]
    );
    assert_eq!(
        tick.broadcast,
        vec![
            ClientBound::SetBlock(1, 20, 1, 0x2C),
            ClientBound::SetBlock(1, 20, 1, 0x2B),
            ClientBound::Message(3, encode_string("<Alice>: done")),
            ClientBound::PositionUpdate(3, 0, 0, 1),
        ]
    );
}

#[test]
fn an_unknown_opcode_ends_the_buffer() {
    let mut world = world();
    let mut client = logged_in(3, "Alice", &mut world);
    let mut buffer = <ServerBound as Packet<&[u8]>>::into(&ServerBound::SetBlock(1, 20, 1, 1, 1));
    buffer.push(0x42);
    buffer.extend_from_slice(&<ServerBound as Packet<&[u8]>>::into(&ServerBound::SetBlock(2, 20, 2, 1, 1)));
    buffer.resize(1460, 0);
    let tick = client.handle_connect_at(&buffer, SALT, &offline(), &mut world, 7).unwrap();
    assert_eq!(tick.broadcast, vec![ClientBound::SetBlock(1, 20, 1, 1)]);
    assert_eq!(world.get_block(2, 20, 2), Block::Air);
}

#[test]
fn an_idle_tick_is_a_ping() {
    let mut world = world();
    let mut client = logged_in(3, "Alice", &mut world);
    let tick = client.handle_connect(&[0u8; 1460], SALT, &offline(), &mut world).unwrap();
    assert_eq!(tick.replies, vec![ClientBound::Ping]);
    assert!(tick.broadcast.is_empty());
    assert!(!tick.shutdown);
}

#[test]
fn malformed_text_changes_nothing() {
    let mut world = world();
    let mut client = logged_in(3, "Alice", &mut world);
    let before = world.get_blocks().clone();
    let mut buffer = <ServerBound as Packet<&[u8]>>::into(&ServerBound::SetBlock(1, 20, 1, 1, 1));
    buffer.extend_from_slice(&[0x0d, 0xFF]);
    buffer.extend_from_slice(&[0xFFu8; 64]);
    buffer.resize(1460, 0);
    assert!(client.handle_connect_at(&buffer, SALT, &offline(), &mut world, 7).is_none());
    assert_eq!(world.get_blocks(), &before);
}

#[test]
fn a_player_is_shown_and_taken_away() {
    let mut world = world();
    let client = logged_in(5, "Alice", &mut world);
    assert_eq!(client.spawn_self(), ClientBound::SpawnPlayer(5, encode_string("Alice"), 528, 576, 528, 0, 0));
    assert_eq!(client.get_username_as_bytes(), encode_string("Alice"));
    assert_eq!(
        client.despawn_self(),
        [ClientBound::DespawnPlayer(5), ClientBound::Message(255, encode_string("Alice left the Server"))]
    );
    assert_eq!(
        client.disconnect("Server shutting down"),
        vec![ClientBound::DisconnectPlayer(encode_string("Server shutting down"))]
    );
    assert_eq!(
        client.build_message("Console", 255, "Saving World.."),
        vec![ClientBound::Message(255, encode_string("<Console>: Saving World.."))]
    );
}

#[test]
fn packets_are_gathered_into_buffers() {
    let client = Client::new(0, "127.0.0.1".to_string());
    let message = ClientBound::Message(1, encode_string("hi"));
    let packets: Vec<ClientBound> = (0..23).map(|_| message).collect();
    let buffers = client.write_packets(&packets);
    assert_eq!(buffers.len(), 2);
    assert_eq!(buffers[0].len(), 22 * 66);
    assert_eq!(buffers[1].len(), 66);
    let mut all = Vec::new();
    for packet in &packets {
        all.extend_from_slice(&<ClientBound as Packet<&[u8]>>::into(packet));
    }
    assert_eq!(buffers.concat(), all);
    assert_eq!(client.send_message(&packets), buffers);
    assert_eq!(gather_packets(&Vec::new()), vec![Vec::<u8>::new()]);
    let chunk = ClientBound::LevelDataChunk(1024, [1u8; 1024], 0);
    let buffers = gather_packets(&vec![ClientBound::Ping, chunk, chunk, ClientBound::Ping]);
    let lengths: Vec<usize> = buffers.iter().map(|b| b.len()).collect();
    assert_eq!(lengths, vec![1029, 1029]);
    assert!(buffers.iter().all(|b| b.len() <= 1460));
}
