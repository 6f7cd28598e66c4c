use classic_rs::config::Config;
use classic_rs::packets::{ClientBound, Packet, ServerBound};
use classic_rs::server::{generate_salt, heartbeat_is_due, save_is_due, tick_is_slow, Inbound, Outbound, Server};
use classic_rs::text::encode_string;
use classic_rs::world::ClassicWorld;

fn hub() -> Server {
    let mut config = Config::default();
    config.server.online_mode = false;
    Server::with_salt(config, ClassicWorld::new("world", "tester", 32, 32, 32), "abcdef0123456789".to_string())
}

fn data(packets: &[ServerBound]) -> Inbound {
    let mut buffer = Vec::new();
    for packet in packets {
        buffer.extend_from_slice(&<ServerBound as Packet<&[u8]>>::into(packet));
    }
    buffer.resize(1460, 0);
    Inbound::Data(buffer)
}

fn idle() -> Inbound {
    Inbound::Data(vec![0u8; 1460])
}

fn identification(name: &str) -> ServerBound {
    ServerBound::PlayerIdentification(7, name.to_string(), "anyKey".to_string(), 0)
}

fn tick(server: &mut Server, inbound: Vec<Inbound>) -> Vec<Outbound> {
    server.update_network(&inbound, 1000).unwrap()
}

fn alice_and_bob() -> Server {
    let mut server = hub();
    assert_eq!(server.accept("10.0.0.1".to_string()), Some(0));
    assert_eq!(server.accept("10.0.0.2".to_string()), Some(1));
    let out = tick(&mut server, vec![data(&[identification("Alice")]), data(&[identification("Bob")])]);
    assert_eq!(out.len(), 2);
    server
}

#[test]
fn a_salt_is_sixteen_letters_and_digits() {
    let salt = generate_salt();
    assert_eq!(salt.len(), 16);
    assert!(salt.bytes().all(|b| b.is_ascii_alphanumeric()));
    assert_ne!(generate_salt(), salt);
    let server = Server::new(Config::default(), ClassicWorld::new("world", "tester", 32, 32, 32));
    assert_eq!(server.get_salt().len(), 16);
    assert_eq!(server.get_config().server.port, 25565);
    assert!(server.get_salt().bytes().all(|b| b.is_ascii_alphanumeric()));
    assert_eq!(server.client_count(), 0);
}

#[test]
fn ids_are_given_in_turn() {
    let mut server = hub();
    assert_eq!(server.accept("a".to_string()), Some(0));
    assert_eq!(server.accept("b".to_string()), Some(1));
    assert_eq!(server.accept("c".to_string()), Some(2));
    assert_eq!(server.client_count(), 3);
    assert_eq!(server.client_id(0), 0);
    assert_eq!(server.client_id(2), 2);
    assert!(server.usernames().is_empty());
}

#[test]
fn an_id_in_use_is_not_given_again() {
    let mut server = hub();
    for i in 0..255u32 {
        assert_eq!(server.accept("a".to_string()), Some(i as u8));
    }
    assert_eq!(server.accept("late".to_string()), None);
    assert_eq!(server.client_count(), 255);
    let mut inbound: Vec<Inbound> = (0..255).map(|_| idle()).collect();
    inbound[7] = Inbound::Lost;
    inbound[200] = Inbound::Lost;
    let out = tick(&mut server, inbound);
    assert_eq!(out.iter().filter(|o| o.close).count(), 255);
    assert_eq!(server.client_count(), 0);
}

#[test]
fn the_id_that_stands_for_the_player_is_skipped() {
    let mut server = hub();
    for i in 0..255u32 {
        assert_eq!(server.accept("a".to_string()), Some(i as u8));
    }
    let mut inbound: Vec<Inbound> = (0..255).map(|_| data(&[identification("x")])).collect();
    inbound[3] = Inbound::Lost;
    tick(&mut server, inbound);
    assert_eq!(server.client_count(), 254);
    assert_eq!(server.accept("b".to_string()), Some(3));
    assert_eq!(server.accept("c".to_string()), None);
}

#[test]
fn chat_broadcast() {
    let mut server = alice_and_bob();
    let text = "hello world".to_string() + &" ".repeat(53);
    let out = tick(&mut server, vec![data(&[ServerBound::Message(0xFF, text)]), idle()]);
    let message = ClientBound::Message(0, encode_string("<Alice>: hello world"));
    assert_eq!(out[0].id, 0);
    assert_eq!(out[0].packets, vec![message, ClientBound::Ping]);
    assert_eq!(out[1].id, 1);
    assert_eq!(out[1].packets, vec![ClientBound::Ping, message]);
    assert!(!out[0].close && !out[1].close);
}

#[test]
fn join_visibility() {
    let mut server = hub();
    assert_eq!(server.accept("10.0.0.1".to_string()), Some(0));
    let out = tick(&mut server, vec![data(&[identification("Alice")])]);
    assert_eq!(*out[0].packets.last().unwrap(), ClientBound::Ping);
    let out = tick(&mut server, vec![data(&[ServerBound::PositionAndOrientation(255, 100, 200, 300, 4, 5)])]);
    assert_eq!(out[0].packets, vec![ClientBound::Ping]);
    assert_eq!(server.accept("10.0.0.2".to_string()), Some(1));
    let out = tick(&mut server, vec![idle(), data(&[identification("Bob")])]);
    assert_eq!(
        out[0].packets,
        vec![
            ClientBound::Ping,
            ClientBound::SpawnPlayer(1, encode_string("Bob"), 528, 576, 528, 0, 0),
            ClientBound::Message(255, encode_string("Bob joined the Server")),
        ]
    );
    let bob = &out[1].packets;
    let finalize = bob.iter().position(|p| *p == ClientBound::LevelFinalize(32, 32, 32)).unwrap();
    let shown = bob
        .iter()
        .position(|p| *p == ClientBound::SpawnPlayer(0, encode_string("Alice"), 100, 203, 300, 4, 5))
        .unwrap();
    assert!(shown > finalize);
    assert_eq!(bob[finalize + 1], ClientBound::PlayerTeleport(255, 528, 576, 528, 0, 0));
    assert_eq!(bob[finalize + 2], ClientBound::Ping);
    assert_eq!(shown, finalize + 3);
    assert_eq!(bob.len(), finalize + 4);
    assert_eq!(server.usernames(), vec!["Alice".to_string(), "Bob".to_string()]);
}

#[test]
fn two_players_who_join_in_one_tick_see_each_other_once() {
    let mut server = hub();
    server.accept("a".to_string());
    server.accept("b".to_string());
    let out = tick(&mut server, vec![data(&[identification("Alice")]), data(&[identification("Bob")])]);
    let spawn_of = |id: u8, packets: &Vec<ClientBound>| {
        packets.iter().filter(|p| matches!(p, ClientBound::SpawnPlayer(i, ..) if *i == id)).count()
    };
    assert_eq!(spawn_of(1, &out[0].packets), 1);
    assert_eq!(spawn_of(0, &out[0].packets), 0);
    assert_eq!(spawn_of(0, &out[1].packets), 1);
    assert_eq!(spawn_of(1, &out[1].packets), 0);
}

#[test]
fn a_session_gets_nothing_of_its_own_broadcast() {
    let mut server = alice_and_bob();
    assert_eq!(server.accept("10.0.0.3".to_string()), Some(2));
    tick(&mut server, vec![idle(), idle(), data(&[identification("Carol")])]);
    let out = tick(
        &mut server,
        vec![
            data(&[ServerBound::SetBlock(1, 20, 1, 1, 1)]),
            data(&[ServerBound::SetBlock(2, 20, 2, 1, 2)]),
            data(&[ServerBound::PositionAndOrientation(255, 528, 573, 529, 0, 0)]),
        ],
    );
    let a = ClientBound::SetBlock(1, 20, 1, 1);
    let b = ClientBound::SetBlock(2, 20, 2, 2);
    let c = ClientBound::PositionUpdate(2, 0, 0, 1);
    assert_eq!(out[0].packets, vec![ClientBound::SetBlock(1, 20, 1, 0), a, ClientBound::Ping, b, c]);
    assert_eq!(out[1].packets, vec![ClientBound::SetBlock(2, 20, 2, 0), b, ClientBound::Ping, a, c]);
    assert_eq!(out[2].packets, vec![ClientBound::Ping, a, b]);
}

#[test]
fn a_lost_player_is_taken_away() {
    let mut server = alice_and_bob();
    let out = tick(&mut server, vec![Inbound::Lost, idle()]);
    assert!(out[0].close);
    assert!(out[0].packets.is_empty());
    assert!(!out[1].close);
    assert_eq!(
        out[1].packets,
        vec![
            ClientBound::Ping,
            ClientBound::DespawnPlayer(0),
            ClientBound::Message(255, encode_string("Alice left the Server")),
        ]
    );
    assert_eq!(server.client_count(), 1);
    assert_eq!(server.client_id(0), 1);
    assert_eq!(server.usernames(), vec!["Bob".to_string()]);
    assert_eq!(server.accept("10.0.0.3".to_string()), Some(2));
}

#[test]
fn a_lost_connection_without_a_name_goes_silently() {
    let mut server = hub();
    server.accept("a".to_string());
    server.accept("b".to_string());
    let out = tick(&mut server, vec![Inbound::Lost, data(&[identification("Bob")])]);
    assert!(out[0].close);
    assert!(!out[1].packets.iter().any(|p| matches!(p, ClientBound::DespawnPlayer(_))));
    assert_eq!(server.client_count(), 1);
}

#[test]
fn a_rejected_player_leaves_the_roster() {
    let mut config = Config::default();
    config.server.online_mode = true;
    let mut server = Server::with_salt(config, ClassicWorld::new("world", "tester", 32, 32, 32), "abcdef0123456789".to_string());
    server.accept("a".to_string());
    server.accept("b".to_string());
    let good = ServerBound::PlayerIdentification(7, "Bob".to_string(), "38791074cfabea0fc9685f1490949d8c".to_string(), 0);
    let bad = ServerBound::PlayerIdentification(7, "Eve".to_string(), "38791074cfabea0fc9685f1490949d8c".to_string(), 0);
    let out = tick(&mut server, vec![data(&[bad]), data(&[good])]);
    assert!(out[0].close);
    assert_eq!(
        out[0].packets,
        vec![ClientBound::DisconnectPlayer(encode_string("You are not logged in to Minecraft"))]
    );
    assert!(!out[1].close);
    assert_eq!(server.client_count(), 1);
    assert_eq!(server.usernames(), vec!["Bob".to_string()]);
}

#[test]
fn malformed_text_stops_the_tick_before_it_starts() {
    let mut server = alice_and_bob();
    let mut bad = vec![0x0du8, 0xFF];
    bad.extend_from_slice(&[0xFFu8; 64]);
    bad.resize(1460, 0);
    let inbound = vec![data(&[ServerBound::SetBlock(1, 20, 1, 1, 1)]), Inbound::Data(bad)];
    assert!(server.update_network(&inbound, 5).is_none());
    assert_eq!(u8::from(server.get_world().get_block(1, 20, 1)), 0);
    assert_eq!(server.client_count(), 2);
}

#[test]
fn the_heartbeats_are_told_of_the_roster() {
    let mut server = alice_and_bob();
    let mut mineonline = server.mineonline_heartbeat();
    let mut mojang = server.mojang_heartbeat();
    assert_eq!(mineonline.get_user_count(), 0);
    assert_eq!(mineonline.get_url(), "https://mineonline.codie.gg/");
    assert_eq!(mojang.get_url(), "http://www.minecraft.net/heartbeat.jsp");
    server.update_heartbeats(&mut mineonline, &mut mojang);
    assert_eq!(mineonline.get_user_count(), 2);
    assert_eq!(mojang.get_user_count(), 0);
    let request = mineonline.build_request();
    assert!(request.contains("\"players\":[\"Alice\",\"Bob\"]"));
    assert!(request.contains("\"md5\":\"1FD3397652112BB9E01E49DFE3E47893\""));
    assert!(request.contains("\"users\":2"));
    tick(&mut server, vec![idle(), idle()]);
    mineonline.update_users(9);
    server.update_heartbeats(&mut mineonline, &mut mojang);
    assert_eq!(mineonline.get_user_count(), 9);
    tick(&mut server, vec![Inbound::Lost, idle()]);
    server.update_heartbeats(&mut mineonline, &mut mojang);
    assert_eq!(mineonline.get_user_count(), 1);
    let query = mojang.build_request();
    assert_eq!(query[6], ("version".to_string(), "7".to_string()));
    assert_eq!(query[7], ("salt".to_string(), "abcdef0123456789".to_string()));
}

#[test]
fn a_save_is_announced() {
    let server = hub();
    let (before, after) = server.save_world();
    assert_eq!(before, vec![ClientBound::Message(255, encode_string("<Console>: Saving World.."))]);
    assert_eq!(after, vec![ClientBound::Message(255, encode_string("<Console>: Saving Complete"))]);
    assert_eq!(server.shutdown(), vec![ClientBound::DisconnectPlayer(encode_string("Server shutting down"))]);
}

#[test]
fn saves_and_heartbeats_have_their_times() {
    assert!(!save_is_due(299, 5));
    assert!(save_is_due(300, 5));
    assert!(save_is_due(0, 0));
    assert!(!save_is_due(u64::MAX, u64::MAX));
    assert!(!heartbeat_is_due(39, false));
    assert!(heartbeat_is_due(40, false));
    assert!(heartbeat_is_due(0, true));
    assert!(!tick_is_slow(250));
    assert!(tick_is_slow(251));
}
