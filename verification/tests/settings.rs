use classic_rs::components::{BlockType, DeltaVel, Player, Pos, Rotation};
use classic_rs::config::{Config, Heartbeat, MapConfig, MineOnline, Mojang, Server};
use classic_rs::event::{Event, UserInteract};

#[test]
fn the_default_settings() {
    let config = Config::default();
    assert_eq!(config.server.ip, "127.0.0.1");
    assert_eq!(config.server.local_ip, "127.0.0.1");
    assert_eq!(config.server.port, 25565);
    assert_eq!(config.server.name, "A Minecraft Server");
    assert_eq!(config.server.motd, "A Minecraft Server");
    assert!(config.server.public);
    assert!(config.server.online_mode);
    assert!(!config.server.whitelisted);
    assert_eq!(config.server.max_players, 8);
    assert_eq!(config.server.save_interval, 5);
    assert_eq!(config.map.name, "world");
    assert_eq!(config.map.creator_username, "");
    assert_eq!(config.map.x_width, 32);
    assert_eq!(config.map.y_height, 32);
    assert_eq!(config.map.z_depth, 32);
    assert!(config.heartbeat.enabled);
    assert!(config.heartbeat.mineonline.active);
    assert_eq!(config.heartbeat.mineonline.url, "https://mineonline.codie.gg/");
    assert!(!config.heartbeat.mojang.active);
    assert_eq!(config.heartbeat.mojang.url, "http://www.minecraft.net/heartbeat.jsp");
}

#[test]
fn the_default_sections() {
    assert!(MineOnline::default().active);
    assert!(!Mojang::default().active);
    assert!(Heartbeat::default().enabled);
    assert_eq!(Server::default().port, 25565);
    assert_eq!(MapConfig::default().name, "world");
}

#[test]
fn the_parts_of_an_entity() {
    let pos = Pos::new(1, -2, 3);
    assert_eq!((pos.x, pos.y, pos.z), (1, -2, 3));
    let origin = Pos::default();
    assert_eq!((origin.x, origin.y, origin.z), (0, 0, 0));
    assert_eq!(BlockType::default().0, 0x00);
    let delta = DeltaVel::default();
    assert_eq!((delta.dx, delta.dy, delta.dz), (0, 0, 0));
    let rotation = Rotation::default();
    assert_eq!((rotation.yaw, rotation.pitch), (0, 0));
    let player = Player::default();
    assert_eq!(player.username, "");
    assert_eq!(player.ver_key, "");
    assert_eq!(player.user_type, 0x00);
}

#[test]
fn an_event_can_be_cancelled() {
    let mut event = UserInteract { is_cancelled: false, hand: true };
    assert!(event.get_hand());
    assert!(!event.is_cancelled());
    event.set_cancelled(true);
    assert!(event.is_cancelled());
    assert!(event.get_hand());
    event.set_cancelled(false);
    assert!(!event.is_cancelled());
}
