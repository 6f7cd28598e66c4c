//! The settings of a server, in three sections: the server itself, its map
//! and its heartbeats.

use vstd::prelude::*;

verus! {

/// The settings of the MineOnline heartbeat.
pub struct MineOnline {
    pub active: bool,
    pub url: String,
}

impl Default for MineOnline {
    fn default() -> (settings: Self)
        ensures
            settings.active,
            settings.url@ == "https://mineonline.codie.gg/"@,
    {
        Self { active: true, url: "https://mineonline.codie.gg/".to_owned() }
    }
}

/// The settings of the Mojang heartbeat.
pub struct Mojang {
    pub active: bool,
    pub url: String,
}

impl Default for Mojang {
    fn default() -> (settings: Self)
        ensures
            !settings.active,
            settings.url@ == "http://www.minecraft.net/heartbeat.jsp"@,
    {
        Self { active: false, url: "http://www.minecraft.net/heartbeat.jsp".to_owned() }
    }
}

/// The settings of the heartbeats.
pub struct Heartbeat {
    pub enabled: bool,
    pub mineonline: MineOnline,
    pub mojang: Mojang,
}

impl Default for Heartbeat {
    fn default() -> (settings: Self)
        ensures
            settings.enabled,
            settings.mineonline.active,
            settings.mineonline.url@ == "https://mineonline.codie.gg/"@,
            !settings.mojang.active,
            settings.mojang.url@ == "http://www.minecraft.net/heartbeat.jsp"@,
    {
        Self { enabled: true, mineonline: MineOnline::default(), mojang: Mojang::default() }
    }
}

/// The minutes between two saves of the world, unless the settings say
/// otherwise.
pub const DEFAULT_SAVE_INTERVAL: u64 = 5;

/// The settings of the server itself.
pub struct Server {
    pub ip: String,
    pub local_ip: String,
    pub port: u16,
    pub name: String,
    pub motd: String,
    pub public: bool,
    pub online_mode: bool,
    pub whitelisted: bool,
    pub max_players: u16,
    /// The minutes between two saves of the world.
    pub save_interval: u64,
}

impl Default for Server {
    fn default() -> (settings: Self)
        ensures
            settings.ip@ == "127.0.0.1"@,
            settings.local_ip@ == "127.0.0.1"@,
            settings.port == 25565,
            settings.name@ == "A Minecraft Server"@,
            settings.motd@ == "A Minecraft Server"@,
            settings.public,
            settings.online_mode,
            !settings.whitelisted,
            settings.max_players == 8,
            settings.save_interval == DEFAULT_SAVE_INTERVAL,
    {
        Self {
            ip: "127.0.0.1".to_owned(),
            local_ip: "127.0.0.1".to_owned(),
            port: 25565,
            name: "A Minecraft Server".to_owned(),
            motd: "A Minecraft Server".to_owned(),
            public: true,
            online_mode: true,
            whitelisted: false,
            max_players: 8,
            save_interval: DEFAULT_SAVE_INTERVAL,
        }
    }
}

/// The settings of the map.
pub struct MapConfig {
    pub name: String,
    pub creator_username: String,
    pub x_width: usize,
    pub y_height: usize,
    pub z_depth: usize,
}

impl Default for MapConfig {
    fn default() -> (settings: Self)
        ensures
            settings.name@ == "world"@,
            settings.creator_username@ == Seq::<char>::empty(),
            settings.x_width == 32,
            settings.y_height == 32,
            settings.z_depth == 32,
    {
        Self {
            name: "world".to_owned(),
            creator_username: String::new(),
            x_width: 32,
            y_height: 32,
            z_depth: 32,
        }
    }
}

/// All the settings of a server.
pub struct Config {
    pub server: Server,
    pub map: MapConfig,
    pub heartbeat: Heartbeat,
}

impl Default for Config {
    fn default() -> (config: Self)
        ensures
            config.server.ip@ == "127.0.0.1"@,
            config.server.local_ip@ == "127.0.0.1"@,
            config.server.port == 25565,
            config.server.name@ == "A Minecraft Server"@,
            config.server.motd@ == "A Minecraft Server"@,
            config.server.public,
            config.server.online_mode,
            !config.server.whitelisted,
            config.server.max_players == 8,
            config.server.save_interval == DEFAULT_SAVE_INTERVAL,
            config.map.name@ == "world"@,
            config.map.creator_username@ == Seq::<char>::empty(),
            config.map.x_width == 32,
            config.map.y_height == 32,
            config.map.z_depth == 32,
            config.heartbeat.enabled,
            config.heartbeat.mineonline.active,
            config.heartbeat.mineonline.url@ == "https://mineonline.codie.gg/"@,
            !config.heartbeat.mojang.active,
            config.heartbeat.mojang.url@ == "http://www.minecraft.net/heartbeat.jsp"@,
    {
        Self { server: Server::default(), map: MapConfig::default(), heartbeat: Heartbeat::default() }
    }
}

} // verus!
