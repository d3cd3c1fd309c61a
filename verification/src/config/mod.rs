//! Server configuration: from a `terracotta.toml` file, from the
//! `server.properties` file of older servers, or the defaults.

use vstd::prelude::*;
use vstd::string::StringExecFns;

use self::document::{ConfigError, config_from_toml, toml_config};
use self::legacy::{LegacyConfig, LegacySettings, legacy_settings, legacy_text_accepted, get_legacy_config};

pub mod document;
pub mod legacy;
pub mod text;

verus! {

/// The settings that the server runs with.
#[derive(Debug)]
pub struct ServerConfig {
    pub max_players: u32,
    pub motd: String,
    pub server_address: String,
    pub server_port: u16,
}

/// The settings that the server runs with, as plain values.
pub struct ServerConfigView {
    pub max_players: u32,
    pub motd: Seq<char>,
    pub server_address: Seq<char>,
    pub server_port: u16,
}

impl View for ServerConfig {
    type V = ServerConfigView;

    open spec fn view(&self) -> ServerConfigView {
        ServerConfigView {
            max_players: self.max_players,
            motd: self.motd@,
            server_address: self.server_address@,
            server_port: self.server_port,
        }
    }
}

/// The settings that the server runs with when it has no configuration
/// file: 20 players, the default message of the day, 127.0.0.1:25565.
pub open spec fn default_server_config() -> ServerConfigView {
    ServerConfigView {
        max_players: 20,
        motd: "A Minecraft server"@,
        server_address: "127.0.0.1"@,
        server_port: 25565,
    }
}

/// The settings taken from a `server.properties` file: its player limit,
/// address and port, with an empty message of the day.
pub open spec fn server_config_from_legacy(settings: LegacySettings) -> ServerConfigView {
    ServerConfigView {
        max_players: settings.max_players,
        motd: Seq::empty(),
        server_address: settings.server_ip,
        server_port: settings.server_port,
    }
}

impl Default for ServerConfig {
    fn default() -> (config: Self)
        ensures
            config@ == (ServerConfigView {
                max_players: 0,
                motd: Seq::empty(),
                server_address: Seq::empty(),
                server_port: 0,
            }),
    {
        ServerConfig { max_players: 0, motd: String::new(), server_address: String::new(), server_port: 0 }
    }
}

impl ServerConfig {
    /// The settings of a `server.properties` file: its player limit,
    /// address and port; the message of the day stays empty.
    pub fn from_legacy(legacy_config: LegacyConfig) -> (config: Self)
        ensures
            config@ == server_config_from_legacy(legacy_config.settings()),
    {
        let mut config = ServerConfig::default();
        config.max_players = legacy_config.max_players;
        config.server_address = legacy_config.server_ip;
        config.server_port = legacy_config.server_port;
        config
    }

    /// The settings for a server with no configuration file.
    pub fn defaults() -> (config: Self)
        ensures
            config@ == default_server_config(),
    {
        ServerConfig {
            max_players: 20,
            motd: String::from_str("A Minecraft server"),
            server_address: String::from_str("127.0.0.1"),
            server_port: 25565,
        }
    }
}

/// The settings that the server starts with: those of the text of
/// `terracotta.toml` where that file could be read; else those of the text
/// of `server.properties` where that one could; else the defaults.
pub open spec fn chosen_config(
    raw_config: Option<Seq<char>>,
    legacy_config: Option<Seq<char>>,
) -> Result<ServerConfigView, ConfigError> {
    match raw_config {
        Some(text) => toml_config(text),
        None => match legacy_config {
            Some(text) => Ok(server_config_from_legacy(legacy_settings(text))),
            None => Ok(default_server_config()),
        },
    }
}

/// The server starts with the settings of `terracotta.toml` whenever that
/// file could be read, whatever `server.properties` holds; with those of
/// `server.properties` when only that one could; and with the defaults
/// when neither could.
pub proof fn lemma_config_sources_in_order(raw: Option<Seq<char>>, legacy: Option<Seq<char>>)
    ensures
        raw matches Some(text) ==> chosen_config(raw, legacy) == toml_config(text),
        raw is None ==> (legacy matches Some(text) ==> chosen_config(raw, legacy) == Ok::<ServerConfigView, ConfigError>(
            server_config_from_legacy(legacy_settings(text)),
        )),
        raw is None && legacy is None ==> chosen_config(raw, legacy) == Ok::<ServerConfigView, ConfigError>(
            default_server_config(),
        ),
{
}

/// The text of a file that could be read, as plain values.
pub open spec fn text_view(text: Option<String>) -> Option<Seq<char>> {
    match text {
        Some(t) => Some(t@),
        None => None,
    }
}

/// Chooses the settings that the server starts with, from the texts of the
/// configuration files that could be read.
pub fn load_config(raw_config: Option<String>, legacy_config: Option<String>) -> (r: Result<
    ServerConfig,
    ConfigError,
>)
    requires
        raw_config is None ==> (legacy_config matches Some(text) ==> legacy_text_accepted(text@)),
    ensures
        match chosen_config(text_view(raw_config), text_view(legacy_config)) {
            Ok(view) => r matches Ok(config) && config@ == view,
            Err(e) => r matches Err(f) && f == e,
        },
{
    match raw_config {
        Some(text) => config_from_toml(text.as_str()),
        None => match legacy_config {
            Some(text) => {
                let parsed = get_legacy_config(text);
                Ok(ServerConfig::from_legacy(parsed))
            },
            None => Ok(ServerConfig::defaults()),
        },
    }
}

} // verus!
