use terracotta::config::document::{config_from_toml, ConfigError};
use terracotta::config::legacy::get_legacy_config;
use terracotta::config::{load_config, ServerConfig};

#[test]
fn toml_settings() {
    let config = config_from_toml("max_players = 50\nserver_port = 25570\n").unwrap();
    assert_eq!(config.max_players, 50);
    assert_eq!(config.server_port, 25570);
    assert_eq!(config.motd, "A Minecraft server");
    assert_eq!(config.server_address, "127.0.0.1");
}

#[test]
fn toml_text_fields_are_written_as_toml() {
    let config = config_from_toml("motd = \"Hi\"\nserver_address = \"0.0.0.0\"\n").unwrap();
    assert_eq!(config.motd, "\"Hi\"");
    assert_eq!(config.server_address, "\"0.0.0.0\"");
    assert_eq!(config.max_players, 20);
    assert_eq!(config.server_port, 25565);
}

#[test]
fn toml_integers_are_cut() {
    let config = config_from_toml("max_players = -1\nserver_port = 65537\n").unwrap();
    assert_eq!(config.max_players, u32::MAX);
    assert_eq!(config.server_port, 1);
}

#[test]
fn toml_errors() {
    assert_eq!(config_from_toml("this is = = not toml").unwrap_err(), ConfigError::InvalidToml);
    assert_eq!(config_from_toml("max_players = \"many\"").unwrap_err(), ConfigError::NotAnInteger);
    assert_eq!(config_from_toml("server_port = 1.5").unwrap_err(), ConfigError::NotAnInteger);
}

#[test]
fn empty_toml_gives_defaults() {
    let config = config_from_toml("").unwrap();
    assert_eq!(config.max_players, 20);
    assert_eq!(config.motd, "A Minecraft server");
    assert_eq!(config.server_address, "127.0.0.1");
    assert_eq!(config.server_port, 25565);
}

#[test]
fn load_prefers_toml_then_legacy_then_defaults() {
    let config = load_config(Some("max_players = 5".to_string()), Some("max-players=9".to_string())).unwrap();
    assert_eq!(config.max_players, 5);

    let config = load_config(None, Some("max-players=9\nserver-ip=10.0.0.1\nserver-port=1234".to_string())).unwrap();
    assert_eq!(config.max_players, 9);
    assert_eq!(config.server_address, "10.0.0.1");
    assert_eq!(config.server_port, 1234);
    assert_eq!(config.motd, "");

    let config = load_config(None, None).unwrap();
    assert_eq!(config.max_players, 20);
    assert_eq!(config.motd, "A Minecraft server");
    assert_eq!(config.server_address, "127.0.0.1");
    assert_eq!(config.server_port, 25565);
}

#[test]
fn from_legacy_takes_three_settings() {
    let legacy = get_legacy_config("max-players=3\nserver-ip=example.org\nserver-port=7\nmotd=hello".to_string());
    let config = ServerConfig::from_legacy(legacy);
    assert_eq!(config.max_players, 3);
    assert_eq!(config.server_address, "example.org");
    assert_eq!(config.server_port, 7);
    assert_eq!(config.motd, "");
}
