use terracotta::config::legacy::{get_legacy_config, legacy_text_is_accepted};
use terracotta::world::{Difficulty, Gamemode};

#[test]
fn legacy_config_values() {
    let config = "server-ip=localhost\n".to_string();
    let config = get_legacy_config(config);
    assert_eq!(config.server_ip, "localhost".to_string())
}

#[test]
fn legacy_config_comments() {
    let config = "# This is a comment. Comments should not be read!\n".to_string();
    let config = get_legacy_config(config);
    assert_eq!(config.server_ip, "".to_string())
}

#[test]
fn legacy_config_numbers_and_last_line_wins() {
    let text = "#Minecraft server properties\nmax-players=50\r\nserver-port=+25566\nmotd=ignored\nserver-ip=first\n  server-ip=second  \n".to_string();
    assert!(legacy_text_is_accepted(&text));
    let config = get_legacy_config(text);
    assert_eq!(config.max_players, 50);
    assert_eq!(config.server_port, 25566);
    assert_eq!(config.server_ip, "second");
    assert_eq!(config.motd, "");
    assert_eq!(config.difficulty, Difficulty::Easy);
    assert_eq!(config.gamemode, Gamemode::Survival);
    assert!(!config.online_mode);
}

#[test]
fn legacy_config_value_keeps_text_up_to_next_equals_sign() {
    let config = get_legacy_config("server-ip=a=b\nlevel-seed=".to_string());
    assert_eq!(config.server_ip, "a");
    assert_eq!(config.max_players, 0);
}

#[test]
fn legacy_config_without_final_newline() {
    let config = get_legacy_config("max-players=7".to_string());
    assert_eq!(config.max_players, 7);
}

#[test]
fn legacy_config_rejections() {
    assert!(legacy_text_is_accepted(""));
    assert!(legacy_text_is_accepted("# only a comment"));
    assert!(!legacy_text_is_accepted("a=1\n\nb=2"));
    assert!(!legacy_text_is_accepted("   \n"));
    assert!(!legacy_text_is_accepted("server-ip="));
    assert!(legacy_text_is_accepted("server-ip=="));
    assert!(!legacy_text_is_accepted("max-players=abc"));
    assert!(!legacy_text_is_accepted("max-players= 5"));
    assert!(!legacy_text_is_accepted("max-players=-5"));
    assert!(!legacy_text_is_accepted("max-players=4294967296"));
    assert!(legacy_text_is_accepted("max-players=4294967295"));
    assert!(!legacy_text_is_accepted("server-port=65536"));
    assert!(legacy_text_is_accepted("server-port=65535"));
    assert!(legacy_text_is_accepted("unknown-key"));
}

#[test]
fn legacy_config_trims_unicode_whitespace() {
    let config = get_legacy_config("\u{3000}\u{a0}server-ip=host\u{2003}\t\r\n\u{85}max-players=+12".to_string());
    assert_eq!(config.server_ip, "host");
    assert_eq!(config.max_players, 12);
}

#[test]
fn legacy_config_comment_only_after_carriage_return_line() {
    let config = get_legacy_config("#comment\r\n#server-ip=ignored\r".to_string());
    assert_eq!(config.server_ip, "");
    assert_eq!(config.max_players, 0);
    assert_eq!(config.server_port, 0);
}
