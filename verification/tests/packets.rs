use terracotta::server::network::{write_string, write_varint, NetworkValue};
use terracotta::server::read_packet;
use terracotta::server::validate::packet_is_readable;
use terracotta::world::player::{ConnectionState, Player};

fn player_in(state: ConnectionState) -> Player {
    let mut player = Player::default();
    player.state = state;
    player
}

fn handshake_bytes(intent: i32) -> Vec<u8> {
    let mut body = vec![0x00];
    write_varint(&mut body, 773);
    write_string(&mut body, "localhost".to_string());
    body.extend_from_slice(&[0x63, 0xdd]);
    write_varint(&mut body, intent);
    let mut packet = vec![body.len() as u8];
    packet.extend(body);
    packet
}

#[test]
fn reads_handshake() {
    let bytes = handshake_bytes(2);
    let mut player = player_in(ConnectionState::Handshake);
    let mut it = bytes.iter();
    let (id, values) = read_packet(&mut it, &mut player).unwrap();
    assert_eq!(id, 0);
    assert_eq!(
        values,
        vec![
            NetworkValue::u16(773),
            NetworkValue::String("localhost".to_string()),
            NetworkValue::u16(25565),
            NetworkValue::u8(2),
        ]
    );
    assert_eq!(it.as_slice().len(), 0);
    assert_eq!(player.state, ConnectionState::Handshake);
}

#[test]
fn reads_ping_into_eight_bytes() {
    let bytes = [9, 1, 1, 2, 3, 4, 5, 6, 7, 8];
    let mut player = player_in(ConnectionState::Status);
    let mut it = bytes.iter();
    let (id, values) = read_packet(&mut it, &mut player).unwrap();
    assert_eq!(id, 1);
    assert_eq!(values, vec![NetworkValue::Array(Box::from([1u8, 2, 3, 4, 5, 6, 7, 0]))]);
    assert_eq!(it.as_slice(), &[8]);
}

#[test]
fn reads_login_start() {
    let mut bytes = vec![0, 0];
    write_string(&mut bytes, "Steve".to_string());
    bytes.extend(1u8..=16);
    let mut player = player_in(ConnectionState::Login);
    let mut it = bytes.iter();
    let (id, values) = read_packet(&mut it, &mut player).unwrap();
    assert_eq!(id, 0);
    let mut uuid: Vec<u8> = (1u8..=15).collect();
    uuid.push(0);
    assert_eq!(
        values,
        vec![NetworkValue::String("Steve".to_string()), NetworkValue::Array(uuid.into_boxed_slice())]
    );
    assert_eq!(it.as_slice(), &[16]);
}

#[test]
fn reads_client_information() {
    let mut bytes = vec![0, 0];
    write_string(&mut bytes, "en_us".to_string());
    bytes.push(12);
    write_varint(&mut bytes, 0);
    bytes.extend_from_slice(&[1, 0x7f]);
    write_varint(&mut bytes, 1);
    bytes.extend_from_slice(&[0, 1]);
    write_varint(&mut bytes, 2);
    let mut player = player_in(ConnectionState::Configuration);
    let mut it = bytes.iter();
    let (id, values) = read_packet(&mut it, &mut player).unwrap();
    assert_eq!(id, 0);
    assert_eq!(
        values,
        vec![
            NetworkValue::String("en_us".to_string()),
            NetworkValue::u8(12),
            NetworkValue::u8(0),
            NetworkValue::bool(true),
            NetworkValue::u8(0x7f),
            NetworkValue::u8(1),
            NetworkValue::bool(false),
            NetworkValue::bool(true),
            NetworkValue::u8(2),
        ]
    );
    assert_eq!(it.as_slice().len(), 0);
}

#[test]
fn reads_brand_then_following_packet() {
    let mut bytes = vec![0, 2];
    write_string(&mut bytes, "minecraft:brand".to_string());
    write_string(&mut bytes, "vanilla".to_string());
    bytes.extend_from_slice(&[0, 7]);
    let mut player = player_in(ConnectionState::Configuration);
    let mut it = bytes.iter();
    let (id, values) = read_packet(&mut it, &mut player).unwrap();
    assert_eq!(id, 2);
    assert_eq!(
        values,
        vec![NetworkValue::String("minecraft:brand".to_string()), NetworkValue::String("vanilla".to_string())]
    );
    assert_eq!(it.as_slice().len(), 0);
}

#[test]
fn reads_other_channel_without_brand() {
    let mut bytes = vec![0, 2];
    write_string(&mut bytes, "mod:channel".to_string());
    let mut player = player_in(ConnectionState::Configuration);
    let mut it = bytes.iter();
    let (id, values) = read_packet(&mut it, &mut player).unwrap();
    assert_eq!(id, 2);
    assert_eq!(values, vec![NetworkValue::String("mod:channel".to_string())]);
}

#[test]
fn unknown_packet_has_no_fields() {
    let bytes = [1, 0x05, 0xaa];
    let mut player = player_in(ConnectionState::Play);
    let mut it = bytes.iter();
    let (id, values) = read_packet(&mut it, &mut player).unwrap();
    assert_eq!(id, 5);
    assert!(values.is_empty());
    assert_eq!(it.as_slice(), &[0xaa]);
}

#[test]
fn packet_readability() {
    let bytes = handshake_bytes(2);
    assert!(packet_is_readable(ConnectionState::Handshake, &bytes));
    assert!(!packet_is_readable(ConnectionState::Handshake, &bytes[..bytes.len() - 1]));
    assert!(packet_is_readable(ConnectionState::Status, &bytes[..3]));
    assert!(!packet_is_readable(ConnectionState::Status, &[1]));
    assert!(!packet_is_readable(ConnectionState::Status, &[9, 1, 1, 2, 3, 4, 5, 6]));
    assert!(packet_is_readable(ConnectionState::Status, &[9, 1, 1, 2, 3, 4, 5, 6, 7]));
    assert!(!packet_is_readable(ConnectionState::Login, &[0, 0, 2, 0xff, 0xfe]));
    let mut bytes = vec![0, 2];
    write_string(&mut bytes, "minecraft:brand".to_string());
    assert!(!packet_is_readable(ConnectionState::Configuration, &bytes));
    write_string(&mut bytes, "vanilla".to_string());
    assert!(packet_is_readable(ConnectionState::Configuration, &bytes));
    bytes.push(0);
    assert!(!packet_is_readable(ConnectionState::Configuration, &bytes));
    bytes.push(9);
    assert!(packet_is_readable(ConnectionState::Configuration, &bytes));
    assert!(packet_is_readable(ConnectionState::Play, &[0, 0x30]));
}
