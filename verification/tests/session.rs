use terracotta::server::network::{write_string, write_varint};
use terracotta::server::session::{handle_packet, status_response_packet, ClientAction};
use terracotta::world::player::{ConnectionState, Player};

fn handshake_bytes(intent: i32) -> Vec<u8> {
    let mut bytes = vec![0, 0x00];
    write_varint(&mut bytes, 773);
    write_string(&mut bytes, "localhost".to_string());
    bytes.extend_from_slice(&[0x63, 0xdd]);
    write_varint(&mut bytes, intent);
    bytes
}

fn sent(action: ClientAction) -> Vec<u8> {
    match action {
        ClientAction::Send(bytes) => bytes,
        other => panic!("expected bytes to send, got {:?}", other),
    }
}

#[test]
fn handshake_moves_to_login_or_status() {
    let mut player = Player::default();
    let action = handle_packet(&mut player, &handshake_bytes(2)).unwrap();
    assert!(matches!(action, ClientAction::Nothing));
    assert_eq!(player.state, ConnectionState::Login);

    let mut player = Player::default();
    handle_packet(&mut player, &handshake_bytes(1)).unwrap();
    assert_eq!(player.state, ConnectionState::Status);
}

#[test]
fn status_request_and_ping() {
    let mut player = Player::default();
    player.state = ConnectionState::Status;
    let action = handle_packet(&mut player, &[1, 0]).unwrap();
    assert!(matches!(action, ClientAction::SendStatus));
    let action = handle_packet(&mut player, &[9, 1, 10, 20, 30, 40, 50, 60, 70, 80]).unwrap();
    assert_eq!(sent(action), vec![0x09, 0x01, 10, 20, 30, 40, 50, 60, 70, 0]);
    assert_eq!(player.state, ConnectionState::Status);
}

#[test]
fn login_start_records_player_and_answers() {
    let mut player = Player::default();
    player.state = ConnectionState::Login;
    player.entity_id = 42;
    let mut bytes = vec![0, 0];
    write_string(&mut bytes, "Steve".to_string());
    bytes.extend(1u8..=16);
    let reply = sent(handle_packet(&mut player, &bytes).unwrap());
    assert_eq!(player.name, "Steve");
    let mut uuid = [0u8; 16];
    for i in 0..15 {
        uuid[i] = (i + 1) as u8;
    }
    assert_eq!(player.uuid, uuid);
    assert_eq!(player.entity_id, 42);
    assert_eq!(player.state, ConnectionState::Login);
    let mut expected = vec![24, 0x02];
    expected.extend_from_slice(&uuid);
    expected.extend_from_slice(&[5, b'S', b't', b'e', b'v', b'e', 0x00]);
    assert_eq!(reply, expected);
}

#[test]
fn login_acknowledged_then_configuration_finishes() {
    let mut player = Player::default();
    player.state = ConnectionState::Login;
    let action = handle_packet(&mut player, &[1, 3]).unwrap();
    assert!(matches!(action, ClientAction::Nothing));
    assert_eq!(player.state, ConnectionState::Configuration);

    let mut bytes = vec![0, 2];
    write_string(&mut bytes, "minecraft:brand".to_string());
    write_string(&mut bytes, "vanilla".to_string());
    bytes.extend_from_slice(&[0, 0]);
    write_string(&mut bytes, "en_us".to_string());
    bytes.push(12);
    write_varint(&mut bytes, 0);
    bytes.extend_from_slice(&[1, 0x7f]);
    write_varint(&mut bytes, 1);
    bytes.extend_from_slice(&[0, 1]);
    write_varint(&mut bytes, 0);
    let reply = sent(handle_packet(&mut player, &bytes).unwrap());
    assert_eq!(reply, vec![3, 0]);
    assert_eq!(player.state, ConnectionState::Play);
}

#[test]
fn configuration_with_brand_alone_stays() {
    let mut player = Player::default();
    player.state = ConnectionState::Configuration;
    let mut bytes = vec![0, 2];
    write_string(&mut bytes, "minecraft:brand".to_string());
    write_string(&mut bytes, "vanilla".to_string());
    let action = handle_packet(&mut player, &bytes).unwrap();
    assert!(matches!(action, ClientAction::Nothing));
    assert_eq!(player.state, ConnectionState::Configuration);
}

#[test]
fn play_packets_are_ignored() {
    let mut player = Player::default();
    player.state = ConnectionState::Play;
    let action = handle_packet(&mut player, &[2, 0x10, 0x01]).unwrap();
    assert!(matches!(action, ClientAction::Nothing));
    assert_eq!(player.state, ConnectionState::Play);
}

#[test]
fn status_response_framing() {
    let packet = status_response_packet("{}".to_string());
    assert_eq!(packet, vec![4, 0, 2, b'{', b'}']);
}
