use terracotta::server::ServerState;
use terracotta::world::player::ConnectionState;

#[test]
fn add_player_registers_fresh_player() {
    let mut state = ServerState::default();
    state.add_player(7);
    state.add_player(9);
    assert_eq!(state.players.len(), 2);
    let player = &state.players[&7];
    assert_eq!(player.entity_id, 7);
    assert_eq!(player.state, ConnectionState::Handshake);
    assert_eq!(player.name, "");
    assert_eq!(player.uuid, [0u8; 16]);
}

#[test]
fn admit_player_uses_id_in_range() {
    let mut state = ServerState::default();
    let id = state.admit_player();
    assert!(id >= 1 && id < u32::MAX);
    assert_eq!(state.players[&id].entity_id, id);
    assert_eq!(state.players.len(), 1);
}
