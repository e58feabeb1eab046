use game_server::{ReconnectToken, SessionError, SessionRegistry, RECONNECT_TOKEN_BYTES};

fn token(value: u8) -> ReconnectToken {
    ReconnectToken([value; RECONNECT_TOKEN_BYTES])
}

#[test]
fn reconnect_rotates_token_and_epoch() {
    let mut sessions = SessionRegistry::new(10);
    let admitted = sessions.admit_player(token(1)).unwrap();
    assert!(sessions.disconnect(admitted.player_id, admitted.connection_epoch, 5));
    let reconnected = sessions.reconnect(token(1), token(2), 12).unwrap();
    assert_eq!(reconnected.player_id, admitted.player_id);
    assert_eq!(reconnected.connection_epoch, 2);
    assert_eq!(reconnected.reconnect_token, token(2));
    assert_eq!(
        sessions.reconnect(token(1), token(3), 12),
        Err(SessionError::UnknownToken)
    );
}

#[test]
fn stale_disconnect_cannot_evict_newer_connection() {
    let mut sessions = SessionRegistry::new(10);
    let first = sessions.admit_player(token(1)).unwrap();
    assert!(sessions.disconnect(first.player_id, first.connection_epoch, 1));
    let second = sessions.reconnect(token(1), token(2), 2).unwrap();
    assert!(!sessions.disconnect(first.player_id, first.connection_epoch, 3));
    assert_eq!(sessions.active_count(), 1);
    assert!(sessions.disconnect(second.player_id, second.connection_epoch, 3));
}

#[test]
fn expired_disconnected_slots_are_removed() {
    let mut sessions = SessionRegistry::new(5);
    let lease = sessions.admit_player(token(1)).unwrap();
    assert!(sessions.disconnect(lease.player_id, lease.connection_epoch, 10));
    assert!(sessions.expire(15).is_empty());
    assert_eq!(sessions.expire(16), vec![lease.player_id]);
    assert_eq!(sessions.slot_count(), 0);
}

#[test]
fn active_token_cannot_be_replayed() {
    let mut sessions = SessionRegistry::new(10);
    sessions.admit_player(token(1)).unwrap();
    assert_eq!(
        sessions.reconnect(token(1), token(2), 1),
        Err(SessionError::AlreadyConnected)
    );
}

#[test]
fn token_hex_round_trip_is_exact() {
    let value = ReconnectToken([0xab; RECONNECT_TOKEN_BYTES]);
    assert_eq!(ReconnectToken::decode_hex(&value.encode_hex()), Some(value));
    assert_eq!(ReconnectToken::decode_hex("not-a-token"), None);
}
