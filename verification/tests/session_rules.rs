use game_server::{
    ReconnectToken, RecoverableSession, SessionError, SessionRecoveryError,
    SessionRecoverySnapshot, SessionRegistry, DEFAULT_MAX_PLAYERS, DEFAULT_RECONNECT_GRACE_TICKS,
};

fn token(value: u8) -> ReconnectToken {
    ReconnectToken([value; 16])
}

fn slot(player_id: u32, value: u8) -> RecoverableSession {
    RecoverableSession {
        player_id,
        reconnect_token: token(value),
        connection_epoch: 1,
        remaining_grace_ticks: 5,
    }
}

#[test]
fn tokens_are_spelled_in_lower_case_and_read_in_either() {
    let mut bytes = [0u8; 16];
    bytes[0] = 0x0f;
    bytes[15] = 0xa5;
    let value = ReconnectToken(bytes);
    assert_eq!(value.encode_hex(), "0f0000000000000000000000000000a5");
    assert_eq!(
        ReconnectToken::decode_hex("0F0000000000000000000000000000A5"),
        ReconnectToken::decode_hex("0f0000000000000000000000000000a5")
    );
    assert_eq!(ReconnectToken::decode_hex("0f0000000000000000000000000000g5"), None);
    assert_eq!(ReconnectToken::decode_hex(""), None);
}

#[test]
fn admission_is_bounded_and_collision_free() {
    let mut sessions = SessionRegistry::with_max_players(2, 10);
    let first = sessions.admit_player(token(1)).unwrap();
    assert_eq!(first.player_id, 1);
    assert_eq!(first.connection_epoch, 1);
    assert_eq!(first.reconnect_grace_ticks, 10);
    assert_eq!(sessions.admit_player(token(1)), Err(SessionError::TokenCollision));
    assert_eq!(sessions.admit_player(token(2)).unwrap().player_id, 2);
    assert_eq!(sessions.admit_player(token(3)), Err(SessionError::PlayerCapacity));
    assert_eq!(sessions.slot_count(), 2);
}

#[test]
fn identities_are_not_reused_after_a_slot_is_gone() {
    let mut sessions = SessionRegistry::new(10);
    let first = sessions.admit_player(token(1)).unwrap();
    assert!(sessions.remove_slot(first.player_id));
    assert!(!sessions.remove_slot(first.player_id));
    assert_eq!(sessions.admit_player(token(1)).unwrap().player_id, 2);
}

#[test]
fn exhausted_identities_refuse_admission_without_a_change() {
    let snapshot = SessionRecoverySnapshot { next_player_id: u32::MAX, sessions: Vec::new() };
    let mut sessions = SessionRegistry::restore(4, 10, 0, &snapshot).unwrap();
    assert_eq!(sessions.admit_player(token(1)), Err(SessionError::PlayerCapacity));
    assert_eq!(sessions.slot_count(), 0);
    assert_eq!(sessions.recovery_snapshot(0), snapshot);
}

#[test]
fn grace_ends_after_the_last_tick_of_the_period() {
    let mut sessions = SessionRegistry::new(5);
    let lease = sessions.admit_player(token(1)).unwrap();
    assert!(sessions.disconnect(lease.player_id, lease.connection_epoch, 10));
    assert!(sessions.expired(15).is_empty());
    assert_eq!(sessions.expired(16), vec![1]);
    assert_eq!(
        sessions.reconnect(token(1), token(2), 16),
        Err(SessionError::ReconnectExpired)
    );
    assert!(sessions.reconnect(token(1), token(2), 15).is_ok());
}

#[test]
fn reconnect_refuses_collisions_and_exhausted_epochs() {
    let mut sessions = SessionRegistry::new(5);
    let lease = sessions.admit_player(token(1)).unwrap();
    sessions.disconnect(lease.player_id, lease.connection_epoch, 0);
    assert_eq!(
        sessions.reconnect(token(1), token(1), 0),
        Err(SessionError::TokenCollision)
    );
    assert_eq!(
        sessions.reconnect(token(9), token(8), 0),
        Err(SessionError::UnknownToken)
    );
    let mut saved = slot(1, 7);
    saved.connection_epoch = u32::MAX;
    let mut exhausted = SessionRegistry::restore(
        4,
        5,
        0,
        &SessionRecoverySnapshot { next_player_id: 2, sessions: vec![saved] },
    )
    .unwrap();
    assert_eq!(
        exhausted.reconnect(token(7), token(8), 0),
        Err(SessionError::ConnectionEpochExhausted)
    );
}

#[test]
fn saved_slots_are_restored_as_waiting() {
    let mut sessions = SessionRegistry::with_max_players(4, 10);
    let first = sessions.admit_player(token(1)).unwrap();
    sessions.admit_player(token(2)).unwrap();
    sessions.disconnect(first.player_id, first.connection_epoch, 3);
    let saved = sessions.recovery_snapshot(5);
    assert_eq!(saved.next_player_id, 3);
    assert_eq!(saved.sessions[0].remaining_grace_ticks, 8);
    assert_eq!(saved.sessions[1].remaining_grace_ticks, 10);
    let restored = SessionRegistry::restore(4, 10, 5, &saved).unwrap();
    assert_eq!(restored.slot_count(), 2);
    assert_eq!(restored.active_count(), 0);
    assert_eq!(restored.recovery_snapshot(5), saved);
}

#[test]
fn saved_slots_that_contradict_themselves_are_refused() {
    let restore = |next_player_id: u32, sessions: Vec<RecoverableSession>| {
        SessionRegistry::restore(2, 10, 0, &SessionRecoverySnapshot { next_player_id, sessions })
            .map(|registry| registry.slot_count())
    };
    assert_eq!(restore(0, Vec::new()), Err(SessionRecoveryError::InvalidNextPlayerId));
    assert_eq!(
        restore(9, vec![slot(1, 1), slot(2, 2), slot(3, 3)]),
        Err(SessionRecoveryError::TooManySessions { maximum: 2, actual: 3 })
    );
    assert_eq!(restore(9, vec![slot(0, 1)]), Err(SessionRecoveryError::InvalidPlayerId(0)));
    assert_eq!(restore(2, vec![slot(2, 1)]), Err(SessionRecoveryError::InvalidPlayerId(2)));
    let mut epochless = slot(1, 1);
    epochless.connection_epoch = 0;
    assert_eq!(
        restore(9, vec![epochless]),
        Err(SessionRecoveryError::InvalidConnectionEpoch(1))
    );
    let mut patient = slot(1, 1);
    patient.remaining_grace_ticks = 11;
    assert_eq!(
        restore(9, vec![patient]),
        Err(SessionRecoveryError::GraceTooLong { maximum: 10, actual: 11 })
    );
    assert_eq!(
        restore(9, vec![slot(1, 1), slot(1, 2)]),
        Err(SessionRecoveryError::DuplicatePlayer(1))
    );
    assert_eq!(
        restore(9, vec![slot(1, 1), slot(2, 1)]),
        Err(SessionRecoveryError::DuplicateToken(2))
    );
    assert_eq!(restore(9, vec![slot(1, 1), slot(2, 2)]), Ok(2));
}

#[test]
fn default_registry_uses_the_default_limits() {
    let sessions = SessionRegistry::default();
    assert_eq!(sessions.reconnect_grace_ticks(), DEFAULT_RECONNECT_GRACE_TICKS);
    assert_eq!(DEFAULT_RECONNECT_GRACE_TICKS, 600);
    assert_eq!(DEFAULT_MAX_PLAYERS, 16);
}

#[test]
fn session_errors_are_described() {
    let described = [
        (SessionError::PlayerCapacity, "match has reached player capacity"),
        (SessionError::TokenCollision, "reconnect token collision"),
        (SessionError::UnknownToken, "unknown reconnect token"),
        (SessionError::AlreadyConnected, "player slot already has an active connection"),
        (SessionError::ReconnectExpired, "reconnect grace period has expired"),
        (SessionError::ConnectionEpochExhausted, "connection epoch exhausted"),
    ];
    for (error, words) in described {
        assert_eq!(error.to_string(), words);
    }
    let described = [
        (SessionRecoveryError::InvalidNextPlayerId, "next player id must be non-zero"),
        (
            SessionRecoveryError::TooManySessions { maximum: 2, actual: 3 },
            "session count 3 exceeds player capacity 2",
        ),
        (SessionRecoveryError::InvalidPlayerId(7), "invalid recovered player id 7"),
        (
            SessionRecoveryError::InvalidConnectionEpoch(7),
            "invalid connection epoch for player 7",
        ),
        (
            SessionRecoveryError::GraceTooLong { maximum: 10, actual: 11 },
            "remaining grace 11 exceeds reconnect grace 10",
        ),
        (SessionRecoveryError::DuplicatePlayer(7), "duplicate recovered player 7"),
        (SessionRecoveryError::DuplicateToken(7), "duplicate reconnect token for player 7"),
    ];
    for (error, words) in described {
        assert_eq!(error.to_string(), words);
    }
}
