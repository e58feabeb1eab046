use game_server::protocol::COMMAND_KIND;
use game_server::{
    decode_command, decode_snapshot, decode_welcome, encode_command, encode_snapshot,
    encode_welcome, snapshot_hash, CommandFrame, SnapshotFrame, Welcome, PROTOCOL_VERSION,
    RECONNECT_TOKEN_BYTES,
};

#[test]
fn command_round_trip_is_exact() {
    let encoded = encode_command(7, b"game command").unwrap();
    assert_eq!(
        decode_command(&encoded).unwrap(),
        CommandFrame {
            sequence: 7,
            payload: b"game command".to_vec()
        }
    );
}

#[test]
fn malformed_command_is_rejected() {
    assert!(decode_command(&[PROTOCOL_VERSION, COMMAND_KIND]).is_err());
    assert!(encode_command(0, b"invalid").is_err());
}

#[test]
fn snapshot_round_trip_verifies_hash() {
    let payload = b"opaque game state".to_vec();
    let snapshot = SnapshotFrame {
        tick: 9,
        state_hash: snapshot_hash(9, &payload),
        payload,
    };
    assert_eq!(
        decode_snapshot(&encode_snapshot(&snapshot).unwrap()).unwrap(),
        snapshot
    );
}

#[test]
fn welcome_carries_reconnect_identity() {
    let welcome = Welcome {
        player_id: 7,
        tick_hz: 20,
        max_players: 16,
        current_tick: 99,
        connection_epoch: 3,
        reconnect_token: [0xab; RECONNECT_TOKEN_BYTES],
        reconnect_grace_ticks: 600,
    };
    assert_eq!(decode_welcome(&encode_welcome(welcome)).unwrap(), welcome);
}
