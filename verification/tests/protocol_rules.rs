use game_server::protocol::{SNAPSHOT_KIND, WELCOME_KIND};
use game_server::{
    decode_command, decode_snapshot, decode_welcome, encode_command, encode_snapshot,
    encode_welcome, snapshot_hash, ProtocolError, SnapshotFrame, Welcome,
    MAX_COMMAND_PAYLOAD_BYTES, MAX_SNAPSHOT_PAYLOAD_BYTES, RECONNECT_TOKEN_BYTES, WELCOME_BYTES,
};

fn frame(tick: u64, payload: &[u8]) -> SnapshotFrame {
    SnapshotFrame { tick, state_hash: snapshot_hash(tick, payload), payload: payload.to_vec() }
}

#[test]
fn snapshot_hash_is_fnv_over_tick_length_and_payload() {
    assert_eq!(snapshot_hash(9, b"opaque game state"), 0x36135e6607784da5);
    assert_eq!(snapshot_hash(0, b""), 0x88201fb960ff6465);
    assert_eq!(snapshot_hash(1, &[0xbb]), 0x35594afc4eab92da);
}

#[test]
fn command_frame_has_the_documented_layout() {
    assert_eq!(
        encode_command(0x01020304, &[0xaa, 0xbb]).unwrap(),
        vec![3, 1, 1, 2, 3, 4, 0, 2, 0xaa, 0xbb]
    );
}

#[test]
fn snapshot_frame_has_the_documented_layout() {
    let encoded = encode_snapshot(&frame(1, &[0xbb])).unwrap();
    assert_eq!(
        encoded,
        vec![
            3, 2, 0, 0, 0, 0, 0, 0, 0, 1, 0x35, 0x59, 0x4a, 0xfc, 0x4e, 0xab, 0x92, 0xda, 0, 1,
            0xbb
        ]
    );
}

#[test]
fn command_frames_report_every_fault() {
    let mut bytes = encode_command(7, b"go").unwrap();
    assert_eq!(
        decode_command(&bytes[..5]),
        Err(ProtocolError::IncorrectLength { expected: 8, actual: 5 })
    );
    bytes.push(0);
    assert_eq!(
        decode_command(&bytes),
        Err(ProtocolError::IncorrectLength { expected: 10, actual: 11 })
    );
    bytes.pop();
    bytes[0] = 9;
    assert_eq!(decode_command(&bytes), Err(ProtocolError::UnsupportedVersion(9)));
    bytes[0] = 3;
    bytes[1] = SNAPSHOT_KIND;
    assert_eq!(decode_command(&bytes), Err(ProtocolError::UnexpectedKind(2)));
    bytes[1] = 1;
    bytes[5] = 0;
    assert_eq!(decode_command(&bytes), Err(ProtocolError::InvalidSequence));
    assert_eq!(encode_command(0, b""), Err(ProtocolError::InvalidSequence));
    let oversized = vec![0u8; MAX_COMMAND_PAYLOAD_BYTES + 1];
    assert_eq!(
        encode_command(1, &oversized),
        Err(ProtocolError::PayloadTooLarge { maximum: 1024, actual: 1025 })
    );
}

#[test]
fn snapshot_frames_report_every_fault() {
    let mut forged = frame(4, b"state");
    forged.state_hash ^= 1;
    assert_eq!(
        encode_snapshot(&forged),
        Err(ProtocolError::InvalidStateHash {
            expected: snapshot_hash(4, b"state"),
            actual: snapshot_hash(4, b"state") ^ 1,
        })
    );
    let mut bytes = encode_snapshot(&frame(4, b"state")).unwrap();
    bytes[9] = 5;
    assert!(matches!(
        decode_snapshot(&bytes),
        Err(ProtocolError::InvalidStateHash { .. })
    ));
    let oversized = vec![0u8; MAX_SNAPSHOT_PAYLOAD_BYTES + 1];
    assert_eq!(
        encode_snapshot(&frame(1, &oversized)),
        Err(ProtocolError::PayloadTooLarge { maximum: 65535, actual: 65536 })
    );
    assert_eq!(
        decode_snapshot(&[3, SNAPSHOT_KIND]),
        Err(ProtocolError::IncorrectLength { expected: 20, actual: 2 })
    );
}

#[test]
fn frame_kinds_are_never_confused() {
    let welcome = encode_welcome(Welcome {
        player_id: 1,
        tick_hz: 20,
        max_players: 16,
        current_tick: 0,
        connection_epoch: 1,
        reconnect_token: [0; RECONNECT_TOKEN_BYTES],
        reconnect_grace_ticks: 600,
    });
    assert_eq!(welcome[1], WELCOME_KIND);
    assert_eq!(decode_command(&welcome), Err(ProtocolError::UnexpectedKind(WELCOME_KIND)));
    assert_eq!(decode_snapshot(&welcome), Err(ProtocolError::UnexpectedKind(WELCOME_KIND)));
    assert_eq!(
        decode_welcome(&welcome[..WELCOME_BYTES - 1]),
        Err(ProtocolError::IncorrectLength { expected: 46, actual: 45 })
    );
}

#[test]
fn protocol_errors_are_described() {
    let described = [
        (
            ProtocolError::IncorrectLength { expected: 8, actual: 5 },
            "expected 8 bytes, received 5",
        ),
        (ProtocolError::UnsupportedVersion(255), "unsupported protocol version 255"),
        (ProtocolError::UnexpectedKind(0), "unexpected frame kind 0"),
        (ProtocolError::InvalidSequence, "command sequence must be non-zero"),
        (
            ProtocolError::PayloadTooLarge { maximum: 1024, actual: 1025 },
            "payload size 1025 exceeds maximum 1024",
        ),
        (
            ProtocolError::InvalidStateHash { expected: 0xab, actual: u64::MAX },
            "snapshot hash mismatch: expected 0x00000000000000ab, got 0xffffffffffffffff",
        ),
    ];
    for (error, words) in described {
        assert_eq!(error.to_string(), words);
    }
}
