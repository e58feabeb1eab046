use game_server::{
    encode_demo_command, DemoSimulation, GameSimulation, ReconnectToken, RecoverableSession,
    RecoveryImage, ReplayLog, ReplayRecord, SessionRecoverySnapshot, RECONNECT_TOKEN_BYTES,
};

fn image() -> RecoveryImage {
    let command = encode_demo_command(1, 0).unwrap().to_vec();
    let mut simulation = DemoSimulation::new();
    simulation.add_player(1).unwrap();
    simulation.apply_command(1, 1, &command).unwrap();
    simulation.advance_tick().unwrap();
    let checkpoint = simulation.snapshot().unwrap();

    let mut replay = ReplayLog::default();
    replay.append(ReplayRecord::PlayerAdmitted {
        tick: 0,
        player_id: 1,
    });
    replay.append(ReplayRecord::CommandApplied {
        tick: 0,
        player_id: 1,
        sequence: 1,
        payload: command,
    });
    replay.append(ReplayRecord::Checkpoint {
        snapshot: checkpoint,
    });

    RecoveryImage {
        current_tick: 1,
        reconnect_grace_ticks: 600,
        replay,
        sessions: SessionRecoverySnapshot {
            next_player_id: 2,
            sessions: vec![RecoverableSession {
                player_id: 1,
                reconnect_token: ReconnectToken([7; RECONNECT_TOKEN_BYTES]),
                connection_epoch: 2,
                remaining_grace_ticks: 600,
            }],
        },
    }
}

#[test]
fn recovery_image_round_trip_is_exact() {
    let expected = image();
    let encoded = expected.encode().unwrap();
    assert_eq!(RecoveryImage::decode(&encoded).unwrap(), expected);
}

#[test]
fn recovery_reconstructs_simulation_and_sequences() {
    let image = image();
    let simulation = image.restore_simulation(DemoSimulation::new()).unwrap();
    assert_eq!(simulation.current_tick(), 1);
    assert_eq!(simulation.snapshot().unwrap().state_hash, image.replay.records().last().and_then(|record| match record {
        ReplayRecord::Checkpoint { snapshot } => Some(snapshot.state_hash),
        _ => None,
    }).unwrap());
    assert_eq!(image.last_sequences().get(&1), Some(&1));
}

#[test]
fn corrupted_replay_fails_closed() {
    let mut encoded = image().encode().unwrap();
    let last = encoded.len() - 1;
    encoded[last] ^= 0xff;
    assert!(RecoveryImage::decode(&encoded).is_err());
}
