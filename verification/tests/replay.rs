use game_server::replay::{MAX_VERIFIER_TICK_GAP, RECORD_HEADER_BYTES, REPLAY_HEADER_BYTES};
use game_server::{
    encode_demo_command, verify_replay, DemoSimulation, GameSimulation, MatchRuntime,
    ReconnectToken, ReplayError, ReplayLog, ReplayRecord, SimulationSnapshot,
};

/// The same history with one more record at `index`.
fn with_record(log: &ReplayLog, index: usize, record: ReplayRecord) -> ReplayLog {
    let mut records: Vec<ReplayRecord> = log.records().to_vec();
    records.insert(index, record);
    let mut changed = ReplayLog::default();
    for record in records {
        changed.append(record);
    }
    changed
}

#[test]
fn replay_log_binary_round_trip_is_exact() {
    let payload = vec![1, 2, 3];
    let snapshot = SimulationSnapshot::new(7, payload.clone());
    let mut log = ReplayLog::default();
    log.append(ReplayRecord::PlayerAdmitted {
        tick: 0,
        player_id: 1,
    });
    log.append(ReplayRecord::CommandApplied {
        tick: 0,
        player_id: 1,
        sequence: 1,
        payload,
    });
    log.append(ReplayRecord::Checkpoint { snapshot });

    let encoded = log.encode().unwrap();
    assert_eq!(ReplayLog::decode(&encoded).unwrap(), log);
}

#[test]
fn decoder_rejects_tampered_checkpoint_hash() {
    let mut log = ReplayLog::default();
    let snapshot = SimulationSnapshot::new(1, vec![0]);
    log.append(ReplayRecord::Checkpoint { snapshot });
    let mut encoded = log.encode().unwrap();
    let hash_offset = REPLAY_HEADER_BYTES + RECORD_HEADER_BYTES;
    encoded[hash_offset] ^= 0xff;
    assert!(matches!(
        ReplayLog::decode(&encoded),
        Err(ReplayError::InvalidCheckpointHash { .. })
    ));
}

#[test]
fn verifier_reconstructs_demo_simulation() {
    let command = encode_demo_command(1, -1).unwrap().to_vec();
    let mut source = DemoSimulation::new();
    source.add_player(1).unwrap();
    source.apply_command(1, 1, &command).unwrap();
    source.advance_tick().unwrap();
    let first = source.snapshot().unwrap();
    source.apply_command(1, 2, &command).unwrap();
    source.advance_tick().unwrap();
    let second = source.snapshot().unwrap();

    let mut log = ReplayLog::default();
    log.append(ReplayRecord::PlayerAdmitted {
        tick: 0,
        player_id: 1,
    });
    log.append(ReplayRecord::CommandApplied {
        tick: 0,
        player_id: 1,
        sequence: 1,
        payload: command.clone(),
    });
    log.append(ReplayRecord::Checkpoint { snapshot: first });
    log.append(ReplayRecord::CommandApplied {
        tick: 1,
        player_id: 1,
        sequence: 2,
        payload: command,
    });
    log.append(ReplayRecord::Checkpoint {
        snapshot: second.clone(),
    });

    let verification = verify_replay(DemoSimulation::new(), &log).unwrap();
    assert_eq!(verification.records_verified, 5);
    assert_eq!(verification.checkpoints_verified, 2);
    assert_eq!(verification.final_snapshot, second);
}

#[test]
fn verifier_rejects_implausible_tick_gap_before_advancing() {
    let mut log = ReplayLog::default();
    log.append(ReplayRecord::PlayerAdmitted {
        tick: u64::MAX,
        player_id: 1,
    });

    assert_eq!(
        verify_replay(DemoSimulation::new(), &log),
        Err(ReplayError::TickGapTooLarge {
            from_tick: 0,
            to_tick: u64::MAX,
            maximum: MAX_VERIFIER_TICK_GAP,
        })
    );
}
#[test]
fn verification_and_recovery_reject_impossible_command_sequences() {
    let mut runtime = MatchRuntime::new_with_replay_capture(DemoSimulation::new(), 10);
    let lease = runtime.admit_player(ReconnectToken([1; 16])).unwrap();
    let command = encode_demo_command(1, 0).unwrap();
    runtime
        .submit_command(lease.player_id, lease.connection_epoch, 2, &command)
        .unwrap();
    runtime
        .submit_command(lease.player_id, lease.connection_epoch, 3, &command)
        .unwrap();
    runtime.advance_tick().unwrap();
    runtime.freeze_for_recovery();
    let valid = runtime.recovery_image().unwrap();
    assert!(verify_replay(DemoSimulation::new(), &valid.replay).is_ok());

    for sequence in [1, 2] {
        let mut image = valid.clone();
        // Same payload and tick: even the final snapshot hash remains valid.
        // Only the runtime's sequence invariant distinguishes this from history.
        image.replay = with_record(
            &image.replay,
            2,
            ReplayRecord::CommandApplied {
                tick: 0,
                player_id: lease.player_id,
                sequence,
                payload: command.to_vec(),
            },
        );
        let encoded = image.encode().unwrap();
        let decoded = game_server::RecoveryImage::decode(&encoded).unwrap();
        let expected = ReplayError::NonIncreasingSequence {
            player_id: lease.player_id,
            previous: 2,
            actual: sequence,
        };
        assert_eq!(
            verify_replay(DemoSimulation::new(), &decoded.replay).unwrap_err(),
            expected
        );
        assert_eq!(
            MatchRuntime::restore_from_recovery(DemoSimulation::new(), decoded).unwrap_err(),
            game_server::RuntimeRecoveryError::Recovery(game_server::RecoveryError::Replay(expected))
        );
    }
}

#[test]
fn verification_and_recovery_reject_reused_player_identity() {
    let mut runtime = MatchRuntime::new_with_replay_capture(DemoSimulation::new(), 10);
    let lease = runtime.admit_player(ReconnectToken([1; 16])).unwrap();
    runtime.freeze_for_recovery();
    let mut image = runtime.recovery_image().unwrap();
    image.replay = with_record(
        &image.replay,
        1,
        ReplayRecord::PlayerRemoved {
            tick: 0,
            player_id: lease.player_id,
        },
    );
    image.replay = with_record(
        &image.replay,
        2,
        ReplayRecord::PlayerAdmitted {
            tick: 0,
            player_id: lease.player_id,
        },
    );
    assert!(
        verify_replay(DemoSimulation::new(), &image.replay).is_err(),
        "verifier accepted reuse of a retired player ID"
    );
    assert!(
        MatchRuntime::restore_from_recovery(DemoSimulation::new(), image).is_err(),
        "recovery accepted reuse of a retired player ID"
    );
}
#[test]
fn replay_encoding_preserves_the_version_one_wire_fixture() {
    let mut log = ReplayLog::default();
    log.append(ReplayRecord::PlayerAdmitted {
        tick: 0,
        player_id: 7,
    });
    log.append(ReplayRecord::CommandApplied {
        tick: 0,
        player_id: 7,
        sequence: 9,
        payload: vec![0xaa],
    });
    log.append(ReplayRecord::Checkpoint {
        snapshot: SimulationSnapshot::new(1, vec![0xbb]),
    });
    log.append(ReplayRecord::PlayerRemoved {
        tick: 1,
        player_id: 7,
    });
    const FIXTURE_HEX: &str = "475352500101000000000000000000000004000000070200000000000000000000000d000000070000000900000001aa0400000000000000010000000d35594afc4eab92da00000001bb0300000000000000010000000400000007";
    let expected: Vec<u8> = FIXTURE_HEX
        .as_bytes()
        .chunks_exact(2)
        .map(|pair| u8::from_str_radix(std::str::from_utf8(pair).unwrap(), 16).unwrap())
        .collect();
    assert_eq!(log.encode().unwrap(), expected);
    assert_eq!(ReplayLog::decode(&expected).unwrap(), log);
}
#[test]
fn replay_enforces_identity_before_delegating_to_simulation() {
    let mut zero = ReplayLog::default();
    zero.append(ReplayRecord::PlayerAdmitted {
        tick: 0,
        player_id: 0,
    });
    assert_eq!(
        verify_replay(DemoSimulation::new(), &zero).unwrap_err(),
        ReplayError::NonIncreasingPlayerId {
            previous: 0,
            actual: 0
        }
    );

    let mut retired = ReplayLog::default();
    retired.append(ReplayRecord::PlayerAdmitted {
        tick: 0,
        player_id: 1,
    });
    retired.append(ReplayRecord::PlayerRemoved {
        tick: 0,
        player_id: 1,
    });
    retired.append(ReplayRecord::CommandApplied {
        tick: 0,
        player_id: 1,
        sequence: 1,
        payload: encode_demo_command(1, 0).unwrap().to_vec(),
    });
    assert_eq!(
        verify_replay(DemoSimulation::new(), &retired).unwrap_err(),
        ReplayError::UnknownCommandPlayer(1)
    );
}

#[test]
fn replay_allows_gaps_in_allocated_ids_and_command_sequences() {
    let mut log = ReplayLog::default();
    for player_id in [3, 8] {
        log.append(ReplayRecord::PlayerAdmitted { tick: 0, player_id });
        for sequence in [5, 9] {
            log.append(ReplayRecord::CommandApplied {
                tick: 0,
                player_id,
                sequence,
                payload: encode_demo_command(1, 0).unwrap().to_vec(),
            });
        }
    }
    assert_eq!(
        verify_replay(DemoSimulation::new(), &log)
            .unwrap()
            .records_verified,
        6
    );
}
