use game_server::{
    encode_demo_command, verify_replay, CommandOutcome, DemoSimulation, GameSimulation,
    MatchRuntime, PlayerId, ReconnectToken, RuntimeError, RuntimeRecoveryError, SessionError,
    SimulationError, SimulationSnapshot,
};

fn token(value: u8) -> ReconnectToken {
    ReconnectToken([value; 16])
}

fn go() -> [u8; 2] {
    encode_demo_command(1, 0).unwrap()
}

#[test]
fn frozen_match_turns_everything_away_and_stays_as_it_was() {
    let mut runtime = MatchRuntime::new_with_replay_capture(DemoSimulation::new(), 10);
    let lease = runtime.admit_player(token(1)).unwrap();
    runtime.freeze_for_recovery();
    let before = runtime.replay_log().unwrap().clone();
    assert_eq!(runtime.admit_player(token(2)), Err(RuntimeError::Frozen));
    assert_eq!(runtime.reconnect(token(1), token(3)), Err(RuntimeError::Frozen));
    assert!(!runtime.disconnect(lease.player_id, lease.connection_epoch));
    assert_eq!(
        runtime.abort_admission(lease.player_id, lease.connection_epoch),
        Ok(false)
    );
    assert_eq!(
        runtime.submit_command(lease.player_id, lease.connection_epoch, 1, &go()),
        Err(RuntimeError::Frozen)
    );
    assert_eq!(runtime.advance_tick(), Err(RuntimeError::Frozen));
    assert_eq!(runtime.active_count(), 1);
    assert_eq!(runtime.replay_log().unwrap(), &before);
}

#[test]
fn commands_are_judged_in_a_fixed_order() {
    let mut runtime = MatchRuntime::new(DemoSimulation::new(), 10);
    let lease = runtime.admit_player(token(1)).unwrap();
    assert_eq!(
        runtime.submit_command(99, 1, 0, &go()),
        Err(RuntimeError::InvalidSequence)
    );
    assert_eq!(
        runtime.submit_command(99, 1, 1, &go()),
        Err(RuntimeError::StaleConnection)
    );
    assert_eq!(
        runtime.submit_command(lease.player_id, lease.connection_epoch, 2, &go()),
        Ok(CommandOutcome::Applied)
    );
    assert_eq!(
        runtime.submit_command(lease.player_id, lease.connection_epoch, 2, &go()),
        Ok(CommandOutcome::IgnoredStale)
    );
    assert!(matches!(
        runtime.submit_command(lease.player_id, lease.connection_epoch, 3, b"bad"),
        Err(RuntimeError::Simulation(_))
    ));
    assert_eq!(
        runtime.submit_command(lease.player_id, lease.connection_epoch, 3, &go()),
        Ok(CommandOutcome::Applied)
    );
}

#[test]
fn ownership_follows_the_epoch() {
    let mut runtime = MatchRuntime::new(DemoSimulation::new(), 10);
    let lease = runtime.admit_player(token(1)).unwrap();
    assert_eq!(runtime.validate_connection(lease.player_id, 1), Ok(()));
    assert!(runtime.disconnect(lease.player_id, 1));
    assert_eq!(
        runtime.validate_connection(lease.player_id, 1),
        Err(RuntimeError::StaleConnection)
    );
    let newer = runtime.reconnect(token(1), token(2)).unwrap();
    assert_eq!(newer.connection_epoch, 2);
    assert_eq!(
        runtime.validate_connection(lease.player_id, 1),
        Err(RuntimeError::StaleConnection)
    );
    assert_eq!(runtime.validate_connection(lease.player_id, 2), Ok(()));
}

#[test]
fn recovery_images_need_a_frozen_and_captured_match() {
    let mut runtime = MatchRuntime::new(DemoSimulation::new(), 10);
    assert_eq!(
        runtime.recovery_image().unwrap_err(),
        RuntimeRecoveryError::RuntimeNotFrozen
    );
    runtime.freeze_for_recovery();
    assert!(runtime.is_draining());
    assert_eq!(
        runtime.recovery_image().unwrap_err(),
        RuntimeRecoveryError::ReplayCaptureDisabled
    );
    assert!(runtime.replay_log().is_none());
}

#[test]
fn a_restored_match_leaves_the_same_behind() {
    let mut runtime = MatchRuntime::new_with_replay_capture(DemoSimulation::new(), 10);
    let lease = runtime.admit_player(token(1)).unwrap();
    runtime
        .submit_command(lease.player_id, lease.connection_epoch, 4, &go())
        .unwrap();
    runtime.advance_tick().unwrap();
    runtime.freeze_for_recovery();
    let image = runtime.recovery_image().unwrap();
    let mut again =
        MatchRuntime::restore_from_recovery(DemoSimulation::new(), image.clone()).unwrap();
    assert_eq!(again.snapshot(), runtime.snapshot());
    assert_eq!(again.replay_log(), runtime.replay_log());
    again.freeze_for_recovery();
    assert_eq!(again.recovery_image().unwrap(), image);
}

#[test]
fn captured_history_verifies_whatever_happened() {
    let mut runtime = MatchRuntime::new_with_replay_capture(DemoSimulation::new(), 1);
    let first = runtime.admit_player(token(1)).unwrap();
    let second = runtime.admit_player(token(2)).unwrap();
    runtime.abort_admission(second.player_id, second.connection_epoch).unwrap();
    runtime
        .submit_command(first.player_id, first.connection_epoch, 3, &go())
        .unwrap();
    let _ = runtime.submit_command(first.player_id, first.connection_epoch, 4, b"bad");
    runtime.disconnect(first.player_id, first.connection_epoch);
    let mut last = None;
    for _ in 0..4 {
        last = Some(runtime.advance_tick().unwrap());
    }
    assert_eq!(runtime.slot_count(), 0);
    let verification =
        verify_replay(DemoSimulation::new(), runtime.replay_log().unwrap()).unwrap();
    assert_eq!(Some(verification.final_snapshot), last);
    assert_eq!(verification.checkpoints_verified, 4);
}

/// A game that takes nobody in and lets nobody go.
struct Stubborn;

impl GameSimulation for Stubborn {
    fn tick_hz(&self) -> u16 {
        1
    }
    fn max_players(&self) -> usize {
        1
    }
    fn current_tick(&self) -> u64 {
        0
    }
    fn add_player(&mut self, _player_id: PlayerId) -> Result<(), SimulationError> {
        Err(SimulationError::new("full"))
    }
    fn remove_player(&mut self, _player_id: PlayerId) -> bool {
        false
    }
    fn apply_command(
        &mut self,
        _player_id: PlayerId,
        _sequence: u32,
        _payload: &[u8],
    ) -> Result<(), SimulationError> {
        Ok(())
    }
    fn advance_tick(&mut self) -> Result<(), SimulationError> {
        Err(SimulationError::new("stuck"))
    }
    fn snapshot(&self) -> Result<SimulationSnapshot, SimulationError> {
        Err(SimulationError::new("blind"))
    }
}

#[test]
fn a_refused_player_leaves_no_slot_but_uses_an_identity() {
    let mut runtime = MatchRuntime::new(Stubborn, 10);
    assert_eq!(
        runtime.admit_player(token(1)),
        Err(RuntimeError::Simulation(SimulationError::new("full")))
    );
    assert_eq!(runtime.slot_count(), 0);
    assert_eq!(
        runtime.advance_tick(),
        Err(RuntimeError::Simulation(SimulationError::new("stuck")))
    );
    assert_eq!(
        runtime.snapshot(),
        Err(RuntimeError::Simulation(SimulationError::new("blind")))
    );
}

#[test]
fn runtime_errors_are_described() {
    let described = [
        (
            RuntimeError::Session(SessionError::UnknownToken),
            "session error: unknown reconnect token",
        ),
        (
            RuntimeError::Simulation(SimulationError::new("no")),
            "simulation error: no",
        ),
        (RuntimeError::StaleConnection, "connection no longer owns the player slot"),
        (RuntimeError::InvalidSequence, "command sequence must be non-zero"),
        (
            RuntimeError::CommandPayloadTooLarge { maximum: 1024, actual: 1025 },
            "command payload size 1025 exceeds maximum 1024",
        ),
        (RuntimeError::Draining, "match is draining and rejects new admissions"),
        (RuntimeError::Frozen, "match is frozen for recovery"),
    ];
    for (error, words) in described {
        assert_eq!(error.to_string(), words);
    }
    assert_eq!(
        RuntimeError::from(SessionError::UnknownToken),
        RuntimeError::Session(SessionError::UnknownToken)
    );
}
