use game_server::{
    verify_replay, CommandOutcome, GameSimulation, MatchRuntime, PlayerId, ReconnectToken,
    ReplayRecord, RuntimeError, SimulationError, SimulationSnapshot, SnapshotScope,
    MAX_COMMAND_PAYLOAD_BYTES,
};
use std::collections::BTreeMap;

#[derive(Clone, Debug, Default)]
struct FakeSimulation {
    tick: u64,
    players: Vec<PlayerId>,
    commands: Vec<(PlayerId, u32, Vec<u8>)>,
}

impl GameSimulation for FakeSimulation {
    fn tick_hz(&self) -> u16 {
        20
    }

    fn max_players(&self) -> usize {
        2
    }

    fn current_tick(&self) -> u64 {
        self.tick
    }

    fn add_player(&mut self, player_id: PlayerId) -> Result<(), SimulationError> {
        self.players.push(player_id);
        Ok(())
    }

    fn remove_player(&mut self, player_id: PlayerId) -> bool {
        let before = self.players.len();
        self.players.retain(|candidate| *candidate != player_id);
        self.players.len() != before
    }

    fn apply_command(
        &mut self,
        player_id: PlayerId,
        sequence: u32,
        payload: &[u8],
    ) -> Result<(), SimulationError> {
        self.commands.push((player_id, sequence, payload.to_vec()));
        Ok(())
    }

    fn advance_tick(&mut self) -> Result<(), SimulationError> {
        self.tick += 1;
        Ok(())
    }

    fn snapshot(&self) -> Result<SimulationSnapshot, SimulationError> {
        let mut payload = vec![self.players.len() as u8];
        for (player_id, sequence, command) in &self.commands {
            payload.extend_from_slice(&player_id.to_be_bytes());
            payload.extend_from_slice(&sequence.to_be_bytes());
            payload.extend_from_slice(command);
        }
        Ok(SimulationSnapshot::new(self.tick, payload))
    }
}

fn token(value: u8) -> ReconnectToken {
    ReconnectToken([value; game_server::RECONNECT_TOKEN_BYTES])
}

#[derive(Clone, Debug, Default)]
struct PrivateSimulation {
    tick: u64,
    secrets: BTreeMap<PlayerId, u8>,
}

impl GameSimulation for PrivateSimulation {
    fn tick_hz(&self) -> u16 {
        20
    }

    fn max_players(&self) -> usize {
        2
    }

    fn current_tick(&self) -> u64 {
        self.tick
    }

    fn add_player(&mut self, player_id: PlayerId) -> Result<(), SimulationError> {
        self.secrets.insert(player_id, 0);
        Ok(())
    }

    fn remove_player(&mut self, player_id: PlayerId) -> bool {
        self.secrets.remove(&player_id).is_some()
    }

    fn apply_command(
        &mut self,
        player_id: PlayerId,
        _sequence: u32,
        payload: &[u8],
    ) -> Result<(), SimulationError> {
        let secret = payload
            .first()
            .copied()
            .ok_or_else(|| SimulationError::new("private command must carry one byte"))?;
        let slot = self
            .secrets
            .get_mut(&player_id)
            .ok_or_else(|| SimulationError::new("unknown private player"))?;
        *slot = secret;
        Ok(())
    }

    fn advance_tick(&mut self) -> Result<(), SimulationError> {
        self.tick += 1;
        Ok(())
    }

    fn snapshot_scope(&self) -> SnapshotScope {
        SnapshotScope::PlayerScoped
    }

    fn snapshot(&self) -> Result<SimulationSnapshot, SimulationError> {
        Ok(SimulationSnapshot::new(
            self.tick,
            self.secrets.values().copied().collect(),
        ))
    }

    fn snapshot_for(&self, player_id: PlayerId) -> Result<SimulationSnapshot, SimulationError> {
        let secret = self
            .secrets
            .get(&player_id)
            .copied()
            .ok_or_else(|| SimulationError::new("unknown private player"))?;
        Ok(SimulationSnapshot::new(self.tick, vec![secret]))
    }
}

#[test]
fn player_scoped_snapshots_keep_canonical_state_off_the_client_projection() {
    let mut runtime = MatchRuntime::new(PrivateSimulation::default(), 10);
    let first = runtime.admit_player(token(1)).unwrap();
    let second = runtime.admit_player(token(2)).unwrap();

    runtime
        .submit_command(first.player_id, first.connection_epoch, 1, &[11])
        .unwrap();
    runtime
        .submit_command(second.player_id, second.connection_epoch, 1, &[22])
        .unwrap();

    assert_eq!(runtime.snapshot_scope(), SnapshotScope::PlayerScoped);
    assert_eq!(runtime.snapshot().unwrap().payload, vec![11, 22]);
    assert_eq!(
        runtime.snapshot_for(first.player_id).unwrap().payload,
        vec![11]
    );
    assert_eq!(
        runtime.snapshot_for(second.player_id).unwrap().payload,
        vec![22]
    );
}

#[test]
fn runtime_owns_command_sequencing() {
    let mut runtime = MatchRuntime::new(FakeSimulation::default(), 10);
    let lease = runtime.admit_player(token(1)).unwrap();
    assert_eq!(
        runtime
            .submit_command(lease.player_id, lease.connection_epoch, 1, b"a")
            .unwrap(),
        CommandOutcome::Applied
    );
    let oversized_stale = vec![0_u8; MAX_COMMAND_PAYLOAD_BYTES + 1];
    assert_eq!(
        runtime
            .submit_command(lease.player_id, lease.connection_epoch, 1, &oversized_stale,)
            .unwrap(),
        CommandOutcome::IgnoredStale
    );
}

#[test]
fn oversized_new_command_is_rejected_before_simulation_or_replay_mutation() {
    let mut runtime = MatchRuntime::new_with_replay_capture(FakeSimulation::default(), 10);
    let lease = runtime.admit_player(token(1)).unwrap();
    let oversized = vec![0_u8; MAX_COMMAND_PAYLOAD_BYTES + 1];

    assert_eq!(
        runtime.submit_command(lease.player_id, lease.connection_epoch, 1, &oversized,),
        Err(RuntimeError::CommandPayloadTooLarge {
            maximum: MAX_COMMAND_PAYLOAD_BYTES,
            actual: MAX_COMMAND_PAYLOAD_BYTES + 1,
        })
    );
    assert!(runtime.simulation().commands.is_empty());
    let replay = runtime.replay_log().unwrap();
    assert_eq!(replay.records().len(), 1);
    assert!(replay.encode().is_ok());
}

#[test]
fn stale_connection_cannot_submit_after_reconnect() {
    let mut runtime = MatchRuntime::new(FakeSimulation::default(), 10);
    let first = runtime.admit_player(token(1)).unwrap();
    assert!(runtime.disconnect(first.player_id, first.connection_epoch));
    let second = runtime.reconnect(token(1), token(2)).unwrap();
    assert_eq!(
        runtime.submit_command(first.player_id, first.connection_epoch, 1, b"stale"),
        Err(RuntimeError::StaleConnection)
    );
    assert_eq!(
        runtime
            .submit_command(second.player_id, second.connection_epoch, 1, b"fresh")
            .unwrap(),
        CommandOutcome::Applied
    );
}

#[test]
fn replay_capture_records_only_applied_commands_and_checkpoints() {
    let mut runtime = MatchRuntime::new_with_replay_capture(FakeSimulation::default(), 10);
    let lease = runtime.admit_player(token(1)).unwrap();
    assert_eq!(
        runtime
            .submit_command(lease.player_id, lease.connection_epoch, 1, b"accepted")
            .unwrap(),
        CommandOutcome::Applied
    );
    assert_eq!(
        runtime
            .submit_command(lease.player_id, lease.connection_epoch, 1, b"stale")
            .unwrap(),
        CommandOutcome::IgnoredStale
    );
    let expected = runtime.advance_tick().unwrap();

    let replay = runtime.replay_log().unwrap();
    assert_eq!(replay.records().len(), 3);
    assert!(matches!(
        replay.records()[0],
        ReplayRecord::PlayerAdmitted { player_id: 1, .. }
    ));
    assert!(matches!(
        replay.records()[1],
        ReplayRecord::CommandApplied {
            player_id: 1,
            sequence: 1,
            ..
        }
    ));
    assert_eq!(
        replay.records()[2],
        ReplayRecord::Checkpoint {
            snapshot: expected.clone()
        }
    );

    let verification = verify_replay(FakeSimulation::default(), replay).unwrap();
    assert_eq!(verification.checkpoints_verified, 1);
    assert_eq!(verification.final_snapshot, expected);
}

#[test]
fn replay_capture_records_expired_player_before_next_tick() {
    let mut runtime = MatchRuntime::new_with_replay_capture(FakeSimulation::default(), 1);
    let lease = runtime.admit_player(token(1)).unwrap();
    assert!(runtime.disconnect(lease.player_id, lease.connection_epoch));
    runtime.advance_tick().unwrap();
    runtime.advance_tick().unwrap();
    runtime.advance_tick().unwrap();

    assert!(
        runtime
            .replay_log()
            .unwrap()
            .records()
            .iter()
            .any(|record| {
                matches!(
                    record,
                    ReplayRecord::PlayerRemoved {
                        tick: 2,
                        player_id: 1
                    }
                )
            })
    );
    verify_replay(FakeSimulation::default(), runtime.replay_log().unwrap()).unwrap();
}

#[test]
fn draining_blocks_new_admission_but_still_allows_reconnect() {
    let mut runtime = MatchRuntime::new_with_replay_capture(FakeSimulation::default(), 10);
    let first = runtime.admit_player(token(1)).unwrap();
    assert!(runtime.disconnect(first.player_id, first.connection_epoch));
    runtime.begin_drain();
    assert_eq!(runtime.admit_player(token(2)), Err(RuntimeError::Draining));
    assert_eq!(
        runtime.reconnect(token(1), token(3)).unwrap().player_id,
        first.player_id
    );
}

#[test]
fn aborted_admission_releases_capacity_and_keeps_replay_valid() {
    let mut runtime = MatchRuntime::new_with_replay_capture(FakeSimulation::default(), 10);
    let lease = runtime.admit_player(token(1)).unwrap();

    assert!(runtime
        .abort_admission(lease.player_id, lease.connection_epoch)
        .unwrap());
    assert_eq!(runtime.slot_count(), 0);
    assert_eq!(runtime.active_count(), 0);
    assert!(runtime.simulation().players.is_empty());

    runtime.advance_tick().unwrap();
    verify_replay(FakeSimulation::default(), runtime.replay_log().unwrap()).unwrap();
}

#[test]
fn failed_recovery_can_resume_runtime_without_state_loss() {
    let mut runtime = MatchRuntime::new_with_replay_capture(FakeSimulation::default(), 10);
    let lease = runtime.admit_player(token(1)).unwrap();
    runtime.freeze_for_recovery();
    runtime.resume_after_failed_recovery();
    assert!(!runtime.is_draining());
    assert!(!runtime.is_frozen());
    assert_eq!(
        runtime
            .submit_command(lease.player_id, lease.connection_epoch, 1, b"resume")
            .unwrap(),
        CommandOutcome::Applied
    );
}

#[test]
fn frozen_runtime_round_trips_through_recovery() {
    let mut runtime = MatchRuntime::new_with_replay_capture(FakeSimulation::default(), 10);
    let lease = runtime.admit_player(token(1)).unwrap();
    runtime
        .submit_command(lease.player_id, lease.connection_epoch, 1, b"move")
        .unwrap();
    let expected = runtime.advance_tick().unwrap();
    runtime.freeze_for_recovery();
    assert_eq!(
        runtime.submit_command(lease.player_id, lease.connection_epoch, 2, b"late"),
        Err(RuntimeError::Frozen)
    );
    assert_eq!(runtime.advance_tick(), Err(RuntimeError::Frozen));

    let image = runtime.recovery_image().unwrap();
    let mut restored =
        MatchRuntime::restore_from_recovery(FakeSimulation::default(), image).unwrap();
    assert_eq!(restored.snapshot().unwrap(), expected);
    assert_eq!(restored.active_count(), 0);
    let reconnected = restored.reconnect(token(1), token(2)).unwrap();
    assert_eq!(reconnected.player_id, lease.player_id);
    assert_eq!(reconnected.connection_epoch, lease.connection_epoch + 1);
    assert_eq!(
        restored
            .submit_command(
                reconnected.player_id,
                reconnected.connection_epoch,
                1,
                b"stale"
            )
            .unwrap(),
        CommandOutcome::IgnoredStale
    );
    assert_eq!(
        restored
            .submit_command(
                reconnected.player_id,
                reconnected.connection_epoch,
                2,
                b"new"
            )
            .unwrap(),
        CommandOutcome::Applied
    );
}
