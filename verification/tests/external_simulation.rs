use game_server::{
    decode_external_simulation_request, encode_external_simulation_request,
    encode_external_simulation_response, verify_replay, CommandOutcome, ExternalSimulationAdapter,
    ExternalSimulationBridge, ExternalSimulationDescriptor, ExternalSimulationError,
    ExternalSimulationOperation, ExternalSimulationRequest, ExternalSimulationResponse,
    GameSimulation, MatchRuntime, PlayerId, ReconnectToken, SimulationSnapshot, SnapshotScope,
    RECONNECT_TOKEN_BYTES,
};

use std::collections::BTreeMap;
use std::sync::{Arc, Mutex};

#[derive(Debug, Default)]
struct ForeignGame {
    tick: u64,
    players: BTreeMap<PlayerId, u8>,
    command_calls: usize,
    reject_removal: bool,
}

#[derive(Clone, Debug)]
struct LoopbackBridge {
    state: Arc<Mutex<ForeignGame>>,
    snapshot_scope: SnapshotScope,
}

impl LoopbackBridge {
    fn shared() -> Self {
        Self {
            state: Arc::new(Mutex::new(ForeignGame::default())),
            snapshot_scope: SnapshotScope::Shared,
        }
    }

    fn player_scoped() -> Self {
        Self {
            state: Arc::new(Mutex::new(ForeignGame::default())),
            snapshot_scope: SnapshotScope::PlayerScoped,
        }
    }

    fn with_rejected_removal(self) -> Self {
        self.state
            .lock()
            .expect("test bridge mutex")
            .reject_removal = true;
        self
    }

    fn command_calls(&self) -> usize {
        self.state.lock().expect("test bridge mutex").command_calls
    }
}

impl ExternalSimulationBridge for LoopbackBridge {
    fn exchange(&self, request: &[u8]) -> Result<Vec<u8>, ExternalSimulationError> {
        let request = decode_external_simulation_request(request)?;
        let operation = request.operation();
        let mut game = self
            .state
            .lock()
            .map_err(|_| ExternalSimulationError::bridge("test bridge mutex poisoned"))?;
        let response = match request {
            ExternalSimulationRequest::Describe => {
                ExternalSimulationResponse::Descriptor(ExternalSimulationDescriptor {
                    tick_hz: 20,
                    max_players: 2,
                    current_tick: game.tick,
                    snapshot_scope: self.snapshot_scope,
                })
            }
            ExternalSimulationRequest::AddPlayer(player_id) => {
                if game.players.insert(player_id, 0).is_some() {
                    ExternalSimulationResponse::Rejected("player already exists".to_owned())
                } else {
                    ExternalSimulationResponse::Acknowledged
                }
            }
            ExternalSimulationRequest::RemovePlayer(player_id) => {
                if game.reject_removal {
                    ExternalSimulationResponse::Rejected("removal unavailable".to_owned())
                } else {
                    ExternalSimulationResponse::PlayerRemoved(
                        game.players.remove(&player_id).is_some(),
                    )
                }
            }
            ExternalSimulationRequest::ApplyCommand {
                player_id,
                sequence: _,
                payload,
            } => {
                game.command_calls += 1;
                match (game.players.get_mut(&player_id), payload.as_slice()) {
                    (Some(value), [next]) => {
                        *value = *next;
                        ExternalSimulationResponse::Acknowledged
                    }
                    (None, _) => {
                        ExternalSimulationResponse::Rejected("unknown player".to_owned())
                    }
                    (_, _) => ExternalSimulationResponse::Rejected(
                        "command must contain exactly one byte".to_owned(),
                    ),
                }
            }
            ExternalSimulationRequest::AdvanceTick => {
                let Some(next) = game.tick.checked_add(1) else {
                    return encode_external_simulation_response(
                        operation,
                        &ExternalSimulationResponse::Rejected("tick exhausted".to_owned()),
                    );
                };
                game.tick = next;
                ExternalSimulationResponse::TickAdvanced(next)
            }
            ExternalSimulationRequest::Snapshot => {
                ExternalSimulationResponse::Snapshot(canonical_snapshot(&game))
            }
            ExternalSimulationRequest::SnapshotFor(player_id) => {
                if self.snapshot_scope != SnapshotScope::PlayerScoped {
                    ExternalSimulationResponse::Rejected(
                        "player projection unavailable".to_owned(),
                    )
                } else if let Some(value) = game.players.get(&player_id) {
                    ExternalSimulationResponse::Snapshot(SimulationSnapshot::new(
                        game.tick,
                        vec![*value],
                    ))
                } else {
                    ExternalSimulationResponse::Rejected("unknown player".to_owned())
                }
            }
        };
        encode_external_simulation_response(operation, &response)
    }
}

fn canonical_snapshot(game: &ForeignGame) -> SimulationSnapshot {
    let mut payload = Vec::with_capacity(game.players.len() * 5);
    for (player_id, value) in &game.players {
        payload.extend_from_slice(&player_id.to_be_bytes());
        payload.push(*value);
    }
    SimulationSnapshot::new(game.tick, payload)
}

#[test]
fn external_wire_fixture_is_stable() {
    assert_eq!(
        encode_external_simulation_request(&ExternalSimulationRequest::ApplyCommand {
            player_id: 1,
            sequence: 2,
            payload: vec![0xaa],
        })
        .unwrap(),
        vec![1, 4, 0, 0, 0, 1, 0, 0, 0, 2, 0, 1, 0xaa]
    );

    let descriptor = ExternalSimulationResponse::Descriptor(ExternalSimulationDescriptor {
        tick_hz: 20,
        max_players: 2,
        current_tick: 7,
        snapshot_scope: SnapshotScope::PlayerScoped,
    });
    assert_eq!(
        encode_external_simulation_response(ExternalSimulationOperation::Describe, &descriptor)
            .unwrap(),
        vec![1, 1, 0, 0, 20, 0, 2, 0, 0, 0, 0, 0, 0, 0, 7, 1]
    );
}

#[test]
fn runtime_keeps_identity_and_sequence_authority_outside_external_game_logic() {
    let bridge = LoopbackBridge::shared();
    let observer = bridge.clone();
    let simulation = ExternalSimulationAdapter::connect(bridge).unwrap();
    let mut runtime = MatchRuntime::new_with_replay_capture(simulation, 5);
    let lease = runtime
        .admit_player(ReconnectToken([1; RECONNECT_TOKEN_BYTES]))
        .unwrap();

    assert_eq!(
        runtime
            .submit_command(lease.player_id, lease.connection_epoch, 1, &[7])
            .unwrap(),
        CommandOutcome::Applied
    );
    assert_eq!(
        runtime
            .submit_command(lease.player_id, lease.connection_epoch, 1, &[9])
            .unwrap(),
        CommandOutcome::IgnoredStale
    );
    let snapshot = runtime.advance_tick().unwrap();
    assert_eq!(observer.command_calls(), 1);

    let replay = runtime.replay_log().unwrap().clone();
    let verification = verify_replay(
        ExternalSimulationAdapter::connect(LoopbackBridge::shared()).unwrap(),
        &replay,
    )
    .unwrap();
    assert_eq!(verification.final_snapshot, snapshot);
}

#[test]
fn player_scoped_projection_stays_separate_from_canonical_snapshot() {
    let mut simulation =
        ExternalSimulationAdapter::connect(LoopbackBridge::player_scoped()).unwrap();
    simulation.add_player(1).unwrap();
    simulation.add_player(2).unwrap();
    simulation.apply_command(1, 1, &[7]).unwrap();
    simulation.apply_command(2, 1, &[9]).unwrap();

    let canonical = simulation.snapshot().unwrap();
    let first = simulation.snapshot_for(1).unwrap();
    let second = simulation.snapshot_for(2).unwrap();

    assert_eq!(canonical.payload.len(), 10);
    assert_eq!(first.payload, vec![7]);
    assert_eq!(second.payload, vec![9]);
}

#[test]
fn failed_external_removal_does_not_discard_runtime_session_state() {
    let simulation =
        ExternalSimulationAdapter::connect(LoopbackBridge::shared().with_rejected_removal())
            .unwrap();
    let mut runtime = MatchRuntime::new_with_replay_capture(simulation, 0);
    let lease = runtime
        .admit_player(ReconnectToken([1; RECONNECT_TOKEN_BYTES]))
        .unwrap();
    assert!(runtime.disconnect(lease.player_id, lease.connection_epoch));

    runtime.advance_tick().unwrap();
    let error = runtime.advance_tick().unwrap_err();

    assert!(error.to_string().contains("removal unavailable"));
    assert_eq!(runtime.slot_count(), 1);
    assert!(
        !runtime
            .replay_log()
            .unwrap()
            .records()
            .iter()
            .any(|record| matches!(record, game_server::ReplayRecord::PlayerRemoved { .. }))
    );
}

#[test]
fn mismatched_response_operation_fails_closed() {
    #[derive(Debug)]
    struct WrongBridge;

    impl ExternalSimulationBridge for WrongBridge {
        fn exchange(&self, _request: &[u8]) -> Result<Vec<u8>, ExternalSimulationError> {
            encode_external_simulation_response(
                ExternalSimulationOperation::AddPlayer,
                &ExternalSimulationResponse::Acknowledged,
            )
        }
    }

    assert_eq!(
        ExternalSimulationAdapter::connect(WrongBridge).unwrap_err(),
        ExternalSimulationError::UnexpectedOperation {
            expected: ExternalSimulationOperation::Describe,
            actual: ExternalSimulationOperation::AddPlayer,
        }
    );
}
