use game_server::external_simulation::{
    read_acknowledgement, read_descriptor, read_removal, read_reply, read_snapshot, read_tick,
};
use game_server::{
    decode_external_simulation_request, decode_external_simulation_response,
    encode_external_simulation_request, encode_external_simulation_response,
    external_simulation_protocol_contract, verify_replay, CommandOutcome, DemoSimulation,
    ExternalSimulationAdapter, ExternalSimulationBridge, ExternalSimulationDescriptor,
    ExternalSimulationError, ExternalSimulationOperation, ExternalSimulationRequest,
    ExternalSimulationResponse, GameSimulation, MatchRuntime, ReconnectToken, ReplayLog,
    ReplayRecord, SimulationSnapshot,
    SnapshotScope, MAX_EXTERNAL_SIMULATION_FRAME_BYTES,
};
use std::collections::VecDeque;
use std::sync::{Arc, Mutex};

fn descriptor() -> ExternalSimulationDescriptor {
    ExternalSimulationDescriptor {
        tick_hz: 20,
        max_players: 2,
        current_tick: 7,
        snapshot_scope: SnapshotScope::Shared,
    }
}

#[test]
fn every_request_is_read_back() {
    let requests = [
        ExternalSimulationRequest::Describe,
        ExternalSimulationRequest::AddPlayer(1),
        ExternalSimulationRequest::RemovePlayer(u32::MAX),
        ExternalSimulationRequest::ApplyCommand { player_id: 1, sequence: 2, payload: vec![3; 9] },
        ExternalSimulationRequest::AdvanceTick,
        ExternalSimulationRequest::Snapshot,
        ExternalSimulationRequest::SnapshotFor(4),
    ];
    for request in requests {
        let bytes = encode_external_simulation_request(&request).unwrap();
        assert_eq!(decode_external_simulation_request(&bytes), Ok(request));
    }
}

#[test]
fn every_response_is_read_back_with_its_operation() {
    let snapshot = SimulationSnapshot::new(3, vec![1, 2]);
    let responses = [
        (
            ExternalSimulationOperation::Describe,
            ExternalSimulationResponse::Descriptor(descriptor()),
        ),
        (ExternalSimulationOperation::AddPlayer, ExternalSimulationResponse::Acknowledged),
        (ExternalSimulationOperation::ApplyCommand, ExternalSimulationResponse::Acknowledged),
        (
            ExternalSimulationOperation::RemovePlayer,
            ExternalSimulationResponse::PlayerRemoved(true),
        ),
        (
            ExternalSimulationOperation::AdvanceTick,
            ExternalSimulationResponse::TickAdvanced(9),
        ),
        (
            ExternalSimulationOperation::Snapshot,
            ExternalSimulationResponse::Snapshot(snapshot.clone()),
        ),
        (
            ExternalSimulationOperation::SnapshotFor,
            ExternalSimulationResponse::Snapshot(snapshot),
        ),
        (
            ExternalSimulationOperation::Snapshot,
            ExternalSimulationResponse::Rejected("nein, größer".to_owned()),
        ),
    ];
    for (operation, response) in responses {
        let bytes = encode_external_simulation_response(operation, &response).unwrap();
        assert_eq!(decode_external_simulation_response(&bytes), Ok((operation, response)));
    }
}

#[test]
fn request_frames_report_every_fault() {
    assert_eq!(
        decode_external_simulation_request(&vec![1; MAX_EXTERNAL_SIMULATION_FRAME_BYTES + 1]),
        Err(ExternalSimulationError::PayloadTooLarge { maximum: 65556, actual: 65557 })
    );
    assert_eq!(
        decode_external_simulation_request(&[1]),
        Err(ExternalSimulationError::IncorrectLength { expected: 2, actual: 1 })
    );
    assert_eq!(
        decode_external_simulation_request(&[2, 1]),
        Err(ExternalSimulationError::UnsupportedVersion(2))
    );
    assert_eq!(
        decode_external_simulation_request(&[1, 8]),
        Err(ExternalSimulationError::UnknownOperation(8))
    );
    assert_eq!(
        decode_external_simulation_request(&[1, 2, 0]),
        Err(ExternalSimulationError::IncorrectLength { expected: 6, actual: 3 })
    );
    assert_eq!(
        decode_external_simulation_request(&[1, 4, 0, 0, 0, 1, 0, 0, 0, 0, 0, 0]),
        Err(ExternalSimulationError::InvalidSequence)
    );
    assert_eq!(
        decode_external_simulation_request(&[1, 4, 0, 0, 0, 1, 0, 0, 0, 1, 4, 1]),
        Err(ExternalSimulationError::PayloadTooLarge { maximum: 1024, actual: 1025 })
    );
    assert_eq!(
        encode_external_simulation_request(&ExternalSimulationRequest::ApplyCommand {
            player_id: 1,
            sequence: 0,
            payload: Vec::new(),
        }),
        Err(ExternalSimulationError::InvalidSequence)
    );
}

#[test]
fn response_frames_report_every_fault() {
    assert_eq!(
        decode_external_simulation_response(&[1, 1, 2]),
        Err(ExternalSimulationError::UnexpectedStatus(2))
    );
    assert_eq!(
        decode_external_simulation_response(&[1, 1, 1, 0xff]),
        Err(ExternalSimulationError::InvalidUtf8)
    );
    let mut endless = vec![1, 1, 1];
    endless.extend_from_slice(&[b'a'; 1025]);
    assert_eq!(
        decode_external_simulation_response(&endless),
        Err(ExternalSimulationError::PayloadTooLarge { maximum: 1024, actual: 1025 })
    );
    let described = ExternalSimulationResponse::Descriptor(descriptor());
    let valid = encode_external_simulation_response(
        ExternalSimulationOperation::Describe,
        &described,
    )
    .unwrap();
    let mut wrong = valid.clone();
    wrong[15] = 2;
    assert_eq!(
        decode_external_simulation_response(&wrong),
        Err(ExternalSimulationError::InvalidSnapshotScope(2))
    );
    let mut wrong = valid.clone();
    wrong[4] = 0;
    assert_eq!(
        decode_external_simulation_response(&wrong),
        Err(ExternalSimulationError::InvalidDescriptor("tick rate must be non-zero"))
    );
    let mut wrong = valid.clone();
    wrong[6] = 0;
    assert_eq!(
        decode_external_simulation_response(&wrong),
        Err(ExternalSimulationError::InvalidDescriptor("player capacity must be non-zero"))
    );
    assert_eq!(
        decode_external_simulation_response(&[1, 3, 0, 7]),
        Err(ExternalSimulationError::InvalidBoolean(7))
    );
    let mut forged = SimulationSnapshot::new(1, vec![1]);
    forged.state_hash ^= 1;
    assert!(matches!(
        encode_external_simulation_response(
            ExternalSimulationOperation::Snapshot,
            &ExternalSimulationResponse::Snapshot(forged)
        ),
        Err(ExternalSimulationError::InvalidStateHash { .. })
    ));
    assert_eq!(
        encode_external_simulation_response(
            ExternalSimulationOperation::Describe,
            &ExternalSimulationResponse::Acknowledged
        ),
        Err(ExternalSimulationError::UnexpectedResponse(ExternalSimulationOperation::Describe))
    );
}

#[test]
fn replies_come_to_answers_or_errors() {
    let frame = |operation, response: &ExternalSimulationResponse| {
        encode_external_simulation_response(operation, response)
    };
    let tick = ExternalSimulationResponse::TickAdvanced(4);
    let operation = ExternalSimulationOperation::AdvanceTick;
    assert_eq!(read_reply(operation, frame(operation, &tick)), Ok(tick.clone()));
    assert_eq!(
        read_reply(ExternalSimulationOperation::Snapshot, frame(operation, &tick)),
        Err(ExternalSimulationError::UnexpectedOperation {
            expected: ExternalSimulationOperation::Snapshot,
            actual: operation,
        })
    );
    assert_eq!(
        read_reply(
            operation,
            frame(operation, &ExternalSimulationResponse::Rejected("busy".to_owned()))
        ),
        Err(ExternalSimulationError::Remote("busy".to_owned()))
    );
    assert_eq!(
        read_reply(operation, Err(ExternalSimulationError::bridge("down"))),
        Err(ExternalSimulationError::Bridge("down".to_owned()))
    );
    assert_eq!(
        read_tick(5, Ok(tick.clone())).unwrap_err().to_string(),
        "external simulation tick mismatch: expected 5, got 4"
    );
    assert!(read_tick(4, Ok(tick.clone())).is_ok());
    assert_eq!(
        read_acknowledgement(ExternalSimulationOperation::AddPlayer, Ok(tick.clone()))
            .unwrap_err()
            .to_string(),
        "external simulation response shape does not match operation AddPlayer"
    );
    assert_eq!(
        read_removal(Ok(ExternalSimulationResponse::PlayerRemoved(false))),
        Ok(false)
    );
    assert_eq!(
        read_snapshot(
            ExternalSimulationOperation::Snapshot,
            3,
            Ok(ExternalSimulationResponse::Snapshot(SimulationSnapshot::new(2, Vec::new())))
        )
        .unwrap_err()
        .to_string(),
        "external simulation tick mismatch: expected 3, got 2"
    );
    assert_eq!(
        read_descriptor(Ok(ExternalSimulationResponse::Descriptor(descriptor()))),
        Ok(descriptor())
    );
}

/// A game that counts its ticks and shows its last command.
struct Remote {
    tick: u64,
    shown: u8,
}

impl Remote {
    fn answer(&mut self, request: &[u8]) -> Vec<u8> {
        let request = decode_external_simulation_request(request).unwrap();
        let operation = request.operation();
        let response = match request {
            ExternalSimulationRequest::Describe => {
                ExternalSimulationResponse::Descriptor(ExternalSimulationDescriptor {
                    tick_hz: 10,
                    max_players: 3,
                    current_tick: self.tick,
                    snapshot_scope: SnapshotScope::Shared,
                })
            }
            ExternalSimulationRequest::AddPlayer(_) => ExternalSimulationResponse::Acknowledged,
            ExternalSimulationRequest::RemovePlayer(_) => {
                ExternalSimulationResponse::PlayerRemoved(true)
            }
            ExternalSimulationRequest::ApplyCommand { payload, .. } => {
                self.shown = payload[0];
                ExternalSimulationResponse::Acknowledged
            }
            ExternalSimulationRequest::AdvanceTick => {
                self.tick += 1;
                ExternalSimulationResponse::TickAdvanced(self.tick)
            }
            _ => ExternalSimulationResponse::Snapshot(SimulationSnapshot::new(
                self.tick,
                vec![self.shown],
            )),
        };
        encode_external_simulation_response(operation, &response).unwrap()
    }
}

/// A bridge that writes down every exchange.
struct Recorder {
    game: Mutex<Remote>,
    transcript: Arc<Mutex<Vec<(Vec<u8>, Vec<u8>)>>>,
}

impl ExternalSimulationBridge for Recorder {
    fn exchange(&self, request: &[u8]) -> Result<Vec<u8>, ExternalSimulationError> {
        let answer = self.game.lock().unwrap().answer(request);
        self.transcript.lock().unwrap().push((request.to_vec(), answer.clone()));
        Ok(answer)
    }
}

/// A bridge that insists on a transcript.
struct Transcript {
    exchanges: Arc<Mutex<VecDeque<(Vec<u8>, Vec<u8>)>>>,
}

impl ExternalSimulationBridge for Transcript {
    fn exchange(&self, request: &[u8]) -> Result<Vec<u8>, ExternalSimulationError> {
        let (expected, answer) = self
            .exchanges
            .lock()
            .unwrap()
            .pop_front()
            .ok_or_else(|| ExternalSimulationError::bridge("transcript exhausted"))?;
        if expected != request {
            return Err(ExternalSimulationError::bridge("request mismatch"));
        }
        Ok(answer)
    }
}

#[test]
fn a_replayed_match_asks_an_outside_game_exactly_what_the_live_one_asked() {
    let transcript = Arc::new(Mutex::new(Vec::new()));
    let adapter = ExternalSimulationAdapter::connect(Recorder {
        game: Mutex::new(Remote { tick: 0, shown: 0 }),
        transcript: Arc::clone(&transcript),
    })
    .unwrap();
    assert_eq!(adapter.descriptor().tick_hz, 10);
    let mut runtime = MatchRuntime::new_with_replay_capture(adapter, 10);
    assert_eq!(runtime.max_players(), 3);
    let lease = runtime.admit_player(ReconnectToken([1; 16])).unwrap();
    assert_eq!(
        runtime.submit_command(lease.player_id, lease.connection_epoch, 1, &[42]),
        Ok(CommandOutcome::Applied)
    );
    let checkpoint = runtime.advance_tick().unwrap();
    assert_eq!(checkpoint.payload, vec![42]);
    assert_eq!(runtime.snapshot().unwrap(), checkpoint);

    let rest = Arc::new(Mutex::new(VecDeque::from(transcript.lock().unwrap().clone())));
    let replayed = ExternalSimulationAdapter::connect(Transcript { exchanges: Arc::clone(&rest) });
    let verification =
        verify_replay(replayed.unwrap(), runtime.replay_log().unwrap()).unwrap();
    assert_eq!(verification.final_snapshot, checkpoint);
    assert!(rest.lock().unwrap().is_empty());
}

#[test]
fn outside_ticks_move_by_exactly_one() {
    struct Jumper;
    impl ExternalSimulationBridge for Jumper {
        fn exchange(&self, request: &[u8]) -> Result<Vec<u8>, ExternalSimulationError> {
            let operation = decode_external_simulation_request(request)?.operation();
            let response = match operation {
                ExternalSimulationOperation::Describe => {
                    ExternalSimulationResponse::Descriptor(descriptor())
                }
                _ => ExternalSimulationResponse::TickAdvanced(9),
            };
            encode_external_simulation_response(operation, &response)
        }
    }
    let mut adapter = ExternalSimulationAdapter::connect(Jumper).unwrap();
    assert_eq!(
        adapter.advance_tick().unwrap_err().to_string(),
        "external simulation tick mismatch: expected 8, got 9"
    );
    assert_eq!(adapter.current_tick(), 7);
    assert_eq!(
        adapter.snapshot_for(1).unwrap_err().to_string(),
        "external simulation exposes shared snapshots only"
    );
}

#[test]
fn external_contract_and_errors_are_described() {
    let contract = external_simulation_protocol_contract();
    assert_eq!(contract.version, 1);
    assert_eq!(contract.command_payload_bytes, 1024);
    assert_eq!(contract.snapshot_payload_bytes, 65535);
    assert_eq!(contract.error_payload_bytes, 1024);
    assert_eq!(contract.maximum_frame_bytes, 65556);
    let described = [
        (
            ExternalSimulationError::Bridge("x".to_owned()),
            "external simulation bridge failed: x",
        ),
        (
            ExternalSimulationError::UnsupportedVersion(2),
            "unsupported external simulation protocol version 2",
        ),
        (
            ExternalSimulationError::UnknownOperation(8),
            "unknown external simulation operation 8",
        ),
        (
            ExternalSimulationError::UnexpectedStatus(2),
            "unexpected external simulation response status 2",
        ),
        (
            ExternalSimulationError::UnexpectedOperation {
                expected: ExternalSimulationOperation::Describe,
                actual: ExternalSimulationOperation::SnapshotFor,
            },
            "external simulation response operation SnapshotFor does not match request Describe",
        ),
        (
            ExternalSimulationError::IncorrectLength { expected: 2, actual: 1 },
            "external simulation frame expected 2 bytes, received 1",
        ),
        (
            ExternalSimulationError::PayloadTooLarge { maximum: 2, actual: 3 },
            "external simulation payload size 3 exceeds maximum 2",
        ),
        (
            ExternalSimulationError::InvalidSequence,
            "external simulation command sequence must be non-zero",
        ),
        (
            ExternalSimulationError::InvalidSnapshotScope(2),
            "invalid external simulation snapshot scope 2",
        ),
        (
            ExternalSimulationError::InvalidBoolean(2),
            "invalid external simulation boolean 2",
        ),
        (
            ExternalSimulationError::InvalidUtf8,
            "external simulation error payload is not UTF-8",
        ),
        (
            ExternalSimulationError::InvalidStateHash { expected: 1, actual: 2 },
            "external simulation snapshot hash mismatch: expected 0x0000000000000001, got 0x0000000000000002",
        ),
        (
            ExternalSimulationError::InvalidDescriptor("x"),
            "invalid external simulation descriptor: x",
        ),
        (
            ExternalSimulationError::Remote("x".to_owned()),
            "external simulation rejected operation: x",
        ),
    ];
    for (error, words) in described {
        assert_eq!(error.to_string(), words);
    }
}

/// A game that takes players in and turns every removal down.
struct Keeper;

impl ExternalSimulationBridge for Keeper {
    fn exchange(&self, request: &[u8]) -> Result<Vec<u8>, ExternalSimulationError> {
        let operation = decode_external_simulation_request(request)?.operation();
        let response = match operation {
            ExternalSimulationOperation::Describe => {
                ExternalSimulationResponse::Descriptor(descriptor())
            }
            ExternalSimulationOperation::RemovePlayer => {
                ExternalSimulationResponse::Rejected("stay".to_owned())
            }
            _ => ExternalSimulationResponse::Acknowledged,
        };
        encode_external_simulation_response(operation, &response)
    }
}

const REFUSED: &str = "external simulation rejected operation: stay";

#[test]
fn rejected_removals_are_told_where_they_can_be() {
    let mut adapter = ExternalSimulationAdapter::connect(Keeper).unwrap();
    assert!(!adapter.remove_player(1));
    assert_eq!(adapter.try_remove_player(1).unwrap_err().to_string(), REFUSED);
    assert_eq!(
        adapter.remove_elsewhere(1).unwrap().unwrap_err().to_string(),
        REFUSED
    );
    assert_eq!(DemoSimulation::new().remove_elsewhere(1), None);
    assert_eq!(DemoSimulation::new().try_remove_player(1), Ok(false));
}

#[test]
fn rejected_aborts_keep_the_session_and_tell_why() {
    let adapter = ExternalSimulationAdapter::connect(Keeper).unwrap();
    let mut runtime = MatchRuntime::new_with_replay_capture(adapter, 0);
    let lease = runtime.admit_player(ReconnectToken([1; 16])).unwrap();
    let error = runtime
        .abort_admission(lease.player_id, lease.connection_epoch)
        .unwrap_err();
    assert_eq!(error.to_string(), format!("simulation error: {REFUSED}"));
    assert_eq!(runtime.slot_count(), 1);
    assert_eq!(runtime.replay_log().unwrap().records().len(), 1);
}

#[test]
fn rejected_removals_end_a_replay_with_the_games_words() {
    let mut log = ReplayLog::default();
    log.append(ReplayRecord::PlayerAdmitted { tick: 7, player_id: 1 });
    log.append(ReplayRecord::PlayerRemoved { tick: 7, player_id: 1 });
    let adapter = ExternalSimulationAdapter::connect(Keeper).unwrap();
    assert_eq!(
        verify_replay(adapter, &log).unwrap_err().to_string(),
        format!("replay simulation failed: {REFUSED}")
    );
}
