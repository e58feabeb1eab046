use game_server::replay::{RECORD_HEADER_BYTES, REPLAY_HEADER_BYTES};
use game_server::{
    encode_demo_command, verify_replay, DemoSimulation, GameSimulation, PlayerId, ReplayError,
    ReplayLog, ReplayRecord, SimulationError, SimulationSnapshot,
};

fn log_of(records: Vec<ReplayRecord>) -> ReplayLog {
    let mut log = ReplayLog::default();
    for record in records {
        log.append(record);
    }
    log
}

fn admitted(tick: u64, player_id: PlayerId) -> ReplayRecord {
    ReplayRecord::PlayerAdmitted { tick, player_id }
}

fn command(tick: u64, player_id: PlayerId, sequence: u32) -> ReplayRecord {
    ReplayRecord::CommandApplied {
        tick,
        player_id,
        sequence,
        payload: encode_demo_command(1, 0).unwrap().to_vec(),
    }
}

fn refusal(records: Vec<ReplayRecord>) -> ReplayError {
    verify_replay(DemoSimulation::new(), &log_of(records)).unwrap_err()
}

fn bytes() -> Vec<u8> {
    log_of(vec![admitted(0, 7), command(0, 7, 9)]).encode().unwrap()
}

#[test]
fn replay_decoder_reports_every_fault() {
    assert_eq!(ReplayLog::decode(&[]), Err(ReplayError::Truncated));
    let mut wrong = bytes();
    wrong[0] = b'X';
    assert_eq!(ReplayLog::decode(&wrong), Err(ReplayError::InvalidMagic));
    let mut wrong = bytes();
    wrong[4] = 2;
    assert_eq!(ReplayLog::decode(&wrong), Err(ReplayError::UnsupportedVersion(2)));
    let mut wrong = bytes();
    wrong.pop();
    assert_eq!(ReplayLog::decode(&wrong), Err(ReplayError::Truncated));
    let mut wrong = bytes();
    wrong[REPLAY_HEADER_BYTES] = 9;
    assert_eq!(ReplayLog::decode(&wrong), Err(ReplayError::UnknownRecordKind(9)));
    let mut wrong = bytes();
    wrong[REPLAY_HEADER_BYTES + 9] = 0xff;
    assert!(matches!(
        ReplayLog::decode(&wrong),
        Err(ReplayError::RecordTooLarge(_))
    ));
    let mut wrong = bytes();
    wrong[REPLAY_HEADER_BYTES] = 3;
    wrong[REPLAY_HEADER_BYTES + 12] = 5;
    assert_eq!(
        ReplayLog::decode(&wrong),
        Err(ReplayError::InvalidRecordLength { kind: 3, expected: 4, actual: 5 })
    );
    let second = REPLAY_HEADER_BYTES + RECORD_HEADER_BYTES + 4;
    let mut wrong = bytes();
    wrong[second + RECORD_HEADER_BYTES + 7] = 0;
    assert_eq!(ReplayLog::decode(&wrong), Err(ReplayError::InvalidSequence));
    let mut wrong = bytes();
    wrong[second + RECORD_HEADER_BYTES + 10] = 0xff;
    assert!(matches!(
        ReplayLog::decode(&wrong),
        Err(ReplayError::PayloadTooLarge { maximum: 1024, .. })
    ));
    let backward = log_of(vec![admitted(3, 1), admitted(2, 2)]).encode().unwrap();
    assert_eq!(
        ReplayLog::decode(&backward),
        Err(ReplayError::NonMonotonicTick { previous: 3, actual: 2 })
    );
}

#[test]
fn replay_encoder_refuses_what_it_could_not_read_back() {
    assert_eq!(
        log_of(vec![command(0, 1, 0)]).encode(),
        Err(ReplayError::InvalidSequence)
    );
    let oversized = ReplayRecord::CommandApplied {
        tick: 0,
        player_id: 1,
        sequence: 1,
        payload: vec![0; 1025],
    };
    assert_eq!(
        log_of(vec![oversized]).encode(),
        Err(ReplayError::PayloadTooLarge { maximum: 1024, actual: 1025 })
    );
    let mut snapshot = SimulationSnapshot::new(1, vec![1]);
    snapshot.state_hash ^= 1;
    assert!(matches!(
        log_of(vec![ReplayRecord::Checkpoint { snapshot }]).encode(),
        Err(ReplayError::InvalidCheckpointHash { tick: 1, .. })
    ));
}

#[test]
fn interpreter_refuses_impossible_histories() {
    assert_eq!(
        refusal(vec![admitted(0, 2), admitted(0, 2)]),
        ReplayError::NonIncreasingPlayerId { previous: 2, actual: 2 }
    );
    assert_eq!(refusal(vec![command(0, 1, 1)]), ReplayError::UnknownCommandPlayer(1));
    assert_eq!(
        refusal(vec![admitted(0, 1), command(0, 1, 5), command(0, 1, 5)]),
        ReplayError::NonIncreasingSequence { player_id: 1, previous: 5, actual: 5 }
    );
    assert_eq!(
        refusal(vec![admitted(0, 1), command(0, 1, 0)]),
        ReplayError::InvalidSequence
    );
    assert_eq!(
        refusal(vec![ReplayRecord::PlayerRemoved { tick: 0, player_id: 4 }]),
        ReplayError::MissingPlayerOnRemoval(4)
    );
    assert_eq!(
        refusal(vec![admitted(1, 1), admitted(0, 2)]),
        ReplayError::NonMonotonicTick { previous: 1, actual: 0 }
    );
    let mut late = DemoSimulation::new();
    late.advance_tick().unwrap();
    assert_eq!(
        verify_replay(late, &log_of(vec![admitted(0, 1)])).unwrap_err(),
        ReplayError::ReplayStartsBeforeSimulation { simulation_tick: 1, record_tick: 0 }
    );
    assert!(matches!(
        refusal(vec![ReplayRecord::Checkpoint {
            snapshot: SimulationSnapshot::new(1, vec![9]),
        }]),
        ReplayError::CheckpointMismatch { tick: 1, .. }
    ));
    let mut crowd: Vec<ReplayRecord> = Vec::new();
    for player_id in 1..=17 {
        crowd.push(admitted(0, player_id));
    }
    assert!(matches!(refusal(crowd), ReplayError::Simulation(_)));
}

/// A game whose snapshots carry another game's hash.
#[derive(Default)]
struct TwoFaced {
    tick: u64,
}

impl GameSimulation for TwoFaced {
    fn tick_hz(&self) -> u16 {
        1
    }
    fn max_players(&self) -> usize {
        1
    }
    fn current_tick(&self) -> u64 {
        self.tick
    }
    fn add_player(&mut self, _player_id: PlayerId) -> Result<(), SimulationError> {
        Ok(())
    }
    fn remove_player(&mut self, _player_id: PlayerId) -> bool {
        true
    }
    fn apply_command(
        &mut self,
        _player_id: PlayerId,
        _sequence: u32,
        _payload: &[u8],
    ) -> Result<(), SimulationError> {
        Ok(())
    }
    fn advance_tick(&mut self) -> Result<(), SimulationError> {
        self.tick += 1;
        Ok(())
    }
    fn snapshot(&self) -> Result<SimulationSnapshot, SimulationError> {
        let mut snapshot = SimulationSnapshot::new(self.tick, vec![1]);
        snapshot.payload = vec![2];
        Ok(snapshot)
    }
}

#[test]
fn checkpoints_compare_payloads_beyond_their_hash() {
    let log = log_of(vec![ReplayRecord::Checkpoint {
        snapshot: SimulationSnapshot::new(1, vec![1]),
    }]);
    assert_eq!(
        verify_replay(TwoFaced::default(), &log).unwrap_err(),
        ReplayError::CheckpointPayloadMismatch(1)
    );
}

#[test]
fn replaying_twice_gives_the_same() {
    let mut source = DemoSimulation::new();
    source.add_player(1).unwrap();
    source.advance_tick().unwrap();
    let log = log_of(vec![
        admitted(0, 1),
        ReplayRecord::Checkpoint { snapshot: source.snapshot().unwrap() },
    ]);
    assert_eq!(
        verify_replay(DemoSimulation::new(), &log),
        verify_replay(DemoSimulation::new(), &log)
    );
    assert_eq!(
        verify_replay(DemoSimulation::new(), &log).unwrap().final_snapshot,
        source.snapshot().unwrap()
    );
}

#[test]
fn records_know_their_tick() {
    assert_eq!(admitted(4, 1).tick(), 4);
    assert_eq!(
        ReplayRecord::Checkpoint { snapshot: SimulationSnapshot::new(6, Vec::new()) }.tick(),
        6
    );
}

#[test]
fn replay_errors_are_described() {
    let described = [
        (ReplayError::InvalidMagic, "invalid replay log magic"),
        (ReplayError::UnsupportedVersion(2), "unsupported replay format version 2"),
        (ReplayError::UnknownRecordKind(9), "unknown replay record kind 9"),
        (ReplayError::Truncated, "truncated replay log"),
        (ReplayError::RecordTooLarge(70000), "replay record body is too large: 70000"),
        (
            ReplayError::InvalidRecordLength { kind: 3, expected: 4, actual: 5 },
            "replay record kind 3 expected 4 body bytes, received 5",
        ),
        (ReplayError::InvalidSequence, "replay command sequence must be non-zero"),
        (
            ReplayError::NonIncreasingPlayerId { previous: 2, actual: 1 },
            "replay player ID 1 must be greater than previously admitted ID 2",
        ),
        (ReplayError::UnknownCommandPlayer(4), "replay command addressed inactive player 4"),
        (
            ReplayError::NonIncreasingSequence { player_id: 1, previous: 5, actual: 4 },
            "replay command sequence 4 for player 1 must exceed 5",
        ),
        (
            ReplayError::PayloadTooLarge { maximum: 1024, actual: 1025 },
            "replay payload size 1025 exceeds maximum 1024",
        ),
        (
            ReplayError::InvalidCheckpointHash { tick: 7, expected: 1, actual: 2 },
            "replay checkpoint 7 hash mismatch: expected 0x0000000000000001, got 0x0000000000000002",
        ),
        (
            ReplayError::NonMonotonicTick { previous: 3, actual: 2 },
            "replay tick moved backward from 3 to 2",
        ),
        (
            ReplayError::TickGapTooLarge { from_tick: 0, to_tick: 9, maximum: 1 },
            "replay tick gap from 0 to 9 exceeds maximum 1",
        ),
        (
            ReplayError::ReplayStartsBeforeSimulation { simulation_tick: 5, record_tick: 4 },
            "replay record tick 4 precedes simulation tick 5",
        ),
        (
            ReplayError::MissingPlayerOnRemoval(4),
            "replay attempted to remove missing player 4",
        ),
        (
            ReplayError::CheckpointMismatch { tick: 7, expected_hash: 1, actual_hash: 2 },
            "replay diverged at checkpoint 7: expected 0x0000000000000001, got 0x0000000000000002",
        ),
        (
            ReplayError::CheckpointPayloadMismatch(7),
            "replay payload diverged at checkpoint 7",
        ),
        (
            ReplayError::Simulation(SimulationError::new("no")),
            "replay simulation failed: no",
        ),
    ];
    for (error, words) in described {
        assert_eq!(error.to_string(), words);
    }
}
