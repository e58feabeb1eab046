use game_server::recovery::{recovery_temp_name, stored_image_size};
use game_server::{
    encode_demo_command, CommandOutcome, DemoSimulation, GameSimulation, MatchRuntime, PlayerId,
    ReconnectToken,
    RecoverableSession, RecoveryError, RecoveryImage, ReplayError, ReplayLog, ReplayRecord,
    RuntimeRecoveryError, SessionRecoveryError, SessionRecoverySnapshot, SimulationError,
    SimulationSnapshot,
};

fn slot(player_id: u32) -> RecoverableSession {
    RecoverableSession {
        player_id,
        reconnect_token: ReconnectToken([7; 16]),
        connection_epoch: 2,
        remaining_grace_ticks: 600,
    }
}

fn image_of(current_tick: u64, records: Vec<ReplayRecord>, slots: Vec<RecoverableSession>) -> RecoveryImage {
    let mut replay = ReplayLog::default();
    for record in records {
        replay.append(record);
    }
    RecoveryImage {
        current_tick,
        reconnect_grace_ticks: 600,
        replay,
        sessions: SessionRecoverySnapshot { next_player_id: 2, sessions: slots },
    }
}

fn history() -> Vec<ReplayRecord> {
    let mut simulation = DemoSimulation::new();
    simulation.add_player(1).unwrap();
    simulation.advance_tick().unwrap();
    vec![
        ReplayRecord::PlayerAdmitted { tick: 0, player_id: 1 },
        ReplayRecord::Checkpoint { snapshot: simulation.snapshot().unwrap() },
    ]
}

fn image() -> RecoveryImage {
    image_of(1, history(), vec![slot(1)])
}

fn restored(image: RecoveryImage) -> Result<u64, RuntimeRecoveryError> {
    MatchRuntime::restore_from_recovery(DemoSimulation::new(), image)
        .map(|runtime| runtime.current_tick())
}

#[test]
fn recovery_layout_is_header_slots_and_history() {
    let encoded = image().encode().unwrap();
    assert_eq!(&encoded[..5], b"GSRC\x01");
    assert_eq!(encoded.len(), 31 + 32 + image().replay.encode().unwrap().len());
    assert_eq!(&encoded[31 + 32..], image().replay.encode().unwrap().as_slice());
}

#[test]
fn recovery_decoder_reports_every_fault() {
    let valid = image().encode().unwrap();
    assert_eq!(RecoveryImage::decode(&valid[..30]), Err(RecoveryError::Truncated));
    assert_eq!(
        RecoveryImage::decode(&valid[..valid.len() - 1]),
        Err(RecoveryError::Truncated)
    );
    let mut wrong = valid.clone();
    wrong.push(0);
    assert_eq!(RecoveryImage::decode(&wrong), Err(RecoveryError::TrailingBytes(1)));
    let mut wrong = valid.clone();
    wrong[0] = b'X';
    assert_eq!(RecoveryImage::decode(&wrong), Err(RecoveryError::InvalidMagic));
    let mut wrong = valid.clone();
    wrong[4] = 9;
    assert_eq!(RecoveryImage::decode(&wrong), Err(RecoveryError::UnsupportedVersion(9)));
    let mut wrong = valid.clone();
    wrong[31 + 32] = b'X';
    assert_eq!(
        RecoveryImage::decode(&wrong),
        Err(RecoveryError::Replay(ReplayError::InvalidMagic))
    );
}

#[test]
fn recovery_images_must_fit_together() {
    assert_eq!(
        image_of(2, history(), vec![slot(1)]).encode(),
        Err(RecoveryError::ReplayTickMismatch { expected: 2, actual: Some(1) })
    );
    assert_eq!(
        image_of(2, Vec::new(), Vec::new()).encode(),
        Err(RecoveryError::ReplayTickMismatch { expected: 2, actual: None })
    );
    assert_eq!(
        image_of(1, history(), Vec::new()).encode(),
        Err(RecoveryError::ReplayPlayerSetMismatch)
    );
}

#[test]
fn recovery_needs_a_checkpoint_at_its_end() {
    let records = vec![ReplayRecord::PlayerAdmitted { tick: 0, player_id: 1 }];
    assert_eq!(
        restored(image_of(0, records, vec![slot(1)])),
        Err(RuntimeRecoveryError::Recovery(RecoveryError::MissingFinalCheckpoint(0)))
    );
    assert_eq!(restored(image()), Ok(1));
}

#[test]
fn recovery_rejects_histories_that_no_match_has() {
    let mut simulation = DemoSimulation::new();
    simulation.add_player(1).unwrap();
    simulation.advance_tick().unwrap();
    let late = vec![
        ReplayRecord::PlayerAdmitted { tick: 0, player_id: 1 },
        ReplayRecord::Checkpoint { snapshot: SimulationSnapshot::new(9, vec![0]) },
    ];
    assert_eq!(
        restored(image_of(9, late, vec![slot(1)])),
        Err(RuntimeRecoveryError::Recovery(RecoveryError::ReplayTickGapTooLarge {
            from_tick: 0,
            to_tick: 9,
        }))
    );
    assert_eq!(
        image().restore_simulation(simulation).map(|state| state.current_tick()),
        Err(RecoveryError::ReplayStartsBeforeSimulation { simulation_tick: 1, record_tick: 0 })
    );
    let gone = vec![
        ReplayRecord::PlayerRemoved { tick: 0, player_id: 1 },
        ReplayRecord::Checkpoint { snapshot: DemoSimulation::new().snapshot().unwrap() },
    ];
    assert_eq!(
        restored(image_of(0, gone, Vec::new())),
        Err(RuntimeRecoveryError::Recovery(RecoveryError::MissingPlayerOnRemoval(1)))
    );
}

#[test]
fn recovery_rejects_slots_that_contradict_themselves() {
    let mut wrong = image();
    wrong.sessions.sessions[0].connection_epoch = 0;
    assert_eq!(
        restored(wrong),
        Err(RuntimeRecoveryError::Recovery(RecoveryError::Session(
            SessionRecoveryError::InvalidConnectionEpoch(1)
        )))
    );
}

#[test]
fn recovery_asks_the_game_to_agree() {
    let mut records = vec![ReplayRecord::PlayerAdmitted { tick: 0, player_id: 1 }];
    records.push(ReplayRecord::CommandApplied {
        tick: 0,
        player_id: 1,
        sequence: 1,
        payload: vec![1, 2, 3],
    });
    assert!(matches!(
        restored(image_of(0, records, vec![slot(1)])),
        Err(RuntimeRecoveryError::Recovery(RecoveryError::Simulation(_)))
    ));
}

#[test]
fn recovered_sequences_are_the_last_of_each_slot() {
    let mut records = vec![
        ReplayRecord::PlayerAdmitted { tick: 0, player_id: 1 },
        ReplayRecord::PlayerAdmitted { tick: 0, player_id: 2 },
    ];
    for sequence in [3, 8] {
        records.push(ReplayRecord::CommandApplied {
            tick: 0,
            player_id: 2,
            sequence,
            payload: encode_demo_command(0, 0).unwrap().to_vec(),
        });
    }
    let sequences = image_of(0, records, vec![slot(1), slot(2)]).last_sequences();
    assert_eq!(sequences.get(&1), Some(&0));
    assert_eq!(sequences.get(&2), Some(&8));
}

#[test]
fn temporary_names_stand_beside_the_image() {
    assert_eq!(recovery_temp_name(Some("match.bin")), ".match.bin.tmp");
    assert_eq!(recovery_temp_name(None), ".recovery.tmp");
    assert_eq!(stored_image_size(268435456), Ok(268435456));
    assert_eq!(
        stored_image_size(268435457),
        Err(game_server::RecoveryError::ImageTooLarge(268435457))
    );
}

#[test]
fn recovery_errors_are_described() {
    let described = [
        (RecoveryError::InvalidMagic, "invalid recovery image magic"),
        (RecoveryError::UnsupportedVersion(9), "unsupported recovery image version 9"),
        (RecoveryError::Truncated, "truncated recovery image"),
        (RecoveryError::TrailingBytes(3), "recovery image has 3 trailing bytes"),
        (RecoveryError::ImageTooLarge(5), "recovery image size 5 exceeds limit"),
        (RecoveryError::ReplayTooLarge(5), "replay payload is too large: 5"),
        (
            RecoveryError::SessionCountTooLarge(5),
            "recovery session count is too large: 5",
        ),
        (
            RecoveryError::ReplayTickMismatch { expected: 2, actual: Some(1) },
            "recovery replay final tick Some(1) does not match image tick 2",
        ),
        (
            RecoveryError::ReplayTickMismatch { expected: 2, actual: None },
            "recovery replay final tick None does not match image tick 2",
        ),
        (
            RecoveryError::ReplayPlayerSetMismatch,
            "recovery replay players do not match session snapshot",
        ),
        (
            RecoveryError::ReplayTickGapTooLarge { from_tick: 0, to_tick: 9 },
            "recovery replay tick gap from 0 to 9 exceeds 1",
        ),
        (
            RecoveryError::ReplayStartsBeforeSimulation { simulation_tick: 5, record_tick: 4 },
            "recovery replay record tick 4 precedes simulation tick 5",
        ),
        (
            RecoveryError::MissingPlayerOnRemoval(4),
            "recovery replay attempted to remove missing player 4",
        ),
        (
            RecoveryError::MissingFinalCheckpoint(4),
            "recovery replay does not end with a checkpoint at tick 4",
        ),
        (
            RecoveryError::Replay(ReplayError::Truncated),
            "replay error: truncated replay log",
        ),
        (
            RecoveryError::Session(SessionRecoveryError::InvalidNextPlayerId),
            "session recovery error: next player id must be non-zero",
        ),
        (
            RecoveryError::Simulation(SimulationError::new("no")),
            "simulation recovery error: no",
        ),
        (RecoveryError::Io("disk".to_owned()), "recovery I/O error: disk"),
    ];
    for (error, words) in described {
        assert_eq!(error.to_string(), words);
    }
    assert_eq!(
        RuntimeRecoveryError::ReplayCaptureDisabled.to_string(),
        "runtime recovery requires replay capture"
    );
    assert_eq!(
        RuntimeRecoveryError::RuntimeNotFrozen.to_string(),
        "runtime must be frozen before recovery"
    );
    assert_eq!(
        RuntimeRecoveryError::Recovery(RecoveryError::Truncated).to_string(),
        "recovery error: truncated recovery image"
    );
}

/// A demo game that counts, out of sight, what it refuses.
struct Grudging {
    game: DemoSimulation,
    refused: u32,
}

impl Grudging {
    fn new() -> Self {
        Grudging { game: DemoSimulation::new(), refused: 0 }
    }
}

impl GameSimulation for Grudging {
    fn tick_hz(&self) -> u16 {
        self.game.tick_hz()
    }
    fn max_players(&self) -> usize {
        self.game.max_players()
    }
    fn current_tick(&self) -> u64 {
        self.game.current_tick()
    }
    fn add_player(&mut self, player_id: PlayerId) -> Result<(), SimulationError> {
        self.game.add_player(player_id)
    }
    fn remove_player(&mut self, player_id: PlayerId) -> bool {
        self.game.remove_player(player_id)
    }
    fn apply_command(
        &mut self,
        player_id: PlayerId,
        sequence: u32,
        payload: &[u8],
    ) -> Result<(), SimulationError> {
        let result = self.game.apply_command(player_id, sequence, payload);
        if result.is_err() {
            self.refused += 1;
        }
        result
    }
    fn advance_tick(&mut self) -> Result<(), SimulationError> {
        self.game.advance_tick()
    }
    fn snapshot(&self) -> Result<SimulationSnapshot, SimulationError> {
        self.game.snapshot()
    }
}

#[test]
fn what_no_snapshot_shows_does_not_keep_a_match_from_coming_back() {
    let mut runtime = MatchRuntime::new_with_replay_capture(Grudging::new(), 10);
    let lease = runtime.admit_player(ReconnectToken([1; 16])).unwrap();
    let step = encode_demo_command(1, 0).unwrap();
    assert!(runtime.submit_command(1, lease.connection_epoch, 4, &[9, 9]).is_err());
    runtime.submit_command(1, lease.connection_epoch, 5, &step).unwrap();
    runtime.advance_tick().unwrap();
    assert_eq!(runtime.simulation().refused, 1);
    runtime.freeze_for_recovery();
    let image = runtime.recovery_image().unwrap();
    let mut restored = MatchRuntime::restore_from_recovery(Grudging::new(), image).unwrap();
    assert_eq!(restored.snapshot().unwrap(), runtime.snapshot().unwrap());
    assert_eq!((restored.slot_count(), restored.active_count()), (1, 0));
    let back = restored
        .reconnect(lease.reconnect_token, ReconnectToken([2; 16]))
        .unwrap();
    assert_eq!(back.player_id, lease.player_id);
    assert_eq!(back.connection_epoch, lease.connection_epoch + 1);
    assert_eq!(
        restored.submit_command(1, back.connection_epoch, 5, &step),
        Ok(CommandOutcome::IgnoredStale)
    );
}
