use game_server::host_transport::{
    image_complaint, route_session, settle_consumption, settle_persistence, validate_host,
    Consumption, HostedControl, Persistence,
};
use game_server::connection::{AdmissionRequest, SnapshotPublication};
use game_server::transport::{
    freeze_and_image, parse_admission_request, publish_tick, start_runtime, tick_interval_micros,
    validate_simulation, ServeAction, ServeEvent, ServePhase, ServeState, StoredRecovery,
    TickOutcome,
};
use game_server::{
    decode_snapshot, BrowserRoutePrefix, ControlContext, ControlService, ControlServiceError,
    DemoSimulation, GameSimulation, MatchControlService, MatchHost, MatchHostTransportError,
    MatchId, MatchRuntime, PlayerId, ReconnectToken, SimulationError, SimulationSnapshot,
    TransportError, WebTransportConfig,
};
use std::path::PathBuf;
use std::sync::Arc;
use std::time::Duration;

fn token(value: u8) -> ReconnectToken {
    ReconnectToken([value; 16])
}

fn id(value: &str) -> MatchId {
    MatchId::new(value).unwrap()
}

/// A game of a chosen rate and size.
#[derive(Debug)]
struct Fixed {
    rate: u16,
    capacity: usize,
}

impl GameSimulation for Fixed {
    fn tick_hz(&self) -> u16 {
        self.rate
    }
    fn max_players(&self) -> usize {
        self.capacity
    }
    fn current_tick(&self) -> u64 {
        0
    }
    fn add_player(&mut self, _player_id: PlayerId) -> Result<(), SimulationError> {
        Ok(())
    }
    fn remove_player(&mut self, _player_id: PlayerId) -> bool {
        true
    }
    fn apply_command(
        &mut self,
        _player_id: PlayerId,
        _sequence: u32,
        _payload: &[u8],
    ) -> Result<(), SimulationError> {
        Ok(())
    }
    fn advance_tick(&mut self) -> Result<(), SimulationError> {
        Err(SimulationError::new("stuck"))
    }
    fn snapshot(&self) -> Result<SimulationSnapshot, SimulationError> {
        Ok(SimulationSnapshot::new(0, Vec::new()))
    }
}

#[test]
fn only_games_that_fit_the_wire_are_served() {
    assert!(validate_simulation(&Fixed { rate: 1, capacity: 65535 }).is_ok());
    assert!(matches!(
        validate_simulation(&Fixed { rate: 0, capacity: 65536 }),
        Err(TransportError::InvalidTickRate)
    ));
    assert!(matches!(
        validate_simulation(&Fixed { rate: 1, capacity: 65536 }),
        Err(TransportError::PlayerCapacityTooLarge(65536))
    ));
    assert_eq!(tick_interval_micros(20), 50_000);
    assert_eq!(tick_interval_micros(3), 333_333);
}

#[test]
fn session_routes_round_trip() {
    let config = WebTransportConfig {
        port: 4433,
        certificate_pem: PathBuf::from("cert.pem"),
        private_key_pem: PathBuf::from("key.pem"),
        session_path: "/game".to_owned(),
        recovery_path: None,
        drain_grace: Duration::from_millis(500),
    };
    let path = config.clone().reconnect_path(token(0xab));
    assert_eq!(path, "/game/reconnect/abababababababababababababababab");
    assert_eq!(
        parse_admission_request(&path, "/game"),
        Some(AdmissionRequest::Reconnect(token(0xab)))
    );
    assert_eq!(parse_admission_request("/other", "/game"), None);
}

#[test]
fn matches_start_from_what_was_stored() {
    let plain = start_runtime(DemoSimulation::new(), 10, StoredRecovery::NotConfigured).unwrap();
    assert!(plain.replay_log().is_none());
    let mut captured = start_runtime(DemoSimulation::new(), 10, StoredRecovery::Missing).unwrap();
    assert!(captured.replay_log().is_some());
    let lease = captured.admit_player(token(1)).unwrap();
    captured.advance_tick().unwrap();
    let image = freeze_and_image(&mut captured, true).unwrap().unwrap();
    let stored = StoredRecovery::Present(image.encode().unwrap());
    let restored = start_runtime(DemoSimulation::new(), 10, stored).unwrap();
    assert_eq!(restored.slot_count(), 1);
    assert_eq!(restored.current_tick(), 1);
    assert_eq!(restored.active_count(), 0);
    assert_eq!(lease.player_id, 1);
    let corrupt = StoredRecovery::Present(b"not a recovery image".to_vec());
    assert!(matches!(
        start_runtime(DemoSimulation::new(), 10, corrupt),
        Err(TransportError::Recovery(text)) if text == "truncated recovery image"
    ));
    assert!(matches!(
        start_runtime(DemoSimulation::new(), 10, StoredRecovery::Unreadable("denied".to_owned())),
        Err(TransportError::Recovery(text)) if text == "denied"
    ));
}

#[test]
fn freezing_without_an_image_only_freezes() {
    let mut runtime = MatchRuntime::new(DemoSimulation::new(), 10);
    assert_eq!(freeze_and_image(&mut runtime, false), Ok(None));
    assert!(runtime.is_frozen());
    let mut runtime = MatchRuntime::new(DemoSimulation::new(), 10);
    assert_eq!(
        freeze_and_image(&mut runtime, true),
        Err("runtime recovery requires replay capture".to_owned())
    );
    assert!(!runtime.is_frozen());
    assert!(!runtime.is_draining());
}

#[test]
fn ticks_lead_to_publications_or_reasons() {
    let mut runtime = MatchRuntime::new(DemoSimulation::new(), 10);
    let TickOutcome::Publish(SnapshotPublication::Shared(frame)) = publish_tick(&mut runtime)
    else {
        panic!("the demo publishes")
    };
    assert_eq!(decode_snapshot(&frame).unwrap().tick, 1);
    runtime.freeze_for_recovery();
    assert_eq!(publish_tick(&mut runtime), TickOutcome::Idle);
    let mut stuck = MatchRuntime::new(Fixed { rate: 1, capacity: 1 }, 10);
    assert_eq!(
        publish_tick(&mut stuck),
        TickOutcome::Failed("simulation error: stuck".to_owned())
    );
}

#[test]
fn a_listener_stops_only_after_its_state_is_saved() {
    let mut state = ServeState::started();
    assert!(state.listens_for_shutdown());
    assert_eq!(state.step(ServeEvent::RecoveryPersisted), ServeAction::Wait);
    assert_eq!(state.step(ServeEvent::ShutdownRequested), ServeAction::BeginDrain);
    assert!(!state.listens_for_shutdown());
    assert_eq!(state.step(ServeEvent::ShutdownRequested), ServeAction::Wait);
    assert_eq!(state.step(ServeEvent::DrainElapsed), ServeAction::PersistRecovery);
    assert_eq!(state.step(ServeEvent::RecoveryFailed), ServeAction::ResumeServing);
    assert_eq!(state.phase, ServePhase::Serving);
    assert_eq!(state.step(ServeEvent::ShutdownRequested), ServeAction::BeginDrain);
    assert_eq!(state.step(ServeEvent::DrainElapsed), ServeAction::PersistRecovery);
    assert_eq!(state.step(ServeEvent::RecoveryPersisted), ServeAction::StopServing);
    assert_eq!(state.phase, ServePhase::Stopped);
    let mut deaf = ServeState::started();
    assert_eq!(deaf.step(ServeEvent::ShutdownSourceClosed), ServeAction::Wait);
    assert!(!deaf.listens_for_shutdown());
    assert_eq!(deaf.step(ServeEvent::ShutdownRequested), ServeAction::Wait);
}

#[test]
fn hosts_name_the_match_that_cannot_be_served() {
    let mut host = MatchHost::new(2).unwrap();
    host.insert(id("a"), MatchRuntime::new(Fixed { rate: 1, capacity: 1 }, 1)).unwrap();
    host.insert(id("b"), MatchRuntime::new(Fixed { rate: 0, capacity: 1 }, 1)).unwrap();
    assert_eq!(
        validate_host(&host),
        Err(MatchHostTransportError::InvalidTickRate(id("b")))
    );
    let mut host = MatchHost::new(1).unwrap();
    host.insert(id("c"), MatchRuntime::new(Fixed { rate: 1, capacity: 70000 }, 1)).unwrap();
    assert_eq!(
        validate_host(&host),
        Err(MatchHostTransportError::PlayerCapacityTooLarge {
            match_id: id("c"),
            capacity: 70000
        })
    );
}

#[test]
fn sessions_are_routed_to_hosted_matches_only() {
    let prefix = BrowserRoutePrefix::new("/game").unwrap();
    let ids = [id("one"), id("two")];
    assert_eq!(
        route_session(&prefix, "/game/matches/two", &ids),
        Some((id("two"), AdmissionRequest::New))
    );
    assert_eq!(
        route_session(&prefix, &prefix.reconnect_path(&id("one"), token(3)), &ids),
        Some((id("one"), AdmissionRequest::Reconnect(token(3))))
    );
    assert_eq!(route_session(&prefix, "/game/matches/three", &ids), None);
    assert_eq!(route_session(&prefix, "/game/matches/one/two", &ids), None);
    assert_eq!(route_session(&prefix, "/elsewhere", &ids), None);
}

#[derive(Debug)]
struct NameTeller;

impl MatchControlService for NameTeller {
    fn handle(
        &self,
        match_id: &MatchId,
        _context: ControlContext,
        _payload: &[u8],
    ) -> Result<Vec<u8>, ControlServiceError> {
        Ok(match_id.as_str().as_bytes().to_vec())
    }
}

#[test]
fn hosted_control_speaks_for_its_match() {
    let control = HostedControl::new(id("one"), Arc::new(NameTeller));
    let context = ControlContext { player_id: 1, connection_epoch: 1 };
    assert_eq!(control.handle(context, b"who"), Ok(b"one".to_vec()));
}

#[test]
fn bundles_are_settled_by_what_is_left_on_disk() {
    let failed = || Err("late".to_owned());
    assert_eq!(settle_consumption(Ok(()), true, true), Ok(Consumption::Consumed));
    assert_eq!(
        settle_consumption(failed(), false, false),
        Ok(Consumption::ConsumedWithComplaint("late".to_owned()))
    );
    assert_eq!(
        settle_consumption(failed(), true, false),
        Err(MatchHostTransportError::Recovery("late".to_owned()))
    );
    assert_eq!(
        settle_consumption(failed(), false, true),
        Err(MatchHostTransportError::Recovery("late".to_owned()))
    );
    assert_eq!(settle_persistence(Ok(()), true, true), Ok(Persistence::Saved));
    assert_eq!(
        settle_persistence(failed(), false, true),
        Ok(Persistence::SavedWithComplaint("late".to_owned()))
    );
    assert_eq!(settle_persistence(failed(), true, true), failed().map(|_: ()| Persistence::Saved));
    assert_eq!(
        settle_persistence(failed(), false, false),
        failed().map(|_: ()| Persistence::Saved)
    );
    assert_eq!(image_complaint(&id("one"), "no"), "match one: no");
}

#[test]
fn transport_errors_are_described() {
    let text = || "x".to_owned();
    assert_eq!(TransportError::Identity(text()).to_string(), "TLS identity error: x");
    assert_eq!(
        TransportError::Endpoint(text()).to_string(),
        "WebTransport endpoint error: x"
    );
    assert_eq!(TransportError::Recovery(text()).to_string(), "recovery error: x");
    assert_eq!(
        TransportError::InvalidTickRate.to_string(),
        "simulation tick rate must be non-zero"
    );
    assert_eq!(
        TransportError::PlayerCapacityTooLarge(70000).to_string(),
        "player capacity 70000 exceeds wire limit"
    );
    let described = [
        (MatchHostTransportError::Identity(text()), "TLS identity error: x"),
        (MatchHostTransportError::Endpoint(text()), "WebTransport endpoint error: x"),
        (MatchHostTransportError::Recovery(text()), "host recovery error: x"),
        (
            MatchHostTransportError::EmptyHost,
            "match host must contain at least one match",
        ),
        (
            MatchHostTransportError::HostAlreadyDraining,
            "match host cannot start transport while already draining",
        ),
        (
            MatchHostTransportError::InvalidTickRate(id("a")),
            "match a has a zero simulation tick rate",
        ),
        (
            MatchHostTransportError::PlayerCapacityTooLarge { match_id: id("a"), capacity: 9 },
            "match a player capacity 9 exceeds wire limit",
        ),
    ];
    for (error, words) in described {
        assert_eq!(error.to_string(), words);
    }
}
