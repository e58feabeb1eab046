use game_server::connection::{
    rollback_failed_welcome, snapshot_for_connection, snapshot_publication, AdmissionRequest,
    SnapshotPublication,
};
use game_server::{
    DemoSimulation, GameSimulation, MatchRuntime, ReconnectToken, SimulationSnapshot,
    SnapshotScope, RECONNECT_TOKEN_BYTES,
};
use std::sync::Arc;
use tokio::sync::broadcast;

#[test]
fn player_scoped_publication_never_broadcasts_canonical_payload() {
    let snapshot = SimulationSnapshot::new(7, b"canonical-private-state".to_vec());

    assert_eq!(
        snapshot_publication(SnapshotScope::PlayerScoped, snapshot).unwrap(),
        SnapshotPublication::PlayerScoped
    );
}

#[test]
fn shared_publication_keeps_the_single_encode_fast_path() {
    let snapshot = SimulationSnapshot::new(7, b"shared-state".to_vec());

    assert!(matches!(
        snapshot_publication(SnapshotScope::Shared, snapshot).unwrap(),
        SnapshotPublication::Shared(_)
    ));
}

#[test]
fn failed_new_welcome_releases_unusable_slot() {
    let mut runtime = MatchRuntime::new_with_replay_capture(DemoSimulation::new(), 10);
    let lease = runtime
        .admit_player(ReconnectToken([1; RECONNECT_TOKEN_BYTES]))
        .unwrap();

    rollback_failed_welcome(&mut runtime, AdmissionRequest::New, lease).unwrap();

    assert_eq!(runtime.slot_count(), 0);
    assert_eq!(runtime.active_count(), 0);
}

#[test]
fn failed_reconnect_welcome_restores_the_client_known_token() {
    let previous_token = ReconnectToken([1; RECONNECT_TOKEN_BYTES]);
    let replacement_token = ReconnectToken([2; RECONNECT_TOKEN_BYTES]);
    let next_token = ReconnectToken([3; RECONNECT_TOKEN_BYTES]);
    let mut runtime = MatchRuntime::new_with_replay_capture(DemoSimulation::new(), 10);
    let original = runtime.admit_player(previous_token).unwrap();
    assert!(runtime.disconnect(original.player_id, original.connection_epoch));
    let failed = runtime
        .reconnect(previous_token, replacement_token)
        .unwrap();

    rollback_failed_welcome(
        &mut runtime,
        AdmissionRequest::Reconnect(previous_token),
        failed,
    )
    .unwrap();

    let recovered = runtime.reconnect(previous_token, next_token).unwrap();
    assert_eq!(recovered.player_id, original.player_id);
    assert!(
        runtime
            .reconnect(replacement_token, previous_token)
            .is_err()
    );
}
#[test]
fn disconnected_and_replaced_leases_cannot_receive_shared_snapshots() {
    let mut runtime = MatchRuntime::new(DemoSimulation::new(), 10);
    let lease = runtime
        .admit_player(ReconnectToken([1; RECONNECT_TOKEN_BYTES]))
        .unwrap();
    let snapshot = runtime.advance_tick().unwrap();
    let publication = snapshot_publication(runtime.snapshot_scope(), snapshot).unwrap();
    let expected = snapshot_for_connection(&runtime, lease, &publication).unwrap();
    assert!(runtime.disconnect(lease.player_id, lease.connection_epoch));
    assert!(snapshot_for_connection(&runtime, lease, &publication).is_err());
    let replacement = runtime
        .reconnect(
            lease.reconnect_token,
            ReconnectToken([2; RECONNECT_TOKEN_BYTES]),
        )
        .unwrap();
    assert!(snapshot_for_connection(&runtime, lease, &publication).is_err());
    assert_eq!(
        snapshot_for_connection(&runtime, replacement, &publication).unwrap(),
        expected
    );
}
struct PrivateSimulation {
    tick: u64,
}

impl GameSimulation for PrivateSimulation {
    fn tick_hz(&self) -> u16 {
        20
    }
    fn max_players(&self) -> usize {
        2
    }
    fn current_tick(&self) -> u64 {
        self.tick
    }
    fn add_player(
        &mut self,
        _player_id: game_server::PlayerId,
    ) -> Result<(), game_server::SimulationError> {
        Ok(())
    }
    fn remove_player(&mut self, _player_id: game_server::PlayerId) -> bool {
        true
    }
    fn apply_command(
        &mut self,
        _player_id: game_server::PlayerId,
        _sequence: u32,
        _payload: &[u8],
    ) -> Result<(), game_server::SimulationError> {
        Ok(())
    }
    fn advance_tick(&mut self) -> Result<(), game_server::SimulationError> {
        self.tick += 1;
        Ok(())
    }
    fn snapshot_scope(&self) -> SnapshotScope {
        SnapshotScope::PlayerScoped
    }
    fn snapshot(&self) -> Result<SimulationSnapshot, game_server::SimulationError> {
        Ok(SimulationSnapshot::new(
            self.tick,
            b"canonical-private-state".to_vec(),
        ))
    }
    fn snapshot_for(
        &self,
        player_id: game_server::PlayerId,
    ) -> Result<SimulationSnapshot, game_server::SimulationError> {
        Ok(SimulationSnapshot::new(
            self.tick,
            player_id.to_be_bytes().to_vec(),
        ))
    }
}

#[test]
fn private_publication_projects_only_for_current_connections() {
    let mut runtime = MatchRuntime::new(PrivateSimulation { tick: 0 }, 10);
    let first = runtime
        .admit_player(ReconnectToken([1; RECONNECT_TOKEN_BYTES]))
        .unwrap();
    let second = runtime
        .admit_player(ReconnectToken([2; RECONNECT_TOKEN_BYTES]))
        .unwrap();
    let canonical = runtime.advance_tick().unwrap();
    let publication = snapshot_publication(runtime.snapshot_scope(), canonical).unwrap();
    assert_eq!(publication, SnapshotPublication::PlayerScoped);
    for lease in [first, second] {
        let frame = snapshot_for_connection(&runtime, lease, &publication).unwrap();
        let visible = game_server::decode_snapshot(&frame).unwrap();
        assert_eq!(visible.tick, 1);
        assert_eq!(visible.payload, lease.player_id.to_be_bytes());
    }
    assert!(runtime.disconnect(first.player_id, first.connection_epoch));
    assert!(snapshot_for_connection(&runtime, first, &publication).is_err());
    let replacement = runtime
        .reconnect(
            first.reconnect_token,
            ReconnectToken([3; RECONNECT_TOKEN_BYTES]),
        )
        .unwrap();
    assert!(snapshot_for_connection(&runtime, first, &publication).is_err());
    assert!(snapshot_for_connection(&runtime, replacement, &publication).is_ok());
}

#[test]
fn shared_snapshot_fanout_reuses_payload_storage() {
    let payload = vec![42; 1024];
    let publication = snapshot_publication(
        SnapshotScope::Shared,
        SimulationSnapshot::new(7, payload.clone()),
    )
    .unwrap();
    let (sender, _) = broadcast::channel(1);
    let mut first = sender.subscribe();
    let mut second = sender.subscribe();
    sender.send(publication).unwrap();
    let SnapshotPublication::Shared(first) = first.try_recv().unwrap() else {
        panic!("expected shared snapshot")
    };
    let SnapshotPublication::Shared(second) = second.try_recv().unwrap() else {
        panic!("expected shared snapshot")
    };
    assert!(
        Arc::ptr_eq(&first, &second),
        "fan-out copied the encoded payload"
    );
    drop(sender);
    let decoded = game_server::decode_snapshot(&second).unwrap();
    assert_eq!(decoded.tick, 7);
    assert_eq!(decoded.payload, payload);
}
