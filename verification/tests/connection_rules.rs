use game_server::connection::{
    admit_connection, control_answer, control_payload_length, control_request_ended,
    control_request_payload, dispatch_control, generate_reconnect_token, respond,
    rollback_failed_welcome, snapshot_publication, token_from_draw, welcome_frame,
    AdmissionRequest, ConnectionAction, ConnectionEvent, SnapshotPublication, CLOSE_DATAGRAM,
    CLOSE_PROTOCOL, CLOSE_RUNTIME, CLOSE_SERVER,
};
use game_server::{
    decode_control_response, decode_snapshot, decode_welcome, encode_command,
    encode_control_request, encode_demo_command, ControlContext, ControlService,
    ControlServiceError, DemoSimulation, MatchRuntime, ReconnectToken, RuntimeError, SessionLease,
    SimulationSnapshot, SnapshotScope,
};
use std::sync::atomic::{AtomicUsize, Ordering};
use std::sync::Arc;

fn token(value: u8) -> ReconnectToken {
    ReconnectToken([value; 16])
}

fn admitted() -> (MatchRuntime<DemoSimulation>, SessionLease) {
    let mut runtime = MatchRuntime::new(DemoSimulation::new(), 10);
    let lease = runtime.admit_player(token(1)).unwrap();
    (runtime, lease)
}

fn closed(code: u32, reason: &str) -> ConnectionAction {
    ConnectionAction::Close { code, reason: reason.to_owned() }
}

#[test]
fn drawn_bytes_become_the_token_and_a_failed_draw_is_told() {
    assert_eq!(token_from_draw(Ok([9; 16])), Ok(token(9)));
    assert_eq!(
        token_from_draw(Err(ring::error::Unspecified)),
        Err("secure reconnect-token generation failed".to_owned())
    );
}

#[test]
fn generated_tokens_differ() {
    let first = generate_reconnect_token().unwrap();
    let second = generate_reconnect_token().unwrap();
    assert_ne!(first, second);
    assert_ne!(first, token(0));
}

#[test]
fn draining_process_takes_returning_connections_only() {
    let mut runtime = MatchRuntime::new(DemoSimulation::new(), 10);
    assert_eq!(
        admit_connection(&mut runtime, true, AdmissionRequest::New, token(1)),
        Err(RuntimeError::Draining)
    );
    assert_eq!(runtime.slot_count(), 0);
    let lease = admit_connection(&mut runtime, false, AdmissionRequest::New, token(1)).unwrap();
    assert!(runtime.disconnect(lease.player_id, lease.connection_epoch));
    let back =
        admit_connection(&mut runtime, true, AdmissionRequest::Reconnect(token(1)), token(2))
            .unwrap();
    assert_eq!(back.player_id, lease.player_id);
    assert_eq!(back.connection_epoch, 2);
}

#[test]
fn welcome_describes_the_match_and_the_lease() {
    let (runtime, lease) = admitted();
    let welcome = decode_welcome(&welcome_frame(&runtime, lease).unwrap()).unwrap();
    assert_eq!(welcome.player_id, lease.player_id);
    assert_eq!(welcome.tick_hz, 20);
    assert_eq!(welcome.max_players, 16);
    assert_eq!(welcome.reconnect_token, lease.reconnect_token.0);
    assert_eq!(welcome.reconnect_grace_ticks, 10);
}

#[test]
fn rollback_reports_what_it_could_not_undo() {
    let (mut runtime, lease) = admitted();
    runtime.freeze_for_recovery();
    assert_eq!(
        rollback_failed_welcome(&mut runtime, AdmissionRequest::New, lease),
        Err("runtime froze before welcome rollback".to_owned())
    );
    let (mut runtime, lease) = admitted();
    assert!(runtime.disconnect(lease.player_id, lease.connection_epoch));
    assert_eq!(
        rollback_failed_welcome(&mut runtime, AdmissionRequest::New, lease),
        Err("failed to release incomplete new admission".to_owned())
    );
    assert_eq!(
        rollback_failed_welcome(&mut runtime, AdmissionRequest::Reconnect(token(5)), lease),
        Err("welcome rollback no longer owns the connection epoch".to_owned())
    );
    let (mut runtime, lease) = admitted();
    runtime.admit_player(token(2)).unwrap();
    assert_eq!(
        rollback_failed_welcome(&mut runtime, AdmissionRequest::Reconnect(token(2)), lease),
        Err(
            "failed to restore previous reconnect token: session error: reconnect token collision"
                .to_owned()
        )
    );
}

#[test]
fn datagrams_are_commands_or_reasons_to_close() {
    let (mut runtime, lease) = admitted();
    let go = encode_command(1, &encode_demo_command(1, 0).unwrap()).unwrap();
    let respond_to = |runtime: &mut MatchRuntime<DemoSimulation>, bytes: &[u8]| {
        respond(runtime, lease, 1200, ConnectionEvent::Datagram(bytes.to_vec()))
    };
    assert_eq!(respond_to(&mut runtime, &go), ConnectionAction::Continue);
    assert_eq!(respond_to(&mut runtime, &go), ConnectionAction::Continue);
    assert_eq!(
        respond_to(&mut runtime, b"x"),
        closed(CLOSE_PROTOCOL, "expected 8 bytes, received 1")
    );
    let bad = encode_command(2, b"bad").unwrap();
    assert_eq!(
        respond_to(&mut runtime, &bad),
        closed(CLOSE_PROTOCOL, "simulation error: demo command must be 2 bytes, received 3")
    );
    runtime.freeze_for_recovery();
    assert_eq!(respond_to(&mut runtime, &go), ConnectionAction::Continue);
    runtime.resume_after_failed_recovery();
    assert!(runtime.disconnect(lease.player_id, lease.connection_epoch));
    assert_eq!(
        respond_to(&mut runtime, &go),
        closed(CLOSE_PROTOCOL, "connection no longer owns the player slot")
    );
}

#[test]
fn publications_are_sent_within_the_datagram_budget() {
    let (mut runtime, lease) = admitted();
    let snapshot = runtime.advance_tick().unwrap();
    let publication = snapshot_publication(runtime.snapshot_scope(), snapshot.clone()).unwrap();
    let SnapshotPublication::Shared(frame) = &publication else {
        panic!("the demo shows everyone the same")
    };
    let published = || ConnectionEvent::Published(publication.clone());
    assert_eq!(
        respond(&mut runtime, lease, frame.len(), published()),
        ConnectionAction::Send(Arc::clone(frame))
    );
    assert_eq!(decode_snapshot(frame).unwrap().payload, snapshot.payload);
    assert_eq!(
        respond(&mut runtime, lease, frame.len() - 1, published()),
        closed(CLOSE_DATAGRAM, "snapshot exceeds negotiated datagram budget")
    );
    assert!(runtime.disconnect(lease.player_id, lease.connection_epoch));
    assert_eq!(
        respond(&mut runtime, lease, frame.len(), published()),
        closed(CLOSE_RUNTIME, "connection no longer owns the player slot")
    );
}

#[test]
fn other_events_have_fixed_answers() {
    let (mut runtime, lease) = admitted();
    let mut answer = |event| respond(&mut runtime, lease, 1200, event);
    assert_eq!(answer(ConnectionEvent::SnapshotsSkipped), ConnectionAction::Continue);
    assert_eq!(
        answer(ConnectionEvent::SnapshotsClosed),
        closed(CLOSE_SERVER, "snapshot source closed")
    );
    assert_eq!(
        answer(ConnectionEvent::ShutdownRequested),
        closed(CLOSE_SERVER, "server shutting down")
    );
    assert_eq!(answer(ConnectionEvent::PeerGone), ConnectionAction::End);
    assert_eq!(
        answer(ConnectionEvent::ControlStream { permitted: true }),
        ConnectionAction::StartControl(ControlContext { player_id: 1, connection_epoch: 1 })
    );
    assert_eq!(
        answer(ConnectionEvent::ControlStream { permitted: false }),
        ConnectionAction::RefuseControl
    );
}

#[test]
fn snapshots_that_do_not_fit_a_frame_are_not_published() {
    let mut forged = SimulationSnapshot::new(1, vec![1]);
    forged.state_hash = 0;
    assert!(snapshot_publication(SnapshotScope::Shared, forged)
        .unwrap_err()
        .starts_with("snapshot hash mismatch: expected 0x"));
}

#[test]
fn control_exchange_is_bounded_and_exact() {
    let frame = encode_control_request(b"ping").unwrap();
    assert_eq!(control_payload_length(&frame[..8]), Ok(4));
    let mut header = frame[..8].to_vec();
    header[6] = 0x10;
    header[7] = 0x01;
    assert_eq!(
        control_payload_length(&header),
        Err("declared reliable-control payload 4097 exceeds maximum 4096".to_owned())
    );
    assert_eq!(control_request_payload(&frame), Ok(b"ping".to_vec()));
    assert_eq!(
        control_request_payload(&frame[..9]),
        Err("truncated reliable-control frame".to_owned())
    );
    assert_eq!(control_request_ended(None), Ok(()));
    assert_eq!(
        control_request_ended(Some(1)),
        Err("reliable-control request has 1 trailing byte(s)".to_owned())
    );
}

#[derive(Default)]
struct Counting(AtomicUsize);

impl ControlService for Counting {
    fn handle(
        &self,
        _context: ControlContext,
        payload: &[u8],
    ) -> Result<Vec<u8>, ControlServiceError> {
        self.0.fetch_add(1, Ordering::SeqCst);
        Ok(payload.to_vec())
    }
}

#[test]
fn stale_control_requests_never_reach_a_handler() {
    let (mut runtime, lease) = admitted();
    let context = ControlContext {
        player_id: lease.player_id,
        connection_epoch: lease.connection_epoch,
    };
    let control = Counting::default();
    assert!(runtime.disconnect(lease.player_id, lease.connection_epoch));
    runtime.reconnect(token(1), token(2)).unwrap();
    let ownership = runtime.validate_connection(context.player_id, context.connection_epoch);
    assert_eq!(
        dispatch_control(ownership, &control, context, b"old request"),
        Err("connection no longer owns the player slot".to_owned())
    );
    assert_eq!(control.0.load(Ordering::SeqCst), 0);
    let current = ControlContext { player_id: 1, connection_epoch: 2 };
    let ownership = runtime.validate_connection(1, 2);
    let frame = dispatch_control(ownership, &control, current, b"current request").unwrap();
    let answer = decode_control_response(&frame).unwrap();
    assert!(answer.accepted);
    assert_eq!(answer.payload, b"current request");
    assert_eq!(control.0.load(Ordering::SeqCst), 1);
}

#[test]
fn refused_or_oversized_answers_become_empty_rejections() {
    let refused = control_answer(Err(ControlServiceError::new("no")));
    let oversized = control_answer(Ok(vec![0; 4097]));
    for frame in [refused, oversized] {
        let answer = decode_control_response(&frame).unwrap();
        assert!(!answer.accepted);
        assert!(answer.payload.is_empty());
    }
}
