//! The life of one connection: admission, welcome and its rollback, the events of an established
//! connection, and the control exchange.

use crate::control::{
    decode_control_request, encode_control_response, ControlContext, ControlService,
    ControlServiceError, CONTROL_HEADER_BYTES, MAX_CONTROL_PAYLOAD_BYTES,
};
use crate::protocol::{
    decode_command, encode_snapshot, encode_welcome, SnapshotFrame, Welcome,
    RECONNECT_TOKEN_BYTES, WELCOME_BYTES,
};
use crate::runtime::{CommandOutcome, MatchRuntime, RuntimeError, RuntimeView};
use crate::session::{ReconnectToken, SessionLease};
use crate::simulation::{GameSimulation, SimulationError, SimulationSnapshot, SnapshotScope};
use crate::text::push_decimal;
use crate::wire::read_u16;
use ring::rand::{SecureRandom, SystemRandom};
use std::sync::Arc;
use vstd::prelude::*;

verus! {

/// The peer broke the protocol.
pub const CLOSE_PROTOCOL: u32 = 1;

/// Datagrams are missing or too small.
pub const CLOSE_DATAGRAM: u32 = 2;

/// The match turned the connection away.
pub const CLOSE_RUNTIME: u32 = 3;

/// The server goes away.
pub const CLOSE_SERVER: u32 = 4;

/// How many snapshots may wait for a slow connection.
pub const SNAPSHOT_CHANNEL_DEPTH: usize = 1;

pub const WELCOME_HANDSHAKE_TIMEOUT_SECONDS: u64 = 5;

pub const CONTROL_STREAM_TIMEOUT_SECONDS: u64 = 5;

/// How many control exchanges one connection may have open.
pub const MAX_CONCURRENT_CONTROL_STREAMS: usize = 4;

/// How many control handlers may run in one process.
pub const MAX_CONCURRENT_CONTROL_HANDLERS: usize = 64;

#[derive(Clone, Copy, Debug, Eq, PartialEq)]
pub enum AdmissionRequest {
    New,
    Reconnect(ReconnectToken),
}

/// What a tick publishes: one frame for everyone, or the word that each player is shown its own.
#[derive(Clone, Debug, Eq, PartialEq)]
pub enum SnapshotPublication {
    Shared(Arc<Vec<u8>>),
    PlayerScoped,
}

/// Whether `result` is the frame of a snapshot, or why there is none.
pub open spec fn frames(
    snapshot: crate::simulation::SnapshotView,
    result: Result<Seq<u8>, Seq<char>>,
) -> bool {
    match crate::protocol::snapshot_refusal(snapshot.tick, snapshot.state_hash, snapshot.payload) {
        Some(error) => result == Err::<Seq<u8>, _>(error.message()),
        None => result == Ok::<_, Seq<char>>(
            crate::protocol::snapshot_bytes(snapshot.tick, snapshot.state_hash, snapshot.payload),
        ),
    }
}

/// What a frame or a complaint says.
pub open spec fn told(result: Result<Arc<Vec<u8>>, String>) -> Result<Seq<u8>, Seq<char>> {
    match result {
        Ok(bytes) => Ok((*bytes)@),
        Err(text) => Err(text@),
    }
}

fn encode_simulation_snapshot(snapshot: SimulationSnapshot) -> (result: Result<
    Arc<Vec<u8>>,
    String,
>)
    ensures
        frames(snapshot@, told(result)),
{
    let frame = SnapshotFrame {
        tick: snapshot.tick,
        state_hash: snapshot.state_hash,
        payload: snapshot.payload,
    };
    match encode_snapshot(&frame) {
        Ok(bytes) => Ok(Arc::new(bytes)),
        Err(error) => Err(error.to_string()),
    }
}

/// What the snapshot of a tick publishes. A game that shows each player its own never publishes its
/// canonical payload.
pub fn snapshot_publication(scope: SnapshotScope, snapshot: SimulationSnapshot) -> (result: Result<
    SnapshotPublication,
    String,
>)
    ensures
        match scope {
            SnapshotScope::PlayerScoped => result == Ok::<_, String>(
                SnapshotPublication::PlayerScoped,
            ),
            SnapshotScope::Shared => match result {
                Ok(SnapshotPublication::Shared(bytes)) => frames(snapshot@, Ok((*bytes)@)),
                Ok(SnapshotPublication::PlayerScoped) => false,
                Err(text) => frames(snapshot@, Err(text@)),
            },
        },
{
    match scope {
        SnapshotScope::Shared => match encode_simulation_snapshot(snapshot) {
            Ok(bytes) => Ok(SnapshotPublication::Shared(bytes)),
            Err(text) => Err(text),
        },
        SnapshotScope::PlayerScoped => Ok(SnapshotPublication::PlayerScoped),
    }
}

/// Whether a publication reaches a connection as `result`: only the slot's present connection sees
/// anything, and where each player is shown its own, it sees its own projection.
pub open spec fn reaches_connection<S: GameSimulation>(
    runtime: RuntimeView<S>,
    lease: SessionLease,
    publication: SnapshotPublication,
    result: Result<Seq<u8>, Seq<char>>,
) -> bool {
    if !runtime.sessions.owns(lease.player_id, lease.connection_epoch) {
        result == Err::<Seq<u8>, _>(RuntimeError::StaleConnection.message())
    } else {
        match publication {
            SnapshotPublication::Shared(bytes) => result == Ok::<_, Seq<char>>((*bytes)@),
            SnapshotPublication::PlayerScoped => projected(runtime, lease, result),
        }
    }
}

/// Whether a player's own projection comes out as `result`.
pub open spec fn projected<S: GameSimulation>(
    runtime: RuntimeView<S>,
    lease: SessionLease,
    result: Result<Seq<u8>, Seq<char>>,
) -> bool {
    exists|projection: Result<SimulationSnapshot, crate::simulation::SimulationError>| #[trigger]
        crate::simulation::projects(runtime.simulation, lease.player_id, projection)
            && match projection {
            Ok(snapshot) => frames(snapshot@, result),
            Err(refusal) => result == Err::<Seq<u8>, _>(RuntimeError::Simulation(refusal).message()),
        }
}

/// The frame that a publication shows to a connection.
pub fn snapshot_for_connection<S: GameSimulation>(
    runtime: &MatchRuntime<S>,
    lease: SessionLease,
    publication: &SnapshotPublication,
) -> (result: Result<Arc<Vec<u8>>, String>)
    ensures
        reaches_connection(runtime@, lease, *publication, told(result)),
{
    if let Err(error) = runtime.validate_connection(lease.player_id, lease.connection_epoch) {
        return Err(error.to_string());
    }
    match publication {
        SnapshotPublication::Shared(bytes) => Ok(Arc::clone(bytes)),
        SnapshotPublication::PlayerScoped => match runtime.snapshot_for(lease.player_id) {
            Ok(snapshot) => {
                assert(crate::simulation::projects(
                    runtime@.simulation,
                    lease.player_id,
                    Ok(snapshot),
                ));
                encode_simulation_snapshot(snapshot)
            },
            Err(error) => {
                proof {
                    let refusal = error->Simulation_0;
                    assert(crate::simulation::projects(
                        runtime@.simulation,
                        lease.player_id,
                        Err(refusal),
                    ));
                }
                Err(error.to_string())
            },
        },
    }
}

/// `ring::error::Unspecified`, the error of a failed draw. It is only carried and tested for.
#[verifier::external_type_specification]
#[verifier::external_body]
pub struct ExUnspecified(ring::error::Unspecified);

/// `SecureRandom::fill` of `SystemRandom`, over the bytes of one token. Nothing is claimed of the
/// bytes, nor of when the system has none to give.
#[verifier::external_body]
fn draw_token_bytes() -> (drawn: Result<[u8; RECONNECT_TOKEN_BYTES], ring::error::Unspecified>)
{
    let mut bytes = [0u8; RECONNECT_TOKEN_BYTES];
    SystemRandom::new().fill(&mut bytes)?;
    Ok(bytes)
}

/// Whether a draw of token bytes from the system may end with `drawn`.
pub closed spec fn may_draw(
    drawn: Result<[u8; RECONNECT_TOKEN_BYTES], ring::error::Unspecified>,
) -> bool {
    call_ensures(draw_token_bytes, (), drawn)
}

/// Whether `result` is what a draw makes: the token of its bytes, or word that it failed.
pub open spec fn makes_token(
    drawn: Result<[u8; RECONNECT_TOKEN_BYTES], ring::error::Unspecified>,
    result: Result<ReconnectToken, String>,
) -> bool {
    match drawn {
        Ok(bytes) => result == Ok::<_, String>(ReconnectToken(bytes)),
        Err(_) => result matches Err(text) && text@
            == "secure reconnect-token generation failed"@,
    }
}

/// The token that drawn bytes make.
pub fn token_from_draw(
    drawn: Result<[u8; RECONNECT_TOKEN_BYTES], ring::error::Unspecified>,
) -> (result: Result<ReconnectToken, String>)
    ensures
        makes_token(drawn, result),
{
    match drawn {
        Ok(bytes) => Ok(ReconnectToken(bytes)),
        Err(_) => Err("secure reconnect-token generation failed".to_owned()),
    }
}

/// A token of freshly drawn bytes, or word that the draw failed. Which bytes are drawn, and whether
/// there are any, is the system's to say and is not stated.
pub fn generate_reconnect_token() -> (result: Result<ReconnectToken, String>)
    ensures
        exists|drawn: Result<[u8; RECONNECT_TOKEN_BYTES], ring::error::Unspecified>| #[trigger]
            may_draw(drawn) && makes_token(drawn, result),
{
    let drawn = draw_token_bytes();
    assert(may_draw(drawn));
    token_from_draw(drawn)
}

/// Whether asking to be let in may take a match from `pre` to `post` with `result`. A process
/// that drains turns new connections away; returning ones still come in.
pub open spec fn lets_in<S: GameSimulation>(
    pre: RuntimeView<S>,
    process_drains: bool,
    admission: AdmissionRequest,
    replacement: ReconnectToken,
    post: RuntimeView<S>,
    result: Result<SessionLease, RuntimeError>,
) -> bool {
    match admission {
        AdmissionRequest::New => if process_drains {
            result == Err::<SessionLease, _>(RuntimeError::Draining) && post == pre
        } else {
            crate::runtime::admits(pre, replacement, post, result)
        },
        AdmissionRequest::Reconnect(previous) => crate::runtime::reconnects(
            pre,
            previous,
            replacement,
            post,
            result,
        ),
    }
}

/// Lets a connection in.
pub fn admit_connection<S: GameSimulation>(
    runtime: &mut MatchRuntime<S>,
    process_drains: bool,
    admission: AdmissionRequest,
    replacement_token: ReconnectToken,
) -> (result: Result<SessionLease, RuntimeError>)
    requires
        old(runtime)@.valid(),
    ensures
        final(runtime)@.valid(),
        lets_in(old(runtime)@, process_drains, admission, replacement_token, final(runtime)@, result),
{
    match admission {
        AdmissionRequest::New => {
            if process_drains {
                return Err(RuntimeError::Draining);
            }
            runtime.admit_player(replacement_token)
        },
        AdmissionRequest::Reconnect(previous_token) => runtime.reconnect(
            previous_token,
            replacement_token,
        ),
    }
}

/// The welcome of a lease, or why the match cannot be described.
pub fn welcome_frame<S: GameSimulation>(runtime: &MatchRuntime<S>, lease: SessionLease) -> (result:
    Result<[u8; WELCOME_BYTES], String>)
    ensures
        match result {
            Ok(bytes) => runtime@.simulation.capacity() <= u16::MAX && bytes@
                == crate::protocol::welcome_bytes(
                Welcome {
                    player_id: lease.player_id,
                    tick_hz: runtime@.simulation.rate(),
                    max_players: runtime@.simulation.capacity() as u16,
                    current_tick: runtime@.simulation.tick(),
                    connection_epoch: lease.connection_epoch,
                    reconnect_token: lease.reconnect_token.0,
                    reconnect_grace_ticks: lease.reconnect_grace_ticks,
                },
            ),
            Err(text) => runtime@.simulation.capacity() > u16::MAX && text@
                == "player capacity exceeds wire limit"@,
        },
{
    let capacity: usize = runtime.max_players();
    if capacity > 65535 {
        return Err("player capacity exceeds wire limit".to_owned());
    }
    Ok(
        encode_welcome(
            Welcome {
                player_id: lease.player_id,
                tick_hz: runtime.tick_hz(),
                max_players: capacity as u16,
                current_tick: runtime.current_tick(),
                connection_epoch: lease.connection_epoch,
                reconnect_token: lease.reconnect_token.0,
                reconnect_grace_ticks: lease.reconnect_grace_ticks,
            },
        ),
    )
}

/// Whether a result reports `complaint`, or success where there is none.
pub open spec fn reports(result: Result<(), String>, complaint: Option<Seq<char>>) -> bool {
    match complaint {
        None => result is Ok,
        Some(words) => result matches Err(text) && text@ == words,
    }
}

/// What the rollback of a new admission complains of, given how taking it back ended.
pub open spec fn abort_complaint(outcome: Result<bool, RuntimeError>) -> Option<Seq<char>> {
    match outcome {
        Ok(true) => None,
        Ok(false) => Some("failed to release incomplete new admission"@),
        Err(error) => Some(error.message()),
    }
}

/// The match after a returning player's connection has been given up again, and the slot waits under
/// the token that the player knows.
pub open spec fn token_handed_back<S: GameSimulation>(
    pre: RuntimeView<S>,
    lease: SessionLease,
    previous: ReconnectToken,
) -> RuntimeView<S> {
    let now = pre.simulation.tick();
    let waiting = pre.sessions.disconnected(lease.player_id, now);
    let back = waiting.reconnected(lease.reconnect_token, previous);
    RuntimeView {
        sessions: back.disconnected(waiting.owner(lease.reconnect_token), now),
        ..pre
    }
}

/// Whether the rollback of a welcome that failed may take a match from `pre` to `post` with
/// `result`.
pub open spec fn rolls_back<S: GameSimulation>(
    pre: RuntimeView<S>,
    admission: AdmissionRequest,
    lease: SessionLease,
    post: RuntimeView<S>,
    result: Result<(), String>,
) -> bool {
    if pre.frozen {
        post == pre && reports(result, Some("runtime froze before welcome rollback"@))
    } else {
        match admission {
            AdmissionRequest::New => takes_back(pre, lease, post, result),
            AdmissionRequest::Reconnect(previous) => {
                let now = pre.simulation.tick();
                let waiting = RuntimeView {
                    sessions: pre.sessions.disconnected(lease.player_id, now),
                    ..pre
                };
                let refusal = waiting.reconnect_refusal(lease.reconnect_token, previous);
                if !pre.sessions.owns(lease.player_id, lease.connection_epoch) {
                    post == pre && reports(
                        result,
                        Some("welcome rollback no longer owns the connection epoch"@),
                    )
                } else if refusal is Some {
                    post == waiting && reports(
                        result,
                        Some(
                            "failed to restore previous reconnect token: "@
                                + refusal->0.message(),
                        ),
                    )
                } else {
                    post == token_handed_back(pre, lease, previous) && reports(result, None)
                }
            },
        }
    }
}

/// Whether taking back a new admission may take a match from `pre` to `post` with `result`.
pub open spec fn takes_back<S: GameSimulation>(
    pre: RuntimeView<S>,
    lease: SessionLease,
    post: RuntimeView<S>,
    result: Result<(), String>,
) -> bool {
    exists|outcome: Result<bool, RuntimeError>| #[trigger]
        crate::runtime::aborts(pre, lease.player_id, lease.connection_epoch, post, outcome)
            && reports(result, abort_complaint(outcome))
}

/// Undoes an admission whose welcome never arrived: a new player leaves again, and a returning one
/// keeps the token that it knows.
pub fn rollback_failed_welcome<S: GameSimulation>(
    runtime: &mut MatchRuntime<S>,
    admission: AdmissionRequest,
    lease: SessionLease,
) -> (result: Result<(), String>)
    requires
        old(runtime)@.valid(),
    ensures
        final(runtime)@.valid(),
        rolls_back(old(runtime)@, admission, lease, final(runtime)@, result),
{
    if runtime.is_frozen() {
        return Err("runtime froze before welcome rollback".to_owned());
    }
    match admission {
        AdmissionRequest::New => {
            let outcome = runtime.abort_admission(lease.player_id, lease.connection_epoch);
            assert(crate::runtime::aborts(
                old(runtime)@,
                lease.player_id,
                lease.connection_epoch,
                runtime@,
                outcome,
            ));
            match outcome {
                Ok(true) => Ok(()),
                Ok(false) => Err("failed to release incomplete new admission".to_owned()),
                Err(error) => Err(error.to_string()),
            }
        },
        AdmissionRequest::Reconnect(previous_token) => {
            if !runtime.disconnect(lease.player_id, lease.connection_epoch) {
                return Err("welcome rollback no longer owns the connection epoch".to_owned());
            }
            let ghost waiting = runtime@;
            let restored = match runtime.reconnect(lease.reconnect_token, previous_token) {
                Ok(restored) => restored,
                Err(error) => {
                    let mut text = "failed to restore previous reconnect token: ".to_owned();
                    text.push_str(error.to_string().as_str());
                    return Err(text);
                },
            };
            proof {
                crate::session::law_reconnect_rotates_token_and_epoch(
                    waiting.sessions,
                    lease.reconnect_token,
                    previous_token,
                    waiting.simulation.tick(),
                    previous_token,
                    waiting.simulation.tick(),
                );
            }
            if !runtime.disconnect(restored.player_id, restored.connection_epoch) {
                return Err("failed to return restored reconnect token to grace state".to_owned());
            }
            Ok(())
        },
    }
}

/// What can happen to an established connection.
#[derive(Clone, Debug, Eq, PartialEq)]
pub enum ConnectionEvent {
    /// A datagram came in.
    Datagram(Vec<u8>),
    /// The peer opened a control stream, and a permit for it was or was not free.
    ControlStream { permitted: bool },
    /// A tick published its snapshot.
    Published(SnapshotPublication),
    /// The connection was too slow for some snapshots.
    SnapshotsSkipped,
    /// No more snapshots will come.
    SnapshotsClosed,
    /// The server shuts down.
    ShutdownRequested,
    /// The peer is gone.
    PeerGone,
}

/// What an established connection does about it.
#[derive(Clone, Debug, Eq, PartialEq)]
pub enum ConnectionAction {
    /// Goes on.
    Continue,
    /// Sends a datagram and goes on.
    Send(Arc<Vec<u8>>),
    /// Starts a control exchange in this name and goes on.
    StartControl(ControlContext),
    /// Leaves the control stream unanswered and goes on.
    RefuseControl,
    /// Closes the connection with a code and a reason.
    Close { code: u32, reason: String },
    /// Ends without a word to the peer.
    End,
}

impl ConnectionAction {
    /// Whether the action closes the connection with that code and reason.
    pub open spec fn closes(self, expected: u32, words: Seq<char>) -> bool {
        self matches ConnectionAction::Close { code, reason } && code == expected && reason@
            == words
    }
}

/// Whether a command's outcome is answered by `action`: one that counts, came too late or met a
/// frozen match is no reason to close.
pub open spec fn command_answered(
    outcome: Result<CommandOutcome, RuntimeError>,
    action: ConnectionAction,
) -> bool {
    match outcome {
        Ok(_) => action == ConnectionAction::Continue,
        Err(RuntimeError::Frozen) => action == ConnectionAction::Continue,
        Err(error) => action.closes(CLOSE_PROTOCOL, error.message()),
    }
}

/// Whether the command in a well-formed datagram may take a match from `pre` to `post` with
/// `action`.
pub open spec fn commands<S: GameSimulation>(
    pre: RuntimeView<S>,
    lease: SessionLease,
    sequence: u32,
    payload: Seq<u8>,
    post: RuntimeView<S>,
    action: ConnectionAction,
) -> bool {
    exists|outcome: Result<CommandOutcome, RuntimeError>| #[trigger]
        crate::runtime::submits(
            pre,
            lease.player_id,
            lease.connection_epoch,
            sequence,
            payload,
            post,
            outcome,
        ) && command_answered(outcome, action)
}

/// Whether a datagram may take a match from `pre` to `post` with `action`.
pub open spec fn takes_datagram<S: GameSimulation>(
    pre: RuntimeView<S>,
    lease: SessionLease,
    bytes: Seq<u8>,
    post: RuntimeView<S>,
    action: ConnectionAction,
) -> bool {
    match crate::protocol::command_fault(bytes) {
        Some(error) => post == pre && action.closes(CLOSE_PROTOCOL, error.message()),
        None => exists|sequence: u32, payload: Seq<u8>|
            bytes == #[trigger] crate::protocol::command_bytes(sequence, payload) && commands(
                pre,
                lease,
                sequence,
                payload,
                post,
                action,
            ),
    }
}

/// Whether a publication is answered by `action`, given the most that a datagram can carry.
pub open spec fn publishes<S: GameSimulation>(
    runtime: RuntimeView<S>,
    lease: SessionLease,
    max_datagram_size: usize,
    publication: SnapshotPublication,
    action: ConnectionAction,
) -> bool {
    exists|result: Result<Seq<u8>, Seq<char>>| #[trigger]
        reaches_connection(runtime, lease, publication, result) && match result {
            Ok(bytes) => if bytes.len() > max_datagram_size {
                action.closes(CLOSE_DATAGRAM, "snapshot exceeds negotiated datagram budget"@)
            } else {
                action matches ConnectionAction::Send(frame) && (*frame)@ == bytes
            },
            Err(words) => action.closes(CLOSE_RUNTIME, words),
        }
}

/// Whether an event may take a match from `pre` to `post` with `action`. Nothing but a datagram
/// changes the match.
pub open spec fn responds<S: GameSimulation>(
    pre: RuntimeView<S>,
    lease: SessionLease,
    max_datagram_size: usize,
    event: ConnectionEvent,
    post: RuntimeView<S>,
    action: ConnectionAction,
) -> bool {
    match event {
        ConnectionEvent::Datagram(bytes) => takes_datagram(pre, lease, bytes@, post, action),
        ConnectionEvent::ControlStream { permitted } => post == pre && action == (if permitted {
            ConnectionAction::StartControl(
                ControlContext {
                    player_id: lease.player_id,
                    connection_epoch: lease.connection_epoch,
                },
            )
        } else {
            ConnectionAction::RefuseControl
        }),
        ConnectionEvent::Published(publication) => post == pre && publishes(
            pre,
            lease,
            max_datagram_size,
            publication,
            action,
        ),
        ConnectionEvent::SnapshotsSkipped => post == pre && action == ConnectionAction::Continue,
        ConnectionEvent::SnapshotsClosed => post == pre && action.closes(
            CLOSE_SERVER,
            "snapshot source closed"@,
        ),
        ConnectionEvent::ShutdownRequested => post == pre && action.closes(
            CLOSE_SERVER,
            "server shutting down"@,
        ),
        ConnectionEvent::PeerGone => post == pre && action == ConnectionAction::End,
    }
}

/// Decides what an established connection does about an event.
pub fn respond<S: GameSimulation>(
    runtime: &mut MatchRuntime<S>,
    lease: SessionLease,
    max_datagram_size: usize,
    event: ConnectionEvent,
) -> (action: ConnectionAction)
    requires
        old(runtime)@.valid(),
    ensures
        final(runtime)@.valid(),
        responds(old(runtime)@, lease, max_datagram_size, event, final(runtime)@, action),
{
    match event {
        ConnectionEvent::Datagram(datagram) => {
            let command = match decode_command(datagram.as_slice()) {
                Ok(command) => command,
                Err(error) => {
                    return ConnectionAction::Close {
                        code: CLOSE_PROTOCOL,
                        reason: error.to_string(),
                    };
                },
            };
            let outcome = runtime.submit_command(
                lease.player_id,
                lease.connection_epoch,
                command.sequence,
                command.payload.as_slice(),
            );
            let ghost happened = outcome;
            let action = match outcome {
                Ok(_) => ConnectionAction::Continue,
                Err(RuntimeError::Frozen) => ConnectionAction::Continue,
                Err(error) => ConnectionAction::Close {
                    code: CLOSE_PROTOCOL,
                    reason: error.to_string(),
                },
            };
            proof {
                assert(command_answered(happened, action));
                assert(commands(
                    old(runtime)@,
                    lease,
                    command.sequence,
                    command.payload@,
                    runtime@,
                    action,
                ));
                assert(datagram@ == crate::protocol::command_bytes(
                    command.sequence,
                    command.payload@,
                ));
            }
            action
        },
        ConnectionEvent::ControlStream { permitted } => {
            if permitted {
                ConnectionAction::StartControl(
                    ControlContext {
                        player_id: lease.player_id,
                        connection_epoch: lease.connection_epoch,
                    },
                )
            } else {
                ConnectionAction::RefuseControl
            }
        },
        ConnectionEvent::Published(publication) => {
            let shown = snapshot_for_connection(runtime, lease, &publication);
            let ghost result = told(shown);
            assert(reaches_connection(runtime@, lease, publication, result));
            match shown {
                Ok(frame) => {
                    if frame.len() > max_datagram_size {
                        ConnectionAction::Close {
                            code: CLOSE_DATAGRAM,
                            reason: "snapshot exceeds negotiated datagram budget".to_owned(),
                        }
                    } else {
                        ConnectionAction::Send(frame)
                    }
                },
                Err(reason) => ConnectionAction::Close { code: CLOSE_RUNTIME, reason },
            }
        },
        ConnectionEvent::SnapshotsSkipped => ConnectionAction::Continue,
        ConnectionEvent::SnapshotsClosed => ConnectionAction::Close {
            code: CLOSE_SERVER,
            reason: "snapshot source closed".to_owned(),
        },
        ConnectionEvent::ShutdownRequested => ConnectionAction::Close {
            code: CLOSE_SERVER,
            reason: "server shutting down".to_owned(),
        },
        ConnectionEvent::PeerGone => ConnectionAction::End,
    }
}

/// How many bytes of payload a control header declares, or why the exchange ends there.
pub fn control_payload_length(header: &[u8]) -> (result: Result<usize, String>)
    requires
        header.len() == CONTROL_HEADER_BYTES,
    ensures
        ({
            let declared = crate::wire::be_value(header@.subrange(6, 8));
            match result {
                Ok(length) => length == declared && declared <= MAX_CONTROL_PAYLOAD_BYTES,
                Err(text) => declared > MAX_CONTROL_PAYLOAD_BYTES && text@
                    == "declared reliable-control payload "@ + crate::text::decimal(declared)
                    + " exceeds maximum "@ + crate::text::decimal(
                    MAX_CONTROL_PAYLOAD_BYTES as nat,
                ),
            }
        }),
{
    let declared: usize = read_u16(header, 6) as usize;
    if declared > MAX_CONTROL_PAYLOAD_BYTES {
        let mut text = "declared reliable-control payload ".to_owned();
        push_decimal(&mut text, declared as u64);
        text.push_str(" exceeds maximum ");
        push_decimal(&mut text, MAX_CONTROL_PAYLOAD_BYTES as u64);
        return Err(text);
    }
    Ok(declared)
}

/// The payload of a control request's frame, or why the exchange ends there.
pub fn control_request_payload(frame: &[u8]) -> (result: Result<Vec<u8>, String>)
    ensures
        match result {
            Ok(payload) => crate::control::request_fault(frame@) is None && frame@
                == crate::control::control_bytes(
                crate::control::CONTROL_REQUEST_KIND,
                payload@,
            ),
            Err(text) => crate::control::request_fault(frame@) matches Some(error) && text@
                == error.message(),
        },
{
    match decode_control_request(frame) {
        Ok(request) => Ok(request.payload),
        Err(error) => Err(error.to_string()),
    }
}

/// Checks that a control request ended where its header said, given what a read behind it found.
pub fn control_request_ended(trailing: Option<usize>) -> (result: Result<(), String>)
    ensures
        match trailing {
            None => result is Ok,
            Some(count) => result matches Err(text) && text@ == "reliable-control request has "@
                + crate::text::decimal(count as nat) + " trailing byte(s)"@,
        },
{
    match trailing {
        None => Ok(()),
        Some(count) => {
            let mut text = "reliable-control request has ".to_owned();
            push_decimal(&mut text, count as u64);
            text.push_str(" trailing byte(s)");
            Err(text)
        },
    }
}

/// The frame that answers a handled request. A handler's refusal, or an answer that does not fit, is
/// an empty rejection.
pub open spec fn control_answer_bytes(handled: Result<Seq<u8>, Seq<char>>) -> Seq<u8> {
    match handled {
        Ok(payload) => if crate::control::control_refusal(payload) is None {
            crate::control::control_bytes(crate::control::response_kind(true), payload)
        } else {
            crate::control::control_bytes(crate::control::response_kind(false), Seq::empty())
        },
        Err(_) => crate::control::control_bytes(
            crate::control::response_kind(false),
            Seq::empty(),
        ),
    }
}

/// What a handler said.
pub open spec fn handler_said(handled: Result<Vec<u8>, ControlServiceError>) -> Result<
    Seq<u8>,
    Seq<char>,
> {
    match handled {
        Ok(payload) => Ok(payload@),
        Err(error) => Err(error@),
    }
}

/// Frames the answer to a handled request.
pub fn control_answer(handled: Result<Vec<u8>, ControlServiceError>) -> (frame: Vec<u8>)
    ensures
        frame@ == control_answer_bytes(handler_said(handled)),
{
    if let Ok(payload) = handled {
        if let Ok(frame) = encode_control_response(true, payload.as_slice()) {
            return frame;
        }
    }
    let nothing: Vec<u8> = Vec::new();
    assert(nothing@ =~= Seq::<u8>::empty());
    match encode_control_response(false, nothing.as_slice()) {
        Ok(frame) => frame,
        Err(_) => nothing,
    }
}

/// Whether a handler that is asked in the name of `context` may say `handled`.
pub open spec fn handles<C: ControlService>(
    control: C,
    context: ControlContext,
    payload: Seq<u8>,
    handled: Result<Vec<u8>, ControlServiceError>,
) -> bool {
    exists|request: &[u8]|
        request@ == payload && #[trigger] call_ensures(
            C::handle,
            (&control, context, request),
            handled,
        )
}

/// Whether a control request may be answered with `result`: a handler is asked only in the name of a
/// connection that was found to own its slot.
pub open spec fn dispatches<C: ControlService>(
    ownership: Result<(), RuntimeError>,
    control: C,
    context: ControlContext,
    payload: Seq<u8>,
    result: Result<Vec<u8>, String>,
) -> bool {
    match ownership {
        Err(error) => result matches Err(text) && text@ == error.message(),
        Ok(_) => exists|handled: Result<Vec<u8>, ControlServiceError>| #[trigger]
            handles(control, context, payload, handled) && (result matches Ok(frame) && frame@
                == control_answer_bytes(handler_said(handled))),
    }
}

/// Asks a handler, after its slot's ownership has been looked up, and frames the answer.
pub fn dispatch_control<C: ControlService>(
    ownership: Result<(), RuntimeError>,
    control: &C,
    context: ControlContext,
    payload: &[u8],
) -> (result: Result<Vec<u8>, String>)
    ensures
        dispatches(ownership, *control, context, payload@, result),
{
    if let Err(error) = ownership {
        return Err(error.to_string());
    }
    let handled = control.handle(context, payload);
    assert(payload@ == payload@ && call_ensures(C::handle, (control, context, payload), handled));
    assert(handles(*control, context, payload@, handled));
    Ok(control_answer(handled))
}

/// A returning player whose welcome never arrived can come back with the token that it knows: the
/// rollback succeeds, the replacement that it never saw reclaims nothing, and the known token
/// reclaims the same slot for the whole grace period. An epoch must be left for the rollback, and
/// another for the return.
pub proof fn law_failed_welcome_keeps_the_known_token<S: GameSimulation>(
    before: RuntimeView<S>,
    previous: ReconnectToken,
    replacement: ReconnectToken,
    reconnected: RuntimeView<S>,
    lease: SessionLease,
    post: RuntimeView<S>,
    result: Result<(), String>,
    next: ReconnectToken,
    now: u64,
)
    requires
        before.valid(),
        reconnected.valid(),
        crate::runtime::reconnects(before, previous, replacement, reconnected, Ok(lease)),
        rolls_back(reconnected, AdmissionRequest::Reconnect(previous), lease, post, result),
        lease.connection_epoch < u32::MAX,
    ensures
        result is Ok,
        !post.sessions.holds(replacement),
        post.sessions.holds(previous),
        post.sessions.owner(previous) == before.sessions.owner(previous),
        lease.connection_epoch < u32::MAX - 1 && !post.sessions.holds(next) && now <= before.simulation.tick().saturating_add(
            before.sessions.reconnect_grace_ticks,
        ) ==> post.sessions.reconnect_refusal(previous, next, now) is None,
{
    let tick = before.simulation.tick();
    let id = before.sessions.owner(previous);
    crate::session::law_reconnect_rotates_token_and_epoch(
        before.sessions,
        previous,
        replacement,
        tick,
        previous,
        tick,
    );
    let middle = reconnected.sessions;
    assert(middle.owns(id, lease.connection_epoch));
    let waiting = middle.disconnected(id, tick);
    crate::session::law_grace_period(
        middle,
        id,
        lease.connection_epoch,
        tick,
        tick,
        previous,
    );
    lemma_disconnected_is_valid(middle, id, lease.connection_epoch, tick);
    crate::session::law_reconnect_rotates_token_and_epoch(
        waiting,
        replacement,
        previous,
        tick,
        previous,
        tick,
    );
    assert(waiting.players.contains_key(id) && waiting.players[id].token == replacement);
    let owner = waiting.owner(replacement);
    assert(waiting.players.contains_key(owner) && waiting.players[owner].token == replacement);
    assert(owner == id);
    let back = waiting.reconnected(replacement, previous);
    let last = back.disconnected(id, tick);
    assert(post.sessions == last);
    assert(last.players.contains_key(id) && last.players[id].token == previous);
    assert forall|other: crate::protocol::PlayerId| #[trigger]
        last.players.contains_key(other) && other != id implies last.players[other].token
        != previous && last.players[other].token != replacement by {
        assert(middle.players.contains_key(other));
        assert(before.sessions.players.contains_key(other));
        assert(before.sessions.players.contains_key(id));
        assert(before.sessions.players[other].token != before.sessions.players[id].token);
        assert(middle.players[other].token != middle.players[id].token);
    }
    assert(previous != replacement);
    let found = last.owner(previous);
    assert(last.players.contains_key(found) && last.players[found].token == previous);
}

pub proof fn lemma_disconnected_is_valid(
    registry: crate::session::RegistryView,
    id: crate::protocol::PlayerId,
    epoch: u32,
    tick: u64,
)
    requires
        registry.valid(),
        registry.owns(id, epoch),
    ensures
        registry.disconnected(id, tick).valid(),
{
    let after = registry.disconnected(id, tick);
    assert(after.players.dom() =~= registry.players.dom());
    assert forall|a: crate::protocol::PlayerId, b: crate::protocol::PlayerId|
        #![trigger after.players[a], after.players[b]]
        after.players.contains_key(a) && after.players.contains_key(b) && after.players[a].token
            == after.players[b].token implies a == b by {
        assert(registry.players[a].token == registry.players[b].token);
    }
    assert forall|a: crate::protocol::PlayerId| #[trigger] after.players.contains_key(a) implies 1
        <= a < after.next_player_id && after.players[a].connection_epoch >= 1 && (
    after.players[a].connected ==> after.players[a].expires_at_tick == u64::MAX) by {
        assert(registry.players.contains_key(a));
    }
}

/// Whether a game can only confirm that a player has left it.
pub open spec fn confirms_removal<S: GameSimulation>(game: S, player_id: crate::protocol::PlayerId) -> bool {
    forall|after: S, outcome: Result<bool, SimulationError>| #[trigger]
        S::removed(game, player_id, after, outcome) ==> outcome == Ok::<bool, SimulationError>(true)
}

/// A new player whose welcome never arrived leaves nothing behind but a used identity: the rollback
/// succeeds where the game confirms the removal, and where it succeeds, the slots and the command
/// sequences are those from before.
pub proof fn law_failed_welcome_releases_the_slot<S: GameSimulation>(
    before: RuntimeView<S>,
    token: ReconnectToken,
    admitted: RuntimeView<S>,
    lease: SessionLease,
    post: RuntimeView<S>,
    result: Result<(), String>,
)
    requires
        before.valid(),
        crate::runtime::admits(before, token, admitted, Ok(lease)),
        rolls_back(admitted, AdmissionRequest::New, lease, post, result),
    ensures
        confirms_removal(admitted.simulation, lease.player_id) ==> result is Ok,
        result is Ok ==> {
            &&& post.sessions.players == before.sessions.players
            &&& post.last_sequences == before.last_sequences
            &&& post.sessions.next_player_id == before.sessions.next_player_id + 1
        },
{
    assert(!before.sessions.players.contains_key(before.sessions.next_player_id));
    assert(!before.last_sequences.dom().contains(before.sessions.next_player_id));
    assert(admitted.sessions.owns(lease.player_id, lease.connection_epoch));
    if result is Ok {
        assert(post.sessions.players =~= before.sessions.players);
        assert(post.last_sequences =~= before.last_sequences);
    }
}

/// Whatever happens to a connection that no longer owns its slot, it is sent nothing, and the match
/// stays as it was.
pub proof fn law_stale_connection_sees_nothing<S: GameSimulation>(
    pre: RuntimeView<S>,
    lease: SessionLease,
    max_datagram_size: usize,
    event: ConnectionEvent,
    post: RuntimeView<S>,
    action: ConnectionAction,
)
    requires
        !pre.sessions.owns(lease.player_id, lease.connection_epoch),
        responds(pre, lease, max_datagram_size, event, post, action),
    ensures
        action !is Send,
        post == pre,
{
    match event {
        ConnectionEvent::Datagram(bytes) => {
            if crate::protocol::command_fault(bytes@) is None {
                let (sequence, payload) = choose|sequence: u32, payload: Seq<u8>|
                    bytes@ == #[trigger] crate::protocol::command_bytes(sequence, payload)
                        && commands(pre, lease, sequence, payload, post, action);
                assert(commands(pre, lease, sequence, payload, post, action));
            }
        },
        _ => {},
    }
}

/// No datagram that a connection sends is longer than what was negotiated.
pub proof fn law_datagrams_fit<S: GameSimulation>(
    pre: RuntimeView<S>,
    lease: SessionLease,
    max_datagram_size: usize,
    event: ConnectionEvent,
    post: RuntimeView<S>,
    action: ConnectionAction,
)
    requires
        responds(pre, lease, max_datagram_size, event, post, action),
    ensures
        action matches ConnectionAction::Send(frame) ==> (*frame)@.len() <= max_datagram_size,
{
    match event {
        ConnectionEvent::Datagram(bytes) => {
            if crate::protocol::command_fault(bytes@) is None {
                let (sequence, payload) = choose|sequence: u32, payload: Seq<u8>|
                    bytes@ == #[trigger] crate::protocol::command_bytes(sequence, payload)
                        && commands(pre, lease, sequence, payload, post, action);
                assert(commands(pre, lease, sequence, payload, post, action));
            }
        },
        _ => {},
    }
}

/// The answer to a control request is always a well-formed answer frame.
pub proof fn law_control_is_always_answered(handled: Result<Seq<u8>, Seq<char>>)
    ensures
        crate::control::response_fault(control_answer_bytes(handled)) is None,
{
    let payload = match handled {
        Ok(payload) => payload,
        Err(_) => Seq::empty(),
    };
    if crate::control::control_refusal(payload) is None {
        crate::control::law_request_and_answer_are_distinct(payload, true);
    }
    crate::control::law_request_and_answer_are_distinct(Seq::empty(), false);
}

} // verus!
