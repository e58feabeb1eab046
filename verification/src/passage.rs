//! What becomes of a connection and of the match behind it: who is let in, what each event is
//! answered with, and how a listener starts, publishes and stops.

use crate::connection::{AdmissionRequest, ConnectionAction, ConnectionEvent, SnapshotPublication};
use crate::control::{ControlService, ControlServiceError};
use crate::protocol::PlayerId;
use crate::recovery::RecoveryImage;
use crate::runtime::{CommandOutcome, MatchRuntime, RuntimeError, RuntimeView};
use crate::session::{ReconnectToken, SessionLease};
use crate::simulation::{GameSimulation, SimulationError, SimulationSnapshot, SnapshotScope};
use crate::transport::{
    ServeEvent, ServePhase, ServeState, StoredRecovery, TickOutcome, TransportError,
};
use vstd::prelude::*;

verus! {

/// A process that drains turns newcomers away and nobody else; who is not turned away is the
/// match's to judge.
pub proof fn law_entry_is_judged<S: GameSimulation>(
    pre: RuntimeView<S>,
    process_drains: bool,
    admission: AdmissionRequest,
    replacement: ReconnectToken,
    post: RuntimeView<S>,
    result: Result<SessionLease, RuntimeError>,
)
    requires
        crate::connection::lets_in(pre, process_drains, admission, replacement, post, result),
    ensures
        admission is New && process_drains ==> post == pre && result == Err::<SessionLease, _>(
            RuntimeError::Draining,
        ),
        admission is New && !process_drains ==> crate::runtime::admits(
            pre,
            replacement,
            post,
            result,
        ),
        admission is Reconnect ==> crate::runtime::reconnects(
            pre,
            admission->Reconnect_0,
            replacement,
            post,
            result,
        ),
{
}

/// Whether a connection is its slot's present one.
pub open spec fn present<S: GameSimulation>(runtime: RuntimeView<S>, lease: SessionLease) -> bool {
    &&& runtime.sessions.players.contains_key(lease.player_id)
    &&& runtime.sessions.players[lease.player_id].connected
    &&& runtime.sessions.players[lease.player_id].connection_epoch == lease.connection_epoch
}

/// Whether an action closes the connection with that code, for that reason.
pub open spec fn hangs_up(action: ConnectionAction, code: u32, words: Seq<char>) -> bool {
    action matches ConnectionAction::Close { code: given, reason } && given == code && reason@
        == words
}

/// A datagram that frames a command is that command, in the name of the connection's player and
/// epoch. One that is applied, comes too late or meets a frozen match lets the connection go on;
/// every other refusal closes it in the match's words.
pub proof fn law_datagrams_are_commands<S: GameSimulation>(
    pre: RuntimeView<S>,
    lease: SessionLease,
    max_datagram_size: usize,
    datagram: Vec<u8>,
    sequence: u32,
    payload: Seq<u8>,
    post: RuntimeView<S>,
    action: ConnectionAction,
)
    requires
        datagram@ == crate::protocol::command_bytes(sequence, payload),
        sequence > 0,
        payload.len() <= 1024,
        crate::connection::responds(
            pre,
            lease,
            max_datagram_size,
            ConnectionEvent::Datagram(datagram),
            post,
            action,
        ),
    ensures
        exists|outcome: Result<CommandOutcome, RuntimeError>|
            {
                &&& #[trigger] crate::runtime::submits(
                    pre,
                    lease.player_id,
                    lease.connection_epoch,
                    sequence,
                    payload,
                    post,
                    outcome,
                )
                &&& outcome is Ok ==> action == ConnectionAction::Continue
                &&& outcome matches Err(error) ==> if error is Frozen {
                    action == ConnectionAction::Continue
                } else {
                    hangs_up(action, 1, error.message())
                }
            },
{
    crate::protocol::law_command_round_trip(sequence, payload);
    let (read_sequence, read_payload) = choose|read_sequence: u32, read_payload: Seq<u8>|
        datagram@ == #[trigger] crate::protocol::command_bytes(read_sequence, read_payload)
            && crate::connection::commands(
            pre,
            lease,
            read_sequence,
            read_payload,
            post,
            action,
        );
    assert(read_sequence == sequence && read_payload == payload);
    let outcome = choose|outcome: Result<CommandOutcome, RuntimeError>| #[trigger]
        crate::runtime::submits(
            pre,
            lease.player_id,
            lease.connection_epoch,
            sequence,
            payload,
            post,
            outcome,
        ) && crate::connection::command_answered(outcome, action);
    assert(crate::runtime::submits(
        pre,
        lease.player_id,
        lease.connection_epoch,
        sequence,
        payload,
        post,
        outcome,
    ));
}

/// A datagram that is no command closes the connection, in the words of what is wrong with it, and
/// the match stays as it was.
pub proof fn law_malformed_datagrams_hang_up<S: GameSimulation>(
    pre: RuntimeView<S>,
    lease: SessionLease,
    max_datagram_size: usize,
    datagram: Vec<u8>,
    post: RuntimeView<S>,
    action: ConnectionAction,
)
    requires
        forall|sequence: u32, payload: Seq<u8>|
            datagram@ == #[trigger] crate::protocol::command_bytes(sequence, payload) ==> !(sequence
                > 0 && payload.len() <= 1024),
        crate::connection::responds(
            pre,
            lease,
            max_datagram_size,
            ConnectionEvent::Datagram(datagram),
            post,
            action,
        ),
    ensures
        post == pre,
        crate::protocol::command_fault(datagram@) matches Some(error) && hangs_up(
            action,
            1,
            error.message(),
        ),
{
    crate::framing::law_command_frames_are_recognised(datagram@);
}

/// A frame that everyone may see is sent to the slot's present connection as it is, where it fits a
/// datagram; a connection that it does not fit, or that is not its slot's present one, is closed.
pub proof fn law_shared_frames_are_sent<S: GameSimulation>(
    pre: RuntimeView<S>,
    lease: SessionLease,
    max_datagram_size: usize,
    publication: SnapshotPublication,
    post: RuntimeView<S>,
    action: ConnectionAction,
)
    requires
        publication is Shared,
        crate::connection::responds(
            pre,
            lease,
            max_datagram_size,
            ConnectionEvent::Published(publication),
            post,
            action,
        ),
    ensures
        post == pre,
        ({
            let bytes = (*publication->Shared_0)@;
            &&& present(pre, lease) && bytes.len() <= max_datagram_size ==> (
            action matches ConnectionAction::Send(frame) && (*frame)@ == bytes)
            &&& present(pre, lease) && bytes.len() > max_datagram_size ==> hangs_up(
                action,
                2,
                "snapshot exceeds negotiated datagram budget"@,
            )
            &&& !present(pre, lease) ==> hangs_up(
                action,
                3,
                "connection no longer owns the player slot"@,
            )
        }),
{
}

/// Where each player is shown its own, the slot's present connection is sent the frame of what the
/// game shows its player, and nothing else.
pub proof fn law_own_frames_are_sent<S: GameSimulation>(
    pre: RuntimeView<S>,
    lease: SessionLease,
    max_datagram_size: usize,
    post: RuntimeView<S>,
    action: ConnectionAction,
)
    requires
        crate::connection::responds(
            pre,
            lease,
            max_datagram_size,
            ConnectionEvent::Published(SnapshotPublication::PlayerScoped),
            post,
            action,
        ),
    ensures
        post == pre,
        !present(pre, lease) ==> hangs_up(action, 3, "connection no longer owns the player slot"@),
        present(pre, lease) ==> exists|shown: Result<SimulationSnapshot, SimulationError>|
            #[trigger] crate::simulation::projects(pre.simulation, lease.player_id, shown)
                && sends_own(shown, max_datagram_size, action),
{
    if present(pre, lease) {
        let publication = SnapshotPublication::PlayerScoped;
        let result = choose|result: Result<Seq<u8>, Seq<char>>| #[trigger]
            crate::connection::reaches_connection(pre, lease, publication, result)
                && match result {
                Ok(bytes) => if bytes.len() > max_datagram_size {
                    action.closes(
                        crate::connection::CLOSE_DATAGRAM,
                        "snapshot exceeds negotiated datagram budget"@,
                    )
                } else {
                    action matches ConnectionAction::Send(frame) && (*frame)@ == bytes
                },
                Err(words) => action.closes(crate::connection::CLOSE_RUNTIME, words),
            };
        assert(crate::connection::projected(pre, lease, result));
        let shown = choose|projection: Result<SimulationSnapshot, SimulationError>| #[trigger]
            crate::simulation::projects(pre.simulation, lease.player_id, projection)
                && match projection {
                Ok(snapshot) => crate::connection::frames(snapshot@, result),
                Err(refusal) => result == Err::<Seq<u8>, _>(
                    RuntimeError::Simulation(refusal).message(),
                ),
            };
        assert(crate::simulation::projects(pre.simulation, lease.player_id, shown) && sends_own(
            shown,
            max_datagram_size,
            action,
        ));
    }
}

/// Whether an action sends the frame of what a game shows a player, or tells why it cannot.
pub open spec fn sends_own(
    shown: Result<SimulationSnapshot, SimulationError>,
    max_datagram_size: usize,
    action: ConnectionAction,
) -> bool {
    match shown {
        Err(refusal) => hangs_up(action, 3, "simulation error: "@ + refusal@),
        Ok(snapshot) => {
            let whole = snapshot.payload@.len() <= 65535 && snapshot.state_hash
                == crate::protocol::snapshot_digest(snapshot.tick, snapshot.payload@);
            let bytes = crate::protocol::snapshot_bytes(
                snapshot.tick,
                snapshot.state_hash,
                snapshot.payload@,
            );
            &&& whole && bytes.len() <= max_datagram_size ==> (
            action matches ConnectionAction::Send(frame) && (*frame)@ == bytes)
            &&& whole && bytes.len() > max_datagram_size ==> hangs_up(
                action,
                2,
                "snapshot exceeds negotiated datagram budget"@,
            )
            &&& !whole ==> (action matches ConnectionAction::Close { code, .. } && code == 3)
        },
    }
}

/// Events that carry no game: a control stream starts an exchange in the connection's own name
/// where a permit is free, skipped snapshots change nothing, the end of the server closes the
/// connection, and a peer that is gone ends it. None of them changes the match.
pub proof fn law_other_events_are_answered<S: GameSimulation>(
    pre: RuntimeView<S>,
    lease: SessionLease,
    max_datagram_size: usize,
    event: ConnectionEvent,
    post: RuntimeView<S>,
    action: ConnectionAction,
)
    requires
        crate::connection::responds(pre, lease, max_datagram_size, event, post, action),
        !(event is Datagram),
        !(event is Published),
    ensures
        post == pre,
        event matches ConnectionEvent::ControlStream { permitted } ==> {
            &&& permitted ==> (action matches ConnectionAction::StartControl(context)
                && context.player_id == lease.player_id && context.connection_epoch
                == lease.connection_epoch)
            &&& !permitted ==> action == ConnectionAction::RefuseControl
        },
        event is SnapshotsSkipped ==> action == ConnectionAction::Continue,
        event is SnapshotsClosed ==> hangs_up(action, 4, "snapshot source closed"@),
        event is ShutdownRequested ==> hangs_up(action, 4, "server shutting down"@),
        event is PeerGone ==> action == ConnectionAction::End,
{
}

/// Taking back a welcome that never arrived: a frozen match stays as it is and says so; a newcomer
/// is taken back by the match, and only a removal that the game confirmed counts.
pub proof fn law_rollback_of_a_newcomer<S: GameSimulation>(
    pre: RuntimeView<S>,
    lease: SessionLease,
    post: RuntimeView<S>,
    result: Result<(), String>,
)
    requires
        crate::connection::rolls_back(pre, AdmissionRequest::New, lease, post, result),
    ensures
        pre.frozen ==> post == pre && (result matches Err(text) && text@
            == "runtime froze before welcome rollback"@),
        !pre.frozen ==> exists|outcome: Result<bool, RuntimeError>|
            {
                &&& #[trigger] crate::runtime::aborts(
                    pre,
                    lease.player_id,
                    lease.connection_epoch,
                    post,
                    outcome,
                )
                &&& result is Ok <==> outcome == Ok::<bool, RuntimeError>(true)
                &&& outcome == Ok::<bool, RuntimeError>(false) ==> result->Err_0@
                    == "failed to release incomplete new admission"@
                &&& outcome matches Err(error) ==> result->Err_0@ == error.message()
            },
{
    if !pre.frozen {
        let outcome = choose|outcome: Result<bool, RuntimeError>| #[trigger]
            crate::runtime::aborts(pre, lease.player_id, lease.connection_epoch, post, outcome)
                && crate::connection::reports(result, crate::connection::abort_complaint(outcome));
        assert(crate::runtime::aborts(pre, lease.player_id, lease.connection_epoch, post, outcome));
    }
}

/// Taking back a returning player's welcome changes that player's slot alone: the slot waits from
/// the game's tick on, under the token that the player knows where the rollback succeeds and under
/// the one that the player never saw where it fails.
pub proof fn law_rollback_of_a_return<S: GameSimulation>(
    pre: RuntimeView<S>,
    previous: ReconnectToken,
    lease: SessionLease,
    post: RuntimeView<S>,
    result: Result<(), String>,
)
    requires
        pre.valid(),
        pre.sessions.players.contains_key(lease.player_id) ==> pre.sessions.players[lease.player_id].token
            == lease.reconnect_token,
        crate::connection::rolls_back(
            pre,
            AdmissionRequest::Reconnect(previous),
            lease,
            post,
            result,
        ),
    ensures
        pre.frozen ==> post == pre && (result matches Err(text) && text@
            == "runtime froze before welcome rollback"@),
        !pre.frozen && !present(pre, lease) ==> post == pre && (result matches Err(text) && text@
            == "welcome rollback no longer owns the connection epoch"@),
        !pre.frozen && present(pre, lease) ==> {
            let id = lease.player_id;
            let slot = post.sessions.players[id];
            let deadline = pre.simulation.tick() + pre.sessions.reconnect_grace_ticks;
            let fresh = forall|other: PlayerId| #[trigger]
                pre.sessions.players.contains_key(other) ==> pre.sessions.players[other].token
                    != previous;
            &&& result is Ok <==> fresh && lease.connection_epoch < u32::MAX
            &&& post.simulation == pre.simulation
            &&& post.last_sequences == pre.last_sequences
            &&& post.replay == pre.replay
            &&& post.draining == pre.draining
            &&& post.frozen == pre.frozen
            &&& post.sessions.next_player_id == pre.sessions.next_player_id
            &&& post.sessions.max_players == pre.sessions.max_players
            &&& post.sessions.reconnect_grace_ticks == pre.sessions.reconnect_grace_ticks
            &&& post.sessions.players.dom() == pre.sessions.players.dom()
            &&& !slot.connected
            &&& slot.expires_at_tick == if deadline <= u64::MAX {
                deadline
            } else {
                u64::MAX as int
            }
            &&& result is Ok ==> slot.token == previous && slot.connection_epoch
                == lease.connection_epoch + 1
            &&& result is Err ==> slot.token == lease.reconnect_token && slot.connection_epoch
                == lease.connection_epoch
            &&& forall|other: PlayerId|
                other != id && #[trigger] pre.sessions.players.contains_key(other)
                    ==> post.sessions.players[other] == pre.sessions.players[other]
        },
{
    if !pre.frozen && present(pre, lease) {
        let id = lease.player_id;
        let now = pre.simulation.tick();
        let registry = pre.sessions;
        let waiting = registry.disconnected(id, now);
        crate::connection::lemma_disconnected_is_valid(registry, id, lease.connection_epoch, now);
        crate::session::law_lost_connection_keeps_the_slot(registry, id, now);
        assert(waiting.players[id].token == lease.reconnect_token);
        crate::session::law_return_is_judged(waiting, id, previous, now);
        assert forall|other: PlayerId| #[trigger] waiting.players.contains_key(
            other,
        ) implies waiting.players[other].token == registry.players[other].token by {}
        if result is Ok {
            crate::session::law_return_changes_one_slot(waiting, id, previous);
            let back = waiting.reconnected(lease.reconnect_token, previous);
            crate::session::law_lost_connection_keeps_the_slot(back, id, now);
        }
    }
}

/// An answer to a control request: what the handler gave, where it fits, and else an empty
/// rejection.
pub proof fn law_control_answers(handled: Result<Seq<u8>, Seq<char>>)
    ensures
        crate::connection::control_answer_bytes(handled) == match handled {
            Ok(payload) => if payload.len() <= 4096 {
                seq![71u8, 83u8, 67u8, 84u8, 1u8, 2u8] + crate::wire::be_bytes(payload.len(), 2)
                    + payload
            } else {
                seq![71u8, 83u8, 67u8, 84u8, 1u8, 3u8, 0u8, 0u8]
            },
            Err(_) => seq![71u8, 83u8, 67u8, 84u8, 1u8, 3u8, 0u8, 0u8],
        },
{
    let nothing: Seq<u8> = Seq::empty();
    crate::framing::law_control_frame_layout(3, nothing);
    crate::framing::law_numbers_are_big_endian(0);
    assert(crate::control::control_bytes(3, nothing) =~= seq![
        71u8,
        83u8,
        67u8,
        84u8,
        1u8,
        3u8,
        0u8,
        0u8,
    ]);
    if let Ok(payload) = handled {
        crate::framing::law_control_frame_layout(2, payload);
    }
}

/// A control request reaches the handler exactly where its connection was found to own its slot, in
/// that connection's name and with the request's payload, and what the handler said is answered.
pub proof fn law_control_reaches_the_handler<C: ControlService>(
    ownership: Result<(), RuntimeError>,
    control: C,
    context: crate::control::ControlContext,
    payload: Seq<u8>,
    result: Result<Vec<u8>, String>,
)
    requires
        crate::connection::dispatches(ownership, control, context, payload, result),
    ensures
        result is Ok <==> ownership is Ok,
        ownership matches Err(error) ==> result->Err_0@ == error.message(),
        ownership is Ok ==> exists|request: &[u8], handled: Result<Vec<u8>, ControlServiceError>|
            request@ == payload && #[trigger] call_ensures(
                C::handle,
                (&control, context, request),
                handled,
            ) && result->Ok_0@ == crate::connection::control_answer_bytes(
                match handled {
                    Ok(bytes) => Ok(bytes@),
                    Err(error) => Err(error@),
                },
            ),
{
    if ownership is Ok {
        let handled = choose|handled: Result<Vec<u8>, ControlServiceError>| #[trigger]
            crate::connection::handles(control, context, payload, handled) && (
            result matches Ok(frame) && frame@ == crate::connection::control_answer_bytes(
                crate::connection::handler_said(handled),
            ));
        let request = choose|request: &[u8]|
            request@ == payload && #[trigger] call_ensures(
                C::handle,
                (&control, context, request),
                handled,
            );
        assert(call_ensures(C::handle, (&control, context, request), handled));
    }
}

/// A game can be served exactly where it ticks and its capacity fits the wire.
pub proof fn law_serving_is_judged<S: GameSimulation>(simulation: S)
    ensures
        ({
            let fault = crate::transport::serving_fault(simulation);
            &&& fault is None <==> simulation.rate() > 0 && simulation.capacity() <= 65535
            &&& simulation.rate() == 0 ==> fault == Some(TransportError::InvalidTickRate)
            &&& simulation.rate() > 0 && simulation.capacity() > 65535 ==> fault == Some(
                TransportError::PlayerCapacityTooLarge(simulation.capacity()),
            )
        }),
{
}

/// A path asks for a new session exactly where it is the session path, and for a returning player's
/// slot exactly where `/reconnect/` and a token follow.
pub proof fn law_session_paths_are_understood(path: Seq<char>, session_path: Seq<char>)
    ensures
        ({
            let meaning = crate::transport::path_meaning(path, session_path);
            &&& meaning == Some(None::<Seq<u8>>) <==> path == session_path
            &&& forall|token: Seq<u8>|
                meaning == Some(Some(token)) <==> #[trigger] returns_by(path, session_path, token)
        }),
{
    let prefix = session_path + "/reconnect/"@;
    reveal_strlit("/reconnect/");
    assert forall|token: Seq<u8>|
        crate::transport::path_meaning(path, session_path) == Some(Some(token))
            <==> #[trigger] returns_by(path, session_path, token) by {
        if crate::transport::path_meaning(path, session_path) == Some(Some(token)) {
            let digits = path.skip(prefix.len() as int);
            assert(path =~= prefix + digits);
            assert(crate::session::hex_token(vstd::utf8::encode_utf8(digits)) == Some(token));
        }
        if returns_by(path, session_path, token) {
            let digits = choose|digits: Seq<char>|
                path == session_path + "/reconnect/"@ + digits
                    && #[trigger] crate::session::hex_token(vstd::utf8::encode_utf8(digits))
                    == Some(token);
            assert(path.take(prefix.len() as int) =~= prefix);
            assert(path.skip(prefix.len() as int) =~= digits);
            assert(path.len() > session_path.len());
        }
    }
}

/// Whether a path is the session path with `/reconnect/` and the digits of a token behind it.
pub open spec fn returns_by(path: Seq<char>, session_path: Seq<char>, token: Seq<u8>) -> bool {
    exists|digits: Seq<char>|
        path == session_path + "/reconnect/"@ + digits && #[trigger] crate::session::hex_token(
            vstd::utf8::encode_utf8(digits),
        ) == Some(token)
}

/// How a match starts: anew and empty where nothing is stored, with its history captured wherever
/// it could be stored; from what is stored where something is; and not at all where that cannot be
/// read.
pub proof fn law_start_is_judged<S: GameSimulation>(
    simulation: S,
    reconnect_grace_ticks: u64,
    stored: StoredRecovery,
    result: Result<MatchRuntime<S>, TransportError>,
)
    requires
        crate::transport::starts(simulation, reconnect_grace_ticks, stored, result),
    ensures
        stored is NotConfigured || stored is Missing ==> result is Ok && {
            let runtime = result->Ok_0@;
            &&& runtime.simulation == simulation
            &&& runtime.sessions.players == Map::<PlayerId, crate::session::PlayerSession>::empty()
            &&& runtime.sessions.next_player_id == 1
            &&& runtime.sessions.max_players == simulation.capacity()
            &&& runtime.sessions.reconnect_grace_ticks == reconnect_grace_ticks
            &&& runtime.last_sequences == Map::<PlayerId, u32>::empty()
            &&& !runtime.draining
            &&& !runtime.frozen
            &&& stored is NotConfigured ==> runtime.replay is None
            &&& stored is Missing ==> (runtime.replay matches Some(records) && records.len() == 0)
        },
        stored matches StoredRecovery::Present(bytes) ==> match result {
            Ok(runtime) => exists|image: crate::recovery::ImageView| #[trigger]
                image.bytes() == bytes@ && crate::runtime::restores(simulation, image, runtime@),
            Err(error) => error is Recovery,
        },
        stored matches StoredRecovery::Unreadable(words) ==> (result matches Err(
            TransportError::Recovery(text),
        ) && text == words),
{
}

/// What a tick publishes: where everyone may see the same, the frame of the very snapshot that the
/// tick recorded; where each player is shown its own, no frame at all. A frozen match publishes
/// nothing.
pub proof fn law_ticks_are_published<S: GameSimulation>(
    post: RuntimeView<S>,
    result: Result<SimulationSnapshot, RuntimeError>,
    outcome: TickOutcome,
)
    requires
        crate::transport::tick_leads_to(post, result, outcome),
    ensures
        result matches Err(error) ==> {
            &&& error is Frozen ==> outcome == TickOutcome::Idle
            &&& !(error is Frozen) ==> (outcome matches TickOutcome::Failed(text) && text@
                == error.message())
        },
        result matches Ok(snapshot) ==> exists|scope: SnapshotScope|
            {
                &&& #[trigger] crate::simulation::scopes(post.simulation, scope)
                &&& scope is PlayerScoped ==> outcome == TickOutcome::Publish(
                    SnapshotPublication::PlayerScoped,
                )
                &&& scope is Shared && snapshot.payload@.len() <= 65535 && snapshot.state_hash
                    == crate::protocol::snapshot_digest(snapshot.tick, snapshot.payload@) ==> (
                outcome matches TickOutcome::Publish(SnapshotPublication::Shared(bytes))
                    && (*bytes)@ == crate::protocol::snapshot_bytes(
                    snapshot.tick,
                    snapshot.state_hash,
                    snapshot.payload@,
                ))
                &&& scope is Shared && !(snapshot.payload@.len() <= 65535 && snapshot.state_hash
                    == crate::protocol::snapshot_digest(snapshot.tick, snapshot.payload@))
                    ==> outcome is Unpublishable
            },
{
}

/// Whether a match is as before but for the two flags.
pub open spec fn same_but_flags<S: GameSimulation>(pre: RuntimeView<S>, post: RuntimeView<S>) -> bool {
    &&& post.simulation == pre.simulation
    &&& post.sessions == pre.sessions
    &&& post.last_sequences == pre.last_sequences
    &&& post.replay == pre.replay
}

/// Freezing a match for its image changes nothing but whether it drains and is frozen: it is both
/// where the image that is wanted could be taken or none is wanted, and neither where it could not.
pub proof fn law_freezing_is_judged<S: GameSimulation>(
    pre: RuntimeView<S>,
    wanted: bool,
    post: RuntimeView<S>,
    result: Result<Option<RecoveryImage>, String>,
)
    requires
        crate::transport::freezes(pre, wanted, post, result),
    ensures
        same_but_flags(pre, post),
        result is Ok ==> post.frozen && post.draining,
        result is Err ==> !post.frozen && !post.draining,
        !wanted ==> result == Ok::<Option<RecoveryImage>, String>(None),
        wanted ==> (result matches Ok(image) ==> image is Some),
        wanted && pre.replay is None ==> result is Err,
        result is Err ==> wanted && {
            ||| pre.replay is None
            ||| exists|refusal: SimulationError| #[trigger]
                crate::simulation::snapshots(pre.simulation, Err(refusal))
            ||| exists|snapshot: SimulationSnapshot, image: crate::recovery::ImageView|
                #![trigger crate::simulation::snapshots(pre.simulation, Ok(snapshot)), crate::runtime::leaves_behind(pre, snapshot@, image)]
                crate::simulation::snapshots(pre.simulation, Ok(snapshot))
                    && crate::runtime::leaves_behind(pre, snapshot@, image)
                    && image.refusal() is Some
        },
        result matches Ok(Some(image)) ==> exists|snapshot: SimulationSnapshot| #[trigger]
            crate::simulation::snapshots(pre.simulation, Ok(snapshot))
                && crate::runtime::leaves_behind(post, snapshot@, image@),
{
    if wanted {
        let frozen = RuntimeView { draining: true, frozen: true, ..pre };
        let outcome = choose|outcome: Result<
            RecoveryImage,
            crate::runtime::RuntimeRecoveryError,
        >| #[trigger]
            crate::runtime::images(frozen, outcome) && match outcome {
                Ok(image) => result == Ok::<Option<RecoveryImage>, String>(Some(image)) && post
                    == frozen,
                Err(error) => (result matches Err(text) && text@ == error.message()) && post == (
                RuntimeView { draining: false, frozen: false, ..pre }),
            };
        crate::conduct::law_images_are_owed(frozen, outcome);
        if result is Err && pre.replay is Some && !(exists|refusal: SimulationError| #[trigger]
            crate::simulation::snapshots(pre.simulation, Err(refusal))) {
            let (snapshot, image) = choose|
                snapshot: SimulationSnapshot,
                image: crate::recovery::ImageView,
            |
                #![trigger crate::simulation::snapshots(frozen.simulation, Ok(snapshot)), crate::runtime::leaves_behind(frozen, snapshot@, image)]
                crate::simulation::snapshots(frozen.simulation, Ok(snapshot))
                    && crate::runtime::leaves_behind(frozen, snapshot@, image)
                    && image.refusal() is Some;
            assert(crate::simulation::snapshots(pre.simulation, Ok(snapshot))
                && crate::runtime::leaves_behind(pre, snapshot@, image));
        }
    }
}

/// How a listener's life goes on: a shutdown request that can be taken begins a drain, the end of
/// the drain a save, a save that succeeded the end, and one that failed serving again; requests can
/// come until their source closes while the listener serves. Whatever comes out of turn changes
/// nothing.
pub proof fn law_listener_steps(state: ServeState, event: ServeEvent)
    ensures
        ({
            let (next, action) = state.after(event);
            let asked = state.phase is Serving && state.shutdown_open && event is ShutdownRequested;
            let closes = state.phase is Serving && event is ShutdownSourceClosed;
            let drained = state.phase is Draining && event is DrainElapsed;
            let saved = state.phase is Persisting && event is RecoveryPersisted;
            let failed = state.phase is Persisting && event is RecoveryFailed;
            &&& action is BeginDrain <==> asked
            &&& action is PersistRecovery <==> drained
            &&& action is StopServing <==> saved
            &&& action is ResumeServing <==> failed
            &&& action is Wait <==> !asked && !drained && !saved && !failed
            &&& next.phase == if asked {
                ServePhase::Draining
            } else if drained {
                ServePhase::Persisting
            } else if saved {
                ServePhase::Stopped
            } else if failed {
                ServePhase::Serving
            } else {
                state.phase
            }
            &&& next.shutdown_open == (state.shutdown_open && !closes)
        }),
{
}

/// A token is made of exactly the bytes that were drawn, and none is made where none were.
pub proof fn law_tokens_are_what_was_drawn(
    drawn: Result<[u8; 16], ring::error::Unspecified>,
    result: Result<ReconnectToken, String>,
)
    requires
        crate::connection::makes_token(drawn, result),
    ensures
        result is Ok <==> drawn is Ok,
        drawn matches Ok(bytes) ==> result->Ok_0.0 == bytes,
        result matches Err(words) ==> words@ == "secure reconnect-token generation failed"@,
{
}

} // verus!
