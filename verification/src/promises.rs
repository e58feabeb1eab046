//! What single calls promise, told by what goes in and what comes out.

use crate::client::SnapshotCount;
use crate::connection::SnapshotPublication;
use crate::control::{ControlRequest, ControlResponse, ControlWireError};
use crate::external_simulation::{
    ExternalSimulationError, ExternalSimulationOperation, ExternalSimulationRequest,
    ExternalSimulationResponse,
};
use crate::host::{EntryView, HostError, HostStatus, HostView, MatchHost, MatchId};
use crate::host_recovery::MatchHostRecoveryError;
use crate::host_status::{HostStatusServerError, RequestProgress, StatusState};
use crate::host_transport::MatchHostTransportError;
use crate::protocol::{CommandFrame, PlayerId, ProtocolError, SnapshotFrame, Welcome};
use crate::recovery::{RecoveryError, RecoveryImage};
use crate::replay::{ReplayError, ReplayLog};
use crate::runtime::{CommandOutcome, MatchRuntime, RuntimeError, RuntimeView};
use crate::session::{ReconnectToken, SessionLease, SessionRegistry};
use crate::simulation::{GameSimulation, SimulationSnapshot, SnapshotScope};
use crate::world::{DemoSnapshotPlayer, WorldError};
use vstd::prelude::*;

verus! {

/// Whether a match is new: nobody is in it, nobody was, and it runs.
pub open spec fn is_new<S: GameSimulation>(
    runtime: RuntimeView<S>,
    simulation: S,
    reconnect_grace_ticks: u64,
) -> bool {
    &&& runtime.simulation == simulation
    &&& runtime.sessions.max_players == simulation.capacity()
    &&& runtime.sessions.reconnect_grace_ticks == reconnect_grace_ticks
    &&& runtime.sessions.next_player_id == 1
    &&& forall|id: PlayerId| !#[trigger] runtime.sessions.players.contains_key(id)
    &&& forall|id: PlayerId| !#[trigger] runtime.last_sequences.contains_key(id)
    &&& !runtime.draining
    &&& !runtime.frozen
}

/// A match begins empty and running, and keeps a history exactly where it is asked to.
pub proof fn law_matches_begin_empty<S: GameSimulation>(
    simulation: S,
    reconnect_grace_ticks: u64,
    runtime: MatchRuntime<S>,
)
    ensures
        call_ensures(MatchRuntime::<S>::new, (simulation, reconnect_grace_ticks), runtime)
            ==> is_new(runtime@, simulation, reconnect_grace_ticks) && runtime@.replay is None,
        call_ensures(
            MatchRuntime::<S>::new_with_replay_capture,
            (simulation, reconnect_grace_ticks),
            runtime,
        ) ==> is_new(runtime@, simulation, reconnect_grace_ticks) && (
        runtime@.replay matches Some(records) && records.len() == 0),
{
}

/// A drain begins and nothing else; a freeze begins a drain too; and a match that resumes neither
/// drains nor is frozen. None of them touches anything else.
pub proof fn law_flags_are_set<S: GameSimulation>()
    ensures
        forall|target: &mut MatchRuntime<S>| #[trigger]
            call_ensures(MatchRuntime::<S>::begin_drain, (target,), ()) ==> crate::passage::same_but_flags(
                target@,
                final(target)@,
            ) && final(target)@.draining && final(target)@.frozen == target@.frozen,
        forall|target: &mut MatchRuntime<S>| #[trigger]
            call_ensures(MatchRuntime::<S>::freeze_for_recovery, (target,), ())
                ==> crate::passage::same_but_flags(target@, final(target)@) && final(target)@.draining
                && final(target)@.frozen,
        forall|target: &mut MatchRuntime<S>| #[trigger]
            call_ensures(MatchRuntime::<S>::resume_after_failed_recovery, (target,), ())
                ==> crate::passage::same_but_flags(target@, final(target)@) && !final(target)@.draining
                && !final(target)@.frozen,
{
}

/// A host begins empty, and only with room for a match.
pub proof fn law_hosts_begin_empty<S: GameSimulation>(
    max_matches: usize,
    result: Result<MatchHost<S>, HostError>,
)
    requires
        call_ensures(MatchHost::<S>::new, (max_matches,), result),
    ensures
        result is Ok <==> max_matches > 0,
        result matches Ok(host) ==> host@.entries.len() == 0 && host@.max_matches == max_matches
            && !host@.draining,
        result matches Err(error) ==> error == HostError::ZeroCapacity,
{
}

/// The drain of a host drains each of its matches and changes nothing else in any of them.
pub proof fn law_host_drain_reaches_every_match<S: GameSimulation>()
    ensures
        forall|target: &mut MatchHost<S>| #[trigger]
            call_ensures(MatchHost::<S>::begin_drain, (target,), ()) ==> {
                &&& final(target)@.draining
                &&& final(target)@.max_matches == target@.max_matches
                &&& final(target)@.entries.len() == target@.entries.len()
                &&& forall|i: int|
                    0 <= i < target@.entries.len() ==> {
                        let entry = #[trigger] final(target)@.entries[i];
                        &&& entry.id == target@.entries[i].id
                        &&& entry.runtime.draining
                        &&& entry.runtime.frozen == target@.entries[i].runtime.frozen
                        &&& crate::passage::same_but_flags(target@.entries[i].runtime, entry.runtime)
                    }
            },
{
}

/// How many more matches fit is what is left of the limit, and a host is ready for one exactly
/// where it does not drain and one fits.
pub proof fn law_room_is_told(status: HostStatus, remaining: usize, ready: bool)
    ensures
        call_ensures(HostStatus::remaining_match_capacity, (status,), remaining) && status.hosted_matches
            <= status.max_matches ==> remaining + status.hosted_matches == status.max_matches,
        call_ensures(HostStatus::remaining_match_capacity, (status,), remaining) && status.hosted_matches
            > status.max_matches ==> remaining == 0,
        call_ensures(HostStatus::ready_for_new_match, (status,), ready) ==> (ready
            <==> !status.draining && status.hosted_matches < status.max_matches),
{
}

/// A stored file is read exactly where it is no larger than an image may be.
pub proof fn law_stored_sizes_are_judged(length: u64, result: Result<usize, RecoveryError>)
    requires
        call_ensures(crate::recovery::stored_image_size, (length,), result),
    ensures
        result is Ok <==> length <= 256 * 1024 * 1024,
        result matches Ok(size) ==> size == length,
        result matches Err(error) ==> error is ImageTooLarge,
{
}

/// What is published of a game that shows each player its own is never its canonical payload; what
/// is published of a game that everyone may see is the snapshot's frame.
pub proof fn law_publication_keeps_secrets(
    scope: SnapshotScope,
    snapshot: SimulationSnapshot,
    result: Result<SnapshotPublication, String>,
)
    requires
        call_ensures(crate::connection::snapshot_publication, (scope, snapshot), result),
    ensures
        scope is PlayerScoped ==> result == Ok::<_, String>(SnapshotPublication::PlayerScoped),
        scope is Shared ==> {
            let whole = snapshot.payload@.len() <= 65535 && snapshot.state_hash
                == crate::protocol::snapshot_digest(snapshot.tick, snapshot.payload@);
            &&& result is Ok <==> whole
            &&& result matches Ok(publication) ==> (publication matches SnapshotPublication::Shared(
                bytes,
            ) && (*bytes)@ == crate::protocol::snapshot_bytes(
                snapshot.tick,
                snapshot.state_hash,
                snapshot.payload@,
            ))
        },
{
}

/// A welcome tells the lease and the match as they are, where the match's capacity fits the wire.
pub proof fn law_welcomes_tell_the_lease<S: GameSimulation>(
    runtime: &MatchRuntime<S>,
    lease: SessionLease,
    result: Result<[u8; 46], String>,
)
    requires
        call_ensures(crate::connection::welcome_frame::<S>, (runtime, lease), result),
    ensures
        result is Ok <==> runtime@.simulation.capacity() <= 65535,
        result matches Ok(bytes) ==> bytes@ == seq![3u8, 3u8] + crate::wire::be_bytes(
            lease.player_id as nat,
            4,
        ) + crate::wire::be_bytes(runtime@.simulation.rate() as nat, 2) + crate::wire::be_bytes(
            runtime@.simulation.capacity() as nat,
            2,
        ) + crate::wire::be_bytes(runtime@.simulation.tick() as nat, 8) + crate::wire::be_bytes(
            lease.connection_epoch as nat,
            4,
        ) + lease.reconnect_token.0@ + crate::wire::be_bytes(
            lease.reconnect_grace_ticks as nat,
            8,
        ),
{
}

/// A control header announces a payload that is taken exactly where it is not too long, and a
/// request has ended exactly where nothing was found behind it.
pub proof fn law_control_requests_are_bounded(
    header: &[u8],
    length: Result<usize, String>,
    trailing: Option<usize>,
    ended: Result<(), String>,
)
    requires
        header@.len() == 8,
        call_ensures(crate::connection::control_payload_length, (header,), length),
        call_ensures(crate::connection::control_request_ended, (trailing,), ended),
    ensures
        length is Ok <==> crate::wire::be_value(header@.subrange(6, 8)) <= 4096,
        length matches Ok(announced) ==> announced == crate::wire::be_value(
            header@.subrange(6, 8),
        ),
        ended is Ok <==> trailing is None,
{
}

/// The ticks of a second fill it but for less than a microsecond each.
pub proof fn law_ticks_fill_the_second(tick_hz: u16, micros: u64)
    requires
        tick_hz > 0,
        call_ensures(crate::transport::tick_interval_micros, (tick_hz,), micros),
    ensures
        tick_hz * micros <= 1_000_000 < tick_hz * (micros + 1),
{
    let hz = tick_hz as int;
    let interval = 1_000_000int / hz;
    assert(hz * interval <= 1_000_000 < hz * (interval + 1)) by (nonlinear_arith)
        requires
            hz > 0,
            interval == 1_000_000int / hz,
    ;
}

/// Configured matches are taken where there is one and no name is used twice, and then in the order
/// of their names.
pub proof fn law_configured_names_are_judged<S>(
    matches: &Vec<(MatchId, S)>,
    result: Result<Vec<MatchId>, MatchHostRecoveryError>,
)
    requires
        call_ensures(crate::host_recovery::expected_ids::<S>, (matches,), result),
    ensures
        result is Ok ==> matches@.len() > 0 && result->Ok_0@.len() == matches@.len(),
        result matches Ok(ids) ==> forall|i: int, j: int|
            0 <= i < j < ids@.len() ==> crate::text::precedes(
                (#[trigger] ids@[i])@,
                (#[trigger] ids@[j])@,
            ),
        matches@.len() == 0 ==> (result matches Err(MatchHostRecoveryError::EmptyMatchSet)),
        result matches Err(MatchHostRecoveryError::DuplicateMatch(id)) ==> exists|i: int, j: int|
            0 <= i < j < matches@.len() && (#[trigger] matches@[i]).0@ == id@ && (
            #[trigger] matches@[j]).0@ == id@,
{
    let names = crate::host_recovery::configured(matches@);
    match result {
        Ok(ids) => {
            let views = crate::host_recovery::id_views(ids@);
            assert forall|i: int, j: int| 0 <= i < j < ids@.len() implies crate::text::precedes(
                (#[trigger] ids@[i])@,
                (#[trigger] ids@[j])@,
            ) by {
                assert(crate::text::precedes(views[i], views[j]));
            }
        },
        Err(MatchHostRecoveryError::DuplicateMatch(id)) => {
            let index = choose|index: int| #[trigger]
                crate::host_recovery::first_repeated(names, index) && id@ == names[index];
            let earlier = names.take(index);
            let i = choose|i: int| 0 <= i < earlier.len() && earlier[i] == names[index];
            assert(matches@[i].0@ == names[i]);
            assert(matches@[index].0@ == names[index]);
            assert(matches@[i].0@ == id@ && matches@[index].0@ == id@);
        },
        _ => {},
    }
}

/// A request header is complete once an empty line has come; until then more is awaited, up to a
/// limit.
pub proof fn law_request_headers_are_bounded(bytes: &[u8], progress: RequestProgress)
    requires
        call_ensures(crate::host_status::request_progress, (bytes,), progress),
    ensures
        ({
            let over = exists|i: int|
                0 <= i && i + 4 <= bytes@.len() && #[trigger] bytes@.subrange(i, i + 4) == seq![
                    13u8,
                    10u8,
                    13u8,
                    10u8,
                ];
            &&& progress is NeedsMore <==> !over && bytes@.len() < 4096
            &&& progress is TooLarge <==> !over && bytes@.len() >= 4096
            &&& progress is Complete <==> over && vstd::utf8::valid_utf8(bytes@)
            &&& progress is Malformed <==> over && !vstd::utf8::valid_utf8(bytes@)
        }),
{
    if exists|i: int|
        0 <= i && i + 4 <= bytes@.len() && #[trigger] bytes@.subrange(i, i + 4) == seq![
            13u8,
            10u8,
            13u8,
            10u8,
        ] {
        let i = choose|i: int|
            0 <= i && i + 4 <= bytes@.len() && #[trigger] bytes@.subrange(i, i + 4) == seq![
                13u8,
                10u8,
                13u8,
                10u8,
            ];
        assert(crate::host_status::ends_at(bytes@, i));
    }
    if exists|i: int| #[trigger] crate::host_status::ends_at(bytes@, i) {
        let i = choose|i: int| #[trigger] crate::host_status::ends_at(bytes@, i);
        assert(bytes@.subrange(i, i + 4) == seq![13u8, 10u8, 13u8, 10u8]);
    }
}

/// A process ends well exactly where its transport and its status listener both did and the
/// listener did not stop first; the transport's failure comes before the listener's.
pub proof fn law_serving_is_settled(
    transport: Result<(), MatchHostTransportError>,
    status: Result<(), HostStatusServerError>,
    status_stopped_first: bool,
    result: Result<(), HostStatusServerError>,
)
    requires
        call_ensures(
            crate::host_status::settle_serving,
            (transport, status, status_stopped_first),
            result,
        ),
    ensures
        result is Ok <==> transport is Ok && status is Ok && !status_stopped_first,
        transport matches Err(error) ==> result == Err::<(), _>(
            HostStatusServerError::Transport(error),
        ),
        transport is Ok && status is Err ==> result->Err_0 == status->Err_0,
        transport is Ok && status is Ok && status_stopped_first ==> result == Err::<(), _>(
            HostStatusServerError::ExitedUnexpectedly,
        ),
{
}

/// What is told of a process begins with what its host is, before it serves; serving and draining
/// are set once and change nothing else.
pub proof fn law_status_begins_with_the_host<S: GameSimulation>(
    host: &MatchHost<S>,
    state: StatusState,
)
    requires
        host@.valid(),
        call_ensures(StatusState::from_host::<S>, (host,), state),
    ensures
        !state.serving,
        state.draining == host@.draining,
        state.process.hosted_matches == host@.entries.len(),
        state.process.max_matches == host@.max_matches,
        state.process.matches@.len() == host@.entries.len(),
        forall|i: int|
            0 <= i < host@.entries.len() ==> {
                let facts = #[trigger] state.process.matches@[i];
                &&& facts.id@ == host@.entries[i].id
                &&& facts.draining == host@.entries[i].runtime.draining
                &&& facts.frozen == host@.entries[i].runtime.frozen
                &&& facts.max_players == host@.entries[i].runtime.simulation.capacity()
            },
        forall|target: &mut StatusState| #[trigger]
            call_ensures(StatusState::mark_serving, (target,), ()) ==> final(target).serving
                && final(target).draining == target.draining && final(target).process
                == target.process,
        forall|target: &mut StatusState| #[trigger]
            call_ensures(StatusState::begin_process_drain, (target,), ()) ==> final(target).draining
                && final(target).serving == target.serving && final(target).process
                == target.process,
{
}

/// A run of commands has as many commands as it should, from the first sequence to the last.
pub proof fn law_command_runs_are_counted(
    start_sequence: u32,
    command_count: u32,
    result: Result<u32, &'static str>,
)
    requires
        call_ensures(crate::client::final_sequence, (start_sequence, command_count), result),
    ensures
        result is Ok <==> start_sequence > 0 && command_count > 0 && start_sequence + command_count
            - 1 <= u32::MAX,
        result matches Ok(last) ==> last - start_sequence + 1 == command_count,
{
}

/// A trial succeeds exactly where three snapshots or more counted, none was invalid, the match
/// moved on, and the last command was applied; until enough has come it is not settled.
pub proof fn law_trials_are_judged(
    count: &SnapshotCount,
    last_sent: u32,
    settled: bool,
    progressed: bool,
    hold: bool,
)
    requires
        count.valid(),
        call_ensures(SnapshotCount::is_settled, (count, last_sent), settled),
        call_ensures(SnapshotCount::progressed, (count,), progressed),
        call_ensures(SnapshotCount::expectations_hold, (count, last_sent), hold),
    ensures
        settled <==> count.final_applied_sequence == last_sent && count.accepted >= 3,
        progressed <==> count.accepted > 0 && count.last_tick->0 > count.first_tick->0,
        hold <==> settled && progressed && count.invalid == 0,
{
}

/// A step is encoded exactly where each direction is one way or none, and the game reads it as the
/// same step; players that a payload shows are read back.
pub proof fn law_demo_payloads_are_read_back(
    horizontal: i8,
    vertical: i8,
    encoded: Result<[u8; 2], WorldError>,
    payload: &[u8],
    players: Result<Vec<DemoSnapshotPlayer>, WorldError>,
)
    requires
        call_ensures(crate::world::encode_demo_command, (horizontal, vertical), encoded),
        call_ensures(crate::world::decode_demo_snapshot, (payload,), players),
    ensures
        encoded is Ok <==> -1 <= horizontal <= 1 && -1 <= vertical <= 1,
        encoded matches Ok(bytes) ==> crate::course::points(bytes@[0], horizontal)
            && crate::course::points(bytes@[1], vertical),
        players is Ok <==> payload@.len() > 0 && payload@[0] <= 16 && payload@.len() == 1 + 12
            * payload@[0],
        players matches Ok(shown) ==> payload@ == crate::world::demo_payload(shown@)
            && shown@.len() <= 16,
        players matches Err(error) ==> error == WorldError::InvalidSnapshotLength,
{
}

/// A step is counted exactly where the engine took one.
pub proof fn law_steps_are_counted(authoritative_steps: u64, stepped: bool, steps: u64)
    requires
        authoritative_steps < u64::MAX,
        call_ensures(crate::physics::steps_after, (authoritative_steps, stepped), steps),
    ensures
        stepped ==> steps == authoritative_steps + 1,
        !stepped ==> steps == authoritative_steps,
{
}

/// What is asked of a match is judged and takes effect as the match's own conduct says.
pub proof fn law_match_calls<S: GameSimulation>()
    ensures
        forall|target: &mut MatchRuntime<S>, token: ReconnectToken, result: Result<
            SessionLease,
            RuntimeError,
        >| #[trigger]
            call_ensures(MatchRuntime::<S>::admit_player, (target, token), result)
                && target@.valid() ==> crate::runtime::admits(
                target@,
                token,
                final(target)@,
                result,
            ),
        forall|
            target: &mut MatchRuntime<S>,
            previous: ReconnectToken,
            replacement: ReconnectToken,
            result: Result<SessionLease, RuntimeError>,
        | #[trigger]
            call_ensures(MatchRuntime::<S>::reconnect, (target, previous, replacement), result)
                && target@.valid() ==> crate::runtime::reconnects(
                target@,
                previous,
                replacement,
                final(target)@,
                result,
            ),
        forall|target: &mut MatchRuntime<S>, id: PlayerId, epoch: u32, ended: bool| #[trigger]
            call_ensures(MatchRuntime::<S>::disconnect, (target, id, epoch), ended)
                && target@.valid() ==> crate::runtime::disconnects(
                target@,
                id,
                epoch,
                final(target)@,
                ended,
            ),
        forall|target: &mut MatchRuntime<S>, id: PlayerId, epoch: u32, result: Result<
            bool,
            RuntimeError,
        >| #[trigger]
            call_ensures(MatchRuntime::<S>::abort_admission, (target, id, epoch), result)
                && target@.valid() ==> crate::runtime::aborts(
                target@,
                id,
                epoch,
                final(target)@,
                result,
            ),
        forall|
            target: &mut MatchRuntime<S>,
            id: PlayerId,
            epoch: u32,
            sequence: u32,
            payload: &[u8],
            result: Result<CommandOutcome, RuntimeError>,
        | #[trigger]
            call_ensures(
                MatchRuntime::<S>::submit_command,
                (target, id, epoch, sequence, payload),
                result,
            ) && target@.valid() ==> crate::runtime::submits(
                target@,
                id,
                epoch,
                sequence,
                payload@,
                final(target)@,
                result,
            ),
        forall|target: &mut MatchRuntime<S>, result: Result<SimulationSnapshot, RuntimeError>|
         #[trigger]
            call_ensures(MatchRuntime::<S>::advance_tick, (target,), result) && target@.valid()
                ==> crate::runtime::ticks(target@, final(target)@, result),
{
}

/// A connection counts exactly where it is its slot's present one.
pub proof fn law_connections_are_validated<S: GameSimulation>(
    runtime: &MatchRuntime<S>,
    id: PlayerId,
    epoch: u32,
    result: Result<(), RuntimeError>,
)
    requires
        call_ensures(MatchRuntime::<S>::validate_connection, (runtime, id, epoch), result),
    ensures
        result is Ok <==> runtime@.sessions.players.contains_key(id)
            && runtime@.sessions.players[id].connected
            && runtime@.sessions.players[id].connection_epoch == epoch,
        result matches Err(error) ==> error == RuntimeError::StaleConnection,
{
}

/// A slot that is given up is gone, and the slots that lapse are taken out all at once, in
/// ascending order, and no others.
pub proof fn law_slots_are_taken_out()
    ensures
        forall|target: &mut SessionRegistry, id: PlayerId, removed: bool| #[trigger]
            call_ensures(SessionRegistry::remove_slot, (target, id), removed) && target@.valid()
                ==> {
                &&& removed == target@.players.contains_key(id)
                &&& !final(target)@.players.contains_key(id)
                &&& final(target)@.next_player_id == target@.next_player_id
                &&& final(target)@.max_players == target@.max_players
                &&& final(target)@.reconnect_grace_ticks == target@.reconnect_grace_ticks
                &&& forall|other: PlayerId|
                    other != id && #[trigger] target@.players.contains_key(other)
                        ==> final(target)@.players.contains_key(other)
                        && final(target)@.players[other] == target@.players[other]
            },
        forall|target: &mut SessionRegistry, now: u64, gone: Vec<PlayerId>| #[trigger]
            call_ensures(SessionRegistry::expire, (target, now), gone) && target@.valid() ==> {
                &&& forall|i: int, j: int| 0 <= i < j < gone@.len() ==> gone@[i] < gone@[j]
                &&& forall|id: PlayerId| #[trigger]
                    gone@.contains(id) <==> has_lapsed(target@, id, now)
                &&& forall|id: PlayerId| #[trigger]
                    final(target)@.players.contains_key(id) <==> target@.players.contains_key(id)
                        && !has_lapsed(target@, id, now)
                &&& forall|id: PlayerId| #[trigger]
                    final(target)@.players.contains_key(id) ==> final(target)@.players[id]
                        == target@.players[id]
                &&& final(target)@.next_player_id == target@.next_player_id
            },
{
    assert forall|target: &mut SessionRegistry, now: u64, gone: Vec<PlayerId>| #[trigger]
        call_ensures(SessionRegistry::expire, (target, now), gone) && target@.valid() implies {
        &&& forall|i: int, j: int| 0 <= i < j < gone@.len() ==> gone@[i] < gone@[j]
        &&& forall|id: PlayerId| #[trigger] gone@.contains(id) <==> has_lapsed(target@, id, now)
        &&& forall|id: PlayerId| #[trigger]
            final(target)@.players.contains_key(id) <==> target@.players.contains_key(id)
                && !has_lapsed(target@, id, now)
        &&& forall|id: PlayerId| #[trigger]
            final(target)@.players.contains_key(id) ==> final(target)@.players[id]
                == target@.players[id]
        &&& final(target)@.next_player_id == target@.next_player_id
    } by {
        let lapsed = target@.lapsed_ids(now);
        assert forall|id: PlayerId| #[trigger] lapsed.contains(id) <==> has_lapsed(
            target@,
            id,
            now,
        ) by {
            crate::session::law_waiting_slots_lapse(target@, id, now);
        }
        assert forall|id: PlayerId| #[trigger] gone@.contains(id) <==> has_lapsed(
            target@,
            id,
            now,
        ) by {
            assert(gone@.contains(id) == lapsed.contains(id));
        }
        assert forall|id: PlayerId| #[trigger] final(target)@.players.contains_key(id)
            <==> target@.players.contains_key(id) && !has_lapsed(target@, id, now) by {
            assert(lapsed.contains(id) == has_lapsed(target@, id, now));
        }
    }
}

/// Whether a slot waits and its grace period is over.
pub open spec fn has_lapsed(
    registry: crate::session::RegistryView,
    id: PlayerId,
    now: u64,
) -> bool {
    &&& registry.players.contains_key(id)
    &&& !registry.players[id].connected
    &&& now > registry.players[id].expires_at_tick
}

/// A match that is placed is hosted under its name as it came, and every other match stays as it
/// was; one that is not placed comes back whole.
pub proof fn law_placed_matches_are_hosted<S: GameSimulation>()
    ensures
        forall|
            target: &mut MatchHost<S>,
            id: MatchId,
            runtime: MatchRuntime<S>,
            result: Result<(), crate::host::PlacementFailure<S>>,
        | #[trigger]
            call_ensures(MatchHost::<S>::insert, (target, id, runtime), result) && target@.valid()
                && runtime@.valid() ==> {
                &&& final(target)@.draining == target@.draining
                &&& final(target)@.max_matches == target@.max_matches
                &&& result is Ok <==> !target@.draining && !crate::hosting::hosted(target@, id@)
                    && target@.entries.len() < target@.max_matches
                &&& result is Ok ==> holds_one_more(
                    target@,
                    EntryView { id: id@, runtime: runtime@ },
                    final(target)@,
                )
                &&& result matches Err(failure) ==> final(target)@.entries == target@.entries
                    && failure.name() == id && failure.retained() == runtime
            },
{
    assert forall|
        target: &mut MatchHost<S>,
        id: MatchId,
        runtime: MatchRuntime<S>,
        result: Result<(), crate::host::PlacementFailure<S>>,
    | #[trigger]
        call_ensures(MatchHost::<S>::insert, (target, id, runtime), result) && target@.valid()
            && runtime@.valid() implies {
        &&& final(target)@.draining == target@.draining
        &&& final(target)@.max_matches == target@.max_matches
        &&& result is Ok <==> !target@.draining && !crate::hosting::hosted(target@, id@)
            && target@.entries.len() < target@.max_matches
        &&& result is Ok ==> holds_one_more(
            target@,
            EntryView { id: id@, runtime: runtime@ },
            final(target)@,
        )
        &&& result matches Err(failure) ==> final(target)@.entries == target@.entries
            && failure.name() == id && failure.retained() == runtime
    } by {
        crate::hosting::law_placement_is_judged(target@, id);
        if result is Ok {
            let entry = EntryView { id: id@, runtime: runtime@ };
            let index = choose|index: int| #[trigger]
                target@.fits_at(id@, index) && final(target)@ == (HostView {
                    entries: target@.entries.insert(index, entry),
                    ..target@
                });
            assert(holds_one_more_at(target@, entry, index, final(target)@));
        }
    }
}

/// Whether a host holds what it held, and one match more.
pub open spec fn holds_one_more<S: GameSimulation>(
    pre: HostView<S>,
    entry: EntryView<S>,
    post: HostView<S>,
) -> bool {
    exists|index: int| #[trigger] holds_one_more_at(pre, entry, index, post)
}

/// Whether a host holds what it held, and one match more at `index`.
pub open spec fn holds_one_more_at<S: GameSimulation>(
    pre: HostView<S>,
    entry: EntryView<S>,
    index: int,
    post: HostView<S>,
) -> bool {
    &&& 0 <= index <= pre.entries.len()
    &&& post.entries.len() == pre.entries.len() + 1
    &&& post.entries[index] == entry
    &&& forall|i: int| 0 <= i < index ==> #[trigger] post.entries[i] == pre.entries[i]
    &&& forall|i: int|
        index <= i < pre.entries.len() ==> post.entries[i + 1] == #[trigger] pre.entries[i]
}

/// A match that is let go was hosted, drained and empty, comes out as it was, and every other match
/// stays; where nothing is let go, nothing changes.
pub proof fn law_released_matches_come_out<S: GameSimulation>()
    ensures
        forall|
            target: &mut MatchHost<S>,
            id: &MatchId,
            result: Result<MatchRuntime<S>, HostError>,
        | #[trigger]
            call_ensures(MatchHost::<S>::remove_drained, (target, id), result) && target@.valid()
                ==> {
                &&& final(target)@.draining == target@.draining
                &&& final(target)@.max_matches == target@.max_matches
                &&& result matches Ok(runtime) ==> holds_one_more(
                    final(target)@,
                    EntryView { id: id@, runtime: runtime@ },
                    target@,
                ) && runtime@.draining && runtime@.sessions.players.dom().len() == 0
                &&& result is Err ==> final(target)@.entries == target@.entries
                &&& !crate::hosting::hosted(target@, id@) ==> result == Err::<MatchRuntime<S>, _>(
                    HostError::UnknownMatch(*id),
                )
            },
{
    assert forall|target: &mut MatchHost<S>, id: &MatchId, result: Result<MatchRuntime<S>, HostError>|
     #[trigger]
        call_ensures(MatchHost::<S>::remove_drained, (target, id), result)
            && target@.valid() implies {
        &&& final(target)@.draining == target@.draining
        &&& final(target)@.max_matches == target@.max_matches
        &&& result matches Ok(runtime) ==> holds_one_more(
            final(target)@,
            EntryView { id: id@, runtime: runtime@ },
            target@,
        ) && runtime@.draining && runtime@.sessions.players.dom().len() == 0
        &&& result is Err ==> final(target)@.entries == target@.entries
        &&& !crate::hosting::hosted(target@, id@) ==> result == Err::<MatchRuntime<S>, _>(
            HostError::UnknownMatch(*id),
        )
    } by {
        if let Ok(runtime) = result {
            let index = choose|index: int| #[trigger]
                target@.is_at(id@, index) && target@.removal_refusal(*id, index) is None && runtime@
                    == target@.entries[index].runtime && final(target)@ == (HostView {
                    entries: target@.entries.remove(index),
                    ..target@
                });
            let entry = EntryView { id: id@, runtime: runtime@ };
            assert(target@.entries[index] == entry);
            assert(holds_one_more_at(final(target)@, entry, index, target@));
            assert(crate::hosting::hosted(target@, id@));
        }
        if target@.hosts(id@) {
            let i = choose|i: int| #[trigger] target@.is_at(id@, i);
            assert(target@.entries[i].id == id@);
        }
    }
}

/// What is framed is read back: commands, snapshots and welcomes.
pub proof fn law_protocol_calls_round_trip(
    sequence: u32,
    payload: &[u8],
    command: Result<Vec<u8>, ProtocolError>,
    snapshot: &SnapshotFrame,
    shown: Result<Vec<u8>, ProtocolError>,
    welcome: Welcome,
    greeting: [u8; 46],
)
    requires
        call_ensures(crate::protocol::encode_command, (sequence, payload), command),
        call_ensures(crate::protocol::encode_snapshot, (snapshot,), shown),
        call_ensures(crate::protocol::encode_welcome, (welcome,), greeting),
    ensures
        forall|bytes: &[u8], read: Result<CommandFrame, ProtocolError>| #[trigger]
            call_ensures(crate::protocol::decode_command, (bytes,), read) && command is Ok && bytes@
                == command->Ok_0@ ==> (read matches Ok(frame) && frame.sequence == sequence
                && frame.payload@ == payload@),
        forall|bytes: &[u8], read: Result<SnapshotFrame, ProtocolError>| #[trigger]
            call_ensures(crate::protocol::decode_snapshot, (bytes,), read) && shown is Ok && bytes@
                == shown->Ok_0@ ==> (read matches Ok(frame) && frame.tick == snapshot.tick
                && frame.state_hash == snapshot.state_hash && frame.payload@ == snapshot.payload@),
        forall|bytes: &[u8], read: Result<Welcome, ProtocolError>| #[trigger]
            call_ensures(crate::protocol::decode_welcome, (bytes,), read) && bytes@ == greeting@
                ==> (read matches Ok(told) && told.player_id == welcome.player_id && told.tick_hz
                == welcome.tick_hz && told.max_players == welcome.max_players && told.current_tick
                == welcome.current_tick && told.connection_epoch == welcome.connection_epoch
                && told.reconnect_token@ == welcome.reconnect_token@ && told.reconnect_grace_ticks
                == welcome.reconnect_grace_ticks),
{
    if command is Ok {
        crate::protocol::law_command_round_trip(sequence, payload@);
    }
    if shown is Ok {
        crate::protocol::law_snapshot_round_trip(
            snapshot.tick,
            snapshot.state_hash,
            snapshot.payload@,
        );
    }
    crate::protocol::law_welcome_round_trip(welcome);
}

/// What is framed is read back: control requests and answers.
pub proof fn law_control_calls_round_trip(
    payload: &[u8],
    accepted: bool,
    request: Result<Vec<u8>, ControlWireError>,
    answer: Result<Vec<u8>, ControlWireError>,
)
    requires
        call_ensures(crate::control::encode_control_request, (payload,), request),
        call_ensures(crate::control::encode_control_response, (accepted, payload), answer),
    ensures
        request is Ok <==> payload@.len() <= 4096,
        answer is Ok <==> payload@.len() <= 4096,
        forall|bytes: &[u8], read: Result<ControlRequest, ControlWireError>| #[trigger]
            call_ensures(crate::control::decode_control_request, (bytes,), read) && request is Ok
                && bytes@ == request->Ok_0@ ==> (read matches Ok(told) && told.payload@
                == payload@),
        forall|bytes: &[u8], read: Result<ControlResponse, ControlWireError>| #[trigger]
            call_ensures(crate::control::decode_control_response, (bytes,), read) && answer is Ok
                && bytes@ == answer->Ok_0@ ==> (read matches Ok(told) && told.payload@ == payload@
                && told.accepted == accepted),
{
    if payload@.len() <= 4096 {
        crate::control::law_request_and_answer_are_distinct(payload@, accepted);
        crate::control::law_control_round_trip(1, payload@);
        crate::control::law_control_round_trip(
            crate::control::response_kind(accepted),
            payload@,
        );
    }
}

/// What is written is read back: histories in the order of their ticks, and images around them.
pub proof fn law_storage_calls_round_trip(
    log: &ReplayLog,
    written: Result<Vec<u8>, ReplayError>,
    image: &RecoveryImage,
    saved: Result<Vec<u8>, RecoveryError>,
)
    requires
        call_ensures(ReplayLog::encode, (log,), written),
        call_ensures(RecoveryImage::encode, (image,), saved),
        crate::replay::in_tick_order(log@),
        crate::replay::in_tick_order(image@.records),
    ensures
        forall|bytes: &[u8], read: Result<ReplayLog, ReplayError>| #[trigger]
            call_ensures(ReplayLog::decode, (bytes,), read) && written is Ok && bytes@
                == written->Ok_0@ ==> (read matches Ok(again) && again@ == log@),
        forall|bytes: &[u8], read: Result<RecoveryImage, RecoveryError>| #[trigger]
            call_ensures(RecoveryImage::decode, (bytes,), read) && saved is Ok && bytes@
                == saved->Ok_0@ ==> (read matches Ok(again) && again@ == image@),
{
    if written is Ok {
        crate::replay::law_log_round_trip(log@);
    }
    if saved is Ok {
        crate::recovery::law_image_round_trip(image@);
        assert forall|bytes: &[u8], read: Result<RecoveryImage, RecoveryError>| #[trigger]
            call_ensures(RecoveryImage::decode, (bytes,), read) && bytes@
                == saved->Ok_0@ implies (read matches Ok(again) && again@ == image@) by {
            if let Ok(again) = read {
                crate::history::law_image_is_judged(again@);
                crate::history::law_records_are_judged(again@.records);
                assert(again@.bytes() == image@.bytes());
            } else {
                assert(crate::recovery::unreadable(image@.bytes(), read->Err_0));
            }
        }
    }
}

/// What is framed is read back: what an outside game is asked, and what it answers.
pub proof fn law_outside_calls_round_trip(
    request: &ExternalSimulationRequest,
    asked: Result<Vec<u8>, ExternalSimulationError>,
    operation: ExternalSimulationOperation,
    response: &ExternalSimulationResponse,
    answered: Result<Vec<u8>, ExternalSimulationError>,
)
    requires
        call_ensures(
            crate::external_simulation::encode_external_simulation_request,
            (request,),
            asked,
        ),
        call_ensures(
            crate::external_simulation::encode_external_simulation_response,
            (operation, response),
            answered,
        ),
    ensures
        forall|bytes: &[u8], read: Result<ExternalSimulationRequest, ExternalSimulationError>|
         #[trigger]
            call_ensures(
                crate::external_simulation::decode_external_simulation_request,
                (bytes,),
                read,
            ) && asked is Ok && bytes@ == asked->Ok_0@ ==> (read matches Ok(again) && again@
                == request@),
        forall|
            bytes: &[u8],
            read: Result<
                (ExternalSimulationOperation, ExternalSimulationResponse),
                ExternalSimulationError,
            >,
        | #[trigger]
            call_ensures(
                crate::external_simulation::decode_external_simulation_response,
                (bytes,),
                read,
            ) && answered is Ok && bytes@ == answered->Ok_0@ ==> (read matches Ok(again) && again.0
                == operation && again.1@ == response@),
{
    if asked is Ok {
        assert forall|bytes: &[u8], read: Result<ExternalSimulationRequest, ExternalSimulationError>|
         #[trigger]
            call_ensures(
                crate::external_simulation::decode_external_simulation_request,
                (bytes,),
                read,
            ) && bytes@ == asked->Ok_0@ implies (read matches Ok(again) && again@
            == request@) by {
            crate::external_simulation::law_request_round_trip(request@, request@);
            if let Ok(again) = read {
                crate::external_simulation::law_request_round_trip(request@, again@);
            }
        }
    }
    if answered is Ok {
        assert forall|
            bytes: &[u8],
            read: Result<
                (ExternalSimulationOperation, ExternalSimulationResponse),
                ExternalSimulationError,
            >,
        | #[trigger]
            call_ensures(
                crate::external_simulation::decode_external_simulation_response,
                (bytes,),
                read,
            ) && bytes@ == answered->Ok_0@ implies (read matches Ok(again) && again.0 == operation
            && again.1@ == response@) by {
            crate::external_simulation::law_response_round_trip(
                operation,
                response@,
                operation,
                response@,
            );
            if let Ok(again) = read {
                crate::external_simulation::law_response_round_trip(
                    operation,
                    response@,
                    again.0,
                    again.1@,
                );
            }
        }
    }
}

/// The names that a bundle's parts have: what is being written, each image, and what stands beside.
pub proof fn law_stored_names(
    file_name: &str,
    suffix: &str,
    id: &MatchId,
    temporary: String,
    image: String,
    sibling: String,
)
    requires
        call_ensures(crate::recovery::recovery_temp_name, (Some(file_name),), temporary),
        call_ensures(crate::host_recovery::recovery_file_name, (id,), image),
        call_ensures(crate::host_recovery::sibling_name, (file_name, suffix), sibling),
    ensures
        temporary@ == "."@ + file_name@ + ".tmp"@,
        image@ == id@ + ".recovery"@,
        sibling@ == file_name@ + suffix@,
{
}

/// A manifest is read exactly where it is no longer than a mebibyte.
pub proof fn law_manifest_sizes_are_judged(
    length: u64,
    result: Result<(), MatchHostRecoveryError>,
)
    requires
        call_ensures(crate::host_recovery::validate_manifest_size, (length,), result),
    ensures
        result is Ok <==> length <= 1024 * 1024,
        result matches Err(error) ==> error is Manifest,
{
}

/// The names of hosted matches are taken exactly where there are some and each is fit, in the order
/// in which commas separate them.
pub proof fn law_match_lists_are_read(value: &str, result: Result<Vec<MatchId>, String>)
    requires
        call_ensures(crate::settings::parse_hosted_match_ids, (value,), result),
    ensures
        ({
            let names = crate::text::parts(value@, ',');
            &&& result is Ok ==> value@.len() > 0 && result->Ok_0@.len() == names.len()
            &&& result matches Ok(ids) ==> forall|i: int|
                0 <= i < names.len() ==> (#[trigger] ids@[i])@ == names[i]
                    && crate::host::match_id_fault(names[i]) is None
            &&& value@.len() == 0 ==> result is Err
            &&& value@.len() > 0 && result is Err ==> exists|i: int|
                0 <= i < names.len() && crate::host::match_id_fault(#[trigger] names[i]) is Some
        }),
{
    let names = crate::text::parts(value@, ',');
    if let Ok(ids) = result {
        let views = crate::host_recovery::id_views(ids@);
        assert forall|i: int| 0 <= i < names.len() implies (#[trigger] ids@[i])@ == names[i]
            && crate::host::match_id_fault(names[i]) is None by {
            assert(views[i] == ids@[i]@);
        }
    } else if value@.len() > 0 {
        let (index, error) = choose|index: int, error: crate::host::MatchIdError| #[trigger]
            crate::settings::first_bad_name(names, index, error) && result->Err_0@
                == error.message();
        assert(crate::host::match_id_fault(names[index]) is Some);
    }
}

/// A listener begins to serve with an ear for shutdown requests, and listens exactly while it
/// serves and they can come.
pub proof fn law_listeners_begin(
    state: crate::transport::ServeState,
    any: crate::transport::ServeState,
    listens: bool,
)
    ensures
        call_ensures(crate::transport::ServeState::started, (), state) ==> state.phase is Serving
            && state.shutdown_open,
        call_ensures(crate::transport::ServeState::listens_for_shutdown, (any,), listens) ==> (
        listens <==> any.phase is Serving && any.shutdown_open),
{
}

/// What is told of a whole host is counted from its matches.
pub proof fn law_host_status_is_counted<S: GameSimulation>(host: &MatchHost<S>, status: HostStatus)
    requires
        host@.valid(),
        call_ensures(MatchHost::<S>::status, (host,), status),
    ensures
        status.draining == host@.draining,
        status.hosted_matches == host@.entries.len(),
        status.max_matches == host@.max_matches,
        crate::host::total_active(host@.entries) <= usize::MAX ==> status.active_players
            == crate::host::total_active(host@.entries),
        crate::host::total_occupied(host@.entries) <= usize::MAX ==> status.occupied_player_slots
            == crate::host::total_occupied(host@.entries),
        crate::host::total_capacity(host@.entries) <= usize::MAX ==> status.player_capacity
            == crate::host::total_capacity(host@.entries),
{
}

/// What happens to a connection and to a match that is served goes by what each event and each tick
/// comes to.
pub proof fn law_connection_calls<S: GameSimulation>()
    ensures
        forall|
            target: &mut MatchRuntime<S>,
            drains: bool,
            admission: crate::connection::AdmissionRequest,
            token: ReconnectToken,
            result: Result<SessionLease, RuntimeError>,
        | #[trigger]
            call_ensures(
                crate::connection::admit_connection::<S>,
                (target, drains, admission, token),
                result,
            ) && target@.valid() ==> crate::connection::lets_in(
                target@,
                drains,
                admission,
                token,
                final(target)@,
                result,
            ),
        forall|
            target: &mut MatchRuntime<S>,
            admission: crate::connection::AdmissionRequest,
            lease: SessionLease,
            result: Result<(), String>,
        | #[trigger]
            call_ensures(
                crate::connection::rollback_failed_welcome::<S>,
                (target, admission, lease),
                result,
            ) && target@.valid() ==> crate::connection::rolls_back(
                target@,
                admission,
                lease,
                final(target)@,
                result,
            ),
        forall|
            target: &mut MatchRuntime<S>,
            lease: SessionLease,
            size: usize,
            event: crate::connection::ConnectionEvent,
            action: crate::connection::ConnectionAction,
        | #[trigger]
            call_ensures(crate::connection::respond::<S>, (target, lease, size, event), action)
                && target@.valid() ==> crate::connection::responds(
                target@,
                lease,
                size,
                event,
                final(target)@,
                action,
            ),
        forall|
            target: &mut MatchRuntime<S>,
            wanted: bool,
            result: Result<Option<RecoveryImage>, String>,
        | #[trigger]
            call_ensures(crate::transport::freeze_and_image::<S>, (target, wanted), result)
                && target@.valid() ==> crate::transport::freezes(
                target@,
                wanted,
                final(target)@,
                result,
            ),
        forall|target: &mut MatchRuntime<S>, outcome: crate::transport::TickOutcome| #[trigger]
            call_ensures(crate::transport::publish_tick::<S>, (target,), outcome)
                && target@.valid() ==> ticked_to(target@, final(target)@, outcome),
{
    assert forall|target: &mut MatchRuntime<S>, outcome: crate::transport::TickOutcome| #[trigger]
        call_ensures(crate::transport::publish_tick::<S>, (target,), outcome)
            && target@.valid() implies ticked_to(target@, final(target)@, outcome) by {
        let result = choose|result: Result<SimulationSnapshot, RuntimeError>| #[trigger]
            crate::runtime::ticks(target@, final(target)@, result)
                && crate::transport::tick_leads_to(final(target)@, result, outcome);
        assert(crate::runtime::ticks(target@, final(target)@, result));
    }
}

/// Whether one tick of a match may lead to `outcome`.
pub open spec fn ticked_to<S: GameSimulation>(
    pre: RuntimeView<S>,
    post: RuntimeView<S>,
    outcome: crate::transport::TickOutcome,
) -> bool {
    exists|result: Result<SimulationSnapshot, RuntimeError>| #[trigger]
        crate::runtime::ticks(pre, post, result) && crate::transport::tick_leads_to(
            post,
            result,
            outcome,
        )
}

/// A match is found under its name exactly where it is hosted, and what is told of it is told of
/// that match.
pub proof fn law_matches_are_found<S: GameSimulation>(
    host: &MatchHost<S>,
    id: &MatchId,
    status: Option<crate::host::MatchStatus>,
)
    requires
        host@.valid(),
        call_ensures(MatchHost::<S>::match_status, (host, id), status),
    ensures
        status is Some <==> crate::hosting::hosted(host@, id@),
        status matches Some(told) ==> exists|i: int|
            0 <= i < host@.entries.len() && (#[trigger] host@.entries[i]).id == id@ && told.tells(
                host@.entries[i],
            ),
{
    if let Some(told) = status {
        let i = choose|i: int| #[trigger]
            host@.is_at(id@, i) && told.tells(host@.entries[i]);
        assert(host@.entries[i].id == id@ && told.tells(host@.entries[i]));
    }
    if crate::hosting::hosted(host@, id@) {
        let i = choose|i: int|
            0 <= i < host@.entries.len() && (#[trigger] host@.entries[i]).id == id@;
        assert(host@.is_at(id@, i));
        assert(host@.hosts(id@));
    }
}

/// The drain of one match drains that match, and every other stays as it was.
pub proof fn law_match_drain_reaches_one_match<S: GameSimulation>()
    ensures
        forall|target: &mut MatchHost<S>, id: &MatchId, result: Result<(), HostError>| #[trigger]
            call_ensures(MatchHost::<S>::begin_match_drain, (target, id), result)
                && target@.valid() ==> {
                &&& final(target)@.draining == target@.draining
                &&& final(target)@.entries.len() == target@.entries.len()
                &&& result is Ok <==> crate::hosting::hosted(target@, id@)
                &&& forall|i: int|
                    0 <= i < target@.entries.len() ==> {
                        let entry = #[trigger] final(target)@.entries[i];
                        let before = target@.entries[i];
                        &&& entry.id == before.id
                        &&& crate::passage::same_but_flags(before.runtime, entry.runtime)
                        &&& entry.runtime.frozen == before.runtime.frozen
                        &&& entry.runtime.draining == (before.runtime.draining || before.id == id@)
                    }
            },
{
    assert forall|target: &mut MatchHost<S>, id: &MatchId, result: Result<(), HostError>| #[trigger]
        call_ensures(MatchHost::<S>::begin_match_drain, (target, id), result)
            && target@.valid() implies {
        &&& final(target)@.draining == target@.draining
        &&& final(target)@.entries.len() == target@.entries.len()
        &&& result is Ok <==> crate::hosting::hosted(target@, id@)
        &&& forall|i: int|
            0 <= i < target@.entries.len() ==> {
                let entry = #[trigger] final(target)@.entries[i];
                let before = target@.entries[i];
                &&& entry.id == before.id
                &&& crate::passage::same_but_flags(before.runtime, entry.runtime)
                &&& entry.runtime.frozen == before.runtime.frozen
                &&& entry.runtime.draining == (before.runtime.draining || before.id == id@)
            }
    } by {
        if result is Ok {
            let index = choose|index: int| #[trigger]
                target@.is_at(id@, index) && final(target)@ == (HostView {
                    entries: target@.entries.update(
                        index,
                        EntryView {
                            id: id@,
                            runtime: RuntimeView {
                                draining: true,
                                ..target@.entries[index].runtime
                            },
                        },
                    ),
                    ..target@
                });
            assert(target@.entries[index].id == id@);
            assert forall|i: int| 0 <= i < target@.entries.len() && i != index implies (
            #[trigger] target@.entries[i]).id != id@ by {
                if target@.entries[i].id == id@ {
                    assert(target@.is_at(id@, i));
                    crate::host::law_names_are_unique(target@, id@, i, index);
                }
            }
        } else {
            assert forall|i: int| 0 <= i < target@.entries.len() implies (
            #[trigger] target@.entries[i]).id != id@ by {
                if target@.entries[i].id == id@ {
                    assert(target@.is_at(id@, i));
                    assert(target@.hosts(id@));
                }
            }
        }
    }
}

} // verus!
