//! What holds of a match over its whole life: its authority over the game, and the worth of the
//! history that it captures.

use crate::external_simulation::{ExternalSimulationAdapter, ExternalSimulationBridge};
use crate::protocol::PlayerId;
use crate::recovery::ImageView;
use crate::replay::{RecordView, ReplayError};
use crate::runtime::{CommandOutcome, RuntimeError, RuntimeView};
use crate::session::{ReconnectToken, SessionLease};
use crate::simulation::{GameSimulation, SimulationError, SimulationSnapshot};
use vstd::prelude::*;

verus! {

/// A frozen match never changes, whatever is asked of it.
pub proof fn law_frozen_match_never_changes<S: GameSimulation>(
    pre: RuntimeView<S>,
    post: RuntimeView<S>,
)
    requires
        pre.frozen,
    ensures
        forall|token: ReconnectToken, result: Result<SessionLease, RuntimeError>| #[trigger]
            crate::runtime::admits(pre, token, post, result) ==> post == pre && result == Err::<
                SessionLease,
                RuntimeError,
            >(RuntimeError::Frozen),
        forall|
            previous: ReconnectToken,
            replacement: ReconnectToken,
            result: Result<SessionLease, RuntimeError>,
        | #[trigger]
            crate::runtime::reconnects(pre, previous, replacement, post, result) ==> post == pre
                && result == Err::<SessionLease, RuntimeError>(RuntimeError::Frozen),
        forall|player_id: PlayerId, epoch: u32, ended: bool| #[trigger]
            crate::runtime::disconnects(pre, player_id, epoch, post, ended) ==> post == pre
                && !ended,
        forall|player_id: PlayerId, epoch: u32, result: Result<bool, RuntimeError>| #[trigger]
            crate::runtime::aborts(pre, player_id, epoch, post, result) ==> post == pre && result
                == Ok::<bool, RuntimeError>(false),
        forall|
            player_id: PlayerId,
            epoch: u32,
            sequence: u32,
            payload: Seq<u8>,
            result: Result<CommandOutcome, RuntimeError>,
        | #[trigger]
            crate::runtime::submits(pre, player_id, epoch, sequence, payload, post, result) ==> post
                == pre && result == Err::<CommandOutcome, RuntimeError>(RuntimeError::Frozen),
        forall|result: Result<SimulationSnapshot, RuntimeError>| #[trigger]
            crate::runtime::ticks(pre, post, result) ==> post == pre && result == Err::<
                SimulationSnapshot,
                RuntimeError,
            >(RuntimeError::Frozen),
{
}

/// Freezing a match that neither drains nor is frozen, and resuming it, loses nothing.
pub proof fn law_resume_undoes_freeze<S: GameSimulation>(runtime: RuntimeView<S>)
    requires
        !runtime.draining,
        !runtime.frozen,
    ensures
        ({
            let frozen = RuntimeView { draining: true, frozen: true, ..runtime };
            RuntimeView { draining: false, frozen: false, ..frozen } == runtime
        }),
{
}

/// A draining match turns new connections away and treats returning ones as before.
pub proof fn law_drain_spares_reconnects<S: GameSimulation>(
    runtime: RuntimeView<S>,
    token: ReconnectToken,
    replacement: ReconnectToken,
)
    requires
        !runtime.frozen,
    ensures
        ({
            let draining = RuntimeView { draining: true, ..runtime };
            &&& draining.admission_refusal(token) == Some(RuntimeError::Draining)
            &&& draining.reconnect_refusal(token, replacement) == runtime.reconnect_refusal(
                token,
                replacement,
            )
        }),
{
}

/// A connection that is not its slot's present one moves nothing: its commands are refused, it
/// cannot end the slot's connection, and it cannot take back an admission.
pub proof fn law_stale_connection_moves_nothing<S: GameSimulation>(
    pre: RuntimeView<S>,
    player_id: PlayerId,
    epoch: u32,
    post: RuntimeView<S>,
)
    requires
        !pre.sessions.owns(player_id, epoch),
    ensures
        forall|sequence: u32, payload: Seq<u8>, result: Result<CommandOutcome, RuntimeError>|
         #[trigger]
            crate::runtime::submits(pre, player_id, epoch, sequence, payload, post, result) ==> post
                == pre && result is Err && (!pre.frozen && sequence != 0 ==> result == Err::<
                CommandOutcome,
                RuntimeError,
            >(RuntimeError::StaleConnection)),
        forall|ended: bool| #[trigger]
            crate::runtime::disconnects(pre, player_id, epoch, post, ended) ==> post == pre
                && !ended,
        forall|result: Result<bool, RuntimeError>| #[trigger]
            crate::runtime::aborts(pre, player_id, epoch, post, result) ==> post == pre && result
                == Ok::<bool, RuntimeError>(false),
{
}

/// An applied command raises its player's sequence and nobody else's, and the same command again
/// comes too late.
pub proof fn law_sequences_rise<S: GameSimulation>(
    pre: RuntimeView<S>,
    player_id: PlayerId,
    epoch: u32,
    sequence: u32,
    payload: Seq<u8>,
    post: RuntimeView<S>,
)
    requires
        pre.valid(),
        crate::runtime::submits(
            pre,
            player_id,
            epoch,
            sequence,
            payload,
            post,
            Ok::<CommandOutcome, RuntimeError>(CommandOutcome::Applied),
        ),
    ensures
        pre.last_sequences[player_id] < sequence,
        post.last_sequences == pre.last_sequences.insert(player_id, sequence),
        forall|again: Seq<u8>| #[trigger]
            post.command_verdict(player_id, epoch, sequence, again) == Some(
                Ok::<CommandOutcome, RuntimeError>(CommandOutcome::IgnoredStale),
            ),
{
}

/// A command that comes too late is ignored whatever it carries, and changes nothing.
pub proof fn law_late_command_is_ignored<S: GameSimulation>(
    pre: RuntimeView<S>,
    player_id: PlayerId,
    epoch: u32,
    sequence: u32,
    payload: Seq<u8>,
    post: RuntimeView<S>,
    result: Result<CommandOutcome, RuntimeError>,
)
    requires
        pre.valid(),
        !pre.frozen,
        pre.sessions.owns(player_id, epoch),
        0 < sequence <= pre.last_sequences[player_id],
        crate::runtime::submits(pre, player_id, epoch, sequence, payload, post, result),
    ensures
        post == pre,
        result == Ok::<CommandOutcome, RuntimeError>(CommandOutcome::IgnoredStale),
{
}

/// Players who leave are struck from the slots and the sequences; everybody else stays.
proof fn lemma_sweep_keeps_the_rest<S: GameSimulation>(
    pre: RuntimeView<S>,
    ids: Seq<PlayerId>,
    tick: u64,
    post: RuntimeView<S>,
)
    requires
        crate::runtime::sweeps(pre, ids, tick, post),
    ensures
        forall|id: PlayerId|
            !ids.contains(id) && #[trigger] pre.sessions.players.contains_key(id)
                ==> post.sessions.players.contains_key(id) && post.sessions.players[id]
                == pre.sessions.players[id],
        forall|id: PlayerId|
            !ids.contains(id) && #[trigger] pre.last_sequences.contains_key(id)
                ==> post.last_sequences.contains_key(id) && post.last_sequences[id]
                == pre.last_sequences[id],
        post.sessions.next_player_id == pre.sessions.next_player_id,
        post.draining == pre.draining,
        post.frozen == pre.frozen,
    decreases ids.len(),
{
    if ids.len() > 0 {
        let earlier = ids.drop_last();
        let middle = choose|middle: RuntimeView<S>|
            crate::runtime::sweeps(pre, earlier, tick, middle) && #[trigger] crate::runtime::leaves(
                middle,
                ids.last(),
                tick,
                post,
            );
        lemma_sweep_keeps_the_rest(pre, earlier, tick, middle);
        assert forall|id: PlayerId| !ids.contains(id) implies !earlier.contains(id) && id
            != ids.last() by {
            if earlier.contains(id) {
                let k = choose|k: int| 0 <= k < earlier.len() && earlier[k] == id;
                assert(ids[k] == id);
            }
            assert(ids[ids.len() - 1] == ids.last());
        }
    }
}

/// When the game refuses to let an expired player leave, the player's slot and sequence stay.
pub proof fn law_refused_removal_keeps_the_slot<S: GameSimulation>(
    pre: RuntimeView<S>,
    count: int,
    post: RuntimeView<S>,
    refusal: SimulationError,
)
    requires
        pre.valid(),
        crate::runtime::sweep_fails(
            pre,
            pre.expired(),
            count,
            pre.simulation.tick(),
            post,
            refusal,
        ),
    ensures
        ({
            let id = pre.expired()[count];
            &&& post.sessions.players.contains_key(id)
            &&& post.sessions.players[id] == pre.sessions.players[id]
            &&& post.last_sequences.contains_key(id)
            &&& post.last_sequences[id] == pre.last_sequences[id]
        }),
{
    let ids = pre.expired();
    let id = ids[count];
    let tick = pre.simulation.tick();
    crate::ordered::lemma_in_order_lists(pre.sessions.lapsed_ids(tick));
    let middle = choose|middle: RuntimeView<S>|
        crate::runtime::sweeps(pre, ids.take(count), tick, middle) && #[trigger] S::removed(
            middle.simulation,
            ids[count],
            post.simulation,
            Err(refusal),
        ) && post == middle.with_game(post.simulation);
    lemma_sweep_keeps_the_rest(pre, ids.take(count), tick, middle);
    assert(ids.contains(id));
    assert(pre.sessions.lapsed_ids(tick).contains(id));
    assert(pre.sessions.players.contains_key(id));
    assert(pre.last_sequences.dom().contains(id));
    assert(!ids.take(count).contains(id)) by {
        if ids.take(count).contains(id) {
            let k = choose|k: int| 0 <= k < count && ids.take(count)[k] == id;
            assert(ids[k] < ids[count]);
        }
    }
}

/// Whether an exchange over a bridge may report that a player left, or was not there.
spec fn may_report_departure<B: ExternalSimulationBridge>(bridge: B, id: PlayerId) -> bool {
    exists|removed: bool| #[trigger]
        crate::external_simulation::reports_removal(bridge, id, Ok::<_, SimulationError>(removed))
}

/// The records of players who leave at `tick`.
pub open spec fn departures(ids: Seq<PlayerId>, tick: u64) -> Seq<RecordView> {
    ids.map_values(|player_id: PlayerId| RecordView::PlayerRemoved { tick, player_id })
}

/// Whether all that was recorded between two states of a match is that these players left.
pub open spec fn records_departures<S: GameSimulation>(
    pre: RuntimeView<S>,
    ids: Seq<PlayerId>,
    post: RuntimeView<S>,
) -> bool {
    post.replay == match pre.replay {
        Some(records) => Some(records + departures(ids, pre.simulation.tick())),
        None => None,
    }
}

/// Players of an outside game leave only where the game reports it, and nothing but their departure
/// is recorded.
proof fn lemma_sweep_over_bridge<B: ExternalSimulationBridge>(
    pre: RuntimeView<ExternalSimulationAdapter<B>>,
    ids: Seq<PlayerId>,
    tick: u64,
    post: RuntimeView<ExternalSimulationAdapter<B>>,
)
    requires
        crate::runtime::sweeps(pre, ids, tick, post),
    ensures
        post.simulation@ == pre.simulation@,
        forall|k: int|
            0 <= k < ids.len() ==> may_report_departure(pre.simulation@.bridge, #[trigger] ids[k]),
        post.replay == match pre.replay {
            Some(records) => Some(records + departures(ids, tick)),
            None => None,
        },
    decreases ids.len(),
{
    if ids.len() > 0 {
        let earlier = ids.drop_last();
        let middle = choose|middle: RuntimeView<ExternalSimulationAdapter<B>>|
            crate::runtime::sweeps(pre, earlier, tick, middle) && #[trigger] crate::runtime::leaves(
                middle,
                ids.last(),
                tick,
                post,
            );
        lemma_sweep_over_bridge(pre, earlier, tick, middle);
        assert(may_report_departure(pre.simulation@.bridge, ids.last()));
        assert forall|k: int| 0 <= k < ids.len() implies may_report_departure(
            pre.simulation@.bridge,
            #[trigger] ids[k],
        ) by {
            if k < earlier.len() {
                assert(earlier[k] == ids[k]);
            }
        }
        assert(departures(ids, tick) =~= departures(earlier, tick).push(
            RecordView::PlayerRemoved { tick, player_id: ids.last() },
        ));
        if pre.replay is Some {
            assert(post.replay->0 =~= pre.replay->0 + departures(ids, tick));
        }
    } else if pre.replay is Some {
        assert(post.replay->0 =~= pre.replay->0 + departures(ids, tick));
    }
}

/// When an outside game turns the removal of an expired player down, the tick fails, and neither the
/// player's slot nor its sequence is lost: what the tick may record is the departure of others, and
/// the game's clock stands still. Where no other player's grace period ended before, the game's own
/// words are reported and nothing is recorded.
pub proof fn law_rejected_removal_keeps_the_session<B: ExternalSimulationBridge>(
    pre: RuntimeView<ExternalSimulationAdapter<B>>,
    id: PlayerId,
    words: Seq<char>,
    post: RuntimeView<ExternalSimulationAdapter<B>>,
    result: Result<SimulationSnapshot, RuntimeError>,
)
    requires
        pre.valid(),
        !pre.frozen,
        pre.expired().contains(id),
        crate::external_simulation::rejects_removal(pre.simulation@.bridge, id, words),
        crate::runtime::ticks(pre, post, result),
    ensures
        result matches Err(RuntimeError::Simulation(_)),
        post.sessions.players.contains_key(id),
        post.sessions.players[id] == pre.sessions.players[id],
        post.last_sequences.contains_key(id),
        post.last_sequences[id] == pre.last_sequences[id],
        post.simulation@ == pre.simulation@,
        exists|others: Seq<PlayerId>| #[trigger]
            records_departures(pre, others, post) && !others.contains(id),
        pre.expired()[0] == id ==> post.replay == pre.replay && post.sessions == pre.sessions
            && result->Err_0->Simulation_0@ == "external simulation rejected operation: "@ + words,
{
    let ids = pre.expired();
    let tick = pre.simulation.tick();
    let bridge = pre.simulation@.bridge;
    crate::ordered::lemma_in_order_lists(pre.sessions.lapsed_ids(tick));
    let place = choose|k: int| 0 <= k < ids.len() && ids[k] == id;
    assert(!may_report_departure(bridge, id)) by {
        if may_report_departure(bridge, id) {
            let removed = choose|removed: bool| #[trigger]
                crate::external_simulation::reports_removal(
                    bridge,
                    id,
                    Ok::<_, SimulationError>(removed),
                );
            crate::external_simulation::law_rejected_removal_is_told(
                bridge,
                id,
                words,
                Ok(removed),
            );
        }
    }
    if exists|swept: RuntimeView<ExternalSimulationAdapter<B>>|
        crate::runtime::sweeps(pre, ids, tick, swept) && #[trigger] crate::runtime::moves_ahead(
            swept,
            post,
            result,
        ) {
        let swept = choose|swept: RuntimeView<ExternalSimulationAdapter<B>>|
            crate::runtime::sweeps(pre, ids, tick, swept) && #[trigger] crate::runtime::moves_ahead(
                swept,
                post,
                result,
            );
        lemma_sweep_over_bridge(pre, ids, tick, swept);
        assert(may_report_departure(bridge, ids[place]));
    }
    let (count, refusal) = choose|count: int, refusal: SimulationError| #[trigger]
        crate::runtime::sweep_fails(pre, ids, count, tick, post, refusal) && result == Err::<
            SimulationSnapshot,
            RuntimeError,
        >(RuntimeError::Simulation(refusal));
    let others = ids.take(count);
    let middle = choose|middle: RuntimeView<ExternalSimulationAdapter<B>>|
        crate::runtime::sweeps(pre, others, tick, middle) && #[trigger] GameSimulation::removed(
            middle.simulation,
            ids[count],
            post.simulation,
            Err(refusal),
        ) && post == middle.with_game(post.simulation);
    lemma_sweep_over_bridge(pre, others, tick, middle);
    lemma_sweep_keeps_the_rest(pre, others, tick, middle);
    assert(!others.contains(id)) by {
        if others.contains(id) {
            let k = choose|k: int| 0 <= k < count && others[k] == id;
            assert(may_report_departure(bridge, others[k]));
        }
    }
    assert(pre.sessions.lapsed_ids(tick).contains(id));
    assert(pre.sessions.players.contains_key(id));
    assert(pre.last_sequences.dom().contains(id));
    assert(records_departures(pre, others, post));
    if ids[0] == id {
        if count > 0 {
            assert(others[0] == id);
            assert(others.contains(id));
        }
        assert(others =~= Seq::empty());
        assert(middle == pre);
        crate::external_simulation::law_rejected_removal_is_told(
            bridge,
            id,
            words,
            Err(refusal),
        );
    }
}

/// When an outside game turns down the removal of a player whose admission is taken back, the game's
/// own words are reported, the slot and its sequence stay, and nothing is recorded.
pub proof fn law_rejected_abort_keeps_the_session<B: ExternalSimulationBridge>(
    pre: RuntimeView<ExternalSimulationAdapter<B>>,
    id: PlayerId,
    epoch: u32,
    words: Seq<char>,
    post: RuntimeView<ExternalSimulationAdapter<B>>,
    result: Result<bool, RuntimeError>,
)
    requires
        !pre.frozen,
        pre.sessions.owns(id, epoch),
        crate::external_simulation::rejects_removal(pre.simulation@.bridge, id, words),
        crate::runtime::aborts(pre, id, epoch, post, result),
    ensures
        result matches Err(RuntimeError::Simulation(refusal)) && refusal@ == "external simulation rejected operation: "@ + words,
        post.simulation@ == pre.simulation@,
        post == pre.with_game(post.simulation),
{
    let told: Result<bool, SimulationError> = match result {
        Ok(removed) => Ok(removed),
        Err(error) => Err(error->Simulation_0),
    };
    crate::external_simulation::law_rejected_removal_is_told(
        pre.simulation@.bridge,
        id,
        words,
        told,
    );
}

/// When an outside game turns down a removal that is replayed, the replay ends with the game's own
/// words, not with a missing player.
pub proof fn law_rejected_removal_ends_the_replay<B: ExternalSimulationBridge>(
    pre: ExternalSimulationAdapter<B>,
    tick: u64,
    id: PlayerId,
    words: Seq<char>,
    post: ExternalSimulationAdapter<B>,
    outcome: Option<ReplayError>,
)
    requires
        crate::external_simulation::rejects_removal(pre@.bridge, id, words),
        crate::replay::takes_effect(
            pre,
            RecordView::PlayerRemoved { tick, player_id: id },
            post,
            outcome,
        ),
    ensures
        outcome matches Some(ReplayError::Simulation(refusal)) && refusal@ == "external simulation rejected operation: "@ + words,
{
    let told = choose|told: Result<bool, SimulationError>| #[trigger]
        GameSimulation::removed(pre, id, post, told) && outcome == crate::replay::removal_refusal(
            id,
            told,
        );
    crate::external_simulation::law_rejected_removal_is_told(pre@.bridge, id, words, told);
}

/// Whether a game keeps the runtime's clock and roster: a refusal changes nothing that can be told,
/// only a tick moves the clock and by one, players come and go as told, and a snapshot always shows the
/// present tick.
pub open spec fn orderly<S: GameSimulation>() -> bool {
    &&& crate::simulation::likeness_is_sound::<S>()
    &&& forall|a: S, b: S, id: PlayerId| #[trigger]
        S::alike(a, b) && #[trigger] a.present(id) ==> b.present(id)
    &&& forall|pre: S, id: PlayerId, post: S, result: Result<(), SimulationError>| #[trigger]
        S::added(pre, id, post, result) ==> match result {
            Ok(_) => post.tick() == pre.tick() && forall|other: PlayerId| #[trigger]
                post.present(other) <==> pre.present(other) || other == id,
            Err(_) => S::alike(pre, post),
        }
    &&& forall|pre: S, id: PlayerId, post: S, result: Result<bool, SimulationError>| #[trigger]
        S::removed(pre, id, post, result) ==> match result {
            Ok(removed) => removed == pre.present(id) && post.tick() == pre.tick() && forall|
                other: PlayerId,
            | #[trigger]
                post.present(other) <==> pre.present(other) && other != id,
            Err(_) => S::alike(pre, post),
        }
    &&& forall|
        pre: S,
        id: PlayerId,
        sequence: u32,
        payload: Seq<u8>,
        post: S,
        result: Result<(), SimulationError>,
    | #[trigger]
        S::commanded(pre, id, sequence, payload, post, result) ==> match result {
            Ok(_) => post.tick() == pre.tick() && forall|other: PlayerId| #[trigger]
                post.present(other) <==> pre.present(other),
            Err(_) => S::alike(pre, post),
        }
    &&& forall|pre: S, post: S, result: Result<(), SimulationError>| #[trigger]
        S::advanced(pre, post, result) ==> match result {
            Ok(_) => post.tick() == pre.tick() + 1 && forall|other: PlayerId| #[trigger]
                post.present(other) <==> pre.present(other),
            Err(_) => S::alike(pre, post),
        }
    &&& forall|game: S, result: Result<SimulationSnapshot, SimulationError>| #[trigger]
        crate::simulation::snapshots(game, result) ==> result is Ok && result->Ok_0.tick
            == game.tick()
}

/// Whether a runtime's history tells how its game came from `origin` to where it is, up to what cannot
/// be told apart.
pub open spec fn captured<S: GameSimulation>(origin: S, runtime: RuntimeView<S>) -> bool {
    let known = crate::replay::authority(runtime.replay->0);
    &&& runtime.valid()
    &&& runtime.replay is Some
    &&& crate::replay::retraces(origin, runtime.replay->0, runtime.simulation)
    &&& crate::replay::in_tick_order(runtime.replay->0)
    &&& known.sequences == runtime.last_sequences
    &&& known.highest_id < runtime.sessions.next_player_id
    &&& known.last_tick is Some ==> known.last_tick->0 <= runtime.simulation.tick()
    &&& forall|id: PlayerId| #[trigger]
        runtime.sessions.players.contains_key(id) ==> runtime.simulation.present(id)
    &&& forall|id: PlayerId| #[trigger]
        runtime.sessions.players.contains_key(id) && !runtime.sessions.players[id].connected
            ==> runtime.sessions.players[id].expires_at_tick
            <= runtime.simulation.tick().saturating_add(runtime.sessions.reconnect_grace_ticks)
}

/// The reference game is orderly.
pub proof fn law_demo_is_orderly()
    ensures
        orderly::<crate::world::DemoSimulation>(),
{
}

/// The history of a new match tells all there is to tell.
pub proof fn law_capture_begins<S: GameSimulation>(simulation: S, reconnect_grace_ticks: u64)
    requires
        orderly::<S>(),
    ensures
        captured(
            simulation,
            RuntimeView {
                simulation,
                sessions: crate::session::RegistryView {
                    max_players: simulation.capacity(),
                    reconnect_grace_ticks,
                    next_player_id: 1,
                    players: Map::empty(),
                },
                last_sequences: Map::empty(),
                replay: Some(Seq::empty()),
                draining: false,
                frozen: false,
            },
        ),
{
    assert(Map::<PlayerId, u32>::empty().dom() =~= Map::<
        PlayerId,
        crate::session::PlayerSession,
    >::empty().dom());
}

/// One more accepted record at the game's tick, or at the next one, keeps the order of ticks.
pub proof fn lemma_order_goes_on(records: Seq<RecordView>, record: RecordView)
    requires
        crate::replay::in_tick_order(records),
        crate::replay::authority(records).last_tick is Some
            ==> crate::replay::authority(records).last_tick->0 <= record.at(),
    ensures
        crate::replay::in_tick_order(records.push(record)),
        crate::replay::authority(records.push(record)) == crate::replay::authority(records).after(
            record,
        ),
{
    let longer = records.push(record);
    assert(longer.drop_last() =~= records);
    if records.len() > 0 {
        assert(crate::replay::authority(records).last_tick == Some(records.last().at()));
        assert forall|i: int, j: int| 0 <= i <= j < longer.len() implies longer[i].at()
            <= longer[j].at() by {
            if j == records.len() && i < j {
                assert(records[i].at() <= records[records.len() - 1].at());
            }
        }
    }
}

/// A refusal by the game keeps the history telling.
proof fn lemma_refusal_is_captured<S: GameSimulation>(
    origin: S,
    pre: RuntimeView<S>,
    post: RuntimeView<S>,
)
    requires
        orderly::<S>(),
        captured(origin, pre),
        S::alike(pre.simulation, post.simulation),
        post == pre.with_game(post.simulation),
    ensures
        captured(origin, post),
{
    crate::replay::lemma_retraces_alike(
        origin,
        pre.replay->0,
        pre.simulation,
        post.simulation,
    );
    assert forall|id: PlayerId| #[trigger] post.sessions.players.contains_key(id) implies
        post.simulation.present(id) by {
        assert(pre.sessions.players.contains_key(id));
        assert(pre.simulation.present(id));
    }
}

/// Admitting a connection keeps the history telling, whether it succeeds or not.
pub proof fn law_admission_is_captured<S: GameSimulation>(
    origin: S,
    pre: RuntimeView<S>,
    token: ReconnectToken,
    post: RuntimeView<S>,
    result: Result<SessionLease, RuntimeError>,
)
    requires
        orderly::<S>(),
        captured(origin, pre),
        post.valid(),
        crate::runtime::admits(pre, token, post, result),
    ensures
        captured(origin, post),
{
    let id = pre.sessions.next_player_id;
    let records = pre.replay->0;
    let known = crate::replay::authority(records);
    if pre.admission_refusal(token) is None && result is Ok {
        let record = RecordView::PlayerAdmitted { tick: post.simulation.tick(), player_id: id };
        let added: Result<(), SimulationError> = Ok(());
        assert(S::added(pre.simulation, id, post.simulation, added));
        assert(crate::replay::admission_effect(pre.simulation, id, post.simulation, None));
        assert(crate::replay::replays(known, pre.simulation, record, post.simulation, None));
        crate::replay::lemma_retraces_one_more(
            origin,
            records,
            pre.simulation,
            record,
            post.simulation,
        );
        lemma_order_goes_on(records, record);
        assert forall|other: PlayerId| #[trigger]
            post.sessions.players.contains_key(other) implies post.simulation.present(other) by {
            assert(other == id || pre.sessions.players.contains_key(other));
        }
        assert forall|other: PlayerId| #[trigger]
            post.sessions.players.contains_key(other)
                && !post.sessions.players[other].connected implies post.sessions.players[other].expires_at_tick
            <= post.simulation.tick().saturating_add(post.sessions.reconnect_grace_ticks) by {
            assert(pre.sessions.players.contains_key(other));
        }
    } else if pre.admission_refusal(token) is None {
        let refused = pre.with_game(post.simulation);
        lemma_refusal_is_captured(origin, pre, refused);
        assert(post.sessions.players =~= pre.sessions.players);
    }
}

/// Reconnecting keeps the history telling.
pub proof fn law_reconnect_is_captured<S: GameSimulation>(
    origin: S,
    pre: RuntimeView<S>,
    previous: ReconnectToken,
    replacement: ReconnectToken,
    post: RuntimeView<S>,
    result: Result<SessionLease, RuntimeError>,
)
    requires
        captured(origin, pre),
        post.valid(),
        crate::runtime::reconnects(pre, previous, replacement, post, result),
    ensures
        captured(origin, post),
{
    if pre.reconnect_refusal(previous, replacement) is None {
        let id = pre.sessions.owner(previous);
        assert(pre.sessions.players.contains_key(id));
        assert forall|other: PlayerId| #[trigger]
            post.sessions.players.contains_key(other) implies pre.sessions.players.contains_key(
            other,
        ) by {}
        assert forall|other: PlayerId| #[trigger]
            post.sessions.players.contains_key(other)
                && !post.sessions.players[other].connected implies post.sessions.players[other].expires_at_tick
            <= post.simulation.tick().saturating_add(post.sessions.reconnect_grace_ticks) by {
            assert(pre.sessions.players.contains_key(other));
        }
    }
}

/// Losing a connection keeps the history telling.
pub proof fn law_disconnect_is_captured<S: GameSimulation>(
    origin: S,
    pre: RuntimeView<S>,
    player_id: PlayerId,
    epoch: u32,
    post: RuntimeView<S>,
    ended: bool,
)
    requires
        captured(origin, pre),
        post.valid(),
        crate::runtime::disconnects(pre, player_id, epoch, post, ended),
    ensures
        captured(origin, post),
{
    if ended {
        assert forall|other: PlayerId| #[trigger]
            post.sessions.players.contains_key(other) implies pre.sessions.players.contains_key(
            other,
        ) by {}
        assert forall|other: PlayerId| #[trigger]
            post.sessions.players.contains_key(other)
                && !post.sessions.players[other].connected implies post.sessions.players[other].expires_at_tick
            <= post.simulation.tick().saturating_add(post.sessions.reconnect_grace_ticks) by {
            assert(pre.sessions.players.contains_key(other));
        }
    }
}

/// A player's recorded departure keeps the history telling.
proof fn lemma_departure_is_captured<S: GameSimulation>(
    origin: S,
    pre: RuntimeView<S>,
    player_id: PlayerId,
    tick: u64,
    post: RuntimeView<S>,
)
    requires
        orderly::<S>(),
        captured(origin, pre),
        pre.sessions.players.contains_key(player_id),
        tick == pre.simulation.tick(),
        S::removed(pre.simulation, player_id, post.simulation, Ok(true)),
        post == pre.with_game(post.simulation).without_player(player_id, tick),
    ensures
        captured(origin, post),
{
    let records = pre.replay->0;
    let known = crate::replay::authority(records);
    let record = RecordView::PlayerRemoved { tick, player_id };
    let removed: Result<bool, SimulationError> = Ok(true);
    assert(pre.last_sequences.dom().contains(player_id));
    assert(S::removed(pre.simulation, player_id, post.simulation, removed));
    assert(crate::replay::removal_refusal(player_id, removed) is None);
    assert(crate::replay::removal_effect(pre.simulation, player_id, post.simulation, None));
    assert(crate::replay::replays(known, pre.simulation, record, post.simulation, None));
    crate::replay::lemma_retraces_one_more(
        origin,
        records,
        pre.simulation,
        record,
        post.simulation,
    );
    lemma_order_goes_on(records, record);
    assert forall|other: PlayerId| #[trigger] post.sessions.players.contains_key(other) implies
        pre.sessions.players.contains_key(other) && other != player_id by {}
    assert forall|a: PlayerId, b: PlayerId|
        #![trigger post.sessions.players[a], post.sessions.players[b]]
        post.sessions.players.contains_key(a) && post.sessions.players.contains_key(b)
            && post.sessions.players[a].token == post.sessions.players[b].token implies a == b by {
        assert(pre.sessions.players[a].token == pre.sessions.players[b].token);
    }
    assert(post.last_sequences.dom() =~= post.sessions.players.dom());
    assert(post.valid());
}

/// Taking back an admission keeps the history telling.
pub proof fn law_abort_is_captured<S: GameSimulation>(
    origin: S,
    pre: RuntimeView<S>,
    player_id: PlayerId,
    epoch: u32,
    post: RuntimeView<S>,
    result: Result<bool, RuntimeError>,
)
    requires
        orderly::<S>(),
        captured(origin, pre),
        crate::runtime::aborts(pre, player_id, epoch, post, result),
    ensures
        captured(origin, post),
{
    if !pre.frozen && pre.sessions.owns(player_id, epoch) {
        assert(pre.simulation.present(player_id));
        match result {
            Ok(removed) => {
                assert(removed);
                lemma_departure_is_captured(
                    origin,
                    pre,
                    player_id,
                    post.simulation.tick(),
                    post,
                );
            },
            Err(_) => {
                lemma_refusal_is_captured(origin, pre, post);
            },
        }
    }
}

/// A command keeps the history telling, whether it is applied or not.
pub proof fn law_command_is_captured<S: GameSimulation>(
    origin: S,
    pre: RuntimeView<S>,
    player_id: PlayerId,
    epoch: u32,
    sequence: u32,
    payload: Seq<u8>,
    post: RuntimeView<S>,
    result: Result<CommandOutcome, RuntimeError>,
)
    requires
        orderly::<S>(),
        captured(origin, pre),
        post.valid(),
        crate::runtime::submits(pre, player_id, epoch, sequence, payload, post, result),
    ensures
        captured(origin, post),
{
    let records = pre.replay->0;
    let known = crate::replay::authority(records);
    if pre.command_verdict(player_id, epoch, sequence, payload) is None {
        if result is Ok {
            let record = RecordView::CommandApplied {
                tick: post.simulation.tick(),
                player_id,
                sequence,
                payload,
            };
            let applied: Result<(), SimulationError> = Ok(());
            assert(pre.last_sequences.dom().contains(player_id));
            assert(S::commanded(
                pre.simulation,
                player_id,
                sequence,
                payload,
                post.simulation,
                applied,
            ));
            assert(crate::replay::command_effect(
                pre.simulation,
                player_id,
                sequence,
                payload,
                post.simulation,
                None,
            ));
            assert(known.identity_fault(record) is None);
            assert(crate::replay::settles(known, pre.simulation, record, post.simulation, None));
            assert(crate::replay::replays(known, pre.simulation, record, post.simulation, None));
            crate::replay::lemma_retraces_one_more(
                origin,
                records,
                pre.simulation,
                record,
                post.simulation,
            );
            lemma_order_goes_on(records, record);
        } else {
            lemma_refusal_is_captured(origin, pre, post);
        }
    }
}

proof fn lemma_sweep_is_captured<S: GameSimulation>(
    origin: S,
    pre: RuntimeView<S>,
    ids: Seq<PlayerId>,
    tick: u64,
    post: RuntimeView<S>,
)
    requires
        orderly::<S>(),
        captured(origin, pre),
        tick == pre.simulation.tick(),
        forall|i: int, j: int| 0 <= i < j < ids.len() ==> ids[i] < ids[j],
        forall|i: int|
            0 <= i < ids.len() ==> pre.sessions.players.contains_key(#[trigger] ids[i]),
        crate::runtime::sweeps(pre, ids, tick, post),
    ensures
        captured(origin, post),
        post.simulation.tick() == tick,
    decreases ids.len(),
{
    if ids.len() > 0 {
        let earlier = ids.drop_last();
        let last = ids.last();
        let middle = choose|middle: RuntimeView<S>|
            crate::runtime::sweeps(pre, earlier, tick, middle) && #[trigger] crate::runtime::leaves(
                middle,
                last,
                tick,
                post,
            );
        assert forall|i: int| 0 <= i < earlier.len() implies pre.sessions.players.contains_key(
            #[trigger] earlier[i],
        ) by {
            assert(ids[i] == earlier[i]);
        }
        lemma_sweep_is_captured(origin, pre, earlier, tick, middle);
        lemma_sweep_keeps_the_rest(pre, earlier, tick, middle);
        assert(!earlier.contains(last)) by {
            if earlier.contains(last) {
                let k = choose|k: int| 0 <= k < earlier.len() && earlier[k] == last;
                assert(ids[k] < ids[ids.len() - 1]);
            }
        }
        assert(pre.sessions.players.contains_key(ids[ids.len() - 1]));
        assert(middle.simulation.present(last));
        let removed = choose|removed: bool| #[trigger]
            S::removed(middle.simulation, last, post.simulation, Ok(removed)) && post
                == middle.with_game(post.simulation).without_player(last, tick);
        assert(removed);
        lemma_departure_is_captured(origin, middle, last, tick, post);
    }
}

proof fn lemma_move_is_captured<S: GameSimulation>(
    origin: S,
    swept: RuntimeView<S>,
    post: RuntimeView<S>,
    result: Result<SimulationSnapshot, RuntimeError>,
)
    requires
        orderly::<S>(),
        captured(origin, swept),
        crate::runtime::moves_ahead(swept, post, result),
    ensures
        captured(origin, post),
{
    let records = swept.replay->0;
    let known = crate::replay::authority(records);
    match result {
        Ok(snapshot) => {
            let record = RecordView::Checkpoint { snapshot: snapshot@ };
            let shown: Result<SimulationSnapshot, SimulationError> = Ok(snapshot);
            let moved: Result<(), SimulationError> = Ok(());
            assert(crate::simulation::snapshots(post.simulation, shown));
            assert(crate::replay::checkpoint_refusal(snapshot@, shown) is None);
            assert(crate::replay::checkpoint_effect(post.simulation, snapshot@, None));
            assert(crate::replay::settles(
                known,
                post.simulation,
                record,
                post.simulation,
                None,
            ));
            assert(S::advanced(swept.simulation, post.simulation, moved));
            assert(crate::replay::replays(known, swept.simulation, record, post.simulation, None));
            crate::replay::lemma_retraces_one_more(
                origin,
                records,
                swept.simulation,
                record,
                post.simulation,
            );
            lemma_order_goes_on(records, record);
        },
        Err(_) => {
            lemma_refusal_is_captured(origin, swept, post);
        },
    }
}

/// A tick keeps the history telling, whether it succeeds or not.
pub proof fn law_tick_is_captured<S: GameSimulation>(
    origin: S,
    pre: RuntimeView<S>,
    post: RuntimeView<S>,
    result: Result<SimulationSnapshot, RuntimeError>,
)
    requires
        orderly::<S>(),
        captured(origin, pre),
        crate::runtime::ticks(pre, post, result),
    ensures
        captured(origin, post),
{
    if !pre.frozen {
        let ids = pre.expired();
        let now = pre.simulation.tick();
        crate::ordered::lemma_in_order_lists(pre.sessions.lapsed_ids(now));
        assert forall|i: int| 0 <= i < ids.len() implies pre.sessions.players.contains_key(
            #[trigger] ids[i],
        ) by {
            assert(ids.contains(ids[i]));
            assert(pre.sessions.lapsed_ids(now).contains(ids[i]));
        }
        if exists|swept: RuntimeView<S>|
            crate::runtime::sweeps(pre, ids, now, swept) && #[trigger] crate::runtime::moves_ahead(
                swept,
                post,
                result,
            ) {
            let swept = choose|swept: RuntimeView<S>|
                crate::runtime::sweeps(pre, ids, now, swept)
                    && #[trigger] crate::runtime::moves_ahead(swept, post, result);
            lemma_sweep_is_captured(origin, pre, ids, now, swept);
            lemma_move_is_captured(origin, swept, post, result);
        } else {
            let (count, refusal) = choose|count: int, refusal: SimulationError| #[trigger]
                crate::runtime::sweep_fails(pre, ids, count, now, post, refusal) && result == Err::<
                    SimulationSnapshot,
                    RuntimeError,
                >(RuntimeError::Simulation(refusal));
            let middle = choose|middle: RuntimeView<S>|
                crate::runtime::sweeps(pre, ids.take(count), now, middle) && #[trigger] S::removed(
                    middle.simulation,
                    ids[count],
                    post.simulation,
                    Err(refusal),
                ) && post == middle.with_game(post.simulation);
            lemma_sweep_is_captured(origin, pre, ids.take(count), now, middle);
            lemma_refusal_is_captured(origin, middle, post);
        }
    }
}

/// The history that a match captured verifies: replayed into a fresh game it is accepted record by
/// record and ends with the very snapshot that the live game shows.
pub proof fn law_captured_history_verifies<S: GameSimulation>(
    origin: S,
    runtime: RuntimeView<S>,
    fresh: S,
    result: Result<crate::replay::ReplayVerification, ReplayError>,
    shown: Result<SimulationSnapshot, SimulationError>,
)
    requires
        orderly::<S>(),
        crate::replay::deterministic::<S>(),
        captured(origin, runtime),
        S::alike(origin, fresh),
        crate::replay::verifies(fresh, runtime.replay->0, result),
        crate::simulation::snapshots(runtime.simulation, shown),
    ensures
        result is Ok,
        shown is Ok,
        result->Ok_0.final_snapshot@ == shown->Ok_0@,
        result->Ok_0.records_verified == runtime.replay->0.len(),
{
    crate::replay::law_history_is_replayed(
        origin,
        fresh,
        runtime.replay->0,
        runtime.simulation,
    );
}

/// Whether a slot waits for its player in a match: its token reclaims it under any fresh one, in the
/// next epoch, and of the commands that follow none up to the last one counts.
pub open spec fn can_be_reclaimed<S: GameSimulation>(
    runtime: RuntimeView<S>,
    id: PlayerId,
    replacement: ReconnectToken,
) -> bool {
    let token = runtime.sessions.players[id].token;
    let epoch = (runtime.sessions.players[id].connection_epoch + 1) as u32;
    let after = RuntimeView {
        sessions: runtime.sessions.reconnected(token, replacement),
        ..runtime
    };
    &&& runtime.reconnect_refusal(token, replacement) is None
    &&& runtime.sessions.owner(token) == id
    &&& after.sessions.lease(id).connection_epoch == runtime.sessions.players[id].connection_epoch
        + 1
    &&& after.sessions.owns(id, epoch)
    &&& forall|sequence: u32, payload: Seq<u8>|
        0 < sequence <= runtime.last_sequences[id] ==> #[trigger] after.command_verdict(
            id,
            epoch,
            sequence,
            payload,
        ) == Some(Ok::<CommandOutcome, RuntimeError>(CommandOutcome::IgnoredStale))
}

/// What a frozen match leaves behind brings it back: the restart cannot fail, the game stands where
/// it stood, every player's last sequence, token and epoch survive, and every slot waits for its
/// player, who can reclaim it as long as an epoch is left.
pub proof fn law_recovery_brings_the_match_back<S: GameSimulation>(
    origin: S,
    runtime: RuntimeView<S>,
    snapshot: SimulationSnapshot,
    image: ImageView,
    fresh: S,
)
    requires
        orderly::<S>(),
        crate::replay::deterministic::<S>(),
        captured(origin, runtime),
        crate::simulation::snapshots(runtime.simulation, Ok(snapshot)),
        crate::runtime::leaves_behind(runtime, snapshot@, image),
        image.refusal() is None,
        S::alike(origin, fresh),
        fresh.capacity() == runtime.sessions.max_players,
    ensures
        forall|error: crate::recovery::RecoveryError|
            !crate::runtime::restore_fails(fresh, image, error),
        forall|state: S| #[trigger]
            crate::replay::reaches(fresh, image.records, state) ==> S::alike(
                runtime.simulation,
                state,
            ),
        forall|state: S, shown: Result<SimulationSnapshot, SimulationError>|
            crate::replay::reaches(fresh, image.records, state)
                && #[trigger] crate::simulation::snapshots(state, shown) ==> (shown matches Ok(
                again,
            ) && again@ == snapshot@),
        image.sequences() == runtime.last_sequences,
        ({
            let players = crate::session::restored_players(
                image.sessions,
                image.current_tick,
                image.sessions.len(),
            );
            &&& players.dom() == runtime.sessions.players.dom()
            &&& forall|id: PlayerId| #[trigger]
                players.contains_key(id) ==> {
                    &&& players[id].token == runtime.sessions.players[id].token
                    &&& players[id].connection_epoch
                        == runtime.sessions.players[id].connection_epoch
                    &&& !players[id].connected
                    &&& !crate::session::RegistryView { players, ..runtime.sessions }.lapsed(
                        id,
                        image.current_tick,
                    )
                }
        }),
        forall|state: S, id: PlayerId, replacement: ReconnectToken|
            crate::replay::reaches(fresh, image.records, state)
                && runtime.sessions.players.contains_key(id)
                && runtime.sessions.players[id].connection_epoch < u32::MAX
                && !runtime.sessions.holds(replacement) ==> #[trigger] can_be_reclaimed(
                crate::runtime::brought_back(fresh.capacity(), image, state),
                id,
                replacement,
            ),
{
    let records = runtime.replay->0;
    let known = crate::replay::authority(records);
    let checkpoint = RecordView::Checkpoint { snapshot: snapshot@ };
    let shown: Result<SimulationSnapshot, SimulationError> = Ok(snapshot);
    assert(snapshot.tick == runtime.simulation.tick());
    if !(records.len() > 0 && records.last() == checkpoint) {
        assert(crate::simulation::snapshots(runtime.simulation, shown));
        assert(crate::replay::checkpoint_refusal(snapshot@, shown) is None);
        assert(crate::replay::checkpoint_effect(runtime.simulation, snapshot@, None));
        assert(crate::replay::settles(
            known,
            runtime.simulation,
            checkpoint,
            runtime.simulation,
            None,
        ));
        assert(crate::replay::replays(
            known,
            runtime.simulation,
            checkpoint,
            runtime.simulation,
            None,
        ));
        crate::replay::lemma_retraces_one_more(
            origin,
            records,
            runtime.simulation,
            checkpoint,
            runtime.simulation,
        );
        lemma_order_goes_on(records, checkpoint);
    }
    assert(crate::replay::retraces(origin, image.records, runtime.simulation));
    assert(crate::replay::authority(image.records).sequences == runtime.last_sequences);
    assert(image.ends_with_checkpoint());
    crate::replay::law_history_is_replayed(
        origin,
        fresh,
        image.records,
        runtime.simulation,
    );
    crate::replay::lemma_retraces_is_lawful(origin, image.records, runtime.simulation);
    crate::recovery::law_image_restores_sequences(image);
    crate::session::law_saved_slots_restore(
        runtime.sessions,
        image.sessions,
        image.current_tick,
    );
    assert forall|state: S| #[trigger] crate::replay::reaches(fresh, image.records, state) implies
        image.arrival_fault(state.tick()) is None by {
        assert(S::alike(runtime.simulation, state));
    }
    assert forall|state: S, id: PlayerId, replacement: ReconnectToken|
        crate::replay::reaches(fresh, image.records, state)
            && runtime.sessions.players.contains_key(id)
            && runtime.sessions.players[id].connection_epoch < u32::MAX
            && !runtime.sessions.holds(replacement) implies #[trigger] can_be_reclaimed(
        crate::runtime::brought_back(fresh.capacity(), image, state),
        id,
        replacement,
    ) by {
        let back = crate::runtime::brought_back(fresh.capacity(), image, state);
        assert(S::alike(runtime.simulation, state));
        assert(back.simulation.tick() == image.current_tick);
        assert(back.sessions.players.contains_key(id));
        let token = back.sessions.players[id].token;
        assert(back.sessions.holds(token));
        let owner = back.sessions.owner(token);
        assert(back.sessions.players.contains_key(owner) && back.sessions.players[owner].token
            == token);
        assert(runtime.sessions.players[owner].token == runtime.sessions.players[id].token);
        assert(owner == id);
        if back.sessions.holds(replacement) {
            let holder = back.sessions.owner(replacement);
            assert(back.sessions.players.contains_key(holder)
                && back.sessions.players[holder].token == replacement);
            assert(runtime.sessions.players.contains_key(holder));
            assert(runtime.sessions.holds(replacement));
        }
        if token == replacement {
            assert(runtime.sessions.holds(replacement));
        }
        assert(!back.sessions.lapsed(id, image.current_tick));
    }
}

} // verus!
