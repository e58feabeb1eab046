//! What each operation of a match does to it, told by the fields that a reader of a match sees: who
//! may ask, what changes, what stays, and what is recorded.

use crate::protocol::{PlayerId, MAX_COMMAND_PAYLOAD_BYTES};
use crate::recovery::ImageView;
use crate::replay::RecordView;
use crate::runtime::{CommandOutcome, RuntimeError, RuntimeView};
use crate::session::{ReconnectToken, SessionLease};
use crate::simulation::{GameSimulation, SimulationError, SimulationSnapshot, SnapshotView};
use vstd::prelude::*;

verus! {

/// Whether a match has the same slots, sequences, history and flags as before.
pub open spec fn nothing_but_the_game<S: GameSimulation>(
    pre: RuntimeView<S>,
    post: RuntimeView<S>,
) -> bool {
    &&& post.sessions == pre.sessions
    &&& post.last_sequences == pre.last_sequences
    &&& post.replay == pre.replay
    &&& post.draining == pre.draining
    &&& post.frozen == pre.frozen
}

/// Whether a match kept its flags, and its history grew by one record where it keeps one.
pub open spec fn one_more_record<S: GameSimulation>(
    pre: RuntimeView<S>,
    record: RecordView,
    post: RuntimeView<S>,
) -> bool {
    &&& post.draining == pre.draining
    &&& post.frozen == pre.frozen
    &&& post.replay is Some <==> pre.replay is Some
    &&& pre.replay is Some ==> {
        &&& post.replay->0.len() == pre.replay->0.len() + 1
        &&& post.replay->0.last() == record
        &&& forall|i: int|
            0 <= i < pre.replay->0.len() ==> #[trigger] post.replay->0[i] == pre.replay->0[i]
    }
}

/// A drain leaves commands alone: the same command meets the same verdict before and after it
/// begins.
pub proof fn law_drain_spares_commands<S: GameSimulation>(
    a: RuntimeView<S>,
    b: RuntimeView<S>,
    player_id: PlayerId,
    epoch: u32,
    sequence: u32,
    payload: Seq<u8>,
)
    requires
        a.sessions == b.sessions,
        a.last_sequences == b.last_sequences,
        a.frozen == b.frozen,
    ensures
        a.command_verdict(player_id, epoch, sequence, payload) == b.command_verdict(
            player_id,
            epoch,
            sequence,
            payload,
        ),
{
}

/// A command reaches the game exactly where the match is not frozen, its connection is the slot's
/// present one, its sequence is new and its payload is not too long; and else the reason that is
/// named is true.
pub proof fn law_commands_are_judged<S: GameSimulation>(
    pre: RuntimeView<S>,
    player_id: PlayerId,
    epoch: u32,
    sequence: u32,
    payload: Seq<u8>,
    post: RuntimeView<S>,
    result: Result<CommandOutcome, RuntimeError>,
)
    requires
        crate::runtime::submits(pre, player_id, epoch, sequence, payload, post, result),
    ensures
        ({
            let present = pre.sessions.players.contains_key(player_id)
                && pre.sessions.players[player_id].connected
                && pre.sessions.players[player_id].connection_epoch == epoch;
            let new = sequence > pre.last_sequences[player_id];
            let reaches = !pre.frozen && sequence > 0 && present && new && payload.len()
                <= MAX_COMMAND_PAYLOAD_BYTES;
            &&& pre.frozen ==> result == Err::<CommandOutcome, _>(RuntimeError::Frozen)
            &&& !pre.frozen && sequence == 0 ==> result == Err::<CommandOutcome, _>(
                RuntimeError::InvalidSequence,
            )
            &&& !pre.frozen && sequence > 0 && !present ==> result == Err::<CommandOutcome, _>(
                RuntimeError::StaleConnection,
            )
            &&& !pre.frozen && sequence > 0 && present && !new ==> result == Ok::<_, RuntimeError>(
                CommandOutcome::IgnoredStale,
            )
            &&& !pre.frozen && sequence > 0 && present && new && !reaches ==> result == Err::<
                CommandOutcome,
                _,
            >(
                RuntimeError::CommandPayloadTooLarge {
                    maximum: MAX_COMMAND_PAYLOAD_BYTES,
                    actual: payload.len() as usize,
                },
            )
            &&& !reaches ==> post == pre
            &&& reaches ==> match result {
                Ok(outcome) => outcome == CommandOutcome::Applied,
                Err(RuntimeError::Simulation(_)) => true,
                Err(_) => false,
            }
        }),
{
}

/// A command that reaches the game is the game's to take or to refuse. One that it takes raises its
/// player's sequence to its own and is recorded as it came; one that it refuses leaves everything
/// but the game as it was.
pub proof fn law_commands_take_effect<S: GameSimulation>(
    pre: RuntimeView<S>,
    player_id: PlayerId,
    epoch: u32,
    sequence: u32,
    payload: Seq<u8>,
    post: RuntimeView<S>,
    result: Result<CommandOutcome, RuntimeError>,
)
    requires
        crate::runtime::submits(pre, player_id, epoch, sequence, payload, post, result),
    ensures
        result == Ok::<_, RuntimeError>(CommandOutcome::Applied) ==> {
            &&& S::commanded(
                pre.simulation,
                player_id,
                sequence,
                payload,
                post.simulation,
                Ok::<(), SimulationError>(()),
            )
            &&& post.sessions == pre.sessions
            &&& post.last_sequences.dom() == pre.last_sequences.dom().insert(player_id)
            &&& post.last_sequences[player_id] == sequence
            &&& forall|other: PlayerId|
                other != player_id && #[trigger] pre.last_sequences.contains_key(other)
                    ==> post.last_sequences[other] == pre.last_sequences[other]
            &&& one_more_record(
                pre,
                RecordView::CommandApplied {
                    tick: post.simulation.tick(),
                    player_id,
                    sequence,
                    payload,
                },
                post,
            )
        },
        result matches Err(RuntimeError::Simulation(refusal)) ==> {
            &&& S::commanded(
                pre.simulation,
                player_id,
                sequence,
                payload,
                post.simulation,
                Err::<(), SimulationError>(refusal),
            )
            &&& nothing_but_the_game(pre, post)
        },
{
    if result == Ok::<_, RuntimeError>(CommandOutcome::Applied) {
        assert(post.last_sequences.dom() =~= pre.last_sequences.dom().insert(player_id));
    }
}

/// A new connection reaches the game exactly where the match neither is frozen nor drains, a slot
/// and an identity are free, and its token reclaims no slot.
pub proof fn law_admissions_are_judged<S: GameSimulation>(
    pre: RuntimeView<S>,
    token: ReconnectToken,
    post: RuntimeView<S>,
    result: Result<SessionLease, RuntimeError>,
)
    requires
        crate::runtime::admits(pre, token, post, result),
    ensures
        ({
            let free = pre.sessions.players.dom().len() < pre.sessions.max_players
                && pre.sessions.next_player_id < u32::MAX;
            let fresh = forall|id: PlayerId| #[trigger]
                pre.sessions.players.contains_key(id) ==> pre.sessions.players[id].token != token;
            let reaches = !pre.frozen && !pre.draining && free && fresh;
            &&& pre.frozen ==> result == Err::<SessionLease, _>(RuntimeError::Frozen)
            &&& !pre.frozen && pre.draining ==> result == Err::<SessionLease, _>(
                RuntimeError::Draining,
            )
            &&& !pre.frozen && !pre.draining && !reaches ==> (result matches Err(
                RuntimeError::Session(_),
            ))
            &&& !reaches ==> post == pre
            &&& reaches ==> match result {
                Ok(_) => true,
                Err(RuntimeError::Simulation(_)) => true,
                Err(_) => false,
            }
        }),
{
    crate::session::law_admission_is_judged(pre.sessions, token);
}

/// A connection that is admitted gets the next identity in its first epoch, its token, and the
/// match's grace period; the game is told, the player has sent nothing yet, and the admission is
/// recorded. An identity that the game refuses is used up, and nothing else is.
pub proof fn law_admissions_take_effect<S: GameSimulation>(
    pre: RuntimeView<S>,
    token: ReconnectToken,
    post: RuntimeView<S>,
    result: Result<SessionLease, RuntimeError>,
)
    requires
        pre.valid(),
        crate::runtime::admits(pre, token, post, result),
    ensures
        ({
            let id = pre.sessions.next_player_id;
            &&& result matches Ok(lease) ==> {
                &&& S::added(
                    pre.simulation,
                    id,
                    post.simulation,
                    Ok::<(), SimulationError>(()),
                )
                &&& lease.player_id == id
                &&& lease.connection_epoch == 1
                &&& lease.reconnect_token == token
                &&& lease.reconnect_grace_ticks == pre.sessions.reconnect_grace_ticks
                &&& post.sessions.players.contains_key(id)
                &&& post.sessions.players[id].token == token
                &&& post.sessions.players[id].connection_epoch == 1
                &&& post.sessions.players[id].connected
                &&& post.sessions.next_player_id == id + 1
                &&& post.sessions.max_players == pre.sessions.max_players
                &&& post.sessions.reconnect_grace_ticks == pre.sessions.reconnect_grace_ticks
                &&& forall|other: PlayerId|
                    other != id ==> (#[trigger] post.sessions.players.contains_key(other)
                        <==> pre.sessions.players.contains_key(other))
                &&& forall|other: PlayerId|
                    other != id && #[trigger] pre.sessions.players.contains_key(other)
                        ==> post.sessions.players[other] == pre.sessions.players[other]
                &&& post.last_sequences.contains_key(id) && post.last_sequences[id] == 0
                &&& forall|other: PlayerId|
                    other != id && #[trigger] pre.last_sequences.contains_key(other)
                        ==> post.last_sequences.contains_key(other) && post.last_sequences[other]
                        == pre.last_sequences[other]
                &&& one_more_record(
                    pre,
                    RecordView::PlayerAdmitted { tick: post.simulation.tick(), player_id: id },
                    post,
                )
            }
            &&& result matches Err(RuntimeError::Simulation(refusal)) ==> {
                &&& S::added(
                    pre.simulation,
                    id,
                    post.simulation,
                    Err::<(), SimulationError>(refusal),
                )
                &&& post.sessions.players == pre.sessions.players
                &&& post.sessions.next_player_id == id + 1
                &&& post.sessions.max_players == pre.sessions.max_players
                &&& post.sessions.reconnect_grace_ticks == pre.sessions.reconnect_grace_ticks
                &&& post.last_sequences == pre.last_sequences
                &&& post.replay == pre.replay
                &&& post.draining == pre.draining
                &&& post.frozen == pre.frozen
            }
        }),
{
    let id = pre.sessions.next_player_id;
    if result is Ok {
        crate::session::law_admission_is_judged(pre.sessions, token);
        crate::session::law_admission_fills_one_slot(pre.sessions, token);
    } else if result->Err_0 is Simulation {
        crate::session::law_admission_is_judged(pre.sessions, token);
        assert(!pre.sessions.players.contains_key(id));
        assert(pre.sessions.admitted(token).without(id).players =~= pre.sessions.players);
    }
}

/// A player comes back exactly where the match is not frozen, its slot waits with its grace period
/// not over at the game's tick, an epoch is left, and the replacement reclaims no slot. Whether the
/// match drains does not matter.
pub proof fn law_returns_are_judged<S: GameSimulation>(
    pre: RuntimeView<S>,
    id: PlayerId,
    replacement: ReconnectToken,
    post: RuntimeView<S>,
    result: Result<SessionLease, RuntimeError>,
)
    requires
        pre.valid(),
        pre.sessions.players.contains_key(id),
        crate::runtime::reconnects(
            pre,
            pre.sessions.players[id].token,
            replacement,
            post,
            result,
        ),
    ensures
        ({
            let slot = pre.sessions.players[id];
            let fresh = forall|other: PlayerId| #[trigger]
                pre.sessions.players.contains_key(other) ==> pre.sessions.players[other].token
                    != replacement;
            &&& result is Ok <==> !pre.frozen && fresh && !slot.connected && pre.simulation.tick()
                <= slot.expires_at_tick && slot.connection_epoch < u32::MAX
            &&& pre.frozen ==> result == Err::<SessionLease, _>(RuntimeError::Frozen)
            &&& !pre.frozen && result is Err ==> (result matches Err(RuntimeError::Session(_)))
            &&& result is Err ==> post == pre
        }),
{
    crate::session::law_return_is_judged(
        pre.sessions,
        id,
        replacement,
        pre.simulation.tick(),
    );
}

/// A player who comes back has the same identity and the next epoch under the new token; the game,
/// the sequences, the history and every other slot stay as they were.
pub proof fn law_returns_take_effect<S: GameSimulation>(
    pre: RuntimeView<S>,
    id: PlayerId,
    replacement: ReconnectToken,
    post: RuntimeView<S>,
    lease: SessionLease,
)
    requires
        pre.valid(),
        pre.sessions.players.contains_key(id),
        crate::runtime::reconnects(
            pre,
            pre.sessions.players[id].token,
            replacement,
            post,
            Ok::<SessionLease, RuntimeError>(lease),
        ),
    ensures
        lease.player_id == id,
        lease.connection_epoch == pre.sessions.players[id].connection_epoch + 1,
        lease.reconnect_token == replacement,
        lease.reconnect_grace_ticks == pre.sessions.reconnect_grace_ticks,
        post.simulation == pre.simulation,
        post.last_sequences == pre.last_sequences,
        post.replay == pre.replay,
        post.draining == pre.draining,
        post.frozen == pre.frozen,
        post.sessions.next_player_id == pre.sessions.next_player_id,
        post.sessions.max_players == pre.sessions.max_players,
        post.sessions.reconnect_grace_ticks == pre.sessions.reconnect_grace_ticks,
        post.sessions.players.dom() == pre.sessions.players.dom(),
        post.sessions.players[id].connected,
        post.sessions.players[id].token == replacement,
        post.sessions.players[id].connection_epoch == lease.connection_epoch,
        forall|other: PlayerId|
            other != id && #[trigger] pre.sessions.players.contains_key(other)
                ==> post.sessions.players[other] == pre.sessions.players[other],
{
    crate::session::law_return_is_judged(
        pre.sessions,
        id,
        replacement,
        pre.simulation.tick(),
    );
    crate::session::law_return_changes_one_slot(pre.sessions, id, replacement);
}

/// A connection ends exactly where the match is not frozen and it is its slot's present one; the
/// slot then waits, from the game's tick on, for the match's grace period, under its token and
/// epoch, and nothing else changes.
pub proof fn law_disconnects_take_effect<S: GameSimulation>(
    pre: RuntimeView<S>,
    id: PlayerId,
    epoch: u32,
    post: RuntimeView<S>,
    ended: bool,
)
    requires
        crate::runtime::disconnects(pre, id, epoch, post, ended),
    ensures
        ended <==> !pre.frozen && pre.sessions.players.contains_key(id)
            && pre.sessions.players[id].connected && pre.sessions.players[id].connection_epoch
            == epoch,
        !ended ==> post == pre,
        ended ==> {
            let deadline = pre.simulation.tick() + pre.sessions.reconnect_grace_ticks;
            &&& post.simulation == pre.simulation
            &&& post.last_sequences == pre.last_sequences
            &&& post.replay == pre.replay
            &&& post.draining == pre.draining
            &&& post.frozen == pre.frozen
            &&& post.sessions.next_player_id == pre.sessions.next_player_id
            &&& post.sessions.max_players == pre.sessions.max_players
            &&& post.sessions.reconnect_grace_ticks == pre.sessions.reconnect_grace_ticks
            &&& post.sessions.players.dom() == pre.sessions.players.dom()
            &&& !post.sessions.players[id].connected
            &&& post.sessions.players[id].token == pre.sessions.players[id].token
            &&& post.sessions.players[id].connection_epoch == epoch
            &&& post.sessions.players[id].expires_at_tick == if deadline <= u64::MAX {
                deadline
            } else {
                u64::MAX as int
            }
            &&& forall|other: PlayerId|
                other != id && #[trigger] pre.sessions.players.contains_key(other)
                    ==> post.sessions.players[other] == pre.sessions.players[other]
        },
{
    if ended {
        crate::session::law_lost_connection_keeps_the_slot(
            pre.sessions,
            id,
            pre.simulation.tick(),
        );
    }
}

/// An admission is taken back exactly where the match is not frozen, the connection is its slot's
/// present one and the game lets the player go: then the slot and the sequence are gone and the
/// removal is recorded. Else nothing but the game may have changed.
pub proof fn law_aborts_take_effect<S: GameSimulation>(
    pre: RuntimeView<S>,
    id: PlayerId,
    epoch: u32,
    post: RuntimeView<S>,
    result: Result<bool, RuntimeError>,
)
    requires
        crate::runtime::aborts(pre, id, epoch, post, result),
    ensures
        ({
            let may = !pre.frozen && pre.sessions.players.contains_key(id)
                && pre.sessions.players[id].connected
                && pre.sessions.players[id].connection_epoch == epoch;
            &&& !may ==> result == Ok::<bool, RuntimeError>(false) && post == pre
            &&& may ==> match result {
                Ok(removed) => {
                    &&& S::removed(
                        pre.simulation,
                        id,
                        post.simulation,
                        Ok::<bool, SimulationError>(removed),
                    )
                    &&& !removed ==> nothing_but_the_game(pre, post)
                    &&& removed ==> leaves_for_good(pre, id, post) && one_more_record(
                        pre,
                        RecordView::PlayerRemoved { tick: post.simulation.tick(), player_id: id },
                        post,
                    )
                },
                Err(RuntimeError::Simulation(refusal)) => S::removed(
                    pre.simulation,
                    id,
                    post.simulation,
                    Err::<bool, SimulationError>(refusal),
                ) && nothing_but_the_game(pre, post),
                Err(_) => false,
            }
        }),
{
}

/// Whether one player, and nobody else, has left the slots and the sequences.
pub open spec fn leaves_for_good<S: GameSimulation>(
    pre: RuntimeView<S>,
    id: PlayerId,
    post: RuntimeView<S>,
) -> bool {
    &&& !post.sessions.players.contains_key(id)
    &&& !post.last_sequences.contains_key(id)
    &&& post.sessions.next_player_id == pre.sessions.next_player_id
    &&& post.sessions.max_players == pre.sessions.max_players
    &&& post.sessions.reconnect_grace_ticks == pre.sessions.reconnect_grace_ticks
    &&& forall|other: PlayerId|
        other != id ==> (#[trigger] post.sessions.players.contains_key(other)
            <==> pre.sessions.players.contains_key(other))
    &&& forall|other: PlayerId|
        other != id && #[trigger] pre.sessions.players.contains_key(other)
            ==> post.sessions.players[other] == pre.sessions.players[other]
    &&& forall|other: PlayerId|
        other != id ==> (#[trigger] post.last_sequences.contains_key(other)
            <==> pre.last_sequences.contains_key(other))
    &&& forall|other: PlayerId|
        other != id && #[trigger] pre.last_sequences.contains_key(other)
            ==> post.last_sequences[other] == pre.last_sequences[other]
}

/// Whether `ids` lists, in ascending order, exactly the slots whose grace period is over at the
/// game's tick.
pub open spec fn lists_the_expired<S: GameSimulation>(
    pre: RuntimeView<S>,
    ids: Seq<PlayerId>,
) -> bool {
    &&& forall|i: int, j: int| 0 <= i < j < ids.len() ==> ids[i] < ids[j]
    &&& forall|id: PlayerId| #[trigger]
        ids.contains(id) <==> pre.sessions.players.contains_key(id)
            && !pre.sessions.players[id].connected && pre.simulation.tick()
            > pre.sessions.players[id].expires_at_tick
}

proof fn lemma_expired_are_listed<S: GameSimulation>(pre: RuntimeView<S>)
    requires
        pre.valid(),
    ensures
        lists_the_expired(pre, pre.expired()),
{
    let tick = pre.simulation.tick();
    let lapsed = pre.sessions.lapsed_ids(tick);
    crate::ordered::lemma_in_order_lists(lapsed);
    assert forall|id: PlayerId| #[trigger] pre.expired().contains(id)
        <==> pre.sessions.players.contains_key(id) && !pre.sessions.players[id].connected && tick
        > pre.sessions.players[id].expires_at_tick by {
        crate::session::law_waiting_slots_lapse(pre.sessions, id, tick);
        assert(pre.expired().to_set().contains(id) == lapsed.contains(id));
    }
}

/// Whether exactly the listed players have left between two states, each departure recorded at
/// `tick` in the order of the list.
pub open spec fn swept<S: GameSimulation>(
    pre: RuntimeView<S>,
    ids: Seq<PlayerId>,
    tick: u64,
    post: RuntimeView<S>,
) -> bool {
    &&& post.draining == pre.draining
    &&& post.frozen == pre.frozen
    &&& post.sessions.next_player_id == pre.sessions.next_player_id
    &&& post.sessions.max_players == pre.sessions.max_players
    &&& post.sessions.reconnect_grace_ticks == pre.sessions.reconnect_grace_ticks
    &&& forall|id: PlayerId| #[trigger]
        post.sessions.players.contains_key(id) <==> pre.sessions.players.contains_key(id)
            && !ids.contains(id)
    &&& forall|id: PlayerId| #[trigger]
        post.sessions.players.contains_key(id) ==> post.sessions.players[id]
            == pre.sessions.players[id]
    &&& forall|id: PlayerId| #[trigger]
        post.last_sequences.contains_key(id) <==> pre.last_sequences.contains_key(id)
            && !ids.contains(id)
    &&& forall|id: PlayerId| #[trigger]
        post.last_sequences.contains_key(id) ==> post.last_sequences[id] == pre.last_sequences[id]
    &&& post.replay is Some <==> pre.replay is Some
    &&& pre.replay is Some ==> {
        let before = pre.replay->0;
        let after = post.replay->0;
        &&& after.len() == before.len() + ids.len()
        &&& forall|i: int| 0 <= i < before.len() ==> #[trigger] after[i] == before[i]
        &&& forall|i: int|
            0 <= i < ids.len() ==> after[before.len() + i] == (RecordView::PlayerRemoved {
                tick,
                player_id: #[trigger] ids[i],
            })
    }
}

proof fn lemma_sweeps_are_swept<S: GameSimulation>(
    pre: RuntimeView<S>,
    ids: Seq<PlayerId>,
    tick: u64,
    post: RuntimeView<S>,
)
    requires
        crate::runtime::sweeps(pre, ids, tick, post),
    ensures
        swept(pre, ids, tick, post),
    decreases ids.len(),
{
    if ids.len() > 0 {
        let earlier = ids.drop_last();
        let last = ids.last();
        let middle = choose|middle: RuntimeView<S>|
            crate::runtime::sweeps(pre, earlier, tick, middle) && #[trigger] crate::runtime::leaves(
                middle,
                last,
                tick,
                post,
            );
        lemma_sweeps_are_swept(pre, earlier, tick, middle);
        assert forall|id: PlayerId| #[trigger] ids.contains(id) <==> earlier.contains(id) || id
            == last by {
            crate::session::lemma_push_contains(earlier, last, id);
            assert(earlier.push(last) =~= ids);
        }
        if pre.replay is Some {
            let before = pre.replay->0;
            let after = post.replay->0;
            assert forall|i: int| 0 <= i < ids.len() implies after[before.len() + i] == (
            RecordView::PlayerRemoved { tick, player_id: #[trigger] ids[i] }) by {
                if i < earlier.len() {
                    assert(ids[i] == earlier[i]);
                }
            }
        }
    }
}

/// A tick that succeeds takes out exactly the players whose grace period is over, in ascending
/// order and each recorded, moves the game, and records the snapshot that it returns. A frozen
/// match does not tick.
pub proof fn law_ticks_take_effect<S: GameSimulation>(
    pre: RuntimeView<S>,
    post: RuntimeView<S>,
    result: Result<SimulationSnapshot, RuntimeError>,
)
    requires
        pre.valid(),
        crate::runtime::ticks(pre, post, result),
    ensures
        pre.frozen ==> post == pre && result == Err::<SimulationSnapshot, _>(RuntimeError::Frozen),
        !pre.frozen && result is Err ==> (result matches Err(RuntimeError::Simulation(_))),
        result matches Ok(snapshot) ==> exists|ids: Seq<PlayerId>, middle: RuntimeView<S>|
            #![trigger lists_the_expired(pre, ids), swept(pre, ids, pre.simulation.tick(), middle)]
            {
                &&& lists_the_expired(pre, ids)
                &&& swept(pre, ids, pre.simulation.tick(), middle)
                &&& S::advanced(
                    middle.simulation,
                    post.simulation,
                    Ok::<(), SimulationError>(()),
                )
                &&& crate::simulation::snapshots(post.simulation, Ok(snapshot))
                &&& post.sessions == middle.sessions
                &&& post.last_sequences == middle.last_sequences
                &&& one_more_record(middle, RecordView::Checkpoint { snapshot: snapshot@ }, post)
            },
        result is Err && !pre.frozen ==> exists|
            ids: Seq<PlayerId>,
            gone: Seq<PlayerId>,
            middle: RuntimeView<S>,
        |
            #![trigger lists_the_expired(pre, ids), swept(pre, gone, pre.simulation.tick(), middle)]
            {
                &&& lists_the_expired(pre, ids)
                &&& gone.len() <= ids.len()
                &&& gone == ids.take(gone.len() as int)
                &&& swept(pre, gone, pre.simulation.tick(), middle)
                &&& nothing_but_the_game(middle, post)
                &&& gone.len() < ids.len() ==> S::removed(
                    middle.simulation,
                    ids[gone.len() as int],
                    post.simulation,
                    Err::<bool, SimulationError>(result->Err_0->Simulation_0),
                )
                &&& gone.len() == ids.len() ==> S::advanced(
                    middle.simulation,
                    post.simulation,
                    Err::<(), SimulationError>(result->Err_0->Simulation_0),
                ) || (S::advanced(
                    middle.simulation,
                    post.simulation,
                    Ok::<(), SimulationError>(()),
                ) && crate::simulation::snapshots(
                    post.simulation,
                    Err(result->Err_0->Simulation_0),
                ))
            },
{
    if !pre.frozen {
        let ids = pre.expired();
        let now = pre.simulation.tick();
        lemma_expired_are_listed(pre);
        if exists|middle: RuntimeView<S>|
            crate::runtime::sweeps(pre, ids, now, middle) && #[trigger] crate::runtime::moves_ahead(
                middle,
                post,
                result,
            ) {
            let middle = choose|middle: RuntimeView<S>|
                crate::runtime::sweeps(pre, ids, now, middle)
                    && #[trigger] crate::runtime::moves_ahead(middle, post, result);
            lemma_sweeps_are_swept(pre, ids, now, middle);
            assert(ids.take(ids.len() as int) =~= ids);
            assert(lists_the_expired(pre, ids) && swept(pre, ids, now, middle));
        } else {
            let (count, refusal) = choose|count: int, refusal: SimulationError| #[trigger]
                crate::runtime::sweep_fails(pre, ids, count, now, post, refusal) && result == Err::<
                    SimulationSnapshot,
                    RuntimeError,
                >(RuntimeError::Simulation(refusal));
            let gone = ids.take(count);
            let middle = choose|middle: RuntimeView<S>|
                crate::runtime::sweeps(pre, gone, now, middle) && #[trigger] S::removed(
                    middle.simulation,
                    ids[count],
                    post.simulation,
                    Err(refusal),
                ) && post == middle.with_game(post.simulation);
            lemma_sweeps_are_swept(pre, gone, now, middle);
            assert(lists_the_expired(pre, ids) && swept(pre, gone, now, middle));
        }
    }
}

/// What a match leaves behind tells its tick, its grace period and the next identity, every slot in
/// ascending order of identity with all that its player needs to come back, and its whole history,
/// which ends with a checkpoint of the snapshot; nothing is left out or made up.
pub proof fn law_images_tell_the_match<S: GameSimulation>(
    runtime: RuntimeView<S>,
    snapshot: SnapshotView,
    image: ImageView,
)
    requires
        runtime.valid(),
        crate::runtime::leaves_behind(runtime, snapshot, image),
    ensures
        image.current_tick == snapshot.tick,
        image.reconnect_grace_ticks == runtime.sessions.reconnect_grace_ticks,
        image.next_player_id == runtime.sessions.next_player_id,
        image.sessions.len() == runtime.sessions.players.dom().len(),
        forall|i: int, j: int|
            0 <= i < j < image.sessions.len() ==> (#[trigger] image.sessions[i]).player_id < (
            #[trigger] image.sessions[j]).player_id,
        forall|id: PlayerId| #[trigger]
            runtime.sessions.players.contains_key(id) ==> exists|i: int|
                0 <= i < image.sessions.len() && (#[trigger] image.sessions[i]).player_id == id,
        forall|i: int|
            0 <= i < image.sessions.len() ==> {
                let slot = runtime.sessions.players[(#[trigger] image.sessions[i]).player_id];
                &&& runtime.sessions.players.contains_key(image.sessions[i].player_id)
                &&& image.sessions[i].reconnect_token == slot.token
                &&& image.sessions[i].connection_epoch == slot.connection_epoch
                &&& slot.connected ==> image.sessions[i].remaining_grace_ticks
                    == runtime.sessions.reconnect_grace_ticks
                &&& !slot.connected && snapshot.tick <= slot.expires_at_tick ==> snapshot.tick
                    + image.sessions[i].remaining_grace_ticks == slot.expires_at_tick
                &&& !slot.connected && snapshot.tick > slot.expires_at_tick
                    ==> image.sessions[i].remaining_grace_ticks == 0
            },
        image.records.len() > 0,
        image.records.last() == (RecordView::Checkpoint { snapshot }),
        forall|i: int|
            0 <= i < runtime.replay->0.len() ==> #[trigger] image.records[i]
                == runtime.replay->0[i],
        image.records.len() <= runtime.replay->0.len() + 1,
        image.records.len() >= runtime.replay->0.len(),
        image.records.len() == runtime.replay->0.len() ==> runtime.replay->0.last() == (
        RecordView::Checkpoint { snapshot }),
{
    let ids = crate::session::player_ids(image.sessions);
    assert forall|i: int, j: int| 0 <= i < j < image.sessions.len() implies (
    #[trigger] image.sessions[i]).player_id < (#[trigger] image.sessions[j]).player_id by {
        assert(ids[i] < ids[j]);
    }
    assert forall|id: PlayerId| #[trigger] runtime.sessions.players.contains_key(id) implies exists|
        i: int,
    |
        0 <= i < image.sessions.len() && (#[trigger] image.sessions[i]).player_id == id by {
        assert(runtime.sessions.players.dom().contains(id));
        assert(ids.contains(id));
        let i = choose|i: int| 0 <= i < ids.len() && ids[i] == id;
        assert(image.sessions[i].player_id == id);
    }
    assert forall|i: int| 0 <= i < image.sessions.len() implies {
        let slot = runtime.sessions.players[(#[trigger] image.sessions[i]).player_id];
        &&& runtime.sessions.players.contains_key(image.sessions[i].player_id)
        &&& image.sessions[i].reconnect_token == slot.token
        &&& image.sessions[i].connection_epoch == slot.connection_epoch
        &&& slot.connected ==> image.sessions[i].remaining_grace_ticks
            == runtime.sessions.reconnect_grace_ticks
        &&& !slot.connected && snapshot.tick <= slot.expires_at_tick ==> snapshot.tick
            + image.sessions[i].remaining_grace_ticks == slot.expires_at_tick
        &&& !slot.connected && snapshot.tick > slot.expires_at_tick
            ==> image.sessions[i].remaining_grace_ticks == 0
    } by {
        assert(ids[i] == image.sessions[i].player_id);
        assert(ids.contains(ids[i]));
        assert(runtime.sessions.players.dom().contains(ids[i]));
        crate::session::law_saved_slot_tells_the_slot(
            runtime.sessions,
            image.sessions[i].player_id,
            snapshot.tick,
        );
    }
}

/// A match that an image brings back runs, neither frozen nor draining, around the game; it has the
/// image's history, grace period and next identity, and the image's slots wait in it with what was
/// left of their grace periods.
pub proof fn law_restored_match_tells_the_image<S: GameSimulation>(
    fresh: S,
    image: ImageView,
    runtime: RuntimeView<S>,
)
    requires
        crate::runtime::restores(fresh, image, runtime),
    ensures
        !runtime.frozen,
        !runtime.draining,
        runtime.replay == Some(image.records),
        runtime.simulation.tick() == image.current_tick,
        runtime.sessions.max_players == fresh.capacity(),
        runtime.sessions.reconnect_grace_ticks == image.reconnect_grace_ticks,
        runtime.sessions.next_player_id == image.next_player_id,
        crate::replay::reaches(fresh, image.records, runtime.simulation),
        image.records.len() > 0,
        image.records.last() is Checkpoint,
        image.records.last()->snapshot.tick == image.current_tick,
        forall|i: int|
            0 <= i < image.sessions.len() ==> {
                let id = (#[trigger] image.sessions[i]).player_id;
                let slot = runtime.sessions.players[id];
                let deadline = image.current_tick + image.sessions[i].remaining_grace_ticks;
                &&& runtime.sessions.players.contains_key(id)
                &&& slot.token == image.sessions[i].reconnect_token
                &&& slot.connection_epoch == image.sessions[i].connection_epoch
                &&& !slot.connected
                &&& slot.expires_at_tick == if deadline <= u64::MAX {
                    deadline
                } else {
                    u64::MAX as int
                }
                &&& runtime.last_sequences.contains_key(id)
            },
        forall|id: PlayerId| #[trigger]
            runtime.sessions.players.contains_key(id) ==> exists|i: int|
                0 <= i < image.sessions.len() && (#[trigger] image.sessions[i]).player_id == id,
{
    crate::session::law_saved_slots_are_judged(
        fresh.capacity(),
        image.reconnect_grace_ticks,
        image.next_player_id,
        image.sessions,
    );
    crate::session::law_restored_slots_tell_the_saved_ones(image.sessions, image.current_tick);
    let ids = crate::session::player_ids(image.sessions);
    assert forall|i: int| 0 <= i < image.sessions.len() implies runtime.last_sequences.contains_key(
        (#[trigger] image.sessions[i]).player_id,
    ) by {
        assert(ids[i] == image.sessions[i].player_id);
        assert(ids.contains(ids[i]));
    }
}

/// A match is asked for its image in vain exactly where it is not frozen, keeps no history, its
/// game shows no snapshot, or the image has no binary form.
pub proof fn law_images_are_owed<S: GameSimulation>(
    runtime: RuntimeView<S>,
    result: Result<crate::recovery::RecoveryImage, crate::runtime::RuntimeRecoveryError>,
)
    requires
        crate::runtime::images(runtime, result),
    ensures
        !runtime.frozen ==> result == Err::<crate::recovery::RecoveryImage, _>(
            crate::runtime::RuntimeRecoveryError::RuntimeNotFrozen,
        ),
        runtime.frozen && runtime.replay is None ==> result == Err::<
            crate::recovery::RecoveryImage,
            _,
        >(crate::runtime::RuntimeRecoveryError::ReplayCaptureDisabled),
        result is Ok ==> runtime.frozen && runtime.replay is Some,
        result matches Ok(image) ==> exists|snapshot: SimulationSnapshot| #[trigger]
            crate::simulation::snapshots(runtime.simulation, Ok(snapshot))
                && crate::runtime::leaves_behind(runtime, snapshot@, image@),
        runtime.frozen && runtime.replay is Some && result is Err ==> {
            ||| exists|refusal: SimulationError| #[trigger]
                crate::simulation::snapshots(runtime.simulation, Err(refusal))
            ||| exists|snapshot: SimulationSnapshot, image: ImageView|
                #![trigger crate::simulation::snapshots(runtime.simulation, Ok(snapshot)), crate::runtime::leaves_behind(runtime, snapshot@, image)]
                crate::simulation::snapshots(runtime.simulation, Ok(snapshot))
                    && crate::runtime::leaves_behind(runtime, snapshot@, image)
                    && image.refusal() is Some
        },
{
}

/// A match is owed back wherever its image has a binary form, its history leads a fresh game to the
/// image's tick on a checkpoint, and its slots fit: then it comes back.
pub proof fn law_restore_is_owed<S: GameSimulation>(fresh: S, image: ImageView, state: S)
    requires
        image.refusal() is None,
        crate::replay::reaches(fresh, image.records, state),
        state.tick() == image.current_tick,
        image.records.len() > 0,
        image.records.last() is Checkpoint,
        image.records.last()->snapshot.tick == image.current_tick,
        crate::session::restore_refusal(
            fresh.capacity(),
            image.reconnect_grace_ticks,
            image.next_player_id,
            image.sessions,
        ) is None,
    ensures
        exists|runtime: RuntimeView<S>| #[trigger]
            crate::runtime::restores(fresh, image, runtime) && runtime.simulation == state,
{
    let runtime = crate::runtime::brought_back(fresh.capacity(), image, state);
    assert(crate::runtime::restores(fresh, image, runtime));
}

/// A match that does not come back has an image without a binary form, a history that the game does
/// not follow or that does not arrive, or slots that do not fit; and the error tells which.
pub proof fn law_failed_restore_has_a_reason<S: GameSimulation>(
    fresh: S,
    image: ImageView,
    error: crate::recovery::RecoveryError,
)
    requires
        crate::runtime::restore_fails(fresh, image, error),
    ensures
        image.refusal() is Some ==> image.refusal() == Some(error),
        image.refusal() is None ==> {
            ||| exists|cause: crate::replay::ReplayError| #[trigger]
                crate::replay::fails(fresh, image.records, cause) && error
                    == crate::recovery::interpreter_error(cause)
            ||| exists|state: S| #[trigger]
                crate::replay::reaches(fresh, image.records, state) && (state.tick()
                    != image.current_tick || !(image.records.last() is Checkpoint)
                    || image.records.last()->snapshot.tick != image.current_tick) && (
                error is ReplayTickMismatch || error is MissingFinalCheckpoint)
            ||| crate::session::restore_refusal(
                fresh.capacity(),
                image.reconnect_grace_ticks,
                image.next_player_id,
                image.sessions,
            ) matches Some(cause) && error == crate::recovery::RecoveryError::Session(cause)
        },
{
    crate::history::law_image_is_judged(image);
}

} // verus!
