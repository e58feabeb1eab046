//! What a recorded history is worth: when a record may follow, what it asks of the game, who is
//! present after it, and when a match that kept one can be saved.

use crate::protocol::{PlayerId, MAX_COMMAND_PAYLOAD_BYTES, MAX_SNAPSHOT_PAYLOAD_BYTES};
use crate::recovery::{ImageView, RecoveryError, MAX_RECOVERY_IMAGE_BYTES};
use crate::replay::{Authority, RecordView, ReplayError, ReplayVerification};
use crate::runtime::RuntimeView;
use crate::simulation::{GameSimulation, SimulationError, SimulationSnapshot, SnapshotView};
use vstd::prelude::*;

verus! {

/// A game meets a checkpoint exactly where it shows the recorded hash and the recorded payload;
/// where it does not, the difference is named.
pub proof fn law_checkpoint_is_judged(checkpoint: SnapshotView, shown: SimulationSnapshot)
    ensures
        ({
            let refusal = crate::replay::checkpoint_refusal(checkpoint, Ok(shown));
            &&& refusal is None <==> shown.state_hash == checkpoint.state_hash && shown.payload@
                == checkpoint.payload
            &&& shown.state_hash != checkpoint.state_hash ==> refusal == Some(
                ReplayError::CheckpointMismatch {
                    tick: checkpoint.tick,
                    expected_hash: checkpoint.state_hash,
                    actual_hash: shown.state_hash,
                },
            )
            &&& shown.state_hash == checkpoint.state_hash && shown.payload@ != checkpoint.payload
                ==> refusal == Some(ReplayError::CheckpointPayloadMismatch(checkpoint.tick))
        }),
{
}

/// A record may come next exactly where it lies neither before the record before, nor before the
/// game, nor more than one tick ahead of it; else the reason that is named is true.
pub proof fn law_order_is_judged(known: Authority, record: RecordView, game_tick: u64)
    ensures
        ({
            let at = record.at();
            let fault = known.order_fault(record, game_tick);
            let back = known.last_tick is Some && at < known.last_tick->0;
            &&& fault is None <==> !back && (at == game_tick || at == game_tick + 1)
            &&& back ==> fault == Some(
                ReplayError::NonMonotonicTick { previous: known.last_tick->0, actual: at },
            )
            &&& !back && at < game_tick ==> fault == Some(
                ReplayError::ReplayStartsBeforeSimulation {
                    simulation_tick: game_tick,
                    record_tick: at,
                },
            )
            &&& !back && at > game_tick + 1 ==> fault == Some(
                ReplayError::TickGapTooLarge { from_tick: game_tick, to_tick: at, maximum: 1 },
            )
        }),
{
}

/// An admission needs an identity above every earlier one, a command a present player and a
/// sequence above the player's last, a removal a present player, and a checkpoint nothing.
pub proof fn law_identity_is_judged(known: Authority, record: RecordView)
    ensures
        match record {
            RecordView::PlayerAdmitted { player_id, .. } => known.identity_fault(record)
                == if player_id > known.highest_id {
                None
            } else {
                Some(
                    ReplayError::NonIncreasingPlayerId {
                        previous: known.highest_id,
                        actual: player_id,
                    },
                )
            },
            RecordView::CommandApplied { player_id, sequence, .. } => {
                let present = known.sequences.contains_key(player_id);
                let fault = known.identity_fault(record);
                &&& fault is None <==> present && sequence > known.sequences[player_id]
                &&& !present ==> fault == Some(ReplayError::UnknownCommandPlayer(player_id))
                &&& present && sequence == 0 ==> fault == Some(ReplayError::InvalidSequence)
                &&& present && 0 < sequence <= known.sequences[player_id] ==> fault == Some(
                    ReplayError::NonIncreasingSequence {
                        player_id,
                        previous: known.sequences[player_id],
                        actual: sequence,
                    },
                )
            },
            RecordView::PlayerRemoved { player_id, .. } => known.identity_fault(record)
                == if known.sequences.contains_key(player_id) {
                None
            } else {
                Some(ReplayError::MissingPlayerOnRemoval(player_id))
            },
            RecordView::Checkpoint { .. } => known.identity_fault(record) is None,
        },
{
}

/// The tick of a record is the one that it carries.
pub open spec fn carries_tick(record: RecordView, tick: u64) -> bool {
    match record {
        RecordView::PlayerAdmitted { tick: carried, .. } => carried == tick,
        RecordView::CommandApplied { tick: carried, .. } => carried == tick,
        RecordView::PlayerRemoved { tick: carried, .. } => carried == tick,
        RecordView::Checkpoint { snapshot } => snapshot.tick == tick,
    }
}

/// Whether a game may go from `pre` to `post` by doing what a record tells: the player is added,
/// commanded or removed as recorded, or the game shows what the checkpoint recorded.
pub open spec fn comes_about<S: GameSimulation>(pre: S, record: RecordView, post: S) -> bool {
    match record {
        RecordView::PlayerAdmitted { player_id, .. } => S::added(
            pre,
            player_id,
            post,
            Ok::<(), SimulationError>(()),
        ),
        RecordView::CommandApplied { player_id, sequence, payload, .. } => S::commanded(
            pre,
            player_id,
            sequence,
            payload,
            post,
            Ok::<(), SimulationError>(()),
        ),
        RecordView::PlayerRemoved { player_id, .. } => S::removed(
            pre,
            player_id,
            post,
            Ok::<bool, SimulationError>(true),
        ),
        RecordView::Checkpoint { snapshot } => post == pre && exhibits(pre, snapshot),
    }
}

/// Whether a game may show the hash and the payload of a checkpoint.
pub open spec fn exhibits<S: GameSimulation>(game: S, checkpoint: SnapshotView) -> bool {
    exists|shown: SimulationSnapshot| #[trigger]
        crate::simulation::snapshots(game, Ok(shown)) && shown.state_hash == checkpoint.state_hash
            && shown.payload@ == checkpoint.payload
}

/// Whether a game may turn down what a record tells, with `error`.
pub open spec fn turned_down<S: GameSimulation>(
    pre: S,
    record: RecordView,
    error: ReplayError,
) -> bool {
    match record {
        RecordView::PlayerAdmitted { player_id, .. } => exists|post: S, refusal: SimulationError|
         #[trigger]
            S::added(pre, player_id, post, Err(refusal)) && error == ReplayError::Simulation(
                refusal,
            ),
        RecordView::CommandApplied { player_id, sequence, payload, .. } => exists|
            post: S,
            refusal: SimulationError,
        | #[trigger]
            S::commanded(pre, player_id, sequence, payload, post, Err(refusal)) && error
                == ReplayError::Simulation(refusal),
        RecordView::PlayerRemoved { player_id, .. } => {
            ||| exists|post: S, refusal: SimulationError| #[trigger]
                S::removed(pre, player_id, post, Err(refusal)) && error == ReplayError::Simulation(
                    refusal,
                )
            ||| exists|post: S| #[trigger]
                S::removed(pre, player_id, post, Ok(false)) && error
                    == ReplayError::MissingPlayerOnRemoval(player_id)
        },
        RecordView::Checkpoint { snapshot } => {
            ||| exists|refusal: SimulationError| #[trigger]
                crate::simulation::snapshots(pre, Err(refusal)) && error == ReplayError::Simulation(
                    refusal,
                )
            ||| exists|shown: SimulationSnapshot| #[trigger]
                crate::simulation::snapshots(pre, Ok(shown)) && differs(snapshot, shown, error)
        },
    }
}

/// Whether `error` tells how what a game shows differs from a checkpoint.
pub open spec fn differs(
    checkpoint: SnapshotView,
    shown: SimulationSnapshot,
    error: ReplayError,
) -> bool {
    ||| shown.state_hash != checkpoint.state_hash && error == ReplayError::CheckpointMismatch {
        tick: checkpoint.tick,
        expected_hash: checkpoint.state_hash,
        actual_hash: shown.state_hash,
    }
    ||| shown.state_hash == checkpoint.state_hash && shown.payload@ != checkpoint.payload && error
        == ReplayError::CheckpointPayloadMismatch(checkpoint.tick)
}

/// A record that is accepted came about in the game at its own tick: one of the game's tick where
/// the game stood, one of the next tick after one advance. It went neither back nor more than one
/// tick ahead, and it kept the rules of identity and sequence.
pub proof fn law_accepted_record_came_about<S: GameSimulation>(
    known: Authority,
    pre: S,
    record: RecordView,
    post: S,
)
    requires
        crate::replay::replays(known, pre, record, post, None),
    ensures
        carries_tick(record, record.at()),
        known.last_tick is Some ==> known.last_tick->0 <= record.at(),
        record.at() == pre.tick() ==> comes_about(pre, record, post),
        record.at() != pre.tick() ==> record.at() == pre.tick() + 1 && exists|game: S| #[trigger]
            S::advanced(pre, game, Ok::<(), SimulationError>(())) && comes_about(
                game,
                record,
                post,
            ),
        match record {
            RecordView::PlayerAdmitted { player_id, .. } => player_id > known.highest_id,
            RecordView::CommandApplied { player_id, sequence, .. } =>
                known.sequences.contains_key(player_id) && sequence > known.sequences[player_id],
            RecordView::PlayerRemoved { player_id, .. } => known.sequences.contains_key(player_id),
            RecordView::Checkpoint { .. } => true,
        },
{
    if record.at() > pre.tick() {
        let (game, result) = choose|advanced: S, result: Result<(), SimulationError>| #[trigger]
            S::advanced(pre, advanced, result) && match result {
                Ok(_) => crate::replay::settles(known, advanced, record, post, None),
                Err(error) => None::<ReplayError> == Some(ReplayError::Simulation(error)),
            };
        assert(result is Ok);
        assert(result->Ok_0 == ());
        lemma_settled_record_came_about(known, game, record, post);
        assert(S::advanced(pre, game, Ok::<(), SimulationError>(())));
    } else {
        lemma_settled_record_came_about(known, pre, record, post);
    }
}

proof fn lemma_settled_record_came_about<S: GameSimulation>(
    known: Authority,
    game: S,
    record: RecordView,
    post: S,
)
    requires
        crate::replay::settles(known, game, record, post, None),
    ensures
        known.identity_fault(record) is None,
        comes_about(game, record, post),
{
    match record {
        RecordView::PlayerAdmitted { player_id, .. } => {
            let result = choose|result: Result<(), SimulationError>| #[trigger]
                S::added(game, player_id, post, result) && None::<ReplayError>
                    == crate::replay::game_refusal(result);
            assert(result is Ok);
            assert(result->Ok_0 == ());
        },
        RecordView::CommandApplied { player_id, sequence, payload, .. } => {
            let result = choose|result: Result<(), SimulationError>| #[trigger]
                S::commanded(game, player_id, sequence, payload, post, result) && None::<
                    ReplayError,
                > == crate::replay::game_refusal(result);
            assert(result is Ok);
            assert(result->Ok_0 == ());
        },
        RecordView::PlayerRemoved { player_id, .. } => {
            let result = choose|result: Result<bool, SimulationError>| #[trigger]
                S::removed(game, player_id, post, result) && None::<ReplayError>
                    == crate::replay::removal_refusal(player_id, result);
            assert(result == Ok::<bool, SimulationError>(true));
        },
        RecordView::Checkpoint { snapshot } => {
            let result = choose|result: Result<SimulationSnapshot, SimulationError>| #[trigger]
                crate::simulation::snapshots(game, result) && None::<ReplayError>
                    == crate::replay::checkpoint_refusal(snapshot, result);
            assert(crate::simulation::snapshots(game, Ok(result->Ok_0)));
        },
    }
}

/// A record of the game's own tick that keeps the rules and comes about in the game is accepted; so
/// is one of the next tick that comes about after one advance.
pub proof fn law_sound_record_is_accepted<S: GameSimulation>(
    known: Authority,
    pre: S,
    game: S,
    record: RecordView,
    post: S,
)
    requires
        record.at() == pre.tick() && game == pre || record.at() == pre.tick() + 1 && S::advanced(
            pre,
            game,
            Ok::<(), SimulationError>(()),
        ),
        known.last_tick is Some ==> known.last_tick->0 <= record.at(),
        comes_about(game, record, post),
        match record {
            RecordView::PlayerAdmitted { player_id, .. } => player_id > known.highest_id,
            RecordView::CommandApplied { player_id, sequence, .. } =>
                known.sequences.contains_key(player_id) && sequence > known.sequences[player_id],
            RecordView::PlayerRemoved { player_id, .. } => known.sequences.contains_key(player_id),
            RecordView::Checkpoint { .. } => true,
        },
    ensures
        crate::replay::replays(known, pre, record, post, None),
{
    match record {
        RecordView::PlayerAdmitted { player_id, .. } => {
            assert(S::added(game, player_id, post, Ok::<(), SimulationError>(())));
        },
        RecordView::CommandApplied { player_id, sequence, payload, .. } => {
            assert(S::commanded(
                game,
                player_id,
                sequence,
                payload,
                post,
                Ok::<(), SimulationError>(()),
            ));
        },
        RecordView::PlayerRemoved { player_id, .. } => {
            assert(S::removed(game, player_id, post, Ok::<bool, SimulationError>(true)));
        },
        RecordView::Checkpoint { snapshot } => {
            let shown = choose|shown: SimulationSnapshot| #[trigger]
                crate::simulation::snapshots(game, Ok(shown)) && shown.state_hash
                    == snapshot.state_hash && shown.payload@ == snapshot.payload;
            let result: Result<SimulationSnapshot, SimulationError> = Ok(shown);
            assert(crate::simulation::snapshots(game, result));
        },
    }
    assert(crate::replay::settles(known, game, record, post, None));
}

/// A record that is not accepted broke a rule of order or identity, or the game turned it down or
/// would not move, and the error tells which.
pub proof fn law_refused_record_has_a_reason<S: GameSimulation>(
    known: Authority,
    pre: S,
    record: RecordView,
    post: S,
    error: ReplayError,
)
    requires
        crate::replay::replays(known, pre, record, post, Some(error)),
    ensures
        ({
            let at = record.at();
            let back = known.last_tick is Some && at < known.last_tick->0;
            let in_order = !back && (at == pre.tick() || at == pre.tick() + 1);
            &&& !in_order ==> known.order_fault(record, pre.tick()) == Some(error)
            &&& in_order && known.identity_fault(record) is Some ==> known.identity_fault(record)
                == Some(error) || (at != pre.tick() && stands_still(pre, error))
            &&& in_order && known.identity_fault(record) is None && at == pre.tick()
                ==> turned_down(pre, record, error)
            &&& in_order && known.identity_fault(record) is None && at != pre.tick()
                ==> stands_still(pre, error) || exists|game: S| #[trigger]
                S::advanced(pre, game, Ok::<(), SimulationError>(())) && turned_down(
                    game,
                    record,
                    error,
                )
        }),
{
    let at = record.at();
    let back = known.last_tick is Some && at < known.last_tick->0;
    if !back && at == pre.tick() {
        if known.identity_fault(record) is None {
            lemma_refused_effect_has_a_reason(pre, record, post, error);
        }
    } else if !back && at == pre.tick() + 1 {
        let (game, result) = choose|advanced: S, result: Result<(), SimulationError>| #[trigger]
            S::advanced(pre, advanced, result) && match result {
                Ok(_) => crate::replay::settles(known, advanced, record, post, Some(error)),
                Err(refusal) => Some(error) == Some(ReplayError::Simulation(refusal)),
            };
        match result {
            Ok(done) => {
                assert(done == ());
                assert(S::advanced(pre, game, Ok::<(), SimulationError>(())));
                if known.identity_fault(record) is None {
                    lemma_refused_effect_has_a_reason(game, record, post, error);
                }
            },
            Err(refusal) => {
                assert(S::advanced(pre, game, Err::<(), SimulationError>(refusal)));
                assert(stands_still(pre, error));
            },
        }
    }
}

/// Whether a game may refuse to advance, and `error` tells so.
pub open spec fn stands_still<S: GameSimulation>(pre: S, error: ReplayError) -> bool {
    exists|post: S, refusal: SimulationError| #[trigger]
        S::advanced(pre, post, Err(refusal)) && error == ReplayError::Simulation(refusal)
}

proof fn lemma_refused_effect_has_a_reason<S: GameSimulation>(
    game: S,
    record: RecordView,
    post: S,
    error: ReplayError,
)
    requires
        crate::replay::takes_effect(game, record, post, Some(error)),
    ensures
        turned_down(game, record, error),
{
    match record {
        RecordView::PlayerAdmitted { player_id, .. } => {
            let result = choose|result: Result<(), SimulationError>| #[trigger]
                S::added(game, player_id, post, result) && Some(error)
                    == crate::replay::game_refusal(result);
            assert(S::added(game, player_id, post, Err(result->Err_0)));
        },
        RecordView::CommandApplied { player_id, sequence, payload, .. } => {
            let result = choose|result: Result<(), SimulationError>| #[trigger]
                S::commanded(game, player_id, sequence, payload, post, result) && Some(error)
                    == crate::replay::game_refusal(result);
            assert(S::commanded(game, player_id, sequence, payload, post, Err(result->Err_0)));
        },
        RecordView::PlayerRemoved { player_id, .. } => {
            let result = choose|result: Result<bool, SimulationError>| #[trigger]
                S::removed(game, player_id, post, result) && Some(error)
                    == crate::replay::removal_refusal(player_id, result);
            match result {
                Ok(removed) => {
                    assert(!removed);
                    assert(S::removed(game, player_id, post, Ok(false)));
                },
                Err(refusal) => {
                    assert(S::removed(game, player_id, post, Err(refusal)));
                },
            }
        },
        RecordView::Checkpoint { snapshot } => {
            let result = choose|result: Result<SimulationSnapshot, SimulationError>| #[trigger]
                crate::simulation::snapshots(game, result) && Some(error)
                    == crate::replay::checkpoint_refusal(snapshot, result);
            match result {
                Ok(shown) => {
                    assert(crate::simulation::snapshots(game, Ok(shown)));
                    assert(differs(snapshot, shown, error));
                },
                Err(refusal) => {
                    assert(crate::simulation::snapshots(game, Err(refusal)));
                },
            }
        },
    }
}

/// In a history that is accepted, every record came about where the records before it lead: at its
/// own tick, and at most one tick after the record before it.
pub proof fn law_history_came_about<S: GameSimulation>(
    start: S,
    records: Seq<RecordView>,
    state: S,
    k: int,
)
    requires
        crate::replay::reaches(start, records, state),
        0 <= k < records.len(),
    ensures
        exists|pre: S, game: S, post: S|
            #![trigger crate::replay::reaches(start, records.take(k), pre), comes_about(game, records[k], post)]
            {
                &&& crate::replay::reaches(start, records.take(k), pre)
                &&& comes_about(game, records[k], post)
                &&& crate::replay::reaches(start, records.take(k + 1), post)
                &&& records[k].at() == pre.tick() && game == pre || records[k].at() == pre.tick()
                    + 1 && S::advanced(pre, game, Ok::<(), SimulationError>(()))
            },
    decreases records.len(),
{
    let earlier = records.drop_last();
    let previous = choose|previous: S|
        crate::replay::reaches(start, earlier, previous) && #[trigger] crate::replay::replays(
            crate::replay::authority(earlier),
            previous,
            records.last(),
            state,
            None,
        );
    if k < earlier.len() {
        law_history_came_about(start, earlier, previous, k);
        assert(earlier.take(k) =~= records.take(k));
        assert(earlier.take(k + 1) =~= records.take(k + 1));
        assert(earlier[k] == records[k]);
    } else {
        let known = crate::replay::authority(earlier);
        let record = records.last();
        assert(records.take(k) =~= earlier);
        assert(records.take(k + 1) =~= records);
        law_accepted_record_came_about(known, previous, record, state);
        if record.at() == previous.tick() {
            assert(crate::replay::reaches(start, records.take(k), previous) && comes_about(
                previous,
                records[k],
                state,
            ));
        } else {
            let game = choose|game: S| #[trigger]
                S::advanced(previous, game, Ok::<(), SimulationError>(())) && comes_about(
                    game,
                    record,
                    state,
                );
            assert(crate::replay::reaches(start, records.take(k), previous) && comes_about(
                game,
                records[k],
                state,
            ));
        }
    }
}

/// A history that is accepted met every one of its checkpoints: the game that the records up to it
/// lead to shows the recorded hash and the recorded payload.
pub proof fn law_checkpoints_are_met<S: GameSimulation>(
    start: S,
    records: Seq<RecordView>,
    state: S,
    k: int,
)
    requires
        crate::replay::reaches(start, records, state),
        0 <= k < records.len(),
        records[k] is Checkpoint,
    ensures
        exists|game: S, shown: SimulationSnapshot|
            #![trigger crate::replay::reaches(start, records.take(k + 1), game), crate::simulation::snapshots(game, Ok(shown))]
            {
                &&& crate::replay::reaches(start, records.take(k + 1), game)
                &&& crate::simulation::snapshots(game, Ok(shown))
                &&& shown.state_hash == records[k]->snapshot.state_hash
                &&& shown.payload@ == records[k]->snapshot.payload
            },
{
    law_history_came_about(start, records, state, k);
    let (pre, game, post) = choose|pre: S, game: S, post: S|
        #![trigger crate::replay::reaches(start, records.take(k), pre), comes_about(game, records[k], post)]
        {
            &&& crate::replay::reaches(start, records.take(k), pre)
            &&& comes_about(game, records[k], post)
            &&& crate::replay::reaches(start, records.take(k + 1), post)
            &&& records[k].at() == pre.tick() && game == pre || records[k].at() == pre.tick() + 1
                && S::advanced(pre, game, Ok::<(), SimulationError>(()))
        };
    let checkpoint = records[k]->snapshot;
    let shown = choose|shown: SimulationSnapshot| #[trigger]
        crate::simulation::snapshots(game, Ok(shown)) && shown.state_hash == checkpoint.state_hash
            && shown.payload@ == checkpoint.payload;
    assert(crate::replay::reaches(start, records.take(k + 1), post)
        && crate::simulation::snapshots(post, Ok(shown)));
}

/// A verified history tells how many records it has and how many of them are checkpoints, and ends
/// with what the game shows that it leads to.
pub proof fn law_verification_counts<S: GameSimulation>(
    fresh: S,
    records: Seq<RecordView>,
    verification: ReplayVerification,
)
    requires
        crate::replay::verifies(fresh, records, Ok(verification)),
    ensures
        verification.records_verified == records.len(),
        verification.checkpoints_verified == records.filter(
            |record: RecordView| record is Checkpoint,
        ).len(),
        exists|state: S|
            crate::replay::reaches(fresh, records, state) && #[trigger] crate::simulation::snapshots(
                state,
                Ok(verification.final_snapshot),
            ),
{
    lemma_checkpoints_are_counted(records);
}

proof fn lemma_checkpoints_are_counted(records: Seq<RecordView>)
    ensures
        crate::replay::checkpoint_count(records) == records.filter(
            |record: RecordView| record is Checkpoint,
        ).len(),
    decreases records.len(),
{
    reveal(Seq::filter);
    if records.len() > 0 {
        lemma_checkpoints_are_counted(records.drop_last());
    }
}

/// Whether the record at `i` is the last word on a player's presence, and admits the player.
pub open spec fn joins_for_good(records: Seq<RecordView>, id: PlayerId, i: int) -> bool {
    &&& 0 <= i < records.len()
    &&& records[i] matches RecordView::PlayerAdmitted { player_id, .. } && player_id == id
    &&& forall|j: int|
        i < j < records.len() ==> !(#[trigger] records[j] matches RecordView::PlayerRemoved {
            player_id,
            ..
        } && player_id == id)
}

/// The players who are present after a history are those who were admitted and not removed since.
pub proof fn law_present_players(records: Seq<RecordView>, id: PlayerId)
    ensures
        crate::recovery::live_players(records).contains(id) <==> exists|i: int| #[trigger]
            joins_for_good(records, id, i),
    decreases records.len(),
{
    if records.len() > 0 {
        let earlier = records.drop_last();
        let last = records.last();
        law_present_players(earlier, id);
        let gone = last matches RecordView::PlayerRemoved { player_id, .. } && player_id == id;
        let comes = last matches RecordView::PlayerAdmitted { player_id, .. } && player_id == id;
        if comes {
            assert(joins_for_good(records, id, records.len() - 1));
        }
        if !gone && exists|i: int| #[trigger] joins_for_good(earlier, id, i) {
            let i = choose|i: int| #[trigger] joins_for_good(earlier, id, i);
            assert forall|j: int| i < j < records.len() implies !(
            #[trigger] records[j] matches RecordView::PlayerRemoved { player_id, .. } && player_id
                == id) by {
                if j < earlier.len() {
                    assert(earlier[j] == records[j]);
                }
            }
            assert(records[i] == earlier[i]);
            assert(joins_for_good(records, id, i));
        }
        if exists|i: int| #[trigger] joins_for_good(records, id, i) {
            let i = choose|i: int| #[trigger] joins_for_good(records, id, i);
            if i < earlier.len() {
                assert forall|j: int| i < j < earlier.len() implies !(
                #[trigger] earlier[j] matches RecordView::PlayerRemoved { player_id, .. }
                    && player_id == id) by {
                    assert(earlier[j] == records[j]);
                }
                assert(earlier[i] == records[i]);
                assert(joins_for_good(earlier, id, i));
                assert(records[records.len() - 1] == last);
                assert(!gone);
            } else {
                assert(comes);
            }
        }
    }
}

/// The sequence of a player's command, where a record tells of one.
pub open spec fn sent(record: RecordView, id: PlayerId) -> Option<u32> {
    match record {
        RecordView::CommandApplied { player_id, sequence, .. } => if player_id == id {
            Some(sequence)
        } else {
            None
        },
        _ => None,
    }
}

/// The player whose admission a record tells of.
pub open spec fn newcomer(record: RecordView) -> Option<PlayerId> {
    match record {
        RecordView::PlayerAdmitted { player_id, .. } => Some(player_id),
        _ => None,
    }
}

/// A player's highest sequence is the greatest that a command of the player carries, or zero where
/// there is none.
pub proof fn law_highest_sequence(records: Seq<RecordView>, id: PlayerId)
    ensures
        forall|i: int|
            0 <= i < records.len() ==> (sent(#[trigger] records[i], id) matches Some(sequence)
                ==> sequence <= crate::recovery::highest_sequence(records, id)),
        crate::recovery::highest_sequence(records, id) == 0 || exists|i: int|
            0 <= i < records.len() && sent(#[trigger] records[i], id) == Some(
                crate::recovery::highest_sequence(records, id),
            ),
    decreases records.len(),
{
    if records.len() > 0 {
        let earlier = records.drop_last();
        law_highest_sequence(earlier, id);
        let highest = crate::recovery::highest_sequence(records, id);
        assert forall|i: int| 0 <= i < records.len() implies (sent(
            #[trigger] records[i],
            id,
        ) matches Some(sequence) ==> sequence <= highest) by {
            if i < earlier.len() {
                assert(earlier[i] == records[i]);
            }
        }
        if highest != 0 {
            if highest == crate::recovery::highest_sequence(earlier, id) {
                let i = choose|i: int|
                    0 <= i < earlier.len()
                        && sent(#[trigger] earlier[i], id) == Some(highest);
                assert(records[i] == earlier[i]);
            } else {
                assert(records[records.len() - 1] == records.last());
            }
        }
    }
}

/// What the runtime knows after a history that breaks no rule: every present player's greatest
/// sequence, the greatest identity that was admitted, and the tick of the last record.
pub proof fn law_authority_is_what_was_recorded(records: Seq<RecordView>)
    requires
        crate::replay::lawful(records),
    ensures
        ({
            let known = crate::replay::authority(records);
            &&& forall|id: PlayerId| #[trigger]
                known.sequences.contains_key(id) <==> exists|i: int| #[trigger]
                    joins_for_good(records, id, i)
            &&& forall|id: PlayerId| #[trigger]
                known.sequences.contains_key(id) ==> known.sequences[id]
                    == crate::recovery::highest_sequence(records, id)
            &&& forall|i: int|
                0 <= i < records.len() ==> (newcomer(#[trigger] records[i]) matches Some(player_id)
                    ==> player_id <= known.highest_id)
            &&& known.highest_id == 0 || exists|i: int|
                0 <= i < records.len() && newcomer(#[trigger] records[i]) == Some(known.highest_id)
            &&& known.last_tick == if records.len() == 0 {
                None
            } else {
                Some(records[records.len() - 1].at())
            }
        }),
{
    let known = crate::replay::authority(records);
    crate::recovery::lemma_history_in_image(records);
    assert forall|id: PlayerId| #[trigger] known.sequences.contains_key(id) <==> exists|i: int|
     #[trigger]
        joins_for_good(records, id, i) by {
        law_present_players(records, id);
        assert(known.sequences.dom().contains(id) == crate::recovery::live_players(
            records,
        ).contains(id));
    }
    lemma_highest_identity(records);
}

proof fn lemma_highest_identity(records: Seq<RecordView>)
    requires
        crate::replay::lawful(records),
    ensures
        ({
            let known = crate::replay::authority(records);
            &&& forall|i: int|
                0 <= i < records.len() ==> (newcomer(#[trigger] records[i]) matches Some(player_id)
                    ==> player_id <= known.highest_id)
            &&& known.highest_id == 0 || exists|i: int|
                0 <= i < records.len() && newcomer(#[trigger] records[i]) == Some(known.highest_id)
        }),
    decreases records.len(),
{
    if records.len() > 0 {
        let earlier = records.drop_last();
        let before = crate::replay::authority(earlier);
        let known = crate::replay::authority(records);
        lemma_highest_identity(earlier);
        assert forall|i: int| 0 <= i < records.len() implies (newcomer(
            #[trigger] records[i],
        ) matches Some(player_id) ==> player_id <= known.highest_id) by {
            if i < earlier.len() {
                assert(earlier[i] == records[i]);
            }
        }
        if known.highest_id != 0 {
            if records.last() is PlayerAdmitted {
                assert(records[records.len() - 1] == records.last());
            } else {
                let i = choose|i: int|
                    0 <= i < earlier.len()
                        && newcomer(#[trigger] earlier[i]) == Some(before.highest_id);
                assert(records[i] == earlier[i]);
            }
        }
    }
}

/// A record has a binary form unless it is a command without a sequence or with too long a payload,
/// or a checkpoint with too long a payload or a hash that is not its payload's.
pub proof fn law_record_is_judged(record: RecordView)
    ensures
        match record {
            RecordView::PlayerAdmitted { .. } => record.refusal() is None,
            RecordView::PlayerRemoved { .. } => record.refusal() is None,
            RecordView::CommandApplied { sequence, payload, .. } => {
                let long = payload.len() > MAX_COMMAND_PAYLOAD_BYTES;
                &&& record.refusal() is None <==> sequence > 0 && !long
                &&& sequence == 0 ==> record.refusal() == Some(ReplayError::InvalidSequence)
                &&& sequence > 0 && long ==> record.refusal() == Some(
                    ReplayError::PayloadTooLarge {
                        maximum: MAX_COMMAND_PAYLOAD_BYTES,
                        actual: payload.len() as usize,
                    },
                )
            },
            RecordView::Checkpoint { snapshot } => {
                let long = snapshot.payload.len() > MAX_SNAPSHOT_PAYLOAD_BYTES;
                let digest = crate::protocol::snapshot_digest(snapshot.tick, snapshot.payload);
                &&& record.refusal() is None <==> !long && snapshot.state_hash == digest
                &&& long ==> record.refusal() == Some(
                    ReplayError::PayloadTooLarge {
                        maximum: MAX_SNAPSHOT_PAYLOAD_BYTES,
                        actual: snapshot.payload.len() as usize,
                    },
                )
                &&& !long && snapshot.state_hash != digest ==> record.refusal() == Some(
                    ReplayError::InvalidCheckpointHash {
                        tick: snapshot.tick,
                        expected: digest,
                        actual: snapshot.state_hash,
                    },
                )
            },
        },
{
}

/// Whether the record at `k` is the first of records that has no binary form, and `error` is why.
pub open spec fn first_refused(records: Seq<RecordView>, k: int, error: ReplayError) -> bool {
    &&& 0 <= k < records.len()
    &&& records[k].refusal() == Some(error)
    &&& forall|i: int| 0 <= i < k ==> (#[trigger] records[i]).refusal() is None
}

/// Records have a binary form exactly where each of them has one, and else the first that has none
/// tells why.
pub proof fn law_records_are_judged(records: Seq<RecordView>)
    ensures
        crate::replay::records_refusal(records) is None <==> forall|i: int|
            0 <= i < records.len() ==> (#[trigger] records[i]).refusal() is None,
        crate::replay::records_refusal(records) matches Some(error) ==> exists|k: int| #[trigger]
            first_refused(records, k, error),
    decreases records.len(),
{
    if records.len() > 0 {
        let earlier = records.drop_last();
        law_records_are_judged(earlier);
        assert(forall|i: int| 0 <= i < earlier.len() ==> earlier[i] == records[i]);
        assert(records.last() == records[records.len() - 1]);
        if let Some(error) = crate::replay::records_refusal(earlier) {
            let k = choose|k: int| #[trigger] first_refused(earlier, k, error);
            assert(earlier[k] == records[k]);
            assert forall|i: int| 0 <= i < k implies (#[trigger] records[i]).refusal() is None by {
                assert(earlier[i] == records[i]);
            }
            assert(first_refused(records, k, error));
        } else {
            assert forall|i: int| 0 <= i < earlier.len() implies (
            #[trigger] records[i]).refusal() is None by {
                assert(earlier[i] == records[i]);
            }
            if let Some(error) = records.last().refusal() {
                assert(first_refused(records, records.len() - 1, error));
            }
        }
    }
}

/// Whether a player is present after a history.
pub open spec fn stays(records: Seq<RecordView>, id: PlayerId) -> bool {
    exists|i: int| #[trigger] joins_for_good(records, id, i)
}

/// Whether an image has a saved slot for a player.
pub open spec fn has_slot(image: ImageView, id: PlayerId) -> bool {
    exists|i: int|
        0 <= i < image.sessions.len() && (#[trigger] image.sessions[i]).player_id == id
}

/// Whether the players who are present after an image's history are those of its saved slots.
pub open spec fn players_agree(image: ImageView) -> bool {
    forall|id: PlayerId| #[trigger] stays(image.records, id) <==> has_slot(image, id)
}

/// An image fits together exactly where its history ends at its tick and leaves the players of the
/// saved slots present; nothing else about the slots matters.
pub proof fn law_image_structure_is_judged(image: ImageView)
    ensures
        ({
            let ends = image.records.len() > 0 && image.records[image.records.len() - 1].at()
                == image.current_tick;
            &&& image.structure_fault() is None <==> ends && players_agree(image)
            &&& !ends ==> image.structure_fault() == Some(
                RecoveryError::ReplayTickMismatch {
                    expected: image.current_tick,
                    actual: if image.records.len() == 0 {
                        None
                    } else {
                        Some(image.records[image.records.len() - 1].at())
                    },
                },
            )
            &&& ends && !players_agree(image) ==> image.structure_fault() == Some(
                RecoveryError::ReplayPlayerSetMismatch,
            )
        }),
{
    let ids = crate::session::player_ids(image.sessions);
    let live = crate::recovery::live_players(image.records);
    assert forall|id: PlayerId|
        has_slot(image, id)
            <==> #[trigger] ids.to_set().contains(id) by {
        if ids.contains(id) {
            let i = choose|i: int| 0 <= i < ids.len() && ids[i] == id;
            assert(image.sessions[i].player_id == id);
        }
        if exists|i: int|
            0 <= i < image.sessions.len() && (#[trigger] image.sessions[i]).player_id == id {
            let i = choose|i: int|
                0 <= i < image.sessions.len() && (#[trigger] image.sessions[i]).player_id == id;
            assert(ids[i] == id);
        }
    }
    assert forall|id: PlayerId|
        stays(image.records, id)
            <==> #[trigger] live.contains(id) by {
        law_present_players(image.records, id);
    }
    if players_agree(image) {
        assert forall|id: PlayerId| live.contains(id) <==> ids.to_set().contains(id) by {}
        assert(live =~= ids.to_set());
    }
    if live == ids.to_set() {
        assert forall|id: PlayerId| #[trigger] stays(image.records, id) <==> has_slot(image, id) by {
            assert(live.contains(id) == ids.to_set().contains(id));
        }
    }
}

/// An image has a binary form exactly where it fits together, each of its records has one, and
/// neither its slots, nor its history, nor the whole is too large.
pub proof fn law_image_is_judged(image: ImageView)
    ensures
        ({
            let log_len = crate::replay::log_bytes(image.records).len();
            let slots = image.sessions.len();
            let ends = image.records.len() > 0 && image.records[image.records.len() - 1].at()
                == image.current_tick;
            let recorded = forall|i: int|
                0 <= i < image.records.len() ==> (#[trigger] image.records[i]).refusal() is None;
            &&& image.refusal() is None <==> ends && players_agree(image) && recorded && slots
                <= u16::MAX && 31 + 32 * slots + log_len <= MAX_RECOVERY_IMAGE_BYTES
            &&& !ends || !players_agree(image) ==> image.refusal() == image.structure_fault()
            &&& ends && players_agree(image) && !recorded ==> (image.refusal() matches Some(
                RecoveryError::Replay(error),
            ) && exists|k: int| #[trigger] first_refused(image.records, k, error))
            &&& ends && players_agree(image) && recorded && log_len > u32::MAX ==> image.refusal()
                == Some(RecoveryError::ReplayTooLarge(log_len as usize))
            &&& ends && players_agree(image) && recorded && log_len <= u32::MAX && slots > u16::MAX
                ==> image.refusal() == Some(RecoveryError::SessionCountTooLarge(slots as usize))
            &&& ends && players_agree(image) && recorded && log_len <= u32::MAX && slots <= u16::MAX
                && 31 + 32 * slots + log_len > MAX_RECOVERY_IMAGE_BYTES ==> (
            image.refusal() matches Some(RecoveryError::ImageTooLarge(size)) && size == if 31 + 32
                * slots + log_len <= usize::MAX {
                31 + 32 * slots + log_len
            } else {
                usize::MAX as nat
            })
        }),
{
    law_image_structure_is_judged(image);
    law_records_are_judged(image.records);
}

/// A restored game has arrived exactly where it stands at the image's tick and the image's last
/// record is a checkpoint at that tick.
pub proof fn law_arrival_is_judged(image: ImageView, reached_tick: u64)
    ensures
        ({
            let fault = image.arrival_fault(reached_tick);
            let last = image.records[image.records.len() - 1];
            let closed = image.records.len() > 0 && last is Checkpoint && last->snapshot.tick
                == image.current_tick;
            &&& fault is None <==> reached_tick == image.current_tick && closed
            &&& reached_tick == image.current_tick && !closed ==> fault == Some(
                RecoveryError::MissingFinalCheckpoint(image.current_tick),
            )
            &&& reached_tick != image.current_tick ==> fault == Some(
                RecoveryError::ReplayTickMismatch {
                    expected: image.current_tick,
                    actual: if image.records.len() == 0 {
                        None
                    } else {
                        Some(last.at())
                    },
                },
            )
        }),
{
}

/// An image gives every saved slot, and nobody else, the greatest sequence of the player's
/// commands.
pub proof fn law_image_sequences(image: ImageView, id: PlayerId)
    ensures
        image.sequences().contains_key(id) <==> exists|i: int|
            0 <= i < image.sessions.len() && (#[trigger] image.sessions[i]).player_id == id,
        image.sequences().contains_key(id) ==> {
            &&& forall|i: int|
                0 <= i < image.records.len() ==> (sent(
                    #[trigger] image.records[i],
                    id,
                ) matches Some(sequence) ==> sequence <= image.sequences()[id])
            &&& image.sequences()[id] == 0 || exists|i: int|
                0 <= i < image.records.len()
                    && sent(#[trigger] image.records[i], id) == Some(image.sequences()[id])
        },
{
    let ids = crate::session::player_ids(image.sessions);
    law_highest_sequence(image.records, id);
    if ids.contains(id) {
        let i = choose|i: int| 0 <= i < ids.len() && ids[i] == id;
        assert(image.sessions[i].player_id == id);
    }
    if exists|i: int|
        0 <= i < image.sessions.len() && (#[trigger] image.sessions[i]).player_id == id {
        let i = choose|i: int|
            0 <= i < image.sessions.len() && (#[trigger] image.sessions[i]).player_id == id;
        assert(ids[i] == id);
    }
}

/// An error that names its own trouble keeps its name when a recovery meets it; every other error
/// of the interpreter is passed on as it is.
pub proof fn law_interpreter_errors_keep_their_names(error: ReplayError)
    ensures
        match error {
            ReplayError::TickGapTooLarge { from_tick, to_tick, .. } =>
                crate::recovery::interpreter_error(error)
                == RecoveryError::ReplayTickGapTooLarge { from_tick, to_tick },
            ReplayError::ReplayStartsBeforeSimulation { simulation_tick, record_tick } =>
                crate::recovery::interpreter_error(error)
                == RecoveryError::ReplayStartsBeforeSimulation { simulation_tick, record_tick },
            ReplayError::MissingPlayerOnRemoval(player_id) => crate::recovery::interpreter_error(
                error,
            ) == RecoveryError::MissingPlayerOnRemoval(player_id),
            ReplayError::Simulation(refusal) => crate::recovery::interpreter_error(error)
                == RecoveryError::Simulation(refusal),
            _ => crate::recovery::interpreter_error(error) == RecoveryError::Replay(error),
        },
{
}

/// A match that captured its history can be saved, whoever came and left before: where every record
/// has a binary form and the whole is not too large, what it leaves behind has one.
pub proof fn law_captured_match_can_be_saved<S: GameSimulation>(
    origin: S,
    runtime: RuntimeView<S>,
    snapshot: SimulationSnapshot,
    image: ImageView,
)
    requires
        crate::evidence::orderly::<S>(),
        crate::evidence::captured(origin, runtime),
        crate::simulation::snapshots(runtime.simulation, Ok(snapshot)),
        crate::runtime::leaves_behind(runtime, snapshot@, image),
        forall|i: int|
            0 <= i < image.records.len() ==> (#[trigger] image.records[i]).refusal() is None,
        runtime.sessions.players.dom().len() <= u16::MAX,
        31 + 32 * runtime.sessions.players.dom().len() + crate::replay::log_bytes(
            image.records,
        ).len() <= MAX_RECOVERY_IMAGE_BYTES,
    ensures
        image.structure_fault() is None,
        image.refusal() is None,
{
    let records = runtime.replay->0;
    crate::replay::lemma_retraces_is_lawful(origin, records, runtime.simulation);
    crate::recovery::lemma_history_in_image(records);
    let checkpoint = RecordView::Checkpoint { snapshot: snapshot@ };
    if !(records.len() > 0 && records.last() == checkpoint) {
        assert(image.records.drop_last() =~= records);
        assert(image.records.last() == checkpoint);
    }
    let ids = crate::session::player_ids(image.sessions);
    let live = crate::recovery::live_players(image.records);
    assert(live == runtime.sessions.players.dom());
    assert forall|id: PlayerId| #[trigger] stays(image.records, id) <==> has_slot(image, id) by {
        law_present_players(image.records, id);
        assert(ids.to_set().contains(id) == runtime.sessions.players.dom().contains(id));
        if ids.contains(id) {
            let i = choose|i: int| 0 <= i < ids.len() && ids[i] == id;
            assert(image.sessions[i].player_id == id);
        }
        if exists|i: int|
            0 <= i < image.sessions.len() && (#[trigger] image.sessions[i]).player_id == id {
            let i = choose|i: int|
                0 <= i < image.sessions.len() && (#[trigger] image.sessions[i]).player_id == id;
            assert(ids[i] == id);
        }
    }
    law_image_is_judged(image);
}

/// Whether interpreting a history stops at the record at `k`, in a game that the records before
/// lead to.
pub open spec fn stops_at<S: GameSimulation>(
    start: S,
    records: Seq<RecordView>,
    k: int,
    pre: S,
    error: ReplayError,
) -> bool {
    &&& 0 <= k < records.len()
    &&& crate::replay::reaches(start, records.take(k), pre)
    &&& exists|post: S| #[trigger]
        crate::replay::replays(
            crate::replay::authority(records.take(k)),
            pre,
            records[k],
            post,
            Some(error),
        )
}

/// A history is turned down only for a record of its own: the records before it were accepted, and
/// it was not.
pub proof fn law_refused_history_has_a_reason<S: GameSimulation>(
    start: S,
    records: Seq<RecordView>,
    error: ReplayError,
)
    requires
        crate::replay::fails(start, records, error),
    ensures
        exists|k: int, pre: S| #[trigger] stops_at(start, records, k, pre, error),
{
    let (k, pre, post) = choose|count: int, previous: S, post: S|
        #![trigger crate::replay::reaches(start, records.take(count), previous), crate::replay::replays(crate::replay::authority(records.take(count)), previous, records[count], post, Some(error))]
        0 <= count < records.len() && crate::replay::reaches(start, records.take(count), previous)
            && crate::replay::replays(
            crate::replay::authority(records.take(count)),
            previous,
            records[count],
            post,
            Some(error),
        );
    assert(crate::replay::replays(
        crate::replay::authority(records.take(k)),
        pre,
        records[k],
        post,
        Some(error),
    ));
    assert(stops_at(start, records, k, pre, error));
}

/// A history does not verify only where a record of its own is turned down, or where the game that
/// it leads to shows no snapshot.
pub proof fn law_failed_verification_has_a_reason<S: GameSimulation>(
    fresh: S,
    records: Seq<RecordView>,
    error: ReplayError,
)
    requires
        crate::replay::verifies(fresh, records, Err(error)),
    ensures
        (exists|k: int, pre: S| #[trigger] stops_at(fresh, records, k, pre, error)) || (exists|
            state: S,
            refusal: SimulationError,
        |
            crate::replay::reaches(fresh, records, state) && #[trigger] crate::simulation::snapshots(
                state,
                Err(refusal),
            ) && error == ReplayError::Simulation(refusal)),
{
    if crate::replay::fails(fresh, records, error) {
        law_refused_history_has_a_reason(fresh, records, error);
    }
}

/// Bytes are turned down as an image only where their layout is wrong, or where what they lay out
/// does not fit together.
pub proof fn law_unreadable_image_has_a_reason(bytes: Seq<u8>, error: RecoveryError)
    requires
        crate::recovery::unreadable(bytes, error),
    ensures
        crate::recovery::layout_fault(bytes) == Some(error) || (crate::recovery::layout_fault(
            bytes,
        ) is None && exists|image: ImageView| #[trigger]
            image.bytes() == bytes && image.structure_fault() == Some(error)),
{
}

/// A match that captured its history and was saved starts again from what was saved: nothing keeps
/// it away, and whatever comes back stands where the match stood, with every slot waiting.
#[verifier::rlimit(40)]
pub proof fn law_saved_match_starts_again<S: GameSimulation>(
    origin: S,
    runtime: RuntimeView<S>,
    snapshot: SimulationSnapshot,
    image: ImageView,
    fresh: S,
)
    requires
        crate::evidence::orderly::<S>(),
        crate::replay::deterministic::<S>(),
        crate::evidence::captured(origin, runtime),
        crate::simulation::snapshots(runtime.simulation, Ok(snapshot)),
        crate::runtime::leaves_behind(runtime, snapshot@, image),
        image.refusal() is None,
        S::alike(origin, fresh),
        fresh.capacity() == runtime.sessions.max_players,
    ensures
        forall|words: Seq<char>|
            !#[trigger] crate::transport::stays_away(fresh, image.bytes(), words),
        forall|back: RuntimeView<S>| #[trigger]
            crate::transport::comes_back(fresh, image.bytes(), back) ==> {
                &&& S::alike(runtime.simulation, back.simulation)
                &&& back.sessions.players.dom() == runtime.sessions.players.dom()
                &&& back.last_sequences == runtime.last_sequences
                &&& back.sessions.next_player_id == runtime.sessions.next_player_id
                &&& back.sessions.reconnect_grace_ticks == runtime.sessions.reconnect_grace_ticks
                &&& !back.frozen
                &&& !back.draining
                &&& forall|id: PlayerId| #[trigger]
                    runtime.sessions.players.contains_key(id) ==> {
                        &&& back.sessions.players[id].token == runtime.sessions.players[id].token
                        &&& back.sessions.players[id].connection_epoch
                            == runtime.sessions.players[id].connection_epoch
                        &&& !back.sessions.players[id].connected
                        &&& back.sessions.players[id].expires_at_tick >= image.current_tick
                    }
            },
{
    crate::evidence::law_recovery_brings_the_match_back(origin, runtime, snapshot, image, fresh);
    let records = runtime.replay->0;
    let checkpoint = RecordView::Checkpoint { snapshot: snapshot@ };
    if !(records.len() > 0 && records.last() == checkpoint) {
        crate::evidence::lemma_order_goes_on(records, checkpoint);
    }
    crate::recovery::law_image_round_trip(image);
    assert forall|words: Seq<char>|
        !#[trigger] crate::transport::stays_away(fresh, image.bytes(), words) by {
        if crate::transport::stays_away(fresh, image.bytes(), words) {
            if exists|error: RecoveryError| #[trigger]
                crate::recovery::unreadable(image.bytes(), error) && words == error.message() {
                let error = choose|error: RecoveryError| #[trigger]
                    crate::recovery::unreadable(image.bytes(), error) && words == error.message();
                assert(!crate::recovery::unreadable(image.bytes(), error));
            } else {
                let (other, cause) = choose|other: ImageView, cause: RecoveryError|
                    #![trigger other.bytes(), crate::runtime::restore_fails(fresh, other, cause)]
                    other.bytes() == image.bytes() && other.refusal() is None
                        && crate::runtime::restore_fails(fresh, other, cause) && words
                        == crate::runtime::RuntimeRecoveryError::Recovery(cause).message();
                law_image_is_judged(other);
                law_records_are_judged(other.records);
                assert(other == image);
                assert(!crate::runtime::restore_fails(fresh, image, cause));
            }
        }
    }
    assert forall|back: RuntimeView<S>| #[trigger]
        crate::transport::comes_back(fresh, image.bytes(), back) implies {
        &&& S::alike(runtime.simulation, back.simulation)
        &&& back.sessions.players.dom() == runtime.sessions.players.dom()
        &&& back.last_sequences == runtime.last_sequences
        &&& back.sessions.next_player_id == runtime.sessions.next_player_id
        &&& back.sessions.reconnect_grace_ticks == runtime.sessions.reconnect_grace_ticks
        &&& !back.frozen
        &&& !back.draining
        &&& forall|id: PlayerId| #[trigger]
            runtime.sessions.players.contains_key(id) ==> {
                &&& back.sessions.players[id].token == runtime.sessions.players[id].token
                &&& back.sessions.players[id].connection_epoch
                    == runtime.sessions.players[id].connection_epoch
                &&& !back.sessions.players[id].connected
                &&& back.sessions.players[id].expires_at_tick >= image.current_tick
            }
    } by {
        let other = choose|other: ImageView| #[trigger]
            other.bytes() == image.bytes() && crate::runtime::restores(fresh, other, back);
        law_image_is_judged(other);
        law_records_are_judged(other.records);
        assert(other == image);
        let players = back.sessions.players;
        assert forall|id: PlayerId| #[trigger] runtime.sessions.players.contains_key(id) implies {
            &&& players[id].token == runtime.sessions.players[id].token
            &&& players[id].connection_epoch == runtime.sessions.players[id].connection_epoch
            &&& !players[id].connected
            &&& players[id].expires_at_tick >= image.current_tick
        } by {
            assert(players.dom().contains(id));
            assert(players.contains_key(id));
            let registry = crate::session::RegistryView { players, ..runtime.sessions };
            crate::session::law_waiting_slots_lapse(registry, id, image.current_tick);
        }
    }
}

} // verus!
