//! What the reference game does, move by move, and what a client that watches it counts.

use crate::client::{ProgressWatch, SnapshotCount};
use crate::protocol::PlayerId;
use crate::simulation::{GameSimulation, SimulationError, SimulationSnapshot};
use crate::world::{DemoSimulation, DemoSnapshotPlayer, WorldError, WorldView};
use vstd::prelude::*;

verus! {

/// Whether every player but one stands as before, and so does the clock.
pub open spec fn others_stand(pre: WorldView, id: PlayerId, post: WorldView) -> bool {
    &&& post.tick == pre.tick
    &&& forall|other: PlayerId|
        other != id ==> (#[trigger] post.players.contains_key(other)
            <==> pre.players.contains_key(other))
    &&& forall|other: PlayerId|
        other != id && #[trigger] pre.players.contains_key(other) ==> post.players[other]
            == pre.players[other]
}

/// A player joins exactly where its identity is not zero and not taken and the world is not full,
/// and then stands still on the grid of starting places; nobody else moves. Else nothing changes,
/// and the reason that is told is true.
pub proof fn law_joining_the_world(
    pre: DemoSimulation,
    id: PlayerId,
    post: DemoSimulation,
    result: Result<(), SimulationError>,
)
    requires
        GameSimulation::added(pre, id, post, result),
    ensures
        result is Ok <==> id != 0 && !pre@.players.contains_key(id) && pre@.players.dom().len()
            < 16,
        result is Ok ==> {
            let player = post@.players[id];
            &&& others_stand(pre@, id, post@)
            &&& post@.players.contains_key(id)
            &&& player.x == (id as int % 8) * 256 - 896
            &&& player.y == (id as int / 8 % 8) * 256 - 896
            &&& player.horizontal == 0
            &&& player.vertical == 0
            &&& player.last_received_sequence == 0
            &&& player.last_applied_sequence == 0
        },
        result matches Err(error) ==> {
            &&& post == pre
            &&& id == 0 ==> error@ == "player id zero is reserved"@
            &&& id != 0 && pre@.players.contains_key(id) ==> error@ == "player "@
                + crate::text::decimal(id as nat) + " already exists"@
            &&& id != 0 && !pre@.players.contains_key(id) ==> error@
                == "demo world has reached player capacity"@
        },
{
}

/// A player leaves exactly where it is there, and nobody else moves.
pub proof fn law_leaving_the_world(
    pre: DemoSimulation,
    id: PlayerId,
    post: DemoSimulation,
    result: Result<bool, SimulationError>,
)
    requires
        GameSimulation::removed(pre, id, post, result),
    ensures
        result == Ok::<bool, SimulationError>(pre@.players.contains_key(id)),
        !post@.players.contains_key(id),
        others_stand(pre@, id, post@),
{
}

/// The way that a byte of a command points, where it points one.
pub open spec fn points(byte: u8, way: i8) -> bool {
    ||| byte == 0 && way == 0
    ||| byte == 1 && way == 1
    ||| byte == 255 && way == -1
}

/// A command turns a present player exactly where it has two bytes that each point one way or none;
/// the player then faces there under the command's sequence and has not moved yet. Else nothing
/// changes.
pub proof fn law_turning_in_the_world(
    pre: DemoSimulation,
    id: PlayerId,
    sequence: u32,
    payload: Seq<u8>,
    post: DemoSimulation,
    result: Result<(), SimulationError>,
)
    requires
        GameSimulation::commanded(pre, id, sequence, payload, post, result),
    ensures
        result is Ok <==> pre@.players.contains_key(id) && payload.len() == 2 && (payload[0] == 0
            || payload[0] == 1 || payload[0] == 255) && (payload[1] == 0 || payload[1] == 1
            || payload[1] == 255),
        result is Ok ==> {
            let before = pre@.players[id];
            let after = post@.players[id];
            &&& others_stand(pre@, id, post@)
            &&& post@.players.contains_key(id)
            &&& points(payload[0], after.horizontal)
            &&& points(payload[1], after.vertical)
            &&& after.last_received_sequence == sequence
            &&& after.x == before.x
            &&& after.y == before.y
            &&& after.last_applied_sequence == before.last_applied_sequence
        },
        result matches Err(error) ==> {
            &&& post == pre
            &&& payload.len() != 2 ==> error@ == "demo command must be 2 bytes, received "@
                + crate::text::decimal(payload.len() as usize as nat)
            &&& payload.len() == 2 && !pre@.players.contains_key(id) && (payload[0] == 0
                || payload[0] == 1 || payload[0] == 255) && (payload[1] == 0 || payload[1] == 1
                || payload[1] == 255) ==> error@ == "unknown player "@ + crate::text::decimal(
                id as nat,
            )
        },
{
}

/// Whether a coordinate moved one step the way that it was to move, or as far as the world reaches.
pub open spec fn steps(from: i16, way: i8, to: i16) -> bool {
    let aim = from + 64 * way;
    &&& -10_000 <= aim <= 10_000 ==> to == aim
    &&& aim > 10_000 ==> to == 10_000
    &&& aim < -10_000 ==> to == -10_000
}

/// A tick moves the clock by one and every player one step the way that it faces, no further than
/// the edge; it applies the last command that was received and turns nobody. At the last tick
/// nothing moves.
pub proof fn law_time_in_the_world(
    pre: DemoSimulation,
    post: DemoSimulation,
    result: Result<(), SimulationError>,
)
    requires
        GameSimulation::advanced(pre, post, result),
    ensures
        result is Ok <==> pre@.tick < u64::MAX,
        result matches Err(error) ==> post == pre && error@ == "tick counter is exhausted"@,
        result is Ok ==> post@.tick == pre@.tick + 1 && post@.players.dom() == pre@.players.dom(),
        result is Ok ==> forall|id: PlayerId| #[trigger]
            pre@.players.contains_key(id) ==> {
                let before = pre@.players[id];
                let after = post@.players[id];
                &&& steps(before.x, before.horizontal, after.x)
                &&& steps(before.y, before.vertical, after.y)
                &&& after.horizontal == before.horizontal
                &&& after.vertical == before.vertical
                &&& after.last_received_sequence == before.last_received_sequence
                &&& after.last_applied_sequence == before.last_received_sequence
            },
{
    if result is Ok {
        assert(post@.players.dom() =~= pre@.players.dom());
    }
}

/// A snapshot of the world shows its tick and every player once, in ascending order of identity,
/// where the player stands and up to which command.
pub proof fn law_world_is_shown(
    game: DemoSimulation,
    result: Result<SimulationSnapshot, SimulationError>,
)
    requires
        crate::simulation::snapshots(game, result),
        game@.players.dom().finite(),
    ensures
        result matches Ok(snapshot) && {
            &&& snapshot.tick == game@.tick
            &&& snapshot.state_hash == crate::protocol::snapshot_digest(
                game@.tick,
                snapshot.payload@,
            )
            &&& exists|players: Seq<DemoSnapshotPlayer>|
                snapshot.payload@ == #[trigger] crate::world::demo_payload(players)
                    && shows_world(game@, players)
        },
{
    let world = game@;
    let players = world.all_shown();
    let ids = crate::ordered::in_order(world.players.dom());
    crate::ordered::lemma_in_order_lists(world.players.dom());
    assert forall|i: int, j: int| 0 <= i < j < players.len() implies (
    #[trigger] players[i]).player_id < (#[trigger] players[j]).player_id by {
        assert(ids[i] < ids[j]);
    }
    assert forall|i: int| 0 <= i < players.len() implies {
        let player = #[trigger] players[i];
        &&& world.players.contains_key(player.player_id)
        &&& player.x == world.players[player.player_id].x
        &&& player.y == world.players[player.player_id].y
        &&& player.last_applied_sequence
            == world.players[player.player_id].last_applied_sequence
    } by {
        assert(ids.contains(ids[i]));
    }
    assert forall|id: PlayerId| #[trigger] world.players.contains_key(id) implies exists|i: int|
        0 <= i < players.len() && (#[trigger] players[i]).player_id == id by {
        assert(ids.contains(id));
        let i = choose|i: int| 0 <= i < ids.len() && ids[i] == id;
        assert(players[i].player_id == id);
    }
    assert(shows_world(world, players));
    assert(result->Ok_0.payload@ == crate::world::demo_payload(players));
}

/// Whether a list shows every player of a world once, in ascending order of identity, as it stands.
pub open spec fn shows_world(world: WorldView, players: Seq<DemoSnapshotPlayer>) -> bool {
    &&& forall|i: int, j: int|
        0 <= i < j < players.len() ==> (#[trigger] players[i]).player_id < (
        #[trigger] players[j]).player_id
    &&& forall|i: int|
        0 <= i < players.len() ==> {
            let player = #[trigger] players[i];
            &&& world.players.contains_key(player.player_id)
            &&& player.x == world.players[player.player_id].x
            &&& player.y == world.players[player.player_id].y
            &&& player.last_applied_sequence
                == world.players[player.player_id].last_applied_sequence
        }
    &&& forall|id: PlayerId| #[trigger]
        world.players.contains_key(id) ==> exists|i: int|
            0 <= i < players.len() && (#[trigger] players[i]).player_id == id
}

/// The payload that shows players: their number, then for each the identity, the two coordinates in
/// two's complement, and the sequence.
pub proof fn law_shown_layout(players: Seq<DemoSnapshotPlayer>, player: DemoSnapshotPlayer)
    ensures
        crate::world::demo_payload(Seq::empty()) == seq![0u8],
        crate::world::demo_payload(players.push(player)) == seq![
            ((players.len() + 1) % 256) as u8,
        ] + crate::world::demo_payload(players).skip(1) + crate::wire::be_bytes(
            player.player_id as nat,
            4,
        ) + crate::wire::be_bytes(((player.x + 65536) % 65536) as nat, 2)
            + crate::wire::be_bytes(((player.y + 65536) % 65536) as nat, 2)
            + crate::wire::be_bytes(player.last_applied_sequence as nat, 4),
{
    let none: Seq<DemoSnapshotPlayer> = Seq::empty();
    assert(crate::world::demo_payload(none) =~= seq![0u8]);
    assert(players.push(player).drop_last() =~= players);
    assert(crate::world::demo_payload(players).skip(1) =~= crate::world::all_shown_bytes(players));
    assert(crate::world::coordinate_word(player.x) == (player.x + 65536) % 65536);
    assert(crate::world::coordinate_word(player.y) == (player.y + 65536) % 65536);
    assert(crate::world::demo_payload(players.push(player)) =~= seq![
        ((players.len() + 1) % 256) as u8,
    ] + crate::world::demo_payload(players).skip(1) + crate::wire::be_bytes(
        player.player_id as nat,
        4,
    ) + crate::wire::be_bytes(((player.x + 65536) % 65536) as nat, 2)
        + crate::wire::be_bytes(((player.y + 65536) % 65536) as nat, 2)
        + crate::wire::be_bytes(player.last_applied_sequence as nat, 4));
}

/// Bytes show players exactly where some players, no more than the world holds, are shown so.
pub proof fn law_shown_payload_measures(payload: Seq<u8>)
    ensures
        crate::world::demo_payload_measures(payload) <==> payload.len() > 0 && payload[0] <= 16
            && payload.len() == 1 + 12 * payload[0],
{
}

/// What a client counts of a snapshot that it is sent: one of no later tick than the last is stale,
/// and every other counts, moves the last tick and tells how far the player's commands were
/// applied.
pub proof fn law_snapshots_are_counted(
    count: SnapshotCount,
    player_id: PlayerId,
    tick: u64,
    state_hash: u64,
    payload: Seq<u8>,
    post: SnapshotCount,
    result: Result<(), WorldError>,
)
    requires
        count.valid(),
        count.received < u64::MAX,
        payload.len() <= 65535,
        state_hash == crate::protocol::snapshot_digest(tick, payload),
        count.observes(
            player_id,
            crate::protocol::snapshot_bytes(tick, state_hash, payload),
            post,
            result,
        ),
    ensures
        post.received == count.received + 1,
        post.invalid == count.invalid,
        ({
            let late = count.last_tick is Some && tick <= count.last_tick->0;
            &&& late ==> result is Ok && post.stale == count.stale + 1 && post.accepted
                == count.accepted && post.first_tick == count.first_tick && post.last_tick
                == count.last_tick && post.final_applied_sequence == count.final_applied_sequence
            &&& !late ==> post.stale == count.stale && post.accepted == count.accepted + 1
                && post.last_tick == Some(tick) && post.first_tick == if count.first_tick is Some {
                count.first_tick
            } else {
                Some(tick)
            }
            &&& !late ==> (result is Ok <==> crate::world::demo_payload_measures(payload))
        }),
        post.final_applied_sequence >= count.final_applied_sequence,
{
    crate::protocol::law_snapshot_round_trip(tick, state_hash, payload);
}

/// How far a player's commands were applied is what the snapshot shows of the player, unless an
/// earlier one showed more.
pub proof fn law_applied_sequence_is_counted(
    count: SnapshotCount,
    player_id: PlayerId,
    tick: u64,
    players: Seq<DemoSnapshotPlayer>,
    index: int,
    post: SnapshotCount,
    result: Result<(), WorldError>,
)
    requires
        count.valid(),
        count.received < u64::MAX,
        count.last_tick is None || tick > count.last_tick->0,
        players.len() <= 16,
        0 <= index < players.len(),
        players[index].player_id == player_id,
        forall|i: int|
            0 <= i < players.len() && i != index ==> (#[trigger] players[i]).player_id
                != player_id,
        ({
            let payload = crate::world::demo_payload(players);
            count.observes(
                player_id,
                crate::protocol::snapshot_bytes(
                    tick,
                    crate::protocol::snapshot_digest(tick, payload),
                    payload,
                ),
                post,
                result,
            )
        }),
    ensures
        result is Ok,
        post.final_applied_sequence == if players[index].last_applied_sequence
            > count.final_applied_sequence {
            players[index].last_applied_sequence
        } else {
            count.final_applied_sequence
        },
{
    let payload = crate::world::demo_payload(players);
    let digest = crate::protocol::snapshot_digest(tick, payload);
    crate::world::law_demo_snapshot_round_trip(players);
    crate::protocol::law_snapshot_round_trip(tick, digest, payload);
    assert(crate::client::stands_at(players, player_id, index));
    let accepted = count.accepts(tick);
    assert(accepted.reads_players(player_id, payload, post, result));
}

/// Bytes that are no snapshot are counted as invalid and change nothing else.
pub proof fn law_invalid_datagrams_are_counted(
    count: SnapshotCount,
    player_id: PlayerId,
    datagram: Seq<u8>,
    post: SnapshotCount,
    result: Result<(), WorldError>,
)
    requires
        count.valid(),
        count.received < u64::MAX,
        crate::protocol::snapshot_fault(datagram) is Some,
        count.observes(player_id, datagram, post, result),
    ensures
        result is Ok,
        post.received == count.received + 1,
        post.invalid == count.invalid + 1,
        post.accepted == count.accepted,
        post.stale == count.stale,
        post.first_tick == count.first_tick,
        post.last_tick == count.last_tick,
        post.final_applied_sequence == count.final_applied_sequence,
{
}

/// What a client that watches sees in a snapshot: the first tick stays, the last is the snapshot's,
/// and the command was applied once some snapshot showed so; the watch is over where it was and the
/// match moved on.
pub proof fn law_progress_is_watched(
    watch: ProgressWatch,
    player_id: PlayerId,
    tick: u64,
    players: Seq<DemoSnapshotPlayer>,
    post: ProgressWatch,
    result: Result<bool, WorldError>,
)
    requires
        players.len() <= 16,
        ({
            let payload = crate::world::demo_payload(players);
            watch.watches(
                player_id,
                crate::protocol::snapshot_bytes(
                    tick,
                    crate::protocol::snapshot_digest(tick, payload),
                    payload,
                ),
                post,
                result,
            )
        }),
    ensures
        post.first_tick == if watch.first_tick is Some {
            watch.first_tick
        } else {
            Some(tick)
        },
        post.last_tick == Some(tick),
        post.applied <==> watch.applied || exists|i: int|
            0 <= i < players.len() && (#[trigger] players[i]).player_id == player_id
                && players[i].last_applied_sequence >= 1,
        result == Ok::<bool, WorldError>(post.applied && tick > post.first_tick->0),
{
    let payload = crate::world::demo_payload(players);
    let digest = crate::protocol::snapshot_digest(tick, payload);
    crate::world::law_demo_snapshot_round_trip(players);
    crate::protocol::law_snapshot_round_trip(tick, digest, payload);
    if exists|i: int|
        0 <= i < players.len() && (#[trigger] players[i]).player_id == player_id
            && players[i].last_applied_sequence >= 1 {
        let i = choose|i: int|
            0 <= i < players.len() && (#[trigger] players[i]).player_id == player_id
                && players[i].last_applied_sequence >= 1;
        assert(payload == crate::world::demo_payload(players) && players[i].player_id
            == player_id);
        assert(crate::client::shows_applied(payload, player_id));
    }
}

/// The reference game ticks twenty times a second, takes sixteen players, and starts at tick zero with
/// nobody in it; a player takes part exactly where the player stands somewhere.
pub proof fn law_world_begins(game: DemoSimulation, any: DemoSimulation, id: PlayerId)
    ensures
        any.rate() == 20,
        any.capacity() == 16,
        any.tick() == any@.tick,
        any.present(id) <==> any@.players.contains_key(id),
        call_ensures(DemoSimulation::new, (), game) ==> game@.tick == 0
            && !game@.players.contains_key(id),
{
}

} // verus!
