//! What a client that tries a server out keeps count of: the commands that it sends and the
//! snapshots that come back.

use crate::control::{
    CONTROL_FORMAT_VERSION, CONTROL_REQUEST_KIND, MAX_CONTROL_PAYLOAD_BYTES,
};
use crate::protocol::{decode_snapshot, PlayerId};
use crate::wire::push_be;
use crate::world::{decode_demo_snapshot, DemoSnapshotPlayer, WorldError};
use vstd::prelude::*;

verus! {

/// How many snapshots have to count before a trial can succeed.
pub const MIN_ACCEPTED_SNAPSHOTS: u64 = 3;

/// The last sequence of a run of commands, or why there is no such run.
pub fn final_sequence(start_sequence: u32, command_count: u32) -> (result: Result<
    u32,
    &'static str,
>)
    ensures
        match result {
            Ok(last) => start_sequence > 0 && command_count > 0 && last == start_sequence
                + command_count - 1,
            Err(text) => if start_sequence == 0 || command_count == 0 {
                text@ == "command count and start sequence must be non-zero"@
            } else {
                start_sequence + command_count - 1 > u32::MAX && text@
                    == "command sequence range overflow"@
            },
        },
{
    if command_count == 0 || start_sequence == 0 {
        return Err("command count and start sequence must be non-zero");
    }
    match start_sequence.checked_add(command_count - 1) {
        Some(last) => Ok(last),
        None => Err("command sequence range overflow"),
    }
}

/// Whether `index` is where a player first stands.
pub open spec fn stands_at(
    players: Seq<DemoSnapshotPlayer>,
    player_id: PlayerId,
    index: int,
) -> bool {
    &&& 0 <= index < players.len()
    &&& players[index].player_id == player_id
    &&& forall|i: int| 0 <= i < index ==> (#[trigger] players[i]).player_id != player_id
}

fn find_player(players: &Vec<DemoSnapshotPlayer>, player_id: PlayerId) -> (found: Option<usize>)
    ensures
        match found {
            Some(index) => stands_at(players@, player_id, index as int),
            None => forall|index: int| !#[trigger] stands_at(players@, player_id, index),
        },
{
    let mut i: usize = 0;
    while i < players.len()
        invariant
            i <= players@.len(),
            forall|j: int| 0 <= j < i ==> (#[trigger] players@[j]).player_id != player_id,
        decreases players@.len() - i,
    {
        if players[i].player_id == player_id {
            return Some(i);
        }
        i = i + 1;
    }
    None
}

/// The count of a trial so far.
#[derive(Clone, Copy, Debug, Eq, PartialEq)]
pub struct SnapshotCount {
    pub received: u64,
    pub accepted: u64,
    pub stale: u64,
    pub invalid: u64,
    pub first_tick: Option<u64>,
    pub last_tick: Option<u64>,
    pub final_applied_sequence: u32,
}

impl SnapshotCount {
    /// Every snapshot was accepted, stale or invalid; the ticks are known as soon as one was
    /// accepted, and the last is no earlier than the first.
    pub open spec fn valid(self) -> bool {
        &&& self.accepted + self.stale + self.invalid == self.received
        &&& self.first_tick is Some == self.last_tick is Some
        &&& self.first_tick is Some == (self.accepted > 0)
        &&& self.first_tick matches Some(first) ==> first <= self.last_tick->0
    }

    /// The count after a snapshot of a later tick, before its players are read.
    pub open spec fn accepts(self, tick: u64) -> SnapshotCount {
        SnapshotCount {
            received: (self.received + 1) as u64,
            accepted: (self.accepted + 1) as u64,
            first_tick: Some(
                match self.first_tick {
                    Some(first) => first,
                    None => tick,
                },
            ),
            last_tick: Some(tick),
            ..self
        }
    }

    /// Whether the players of an accepted snapshot may take the count to `post` with `result`.
    pub open spec fn reads_players(
        self,
        player_id: PlayerId,
        payload: Seq<u8>,
        post: SnapshotCount,
        result: Result<(), WorldError>,
    ) -> bool {
        if !crate::world::demo_payload_measures(payload) {
            post == self && result == Err::<(), _>(WorldError::InvalidSnapshotLength)
        } else {
            &&& result is Ok
            &&& exists|players: Seq<DemoSnapshotPlayer>|
                payload == #[trigger] crate::world::demo_payload(players) && players.len()
                    <= crate::world::DEMO_MAX_PLAYERS && (if exists|index: int| #[trigger] stands_at(players, player_id, index) {
                    exists|index: int| #[trigger]
                        stands_at(players, player_id, index) && post == SnapshotCount {
                            final_applied_sequence: if players[index].last_applied_sequence
                                > self.final_applied_sequence {
                                players[index].last_applied_sequence
                            } else {
                                self.final_applied_sequence
                            },
                            ..self
                        }
                } else {
                    post == self
                })
        }
    }

    /// Whether a datagram may take the count to `post` with `result`.
    pub open spec fn observes(
        self,
        player_id: PlayerId,
        datagram: Seq<u8>,
        post: SnapshotCount,
        result: Result<(), WorldError>,
    ) -> bool {
        if crate::protocol::snapshot_fault(datagram) is Some {
            result is Ok && post == SnapshotCount {
                received: (self.received + 1) as u64,
                invalid: (self.invalid + 1) as u64,
                ..self
            }
        } else {
            exists|tick: u64, state_hash: u64, payload: Seq<u8>|
                datagram == #[trigger] crate::protocol::snapshot_bytes(tick, state_hash, payload)
                    && if self.last_tick matches Some(last) && tick <= last {
                    result is Ok && post == SnapshotCount {
                        received: (self.received + 1) as u64,
                        stale: (self.stale + 1) as u64,
                        ..self
                    }
                } else {
                    self.accepts(tick).reads_players(player_id, payload, post, result)
                }
        }
    }

    /// A count of nothing yet.
    pub fn new() -> (count: Self)
        ensures
            count.valid(),
            count.received == 0,
            count.final_applied_sequence == 0,
    {
        SnapshotCount {
            received: 0,
            accepted: 0,
            stale: 0,
            invalid: 0,
            first_tick: None,
            last_tick: None,
            final_applied_sequence: 0,
        }
    }

    /// Counts a datagram.
    pub fn observe(&mut self, player_id: PlayerId, datagram: &[u8]) -> (result: Result<
        (),
        WorldError,
    >)
        requires
            old(self).valid(),
            old(self).received < u64::MAX,
        ensures
            final(self).valid(),
            old(self).observes(player_id, datagram@, *final(self), result),
    {
        let ghost pre = *self;
        self.received = self.received + 1;
        let snapshot = match decode_snapshot(datagram) {
            Ok(snapshot) => snapshot,
            Err(_) => {
                self.invalid = self.invalid + 1;
                return Ok(());
            },
        };
        assert(datagram@ == crate::protocol::snapshot_bytes(
            snapshot.tick,
            snapshot.state_hash,
            snapshot.payload@,
        ));
        if let Some(last) = self.last_tick {
            if snapshot.tick <= last {
                self.stale = self.stale + 1;
                return Ok(());
            }
        }
        if self.first_tick.is_none() {
            self.first_tick = Some(snapshot.tick);
        }
        self.last_tick = Some(snapshot.tick);
        self.accepted = self.accepted + 1;
        let ghost accepted = *self;
        assert(accepted == pre.accepts(snapshot.tick));
        let players = match decode_demo_snapshot(snapshot.payload.as_slice()) {
            Ok(players) => players,
            Err(error) => {
                assert(accepted.reads_players(
                    player_id,
                    snapshot.payload@,
                    *self,
                    Err::<(), WorldError>(error),
                ));
                return Err(error);
            },
        };
        assert(snapshot.payload@ == crate::world::demo_payload(players@));
        if let Some(index) = find_player(&players, player_id) {
            assert(stands_at(players@, player_id, index as int));
            if players[index].last_applied_sequence > self.final_applied_sequence {
                self.final_applied_sequence = players[index].last_applied_sequence;
            }
        }
        assert(accepted.reads_players(
            player_id,
            snapshot.payload@,
            *self,
            Ok::<(), WorldError>(()),
        ));
        Ok(())
    }

    /// Whether nothing more has to be waited for.
    pub fn is_settled(&self, last_sent: u32) -> (settled: bool)
        ensures
            settled == (self.final_applied_sequence == last_sent && self.accepted
                >= MIN_ACCEPTED_SNAPSHOTS),
    {
        self.final_applied_sequence == last_sent && self.accepted >= MIN_ACCEPTED_SNAPSHOTS
    }

    /// Whether the match moved on while it was watched.
    pub fn progressed(&self) -> (progressed: bool)
        ensures
            progressed == (self.first_tick is Some && self.last_tick is Some && self.last_tick->0
                > self.first_tick->0),
    {
        match (self.first_tick, self.last_tick) {
            (Some(first), Some(last)) => last > first,
            _ => false,
        }
    }

    /// Whether a trial that sent commands up to `last_sent` went as it should.
    pub fn expectations_hold(&self, last_sent: u32) -> (hold: bool)
        ensures
            hold == (self.received >= MIN_ACCEPTED_SNAPSHOTS && self.accepted
                >= MIN_ACCEPTED_SNAPSHOTS && self.invalid == 0 && self.first_tick is Some
                && self.last_tick is Some && self.last_tick->0 > self.first_tick->0
                && self.final_applied_sequence == last_sent),
    {
        self.received >= MIN_ACCEPTED_SNAPSHOTS && self.accepted >= MIN_ACCEPTED_SNAPSHOTS
            && self.invalid == 0 && self.progressed() && self.final_applied_sequence == last_sent
    }
}

/// What a client watches for while it holds a control stream open: that the match moves on and that
/// its command is applied.
#[derive(Clone, Copy, Debug, Eq, PartialEq)]
pub struct ProgressWatch {
    pub first_tick: Option<u64>,
    pub last_tick: Option<u64>,
    pub applied: bool,
}

/// Whether a payload shows a command of a player applied.
pub open spec fn shows_applied(payload: Seq<u8>, player_id: PlayerId) -> bool {
    exists|players: Seq<DemoSnapshotPlayer>, index: int|
        #![trigger crate::world::demo_payload(players), players[index]]
        payload == crate::world::demo_payload(players) && players.len()
            <= crate::world::DEMO_MAX_PLAYERS && 0 <= index < players.len()
            && players[index].player_id == player_id && players[index].last_applied_sequence >= 1
}

impl ProgressWatch {
    /// The watch after a snapshot of that tick, before its players are read.
    pub open spec fn sees(self, tick: u64) -> ProgressWatch {
        ProgressWatch {
            first_tick: Some(
                match self.first_tick {
                    Some(first) => first,
                    None => tick,
                },
            ),
            last_tick: Some(tick),
            ..self
        }
    }

    /// Whether a datagram may take the watch to `post` with `result`, which tells whether nothing
    /// more has to be waited for.
    pub open spec fn watches(
        self,
        player_id: PlayerId,
        datagram: Seq<u8>,
        post: ProgressWatch,
        result: Result<bool, WorldError>,
    ) -> bool {
        if crate::protocol::snapshot_fault(datagram) is Some {
            result == Ok::<bool, WorldError>(false) && post == self
        } else {
            exists|tick: u64, state_hash: u64, payload: Seq<u8>|
                datagram == #[trigger] crate::protocol::snapshot_bytes(tick, state_hash, payload)
                    && if !crate::world::demo_payload_measures(payload) {
                    result == Err::<bool, _>(WorldError::InvalidSnapshotLength) && post
                        == self.sees(tick)
                } else {
                    &&& post == ProgressWatch {
                        applied: self.applied || shows_applied(payload, player_id),
                        ..self.sees(tick)
                    }
                    &&& result == Ok::<bool, WorldError>(
                        post.applied && tick > self.sees(tick).first_tick->0,
                    )
                }
        }
    }

    /// A watch that has seen nothing yet.
    pub fn new() -> (watch: Self)
        ensures
            watch == (ProgressWatch { first_tick: None, last_tick: None, applied: false }),
    {
        ProgressWatch { first_tick: None, last_tick: None, applied: false }
    }

    /// Takes a datagram in.
    pub fn observe(&mut self, player_id: PlayerId, datagram: &[u8]) -> (result: Result<
        bool,
        WorldError,
    >)
        ensures
            old(self).watches(player_id, datagram@, *final(self), result),
    {
        let ghost pre = *self;
        let snapshot = match decode_snapshot(datagram) {
            Ok(snapshot) => snapshot,
            Err(_) => {
                return Ok(false);
            },
        };
        assert(datagram@ == crate::protocol::snapshot_bytes(
            snapshot.tick,
            snapshot.state_hash,
            snapshot.payload@,
        ));
        let first: u64 = match self.first_tick {
            Some(first) => first,
            None => snapshot.tick,
        };
        self.first_tick = Some(first);
        self.last_tick = Some(snapshot.tick);
        let players = match decode_demo_snapshot(snapshot.payload.as_slice()) {
            Ok(players) => players,
            Err(error) => {
                return Err(error);
            },
        };
        assert(snapshot.payload@ == crate::world::demo_payload(players@));
        let mut applied = false;
        let mut i: usize = 0;
        while i < players.len()
            invariant
                i <= players@.len(),
                applied == exists|j: int|
                    0 <= j < i && (#[trigger] players@[j]).player_id == player_id
                        && players@[j].last_applied_sequence >= 1,
            decreases players@.len() - i,
        {
            if players[i].player_id == player_id && players[i].last_applied_sequence >= 1 {
                applied = true;
            }
            i = i + 1;
        }
        proof {
            assert forall|others: Seq<DemoSnapshotPlayer>|
                snapshot.payload@ == #[trigger] crate::world::demo_payload(others) && others.len()
                    <= crate::world::DEMO_MAX_PLAYERS implies others == players@ by {
                crate::world::law_demo_snapshot_round_trip(players@);
            }
            assert(applied == shows_applied(snapshot.payload@, player_id));
        }
        self.applied = self.applied || applied;
        Ok(self.applied && snapshot.tick > first)
    }

    /// Whether the match moved on and the command was applied.
    pub fn succeeded(&self) -> (succeeded: bool)
        ensures
            succeeded == (self.applied && self.first_tick is Some && self.last_tick is Some
                && self.last_tick->0 > self.first_tick->0),
    {
        self.applied && match (self.first_tick, self.last_tick) {
            (Some(first), Some(last)) => last > first,
            _ => false,
        }
    }
}

/// The header of a control request that declares one byte more than fits.
pub fn oversized_control_header() -> (header: Vec<u8>)
    ensures
        header@ == crate::control::control_magic() + seq![CONTROL_REQUEST_KIND]
            + crate::wire::be_bytes((MAX_CONTROL_PAYLOAD_BYTES + 1) as nat, 2),
{
    let mut header: Vec<u8> = Vec::new();
    header.push(71);
    header.push(83);
    header.push(67);
    header.push(84);
    header.push(CONTROL_FORMAT_VERSION);
    header.push(CONTROL_REQUEST_KIND);
    assert(header@ =~= crate::control::control_magic() + seq![CONTROL_REQUEST_KIND]);
    push_be(&mut header, MAX_CONTROL_PAYLOAD_BYTES as u64 + 1, 2);
    header
}

} // verus!
