//! The reference game: players who walk on a bounded square.

use crate::ordered::ascending_keys;
use crate::protocol::PlayerId;
use crate::simulation::{GameSimulation, SimulationError, SimulationSnapshot};
use crate::text::push_decimal;
use crate::wire::{push_be, read_u16, read_u32};
use std::collections::BTreeMap;
use vstd::prelude::*;

verus! {

pub const DEMO_TICK_HZ: u16 = 20;

pub const DEMO_MAX_PLAYERS: usize = 16;

pub const WORLD_LIMIT: i16 = 10_000;

pub const STEP_UNITS: i16 = 64;

pub const DEMO_COMMAND_BYTES: usize = 2;

pub const DEMO_PLAYER_BYTES: usize = 12;

#[derive(Clone, Copy, Debug, PartialEq, Eq)]
pub struct DemoSnapshotPlayer {
    pub player_id: PlayerId,
    pub x: i16,
    pub y: i16,
    pub last_applied_sequence: u32,
}

#[derive(Clone, Debug, PartialEq, Eq)]
pub enum WorldError {
    InvalidPlayerId,
    DuplicatePlayer(PlayerId),
    PlayerCapacity,
    UnknownPlayer(PlayerId),
    InvalidCommandLength(usize),
    InvalidAxis { horizontal: i8, vertical: i8 },
    InvalidSnapshotLength,
    TickExhausted,
}

/// The decimal spelling of a number that may be negative.
pub open spec fn signed_decimal(value: int) -> Seq<char> {
    if value < 0 {
        "-"@ + crate::text::decimal((-value) as nat)
    } else {
        crate::text::decimal(value as nat)
    }
}

fn push_signed(out: &mut String, value: i8)
    ensures
        final(out)@ == old(out)@ + signed_decimal(value as int),
{
    if value < 0 {
        out.push_str("-");
        push_decimal(out, (-(value as i64)) as u64);
    } else {
        push_decimal(out, value as u64);
    }
    assert(out@ =~= old(out)@ + signed_decimal(value as int));
}

impl WorldError {
    /// The sentence that describes the error.
    pub open spec fn message(self) -> Seq<char> {
        match self {
            WorldError::InvalidPlayerId => "player id zero is reserved"@,
            WorldError::DuplicatePlayer(player_id) => "player "@ + crate::text::decimal(
                player_id as nat,
            ) + " already exists"@,
            WorldError::PlayerCapacity => "demo world has reached player capacity"@,
            WorldError::UnknownPlayer(player_id) => "unknown player "@ + crate::text::decimal(
                player_id as nat,
            ),
            WorldError::InvalidCommandLength(actual) => "demo command must be 2 bytes, received "@
                + crate::text::decimal(actual as nat),
            WorldError::InvalidAxis { horizontal, vertical } =>
                "demo axes must each be between -1 and 1, got ("@ + signed_decimal(
                horizontal as int,
            ) + ", "@ + signed_decimal(vertical as int) + ")"@,
            WorldError::InvalidSnapshotLength => "invalid demo snapshot payload length"@,
            WorldError::TickExhausted => "tick counter is exhausted"@,
        }
    }

    pub fn to_string(&self) -> (text: String)
        ensures
            text@ == self.message(),
    {
        match self {
            WorldError::InvalidPlayerId => "player id zero is reserved".to_owned(),
            WorldError::DuplicatePlayer(player_id) => {
                let mut text = "player ".to_owned();
                push_decimal(&mut text, *player_id as u64);
                text.push_str(" already exists");
                text
            },
            WorldError::PlayerCapacity => "demo world has reached player capacity".to_owned(),
            WorldError::UnknownPlayer(player_id) => {
                let mut text = "unknown player ".to_owned();
                push_decimal(&mut text, *player_id as u64);
                text
            },
            WorldError::InvalidCommandLength(actual) => {
                let mut text = "demo command must be 2 bytes, received ".to_owned();
                push_decimal(&mut text, *actual as u64);
                text
            },
            WorldError::InvalidAxis { horizontal, vertical } => {
                let mut text = "demo axes must each be between -1 and 1, got (".to_owned();
                push_signed(&mut text, *horizontal);
                text.push_str(", ");
                push_signed(&mut text, *vertical);
                text.push_str(")");
                text
            },
            WorldError::InvalidSnapshotLength => "invalid demo snapshot payload length".to_owned(),
            WorldError::TickExhausted => "tick counter is exhausted".to_owned(),
        }
    }
}

/// Where a player stands, which way the player walks, and up to which command.
#[derive(Clone, Copy, Debug, PartialEq, Eq)]
pub struct PlayerRecord {
    pub x: i16,
    pub y: i16,
    pub horizontal: i8,
    pub vertical: i8,
    pub last_received_sequence: u32,
    pub last_applied_sequence: u32,
}

/// The value of a byte read as a signed number.
pub open spec fn signed_byte(byte: u8) -> int {
    if byte >= 128 {
        byte - 256
    } else {
        byte as int
    }
}

/// The byte that spells a small signed number.
pub open spec fn byte_of(value: i8) -> u8 {
    if value < 0 {
        (value + 256) as u8
    } else {
        value as u8
    }
}

/// The two's complement of a coordinate.
pub open spec fn coordinate_word(value: i16) -> nat {
    if value < 0 {
        (value + 65536) as nat
    } else {
        value as nat
    }
}

/// The nearest coordinate inside the world.
pub open spec fn clamped(value: int) -> i16 {
    if value < -WORLD_LIMIT {
        (-WORLD_LIMIT) as i16
    } else if value > WORLD_LIMIT {
        WORLD_LIMIT
    } else {
        value as i16
    }
}

/// A new player, on the grid of starting places.
pub open spec fn spawned(player_id: PlayerId) -> PlayerRecord {
    PlayerRecord {
        x: ((player_id as int % 8) * 256 - 896) as i16,
        y: ((player_id as int / 8 % 8) * 256 - 896) as i16,
        horizontal: 0,
        vertical: 0,
        last_received_sequence: 0,
        last_applied_sequence: 0,
    }
}

/// A player one tick later.
pub open spec fn moved(player: PlayerRecord) -> PlayerRecord {
    PlayerRecord {
        x: clamped(player.x + player.horizontal * STEP_UNITS),
        y: clamped(player.y + player.vertical * STEP_UNITS),
        last_applied_sequence: player.last_received_sequence,
        ..player
    }
}

/// What a snapshot shows of a player.
pub open spec fn shown(player_id: PlayerId, player: PlayerRecord) -> DemoSnapshotPlayer {
    DemoSnapshotPlayer {
        player_id,
        x: player.x,
        y: player.y,
        last_applied_sequence: player.last_applied_sequence,
    }
}

/// The binary form of a shown player.
pub open spec fn shown_bytes(player: DemoSnapshotPlayer) -> Seq<u8> {
    crate::wire::be_bytes(player.player_id as nat, 4) + crate::wire::be_bytes(
        coordinate_word(player.x),
        2,
    ) + crate::wire::be_bytes(coordinate_word(player.y), 2) + crate::wire::be_bytes(
        player.last_applied_sequence as nat,
        4,
    )
}

/// The binary forms of shown players, one after the other.
pub open spec fn all_shown_bytes(players: Seq<DemoSnapshotPlayer>) -> Seq<u8>
    decreases players.len(),
{
    if players.len() == 0 {
        Seq::empty()
    } else {
        all_shown_bytes(players.drop_last()) + shown_bytes(players.last())
    }
}

/// The payload that shows the given players: their number, then each of them.
pub open spec fn demo_payload(players: Seq<DemoSnapshotPlayer>) -> Seq<u8> {
    seq![(players.len() % 256) as u8] + all_shown_bytes(players)
}

/// The state of the world.
#[verifier::ext_equal]
pub struct WorldView {
    pub tick: u64,
    pub players: Map<PlayerId, PlayerRecord>,
}

impl WorldView {
    pub open spec fn add_refusal(self, player_id: PlayerId) -> Option<WorldError> {
        if player_id == 0 {
            Some(WorldError::InvalidPlayerId)
        } else if self.players.contains_key(player_id) {
            Some(WorldError::DuplicatePlayer(player_id))
        } else if self.players.dom().len() >= DEMO_MAX_PLAYERS {
            Some(WorldError::PlayerCapacity)
        } else {
            None
        }
    }

    pub open spec fn with_player(self, player_id: PlayerId) -> WorldView {
        WorldView { players: self.players.insert(player_id, spawned(player_id)), ..self }
    }

    pub open spec fn command_refusal(self, player_id: PlayerId, payload: Seq<u8>) -> Option<
        WorldError,
    > {
        if payload.len() != DEMO_COMMAND_BYTES {
            Some(WorldError::InvalidCommandLength(payload.len() as usize))
        } else if !(-1 <= signed_byte(payload[0]) <= 1 && -1 <= signed_byte(payload[1]) <= 1) {
            Some(
                WorldError::InvalidAxis {
                    horizontal: signed_byte(payload[0]) as i8,
                    vertical: signed_byte(payload[1]) as i8,
                },
            )
        } else if !self.players.contains_key(player_id) {
            Some(WorldError::UnknownPlayer(player_id))
        } else {
            None
        }
    }

    pub open spec fn commanded(
        self,
        player_id: PlayerId,
        sequence: u32,
        payload: Seq<u8>,
    ) -> WorldView {
        WorldView {
            players: self.players.insert(
                player_id,
                PlayerRecord {
                    horizontal: signed_byte(payload[0]) as i8,
                    vertical: signed_byte(payload[1]) as i8,
                    last_received_sequence: sequence,
                    ..self.players[player_id]
                },
            ),
            ..self
        }
    }

    /// The world one tick later.
    pub open spec fn advanced(self) -> WorldView {
        WorldView {
            tick: (self.tick + 1) as u64,
            players: self.players.map_values(|player: PlayerRecord| moved(player)),
        }
    }

    /// The players that a snapshot shows, in ascending order of identity.
    pub open spec fn all_shown(self) -> Seq<DemoSnapshotPlayer> {
        crate::ordered::in_order(self.players.dom()).map_values(
            |id: PlayerId| shown(id, self.players[id]),
        )
    }
}

/// How the world's answer to an operation reads as a game's answer. A refusal changes nothing.
pub open spec fn answers(
    refusal: Option<WorldError>,
    pre: DemoSimulation,
    next: WorldView,
    post: DemoSimulation,
    result: Result<(), SimulationError>,
) -> bool {
    match result {
        Ok(_) => refusal is None && post@ == next,
        Err(error) => refusal is Some && error@ == refusal->0.message() && post == pre,
    }
}

#[derive(Clone, Debug)]
struct DemoWorld {
    tick: u64,
    players: BTreeMap<PlayerId, PlayerRecord>,
}

impl View for DemoWorld {
    type V = WorldView;

    closed spec fn view(&self) -> WorldView {
        WorldView { tick: self.tick, players: self.players@ }
    }
}

fn signed_of(byte: u8) -> (value: i8)
    ensures
        value == signed_byte(byte),
{
    if byte >= 128 {
        (byte as i16 - 256) as i8
    } else {
        byte as i8
    }
}

fn word_of(value: i16) -> (word: u16)
    ensures
        word == coordinate_word(value),
{
    if value < 0 {
        (value as i32 + 65536) as u16
    } else {
        value as u16
    }
}

fn clamp_coordinate(value: i32) -> (coordinate: i16)
    ensures
        coordinate == clamped(value as int),
{
    if value < -10_000 {
        -10_000
    } else if value > 10_000 {
        10_000
    } else {
        value as i16
    }
}

fn spawn_position(player_id: PlayerId) -> (position: (i16, i16))
    ensures
        position.0 == spawned(player_id).x,
        position.1 == spawned(player_id).y,
{
    let lane: i32 = (player_id % 8) as i32;
    let row: i32 = (player_id / 8 % 8) as i32;
    ((lane * 256 - 896) as i16, (row * 256 - 896) as i16)
}

impl DemoWorld {
    fn add_player(&mut self, player_id: PlayerId) -> (result: Result<(), WorldError>)
        ensures
            match result {
                Ok(_) => old(self)@.add_refusal(player_id) is None && final(self)@ == old(
                    self,
                )@.with_player(player_id),
                Err(error) => old(self)@.add_refusal(player_id) == Some(error) && *final(self)
                    == *old(self),
            },
    {
        if player_id == 0 {
            return Err(WorldError::InvalidPlayerId);
        }
        if self.players.contains_key(&player_id) {
            return Err(WorldError::DuplicatePlayer(player_id));
        }
        if self.players.len() >= DEMO_MAX_PLAYERS {
            return Err(WorldError::PlayerCapacity);
        }
        let (x, y) = spawn_position(player_id);
        self.players.insert(
            player_id,
            PlayerRecord {
                x,
                y,
                horizontal: 0,
                vertical: 0,
                last_received_sequence: 0,
                last_applied_sequence: 0,
            },
        );
        Ok(())
    }

    fn remove_player(&mut self, player_id: PlayerId) -> (removed: bool)
        ensures
            removed == old(self)@.players.contains_key(player_id),
            final(self)@ == (WorldView {
                players: old(self)@.players.remove(player_id),
                ..old(self)@
            }),
    {
        self.players.remove(&player_id).is_some()
    }

    fn apply_command(&mut self, player_id: PlayerId, sequence: u32, payload: &[u8]) -> (result:
        Result<(), WorldError>)
        ensures
            match result {
                Ok(_) => old(self)@.command_refusal(player_id, payload@) is None && final(self)@
                    == old(self)@.commanded(player_id, sequence, payload@),
                Err(error) => old(self)@.command_refusal(player_id, payload@) == Some(error)
                    && *final(self) == *old(self),
            },
    {
        if payload.len() != DEMO_COMMAND_BYTES {
            return Err(WorldError::InvalidCommandLength(payload.len()));
        }
        let horizontal: i8 = signed_of(payload[0]);
        let vertical: i8 = signed_of(payload[1]);
        if horizontal < -1 || horizontal > 1 || vertical < -1 || vertical > 1 {
            return Err(WorldError::InvalidAxis { horizontal, vertical });
        }
        let player: PlayerRecord = match self.players.get(&player_id) {
            Some(player) => *player,
            None => {
                return Err(WorldError::UnknownPlayer(player_id));
            },
        };
        self.players.insert(
            player_id,
            PlayerRecord {
                x: player.x,
                y: player.y,
                horizontal,
                vertical,
                last_received_sequence: sequence,
                last_applied_sequence: player.last_applied_sequence,
            },
        );
        Ok(())
    }

    fn advance_tick(&mut self) -> (result: Result<(), WorldError>)
        ensures
            match result {
                Ok(_) => old(self)@.tick < u64::MAX && final(self)@ == old(self)@.advanced(),
                Err(error) => old(self)@.tick == u64::MAX && error == WorldError::TickExhausted
                    && *final(self) == *old(self),
            },
    {
        let tick: u64 = match self.tick.checked_add(1) {
            Some(tick) => tick,
            None => {
                return Err(WorldError::TickExhausted);
            },
        };
        self.tick = tick;
        let keys = ascending_keys(&self.players);
        let ghost before = old(self)@.players;
        let mut i: usize = 0;
        while i < keys.len()
            invariant
                i <= keys.len(),
                crate::ordered::ascending(keys@, before.dom()),
                self.tick == old(self)@.tick + 1,
                self.players@.dom() == before.dom(),
                forall|j: int|
                    0 <= j < keys@.len() ==> self.players@[#[trigger] keys@[j]] == if j < i {
                        moved(before[keys@[j]])
                    } else {
                        before[keys@[j]]
                    },
            decreases keys.len() - i,
        {
            let key: PlayerId = keys[i];
            assert(keys@.contains(key));
            if let Some(found) = self.players.get(&key) {
                let player: PlayerRecord = *found;
                let x: i16 = clamp_coordinate(player.x as i32 + player.horizontal as i32 * 64);
                let y: i16 = clamp_coordinate(player.y as i32 + player.vertical as i32 * 64);
                self.players.insert(
                    key,
                    PlayerRecord {
                        x,
                        y,
                        horizontal: player.horizontal,
                        vertical: player.vertical,
                        last_received_sequence: player.last_received_sequence,
                        last_applied_sequence: player.last_received_sequence,
                    },
                );
            }
            proof {
                assert(self.players@.dom() =~= before.dom());
            }
            i = i + 1;
        }
        proof {
            let next = old(self)@.advanced();
            assert forall|id: PlayerId| before.contains_key(id) implies #[trigger] self.players@[id]
                == next.players[id] by {
                assert(keys@.contains(id));
            }
            assert(self.players@ =~= next.players);
        }
        Ok(())
    }

    fn snapshot_payload(&self) -> (payload: Vec<u8>)
        ensures
            payload@ == demo_payload(self@.all_shown()),
    {
        let keys = ascending_keys(&self.players);
        let ghost all = self@.all_shown();
        let mut payload: Vec<u8> = Vec::new();
        payload.push((keys.len() % 256) as u8);
        let mut i: usize = 0;
        assert(all.len() == keys@.len());
        assert(all.take(0) =~= Seq::<DemoSnapshotPlayer>::empty());
        let ghost count = seq![(all.len() % 256) as u8];
        assert(payload@ =~= count + all_shown_bytes(all.take(0)));
        while i < keys.len()
            invariant
                i <= keys.len(),
                keys@ == crate::ordered::in_order(self@.players.dom()),
                crate::ordered::ascending(keys@, self@.players.dom()),
                all == self@.all_shown(),
                payload@ == count + all_shown_bytes(all.take(i as int)),
            decreases keys.len() - i,
        {
            let key: PlayerId = keys[i];
            assert(keys@.contains(key));
            if let Some(player) = self.players.get(&key) {
                push_be(&mut payload, key as u64, 4);
                push_be(&mut payload, word_of(player.x) as u64, 2);
                push_be(&mut payload, word_of(player.y) as u64, 2);
                push_be(&mut payload, player.last_applied_sequence as u64, 4);
            }
            i = i + 1;
            proof {
                assert(all.take(i as int).drop_last() =~= all.take(i - 1));
                assert(all.take(i as int).last() == shown(key, self@.players[key]));
                assert(payload@ =~= count + all_shown_bytes(all.take(i as int)));
            }
        }
        assert(all.take(i as int) =~= all);
        payload
    }
}

#[derive(Clone, Debug)]
pub struct DemoSimulation {
    world: DemoWorld,
}

impl View for DemoSimulation {
    type V = WorldView;

    closed spec fn view(&self) -> WorldView {
        self.world@
    }
}

impl Default for DemoSimulation {
    fn default() -> (simulation: Self)
        ensures
            simulation@ == (WorldView { tick: 0, players: Map::empty() }),
    {
        DemoSimulation { world: DemoWorld { tick: 0, players: BTreeMap::new() } }
    }
}

impl DemoSimulation {
    pub fn new() -> (simulation: Self)
        ensures
            simulation@ == (WorldView { tick: 0, players: Map::empty() }),
    {
        Self::default()
    }
}

fn refused(result: Result<(), WorldError>) -> (answer: Result<(), SimulationError>)
    ensures
        match result {
            Ok(_) => answer is Ok,
            Err(error) => answer matches Err(refusal) && refusal@ == error.message(),
        },
{
    match result {
        Ok(_) => Ok(()),
        Err(error) => Err(SimulationError::in_words(error.to_string())),
    }
}

impl GameSimulation for DemoSimulation {
    open spec fn rate(&self) -> u16 {
        DEMO_TICK_HZ
    }

    open spec fn capacity(&self) -> usize {
        DEMO_MAX_PLAYERS
    }

    open spec fn tick(&self) -> u64 {
        self@.tick
    }

    open spec fn present(&self, player_id: PlayerId) -> bool {
        self@.players.contains_key(player_id)
    }

    open spec fn alike(a: Self, b: Self) -> bool {
        a@ == b@
    }

    open spec fn added(
        pre: Self,
        player_id: PlayerId,
        post: Self,
        result: Result<(), SimulationError>,
    ) -> bool {
        answers(pre@.add_refusal(player_id), pre, pre@.with_player(player_id), post, result)
    }

    open spec fn removed(
        pre: Self,
        player_id: PlayerId,
        post: Self,
        result: Result<bool, SimulationError>,
    ) -> bool {
        &&& result matches Ok(removed)
        &&& removed == pre@.players.contains_key(player_id)
        &&& post@ == (WorldView { players: pre@.players.remove(player_id), ..pre@ })
    }

    open spec fn commanded(
        pre: Self,
        player_id: PlayerId,
        sequence: u32,
        payload: Seq<u8>,
        post: Self,
        result: Result<(), SimulationError>,
    ) -> bool {
        answers(
            pre@.command_refusal(player_id, payload),
            pre,
            pre@.commanded(player_id, sequence, payload),
            post,
            result,
        )
    }

    open spec fn advanced(pre: Self, post: Self, result: Result<(), SimulationError>) -> bool {
        answers(
            if pre@.tick == u64::MAX {
                Some(WorldError::TickExhausted)
            } else {
                None
            },
            pre,
            pre@.advanced(),
            post,
            result,
        )
    }

    fn tick_hz(&self) -> (rate: u16) {
        DEMO_TICK_HZ
    }

    fn max_players(&self) -> (capacity: usize) {
        DEMO_MAX_PLAYERS
    }

    fn current_tick(&self) -> (tick: u64) {
        self.world.tick
    }

    fn add_player(&mut self, player_id: PlayerId) -> (result: Result<(), SimulationError>) {
        refused(self.world.add_player(player_id))
    }

    fn remove_player(&mut self, player_id: PlayerId) -> (removed: bool)
        ensures
            Self::removed(*old(self), player_id, *final(self), Ok(removed)),
    {
        self.world.remove_player(player_id)
    }

    fn apply_command(&mut self, player_id: PlayerId, sequence: u32, payload: &[u8]) -> (result:
        Result<(), SimulationError>) {
        refused(self.world.apply_command(player_id, sequence, payload))
    }

    fn advance_tick(&mut self) -> (result: Result<(), SimulationError>) {
        refused(self.world.advance_tick())
    }

    fn snapshot(&self) -> (result: Result<SimulationSnapshot, SimulationError>)
        ensures
            result matches Ok(snapshot) && snapshot.tick == self@.tick && snapshot.payload@
                == demo_payload(self@.all_shown()) && snapshot.state_hash
                == crate::protocol::snapshot_digest(snapshot.tick, snapshot.payload@),
    {
        Ok(SimulationSnapshot::new(self.world.tick, self.world.snapshot_payload()))
    }
}

/// The payload of a step in the given directions.
pub fn encode_demo_command(horizontal: i8, vertical: i8) -> (result: Result<[u8; 2], WorldError>)
    ensures
        match result {
            Ok(payload) => -1 <= horizontal <= 1 && -1 <= vertical <= 1 && payload@ == seq![
                byte_of(horizontal),
                byte_of(vertical),
            ],
            Err(error) => !(-1 <= horizontal <= 1 && -1 <= vertical <= 1) && error
                == (WorldError::InvalidAxis { horizontal, vertical }),
        },
{
    if horizontal < -1 || horizontal > 1 || vertical < -1 || vertical > 1 {
        return Err(WorldError::InvalidAxis { horizontal, vertical });
    }
    let first: u8 = if horizontal < 0 {
        255
    } else {
        horizontal as u8
    };
    let second: u8 = if vertical < 0 {
        255
    } else {
        vertical as u8
    };
    let payload = [first, second];
    assert(payload@ =~= seq![byte_of(horizontal), byte_of(vertical)]);
    Ok(payload)
}

/// Whether a payload has the length that its count announces, and no more players than the world
/// holds.
pub open spec fn demo_payload_measures(payload: Seq<u8>) -> bool {
    &&& payload.len() > 0
    &&& payload[0] <= DEMO_MAX_PLAYERS
    &&& payload.len() == 1 + payload[0] * DEMO_PLAYER_BYTES
}

fn coordinate_of(word: u16) -> (value: i16)
    ensures
        coordinate_word(value) == word,
{
    if word >= 32768 {
        (word as i32 - 65536) as i16
    } else {
        word as i16
    }
}

/// Reads the players that a snapshot of the reference game shows.
pub fn decode_demo_snapshot(payload: &[u8]) -> (result: Result<Vec<DemoSnapshotPlayer>, WorldError>)
    ensures
        match result {
            Ok(players) => demo_payload_measures(payload@) && players@.len() <= DEMO_MAX_PLAYERS
                && payload@ == demo_payload(players@),
            Err(error) => !demo_payload_measures(payload@) && error
                == WorldError::InvalidSnapshotLength,
        },
{
    if payload.len() == 0 {
        return Err(WorldError::InvalidSnapshotLength);
    }
    let count: usize = payload[0] as usize;
    if count > DEMO_MAX_PLAYERS || payload.len() - 1 != count * DEMO_PLAYER_BYTES {
        return Err(WorldError::InvalidSnapshotLength);
    }
    let mut players: Vec<DemoSnapshotPlayer> = Vec::with_capacity(count);
    let mut index: usize = 0;
    assert(payload@.subrange(1, 1) =~= all_shown_bytes(players@));
    while index < count
        invariant
            index <= count <= DEMO_MAX_PLAYERS,
            payload.len() == 1 + count * DEMO_PLAYER_BYTES,
            players@.len() == index,
            payload@.subrange(1, 1 + index * DEMO_PLAYER_BYTES) == all_shown_bytes(players@),
        decreases count - index,
    {
        let offset: usize = 1 + index * DEMO_PLAYER_BYTES;
        let player = DemoSnapshotPlayer {
            player_id: read_u32(payload, offset),
            x: coordinate_of(read_u16(payload, offset + 4)),
            y: coordinate_of(read_u16(payload, offset + 6)),
            last_applied_sequence: read_u32(payload, offset + 8),
        };
        let ghost before = players@;
        players.push(player);
        index = index + 1;
        proof {
            crate::wire::lemma_be_bytes_of_value(payload@.subrange(offset as int, offset + 4));
            crate::wire::lemma_be_bytes_of_value(payload@.subrange(offset + 4, offset + 6));
            crate::wire::lemma_be_bytes_of_value(payload@.subrange(offset + 6, offset + 8));
            crate::wire::lemma_be_bytes_of_value(payload@.subrange(offset + 8, offset + 12));
            assert(payload@.subrange(offset as int, offset + 12) =~= shown_bytes(player));
            assert(players@.drop_last() =~= before);
            assert(payload@.subrange(1, offset + 12) =~= payload@.subrange(1, offset as int)
                + shown_bytes(player));
        }
    }
    assert(payload@ =~= demo_payload(players@));
    Ok(players)
}

/// The reference game is deterministic: the same players, commands and ticks give the same state and
/// the same snapshot.
pub proof fn law_demo_is_deterministic()
    ensures
        crate::replay::deterministic::<DemoSimulation>(),
{
    assert forall|
        a: DemoSimulation,
        b: DemoSimulation,
        result_a: Result<SimulationSnapshot, SimulationError>,
        result_b: Result<SimulationSnapshot, SimulationError>,
    |
        DemoSimulation::alike(a, b) && #[trigger] crate::simulation::snapshots(a, result_a)
            && #[trigger] crate::simulation::snapshots(b, result_b) implies (result_a is Ok
        <==> result_b is Ok) && (result_a is Ok ==> result_a->Ok_0@ == result_b->Ok_0@) by {
        assert(result_a->Ok_0@ =~= result_b->Ok_0@);
    }
}

/// A command's payload carries its directions: the world walks the way that was encoded.
pub proof fn law_demo_command_round_trip(
    world: WorldView,
    player_id: PlayerId,
    sequence: u32,
    horizontal: i8,
    vertical: i8,
)
    requires
        -1 <= horizontal <= 1,
        -1 <= vertical <= 1,
        world.players.contains_key(player_id),
    ensures
        ({
            let payload = seq![byte_of(horizontal), byte_of(vertical)];
            let after = world.commanded(player_id, sequence, payload);
            &&& world.command_refusal(player_id, payload) is None
            &&& after.players[player_id].horizontal == horizontal
            &&& after.players[player_id].vertical == vertical
            &&& after.players[player_id].last_received_sequence == sequence
        }),
{
}

/// No player leaves the world: a start is inside, and a tick keeps everybody inside.
pub proof fn law_players_stay_in_the_world(world: WorldView, player_id: PlayerId)
    ensures
        -WORLD_LIMIT <= spawned(player_id).x <= WORLD_LIMIT,
        -WORLD_LIMIT <= spawned(player_id).y <= WORLD_LIMIT,
        world.players.contains_key(player_id) ==> {
            &&& -WORLD_LIMIT <= world.advanced().players[player_id].x <= WORLD_LIMIT
            &&& -WORLD_LIMIT <= world.advanced().players[player_id].y <= WORLD_LIMIT
        },
{
}

proof fn lemma_all_shown_len(players: Seq<DemoSnapshotPlayer>)
    ensures
        all_shown_bytes(players).len() == DEMO_PLAYER_BYTES * players.len(),
    decreases players.len(),
{
    broadcast use crate::wire::lemma_be_bytes_len;

    if players.len() > 0 {
        lemma_all_shown_len(players.drop_last());
    }
}

proof fn lemma_all_shown_injective(a: Seq<DemoSnapshotPlayer>, b: Seq<DemoSnapshotPlayer>)
    requires
        a.len() == b.len(),
        all_shown_bytes(a) == all_shown_bytes(b),
    ensures
        a == b,
    decreases a.len(),
{
    broadcast use crate::wire::lemma_be_bytes_len, crate::wire::lemma_be_round_trip;

    if a.len() > 0 {
        crate::wire::lemma_pow256();
        lemma_all_shown_len(a.drop_last());
        lemma_all_shown_len(b.drop_last());
        let cut = DEMO_PLAYER_BYTES * (a.len() - 1);
        let run_a = shown_bytes(a.last());
        let run_b = shown_bytes(b.last());
        assert(all_shown_bytes(a.drop_last()) =~= all_shown_bytes(a).take(cut));
        assert(all_shown_bytes(b.drop_last()) =~= all_shown_bytes(b).take(cut));
        assert(run_a =~= all_shown_bytes(a).skip(cut));
        assert(run_b =~= all_shown_bytes(b).skip(cut));
        lemma_all_shown_injective(a.drop_last(), b.drop_last());
        assert(run_a.subrange(0, 4) =~= crate::wire::be_bytes(a.last().player_id as nat, 4));
        assert(run_b.subrange(0, 4) =~= crate::wire::be_bytes(b.last().player_id as nat, 4));
        assert(run_a.subrange(4, 6) =~= crate::wire::be_bytes(coordinate_word(a.last().x), 2));
        assert(run_b.subrange(4, 6) =~= crate::wire::be_bytes(coordinate_word(b.last().x), 2));
        assert(run_a.subrange(6, 8) =~= crate::wire::be_bytes(coordinate_word(a.last().y), 2));
        assert(run_b.subrange(6, 8) =~= crate::wire::be_bytes(coordinate_word(b.last().y), 2));
        assert(run_a.subrange(8, 12) =~= crate::wire::be_bytes(
            a.last().last_applied_sequence as nat,
            4,
        ));
        assert(run_b.subrange(8, 12) =~= crate::wire::be_bytes(
            b.last().last_applied_sequence as nat,
            4,
        ));
        assert(a =~= a.drop_last().push(a.last()));
        assert(b =~= b.drop_last().push(b.last()));
    } else {
        assert(a =~= b);
    }
}

/// A payload that shows no more players than the world holds is read back as those players, and no
/// other players have that payload.
pub proof fn law_demo_snapshot_round_trip(players: Seq<DemoSnapshotPlayer>)
    requires
        players.len() <= DEMO_MAX_PLAYERS,
    ensures
        demo_payload_measures(demo_payload(players)),
        forall|other: Seq<DemoSnapshotPlayer>|
            other.len() <= DEMO_MAX_PLAYERS && #[trigger] demo_payload(other) == demo_payload(
                players,
            ) ==> other == players,
{
    lemma_all_shown_len(players);
    let payload = demo_payload(players);
    assert forall|other: Seq<DemoSnapshotPlayer>|
        other.len() <= DEMO_MAX_PLAYERS && #[trigger] demo_payload(other) == payload implies other
        == players by {
        assert(demo_payload(other)[0] == payload[0]);
        assert(all_shown_bytes(other) =~= demo_payload(other).skip(1));
        assert(all_shown_bytes(players) =~= payload.skip(1));
        lemma_all_shown_injective(other, players);
    }
}

} // verus!
