//! Replay evidence: the append-only record of what a match accepted, its binary form, and the one
//! interpreter that turns a record back into a game state.

use crate::protocol::{
    snapshot_hash, PlayerId, MAX_COMMAND_PAYLOAD_BYTES, MAX_SNAPSHOT_PAYLOAD_BYTES,
};
use crate::simulation::{GameSimulation, SimulationError, SimulationSnapshot, SnapshotView};
use crate::text::{push_decimal, push_hex};
use crate::wire::{push_all, push_be, read_u32, read_u64, same_bytes};
use std::collections::BTreeMap;
use vstd::prelude::*;
use vstd::slice::{slice_subrange, slice_to_vec};

verus! {

pub const REPLAY_FORMAT_VERSION: u8 = 1;

pub const REPLAY_HEADER_BYTES: usize = 5;

pub const RECORD_HEADER_BYTES: usize = 13;

pub const ADMISSION_KIND: u8 = 1;

pub const COMMAND_KIND: u8 = 2;

pub const REMOVAL_KIND: u8 = 3;

pub const CHECKPOINT_KIND: u8 = 4;

pub const PLAYER_BODY_BYTES: usize = 4;

pub const COMMAND_FIXED_BODY_BYTES: usize = 12;

pub const CHECKPOINT_FIXED_BODY_BYTES: usize = 12;

pub const MAX_REPLAY_BODY_BYTES: usize = 65547;

/// How far ahead of the game a record may lie: the next tick.
pub const MAX_VERIFIER_TICK_GAP: u64 = 1;

/// One accepted event.
#[derive(Debug, Eq, PartialEq)]
pub enum ReplayRecord {
    PlayerAdmitted { tick: u64, player_id: PlayerId },
    CommandApplied { tick: u64, player_id: PlayerId, sequence: u32, payload: Vec<u8> },
    PlayerRemoved { tick: u64, player_id: PlayerId },
    Checkpoint { snapshot: SimulationSnapshot },
}

/// What a record says.
#[verifier::ext_equal]
pub enum RecordView {
    PlayerAdmitted { tick: u64, player_id: PlayerId },
    CommandApplied { tick: u64, player_id: PlayerId, sequence: u32, payload: Seq<u8> },
    PlayerRemoved { tick: u64, player_id: PlayerId },
    Checkpoint { snapshot: SnapshotView },
}

impl RecordView {
    /// The tick at which the event was accepted.
    pub open spec fn at(self) -> u64 {
        match self {
            RecordView::PlayerAdmitted { tick, .. } => tick,
            RecordView::CommandApplied { tick, .. } => tick,
            RecordView::PlayerRemoved { tick, .. } => tick,
            RecordView::Checkpoint { snapshot } => snapshot.tick,
        }
    }

    pub open spec fn kind(self) -> u8 {
        match self {
            RecordView::PlayerAdmitted { .. } => ADMISSION_KIND,
            RecordView::CommandApplied { .. } => COMMAND_KIND,
            RecordView::PlayerRemoved { .. } => REMOVAL_KIND,
            RecordView::Checkpoint { .. } => CHECKPOINT_KIND,
        }
    }

    /// The bytes that follow a record's header.
    pub open spec fn body(self) -> Seq<u8> {
        match self {
            RecordView::PlayerAdmitted { player_id, .. } => crate::wire::be_bytes(
                player_id as nat,
                4,
            ),
            RecordView::CommandApplied { player_id, sequence, payload, .. } =>
                crate::wire::be_bytes(player_id as nat, 4) + crate::wire::be_bytes(
                sequence as nat,
                4,
            ) + crate::wire::be_bytes(payload.len(), 4) + payload,
            RecordView::PlayerRemoved { player_id, .. } => crate::wire::be_bytes(
                player_id as nat,
                4,
            ),
            RecordView::Checkpoint { snapshot } => crate::wire::be_bytes(
                snapshot.state_hash as nat,
                8,
            ) + crate::wire::be_bytes(snapshot.payload.len(), 4) + snapshot.payload,
        }
    }

    /// The binary form of a record: kind, tick, body length, body.
    pub open spec fn bytes(self) -> Seq<u8> {
        seq![self.kind()] + crate::wire::be_bytes(self.at() as nat, 8) + crate::wire::be_bytes(
            self.body().len(),
            4,
        ) + self.body()
    }

    /// Why a record has no binary form, if it has none.
    pub open spec fn refusal(self) -> Option<ReplayError> {
        match self {
            RecordView::CommandApplied { sequence, payload, .. } => if sequence == 0 {
                Some(ReplayError::InvalidSequence)
            } else if payload.len() > MAX_COMMAND_PAYLOAD_BYTES {
                Some(
                    ReplayError::PayloadTooLarge {
                        maximum: MAX_COMMAND_PAYLOAD_BYTES,
                        actual: payload.len() as usize,
                    },
                )
            } else {
                None
            },
            RecordView::Checkpoint { snapshot } => {
                let digest = crate::protocol::snapshot_digest(snapshot.tick, snapshot.payload);
                if snapshot.payload.len() > MAX_SNAPSHOT_PAYLOAD_BYTES {
                    Some(
                        ReplayError::PayloadTooLarge {
                            maximum: MAX_SNAPSHOT_PAYLOAD_BYTES,
                            actual: snapshot.payload.len() as usize,
                        },
                    )
                } else if snapshot.state_hash != digest {
                    Some(
                        ReplayError::InvalidCheckpointHash {
                            tick: snapshot.tick,
                            expected: digest,
                            actual: snapshot.state_hash,
                        },
                    )
                } else {
                    None
                }
            },
            _ => None,
        }
    }
}

impl View for ReplayRecord {
    type V = RecordView;

    open spec fn view(&self) -> RecordView {
        match self {
            ReplayRecord::PlayerAdmitted { tick, player_id } => RecordView::PlayerAdmitted {
                tick: *tick,
                player_id: *player_id,
            },
            ReplayRecord::CommandApplied { tick, player_id, sequence, payload } =>
                RecordView::CommandApplied {
                tick: *tick,
                player_id: *player_id,
                sequence: *sequence,
                payload: payload@,
            },
            ReplayRecord::PlayerRemoved { tick, player_id } => RecordView::PlayerRemoved {
                tick: *tick,
                player_id: *player_id,
            },
            ReplayRecord::Checkpoint { snapshot } => RecordView::Checkpoint { snapshot: snapshot@ },
        }
    }
}

impl Clone for ReplayRecord {
    fn clone(&self) -> (copy: Self)
        ensures
            copy@ == self@,
    {
        match self {
            ReplayRecord::PlayerAdmitted { tick, player_id } => ReplayRecord::PlayerAdmitted {
                tick: *tick,
                player_id: *player_id,
            },
            ReplayRecord::CommandApplied { tick, player_id, sequence, payload } => {
                let copied = slice_to_vec(payload.as_slice());
                ReplayRecord::CommandApplied {
                    tick: *tick,
                    player_id: *player_id,
                    sequence: *sequence,
                    payload: copied,
                }
            },
            ReplayRecord::PlayerRemoved { tick, player_id } => ReplayRecord::PlayerRemoved {
                tick: *tick,
                player_id: *player_id,
            },
            ReplayRecord::Checkpoint { snapshot } => ReplayRecord::Checkpoint {
                snapshot: snapshot.clone(),
            },
        }
    }
}

impl ReplayRecord {
    pub fn tick(&self) -> (tick: u64)
        ensures
            tick == self@.at(),
    {
        match self {
            ReplayRecord::PlayerAdmitted { tick, .. } => *tick,
            ReplayRecord::CommandApplied { tick, .. } => *tick,
            ReplayRecord::PlayerRemoved { tick, .. } => *tick,
            ReplayRecord::Checkpoint { snapshot } => snapshot.tick,
        }
    }
}

#[derive(Clone, Debug, Eq, PartialEq)]
pub enum ReplayError {
    InvalidMagic,
    UnsupportedVersion(u8),
    UnknownRecordKind(u8),
    Truncated,
    RecordTooLarge(usize),
    InvalidRecordLength { kind: u8, expected: usize, actual: usize },
    InvalidSequence,
    NonIncreasingPlayerId { previous: PlayerId, actual: PlayerId },
    UnknownCommandPlayer(PlayerId),
    NonIncreasingSequence { player_id: PlayerId, previous: u32, actual: u32 },
    PayloadTooLarge { maximum: usize, actual: usize },
    InvalidCheckpointHash { tick: u64, expected: u64, actual: u64 },
    NonMonotonicTick { previous: u64, actual: u64 },
    TickGapTooLarge { from_tick: u64, to_tick: u64, maximum: u64 },
    ReplayStartsBeforeSimulation { simulation_tick: u64, record_tick: u64 },
    MissingPlayerOnRemoval(PlayerId),
    CheckpointMismatch { tick: u64, expected_hash: u64, actual_hash: u64 },
    CheckpointPayloadMismatch(u64),
    Simulation(SimulationError),
}

impl ReplayError {
    /// The sentence that describes the error.
    pub open spec fn message(self) -> Seq<char> {
        match self {
            ReplayError::InvalidMagic => "invalid replay log magic"@,
            ReplayError::UnsupportedVersion(version) => "unsupported replay format version "@
                + crate::text::decimal(version as nat),
            ReplayError::UnknownRecordKind(kind) => "unknown replay record kind "@
                + crate::text::decimal(kind as nat),
            ReplayError::Truncated => "truncated replay log"@,
            ReplayError::RecordTooLarge(size) => "replay record body is too large: "@
                + crate::text::decimal(size as nat),
            ReplayError::InvalidRecordLength { kind, expected, actual } => "replay record kind "@
                + crate::text::decimal(kind as nat) + " expected "@ + crate::text::decimal(
                expected as nat,
            ) + " body bytes, received "@ + crate::text::decimal(actual as nat),
            ReplayError::InvalidSequence => "replay command sequence must be non-zero"@,
            ReplayError::NonIncreasingPlayerId { previous, actual } => "replay player ID "@
                + crate::text::decimal(actual as nat)
                + " must be greater than previously admitted ID "@ + crate::text::decimal(
                previous as nat,
            ),
            ReplayError::UnknownCommandPlayer(player_id) =>
                "replay command addressed inactive player "@ + crate::text::decimal(
                player_id as nat,
            ),
            ReplayError::NonIncreasingSequence { player_id, previous, actual } =>
                "replay command sequence "@ + crate::text::decimal(actual as nat) + " for player "@
                + crate::text::decimal(player_id as nat) + " must exceed "@ + crate::text::decimal(
                previous as nat,
            ),
            ReplayError::PayloadTooLarge { maximum, actual } => "replay payload size "@
                + crate::text::decimal(actual as nat) + " exceeds maximum "@
                + crate::text::decimal(maximum as nat),
            ReplayError::InvalidCheckpointHash { tick, expected, actual } => "replay checkpoint "@
                + crate::text::decimal(tick as nat) + " hash mismatch: expected 0x"@
                + crate::text::hex(expected as nat, 16) + ", got 0x"@ + crate::text::hex(
                actual as nat,
                16,
            ),
            ReplayError::NonMonotonicTick { previous, actual } =>
                "replay tick moved backward from "@ + crate::text::decimal(previous as nat)
                + " to "@ + crate::text::decimal(actual as nat),
            ReplayError::TickGapTooLarge { from_tick, to_tick, maximum } =>
                "replay tick gap from "@ + crate::text::decimal(from_tick as nat) + " to "@
                + crate::text::decimal(to_tick as nat) + " exceeds maximum "@
                + crate::text::decimal(maximum as nat),
            ReplayError::ReplayStartsBeforeSimulation { simulation_tick, record_tick } =>
                "replay record tick "@ + crate::text::decimal(record_tick as nat)
                + " precedes simulation tick "@ + crate::text::decimal(simulation_tick as nat),
            ReplayError::MissingPlayerOnRemoval(player_id) =>
                "replay attempted to remove missing player "@ + crate::text::decimal(
                player_id as nat,
            ),
            ReplayError::CheckpointMismatch { tick, expected_hash, actual_hash } =>
                "replay diverged at checkpoint "@ + crate::text::decimal(tick as nat)
                + ": expected 0x"@ + crate::text::hex(expected_hash as nat, 16) + ", got 0x"@
                + crate::text::hex(actual_hash as nat, 16),
            ReplayError::CheckpointPayloadMismatch(tick) =>
                "replay payload diverged at checkpoint "@ + crate::text::decimal(tick as nat),
            ReplayError::Simulation(error) => "replay simulation failed: "@ + error@,
        }
    }

    pub fn to_string(&self) -> (text: String)
        ensures
            text@ == self.message(),
    {
        match self {
            ReplayError::InvalidMagic => "invalid replay log magic".to_owned(),
            ReplayError::UnsupportedVersion(version) => {
                let mut text = "unsupported replay format version ".to_owned();
                push_decimal(&mut text, *version as u64);
                text
            },
            ReplayError::UnknownRecordKind(kind) => {
                let mut text = "unknown replay record kind ".to_owned();
                push_decimal(&mut text, *kind as u64);
                text
            },
            ReplayError::Truncated => "truncated replay log".to_owned(),
            ReplayError::RecordTooLarge(size) => {
                let mut text = "replay record body is too large: ".to_owned();
                push_decimal(&mut text, *size as u64);
                text
            },
            ReplayError::InvalidRecordLength { kind, expected, actual } => {
                let mut text = "replay record kind ".to_owned();
                push_decimal(&mut text, *kind as u64);
                text.push_str(" expected ");
                push_decimal(&mut text, *expected as u64);
                text.push_str(" body bytes, received ");
                push_decimal(&mut text, *actual as u64);
                text
            },
            ReplayError::InvalidSequence => "replay command sequence must be non-zero".to_owned(),
            ReplayError::NonIncreasingPlayerId { previous, actual } => {
                let mut text = "replay player ID ".to_owned();
                push_decimal(&mut text, *actual as u64);
                text.push_str(" must be greater than previously admitted ID ");
                push_decimal(&mut text, *previous as u64);
                text
            },
            ReplayError::UnknownCommandPlayer(player_id) => {
                let mut text = "replay command addressed inactive player ".to_owned();
                push_decimal(&mut text, *player_id as u64);
                text
            },
            ReplayError::NonIncreasingSequence { player_id, previous, actual } => {
                let mut text = "replay command sequence ".to_owned();
                push_decimal(&mut text, *actual as u64);
                text.push_str(" for player ");
                push_decimal(&mut text, *player_id as u64);
                text.push_str(" must exceed ");
                push_decimal(&mut text, *previous as u64);
                text
            },
            ReplayError::PayloadTooLarge { maximum, actual } => {
                let mut text = "replay payload size ".to_owned();
                push_decimal(&mut text, *actual as u64);
                text.push_str(" exceeds maximum ");
                push_decimal(&mut text, *maximum as u64);
                text
            },
            ReplayError::InvalidCheckpointHash { tick, expected, actual } => {
                let mut text = "replay checkpoint ".to_owned();
                push_decimal(&mut text, *tick);
                text.push_str(" hash mismatch: expected 0x");
                push_hex(&mut text, *expected, 16);
                text.push_str(", got 0x");
                push_hex(&mut text, *actual, 16);
                text
            },
            ReplayError::NonMonotonicTick { previous, actual } => {
                let mut text = "replay tick moved backward from ".to_owned();
                push_decimal(&mut text, *previous);
                text.push_str(" to ");
                push_decimal(&mut text, *actual);
                text
            },
            ReplayError::TickGapTooLarge { from_tick, to_tick, maximum } => {
                let mut text = "replay tick gap from ".to_owned();
                push_decimal(&mut text, *from_tick);
                text.push_str(" to ");
                push_decimal(&mut text, *to_tick);
                text.push_str(" exceeds maximum ");
                push_decimal(&mut text, *maximum);
                text
            },
            ReplayError::ReplayStartsBeforeSimulation { simulation_tick, record_tick } => {
                let mut text = "replay record tick ".to_owned();
                push_decimal(&mut text, *record_tick);
                text.push_str(" precedes simulation tick ");
                push_decimal(&mut text, *simulation_tick);
                text
            },
            ReplayError::MissingPlayerOnRemoval(player_id) => {
                let mut text = "replay attempted to remove missing player ".to_owned();
                push_decimal(&mut text, *player_id as u64);
                text
            },
            ReplayError::CheckpointMismatch { tick, expected_hash, actual_hash } => {
                let mut text = "replay diverged at checkpoint ".to_owned();
                push_decimal(&mut text, *tick);
                text.push_str(": expected 0x");
                push_hex(&mut text, *expected_hash, 16);
                text.push_str(", got 0x");
                push_hex(&mut text, *actual_hash, 16);
                text
            },
            ReplayError::CheckpointPayloadMismatch(tick) => {
                let mut text = "replay payload diverged at checkpoint ".to_owned();
                push_decimal(&mut text, *tick);
                text
            },
            ReplayError::Simulation(error) => {
                let mut text = "replay simulation failed: ".to_owned();
                text.push_str(error.to_string().as_str());
                text
            },
        }
    }
}

impl From<SimulationError> for ReplayError {
    fn from(error: SimulationError) -> (converted: Self) {
        ReplayError::Simulation(error)
    }
}

impl vstd::std_specs::convert::FromSpecImpl<SimulationError> for ReplayError {
    open spec fn obeys_from_spec() -> bool {
        true
    }

    open spec fn from_spec(error: SimulationError) -> Self {
        ReplayError::Simulation(error)
    }
}

/// What records say, in order.
pub open spec fn record_views(records: Seq<ReplayRecord>) -> Seq<RecordView> {
    records.map_values(|record: ReplayRecord| record@)
}

/// `GSRP` and the format version.
pub open spec fn replay_header() -> Seq<u8> {
    seq![71u8, 83u8, 82u8, 80u8, REPLAY_FORMAT_VERSION]
}

/// The binary forms of records, one after the other.
pub open spec fn records_bytes(records: Seq<RecordView>) -> Seq<u8>
    decreases records.len(),
{
    if records.len() == 0 {
        Seq::empty()
    } else {
        records_bytes(records.drop_last()) + records.last().bytes()
    }
}

/// The binary form of a log.
pub open spec fn log_bytes(records: Seq<RecordView>) -> Seq<u8> {
    replay_header() + records_bytes(records)
}

/// Why records have no binary form, the earliest reason first.
pub open spec fn records_refusal(records: Seq<RecordView>) -> Option<ReplayError>
    decreases records.len(),
{
    if records.len() == 0 {
        None
    } else if records_refusal(records.drop_last()) is Some {
        records_refusal(records.drop_last())
    } else {
        records.last().refusal()
    }
}

/// Whether no record lies before an earlier one.
pub open spec fn in_tick_order(records: Seq<RecordView>) -> bool {
    forall|i: int, j: int| 0 <= i <= j < records.len() ==> records[i].at() <= records[j].at()
}

/// The first rule that a record's body breaks, if it breaks one.
pub open spec fn record_fault(kind: u8, tick: u64, body: Seq<u8>) -> Option<ReplayError> {
    let payload_len = crate::wire::be_value(body.subrange(8, 12));
    if kind == ADMISSION_KIND || kind == REMOVAL_KIND {
        body_length_fault(kind, body, PLAYER_BODY_BYTES)
    } else if kind == COMMAND_KIND {
        if body.len() < COMMAND_FIXED_BODY_BYTES {
            body_length_fault(kind, body, COMMAND_FIXED_BODY_BYTES)
        } else if crate::wire::be_value(body.subrange(4, 8)) == 0 {
            Some(ReplayError::InvalidSequence)
        } else if payload_len > MAX_COMMAND_PAYLOAD_BYTES {
            Some(
                ReplayError::PayloadTooLarge {
                    maximum: MAX_COMMAND_PAYLOAD_BYTES,
                    actual: payload_len as usize,
                },
            )
        } else {
            body_length_fault(kind, body, (COMMAND_FIXED_BODY_BYTES + payload_len) as usize)
        }
    } else if kind == CHECKPOINT_KIND {
        let state_hash = crate::wire::be_value(body.subrange(0, 8)) as u64;
        let payload = body.subrange(CHECKPOINT_FIXED_BODY_BYTES as int, body.len() as int);
        if body.len() < CHECKPOINT_FIXED_BODY_BYTES {
            body_length_fault(kind, body, CHECKPOINT_FIXED_BODY_BYTES)
        } else if payload_len > MAX_SNAPSHOT_PAYLOAD_BYTES {
            Some(
                ReplayError::PayloadTooLarge {
                    maximum: MAX_SNAPSHOT_PAYLOAD_BYTES,
                    actual: payload_len as usize,
                },
            )
        } else if body.len() != CHECKPOINT_FIXED_BODY_BYTES + payload_len {
            body_length_fault(kind, body, (CHECKPOINT_FIXED_BODY_BYTES + payload_len) as usize)
        } else if state_hash != crate::protocol::snapshot_digest(tick, payload) {
            Some(
                ReplayError::InvalidCheckpointHash {
                    tick,
                    expected: crate::protocol::snapshot_digest(tick, payload),
                    actual: state_hash,
                },
            )
        } else {
            None
        }
    } else {
        Some(ReplayError::UnknownRecordKind(kind))
    }
}

/// What is wrong with the length of a body that has to have `expected` bytes.
pub open spec fn body_length_fault(kind: u8, body: Seq<u8>, expected: usize) -> Option<
    ReplayError,
> {
    if body.len() != expected {
        Some(
            ReplayError::InvalidRecordLength { kind, expected, actual: body.len() as usize },
        )
    } else {
        None
    }
}

/// The first rule that the records from `offset` on break, if they break one, where `previous` is
/// the tick of the record before.
pub open spec fn records_fault(bytes: Seq<u8>, offset: int, previous: Option<u64>) -> Option<
    ReplayError,
>
    decreases bytes.len() - offset,
{
    let kind = bytes[offset];
    let tick = crate::wire::be_value(bytes.subrange(offset + 1, offset + 9)) as u64;
    let body_len = crate::wire::be_value(bytes.subrange(offset + 9, offset + 13));
    let end = offset + RECORD_HEADER_BYTES + body_len;
    let body = bytes.subrange(offset + RECORD_HEADER_BYTES, end);
    if offset >= bytes.len() {
        None
    } else if bytes.len() - offset < RECORD_HEADER_BYTES {
        Some(ReplayError::Truncated)
    } else if body_len > MAX_REPLAY_BODY_BYTES {
        Some(ReplayError::RecordTooLarge(body_len as usize))
    } else if end > bytes.len() {
        Some(ReplayError::Truncated)
    } else if previous is Some && tick < previous->0 {
        Some(ReplayError::NonMonotonicTick { previous: previous->0, actual: tick })
    } else if record_fault(kind, tick, body) is Some {
        record_fault(kind, tick, body)
    } else {
        records_fault(bytes, end, Some(tick))
    }
}

/// The first rule that bytes break as a log, if they break one.
pub open spec fn log_fault(bytes: Seq<u8>) -> Option<ReplayError> {
    if bytes.len() < REPLAY_HEADER_BYTES {
        Some(ReplayError::Truncated)
    } else if bytes.subrange(0, 4) != replay_header().subrange(0, 4) {
        Some(ReplayError::InvalidMagic)
    } else if bytes[4] != REPLAY_FORMAT_VERSION {
        Some(ReplayError::UnsupportedVersion(bytes[4]))
    } else {
        records_fault(bytes, REPLAY_HEADER_BYTES as int, None)
    }
}

/// The accepted events of a match, in the order in which they were accepted.
#[derive(Debug, Eq, PartialEq)]
pub struct ReplayLog {
    records: Vec<ReplayRecord>,
}

impl View for ReplayLog {
    type V = Seq<RecordView>;

    closed spec fn view(&self) -> Seq<RecordView> {
        record_views(self.records@)
    }
}

impl Clone for ReplayLog {
    fn clone(&self) -> (copy: Self)
        ensures
            copy@ == self@,
    {
        let records = self.records.clone();
        assert forall|i: int| 0 <= i < self.records@.len() implies #[trigger] records@[i]@
            == self.records@[i]@ by {
            assert(cloned::<ReplayRecord>(self.records@[i], records@[i]));
        }
        assert(record_views(records@) =~= record_views(self.records@));
        ReplayLog { records }
    }
}

impl Default for ReplayLog {
    fn default() -> (log: Self)
        ensures
            log@ == Seq::<RecordView>::empty(),
    {
        let records: Vec<ReplayRecord> = Vec::new();
        assert(record_views(records@) =~= Seq::<RecordView>::empty());
        ReplayLog { records }
    }
}

impl ReplayLog {
    pub fn records(&self) -> (records: &[ReplayRecord])
        ensures
            record_views(records@) == self@,
    {
        self.records.as_slice()
    }

    /// Adds the event that was accepted last.
    pub fn append(&mut self, record: ReplayRecord)
        ensures
            final(self)@ == old(self)@.push(record@),
    {
        self.records.push(record);
        assert(record_views(self.records@) =~= record_views(old(self).records@).push(record@));
    }

    /// The binary form of the log.
    pub fn encode(&self) -> (result: Result<Vec<u8>, ReplayError>)
        ensures
            match result {
                Ok(bytes) => records_refusal(self@) is None && bytes@ == log_bytes(self@),
                Err(error) => records_refusal(self@) == Some(error),
            },
    {
        let mut bytes: Vec<u8> = Vec::new();
        bytes.push(71);
        bytes.push(83);
        bytes.push(82);
        bytes.push(80);
        bytes.push(REPLAY_FORMAT_VERSION);
        let ghost all = self@;
        let mut i: usize = 0;
        assert(all.take(0) =~= Seq::<RecordView>::empty());
        assert(bytes@ =~= log_bytes(all.take(0)));
        while i < self.records.len()
            invariant
                i <= self.records.len(),
                all == self@,
                all.len() == self.records@.len(),
                bytes@ == log_bytes(all.take(i as int)),
                records_refusal(all.take(i as int)) is None,
            decreases self.records.len() - i,
        {
            let ghost before = bytes@;
            assert(all[i as int] == self.records@[i as int]@);
            assert(all.take(i + 1).drop_last() =~= all.take(i as int));
            proof {
                lemma_earlier_refusal_stands(all, i + 1);
            }
            match encode_record(&self.records[i], &mut bytes) {
                Ok(_) => {},
                Err(error) => {
                    return Err(error);
                },
            }
            assert(bytes@ =~= log_bytes(all.take(i + 1)));
            i = i + 1;
        }
        assert(all.take(i as int) =~= all);
        Ok(bytes)
    }

    /// Reads a log from its binary form.
    pub fn decode(bytes: &[u8]) -> (result: Result<Self, ReplayError>)
        ensures
            match result {
                Ok(log) => {
                    &&& log_fault(bytes@) is None
                    &&& records_refusal(log@) is None
                    &&& in_tick_order(log@)
                    &&& bytes@ == log_bytes(log@)
                },
                Err(error) => log_fault(bytes@) == Some(error),
            },
    {
        if bytes.len() < REPLAY_HEADER_BYTES {
            return Err(ReplayError::Truncated);
        }
        if bytes[0] != 71 || bytes[1] != 83 || bytes[2] != 82 || bytes[3] != 80 {
            assert(bytes@.subrange(0, 4)[0] == bytes@[0]);
            assert(bytes@.subrange(0, 4)[1] == bytes@[1]);
            assert(bytes@.subrange(0, 4)[2] == bytes@[2]);
            assert(bytes@.subrange(0, 4)[3] == bytes@[3]);
            return Err(ReplayError::InvalidMagic);
        }
        assert(bytes@.subrange(0, 4) =~= replay_header().subrange(0, 4));
        if bytes[4] != REPLAY_FORMAT_VERSION {
            return Err(ReplayError::UnsupportedVersion(bytes[4]));
        }
        let mut offset: usize = REPLAY_HEADER_BYTES;
        let mut records: Vec<ReplayRecord> = Vec::new();
        let mut previous_tick: Option<u64> = None;
        proof {
            assert(record_views(records@) =~= Seq::<RecordView>::empty());
            assert(bytes@.take(offset as int) =~= log_bytes(record_views(records@)));
        }
        while offset < bytes.len()
            invariant
                REPLAY_HEADER_BYTES <= offset <= bytes.len(),
                log_fault(bytes@) == records_fault(bytes@, offset as int, previous_tick),
                bytes@.take(offset as int) == log_bytes(record_views(records@)),
                records_refusal(record_views(records@)) is None,
                in_tick_order(record_views(records@)),
                previous_tick is None <==> records@.len() == 0,
                previous_tick is Some ==> previous_tick->0 == record_views(records@).last().at(),
            decreases bytes.len() - offset,
        {
            if bytes.len() - offset < RECORD_HEADER_BYTES {
                return Err(ReplayError::Truncated);
            }
            let kind: u8 = bytes[offset];
            let tick: u64 = read_u64(bytes, offset + 1);
            let body_len: usize = read_u32(bytes, offset + 9) as usize;
            if body_len > MAX_REPLAY_BODY_BYTES {
                return Err(ReplayError::RecordTooLarge(body_len));
            }
            let body_start: usize = offset + RECORD_HEADER_BYTES;
            let body_end: usize = match body_start.checked_add(body_len) {
                Some(end) => end,
                None => {
                    return Err(ReplayError::Truncated);
                },
            };
            if body_end > bytes.len() {
                return Err(ReplayError::Truncated);
            }
            if let Some(previous) = previous_tick {
                if tick < previous {
                    return Err(ReplayError::NonMonotonicTick { previous, actual: tick });
                }
            }
            let record = match decode_record(kind, tick, slice_subrange(bytes, body_start, body_end)) {
                Ok(record) => record,
                Err(error) => {
                    return Err(error);
                },
            };
            let ghost before = record_views(records@);
            proof {
                crate::wire::lemma_be_bytes_of_value(bytes@.subrange(offset + 1, offset + 9));
                crate::wire::lemma_be_bytes_of_value(bytes@.subrange(offset + 9, offset + 13));
                assert(bytes@.subrange(offset as int, body_end as int) =~= record@.bytes());
                assert(bytes@.take(body_end as int) =~= bytes@.take(offset as int) + record@.bytes());
            }
            records.push(record);
            proof {
                let after = record_views(records@);
                assert(after =~= before.push(record@));
                assert(after.drop_last() =~= before);
                assert(log_bytes(after) =~= log_bytes(before) + record@.bytes());
                assert forall|i: int, j: int| 0 <= i <= j < after.len() implies after[i].at()
                    <= after[j].at() by {
                    if j == before.len() && i < j {
                        assert(before[i].at() <= before[before.len() - 1].at());
                    }
                }
            }
            previous_tick = Some(tick);
            offset = body_end;
        }
        assert(bytes@.take(offset as int) =~= bytes@);
        Ok(ReplayLog { records })
    }
}

/// A record that has no binary form keeps its log from having one.
proof fn lemma_earlier_refusal_stands(records: Seq<RecordView>, count: int)
    requires
        0 <= count <= records.len(),
    ensures
        records_refusal(records.take(count)) is Some ==> records_refusal(records)
            == records_refusal(records.take(count)),
    decreases records.len(),
{
    if count < records.len() {
        lemma_earlier_refusal_stands(records.drop_last(), count);
        assert(records.drop_last().take(count) =~= records.take(count));
    } else {
        assert(records.take(count) =~= records);
    }
}

/// The number of bytes in a record's body.
fn record_body_len(record: &ReplayRecord) -> (result: Result<usize, ReplayError>)
    ensures
        match result {
            Ok(length) => record@.refusal() is None && length == record@.body().len() && length
                <= MAX_REPLAY_BODY_BYTES,
            Err(error) => record@.refusal() == Some(error),
        },
{
    broadcast use crate::wire::lemma_be_bytes_len;

    match record {
        ReplayRecord::PlayerAdmitted { .. } => Ok(PLAYER_BODY_BYTES),
        ReplayRecord::PlayerRemoved { .. } => Ok(PLAYER_BODY_BYTES),
        ReplayRecord::CommandApplied { sequence, payload, .. } => {
            if *sequence == 0 {
                return Err(ReplayError::InvalidSequence);
            }
            if payload.len() > MAX_COMMAND_PAYLOAD_BYTES {
                return Err(
                    ReplayError::PayloadTooLarge {
                        maximum: MAX_COMMAND_PAYLOAD_BYTES,
                        actual: payload.len(),
                    },
                );
            }
            Ok(COMMAND_FIXED_BODY_BYTES + payload.len())
        },
        ReplayRecord::Checkpoint { snapshot } => {
            if snapshot.payload.len() > MAX_SNAPSHOT_PAYLOAD_BYTES {
                return Err(
                    ReplayError::PayloadTooLarge {
                        maximum: MAX_SNAPSHOT_PAYLOAD_BYTES,
                        actual: snapshot.payload.len(),
                    },
                );
            }
            let expected: u64 = snapshot_hash(snapshot.tick, snapshot.payload.as_slice());
            if snapshot.state_hash != expected {
                return Err(
                    ReplayError::InvalidCheckpointHash {
                        tick: snapshot.tick,
                        expected,
                        actual: snapshot.state_hash,
                    },
                );
            }
            Ok(CHECKPOINT_FIXED_BODY_BYTES + snapshot.payload.len())
        },
    }
}

/// Appends the binary form of a record.
fn encode_record(record: &ReplayRecord, output: &mut Vec<u8>) -> (result: Result<(), ReplayError>)
    ensures
        match result {
            Ok(_) => record@.refusal() is None && final(output)@ == old(output)@ + record@.bytes(),
            Err(error) => record@.refusal() == Some(error) && final(output)@ == old(output)@,
        },
{
    let body_len: usize = match record_body_len(record) {
        Ok(length) => length,
        Err(error) => {
            return Err(error);
        },
    };
    let kind: u8 = match record {
        ReplayRecord::PlayerAdmitted { .. } => ADMISSION_KIND,
        ReplayRecord::CommandApplied { .. } => COMMAND_KIND,
        ReplayRecord::PlayerRemoved { .. } => REMOVAL_KIND,
        ReplayRecord::Checkpoint { .. } => CHECKPOINT_KIND,
    };
    output.push(kind);
    push_be(output, record.tick(), 8);
    push_be(output, body_len as u64, 4);
    let ghost header = seq![kind] + crate::wire::be_bytes(record@.at() as nat, 8)
        + crate::wire::be_bytes(record@.body().len(), 4);
    assert(output@ =~= old(output)@ + header);
    match record {
        ReplayRecord::PlayerAdmitted { player_id, .. } => {
            push_be(output, *player_id as u64, 4);
        },
        ReplayRecord::PlayerRemoved { player_id, .. } => {
            push_be(output, *player_id as u64, 4);
        },
        ReplayRecord::CommandApplied { player_id, sequence, payload, .. } => {
            push_be(output, *player_id as u64, 4);
            push_be(output, *sequence as u64, 4);
            push_be(output, payload.len() as u64, 4);
            push_all(output, payload.as_slice());
        },
        ReplayRecord::Checkpoint { snapshot } => {
            push_be(output, snapshot.state_hash, 8);
            push_be(output, snapshot.payload.len() as u64, 4);
            push_all(output, snapshot.payload.as_slice());
        },
    }
    assert(output@ =~= old(output)@ + header + record@.body());
    assert(output@ =~= old(output)@ + record@.bytes());
    Ok(())
}

/// Reads a record whose header has been read.
fn decode_record(kind: u8, tick: u64, body: &[u8]) -> (result: Result<ReplayRecord, ReplayError>)
    ensures
        match result {
            Ok(record) => {
                &&& record_fault(kind, tick, body@) is None
                &&& record@.kind() == kind
                &&& record@.at() == tick
                &&& record@.body() == body@
                &&& record@.refusal() is None
            },
            Err(error) => record_fault(kind, tick, body@) == Some(error),
        },
{
    if kind == ADMISSION_KIND {
        if let Err(error) = require_body_length(kind, body, PLAYER_BODY_BYTES) {
            return Err(error);
        }
        let player_id: PlayerId = read_u32(body, 0);
        proof {
            crate::wire::lemma_be_bytes_of_value(body@.subrange(0, 4));
            assert(body@.subrange(0, 4) =~= body@);
        }
        Ok(ReplayRecord::PlayerAdmitted { tick, player_id })
    } else if kind == COMMAND_KIND {
        if body.len() < COMMAND_FIXED_BODY_BYTES {
            return Err(
                ReplayError::InvalidRecordLength {
                    kind,
                    expected: COMMAND_FIXED_BODY_BYTES,
                    actual: body.len(),
                },
            );
        }
        let player_id: PlayerId = read_u32(body, 0);
        let sequence: u32 = read_u32(body, 4);
        if sequence == 0 {
            return Err(ReplayError::InvalidSequence);
        }
        let payload_len: usize = read_u32(body, 8) as usize;
        if payload_len > MAX_COMMAND_PAYLOAD_BYTES {
            return Err(
                ReplayError::PayloadTooLarge {
                    maximum: MAX_COMMAND_PAYLOAD_BYTES,
                    actual: payload_len,
                },
            );
        }
        if let Err(error) = require_body_length(
            kind,
            body,
            COMMAND_FIXED_BODY_BYTES + payload_len,
        ) {
            return Err(error);
        }
        let payload = slice_to_vec(slice_subrange(body, COMMAND_FIXED_BODY_BYTES, body.len()));
        let record = ReplayRecord::CommandApplied { tick, player_id, sequence, payload };
        proof {
            crate::wire::lemma_be_bytes_of_value(body@.subrange(0, 4));
            crate::wire::lemma_be_bytes_of_value(body@.subrange(4, 8));
            crate::wire::lemma_be_bytes_of_value(body@.subrange(8, 12));
            assert(record@.body() =~= body@);
        }
        Ok(record)
    } else if kind == REMOVAL_KIND {
        if let Err(error) = require_body_length(kind, body, PLAYER_BODY_BYTES) {
            return Err(error);
        }
        let player_id: PlayerId = read_u32(body, 0);
        proof {
            crate::wire::lemma_be_bytes_of_value(body@.subrange(0, 4));
            assert(body@.subrange(0, 4) =~= body@);
        }
        Ok(ReplayRecord::PlayerRemoved { tick, player_id })
    } else if kind == CHECKPOINT_KIND {
        if body.len() < CHECKPOINT_FIXED_BODY_BYTES {
            return Err(
                ReplayError::InvalidRecordLength {
                    kind,
                    expected: CHECKPOINT_FIXED_BODY_BYTES,
                    actual: body.len(),
                },
            );
        }
        let state_hash: u64 = read_u64(body, 0);
        let payload_len: usize = read_u32(body, 8) as usize;
        if payload_len > MAX_SNAPSHOT_PAYLOAD_BYTES {
            return Err(
                ReplayError::PayloadTooLarge {
                    maximum: MAX_SNAPSHOT_PAYLOAD_BYTES,
                    actual: payload_len,
                },
            );
        }
        if let Err(error) = require_body_length(
            kind,
            body,
            CHECKPOINT_FIXED_BODY_BYTES + payload_len,
        ) {
            return Err(error);
        }
        let payload = slice_to_vec(slice_subrange(body, CHECKPOINT_FIXED_BODY_BYTES, body.len()));
        let expected_hash: u64 = snapshot_hash(tick, payload.as_slice());
        if state_hash != expected_hash {
            return Err(
                ReplayError::InvalidCheckpointHash {
                    tick,
                    expected: expected_hash,
                    actual: state_hash,
                },
            );
        }
        let record = ReplayRecord::Checkpoint {
            snapshot: SimulationSnapshot { tick, state_hash, payload },
        };
        proof {
            crate::wire::lemma_be_bytes_of_value(body@.subrange(0, 8));
            crate::wire::lemma_be_bytes_of_value(body@.subrange(8, 12));
            assert(record@.body() =~= body@);
        }
        Ok(record)
    } else {
        Err(ReplayError::UnknownRecordKind(kind))
    }
}

fn require_body_length(kind: u8, body: &[u8], expected: usize) -> (result: Result<(), ReplayError>)
    ensures
        match result {
            Ok(_) => body_length_fault(kind, body@, expected) is None,
            Err(error) => body_length_fault(kind, body@, expected) == Some(error),
        },
{
    if body.len() != expected {
        return Err(ReplayError::InvalidRecordLength { kind, expected, actual: body.len() });
    }
    Ok(())
}

/// What the runtime itself knows after a run of records, whatever the game is: the highest identity
/// it admitted, the last command sequence of each present player, and the last tick.
#[verifier::ext_equal]
pub struct Authority {
    pub highest_id: PlayerId,
    pub sequences: Map<PlayerId, u32>,
    pub last_tick: Option<u64>,
}

impl Authority {
    /// Why a record cannot come next for a game that stands at `game_tick`.
    pub open spec fn order_fault(self, record: RecordView, game_tick: u64) -> Option<ReplayError> {
        if self.last_tick is Some && record.at() < self.last_tick->0 {
            Some(
                ReplayError::NonMonotonicTick {
                    previous: self.last_tick->0,
                    actual: record.at(),
                },
            )
        } else if record.at() < game_tick {
            Some(
                ReplayError::ReplayStartsBeforeSimulation {
                    simulation_tick: game_tick,
                    record_tick: record.at(),
                },
            )
        } else if record.at() - game_tick > MAX_VERIFIER_TICK_GAP {
            Some(
                ReplayError::TickGapTooLarge {
                    from_tick: game_tick,
                    to_tick: record.at(),
                    maximum: MAX_VERIFIER_TICK_GAP,
                },
            )
        } else {
            None
        }
    }

    /// Which rule of identity or sequence a record breaks, if it breaks one.
    pub open spec fn identity_fault(self, record: RecordView) -> Option<ReplayError> {
        match record {
            RecordView::PlayerAdmitted { player_id, .. } => if player_id <= self.highest_id {
                Some(
                    ReplayError::NonIncreasingPlayerId {
                        previous: self.highest_id,
                        actual: player_id,
                    },
                )
            } else {
                None
            },
            RecordView::CommandApplied { player_id, sequence, .. } =>
                if !self.sequences.contains_key(player_id) {
                    Some(ReplayError::UnknownCommandPlayer(player_id))
                } else if sequence == 0 {
                    Some(ReplayError::InvalidSequence)
                } else if sequence <= self.sequences[player_id] {
                    Some(
                        ReplayError::NonIncreasingSequence {
                            player_id,
                            previous: self.sequences[player_id],
                            actual: sequence,
                        },
                    )
                } else {
                    None
                },
            RecordView::PlayerRemoved { player_id, .. } => if !self.sequences.contains_key(
                player_id,
            ) {
                Some(ReplayError::MissingPlayerOnRemoval(player_id))
            } else {
                None
            },
            RecordView::Checkpoint { .. } => None,
        }
    }

    /// What the runtime knows once it has accepted a record.
    pub open spec fn after(self, record: RecordView) -> Authority {
        let known = Authority { last_tick: Some(record.at()), ..self };
        match record {
            RecordView::PlayerAdmitted { player_id, .. } => Authority {
                highest_id: player_id,
                sequences: self.sequences.insert(player_id, 0),
                ..known
            },
            RecordView::CommandApplied { player_id, sequence, .. } => Authority {
                sequences: self.sequences.insert(player_id, sequence),
                ..known
            },
            RecordView::PlayerRemoved { player_id, .. } => Authority {
                sequences: self.sequences.remove(player_id),
                ..known
            },
            RecordView::Checkpoint { .. } => known,
        }
    }
}

/// What the runtime knows after a run of records.
pub open spec fn authority(records: Seq<RecordView>) -> Authority
    decreases records.len(),
{
    if records.len() == 0 {
        Authority { highest_id: 0, sequences: Map::empty(), last_tick: None }
    } else {
        authority(records.drop_last()).after(records.last())
    }
}

/// The number of checkpoints among records.
pub open spec fn checkpoint_count(records: Seq<RecordView>) -> nat
    decreases records.len(),
{
    if records.len() == 0 {
        0
    } else if records.last() is Checkpoint {
        checkpoint_count(records.drop_last()) + 1
    } else {
        checkpoint_count(records.drop_last())
    }
}

/// The replay error that a game's refusal becomes.
pub open spec fn game_refusal(result: Result<(), SimulationError>) -> Option<ReplayError> {
    match result {
        Ok(_) => None,
        Err(error) => Some(ReplayError::Simulation(error)),
    }
}

/// How a replayed removal ends.
pub open spec fn removal_refusal(
    player_id: PlayerId,
    result: Result<bool, SimulationError>,
) -> Option<ReplayError> {
    match result {
        Ok(true) => None,
        Ok(false) => Some(ReplayError::MissingPlayerOnRemoval(player_id)),
        Err(error) => Some(ReplayError::Simulation(error)),
    }
}

/// How the comparison of a game with a checkpoint ends.
pub open spec fn checkpoint_refusal(
    checkpoint: SnapshotView,
    result: Result<SimulationSnapshot, SimulationError>,
) -> Option<ReplayError> {
    match result {
        Err(error) => Some(ReplayError::Simulation(error)),
        Ok(actual) => if actual.state_hash != checkpoint.state_hash {
            Some(
                ReplayError::CheckpointMismatch {
                    tick: checkpoint.tick,
                    expected_hash: checkpoint.state_hash,
                    actual_hash: actual.state_hash,
                },
            )
        } else if actual.payload@ != checkpoint.payload {
            Some(ReplayError::CheckpointPayloadMismatch(checkpoint.tick))
        } else {
            None
        },
    }
}

/// Whether a replayed admission may take the game from `pre` to `post`, or end with the given error.
pub open spec fn admission_effect<S: GameSimulation>(
    pre: S,
    player_id: PlayerId,
    post: S,
    outcome: Option<ReplayError>,
) -> bool {
    exists|result: Result<(), SimulationError>| #[trigger]
        S::added(pre, player_id, post, result) && outcome == game_refusal(result)
}

/// Whether a replayed command may take the game from `pre` to `post`, or end with the given error.
pub open spec fn command_effect<S: GameSimulation>(
    pre: S,
    player_id: PlayerId,
    sequence: u32,
    payload: Seq<u8>,
    post: S,
    outcome: Option<ReplayError>,
) -> bool {
    exists|result: Result<(), SimulationError>| #[trigger]
        S::commanded(pre, player_id, sequence, payload, post, result) && outcome == game_refusal(
            result,
        )
}

/// Whether a replayed removal may take the game from `pre` to `post`, or end with the given error.
pub open spec fn removal_effect<S: GameSimulation>(
    pre: S,
    player_id: PlayerId,
    post: S,
    outcome: Option<ReplayError>,
) -> bool {
    exists|result: Result<bool, SimulationError>| #[trigger]
        S::removed(pre, player_id, post, result) && outcome == removal_refusal(player_id, result)
}

/// Whether the comparison of a game with a checkpoint may end with the given error, or with none.
pub open spec fn checkpoint_effect<S: GameSimulation>(
    game: S,
    checkpoint: SnapshotView,
    outcome: Option<ReplayError>,
) -> bool {
    exists|result: Result<SimulationSnapshot, SimulationError>| #[trigger]
        crate::simulation::snapshots(game, result) && outcome == checkpoint_refusal(
            checkpoint,
            result,
        )
}

/// Whether a record that breaks no rule of the runtime may take the game from `pre` to `post`, or
/// end with the given error.
pub open spec fn takes_effect<S: GameSimulation>(
    pre: S,
    record: RecordView,
    post: S,
    outcome: Option<ReplayError>,
) -> bool {
    match record {
        RecordView::PlayerAdmitted { player_id, .. } => admission_effect(
            pre,
            player_id,
            post,
            outcome,
        ),
        RecordView::CommandApplied { player_id, sequence, payload, .. } => command_effect(
            pre,
            player_id,
            sequence,
            payload,
            post,
            outcome,
        ),
        RecordView::PlayerRemoved { player_id, .. } => removal_effect(
            pre,
            player_id,
            post,
            outcome,
        ),
        RecordView::Checkpoint { snapshot } => post == pre && checkpoint_effect(
            pre,
            snapshot,
            outcome,
        ),
    }
}

/// Whether a record may be interpreted at its own tick: the runtime's rules come first, then the
/// game's.
pub open spec fn settles<S: GameSimulation>(
    known: Authority,
    pre: S,
    record: RecordView,
    post: S,
    outcome: Option<ReplayError>,
) -> bool {
    if known.identity_fault(record) is Some {
        outcome == known.identity_fault(record)
    } else {
        takes_effect(pre, record, post, outcome)
    }
}

/// Whether interpreting a record may take the game from `pre` to `post` (no error), or end with the
/// given error. A record of the next tick advances the game first.
pub open spec fn replays<S: GameSimulation>(
    known: Authority,
    pre: S,
    record: RecordView,
    post: S,
    outcome: Option<ReplayError>,
) -> bool {
    if known.order_fault(record, pre.tick()) is Some {
        outcome == known.order_fault(record, pre.tick())
    } else if record.at() > pre.tick() {
        exists|advanced: S, result: Result<(), SimulationError>| #[trigger]
            S::advanced(pre, advanced, result) && match result {
                Ok(_) => settles(known, advanced, record, post, outcome),
                Err(error) => outcome == Some(ReplayError::Simulation(error)),
            }
    } else {
        settles(known, pre, record, post, outcome)
    }
}

/// Whether interpreting records may take a game from `start` to `state`.
pub open spec fn reaches<S: GameSimulation>(start: S, records: Seq<RecordView>, state: S) -> bool
    decreases records.len(),
{
    if records.len() == 0 {
        state == start
    } else {
        exists|previous: S|
            reaches(start, records.drop_last(), previous) && #[trigger] replays(
                authority(records.drop_last()),
                previous,
                records.last(),
                state,
                None,
            )
    }
}

/// Whether interpreting records from `start` may end with `error`.
pub open spec fn fails<S: GameSimulation>(
    start: S,
    records: Seq<RecordView>,
    error: ReplayError,
) -> bool {
    exists|count: int, previous: S, post: S|
        #![trigger reaches(start, records.take(count), previous), replays(authority(records.take(count)), previous, records[count], post, Some(error))]
        0 <= count < records.len() && reaches(start, records.take(count), previous) && replays(
            authority(records.take(count)),
            previous,
            records[count],
            post,
            Some(error),
        )
}

#[derive(Clone, Debug, Eq, PartialEq)]
pub struct ReplayVerification {
    pub records_verified: usize,
    pub checkpoints_verified: usize,
    pub final_snapshot: SimulationSnapshot,
}

/// Whether verifying records against a fresh game may end with `result`.
pub open spec fn verifies<S: GameSimulation>(
    fresh: S,
    records: Seq<RecordView>,
    result: Result<ReplayVerification, ReplayError>,
) -> bool {
    match result {
        Ok(verification) => {
            &&& verification.records_verified == records.len()
            &&& verification.checkpoints_verified == checkpoint_count(records)
            &&& exists|state: S|
                reaches(fresh, records, state) && #[trigger] crate::simulation::snapshots(
                    state,
                    Ok(verification.final_snapshot),
                )
        },
        Err(error) => {
            ||| fails(fresh, records, error)
            ||| exists|state: S, refusal: SimulationError|
                reaches(fresh, records, state) && #[trigger] crate::simulation::snapshots(
                    state,
                    Err(refusal),
                ) && error == ReplayError::Simulation(refusal)
        },
    }
}

/// Replays a log into a fresh game and reports what was verified.
pub fn verify_replay<S: GameSimulation>(simulation: S, log: &ReplayLog) -> (result: Result<
    ReplayVerification,
    ReplayError,
>)
    ensures
        verifies(simulation, log@, result),
{
    let (state, checkpoints_verified) = match replay_into(simulation, log) {
        Ok(replayed) => replayed,
        Err(error) => {
            return Err(error);
        },
    };
    let outcome = state.snapshot();
    assert(crate::simulation::snapshots(state, outcome));
    match outcome {
        Ok(final_snapshot) => {
            let verification = ReplayVerification {
                records_verified: log.records().len(),
                checkpoints_verified,
                final_snapshot,
            };
            assert(crate::simulation::snapshots(state, Ok(verification.final_snapshot)));
            Ok(verification)
        },
        Err(refusal) => {
            assert(crate::simulation::snapshots(state, Err(refusal)));
            Err(ReplayError::Simulation(refusal))
        },
    }
}

/// Interprets a log: the game after the last record, and the number of checkpoints that it met.
///
/// Verification and recovery read the same history through this one function. Rules of identity
/// and sequence are the runtime's own and are never left to the game.
pub fn replay_into<S: GameSimulation>(simulation: S, log: &ReplayLog) -> (result: Result<
    (S, usize),
    ReplayError,
>)
    ensures
        match result {
            Ok((state, checkpoints)) => reaches(simulation, log@, state) && checkpoints
                == checkpoint_count(log@),
            Err(error) => fails(simulation, log@, error),
        },
{
    let ghost start = simulation;
    let ghost all = log@;
    let mut game = simulation;
    let mut highest_id: PlayerId = 0;
    let mut sequences: BTreeMap<PlayerId, u32> = BTreeMap::new();
    let mut last_tick: Option<u64> = None;
    let mut checkpoints_verified: usize = 0;
    let records = log.records();
    let mut i: usize = 0;
    assert(all.take(0) =~= Seq::<RecordView>::empty());
    while i < records.len()
        invariant
            i <= records.len(),
            start == simulation,
            all == log@,
            all == record_views(records@),
            reaches(start, all.take(i as int), game),
            authority(all.take(i as int)) == (Authority {
                highest_id,
                sequences: sequences@,
                last_tick,
            }),
            checkpoints_verified == checkpoint_count(all.take(i as int)),
            checkpoints_verified <= i,
        decreases records.len() - i,
    {
        let record = &records[i];
        let ghost known = authority(all.take(i as int));
        let ghost before = game;
        assert(all[i as int] == record@);
        assert(all.take(i + 1).drop_last() =~= all.take(i as int));
        assert(all.take(i + 1).last() == record@);
        let record_tick: u64 = record.tick();
        if let Some(previous) = last_tick {
            if record_tick < previous {
                let error = ReplayError::NonMonotonicTick { previous, actual: record_tick };
                assert(replays(known, before, all[i as int], before, Some(error)));
                return Err(error);
            }
        }
        let simulation_tick: u64 = game.current_tick();
        if record_tick < simulation_tick {
            let error = ReplayError::ReplayStartsBeforeSimulation { simulation_tick, record_tick };
            assert(replays(known, before, all[i as int], before, Some(error)));
            return Err(error);
        }
        let tick_gap: u64 = record_tick - simulation_tick;
        if tick_gap > MAX_VERIFIER_TICK_GAP {
            let error = ReplayError::TickGapTooLarge {
                from_tick: simulation_tick,
                to_tick: record_tick,
                maximum: MAX_VERIFIER_TICK_GAP,
            };
            assert(replays(known, before, all[i as int], before, Some(error)));
            return Err(error);
        }
        if tick_gap == 1 {
            let outcome = game.advance_tick();
            assert(S::advanced(before, game, outcome));
            if let Err(refusal) = outcome {
                let error = ReplayError::Simulation(refusal);
                assert(replays(known, before, all[i as int], game, Some(error)));
                return Err(error);
            }
        }
        let ghost settled = game;
        assert forall|post: S, outcome: Option<ReplayError>|
            settles(known, settled, record@, post, outcome) implies #[trigger] replays(
            known,
            before,
            record@,
            post,
            outcome,
        ) by {}
        match record {
            ReplayRecord::PlayerAdmitted { player_id, .. } => {
                if *player_id <= highest_id {
                    let error = ReplayError::NonIncreasingPlayerId {
                        previous: highest_id,
                        actual: *player_id,
                    };
                    assert(replays(known, before, all[i as int], settled, Some(error)));
                    return Err(error);
                }
                let outcome = game.add_player(*player_id);
                assert(S::added(settled, *player_id, game, outcome));
                assert(replays(known, before, record@, game, game_refusal(outcome)));
                if let Err(refusal) = outcome {
                    return Err(ReplayError::Simulation(refusal));
                }
                sequences.insert(*player_id, 0);
                highest_id = *player_id;
            },
            ReplayRecord::CommandApplied { player_id, sequence, payload, .. } => {
                let previous: u32 = match sequences.get(player_id) {
                    Some(previous) => *previous,
                    None => {
                        let error = ReplayError::UnknownCommandPlayer(*player_id);
                        assert(replays(known, before, all[i as int], settled, Some(error)));
                        return Err(error);
                    },
                };
                if *sequence == 0 {
                    let error = ReplayError::InvalidSequence;
                    assert(replays(known, before, all[i as int], settled, Some(error)));
                    return Err(error);
                }
                if *sequence <= previous {
                    let error = ReplayError::NonIncreasingSequence {
                        player_id: *player_id,
                        previous,
                        actual: *sequence,
                    };
                    assert(replays(known, before, all[i as int], settled, Some(error)));
                    return Err(error);
                }
                let outcome = game.apply_command(*player_id, *sequence, payload.as_slice());
                assert(S::commanded(settled, *player_id, *sequence, payload@, game, outcome));
                assert(command_effect(
                    settled,
                    *player_id,
                    *sequence,
                    payload@,
                    game,
                    game_refusal(outcome),
                ));
                assert(replays(known, before, record@, game, game_refusal(outcome)));
                if let Err(refusal) = outcome {
                    return Err(ReplayError::Simulation(refusal));
                }
                sequences.insert(*player_id, *sequence);
            },
            ReplayRecord::PlayerRemoved { player_id, .. } => {
                if sequences.remove(player_id).is_none() {
                    let error = ReplayError::MissingPlayerOnRemoval(*player_id);
                    assert(replays(known, before, all[i as int], settled, Some(error)));
                    return Err(error);
                }
                let outcome = game.try_remove_player(*player_id);
                assert(S::removed(settled, *player_id, game, outcome));
                assert(replays(
                    known,
                    before,
                    record@,
                    game,
                    removal_refusal(*player_id, outcome),
                ));
                match outcome {
                    Ok(removed) => {
                        if !removed {
                            return Err(ReplayError::MissingPlayerOnRemoval(*player_id));
                        }
                    },
                    Err(refusal) => {
                        return Err(ReplayError::Simulation(refusal));
                    },
                }
            },
            ReplayRecord::Checkpoint { snapshot } => {
                let outcome = game.snapshot();
                assert(crate::simulation::snapshots(settled, outcome));
                assert(replays(
                    known,
                    before,
                    record@,
                    game,
                    checkpoint_refusal(snapshot@, outcome),
                ));
                let actual = match outcome {
                    Ok(actual) => actual,
                    Err(refusal) => {
                        return Err(ReplayError::Simulation(refusal));
                    },
                };
                if actual.state_hash != snapshot.state_hash {
                    return Err(
                        ReplayError::CheckpointMismatch {
                            tick: snapshot.tick,
                            expected_hash: snapshot.state_hash,
                            actual_hash: actual.state_hash,
                        },
                    );
                }
                if !same_bytes(actual.payload.as_slice(), snapshot.payload.as_slice()) {
                    return Err(ReplayError::CheckpointPayloadMismatch(snapshot.tick));
                }
                checkpoints_verified = checkpoints_verified + 1;
            },
        }
        proof {
            assert(replays(known, before, record@, game, None));
            lemma_reaches_one_more(start, all.take(i as int), before, record@, game);
            assert(all.take(i as int).push(record@) =~= all.take(i + 1));
        }
        last_tick = Some(record_tick);
        i = i + 1;
    }
    assert(all.take(i as int) =~= all);
    Ok((game, checkpoints_verified))
}

/// Interpreting one more record continues a run.
pub proof fn lemma_reaches_one_more<S: GameSimulation>(
    start: S,
    records: Seq<RecordView>,
    pre: S,
    record: RecordView,
    post: S,
)
    requires
        reaches(start, records, pre),
        replays(authority(records), pre, record, post, None),
    ensures
        reaches(start, records.push(record), post),
{
    let longer = records.push(record);
    assert(longer.drop_last() =~= records);
    assert(longer.last() == record);
    assert(reaches(start, longer.drop_last(), pre));
}

/// The bytes of the first records begin the bytes of all of them.
proof fn lemma_records_bytes_prefix(records: Seq<RecordView>, count: int)
    requires
        0 <= count <= records.len(),
    ensures
        records_bytes(records.take(count)).len() <= records_bytes(records).len(),
        records_bytes(records).take(records_bytes(records.take(count)).len() as int)
            == records_bytes(records.take(count)),
    decreases records.len(),
{
    if count < records.len() {
        lemma_records_bytes_prefix(records.drop_last(), count);
        assert(records.drop_last().take(count) =~= records.take(count));
        let shorter = records_bytes(records.take(count));
        assert(records_bytes(records).take(shorter.len() as int) =~= records_bytes(
            records.drop_last(),
        ).take(shorter.len() as int));
    } else {
        assert(records.take(count) =~= records);
        assert(records_bytes(records).take(records_bytes(records).len() as int) =~= records_bytes(
            records,
        ));
    }
}

/// Where the record at `index` stands in the bytes of its log.
pub proof fn lemma_record_position(records: Seq<RecordView>, index: int)
    requires
        0 <= index < records.len(),
    ensures
        ({
            let bytes = log_bytes(records);
            let start = log_bytes(records.take(index)).len();
            let end = log_bytes(records.take(index + 1)).len();
            &&& end == start + records[index].bytes().len()
            &&& end <= bytes.len()
            &&& bytes.subrange(start as int, end as int) == records[index].bytes()
            &&& bytes.take(start as int) == log_bytes(records.take(index))
        }),
{
    lemma_records_bytes_prefix(records, index);
    lemma_records_bytes_prefix(records, index + 1);
    assert(records.take(index + 1).drop_last() =~= records.take(index));
    assert(records.take(index + 1).last() == records[index]);
    let bytes = log_bytes(records);
    let start = log_bytes(records.take(index)).len() as int;
    let end = log_bytes(records.take(index + 1)).len() as int;
    let body_end = records_bytes(records.take(index + 1)).len() as int;
    assert(bytes.take(end) =~= replay_header() + records_bytes(records).take(body_end));
    assert(bytes.subrange(start, end) =~= bytes.take(end).subrange(start, end));
    assert(bytes.take(end).subrange(start, end) =~= records[index].bytes());
    assert(bytes.take(start) =~= replay_header() + records_bytes(records).take(
        records_bytes(records.take(index)).len() as int,
    ));
}

/// The fields of a record's binary form, read back.
pub proof fn lemma_record_fields(record: RecordView)
    requires
        record.refusal() is None,
    ensures
        ({
            let bytes = record.bytes();
            &&& bytes.len() == RECORD_HEADER_BYTES + record.body().len()
            &&& bytes[0] == record.kind()
            &&& crate::wire::be_value(bytes.subrange(1, 9)) == record.at()
            &&& crate::wire::be_value(bytes.subrange(9, 13)) == record.body().len()
            &&& bytes.subrange(13, bytes.len() as int) == record.body()
            &&& record.body().len() <= MAX_REPLAY_BODY_BYTES
            &&& record_fault(record.kind(), record.at(), record.body()) is None
        }),
{
    broadcast use crate::wire::lemma_be_bytes_len, crate::wire::lemma_be_round_trip;

    crate::wire::lemma_pow256();
    let bytes = record.bytes();
    let body = record.body();
    assert(bytes.subrange(1, 9) =~= crate::wire::be_bytes(record.at() as nat, 8));
    assert(bytes.subrange(9, 13) =~= crate::wire::be_bytes(body.len(), 4));
    assert(bytes.subrange(13, bytes.len() as int) =~= body);
    match record {
        RecordView::CommandApplied { player_id, sequence, payload, .. } => {
            assert(body.subrange(4, 8) =~= crate::wire::be_bytes(sequence as nat, 4));
            assert(body.subrange(8, 12) =~= crate::wire::be_bytes(payload.len(), 4));
        },
        RecordView::Checkpoint { snapshot } => {
            assert(body.subrange(0, 8) =~= crate::wire::be_bytes(snapshot.state_hash as nat, 8));
            assert(body.subrange(8, 12) =~= crate::wire::be_bytes(snapshot.payload.len(), 4));
            assert(body.subrange(12, body.len() as int) =~= snapshot.payload);
        },
        _ => {},
    }
}

/// Records of one kind and tick with the same body are the same record.
proof fn lemma_body_determines_record(a: RecordView, b: RecordView)
    requires
        a.kind() == b.kind(),
        a.at() == b.at(),
        a.body() == b.body(),
    ensures
        a == b,
{
    broadcast use crate::wire::lemma_be_bytes_len, crate::wire::lemma_be_round_trip;

    crate::wire::lemma_pow256();
    match (a, b) {
        (
            RecordView::CommandApplied { player_id: id_a, sequence: seq_a, payload: load_a, .. },
            RecordView::CommandApplied { player_id: id_b, sequence: seq_b, payload: load_b, .. },
        ) => {
            assert(a.body().subrange(0, 4) =~= crate::wire::be_bytes(id_a as nat, 4));
            assert(b.body().subrange(0, 4) =~= crate::wire::be_bytes(id_b as nat, 4));
            assert(a.body().subrange(4, 8) =~= crate::wire::be_bytes(seq_a as nat, 4));
            assert(b.body().subrange(4, 8) =~= crate::wire::be_bytes(seq_b as nat, 4));
            assert(a.body().subrange(12, a.body().len() as int) =~= load_a);
            assert(b.body().subrange(12, b.body().len() as int) =~= load_b);
        },
        (RecordView::Checkpoint { snapshot: shot_a }, RecordView::Checkpoint { snapshot: shot_b }) => {
            assert(a.body().subrange(0, 8) =~= crate::wire::be_bytes(shot_a.state_hash as nat, 8));
            assert(b.body().subrange(0, 8) =~= crate::wire::be_bytes(shot_b.state_hash as nat, 8));
            assert(a.body().subrange(12, a.body().len() as int) =~= shot_a.payload);
            assert(b.body().subrange(12, b.body().len() as int) =~= shot_b.payload);
        },
        _ => {},
    }
}

pub proof fn lemma_no_refusal_at(records: Seq<RecordView>, index: int)
    requires
        records_refusal(records) is None,
        0 <= index < records.len(),
    ensures
        records[index].refusal() is None,
    decreases records.len(),
{
    if index < records.len() - 1 {
        lemma_no_refusal_at(records.drop_last(), index);
    }
}

proof fn lemma_no_fault_from(records: Seq<RecordView>, index: int)
    requires
        records_refusal(records) is None,
        in_tick_order(records),
        0 <= index <= records.len(),
    ensures
        records_fault(
            log_bytes(records),
            log_bytes(records.take(index)).len() as int,
            if index == 0 {
                None
            } else {
                Some(records[index - 1].at())
            },
        ) is None,
    decreases records.len() - index,
{
    let bytes = log_bytes(records);
    let offset = log_bytes(records.take(index)).len() as int;
    if index == records.len() {
        assert(records.take(index) =~= records);
    } else {
        let record = records[index];
        lemma_no_refusal_at(records, index);
        lemma_record_position(records, index);
        lemma_record_fields(record);
        lemma_no_fault_from(records, index + 1);
        let end = log_bytes(records.take(index + 1)).len() as int;
        let run = bytes.subrange(offset, end);
        assert(run == record.bytes());
        assert(bytes[offset] == run[0]);
        assert(bytes.subrange(offset + 1, offset + 9) =~= run.subrange(1, 9));
        assert(bytes.subrange(offset + 9, offset + 13) =~= run.subrange(9, 13));
        assert(bytes.subrange(offset + 13, end) =~= run.subrange(13, run.len() as int));
        if index > 0 {
            assert(records[index - 1].at() <= records[index].at());
        }
    }
}

/// A log whose records have a binary form and lie in tick order decodes without error, and no other
/// such log has the same bytes: encoding and decoding are inverse to each other.
pub proof fn law_log_round_trip(records: Seq<RecordView>)
    requires
        records_refusal(records) is None,
        in_tick_order(records),
    ensures
        log_fault(log_bytes(records)) is None,
        forall|other: Seq<RecordView>|
            records_refusal(other) is None && #[trigger] log_bytes(other) == log_bytes(records)
                ==> other == records,
{
    let bytes = log_bytes(records);
    lemma_no_fault_from(records, 0);
    assert(records.take(0) =~= Seq::<RecordView>::empty());
    assert(log_bytes(records.take(0)).len() == REPLAY_HEADER_BYTES);
    assert(bytes.subrange(0, 4) =~= replay_header().subrange(0, 4));
    assert(bytes[4] == replay_header()[4]);
    assert forall|other: Seq<RecordView>|
        records_refusal(other) is None && #[trigger] log_bytes(other) == bytes implies other
        == records by {
        if other.len() <= records.len() {
            lemma_same_bytes_same_records(other, records, other.len() as int);
        } else {
            lemma_same_bytes_same_records(records, other, records.len() as int);
        }
    }
}

/// Two logs with the same bytes agree on their first records.
#[verifier::spinoff_prover]
#[verifier::rlimit(40)]
proof fn lemma_same_bytes_same_records(a: Seq<RecordView>, b: Seq<RecordView>, count: int)
    requires
        records_refusal(a) is None,
        records_refusal(b) is None,
        log_bytes(a) == log_bytes(b),
        0 <= count <= a.len() <= b.len(),
    ensures
        a.take(count) == b.take(count),
        count == a.len() ==> a == b,
    decreases count,
{
    if count > 0 {
        let index = count - 1;
        lemma_same_bytes_same_records(a, b, index);
        lemma_record_position(a, index);
        lemma_record_position(b, index);
        lemma_no_refusal_at(a, index);
        lemma_no_refusal_at(b, index);
        lemma_record_fields(a[index]);
        lemma_record_fields(b[index]);
        let bytes = log_bytes(a);
        let offset = log_bytes(a.take(index)).len() as int;
        let run_a = a[index].bytes();
        let run_b = b[index].bytes();
        assert(run_a =~= bytes.subrange(offset, offset + run_a.len()));
        assert(run_b =~= bytes.subrange(offset, offset + run_b.len()));
        assert(run_a[0] == bytes[offset] && run_b[0] == bytes[offset]);
        assert(run_a.subrange(1, 9) =~= bytes.subrange(offset + 1, offset + 9));
        assert(run_b.subrange(1, 9) =~= bytes.subrange(offset + 1, offset + 9));
        assert(run_a.subrange(9, 13) =~= bytes.subrange(offset + 9, offset + 13));
        assert(run_b.subrange(9, 13) =~= bytes.subrange(offset + 9, offset + 13));
        assert(run_a =~= run_b);
        lemma_body_determines_record(a[index], b[index]);
        assert(a.take(count) =~= a.take(index).push(a[index]));
        assert(b.take(count) =~= b.take(index).push(b[index]));
    } else {
        assert(a.take(0) =~= b.take(0));
    }
    if count == a.len() {
        assert(a.take(count) =~= a);
        if a.len() < b.len() {
            lemma_record_position(b, count);
            lemma_no_refusal_at(b, count);
            lemma_record_fields(b[count]);
        } else {
            assert(b.take(count) =~= b);
        }
    }
}

/// What authority remembers of the records that it has seen.
spec fn remembers(known: Authority, records: Seq<RecordView>) -> bool {
    &&& forall|id: PlayerId| #[trigger] known.sequences.contains_key(id) ==> id <= known.highest_id
    &&& forall|i: int|
        0 <= i < records.len() ==> match #[trigger] records[i] {
            RecordView::PlayerAdmitted { player_id, .. } => player_id <= known.highest_id,
            RecordView::CommandApplied { player_id, sequence, .. } => player_id <= known.highest_id
                && (known.sequences.contains_key(player_id) ==> sequence
                <= known.sequences[player_id]),
            _ => true,
        }
}

/// Whether two records, the first before the second, keep identities and sequences rising.
pub open spec fn keeps_rising(earlier: RecordView, later: RecordView) -> bool {
    match (earlier, later) {
        (
            RecordView::PlayerAdmitted { player_id: first, .. },
            RecordView::PlayerAdmitted { player_id: second, .. },
        ) => first < second,
        (
            RecordView::CommandApplied { player_id: sender, sequence: first, .. },
            RecordView::CommandApplied { player_id, sequence: second, .. },
        ) => sender == player_id ==> first < second,
        _ => true,
    }
}

/// In a history that the interpreter accepts, admitted identities rise strictly and so do the
/// sequences of each player's commands, whatever the game is.
pub proof fn law_history_keeps_rising<S: GameSimulation>(
    start: S,
    records: Seq<RecordView>,
    state: S,
)
    requires
        reaches(start, records, state),
    ensures
        forall|i: int, j: int|
            0 <= i < j < records.len() ==> keeps_rising(#[trigger] records[i], #[trigger] records[j]),
{
    lemma_reaches_is_lawful(start, records, state);
    lemma_history_is_remembered(records);
}

proof fn lemma_history_is_remembered(records: Seq<RecordView>)
    requires
        lawful(records),
    ensures
        remembers(authority(records), records),
        forall|i: int, j: int|
            0 <= i < j < records.len() ==> keeps_rising(#[trigger] records[i], #[trigger] records[j]),
    decreases records.len(),
{
    if records.len() > 0 {
        let earlier = records.drop_last();
        let last = records.last();
        let known = authority(earlier);
        lemma_history_is_remembered(earlier);
        let now = authority(records);
        assert(now == known.after(last));
        assert forall|i: int| 0 <= i < records.len() implies match #[trigger] records[i] {
            RecordView::PlayerAdmitted { player_id, .. } => player_id <= now.highest_id,
            RecordView::CommandApplied { player_id, sequence, .. } => player_id <= now.highest_id
                && (now.sequences.contains_key(player_id) ==> sequence <= now.sequences[player_id]),
            _ => true,
        } by {
            if i < earlier.len() {
                assert(records[i] == earlier[i]);
            }
        }
        assert forall|i: int, j: int| 0 <= i < j < records.len() implies keeps_rising(
            #[trigger] records[i],
            #[trigger] records[j],
        ) by {
            assert(records[i] == earlier[i]);
            if j < earlier.len() {
                assert(records[j] == earlier[j]);
            }
        }
    }
}

/// Whether a game's answers are settled by what can be told of its state and by the operation alone.
pub open spec fn deterministic<S: GameSimulation>() -> bool {
    &&& crate::simulation::likeness_is_sound::<S>()
    &&& forall|
        pre_a: S,
        pre_b: S,
        player_id: PlayerId,
        a: S,
        result_a: Result<(), SimulationError>,
        b: S,
        result_b: Result<(), SimulationError>,
    |
        S::alike(pre_a, pre_b) && #[trigger] S::added(pre_a, player_id, a, result_a)
            && #[trigger] S::added(pre_b, player_id, b, result_b) ==> S::alike(a, b) && (
        result_a is Ok <==> result_b is Ok)
    &&& forall|
        pre_a: S,
        pre_b: S,
        player_id: PlayerId,
        a: S,
        result_a: Result<bool, SimulationError>,
        b: S,
        result_b: Result<bool, SimulationError>,
    |
        S::alike(pre_a, pre_b) && #[trigger] S::removed(pre_a, player_id, a, result_a)
            && #[trigger] S::removed(pre_b, player_id, b, result_b) ==> S::alike(a, b) && (
        result_a is Ok <==> result_b is Ok) && (result_a is Ok ==> result_a->Ok_0
            == result_b->Ok_0)
    &&& forall|
        pre_a: S,
        pre_b: S,
        player_id: PlayerId,
        sequence: u32,
        payload: Seq<u8>,
        a: S,
        result_a: Result<(), SimulationError>,
        b: S,
        result_b: Result<(), SimulationError>,
    |
        S::alike(pre_a, pre_b) && #[trigger] S::commanded(
            pre_a,
            player_id,
            sequence,
            payload,
            a,
            result_a,
        ) && #[trigger] S::commanded(pre_b, player_id, sequence, payload, b, result_b) ==> S::alike(
            a,
            b,
        ) && (result_a is Ok <==> result_b is Ok)
    &&& forall|
        pre_a: S,
        pre_b: S,
        a: S,
        result_a: Result<(), SimulationError>,
        b: S,
        result_b: Result<(), SimulationError>,
    |
        S::alike(pre_a, pre_b) && #[trigger] S::advanced(pre_a, a, result_a)
            && #[trigger] S::advanced(pre_b, b, result_b) ==> S::alike(a, b) && (
        result_a is Ok <==> result_b is Ok)
    &&& forall|
        a: S,
        b: S,
        result_a: Result<SimulationSnapshot, SimulationError>,
        result_b: Result<SimulationSnapshot, SimulationError>,
    |
        S::alike(a, b) && #[trigger] crate::simulation::snapshots(a, result_a)
            && #[trigger] crate::simulation::snapshots(b, result_b) ==> (result_a is Ok
            <==> result_b is Ok) && (result_a is Ok ==> result_a->Ok_0@ == result_b->Ok_0@)
}

proof fn lemma_effect_is_settled<S: GameSimulation>(
    known: Authority,
    pre_a: S,
    pre_b: S,
    record: RecordView,
    a: S,
    b: S,
    outcome: Option<ReplayError>,
)
    requires
        deterministic::<S>(),
        S::alike(pre_a, pre_b),
        settles(known, pre_a, record, a, None),
        settles(known, pre_b, record, b, outcome),
    ensures
        outcome is None,
        S::alike(a, b),
{
}

proof fn lemma_step_is_settled<S: GameSimulation>(
    known: Authority,
    pre_a: S,
    pre_b: S,
    record: RecordView,
    a: S,
    b: S,
    outcome: Option<ReplayError>,
)
    requires
        deterministic::<S>(),
        S::alike(pre_a, pre_b),
        replays(known, pre_a, record, a, None),
        replays(known, pre_b, record, b, outcome),
    ensures
        outcome is None,
        S::alike(a, b),
{
    if record.at() > pre_a.tick() {
        let (mid_a, result_a) = choose|mid: S, result: Result<(), SimulationError>| #[trigger]
            S::advanced(pre_a, mid, result) && match result {
                Ok(_) => settles(known, mid, record, a, None),
                Err(error) => None::<ReplayError> == Some(ReplayError::Simulation(error)),
            };
        let (mid_b, result_b) = choose|mid: S, result: Result<(), SimulationError>| #[trigger]
            S::advanced(pre_b, mid, result) && match result {
                Ok(_) => settles(known, mid, record, b, outcome),
                Err(error) => outcome == Some(ReplayError::Simulation(error)),
            };
        assert(S::alike(mid_a, mid_b));
        lemma_effect_is_settled(known, mid_a, mid_b, record, a, b, outcome);
    } else {
        lemma_effect_is_settled(known, pre_a, pre_b, record, a, b, outcome);
    }
}

/// Whether records tell how a game came from `start` to `state`, up to what cannot be told apart:
/// each record was accepted in a state like the one that the records before lead to.
pub open spec fn retraces<S: GameSimulation>(start: S, records: Seq<RecordView>, state: S) -> bool
    decreases records.len(),
{
    if records.len() == 0 {
        S::alike(start, state)
    } else {
        exists|previous: S, reached: S|
            retraces(start, records.drop_last(), previous) && #[trigger] replays(
                authority(records.drop_last()),
                previous,
                records.last(),
                reached,
                None,
            ) && S::alike(reached, state)
    }
}

/// What leads to a state leads to every state like it.
pub proof fn lemma_retraces_alike<S: GameSimulation>(
    start: S,
    records: Seq<RecordView>,
    state: S,
    other: S,
)
    requires
        crate::simulation::likeness_is_sound::<S>(),
        retraces(start, records, state),
        S::alike(state, other),
    ensures
        retraces(start, records, other),
{
    if records.len() > 0 {
        let known = authority(records.drop_last());
        let (previous, reached) = choose|previous: S, reached: S|
            retraces(start, records.drop_last(), previous) && #[trigger] replays(
                known,
                previous,
                records.last(),
                reached,
                None,
            ) && S::alike(reached, state);
        assert(S::alike(reached, other));
        assert(replays(known, previous, records.last(), reached, None));
    }
}

/// One more accepted record continues the trace.
pub proof fn lemma_retraces_one_more<S: GameSimulation>(
    start: S,
    records: Seq<RecordView>,
    pre: S,
    record: RecordView,
    post: S,
)
    requires
        crate::simulation::likeness_is_sound::<S>(),
        retraces(start, records, pre),
        replays(authority(records), pre, record, post, None),
    ensures
        retraces(start, records.push(record), post),
{
    let longer = records.push(record);
    assert(longer.drop_last() =~= records);
    assert(longer.last() == record);
    assert(S::alike(post, post));
    assert(replays(authority(longer.drop_last()), pre, longer.last(), post, None));
}

/// What can be replayed leaves a trace.
proof fn lemma_reaches_is_traced<S: GameSimulation>(
    start: S,
    records: Seq<RecordView>,
    state: S,
)
    requires
        crate::simulation::likeness_is_sound::<S>(),
        reaches(start, records, state),
    ensures
        retraces(start, records, state),
    decreases records.len(),
{
    assert(S::alike(state, state));
    if records.len() > 0 {
        let earlier = records.drop_last();
        let previous = choose|previous: S|
            reaches(start, earlier, previous) && #[trigger] replays(
                authority(earlier),
                previous,
                records.last(),
                state,
                None,
            );
        lemma_reaches_is_traced(start, earlier, previous);
    }
}

/// Whether no record of a history breaks a rule of identity or sequence.
pub open spec fn lawful(records: Seq<RecordView>) -> bool
    decreases records.len(),
{
    records.len() == 0 || (lawful(records.drop_last()) && authority(
        records.drop_last(),
    ).identity_fault(records.last()) is None)
}

/// A history that can be replayed is lawful.
pub proof fn lemma_reaches_is_lawful<S: GameSimulation>(
    start: S,
    records: Seq<RecordView>,
    state: S,
)
    requires
        reaches(start, records, state),
    ensures
        lawful(records),
    decreases records.len(),
{
    if records.len() > 0 {
        let earlier = records.drop_last();
        let previous = choose|previous: S|
            reaches(start, earlier, previous) && #[trigger] replays(
                authority(earlier),
                previous,
                records.last(),
                state,
                None,
            );
        lemma_reaches_is_lawful(start, earlier, previous);
    }
}

/// A history that leaves a trace is lawful.
pub proof fn lemma_retraces_is_lawful<S: GameSimulation>(
    start: S,
    records: Seq<RecordView>,
    state: S,
)
    requires
        retraces(start, records, state),
    ensures
        lawful(records),
    decreases records.len(),
{
    if records.len() > 0 {
        let earlier = records.drop_last();
        let (previous, reached) = choose|previous: S, reached: S|
            retraces(start, earlier, previous) && #[trigger] replays(
                authority(earlier),
                previous,
                records.last(),
                reached,
                None,
            ) && S::alike(reached, state);
        lemma_retraces_is_lawful(start, earlier, previous);
    }
}

/// A deterministic game replays what a like game lived through: a history that tells how the one came
/// from a start to a state leads the other, from a like start, to a like state, and never fails.
pub proof fn law_history_is_replayed<S: GameSimulation>(
    start: S,
    other_start: S,
    records: Seq<RecordView>,
    state: S,
)
    requires
        deterministic::<S>(),
        S::alike(start, other_start),
        retraces(start, records, state),
    ensures
        forall|other: S| #[trigger] reaches(other_start, records, other) ==> S::alike(state, other),
        forall|error: ReplayError| !fails(other_start, records, error),
    decreases records.len(),
{
    if records.len() == 0 {
        assert(S::alike(state, start));
    } else {
        let earlier = records.drop_last();
        let last = records.last();
        let known = authority(earlier);
        let (previous, reached) = choose|previous: S, reached: S|
            retraces(start, earlier, previous) && #[trigger] replays(
                known,
                previous,
                last,
                reached,
                None,
            ) && S::alike(reached, state);
        law_history_is_replayed(start, other_start, earlier, previous);
        assert forall|other: S| #[trigger] reaches(other_start, records, other) implies S::alike(
            state,
            other,
        ) by {
            let other_previous = choose|other_previous: S|
                reaches(other_start, earlier, other_previous) && #[trigger] replays(
                    known,
                    other_previous,
                    last,
                    other,
                    None,
                );
            assert(S::alike(previous, other_previous));
            lemma_step_is_settled(known, previous, other_previous, last, reached, other, None);
            assert(S::alike(state, reached));
        }
        assert forall|error: ReplayError| !fails(other_start, records, error) by {
            if fails(other_start, records, error) {
                let (count, before, post) = choose|count: int, before: S, post: S|
                    #![trigger reaches(other_start, records.take(count), before), replays(authority(records.take(count)), before, records[count], post, Some(error))]
                    0 <= count < records.len() && reaches(other_start, records.take(count), before)
                        && replays(
                        authority(records.take(count)),
                        before,
                        records[count],
                        post,
                        Some(error),
                    );
                if count == earlier.len() {
                    assert(records.take(count) =~= earlier);
                    assert(S::alike(previous, before));
                    lemma_step_is_settled(
                        known,
                        previous,
                        before,
                        last,
                        reached,
                        post,
                        Some(error),
                    );
                } else {
                    assert(records.take(count) =~= earlier.take(count));
                    assert(records[count] == earlier[count]);
                    assert(fails(other_start, earlier, error));
                }
            }
        }
    }
}

/// A deterministic game has one replay: from starts that cannot be told apart, a history that can
/// be replayed leads to states that cannot be told apart, and never fails.
pub proof fn law_replay_is_deterministic<S: GameSimulation>(
    start: S,
    other_start: S,
    records: Seq<RecordView>,
    state: S,
)
    requires
        deterministic::<S>(),
        S::alike(start, other_start),
        reaches(start, records, state),
    ensures
        forall|other: S| #[trigger] reaches(other_start, records, other) ==> S::alike(state, other),
        forall|error: ReplayError| !fails(other_start, records, error),
{
    lemma_reaches_is_traced(start, records, state);
    law_history_is_replayed(start, other_start, records, state);
}

} // verus!
