//! Restart recovery: the image that a frozen match leaves behind and how it is read back.

use crate::protocol::PlayerId;
use crate::replay::{replay_into, RecordView, ReplayError, ReplayLog, ReplayRecord};
use crate::session::{
    ReconnectToken, RecoverableSession, SessionRecoveryError, SessionRecoverySnapshot,
};
use crate::simulation::{GameSimulation, SimulationError};
use crate::text::push_decimal;
use crate::wire::{push_all, push_be, read_16, read_u16, read_u32, read_u64};
use std::collections::{BTreeMap, BTreeSet};
use vstd::prelude::*;
use vstd::slice::slice_subrange;

verus! {

broadcast use vstd::std_specs::btree::group_btree_axioms;

pub const RECOVERY_FORMAT_VERSION: u8 = 1;

/// 256 MiB.
pub const MAX_RECOVERY_IMAGE_BYTES: usize = 268435456;

pub const RECOVERY_HEADER_BYTES: usize = 31;

pub const RECOVERY_SESSION_BYTES: usize = 32;

/// Everything that a match needs to go on after a restart.
#[derive(Debug, Eq, PartialEq)]
pub struct RecoveryImage {
    pub current_tick: u64,
    pub reconnect_grace_ticks: u64,
    pub replay: ReplayLog,
    pub sessions: SessionRecoverySnapshot,
}

/// What an image says.
#[verifier::ext_equal]
pub struct ImageView {
    pub current_tick: u64,
    pub reconnect_grace_ticks: u64,
    pub records: Seq<RecordView>,
    pub next_player_id: PlayerId,
    pub sessions: Seq<RecoverableSession>,
}

impl View for RecoveryImage {
    type V = ImageView;

    open spec fn view(&self) -> ImageView {
        ImageView {
            current_tick: self.current_tick,
            reconnect_grace_ticks: self.reconnect_grace_ticks,
            records: self.replay@,
            next_player_id: self.sessions.next_player_id,
            sessions: self.sessions.sessions@,
        }
    }
}

impl Clone for RecoveryImage {
    fn clone(&self) -> (copy: Self)
        ensures
            copy@ == self@,
    {
        RecoveryImage {
            current_tick: self.current_tick,
            reconnect_grace_ticks: self.reconnect_grace_ticks,
            replay: self.replay.clone(),
            sessions: self.sessions.clone(),
        }
    }
}

#[derive(Clone, Debug, Eq, PartialEq)]
pub enum RecoveryError {
    InvalidMagic,
    UnsupportedVersion(u8),
    Truncated,
    TrailingBytes(usize),
    ImageTooLarge(usize),
    ReplayTooLarge(usize),
    SessionCountTooLarge(usize),
    ReplayTickMismatch { expected: u64, actual: Option<u64> },
    ReplayPlayerSetMismatch,
    ReplayTickGapTooLarge { from_tick: u64, to_tick: u64 },
    ReplayStartsBeforeSimulation { simulation_tick: u64, record_tick: u64 },
    MissingPlayerOnRemoval(PlayerId),
    MissingFinalCheckpoint(u64),
    Replay(ReplayError),
    Session(SessionRecoveryError),
    Simulation(SimulationError),
    Io(String),
}

impl RecoveryError {
    /// The sentence that describes the error.
    pub open spec fn message(self) -> Seq<char> {
        match self {
            RecoveryError::InvalidMagic => "invalid recovery image magic"@,
            RecoveryError::UnsupportedVersion(version) => "unsupported recovery image version "@
                + crate::text::decimal(version as nat),
            RecoveryError::Truncated => "truncated recovery image"@,
            RecoveryError::TrailingBytes(count) => "recovery image has "@ + crate::text::decimal(
                count as nat,
            ) + " trailing bytes"@,
            RecoveryError::ImageTooLarge(size) => "recovery image size "@ + crate::text::decimal(
                size as nat,
            ) + " exceeds limit"@,
            RecoveryError::ReplayTooLarge(size) => "replay payload is too large: "@
                + crate::text::decimal(size as nat),
            RecoveryError::SessionCountTooLarge(count) => "recovery session count is too large: "@
                + crate::text::decimal(count as nat),
            RecoveryError::ReplayTickMismatch { expected, actual } => match actual {
                Some(tick) => "recovery replay final tick Some("@ + crate::text::decimal(
                    tick as nat,
                ) + ") does not match image tick "@ + crate::text::decimal(expected as nat),
                None => "recovery replay final tick None does not match image tick "@
                    + crate::text::decimal(expected as nat),
            },
            RecoveryError::ReplayPlayerSetMismatch =>
                "recovery replay players do not match session snapshot"@,
            RecoveryError::ReplayTickGapTooLarge { from_tick, to_tick } =>
                "recovery replay tick gap from "@ + crate::text::decimal(from_tick as nat)
                + " to "@ + crate::text::decimal(to_tick as nat) + " exceeds 1"@,
            RecoveryError::ReplayStartsBeforeSimulation { simulation_tick, record_tick } =>
                "recovery replay record tick "@ + crate::text::decimal(record_tick as nat)
                + " precedes simulation tick "@ + crate::text::decimal(simulation_tick as nat),
            RecoveryError::MissingPlayerOnRemoval(player_id) =>
                "recovery replay attempted to remove missing player "@ + crate::text::decimal(
                player_id as nat,
            ),
            RecoveryError::MissingFinalCheckpoint(tick) =>
                "recovery replay does not end with a checkpoint at tick "@ + crate::text::decimal(
                tick as nat,
            ),
            RecoveryError::Replay(error) => "replay error: "@ + error.message(),
            RecoveryError::Session(error) => "session recovery error: "@ + error.message(),
            RecoveryError::Simulation(error) => "simulation recovery error: "@ + error@,
            RecoveryError::Io(error) => "recovery I/O error: "@ + error@,
        }
    }

    pub fn to_string(&self) -> (text: String)
        ensures
            text@ == self.message(),
    {
        match self {
            RecoveryError::InvalidMagic => "invalid recovery image magic".to_owned(),
            RecoveryError::UnsupportedVersion(version) => {
                let mut text = "unsupported recovery image version ".to_owned();
                push_decimal(&mut text, *version as u64);
                text
            },
            RecoveryError::Truncated => "truncated recovery image".to_owned(),
            RecoveryError::TrailingBytes(count) => {
                let mut text = "recovery image has ".to_owned();
                push_decimal(&mut text, *count as u64);
                text.push_str(" trailing bytes");
                text
            },
            RecoveryError::ImageTooLarge(size) => {
                let mut text = "recovery image size ".to_owned();
                push_decimal(&mut text, *size as u64);
                text.push_str(" exceeds limit");
                text
            },
            RecoveryError::ReplayTooLarge(size) => {
                let mut text = "replay payload is too large: ".to_owned();
                push_decimal(&mut text, *size as u64);
                text
            },
            RecoveryError::SessionCountTooLarge(count) => {
                let mut text = "recovery session count is too large: ".to_owned();
                push_decimal(&mut text, *count as u64);
                text
            },
            RecoveryError::ReplayTickMismatch { expected, actual } => match actual {
                Some(tick) => {
                    let mut text = "recovery replay final tick Some(".to_owned();
                    push_decimal(&mut text, *tick);
                    text.push_str(") does not match image tick ");
                    push_decimal(&mut text, *expected);
                    text
                },
                None => {
                    let mut text =
                        "recovery replay final tick None does not match image tick ".to_owned();
                    push_decimal(&mut text, *expected);
                    text
                },
            },
            RecoveryError::ReplayPlayerSetMismatch =>
                "recovery replay players do not match session snapshot".to_owned(),
            RecoveryError::ReplayTickGapTooLarge { from_tick, to_tick } => {
                let mut text = "recovery replay tick gap from ".to_owned();
                push_decimal(&mut text, *from_tick);
                text.push_str(" to ");
                push_decimal(&mut text, *to_tick);
                text.push_str(" exceeds 1");
                text
            },
            RecoveryError::ReplayStartsBeforeSimulation { simulation_tick, record_tick } => {
                let mut text = "recovery replay record tick ".to_owned();
                push_decimal(&mut text, *record_tick);
                text.push_str(" precedes simulation tick ");
                push_decimal(&mut text, *simulation_tick);
                text
            },
            RecoveryError::MissingPlayerOnRemoval(player_id) => {
                let mut text = "recovery replay attempted to remove missing player ".to_owned();
                push_decimal(&mut text, *player_id as u64);
                text
            },
            RecoveryError::MissingFinalCheckpoint(tick) => {
                let mut text = "recovery replay does not end with a checkpoint at tick ".to_owned();
                push_decimal(&mut text, *tick);
                text
            },
            RecoveryError::Replay(error) => {
                let mut text = "replay error: ".to_owned();
                text.push_str(error.to_string().as_str());
                text
            },
            RecoveryError::Session(error) => {
                let mut text = "session recovery error: ".to_owned();
                text.push_str(error.to_string().as_str());
                text
            },
            RecoveryError::Simulation(error) => {
                let mut text = "simulation recovery error: ".to_owned();
                text.push_str(error.to_string().as_str());
                text
            },
            RecoveryError::Io(error) => {
                let mut text = "recovery I/O error: ".to_owned();
                text.push_str(error.as_str());
                text
            },
        }
    }
}

impl From<ReplayError> for RecoveryError {
    fn from(error: ReplayError) -> (converted: Self) {
        RecoveryError::Replay(error)
    }
}

impl vstd::std_specs::convert::FromSpecImpl<ReplayError> for RecoveryError {
    open spec fn obeys_from_spec() -> bool {
        true
    }

    open spec fn from_spec(error: ReplayError) -> Self {
        RecoveryError::Replay(error)
    }
}

impl From<SessionRecoveryError> for RecoveryError {
    fn from(error: SessionRecoveryError) -> (converted: Self) {
        RecoveryError::Session(error)
    }
}

impl vstd::std_specs::convert::FromSpecImpl<SessionRecoveryError> for RecoveryError {
    open spec fn obeys_from_spec() -> bool {
        true
    }

    open spec fn from_spec(error: SessionRecoveryError) -> Self {
        RecoveryError::Session(error)
    }
}

impl From<SimulationError> for RecoveryError {
    fn from(error: SimulationError) -> (converted: Self) {
        RecoveryError::Simulation(error)
    }
}

impl vstd::std_specs::convert::FromSpecImpl<SimulationError> for RecoveryError {
    open spec fn obeys_from_spec() -> bool {
        true
    }

    open spec fn from_spec(error: SimulationError) -> Self {
        RecoveryError::Simulation(error)
    }
}

/// The recovery error that an interpreter's error becomes.
pub open spec fn interpreter_error(error: ReplayError) -> RecoveryError {
    match error {
        ReplayError::TickGapTooLarge { from_tick, to_tick, .. } =>
            RecoveryError::ReplayTickGapTooLarge { from_tick, to_tick },
        ReplayError::ReplayStartsBeforeSimulation { simulation_tick, record_tick } =>
            RecoveryError::ReplayStartsBeforeSimulation { simulation_tick, record_tick },
        ReplayError::MissingPlayerOnRemoval(player_id) => RecoveryError::MissingPlayerOnRemoval(
            player_id,
        ),
        ReplayError::Simulation(refusal) => RecoveryError::Simulation(refusal),
        other => RecoveryError::Replay(other),
    }
}

fn from_interpreter(error: ReplayError) -> (converted: RecoveryError)
    ensures
        converted == interpreter_error(error),
{
    match error {
        ReplayError::TickGapTooLarge { from_tick, to_tick, .. } =>
            RecoveryError::ReplayTickGapTooLarge { from_tick, to_tick },
        ReplayError::ReplayStartsBeforeSimulation { simulation_tick, record_tick } =>
            RecoveryError::ReplayStartsBeforeSimulation { simulation_tick, record_tick },
        ReplayError::MissingPlayerOnRemoval(player_id) => RecoveryError::MissingPlayerOnRemoval(
            player_id,
        ),
        ReplayError::Simulation(refusal) => RecoveryError::Simulation(refusal),
        other => RecoveryError::Replay(other),
    }
}

/// The players that are present after a run of records.
pub open spec fn live_players(records: Seq<RecordView>) -> Set<PlayerId>
    decreases records.len(),
{
    if records.len() == 0 {
        Set::empty()
    } else {
        let earlier = live_players(records.drop_last());
        match records.last() {
            RecordView::PlayerAdmitted { player_id, .. } => earlier.insert(player_id),
            RecordView::PlayerRemoved { player_id, .. } => earlier.remove(player_id),
            _ => earlier,
        }
    }
}

/// The tick of the last record.
pub open spec fn final_tick(records: Seq<RecordView>) -> Option<u64> {
    if records.len() == 0 {
        None
    } else {
        Some(records.last().at())
    }
}

/// The highest sequence of a player's commands, or zero.
pub open spec fn highest_sequence(records: Seq<RecordView>, player_id: PlayerId) -> u32
    decreases records.len(),
{
    if records.len() == 0 {
        0
    } else {
        let earlier = highest_sequence(records.drop_last(), player_id);
        match records.last() {
            RecordView::CommandApplied { player_id: sender, sequence, .. } => if sender
                == player_id && sequence > earlier {
                sequence
            } else {
                earlier
            },
            _ => earlier,
        }
    }
}

/// The binary form of a saved slot.
pub open spec fn session_bytes(session: RecoverableSession) -> Seq<u8> {
    crate::wire::be_bytes(session.player_id as nat, 4) + crate::wire::be_bytes(
        session.connection_epoch as nat,
        4,
    ) + crate::wire::be_bytes(session.remaining_grace_ticks as nat, 8)
        + session.reconnect_token.0@
}

/// The binary forms of saved slots, one after the other.
pub open spec fn sessions_bytes(sessions: Seq<RecoverableSession>) -> Seq<u8>
    decreases sessions.len(),
{
    if sessions.len() == 0 {
        Seq::empty()
    } else {
        sessions_bytes(sessions.drop_last()) + session_bytes(sessions.last())
    }
}

/// `GSRC` and the format version.
pub open spec fn recovery_magic() -> Seq<u8> {
    seq![71u8, 83u8, 82u8, 67u8, RECOVERY_FORMAT_VERSION]
}

impl ImageView {
    /// The bytes in front of the saved slots.
    pub open spec fn header(self) -> Seq<u8> {
        recovery_magic() + crate::wire::be_bytes(self.current_tick as nat, 8)
            + crate::wire::be_bytes(self.reconnect_grace_ticks as nat, 8) + crate::wire::be_bytes(
            self.next_player_id as nat,
            4,
        ) + crate::wire::be_bytes(self.sessions.len(), 2) + crate::wire::be_bytes(
            crate::replay::log_bytes(self.records).len(),
            4,
        )
    }

    /// The binary form of an image.
    pub open spec fn bytes(self) -> Seq<u8> {
        self.header() + sessions_bytes(self.sessions) + crate::replay::log_bytes(self.records)
    }

    /// The number of bytes in an image's binary form.
    pub open spec fn size(self) -> int {
        RECOVERY_HEADER_BYTES + RECOVERY_SESSION_BYTES * self.sessions.len()
            + crate::replay::log_bytes(self.records).len()
    }

    /// What contradicts itself in an image: its history has to end at its tick, and the players of
    /// the history have to be those of the saved slots.
    pub open spec fn structure_fault(self) -> Option<RecoveryError> {
        if final_tick(self.records) != Some(self.current_tick) {
            Some(
                RecoveryError::ReplayTickMismatch {
                    expected: self.current_tick,
                    actual: final_tick(self.records),
                },
            )
        } else if live_players(self.records) != crate::session::player_ids(
            self.sessions,
        ).to_set() {
            Some(RecoveryError::ReplayPlayerSetMismatch)
        } else {
            None
        }
    }

    /// Why an image has no binary form, if it has none.
    pub open spec fn refusal(self) -> Option<RecoveryError> {
        let replay_len = crate::replay::log_bytes(self.records).len();
        if self.structure_fault() is Some {
            self.structure_fault()
        } else if crate::replay::records_refusal(self.records) is Some {
            Some(RecoveryError::Replay(crate::replay::records_refusal(self.records)->0))
        } else if replay_len > u32::MAX {
            Some(RecoveryError::ReplayTooLarge(replay_len as usize))
        } else if self.sessions.len() > u16::MAX {
            Some(RecoveryError::SessionCountTooLarge(self.sessions.len() as usize))
        } else if self.size() > usize::MAX {
            Some(RecoveryError::ImageTooLarge(usize::MAX))
        } else if self.size() > MAX_RECOVERY_IMAGE_BYTES {
            Some(RecoveryError::ImageTooLarge(self.size() as usize))
        } else {
            None
        }
    }

    /// What keeps a state that the history leads to from being the state at the image's tick.
    pub open spec fn arrival_fault(self, reached_tick: u64) -> Option<RecoveryError> {
        if reached_tick != self.current_tick {
            Some(
                RecoveryError::ReplayTickMismatch {
                    expected: self.current_tick,
                    actual: final_tick(self.records),
                },
            )
        } else if !self.ends_with_checkpoint() {
            Some(RecoveryError::MissingFinalCheckpoint(self.current_tick))
        } else {
            None
        }
    }

    /// Whether the last record is a checkpoint at the image's tick.
    pub open spec fn ends_with_checkpoint(self) -> bool {
        &&& self.records.len() > 0
        &&& self.records.last() is Checkpoint
        &&& self.records.last().at() == self.current_tick
    }

    /// The last command sequence of each saved slot.
    pub open spec fn sequences(self) -> Map<PlayerId, u32> {
        Map::new(
            |id: PlayerId| crate::session::player_ids(self.sessions).contains(id),
            |id: PlayerId| highest_sequence(self.records, id),
        )
    }
}

/// The first rule that bytes break as an image before their history and slots are compared.
pub open spec fn layout_fault(bytes: Seq<u8>) -> Option<RecoveryError> {
    let session_count = crate::wire::be_value(bytes.subrange(25, 27));
    let replay_len = crate::wire::be_value(bytes.subrange(27, 31));
    let replay_offset = RECOVERY_HEADER_BYTES + RECOVERY_SESSION_BYTES * session_count;
    let expected_len = replay_offset + replay_len;
    if bytes.len() > MAX_RECOVERY_IMAGE_BYTES {
        Some(RecoveryError::ImageTooLarge(bytes.len() as usize))
    } else if bytes.len() < RECOVERY_HEADER_BYTES {
        Some(RecoveryError::Truncated)
    } else if bytes.subrange(0, 4) != recovery_magic().subrange(0, 4) {
        Some(RecoveryError::InvalidMagic)
    } else if bytes[4] != RECOVERY_FORMAT_VERSION {
        Some(RecoveryError::UnsupportedVersion(bytes[4]))
    } else if expected_len > usize::MAX {
        Some(RecoveryError::ImageTooLarge(usize::MAX))
    } else if expected_len > bytes.len() {
        Some(RecoveryError::Truncated)
    } else if expected_len < bytes.len() {
        Some(RecoveryError::TrailingBytes((bytes.len() - expected_len) as usize))
    } else if crate::replay::log_fault(bytes.subrange(replay_offset, expected_len)) is Some {
        Some(
            RecoveryError::Replay(
                crate::replay::log_fault(bytes.subrange(replay_offset, expected_len))->0,
            ),
        )
    } else {
        None
    }
}

/// Whether reading bytes as an image fails with `error`: they break a rule of the layout, or what
/// they lay out does not fit together.
pub open spec fn unreadable(bytes: Seq<u8>, error: RecoveryError) -> bool {
    match layout_fault(bytes) {
        Some(fault) => error == fault,
        None => exists|image: ImageView| #[trigger]
            image.bytes() == bytes && crate::replay::records_refusal(image.records) is None
                && image.structure_fault() == Some(error),
    }
}

impl RecoveryImage {
    /// The binary form of the image.
    pub fn encode(&self) -> (result: Result<Vec<u8>, RecoveryError>)
        ensures
            match result {
                Ok(bytes) => self@.refusal() is None && bytes@ == self@.bytes(),
                Err(error) => self@.refusal() == Some(error),
            },
    {
        if let Err(error) = self.validate_structure() {
            return Err(error);
        }
        let replay = match self.replay.encode() {
            Ok(replay) => replay,
            Err(error) => {
                return Err(RecoveryError::Replay(error));
            },
        };
        if replay.len() as u64 > u32::MAX as u64 {
            return Err(RecoveryError::ReplayTooLarge(replay.len()));
        }
        let session_count: usize = self.sessions.sessions.len();
        if session_count > 65535 {
            return Err(RecoveryError::SessionCountTooLarge(session_count));
        }
        let expected_size: usize = match (RECOVERY_HEADER_BYTES + RECOVERY_SESSION_BYTES
            * session_count).checked_add(replay.len()) {
            Some(size) => size,
            None => {
                return Err(RecoveryError::ImageTooLarge(usize::MAX));
            },
        };
        if expected_size > MAX_RECOVERY_IMAGE_BYTES {
            return Err(RecoveryError::ImageTooLarge(expected_size));
        }
        let mut bytes: Vec<u8> = Vec::with_capacity(expected_size);
        bytes.push(71);
        bytes.push(83);
        bytes.push(82);
        bytes.push(67);
        bytes.push(RECOVERY_FORMAT_VERSION);
        assert(bytes@ =~= recovery_magic());
        push_be(&mut bytes, self.current_tick, 8);
        push_be(&mut bytes, self.reconnect_grace_ticks, 8);
        push_be(&mut bytes, self.sessions.next_player_id as u64, 4);
        push_be(&mut bytes, session_count as u64, 2);
        push_be(&mut bytes, replay.len() as u64, 4);
        let ghost all = self.sessions.sessions@;
        let ghost header = bytes@;
        assert(header == self@.header());
        let mut i: usize = 0;
        assert(all.take(0) =~= Seq::<RecoverableSession>::empty());
        assert(bytes@ =~= header + sessions_bytes(all.take(0)));
        while i < session_count
            invariant
                i <= session_count,
                session_count == self.sessions.sessions@.len(),
                all == self.sessions.sessions@,
                bytes@ == header + sessions_bytes(all.take(i as int)),
            decreases session_count - i,
        {
            let session: &RecoverableSession = &self.sessions.sessions[i];
            push_be(&mut bytes, session.player_id as u64, 4);
            push_be(&mut bytes, session.connection_epoch as u64, 4);
            push_be(&mut bytes, session.remaining_grace_ticks, 8);
            push_all(&mut bytes, session.reconnect_token.0.as_slice());
            i = i + 1;
            proof {
                assert(all.take(i as int).drop_last() =~= all.take(i - 1));
                assert(all.take(i as int).last() == *session);
                assert(bytes@ =~= header + sessions_bytes(all.take(i as int)));
            }
        }
        assert(all.take(i as int) =~= all);
        push_all(&mut bytes, replay.as_slice());
        Ok(bytes)
    }

    /// Reads an image from its binary form.
    pub fn decode(bytes: &[u8]) -> (result: Result<Self, RecoveryError>)
        ensures
            match result {
                Ok(image) => {
                    &&& layout_fault(bytes@) is None
                    &&& image@.refusal() is None
                    &&& crate::replay::in_tick_order(image@.records)
                    &&& bytes@ == image@.bytes()
                },
                Err(error) => unreadable(bytes@, error),
            },
    {
        if bytes.len() > MAX_RECOVERY_IMAGE_BYTES {
            return Err(RecoveryError::ImageTooLarge(bytes.len()));
        }
        if bytes.len() < RECOVERY_HEADER_BYTES {
            return Err(RecoveryError::Truncated);
        }
        if bytes[0] != 71 || bytes[1] != 83 || bytes[2] != 82 || bytes[3] != 67 {
            assert(bytes@.subrange(0, 4)[0] == bytes@[0]);
            assert(bytes@.subrange(0, 4)[1] == bytes@[1]);
            assert(bytes@.subrange(0, 4)[2] == bytes@[2]);
            assert(bytes@.subrange(0, 4)[3] == bytes@[3]);
            return Err(RecoveryError::InvalidMagic);
        }
        assert(bytes@.subrange(0, 4) =~= recovery_magic().subrange(0, 4));
        if bytes[4] != RECOVERY_FORMAT_VERSION {
            return Err(RecoveryError::UnsupportedVersion(bytes[4]));
        }
        let current_tick: u64 = read_u64(bytes, 5);
        let reconnect_grace_ticks: u64 = read_u64(bytes, 13);
        let next_player_id: PlayerId = read_u32(bytes, 21);
        let session_count: usize = read_u16(bytes, 25) as usize;
        let replay_len: usize = read_u32(bytes, 27) as usize;
        let replay_offset: usize = RECOVERY_HEADER_BYTES + RECOVERY_SESSION_BYTES * session_count;
        let expected_len: usize = match replay_offset.checked_add(replay_len) {
            Some(length) => length,
            None => {
                return Err(RecoveryError::ImageTooLarge(usize::MAX));
            },
        };
        if expected_len > bytes.len() {
            return Err(RecoveryError::Truncated);
        }
        if expected_len < bytes.len() {
            return Err(RecoveryError::TrailingBytes(bytes.len() - expected_len));
        }
        let mut sessions: Vec<RecoverableSession> = Vec::with_capacity(session_count);
        let mut i: usize = 0;
        assert(bytes@.subrange(RECOVERY_HEADER_BYTES as int, RECOVERY_HEADER_BYTES as int)
            =~= sessions_bytes(sessions@));
        while i < session_count
            invariant
                i <= session_count <= 65535,
                replay_offset == RECOVERY_HEADER_BYTES + RECOVERY_SESSION_BYTES * session_count,
                replay_offset <= bytes.len(),
                sessions@.len() == i,
                bytes@.subrange(
                    RECOVERY_HEADER_BYTES as int,
                    RECOVERY_HEADER_BYTES + RECOVERY_SESSION_BYTES * i,
                ) == sessions_bytes(sessions@),
            decreases session_count - i,
        {
            let offset: usize = RECOVERY_HEADER_BYTES + RECOVERY_SESSION_BYTES * i;
            let session = RecoverableSession {
                player_id: read_u32(bytes, offset),
                connection_epoch: read_u32(bytes, offset + 4),
                remaining_grace_ticks: read_u64(bytes, offset + 8),
                reconnect_token: ReconnectToken(read_16(bytes, offset + 16)),
            };
            let ghost before = sessions@;
            sessions.push(session);
            i = i + 1;
            proof {
                crate::wire::lemma_be_bytes_of_value(bytes@.subrange(offset as int, offset + 4));
                crate::wire::lemma_be_bytes_of_value(bytes@.subrange(offset + 4, offset + 8));
                crate::wire::lemma_be_bytes_of_value(bytes@.subrange(offset + 8, offset + 16));
                assert(bytes@.subrange(offset as int, offset + 32) =~= session_bytes(session));
                assert(sessions@.drop_last() =~= before);
                assert(bytes@.subrange(RECOVERY_HEADER_BYTES as int, offset + 32)
                    =~= bytes@.subrange(RECOVERY_HEADER_BYTES as int, offset as int)
                    + session_bytes(session));
            }
        }
        let replay = match ReplayLog::decode(slice_subrange(bytes, replay_offset, expected_len)) {
            Ok(replay) => replay,
            Err(error) => {
                return Err(RecoveryError::Replay(error));
            },
        };
        let image = RecoveryImage {
            current_tick,
            reconnect_grace_ticks,
            replay,
            sessions: SessionRecoverySnapshot { next_player_id, sessions },
        };
        proof {
            crate::wire::lemma_be_bytes_of_value(bytes@.subrange(5, 13));
            crate::wire::lemma_be_bytes_of_value(bytes@.subrange(13, 21));
            crate::wire::lemma_be_bytes_of_value(bytes@.subrange(21, 25));
            crate::wire::lemma_be_bytes_of_value(bytes@.subrange(25, 27));
            crate::wire::lemma_be_bytes_of_value(bytes@.subrange(27, 31));
            assert(bytes@.subrange(0, 31) =~= image@.header());
            assert(bytes@ =~= bytes@.subrange(0, 31) + bytes@.subrange(31, replay_offset as int)
                + bytes@.subrange(replay_offset as int, expected_len as int));
            assert(bytes@ == image@.bytes());
        }
        if let Err(error) = image.validate_structure() {
            return Err(error);
        }
        proof {
            assert(image@.size() == bytes@.len());
        }
        Ok(image)
    }

    /// The last command sequence of each saved slot.
    pub fn last_sequences(&self) -> (sequences: BTreeMap<PlayerId, u32>)
        ensures
            sequences@ == self@.sequences(),
    {
        let mut sequences: BTreeMap<PlayerId, u32> = BTreeMap::new();
        let ghost ids = crate::session::player_ids(self.sessions.sessions@);
        let mut i: usize = 0;
        while i < self.sessions.sessions.len()
            invariant
                i <= self.sessions.sessions.len(),
                ids == crate::session::player_ids(self.sessions.sessions@),
                forall|id: PlayerId| #[trigger]
                    sequences@.contains_key(id) <==> ids.take(i as int).contains(id),
                forall|id: PlayerId| #[trigger]
                    sequences@.contains_key(id) ==> sequences@[id] == 0,
            decreases self.sessions.sessions.len() - i,
        {
            let player_id: PlayerId = self.sessions.sessions[i].player_id;
            let ghost before = sequences@;
            sequences.insert(player_id, 0);
            proof {
                assert(ids.take(i + 1) =~= ids.take(i as int).push(player_id));
                assert forall|id: PlayerId| #[trigger]
                    sequences@.contains_key(id) <==> ids.take(i + 1).contains(id) by {
                    crate::session::lemma_push_contains(ids.take(i as int), player_id, id);
                    assert(sequences@.contains_key(id) <==> before.contains_key(id) || id
                        == player_id);
                }
            }
            i = i + 1;
        }
        assert(ids.take(i as int) =~= ids);
        let records = self.replay.records();
        let ghost all = self.replay@;
        let mut j: usize = 0;
        assert(all.take(0) =~= Seq::<RecordView>::empty());
        while j < records.len()
            invariant
                j <= records.len(),
                all == crate::replay::record_views(records@),
                forall|id: PlayerId| #[trigger]
                    sequences@.contains_key(id) <==> ids.contains(id),
                forall|id: PlayerId| #[trigger]
                    sequences@.contains_key(id) ==> sequences@[id] == highest_sequence(
                        all.take(j as int),
                        id,
                    ),
            decreases records.len() - j,
        {
            let ghost before = sequences@;
            assert(all.take(j + 1).drop_last() =~= all.take(j as int));
            assert(all.take(j + 1).last() == records@[j as int]@);
            if let ReplayRecord::CommandApplied { player_id, sequence, .. } = &records[j] {
                let current: Option<u32> = match sequences.get(player_id) {
                    Some(current) => Some(*current),
                    None => None,
                };
                if let Some(current) = current {
                    if *sequence > current {
                        sequences.insert(*player_id, *sequence);
                    }
                }
            }
            assert forall|id: PlayerId| #[trigger] sequences@.contains_key(id) implies
                sequences@[id] == highest_sequence(all.take(j + 1), id) by {
                assert(before.contains_key(id));
            }
            j = j + 1;
        }
        proof {
            assert(all.take(j as int) =~= all);
            assert(sequences@ =~= self@.sequences());
        }
        sequences
    }

    /// Interprets the image's history into a fresh game, which has to arrive at the image's tick on
    /// a checkpoint.
    pub fn restore_simulation<S: GameSimulation>(&self, simulation: S) -> (result: Result<
        S,
        RecoveryError,
    >)
        ensures
            match result {
                Ok(state) => crate::replay::reaches(simulation, self@.records, state)
                    && self@.arrival_fault(state.tick()) is None,
                Err(error) => (exists|refusal: ReplayError| #[trigger]
                    crate::replay::fails(simulation, self@.records, refusal) && error
                        == interpreter_error(refusal)) || (exists|state: S| #[trigger]
                    crate::replay::reaches(simulation, self@.records, state)
                        && self@.arrival_fault(state.tick()) == Some(error)),
            },
    {
        let state = match replay_into(simulation, &self.replay) {
            Ok((state, _)) => state,
            Err(error) => {
                return Err(from_interpreter(error));
            },
        };
        let records = self.replay.records();
        let last_tick: Option<u64> = if records.len() == 0 {
            None
        } else {
            Some(records[records.len() - 1].tick())
        };
        assert(last_tick == final_tick(self@.records));
        if state.current_tick() != self.current_tick {
            return Err(
                RecoveryError::ReplayTickMismatch {
                    expected: self.current_tick,
                    actual: last_tick,
                },
            );
        }
        if records.len() > 0 {
            if let ReplayRecord::Checkpoint { snapshot } = &records[records.len() - 1] {
                if snapshot.tick == self.current_tick {
                    return Ok(state);
                }
            }
        }
        Err(RecoveryError::MissingFinalCheckpoint(self.current_tick))
    }

    /// Whether the history ends at the image's tick and its players are those of the saved slots.
    fn validate_structure(&self) -> (result: Result<(), RecoveryError>)
        ensures
            match result {
                Ok(_) => self@.structure_fault() is None,
                Err(error) => self@.structure_fault() == Some(error),
            },
    {
        let records = self.replay.records();
        let ghost all = self.replay@;
        let last_tick: Option<u64> = if records.len() == 0 {
            None
        } else {
            Some(records[records.len() - 1].tick())
        };
        assert(last_tick == final_tick(all));
        let in_time = match last_tick {
            Some(tick) => tick == self.current_tick,
            None => false,
        };
        if !in_time {
            return Err(
                RecoveryError::ReplayTickMismatch {
                    expected: self.current_tick,
                    actual: last_tick,
                },
            );
        }
        let mut live: BTreeSet<PlayerId> = BTreeSet::new();
        let mut i: usize = 0;
        assert(all.take(0) =~= Seq::<RecordView>::empty());
        while i < records.len()
            invariant
                i <= records.len(),
                all == crate::replay::record_views(records@),
                live@ == live_players(all.take(i as int)),
            decreases records.len() - i,
        {
            assert(all.take(i + 1).drop_last() =~= all.take(i as int));
            assert(all.take(i + 1).last() == records@[i as int]@);
            match &records[i] {
                ReplayRecord::PlayerAdmitted { player_id, .. } => {
                    live.insert(*player_id);
                },
                ReplayRecord::PlayerRemoved { player_id, .. } => {
                    live.remove(player_id);
                },
                _ => {},
            }
            i = i + 1;
        }
        assert(all.take(i as int) =~= all);
        let mut saved: BTreeSet<PlayerId> = BTreeSet::new();
        let ghost ids = crate::session::player_ids(self.sessions.sessions@);
        let mut all_live = true;
        let mut j: usize = 0;
        assert(ids.take(0).to_set() =~= saved@);
        while j < self.sessions.sessions.len()
            invariant
                j <= self.sessions.sessions.len(),
                ids == crate::session::player_ids(self.sessions.sessions@),
                live@ == live_players(all),
                saved@ == ids.take(j as int).to_set(),
                all_live == saved@.subset_of(live@),
            decreases self.sessions.sessions.len() - j,
        {
            let player_id: PlayerId = self.sessions.sessions[j].player_id;
            let ghost before = saved@;
            if !live.contains(&player_id) {
                all_live = false;
            }
            saved.insert(player_id);
            proof {
                assert(ids.take(j + 1) =~= ids.take(j as int).push(player_id));
                assert forall|id: PlayerId| saved@.contains(id) == ids.take(
                    j + 1,
                ).to_set().contains(id) by {
                    crate::session::lemma_push_contains(ids.take(j as int), player_id, id);
                }
                assert(saved@ =~= ids.take(j + 1).to_set());
                assert(saved@.contains(player_id));
                if before.subset_of(live@) && live@.contains(player_id) {
                    assert(saved@.subset_of(live@));
                }
                if saved@.subset_of(live@) {
                    assert(before.subset_of(live@));
                }
            }
            j = j + 1;
        }
        proof {
            assert(ids.take(j as int) =~= ids);
            lemma_live_players_finite(all);
            if all_live && saved@.len() == live@.len() {
                vstd::set_lib::lemma_subset_equality(saved@, live@);
            }
        }
        if !all_live || saved.len() != live.len() {
            return Err(RecoveryError::ReplayPlayerSetMismatch);
        }
        Ok(())
    }
}

proof fn lemma_live_players_finite(records: Seq<RecordView>)
    ensures
        live_players(records).finite(),
    decreases records.len(),
{
    if records.len() > 0 {
        lemma_live_players_finite(records.drop_last());
    }
}

/// The name of the file in which an image is written before it takes its final name.
pub fn recovery_temp_name(file_name: Option<&str>) -> (name: String)
    ensures
        name@ == "."@ + (match file_name {
            Some(file_name) => file_name@,
            None => "recovery"@,
        }) + ".tmp"@,
{
    let mut name = ".".to_owned();
    match file_name {
        Some(file_name) => {
            name.push_str(file_name);
        },
        None => {
            name.push_str("recovery");
        },
    }
    name.push_str(".tmp");
    name
}

/// The size of a stored file as memory counts it, or why the file is not read.
pub fn stored_image_size(length: u64) -> (result: Result<usize, RecoveryError>)
    ensures
        result == if length <= MAX_RECOVERY_IMAGE_BYTES {
            Ok::<usize, RecoveryError>(length as usize)
        } else if length <= usize::MAX {
            Err(RecoveryError::ImageTooLarge(length as usize))
        } else {
            Err(RecoveryError::ImageTooLarge(usize::MAX))
        },
{
    let size: usize = if length > usize::MAX as u64 {
        usize::MAX
    } else {
        length as usize
    };
    if size > MAX_RECOVERY_IMAGE_BYTES {
        Err(RecoveryError::ImageTooLarge(size))
    } else {
        Ok(size)
    }
}

proof fn lemma_sessions_bytes_len(sessions: Seq<RecoverableSession>)
    ensures
        sessions_bytes(sessions).len() == RECOVERY_SESSION_BYTES * sessions.len(),
    decreases sessions.len(),
{
    broadcast use crate::wire::lemma_be_bytes_len;

    if sessions.len() > 0 {
        lemma_sessions_bytes_len(sessions.drop_last());
    }
}

/// Saved slots with the same bytes are the same.
proof fn lemma_sessions_bytes_injective(a: Seq<RecoverableSession>, b: Seq<RecoverableSession>)
    requires
        a.len() == b.len(),
        sessions_bytes(a) == sessions_bytes(b),
    ensures
        a == b,
    decreases a.len(),
{
    broadcast use crate::wire::lemma_be_bytes_len, crate::wire::lemma_be_round_trip;

    if a.len() > 0 {
        crate::wire::lemma_pow256();
        lemma_sessions_bytes_len(a.drop_last());
        lemma_sessions_bytes_len(b.drop_last());
        let cut = RECOVERY_SESSION_BYTES * (a.len() - 1);
        let run_a = session_bytes(a.last());
        let run_b = session_bytes(b.last());
        assert(sessions_bytes(a.drop_last()) =~= sessions_bytes(a).take(cut));
        assert(sessions_bytes(b.drop_last()) =~= sessions_bytes(b).take(cut));
        assert(run_a =~= sessions_bytes(a).skip(cut));
        assert(run_b =~= sessions_bytes(b).skip(cut));
        lemma_sessions_bytes_injective(a.drop_last(), b.drop_last());
        assert(run_a.subrange(0, 4) =~= crate::wire::be_bytes(a.last().player_id as nat, 4));
        assert(run_b.subrange(0, 4) =~= crate::wire::be_bytes(b.last().player_id as nat, 4));
        assert(run_a.subrange(4, 8) =~= crate::wire::be_bytes(a.last().connection_epoch as nat, 4));
        assert(run_b.subrange(4, 8) =~= crate::wire::be_bytes(b.last().connection_epoch as nat, 4));
        assert(run_a.subrange(8, 16) =~= crate::wire::be_bytes(
            a.last().remaining_grace_ticks as nat,
            8,
        ));
        assert(run_b.subrange(8, 16) =~= crate::wire::be_bytes(
            b.last().remaining_grace_ticks as nat,
            8,
        ));
        assert(run_a.subrange(16, 32) =~= a.last().reconnect_token.0@);
        assert(run_b.subrange(16, 32) =~= b.last().reconnect_token.0@);
        assert(a.last().reconnect_token.0 =~= b.last().reconnect_token.0);
        assert(a =~= a.drop_last().push(a.last()));
        assert(b =~= b.drop_last().push(b.last()));
    } else {
        assert(a =~= b);
    }
}

/// Where each part of an image stands in its binary form.
proof fn lemma_image_parts(image: ImageView)
    requires
        image.sessions.len() <= u16::MAX,
        crate::replay::log_bytes(image.records).len() <= u32::MAX,
    ensures
        ({
            let bytes = image.bytes();
            let replay_offset = RECOVERY_HEADER_BYTES + RECOVERY_SESSION_BYTES
                * image.sessions.len();
            &&& bytes.len() == image.size()
            &&& bytes.subrange(0, 5) == recovery_magic()
            &&& crate::wire::be_value(bytes.subrange(5, 13)) == image.current_tick
            &&& crate::wire::be_value(bytes.subrange(13, 21)) == image.reconnect_grace_ticks
            &&& crate::wire::be_value(bytes.subrange(21, 25)) == image.next_player_id
            &&& crate::wire::be_value(bytes.subrange(25, 27)) == image.sessions.len()
            &&& crate::wire::be_value(bytes.subrange(27, 31)) == crate::replay::log_bytes(
                image.records,
            ).len()
            &&& bytes.subrange(31, replay_offset) == sessions_bytes(image.sessions)
            &&& bytes.subrange(replay_offset, bytes.len() as int) == crate::replay::log_bytes(
                image.records,
            )
        }),
{
    broadcast use crate::wire::lemma_be_bytes_len, crate::wire::lemma_be_round_trip;

    crate::wire::lemma_pow256();
    lemma_sessions_bytes_len(image.sessions);
    let bytes = image.bytes();
    let log = crate::replay::log_bytes(image.records);
    let replay_offset = RECOVERY_HEADER_BYTES + RECOVERY_SESSION_BYTES * image.sessions.len();
    assert(bytes.subrange(0, 5) =~= recovery_magic());
    assert(bytes.subrange(5, 13) =~= crate::wire::be_bytes(image.current_tick as nat, 8));
    assert(bytes.subrange(13, 21) =~= crate::wire::be_bytes(image.reconnect_grace_ticks as nat, 8));
    assert(bytes.subrange(21, 25) =~= crate::wire::be_bytes(image.next_player_id as nat, 4));
    assert(bytes.subrange(25, 27) =~= crate::wire::be_bytes(image.sessions.len(), 2));
    assert(bytes.subrange(27, 31) =~= crate::wire::be_bytes(log.len(), 4));
    assert(bytes.subrange(31, replay_offset) =~= sessions_bytes(image.sessions));
    assert(bytes.subrange(replay_offset, bytes.len() as int) =~= log);
}

/// An image that has a binary form has it alone, among all images whose records have one.
proof fn lemma_same_bytes_same_image(image: ImageView, other: ImageView)
    requires
        image.refusal() is None,
        crate::replay::in_tick_order(image.records),
        crate::replay::records_refusal(other.records) is None,
        other.bytes() == image.bytes(),
    ensures
        other == image,
{
    broadcast use crate::wire::lemma_be_bytes_len, crate::wire::lemma_be_round_trip;

    crate::wire::lemma_pow256();
    let bytes = image.bytes();
    let log = crate::replay::log_bytes(other.records);
    lemma_image_parts(image);
    lemma_sessions_bytes_len(other.sessions);
    assert(bytes.len() == RECOVERY_HEADER_BYTES + RECOVERY_SESSION_BYTES * other.sessions.len()
        + log.len());
    assert(log.len() <= MAX_RECOVERY_IMAGE_BYTES);
    assert(bytes.subrange(27, 31) =~= crate::wire::be_bytes(log.len(), 4));
    assert(log.len() == crate::replay::log_bytes(image.records).len());
    assert(other.sessions.len() == image.sessions.len());
    lemma_image_parts(other);
    lemma_sessions_bytes_injective(other.sessions, image.sessions);
    crate::replay::law_log_round_trip(image.records);
    assert(other =~= image);
}

/// An image that has a binary form, with its history in tick order, decodes without error, and no
/// other image has the same bytes: encoding and decoding are inverse to each other.
pub proof fn law_image_round_trip(image: ImageView)
    requires
        image.refusal() is None,
        crate::replay::in_tick_order(image.records),
    ensures
        layout_fault(image.bytes()) is None,
        image.structure_fault() is None,
        forall|other: ImageView|
            crate::replay::records_refusal(other.records) is None && #[trigger] other.bytes()
                == image.bytes() ==> other == image,
        forall|error: RecoveryError| !#[trigger] unreadable(image.bytes(), error),
{
    let bytes = image.bytes();
    lemma_image_parts(image);
    crate::replay::law_log_round_trip(image.records);
    assert(bytes.subrange(0, 4) =~= bytes.subrange(0, 5).subrange(0, 4));
    assert(bytes[4] == bytes.subrange(0, 5)[4]);
    assert(bytes.subrange(
        RECOVERY_HEADER_BYTES + RECOVERY_SESSION_BYTES * image.sessions.len(),
        bytes.len() as int,
    ) == crate::replay::log_bytes(image.records));
    assert(layout_fault(bytes) is None);
    assert forall|other: ImageView|
        crate::replay::records_refusal(other.records) is None && #[trigger] other.bytes()
            == image.bytes() implies other == image by {
        lemma_same_bytes_same_image(image, other);
    }
    assert forall|error: RecoveryError| !#[trigger] unreadable(bytes, error) by {
        if unreadable(bytes, error) {
            let other = choose|other: ImageView| #[trigger]
                other.bytes() == bytes && crate::replay::records_refusal(other.records) is None
                    && other.structure_fault() == Some(error);
            assert(other == image);
        }
    }
}

/// What the runtime knows of a history is what an image of it says: who is present, and each
/// player's last sequence.
pub proof fn lemma_history_in_image(records: Seq<RecordView>)
    requires
        crate::replay::lawful(records),
    ensures
        crate::replay::authority(records).sequences.dom() == live_players(records),
        forall|id: PlayerId| #[trigger]
            crate::replay::authority(records).sequences.contains_key(id) ==> {
                &&& id <= crate::replay::authority(records).highest_id
                &&& crate::replay::authority(records).sequences[id] == highest_sequence(records, id)
            },
        forall|id: PlayerId|
            id > crate::replay::authority(records).highest_id ==> #[trigger] highest_sequence(
                records,
                id,
            ) == 0,
    decreases records.len(),
{
    let now = crate::replay::authority(records);
    if records.len() > 0 {
        let earlier = records.drop_last();
        let last = records.last();
        let known = crate::replay::authority(earlier);
        lemma_history_in_image(earlier);
        assert(now.sequences.dom() =~= live_players(records));
        assert forall|id: PlayerId| #[trigger] now.sequences.contains_key(id) implies {
            &&& id <= now.highest_id
            &&& now.sequences[id] == highest_sequence(records, id)
        } by {
            if last is PlayerAdmitted && last->PlayerAdmitted_player_id == id {
                assert(highest_sequence(earlier, id) == 0);
            } else {
                assert(known.sequences.contains_key(id));
            }
        }
        assert forall|id: PlayerId| id > now.highest_id implies #[trigger] highest_sequence(
            records,
            id,
        ) == 0 by {
            assert(highest_sequence(earlier, id) == 0);
            if let RecordView::CommandApplied { player_id, .. } = last {
                assert(known.sequences.contains_key(player_id));
            }
        }
    } else {
        assert(now.sequences.dom() =~= live_players(records));
    }
}

/// The command sequences that an image restores are those that the runtime knows after its history,
/// which breaks no rule of identity or sequence.
pub proof fn law_image_restores_sequences(image: ImageView)
    requires
        crate::replay::lawful(image.records),
        image.structure_fault() is None,
    ensures
        image.sequences() == crate::replay::authority(image.records).sequences,
{
    lemma_history_in_image(image.records);
    let ids = crate::session::player_ids(image.sessions);
    assert forall|id: PlayerId| image.sequences().contains_key(id)
        == crate::replay::authority(image.records).sequences.contains_key(id) by {
        assert(ids.to_set().contains(id) == live_players(image.records).contains(id));
    }
    assert(image.sequences() =~= crate::replay::authority(image.records).sequences);
}

} // verus!
