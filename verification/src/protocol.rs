//! The real-time datagram protocol: commands from players, snapshots and welcomes to them.

use crate::text::{push_decimal, push_hex};
use crate::wire::{push_all, push_be, read_16, read_u16, read_u32, read_u64};
use vstd::prelude::*;
use vstd::slice::{slice_subrange, slice_to_vec};

verus! {

pub const PROTOCOL_VERSION: u8 = 3;

pub const COMMAND_HEADER_BYTES: usize = 8;

pub const SNAPSHOT_HEADER_BYTES: usize = 20;

pub const RECONNECT_TOKEN_BYTES: usize = 16;

pub const WELCOME_BYTES: usize = 46;

pub const MAX_COMMAND_PAYLOAD_BYTES: usize = 1024;

pub const MAX_SNAPSHOT_PAYLOAD_BYTES: usize = 65535;

pub const COMMAND_KIND: u8 = 1;

pub const SNAPSHOT_KIND: u8 = 2;

pub const WELCOME_KIND: u8 = 3;

pub const FNV_OFFSET_BASIS: u64 = 0xcbf2_9ce4_8422_2325;

pub const FNV_PRIME: u64 = 0x0000_0100_0000_01b3;

pub type PlayerId = u32;

#[derive(Clone, Debug, PartialEq, Eq)]
pub struct CommandFrame {
    pub sequence: u32,
    pub payload: Vec<u8>,
}

#[derive(Clone, Debug, PartialEq, Eq)]
pub struct SnapshotFrame {
    pub tick: u64,
    pub state_hash: u64,
    pub payload: Vec<u8>,
}

#[derive(Clone, Copy, Debug, PartialEq, Eq)]
pub struct Welcome {
    pub player_id: PlayerId,
    pub tick_hz: u16,
    pub max_players: u16,
    pub current_tick: u64,
    pub connection_epoch: u32,
    pub reconnect_token: [u8; RECONNECT_TOKEN_BYTES],
    pub reconnect_grace_ticks: u64,
}

#[derive(Clone, Debug, PartialEq, Eq)]
pub enum ProtocolError {
    IncorrectLength { expected: usize, actual: usize },
    UnsupportedVersion(u8),
    UnexpectedKind(u8),
    InvalidSequence,
    PayloadTooLarge { maximum: usize, actual: usize },
    InvalidStateHash { expected: u64, actual: u64 },
}

impl ProtocolError {
    /// The sentence that describes the error.
    pub open spec fn message(self) -> Seq<char> {
        match self {
            ProtocolError::IncorrectLength { expected, actual } => "expected "@
                + crate::text::decimal(expected as nat) + " bytes, received "@
                + crate::text::decimal(actual as nat),
            ProtocolError::UnsupportedVersion(version) => "unsupported protocol version "@
                + crate::text::decimal(version as nat),
            ProtocolError::UnexpectedKind(kind) => "unexpected frame kind "@
                + crate::text::decimal(kind as nat),
            ProtocolError::InvalidSequence => "command sequence must be non-zero"@,
            ProtocolError::PayloadTooLarge { maximum, actual } => "payload size "@
                + crate::text::decimal(actual as nat) + " exceeds maximum "@
                + crate::text::decimal(maximum as nat),
            ProtocolError::InvalidStateHash { expected, actual } =>
                "snapshot hash mismatch: expected 0x"@ + crate::text::hex(expected as nat, 16)
                    + ", got 0x"@ + crate::text::hex(actual as nat, 16),
        }
    }

    pub fn to_string(&self) -> (text: String)
        ensures
            text@ == self.message(),
    {
        match self {
            ProtocolError::IncorrectLength { expected, actual } => {
                let mut text = "expected ".to_owned();
                push_decimal(&mut text, *expected as u64);
                text.push_str(" bytes, received ");
                push_decimal(&mut text, *actual as u64);
                text
            },
            ProtocolError::UnsupportedVersion(version) => {
                let mut text = "unsupported protocol version ".to_owned();
                push_decimal(&mut text, *version as u64);
                text
            },
            ProtocolError::UnexpectedKind(kind) => {
                let mut text = "unexpected frame kind ".to_owned();
                push_decimal(&mut text, *kind as u64);
                text
            },
            ProtocolError::InvalidSequence => "command sequence must be non-zero".to_owned(),
            ProtocolError::PayloadTooLarge { maximum, actual } => {
                let mut text = "payload size ".to_owned();
                push_decimal(&mut text, *actual as u64);
                text.push_str(" exceeds maximum ");
                push_decimal(&mut text, *maximum as u64);
                text
            },
            ProtocolError::InvalidStateHash { expected, actual } => {
                let mut text = "snapshot hash mismatch: expected 0x".to_owned();
                push_hex(&mut text, *expected, 16);
                text.push_str(", got 0x");
                push_hex(&mut text, *actual, 16);
                text
            },
        }
    }
}

/// The FNV-1a hash of `bytes`, continued from `hash`.
pub open spec fn fnv(hash: u64, bytes: Seq<u8>) -> u64
    decreases bytes.len(),
{
    if bytes.len() == 0 {
        hash
    } else {
        vstd::wrapping::u64_specs::wrapping_mul(fnv(hash, bytes.drop_last()) ^ (bytes.last() as u64), FNV_PRIME)
    }
}

/// The hash that binds a snapshot's payload to its tick.
pub open spec fn snapshot_digest(tick: u64, payload: Seq<u8>) -> u64 {
    let tick_hash = fnv(FNV_OFFSET_BASIS, crate::wire::be_bytes(tick as nat, 8));
    let length_hash = fnv(tick_hash, crate::wire::be_bytes(payload.len(), 8));
    fnv(length_hash, payload)
}

/// The frame of a command.
pub open spec fn command_bytes(sequence: u32, payload: Seq<u8>) -> Seq<u8> {
    seq![PROTOCOL_VERSION, COMMAND_KIND] + crate::wire::be_bytes(sequence as nat, 4)
        + crate::wire::be_bytes(payload.len(), 2) + payload
}

/// The frame of a snapshot.
pub open spec fn snapshot_bytes(tick: u64, state_hash: u64, payload: Seq<u8>) -> Seq<u8> {
    seq![PROTOCOL_VERSION, SNAPSHOT_KIND] + crate::wire::be_bytes(tick as nat, 8)
        + crate::wire::be_bytes(state_hash as nat, 8) + crate::wire::be_bytes(payload.len(), 2)
        + payload
}

/// The frame of a welcome.
pub open spec fn welcome_bytes(welcome: Welcome) -> Seq<u8> {
    seq![PROTOCOL_VERSION, WELCOME_KIND] + crate::wire::be_bytes(welcome.player_id as nat, 4)
        + crate::wire::be_bytes(welcome.tick_hz as nat, 2) + crate::wire::be_bytes(
        welcome.max_players as nat,
        2,
    ) + crate::wire::be_bytes(welcome.current_tick as nat, 8) + crate::wire::be_bytes(
        welcome.connection_epoch as nat,
        4,
    ) + welcome.reconnect_token@ + crate::wire::be_bytes(welcome.reconnect_grace_ticks as nat, 8)
}

/// Why a command cannot be framed, if it cannot.
pub open spec fn command_refusal(sequence: u32, payload: Seq<u8>) -> Option<ProtocolError> {
    if sequence == 0 {
        Some(ProtocolError::InvalidSequence)
    } else if payload.len() > MAX_COMMAND_PAYLOAD_BYTES {
        Some(
            ProtocolError::PayloadTooLarge {
                maximum: MAX_COMMAND_PAYLOAD_BYTES,
                actual: payload.len() as usize,
            },
        )
    } else {
        None
    }
}

/// Why a snapshot cannot be framed, if it cannot.
pub open spec fn snapshot_refusal(tick: u64, state_hash: u64, payload: Seq<u8>) -> Option<
    ProtocolError,
> {
    if payload.len() > MAX_SNAPSHOT_PAYLOAD_BYTES {
        Some(
            ProtocolError::PayloadTooLarge {
                maximum: MAX_SNAPSHOT_PAYLOAD_BYTES,
                actual: payload.len() as usize,
            },
        )
    } else if state_hash != snapshot_digest(tick, payload) {
        Some(
            ProtocolError::InvalidStateHash {
                expected: snapshot_digest(tick, payload),
                actual: state_hash,
            },
        )
    } else {
        None
    }
}

/// What is wrong with the first two bytes of a frame of the given kind.
pub open spec fn header_fault(bytes: Seq<u8>, kind: u8) -> Option<ProtocolError> {
    if bytes[0] != PROTOCOL_VERSION {
        Some(ProtocolError::UnsupportedVersion(bytes[0]))
    } else if bytes[1] != kind {
        Some(ProtocolError::UnexpectedKind(bytes[1]))
    } else {
        None
    }
}

/// What is wrong with the length of a frame that has to have `expected` bytes.
pub open spec fn length_fault(bytes: Seq<u8>, expected: usize) -> Option<ProtocolError> {
    if bytes.len() != expected {
        Some(ProtocolError::IncorrectLength { expected, actual: bytes.len() as usize })
    } else {
        None
    }
}

/// The first rule that bytes break as a command, if they break one.
pub open spec fn command_fault(bytes: Seq<u8>) -> Option<ProtocolError> {
    let sequence = crate::wire::be_value(bytes.subrange(2, 6));
    let length = crate::wire::be_value(bytes.subrange(6, 8));
    if bytes.len() < COMMAND_HEADER_BYTES {
        Some(
            ProtocolError::IncorrectLength {
                expected: COMMAND_HEADER_BYTES,
                actual: bytes.len() as usize,
            },
        )
    } else if header_fault(bytes, COMMAND_KIND) is Some {
        header_fault(bytes, COMMAND_KIND)
    } else if sequence == 0 {
        Some(ProtocolError::InvalidSequence)
    } else if length > MAX_COMMAND_PAYLOAD_BYTES {
        Some(
            ProtocolError::PayloadTooLarge {
                maximum: MAX_COMMAND_PAYLOAD_BYTES,
                actual: length as usize,
            },
        )
    } else {
        length_fault(bytes, (COMMAND_HEADER_BYTES + length) as usize)
    }
}

/// The first rule that bytes break as a snapshot, if they break one.
pub open spec fn snapshot_fault(bytes: Seq<u8>) -> Option<ProtocolError> {
    let tick = crate::wire::be_value(bytes.subrange(2, 10)) as u64;
    let state_hash = crate::wire::be_value(bytes.subrange(10, 18)) as u64;
    let length = crate::wire::be_value(bytes.subrange(18, 20));
    let payload = bytes.subrange(SNAPSHOT_HEADER_BYTES as int, bytes.len() as int);
    if bytes.len() < SNAPSHOT_HEADER_BYTES {
        Some(
            ProtocolError::IncorrectLength {
                expected: SNAPSHOT_HEADER_BYTES,
                actual: bytes.len() as usize,
            },
        )
    } else if header_fault(bytes, SNAPSHOT_KIND) is Some {
        header_fault(bytes, SNAPSHOT_KIND)
    } else if bytes.len() != SNAPSHOT_HEADER_BYTES + length {
        length_fault(bytes, (SNAPSHOT_HEADER_BYTES + length) as usize)
    } else if snapshot_digest(tick, payload) != state_hash {
        Some(
            ProtocolError::InvalidStateHash {
                expected: snapshot_digest(tick, payload),
                actual: state_hash,
            },
        )
    } else {
        None
    }
}

/// The first rule that bytes break as a welcome, if they break one.
pub open spec fn welcome_fault(bytes: Seq<u8>) -> Option<ProtocolError> {
    if bytes.len() != WELCOME_BYTES {
        length_fault(bytes, WELCOME_BYTES)
    } else {
        header_fault(bytes, WELCOME_KIND)
    }
}

/// Frames a command.
pub fn encode_command(sequence: u32, payload: &[u8]) -> (result: Result<Vec<u8>, ProtocolError>)
    ensures
        match result {
            Ok(bytes) => command_refusal(sequence, payload@) is None && bytes@ == command_bytes(
                sequence,
                payload@,
            ),
            Err(error) => command_refusal(sequence, payload@) == Some(error),
        },
{
    if sequence == 0 {
        return Err(ProtocolError::InvalidSequence);
    }
    if payload.len() > MAX_COMMAND_PAYLOAD_BYTES {
        return Err(
            ProtocolError::PayloadTooLarge {
                maximum: MAX_COMMAND_PAYLOAD_BYTES,
                actual: payload.len(),
            },
        );
    }
    let mut bytes: Vec<u8> = Vec::with_capacity(COMMAND_HEADER_BYTES + payload.len());
    bytes.push(PROTOCOL_VERSION);
    bytes.push(COMMAND_KIND);
    assert(bytes@ =~= seq![PROTOCOL_VERSION, COMMAND_KIND]);
    push_be(&mut bytes, sequence as u64, 4);
    push_be(&mut bytes, payload.len() as u64, 2);
    push_all(&mut bytes, payload);
    Ok(bytes)
}

/// Reads a command frame.
pub fn decode_command(bytes: &[u8]) -> (result: Result<CommandFrame, ProtocolError>)
    ensures
        match result {
            Ok(frame) => command_fault(bytes@) is None && command_refusal(
                frame.sequence,
                frame.payload@,
            ) is None && bytes@ == command_bytes(frame.sequence, frame.payload@),
            Err(error) => command_fault(bytes@) == Some(error),
        },
{
    if bytes.len() < COMMAND_HEADER_BYTES {
        return Err(
            ProtocolError::IncorrectLength { expected: COMMAND_HEADER_BYTES, actual: bytes.len() },
        );
    }
    if let Err(error) = require_header(bytes, COMMAND_KIND) {
        return Err(error);
    }
    let sequence: u32 = read_u32(bytes, 2);
    if sequence == 0 {
        return Err(ProtocolError::InvalidSequence);
    }
    let payload_len: usize = read_u16(bytes, 6) as usize;
    if payload_len > MAX_COMMAND_PAYLOAD_BYTES {
        return Err(
            ProtocolError::PayloadTooLarge {
                maximum: MAX_COMMAND_PAYLOAD_BYTES,
                actual: payload_len,
            },
        );
    }
    if let Err(error) = require_length(bytes, COMMAND_HEADER_BYTES + payload_len) {
        return Err(error);
    }
    let payload = slice_to_vec(slice_subrange(bytes, COMMAND_HEADER_BYTES, bytes.len()));
    proof {
        crate::wire::lemma_be_bytes_of_value(bytes@.subrange(2, 6));
        crate::wire::lemma_be_bytes_of_value(bytes@.subrange(6, 8));
        assert(bytes@ =~= command_bytes(sequence, payload@));
    }
    Ok(CommandFrame { sequence, payload })
}

/// Frames a snapshot whose hash binds its payload to its tick.
pub fn encode_snapshot(snapshot: &SnapshotFrame) -> (result: Result<Vec<u8>, ProtocolError>)
    ensures
        match result {
            Ok(bytes) => snapshot_refusal(
                snapshot.tick,
                snapshot.state_hash,
                snapshot.payload@,
            ) is None && bytes@ == snapshot_bytes(
                snapshot.tick,
                snapshot.state_hash,
                snapshot.payload@,
            ),
            Err(error) => snapshot_refusal(snapshot.tick, snapshot.state_hash, snapshot.payload@)
                == Some(error),
        },
{
    if snapshot.payload.len() > MAX_SNAPSHOT_PAYLOAD_BYTES {
        return Err(
            ProtocolError::PayloadTooLarge {
                maximum: MAX_SNAPSHOT_PAYLOAD_BYTES,
                actual: snapshot.payload.len(),
            },
        );
    }
    let expected_hash: u64 = snapshot_hash(snapshot.tick, snapshot.payload.as_slice());
    if snapshot.state_hash != expected_hash {
        return Err(
            ProtocolError::InvalidStateHash {
                expected: expected_hash,
                actual: snapshot.state_hash,
            },
        );
    }
    let mut bytes: Vec<u8> = Vec::with_capacity(SNAPSHOT_HEADER_BYTES + snapshot.payload.len());
    bytes.push(PROTOCOL_VERSION);
    bytes.push(SNAPSHOT_KIND);
    assert(bytes@ =~= seq![PROTOCOL_VERSION, SNAPSHOT_KIND]);
    push_be(&mut bytes, snapshot.tick, 8);
    push_be(&mut bytes, snapshot.state_hash, 8);
    push_be(&mut bytes, snapshot.payload.len() as u64, 2);
    push_all(&mut bytes, snapshot.payload.as_slice());
    Ok(bytes)
}

/// Reads a snapshot frame.
pub fn decode_snapshot(bytes: &[u8]) -> (result: Result<SnapshotFrame, ProtocolError>)
    ensures
        match result {
            Ok(frame) => snapshot_fault(bytes@) is None && snapshot_refusal(
                frame.tick,
                frame.state_hash,
                frame.payload@,
            ) is None && bytes@ == snapshot_bytes(frame.tick, frame.state_hash, frame.payload@),
            Err(error) => snapshot_fault(bytes@) == Some(error),
        },
{
    if bytes.len() < SNAPSHOT_HEADER_BYTES {
        return Err(
            ProtocolError::IncorrectLength { expected: SNAPSHOT_HEADER_BYTES, actual: bytes.len() },
        );
    }
    if let Err(error) = require_header(bytes, SNAPSHOT_KIND) {
        return Err(error);
    }
    let tick: u64 = read_u64(bytes, 2);
    let state_hash: u64 = read_u64(bytes, 10);
    let payload_len: usize = read_u16(bytes, 18) as usize;
    if let Err(error) = require_length(bytes, SNAPSHOT_HEADER_BYTES + payload_len) {
        return Err(error);
    }
    let payload = slice_to_vec(slice_subrange(bytes, SNAPSHOT_HEADER_BYTES, bytes.len()));
    let expected_hash: u64 = snapshot_hash(tick, payload.as_slice());
    if expected_hash != state_hash {
        return Err(
            ProtocolError::InvalidStateHash { expected: expected_hash, actual: state_hash },
        );
    }
    proof {
        crate::wire::lemma_be_bytes_of_value(bytes@.subrange(2, 10));
        crate::wire::lemma_be_bytes_of_value(bytes@.subrange(10, 18));
        crate::wire::lemma_be_bytes_of_value(bytes@.subrange(18, 20));
        assert(bytes@ =~= snapshot_bytes(tick, state_hash, payload@));
    }
    Ok(SnapshotFrame { tick, state_hash, payload })
}

/// Frames a welcome.
pub fn encode_welcome(welcome: Welcome) -> (bytes: [u8; WELCOME_BYTES])
    ensures
        bytes@ == welcome_bytes(welcome),
{
    let mut run: Vec<u8> = Vec::with_capacity(WELCOME_BYTES);
    run.push(PROTOCOL_VERSION);
    run.push(WELCOME_KIND);
    assert(run@ =~= seq![PROTOCOL_VERSION, WELCOME_KIND]);
    push_be(&mut run, welcome.player_id as u64, 4);
    push_be(&mut run, welcome.tick_hz as u64, 2);
    push_be(&mut run, welcome.max_players as u64, 2);
    push_be(&mut run, welcome.current_tick, 8);
    push_be(&mut run, welcome.connection_epoch as u64, 4);
    push_all(&mut run, welcome.reconnect_token.as_slice());
    push_be(&mut run, welcome.reconnect_grace_ticks, 8);
    broadcast use crate::wire::lemma_be_bytes_len;

    let mut bytes: [u8; WELCOME_BYTES] = [0u8; WELCOME_BYTES];
    let mut i: usize = 0;
    while i < WELCOME_BYTES
        invariant
            i <= WELCOME_BYTES,
            run@.len() == WELCOME_BYTES,
            forall|j: int| 0 <= j < i ==> bytes@[j] == run@[j],
        decreases WELCOME_BYTES - i,
    {
        bytes[i] = run[i];
        i = i + 1;
    }
    assert(bytes@ =~= run@);
    bytes
}

/// Reads a welcome frame.
pub fn decode_welcome(bytes: &[u8]) -> (result: Result<Welcome, ProtocolError>)
    ensures
        match result {
            Ok(welcome) => welcome_fault(bytes@) is None && bytes@ == welcome_bytes(welcome),
            Err(error) => welcome_fault(bytes@) == Some(error),
        },
{
    if let Err(error) = require_length(bytes, WELCOME_BYTES) {
        return Err(error);
    }
    if let Err(error) = require_header(bytes, WELCOME_KIND) {
        return Err(error);
    }
    let welcome = Welcome {
        player_id: read_u32(bytes, 2),
        tick_hz: read_u16(bytes, 6),
        max_players: read_u16(bytes, 8),
        current_tick: read_u64(bytes, 10),
        connection_epoch: read_u32(bytes, 18),
        reconnect_token: read_16(bytes, 22),
        reconnect_grace_ticks: read_u64(bytes, 38),
    };
    proof {
        crate::wire::lemma_be_bytes_of_value(bytes@.subrange(2, 6));
        crate::wire::lemma_be_bytes_of_value(bytes@.subrange(6, 8));
        crate::wire::lemma_be_bytes_of_value(bytes@.subrange(8, 10));
        crate::wire::lemma_be_bytes_of_value(bytes@.subrange(10, 18));
        crate::wire::lemma_be_bytes_of_value(bytes@.subrange(18, 22));
        crate::wire::lemma_be_bytes_of_value(bytes@.subrange(38, 46));
        assert(bytes@ =~= welcome_bytes(welcome));
    }
    Ok(welcome)
}

/// Hashes a snapshot's tick and payload.
pub fn snapshot_hash(tick: u64, payload: &[u8]) -> (hash: u64)
    ensures
        hash == snapshot_digest(tick, payload@),
{
    let mut tick_bytes: Vec<u8> = Vec::new();
    push_be(&mut tick_bytes, tick, 8);
    let mut length_bytes: Vec<u8> = Vec::new();
    push_be(&mut length_bytes, payload.len() as u64, 8);
    assert(tick_bytes@ =~= crate::wire::be_bytes(tick as nat, 8));
    assert(length_bytes@ =~= crate::wire::be_bytes(payload@.len(), 8));
    let hash: u64 = fnv_update(FNV_OFFSET_BASIS, tick_bytes.as_slice());
    let hash: u64 = fnv_update(hash, length_bytes.as_slice());
    fnv_update(hash, payload)
}

fn require_header(bytes: &[u8], expected_kind: u8) -> (result: Result<(), ProtocolError>)
    requires
        bytes.len() >= 2,
    ensures
        match result {
            Ok(_) => header_fault(bytes@, expected_kind) is None,
            Err(error) => header_fault(bytes@, expected_kind) == Some(error),
        },
{
    if bytes[0] != PROTOCOL_VERSION {
        return Err(ProtocolError::UnsupportedVersion(bytes[0]));
    }
    if bytes[1] != expected_kind {
        return Err(ProtocolError::UnexpectedKind(bytes[1]));
    }
    Ok(())
}

fn require_length(bytes: &[u8], expected: usize) -> (result: Result<(), ProtocolError>)
    ensures
        match result {
            Ok(_) => length_fault(bytes@, expected) is None,
            Err(error) => length_fault(bytes@, expected) == Some(error),
        },
{
    if bytes.len() != expected {
        return Err(ProtocolError::IncorrectLength { expected, actual: bytes.len() });
    }
    Ok(())
}

/// Continues an FNV-1a hash over `bytes`.
pub fn fnv_update(hash: u64, bytes: &[u8]) -> (result: u64)
    ensures
        result == fnv(hash, bytes@),
{
    let mut result: u64 = hash;
    let mut i: usize = 0;
    while i < bytes.len()
        invariant
            i <= bytes.len(),
            result == fnv(hash, bytes@.take(i as int)),
        decreases bytes.len() - i,
    {
        result = (result ^ (bytes[i] as u64)).wrapping_mul(FNV_PRIME);
        i = i + 1;
        assert(bytes@.take(i as int).drop_last() =~= bytes@.take(i - 1));
    }
    assert(bytes@.take(i as int) =~= bytes@);
    result
}

/// Decoding a framed command gives the command back, and no other command has that frame.
pub proof fn law_command_round_trip(sequence: u32, payload: Seq<u8>)
    requires
        command_refusal(sequence, payload) is None,
    ensures
        command_fault(command_bytes(sequence, payload)) is None,
        forall|other_sequence: u32, other_payload: Seq<u8>|
            #[trigger] command_bytes(other_sequence, other_payload) == command_bytes(
                sequence,
                payload,
            ) ==> other_sequence == sequence && other_payload == payload,
{
    broadcast use crate::wire::lemma_be_bytes_len, crate::wire::lemma_be_round_trip;

    crate::wire::lemma_pow256();
    let bytes = command_bytes(sequence, payload);
    assert(bytes.subrange(2, 6) =~= crate::wire::be_bytes(sequence as nat, 4));
    assert(bytes.subrange(6, 8) =~= crate::wire::be_bytes(payload.len(), 2));
    assert forall|other_sequence: u32, other_payload: Seq<u8>| #[trigger]
        command_bytes(other_sequence, other_payload) == bytes implies other_sequence == sequence
        && other_payload == payload by {
        let other = command_bytes(other_sequence, other_payload);
        assert(other.subrange(2, 6) =~= crate::wire::be_bytes(other_sequence as nat, 4));
        assert(other.subrange(8, other.len() as int) =~= other_payload);
        assert(bytes.subrange(8, bytes.len() as int) =~= payload);
    }
}

/// Decoding a framed snapshot gives the snapshot back, and no other snapshot has that frame.
pub proof fn law_snapshot_round_trip(tick: u64, state_hash: u64, payload: Seq<u8>)
    requires
        snapshot_refusal(tick, state_hash, payload) is None,
    ensures
        snapshot_fault(snapshot_bytes(tick, state_hash, payload)) is None,
        forall|other_tick: u64, other_hash: u64, other_payload: Seq<u8>|
            #[trigger] snapshot_bytes(other_tick, other_hash, other_payload) == snapshot_bytes(
                tick,
                state_hash,
                payload,
            ) ==> other_tick == tick && other_hash == state_hash && other_payload == payload,
{
    broadcast use crate::wire::lemma_be_bytes_len, crate::wire::lemma_be_round_trip;

    crate::wire::lemma_pow256();
    let bytes = snapshot_bytes(tick, state_hash, payload);
    assert(bytes.subrange(2, 10) =~= crate::wire::be_bytes(tick as nat, 8));
    assert(bytes.subrange(10, 18) =~= crate::wire::be_bytes(state_hash as nat, 8));
    assert(bytes.subrange(18, 20) =~= crate::wire::be_bytes(payload.len(), 2));
    assert(bytes.subrange(20, bytes.len() as int) =~= payload);
    assert forall|other_tick: u64, other_hash: u64, other_payload: Seq<u8>| #[trigger]
        snapshot_bytes(other_tick, other_hash, other_payload) == bytes implies other_tick == tick
        && other_hash == state_hash && other_payload == payload by {
        let other = snapshot_bytes(other_tick, other_hash, other_payload);
        assert(other.subrange(2, 10) =~= crate::wire::be_bytes(other_tick as nat, 8));
        assert(other.subrange(10, 18) =~= crate::wire::be_bytes(other_hash as nat, 8));
        assert(other.subrange(20, other.len() as int) =~= other_payload);
    }
}

/// Decoding a framed welcome gives the welcome back, and no other welcome has that frame.
pub proof fn law_welcome_round_trip(welcome: Welcome)
    ensures
        welcome_fault(welcome_bytes(welcome)) is None,
        forall|other: Welcome| #[trigger] welcome_bytes(other) == welcome_bytes(welcome) ==> {
            &&& other.player_id == welcome.player_id
            &&& other.tick_hz == welcome.tick_hz
            &&& other.max_players == welcome.max_players
            &&& other.current_tick == welcome.current_tick
            &&& other.connection_epoch == welcome.connection_epoch
            &&& other.reconnect_token@ == welcome.reconnect_token@
            &&& other.reconnect_grace_ticks == welcome.reconnect_grace_ticks
        },
{
    broadcast use crate::wire::lemma_be_bytes_len, crate::wire::lemma_be_round_trip;

    crate::wire::lemma_pow256();
    let bytes = welcome_bytes(welcome);
    lemma_welcome_fields(welcome);
    assert forall|other: Welcome| #[trigger] welcome_bytes(other) == bytes implies {
        &&& other.player_id == welcome.player_id
        &&& other.tick_hz == welcome.tick_hz
        &&& other.max_players == welcome.max_players
        &&& other.current_tick == welcome.current_tick
        &&& other.connection_epoch == welcome.connection_epoch
        &&& other.reconnect_token@ == welcome.reconnect_token@
        &&& other.reconnect_grace_ticks == welcome.reconnect_grace_ticks
    } by {
        lemma_welcome_fields(other);
    }
}

/// Where each field of a welcome stands in its frame.
proof fn lemma_welcome_fields(welcome: Welcome)
    ensures
        welcome_bytes(welcome).len() == WELCOME_BYTES,
        welcome_bytes(welcome).subrange(2, 6) == crate::wire::be_bytes(welcome.player_id as nat, 4),
        welcome_bytes(welcome).subrange(6, 8) == crate::wire::be_bytes(welcome.tick_hz as nat, 2),
        welcome_bytes(welcome).subrange(8, 10) == crate::wire::be_bytes(
            welcome.max_players as nat,
            2,
        ),
        welcome_bytes(welcome).subrange(10, 18) == crate::wire::be_bytes(
            welcome.current_tick as nat,
            8,
        ),
        welcome_bytes(welcome).subrange(18, 22) == crate::wire::be_bytes(
            welcome.connection_epoch as nat,
            4,
        ),
        welcome_bytes(welcome).subrange(22, 38) == welcome.reconnect_token@,
        welcome_bytes(welcome).subrange(38, 46) == crate::wire::be_bytes(
            welcome.reconnect_grace_ticks as nat,
            8,
        ),
{
    broadcast use crate::wire::lemma_be_bytes_len;

    let bytes = welcome_bytes(welcome);
    assert(bytes.subrange(2, 6) =~= crate::wire::be_bytes(welcome.player_id as nat, 4));
    assert(bytes.subrange(6, 8) =~= crate::wire::be_bytes(welcome.tick_hz as nat, 2));
    assert(bytes.subrange(8, 10) =~= crate::wire::be_bytes(welcome.max_players as nat, 2));
    assert(bytes.subrange(10, 18) =~= crate::wire::be_bytes(welcome.current_tick as nat, 8));
    assert(bytes.subrange(18, 22) =~= crate::wire::be_bytes(welcome.connection_epoch as nat, 4));
    assert(bytes.subrange(22, 38) =~= welcome.reconnect_token@);
    assert(bytes.subrange(38, 46) =~= crate::wire::be_bytes(
        welcome.reconnect_grace_ticks as nat,
        8,
    ));
}

/// Commands, snapshots and welcomes are never mistaken for one another.
pub proof fn law_kinds_are_distinct(bytes: Seq<u8>)
    ensures
        command_fault(bytes) is None ==> snapshot_fault(bytes) is Some && welcome_fault(
            bytes,
        ) is Some,
        snapshot_fault(bytes) is None ==> command_fault(bytes) is Some && welcome_fault(
            bytes,
        ) is Some,
        welcome_fault(bytes) is None ==> command_fault(bytes) is Some && snapshot_fault(
            bytes,
        ) is Some,
{
}

} // verus!
