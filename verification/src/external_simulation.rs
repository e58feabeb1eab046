//! Games that live outside: a bounded request and answer for each operation, and the adapter that
//! keeps such a game below the runtime's authority.

use crate::protocol::{
    snapshot_hash, PlayerId, MAX_COMMAND_PAYLOAD_BYTES, MAX_SNAPSHOT_PAYLOAD_BYTES,
};
use crate::simulation::{
    GameSimulation, SimulationError, SimulationSnapshot, SnapshotScope, SnapshotView,
};
use crate::text::{push_decimal, push_hex, utf8_text};
use crate::wire::{push_all, push_be, read_u16, read_u32, read_u64};
use vstd::prelude::*;
use vstd::slice::{slice_subrange, slice_to_vec};
use vstd::string::*;

verus! {

pub const EXTERNAL_SIMULATION_PROTOCOL_VERSION: u8 = 1;

pub const MAX_EXTERNAL_SIMULATION_ERROR_BYTES: usize = 1024;

pub const REQUEST_HEADER_BYTES: usize = 2;

pub const RESPONSE_HEADER_BYTES: usize = 3;

pub const PLAYER_REQUEST_BYTES: usize = 6;

pub const COMMAND_REQUEST_FIXED_BYTES: usize = 12;

pub const DESCRIPTOR_RESPONSE_BYTES: usize = 16;

pub const REMOVAL_RESPONSE_BYTES: usize = 4;

pub const TICK_RESPONSE_BYTES: usize = 11;

pub const SNAPSHOT_RESPONSE_FIXED_BYTES: usize = 21;

pub const STATUS_OK: u8 = 0;

pub const STATUS_ERROR: u8 = 1;

pub const MAX_EXTERNAL_SIMULATION_FRAME_BYTES: usize = 65556;

#[derive(Clone, Copy, Debug, Eq, PartialEq)]
pub struct ExternalSimulationProtocolContract {
    pub version: u8,
    pub command_payload_bytes: usize,
    pub snapshot_payload_bytes: usize,
    pub error_payload_bytes: usize,
    pub maximum_frame_bytes: usize,
}

/// The version and limits that an outside game can count on.
pub fn external_simulation_protocol_contract() -> (contract: ExternalSimulationProtocolContract)
    ensures
        contract == (ExternalSimulationProtocolContract {
            version: EXTERNAL_SIMULATION_PROTOCOL_VERSION,
            command_payload_bytes: MAX_COMMAND_PAYLOAD_BYTES,
            snapshot_payload_bytes: MAX_SNAPSHOT_PAYLOAD_BYTES,
            error_payload_bytes: MAX_EXTERNAL_SIMULATION_ERROR_BYTES,
            maximum_frame_bytes: MAX_EXTERNAL_SIMULATION_FRAME_BYTES,
        }),
{
    ExternalSimulationProtocolContract {
        version: EXTERNAL_SIMULATION_PROTOCOL_VERSION,
        command_payload_bytes: MAX_COMMAND_PAYLOAD_BYTES,
        snapshot_payload_bytes: MAX_SNAPSHOT_PAYLOAD_BYTES,
        error_payload_bytes: MAX_EXTERNAL_SIMULATION_ERROR_BYTES,
        maximum_frame_bytes: MAX_EXTERNAL_SIMULATION_FRAME_BYTES,
    }
}

#[derive(Clone, Copy, Debug, Eq, PartialEq, Structural)]
pub enum ExternalSimulationOperation {
    Describe,
    AddPlayer,
    RemovePlayer,
    ApplyCommand,
    AdvanceTick,
    Snapshot,
    SnapshotFor,
}

impl ExternalSimulationOperation {
    /// The byte that stands for the operation.
    pub open spec fn byte(self) -> u8 {
        match self {
            ExternalSimulationOperation::Describe => 1,
            ExternalSimulationOperation::AddPlayer => 2,
            ExternalSimulationOperation::RemovePlayer => 3,
            ExternalSimulationOperation::ApplyCommand => 4,
            ExternalSimulationOperation::AdvanceTick => 5,
            ExternalSimulationOperation::Snapshot => 6,
            ExternalSimulationOperation::SnapshotFor => 7,
        }
    }

    /// The name of the operation.
    pub open spec fn name(self) -> Seq<char> {
        match self {
            ExternalSimulationOperation::Describe => "Describe"@,
            ExternalSimulationOperation::AddPlayer => "AddPlayer"@,
            ExternalSimulationOperation::RemovePlayer => "RemovePlayer"@,
            ExternalSimulationOperation::ApplyCommand => "ApplyCommand"@,
            ExternalSimulationOperation::AdvanceTick => "AdvanceTick"@,
            ExternalSimulationOperation::Snapshot => "Snapshot"@,
            ExternalSimulationOperation::SnapshotFor => "SnapshotFor"@,
        }
    }

    fn label(self) -> (label: &'static str)
        ensures
            label@ == self.name(),
    {
        match self {
            ExternalSimulationOperation::Describe => "Describe",
            ExternalSimulationOperation::AddPlayer => "AddPlayer",
            ExternalSimulationOperation::RemovePlayer => "RemovePlayer",
            ExternalSimulationOperation::ApplyCommand => "ApplyCommand",
            ExternalSimulationOperation::AdvanceTick => "AdvanceTick",
            ExternalSimulationOperation::Snapshot => "Snapshot",
            ExternalSimulationOperation::SnapshotFor => "SnapshotFor",
        }
    }

    fn code(self) -> (code: u8)
        ensures
            code == self.byte(),
    {
        match self {
            ExternalSimulationOperation::Describe => 1,
            ExternalSimulationOperation::AddPlayer => 2,
            ExternalSimulationOperation::RemovePlayer => 3,
            ExternalSimulationOperation::ApplyCommand => 4,
            ExternalSimulationOperation::AdvanceTick => 5,
            ExternalSimulationOperation::Snapshot => 6,
            ExternalSimulationOperation::SnapshotFor => 7,
        }
    }

    fn from_code(code: u8) -> (result: Result<Self, ExternalSimulationError>)
        ensures
            match result {
                Ok(operation) => 1 <= code <= 7 && operation.byte() == code,
                Err(error) => !(1 <= code <= 7) && error
                    == ExternalSimulationError::UnknownOperation(code),
            },
    {
        match code {
            1 => Ok(ExternalSimulationOperation::Describe),
            2 => Ok(ExternalSimulationOperation::AddPlayer),
            3 => Ok(ExternalSimulationOperation::RemovePlayer),
            4 => Ok(ExternalSimulationOperation::ApplyCommand),
            5 => Ok(ExternalSimulationOperation::AdvanceTick),
            6 => Ok(ExternalSimulationOperation::Snapshot),
            7 => Ok(ExternalSimulationOperation::SnapshotFor),
            _ => Err(ExternalSimulationError::UnknownOperation(code)),
        }
    }
}

#[derive(Clone, Copy, Debug, Eq, PartialEq, Structural)]
pub struct ExternalSimulationDescriptor {
    pub tick_hz: u16,
    pub max_players: u16,
    pub current_tick: u64,
    pub snapshot_scope: SnapshotScope,
}

#[derive(Clone, Debug, Eq, PartialEq)]
pub enum ExternalSimulationRequest {
    Describe,
    AddPlayer(PlayerId),
    RemovePlayer(PlayerId),
    ApplyCommand { player_id: PlayerId, sequence: u32, payload: Vec<u8> },
    AdvanceTick,
    Snapshot,
    SnapshotFor(PlayerId),
}

/// What a request asks for.
#[verifier::ext_equal]
pub enum RequestView {
    Describe,
    AddPlayer(PlayerId),
    RemovePlayer(PlayerId),
    ApplyCommand { player_id: PlayerId, sequence: u32, payload: Seq<u8> },
    AdvanceTick,
    Snapshot,
    SnapshotFor(PlayerId),
}

impl View for ExternalSimulationRequest {
    type V = RequestView;

    open spec fn view(&self) -> RequestView {
        match self {
            ExternalSimulationRequest::Describe => RequestView::Describe,
            ExternalSimulationRequest::AddPlayer(player_id) => RequestView::AddPlayer(*player_id),
            ExternalSimulationRequest::RemovePlayer(player_id) => RequestView::RemovePlayer(
                *player_id,
            ),
            ExternalSimulationRequest::ApplyCommand { player_id, sequence, payload } =>
                RequestView::ApplyCommand {
                player_id: *player_id,
                sequence: *sequence,
                payload: payload@,
            },
            ExternalSimulationRequest::AdvanceTick => RequestView::AdvanceTick,
            ExternalSimulationRequest::Snapshot => RequestView::Snapshot,
            ExternalSimulationRequest::SnapshotFor(player_id) => RequestView::SnapshotFor(
                *player_id,
            ),
        }
    }
}

impl RequestView {
    pub open spec fn asks(self) -> ExternalSimulationOperation {
        match self {
            RequestView::Describe => ExternalSimulationOperation::Describe,
            RequestView::AddPlayer(_) => ExternalSimulationOperation::AddPlayer,
            RequestView::RemovePlayer(_) => ExternalSimulationOperation::RemovePlayer,
            RequestView::ApplyCommand { .. } => ExternalSimulationOperation::ApplyCommand,
            RequestView::AdvanceTick => ExternalSimulationOperation::AdvanceTick,
            RequestView::Snapshot => ExternalSimulationOperation::Snapshot,
            RequestView::SnapshotFor(_) => ExternalSimulationOperation::SnapshotFor,
        }
    }

    /// The bytes behind a request's header.
    pub open spec fn body(self) -> Seq<u8> {
        match self {
            RequestView::AddPlayer(player_id) => crate::wire::be_bytes(player_id as nat, 4),
            RequestView::RemovePlayer(player_id) => crate::wire::be_bytes(player_id as nat, 4),
            RequestView::SnapshotFor(player_id) => crate::wire::be_bytes(player_id as nat, 4),
            RequestView::ApplyCommand { player_id, sequence, payload } => crate::wire::be_bytes(
                player_id as nat,
                4,
            ) + crate::wire::be_bytes(sequence as nat, 4) + crate::wire::be_bytes(payload.len(), 2)
                + payload,
            _ => Seq::empty(),
        }
    }

    /// The frame of a request.
    pub open spec fn bytes(self) -> Seq<u8> {
        seq![EXTERNAL_SIMULATION_PROTOCOL_VERSION, self.asks().byte()] + self.body()
    }

    /// Why a request cannot be framed, if it cannot.
    pub open spec fn refusal(self) -> Option<ExternalSimulationError> {
        match self {
            RequestView::ApplyCommand { sequence, payload, .. } => if sequence == 0 {
                Some(ExternalSimulationError::InvalidSequence)
            } else if payload.len() > MAX_COMMAND_PAYLOAD_BYTES {
                Some(
                    ExternalSimulationError::PayloadTooLarge {
                        maximum: MAX_COMMAND_PAYLOAD_BYTES,
                        actual: payload.len() as usize,
                    },
                )
            } else {
                None
            },
            _ => None,
        }
    }
}

impl ExternalSimulationRequest {
    pub fn operation(&self) -> (operation: ExternalSimulationOperation)
        ensures
            operation == self@.asks(),
    {
        match self {
            ExternalSimulationRequest::Describe => ExternalSimulationOperation::Describe,
            ExternalSimulationRequest::AddPlayer(_) => ExternalSimulationOperation::AddPlayer,
            ExternalSimulationRequest::RemovePlayer(_) =>
                ExternalSimulationOperation::RemovePlayer,
            ExternalSimulationRequest::ApplyCommand { .. } =>
                ExternalSimulationOperation::ApplyCommand,
            ExternalSimulationRequest::AdvanceTick => ExternalSimulationOperation::AdvanceTick,
            ExternalSimulationRequest::Snapshot => ExternalSimulationOperation::Snapshot,
            ExternalSimulationRequest::SnapshotFor(_) => ExternalSimulationOperation::SnapshotFor,
        }
    }
}

#[derive(Clone, Debug, Eq, PartialEq)]
pub enum ExternalSimulationResponse {
    Descriptor(ExternalSimulationDescriptor),
    Acknowledged,
    PlayerRemoved(bool),
    TickAdvanced(u64),
    Snapshot(SimulationSnapshot),
    Rejected(String),
}

/// What an answer says.
#[verifier::ext_equal]
pub enum ResponseView {
    Descriptor(ExternalSimulationDescriptor),
    Acknowledged,
    PlayerRemoved(bool),
    TickAdvanced(u64),
    Snapshot(SnapshotView),
    Rejected(Seq<char>),
}

impl View for ExternalSimulationResponse {
    type V = ResponseView;

    open spec fn view(&self) -> ResponseView {
        match self {
            ExternalSimulationResponse::Descriptor(descriptor) => ResponseView::Descriptor(
                *descriptor,
            ),
            ExternalSimulationResponse::Acknowledged => ResponseView::Acknowledged,
            ExternalSimulationResponse::PlayerRemoved(removed) => ResponseView::PlayerRemoved(
                *removed,
            ),
            ExternalSimulationResponse::TickAdvanced(tick) => ResponseView::TickAdvanced(*tick),
            ExternalSimulationResponse::Snapshot(snapshot) => ResponseView::Snapshot(snapshot@),
            ExternalSimulationResponse::Rejected(message) => ResponseView::Rejected(message@),
        }
    }
}

#[derive(Clone, Debug, Eq, PartialEq)]
pub enum ExternalSimulationError {
    Bridge(String),
    UnsupportedVersion(u8),
    UnknownOperation(u8),
    UnexpectedStatus(u8),
    UnexpectedOperation {
        expected: ExternalSimulationOperation,
        actual: ExternalSimulationOperation,
    },
    UnexpectedResponse(ExternalSimulationOperation),
    IncorrectLength { expected: usize, actual: usize },
    PayloadTooLarge { maximum: usize, actual: usize },
    InvalidSequence,
    InvalidSnapshotScope(u8),
    InvalidBoolean(u8),
    InvalidUtf8,
    InvalidStateHash { expected: u64, actual: u64 },
    InvalidDescriptor(&'static str),
    TickMismatch { expected: u64, actual: u64 },
    Remote(String),
}

impl ExternalSimulationError {
    /// A failure of the bridge, in what `message` converts into.
    pub fn bridge<T: Into<String>>(message: T) -> (error: Self)
        ensures
            error matches ExternalSimulationError::Bridge(text) && call_ensures(
                T::into,
                (message,),
                text,
            ),
    {
        ExternalSimulationError::Bridge(message.into())
    }

    /// The sentence that describes the error.
    pub open spec fn message(self) -> Seq<char> {
        match self {
            ExternalSimulationError::Bridge(message) => "external simulation bridge failed: "@
                + message@,
            ExternalSimulationError::UnsupportedVersion(version) =>
                "unsupported external simulation protocol version "@ + crate::text::decimal(
                version as nat,
            ),
            ExternalSimulationError::UnknownOperation(operation) =>
                "unknown external simulation operation "@ + crate::text::decimal(operation as nat),
            ExternalSimulationError::UnexpectedStatus(status) =>
                "unexpected external simulation response status "@ + crate::text::decimal(
                status as nat,
            ),
            ExternalSimulationError::UnexpectedOperation { expected, actual } =>
                "external simulation response operation "@ + actual.name()
                + " does not match request "@ + expected.name(),
            ExternalSimulationError::UnexpectedResponse(operation) =>
                "external simulation response shape does not match operation "@ + operation.name(),
            ExternalSimulationError::IncorrectLength { expected, actual } =>
                "external simulation frame expected "@ + crate::text::decimal(expected as nat)
                + " bytes, received "@ + crate::text::decimal(actual as nat),
            ExternalSimulationError::PayloadTooLarge { maximum, actual } =>
                "external simulation payload size "@ + crate::text::decimal(actual as nat)
                + " exceeds maximum "@ + crate::text::decimal(maximum as nat),
            ExternalSimulationError::InvalidSequence =>
                "external simulation command sequence must be non-zero"@,
            ExternalSimulationError::InvalidSnapshotScope(scope) =>
                "invalid external simulation snapshot scope "@ + crate::text::decimal(scope as nat),
            ExternalSimulationError::InvalidBoolean(value) =>
                "invalid external simulation boolean "@ + crate::text::decimal(value as nat),
            ExternalSimulationError::InvalidUtf8 =>
                "external simulation error payload is not UTF-8"@,
            ExternalSimulationError::InvalidStateHash { expected, actual } =>
                "external simulation snapshot hash mismatch: expected 0x"@ + crate::text::hex(
                expected as nat,
                16,
            ) + ", got 0x"@ + crate::text::hex(actual as nat, 16),
            ExternalSimulationError::InvalidDescriptor(message) =>
                "invalid external simulation descriptor: "@ + message@,
            ExternalSimulationError::TickMismatch { expected, actual } =>
                "external simulation tick mismatch: expected "@ + crate::text::decimal(
                expected as nat,
            ) + ", got "@ + crate::text::decimal(actual as nat),
            ExternalSimulationError::Remote(message) =>
                "external simulation rejected operation: "@ + message@,
        }
    }

    pub fn to_string(&self) -> (text: String)
        ensures
            text@ == self.message(),
    {
        match self {
            ExternalSimulationError::Bridge(message) => {
                let mut text = "external simulation bridge failed: ".to_owned();
                text.push_str(message.as_str());
                text
            },
            ExternalSimulationError::UnsupportedVersion(version) => {
                let mut text = "unsupported external simulation protocol version ".to_owned();
                push_decimal(&mut text, *version as u64);
                text
            },
            ExternalSimulationError::UnknownOperation(operation) => {
                let mut text = "unknown external simulation operation ".to_owned();
                push_decimal(&mut text, *operation as u64);
                text
            },
            ExternalSimulationError::UnexpectedStatus(status) => {
                let mut text = "unexpected external simulation response status ".to_owned();
                push_decimal(&mut text, *status as u64);
                text
            },
            ExternalSimulationError::UnexpectedOperation { expected, actual } => {
                let mut text = "external simulation response operation ".to_owned();
                text.push_str(actual.label());
                text.push_str(" does not match request ");
                text.push_str(expected.label());
                text
            },
            ExternalSimulationError::UnexpectedResponse(operation) => {
                let mut text =
                    "external simulation response shape does not match operation ".to_owned();
                text.push_str(operation.label());
                text
            },
            ExternalSimulationError::IncorrectLength { expected, actual } => {
                let mut text = "external simulation frame expected ".to_owned();
                push_decimal(&mut text, *expected as u64);
                text.push_str(" bytes, received ");
                push_decimal(&mut text, *actual as u64);
                text
            },
            ExternalSimulationError::PayloadTooLarge { maximum, actual } => {
                let mut text = "external simulation payload size ".to_owned();
                push_decimal(&mut text, *actual as u64);
                text.push_str(" exceeds maximum ");
                push_decimal(&mut text, *maximum as u64);
                text
            },
            ExternalSimulationError::InvalidSequence =>
                "external simulation command sequence must be non-zero".to_owned(),
            ExternalSimulationError::InvalidSnapshotScope(scope) => {
                let mut text = "invalid external simulation snapshot scope ".to_owned();
                push_decimal(&mut text, *scope as u64);
                text
            },
            ExternalSimulationError::InvalidBoolean(value) => {
                let mut text = "invalid external simulation boolean ".to_owned();
                push_decimal(&mut text, *value as u64);
                text
            },
            ExternalSimulationError::InvalidUtf8 =>
                "external simulation error payload is not UTF-8".to_owned(),
            ExternalSimulationError::InvalidStateHash { expected, actual } => {
                let mut text =
                    "external simulation snapshot hash mismatch: expected 0x".to_owned();
                push_hex(&mut text, *expected, 16);
                text.push_str(", got 0x");
                push_hex(&mut text, *actual, 16);
                text
            },
            ExternalSimulationError::InvalidDescriptor(message) => {
                let mut text = "invalid external simulation descriptor: ".to_owned();
                text.push_str(message);
                text
            },
            ExternalSimulationError::TickMismatch { expected, actual } => {
                let mut text = "external simulation tick mismatch: expected ".to_owned();
                push_decimal(&mut text, *expected);
                text.push_str(", got ");
                push_decimal(&mut text, *actual);
                text
            },
            ExternalSimulationError::Remote(message) => {
                let mut text = "external simulation rejected operation: ".to_owned();
                text.push_str(message.as_str());
                text
            },
        }
    }

    fn into_simulation_error(self) -> (error: SimulationError)
        ensures
            error@ == self.message(),
    {
        SimulationError::in_words(self.to_string())
    }
}

/// The first rule that every frame breaks, if it breaks one: it fits, it holds a header of `header`
/// bytes, and the header starts with the version and an operation.
pub open spec fn head_fault(bytes: Seq<u8>, header: usize) -> Option<ExternalSimulationError> {
    if bytes.len() > MAX_EXTERNAL_SIMULATION_FRAME_BYTES {
        Some(
            ExternalSimulationError::PayloadTooLarge {
                maximum: MAX_EXTERNAL_SIMULATION_FRAME_BYTES,
                actual: bytes.len() as usize,
            },
        )
    } else if bytes.len() < header {
        Some(
            ExternalSimulationError::IncorrectLength {
                expected: header,
                actual: bytes.len() as usize,
            },
        )
    } else if bytes[0] != EXTERNAL_SIMULATION_PROTOCOL_VERSION {
        Some(ExternalSimulationError::UnsupportedVersion(bytes[0]))
    } else if !(1 <= bytes[1] <= 7) {
        Some(ExternalSimulationError::UnknownOperation(bytes[1]))
    } else {
        None
    }
}

/// The fault of a frame that is not `expected` bytes long.
pub open spec fn length_fault(bytes: Seq<u8>, expected: nat) -> Option<ExternalSimulationError> {
    if bytes.len() == expected {
        None
    } else {
        Some(
            ExternalSimulationError::IncorrectLength {
                expected: expected as usize,
                actual: bytes.len() as usize,
            },
        )
    }
}

/// The first rule of a command request that a frame breaks behind its head.
pub open spec fn command_request_fault(bytes: Seq<u8>) -> Option<ExternalSimulationError> {
    let length = crate::wire::be_value(bytes.subrange(10, 12));
    if bytes.len() < COMMAND_REQUEST_FIXED_BYTES {
        length_fault(bytes, COMMAND_REQUEST_FIXED_BYTES as nat)
    } else if crate::wire::be_value(bytes.subrange(6, 10)) == 0 {
        Some(ExternalSimulationError::InvalidSequence)
    } else if length > MAX_COMMAND_PAYLOAD_BYTES {
        Some(
            ExternalSimulationError::PayloadTooLarge {
                maximum: MAX_COMMAND_PAYLOAD_BYTES,
                actual: length as usize,
            },
        )
    } else {
        length_fault(bytes, COMMAND_REQUEST_FIXED_BYTES as nat + length)
    }
}

/// The first rule of a request that a frame breaks, if it breaks one.
pub open spec fn request_fault(bytes: Seq<u8>) -> Option<ExternalSimulationError> {
    match head_fault(bytes, REQUEST_HEADER_BYTES) {
        Some(error) => Some(error),
        None => if bytes[1] == 2 || bytes[1] == 3 || bytes[1] == 7 {
            length_fault(bytes, PLAYER_REQUEST_BYTES as nat)
        } else if bytes[1] == 4 {
            command_request_fault(bytes)
        } else {
            length_fault(bytes, REQUEST_HEADER_BYTES as nat)
        },
    }
}

/// The byte of a snapshot scope.
pub open spec fn scope_byte(scope: SnapshotScope) -> u8 {
    match scope {
        SnapshotScope::Shared => 0,
        SnapshotScope::PlayerScoped => 1,
    }
}

/// The rule that a descriptor breaks, if it breaks one.
pub open spec fn descriptor_fault(tick_hz: nat, max_players: nat) -> Option<
    ExternalSimulationError,
> {
    if tick_hz == 0 {
        Some(ExternalSimulationError::InvalidDescriptor("tick rate must be non-zero"))
    } else if max_players == 0 {
        Some(ExternalSimulationError::InvalidDescriptor("player capacity must be non-zero"))
    } else {
        None
    }
}

impl ResponseView {
    /// Whether an answer has the shape that an operation asks for.
    pub open spec fn answers(self, operation: ExternalSimulationOperation) -> bool {
        match self {
            ResponseView::Descriptor(_) => operation is Describe,
            ResponseView::Acknowledged => operation is AddPlayer || operation is ApplyCommand,
            ResponseView::PlayerRemoved(_) => operation is RemovePlayer,
            ResponseView::TickAdvanced(_) => operation is AdvanceTick,
            ResponseView::Snapshot(_) => operation is Snapshot || operation is SnapshotFor,
            ResponseView::Rejected(_) => true,
        }
    }

    /// The bytes behind an answer's header.
    pub open spec fn body(self) -> Seq<u8> {
        match self {
            ResponseView::Descriptor(descriptor) => crate::wire::be_bytes(
                descriptor.tick_hz as nat,
                2,
            ) + crate::wire::be_bytes(descriptor.max_players as nat, 2) + crate::wire::be_bytes(
                descriptor.current_tick as nat,
                8,
            ) + seq![scope_byte(descriptor.snapshot_scope)],
            ResponseView::Acknowledged => Seq::empty(),
            ResponseView::PlayerRemoved(removed) => seq![
                if removed {
                    1u8
                } else {
                    0u8
                },
            ],
            ResponseView::TickAdvanced(tick) => crate::wire::be_bytes(tick as nat, 8),
            ResponseView::Snapshot(snapshot) => crate::wire::be_bytes(snapshot.tick as nat, 8)
                + crate::wire::be_bytes(snapshot.state_hash as nat, 8) + crate::wire::be_bytes(
                snapshot.payload.len(),
                2,
            ) + snapshot.payload,
            ResponseView::Rejected(message) => vstd::utf8::encode_utf8(message),
        }
    }

    /// The frame of an answer to an operation.
    pub open spec fn bytes(self, operation: ExternalSimulationOperation) -> Seq<u8> {
        seq![
            EXTERNAL_SIMULATION_PROTOCOL_VERSION,
            operation.byte(),
            if self is Rejected {
                STATUS_ERROR
            } else {
                STATUS_OK
            },
        ] + self.body()
    }

    /// Why an answer to an operation cannot be framed, if it cannot.
    pub open spec fn refusal(self, operation: ExternalSimulationOperation) -> Option<
        ExternalSimulationError,
    > {
        if !self.answers(operation) {
            Some(ExternalSimulationError::UnexpectedResponse(operation))
        } else {
            match self {
                ResponseView::Rejected(message) => if vstd::utf8::encode_utf8(message).len()
                    > MAX_EXTERNAL_SIMULATION_ERROR_BYTES {
                    Some(
                        ExternalSimulationError::PayloadTooLarge {
                            maximum: MAX_EXTERNAL_SIMULATION_ERROR_BYTES,
                            actual: vstd::utf8::encode_utf8(message).len() as usize,
                        },
                    )
                } else {
                    None
                },
                ResponseView::Descriptor(descriptor) => descriptor_fault(
                    descriptor.tick_hz as nat,
                    descriptor.max_players as nat,
                ),
                ResponseView::Snapshot(snapshot) => if snapshot.payload.len()
                    > MAX_SNAPSHOT_PAYLOAD_BYTES {
                    Some(
                        ExternalSimulationError::PayloadTooLarge {
                            maximum: MAX_SNAPSHOT_PAYLOAD_BYTES,
                            actual: snapshot.payload.len() as usize,
                        },
                    )
                } else {
                    hash_fault(snapshot.tick, snapshot.state_hash, snapshot.payload)
                },
                _ => None,
            }
        }
    }
}

/// The fault of a snapshot whose hash does not bind its tick and payload.
pub open spec fn hash_fault(tick: u64, state_hash: u64, payload: Seq<u8>) -> Option<
    ExternalSimulationError,
> {
    if state_hash == crate::protocol::snapshot_digest(tick, payload) {
        None
    } else {
        Some(
            ExternalSimulationError::InvalidStateHash {
                expected: crate::protocol::snapshot_digest(tick, payload),
                actual: state_hash,
            },
        )
    }
}

/// The first rule of a rejection that a frame breaks behind its status.
pub open spec fn rejection_fault(bytes: Seq<u8>) -> Option<ExternalSimulationError> {
    let message = bytes.subrange(RESPONSE_HEADER_BYTES as int, bytes.len() as int);
    if message.len() > MAX_EXTERNAL_SIMULATION_ERROR_BYTES {
        Some(
            ExternalSimulationError::PayloadTooLarge {
                maximum: MAX_EXTERNAL_SIMULATION_ERROR_BYTES,
                actual: message.len() as usize,
            },
        )
    } else if !vstd::utf8::valid_utf8(message) {
        Some(ExternalSimulationError::InvalidUtf8)
    } else {
        None
    }
}

/// The first rule of a description that a frame breaks behind its status.
pub open spec fn description_fault(bytes: Seq<u8>) -> Option<ExternalSimulationError> {
    if bytes.len() != DESCRIPTOR_RESPONSE_BYTES {
        length_fault(bytes, DESCRIPTOR_RESPONSE_BYTES as nat)
    } else if bytes[15] > 1 {
        Some(ExternalSimulationError::InvalidSnapshotScope(bytes[15]))
    } else {
        descriptor_fault(
            crate::wire::be_value(bytes.subrange(3, 5)),
            crate::wire::be_value(bytes.subrange(5, 7)),
        )
    }
}

/// The first rule of a removal's answer that a frame breaks behind its status.
pub open spec fn removal_fault(bytes: Seq<u8>) -> Option<ExternalSimulationError> {
    if bytes.len() != REMOVAL_RESPONSE_BYTES {
        length_fault(bytes, REMOVAL_RESPONSE_BYTES as nat)
    } else if bytes[3] > 1 {
        Some(ExternalSimulationError::InvalidBoolean(bytes[3]))
    } else {
        None
    }
}

/// The first rule of a snapshot's answer that a frame breaks behind its status.
pub open spec fn snapshot_response_fault(bytes: Seq<u8>) -> Option<ExternalSimulationError> {
    let length = crate::wire::be_value(bytes.subrange(19, 21));
    if bytes.len() < SNAPSHOT_RESPONSE_FIXED_BYTES {
        length_fault(bytes, SNAPSHOT_RESPONSE_FIXED_BYTES as nat)
    } else if bytes.len() != SNAPSHOT_RESPONSE_FIXED_BYTES + length {
        length_fault(bytes, SNAPSHOT_RESPONSE_FIXED_BYTES as nat + length)
    } else {
        hash_fault(
            crate::wire::be_value(bytes.subrange(3, 11)) as u64,
            crate::wire::be_value(bytes.subrange(11, 19)) as u64,
            bytes.subrange(21, bytes.len() as int),
        )
    }
}

/// The first rule of an answer that a frame breaks, if it breaks one.
pub open spec fn response_fault(bytes: Seq<u8>) -> Option<ExternalSimulationError> {
    match head_fault(bytes, RESPONSE_HEADER_BYTES) {
        Some(error) => Some(error),
        None => if bytes[2] == STATUS_ERROR {
            rejection_fault(bytes)
        } else if bytes[2] != STATUS_OK {
            Some(ExternalSimulationError::UnexpectedStatus(bytes[2]))
        } else if bytes[1] == 1 {
            description_fault(bytes)
        } else if bytes[1] == 3 {
            removal_fault(bytes)
        } else if bytes[1] == 5 {
            length_fault(bytes, TICK_RESPONSE_BYTES as nat)
        } else if bytes[1] == 6 || bytes[1] == 7 {
            snapshot_response_fault(bytes)
        } else {
            length_fault(bytes, RESPONSE_HEADER_BYTES as nat)
        },
    }
}

/// Frames a request.
pub fn encode_external_simulation_request(request: &ExternalSimulationRequest) -> (result: Result<
    Vec<u8>,
    ExternalSimulationError,
>)
    ensures
        match result {
            Ok(bytes) => request@.refusal() is None && bytes@ == request@.bytes(),
            Err(error) => request@.refusal() == Some(error),
        },
{
    let mut output: Vec<u8> = Vec::with_capacity(COMMAND_REQUEST_FIXED_BYTES);
    output.push(EXTERNAL_SIMULATION_PROTOCOL_VERSION);
    output.push(request.operation().code());
    assert(output@ =~= seq![EXTERNAL_SIMULATION_PROTOCOL_VERSION, request@.asks().byte()]);
    match request {
        ExternalSimulationRequest::Describe
        | ExternalSimulationRequest::AdvanceTick
        | ExternalSimulationRequest::Snapshot => {},
        ExternalSimulationRequest::AddPlayer(player_id)
        | ExternalSimulationRequest::RemovePlayer(player_id)
        | ExternalSimulationRequest::SnapshotFor(player_id) => {
            push_be(&mut output, *player_id as u64, 4);
        },
        ExternalSimulationRequest::ApplyCommand { player_id, sequence, payload } => {
            if *sequence == 0 {
                return Err(ExternalSimulationError::InvalidSequence);
            }
            if payload.len() > MAX_COMMAND_PAYLOAD_BYTES {
                return Err(
                    ExternalSimulationError::PayloadTooLarge {
                        maximum: MAX_COMMAND_PAYLOAD_BYTES,
                        actual: payload.len(),
                    },
                );
            }
            push_be(&mut output, *player_id as u64, 4);
            push_be(&mut output, *sequence as u64, 4);
            push_be(&mut output, payload.len() as u64, 2);
            push_all(&mut output, payload.as_slice());
        },
    }
    assert(output@ =~= request@.bytes());
    Ok(output)
}

/// Checks the head of a frame and reads the operation in it.
fn require_head(bytes: &[u8], header: usize) -> (result: Result<
    ExternalSimulationOperation,
    ExternalSimulationError,
>)
    requires
        2 <= header,
    ensures
        match result {
            Ok(operation) => head_fault(bytes@, header) is None && operation.byte() == bytes@[1]
                && bytes.len() <= MAX_EXTERNAL_SIMULATION_FRAME_BYTES,
            Err(error) => head_fault(bytes@, header) == Some(error),
        },
{
    if bytes.len() > MAX_EXTERNAL_SIMULATION_FRAME_BYTES {
        return Err(
            ExternalSimulationError::PayloadTooLarge {
                maximum: MAX_EXTERNAL_SIMULATION_FRAME_BYTES,
                actual: bytes.len(),
            },
        );
    }
    if bytes.len() < header {
        return Err(
            ExternalSimulationError::IncorrectLength { expected: header, actual: bytes.len() },
        );
    }
    if bytes[0] != EXTERNAL_SIMULATION_PROTOCOL_VERSION {
        return Err(ExternalSimulationError::UnsupportedVersion(bytes[0]));
    }
    ExternalSimulationOperation::from_code(bytes[1])
}

fn require_length(bytes: &[u8], expected: usize) -> (result: Result<(), ExternalSimulationError>)
    ensures
        match result {
            Ok(_) => length_fault(bytes@, expected as nat) is None,
            Err(error) => length_fault(bytes@, expected as nat) == Some(error),
        },
{
    if bytes.len() == expected {
        Ok(())
    } else {
        Err(ExternalSimulationError::IncorrectLength { expected, actual: bytes.len() })
    }
}

/// Reads a request frame.
pub fn decode_external_simulation_request(bytes: &[u8]) -> (result: Result<
    ExternalSimulationRequest,
    ExternalSimulationError,
>)
    ensures
        match result {
            Ok(request) => {
                &&& request_fault(bytes@) is None
                &&& request@.refusal() is None
                &&& bytes@ == request@.bytes()
            },
            Err(error) => request_fault(bytes@) == Some(error),
        },
{
    let operation = match require_head(bytes, REQUEST_HEADER_BYTES) {
        Ok(operation) => operation,
        Err(error) => {
            return Err(error);
        },
    };
    match operation {
        ExternalSimulationOperation::Describe => {
            if let Err(error) = require_length(bytes, REQUEST_HEADER_BYTES) {
                return Err(error);
            }
            assert(bytes@ =~= RequestView::Describe.bytes());
            Ok(ExternalSimulationRequest::Describe)
        },
        ExternalSimulationOperation::AddPlayer => {
            if let Err(error) = require_length(bytes, PLAYER_REQUEST_BYTES) {
                return Err(error);
            }
            let player_id: u32 = read_u32(bytes, 2);
            proof {
                crate::wire::lemma_be_bytes_of_value(bytes@.subrange(2, 6));
                assert(bytes@ =~= RequestView::AddPlayer(player_id).bytes());
            }
            Ok(ExternalSimulationRequest::AddPlayer(player_id))
        },
        ExternalSimulationOperation::RemovePlayer => {
            if let Err(error) = require_length(bytes, PLAYER_REQUEST_BYTES) {
                return Err(error);
            }
            let player_id: u32 = read_u32(bytes, 2);
            proof {
                crate::wire::lemma_be_bytes_of_value(bytes@.subrange(2, 6));
                assert(bytes@ =~= RequestView::RemovePlayer(player_id).bytes());
            }
            Ok(ExternalSimulationRequest::RemovePlayer(player_id))
        },
        ExternalSimulationOperation::SnapshotFor => {
            if let Err(error) = require_length(bytes, PLAYER_REQUEST_BYTES) {
                return Err(error);
            }
            let player_id: u32 = read_u32(bytes, 2);
            proof {
                crate::wire::lemma_be_bytes_of_value(bytes@.subrange(2, 6));
                assert(bytes@ =~= RequestView::SnapshotFor(player_id).bytes());
            }
            Ok(ExternalSimulationRequest::SnapshotFor(player_id))
        },
        ExternalSimulationOperation::ApplyCommand => {
            if bytes.len() < COMMAND_REQUEST_FIXED_BYTES {
                return Err(
                    ExternalSimulationError::IncorrectLength {
                        expected: COMMAND_REQUEST_FIXED_BYTES,
                        actual: bytes.len(),
                    },
                );
            }
            let player_id: u32 = read_u32(bytes, 2);
            let sequence: u32 = read_u32(bytes, 6);
            if sequence == 0 {
                return Err(ExternalSimulationError::InvalidSequence);
            }
            let length: usize = read_u16(bytes, 10) as usize;
            if length > MAX_COMMAND_PAYLOAD_BYTES {
                return Err(
                    ExternalSimulationError::PayloadTooLarge {
                        maximum: MAX_COMMAND_PAYLOAD_BYTES,
                        actual: length,
                    },
                );
            }
            if let Err(error) = require_length(bytes, COMMAND_REQUEST_FIXED_BYTES + length) {
                return Err(error);
            }
            let payload: Vec<u8> = slice_to_vec(
                slice_subrange(bytes, COMMAND_REQUEST_FIXED_BYTES, bytes.len()),
            );
            proof {
                crate::wire::lemma_be_bytes_of_value(bytes@.subrange(2, 6));
                crate::wire::lemma_be_bytes_of_value(bytes@.subrange(6, 10));
                crate::wire::lemma_be_bytes_of_value(bytes@.subrange(10, 12));
                let view = RequestView::ApplyCommand { player_id, sequence, payload: payload@ };
                assert(bytes@ =~= view.bytes());
            }
            Ok(ExternalSimulationRequest::ApplyCommand { player_id, sequence, payload })
        },
        ExternalSimulationOperation::AdvanceTick => {
            if let Err(error) = require_length(bytes, REQUEST_HEADER_BYTES) {
                return Err(error);
            }
            assert(bytes@ =~= RequestView::AdvanceTick.bytes());
            Ok(ExternalSimulationRequest::AdvanceTick)
        },
        ExternalSimulationOperation::Snapshot => {
            if let Err(error) = require_length(bytes, REQUEST_HEADER_BYTES) {
                return Err(error);
            }
            assert(bytes@ =~= RequestView::Snapshot.bytes());
            Ok(ExternalSimulationRequest::Snapshot)
        },
    }
}

fn validate_descriptor(descriptor: ExternalSimulationDescriptor) -> (result: Result<
    (),
    ExternalSimulationError,
>)
    ensures
        match result {
            Ok(_) => descriptor_fault(
                descriptor.tick_hz as nat,
                descriptor.max_players as nat,
            ) is None,
            Err(error) => descriptor_fault(
                descriptor.tick_hz as nat,
                descriptor.max_players as nat,
            ) == Some(error),
        },
{
    if descriptor.tick_hz == 0 {
        return Err(ExternalSimulationError::InvalidDescriptor("tick rate must be non-zero"));
    }
    if descriptor.max_players == 0 {
        return Err(
            ExternalSimulationError::InvalidDescriptor("player capacity must be non-zero"),
        );
    }
    Ok(())
}

fn validate_hash(tick: u64, state_hash: u64, payload: &[u8]) -> (result: Result<
    (),
    ExternalSimulationError,
>)
    ensures
        match result {
            Ok(_) => hash_fault(tick, state_hash, payload@) is None,
            Err(error) => hash_fault(tick, state_hash, payload@) == Some(error),
        },
{
    let expected: u64 = snapshot_hash(tick, payload);
    if state_hash != expected {
        return Err(ExternalSimulationError::InvalidStateHash { expected, actual: state_hash });
    }
    Ok(())
}

fn encode_snapshot_scope(scope: SnapshotScope) -> (byte: u8)
    ensures
        byte == scope_byte(scope),
{
    match scope {
        SnapshotScope::Shared => 0,
        SnapshotScope::PlayerScoped => 1,
    }
}

fn decode_snapshot_scope(byte: u8) -> (result: Result<SnapshotScope, ExternalSimulationError>)
    ensures
        match result {
            Ok(scope) => byte <= 1 && scope_byte(scope) == byte,
            Err(error) => byte > 1 && error == ExternalSimulationError::InvalidSnapshotScope(byte),
        },
{
    match byte {
        0 => Ok(SnapshotScope::Shared),
        1 => Ok(SnapshotScope::PlayerScoped),
        _ => Err(ExternalSimulationError::InvalidSnapshotScope(byte)),
    }
}

/// Frames an answer to an operation.
pub fn encode_external_simulation_response(
    operation: ExternalSimulationOperation,
    response: &ExternalSimulationResponse,
) -> (result: Result<Vec<u8>, ExternalSimulationError>)
    ensures
        match result {
            Ok(bytes) => response@.refusal(operation) is None && bytes@ == response@.bytes(
                operation,
            ),
            Err(error) => response@.refusal(operation) == Some(error),
        },
{
    let mut output: Vec<u8> = Vec::with_capacity(DESCRIPTOR_RESPONSE_BYTES);
    output.push(EXTERNAL_SIMULATION_PROTOCOL_VERSION);
    output.push(operation.code());
    if let ExternalSimulationResponse::Rejected(message) = response {
        let words = message.as_str().as_bytes();
        if words.len() > MAX_EXTERNAL_SIMULATION_ERROR_BYTES {
            return Err(
                ExternalSimulationError::PayloadTooLarge {
                    maximum: MAX_EXTERNAL_SIMULATION_ERROR_BYTES,
                    actual: words.len(),
                },
            );
        }
        output.push(STATUS_ERROR);
        push_all(&mut output, words);
        assert(output@ =~= response@.bytes(operation));
        return Ok(output);
    }
    output.push(STATUS_OK);
    assert(output@ =~= seq![EXTERNAL_SIMULATION_PROTOCOL_VERSION, operation.byte(), STATUS_OK]);
    match (operation, response) {
        (
            ExternalSimulationOperation::Describe,
            ExternalSimulationResponse::Descriptor(descriptor),
        ) => {
            if let Err(error) = validate_descriptor(*descriptor) {
                return Err(error);
            }
            push_be(&mut output, descriptor.tick_hz as u64, 2);
            push_be(&mut output, descriptor.max_players as u64, 2);
            push_be(&mut output, descriptor.current_tick, 8);
            output.push(encode_snapshot_scope(descriptor.snapshot_scope));
        },
        (ExternalSimulationOperation::AddPlayer, ExternalSimulationResponse::Acknowledged) => {},
        (ExternalSimulationOperation::ApplyCommand, ExternalSimulationResponse::Acknowledged) => {
        },
        (
            ExternalSimulationOperation::RemovePlayer,
            ExternalSimulationResponse::PlayerRemoved(removed),
        ) => {
            output.push(
                if *removed {
                    1
                } else {
                    0
                },
            );
        },
        (
            ExternalSimulationOperation::AdvanceTick,
            ExternalSimulationResponse::TickAdvanced(tick),
        ) => {
            push_be(&mut output, *tick, 8);
        },
        (ExternalSimulationOperation::Snapshot, ExternalSimulationResponse::Snapshot(snapshot)) => {
            if let Err(error) = encode_snapshot_body(snapshot, &mut output) {
                return Err(error);
            }
        },
        (
            ExternalSimulationOperation::SnapshotFor,
            ExternalSimulationResponse::Snapshot(snapshot),
        ) => {
            if let Err(error) = encode_snapshot_body(snapshot, &mut output) {
                return Err(error);
            }
        },
        _ => {
            return Err(ExternalSimulationError::UnexpectedResponse(operation));
        },
    }
    assert(output@ =~= response@.bytes(operation));
    Ok(output)
}

fn encode_snapshot_body(snapshot: &SimulationSnapshot, output: &mut Vec<u8>) -> (result: Result<
    (),
    ExternalSimulationError,
>)
    ensures
        match result {
            Ok(_) => {
                &&& snapshot.payload@.len() <= MAX_SNAPSHOT_PAYLOAD_BYTES
                &&& hash_fault(snapshot.tick, snapshot.state_hash, snapshot.payload@) is None
                &&& final(output)@ == old(output)@ + ResponseView::Snapshot(snapshot@).body()
            },
            Err(error) => if snapshot.payload@.len() > MAX_SNAPSHOT_PAYLOAD_BYTES {
                error == (ExternalSimulationError::PayloadTooLarge {
                    maximum: MAX_SNAPSHOT_PAYLOAD_BYTES,
                    actual: snapshot.payload@.len() as usize,
                })
            } else {
                hash_fault(snapshot.tick, snapshot.state_hash, snapshot.payload@) == Some(error)
            },
        },
{
    if snapshot.payload.len() > MAX_SNAPSHOT_PAYLOAD_BYTES {
        return Err(
            ExternalSimulationError::PayloadTooLarge {
                maximum: MAX_SNAPSHOT_PAYLOAD_BYTES,
                actual: snapshot.payload.len(),
            },
        );
    }
    if let Err(error) = validate_hash(
        snapshot.tick,
        snapshot.state_hash,
        snapshot.payload.as_slice(),
    ) {
        return Err(error);
    }
    push_be(output, snapshot.tick, 8);
    push_be(output, snapshot.state_hash, 8);
    push_be(output, snapshot.payload.len() as u64, 2);
    push_all(output, snapshot.payload.as_slice());
    assert(output@ =~= old(output)@ + ResponseView::Snapshot(snapshot@).body());
    Ok(())
}

/// Reads an answer frame.
pub fn decode_external_simulation_response(bytes: &[u8]) -> (result: Result<
    (ExternalSimulationOperation, ExternalSimulationResponse),
    ExternalSimulationError,
>)
    ensures
        match result {
            Ok((operation, response)) => {
                &&& response_fault(bytes@) is None
                &&& response@.refusal(operation) is None
                &&& bytes@ == response@.bytes(operation)
            },
            Err(error) => response_fault(bytes@) == Some(error),
        },
{
    let operation = match require_head(bytes, RESPONSE_HEADER_BYTES) {
        Ok(operation) => operation,
        Err(error) => {
            return Err(error);
        },
    };
    if bytes[2] == STATUS_ERROR {
        let words = slice_subrange(bytes, RESPONSE_HEADER_BYTES, bytes.len());
        if words.len() > MAX_EXTERNAL_SIMULATION_ERROR_BYTES {
            return Err(
                ExternalSimulationError::PayloadTooLarge {
                    maximum: MAX_EXTERNAL_SIMULATION_ERROR_BYTES,
                    actual: words.len(),
                },
            );
        }
        match utf8_text(words) {
            Some(message) => {
                proof {
                    vstd::utf8::decode_utf8_encode_utf8(words@);
                    assert(bytes@ =~= ResponseView::Rejected(message@).bytes(operation));
                }
                Ok((operation, ExternalSimulationResponse::Rejected(message)))
            },
            None => Err(ExternalSimulationError::InvalidUtf8),
        }
    } else if bytes[2] == STATUS_OK {
        match decode_success_response(operation, bytes) {
            Ok(response) => Ok((operation, response)),
            Err(error) => Err(error),
        }
    } else {
        Err(ExternalSimulationError::UnexpectedStatus(bytes[2]))
    }
}

fn decode_success_response(operation: ExternalSimulationOperation, bytes: &[u8]) -> (result: Result<
    ExternalSimulationResponse,
    ExternalSimulationError,
>)
    requires
        head_fault(bytes@, RESPONSE_HEADER_BYTES) is None,
        bytes@[1] == operation.byte(),
        bytes@[2] == STATUS_OK,
    ensures
        match result {
            Ok(response) => {
                &&& response_fault(bytes@) is None
                &&& response@.refusal(operation) is None
                &&& bytes@ == response@.bytes(operation)
            },
            Err(error) => response_fault(bytes@) == Some(error),
        },
{
    match operation {
        ExternalSimulationOperation::Describe => {
            if let Err(error) = require_length(bytes, DESCRIPTOR_RESPONSE_BYTES) {
                return Err(error);
            }
            let tick_hz: u16 = read_u16(bytes, 3);
            let max_players: u16 = read_u16(bytes, 5);
            let current_tick: u64 = read_u64(bytes, 7);
            let snapshot_scope = match decode_snapshot_scope(bytes[15]) {
                Ok(scope) => scope,
                Err(error) => {
                    return Err(error);
                },
            };
            let descriptor = ExternalSimulationDescriptor {
                tick_hz,
                max_players,
                current_tick,
                snapshot_scope,
            };
            if let Err(error) = validate_descriptor(descriptor) {
                return Err(error);
            }
            proof {
                crate::wire::lemma_be_bytes_of_value(bytes@.subrange(3, 5));
                crate::wire::lemma_be_bytes_of_value(bytes@.subrange(5, 7));
                crate::wire::lemma_be_bytes_of_value(bytes@.subrange(7, 15));
                assert(bytes@ =~= ResponseView::Descriptor(descriptor).bytes(operation));
            }
            Ok(ExternalSimulationResponse::Descriptor(descriptor))
        },
        ExternalSimulationOperation::AddPlayer | ExternalSimulationOperation::ApplyCommand => {
            if let Err(error) = require_length(bytes, RESPONSE_HEADER_BYTES) {
                return Err(error);
            }
            assert(bytes@ =~= ResponseView::Acknowledged.bytes(operation));
            Ok(ExternalSimulationResponse::Acknowledged)
        },
        ExternalSimulationOperation::RemovePlayer => {
            if let Err(error) = require_length(bytes, REMOVAL_RESPONSE_BYTES) {
                return Err(error);
            }
            if bytes[3] > 1 {
                return Err(ExternalSimulationError::InvalidBoolean(bytes[3]));
            }
            let removed = bytes[3] == 1;
            assert(bytes@ =~= ResponseView::PlayerRemoved(removed).bytes(operation));
            Ok(ExternalSimulationResponse::PlayerRemoved(removed))
        },
        ExternalSimulationOperation::AdvanceTick => {
            if let Err(error) = require_length(bytes, TICK_RESPONSE_BYTES) {
                return Err(error);
            }
            let tick: u64 = read_u64(bytes, 3);
            proof {
                crate::wire::lemma_be_bytes_of_value(bytes@.subrange(3, 11));
                assert(bytes@ =~= ResponseView::TickAdvanced(tick).bytes(operation));
            }
            Ok(ExternalSimulationResponse::TickAdvanced(tick))
        },
        ExternalSimulationOperation::Snapshot | ExternalSimulationOperation::SnapshotFor => {
            match decode_snapshot_body(bytes) {
                Ok(snapshot) => {
                    assert(bytes@ =~= ResponseView::Snapshot(snapshot@).bytes(operation));
                    Ok(ExternalSimulationResponse::Snapshot(snapshot))
                },
                Err(error) => Err(error),
            }
        },
    }
}

fn decode_snapshot_body(bytes: &[u8]) -> (result: Result<
    SimulationSnapshot,
    ExternalSimulationError,
>)
    requires
        RESPONSE_HEADER_BYTES <= bytes.len() <= MAX_EXTERNAL_SIMULATION_FRAME_BYTES,
    ensures
        match result {
            Ok(snapshot) => {
                &&& snapshot_response_fault(bytes@) is None
                &&& snapshot.payload@.len() <= MAX_SNAPSHOT_PAYLOAD_BYTES
                &&& hash_fault(snapshot.tick, snapshot.state_hash, snapshot.payload@) is None
                &&& bytes@ == bytes@.take(3) + ResponseView::Snapshot(snapshot@).body()
            },
            Err(error) => snapshot_response_fault(bytes@) == Some(error),
        },
{
    if bytes.len() < SNAPSHOT_RESPONSE_FIXED_BYTES {
        return Err(
            ExternalSimulationError::IncorrectLength {
                expected: SNAPSHOT_RESPONSE_FIXED_BYTES,
                actual: bytes.len(),
            },
        );
    }
    let tick: u64 = read_u64(bytes, 3);
    let state_hash: u64 = read_u64(bytes, 11);
    let length: usize = read_u16(bytes, 19) as usize;
    if let Err(error) = require_length(bytes, SNAPSHOT_RESPONSE_FIXED_BYTES + length) {
        return Err(error);
    }
    let payload: Vec<u8> = slice_to_vec(
        slice_subrange(bytes, SNAPSHOT_RESPONSE_FIXED_BYTES, bytes.len()),
    );
    if let Err(error) = validate_hash(tick, state_hash, payload.as_slice()) {
        return Err(error);
    }
    let snapshot = SimulationSnapshot { tick, state_hash, payload };
    proof {
        crate::wire::lemma_be_bytes_of_value(bytes@.subrange(3, 11));
        crate::wire::lemma_be_bytes_of_value(bytes@.subrange(11, 19));
        crate::wire::lemma_be_bytes_of_value(bytes@.subrange(19, 21));
        assert(bytes@ =~= bytes@.take(3) + ResponseView::Snapshot(snapshot@).body());
    }
    Ok(snapshot)
}

/// Every request that can be framed is read back from its frame: the frame breaks no rule, and no
/// other framable request has it.
pub proof fn law_request_round_trip(request: RequestView, other: RequestView)
    requires
        request.refusal() is None,
    ensures
        request_fault(request.bytes()) is None,
        other.refusal() is None && other.bytes() == request.bytes() ==> other == request,
{
    broadcast use {crate::wire::lemma_be_bytes_len, crate::wire::lemma_be_round_trip};

    crate::wire::lemma_pow256();
    lemma_request_frame(request);
    lemma_request_frame(other);
    if other.refusal() is None && other.bytes() == request.bytes() {
        assert(other.asks() == request.asks());
        assert(other.bytes().subrange(2, other.bytes().len() as int) =~= other.body());
        assert(request.bytes().subrange(2, request.bytes().len() as int) =~= request.body());
        assert(other =~= request);
    }
}

proof fn lemma_request_frame(request: RequestView)
    ensures
        request.bytes()[1] == request.asks().byte(),
        request.refusal() is None ==> request_fault(request.bytes()) is None,
        match request {
            RequestView::AddPlayer(player_id)
            | RequestView::RemovePlayer(player_id)
            | RequestView::SnapshotFor(player_id) => crate::wire::be_value(
                request.bytes().subrange(2, 6),
            ) == player_id,
            RequestView::ApplyCommand { player_id, sequence, payload } => {
                &&& crate::wire::be_value(request.bytes().subrange(2, 6)) == player_id
                &&& crate::wire::be_value(request.bytes().subrange(6, 10)) == sequence
                &&& request.bytes().subrange(12, request.bytes().len() as int) == payload
            },
            _ => true,
        },
{
    broadcast use {crate::wire::lemma_be_bytes_len, crate::wire::lemma_be_round_trip};

    crate::wire::lemma_pow256();
    let bytes = request.bytes();
    match request {
        RequestView::AddPlayer(player_id)
        | RequestView::RemovePlayer(player_id)
        | RequestView::SnapshotFor(player_id) => {
            assert(bytes.subrange(2, 6) =~= crate::wire::be_bytes(player_id as nat, 4));
        },
        RequestView::ApplyCommand { player_id, sequence, payload } => {
            assert(bytes.subrange(2, 6) =~= crate::wire::be_bytes(player_id as nat, 4));
            assert(bytes.subrange(6, 10) =~= crate::wire::be_bytes(sequence as nat, 4));
            assert(bytes.subrange(10, 12) =~= crate::wire::be_bytes(payload.len(), 2));
            assert(bytes.subrange(12, bytes.len() as int) =~= payload);
        },
        _ => {},
    }
}

/// Every answer that can be framed is read back from its frame, with the operation that it answers:
/// the frame breaks no rule, and no other answer to any operation has it.
pub proof fn law_response_round_trip(
    operation: ExternalSimulationOperation,
    response: ResponseView,
    other_operation: ExternalSimulationOperation,
    other: ResponseView,
)
    requires
        response.refusal(operation) is None,
    ensures
        response_fault(response.bytes(operation)) is None,
        other.refusal(other_operation) is None && other.bytes(other_operation) == response.bytes(
            operation,
        ) ==> other_operation == operation && other == response,
{
    lemma_response_frame(operation, response);
    lemma_response_frame(other_operation, other);
    if other.refusal(other_operation) is None && other.bytes(other_operation) == response.bytes(
        operation,
    ) {
        assert(other_operation == operation);
        assert(other is Rejected == response is Rejected);
        assert(other =~= response);
    }
}

proof fn lemma_response_frame(operation: ExternalSimulationOperation, response: ResponseView)
    ensures
        response.bytes(operation)[1] == operation.byte(),
        response.bytes(operation)[2] == (if response is Rejected {
            STATUS_ERROR
        } else {
            STATUS_OK
        }),
        response.refusal(operation) is None ==> response_fault(response.bytes(operation)) is None,
        match response {
            ResponseView::Descriptor(descriptor) => {
                let bytes = response.bytes(operation);
                &&& crate::wire::be_value(bytes.subrange(3, 5)) == descriptor.tick_hz
                &&& crate::wire::be_value(bytes.subrange(5, 7)) == descriptor.max_players
                &&& crate::wire::be_value(bytes.subrange(7, 15)) == descriptor.current_tick
                &&& bytes[15] == scope_byte(descriptor.snapshot_scope)
            },
            ResponseView::PlayerRemoved(removed) => response.bytes(operation)[3] == (if removed {
                1u8
            } else {
                0u8
            }),
            ResponseView::TickAdvanced(tick) => crate::wire::be_value(
                response.bytes(operation).subrange(3, 11),
            ) == tick,
            ResponseView::Snapshot(snapshot) => {
                let bytes = response.bytes(operation);
                &&& crate::wire::be_value(bytes.subrange(3, 11)) == snapshot.tick
                &&& crate::wire::be_value(bytes.subrange(11, 19)) == snapshot.state_hash
                &&& bytes.subrange(21, bytes.len() as int) == snapshot.payload
            },
            ResponseView::Rejected(message) => vstd::utf8::decode_utf8(
                response.bytes(operation).subrange(3, response.bytes(operation).len() as int),
            ) == message,
            ResponseView::Acknowledged => true,
        },
{
    broadcast use {crate::wire::lemma_be_bytes_len, crate::wire::lemma_be_round_trip};

    crate::wire::lemma_pow256();
    let bytes = response.bytes(operation);
    match response {
        ResponseView::Descriptor(descriptor) => {
            assert(bytes.subrange(3, 5) =~= crate::wire::be_bytes(descriptor.tick_hz as nat, 2));
            assert(bytes.subrange(5, 7) =~= crate::wire::be_bytes(
                descriptor.max_players as nat,
                2,
            ));
            assert(bytes.subrange(7, 15) =~= crate::wire::be_bytes(
                descriptor.current_tick as nat,
                8,
            ));
        },
        ResponseView::TickAdvanced(tick) => {
            assert(bytes.subrange(3, 11) =~= crate::wire::be_bytes(tick as nat, 8));
        },
        ResponseView::Snapshot(snapshot) => {
            assert(bytes.subrange(3, 11) =~= crate::wire::be_bytes(snapshot.tick as nat, 8));
            assert(bytes.subrange(11, 19) =~= crate::wire::be_bytes(
                snapshot.state_hash as nat,
                8,
            ));
            assert(bytes.subrange(19, 21) =~= crate::wire::be_bytes(snapshot.payload.len(), 2));
            assert(bytes.subrange(21, bytes.len() as int) =~= snapshot.payload);
        },
        ResponseView::Rejected(message) => {
            vstd::utf8::encode_utf8_valid_utf8(message);
            vstd::utf8::encode_utf8_decode_utf8(message);
            assert(bytes.subrange(3, bytes.len() as int) =~= vstd::utf8::encode_utf8(message));
        },
        _ => {},
    }
}

/// The transport to a game that lives outside. A bridge hands over one request frame and returns one
/// answer frame, or a bounded error.
pub trait ExternalSimulationBridge: Send + Sized + 'static {
    fn exchange(&self, request: &[u8]) -> Result<Vec<u8>, ExternalSimulationError>;
}

/// Whether a bridge that is handed the frame of `request` may reply with `reply`.
pub open spec fn replies<B: ExternalSimulationBridge>(
    bridge: B,
    request: RequestView,
    reply: Result<Vec<u8>, ExternalSimulationError>,
) -> bool {
    exists|frame: &[u8]|
        frame@ == request.bytes() && #[trigger] call_ensures(
            B::exchange,
            (&bridge, frame),
            reply,
        )
}

/// What a framed answer to `actual` means to one who asked for `expected`: another operation's
/// answer is refused, a rejection is the remote's error, and everything else is the answer.
pub open spec fn means(
    expected: ExternalSimulationOperation,
    actual: ExternalSimulationOperation,
    response: ResponseView,
    answer: Result<ExternalSimulationResponse, ExternalSimulationError>,
) -> bool {
    if actual != expected {
        answer == Err::<ExternalSimulationResponse, _>(
            ExternalSimulationError::UnexpectedOperation { expected, actual },
        )
    } else {
        match response {
            ResponseView::Rejected(message) => answer matches Err(
                ExternalSimulationError::Remote(text),
            ) && text@ == message,
            _ => answer matches Ok(value) && value@ == response,
        }
    }
}

/// Whether `answer` is what a frame says.
pub open spec fn spells(
    expected: ExternalSimulationOperation,
    frame: Seq<u8>,
    answer: Result<ExternalSimulationResponse, ExternalSimulationError>,
) -> bool {
    exists|actual: ExternalSimulationOperation, response: ResponseView|
        {
            &&& response.refusal(actual) is None
            &&& frame == #[trigger] response.bytes(actual)
            &&& means(expected, actual, response, answer)
        }
}

/// Whether `answer` is what a bridge's reply comes to.
pub open spec fn comes_to(
    expected: ExternalSimulationOperation,
    reply: Result<Vec<u8>, ExternalSimulationError>,
    answer: Result<ExternalSimulationResponse, ExternalSimulationError>,
) -> bool {
    match reply {
        Err(error) => answer == Err::<ExternalSimulationResponse, _>(error),
        Ok(frame) => match response_fault(frame@) {
            Some(error) => answer == Err::<ExternalSimulationResponse, _>(error),
            None => spells(expected, frame@, answer),
        },
    }
}

/// Reads a bridge's reply to a request for `expected`.
pub fn read_reply(
    expected: ExternalSimulationOperation,
    reply: Result<Vec<u8>, ExternalSimulationError>,
) -> (answer: Result<ExternalSimulationResponse, ExternalSimulationError>)
    ensures
        comes_to(expected, reply, answer),
{
    let frame = match reply {
        Ok(frame) => frame,
        Err(error) => {
            return Err(error);
        },
    };
    let (actual, response) = match decode_external_simulation_response(frame.as_slice()) {
        Ok(decoded) => decoded,
        Err(error) => {
            return Err(error);
        },
    };
    let ghost told = response@;
    let answer = if actual != expected {
        Err(ExternalSimulationError::UnexpectedOperation { expected, actual })
    } else {
        match response {
            ExternalSimulationResponse::Rejected(message) => Err(
                ExternalSimulationError::Remote(message),
            ),
            _ => Ok(response),
        }
    };
    assert(frame@ == told.bytes(actual) && means(expected, actual, told, answer));
    answer
}

/// Whether one exchange over a bridge may end in `answer`: a request that cannot be framed is never
/// sent.
pub open spec fn exchanges<B: ExternalSimulationBridge>(
    bridge: B,
    request: RequestView,
    answer: Result<ExternalSimulationResponse, ExternalSimulationError>,
) -> bool {
    match request.refusal() {
        Some(error) => answer == Err::<ExternalSimulationResponse, _>(error),
        None => answered(bridge, request, answer),
    }
}

/// Whether a bridge may reply to a request so that it comes to `answer`.
pub open spec fn answered<B: ExternalSimulationBridge>(
    bridge: B,
    request: RequestView,
    answer: Result<ExternalSimulationResponse, ExternalSimulationError>,
) -> bool {
    exists|reply: Result<Vec<u8>, ExternalSimulationError>|
        #[trigger] replies(bridge, request, reply) && comes_to(request.asks(), reply, answer)
}

/// Sends one request over a bridge and reads the reply.
fn exchange_over<B: ExternalSimulationBridge>(
    bridge: &B,
    request: &ExternalSimulationRequest,
) -> (answer: Result<ExternalSimulationResponse, ExternalSimulationError>)
    ensures
        exchanges(*bridge, request@, answer),
{
    let encoded = match encode_external_simulation_request(request) {
        Ok(encoded) => encoded,
        Err(error) => {
            return Err(error);
        },
    };
    let frame = encoded.as_slice();
    let reply = bridge.exchange(frame);
    assert(frame@ == request@.bytes() && call_ensures(B::exchange, (bridge, frame), reply));
    assert(replies(*bridge, request@, reply));
    read_reply(request.operation(), reply)
}

/// Whether `result` reports an answer that had to acknowledge.
pub open spec fn acknowledges(
    operation: ExternalSimulationOperation,
    answer: Result<ExternalSimulationResponse, ExternalSimulationError>,
    result: Result<(), SimulationError>,
) -> bool {
    match answer {
        Ok(ExternalSimulationResponse::Acknowledged) => result is Ok,
        Ok(_) => result matches Err(error) && error@
            == ExternalSimulationError::UnexpectedResponse(operation).message(),
        Err(cause) => result matches Err(error) && error@ == cause.message(),
    }
}

/// Reports an answer that has to acknowledge.
pub fn read_acknowledgement(
    operation: ExternalSimulationOperation,
    answer: Result<ExternalSimulationResponse, ExternalSimulationError>,
) -> (result: Result<(), SimulationError>)
    ensures
        acknowledges(operation, answer, result),
{
    match answer {
        Ok(ExternalSimulationResponse::Acknowledged) => Ok(()),
        Ok(_) => Err(
            ExternalSimulationError::UnexpectedResponse(operation).into_simulation_error(),
        ),
        Err(error) => Err(error.into_simulation_error()),
    }
}

/// Whether `result` reports an answer that had to say whether a player left.
pub open spec fn tells_removal(
    answer: Result<ExternalSimulationResponse, ExternalSimulationError>,
    result: Result<bool, SimulationError>,
) -> bool {
    match answer {
        Ok(ExternalSimulationResponse::PlayerRemoved(removed)) => result == Ok::<
            _,
            SimulationError,
        >(removed),
        Ok(_) => result matches Err(error) && error@
            == ExternalSimulationError::UnexpectedResponse(
            ExternalSimulationOperation::RemovePlayer,
        ).message(),
        Err(cause) => result matches Err(error) && error@ == cause.message(),
    }
}

/// Reports an answer that has to say whether a player left.
pub fn read_removal(
    answer: Result<ExternalSimulationResponse, ExternalSimulationError>,
) -> (result: Result<bool, SimulationError>)
    ensures
        tells_removal(answer, result),
{
    match answer {
        Ok(ExternalSimulationResponse::PlayerRemoved(removed)) => Ok(removed),
        Ok(_) => Err(
            ExternalSimulationError::UnexpectedResponse(
                ExternalSimulationOperation::RemovePlayer,
            ).into_simulation_error(),
        ),
        Err(error) => Err(error.into_simulation_error()),
    }
}

/// Whether `result` reports an answer that had to reach the tick `expected`.
pub open spec fn tells_tick(
    expected: u64,
    answer: Result<ExternalSimulationResponse, ExternalSimulationError>,
    result: Result<(), SimulationError>,
) -> bool {
    match answer {
        Ok(ExternalSimulationResponse::TickAdvanced(actual)) => if actual == expected {
            result is Ok
        } else {
            result matches Err(error) && error@ == (ExternalSimulationError::TickMismatch {
                expected,
                actual,
            }).message()
        },
        Ok(_) => result matches Err(error) && error@
            == ExternalSimulationError::UnexpectedResponse(
            ExternalSimulationOperation::AdvanceTick,
        ).message(),
        Err(cause) => result matches Err(error) && error@ == cause.message(),
    }
}

/// Reports an answer that has to reach the tick `expected`.
pub fn read_tick(
    expected: u64,
    answer: Result<ExternalSimulationResponse, ExternalSimulationError>,
) -> (result: Result<(), SimulationError>)
    ensures
        tells_tick(expected, answer, result),
{
    match answer {
        Ok(ExternalSimulationResponse::TickAdvanced(actual)) => if actual == expected {
            Ok(())
        } else {
            Err(ExternalSimulationError::TickMismatch { expected, actual }.into_simulation_error())
        },
        Ok(_) => Err(
            ExternalSimulationError::UnexpectedResponse(
                ExternalSimulationOperation::AdvanceTick,
            ).into_simulation_error(),
        ),
        Err(error) => Err(error.into_simulation_error()),
    }
}

/// Whether `result` reports an answer that had to show the tick `expected`.
pub open spec fn tells_snapshot(
    operation: ExternalSimulationOperation,
    expected: u64,
    answer: Result<ExternalSimulationResponse, ExternalSimulationError>,
    result: Result<SimulationSnapshot, SimulationError>,
) -> bool {
    match answer {
        Ok(ExternalSimulationResponse::Snapshot(snapshot)) => if snapshot.tick == expected {
            result == Ok::<_, SimulationError>(snapshot)
        } else {
            result matches Err(error) && error@ == (ExternalSimulationError::TickMismatch {
                expected,
                actual: snapshot.tick,
            }).message()
        },
        Ok(_) => result matches Err(error) && error@
            == ExternalSimulationError::UnexpectedResponse(operation).message(),
        Err(cause) => result matches Err(error) && error@ == cause.message(),
    }
}

/// Reports an answer that has to show the tick `expected`.
pub fn read_snapshot(
    operation: ExternalSimulationOperation,
    expected: u64,
    answer: Result<ExternalSimulationResponse, ExternalSimulationError>,
) -> (result: Result<SimulationSnapshot, SimulationError>)
    ensures
        tells_snapshot(operation, expected, answer, result),
{
    match answer {
        Ok(ExternalSimulationResponse::Snapshot(snapshot)) => if snapshot.tick == expected {
            Ok(snapshot)
        } else {
            Err(
                ExternalSimulationError::TickMismatch {
                    expected,
                    actual: snapshot.tick,
                }.into_simulation_error(),
            )
        },
        Ok(_) => Err(
            ExternalSimulationError::UnexpectedResponse(operation).into_simulation_error(),
        ),
        Err(error) => Err(error.into_simulation_error()),
    }
}

/// Whether `result` reports an answer that had to describe the game.
pub open spec fn tells_descriptor(
    answer: Result<ExternalSimulationResponse, ExternalSimulationError>,
    result: Result<ExternalSimulationDescriptor, ExternalSimulationError>,
) -> bool {
    match answer {
        Ok(ExternalSimulationResponse::Descriptor(descriptor)) => match descriptor_fault(
            descriptor.tick_hz as nat,
            descriptor.max_players as nat,
        ) {
            Some(error) => result == Err::<ExternalSimulationDescriptor, _>(error),
            None => result == Ok::<_, ExternalSimulationError>(descriptor),
        },
        Ok(_) => result == Err::<ExternalSimulationDescriptor, _>(
            ExternalSimulationError::UnexpectedResponse(ExternalSimulationOperation::Describe),
        ),
        Err(error) => result == Err::<ExternalSimulationDescriptor, _>(error),
    }
}

/// Reports an answer that has to describe the game.
pub fn read_descriptor(
    answer: Result<ExternalSimulationResponse, ExternalSimulationError>,
) -> (result: Result<ExternalSimulationDescriptor, ExternalSimulationError>)
    ensures
        tells_descriptor(answer, result),
{
    match answer {
        Ok(ExternalSimulationResponse::Descriptor(descriptor)) => match validate_descriptor(
            descriptor,
        ) {
            Ok(_) => Ok(descriptor),
            Err(error) => Err(error),
        },
        Ok(_) => Err(
            ExternalSimulationError::UnexpectedResponse(ExternalSimulationOperation::Describe),
        ),
        Err(error) => Err(error),
    }
}

/// A game that lives outside, reached over a bridge. The adapter holds what the game once described
/// and the tick that the game last confirmed.
#[derive(Debug)]
pub struct ExternalSimulationAdapter<B> {
    bridge: B,
    descriptor: ExternalSimulationDescriptor,
    current_tick: u64,
}

/// What an adapter holds.
pub struct AdapterView<B> {
    pub bridge: B,
    pub descriptor: ExternalSimulationDescriptor,
    pub current_tick: u64,
}

impl<B> View for ExternalSimulationAdapter<B> {
    type V = AdapterView<B>;

    closed spec fn view(&self) -> AdapterView<B> {
        AdapterView {
            bridge: self.bridge,
            descriptor: self.descriptor,
            current_tick: self.current_tick,
        }
    }
}

/// Whether a first exchange over a bridge may describe the game as `result`.
pub open spec fn describes<B: ExternalSimulationBridge>(
    bridge: B,
    result: Result<ExternalSimulationDescriptor, ExternalSimulationError>,
) -> bool {
    exists|answer: Result<ExternalSimulationResponse, ExternalSimulationError>|
        #[trigger] exchanges(bridge, RequestView::Describe, answer) && tells_descriptor(
            answer,
            result,
        )
}

/// Whether an exchange over a bridge may acknowledge `request` as `result`.
pub open spec fn acknowledged<B: ExternalSimulationBridge>(
    bridge: B,
    request: RequestView,
    result: Result<(), SimulationError>,
) -> bool {
    exists|answer: Result<ExternalSimulationResponse, ExternalSimulationError>|
        #[trigger] exchanges(bridge, request, answer) && acknowledges(
            request.asks(),
            answer,
            result,
        )
}

/// Whether an exchange over a bridge may report the removal of a player as `result`.
pub open spec fn reports_removal<B: ExternalSimulationBridge>(
    bridge: B,
    player_id: PlayerId,
    result: Result<bool, SimulationError>,
) -> bool {
    exists|answer: Result<ExternalSimulationResponse, ExternalSimulationError>|
        #[trigger] exchanges(bridge, RequestView::RemovePlayer(player_id), answer)
            && tells_removal(answer, result)
}

/// Whether an exchange over a bridge may fail to report the removal of a player.
pub open spec fn removal_may_fail<B: ExternalSimulationBridge>(
    bridge: B,
    player_id: PlayerId,
) -> bool {
    exists|error: SimulationError|
        #[trigger] reports_removal(bridge, player_id, Err::<bool, _>(error))
}

/// Whether an exchange over a bridge may report the tick `expected` as `result`.
pub open spec fn reports_tick<B: ExternalSimulationBridge>(
    bridge: B,
    expected: u64,
    result: Result<(), SimulationError>,
) -> bool {
    exists|answer: Result<ExternalSimulationResponse, ExternalSimulationError>|
        #[trigger] exchanges(bridge, RequestView::AdvanceTick, answer) && tells_tick(
            expected,
            answer,
            result,
        )
}

/// Whether an exchange over a bridge may show the tick `expected` as `result`.
pub open spec fn reports_snapshot<B: ExternalSimulationBridge>(
    bridge: B,
    request: RequestView,
    expected: u64,
    result: Result<SimulationSnapshot, SimulationError>,
) -> bool {
    exists|answer: Result<ExternalSimulationResponse, ExternalSimulationError>|
        #[trigger] exchanges(bridge, request, answer) && tells_snapshot(
            request.asks(),
            expected,
            answer,
            result,
        )
}

impl<B: ExternalSimulationBridge> ExternalSimulationAdapter<B> {
    /// Asks the game behind a bridge to describe itself, and adapts it.
    pub fn connect(bridge: B) -> (result: Result<Self, ExternalSimulationError>)
        ensures
            match result {
                Ok(adapter) => {
                    &&& adapter@.bridge == bridge
                    &&& adapter@.current_tick == adapter@.descriptor.current_tick
                    &&& describes(bridge, Ok(adapter@.descriptor))
                },
                Err(error) => describes(bridge, Err(error)),
            },
    {
        let request = ExternalSimulationRequest::Describe;
        let answer = exchange_over(&bridge, &request);
        let ghost heard = answer;
        assert(exchanges(bridge, RequestView::Describe, heard));
        match read_descriptor(answer) {
            Ok(descriptor) => Ok(
                ExternalSimulationAdapter {
                    bridge,
                    descriptor,
                    current_tick: descriptor.current_tick,
                },
            ),
            Err(error) => Err(error),
        }
    }

    pub fn descriptor(&self) -> (descriptor: ExternalSimulationDescriptor)
        ensures
            descriptor == self@.descriptor,
    {
        self.descriptor
    }

    fn snapshot_request(&self, request: ExternalSimulationRequest) -> (result: Result<
        SimulationSnapshot,
        SimulationError,
    >)
        ensures
            reports_snapshot(self@.bridge, request@, self@.current_tick, result),
    {
        let operation = request.operation();
        let answer = exchange_over(&self.bridge, &request);
        let ghost heard = answer;
        assert(exchanges(self@.bridge, request@, heard));
        read_snapshot(operation, self.current_tick, answer)
    }

    fn request_removal(&self, player_id: PlayerId) -> (result: Result<bool, SimulationError>)
        ensures
            reports_removal(self@.bridge, player_id, result),
    {
        let request = ExternalSimulationRequest::RemovePlayer(player_id);
        let answer = exchange_over(&self.bridge, &request);
        let ghost heard = answer;
        assert(exchanges(self@.bridge, RequestView::RemovePlayer(player_id), heard));
        read_removal(answer)
    }
}

impl<B: ExternalSimulationBridge> GameSimulation for ExternalSimulationAdapter<B> {
    open spec fn rate(&self) -> u16 {
        self@.descriptor.tick_hz
    }

    open spec fn capacity(&self) -> usize {
        self@.descriptor.max_players as usize
    }

    open spec fn tick(&self) -> u64 {
        self@.current_tick
    }

    /// Only the game itself knows its players.
    open spec fn present(&self, player_id: PlayerId) -> bool {
        true
    }

    open spec fn alike(a: Self, b: Self) -> bool {
        a@.descriptor == b@.descriptor && a@.current_tick == b@.current_tick
    }

    open spec fn added(
        pre: Self,
        player_id: PlayerId,
        post: Self,
        result: Result<(), SimulationError>,
    ) -> bool {
        &&& post@ == pre@
        &&& acknowledged(pre@.bridge, RequestView::AddPlayer(player_id), result)
    }

    open spec fn removed(
        pre: Self,
        player_id: PlayerId,
        post: Self,
        result: Result<bool, SimulationError>,
    ) -> bool {
        &&& post@ == pre@
        &&& reports_removal(pre@.bridge, player_id, result)
    }

    open spec fn commanded(
        pre: Self,
        player_id: PlayerId,
        sequence: u32,
        payload: Seq<u8>,
        post: Self,
        result: Result<(), SimulationError>,
    ) -> bool {
        &&& post@ == pre@
        &&& acknowledged(
            pre@.bridge,
            RequestView::ApplyCommand { player_id, sequence, payload },
            result,
        )
    }

    open spec fn advanced(pre: Self, post: Self, result: Result<(), SimulationError>) -> bool {
        if pre@.current_tick == u64::MAX {
            &&& post@ == pre@
            &&& result matches Err(error) && error@ == "external simulation tick exhausted u64"@
        } else {
            &&& reports_tick(pre@.bridge, (pre@.current_tick + 1) as u64, result)
            &&& post@ == if result is Ok {
                AdapterView { current_tick: (pre@.current_tick + 1) as u64, ..pre@ }
            } else {
                pre@
            }
        }
    }

    fn tick_hz(&self) -> u16 {
        self.descriptor.tick_hz
    }

    fn max_players(&self) -> usize {
        self.descriptor.max_players as usize
    }

    fn current_tick(&self) -> u64 {
        self.current_tick
    }

    fn add_player(&mut self, player_id: PlayerId) -> Result<(), SimulationError> {
        let request = ExternalSimulationRequest::AddPlayer(player_id);
        let answer = exchange_over(&self.bridge, &request);
        let ghost heard = answer;
        assert(exchanges(self@.bridge, RequestView::AddPlayer(player_id), heard));
        read_acknowledgement(ExternalSimulationOperation::AddPlayer, answer)
    }

    /// Removes a player. That the removal failed looks as if there was nobody to remove.
    fn remove_player(&mut self, player_id: PlayerId) -> (removed: bool)
        ensures
            final(self)@ == old(self)@,
            reports_removal(old(self)@.bridge, player_id, Ok(removed)) || (!removed
                && removal_may_fail(old(self)@.bridge, player_id)),
    {
        match self.remove_elsewhere(player_id) {
            Some(Ok(removed)) => removed,
            Some(Err(error)) => {
                assert(reports_removal(self@.bridge, player_id, Err::<bool, _>(error)));
                false
            },
            None => false,
        }
    }

    /// Asks the game behind the bridge, which keeps the players.
    fn remove_elsewhere(&self, player_id: PlayerId) -> (ended: Option<
        Result<bool, SimulationError>,
    >)
        ensures
            ended matches Some(result) && reports_removal(self@.bridge, player_id, result),
    {
        Some(self.request_removal(player_id))
    }

    /// Removes a player, or says why the game did not.
    fn try_remove_player(&mut self, player_id: PlayerId) -> (result: Result<bool, SimulationError>)
        ensures
            final(self)@ == old(self)@,
            reports_removal(old(self)@.bridge, player_id, result),
    {
        self.request_removal(player_id)
    }

    fn apply_command(&mut self, player_id: PlayerId, sequence: u32, payload: &[u8]) -> Result<
        (),
        SimulationError,
    > {
        let request = ExternalSimulationRequest::ApplyCommand {
            player_id,
            sequence,
            payload: slice_to_vec(payload),
        };
        let answer = exchange_over(&self.bridge, &request);
        let ghost heard = answer;
        let ghost asked = RequestView::ApplyCommand { player_id, sequence, payload: payload@ };
        assert(request@ =~= asked);
        assert(exchanges(self@.bridge, asked, heard));
        read_acknowledgement(ExternalSimulationOperation::ApplyCommand, answer)
    }

    fn advance_tick(&mut self) -> Result<(), SimulationError> {
        if self.current_tick == u64::MAX {
            return Err(
                SimulationError::in_words("external simulation tick exhausted u64".to_owned()),
            );
        }
        let expected: u64 = self.current_tick + 1;
        let request = ExternalSimulationRequest::AdvanceTick;
        let answer = exchange_over(&self.bridge, &request);
        let ghost heard = answer;
        assert(exchanges(self@.bridge, RequestView::AdvanceTick, heard));
        match read_tick(expected, answer) {
            Ok(_) => {
                self.current_tick = expected;
                Ok(())
            },
            Err(error) => Err(error),
        }
    }

    fn snapshot_scope(&self) -> (scope: SnapshotScope)
        ensures
            scope == self@.descriptor.snapshot_scope,
    {
        self.descriptor.snapshot_scope
    }

    fn snapshot(&self) -> (result: Result<SimulationSnapshot, SimulationError>)
        ensures
            reports_snapshot(self@.bridge, RequestView::Snapshot, self@.current_tick, result),
    {
        self.snapshot_request(ExternalSimulationRequest::Snapshot)
    }

    fn snapshot_for(&self, player_id: PlayerId) -> (result: Result<
        SimulationSnapshot,
        SimulationError,
    >)
        ensures
            if self@.descriptor.snapshot_scope == SnapshotScope::PlayerScoped {
                reports_snapshot(
                    self@.bridge,
                    RequestView::SnapshotFor(player_id),
                    self@.current_tick,
                    result,
                )
            } else {
                result matches Err(error) && error@
                    == "external simulation exposes shared snapshots only"@
            },
    {
        if self.descriptor.snapshot_scope != SnapshotScope::PlayerScoped {
            return Err(
                SimulationError::in_words(
                    "external simulation exposes shared snapshots only".to_owned(),
                ),
            );
        }
        self.snapshot_request(ExternalSimulationRequest::SnapshotFor(player_id))
    }
}

/// Whether all that a bridge replies to a request to remove a player is a frame that turns it down in
/// these words.
pub open spec fn rejects_removal<B: ExternalSimulationBridge>(
    bridge: B,
    player_id: PlayerId,
    words: Seq<char>,
) -> bool {
    let rejection = ResponseView::Rejected(words);
    let asked = ExternalSimulationOperation::RemovePlayer;
    &&& rejection.refusal(asked) is None
    &&& forall|reply: Result<Vec<u8>, ExternalSimulationError>| #[trigger]
        replies(bridge, RequestView::RemovePlayer(player_id), reply) ==> (reply matches Ok(frame)
            && frame@ == rejection.bytes(asked))
}

/// A removal that the game turns down is reported as the game's error, in the game's words.
pub proof fn law_rejected_removal_is_told<B: ExternalSimulationBridge>(
    bridge: B,
    player_id: PlayerId,
    words: Seq<char>,
    result: Result<bool, SimulationError>,
)
    requires
        rejects_removal(bridge, player_id, words),
        reports_removal(bridge, player_id, result),
    ensures
        result matches Err(error) && error@ == "external simulation rejected operation: "@ + words,
{
    let rejection = ResponseView::Rejected(words);
    let asked = ExternalSimulationOperation::RemovePlayer;
    let request = RequestView::RemovePlayer(player_id);
    let answer = choose|answer: Result<ExternalSimulationResponse, ExternalSimulationError>|
        #[trigger] exchanges(bridge, request, answer) && tells_removal(answer, result);
    let reply = choose|reply: Result<Vec<u8>, ExternalSimulationError>|
        #[trigger] replies(bridge, request, reply) && comes_to(request.asks(), reply, answer);
    law_response_round_trip(asked, rejection, asked, rejection);
    let (actual, response) = choose|actual: ExternalSimulationOperation, response: ResponseView|
        {
            &&& response.refusal(actual) is None
            &&& reply->Ok_0@ == #[trigger] response.bytes(actual)
            &&& means(asked, actual, response, answer)
        };
    law_response_round_trip(asked, rejection, actual, response);
}

/// Whatever a game behind a bridge replies, an advance that succeeds moves the tick by exactly one,
/// and one that fails moves nothing; no other operation moves the tick.
pub proof fn law_external_tick_moves_by_one<B: ExternalSimulationBridge>(
    pre: ExternalSimulationAdapter<B>,
    post: ExternalSimulationAdapter<B>,
    advance: Result<(), SimulationError>,
    player_id: PlayerId,
    sequence: u32,
    payload: Seq<u8>,
    told: Result<(), SimulationError>,
    removed: Result<bool, SimulationError>,
)
    ensures
        GameSimulation::advanced(pre, post, advance) ==> post.tick() == pre.tick() + (
        if advance is Ok {
            1int
        } else {
            0int
        }),
        GameSimulation::added(pre, player_id, post, told) ==> post.tick() == pre.tick(),
        GameSimulation::commanded(pre, player_id, sequence, payload, post, told) ==> post.tick()
            == pre.tick(),
        GameSimulation::removed(pre, player_id, post, removed) ==> post.tick() == pre.tick(),
{
}

/// A snapshot that an adapter hands on shows the adapter's own tick, and its hash binds its payload
/// to that tick.
pub proof fn law_external_snapshot_is_bound<B: ExternalSimulationBridge>(
    bridge: B,
    request: RequestView,
    expected: u64,
    result: Result<SimulationSnapshot, SimulationError>,
)
    requires
        reports_snapshot(bridge, request, expected, result),
    ensures
        result matches Ok(snapshot) ==> snapshot.tick == expected && snapshot.state_hash
            == crate::protocol::snapshot_digest(expected, snapshot.payload@),
{
    if result is Ok {
        let answer = choose|answer: Result<ExternalSimulationResponse, ExternalSimulationError>|
            #[trigger] exchanges(bridge, request, answer) && tells_snapshot(
                request.asks(),
                expected,
                answer,
                result,
            );
        let reply = choose|reply: Result<Vec<u8>, ExternalSimulationError>|
            #[trigger] replies(bridge, request, reply) && comes_to(request.asks(), reply, answer);
        let (actual, response) = choose|
            actual: ExternalSimulationOperation,
            response: ResponseView,
        |
            {
                &&& response.refusal(actual) is None
                &&& reply->Ok_0@ == #[trigger] response.bytes(actual)
                &&& means(request.asks(), actual, response, answer)
            };
        assert(response.refusal(actual) is None);
        assert(response == ResponseView::Snapshot(result->Ok_0@));
    }
}

} // verus!
