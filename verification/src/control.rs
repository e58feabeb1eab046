//! The reliable control channel: one bounded request, one bounded answer.

use crate::host::MatchId;
use crate::protocol::PlayerId;
use crate::text::push_decimal;
use crate::wire::{push_all, push_be, read_u16};
use vstd::prelude::*;
use vstd::slice::{slice_subrange, slice_to_vec};

verus! {

pub const CONTROL_FORMAT_VERSION: u8 = 1;

pub const MAX_CONTROL_PAYLOAD_BYTES: usize = 4096;

pub const CONTROL_HEADER_BYTES: usize = 8;

pub const MAX_CONTROL_FRAME_BYTES: usize = 4104;

pub const CONTROL_REQUEST_KIND: u8 = 1;

pub const CONTROL_RESPONSE_KIND: u8 = 2;

pub const CONTROL_REJECTED_KIND: u8 = 3;

/// Who speaks: a player, through the connection of that epoch.
#[derive(Clone, Copy, Debug, Eq, PartialEq, Structural)]
pub struct ControlContext {
    pub player_id: PlayerId,
    pub connection_epoch: u32,
}

#[derive(Clone, Debug, Eq, PartialEq)]
pub struct ControlRequest {
    pub payload: Vec<u8>,
}

#[derive(Clone, Debug, Eq, PartialEq)]
pub struct ControlResponse {
    pub accepted: bool,
    pub payload: Vec<u8>,
}

#[derive(Clone, Debug, Eq, PartialEq)]
pub enum ControlWireError {
    InvalidMagic,
    UnsupportedVersion(u8),
    UnexpectedKind(u8),
    Truncated,
    TrailingBytes(usize),
    PayloadTooLarge { maximum: usize, actual: usize },
}

impl ControlWireError {
    /// The sentence that describes the error.
    pub open spec fn message(self) -> Seq<char> {
        match self {
            ControlWireError::InvalidMagic => "invalid reliable-control magic"@,
            ControlWireError::UnsupportedVersion(version) =>
                "unsupported reliable-control version "@ + crate::text::decimal(version as nat),
            ControlWireError::UnexpectedKind(kind) => "unexpected reliable-control kind "@
                + crate::text::decimal(kind as nat),
            ControlWireError::Truncated => "truncated reliable-control frame"@,
            ControlWireError::TrailingBytes(count) => "reliable-control frame has "@
                + crate::text::decimal(count as nat) + " trailing bytes"@,
            ControlWireError::PayloadTooLarge { maximum, actual } =>
                "reliable-control payload size "@ + crate::text::decimal(actual as nat)
                + " exceeds maximum "@ + crate::text::decimal(maximum as nat),
        }
    }

    pub fn to_string(&self) -> (text: String)
        ensures
            text@ == self.message(),
    {
        match self {
            ControlWireError::InvalidMagic => "invalid reliable-control magic".to_owned(),
            ControlWireError::UnsupportedVersion(version) => {
                let mut text = "unsupported reliable-control version ".to_owned();
                push_decimal(&mut text, *version as u64);
                text
            },
            ControlWireError::UnexpectedKind(kind) => {
                let mut text = "unexpected reliable-control kind ".to_owned();
                push_decimal(&mut text, *kind as u64);
                text
            },
            ControlWireError::Truncated => "truncated reliable-control frame".to_owned(),
            ControlWireError::TrailingBytes(count) => {
                let mut text = "reliable-control frame has ".to_owned();
                push_decimal(&mut text, *count as u64);
                text.push_str(" trailing bytes");
                text
            },
            ControlWireError::PayloadTooLarge { maximum, actual } => {
                let mut text = "reliable-control payload size ".to_owned();
                push_decimal(&mut text, *actual as u64);
                text.push_str(" exceeds maximum ");
                push_decimal(&mut text, *maximum as u64);
                text
            },
        }
    }
}

/// A service's refusal, in words.
#[derive(Clone, Debug, Eq, PartialEq)]
pub struct ControlServiceError {
    message: String,
}

impl View for ControlServiceError {
    type V = Seq<char>;

    closed spec fn view(&self) -> Seq<char> {
        self.message@
    }
}

impl ControlServiceError {
    /// The string that the error carries.
    pub closed spec fn carried(&self) -> String {
        self.message
    }

    /// An error that carries what `message` converts into.
    pub fn new<T: Into<String>>(message: T) -> (error: Self)
        ensures
            call_ensures(T::into, (message,), error.carried()),
            error@ == error.carried()@,
    {
        ControlServiceError { message: message.into() }
    }

    /// An error with the given words.
    pub fn in_words(message: String) -> (error: Self)
        ensures
            error@ == message@,
    {
        ControlServiceError { message }
    }

    pub fn to_string(&self) -> (text: String)
        ensures
            text@ == self@,
    {
        self.message.clone()
    }
}

/// Answers the control requests of one match.
pub trait ControlService: Send + Sync + 'static {
    fn handle(&self, context: ControlContext, payload: &[u8]) -> Result<
        Vec<u8>,
        ControlServiceError,
    >;
}

/// Answers the control requests of several matches.
pub trait MatchControlService: Send + Sync + 'static {
    fn handle(&self, match_id: &MatchId, context: ControlContext, payload: &[u8]) -> Result<
        Vec<u8>,
        ControlServiceError,
    >;
}

/// Turns every control request away.
#[derive(Clone, Copy, Debug, Default)]
pub struct RejectControlService;

impl ControlService for RejectControlService {
    fn handle(&self, _context: ControlContext, _payload: &[u8]) -> (result: Result<
        Vec<u8>,
        ControlServiceError,
    >)
        ensures
            result matches Err(error) && error@ == "reliable control is disabled"@,
    {
        Err(ControlServiceError::in_words("reliable control is disabled".to_owned()))
    }
}

/// Turns every control request of every match away.
#[derive(Clone, Copy, Debug, Default)]
pub struct RejectMatchControlService;

impl MatchControlService for RejectMatchControlService {
    fn handle(&self, _match_id: &MatchId, _context: ControlContext, _payload: &[u8]) -> (result:
        Result<Vec<u8>, ControlServiceError>)
        ensures
            result matches Err(error) && error@ == "reliable control is disabled"@,
    {
        Err(ControlServiceError::in_words("reliable control is disabled".to_owned()))
    }
}

/// `GSCT` and the format version.
pub open spec fn control_magic() -> Seq<u8> {
    seq![71u8, 83u8, 67u8, 84u8, CONTROL_FORMAT_VERSION]
}

/// The frame of a payload of the given kind.
pub open spec fn control_bytes(kind: u8, payload: Seq<u8>) -> Seq<u8> {
    control_magic() + seq![kind] + crate::wire::be_bytes(payload.len(), 2) + payload
}

/// Why a payload cannot be framed, if it cannot.
pub open spec fn control_refusal(payload: Seq<u8>) -> Option<ControlWireError> {
    if payload.len() > MAX_CONTROL_PAYLOAD_BYTES {
        Some(
            ControlWireError::PayloadTooLarge {
                maximum: MAX_CONTROL_PAYLOAD_BYTES,
                actual: payload.len() as usize,
            },
        )
    } else {
        None
    }
}

/// The first rule that bytes break as a frame of any kind, if they break one.
pub open spec fn frame_fault(bytes: Seq<u8>) -> Option<ControlWireError> {
    let length = crate::wire::be_value(bytes.subrange(6, 8));
    if bytes.len() < CONTROL_HEADER_BYTES {
        Some(ControlWireError::Truncated)
    } else if bytes.subrange(0, 4) != control_magic().subrange(0, 4) {
        Some(ControlWireError::InvalidMagic)
    } else if bytes[4] != CONTROL_FORMAT_VERSION {
        Some(ControlWireError::UnsupportedVersion(bytes[4]))
    } else if length > MAX_CONTROL_PAYLOAD_BYTES {
        Some(
            ControlWireError::PayloadTooLarge {
                maximum: MAX_CONTROL_PAYLOAD_BYTES,
                actual: length as usize,
            },
        )
    } else if bytes.len() < CONTROL_HEADER_BYTES + length {
        Some(ControlWireError::Truncated)
    } else if bytes.len() > CONTROL_HEADER_BYTES + length {
        Some(
            ControlWireError::TrailingBytes(
                (bytes.len() - (CONTROL_HEADER_BYTES + length)) as usize,
            ),
        )
    } else {
        None
    }
}

/// The first rule that bytes break as a request, if they break one.
pub open spec fn request_fault(bytes: Seq<u8>) -> Option<ControlWireError> {
    if frame_fault(bytes) is Some {
        frame_fault(bytes)
    } else if bytes[5] != CONTROL_REQUEST_KIND {
        Some(ControlWireError::UnexpectedKind(bytes[5]))
    } else {
        None
    }
}

/// The first rule that bytes break as an answer, if they break one.
pub open spec fn response_fault(bytes: Seq<u8>) -> Option<ControlWireError> {
    if frame_fault(bytes) is Some {
        frame_fault(bytes)
    } else if bytes[5] != CONTROL_RESPONSE_KIND && bytes[5] != CONTROL_REJECTED_KIND {
        Some(ControlWireError::UnexpectedKind(bytes[5]))
    } else {
        None
    }
}

/// The kind of an answer.
pub open spec fn response_kind(accepted: bool) -> u8 {
    if accepted {
        CONTROL_RESPONSE_KIND
    } else {
        CONTROL_REJECTED_KIND
    }
}

pub fn encode_control_request(payload: &[u8]) -> (result: Result<Vec<u8>, ControlWireError>)
    ensures
        match result {
            Ok(bytes) => control_refusal(payload@) is None && bytes@ == control_bytes(
                CONTROL_REQUEST_KIND,
                payload@,
            ),
            Err(error) => control_refusal(payload@) == Some(error),
        },
{
    encode_frame(CONTROL_REQUEST_KIND, payload)
}

pub fn decode_control_request(bytes: &[u8]) -> (result: Result<ControlRequest, ControlWireError>)
    ensures
        match result {
            Ok(request) => request_fault(bytes@) is None && bytes@ == control_bytes(
                CONTROL_REQUEST_KIND,
                request.payload@,
            ),
            Err(error) => request_fault(bytes@) == Some(error),
        },
{
    let (kind, payload) = match decode_frame(bytes) {
        Ok(frame) => frame,
        Err(error) => {
            return Err(error);
        },
    };
    if kind != CONTROL_REQUEST_KIND {
        return Err(ControlWireError::UnexpectedKind(kind));
    }
    Ok(ControlRequest { payload })
}

pub fn encode_control_response(accepted: bool, payload: &[u8]) -> (result: Result<
    Vec<u8>,
    ControlWireError,
>)
    ensures
        match result {
            Ok(bytes) => control_refusal(payload@) is None && bytes@ == control_bytes(
                response_kind(accepted),
                payload@,
            ),
            Err(error) => control_refusal(payload@) == Some(error),
        },
{
    let kind: u8 = if accepted {
        CONTROL_RESPONSE_KIND
    } else {
        CONTROL_REJECTED_KIND
    };
    encode_frame(kind, payload)
}

pub fn decode_control_response(bytes: &[u8]) -> (result: Result<ControlResponse, ControlWireError>)
    ensures
        match result {
            Ok(response) => response_fault(bytes@) is None && bytes@ == control_bytes(
                response_kind(response.accepted),
                response.payload@,
            ),
            Err(error) => response_fault(bytes@) == Some(error),
        },
{
    let (kind, payload) = match decode_frame(bytes) {
        Ok(frame) => frame,
        Err(error) => {
            return Err(error);
        },
    };
    if kind == CONTROL_RESPONSE_KIND {
        Ok(ControlResponse { accepted: true, payload })
    } else if kind == CONTROL_REJECTED_KIND {
        Ok(ControlResponse { accepted: false, payload })
    } else {
        Err(ControlWireError::UnexpectedKind(kind))
    }
}

fn encode_frame(kind: u8, payload: &[u8]) -> (result: Result<Vec<u8>, ControlWireError>)
    ensures
        match result {
            Ok(bytes) => control_refusal(payload@) is None && bytes@ == control_bytes(
                kind,
                payload@,
            ),
            Err(error) => control_refusal(payload@) == Some(error),
        },
{
    if payload.len() > MAX_CONTROL_PAYLOAD_BYTES {
        return Err(
            ControlWireError::PayloadTooLarge {
                maximum: MAX_CONTROL_PAYLOAD_BYTES,
                actual: payload.len(),
            },
        );
    }
    let mut bytes: Vec<u8> = Vec::with_capacity(CONTROL_HEADER_BYTES + payload.len());
    bytes.push(71);
    bytes.push(83);
    bytes.push(67);
    bytes.push(84);
    bytes.push(CONTROL_FORMAT_VERSION);
    bytes.push(kind);
    assert(bytes@ =~= control_magic() + seq![kind]);
    push_be(&mut bytes, payload.len() as u64, 2);
    push_all(&mut bytes, payload);
    Ok(bytes)
}

fn decode_frame(bytes: &[u8]) -> (result: Result<(u8, Vec<u8>), ControlWireError>)
    ensures
        match result {
            Ok((kind, payload)) => frame_fault(bytes@) is None && kind == bytes@[5] && bytes@
                == control_bytes(kind, payload@),
            Err(error) => frame_fault(bytes@) == Some(error),
        },
{
    if bytes.len() < CONTROL_HEADER_BYTES {
        return Err(ControlWireError::Truncated);
    }
    if bytes[0] != 71 || bytes[1] != 83 || bytes[2] != 67 || bytes[3] != 84 {
        assert(bytes@.subrange(0, 4)[0] == bytes@[0]);
        assert(bytes@.subrange(0, 4)[1] == bytes@[1]);
        assert(bytes@.subrange(0, 4)[2] == bytes@[2]);
        assert(bytes@.subrange(0, 4)[3] == bytes@[3]);
        return Err(ControlWireError::InvalidMagic);
    }
    assert(bytes@.subrange(0, 4) =~= control_magic().subrange(0, 4));
    if bytes[4] != CONTROL_FORMAT_VERSION {
        return Err(ControlWireError::UnsupportedVersion(bytes[4]));
    }
    let kind: u8 = bytes[5];
    let payload_len: usize = read_u16(bytes, 6) as usize;
    if payload_len > MAX_CONTROL_PAYLOAD_BYTES {
        return Err(
            ControlWireError::PayloadTooLarge {
                maximum: MAX_CONTROL_PAYLOAD_BYTES,
                actual: payload_len,
            },
        );
    }
    let expected_len: usize = CONTROL_HEADER_BYTES + payload_len;
    if bytes.len() < expected_len {
        return Err(ControlWireError::Truncated);
    }
    if bytes.len() > expected_len {
        return Err(ControlWireError::TrailingBytes(bytes.len() - expected_len));
    }
    let payload = slice_to_vec(slice_subrange(bytes, CONTROL_HEADER_BYTES, bytes.len()));
    proof {
        crate::wire::lemma_be_bytes_of_value(bytes@.subrange(6, 8));
        assert(bytes@ =~= control_bytes(kind, payload@));
    }
    Ok((kind, payload))
}

/// What is framed is read back, and no other kind or payload has that frame.
pub proof fn law_control_round_trip(kind: u8, payload: Seq<u8>)
    requires
        control_refusal(payload) is None,
    ensures
        frame_fault(control_bytes(kind, payload)) is None,
        control_bytes(kind, payload)[5] == kind,
        forall|other_kind: u8, other_payload: Seq<u8>|
            #[trigger] control_bytes(other_kind, other_payload) == control_bytes(kind, payload)
                ==> other_kind == kind && other_payload == payload,
{
    broadcast use crate::wire::lemma_be_bytes_len, crate::wire::lemma_be_round_trip;

    crate::wire::lemma_pow256();
    let bytes = control_bytes(kind, payload);
    assert(bytes.subrange(0, 4) =~= control_magic().subrange(0, 4));
    assert(bytes.subrange(6, 8) =~= crate::wire::be_bytes(payload.len(), 2));
    assert(bytes.subrange(8, bytes.len() as int) =~= payload);
    assert forall|other_kind: u8, other_payload: Seq<u8>| #[trigger]
        control_bytes(other_kind, other_payload) == bytes implies other_kind == kind
        && other_payload == payload by {
        let other = control_bytes(other_kind, other_payload);
        assert(other[5] == other_kind);
        assert(other.subrange(8, other.len() as int) =~= other_payload);
    }
}

/// A request is never read as an answer, nor an answer as a request.
pub proof fn law_request_and_answer_are_distinct(payload: Seq<u8>, accepted: bool)
    requires
        control_refusal(payload) is None,
    ensures
        request_fault(control_bytes(CONTROL_REQUEST_KIND, payload)) is None,
        response_fault(control_bytes(response_kind(accepted), payload)) is None,
        response_fault(control_bytes(CONTROL_REQUEST_KIND, payload)) == Some(
            ControlWireError::UnexpectedKind(CONTROL_REQUEST_KIND),
        ),
        request_fault(control_bytes(response_kind(accepted), payload)) == Some(
            ControlWireError::UnexpectedKind(response_kind(accepted)),
        ),
{
    law_control_round_trip(CONTROL_REQUEST_KIND, payload);
    law_control_round_trip(response_kind(accepted), payload);
}

} // verus!
