//! What the bytes and the words mean: numbers, frames, routes and names, each told by what is
//! written and by what is read back.

use crate::browser::{BrowserRouteError, RouteView};
use crate::control::ControlWireError;
use crate::external_simulation::ExternalSimulationError;
use crate::host::MatchIdError;
use crate::protocol::{ProtocolError, Welcome};
use crate::recovery::{ImageView, RecoveryError};
use crate::replay::{RecordView, ReplayError};
use crate::session::RecoverableSession;
use vstd::prelude::*;

verus! {

/// The limits and versions that both ends count on.
pub proof fn law_limits()
    ensures
        crate::protocol::PROTOCOL_VERSION == 3,
        crate::protocol::RECONNECT_TOKEN_BYTES == 16,
        crate::protocol::MAX_COMMAND_PAYLOAD_BYTES == 1024,
        crate::protocol::MAX_SNAPSHOT_PAYLOAD_BYTES == 65535,
        crate::control::MAX_CONTROL_PAYLOAD_BYTES == 4096,
        crate::recovery::MAX_RECOVERY_IMAGE_BYTES == 256 * 1024 * 1024,
        crate::external_simulation::MAX_EXTERNAL_SIMULATION_ERROR_BYTES == 1024,
        crate::external_simulation::MAX_EXTERNAL_SIMULATION_FRAME_BYTES == 21 + 65535,
        crate::connection::CLOSE_PROTOCOL == 1,
        crate::connection::CLOSE_DATAGRAM == 2,
        crate::connection::CLOSE_RUNTIME == 3,
        crate::connection::CLOSE_SERVER == 4,
        crate::world::DEMO_TICK_HZ == 20,
        crate::world::DEMO_MAX_PLAYERS == 16,
        crate::world::WORLD_LIMIT == 10_000,
        crate::world::STEP_UNITS == 64,
{
}

/// A number is written with its most significant byte first.
pub proof fn law_numbers_are_big_endian(value: nat)
    ensures
        crate::wire::be_bytes(value, 2) == seq![(value / 256 % 256) as u8, (value % 256) as u8],
        crate::wire::be_bytes(value, 4) == seq![
            (value / 0x100_0000 % 256) as u8,
            (value / 0x1_0000 % 256) as u8,
            (value / 256 % 256) as u8,
            (value % 256) as u8,
        ],
        crate::wire::be_bytes(value, 8) == crate::wire::be_bytes(value / 0x1_0000_0000, 4)
            + crate::wire::be_bytes(value, 4),
{
    reveal_with_fuel(crate::wire::be_bytes, 9);
    assert(value / 256 / 256 == value / 0x1_0000);
    assert(value / 256 / 256 / 256 == value / 0x100_0000);
    assert(value / 256 / 256 / 256 / 256 == value / 0x1_0000_0000);
    assert(crate::wire::be_bytes(value, 2) =~= seq![
        (value / 256 % 256) as u8,
        (value % 256) as u8,
    ]);
    assert(crate::wire::be_bytes(value, 4) =~= seq![
        (value / 0x100_0000 % 256) as u8,
        (value / 0x1_0000 % 256) as u8,
        (value / 256 % 256) as u8,
        (value % 256) as u8,
    ]);
    assert(crate::wire::be_bytes(value, 8) =~= crate::wire::be_bytes(value / 0x1_0000_0000, 4)
        + crate::wire::be_bytes(value, 4));
}

/// Bytes that spell a number are read as the number that would be written so.
pub proof fn law_numbers_are_read_back(bytes: Seq<u8>, a: u8, b: u8, c: u8, d: u8)
    ensures
        crate::wire::be_bytes(crate::wire::be_value(bytes), bytes.len()) == bytes,
        crate::wire::be_value(seq![a, b]) == a * 256 + b,
        crate::wire::be_value(seq![a, b, c, d]) == a * 0x100_0000 + b * 0x1_0000 + c * 256 + d,
{
    crate::wire::lemma_be_bytes_of_value(bytes);
    reveal_with_fuel(crate::wire::be_value, 5);
    assert(seq![a, b].drop_last() =~= seq![a]);
    assert(seq![a].drop_last() =~= Seq::empty());
    assert(seq![a, b, c, d].drop_last() =~= seq![a, b, c]);
    assert(seq![a, b, c].drop_last() =~= seq![a, b]);
}

/// A hash of no bytes is where it started; each byte is mixed in by an exclusive or and a product;
/// and hashing two runs in turn is hashing them as one.
pub proof fn law_hash_steps(hash: u64, byte: u8, a: Seq<u8>, b: Seq<u8>)
    ensures
        crate::protocol::fnv(hash, Seq::empty()) == hash,
        crate::protocol::fnv(hash, seq![byte]) == vstd::wrapping::u64_specs::wrapping_mul(
            hash ^ (byte as u64),
            0x100_0000_01b3,
        ),
        crate::protocol::fnv(hash, a + b) == crate::protocol::fnv(
            crate::protocol::fnv(hash, a),
            b,
        ),
{
    reveal_with_fuel(crate::protocol::fnv, 2);
    assert(seq![byte].drop_last() =~= Seq::empty());
    crate::physics::lemma_fnv_continues(hash, a, b);
}

/// A snapshot's hash takes in its tick, the length of its payload and its payload, as one run.
pub proof fn law_digest_takes_everything(tick: u64, payload: Seq<u8>)
    ensures
        crate::protocol::snapshot_digest(tick, payload) == crate::protocol::fnv(
            0xcbf2_9ce4_8422_2325,
            crate::wire::be_bytes(tick as nat, 8) + crate::wire::be_bytes(payload.len(), 8)
                + payload,
        ),
{
    let first = crate::wire::be_bytes(tick as nat, 8);
    let second = crate::wire::be_bytes(payload.len(), 8);
    crate::physics::lemma_fnv_continues(0xcbf2_9ce4_8422_2325, first, second);
    crate::physics::lemma_fnv_continues(0xcbf2_9ce4_8422_2325, first + second, payload);
}

/// Where each field stands in the frames of commands, snapshots and welcomes.
pub proof fn law_frame_layouts(
    sequence: u32,
    payload: Seq<u8>,
    tick: u64,
    state_hash: u64,
    welcome: Welcome,
)
    ensures
        crate::protocol::command_bytes(sequence, payload) == seq![3u8, 1u8]
            + crate::wire::be_bytes(sequence as nat, 4) + crate::wire::be_bytes(payload.len(), 2)
            + payload,
        crate::protocol::snapshot_bytes(tick, state_hash, payload) == seq![3u8, 2u8]
            + crate::wire::be_bytes(tick as nat, 8) + crate::wire::be_bytes(state_hash as nat, 8)
            + crate::wire::be_bytes(payload.len(), 2) + payload,
        crate::protocol::welcome_bytes(welcome) == seq![3u8, 3u8] + crate::wire::be_bytes(
            welcome.player_id as nat,
            4,
        ) + crate::wire::be_bytes(welcome.tick_hz as nat, 2) + crate::wire::be_bytes(
            welcome.max_players as nat,
            2,
        ) + crate::wire::be_bytes(welcome.current_tick as nat, 8) + crate::wire::be_bytes(
            welcome.connection_epoch as nat,
            4,
        ) + welcome.reconnect_token@ + crate::wire::be_bytes(
            welcome.reconnect_grace_ticks as nat,
            8,
        ),
{
}

/// A command can be framed exactly where its sequence is not zero and its payload is not too long;
/// a snapshot where its payload is not too long and its hash is its own.
pub proof fn law_frames_are_owed(sequence: u32, payload: Seq<u8>, tick: u64, state_hash: u64)
    ensures
        ({
            let refusal = crate::protocol::command_refusal(sequence, payload);
            &&& refusal is None <==> sequence > 0 && payload.len() <= 1024
            &&& sequence == 0 ==> refusal == Some(ProtocolError::InvalidSequence)
            &&& sequence > 0 && payload.len() > 1024 ==> refusal == Some(
                ProtocolError::PayloadTooLarge { maximum: 1024, actual: payload.len() as usize },
            )
        }),
        ({
            let refusal = crate::protocol::snapshot_refusal(tick, state_hash, payload);
            let digest = crate::protocol::snapshot_digest(tick, payload);
            &&& refusal is None <==> payload.len() <= 65535 && state_hash == digest
            &&& payload.len() > 65535 ==> refusal == Some(
                ProtocolError::PayloadTooLarge { maximum: 65535, actual: payload.len() as usize },
            )
            &&& payload.len() <= 65535 && state_hash != digest ==> refusal == Some(
                ProtocolError::InvalidStateHash { expected: digest, actual: state_hash },
            )
        }),
{
}

/// Bytes are a command exactly where some command is framed so.
pub proof fn law_command_frames_are_recognised(bytes: Seq<u8>)
    ensures
        crate::protocol::command_fault(bytes) is None <==> exists|sequence: u32, payload: Seq<u8>|
            bytes == #[trigger] crate::protocol::command_bytes(sequence, payload) && sequence > 0
                && payload.len() <= 1024,
{
    if crate::protocol::command_fault(bytes) is None {
        let sequence = crate::wire::be_value(bytes.subrange(2, 6)) as u32;
        let payload = bytes.subrange(8, bytes.len() as int);
        crate::wire::lemma_pow256();
        crate::wire::lemma_be_bytes_of_value(bytes.subrange(2, 6));
        crate::wire::lemma_be_bytes_of_value(bytes.subrange(6, 8));
        crate::wire::lemma_be_value_bound(bytes.subrange(2, 6));
        assert(bytes =~= crate::protocol::command_bytes(sequence, payload));
    }
    if exists|sequence: u32, payload: Seq<u8>|
        bytes == #[trigger] crate::protocol::command_bytes(sequence, payload) && sequence > 0
            && payload.len() <= 1024 {
        let (sequence, payload) = choose|sequence: u32, payload: Seq<u8>|
            bytes == #[trigger] crate::protocol::command_bytes(sequence, payload) && sequence > 0
                && payload.len() <= 1024;
        crate::protocol::law_command_round_trip(sequence, payload);
    }
}

/// What is wrong with bytes that are no command: the first of length, version, kind, sequence, size
/// and announced length that does not fit.
pub proof fn law_command_faults_are_named(bytes: Seq<u8>)
    ensures
        ({
            let fault = crate::protocol::command_fault(bytes);
            let sequence = crate::wire::be_value(bytes.subrange(2, 6));
            let announced = crate::wire::be_value(bytes.subrange(6, 8));
            let headed = bytes.len() >= 8 && bytes[0] == 3 && bytes[1] == 1;
            &&& bytes.len() < 8 ==> fault == Some(
                ProtocolError::IncorrectLength { expected: 8, actual: bytes.len() as usize },
            )
            &&& bytes.len() >= 8 && bytes[0] != 3 ==> fault == Some(
                ProtocolError::UnsupportedVersion(bytes[0]),
            )
            &&& bytes.len() >= 8 && bytes[0] == 3 && bytes[1] != 1 ==> fault == Some(
                ProtocolError::UnexpectedKind(bytes[1]),
            )
            &&& headed && sequence == 0 ==> fault == Some(ProtocolError::InvalidSequence)
            &&& headed && sequence > 0 && announced > 1024 ==> fault == Some(
                ProtocolError::PayloadTooLarge { maximum: 1024, actual: announced as usize },
            )
            &&& headed && sequence > 0 && announced <= 1024 && bytes.len() != 8 + announced
                ==> fault == Some(
                ProtocolError::IncorrectLength {
                    expected: (8 + announced) as usize,
                    actual: bytes.len() as usize,
                },
            )
        }),
{
}

/// Bytes are a snapshot exactly where some snapshot is framed so.
pub proof fn law_snapshot_frames_are_recognised(bytes: Seq<u8>)
    ensures
        crate::protocol::snapshot_fault(bytes) is None <==> exists|
            tick: u64,
            state_hash: u64,
            payload: Seq<u8>,
        |
            bytes == #[trigger] crate::protocol::snapshot_bytes(tick, state_hash, payload)
                && payload.len() <= 65535 && state_hash == crate::protocol::snapshot_digest(
                tick,
                payload,
            ),
{
    if crate::protocol::snapshot_fault(bytes) is None {
        let tick = crate::wire::be_value(bytes.subrange(2, 10)) as u64;
        let state_hash = crate::wire::be_value(bytes.subrange(10, 18)) as u64;
        let payload = bytes.subrange(20, bytes.len() as int);
        crate::wire::lemma_pow256();
        crate::wire::lemma_be_bytes_of_value(bytes.subrange(2, 10));
        crate::wire::lemma_be_bytes_of_value(bytes.subrange(10, 18));
        crate::wire::lemma_be_bytes_of_value(bytes.subrange(18, 20));
        crate::wire::lemma_be_value_bound(bytes.subrange(2, 10));
        crate::wire::lemma_be_value_bound(bytes.subrange(10, 18));
        crate::wire::lemma_be_value_bound(bytes.subrange(18, 20));
        assert(bytes =~= crate::protocol::snapshot_bytes(tick, state_hash, payload));
    }
    if exists|tick: u64, state_hash: u64, payload: Seq<u8>|
        bytes == #[trigger] crate::protocol::snapshot_bytes(tick, state_hash, payload)
            && payload.len() <= 65535 && state_hash == crate::protocol::snapshot_digest(
            tick,
            payload,
        ) {
        let (tick, state_hash, payload) = choose|tick: u64, state_hash: u64, payload: Seq<u8>|
            bytes == #[trigger] crate::protocol::snapshot_bytes(tick, state_hash, payload)
                && payload.len() <= 65535 && state_hash == crate::protocol::snapshot_digest(
                tick,
                payload,
            );
        crate::protocol::law_snapshot_round_trip(tick, state_hash, payload);
    }
}

/// What is wrong with bytes that are no snapshot or no welcome: the first of length, version, kind,
/// announced length and hash that does not fit.
pub proof fn law_snapshot_and_welcome_faults_are_named(bytes: Seq<u8>)
    ensures
        ({
            let fault = crate::protocol::snapshot_fault(bytes);
            let tick = crate::wire::be_value(bytes.subrange(2, 10)) as u64;
            let state_hash = crate::wire::be_value(bytes.subrange(10, 18)) as u64;
            let announced = crate::wire::be_value(bytes.subrange(18, 20));
            let digest = crate::protocol::snapshot_digest(
                tick,
                bytes.subrange(20, bytes.len() as int),
            );
            let headed = bytes.len() >= 20 && bytes[0] == 3 && bytes[1] == 2;
            &&& bytes.len() < 20 ==> fault == Some(
                ProtocolError::IncorrectLength { expected: 20, actual: bytes.len() as usize },
            )
            &&& bytes.len() >= 20 && bytes[0] != 3 ==> fault == Some(
                ProtocolError::UnsupportedVersion(bytes[0]),
            )
            &&& bytes.len() >= 20 && bytes[0] == 3 && bytes[1] != 2 ==> fault == Some(
                ProtocolError::UnexpectedKind(bytes[1]),
            )
            &&& headed && bytes.len() != 20 + announced ==> fault == Some(
                ProtocolError::IncorrectLength {
                    expected: (20 + announced) as usize,
                    actual: bytes.len() as usize,
                },
            )
            &&& headed && bytes.len() == 20 + announced && state_hash != digest ==> fault == Some(
                ProtocolError::InvalidStateHash { expected: digest, actual: state_hash },
            )
            &&& headed && bytes.len() == 20 + announced && state_hash == digest ==> fault is None
        }),
        ({
            let fault = crate::protocol::welcome_fault(bytes);
            &&& fault is None <==> bytes.len() == 46 && bytes[0] == 3 && bytes[1] == 3
            &&& bytes.len() != 46 ==> fault == Some(
                ProtocolError::IncorrectLength { expected: 46, actual: bytes.len() as usize },
            )
            &&& bytes.len() == 46 && bytes[0] != 3 ==> fault == Some(
                ProtocolError::UnsupportedVersion(bytes[0]),
            )
            &&& bytes.len() == 46 && bytes[0] == 3 && bytes[1] != 3 ==> fault == Some(
                ProtocolError::UnexpectedKind(bytes[1]),
            )
        }),
{
    crate::wire::lemma_pow256();
    crate::wire::lemma_be_value_bound(bytes.subrange(18, 20));
}

/// The frame of a control request or answer: a magic, a version, a kind, a length and the payload;
/// a payload can be framed exactly where it is not too long.
pub proof fn law_control_frame_layout(kind: u8, payload: Seq<u8>)
    ensures
        crate::control::control_bytes(kind, payload) == seq![71u8, 83u8, 67u8, 84u8, 1u8, kind]
            + crate::wire::be_bytes(payload.len(), 2) + payload,
        crate::control::response_kind(true) == 2,
        crate::control::response_kind(false) == 3,
        crate::control::control_refusal(payload) is None <==> payload.len() <= 4096,
        payload.len() > 4096 ==> crate::control::control_refusal(payload) == Some(
            ControlWireError::PayloadTooLarge { maximum: 4096, actual: payload.len() as usize },
        ),
{
    assert(crate::control::control_bytes(kind, payload) =~= seq![
        71u8,
        83u8,
        67u8,
        84u8,
        1u8,
        kind,
    ] + crate::wire::be_bytes(payload.len(), 2) + payload);
}

/// Whether bytes are the control frame of some payload, of the given kind.
pub open spec fn frames_control(bytes: Seq<u8>, kind: u8) -> bool {
    exists|payload: Seq<u8>|
        bytes == #[trigger] crate::control::control_bytes(kind, payload) && payload.len() <= 4096
}

/// Bytes are a control request exactly where some request is framed so, and an answer where some
/// answer is.
pub proof fn law_control_frames_are_recognised(bytes: Seq<u8>)
    ensures
        crate::control::request_fault(bytes) is None <==> frames_control(bytes, 1),
        crate::control::response_fault(bytes) is None <==> frames_control(bytes, 2)
            || frames_control(bytes, 3),
{
    if crate::control::frame_fault(bytes) is None {
        let payload = bytes.subrange(8, bytes.len() as int);
        crate::wire::lemma_be_bytes_of_value(bytes.subrange(6, 8));
        assert forall|i: int| 0 <= i < 4 implies bytes[i] == seq![71u8, 83u8, 67u8, 84u8][i] by {
            assert(bytes.subrange(0, 4)[i] == bytes[i]);
        }
        assert(bytes =~= crate::control::control_bytes(bytes[5], payload));
        assert(frames_control(bytes, bytes[5]));
    }
    assert forall|kind: u8| #[trigger] frames_control(bytes, kind) implies
        crate::control::frame_fault(bytes) is None && bytes[5] == kind by {
        let payload = choose|payload: Seq<u8>|
            bytes == #[trigger] crate::control::control_bytes(kind, payload) && payload.len()
                <= 4096;
        crate::control::law_control_round_trip(kind, payload);
    }
}

/// What is wrong with bytes that are no control frame: the first of size, magic, version, announced
/// size, announced length and kind that does not fit.
pub proof fn law_control_faults_are_named(bytes: Seq<u8>)
    ensures
        ({
            let request = crate::control::request_fault(bytes);
            let answer = crate::control::response_fault(bytes);
            let announced = crate::wire::be_value(bytes.subrange(6, 8));
            let magic = bytes[0] == 71 && bytes[1] == 83 && bytes[2] == 67 && bytes[3] == 84;
            let headed = bytes.len() >= 8 && magic && bytes[4] == 1;
            let sized = headed && announced <= 4096;
            &&& bytes.len() < 8 ==> request == Some(ControlWireError::Truncated) && answer
                == request
            &&& bytes.len() >= 8 && !magic ==> request == Some(ControlWireError::InvalidMagic)
                && answer == request
            &&& bytes.len() >= 8 && magic && bytes[4] != 1 ==> request == Some(
                ControlWireError::UnsupportedVersion(bytes[4]),
            ) && answer == request
            &&& headed && announced > 4096 ==> request == Some(
                ControlWireError::PayloadTooLarge { maximum: 4096, actual: announced as usize },
            ) && answer == request
            &&& sized && bytes.len() < 8 + announced ==> request == Some(
                ControlWireError::Truncated,
            ) && answer == request
            &&& sized && bytes.len() > 8 + announced ==> request == Some(
                ControlWireError::TrailingBytes((bytes.len() - 8 - announced) as usize),
            ) && answer == request
            &&& sized && bytes.len() == 8 + announced && bytes[5] != 1 ==> request == Some(
                ControlWireError::UnexpectedKind(bytes[5]),
            )
            &&& sized && bytes.len() == 8 + announced && bytes[5] != 2 && bytes[5] != 3 ==> answer
                == Some(ControlWireError::UnexpectedKind(bytes[5]))
        }),
{
    if bytes.len() >= 8 {
        let head = bytes.subrange(0, 4);
        let magic = crate::control::control_magic().subrange(0, 4);
        assert(head[0] == bytes[0] && head[1] == bytes[1] && head[2] == bytes[2] && head[3]
            == bytes[3]);
        assert(magic[0] == 71 && magic[1] == 83 && magic[2] == 67 && magic[3] == 84);
        if bytes[0] == 71 && bytes[1] == 83 && bytes[2] == 67 && bytes[3] == 84 {
            assert(head =~= magic);
        }
    }
}

/// Whether a byte is a hexadecimal digit that stands for `value`.
pub open spec fn stands_for(byte: u8, value: int) -> bool {
    ||| 48 <= byte <= 57 && value == byte - 48
    ||| 97 <= byte <= 102 && value == byte - 97 + 10
    ||| 65 <= byte <= 70 && value == byte - 65 + 10
}

/// Whether two digits stand for a byte.
pub open spec fn spells_byte(text: Seq<u8>, i: int, byte: u8) -> bool {
    stands_for(text[2 * i], byte as int / 16) && stands_for(text[2 * i + 1], byte as int % 16)
}

/// A text is a token exactly where it is thirty-two hexadecimal digits of either case, and it is
/// the token whose bytes they spell.
pub proof fn law_tokens_are_read(text: Seq<u8>, token: Seq<u8>)
    ensures
        crate::session::hex_token(text) == Some(token) <==> text.len() == 32 && token.len() == 16
            && forall|i: int| 0 <= i < 16 ==> #[trigger] spells_byte(text, i, token[i]),
{
    if crate::session::hex_token(text) == Some(token) {
        assert forall|i: int| 0 <= i < 16 implies #[trigger] spells_byte(text, i, token[i]) by {
            assert(crate::session::nibble(text[2 * i]) is Some);
            assert(crate::session::nibble(text[2 * i + 1]) is Some);
            let high = crate::session::nibble(text[2 * i])->0;
            let low = crate::session::nibble(text[2 * i + 1])->0;
            assert(token[i] == 16 * high + low);
        }
    }
    if text.len() == 32 && token.len() == 16 && forall|i: int|
        0 <= i < 16 ==> #[trigger] spells_byte(text, i, token[i]) {
        assert forall|i: int| 0 <= i < 32 implies crate::session::nibble(
            #[trigger] text[i],
        ) is Some by {
            assert(spells_byte(text, i / 2, token[i / 2]));
            assert(2 * (i / 2) == i || 2 * (i / 2) + 1 == i);
        }
        let read = crate::session::hex_token(text)->0;
        assert forall|i: int| 0 <= i < 16 implies read[i] == token[i] by {
            assert(spells_byte(text, i, token[i]));
        }
        assert(read =~= token);
    }
}

/// A name is fit for a match exactly where it has between one and sixty-four bytes, all of them
/// letters, digits, dashes and underscores; else the first thing that is wrong is named.
pub proof fn law_match_names_are_judged(text: Seq<char>)
    ensures
        ({
            let fault = crate::host::match_id_fault(text);
            let size = vstd::utf8::encode_utf8(text).len();
            let fit = all_plain(text);
            &&& fault is None <==> text.len() > 0 && size <= 64 && fit
            &&& text.len() == 0 ==> fault == Some(MatchIdError::Empty)
            &&& text.len() > 0 && size > 64 ==> fault == Some(
                MatchIdError::TooLong { maximum: 64, actual: size as usize },
            )
            &&& text.len() > 0 && size <= 64 && !fit ==> (fault matches Some(
                MatchIdError::InvalidCharacter(character),
            ) && is_first_odd(text, character))
        }),
{
    if all_plain(text) {
        assert forall|i: int| 0 <= i < text.len() implies crate::host::route_safe(
            #[trigger] text[i],
        ) by {
            assert(plain(text[i]));
        }
    } else {
        lemma_first_odd(text);
        let odd = choose|i: int| 0 <= i < text.len() && !plain(#[trigger] text[i]);
        assert(!crate::host::route_safe(text[odd]));
        let i = choose|i: int| #[trigger] first_odd(text, i, crate::host::first_unsafe(text));
        assert(first_odd(text, i, crate::host::first_unsafe(text)));
        assert(is_first_odd(text, crate::host::first_unsafe(text)));
    }
}

/// Whether a character is a letter, a digit, a dash or an underscore.
pub open spec fn plain(character: char) -> bool {
    ||| 'a' <= character <= 'z'
    ||| 'A' <= character <= 'Z'
    ||| '0' <= character <= '9'
    ||| character == '-'
    ||| character == '_'
}

/// Whether the character at `i` is the first of a text that is not plain.
pub open spec fn first_odd(text: Seq<char>, i: int, character: char) -> bool {
    &&& 0 <= i < text.len()
    &&& text[i] == character
    &&& !plain(character)
    &&& forall|j: int| 0 <= j < i ==> plain(#[trigger] text[j])
}

/// Whether a character is the first of a text that is not plain.
pub open spec fn is_first_odd(text: Seq<char>, character: char) -> bool {
    exists|i: int| #[trigger] first_odd(text, i, character)
}

proof fn lemma_first_odd(text: Seq<char>)
    requires
        exists|i: int| 0 <= i < text.len() && !plain(#[trigger] text[i]),
    ensures
        exists|i: int| #[trigger] first_odd(text, i, crate::host::first_unsafe(text)),
    decreases text.len(),
{
    if !plain(text[0]) {
        assert(first_odd(text, 0, crate::host::first_unsafe(text)));
    } else {
        let rest = text.drop_first();
        let odd = choose|i: int| 0 <= i < text.len() && !plain(#[trigger] text[i]);
        assert(rest[odd - 1] == text[odd]);
        lemma_first_odd(rest);
        let i = choose|i: int| #[trigger] first_odd(rest, i, crate::host::first_unsafe(rest));
        assert forall|j: int| 0 <= j < i + 1 implies plain(#[trigger] text[j]) by {
            if j > 0 {
                assert(rest[j - 1] == text[j]);
            }
        }
        assert(first_odd(text, i + 1, crate::host::first_unsafe(text)));
    }
}

/// The parts of a text hold no separator, and put together again with separators between them they
/// are the text.
pub proof fn law_parts_make_the_text(text: Seq<char>, separator: char)
    ensures
        crate::text::parts(text, separator).len() > 0,
        crate::text::joined(crate::text::parts(text, separator), seq![separator]) == text,
        forall|i: int|
            0 <= i < crate::text::parts(text, separator).len() ==> !(
            #[trigger] crate::text::parts(text, separator)[i]).contains(separator),
    decreases text.len(),
{
    let all = crate::text::parts(text, separator);
    if text.len() == 0 {
        assert(all =~= seq![Seq::<char>::empty()]);
        assert(crate::text::joined(all, seq![separator]) =~= text);
    } else {
        let rest = text.drop_last();
        let earlier = crate::text::parts(rest, separator);
        law_parts_make_the_text(rest, separator);
        if text.last() == separator {
            assert(all.drop_last() =~= earlier);
            assert(crate::text::joined(all, seq![separator]) =~= rest + seq![separator]);
            assert(text =~= rest + seq![separator]);
        } else {
            let before = earlier.drop_last();
            let tail = earlier.last();
            assert(all.drop_last() =~= before);
            assert(all.last() == tail.push(text.last()));
            if earlier.len() == 1 {
                assert(all =~= seq![tail.push(text.last())]);
                assert(crate::text::joined(all, seq![separator]) =~= text);
            } else {
                assert(crate::text::joined(all, seq![separator]) =~= crate::text::joined(
                    before,
                    seq![separator],
                ) + seq![separator] + tail.push(text.last()));
                assert(crate::text::joined(all, seq![separator]) =~= rest.push(text.last()));
                assert(rest.push(text.last()) =~= text);
            }
            assert forall|i: int| 0 <= i < all.len() implies !(#[trigger] all[i]).contains(
                separator,
            ) by {
                if i < before.len() {
                    assert(all[i] == earlier[i]);
                } else {
                    assert(!earlier[earlier.len() - 1].contains(separator));
                    assert(!tail.contains(separator));
                    let last = tail.push(text.last());
                    if last.contains(separator) {
                        let k = choose|k: int| 0 <= k < last.len() && last[k] == separator;
                        if k < tail.len() {
                            assert(tail[k] == separator);
                        }
                    }
                }
            }
        }
    }
}

/// A path asks for a new session in a match exactly where it is the base path, `/matches/` and a
/// fit name; for a returning player's slot where `/reconnect/` and a token follow; and for nothing
/// of this server where it does not begin with the base path and `/matches/`.
pub proof fn law_paths_are_understood(base: Seq<char>, path: Seq<char>)
    ensures
        ({
            let meaning = crate::browser::path_meaning(base, path);
            let prefix = base + "/matches/"@;
            &&& meaning == Ok::<Option<RouteView>, BrowserRouteError>(None) <==> !(prefix.len()
                <= path.len() && path.take(prefix.len() as int) == prefix)
            &&& meaning matches Ok(Some(route)) ==> {
                &&& crate::host::match_id_fault(route.match_id) is None
                &&& route.token is None ==> path == prefix + route.match_id
                &&& route.token is Some ==> exists|digits: Seq<char>|
                    path == prefix + route.match_id + "/reconnect/"@ + digits
                        && #[trigger] crate::session::hex_token(vstd::utf8::encode_utf8(digits))
                        == route.token
            }
        }),
{
    reveal_strlit("/");
    reveal_strlit("matches");
    reveal_strlit("reconnect");
    reveal_strlit("/matches/");
    reveal_strlit("/reconnect/");
    let prefix = base + "/matches/"@;
    let empty: Seq<char> = Seq::empty();
    assert(crate::browser::match_route(base, empty) =~= prefix);
    if crate::text::begins_with(path, prefix) {
        let rest = path.skip(prefix.len() as int);
        let segments = crate::text::parts(rest, '/');
        law_parts_make_the_text(rest, '/');
        assert(path =~= prefix + rest);
        if crate::host::match_id_fault(segments[0]) is None {
            if segments.len() == 1 {
                assert(rest == segments[0]);
            } else if segments.len() == 3 && segments[1] == "reconnect"@ {
                let separator = seq!['/'];
                let pair = segments.drop_last();
                let single = pair.drop_last();
                assert(crate::text::joined(segments, separator) == crate::text::joined(
                    pair,
                    separator,
                ) + separator + segments[2]);
                assert(crate::text::joined(pair, separator) == crate::text::joined(
                    single,
                    separator,
                ) + separator + segments[1]);
                assert(crate::text::joined(single, separator) == segments[0]);
                assert(path =~= prefix + segments[0] + "/reconnect/"@ + segments[2]);
                let token = crate::session::hex_token(vstd::utf8::encode_utf8(segments[2]));
                assert(token == crate::session::hex_token(vstd::utf8::encode_utf8(segments[2])));
            }
        }
    }
}

/// What is wrong with a path below `/matches/`: its name is unfit, or its shape is that of a
/// returning player's path without a token, or it has no shape that is known.
pub proof fn law_path_faults_are_named(base: Seq<char>, path: Seq<char>, rest: Seq<char>)
    requires
        path == base + "/matches/"@ + rest,
    ensures
        ({
            let meaning = crate::browser::path_meaning(base, path);
            let segments = crate::text::parts(rest, '/');
            let fault = crate::host::match_id_fault(segments[0]);
            &&& fault matches Some(error) ==> meaning == Err::<Option<RouteView>, _>(
                BrowserRouteError::InvalidMatchId(error),
            )
            &&& fault is None && segments.len() == 3 && segments[1] == "reconnect"@
                && crate::session::hex_token(vstd::utf8::encode_utf8(segments[2])) is None
                ==> meaning == Err::<Option<RouteView>, _>(
                BrowserRouteError::InvalidReconnectToken,
            )
            &&& fault is None && segments.len() != 1 && !(segments.len() == 3 && segments[1]
                == "reconnect"@) ==> meaning == Err::<Option<RouteView>, _>(
                BrowserRouteError::InvalidRouteShape,
            )
        }),
{
    reveal_strlit("/");
    reveal_strlit("matches");
    reveal_strlit("/matches/");
    let prefix = base + "/matches/"@;
    let empty: Seq<char> = Seq::empty();
    assert(crate::browser::match_route(base, empty) =~= prefix);
    assert(path.take(prefix.len() as int) =~= prefix);
    assert(path.skip(prefix.len() as int) =~= rest);
}

/// A text can be a base path exactly where it is absolute and every segment is plain and not empty.
pub proof fn law_base_paths_are_judged(text: Seq<char>)
    ensures
        crate::browser::canonical_base(text) <==> text.len() >= 2 && text[0] == '/' && forall|
            i: int,
        |
            0 <= i < crate::text::parts(text.skip(1), '/').len() ==> (
            #[trigger] crate::text::parts(text.skip(1), '/')[i]).len() > 0 && all_plain(
                crate::text::parts(text.skip(1), '/')[i],
            ),
{
    let segments = crate::text::parts(text.skip(1), '/');
    if text.len() >= 2 {
        let rest = text.skip(1);
        crate::text::lemma_parts_not_empty(rest, '/');
        crate::text::lemma_parts_not_empty(rest.drop_last(), '/');
        if rest.last() == '/' {
            assert(segments.last() =~= Seq::empty());
            assert(segments[segments.len() - 1].len() == 0);
        }
        assert(rest.last() == text.last());
    }
    assert forall|segment: Seq<char>| #[trigger] crate::browser::canonical_segment(segment)
        <==> segment.len() > 0 && all_plain(segment) by {
        if all_plain(segment) {
            assert forall|i: int| 0 <= i < segment.len() implies crate::host::route_safe(
                #[trigger] segment[i],
            ) by {
                assert(plain(segment[i]));
            }
        }
        if crate::browser::canonical_segment(segment) {
            assert forall|i: int| 0 <= i < segment.len() implies plain(#[trigger] segment[i]) by {
                assert(crate::host::route_safe(segment[i]));
            }
        }
    }
}

/// Whether every character of a text is plain.
pub open spec fn all_plain(text: Seq<char>) -> bool {
    forall|i: int| 0 <= i < text.len() ==> plain(#[trigger] text[i])
}

/// The number that decimal digits spell.
pub open spec fn read_decimal(text: Seq<char>) -> int
    decreases text.len(),
{
    if text.len() == 0 {
        0
    } else {
        read_decimal(text.drop_last()) * 10 + (text.last() as int - '0' as int)
    }
}

/// The decimal spelling of a number is made of digits, has no leading zero, and is read back as the
/// number.
pub proof fn law_decimals_are_read_back(value: nat)
    ensures
        ({
            let text = crate::text::decimal(value);
            &&& text.len() > 0
            &&& read_decimal(text) == value
            &&& forall|i: int| 0 <= i < text.len() ==> '0' <= #[trigger] text[i] <= '9'
            &&& text[0] == '0' ==> value == 0
        }),
    decreases value,
{
    let text = crate::text::decimal(value);
    if value < 10 {
        assert(text.drop_last() =~= Seq::empty());
        assert(read_decimal(text.drop_last()) == 0);
        assert(text[0] as int == 48 + value);
    } else {
        law_decimals_are_read_back(value / 10);
        assert(text.drop_last() =~= crate::text::decimal(value / 10));
        assert(text.last() as int == 48 + value % 10);
        assert(text[0] == crate::text::decimal(value / 10)[0]);
    }
}

/// No text comes before itself, one of two different texts comes before the other, and what comes
/// before a text comes before all that the text comes before.
pub proof fn law_names_are_ordered(a: Seq<char>, b: Seq<char>, c: Seq<char>)
    ensures
        !crate::text::precedes(a, a),
        a == b || crate::text::precedes(a, b) || crate::text::precedes(b, a),
        !(crate::text::precedes(a, b) && crate::text::precedes(b, a)),
        crate::text::precedes(a, b) && crate::text::precedes(b, c) ==> crate::text::precedes(a, c),
{
    crate::text::lemma_precedes_irreflexive(a);
    if crate::text::precedes(a, b) && crate::text::precedes(b, a) {
        crate::text::lemma_precedes_transitive(a, b, a);
    }
    if crate::text::precedes(a, b) && crate::text::precedes(b, c) {
        crate::text::lemma_precedes_transitive(a, b, c);
    }
    assert(a.take(0) =~= b.take(0));
    lemma_one_comes_first(a, b, 0);
}

/// Two texts that agree up to `k` are the same, or one comes before the other.
proof fn lemma_one_comes_first(a: Seq<char>, b: Seq<char>, k: int)
    requires
        0 <= k <= a.len(),
        k <= b.len(),
        a.take(k) == b.take(k),
    ensures
        a == b || crate::text::precedes(a, b) || crate::text::precedes(b, a),
    decreases a.len() - k,
{
    if k == a.len() && k == b.len() {
        assert(a.take(k) =~= a);
        assert(b.take(k) =~= b);
    } else if k == a.len() {
        assert(crate::text::splits_at(a, b, k));
    } else if k == b.len() {
        assert(crate::text::splits_at(b, a, k));
    } else if a[k] < b[k] {
        assert(crate::text::splits_at(a, b, k));
    } else if b[k] < a[k] {
        assert(crate::text::splits_at(b, a, k));
    } else {
        assert(a.take(k + 1) =~= a.take(k).push(a[k]));
        assert(b.take(k + 1) =~= b.take(k).push(b[k]));
        lemma_one_comes_first(a, b, k + 1);
    }
}

/// The words of a text are not empty and hold no white space, and run together they are the text
/// without its white space.
pub proof fn law_words_make_the_text(text: Seq<char>)
    ensures
        forall|i: int|
            0 <= i < crate::text::words(text).len() ==> (
            #[trigger] crate::text::words(text)[i]).len() > 0,
        crate::text::words(text).flatten() == text.filter(
            |character: char| !crate::text::white_space(character),
        ),
{
    let (earlier, current) = crate::text::word_runs(text);
    lemma_words_make_the_text(text);
    if current.len() > 0 {
        lemma_flatten_one_more(earlier, current);
    } else {
        assert(earlier.flatten() + current =~= earlier.flatten());
    }
}

proof fn lemma_flatten_one_more(items: Seq<Seq<char>>, item: Seq<char>)
    ensures
        items.push(item).flatten() == items.flatten() + item,
{
    items.push(item).lemma_flatten_and_flatten_alt_are_equivalent();
    items.lemma_flatten_and_flatten_alt_are_equivalent();
    assert(items.push(item).drop_last() =~= items);
}

proof fn lemma_words_make_the_text(text: Seq<char>)
    ensures
        ({
            let (earlier, current) = crate::text::word_runs(text);
            &&& forall|i: int| 0 <= i < earlier.len() ==> (#[trigger] earlier[i]).len() > 0
            &&& earlier.flatten() + current == text.filter(
                |character: char| !crate::text::white_space(character),
            )
        }),
    decreases text.len(),
{
    reveal(Seq::filter);
    let keep = |character: char| !crate::text::white_space(character);
    if text.len() == 0 {
        let none: Seq<Seq<char>> = Seq::empty();
        none.lemma_flatten_and_flatten_alt_are_equivalent();
        assert(none.flatten() + Seq::<char>::empty() =~= text.filter(keep));
    } else {
        let rest = text.drop_last();
        let (earlier, current) = crate::text::word_runs(rest);
        lemma_words_make_the_text(rest);
        if !crate::text::white_space(text.last()) {
            assert(text.filter(keep) == rest.filter(keep).push(text.last()));
            assert(earlier.flatten() + current.push(text.last()) =~= (earlier.flatten()
                + current).push(text.last()));
        } else if current.len() > 0 {
            lemma_flatten_one_more(earlier, current);
            let nothing: Seq<char> = Seq::empty();
            assert(earlier.push(current).flatten() + nothing =~= earlier.flatten() + current);
        }
    }
}

/// The binary form of a record: its kind, its tick, the length of its body, and the body.
pub proof fn law_record_layout(record: RecordView)
    ensures
        ({
            let body = match record {
                RecordView::PlayerAdmitted { player_id, .. } => crate::wire::be_bytes(
                    player_id as nat,
                    4,
                ),
                RecordView::PlayerRemoved { player_id, .. } => crate::wire::be_bytes(
                    player_id as nat,
                    4,
                ),
                RecordView::CommandApplied { player_id, sequence, payload, .. } =>
                    crate::wire::be_bytes(player_id as nat, 4) + crate::wire::be_bytes(
                    sequence as nat,
                    4,
                ) + crate::wire::be_bytes(payload.len(), 4) + payload,
                RecordView::Checkpoint { snapshot } => crate::wire::be_bytes(
                    snapshot.state_hash as nat,
                    8,
                ) + crate::wire::be_bytes(snapshot.payload.len(), 4) + snapshot.payload,
            };
            let kind = match record {
                RecordView::PlayerAdmitted { .. } => 1u8,
                RecordView::CommandApplied { .. } => 2u8,
                RecordView::PlayerRemoved { .. } => 3u8,
                RecordView::Checkpoint { .. } => 4u8,
            };
            record.bytes() == seq![kind] + crate::wire::be_bytes(record.at() as nat, 8)
                + crate::wire::be_bytes(body.len(), 4) + body
        }),
        crate::history::carries_tick(record, record.at()),
{
}

/// The binary form of a history: a magic and a version, and then each record in its turn.
pub proof fn law_log_layout(records: Seq<RecordView>, record: RecordView)
    ensures
        crate::replay::log_bytes(Seq::empty()) == seq![71u8, 83u8, 82u8, 80u8, 1u8],
        crate::replay::log_bytes(records.push(record)) == crate::replay::log_bytes(records)
            + record.bytes(),
{
    let none: Seq<RecordView> = Seq::empty();
    assert(crate::replay::log_bytes(none) =~= seq![71u8, 83u8, 82u8, 80u8, 1u8]);
    assert(records.push(record).drop_last() =~= records);
    assert(crate::replay::log_bytes(records.push(record)) =~= crate::replay::log_bytes(records)
        + record.bytes());
}

/// What is wrong with the body of a record: the first of kind, length, sequence, announced size and
/// hash that does not fit.
pub proof fn law_record_faults_are_named(kind: u8, tick: u64, body: Seq<u8>)
    ensures
        ({
            let fault = crate::replay::record_fault(kind, tick, body);
            let wrong = |expected: nat|
                Some(
                    ReplayError::InvalidRecordLength {
                        kind,
                        expected: expected as usize,
                        actual: body.len() as usize,
                    },
                );
            let sequence = crate::wire::be_value(body.subrange(4, 8));
            let announced = crate::wire::be_value(body.subrange(8, 12));
            let claimed = crate::wire::be_value(body.subrange(0, 8)) as u64;
            let digest = crate::protocol::snapshot_digest(
                tick,
                body.subrange(12, body.len() as int),
            );
            &&& kind == 0 || kind > 4 ==> fault == Some(ReplayError::UnknownRecordKind(kind))
            &&& (kind == 1 || kind == 3) && body.len() == 4 ==> fault is None
            &&& (kind == 1 || kind == 3) && body.len() != 4 ==> fault == wrong(4)
            &&& (kind == 2 || kind == 4) && body.len() < 12 ==> fault == wrong(12)
            &&& kind == 2 && body.len() >= 12 && sequence == 0 ==> fault == Some(
                ReplayError::InvalidSequence,
            )
            &&& kind == 2 && body.len() >= 12 && sequence > 0 && announced > 1024 ==> fault == Some(
                ReplayError::PayloadTooLarge { maximum: 1024, actual: announced as usize },
            )
            &&& kind == 2 && body.len() >= 12 && sequence > 0 && announced <= 1024 && body.len()
                != 12 + announced ==> fault == wrong(12 + announced)
            &&& kind == 2 && body.len() >= 12 && sequence > 0 && announced <= 1024 && body.len()
                == 12 + announced ==> fault is None
            &&& kind == 4 && body.len() >= 12 && announced > 65535 ==> fault == Some(
                ReplayError::PayloadTooLarge { maximum: 65535, actual: announced as usize },
            )
            &&& kind == 4 && body.len() >= 12 && announced <= 65535 && body.len() != 12 + announced
                ==> fault == wrong(12 + announced)
            &&& kind == 4 && body.len() >= 12 && announced <= 65535 && body.len() == 12 + announced
                && claimed != digest ==> fault == Some(
                ReplayError::InvalidCheckpointHash { tick, expected: digest, actual: claimed },
            )
            &&& kind == 4 && body.len() >= 12 && announced <= 65535 && body.len() == 12 + announced
                && claimed == digest ==> fault is None
        }),
{
    if body.len() >= 12 {
        crate::wire::lemma_pow256();
        crate::wire::lemma_be_value_bound(body.subrange(8, 12));
    }
}

/// What is wrong with the head of a history: the first of length, magic and version that does not
/// fit.
pub proof fn law_log_head_faults_are_named(bytes: Seq<u8>)
    ensures
        ({
            let fault = crate::replay::log_fault(bytes);
            let magic = bytes[0] == 71 && bytes[1] == 83 && bytes[2] == 82 && bytes[3] == 80;
            &&& bytes.len() < 5 ==> fault == Some(ReplayError::Truncated)
            &&& bytes.len() >= 5 && !magic ==> fault == Some(ReplayError::InvalidMagic)
            &&& bytes.len() >= 5 && magic && bytes[4] != 1 ==> fault == Some(
                ReplayError::UnsupportedVersion(bytes[4]),
            )
        }),
{
    if bytes.len() >= 5 {
        let head = bytes.subrange(0, 4);
        let magic = crate::replay::replay_header().subrange(0, 4);
        assert(head[0] == bytes[0] && head[1] == bytes[1] && head[2] == bytes[2] && head[3]
            == bytes[3]);
        assert(magic[0] == 71 && magic[1] == 83 && magic[2] == 82 && magic[3] == 80);
        if bytes[0] == 71 && bytes[1] == 83 && bytes[2] == 82 && bytes[3] == 80 {
            assert(head =~= magic);
        }
    }
}

/// The binary form of an image: a magic and a version, the tick, the grace period, the next
/// identity, the number of slots, the length of the history, each slot in its turn, and the
/// history.
pub proof fn law_image_layout(
    image: ImageView,
    sessions: Seq<RecoverableSession>,
    session: RecoverableSession,
)
    ensures
        image.bytes() == seq![71u8, 83u8, 82u8, 67u8, 1u8] + crate::wire::be_bytes(
            image.current_tick as nat,
            8,
        ) + crate::wire::be_bytes(image.reconnect_grace_ticks as nat, 8) + crate::wire::be_bytes(
            image.next_player_id as nat,
            4,
        ) + crate::wire::be_bytes(image.sessions.len(), 2) + crate::wire::be_bytes(
            crate::replay::log_bytes(image.records).len(),
            4,
        ) + crate::recovery::sessions_bytes(image.sessions) + crate::replay::log_bytes(
            image.records,
        ),
        crate::recovery::sessions_bytes(Seq::empty()) == Seq::<u8>::empty(),
        crate::recovery::sessions_bytes(sessions.push(session))
            == crate::recovery::sessions_bytes(sessions) + crate::wire::be_bytes(
            session.player_id as nat,
            4,
        ) + crate::wire::be_bytes(session.connection_epoch as nat, 4) + crate::wire::be_bytes(
            session.remaining_grace_ticks as nat,
            8,
        ) + session.reconnect_token.0@,
{
    assert(sessions.push(session).drop_last() =~= sessions);
    assert(crate::recovery::sessions_bytes(sessions.push(session))
        =~= crate::recovery::sessions_bytes(sessions) + crate::wire::be_bytes(
        session.player_id as nat,
        4,
    ) + crate::wire::be_bytes(session.connection_epoch as nat, 4) + crate::wire::be_bytes(
        session.remaining_grace_ticks as nat,
        8,
    ) + session.reconnect_token.0@);
    assert(image.header() =~= seq![71u8, 83u8, 82u8, 67u8, 1u8] + crate::wire::be_bytes(
        image.current_tick as nat,
        8,
    ) + crate::wire::be_bytes(image.reconnect_grace_ticks as nat, 8) + crate::wire::be_bytes(
        image.next_player_id as nat,
        4,
    ) + crate::wire::be_bytes(image.sessions.len(), 2) + crate::wire::be_bytes(
        crate::replay::log_bytes(image.records).len(),
        4,
    ));
}

/// What is wrong with the layout of an image: the first of size, magic, version, announced length
/// and history that does not fit.
pub proof fn law_image_layout_faults_are_named(bytes: Seq<u8>)
    ensures
        ({
            let fault = crate::recovery::layout_fault(bytes);
            let magic = bytes[0] == 71 && bytes[1] == 83 && bytes[2] == 82 && bytes[3] == 67;
            let headed = 31 <= bytes.len() <= 256 * 1024 * 1024 && magic && bytes[4] == 1;
            let offset = 31 + 32 * crate::wire::be_value(bytes.subrange(25, 27));
            let announced = offset + crate::wire::be_value(bytes.subrange(27, 31));
            &&& bytes.len() > 256 * 1024 * 1024 ==> fault == Some(
                RecoveryError::ImageTooLarge(bytes.len() as usize),
            )
            &&& bytes.len() < 31 ==> fault == Some(RecoveryError::Truncated)
            &&& 31 <= bytes.len() <= 256 * 1024 * 1024 && !magic ==> fault == Some(
                RecoveryError::InvalidMagic,
            )
            &&& 31 <= bytes.len() <= 256 * 1024 * 1024 && magic && bytes[4] != 1 ==> fault == Some(
                RecoveryError::UnsupportedVersion(bytes[4]),
            )
            &&& headed && announced <= usize::MAX && bytes.len() < announced ==> fault == Some(
                RecoveryError::Truncated,
            )
            &&& headed && bytes.len() > announced ==> fault == Some(
                RecoveryError::TrailingBytes((bytes.len() - announced) as usize),
            )
            &&& headed && bytes.len() == announced ==> fault == match crate::replay::log_fault(
                bytes.subrange(offset as int, announced as int),
            ) {
                Some(error) => Some(RecoveryError::Replay(error)),
                None => None,
            }
        }),
{
    if bytes.len() >= 31 {
        let head = bytes.subrange(0, 4);
        let magic = crate::recovery::recovery_magic().subrange(0, 4);
        assert(head[0] == bytes[0] && head[1] == bytes[1] && head[2] == bytes[2] && head[3]
            == bytes[3]);
        assert(magic[0] == 71 && magic[1] == 83 && magic[2] == 82 && magic[3] == 67);
        if bytes[0] == 71 && bytes[1] == 83 && bytes[2] == 82 && bytes[3] == 67 {
            assert(head =~= magic);
        }
    }
}

/// What is wrong with the head of a frame of an outside game: the first of size, length, version
/// and operation that does not fit.
pub proof fn law_outside_head_faults_are_named(bytes: Seq<u8>, header: usize)
    ensures
        ({
            let fault = crate::external_simulation::head_fault(bytes, header);
            &&& bytes.len() > 65556 ==> fault == Some(
                ExternalSimulationError::PayloadTooLarge {
                    maximum: 65556,
                    actual: bytes.len() as usize,
                },
            )
            &&& bytes.len() <= 65556 && bytes.len() < header ==> fault == Some(
                ExternalSimulationError::IncorrectLength {
                    expected: header,
                    actual: bytes.len() as usize,
                },
            )
            &&& header <= bytes.len() <= 65556 && bytes[0] != 1 ==> fault == Some(
                ExternalSimulationError::UnsupportedVersion(bytes[0]),
            )
            &&& header <= bytes.len() <= 65556 && bytes[0] == 1 && !(1 <= bytes[1] <= 7) ==> fault
                == Some(ExternalSimulationError::UnknownOperation(bytes[1]))
            &&& fault is None <==> header <= bytes.len() <= 65556 && bytes[0] == 1 && 1 <= bytes[1]
                <= 7
        }),
{
}

/// What is wrong with a frame that asks an outside game for something, behind its head.
pub proof fn law_outside_request_faults_are_named(bytes: Seq<u8>)
    requires
        2 <= bytes.len() <= 65556,
        bytes[0] == 1,
        1 <= bytes[1] <= 7,
    ensures
        ({
            let fault = crate::external_simulation::request_fault(bytes);
            let wrong = |expected: nat|
                Some(
                    ExternalSimulationError::IncorrectLength {
                        expected: expected as usize,
                        actual: bytes.len() as usize,
                    },
                );
            let bare = bytes[1] == 1 || bytes[1] == 5 || bytes[1] == 6;
            let named = bytes[1] == 2 || bytes[1] == 3 || bytes[1] == 7;
            let sequence = crate::wire::be_value(bytes.subrange(6, 10));
            let announced = crate::wire::be_value(bytes.subrange(10, 12));
            &&& bare ==> fault == if bytes.len() == 2 {
                None
            } else {
                wrong(2)
            }
            &&& named ==> fault == if bytes.len() == 6 {
                None
            } else {
                wrong(6)
            }
            &&& bytes[1] == 4 && bytes.len() < 12 ==> fault == wrong(12)
            &&& bytes[1] == 4 && bytes.len() >= 12 && sequence == 0 ==> fault == Some(
                ExternalSimulationError::InvalidSequence,
            )
            &&& bytes[1] == 4 && bytes.len() >= 12 && sequence > 0 && announced > 1024 ==> fault
                == Some(
                ExternalSimulationError::PayloadTooLarge {
                    maximum: 1024,
                    actual: announced as usize,
                },
            )
            &&& bytes[1] == 4 && bytes.len() >= 12 && sequence > 0 && announced <= 1024 ==> fault
                == if bytes.len() == 12 + announced {
                None
            } else {
                wrong(12 + announced)
            }
        }),
{
}

/// What is wrong with a frame that answers for an outside game, behind its head.
pub proof fn law_outside_answer_faults_are_named(bytes: Seq<u8>)
    requires
        3 <= bytes.len() <= 65556,
        bytes[0] == 1,
        1 <= bytes[1] <= 7,
    ensures
        ({
            let fault = crate::external_simulation::response_fault(bytes);
            let wrong = |expected: nat|
                Some(
                    ExternalSimulationError::IncorrectLength {
                        expected: expected as usize,
                        actual: bytes.len() as usize,
                    },
                );
            let words = bytes.subrange(3, bytes.len() as int);
            let shows = bytes[2] == 0 && (bytes[1] == 6 || bytes[1] == 7);
            let announced = crate::wire::be_value(bytes.subrange(19, 21));
            let tick = crate::wire::be_value(bytes.subrange(3, 11)) as u64;
            let claimed = crate::wire::be_value(bytes.subrange(11, 19)) as u64;
            let digest = crate::protocol::snapshot_digest(
                tick,
                bytes.subrange(21, bytes.len() as int),
            );
            &&& bytes[2] > 1 ==> fault == Some(ExternalSimulationError::UnexpectedStatus(bytes[2]))
            &&& bytes[2] == 1 && words.len() > 1024 ==> fault == Some(
                ExternalSimulationError::PayloadTooLarge {
                    maximum: 1024,
                    actual: words.len() as usize,
                },
            )
            &&& bytes[2] == 1 && words.len() <= 1024 ==> fault == if vstd::utf8::valid_utf8(words) {
                None
            } else {
                Some(ExternalSimulationError::InvalidUtf8)
            }
            &&& bytes[2] == 0 && (bytes[1] == 2 || bytes[1] == 4) ==> fault == if bytes.len() == 3 {
                None
            } else {
                wrong(3)
            }
            &&& bytes[2] == 0 && bytes[1] == 5 ==> fault == if bytes.len() == 11 {
                None
            } else {
                wrong(11)
            }
            &&& bytes[2] == 0 && bytes[1] == 3 && bytes.len() != 4 ==> fault == wrong(4)
            &&& bytes[2] == 0 && bytes[1] == 3 && bytes.len() == 4 ==> fault == if bytes[3] <= 1 {
                None
            } else {
                Some(ExternalSimulationError::InvalidBoolean(bytes[3]))
            }
            &&& bytes[2] == 0 && bytes[1] == 1 && bytes.len() != 16 ==> fault == wrong(16)
            &&& bytes[2] == 0 && bytes[1] == 1 && bytes.len() == 16 && bytes[15] > 1 ==> fault
                == Some(ExternalSimulationError::InvalidSnapshotScope(bytes[15]))
            &&& bytes[2] == 0 && bytes[1] == 1 && bytes.len() == 16 && bytes[15] <= 1 ==> (
            fault is None <==> crate::wire::be_value(bytes.subrange(3, 5)) > 0
                && crate::wire::be_value(bytes.subrange(5, 7)) > 0)
            &&& shows && bytes.len() < 21 ==> fault == wrong(21)
            &&& shows && bytes.len() >= 21 && bytes.len() != 21 + announced ==> fault == wrong(
                21 + announced,
            )
            &&& shows && bytes.len() >= 21 && bytes.len() == 21 + announced ==> fault
                == if claimed == digest {
                None
            } else {
                Some(
                    ExternalSimulationError::InvalidStateHash {
                        expected: digest,
                        actual: claimed,
                    },
                )
            }
        }),
{
}

/// The lines of a text: behind a text that has ended its last line, characters that end no line are
/// one more line, and so are characters with a line feed behind them, but for a carriage return
/// before it.
pub proof fn law_lines_are_read(text: Seq<char>, piece: Seq<char>)
    requires
        text.len() == 0 || text.last() == '\n',
        !piece.contains('\n'),
    ensures
        crate::text::lines(Seq::empty()) == Seq::<Seq<char>>::empty(),
        piece.len() > 0 ==> crate::text::lines(text + piece) == crate::text::lines(text).push(
            piece,
        ),
        crate::text::lines((text + piece).push('\n')) == crate::text::lines(text).push(
            if piece.len() > 0 && piece.last() == '\r' {
                piece.drop_last()
            } else {
                piece
            },
        ),
{
    let nothing: Seq<char> = Seq::empty();
    let line = |line: Seq<char>| crate::text::without_return(line);
    assert(crate::text::parts(nothing, '\n') =~= seq![nothing]);
    assert(crate::text::lines(nothing) =~= Seq::<Seq<char>>::empty());
    let pieces = crate::text::parts(text, '\n');
    crate::text::lemma_parts_not_empty(text, '\n');
    if text.len() > 0 {
        crate::text::lemma_parts_separate(text.drop_last(), '\n');
        assert(text.drop_last().push('\n') =~= text);
    }
    assert(pieces.last() =~= nothing);
    assert forall|i: int| 0 <= i < piece.len() implies #[trigger] piece[i] != '\n' by {
        if piece[i] == '\n' {
            assert(piece.contains('\n'));
        }
    }
    crate::text::lemma_parts_lengthen(text, piece, '\n');
    assert(pieces.last() + piece =~= piece);
    let longer = crate::text::parts(text + piece, '\n');
    assert(longer == pieces.drop_last().push(piece));
    assert(longer.drop_last() =~= pieces.drop_last());
    crate::text::lemma_parts_separate(text + piece, '\n');
    let ended = crate::text::parts((text + piece).push('\n'), '\n');
    assert(ended.drop_last() =~= longer);
    assert(longer.map_values(line) =~= pieces.drop_last().map_values(line).push(
        crate::text::without_return(piece),
    ));
}

/// The words of a text: white space behind it changes nothing, and a run of other characters behind
/// white space is one more word.
pub proof fn law_words_are_read(text: Seq<char>, space: char, piece: Seq<char>)
    requires
        crate::text::white_space(space),
        piece.len() > 0,
        forall|i: int|
            0 <= i < piece.len() ==> !crate::text::white_space(#[trigger] piece[i]),
    ensures
        crate::text::words(Seq::empty()) == Seq::<Seq<char>>::empty(),
        crate::text::words(text.push(space)) == crate::text::words(text),
        crate::text::words(text.push(space) + piece) == crate::text::words(text).push(piece),
        crate::text::words(piece) == seq![piece],
{
    let nothing: Seq<char> = Seq::empty();
    assert(text.push(space).drop_last() =~= text);
    lemma_run_lengthens(text.push(space), piece);
    lemma_run_lengthens(nothing, piece);
    assert(nothing + piece =~= piece);
    let (earlier, current) = crate::text::word_runs(text.push(space));
    assert(current =~= nothing);
    assert(crate::text::words(piece) =~= seq![piece]);
}

proof fn lemma_run_lengthens(text: Seq<char>, piece: Seq<char>)
    requires
        forall|i: int|
            0 <= i < piece.len() ==> !crate::text::white_space(#[trigger] piece[i]),
    ensures
        crate::text::word_runs(text + piece).0 == crate::text::word_runs(text).0,
        crate::text::word_runs(text + piece).1 == crate::text::word_runs(text).1 + piece,
    decreases piece.len(),
{
    if piece.len() == 0 {
        assert(text + piece =~= text);
        assert(crate::text::word_runs(text).1 + piece =~= crate::text::word_runs(text).1);
    } else {
        lemma_run_lengthens(text, piece.drop_last());
        assert((text + piece).drop_last() =~= text + piece.drop_last());
        assert((text + piece).last() == piece[piece.len() - 1]);
        let current = crate::text::word_runs(text).1;
        assert((current + piece.drop_last()).push(piece.last()) =~= current + piece);
    }
}

/// The number that hexadecimal digits spell.
pub open spec fn read_hex(text: Seq<char>) -> int
    decreases text.len(),
{
    if text.len() == 0 {
        0
    } else {
        let last = text.last() as int;
        read_hex(text.drop_last()) * 16 + if '0' as int <= last <= '9' as int {
            last - '0' as int
        } else {
            last - 'a' as int + 10
        }
    }
}

/// The hexadecimal spelling of a number in sixteen digits is made of lower-case digits and is read
/// back as the number.
pub proof fn law_hex_is_read_back(value: u64)
    ensures
        crate::text::hex(value as nat, 16).len() == 16,
        read_hex(crate::text::hex(value as nat, 16)) == value,
        forall|i: int|
            0 <= i < 16 ==> ('0' <= #[trigger] crate::text::hex(value as nat, 16)[i] <= '9' || 'a'
                <= crate::text::hex(value as nat, 16)[i] <= 'f'),
{
    assert(sixteen_to(16) == 0x1_0000_0000_0000_0000) by {
        reveal_with_fuel(sixteen_to, 17);
    }
    lemma_hex_is_read_back(value as nat, 16);
}

/// A power of sixteen.
spec fn sixteen_to(width: nat) -> nat
    decreases width,
{
    if width == 0 {
        1
    } else {
        16 * sixteen_to((width - 1) as nat)
    }
}

proof fn lemma_hex_is_read_back(value: nat, width: nat)
    requires
        value < sixteen_to(width),
    ensures
        ({
            let text = crate::text::hex(value, width);
            &&& text.len() == width
            &&& read_hex(text) == value
            &&& forall|i: int|
                0 <= i < text.len() ==> ('0' <= #[trigger] text[i] <= '9' || 'a' <= text[i] <= 'f')
        }),
    decreases width,
{
    if width > 0 {
        let text = crate::text::hex(value, width);
        lemma_hex_is_read_back(value / 16, (width - 1) as nat);
        assert(text.drop_last() =~= crate::text::hex(value / 16, (width - 1) as nat));
        let digit = value % 16;
        assert(crate::text::hex_digit(digit) as int == if digit < 10 {
            48 + digit
        } else {
            87 + digit
        });
    }
}

/// What is wrong with a history behind records that are sound: a piece of a record, a body that is
/// too long or cut off, a step back in time, or a fault of the record's own.
pub proof fn law_log_faults_are_located(records: Seq<RecordView>, tail: Seq<u8>)
    requires
        crate::replay::records_refusal(records) is None,
        crate::replay::in_tick_order(records),
        tail.len() > 0,
    ensures
        ({
            let fault = crate::replay::log_fault(crate::replay::log_bytes(records) + tail);
            let tick = crate::wire::be_value(tail.subrange(1, 9)) as u64;
            let size = crate::wire::be_value(tail.subrange(9, 13));
            let whole = tail.len() >= 13 && size <= 65547 && tail.len() >= 13 + size;
            let back = records.len() > 0 && tick < records[records.len() - 1].at();
            let own = crate::replay::record_fault(tail[0], tick, tail.subrange(13, 13 + size as int));
            &&& tail.len() < 13 ==> fault == Some(ReplayError::Truncated)
            &&& tail.len() >= 13 && size > 65547 ==> fault == Some(
                ReplayError::RecordTooLarge(size as usize),
            )
            &&& tail.len() >= 13 && size <= 65547 && tail.len() < 13 + size ==> fault == Some(
                ReplayError::Truncated,
            )
            &&& whole && back ==> fault == Some(
                ReplayError::NonMonotonicTick {
                    previous: records[records.len() - 1].at(),
                    actual: tick,
                },
            )
            &&& whole && !back && own is Some ==> fault == own
        }),
{
    let log = crate::replay::log_bytes(records);
    let bytes = log + tail;
    let none: Seq<RecordView> = Seq::empty();
    assert(records.take(0) =~= none);
    assert(crate::replay::log_bytes(none) =~= crate::replay::replay_header());
    assert(log.len() >= 5);
    assert(bytes.subrange(0, 4) =~= crate::replay::replay_header().subrange(0, 4));
    assert(bytes[4] == crate::replay::replay_header()[4]);
    lemma_sound_records_are_passed(records, tail, 0);
    let offset = log.len() as int;
    assert(bytes[offset] == tail[0]);
    if tail.len() >= 13 {
        assert(bytes.subrange(offset + 1, offset + 9) =~= tail.subrange(1, 9));
        assert(bytes.subrange(offset + 9, offset + 13) =~= tail.subrange(9, 13));
        let size = crate::wire::be_value(tail.subrange(9, 13));
        if tail.len() >= 13 + size {
            assert(bytes.subrange(offset + 13, offset + 13 + size) =~= tail.subrange(
                13,
                13 + size as int,
            ));
        }
    }
}

/// The tick of the record before `index`.
spec fn tick_before(records: Seq<RecordView>, index: int) -> Option<u64> {
    if index == 0 {
        None
    } else {
        Some(records[index - 1].at())
    }
}

proof fn lemma_sound_records_are_passed(records: Seq<RecordView>, tail: Seq<u8>, index: int)
    requires
        crate::replay::records_refusal(records) is None,
        crate::replay::in_tick_order(records),
        0 <= index <= records.len(),
    ensures
        crate::replay::records_fault(
            crate::replay::log_bytes(records) + tail,
            crate::replay::log_bytes(records.take(index)).len() as int,
            tick_before(records, index),
        ) == crate::replay::records_fault(
            crate::replay::log_bytes(records) + tail,
            crate::replay::log_bytes(records).len() as int,
            tick_before(records, records.len() as int),
        ),
    decreases records.len() - index,
{
    let log = crate::replay::log_bytes(records);
    let bytes = log + tail;
    if index == records.len() {
        assert(records.take(index) =~= records);
    } else {
        let record = records[index];
        let offset = crate::replay::log_bytes(records.take(index)).len() as int;
        crate::replay::lemma_no_refusal_at(records, index);
        crate::replay::lemma_record_position(records, index);
        crate::replay::lemma_record_fields(record);
        lemma_sound_records_are_passed(records, tail, index + 1);
        let end = crate::replay::log_bytes(records.take(index + 1)).len() as int;
        let run = bytes.subrange(offset, end);
        assert(run =~= log.subrange(offset, end));
        assert(run == record.bytes());
        assert(bytes[offset] == run[0]);
        assert(bytes.subrange(offset + 1, offset + 9) =~= run.subrange(1, 9));
        assert(bytes.subrange(offset + 9, offset + 13) =~= run.subrange(9, 13));
        assert(bytes.subrange(offset + 13, end) =~= run.subrange(13, run.len() as int));
        if index > 0 {
            assert(records[index - 1].at() <= records[index].at());
        }
    }
}

/// Which characters are white space: of the first hundred and twenty-eight the blank and the five
/// that move the cursor, and of the rest nineteen.
pub proof fn law_white_space(character: char)
    ensures
        (character as int) < 128 ==> (crate::text::white_space(character) <==> character as int == 32
            || 9 <= character as int <= 13),
        character as int >= 128 ==> (crate::text::white_space(character) <==> character as int
            == 0x85 || character as int == 0xa0 || character as int == 0x1680 || 0x2000
            <= character as int <= 0x200a || character as int == 0x2028 || character as int
            == 0x2029 || character as int == 0x202f || character as int == 0x205f
            || character as int == 0x3000),
{
}

} // verus!
