//! Player slots, reconnect tokens and connection epochs.

use crate::ordered::ascending_keys;
use crate::protocol::{PlayerId, RECONNECT_TOKEN_BYTES};
use crate::text::{push_decimal, push_hex_digit};
use crate::wire::same_bytes;
use std::collections::BTreeMap;
use vstd::prelude::*;
use vstd::string::*;

verus! {

/// Thirty seconds at twenty ticks per second.
pub const DEFAULT_RECONNECT_GRACE_TICKS: u64 = 600;

/// The slots of a registry that is not told otherwise.
pub const DEFAULT_MAX_PLAYERS: usize = 16;

#[derive(Clone, Copy, Debug, Eq, Ord, PartialEq, PartialOrd)]
pub struct ReconnectToken(pub [u8; RECONNECT_TOKEN_BYTES]);

/// The number that a hexadecimal digit of either case stands for.
pub open spec fn nibble(character: u8) -> Option<nat> {
    if 48 <= character <= 57 {
        Some((character - 48) as nat)
    } else if 97 <= character <= 102 {
        Some((character - 87) as nat)
    } else if 65 <= character <= 70 {
        Some((character - 55) as nat)
    } else {
        None
    }
}

/// The lower-case hexadecimal spelling of bytes, two digits each.
pub open spec fn hex_text(bytes: Seq<u8>) -> Seq<char> {
    Seq::new(
        2 * bytes.len(),
        |i: int|
            if i % 2 == 0 {
                crate::text::hex_digit(bytes[i / 2] as nat / 16)
            } else {
                crate::text::hex_digit(bytes[i / 2] as nat % 16)
            },
    )
}

/// The token bytes that a hexadecimal spelling, given as UTF-8, stands for.
pub open spec fn hex_token(text: Seq<u8>) -> Option<Seq<u8>> {
    if text.len() == 2 * RECONNECT_TOKEN_BYTES && forall|i: int|
        0 <= i < text.len() ==> nibble(#[trigger] text[i]) is Some {
        Some(
            Seq::new(
                RECONNECT_TOKEN_BYTES as nat,
                |i: int| (16 * nibble(text[2 * i])->0 + nibble(text[2 * i + 1])->0) as u8,
            ),
        )
    } else {
        None
    }
}

fn decode_hex_nibble(value: u8) -> (result: Option<u8>)
    ensures
        match result {
            Some(number) => nibble(value) == Some(number as nat) && number < 16,
            None => nibble(value) is None,
        },
{
    if 48 <= value && value <= 57 {
        Some(value - 48)
    } else if 97 <= value && value <= 102 {
        Some(value - 87)
    } else if 65 <= value && value <= 70 {
        Some(value - 55)
    } else {
        None
    }
}

impl ReconnectToken {
    pub fn encode_hex(self) -> (text: String)
        ensures
            text@ == hex_text(self.0@),
    {
        let mut output = String::new();
        let mut i: usize = 0;
        while i < RECONNECT_TOKEN_BYTES
            invariant
                i <= RECONNECT_TOKEN_BYTES,
                output@ == hex_text(self.0@.take(i as int)),
            decreases RECONNECT_TOKEN_BYTES - i,
        {
            let byte: u8 = self.0[i];
            push_hex_digit(&mut output, byte / 16);
            push_hex_digit(&mut output, byte % 16);
            i = i + 1;
            assert(output@ =~= hex_text(self.0@.take(i as int)));
        }
        assert(self.0@.take(i as int) =~= self.0@);
        output
    }

    pub fn decode_hex(value: &str) -> (result: Option<Self>)
        ensures
            match result {
                Some(token) => hex_token(value.spec_bytes()) == Some(token.0@),
                None => hex_token(value.spec_bytes()) is None,
            },
    {
        let bytes = value.as_bytes();
        if bytes.len() != RECONNECT_TOKEN_BYTES * 2 {
            return None;
        }
        let mut token: [u8; RECONNECT_TOKEN_BYTES] = [0u8; RECONNECT_TOKEN_BYTES];
        let mut i: usize = 0;
        while i < RECONNECT_TOKEN_BYTES
            invariant
                i <= RECONNECT_TOKEN_BYTES,
                bytes@ == value.spec_bytes(),
                bytes@.len() == 2 * RECONNECT_TOKEN_BYTES,
                forall|j: int| 0 <= j < 2 * i ==> nibble(#[trigger] bytes@[j]) is Some,
                forall|j: int|
                    0 <= j < i ==> #[trigger] token@[j] == (16 * nibble(bytes@[2 * j])->0 + nibble(
                        bytes@[2 * j + 1],
                    )->0) as u8,
            decreases RECONNECT_TOKEN_BYTES - i,
        {
            let high: u8 = match decode_hex_nibble(bytes[2 * i]) {
                Some(number) => number,
                None => {
                    return None;
                },
            };
            let low: u8 = match decode_hex_nibble(bytes[2 * i + 1]) {
                Some(number) => number,
                None => {
                    return None;
                },
            };
            token[i] = high * 16 + low;
            i = i + 1;
        }
        assert(hex_token(value.spec_bytes())->0 =~= token@);
        Some(ReconnectToken(token))
    }

    /// Whether two tokens are the same.
    pub fn same_as(&self, other: &Self) -> (same: bool)
        ensures
            same == (*self == *other),
    {
        let same = same_bytes(self.0.as_slice(), other.0.as_slice());
        proof {
            if same {
                assert(self.0 =~= other.0);
            }
        }
        same
    }
}

/// Spelling a token and reading the spelling gives the token.
pub proof fn law_token_hex_round_trip(token: ReconnectToken)
    ensures
        hex_token(vstd::utf8::encode_utf8(hex_text(token.0@))) == Some(token.0@),
{
    let text = hex_text(token.0@);
    assert(vstd::utf8::is_ascii_chars(text));
    vstd::utf8::is_ascii_chars_encode_utf8(text);
    let bytes = vstd::utf8::encode_utf8(text);
    assert forall|i: int| 0 <= i < bytes.len() implies nibble(#[trigger] bytes[i]) == Some(
        if i % 2 == 0 {
            token.0@[i / 2] as nat / 16
        } else {
            token.0@[i / 2] as nat % 16
        },
    ) by {
        assert(text[i] as u8 == bytes[i]);
    }
    assert(hex_token(bytes)->0 =~= token.0@);
}

#[derive(Clone, Copy, Debug, Eq, PartialEq)]
pub struct SessionLease {
    pub player_id: PlayerId,
    pub connection_epoch: u32,
    pub reconnect_token: ReconnectToken,
    pub reconnect_grace_ticks: u64,
}

#[derive(Clone, Copy, Debug, Eq, PartialEq, Structural)]
pub enum SessionError {
    PlayerCapacity,
    TokenCollision,
    UnknownToken,
    AlreadyConnected,
    ReconnectExpired,
    ConnectionEpochExhausted,
}

impl SessionError {
    /// The sentence that describes the error.
    pub open spec fn message(self) -> Seq<char> {
        match self {
            SessionError::PlayerCapacity => "match has reached player capacity"@,
            SessionError::TokenCollision => "reconnect token collision"@,
            SessionError::UnknownToken => "unknown reconnect token"@,
            SessionError::AlreadyConnected => "player slot already has an active connection"@,
            SessionError::ReconnectExpired => "reconnect grace period has expired"@,
            SessionError::ConnectionEpochExhausted => "connection epoch exhausted"@,
        }
    }

    pub fn to_string(&self) -> (text: String)
        ensures
            text@ == self.message(),
    {
        match self {
            SessionError::PlayerCapacity => "match has reached player capacity".to_owned(),
            SessionError::TokenCollision => "reconnect token collision".to_owned(),
            SessionError::UnknownToken => "unknown reconnect token".to_owned(),
            SessionError::AlreadyConnected =>
                "player slot already has an active connection".to_owned(),
            SessionError::ReconnectExpired => "reconnect grace period has expired".to_owned(),
            SessionError::ConnectionEpochExhausted => "connection epoch exhausted".to_owned(),
        }
    }
}

/// One slot: the token that reclaims it, the epoch of its latest connection, and until when a
/// disconnected slot is kept.
#[derive(Clone, Copy, Debug, Eq, PartialEq)]
pub struct PlayerSession {
    pub token: ReconnectToken,
    pub connection_epoch: u32,
    pub connected: bool,
    pub expires_at_tick: u64,
}

/// One slot as it is saved for a restart.
#[derive(Clone, Copy, Debug, Eq, PartialEq)]
pub struct RecoverableSession {
    pub player_id: PlayerId,
    pub reconnect_token: ReconnectToken,
    pub connection_epoch: u32,
    pub remaining_grace_ticks: u64,
}

/// Every slot of a registry as it is saved for a restart.
#[derive(Debug, Eq, PartialEq)]
pub struct SessionRecoverySnapshot {
    pub next_player_id: PlayerId,
    pub sessions: Vec<RecoverableSession>,
}

impl Clone for SessionRecoverySnapshot {
    fn clone(&self) -> (copy: Self)
        ensures
            copy.next_player_id == self.next_player_id,
            copy.sessions@ == self.sessions@,
    {
        let sessions = self.sessions.clone();
        assert(sessions@ =~= self.sessions@);
        SessionRecoverySnapshot { next_player_id: self.next_player_id, sessions }
    }
}

/// Why saved slots cannot be restored.
#[derive(Clone, Copy, Debug, Eq, PartialEq, Structural)]
pub enum SessionRecoveryError {
    InvalidNextPlayerId,
    TooManySessions { maximum: usize, actual: usize },
    InvalidPlayerId(PlayerId),
    InvalidConnectionEpoch(PlayerId),
    GraceTooLong { maximum: u64, actual: u64 },
    DuplicatePlayer(PlayerId),
    DuplicateToken(PlayerId),
}

impl SessionRecoveryError {
    /// The sentence that describes the error.
    pub open spec fn message(self) -> Seq<char> {
        match self {
            SessionRecoveryError::InvalidNextPlayerId => "next player id must be non-zero"@,
            SessionRecoveryError::TooManySessions { maximum, actual } => "session count "@
                + crate::text::decimal(actual as nat) + " exceeds player capacity "@
                + crate::text::decimal(maximum as nat),
            SessionRecoveryError::InvalidPlayerId(player_id) => "invalid recovered player id "@
                + crate::text::decimal(player_id as nat),
            SessionRecoveryError::InvalidConnectionEpoch(player_id) =>
                "invalid connection epoch for player "@ + crate::text::decimal(player_id as nat),
            SessionRecoveryError::GraceTooLong { maximum, actual } => "remaining grace "@
                + crate::text::decimal(actual as nat) + " exceeds reconnect grace "@
                + crate::text::decimal(maximum as nat),
            SessionRecoveryError::DuplicatePlayer(player_id) => "duplicate recovered player "@
                + crate::text::decimal(player_id as nat),
            SessionRecoveryError::DuplicateToken(player_id) =>
                "duplicate reconnect token for player "@ + crate::text::decimal(player_id as nat),
        }
    }

    pub fn to_string(&self) -> (text: String)
        ensures
            text@ == self.message(),
    {
        match self {
            SessionRecoveryError::InvalidNextPlayerId =>
                "next player id must be non-zero".to_owned(),
            SessionRecoveryError::TooManySessions { maximum, actual } => {
                let mut text = "session count ".to_owned();
                push_decimal(&mut text, *actual as u64);
                text.push_str(" exceeds player capacity ");
                push_decimal(&mut text, *maximum as u64);
                text
            },
            SessionRecoveryError::InvalidPlayerId(player_id) => {
                let mut text = "invalid recovered player id ".to_owned();
                push_decimal(&mut text, *player_id as u64);
                text
            },
            SessionRecoveryError::InvalidConnectionEpoch(player_id) => {
                let mut text = "invalid connection epoch for player ".to_owned();
                push_decimal(&mut text, *player_id as u64);
                text
            },
            SessionRecoveryError::GraceTooLong { maximum, actual } => {
                let mut text = "remaining grace ".to_owned();
                push_decimal(&mut text, *actual);
                text.push_str(" exceeds reconnect grace ");
                push_decimal(&mut text, *maximum);
                text
            },
            SessionRecoveryError::DuplicatePlayer(player_id) => {
                let mut text = "duplicate recovered player ".to_owned();
                push_decimal(&mut text, *player_id as u64);
                text
            },
            SessionRecoveryError::DuplicateToken(player_id) => {
                let mut text = "duplicate reconnect token for player ".to_owned();
                push_decimal(&mut text, *player_id as u64);
                text
            },
        }
    }
}

/// What a registry knows: its limits, the next identity to hand out, and the slots in use.
#[verifier::ext_equal]
pub struct RegistryView {
    pub max_players: usize,
    pub reconnect_grace_ticks: u64,
    pub next_player_id: PlayerId,
    pub players: Map<PlayerId, PlayerSession>,
}

impl RegistryView {
    /// Identities in use were handed out before, no token reclaims two slots, connected slots never
    /// lapse, and the slots in use respect the limit.
    pub open spec fn valid(self) -> bool {
        &&& self.next_player_id >= 1
        &&& self.players.dom().finite()
        &&& self.players.dom().len() <= self.max_players
        &&& forall|id: PlayerId| #[trigger]
            self.players.contains_key(id) ==> {
                &&& 1 <= id < self.next_player_id
                &&& self.players[id].connection_epoch >= 1
                &&& self.players[id].connected ==> self.players[id].expires_at_tick == u64::MAX
            }
        &&& forall|a: PlayerId, b: PlayerId|
            #![trigger self.players[a], self.players[b]]
            self.players.contains_key(a) && self.players.contains_key(b) && self.players[a].token
                == self.players[b].token ==> a == b
    }

    /// Whether some slot is reclaimed by `token`.
    pub open spec fn holds(self, token: ReconnectToken) -> bool {
        exists|id: PlayerId| #[trigger]
            self.players.contains_key(id) && self.players[id].token == token
    }

    /// The slot that `token` reclaims.
    pub open spec fn owner(self, token: ReconnectToken) -> PlayerId {
        choose|id: PlayerId| #[trigger]
            self.players.contains_key(id) && self.players[id].token == token
    }

    /// The lease of the connection that a slot last accepted.
    pub open spec fn lease(self, player_id: PlayerId) -> SessionLease {
        SessionLease {
            player_id,
            connection_epoch: self.players[player_id].connection_epoch,
            reconnect_token: self.players[player_id].token,
            reconnect_grace_ticks: self.reconnect_grace_ticks,
        }
    }

    /// Whether the connection of that epoch is the slot's present one.
    pub open spec fn owns(self, player_id: PlayerId, connection_epoch: u32) -> bool {
        &&& self.players.contains_key(player_id)
        &&& self.players[player_id].connected
        &&& self.players[player_id].connection_epoch == connection_epoch
    }

    pub open spec fn admit_refusal(self, token: ReconnectToken) -> Option<SessionError> {
        if self.players.dom().len() >= self.max_players {
            Some(SessionError::PlayerCapacity)
        } else if self.holds(token) {
            Some(SessionError::TokenCollision)
        } else if self.next_player_id == u32::MAX {
            Some(SessionError::PlayerCapacity)
        } else {
            None
        }
    }

    /// The registry after the next identity has been given to a new connection.
    pub open spec fn admitted(self, token: ReconnectToken) -> RegistryView {
        RegistryView {
            next_player_id: (self.next_player_id + 1) as PlayerId,
            players: self.players.insert(
                self.next_player_id,
                PlayerSession {
                    token,
                    connection_epoch: 1,
                    connected: true,
                    expires_at_tick: u64::MAX,
                },
            ),
            ..self
        }
    }

    pub open spec fn reconnect_refusal(
        self,
        previous: ReconnectToken,
        replacement: ReconnectToken,
        current_tick: u64,
    ) -> Option<SessionError> {
        let session = self.players[self.owner(previous)];
        if previous == replacement || self.holds(replacement) {
            Some(SessionError::TokenCollision)
        } else if !self.holds(previous) {
            Some(SessionError::UnknownToken)
        } else if session.connected {
            Some(SessionError::AlreadyConnected)
        } else if current_tick > session.expires_at_tick {
            Some(SessionError::ReconnectExpired)
        } else if session.connection_epoch == u32::MAX {
            Some(SessionError::ConnectionEpochExhausted)
        } else {
            None
        }
    }

    /// The registry after a slot has been reclaimed: a new epoch under a new token.
    pub open spec fn reconnected(
        self,
        previous: ReconnectToken,
        replacement: ReconnectToken,
    ) -> RegistryView {
        let player_id = self.owner(previous);
        RegistryView {
            players: self.players.insert(
                player_id,
                PlayerSession {
                    token: replacement,
                    connection_epoch: (self.players[player_id].connection_epoch + 1) as u32,
                    connected: true,
                    expires_at_tick: u64::MAX,
                },
            ),
            ..self
        }
    }

    /// The registry after a slot has lost its connection and its grace period has begun.
    pub open spec fn disconnected(self, player_id: PlayerId, current_tick: u64) -> RegistryView {
        RegistryView {
            players: self.players.insert(
                player_id,
                PlayerSession {
                    connected: false,
                    expires_at_tick: current_tick.saturating_add(self.reconnect_grace_ticks),
                    ..self.players[player_id]
                },
            ),
            ..self
        }
    }

    /// The registry without a slot.
    pub open spec fn without(self, player_id: PlayerId) -> RegistryView {
        RegistryView { players: self.players.remove(player_id), ..self }
    }

    /// Whether a slot's grace period has passed.
    pub open spec fn lapsed(self, player_id: PlayerId, current_tick: u64) -> bool {
        &&& self.players.contains_key(player_id)
        &&& !self.players[player_id].connected
        &&& current_tick > self.players[player_id].expires_at_tick
    }

    /// The slots whose grace period has passed.
    pub open spec fn lapsed_ids(self, current_tick: u64) -> Set<PlayerId> {
        self.players.dom().filter(|id: PlayerId| self.lapsed(id, current_tick))
    }

    /// The slots that have a connection.
    pub open spec fn active_ids(self) -> Set<PlayerId> {
        self.players.dom().filter(|id: PlayerId| self.players[id].connected)
    }

    /// How a slot is saved for a restart: a connected one keeps its whole grace period.
    pub open spec fn recoverable(
        self,
        player_id: PlayerId,
        current_tick: u64,
    ) -> RecoverableSession {
        let session = self.players[player_id];
        RecoverableSession {
            player_id,
            reconnect_token: session.token,
            connection_epoch: session.connection_epoch,
            remaining_grace_ticks: if session.connected {
                self.reconnect_grace_ticks
            } else {
                session.expires_at_tick.saturating_sub(current_tick)
            },
        }
    }

    /// Whether `sessions` saves every slot of the registry, in ascending order of identity.
    pub open spec fn saved_as(self, sessions: Seq<RecoverableSession>, current_tick: u64) -> bool {
        &&& crate::ordered::ascending(player_ids(sessions), self.players.dom())
        &&& forall|i: int|
            0 <= i < sessions.len() ==> #[trigger] sessions[i] == self.recoverable(
                sessions[i].player_id,
                current_tick,
            )
    }
}

/// The identities of saved slots.
pub open spec fn player_ids(sessions: Seq<RecoverableSession>) -> Seq<PlayerId> {
    sessions.map_values(|session: RecoverableSession| session.player_id)
}

/// What is wrong with the saved slot at `index`, given those before it.
pub open spec fn saved_session_fault(
    next_player_id: PlayerId,
    reconnect_grace_ticks: u64,
    sessions: Seq<RecoverableSession>,
    index: int,
) -> Option<SessionRecoveryError> {
    let session = sessions[index];
    if session.player_id == 0 || session.player_id >= next_player_id {
        Some(SessionRecoveryError::InvalidPlayerId(session.player_id))
    } else if session.connection_epoch == 0 {
        Some(SessionRecoveryError::InvalidConnectionEpoch(session.player_id))
    } else if session.remaining_grace_ticks > reconnect_grace_ticks {
        Some(
            SessionRecoveryError::GraceTooLong {
                maximum: reconnect_grace_ticks,
                actual: session.remaining_grace_ticks,
            },
        )
    } else if exists|j: int|
        0 <= j < index && (#[trigger] sessions[j]).player_id == session.player_id {
        Some(SessionRecoveryError::DuplicatePlayer(session.player_id))
    } else if exists|j: int|
        0 <= j < index && (#[trigger] sessions[j]).reconnect_token == session.reconnect_token {
        Some(SessionRecoveryError::DuplicateToken(session.player_id))
    } else {
        None
    }
}

/// What is wrong with the first `count` saved slots, the earliest fault first.
pub open spec fn saved_sessions_fault(
    next_player_id: PlayerId,
    reconnect_grace_ticks: u64,
    sessions: Seq<RecoverableSession>,
    count: nat,
) -> Option<SessionRecoveryError>
    decreases count,
{
    if count == 0 {
        None
    } else {
        let earlier = saved_sessions_fault(
            next_player_id,
            reconnect_grace_ticks,
            sessions,
            (count - 1) as nat,
        );
        if earlier is Some {
            earlier
        } else {
            saved_session_fault(next_player_id, reconnect_grace_ticks, sessions, count - 1)
        }
    }
}

/// Why saved slots cannot be restored, if they cannot.
pub open spec fn restore_refusal(
    max_players: usize,
    reconnect_grace_ticks: u64,
    next_player_id: PlayerId,
    sessions: Seq<RecoverableSession>,
) -> Option<SessionRecoveryError> {
    if next_player_id == 0 {
        Some(SessionRecoveryError::InvalidNextPlayerId)
    } else if sessions.len() > max_players {
        Some(
            SessionRecoveryError::TooManySessions {
                maximum: max_players,
                actual: sessions.len() as usize,
            },
        )
    } else {
        saved_sessions_fault(next_player_id, reconnect_grace_ticks, sessions, sessions.len())
    }
}

/// A slot as it stands right after a restart: waiting for its player.
pub open spec fn restored_session(session: RecoverableSession, current_tick: u64) -> PlayerSession {
    PlayerSession {
        token: session.reconnect_token,
        connection_epoch: session.connection_epoch,
        connected: false,
        expires_at_tick: current_tick.saturating_add(session.remaining_grace_ticks),
    }
}

/// The slots that the first `count` saved ones restore.
pub open spec fn restored_players(
    sessions: Seq<RecoverableSession>,
    current_tick: u64,
    count: nat,
) -> Map<PlayerId, PlayerSession>
    decreases count,
{
    if count == 0 {
        Map::empty()
    } else {
        restored_players(sessions, current_tick, (count - 1) as nat).insert(
            sessions[count - 1].player_id,
            restored_session(sessions[count - 1], current_tick),
        )
    }
}

/// The slots of a match.
#[derive(Clone, Debug)]
pub struct SessionRegistry {
    max_players: usize,
    reconnect_grace_ticks: u64,
    next_player_id: PlayerId,
    players: BTreeMap<PlayerId, PlayerSession>,
}

impl View for SessionRegistry {
    type V = RegistryView;

    closed spec fn view(&self) -> RegistryView {
        RegistryView {
            max_players: self.max_players,
            reconnect_grace_ticks: self.reconnect_grace_ticks,
            next_player_id: self.next_player_id,
            players: self.players@,
        }
    }
}

impl Default for SessionRegistry {
    fn default() -> (registry: Self)
        ensures
            registry@ == (RegistryView {
                max_players: DEFAULT_MAX_PLAYERS,
                reconnect_grace_ticks: DEFAULT_RECONNECT_GRACE_TICKS,
                next_player_id: 1,
                players: Map::empty(),
            }),
            registry@.valid(),
    {
        Self::new(DEFAULT_RECONNECT_GRACE_TICKS)
    }
}

impl SessionRegistry {
    /// An empty registry with the default number of slots.
    pub fn new(reconnect_grace_ticks: u64) -> (registry: Self)
        ensures
            registry@ == (RegistryView {
                max_players: DEFAULT_MAX_PLAYERS,
                reconnect_grace_ticks,
                next_player_id: 1,
                players: Map::empty(),
            }),
            registry@.valid(),
    {
        Self::with_max_players(DEFAULT_MAX_PLAYERS, reconnect_grace_ticks)
    }

    /// An empty registry with the given number of slots.
    pub fn with_max_players(max_players: usize, reconnect_grace_ticks: u64) -> (registry: Self)
        ensures
            registry@ == (RegistryView {
                max_players,
                reconnect_grace_ticks,
                next_player_id: 1,
                players: Map::empty(),
            }),
            registry@.valid(),
    {
        SessionRegistry {
            max_players,
            reconnect_grace_ticks,
            next_player_id: 1,
            players: BTreeMap::new(),
        }
    }

    /// For how many ticks a slot without connection is kept.
    pub fn reconnect_grace_ticks(&self) -> (ticks: u64)
        ensures
            ticks == self@.reconnect_grace_ticks,
    {
        self.reconnect_grace_ticks
    }

    pub fn slot_count(&self) -> (count: usize)
        ensures
            count == self@.players.dom().len(),
    {
        self.players.len()
    }

    pub fn active_count(&self) -> (count: usize)
        requires
            self@.valid(),
        ensures
            count == self@.active_ids().len(),
    {
        let keys = ascending_keys(&self.players);
        let ghost seen = Set::<PlayerId>::empty();
        let mut count: usize = 0;
        let mut i: usize = 0;
        while i < keys.len()
            invariant
                i <= keys.len(),
                crate::ordered::ascending(keys@, self@.players.dom()),
                self@.valid(),
                seen.finite(),
                seen.len() == count,
                count <= i,
                forall|id: PlayerId| #[trigger]
                    seen.contains(id) <==> keys@.take(i as int).contains(id)
                        && self@.players[id].connected,
            decreases keys.len() - i,
        {
            let key: PlayerId = keys[i];
            assert(keys@.contains(key));
            assert(keys@.take(i + 1) =~= keys@.take(i as int).push(key));
            proof {
                if keys@.take(i as int).contains(key) {
                    let j = choose|j: int| 0 <= j < i && keys@.take(i as int)[j] == key;
                    assert(keys@[j] < keys@[i as int]);
                }
            }
            if let Some(session) = self.players.get(&key) {
                if session.connected {
                    count = count + 1;
                    proof {
                        seen = seen.insert(key);
                    }
                }
            }
            i = i + 1;
            assert forall|id: PlayerId| #[trigger]
                seen.contains(id) <==> keys@.take(i as int).contains(id)
                    && self@.players[id].connected by {
                lemma_push_contains(keys@.take(i - 1), key, id);
            }
        }
        proof {
            assert(keys@.take(i as int) =~= keys@);
            assert(seen =~= self@.active_ids());
        }
        count
    }

    /// The slot that a token reclaims.
    fn find_token(&self, token: &ReconnectToken) -> (found: Option<PlayerId>)
        requires
            self@.valid(),
        ensures
            match found {
                Some(id) => self@.players.contains_key(id) && self@.players[id].token == *token
                    && self@.holds(*token) && self@.owner(*token) == id,
                None => !self@.holds(*token),
            },
    {
        let keys = ascending_keys(&self.players);
        let mut i: usize = 0;
        while i < keys.len()
            invariant
                i <= keys.len(),
                crate::ordered::ascending(keys@, self@.players.dom()),
                self@.valid(),
                forall|j: int| 0 <= j < i ==> self@.players[#[trigger] keys@[j]].token != *token,
            decreases keys.len() - i,
        {
            let key: PlayerId = keys[i];
            assert(keys@.contains(key));
            if let Some(session) = self.players.get(&key) {
                if session.token.same_as(token) {
                    assert(self@.players.contains_key(key) && self@.players[key].token == *token);
                    assert(self@.players[self@.owner(*token)].token == self@.players[key].token);
                    return Some(key);
                }
            }
            i = i + 1;
        }
        assert forall|id: PlayerId| #[trigger] self@.players.contains_key(id) implies
            self@.players[id].token != *token by {
            assert(keys@.contains(id));
        }
        None
    }

    /// Whether the connection of that epoch is the slot's present one.
    pub fn owns_connection(&self, player_id: PlayerId, connection_epoch: u32) -> (owns: bool)
        ensures
            owns == self@.owns(player_id, connection_epoch),
    {
        match self.players.get(&player_id) {
            Some(session) => session.connected && session.connection_epoch == connection_epoch,
            None => false,
        }
    }

    /// Gives the next identity to a new connection. A refusal changes nothing.
    pub fn admit_player(&mut self, reconnect_token: ReconnectToken) -> (result: Result<
        SessionLease,
        SessionError,
    >)
        requires
            old(self)@.valid(),
        ensures
            final(self)@.valid(),
            match result {
                Ok(lease) => {
                    &&& old(self)@.admit_refusal(reconnect_token) is None
                    &&& final(self)@ == old(self)@.admitted(reconnect_token)
                    &&& lease == final(self)@.lease(old(self)@.next_player_id)
                },
                Err(error) => old(self)@.admit_refusal(reconnect_token) == Some(error)
                    && final(self)@ == old(self)@,
            },
    {
        if self.players.len() >= self.max_players {
            return Err(SessionError::PlayerCapacity);
        }
        if self.find_token(&reconnect_token).is_some() {
            return Err(SessionError::TokenCollision);
        }
        let player_id: PlayerId = self.next_player_id;
        let next_player_id: PlayerId = match player_id.checked_add(1) {
            Some(next) => next,
            None => {
                return Err(SessionError::PlayerCapacity);
            },
        };
        self.next_player_id = next_player_id;
        self.players.insert(
            player_id,
            PlayerSession {
                token: reconnect_token,
                connection_epoch: 1,
                connected: true,
                expires_at_tick: u64::MAX,
            },
        );
        proof {
            let before = old(self)@;
            let after = self@;
            assert(!before.players.contains_key(player_id));
            assert(after =~= before.admitted(reconnect_token));
            assert forall|a: PlayerId, b: PlayerId|
                #![trigger after.players[a], after.players[b]]
                after.players.contains_key(a) && after.players.contains_key(b)
                    && after.players[a].token == after.players[b].token implies a == b by {
                if a != b {
                    assert(a == player_id || before.players.contains_key(a));
                    assert(b == player_id || before.players.contains_key(b));
                }
            }
        }
        Ok(
            SessionLease {
                player_id,
                connection_epoch: 1,
                reconnect_token,
                reconnect_grace_ticks: self.reconnect_grace_ticks,
            },
        )
    }

    /// Reclaims a disconnected slot: the epoch rises by one and the token is replaced. A refusal
    /// changes nothing.
    pub fn reconnect(
        &mut self,
        previous_token: ReconnectToken,
        replacement_token: ReconnectToken,
        current_tick: u64,
    ) -> (result: Result<SessionLease, SessionError>)
        requires
            old(self)@.valid(),
        ensures
            final(self)@.valid(),
            match result {
                Ok(lease) => {
                    &&& old(self)@.reconnect_refusal(
                        previous_token,
                        replacement_token,
                        current_tick,
                    ) is None
                    &&& final(self)@ == old(self)@.reconnected(previous_token, replacement_token)
                    &&& lease == final(self)@.lease(old(self)@.owner(previous_token))
                },
                Err(error) => old(self)@.reconnect_refusal(
                    previous_token,
                    replacement_token,
                    current_tick,
                ) == Some(error) && final(self)@ == old(self)@,
            },
    {
        if previous_token.same_as(&replacement_token) || self.find_token(
            &replacement_token,
        ).is_some() {
            return Err(SessionError::TokenCollision);
        }
        let player_id: PlayerId = match self.find_token(&previous_token) {
            Some(player_id) => player_id,
            None => {
                return Err(SessionError::UnknownToken);
            },
        };
        let session: PlayerSession = match self.players.get(&player_id) {
            Some(session) => *session,
            None => {
                return Err(SessionError::UnknownToken);
            },
        };
        if session.connected {
            return Err(SessionError::AlreadyConnected);
        }
        if current_tick > session.expires_at_tick {
            return Err(SessionError::ReconnectExpired);
        }
        let connection_epoch: u32 = match session.connection_epoch.checked_add(1) {
            Some(epoch) => epoch,
            None => {
                return Err(SessionError::ConnectionEpochExhausted);
            },
        };
        self.players.insert(
            player_id,
            PlayerSession {
                token: replacement_token,
                connection_epoch,
                connected: true,
                expires_at_tick: u64::MAX,
            },
        );
        proof {
            let before = old(self)@;
            let after = self@;
            assert(after =~= before.reconnected(previous_token, replacement_token));
            assert(after.players.dom() =~= before.players.dom());
            assert forall|a: PlayerId, b: PlayerId|
                #![trigger after.players[a], after.players[b]]
                after.players.contains_key(a) && after.players.contains_key(b)
                    && after.players[a].token == after.players[b].token implies a == b by {
                assert(before.players.contains_key(a) && before.players.contains_key(b));
                assert(before.players[a].token == before.players[b].token ==> a == b);
            }
        }
        Ok(
            SessionLease {
                player_id,
                connection_epoch,
                reconnect_token: replacement_token,
                reconnect_grace_ticks: self.reconnect_grace_ticks,
            },
        )
    }

    /// Ends the slot's present connection; a connection that is no longer the present one ends
    /// nothing.
    pub fn disconnect(
        &mut self,
        player_id: PlayerId,
        connection_epoch: u32,
        current_tick: u64,
    ) -> (ended: bool)
        requires
            old(self)@.valid(),
        ensures
            final(self)@.valid(),
            ended == old(self)@.owns(player_id, connection_epoch),
            final(self)@ == if ended {
                old(self)@.disconnected(player_id, current_tick)
            } else {
                old(self)@
            },
    {
        let session: PlayerSession = match self.players.get(&player_id) {
            Some(session) => *session,
            None => {
                return false;
            },
        };
        if !session.connected || session.connection_epoch != connection_epoch {
            return false;
        }
        let expires_at_tick: u64 = current_tick.saturating_add(self.reconnect_grace_ticks);
        self.players.insert(
            player_id,
            PlayerSession {
                token: session.token,
                connection_epoch: session.connection_epoch,
                connected: false,
                expires_at_tick,
            },
        );
        proof {
            let before = old(self)@;
            let after = self@;
            assert(after =~= before.disconnected(player_id, current_tick));
            assert(after.players.dom() =~= before.players.dom());
            assert forall|a: PlayerId, b: PlayerId|
                #![trigger after.players[a], after.players[b]]
                after.players.contains_key(a) && after.players.contains_key(b)
                    && after.players[a].token == after.players[b].token implies a == b by {
                assert(before.players[a].token == before.players[b].token);
            }
        }
        true
    }

    /// Frees a slot.
    pub fn remove_slot(&mut self, player_id: PlayerId) -> (removed: bool)
        requires
            old(self)@.valid(),
        ensures
            final(self)@.valid(),
            removed == old(self)@.players.contains_key(player_id),
            final(self)@ == old(self)@.without(player_id),
    {
        let removed = self.players.remove(&player_id).is_some();
        proof {
            let before = old(self)@;
            let after = self@;
            assert(after =~= before.without(player_id));
            assert forall|a: PlayerId, b: PlayerId|
                #![trigger after.players[a], after.players[b]]
                after.players.contains_key(a) && after.players.contains_key(b)
                    && after.players[a].token == after.players[b].token implies a == b by {
                assert(before.players[a].token == before.players[b].token);
            }
        }
        removed
    }

    /// The slots whose grace period has passed, in ascending order. Nothing changes.
    pub fn expired(&self, current_tick: u64) -> (expired: Vec<PlayerId>)
        ensures
            crate::ordered::ascending(expired@, self@.lapsed_ids(current_tick)),
    {
        let keys = ascending_keys(&self.players);
        let mut expired: Vec<PlayerId> = Vec::new();
        let mut i: usize = 0;
        while i < keys.len()
            invariant
                i <= keys.len(),
                crate::ordered::ascending(keys@, self@.players.dom()),
                forall|a: int, b: int| 0 <= a < b < expired@.len() ==> expired@[a] < expired@[b],
                forall|a: int, b: int|
                    0 <= a < expired@.len() && i <= b < keys@.len() ==> expired@[a] < keys@[b],
                forall|id: PlayerId| #[trigger]
                    expired@.contains(id) <==> keys@.take(i as int).contains(id) && self@.lapsed(
                        id,
                        current_tick,
                    ),
            decreases keys.len() - i,
        {
            let key: PlayerId = keys[i];
            let ghost before = expired@;
            assert(keys@.contains(key));
            assert(keys@.take(i + 1) =~= keys@.take(i as int).push(key));
            if let Some(session) = self.players.get(&key) {
                if !session.connected && current_tick > session.expires_at_tick {
                    expired.push(key);
                }
            }
            i = i + 1;
            assert forall|id: PlayerId| #[trigger]
                expired@.contains(id) <==> keys@.take(i as int).contains(id) && self@.lapsed(
                    id,
                    current_tick,
                ) by {
                lemma_push_contains(keys@.take(i - 1), key, id);
                lemma_push_contains(before, key, id);
            }
        }
        assert(keys@.take(i as int) =~= keys@);
        expired
    }

    /// Frees the slots whose grace period has passed and lists them in ascending order.
    pub fn expire(&mut self, current_tick: u64) -> (expired: Vec<PlayerId>)
        requires
            old(self)@.valid(),
        ensures
            final(self)@.valid(),
            crate::ordered::ascending(expired@, old(self)@.lapsed_ids(current_tick)),
            final(self)@ == (RegistryView {
                players: old(self)@.players.remove_keys(old(self)@.lapsed_ids(current_tick)),
                ..old(self)@
            }),
    {
        let expired = self.expired(current_tick);
        let mut i: usize = 0;
        while i < expired.len()
            invariant
                i <= expired.len(),
                self@.valid(),
                self@ == (RegistryView {
                    players: old(self)@.players.remove_keys(expired@.take(i as int).to_set()),
                    ..old(self)@
                }),
            decreases expired.len() - i,
        {
            let player_id: PlayerId = expired[i];
            self.remove_slot(player_id);
            i = i + 1;
            proof {
                assert(expired@.take(i as int) =~= expired@.take(i - 1).push(player_id));
                assert forall|id: PlayerId|
                    expired@.take(i as int).to_set().contains(id) == (expired@.take(
                        i - 1,
                    ).to_set().contains(id) || id == player_id) by {
                    lemma_push_contains(expired@.take(i - 1), player_id, id);
                }
                assert(self@.players =~= old(self)@.players.remove_keys(
                    expired@.take(i as int).to_set(),
                ));
            }
        }
        proof {
            assert(expired@.take(i as int) =~= expired@);
            assert(expired@.to_set() =~= old(self)@.lapsed_ids(current_tick));
        }
        expired
    }

    /// Saves every slot for a restart.
    pub fn recovery_snapshot(&self, current_tick: u64) -> (snapshot: SessionRecoverySnapshot)
        ensures
            snapshot.next_player_id == self@.next_player_id,
            self@.saved_as(snapshot.sessions@, current_tick),
            snapshot.sessions@.len() == self@.players.dom().len(),
    {
        let keys = ascending_keys(&self.players);
        let mut sessions: Vec<RecoverableSession> = Vec::new();
        let mut i: usize = 0;
        while i < keys.len()
            invariant
                i <= keys.len(),
                crate::ordered::ascending(keys@, self@.players.dom()),
                sessions@.len() == i,
                forall|j: int|
                    0 <= j < i ==> #[trigger] sessions@[j] == self@.recoverable(
                        keys@[j],
                        current_tick,
                    ),
            decreases keys.len() - i,
        {
            let key: PlayerId = keys[i];
            assert(keys@.contains(key));
            if let Some(session) = self.players.get(&key) {
                let remaining_grace_ticks: u64 = if session.connected {
                    self.reconnect_grace_ticks
                } else {
                    session.expires_at_tick.saturating_sub(current_tick)
                };
                sessions.push(
                    RecoverableSession {
                        player_id: key,
                        reconnect_token: session.token,
                        connection_epoch: session.connection_epoch,
                        remaining_grace_ticks,
                    },
                );
            }
            i = i + 1;
        }
        assert(player_ids(sessions@) =~= keys@);
        SessionRecoverySnapshot { next_player_id: self.next_player_id, sessions }
    }

    /// Rebuilds a registry from saved slots, each waiting for its player.
    pub fn restore(
        max_players: usize,
        reconnect_grace_ticks: u64,
        current_tick: u64,
        snapshot: &SessionRecoverySnapshot,
    ) -> (result: Result<Self, SessionRecoveryError>)
        ensures
            match result {
                Ok(registry) => {
                    &&& restore_refusal(
                        max_players,
                        reconnect_grace_ticks,
                        snapshot.next_player_id,
                        snapshot.sessions@,
                    ) is None
                    &&& registry@.valid()
                    &&& registry@.players.dom() == player_ids(snapshot.sessions@).to_set()
                    &&& registry@ == (RegistryView {
                        max_players,
                        reconnect_grace_ticks,
                        next_player_id: snapshot.next_player_id,
                        players: restored_players(
                            snapshot.sessions@,
                            current_tick,
                            snapshot.sessions@.len(),
                        ),
                    })
                },
                Err(error) => restore_refusal(
                    max_players,
                    reconnect_grace_ticks,
                    snapshot.next_player_id,
                    snapshot.sessions@,
                ) == Some(error),
            },
    {
        if snapshot.next_player_id == 0 {
            return Err(SessionRecoveryError::InvalidNextPlayerId);
        }
        if snapshot.sessions.len() > max_players {
            return Err(
                SessionRecoveryError::TooManySessions {
                    maximum: max_players,
                    actual: snapshot.sessions.len(),
                },
            );
        }
        let mut registry = Self::with_max_players(max_players, reconnect_grace_ticks);
        registry.next_player_id = snapshot.next_player_id;
        let ghost sessions = snapshot.sessions@;
        let ghost next = snapshot.next_player_id;
        let mut i: usize = 0;
        while i < snapshot.sessions.len()
            invariant
                i <= snapshot.sessions.len() <= max_players,
                sessions == snapshot.sessions@,
                next == snapshot.next_player_id,
                registry@.valid(),
                registry@ == (RegistryView {
                    max_players,
                    reconnect_grace_ticks,
                    next_player_id: next,
                    players: restored_players(sessions, current_tick, i as nat),
                }),
                registry@.players.dom().len() == i,
                saved_sessions_fault(next, reconnect_grace_ticks, sessions, i as nat) is None,
                forall|id: PlayerId| #[trigger]
                    registry@.players.contains_key(id) <==> exists|j: int|
                        0 <= j < i && (#[trigger] sessions[j]).player_id == id,
                forall|j: int|
                    0 <= j < i ==> registry@.players.contains_key(
                        (#[trigger] sessions[j]).player_id,
                    ) && registry@.players[sessions[j].player_id] == restored_session(
                        sessions[j],
                        current_tick,
                    ),
            decreases snapshot.sessions.len() - i,
        {
            let session: RecoverableSession = snapshot.sessions[i];
            proof {
                lemma_earlier_fault_stands(
                    next,
                    reconnect_grace_ticks,
                    sessions,
                    (i + 1) as nat,
                    sessions.len(),
                );
            }
            if session.player_id == 0 || session.player_id >= snapshot.next_player_id {
                return Err(SessionRecoveryError::InvalidPlayerId(session.player_id));
            }
            if session.connection_epoch == 0 {
                return Err(SessionRecoveryError::InvalidConnectionEpoch(session.player_id));
            }
            if session.remaining_grace_ticks > reconnect_grace_ticks {
                return Err(
                    SessionRecoveryError::GraceTooLong {
                        maximum: reconnect_grace_ticks,
                        actual: session.remaining_grace_ticks,
                    },
                );
            }
            if registry.players.contains_key(&session.player_id) {
                return Err(SessionRecoveryError::DuplicatePlayer(session.player_id));
            }
            if registry.find_token(&session.reconnect_token).is_some() {
                proof {
                    let owner = registry@.owner(session.reconnect_token);
                    let j = choose|j: int|
                        0 <= j < i && (#[trigger] sessions[j]).player_id == owner;
                    assert(sessions[j].reconnect_token == session.reconnect_token);
                }
                return Err(SessionRecoveryError::DuplicateToken(session.player_id));
            }
            let ghost before = registry@;
            proof {
                assert forall|j: int| 0 <= j < i implies (#[trigger] sessions[j]).reconnect_token
                    != session.reconnect_token by {
                    assert(before.players.contains_key(sessions[j].player_id));
                }
            }
            let expires_at_tick: u64 = current_tick.saturating_add(session.remaining_grace_ticks);
            registry.players.insert(
                session.player_id,
                PlayerSession {
                    token: session.reconnect_token,
                    connection_epoch: session.connection_epoch,
                    connected: false,
                    expires_at_tick,
                },
            );
            i = i + 1;
            proof {
                let after = registry@;
                assert(after.players =~= restored_players(sessions, current_tick, i as nat));
                assert forall|a: PlayerId, b: PlayerId|
                    #![trigger after.players[a], after.players[b]]
                    after.players.contains_key(a) && after.players.contains_key(b)
                        && after.players[a].token == after.players[b].token implies a == b by {
                    if a != b {
                        assert(a == session.player_id || before.players.contains_key(a));
                        assert(b == session.player_id || before.players.contains_key(b));
                    }
                }
                assert forall|id: PlayerId| #[trigger]
                    after.players.contains_key(id) <==> exists|j: int|
                        0 <= j < i && (#[trigger] sessions[j]).player_id == id by {
                    if id == session.player_id {
                        assert(sessions[i - 1].player_id == id);
                    }
                }
            }
        }
        proof {
            let ids = player_ids(sessions);
            assert forall|id: PlayerId| registry@.players.dom().contains(id)
                == ids.to_set().contains(id) by {
                if registry@.players.contains_key(id) {
                    let j = choose|j: int|
                        0 <= j < sessions.len() && (#[trigger] sessions[j]).player_id == id;
                    assert(ids[j] == id);
                }
                if ids.contains(id) {
                    let j = choose|j: int| 0 <= j < ids.len() && ids[j] == id;
                    assert(sessions[j].player_id == id);
                }
            }
            assert(registry@.players.dom() =~= ids.to_set());
        }
        Ok(registry)
    }
}

pub proof fn lemma_push_contains<T>(items: Seq<T>, item: T, other: T)
    ensures
        items.push(item).contains(other) <==> items.contains(other) || item == other,
{
    let pushed = items.push(item);
    if items.contains(other) {
        let i = choose|i: int| 0 <= i < items.len() && items[i] == other;
        assert(pushed[i] == other);
    }
    if item == other {
        assert(pushed[items.len() as int] == other);
    }
}

/// A fault among the first saved slots stays the earliest fault when more are looked at.
proof fn lemma_earlier_fault_stands(
    next_player_id: PlayerId,
    reconnect_grace_ticks: u64,
    sessions: Seq<RecoverableSession>,
    count: nat,
    more: nat,
)
    requires
        count <= more,
    ensures
        saved_sessions_fault(next_player_id, reconnect_grace_ticks, sessions, count) is Some
            ==> saved_sessions_fault(next_player_id, reconnect_grace_ticks, sessions, more)
            == saved_sessions_fault(next_player_id, reconnect_grace_ticks, sessions, count),
    decreases more - count,
{
    if count < more {
        lemma_earlier_fault_stands(
            next_player_id,
            reconnect_grace_ticks,
            sessions,
            count,
            (more - 1) as nat,
        );
    }
}

/// An admission hands out an identity that no slot holds, every later one is larger, and nothing
/// else moves the counter.
pub proof fn law_identities_are_never_reused(
    registry: RegistryView,
    token: ReconnectToken,
    other_token: ReconnectToken,
    player_id: PlayerId,
    current_tick: u64,
)
    requires
        registry.valid(),
    ensures
        !registry.players.contains_key(registry.next_player_id),
        registry.admit_refusal(token) is None ==> {
            &&& registry.admitted(token).next_player_id > registry.next_player_id
            &&& registry.admitted(token).lease(registry.next_player_id).player_id
                == registry.next_player_id
        },
        registry.reconnected(token, other_token).next_player_id == registry.next_player_id,
        registry.disconnected(player_id, current_tick).next_player_id == registry.next_player_id,
        registry.without(player_id).next_player_id == registry.next_player_id,
{
}

/// When the identities are used up, every admission is refused and the slots stay as they are.
pub proof fn law_exhausted_identities_refuse_admission(
    registry: RegistryView,
    token: ReconnectToken,
)
    requires
        registry.valid(),
        registry.next_player_id == u32::MAX,
    ensures
        registry.admit_refusal(token) is Some,
        !registry.holds(token) ==> registry.admit_refusal(token) == Some(
            SessionError::PlayerCapacity,
        ),
{
}

/// A reconnect keeps the identity, raises the epoch by one, retires the old token for good, and
/// leaves the old epoch without any hold on the slot.
pub proof fn law_reconnect_rotates_token_and_epoch(
    registry: RegistryView,
    previous: ReconnectToken,
    replacement: ReconnectToken,
    current_tick: u64,
    other: ReconnectToken,
    later_tick: u64,
)
    requires
        registry.valid(),
        registry.reconnect_refusal(previous, replacement, current_tick) is None,
    ensures
        ({
            let after = registry.reconnected(previous, replacement);
            let id = registry.owner(previous);
            let epoch = registry.players[id].connection_epoch;
            &&& after.owner(replacement) == id
            &&& after.lease(id).connection_epoch == epoch + 1
            &&& after.lease(id).reconnect_token == replacement
            &&& !after.holds(previous)
            &&& after.reconnect_refusal(previous, other, later_tick) is Some
            &&& !after.owns(id, epoch)
            &&& after.owns(id, (epoch + 1) as u32)
        }),
{
    let after = registry.reconnected(previous, replacement);
    let id = registry.owner(previous);
    assert(registry.players.contains_key(id) && registry.players[id].token == previous);
    assert(after.players.contains_key(id) && after.players[id].token == replacement);
    let owner = after.owner(replacement);
    assert(after.players.contains_key(owner) && after.players[owner].token == replacement);
    if owner != id {
        assert(registry.players.contains_key(owner));
    }
    assert forall|other_id: PlayerId| #[trigger] after.players.contains_key(other_id) implies
        after.players[other_id].token != previous by {
        if other_id != id {
            assert(registry.players.contains_key(other_id));
            assert(registry.players[other_id].token == registry.players[id].token ==> other_id
                == id);
        }
    }
}

/// A connection whose slot has been reclaimed since cannot end the newer connection.
pub proof fn law_stale_disconnect_changes_nothing(
    registry: RegistryView,
    player_id: PlayerId,
    stale_epoch: u32,
)
    requires
        registry.valid(),
        registry.players.contains_key(player_id),
        registry.players[player_id].connection_epoch != stale_epoch,
    ensures
        !registry.owns(player_id, stale_epoch),
{
}

/// The token of a connected slot reclaims nothing.
pub proof fn law_active_token_cannot_be_replayed(
    registry: RegistryView,
    player_id: PlayerId,
    replacement: ReconnectToken,
    current_tick: u64,
)
    requires
        registry.valid(),
        registry.players.contains_key(player_id),
        registry.players[player_id].connected,
        !registry.holds(replacement),
    ensures
        registry.reconnect_refusal(
            registry.players[player_id].token,
            replacement,
            current_tick,
        ) == Some(SessionError::AlreadyConnected),
{
    let token = registry.players[player_id].token;
    assert(registry.players.contains_key(player_id) && registry.players[player_id].token == token);
    let owner = registry.owner(token);
    assert(registry.players.contains_key(owner) && registry.players[owner].token == token);
    assert(registry.players[owner].token == registry.players[player_id].token);
}

/// A slot that lost its connection can be reclaimed until its grace period has passed, and lapses
/// right after.
pub proof fn law_grace_period(
    registry: RegistryView,
    player_id: PlayerId,
    connection_epoch: u32,
    lost_at: u64,
    now: u64,
    replacement: ReconnectToken,
)
    requires
        registry.valid(),
        registry.owns(player_id, connection_epoch),
        connection_epoch < u32::MAX,
        !registry.holds(replacement),
    ensures
        ({
            let waiting = registry.disconnected(player_id, lost_at);
            let token = registry.players[player_id].token;
            let deadline = lost_at.saturating_add(registry.reconnect_grace_ticks);
            &&& now <= deadline ==> waiting.reconnect_refusal(token, replacement, now) is None
            &&& now > deadline ==> waiting.reconnect_refusal(token, replacement, now) == Some(
                SessionError::ReconnectExpired,
            )
            &&& waiting.lapsed(player_id, now) <==> now > deadline
        }),
{
    let waiting = registry.disconnected(player_id, lost_at);
    let token = registry.players[player_id].token;
    assert(registry.players.contains_key(player_id) && registry.players[player_id].token == token);
    assert(waiting.players.contains_key(player_id) && waiting.players[player_id].token == token);
    let owner = waiting.owner(token);
    assert(waiting.players.contains_key(owner) && waiting.players[owner].token == token);
    assert(registry.players.contains_key(owner));
    assert(registry.players[owner].token == registry.players[player_id].token);
    assert forall|id: PlayerId| #[trigger] waiting.players.contains_key(id) implies
        waiting.players[id].token != replacement by {
        assert(registry.players.contains_key(id));
    }
}

/// Every slot of a registry can be saved and restored: identities, tokens, epochs and the next
/// identity survive, and every slot waits for its player. Saving again gives the same, as long as
/// the clock has room for a whole grace period.
pub proof fn law_saved_slots_restore(
    registry: RegistryView,
    sessions: Seq<RecoverableSession>,
    current_tick: u64,
)
    requires
        registry.valid(),
        registry.saved_as(sessions, current_tick),
        sessions.len() == registry.players.dom().len(),
        forall|id: PlayerId| #[trigger]
            registry.players.contains_key(id) && !registry.players[id].connected
                ==> registry.players[id].expires_at_tick <= current_tick.saturating_add(
                registry.reconnect_grace_ticks,
            ),
    ensures
        restore_refusal(
            registry.max_players,
            registry.reconnect_grace_ticks,
            registry.next_player_id,
            sessions,
        ) is None,
        ({
            let players = restored_players(sessions, current_tick, sessions.len());
            let restored = RegistryView { players, ..registry };
            &&& players.dom() == registry.players.dom()
            &&& forall|id: PlayerId| #[trigger]
                players.contains_key(id) ==> {
                    &&& players[id].token == registry.players[id].token
                    &&& players[id].connection_epoch == registry.players[id].connection_epoch
                    &&& !players[id].connected
                    &&& !restored.lapsed(id, current_tick)
                }
            &&& current_tick + registry.reconnect_grace_ticks <= u64::MAX ==> restored.saved_as(
                sessions,
                current_tick,
            )
        }),
{
    let ids = player_ids(sessions);
    assert forall|i: int| 0 <= i < sessions.len() implies registry.players.contains_key(
        (#[trigger] sessions[i]).player_id,
    ) by {
        assert(ids.contains(ids[i]));
    }
    lemma_valid_slots_have_no_fault(registry, sessions, current_tick, sessions.len());
    lemma_restored_players(sessions, current_tick, sessions.len(), ids);
    let players = restored_players(sessions, current_tick, sessions.len());
    assert forall|id: PlayerId| players.contains_key(id) == registry.players.contains_key(id) by {
        if registry.players.contains_key(id) {
            assert(ids.contains(id));
            let i = choose|i: int| 0 <= i < ids.len() && ids[i] == id;
            assert(sessions[i].player_id == id);
        }
    }
    assert(players.dom() =~= registry.players.dom());
    let restored = RegistryView { players, ..registry };
    if current_tick + registry.reconnect_grace_ticks <= u64::MAX {
        assert forall|i: int| 0 <= i < sessions.len() implies #[trigger] sessions[i]
            == restored.recoverable(sessions[i].player_id, current_tick) by {
            assert(players[sessions[i].player_id] == restored_session(sessions[i], current_tick));
        }
    }
}

proof fn lemma_valid_slots_have_no_fault(
    registry: RegistryView,
    sessions: Seq<RecoverableSession>,
    current_tick: u64,
    count: nat,
)
    requires
        registry.valid(),
        registry.saved_as(sessions, current_tick),
        count <= sessions.len(),
        forall|i: int|
            0 <= i < sessions.len() ==> registry.players.contains_key(
                (#[trigger] sessions[i]).player_id,
            ),
        forall|id: PlayerId| #[trigger]
            registry.players.contains_key(id) && !registry.players[id].connected
                ==> registry.players[id].expires_at_tick <= current_tick.saturating_add(
                registry.reconnect_grace_ticks,
            ),
    ensures
        saved_sessions_fault(
            registry.next_player_id,
            registry.reconnect_grace_ticks,
            sessions,
            count,
        ) is None,
    decreases count,
{
    if count > 0 {
        lemma_valid_slots_have_no_fault(registry, sessions, current_tick, (count - 1) as nat);
        let session = sessions[count - 1];
        let ids = player_ids(sessions);
        assert(registry.players.contains_key(session.player_id));
        assert(session == registry.recoverable(session.player_id, current_tick));
        assert forall|j: int| 0 <= j < count - 1 implies (#[trigger] sessions[j]).player_id
            != session.player_id && sessions[j].reconnect_token != session.reconnect_token by {
            assert(ids[j] < ids[count - 1]);
            assert(registry.players.contains_key(sessions[j].player_id));
            assert(registry.players[sessions[j].player_id].token != registry.players[session.player_id].token);
        }
    }
}

proof fn lemma_restored_players(
    sessions: Seq<RecoverableSession>,
    current_tick: u64,
    count: nat,
    ids: Seq<PlayerId>,
)
    requires
        count <= sessions.len(),
        ids == player_ids(sessions),
        forall|i: int, j: int| 0 <= i < j < ids.len() ==> ids[i] < ids[j],
    ensures
        forall|id: PlayerId| #[trigger]
            restored_players(sessions, current_tick, count).contains_key(id) ==> ids.contains(id),
        forall|i: int|
            0 <= i < count ==> restored_players(sessions, current_tick, count).contains_key(
                (#[trigger] sessions[i]).player_id,
            ) && restored_players(sessions, current_tick, count)[sessions[i].player_id]
                == restored_session(sessions[i], current_tick),
    decreases count,
{
    if count > 0 {
        lemma_restored_players(sessions, current_tick, (count - 1) as nat, ids);
        let earlier = restored_players(sessions, current_tick, (count - 1) as nat);
        assert(ids.contains(ids[count - 1]));
        assert(ids[count - 1] == sessions[count - 1].player_id);
        assert forall|id: PlayerId| #[trigger]
            restored_players(sessions, current_tick, count).contains_key(id) implies ids.contains(
            id,
        ) by {
            assert(id == sessions[count - 1].player_id || earlier.contains_key(id));
        }
        assert forall|i: int| 0 <= i < count implies restored_players(
            sessions,
            current_tick,
            count,
        ).contains_key((#[trigger] sessions[i]).player_id) && restored_players(
            sessions,
            current_tick,
            count,
        )[sessions[i].player_id] == restored_session(sessions[i], current_tick) by {
            if i < count - 1 {
                assert(ids[i] < ids[count - 1]);
                assert(ids[i] == sessions[i].player_id);
            }
        }
    }
}

/// A new connection is admitted exactly where a slot and an identity are free and no slot is
/// reclaimed by its token already; a full match is named first, then a token in use.
pub proof fn law_admission_is_judged(registry: RegistryView, token: ReconnectToken)
    ensures
        registry.admit_refusal(token) is None <==> {
            &&& registry.players.dom().len() < registry.max_players
            &&& registry.next_player_id < u32::MAX
            &&& forall|id: PlayerId| #[trigger]
                registry.players.contains_key(id) ==> registry.players[id].token != token
        },
        registry.players.dom().len() >= registry.max_players ==> registry.admit_refusal(token)
            == Some(SessionError::PlayerCapacity),
        forall|id: PlayerId|
            registry.players.dom().len() < registry.max_players && #[trigger]
                registry.players.contains_key(id) && registry.players[id].token == token
                ==> registry.admit_refusal(token) == Some(SessionError::TokenCollision),
        registry.admit_refusal(token) is Some ==> registry.admit_refusal(token) == Some(
            SessionError::PlayerCapacity,
        ) || registry.admit_refusal(token) == Some(SessionError::TokenCollision),
        registry.admit_refusal(token) == Some(SessionError::TokenCollision) ==> exists|
            id: PlayerId,
        | #[trigger]
            registry.players.contains_key(id) && registry.players[id].token == token,
{
}

/// An admission fills one slot, of the next identity and the first epoch, and touches no other.
pub proof fn law_admission_fills_one_slot(registry: RegistryView, token: ReconnectToken)
    requires
        registry.valid(),
        registry.next_player_id < u32::MAX,
    ensures
        ({
            let id = registry.next_player_id;
            let after = registry.admitted(token);
            &&& after.players.contains_key(id)
            &&& after.players[id].token == token
            &&& after.players[id].connection_epoch == 1
            &&& after.players[id].connected
            &&& after.players[id].expires_at_tick == u64::MAX
            &&& after.next_player_id == id + 1
            &&& after.max_players == registry.max_players
            &&& after.reconnect_grace_ticks == registry.reconnect_grace_ticks
            &&& after.players.dom().len() == registry.players.dom().len() + 1
            &&& after.lease(id).player_id == id
            &&& after.lease(id).connection_epoch == 1
            &&& after.lease(id).reconnect_token == token
            &&& after.lease(id).reconnect_grace_ticks == registry.reconnect_grace_ticks
            &&& forall|other: PlayerId| other != id ==> (#[trigger] after.players.contains_key(
                other,
            ) <==> registry.players.contains_key(other))
            &&& forall|other: PlayerId|
                other != id && #[trigger] registry.players.contains_key(other)
                    ==> after.players[other] == registry.players[other]
        }),
{
    assert(!registry.players.dom().contains(registry.next_player_id));
    assert(registry.admitted(token).players.dom() =~= registry.players.dom().insert(
        registry.next_player_id,
    ));
}

/// A return is judged by the slot that the token reclaims: it succeeds exactly where the slot waits,
/// its grace period has not passed, an epoch is left, and the replacement is another token that
/// reclaims no slot.
pub proof fn law_return_is_judged(
    registry: RegistryView,
    id: PlayerId,
    replacement: ReconnectToken,
    current_tick: u64,
)
    requires
        registry.valid(),
        registry.players.contains_key(id),
    ensures
        ({
            let slot = registry.players[id];
            let refusal = registry.reconnect_refusal(slot.token, replacement, current_tick);
            let fresh = forall|other: PlayerId| #[trigger]
                registry.players.contains_key(other) ==> registry.players[other].token
                    != replacement;
            &&& registry.owner(slot.token) == id
            &&& refusal is None <==> fresh && !slot.connected && current_tick
                <= slot.expires_at_tick && slot.connection_epoch < u32::MAX
            &&& !fresh <==> refusal == Some(SessionError::TokenCollision)
            &&& fresh && slot.connected <==> refusal == Some(SessionError::AlreadyConnected)
            &&& fresh && !slot.connected && current_tick > slot.expires_at_tick <==> refusal
                == Some(SessionError::ReconnectExpired)
            &&& fresh && !slot.connected && current_tick <= slot.expires_at_tick
                && slot.connection_epoch == u32::MAX <==> refusal == Some(
                SessionError::ConnectionEpochExhausted,
            )
        }),
{
    let slot = registry.players[id];
    assert(registry.players.contains_key(id) && registry.players[id].token == slot.token);
    let owner = registry.owner(slot.token);
    assert(registry.players.contains_key(owner) && registry.players[owner].token == slot.token);
    assert(registry.players[owner].token == registry.players[id].token);
}

/// A token that reclaims no slot brings nobody back.
pub proof fn law_unknown_token_is_refused(
    registry: RegistryView,
    previous: ReconnectToken,
    replacement: ReconnectToken,
    current_tick: u64,
)
    requires
        forall|id: PlayerId| #[trigger]
            registry.players.contains_key(id) ==> registry.players[id].token != previous,
    ensures
        ({
            let refusal = registry.reconnect_refusal(previous, replacement, current_tick);
            let fresh = previous != replacement && forall|other: PlayerId| #[trigger]
                registry.players.contains_key(other) ==> registry.players[other].token
                    != replacement;
            &&& fresh ==> refusal == Some(SessionError::UnknownToken)
            &&& !fresh ==> refusal == Some(SessionError::TokenCollision)
        }),
{
}

/// A return changes one slot: it is connected, in the next epoch, under the new token, and never
/// lapses while it is; everything else stays.
pub proof fn law_return_changes_one_slot(
    registry: RegistryView,
    id: PlayerId,
    replacement: ReconnectToken,
)
    requires
        registry.valid(),
        registry.players.contains_key(id),
        registry.players[id].connection_epoch < u32::MAX,
    ensures
        ({
            let after = registry.reconnected(registry.players[id].token, replacement);
            &&& after.players.dom() == registry.players.dom()
            &&& after.players[id].connected
            &&& after.players[id].token == replacement
            &&& after.players[id].connection_epoch == registry.players[id].connection_epoch + 1
            &&& after.players[id].expires_at_tick == u64::MAX
            &&& after.max_players == registry.max_players
            &&& after.reconnect_grace_ticks == registry.reconnect_grace_ticks
            &&& after.next_player_id == registry.next_player_id
            &&& forall|other: PlayerId|
                other != id && #[trigger] registry.players.contains_key(other)
                    ==> after.players[other] == registry.players[other]
        }),
{
    let token = registry.players[id].token;
    assert(registry.players.contains_key(id) && registry.players[id].token == token);
    let owner = registry.owner(token);
    assert(registry.players.contains_key(owner) && registry.players[owner].token == token);
    assert(registry.players[owner].token == registry.players[id].token);
    assert(registry.reconnected(token, replacement).players.dom() =~= registry.players.dom());
}

/// Losing a connection changes nothing of a slot but that it waits, and until when: token and epoch
/// stay, and so does every other slot.
pub proof fn law_lost_connection_keeps_the_slot(registry: RegistryView, id: PlayerId, lost_at: u64)
    requires
        registry.players.contains_key(id),
    ensures
        ({
            let after = registry.disconnected(id, lost_at);
            let deadline = lost_at + registry.reconnect_grace_ticks;
            &&& after.players.dom() == registry.players.dom()
            &&& !after.players[id].connected
            &&& after.players[id].token == registry.players[id].token
            &&& after.players[id].connection_epoch == registry.players[id].connection_epoch
            &&& after.players[id].expires_at_tick == if deadline <= u64::MAX {
                deadline
            } else {
                u64::MAX as int
            }
            &&& after.max_players == registry.max_players
            &&& after.reconnect_grace_ticks == registry.reconnect_grace_ticks
            &&& after.next_player_id == registry.next_player_id
            &&& forall|other: PlayerId|
                other != id && #[trigger] registry.players.contains_key(other)
                    ==> after.players[other] == registry.players[other]
        }),
{
    assert(registry.disconnected(id, lost_at).players.dom() =~= registry.players.dom());
}

/// A connection owns a slot exactly where the slot is connected in that connection's epoch, so one
/// connection at most does.
pub proof fn law_one_connection_owns_a_slot(registry: RegistryView, id: PlayerId, a: u32, b: u32)
    ensures
        registry.owns(id, a) <==> registry.players.contains_key(id)
            && registry.players[id].connected && registry.players[id].connection_epoch == a,
        registry.owns(id, a) && registry.owns(id, b) ==> a == b,
{
}

/// A freed slot is gone, and no other is touched.
pub proof fn law_freed_slot_is_gone(registry: RegistryView, id: PlayerId)
    ensures
        ({
            let after = registry.without(id);
            &&& !after.players.contains_key(id)
            &&& after.max_players == registry.max_players
            &&& after.reconnect_grace_ticks == registry.reconnect_grace_ticks
            &&& after.next_player_id == registry.next_player_id
            &&& forall|other: PlayerId| other != id ==> (#[trigger] after.players.contains_key(
                other,
            ) <==> registry.players.contains_key(other))
            &&& forall|other: PlayerId|
                other != id && #[trigger] registry.players.contains_key(other)
                    ==> after.players[other] == registry.players[other]
        }),
{
}

/// Exactly the waiting slots whose deadline lies behind have lapsed, and exactly the connected slots
/// are active.
pub proof fn law_waiting_slots_lapse(registry: RegistryView, id: PlayerId, current_tick: u64)
    ensures
        registry.lapsed_ids(current_tick).contains(id) <==> registry.players.contains_key(id)
            && !registry.players[id].connected && current_tick
            > registry.players[id].expires_at_tick,
        registry.active_ids().contains(id) <==> registry.players.contains_key(id)
            && registry.players[id].connected,
        !(registry.lapsed_ids(current_tick).contains(id) && registry.active_ids().contains(id)),
{
}

/// Whether one operation may take a registry from `pre` to `post`.
pub open spec fn takes_step(pre: RegistryView, post: RegistryView) -> bool {
    ||| post == pre
    ||| exists|token: ReconnectToken|
        pre.admit_refusal(token) is None && post == #[trigger] pre.admitted(token)
    ||| exists|previous: ReconnectToken, replacement: ReconnectToken, now: u64|
        #![trigger pre.reconnect_refusal(previous, replacement, now)]
        pre.reconnect_refusal(previous, replacement, now) is None && post == pre.reconnected(
            previous,
            replacement,
        )
    ||| exists|id: PlayerId, epoch: u32, now: u64|
        #![trigger pre.owns(id, epoch), pre.disconnected(id, now)]
        pre.owns(id, epoch) && post == pre.disconnected(id, now)
    ||| exists|id: PlayerId| post == #[trigger] pre.without(id)
}

/// Whether each state of a registry follows from the one before by one operation.
pub open spec fn runs(states: Seq<RegistryView>) -> bool {
    &&& forall|i: int| 0 <= i < states.len() ==> (#[trigger] states[i]).valid()
    &&& forall|i: int, j: int|
        0 <= i < states.len() && j == i + 1 && j < states.len() ==> takes_step(
            #[trigger] states[i],
            #[trigger] states[j],
        )
}

/// One operation: identities are not handed out again, a slot keeps its epoch or a return raises it by
/// one, and only a return connects a slot again.
proof fn lemma_step_keeps_epochs(pre: RegistryView, post: RegistryView, id: PlayerId)
    requires
        pre.valid(),
        post.valid(),
        takes_step(pre, post),
    ensures
        post.next_player_id >= pre.next_player_id,
        id < pre.next_player_id && !pre.players.contains_key(id) ==> !post.players.contains_key(id),
        pre.players.contains_key(id) && post.players.contains_key(id) ==> {
            ||| post.players[id] == pre.players[id]
            ||| !post.players[id].connected && post.players[id].connection_epoch
                == pre.players[id].connection_epoch
            ||| !pre.players[id].connected && post.players[id].connected
                && post.players[id].connection_epoch == pre.players[id].connection_epoch + 1
        },
{
    if exists|previous: ReconnectToken, replacement: ReconnectToken, now: u64|
        #![trigger pre.reconnect_refusal(previous, replacement, now)]
        pre.reconnect_refusal(previous, replacement, now) is None && post == pre.reconnected(
            previous,
            replacement,
        ) {
        let (previous, replacement, now) = choose|
            previous: ReconnectToken,
            replacement: ReconnectToken,
            now: u64,
        |
            #![trigger pre.reconnect_refusal(previous, replacement, now)]
            pre.reconnect_refusal(previous, replacement, now) is None && post == pre.reconnected(
                previous,
                replacement,
            );
        let owner = pre.owner(previous);
        assert(pre.players.contains_key(owner) && pre.players[owner].token == previous);
    }
}

/// Along any run of operations a slot's epoch never falls, a slot that is gone stays gone, and two
/// connections of a slot never share an epoch: one that a slot accepts after it lost another has a
/// higher one.
pub proof fn law_epochs_fence_connections(
    states: Seq<RegistryView>,
    first: int,
    between: int,
    last: int,
    id: PlayerId,
    earlier: u32,
    later: u32,
)
    requires
        runs(states),
        0 <= first <= between <= last < states.len(),
        states[first].players.contains_key(id),
    ensures
        states[last].players.contains_key(id) ==> states[first].players[id].connection_epoch
            <= states[last].players[id].connection_epoch,
        !states[between].players.contains_key(id) ==> !states[last].players.contains_key(id),
        states[first].owns(id, earlier) && states[last].owns(id, later) && (
        !states[between].players.contains_key(id) || !states[between].players[id].connected)
            ==> earlier < later,
{
    lemma_epochs_rise(states, first, between, id);
    if states[between].players.contains_key(id) {
        lemma_epochs_rise(states, between, last, id);
    } else {
        assert(id < states[between].next_player_id) by {
            lemma_counter_rises(states, first, between);
        }
        lemma_gone_stays_gone(states, between, last, id);
    }
    lemma_epochs_rise(states, first, last, id);
}

proof fn lemma_counter_rises(states: Seq<RegistryView>, first: int, last: int)
    requires
        runs(states),
        0 <= first <= last < states.len(),
    ensures
        states[first].next_player_id <= states[last].next_player_id,
    decreases last - first,
{
    if first < last {
        lemma_counter_rises(states, first, last - 1);
        assert(takes_step(states[last - 1], states[last]));
        lemma_step_keeps_epochs(states[last - 1], states[last], 0);
    }
}

proof fn lemma_gone_stays_gone(states: Seq<RegistryView>, first: int, last: int, id: PlayerId)
    requires
        runs(states),
        0 <= first <= last < states.len(),
        id < states[first].next_player_id,
        !states[first].players.contains_key(id),
    ensures
        !states[last].players.contains_key(id),
    decreases last - first,
{
    if first < last {
        lemma_gone_stays_gone(states, first, last - 1, id);
        lemma_counter_rises(states, first, last - 1);
        assert(takes_step(states[last - 1], states[last]));
        lemma_step_keeps_epochs(states[last - 1], states[last], id);
    }
}

proof fn lemma_epochs_rise(states: Seq<RegistryView>, first: int, last: int, id: PlayerId)
    requires
        runs(states),
        0 <= first <= last < states.len(),
        states[first].players.contains_key(id),
    ensures
        states[last].players.contains_key(id) ==> {
            let before = states[first].players[id];
            let after = states[last].players[id];
            &&& before.connection_epoch <= after.connection_epoch
            &&& !before.connected && after.connected ==> before.connection_epoch
                < after.connection_epoch
        },
    decreases last - first,
{
    if first < last {
        lemma_epochs_rise(states, first, last - 1, id);
        lemma_counter_rises(states, first, last - 1);
        assert(takes_step(states[last - 1], states[last]));
        lemma_step_keeps_epochs(states[last - 1], states[last], id);
    }
}

/// What is saved of a slot: its identity, token and epoch, and how long it may still be reclaimed.
pub proof fn law_saved_slot_tells_the_slot(registry: RegistryView, id: PlayerId, now: u64)
    ensures
        ({
            let saved = registry.recoverable(id, now);
            let slot = registry.players[id];
            &&& saved.player_id == id
            &&& saved.reconnect_token == slot.token
            &&& saved.connection_epoch == slot.connection_epoch
            &&& slot.connected ==> saved.remaining_grace_ticks == registry.reconnect_grace_ticks
            &&& !slot.connected && now <= slot.expires_at_tick ==> now
                + saved.remaining_grace_ticks == slot.expires_at_tick
            &&& !slot.connected && now > slot.expires_at_tick ==> saved.remaining_grace_ticks == 0
        }),
{
}

/// Saved slots can be restored exactly where there is a next identity, the slots fit the limit, every
/// identity was handed out before, every epoch and grace period is possible, and no identity or token
/// occurs twice.
pub proof fn law_saved_slots_are_judged(
    max_players: usize,
    reconnect_grace_ticks: u64,
    next_player_id: PlayerId,
    sessions: Seq<RecoverableSession>,
)
    ensures
        restore_refusal(max_players, reconnect_grace_ticks, next_player_id, sessions) is None <==> {
            &&& next_player_id > 0
            &&& sessions.len() <= max_players
            &&& forall|i: int|
                0 <= i < sessions.len() ==> {
                    &&& 0 < (#[trigger] sessions[i]).player_id < next_player_id
                    &&& sessions[i].connection_epoch > 0
                    &&& sessions[i].remaining_grace_ticks <= reconnect_grace_ticks
                }
            &&& forall|i: int, j: int|
                0 <= i < j < sessions.len() ==> (#[trigger] sessions[i]).player_id != (
                #[trigger] sessions[j]).player_id && sessions[i].reconnect_token
                    != sessions[j].reconnect_token
        },
{
    lemma_saved_slots_are_judged(
        next_player_id,
        reconnect_grace_ticks,
        sessions,
        sessions.len(),
    );
}

proof fn lemma_saved_slots_are_judged(
    next_player_id: PlayerId,
    reconnect_grace_ticks: u64,
    sessions: Seq<RecoverableSession>,
    count: nat,
)
    requires
        count <= sessions.len(),
    ensures
        saved_sessions_fault(next_player_id, reconnect_grace_ticks, sessions, count) is None <==> {
            &&& forall|i: int|
                0 <= i < count ==> {
                    &&& 0 < (#[trigger] sessions[i]).player_id < next_player_id
                    &&& sessions[i].connection_epoch > 0
                    &&& sessions[i].remaining_grace_ticks <= reconnect_grace_ticks
                }
            &&& forall|i: int, j: int|
                0 <= i < j < count ==> (#[trigger] sessions[i]).player_id != (
                #[trigger] sessions[j]).player_id && sessions[i].reconnect_token
                    != sessions[j].reconnect_token
        },
    decreases count,
{
    if count > 0 {
        lemma_saved_slots_are_judged(
            next_player_id,
            reconnect_grace_ticks,
            sessions,
            (count - 1) as nat,
        );
        let last = count - 1;
        assert(sessions[last] == sessions[count - 1]);
    }
}

/// The refusal of saved slots names the first rule that is broken: no next identity, too many slots, or
/// what is wrong with the first bad slot.
pub proof fn law_saved_slots_refusal_names_the_fault(
    max_players: usize,
    reconnect_grace_ticks: u64,
    next_player_id: PlayerId,
    sessions: Seq<RecoverableSession>,
)
    ensures
        ({
            let refusal = restore_refusal(
                max_players,
                reconnect_grace_ticks,
                next_player_id,
                sessions,
            );
            &&& next_player_id == 0 ==> refusal == Some(SessionRecoveryError::InvalidNextPlayerId)
            &&& next_player_id > 0 && sessions.len() > max_players ==> refusal == Some(
                SessionRecoveryError::TooManySessions {
                    maximum: max_players,
                    actual: sessions.len() as usize,
                },
            )
            &&& next_player_id > 0 && sessions.len() <= max_players && refusal is Some ==> exists|
                i: int,
            | #[trigger]
                blames_slot(reconnect_grace_ticks, next_player_id, sessions, i, refusal->0)
        }),
{
    if next_player_id > 0 && sessions.len() <= max_players {
        lemma_first_bad_slot(reconnect_grace_ticks, next_player_id, sessions, sessions.len());
    }
}

/// Whether an error is true of the saved slot at `index`.
pub open spec fn blames_slot(
    reconnect_grace_ticks: u64,
    next_player_id: PlayerId,
    sessions: Seq<RecoverableSession>,
    index: int,
    error: SessionRecoveryError,
) -> bool {
    &&& 0 <= index < sessions.len()
    &&& match error {
        SessionRecoveryError::InvalidPlayerId(id) => id == sessions[index].player_id && (id == 0
            || id >= next_player_id),
        SessionRecoveryError::InvalidConnectionEpoch(id) => id == sessions[index].player_id
            && sessions[index].connection_epoch == 0,
        SessionRecoveryError::GraceTooLong { maximum, actual } => maximum == reconnect_grace_ticks
            && actual == sessions[index].remaining_grace_ticks && actual > maximum,
        SessionRecoveryError::DuplicatePlayer(id) => id == sessions[index].player_id && exists|
            j: int,
        |
            0 <= j < index && (#[trigger] sessions[j]).player_id == id,
        SessionRecoveryError::DuplicateToken(id) => id == sessions[index].player_id && exists|
            j: int,
        |
            0 <= j < index && (#[trigger] sessions[j]).reconnect_token
                == sessions[index].reconnect_token,
        _ => false,
    }
}

proof fn lemma_first_bad_slot(
    reconnect_grace_ticks: u64,
    next_player_id: PlayerId,
    sessions: Seq<RecoverableSession>,
    count: nat,
)
    requires
        count <= sessions.len(),
    ensures
        ({
            let fault = saved_sessions_fault(
                next_player_id,
                reconnect_grace_ticks,
                sessions,
                count,
            );
            fault is Some ==> exists|i: int| #[trigger]
                blames_slot(reconnect_grace_ticks, next_player_id, sessions, i, fault->0)
        }),
    decreases count,
{
    if count > 0 {
        lemma_first_bad_slot(
            reconnect_grace_ticks,
            next_player_id,
            sessions,
            (count - 1) as nat,
        );
        let fault = saved_sessions_fault(next_player_id, reconnect_grace_ticks, sessions, count);
        let own = saved_session_fault(next_player_id, reconnect_grace_ticks, sessions, count - 1);
        if fault is Some && fault == own {
            assert(blames_slot(
                reconnect_grace_ticks,
                next_player_id,
                sessions,
                count - 1,
                fault->0,
            ));
        }
    }
}

/// Every saved slot comes back waiting, under its identity, token and epoch, with the grace period that
/// was left to it, and no other slot does.
pub proof fn law_restored_slots_tell_the_saved_ones(
    sessions: Seq<RecoverableSession>,
    current_tick: u64,
)
    requires
        forall|i: int, j: int|
            0 <= i < j < sessions.len() ==> (#[trigger] sessions[i]).player_id != (
            #[trigger] sessions[j]).player_id,
    ensures
        ({
            let players = restored_players(sessions, current_tick, sessions.len());
            &&& forall|i: int|
                0 <= i < sessions.len() ==> {
                    let slot = players[(#[trigger] sessions[i]).player_id];
                    let deadline = current_tick + sessions[i].remaining_grace_ticks;
                    &&& players.contains_key(sessions[i].player_id)
                    &&& slot.token == sessions[i].reconnect_token
                    &&& slot.connection_epoch == sessions[i].connection_epoch
                    &&& !slot.connected
                    &&& slot.expires_at_tick == if deadline <= u64::MAX {
                        deadline
                    } else {
                        u64::MAX as int
                    }
                }
            &&& forall|id: PlayerId| #[trigger]
                players.contains_key(id) ==> exists|i: int|
                    0 <= i < sessions.len() && (#[trigger] sessions[i]).player_id == id
        }),
{
    lemma_restored_slots(sessions, current_tick, sessions.len());
}

proof fn lemma_restored_slots(
    sessions: Seq<RecoverableSession>,
    current_tick: u64,
    count: nat,
)
    requires
        count <= sessions.len(),
        forall|i: int, j: int|
            0 <= i < j < sessions.len() ==> (#[trigger] sessions[i]).player_id != (
            #[trigger] sessions[j]).player_id,
    ensures
        ({
            let players = restored_players(sessions, current_tick, count);
            &&& forall|i: int|
                0 <= i < count ==> {
                    let slot = players[(#[trigger] sessions[i]).player_id];
                    let deadline = current_tick + sessions[i].remaining_grace_ticks;
                    &&& players.contains_key(sessions[i].player_id)
                    &&& slot.token == sessions[i].reconnect_token
                    &&& slot.connection_epoch == sessions[i].connection_epoch
                    &&& !slot.connected
                    &&& slot.expires_at_tick == if deadline <= u64::MAX {
                        deadline
                    } else {
                        u64::MAX as int
                    }
                }
            &&& forall|id: PlayerId| #[trigger]
                players.contains_key(id) ==> exists|i: int|
                    0 <= i < count && (#[trigger] sessions[i]).player_id == id
        }),
    decreases count,
{
    if count > 0 {
        lemma_restored_slots(sessions, current_tick, (count - 1) as nat);
        let earlier = restored_players(sessions, current_tick, (count - 1) as nat);
        let players = restored_players(sessions, current_tick, count);
        let last = sessions[count - 1];
        assert forall|id: PlayerId| #[trigger] players.contains_key(id) implies exists|i: int|
            0 <= i < count && (#[trigger] sessions[i]).player_id == id by {
            if id == last.player_id {
                assert(sessions[count - 1].player_id == id);
            } else {
                assert(earlier.contains_key(id));
            }
        }
    }
}

} // verus!
