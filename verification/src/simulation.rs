//! The boundary between the runtime and the game that it hosts.

use crate::protocol::{snapshot_hash, PlayerId};
use vstd::prelude::*;

verus! {

/// A game's refusal, in words.
#[derive(Clone, Debug, Eq, PartialEq)]
pub struct SimulationError {
    message: String,
}

impl View for SimulationError {
    type V = Seq<char>;

    closed spec fn view(&self) -> Seq<char> {
        self.message@
    }
}

impl SimulationError {
    /// The string that the error carries.
    pub closed spec fn carried(&self) -> String {
        self.message
    }

    /// An error that carries what `message` converts into.
    pub fn new<T: Into<String>>(message: T) -> (error: Self)
        ensures
            call_ensures(T::into, (message,), error.carried()),
            error@ == error.carried()@,
    {
        SimulationError { message: message.into() }
    }

    /// An error with the given words.
    pub fn in_words(message: String) -> (error: Self)
        ensures
            error@ == message@,
    {
        SimulationError { message }
    }

    pub fn to_string(&self) -> (text: String)
        ensures
            text@ == self@,
    {
        self.message.clone()
    }

    /// The same error again.
    pub fn copied(&self) -> (error: Self)
        ensures
            error == *self,
    {
        SimulationError { message: self.message.clone() }
    }
}

/// What a snapshot shows: a tick, the hash that binds the payload to it, and the payload.
#[verifier::ext_equal]
pub struct SnapshotView {
    pub tick: u64,
    pub state_hash: u64,
    pub payload: Seq<u8>,
}

#[derive(Debug, Eq, PartialEq)]
pub struct SimulationSnapshot {
    pub tick: u64,
    pub state_hash: u64,
    pub payload: Vec<u8>,
}

impl View for SimulationSnapshot {
    type V = SnapshotView;

    open spec fn view(&self) -> SnapshotView {
        SnapshotView { tick: self.tick, state_hash: self.state_hash, payload: self.payload@ }
    }
}

impl Clone for SimulationSnapshot {
    fn clone(&self) -> (copy: Self)
        ensures
            copy@ == self@,
    {
        let payload = self.payload.clone();
        assert(payload@ =~= self.payload@);
        SimulationSnapshot { tick: self.tick, state_hash: self.state_hash, payload }
    }
}

impl SimulationSnapshot {
    /// A snapshot of `payload` at `tick`, bound by its hash.
    pub fn new(tick: u64, payload: Vec<u8>) -> (snapshot: Self)
        ensures
            snapshot@ == (SnapshotView {
                tick,
                state_hash: crate::protocol::snapshot_digest(tick, payload@),
                payload: payload@,
            }),
    {
        SimulationSnapshot { tick, state_hash: snapshot_hash(tick, payload.as_slice()), payload }
    }

    /// Whether two snapshots show the same.
    pub fn same_as(&self, other: &Self) -> (same: bool)
        ensures
            same == (self@ == other@),
    {
        self.tick == other.tick && self.state_hash == other.state_hash && crate::wire::same_bytes(
            self.payload.as_slice(),
            other.payload.as_slice(),
        )
    }
}

#[derive(Clone, Copy, Debug, Eq, PartialEq, Structural)]
pub enum SnapshotScope {
    /// Every player may see the same snapshot.
    Shared,
    /// Each player sees a projection of its own.
    PlayerScoped,
}

/// Whether a game that gives no account of a value may report it: always.
pub open spec fn may_report<S, T>(game: S, value: T) -> bool {
    true
}

/// What a game reports that gives no account of it: some value, by the game's state alone.
pub open spec fn unaccounted<S, T>(game: S) -> T {
    choose|value: T| #[trigger] may_report(game, value)
}

/// A game that the runtime drives.
///
/// The specification functions are the game's own account of its behaviour: the values that its
/// getters return, and for each operation which states and results may follow a state. The
/// contracts of the runtime are stated over them. A game that gives no account of an operation says
/// that anything may follow.
pub trait GameSimulation: Send + Sized + 'static {
    /// The tick rate that `tick_hz` reports.
    open spec fn rate(&self) -> u16 {
        unaccounted(*self)
    }

    /// The player limit that `max_players` reports.
    open spec fn capacity(&self) -> usize {
        unaccounted(*self)
    }

    /// The tick that `current_tick` reports.
    open spec fn tick(&self) -> u64 {
        unaccounted(*self)
    }

    /// Whether a player takes part in the game.
    open spec fn present(&self, player_id: PlayerId) -> bool {
        true
    }

    /// Whether two states cannot be told apart.
    open spec fn alike(a: Self, b: Self) -> bool {
        a == b
    }

    /// Whether adding a player to `pre` may leave `post` and return `result`.
    open spec fn added(
        pre: Self,
        player_id: PlayerId,
        post: Self,
        result: Result<(), SimulationError>,
    ) -> bool {
        true
    }

    /// Whether removing a player from `pre` may leave `post` and return `result`.
    open spec fn removed(
        pre: Self,
        player_id: PlayerId,
        post: Self,
        result: Result<bool, SimulationError>,
    ) -> bool {
        true
    }

    /// Whether a command given to `pre` may leave `post` and return `result`.
    open spec fn commanded(
        pre: Self,
        player_id: PlayerId,
        sequence: u32,
        payload: Seq<u8>,
        post: Self,
        result: Result<(), SimulationError>,
    ) -> bool {
        true
    }

    /// Whether one tick from `pre` may leave `post` and return `result`.
    open spec fn advanced(pre: Self, post: Self, result: Result<(), SimulationError>) -> bool {
        true
    }

    fn tick_hz(&self) -> (rate: u16)
        ensures
            rate == self.rate(),
    ;

    fn max_players(&self) -> (capacity: usize)
        ensures
            capacity == self.capacity(),
    ;

    fn current_tick(&self) -> (tick: u64)
        ensures
            tick == self.tick(),
    ;

    fn add_player(&mut self, player_id: PlayerId) -> (result: Result<(), SimulationError>)
        ensures
            Self::added(*old(self), player_id, *final(self), result),
    ;

    /// Removes a player. Where the game keeps its players itself, the answer tells how the removal
    /// ended; a game that keeps them elsewhere cannot tell here that its removal failed.
    fn remove_player(&mut self, player_id: PlayerId) -> (removed: bool)
        ensures
            call_ensures(
                Self::remove_elsewhere,
                (&*old(self), player_id),
                None::<Result<bool, SimulationError>>,
            ) ==> Self::removed(*old(self), player_id, *final(self), Ok(removed)),
    ;

    /// Asks for a removal where the game's players are kept elsewhere, and tells how it ended. A game
    /// that keeps its players itself keeps this default.
    fn remove_elsewhere(&self, player_id: PlayerId) -> (ended: Option<
        Result<bool, SimulationError>,
    >)
        ensures
            ended matches Some(result) ==> Self::removed(*self, player_id, *self, result),
        default_ensures
            ended is None,
    {
        None
    }

    /// Removes a player where the removal itself can fail. A game whose removal always succeeds
    /// keeps this default.
    fn try_remove_player(&mut self, player_id: PlayerId) -> (result: Result<bool, SimulationError>)
        ensures
            Self::removed(*old(self), player_id, *final(self), result),
    {
        match self.remove_elsewhere(player_id) {
            Some(result) => result,
            None => Ok(self.remove_player(player_id)),
        }
    }

    fn apply_command(
        &mut self,
        player_id: PlayerId,
        sequence: u32,
        payload: &[u8],
    ) -> (result: Result<(), SimulationError>)
        ensures
            Self::commanded(*old(self), player_id, sequence, payload@, *final(self), result),
    ;

    fn advance_tick(&mut self) -> (result: Result<(), SimulationError>)
        ensures
            Self::advanced(*old(self), *final(self), result),
    ;

    fn snapshot_scope(&self) -> (scope: SnapshotScope)
        default_ensures
            scope == SnapshotScope::Shared,
    {
        SnapshotScope::Shared
    }

    fn snapshot(&self) -> Result<SimulationSnapshot, SimulationError>;

    /// The projection for one player. The default fails closed.
    fn snapshot_for(&self, player_id: PlayerId) -> (result: Result<
        SimulationSnapshot,
        SimulationError,
    >)
        default_ensures
            result matches Err(error) && error@
                == "player-scoped snapshots require an explicit per-player projection"@,
    {
        Err(
            SimulationError::in_words(
                "player-scoped snapshots require an explicit per-player projection".to_owned(),
            ),
        )
    }
}

/// Whether what a game takes for alike is an equivalence, and states that are alike stand at the same
/// tick.
pub open spec fn likeness_is_sound<S: GameSimulation>() -> bool {
    &&& forall|a: S| #[trigger] S::alike(a, a)
    &&& forall|a: S, b: S| #[trigger] S::alike(a, b) ==> S::alike(b, a) && a.tick() == b.tick()
    &&& forall|a: S, b: S, c: S| #[trigger]
        S::alike(a, b) && #[trigger] S::alike(b, c) ==> S::alike(a, c)
}

/// Whether a game's canonical snapshot may come out as `result`.
pub open spec fn snapshots<S: GameSimulation>(
    game: S,
    result: Result<SimulationSnapshot, SimulationError>,
) -> bool {
    call_ensures(S::snapshot, (&game,), result)
}

/// Whether a game's projection for one player may come out as `result`.
pub open spec fn projects<S: GameSimulation>(
    game: S,
    player_id: PlayerId,
    result: Result<SimulationSnapshot, SimulationError>,
) -> bool {
    call_ensures(S::snapshot_for, (&game, player_id), result)
}

/// Whether a game may report `scope` as the visibility of its snapshots.
pub open spec fn scopes<S: GameSimulation>(game: S, scope: SnapshotScope) -> bool {
    call_ensures(S::snapshot_scope, (&game,), scope)
}

} // verus!
