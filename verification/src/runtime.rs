//! The authoritative match: who may connect, which commands count, when time moves, and what is
//! recorded of it.

use crate::protocol::{PlayerId, MAX_COMMAND_PAYLOAD_BYTES};
use crate::recovery::{ImageView, RecoveryError, RecoveryImage};
use crate::replay::{RecordView, ReplayError, ReplayLog, ReplayRecord};
use crate::session::{
    ReconnectToken, RegistryView, SessionError, SessionLease, SessionRegistry,
};
use crate::simulation::{GameSimulation, SimulationError, SimulationSnapshot, SnapshotScope, SnapshotView};
use crate::text::push_decimal;
use std::collections::BTreeMap;
use vstd::prelude::*;
use vstd::slice::slice_to_vec;

verus! {

broadcast use vstd::std_specs::btree::group_btree_axioms;

#[derive(Clone, Copy, Debug, Eq, PartialEq, Structural)]
pub enum CommandOutcome {
    Applied,
    IgnoredStale,
}

#[derive(Clone, Debug, Eq, PartialEq)]
pub enum RuntimeError {
    Session(SessionError),
    Simulation(SimulationError),
    StaleConnection,
    InvalidSequence,
    CommandPayloadTooLarge { maximum: usize, actual: usize },
    Draining,
    Frozen,
}

impl RuntimeError {
    /// The sentence that describes the error.
    pub open spec fn message(self) -> Seq<char> {
        match self {
            RuntimeError::Session(error) => "session error: "@ + error.message(),
            RuntimeError::Simulation(error) => "simulation error: "@ + error@,
            RuntimeError::StaleConnection => "connection no longer owns the player slot"@,
            RuntimeError::InvalidSequence => "command sequence must be non-zero"@,
            RuntimeError::CommandPayloadTooLarge { maximum, actual } => "command payload size "@
                + crate::text::decimal(actual as nat) + " exceeds maximum "@
                + crate::text::decimal(maximum as nat),
            RuntimeError::Draining => "match is draining and rejects new admissions"@,
            RuntimeError::Frozen => "match is frozen for recovery"@,
        }
    }

    pub fn to_string(&self) -> (text: String)
        ensures
            text@ == self.message(),
    {
        match self {
            RuntimeError::Session(error) => {
                let mut text = "session error: ".to_owned();
                text.push_str(error.to_string().as_str());
                text
            },
            RuntimeError::Simulation(error) => {
                let mut text = "simulation error: ".to_owned();
                text.push_str(error.to_string().as_str());
                text
            },
            RuntimeError::StaleConnection =>
                "connection no longer owns the player slot".to_owned(),
            RuntimeError::InvalidSequence => "command sequence must be non-zero".to_owned(),
            RuntimeError::CommandPayloadTooLarge { maximum, actual } => {
                let mut text = "command payload size ".to_owned();
                push_decimal(&mut text, *actual as u64);
                text.push_str(" exceeds maximum ");
                push_decimal(&mut text, *maximum as u64);
                text
            },
            RuntimeError::Draining => "match is draining and rejects new admissions".to_owned(),
            RuntimeError::Frozen => "match is frozen for recovery".to_owned(),
        }
    }
}

impl From<SessionError> for RuntimeError {
    fn from(error: SessionError) -> (converted: Self) {
        RuntimeError::Session(error)
    }
}

impl vstd::std_specs::convert::FromSpecImpl<SessionError> for RuntimeError {
    open spec fn obeys_from_spec() -> bool {
        true
    }

    open spec fn from_spec(error: SessionError) -> Self {
        RuntimeError::Session(error)
    }
}

impl From<SimulationError> for RuntimeError {
    fn from(error: SimulationError) -> (converted: Self) {
        RuntimeError::Simulation(error)
    }
}

impl vstd::std_specs::convert::FromSpecImpl<SimulationError> for RuntimeError {
    open spec fn obeys_from_spec() -> bool {
        true
    }

    open spec fn from_spec(error: SimulationError) -> Self {
        RuntimeError::Simulation(error)
    }
}

#[derive(Clone, Debug, Eq, PartialEq)]
pub enum RuntimeRecoveryError {
    ReplayCaptureDisabled,
    RuntimeNotFrozen,
    Recovery(RecoveryError),
}

impl RuntimeRecoveryError {
    /// The sentence that describes the error.
    pub open spec fn message(self) -> Seq<char> {
        match self {
            RuntimeRecoveryError::ReplayCaptureDisabled =>
                "runtime recovery requires replay capture"@,
            RuntimeRecoveryError::RuntimeNotFrozen => "runtime must be frozen before recovery"@,
            RuntimeRecoveryError::Recovery(error) => "recovery error: "@ + error.message(),
        }
    }

    pub fn to_string(&self) -> (text: String)
        ensures
            text@ == self.message(),
    {
        match self {
            RuntimeRecoveryError::ReplayCaptureDisabled =>
                "runtime recovery requires replay capture".to_owned(),
            RuntimeRecoveryError::RuntimeNotFrozen =>
                "runtime must be frozen before recovery".to_owned(),
            RuntimeRecoveryError::Recovery(error) => {
                let mut text = "recovery error: ".to_owned();
                text.push_str(error.to_string().as_str());
                text
            },
        }
    }
}

impl From<RecoveryError> for RuntimeRecoveryError {
    fn from(error: RecoveryError) -> (converted: Self) {
        RuntimeRecoveryError::Recovery(error)
    }
}

impl vstd::std_specs::convert::FromSpecImpl<RecoveryError> for RuntimeRecoveryError {
    open spec fn obeys_from_spec() -> bool {
        true
    }

    open spec fn from_spec(error: RecoveryError) -> Self {
        RuntimeRecoveryError::Recovery(error)
    }
}

/// What a runtime holds: the game, the slots, each player's last command, the captured history, and
/// whether the match drains or is frozen.
#[verifier::reject_recursive_types(S)]
#[verifier::ext_equal]
pub struct RuntimeView<S> {
    pub simulation: S,
    pub sessions: RegistryView,
    pub last_sequences: Map<PlayerId, u32>,
    pub replay: Option<Seq<RecordView>>,
    pub draining: bool,
    pub frozen: bool,
}

impl<S: GameSimulation> RuntimeView<S> {
    /// The slots are sound, and exactly the players who hold one have a command sequence.
    pub open spec fn valid(self) -> bool {
        &&& self.sessions.valid()
        &&& self.last_sequences.dom() == self.sessions.players.dom()
    }

    /// The runtime with one more event in its history, where a history is captured.
    pub open spec fn recorded(self, record: RecordView) -> RuntimeView<S> {
        RuntimeView {
            replay: match self.replay {
                Some(records) => Some(records.push(record)),
                None => None,
            },
            ..self
        }
    }

    /// The runtime with its game in another state.
    pub open spec fn with_game(self, simulation: S) -> RuntimeView<S> {
        RuntimeView { simulation, ..self }
    }

    /// The runtime without a player, the removal recorded at `tick`.
    pub open spec fn without_player(self, player_id: PlayerId, tick: u64) -> RuntimeView<S> {
        RuntimeView {
            sessions: self.sessions.without(player_id),
            last_sequences: self.last_sequences.remove(player_id),
            ..self
        }.recorded(RecordView::PlayerRemoved { tick, player_id })
    }

    /// Why a new connection is turned away before the game is asked.
    pub open spec fn admission_refusal(self, token: ReconnectToken) -> Option<RuntimeError> {
        if self.frozen {
            Some(RuntimeError::Frozen)
        } else if self.draining {
            Some(RuntimeError::Draining)
        } else if self.sessions.admit_refusal(token) is Some {
            Some(RuntimeError::Session(self.sessions.admit_refusal(token)->0))
        } else {
            None
        }
    }

    /// Why a returning connection is turned away.
    pub open spec fn reconnect_refusal(
        self,
        previous: ReconnectToken,
        replacement: ReconnectToken,
    ) -> Option<RuntimeError> {
        let refusal = self.sessions.reconnect_refusal(
            previous,
            replacement,
            self.simulation.tick(),
        );
        if self.frozen {
            Some(RuntimeError::Frozen)
        } else if refusal is Some {
            Some(RuntimeError::Session(refusal->0))
        } else {
            None
        }
    }

    /// What is decided on a command before the game is asked: an error, or that it came too late.
    pub open spec fn command_verdict(
        self,
        player_id: PlayerId,
        connection_epoch: u32,
        sequence: u32,
        payload: Seq<u8>,
    ) -> Option<Result<CommandOutcome, RuntimeError>> {
        if self.frozen {
            Some(Err(RuntimeError::Frozen))
        } else if sequence == 0 {
            Some(Err(RuntimeError::InvalidSequence))
        } else if !self.sessions.owns(player_id, connection_epoch) {
            Some(Err(RuntimeError::StaleConnection))
        } else if sequence <= self.last_sequences[player_id] {
            Some(Ok(CommandOutcome::IgnoredStale))
        } else if payload.len() > MAX_COMMAND_PAYLOAD_BYTES {
            Some(
                Err(
                    RuntimeError::CommandPayloadTooLarge {
                        maximum: MAX_COMMAND_PAYLOAD_BYTES,
                        actual: payload.len() as usize,
                    },
                ),
            )
        } else {
            None
        }
    }

    /// The slots whose grace period has passed at the game's tick, in ascending order.
    pub open spec fn expired(self) -> Seq<PlayerId> {
        crate::ordered::in_order(self.sessions.lapsed_ids(self.simulation.tick()))
    }

    /// The history that a recovery image takes along: it ends with a checkpoint of the given
    /// snapshot.
    pub open spec fn history_with_checkpoint(self, snapshot: SnapshotView) -> Seq<RecordView> {
        let records = self.replay->0;
        let checkpoint = RecordView::Checkpoint { snapshot };
        if records.len() > 0 && records.last() == checkpoint {
            records
        } else {
            records.push(checkpoint)
        }
    }
}

/// Whether asking to admit a new connection may take a runtime from `pre` to `post` with `result`.
/// An identity that the game refuses is used up all the same.
pub open spec fn admits<S: GameSimulation>(
    pre: RuntimeView<S>,
    token: ReconnectToken,
    post: RuntimeView<S>,
    result: Result<SessionLease, RuntimeError>,
) -> bool {
    let id = pre.sessions.next_player_id;
    match pre.admission_refusal(token) {
        Some(refusal) => result == Err::<SessionLease, RuntimeError>(refusal) && post == pre,
        None => match result {
            Ok(lease) => {
                &&& S::added(pre.simulation, id, post.simulation, Ok(()))
                &&& post == RuntimeView {
                    simulation: post.simulation,
                    sessions: pre.sessions.admitted(token),
                    last_sequences: pre.last_sequences.insert(id, 0),
                    ..pre
                }.recorded(
                    RecordView::PlayerAdmitted { tick: post.simulation.tick(), player_id: id },
                )
                &&& lease == post.sessions.lease(id)
            },
            Err(error) => {
                &&& error matches RuntimeError::Simulation(refusal)
                &&& S::added(pre.simulation, id, post.simulation, Err(refusal))
                &&& post == RuntimeView {
                    simulation: post.simulation,
                    sessions: pre.sessions.admitted(token).without(id),
                    ..pre
                }
            },
        },
    }
}

/// Whether asking to reconnect may take a runtime from `pre` to `post` with `result`.
pub open spec fn reconnects<S: GameSimulation>(
    pre: RuntimeView<S>,
    previous: ReconnectToken,
    replacement: ReconnectToken,
    post: RuntimeView<S>,
    result: Result<SessionLease, RuntimeError>,
) -> bool {
    match pre.reconnect_refusal(previous, replacement) {
        Some(refusal) => result == Err::<SessionLease, RuntimeError>(refusal) && post == pre,
        None => {
            &&& post == RuntimeView {
                sessions: pre.sessions.reconnected(previous, replacement),
                ..pre
            }
            &&& result == Ok::<SessionLease, RuntimeError>(
                post.sessions.lease(pre.sessions.owner(previous)),
            )
        },
    }
}

/// Whether ending a connection may take a runtime from `pre` to `post` with `ended`.
pub open spec fn disconnects<S: GameSimulation>(
    pre: RuntimeView<S>,
    player_id: PlayerId,
    connection_epoch: u32,
    post: RuntimeView<S>,
    ended: bool,
) -> bool {
    &&& ended == (!pre.frozen && pre.sessions.owns(player_id, connection_epoch))
    &&& post == if ended {
        RuntimeView {
            sessions: pre.sessions.disconnected(player_id, pre.simulation.tick()),
            ..pre
        }
    } else {
        pre
    }
}

/// Whether taking back an admission may take a runtime from `pre` to `post` with `result`.
pub open spec fn aborts<S: GameSimulation>(
    pre: RuntimeView<S>,
    player_id: PlayerId,
    connection_epoch: u32,
    post: RuntimeView<S>,
    result: Result<bool, RuntimeError>,
) -> bool {
    if pre.frozen || !pre.sessions.owns(player_id, connection_epoch) {
        result == Ok::<bool, RuntimeError>(false) && post == pre
    } else {
        match result {
            Ok(removed) => {
                &&& S::removed(pre.simulation, player_id, post.simulation, Ok(removed))
                &&& post == if removed {
                    pre.with_game(post.simulation).without_player(
                        player_id,
                        post.simulation.tick(),
                    )
                } else {
                    pre.with_game(post.simulation)
                }
            },
            Err(error) => {
                &&& error matches RuntimeError::Simulation(refusal)
                &&& S::removed(pre.simulation, player_id, post.simulation, Err(refusal))
                &&& post == pre.with_game(post.simulation)
            },
        }
    }
}

/// Whether a submitted command may take a runtime from `pre` to `post` with `result`.
pub open spec fn submits<S: GameSimulation>(
    pre: RuntimeView<S>,
    player_id: PlayerId,
    connection_epoch: u32,
    sequence: u32,
    payload: Seq<u8>,
    post: RuntimeView<S>,
    result: Result<CommandOutcome, RuntimeError>,
) -> bool {
    match pre.command_verdict(player_id, connection_epoch, sequence, payload) {
        Some(verdict) => result == verdict && post == pre,
        None => match result {
            Ok(outcome) => {
                &&& outcome == CommandOutcome::Applied
                &&& S::commanded(
                    pre.simulation,
                    player_id,
                    sequence,
                    payload,
                    post.simulation,
                    Ok(()),
                )
                &&& post == RuntimeView {
                    simulation: post.simulation,
                    last_sequences: pre.last_sequences.insert(player_id, sequence),
                    ..pre
                }.recorded(
                    RecordView::CommandApplied {
                        tick: post.simulation.tick(),
                        player_id,
                        sequence,
                        payload,
                    },
                )
            },
            Err(error) => {
                &&& error matches RuntimeError::Simulation(refusal)
                &&& S::commanded(
                    pre.simulation,
                    player_id,
                    sequence,
                    payload,
                    post.simulation,
                    Err(refusal),
                )
                &&& post == pre.with_game(post.simulation)
            },
        },
    }
}

/// Whether one expired player may leave, the removal recorded at `tick`.
pub open spec fn leaves<S: GameSimulation>(
    pre: RuntimeView<S>,
    player_id: PlayerId,
    tick: u64,
    post: RuntimeView<S>,
) -> bool {
    exists|removed: bool| #[trigger]
        S::removed(pre.simulation, player_id, post.simulation, Ok(removed)) && post
            == pre.with_game(post.simulation).without_player(player_id, tick)
}

/// Whether expired players may leave one after the other.
pub open spec fn sweeps<S: GameSimulation>(
    pre: RuntimeView<S>,
    ids: Seq<PlayerId>,
    tick: u64,
    post: RuntimeView<S>,
) -> bool
    decreases ids.len(),
{
    if ids.len() == 0 {
        post == pre
    } else {
        exists|middle: RuntimeView<S>|
            sweeps(pre, ids.drop_last(), tick, middle) && #[trigger] leaves(
                middle,
                ids.last(),
                tick,
                post,
            )
    }
}

/// Whether the game may refuse to let the expired player at `count` leave, after those before have
/// left.
pub open spec fn sweep_fails<S: GameSimulation>(
    pre: RuntimeView<S>,
    ids: Seq<PlayerId>,
    count: int,
    tick: u64,
    post: RuntimeView<S>,
    refusal: SimulationError,
) -> bool {
    &&& 0 <= count < ids.len()
    &&& exists|middle: RuntimeView<S>|
        sweeps(pre, ids.take(count), tick, middle) && #[trigger] S::removed(
            middle.simulation,
            ids[count],
            post.simulation,
            Err(refusal),
        ) && post == middle.with_game(post.simulation)
}

/// Whether a swept runtime may move one tick ahead and record a checkpoint.
pub open spec fn moves_ahead<S: GameSimulation>(
    swept: RuntimeView<S>,
    post: RuntimeView<S>,
    result: Result<SimulationSnapshot, RuntimeError>,
) -> bool {
    match result {
        Ok(snapshot) => {
            &&& S::advanced(swept.simulation, post.simulation, Ok(()))
            &&& crate::simulation::snapshots(post.simulation, Ok(snapshot))
            &&& post == swept.with_game(post.simulation).recorded(
                RecordView::Checkpoint { snapshot: snapshot@ },
            )
        },
        Err(error) => {
            &&& error matches RuntimeError::Simulation(refusal)
            &&& S::advanced(swept.simulation, post.simulation, Err(refusal)) || (S::advanced(
                swept.simulation,
                post.simulation,
                Ok(()),
            ) && crate::simulation::snapshots(post.simulation, Err(refusal)))
            &&& post == swept.with_game(post.simulation)
        },
    }
}

/// Whether one authoritative tick may take a runtime from `pre` to `post` with `result`: expired
/// players leave first, then the game moves, then a checkpoint is recorded.
pub open spec fn ticks<S: GameSimulation>(
    pre: RuntimeView<S>,
    post: RuntimeView<S>,
    result: Result<SimulationSnapshot, RuntimeError>,
) -> bool {
    let now = pre.simulation.tick();
    if pre.frozen {
        result == Err::<SimulationSnapshot, RuntimeError>(RuntimeError::Frozen) && post == pre
    } else {
        ||| exists|swept: RuntimeView<S>|
            sweeps(pre, pre.expired(), now, swept) && #[trigger] moves_ahead(swept, post, result)
        ||| exists|count: int, refusal: SimulationError| #[trigger]
            sweep_fails(pre, pre.expired(), count, now, post, refusal) && result == Err::<
                SimulationSnapshot,
                RuntimeError,
            >(RuntimeError::Simulation(refusal))
    }
}

/// Whether `image` is what a runtime leaves behind when its game shows `snapshot`.
pub open spec fn leaves_behind<S: GameSimulation>(
    runtime: RuntimeView<S>,
    snapshot: SnapshotView,
    image: ImageView,
) -> bool {
    &&& image.current_tick == snapshot.tick
    &&& image.reconnect_grace_ticks == runtime.sessions.reconnect_grace_ticks
    &&& image.records == runtime.history_with_checkpoint(snapshot)
    &&& image.next_player_id == runtime.sessions.next_player_id
    &&& runtime.sessions.saved_as(image.sessions, snapshot.tick)
    &&& image.sessions.len() == runtime.sessions.players.dom().len()
}

/// Whether asking a runtime for its recovery image may give `result`.
pub open spec fn images<S: GameSimulation>(
    runtime: RuntimeView<S>,
    result: Result<RecoveryImage, RuntimeRecoveryError>,
) -> bool {
    if !runtime.frozen {
        result == Err::<RecoveryImage, RuntimeRecoveryError>(RuntimeRecoveryError::RuntimeNotFrozen)
    } else if runtime.replay is None {
        result == Err::<RecoveryImage, RuntimeRecoveryError>(
            RuntimeRecoveryError::ReplayCaptureDisabled,
        )
    } else {
        match result {
            Ok(image) => exists|snapshot: SimulationSnapshot| #[trigger]
                crate::simulation::snapshots(runtime.simulation, Ok(snapshot)) && leaves_behind(
                    runtime,
                    snapshot@,
                    image@,
                ) && image@.refusal() is None,
            Err(error) => {
                ||| error matches RuntimeRecoveryError::Recovery(RecoveryError::Simulation(refusal))
                    && crate::simulation::snapshots(runtime.simulation, Err(refusal))
                ||| exists|snapshot: SimulationSnapshot, image: ImageView|
                    #![trigger crate::simulation::snapshots(runtime.simulation, Ok(snapshot)), leaves_behind(runtime, snapshot@, image)]
                    crate::simulation::snapshots(runtime.simulation, Ok(snapshot)) && leaves_behind(
                        runtime,
                        snapshot@,
                        image,
                    ) && image.refusal() is Some && error == RuntimeRecoveryError::Recovery(
                        image.refusal()->0,
                    )
            },
        }
    }
}

/// The runtime that an image brings back around a game.
pub open spec fn brought_back<S: GameSimulation>(
    max_players: usize,
    image: ImageView,
    simulation: S,
) -> RuntimeView<S> {
    RuntimeView {
        simulation,
        sessions: RegistryView {
            max_players,
            reconnect_grace_ticks: image.reconnect_grace_ticks,
            next_player_id: image.next_player_id,
            players: crate::session::restored_players(
                image.sessions,
                image.current_tick,
                image.sessions.len(),
            ),
        },
        last_sequences: image.sequences(),
        replay: Some(image.records),
        draining: false,
        frozen: false,
    }
}

/// Whether restoring a fresh game from an image may bring back `runtime`.
pub open spec fn restores<S: GameSimulation>(
    fresh: S,
    image: ImageView,
    runtime: RuntimeView<S>,
) -> bool {
    &&& image.refusal() is None
    &&& crate::replay::reaches(fresh, image.records, runtime.simulation)
    &&& image.arrival_fault(runtime.simulation.tick()) is None
    &&& crate::session::restore_refusal(
        fresh.capacity(),
        image.reconnect_grace_ticks,
        image.next_player_id,
        image.sessions,
    ) is None
    &&& runtime == brought_back(fresh.capacity(), image, runtime.simulation)
}

/// Whether restoring a fresh game from an image may fail with `error`.
pub open spec fn restore_fails<S: GameSimulation>(
    fresh: S,
    image: ImageView,
    error: RecoveryError,
) -> bool {
    let refusal = crate::session::restore_refusal(
        fresh.capacity(),
        image.reconnect_grace_ticks,
        image.next_player_id,
        image.sessions,
    );
    if image.refusal() is Some {
        Some(error) == image.refusal()
    } else {
        ||| exists|replay_error: ReplayError| #[trigger]
            crate::replay::fails(fresh, image.records, replay_error) && error
                == crate::recovery::interpreter_error(replay_error)
        ||| exists|state: S| #[trigger]
            crate::replay::reaches(fresh, image.records, state) && image.arrival_fault(state.tick())
                == Some(error)
        ||| exists|state: S| #[trigger]
            crate::replay::reaches(fresh, image.records, state) && image.arrival_fault(
                state.tick(),
            ) is None && refusal is Some && error == RecoveryError::Session(refusal->0)
    }
}

/// One authoritative match around a game.
#[verifier::reject_recursive_types(S)]
#[derive(Clone, Debug)]
pub struct MatchRuntime<S> {
    simulation: S,
    sessions: SessionRegistry,
    last_sequences: BTreeMap<PlayerId, u32>,
    replay: Option<ReplayLog>,
    draining: bool,
    frozen: bool,
}

impl<S> View for MatchRuntime<S> {
    type V = RuntimeView<S>;

    closed spec fn view(&self) -> RuntimeView<S> {
        RuntimeView {
            simulation: self.simulation,
            sessions: self.sessions@,
            last_sequences: self.last_sequences@,
            replay: match self.replay {
                Some(log) => Some(log@),
                None => None,
            },
            draining: self.draining,
            frozen: self.frozen,
        }
    }
}

impl<S: GameSimulation> MatchRuntime<S> {
    /// A match that keeps no history.
    pub fn new(simulation: S, reconnect_grace_ticks: u64) -> (runtime: Self)
        ensures
            runtime@.valid(),
            runtime@ == (RuntimeView {
                simulation,
                sessions: RegistryView {
                    max_players: simulation.capacity(),
                    reconnect_grace_ticks,
                    next_player_id: 1,
                    players: Map::empty(),
                },
                last_sequences: Map::empty(),
                replay: None,
                draining: false,
                frozen: false,
            }),
    {
        Self::build(simulation, reconnect_grace_ticks, false)
    }

    /// A match that captures its history.
    pub fn new_with_replay_capture(simulation: S, reconnect_grace_ticks: u64) -> (runtime: Self)
        ensures
            runtime@.valid(),
            runtime@ == (RuntimeView {
                simulation,
                sessions: RegistryView {
                    max_players: simulation.capacity(),
                    reconnect_grace_ticks,
                    next_player_id: 1,
                    players: Map::empty(),
                },
                last_sequences: Map::empty(),
                replay: Some(Seq::empty()),
                draining: false,
                frozen: false,
            }),
    {
        Self::build(simulation, reconnect_grace_ticks, true)
    }

    fn build(simulation: S, reconnect_grace_ticks: u64, capture_replay: bool) -> (runtime: Self)
        ensures
            runtime@.valid(),
            runtime@ == (RuntimeView {
                simulation,
                sessions: RegistryView {
                    max_players: simulation.capacity(),
                    reconnect_grace_ticks,
                    next_player_id: 1,
                    players: Map::empty(),
                },
                last_sequences: Map::empty(),
                replay: if capture_replay {
                    Some(Seq::empty())
                } else {
                    None
                },
                draining: false,
                frozen: false,
            }),
    {
        let max_players: usize = simulation.max_players();
        let replay = if capture_replay {
            Some(ReplayLog::default())
        } else {
            None
        };
        MatchRuntime {
            simulation,
            sessions: SessionRegistry::with_max_players(max_players, reconnect_grace_ticks),
            last_sequences: BTreeMap::new(),
            replay,
            draining: false,
            frozen: false,
        }
    }

    /// A match brought back from what it left behind, around a fresh game.
    pub fn restore_from_recovery(simulation: S, image: RecoveryImage) -> (result: Result<
        Self,
        RuntimeRecoveryError,
    >)
        ensures
            match result {
                Ok(runtime) => runtime@.valid() && restores(simulation, image@, runtime@),
                Err(error) => error matches RuntimeRecoveryError::Recovery(cause) && restore_fails(
                    simulation,
                    image@,
                    cause,
                ),
            },
    {
        if let Err(error) = image.encode() {
            return Err(RuntimeRecoveryError::Recovery(error));
        }
        let max_players: usize = simulation.max_players();
        let state = match image.restore_simulation(simulation) {
            Ok(state) => state,
            Err(error) => {
                return Err(RuntimeRecoveryError::Recovery(error));
            },
        };
        let sessions = match SessionRegistry::restore(
            max_players,
            image.reconnect_grace_ticks,
            image.current_tick,
            &image.sessions,
        ) {
            Ok(sessions) => sessions,
            Err(error) => {
                assert(crate::replay::reaches(simulation, image@.records, state));
                return Err(RuntimeRecoveryError::Recovery(RecoveryError::Session(error)));
            },
        };
        let last_sequences = image.last_sequences();
        let runtime = MatchRuntime {
            simulation: state,
            sessions,
            last_sequences,
            replay: Some(image.replay),
            draining: false,
            frozen: false,
        };
        proof {
            assert(runtime@.last_sequences.dom() =~= runtime@.sessions.players.dom());
            assert(runtime@ =~= brought_back(max_players, image@, state));
        }
        Ok(runtime)
    }

    pub fn simulation(&self) -> (simulation: &S)
        ensures
            *simulation == self@.simulation,
    {
        &self.simulation
    }

    pub fn tick_hz(&self) -> (rate: u16)
        ensures
            rate == self@.simulation.rate(),
    {
        self.simulation.tick_hz()
    }

    pub fn max_players(&self) -> (capacity: usize)
        ensures
            capacity == self@.simulation.capacity(),
    {
        self.simulation.max_players()
    }

    pub fn current_tick(&self) -> (tick: u64)
        ensures
            tick == self@.simulation.tick(),
    {
        self.simulation.current_tick()
    }

    pub fn snapshot_scope(&self) -> (scope: SnapshotScope)
        ensures
            crate::simulation::scopes(self@.simulation, scope),
    {
        self.simulation.snapshot_scope()
    }

    pub fn slot_count(&self) -> (count: usize)
        ensures
            count == self@.sessions.players.dom().len(),
    {
        self.sessions.slot_count()
    }

    pub fn active_count(&self) -> (count: usize)
        requires
            self@.valid(),
        ensures
            count == self@.sessions.active_ids().len(),
    {
        self.sessions.active_count()
    }

    pub fn is_draining(&self) -> (draining: bool)
        ensures
            draining == self@.draining,
    {
        self.draining
    }

    pub fn is_frozen(&self) -> (frozen: bool)
        ensures
            frozen == self@.frozen,
    {
        self.frozen
    }

    pub fn replay_log(&self) -> (log: Option<&ReplayLog>)
        ensures
            match log {
                Some(log) => self@.replay == Some(log@),
                None => self@.replay is None,
            },
    {
        self.replay.as_ref()
    }

    /// Turns new connections away from now on.
    pub fn begin_drain(&mut self)
        ensures
            final(self)@ == (RuntimeView { draining: true, ..old(self)@ }),
    {
        self.draining = true;
    }

    /// Stops every change, so that an image can be taken.
    pub fn freeze_for_recovery(&mut self)
        ensures
            final(self)@ == (RuntimeView { draining: true, frozen: true, ..old(self)@ }),
    {
        self.draining = true;
        self.frozen = true;
    }

    /// Goes on after an image could not be saved.
    pub fn resume_after_failed_recovery(&mut self)
        ensures
            final(self)@ == (RuntimeView { draining: false, frozen: false, ..old(self)@ }),
    {
        self.frozen = false;
        self.draining = false;
    }

    /// What a frozen match leaves behind for a restart.
    pub fn recovery_image(&self) -> (result: Result<RecoveryImage, RuntimeRecoveryError>)
        ensures
            images(self@, result),
    {
        if !self.frozen {
            return Err(RuntimeRecoveryError::RuntimeNotFrozen);
        }
        let mut replay = match &self.replay {
            Some(replay) => replay.clone(),
            None => {
                return Err(RuntimeRecoveryError::ReplayCaptureDisabled);
            },
        };
        let outcome = self.simulation.snapshot();
        assert(crate::simulation::snapshots(self@.simulation, outcome));
        let snapshot = match outcome {
            Ok(snapshot) => snapshot,
            Err(refusal) => {
                return Err(RuntimeRecoveryError::Recovery(RecoveryError::Simulation(refusal)));
            },
        };
        let records = replay.records();
        let mut checkpoint_matches = false;
        if records.len() > 0 {
            assert(replay@.last() == records@[records@.len() - 1]@);
            if let ReplayRecord::Checkpoint { snapshot: previous } = &records[records.len() - 1] {
                checkpoint_matches = previous.same_as(&snapshot);
            }
        }
        if !checkpoint_matches {
            replay.append(ReplayRecord::Checkpoint { snapshot: snapshot.clone() });
        }
        assert(replay@ == self@.history_with_checkpoint(snapshot@));
        let image = RecoveryImage {
            current_tick: snapshot.tick,
            reconnect_grace_ticks: self.sessions.reconnect_grace_ticks(),
            replay,
            sessions: self.sessions.recovery_snapshot(snapshot.tick),
        };
        assert(leaves_behind(self@, snapshot@, image@));
        match image.encode() {
            Ok(_) => Ok(image),
            Err(error) => Err(RuntimeRecoveryError::Recovery(error)),
        }
    }

    /// Admits a new connection.
    pub fn admit_player(&mut self, token: ReconnectToken) -> (result: Result<
        SessionLease,
        RuntimeError,
    >)
        requires
            old(self)@.valid(),
        ensures
            final(self)@.valid(),
            admits(old(self)@, token, final(self)@, result),
    {
        if self.frozen {
            return Err(RuntimeError::Frozen);
        }
        if self.draining {
            return Err(RuntimeError::Draining);
        }
        let lease = match self.sessions.admit_player(token) {
            Ok(lease) => lease,
            Err(error) => {
                return Err(RuntimeError::Session(error));
            },
        };
        let outcome = self.simulation.add_player(lease.player_id);
        assert(S::added(old(self)@.simulation, lease.player_id, self.simulation, outcome));
        if let Err(refusal) = outcome {
            self.sessions.remove_slot(lease.player_id);
            proof {
                let before = old(self)@.sessions;
                assert(before.admitted(token).without(lease.player_id).players =~= before.players);
            }
            return Err(RuntimeError::Simulation(refusal));
        }
        proof {
            lemma_unit_result(outcome);
        }
        self.last_sequences.insert(lease.player_id, 0);
        let tick: u64 = self.simulation.current_tick();
        self.record(ReplayRecord::PlayerAdmitted { tick, player_id: lease.player_id });
        proof {
            assert(self@.last_sequences.dom() =~= self@.sessions.players.dom());
        }
        Ok(lease)
    }

    /// Reclaims the slot of a returning player.
    pub fn reconnect(
        &mut self,
        previous_token: ReconnectToken,
        replacement_token: ReconnectToken,
    ) -> (result: Result<SessionLease, RuntimeError>)
        requires
            old(self)@.valid(),
        ensures
            final(self)@.valid(),
            reconnects(old(self)@, previous_token, replacement_token, final(self)@, result),
    {
        if self.frozen {
            return Err(RuntimeError::Frozen);
        }
        let current_tick: u64 = self.simulation.current_tick();
        match self.sessions.reconnect(previous_token, replacement_token, current_tick) {
            Ok(lease) => {
                proof {
                    let before = old(self)@.sessions;
                    assert(before.players.contains_key(before.owner(previous_token)));
                    assert(self@.sessions.players.dom() =~= before.players.dom());
                }
                Ok(lease)
            },
            Err(error) => Err(RuntimeError::Session(error)),
        }
    }

    /// Ends a connection, unless it is no longer its slot's present one.
    pub fn disconnect(&mut self, player_id: PlayerId, connection_epoch: u32) -> (ended: bool)
        requires
            old(self)@.valid(),
        ensures
            final(self)@.valid(),
            disconnects(old(self)@, player_id, connection_epoch, final(self)@, ended),
    {
        if self.frozen {
            return false;
        }
        let current_tick: u64 = self.simulation.current_tick();
        let ended = self.sessions.disconnect(player_id, connection_epoch, current_tick);
        proof {
            assert(self@.sessions.players.dom() =~= old(self)@.sessions.players.dom());
        }
        ended
    }

    /// Takes back an admission whose connection could not be welcomed.
    pub fn abort_admission(&mut self, player_id: PlayerId, connection_epoch: u32) -> (result: Result<
        bool,
        RuntimeError,
    >)
        requires
            old(self)@.valid(),
        ensures
            final(self)@.valid(),
            aborts(old(self)@, player_id, connection_epoch, final(self)@, result),
    {
        if self.frozen || !self.sessions.owns_connection(player_id, connection_epoch) {
            return Ok(false);
        }
        let outcome = self.simulation.try_remove_player(player_id);
        assert(S::removed(old(self)@.simulation, player_id, self.simulation, outcome));
        match outcome {
            Err(refusal) => {
                return Err(RuntimeError::Simulation(refusal));
            },
            Ok(removed) => {
                if !removed {
                    return Ok(false);
                }
            },
        }
        self.sessions.remove_slot(player_id);
        self.last_sequences.remove(&player_id);
        let tick: u64 = self.simulation.current_tick();
        self.record(ReplayRecord::PlayerRemoved { tick, player_id });
        proof {
            assert(self@.last_sequences.dom() =~= self@.sessions.players.dom());
        }
        Ok(true)
    }

    /// Whether a connection is its slot's present one.
    pub fn validate_connection(&self, player_id: PlayerId, connection_epoch: u32) -> (result: Result<
        (),
        RuntimeError,
    >)
        ensures
            match result {
                Ok(_) => self@.sessions.owns(player_id, connection_epoch),
                Err(error) => !self@.sessions.owns(player_id, connection_epoch) && error
                    == RuntimeError::StaleConnection,
            },
    {
        if self.sessions.owns_connection(player_id, connection_epoch) {
            Ok(())
        } else {
            Err(RuntimeError::StaleConnection)
        }
    }

    /// Decides on a command and hands it to the game.
    pub fn submit_command(
        &mut self,
        player_id: PlayerId,
        connection_epoch: u32,
        sequence: u32,
        payload: &[u8],
    ) -> (result: Result<CommandOutcome, RuntimeError>)
        requires
            old(self)@.valid(),
        ensures
            final(self)@.valid(),
            submits(
                old(self)@,
                player_id,
                connection_epoch,
                sequence,
                payload@,
                final(self)@,
                result,
            ),
    {
        if self.frozen {
            return Err(RuntimeError::Frozen);
        }
        if sequence == 0 {
            return Err(RuntimeError::InvalidSequence);
        }
        if !self.sessions.owns_connection(player_id, connection_epoch) {
            return Err(RuntimeError::StaleConnection);
        }
        assert(self@.last_sequences.dom().contains(player_id));
        let last_sequence: u32 = match self.last_sequences.get(&player_id) {
            Some(last_sequence) => *last_sequence,
            None => {
                return Err(RuntimeError::StaleConnection);
            },
        };
        if sequence <= last_sequence {
            return Ok(CommandOutcome::IgnoredStale);
        }
        if payload.len() > MAX_COMMAND_PAYLOAD_BYTES {
            return Err(
                RuntimeError::CommandPayloadTooLarge {
                    maximum: MAX_COMMAND_PAYLOAD_BYTES,
                    actual: payload.len(),
                },
            );
        }
        let outcome = self.simulation.apply_command(player_id, sequence, payload);
        assert(S::commanded(
            old(self)@.simulation,
            player_id,
            sequence,
            payload@,
            self.simulation,
            outcome,
        ));
        if let Err(refusal) = outcome {
            return Err(RuntimeError::Simulation(refusal));
        }
        proof {
            lemma_unit_result(outcome);
        }
        self.last_sequences.insert(player_id, sequence);
        proof {
            assert(self@.last_sequences.dom() =~= old(self)@.last_sequences.dom());
        }
        if self.replay.is_some() {
            let tick: u64 = self.simulation.current_tick();
            self.record(
                ReplayRecord::CommandApplied {
                    tick,
                    player_id,
                    sequence,
                    payload: slice_to_vec(payload),
                },
            );
        }
        Ok(CommandOutcome::Applied)
    }

    /// Moves the match one tick ahead.
    pub fn advance_tick(&mut self) -> (result: Result<SimulationSnapshot, RuntimeError>)
        requires
            old(self)@.valid(),
        ensures
            final(self)@.valid(),
            ticks(old(self)@, final(self)@, result),
    {
        if self.frozen {
            return Err(RuntimeError::Frozen);
        }
        let current_tick: u64 = self.simulation.current_tick();
        let expired = self.sessions.expired(current_tick);
        let ghost pre = self@;
        proof {
            crate::ordered::lemma_in_order(expired@, pre.sessions.lapsed_ids(current_tick));
            assert(expired@ == pre.expired());
        }
        let mut i: usize = 0;
        while i < expired.len()
            invariant
                i <= expired.len(),
                pre == old(self)@,
                !pre.frozen,
                expired@ == pre.expired(),
                current_tick == pre.simulation.tick(),
                self@.valid(),
                sweeps(pre, expired@.take(i as int), current_tick, self@),
            decreases expired.len() - i,
        {
            let player_id: PlayerId = expired[i];
            let ghost before = self@;
            let outcome = self.simulation.try_remove_player(player_id);
            assert(S::removed(before.simulation, player_id, self.simulation, outcome));
            let removed = match outcome {
                Ok(removed) => removed,
                Err(refusal) => {
                    proof {
                        assert(self@ == before.with_game(self@.simulation));
                        assert(sweep_fails(
                            pre,
                            pre.expired(),
                            i as int,
                            current_tick,
                            self@,
                            refusal,
                        ));
                    }
                    return Err(RuntimeError::Simulation(refusal));
                },
            };
            self.sessions.remove_slot(player_id);
            self.last_sequences.remove(&player_id);
            self.record(ReplayRecord::PlayerRemoved { tick: current_tick, player_id });
            proof {
                assert(self@.last_sequences.dom() =~= self@.sessions.players.dom());
                assert(S::removed(before.simulation, player_id, self@.simulation, Ok(removed)));
                assert(leaves(before, player_id, current_tick, self@));
                let longer = expired@.take(i + 1);
                assert(longer.drop_last() =~= expired@.take(i as int));
                assert(longer.last() == player_id);
                assert(sweeps(pre, longer, current_tick, self@));
            }
            i = i + 1;
        }
        let ghost swept = self@;
        assert(expired@.take(i as int) =~= expired@);
        let outcome = self.simulation.advance_tick();
        assert(S::advanced(swept.simulation, self.simulation, outcome));
        if let Err(refusal) = outcome {
            assert(moves_ahead(
                swept,
                self@,
                Err::<SimulationSnapshot, RuntimeError>(RuntimeError::Simulation(refusal)),
            ));
            return Err(RuntimeError::Simulation(refusal));
        }
        proof {
            lemma_unit_result(outcome);
        }
        let outcome = self.simulation.snapshot();
        assert(crate::simulation::snapshots(self@.simulation, outcome));
        let snapshot = match outcome {
            Ok(snapshot) => snapshot,
            Err(refusal) => {
                assert(moves_ahead(
                    swept,
                    self@,
                    Err::<SimulationSnapshot, RuntimeError>(RuntimeError::Simulation(refusal)),
                ));
                return Err(RuntimeError::Simulation(refusal));
            },
        };
        if self.replay.is_some() {
            self.record(ReplayRecord::Checkpoint { snapshot: snapshot.clone() });
        }
        assert(moves_ahead(swept, self@, Ok::<SimulationSnapshot, RuntimeError>(snapshot)));
        Ok(snapshot)
    }

    pub fn snapshot(&self) -> (result: Result<SimulationSnapshot, RuntimeError>)
        ensures
            match result {
                Ok(snapshot) => crate::simulation::snapshots(self@.simulation, Ok(snapshot)),
                Err(error) => error matches RuntimeError::Simulation(refusal)
                    && crate::simulation::snapshots(self@.simulation, Err(refusal)),
            },
    {
        let outcome = self.simulation.snapshot();
        assert(crate::simulation::snapshots(self@.simulation, outcome));
        match outcome {
            Ok(snapshot) => Ok(snapshot),
            Err(refusal) => Err(RuntimeError::Simulation(refusal)),
        }
    }

    pub fn snapshot_for(&self, player_id: PlayerId) -> (result: Result<
        SimulationSnapshot,
        RuntimeError,
    >)
        ensures
            match result {
                Ok(snapshot) => crate::simulation::projects(
                    self@.simulation,
                    player_id,
                    Ok(snapshot),
                ),
                Err(error) => error matches RuntimeError::Simulation(refusal)
                    && crate::simulation::projects(self@.simulation, player_id, Err(refusal)),
            },
    {
        let outcome = self.simulation.snapshot_for(player_id);
        assert(crate::simulation::projects(self@.simulation, player_id, outcome));
        match outcome {
            Ok(snapshot) => Ok(snapshot),
            Err(refusal) => Err(RuntimeError::Simulation(refusal)),
        }
    }

    fn record(&mut self, record: ReplayRecord)
        ensures
            final(self)@ == old(self)@.recorded(record@),
    {
        if let Some(replay) = &mut self.replay {
            replay.append(record);
        }
    }
}

/// The one value of an empty success.
proof fn lemma_unit_result(result: Result<(), SimulationError>)
    requires
        result is Ok,
    ensures
        result == Ok::<(), SimulationError>(()),
{
    match result {
        Ok(unit) => {
            assert(unit == ());
        },
        Err(_) => {},
    }
}

} // verus!
