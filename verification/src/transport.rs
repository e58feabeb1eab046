//! One match behind one listener: its configuration, its routes, how it starts, ticks and shuts down.

use crate::connection::{snapshot_publication, AdmissionRequest, SnapshotPublication};
use crate::recovery::{ImageView, RecoveryError, RecoveryImage};
use crate::replay::RecordView;
use crate::runtime::{MatchRuntime, RuntimeError, RuntimeRecoveryError, RuntimeView};
use crate::session::{ReconnectToken, RegistryView};
use crate::simulation::{GameSimulation, SimulationSnapshot, SnapshotScope};
use crate::text::{characters, chars_begin_with, push_decimal, same_text, text_of};
use std::path::PathBuf;
use std::time::Duration;
use vstd::prelude::*;
use vstd::string::*;

verus! {

/// `std::path::PathBuf`, a path in the file system. It is only carried.
#[verifier::external_type_specification]
#[verifier::external_body]
pub struct ExPathBuf(std::path::PathBuf);

/// `PathBuf`'s `Clone`: a duplicate of the path.
pub assume_specification[ <PathBuf as Clone>::clone ](path: &PathBuf) -> (copy: PathBuf)
    ensures
        copy == *path,
;

#[derive(Debug)]
pub struct WebTransportConfig {
    pub port: u16,
    pub certificate_pem: PathBuf,
    pub private_key_pem: PathBuf,
    pub session_path: String,
    pub recovery_path: Option<PathBuf>,
    pub drain_grace: Duration,
}

impl Clone for WebTransportConfig {
    fn clone(&self) -> (copy: Self)
        ensures
            copy == *self,
    {
        WebTransportConfig {
            port: self.port,
            certificate_pem: self.certificate_pem.clone(),
            private_key_pem: self.private_key_pem.clone(),
            session_path: self.session_path.clone(),
            recovery_path: match &self.recovery_path {
                Some(path) => Some(path.clone()),
                None => None,
            },
            drain_grace: self.drain_grace,
        }
    }
}

/// The path of a returning player below a session path.
pub open spec fn reconnect_route(session_path: Seq<char>, token: Seq<u8>) -> Seq<char> {
    session_path + "/reconnect/"@ + crate::session::hex_text(token)
}

impl WebTransportConfig {
    pub fn reconnect_path(&self, token: ReconnectToken) -> (path: String)
        ensures
            path@ == reconnect_route(self.session_path@, token.0@),
    {
        let mut path = self.session_path.clone();
        path.push_str("/reconnect/");
        path.push_str(token.encode_hex().as_str());
        path
    }
}

#[derive(Debug)]
pub enum TransportError {
    Identity(String),
    Endpoint(String),
    Recovery(String),
    InvalidTickRate,
    PlayerCapacityTooLarge(usize),
}

impl TransportError {
    /// The sentence that describes the error.
    pub open spec fn message(self) -> Seq<char> {
        match self {
            TransportError::Identity(error) => "TLS identity error: "@ + error@,
            TransportError::Endpoint(error) => "WebTransport endpoint error: "@ + error@,
            TransportError::Recovery(error) => "recovery error: "@ + error@,
            TransportError::InvalidTickRate => "simulation tick rate must be non-zero"@,
            TransportError::PlayerCapacityTooLarge(capacity) => "player capacity "@
                + crate::text::decimal(capacity as nat) + " exceeds wire limit"@,
        }
    }

    pub fn to_string(&self) -> (text: String)
        ensures
            text@ == self.message(),
    {
        match self {
            TransportError::Identity(error) => {
                let mut text = "TLS identity error: ".to_owned();
                text.push_str(error.as_str());
                text
            },
            TransportError::Endpoint(error) => {
                let mut text = "WebTransport endpoint error: ".to_owned();
                text.push_str(error.as_str());
                text
            },
            TransportError::Recovery(error) => {
                let mut text = "recovery error: ".to_owned();
                text.push_str(error.as_str());
                text
            },
            TransportError::InvalidTickRate => "simulation tick rate must be non-zero".to_owned(),
            TransportError::PlayerCapacityTooLarge(capacity) => {
                let mut text = "player capacity ".to_owned();
                push_decimal(&mut text, *capacity as u64);
                text.push_str(" exceeds wire limit");
                text
            },
        }
    }
}

/// Why a game cannot be served, if it cannot.
pub open spec fn serving_fault<S: GameSimulation>(simulation: S) -> Option<TransportError> {
    if simulation.rate() == 0 {
        Some(TransportError::InvalidTickRate)
    } else if simulation.capacity() > u16::MAX {
        Some(TransportError::PlayerCapacityTooLarge(simulation.capacity()))
    } else {
        None
    }
}

/// Checks that a game can be served.
pub fn validate_simulation<S: GameSimulation>(simulation: &S) -> (result: Result<
    (),
    TransportError,
>)
    ensures
        match result {
            Ok(_) => serving_fault(*simulation) is None,
            Err(error) => serving_fault(*simulation) == Some(error),
        },
{
    if simulation.tick_hz() == 0 {
        return Err(TransportError::InvalidTickRate);
    }
    let capacity: usize = simulation.max_players();
    if capacity > 65535 {
        return Err(TransportError::PlayerCapacityTooLarge(capacity));
    }
    Ok(())
}

/// The time between two ticks, in microseconds.
pub fn tick_interval_micros(tick_hz: u16) -> (micros: u64)
    requires
        tick_hz > 0,
    ensures
        micros == 1_000_000int / tick_hz as int,
{
    1_000_000 / (tick_hz as u64)
}

/// What a path asks for below a session path: a new session (an empty answer inside), the slot of
/// a token, or nothing that is served.
pub open spec fn path_meaning(path: Seq<char>, session_path: Seq<char>) -> Option<Option<Seq<u8>>> {
    let prefix = session_path + "/reconnect/"@;
    if path == session_path {
        Some(None)
    } else if !crate::text::begins_with(path, prefix) {
        None
    } else {
        match crate::session::hex_token(
            vstd::utf8::encode_utf8(path.skip(prefix.len() as int)),
        ) {
            Some(token) => Some(Some(token)),
            None => None,
        }
    }
}

/// What an admission asks for.
pub open spec fn admission_meaning(admission: Option<AdmissionRequest>) -> Option<
    Option<Seq<u8>>,
> {
    match admission {
        Some(AdmissionRequest::New) => Some(None),
        Some(AdmissionRequest::Reconnect(token)) => Some(Some(token.0@)),
        None => None,
    }
}

/// Reads what a path asks for.
pub fn parse_admission_request(path: &str, session_path: &str) -> (admission: Option<
    AdmissionRequest,
>)
    ensures
        admission_meaning(admission) == path_meaning(path@, session_path@),
{
    if same_text(path, session_path) {
        return Some(AdmissionRequest::New);
    }
    let mut prefix = session_path.to_owned();
    prefix.push_str("/reconnect/");
    let chars = characters(path);
    if !chars_begin_with(chars.as_slice(), prefix.as_str()) {
        return None;
    }
    let skipped: usize = characters(prefix.as_str()).len();
    let token = text_of(chars.as_slice(), skipped, chars.len());
    assert(token@ =~= path@.skip(prefix@.len() as int));
    match ReconnectToken::decode_hex(token.as_str()) {
        Some(token) => Some(AdmissionRequest::Reconnect(token)),
        None => None,
    }
}

/// A session path asks for a new session, and a returning player's path for that player's slot.
pub proof fn law_session_routes_round_trip(session_path: Seq<char>, token: ReconnectToken)
    ensures
        path_meaning(session_path, session_path) == Some(None::<Seq<u8>>),
        path_meaning(reconnect_route(session_path, token.0@), session_path) == Some(
            Some(token.0@),
        ),
{
    let prefix = session_path + "/reconnect/"@;
    let path = reconnect_route(session_path, token.0@);
    reveal_strlit("/reconnect/");
    assert(path.len() > session_path.len());
    assert(path.take(prefix.len() as int) =~= prefix);
    assert(path.skip(prefix.len() as int) =~= crate::session::hex_text(token.0@));
    crate::session::law_token_hex_round_trip(token);
}

/// What a look at the recovery path found.
#[derive(Clone, Debug, Eq, PartialEq)]
pub enum StoredRecovery {
    /// No path was configured.
    NotConfigured,
    /// Nothing is there.
    Missing,
    /// These bytes are there.
    Present(Vec<u8>),
    /// Something is there that could not be read.
    Unreadable(String),
}

/// The match around a game that starts anew.
pub open spec fn started_anew<S: GameSimulation>(
    simulation: S,
    reconnect_grace_ticks: u64,
    captures: bool,
) -> RuntimeView<S> {
    RuntimeView {
        simulation,
        sessions: RegistryView {
            max_players: simulation.capacity(),
            reconnect_grace_ticks,
            next_player_id: 1,
            players: Map::empty(),
        },
        last_sequences: Map::empty(),
        replay: if captures {
            Some(Seq::<RecordView>::empty())
        } else {
            None
        },
        draining: false,
        frozen: false,
    }
}

/// Whether a match may come back from stored bytes as `runtime`.
pub open spec fn comes_back<S: GameSimulation>(
    simulation: S,
    bytes: Seq<u8>,
    runtime: RuntimeView<S>,
) -> bool {
    exists|image: ImageView| #[trigger]
        image.bytes() == bytes && crate::runtime::restores(simulation, image, runtime)
}

/// Whether bringing a match back from stored bytes may fail with these words: the bytes cannot be
/// read, or what they hold cannot be restored.
pub open spec fn stays_away<S: GameSimulation>(
    simulation: S,
    bytes: Seq<u8>,
    words: Seq<char>,
) -> bool {
    ||| exists|error: RecoveryError| #[trigger]
        crate::recovery::unreadable(bytes, error) && words == error.message()
    ||| exists|image: ImageView, cause: RecoveryError|
        #![trigger image.bytes(), crate::runtime::restore_fails(simulation, image, cause)]
        image.bytes() == bytes && image.refusal() is None && crate::runtime::restore_fails(
            simulation,
            image,
            cause,
        ) && words == RuntimeRecoveryError::Recovery(cause).message()
}

/// Whether a match may start as `result`, given what was stored.
pub open spec fn starts<S: GameSimulation>(
    simulation: S,
    reconnect_grace_ticks: u64,
    stored: StoredRecovery,
    result: Result<MatchRuntime<S>, TransportError>,
) -> bool {
    match stored {
        StoredRecovery::NotConfigured => result matches Ok(runtime) && runtime@ == started_anew(
            simulation,
            reconnect_grace_ticks,
            false,
        ),
        StoredRecovery::Missing => result matches Ok(runtime) && runtime@ == started_anew(
            simulation,
            reconnect_grace_ticks,
            true,
        ),
        StoredRecovery::Present(bytes) => match result {
            Ok(runtime) => comes_back(simulation, bytes@, runtime@),
            Err(TransportError::Recovery(text)) => stays_away(simulation, bytes@, text@),
            Err(_) => false,
        },
        StoredRecovery::Unreadable(error) => result == Err::<MatchRuntime<S>, _>(
            TransportError::Recovery(error),
        ),
    }
}

/// Starts a match: from what was stored where there is something, and otherwise anew, with its
/// history captured wherever it could be stored.
pub fn start_runtime<S: GameSimulation>(
    simulation: S,
    reconnect_grace_ticks: u64,
    stored: StoredRecovery,
) -> (result: Result<MatchRuntime<S>, TransportError>)
    ensures
        result matches Ok(runtime) ==> runtime@.valid(),
        starts(simulation, reconnect_grace_ticks, stored, result),
{
    match stored {
        StoredRecovery::NotConfigured => Ok(
            MatchRuntime::new(simulation, reconnect_grace_ticks),
        ),
        StoredRecovery::Missing => Ok(
            MatchRuntime::new_with_replay_capture(simulation, reconnect_grace_ticks),
        ),
        StoredRecovery::Present(bytes) => {
            let image = match RecoveryImage::decode(bytes.as_slice()) {
                Ok(image) => image,
                Err(error) => {
                    assert(crate::recovery::unreadable(bytes@, error));
                    return Err(TransportError::Recovery(error.to_string()));
                },
            };
            let ghost shown = image@;
            assert(shown.bytes() == bytes@);
            match MatchRuntime::restore_from_recovery(simulation, image) {
                Ok(runtime) => Ok(runtime),
                Err(error) => {
                    assert(crate::runtime::restore_fails(
                        simulation,
                        shown,
                        error->Recovery_0,
                    ));
                    Err(TransportError::Recovery(error.to_string()))
                },
            }
        },
        StoredRecovery::Unreadable(error) => Err(TransportError::Recovery(error)),
    }
}

/// What one tick of the clock leads to.
#[derive(Clone, Debug, Eq, PartialEq)]
pub enum TickOutcome {
    /// Something to publish.
    Publish(SnapshotPublication),
    /// The match is frozen: nothing.
    Idle,
    /// The match did not tick, for this reason.
    Failed(String),
    /// The match ticked, but its snapshot does not fit a frame, for this reason.
    Unpublishable(String),
}

/// Whether a snapshot under one of the game's scopes is published as `outcome`.
pub open spec fn published(
    scope: SnapshotScope,
    snapshot: SimulationSnapshot,
    outcome: TickOutcome,
) -> bool {
    match scope {
        SnapshotScope::PlayerScoped => outcome == TickOutcome::Publish(
            SnapshotPublication::PlayerScoped,
        ),
        SnapshotScope::Shared => match outcome {
            TickOutcome::Publish(SnapshotPublication::Shared(bytes)) => crate::connection::frames(
                snapshot@,
                Ok((*bytes)@),
            ),
            TickOutcome::Unpublishable(text) => crate::connection::frames(snapshot@, Err(text@)),
            _ => false,
        },
    }
}

/// Whether the result of a tick that left `post` leads to `outcome`.
pub open spec fn tick_leads_to<S: GameSimulation>(
    post: RuntimeView<S>,
    result: Result<SimulationSnapshot, RuntimeError>,
    outcome: TickOutcome,
) -> bool {
    match result {
        Ok(snapshot) => exists|scope: SnapshotScope| #[trigger]
            crate::simulation::scopes(post.simulation, scope) && published(
                scope,
                snapshot,
                outcome,
            ),
        Err(RuntimeError::Frozen) => outcome == TickOutcome::Idle,
        Err(error) => outcome matches TickOutcome::Failed(text) && text@ == error.message(),
    }
}

/// Moves a match one tick ahead and says what to publish.
pub fn publish_tick<S: GameSimulation>(runtime: &mut MatchRuntime<S>) -> (outcome: TickOutcome)
    requires
        old(runtime)@.valid(),
    ensures
        final(runtime)@.valid(),
        exists|result: Result<SimulationSnapshot, RuntimeError>| #[trigger]
            crate::runtime::ticks(old(runtime)@, final(runtime)@, result) && tick_leads_to(
                final(runtime)@,
                result,
                outcome,
            ),
{
    let result = runtime.advance_tick();
    let ghost happened = result;
    assert(crate::runtime::ticks(old(runtime)@, runtime@, happened));
    match result {
        Ok(snapshot) => {
            let scope = runtime.snapshot_scope();
            assert(crate::simulation::scopes(runtime@.simulation, scope));
            match snapshot_publication(scope, snapshot) {
                Ok(publication) => {
                    let outcome = TickOutcome::Publish(publication);
                    assert(tick_leads_to(runtime@, happened, outcome));
                    outcome
                },
                Err(text) => {
                    let outcome = TickOutcome::Unpublishable(text);
                    assert(tick_leads_to(runtime@, happened, outcome));
                    outcome
                },
            }
        },
        Err(RuntimeError::Frozen) => {
            assert(tick_leads_to(runtime@, happened, TickOutcome::Idle));
            TickOutcome::Idle
        },
        Err(error) => {
            let outcome = TickOutcome::Failed(error.to_string());
            assert(tick_leads_to(runtime@, happened, outcome));
            outcome
        },
    }
}

/// Whether freezing a match for its image may take it from `pre` to `post` with `result`: one that
/// cannot leave the image that is wanted goes on.
pub open spec fn freezes<S: GameSimulation>(
    pre: RuntimeView<S>,
    wanted: bool,
    post: RuntimeView<S>,
    result: Result<Option<RecoveryImage>, String>,
) -> bool {
    let frozen = RuntimeView { draining: true, frozen: true, ..pre };
    if !wanted {
        result == Ok::<Option<RecoveryImage>, String>(None) && post == frozen
    } else {
        exists|outcome: Result<RecoveryImage, RuntimeRecoveryError>| #[trigger]
            crate::runtime::images(frozen, outcome) && match outcome {
                Ok(image) => result == Ok::<Option<RecoveryImage>, String>(Some(image)) && post
                    == frozen,
                Err(error) => (result matches Err(text) && text@ == error.message()) && post == (
                RuntimeView { draining: false, frozen: false, ..pre }),
            }
    }
}

/// Freezes a match and takes its image, where one is wanted.
pub fn freeze_and_image<S: GameSimulation>(runtime: &mut MatchRuntime<S>, wanted: bool) -> (result:
    Result<Option<RecoveryImage>, String>)
    requires
        old(runtime)@.valid(),
    ensures
        final(runtime)@.valid(),
        freezes(old(runtime)@, wanted, final(runtime)@, result),
{
    runtime.freeze_for_recovery();
    if !wanted {
        return Ok(None);
    }
    let ghost frozen = runtime@;
    let outcome = runtime.recovery_image();
    assert(crate::runtime::images(frozen, outcome));
    match outcome {
        Ok(image) => Ok(Some(image)),
        Err(error) => {
            runtime.resume_after_failed_recovery();
            Err(error.to_string())
        },
    }
}

#[derive(Clone, Copy, Debug, Eq, PartialEq, Structural)]
pub enum ServePhase {
    Serving,
    Draining,
    Persisting,
    Stopped,
}

/// Where a listener stands, and whether shutdown requests can still come.
#[derive(Clone, Copy, Debug, Eq, PartialEq, Structural)]
pub struct ServeState {
    pub phase: ServePhase,
    pub shutdown_open: bool,
}

#[derive(Clone, Copy, Debug, Eq, PartialEq, Structural)]
pub enum ServeEvent {
    ShutdownRequested,
    ShutdownSourceClosed,
    DrainElapsed,
    RecoveryPersisted,
    RecoveryFailed,
}

#[derive(Clone, Copy, Debug, Eq, PartialEq, Structural)]
pub enum ServeAction {
    Wait,
    BeginDrain,
    PersistRecovery,
    StopServing,
    ResumeServing,
}

impl ServeState {
    /// A listener that has just begun to serve.
    pub fn started() -> (state: Self)
        ensures
            state == (ServeState { phase: ServePhase::Serving, shutdown_open: true }),
    {
        ServeState { phase: ServePhase::Serving, shutdown_open: true }
    }

    /// Whether a shutdown request would be taken now.
    pub fn listens_for_shutdown(self) -> (listens: bool)
        ensures
            listens == (self.phase == ServePhase::Serving && self.shutdown_open),
    {
        self.phase == ServePhase::Serving && self.shutdown_open
    }

    /// The state after an event, and what to do about it. A request drains, the end of the drain
    /// saves, and only what has been saved stops; a failed save serves on. Events out of turn
    /// change nothing.
    pub open spec fn after(self, event: ServeEvent) -> (ServeState, ServeAction) {
        if self.phase == ServePhase::Serving && self.shutdown_open
            && event == ServeEvent::ShutdownRequested {
            (ServeState { phase: ServePhase::Draining, ..self }, ServeAction::BeginDrain)
        } else if self.phase == ServePhase::Serving && event == ServeEvent::ShutdownSourceClosed {
            (ServeState { shutdown_open: false, ..self }, ServeAction::Wait)
        } else if self.phase == ServePhase::Draining && event == ServeEvent::DrainElapsed {
            (ServeState { phase: ServePhase::Persisting, ..self }, ServeAction::PersistRecovery)
        } else if self.phase == ServePhase::Persisting && event == ServeEvent::RecoveryPersisted {
            (ServeState { phase: ServePhase::Stopped, ..self }, ServeAction::StopServing)
        } else if self.phase == ServePhase::Persisting && event == ServeEvent::RecoveryFailed {
            (ServeState { phase: ServePhase::Serving, ..self }, ServeAction::ResumeServing)
        } else {
            (self, ServeAction::Wait)
        }
    }

    /// Takes one step of the listener's life.
    pub fn step(&mut self, event: ServeEvent) -> (action: ServeAction)
        ensures
            (*final(self), action) == old(self).after(event),
    {
        match (self.phase, event) {
            (ServePhase::Serving, ServeEvent::ShutdownRequested) => {
                if self.shutdown_open {
                    self.phase = ServePhase::Draining;
                    ServeAction::BeginDrain
                } else {
                    ServeAction::Wait
                }
            },
            (ServePhase::Serving, ServeEvent::ShutdownSourceClosed) => {
                self.shutdown_open = false;
                ServeAction::Wait
            },
            (ServePhase::Draining, ServeEvent::DrainElapsed) => {
                self.phase = ServePhase::Persisting;
                ServeAction::PersistRecovery
            },
            (ServePhase::Persisting, ServeEvent::RecoveryPersisted) => {
                self.phase = ServePhase::Stopped;
                ServeAction::StopServing
            },
            (ServePhase::Persisting, ServeEvent::RecoveryFailed) => {
                self.phase = ServePhase::Serving;
                ServeAction::ResumeServing
            },
            _ => ServeAction::Wait,
        }
    }
}

/// The state of a listener after a run of events.
pub open spec fn after_all(state: ServeState, events: Seq<ServeEvent>) -> ServeState
    decreases events.len(),
{
    if events.len() == 0 {
        state
    } else {
        after_all(state, events.drop_last()).after(events.last()).0
    }
}

/// A listener that has stopped has seen a shutdown request, the end of a drain and a save that
/// succeeded; one that saves has seen the first two, and one that drains the first.
pub proof fn law_nothing_stops_unsaved(events: Seq<ServeEvent>)
    ensures
        ({
            let state = after_all(
                ServeState { phase: ServePhase::Serving, shutdown_open: true },
                events,
            );
            &&& state.phase == ServePhase::Draining ==> events.contains(
                ServeEvent::ShutdownRequested,
            )
            &&& state.phase == ServePhase::Persisting ==> events.contains(
                ServeEvent::ShutdownRequested,
            ) && events.contains(ServeEvent::DrainElapsed)
            &&& state.phase == ServePhase::Stopped ==> events.contains(
                ServeEvent::ShutdownRequested,
            ) && events.contains(ServeEvent::DrainElapsed) && events.contains(
                ServeEvent::RecoveryPersisted,
            )
        }),
    decreases events.len(),
{
    if events.len() > 0 {
        let earlier = events.drop_last();
        law_nothing_stops_unsaved(earlier);
        assert forall|event: ServeEvent| #[trigger] earlier.contains(event) implies events.contains(
            event,
        ) by {
            let i = choose|i: int| 0 <= i < earlier.len() && earlier[i] == event;
            assert(events[i] == event);
        }
        assert(events[events.len() - 1] == events.last());
        assert(events.contains(events.last()));
    }
}

} // verus!
