//! Server-authoritative match runtime: wire protocols, sessions, replay evidence, restart
//! recovery and match hosting, with every rule stated as a contract and proved.
//!
//! What holds beyond single calls stands in modules of its own: `conduct` and `evidence` on a
//! match, `history` on what it records, `outside` on games that live elsewhere, `course` on the
//! reference game, `passage` on connections, `hosting` on several matches, `framing` on bytes and
//! words, and `promises` on how calls relate.

pub mod browser;
pub mod client;
pub mod conduct;
pub mod connection;
pub mod control;
pub mod course;
pub mod evidence;
pub mod external_simulation;
pub mod framing;
pub mod history;
pub mod host;
pub mod host_recovery;
pub mod host_status;
pub mod host_transport;
pub mod hosting;
pub mod ordered;
pub mod outside;
pub mod passage;
pub mod physics;
pub mod promises;
pub mod protocol;
pub mod recovery;
pub mod replay;
pub mod runtime;
pub mod session;
pub mod settings;
pub mod simulation;
pub mod text;
pub mod transport;
pub mod wire;
pub mod world;

pub use browser::{
    browser_protocol_contract, BrowserAdmission, BrowserProtocolContract, BrowserRouteError,
    BrowserRoutePrefix, BrowserSessionRoute, BROWSER_MATCH_SEGMENT, BROWSER_RECONNECT_SEGMENT,
    BROWSER_ROUTE_VERSION,
};
pub use control::{
    decode_control_request, decode_control_response, encode_control_request,
    encode_control_response, ControlContext, ControlRequest, ControlResponse, ControlService,
    ControlServiceError, ControlWireError, MatchControlService, RejectControlService,
    RejectMatchControlService, CONTROL_FORMAT_VERSION, CONTROL_HEADER_BYTES,
    MAX_CONTROL_FRAME_BYTES, MAX_CONTROL_PAYLOAD_BYTES,
};
pub use external_simulation::{
    decode_external_simulation_request, decode_external_simulation_response,
    encode_external_simulation_request, encode_external_simulation_response,
    external_simulation_protocol_contract, ExternalSimulationAdapter, ExternalSimulationBridge,
    ExternalSimulationDescriptor, ExternalSimulationError, ExternalSimulationOperation,
    ExternalSimulationProtocolContract, ExternalSimulationRequest, ExternalSimulationResponse,
    EXTERNAL_SIMULATION_PROTOCOL_VERSION, MAX_EXTERNAL_SIMULATION_ERROR_BYTES,
    MAX_EXTERNAL_SIMULATION_FRAME_BYTES,
};
pub use host::{
    HostError, HostStatus, MatchHost, MatchId, MatchIdError, MatchStatus, PlacementFailure,
    MAX_MATCH_ID_BYTES,
};
pub use host_recovery::{
    MatchHostRecoveryConfig, MatchHostRecoveryError, PreparedMatchHost,
    HOST_RECOVERY_BUNDLE_VERSION,
};
pub use host_status::{
    HostStatusServerError, MatchHostStatusConfig, DEFAULT_HOST_STATUS_PORT,
    HOST_STATUS_CONTRACT_VERSION,
};
pub use host_transport::{MatchHostTransportError, MatchHostWebTransportConfig};
pub use physics::PINNED_PHYSICS_ENGINE_REVISION;
pub use protocol::{
    decode_command, decode_snapshot, decode_welcome, encode_command, encode_snapshot,
    encode_welcome, snapshot_hash, CommandFrame, PlayerId, ProtocolError, SnapshotFrame, Welcome,
    COMMAND_HEADER_BYTES, MAX_COMMAND_PAYLOAD_BYTES, MAX_SNAPSHOT_PAYLOAD_BYTES, PROTOCOL_VERSION,
    RECONNECT_TOKEN_BYTES, SNAPSHOT_HEADER_BYTES, WELCOME_BYTES,
};
pub use recovery::{
    RecoveryError, RecoveryImage, MAX_RECOVERY_IMAGE_BYTES, RECOVERY_FORMAT_VERSION,
};
pub use replay::{
    verify_replay, ReplayError, ReplayLog, ReplayRecord, ReplayVerification, REPLAY_FORMAT_VERSION,
};
pub use runtime::{CommandOutcome, MatchRuntime, RuntimeError, RuntimeRecoveryError};
pub use session::{
    ReconnectToken, RecoverableSession, SessionError, SessionLease, SessionRecoveryError,
    SessionRecoverySnapshot, SessionRegistry, DEFAULT_MAX_PLAYERS, DEFAULT_RECONNECT_GRACE_TICKS,
};
pub use simulation::{GameSimulation, SimulationError, SimulationSnapshot, SnapshotScope};
pub use transport::{TransportError, WebTransportConfig};
pub use world::{
    decode_demo_snapshot, encode_demo_command, DemoSimulation, DemoSnapshotPlayer, WorldError,
    DEMO_MAX_PLAYERS, DEMO_TICK_HZ,
};
