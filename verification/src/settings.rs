//! How the demo server is set up: which matches it hosts, under which paths, what it keeps for a
//! restart, and how it answers control requests.

use crate::browser::{BrowserRouteError, BrowserRoutePrefix};
use crate::control::{ControlContext, ControlService, ControlServiceError, MatchControlService};
use crate::host::{MatchId, MatchIdError};
use crate::text::{characters, split_parts};
use crate::wire::same_bytes;
use vstd::prelude::*;
use vstd::slice::slice_to_vec;
use vstd::string::*;

verus! {

pub const DEFAULT_PORT: u16 = 4433;

pub const DEFAULT_DRAIN_GRACE_MS: u64 = 500;

/// Whether `index` is the first text that names no match, for that reason.
pub open spec fn first_bad_name(texts: Seq<Seq<char>>, index: int, error: MatchIdError) -> bool {
    &&& 0 <= index < texts.len()
    &&& crate::host::match_id_fault(texts[index]) == Some(error)
    &&& forall|i: int|
        0 <= i < index ==> crate::host::match_id_fault(#[trigger] texts[i]) is None
}

/// Reads the names of hosted matches, which commas separate.
pub fn parse_hosted_match_ids(value: &str) -> (result: Result<Vec<MatchId>, String>)
    ensures
        ({
            let texts = crate::text::parts(value@, ',');
            if value@.len() == 0 {
                result matches Err(text) && text@ == "GAME_SERVER_MATCH_IDS must not be empty"@
            } else {
                match result {
                    Ok(ids) => {
                        &&& crate::host_recovery::id_views(ids@) == texts
                        &&& forall|i: int|
                            0 <= i < texts.len() ==> crate::host::match_id_fault(
                                #[trigger] texts[i],
                            ) is None
                    },
                    Err(text) => exists|index: int, error: MatchIdError| #[trigger]
                        first_bad_name(texts, index, error) && text@ == error.message(),
                }
            }
        }),
{
    let chars = characters(value);
    if chars.len() == 0 {
        return Err("GAME_SERVER_MATCH_IDS must not be empty".to_owned());
    }
    let pieces = split_parts(chars.as_slice(), ',');
    let ghost texts = crate::text::parts(value@, ',');
    assert(pieces@.len() == texts.len());
    let mut ids: Vec<MatchId> = Vec::new();
    let mut i: usize = 0;
    while i < pieces.len()
        invariant
            i <= pieces@.len(),
            value@.len() > 0,
            texts == crate::text::parts(value@, ','),
            texts == crate::text::string_views(pieces@),
            crate::host_recovery::id_views(ids@) == texts.take(i as int),
            forall|j: int|
                0 <= j < i ==> crate::host::match_id_fault(#[trigger] texts[j]) is None,
        decreases pieces@.len() - i,
    {
        let ghost before = crate::host_recovery::id_views(ids@);
        assert(texts[i as int] == pieces@[i as int]@);
        let id = match MatchId::from_text(pieces[i].clone()) {
            Ok(id) => id,
            Err(error) => {
                assert(first_bad_name(texts, i as int, error));
                return Err(error.to_string());
            },
        };
        let ghost name = id@;
        ids.push(id);
        i = i + 1;
        assert(crate::host_recovery::id_views(ids@) =~= before.push(name));
        assert(before.push(name) =~= texts.take(i as int));
    }
    assert(texts.take(i as int) =~= texts);
    Ok(ids)
}

/// What the environment asks for.
#[derive(Debug, Eq, PartialEq)]
pub struct ServerRequest {
    pub session_path: String,
    pub hosted_match_ids: Option<Vec<MatchId>>,
    pub single_match_id: Option<MatchId>,
    pub has_recovery_path: bool,
    pub has_recovery_directory: bool,
}

/// What is served.
#[derive(Debug, Eq, PartialEq)]
pub enum ServerPlan {
    /// Several matches below a base path.
    Hosted { route_prefix: BrowserRoutePrefix, match_ids: Vec<MatchId> },
    /// One match under a session path.
    Single { session_path: String },
}

/// Why what the environment asks for cannot be served, if it cannot.
pub open spec fn plan_fault(request: ServerRequest) -> Option<Seq<char>> {
    if request.hosted_match_ids is Some && request.single_match_id is Some {
        Some("GAME_SERVER_MATCH_IDS and GAME_SERVER_MATCH_ID are mutually exclusive"@)
    } else if request.has_recovery_path && request.has_recovery_directory {
        Some("GAME_SERVER_RECOVERY_PATH and GAME_SERVER_RECOVERY_DIR are mutually exclusive"@)
    } else if request.hosted_match_ids is Some && request.has_recovery_path {
        Some(
            "GAME_SERVER_RECOVERY_PATH is single-match only; use GAME_SERVER_RECOVERY_DIR with GAME_SERVER_MATCH_IDS"@,
        )
    } else if request.hosted_match_ids is None && request.has_recovery_directory {
        Some(
            "GAME_SERVER_RECOVERY_DIR requires GAME_SERVER_MATCH_IDS; use GAME_SERVER_RECOVERY_PATH for single-match serving"@,
        )
    } else if (request.hosted_match_ids is Some || request.single_match_id is Some)
        && !crate::browser::canonical_base(request.session_path@) {
        Some(BrowserRouteError::InvalidBasePath.message())
    } else {
        None
    }
}

/// Whether a plan serves what is asked for.
pub open spec fn plan_serves(request: ServerRequest, plan: ServerPlan) -> bool {
    match request.hosted_match_ids {
        Some(ids) => plan matches ServerPlan::Hosted { route_prefix, match_ids } && route_prefix@
            == request.session_path@ && match_ids == ids,
        None => plan matches ServerPlan::Single { session_path } && session_path@ == (
        match request.single_match_id {
            Some(id) => crate::browser::match_route(request.session_path@, id@),
            None => request.session_path@,
        }),
    }
}

/// Decides what is served.
pub fn plan_server(request: ServerRequest) -> (result: Result<ServerPlan, String>)
    ensures
        match result {
            Ok(plan) => plan_fault(request) is None && plan_serves(request, plan),
            Err(text) => plan_fault(request) == Some(text@),
        },
{
    if request.hosted_match_ids.is_some() && request.single_match_id.is_some() {
        return Err(
            "GAME_SERVER_MATCH_IDS and GAME_SERVER_MATCH_ID are mutually exclusive".to_owned(),
        );
    }
    if request.has_recovery_path && request.has_recovery_directory {
        return Err(
            "GAME_SERVER_RECOVERY_PATH and GAME_SERVER_RECOVERY_DIR are mutually exclusive".to_owned(),
        );
    }
    match request.hosted_match_ids {
        Some(match_ids) => {
            if request.has_recovery_path {
                return Err(
                    "GAME_SERVER_RECOVERY_PATH is single-match only; use GAME_SERVER_RECOVERY_DIR with GAME_SERVER_MATCH_IDS".to_owned(),
                );
            }
            match BrowserRoutePrefix::from_text(request.session_path) {
                Ok(route_prefix) => Ok(ServerPlan::Hosted { route_prefix, match_ids }),
                Err(error) => Err(error.to_string()),
            }
        },
        None => {
            if request.has_recovery_directory {
                return Err(
                    "GAME_SERVER_RECOVERY_DIR requires GAME_SERVER_MATCH_IDS; use GAME_SERVER_RECOVERY_PATH for single-match serving".to_owned(),
                );
            }
            match request.single_match_id {
                Some(match_id) => match BrowserRoutePrefix::from_text(request.session_path) {
                    Ok(prefix) => Ok(
                        ServerPlan::Single { session_path: prefix.match_path(&match_id) },
                    ),
                    Err(error) => Err(error.to_string()),
                },
                None => Ok(ServerPlan::Single { session_path: request.session_path }),
            }
        },
    }
}

/// What the demo answers to a control payload: `ping` is answered `pong`, everything else is refused.
pub open spec fn demo_answers(
    payload: Seq<u8>,
    result: Result<Vec<u8>, ControlServiceError>,
) -> bool {
    if payload == seq![112u8, 105u8, 110u8, 103u8] {
        result matches Ok(answer) && answer@ == seq![112u8, 111u8, 110u8, 103u8]
    } else if payload == seq![114u8, 101u8, 106u8, 101u8, 99u8, 116u8] {
        result matches Err(error) && error@ == "demo control request rejected"@
    } else {
        result matches Err(error) && error@ == "unsupported demo control request"@
    }
}

/// Answers a control payload of the demo.
pub fn handle_demo_control(payload: &[u8]) -> (result: Result<Vec<u8>, ControlServiceError>)
    ensures
        demo_answers(payload@, result),
{
    let ping: [u8; 4] = [112, 105, 110, 103];
    let pong: [u8; 4] = [112, 111, 110, 103];
    let reject: [u8; 6] = [114, 101, 106, 101, 99, 116];
    assert(ping@ =~= seq![112u8, 105u8, 110u8, 103u8]);
    assert(pong@ =~= seq![112u8, 111u8, 110u8, 103u8]);
    assert(reject@ =~= seq![114u8, 101u8, 106u8, 101u8, 99u8, 116u8]);
    if same_bytes(payload, ping.as_slice()) {
        Ok(slice_to_vec(pong.as_slice()))
    } else if same_bytes(payload, reject.as_slice()) {
        Err(ControlServiceError::in_words("demo control request rejected".to_owned()))
    } else {
        Err(ControlServiceError::in_words("unsupported demo control request".to_owned()))
    }
}

/// The control service of the demo for one match.
#[derive(Clone, Copy, Debug, Default)]
pub struct DemoControlService;

impl ControlService for DemoControlService {
    fn handle(&self, _context: ControlContext, payload: &[u8]) -> (result: Result<
        Vec<u8>,
        ControlServiceError,
    >)
        ensures
            demo_answers(payload@, result),
    {
        handle_demo_control(payload)
    }
}

/// The control service of the demo for several matches.
#[derive(Clone, Copy, Debug, Default)]
pub struct DemoMatchControlService;

impl MatchControlService for DemoMatchControlService {
    /// Answers `match-id` with the match's name, and the rest as the demo does.
    fn handle(&self, match_id: &MatchId, _context: ControlContext, payload: &[u8]) -> (result:
        Result<Vec<u8>, ControlServiceError>)
        ensures
            if payload@ == seq![109u8, 97u8, 116u8, 99u8, 104u8, 45u8, 105u8, 100u8] {
                result matches Ok(answer) && answer@ == vstd::utf8::encode_utf8(match_id@)
            } else {
                demo_answers(payload@, result)
            },
    {
        let asked: [u8; 8] = [109, 97, 116, 99, 104, 45, 105, 100];
        assert(asked@ =~= seq![109u8, 97u8, 116u8, 99u8, 104u8, 45u8, 105u8, 100u8]);
        if same_bytes(payload, asked.as_slice()) {
            return Ok(slice_to_vec(match_id.as_str().as_bytes()));
        }
        handle_demo_control(payload)
    }
}

} // verus!
