//! Several matches behind one listener: what may be served, who is routed where, and what becomes of
//! the stored state at the start and at the end.

use crate::browser::{BrowserAdmission, BrowserRoutePrefix, RouteView};
use crate::connection::AdmissionRequest;
use crate::control::{ControlContext, ControlService, ControlServiceError, MatchControlService};
use crate::host::{EntryView, HostView, MatchHost, MatchId};
use crate::simulation::GameSimulation;
use crate::text::push_decimal;
use std::path::PathBuf;
use std::sync::Arc;
use std::time::Duration;
use vstd::prelude::*;

verus! {

#[derive(Debug)]
pub struct MatchHostWebTransportConfig {
    pub port: u16,
    pub certificate_pem: PathBuf,
    pub private_key_pem: PathBuf,
    pub route_prefix: BrowserRoutePrefix,
    pub drain_grace: Duration,
}

impl Clone for MatchHostWebTransportConfig {
    fn clone(&self) -> (copy: Self)
        ensures
            copy == *self,
    {
        MatchHostWebTransportConfig {
            port: self.port,
            certificate_pem: self.certificate_pem.clone(),
            private_key_pem: self.private_key_pem.clone(),
            route_prefix: self.route_prefix.clone(),
            drain_grace: self.drain_grace,
        }
    }
}

#[derive(Clone, Debug, Eq, PartialEq)]
pub enum MatchHostTransportError {
    Identity(String),
    Endpoint(String),
    Recovery(String),
    EmptyHost,
    HostAlreadyDraining,
    InvalidTickRate(MatchId),
    PlayerCapacityTooLarge { match_id: MatchId, capacity: usize },
}

impl MatchHostTransportError {
    /// The sentence that describes the error.
    pub open spec fn message(self) -> Seq<char> {
        match self {
            MatchHostTransportError::Identity(error) => "TLS identity error: "@ + error@,
            MatchHostTransportError::Endpoint(error) => "WebTransport endpoint error: "@ + error@,
            MatchHostTransportError::Recovery(error) => "host recovery error: "@ + error@,
            MatchHostTransportError::EmptyHost => "match host must contain at least one match"@,
            MatchHostTransportError::HostAlreadyDraining =>
                "match host cannot start transport while already draining"@,
            MatchHostTransportError::InvalidTickRate(match_id) => "match "@ + match_id@
                + " has a zero simulation tick rate"@,
            MatchHostTransportError::PlayerCapacityTooLarge { match_id, capacity } => "match "@
                + match_id@ + " player capacity "@ + crate::text::decimal(capacity as nat)
                + " exceeds wire limit"@,
        }
    }

    pub fn to_string(&self) -> (text: String)
        ensures
            text@ == self.message(),
    {
        match self {
            MatchHostTransportError::Identity(error) => {
                let mut text = "TLS identity error: ".to_owned();
                text.push_str(error.as_str());
                text
            },
            MatchHostTransportError::Endpoint(error) => {
                let mut text = "WebTransport endpoint error: ".to_owned();
                text.push_str(error.as_str());
                text
            },
            MatchHostTransportError::Recovery(error) => {
                let mut text = "host recovery error: ".to_owned();
                text.push_str(error.as_str());
                text
            },
            MatchHostTransportError::EmptyHost =>
                "match host must contain at least one match".to_owned(),
            MatchHostTransportError::HostAlreadyDraining =>
                "match host cannot start transport while already draining".to_owned(),
            MatchHostTransportError::InvalidTickRate(match_id) => {
                let mut text = "match ".to_owned();
                text.push_str(match_id.as_str());
                text.push_str(" has a zero simulation tick rate");
                text
            },
            MatchHostTransportError::PlayerCapacityTooLarge { match_id, capacity } => {
                let mut text = "match ".to_owned();
                text.push_str(match_id.as_str());
                text.push_str(" player capacity ");
                push_decimal(&mut text, *capacity as u64);
                text.push_str(" exceeds wire limit");
                text
            },
        }
    }
}

/// Whether a hosted match can be served.
pub open spec fn servable<S: GameSimulation>(entry: EntryView<S>) -> bool {
    entry.runtime.simulation.rate() != 0 && entry.runtime.simulation.capacity() <= u16::MAX
}

/// Whether `index` is the first match that cannot be served.
pub open spec fn first_unservable<S: GameSimulation>(host: HostView<S>, index: int) -> bool {
    &&& 0 <= index < host.entries.len()
    &&& !servable(host.entries[index])
    &&& forall|i: int| 0 <= i < index ==> servable(#[trigger] host.entries[i])
}

/// Whether `error` says what is wrong with a match.
pub open spec fn blames<S: GameSimulation>(
    entry: EntryView<S>,
    error: MatchHostTransportError,
) -> bool {
    if entry.runtime.simulation.rate() == 0 {
        error matches MatchHostTransportError::InvalidTickRate(id) && id@ == entry.id
    } else {
        error matches MatchHostTransportError::PlayerCapacityTooLarge { match_id, capacity }
            && match_id@ == entry.id && capacity == entry.runtime.simulation.capacity()
    }
}

/// Whether a host that is to be served is answered with `result`: the tick rate of each match in the
/// order of the names, or the first thing that is wrong.
pub open spec fn validates<S: GameSimulation>(
    host: HostView<S>,
    result: Result<Vec<(MatchId, u16)>, MatchHostTransportError>,
) -> bool {
    if host.entries.len() == 0 {
        result == Err::<Vec<(MatchId, u16)>, _>(MatchHostTransportError::EmptyHost)
    } else if host.draining {
        result == Err::<Vec<(MatchId, u16)>, _>(MatchHostTransportError::HostAlreadyDraining)
    } else {
        match result {
            Ok(rates) => {
                &&& rates@.len() == host.entries.len()
                &&& forall|i: int|
                    0 <= i < host.entries.len() ==> servable(#[trigger] host.entries[i])
                &&& forall|i: int|
                    0 <= i < rates@.len() ==> (#[trigger] rates@[i]).0@ == host.entries[i].id
                        && rates@[i].1 == host.entries[i].runtime.simulation.rate()
            },
            Err(error) => exists|index: int| #[trigger]
                first_unservable(host, index) && blames(host.entries[index], error),
        }
    }
}

/// Checks that a host can be served, and lists the tick rates of its matches.
pub fn validate_host<S: GameSimulation>(host: &MatchHost<S>) -> (result: Result<
    Vec<(MatchId, u16)>,
    MatchHostTransportError,
>)
    requires
        host@.valid(),
    ensures
        validates(host@, result),
{
    if host.is_empty() {
        return Err(MatchHostTransportError::EmptyHost);
    }
    if host.is_draining() {
        return Err(MatchHostTransportError::HostAlreadyDraining);
    }
    let statuses = host.statuses();
    let mut rates: Vec<(MatchId, u16)> = Vec::new();
    let mut i: usize = 0;
    while i < statuses.len()
        invariant
            i <= statuses@.len(),
            host@.valid(),
            host@.entries.len() > 0,
            !host@.draining,
            statuses@.len() == host@.entries.len(),
            forall|j: int|
                0 <= j < statuses@.len() ==> (#[trigger] statuses@[j]).tells(host@.entries[j]),
            rates@.len() == i,
            forall|j: int| 0 <= j < i ==> servable(#[trigger] host@.entries[j]),
            forall|j: int|
                0 <= j < rates@.len() ==> (#[trigger] rates@[j]).0@ == host@.entries[j].id
                    && rates@[j].1 == host@.entries[j].runtime.simulation.rate(),
        decreases statuses@.len() - i,
    {
        let status = &statuses[i];
        let id = status.id.clone();
        assert(host@.is_at(status.id@, i as int));
        let (tick_hz, capacity) = match host.runtime(&status.id) {
            Some(runtime) => {
                proof {
                    let index = choose|index: int| #[trigger]
                        host@.is_at(status.id@, index) && runtime@ == host@.entries[index].runtime;
                    crate::host::law_names_are_unique(host@, status.id@, i as int, index);
                }
                (runtime.tick_hz(), runtime.max_players())
            },
            None => (0, 0),
        };
        if tick_hz == 0 {
            let error = MatchHostTransportError::InvalidTickRate(id);
            assert(first_unservable(host@, i as int) && blames(host@.entries[i as int], error));
            return Err(error);
        }
        if capacity > 65535 {
            let error = MatchHostTransportError::PlayerCapacityTooLarge { match_id: id, capacity };
            assert(first_unservable(host@, i as int) && blames(host@.entries[i as int], error));
            return Err(error);
        }
        rates.push((id, tick_hz));
        i = i + 1;
    }
    Ok(rates)
}

/// A control service that answers for one match of several.
#[derive(Debug)]
pub struct HostedControl<C> {
    match_id: MatchId,
    service: Arc<C>,
}

impl<C: MatchControlService> HostedControl<C> {
    /// The match that the service answers for.
    pub closed spec fn name(&self) -> MatchId {
        self.match_id
    }

    /// The service behind it.
    pub closed spec fn behind(&self) -> C {
        *self.service
    }

    pub fn new(match_id: MatchId, service: Arc<C>) -> (control: Self)
        ensures
            control.name() == match_id,
            control.behind() == *service,
    {
        HostedControl { match_id, service }
    }
}

impl<C: MatchControlService> ControlService for HostedControl<C> {
    /// Asks the service behind in the name of the match.
    fn handle(&self, context: ControlContext, payload: &[u8]) -> (result: Result<
        Vec<u8>,
        ControlServiceError,
    >)
        ensures
            call_ensures(
                C::handle,
                (&self.behind(), &self.name(), context, payload),
                result,
            ),
    {
        self.service.handle(&self.match_id, context, payload)
    }
}

/// Whether one of the names is the given one.
pub open spec fn names(ids: Seq<MatchId>, id: Seq<char>) -> bool {
    exists|i: int| 0 <= i < ids.len() && (#[trigger] ids[i])@ == id
}

/// What a path asks for, where it asks for a hosted match.
pub open spec fn hosted_meaning(
    base: Seq<char>,
    path: Seq<char>,
    ids: Seq<MatchId>,
) -> Option<RouteView> {
    match crate::browser::path_meaning(base, path) {
        Ok(Some(route)) => if names(ids, route.match_id) {
            Some(route)
        } else {
            None
        },
        _ => None,
    }
}

/// Where a path leads: to a hosted match and how it is entered, or nowhere.
pub fn route_session(prefix: &BrowserRoutePrefix, path: &str, ids: &[MatchId]) -> (route: Option<
    (MatchId, AdmissionRequest),
>)
    ensures
        match route {
            Some((match_id, admission)) => hosted_meaning(prefix@, path@, ids@) == Some(
                RouteView {
                    match_id: match_id@,
                    token: match admission {
                        AdmissionRequest::New => None,
                        AdmissionRequest::Reconnect(token) => Some(token.0@),
                    },
                },
            ),
            None => hosted_meaning(prefix@, path@, ids@) is None,
        },
{
    let route = match prefix.parse(path) {
        Ok(Some(route)) => route,
        Ok(None) => {
            return None;
        },
        Err(_) => {
            return None;
        },
    };
    let mut i: usize = 0;
    while i < ids.len()
        invariant
            i <= ids@.len(),
            crate::browser::path_meaning(prefix@, path@) == Ok::<
                Option<RouteView>,
                crate::browser::BrowserRouteError,
            >(Some(route@)),
            forall|j: int| 0 <= j < i ==> (#[trigger] ids@[j])@ != route.match_id@,
        decreases ids@.len() - i,
    {
        if ids[i].same_as(&route.match_id) {
            assert(ids@[i as int]@ == route.match_id@);
            let admission = match route.admission {
                BrowserAdmission::New => AdmissionRequest::New,
                BrowserAdmission::Reconnect(token) => AdmissionRequest::Reconnect(token),
            };
            return Some((route.match_id, admission));
        }
        i = i + 1;
    }
    None
}

/// The paths of a hosted match lead to it, as a newcomer or with the token of a returning player,
/// and those of any other match lead nowhere.
pub proof fn law_hosted_matches_are_reached(
    base: Seq<char>,
    match_id: Seq<char>,
    token: crate::session::ReconnectToken,
    ids: Seq<MatchId>,
)
    requires
        crate::host::match_id_fault(match_id) is None,
    ensures
        hosted_meaning(base, crate::browser::match_route(base, match_id), ids) == if names(
            ids,
            match_id,
        ) {
            Some(RouteView { match_id, token: None })
        } else {
            None
        },
        hosted_meaning(base, crate::browser::reconnect_route(base, match_id, token.0@), ids)
            == if names(ids, match_id) {
            Some(RouteView { match_id, token: Some(token.0@) })
        } else {
            None
        },
{
    crate::browser::law_match_route_round_trip(base, match_id);
    crate::browser::law_reconnect_route_round_trip(base, match_id, token);
}

/// What became of the stored bundle that a start used up.
#[derive(Clone, Debug, Eq, PartialEq)]
pub enum Consumption {
    /// It is used up.
    Consumed,
    /// It is used up, though the last step complained: the restored matches go on.
    ConsumedWithComplaint(String),
}

/// Decides whether a start may go on, given how using up the bundle ended and what is still there.
/// A bundle that is gone from both places cannot be used twice, whatever was reported.
pub fn settle_consumption(
    consumed: Result<(), String>,
    active_exists: bool,
    consumed_exists: bool,
) -> (result: Result<Consumption, MatchHostTransportError>)
    ensures
        match consumed {
            Ok(_) => result == Ok::<_, MatchHostTransportError>(Consumption::Consumed),
            Err(error) => if !active_exists && !consumed_exists {
                result == Ok::<_, MatchHostTransportError>(
                    Consumption::ConsumedWithComplaint(error),
                )
            } else {
                result == Err::<Consumption, _>(MatchHostTransportError::Recovery(error))
            },
        },
{
    match consumed {
        Ok(_) => Ok(Consumption::Consumed),
        Err(error) => {
            if !active_exists && !consumed_exists {
                Ok(Consumption::ConsumedWithComplaint(error))
            } else {
                Err(MatchHostTransportError::Recovery(error))
            }
        },
    }
}

/// How saving a bundle ended.
#[derive(Clone, Debug, Eq, PartialEq)]
pub enum Persistence {
    /// It is saved.
    Saved,
    /// It is there, though its publication complained: it counts as saved, lest the matches go on
    /// beyond it.
    SavedWithComplaint(String),
}

/// Decides whether the matches may stop, given how saving the bundle ended and whether it was there
/// before and after.
pub fn settle_persistence(
    written: Result<(), String>,
    existed_before: bool,
    exists_after: bool,
) -> (result: Result<Persistence, String>)
    ensures
        match written {
            Ok(_) => result == Ok::<_, String>(Persistence::Saved),
            Err(error) => if !existed_before && exists_after {
                result == Ok::<_, String>(Persistence::SavedWithComplaint(error))
            } else {
                result == Err::<Persistence, _>(error)
            },
        },
{
    match written {
        Ok(_) => Ok(Persistence::Saved),
        Err(error) => {
            if !existed_before && exists_after {
                Ok(Persistence::SavedWithComplaint(error))
            } else {
                Err(error)
            }
        },
    }
}

/// The complaint of a match that leaves no image.
pub fn image_complaint(match_id: &MatchId, error: &str) -> (text: String)
    ensures
        text@ == "match "@ + match_id@ + ": "@ + error@,
{
    let mut text = "match ".to_owned();
    text.push_str(match_id.as_str());
    text.push_str(": ");
    text.push_str(error);
    text
}

} // verus!
