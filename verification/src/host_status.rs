//! What a process tells of itself over HTTP: whether it is healthy, ready, draining, and what it
//! hosts.

use crate::host::{MatchHost, MatchId};
use crate::host_transport::MatchHostTransportError;
use crate::simulation::GameSimulation;
use crate::text::{
    characters, chars_begin_with, join, push_decimal, same_text, split_lines, split_words,
    utf8_text,
};
use vstd::prelude::*;
use vstd::string::*;

verus! {

pub const HOST_STATUS_CONTRACT_VERSION: u16 = 1;

pub const DEFAULT_HOST_STATUS_PORT: u16 = 8080;

pub const MAX_REQUEST_HEADER_BYTES: usize = 4096;

pub const MAX_CONCURRENT_STATUS_CONNECTIONS: usize = 64;

pub const REQUEST_HEADER_TIMEOUT_SECONDS: u64 = 2;

#[derive(Clone, Copy, Debug, Eq, PartialEq)]
pub struct MatchHostStatusConfig {
    pub port: u16,
}

#[derive(Clone, Debug, Eq, PartialEq)]
pub enum HostStatusServerError {
    Bind(String),
    Serve(String),
    Task(String),
    ExitedUnexpectedly,
    Transport(MatchHostTransportError),
}

impl HostStatusServerError {
    /// The sentence that describes the error.
    pub open spec fn message(self) -> Seq<char> {
        match self {
            HostStatusServerError::Bind(error) => "host status listener bind failed: "@ + error@,
            HostStatusServerError::Serve(error) => "host status listener failed: "@ + error@,
            HostStatusServerError::Task(error) => "host status task failed: "@ + error@,
            HostStatusServerError::ExitedUnexpectedly =>
                "host status listener exited before transport stopped"@,
            HostStatusServerError::Transport(error) => error.message(),
        }
    }

    pub fn to_string(&self) -> (text: String)
        ensures
            text@ == self.message(),
    {
        match self {
            HostStatusServerError::Bind(error) => {
                let mut text = "host status listener bind failed: ".to_owned();
                text.push_str(error.as_str());
                text
            },
            HostStatusServerError::Serve(error) => {
                let mut text = "host status listener failed: ".to_owned();
                text.push_str(error.as_str());
                text
            },
            HostStatusServerError::Task(error) => {
                let mut text = "host status task failed: ".to_owned();
                text.push_str(error.as_str());
                text
            },
            HostStatusServerError::ExitedUnexpectedly =>
                "host status listener exited before transport stopped".to_owned(),
            HostStatusServerError::Transport(error) => error.to_string(),
        }
    }
}

impl From<MatchHostTransportError> for HostStatusServerError {
    fn from(error: MatchHostTransportError) -> (converted: Self) {
        HostStatusServerError::Transport(error)
    }
}

impl vstd::std_specs::convert::FromSpecImpl<MatchHostTransportError> for HostStatusServerError {
    open spec fn obeys_from_spec() -> bool {
        true
    }

    open spec fn from_spec(error: MatchHostTransportError) -> Self {
        HostStatusServerError::Transport(error)
    }
}

/// What is told of one match.
#[derive(Clone, Debug, Eq, PartialEq)]
pub struct MatchFacts {
    pub id: MatchId,
    pub draining: bool,
    pub frozen: bool,
    pub max_players: usize,
}

/// What is told of the process.
#[derive(Debug, Eq, PartialEq)]
pub struct ProcessFacts {
    pub hosted_matches: usize,
    pub max_matches: usize,
    pub player_capacity: usize,
    pub matches: Vec<MatchFacts>,
}

/// What the status endpoints know: the facts at the start, whether the transport serves, and whether
/// the process drains.
#[derive(Debug, Eq, PartialEq)]
pub struct StatusState {
    pub process: ProcessFacts,
    pub serving: bool,
    pub draining: bool,
}

/// A truth value in JSON.
pub open spec fn flag(value: bool) -> Seq<char> {
    if value {
        "true"@
    } else {
        "false"@
    }
}

fn push_flag(text: &mut String, value: bool)
    ensures
        final(text)@ == old(text)@ + flag(value),
{
    if value {
        text.push_str("true");
    } else {
        text.push_str("false");
    }
}

impl StatusState {
    /// Whether a match drains, itself or with the process.
    pub open spec fn drains(self, facts: MatchFacts) -> bool {
        self.draining || facts.draining
    }

    /// Whether a match takes new players.
    pub open spec fn ready(self, facts: MatchFacts) -> bool {
        self.serving && !self.drains(facts) && !facts.frozen
    }

    /// Whether some match takes new players and the process does not drain.
    pub open spec fn any_ready(self) -> bool {
        !self.draining && exists|i: int|
            0 <= i < self.process.matches@.len() && self.ready(#[trigger] self.process.matches@[i])
    }

    /// Whether the match at `index` is the first of that name.
    pub open spec fn found_at(self, id: Seq<char>, index: int) -> bool {
        &&& 0 <= index < self.process.matches@.len()
        &&& self.process.matches@[index].id@ == id
        &&& forall|i: int| 0 <= i < index ==> (#[trigger] self.process.matches@[i]).id@ != id
    }

    /// The status of a match in JSON.
    pub open spec fn match_json(self, facts: MatchFacts) -> Seq<char> {
        "{\"id\":\""@ + facts.id@ + "\",\"healthy\":true,\"ready\":"@ + flag(self.ready(facts))
            + ",\"draining\":"@ + flag(self.drains(facts)) + ",\"frozen\":"@ + flag(facts.frozen)
            + ",\"maxPlayers\":"@ + crate::text::decimal(facts.max_players as nat) + "}"@
    }

    /// How many matches more the process has room for.
    pub open spec fn room(self) -> nat {
        if self.process.max_matches >= self.process.hosted_matches {
            (self.process.max_matches - self.process.hosted_matches) as nat
        } else {
            0
        }
    }

    /// The status of every match in JSON.
    pub open spec fn match_jsons(self) -> Seq<Seq<char>> {
        self.process.matches@.map_values(|facts: MatchFacts| self.match_json(facts))
    }

    /// The status of the process in JSON.
    pub open spec fn process_json(self) -> Seq<char> {
        "{\"version\":"@ + crate::text::decimal(HOST_STATUS_CONTRACT_VERSION as nat)
            + ",\"healthy\":true,\"ready\":"@ + flag(self.any_ready()) + ",\"draining\":"@ + flag(
            self.draining,
        ) + ",\"capacity\":{\"hostedMatches\":"@ + crate::text::decimal(
            self.process.hosted_matches as nat,
        ) + ",\"maxMatches\":"@ + crate::text::decimal(self.process.max_matches as nat)
            + ",\"remainingMatches\":"@ + crate::text::decimal(self.room())
            + ",\"playerCapacity\":"@ + crate::text::decimal(self.process.player_capacity as nat)
            + "},\"matches\":["@ + crate::text::joined(self.match_jsons(), ","@) + "]}"@
    }

    /// What a host is told to be before its transport serves.
    pub fn from_host<S: GameSimulation>(host: &MatchHost<S>) -> (state: Self)
        requires
            host@.valid(),
        ensures
            !state.serving,
            state.draining == host@.draining,
            state.process.hosted_matches == host@.entries.len(),
            state.process.max_matches == host@.max_matches,
            state.process.player_capacity == crate::host::capped(
                crate::host::total_capacity(host@.entries),
            ),
            state.process.matches@.len() == host@.entries.len(),
            forall|i: int|
                0 <= i < host@.entries.len() ==> {
                    let facts = #[trigger] state.process.matches@[i];
                    let entry = host@.entries[i];
                    &&& facts.id@ == entry.id
                    &&& facts.draining == entry.runtime.draining
                    &&& facts.frozen == entry.runtime.frozen
                    &&& facts.max_players == entry.runtime.simulation.capacity()
                },
    {
        let process = host.status();
        let statuses = host.statuses();
        let mut matches: Vec<MatchFacts> = Vec::new();
        let mut i: usize = 0;
        while i < statuses.len()
            invariant
                i <= statuses@.len(),
                statuses@.len() == host@.entries.len(),
                forall|j: int|
                    0 <= j < statuses@.len() ==> (#[trigger] statuses@[j]).tells(
                        host@.entries[j],
                    ),
                matches@.len() == i,
                forall|j: int|
                    0 <= j < i ==> {
                        let facts = #[trigger] matches@[j];
                        let entry = host@.entries[j];
                        &&& facts.id@ == entry.id
                        &&& facts.draining == entry.runtime.draining
                        &&& facts.frozen == entry.runtime.frozen
                        &&& facts.max_players == entry.runtime.simulation.capacity()
                    },
            decreases statuses@.len() - i,
        {
            let status = &statuses[i];
            matches.push(
                MatchFacts {
                    id: status.id.clone(),
                    draining: status.draining,
                    frozen: status.frozen,
                    max_players: status.max_players,
                },
            );
            i = i + 1;
        }
        StatusState {
            process: ProcessFacts {
                hosted_matches: process.hosted_matches,
                max_matches: process.max_matches,
                player_capacity: process.player_capacity,
                matches,
            },
            serving: false,
            draining: process.draining,
        }
    }

    /// The transport serves from now on.
    pub fn mark_serving(&mut self)
        ensures
            *final(self) == (StatusState { serving: true, ..*old(self) }),
    {
        self.serving = true;
    }

    /// The process drains from now on.
    pub fn begin_process_drain(&mut self)
        ensures
            *final(self) == (StatusState { draining: true, ..*old(self) }),
    {
        self.draining = true;
    }

    pub fn process_draining(&self) -> (draining: bool)
        ensures
            draining == self.draining,
    {
        self.draining
    }

    pub fn match_draining(&self, facts: &MatchFacts) -> (draining: bool)
        ensures
            draining == self.drains(*facts),
    {
        self.draining || facts.draining
    }

    pub fn match_ready(&self, facts: &MatchFacts) -> (ready: bool)
        ensures
            ready == self.ready(*facts),
    {
        self.serving && !self.match_draining(facts) && !facts.frozen
    }

    pub fn process_ready(&self) -> (ready: bool)
        ensures
            ready == self.any_ready(),
    {
        if self.draining {
            return false;
        }
        let mut i: usize = 0;
        while i < self.process.matches.len()
            invariant
                i <= self.process.matches@.len(),
                !self.draining,
                forall|j: int|
                    0 <= j < i ==> !self.ready(#[trigger] self.process.matches@[j]),
            decreases self.process.matches@.len() - i,
        {
            if self.match_ready(&self.process.matches[i]) {
                assert(self.ready(self.process.matches@[i as int]));
                return true;
            }
            i = i + 1;
        }
        false
    }

    /// Where the facts of a match stand.
    pub fn match_facts(&self, id: &str) -> (found: Option<&MatchFacts>)
        ensures
            match found {
                Some(facts) => exists|index: int| #[trigger]
                    self.found_at(id@, index) && *facts == self.process.matches@[index],
                None => forall|index: int| !#[trigger] self.found_at(id@, index),
            },
    {
        let mut i: usize = 0;
        while i < self.process.matches.len()
            invariant
                i <= self.process.matches@.len(),
                forall|j: int|
                    0 <= j < i ==> (#[trigger] self.process.matches@[j]).id@ != id@,
            decreases self.process.matches@.len() - i,
        {
            if same_text(self.process.matches[i].id.as_str(), id) {
                assert(self.found_at(id@, i as int));
                return Some(&self.process.matches[i]);
            }
            i = i + 1;
        }
        None
    }

    pub fn match_status_json(&self, facts: &MatchFacts) -> (json: String)
        ensures
            json@ == self.match_json(*facts),
    {
        let mut json = "{\"id\":\"".to_owned();
        json.push_str(facts.id.as_str());
        json.push_str("\",\"healthy\":true,\"ready\":");
        push_flag(&mut json, self.match_ready(facts));
        json.push_str(",\"draining\":");
        push_flag(&mut json, self.match_draining(facts));
        json.push_str(",\"frozen\":");
        push_flag(&mut json, facts.frozen);
        json.push_str(",\"maxPlayers\":");
        push_decimal(&mut json, facts.max_players as u64);
        json.push_str("}");
        json
    }

    pub fn process_status_json(&self) -> (json: String)
        ensures
            json@ == self.process_json(),
    {
        let mut matches: Vec<String> = Vec::new();
        let mut i: usize = 0;
        while i < self.process.matches.len()
            invariant
                i <= self.process.matches@.len(),
                crate::text::string_views(matches@) == self.match_jsons().take(i as int),
            decreases self.process.matches@.len() - i,
        {
            let ghost before = crate::text::string_views(matches@);
            let text = self.match_status_json(&self.process.matches[i]);
            let ghost view = text@;
            matches.push(text);
            i = i + 1;
            assert(crate::text::string_views(matches@) =~= before.push(view));
            assert(before.push(view) =~= self.match_jsons().take(i as int));
        }
        assert(self.match_jsons().take(i as int) =~= self.match_jsons());
        let remaining: usize = self.process.max_matches.saturating_sub(
            self.process.hosted_matches,
        );
        let mut json = "{\"version\":".to_owned();
        push_decimal(&mut json, HOST_STATUS_CONTRACT_VERSION as u64);
        json.push_str(",\"healthy\":true,\"ready\":");
        push_flag(&mut json, self.process_ready());
        json.push_str(",\"draining\":");
        push_flag(&mut json, self.draining);
        json.push_str(",\"capacity\":{\"hostedMatches\":");
        push_decimal(&mut json, self.process.hosted_matches as u64);
        json.push_str(",\"maxMatches\":");
        push_decimal(&mut json, self.process.max_matches as u64);
        json.push_str(",\"remainingMatches\":");
        push_decimal(&mut json, remaining as u64);
        json.push_str(",\"playerCapacity\":");
        push_decimal(&mut json, self.process.player_capacity as u64);
        json.push_str("},\"matches\":[");
        json.push_str(join(matches.as_slice(), ",").as_str());
        json.push_str("]}");
        json
    }
}

/// An answer to a status request.
#[derive(Clone, Debug, Eq, PartialEq)]
pub struct HttpResponse {
    pub status: u16,
    pub reason: &'static str,
    pub body: String,
    pub extra_headers: Vec<(&'static str, &'static str)>,
}

/// What an answer says.
#[verifier::ext_equal]
pub struct HttpView {
    pub status: u16,
    pub reason: Seq<char>,
    pub body: Seq<char>,
    pub extra_headers: Seq<(Seq<char>, Seq<char>)>,
}

impl View for HttpResponse {
    type V = HttpView;

    open spec fn view(&self) -> HttpView {
        HttpView {
            status: self.status,
            reason: self.reason@,
            body: self.body@,
            extra_headers: header_views(self.extra_headers@),
        }
    }
}

/// The names and values of headers.
pub open spec fn header_views(headers: Seq<(&'static str, &'static str)>) -> Seq<
    (Seq<char>, Seq<char>),
> {
    headers.map_values(|header: (&'static str, &'static str)| (header.0@, header.1@))
}

/// An answer without further headers.
pub open spec fn plain(status: u16, reason: Seq<char>, body: Seq<char>) -> HttpView {
    HttpView { status, reason, body, extra_headers: Seq::empty() }
}

fn answer(status: u16, reason: &'static str, body: String) -> (response: HttpResponse)
    ensures
        response@ == plain(status, reason@, body@),
{
    let response = HttpResponse { status, reason, body, extra_headers: Vec::new() };
    assert(response@.extra_headers =~= Seq::<(Seq<char>, Seq<char>)>::empty());
    response
}

/// The answer where all is well.
pub open spec fn well(body: Seq<char>) -> HttpView {
    plain(200, "OK"@, body)
}

fn ok(body: String) -> (response: HttpResponse)
    ensures
        response@ == well(body@),
{
    answer(200, "OK", body)
}

/// The answer to what is no request.
pub open spec fn nonsense() -> HttpView {
    plain(400, "Bad Request"@, "{\"error\":\"bad-request\"}"@)
}

fn bad_request() -> (response: HttpResponse)
    ensures
        response@ == nonsense(),
{
    answer(400, "Bad Request", "{\"error\":\"bad-request\"}".to_owned())
}

/// The answer where nothing is served.
pub open spec fn nothing_there() -> HttpView {
    plain(404, "Not Found"@, "{\"error\":\"not-found\"}"@)
}

fn not_found() -> (response: HttpResponse)
    ensures
        response@ == nothing_there(),
{
    answer(404, "Not Found", "{\"error\":\"not-found\"}".to_owned())
}

/// The answer to a request that would change something.
pub open spec fn only_get() -> HttpView {
    HttpView {
        status: 405,
        reason: "Method Not Allowed"@,
        body: "{\"error\":\"method-not-allowed\"}"@,
        extra_headers: seq![("Allow"@, "GET"@)],
    }
}

fn method_not_allowed() -> (response: HttpResponse)
    ensures
        response@ == only_get(),
{
    let mut extra_headers: Vec<(&'static str, &'static str)> = Vec::new();
    extra_headers.push(("Allow", "GET"));
    let response = HttpResponse {
        status: 405,
        reason: "Method Not Allowed",
        body: "{\"error\":\"method-not-allowed\"}".to_owned(),
        extra_headers,
    };
    assert(response@.extra_headers =~= seq![("Allow"@, "GET"@)]);
    response
}

/// The answer to a header that is too long.
pub fn request_header_too_large() -> (response: HttpResponse)
    ensures
        response@ == plain(
            431,
            "Request Header Fields Too Large"@,
            "{\"error\":\"request-header-too-large\"}"@,
        ),
{
    answer(
        431,
        "Request Header Fields Too Large",
        "{\"error\":\"request-header-too-large\"}".to_owned(),
    )
}

/// The answer to a header that breaks off.
pub fn incomplete_request() -> (response: HttpResponse)
    ensures
        response@ == plain(400, "Bad Request"@, "{\"error\":\"incomplete-request\"}"@),
{
    answer(400, "Bad Request", "{\"error\":\"incomplete-request\"}".to_owned())
}

/// The answer to a header that does not come in time.
pub fn request_timeout() -> (response: HttpResponse)
    ensures
        response@ == plain(408, "Request Timeout"@, "{\"error\":\"request-timeout\"}"@),
{
    answer(408, "Request Timeout", "{\"error\":\"request-timeout\"}".to_owned())
}

/// The answer about readiness: well where ready, and otherwise unavailable.
pub open spec fn readiness(ready: bool, body: Seq<char>) -> HttpView {
    if ready {
        well(body)
    } else {
        plain(503, "Service Unavailable"@, body)
    }
}

fn response_for_readiness(ready: bool, body: String) -> (response: HttpResponse)
    ensures
        response@ == readiness(ready, body@),
{
    if ready {
        ok(body)
    } else {
        answer(503, "Service Unavailable", body)
    }
}

impl StatusState {
    /// Whether a match of that name is known.
    pub open spec fn knows(self, id: Seq<char>) -> bool {
        exists|index: int| #[trigger] self.found_at(id, index)
    }

    /// The facts of a match that is known.
    pub open spec fn facts_of(self, id: Seq<char>) -> MatchFacts {
        self.process.matches@[choose|index: int| #[trigger] self.found_at(id, index)]
    }

    /// What the endpoint of a match answers, where there is one.
    pub open spec fn match_endpoint(self, facts: MatchFacts, endpoint: Seq<char>) -> Option<
        HttpView,
    > {
        if endpoint == "healthz"@ {
            Some(well("{\"id\":\""@ + facts.id@ + "\",\"healthy\":true}"@))
        } else if endpoint == "readyz"@ {
            Some(
                readiness(
                    self.ready(facts),
                    "{\"id\":\""@ + facts.id@ + "\",\"ready\":"@ + flag(self.ready(facts))
                        + ",\"draining\":"@ + flag(self.drains(facts)) + ",\"frozen\":"@ + flag(
                        facts.frozen,
                    ) + "}"@,
                ),
            )
        } else if endpoint == "status"@ {
            Some(well(self.match_json(facts)))
        } else {
            None
        }
    }

    /// What a path below `/matches/` is answered, where there is something.
    pub open spec fn match_answer(self, path: Seq<char>) -> Option<HttpView> {
        let segments = crate::text::parts(path.skip("/matches/"@.len() as int), '/');
        if !crate::text::begins_with(path, "/matches/"@) {
            None
        } else if segments.len() != 2 || segments[0].len() == 0 || !self.knows(segments[0]) {
            None
        } else {
            self.match_endpoint(self.facts_of(segments[0]), segments[1])
        }
    }

    /// What a path is answered.
    pub open spec fn path_answer(self, path: Seq<char>) -> HttpView {
        if path == "/healthz"@ {
            well("{\"healthy\":true}"@)
        } else if path == "/readyz"@ {
            readiness(
                self.any_ready(),
                "{\"ready\":"@ + flag(self.any_ready()) + ",\"draining\":"@ + flag(self.draining)
                    + "}"@,
            )
        } else if path == "/status"@ {
            well(self.process_json())
        } else {
            match self.match_answer(path) {
                Some(answer) => answer,
                None => nothing_there(),
            }
        }
    }

    /// What a request is answered: its first line names a method, a target and a version, and the
    /// target counts up to a question mark.
    pub open spec fn request_answer(self, request: Seq<char>) -> HttpView {
        let lines = crate::text::lines(request);
        let words = crate::text::words(lines[0]);
        if lines.len() == 0 || words.len() != 3 || (words[2] != "HTTP/1.0"@ && words[2]
            != "HTTP/1.1"@) {
            nonsense()
        } else if words[0] != "GET"@ {
            only_get()
        } else {
            self.path_answer(crate::text::parts(words[1], '?')[0])
        }
    }

    proof fn lemma_found_once(self, id: Seq<char>, a: int, b: int)
        requires
            self.found_at(id, a),
            self.found_at(id, b),
        ensures
            a == b,
    {
    }
}

/// Answers a status request.
pub fn route_request(request: &str, state: &StatusState) -> (response: HttpResponse)
    ensures
        response@ == state.request_answer(request@),
{
    let lines = split_lines(request);
    assert(lines@.len() == crate::text::lines(request@).len());
    if lines.len() == 0 {
        return bad_request();
    }
    assert(crate::text::string_views(lines@)[0] == lines@[0]@);
    let words = split_words(lines[0].as_str());
    let ghost views = crate::text::words(crate::text::lines(request@)[0]);
    assert(words@.len() == views.len());
    if words.len() != 3 {
        return bad_request();
    }
    assert(views[0] == words@[0]@);
    assert(views[1] == words@[1]@);
    assert(views[2] == words@[2]@);
    if !same_text(words[2].as_str(), "HTTP/1.0") && !same_text(words[2].as_str(), "HTTP/1.1") {
        return bad_request();
    }
    if !same_text(words[0].as_str(), "GET") {
        return method_not_allowed();
    }
    let target = characters(words[1].as_str());
    let pieces = crate::text::split_parts(target.as_slice(), '?');
    proof {
        crate::text::lemma_parts_not_empty(target@, '?');
        assert(pieces@.len() == crate::text::parts(target@, '?').len());
        assert(crate::text::string_views(pieces@)[0] == pieces@[0]@);
    }
    let path = pieces[0].as_str();
    if same_text(path, "/healthz") {
        return ok("{\"healthy\":true}".to_owned());
    }
    if same_text(path, "/readyz") {
        let ready = state.process_ready();
        let mut body = "{\"ready\":".to_owned();
        push_flag(&mut body, ready);
        body.push_str(",\"draining\":");
        push_flag(&mut body, state.process_draining());
        body.push_str("}");
        return response_for_readiness(ready, body);
    }
    if same_text(path, "/status") {
        return ok(state.process_status_json());
    }
    match route_match_request(path, state) {
        Some(response) => response,
        None => not_found(),
    }
}

fn route_match_request(path: &str, state: &StatusState) -> (response: Option<HttpResponse>)
    ensures
        match response {
            Some(response) => state.match_answer(path@) == Some(response@),
            None => state.match_answer(path@) is None,
        },
{
    let chars = characters(path);
    if !chars_begin_with(chars.as_slice(), "/matches/") {
        return None;
    }
    let skipped: usize = characters("/matches/").len();
    let rest = vstd::slice::slice_subrange(chars.as_slice(), skipped, chars.len());
    assert(rest@ =~= path@.skip("/matches/"@.len() as int));
    let segments = crate::text::split_parts(rest, '/');
    let ghost views = crate::text::parts(rest@, '/');
    assert(segments@.len() == views.len());
    if segments.len() != 2 {
        return None;
    }
    assert(views[0] == segments@[0]@);
    assert(views[1] == segments@[1]@);
    if characters(segments[0].as_str()).len() == 0 {
        return None;
    }
    let facts = match state.match_facts(segments[0].as_str()) {
        Some(facts) => facts,
        None => {
            return None;
        },
    };
    proof {
        let index = choose|index: int| #[trigger]
            state.found_at(views[0], index) && *facts == state.process.matches@[index];
        let chosen = choose|index: int| #[trigger] state.found_at(views[0], index);
        state.lemma_found_once(views[0], index, chosen);
        assert(state.facts_of(views[0]) == *facts);
    }
    let endpoint = segments[1].as_str();
    if same_text(endpoint, "healthz") {
        let mut body = "{\"id\":\"".to_owned();
        body.push_str(facts.id.as_str());
        body.push_str("\",\"healthy\":true}");
        Some(ok(body))
    } else if same_text(endpoint, "readyz") {
        Some(match_readiness_response(state, facts))
    } else if same_text(endpoint, "status") {
        Some(ok(state.match_status_json(facts)))
    } else {
        None
    }
}

fn match_readiness_response(state: &StatusState, facts: &MatchFacts) -> (response: HttpResponse)
    ensures
        state.match_endpoint(*facts, "readyz"@) == Some(response@),
{
    let ready = state.match_ready(facts);
    let mut body = "{\"id\":\"".to_owned();
    body.push_str(facts.id.as_str());
    body.push_str("\",\"ready\":");
    push_flag(&mut body, ready);
    body.push_str(",\"draining\":");
    push_flag(&mut body, state.match_draining(facts));
    body.push_str(",\"frozen\":");
    push_flag(&mut body, facts.frozen);
    body.push_str("}");
    proof {
        reveal_strlit("healthz");
        reveal_strlit("readyz");
        assert("healthz"@.len() != "readyz"@.len());
    }
    response_for_readiness(ready, body)
}

/// Headers as they stand in an answer.
pub open spec fn header_lines(headers: Seq<(Seq<char>, Seq<char>)>) -> Seq<char>
    decreases headers.len(),
{
    if headers.len() == 0 {
        Seq::empty()
    } else {
        header_lines(headers.drop_last()) + headers.last().0 + ": "@ + headers.last().1 + "\r\n"@
    }
}

impl HttpView {
    /// The answer as it is sent.
    pub open spec fn text(self) -> Seq<char> {
        "HTTP/1.1 "@ + crate::text::decimal(self.status as nat) + " "@ + self.reason
            + "\r\nContent-Type: application/json\r\nContent-Length: "@ + crate::text::decimal(
            vstd::utf8::encode_utf8(self.body).len(),
        ) + "\r\nCache-Control: no-store\r\nConnection: close\r\n"@ + header_lines(
            self.extra_headers,
        ) + "\r\n"@ + self.body
    }
}

impl HttpResponse {
    /// The answer as it is sent.
    pub fn to_text(&self) -> (text: String)
        ensures
            text@ == self@.text(),
    {
        let mut text = "HTTP/1.1 ".to_owned();
        push_decimal(&mut text, self.status as u64);
        text.push_str(" ");
        text.push_str(self.reason);
        text.push_str("\r\nContent-Type: application/json\r\nContent-Length: ");
        push_decimal(&mut text, self.body.as_str().as_bytes().len() as u64);
        text.push_str("\r\nCache-Control: no-store\r\nConnection: close\r\n");
        let ghost head = text@;
        let ghost headers = header_views(self.extra_headers@);
        let mut i: usize = 0;
        assert(text@ =~= head + header_lines(headers.take(0)));
        while i < self.extra_headers.len()
            invariant
                i <= self.extra_headers@.len(),
                headers == header_views(self.extra_headers@),
                text@ == head + header_lines(headers.take(i as int)),
            decreases self.extra_headers@.len() - i,
        {
            assert(headers.take(i + 1).drop_last() =~= headers.take(i as int));
            let (name, value) = self.extra_headers[i];
            assert(headers.take(i + 1).last() == (name@, value@));
            text.push_str(name);
            text.push_str(": ");
            text.push_str(value);
            text.push_str("\r\n");
            i = i + 1;
            assert(text@ =~= head + header_lines(headers.take(i as int)));
        }
        assert(headers.take(i as int) =~= headers);
        text.push_str("\r\n");
        text.push_str(self.body.as_str());
        text
    }
}

/// Whether an empty line ends at some place of a header.
pub open spec fn ends_at(bytes: Seq<u8>, index: int) -> bool {
    &&& 0 <= index
    &&& index + 4 <= bytes.len()
    &&& bytes.subrange(index, index + 4) == seq![13u8, 10u8, 13u8, 10u8]
}

/// How far a request header has come.
#[derive(Clone, Debug, Eq, PartialEq)]
pub enum RequestProgress {
    /// More has to come.
    NeedsMore,
    /// It is all there.
    Complete(String),
    /// It is all there, but it is no text.
    Malformed,
    /// It is longer than what is taken.
    TooLarge,
}

/// Says how far a request header has come, given the bytes so far.
pub fn request_progress(bytes: &[u8]) -> (progress: RequestProgress)
    ensures
        if exists|index: int| #[trigger] ends_at(bytes@, index) {
            match progress {
                RequestProgress::Complete(text) => vstd::utf8::valid_utf8(bytes@) && text@
                    == vstd::utf8::decode_utf8(bytes@),
                RequestProgress::Malformed => !vstd::utf8::valid_utf8(bytes@),
                _ => false,
            }
        } else {
            progress == if bytes@.len() >= MAX_REQUEST_HEADER_BYTES {
                RequestProgress::TooLarge
            } else {
                RequestProgress::NeedsMore
            }
        },
{
    let mut i: usize = 0;
    while i < bytes.len() && bytes.len() - i >= 4
        invariant
            i <= bytes.len(),
            forall|j: int| 0 <= j < i ==> !#[trigger] ends_at(bytes@, j),
        decreases bytes.len() - i,
    {
        if bytes[i] == 13 && bytes[i + 1] == 10 && bytes[i + 2] == 13 && bytes[i + 3] == 10 {
            assert(bytes@.subrange(i as int, i + 4) =~= seq![13u8, 10u8, 13u8, 10u8]);
            assert(ends_at(bytes@, i as int));
            return match utf8_text(bytes) {
                Some(text) => RequestProgress::Complete(text),
                None => RequestProgress::Malformed,
            };
        }
        proof {
            if ends_at(bytes@, i as int) {
                let window = bytes@.subrange(i as int, i + 4);
                assert(window[0] == bytes@[i as int] && window[1] == bytes@[i + 1]);
                assert(window[2] == bytes@[i + 2] && window[3] == bytes@[i + 3]);
            }
        }
        i = i + 1;
    }
    assert forall|j: int| !#[trigger] ends_at(bytes@, j) by {}
    if bytes.len() >= MAX_REQUEST_HEADER_BYTES {
        RequestProgress::TooLarge
    } else {
        RequestProgress::NeedsMore
    }
}

/// How a process that served and told its status ends: the transport's failure comes first, and a
/// status listener that stopped before the transport is a failure of its own.
pub fn settle_serving(
    transport: Result<(), MatchHostTransportError>,
    status: Result<(), HostStatusServerError>,
    status_stopped_first: bool,
) -> (result: Result<(), HostStatusServerError>)
    ensures
        match transport {
            Err(error) => result == Err::<(), _>(HostStatusServerError::Transport(error)),
            Ok(_) => match status {
                Err(error) => result == Err::<(), _>(error),
                Ok(_) => if status_stopped_first {
                    result == Err::<(), _>(HostStatusServerError::ExitedUnexpectedly)
                } else {
                    result is Ok
                },
            },
        },
{
    if let Err(error) = transport {
        return Err(HostStatusServerError::Transport(error));
    }
    if let Err(error) = status {
        return Err(error);
    }
    if status_stopped_first {
        return Err(HostStatusServerError::ExitedUnexpectedly);
    }
    Ok(())
}

/// Health does not depend on readiness: whatever the state, `/healthz` is answered well, while a
/// process that drains, or that does not serve yet, is unready with every one of its matches.
pub proof fn law_drain_unreadies_without_failing_health(state: StatusState, facts: MatchFacts)
    ensures
        state.path_answer("/healthz"@) == well("{\"healthy\":true}"@),
        state.draining || !state.serving ==> !state.any_ready() && !state.ready(facts),
        !state.any_ready() ==> state.path_answer("/readyz"@).status == 503,
        state.any_ready() ==> state.path_answer("/readyz"@).status == 200,
{
    reveal_strlit("/healthz");
    reveal_strlit("/readyz");
    assert("/healthz"@.len() != "/readyz"@.len());
}

/// Readiness is a matter of the matches that are hosted, not of room for more: however many matches
/// fit, the answer is the same.
pub proof fn law_readiness_ignores_placement_capacity(
    state: StatusState,
    other: StatusState,
)
    requires
        state.process.matches@ == other.process.matches@,
        state.serving == other.serving,
        state.draining == other.draining,
    ensures
        state.any_ready() == other.any_ready(),
        state.path_answer("/readyz"@) == other.path_answer("/readyz"@),
{
    assert forall|facts: MatchFacts| #[trigger] state.ready(facts) == other.ready(facts) by {}
    if state.any_ready() {
        let i = choose|i: int|
            0 <= i < state.process.matches@.len() && state.ready(
                #[trigger] state.process.matches@[i],
            );
        assert(other.ready(other.process.matches@[i]));
    }
    if other.any_ready() {
        let i = choose|i: int|
            0 <= i < other.process.matches@.len() && other.ready(
                #[trigger] other.process.matches@[i],
            );
        assert(state.ready(state.process.matches@[i]));
    }
    reveal_strlit("/healthz");
    reveal_strlit("/readyz");
    assert("/healthz"@.len() != "/readyz"@.len());
}

/// No request but a `GET` is answered well.
pub proof fn law_status_is_read_only(state: StatusState, request: Seq<char>)
    requires
        crate::text::words(crate::text::lines(request)[0])[0] != "GET"@,
    ensures
        state.request_answer(request).status == 405 || state.request_answer(request).status == 400,
{
}

} // verus!
