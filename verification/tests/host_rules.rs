use game_server::host_recovery::{
    encode_manifest, expected_ids, prepare_host, recovery_file_name, sibling_name,
    validate_bundle_entries, validate_manifest, validate_manifest_size,
};
use game_server::host_status::{
    incomplete_request, request_header_too_large, request_progress, request_timeout,
    route_request, settle_serving, MatchFacts, ProcessFacts, RequestProgress, StatusState,
};
use game_server::text::is_white_space;
use game_server::transport::freeze_and_image;
use game_server::{
    BrowserRoutePrefix, DemoSimulation, HostError, HostStatusServerError, MatchHost,
    MatchHostRecoveryConfig, MatchHostRecoveryError, MatchHostTransportError,
    MatchHostWebTransportConfig, MatchId, MatchIdError, MatchRuntime, ReconnectToken, RecoveryImage,
};
use std::path::PathBuf;
use std::time::Duration;

fn id(value: &str) -> MatchId {
    MatchId::new(value).unwrap()
}

fn game() -> MatchRuntime<DemoSimulation> {
    MatchRuntime::new(DemoSimulation::new(), 10)
}

fn stored_image() -> RecoveryImage {
    let mut runtime = MatchRuntime::new_with_replay_capture(DemoSimulation::new(), 10);
    runtime.admit_player(ReconnectToken([1; 16])).unwrap();
    runtime.advance_tick().unwrap();
    freeze_and_image(&mut runtime, true).unwrap().unwrap()
}

#[test]
fn hosts_keep_their_matches_in_the_order_of_the_names() {
    let mut host = MatchHost::new(4).unwrap();
    for name in ["b", "B", "a-1", "a"] {
        host.insert(id(name), game()).unwrap();
    }
    let names: Vec<String> =
        host.statuses().iter().map(|status| status.id.as_str().to_owned()).collect();
    assert_eq!(names, vec!["B", "a", "a-1", "b"]);
    assert_eq!(host.len(), 4);
    assert_eq!(host.match_status(&id("a")).unwrap().id, id("a"));
    assert!(host.match_status(&id("z")).is_none());
    assert!(host.runtime(&id("z")).is_none());
    assert_eq!(
        host.begin_match_drain(&id("z")),
        Err(HostError::UnknownMatch(id("z")))
    );
    assert_eq!(host.with_runtime_mut(&id("a"), |runtime| runtime.slot_count()), Some(0));
    let taken: Vec<String> = host
        .into_runtimes()
        .iter()
        .map(|hosted| hosted.id.as_str().to_owned())
        .collect();
    assert_eq!(taken, vec!["B", "a", "a-1", "b"]);
}

#[test]
fn match_names_accept_their_longest_form() {
    assert!(MatchId::new("a".repeat(64)).is_ok());
    assert_eq!(
        MatchId::new("a b"),
        Err(MatchIdError::InvalidCharacter(' '))
    );
    assert_eq!(
        MatchId::new("ä").unwrap_err().to_string(),
        "match id contains unsupported character 'ä'; use ASCII letters, digits, '-' or '_'"
    );
    assert_eq!(
        MatchId::new("a\nb").unwrap_err().to_string(),
        "match id contains unsupported character '\\n'; use ASCII letters, digits, '-' or '_'"
    );
    assert_eq!(MatchId::new("").unwrap_err().to_string(), "match id must not be empty");
    assert_eq!(
        MatchId::new("a".repeat(65)).unwrap_err().to_string(),
        "match id length 65 exceeds maximum 64"
    );
}

#[test]
fn host_errors_are_described() {
    let described = [
        (HostError::ZeroCapacity, "match host capacity must be non-zero"),
        (HostError::Draining, "match host is draining and rejects placement"),
        (HostError::DuplicateMatch(id("a")), "match a is already hosted"),
        (HostError::AtCapacity { maximum: 3 }, "match host has reached capacity 3"),
        (HostError::UnknownMatch(id("a")), "match a is not hosted"),
        (HostError::MatchNotDraining(id("a")), "match a must be draining before removal"),
        (
            HostError::MatchNotIdle { id: id("a"), active_players: 1, occupied_slots: 2 },
            "match a still owns 2 player slot(s), including 1 active connection(s)",
        ),
    ];
    for (error, words) in described {
        assert_eq!(error.to_string(), words);
    }
}

#[test]
fn expected_names_are_sorted_and_unique() {
    let matches = vec![(id("b"), 0), (id("a"), 1)];
    assert_eq!(expected_ids(&matches), Ok(vec![id("a"), id("b")]));
    assert_eq!(
        expected_ids(&Vec::<(MatchId, u8)>::new()),
        Err(MatchHostRecoveryError::EmptyMatchSet)
    );
    let twice = vec![(id("b"), 0), (id("a"), 1), (id("b"), 2)];
    assert_eq!(
        expected_ids(&twice),
        Err(MatchHostRecoveryError::DuplicateMatch(id("b")))
    );
}

#[test]
fn manifests_say_what_is_wrong() {
    let ids = [id("alpha"), id("beta")];
    assert_eq!(
        validate_manifest("", &ids),
        Err(MatchHostRecoveryError::Manifest(
            "missing or unsupported bundle header".to_owned()
        ))
    );
    assert_eq!(
        validate_manifest("GSHR 2\nalpha\nbeta\n", &ids),
        Err(MatchHostRecoveryError::Manifest(
            "missing or unsupported bundle header".to_owned()
        ))
    );
    assert_eq!(
        validate_manifest("GSHR 1\nbe\"ta\n", &ids),
        Err(MatchHostRecoveryError::Manifest(
            "configured matches [\"alpha\", \"beta\"] do not match bundle matches [\"be\\\"ta\"]"
                .to_owned()
        ))
    );
    assert_eq!(validate_manifest("GSHR 1\r\nalpha\r\nbeta", &ids), Ok(()));
    assert_eq!(encode_manifest(&[]), "GSHR 1\n");
    assert_eq!(validate_manifest_size(1048576), Ok(()));
    assert_eq!(
        validate_manifest_size(1048577),
        Err(MatchHostRecoveryError::Manifest(
            "manifest size 1048577 exceeds limit 1048576".to_owned()
        ))
    );
}

#[test]
fn bundles_hold_the_manifest_and_the_images_and_nothing_else() {
    let ids = [id("alpha"), id("beta")];
    let entries = |names: &[&str]| -> Vec<String> {
        names.iter().map(|name| (*name).to_owned()).collect()
    };
    let whole = entries(&["beta.recovery", "manifest", "alpha.recovery"]);
    assert_eq!(validate_bundle_entries(&whole, &ids), Ok(()));
    let partial = entries(&["manifest", "alpha.recovery"]);
    assert_eq!(
        validate_bundle_entries(&partial, &ids),
        Err(MatchHostRecoveryError::Manifest(
            "bundle entries {\"alpha.recovery\", \"manifest\"} do not match expected entries {\"alpha.recovery\", \"beta.recovery\", \"manifest\"}"
                .to_owned()
        ))
    );
    assert_eq!(recovery_file_name(&ids[0]), "alpha.recovery");
    assert_eq!(sibling_name("bundle", ".consumed"), "bundle.consumed");
}

#[test]
fn hosts_are_prepared_anew_or_from_their_images() {
    let anew = prepare_host(
        vec![(id("b"), DemoSimulation::new()), (id("a"), DemoSimulation::new())],
        2,
        10,
        None,
    )
    .unwrap();
    assert_eq!(anew.len(), 2);
    assert!(anew.runtime(&id("a")).unwrap().replay_log().is_some());
    let restored = prepare_host(
        vec![(id("a"), DemoSimulation::new())],
        1,
        10,
        Some(vec![(id("a"), stored_image())]),
    )
    .unwrap();
    assert_eq!(restored.runtime(&id("a")).unwrap().current_tick(), 1);
    assert_eq!(restored.runtime(&id("a")).unwrap().slot_count(), 1);
}

#[test]
fn preparation_reports_the_match_that_failed() {
    let matches = |names: &[&str]| -> Vec<(MatchId, DemoSimulation)> {
        names.iter().map(|name| (id(name), DemoSimulation::new())).collect()
    };
    let refused = |result: Result<MatchHost<DemoSimulation>, MatchHostRecoveryError>| {
        result.map(|host| host.len()).unwrap_err()
    };
    assert_eq!(
        refused(prepare_host(matches(&["a"]), 0, 10, None)),
        MatchHostRecoveryError::Host("match host capacity must be non-zero".to_owned())
    );
    assert_eq!(
        refused(prepare_host(matches(&["a", "b"]), 1, 10, None)),
        MatchHostRecoveryError::Host("match host has reached capacity 1".to_owned())
    );
    assert_eq!(
        refused(prepare_host(matches(&["a"]), 1, 10, Some(Vec::new()))),
        MatchHostRecoveryError::Manifest(
            "recovery image for configured match a is missing".to_owned()
        )
    );
    let mut broken = stored_image();
    broken.current_tick = 9;
    assert_eq!(
        refused(prepare_host(matches(&["a"]), 1, 10, Some(vec![(id("a"), broken)]))),
        MatchHostRecoveryError::Match {
            id: id("a"),
            error: "recovery error: recovery replay final tick Some(1) does not match image tick 9"
                .to_owned(),
        }
    );
}

#[test]
fn hosted_recovery_errors_are_described() {
    let text = || "x".to_owned();
    let described = [
        (
            MatchHostRecoveryError::EmptyMatchSet,
            "hosted recovery requires at least one match",
        ),
        (
            MatchHostRecoveryError::DuplicateMatch(id("a")),
            "hosted recovery match a is configured more than once",
        ),
        (MatchHostRecoveryError::Host(text()), "hosted recovery host error: x"),
        (MatchHostRecoveryError::Manifest(text()), "hosted recovery manifest error: x"),
        (
            MatchHostRecoveryError::Match { id: id("a"), error: text() },
            "hosted recovery for match a failed: x",
        ),
        (MatchHostRecoveryError::Io(text()), "hosted recovery I/O error: x"),
    ];
    for (error, words) in described {
        assert_eq!(error.to_string(), words);
    }
}

fn state() -> StatusState {
    StatusState {
        process: ProcessFacts {
            hosted_matches: 1,
            max_matches: 3,
            player_capacity: 4,
            matches: vec![MatchFacts {
                id: id("alpha"),
                draining: false,
                frozen: false,
                max_players: 4,
            }],
        },
        serving: true,
        draining: false,
    }
}

fn body(target: &str) -> (u16, String) {
    let response = route_request(&format!("GET {target} HTTP/1.1\r\n\r\n"), &state());
    (response.status, response.body)
}

#[test]
fn status_bodies_are_exact() {
    assert_eq!(body("/healthz"), (200, "{\"healthy\":true}".to_owned()));
    assert_eq!(
        body("/readyz?verbose=1"),
        (200, "{\"ready\":true,\"draining\":false}".to_owned())
    );
    let alpha = "{\"id\":\"alpha\",\"healthy\":true,\"ready\":true,\"draining\":false,\"frozen\":false,\"maxPlayers\":4}";
    assert_eq!(body("/matches/alpha/status"), (200, alpha.to_owned()));
    assert_eq!(
        body("/status"),
        (
            200,
            format!(
                "{{\"version\":1,\"healthy\":true,\"ready\":true,\"draining\":false,\"capacity\":{{\"hostedMatches\":1,\"maxMatches\":3,\"remainingMatches\":2,\"playerCapacity\":4}},\"matches\":[{alpha}]}}"
            )
        )
    );
    assert_eq!(
        body("/matches/alpha/healthz"),
        (200, "{\"id\":\"alpha\",\"healthy\":true}".to_owned())
    );
    assert_eq!(
        body("/matches/alpha/readyz"),
        (
            200,
            "{\"id\":\"alpha\",\"ready\":true,\"draining\":false,\"frozen\":false}".to_owned()
        )
    );
}

#[test]
fn status_paths_outside_the_contract_are_not_found() {
    for target in [
        "/",
        "/matches/alpha",
        "/matches//status",
        "/matches/alpha/status/more",
        "/matches/alpha/other",
        "/Status",
    ] {
        assert_eq!(body(target), (404, "{\"error\":\"not-found\"}".to_owned()));
    }
}

#[test]
fn malformed_status_requests_are_told_so() {
    for request in [
        "",
        "GET",
        "GET /status",
        "GET /status HTTP/2",
        "GET /status HTTP/1.1 more",
        "\r\n",
        "POST /status HTTP/2\r\n\r\n",
    ] {
        assert_eq!(route_request(request, &state()).status, 400);
    }
    assert_eq!(route_request("GET\u{a0}/healthz\tHTTP/1.0\n", &state()).status, 200);
}

#[test]
fn status_answers_are_sent_as_http() {
    let response = route_request("POST /status HTTP/1.1\r\n\r\n", &state());
    assert_eq!(
        response.to_text(),
        "HTTP/1.1 405 Method Not Allowed\r\nContent-Type: application/json\r\nContent-Length: 30\r\nCache-Control: no-store\r\nConnection: close\r\nAllow: GET\r\n\r\n{\"error\":\"method-not-allowed\"}"
    );
    assert_eq!(request_header_too_large().status, 431);
    assert_eq!(incomplete_request().status, 400);
    assert_eq!(request_timeout().status, 408);
}

#[test]
fn request_headers_are_taken_up_to_their_empty_line() {
    assert_eq!(request_progress(b"GET / HTTP/1.1\r\n"), RequestProgress::NeedsMore);
    assert_eq!(
        request_progress(b"GET / HTTP/1.1\r\n\r\n"),
        RequestProgress::Complete("GET / HTTP/1.1\r\n\r\n".to_owned())
    );
    assert_eq!(request_progress(b"\xff\r\n\r\n"), RequestProgress::Malformed);
    assert_eq!(request_progress(&[b'a'; 4096]), RequestProgress::TooLarge);
    assert_eq!(request_progress(&[b'a'; 4095]), RequestProgress::NeedsMore);
}

#[test]
fn status_state_starts_from_the_host() {
    let mut host = MatchHost::new(3).unwrap();
    host.insert(id("one"), game()).unwrap();
    host.begin_match_drain(&id("one")).unwrap();
    let mut state = StatusState::from_host(&host);
    assert_eq!(state.process.hosted_matches, 1);
    assert_eq!(state.process.max_matches, 3);
    assert_eq!(state.process.player_capacity, 16);
    assert!(state.process.matches[0].draining);
    state.mark_serving();
    assert!(!state.process_ready());
    assert!(!state.process_draining());
}

#[test]
fn serving_ends_with_the_first_failure_that_matters() {
    let stopped = || HostStatusServerError::Serve("x".to_owned());
    assert_eq!(settle_serving(Ok(()), Ok(()), false), Ok(()));
    assert_eq!(
        settle_serving(Ok(()), Ok(()), true),
        Err(HostStatusServerError::ExitedUnexpectedly)
    );
    assert_eq!(settle_serving(Ok(()), Err(stopped()), true), Err(stopped()));
    assert_eq!(
        settle_serving(Err(MatchHostTransportError::EmptyHost), Err(stopped()), false),
        Err(HostStatusServerError::Transport(MatchHostTransportError::EmptyHost))
    );
    assert_eq!(
        HostStatusServerError::from(MatchHostTransportError::EmptyHost).to_string(),
        "match host must contain at least one match"
    );
    assert_eq!(
        HostStatusServerError::Bind("x".to_owned()).to_string(),
        "host status listener bind failed: x"
    );
    assert_eq!(stopped().to_string(), "host status listener failed: x");
    assert_eq!(
        HostStatusServerError::Task("x".to_owned()).to_string(),
        "host status task failed: x"
    );
    assert_eq!(
        HostStatusServerError::ExitedUnexpectedly.to_string(),
        "host status listener exited before transport stopped"
    );
}

#[test]
fn white_space_is_what_the_language_takes_for_it() {
    for character in '\0'..=char::MAX {
        assert_eq!(is_white_space(character), character.is_whitespace());
    }
}

#[test]
fn refused_placements_show_nothing_of_the_match() {
    let mut host = MatchHost::new(2).unwrap();
    host.insert(id("a"), game()).unwrap();
    let mut again = game();
    again.admit_player(ReconnectToken([7; 16])).unwrap();
    let failure = host.insert(id("a"), again).unwrap_err();
    assert_eq!(
        format!("{failure:?}"),
        "PlacementFailure { error: DuplicateMatch(MatchId(\"a\")), id: MatchId(\"a\"), runtime: \"<retained>\" }"
    );
    assert_eq!(
        format!("{failure:#?}").lines().last(),
        Some("}")
    );
    assert_eq!(failure.into_parts().2.slot_count(), 1);
}

#[test]
fn operations_on_a_hosted_match_may_admit_and_tick() {
    let mut host = MatchHost::new(1).unwrap();
    host.insert(id("a"), game()).unwrap();
    let lease = host
        .with_runtime_mut(&id("a"), |runtime| {
            let lease = runtime.admit_player(ReconnectToken([7; 16])).unwrap();
            runtime.advance_tick().unwrap();
            lease
        })
        .unwrap();
    assert_eq!(lease.player_id, 1);
    assert_eq!(host.match_status(&id("a")).unwrap().current_tick, 1);
    host.begin_drain();
    host.with_runtime_mut(&id("a"), |runtime| {
        runtime.resume_after_failed_recovery();
        runtime.disconnect(lease.player_id, lease.connection_epoch);
    });
    assert!(host.runtime(&id("a")).unwrap().is_draining());
}

#[test]
fn settings_of_a_host_can_be_copied() {
    let config = MatchHostWebTransportConfig {
        port: 4433,
        certificate_pem: PathBuf::from("cert.pem"),
        private_key_pem: PathBuf::from("key.pem"),
        route_prefix: BrowserRoutePrefix::new("/game").unwrap(),
        drain_grace: Duration::from_millis(500),
    };
    let copy = config.clone();
    assert_eq!(copy.port, 4433);
    assert_eq!(copy.certificate_pem, config.certificate_pem);
    assert_eq!(copy.route_prefix, config.route_prefix);
    let recovery = MatchHostRecoveryConfig { directory: PathBuf::from("host.recovery") };
    assert_eq!(recovery.clone(), recovery);
}
