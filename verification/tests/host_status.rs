use game_server::host_status::{route_request, MatchFacts, ProcessFacts, StatusState};
use game_server::MatchId;

fn state() -> StatusState {
    StatusState {
        process: ProcessFacts {
            hosted_matches: 2,
            max_matches: 2,
            player_capacity: 8,
            matches: vec![
                MatchFacts {
                    id: MatchId::new("alpha").unwrap(),
                    draining: false,
                    frozen: false,
                    max_players: 4,
                },
                MatchFacts {
                    id: MatchId::new("beta").unwrap(),
                    draining: false,
                    frozen: true,
                    max_players: 4,
                },
            ],
        },
        serving: true,
        draining: false,
    }
}

#[test]
fn startup_is_unready_until_transport_signals_serving() {
    let mut state = state();
    state.serving = false;

    let starting = route_request("GET /readyz HTTP/1.1\r\n\r\n", &state);
    assert_eq!(starting.status, 503);
    assert!(!state.process_ready());

    state.mark_serving();
    let ready = route_request("GET /readyz HTTP/1.1\r\n\r\n", &state);
    assert_eq!(ready.status, 200);
}

#[test]
fn status_separates_service_readiness_from_match_placement_capacity() {
    let state = state();
    assert!(state.process_ready());
    let response = route_request("GET /readyz HTTP/1.1\r\n\r\n", &state);
    assert_eq!(response.status, 200);
    assert_eq!(state.process.max_matches, state.process.hosted_matches);
}

#[test]
fn process_drain_makes_process_and_matches_unready_without_failing_health() {
    let mut state = state();
    state.begin_process_drain();

    let process_ready = route_request("GET /readyz HTTP/1.1\r\n\r\n", &state);
    assert_eq!(process_ready.status, 503);
    assert!(process_ready.body.contains("\"draining\":true"));

    let match_ready = route_request("GET /matches/alpha/readyz HTTP/1.1\r\n\r\n", &state);
    assert_eq!(match_ready.status, 503);
    assert!(match_ready.body.contains("\"draining\":true"));

    let health = route_request("GET /healthz HTTP/1.1\r\n\r\n", &state);
    assert_eq!(health.status, 200);
}

#[test]
fn frozen_match_is_unready_while_other_match_keeps_process_ready() {
    let state = state();
    let frozen = route_request("GET /matches/beta/readyz HTTP/1.1\r\n\r\n", &state);
    assert_eq!(frozen.status, 503);
    assert!(frozen.body.contains("\"frozen\":true"));

    let process = route_request("GET /readyz HTTP/1.1\r\n\r\n", &state);
    assert_eq!(process.status, 200);
}

#[test]
fn status_routes_fail_closed_for_unknown_matches_and_mutating_methods() {
    let state = state();
    let missing = route_request("GET /matches/missing/status HTTP/1.1\r\n\r\n", &state);
    assert_eq!(missing.status, 404);

    let post = route_request("POST /status HTTP/1.1\r\n\r\n", &state);
    assert_eq!(post.status, 405);
    assert_eq!(post.extra_headers, &[("Allow", "GET")]);
}
