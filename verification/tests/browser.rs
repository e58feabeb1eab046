use game_server::{
    browser_protocol_contract, BrowserAdmission, BrowserRouteError, BrowserRoutePrefix,
    BrowserSessionRoute, MatchId, ReconnectToken, CONTROL_FORMAT_VERSION, PROTOCOL_VERSION,
    RECONNECT_TOKEN_BYTES,
};

fn match_id(value: &str) -> MatchId {
    MatchId::new(value).unwrap()
}

#[test]
fn browser_protocol_contract_tracks_wire_limits() {
    assert_eq!(browser_protocol_contract().route_version, 1);
    assert_eq!(
        browser_protocol_contract().game_protocol_version,
        PROTOCOL_VERSION
    );
    assert_eq!(
        browser_protocol_contract().control_format_version,
        CONTROL_FORMAT_VERSION
    );
    assert_eq!(
        browser_protocol_contract().reconnect_token_bytes,
        RECONNECT_TOKEN_BYTES
    );
}

#[test]
fn builds_and_parses_match_and_reconnect_routes() {
    let prefix = BrowserRoutePrefix::new("/game").unwrap();
    let nested_prefix = BrowserRoutePrefix::new("/api/game_v1").unwrap();
    let id = match_id("uno_01");
    let token = ReconnectToken([0xab; RECONNECT_TOKEN_BYTES]);

    assert_eq!(prefix.match_path(&id), "/game/matches/uno_01");
    assert_eq!(
        nested_prefix.match_path(&id),
        "/api/game_v1/matches/uno_01"
    );
    assert_eq!(
        prefix.reconnect_path(&id, token),
        format!("/game/matches/uno_01/reconnect/{}", token.encode_hex())
    );
    assert_eq!(
        prefix.parse("/game/matches/uno_01").unwrap(),
        Some(BrowserSessionRoute {
            match_id: id.clone(),
            admission: BrowserAdmission::New,
        })
    );
    assert_eq!(
        prefix.parse(&prefix.reconnect_path(&id, token)).unwrap(),
        Some(BrowserSessionRoute {
            match_id: id,
            admission: BrowserAdmission::Reconnect(token),
        })
    );
}

#[test]
fn unrelated_paths_are_ignored_and_owned_malformed_routes_fail_closed() {
    let prefix = BrowserRoutePrefix::new("/game").unwrap();

    assert_eq!(prefix.parse("/health").unwrap(), None);
    assert!(matches!(
        prefix.parse("/game/matches/bad/id"),
        Err(BrowserRouteError::InvalidRouteShape)
    ));
    assert!(matches!(
        prefix.parse("/game/matches/one/reconnect/not-valid"),
        Err(BrowserRouteError::InvalidReconnectToken)
    ));
    assert!(matches!(
        prefix.parse("/game/matches/%2F"),
        Err(BrowserRouteError::InvalidMatchId(_))
    ));
}

#[test]
fn rejects_ambiguous_or_browser_normalized_base_paths() {
    for value in [
        "",
        "/",
        "game",
        "/game/",
        "/game//sessions",
        "/game?x=1",
        "/game/.",
        "/game/..",
        "/game\\sessions",
        "/game sessions",
        "/gáme",
        "/game/%2e%2e",
    ] {
        assert_eq!(
            BrowserRoutePrefix::new(value),
            Err(BrowserRouteError::InvalidBasePath)
        );
    }
}
