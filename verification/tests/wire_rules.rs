use game_server::{
    decode_control_request, decode_control_response, encode_control_request,
    encode_control_response, BrowserRouteError, BrowserRoutePrefix, ControlContext,
    ControlService, ControlServiceError, ControlWireError, MatchControlService, MatchId,
    MatchIdError, RejectControlService, RejectMatchControlService,
};

#[test]
fn control_frames_are_exact() {
    assert_eq!(
        encode_control_request(b"ab").unwrap(),
        [b"GSCT".as_slice(), &[1, 1, 0, 2], b"ab"].concat()
    );
    assert_eq!(
        encode_control_response(false, b"no").unwrap(),
        [b"GSCT".as_slice(), &[1, 3, 0, 2], b"no"].concat()
    );
}

#[test]
fn control_frames_say_what_is_wrong() {
    let frame = |head: &[u8]| decode_control_request(head).unwrap_err();
    assert_eq!(frame(b"GSCT"), ControlWireError::Truncated);
    assert_eq!(frame(b"XSCT\x01\x01\x00\x00"), ControlWireError::InvalidMagic);
    assert_eq!(frame(b"GSCT\x02\x01\x00\x00"), ControlWireError::UnsupportedVersion(2));
    assert_eq!(frame(b"GSCT\x01\x02\x00\x00"), ControlWireError::UnexpectedKind(2));
    assert_eq!(frame(b"GSCT\x01\x01\x00\x01"), ControlWireError::Truncated);
    assert_eq!(frame(b"GSCT\x01\x01\x00\x00ab"), ControlWireError::TrailingBytes(2));
    assert_eq!(
        frame(b"GSCT\x01\x01\x10\x01"),
        ControlWireError::PayloadTooLarge { actual: 4097, maximum: 4096 }
    );
    assert_eq!(
        decode_control_response(b"GSCT\x01\x01\x00\x00"),
        Err(ControlWireError::UnexpectedKind(1))
    );
    assert_eq!(
        encode_control_request(&[0; 4097]),
        Err(ControlWireError::PayloadTooLarge { actual: 4097, maximum: 4096 })
    );
}

#[test]
fn control_errors_are_described() {
    let described = [
        (ControlWireError::InvalidMagic, "invalid reliable-control magic"),
        (
            ControlWireError::UnsupportedVersion(2),
            "unsupported reliable-control version 2",
        ),
        (ControlWireError::UnexpectedKind(9), "unexpected reliable-control kind 9"),
        (ControlWireError::Truncated, "truncated reliable-control frame"),
        (
            ControlWireError::TrailingBytes(3),
            "reliable-control frame has 3 trailing bytes",
        ),
        (
            ControlWireError::PayloadTooLarge { actual: 5, maximum: 4 },
            "reliable-control payload size 5 exceeds maximum 4",
        ),
    ];
    for (error, words) in described {
        assert_eq!(error.to_string(), words);
    }
    assert_eq!(ControlServiceError::new("busy").to_string(), "busy");
}

#[test]
fn control_without_a_service_is_refused() {
    let context = ControlContext { player_id: 1, connection_epoch: 1 };
    let single = RejectControlService.handle(context, b"x").unwrap_err();
    let hosted = RejectMatchControlService
        .handle(&MatchId::new("a").unwrap(), context, b"x")
        .unwrap_err();
    assert_eq!(single.to_string(), hosted.to_string());
}

#[test]
fn browser_route_errors_are_described() {
    let described = [
        (
            BrowserRouteError::InvalidBasePath,
            "browser route base path must use canonical absolute ASCII segments containing only letters, digits, '-' or '_'",
        ),
        (
            BrowserRouteError::InvalidMatchId(MatchIdError::Empty),
            "invalid browser match id: match id must not be empty",
        ),
        (BrowserRouteError::InvalidReconnectToken, "invalid browser reconnect token"),
        (BrowserRouteError::InvalidRouteShape, "invalid browser session route shape"),
    ];
    for (error, words) in described {
        assert_eq!(error.to_string(), words);
    }
    let prefix = BrowserRoutePrefix::new("/game").unwrap();
    assert_eq!(
        prefix.parse("/game/matches/a/reconnect/"),
        Err(BrowserRouteError::InvalidReconnectToken)
    );
    assert_eq!(prefix.parse("/game/matches/a/leave"), Err(BrowserRouteError::InvalidRouteShape));
    assert_eq!(prefix.parse("/gamematches/a"), Ok(None));
}
