use game_server::connection::AdmissionRequest;
use game_server::transport::parse_admission_request;
use game_server::{ReconnectToken, RECONNECT_TOKEN_BYTES};

#[test]
fn parses_new_and_reconnect_paths() {
    assert_eq!(
        parse_admission_request("/match/one", "/match/one"),
        Some(AdmissionRequest::New)
    );
    let token = ReconnectToken([0xab; RECONNECT_TOKEN_BYTES]);
    assert_eq!(
        parse_admission_request(
            &format!("/match/one/reconnect/{}", token.encode_hex()),
            "/match/one"
        ),
        Some(AdmissionRequest::Reconnect(token))
    );
    assert_eq!(
        parse_admission_request("/match/one/reconnect/not-valid", "/match/one"),
        None
    );
}
