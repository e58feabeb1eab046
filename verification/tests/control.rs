use game_server::{
    decode_control_request, decode_control_response, encode_control_request,
    encode_control_response, ControlContext, ControlRequest, ControlResponse, ControlWireError,
    MAX_CONTROL_PAYLOAD_BYTES,
};

#[test]
fn control_context_preserves_connection_fencing_identity() {
    let context = ControlContext {
        player_id: 7,
        connection_epoch: 11,
    };
    assert_eq!(context.player_id, 7);
    assert_eq!(context.connection_epoch, 11);
}

#[test]
fn request_and_response_round_trip_exactly() {
    let request = encode_control_request(b"ready").unwrap();
    assert_eq!(
        decode_control_request(&request).unwrap(),
        ControlRequest {
            payload: b"ready".to_vec()
        }
    );

    let response = encode_control_response(true, b"accepted").unwrap();
    assert_eq!(
        decode_control_response(&response).unwrap(),
        ControlResponse {
            accepted: true,
            payload: b"accepted".to_vec()
        }
    );

    let rejected = encode_control_response(false, b"").unwrap();
    assert_eq!(
        decode_control_response(&rejected).unwrap(),
        ControlResponse {
            accepted: false,
            payload: Vec::new()
        }
    );
}

#[test]
fn malformed_and_oversized_frames_fail_closed() {
    let oversized = vec![0_u8; MAX_CONTROL_PAYLOAD_BYTES + 1];
    assert!(matches!(
        encode_control_request(&oversized),
        Err(ControlWireError::PayloadTooLarge { .. })
    ));

    let mut truncated = encode_control_request(b"ready").unwrap();
    truncated.pop();
    assert_eq!(
        decode_control_request(&truncated),
        Err(ControlWireError::Truncated)
    );

    let mut trailing = encode_control_request(b"ready").unwrap();
    trailing.push(0);
    assert_eq!(
        decode_control_request(&trailing),
        Err(ControlWireError::TrailingBytes(1))
    );
}

#[test]
fn request_and_response_kinds_cannot_be_confused() {
    let request = encode_control_request(b"ready").unwrap();
    assert!(matches!(
        decode_control_response(&request),
        Err(ControlWireError::UnexpectedKind(_))
    ));

    let response = encode_control_response(true, b"accepted").unwrap();
    assert!(matches!(
        decode_control_request(&response),
        Err(ControlWireError::UnexpectedKind(_))
    ));
}
