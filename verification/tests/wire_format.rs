use room_relay::room::RoomRequest;
use room_relay::frame::{CloseFrame, Frame};
use room_relay::wire::{
    close_frame, confirmation, decode_request, encode_request, encode_tagged, request_from_parts,
    user_joined, user_left, CLOSE_ERROR, CLOSE_POLICY, CLOSE_PROTOCOL,
};

#[test]
fn room_format() {
    let new_room = RoomRequest::NewRoom;

    println!("New room: {}", encode_request(&new_room));

    let existing_room = RoomRequest::JoinRoom("Amazing".to_string());
    println!("Existing room: {}", encode_request(&existing_room));
}

#[test]
fn encodes_requests_exactly() {
    assert_eq!(encode_request(&RoomRequest::NewRoom), "\"NewRoom\"");
    assert_eq!(
        encode_request(&RoomRequest::JoinRoom("Amazing".to_string())),
        "{\"JoinRoom\":\"Amazing\"}"
    );
    assert_eq!(
        encode_request(&RoomRequest::JoinWithCode("a\"b".to_string())),
        "{\"JoinWithCode\":\"a\\\"b\"}"
    );
}

#[test]
fn decodes_each_form() {
    assert_eq!(decode_request("\"NewRoom\""), Some(RoomRequest::NewRoom));
    assert_eq!(decode_request("{\"NewRoom\": null}"), Some(RoomRequest::NewRoom));
    assert_eq!(
        decode_request("{\"JoinRoom\": \"foo\"}"),
        Some(RoomRequest::JoinRoom("foo".to_string()))
    );
    assert_eq!(
        decode_request(" {\"JoinWithCode\":\"b\\u0061r\"} "),
        Some(RoomRequest::JoinWithCode("bar".to_string()))
    );
}

#[test]
fn decoding_undoes_encoding() {
    let requests = vec![
        RoomRequest::NewRoom,
        RoomRequest::JoinRoom("foo".to_string()),
        RoomRequest::JoinRoom(String::new()),
        RoomRequest::JoinWithCode("line\nbreak \"quoted\" \\ \u{1F600}".to_string()),
    ];
    for request in requests {
        assert_eq!(decode_request(&encode_request(&request)), Some(request));
    }
}

#[test]
fn rejects_what_is_no_request() {
    let texts = [
        "",
        "NewRoom",
        "\"newroom\"",
        "\"JoinRoom\"",
        "null",
        "5",
        "[]",
        "{}",
        "{\"NewRoom\": \"name\"}",
        "{\"NewRoom\": 1}",
        "{\"JoinRoom\": null}",
        "{\"JoinRoom\": 7}",
        "{\"JoinRoom\": [\"foo\"]}",
        "{\"JoinWithCode\": null}",
        "{\"joinroom\": \"foo\"}",
        "{\"JoinRoom\": \"foo\", \"JoinWithCode\": \"bar\"}",
        "{\"JoinRoom\": \"foo\"} trailing",
        "{\"JoinRoom\": \"foo\"",
        "{\"JoinRoom\": \"unterminated}",
    ];
    for text in texts {
        assert_eq!(decode_request(text), None);
    }
}

#[test]
fn request_from_parts_reads_the_parts() {
    let member = |key: &str, value: Option<&str>| (key.to_string(), value.map(|v| v.to_string()));
    assert_eq!(request_from_parts(Some("NewRoom".to_string()), None), Some(RoomRequest::NewRoom));
    assert_eq!(request_from_parts(Some("JoinRoom".to_string()), None), None);
    assert_eq!(
        request_from_parts(Some("Other".to_string()), Some(vec![member("JoinRoom", Some("foo"))])),
        None
    );
    assert_eq!(request_from_parts(None, None), None);
    assert_eq!(request_from_parts(None, Some(Vec::new())), None);
    assert_eq!(
        request_from_parts(None, Some(vec![member("NewRoom", None)])),
        Some(RoomRequest::NewRoom)
    );
    assert_eq!(request_from_parts(None, Some(vec![member("NewRoom", Some("x"))])), None);
    assert_eq!(
        request_from_parts(None, Some(vec![member("JoinRoom", Some("foo"))])),
        Some(RoomRequest::JoinRoom("foo".to_string()))
    );
    assert_eq!(
        request_from_parts(None, Some(vec![member("JoinWithCode", Some("bar"))])),
        Some(RoomRequest::JoinWithCode("bar".to_string()))
    );
    assert_eq!(request_from_parts(None, Some(vec![member("JoinRoom", None)])), None);
    assert_eq!(request_from_parts(None, Some(vec![member("Join", Some("foo"))])), None);
    assert_eq!(
        request_from_parts(
            None,
            Some(vec![member("JoinRoom", Some("foo")), member("JoinWithCode", Some("bar"))])
        ),
        None
    );
}

#[test]
fn encode_tagged_escapes_key_and_value() {
    assert_eq!(encode_tagged("k", "v"), "{\"k\":\"v\"}");
    assert_eq!(encode_tagged("a\"b", "c\\d\n"), "{\"a\\\"b\":\"c\\\\d\\n\"}");
    assert_eq!(encode_tagged("", ""), "{\"\":\"\"}");
}

#[test]
fn event_frames_have_the_documented_text() {
    assert_eq!(confirmation("foo"), Frame::Text("{\"JoinRoom\":\"foo\"}".to_string()));
    assert_eq!(
        user_joined("127.0.0.1:8080"),
        Frame::Text("{\"ip_joined\":\"127.0.0.1:8080\"}".to_string())
    );
    assert_eq!(user_left("[::1]:9"), Frame::Text("{\"ip_left\":\"[::1]:9\"}".to_string()));
}

#[test]
fn close_frames_carry_code_and_reason() {
    assert_eq!(CLOSE_PROTOCOL, 1002);
    assert_eq!(CLOSE_POLICY, 1008);
    assert_eq!(CLOSE_ERROR, 1011);
    assert_eq!(
        close_frame(CLOSE_PROTOCOL, "Invalid Room Request"),
        Frame::Close(Some(CloseFrame { code: 1002, reason: "Invalid Room Request".to_string() }))
    );
}
