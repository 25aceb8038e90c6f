use yewchat::{
    decode, decode_chat_payload, encode, DecodeError, MessageData, MsgTypes, WebSocketMessage,
};

fn envelope(
    message_type: MsgTypes,
    data_array: Option<Vec<&str>>,
    data: Option<&str>,
) -> WebSocketMessage {
    WebSocketMessage {
        message_type,
        data_array: data_array.map(|names| names.into_iter().map(String::from).collect()),
        data: data.map(String::from),
    }
}

#[test]
fn encode_register_is_the_documented_frame() {
    let frame = encode(&envelope(MsgTypes::Register, None, Some("alice")));
    assert_eq!(frame, r#"{"messageType":"register","dataArray":null,"data":"alice"}"#);
}

#[test]
fn encode_users_lists_the_names_in_order() {
    let frame = encode(&envelope(MsgTypes::Users, Some(vec!["alice", "bob"]), None));
    assert_eq!(frame, r#"{"messageType":"users","dataArray":["alice","bob"],"data":null}"#);
}

#[test]
fn encode_empty_array_and_both_fields() {
    let frame = encode(&envelope(MsgTypes::Message, Some(vec![]), Some("hi")));
    assert_eq!(frame, r#"{"messageType":"message","dataArray":[],"data":"hi"}"#);
}

#[test]
fn encode_escapes_quotes_backslashes_and_controls() {
    let frame = encode(&envelope(
        MsgTypes::Message,
        None,
        Some("a\"b\\c\n\r\t\u{8}\u{c}\u{1}\u{1f}/\u{7f}é😊"),
    ));
    assert_eq!(
        frame,
        "{\"messageType\":\"message\",\"dataArray\":null,\"data\":\"a\\\"b\\\\c\\n\\r\\t\\b\\f\\u0001\\u001f/\u{7f}é😊\"}"
    );
}

#[test]
fn decode_undoes_encode() {
    let cases = vec![
        envelope(MsgTypes::Register, None, Some("alice")),
        envelope(MsgTypes::Users, Some(vec!["alice", "bob", "c\"d"]), None),
        envelope(MsgTypes::Users, Some(vec![]), None),
        envelope(MsgTypes::Users, Some(vec![""]), Some("")),
        envelope(MsgTypes::Message, None, None),
        envelope(MsgTypes::Message, None, Some("{\"from\":\"bob\",\"message\":\"hi\"}")),
        envelope(MsgTypes::Message, Some(vec!["x", "y"]), Some("\u{0}\u{1f}\\\"\n😊é\u{ffff}")),
    ];
    for case in cases {
        assert_eq!(decode(&encode(&case)), Ok(case));
    }
}

#[test]
fn decode_reads_the_documented_frames() {
    assert_eq!(
        decode(r#"{"messageType":"users","dataArray":["alice","bob"],"data":null}"#),
        Ok(envelope(MsgTypes::Users, Some(vec!["alice", "bob"]), None))
    );
    assert_eq!(
        decode(r#"{"messageType":"register","dataArray":null,"data":"alice"}"#),
        Ok(envelope(MsgTypes::Register, None, Some("alice")))
    );
}

#[test]
fn decode_allows_whitespace_any_order_and_missing_optionals() {
    assert_eq!(
        decode(" \n{ \"data\" : \"x\" ,\t\"messageType\"\r:\n\"message\" } \n"),
        Ok(envelope(MsgTypes::Message, None, Some("x")))
    );
    assert_eq!(
        decode(r#"{"messageType":"users"}"#),
        Ok(envelope(MsgTypes::Users, None, None))
    );
    assert_eq!(
        decode(r#"{"dataArray":[ "a" , "b" ],"messageType":"users"}"#),
        Ok(envelope(MsgTypes::Users, Some(vec!["a", "b"]), None))
    );
}

#[test]
fn decode_skips_members_it_does_not_know() {
    let text = r#"{"id":17,"messageType":"register","x":[1,-2.5e+3,true,false,null,{"k":[{}]}],"data":"alice","y":{"z":"\u00e9"},"n":0.0E-0}"#;
    assert_eq!(decode(text), Ok(envelope(MsgTypes::Register, None, Some("alice"))));
}

#[test]
fn decode_reads_escapes() {
    assert_eq!(
        decode(r#"{"messageType":"message","data":"\"\\\/\b\f\n\r\t\u0041\u00e9\ud83d\ude0A\uFFFF"}"#),
        Ok(envelope(
            MsgTypes::Message,
            None,
            Some("\"\\/\u{8}\u{c}\n\r\tAé😊\u{ffff}")
        ))
    );
}

#[test]
fn decode_rejects_text_that_is_not_a_document() {
    let cases = vec![
        "",
        "   ",
        "not json",
        "{",
        "}",
        "{\"messageType\":\"users\"",
        "{\"messageType\":\"users\"} x",
        "{\"messageType\":\"users\",}",
        "{,\"messageType\":\"users\"}",
        "{\"messageType\" \"users\"}",
        "{messageType:\"users\"}",
        "{'messageType':'users'}",
        "{\"messageType\":\"users\",\"x\":01}",
        "{\"messageType\":\"users\",\"x\":1.}",
        "{\"messageType\":\"users\",\"x\":.5}",
        "{\"messageType\":\"users\",\"x\":1e}",
        "{\"messageType\":\"users\",\"x\":-}",
        "{\"messageType\":\"users\",\"x\":+1}",
        "{\"messageType\":\"users\",\"x\":tru}",
        "{\"messageType\":\"users\",\"x\":nul}",
        "{\"messageType\":\"users\",\"x\":[1,]}",
        "{\"messageType\":\"users\",\"x\":[1 2]}",
        "{\"messageType\":\"users\",\"x\":{\"a\"}}",
        "{\"messageType\":\"users\",\"x\":\"unterminated}",
        "{\"messageType\":\"users\",\"x\":\"bad \\q escape\"}",
        "{\"messageType\":\"users\",\"x\":\"\\u12g4\"}",
        "{\"messageType\":\"users\",\"x\":\"\\ud83d\"}",
        "{\"messageType\":\"users\",\"x\":\"\\ude0a\"}",
        "{\"messageType\":\"users\",\"x\":\"\\ud83d\\u0041\"}",
        "{\"messageType\":\"users\",\"x\":\"raw\nnewline\"}",
        "{\"messageType\":\"users\",\"x\":\"raw\ttab\"}",
    ];
    for case in cases {
        assert_eq!(decode(case), Err(DecodeError::Malformed), "{case:?}");
    }
}

#[test]
fn decode_rejects_documents_of_another_shape() {
    let cases = vec![
        "[]",
        "\"users\"",
        "null",
        "17",
        "[\"users\",null,null]",
        "{}",
        "{\"data\":\"x\"}",
        "{\"messageType\":null}",
        "{\"messageType\":7}",
        "{\"messageType\":[\"users\"]}",
        "{\"messageType\":{\"users\":null}}",
        "{\"messageType\":\"users\",\"messageType\":\"users\"}",
        "{\"messageType\":\"users\",\"data\":\"a\",\"data\":\"a\"}",
        "{\"messageType\":\"users\",\"dataArray\":null,\"dataArray\":null}",
        "{\"messageType\":\"users\",\"data\":5}",
        "{\"messageType\":\"users\",\"data\":[\"a\"]}",
        "{\"messageType\":\"users\",\"data\":true}",
        "{\"messageType\":\"users\",\"dataArray\":\"a\"}",
        "{\"messageType\":\"users\",\"dataArray\":[\"a\",1]}",
        "{\"messageType\":\"users\",\"dataArray\":[null]}",
        "{\"messageType\":\"users\",\"dataArray\":[[\"a\"]]}",
        "{\"messageType\":\"users\",\"dataArray\":{}}",
    ];
    for case in cases {
        assert_eq!(decode(case), Err(DecodeError::Malformed), "{case:?}");
    }
}

#[test]
fn decode_reports_an_unknown_tag() {
    let cases = vec![
        r#"{"messageType":"bogus","dataArray":null,"data":null}"#,
        r#"{"messageType":"Users"}"#,
        r#"{"messageType":"USERS"}"#,
        r#"{"messageType":""}"#,
        r#"{"messageType":"users "}"#,
        r#"{"data":"x","messageType":"messages","other":[1,2]}"#,
    ];
    for case in cases {
        assert_eq!(decode(case), Err(DecodeError::UnknownTag), "{case:?}");
    }
}

#[test]
fn decode_prefers_malformed_over_unknown_tag() {
    assert_eq!(decode(r#"{"messageType":"bogus","data":5}"#), Err(DecodeError::Malformed));
    assert_eq!(decode(r#"{"messageType":"bogus"} trailing"#), Err(DecodeError::Malformed));
    assert_eq!(decode(r#"{"messageType":"bogus","x":}"#), Err(DecodeError::Malformed));
}

fn nested(levels: usize) -> String {
    let mut text = String::from("{\"messageType\":\"users\",\"x\":");
    for _ in 0..levels {
        text.push('[');
    }
    for _ in 0..levels {
        text.push(']');
    }
    text.push('}');
    text
}

#[test]
fn decode_bounds_the_nesting() {
    assert_eq!(decode(&nested(1)), Ok(envelope(MsgTypes::Users, None, None)));
    assert_eq!(decode(&nested(126)), Ok(envelope(MsgTypes::Users, None, None)));
    assert_eq!(decode(&nested(127)), Err(DecodeError::Malformed));
    assert_eq!(decode(&nested(5000)), Err(DecodeError::Malformed));
}

#[test]
fn decode_chat_payload_reads_from_and_message() {
    assert_eq!(
        decode_chat_payload(r#"{"from":"bob","message":":smile: hi"}"#),
        Ok(MessageData { from: "bob".to_string(), message: ":smile: hi".to_string() })
    );
    assert_eq!(
        decode_chat_payload(" { \"time\" : 1700000000 , \"message\" : \"\" , \"from\" : \"\\u0062ob\" } "),
        Ok(MessageData { from: "bob".to_string(), message: String::new() })
    );
}

#[test]
fn decode_chat_payload_rejects_what_is_not_a_payload() {
    let cases = vec![
        "",
        "hello",
        "{}",
        "[]",
        r#"{"from":"bob"}"#,
        r#"{"message":"hi"}"#,
        r#"{"from":null,"message":"hi"}"#,
        r#"{"from":"bob","message":null}"#,
        r#"{"from":"bob","message":5}"#,
        r#"{"from":["bob"],"message":"hi"}"#,
        r#"{"from":"bob","message":"hi","from":"bob"}"#,
        r#"{"from":"bob","message":"hi"} {}"#,
    ];
    for case in cases {
        assert_eq!(decode_chat_payload(case), Err(DecodeError::Malformed), "{case:?}");
    }
}
