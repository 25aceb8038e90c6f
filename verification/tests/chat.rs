use yewchat::{
    avatar_url, clears_input, compose, register_frame, Chat, DecodeError, Effect, MessageData,
    Msg, MsgTypes, SendError, UserProfile, WebSocketMessage,
};

fn profile(name: &str) -> UserProfile {
    UserProfile {
        name: name.to_string(),
        avatar: format!("https://avatars.dicebear.com/api/adventurer-neutral/{name}.svg"),
    }
}

fn message(from: &str, text: &str) -> MessageData {
    MessageData { from: from.to_string(), message: text.to_string() }
}

fn users_event(names: &[&str]) -> WebSocketMessage {
    WebSocketMessage {
        message_type: MsgTypes::Users,
        data_array: Some(names.iter().map(|name| name.to_string()).collect()),
        data: None,
    }
}

fn message_event(data: &str) -> WebSocketMessage {
    WebSocketMessage {
        message_type: MsgTypes::Message,
        data_array: None,
        data: Some(data.to_string()),
    }
}

fn inbound(text: &str) -> Msg {
    Msg::HandleMsg(text.to_string())
}

#[test]
fn avatar_is_derived_from_the_name() {
    assert_eq!(
        avatar_url("alice"),
        "https://avatars.dicebear.com/api/adventurer-neutral/alice.svg"
    );
    assert_eq!(avatar_url(""), "https://avatars.dicebear.com/api/adventurer-neutral/.svg");
}

#[test]
fn scenario_register_at_startup() {
    let (chat, frame) = Chat::create("alice");
    assert_eq!(frame, r#"{"messageType":"register","dataArray":null,"data":"alice"}"#);
    assert_eq!(register_frame("alice"), frame);
    assert!(chat.users().is_empty());
    assert!(chat.messages().is_empty());
}

#[test]
fn scenario_users_frame_replaces_the_roster() {
    let mut chat = Chat::new();
    let effect =
        chat.update(inbound(r#"{"messageType":"users","dataArray":["alice","bob"],"data":null}"#));
    assert_eq!(effect, Effect { redraw: true, outbound: None, dropped: None });
    assert_eq!(chat.users(), &vec![profile("alice"), profile("bob")]);
    assert!(chat.messages().is_empty());
}

#[test]
fn scenario_message_frame_is_logged_as_it_came() {
    let mut chat = Chat::new();
    let effect = chat.update(inbound(
        r#"{"messageType":"message","dataArray":null,"data":"{\"from\":\"bob\",\"message\":\":smile: hi\"}"}"#,
    ));
    assert_eq!(effect, Effect { redraw: true, outbound: None, dropped: None });
    assert_eq!(chat.messages(), &vec![message("bob", ":smile: hi")]);
    assert!(chat.users().is_empty());
}

#[test]
fn roster_is_replaced_wholesale_and_in_order() {
    let mut chat = Chat::new();
    assert_eq!(Ok(true), chat.apply(users_event(&["a", "b", "c"])));
    assert_eq!(chat.users(), &vec![profile("a"), profile("b"), profile("c")]);
    assert_eq!(Ok(true), chat.apply(users_event(&["c", "a"])));
    assert_eq!(chat.users(), &vec![profile("c"), profile("a")]);
    assert_eq!(Ok(true), chat.apply(users_event(&["dup", "dup"])));
    assert_eq!(chat.users(), &vec![profile("dup"), profile("dup")]);
    assert_eq!(Ok(true), chat.apply(users_event(&[])));
    assert!(chat.users().is_empty());
}

#[test]
fn users_without_a_list_empties_the_roster() {
    let mut chat = Chat::new();
    chat.apply(users_event(&["a"])).unwrap();
    let outcome = chat.apply(WebSocketMessage {
        message_type: MsgTypes::Users,
        data_array: None,
        data: Some("ignored".to_string()),
    });
    assert_eq!(outcome, Ok(true));
    assert!(chat.users().is_empty());
}

#[test]
fn log_is_append_only() {
    let mut chat = Chat::new();
    chat.apply(users_event(&["bob"])).unwrap();
    let mut expected = Vec::new();
    for n in 0..5 {
        let text = format!("message {n}");
        let data = format!("{{\"from\":\"bob\",\"message\":\"{text}\"}}");
        assert_eq!(Ok(true), chat.apply(message_event(&data)));
        expected.push(message("bob", &text));
        assert_eq!(chat.messages(), &expected);
    }
    chat.apply(users_event(&[])).unwrap();
    assert_eq!(chat.messages(), &expected);
    assert_eq!(Ok(true), chat.apply(message_event(r#"{"from":"bob","message":"message 0"}"#)));
    expected.push(message("bob", "message 0"));
    assert_eq!(chat.messages(), &expected);
    assert_eq!(chat.messages().len(), 6);
}

#[test]
fn message_from_unknown_sender_is_logged() {
    let mut chat = Chat::new();
    chat.apply(users_event(&["alice"])).unwrap();
    assert_eq!(Ok(true), chat.apply(message_event(r#"{"from":"mallory","message":"hi"}"#)));
    assert_eq!(chat.messages(), &vec![message("mallory", "hi")]);
    assert_eq!(chat.users(), &vec![profile("alice")]);
}

#[test]
fn sender_profile_finds_the_user_or_gives_the_placeholder() {
    let mut chat = Chat::new();
    chat.apply(users_event(&["alice", "bob", "alice"])).unwrap();
    assert_eq!(chat.sender_profile("bob"), profile("bob"));
    assert_eq!(chat.sender_profile("alice"), profile("alice"));
    assert_eq!(
        chat.sender_profile("mallory"),
        UserProfile {
            name: "mallory".to_string(),
            avatar: "https://avatars.dicebear.com/api/adventurer-neutral/anonymous.svg"
                .to_string(),
        }
    );
    assert_eq!(Chat::new().sender_profile("").name, "");
}

#[test]
fn message_without_a_payload_is_dropped() {
    let mut chat = Chat::new();
    chat.apply(users_event(&["alice"])).unwrap();
    chat.apply(message_event(r#"{"from":"alice","message":"kept"}"#)).unwrap();
    let dropped = vec![
        WebSocketMessage { message_type: MsgTypes::Message, data_array: None, data: None },
        message_event(""),
        message_event("plain text"),
        message_event(r#"{"from":"alice"}"#),
        message_event(r#"{"from":"alice","message":7}"#),
        WebSocketMessage {
            message_type: MsgTypes::Message,
            data_array: Some(vec!["alice".to_string()]),
            data: None,
        },
    ];
    for event in dropped {
        assert_eq!(chat.apply(event), Err(DecodeError::Malformed));
        assert_eq!(chat.messages(), &vec![message("alice", "kept")]);
        assert_eq!(chat.users(), &vec![profile("alice")]);
    }
}

#[test]
fn find_user_is_an_optional_lookup() {
    let mut chat = Chat::new();
    assert_eq!(chat.find_user("alice"), None);
    chat.apply(users_event(&["alice", "bob"])).unwrap();
    assert_eq!(chat.find_user("bob"), Some(&profile("bob")));
    assert_eq!(chat.find_user("Bob"), None);
    assert_eq!(chat.find_user(""), None);
}

#[test]
fn envelopes_made_here_are_well_formed() {
    let cases = vec![
        WebSocketMessage::users(vec!["a".to_string()]),
        WebSocketMessage::users(vec![]),
        WebSocketMessage::register("alice".to_string()),
        WebSocketMessage::message(String::new()),
    ];
    for case in cases {
        assert!(case.is_well_formed());
    }
    assert_eq!(WebSocketMessage::users(vec!["a".to_string()]), users_event(&["a"]));
    assert_eq!(WebSocketMessage::message("x".to_string()), message_event("x"));
    assert!(!message_event("x").data_array.is_some());
    let odd = WebSocketMessage {
        message_type: MsgTypes::Users,
        data_array: None,
        data: Some("x".to_string()),
    };
    assert!(!odd.is_well_formed());
    let both = WebSocketMessage {
        message_type: MsgTypes::Register,
        data_array: Some(vec![]),
        data: Some("x".to_string()),
    };
    assert!(!both.is_well_formed());
}

#[test]
fn received_register_is_ignored() {
    let mut chat = Chat::new();
    chat.apply(users_event(&["alice"])).unwrap();
    let effect =
        chat.update(inbound(r#"{"messageType":"register","dataArray":["x"],"data":"bob"}"#));
    assert_eq!(effect, Effect { redraw: false, outbound: None, dropped: None });
    assert_eq!(chat.users(), &vec![profile("alice")]);
    assert!(chat.messages().is_empty());
}

#[test]
fn malformed_frames_change_nothing() {
    let mut chat = Chat::new();
    chat.apply(users_event(&["alice"])).unwrap();
    chat.apply(message_event(r#"{"from":"alice","message":"hi"}"#)).unwrap();
    let frames = vec![
        ("", DecodeError::Malformed),
        ("not json at all", DecodeError::Malformed),
        ("{\"messageType\":", DecodeError::Malformed),
        (r#"{"messageType":"bogus","dataArray":null,"data":null}"#, DecodeError::UnknownTag),
        (r#"{"messageType":"users","dataArray":"alice"}"#, DecodeError::Malformed),
        (r#"["users"]"#, DecodeError::Malformed),
        (r#"{"messageType":"message","data":"no payload"}"#, DecodeError::Malformed),
        (r#"{"messageType":"message"}"#, DecodeError::Malformed),
    ];
    for (frame, error) in frames {
        let effect = chat.update(inbound(frame));
        assert_eq!(
            effect,
            Effect { redraw: false, outbound: None, dropped: Some(error) },
            "{frame:?}"
        );
        assert_eq!(chat.users(), &vec![profile("alice")]);
        assert_eq!(chat.messages(), &vec![message("alice", "hi")]);
    }
}

#[test]
fn empty_input_sends_nothing() {
    assert_eq!(compose(""), None);
    let mut chat = Chat::new();
    chat.apply(users_event(&["alice"])).unwrap();
    chat.apply(message_event(r#"{"from":"alice","message":"hi"}"#)).unwrap();
    let effect = chat.update(Msg::SubmitMessage(String::new()));
    assert_eq!(effect, Effect { redraw: false, outbound: None, dropped: None });
    assert_eq!(chat.users(), &vec![profile("alice")]);
    assert_eq!(chat.messages(), &vec![message("alice", "hi")]);
}

#[test]
fn submitted_input_becomes_a_message_frame() {
    assert_eq!(
        compose("hello"),
        Some(r#"{"messageType":"message","dataArray":null,"data":"hello"}"#.to_string())
    );
    assert_eq!(
        compose(" "),
        Some(r#"{"messageType":"message","dataArray":null,"data":" "}"#.to_string())
    );
    let mut chat = Chat::new();
    let effect = chat.update(Msg::SubmitMessage("say \"hi\"".to_string()));
    assert_eq!(
        effect,
        Effect {
            redraw: false,
            outbound: Some(
                r#"{"messageType":"message","dataArray":null,"data":"say \"hi\""}"#.to_string()
            ),
            dropped: None,
        }
    );
    assert!(chat.messages().is_empty());
    assert!(chat.users().is_empty());
}

#[test]
fn input_is_cleared_only_after_a_successful_hand_off() {
    assert!(clears_input(&Ok(())));
    assert!(!clears_input(&Err(SendError::Rejected)));
    assert!(!clears_input(&Err(SendError::NotEnqueued)));
}
