use chat::msg::ChatMessage;

fn msg_eq(a: &ChatMessage, b: &ChatMessage) -> bool {
    match (a, b) {
        (ChatMessage::Join { username: u1 }, ChatMessage::Join { username: u2 }) => u1 == u2,
        (ChatMessage::Leave { username: u1 }, ChatMessage::Leave { username: u2 }) => u1 == u2,
        (
            ChatMessage::Message { username: u1, content: c1 },
            ChatMessage::Message { username: u2, content: c2 },
        ) => u1 == u2 && c1 == c2,
        (ChatMessage::UserList { users: us1 }, ChatMessage::UserList { users: us2 }) => us1 == us2,
        (ChatMessage::Error { message: m1 }, ChatMessage::Error { message: m2 }) => m1 == m2,
        _ => false,
    }
}

fn round_trips(m: ChatMessage) {
    let text = m.to_json();
    let back = ChatMessage::from_json(&text).expect("encoded frame must decode");
    assert!(msg_eq(&m, &back), "round trip failed for {}", text);
}

#[test]
fn join_encodes_exactly() {
    let m = ChatMessage::join("alice".to_string());
    assert_eq!(m.to_json(), "{\"Join\":{\"username\":\"alice\"}}");
}

#[test]
fn leave_encodes_exactly() {
    let m = ChatMessage::leave("bob".to_string());
    assert_eq!(m.to_json(), "{\"Leave\":{\"username\":\"bob\"}}");
}

#[test]
fn message_encodes_exactly() {
    let m = ChatMessage::message("alice".to_string(), "hi".to_string());
    assert_eq!(m.to_json(), "{\"Message\":{\"username\":\"alice\",\"content\":\"hi\"}}");
}

#[test]
fn user_list_encodes_exactly() {
    let m = ChatMessage::user_list(vec!["alice".to_string(), "bob".to_string()]);
    assert_eq!(m.to_json(), "{\"UserList\":{\"users\":[\"alice\",\"bob\"]}}");
}

#[test]
fn empty_user_list_encodes_exactly() {
    let m = ChatMessage::user_list(Vec::new());
    assert_eq!(m.to_json(), "{\"UserList\":{\"users\":[]}}");
}

#[test]
fn error_encodes_exactly() {
    let m = ChatMessage::error("boom".to_string());
    assert_eq!(m.to_json(), "{\"Error\":{\"message\":\"boom\"}}");
}

#[test]
fn round_trip_all_variants() {
    round_trips(ChatMessage::join("alice".to_string()));
    round_trips(ChatMessage::leave("bob".to_string()));
    round_trips(ChatMessage::message("alice".to_string(), "hello there".to_string()));
    round_trips(ChatMessage::user_list(vec!["a".to_string(), "b".to_string(), "c".to_string()]));
    round_trips(ChatMessage::error("oops".to_string()));
}

#[test]
fn round_trip_empty_strings() {
    round_trips(ChatMessage::join(String::new()));
    round_trips(ChatMessage::message(String::new(), String::new()));
    round_trips(ChatMessage::user_list(vec![String::new(), String::new()]));
    round_trips(ChatMessage::error(String::new()));
}

#[test]
fn round_trip_escaped_characters() {
    round_trips(ChatMessage::message("a\"b\\c".to_string(), "line\nbreak\ttab\rret".to_string()));
    round_trips(ChatMessage::message("x".to_string(), "ctl\u{0001}\u{001f}end".to_string()));
    round_trips(ChatMessage::user_list(vec!["q\"".to_string(), "\\".to_string()]));
}

#[test]
fn escapes_encode_exactly() {
    let m = ChatMessage::error("a\"\\\n\r\t\u{0001}".to_string());
    assert_eq!(m.to_json(), "{\"Error\":{\"message\":\"a\\\"\\\\\\n\\r\\t\\u0001\"}}");
}

#[test]
fn decode_accepts_whitespace_between_tokens() {
    let text = " { \"Join\" : { \"username\" : \"alice\" } } ";
    let m = ChatMessage::from_json(text).expect("frame with whitespace must decode");
    assert!(msg_eq(&m, &ChatMessage::join("alice".to_string())));
}

#[test]
fn decode_accepts_standard_escapes() {
    let text = "{\"Error\":{\"message\":\"\\u0041\\/\\b\\f\\n\"}}";
    let m = ChatMessage::from_json(text).expect("escapes must decode");
    assert!(msg_eq(&m, &ChatMessage::error("A/\u{0008}\u{000c}\n".to_string())));
}

#[test]
fn decode_accepts_uppercase_hex_escapes() {
    let text = "{\"Error\":{\"message\":\"\\u000A\\u00FF\"}}";
    let m = ChatMessage::from_json(text).expect("uppercase hex digits must decode");
    assert!(msg_eq(&m, &ChatMessage::error("\n\u{00ff}".to_string())));
}

#[test]
fn decode_accepts_whitespace_inside_user_list() {
    let text = "{ \"UserList\" : { \"users\" : [ \"alice\" , \"bob\" ] } }";
    let m = ChatMessage::from_json(text).expect("spaced list must decode");
    assert!(msg_eq(&m, &ChatMessage::user_list(vec!["alice".to_string(), "bob".to_string()])));
}

#[test]
fn decode_rejects_garbage() {
    assert!(ChatMessage::from_json("not json").is_err());
    assert!(ChatMessage::from_json("").is_err());
    assert!(ChatMessage::from_json("{}").is_err());
    assert!(ChatMessage::from_json("{\"Unknown\":{}}").is_err());
    assert!(ChatMessage::from_json("[1,2,3]").is_err());
}

#[test]
fn decode_rejects_malformed_frames() {
    assert!(ChatMessage::from_json("{\"Join\":{\"username\":}}").is_err());
    assert!(ChatMessage::from_json("{\"Join\":{\"username\":\"a\"}").is_err());
    assert!(ChatMessage::from_json("{\"Join\":{\"username\":\"a\"}} extra").is_err());
    assert!(ChatMessage::from_json("{\"Join\":{\"user\":\"a\"}}").is_err());
    assert!(ChatMessage::from_json("{\"Join\":{\"username\":\"unterminated}}").is_err());
    assert!(ChatMessage::from_json("{\"Message\":{\"username\":\"a\"}}").is_err());
    assert!(ChatMessage::from_json("{\"UserList\":{\"users\":[\"a\",]}}").is_err());
    assert!(ChatMessage::from_json("{\"UserList\":{\"users\":[\"a\"}}").is_err());
    assert!(ChatMessage::from_json("{\"Error\":{\"message\":\"bad \\q escape\"}}").is_err());
    assert!(ChatMessage::from_json("{\"Error\":{\"message\":\"bad \\u12 hex\"}}").is_err());
}

#[test]
fn decode_rejects_raw_control_characters() {
    let text = "{\"Error\":{\"message\":\"a\nb\"}}";
    assert!(ChatMessage::from_json(text).is_err());
}

#[test]
fn decode_failure_is_not_fatal() {
    // A malformed frame is an error value, nothing more; the next valid
    // frame still decodes.
    assert!(ChatMessage::from_json("garbage").is_err());
    let m = ChatMessage::from_json("{\"Leave\":{\"username\":\"bob\"}}").unwrap();
    assert!(msg_eq(&m, &ChatMessage::leave("bob".to_string())));
}

#[test]
fn decode_error_is_comparable() {
    let a = ChatMessage::from_json("nope").unwrap_err();
    let b = ChatMessage::from_json("also nope").unwrap_err();
    assert_eq!(a, b);
}
