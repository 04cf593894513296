use chat::client_ui::ChatClient;
use chat::client_ui::DisplayLine;
use chat::client_ui::InputAction;
use chat::client_ui::input_action;
use chat::msg::ChatMessage;

#[test]
fn client_keeps_its_settings() {
    let c = ChatClient::new("ws://localhost:8080".to_string(), "alice".to_string());
    assert_eq!(c.url(), "ws://localhost:8080");
    assert_eq!(c.username(), "alice");
}

#[test]
fn quit_command_is_recognized() {
    assert!(matches!(input_action("/quit"), InputAction::Quit));
    assert!(matches!(input_action("  /quit  "), InputAction::Quit));
    assert!(matches!(input_action("\t/quit\n"), InputAction::Quit));
}

#[test]
fn blank_input_is_ignored() {
    assert!(matches!(input_action(""), InputAction::Ignore));
    assert!(matches!(input_action("   "), InputAction::Ignore));
    assert!(matches!(input_action("\r\n"), InputAction::Ignore));
}

#[test]
fn other_input_is_sent_trimmed() {
    match input_action("  hello world  ") {
        InputAction::Send { content } => assert_eq!(content, "hello world"),
        _ => panic!("expected a send"),
    }
    match input_action("/quit now") {
        InputAction::Send { content } => assert_eq!(content, "/quit now"),
        _ => panic!("expected a send"),
    }
}

#[test]
fn join_and_leave_notices_are_rendered() {
    match ChatClient::handle_message(ChatMessage::join("bob".to_string()), "alice") {
        Some(DisplayLine::Joined { username }) => assert_eq!(username, "bob"),
        _ => panic!("expected a joined notice"),
    }
    match ChatClient::handle_message(ChatMessage::leave("bob".to_string()), "alice") {
        Some(DisplayLine::Left { username }) => assert_eq!(username, "bob"),
        _ => panic!("expected a left notice"),
    }
}

#[test]
fn foreign_messages_are_rendered_with_sender() {
    let m = ChatMessage::message("bob".to_string(), "hi".to_string());
    match ChatClient::handle_message(m, "alice") {
        Some(DisplayLine::Chat { username, content }) => {
            assert_eq!(username, "bob");
            assert_eq!(content, "hi");
        }
        _ => panic!("expected a chat line"),
    }
}

#[test]
fn own_messages_are_suppressed() {
    let m = ChatMessage::message("alice".to_string(), "hi".to_string());
    assert!(ChatClient::handle_message(m, "alice").is_none());
}

#[test]
fn roster_and_errors_are_rendered() {
    let m = ChatMessage::user_list(vec!["alice".to_string(), "bob".to_string()]);
    match ChatClient::handle_message(m, "alice") {
        Some(DisplayLine::Roster { users }) => {
            assert_eq!(users, vec!["alice".to_string(), "bob".to_string()])
        }
        _ => panic!("expected the roster"),
    }
    match ChatClient::handle_message(ChatMessage::error("down".to_string()), "alice") {
        Some(DisplayLine::Notice { message }) => assert_eq!(message, "down"),
        _ => panic!("expected an error notice"),
    }
}

#[test]
fn fresh_identities_are_not_registered() {
    let reg = chat::registry::Registry::new();
    let id = chat::ident::fresh_session_id(&reg).expect("an empty registry collides with nothing");
    assert!(!reg.contains(id));
}
