use chat::msg::ChatMessage;
use chat::registry::Registry;
use chat::registry::create_client;
use chat::registry::get_user_list;
use chat::router::Router;

fn content_of(m: &ChatMessage) -> (String, String) {
    match m {
        ChatMessage::Message { username, content } => (username.clone(), content.clone()),
        _ => panic!("expected a chat message"),
    }
}

#[test]
fn client_record_holds_its_fields() {
    let c = create_client(7, "alice".to_string(), 0);
    assert_eq!(c.id, 7);
    assert_eq!(c.username, "alice");
    assert_eq!(c.sender, 0);
}

#[test]
fn snapshot_tracks_registrations() {
    let mut reg = Registry::new();
    assert_eq!(reg.snapshot_usernames(), Vec::<String>::new());
    reg.register(1, "alice".to_string(), 0);
    assert_eq!(reg.snapshot_usernames(), vec!["alice".to_string()]);
    reg.register(2, "bob".to_string(), 1);
    assert_eq!(get_user_list(&reg), vec!["alice".to_string(), "bob".to_string()]);
    reg.deregister(1);
    assert_eq!(reg.snapshot_usernames(), vec!["bob".to_string()]);
    reg.deregister(2);
    assert_eq!(reg.snapshot_usernames(), Vec::<String>::new());
}

#[test]
fn deregister_of_absent_identity_is_a_no_op() {
    let mut reg = Registry::new();
    reg.register(1, "alice".to_string(), 0);
    reg.deregister(99);
    assert_eq!(reg.snapshot_usernames(), vec!["alice".to_string()]);
    assert_eq!(reg.len(), 1);
}

#[test]
fn duplicate_usernames_are_allowed() {
    let mut reg = Registry::new();
    reg.register(1, "alice".to_string(), 0);
    reg.register(2, "alice".to_string(), 1);
    assert_eq!(reg.snapshot_usernames(), vec!["alice".to_string(), "alice".to_string()]);
    reg.deregister(1);
    assert_eq!(reg.snapshot_usernames(), vec!["alice".to_string()]);
}

#[test]
fn contains_reports_registered_identities() {
    let mut reg = Registry::new();
    assert!(!reg.contains(5));
    reg.register(5, "eve".to_string(), 0);
    assert!(reg.contains(5));
    reg.deregister(5);
    assert!(!reg.contains(5));
}

#[test]
fn subscriber_sees_messages_in_publish_order() {
    let mut router = Router::new();
    let h = router.subscribe();
    router.publish(&ChatMessage::message("a".to_string(), "one".to_string()));
    router.publish(&ChatMessage::message("a".to_string(), "two".to_string()));
    router.publish(&ChatMessage::message("a".to_string(), "three".to_string()));
    let m1 = router.recv(h).unwrap();
    let m2 = router.recv(h).unwrap();
    let m3 = router.recv(h).unwrap();
    assert_eq!(content_of(&m1).1, "one");
    assert_eq!(content_of(&m2).1, "two");
    assert_eq!(content_of(&m3).1, "three");
    assert!(router.recv(h).is_none());
}

#[test]
fn each_delivery_happens_exactly_once() {
    let mut router = Router::new();
    let h = router.subscribe();
    router.publish(&ChatMessage::join("alice".to_string()));
    assert!(router.recv(h).is_some());
    assert!(router.recv(h).is_none());
}

#[test]
fn late_subscriber_misses_earlier_messages() {
    let mut router = Router::new();
    let early = router.subscribe();
    router.publish(&ChatMessage::message("a".to_string(), "before".to_string()));
    let late = router.subscribe();
    router.publish(&ChatMessage::message("a".to_string(), "after".to_string()));
    assert_eq!(content_of(&router.recv(early).unwrap()).1, "before");
    assert_eq!(content_of(&router.recv(early).unwrap()).1, "after");
    assert_eq!(content_of(&router.recv(late).unwrap()).1, "after");
    assert!(router.recv(late).is_none());
}

#[test]
fn every_subscriber_gets_its_own_copy() {
    let mut router = Router::new();
    let h1 = router.subscribe();
    let h2 = router.subscribe();
    router.publish(&ChatMessage::message("a".to_string(), "hi".to_string()));
    assert_eq!(content_of(&router.recv(h1).unwrap()).1, "hi");
    assert_eq!(content_of(&router.recv(h2).unwrap()).1, "hi");
}

#[test]
fn publishing_to_an_abandoned_endpoint_is_a_silent_no_op() {
    let mut router = Router::new();
    let gone = router.subscribe();
    let kept = router.subscribe();
    router.unsubscribe(gone);
    router.publish(&ChatMessage::leave("bob".to_string()));
    assert_eq!(router.endpoint_count(), 2);
    assert!(router.recv(kept).is_some());
}
