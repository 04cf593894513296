use chat::client_ui::ChatClient;
use chat::msg::ChatMessage;
use chat::registry::Registry;
use chat::router::Router;
use chat::session::Effect;
use chat::session::SessionEvent;
use chat::session::SessionState;
use chat::session::session_step;

fn frame(text: &str) -> SessionEvent {
    SessionEvent::Frame { text: text.to_string() }
}

fn is_active_as(state: &SessionState, name: &str) -> bool {
    match state {
        SessionState::Active { username } => username == name,
        _ => false,
    }
}

/// Drives one joined session against shared registry and router state, the
/// way the server's connection handler does.
fn apply_effects(
    effs: Vec<Effect>,
    id: u128,
    reg: &mut Registry,
    router: &mut Router,
) -> (Option<usize>, Vec<ChatMessage>) {
    let mut handle = None;
    let mut direct = Vec::new();
    for eff in effs {
        if matches!(eff, Effect::Register { .. }) {
            assert!(!reg.contains(id), "identities are never reused");
        }
        let (h, frame) = chat::session::apply_effect(eff, id, reg, router);
        if h.is_some() {
            handle = h;
        }
        if let Some(frame) = frame {
            direct.push(frame);
        }
    }
    (handle, direct)
}

fn drain(router: &mut Router, h: usize) -> Vec<String> {
    let mut out = Vec::new();
    while let Some(m) = router.recv(h) {
        out.push(m.to_json());
    }
    out
}

#[test]
fn join_handshake_activates_the_session() {
    let (state, effs) = session_step(
        SessionState::AwaitingJoin,
        frame("{\"Join\":{\"username\":\"alice\"}}"),
    );
    assert!(is_active_as(&state, "alice"));
    assert_eq!(effs.len(), 4);
    assert!(matches!(&effs[0], Effect::Register { username } if username == "alice"));
    assert!(matches!(&effs[1], Effect::PublishJoin { username } if username == "alice"));
    assert!(matches!(&effs[2], Effect::SubscribeRouter));
    assert!(matches!(&effs[3], Effect::SendUserList));
}

#[test]
fn non_join_first_frame_is_ignored() {
    // A connection that speaks before joining stays unregistered and keeps
    // waiting; a later join still completes the handshake.
    let (state, effs) = session_step(
        SessionState::AwaitingJoin,
        frame("{\"Message\":{\"username\":\"x\",\"content\":\"hi\"}}"),
    );
    assert!(matches!(state, SessionState::AwaitingJoin));
    assert!(effs.is_empty());
    let (state, effs) = session_step(state, frame("not a frame at all"));
    assert!(matches!(state, SessionState::AwaitingJoin));
    assert!(effs.is_empty());
    let (state, _) = session_step(state, frame("{\"Join\":{\"username\":\"carol\"}}"));
    assert!(is_active_as(&state, "carol"));
}

#[test]
fn disconnect_before_join_leaves_no_trace() {
    let (state, effs) = session_step(SessionState::AwaitingJoin, SessionEvent::Disconnect);
    assert!(matches!(state, SessionState::Closed));
    assert!(effs.is_empty());
}

#[test]
fn active_session_publishes_under_its_own_username() {
    // The username inside the inbound frame is not trusted: the broadcast
    // carries the name the session joined under.
    let (state, effs) = session_step(
        SessionState::Active { username: "alice".to_string() },
        frame("{\"Message\":{\"username\":\"mallory\",\"content\":\"hi\"}}"),
    );
    assert!(is_active_as(&state, "alice"));
    assert_eq!(effs.len(), 1);
    match &effs[0] {
        Effect::Publish { message: ChatMessage::Message { username, content } } => {
            assert_eq!(username, "alice");
            assert_eq!(content, "hi");
        }
        _ => panic!("expected one publish"),
    }
}

#[test]
fn active_session_ignores_other_frames() {
    let inputs = [
        "{\"Join\":{\"username\":\"again\"}}",
        "{\"Leave\":{\"username\":\"alice\"}}",
        "{\"UserList\":{\"users\":[]}}",
        "{\"Error\":{\"message\":\"x\"}}",
        "garbage",
    ];
    for text in inputs {
        let (state, effs) = session_step(
            SessionState::Active { username: "alice".to_string() },
            frame(text),
        );
        assert!(is_active_as(&state, "alice"));
        assert!(effs.is_empty(), "frame {} should be dropped", text);
    }
}

#[test]
fn closed_session_never_acts_again() {
    let (state, effs) = session_step(SessionState::Closed, frame("{\"Join\":{\"username\":\"z\"}}"));
    assert!(matches!(state, SessionState::Closed));
    assert!(effs.is_empty());
    let (state, effs) = session_step(state, SessionEvent::Disconnect);
    assert!(matches!(state, SessionState::Closed));
    assert!(effs.is_empty());
}

#[test]
fn two_clients_join_chat_and_leave() {
    // Client A joins as "alice": her user list holds only her.  Client B
    // joins as "bob": both observe the join broadcast, and B's own list
    // holds both names.  A message from A reaches both subscriptions.  An
    // abrupt disconnect of B deregisters him and broadcasts his leave.
    let mut reg = Registry::new();
    let mut router = Router::new();

    let (state_a, effs) = session_step(
        SessionState::AwaitingJoin,
        frame("{\"Join\":{\"username\":\"alice\"}}"),
    );
    let (ha, direct_a) = apply_effects(effs, 1, &mut reg, &mut router);
    let ha = ha.expect("join subscribes");
    assert_eq!(direct_a.len(), 1);
    assert_eq!(direct_a[0].to_json(), "{\"UserList\":{\"users\":[\"alice\"]}}");

    let (state_b, effs) = session_step(
        SessionState::AwaitingJoin,
        frame("{\"Join\":{\"username\":\"bob\"}}"),
    );
    let (hb, direct_b) = apply_effects(effs, 2, &mut reg, &mut router);
    let hb = hb.expect("join subscribes");
    assert_eq!(direct_b[0].to_json(), "{\"UserList\":{\"users\":[\"alice\",\"bob\"]}}");

    // A subscribed before B's join was published, so A sees it; B
    // subscribed just after and does not see his own join broadcast.
    assert_eq!(drain(&mut router, ha), vec!["{\"Join\":{\"username\":\"bob\"}}".to_string()]);

    let (state_a, effs) = session_step(
        state_a,
        frame("{\"Message\":{\"username\":\"alice\",\"content\":\"hi\"}}"),
    );
    apply_effects(effs, 1, &mut reg, &mut router);
    let expected = "{\"Message\":{\"username\":\"alice\",\"content\":\"hi\"}}".to_string();
    assert_eq!(drain(&mut router, ha), vec![expected.clone()]);
    assert_eq!(drain(&mut router, hb), vec![expected]);

    // B's transport drops without a leave frame.
    let (state_b, effs) = session_step(state_b, SessionEvent::Disconnect);
    assert!(matches!(state_b, SessionState::Closed));
    apply_effects(effs, 2, &mut reg, &mut router);
    assert_eq!(reg.snapshot_usernames(), vec!["alice".to_string()]);
    assert_eq!(drain(&mut router, ha), vec!["{\"Leave\":{\"username\":\"bob\"}}".to_string()]);

    // A is still active and unaffected.
    assert!(is_active_as(&state_a, "alice"));
}

#[test]
fn own_message_is_delivered_but_not_rendered() {
    // The server delivers a message to its originator's subscription; the
    // client suppresses it at display time.
    let mut reg = Registry::new();
    let mut router = Router::new();
    let (state, effs) = session_step(
        SessionState::AwaitingJoin,
        frame("{\"Join\":{\"username\":\"alice\"}}"),
    );
    let (ha, _) = apply_effects(effs, 1, &mut reg, &mut router);
    let ha = ha.unwrap();
    let (_, effs) = session_step(
        state,
        frame("{\"Message\":{\"username\":\"alice\",\"content\":\"echo\"}}"),
    );
    apply_effects(effs, 1, &mut reg, &mut router);
    let delivered = router.recv(ha).expect("the originator receives its own message");
    assert!(ChatClient::handle_message(delivered, "alice").is_none());
}
