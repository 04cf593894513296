use vstd::prelude::*;

use crate::codec::parse_msg;
use crate::msg::ChatMessage;
use crate::msg::MsgView;
use crate::registry::Registry;
use crate::registry::has_id;
use crate::registry::remove_id;
use crate::router::Router;
use crate::router::publish_spec;

verus! {

/// Mathematical shape of a session's state.
pub enum SessionView {
    AwaitingJoin,
    Active { username: Seq<char> },
    Closed,
}

/// Where one connection stands: waiting for its join frame, active under a
/// username, or closed.
#[derive(Debug)]
pub enum SessionState {
    AwaitingJoin,
    Active { username: String },
    Closed,
}

impl View for SessionState {
    type V = SessionView;

    open spec fn view(&self) -> SessionView {
        match self {
            SessionState::AwaitingJoin => SessionView::AwaitingJoin,
            SessionState::Active { username } => (SessionView::Active { username: username@ }),
            SessionState::Closed => SessionView::Closed,
        }
    }
}

/// Mathematical shape of one event.
pub enum EventView {
    Frame { text: Seq<char> },
    Disconnect,
}

/// What the transport reports to a session's handler: one inbound text
/// frame, or the end of the connection (peer close or I/O error alike).
#[derive(Debug)]
pub enum SessionEvent {
    Frame { text: String },
    Disconnect,
}

impl View for SessionEvent {
    type V = EventView;

    open spec fn view(&self) -> EventView {
        match self {
            SessionEvent::Frame { text } => (EventView::Frame { text: text@ }),
            SessionEvent::Disconnect => EventView::Disconnect,
        }
    }
}

/// Mathematical shape of one requested action.
pub enum EffectView {
    Register { username: Seq<char> },
    PublishJoin { username: Seq<char> },
    SubscribeRouter,
    SendUserList,
    Publish { message: MsgView },
    Deregister,
    PublishLeave { username: Seq<char> },
}

/// What the handler asks its surroundings to do, in order: registry and
/// router calls, and the user-list reply owed to a fresh session.
#[derive(Debug)]
pub enum Effect {
    Register { username: String },
    PublishJoin { username: String },
    SubscribeRouter,
    SendUserList,
    Publish { message: ChatMessage },
    Deregister,
    PublishLeave { username: String },
}

impl View for Effect {
    type V = EffectView;

    open spec fn view(&self) -> EffectView {
        match self {
            Effect::Register { username } => (EffectView::Register { username: username@ }),
            Effect::PublishJoin { username } => (EffectView::PublishJoin { username: username@ }),
            Effect::SubscribeRouter => EffectView::SubscribeRouter,
            Effect::SendUserList => EffectView::SendUserList,
            Effect::Publish { message } => (EffectView::Publish { message: message@ }),
            Effect::Deregister => EffectView::Deregister,
            Effect::PublishLeave { username } => (EffectView::PublishLeave { username: username@ }),
        }
    }
}

/// The views of a list of effects.
pub open spec fn effects_of(effs: Seq<Effect>) -> Seq<EffectView> {
    effs.map_values(|ef: Effect| ef@)
}

/// One step of the per-connection state machine.
///
/// Waiting, a frame that decodes to `Join` activates the session and asks,
/// in order, for registration, the join broadcast, a router subscription
/// and the user-list reply; any other frame, decodable or not, is dropped
/// and the handler keeps waiting.  Active, a frame that decodes to
/// `Message` asks for one broadcast that carries the session's own
/// username, never the one in the frame; any other frame is dropped.  A
/// disconnect closes the session, with deregistration and the leave
/// broadcast owed only when the join handshake had completed.  A closed
/// session never changes again and asks for nothing.
pub open spec fn step_spec(s: SessionView, e: EventView) -> (SessionView, Seq<EffectView>) {
    match (s, e) {
        (SessionView::AwaitingJoin, EventView::Frame { text }) => match parse_msg(text) {
            Some(MsgView::Join { username }) => (
                (SessionView::Active { username }),
                seq![
                    (EffectView::Register { username }),
                    (EffectView::PublishJoin { username }),
                    EffectView::SubscribeRouter,
                    EffectView::SendUserList,
                ],
            ),
            _ => (SessionView::AwaitingJoin, Seq::empty()),
        },
        (SessionView::AwaitingJoin, EventView::Disconnect) => (
            SessionView::Closed,
            Seq::empty(),
        ),
        (SessionView::Active { username }, EventView::Frame { text }) => match parse_msg(text) {
            Some(MsgView::Message { content, .. }) => (
                (SessionView::Active { username }),
                seq![
                    (EffectView::Publish { message: (MsgView::Message { username, content }) }),
                ],
            ),
            _ => ((SessionView::Active { username }), Seq::empty()),
        },
        (SessionView::Active { username }, EventView::Disconnect) => (
            SessionView::Closed,
            seq![EffectView::Deregister, (EffectView::PublishLeave { username })],
        ),
        (SessionView::Closed, _) => (SessionView::Closed, Seq::empty()),
    }
}

/// Drive the state machine one event forward, returning the new state and
/// the actions owed, in order.
pub fn session_step(state: SessionState, event: SessionEvent) -> (r: (SessionState, Vec<Effect>))
    ensures
        r.0@ == step_spec(state@, event@).0,
        effects_of(r.1@) == step_spec(state@, event@).1,
{
    let ghost gs = state@;
    let ghost ge = event@;
    match (state, event) {
        (SessionState::AwaitingJoin, SessionEvent::Frame { text }) => {
            match ChatMessage::from_json(text.as_str()) {
                Ok(ChatMessage::Join { username }) => {
                    let mut effs: Vec<Effect> = Vec::new();
                    effs.push(Effect::Register { username: username.clone() });
                    effs.push(Effect::PublishJoin { username: username.clone() });
                    effs.push(Effect::SubscribeRouter);
                    effs.push(Effect::SendUserList);
                    proof {
                        assert(effects_of(effs@) =~= step_spec(gs, ge).1);
                    }
                    (SessionState::Active { username }, effs)
                },
                _ => {
                    proof {
                        assert(effects_of(Seq::<Effect>::empty()) =~= Seq::<EffectView>::empty());
                    }
                    (SessionState::AwaitingJoin, Vec::new())
                },
            }
        },
        (SessionState::AwaitingJoin, SessionEvent::Disconnect) => {
            proof {
                assert(effects_of(Seq::<Effect>::empty()) =~= Seq::<EffectView>::empty());
            }
            (SessionState::Closed, Vec::new())
        },
        (SessionState::Active { username }, SessionEvent::Frame { text }) => {
            match ChatMessage::from_json(text.as_str()) {
                Ok(ChatMessage::Message { username: _, content }) => {
                    let mut effs: Vec<Effect> = Vec::new();
                    let message = ChatMessage::Message { username: username.clone(), content };
                    effs.push(Effect::Publish { message });
                    proof {
                        assert(effects_of(effs@) =~= step_spec(gs, ge).1);
                    }
                    (SessionState::Active { username }, effs)
                },
                _ => {
                    proof {
                        assert(effects_of(Seq::<Effect>::empty()) =~= Seq::<EffectView>::empty());
                    }
                    (SessionState::Active { username }, Vec::new())
                },
            }
        },
        (SessionState::Active { username }, SessionEvent::Disconnect) => {
            let mut effs: Vec<Effect> = Vec::new();
            effs.push(Effect::Deregister);
            effs.push(Effect::PublishLeave { username });
            proof {
                assert(effects_of(effs@) =~= step_spec(gs, ge).1);
            }
            (SessionState::Closed, effs)
        },
        (SessionState::Closed, _) => {
            proof {
                assert(effects_of(Seq::<Effect>::empty()) =~= Seq::<EffectView>::empty());
            }
            (SessionState::Closed, Vec::new())
        },
    }
}

/// Perform one requested action against the shared registry and router.
/// Returns the handle of a fresh subscription, and the frame owed directly
/// to this connection (the user-list reply), where the action yields one.
///
/// The identity is the session's own; registering demands it be fresh,
/// which the identity drawing guarantees.  A session's outbound handle is
/// not known yet when it registers, so its record carries zero there;
/// nothing reads it back.
pub fn apply_effect(effect: Effect, id: u128, reg: &mut Registry, router: &mut Router) -> (r: (
    Option<usize>,
    Option<ChatMessage>,
))
    requires
        old(reg).wf(),
        effect is Register ==> !has_id(old(reg)@, id),
    ensures
        final(reg).wf(),
        match effect {
            Effect::Register { username } => {
                &&& final(reg)@ == old(reg)@.push((id, username@))
                &&& final(router)@ == old(router)@
                &&& r.0 is None
                &&& r.1 is None
            },
            Effect::PublishJoin { username } => {
                &&& final(reg)@ == old(reg)@
                &&& final(router)@ == publish_spec(
                    old(router)@,
                    (MsgView::Join { username: username@ }),
                )
                &&& r.0 is None
                &&& r.1 is None
            },
            Effect::SubscribeRouter => {
                &&& final(reg)@ == old(reg)@
                &&& final(router)@ == old(router)@.push(Some(Seq::<MsgView>::empty()))
                &&& r.0 matches Some(h) && h == old(router)@.len()
                &&& r.1 is None
            },
            Effect::SendUserList => {
                &&& final(reg)@ == old(reg)@
                &&& final(router)@ == old(router)@
                &&& r.0 is None
                &&& r.1 matches Some(m) && m@ == (MsgView::UserList {
                    users: old(reg).usernames(),
                })
            },
            Effect::Publish { message } => {
                &&& final(reg)@ == old(reg)@
                &&& final(router)@ == publish_spec(old(router)@, message@)
                &&& r.0 is None
                &&& r.1 is None
            },
            Effect::Deregister => {
                &&& final(reg)@ == remove_id(old(reg)@, id)
                &&& final(router)@ == old(router)@
                &&& r.0 is None
                &&& r.1 is None
            },
            Effect::PublishLeave { username } => {
                &&& final(reg)@ == old(reg)@
                &&& final(router)@ == publish_spec(
                    old(router)@,
                    (MsgView::Leave { username: username@ }),
                )
                &&& r.0 is None
                &&& r.1 is None
            },
        },
{
    match effect {
        Effect::Register { username } => {
            reg.register(id, username, 0);
            (None, None)
        },
        Effect::PublishJoin { username } => {
            let m = ChatMessage::join(username);
            router.publish(&m);
            (None, None)
        },
        Effect::SubscribeRouter => {
            let h = router.subscribe();
            (Some(h), None)
        },
        Effect::SendUserList => {
            let users = reg.snapshot_usernames();
            let m = ChatMessage::user_list(users);
            (None, Some(m))
        },
        Effect::Publish { message } => {
            router.publish(&message);
            (None, None)
        },
        Effect::Deregister => {
            reg.deregister(id);
            (None, None)
        },
        Effect::PublishLeave { username } => {
            let m = ChatMessage::leave(username);
            router.publish(&m);
            (None, None)
        },
    }
}

// ---------------------------------------------------------------------------
// Laws of the session state machine.
// ---------------------------------------------------------------------------

/// A first frame that is not a join, or does not decode at all, is dropped:
/// the handler keeps waiting and asks for nothing, neither an error nor a
/// close.
pub proof fn lemma_non_join_ignored(text: Seq<char>)
    requires
        !(parse_msg(text) matches Some(MsgView::Join { .. })),
    ensures
        step_spec(SessionView::AwaitingJoin, (EventView::Frame { text })) == (
            SessionView::AwaitingJoin,
            Seq::<EffectView>::empty(),
        ),
{
}

/// A frame that decodes to no frame at all is dropped in every state: the
/// session neither changes nor closes, and the next frame is processed
/// from the same state.
pub proof fn lemma_garbage_frame_harmless(s: SessionView, text: Seq<char>)
    requires
        parse_msg(text) is None,
    ensures
        step_spec(s, (EventView::Frame { text })) == (s, Seq::<EffectView>::empty()),
{
}

/// Cleanup is asked for only by the step that closes an active session.
pub proof fn lemma_cleanup_only_on_close(s: SessionView, e: EventView, i: int)
    requires
        0 <= i < step_spec(s, e).1.len(),
        step_spec(s, e).1[i] is Deregister || step_spec(s, e).1[i] is PublishLeave,
    ensures
        s is Active,
        e is Disconnect,
        step_spec(s, e).0 is Closed,
{
}

/// A closed session stays closed and asks for nothing: cleanup cannot
/// happen twice.
pub proof fn lemma_closed_is_final(s: SessionView, e: EventView)
    requires
        s is Closed,
    ensures
        step_spec(s, e).0 is Closed,
        step_spec(s, e).1.len() == 0,
{
}

/// Whatever an active session publishes for an inbound chat frame carries
/// the session's own username, never the one claimed in the frame.
pub proof fn lemma_no_spoofing(u: Seq<char>, text: Seq<char>, i: int)
    requires
        0 <= i < step_spec((SessionView::Active { username: u }), (EventView::Frame {
            text,
        })).1.len(),
        step_spec((SessionView::Active { username: u }), (EventView::Frame { text })).1[i] matches
            EffectView::Publish { message: MsgView::Message { username: pu, .. } },
    ensures
        step_spec((SessionView::Active { username: u }), (EventView::Frame { text })).1[i] matches
            EffectView::Publish { message: MsgView::Message { username: pu, .. } } && pu == u,
{
}

} // verus!
