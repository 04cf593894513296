use vstd::prelude::*;

verus! {

/// Mathematical shape of one chat frame: five variants, with every text
/// field abstracted to its sequence of characters.
pub enum MsgView {
    Join { username: Seq<char> },
    Leave { username: Seq<char> },
    Message { username: Seq<char>, content: Seq<char> },
    UserList { users: Seq<Seq<char>> },
    Error { message: Seq<char> },
}

/// One chat frame as held in memory: a tagged union of the five kinds of
/// message that travel between client and server.
#[derive(Debug, Clone)]
pub enum ChatMessage {
    Join { username: String },
    Leave { username: String },
    Message { username: String, content: String },
    UserList { users: Vec<String> },
    Error { message: String },
}

/// The character sequences of a list of usernames.
pub open spec fn names_of(users: Seq<String>) -> Seq<Seq<char>> {
    users.map_values(|s: String| s@)
}

impl View for ChatMessage {
    type V = MsgView;

    open spec fn view(&self) -> MsgView {
        match self {
            ChatMessage::Join { username } => (MsgView::Join { username: username@ }),
            ChatMessage::Leave { username } => (MsgView::Leave { username: username@ }),
            ChatMessage::Message { username, content } => (MsgView::Message {
                username: username@,
                content: content@,
            }),
            ChatMessage::UserList { users } => (MsgView::UserList { users: names_of(users@) }),
            ChatMessage::Error { message } => (MsgView::Error { message: message@ }),
        }
    }
}

impl ChatMessage {
    /// Create a join message.
    pub fn join(username: String) -> (m: Self)
        ensures
            m@ == (MsgView::Join { username: username@ }),
    {
        Self::Join { username }
    }

    /// Create a leave message.
    pub fn leave(username: String) -> (m: Self)
        ensures
            m@ == (MsgView::Leave { username: username@ }),
    {
        Self::Leave { username }
    }

    /// Create a chat message.
    pub fn message(username: String, content: String) -> (m: Self)
        ensures
            m@ == (MsgView::Message { username: username@, content: content@ }),
    {
        Self::Message { username, content }
    }

    /// Create a user list message.
    pub fn user_list(users: Vec<String>) -> (m: Self)
        ensures
            m@ == (MsgView::UserList { users: names_of(users@) }),
    {
        Self::UserList { users }
    }

    /// Create an error message.
    pub fn error(message: String) -> (m: Self)
        ensures
            m@ == (MsgView::Error { message: message@ }),
    {
        Self::Error { message }
    }

    /// A copy that carries the same frame.
    pub fn clone_msg(&self) -> (m: Self)
        ensures
            m@ == self@,
    {
        match self {
            ChatMessage::Join { username } => ChatMessage::Join { username: username.clone() },
            ChatMessage::Leave { username } => ChatMessage::Leave { username: username.clone() },
            ChatMessage::Message { username, content } => ChatMessage::Message {
                username: username.clone(),
                content: content.clone(),
            },
            ChatMessage::UserList { users } => {
                let mut us: Vec<String> = Vec::new();
                let mut i: usize = 0;
                while i < users.len()
                    invariant
                        0 <= i <= users@.len(),
                        us@ == users@.take(i as int),
                    decreases users@.len() - i,
                {
                    us.push(users[i].clone());
                    proof {
                        assert(us@ =~= users@.take(i + 1));
                    }
                    i += 1;
                }
                proof {
                    assert(users@.take(users@.len() as int) =~= users@);
                }
                ChatMessage::UserList { users: us }
            },
            ChatMessage::Error { message } => ChatMessage::Error { message: message.clone() },
        }
    }
}

} // verus!
