use vstd::prelude::*;

use crate::codec::is_ws;
use crate::codec::skip_ws;
use crate::msg::ChatMessage;
use crate::msg::MsgView;
use crate::msg::names_of;

verus! {

/// Drop trailing whitespace.
pub open spec fn rskip_ws(t: Seq<char>) -> Seq<char>
    decreases t.len(),
{
    if t.len() > 0 && is_ws(t.last()) {
        rskip_ws(t.drop_last())
    } else {
        t
    }
}

/// The line with surrounding whitespace stripped.
pub open spec fn trim_spec(s: Seq<char>) -> Seq<char> {
    rskip_ws(skip_ws(s))
}

/// Mathematical shape of what one line of local input asks for.
pub enum InputActionView {
    Quit,
    Ignore,
    Send { content: Seq<char> },
}

/// What one line of local input asks for: leave the chat, send its trimmed
/// text, or (blank) nothing.
#[derive(Debug)]
pub enum InputAction {
    Quit,
    Ignore,
    Send { content: String },
}

impl View for InputAction {
    type V = InputActionView;

    open spec fn view(&self) -> InputActionView {
        match self {
            InputAction::Quit => InputActionView::Quit,
            InputAction::Ignore => InputActionView::Ignore,
            InputAction::Send { content } => (InputActionView::Send { content: content@ }),
        }
    }
}

/// Exactly `/quit`, trimmed, ends the session; a blank line is dropped; any
/// other line is sent as its trimmed text.
pub open spec fn input_action_spec(line: Seq<char>) -> InputActionView {
    let t = trim_spec(line);
    if t == "/quit"@ {
        InputActionView::Quit
    } else if t.len() == 0 {
        InputActionView::Ignore
    } else {
        InputActionView::Send { content: t }
    }
}

/// Decide what one line of local input asks for.
pub fn input_action(line: &str) -> (r: InputAction)
    ensures
        r@ == input_action_spec(line@),
{
    let cs = crate::strutil::str_to_chars(line);
    let a = crate::codec::skip_ws_x(&cs, 0);
    proof {
        assert(cs@.skip(0) =~= cs@);
    }
    let ghost t = cs@.skip(a as int);
    proof {
        assert(t.take(cs@.len() - a as int) =~= t);
    }
    let mut b: usize = cs.len();
    while b > a && (cs[b - 1] == ' ' || cs[b - 1] == '\n' || cs[b - 1] == '\t' || cs[b - 1]
        == '\r')
        invariant
            a <= b <= cs@.len(),
            t == cs@.skip(a as int),
            rskip_ws(t) == rskip_ws(t.take(b - a as int)),
        decreases b,
    {
        proof {
            let u = t.take(b - a as int);
            assert(u.last() == cs@[b - 1]);
            assert(u.drop_last() =~= t.take(b - 1 - a as int));
        }
        b = b - 1;
    }
    proof {
        let u = t.take(b - a as int);
        if b > a {
            assert(u.last() == cs@[b - 1]);
        }
        assert(rskip_ws(u) == u);
    }
    let mut out: Vec<char> = Vec::new();
    let mut k = a;
    while k < b
        invariant
            a <= k <= b <= cs@.len(),
            out@ == cs@.subrange(a as int, k as int),
        decreases b - k,
    {
        out.push(cs[k]);
        proof {
            assert(out@ =~= cs@.subrange(a as int, k + 1));
        }
        k += 1;
    }
    proof {
        assert(cs@.subrange(a as int, b as int) =~= t.take(b - a as int));
        assert(out@ == trim_spec(line@));
    }
    if crate::strutil::chars_eq_str(&out, "/quit") {
        InputAction::Quit
    } else if out.len() == 0 {
        InputAction::Ignore
    } else {
        let content = crate::strutil::chars_to_string(&out);
        InputAction::Send { content }
    }
}

/// Mathematical shape of one rendered line.
pub enum DisplayLineView {
    Joined { username: Seq<char> },
    Left { username: Seq<char> },
    Chat { username: Seq<char>, content: Seq<char> },
    Roster { users: Seq<Seq<char>> },
    Notice { message: Seq<char> },
}

/// What the client renders for one inbound frame: a joined or left notice,
/// a chat line, the roster, or an error notice.
#[derive(Debug)]
pub enum DisplayLine {
    Joined { username: String },
    Left { username: String },
    Chat { username: String, content: String },
    Roster { users: Vec<String> },
    Notice { message: String },
}

impl View for DisplayLine {
    type V = DisplayLineView;

    open spec fn view(&self) -> DisplayLineView {
        match self {
            DisplayLine::Joined { username } => (DisplayLineView::Joined { username: username@ }),
            DisplayLine::Left { username } => (DisplayLineView::Left { username: username@ }),
            DisplayLine::Chat { username, content } => (DisplayLineView::Chat {
                username: username@,
                content: content@,
            }),
            DisplayLine::Roster { users } => (DisplayLineView::Roster { users: names_of(users@) }),
            DisplayLine::Notice { message } => (DisplayLineView::Notice { message: message@ }),
        }
    }
}

/// What each frame shows, if anything: every frame is rendered except a
/// chat message carrying the client's own username, which is suppressed at
/// display time even though the server delivered it.
pub open spec fn display_spec(m: MsgView, me: Seq<char>) -> Option<DisplayLineView> {
    match m {
        MsgView::Join { username } => Some(DisplayLineView::Joined { username }),
        MsgView::Leave { username } => Some(DisplayLineView::Left { username }),
        MsgView::Message { username, content } => if username == me {
            None
        } else {
            Some(DisplayLineView::Chat { username, content })
        },
        MsgView::UserList { users } => Some(DisplayLineView::Roster { users }),
        MsgView::Error { message } => Some(DisplayLineView::Notice { message }),
    }
}

/// One end-user's connection settings: where to connect and under which
/// username.
#[derive(Debug)]
pub struct ChatClient {
    url: String,
    username: String,
}

impl ChatClient {
    /// The address the client connects to.
    pub closed spec fn url_view(self) -> Seq<char> {
        self.url@
    }

    /// The username the client joins under.
    pub closed spec fn username_view(self) -> Seq<char> {
        self.username@
    }

    /// Create a new chat client.
    pub fn new(url: String, username: String) -> (c: Self)
        ensures
            c.url_view() == url@,
            c.username_view() == username@,
    {
        Self { url, username }
    }

    /// The address the client connects to.
    pub fn url(&self) -> (r: &String)
        ensures
            r@ == self.url_view(),
    {
        &self.url
    }

    /// The username the client joins under.
    pub fn username(&self) -> (r: &String)
        ensures
            r@ == self.username_view(),
    {
        &self.username
    }

    /// Decide what an inbound frame shows to this user, suppressing the
    /// echo of the user's own chat messages.
    pub fn handle_message(msg: ChatMessage, current_username: &str) -> (r: Option<DisplayLine>)
        ensures
            match r {
                Some(d) => display_spec(msg@, current_username@) == Some(d@),
                None => display_spec(msg@, current_username@) is None,
            },
    {
        match msg {
            ChatMessage::Join { username } => Some(DisplayLine::Joined { username }),
            ChatMessage::Leave { username } => Some(DisplayLine::Left { username }),
            ChatMessage::Message { username, content } => {
                if crate::strutil::str_eq(username.as_str(), current_username) {
                    None
                } else {
                    Some(DisplayLine::Chat { username, content })
                }
            },
            ChatMessage::UserList { users } => Some(DisplayLine::Roster { users }),
            ChatMessage::Error { message } => Some(DisplayLine::Notice { message }),
        }
    }
}

} // verus!
