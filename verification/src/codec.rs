use vstd::prelude::*;

use crate::msg::ChatMessage;
use crate::msg::MsgView;

verus! {

// ---------------------------------------------------------------------------
// The wire grammar, as mathematical functions on character sequences.
//
// A frame is one JSON document `{"Tag":{...}}` with exactly one of the five
// tags.  `encode_msg` is the canonical encoding; `parse_msg` is the decoder,
// which also tolerates whitespace between tokens and the standard JSON
// string escapes.
// ---------------------------------------------------------------------------

/// JSON whitespace.
pub open spec fn is_ws(c: char) -> bool {
    c == ' ' || c == '\n' || c == '\t' || c == '\r'
}

/// Characters that may not stand raw inside a JSON string.
pub open spec fn needs_escape(c: char) -> bool {
    c == '"' || c == '\\' || (c as u32) < 0x20
}

/// The lower-case hexadecimal digit for a value below sixteen.
pub open spec fn hex_char(d: int) -> char {
    if d == 0 { '0' } else if d == 1 { '1' } else if d == 2 { '2' } else if d == 3 { '3' }
    else if d == 4 { '4' } else if d == 5 { '5' } else if d == 6 { '6' } else if d == 7 { '7' }
    else if d == 8 { '8' } else if d == 9 { '9' } else if d == 10 { 'a' } else if d == 11 { 'b' }
    else if d == 12 { 'c' } else if d == 13 { 'd' } else if d == 14 { 'e' } else { 'f' }
}

/// Whether the character is a hexadecimal digit the decoder accepts.
pub open spec fn is_hex(c: char) -> bool {
    let n = c as u32;
    (48 <= n && n <= 57) || (97 <= n && n <= 102) || (65 <= n && n <= 70)
}

/// Numeric value of a hexadecimal digit.
pub open spec fn hex_val(c: char) -> int {
    let n = (c as u32) as int;
    if 48 <= n && n <= 57 {
        n - 48
    } else if 97 <= n {
        n - 87
    } else {
        n - 55
    }
}

/// The character with the given code point below 256.
pub open spec fn code_char(n: int) -> char {
    (n as u8) as char
}

/// How one character is written inside a JSON string.
pub open spec fn escaped_char(c: char) -> Seq<char> {
    if c == '"' {
        seq!['\\', '"']
    } else if c == '\\' {
        seq!['\\', '\\']
    } else if c == '\n' {
        seq!['\\', 'n']
    } else if c == '\r' {
        seq!['\\', 'r']
    } else if c == '\t' {
        seq!['\\', 't']
    } else if (c as u32) < 0x20 {
        seq!['\\', 'u', '0', '0', hex_char((c as u32) as int / 16), hex_char((c as u32) as int % 16)]
    } else {
        seq![c]
    }
}

/// A whole character sequence written inside a JSON string.
pub open spec fn escape_seq(s: Seq<char>) -> Seq<char>
    decreases s.len(),
{
    if s.len() == 0 {
        Seq::empty()
    } else {
        escaped_char(s[0]) + escape_seq(s.skip(1))
    }
}

/// A JSON string literal: quotes around the escaped characters.
pub open spec fn quoted(s: Seq<char>) -> Seq<char> {
    seq!['"'] + escape_seq(s) + seq!['"']
}

/// Elements of a JSON array of strings after the first: each preceded by a
/// comma.
pub open spec fn tail_list(us: Seq<Seq<char>>) -> Seq<char>
    decreases us.len(),
{
    if us.len() == 0 {
        Seq::empty()
    } else {
        seq![','] + quoted(us[0]) + tail_list(us.skip(1))
    }
}

/// The elements of a JSON array of strings, commas between them.
pub open spec fn encode_list(users: Seq<Seq<char>>) -> Seq<char> {
    if users.len() == 0 {
        Seq::empty()
    } else {
        quoted(users[0]) + tail_list(users.skip(1))
    }
}

/// The tag under which a frame is encoded.
pub open spec fn tag_of(m: MsgView) -> Seq<char> {
    match m {
        MsgView::Join { .. } => "Join"@,
        MsgView::Leave { .. } => "Leave"@,
        MsgView::Message { .. } => "Message"@,
        MsgView::UserList { .. } => "UserList"@,
        MsgView::Error { .. } => "Error"@,
    }
}

/// An inner object holding one string field.
pub open spec fn obj1(key: Seq<char>, v: Seq<char>) -> Seq<char> {
    seq!['{'] + quoted(key) + seq![':'] + quoted(v) + seq!['}']
}

/// An inner object holding two string fields.
pub open spec fn obj2(k1: Seq<char>, v1: Seq<char>, k2: Seq<char>, v2: Seq<char>) -> Seq<char> {
    seq!['{'] + quoted(k1) + seq![':'] + quoted(v1) + seq![','] + quoted(k2) + seq![':'] + quoted(
        v2,
    ) + seq!['}']
}

/// An inner object holding the array of usernames.
pub open spec fn obj_users(users: Seq<Seq<char>>) -> Seq<char> {
    seq!['{'] + quoted("users"@) + seq![':'] + seq!['['] + encode_list(users) + seq![']']
        + seq!['}']
}

/// The payload that follows `"Tag":` for each variant.
pub open spec fn payload_of(m: MsgView) -> Seq<char> {
    match m {
        MsgView::Join { username } => obj1("username"@, username),
        MsgView::Leave { username } => obj1("username"@, username),
        MsgView::Message { username, content } => obj2(
            "username"@,
            username,
            "content"@,
            content,
        ),
        MsgView::UserList { users } => obj_users(users),
        MsgView::Error { message } => obj1("message"@, message),
    }
}

/// The canonical encoding of one frame.
pub open spec fn encode_msg(m: MsgView) -> Seq<char> {
    seq!['{'] + quoted(tag_of(m)) + seq![':'] + payload_of(m) + seq!['}']
}

// ---------------------------------------------------------------------------
// The decoder, reading a suffix of the input and returning what is left.
// ---------------------------------------------------------------------------

/// Drop leading whitespace.
pub open spec fn skip_ws(t: Seq<char>) -> Seq<char>
    decreases t.len(),
{
    if t.len() > 0 && is_ws(t[0]) {
        skip_ws(t.skip(1))
    } else {
        t
    }
}

/// The replacement for a single-character escape, if it is one.
pub open spec fn unescaped(e: char) -> Option<char> {
    if e == '"' {
        Some('"')
    } else if e == '\\' {
        Some('\\')
    } else if e == '/' {
        Some('/')
    } else if e == 'b' {
        Some('\u{0008}')
    } else if e == 'f' {
        Some('\u{000c}')
    } else if e == 'n' {
        Some('\n')
    } else if e == 'r' {
        Some('\r')
    } else if e == 't' {
        Some('\t')
    } else {
        None
    }
}

/// Parse the characters of a JSON string after its opening quote, up to and
/// including the closing quote.  Returns the decoded characters and the rest
/// of the input.
pub open spec fn parse_string_body(t: Seq<char>) -> Option<(Seq<char>, Seq<char>)>
    decreases t.len(),
{
    if t.len() == 0 {
        None
    } else if t[0] == '"' {
        Some((Seq::empty(), t.skip(1)))
    } else if t[0] == '\\' {
        if t.len() < 2 {
            None
        } else if t[1] == 'u' {
            if t.len() < 6 {
                None
            } else if t[2] == '0' && t[3] == '0' && is_hex(t[4]) && is_hex(t[5]) {
                match parse_string_body(t.skip(6)) {
                    Some(p) => Some(
                        (seq![code_char(hex_val(t[4]) * 16 + hex_val(t[5]))] + p.0, p.1),
                    ),
                    None => None,
                }
            } else {
                None
            }
        } else {
            match unescaped(t[1]) {
                Some(c) => match parse_string_body(t.skip(2)) {
                    Some(p) => Some((seq![c] + p.0, p.1)),
                    None => None,
                },
                None => None,
            }
        }
    } else if (t[0] as u32) < 0x20 {
        None
    } else {
        match parse_string_body(t.skip(1)) {
            Some(p) => Some((seq![t[0]] + p.0, p.1)),
            None => None,
        }
    }
}

/// Parse a JSON string including its opening quote.
pub open spec fn parse_string(t: Seq<char>) -> Option<(Seq<char>, Seq<char>)> {
    if t.len() > 0 && t[0] == '"' {
        parse_string_body(t.skip(1))
    } else {
        None
    }
}

/// Whatever a successful string parse leaves behind is shorter than what it
/// was given.
proof fn lemma_parse_string_body_len(t: Seq<char>)
    ensures
        parse_string_body(t) matches Some(p) ==> p.1.len() < t.len(),
    decreases t.len(),
{
    if t.len() == 0 {
    } else if t[0] == '"' {
    } else if t[0] == '\\' {
        if t.len() >= 6 {
            lemma_parse_string_body_len(t.skip(6));
        }
        if t.len() >= 2 {
            lemma_parse_string_body_len(t.skip(2));
        }
    } else {
        lemma_parse_string_body_len(t.skip(1));
    }
}

/// Skipping whitespace never lengthens the input.
proof fn lemma_skip_ws_len(t: Seq<char>)
    ensures
        skip_ws(t).len() <= t.len(),
    decreases t.len(),
{
    if t.len() > 0 && is_ws(t[0]) {
        lemma_skip_ws_len(t.skip(1));
    }
}

/// Expect one structural character after optional whitespace.
pub open spec fn tok(t: Seq<char>, c: char) -> Option<Seq<char>> {
    let t1 = skip_ws(t);
    if t1.len() > 0 && t1[0] == c {
        Some(t1.skip(1))
    } else {
        None
    }
}

/// A JSON string token after optional whitespace.
pub open spec fn tok_string(t: Seq<char>) -> Option<(Seq<char>, Seq<char>)> {
    parse_string(skip_ws(t))
}

/// `"key":"value"` where the key must be exactly the one given.
pub open spec fn parse_kv(t: Seq<char>, key: Seq<char>) -> Option<(Seq<char>, Seq<char>)> {
    match tok_string(t) {
        None => None,
        Some(p) => if p.0 == key {
            match tok(p.1, ':') {
                None => None,
                Some(r) => tok_string(r),
            }
        } else {
            None
        },
    }
}

/// An inner object with exactly one string field under the given key.
pub open spec fn parse_obj1(t: Seq<char>, key: Seq<char>) -> Option<(Seq<char>, Seq<char>)> {
    match tok(t, '{') {
        None => None,
        Some(r) => match parse_kv(r, key) {
            None => None,
            Some(p) => match tok(p.1, '}') {
                None => None,
                Some(r2) => Some((p.0, r2)),
            },
        },
    }
}

/// An inner object with exactly two string fields under the given keys.
pub open spec fn parse_obj2(t: Seq<char>, k1: Seq<char>, k2: Seq<char>) -> Option<
    ((Seq<char>, Seq<char>), Seq<char>),
> {
    match tok(t, '{') {
        None => None,
        Some(r) => match parse_kv(r, k1) {
            None => None,
            Some(p1) => match tok(p1.1, ',') {
                None => None,
                Some(r2) => match parse_kv(r2, k2) {
                    None => None,
                    Some(p2) => match tok(p2.1, '}') {
                        None => None,
                        Some(r3) => Some(((p1.0, p2.0), r3)),
                    },
                },
            },
        },
    }
}

/// One or more comma-separated strings, then the closing bracket.
pub open spec fn parse_elems(t: Seq<char>) -> Option<(Seq<Seq<char>>, Seq<char>)>
    decreases t.len(),
    via parse_elems_dec
{
    match parse_string(t) {
        None => None,
        Some(p) => {
            let r2 = skip_ws(p.1);
            if r2.len() > 0 && r2[0] == ',' {
                match parse_elems(skip_ws(r2.skip(1))) {
                    Some(q) => Some((seq![p.0] + q.0, q.1)),
                    None => None,
                }
            } else if r2.len() > 0 && r2[0] == ']' {
                Some((seq![p.0], r2.skip(1)))
            } else {
                None
            }
        },
    }
}

#[via_fn]
proof fn parse_elems_dec(t: Seq<char>) {
    if t.len() > 0 && t[0] == '"' {
        lemma_parse_string_body_len(t.skip(1));
        if let Some(p) = parse_string(t) {
            lemma_skip_ws_len(p.1);
            let r2 = skip_ws(p.1);
            if r2.len() > 0 && r2[0] == ',' {
                lemma_skip_ws_len(r2.skip(1));
            }
        }
    }
}

/// A JSON array of strings, after its opening bracket and any whitespace:
/// either at once the closing bracket, or its elements.
pub open spec fn parse_list(t: Seq<char>) -> Option<(Seq<Seq<char>>, Seq<char>)> {
    if t.len() > 0 && t[0] == ']' {
        Some((Seq::empty(), t.skip(1)))
    } else {
        parse_elems(t)
    }
}

/// The inner object of a `UserList` frame.
pub open spec fn parse_users(t: Seq<char>) -> Option<(Seq<Seq<char>>, Seq<char>)> {
    match tok(t, '{') {
        None => None,
        Some(r) => match tok_string(r) {
            None => None,
            Some(p) => if p.0 == "users"@ {
                match tok(p.1, ':') {
                    None => None,
                    Some(r2) => match tok(r2, '[') {
                        None => None,
                        Some(r3) => match parse_list(skip_ws(r3)) {
                            None => None,
                            Some(q) => match tok(q.1, '}') {
                                None => None,
                                Some(r4) => Some((q.0, r4)),
                            },
                        },
                    },
                }
            } else {
                None
            },
        },
    }
}

/// The payload of a frame, chosen by its tag.  An unknown tag parses to
/// nothing.
pub open spec fn parse_payload(tag: Seq<char>, t: Seq<char>) -> Option<(MsgView, Seq<char>)> {
    if tag == "Join"@ {
        match parse_obj1(t, "username"@) {
            Some(p) => Some(((MsgView::Join { username: p.0 }), p.1)),
            None => None,
        }
    } else if tag == "Leave"@ {
        match parse_obj1(t, "username"@) {
            Some(p) => Some(((MsgView::Leave { username: p.0 }), p.1)),
            None => None,
        }
    } else if tag == "Message"@ {
        match parse_obj2(t, "username"@, "content"@) {
            Some(p) => Some(((MsgView::Message { username: p.0.0, content: p.0.1 }), p.1)),
            None => None,
        }
    } else if tag == "UserList"@ {
        match parse_users(t) {
            Some(p) => Some(((MsgView::UserList { users: p.0 }), p.1)),
            None => None,
        }
    } else if tag == "Error"@ {
        match parse_obj1(t, "message"@) {
            Some(p) => Some(((MsgView::Error { message: p.0 }), p.1)),
            None => None,
        }
    } else {
        None
    }
}

/// One whole frame: the outer object, the tag, the payload, the closing
/// brace, and nothing but whitespace after it.
pub open spec fn parse_msg(s: Seq<char>) -> Option<MsgView> {
    match tok(s, '{') {
        None => None,
        Some(r) => match tok_string(r) {
            None => None,
            Some(p) => match tok(p.1, ':') {
                None => None,
                Some(r2) => match parse_payload(p.0, r2) {
                    None => None,
                    Some(q) => match tok(q.1, '}') {
                        None => None,
                        Some(r3) => if skip_ws(r3).len() == 0 {
                            Some(q.0)
                        } else {
                            None
                        },
                    },
                },
            },
        },
    }
}

// ---------------------------------------------------------------------------
// Lemmas about the encoding.
// ---------------------------------------------------------------------------

/// Escaping distributes over concatenation.
proof fn lemma_escape_app(a: Seq<char>, b: Seq<char>)
    ensures
        escape_seq(a + b) == escape_seq(a) + escape_seq(b),
    decreases a.len(),
{
    if a.len() == 0 {
        assert(a + b =~= b);
        assert(escape_seq(a) + escape_seq(b) =~= escape_seq(b));
    } else {
        assert((a + b).skip(1) =~= a.skip(1) + b);
        lemma_escape_app(a.skip(1), b);
        assert(escaped_char(a[0]) + (escape_seq(a.skip(1)) + escape_seq(b)) =~= (escaped_char(a[0])
            + escape_seq(a.skip(1))) + escape_seq(b));
        assert((a + b)[0] == a[0]);
    }
}

/// Escaping a single character.
proof fn lemma_escape_one(c: char)
    ensures
        escape_seq(seq![c]) == escaped_char(c),
{
    assert(seq![c].skip(1) =~= Seq::<char>::empty());
    assert(escaped_char(c) + escape_seq(Seq::<char>::empty()) =~= escaped_char(c));
}

/// The comma-separated tail distributes over concatenation.
proof fn lemma_tail_list_app(a: Seq<Seq<char>>, b: Seq<Seq<char>>)
    ensures
        tail_list(a + b) == tail_list(a) + tail_list(b),
    decreases a.len(),
{
    if a.len() == 0 {
        assert(a + b =~= b);
        assert(tail_list(a) + tail_list(b) =~= tail_list(b));
    } else {
        assert((a + b).skip(1) =~= a.skip(1) + b);
        lemma_tail_list_app(a.skip(1), b);
        assert((seq![','] + quoted(a[0])) + (tail_list(a.skip(1)) + tail_list(b)) =~= ((seq![',']
            + quoted(a[0])) + tail_list(a.skip(1))) + tail_list(b));
        assert((a + b)[0] == a[0]);
        assert(seq![','] + quoted((a + b)[0]) + tail_list((a + b).skip(1)) =~= (seq![','] + quoted(
            a[0],
        )) + (tail_list(a.skip(1)) + tail_list(b)));
    }
}

/// The comma-separated tail of a single element.
proof fn lemma_tail_list_one(u: Seq<char>)
    ensures
        tail_list(seq![u]) == seq![','] + quoted(u),
{
    assert(seq![u].skip(1) =~= Seq::<Seq<char>>::empty());
    assert(seq![','] + quoted(u) + tail_list(Seq::<Seq<char>>::empty()) =~= seq![','] + quoted(u));
}

// ---------------------------------------------------------------------------
// The executable encoder.
// ---------------------------------------------------------------------------

/// The lower-case hexadecimal digit for a value below sixteen.
fn hex_char_x(d: u32) -> (c: char)
    requires
        d < 16,
    ensures
        c == hex_char(d as int),
{
    if d == 0 { '0' } else if d == 1 { '1' } else if d == 2 { '2' } else if d == 3 { '3' }
    else if d == 4 { '4' } else if d == 5 { '5' } else if d == 6 { '6' } else if d == 7 { '7' }
    else if d == 8 { '8' } else if d == 9 { '9' } else if d == 10 { 'a' } else if d == 11 { 'b' }
    else if d == 12 { 'c' } else if d == 13 { 'd' } else if d == 14 { 'e' } else { 'f' }
}

/// Append the escaped form of one character.
fn push_escaped(out: &mut Vec<char>, c: char)
    ensures
        final(out)@ == old(out)@ + escaped_char(c),
{
    if c == '"' {
        out.push('\\');
        out.push('"');
        proof {
            assert(out@ =~= old(out)@ + escaped_char(c));
        }
    } else if c == '\\' {
        out.push('\\');
        out.push('\\');
        proof {
            assert(out@ =~= old(out)@ + escaped_char(c));
        }
    } else if c == '\n' {
        out.push('\\');
        out.push('n');
        proof {
            assert(out@ =~= old(out)@ + escaped_char(c));
        }
    } else if c == '\r' {
        out.push('\\');
        out.push('r');
        proof {
            assert(out@ =~= old(out)@ + escaped_char(c));
        }
    } else if c == '\t' {
        out.push('\\');
        out.push('t');
        proof {
            assert(out@ =~= old(out)@ + escaped_char(c));
        }
    } else if (c as u32) < 0x20 {
        let n = c as u32;
        out.push('\\');
        out.push('u');
        out.push('0');
        out.push('0');
        out.push(hex_char_x(n / 16));
        out.push(hex_char_x(n % 16));
        proof {
            assert(out@ =~= old(out)@ + escaped_char(c));
        }
    } else {
        out.push(c);
        proof {
            assert(out@ =~= old(out)@ + escaped_char(c));
        }
    }
}

/// Append a JSON string literal: quotes around the escaped characters.
fn push_quoted(out: &mut Vec<char>, s: &str)
    ensures
        final(out)@ == old(out)@ + quoted(s@),
{
    let cs = crate::strutil::str_to_chars(s);
    out.push('"');
    let mut i: usize = 0;
    while i < cs.len()
        invariant
            cs@ == s@,
            0 <= i <= cs@.len(),
            out@ == old(out)@ + seq!['"'] + escape_seq(cs@.take(i as int)),
        decreases cs@.len() - i,
    {
        proof {
            assert(cs@.take(i + 1) =~= cs@.take(i as int) + seq![cs@[i as int]]);
            lemma_escape_app(cs@.take(i as int), seq![cs@[i as int]]);
            lemma_escape_one(cs@[i as int]);
        }
        let c = cs[i];
        push_escaped(out, c);
        proof {
            assert(out@ =~= old(out)@ + seq!['"'] + escape_seq(cs@.take(i + 1)));
        }
        i += 1;
    }
    proof {
        assert(cs@.take(cs@.len() as int) =~= cs@);
    }
    out.push('"');
    proof {
        assert(out@ =~= old(out)@ + quoted(s@));
    }
}

/// Encode one frame to its characters.
#[verifier::rlimit(50)]
pub fn encode_to_chars(m: &ChatMessage) -> (out: Vec<char>)
    ensures
        out@ == encode_msg(m@),
{
    let mut out: Vec<char> = Vec::new();
    out.push('{');
    match m {
        ChatMessage::Join { username } => {
            push_quoted(&mut out, "Join");
            out.push(':');
            out.push('{');
            push_quoted(&mut out, "username");
            out.push(':');
            push_quoted(&mut out, username.as_str());
            out.push('}');
            out.push('}');
            proof {
                assert(out@ =~= encode_msg(m@));
            }
        },
        ChatMessage::Leave { username } => {
            push_quoted(&mut out, "Leave");
            out.push(':');
            out.push('{');
            push_quoted(&mut out, "username");
            out.push(':');
            push_quoted(&mut out, username.as_str());
            out.push('}');
            out.push('}');
            proof {
                assert(out@ =~= encode_msg(m@));
            }
        },
        ChatMessage::Message { username, content } => {
            push_quoted(&mut out, "Message");
            out.push(':');
            out.push('{');
            push_quoted(&mut out, "username");
            out.push(':');
            push_quoted(&mut out, username.as_str());
            out.push(',');
            push_quoted(&mut out, "content");
            out.push(':');
            push_quoted(&mut out, content.as_str());
            out.push('}');
            out.push('}');
            proof {
                assert(out@ =~= encode_msg(m@));
            }
        },
        ChatMessage::UserList { users } => {
            push_quoted(&mut out, "UserList");
            out.push(':');
            out.push('{');
            push_quoted(&mut out, "users");
            out.push(':');
            out.push('[');
            let ghost names = crate::msg::names_of(users@);
            let ghost mark = out@;
            let mut i: usize = 0;
            while i < users.len()
                invariant
                    names == crate::msg::names_of(users@),
                    0 <= i <= users@.len(),
                    names.len() == users@.len(),
                    forall|k: int| 0 <= k < names.len() ==> names[k] == users@[k]@,
                    i == 0 ==> out@ == mark,
                    i > 0 ==> out@ == mark + quoted(names[0]) + tail_list(
                        names.take(i as int).skip(1),
                    ),
                decreases users@.len() - i,
            {
                if i > 0 {
                    out.push(',');
                    push_quoted(&mut out, users[i].as_str());
                    proof {
                        let pre = names.take(i as int).skip(1);
                        assert(names.take(i + 1).skip(1) =~= pre + seq![names[i as int]]);
                        lemma_tail_list_app(pre, seq![names[i as int]]);
                        lemma_tail_list_one(names[i as int]);
                        assert(out@ =~= mark + quoted(names[0]) + tail_list(
                            names.take(i + 1).skip(1),
                        ));
                    }
                } else {
                    push_quoted(&mut out, users[i].as_str());
                    proof {
                        assert(names.take(1int).skip(1) =~= Seq::<Seq<char>>::empty());
                        assert(out@ =~= mark + quoted(names[0]) + tail_list(
                            names.take(1int).skip(1),
                        ));
                    }
                }
                i += 1;
            }
            proof {
                if users@.len() > 0 {
                    assert(names.take(names.len() as int) =~= names);
                    assert(names.take(names.len() as int).skip(1) =~= names.skip(1));
                }
            }
            out.push(']');
            out.push('}');
            out.push('}');
            proof {
                if users@.len() == 0 {
                    assert(encode_list(names) =~= Seq::<char>::empty());
                }
                assert(out@ =~= encode_msg(m@));
            }
        },
        ChatMessage::Error { message } => {
            push_quoted(&mut out, "Error");
            out.push(':');
            out.push('{');
            push_quoted(&mut out, "message");
            out.push(':');
            push_quoted(&mut out, message.as_str());
            out.push('}');
            out.push('}');
            proof {
                assert(out@ =~= encode_msg(m@));
            }
        },
    }
    out
}

// ---------------------------------------------------------------------------
// Round trip: the decoder inverts the encoder.
// ---------------------------------------------------------------------------

/// Skipping whitespace leaves untouched an input that does not start with
/// whitespace.
proof fn lemma_skip_ws_id(t: Seq<char>)
    requires
        t.len() == 0 || !is_ws(t[0]),
    ensures
        skip_ws(t) == t,
{
}

/// A token parse succeeds on an input that starts with the wanted character.
proof fn lemma_tok(t: Seq<char>, c: char)
    requires
        t.len() > 0,
        t[0] == c,
        !is_ws(c),
    ensures
        tok(t, c) == Some(t.skip(1)),
{
    lemma_skip_ws_id(t);
}

/// Each hexadecimal digit the encoder writes reads back as its value.
proof fn lemma_hex_digit(d: int)
    requires
        0 <= d < 16,
    ensures
        is_hex(hex_char(d)),
        hex_val(hex_char(d)) == d,
{
}

/// Parsing the escaped form of a character sequence, up to its closing
/// quote, recovers the sequence.
proof fn lemma_parse_escaped(u: Seq<char>, rest: Seq<char>)
    ensures
        parse_string_body(escape_seq(u) + seq!['"'] + rest) == Some((u, rest)),
    decreases u.len(),
{
    let t = escape_seq(u) + seq!['"'] + rest;
    if u.len() == 0 {
        assert(escape_seq(u) =~= Seq::<char>::empty());
        assert(t =~= seq!['"'] + rest);
        assert(t.skip(1) =~= rest);
        assert(Some((Seq::<char>::empty(), t.skip(1))) == Some((u, rest)));
    } else {
        let c = u[0];
        let e = escaped_char(c);
        let t2 = escape_seq(u.skip(1)) + seq!['"'] + rest;
        assert(t =~= e + t2);
        lemma_parse_escaped(u.skip(1), rest);
        assert(seq![c] + u.skip(1) =~= u);
        if c == '"' {
            assert(t.skip(2) =~= t2);
        } else if c == '\\' {
            assert(t.skip(2) =~= t2);
        } else if c == '\n' || c == '\r' || c == '\t' {
            assert(t.skip(2) =~= t2);
        } else if (c as u32) < 0x20 {
            let n = (c as u32) as int;
            lemma_hex_digit(n / 16);
            lemma_hex_digit(n % 16);
            assert(t.skip(6) =~= t2);
            assert(hex_val(t[4]) * 16 + hex_val(t[5]) == n);
            let x = code_char(n);
            assert(x as u32 == n);
            vstd::utf8::char_u32_cast(x, x as u32);
            vstd::utf8::char_u32_cast(c, c as u32);
            assert(code_char(n) == c);
        } else {
            assert(t.skip(1) =~= t2);
        }
    }
}

/// Parsing a quoted string recovers the string.
proof fn lemma_parse_quoted(u: Seq<char>, rest: Seq<char>)
    ensures
        parse_string(quoted(u) + rest) == Some((u, rest)),
{
    let t = quoted(u) + rest;
    assert(t[0] == '"');
    assert(t.skip(1) =~= escape_seq(u) + seq!['"'] + rest);
    lemma_parse_escaped(u, rest);
}

/// A string token parse recovers a quoted string.
proof fn lemma_tok_string(u: Seq<char>, rest: Seq<char>)
    ensures
        tok_string(quoted(u) + rest) == Some((u, rest)),
{
    let t = quoted(u) + rest;
    assert(t[0] == '"');
    lemma_skip_ws_id(t);
    lemma_parse_quoted(u, rest);
}

/// A key-value parse recovers a quoted key, colon and quoted value.
proof fn lemma_parse_kv(key: Seq<char>, v: Seq<char>, rest: Seq<char>)
    ensures
        parse_kv(quoted(key) + seq![':'] + quoted(v) + rest, key) == Some((v, rest)),
{
    let t = quoted(key) + seq![':'] + quoted(v) + rest;
    let rest1 = seq![':'] + (quoted(v) + rest);
    assert(t =~= quoted(key) + rest1);
    lemma_tok_string(key, rest1);
    lemma_tok(rest1, ':');
    assert(rest1.skip(1) =~= quoted(v) + rest);
    lemma_tok_string(v, rest);
}

/// Parsing an encoded one-field object recovers its value.
proof fn lemma_parse_obj1(key: Seq<char>, v: Seq<char>, rest: Seq<char>)
    ensures
        parse_obj1(obj1(key, v) + rest, key) == Some((v, rest)),
{
    let t = obj1(key, v) + rest;
    assert(t[0] == '{');
    lemma_tok(t, '{');
    assert(t.skip(1) =~= quoted(key) + seq![':'] + quoted(v) + (seq!['}'] + rest));
    lemma_parse_kv(key, v, seq!['}'] + rest);
    lemma_tok(seq!['}'] + rest, '}');
    assert((seq!['}'] + rest).skip(1) =~= rest);
}

/// Parsing an encoded two-field object recovers both values.
proof fn lemma_parse_obj2(k1: Seq<char>, v1: Seq<char>, k2: Seq<char>, v2: Seq<char>, rest: Seq<char>)
    ensures
        parse_obj2(obj2(k1, v1, k2, v2) + rest, k1, k2) == Some(((v1, v2), rest)),
{
    let t = obj2(k1, v1, k2, v2) + rest;
    assert(t[0] == '{');
    lemma_tok(t, '{');
    let rest1 = seq![','] + (quoted(k2) + seq![':'] + quoted(v2) + (seq!['}'] + rest));
    assert(t.skip(1) =~= quoted(k1) + seq![':'] + quoted(v1) + rest1);
    lemma_parse_kv(k1, v1, rest1);
    lemma_tok(rest1, ',');
    assert(rest1.skip(1) =~= quoted(k2) + seq![':'] + quoted(v2) + (seq!['}'] + rest));
    lemma_parse_kv(k2, v2, seq!['}'] + rest);
    lemma_tok(seq!['}'] + rest, '}');
    assert((seq!['}'] + rest).skip(1) =~= rest);
}

/// Parsing one or more encoded strings recovers them.
proof fn lemma_parse_elems(users: Seq<Seq<char>>, rest: Seq<char>)
    requires
        users.len() > 0,
    ensures
        parse_elems(encode_list(users) + seq![']'] + rest) == Some((users, rest)),
    decreases users.len(),
{
    let t = encode_list(users) + seq![']'] + rest;
    let tail = tail_list(users.skip(1)) + (seq![']'] + rest);
    assert(t =~= quoted(users[0]) + tail);
    lemma_parse_quoted(users[0], tail);
    lemma_skip_ws_id(tail);
    if users.len() == 1 {
        assert(users.skip(1) =~= Seq::<Seq<char>>::empty());
        assert(tail_list(users.skip(1)) =~= Seq::<char>::empty());
        assert(tail =~= seq![']'] + rest);
        assert(tail[0] == ']');
        assert(tail.skip(1) =~= rest);
        assert(seq![users[0]] =~= users);
    } else {
        assert(tail_list(users.skip(1)) == seq![','] + quoted(users.skip(1)[0]) + tail_list(
            users.skip(1).skip(1),
        ));
        assert(tail[0] == ',');
        let next = encode_list(users.skip(1)) + seq![']'] + rest;
        assert(users.skip(1).skip(1) =~= users.skip(2));
        assert(tail.skip(1) =~= next);
        assert(next[0] == '"');
        lemma_skip_ws_id(next);
        lemma_parse_elems(users.skip(1), rest);
        assert(seq![users[0]] + users.skip(1) =~= users);
    }
}

/// Parsing an encoded array of strings recovers the strings.
proof fn lemma_parse_list(users: Seq<Seq<char>>, rest: Seq<char>)
    ensures
        parse_list(encode_list(users) + seq![']'] + rest) == Some((users, rest)),
{
    let t = encode_list(users) + seq![']'] + rest;
    if users.len() == 0 {
        assert(encode_list(users) =~= Seq::<char>::empty());
        assert(t =~= seq![']'] + rest);
        assert(t.skip(1) =~= rest);
        assert(Some((Seq::<Seq<char>>::empty(), t.skip(1))) == Some((users, rest)));
    } else {
        assert(t[0] == '"');
        lemma_parse_elems(users, rest);
    }
}

/// Parsing an encoded user-list object recovers the usernames.
proof fn lemma_parse_users(users: Seq<Seq<char>>, rest: Seq<char>)
    ensures
        parse_users(obj_users(users) + rest) == Some((users, rest)),
{
    let t = obj_users(users) + rest;
    assert(t[0] == '{');
    lemma_tok(t, '{');
    let rest1 = seq![':'] + (seq!['['] + (encode_list(users) + seq![']'] + (seq!['}'] + rest)));
    assert(t.skip(1) =~= quoted("users"@) + rest1);
    lemma_tok_string("users"@, rest1);
    lemma_tok(rest1, ':');
    let rest2 = seq!['['] + (encode_list(users) + seq![']'] + (seq!['}'] + rest));
    assert(rest1.skip(1) =~= rest2);
    lemma_tok(rest2, '[');
    let rest3 = encode_list(users) + seq![']'] + (seq!['}'] + rest);
    assert(rest2.skip(1) =~= rest3);
    if users.len() == 0 {
        assert(encode_list(users) =~= Seq::<char>::empty());
        assert(rest3[0] == ']');
    } else {
        assert(rest3[0] == '"');
    }
    lemma_skip_ws_id(rest3);
    lemma_parse_list(users, seq!['}'] + rest);
    lemma_tok(seq!['}'] + rest, '}');
    assert((seq!['}'] + rest).skip(1) =~= rest);
}

/// Decoding an encoded frame gives the frame back: the decoder inverts the
/// encoder on every constructible message.
pub proof fn lemma_round_trip(m: MsgView)
    ensures
        parse_msg(encode_msg(m)) == Some(m),
{
    reveal_strlit("Join");
    reveal_strlit("Leave");
    reveal_strlit("Message");
    reveal_strlit("UserList");
    reveal_strlit("Error");
    let tag = tag_of(m);
    let s = encode_msg(m);
    let after_tag = seq![':'] + (payload_of(m) + seq!['}']);
    assert(s[0] == '{');
    lemma_tok(s, '{');
    assert(s.skip(1) =~= quoted(tag) + after_tag);
    lemma_tok_string(tag, after_tag);
    lemma_tok(after_tag, ':');
    assert(after_tag.skip(1) =~= payload_of(m) + seq!['}']);
    match m {
        MsgView::Join { username } => {
            lemma_parse_obj1("username"@, username, seq!['}']);
        },
        MsgView::Leave { username } => {
            lemma_parse_obj1("username"@, username, seq!['}']);
        },
        MsgView::Message { username, content } => {
            lemma_parse_obj2("username"@, username, "content"@, content, seq!['}']);
        },
        MsgView::UserList { users } => {
            lemma_parse_users(users, seq!['}']);
        },
        MsgView::Error { message } => {
            lemma_parse_obj1("message"@, message, seq!['}']);
        },
    }
    lemma_tok(seq!['}'], '}');
    assert(seq!['}'].skip(1) =~= Seq::<char>::empty());
}

// ---------------------------------------------------------------------------
// The executable decoder.  Each function mirrors one of the grammar
// functions above, reading the suffix of the input that starts at its index.
// ---------------------------------------------------------------------------

/// Error returned when a frame cannot be decoded.  Malformed frames are
/// dropped by their receiver, never fatal.
#[derive(Debug, Clone, Copy, PartialEq, Eq)]
pub struct DecodeError;

pub(crate) fn skip_ws_x(s: &Vec<char>, i: usize) -> (j: usize)
    requires
        i <= s@.len(),
    ensures
        i <= j <= s@.len(),
        s@.skip(j as int) == skip_ws(s@.skip(i as int)),
{
    let mut j = i;
    while j < s.len() && (s[j] == ' ' || s[j] == '\n' || s[j] == '\t' || s[j] == '\r')
        invariant
            i <= j <= s@.len(),
            skip_ws(s@.skip(i as int)) == skip_ws(s@.skip(j as int)),
        decreases s@.len() - j,
    {
        proof {
            assert(s@.skip(j as int)[0] == s@[j as int]);
            assert(s@.skip(j as int).skip(1) =~= s@.skip(j + 1));
        }
        j += 1;
    }
    proof {
        if j < s@.len() {
            assert(s@.skip(j as int)[0] == s@[j as int]);
        }
        lemma_skip_ws_id(s@.skip(j as int));
    }
    j
}

fn tok_x(s: &Vec<char>, i: usize, c: char) -> (r: Option<usize>)
    requires
        i <= s@.len(),
    ensures
        match r {
            Some(j) => i <= j <= s@.len() && tok(s@.skip(i as int), c) == Some(s@.skip(j as int)),
            None => tok(s@.skip(i as int), c) is None,
        },
{
    let j = skip_ws_x(s, i);
    if j < s.len() && s[j] == c {
        proof {
            assert(s@.skip(j as int)[0] == s@[j as int]);
            assert(s@.skip(j as int).skip(1) =~= s@.skip(j + 1));
        }
        Some(j + 1)
    } else {
        proof {
            if j < s@.len() {
                assert(s@.skip(j as int)[0] == s@[j as int]);
            }
        }
        None
    }
}

fn is_hex_x(c: char) -> (b: bool)
    ensures
        b == is_hex(c),
{
    let n = c as u32;
    (48 <= n && n <= 57) || (97 <= n && n <= 102) || (65 <= n && n <= 70)
}

fn hex_val_x(c: char) -> (v: u32)
    requires
        is_hex(c),
    ensures
        v == hex_val(c),
        v < 16,
{
    let n = c as u32;
    if 48 <= n && n <= 57 {
        n - 48
    } else if 97 <= n {
        n - 87
    } else {
        n - 55
    }
}

fn unescape_x(e: char) -> (r: Option<char>)
    ensures
        r == unescaped(e),
{
    if e == '"' {
        Some('"')
    } else if e == '\\' {
        Some('\\')
    } else if e == '/' {
        Some('/')
    } else if e == 'b' {
        Some('\u{0008}')
    } else if e == 'f' {
        Some('\u{000c}')
    } else if e == 'n' {
        Some('\n')
    } else if e == 'r' {
        Some('\r')
    } else if e == 't' {
        Some('\t')
    } else {
        None
    }
}

#[verifier::rlimit(50)]
fn parse_string_x(s: &Vec<char>, i: usize) -> (r: Option<(Vec<char>, usize)>)
    requires
        i <= s@.len(),
    ensures
        match r {
            Some(p) => i < p.1 <= s@.len() && parse_string(s@.skip(i as int)) == Some(
                (p.0@, s@.skip(p.1 as int)),
            ),
            None => parse_string(s@.skip(i as int)) is None,
        },
{
    if !(i < s.len() && s[i] == '"') {
        proof {
            if i < s@.len() {
                assert(s@.skip(i as int)[0] == s@[i as int]);
            }
        }
        return None;
    }
    proof {
        assert(s@.skip(i as int)[0] == s@[i as int]);
        assert(s@.skip(i as int).skip(1) =~= s@.skip(i + 1));
    }
    let mut out: Vec<char> = Vec::new();
    let mut k = i + 1;
    loop
        invariant
            i + 1 <= k <= s@.len(),
            i < s@.len(),
            parse_string_body(s@.skip(i + 1)) == (match parse_string_body(s@.skip(k as int)) {
                Some(q) => Some((out@ + q.0, q.1)),
                None => None,
            }),
            parse_string(s@.skip(i as int)) == parse_string_body(s@.skip(i + 1)),
        decreases s@.len() - k,
    {
        if k >= s.len() {
            proof {
                assert(s@.skip(k as int).len() == 0);
            }
            return None;
        }
        let c = s[k];
        proof {
            assert(s@.skip(k as int)[0] == s@[k as int]);
        }
        if c == '"' {
            proof {
                assert(s@.skip(k as int).skip(1) =~= s@.skip(k + 1));
                assert(out@ + Seq::<char>::empty() =~= out@);
            }
            return Some((out, k + 1));
        } else if c == '\\' {
            if k + 1 >= s.len() {
                proof {
                    assert(s@.skip(k as int).len() < 2);
                }
                return None;
            }
            let e = s[k + 1];
            proof {
                assert(s@.skip(k as int)[1] == s@[k + 1]);
            }
            if e == 'u' {
                if s.len() - k < 6 {
                    proof {
                        assert(s@.skip(k as int).len() < 6);
                    }
                    return None;
                }
                proof {
                    assert(s@.skip(k as int)[2] == s@[k + 2]);
                    assert(s@.skip(k as int)[3] == s@[k + 3]);
                    assert(s@.skip(k as int)[4] == s@[k + 4]);
                    assert(s@.skip(k as int)[5] == s@[k + 5]);
                }
                if s[k + 2] == '0' && s[k + 3] == '0' && is_hex_x(s[k + 4]) && is_hex_x(s[k + 5]) {
                    let v = hex_val_x(s[k + 4]) * 16 + hex_val_x(s[k + 5]);
                    let ch = (v as u8) as char;
                    proof {
                        let n = hex_val(s@[k + 4]) * 16 + hex_val(s@[k + 5]);
                        let x = code_char(n);
                        assert(ch as u32 == n);
                        assert(x as u32 == n);
                        vstd::utf8::char_u32_cast(x, x as u32);
                        vstd::utf8::char_u32_cast(ch, ch as u32);
                        assert(ch == x);
                        assert(s@.skip(k as int).skip(6) =~= s@.skip(k + 6));
                        assert forall|q0: Seq<char>| out@ + (seq![ch] + q0) == (out@ + seq![ch])
                            + q0 by {
                            assert(out@ + (seq![ch] + q0) =~= (out@ + seq![ch]) + q0);
                        }
                    }
                    out.push(ch);
                    k = k + 6;
                } else {
                    return None;
                }
            } else {
                match unescape_x(e) {
                    Some(ch) => {
                        proof {
                            assert(s@.skip(k as int).skip(2) =~= s@.skip(k + 2));
                            assert forall|q0: Seq<char>| out@ + (seq![ch] + q0) == (out@
                                + seq![ch]) + q0 by {
                                assert(out@ + (seq![ch] + q0) =~= (out@ + seq![ch]) + q0);
                            }
                        }
                        out.push(ch);
                        k = k + 2;
                    },
                    None => {
                        return None;
                    },
                }
            }
        } else if (c as u32) < 0x20 {
            return None;
        } else {
            proof {
                assert(s@.skip(k as int).skip(1) =~= s@.skip(k + 1));
                assert forall|q0: Seq<char>| out@ + (seq![c] + q0) == (out@ + seq![c]) + q0 by {
                    assert(out@ + (seq![c] + q0) =~= (out@ + seq![c]) + q0);
                }
            }
            out.push(c);
            k = k + 1;
        }
    }
}

fn tok_string_x(s: &Vec<char>, i: usize) -> (r: Option<(Vec<char>, usize)>)
    requires
        i <= s@.len(),
    ensures
        match r {
            Some(p) => i < p.1 <= s@.len() && tok_string(s@.skip(i as int)) == Some(
                (p.0@, s@.skip(p.1 as int)),
            ),
            None => tok_string(s@.skip(i as int)) is None,
        },
{
    let j = skip_ws_x(s, i);
    parse_string_x(s, j)
}

fn parse_kv_x(s: &Vec<char>, i: usize, key: &str) -> (r: Option<(Vec<char>, usize)>)
    requires
        i <= s@.len(),
    ensures
        match r {
            Some(p) => i < p.1 <= s@.len() && parse_kv(s@.skip(i as int), key@) == Some(
                (p.0@, s@.skip(p.1 as int)),
            ),
            None => parse_kv(s@.skip(i as int), key@) is None,
        },
{
    match tok_string_x(s, i) {
        None => None,
        Some((k, j)) => {
            if !crate::strutil::chars_eq_str(&k, key) {
                return None;
            }
            match tok_x(s, j, ':') {
                None => None,
                Some(j2) => tok_string_x(s, j2),
            }
        },
    }
}

fn parse_obj1_x(s: &Vec<char>, i: usize, key: &str) -> (r: Option<(Vec<char>, usize)>)
    requires
        i <= s@.len(),
    ensures
        match r {
            Some(p) => p.1 <= s@.len() && parse_obj1(s@.skip(i as int), key@) == Some(
                (p.0@, s@.skip(p.1 as int)),
            ),
            None => parse_obj1(s@.skip(i as int), key@) is None,
        },
{
    match tok_x(s, i, '{') {
        None => None,
        Some(j) => match parse_kv_x(s, j, key) {
            None => None,
            Some((v, j2)) => match tok_x(s, j2, '}') {
                None => None,
                Some(j3) => Some((v, j3)),
            },
        },
    }
}

fn parse_obj2_x(s: &Vec<char>, i: usize, k1: &str, k2: &str) -> (r: Option<
    (Vec<char>, Vec<char>, usize),
>)
    requires
        i <= s@.len(),
    ensures
        match r {
            Some(p) => p.2 <= s@.len() && parse_obj2(s@.skip(i as int), k1@, k2@) == Some(
                ((p.0@, p.1@), s@.skip(p.2 as int)),
            ),
            None => parse_obj2(s@.skip(i as int), k1@, k2@) is None,
        },
{
    match tok_x(s, i, '{') {
        None => None,
        Some(j) => match parse_kv_x(s, j, k1) {
            None => None,
            Some((v1, j2)) => match tok_x(s, j2, ',') {
                None => None,
                Some(j3) => match parse_kv_x(s, j3, k2) {
                    None => None,
                    Some((v2, j4)) => match tok_x(s, j4, '}') {
                        None => None,
                        Some(j5) => Some((v1, v2, j5)),
                    },
                },
            },
        },
    }
}

fn parse_elems_x(s: &Vec<char>, i: usize) -> (r: Option<(Vec<String>, usize)>)
    requires
        i <= s@.len(),
    ensures
        match r {
            Some(p) => p.1 <= s@.len() && parse_elems(s@.skip(i as int)) == Some(
                (crate::msg::names_of(p.0@), s@.skip(p.1 as int)),
            ),
            None => parse_elems(s@.skip(i as int)) is None,
        },
{
    let mut out: Vec<String> = Vec::new();
    let mut k = i;
    loop
        invariant
            i <= k <= s@.len(),
            parse_elems(s@.skip(i as int)) == (match parse_elems(s@.skip(k as int)) {
                Some(q) => Some((crate::msg::names_of(out@) + q.0, q.1)),
                None => None,
            }),
        decreases s@.len() - k,
    {
        match parse_string_x(s, k) {
            None => {
                return None;
            },
            Some((u, j)) => {
                let j2 = skip_ws_x(s, j);
                let us = crate::strutil::chars_to_string(&u);
                proof {
                    assert(crate::msg::names_of(out@.push(us)) =~= crate::msg::names_of(out@)
                        + seq![u@]);
                }
                if j2 < s.len() && s[j2] == ',' {
                    proof {
                        assert(s@.skip(j2 as int)[0] == s@[j2 as int]);
                        assert(s@.skip(j2 as int).skip(1) =~= s@.skip(j2 + 1));
                        assert forall|q0: Seq<Seq<char>>|
                            crate::msg::names_of(out@) + (seq![u@] + q0) == (crate::msg::names_of(
                                out@,
                            ) + seq![u@]) + q0 by {
                            assert(crate::msg::names_of(out@) + (seq![u@] + q0) =~= (
                            crate::msg::names_of(out@) + seq![u@]) + q0);
                        }
                    }
                    out.push(us);
                    k = skip_ws_x(s, j2 + 1);
                } else if j2 < s.len() && s[j2] == ']' {
                    proof {
                        assert(s@.skip(j2 as int)[0] == s@[j2 as int]);
                        assert(s@.skip(j2 as int).skip(1) =~= s@.skip(j2 + 1));
                        assert(crate::msg::names_of(out@) + seq![u@] =~= crate::msg::names_of(
                            out@.push(us),
                        ));
                    }
                    out.push(us);
                    return Some((out, j2 + 1));
                } else {
                    proof {
                        if j2 < s@.len() {
                            assert(s@.skip(j2 as int)[0] == s@[j2 as int]);
                        }
                    }
                    return None;
                }
            },
        }
    }
}

fn parse_list_x(s: &Vec<char>, i: usize) -> (r: Option<(Vec<String>, usize)>)
    requires
        i <= s@.len(),
    ensures
        match r {
            Some(p) => p.1 <= s@.len() && parse_list(s@.skip(i as int)) == Some(
                (crate::msg::names_of(p.0@), s@.skip(p.1 as int)),
            ),
            None => parse_list(s@.skip(i as int)) is None,
        },
{
    if i < s.len() && s[i] == ']' {
        proof {
            assert(s@.skip(i as int)[0] == s@[i as int]);
            assert(s@.skip(i as int).skip(1) =~= s@.skip(i + 1));
            assert(crate::msg::names_of(Seq::<String>::empty()) =~= Seq::<Seq<char>>::empty());
        }
        let empty_list: Vec<String> = Vec::new();
        return Some((empty_list, i + 1));
    }
    proof {
        if i < s@.len() {
            assert(s@.skip(i as int)[0] == s@[i as int]);
        }
    }
    parse_elems_x(s, i)
}

fn parse_users_x(s: &Vec<char>, i: usize) -> (r: Option<(Vec<String>, usize)>)
    requires
        i <= s@.len(),
    ensures
        match r {
            Some(p) => p.1 <= s@.len() && parse_users(s@.skip(i as int)) == Some(
                (crate::msg::names_of(p.0@), s@.skip(p.1 as int)),
            ),
            None => parse_users(s@.skip(i as int)) is None,
        },
{
    match tok_x(s, i, '{') {
        None => None,
        Some(j) => match tok_string_x(s, j) {
            None => None,
            Some((k, j1)) => {
                if !crate::strutil::chars_eq_str(&k, "users") {
                    return None;
                }
                match tok_x(s, j1, ':') {
                    None => None,
                    Some(j2) => match tok_x(s, j2, '[') {
                        None => None,
                        Some(j3) => {
                            let j4 = skip_ws_x(s, j3);
                            match parse_list_x(s, j4) {
                                None => None,
                                Some((users, j5)) => match tok_x(s, j5, '}') {
                                    None => None,
                                    Some(j6) => Some((users, j6)),
                                },
                            }
                        },
                    },
                }
            },
        },
    }
}

fn parse_payload_x(s: &Vec<char>, i: usize, tag: &Vec<char>) -> (r: Option<(ChatMessage, usize)>)
    requires
        i <= s@.len(),
    ensures
        match r {
            Some(p) => p.1 <= s@.len() && parse_payload(tag@, s@.skip(i as int)) == Some(
                (p.0@, s@.skip(p.1 as int)),
            ),
            None => parse_payload(tag@, s@.skip(i as int)) is None,
        },
{
    if crate::strutil::chars_eq_str(tag, "Join") {
        match parse_obj1_x(s, i, "username") {
            Some((v, j)) => {
                let username = crate::strutil::chars_to_string(&v);
                Some((ChatMessage::Join { username }, j))
            },
            None => None,
        }
    } else if crate::strutil::chars_eq_str(tag, "Leave") {
        match parse_obj1_x(s, i, "username") {
            Some((v, j)) => {
                let username = crate::strutil::chars_to_string(&v);
                Some((ChatMessage::Leave { username }, j))
            },
            None => None,
        }
    } else if crate::strutil::chars_eq_str(tag, "Message") {
        match parse_obj2_x(s, i, "username", "content") {
            Some((v1, v2, j)) => {
                let username = crate::strutil::chars_to_string(&v1);
                let content = crate::strutil::chars_to_string(&v2);
                Some((ChatMessage::Message { username, content }, j))
            },
            None => None,
        }
    } else if crate::strutil::chars_eq_str(tag, "UserList") {
        match parse_users_x(s, i) {
            Some((users, j)) => Some((ChatMessage::UserList { users }, j)),
            None => None,
        }
    } else if crate::strutil::chars_eq_str(tag, "Error") {
        match parse_obj1_x(s, i, "message") {
            Some((v, j)) => {
                let message = crate::strutil::chars_to_string(&v);
                Some((ChatMessage::Error { message }, j))
            },
            None => None,
        }
    } else {
        None
    }
}

fn parse_msg_x(s: &Vec<char>) -> (r: Option<ChatMessage>)
    ensures
        match r {
            Some(m) => parse_msg(s@) == Some(m@),
            None => parse_msg(s@) is None,
        },
{
    proof {
        assert(s@.skip(0) =~= s@);
    }
    match tok_x(s, 0, '{') {
        None => None,
        Some(j) => match tok_string_x(s, j) {
            None => None,
            Some((tag, j1)) => match tok_x(s, j1, ':') {
                None => None,
                Some(j2) => match parse_payload_x(s, j2, &tag) {
                    None => None,
                    Some((m, j3)) => match tok_x(s, j3, '}') {
                        None => None,
                        Some(j4) => {
                            let j5 = skip_ws_x(s, j4);
                            if j5 == s.len() {
                                proof {
                                    assert(s@.skip(j5 as int).len() == 0);
                                }
                                Some(m)
                            } else {
                                proof {
                                    assert(s@.skip(j5 as int).len() > 0);
                                }
                                None
                            }
                        },
                    },
                },
            },
        },
    }
}

impl ChatMessage {
    /// Serialize one frame to its JSON text.  Always succeeds on a
    /// well-formed value.
    pub fn to_json(&self) -> (s: String)
        ensures
            s@ == encode_msg(self@),
    {
        let cs = encode_to_chars(self);
        crate::strutil::chars_to_string(&cs)
    }

    /// Decode one frame from JSON text.  Returns the frame whose encoding
    /// the text is, up to whitespace and string escapes; text that is not a
    /// frame of the five kinds is an error, which the receiver drops.
    pub fn from_json(json: &str) -> (r: Result<ChatMessage, DecodeError>)
        ensures
            match r {
                Ok(m) => parse_msg(json@) == Some(m@),
                Err(_) => parse_msg(json@) is None,
            },
    {
        let cs = crate::strutil::str_to_chars(json);
        match parse_msg_x(&cs) {
            Some(m) => Ok(m),
            None => Err(DecodeError),
        }
    }
}

} // verus!
