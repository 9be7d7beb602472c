//! A lighter single-room chat server: one group conversation with a short history, no
//! direct messages. Handles are unique regardless of ASCII case, and the presence list is
//! sorted.

pub mod laws;
pub mod state;

use vstd::prelude::*;

use crate::text::{
    all_handle_chars, decimal, decimal_string, is_handle_char_exec, join, join_strings,
    lemma_join_push, push_str, text_lt, trim, views,
};

pub use crate::clock::now_hms;

verus! {

/// A single chat message with sender, body, and timestamp.
#[derive(Debug, Clone, PartialEq, Eq)]
pub struct ChatLine {
    pub from: String,
    pub body: String,
    pub timestamp: String,
}

/// What a [`ChatLine`] holds.
pub struct ChatLineView {
    pub from: Seq<char>,
    pub body: Seq<char>,
    pub timestamp: Seq<char>,
}

impl View for ChatLine {
    type V = ChatLineView;

    open spec fn view(&self) -> ChatLineView {
        ChatLineView { from: self.from@, body: self.body@, timestamp: self.timestamp@ }
    }
}

pub open spec fn line_views(v: Seq<ChatLine>) -> Seq<ChatLineView> {
    v.map_values(|l: ChatLine| l@)
}

impl ChatLine {
    /// A copy of this line.
    pub fn duplicate(&self) -> (r: ChatLine)
        ensures
            r == *self,
    {
        ChatLine { from: self.from.clone(), body: self.body.clone(), timestamp: self.timestamp.clone() }
    }
}

/// Messages a client sends to this server.
#[derive(Debug, Clone, PartialEq, Eq)]
pub enum ClientMsg {
    Hello { nick: String },
    Chat { body: String },
    Who,
    Quit,
}

/// What a [`ClientMsg`] holds.
pub enum ClientMsgView {
    Hello { nick: Seq<char> },
    Chat { body: Seq<char> },
    Who,
    Quit,
}

impl View for ClientMsg {
    type V = ClientMsgView;

    open spec fn view(&self) -> ClientMsgView {
        match self {
            ClientMsg::Hello { nick } => ClientMsgView::Hello { nick: nick@ },
            ClientMsg::Chat { body } => ClientMsgView::Chat { body: body@ },
            ClientMsg::Who => ClientMsgView::Who,
            ClientMsg::Quit => ClientMsgView::Quit,
        }
    }
}

/// Messages this server sends to a client.
#[derive(Debug, Clone, PartialEq, Eq)]
pub enum ServerMsg {
    Welcome { nick: String, room: String, online: usize },
    System { body: String },
    Chat { from: String, body: String, timestamp: String },
    Presence { online: usize, users: Vec<String> },
    History { messages: Vec<ChatLine> },
    Error { body: String },
}

/// What a [`ServerMsg`] holds.
pub enum ServerMsgView {
    Welcome { nick: Seq<char>, room: Seq<char>, online: usize },
    System { body: Seq<char> },
    Chat { from: Seq<char>, body: Seq<char>, timestamp: Seq<char> },
    Presence { online: usize, users: Seq<Seq<char>> },
    History { messages: Seq<ChatLineView> },
    Error { body: Seq<char> },
}

impl View for ServerMsg {
    type V = ServerMsgView;

    open spec fn view(&self) -> ServerMsgView {
        match self {
            ServerMsg::Welcome { nick, room, online } => ServerMsgView::Welcome {
                nick: nick@,
                room: room@,
                online: *online,
            },
            ServerMsg::System { body } => ServerMsgView::System { body: body@ },
            ServerMsg::Chat { from, body, timestamp } => ServerMsgView::Chat {
                from: from@,
                body: body@,
                timestamp: timestamp@,
            },
            ServerMsg::Presence { online, users } => ServerMsgView::Presence {
                online: *online,
                users: views(users@),
            },
            ServerMsg::History { messages } => ServerMsgView::History {
                messages: line_views(messages@),
            },
            ServerMsg::Error { body } => ServerMsgView::Error { body: body@ },
        }
    }
}

/// `from: body`.
pub open spec fn line_text(l: ChatLineView) -> Seq<char> {
    l.from + ": "@ + l.body
}

/// How a message reads for a plain-text client; the welcome reads as nothing.
pub open spec fn plain_text(msg: ServerMsgView) -> Seq<char> {
    match msg {
        ServerMsgView::System { body } => body,
        ServerMsgView::Chat { from, body, .. } => from + ": "@ + body,
        ServerMsgView::History { messages } => if messages.len() == 0 {
            Seq::empty()
        } else {
            join(messages.map_values(|l: ChatLineView| line_text(l)), "\n"@)
        },
        ServerMsgView::Welcome { .. } => Seq::empty(),
        ServerMsgView::Presence { online, users } => "Online ("@ + decimal(online as nat) + "): "@
            + join(users, ", "@),
        ServerMsgView::Error { body } => "Error: "@ + body,
    }
}

/// How a message reads for a plain-text client.
pub fn format_plain(msg: &ServerMsg) -> (r: String)
    ensures
        r@ == plain_text(msg@),
{
    let mut r = String::new();
    match msg {
        ServerMsg::System { body } => {
            push_str(&mut r, body.as_str());
        },
        ServerMsg::Chat { from, body, .. } => {
            push_str(&mut r, from.as_str());
            push_str(&mut r, ": ");
            push_str(&mut r, body.as_str());
        },
        ServerMsg::History { messages } => {
            let ghost texts = line_views(messages@).map_values(|l: ChatLineView| line_text(l));
            let mut i: usize = 0;
            while i < messages.len()
                invariant
                    i <= messages@.len(),
                    texts == line_views(messages@).map_values(|l: ChatLineView| line_text(l)),
                    r@ == join(texts.take(i as int), "\n"@),
                decreases messages@.len() - i,
            {
                proof {
                    assert(texts.take(i + 1) =~= texts.take(i as int).push(texts[i as int]));
                    lemma_join_push(texts.take(i as int), "\n"@, texts[i as int]);
                }
                if i > 0 {
                    push_str(&mut r, "\n");
                }
                push_str(&mut r, messages[i].from.as_str());
                push_str(&mut r, ": ");
                push_str(&mut r, messages[i].body.as_str());
                i = i + 1;
            }
            proof {
                assert(texts.take(i as int) =~= texts);
                if messages@.len() == 0 {
                    assert(r@ =~= Seq::<char>::empty());
                }
            }
        },
        ServerMsg::Welcome { .. } => {},
        ServerMsg::Presence { online, users } => {
            push_str(&mut r, "Online (");
            let n = decimal_string(*online as u64);
            push_str(&mut r, n.as_str());
            push_str(&mut r, "): ");
            let u = join_strings(users, ", ");
            push_str(&mut r, u.as_str());
        },
        ServerMsg::Error { body } => {
            push_str(&mut r, "Error: ");
            push_str(&mut r, body.as_str());
        },
    }
    proof {
        assert(r@ =~= plain_text(msg@));
    }
    r
}

/// A handle this server accepts: after trimming, 2 to 24 characters, each a letter, a
/// digit, `_` or `-`.
pub open spec fn valid_nick_spec(nick: Seq<char>) -> bool {
    let t = trim(nick);
    2 <= t.len() <= 24 && all_handle_chars(t)
}

/// Whether this server accepts the handle `nick`.
pub fn valid_nick(nick: &str) -> (r: bool)
    ensures
        r == valid_nick_spec(nick@),
{
    let t = crate::text::trim_str(nick);
    let cs = crate::text::chars_of(t.as_str());
    let mut i: usize = 0;
    while i < cs.len()
        invariant
            cs@ == t@,
            t@ == trim(nick@),
            i <= cs@.len(),
            forall|k: int| 0 <= k < i ==> crate::text::is_handle_char(#[trigger] cs@[k]),
        decreases cs@.len() - i,
    {
        if !is_handle_char_exec(cs[i]) {
            proof {
                assert(!crate::text::is_handle_char(t@[i as int]));
            }
            return false;
        }
        i = i + 1;
    }
    proof {
        assert(vstd::utf8::is_ascii_chars(t@)) by {
            assert forall|k: int| 0 <= k < t@.len() implies '\0' <= #[trigger] t@[k] <= '\u{7f}' by {
                assert(crate::text::is_handle_char(cs@[k]));
            }
        }
        vstd::utf8::is_ascii_chars_encode_utf8(t@);
    }
    let n = t.as_str().as_bytes().len();
    2 <= n && n <= 24
}

/// A byte in ASCII lower case.
pub open spec fn ascii_lower(b: u8) -> u8 {
    if 65 <= b <= 90 {
        (b + 32) as u8
    } else {
        b
    }
}

/// The two texts are equal up to ASCII case, byte by byte (`str::eq_ignore_ascii_case`).
pub open spec fn eq_ignore_ascii_case_spec(a: Seq<char>, b: Seq<char>) -> bool {
    let x = vstd::utf8::encode_utf8(a);
    let y = vstd::utf8::encode_utf8(b);
    x.len() == y.len() && forall|i: int| 0 <= i < x.len() ==> ascii_lower(#[trigger] x[i]) == ascii_lower(y[i])
}

/// Whether the two texts are equal up to ASCII case.
pub fn eq_ignore_ascii_case(a: &str, b: &str) -> (r: bool)
    ensures
        r == eq_ignore_ascii_case_spec(a@, b@),
{
    let x = a.as_bytes();
    let y = b.as_bytes();
    if x.len() != y.len() {
        return false;
    }
    let mut i: usize = 0;
    while i < x.len()
        invariant
            x@ == vstd::utf8::encode_utf8(a@),
            y@ == vstd::utf8::encode_utf8(b@),
            x@.len() == y@.len(),
            i <= x@.len(),
            forall|k: int| 0 <= k < i ==> ascii_lower(#[trigger] x@[k]) == ascii_lower(y@[k]),
        decreases x@.len() - i,
    {
        let p = x[i];
        let q = y[i];
        let lp = if 65 <= p && p <= 90 { p + 32 } else { p };
        let lq = if 65 <= q && q <= 90 { q + 32 } else { q };
        if lp != lq {
            return false;
        }
        i = i + 1;
    }
    true
}

/// `x` inserted into `s` before the first element above it (in `str` order).
pub open spec fn insert_sorted(s: Seq<Seq<char>>, x: Seq<char>) -> Seq<Seq<char>>
    decreases s.len(),
{
    if s.len() == 0 {
        seq![x]
    } else if text_lt(x, s[0]) {
        seq![x] + s
    } else {
        seq![s[0]] + insert_sorted(s.drop_first(), x)
    }
}

/// Each text is at or above the ones before it in `str` order.
pub open spec fn texts_sorted(s: Seq<Seq<char>>) -> bool {
    forall|i: int, j: int| 0 <= i < j < s.len() ==> !text_lt(#[trigger] s[j], #[trigger] s[i])
}

/// `s` sorted in `str` order, by insertion.
pub open spec fn sorted_texts(s: Seq<Seq<char>>) -> Seq<Seq<char>>
    decreases s.len(),
{
    if s.len() == 0 {
        Seq::empty()
    } else {
        insert_sorted(sorted_texts(s.drop_last()), s.last())
    }
}

/// The first position in `s` whose element is above `x`, or the end.
pub open spec fn insert_position(s: Seq<Seq<char>>, x: Seq<char>, i: int) -> int
    decreases s.len() - i,
{
    if i < 0 || i >= s.len() {
        s.len() as int
    } else if text_lt(x, s[i]) {
        i
    } else {
        insert_position(s, x, i + 1)
    }
}

pub proof fn lemma_insert_position(s: Seq<Seq<char>>, x: Seq<char>, i: int)
    requires
        0 <= i <= s.len(),
    ensures
        i <= insert_position(s, x, i) <= s.len(),
        insert_sorted(s.skip(i), x) == s.skip(i).insert(insert_position(s, x, i) - i, x),
        forall|k: int| i <= k < insert_position(s, x, i) ==> !text_lt(x, #[trigger] s[k]),
        insert_position(s, x, i) < s.len() ==> text_lt(x, s[insert_position(s, x, i)]),
    decreases s.len() - i,
{
    if i < s.len() {
        if text_lt(x, s[i]) {
            assert(seq![x] + s.skip(i) =~= s.skip(i).insert(0, x));
        } else {
            lemma_insert_position(s, x, i + 1);
            assert(s.skip(i).drop_first() =~= s.skip(i + 1));
            let p = insert_position(s, x, i + 1);
            assert(seq![s.skip(i)[0]] + s.skip(i + 1).insert(p - (i + 1), x) =~= s.skip(i).insert(p - i, x));
        }
    } else {
        assert(s.skip(i) =~= Seq::<Seq<char>>::empty());
        assert(seq![x] =~= s.skip(i).insert(0, x));
    }
}

/// `texts` sorted in `str` order (`<[String]>::sort`).
pub fn sort_texts(texts: Vec<String>) -> (r: Vec<String>)
    ensures
        views(r@) == sorted_texts(views(texts@)),
{
    let ghost src = views(texts@);
    let mut r: Vec<String> = Vec::new();
    let mut i: usize = 0;
    while i < texts.len()
        invariant
            src == views(texts@),
            i <= texts@.len(),
            views(r@) == sorted_texts(src.take(i as int)),
        decreases texts@.len() - i,
    {
        let x = texts[i].clone();
        let mut p: usize = 0;
        proof {
            lemma_insert_position(views(r@), x@, 0);
        }
        while p < r.len() && !crate::server::state::text_less(x.as_str(), r[p].as_str())
            invariant
                p <= r@.len(),
                insert_position(views(r@), x@, 0) == insert_position(views(r@), x@, p as int),
            decreases r@.len() - p,
        {
            p = p + 1;
        }
        let ghost before = views(r@);
        proof {
            assert(before.skip(0) =~= before);
            assert(src.take(i + 1).drop_last() =~= src.take(i as int));
        }
        r.insert(p, x);
        proof {
            assert(views(r@) =~= before.insert(p as int, x@));
        }
        i = i + 1;
    }
    proof {
        assert(src.take(i as int) =~= src);
    }
    r
}

} // verus!
