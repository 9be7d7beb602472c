//! The chat server: its shared state, the handling of client input, and the plain-text
//! rendering of server messages.

pub mod handler;
pub mod laws;
pub mod state;

use vstd::prelude::*;

use crate::protocol::{ChatLine, ChatLineView, ServerMsg, ServerMsgView, line_views};
use crate::text::{decimal, decimal_string, join, join_strings, lemma_join_push, push_str};

pub use crate::clock::now_hms;

verus! {

/// `[timestamp] from: body`, how a chat line reads in plain text.
pub open spec fn line_text(l: ChatLineView) -> Seq<char> {
    "["@ + l.timestamp + "] "@ + l.from + ": "@ + l.body
}

/// The plain-text lines of a history, one per chat line, separated by newlines.
pub open spec fn lines_text(ls: Seq<ChatLineView>) -> Seq<char> {
    join(ls.map_values(|l: ChatLineView| line_text(l)), "\n"@)
}

/// How a server message reads for a plain-text (telnet/nc) client.
pub open spec fn plain_text(msg: ServerMsgView) -> Seq<char> {
    match msg {
        ServerMsgView::Chat { from, body, timestamp } => line_text(
            ChatLineView { from, body, timestamp },
        ),
        ServerMsgView::Dm { from, to, body, timestamp } => "["@ + timestamp + "] DM from "@ + from
            + " to "@ + to + ": "@ + body,
        ServerMsgView::System { body } => "*** "@ + body,
        ServerMsgView::Presence { online, users } => "*** Online: "@ + decimal(online as nat)
            + " users: "@ + join(users, ", "@),
        ServerMsgView::History { messages } => lines_text(messages),
        ServerMsgView::DmHistory { partner, messages } => "*** DM history with "@ + partner
            + ":\n"@ + lines_text(messages),
        ServerMsgView::Welcome { nick, room, online } => "*** Welcome to "@ + room + ", "@ + nick
            + "! ("@ + decimal(online as nat) + " online)"@,
        ServerMsgView::Error { body } => "*** Error: "@ + body,
    }
}

/// `[timestamp] from: body`.
fn line_string(l: &ChatLine) -> (r: String)
    ensures
        r@ == line_text(l@),
{
    let mut r = String::new();
    push_str(&mut r, "[");
    push_str(&mut r, l.timestamp.as_str());
    push_str(&mut r, "] ");
    push_str(&mut r, l.from.as_str());
    push_str(&mut r, ": ");
    push_str(&mut r, l.body.as_str());
    proof {
        assert(r@ =~= line_text(l@));
    }
    r
}

/// The lines of a history in plain text.
fn lines_string(messages: &Vec<ChatLine>) -> (r: String)
    ensures
        r@ == lines_text(line_views(messages@)),
{
    let ghost texts = line_views(messages@).map_values(|l: ChatLineView| line_text(l));
    let mut r = String::new();
    let mut i: usize = 0;
    while i < messages.len()
        invariant
            i <= messages@.len(),
            texts == line_views(messages@).map_values(|l: ChatLineView| line_text(l)),
            r@ == join(texts.take(i as int), "\n"@),
        decreases messages@.len() - i,
    {
        proof {
            assert(texts.take(i + 1) =~= texts.take(i as int).push(texts[i as int]));
            lemma_join_push(texts.take(i as int), "\n"@, texts[i as int]);
        }
        if i > 0 {
            push_str(&mut r, "\n");
        }
        let l = line_string(&messages[i]);
        push_str(&mut r, l.as_str());
        i = i + 1;
    }
    proof {
        assert(texts.take(i as int) =~= texts);
    }
    r
}

/// How a server message reads for a plain-text client.
pub fn format_plain(msg: &ServerMsg) -> (r: String)
    ensures
        r@ == plain_text(msg@),
{
    let mut r = String::new();
    match msg {
        ServerMsg::Chat { from, body, timestamp } => {
            push_str(&mut r, "[");
            push_str(&mut r, timestamp.as_str());
            push_str(&mut r, "] ");
            push_str(&mut r, from.as_str());
            push_str(&mut r, ": ");
            push_str(&mut r, body.as_str());
        },
        ServerMsg::Dm { from, to, body, timestamp } => {
            push_str(&mut r, "[");
            push_str(&mut r, timestamp.as_str());
            push_str(&mut r, "] DM from ");
            push_str(&mut r, from.as_str());
            push_str(&mut r, " to ");
            push_str(&mut r, to.as_str());
            push_str(&mut r, ": ");
            push_str(&mut r, body.as_str());
        },
        ServerMsg::System { body } => {
            push_str(&mut r, "*** ");
            push_str(&mut r, body.as_str());
        },
        ServerMsg::Presence { online, users } => {
            push_str(&mut r, "*** Online: ");
            let n = decimal_string(*online as u64);
            push_str(&mut r, n.as_str());
            push_str(&mut r, " users: ");
            let u = join_strings(users, ", ");
            push_str(&mut r, u.as_str());
        },
        ServerMsg::History { messages } => {
            let t = lines_string(messages);
            push_str(&mut r, t.as_str());
        },
        ServerMsg::DmHistory { partner, messages } => {
            push_str(&mut r, "*** DM history with ");
            push_str(&mut r, partner.as_str());
            push_str(&mut r, ":\n");
            let t = lines_string(messages);
            push_str(&mut r, t.as_str());
        },
        ServerMsg::Welcome { nick, room, online } => {
            push_str(&mut r, "*** Welcome to ");
            push_str(&mut r, room.as_str());
            push_str(&mut r, ", ");
            push_str(&mut r, nick.as_str());
            push_str(&mut r, "! (");
            let n = decimal_string(*online as u64);
            push_str(&mut r, n.as_str());
            push_str(&mut r, " online)");
        },
        ServerMsg::Error { body } => {
            push_str(&mut r, "*** Error: ");
            push_str(&mut r, body.as_str());
        },
    }
    proof {
        assert(r@ =~= plain_text(msg@));
    }
    r
}

/// The id that follows `v`: one more, wrapping around to 0 after `u32::MAX`.
pub open spec fn next_id(v: state::SessionId) -> state::SessionId {
    if v == u32::MAX {
        0
    } else {
        (v + 1) as state::SessionId
    }
}

/// The counter of a source that started at `start`, after `k` ids were handed out.
pub open spec fn counter_after(start: state::SessionId, k: nat) -> state::SessionId
    decreases k,
{
    if k == 0 {
        start
    } else {
        next_id(counter_after(start, (k - 1) as nat))
    }
}

/// The ids that `k` calls hand out, in order, from a source that started at `start`.
pub open spec fn ids_handed_out(start: state::SessionId, k: nat) -> Seq<state::SessionId> {
    Seq::new(k, |i: int| counter_after(start, i as nat))
}

/// The source of session ids: each connection gets the next one, from 1 on; after
/// `u32::MAX` the count wraps around to 0.
pub struct SessionIds {
    next: state::SessionId,
}

impl View for SessionIds {
    type V = state::SessionId;

    closed spec fn view(&self) -> state::SessionId {
        self.next
    }
}

impl SessionIds {
    /// A source whose first id is 1.
    pub fn new() -> (r: Self)
        ensures
            r@ == 1,
    {
        SessionIds { next: 1 }
    }

    /// The next session id.
    pub fn new_session_id(&mut self) -> (r: state::SessionId)
        ensures
            r == old(self)@,
            final(self)@ == next_id(old(self)@),
    {
        let r = self.next;
        self.next = self.next.wrapping_add(1);
        r
    }
}

} // verus!
