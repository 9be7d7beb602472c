//! The state of the single-room server and what each line of client input does to it.
//!
//! A connection handler trims each line it reads. A line that starts with `{` is a JSON
//! [`ClientMsg`]; the handler parses it and hands the result (or `None` where it does not
//! parse) to [`handle_line`] with the line. Applying input yields the messages to deliver.
//!
//! The sessions are kept in a `Vec`, in order of registration, with distinct ids as an
//! invariant, rather than in a map keyed by id: a broadcast walks the sessions, and the
//! order of that walk decides the order of the recipients that the contracts state, where a
//! `HashMap` would be walked in an order that depends on the process's hash seed.

use vstd::prelude::*;

use std::collections::VecDeque;

use crate::lobby::{
    ChatLine, ChatLineView, ClientMsg, ClientMsgView, ServerMsg, ServerMsgView,
    eq_ignore_ascii_case, eq_ignore_ascii_case_spec, format_plain, line_views, plain_text,
    sort_texts, sorted_texts, valid_nick, valid_nick_spec,
};
use crate::text::{chars_of, push_str, str_eq, trim, trim_str, views};

verus! {

pub type SessionId = u64;

/// How many lines the group history keeps.
pub const MAX_HISTORY: usize = 50;

/// Client connection mode determines serialization format.
#[derive(Debug, Clone, Copy, PartialEq, Eq, Structural)]
pub enum ClientMode {
    Plain,
    Json,
}

/// A connected client session.
#[derive(Debug)]
pub struct Session {
    pub id: SessionId,
    pub nick: Option<String>,
    pub mode: Option<ClientMode>,
}

/// What a [`Session`] holds.
pub struct SessionView {
    pub id: SessionId,
    pub nick: Option<Seq<char>>,
    pub mode: Option<ClientMode>,
}

impl View for Session {
    type V = SessionView;

    open spec fn view(&self) -> SessionView {
        SessionView {
            id: self.id,
            nick: match self.nick {
                Some(n) => Some(n@),
                None => None,
            },
            mode: self.mode,
        }
    }
}

pub open spec fn session_views(v: Seq<Session>) -> Seq<SessionView> {
    v.map_values(|s: Session| s@)
}

/// A session that a message goes to, with the mode it is rendered in for that session.
#[derive(Debug, Clone, Copy, PartialEq, Eq, Structural)]
pub struct Target {
    pub session_id: SessionId,
    pub mode: ClientMode,
}

/// One message and the sessions, in order, that receive it.
#[derive(Debug)]
pub struct Outbound {
    pub targets: Vec<Target>,
    pub msg: ServerMsg,
}

/// What an [`Outbound`] holds.
pub struct OutboundView {
    pub targets: Seq<Target>,
    pub msg: ServerMsgView,
}

impl View for Outbound {
    type V = OutboundView;

    open spec fn view(&self) -> OutboundView {
        OutboundView { targets: self.targets@, msg: self.msg@ }
    }
}

pub open spec fn outbound_views(v: Seq<Outbound>) -> Seq<OutboundView> {
    v.map_values(|o: Outbound| o@)
}

/// What the state holds: the sessions in order of registration and the group history.
pub struct LobbyView {
    pub sessions: Seq<SessionView>,
    pub history: Seq<ChatLineView>,
}

// ---------------------------------------------------------------------------------------
// The model
// ---------------------------------------------------------------------------------------
/// The room every session joins.
pub open spec fn room_name() -> Seq<char> {
    "Chat Room"@
}

/// The mode a session's messages are rendered in: plain text until it identifies.
pub open spec fn effective_mode(s: SessionView) -> ClientMode {
    match s.mode {
        Some(m) => m,
        None => ClientMode::Plain,
    }
}

/// Whether a message goes out in this mode: a plain-text rendering that is empty is not
/// sent.
pub open spec fn delivers(mode: ClientMode, msg: ServerMsgView) -> bool {
    mode == ClientMode::Json || plain_text(msg).len() > 0
}

pub open spec fn target_of(s: SessionView) -> Target {
    Target { session_id: s.id, mode: effective_mode(s) }
}

/// No two sessions have the same id.
pub open spec fn ids_distinct(ss: Seq<SessionView>) -> bool {
    forall|i: int, j: int| 0 <= i < ss.len() && 0 <= j < ss.len() && i != j ==> ss[i].id != ss[j].id
}

/// No two sessions have handles equal up to ASCII case.
pub open spec fn nicks_distinct(ss: Seq<SessionView>) -> bool {
    forall|i: int, j: int|
        0 <= i < ss.len() && 0 <= j < ss.len() && i != j && (#[trigger] ss[i].nick) is Some && (
        #[trigger] ss[j].nick) is Some ==> !eq_ignore_ascii_case_spec(
            ss[i].nick.unwrap(),
            ss[j].nick.unwrap(),
        )
}

pub open spec fn session_index_from(ss: Seq<SessionView>, id: SessionId, i: int) -> Option<int>
    decreases ss.len() - i,
{
    if i < 0 || i >= ss.len() {
        None
    } else if ss[i].id == id {
        Some(i)
    } else {
        session_index_from(ss, id, i + 1)
    }
}

pub open spec fn session_index(ss: Seq<SessionView>, id: SessionId) -> Option<int> {
    session_index_from(ss, id, 0)
}

/// The handle of session `id`, if it has identified.
pub open spec fn session_nick(ss: Seq<SessionView>, id: SessionId) -> Option<Seq<char>> {
    match session_index(ss, id) {
        Some(i) => ss[i].nick,
        None => None,
    }
}

/// Some session goes by a handle equal to `nick` up to ASCII case.
pub open spec fn nick_in_use_spec(ss: Seq<SessionView>, nick: Seq<char>) -> bool {
    exists|i: int| 0 <= i < ss.len() && (#[trigger] ss[i].nick) is Some && eq_ignore_ascii_case_spec(ss[i].nick.unwrap(), nick)
}

/// The one target of a message to session `id`, if it exists and the message goes out.
pub open spec fn send_to_targets(ss: Seq<SessionView>, id: SessionId, msg: ServerMsgView) -> Seq<Target> {
    match session_index(ss, id) {
        Some(i) => if delivers(effective_mode(ss[i]), msg) {
            seq![target_of(ss[i])]
        } else {
            Seq::empty()
        },
        None => Seq::empty(),
    }
}

/// The identified sessions, in order, that the message goes out to.
pub open spec fn broadcast_targets(ss: Seq<SessionView>, msg: ServerMsgView) -> Seq<Target>
    decreases ss.len(),
{
    if ss.len() == 0 {
        Seq::empty()
    } else {
        let prev = broadcast_targets(ss.drop_last(), msg);
        if ss.last().nick is Some && delivers(effective_mode(ss.last()), msg) {
            prev.push(target_of(ss.last()))
        } else {
            prev
        }
    }
}

pub open spec fn online_count_spec(ss: Seq<SessionView>) -> nat
    decreases ss.len(),
{
    if ss.len() == 0 {
        0
    } else {
        online_count_spec(ss.drop_last()) + if ss.last().nick is Some {
            1nat
        } else {
            0nat
        }
    }
}

/// The handles of the identified sessions, in order.
pub open spec fn nicks_in_order(ss: Seq<SessionView>) -> Seq<Seq<char>>
    decreases ss.len(),
{
    if ss.len() == 0 {
        Seq::empty()
    } else {
        let prev = nicks_in_order(ss.drop_last());
        match ss.last().nick {
            Some(n) => prev.push(n),
            None => prev,
        }
    }
}

/// The presence list: the online count and the handles in `str` order.
pub open spec fn presence_msg(ss: Seq<SessionView>) -> ServerMsgView {
    ServerMsgView::Presence {
        online: online_count_spec(ss) as usize,
        users: sorted_texts(nicks_in_order(ss)),
    }
}

/// `h` with `l` at the end, keeping the newest `MAX_HISTORY` lines.
pub open spec fn push_history_spec(h: Seq<ChatLineView>, l: ChatLineView) -> Seq<ChatLineView> {
    let p = h.push(l);
    if p.len() > MAX_HISTORY {
        p.skip(p.len() - MAX_HISTORY)
    } else {
        p
    }
}

/// An error message to session `id`.
pub open spec fn error_to(ss: Seq<SessionView>, id: SessionId, body: Seq<char>) -> Seq<OutboundView> {
    let msg = ServerMsgView::Error { body };
    seq![OutboundView { targets: send_to_targets(ss, id, msg), msg }]
}

/// A message to every identified session.
pub open spec fn to_all(ss: Seq<SessionView>, msg: ServerMsgView) -> OutboundView {
    OutboundView { targets: broadcast_targets(ss, msg), msg }
}

/// A message to session `id`.
pub open spec fn to_one(ss: Seq<SessionView>, id: SessionId, msg: ServerMsgView) -> OutboundView {
    OutboundView { targets: send_to_targets(ss, id, msg), msg }
}

/// The sessions with session `id` identified as `nick` in `mode`.
pub open spec fn set_identity(ss: Seq<SessionView>, id: SessionId, nick: Seq<char>, mode: ClientMode) -> Seq<SessionView> {
    match session_index(ss, id) {
        Some(i) => ss.update(i, SessionView { id, nick: Some(nick), mode: Some(mode) }),
        None => ss,
    }
}

/// A parsed message, taken by its view.
pub open spec fn parsed_view(p: Option<ClientMsg>) -> Option<ClientMsgView> {
    match p {
        Some(m) => Some(m@),
        None => None,
    }
}

/// A line starts with `{`: it is read as JSON.
pub open spec fn is_json(line: Seq<char>) -> bool {
    line.len() > 0 && line[0] == '{'
}

/// The identification of session `id` from its (trimmed) first line; `parsed` is the
/// line read as a JSON message, where it is one.
pub open spec fn identification_spec(st: LobbyView, id: SessionId, line: Seq<char>, parsed: Option<ClientMsgView>) -> (LobbyView, Seq<OutboundView>) {
    let ss = st.sessions;
    if is_json(line) && !(parsed matches Some(ClientMsgView::Hello { .. })) {
        let body = if parsed is Some {
            "First message must be your handle"@
        } else {
            "Invalid JSON hello message"@
        };
        (st, error_to(ss, id, body))
    } else {
        let mode = if is_json(line) {
            ClientMode::Json
        } else {
            ClientMode::Plain
        };
        let nick = if is_json(line) {
            trim(parsed->Some_0->Hello_nick)
        } else {
            line
        };
        if session_nick(ss, id) is Some {
            (st, error_to(ss, id, "You already set your handle"@))
        } else if !valid_nick_spec(nick) {
            (st, error_to(ss, id, "Handle must be 2-24 chars: letters, numbers, _ or -"@))
        } else if nick_in_use_spec(ss, nick) {
            (st, error_to(ss, id, "That handle is already in use"@))
        } else {
            let ss2 = set_identity(ss, id, nick, mode);
            (
                LobbyView { sessions: ss2, ..st },
                seq![
                    to_one(ss2, id, ServerMsgView::Welcome { nick, room: room_name(), online: online_count_spec(ss2) as usize }),
                    to_one(ss2, id, ServerMsgView::History { messages: st.history }),
                    to_all(ss2, ServerMsgView::System { body: nick + " has joined the room"@ }),
                    to_all(ss2, presence_msg(ss2)),
                ],
            )
        }
    }
}

/// A chat message from session `id`, stamped `ts`.
pub open spec fn send_chat_spec(st: LobbyView, id: SessionId, body: Seq<char>, ts: Seq<char>) -> (LobbyView, Seq<OutboundView>) {
    let body = trim(body);
    if body.len() == 0 {
        (st, Seq::empty())
    } else {
        match session_nick(st.sessions, id) {
            None => (st, error_to(st.sessions, id, "Set your nickname first"@)),
            Some(nick) => (
                LobbyView {
                    history: push_history_spec(st.history, ChatLineView { from: nick, body, timestamp: ts }),
                    ..st
                },
                seq![to_all(st.sessions, ServerMsgView::Chat { from: nick, body, timestamp: ts })],
            ),
        }
    }
}

/// Removal of session `id`, with the announcements if it had identified.
pub open spec fn disconnect_spec(st: LobbyView, id: SessionId) -> (LobbyView, Seq<OutboundView>) {
    match session_index(st.sessions, id) {
        None => (st, Seq::empty()),
        Some(i) => {
            let ss = st.sessions.remove(i);
            let out = match st.sessions[i].nick {
                Some(nick) => seq![
                    to_all(ss, ServerMsgView::System { body: nick + " has left the room"@ }),
                    to_all(ss, presence_msg(ss)),
                ],
                None => Seq::empty(),
            };
            (LobbyView { sessions: ss, ..st }, out)
        },
    }
}

/// A (trimmed) line from an identified session: a JSON message where it parses, else
/// `/who`, `/quit` or a chat message.
pub open spec fn chat_input_spec(st: LobbyView, id: SessionId, line: Seq<char>, parsed: Option<ClientMsgView>, ts: Seq<char>) -> (LobbyView, Seq<OutboundView>) {
    if is_json(line) && parsed is Some {
        match parsed->Some_0 {
            ClientMsgView::Chat { body } => send_chat_spec(st, id, trim(body), ts),
            ClientMsgView::Who => (st, seq![to_one(st.sessions, id, presence_msg(st.sessions))]),
            ClientMsgView::Quit => disconnect_spec(st, id),
            ClientMsgView::Hello { .. } => (st, error_to(st.sessions, id, "You already set your handle"@)),
        }
    } else if line == "/who"@ {
        (st, seq![to_one(st.sessions, id, presence_msg(st.sessions))])
    } else if line == "/quit"@ {
        disconnect_spec(st, id)
    } else {
        send_chat_spec(st, id, line, ts)
    }
}

/// A line of input from session `id`: blank lines are ignored; before the session has
/// identified, the line identifies it, afterwards it is chat input.
pub open spec fn handle_line_spec(st: LobbyView, id: SessionId, line: Seq<char>, parsed: Option<ClientMsgView>, ts: Seq<char>) -> (LobbyView, Seq<OutboundView>) {
    let t = trim(line);
    if t.len() == 0 {
        (st, Seq::empty())
    } else if session_nick(st.sessions, id) is None {
        identification_spec(st, id, t, parsed)
    } else {
        chat_input_spec(st, id, t, parsed, ts)
    }
}

/// The sessions after a new connection `id`, which replaces any session with that id.
pub open spec fn add_session_spec(ss: Seq<SessionView>, id: SessionId) -> Seq<SessionView> {
    let s = SessionView { id, nick: None, mode: None };
    match session_index(ss, id) {
        Some(i) => ss.update(i, s),
        None => ss.push(s),
    }
}

pub open spec fn well_formed(st: LobbyView) -> bool {
    ids_distinct(st.sessions) && st.history.len() <= MAX_HISTORY
}

// ---------------------------------------------------------------------------------------
// Lemmas
// ---------------------------------------------------------------------------------------
pub proof fn lemma_session_index_from(ss: Seq<SessionView>, id: SessionId, i: int)
    requires
        0 <= i,
    ensures
        session_index_from(ss, id, i) matches Some(j) ==> i <= j < ss.len() && ss[j].id == id
            && forall|k: int| i <= k < j ==> ss[k].id != id,
        session_index_from(ss, id, i) is None ==> forall|k: int| i <= k < ss.len() ==> ss[k].id != id,
    decreases ss.len() - i,
{
    if i < ss.len() && ss[i].id != id {
        lemma_session_index_from(ss, id, i + 1);
    }
}

pub proof fn lemma_online_count_bound(ss: Seq<SessionView>)
    ensures
        online_count_spec(ss) <= ss.len(),
        nicks_in_order(ss).len() == online_count_spec(ss),
    decreases ss.len(),
{
    if ss.len() > 0 {
        lemma_online_count_bound(ss.drop_last());
    }
}

// ---------------------------------------------------------------------------------------
// The state
// ---------------------------------------------------------------------------------------
/// The server state: the sessions and the group history.
pub struct ChatState {
    sessions: Vec<Session>,
    history: VecDeque<ChatLine>,
}

impl View for ChatState {
    type V = LobbyView;

    closed spec fn view(&self) -> LobbyView {
        LobbyView { sessions: session_views(self.sessions@), history: line_views(self.history@) }
    }
}

impl ChatState {
    /// A state with no sessions and an empty history.
    pub fn new() -> (r: Self)
        ensures
            r@.sessions == Seq::<SessionView>::empty(),
            r@.history == Seq::<ChatLineView>::empty(),
    {
        let r = ChatState { sessions: Vec::new(), history: VecDeque::new() };
        proof {
            assert(session_views(r.sessions@) =~= Seq::<SessionView>::empty());
            assert(line_views(r.history@) =~= Seq::<ChatLineView>::empty());
        }
        r
    }

    fn session_index(&self, id: SessionId) -> (r: Option<usize>)
        ensures
            match r {
                Some(i) => session_index(self@.sessions, id) == Some(i as int) && i < self@.sessions.len(),
                None => session_index(self@.sessions, id) is None,
            },
    {
        let ghost ss = self@.sessions;
        let mut i: usize = 0;
        while i < self.sessions.len()
            invariant
                ss == session_views(self.sessions@),
                i <= ss.len(),
                session_index_from(ss, id, 0) == session_index_from(ss, id, i as int),
            decreases ss.len() - i,
        {
            if self.sessions[i].id == id {
                return Some(i);
            }
            i = i + 1;
        }
        None
    }

    fn session_nick(&self, id: SessionId) -> (r: Option<String>)
        ensures
            match r {
                Some(n) => session_nick(self@.sessions, id) == Some(n@),
                None => session_nick(self@.sessions, id) is None,
            },
    {
        match self.session_index(id) {
            Some(i) => match &self.sessions[i].nick {
                Some(n) => Some(n.clone()),
                None => None,
            },
            None => None,
        }
    }

    /// How many sessions have identified.
    pub fn online_count(&self) -> (r: usize)
        ensures
            r == online_count_spec(self@.sessions),
    {
        let ghost ss = self@.sessions;
        let mut n: usize = 0;
        let mut i: usize = 0;
        while i < self.sessions.len()
            invariant
                ss == session_views(self.sessions@),
                i <= ss.len(),
                n == online_count_spec(ss.take(i as int)),
            decreases ss.len() - i,
        {
            proof {
                assert(ss.take(i + 1).drop_last() =~= ss.take(i as int));
                lemma_online_count_bound(ss.take(i as int));
            }
            if self.sessions[i].nick.is_some() {
                n = n + 1;
            }
            i = i + 1;
        }
        proof {
            assert(ss.take(i as int) =~= ss);
        }
        n
    }

    /// The handles of the identified sessions, sorted.
    pub fn nick_list(&self) -> (r: Vec<String>)
        ensures
            views(r@) == sorted_texts(nicks_in_order(self@.sessions)),
    {
        let ghost ss = self@.sessions;
        let mut users: Vec<String> = Vec::new();
        let mut i: usize = 0;
        while i < self.sessions.len()
            invariant
                ss == session_views(self.sessions@),
                i <= ss.len(),
                views(users@) == nicks_in_order(ss.take(i as int)),
            decreases ss.len() - i,
        {
            proof {
                assert(ss.take(i + 1).drop_last() =~= ss.take(i as int));
            }
            match &self.sessions[i].nick {
                Some(n) => {
                    users.push(n.clone());
                    proof {
                        assert(views(users@) =~= nicks_in_order(ss.take(i as int)).push(n@));
                    }
                },
                None => {},
            }
            i = i + 1;
        }
        proof {
            assert(ss.take(i as int) =~= ss);
        }
        sort_texts(users)
    }

    /// Whether some session goes by a handle equal to `nick` up to ASCII case.
    pub fn nick_in_use(&self, nick: &str) -> (r: bool)
        ensures
            r == nick_in_use_spec(self@.sessions, nick@),
    {
        let ghost ss = self@.sessions;
        let mut i: usize = 0;
        while i < self.sessions.len()
            invariant
                ss == session_views(self.sessions@),
                i <= ss.len(),
                forall|k: int| 0 <= k < i ==> !((#[trigger] ss[k].nick) is Some && eq_ignore_ascii_case_spec(ss[k].nick.unwrap(), nick@)),
            decreases ss.len() - i,
        {
            let hit = match &self.sessions[i].nick {
                Some(n) => eq_ignore_ascii_case(n.as_str(), nick),
                None => false,
            };
            if hit {
                proof {
                    assert(ss[i as int].nick is Some);
                }
                return true;
            }
            i = i + 1;
        }
        false
    }

    /// Adds a line to the history, keeping the newest `MAX_HISTORY` lines.
    fn push_history(&mut self, line: ChatLine)
        ensures
            final(self).sessions == old(self).sessions,
            final(self)@.history == push_history_spec(old(self)@.history, line@),
    {
        let ghost p = line_views(self.history@).push(line@);
        self.history.push_back(line);
        proof {
            assert(line_views(self.history@) =~= p);
            assert(p.skip(0) =~= p);
        }
        let ghost mut k: int = 0;
        while self.history.len() > MAX_HISTORY
            invariant
                line_views(self.history@) == p.skip(k as int),
                0 <= k <= p.len(),
                self.history@.len() == p.len() - k,
                k > 0 ==> p.len() - k >= MAX_HISTORY,
                self.sessions == old(self).sessions,
            decreases self.history@.len(),
        {
            let ghost before = self.history@;
            assert(before.len() > MAX_HISTORY);
            assert(k < p.len());
            self.history.pop_front();
            proof {
                assert(line_views(self.history@) =~= line_views(before).drop_first());
                assert(p.skip(k as int).drop_first() =~= p.skip(k + 1));
                k = k + 1;
                assert(line_views(self.history@) =~= p.skip(k as int));
            }
        }
        proof {
            assert(self.history@.len() <= MAX_HISTORY);
            if p.len() > MAX_HISTORY {
                assert(k == p.len() - MAX_HISTORY);
            } else {
                assert(k == 0);
            }
        }
    }

    /// The session with the given id, as the target of `msg`, if it goes out to it.
    fn send_to_targets(&self, id: SessionId, msg: &ServerMsg) -> (r: Vec<Target>)
        ensures
            r@ == send_to_targets(self@.sessions, id, msg@),
    {
        let mut r: Vec<Target> = Vec::new();
        match self.session_index(id) {
            Some(i) => {
                let mode = match self.sessions[i].mode {
                    Some(m) => m,
                    None => ClientMode::Plain,
                };
                let goes = match mode {
                    ClientMode::Json => true,
                    ClientMode::Plain => !format_plain(msg).as_str().is_empty(),
                };
                if goes {
                    r.push(Target { session_id: self.sessions[i].id, mode });
                }
                proof {
                    assert(r@ =~= send_to_targets(self@.sessions, id, msg@));
                }
            },
            None => {
                proof {
                    assert(r@ =~= Seq::<Target>::empty());
                }
            },
        }
        r
    }

    /// A message to session `session_id`.
    fn send_to(&self, session_id: SessionId, msg: ServerMsg) -> (r: Outbound)
        ensures
            r@ == to_one(self@.sessions, session_id, msg@),
    {
        Outbound { targets: self.send_to_targets(session_id, &msg), msg }
    }

    /// A message to every identified session.
    fn broadcast(&self, msg: ServerMsg) -> (r: Outbound)
        ensures
            r@ == to_all(self@.sessions, msg@),
    {
        let ghost ss = self@.sessions;
        let plain_ok = !format_plain(&msg).as_str().is_empty();
        let mut r: Vec<Target> = Vec::new();
        let mut i: usize = 0;
        while i < self.sessions.len()
            invariant
                ss == session_views(self.sessions@),
                i <= ss.len(),
                plain_ok == (plain_text(msg@).len() > 0),
                r@ == broadcast_targets(ss.take(i as int), msg@),
            decreases ss.len() - i,
        {
            proof {
                assert(ss.take(i + 1).drop_last() =~= ss.take(i as int));
            }
            let s = &self.sessions[i];
            proof {
                assert(ss.take(i + 1).last() == s@);
            }
            if s.nick.is_some() {
                let mode = match s.mode {
                    Some(m) => m,
                    None => ClientMode::Plain,
                };
                let goes = match mode {
                    ClientMode::Json => true,
                    ClientMode::Plain => plain_ok,
                };
                if goes {
                    r.push(Target { session_id: s.id, mode });
                }
            }
            i = i + 1;
        }
        proof {
            assert(ss.take(i as int) =~= ss);
        }
        Outbound { targets: r, msg }
    }

    /// The presence list, to every identified session.
    fn broadcast_presence(&self) -> (r: Outbound)
        ensures
            r@ == to_all(self@.sessions, presence_msg(self@.sessions)),
    {
        let msg = ServerMsg::Presence { online: self.online_count(), users: self.nick_list() };
        self.broadcast(msg)
    }

    /// A chat message from `_sender_id`, to every identified session (the sender too).
    fn broadcast_chat_from(&self, _sender_id: SessionId, msg: ServerMsg) -> (r: Outbound)
        ensures
            r@ == to_all(self@.sessions, msg@),
    {
        self.broadcast(msg)
    }

    /// A copy of the group history.
    fn history_lines(&self) -> (r: Vec<ChatLine>)
        ensures
            line_views(r@) == self@.history,
    {
        let mut r: Vec<ChatLine> = Vec::new();
        let mut i: usize = 0;
        while i < self.history.len()
            invariant
                i <= self.history@.len(),
                line_views(r@) == line_views(self.history@.take(i as int)),
            decreases self.history@.len() - i,
        {
            let l = self.history[i].duplicate();
            let ghost before = r@;
            r.push(l);
            proof {
                assert(l == self.history@[i as int]);
                assert(self.history@.take(i + 1) =~= self.history@.take(i as int).push(l));
                assert(line_views(before.push(l)) =~= line_views(before).push(l@));
                assert(line_views(self.history@.take(i as int).push(l)) =~= line_views(self.history@.take(i as int)).push(l@));
            }
            i = i + 1;
        }
        proof {
            assert(self.history@.take(i as int) =~= self.history@);
        }
        r
    }

    /// Registers a new connection `session_id`, not yet identified.
    pub fn add_session(&mut self, session_id: SessionId)
        requires
            ids_distinct(old(self)@.sessions),
        ensures
            ids_distinct(final(self)@.sessions),
            final(self)@ == (LobbyView { sessions: add_session_spec(old(self)@.sessions, session_id), ..old(self)@ }),
    {
        let ghost ss = self@.sessions;
        proof {
            lemma_session_index_from(ss, session_id, 0);
        }
        let s = Session { id: session_id, nick: None, mode: None };
        match self.session_index(session_id) {
            Some(i) => {
                self.sessions.set(i, s);
                proof {
                    assert(session_views(self.sessions@) =~= ss.update(i as int, s@));
                }
            },
            None => {
                self.sessions.push(s);
                proof {
                    assert(session_views(self.sessions@) =~= ss.push(s@));
                }
            },
        }
    }

    /// Records that session `id` goes by `nick` in `mode`.
    fn set_identity(&mut self, id: SessionId, nick: &str, mode: ClientMode)
        requires
            well_formed(old(self)@),
        ensures
            well_formed(final(self)@),
            final(self)@ == (LobbyView { sessions: set_identity(old(self)@.sessions, id, nick@, mode), ..old(self)@ }),
    {
        let ghost ss = self@.sessions;
        match self.session_index(id) {
            Some(i) => {
                proof {
                    lemma_session_index_from(ss, id, 0);
                }
                let s = Session { id, nick: Some(nick.to_owned()), mode: Some(mode) };
                self.sessions.set(i, s);
                proof {
                    assert(session_views(self.sessions@) =~= ss.update(i as int, s@));
                }
            },
            None => {},
        }
    }

    /// Removes session `id`.
    fn remove(&mut self, id: SessionId) -> (r: Option<Session>)
        requires
            well_formed(old(self)@),
        ensures
            well_formed(final(self)@),
            match session_index(old(self)@.sessions, id) {
                Some(i) => r matches Some(s) && s@ == old(self)@.sessions[i] && final(self)@ == (LobbyView {
                    sessions: old(self)@.sessions.remove(i),
                    ..old(self)@
                }),
                None => r is None && final(self)@ == old(self)@,
            },
    {
        let ghost ss = self@.sessions;
        match self.session_index(id) {
            Some(i) => {
                let s = self.sessions.remove(i);
                proof {
                    assert(session_views(self.sessions@) =~= ss.remove(i as int));
                }
                Some(s)
            },
            None => None,
        }
    }
}

/// An error message to session `session_id`.
fn send_error(state: &ChatState, session_id: SessionId, body: &str) -> (r: Vec<Outbound>)
    ensures
        outbound_views(r@) == error_to(state@.sessions, session_id, body@),
{
    let mut r: Vec<Outbound> = Vec::new();
    r.push(state.send_to(session_id, ServerMsg::Error { body: body.to_owned() }));
    proof {
        assert(outbound_views(r@) =~= error_to(state@.sessions, session_id, body@));
    }
    r
}

/// The identification of session `session_id` from its (trimmed) first line `line`;
/// `parsed` is the line read as a JSON message, where it is one.
fn handle_identification(state: &mut ChatState, session_id: SessionId, line: &str, parsed: Option<ClientMsg>) -> (r: Vec<Outbound>)
    requires
        well_formed(old(state)@),
    ensures
        well_formed(final(state)@),
        (final(state)@, outbound_views(r@)) == identification_spec(
            old(state)@,
            session_id,
            line@,
            parsed_view(parsed),
        ),
{
    let cs = chars_of(line);
    let json = cs.len() > 0 && cs[0] == '{';
    let ghost pv = parsed_view(parsed);
    let (mode, nick) = if json {
        match parsed {
            Some(ClientMsg::Hello { nick }) => (ClientMode::Json, trim_str(nick.as_str())),
            Some(_) => {
                return send_error(state, session_id, "First message must be your handle");
            },
            None => {
                return send_error(state, session_id, "Invalid JSON hello message");
            },
        }
    } else {
        (ClientMode::Plain, line.to_owned())
    };
    if state.session_nick(session_id).is_some() {
        return send_error(state, session_id, "You already set your handle");
    }
    if !valid_nick(nick.as_str()) {
        return send_error(state, session_id, "Handle must be 2-24 chars: letters, numbers, _ or -");
    }
    if state.nick_in_use(nick.as_str()) {
        return send_error(state, session_id, "That handle is already in use");
    }
    state.set_identity(session_id, nick.as_str(), mode);
    let mut out: Vec<Outbound> = Vec::new();
    let online = state.online_count();
    out.push(state.send_to(
        session_id,
        ServerMsg::Welcome { nick: nick.clone(), room: "Chat Room".to_owned(), online },
    ));
    let history = state.history_lines();
    out.push(state.send_to(session_id, ServerMsg::History { messages: history }));
    let mut body = nick.clone();
    push_str(&mut body, " has joined the room");
    out.push(state.broadcast(ServerMsg::System { body }));
    out.push(state.broadcast_presence());
    proof {
        assert(outbound_views(out@) =~= identification_spec(old(state)@, session_id, line@, pv).1);
    }
    out
}

/// A chat message from session `session_id`, stamped `timestamp`.
fn send_chat(state: &mut ChatState, session_id: SessionId, body: &str, timestamp: &str) -> (r: Vec<Outbound>)
    requires
        well_formed(old(state)@),
    ensures
        well_formed(final(state)@),
        (final(state)@, outbound_views(r@)) == send_chat_spec(old(state)@, session_id, body@, timestamp@),
{
    let text = trim_str(body);
    let mut out: Vec<Outbound> = Vec::new();
    if text.as_str().is_empty() {
        proof {
            assert(outbound_views(out@) =~= Seq::<OutboundView>::empty());
        }
        return out;
    }
    let nick = match state.session_nick(session_id) {
        Some(nick) => nick,
        None => {
            return send_error(state, session_id, "Set your nickname first");
        },
    };
    state.push_history(ChatLine { from: nick.clone(), body: text.clone(), timestamp: timestamp.to_owned() });
    proof {
        let p = old(state)@.history.push(ChatLineView { from: nick@, body: text@, timestamp: timestamp@ });
        if p.len() > MAX_HISTORY {
            assert(p.skip(p.len() - MAX_HISTORY).len() == MAX_HISTORY);
        }
    }
    out.push(state.broadcast_chat_from(
        session_id,
        ServerMsg::Chat { from: nick, body: text, timestamp: timestamp.to_owned() },
    ));
    proof {
        assert(outbound_views(out@) =~= send_chat_spec(old(state)@, session_id, body@, timestamp@).1);
    }
    out
}

/// Removes session `session_id`, with the announcements if it had identified.
pub fn disconnect_session(state: &mut ChatState, session_id: SessionId) -> (r: Vec<Outbound>)
    requires
        well_formed(old(state)@),
    ensures
        well_formed(final(state)@),
        (final(state)@, outbound_views(r@)) == disconnect_spec(old(state)@, session_id),
{
    let mut out: Vec<Outbound> = Vec::new();
    match state.remove(session_id) {
        Some(session) => match session.nick {
            Some(nick) => {
                let mut body = nick;
                push_str(&mut body, " has left the room");
                out.push(state.broadcast(ServerMsg::System { body }));
                out.push(state.broadcast_presence());
            },
            None => {},
        },
        None => {},
    }
    proof {
        assert(outbound_views(out@) =~= disconnect_spec(old(state)@, session_id).1);
    }
    out
}

/// A (trimmed) line from an identified session.
fn handle_chat_input(state: &mut ChatState, session_id: SessionId, line: &str, parsed: Option<ClientMsg>, timestamp: &str) -> (r: Vec<Outbound>)
    requires
        well_formed(old(state)@),
    ensures
        well_formed(final(state)@),
        (final(state)@, outbound_views(r@)) == chat_input_spec(
            old(state)@,
            session_id,
            line@,
            parsed_view(parsed),
            timestamp@,
        ),
{
    let cs = chars_of(line);
    let json = cs.len() > 0 && cs[0] == '{';
    if json {
        match parsed {
            Some(ClientMsg::Chat { body }) => {
                let t = trim_str(body.as_str());
                return send_chat(state, session_id, t.as_str(), timestamp);
            },
            Some(ClientMsg::Who) => {
                let mut out: Vec<Outbound> = Vec::new();
                let msg = ServerMsg::Presence { online: state.online_count(), users: state.nick_list() };
                out.push(state.send_to(session_id, msg));
                proof {
                    assert(outbound_views(out@) =~= seq![to_one(state@.sessions, session_id, presence_msg(state@.sessions))]);
                }
                return out;
            },
            Some(ClientMsg::Quit) => {
                return disconnect_session(state, session_id);
            },
            Some(ClientMsg::Hello { .. }) => {
                return send_error(state, session_id, "You already set your handle");
            },
            None => {},
        }
    }
    if str_eq(line, "/who") {
        let mut out: Vec<Outbound> = Vec::new();
        let msg = ServerMsg::Presence { online: state.online_count(), users: state.nick_list() };
        out.push(state.send_to(session_id, msg));
        proof {
            assert(outbound_views(out@) =~= seq![to_one(state@.sessions, session_id, presence_msg(state@.sessions))]);
        }
        out
    } else if str_eq(line, "/quit") {
        disconnect_session(state, session_id)
    } else {
        send_chat(state, session_id, line, timestamp)
    }
}

/// The trimmed line, where it starts with `{` and so is to be read as a JSON message.
pub fn json_candidate(line: &str) -> (r: Option<String>)
    ensures
        match r {
            Some(t) => is_json(trim(line@)) && t@ == trim(line@),
            None => !is_json(trim(line@)),
        },
{
    let t = trim_str(line);
    let cs = chars_of(t.as_str());
    if cs.len() > 0 && cs[0] == '{' {
        Some(t)
    } else {
        None
    }
}

/// A line of input from session `session_id`, with new chat lines stamped `timestamp`;
/// `parsed` is the trimmed line read as a JSON message, where it is one.
pub fn handle_line_at(state: &mut ChatState, session_id: SessionId, line: &str, parsed: Option<ClientMsg>, timestamp: &str) -> (r: Vec<Outbound>)
    requires
        well_formed(old(state)@),
    ensures
        well_formed(final(state)@),
        (final(state)@, outbound_views(r@)) == handle_line_spec(
            old(state)@,
            session_id,
            line@,
            parsed_view(parsed),
            timestamp@,
        ),
{
    let trimmed = trim_str(line);
    if trimmed.as_str().is_empty() {
        let out: Vec<Outbound> = Vec::new();
        proof {
            assert(outbound_views(out@) =~= Seq::<OutboundView>::empty());
        }
        return out;
    }
    let identified = state.session_nick(session_id).is_some();
    if !identified {
        handle_identification(state, session_id, trimmed.as_str(), parsed)
    } else {
        handle_chat_input(state, session_id, trimmed.as_str(), parsed, timestamp)
    }
}

/// A line of input from session `session_id`, with new chat lines stamped with the
/// current time of day.
pub fn handle_line(state: &mut ChatState, session_id: SessionId, line: &str, parsed: Option<ClientMsg>) -> (r: Vec<Outbound>)
    requires
        well_formed(old(state)@),
    ensures
        well_formed(final(state)@),
        exists|secs: u64| (final(state)@, outbound_views(r@)) == handle_line_spec(
            old(state)@,
            session_id,
            line@,
            parsed_view(parsed),
            crate::clock::hms(secs as nat),
        ),
{
    let ts = crate::clock::now_hms();
    let ghost secs = choose|secs: u64| ts@ == crate::clock::hms(secs as nat);
    handle_line_at(state, session_id, line, parsed, ts.as_str())
}

} // verus!
