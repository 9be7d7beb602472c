//! The server's shared chat state and the commands that change it.
//!
//! In the running server one task owns this state and applies the commands that the
//! connection handlers send it, one after another. Applying a command changes the state
//! and yields the messages to deliver; the caller delivers them to the sessions named.
//!
//! The sessions are kept in a `Vec`, in order of registration, with distinct ids as an
//! invariant, rather than in a map keyed by id: a broadcast walks the sessions, and the
//! order of that walk decides the order of the recipients that the contracts state. A
//! `HashMap` is walked in an order that depends on the process's hash seed, which no
//! contract could name. The direct-message histories are keyed by a pair of nicks; with
//! `String` keys a map's contracts say too little to be of use, so they too are a `Vec`,
//! one entry per pair, with distinct keys as an invariant, viewed as a `Map`.

use vstd::prelude::*;

use crate::protocol::{ChatLine, ChatLineView, ServerMsg, ServerMsgView, line_views};
use std::collections::VecDeque;

use crate::text::{
    all_handle_chars, bytes_lt, is_handle_char_exec, push_str, str_eq, text_lt, trim, trim_str,
    views,
};

verus! {

pub type SessionId = u32;

/// Client connection mode determines serialization format.
#[derive(Debug, Clone, Copy, PartialEq, Eq, Structural)]
pub enum ClientMode {
    /// Human-readable plain text (telnet/nc clients).
    Plain,
    /// JSON serialization (GUI clients).
    Json,
}

/// A connected client session (held by the state owner).
#[derive(Debug)]
pub struct Session {
    pub id: SessionId,
    pub nick: Option<String>,
    pub mode: ClientMode,
}

/// What a [`Session`] holds.
pub struct SessionView {
    pub id: SessionId,
    pub nick: Option<Seq<char>>,
    pub mode: ClientMode,
}

impl View for Session {
    type V = SessionView;

    open spec fn view(&self) -> SessionView {
        SessionView {
            id: self.id,
            nick: match self.nick {
                Some(n) => Some(n@),
                None => None,
            },
            mode: self.mode,
        }
    }
}

/// The views of a sequence of sessions.
pub open spec fn session_views(v: Seq<Session>) -> Seq<SessionView> {
    v.map_values(|s: Session| s@)
}

/// Commands applied to the chat state, one at a time.
#[derive(Debug)]
pub enum StateCmd {
    /// Register a new session (before identification).
    AddSession { session: Session },
    /// Remove a session on disconnect.
    RemoveSession { session_id: SessionId },
    /// Attempt to identify a session with a nick.
    Identify { session_id: SessionId, nick: String, mode: ClientMode },
    /// Broadcast a group chat message from a session.
    Chat { session_id: SessionId, body: String },
    /// Send a DM from one session to another user by nick.
    Dm { session_id: SessionId, to: String, body: String },
    /// Request DM history between caller and a partner.
    GetDmHistory { session_id: SessionId, partner: String },
    /// Request presence/who list.
    Who { session_id: SessionId },
    /// Send an error message to a session.
    SendError { session_id: SessionId, body: String },
}

/// What a [`StateCmd`] holds.
pub enum StateCmdView {
    AddSession { session: SessionView },
    RemoveSession { session_id: SessionId },
    Identify { session_id: SessionId, nick: Seq<char>, mode: ClientMode },
    Chat { session_id: SessionId, body: Seq<char> },
    Dm { session_id: SessionId, to: Seq<char>, body: Seq<char> },
    GetDmHistory { session_id: SessionId, partner: Seq<char> },
    Who { session_id: SessionId },
    SendError { session_id: SessionId, body: Seq<char> },
}

impl View for StateCmd {
    type V = StateCmdView;

    open spec fn view(&self) -> StateCmdView {
        match self {
            StateCmd::AddSession { session } => StateCmdView::AddSession { session: session@ },
            StateCmd::RemoveSession { session_id } => StateCmdView::RemoveSession {
                session_id: *session_id,
            },
            StateCmd::Identify { session_id, nick, mode } => StateCmdView::Identify {
                session_id: *session_id,
                nick: nick@,
                mode: *mode,
            },
            StateCmd::Chat { session_id, body } => StateCmdView::Chat {
                session_id: *session_id,
                body: body@,
            },
            StateCmd::Dm { session_id, to, body } => StateCmdView::Dm {
                session_id: *session_id,
                to: to@,
                body: body@,
            },
            StateCmd::GetDmHistory { session_id, partner } => StateCmdView::GetDmHistory {
                session_id: *session_id,
                partner: partner@,
            },
            StateCmd::Who { session_id } => StateCmdView::Who { session_id: *session_id },
            StateCmd::SendError { session_id, body } => StateCmdView::SendError {
                session_id: *session_id,
                body: body@,
            },
        }
    }
}

/// Successful identification response data.
#[derive(Debug)]
pub struct IdentifyOk {
    pub nick: String,
    pub room: String,
    pub online: usize,
}

/// What an [`IdentifyOk`] holds.
pub struct IdentifyOkView {
    pub nick: Seq<char>,
    pub room: Seq<char>,
    pub online: usize,
}

impl View for IdentifyOk {
    type V = IdentifyOkView;

    open spec fn view(&self) -> IdentifyOkView {
        IdentifyOkView { nick: self.nick@, room: self.room@, online: self.online }
    }
}

/// A session that a message goes to, with the mode it is rendered in for that session.
#[derive(Debug, Clone, Copy, PartialEq, Eq, Structural)]
pub struct Target {
    pub session_id: SessionId,
    pub mode: ClientMode,
}

/// One message and the sessions, in order, that receive it.
#[derive(Debug)]
pub struct Outbound {
    pub targets: Vec<Target>,
    pub msg: ServerMsg,
}

/// What an [`Outbound`] holds.
pub struct OutboundView {
    pub targets: Seq<Target>,
    pub msg: ServerMsgView,
}

impl View for Outbound {
    type V = OutboundView;

    open spec fn view(&self) -> OutboundView {
        OutboundView { targets: self.targets@, msg: self.msg@ }
    }
}

/// The views of a sequence of outbound messages.
pub open spec fn outbound_views(v: Seq<Outbound>) -> Seq<OutboundView> {
    v.map_values(|o: Outbound| o@)
}

/// What applying one command gives back: the reply to an identification, and the
/// messages to deliver, in order.
#[derive(Debug)]
pub struct Step {
    pub reply: Option<Result<IdentifyOk, String>>,
    pub outbound: Vec<Outbound>,
}

/// What a [`Step`] holds.
pub struct StepView {
    pub reply: Option<Result<IdentifyOkView, Seq<char>>>,
    pub outbound: Seq<OutboundView>,
}

pub open spec fn reply_view(r: Option<Result<IdentifyOk, String>>) -> Option<
    Result<IdentifyOkView, Seq<char>>,
> {
    match r {
        Some(Ok(ok)) => Some(Ok(ok@)),
        Some(Err(e)) => Some(Err(e@)),
        None => None,
    }
}

impl View for Step {
    type V = StepView;

    open spec fn view(&self) -> StepView {
        StepView { reply: reply_view(self.reply), outbound: outbound_views(self.outbound@) }
    }
}

/// What the chat state holds: the sessions in order of registration, the group history,
/// the direct-message histories by canonical pair of nicks, and the history bound.
pub struct ChatStateView {
    pub sessions: Seq<SessionView>,
    pub history: Seq<ChatLineView>,
    pub dm_history: Map<(Seq<char>, Seq<char>), Seq<ChatLineView>>,
    pub max_history: nat,
}

// ---------------------------------------------------------------------------------------
// The model of the chat state
// ---------------------------------------------------------------------------------------
/// The room every session joins.
pub open spec fn room_name() -> Seq<char> {
    "Chat Room"@
}

/// How many lines a history keeps.
pub open spec fn history_bound() -> nat {
    500
}

/// The state of a fresh server (`ChatState::new`).
pub open spec fn initial_state() -> ChatStateView {
    ChatStateView {
        sessions: Seq::empty(),
        history: Seq::empty(),
        dm_history: Map::empty(),
        max_history: history_bound(),
    }
}

/// A nick the server accepts: 1 to 32 characters, each a letter, a digit, `_` or `-`.
pub open spec fn valid_nick_spec(nick: Seq<char>) -> bool {
    0 < nick.len() <= 32 && all_handle_chars(nick)
}

/// The canonical key of the conversation between `a` and `b`: the two nicks in `str`
/// order.
pub open spec fn dm_key_spec(a: Seq<char>, b: Seq<char>) -> (Seq<char>, Seq<char>) {
    if text_lt(a, b) {
        (a, b)
    } else {
        (b, a)
    }
}

/// No two sessions have the same id.
pub open spec fn ids_distinct(ss: Seq<SessionView>) -> bool {
    forall|i: int, j: int| 0 <= i < ss.len() && 0 <= j < ss.len() && i != j ==> ss[i].id != ss[j].id
}

/// No two sessions have the same nick.
pub open spec fn nicks_distinct(ss: Seq<SessionView>) -> bool {
    forall|i: int, j: int|
        0 <= i < ss.len() && 0 <= j < ss.len() && i != j && (#[trigger] ss[i].nick) is Some
            ==> ss[i].nick != (#[trigger] ss[j].nick)
}

/// The first session at or after `i` with the given id.
pub open spec fn session_index_from(ss: Seq<SessionView>, id: SessionId, i: int) -> Option<int>
    decreases ss.len() - i,
{
    if i < 0 || i >= ss.len() {
        None
    } else if ss[i].id == id {
        Some(i)
    } else {
        session_index_from(ss, id, i + 1)
    }
}

/// Where the session with the given id stands.
pub open spec fn session_index(ss: Seq<SessionView>, id: SessionId) -> Option<int> {
    session_index_from(ss, id, 0)
}

/// The first identified session at or after `i` with the given nick.
pub open spec fn nick_index_from(ss: Seq<SessionView>, nick: Seq<char>, i: int) -> Option<int>
    decreases ss.len() - i,
{
    if i < 0 || i >= ss.len() {
        None
    } else if ss[i].nick == Some(nick) {
        Some(i)
    } else {
        nick_index_from(ss, nick, i + 1)
    }
}

/// Some session goes by `nick`.
pub open spec fn nick_in_use_spec(ss: Seq<SessionView>, nick: Seq<char>) -> bool {
    exists|i: int| 0 <= i < ss.len() && ss[i].nick == Some(nick)
}

/// The id of the session that goes by `nick`.
pub open spec fn session_id_by_nick(ss: Seq<SessionView>, nick: Seq<char>) -> Option<SessionId> {
    match nick_index_from(ss, nick, 0) {
        Some(i) => Some(ss[i].id),
        None => None,
    }
}

/// The nick of the session with the given id, if it has identified.
pub open spec fn session_nick(ss: Seq<SessionView>, id: SessionId) -> Option<Seq<char>> {
    match session_index(ss, id) {
        Some(i) => ss[i].nick,
        None => None,
    }
}

/// Where a message to one session goes.
pub open spec fn target_of(s: SessionView) -> Target {
    Target { session_id: s.id, mode: s.mode }
}

/// The session with the given id, as the one target of a message to it (none if no such
/// session is connected).
pub open spec fn send_to_targets(ss: Seq<SessionView>, id: SessionId) -> Seq<Target> {
    match session_index(ss, id) {
        Some(i) => seq![target_of(ss[i])],
        None => Seq::empty(),
    }
}

/// The identified sessions, in order, but the one with id `except`.
pub open spec fn broadcast_targets(ss: Seq<SessionView>, except: Option<SessionId>) -> Seq<Target>
    decreases ss.len(),
{
    if ss.len() == 0 {
        Seq::empty()
    } else {
        let prev = broadcast_targets(ss.drop_last(), except);
        if ss.last().nick is Some && except != Some(ss.last().id) {
            prev.push(target_of(ss.last()))
        } else {
            prev
        }
    }
}

/// How many sessions have identified.
pub open spec fn online_count_spec(ss: Seq<SessionView>) -> nat
    decreases ss.len(),
{
    if ss.len() == 0 {
        0
    } else {
        online_count_spec(ss.drop_last()) + if ss.last().nick is Some {
            1nat
        } else {
            0nat
        }
    }
}

/// The nicks of the identified sessions, in order.
pub open spec fn nick_list_spec(ss: Seq<SessionView>) -> Seq<Seq<char>>
    decreases ss.len(),
{
    if ss.len() == 0 {
        Seq::empty()
    } else {
        let prev = nick_list_spec(ss.drop_last());
        match ss.last().nick {
            Some(n) => prev.push(n),
            None => prev,
        }
    }
}

/// `h` with `l` added at the end, the oldest line dropped first where `h` is full.
pub open spec fn bounded_push(h: Seq<ChatLineView>, l: ChatLineView, max: nat) -> Seq<
    ChatLineView,
> {
    if h.len() >= max && h.len() > 0 {
        h.drop_first().push(l)
    } else {
        h.push(l)
    }
}

/// The direct messages between `a` and `b` (empty if they have exchanged none).
pub open spec fn dm_lines(m: Map<(Seq<char>, Seq<char>), Seq<ChatLineView>>, a: Seq<char>, b: Seq<char>) -> Seq<ChatLineView> {
    let k = dm_key_spec(a, b);
    if m.dom().contains(k) {
        m[k]
    } else {
        Seq::empty()
    }
}

/// A state that the server can be in: distinct session ids and bounded histories.
pub open spec fn well_formed(st: ChatStateView) -> bool {
    &&& ids_distinct(st.sessions)
    &&& st.max_history == history_bound()
    &&& st.history.len() <= st.max_history
    &&& forall|k| #[trigger] st.dm_history.dom().contains(k) ==> st.dm_history[k].len() <= st.max_history
}

/// A presence message for the current sessions.
pub open spec fn presence_msg(ss: Seq<SessionView>) -> ServerMsgView {
    ServerMsgView::Presence {
        online: online_count_spec(ss) as usize,
        users: nick_list_spec(ss),
    }
}

/// The sessions with the session `id` identified as `nick` in `mode`.
pub open spec fn set_identity(ss: Seq<SessionView>, id: SessionId, nick: Seq<char>, mode: ClientMode) -> Seq<SessionView> {
    match session_index(ss, id) {
        Some(i) => ss.update(i, SessionView { id, nick: Some(nick), mode }),
        None => ss,
    }
}

/// The error text for a refused nick.
pub open spec fn invalid_nick_text() -> Seq<char> {
    "Invalid nick. Use 1-32 chars: a-z A-Z 0-9 _ -"@
}

/// The reply text when the session has already identified.
pub open spec fn already_identified_text() -> Seq<char> {
    "already_identified"@
}

/// The reply text when another session goes by the nick.
pub open spec fn nick_taken_text(nick: Seq<char>) -> Seq<char> {
    "Nick '"@ + nick + "' is already in use"@
}

/// Identification of session `id` as `nick`: the new state, the messages, the reply.
pub open spec fn identify_spec(st: ChatStateView, id: SessionId, nick: Seq<char>, mode: ClientMode) -> (ChatStateView, Seq<OutboundView>, Result<IdentifyOkView, Seq<char>>) {
    if session_nick(st.sessions, id) is Some {
        (st, Seq::empty(), Err(already_identified_text()))
    } else if !valid_nick_spec(nick) {
        (st, Seq::empty(), Err(invalid_nick_text()))
    } else if nick_in_use_spec(st.sessions, nick) {
        (st, Seq::empty(), Err(nick_taken_text(nick)))
    } else {
        let ss = set_identity(st.sessions, id, nick, mode);
        let online = online_count_spec(ss) as usize;
        let welcome = OutboundView {
            targets: send_to_targets(ss, id),
            msg: ServerMsgView::Welcome { nick, room: room_name(), online },
        };
        let history = if st.history.len() > 0 {
            seq![OutboundView {
                targets: send_to_targets(ss, id),
                msg: ServerMsgView::History { messages: st.history },
            }]
        } else {
            Seq::empty()
        };
        let joined = OutboundView {
            targets: broadcast_targets(ss, None),
            msg: ServerMsgView::System { body: nick + " has joined the room"@ },
        };
        let presence = OutboundView { targets: broadcast_targets(ss, None), msg: presence_msg(ss) };
        (
            ChatStateView { sessions: ss, ..st },
            seq![welcome] + history + seq![joined, presence],
            Ok(IdentifyOkView { nick, room: room_name(), online }),
        )
    }
}

/// A group chat message from session `id`, stamped `ts`.
pub open spec fn chat_spec(st: ChatStateView, id: SessionId, body: Seq<char>, ts: Seq<char>) -> (ChatStateView, Seq<OutboundView>) {
    let body = crate::text::trim(body);
    if body.len() == 0 {
        (st, Seq::empty())
    } else {
        match session_nick(st.sessions, id) {
            None => (st, Seq::empty()),
            Some(nick) => (
                ChatStateView {
                    history: bounded_push(
                        st.history,
                        ChatLineView { from: nick, body, timestamp: ts },
                        st.max_history,
                    ),
                    ..st
                },
                seq![OutboundView {
                    targets: broadcast_targets(st.sessions, Some(id)),
                    msg: ServerMsgView::Chat { from: nick, body, timestamp: ts },
                }],
            ),
        }
    }
}

/// The error text for a direct message to a nick that nobody uses.
pub open spec fn no_such_user_text(to: Seq<char>) -> Seq<char> {
    "User '"@ + to + "' not found or not online"@
}

/// A direct message from session `id` to the user `to`, stamped `ts`.
pub open spec fn dm_spec(st: ChatStateView, id: SessionId, to: Seq<char>, body: Seq<char>, ts: Seq<char>) -> (ChatStateView, Seq<OutboundView>) {
    let body = crate::text::trim(body);
    if body.len() == 0 {
        (st, Seq::empty())
    } else {
        match session_nick(st.sessions, id) {
            None => (st, Seq::empty()),
            Some(nick) => if !nick_in_use_spec(st.sessions, to) {
                (
                    st,
                    seq![OutboundView {
                        targets: send_to_targets(st.sessions, id),
                        msg: ServerMsgView::Error { body: no_such_user_text(to) },
                    }],
                )
            } else {
                let k = dm_key_spec(nick, to);
                let line = ChatLineView { from: nick, body, timestamp: ts };
                let dms = st.dm_history.insert(
                    k,
                    bounded_push(dm_lines(st.dm_history, nick, to), line, st.max_history),
                );
                let msg = ServerMsgView::Dm { from: nick, to, body, timestamp: ts };
                let out = match session_id_by_nick(st.sessions, to) {
                    Some(tid) => seq![OutboundView { targets: send_to_targets(st.sessions, tid), msg }],
                    None => Seq::empty(),
                };
                (ChatStateView { dm_history: dms, ..st }, out)
            },
        }
    }
}

/// The sessions after registering `s`, which replaces any session with the same id.
pub open spec fn add_session_spec(ss: Seq<SessionView>, s: SessionView) -> Seq<SessionView> {
    match session_index(ss, s.id) {
        Some(i) => ss.update(i, s),
        None => ss.push(s),
    }
}

/// Removal of session `id`: the new state and, if it had identified, the announcements.
pub open spec fn remove_spec(st: ChatStateView, id: SessionId) -> (ChatStateView, Seq<OutboundView>) {
    match session_index(st.sessions, id) {
        None => (st, Seq::empty()),
        Some(i) => {
            let ss = st.sessions.remove(i);
            let out = match st.sessions[i].nick {
                Some(nick) => seq![
                    OutboundView {
                        targets: broadcast_targets(ss, None),
                        msg: ServerMsgView::System { body: nick + " has left the room"@ },
                    },
                    OutboundView { targets: broadcast_targets(ss, None), msg: presence_msg(ss) },
                ],
                None => Seq::empty(),
            };
            (ChatStateView { sessions: ss, ..st }, out)
        },
    }
}

/// Applying one command to the state, with `ts` the time of day for new chat lines.
pub open spec fn step_spec(st: ChatStateView, cmd: StateCmdView, ts: Seq<char>) -> (ChatStateView, StepView) {
    match cmd {
        StateCmdView::AddSession { session } => (
            ChatStateView { sessions: add_session_spec(st.sessions, session), ..st },
            StepView { reply: None, outbound: Seq::empty() },
        ),
        StateCmdView::RemoveSession { session_id } => {
            let (st2, out) = remove_spec(st, session_id);
            (st2, StepView { reply: None, outbound: out })
        },
        StateCmdView::Identify { session_id, nick, mode } => {
            let (st2, out, reply) = identify_spec(st, session_id, nick, mode);
            (st2, StepView { reply: Some(reply), outbound: out })
        },
        StateCmdView::Chat { session_id, body } => {
            let (st2, out) = chat_spec(st, session_id, body, ts);
            (st2, StepView { reply: None, outbound: out })
        },
        StateCmdView::Dm { session_id, to, body } => {
            let (st2, out) = dm_spec(st, session_id, to, body, ts);
            (st2, StepView { reply: None, outbound: out })
        },
        StateCmdView::GetDmHistory { session_id, partner } => {
            let out = match session_nick(st.sessions, session_id) {
                Some(nick) => seq![OutboundView {
                    targets: send_to_targets(st.sessions, session_id),
                    msg: ServerMsgView::DmHistory {
                        partner,
                        messages: dm_lines(st.dm_history, nick, partner),
                    },
                }],
                None => Seq::empty(),
            };
            (st, StepView { reply: None, outbound: out })
        },
        StateCmdView::Who { session_id } => (
            st,
            StepView {
                reply: None,
                outbound: seq![OutboundView {
                    targets: send_to_targets(st.sessions, session_id),
                    msg: presence_msg(st.sessions),
                }],
            },
        ),
        StateCmdView::SendError { session_id, body } => (
            st,
            StepView {
                reply: None,
                outbound: seq![OutboundView {
                    targets: send_to_targets(st.sessions, session_id),
                    msg: ServerMsgView::Error { body },
                }],
            },
        ),
    }
}

// ---------------------------------------------------------------------------------------
// Lemmas on the model
// ---------------------------------------------------------------------------------------
pub proof fn lemma_session_index_from(ss: Seq<SessionView>, id: SessionId, i: int)
    requires
        0 <= i,
    ensures
        session_index_from(ss, id, i) matches Some(j) ==> i <= j < ss.len() && ss[j].id == id
            && forall|k: int| i <= k < j ==> ss[k].id != id,
        session_index_from(ss, id, i) is None ==> forall|k: int| i <= k < ss.len() ==> ss[k].id != id,
    decreases ss.len() - i,
{
    if i < ss.len() && ss[i].id != id {
        lemma_session_index_from(ss, id, i + 1);
    }
}

pub proof fn lemma_nick_index_from(ss: Seq<SessionView>, nick: Seq<char>, i: int)
    requires
        0 <= i,
    ensures
        nick_index_from(ss, nick, i) matches Some(j) ==> i <= j < ss.len() && ss[j].nick == Some(nick)
            && forall|k: int| i <= k < j ==> ss[k].nick != Some(nick),
        nick_index_from(ss, nick, i) is None ==> forall|k: int| i <= k < ss.len() ==> ss[k].nick != Some(nick),
    decreases ss.len() - i,
{
    if i < ss.len() && ss[i].nick != Some(nick) {
        lemma_nick_index_from(ss, nick, i + 1);
    }
}

/// With distinct ids, the session at `i` is the one `session_index` finds for its id.
pub proof fn lemma_session_index_of(ss: Seq<SessionView>, i: int)
    requires
        ids_distinct(ss),
        0 <= i < ss.len(),
    ensures
        session_index(ss, ss[i].id) == Some(i),
{
    lemma_session_index_from(ss, ss[i].id, 0);
}

pub proof fn lemma_online_count_bound(ss: Seq<SessionView>)
    ensures
        online_count_spec(ss) <= ss.len(),
        nick_list_spec(ss).len() == online_count_spec(ss),
    decreases ss.len(),
{
    if ss.len() > 0 {
        lemma_online_count_bound(ss.drop_last());
    }
}

// ---------------------------------------------------------------------------------------
// Direct-message histories
// ---------------------------------------------------------------------------------------
/// The direct messages between two users, under their canonical key.
struct DmThread {
    first: String,
    second: String,
    lines: VecDeque<ChatLine>,
}

spec fn thread_key(t: DmThread) -> (Seq<char>, Seq<char>) {
    (t.first@, t.second@)
}

spec fn thread_lines(t: DmThread) -> Seq<ChatLineView> {
    line_views(t.lines@)
}

spec fn thread_map(ts: Seq<DmThread>) -> Map<(Seq<char>, Seq<char>), Seq<ChatLineView>>
    decreases ts.len(),
{
    if ts.len() == 0 {
        Map::empty()
    } else {
        thread_map(ts.drop_last()).insert(thread_key(ts.last()), thread_lines(ts.last()))
    }
}

spec fn keys_distinct(ts: Seq<DmThread>) -> bool {
    forall|i: int, j: int|
        0 <= i < ts.len() && 0 <= j < ts.len() && i != j ==> thread_key(ts[i]) != thread_key(ts[j])
}

proof fn lemma_thread_map(ts: Seq<DmThread>)
    requires
        keys_distinct(ts),
    ensures
        forall|i: int| 0 <= i < ts.len() ==> #[trigger] thread_map(ts).dom().contains(thread_key(ts[i]))
            && thread_map(ts)[thread_key(ts[i])] == thread_lines(ts[i]),
        forall|k| #[trigger] thread_map(ts).dom().contains(k) ==> exists|i: int| 0 <= i < ts.len() && thread_key(ts[i]) == k,
    decreases ts.len(),
{
    if ts.len() > 0 {
        let prev = ts.drop_last();
        assert(keys_distinct(prev));
        lemma_thread_map(prev);
        assert forall|i: int| 0 <= i < ts.len() implies #[trigger] thread_map(ts).dom().contains(thread_key(ts[i]))
            && thread_map(ts)[thread_key(ts[i])] == thread_lines(ts[i]) by {
            if i < ts.len() - 1 {
                assert(prev[i] == ts[i]);
                assert(thread_map(prev).dom().contains(thread_key(prev[i])));
                assert(thread_key(ts[i]) != thread_key(ts[ts.len() - 1]));
            }
        }
        assert forall|k| #[trigger] thread_map(ts).dom().contains(k) implies exists|i: int| 0 <= i < ts.len() && thread_key(ts[i]) == k by {
            if k != thread_key(ts.last()) {
                assert(thread_map(prev).dom().contains(k));
                let i = choose|i: int| 0 <= i < prev.len() && thread_key(prev[i]) == k;
                assert(thread_key(ts[i]) == k);
            } else {
                assert(thread_key(ts[ts.len() - 1]) == k);
            }
        }
    }
}

proof fn lemma_thread_map_update(ts: Seq<DmThread>, i: int, t: DmThread)
    requires
        keys_distinct(ts),
        0 <= i < ts.len(),
        thread_key(t) == thread_key(ts[i]),
    ensures
        keys_distinct(ts.update(i, t)),
        thread_map(ts.update(i, t)) == thread_map(ts).insert(thread_key(t), thread_lines(t)),
    decreases ts.len(),
{
    let ts2 = ts.update(i, t);
    assert(keys_distinct(ts2));
    if i == ts.len() - 1 {
        assert(ts2.drop_last() =~= ts.drop_last());
        assert(thread_map(ts2) =~= thread_map(ts).insert(thread_key(t), thread_lines(t)));
    } else {
        let prev = ts.drop_last();
        assert(keys_distinct(prev));
        lemma_thread_map_update(prev, i, t);
        assert(ts2.drop_last() =~= prev.update(i, t));
        assert(thread_key(ts.last()) != thread_key(t));
        assert(thread_map(ts2) =~= thread_map(ts).insert(thread_key(t), thread_lines(t)));
    }
}

proof fn lemma_thread_map_absent(ts: Seq<DmThread>, k: (Seq<char>, Seq<char>))
    requires
        keys_distinct(ts),
        forall|i: int| 0 <= i < ts.len() ==> thread_key(#[trigger] ts[i]) != k,
    ensures
        !thread_map(ts).dom().contains(k),
{
    lemma_thread_map(ts);
}

/// The canonical key of the conversation between `a` and `b`: the two nicks in `str`
/// order, so that both partners find the same history.
pub fn dm_key(a: &str, b: &str) -> (r: (String, String))
    ensures
        (r.0@, r.1@) == dm_key_spec(a@, b@),
{
    if text_less(a, b) {
        (a.to_owned(), b.to_owned())
    } else {
        (b.to_owned(), a.to_owned())
    }
}

/// `a < b` in the order of `str`: their UTF-8 bytes compared lexicographically.
pub fn text_less(a: &str, b: &str) -> (r: bool)
    ensures
        r == text_lt(a@, b@),
{
    let x = a.as_bytes();
    let y = b.as_bytes();
    let mut i: usize = 0;
    proof {
        assert(x@.skip(0) =~= x@);
        assert(y@.skip(0) =~= y@);
    }
    while i < x.len() && i < y.len() && x[i] == y[i]
        invariant
            i <= x@.len(),
            i <= y@.len(),
            x@ == vstd::utf8::encode_utf8(a@),
            y@ == vstd::utf8::encode_utf8(b@),
            bytes_lt(x@, y@) == bytes_lt(x@.skip(i as int), y@.skip(i as int)),
        decreases x@.len() - i,
    {
        proof {
            assert(x@.skip(i as int).drop_first() =~= x@.skip(i + 1));
            assert(y@.skip(i as int).drop_first() =~= y@.skip(i + 1));
        }
        i = i + 1;
    }
    if i < x.len() && i < y.len() {
        x[i] < y[i]
    } else {
        i >= x.len() && i < y.len()
    }
}

/// Whether the server accepts `nick`: 1 to 32 bytes, each a letter, a digit, `_` or `-`.
pub fn valid_nick(nick: &str) -> (r: bool)
    ensures
        r == valid_nick_spec(nick@),
{
    if nick.is_empty() {
        return false;
    }
    let cs = crate::text::chars_of(nick);
    let mut i: usize = 0;
    while i < cs.len()
        invariant
            cs@ == nick@,
            i <= cs@.len(),
            all_handle_chars(cs@.take(i as int)),
        decreases cs@.len() - i,
    {
        if !is_handle_char_exec(cs[i]) {
            proof {
                assert(!all_handle_chars(nick@)) by {
                    assert(!crate::text::is_handle_char(nick@[i as int]));
                }
            }
            return false;
        }
        i = i + 1;
        proof {
            assert forall|k: int| 0 <= k < i implies crate::text::is_handle_char(#[trigger] cs@.take(i as int)[k]) by {
                if k < i - 1 {
                    assert(cs@.take(i - 1)[k] == cs@.take(i as int)[k]);
                }
            }
        }
    }
    proof {
        assert(cs@.take(i as int) =~= nick@);
        assert(vstd::utf8::is_ascii_chars(nick@));
        vstd::utf8::is_ascii_chars_encode_utf8(nick@);
    }
    nick.len() <= 32
}

// ---------------------------------------------------------------------------------------
// The chat state
// ---------------------------------------------------------------------------------------
/// Internal server state, owned by one task that applies the commands in turn.
pub struct ChatState {
    sessions: Vec<Session>,
    history: VecDeque<ChatLine>,
    dm_history: Vec<DmThread>,
    max_history: usize,
}

impl View for ChatState {
    type V = ChatStateView;

    closed spec fn view(&self) -> ChatStateView {
        ChatStateView {
            sessions: session_views(self.sessions@),
            history: line_views(self.history@),
            dm_history: thread_map(self.dm_history@),
            max_history: self.max_history as nat,
        }
    }
}

pub open spec fn result_view(r: Result<IdentifyOk, String>) -> Result<IdentifyOkView, Seq<char>> {
    match r {
        Ok(ok) => Ok(ok@),
        Err(e) => Err(e@),
    }
}

impl ChatState {
    /// The state is consistent: it satisfies [`well_formed`] and keeps one history per pair.
    pub closed spec fn wf(&self) -> bool {
        &&& keys_distinct(self.dm_history@)
        &&& well_formed(self@)
    }

    /// A state that the library built satisfies the well-formedness of the model, so the
    /// laws stated over the model apply to it.
    pub proof fn lemma_wf(&self)
        requires
            self.wf(),
        ensures
            well_formed(self@),
    {
    }

    /// A state with no sessions and empty histories.
    pub fn new() -> (r: Self)
        ensures
            r.wf(),
            r@ == initial_state(),
            r@.sessions == Seq::<SessionView>::empty(),
            r@.history == Seq::<ChatLineView>::empty(),
            r@.dm_history == Map::<(Seq<char>, Seq<char>), Seq<ChatLineView>>::empty(),
            r@.max_history == history_bound(),
    {
        let r = ChatState {
            sessions: Vec::new(),
            history: VecDeque::with_capacity(1000),
            dm_history: Vec::new(),
            max_history: 500,
        };
        proof {
            assert(session_views(r.sessions@) =~= Seq::<SessionView>::empty());
            assert(line_views(r.history@) =~= Seq::<ChatLineView>::empty());
        }
        r
    }

    /// Where the session with the given id stands.
    fn session_index(&self, id: SessionId) -> (r: Option<usize>)
        ensures
            match r {
                Some(i) => session_index(self@.sessions, id) == Some(i as int) && i < self@.sessions.len(),
                None => session_index(self@.sessions, id) is None,
            },
    {
        let ghost ss = self@.sessions;
        let mut i: usize = 0;
        while i < self.sessions.len()
            invariant
                ss == session_views(self.sessions@),
                i <= ss.len(),
                session_index_from(ss, id, 0) == session_index_from(ss, id, i as int),
            decreases ss.len() - i,
        {
            if self.sessions[i].id == id {
                return Some(i);
            }
            i = i + 1;
        }
        None
    }

    /// Where the session that goes by `nick` stands.
    fn nick_index(&self, nick: &str) -> (r: Option<usize>)
        ensures
            match r {
                Some(i) => nick_index_from(self@.sessions, nick@, 0) == Some(i as int) && i < self@.sessions.len(),
                None => nick_index_from(self@.sessions, nick@, 0) is None,
            },
    {
        let ghost ss = self@.sessions;
        let mut i: usize = 0;
        while i < self.sessions.len()
            invariant
                ss == session_views(self.sessions@),
                i <= ss.len(),
                nick_index_from(ss, nick@, 0) == nick_index_from(ss, nick@, i as int),
            decreases ss.len() - i,
        {
            let hit = match &self.sessions[i].nick {
                Some(n) => str_eq(n.as_str(), nick),
                None => false,
            };
            if hit {
                return Some(i);
            }
            i = i + 1;
        }
        None
    }

    /// Whether some session goes by `nick`.
    pub fn nick_in_use(&self, nick: &str) -> (r: bool)
        ensures
            r == nick_in_use_spec(self@.sessions, nick@),
    {
        proof {
            lemma_nick_index_from(self@.sessions, nick@, 0);
        }
        self.nick_index(nick).is_some()
    }

    /// The id of the session that goes by `nick`.
    pub fn find_session_id_by_nick(&self, nick: &str) -> (r: Option<SessionId>)
        ensures
            r == session_id_by_nick(self@.sessions, nick@),
    {
        match self.nick_index(nick) {
            Some(i) => Some(self.sessions[i].id),
            None => None,
        }
    }

    /// The nick of the session with the given id, if it has identified.
    fn session_nick(&self, id: SessionId) -> (r: Option<String>)
        ensures
            match r {
                Some(n) => session_nick(self@.sessions, id) == Some(n@),
                None => session_nick(self@.sessions, id) is None,
            },
    {
        match self.session_index(id) {
            Some(i) => match &self.sessions[i].nick {
                Some(n) => Some(n.clone()),
                None => None,
            },
            None => None,
        }
    }

    /// How many sessions have identified.
    pub fn online_count(&self) -> (r: usize)
        ensures
            r == online_count_spec(self@.sessions),
    {
        let ghost ss = self@.sessions;
        let mut n: usize = 0;
        let mut i: usize = 0;
        while i < self.sessions.len()
            invariant
                ss == session_views(self.sessions@),
                i <= ss.len(),
                n == online_count_spec(ss.take(i as int)),
            decreases ss.len() - i,
        {
            proof {
                assert(ss.take(i + 1).drop_last() =~= ss.take(i as int));
                lemma_online_count_bound(ss.take(i as int));
            }
            if self.sessions[i].nick.is_some() {
                n = n + 1;
            }
            i = i + 1;
        }
        proof {
            assert(ss.take(i as int) =~= ss);
        }
        n
    }

    /// The nicks of the identified sessions, in order.
    pub fn nick_list(&self) -> (r: Vec<String>)
        ensures
            views(r@) == nick_list_spec(self@.sessions),
    {
        let ghost ss = self@.sessions;
        let mut r: Vec<String> = Vec::new();
        let mut i: usize = 0;
        while i < self.sessions.len()
            invariant
                ss == session_views(self.sessions@),
                i <= ss.len(),
                views(r@) == nick_list_spec(ss.take(i as int)),
            decreases ss.len() - i,
        {
            proof {
                assert(ss.take(i + 1).drop_last() =~= ss.take(i as int));
            }
            match &self.sessions[i].nick {
                Some(n) => {
                    r.push(n.clone());
                    proof {
                        assert(views(r@) =~= nick_list_spec(ss.take(i as int)).push(n@));
                    }
                },
                None => {},
            }
            i = i + 1;
        }
        proof {
            assert(ss.take(i as int) =~= ss);
        }
        r
    }

    /// The session with the given id, as the targets of a message to it.
    fn send_to_targets(&self, id: SessionId) -> (r: Vec<Target>)
        ensures
            r@ == send_to_targets(self@.sessions, id),
    {
        let mut r: Vec<Target> = Vec::new();
        match self.session_index(id) {
            Some(i) => {
                r.push(Target { session_id: self.sessions[i].id, mode: self.sessions[i].mode });
                proof {
                    assert(r@ =~= seq![target_of(self@.sessions[i as int])]);
                }
            },
            None => {
                proof {
                    assert(r@ =~= Seq::<Target>::empty());
                }
            },
        }
        r
    }

    /// The identified sessions but `except`, as the targets of a broadcast.
    fn broadcast_targets(&self, except: Option<SessionId>) -> (r: Vec<Target>)
        ensures
            r@ == broadcast_targets(self@.sessions, except),
    {
        let ghost ss = self@.sessions;
        let mut r: Vec<Target> = Vec::new();
        let mut i: usize = 0;
        while i < self.sessions.len()
            invariant
                ss == session_views(self.sessions@),
                i <= ss.len(),
                r@ == broadcast_targets(ss.take(i as int), except),
            decreases ss.len() - i,
        {
            proof {
                assert(ss.take(i + 1).drop_last() =~= ss.take(i as int));
            }
            let s = &self.sessions[i];
            let skip = match except {
                Some(e) => e == s.id,
                None => false,
            };
            if s.nick.is_some() && !skip {
                r.push(Target { session_id: s.id, mode: s.mode });
            }
            i = i + 1;
        }
        proof {
            assert(ss.take(i as int) =~= ss);
        }
        r
    }

    /// A message to the session with the given id.
    fn send_to(&self, session_id: SessionId, msg: ServerMsg) -> (r: Outbound)
        ensures
            r@ == (OutboundView { targets: send_to_targets(self@.sessions, session_id), msg: msg@ }),
    {
        Outbound { targets: self.send_to_targets(session_id), msg }
    }

    /// A message to every identified session.
    fn broadcast(&self, msg: ServerMsg) -> (r: Outbound)
        ensures
            r@ == (OutboundView { targets: broadcast_targets(self@.sessions, None), msg: msg@ }),
    {
        Outbound { targets: self.broadcast_targets(None), msg }
    }

    /// A message to every identified session but the sender.
    fn broadcast_except(&self, sender_id: SessionId, msg: ServerMsg) -> (r: Outbound)
        ensures
            r@ == (OutboundView { targets: broadcast_targets(self@.sessions, Some(sender_id)), msg: msg@ }),
    {
        Outbound { targets: self.broadcast_targets(Some(sender_id)), msg }
    }

    /// The current presence list, to every identified session.
    fn broadcast_presence(&self) -> (r: Outbound)
        ensures
            r@ == (OutboundView { targets: broadcast_targets(self@.sessions, None), msg: presence_msg(self@.sessions) }),
    {
        let msg = ServerMsg::Presence { online: self.online_count(), users: self.nick_list() };
        self.broadcast(msg)
    }

    /// A copy of the group history.
    fn history_lines(&self) -> (r: Vec<ChatLine>)
        ensures
            line_views(r@) == self@.history,
    {
        let mut r: Vec<ChatLine> = Vec::new();
        let mut i: usize = 0;
        while i < self.history.len()
            invariant
                i <= self.history@.len(),
                line_views(r@) == line_views(self.history@.take(i as int)),
            decreases self.history@.len() - i,
        {
            let l = self.history[i].duplicate();
            proof {
                assert(l == self.history@[i as int]);
            }
            let ghost before = r@;
            r.push(l);
            proof {
                assert(self.history@.take(i + 1) =~= self.history@.take(i as int).push(l));
                assert(r@ =~= before.push(l));
                assert(line_views(before.push(l)) =~= line_views(before).push(l@));
                assert(line_views(self.history@.take(i as int).push(l)) =~= line_views(self.history@.take(i as int)).push(l@));
                assert(line_views(r@) =~= line_views(self.history@.take(i + 1)));
            }
            i = i + 1;
        }
        proof {
            assert(self.history@.take(i as int) =~= self.history@);
        }
        r
    }

    /// Adds a line to the group history, dropping the oldest line where it is full.
    fn push_history(&mut self, line: ChatLine)
        ensures
            final(self).sessions == old(self).sessions,
            final(self).dm_history == old(self).dm_history,
            final(self).max_history == old(self).max_history,
            line_views(final(self).history@) == bounded_push(line_views(old(self).history@), line@, old(self).max_history as nat),
    {
        let ghost h = line_views(self.history@);
        if self.history.len() >= self.max_history {
            self.history.pop_front();
        }
        self.history.push_back(line);
        proof {
            if h.len() >= self.max_history && h.len() > 0 {
                assert(line_views(self.history@) =~= h.drop_first().push(line@));
            } else {
                assert(line_views(self.history@) =~= h.push(line@));
            }
        }
    }

    /// Where the history under the key `(first, second)` stands.
    fn thread_index(&self, first: &str, second: &str) -> (r: Option<usize>)
        ensures
            match r {
                Some(i) => i < self.dm_history@.len() && thread_key(self.dm_history@[i as int]) == (first@, second@),
                None => forall|i: int| 0 <= i < self.dm_history@.len() ==> thread_key(#[trigger] self.dm_history@[i]) != (first@, second@),
            },
    {
        let mut i: usize = 0;
        while i < self.dm_history.len()
            invariant
                i <= self.dm_history@.len(),
                forall|k: int| 0 <= k < i ==> thread_key(#[trigger] self.dm_history@[k]) != (first@, second@),
            decreases self.dm_history@.len() - i,
        {
            let t = &self.dm_history[i];
            if str_eq(t.first.as_str(), first) && str_eq(t.second.as_str(), second) {
                return Some(i);
            }
            i = i + 1;
        }
        None
    }

    /// Adds a line to the direct-message history of `from` and `to`, dropping the oldest
    /// line of that history where it is full.
    fn push_dm_history(&mut self, from: &str, to: &str, line: ChatLine)
        requires
            old(self).wf(),
        ensures
            final(self).wf(),
            final(self)@ == (ChatStateView {
                dm_history: old(self)@.dm_history.insert(
                    dm_key_spec(from@, to@),
                    bounded_push(dm_lines(old(self)@.dm_history, from@, to@), line@, old(self)@.max_history),
                ),
                ..old(self)@
            }),
    {
        let key = dm_key(from, to);
        let ghost k = dm_key_spec(from@, to@);
        let ghost ts = self.dm_history@;
        proof {
            lemma_thread_map(ts);
        }
        match self.thread_index(key.0.as_str(), key.1.as_str()) {
            Some(i) => {
                let mut t = self.dm_history.remove(i);
                proof {
                    assert(t == ts[i as int]);
                    assert(dm_lines(thread_map(ts), from@, to@) == thread_lines(t));
                }
                let ghost old_lines = thread_lines(t);
                if t.lines.len() >= self.max_history {
                    t.lines.pop_front();
                }
                t.lines.push_back(line);
                proof {
                    if old_lines.len() >= self.max_history && old_lines.len() > 0 {
                        assert(thread_lines(t) =~= old_lines.drop_first().push(line@));
                    } else {
                        assert(thread_lines(t) =~= old_lines.push(line@));
                    }
                }
                self.dm_history.insert(i, t);
                proof {
                    assert(self.dm_history@ =~= ts.update(i as int, t));
                    lemma_thread_map_update(ts, i as int, t);
                    assert(forall|j| #[trigger] thread_map(self.dm_history@).dom().contains(j) ==> thread_map(self.dm_history@)[j].len() <= self.max_history) by {
                        assert(forall|j| #[trigger] thread_map(ts).dom().contains(j) ==> thread_map(ts)[j].len() <= self.max_history);
                    }
                }
            },
            None => {
                let mut lines: VecDeque<ChatLine> = VecDeque::new();
                lines.push_back(line);
                let t = DmThread { first: key.0, second: key.1, lines };
                proof {
                    lemma_thread_map_absent(ts, k);
                    assert(thread_lines(t) =~= seq![line@]);
                    assert(bounded_push(Seq::<ChatLineView>::empty(), line@, self.max_history as nat) =~= seq![line@]);
                }
                self.dm_history.push(t);
                proof {
                    assert(self.dm_history@.drop_last() =~= ts);
                    assert(keys_distinct(self.dm_history@));
                    assert(thread_map(self.dm_history@) == thread_map(ts).insert(k, thread_lines(t)));
                }
            },
        }
        proof {
            assert(self@.dm_history =~= old(self)@.dm_history.insert(k, bounded_push(dm_lines(old(self)@.dm_history, from@, to@), line@, old(self)@.max_history)));
        }
    }

    /// The direct messages between `a` and `b`.
    pub fn get_dm_history(&self, a: &str, b: &str) -> (r: Vec<ChatLine>)
        requires
            self.wf(),
        ensures
            line_views(r@) == dm_lines(self@.dm_history, a@, b@),
    {
        let key = dm_key(a, b);
        let ghost ts = self.dm_history@;
        proof {
            lemma_thread_map(ts);
        }
        let mut r: Vec<ChatLine> = Vec::new();
        match self.thread_index(key.0.as_str(), key.1.as_str()) {
            Some(ti) => {
                let lines = &self.dm_history[ti].lines;
                let mut i: usize = 0;
                while i < lines.len()
                    invariant
                        i <= lines@.len(),
                        line_views(r@) == line_views(lines@.take(i as int)),
                    decreases lines@.len() - i,
                {
                    let l = lines[i].duplicate();
                    let ghost before = r@;
                    r.push(l);
                    proof {
                        assert(lines@.take(i + 1) =~= lines@.take(i as int).push(l));
                        assert(line_views(before.push(l)) =~= line_views(before).push(l@));
                        assert(line_views(lines@.take(i as int).push(l)) =~= line_views(lines@.take(i as int)).push(l@));
                    }
                    i = i + 1;
                }
                proof {
                    assert(lines@.take(i as int) =~= lines@);
                }
            },
            None => {
                proof {
                    lemma_thread_map_absent(ts, dm_key_spec(a@, b@));
                    assert(line_views(r@) =~= Seq::<ChatLineView>::empty());
                }
            },
        }
        r
    }

    /// Records that session `id` goes by `nick` in `mode`.
    fn set_identity(&mut self, id: SessionId, nick: &str, mode: ClientMode)
        requires
            old(self).wf(),
        ensures
            final(self).wf(),
            final(self)@ == (ChatStateView { sessions: set_identity(old(self)@.sessions, id, nick@, mode), ..old(self)@ }),
    {
        let ghost ss = self@.sessions;
        match self.session_index(id) {
            Some(i) => {
                proof {
                    lemma_session_index_from(ss, id, 0);
                }
                let s = Session { id, nick: Some(nick.to_owned()), mode };
                self.sessions.set(i, s);
                proof {
                    assert(session_views(self.sessions@) =~= ss.update(i as int, s@));
                }
            },
            None => {},
        }
    }

    /// Registers `session`, which replaces any session with the same id.
    fn add_session(&mut self, session: Session)
        requires
            old(self).wf(),
        ensures
            final(self).wf(),
            final(self)@ == (ChatStateView { sessions: add_session_spec(old(self)@.sessions, session@), ..old(self)@ }),
    {
        let ghost ss = self@.sessions;
        let ghost sv = session@;
        proof {
            lemma_session_index_from(ss, sv.id, 0);
        }
        match self.session_index(session.id) {
            Some(i) => {
                self.sessions.set(i, session);
                proof {
                    assert(session_views(self.sessions@) =~= ss.update(i as int, sv));
                }
            },
            None => {
                self.sessions.push(session);
                proof {
                    assert(session_views(self.sessions@) =~= ss.push(sv));
                }
            },
        }
    }

    /// Removes session `id`, with the announcements to the others if it had identified.
    fn remove_session(&mut self, session_id: SessionId) -> (r: Vec<Outbound>)
        requires
            old(self).wf(),
        ensures
            final(self).wf(),
            (final(self)@, outbound_views(r@)) == remove_spec(old(self)@, session_id),
    {
        let ghost ss = self@.sessions;
        let mut out: Vec<Outbound> = Vec::new();
        match self.session_index(session_id) {
            Some(i) => {
                let removed = self.sessions.remove(i);
                proof {
                    assert(session_views(self.sessions@) =~= ss.remove(i as int));
                    assert(removed@ == ss[i as int]);
                }
                match removed.nick {
                    Some(nick) => {
                        let mut body = nick;
                        push_str(&mut body, " has left the room");
                        let left = self.broadcast(ServerMsg::System { body });
                        out.push(left);
                        let presence = self.broadcast_presence();
                        out.push(presence);
                    },
                    None => {},
                }
            },
            None => {},
        }
        proof {
            assert(outbound_views(out@) =~= remove_spec(old(self)@, session_id).1);
        }
        out
    }

    /// Identifies session `session_id` as `nick`, sending the welcome, the history and the
    /// announcements where it succeeds.
    fn handle_identify(&mut self, session_id: SessionId, nick: &str, mode: ClientMode) -> (r: (
        Result<IdentifyOk, String>,
        Vec<Outbound>,
    ))
        requires
            old(self).wf(),
        ensures
            final(self).wf(),
            (final(self)@, outbound_views(r.1@), result_view(r.0)) == identify_spec(old(self)@, session_id, nick@, mode),
    {
        let mut out: Vec<Outbound> = Vec::new();
        if self.session_nick(session_id).is_some() {
            return (Err("already_identified".to_owned()), out);
        }
        if !valid_nick(nick) {
            return (Err("Invalid nick. Use 1-32 chars: a-z A-Z 0-9 _ -".to_owned()), out);
        }
        if self.nick_in_use(nick) {
            let mut e = String::new();
            push_str(&mut e, "Nick '");
            push_str(&mut e, nick);
            push_str(&mut e, "' is already in use");
            return (Err(e), out);
        }
        self.set_identity(session_id, nick, mode);
        let online = self.online_count();
        let welcome = self.send_to(
            session_id,
            ServerMsg::Welcome { nick: nick.to_owned(), room: "Chat Room".to_owned(), online },
        );
        out.push(welcome);
        let history = self.history_lines();
        if history.len() > 0 {
            let h = self.send_to(session_id, ServerMsg::History { messages: history });
            out.push(h);
        }
        let mut body = nick.to_owned();
        push_str(&mut body, " has joined the room");
        let joined = self.broadcast(ServerMsg::System { body });
        out.push(joined);
        let presence = self.broadcast_presence();
        out.push(presence);
        proof {
            assert(outbound_views(out@) =~= identify_spec(old(self)@, session_id, nick@, mode).1);
        }
        (Ok(IdentifyOk { nick: nick.to_owned(), room: "Chat Room".to_owned(), online }), out)
    }

    /// A group chat message from session `session_id`, stamped `timestamp`.
    fn handle_chat(&mut self, session_id: SessionId, body: &str, timestamp: &str) -> (r: Vec<Outbound>)
        requires
            old(self).wf(),
        ensures
            final(self).wf(),
            (final(self)@, outbound_views(r@)) == chat_spec(old(self)@, session_id, body@, timestamp@),
    {
        let mut out: Vec<Outbound> = Vec::new();
        let text = trim_str(body);
        if text.as_str().is_empty() {
            proof {
                assert(outbound_views(out@) =~= Seq::<OutboundView>::empty());
            }
            return out;
        }
        let nick = match self.session_nick(session_id) {
            Some(nick) => nick,
            None => {
                proof {
                    assert(outbound_views(out@) =~= Seq::<OutboundView>::empty());
                }
                return out;
            },
        };
        self.push_history(ChatLine { from: nick.clone(), body: text.clone(), timestamp: timestamp.to_owned() });
        let chat = self.broadcast_except(
            session_id,
            ServerMsg::Chat { from: nick, body: text, timestamp: timestamp.to_owned() },
        );
        out.push(chat);
        proof {
            assert(outbound_views(out@) =~= chat_spec(old(self)@, session_id, body@, timestamp@).1);
            assert(self@.history.len() <= self@.max_history);
        }
        out
    }

    /// A direct message from session `session_id` to the user `to_nick`, stamped
    /// `timestamp`.
    fn handle_dm(&mut self, session_id: SessionId, to_nick: &str, body: &str, timestamp: &str) -> (r: Vec<Outbound>)
        requires
            old(self).wf(),
        ensures
            final(self).wf(),
            (final(self)@, outbound_views(r@)) == dm_spec(old(self)@, session_id, to_nick@, body@, timestamp@),
    {
        let mut out: Vec<Outbound> = Vec::new();
        let text = trim_str(body);
        if text.as_str().is_empty() {
            proof {
                assert(outbound_views(out@) =~= Seq::<OutboundView>::empty());
            }
            return out;
        }
        let nick = match self.session_nick(session_id) {
            Some(nick) => nick,
            None => {
                proof {
                    assert(outbound_views(out@) =~= Seq::<OutboundView>::empty());
                }
                return out;
            },
        };
        if !self.nick_in_use(to_nick) {
            let mut e = String::new();
            push_str(&mut e, "User '");
            push_str(&mut e, to_nick);
            push_str(&mut e, "' not found or not online");
            let err = self.send_to(session_id, ServerMsg::Error { body: e });
            out.push(err);
            proof {
                assert(outbound_views(out@) =~= dm_spec(old(self)@, session_id, to_nick@, body@, timestamp@).1);
            }
            return out;
        }
        self.push_dm_history(
            nick.as_str(),
            to_nick,
            ChatLine { from: nick.clone(), body: text.clone(), timestamp: timestamp.to_owned() },
        );
        let dm_msg = ServerMsg::Dm {
            from: nick,
            to: to_nick.to_owned(),
            body: text,
            timestamp: timestamp.to_owned(),
        };
        match self.find_session_id_by_nick(to_nick) {
            Some(to_session_id) => {
                let dm = self.send_to(to_session_id, dm_msg);
                out.push(dm);
            },
            None => {},
        }
        proof {
            assert(outbound_views(out@) =~= dm_spec(old(self)@, session_id, to_nick@, body@, timestamp@).1);
        }
        out
    }

    /// Applies one command, with `timestamp` the time of day that new chat lines carry.
    pub fn process_at(&mut self, cmd: StateCmd, timestamp: &str) -> (step: Step)
        requires
            old(self).wf(),
        ensures
            final(self).wf(),
            (final(self)@, step@) == step_spec(old(self)@, cmd@, timestamp@),
    {
        let mut out: Vec<Outbound> = Vec::new();
        let mut reply: Option<Result<IdentifyOk, String>> = None;
        match cmd {
            StateCmd::AddSession { session } => {
                self.add_session(session);
            },
            StateCmd::RemoveSession { session_id } => {
                out = self.remove_session(session_id);
            },
            StateCmd::Identify { session_id, nick, mode } => {
                let (result, sent) = self.handle_identify(session_id, nick.as_str(), mode);
                reply = Some(result);
                out = sent;
            },
            StateCmd::Chat { session_id, body } => {
                out = self.handle_chat(session_id, body.as_str(), timestamp);
            },
            StateCmd::Dm { session_id, to, body } => {
                out = self.handle_dm(session_id, to.as_str(), body.as_str(), timestamp);
            },
            StateCmd::GetDmHistory { session_id, partner } => {
                match self.session_nick(session_id) {
                    Some(nick) => {
                        let history = self.get_dm_history(nick.as_str(), partner.as_str());
                        let msg = self.send_to(
                            session_id,
                            ServerMsg::DmHistory { partner, messages: history },
                        );
                        out.push(msg);
                    },
                    None => {},
                }
            },
            StateCmd::Who { session_id } => {
                let msg = self.send_to(
                    session_id,
                    ServerMsg::Presence { online: self.online_count(), users: self.nick_list() },
                );
                out.push(msg);
            },
            StateCmd::SendError { session_id, body } => {
                let msg = self.send_to(session_id, ServerMsg::Error { body });
                out.push(msg);
            },
        }
        let step = Step { reply, outbound: out };
        proof {
            assert(step@.outbound =~= step_spec(old(self)@, cmd@, timestamp@).1.outbound);
        }
        step
    }

    /// Applies one command, stamping new chat lines with the current time of day.
    pub fn process(&mut self, cmd: StateCmd) -> (step: Step)
        requires
            old(self).wf(),
        ensures
            final(self).wf(),
            exists|secs: u64| (final(self)@, step@) == step_spec(old(self)@, cmd@, crate::clock::hms(secs as nat)),
    {
        let ts = crate::clock::now_hms();
        let ghost secs = choose|secs: u64| ts@ == crate::clock::hms(secs as nat);
        let step = self.process_at(cmd, ts.as_str());
        proof {
            assert((self@, step@) == step_spec(old(self)@, cmd@, crate::clock::hms(secs as nat)));
        }
        step
    }
}

} // verus!
