//! Core client state: the login form, the conversations, and what server messages do to
//! them.

use vstd::prelude::*;

use crate::assoc::{
    assoc_map, keys_unique, lemma_assoc_absent, lemma_assoc_map, lemma_assoc_push,
    lemma_assoc_remove, lemma_assoc_update,
};
use crate::protocol::{ChatLine, ChatLineView, ClientMsg, ClientMsgView, ServerMsg, ServerMsgView, line_views};
use crate::text::{
    chars_of, first_char, first_match, is_prefix, push_str, str_eq, string_of_range, views,
};

pub use crate::clock::now_hms;

verus! {

pub const DEFAULT_PORT: u16 = 42069;

/// Identifies which conversation is active.
#[derive(Debug, Clone, PartialEq, Eq, Hash)]
pub enum Conversation {
    Group,
    Dm(String),
}

/// What a [`Conversation`] names.
pub enum ConversationView {
    Group,
    Dm(Seq<char>),
}

impl View for Conversation {
    type V = ConversationView;

    open spec fn view(&self) -> ConversationView {
        match self {
            Conversation::Group => ConversationView::Group,
            Conversation::Dm(p) => ConversationView::Dm(p@),
        }
    }
}

impl Conversation {
    /// Whether the two name the same conversation.
    pub fn same_as(&self, other: &Conversation) -> (r: bool)
        ensures
            r == (self@ == other@),
    {
        match (self, other) {
            (Conversation::Group, Conversation::Group) => true,
            (Conversation::Dm(a), Conversation::Dm(b)) => str_eq(a.as_str(), b.as_str()),
            _ => false,
        }
    }

    /// A copy of this conversation name.
    pub fn duplicate(&self) -> (r: Conversation)
        ensures
            r@ == self@,
    {
        match self {
            Conversation::Group => Conversation::Group,
            Conversation::Dm(p) => Conversation::Dm(p.clone()),
        }
    }
}

/// Application mode (login screen vs chat screen).
#[derive(Debug, PartialEq, Eq, Clone, Copy, Structural)]
pub enum AppMode {
    Login,
    Chat,
}

/// Which tab is active on the login screen.
#[derive(Debug, PartialEq, Eq, Clone, Copy, Structural)]
pub enum LoginTab {
    Connect,
    Server,
}

impl Default for LoginTab {
    fn default() -> (r: Self)
        ensures
            r == LoginTab::Connect,
    {
        LoginTab::Connect
    }
}

/// A displayed message: sender, body, timestamp.
pub type Line = (String, String, String);

/// What a [`Line`] holds.
pub type LineView = (Seq<char>, Seq<char>, Seq<char>);

pub open spec fn line_view(l: Line) -> LineView {
    (l.0@, l.1@, l.2@)
}

pub open spec fn line3_views(v: Seq<Line>) -> Seq<LineView> {
    v.map_values(|l: Line| line_view(l))
}

/// Where the client should connect, and as whom.
#[derive(Debug)]
pub struct Connection {
    pub ip: String,
    pub port: u16,
    pub nick: String,
}

/// What a [`Connection`] holds.
pub struct ConnectionView {
    pub ip: Seq<char>,
    pub port: u16,
    pub nick: Seq<char>,
}

impl View for Connection {
    type V = ConnectionView;

    open spec fn view(&self) -> ConnectionView {
        ConnectionView { ip: self.ip@, port: self.port, nick: self.nick@ }
    }
}

pub open spec fn connection_view(c: Option<Connection>) -> Option<ConnectionView> {
    match c {
        Some(c) => Some(c@),
        None => None,
    }
}

/// Core application state.
pub struct ChatApp {
    pub mode: AppMode,
    pub login_tab: LoginTab,
    pub nick: String,
    pub server_ip: String,
    pub server_port: u16,
    pub local_server_port: u16,
    pub server_started: bool,
    pub online_users: Vec<String>,
    pub room_name: String,
    pub input_message: String,
    pub error_message: String,
    pub was_logged_out: bool,
    pub active_conversation: Conversation,
    pub dm_conversations: Vec<String>,
    conversation_messages: Vec<(Conversation, Vec<Line>)>,
    unread_dms: Vec<(String, usize)>,
}

/// What a [`ChatApp`] holds; the messages of each conversation and the unread counts of
/// direct conversations are maps.
pub struct ChatAppView {
    pub mode: AppMode,
    pub login_tab: LoginTab,
    pub nick: Seq<char>,
    pub server_ip: Seq<char>,
    pub server_port: u16,
    pub local_server_port: u16,
    pub server_started: bool,
    pub online_users: Seq<Seq<char>>,
    pub room_name: Seq<char>,
    pub input_message: Seq<char>,
    pub error_message: Seq<char>,
    pub was_logged_out: bool,
    pub active: ConversationView,
    pub dm_conversations: Seq<Seq<char>>,
    pub messages: Map<ConversationView, Seq<LineView>>,
    pub unread: Map<Seq<char>, usize>,
}

spec fn conv_entries(v: Seq<(Conversation, Vec<Line>)>) -> Seq<(ConversationView, Seq<LineView>)> {
    v.map_values(|e: (Conversation, Vec<Line>)| (e.0@, line3_views(e.1@)))
}

spec fn unread_entries(v: Seq<(String, usize)>) -> Seq<(Seq<char>, usize)> {
    v.map_values(|e: (String, usize)| (e.0@, e.1))
}

impl View for ChatApp {
    type V = ChatAppView;

    closed spec fn view(&self) -> ChatAppView {
        ChatAppView {
            mode: self.mode,
            login_tab: self.login_tab,
            nick: self.nick@,
            server_ip: self.server_ip@,
            server_port: self.server_port,
            local_server_port: self.local_server_port,
            server_started: self.server_started,
            online_users: views(self.online_users@),
            room_name: self.room_name@,
            input_message: self.input_message@,
            error_message: self.error_message@,
            was_logged_out: self.was_logged_out,
            active: self.active_conversation@,
            dm_conversations: views(self.dm_conversations@),
            messages: assoc_map(conv_entries(self.conversation_messages@)),
            unread: assoc_map(unread_entries(self.unread_dms@)),
        }
    }
}

// ---------------------------------------------------------------------------------------
// The model of the client
// ---------------------------------------------------------------------------------------
/// The messages of conversation `c` (none if it has none yet).
pub open spec fn msgs_of(m: Map<ConversationView, Seq<LineView>>, c: ConversationView) -> Seq<LineView> {
    if m.dom().contains(c) {
        m[c]
    } else {
        Seq::empty()
    }
}

/// The messages with `l` added at the end of conversation `c`.
pub open spec fn push_line(m: Map<ConversationView, Seq<LineView>>, c: ConversationView, l: LineView) -> Map<ConversationView, Seq<LineView>> {
    m.insert(c, msgs_of(m, c).push(l))
}

/// The unread count of the direct conversation with `u` (0 if none is recorded).
pub open spec fn unread_of(m: Map<Seq<char>, usize>, u: Seq<char>) -> usize {
    if m.dom().contains(u) {
        m[u]
    } else {
        0
    }
}

/// The first index at or after `i` where `x` stands in `s`.
pub open spec fn index_from(s: Seq<Seq<char>>, x: Seq<char>, i: int) -> Option<int>
    decreases s.len() - i,
{
    if i < 0 || i >= s.len() {
        None
    } else if s[i] == x {
        Some(i)
    } else {
        index_from(s, x, i + 1)
    }
}

/// `s` with the first `x` moved to the front.
pub open spec fn move_to_front(s: Seq<Seq<char>>, x: Seq<char>) -> Seq<Seq<char>> {
    match index_from(s, x, 0) {
        Some(i) => seq![x] + s.remove(i),
        None => s,
    }
}

/// `s` with `x` added at the end unless it is there already.
pub open spec fn add_if_absent(s: Seq<Seq<char>>, x: Seq<char>) -> Seq<Seq<char>> {
    if s.contains(x) {
        s
    } else {
        s.push(x)
    }
}

/// A chat line as the client displays it.
pub open spec fn display_line(l: ChatLineView) -> LineView {
    (l.from, l.body, l.timestamp)
}

/// The direct-message partner of a message between `from` and `to`, seen by `me`.
pub open spec fn dm_partner(me: Seq<char>, from: Seq<char>, to: Seq<char>) -> Seq<char> {
    if from == me {
        to
    } else {
        from
    }
}

/// What a server message does to the client state; `now` stamps the lines the client
/// adds itself.
pub open spec fn apply_server_msg_spec(a: ChatAppView, msg: ServerMsgView, now: Seq<char>) -> ChatAppView {
    match msg {
        ServerMsgView::Welcome { nick, room, .. } => ChatAppView {
            room_name: room,
            messages: push_line(
                a.messages,
                ConversationView::Group,
                ("System"@, "Welcome, "@ + nick + "!"@, now),
            ),
            ..a
        },
        ServerMsgView::Chat { from, body, timestamp } => ChatAppView {
            messages: push_line(a.messages, ConversationView::Group, (from, body, timestamp)),
            ..a
        },
        ServerMsgView::Dm { from, to, body, timestamp } => {
            let partner = dm_partner(a.nick, from, to);
            let conv = ConversationView::Dm(partner);
            ChatAppView {
                messages: push_line(a.messages, conv, (from, body, timestamp)),
                dm_conversations: move_to_front(add_if_absent(a.dm_conversations, partner), partner),
                unread: if a.active != conv {
                    a.unread.insert(partner, (unread_of(a.unread, partner) + 1) as usize)
                } else {
                    a.unread
                },
                ..a
            }
        },
        ServerMsgView::DmHistory { partner, messages } => ChatAppView {
            messages: a.messages.insert(
                ConversationView::Dm(partner),
                messages.map_values(|l: ChatLineView| display_line(l)),
            ),
            ..a
        },
        ServerMsgView::System { body } => ChatAppView {
            messages: push_line(a.messages, ConversationView::Group, ("System"@, body, now)),
            ..a
        },
        ServerMsgView::Presence { users, .. } => ChatAppView { online_users: users, ..a },
        ServerMsgView::History { messages } => ChatAppView {
            messages: a.messages.insert(
                ConversationView::Group,
                messages.map_values(|l: ChatLineView| display_line(l)),
            ),
            ..a
        },
        ServerMsgView::Error { body } => ChatAppView {
            messages: push_line(a.messages, ConversationView::Group, ("Error"@, body, now)),
            ..a
        },
    }
}

/// The unread count that a server message would raise, with its new value within bounds.
pub open spec fn unread_fits(a: ChatAppView, msg: ServerMsgView) -> bool {
    msg matches ServerMsgView::Dm { from, to, .. } ==> unread_of(a.unread, dm_partner(a.nick, from, to)) < usize::MAX
}

/// Sending the typed message: what the server is sent, and the state after the message is
/// shown locally with the time of day `now`.
pub open spec fn send_message_spec(a: ChatAppView, now: Seq<char>) -> (ChatAppView, Option<ClientMsgView>) {
    if a.input_message.len() == 0 {
        (a, None)
    } else {
        let msg = match a.active {
            ConversationView::Group => ClientMsgView::Chat { body: a.input_message },
            ConversationView::Dm(p) => ClientMsgView::Dm { to: p, body: a.input_message },
        };
        (
            ChatAppView {
                messages: push_line(a.messages, a.active, (a.nick, a.input_message, now)),
                dm_conversations: match a.active {
                    ConversationView::Dm(p) => add_if_absent(a.dm_conversations, p),
                    ConversationView::Group => a.dm_conversations,
                },
                input_message: Seq::empty(),
                ..a
            },
            Some(msg),
        )
    }
}

/// The state after logging out: back at the login screen, with no conversations.
pub open spec fn logout_spec(a: ChatAppView) -> ChatAppView {
    ChatAppView {
        messages: Map::empty(),
        online_users: Seq::empty(),
        input_message: Seq::empty(),
        dm_conversations: Seq::empty(),
        unread: Map::empty(),
        active: ConversationView::Group,
        mode: AppMode::Login,
        ..a
    }
}

/// The users of an `Online...: a, b, c` line: the comma-separated names, trimmed, without
/// empty ones.
pub open spec fn online_users_from(s: Seq<char>) -> Seq<Seq<char>> {
    crate::text::nonempty_trimmed(crate::text::split_on(s, ','))
}

/// What a plain-text line from the server does to the state; `lowered` is the line in
/// lower case and `now` the time of day.
pub open spec fn plain_text_spec(a: ChatAppView, msg: Seq<char>, lowered: Seq<char>, now: Seq<char>) -> ChatAppView {
    if is_prefix("Online"@, msg) {
        match first_char(msg, ':') {
            Some(i) => ChatAppView { online_users: online_users_from(msg.skip(i + 1)), ..a },
            None => a,
        }
    } else if first_match(lowered, "enter your handle"@) is Some {
        a
    } else {
        match first_match(msg, ": "@) {
            Some(i) => ChatAppView {
                messages: push_line(
                    a.messages,
                    ConversationView::Group,
                    (msg.take(i), msg.skip(i + ": "@.len()), now),
                ),
                ..a
            },
            None => a,
        }
    }
}

/// The state on entering the chat screen for a new connection.
pub open spec fn enter_chat_spec(a: ChatAppView) -> ChatAppView {
    ChatAppView {
        mode: AppMode::Chat,
        was_logged_out: false,
        active: ConversationView::Group,
        dm_conversations: Seq::empty(),
        messages: Map::empty(),
        unread: Map::empty(),
        online_users: a.online_users.push(a.nick),
        ..a
    }
}

/// The client's check of its own nick: 2 to 24 bytes, each a letter, a digit, `_` or `-`;
/// the verdict, and the state with the error message where it fails.
pub open spec fn validate_nick_spec(a: ChatAppView) -> (bool, ChatAppView) {
    let n = vstd::utf8::encode_utf8(a.nick).len();
    if n < 2 || n > 24 {
        (false, ChatAppView { error_message: "Nick must be 2-24 characters"@, ..a })
    } else if !crate::text::all_handle_chars(a.nick) {
        (false, ChatAppView { error_message: "Only letters, numbers, _ and - allowed"@, ..a })
    } else {
        (true, a)
    }
}

/// Joining an existing server from the connect tab.
pub open spec fn attempt_connect_spec(a: ChatAppView) -> (ChatAppView, Option<ConnectionView>) {
    let a1 = ChatAppView { error_message: Seq::empty(), ..a };
    let (ok, a2) = validate_nick_spec(a1);
    if !ok {
        (a2, None)
    } else if a2.server_ip.len() == 0 {
        (ChatAppView { error_message: "Enter server IP"@, ..a2 }, None)
    } else {
        (
            enter_chat_spec(a2),
            Some(ConnectionView { ip: a2.server_ip, port: a2.server_port, nick: a2.nick }),
        )
    }
}

/// Rejoining the server that this client started.
pub open spec fn attempt_rejoin_local_spec(a: ChatAppView) -> (ChatAppView, Option<ConnectionView>) {
    let (ok, a2) = validate_nick_spec(a);
    if !ok {
        (a2, None)
    } else {
        (
            enter_chat_spec(a2),
            Some(ConnectionView { ip: a2.server_ip, port: a2.local_server_port, nick: a2.nick }),
        )
    }
}

/// Starting a server on the local port and joining it.
pub open spec fn attempt_start_server_spec(a: ChatAppView) -> (ChatAppView, Option<ConnectionView>) {
    let (ok, a2) = validate_nick_spec(a);
    if !ok {
        (a2, None)
    } else if a2.server_ip.len() == 0 {
        (ChatAppView { error_message: "Enter server IP (use 127.0.0.1 for local)"@, ..a2 }, None)
    } else {
        let a3 = ChatAppView { server_started: true, ..a2 };
        (
            enter_chat_spec(a3),
            Some(ConnectionView { ip: a3.server_ip, port: a3.local_server_port, nick: a3.nick }),
        )
    }
}

/// What pressing the button of the server tab did.
#[derive(Debug)]
pub enum ServerButton {
    /// The local server was running: rejoin it (where the nick passes).
    Rejoin(Option<Connection>),
    /// The server was marked as stopped.
    Stop,
    /// Start a server on the local port and join it (where the form passes).
    Start(Option<Connection>),
}

/// What a [`ServerButton`] holds.
pub enum ServerButtonView {
    Rejoin(Option<ConnectionView>),
    Stop,
    Start(Option<ConnectionView>),
}

impl View for ServerButton {
    type V = ServerButtonView;

    open spec fn view(&self) -> ServerButtonView {
        match self {
            ServerButton::Rejoin(c) => ServerButtonView::Rejoin(connection_view(*c)),
            ServerButton::Stop => ServerButtonView::Stop,
            ServerButton::Start(c) => ServerButtonView::Start(connection_view(*c)),
        }
    }
}

/// The local server runs while the login screen shows.
pub open spec fn server_running(a: ChatAppView) -> bool {
    a.server_started && a.mode == AppMode::Login
}

/// Pressing the button of the server tab: rejoin a running local server, mark it stopped,
/// or start one.
pub open spec fn press_server_button_spec(a: ChatAppView) -> (ChatAppView, ServerButtonView) {
    let a1 = ChatAppView { error_message: Seq::empty(), ..a };
    if server_running(a) {
        let (a2, c) = attempt_rejoin_local_spec(a1);
        (a2, ServerButtonView::Rejoin(c))
    } else if a.server_started {
        (ChatAppView { server_started: false, ..a1 }, ServerButtonView::Stop)
    } else {
        let (a2, c) = attempt_start_server_spec(a1);
        (a2, ServerButtonView::Start(c))
    }
}

/// Clicking a user in the list opens the direct conversation with them (not with oneself).
pub open spec fn select_user_spec(a: ChatAppView, user: Seq<char>) -> ChatAppView {
    if user == a.nick {
        a
    } else {
        ChatAppView {
            dm_conversations: add_if_absent(a.dm_conversations, user),
            active: ConversationView::Dm(user),
            unread: a.unread.remove(user),
            ..a
        }
    }
}

/// How a sender's name is coloured.
#[derive(Debug, Clone, Copy, PartialEq, Eq, Structural)]
pub enum SenderStyle {
    System,
    Error,
    SelfName,
    Other,
}

/// The style of the sender `from` as seen by the user `me`.
pub open spec fn sender_style_spec(me: Seq<char>, from: Seq<char>) -> SenderStyle {
    if from == "System"@ {
        SenderStyle::System
    } else if from == "Error"@ {
        SenderStyle::Error
    } else if from == me {
        SenderStyle::SelfName
    } else {
        SenderStyle::Other
    }
}

/// The heading of the chat screen for the active conversation.
pub open spec fn conversation_title_spec(a: ChatAppView) -> Seq<char> {
    match a.active {
        ConversationView::Group => a.room_name,
        ConversationView::Dm(p) => "DM with "@ + p,
    }
}

/// The label of a direct conversation in the sidebar: the partner, with the unread count
/// where one is recorded.
pub open spec fn dm_label_spec(a: ChatAppView, user: Seq<char>) -> Seq<char> {
    if a.unread.dom().contains(user) {
        user + " ("@ + crate::text::decimal(a.unread[user] as nat) + ")"@
    } else {
        user
    }
}

/// The well-formedness of the client state: one entry per conversation and per partner.
pub open spec fn entries_wf(
    m: Seq<(ConversationView, Seq<LineView>)>,
    u: Seq<(Seq<char>, usize)>,
) -> bool {
    keys_unique(m) && keys_unique(u)
}

// ---------------------------------------------------------------------------------------
// Lemmas
// ---------------------------------------------------------------------------------------
pub proof fn lemma_index_from(s: Seq<Seq<char>>, x: Seq<char>, i: int)
    requires
        0 <= i,
    ensures
        index_from(s, x, i) matches Some(j) ==> i <= j < s.len() && s[j] == x && forall|k: int| i <= k < j ==> s[k] != x,
        index_from(s, x, i) is None ==> forall|k: int| i <= k < s.len() ==> s[k] != x,
    decreases s.len() - i,
{
    if i < s.len() && s[i] != x {
        lemma_index_from(s, x, i + 1);
    }
}

// ---------------------------------------------------------------------------------------
// Outside behaviour
// ---------------------------------------------------------------------------------------
/// What `str::to_lowercase` returns for a text: its Unicode lowercase mapping, which
/// depends on the text alone.
pub uninterp spec fn lowercase(s: Seq<char>) -> Seq<char>;

/// The text in lower case. Trusted: std's `str::to_lowercase`; the contract names the
/// result and says nothing of the Unicode mapping itself.
#[verifier::external_body]
fn to_lowercase(s: &str) -> (r: String)
    ensures
        r@ == lowercase(s@),
{
    s.to_lowercase()
}

// ---------------------------------------------------------------------------------------
// The client state
// ---------------------------------------------------------------------------------------
impl Default for ChatApp {
    fn default() -> (r: Self)
        ensures
            r.wf(),
            r@ == (ChatAppView {
                mode: AppMode::Login,
                login_tab: LoginTab::Connect,
                nick: Seq::empty(),
                server_ip: Seq::empty(),
                server_port: DEFAULT_PORT,
                local_server_port: DEFAULT_PORT,
                server_started: false,
                online_users: Seq::empty(),
                room_name: "Chat Room"@,
                input_message: Seq::empty(),
                error_message: Seq::empty(),
                was_logged_out: false,
                active: ConversationView::Group,
                dm_conversations: Seq::empty(),
                messages: Map::empty(),
                unread: Map::empty(),
            }),
    {
        let r = ChatApp {
            mode: AppMode::Login,
            login_tab: LoginTab::default(),
            nick: String::new(),
            server_ip: String::new(),
            server_port: DEFAULT_PORT,
            local_server_port: DEFAULT_PORT,
            server_started: false,
            online_users: Vec::new(),
            room_name: "Chat Room".to_owned(),
            input_message: String::new(),
            error_message: String::new(),
            was_logged_out: false,
            active_conversation: Conversation::Group,
            dm_conversations: Vec::new(),
            conversation_messages: Vec::new(),
            unread_dms: Vec::new(),
        };
        proof {
            assert(views(r.online_users@) =~= Seq::<Seq<char>>::empty());
            assert(views(r.dm_conversations@) =~= Seq::<Seq<char>>::empty());
            assert(conv_entries(r.conversation_messages@) =~= Seq::<(ConversationView, Seq<LineView>)>::empty());
            assert(unread_entries(r.unread_dms@) =~= Seq::<(Seq<char>, usize)>::empty());
            assert(r@.messages =~= Map::<ConversationView, Seq<LineView>>::empty());
            assert(r@.unread =~= Map::<Seq<char>, usize>::empty());
        }
        r
    }
}

impl ChatApp {
    /// One entry per conversation and per direct-message partner.
    pub closed spec fn wf(&self) -> bool {
        entries_wf(conv_entries(self.conversation_messages@), unread_entries(self.unread_dms@))
    }

    fn conv_index(&self, c: &Conversation) -> (r: Option<usize>)
        ensures
            match r {
                Some(i) => i < self.conversation_messages@.len() && conv_entries(self.conversation_messages@)[i as int].0 == c@,
                None => forall|i: int| 0 <= i < self.conversation_messages@.len() ==> (#[trigger] conv_entries(self.conversation_messages@)[i]).0 != c@,
            },
    {
        let mut i: usize = 0;
        while i < self.conversation_messages.len()
            invariant
                i <= self.conversation_messages@.len(),
                forall|k: int| 0 <= k < i ==> (#[trigger] conv_entries(self.conversation_messages@)[k]).0 != c@,
            decreases self.conversation_messages@.len() - i,
        {
            if self.conversation_messages[i].0.same_as(c) {
                return Some(i);
            }
            i = i + 1;
        }
        None
    }

    /// Adds `l` at the end of conversation `c`.
    fn push_line_to(&mut self, c: Conversation, l: Line)
        requires
            old(self).wf(),
        ensures
            final(self).wf(),
            final(self)@ == (ChatAppView { messages: push_line(old(self)@.messages, c@, line_view(l)), ..old(self)@ }),
    {
        let ghost es = conv_entries(self.conversation_messages@);
        let ghost lv = line_view(l);
        proof {
            lemma_assoc_map(es);
        }
        match self.conv_index(&c) {
            Some(i) => {
                let (k, mut ls) = self.conversation_messages.remove(i);
                let ghost before = ls@;
                ls.push(l);
                proof {
                    assert(line3_views(ls@) =~= line3_views(before).push(lv));
                }
                self.conversation_messages.insert(i, (k, ls));
                proof {
                    assert(conv_entries(self.conversation_messages@) =~= es.update(i as int, (es[i as int].0, es[i as int].1.push(lv))));
                    lemma_assoc_update(es, i as int, es[i as int].1.push(lv));
                }
            },
            None => {
                let mut ls: Vec<Line> = Vec::new();
                ls.push(l);
                proof {
                    assert(line3_views(ls@) =~= seq![lv]);
                    lemma_assoc_absent(es, c@);
                    assert(msgs_of(assoc_map(es), c@).push(lv) =~= seq![lv]);
                    lemma_assoc_push(es, c@, seq![lv]);
                }
                let ghost cv = c@;
                self.conversation_messages.push((c, ls));
                proof {
                    assert(conv_entries(self.conversation_messages@) =~= es.push((cv, seq![lv])));
                }
            },
        }
    }

    /// Replaces the messages of conversation `c` with `ls`.
    fn set_lines(&mut self, c: Conversation, ls: Vec<Line>)
        requires
            old(self).wf(),
        ensures
            final(self).wf(),
            final(self)@ == (ChatAppView { messages: old(self)@.messages.insert(c@, line3_views(ls@)), ..old(self)@ }),
    {
        let ghost es = conv_entries(self.conversation_messages@);
        let ghost lv = line3_views(ls@);
        proof {
            lemma_assoc_map(es);
        }
        match self.conv_index(&c) {
            Some(i) => {
                let (k, _old) = self.conversation_messages.remove(i);
                self.conversation_messages.insert(i, (k, ls));
                proof {
                    assert(conv_entries(self.conversation_messages@) =~= es.update(i as int, (es[i as int].0, lv)));
                    lemma_assoc_update(es, i as int, lv);
                }
            },
            None => {
                proof {
                    lemma_assoc_absent(es, c@);
                    lemma_assoc_push(es, c@, lv);
                }
                let ghost cv = c@;
                self.conversation_messages.push((c, ls));
                proof {
                    assert(conv_entries(self.conversation_messages@) =~= es.push((cv, lv)));
                }
            },
        }
    }

    fn unread_index(&self, u: &str) -> (r: Option<usize>)
        ensures
            match r {
                Some(i) => i < self.unread_dms@.len() && unread_entries(self.unread_dms@)[i as int].0 == u@,
                None => forall|i: int| 0 <= i < self.unread_dms@.len() ==> (#[trigger] unread_entries(self.unread_dms@)[i]).0 != u@,
            },
    {
        let mut i: usize = 0;
        while i < self.unread_dms.len()
            invariant
                i <= self.unread_dms@.len(),
                forall|k: int| 0 <= k < i ==> (#[trigger] unread_entries(self.unread_dms@)[k]).0 != u@,
            decreases self.unread_dms@.len() - i,
        {
            if str_eq(self.unread_dms[i].0.as_str(), u) {
                return Some(i);
            }
            i = i + 1;
        }
        None
    }

    /// The unread count of the direct conversation with `user`, if one is recorded.
    pub fn unread_count(&self, user: &str) -> (r: Option<usize>)
        requires
            self.wf(),
        ensures
            r == (if self@.unread.dom().contains(user@) {
                Some(self@.unread[user@])
            } else {
                None
            }),
    {
        let ghost es = unread_entries(self.unread_dms@);
        proof {
            lemma_assoc_map(es);
        }
        match self.unread_index(user) {
            Some(i) => Some(self.unread_dms[i].1),
            None => {
                proof {
                    lemma_assoc_absent(es, user@);
                }
                None
            },
        }
    }

    /// Counts one more unread message from `user`.
    fn bump_unread(&mut self, user: &str)
        requires
            old(self).wf(),
            unread_of(old(self)@.unread, user@) < usize::MAX,
        ensures
            final(self).wf(),
            final(self)@ == (ChatAppView {
                unread: old(self)@.unread.insert(user@, (unread_of(old(self)@.unread, user@) + 1) as usize),
                ..old(self)@
            }),
    {
        let ghost es = unread_entries(self.unread_dms@);
        proof {
            lemma_assoc_map(es);
        }
        match self.unread_index(user) {
            Some(i) => {
                let (k, n) = self.unread_dms.remove(i);
                self.unread_dms.insert(i, (k, n + 1));
                proof {
                    assert(unread_entries(self.unread_dms@) =~= es.update(i as int, (es[i as int].0, (n + 1) as usize)));
                    lemma_assoc_update(es, i as int, (n + 1) as usize);
                }
            },
            None => {
                proof {
                    lemma_assoc_absent(es, user@);
                    lemma_assoc_push(es, user@, 1usize);
                }
                self.unread_dms.push((user.to_owned(), 1));
                proof {
                    assert(unread_entries(self.unread_dms@) =~= es.push((user@, 1usize)));
                }
            },
        }
    }

    /// Forgets the unread count of `user`.
    fn remove_unread(&mut self, user: &str)
        requires
            old(self).wf(),
        ensures
            final(self).wf(),
            final(self)@ == (ChatAppView { unread: old(self)@.unread.remove(user@), ..old(self)@ }),
    {
        let ghost es = unread_entries(self.unread_dms@);
        proof {
            lemma_assoc_map(es);
        }
        match self.unread_index(user) {
            Some(i) => {
                self.unread_dms.remove(i);
                proof {
                    assert(unread_entries(self.unread_dms@) =~= es.remove(i as int));
                    lemma_assoc_remove(es, i as int);
                }
            },
            None => {
                proof {
                    lemma_assoc_absent(es, user@);
                    assert(assoc_map(es).remove(user@) =~= assoc_map(es));
                }
            },
        }
    }

    /// Where `user` stands in the list of direct conversations.
    fn dm_index(&self, user: &str) -> (r: Option<usize>)
        ensures
            match r {
                Some(i) => index_from(self@.dm_conversations, user@, 0) == Some(i as int),
                None => index_from(self@.dm_conversations, user@, 0) is None,
            },
    {
        let ghost ds = self@.dm_conversations;
        let mut i: usize = 0;
        while i < self.dm_conversations.len()
            invariant
                ds == views(self.dm_conversations@),
                i <= ds.len(),
                index_from(ds, user@, 0) == index_from(ds, user@, i as int),
            decreases ds.len() - i,
        {
            if str_eq(self.dm_conversations[i].as_str(), user) {
                return Some(i);
            }
            i = i + 1;
        }
        None
    }

    /// Adds `user` to the direct conversations unless it is there already.
    fn add_dm_conversation(&mut self, user: &str)
        requires
            old(self).wf(),
        ensures
            final(self).wf(),
            final(self)@ == (ChatAppView { dm_conversations: add_if_absent(old(self)@.dm_conversations, user@), ..old(self)@ }),
    {
        let ghost ds = self@.dm_conversations;
        proof {
            lemma_index_from(ds, user@, 0);
        }
        if self.dm_index(user).is_none() {
            proof {
                assert(!ds.contains(user@));
            }
            self.dm_conversations.push(user.to_owned());
            proof {
                assert(views(self.dm_conversations@) =~= ds.push(user@));
            }
        } else {
            proof {
                let j = index_from(ds, user@, 0).unwrap();
                assert(ds[j] == user@);
            }
        }
    }

    /// Adds a line from `from` to the group conversation, stamped `now`.
    fn push_group_msg(&mut self, from: &str, body: &str, now: &str)
        requires
            old(self).wf(),
        ensures
            final(self).wf(),
            final(self)@ == (ChatAppView {
                messages: push_line(old(self)@.messages, ConversationView::Group, (from@, body@, now@)),
                ..old(self)@
            }),
    {
        self.push_line_to(Conversation::Group, (from.to_owned(), body.to_owned(), now.to_owned()));
    }

    /// The chat lines as the client displays them.
    fn display_lines(messages: &Vec<ChatLine>) -> (r: Vec<Line>)
        ensures
            line3_views(r@) == line_views(messages@).map_values(|l: ChatLineView| display_line(l)),
    {
        let ghost target = line_views(messages@).map_values(|l: ChatLineView| display_line(l));
        let mut r: Vec<Line> = Vec::new();
        let mut i: usize = 0;
        while i < messages.len()
            invariant
                i <= messages@.len(),
                target == line_views(messages@).map_values(|l: ChatLineView| display_line(l)),
                line3_views(r@) == target.take(i as int),
            decreases messages@.len() - i,
        {
            let m = &messages[i];
            let l: Line = (m.from.clone(), m.body.clone(), m.timestamp.clone());
            let ghost before = r@;
            r.push(l);
            proof {
                assert(line3_views(r@) =~= line3_views(before).push(line_view(l)));
                assert(target.take(i + 1) =~= target.take(i as int).push(target[i as int]));
            }
            i = i + 1;
        }
        proof {
            assert(target.take(i as int) =~= target);
        }
        r
    }

    /// Processes an incoming server message, stamping the lines the client adds itself with
    /// `now`.
    pub fn apply_server_msg(&mut self, msg: ServerMsg, now: &str)
        requires
            old(self).wf(),
            unread_fits(old(self)@, msg@),
        ensures
            final(self).wf(),
            final(self)@ == apply_server_msg_spec(old(self)@, msg@, now@),
    {
        let ghost a = self@;
        let ghost mv = msg@;
        match msg {
            ServerMsg::Welcome { nick, room, .. } => {
                self.room_name = room;
                let mut body = "Welcome, ".to_owned();
                push_str(&mut body, nick.as_str());
                push_str(&mut body, "!");
                self.push_group_msg("System", body.as_str(), now);
            },
            ServerMsg::Chat { from, body, timestamp } => {
                self.push_line_to(Conversation::Group, (from, body, timestamp));
            },
            ServerMsg::Dm { from, to, body, timestamp } => {
                let partner = if str_eq(from.as_str(), self.nick.as_str()) {
                    to
                } else {
                    from.clone()
                };
                let conv = Conversation::Dm(partner.clone());
                self.push_line_to(conv.duplicate(), (from, body, timestamp));
                self.add_dm_conversation(partner.as_str());
                if !self.active_conversation.same_as(&conv) {
                    self.bump_unread(partner.as_str());
                }
                let ghost ds = self@.dm_conversations;
                proof {
                    lemma_index_from(ds, partner@, 0);
                }
                match self.dm_index(partner.as_str()) {
                    Some(pos) => {
                        self.dm_conversations.remove(pos);
                        self.dm_conversations.insert(0, partner);
                        proof {
                            assert(views(self.dm_conversations@) =~= seq![partner@] + ds.remove(pos as int));
                        }
                    },
                    None => {},
                }
            },
            ServerMsg::DmHistory { partner, messages } => {
                let msgs = Self::display_lines(&messages);
                self.set_lines(Conversation::Dm(partner), msgs);
            },
            ServerMsg::System { body } => {
                self.push_group_msg("System", body.as_str(), now);
            },
            ServerMsg::Presence { users, .. } => {
                self.online_users = users;
            },
            ServerMsg::History { messages } => {
                let msgs = Self::display_lines(&messages);
                self.set_lines(Conversation::Group, msgs);
            },
            ServerMsg::Error { body } => {
                self.push_group_msg("Error", body.as_str(), now);
            },
        }
        proof {
            assert(self@ == apply_server_msg_spec(a, mv, now@));
        }
    }

    /// Processes an incoming server message, stamping the lines the client adds itself with
    /// the current time of day.
    pub fn handle_server_msg(&mut self, msg: ServerMsg)
        requires
            old(self).wf(),
            unread_fits(old(self)@, msg@),
        ensures
            final(self).wf(),
            exists|secs: u64| final(self)@ == apply_server_msg_spec(old(self)@, msg@, crate::clock::hms(secs as nat)),
    {
        let now = now_hms();
        let ghost secs = choose|secs: u64| now@ == crate::clock::hms(secs as nat);
        self.apply_server_msg(msg, now.as_str());
    }

    /// Processes a plain-text line from the server: `lowered` is the line in lower case,
    /// `now` stamps a displayed line.
    pub fn handle_plain_text_at(&mut self, msg: &str, lowered: &str, now: &str)
        requires
            old(self).wf(),
        ensures
            final(self).wf(),
            final(self)@ == plain_text_spec(old(self)@, msg@, lowered@, now@),
    {
        let cs = chars_of(msg);
        let online = chars_of("Online");
        let prompt = chars_of("enter your handle");
        let sep = chars_of(": ");
        let low = chars_of(lowered);
        if crate::text::starts_with(cs.as_slice(), online.as_slice()) {
            match crate::text::find_char(cs.as_slice(), ':') {
                Some(i) => {
                    proof {
                        crate::text::lemma_find_from_bounds(cs@, seq![':'], 0);
                        assert(crate::text::occurs_at(cs@, seq![':'], i as int));
                        assert(i + 1 <= cs@.len());
                    }
                    assert(i < cs.len());
                    let tail = string_of_range(cs.as_slice(), i + 1, cs.len());
                    let tc = chars_of(tail.as_str());
                    proof {
                        assert(tc@ =~= msg@.skip(i + 1));
                    }
                    self.online_users = crate::text::split_trimmed_nonempty(tc.as_slice(), ',');
                },
                None => {},
            }
        } else if crate::text::find(low.as_slice(), prompt.as_slice()).is_some() {
        } else {
            match crate::text::find(cs.as_slice(), sep.as_slice()) {
                Some(i) => {
                    proof {
                        crate::text::lemma_find_from_bounds(cs@, sep@, 0);
                        assert(crate::text::occurs_at(cs@, sep@, i as int));
                        assert(i + sep@.len() <= cs@.len());
                    }
                    assert(i + sep.len() <= cs.len());
                    let from = string_of_range(cs.as_slice(), 0, i);
                    let body = string_of_range(cs.as_slice(), i + sep.len(), cs.len());
                    proof {
                        assert(from@ =~= msg@.take(i as int));
                        assert(body@ =~= msg@.skip(i + ": "@.len()));
                    }
                    self.push_group_msg(from.as_str(), body.as_str(), now);
                },
                None => {},
            }
        }
    }

    /// Fallback handler for plain text messages from server.
    pub fn handle_plain_text(&mut self, msg: &str)
        requires
            old(self).wf(),
        ensures
            final(self).wf(),
            exists|secs: u64| final(self)@ == plain_text_spec(old(self)@, msg@, lowercase(msg@), crate::clock::hms(secs as nat)),
    {
        let lowered = to_lowercase(msg);
        let now = now_hms();
        let ghost secs = choose|secs: u64| now@ == crate::clock::hms(secs as nat);
        self.handle_plain_text_at(msg, lowered.as_str(), now.as_str());
    }

    /// Takes the typed message for sending: returns what to send to the server, and shows
    /// the message locally, stamped `now`.
    pub fn send_message_at(&mut self, now: &str) -> (r: Option<ClientMsg>)
        requires
            old(self).wf(),
        ensures
            final(self).wf(),
            (final(self)@, match r { Some(m) => Some(m@), None => None }) == send_message_spec(old(self)@, now@),
    {
        if self.input_message.as_str().is_empty() {
            return None;
        }
        let msg = match &self.active_conversation {
            Conversation::Group => ClientMsg::Chat { body: self.input_message.clone() },
            Conversation::Dm(partner) => ClientMsg::Dm {
                to: partner.clone(),
                body: self.input_message.clone(),
            },
        };
        let from = self.nick.clone();
        let body = self.input_message.clone();
        let conv = self.active_conversation.duplicate();
        self.push_line_to(conv, (from, body, now.to_owned()));
        match &self.active_conversation {
            Conversation::Dm(partner) => {
                let p = partner.clone();
                self.add_dm_conversation(p.as_str());
            },
            Conversation::Group => {},
        }
        self.input_message = String::new();
        Some(msg)
    }

    /// Takes the typed message for sending, shown locally with the current time of day.
    pub fn send_message(&mut self) -> (r: Option<ClientMsg>)
        requires
            old(self).wf(),
        ensures
            final(self).wf(),
            exists|secs: u64| (final(self)@, match r { Some(m) => Some(m@), None => None })
                == send_message_spec(old(self)@, crate::clock::hms(secs as nat)),
    {
        let now = now_hms();
        let ghost secs = choose|secs: u64| now@ == crate::clock::hms(secs as nat);
        self.send_message_at(now.as_str())
    }

    /// Returns to the login screen, forgetting the conversations.
    pub fn logout(&mut self)
        requires
            old(self).wf(),
        ensures
            final(self).wf(),
            final(self)@ == logout_spec(old(self)@),
    {
        self.conversation_messages = Vec::new();
        self.online_users = Vec::new();
        self.input_message = String::new();
        self.dm_conversations = Vec::new();
        self.unread_dms = Vec::new();
        self.active_conversation = Conversation::Group;
        self.mode = AppMode::Login;
        proof {
            assert(views(self.online_users@) =~= Seq::<Seq<char>>::empty());
            assert(views(self.dm_conversations@) =~= Seq::<Seq<char>>::empty());
            assert(conv_entries(self.conversation_messages@) =~= Seq::<(ConversationView, Seq<LineView>)>::empty());
            assert(unread_entries(self.unread_dms@) =~= Seq::<(Seq<char>, usize)>::empty());
            assert(self@.messages =~= Map::<ConversationView, Seq<LineView>>::empty());
            assert(self@.unread =~= Map::<Seq<char>, usize>::empty());
            assert(self@ == logout_spec(old(self)@));
        }
    }

    /// Enters the chat screen for a new connection to `ip:port`; returns where to connect.
    pub fn start_client_connection(&mut self, ip: String, port: u16) -> (r: Connection)
        requires
            old(self).wf(),
        ensures
            final(self).wf(),
            final(self)@ == enter_chat_spec(old(self)@),
            r@ == (ConnectionView { ip: ip@, port, nick: old(self)@.nick }),
    {
        let nick = self.nick.clone();
        self.mode = AppMode::Chat;
        self.was_logged_out = false;
        self.active_conversation = Conversation::Group;
        self.dm_conversations = Vec::new();
        self.conversation_messages = Vec::new();
        self.unread_dms = Vec::new();
        let ghost users = views(self.online_users@);
        self.online_users.push(self.nick.clone());
        proof {
            assert(views(self.online_users@) =~= users.push(self.nick@));
            assert(views(self.dm_conversations@) =~= Seq::<Seq<char>>::empty());
            assert(conv_entries(self.conversation_messages@) =~= Seq::<(ConversationView, Seq<LineView>)>::empty());
            assert(unread_entries(self.unread_dms@) =~= Seq::<(Seq<char>, usize)>::empty());
            assert(self@.messages =~= Map::<ConversationView, Seq<LineView>>::empty());
            assert(self@.unread =~= Map::<Seq<char>, usize>::empty());
            assert(self@ == enter_chat_spec(old(self)@));
        }
        Connection { ip, port, nick }
    }

    /// Checks the nick before connecting; sets the error message where it fails.
    pub fn validate_nick(&mut self) -> (r: bool)
        requires
            old(self).wf(),
        ensures
            final(self).wf(),
            (r, final(self)@) == validate_nick_spec(old(self)@),
    {
        let n = self.nick.as_str().as_bytes().len();
        if n < 2 || n > 24 {
            self.error_message = "Nick must be 2-24 characters".to_owned();
            return false;
        }
        let cs = chars_of(self.nick.as_str());
        let mut i: usize = 0;
        while i < cs.len()
            invariant
                cs@ == self.nick@,
                i <= cs@.len(),
                self.wf(),
                self@ == old(self)@,
                2 <= vstd::utf8::encode_utf8(self.nick@).len() <= 24,
                forall|k: int| 0 <= k < i ==> crate::text::is_handle_char(#[trigger] cs@[k]),
            decreases cs@.len() - i,
        {
            if !crate::text::is_handle_char_exec(cs[i]) {
                self.error_message = "Only letters, numbers, _ and - allowed".to_owned();
                return false;
            }
            i = i + 1;
        }
        true
    }

    /// Joining an existing server from the connect tab; returns where to connect, if the
    /// form passes.
    pub fn attempt_connect(&mut self) -> (r: Option<Connection>)
        requires
            old(self).wf(),
        ensures
            final(self).wf(),
            (final(self)@, connection_view(r)) == attempt_connect_spec(old(self)@),
    {
        self.error_message = String::new();
        if !self.validate_nick() {
            return None;
        }
        if self.server_ip.as_str().is_empty() {
            self.error_message = "Enter server IP".to_owned();
            return None;
        }
        let ip = self.server_ip.clone();
        let port = self.server_port;
        Some(self.start_client_connection(ip, port))
    }

    /// Rejoining the server that this client started; returns where to connect, if the
    /// nick passes.
    pub fn attempt_rejoin_local(&mut self) -> (r: Option<Connection>)
        requires
            old(self).wf(),
        ensures
            final(self).wf(),
            (final(self)@, connection_view(r)) == attempt_rejoin_local_spec(old(self)@),
    {
        if !self.validate_nick() {
            return None;
        }
        let ip = self.server_ip.clone();
        let port = self.local_server_port;
        Some(self.start_client_connection(ip, port))
    }

    /// Starting a server on the local port and joining it; returns where to connect (the
    /// server's port), if the form passes. The caller starts the server first.
    pub fn attempt_start_server(&mut self) -> (r: Option<Connection>)
        requires
            old(self).wf(),
        ensures
            final(self).wf(),
            (final(self)@, connection_view(r)) == attempt_start_server_spec(old(self)@),
    {
        if !self.validate_nick() {
            return None;
        }
        if self.server_ip.as_str().is_empty() {
            self.error_message = "Enter server IP (use 127.0.0.1 for local)".to_owned();
            return None;
        }
        self.server_started = true;
        let ip = self.server_ip.clone();
        let port = self.local_server_port;
        Some(self.start_client_connection(ip, port))
    }

    /// Pressing the button of the server tab.
    pub fn press_server_button(&mut self) -> (r: ServerButton)
        requires
            old(self).wf(),
        ensures
            final(self).wf(),
            (final(self)@, r@) == press_server_button_spec(old(self)@),
    {
        let running = self.server_started && self.mode == AppMode::Login;
        self.error_message = String::new();
        if running {
            ServerButton::Rejoin(self.attempt_rejoin_local())
        } else if self.server_started {
            self.server_started = false;
            ServerButton::Stop
        } else {
            ServerButton::Start(self.attempt_start_server())
        }
    }

    /// Clicking `user` in the list of online users.
    pub fn select_user(&mut self, user: &str)
        requires
            old(self).wf(),
        ensures
            final(self).wf(),
            final(self)@ == select_user_spec(old(self)@, user@),
    {
        if str_eq(user, self.nick.as_str()) {
            return;
        }
        self.add_dm_conversation(user);
        self.active_conversation = Conversation::Dm(user.to_owned());
        self.remove_unread(user);
    }

    /// Clicking the direct conversation with `user` in the sidebar.
    pub fn select_dm(&mut self, user: &str)
        requires
            old(self).wf(),
        ensures
            final(self).wf(),
            final(self)@ == (ChatAppView {
                active: ConversationView::Dm(user@),
                unread: old(self)@.unread.remove(user@),
                ..old(self)@
            }),
    {
        self.active_conversation = Conversation::Dm(user.to_owned());
        self.remove_unread(user);
    }

    /// The heading of the chat screen.
    pub fn conversation_title(&self) -> (r: String)
        ensures
            r@ == conversation_title_spec(self@),
    {
        match &self.active_conversation {
            Conversation::Group => self.room_name.clone(),
            Conversation::Dm(partner) => {
                let mut r = "DM with ".to_owned();
                push_str(&mut r, partner.as_str());
                r
            },
        }
    }

    /// The label of the direct conversation with `user` in the sidebar.
    pub fn dm_label(&self, user: &str) -> (r: String)
        requires
            self.wf(),
        ensures
            r@ == dm_label_spec(self@, user@),
    {
        match self.unread_count(user) {
            Some(count) => {
                let mut r = user.to_owned();
                push_str(&mut r, " (");
                let n = crate::text::decimal_string(count as u64);
                push_str(&mut r, n.as_str());
                push_str(&mut r, ")");
                r
            },
            None => user.to_owned(),
        }
    }

    /// How the sender `from` is coloured.
    pub fn sender_style(&self, from: &str) -> (r: SenderStyle)
        ensures
            r == sender_style_spec(self@.nick, from@),
    {
        if str_eq(from, "System") {
            SenderStyle::System
        } else if str_eq(from, "Error") {
            SenderStyle::Error
        } else if str_eq(from, self.nick.as_str()) {
            SenderStyle::SelfName
        } else {
            SenderStyle::Other
        }
    }

    /// The messages of the active conversation.
    pub fn active_messages(&self) -> (r: Vec<Line>)
        requires
            self.wf(),
        ensures
            line3_views(r@) == msgs_of(self@.messages, self@.active),
    {
        let ghost es = conv_entries(self.conversation_messages@);
        proof {
            lemma_assoc_map(es);
        }
        let mut r: Vec<Line> = Vec::new();
        match self.conv_index(&self.active_conversation) {
            Some(ci) => {
                let ls = &self.conversation_messages[ci].1;
                let mut i: usize = 0;
                while i < ls.len()
                    invariant
                        i <= ls@.len(),
                        line3_views(r@) == line3_views(ls@.take(i as int)),
                    decreases ls@.len() - i,
                {
                    let l = &ls[i];
                    let c: Line = (l.0.clone(), l.1.clone(), l.2.clone());
                    let ghost before = r@;
                    r.push(c);
                    proof {
                        assert(line3_views(r@) =~= line3_views(before).push(line_view(c)));
                        assert(ls@.take(i + 1) =~= ls@.take(i as int).push(ls@[i as int]));
                        assert(line3_views(ls@.take(i + 1)) =~= line3_views(ls@.take(i as int)).push(line_view(ls@[i as int])));
                    }
                    i = i + 1;
                }
                proof {
                    assert(ls@.take(i as int) =~= ls@);
                }
            },
            None => {
                proof {
                    lemma_assoc_absent(es, self@.active);
                    assert(line3_views(r@) =~= Seq::<LineView>::empty());
                }
            },
        }
        r
    }
}

} // verus!
