//! The messages that clients and the server exchange.

use vstd::prelude::*;

use crate::text::views;

verus! {

/// A single chat message with sender, body, and timestamp.
#[derive(Debug, Clone, PartialEq, Eq)]
pub struct ChatLine {
    pub from: String,
    pub body: String,
    pub timestamp: String,
}

/// What a [`ChatLine`] holds, as character sequences.
#[verifier::ext_equal]
pub struct ChatLineView {
    pub from: Seq<char>,
    pub body: Seq<char>,
    pub timestamp: Seq<char>,
}

impl View for ChatLine {
    type V = ChatLineView;

    open spec fn view(&self) -> ChatLineView {
        ChatLineView { from: self.from@, body: self.body@, timestamp: self.timestamp@ }
    }
}

/// The views of a sequence of chat lines.
pub open spec fn line_views(v: Seq<ChatLine>) -> Seq<ChatLineView> {
    v.map_values(|l: ChatLine| l@)
}

impl ChatLine {
    /// A copy of this line.
    pub fn duplicate(&self) -> (r: ChatLine)
        ensures
            r == *self,
            r@ == self@,
    {
        ChatLine { from: self.from.clone(), body: self.body.clone(), timestamp: self.timestamp.clone() }
    }
}

/// Messages sent from client to server.
#[derive(Debug, Clone, PartialEq, Eq)]
pub enum ClientMsg {
    Hello { nick: String },
    Chat { body: String },
    Dm { to: String, body: String },
    GetDmHistory { partner: String },
    Who,
    Quit,
}

/// What a [`ClientMsg`] holds, as character sequences.
pub enum ClientMsgView {
    Hello { nick: Seq<char> },
    Chat { body: Seq<char> },
    Dm { to: Seq<char>, body: Seq<char> },
    GetDmHistory { partner: Seq<char> },
    Who,
    Quit,
}

impl View for ClientMsg {
    type V = ClientMsgView;

    open spec fn view(&self) -> ClientMsgView {
        match self {
            ClientMsg::Hello { nick } => ClientMsgView::Hello { nick: nick@ },
            ClientMsg::Chat { body } => ClientMsgView::Chat { body: body@ },
            ClientMsg::Dm { to, body } => ClientMsgView::Dm { to: to@, body: body@ },
            ClientMsg::GetDmHistory { partner } => ClientMsgView::GetDmHistory { partner: partner@ },
            ClientMsg::Who => ClientMsgView::Who,
            ClientMsg::Quit => ClientMsgView::Quit,
        }
    }
}

/// Messages sent from server to client.
#[derive(Debug, Clone, PartialEq, Eq)]
pub enum ServerMsg {
    Welcome { nick: String, room: String, online: usize },
    System { body: String },
    Chat { from: String, body: String, timestamp: String },
    Dm { from: String, to: String, body: String, timestamp: String },
    Presence { online: usize, users: Vec<String> },
    History { messages: Vec<ChatLine> },
    DmHistory { partner: String, messages: Vec<ChatLine> },
    Error { body: String },
}

/// What a [`ServerMsg`] holds, as character sequences.
pub enum ServerMsgView {
    Welcome { nick: Seq<char>, room: Seq<char>, online: usize },
    System { body: Seq<char> },
    Chat { from: Seq<char>, body: Seq<char>, timestamp: Seq<char> },
    Dm { from: Seq<char>, to: Seq<char>, body: Seq<char>, timestamp: Seq<char> },
    Presence { online: usize, users: Seq<Seq<char>> },
    History { messages: Seq<ChatLineView> },
    DmHistory { partner: Seq<char>, messages: Seq<ChatLineView> },
    Error { body: Seq<char> },
}

impl View for ServerMsg {
    type V = ServerMsgView;

    open spec fn view(&self) -> ServerMsgView {
        match self {
            ServerMsg::Welcome { nick, room, online } => ServerMsgView::Welcome {
                nick: nick@,
                room: room@,
                online: *online,
            },
            ServerMsg::System { body } => ServerMsgView::System { body: body@ },
            ServerMsg::Chat { from, body, timestamp } => ServerMsgView::Chat {
                from: from@,
                body: body@,
                timestamp: timestamp@,
            },
            ServerMsg::Dm { from, to, body, timestamp } => ServerMsgView::Dm {
                from: from@,
                to: to@,
                body: body@,
                timestamp: timestamp@,
            },
            ServerMsg::Presence { online, users } => ServerMsgView::Presence {
                online: *online,
                users: views(users@),
            },
            ServerMsg::History { messages } => ServerMsgView::History {
                messages: line_views(messages@),
            },
            ServerMsg::DmHistory { partner, messages } => ServerMsgView::DmHistory {
                partner: partner@,
                messages: line_views(messages@),
            },
            ServerMsg::Error { body } => ServerMsgView::Error { body: body@ },
        }
    }
}

} // verus!
