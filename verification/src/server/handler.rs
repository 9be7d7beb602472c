//! Routing of client input to state commands.
//!
//! A connection handler reads lines from its client. A line that starts with `{` is a JSON
//! [`ClientMsg`]; any other line is plain text (telnet/nc clients). Each turns into one
//! [`Action`]: a command for the state, or an identification whose reply decides what
//! follows ([`after_identify`]).

use vstd::prelude::*;

use crate::protocol::{ClientMsg, ClientMsgView};
use crate::server::state::{ClientMode, IdentifyOk, SessionId, StateCmd, StateCmdView, result_view};
use crate::text::{
    chars_of, find_char, first_char, is_prefix, starts_with, str_eq, string_of_range,
    trim, trim_str,
};

verus! {

/// What a connection handler does with one line of input.
#[derive(Debug)]
pub enum Action {
    /// Send this command to the state.
    Send(StateCmd),
    /// Ask the state to identify the session as `nick`; [`after_identify`] says what to do
    /// with the reply. `chat_if_identified`: the line is a chat message where the session
    /// has identified already.
    Identify { nick: String, mode: ClientMode, chat_if_identified: bool },
}

/// What an [`Action`] holds.
pub enum ActionView {
    Send(StateCmdView),
    Identify { nick: Seq<char>, mode: ClientMode, chat_if_identified: bool },
}

impl View for Action {
    type V = ActionView;

    open spec fn view(&self) -> ActionView {
        match self {
            Action::Send(cmd) => ActionView::Send(cmd@),
            Action::Identify { nick, mode, chat_if_identified } => ActionView::Identify {
                nick: nick@,
                mode: *mode,
                chat_if_identified: *chat_if_identified,
            },
        }
    }
}

/// A line that starts with `{` is read as a JSON message.
pub open spec fn is_json_spec(line: Seq<char>) -> bool {
    line.len() > 0 && line[0] == '{'
}

/// What a JSON message from session `id` asks of the state.
pub open spec fn dispatch_spec(id: SessionId, msg: ClientMsgView) -> ActionView {
    match msg {
        ClientMsgView::Hello { nick } => ActionView::Identify {
            nick: trim(nick),
            mode: ClientMode::Json,
            chat_if_identified: false,
        },
        ClientMsgView::Chat { body } => ActionView::Send(StateCmdView::Chat { session_id: id, body }),
        ClientMsgView::Dm { to, body } => ActionView::Send(
            StateCmdView::Dm { session_id: id, to, body },
        ),
        ClientMsgView::GetDmHistory { partner } => ActionView::Send(
            StateCmdView::GetDmHistory { session_id: id, partner },
        ),
        ClientMsgView::Who => ActionView::Send(StateCmdView::Who { session_id: id }),
        ClientMsgView::Quit => ActionView::Send(StateCmdView::RemoveSession { session_id: id }),
    }
}

/// The reply to a malformed `/dm` command.
pub open spec fn dm_usage_text() -> Seq<char> {
    "Usage: /dm <username> <message>"@
}

/// What a plain-text line from session `id` asks of the state: `/dm <user> <message>`,
/// `/dmhistory <user>`, `/who`, `/quit`, or else the nick to identify with (or, once
/// identified, a chat message).
pub open spec fn plain_spec(id: SessionId, line: Seq<char>) -> ActionView {
    if is_prefix("/dm "@, line) {
        let rest = line.skip("/dm "@.len() as int);
        match first_char(rest, ' ') {
            Some(i) => ActionView::Send(
                StateCmdView::Dm { session_id: id, to: trim(rest.take(i)), body: rest.skip(i + 1) },
            ),
            None => ActionView::Send(
                StateCmdView::SendError { session_id: id, body: dm_usage_text() },
            ),
        }
    } else if is_prefix("/dmhistory "@, line) {
        ActionView::Send(
            StateCmdView::GetDmHistory {
                session_id: id,
                partner: trim(line.skip("/dmhistory "@.len() as int)),
            },
        )
    } else if line == "/who"@ {
        ActionView::Send(StateCmdView::Who { session_id: id })
    } else if line == "/quit"@ {
        ActionView::Send(StateCmdView::RemoveSession { session_id: id })
    } else {
        ActionView::Identify { nick: trim(line), mode: ClientMode::Plain, chat_if_identified: true }
    }
}

/// What follows the reply to an identification of session `id` as `nick`.
pub open spec fn after_identify_spec(
    id: SessionId,
    nick: Seq<char>,
    chat_if_identified: bool,
    result: Result<crate::server::state::IdentifyOkView, Seq<char>>,
) -> Option<StateCmdView> {
    match result {
        Ok(_) => None,
        Err(e) => if chat_if_identified && e == crate::server::state::already_identified_text() {
            Some(StateCmdView::Chat { session_id: id, body: nick })
        } else {
            Some(StateCmdView::SendError { session_id: id, body: e })
        },
    }
}

/// Whether `line` is a JSON message (it starts with `{`).
pub fn is_json_line(line: &str) -> (r: bool)
    ensures
        r == is_json_spec(line@),
{
    let cs = chars_of(line);
    cs.len() > 0 && cs[0] == '{'
}

/// An error message for session `session_id`.
pub fn send_error(session_id: SessionId, msg: &str) -> (r: StateCmd)
    ensures
        r@ == (StateCmdView::SendError { session_id, body: msg@ }),
{
    StateCmd::SendError { session_id, body: msg.to_owned() }
}

/// What a JSON message from session `session_id` asks of the state.
pub fn dispatch_client_msg(session_id: SessionId, msg: ClientMsg) -> (r: Action)
    ensures
        r@ == dispatch_spec(session_id, msg@),
{
    match msg {
        ClientMsg::Hello { nick } => Action::Identify {
            nick: trim_str(nick.as_str()),
            mode: ClientMode::Json,
            chat_if_identified: false,
        },
        ClientMsg::Chat { body } => Action::Send(StateCmd::Chat { session_id, body }),
        ClientMsg::Dm { to, body } => Action::Send(StateCmd::Dm { session_id, to, body }),
        ClientMsg::GetDmHistory { partner } => Action::Send(
            StateCmd::GetDmHistory { session_id, partner },
        ),
        ClientMsg::Who => Action::Send(StateCmd::Who { session_id }),
        ClientMsg::Quit => Action::Send(StateCmd::RemoveSession { session_id }),
    }
}

/// What a plain-text line from session `session_id` asks of the state.
pub fn handle_plain_text(session_id: SessionId, line: &str) -> (r: Action)
    ensures
        r@ == plain_spec(session_id, line@),
{
    let cs = chars_of(line);
    let dm_prefix = chars_of("/dm ");
    let history_prefix = chars_of("/dmhistory ");
    if starts_with(cs.as_slice(), dm_prefix.as_slice()) {
        let n = cs.len();
        let start = dm_prefix.len();
        let rest = string_of_range(cs.as_slice(), start, n);
        let rc = chars_of(rest.as_str());
        proof {
            assert(rc@ =~= line@.skip("/dm "@.len() as int));
        }
        match find_char(rc.as_slice(), ' ') {
            Some(i) => {
                proof {
                    crate::text::lemma_find_from_bounds(rc@, seq![' '], 0);
                }
                let to_raw = string_of_range(rc.as_slice(), 0, i);
                let to = trim_str(to_raw.as_str());
                let body = string_of_range(rc.as_slice(), i + 1, rc.len());
                proof {
                    assert(to_raw@ =~= rc@.take(i as int));
                    assert(body@ =~= rc@.skip(i + 1));
                }
                Action::Send(StateCmd::Dm { session_id, to, body })
            },
            None => Action::Send(send_error(session_id, "Usage: /dm <username> <message>")),
        }
    } else if starts_with(cs.as_slice(), history_prefix.as_slice()) {
        let start = history_prefix.len();
        let partner = trim_chars_range(cs.as_slice(), start);
        proof {
            assert(cs@.subrange(start as int, cs@.len() as int) =~= line@.skip("/dmhistory "@.len() as int));
        }
        Action::Send(StateCmd::GetDmHistory { session_id, partner })
    } else if str_eq(line, "/who") {
        Action::Send(StateCmd::Who { session_id })
    } else if str_eq(line, "/quit") {
        Action::Send(StateCmd::RemoveSession { session_id })
    } else {
        Action::Identify { nick: trim_str(line), mode: ClientMode::Plain, chat_if_identified: true }
    }
}

/// `trim(cs[start..])`.
fn trim_chars_range(cs: &[char], start: usize) -> (r: String)
    requires
        start <= cs@.len(),
    ensures
        r@ == trim(cs@.subrange(start as int, cs@.len() as int)),
{
    let s = string_of_range(cs, start, cs.len());
    trim_str(s.as_str())
}

/// What follows the reply to an identification of session `session_id` as `nick`: nothing
/// where it succeeded; a chat message where the session had identified already and the
/// line may be one; the error otherwise.
pub fn after_identify(
    session_id: SessionId,
    nick: &str,
    chat_if_identified: bool,
    result: &Result<IdentifyOk, String>,
) -> (r: Option<StateCmd>)
    ensures
        match r {
            Some(cmd) => after_identify_spec(session_id, nick@, chat_if_identified, result_view(*result)) == Some(cmd@),
            None => after_identify_spec(session_id, nick@, chat_if_identified, result_view(*result)) is None,
        },
{
    match result {
        Ok(_) => None,
        Err(e) => {
            if chat_if_identified && str_eq(e.as_str(), "already_identified") {
                Some(StateCmd::Chat { session_id, body: nick.to_owned() })
            } else {
                Some(send_error(session_id, e.as_str()))
            }
        },
    }
}

} // verus!
