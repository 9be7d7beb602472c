use tailchatter::protocol::{ClientMsg, ServerMsg, ChatLine};
use tailchatter::server::format_plain;
use tailchatter::server::handler::{
    after_identify, dispatch_client_msg, handle_plain_text, is_json_line, send_error, Action,
};
use tailchatter::server::state::{ClientMode, IdentifyOk, StateCmd};

fn sent(a: Action) -> StateCmd {
    match a {
        Action::Send(cmd) => cmd,
        Action::Identify { .. } => panic!("expected a command"),
    }
}

#[test]
fn json_lines_start_with_a_brace() {
    assert!(is_json_line("{\"type\":\"who\"}"));
    assert!(!is_json_line("alice"));
    assert!(!is_json_line(""));
    assert!(!is_json_line(" {"));
}

#[test]
fn send_error_builds_the_command() {
    match send_error(4, "nope") {
        StateCmd::SendError { session_id, body } => {
            assert_eq!(session_id, 4);
            assert_eq!(body, "nope");
        },
        _ => panic!("expected SendError"),
    }
}

#[test]
fn hello_asks_for_identification_with_trimmed_nick() {
    match dispatch_client_msg(3, ClientMsg::Hello { nick: "  alice ".into() }) {
        Action::Identify { nick, mode, chat_if_identified } => {
            assert_eq!(nick, "alice");
            assert_eq!(mode, ClientMode::Json);
            assert!(!chat_if_identified);
        },
        Action::Send(_) => panic!("expected an identification"),
    }
}

#[test]
fn json_messages_become_commands() {
    match sent(dispatch_client_msg(3, ClientMsg::Chat { body: "hi".into() })) {
        StateCmd::Chat { session_id, body } => {
            assert_eq!(session_id, 3);
            assert_eq!(body, "hi");
        },
        _ => panic!("expected Chat"),
    }
    match sent(dispatch_client_msg(3, ClientMsg::Dm { to: "bob".into(), body: "yo".into() })) {
        StateCmd::Dm { session_id, to, body } => {
            assert_eq!((session_id, to.as_str(), body.as_str()), (3, "bob", "yo"));
        },
        _ => panic!("expected Dm"),
    }
    match sent(dispatch_client_msg(3, ClientMsg::GetDmHistory { partner: "bob".into() })) {
        StateCmd::GetDmHistory { session_id, partner } => {
            assert_eq!((session_id, partner.as_str()), (3, "bob"));
        },
        _ => panic!("expected GetDmHistory"),
    }
    assert!(matches!(sent(dispatch_client_msg(3, ClientMsg::Who)), StateCmd::Who { session_id: 3 }));
    assert!(matches!(
        sent(dispatch_client_msg(3, ClientMsg::Quit)),
        StateCmd::RemoveSession { session_id: 3 }
    ));
}

#[test]
fn plain_dm_command() {
    match sent(handle_plain_text(5, "/dm bob hello there")) {
        StateCmd::Dm { session_id, to, body } => {
            assert_eq!(session_id, 5);
            assert_eq!(to, "bob");
            assert_eq!(body, "hello there");
        },
        _ => panic!("expected Dm"),
    }
    match sent(handle_plain_text(5, "/dm  bob hi")) {
        StateCmd::Dm { to, body, .. } => {
            assert_eq!(to, "");
            assert_eq!(body, "bob hi");
        },
        _ => panic!("expected Dm"),
    }
}

#[test]
fn plain_dm_without_message_is_usage_error() {
    match sent(handle_plain_text(5, "/dm bob")) {
        StateCmd::SendError { session_id, body } => {
            assert_eq!(session_id, 5);
            assert_eq!(body, "Usage: /dm <username> <message>");
        },
        _ => panic!("expected SendError"),
    }
}

#[test]
fn plain_other_commands() {
    match sent(handle_plain_text(5, "/dmhistory  bob ")) {
        StateCmd::GetDmHistory { partner, .. } => assert_eq!(partner, "bob"),
        _ => panic!("expected GetDmHistory"),
    }
    assert!(matches!(sent(handle_plain_text(5, "/who")), StateCmd::Who { session_id: 5 }));
    assert!(matches!(sent(handle_plain_text(5, "/quit")), StateCmd::RemoveSession { session_id: 5 }));
}

#[test]
fn plain_text_is_a_nick_or_a_chat() {
    match handle_plain_text(5, "alice") {
        Action::Identify { nick, mode, chat_if_identified } => {
            assert_eq!(nick, "alice");
            assert_eq!(mode, ClientMode::Plain);
            assert!(chat_if_identified);
        },
        Action::Send(_) => panic!("expected an identification"),
    }
    match handle_plain_text(5, "/whois") {
        Action::Identify { nick, .. } => assert_eq!(nick, "/whois"),
        Action::Send(_) => panic!("expected an identification"),
    }
}

#[test]
fn after_identify_decides_what_follows() {
    let ok: Result<IdentifyOk, String> =
        Ok(IdentifyOk { nick: "alice".into(), room: "Chat Room".into(), online: 1 });
    assert!(after_identify(1, "alice", true, &ok).is_none());
    let already: Result<IdentifyOk, String> = Err("already_identified".into());
    match after_identify(1, "hello all", true, &already) {
        Some(StateCmd::Chat { session_id, body }) => {
            assert_eq!(session_id, 1);
            assert_eq!(body, "hello all");
        },
        _ => panic!("expected Chat"),
    }
    match after_identify(1, "alice", false, &already) {
        Some(StateCmd::SendError { body, .. }) => assert_eq!(body, "already_identified"),
        _ => panic!("expected SendError"),
    }
    let taken: Result<IdentifyOk, String> = Err("Nick 'alice' is already in use".into());
    match after_identify(2, "alice", true, &taken) {
        Some(StateCmd::SendError { session_id, body }) => {
            assert_eq!(session_id, 2);
            assert_eq!(body, "Nick 'alice' is already in use");
        },
        _ => panic!("expected SendError"),
    }
}

fn line(from: &str, body: &str, ts: &str) -> ChatLine {
    ChatLine { from: from.into(), body: body.into(), timestamp: ts.into() }
}

#[test]
fn plain_rendering_of_each_message() {
    assert_eq!(
        format_plain(&ServerMsg::Chat { from: "alice".into(), body: "hi".into(), timestamp: "10:00:00".into() }),
        "[10:00:00] alice: hi"
    );
    assert_eq!(
        format_plain(&ServerMsg::Dm {
            from: "alice".into(),
            to: "bob".into(),
            body: "psst".into(),
            timestamp: "10:00:01".into()
        }),
        "[10:00:01] DM from alice to bob: psst"
    );
    assert_eq!(format_plain(&ServerMsg::System { body: "bob has joined the room".into() }), "*** bob has joined the room");
    assert_eq!(
        format_plain(&ServerMsg::Presence { online: 2, users: vec!["alice".into(), "bob".into()] }),
        "*** Online: 2 users: alice, bob"
    );
    assert_eq!(format_plain(&ServerMsg::Presence { online: 0, users: vec![] }), "*** Online: 0 users: ");
    assert_eq!(
        format_plain(&ServerMsg::History { messages: vec![line("a", "x", "01:02:03"), line("b", "y", "04:05:06")] }),
        "[01:02:03] a: x\n[04:05:06] b: y"
    );
    assert_eq!(format_plain(&ServerMsg::History { messages: vec![] }), "");
    assert_eq!(
        format_plain(&ServerMsg::DmHistory { partner: "bob".into(), messages: vec![line("a", "x", "01:02:03")] }),
        "*** DM history with bob:\n[01:02:03] a: x"
    );
    assert_eq!(
        format_plain(&ServerMsg::DmHistory { partner: "bob".into(), messages: vec![] }),
        "*** DM history with bob:\n"
    );
    assert_eq!(
        format_plain(&ServerMsg::Welcome { nick: "alice".into(), room: "Chat Room".into(), online: 3 }),
        "*** Welcome to Chat Room, alice! (3 online)"
    );
    assert_eq!(format_plain(&ServerMsg::Error { body: "oops".into() }), "*** Error: oops");
}
