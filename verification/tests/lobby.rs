use tailchatter::lobby::state::{
    disconnect_session, handle_line, handle_line_at, json_candidate, ChatState, ClientMode, Outbound,
    SessionId, Target, MAX_HISTORY,
};
use tailchatter::lobby::{
    eq_ignore_ascii_case, format_plain, sort_texts, valid_nick, ChatLine, ClientMsg, ServerMsg,
};

const TS: &str = "11:22:33";

fn plain(id: SessionId) -> Target {
    Target { session_id: id, mode: ClientMode::Plain }
}

fn json(id: SessionId) -> Target {
    Target { session_id: id, mode: ClientMode::Json }
}

fn say(state: &mut ChatState, id: SessionId, line: &str) -> Vec<Outbound> {
    handle_line_at(state, id, line, None, TS)
}

fn join_plain(state: &mut ChatState, id: SessionId, nick: &str) {
    state.add_session(id);
    let out = say(state, id, nick);
    assert_eq!(out.len(), 4);
}

fn join_json(state: &mut ChatState, id: SessionId, nick: &str) -> Vec<Outbound> {
    state.add_session(id);
    let line = format!("{{\"type\":\"hello\",\"nick\":\"{nick}\"}}");
    handle_line_at(state, id, &line, Some(ClientMsg::Hello { nick: nick.to_string() }), TS)
}

#[test]
fn plain_identification_joins_the_room() {
    let mut state = ChatState::new();
    state.add_session(1);
    let out = say(&mut state, 1, "  alice  ");
    assert_eq!(out.len(), 4);
    assert_eq!(
        out[0].msg,
        ServerMsg::Welcome { nick: "alice".into(), room: "Chat Room".into(), online: 1 }
    );
    assert!(out[0].targets.is_empty());
    assert_eq!(out[1].msg, ServerMsg::History { messages: vec![] });
    assert!(out[1].targets.is_empty());
    assert_eq!(out[2].msg, ServerMsg::System { body: "alice has joined the room".into() });
    assert_eq!(out[2].targets, vec![plain(1)]);
    assert_eq!(out[3].msg, ServerMsg::Presence { online: 1, users: vec!["alice".into()] });
    assert_eq!(out[3].targets, vec![plain(1)]);
    assert_eq!(state.online_count(), 1);
}

#[test]
fn json_identification_gets_every_message() {
    let mut state = ChatState::new();
    join_plain(&mut state, 1, "alice");
    let out = join_json(&mut state, 2, " bob ");
    assert_eq!(
        out[0].msg,
        ServerMsg::Welcome { nick: "bob".into(), room: "Chat Room".into(), online: 2 }
    );
    assert_eq!(out[0].targets, vec![json(2)]);
    assert_eq!(out[1].targets, vec![json(2)]);
    assert_eq!(out[2].targets, vec![plain(1), json(2)]);
    assert_eq!(
        out[3].msg,
        ServerMsg::Presence { online: 2, users: vec!["alice".into(), "bob".into()] }
    );
}

#[test]
fn bad_first_lines_are_refused() {
    let mut state = ChatState::new();
    state.add_session(1);
    let out = say(&mut state, 1, "a");
    assert_eq!(out.len(), 1);
    assert_eq!(
        out[0].msg,
        ServerMsg::Error { body: "Handle must be 2-24 chars: letters, numbers, _ or -".into() }
    );
    assert_eq!(out[0].targets, vec![plain(1)]);
    let out = handle_line_at(&mut state, 1, "{\"type\":\"who\"}", Some(ClientMsg::Who), TS);
    assert_eq!(out[0].msg, ServerMsg::Error { body: "First message must be your handle".into() });
    let out = handle_line_at(&mut state, 1, "{oops", None, TS);
    assert_eq!(out[0].msg, ServerMsg::Error { body: "Invalid JSON hello message".into() });
    assert!(say(&mut state, 1, "   ").is_empty());
    assert_eq!(state.online_count(), 0);
}

#[test]
fn handles_are_unique_regardless_of_case() {
    let mut state = ChatState::new();
    join_plain(&mut state, 1, "Alice");
    state.add_session(2);
    let out = say(&mut state, 2, "aLICE");
    assert_eq!(out[0].msg, ServerMsg::Error { body: "That handle is already in use".into() });
    assert!(state.nick_in_use("ALICE"));
    assert!(!state.nick_in_use("bob"));
}

#[test]
fn chat_reaches_everyone_including_the_sender() {
    let mut state = ChatState::new();
    join_plain(&mut state, 1, "alice");
    join_json(&mut state, 2, "bob");
    state.add_session(3);
    let out = say(&mut state, 1, "  hello  ");
    assert_eq!(out.len(), 1);
    assert_eq!(
        out[0].msg,
        ServerMsg::Chat { from: "alice".into(), body: "hello".into(), timestamp: TS.into() }
    );
    assert_eq!(out[0].targets, vec![plain(1), json(2)]);
    let out = handle_line_at(
        &mut state,
        2,
        "{\"type\":\"chat\",\"body\":\" yo \"}",
        Some(ClientMsg::Chat { body: " yo ".into() }),
        TS,
    );
    assert_eq!(out[0].msg, ServerMsg::Chat { from: "bob".into(), body: "yo".into(), timestamp: TS.into() });
    let out = handle_line_at(&mut state, 2, "{broken", None, TS);
    assert_eq!(out[0].msg, ServerMsg::Chat { from: "bob".into(), body: "{broken".into(), timestamp: TS.into() });
}

#[test]
fn who_quit_and_second_hello() {
    let mut state = ChatState::new();
    join_plain(&mut state, 1, "zed");
    join_json(&mut state, 2, "amy");
    let out = say(&mut state, 1, "/who");
    assert_eq!(out[0].msg, ServerMsg::Presence { online: 2, users: vec!["amy".into(), "zed".into()] });
    assert_eq!(out[0].targets, vec![plain(1)]);
    let out = handle_line_at(&mut state, 2, "{\"type\":\"who\"}", Some(ClientMsg::Who), TS);
    assert_eq!(out[0].targets, vec![json(2)]);
    let out = handle_line_at(
        &mut state,
        2,
        "{\"type\":\"hello\",\"nick\":\"other\"}",
        Some(ClientMsg::Hello { nick: "other".into() }),
        TS,
    );
    assert_eq!(out[0].msg, ServerMsg::Error { body: "You already set your handle".into() });
    let out = handle_line_at(&mut state, 2, "{\"type\":\"quit\"}", Some(ClientMsg::Quit), TS);
    assert_eq!(out.len(), 2);
    assert_eq!(out[0].msg, ServerMsg::System { body: "amy has left the room".into() });
    assert_eq!(out[0].targets, vec![plain(1)]);
    assert_eq!(out[1].msg, ServerMsg::Presence { online: 1, users: vec!["zed".into()] });
    let out = say(&mut state, 1, "/quit");
    assert_eq!(out.len(), 2);
    assert!(out[0].targets.is_empty());
    assert_eq!(state.online_count(), 0);
}

#[test]
fn chat_before_identifying_is_taken_as_a_handle() {
    let mut state = ChatState::new();
    state.add_session(1);
    let out = say(&mut state, 1, "hello there");
    assert_eq!(
        out[0].msg,
        ServerMsg::Error { body: "Handle must be 2-24 chars: letters, numbers, _ or -".into() }
    );
    let out = handle_line_at(&mut state, 1, "{\"type\":\"chat\"}", Some(ClientMsg::Chat { body: "x".into() }), TS);
    assert_eq!(out[0].msg, ServerMsg::Error { body: "First message must be your handle".into() });
}

#[test]
fn lobby_history_keeps_newest_fifty() {
    let mut state = ChatState::new();
    join_plain(&mut state, 1, "alice");
    for i in 0..51 {
        say(&mut state, 1, &format!("m{i}"));
    }
    let out = join_json(&mut state, 2, "bob");
    match &out[1].msg {
        ServerMsg::History { messages } => {
            assert_eq!(messages.len(), MAX_HISTORY);
            assert_eq!(messages[0].body, "m1");
            assert_eq!(messages[49].body, "m50");
            assert_eq!(messages[49].timestamp, TS);
        },
        other => panic!("expected history, got {other:?}"),
    }
}

#[test]
fn disconnect_of_unidentified_or_unknown_is_silent() {
    let mut state = ChatState::new();
    state.add_session(1);
    assert!(disconnect_session(&mut state, 1).is_empty());
    assert!(disconnect_session(&mut state, 9).is_empty());
    join_plain(&mut state, 2, "bob");
    join_plain(&mut state, 3, "cat");
    let out = disconnect_session(&mut state, 2);
    assert_eq!(out[0].targets, vec![plain(3)]);
    assert_eq!(out[1].msg, ServerMsg::Presence { online: 1, users: vec!["cat".into()] });
}

#[test]
fn handle_line_stamps_the_time() {
    let mut state = ChatState::new();
    state.add_session(1);
    handle_line(&mut state, 1, "alice", None);
    let out = handle_line(&mut state, 1, "hi", None);
    match &out[0].msg {
        ServerMsg::Chat { timestamp, .. } => {
            assert_eq!(timestamp.len(), 8);
            assert_eq!(&timestamp[2..3], ":");
        },
        other => panic!("expected chat, got {other:?}"),
    }
}

#[test]
fn lobby_plain_rendering() {
    assert_eq!(format_plain(&ServerMsg::System { body: "x joined".into() }), "x joined");
    assert_eq!(
        format_plain(&ServerMsg::Chat { from: "a".into(), body: "hi".into(), timestamp: TS.into() }),
        "a: hi"
    );
    assert_eq!(format_plain(&ServerMsg::History { messages: vec![] }), "");
    let messages = vec![
        ChatLine { from: "a".into(), body: "x".into(), timestamp: TS.into() },
        ChatLine { from: "b".into(), body: "y".into(), timestamp: TS.into() },
    ];
    assert_eq!(format_plain(&ServerMsg::History { messages }), "a: x\nb: y");
    assert_eq!(
        format_plain(&ServerMsg::Welcome { nick: "a".into(), room: "r".into(), online: 1 }),
        ""
    );
    assert_eq!(
        format_plain(&ServerMsg::Presence { online: 2, users: vec!["a".into(), "b".into()] }),
        "Online (2): a, b"
    );
    assert_eq!(format_plain(&ServerMsg::Error { body: "bad".into() }), "Error: bad");
}

#[test]
fn lobby_handle_rules() {
    assert!(valid_nick(" ab "));
    assert!(!valid_nick("a"));
    assert!(valid_nick(&"a".repeat(24)));
    assert!(!valid_nick(&"a".repeat(25)));
    assert!(!valid_nick("a.b"));
    assert!(!valid_nick("ab c"));
    assert!(valid_nick("Under_score-9"));
}

#[test]
fn sorting_and_case_folding() {
    let sorted = sort_texts(vec!["b".into(), "B".into(), "a".into(), "b".into(), "ab".into()]);
    assert_eq!(sorted, vec!["B", "a", "ab", "b", "b"]);
    assert!(sort_texts(vec![]).is_empty());
    assert!(eq_ignore_ascii_case("HeLLo", "hello"));
    assert!(!eq_ignore_ascii_case("hello", "hell"));
    assert!(!eq_ignore_ascii_case("É", "é"));
}

#[test]
fn json_candidates_start_with_a_brace() {
    assert_eq!(json_candidate("  {\"type\":\"who\"} "), Some("{\"type\":\"who\"}".to_string()));
    assert_eq!(json_candidate("alice"), None);
    assert_eq!(json_candidate("   "), None);
}

#[test]
fn a_handle_is_free_again_after_leaving() {
    let mut state = ChatState::new();
    join_plain(&mut state, 1, "Alice");
    state.add_session(2);
    say(&mut state, 1, "/quit");
    assert!(!state.nick_in_use("alice"));
    let out = say(&mut state, 2, "ALICE");
    assert_eq!(out[2].msg, ServerMsg::System { body: "ALICE has joined the room".into() });
}
