use tailchatter::protocol::{ChatLine, ServerMsg};
use tailchatter::server::state::{
    dm_key, valid_nick, ChatState, ClientMode, Outbound, Session, SessionId, StateCmd, Step, Target,
};

const TS: &str = "12:00:00";

fn add(state: &mut ChatState, id: SessionId, mode: ClientMode) -> Step {
    state.process_at(StateCmd::AddSession { session: Session { id, nick: None, mode } }, TS)
}

fn identify(state: &mut ChatState, id: SessionId, nick: &str, mode: ClientMode) -> Step {
    state.process_at(StateCmd::Identify { session_id: id, nick: nick.to_string(), mode }, TS)
}

fn joined(state: &mut ChatState, id: SessionId, nick: &str) {
    add(state, id, ClientMode::Json);
    let step = identify(state, id, nick, ClientMode::Json);
    assert!(matches!(step.reply, Some(Ok(_))));
}

fn ids(o: &Outbound) -> Vec<SessionId> {
    o.targets.iter().map(|t| t.session_id).collect()
}

fn reply_err(step: &Step) -> String {
    match &step.reply {
        Some(Err(e)) => e.clone(),
        _ => panic!("expected an error reply"),
    }
}

#[test]
fn identify_welcomes_and_announces() {
    let mut state = ChatState::new();
    let step = add(&mut state, 1, ClientMode::Plain);
    assert!(step.reply.is_none());
    assert!(step.outbound.is_empty());
    let step = identify(&mut state, 1, "alice", ClientMode::Json);
    match &step.reply {
        Some(Ok(ok)) => {
            assert_eq!(ok.nick, "alice");
            assert_eq!(ok.room, "Chat Room");
            assert_eq!(ok.online, 1);
        },
        _ => panic!("identification should succeed"),
    }
    assert_eq!(step.outbound.len(), 3);
    assert_eq!(
        step.outbound[0].msg,
        ServerMsg::Welcome { nick: "alice".into(), room: "Chat Room".into(), online: 1 }
    );
    assert_eq!(step.outbound[0].targets, vec![Target { session_id: 1, mode: ClientMode::Json }]);
    assert_eq!(step.outbound[1].msg, ServerMsg::System { body: "alice has joined the room".into() });
    assert_eq!(ids(&step.outbound[1]), vec![1]);
    assert_eq!(step.outbound[2].msg, ServerMsg::Presence { online: 1, users: vec!["alice".into()] });
    assert_eq!(state.online_count(), 1);
}

#[test]
fn identify_rejects_invalid_nick() {
    let mut state = ChatState::new();
    add(&mut state, 1, ClientMode::Plain);
    let step = identify(&mut state, 1, "bad nick!", ClientMode::Plain);
    assert_eq!(reply_err(&step), "Invalid nick. Use 1-32 chars: a-z A-Z 0-9 _ -");
    assert!(step.outbound.is_empty());
    assert_eq!(state.online_count(), 0);
}

#[test]
fn identify_rejects_taken_nick() {
    let mut state = ChatState::new();
    joined(&mut state, 1, "alice");
    add(&mut state, 2, ClientMode::Plain);
    let step = identify(&mut state, 2, "alice", ClientMode::Plain);
    assert_eq!(reply_err(&step), "Nick 'alice' is already in use");
    assert!(step.outbound.is_empty());
}

#[test]
fn identify_twice_is_already_identified() {
    let mut state = ChatState::new();
    joined(&mut state, 1, "alice");
    let step = identify(&mut state, 1, "alice2", ClientMode::Json);
    assert_eq!(reply_err(&step), "already_identified");
    assert!(!state.nick_in_use("alice2"));
}

#[test]
fn chat_goes_to_others_not_sender() {
    let mut state = ChatState::new();
    joined(&mut state, 1, "alice");
    joined(&mut state, 2, "bob");
    add(&mut state, 3, ClientMode::Plain);
    let step = state.process_at(StateCmd::Chat { session_id: 1, body: "  hi there ".into() }, TS);
    assert_eq!(step.outbound.len(), 1);
    assert_eq!(
        step.outbound[0].msg,
        ServerMsg::Chat { from: "alice".into(), body: "hi there".into(), timestamp: TS.into() }
    );
    assert_eq!(ids(&step.outbound[0]), vec![2]);
}

#[test]
fn chat_from_unidentified_or_blank_is_dropped() {
    let mut state = ChatState::new();
    add(&mut state, 1, ClientMode::Plain);
    let step = state.process_at(StateCmd::Chat { session_id: 1, body: "hello".into() }, TS);
    assert!(step.outbound.is_empty());
    joined(&mut state, 2, "bob");
    let step = state.process_at(StateCmd::Chat { session_id: 2, body: "   ".into() }, TS);
    assert!(step.outbound.is_empty());
}

#[test]
fn history_sent_to_newcomer() {
    let mut state = ChatState::new();
    joined(&mut state, 1, "alice");
    state.process_at(StateCmd::Chat { session_id: 1, body: "first".into() }, TS);
    add(&mut state, 2, ClientMode::Plain);
    let step = identify(&mut state, 2, "bob", ClientMode::Plain);
    assert_eq!(step.outbound.len(), 4);
    assert_eq!(
        step.outbound[1].msg,
        ServerMsg::History {
            messages: vec![ChatLine { from: "alice".into(), body: "first".into(), timestamp: TS.into() }]
        }
    );
    assert_eq!(step.outbound[1].targets, vec![Target { session_id: 2, mode: ClientMode::Plain }]);
    assert_eq!(ids(&step.outbound[2]), vec![1, 2]);
}

#[test]
fn history_keeps_newest_five_hundred() {
    let mut state = ChatState::new();
    joined(&mut state, 1, "alice");
    for i in 0..501 {
        state.process_at(StateCmd::Chat { session_id: 1, body: format!("m{i}") }, TS);
    }
    add(&mut state, 2, ClientMode::Json);
    let step = identify(&mut state, 2, "bob", ClientMode::Json);
    match &step.outbound[1].msg {
        ServerMsg::History { messages } => {
            assert_eq!(messages.len(), 500);
            assert_eq!(messages[0].body, "m1");
            assert_eq!(messages[499].body, "m500");
        },
        other => panic!("expected history, got {other:?}"),
    }
}

#[test]
fn dm_to_unknown_user_errors() {
    let mut state = ChatState::new();
    joined(&mut state, 1, "alice");
    let step = state.process_at(
        StateCmd::Dm { session_id: 1, to: "zed".into(), body: "psst".into() },
        TS,
    );
    assert_eq!(step.outbound.len(), 1);
    assert_eq!(step.outbound[0].msg, ServerMsg::Error { body: "User 'zed' not found or not online".into() });
    assert_eq!(ids(&step.outbound[0]), vec![1]);
}

#[test]
fn dm_goes_to_recipient_only_and_history_is_shared() {
    let mut state = ChatState::new();
    joined(&mut state, 1, "alice");
    joined(&mut state, 2, "bob");
    joined(&mut state, 3, "carol");
    let step = state.process_at(
        StateCmd::Dm { session_id: 1, to: "bob".into(), body: " psst ".into() },
        TS,
    );
    assert_eq!(step.outbound.len(), 1);
    assert_eq!(
        step.outbound[0].msg,
        ServerMsg::Dm { from: "alice".into(), to: "bob".into(), body: "psst".into(), timestamp: TS.into() }
    );
    assert_eq!(ids(&step.outbound[0]), vec![2]);
    let ab = state.get_dm_history("alice", "bob");
    let ba = state.get_dm_history("bob", "alice");
    assert_eq!(ab, ba);
    assert_eq!(ab.len(), 1);
    assert!(state.get_dm_history("alice", "carol").is_empty());
    let step = state.process_at(StateCmd::GetDmHistory { session_id: 2, partner: "alice".into() }, TS);
    assert_eq!(
        step.outbound[0].msg,
        ServerMsg::DmHistory { partner: "alice".into(), messages: ab }
    );
    assert_eq!(ids(&step.outbound[0]), vec![2]);
}

#[test]
fn who_and_send_error_reach_the_asker() {
    let mut state = ChatState::new();
    joined(&mut state, 1, "alice");
    joined(&mut state, 2, "bob");
    let step = state.process_at(StateCmd::Who { session_id: 2 }, TS);
    assert_eq!(
        step.outbound[0].msg,
        ServerMsg::Presence { online: 2, users: vec!["alice".into(), "bob".into()] }
    );
    assert_eq!(ids(&step.outbound[0]), vec![2]);
    let step = state.process_at(StateCmd::SendError { session_id: 1, body: "oops".into() }, TS);
    assert_eq!(step.outbound[0].msg, ServerMsg::Error { body: "oops".into() });
    assert_eq!(ids(&step.outbound[0]), vec![1]);
}

#[test]
fn remove_session_announces_leave() {
    let mut state = ChatState::new();
    joined(&mut state, 1, "alice");
    joined(&mut state, 2, "bob");
    add(&mut state, 3, ClientMode::Plain);
    let step = state.process_at(StateCmd::RemoveSession { session_id: 3 }, TS);
    assert!(step.outbound.is_empty());
    let step = state.process_at(StateCmd::RemoveSession { session_id: 1 }, TS);
    assert_eq!(step.outbound.len(), 2);
    assert_eq!(step.outbound[0].msg, ServerMsg::System { body: "alice has left the room".into() });
    assert_eq!(ids(&step.outbound[0]), vec![2]);
    assert_eq!(step.outbound[1].msg, ServerMsg::Presence { online: 1, users: vec!["bob".into()] });
    assert!(!state.nick_in_use("alice"));
    assert_eq!(state.find_session_id_by_nick("bob"), Some(2));
    assert_eq!(state.find_session_id_by_nick("alice"), None);
    add(&mut state, 4, ClientMode::Plain);
    let step = identify(&mut state, 4, "alice", ClientMode::Plain);
    assert!(matches!(step.reply, Some(Ok(_))));
}

#[test]
fn state_queries() {
    let mut state = ChatState::new();
    assert_eq!(state.online_count(), 0);
    assert!(state.nick_list().is_empty());
    joined(&mut state, 7, "zoe");
    joined(&mut state, 3, "amy");
    add(&mut state, 9, ClientMode::Plain);
    assert_eq!(state.online_count(), 2);
    assert_eq!(state.nick_list(), vec!["zoe".to_string(), "amy".to_string()]);
    assert!(state.nick_in_use("amy"));
    assert!(!state.nick_in_use("AMY"));
    assert_eq!(state.find_session_id_by_nick("zoe"), Some(7));
}

#[test]
fn process_stamps_with_time_of_day() {
    let mut state = ChatState::new();
    state.process(StateCmd::AddSession { session: Session { id: 1, nick: None, mode: ClientMode::Json } });
    state.process(StateCmd::Identify { session_id: 1, nick: "alice".into(), mode: ClientMode::Json });
    state.process(StateCmd::AddSession { session: Session { id: 2, nick: None, mode: ClientMode::Json } });
    state.process(StateCmd::Identify { session_id: 2, nick: "bob".into(), mode: ClientMode::Json });
    let step = state.process(StateCmd::Chat { session_id: 1, body: "hi".into() });
    match &step.outbound[0].msg {
        ServerMsg::Chat { timestamp, .. } => {
            let b = timestamp.as_bytes();
            assert_eq!(b.len(), 8);
            assert_eq!(b[2], b':');
            assert_eq!(b[5], b':');
        },
        other => panic!("expected a chat message, got {other:?}"),
    }
}

#[test]
fn dm_key_orders_the_pair() {
    assert_eq!(dm_key("bob", "alice"), ("alice".to_string(), "bob".to_string()));
    assert_eq!(dm_key("alice", "bob"), ("alice".to_string(), "bob".to_string()));
    assert_eq!(dm_key("Zed", "amy"), ("Zed".to_string(), "amy".to_string()));
    assert_eq!(dm_key("x", "x"), ("x".to_string(), "x".to_string()));
}

#[test]
fn server_valid_nick_rules() {
    assert!(!valid_nick(""));
    assert!(valid_nick("a"));
    assert!(valid_nick("Al_ice-9"));
    assert!(valid_nick(&"x".repeat(32)));
    assert!(!valid_nick(&"x".repeat(33)));
    assert!(!valid_nick("a b"));
    assert!(!valid_nick("é"));
}

#[test]
fn session_ids_count_from_one() {
    let mut ids = tailchatter::server::SessionIds::new();
    assert_eq!(ids.new_session_id(), 1);
    assert_eq!(ids.new_session_id(), 2);
    assert_eq!(ids.new_session_id(), 3);
    let mut seen = vec![1, 2, 3];
    for _ in 0..100 {
        let id = ids.new_session_id();
        assert!(!seen.contains(&id));
        seen.push(id);
    }
}

#[test]
fn identification_touches_only_its_session() {
    let mut state = ChatState::new();
    joined(&mut state, 1, "alice");
    add(&mut state, 2, ClientMode::Plain);
    add(&mut state, 3, ClientMode::Plain);
    identify(&mut state, 3, "carol", ClientMode::Plain);
    assert_eq!(state.find_session_id_by_nick("alice"), Some(1));
    assert_eq!(state.find_session_id_by_nick("carol"), Some(3));
    assert_eq!(state.nick_list(), vec!["alice".to_string(), "carol".to_string()]);
    let step = identify(&mut state, 2, "bob", ClientMode::Plain);
    assert!(matches!(step.reply, Some(Ok(_))));
    assert_eq!(state.nick_list(), vec!["alice".to_string(), "bob".to_string(), "carol".to_string()]);
}
