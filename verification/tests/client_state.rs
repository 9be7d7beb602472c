use tailchatter::client::state::{
    AppMode, ChatApp, Conversation, LoginTab, SenderStyle, ServerButton, DEFAULT_PORT,
};
use tailchatter::protocol::{ChatLine, ClientMsg, ServerMsg};
use tailchatter::server::handler::{dispatch_client_msg, Action};
use tailchatter::server::state::StateCmd;

const NOW: &str = "09:30:00";

fn line(from: &str, body: &str, ts: &str) -> (String, String, String) {
    (from.to_string(), body.to_string(), ts.to_string())
}

fn app_as(nick: &str) -> ChatApp {
    let mut app = ChatApp::default();
    app.nick = nick.to_string();
    app
}

fn dm(from: &str, to: &str, body: &str) -> ServerMsg {
    ServerMsg::Dm { from: from.into(), to: to.into(), body: body.into(), timestamp: "10:00:00".into() }
}

#[test]
fn default_state_is_the_login_screen() {
    let app = ChatApp::default();
    assert_eq!(app.mode, AppMode::Login);
    assert_eq!(app.login_tab, LoginTab::Connect);
    assert_eq!(LoginTab::default(), LoginTab::Connect);
    assert_eq!(app.server_port, DEFAULT_PORT);
    assert_eq!(app.local_server_port, 42069);
    assert!(!app.server_started);
    assert_eq!(app.room_name, "Chat Room");
    assert_eq!(app.active_conversation, Conversation::Group);
    assert!(app.active_messages().is_empty());
    assert!(app.nick.is_empty() && app.server_ip.is_empty() && app.error_message.is_empty());
}

#[test]
fn welcome_system_chat_and_error_go_to_the_group() {
    let mut app = app_as("alice");
    app.apply_server_msg(ServerMsg::Welcome { nick: "alice".into(), room: "Lounge".into(), online: 2 }, NOW);
    assert_eq!(app.room_name, "Lounge");
    app.apply_server_msg(ServerMsg::System { body: "bob has joined the room".into() }, NOW);
    app.apply_server_msg(
        ServerMsg::Chat { from: "bob".into(), body: "hi".into(), timestamp: "10:00:00".into() },
        NOW,
    );
    app.apply_server_msg(ServerMsg::Error { body: "oops".into() }, NOW);
    assert_eq!(
        app.active_messages(),
        vec![
            line("System", "Welcome, alice!", NOW),
            line("System", "bob has joined the room", NOW),
            line("bob", "hi", "10:00:00"),
            line("Error", "oops", NOW),
        ]
    );
}

#[test]
fn presence_replaces_the_user_list() {
    let mut app = app_as("alice");
    app.apply_server_msg(ServerMsg::Presence { online: 2, users: vec!["alice".into(), "bob".into()] }, NOW);
    assert_eq!(app.online_users, vec!["alice".to_string(), "bob".to_string()]);
}

#[test]
fn history_replaces_the_group_messages() {
    let mut app = app_as("alice");
    app.apply_server_msg(ServerMsg::System { body: "old".into() }, NOW);
    let messages = vec![ChatLine { from: "bob".into(), body: "earlier".into(), timestamp: "08:00:00".into() }];
    app.apply_server_msg(ServerMsg::History { messages }, NOW);
    assert_eq!(app.active_messages(), vec![line("bob", "earlier", "08:00:00")]);
}

#[test]
fn received_dm_counts_unread_and_moves_to_front() {
    let mut app = app_as("alice");
    app.apply_server_msg(dm("bob", "alice", "one"), NOW);
    app.apply_server_msg(dm("carol", "alice", "two"), NOW);
    assert_eq!(app.dm_conversations, vec!["carol".to_string(), "bob".to_string()]);
    app.apply_server_msg(dm("bob", "alice", "three"), NOW);
    assert_eq!(app.dm_conversations, vec!["bob".to_string(), "carol".to_string()]);
    assert_eq!(app.unread_count("bob"), Some(2));
    assert_eq!(app.unread_count("carol"), Some(1));
    assert_eq!(app.unread_count("dave"), None);
    assert_eq!(app.dm_label("bob"), "bob (2)");
    assert_eq!(app.dm_label("dave"), "dave");
    app.select_dm("bob");
    assert_eq!(app.unread_count("bob"), None);
    assert_eq!(
        app.active_messages(),
        vec![line("bob", "one", "10:00:00"), line("bob", "three", "10:00:00")]
    );
    assert_eq!(app.conversation_title(), "DM with bob");
}

#[test]
fn dm_in_the_open_conversation_is_not_unread() {
    let mut app = app_as("alice");
    app.select_user("bob");
    app.apply_server_msg(dm("bob", "alice", "hey"), NOW);
    assert_eq!(app.unread_count("bob"), None);
    app.apply_server_msg(dm("alice", "bob", "echo of mine"), NOW);
    assert_eq!(app.active_messages().len(), 2);
    assert_eq!(app.dm_conversations, vec!["bob".to_string()]);
}

#[test]
fn dm_history_fills_the_conversation() {
    let mut app = app_as("alice");
    let messages = vec![ChatLine { from: "bob".into(), body: "x".into(), timestamp: "07:00:00".into() }];
    app.apply_server_msg(ServerMsg::DmHistory { partner: "bob".into(), messages }, NOW);
    app.select_dm("bob");
    assert_eq!(app.active_messages(), vec![line("bob", "x", "07:00:00")]);
}

#[test]
fn selecting_oneself_does_nothing() {
    let mut app = app_as("alice");
    app.select_user("alice");
    assert_eq!(app.active_conversation, Conversation::Group);
    assert!(app.dm_conversations.is_empty());
    app.select_user("bob");
    assert_eq!(app.active_conversation, Conversation::Dm("bob".into()));
    assert_eq!(app.dm_conversations, vec!["bob".to_string()]);
}

#[test]
fn plain_online_line_sets_users() {
    let mut app = app_as("alice");
    app.handle_plain_text_at("Online (2): alice, bob ,", "online (2): alice, bob ,", NOW);
    assert_eq!(app.online_users, vec!["alice".to_string(), "bob".to_string()]);
    app.handle_plain_text_at("Online", "online", NOW);
    assert_eq!(app.online_users, vec!["alice".to_string(), "bob".to_string()]);
}

#[test]
fn plain_prompt_is_ignored_and_chat_lines_shown() {
    let mut app = app_as("alice");
    app.handle_plain_text_at("Please Enter Your Handle: ", "please enter your handle: ", NOW);
    assert!(app.active_messages().is_empty());
    app.handle_plain_text_at("bob: hi: there", "bob: hi: there", NOW);
    assert_eq!(app.active_messages(), vec![line("bob", "hi: there", NOW)]);
    app.handle_plain_text_at("no separator here", "no separator here", NOW);
    assert_eq!(app.active_messages().len(), 1);
}

#[test]
fn plain_prompt_match_ignores_case() {
    let mut app = app_as("alice");
    app.handle_plain_text("ENTER YOUR HANDLE: now");
    assert!(app.active_messages().is_empty());
    app.handle_plain_text("bob: hello");
    let msgs = app.active_messages();
    assert_eq!(msgs.len(), 1);
    assert_eq!((msgs[0].0.as_str(), msgs[0].1.as_str()), ("bob", "hello"));
}

#[test]
fn sending_to_the_group_and_to_a_partner() {
    let mut app = app_as("alice");
    assert!(app.send_message_at(NOW).is_none());
    app.input_message = "hello".into();
    assert_eq!(app.send_message_at(NOW), Some(ClientMsg::Chat { body: "hello".into() }));
    assert!(app.input_message.is_empty());
    assert_eq!(app.active_messages(), vec![line("alice", "hello", NOW)]);
    app.select_dm("bob");
    app.input_message = "psst".into();
    assert_eq!(app.send_message_at(NOW), Some(ClientMsg::Dm { to: "bob".into(), body: "psst".into() }));
    assert_eq!(app.dm_conversations, vec!["bob".to_string()]);
    assert_eq!(app.active_messages(), vec![line("alice", "psst", NOW)]);
    app.input_message = "again".into();
    let sent = app.send_message();
    assert_eq!(sent, Some(ClientMsg::Dm { to: "bob".into(), body: "again".into() }));
    assert_eq!(app.active_messages().len(), 2);
}

#[test]
fn logout_forgets_the_conversations() {
    let mut app = app_as("alice");
    app.mode = AppMode::Chat;
    app.apply_server_msg(dm("bob", "alice", "one"), NOW);
    app.online_users = vec!["alice".into()];
    app.input_message = "draft".into();
    app.select_dm("bob");
    app.logout();
    assert_eq!(app.mode, AppMode::Login);
    assert_eq!(app.active_conversation, Conversation::Group);
    assert!(app.online_users.is_empty() && app.dm_conversations.is_empty());
    assert!(app.input_message.is_empty());
    assert_eq!(app.unread_count("bob"), None);
    app.select_dm("bob");
    assert!(app.active_messages().is_empty());
}

#[test]
fn nick_is_checked_before_connecting() {
    let mut app = app_as("a");
    assert!(!app.validate_nick());
    assert_eq!(app.error_message, "Nick must be 2-24 characters");
    app.nick = "x".repeat(25);
    assert!(!app.validate_nick());
    app.nick = "bad nick".into();
    assert!(!app.validate_nick());
    assert_eq!(app.error_message, "Only letters, numbers, _ and - allowed");
    app.nick = "good_nick-1".into();
    app.error_message.clear();
    assert!(app.validate_nick());
    assert!(app.error_message.is_empty());
}

#[test]
fn connecting_needs_an_address() {
    let mut app = app_as("alice");
    assert!(app.attempt_connect().is_none());
    assert_eq!(app.error_message, "Enter server IP");
    assert_eq!(app.mode, AppMode::Login);
    app.server_ip = "100.64.0.1".into();
    app.server_port = 4000;
    let c = app.attempt_connect().expect("the form passes");
    assert_eq!((c.ip.as_str(), c.port, c.nick.as_str()), ("100.64.0.1", 4000, "alice"));
    assert_eq!(app.mode, AppMode::Chat);
    assert!(app.error_message.is_empty());
    assert_eq!(app.online_users, vec!["alice".to_string()]);
}

#[test]
fn server_button_starts_rejoins_and_stops() {
    let mut app = app_as("alice");
    app.login_tab = LoginTab::Server;
    match app.press_server_button() {
        ServerButton::Start(None) => {},
        other => panic!("expected a refused start, got {other:?}"),
    }
    assert_eq!(app.error_message, "Enter server IP (use 127.0.0.1 for local)");
    app.server_ip = "127.0.0.1".into();
    app.local_server_port = 5000;
    match app.press_server_button() {
        ServerButton::Start(Some(c)) => assert_eq!((c.ip.as_str(), c.port), ("127.0.0.1", 5000)),
        other => panic!("expected a start, got {other:?}"),
    }
    assert!(app.server_started);
    assert_eq!(app.mode, AppMode::Chat);
    app.logout();
    match app.press_server_button() {
        ServerButton::Rejoin(Some(c)) => assert_eq!(c.port, 5000),
        other => panic!("expected a rejoin, got {other:?}"),
    }
    assert_eq!(app.mode, AppMode::Chat);
    match app.press_server_button() {
        ServerButton::Stop => {},
        other => panic!("expected a stop, got {other:?}"),
    }
    assert!(!app.server_started);
}

#[test]
fn rejoin_checks_the_nick() {
    let mut app = app_as("x");
    app.server_started = true;
    assert!(app.attempt_rejoin_local().is_none());
    assert_eq!(app.error_message, "Nick must be 2-24 characters");
    app.nick = "xy".into();
    let c = app.attempt_rejoin_local().expect("the nick passes");
    assert_eq!(c.port, DEFAULT_PORT);
    assert!(app.attempt_start_server().is_none());
    app.server_ip = "127.0.0.1".into();
    assert!(app.attempt_start_server().is_some());
}

#[test]
fn titles_and_styles() {
    let mut app = app_as("alice");
    assert_eq!(app.conversation_title(), "Chat Room");
    assert_eq!(app.sender_style("System"), SenderStyle::System);
    assert_eq!(app.sender_style("Error"), SenderStyle::Error);
    assert_eq!(app.sender_style("alice"), SenderStyle::SelfName);
    assert_eq!(app.sender_style("bob"), SenderStyle::Other);
    app.select_user("bob");
    assert_eq!(app.conversation_title(), "DM with bob");
}

#[test]
fn conversations_compare_by_name() {
    assert!(Conversation::Group.same_as(&Conversation::Group));
    assert!(Conversation::Dm("a".into()).same_as(&Conversation::Dm("a".into())));
    assert!(!Conversation::Dm("a".into()).same_as(&Conversation::Dm("b".into())));
    assert!(!Conversation::Group.same_as(&Conversation::Dm("a".into())));
    assert_eq!(Conversation::Dm("a".into()).duplicate(), Conversation::Dm("a".into()));
}

#[test]
fn opening_a_dm_from_the_user_list_clears_unread() {
    let mut app = app_as("alice");
    app.apply_server_msg(dm("bob", "alice", "one"), NOW);
    app.select_user("bob");
    assert_eq!(app.unread_count("bob"), None);
    assert_eq!(app.dm_conversations, vec!["bob".to_string()]);
}

#[test]
fn nicks_the_client_accepts_pass_the_server() {
    for nick in ["ab", "Al_ice-9", "x23456789012345678901234"] {
        let mut app = app_as(nick);
        assert!(app.validate_nick());
        assert!(tailchatter::server::state::valid_nick(nick));
    }
}

#[test]
fn typed_message_reaches_the_server_as_typed() {
    let mut app = app_as("alice");
    app.input_message = " hi ".into();
    let msg = app.send_message_at(NOW).expect("something to send");
    match dispatch_client_msg(8, msg) {
        Action::Send(StateCmd::Chat { session_id, body }) => {
            assert_eq!(session_id, 8);
            assert_eq!(body, " hi ");
        },
        _ => panic!("expected a chat command"),
    }
    app.select_dm("bob");
    app.input_message = "psst".into();
    let msg = app.send_message_at(NOW).expect("something to send");
    match dispatch_client_msg(8, msg) {
        Action::Send(StateCmd::Dm { session_id, to, body }) => {
            assert_eq!((session_id, to.as_str(), body.as_str()), (8, "bob", "psst"));
        },
        _ => panic!("expected a direct message command"),
    }
}

#[test]
fn presence_line_of_the_room_server_reads_back() {
    let users = vec!["alice".to_string(), "bob_2".to_string(), "Z-z".to_string()];
    let line = tailchatter::lobby::format_plain(&tailchatter::lobby::ServerMsg::Presence {
        online: 3,
        users: users.clone(),
    });
    let mut app = app_as("alice");
    app.apply_server_msg(ServerMsg::System { body: "x".into() }, NOW);
    let before = app.active_messages();
    app.handle_plain_text_at(&line, &line.to_lowercase(), NOW);
    assert_eq!(app.online_users, users);
    assert_eq!(app.active_messages(), before);
    let empty = tailchatter::lobby::format_plain(&tailchatter::lobby::ServerMsg::Presence { online: 0, users: vec![] });
    app.handle_plain_text(&empty);
    assert!(app.online_users.is_empty());
}
