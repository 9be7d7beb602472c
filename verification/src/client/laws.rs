//! Properties of the client state that hold across calls.

use vstd::prelude::*;

use crate::client::state::{
    AppMode, ChatAppView, ConnectionView, ConversationView, ServerButtonView, add_if_absent,
    apply_server_msg_spec, dm_partner, index_from, lemma_index_from, logout_spec, move_to_front,
    press_server_button_spec, select_user_spec, send_message_spec, unread_fits, unread_of,
    validate_nick_spec,
};
use crate::client::state::{msgs_of, online_users_from, plain_text_spec};
use crate::server::handler::{dispatch_spec, ActionView};
use crate::server::state::{SessionId, StateCmdView};
use crate::protocol::{ChatLineView, ServerMsgView};
use crate::server::state::valid_nick_spec;
use crate::text::{
    all_handle_chars, decimal, first_char, is_prefix, is_space, join,
    lemma_decimal_digits, lemma_find_from_first, lemma_split_on_append, lemma_split_on_none,
    nonempty_trimmed, occurs_at, split_on, trim, trim_start,
};

verus! {

/// No name occurs twice in `s`.
pub open spec fn no_duplicates(s: Seq<Seq<char>>) -> bool {
    forall|i: int, j: int| 0 <= i < s.len() && 0 <= j < s.len() && i != j ==> s[i] != s[j]
}

proof fn lemma_add_if_absent(s: Seq<Seq<char>>, x: Seq<char>)
    requires
        no_duplicates(s),
    ensures
        no_duplicates(add_if_absent(s, x)),
        add_if_absent(s, x).contains(x),
{
    if !s.contains(x) {
        assert(s.push(x)[s.len() as int] == x);
    }
}

proof fn lemma_move_to_front(s: Seq<Seq<char>>, x: Seq<char>)
    requires
        no_duplicates(s),
        s.contains(x),
    ensures
        no_duplicates(move_to_front(s, x)),
        move_to_front(s, x)[0] == x,
        move_to_front(s, x).len() == s.len(),
        forall|y: Seq<char>| #[trigger] move_to_front(s, x).contains(y) <==> s.contains(y),
{
    lemma_index_from(s, x, 0);
    let k = choose|k: int| 0 <= k < s.len() && s[k] == x;
    let i = index_from(s, x, 0).unwrap();
    let r = s.remove(i);
    s.remove_ensures(i);
    let m = seq![x] + r;
    assert forall|a: int, b: int| 0 <= a < m.len() && 0 <= b < m.len() && a != b implies m[a] != m[b] by {
        let a0 = if a == 0 { i } else if a - 1 < i { a - 1 } else { a };
        let b0 = if b == 0 { i } else if b - 1 < i { b - 1 } else { b };
        assert(m[a] == s[a0]);
        assert(m[b] == s[b0]);
    }
    assert forall|y: Seq<char>| #[trigger] m.contains(y) <==> s.contains(y) by {
        if m.contains(y) {
            let a = choose|a: int| 0 <= a < m.len() && m[a] == y;
            let a0 = if a == 0 { i } else if a - 1 < i { a - 1 } else { a };
            assert(m[a] == s[a0]);
        }
        if s.contains(y) {
            let b = choose|b: int| 0 <= b < s.len() && s[b] == y;
            if b == i {
                assert(m[0] == y);
            } else if b < i {
                assert(m[b + 1] == y);
            } else {
                assert(m[b] == y);
            }
        }
    }
}

/// A direct message puts its partner first in the list of direct conversations, keeps the
/// list free of duplicates, and raises the partner's unread count by one unless that
/// conversation is the active one.
pub proof fn law_dm_received(a: ChatAppView, msg: ServerMsgView, now: Seq<char>)
    requires
        no_duplicates(a.dm_conversations),
        msg is Dm,
        unread_fits(a, msg),
    ensures
        ({
            let partner = dm_partner(a.nick, msg->Dm_from, msg->Dm_to);
            let b = apply_server_msg_spec(a, msg, now);
            &&& no_duplicates(b.dm_conversations)
            &&& b.dm_conversations[0] == partner
            &&& forall|y: Seq<char>| #[trigger] b.dm_conversations.contains(y) <==> (
                a.dm_conversations.contains(y) || y == partner)
            &&& a.active != ConversationView::Dm(partner) ==> unread_of(b.unread, partner) == unread_of(a.unread, partner) + 1
            &&& a.active == ConversationView::Dm(partner) ==> b.unread == a.unread
        }),
{
    let partner = dm_partner(a.nick, msg->Dm_from, msg->Dm_to);
    let s1 = add_if_absent(a.dm_conversations, partner);
    lemma_add_if_absent(a.dm_conversations, partner);
    lemma_move_to_front(s1, partner);
    assert forall|y: Seq<char>| #[trigger] s1.contains(y) <==> (a.dm_conversations.contains(y) || y == partner) by {
        if !a.dm_conversations.contains(partner) && s1.contains(y) {
            let k = choose|k: int| 0 <= k < s1.len() && s1[k] == y;
            if k < a.dm_conversations.len() {
                assert(a.dm_conversations[k] == y);
            }
        }
        if a.dm_conversations.contains(y) && !a.dm_conversations.contains(partner) {
            let k = choose|k: int| 0 <= k < a.dm_conversations.len() && a.dm_conversations[k] == y;
            assert(s1[k] == y);
        }
    }
}

/// Opening a direct conversation from the user list keeps the list of direct
/// conversations free of duplicates, and clears that conversation's unread count.
pub proof fn law_open_dm_clears_unread(a: ChatAppView, user: Seq<char>)
    requires
        no_duplicates(a.dm_conversations),
        user != a.nick,
    ensures
        no_duplicates(select_user_spec(a, user).dm_conversations),
        select_user_spec(a, user).dm_conversations.contains(user),
        unread_of(select_user_spec(a, user).unread, user) == 0,
        select_user_spec(a, user).active == ConversationView::Dm(user),
{
    lemma_add_if_absent(a.dm_conversations, user);
}

proof fn lemma_no_space_trim(s: Seq<char>)
    requires
        all_handle_chars(s),
    ensures
        trim(s) == s,
{
    if s.len() > 0 {
        assert(crate::text::is_handle_char(s[0]));
        assert(!is_space(s[0]));
        assert(trim_start(s) == s);
        assert(crate::text::is_handle_char(s.last()));
        assert(!is_space(s.last()));
    }
}

/// Every nick that the client lets through is one the server accepts as it is sent: it
/// has no surrounding space to trim, and its length and characters pass the server's rule.
pub proof fn law_client_nicks_pass_server(a: ChatAppView)
    requires
        validate_nick_spec(a).0,
    ensures
        trim(a.nick) == a.nick,
        valid_nick_spec(a.nick),
{
    lemma_no_space_trim(a.nick);
    vstd::utf8::is_ascii_chars_encode_utf8(a.nick);
    assert(vstd::utf8::is_ascii_chars(a.nick)) by {
        assert forall|i: int| 0 <= i < a.nick.len() implies '\0' <= #[trigger] a.nick[i] <= '\u{7f}' by {
            assert(crate::text::is_handle_char(a.nick[i]));
        }
    }
    vstd::utf8::is_ascii_chars_encode_utf8(a.nick);
}

/// Logging out leaves a server that this client started running: back on the login
/// screen, the server button rejoins it, on the server's port, as the same nick.
pub proof fn law_logout_keeps_server(a: ChatAppView)
    requires
        a.server_started,
    ensures
        logout_spec(a).server_started,
        logout_spec(a).mode == AppMode::Login,
        press_server_button_spec(logout_spec(a)).1 is Rejoin,
        validate_nick_spec(a).0 ==> press_server_button_spec(logout_spec(a)).1 == ServerButtonView::Rejoin(
            Some(ConnectionView { ip: a.server_ip, port: a.local_server_port, nick: a.nick }),
        ),
        validate_nick_spec(a).0 ==> press_server_button_spec(logout_spec(a)).0.mode == AppMode::Chat,
{
}

/// What the client sends for a typed message reaches the server's state as a command from
/// the sender's session carrying the text as typed: a group chat from the group
/// conversation, a direct message to the partner from a direct conversation.
pub proof fn law_typed_message_reaches_server(a: ChatAppView, now: Seq<char>, id: SessionId)
    requires
        a.input_message.len() > 0,
    ensures
        send_message_spec(a, now).1 matches Some(m) && dispatch_spec(id, m) == ActionView::Send(
            match a.active {
                ConversationView::Group => StateCmdView::Chat { session_id: id, body: a.input_message },
                ConversationView::Dm(p) => StateCmdView::Dm { session_id: id, to: p, body: a.input_message },
            },
        ),
{
}

/// The names of a user list each with a space in front, as they stand between the commas
/// of a presence line.
pub open spec fn spaced(users: Seq<Seq<char>>) -> Seq<Seq<char>> {
    users.map_values(|u: Seq<char>| seq![' '] + u)
}

proof fn lemma_split_users(users: Seq<Seq<char>>)
    requires
        users.len() >= 1,
        forall|i: int| 0 <= i < users.len() ==> !(#[trigger] users[i]).contains(','),
    ensures
        split_on(seq![' '] + join(users, ", "@), ',') == spaced(users),
    decreases users.len(),
{
    reveal_strlit(", ");
    let last = seq![' '] + users.last();
    assert(!last.contains(',')) by {
        if last.contains(',') {
            let k = choose|k: int| 0 <= k < last.len() && last[k] == ',';
            assert(users.last()[k - 1] == ',');
            assert(users[users.len() - 1].contains(','));
        }
    }
    lemma_split_on_none(last, ',');
    if users.len() == 1 {
        assert(join(users, ", "@) == users[0]);
        assert(spaced(users) =~= seq![last]);
    } else {
        let dl = users.drop_last();
        lemma_split_users(dl);
        let front = seq![' '] + join(dl, ", "@);
        assert(seq![' '] + join(users, ", "@) =~= front + seq![','] + last);
        lemma_split_on_append(front, last, ',');
        assert(spaced(dl) + seq![last] =~= spaced(users));
    }
}

proof fn lemma_trim_spaced(u: Seq<char>)
    requires
        trim(u) == u,
    ensures
        trim(seq![' '] + u) == u,
{
    let s = seq![' '] + u;
    assert(is_space(s[0]));
    assert(s.drop_first() =~= u);
    assert(trim_start(s) == trim_start(u));
}

proof fn lemma_trimmed_users(users: Seq<Seq<char>>)
    requires
        forall|i: int| 0 <= i < users.len() ==> (#[trigger] users[i]).len() > 0 && trim(users[i]) == users[i],
    ensures
        nonempty_trimmed(spaced(users)) == users,
    decreases users.len(),
{
    if users.len() > 0 {
        let dl = users.drop_last();
        assert(spaced(users).drop_last() =~= spaced(dl));
        lemma_trimmed_users(dl);
        assert(users[users.len() - 1].len() > 0);
        lemma_trim_spaced(users.last());
        assert(spaced(users).last() == seq![' '] + users.last());
        assert(dl.push(users.last()) =~= users);
    }
}

/// A presence line of the single-room server, read by the client as plain text, gives
/// back the listed users, in order, as the client's online users, where no user name is
/// empty, holds a comma or has white space at either end (as no handle does); nothing
/// else of the client state changes.
pub proof fn law_presence_line_read_back(
    a: ChatAppView,
    users: Seq<Seq<char>>,
    online: usize,
    lowered: Seq<char>,
    now: Seq<char>,
)
    requires
        forall|i: int| 0 <= i < users.len() ==> (#[trigger] users[i]).len() > 0 && !users[i].contains(',')
            && trim(users[i]) == users[i],
    ensures
        plain_text_spec(
            a,
            crate::lobby::plain_text(crate::lobby::ServerMsgView::Presence { online, users }),
            lowered,
            now,
        ) == (ChatAppView { online_users: users, ..a }),
{
    reveal_strlit("Online (");
    reveal_strlit("): ");
    reveal_strlit("Online");
    reveal_strlit(", ");
    let d = decimal(online as nat);
    let rest = seq![' '] + join(users, ", "@);
    let msg = crate::lobby::plain_text(crate::lobby::ServerMsgView::Presence { online, users });
    let k: int = 9 + d.len() as int;
    assert(msg =~= "Online ("@ + d + seq![')', ':'] + rest);
    assert(msg.take(6) =~= "Online"@);
    assert(is_prefix("Online"@, msg));
    lemma_decimal_digits(online as nat);
    assert(msg[k] == ':');
    assert(occurs_at(msg, seq![':'], k)) by {
        assert(msg.subrange(k, k + 1) =~= seq![':']);
    }
    assert forall|j: int| 0 <= j < k implies !occurs_at(msg, seq![':'], j) by {
        if occurs_at(msg, seq![':'], j) {
            assert(msg.subrange(j, j + 1)[0] == msg[j]);
            if 8 <= j < k - 1 {
                assert(msg[j] == d[j - 8]);
            }
        }
    }
    lemma_find_from_first(msg, seq![':'], 0, k);
    assert(first_char(msg, ':') == Some(k));
    assert(msg.skip(k + 1) =~= rest);
    if users.len() == 0 {
        assert(rest =~= seq![' ']);
        assert(!rest.contains(',')) by {
            if rest.contains(',') {
                let q = choose|q: int| 0 <= q < rest.len() && rest[q] == ',';
            }
        }
        lemma_split_on_none(rest, ',');
        let sp = seq![' '];
        assert(is_space(sp[0]));
        assert(sp.drop_first() =~= Seq::<char>::empty());
        assert(trim_start(sp) == trim_start(Seq::<char>::empty()));
        assert(trim(rest).len() == 0);
        assert(seq![rest].drop_last() =~= Seq::<Seq<char>>::empty());
        assert(seq![rest].last() == rest);
        assert(nonempty_trimmed(Seq::<Seq<char>>::empty()) =~= Seq::<Seq<char>>::empty());
        assert(nonempty_trimmed(seq![rest]) =~= Seq::<Seq<char>>::empty());
        assert(users =~= Seq::<Seq<char>>::empty());
    } else {
        lemma_split_users(users);
        lemma_trimmed_users(users);
    }
    assert(online_users_from(rest) == users);
}

/// A group history from the server becomes the group conversation, line for line in the
/// server's order, each line shown as its sender, body and timestamp; a direct-message
/// history becomes the conversation with its partner in the same way.
pub proof fn law_history_shown_in_order(a: ChatAppView, ls: Seq<ChatLineView>, partner: Seq<char>, now: Seq<char>)
    ensures
        ({
            let g = msgs_of(
                apply_server_msg_spec(a, ServerMsgView::History { messages: ls }, now).messages,
                ConversationView::Group,
            );
            &&& g.len() == ls.len()
            &&& forall|k: int| 0 <= k < ls.len() ==> #[trigger] g[k] == (ls[k].from, ls[k].body, ls[k].timestamp)
        }),
        ({
            let d = msgs_of(
                apply_server_msg_spec(a, ServerMsgView::DmHistory { partner, messages: ls }, now).messages,
                ConversationView::Dm(partner),
            );
            &&& d.len() == ls.len()
            &&& forall|k: int| 0 <= k < ls.len() ==> #[trigger] d[k] == (ls[k].from, ls[k].body, ls[k].timestamp)
        }),
{
}

/// A handle-name character: an ASCII letter or digit, `_` or `-`.
pub open spec fn handle_name_char(c: char) -> bool {
    ('a' <= c <= 'z') || ('A' <= c <= 'Z') || ('0' <= c <= '9') || c == '_' || c == '-'
}

/// The client accepts exactly the nicks of 2 to 24 characters that are each an ASCII
/// letter or digit, `_` or `-`, wherever those stand; accepting one changes nothing.
pub proof fn law_client_accepts_handles(a: ChatAppView)
    ensures
        validate_nick_spec(a).0 <==> (2 <= a.nick.len() <= 24 && forall|i: int|
            0 <= i < a.nick.len() ==> handle_name_char(#[trigger] a.nick[i])),
        validate_nick_spec(a).0 ==> validate_nick_spec(a).1 == a,
{
    let ascii = forall|i: int| 0 <= i < a.nick.len() ==> handle_name_char(#[trigger] a.nick[i]);
    if ascii {
        assert(vstd::utf8::is_ascii_chars(a.nick)) by {
            assert forall|i: int| 0 <= i < a.nick.len() implies '\0' <= #[trigger] a.nick[i] <= '\u{7f}' by {
                assert(handle_name_char(a.nick[i]));
            }
        }
        vstd::utf8::is_ascii_chars_encode_utf8(a.nick);
        assert(all_handle_chars(a.nick)) by {
            assert forall|i: int| 0 <= i < a.nick.len() implies crate::text::is_handle_char(#[trigger] a.nick[i]) by {
                assert(handle_name_char(a.nick[i]));
            }
        }
    }
    if validate_nick_spec(a).0 {
        assert(vstd::utf8::is_ascii_chars(a.nick)) by {
            assert forall|i: int| 0 <= i < a.nick.len() implies '\0' <= #[trigger] a.nick[i] <= '\u{7f}' by {
                assert(crate::text::is_handle_char(a.nick[i]));
            }
        }
        vstd::utf8::is_ascii_chars_encode_utf8(a.nick);
        assert forall|i: int| 0 <= i < a.nick.len() implies handle_name_char(#[trigger] a.nick[i]) by {
            assert(crate::text::is_handle_char(a.nick[i]));
        }
    }
}

/// A group chat line, a system notice, an error and a welcome from the server each add one
/// line at the end of the group conversation, after the lines it had, and leave the other
/// conversations as they were.
pub proof fn law_group_lines_appended(a: ChatAppView, msg: ServerMsgView, now: Seq<char>, c: ConversationView)
    requires
        msg is Chat || msg is System || msg is Error || msg is Welcome,
        c != ConversationView::Group,
    ensures
        ({
            let b = apply_server_msg_spec(a, msg, now);
            let before = msgs_of(a.messages, ConversationView::Group);
            let after = msgs_of(b.messages, ConversationView::Group);
            &&& after.len() == before.len() + 1
            &&& after.drop_last() == before
            &&& after.last() == match msg {
                ServerMsgView::Chat { from, body, timestamp } => (from, body, timestamp),
                ServerMsgView::System { body } => ("System"@, body, now),
                ServerMsgView::Error { body } => ("Error"@, body, now),
                ServerMsgView::Welcome { nick, .. } => ("System"@, "Welcome, "@ + nick + "!"@, now),
                _ => after.last(),
            }
            &&& msgs_of(b.messages, c) == msgs_of(a.messages, c)
        }),
{
    let before = msgs_of(a.messages, ConversationView::Group);
    assert(before.push(msgs_of(apply_server_msg_spec(a, msg, now).messages, ConversationView::Group).last()).drop_last() =~= before);
}

} // verus!
