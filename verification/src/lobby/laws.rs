//! Properties of the single-room server.

use vstd::prelude::*;

use crate::lobby::{
    eq_ignore_ascii_case_spec, line_text, insert_position, insert_sorted, lemma_insert_position, plain_text,
    sorted_texts, texts_sorted, ChatLineView, ClientMsgView, ServerMsgView,
};
use crate::lobby::state::{
    lemma_online_count_bound, nicks_in_order, presence_msg, add_session_spec, broadcast_targets, delivers, disconnect_spec, effective_mode, error_to, handle_line_spec,
    identification_spec, is_json, lemma_session_index_from, nick_in_use_spec, nicks_distinct,
    session_index, session_nick, set_identity, target_of, well_formed, ClientMode, LobbyView,
    SessionId, SessionView, Target, MAX_HISTORY,
};
use crate::text::{lemma_text_lt_order, lemma_trim_idempotent, text_lt, trim};

verus! {

broadcast use vstd::seq_lib::group_to_multiset_ensures;

proof fn lemma_insert_sorted(s: Seq<Seq<char>>, x: Seq<char>)
    requires
        texts_sorted(s),
    ensures
        texts_sorted(insert_sorted(s, x)),
        insert_sorted(s, x).to_multiset() == s.to_multiset().insert(x),
{
    lemma_insert_position(s, x, 0);
    assert(s.skip(0) =~= s);
    let p = insert_position(s, x, 0);
    let r = s.insert(p, x);
    assert forall|i: int, j: int| 0 <= i < j < r.len() implies !text_lt(#[trigger] r[j], #[trigger] r[i]) by {
        if j < p {
            assert(r[i] == s[i] && r[j] == s[j]);
        } else if j == p {
            assert(r[i] == s[i]);
        } else if i < p {
            assert(r[i] == s[i] && r[j] == s[j - 1]);
            lemma_text_lt_order(s[j - 1], s[i], x);
        } else if i == p {
            assert(r[j] == s[j - 1]);
            lemma_text_lt_order(s[j - 1], x, s[p]);
            lemma_text_lt_order(x, s[p], s[p]);
        } else {
            assert(r[i] == s[i - 1] && r[j] == s[j - 1]);
        }
    }
}

/// The presence list is the handles in `str` order: sorted, and holding each handle as
/// often as the sessions do.
pub proof fn law_presence_list_sorted(s: Seq<Seq<char>>)
    ensures
        texts_sorted(sorted_texts(s)),
        sorted_texts(s).to_multiset() == s.to_multiset(),
    decreases s.len(),
{
    if s.len() > 0 {
        law_presence_list_sorted(s.drop_last());
        lemma_insert_sorted(sorted_texts(s.drop_last()), s.last());
        assert(s.drop_last().push(s.last()) =~= s);
    }
}

proof fn lemma_eq_ignore_ascii_case_symmetric(a: Seq<char>, b: Seq<char>)
    ensures
        eq_ignore_ascii_case_spec(a, b) == eq_ignore_ascii_case_spec(b, a),
{
    let x = vstd::utf8::encode_utf8(a);
    let y = vstd::utf8::encode_utf8(b);
    if eq_ignore_ascii_case_spec(a, b) {
        assert forall|i: int| 0 <= i < y.len() implies crate::lobby::ascii_lower(#[trigger] y[i])
            == crate::lobby::ascii_lower(x[i]) by {
            assert(crate::lobby::ascii_lower(x[i]) == crate::lobby::ascii_lower(y[i]));
        }
    }
    if eq_ignore_ascii_case_spec(b, a) {
        assert forall|i: int| 0 <= i < x.len() implies crate::lobby::ascii_lower(#[trigger] x[i])
            == crate::lobby::ascii_lower(y[i]) by {
            assert(crate::lobby::ascii_lower(y[i]) == crate::lobby::ascii_lower(x[i]));
        }
    }
}

proof fn lemma_set_identity_keeps_nicks_distinct(
    ss: Seq<SessionView>,
    id: SessionId,
    nick: Seq<char>,
    mode: ClientMode,
)
    requires
        nicks_distinct(ss),
        session_nick(ss, id) is None,
        !nick_in_use_spec(ss, nick),
    ensures
        nicks_distinct(set_identity(ss, id, nick, mode)),
{
    lemma_session_index_from(ss, id, 0);
    match session_index(ss, id) {
        Some(k) => {
            let ss2 = set_identity(ss, id, nick, mode);
            assert forall|i: int, j: int|
                0 <= i < ss2.len() && 0 <= j < ss2.len() && i != j && (#[trigger] ss2[i].nick) is Some
                    && (#[trigger] ss2[j].nick) is Some implies !eq_ignore_ascii_case_spec(
                ss2[i].nick.unwrap(),
                ss2[j].nick.unwrap(),
            ) by {
                if i == k {
                    assert(ss2[j] == ss[j]);
                    assert(ss[j].nick is Some);
                    lemma_eq_ignore_ascii_case_symmetric(nick, ss[j].nick.unwrap());
                } else if j == k {
                    assert(ss2[i] == ss[i]);
                    assert(ss[i].nick is Some);
                } else {
                    assert(ss2[i] == ss[i]);
                    assert(ss2[j] == ss[j]);
                }
            }
        },
        None => {},
    }
}

proof fn lemma_disconnect_keeps_nicks_distinct(st: LobbyView, id: SessionId)
    requires
        nicks_distinct(st.sessions),
    ensures
        nicks_distinct(disconnect_spec(st, id).0.sessions),
{
    let ss = st.sessions;
    lemma_session_index_from(ss, id, 0);
    match session_index(ss, id) {
        Some(k) => {
            let ss2 = ss.remove(k);
            assert forall|i: int, j: int|
                0 <= i < ss2.len() && 0 <= j < ss2.len() && i != j && (#[trigger] ss2[i].nick) is Some
                    && (#[trigger] ss2[j].nick) is Some implies !eq_ignore_ascii_case_spec(
                ss2[i].nick.unwrap(),
                ss2[j].nick.unwrap(),
            ) by {
                let i0 = if i < k { i } else { i + 1 };
                let j0 = if j < k { j } else { j + 1 };
                assert(ss2[i] == ss[i0]);
                assert(ss2[j] == ss[j0]);
                assert(ss[i0].nick is Some && ss[j0].nick is Some);
            }
        },
        None => {},
    }
}

/// No line of input ever gives two sessions handles that are equal up to ASCII case.
pub proof fn law_handles_stay_distinct(
    st: LobbyView,
    id: SessionId,
    line: Seq<char>,
    parsed: Option<ClientMsgView>,
    ts: Seq<char>,
)
    requires
        well_formed(st),
        nicks_distinct(st.sessions),
    ensures
        nicks_distinct(handle_line_spec(st, id, line, parsed, ts).0.sessions),
{
    let t = trim(line);
    let ss = st.sessions;
    if t.len() > 0 {
        if session_nick(ss, id) is None {
            let mode = if is_json(t) { ClientMode::Json } else { ClientMode::Plain };
            let nick = if is_json(t) { trim(parsed->Some_0->Hello_nick) } else { t };
            if identification_spec(st, id, t, parsed).0 != st {
                lemma_set_identity_keeps_nicks_distinct(ss, id, nick, mode);
            }
        } else {
            lemma_disconnect_keeps_nicks_distinct(st, id);
        }
    }
}

/// Connections that open or close never give two sessions handles that are equal up to
/// ASCII case.
pub proof fn law_connections_keep_handles_distinct(st: LobbyView, id: SessionId)
    requires
        nicks_distinct(st.sessions),
    ensures
        nicks_distinct(add_session_spec(st.sessions, id)),
        nicks_distinct(disconnect_spec(st, id).0.sessions),
{
    let ss = st.sessions;
    lemma_disconnect_keeps_nicks_distinct(st, id);
    lemma_session_index_from(ss, id, 0);
    let ss2 = add_session_spec(ss, id);
    assert forall|i: int, j: int|
        0 <= i < ss2.len() && 0 <= j < ss2.len() && i != j && (#[trigger] ss2[i].nick) is Some
            && (#[trigger] ss2[j].nick) is Some implies !eq_ignore_ascii_case_spec(
        ss2[i].nick.unwrap(),
        ss2[j].nick.unwrap(),
    ) by {
        assert(i < ss.len() && j < ss.len());
        assert(ss2[i] == ss[i] && ss2[j] == ss[j]);
    }
}

/// Once a session has left, no session goes by its handle, in any ASCII case.
pub proof fn law_leaving_frees_handle(st: LobbyView, id: SessionId, nick: Seq<char>)
    requires
        nicks_distinct(st.sessions),
        session_nick(st.sessions, id) == Some(nick),
    ensures
        !nick_in_use_spec(disconnect_spec(st, id).0.sessions, nick),
{
    let ss = st.sessions;
    lemma_session_index_from(ss, id, 0);
    let k = session_index(ss, id).unwrap();
    let ss2 = ss.remove(k);
    assert forall|i: int| 0 <= i < ss2.len() && (#[trigger] ss2[i].nick) is Some implies !eq_ignore_ascii_case_spec(
        ss2[i].nick.unwrap(),
        nick,
    ) by {
        let i0 = if i < k { i } else { i + 1 };
        assert(ss2[i] == ss[i0]);
        assert(ss[k].nick is Some);
        assert(ss[i0].nick is Some);
    }
}

/// A session that has identified cannot identify again: a JSON hello is refused and
/// changes nothing.
pub proof fn law_handle_set_once(
    st: LobbyView,
    id: SessionId,
    line: Seq<char>,
    nick: Seq<char>,
    ts: Seq<char>,
)
    requires
        session_nick(st.sessions, id) is Some,
        is_json(trim(line)),
    ensures
        handle_line_spec(st, id, line, Some(ClientMsgView::Hello { nick }), ts) == (
            st,
            error_to(st.sessions, id, "You already set your handle"@),
        ),
{
}

/// `tg` is where a message to some identified session of `ss` goes.
pub open spec fn identified_target(ss: Seq<SessionView>, tg: Target) -> bool {
    exists|i: int| 0 <= i < ss.len() && ss[i].nick is Some && tg == #[trigger] target_of(ss[i])
}

proof fn lemma_broadcast_targets(ss: Seq<SessionView>, msg: ServerMsgView)
    ensures
        forall|t: int| 0 <= t < broadcast_targets(ss, msg).len() ==> #[trigger] identified_target(
            ss,
            broadcast_targets(ss, msg)[t],
        ),
        forall|i: int| 0 <= i < ss.len() && (#[trigger] ss[i]).nick is Some && delivers(effective_mode(ss[i]), msg)
            ==> broadcast_targets(ss, msg).contains(target_of(ss[i])),
    decreases ss.len(),
{
    if ss.len() > 0 {
        let prev = ss.drop_last();
        lemma_broadcast_targets(prev, msg);
        let b = broadcast_targets(ss, msg);
        let pb = broadcast_targets(prev, msg);
        assert forall|t: int| 0 <= t < b.len() implies #[trigger] identified_target(ss, b[t]) by {
            if t < pb.len() {
                assert(b[t] == pb[t]);
                assert(identified_target(prev, pb[t]));
                let i = choose|i: int| 0 <= i < prev.len() && prev[i].nick is Some && pb[t] == #[trigger] target_of(prev[i]);
                assert(ss[i] == prev[i]);
                assert(target_of(ss[i]) == b[t]);
            } else {
                assert(b[t] == target_of(ss[ss.len() - 1]));
            }
        }
        assert forall|i: int| 0 <= i < ss.len() && (#[trigger] ss[i]).nick is Some && delivers(effective_mode(ss[i]), msg)
            implies b.contains(target_of(ss[i])) by {
            if i < ss.len() - 1 {
                assert(prev[i] == ss[i]);
                assert(pb.contains(target_of(prev[i])));
                let t = choose|t: int| 0 <= t < pb.len() && pb[t] == target_of(prev[i]);
                assert(b[t] == pb[t]);
            } else {
                assert(b[b.len() - 1] == target_of(ss[i]));
            }
        }
    }
}

/// A chat line from an identified session goes to every identified session, the sender
/// too, and to no other; it becomes the newest line of the history, which keeps at most
/// `MAX_HISTORY` lines.
pub proof fn law_chat_reaches_everyone(
    st: LobbyView,
    id: SessionId,
    line: Seq<char>,
    parsed: Option<ClientMsgView>,
    ts: Seq<char>,
)
    requires
        well_formed(st),
        session_nick(st.sessions, id) is Some,
        trim(line).len() > 0,
        !is_json(trim(line)),
        trim(line) != "/who"@,
        trim(line) != "/quit"@,
    ensures
        ({
            let (st2, out) = handle_line_spec(st, id, line, parsed, ts);
            let ss = st.sessions;
            &&& out.len() == 1
            &&& out[0].msg == (ServerMsgView::Chat {
                from: session_nick(ss, id).unwrap(),
                body: trim(line),
                timestamp: ts,
            })
            &&& forall|t: int| 0 <= t < out[0].targets.len() ==> #[trigger] identified_target(ss, out[0].targets[t])
            &&& forall|i: int| 0 <= i < ss.len() && (#[trigger] ss[i]).nick is Some ==> out[0].targets.contains(target_of(ss[i]))
            &&& st2.sessions == ss
            &&& st2.history.last() == (ChatLineView {
                from: session_nick(ss, id).unwrap(),
                body: trim(line),
                timestamp: ts,
            })
            &&& st2.history.len() <= MAX_HISTORY
        }),
{
    let t = trim(line);
    lemma_trim_idempotent(line);
    let ss = st.sessions;
    let msg = ServerMsgView::Chat { from: session_nick(ss, id).unwrap(), body: t, timestamp: ts };
    lemma_broadcast_targets(ss, msg);
    reveal_strlit(": ");
    assert(plain_text(msg).len() > 0);
    assert forall|i: int| 0 <= i < ss.len() && (#[trigger] ss[i]).nick is Some implies delivers(effective_mode(ss[i]), msg) by {}
}

/// A presence message counts the sessions that have a handle, and only those: its online
/// count is the number of handles it lists, which are the handles of the sessions, each as
/// often as the sessions hold it, in `str` order. Connections that have not set a handle
/// are neither counted nor listed.
pub proof fn law_presence_counts_handles(ss: Seq<SessionView>)
    requires
        ss.len() <= usize::MAX,
    ensures
        presence_msg(ss) matches ServerMsgView::Presence { online, users } && online == users.len()
            && texts_sorted(users) && users.to_multiset() == nicks_in_order(ss).to_multiset(),
{
    lemma_online_count_bound(ss);
    law_presence_list_sorted(nicks_in_order(ss));
    let users = sorted_texts(nicks_in_order(ss));
    assert(users.to_multiset().len() == users.len());
    assert(nicks_in_order(ss).to_multiset().len() == nicks_in_order(ss).len());
}

/// Asking who is online (`/who`, or a JSON `who` message) from a session with a handle
/// changes nothing and answers that session alone with the presence list: the online
/// count equals the number of handles listed, which are the sessions' handles in `str`
/// order.
pub proof fn law_who_answers_with_presence(
    st: LobbyView,
    id: SessionId,
    line: Seq<char>,
    parsed: Option<ClientMsgView>,
    ts: Seq<char>,
)
    requires
        session_nick(st.sessions, id) is Some,
        st.sessions.len() <= usize::MAX,
        trim(line) == "/who"@ || (is_json(trim(line)) && parsed == Some(ClientMsgView::Who)),
    ensures
        ({
            let (st2, out) = handle_line_spec(st, id, line, parsed, ts);
            &&& st2 == st
            &&& out.len() == 1
            &&& out[0].targets == crate::lobby::state::send_to_targets(st.sessions, id, out[0].msg)
            &&& out[0].msg matches ServerMsgView::Presence { online, users } && online == users.len()
                && texts_sorted(users) && users.to_multiset() == nicks_in_order(st.sessions).to_multiset()
        }),
{
    reveal_strlit("/who");
    law_presence_counts_handles(st.sessions);
}

/// How the single-room server's messages read in plain text: a chat message as
/// `from: body`; a history as one such line per message, in order, separated by
/// newlines, and nothing for an empty one; an error with `Error: ` in front.
pub proof fn law_room_text(ms: Seq<ChatLineView>, m: ChatLineView, body: Seq<char>)
    ensures
        plain_text(ServerMsgView::Chat { from: m.from, body: m.body, timestamp: m.timestamp }) == m.from
            + ": "@ + m.body,
        plain_text(ServerMsgView::History { messages: ms.push(m) }) == if ms.len() == 0 {
            plain_text(ServerMsgView::Chat { from: m.from, body: m.body, timestamp: m.timestamp })
        } else {
            plain_text(ServerMsgView::History { messages: ms }) + "\n"@ + plain_text(
                ServerMsgView::Chat { from: m.from, body: m.body, timestamp: m.timestamp },
            )
        },
        plain_text(ServerMsgView::History { messages: Seq::empty() }) == Seq::<char>::empty(),
        plain_text(ServerMsgView::Error { body }) == "Error: "@ + body,
{
    let texts = ms.push(m).map_values(|l: ChatLineView| line_text(l));
    assert(texts.drop_last() =~= ms.map_values(|l: ChatLineView| line_text(l)));
    assert(texts.last() == line_text(m));
    if ms.len() == 0 {
        assert(texts.len() == 1);
    }
}

} // verus!
