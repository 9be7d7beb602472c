//! Properties of the chat state that hold across commands and calls.

use vstd::prelude::*;

use crate::protocol::ChatLineView;
use crate::server::{counter_after, ids_handed_out};
use crate::server::state::{
    ChatStateView, ClientMode, IdentifyOkView, SessionId, SessionView, StateCmdView,
    add_session_spec, already_identified_text, broadcast_targets, chat_spec, dm_key_spec, dm_lines,
    dm_spec, identify_spec, ids_distinct, lemma_nick_index_from, lemma_online_count_bound,
    lemma_session_index_from, lemma_session_index_of, nick_in_use_spec, nick_index_from,
    nick_list_spec, nick_taken_text, nicks_distinct, online_count_spec, remove_spec,
    session_index, session_nick, set_identity, step_spec, target_of, well_formed, Target,
    bounded_push, initial_state, StepView, presence_msg,
};
use crate::text::{lemma_bytes_lt_asym, lemma_text_lt_total, trim};
use crate::protocol::ServerMsgView;
use crate::server::{line_text, plain_text};

verus! {

/// Both partners of a conversation name it by the same key, whichever of them asks.
pub proof fn law_dm_key_symmetric(a: Seq<char>, b: Seq<char>)
    ensures
        dm_key_spec(a, b) == dm_key_spec(b, a),
{
    lemma_bytes_lt_asym(vstd::utf8::encode_utf8(a), vstd::utf8::encode_utf8(b));
    lemma_text_lt_total(a, b);
}

/// Both partners of a conversation see the same direct-message history.
pub proof fn law_dm_history_shared(
    m: Map<(Seq<char>, Seq<char>), Seq<ChatLineView>>,
    a: Seq<char>,
    b: Seq<char>,
)
    ensures
        dm_lines(m, a, b) == dm_lines(m, b, a),
{
    law_dm_key_symmetric(a, b);
}

/// The online count of a presence message is the number of users it lists.
pub proof fn law_presence_count_is_list_length(ss: Seq<SessionView>)
    ensures
        online_count_spec(ss) == nick_list_spec(ss).len(),
{
    lemma_online_count_bound(ss);
}

proof fn lemma_set_identity_index(ss: Seq<SessionView>, id: SessionId, nick: Seq<char>, mode: ClientMode)
    requires
        ids_distinct(ss),
    ensures
        ids_distinct(set_identity(ss, id, nick, mode)),
        session_index(set_identity(ss, id, nick, mode), id) == session_index(ss, id),
        session_index(ss, id) is Some ==> session_nick(set_identity(ss, id, nick, mode), id) == Some(nick),
{
    lemma_session_index_from(ss, id, 0);
    match session_index(ss, id) {
        Some(i) => {
            let ss2 = set_identity(ss, id, nick, mode);
            assert(ids_distinct(ss2));
            lemma_session_index_of(ss2, i);
        },
        None => {},
    }
}

/// Once a session has identified, identifying it again is refused with
/// `already_identified`, whatever nick it asks for.
pub proof fn law_identify_only_once(
    st: ChatStateView,
    id: SessionId,
    nick: Seq<char>,
    mode: ClientMode,
    nick2: Seq<char>,
    mode2: ClientMode,
)
    requires
        well_formed(st),
        session_index(st.sessions, id) is Some,
        identify_spec(st, id, nick, mode).2 is Ok,
    ensures
        identify_spec(identify_spec(st, id, nick, mode).0, id, nick2, mode2).2 == Err::<IdentifyOkView, Seq<char>>(
            already_identified_text(),
        ),
{
    lemma_set_identity_index(st.sessions, id, nick, mode);
}

/// A successful identification makes the nick taken: the session goes by it, and another
/// session that asks for it is refused.
pub proof fn law_identified_nick_is_taken(
    st: ChatStateView,
    id: SessionId,
    nick: Seq<char>,
    mode: ClientMode,
    other: SessionId,
    mode2: ClientMode,
)
    requires
        well_formed(st),
        session_index(st.sessions, id) is Some,
        identify_spec(st, id, nick, mode).2 is Ok,
        session_nick(identify_spec(st, id, nick, mode).0.sessions, other) is None,
    ensures
        session_nick(identify_spec(st, id, nick, mode).0.sessions, id) == Some(nick),
        nick_in_use_spec(identify_spec(st, id, nick, mode).0.sessions, nick),
        identify_spec(identify_spec(st, id, nick, mode).0, other, nick, mode2).2 == Err::<IdentifyOkView, Seq<char>>(
            nick_taken_text(nick),
        ),
{
    lemma_set_identity_index(st.sessions, id, nick, mode);
    let ss2 = identify_spec(st, id, nick, mode).0.sessions;
    let i = session_index(ss2, id).unwrap();
    lemma_session_index_from(ss2, id, 0);
    assert(ss2[i].nick == Some(nick));
}

/// Applying a command never gives two sessions the same nick, where no session registered
/// by the command has identified already.
pub proof fn law_step_keeps_nicks_distinct(st: ChatStateView, cmd: StateCmdView, ts: Seq<char>)
    requires
        well_formed(st),
        nicks_distinct(st.sessions),
        cmd matches StateCmdView::AddSession { session } ==> session.nick is None,
    ensures
        nicks_distinct(step_spec(st, cmd, ts).0.sessions),
{
    let ss = st.sessions;
    match cmd {
        StateCmdView::AddSession { session } => {
            let ss2 = add_session_spec(ss, session);
            lemma_session_index_from(ss, session.id, 0);
            assert forall|i: int, j: int|
                0 <= i < ss2.len() && 0 <= j < ss2.len() && i != j && (#[trigger] ss2[i].nick) is Some
                    implies ss2[i].nick != (#[trigger] ss2[j].nick) by {
                if i < ss.len() && j < ss.len() {
                    assert(ss[i].nick == ss2[i].nick || ss2[i].nick is None);
                }
            }
        },
        StateCmdView::RemoveSession { session_id } => {
            match session_index(ss, session_id) {
                Some(k) => {
                    lemma_session_index_from(ss, session_id, 0);
                    let ss2 = ss.remove(k);
                    ss.remove_ensures(k);
                    assert forall|i: int, j: int|
                        0 <= i < ss2.len() && 0 <= j < ss2.len() && i != j && (#[trigger] ss2[i].nick) is Some
                            implies ss2[i].nick != (#[trigger] ss2[j].nick) by {
                        let i0 = if i < k { i } else { i + 1 };
                        let j0 = if j < k { j } else { j + 1 };
                        assert(ss2[i] == ss[i0]);
                        assert(ss2[j] == ss[j0]);
                        assert(ss[i0].nick is Some);
                    }
                },
                None => {},
            }
        },
        StateCmdView::Identify { session_id, nick, mode } => {
            if identify_spec(st, session_id, nick, mode).2 is Ok {
                lemma_session_index_from(ss, session_id, 0);
                match session_index(ss, session_id) {
                    Some(k) => {
                        let ss2 = ss.update(k, SessionView { id: session_id, nick: Some(nick), mode });
                        assert(ss2 == identify_spec(st, session_id, nick, mode).0.sessions);
                        assert(ss[k].nick is None);
                        assert forall|i: int, j: int|
                            0 <= i < ss2.len() && 0 <= j < ss2.len() && i != j && (#[trigger] ss2[i].nick) is Some
                                implies ss2[i].nick != (#[trigger] ss2[j].nick) by {
                            if i == k {
                                assert(ss2[j] == ss[j]);
                                assert(!(0 <= j < ss.len() && ss[j].nick == Some(nick)));
                            } else if j == k {
                                assert(ss2[i] == ss[i]);
                                assert(!(0 <= i < ss.len() && ss[i].nick == Some(nick)));
                            } else {
                                assert(ss2[i] == ss[i]);
                                assert(ss2[j] == ss[j]);
                            }
                        }
                    },
                    None => {},
                }
            }
        },
        _ => {},
    }
}

/// Removing a session that went by `nick` frees the nick for others.
pub proof fn law_leaving_frees_nick(st: ChatStateView, id: SessionId, nick: Seq<char>)
    requires
        well_formed(st),
        nicks_distinct(st.sessions),
        session_nick(st.sessions, id) == Some(nick),
    ensures
        !nick_in_use_spec(remove_spec(st, id).0.sessions, nick),
{
    let ss = st.sessions;
    lemma_session_index_from(ss, id, 0);
    let k = session_index(ss, id).unwrap();
    let ss2 = ss.remove(k);
    ss.remove_ensures(k);
    assert forall|i: int| 0 <= i < ss2.len() implies ss2[i].nick != Some(nick) by {
        let i0 = if i < k { i } else { i + 1 };
        assert(ss2[i] == ss[i0]);
        assert(ss[k].nick == Some(nick));
    }
}

/// `tg` is where a message to some identified session of `ss` goes.
pub open spec fn identified_target(ss: Seq<SessionView>, tg: Target) -> bool {
    exists|i: int| 0 <= i < ss.len() && ss[i].nick is Some && tg == #[trigger] target_of(ss[i])
}

/// `tg` is a target of a broadcast that leaves out `except`: an identified session other
/// than `except`.
pub open spec fn broadcast_member(ss: Seq<SessionView>, except: Option<SessionId>, tg: Target) -> bool {
    except != Some(tg.session_id) && identified_target(ss, tg)
}

proof fn lemma_broadcast_targets(ss: Seq<SessionView>, except: Option<SessionId>)
    ensures
        forall|t: int| 0 <= t < broadcast_targets(ss, except).len() ==> #[trigger] broadcast_member(
            ss,
            except,
            broadcast_targets(ss, except)[t],
        ),
        forall|i: int| 0 <= i < ss.len() && (#[trigger] ss[i]).nick is Some && except != Some(ss[i].id)
            ==> broadcast_targets(ss, except).contains(target_of(ss[i])),
    decreases ss.len(),
{
    if ss.len() > 0 {
        let prev = ss.drop_last();
        lemma_broadcast_targets(prev, except);
        let b = broadcast_targets(ss, except);
        let pb = broadcast_targets(prev, except);
        assert forall|t: int| 0 <= t < b.len() implies #[trigger] broadcast_member(ss, except, b[t]) by {
            if t < pb.len() {
                assert(b[t] == pb[t]);
                assert(broadcast_member(prev, except, pb[t]));
                let i = choose|i: int| 0 <= i < prev.len() && prev[i].nick is Some && pb[t] == #[trigger] target_of(prev[i]);
                assert(ss[i] == prev[i]);
                assert(target_of(ss[i]) == b[t]);
            } else {
                assert(b[t] == target_of(ss[ss.len() - 1]));
            }
        }
        assert forall|i: int| 0 <= i < ss.len() && (#[trigger] ss[i]).nick is Some && except != Some(ss[i].id)
            implies b.contains(target_of(ss[i])) by {
            if i < ss.len() - 1 {
                assert(prev[i] == ss[i]);
                assert(pb.contains(target_of(prev[i])));
                let t = choose|t: int| 0 <= t < pb.len() && pb[t] == target_of(prev[i]);
                assert(b[t] == pb[t]);
            } else {
                assert(b[b.len() - 1] == target_of(ss[i]));
            }
        }
    }
}

/// A group message goes to every identified session but the sender, and to no other, and
/// it ends the group history.
pub proof fn law_chat_reaches_everyone_but_sender(
    st: ChatStateView,
    id: SessionId,
    body: Seq<char>,
    ts: Seq<char>,
)
    requires
        well_formed(st),
        chat_spec(st, id, body, ts).1.len() > 0,
    ensures
        forall|t: int| 0 <= t < chat_spec(st, id, body, ts).1[0].targets.len() ==> #[trigger] broadcast_member(
            st.sessions,
            Some(id),
            chat_spec(st, id, body, ts).1[0].targets[t],
        ),
        forall|i: int| 0 <= i < st.sessions.len() && (#[trigger] st.sessions[i]).nick is Some
            && st.sessions[i].id != id ==> chat_spec(st, id, body, ts).1[0].targets.contains(
            target_of(st.sessions[i]),
        ),
        chat_spec(st, id, body, ts).0.history.last() == (ChatLineView {
            from: session_nick(st.sessions, id).unwrap(),
            body: crate::text::trim(body),
            timestamp: ts,
        }),
{
    lemma_broadcast_targets(st.sessions, Some(id));
    assert(chat_spec(st, id, body, ts).1[0].targets == broadcast_targets(st.sessions, Some(id)));
}

/// A direct message goes to the session that goes by the recipient's nick, and to no other.
pub proof fn law_dm_only_to_recipient(
    st: ChatStateView,
    id: SessionId,
    to: Seq<char>,
    body: Seq<char>,
    ts: Seq<char>,
)
    requires
        well_formed(st),
        dm_spec(st, id, to, body, ts).1.len() > 0,
        dm_spec(st, id, to, body, ts).1[0].msg is Dm,
    ensures
        ({
            let targets = dm_spec(st, id, to, body, ts).1[0].targets;
            &&& targets.len() == 1
            &&& exists|i: int| 0 <= i < st.sessions.len() && st.sessions[i].nick == Some(to)
                && targets[0] == target_of(st.sessions[i])
        }),
{
    let ss = st.sessions;
    lemma_nick_index_from(ss, to, 0);
    let j = nick_index_from(ss, to, 0).unwrap();
    lemma_session_index_of(ss, j);
}

proof fn lemma_counter_after(start: SessionId, k: nat)
    requires
        start + k <= u32::MAX,
    ensures
        counter_after(start, k) == start + k,
    decreases k,
{
    if k > 0 {
        lemma_counter_after(start, (k - 1) as nat);
    }
}

/// Session ids are distinct: a source that starts at 1 (`SessionIds::new`) hands out
/// 1, 2, 3, ... in order, one more at each call, for its first `u32::MAX` calls.
pub proof fn law_session_ids_distinct(k: nat)
    requires
        k <= u32::MAX,
    ensures
        ids_handed_out(1, k).len() == k,
        forall|i: int| 0 <= i < k ==> #[trigger] ids_handed_out(1, k)[i] == i + 1,
        forall|i: int, j: int| 0 <= i < j < k ==> ids_handed_out(1, k)[i] != ids_handed_out(1, k)[j],
        forall|i: int| 0 <= i < k ==> ids_handed_out(1, k)[i] >= 1,
        counter_after(1, k) == if k == u32::MAX { 0 } else { k + 1 },
{
    assert forall|i: int| 0 <= i < k implies #[trigger] ids_handed_out(1, k)[i] == i + 1 by {
        lemma_counter_after(1, i as nat);
    }
    if k == u32::MAX {
        lemma_counter_after(1, (k - 1) as nat);
    } else {
        lemma_counter_after(1, k);
    }
}

/// Appending to a history that holds at most `max` lines: the line goes at the end, and
/// where the history is full its oldest line goes; it still holds at most `max` lines.
pub proof fn law_history_append(h: Seq<ChatLineView>, l: ChatLineView, max: nat)
    requires
        max >= 1,
        h.len() <= max,
    ensures
        bounded_push(h, l, max) == if h.len() < max { h.push(l) } else { h.drop_first().push(l) },
        bounded_push(h, l, max).len() <= max,
        bounded_push(h, l, max).last() == l,
{
}

/// An identification changes no session but the one that identifies, and no history.
pub proof fn law_identify_touches_only_its_session(
    st: ChatStateView,
    id: SessionId,
    nick: Seq<char>,
    mode: ClientMode,
    i: int,
)
    requires
        0 <= i < st.sessions.len(),
        st.sessions[i].id != id,
    ensures
        identify_spec(st, id, nick, mode).0.sessions.len() == st.sessions.len(),
        identify_spec(st, id, nick, mode).0.sessions[i] == st.sessions[i],
        identify_spec(st, id, nick, mode).0.history == st.history,
        identify_spec(st, id, nick, mode).0.dm_history == st.dm_history,
{
    lemma_session_index_from(st.sessions, id, 0);
}

proof fn lemma_add_session_ids(ss: Seq<SessionView>, s: SessionView)
    requires
        ids_distinct(ss),
    ensures
        ids_distinct(add_session_spec(ss, s)),
{
    lemma_session_index_from(ss, s.id, 0);
    let ss2 = add_session_spec(ss, s);
    assert forall|i: int, j: int| 0 <= i < ss2.len() && 0 <= j < ss2.len() && i != j implies ss2[i].id != ss2[j].id by {
        if i < ss.len() && j < ss.len() {
            match session_index(ss, s.id) {
                Some(k) => {
                    if i != k && j != k {
                        assert(ss2[i] == ss[i] && ss2[j] == ss[j]);
                    }
                },
                None => {
                    assert(ss2[i] == ss[i] && ss2[j] == ss[j]);
                },
            }
        }
    }
}

/// Applying a command to a well-formed state gives a well-formed state.
pub proof fn lemma_step_keeps_well_formed(st: ChatStateView, cmd: StateCmdView, ts: Seq<char>)
    requires
        well_formed(st),
    ensures
        well_formed(step_spec(st, cmd, ts).0),
{
    let ss = st.sessions;
    match cmd {
        StateCmdView::AddSession { session } => {
            lemma_add_session_ids(ss, session);
        },
        StateCmdView::RemoveSession { session_id } => {
            lemma_session_index_from(ss, session_id, 0);
            match session_index(ss, session_id) {
                Some(k) => {
                    let ss2 = ss.remove(k);
                    assert forall|i: int, j: int| 0 <= i < ss2.len() && 0 <= j < ss2.len() && i != j implies ss2[i].id != ss2[j].id by {
                        let i0 = if i < k { i } else { i + 1 };
                        let j0 = if j < k { j } else { j + 1 };
                        assert(ss2[i] == ss[i0] && ss2[j] == ss[j0]);
                    }
                },
                None => {},
            }
        },
        StateCmdView::Identify { session_id, nick, mode } => {
            lemma_set_identity_index(ss, session_id, nick, mode);
        },
        StateCmdView::Dm { session_id, to, body } => {
            let st2 = step_spec(st, cmd, ts).0;
            assert forall|k| #[trigger] st2.dm_history.dom().contains(k) implies st2.dm_history[k].len() <= st2.max_history by {
                match session_nick(ss, session_id) {
                    Some(n) => {
                        let key = dm_key_spec(n, to);
                        if k != key {
                            assert(st.dm_history.dom().contains(k));
                        }
                    },
                    None => {},
                }
            }
        },
        _ => {},
    }
}

/// The state after applying timed commands `cs`, in order, to `st`.
pub open spec fn run_state(st: ChatStateView, cs: Seq<(StateCmdView, Seq<char>)>) -> ChatStateView
    decreases cs.len(),
{
    if cs.len() == 0 {
        st
    } else {
        step_spec(run_state(st, cs.drop_last()), cs.last().0, cs.last().1).0
    }
}

/// What applying timed commands `cs`, in order, to `st` gives back, one step per command.
pub open spec fn run_steps(st: ChatStateView, cs: Seq<(StateCmdView, Seq<char>)>) -> Seq<StepView>
    decreases cs.len(),
{
    if cs.len() == 0 {
        Seq::empty()
    } else {
        run_steps(st, cs.drop_last()).push(step_spec(run_state(st, cs.drop_last()), cs.last().0, cs.last().1).1)
    }
}

proof fn lemma_run_prefix(st: ChatStateView, cs: Seq<(StateCmdView, Seq<char>)>, i: int)
    requires
        0 <= i < cs.len(),
    ensures
        run_steps(st, cs).len() == cs.len(),
        run_steps(st, cs)[i] == step_spec(run_state(st, cs.take(i)), cs[i].0, cs[i].1).1,
        run_state(st, cs.take(i + 1)) == step_spec(run_state(st, cs.take(i)), cs[i].0, cs[i].1).0,
    decreases cs.len(),
{
    assert(cs.take(i + 1).drop_last() =~= cs.take(i));
    assert(cs.take(i + 1).last() == cs[i]);
    if i < cs.len() - 1 {
        lemma_run_prefix(st, cs.drop_last(), i);
        assert(cs.drop_last().take(i) =~= cs.take(i));
        assert(cs.drop_last()[i] == cs[i]);
    } else {
        assert(cs.drop_last() =~= cs.take(i));
        if cs.len() > 1 {
            lemma_run_prefix(st, cs.drop_last(), i - 1);
        }
        lemma_run_len(st, cs);
    }
}

proof fn lemma_run_len(st: ChatStateView, cs: Seq<(StateCmdView, Seq<char>)>)
    ensures
        run_steps(st, cs).len() == cs.len(),
    decreases cs.len(),
{
    if cs.len() > 0 {
        lemma_run_len(st, cs.drop_last());
    }
}

/// Commands take effect one at a time, in the order they arrive: the `i`-th step is the
/// `i`-th command applied to the state that the commands before it left, and an
/// identification is answered on that state. Every state along the way is well-formed.
pub proof fn law_commands_apply_in_order(st: ChatStateView, cs: Seq<(StateCmdView, Seq<char>)>, i: int)
    requires
        well_formed(st),
        0 <= i < cs.len(),
    ensures
        run_steps(st, cs).len() == cs.len(),
        run_steps(st, cs)[i] == step_spec(run_state(st, cs.take(i)), cs[i].0, cs[i].1).1,
        run_state(st, cs.take(i + 1)) == step_spec(run_state(st, cs.take(i)), cs[i].0, cs[i].1).0,
        cs[i].0 matches StateCmdView::Identify { session_id, nick, mode } ==> run_steps(st, cs)[i].reply
            == Some(identify_spec(run_state(st, cs.take(i)), session_id, nick, mode).2),
        well_formed(run_state(st, cs.take(i))),
        well_formed(run_state(st, cs)),
{
    lemma_run_prefix(st, cs, i);
    law_runs_stay_well_formed(st, cs.take(i));
    law_runs_stay_well_formed(st, cs);
}

/// Every state that a fresh server or any well-formed state reaches by applying commands is
/// well-formed.
pub proof fn law_runs_stay_well_formed(st: ChatStateView, cs: Seq<(StateCmdView, Seq<char>)>)
    requires
        well_formed(st) || st == initial_state(),
    ensures
        well_formed(run_state(st, cs)),
    decreases cs.len(),
{
    if cs.len() > 0 {
        law_runs_stay_well_formed(st, cs.drop_last());
        lemma_step_keeps_well_formed(run_state(st, cs.drop_last()), cs.last().0, cs.last().1);
    }
}

/// A direct message is recorded as sent by its sender: after session `id` (going by `n`)
/// sends a non-blank `body` to the user `to`, the newest line of the conversation between
/// `n` and `to`, seen from either side, is `body` trimmed, from `n`, stamped `ts`. The
/// earlier lines stay, in order, but for the oldest where the conversation was full, and
/// no other conversation changes.
pub proof fn law_dm_recorded_as_sent(
    st: ChatStateView,
    id: SessionId,
    to: Seq<char>,
    body: Seq<char>,
    ts: Seq<char>,
)
    requires
        well_formed(st),
        session_nick(st.sessions, id) is Some,
        trim(body).len() > 0,
        nick_in_use_spec(st.sessions, to),
    ensures
        ({
            let n = session_nick(st.sessions, id).unwrap();
            let before = dm_lines(st.dm_history, n, to);
            let after = dm_spec(st, id, to, body, ts).0.dm_history;
            &&& dm_lines(after, n, to).last() == (ChatLineView { from: n, body: trim(body), timestamp: ts })
            &&& dm_lines(after, n, to).len() == if before.len() < st.max_history {
                before.len() + 1
            } else {
                before.len()
            }
            &&& dm_lines(after, n, to).drop_last() == if before.len() < st.max_history {
                before
            } else {
                before.drop_first()
            }
            &&& dm_lines(after, to, n) == dm_lines(after, n, to)
            &&& forall|x: Seq<char>, y: Seq<char>| dm_key_spec(x, y) != dm_key_spec(n, to) ==> #[trigger] dm_lines(
                after,
                x,
                y,
            ) == dm_lines(st.dm_history, x, y)
        }),
{
    let n = session_nick(st.sessions, id).unwrap();
    law_dm_key_symmetric(n, to);
    let before = dm_lines(st.dm_history, n, to);
    let k = dm_key_spec(n, to);
    if st.dm_history.dom().contains(k) {
        assert(before.len() <= st.max_history);
    }
    let line = ChatLineView { from: n, body: trim(body), timestamp: ts };
    let after = dm_spec(st, id, to, body, ts).0.dm_history;
    assert(after == st.dm_history.insert(k, bounded_push(before, line, st.max_history)));
    if before.len() >= st.max_history {
        assert(before.drop_first().push(line).drop_last() =~= before.drop_first());
    } else {
        assert(before.push(line).drop_last() =~= before);
    }
}

/// The plain text of a direct-message history is its heading, then a newline, then the
/// plain text of the same lines as a group history.
pub proof fn law_dm_history_text(partner: Seq<char>, ms: Seq<ChatLineView>)
    ensures
        plain_text(ServerMsgView::DmHistory { partner, messages: ms }) == "*** DM history with "@ + partner
            + ":\n"@ + plain_text(ServerMsgView::History { messages: ms }),
{
}

/// A history reads as one line per message, in order, separated by newlines: each line is
/// how the message reads as a chat message, `[timestamp] from: body`.
pub proof fn law_history_text_lines(ms: Seq<ChatLineView>, m: ChatLineView)
    ensures
        plain_text(ServerMsgView::Chat { from: m.from, body: m.body, timestamp: m.timestamp })
            == "["@ + m.timestamp + "] "@ + m.from + ": "@ + m.body,
        plain_text(ServerMsgView::History { messages: ms.push(m) }) == if ms.len() == 0 {
            plain_text(ServerMsgView::Chat { from: m.from, body: m.body, timestamp: m.timestamp })
        } else {
            plain_text(ServerMsgView::History { messages: ms }) + "\n"@ + plain_text(
                ServerMsgView::Chat { from: m.from, body: m.body, timestamp: m.timestamp },
            )
        },
        plain_text(ServerMsgView::History { messages: Seq::empty() }) == Seq::<char>::empty(),
{
    let texts = ms.push(m).map_values(|l: ChatLineView| line_text(l));
    assert(texts.drop_last() =~= ms.map_values(|l: ChatLineView| line_text(l)));
    assert(texts.last() == line_text(m));
    if ms.len() == 0 {
        assert(texts.len() == 1);
    }
    assert(Seq::<ChatLineView>::empty().map_values(|l: ChatLineView| line_text(l)) =~= Seq::<Seq<char>>::empty());
}

proof fn lemma_nick_list_members(ss: Seq<SessionView>)
    ensures
        forall|k: int| 0 <= k < nick_list_spec(ss).len() ==> exists|i: int|
            0 <= i < ss.len() && ss[i].nick == Some(#[trigger] nick_list_spec(ss)[k]),
        forall|i: int| 0 <= i < ss.len() && (#[trigger] ss[i].nick) is Some ==> nick_list_spec(ss).contains(
            ss[i].nick.unwrap(),
        ),
    decreases ss.len(),
{
    if ss.len() > 0 {
        let prev = ss.drop_last();
        lemma_nick_list_members(prev);
        let l = nick_list_spec(ss);
        let pl = nick_list_spec(prev);
        assert forall|k: int| 0 <= k < l.len() implies exists|i: int| 0 <= i < ss.len() && ss[i].nick == Some(#[trigger] l[k]) by {
            if k < pl.len() {
                assert(l[k] == pl[k]);
                let i = choose|i: int| 0 <= i < prev.len() && prev[i].nick == Some(pl[k]);
                assert(ss[i] == prev[i]);
            } else {
                assert(ss[ss.len() - 1].nick == Some(l[k]));
            }
        }
        assert forall|i: int| 0 <= i < ss.len() && (#[trigger] ss[i].nick) is Some implies l.contains(ss[i].nick.unwrap()) by {
            if i < ss.len() - 1 {
                assert(prev[i] == ss[i]);
                assert(prev[i].nick is Some);
                let k = choose|k: int| 0 <= k < pl.len() && pl[k] == prev[i].nick.unwrap();
                assert(l[k] == pl[k]);
            } else {
                assert(l[l.len() - 1] == ss[i].nick.unwrap());
            }
        }
    }
}

/// A presence message counts the sessions that have identified, and only those: its
/// online count is the number of nicks it lists; every nick listed is a session's, and
/// every identified session's nick is listed. Sessions that have not identified are
/// neither counted nor listed.
pub proof fn law_presence_counts_identified(ss: Seq<SessionView>)
    requires
        ss.len() <= usize::MAX,
    ensures
        presence_msg(ss) matches ServerMsgView::Presence { online, users } && online == users.len()
            && (forall|k: int| 0 <= k < users.len() ==> exists|i: int| 0 <= i < ss.len() && ss[i].nick == Some(#[trigger] users[k]))
            && (forall|i: int| 0 <= i < ss.len() && (#[trigger] ss[i].nick) is Some ==> users.contains(ss[i].nick.unwrap())),
{
    lemma_online_count_bound(ss);
    lemma_nick_list_members(ss);
}

} // verus!
