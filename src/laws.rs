use vstd::prelude::*;
use crate::control::fresh_session;
use crate::outbox::Outboxes;
use crate::registry::{has_port, index_of_port, ports_distinct, publish, with_joined, without_port};
use crate::relay::{
    after_close, after_open, broadcast_step, handshake_name, handshake_outcome, is_member, is_open, member_index,
    member_names, other_members, recipients_of, relay_wf, upgrade_line, Handshake, RelayView,
};
use crate::session::SessionView;
use crate::text::{find_from, occurs_at};

verus! {

/// Registering a hosted session on a port that no live session holds keeps
/// the live ports pairwise distinct; so every sequence of successful `host`
/// calls hands out pairwise distinct ports among the live sessions.
pub proof fn lemma_hosted_ports_distinct(before: Seq<SessionView>, port: u16, name: Seq<char>)
    requires
        ports_distinct(before),
        !has_port(before, port),
    ensures
        ports_distinct(before.push(fresh_session(port, name))),
        forall|i: int| 0 <= i < before.len() ==> before[i].port != port,
{
}

/// Two successive successful hostings return different ports.
pub proof fn lemma_two_hostings_distinct(
    r0: Seq<SessionView>,
    p1: u16,
    n1: Seq<char>,
    p2: u16,
    n2: Seq<char>,
)
    requires
        ports_distinct(r0),
        !has_port(r0, p1),
        !has_port(r0.push(fresh_session(p1, n1)), p2),
    ensures
        p1 != p2,
        ports_distinct(r0.push(fresh_session(p1, n1)).push(fresh_session(p2, n2))),
{
    let r1 = r0.push(fresh_session(p1, n1));
    assert(r1[r0.len() as int].port == p1);
}

/// After a successful hosting on `port`, exactly one listed session has that
/// port: the new one, hosted by the user, with nobody joined.
pub proof fn lemma_hosted_session_listed(before: Seq<SessionView>, port: u16, name: Seq<char>)
    requires
        ports_distinct(before),
        !has_port(before, port),
    ensures
        ({
            let after = before.push(fresh_session(port, name));
            &&& forall|i: int| 0 <= i < after.len() ==> (after[i].port == port <==> i == before.len())
            &&& after[before.len() as int].host == name
            &&& after[before.len() as int].joined.len() == 0
        }),
{
}

/// `c` is among the member connections other than `sender` exactly when a
/// member holds it and it is not `sender`; and none of them occurs twice.
pub proof fn lemma_other_members(ms: Seq<(u64, Seq<char>)>, sender: u64)
    requires
        forall|i: int, j: int| 0 <= i < j < ms.len() ==> ms[i].0 != ms[j].0,
    ensures
        forall|c: u64| other_members(ms, sender).contains(c) <==> (c != sender && exists|i: int|
            0 <= i < ms.len() && ms[i].0 == c),
        forall|i: int, j: int|
            0 <= i < j < other_members(ms, sender).len() ==> other_members(ms, sender)[i] != other_members(
                ms,
                sender,
            )[j],
    decreases ms.len(),
{
    if ms.len() > 0 {
        let init = ms.drop_last();
        lemma_other_members(init, sender);
        let rest = other_members(init, sender);
        assert forall|c: u64| other_members(ms, sender).contains(c) <==> (c != sender && exists|i: int|
            0 <= i < ms.len() && ms[i].0 == c) by {
            if other_members(ms, sender).contains(c) {
                if rest.contains(c) {
                    let i = choose|i: int| 0 <= i < init.len() && init[i].0 == c;
                    assert(ms[i].0 == c);
                } else {
                    let k = choose|k: int| 0 <= k < other_members(ms, sender).len() && other_members(ms, sender)[k] == c;
                    assert(k == rest.len());
                    assert(ms[ms.len() - 1].0 == c);
                }
            }
            if c != sender && exists|i: int| 0 <= i < ms.len() && ms[i].0 == c {
                let i = choose|i: int| 0 <= i < ms.len() && ms[i].0 == c;
                if i < ms.len() - 1 {
                    assert(init[i].0 == c);
                    assert(rest.contains(c));
                    let k = choose|k: int| 0 <= k < rest.len() && rest[k] == c;
                    assert(other_members(ms, sender)[k] == c);
                } else {
                    assert(other_members(ms, sender) == rest.push(c));
                    assert(other_members(ms, sender)[rest.len() as int] == c);
                }
            }
        }
        if ms.last().0 != sender {
            let c = ms.last().0;
            assert(!rest.contains(c)) by {
                if rest.contains(c) {
                    let i = choose|i: int| 0 <= i < init.len() && init[i].0 == c;
                    assert(ms[i].0 == ms[ms.len() - 1].0);
                }
            }
            assert forall|i: int, j: int|
                0 <= i < j < other_members(ms, sender).len() implies other_members(ms, sender)[i]
                != other_members(ms, sender)[j] by {
                if j == rest.len() {
                    assert(rest[i] == other_members(ms, sender)[i]);
                    assert(rest.contains(rest[i]));
                }
            }
        }
    }
}

/// A message from an open connection reaches every other open connection,
/// once each, and never comes back to its sender.
pub proof fn lemma_broadcast_reaches_others(v: RelayView, sender: u64)
    requires
        relay_wf(v),
        is_open(v, sender),
    ensures
        forall|c: u64| recipients_of(v, sender).contains(c) <==> (is_open(v, c) && c != sender),
        !recipients_of(v, sender).contains(sender),
        forall|i: int, j: int|
            0 <= i < j < recipients_of(v, sender).len() ==> recipients_of(v, sender)[i] != recipients_of(
                v,
                sender,
            )[j],
{
    lemma_other_members(v.members, sender);
    let r = recipients_of(v, sender);
    assert forall|c: u64| r.contains(c) <==> (is_open(v, c) && c != sender) by {
        if r.contains(c) {
            assert(is_member(v, c));
        }
        if is_open(v, c) && c != sender {
            assert(is_member(v, c));
        }
    }
}

/// Two messages from one sender, broadcast one after the other while the
/// membership stays put, wait in each recipient's queue in the order sent,
/// and nowhere else.
pub proof fn lemma_sender_order_kept(
    v: RelayView,
    sender: u64,
    o0: Outboxes,
    o1: Outboxes,
    o2: Outboxes,
    m1: Seq<u8>,
    m2: Seq<u8>,
)
    requires
        broadcast_step(o0, o1, v, sender, m1),
        broadcast_step(o1, o2, v, sender, m2),
    ensures
        forall|d: u64|
            recipients_of(v, sender).contains(d) ==> o2.pending(d) == o0.pending(d) + seq![m1, m2],
        forall|d: u64| !recipients_of(v, sender).contains(d) ==> o2.pending(d) == o0.pending(d),
{
    assert forall|d: u64| recipients_of(v, sender).contains(d) implies o2.pending(d) == o0.pending(d) + seq![
        m1,
        m2,
    ] by {
        assert(o1.pending(d) == o0.pending(d).push(m1));
        assert(o2.pending(d) == o1.pending(d).push(m2));
        assert(o2.pending(d) =~= o0.pending(d) + seq![m1, m2]);
    }
    assert forall|d: u64| !recipients_of(v, sender).contains(d) implies o2.pending(d) == o0.pending(d) by {
        assert(o1.pending(d) == o0.pending(d));
        assert(o2.pending(d) == o1.pending(d));
    }
}

/// When a participant's connection closes, the session stays listed, its
/// participants become those of the relay after the departure, and that
/// connection is no longer open.
pub proof fn lemma_participant_leaves(v: RelayView, sessions: Seq<SessionView>, conn: u64)
    requires
        relay_wf(v),
        is_open(v, conn),
        v.host_conn != Some(conn),
        ports_distinct(sessions),
        has_port(sessions, v.port),
    ensures
        ({
            let v2 = after_close(v, conn);
            let s2 = publish(sessions, v.port, member_names(v2.members));
            &&& has_port(s2, v.port)
            &&& s2[index_of_port(s2, v.port)].joined == member_names(v.members.remove(member_index(v, conn)))
            &&& !is_open(v2, conn)
            &&& !v2.terminated
        }),
{
    let v2 = after_close(v, conn);
    let s2 = publish(sessions, v.port, member_names(v2.members));
    let i = index_of_port(sessions, v.port);
    assert(s2 == with_joined(sessions, i, member_names(v2.members)));
    assert(s2[i].port == v.port);
    let j = index_of_port(s2, v.port);
    assert(ports_distinct(s2)) by {
        assert forall|a: int, b: int| 0 <= a < b < s2.len() implies s2[a].port != s2[b].port by {
            assert(s2[a].port == sessions[a].port);
            assert(s2[b].port == sessions[b].port);
        }
    }
    assert(j == i);
    let k = member_index(v, conn);
    assert(!is_member(v2, conn)) by {
        if is_member(v2, conn) {
            let m = choose|m: int| 0 <= m < v2.members.len() && v2.members[m].0 == conn;
            if m < k {
                assert(v.members[m].0 == conn);
            } else {
                assert(v.members[m + 1].0 == conn);
            }
        }
    }
}

/// When the host's connection closes, the relay terminates, its session is
/// no longer listed, and its port can be hosted again.
pub proof fn lemma_host_leaves(v: RelayView, sessions: Seq<SessionView>, conn: u64, name: Seq<char>)
    requires
        relay_wf(v),
        is_open(v, conn),
        v.host_conn == Some(conn),
        ports_distinct(sessions),
    ensures
        ({
            let s2 = without_port(sessions, v.port);
            &&& after_close(v, conn).terminated
            &&& !has_port(s2, v.port)
            &&& ports_distinct(s2.push(fresh_session(v.port, name)))
        }),
{
    let s2 = without_port(sessions, v.port);
    if has_port(sessions, v.port) {
        let i = index_of_port(sessions, v.port);
        assert(!has_port(s2, v.port)) by {
            if has_port(s2, v.port) {
                let k = choose|k: int| 0 <= k < s2.len() && s2[k].port == v.port;
                if k < i {
                    assert(sessions[k].port == v.port);
                } else {
                    assert(sessions[k + 1].port == v.port);
                }
            }
        }
        assert(ports_distinct(s2)) by {
            assert forall|a: int, b: int| 0 <= a < b < s2.len() implies s2[a].port != s2[b].port by {
                let a0 = if a < i { a } else { a + 1 };
                let b0 = if b < i { b } else { b + 1 };
                assert(s2[a] == sessions[a0]);
                assert(s2[b] == sessions[b0]);
            }
        }
    }
}

/// A match found from index `i` is also found when searching from an
/// earlier index.
pub proof fn lemma_find_from_earlier(s: Seq<char>, p: Seq<char>, j: int, i: int)
    requires
        0 <= j <= i,
        find_from(s, p, i) is Some,
    ensures
        find_from(s, p, j) is Some,
    decreases i - j,
{
    if j < i && !occurs_at(s, p, j) {
        lemma_find_from_earlier(s, p, j + 1, i);
    }
}

/// A handshake that lacks the upgrade header is rejected, and neither the
/// relay nor its membership changes.
pub proof fn lemma_missing_upgrade_rejected(v: RelayView, conn: u64, req: Seq<char>)
    requires
        find_from(req, upgrade_line(), 0) is None,
    ensures
        handshake_name(req) is None,
        handshake_outcome(v, conn, req) == Handshake::Rejected,
        after_open(v, conn, req) == v,
{
    if handshake_name(req) is Some {
        let start = crate::relay::join_prefix().len() as int;
        let e = find_from(req, "\r\n"@, start)->Some_0;
        crate::text::lemma_find_from_bounds(req, "\r\n"@, start);
        lemma_find_from_earlier(req, upgrade_line(), 0, e);
    }
}

/// A malformed handshake leaves the relay and its membership as they were.
pub proof fn lemma_malformed_handshake_rejected(v: RelayView, conn: u64, req: Seq<char>)
    requires
        handshake_name(req) is None,
    ensures
        handshake_outcome(v, conn, req) == Handshake::Rejected,
        after_open(v, conn, req) == v,
{
}

} // verus!
