use vstd::prelude::*;
use vstd::slice::slice_to_vec;
use vstd::string::*;
use vstd::utf8::encode_utf8;
use crate::registry::{Registry, publish, without_port};
use crate::session::{User, names_of};
use crate::outbox::Outboxes;
use crate::text::{find, find_from, has_prefix, starts_with};

verus! {

/// An open connection of a participant, with the participant's identity.
pub struct Member {
    pub conn: u64,
    pub user: User,
}

/// Connections and names of members, in order of joining.
pub open spec fn members_of(ms: Seq<Member>) -> Seq<(u64, Seq<char>)> {
    ms.map_values(|m: Member| (m.conn, m.user@))
}

pub open spec fn member_names(ms: Seq<(u64, Seq<char>)>) -> Seq<Seq<char>> {
    ms.map_values(|m: (u64, Seq<char>)| m.1)
}

/// The mathematical state of a relay.
pub ghost struct RelayView {
    /// The port of the session that the relay serves.
    pub port: u16,
    /// The name of the user who hosts the session.
    pub host_name: Seq<char>,
    /// The host's own connection, once it has completed the handshake.
    pub host_conn: Option<u64>,
    /// The participants' open connections, the host's included, in order of joining.
    pub members: Seq<(u64, Seq<char>)>,
    /// Set when the host's connection closed; the relay then serves no one.
    pub terminated: bool,
}

/// The membership and protocol state of one session's relay. Connection
/// identifiers are chosen by the transport and are unique among live ones.
pub struct Relay {
    port: u16,
    host_name: String,
    host_conn: Option<u64>,
    members: Vec<Member>,
    terminated: bool,
}

impl View for Relay {
    type V = RelayView;

    closed spec fn view(&self) -> RelayView {
        RelayView {
            port: self.port,
            host_name: self.host_name@,
            host_conn: self.host_conn,
            members: members_of(self.members@),
            terminated: self.terminated,
        }
    }
}

pub open spec fn is_member(v: RelayView, conn: u64) -> bool {
    exists|i: int| 0 <= i < v.members.len() && v.members[i].0 == conn
}

/// The index of the member on connection `conn`, where there is one.
pub open spec fn member_index(v: RelayView, conn: u64) -> int {
    choose|i: int| 0 <= i < v.members.len() && v.members[i].0 == conn
}

/// `conn` is an open connection of the relay, the host's included.
pub open spec fn is_open(v: RelayView, conn: u64) -> bool {
    !v.terminated && is_member(v, conn)
}

/// The relay's invariant: member connections are distinct, the host's
/// connection is one of them, and a terminated relay holds no connection.
pub open spec fn relay_wf(v: RelayView) -> bool {
    &&& forall|i: int, j: int| 0 <= i < j < v.members.len() ==> v.members[i].0 != v.members[j].0
    &&& v.host_conn is Some ==> is_member(v, v.host_conn->Some_0)
    &&& v.terminated ==> v.host_conn is None && v.members.len() == 0
}

/// The text that opens a handshake; the user's name follows it.
pub open spec fn join_prefix() -> Seq<char> {
    "JOIN "@
}

/// The header line that a handshake must carry.
pub open spec fn upgrade_line() -> Seq<char> {
    "\r\nUpgrade: relay\r\n"@
}

/// The user name that a well-formed handshake announces: the handshake
/// opens with `JOIN <name>` on its first line, the name is not empty, and a
/// later line reads `Upgrade: relay`.
pub open spec fn handshake_name(req: Seq<char>) -> Option<Seq<char>> {
    let start = join_prefix().len() as int;
    if !starts_with(req, join_prefix()) {
        None
    } else {
        match find_from(req, "\r\n"@, start) {
            None => None,
            Some(e) => if e == start || find_from(req, upgrade_line(), e) is None {
                None
            } else {
                Some(req.subrange(start, e))
            },
        }
    }
}

/// The bytes that accept a handshake.
pub open spec fn accept_bytes() -> Seq<u8> {
    encode_utf8("RELAY/1 101 Switching Protocols\r\nUpgrade: relay\r\n\r\n"@)
}

/// The answer to an accepted handshake.
pub fn handshake_accept() -> (r: Vec<u8>)
    ensures
        r@ == accept_bytes(),
{
    slice_to_vec("RELAY/1 101 Switching Protocols\r\nUpgrade: relay\r\n\r\n".as_bytes())
}

/// How the relay answered a handshake.
#[derive(PartialEq, Eq, Structural, Debug, Clone, Copy)]
pub enum Handshake {
    /// The connection is the host's own: the first open connection that
    /// announces the hosting user's name while the host has none. It is
    /// listed among the participants, and its closing ends the session.
    Host,
    /// The connection joined as a participant.
    Joined,
    /// The handshake was malformed, the connection already open, or the
    /// relay terminated: the connection is to be closed.
    Rejected,
}

pub open spec fn handshake_outcome(v: RelayView, conn: u64, req: Seq<char>) -> Handshake {
    match handshake_name(req) {
        None => Handshake::Rejected,
        Some(name) => if v.terminated || is_member(v, conn) {
            Handshake::Rejected
        } else if v.host_conn is None && name == v.host_name {
            Handshake::Host
        } else {
            Handshake::Joined
        },
    }
}

/// The relay after a handshake on `conn`.
pub open spec fn after_open(v: RelayView, conn: u64, req: Seq<char>) -> RelayView {
    match handshake_outcome(v, conn, req) {
        Handshake::Rejected => v,
        Handshake::Host => RelayView {
            host_conn: Some(conn),
            members: v.members.push((conn, handshake_name(req)->Some_0)),
            ..v
        },
        Handshake::Joined => RelayView { members: v.members.push((conn, handshake_name(req)->Some_0)), ..v },
    }
}

/// The member connections other than `sender`, in order of joining.
pub open spec fn other_members(ms: Seq<(u64, Seq<char>)>, sender: u64) -> Seq<u64>
    decreases ms.len(),
{
    if ms.len() == 0 {
        Seq::empty()
    } else {
        let rest = other_members(ms.drop_last(), sender);
        if ms.last().0 == sender {
            rest
        } else {
            rest.push(ms.last().0)
        }
    }
}

/// Who receives a message from `sender`: nobody unless `sender` is open;
/// else every member's connection, in order of joining, but `sender`'s.
pub open spec fn recipients_of(v: RelayView, sender: u64) -> Seq<u64> {
    if !is_open(v, sender) {
        Seq::empty()
    } else {
        other_members(v.members, sender)
    }
}

/// `after` is `before` with the message `m` from `sender` appended to the
/// queue of each of its recipients, and every other queue as it was.
pub open spec fn broadcast_step(before: Outboxes, after: Outboxes, v: RelayView, sender: u64, m: Seq<u8>) -> bool {
    forall|d: u64|
        #![trigger after.pending(d)]
        after.pending(d) == if recipients_of(v, sender).contains(d) {
            before.pending(d).push(m)
        } else {
            before.pending(d)
        }
}

/// What the closing of a connection did.
#[derive(Debug)]
pub enum Departure {
    /// A participant left; the session goes on.
    Left,
    /// The host left: the session ended, and these connections are to be closed.
    Ended(Vec<u64>),
    /// The connection was not open.
    Unknown,
}

/// The relay after connection `conn` closed.
pub open spec fn after_close(v: RelayView, conn: u64) -> RelayView {
    if v.terminated {
        v
    } else if v.host_conn == Some(conn) {
        RelayView { host_conn: None, members: Seq::empty(), terminated: true, ..v }
    } else if is_member(v, conn) {
        RelayView { members: v.members.remove(member_index(v, conn)), ..v }
    } else {
        v
    }
}

impl Relay {
    pub open spec fn wf(&self) -> bool {
        relay_wf(self@)
    }

    /// The relay of a freshly hosted session: nobody is connected yet.
    pub fn new(port: u16, host_name: String) -> (r: Relay)
        ensures
            r.wf(),
            r@ == (RelayView { port, host_name: host_name@, host_conn: None, members: Seq::empty(), terminated: false }),
    {
        let r = Relay { port, host_name, host_conn: None, members: Vec::new(), terminated: false };
        proof {
            assert(r@.members =~= Seq::<(u64, Seq<char>)>::empty());
        }
        r
    }

    /// The index of the member on connection `conn`, if there is one.
    fn find_member(&self, conn: u64) -> (r: Option<usize>)
        requires
            self.wf(),
        ensures
            match r {
                Some(i) => i < self@.members.len() && i == member_index(self@, conn) && is_member(self@, conn),
                None => !is_member(self@, conn),
            },
    {
        let mut i: usize = 0;
        while i < self.members.len()
            invariant
                i <= self.members@.len(),
                self.wf(),
                self@.members.len() == self.members@.len(),
                forall|k: int| 0 <= k < i ==> self@.members[k].0 != conn,
            decreases self.members@.len() - i,
        {
            if self.members[i].conn == conn {
                proof {
                    assert(self@.members[i as int].0 == conn);
                    let j = member_index(self@, conn);
                    assert(i == j);
                }
                return Some(i);
            }
            i = i + 1;
        }
        None
    }

    /// Copies of the members' users, in order of joining.
    fn member_users(&self) -> (r: Vec<User>)
        ensures
            names_of(r@) == member_names(self@.members),
    {
        let mut out: Vec<User> = Vec::new();
        let mut i: usize = 0;
        while i < self.members.len()
            invariant
                i <= self.members@.len(),
                names_of(out@) == member_names(members_of(self.members@.take(i as int))),
            decreases self.members@.len() - i,
        {
            let u = self.members[i].user.duplicate();
            let ghost before = out@;
            out.push(u);
            proof {
                let want = member_names(members_of(self.members@.take(i + 1)));
                let prev = member_names(members_of(self.members@.take(i as int)));
                assert(names_of(before).len() == i);
                assert forall|k: int| 0 <= k < i + 1 implies names_of(out@)[k] == want[k] by {
                    if k < i {
                        assert(names_of(before)[k] == prev[k]);
                    }
                }
                assert(names_of(out@) =~= want);
            }
            i = i + 1;
        }
        proof {
            assert(self.members@.take(i as int) =~= self.members@);
        }
        out
    }
}


/// The user name that a handshake announces, if it is well formed.
pub fn parse_handshake(request: &str) -> (r: Option<String>)
    ensures
        match r {
            Some(name) => handshake_name(request@) == Some(name@),
            None => handshake_name(request@) is None,
        },
{
    let prefix = "JOIN ";
    if !has_prefix(request, prefix) {
        return None;
    }
    let start = prefix.unicode_len();
    match find(request, "\r\n", start) {
        None => None,
        Some(e) => {
            if e == start {
                return None;
            }
            match find(request, "\r\nUpgrade: relay\r\n", e) {
                None => None,
                Some(_) => {
                    proof {
                        crate::text::lemma_find_from_bounds(request@, "\r\n"@, start as int);
                    }
                    Some(String::from_str(request.substring_char(start, e)))
                },
            }
        },
    }
}

impl Relay {
    /// The port of the session that this relay serves.
    pub fn port(&self) -> (r: u16)
        ensures
            r == self@.port,
    {
        self.port
    }

    /// Whether the host has left and the relay serves no one any more.
    pub fn is_terminated(&self) -> (r: bool)
        ensures
            r == self@.terminated,
    {
        self.terminated
    }

    /// Runs the handshake of connection `conn`. A participant who joins, the
    /// host included, is published to the session's entry in the registry;
    /// a rejected handshake changes nothing.
    pub fn open(&mut self, registry: &mut Registry, conn: u64, request: &str) -> (r: Handshake)
        requires
            old(self).wf(),
            old(registry).wf(),
        ensures
            final(self).wf(),
            final(registry).wf(),
            r == handshake_outcome(old(self)@, conn, request@),
            final(self)@ == after_open(old(self)@, conn, request@),
            r != Handshake::Rejected ==> final(registry)@ == publish(
                old(registry)@,
                old(self)@.port,
                member_names(final(self)@.members),
            ),
            r == Handshake::Rejected ==> final(registry)@ == old(registry)@,
    {
        let name = match parse_handshake(request) {
            None => return Handshake::Rejected,
            Some(n) => n,
        };
        if self.terminated {
            return Handshake::Rejected;
        }
        if self.find_member(conn).is_some() {
            return Handshake::Rejected;
        }
        let outcome = if self.host_conn.is_none() && name == self.host_name {
            self.host_conn = Some(conn);
            Handshake::Host
        } else {
            Handshake::Joined
        };
        let ghost before = self@;
        let user = User::new(name);
        self.members.push(Member { conn, user });
        proof {
            assert(self@.members =~= before.members.push((conn, handshake_name(request@)->Some_0)));
            assert(self@.members[self@.members.len() - 1].0 == conn);
            if self@.host_conn is Some && self@.host_conn != Some(conn) {
                let h = self@.host_conn->Some_0;
                let k = choose|k: int| 0 <= k < before.members.len() && before.members[k].0 == h;
                assert(self@.members[k].0 == h);
            }
        }
        let users = self.member_users();
        let _ = registry.set_participants(self.port, users);
        outcome
    }

    /// The connections that a message from `sender` goes to, in order of
    /// joining, never the sender's own; none when `sender` is not open.
    pub fn recipients(&self, sender: u64) -> (r: Vec<u64>)
        requires
            self.wf(),
        ensures
            r@ == recipients_of(self@, sender),
    {
        let mut out: Vec<u64> = Vec::new();
        if self.terminated {
            return out;
        }
        if self.find_member(sender).is_none() {
            return out;
        }
        proof {
            assert(out@ =~= other_members(members_of(self.members@.take(0)), sender));
        }
        let mut i: usize = 0;
        while i < self.members.len()
            invariant
                i <= self.members@.len(),
                out@ == other_members(members_of(self.members@.take(i as int)), sender),
            decreases self.members@.len() - i,
        {
            let c = self.members[i].conn;
            proof {
                let next = members_of(self.members@.take(i + 1));
                assert(next.drop_last() =~= members_of(self.members@.take(i as int)));
                assert(next.last().0 == c);
            }
            if c != sender {
                out.push(c);
            }
            proof {
                assert(out@ =~= other_members(members_of(self.members@.take(i + 1)), sender));
            }
            i = i + 1;
        }
        proof {
            assert(self.members@.take(i as int) =~= self.members@);
        }
        out
    }

    /// Fans a message from `sender` out: it is appended to the send queue of
    /// each recipient, and to no other queue.
    pub fn broadcast(&self, outboxes: &mut Outboxes, sender: u64, payload: &Vec<u8>)
        requires
            self.wf(),
            old(outboxes).wf(),
        ensures
            final(outboxes).wf(),
            broadcast_step(*old(outboxes), *final(outboxes), self@, sender, payload@),
    {
        let targets = self.recipients(sender);
        proof {
            if is_open(self@, sender) {
                crate::laws::lemma_broadcast_reaches_others(self@, sender);
            }
        }
        outboxes.enqueue_all(&targets, payload);
    }

    /// Handles the closing of connection `conn`. When it is the host's, the
    /// relay terminates, its session leaves the registry, and the other
    /// members' connections are handed back to be closed. When it is a participant's,
    /// the participant leaves and the session's entry is updated.
    pub fn close(&mut self, registry: &mut Registry, conn: u64) -> (r: Departure)
        requires
            old(self).wf(),
            old(registry).wf(),
        ensures
            final(self).wf(),
            final(registry).wf(),
            final(self)@ == after_close(old(self)@, conn),
            is_open(old(self)@, conn) && old(self)@.host_conn == Some(conn) ==> (r matches Departure::Ended(cs)
                && cs@ == other_members(old(self)@.members, conn)
                && final(registry)@ == without_port(old(registry)@, old(self)@.port)),
            is_open(old(self)@, conn) && old(self)@.host_conn != Some(conn) ==> (r matches Departure::Left
                && final(registry)@ == publish(old(registry)@, old(self)@.port, member_names(final(self)@.members))),
            !is_open(old(self)@, conn) ==> (r matches Departure::Unknown && final(registry)@ == old(registry)@),
    {
        if self.terminated {
            return Departure::Unknown;
        }
        let is_host = match self.host_conn {
            Some(h) => h == conn,
            None => false,
        };
        if is_host {
            let conns = self.recipients(conn);
            self.members = Vec::new();
            self.host_conn = None;
            self.terminated = true;
            proof {
                assert(self@.members =~= Seq::<(u64, Seq<char>)>::empty());
            }
            let _ = registry.remove(self.port);
            return Departure::Ended(conns);
        }
        match self.find_member(conn) {
            None => Departure::Unknown,
            Some(i) => {
                let ghost before = self@;
                let _ = self.members.remove(i);
                proof {
                    assert(self@.members =~= before.members.remove(i as int));
                    if self@.host_conn is Some {
                        let h = self@.host_conn->Some_0;
                        let k = choose|k: int| 0 <= k < before.members.len() && before.members[k].0 == h;
                        assert(k != i);
                        if k < i {
                            assert(self@.members[k].0 == h);
                        } else {
                            assert(self@.members[k - 1].0 == h);
                        }
                    }
                }
                let users = self.member_users();
                let _ = registry.set_participants(self.port, users);
                Departure::Left
            },
        }
    }
}

} // verus!
