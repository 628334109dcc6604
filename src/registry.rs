use vstd::prelude::*;
use vstd::string::*;
use crate::session::{Session, SessionView, User, names_of, session_json};

verus! {

/// Why a registry operation was refused.
#[derive(PartialEq, Eq, Structural, Debug, Clone, Copy)]
pub enum RegistryError {
    /// A session with that port is already registered.
    DuplicatePort,
    /// No session with that port is registered.
    SessionNotFound,
}

/// The directory of live sessions, each addressed by its unique port.
pub struct Registry {
    sessions: Vec<Session>,
}

pub open spec fn views_of(sessions: Seq<Session>) -> Seq<SessionView> {
    sessions.map_values(|s: Session| s@)
}

/// No two sessions share a port.
pub open spec fn ports_distinct(v: Seq<SessionView>) -> bool {
    forall|i: int, j: int| 0 <= i < j < v.len() ==> v[i].port != v[j].port
}

/// Some session of `v` has the port `port`.
pub open spec fn has_port(v: Seq<SessionView>, port: u16) -> bool {
    exists|i: int| 0 <= i < v.len() && v[i].port == port
}

/// The session at index `i` with its participants replaced.
pub open spec fn with_joined(v: Seq<SessionView>, i: int, joined: Seq<Seq<char>>) -> Seq<SessionView> {
    v.update(i, SessionView { joined, ..v[i] })
}

/// The index of the session with port `port`, where there is one.
pub open spec fn index_of_port(v: Seq<SessionView>, port: u16) -> int {
    choose|i: int| 0 <= i < v.len() && v[i].port == port
}

/// The sessions after the participants of the one at `port` became `joined`;
/// unchanged where no session has that port.
pub open spec fn publish(v: Seq<SessionView>, port: u16, joined: Seq<Seq<char>>) -> Seq<SessionView> {
    if has_port(v, port) {
        with_joined(v, index_of_port(v, port), joined)
    } else {
        v
    }
}

/// The sessions without the one at `port`, where there is one.
pub open spec fn without_port(v: Seq<SessionView>, port: u16) -> Seq<SessionView> {
    if has_port(v, port) {
        v.remove(index_of_port(v, port))
    } else {
        v
    }
}

/// The JSON objects of the sessions, separated by commas.
pub open spec fn session_list(v: Seq<SessionView>) -> Seq<char>
    decreases v.len(),
{
    if v.len() == 0 {
        Seq::empty()
    } else if v.len() == 1 {
        session_json(v[0])
    } else {
        session_list(v.drop_last()) + seq![','] + session_json(v.last())
    }
}

/// The JSON array of the sessions.
pub open spec fn sessions_json(v: Seq<SessionView>) -> Seq<char> {
    seq!['['] + session_list(v) + seq![']']
}

impl View for Registry {
    type V = Seq<SessionView>;

    closed spec fn view(&self) -> Seq<SessionView> {
        views_of(self.sessions@)
    }
}

impl Registry {
    /// The registry's invariant: ports are unique.
    pub open spec fn wf(&self) -> bool {
        ports_distinct(self@)
    }

    /// An empty registry.
    pub fn new() -> (r: Registry)
        ensures
            r@ == Seq::<SessionView>::empty(),
            r.wf(),
    {
        let r = Registry { sessions: Vec::new() };
        proof {
            assert(r@ =~= Seq::<SessionView>::empty());
        }
        r
    }

    /// The number of live sessions.
    pub fn len(&self) -> (r: usize)
        ensures
            r == self@.len(),
    {
        self.sessions.len()
    }

    /// The index of the session with the given port, if there is one.
    pub fn find(&self, port: u16) -> (r: Option<usize>)
        ensures
            match r {
                Some(i) => i < self@.len() && self@[i as int].port == port,
                None => !has_port(self@, port),
            },
    {
        let mut i: usize = 0;
        while i < self.sessions.len()
            invariant
                i <= self@.len(),
                self@.len() == self.sessions@.len(),
                forall|k: int| 0 <= k < i ==> self@[k].port != port,
            decreases self.sessions@.len() - i,
        {
            if self.sessions[i].port == port {
                return Some(i);
            }
            i = i + 1;
        }
        None
    }

    /// A copy of the session with the given port, if there is one.
    pub fn lookup(&self, port: u16) -> (r: Option<Session>)
        ensures
            match r {
                Some(s) => exists|i: int| 0 <= i < self@.len() && self@[i] == s@ && s@.port == port,
                None => !has_port(self@, port),
            },
    {
        match self.find(port) {
            Some(i) => Some(self.sessions[i].duplicate()),
            None => None,
        }
    }

    /// A snapshot of every live session, in order of registration.
    pub fn list(&self) -> (r: Vec<Session>)
        ensures
            views_of(r@) == self@,
    {
        let mut out: Vec<Session> = Vec::new();
        let mut i: usize = 0;
        while i < self.sessions.len()
            invariant
                i <= self.sessions@.len(),
                views_of(out@) == views_of(self.sessions@.take(i as int)),
            decreases self.sessions@.len() - i,
        {
            let s = self.sessions[i].duplicate();
            let ghost before = out@;
            out.push(s);
            proof {
                let want = views_of(self.sessions@.take(i + 1));
                assert(views_of(before).len() == i);
                assert forall|k: int| 0 <= k < i + 1 implies views_of(out@)[k] == want[k] by {
                    if k < i {
                        assert(views_of(before)[k] == views_of(self.sessions@.take(i as int))[k]);
                    }
                }
                assert(views_of(out@) =~= want);
            }
            i = i + 1;
        }
        proof {
            assert(self.sessions@.take(i as int) =~= self.sessions@);
        }
        out
    }

    /// Registers a session; refused when its port is already registered.
    pub fn insert(&mut self, session: Session) -> (r: Result<(), RegistryError>)
        requires
            old(self).wf(),
        ensures
            final(self).wf(),
            has_port(old(self)@, session@.port) ==> r == Err::<(), RegistryError>(RegistryError::DuplicatePort)
                && final(self)@ == old(self)@,
            !has_port(old(self)@, session@.port) ==> r == Ok::<(), RegistryError>(())
                && final(self)@ == old(self)@.push(session@),
    {
        match self.find(session.port) {
            Some(_) => Err(RegistryError::DuplicatePort),
            None => {
                let ghost before = self.sessions@;
                self.sessions.push(session);
                proof {
                    assert(views_of(self.sessions@) =~= views_of(before).push(session@));
                }
                Ok(())
            },
        }
    }

    /// Removes the session with the given port and hands it back; removing
    /// an unknown port changes nothing.
    pub fn remove(&mut self, port: u16) -> (r: Option<Session>)
        requires
            old(self).wf(),
        ensures
            final(self).wf(),
            final(self)@ == without_port(old(self)@, port),
            !has_port(final(self)@, port),
            match r {
                Some(s) => s@.port == port && exists|i: int|
                    0 <= i < old(self)@.len() && old(self)@[i] == s@ && final(self)@ == old(self)@.remove(i),
                None => !has_port(old(self)@, port) && final(self)@ == old(self)@,
            },
    {
        match self.find(port) {
            Some(i) => {
                let ghost before = self.sessions@;
                let s = self.sessions.remove(i);
                proof {
                    assert(views_of(self.sessions@) =~= views_of(before).remove(i as int));
                    let j = index_of_port(views_of(before), port);
                    assert(i == j);
                    if has_port(self@, port) {
                        let k = choose|k: int| 0 <= k < self@.len() && self@[k].port == port;
                        if k < i {
                            assert(views_of(before)[k].port == port);
                        } else {
                            assert(views_of(before)[k + 1].port == port);
                        }
                    }
                }
                Some(s)
            },
            None => None,
        }
    }

    /// Replaces the participants of the session with the given port.
    pub fn set_participants(&mut self, port: u16, users: Vec<User>) -> (r: Result<(), RegistryError>)
        requires
            old(self).wf(),
        ensures
            final(self).wf(),
            final(self)@ == publish(old(self)@, port, names_of(users@)),
            has_port(old(self)@, port) ==> r == Ok::<(), RegistryError>(()) && exists|i: int|
                0 <= i < old(self)@.len() && old(self)@[i].port == port
                && final(self)@ == with_joined(old(self)@, i, names_of(users@)),
            !has_port(old(self)@, port) ==> r == Err::<(), RegistryError>(RegistryError::SessionNotFound)
                && final(self)@ == old(self)@,
    {
        match self.find(port) {
            Some(i) => {
                let ghost before = self.sessions@;
                let mut s = self.sessions.remove(i);
                s.joined_users = users;
                self.sessions.insert(i, s);
                proof {
                    assert(views_of(self.sessions@) =~= with_joined(views_of(before), i as int, names_of(users@)));
                    let j = index_of_port(views_of(before), port);
                    assert(i == j);
                }
                Ok(())
            },
            None => Err(RegistryError::SessionNotFound),
        }
    }

    /// The JSON array of every live session.
    pub fn to_json(&self) -> (r: String)
        ensures
            r@ == sessions_json(self@),
    {
        let open_b = "[";
        let close_b = "]";
        let comma = ",";
        proof {
            reveal_strlit("[");
            reveal_strlit("]");
            reveal_strlit(",");
            assert(comma@ =~= seq![',']);
        }
        let mut out = String::from_str(open_b);
        let mut i: usize = 0;
        while i < self.sessions.len()
            invariant
                i <= self.sessions@.len(),
                comma@ == seq![','],
                out@ == seq!['['] + session_list(views_of(self.sessions@.take(i as int))),
            decreases self.sessions@.len() - i,
        {
            if i > 0 {
                out.append(comma);
            }
            let ghost mid = out@;
            let item = self.sessions[i].to_json();
            out.append(item.as_str());
            proof {
                let prev = views_of(self.sessions@.take(i as int));
                let next = views_of(self.sessions@.take(i + 1));
                assert(next.len() == i + 1);
                assert(next.drop_last() =~= prev);
                assert(next.last() == self.sessions@[i as int]@);
                if i == 0 {
                    assert(session_list(prev) =~= Seq::<char>::empty());
                    assert(session_list(next) == session_json(next[0]));
                    assert(out@ =~= seq!['['] + session_list(next));
                } else {
                    assert(session_list(next) == session_list(prev) + seq![','] + session_json(next.last()));
                    assert(out@ =~= seq!['['] + session_list(next));
                }
            }
            i = i + 1;
        }
        proof {
            assert(self.sessions@.take(i as int) =~= self.sessions@);
        }
        out.append(close_b);
        proof {
            assert(out@ =~= sessions_json(self@));
        }
        out
    }
}

} // verus!
