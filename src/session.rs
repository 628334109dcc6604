use vstd::prelude::*;
use vstd::string::*;

verus! {

/// A participant, known by the name that the client supplied.
pub struct User {
    pub name: String,
}

impl View for User {
    type V = Seq<char>;

    open spec fn view(&self) -> Seq<char> {
        self.name@
    }
}

/// The mathematical value of a session: its relay port, the host's name and
/// the names of the joined participants, in order.
pub ghost struct SessionView {
    pub port: u16,
    pub host: Seq<char>,
    pub joined: Seq<Seq<char>>,
}

/// A live session, addressed by the port of its relay.
pub struct Session {
    pub port: u16,
    pub hosting_user: User,
    pub joined_users: Vec<User>,
}

pub open spec fn names_of(users: Seq<User>) -> Seq<Seq<char>> {
    users.map_values(|u: User| u@)
}

impl View for Session {
    type V = SessionView;

    open spec fn view(&self) -> SessionView {
        SessionView { port: self.port, host: self.hosting_user@, joined: names_of(self.joined_users@) }
    }
}

pub open spec fn digit_chars() -> Seq<char> {
    seq!['0', '1', '2', '3', '4', '5', '6', '7', '8', '9']
}

/// The decimal digits of `n`, without leading zeros.
pub open spec fn decimal(n: nat) -> Seq<char>
    decreases n,
{
    if n < 10 {
        seq![digit_chars()[n as int]]
    } else {
        decimal(n / 10) + seq![digit_chars()[(n % 10) as int]]
    }
}

pub open spec fn hex_chars() -> Seq<char> {
    seq!['0', '1', '2', '3', '4', '5', '6', '7', '8', '9', 'a', 'b', 'c', 'd', 'e', 'f']
}

/// How one character stands inside a JSON string: a quote and a backslash
/// behind a backslash, a control character as `\u00XX`, any other as is.
pub open spec fn escape_char(c: char) -> Seq<char> {
    if c == '"' {
        seq!['\\', '"']
    } else if c == '\\' {
        seq!['\\', '\\']
    } else if (c as u32) < 0x20 {
        seq!['\\', 'u', '0', '0', hex_chars()[(c as u32 / 16) as int], hex_chars()[(c as u32 % 16) as int]]
    } else {
        seq![c]
    }
}

/// The characters of `s`, each escaped for a JSON string.
pub open spec fn escaped(s: Seq<char>) -> Seq<char>
    decreases s.len(),
{
    if s.len() == 0 {
        Seq::empty()
    } else {
        escaped(s.drop_last()) + escape_char(s.last())
    }
}

/// A JSON string literal whose value is `s`.
pub open spec fn quoted(s: Seq<char>) -> Seq<char> {
    seq!['"'] + escaped(s) + seq!['"']
}

/// The quoted names, separated by commas.
pub open spec fn quoted_list(names: Seq<Seq<char>>) -> Seq<char>
    decreases names.len(),
{
    if names.len() == 0 {
        Seq::empty()
    } else if names.len() == 1 {
        quoted(names[0])
    } else {
        quoted_list(names.drop_last()) + seq![','] + quoted(names.last())
    }
}

/// The JSON object that describes one session.
pub open spec fn session_json(s: SessionView) -> Seq<char> {
    "{\"port\": "@ + decimal(s.port as nat) + ", \"hosting_user\": "@ + quoted(s.host)
        + ", \"joined_users\": ["@ + quoted_list(s.joined) + "]}"@
}

/// Appends the decimal digits of `n` to `out`.
pub fn push_decimal(out: &mut String, n: u64)
    ensures
        final(out)@ == old(out)@ + decimal(n as nat),
    decreases n,
{
    if n >= 10 {
        push_decimal(out, n / 10);
    }
    let digits = "0123456789";
    proof {
        reveal_strlit("0123456789");
        assert(digits@ =~= digit_chars());
    }
    let d = (n % 10) as usize;
    out.append(digits.substring_char(d, d + 1));
    proof {
        assert(digits@.subrange(d as int, d + 1) =~= seq![digit_chars()[d as int]]);
        if n >= 10 {
            assert(final(out)@ =~= old(out)@ + decimal(n as nat));
        } else {
            assert(final(out)@ =~= old(out)@ + decimal(n as nat));
        }
    }
}

/// Appends the characters of `s` to `out`, each escaped for a JSON string.
pub fn push_escaped(out: &mut String, s: &str)
    ensures
        final(out)@ == old(out)@ + escaped(s@),
{
    let ghost start = out@;
    let n = s.unicode_len();
    let hex = "0123456789abcdef";
    proof {
        reveal_strlit("0123456789abcdef");
        assert(hex@ =~= hex_chars());
        assert(s@.take(0) =~= Seq::<char>::empty());
        assert(out@ =~= start + escaped(s@.take(0)));
    }
    let mut i: usize = 0;
    while i < n
        invariant
            n == s@.len(),
            i <= n,
            hex@ == hex_chars(),
            out@ == start + escaped(s@.take(i as int)),
        decreases n - i,
    {
        let c = s.get_char(i);
        let ghost mid = out@;
        if c == '"' {
            proof {
                reveal_strlit("\\\"");
            }
            out.append("\\\"");
        } else if c == '\\' {
            proof {
                reveal_strlit("\\\\");
            }
            out.append("\\\\");
        } else if (c as u32) < 0x20 {
            proof {
                reveal_strlit("\\u00");
            }
            out.append("\\u00");
            let code = c as u32;
            let hi = (code / 16) as usize;
            let lo = (code % 16) as usize;
            out.append(hex.substring_char(hi, hi + 1));
            out.append(hex.substring_char(lo, lo + 1));
            proof {
                assert(hex@.subrange(hi as int, hi + 1) =~= seq![hex_chars()[hi as int]]);
                assert(hex@.subrange(lo as int, lo + 1) =~= seq![hex_chars()[lo as int]]);
            }
        } else {
            out.append(s.substring_char(i, i + 1));
            proof {
                assert(s@.subrange(i as int, i + 1) =~= seq![c]);
            }
        }
        proof {
            let next = s@.take(i + 1);
            assert(next.drop_last() =~= s@.take(i as int));
            assert(next.last() == c);
            assert(out@ =~= mid + escape_char(c));
            assert(out@ =~= start + escaped(next));
        }
        i = i + 1;
    }
    proof {
        assert(s@.take(n as int) =~= s@);
    }
}

/// Appends `s` as a JSON string literal to `out`.
pub fn push_quoted(out: &mut String, s: &str)
    ensures
        final(out)@ == old(out)@ + quoted(s@),
{
    let q = "\"";
    proof {
        reveal_strlit("\"");
    }
    out.append(q);
    push_escaped(out, s);
    out.append(q);
    proof {
        assert(final(out)@ =~= old(out)@ + quoted(s@));
    }
}

/// Appends the quoted names of `users`, separated by commas, to `out`.
pub fn push_quoted_list(out: &mut String, users: &Vec<User>)
    ensures
        final(out)@ == old(out)@ + quoted_list(names_of(users@)),
{
    let ghost start = out@;
    let comma = ",";
    proof {
        reveal_strlit(",");
        assert(comma@ =~= seq![',']);
    }
    let mut i: usize = 0;
    while i < users.len()
        invariant
            i <= users@.len(),
            comma@ == seq![','],
            out@ == start + quoted_list(names_of(users@.take(i as int))),
        decreases users@.len() - i,
    {
        if i > 0 {
            out.append(comma);
        }
        let ghost mid = out@;
        push_quoted(out, users[i].name.as_str());
        proof {
            let prev = names_of(users@.take(i as int));
            let next = names_of(users@.take(i + 1));
            assert(next.len() == i + 1);
            assert(next.drop_last() =~= prev);
            assert(next.last() == users@[i as int]@);
            if i == 0 {
                assert(quoted_list(prev) =~= Seq::<char>::empty());
                assert(mid =~= start);
                assert(quoted_list(next) == quoted(next[0]));
                assert(out@ == mid + quoted(next[0]));
                assert(out@ == start + quoted_list(next));
            } else {
                assert(quoted_list(next) == quoted_list(prev) + seq![','] + quoted(next.last()));
                assert(mid == start + quoted_list(prev) + seq![',']);
                assert(out@ =~= start + quoted_list(next));
            }
        }
        i = i + 1;
    }
    proof {
        assert(users@.take(i as int) =~= users@);
    }
}

impl User {
    /// A user of the given name.
    pub fn new(name: String) -> (r: User)
        ensures
            r@ == name@,
    {
        User { name }
    }

    /// A copy of this user.
    pub fn duplicate(&self) -> (r: User)
        ensures
            r@ == self@,
    {
        User { name: self.name.clone() }
    }
}

impl Session {
    /// A fresh session with no participants.
    pub fn new(port: u16, hosting_user: User) -> (r: Session)
        ensures
            r@ == (SessionView { port, host: hosting_user@, joined: Seq::empty() }),
    {
        let r = Session { port, hosting_user, joined_users: Vec::new() };
        proof {
            assert(r@.joined =~= Seq::<Seq<char>>::empty());
        }
        r
    }

    /// A copy of this session, participants included.
    pub fn duplicate(&self) -> (r: Session)
        ensures
            r@ == self@,
    {
        let mut joined: Vec<User> = Vec::new();
        let mut i: usize = 0;
        while i < self.joined_users.len()
            invariant
                i <= self.joined_users@.len(),
                names_of(joined@) == names_of(self.joined_users@.take(i as int)),
            decreases self.joined_users@.len() - i,
        {
            let u = self.joined_users[i].duplicate();
            let ghost before = joined@;
            joined.push(u);
            proof {
                let want = names_of(self.joined_users@.take(i + 1));
                assert(names_of(before).len() == i);
                assert forall|k: int| 0 <= k < i + 1 implies names_of(joined@)[k] == want[k] by {
                    if k < i {
                        assert(names_of(before)[k] == names_of(self.joined_users@.take(i as int))[k]);
                    }
                }
                assert(names_of(joined@) =~= want);
            }
            i = i + 1;
        }
        proof {
            assert(self.joined_users@.take(i as int) =~= self.joined_users@);
        }
        Session { port: self.port, hosting_user: self.hosting_user.duplicate(), joined_users: joined }
    }

    /// This session as a JSON object: its port, the hosting user's name and
    /// the joined users' names, in order.
    pub fn to_json(&self) -> (r: String)
        ensures
            r@ == session_json(self@),
    {
        let mut out = String::from_str("{\"port\": ");
        push_decimal(&mut out, self.port as u64);
        out.append(", \"hosting_user\": ");
        push_quoted(&mut out, self.hosting_user.name.as_str());
        out.append(", \"joined_users\": [");
        push_quoted_list(&mut out, &self.joined_users);
        out.append("]}");
        out
    }
}

} // verus!
