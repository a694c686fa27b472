//! The rendezvous server's text protocol: a host registers its join code (and, behind a
//! NAT, its public address); a client asks for the address registered under a code.
use vstd::prelude::*;
use crate::frontend::system::chat::{is_white, word_end};

verus! {

/// A request to the rendezvous server.
#[derive(Debug)]
pub enum RendezvousRequest {
    /// "REGISTER code [address]".
    Register { code: String, addr: Option<String> },
    /// "JOIN code".
    Join { code: String },
    /// Anything else.
    Other,
}

/// The position of the first character that is not white space in `s` from position `i`
/// on, or the length of `s`.
pub open spec fn skip_white(s: Seq<char>, i: int) -> int
    decreases s.len() - i,
{
    if i < 0 || i >= s.len() {
        s.len() as int
    } else if is_white(s[i]) {
        skip_white(s, i + 1)
    } else {
        i
    }
}

/// The first word of `s` (a maximal run of characters that are not white space).
pub open spec fn first_word(s: Seq<char>) -> Seq<char> {
    s.subrange(skip_white(s, 0), word_end(s, skip_white(s, 0)))
}

/// The second word of `s`, if it has one.
pub open spec fn second_word(s: Seq<char>) -> Option<Seq<char>> {
    let after = skip_white(s, word_end(s, skip_white(s, 0)));
    if after < s.len() {
        Some(s.subrange(after, word_end(s, after)))
    } else {
        None
    }
}

/// What a message asks: after "REGISTER ", the first word is the join code and a
/// second word, if any, the host's address; after "JOIN ", the first word is the code.
pub open spec fn request_is(s: Seq<char>, r: RendezvousRequest) -> bool {
    if s.len() >= 9 && s.take(9) == "REGISTER "@ {
        let rest = s.skip(9);
        r matches RendezvousRequest::Register { code, addr } && code@ == first_word(rest) && match second_word(rest) {
            Some(w) => addr matches Some(a) && a@ == w,
            None => addr is None,
        }
    } else if s.len() >= 5 && s.take(5) == "JOIN "@ {
        r matches RendezvousRequest::Join { code } && code@ == first_word(s.skip(5))
    } else {
        r is Other
    }
}

fn white(c: char) -> (b: bool)
    ensures
        b == is_white(c),
{
    ('\u{9}' <= c && c <= '\u{d}') || c == ' ' || c == '\u{85}' || c == '\u{a0}' || c == '\u{1680}'
        || ('\u{2000}' <= c && c <= '\u{200a}') || c == '\u{2028}' || c == '\u{2029}' || c == '\u{202f}'
        || c == '\u{205f}' || c == '\u{3000}'
}

/// Skips white space in `s` from position `i`.
fn skip_white_from(s: &str, n: usize, i: usize) -> (j: usize)
    requires
        n == s@.len(),
        i <= n,
    ensures
        j == skip_white(s@, i as int),
        i <= j <= n,
{
    let mut j = i;
    while j < n && white(s.get_char(j))
        invariant
            n == s@.len(),
            i <= j <= n,
            skip_white(s@, i as int) == skip_white(s@, j as int),
        decreases n - j,
    {
        j += 1;
    }
    j
}

/// Finds the end of the word of `s` starting at position `i`.
fn word_end_from(s: &str, n: usize, i: usize) -> (j: usize)
    requires
        n == s@.len(),
        i <= n,
    ensures
        j == word_end(s@, i as int),
        i <= j <= n,
{
    let mut j = i;
    while j < n && !white(s.get_char(j))
        invariant
            n == s@.len(),
            i <= j <= n,
            word_end(s@, i as int) == word_end(s@, j as int),
        decreases n - j,
    {
        j += 1;
    }
    j
}

/// Whether `s` starts with `prefix`.
fn starts_with(s: &str, n: usize, prefix: &str) -> (b: bool)
    requires
        n == s@.len(),
    ensures
        b == (prefix@.len() <= n && s@.take(prefix@.len() as int) == prefix@),
{
    let m = prefix.unicode_len();
    if m > n {
        return false;
    }
    let head = String::from_str(s.substring_char(0, m));
    let p = String::from_str(prefix);
    let b = head == p;
    assert(head@ =~= s@.take(m as int));
    b
}

/// The request in a message (received with white space trimmed from both ends).
pub fn parse_rendezvous(msg: &str) -> (r: RendezvousRequest)
    ensures
        request_is(msg@, r),
{
    proof {
        reveal_strlit("REGISTER ");
        reveal_strlit("JOIN ");
    }
    let n = msg.unicode_len();
    if starts_with(msg, n, "REGISTER ") {
        let rest = msg.substring_char(9, n);
        let m = n - 9;
        assert(rest@ =~= msg@.skip(9));
        let a = skip_white_from(rest, m, 0);
        let b = word_end_from(rest, m, a);
        let code = String::from_str(rest.substring_char(a, b));
        let a2 = skip_white_from(rest, m, b);
        let addr = if a2 < m {
            let b2 = word_end_from(rest, m, a2);
            Some(String::from_str(rest.substring_char(a2, b2)))
        } else {
            None
        };
        RendezvousRequest::Register { code, addr }
    } else if starts_with(msg, n, "JOIN ") {
        let rest = msg.substring_char(5, n);
        let m = n - 5;
        assert(rest@ =~= msg@.skip(5));
        let a = skip_white_from(rest, m, 0);
        let b = word_end_from(rest, m, a);
        let code = String::from_str(rest.substring_char(a, b));
        RendezvousRequest::Join { code }
    } else {
        RendezvousRequest::Other
    }
}

/// The address registered under `code` in `hosts`: that of the first entry with the code.
pub open spec fn registered(hosts: Seq<(Seq<char>, Seq<char>)>, code: Seq<char>) -> Option<Seq<char>>
    decreases hosts.len(),
{
    if hosts.len() == 0 {
        None
    } else if hosts[0].0 == code {
        Some(hosts[0].1)
    } else {
        registered(hosts.drop_first(), code)
    }
}

/// The join codes hosts registered, each with the address of the game server behind it.
pub struct RendezvousRegistry {
    pub hosts: Vec<(String, String)>,
}

impl RendezvousRegistry {
    /// The registrations as plain text pairs.
    pub open spec fn entries(&self) -> Seq<(Seq<char>, Seq<char>)> {
        self.hosts@.map_values(|e: (String, String)| (e.0@, e.1@))
    }

    /// The address registered under `code`, if any.
    pub open spec fn address_of(&self, code: Seq<char>) -> Option<Seq<char>> {
        registered(self.entries(), code)
    }

    /// No codes registered.
    pub fn new() -> (r: Self)
        ensures
            forall|c: Seq<char>| #[trigger] r.address_of(c) is None,
    {
        RendezvousRegistry { hosts: Vec::new() }
    }

    /// The address registered under `code`, if any.
    pub fn lookup(&self, code: &String) -> (r: Option<String>)
        ensures
            r matches Some(a) ==> self.address_of(code@) == Some(a@),
            r is None ==> self.address_of(code@) is None,
    {
        let n = self.hosts.len();
        let mut i: usize = 0;
        assert(self.entries().skip(0) =~= self.entries());
        while i < n
            invariant
                n == self.hosts@.len(),
                i <= n,
                registered(self.entries(), code@) == registered(self.entries().skip(i as int), code@),
            decreases n - i,
        {
            let ghost rest = self.entries().skip(i as int);
            assert(rest[0] == (self.hosts@[i as int].0@, self.hosts@[i as int].1@));
            if self.hosts[i].0 == *code {
                return Some(self.hosts[i].1.clone());
            }
            assert(rest.drop_first() =~= self.entries().skip(i + 1));
            i += 1;
        }
        assert(self.entries().skip(n as int) =~= Seq::<(Seq<char>, Seq<char>)>::empty());
        None
    }

    /// Registers `addr` under `code`, replacing an earlier registration of the code; other
    /// codes keep theirs.
    pub fn register(&mut self, code: String, addr: String)
        ensures
            final(self).address_of(code@) == Some(addr@),
            forall|c: Seq<char>| c != code@ ==> #[trigger] final(self).address_of(c) == old(self).address_of(c),
    {
        let ghost e0 = self.entries();
        proof {
            lemma_registered_push_front(e0, code@, addr@);
        }
        self.hosts.insert(0, (code, addr));
        proof {
            assert(self.entries() =~= seq![(code@, addr@)] + e0);
        }
    }

    /// The registry's answer to `request` from a client whose registration, if the request
    /// is one, names `register_addr` as the game server's address: a registration is kept
    /// and answered "READY"; a join is answered with the address registered under its code,
    /// or not at all for an unknown code; anything else is ignored.
    pub fn answer(&mut self, request: RendezvousRequest, register_addr: String) -> (r: Option<String>)
        ensures
            match request {
                RendezvousRequest::Register { code, addr: _ } => {
                    &&& r matches Some(t) && t@ == "READY"@
                    &&& final(self).address_of(code@) == Some(register_addr@)
                    &&& forall|c: Seq<char>| c != code@ ==> #[trigger] final(self).address_of(c) == old(self).address_of(c)
                },
                RendezvousRequest::Join { code } => {
                    &&& final(self).entries() == old(self).entries()
                    &&& (match r {
                        Some(a) => old(self).address_of(code@) == Some(a@),
                        None => old(self).address_of(code@) is None,
                    })
                },
                RendezvousRequest::Other => final(self).entries() == old(self).entries() && r is None,
            },
    {
        match request {
            RendezvousRequest::Register { code, addr: _ } => {
                self.register(code, register_addr);
                Some(String::from_str("READY"))
            },
            RendezvousRequest::Join { code } => self.lookup(&code),
            RendezvousRequest::Other => None,
        }
    }
}

/// Putting an entry in front makes its code find its address and leaves other codes alone.
proof fn lemma_registered_push_front(hosts: Seq<(Seq<char>, Seq<char>)>, code: Seq<char>, addr: Seq<char>)
    ensures
        registered(seq![(code, addr)] + hosts, code) == Some(addr),
        forall|c: Seq<char>| c != code ==> #[trigger] registered(seq![(code, addr)] + hosts, c) == registered(hosts, c),
{
    let h = seq![(code, addr)] + hosts;
    assert(h[0] == (code, addr));
    assert(h.drop_first() =~= hosts);
}

} // verus!
