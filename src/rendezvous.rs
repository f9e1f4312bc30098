//! The rendezvous service's registration table: hosts register under the
//! fingerprint of the address the service sees them at, and a client's
//! introduction request is forwarded to the host registered under its target.
use vstd::prelude::*;
use vstd::string::*;
use crate::directive::{open_message, open_text, parse_server_port, server_port_of};
use crate::fingerprint::{fingerprint_of, sha1};
use crate::text::{dec_string, ipv4_string, push_decimal, push_ipv4};

verus! {

/// Registered hosts: a fingerprint and the control channel (a session
/// number) that introductions for it go to.
pub struct Registry {
    entries: Vec<(String, u64)>,
}

/// The answer to an introduction request.
#[derive(Debug)]
pub enum JoinReply {
    /// No host is registered under the target (HTTP 404).
    NotFound,
    /// Send `text` over the control channel `session` (then HTTP 200).
    Deliver { session: u64, text: String },
}

/// The text a host is known by: its address as the service sees it and its
/// game port, `ip:port`.
pub open spec fn host_key(ip: Seq<u8>, port: u16) -> Seq<char> {
    ipv4_string(ip) + seq![':'] + dec_string(port as nat)
}

/// The fingerprint of a host that connects from `ip` and advertises `port`.
pub fn host_fingerprint(ip: [u8; 4], port: u16) -> (r: String)
    ensures
        r@ == fingerprint_of(host_key(ip@, port)),
{
    let mut key = String::new();
    push_ipv4(&mut key, ip);
    key.append(":");
    proof {
        reveal_strlit(":");
    }
    push_decimal(&mut key, port as u32);
    assert(key@ =~= host_key(ip@, port));
    sha1(key)
}

impl Registry {
    /// No fingerprint is registered twice.
    pub closed spec fn wf(&self) -> bool {
        forall|i: int, j: int|
            0 <= i < j < self.entries@.len() ==> #[trigger] self.entries@[i].0@
                != #[trigger] self.entries@[j].0@
    }

    closed spec fn has_key(&self, k: Seq<char>) -> bool {
        exists|i: int| 0 <= i < self.entries@.len() && #[trigger] self.entries@[i].0@ == k
    }

    closed spec fn index_of(&self, k: Seq<char>) -> int {
        choose|i: int| 0 <= i < self.entries@.len() && #[trigger] self.entries@[i].0@ == k
    }

    /// The channel registered under each fingerprint.
    pub closed spec fn view(&self) -> Map<Seq<char>, u64> {
        Map::new(|k: Seq<char>| self.has_key(k), |k: Seq<char>| self.entries@[self.index_of(k)].1)
    }

    proof fn lemma_at(&self, i: int)
        requires
            self.wf(),
            0 <= i < self.entries@.len(),
        ensures
            self@.contains_key(self.entries@[i].0@),
            self@[self.entries@[i].0@] == self.entries@[i].1,
    {
        let k = self.entries@[i].0@;
        assert(self.has_key(k));
        let j = self.index_of(k);
        assert(j == i) by {
            if j < i {
                assert(self.entries@[j].0@ != self.entries@[i].0@);
            } else if i < j {
                assert(self.entries@[i].0@ != self.entries@[j].0@);
            }
        }
    }

    /// An empty table.
    pub fn new() -> (r: Registry)
        ensures
            r.wf(),
            r@ == Map::<Seq<char>, u64>::empty(),
    {
        let r = Registry { entries: Vec::new() };
        assert(r@ =~= Map::<Seq<char>, u64>::empty());
        r
    }

    fn find(&self, fp: &String) -> (r: Option<usize>)
        ensures
            match r {
                Some(i) => i < self.entries@.len() && self.entries@[i as int].0@ == fp@,
                None => !self.has_key(fp@),
            },
    {
        let mut i: usize = 0;
        while i < self.entries.len()
            invariant
                i <= self.entries@.len(),
                forall|j: int| 0 <= j < i ==> self.entries@[j].0@ != fp@,
            decreases self.entries@.len() - i,
        {
            if self.entries[i].0 == *fp {
                return Some(i);
            }
            i = i + 1;
        }
        None
    }

    /// The channel registered under a fingerprint, if any.
    pub fn lookup(&self, fp: &String) -> (r: Option<u64>)
        requires
            self.wf(),
        ensures
            r == (if self@.contains_key(fp@) {
                Some(self@[fp@])
            } else {
                None::<u64>
            }),
    {
        match self.find(fp) {
            Some(i) => {
                proof {
                    self.lemma_at(i as int);
                }
                Some(self.entries[i].1)
            },
            None => None,
        }
    }

    /// Registers a channel under a fingerprint, displacing any channel
    /// registered under it before.
    pub fn register(&mut self, fp: String, session: u64)
        requires
            old(self).wf(),
        ensures
            final(self).wf(),
            final(self)@ == old(self)@.insert(fp@, session),
    {
        let ghost k = fp@;
        match self.find(&fp) {
            Some(i) => {
                self.entries.set(i, (fp, session));
                proof {
                    assert forall|a: int, b: int|
                        0 <= a < b < self.entries@.len() implies #[trigger] self.entries@[a].0@
                        != #[trigger] self.entries@[b].0@ by {
                        assert(old(self).entries@[a].0@ != old(self).entries@[b].0@);
                    }
                    assert forall|q: Seq<char>| self.has_key(q) == old(self)@.insert(k, session).contains_key(q) by {
                        if q == k {
                            assert(self.entries@[i as int].0@ == q);
                        }
                        if old(self).has_key(q) {
                            let j = old(self).index_of(q);
                            if j != i {
                                assert(self.entries@[j].0@ == q);
                            }
                        }
                        if self.has_key(q) {
                            let j = self.index_of(q);
                            if j != i {
                                assert(old(self).entries@[j].0@ == q);
                            }
                        }
                    }
                    assert forall|q: Seq<char>| #[trigger] self@.contains_key(q) implies self@[q]
                        == old(self)@.insert(k, session)[q] by {
                        let j = self.index_of(q);
                        self.lemma_at(j);
                        if q != k {
                            old(self).lemma_at(j);
                        }
                    }
                    assert(self@ =~= old(self)@.insert(k, session));
                }
            },
            None => {
                self.entries.push((fp, session));
                proof {
                    let n = old(self).entries@.len() as int;
                    assert forall|a: int, b: int|
                        0 <= a < b < self.entries@.len() implies #[trigger] self.entries@[a].0@
                        != #[trigger] self.entries@[b].0@ by {
                        if b == n {
                            assert(old(self).entries@[a].0@ != k);
                        } else {
                            assert(old(self).entries@[a].0@ != old(self).entries@[b].0@);
                        }
                    }
                    assert forall|q: Seq<char>| self.has_key(q) == old(self)@.insert(k, session).contains_key(q) by {
                        if old(self).has_key(q) {
                            let j = old(self).index_of(q);
                            assert(self.entries@[j].0@ == q);
                        }
                        if q == k {
                            assert(self.entries@[n].0@ == q);
                        }
                        if self.has_key(q) && q != k {
                            let j = self.index_of(q);
                            assert(old(self).entries@[j].0@ == q);
                        }
                    }
                    assert forall|q: Seq<char>| #[trigger] self@.contains_key(q) implies self@[q]
                        == old(self)@.insert(k, session)[q] by {
                        let j = self.index_of(q);
                        self.lemma_at(j);
                        if q != k {
                            old(self).lemma_at(j);
                        }
                    }
                    assert(self@ =~= old(self)@.insert(k, session));
                }
            },
        }
    }

    /// Drops every registration that names a control channel that closed.
    pub fn unregister(&mut self, session: u64)
        requires
            old(self).wf(),
        ensures
            final(self).wf(),
            forall|k: Seq<char>|
                #[trigger] final(self)@.contains_key(k) == (old(self)@.contains_key(k)
                    && old(self)@[k] != session),
            forall|k: Seq<char>|
                #[trigger] final(self)@.contains_key(k) ==> final(self)@[k] == old(self)@[k],
    {
        let ghost old_reg = *self;
        let ghost mut src: Seq<int> = Seq::empty();
        let mut kept: Vec<(String, u64)> = Vec::new();
        let mut i: usize = 0;
        while i < self.entries.len()
            invariant
                *self == old_reg,
                old_reg.wf(),
                i <= self.entries@.len(),
                src.len() == kept@.len(),
                forall|a: int|
                    0 <= a < src.len() ==> 0 <= #[trigger] src[a] < i && kept@[a]
                        == self.entries@[src[a]] && self.entries@[src[a]].1 != session,
                forall|a: int, c: int| 0 <= a < c < src.len() ==> #[trigger] src[a] < #[trigger] src[c],
                forall|b: int|
                    0 <= b < i && #[trigger] self.entries@[b].1 != session ==> exists|a: int|
                        0 <= a < src.len() && src[a] == b,
            decreases self.entries@.len() - i,
        {
            let e = (self.entries[i].0.clone(), self.entries[i].1);
            if e.1 != session {
                kept.push(e);
                proof {
                    let prev = src;
                    src = src.push(i as int);
                    assert(src[src.len() - 1] == i);
                    assert forall|b: int|
                        0 <= b < i + 1 && #[trigger] self.entries@[b].1 != session implies exists|
                            a: int,
                        | 0 <= a < src.len() && src[a] == b by {
                        if b < i {
                            let a = choose|a: int| 0 <= a < prev.len() && prev[a] == b;
                            assert(src[a] == b);
                        } else {
                            assert(src[src.len() - 1] == b);
                        }
                    }
                }
            }
            i = i + 1;
        }
        let ghost new_reg = Registry { entries: kept };
        proof {
            assert forall|a: int, c: int|
                0 <= a < c < kept@.len() implies #[trigger] kept@[a].0@ != #[trigger] kept@[c].0@ by {
                assert(src[a] < src[c]);
                assert(old_reg.entries@[src[a]].0@ != old_reg.entries@[src[c]].0@);
            }
            assert(new_reg.wf());
        }
        self.entries = kept;
        assert(self@ == new_reg@);
        assert forall|k: Seq<char>| #[trigger] self@.contains_key(k) == (old(self)@.contains_key(k)
            && old(self)@[k] != session) && (self@.contains_key(k) ==> self@[k] == old(self)@[k]) by {
            if new_reg.has_key(k) {
                let a = new_reg.index_of(k);
                new_reg.lemma_at(a);
                old_reg.lemma_at(src[a]);
            }
            if old_reg.has_key(k) && old_reg@[k] != session {
                let b = old_reg.index_of(k);
                old_reg.lemma_at(b);
                assert(old_reg.entries@[b].1 != session);
                let a = choose|a: int| 0 <= a < src.len() && src[a] == b;
                assert(kept@[a].0@ == k);
                assert(new_reg.has_key(k));
            }
        }
    }

    /// A host's control channel opened: its first message must advertise
    /// its game port, and it is registered under the fingerprint of the
    /// address the service sees it at with that port. Returns that
    /// fingerprint, or `None` (and registers nothing) when the message is
    /// not `server_port:<port>`.
    pub fn connect_host(&mut self, remote_ip: [u8; 4], first_message: &str, session: u64) -> (r:
        Option<String>)
        requires
            old(self).wf(),
        ensures
            final(self).wf(),
            match server_port_of(first_message@) {
                None => r is None && final(self)@ == old(self)@,
                Some(port) => r matches Some(fp) && fp@ == fingerprint_of(host_key(remote_ip@, port))
                    && final(self)@ == old(self)@.insert(fp@, session),
            },
    {
        match parse_server_port(first_message) {
            None => None,
            Some(port) => {
                let fp = host_fingerprint(remote_ip, port);
                let out = fp.clone();
                self.register(fp, session);
                Some(out)
            },
        }
    }

    /// A client asks to be introduced to the host registered under `target`
    /// from `client_ip`, on its game port `port`. The table is left as it is.
    pub fn join(&self, target: &String, client_ip: [u8; 4], port: u16) -> (r: JoinReply)
        requires
            self.wf(),
        ensures
            match r {
                JoinReply::NotFound => !self@.contains_key(target@),
                JoinReply::Deliver { session, text } => self@.contains_key(target@) && session
                    == self@[target@] && text@ == open_text(client_ip@, port),
            },
    {
        match self.lookup(target) {
            None => JoinReply::NotFound,
            Some(session) => JoinReply::Deliver { session, text: open_message(client_ip, port) },
        }
    }
}

/// Registering a host under a fingerprint it already holds leaves one
/// entry for that fingerprint, naming the later channel: the earlier
/// channel is reached by no introduction for it.
pub proof fn lemma_reregistration_keeps_latest(
    m: Map<Seq<char>, u64>,
    fp: Seq<char>,
    first: u64,
    second: u64,
)
    ensures
        m.insert(fp, first).insert(fp, second) == m.insert(fp, second),
        m.insert(fp, first).insert(fp, second)[fp] == second,
        m.insert(fp, first).insert(fp, second).dom() == m.dom().insert(fp),
{
    assert(m.insert(fp, first).insert(fp, second) =~= m.insert(fp, second));
}

} // verus!
