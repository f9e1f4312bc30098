//! The control-channel text protocol between a host and the rendezvous
//! service: `server_port:<port>` from the host on connect, and
//! `open <ipv4> <port>` to the host for each introduction.
use vstd::prelude::*;
use vstd::string::*;
use crate::text::{
    chars_of, dec_string, ipv4_of, ipv4_string, lemma_dec_string, lemma_dec_string_no_sep,
    lemma_ipv4_round_trip, lemma_split_concat, lemma_split_no_sep, parse_ipv4, parse_u16,
    push_decimal, push_ipv4, split_chars, split_on, u16_of,
};

verus! {

/// What a host makes of one text frame from the rendezvous service.
#[derive(Clone, Copy, Debug, PartialEq, Eq)]
pub enum Directive {
    /// Punch toward this address and port.
    Open { ip: [u8; 4], port: u16 },
    /// An `open` command whose fields do not read as an address and a port.
    Malformed,
    /// Any other text.
    Ignored,
}

pub open spec fn open_word() -> Seq<char> {
    seq!['o', 'p', 'e', 'n']
}

/// The first space-separated word of the text is `open`.
pub open spec fn names_open(s: Seq<char>) -> bool {
    split_on(s, ' ')[0] == open_word()
}

/// The target of a well-formed `open <ipv4> <port>` command: three
/// space-separated words, `open`, a dotted IPv4 address and a port.
pub open spec fn open_target(s: Seq<char>) -> Option<(Seq<u8>, u16)> {
    let p = split_on(s, ' ');
    if p.len() == 3 && p[0] == open_word() && ipv4_of(p[1]) is Some && u16_of(p[2]) is Some {
        Some((ipv4_of(p[1])->0, u16_of(p[2])->0))
    } else {
        None
    }
}

/// Reads one text frame received by a host.
pub fn parse_directive(msg: &str) -> (r: Directive)
    ensures
        match r {
            Directive::Open { ip, port } => open_target(msg@) == Some((ip@, port)),
            Directive::Malformed => open_target(msg@) is None && names_open(msg@),
            Directive::Ignored => open_target(msg@) is None && !names_open(msg@),
        },
{
    let cs = chars_of(msg);
    let parts = split_chars(&cs, ' ');
    proof {
        crate::text::lemma_split_on_nonempty(cs@, ' ');
    }
    assert(parts@[0]@ == split_on(msg@, ' ')[0]);
    let first = &parts[0];
    let is_open = first.len() == 4 && first[0] == 'o' && first[1] == 'p' && first[2] == 'e'
        && first[3] == 'n';
    assert(is_open ==> first@ =~= open_word());
    if !is_open {
        return Directive::Ignored;
    }
    if parts.len() != 3 {
        return Directive::Malformed;
    }
    assert(parts@[1]@ == split_on(msg@, ' ')[1]);
    assert(parts@[2]@ == split_on(msg@, ' ')[2]);
    match (parse_ipv4(&parts[1]), parse_u16(&parts[2])) {
        (Some(ip), Some(port)) => Directive::Open { ip, port },
        _ => Directive::Malformed,
    }
}

pub open spec fn server_port_prefix() -> Seq<char> {
    seq!['s', 'e', 'r', 'v', 'e', 'r', '_', 'p', 'o', 'r', 't', ':']
}

/// The message a host sends on connect to advertise its game port.
pub fn server_port_message(port: u16) -> (r: String)
    ensures
        r@ == server_port_prefix() + dec_string(port as nat),
{
    let mut out = String::new();
    out.append("server_port:");
    proof {
        reveal_strlit("server_port:");
    }
    push_decimal(&mut out, port as u32);
    assert(out@ =~= server_port_prefix() + dec_string(port as nat));
    out
}

/// The port a `server_port:<port>` message advertises.
pub open spec fn server_port_of(s: Seq<char>) -> Option<u16> {
    if s.len() >= 12 && s.subrange(0, 12) == server_port_prefix() {
        u16_of(s.subrange(12, s.len() as int))
    } else {
        None
    }
}

/// Reads the first message of a host's session.
pub fn parse_server_port(msg: &str) -> (r: Option<u16>)
    ensures
        r == server_port_of(msg@),
{
    let cs = chars_of(msg);
    if cs.len() < 12 {
        return None;
    }
    let prefix = chars_of("server_port:");
    proof {
        reveal_strlit("server_port:");
    }
    assert(prefix@ =~= server_port_prefix());
    let mut i: usize = 0;
    while i < 12
        invariant
            i <= 12 <= cs@.len(),
            cs@ == msg@,
            prefix@ == server_port_prefix(),
            forall|j: int| 0 <= j < i ==> cs@[j] == prefix@[j],
        decreases 12 - i,
    {
        if cs[i] != prefix[i] {
            assert(cs@.subrange(0, 12)[i as int] != server_port_prefix()[i as int]);
            assert(cs@.subrange(0, 12) != server_port_prefix());
            return None;
        }
        i = i + 1;
    }
    assert(cs@.subrange(0, 12) =~= server_port_prefix());
    let mut rest: Vec<char> = Vec::new();
    let mut k: usize = 12;
    while k < cs.len()
        invariant
            12 <= k <= cs@.len(),
            rest@ == cs@.subrange(12, k as int),
        decreases cs@.len() - k,
    {
        rest.push(cs[k]);
        assert(rest@ =~= cs@.subrange(12, k + 1));
        k = k + 1;
    }
    parse_u16(&rest)
}

/// The text of an `open` command toward an address and port.
pub open spec fn open_text(ip: Seq<u8>, port: u16) -> Seq<char> {
    open_word() + seq![' '] + ipv4_string(ip) + seq![' '] + dec_string(port as nat)
}

/// The command the rendezvous service sends a host to punch toward a client.
pub fn open_message(ip: [u8; 4], port: u16) -> (r: String)
    ensures
        r@ == open_text(ip@, port),
{
    let mut out = String::new();
    out.append("open ");
    push_ipv4(&mut out, ip);
    out.append(" ");
    push_decimal(&mut out, port as u32);
    proof {
        reveal_strlit("open ");
        reveal_strlit(" ");
    }
    assert(out@ =~= open_text(ip@, port));
    out
}

/// A host reads the `open` command that the service builds for an address
/// and port as exactly that address and port.
pub proof fn lemma_open_message_round_trip(ip: Seq<u8>, port: u16)
    requires
        ip.len() == 4,
    ensures
        open_target(open_text(ip, port)) == Some((ip, port)),
        names_open(open_text(ip, port)),
{
    let a = ipv4_string(ip);
    let d = dec_string(port as nat);
    lemma_ipv4_round_trip(ip);
    lemma_dec_string(port as nat);
    lemma_dec_string_no_sep(port as nat, ' ');
    lemma_split_no_sep(open_word(), ' ');
    lemma_split_no_sep(a, ' ');
    lemma_split_no_sep(d, ' ');
    lemma_split_concat(open_word(), a, ' ');
    lemma_split_concat(open_word() + seq![' '] + a, d, ' ');
    assert(split_on(open_text(ip, port), ' ') =~= seq![open_word(), a, d]);
}

/// The service reads the port that a host advertises as that port.
pub proof fn lemma_server_port_round_trip(port: u16)
    ensures
        server_port_of(server_port_prefix() + dec_string(port as nat)) == Some(port),
{
    let t = server_port_prefix() + dec_string(port as nat);
    lemma_dec_string(port as nat);
    assert(t.subrange(0, 12) =~= server_port_prefix());
    assert(t.subrange(12, t.len() as int) =~= dec_string(port as nat));
}

} // verus!
