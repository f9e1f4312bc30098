//! The client's decisions: which host the game is trying to join (from the
//! game's log), which process and socket are the game's, and the request
//! that asks the rendezvous service for an introduction.
use vstd::prelude::*;
use vstd::string::*;
use crate::fingerprint::{fingerprint_of, sha1};
use crate::text::{chars_of, dec_string, is_digit, push_decimal, split_chars, split_on};

verus! {

/// Relies on `String::from_iter` over `char`s: the string of exactly those
/// characters, in order.
#[verifier::external_body]
fn string_from_chars(v: Vec<char>) -> (r: String)
    ensures
        r@ == v@,
{
    String::from_iter(v)
}

/// Whether a character is a Unicode decimal digit (general category Nd).
pub uninterp spec fn is_unicode_decimal_digit(c: char) -> bool;

/// Relies on the regex crate's `\d` class, which matches the Unicode
/// decimal digits: whether the one character `c` is one of them.
#[verifier::external_body]
fn unicode_decimal_digit(c: char) -> (r: bool)
    ensures
        r == is_unicode_decimal_digit(c),
{
    let mut buf = [0u8; 4];
    regex::Regex::new(r"^\d$").unwrap().is_match(c.encode_utf8(&mut buf))
}

/// A digit of the frame number: `0` to `9` among ASCII characters, a
/// Unicode decimal digit beyond them.
pub open spec fn frame_digit(c: char) -> bool {
    if c <= '\x7f' {
        is_digit(c)
    } else {
        is_unicode_decimal_digit(c)
    }
}

fn is_frame_digit(c: char) -> (r: bool)
    ensures
        r == frame_digit(c),
{
    if c <= '\x7f' {
        '0' <= c && c <= '9'
    } else {
        unicode_decimal_digit(c)
    }
}

/// The text between the bracketed tag and the address in a connection
/// attempt line.
pub open spec fn marker() -> Seq<char> {
    seq![
        ']', 'L', 'o', 'g', 'T', 'e', 'm', 'p', ':', ' ', 'A', 't', 't', 'e', 'm', 'p', 't', 'i',
        'n', 'g', ' ', 't', 'o', ' ', 'c', 'o', 'n', 'n', 'e', 'c', 't', ' ', 't', 'o', ' ',
    ]
}

/// Spaces before `p`, digits from `p` on, and at least one digit.
pub open spec fn digits_from(t: Seq<char>, p: int) -> bool {
    &&& 0 <= p < t.len()
    &&& forall|q: int| 0 <= q < p ==> #[trigger] t[q] == ' '
    &&& forall|q: int| p <= q < t.len() ==> frame_digit(#[trigger] t[q])
}

/// Zero or more spaces, then one or more digits of the frame number.
pub open spec fn spaces_then_digits(t: Seq<char>) -> bool {
    exists|p: int| #[trigger] digits_from(t, p)
}

/// A line reads `[<time>][ <frame>]LogTemp: Attempting to connect to <addr>`
/// where the first bracket closes at `i` and the marker starts at `m`: a
/// nonempty time, a frame number of spaces then digits, a nonempty address.
pub open spec fn tag_at(s: Seq<char>, i: int, m: int) -> bool {
    &&& 2 <= i
    &&& i + 2 < m
    &&& m + 35 < s.len()
    &&& s[0] == '['
    &&& s[i] == ']'
    &&& s[i + 1] == '['
    &&& spaces_then_digits(s.subrange(i + 2, m))
    &&& s.subrange(m, m + 35) == marker()
}

/// The address a connection attempt line names, reading the time up to the
/// first `][` after which the rest of the line fits.
pub open spec fn line_target(s: Seq<char>) -> Option<Seq<char>> {
    if exists|i: int, m: int| tag_at(s, i, m) {
        let im = choose|im: (int, int)|
            tag_at(s, im.0, im.1) && forall|i2: int, m2: int| tag_at(s, i2, m2) ==> im.0 <= i2;
        Some(s.subrange(im.1 + 35, s.len() as int))
    } else {
        None
    }
}

proof fn lemma_tag_end(s: Seq<char>, i: int, m: int, d0: int, j: int)
    requires
        tag_at(s, i, m),
        i + 2 <= d0 <= j <= s.len(),
        forall|q: int| i + 2 <= q < d0 ==> s[q] == ' ',
        d0 == s.len() || s[d0] != ' ',
        forall|q: int| d0 <= q < j ==> frame_digit(s[q]),
        j == s.len() || !frame_digit(s[j]),
    ensures
        m == j,
        d0 < j,
{
    let t = s.subrange(i + 2, m);
    let p = choose|p: int| digits_from(t, p);
    assert(s[m] == marker()[0]);
    if m < j {
        assert(s[m] == ' ' || frame_digit(s[m]));
    }
    if m > j {
        assert(t[j - (i + 2)] == s[j]);
        if j - (i + 2) >= p {
            assert(frame_digit(t[j - (i + 2)]));
        }
        assert(s[j] == ' ');
        assert(d0 < j);
        assert(t[j - 1 - (i + 2)] == s[j - 1]);
        assert(frame_digit(s[j - 1]));
    }
    if d0 == j {
        assert(t[t.len() - 1] == s[m - 1]);
        assert(frame_digit(t[t.len() - 1]));
    }
}

proof fn lemma_tag_unique(s: Seq<char>, i: int, m1: int, m2: int)
    requires
        tag_at(s, i, m1),
        tag_at(s, i, m2),
    ensures
        m1 == m2,
{
    let t = s.subrange(i + 2, m2);
    if m1 < m2 {
        let p = choose|p: int| digits_from(t, p);
        assert(s[m1] == marker()[0]);
        assert(t[m1 - (i + 2)] == s[m1]);
    } else if m2 < m1 {
        let t1 = s.subrange(i + 2, m1);
        let p = choose|p: int| digits_from(t1, p);
        assert(s[m2] == marker()[0]);
        assert(t1[m2 - (i + 2)] == s[m2]);
    }
}

/// Where the marker would start for a line whose first bracket closes at
/// `i`, or `None` when no marker fits there.
fn tag_end(s: &Vec<char>, i: usize) -> (r: Option<usize>)
    requires
        2 <= i,
        i + 1 < s@.len(),
        s@[0] == '[',
        s@[i as int] == ']',
        s@[i + 1] == '[',
    ensures
        match r {
            Some(m) => tag_at(s@, i as int, m as int),
            None => forall|m: int| !tag_at(s@, i as int, m),
        },
{
    let n = s.len();
    let mut j: usize = i + 2;
    while j < n && s[j] == ' '
        invariant
            i + 2 <= j <= n,
            n == s@.len(),
            forall|q: int| i + 2 <= q < j ==> s@[q] == ' ',
        decreases n - j,
    {
        j = j + 1;
    }
    let d0 = j;
    while j < n && is_frame_digit(s[j])
        invariant
            d0 <= j <= n,
            n == s@.len(),
            forall|q: int| d0 <= q < j ==> frame_digit(s@[q]),
        decreases n - j,
    {
        j = j + 1;
    }
    proof {
        assert forall|m: int| tag_at(s@, i as int, m) implies m == j && d0 < j by {
            lemma_tag_end(s@, i as int, m, d0 as int, j as int);
        }
    }
    if j == d0 || j >= n || n - j <= 35 {
        return None;
    }
    let mk = chars_of("]LogTemp: Attempting to connect to ");
    proof {
        reveal_strlit("]LogTemp: Attempting to connect to ");
    }
    assert(mk@ =~= marker());
    let mut k: usize = 0;
    while k < 35
        invariant
            k <= 35,
            j + 35 < n,
            n == s@.len(),
            mk@ == marker(),
            forall|q: int| 0 <= q < k ==> s@[j + q] == mk@[q],
            forall|m: int| tag_at(s@, i as int, m) ==> m == j,
        decreases 35 - k,
    {
        if s[j + k] != mk[k] {
            assert(s@.subrange(j as int, j + 35)[k as int] != marker()[k as int]);
            assert(s@.subrange(j as int, j + 35) != marker());
            return None;
        }
        k = k + 1;
    }
    assert(s@.subrange(j as int, j + 35) =~= marker());
    let ghost t = s@.subrange(i + 2, j as int);
    assert(spaces_then_digits(t)) by {
        let p = d0 - (i + 2);
        assert(forall|q: int| 0 <= q < p ==> #[trigger] t[q] == s@[i + 2 + q]);
        assert(forall|q: int| p <= q < t.len() ==> #[trigger] t[q] == s@[i + 2 + q]);
        assert(digits_from(t, p));
    }
    Some(j)
}

/// The address that a connection attempt line names, or `None` when the
/// line is not one.
pub fn parse_attempt_line(s: &Vec<char>) -> (r: Option<Vec<char>>)
    ensures
        match r {
            Some(v) => line_target(s@) == Some(v@),
            None => line_target(s@) is None,
        },
{
    let n = s.len();
    if n < 2 || s[0] != '[' {
        assert(forall|i: int, m: int| !tag_at(s@, i, m));
        return None;
    }
    let mut i: usize = 2;
    while i < n - 1
        invariant
            2 <= n,
            2 <= i <= n,
            n == s@.len(),
            s@[0] == '[',
            forall|i2: int, m2: int| i2 < i ==> !tag_at(s@, i2, m2),
        decreases n - i,
    {
        if s[i] == ']' && s[i + 1] == '[' {
            match tag_end(s, i) {
                Some(m) => {
                    let mut out: Vec<char> = Vec::new();
                    let mut k: usize = m + 35;
                    while k < n
                        invariant
                            m + 35 <= k <= n,
                            n == s@.len(),
                            out@ == s@.subrange(m + 35, k as int),
                        decreases n - k,
                    {
                        out.push(s[k]);
                        assert(out@ =~= s@.subrange(m + 35, k + 1));
                        k = k + 1;
                    }
                    proof {
                        let w = (i as int, m as int);
                        assert(tag_at(s@, w.0, w.1) && forall|i2: int, m2: int|
                            tag_at(s@, i2, m2) ==> w.0 <= i2);
                        let im = choose|im: (int, int)|
                            tag_at(s@, im.0, im.1) && forall|i2: int, m2: int|
                                tag_at(s@, i2, m2) ==> im.0 <= i2;
                        assert(im.0 == i);
                        lemma_tag_unique(s@, i as int, im.1, m as int);
                    }
                    return Some(out);
                },
                None => {},
            }
        }
        i = i + 1;
    }
    None
}

/// A line without the carriage return of a `\r\n` line ending.
pub open spec fn strip_cr(l: Seq<char>) -> Seq<char> {
    if l.len() > 0 && l.last() == '\r' {
        l.drop_last()
    } else {
        l
    }
}

/// The lines of a text as `str::lines` gives them: split at `\n`, a `\r`
/// before a `\n` dropped, no empty line after a final `\n`.
pub open spec fn lines_of(t: Seq<char>) -> Seq<Seq<char>> {
    let p = split_on(t, '\n');
    let body = Seq::new((p.len() - 1) as nat, |j: int| strip_cr(p[j]));
    if p.last().len() == 0 {
        body
    } else {
        body.push(p.last())
    }
}

/// The address named by the last connection attempt line.
pub open spec fn last_target_in(ls: Seq<Seq<char>>) -> Option<Seq<char>>
    decreases ls.len(),
{
    if ls.len() == 0 {
        None
    } else {
        match line_target(ls.last()) {
            Some(c) => Some(c),
            None => last_target_in(ls.drop_last()),
        }
    }
}

/// The address of the host the game last tried to join, according to its
/// log.
pub open spec fn target_of_log(t: Seq<char>) -> Option<Seq<char>> {
    last_target_in(lines_of(t))
}

fn strip_cr_line(l: &Vec<char>) -> (r: Vec<char>)
    ensures
        r@ == strip_cr(l@),
{
    let n = if l.len() > 0 && l[l.len() - 1] == '\r' {
        l.len() - 1
    } else {
        l.len()
    };
    let mut out: Vec<char> = Vec::new();
    let mut k: usize = 0;
    while k < n
        invariant
            k <= n <= l@.len(),
            out@ == l@.subrange(0, k as int),
        decreases n - k,
    {
        out.push(l[k]);
        assert(out@ =~= l@.subrange(0, k + 1));
        k = k + 1;
    }
    assert(out@ =~= strip_cr(l@));
    out
}

/// Scans a log for lines of the form
/// `[<time>][ <frame>]LogTemp: Attempting to connect to <addr>` and returns
/// the address of the last one, or `None` when there is none.
pub fn find_target_server(log: &str) -> (r: Option<String>)
    ensures
        match r {
            Some(a) => target_of_log(log@) == Some(a@),
            None => target_of_log(log@) is None,
        },
{
    let cs = chars_of(log);
    let parts = split_chars(&cs, '\n');
    proof {
        crate::text::lemma_split_on_nonempty(cs@, '\n');
    }
    let ghost p = split_on(log@, '\n');
    let ghost body = Seq::new((p.len() - 1) as nat, |j: int| strip_cr(p[j]));
    let n = parts.len();
    assert(parts@[n - 1]@ == p.last());
    if parts[n - 1].len() > 0 {
        match parse_attempt_line(&parts[n - 1]) {
            Some(v) => {
                return Some(string_from_chars(v));
            },
            None => {
                assert(lines_of(log@).drop_last() =~= body);
            },
        }
    }
    assert(body.subrange(0, (n - 1) as int) =~= body);
    let mut k: usize = n - 1;
    while k > 0
        invariant
            k < n,
            n == parts@.len(),
            p == split_on(log@, '\n'),
            p.len() == n,
            body == Seq::new((p.len() - 1) as nat, |j: int| strip_cr(p[j])),
            crate::text::views(parts@) == p,
            target_of_log(log@) == last_target_in(body.subrange(0, k as int)),
        decreases k,
    {
        assert(parts@[k - 1]@ == p[k - 1]);
        let line = strip_cr_line(&parts[k - 1]);
        let ghost pre = body.subrange(0, k as int);
        assert(pre.drop_last() =~= body.subrange(0, k - 1));
        match parse_attempt_line(&line) {
            Some(v) => {
                return Some(string_from_chars(v));
            },
            None => {},
        }
        k = k - 1;
    }
    None
}

/// The distinctive part of the game's process name.
pub open spec fn game_name() -> Seq<char> {
    seq!['B', 'r', 'i', 'c', 'k', 'a', 'd', 'i', 'a']
}

/// `w` occurs in `t`.
pub open spec fn contains_word(t: Seq<char>, w: Seq<char>) -> bool {
    exists|i: int| 0 <= i && i + w.len() <= t.len() && #[trigger] t.subrange(i, i + w.len()) == w
}

fn has_word_at(t: &Vec<char>, w: &Vec<char>, i: usize) -> (r: bool)
    requires
        i + w@.len() <= t@.len(),
    ensures
        r == (t@.subrange(i as int, i + w@.len()) == w@),
{
    let tl = t.len();
    let mut k: usize = 0;
    while k < w.len()
        invariant
            k <= w@.len(),
            tl == t@.len(),
            i + w@.len() <= t@.len(),
            forall|q: int| 0 <= q < k ==> t@[i + q] == w@[q],
        decreases w@.len() - k,
    {
        if t[i + k] != w[k] {
            assert(t@.subrange(i as int, i + w@.len())[k as int] != w@[k as int]);
            return false;
        }
        k = k + 1;
    }
    assert(t@.subrange(i as int, i + w@.len()) =~= w@);
    true
}

fn contains_chars(t: &Vec<char>, w: &Vec<char>) -> (r: bool)
    ensures
        r == contains_word(t@, w@),
{
    if w.len() > t.len() {
        return false;
    }
    let last = t.len() - w.len();
    let mut i: usize = 0;
    loop
        invariant
            w@.len() <= t@.len(),
            last == t@.len() - w@.len(),
            i <= last,
            forall|j: int| 0 <= j < i ==> #[trigger] t@.subrange(j, j + w@.len()) != w@,
        decreases last - i,
    {
        if has_word_at(t, w, i) {
            return true;
        }
        if i == last {
            return false;
        }
        i = i + 1;
    }
}

/// The first process whose name holds the game's name.
pub open spec fn first_game_pid(procs: Seq<(u32, String)>) -> Option<u32>
    decreases procs.len(),
{
    if procs.len() == 0 {
        None
    } else if contains_word(procs[0].1@, game_name()) {
        Some(procs[0].0)
    } else {
        first_game_pid(procs.drop_first())
    }
}

/// Finds the game among running processes (pid, name): the first whose
/// name contains `Brickadia`.
pub fn find_game_pid(procs: &Vec<(u32, String)>) -> (r: Option<u32>)
    ensures
        r == first_game_pid(procs@),
{
    let w = chars_of("Brickadia");
    proof {
        reveal_strlit("Brickadia");
    }
    assert(w@ =~= game_name());
    assert(procs@.subrange(0, procs@.len() as int) =~= procs@);
    let mut i: usize = 0;
    while i < procs.len()
        invariant
            i <= procs@.len(),
            w@ == game_name(),
            first_game_pid(procs@) == first_game_pid(procs@.subrange(i as int, procs@.len() as int)),
        decreases procs@.len() - i,
    {
        let ghost rest = procs@.subrange(i as int, procs@.len() as int);
        assert(rest.drop_first() =~= procs@.subrange(i + 1, procs@.len() as int));
        let name = chars_of(procs[i].1.as_str());
        if contains_chars(&name, &w) {
            return Some(procs[i].0);
        }
        i = i + 1;
    }
    None
}

/// The local ports of the sockets that the process `pid` owns, in order.
pub open spec fn ports_of(sockets: Seq<(u16, Vec<u32>)>, pid: u32) -> Seq<u16>
    decreases sockets.len(),
{
    if sockets.len() == 0 {
        Seq::empty()
    } else {
        let rest = ports_of(sockets.drop_last(), pid);
        if sockets.last().1@.contains(pid) {
            rest.push(sockets.last().0)
        } else {
            rest
        }
    }
}

/// Picks, among UDP sockets (local port, owning process ids), the local
/// ports of those that `pid` owns.
pub fn get_active_ports(sockets: &Vec<(u16, Vec<u32>)>, pid: u32) -> (r: Vec<u16>)
    ensures
        r@ == ports_of(sockets@, pid),
{
    let mut out: Vec<u16> = Vec::new();
    let mut i: usize = 0;
    while i < sockets.len()
        invariant
            i <= sockets@.len(),
            out@ == ports_of(sockets@.subrange(0, i as int), pid),
        decreases sockets@.len() - i,
    {
        assert(sockets@.subrange(0, i + 1).drop_last() =~= sockets@.subrange(0, i as int));
        let owners = &sockets[i].1;
        let mut owned = false;
        let mut k: usize = 0;
        while k < owners.len()
            invariant
                k <= owners@.len(),
                owned == exists|q: int| 0 <= q < k && owners@[q] == pid,
            decreases owners@.len() - k,
        {
            if owners[k] == pid {
                owned = true;
            }
            k = k + 1;
        }
        assert(owned == owners@.contains(pid));
        if owned {
            out.push(sockets[i].0);
        }
        i = i + 1;
    }
    assert(sockets@.subrange(0, sockets@.len() as int) =~= sockets@);
    out
}

/// What the client does once it has looked at the log and the sockets.
#[derive(Debug)]
pub enum ClientAction {
    /// The log names no host being joined: nothing is sent.
    NoTarget,
    /// The game does not hold exactly one UDP port: nothing is sent.
    PortCount(usize),
    /// Ask for an introduction to `target` from `port`.
    Join { target: String, port: u16 },
}

/// Decides whether to ask for an introduction: only with a target host and
/// exactly one game port.
pub fn plan_introduction(target: Option<String>, ports: &Vec<u16>) -> (r: ClientAction)
    ensures
        match r {
            ClientAction::NoTarget => target is None,
            ClientAction::PortCount(n) => target is Some && n == ports@.len() && n != 1,
            ClientAction::Join { target: t, port } => target == Some(t) && ports@ == seq![port],
        },
{
    match target {
        None => ClientAction::NoTarget,
        Some(t) => {
            if ports.len() != 1 {
                ClientAction::PortCount(ports.len())
            } else {
                assert(ports@ =~= seq![ports@[0]]);
                ClientAction::Join { target: t, port: ports[0] }
            }
        },
    }
}

/// The introduction request's address, on the rendezvous service at
/// `server` (`host:port`).
pub open spec fn join_url_text(server: Seq<char>, target: Seq<char>, port: u16) -> Seq<char> {
    seq!['h', 't', 't', 'p', ':', '/', '/'] + server + seq![
        '/', 'a', 'p', 'i', '/', 'j', 'o', 'i', 'n', '?', 't', 'a', 'r', 'g', 'e', 't', '=',
    ] + fingerprint_of(target) + seq!['&', 'p', 'o', 'r', 't', '='] + dec_string(port as nat)
}

/// The address to POST to so that the host at `target` (`ip:port`) punches
/// toward this client's game port `port`.
pub fn join_url(server: &str, target: String, port: u16) -> (r: String)
    ensures
        r@ == join_url_text(server@, target@, port),
{
    let fp = sha1(target);
    let mut out = String::new();
    out.append("http://");
    out.append(server);
    out.append("/api/join?target=");
    out.append(fp.as_str());
    out.append("&port=");
    push_decimal(&mut out, port as u32);
    proof {
        reveal_strlit("http://");
        reveal_strlit("/api/join?target=");
        reveal_strlit("&port=");
    }
    assert(out@ =~= join_url_text(server@, target@, port));
    out
}

} // verus!
