//! Character-level helpers shared by the text protocols: splitting on a
//! separator, decimal numbers, dotted IPv4 addresses.
use vstd::prelude::*;
use vstd::string::*;
use vstd::std_specs::iter::IteratorSpec;

verus! {

broadcast use {axiom_spec_iter, next_postcondition};

/// The characters of a text, in order.
pub fn chars_of(s: &str) -> (r: Vec<char>)
    ensures
        r@ == s@,
{
    let mut it = s.chars();
    let mut out: Vec<char> = Vec::new();
    loop
        invariant
            out@ + it.remaining() == s@,
            it.obeys_prophetic_iter_laws(),
        decreases s@.len() - out@.len(),
    {
        let ghost before = it.remaining();
        match it.next() {
            Some(c) => {
                out.push(c);
                assert(out@ + it.remaining() =~= s@);
            },
            None => {
                assert(out@ =~= s@);
                return out;
            },
        }
    }
}

/// The pieces of `t` between occurrences of `sep`, as `str::split` gives
/// them: one more piece than there are separators, empty pieces kept.
pub open spec fn split_on(t: Seq<char>, sep: char) -> Seq<Seq<char>>
    decreases t.len(),
{
    if t.len() == 0 {
        seq![Seq::<char>::empty()]
    } else {
        let p = split_on(t.drop_last(), sep);
        if t.last() == sep {
            p.push(Seq::<char>::empty())
        } else {
            p.update(p.len() - 1, p.last().push(t.last()))
        }
    }
}

pub proof fn lemma_split_on_nonempty(t: Seq<char>, sep: char)
    ensures
        split_on(t, sep).len() >= 1,
    decreases t.len(),
{
    if t.len() > 0 {
        lemma_split_on_nonempty(t.drop_last(), sep);
    }
}

pub open spec fn views(v: Seq<Vec<char>>) -> Seq<Seq<char>> {
    v.map_values(|x: Vec<char>| x@)
}

/// Splits characters on a separator.
pub fn split_chars(t: &Vec<char>, sep: char) -> (r: Vec<Vec<char>>)
    ensures
        views(r@) == split_on(t@, sep),
{
    let mut done: Vec<Vec<char>> = Vec::new();
    let mut cur: Vec<char> = Vec::new();
    let mut i: usize = 0;
    while i < t.len()
        invariant
            i <= t@.len(),
            views(done@).push(cur@) == split_on(t@.subrange(0, i as int), sep),
        decreases t@.len() - i,
    {
        let c = t[i];
        let ghost pre = t@.subrange(0, i as int);
        proof {
            lemma_split_on_nonempty(pre, sep);
            assert(t@.subrange(0, i + 1).drop_last() =~= pre);
        }
        if c == sep {
            let ghost old_done = done@;
            done.push(cur);
            cur = Vec::new();
            proof {
                assert(views(done@) =~= views(old_done).push(split_on(pre, sep).last()));
                assert(views(done@).push(cur@) =~= split_on(pre, sep).push(Seq::<char>::empty()));
            }
        } else {
            cur.push(c);
            proof {
                assert(views(done@).push(cur@) =~= split_on(pre, sep).update(
                    split_on(pre, sep).len() - 1,
                    split_on(pre, sep).last().push(c),
                ));
            }
        }
        i = i + 1;
    }
    done.push(cur);
    assert(t@.subrange(0, t@.len() as int) =~= t@);
    done
}

pub open spec fn is_digit(c: char) -> bool {
    '0' <= c && c <= '9'
}

pub open spec fn all_digits(t: Seq<char>) -> bool {
    forall|i: int| 0 <= i < t.len() ==> is_digit(#[trigger] t[i])
}

/// The value of a run of decimal digits.
pub open spec fn dec_value(t: Seq<char>) -> int
    decreases t.len(),
{
    if t.len() == 0 {
        0
    } else {
        dec_value(t.drop_last()) * 10 + (t.last() as int - '0' as int)
    }
}

proof fn lemma_dec_value_prefix(t: Seq<char>, i: int)
    requires
        all_digits(t),
        0 <= i <= t.len(),
    ensures
        0 <= dec_value(t.subrange(0, i)) <= dec_value(t),
    decreases t.len(),
{
    if i == t.len() {
        assert(t.subrange(0, i) =~= t);
        lemma_dec_value_nonneg(t);
    } else {
        assert(t.drop_last().subrange(0, i) =~= t.subrange(0, i));
        lemma_dec_value_prefix(t.drop_last(), i);
    }
}

proof fn lemma_dec_value_nonneg(t: Seq<char>)
    requires
        all_digits(t),
    ensures
        dec_value(t) >= 0,
    decreases t.len(),
{
    if t.len() > 0 {
        lemma_dec_value_nonneg(t.drop_last());
    }
}

/// A port number written in decimal: one or more digits, at most 65535.
pub open spec fn u16_of(t: Seq<char>) -> Option<u16> {
    if t.len() > 0 && all_digits(t) && dec_value(t) <= 65535 {
        Some(dec_value(t) as u16)
    } else {
        None
    }
}

/// Reads a decimal port number.
pub fn parse_u16(t: &Vec<char>) -> (r: Option<u16>)
    ensures
        r == u16_of(t@),
{
    if t.len() == 0 {
        return None;
    }
    let mut acc: u32 = 0;
    let mut i: usize = 0;
    while i < t.len()
        invariant
            i <= t@.len(),
            all_digits(t@.subrange(0, i as int)),
            acc as int == dec_value(t@.subrange(0, i as int)),
            acc <= 65535,
        decreases t@.len() - i,
    {
        let c = t[i];
        if !('0' <= c && c <= '9') {
            assert(!all_digits(t@));
            return None;
        }
        assert(t@.subrange(0, i + 1).drop_last() =~= t@.subrange(0, i as int));
        let next = acc * 10 + (c as u32 - '0' as u32);
        if next > 65535 {
            proof {
                assert(all_digits(t@.subrange(0, i + 1)));
                if all_digits(t@) {
                    lemma_dec_value_prefix(t@, i + 1);
                }
            }
            return None;
        }
        acc = next;
        i = i + 1;
    }
    assert(t@.subrange(0, t@.len() as int) =~= t@);
    Some(acc as u16)
}

/// One octet of a dotted IPv4 address: one to three digits, no leading
/// zero, at most 255.
pub open spec fn octet_of(t: Seq<char>) -> Option<u8> {
    if 1 <= t.len() <= 3 && all_digits(t) && !(t.len() > 1 && t[0] == '0') && dec_value(t) <= 255 {
        Some(dec_value(t) as u8)
    } else {
        None
    }
}

/// Reads one octet of a dotted IPv4 address.
pub fn parse_octet(t: &Vec<char>) -> (r: Option<u8>)
    ensures
        r == octet_of(t@),
{
    if t.len() == 0 || t.len() > 3 || (t.len() > 1 && t[0] == '0') {
        return None;
    }
    let mut acc: u32 = 0;
    let mut i: usize = 0;
    while i < t.len()
        invariant
            i <= t@.len() <= 3,
            all_digits(t@.subrange(0, i as int)),
            acc as int == dec_value(t@.subrange(0, i as int)),
            acc < 1000,
            acc < 10 || i >= 2,
            acc < 100 || i >= 3,
        decreases t@.len() - i,
    {
        let c = t[i];
        if !('0' <= c && c <= '9') {
            assert(!all_digits(t@));
            return None;
        }
        assert(t@.subrange(0, i + 1).drop_last() =~= t@.subrange(0, i as int));
        acc = acc * 10 + (c as u32 - '0' as u32);
        i = i + 1;
    }
    assert(t@.subrange(0, t@.len() as int) =~= t@);
    if acc > 255 {
        None
    } else {
        Some(acc as u8)
    }
}

/// A dotted IPv4 address: exactly four octets separated by dots.
pub open spec fn ipv4_of(t: Seq<char>) -> Option<Seq<u8>> {
    let p = split_on(t, '.');
    if p.len() == 4 && octet_of(p[0]) is Some && octet_of(p[1]) is Some && octet_of(p[2]) is Some
        && octet_of(p[3]) is Some {
        Some(seq![octet_of(p[0])->0, octet_of(p[1])->0, octet_of(p[2])->0, octet_of(p[3])->0])
    } else {
        None
    }
}

/// Reads a dotted IPv4 address.
pub fn parse_ipv4(t: &Vec<char>) -> (r: Option<[u8; 4]>)
    ensures
        match r {
            Some(a) => ipv4_of(t@) == Some(a@),
            None => ipv4_of(t@) is None,
        },
{
    let parts = split_chars(t, '.');
    if parts.len() != 4 {
        return None;
    }
    assert(parts@[0]@ == split_on(t@, '.')[0]);
    assert(parts@[1]@ == split_on(t@, '.')[1]);
    assert(parts@[2]@ == split_on(t@, '.')[2]);
    assert(parts@[3]@ == split_on(t@, '.')[3]);
    let a = parse_octet(&parts[0]);
    let b = parse_octet(&parts[1]);
    let c = parse_octet(&parts[2]);
    let d = parse_octet(&parts[3]);
    match (a, b, c, d) {
        (Some(a), Some(b), Some(c), Some(d)) => {
            let r = [a, b, c, d];
            assert(r@ =~= seq![a, b, c, d]);
            Some(r)
        },
        _ => None,
    }
}

pub open spec fn digit_char(d: int) -> char {
    seq!['0', '1', '2', '3', '4', '5', '6', '7', '8', '9'][d]
}

/// The decimal form of a number, without leading zeros.
pub open spec fn dec_string(n: nat) -> Seq<char>
    decreases n,
{
    if n < 10 {
        seq![digit_char(n as int)]
    } else {
        dec_string(n / 10).push(digit_char((n % 10) as int))
    }
}

/// Appends the decimal form of `n`.
pub fn push_decimal(out: &mut String, n: u32)
    ensures
        final(out)@ == old(out)@ + dec_string(n as nat),
    decreases n,
{
    let digits = "0123456789";
    proof {
        reveal_strlit("0123456789");
    }
    if n >= 10 {
        push_decimal(out, n / 10);
    }
    let d = (n % 10) as usize;
    let c = digits.substring_char(d, d + 1);
    assert(c@ =~= seq![digit_char(d as int)]);
    out.append(c);
    assert(final(out)@ =~= old(out)@ + dec_string(n as nat));
}

/// The dotted decimal form of an IPv4 address.
pub open spec fn ipv4_string(a: Seq<u8>) -> Seq<char> {
    dec_string(a[0] as nat) + seq!['.'] + dec_string(a[1] as nat) + seq!['.'] + dec_string(
        a[2] as nat,
    ) + seq!['.'] + dec_string(a[3] as nat)
}

/// Appends the dotted decimal form of an IPv4 address.
pub fn push_ipv4(out: &mut String, a: [u8; 4])
    ensures
        final(out)@ == old(out)@ + ipv4_string(a@),
{
    let ghost start = out@;
    push_decimal(out, a[0] as u32);
    out.append(".");
    push_decimal(out, a[1] as u32);
    out.append(".");
    push_decimal(out, a[2] as u32);
    out.append(".");
    push_decimal(out, a[3] as u32);
    proof {
        reveal_strlit(".");
    }
    assert(out@ =~= start + ipv4_string(a@));
}

proof fn lemma_digit_char(d: int)
    requires
        0 <= d < 10,
    ensures
        is_digit(digit_char(d)),
        digit_char(d) as int - '0' as int == d,
{
    if d == 0 {
    } else if d == 1 {
    } else if d == 2 {
    } else if d == 3 {
    } else if d == 4 {
    } else if d == 5 {
    } else if d == 6 {
    } else if d == 7 {
    } else if d == 8 {
    } else {
    }
}

/// The decimal form of a number is a run of digits whose value is that
/// number, with no leading zero and at most as many digits as the number
/// needs.
pub proof fn lemma_dec_string(n: nat)
    ensures
        dec_string(n).len() >= 1,
        all_digits(dec_string(n)),
        dec_value(dec_string(n)) == n,
        dec_string(n)[0] == '0' ==> n == 0,
        n < 1000 ==> dec_string(n).len() <= 3,
        n < 100 ==> dec_string(n).len() <= 2,
        n < 10 ==> dec_string(n).len() == 1,
    decreases n,
{
    if n < 10 {
        lemma_digit_char(n as int);
        let s = seq![digit_char(n as int)];
        assert(s.drop_last() =~= Seq::<char>::empty());
        assert(dec_value(Seq::<char>::empty()) == 0);
        assert(s.last() == digit_char(n as int));
        assert(dec_value(s) == dec_value(s.drop_last()) * 10 + (s.last() as int - '0' as int));
    } else {
        let d = dec_string(n / 10);
        lemma_dec_string(n / 10);
        lemma_digit_char((n % 10) as int);
        assert(dec_string(n).drop_last() =~= d);
        assert(dec_string(n)[0] == d[0]);
        assert(dec_string(n).last() == digit_char((n % 10) as int));
        assert(dec_value(dec_string(n)) == dec_value(d) * 10 + (digit_char((n % 10) as int) as int
            - '0' as int));
        assert(n == (n / 10) * 10 + n % 10) by (nonlinear_arith);
        assert forall|i: int| 0 <= i < dec_string(n).len() implies is_digit(
            #[trigger] dec_string(n)[i],
        ) by {
            if i < d.len() {
                assert(dec_string(n)[i] == d[i]);
            }
        }
    }
}

/// Pieces of a text with no separator in it: the text itself.
pub proof fn lemma_split_no_sep(x: Seq<char>, sep: char)
    requires
        forall|i: int| 0 <= i < x.len() ==> x[i] != sep,
    ensures
        split_on(x, sep) == seq![x],
    decreases x.len(),
{
    if x.len() > 0 {
        lemma_split_no_sep(x.drop_last(), sep);
        assert(x.drop_last().push(x.last()) =~= x);
        assert(split_on(x, sep) =~= seq![x]);
    } else {
        assert(x =~= Seq::<char>::empty());
    }
}

/// Splitting at a separator splits the two sides apart.
pub proof fn lemma_split_concat(x: Seq<char>, y: Seq<char>, sep: char)
    ensures
        split_on(x + seq![sep] + y, sep) == split_on(x, sep) + split_on(y, sep),
    decreases y.len(),
{
    let t = x + seq![sep] + y;
    if y.len() == 0 {
        assert(t.drop_last() =~= x);
        assert(split_on(y, sep) =~= seq![Seq::<char>::empty()]);
        assert(split_on(t, sep) =~= split_on(x, sep) + split_on(y, sep));
    } else {
        let y0 = y.drop_last();
        lemma_split_concat(x, y0, sep);
        lemma_split_on_nonempty(y0, sep);
        lemma_split_on_nonempty(x, sep);
        assert(t.drop_last() =~= x + seq![sep] + y0);
        assert(split_on(t, sep) =~= split_on(x, sep) + split_on(y, sep));
    }
}

pub proof fn lemma_dec_string_no_sep(n: nat, sep: char)
    requires
        !is_digit(sep),
    ensures
        forall|i: int| 0 <= i < dec_string(n).len() ==> dec_string(n)[i] != sep,
{
    lemma_dec_string(n);
}

/// The dotted form of an address reads back as that address.
pub proof fn lemma_ipv4_round_trip(a: Seq<u8>)
    requires
        a.len() == 4,
    ensures
        ipv4_of(ipv4_string(a)) == Some(a),
        forall|i: int| 0 <= i < ipv4_string(a).len() ==> ipv4_string(a)[i] != ' ',
{
    let d0 = dec_string(a[0] as nat);
    let d1 = dec_string(a[1] as nat);
    let d2 = dec_string(a[2] as nat);
    let d3 = dec_string(a[3] as nat);
    lemma_dec_string(a[0] as nat);
    lemma_dec_string(a[1] as nat);
    lemma_dec_string(a[2] as nat);
    lemma_dec_string(a[3] as nat);
    lemma_dec_string_no_sep(a[0] as nat, '.');
    lemma_dec_string_no_sep(a[1] as nat, '.');
    lemma_dec_string_no_sep(a[2] as nat, '.');
    lemma_dec_string_no_sep(a[3] as nat, '.');
    lemma_split_no_sep(d0, '.');
    lemma_split_no_sep(d1, '.');
    lemma_split_no_sep(d2, '.');
    lemma_split_no_sep(d3, '.');
    lemma_split_concat(d0, d1, '.');
    lemma_split_concat(d0 + seq!['.'] + d1, d2, '.');
    lemma_split_concat(d0 + seq!['.'] + d1 + seq!['.'] + d2, d3, '.');
    let p = split_on(ipv4_string(a), '.');
    assert(p =~= seq![d0, d1, d2, d3]);
    assert(octet_of(d0) == Some(a[0]));
    assert(octet_of(d1) == Some(a[1]));
    assert(octet_of(d2) == Some(a[2]));
    assert(octet_of(d3) == Some(a[3]));
    assert(seq![a[0], a[1], a[2], a[3]] =~= a);
    lemma_dec_string_no_sep(a[0] as nat, ' ');
    lemma_dec_string_no_sep(a[1] as nat, ' ');
    lemma_dec_string_no_sep(a[2] as nat, ' ');
    lemma_dec_string_no_sep(a[3] as nat, ' ');
    let s = ipv4_string(a);
    assert forall|i: int| 0 <= i < s.len() implies s[i] != ' ' by {
        if i < d0.len() {
            assert(s[i] == d0[i]);
        } else if i == d0.len() {
        } else if i < d0.len() + 1 + d1.len() {
            assert(s[i] == d1[i - d0.len() - 1]);
        } else if i == d0.len() + 1 + d1.len() {
        } else if i < d0.len() + d1.len() + 2 + d2.len() {
            assert(s[i] == d2[i - d0.len() - d1.len() - 2]);
        } else if i == d0.len() + d1.len() + 2 + d2.len() {
        } else {
            assert(s[i] == d3[i - d0.len() - d1.len() - d2.len() - 3]);
        }
    }
}

} // verus!
