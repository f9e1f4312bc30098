//! Host fingerprints: the lowercase hex SHA-1 digest of an "ip:port" string.
use vstd::prelude::*;
use vstd::string::*;
use vstd::utf8::encode_utf8;

verus! {

/// The 20-byte SHA-1 digest of a byte sequence.
pub uninterp spec fn sha1_digest(data: Seq<u8>) -> Seq<u8>;

/// Relies on sha1::Sha1 (`update`, `digest`, `bytes`): the SHA-1 digest of the
/// bytes handed in, as a 20-byte array.
#[verifier::external_body]
fn sha1_bytes(data: &[u8]) -> (r: [u8; 20])
    ensures
        r@ == sha1_digest(data@),
{
    let mut h = sha1::Sha1::new();
    h.update(data);
    h.digest().bytes()
}

/// The lowercase hex digit for a value below 16.
pub open spec fn hex_char(n: int) -> char {
    seq!['0', '1', '2', '3', '4', '5', '6', '7', '8', '9', 'a', 'b', 'c', 'd', 'e', 'f'][n]
}

/// Two lowercase hex digits per byte, high nibble first.
pub open spec fn hex_of(b: Seq<u8>) -> Seq<char> {
    Seq::new(
        2 * b.len(),
        |i: int|
            if i % 2 == 0 {
                hex_char(b[i / 2] as int / 16)
            } else {
                hex_char(b[i / 2] as int % 16)
            },
    )
}

pub open spec fn is_lower_hex_char(c: char) -> bool {
    ('0' <= c && c <= '9') || ('a' <= c && c <= 'f')
}

/// The fingerprint of a text: the lowercase hex form of the SHA-1 digest of
/// its UTF-8 bytes.
pub open spec fn fingerprint_of(s: Seq<char>) -> Seq<char> {
    hex_of(sha1_digest(encode_utf8(s)))
}

/// Every character of a hex rendering is a lowercase hex digit.
pub proof fn lemma_hex_of_is_lower_hex(b: Seq<u8>)
    ensures
        hex_of(b).len() == 2 * b.len(),
        forall|i: int| 0 <= i < hex_of(b).len() ==> is_lower_hex_char(#[trigger] hex_of(b)[i]),
{
    assert forall|i: int| 0 <= i < hex_of(b).len() implies is_lower_hex_char(
        #[trigger] hex_of(b)[i],
    ) by {
        let v: int = if i % 2 == 0 {
            b[i / 2] as int / 16
        } else {
            b[i / 2] as int % 16
        };
        assert(0 <= v < 16);
        assert(hex_of(b)[i] == hex_char(v));
    }
}

/// Appends the two lowercase hex digits of one byte.
fn push_hex_byte(out: &mut String, x: u8)
    ensures
        final(out)@ == old(out)@ + seq![hex_char(x as int / 16), hex_char(x as int % 16)],
{
    let digits = "0123456789abcdef";
    proof {
        reveal_strlit("0123456789abcdef");
    }
    let hi = (x / 16) as usize;
    let lo = (x % 16) as usize;
    let h = digits.substring_char(hi, hi + 1);
    let l = digits.substring_char(lo, lo + 1);
    assert(h@ =~= seq![hex_char(hi as int)]);
    assert(l@ =~= seq![hex_char(lo as int)]);
    out.append(h);
    out.append(l);
    assert(final(out)@ =~= old(out)@ + seq![hex_char(x as int / 16), hex_char(x as int % 16)]);
}

/// Renders bytes as lowercase hex, two digits per byte.
pub fn to_lower_hex(b: &[u8]) -> (r: String)
    ensures
        r@ == hex_of(b@),
{
    let mut out = String::new();
    let mut i: usize = 0;
    while i < b.len()
        invariant
            i <= b@.len(),
            out@ =~= hex_of(b@.subrange(0, i as int)),
        decreases b@.len() - i,
    {
        push_hex_byte(&mut out, b[i]);
        proof {
            assert(hex_of(b@.subrange(0, i + 1)) =~= hex_of(b@.subrange(0, i as int)) + seq![
                hex_char(b@[i as int] as int / 16),
                hex_char(b@[i as int] as int % 16),
            ]);
        }
        i = i + 1;
    }
    assert(b@.subrange(0, b@.len() as int) =~= b@);
    out
}

/// The fingerprint of a host address: the SHA-1 digest of the UTF-8 bytes of
/// `str`, as 40 lowercase hex characters.
pub fn sha1(str: String) -> (r: String)
    ensures
        r@ == fingerprint_of(str@),
        r@.len() == 40,
        forall|i: int| 0 <= i < r@.len() ==> is_lower_hex_char(#[trigger] r@[i]),
{
    let digest = sha1_bytes(str.as_str().as_bytes());
    let r = to_lower_hex(&digest);
    proof {
        lemma_hex_of_is_lower_hex(digest@);
    }
    r
}

} // verus!
