//! SHA-1 checksums, as the `sha1` crate computes them, written as lower-case
//! hexadecimal text.
use vstd::prelude::*;
use vstd::string::*;
use sha1::Digest;
use crate::text::string_of;

verus! {

/// The SHA-1 digest of `data`, as `sha1::Sha1` computes it.
pub uninterp spec fn sha1_digest(data: Seq<u8>) -> Seq<u8>;

/// `<sha1::Sha1 as Digest>::digest`: the 20-byte SHA-1 digest of `data`.
/// The contract names the digest and states its length (the hasher's
/// output size is `U20`); it says nothing of the digest's bytes.
#[verifier::external_body]
fn sha1_of(data: &[u8]) -> (r: Vec<u8>)
    ensures
        r@ == sha1_digest(data@),
        r@.len() == 20,
{
    sha1::Sha1::digest(data).to_vec()
}

/// The lower-case hexadecimal digit of `n` (`0 <= n < 16`).
pub open spec fn hex_digit(n: u8) -> char {
    if n < 10 {
        (48 + n) as char
    } else {
        (87 + n) as char
    }
}

/// `bytes` as lower-case hexadecimal text, two digits per byte, high digit
/// first (what `format!("{:x}", ..)` writes for a digest).
pub open spec fn hex_lower(bytes: Seq<u8>) -> Seq<char>
    decreases bytes.len(),
{
    if bytes.len() == 0 {
        Seq::empty()
    } else {
        hex_lower(bytes.drop_last()) + seq![
            hex_digit(bytes.last() / 16),
            hex_digit(bytes.last() % 16),
        ]
    }
}

/// Whether a download whose bytes are `data` passes the check against
/// `expected`: there is nothing to check, or the hexadecimal SHA-1 digest of
/// the bytes is exactly `expected`.
pub open spec fn checksum_accepts(data: Seq<u8>, expected: Option<Seq<char>>) -> bool {
    match expected {
        None => true,
        Some(e) => e == hex_lower(sha1_digest(data)),
    }
}

fn hex_char(n: u8) -> (c: char)
    requires
        n < 16,
    ensures
        c == hex_digit(n),
{
    if n < 10 {
        (48 + n) as char
    } else {
        (87 + n) as char
    }
}

/// `bytes` as lower-case hexadecimal text.
pub fn to_hex_lower(bytes: &[u8]) -> (r: String)
    ensures
        r@ == hex_lower(bytes@),
{
    let mut out: Vec<char> = Vec::new();
    for i in 0..bytes.len()
        invariant
            out@ == hex_lower(bytes@.take(i as int)),
    {
        let b = bytes[i];
        out.push(hex_char(b / 16));
        out.push(hex_char(b % 16));
        assert(bytes@.take(i + 1).drop_last() =~= bytes@.take(i as int));
        assert(out@ =~= hex_lower(bytes@.take(i + 1)));
    }
    assert(bytes@.take(bytes.len() as int) =~= bytes@);
    string_of(&out)
}

/// The SHA-1 digest of `data` as lower-case hexadecimal text.
pub fn sha1_hex(data: &[u8]) -> (r: String)
    ensures
        r@ == hex_lower(sha1_digest(data@)),
{
    let d = sha1_of(data);
    to_hex_lower(d.as_slice())
}

/// The SHA-1 digest of the UTF-8 bytes of `text`, as lower-case
/// hexadecimal text.
pub fn text_sha1_hex(text: &str) -> (r: String)
    ensures
        r@ == hex_lower(sha1_digest(text.spec_bytes())),
{
    sha1_hex(text.as_bytes())
}

/// Whether downloaded bytes pass the check against the expected digest.
pub fn sha1_matches(data: &[u8], expected: Option<&String>) -> (r: bool)
    ensures
        r == checksum_accepts(
            data@,
            match expected {
                Some(e) => Some(e@),
                None => None,
            },
        ),
{
    match expected {
        None => true,
        Some(e) => {
            let got = sha1_hex(data);
            got == *e
        },
    }
}

/// Two hexadecimal digits of lower-case text are equal only for equal values.
proof fn lemma_hex_digit_injective(a: u8, b: u8)
    requires
        0 <= a < 16,
        0 <= b < 16,
        hex_digit(a) == hex_digit(b),
    ensures
        a == b,
{
}

/// Each byte gives two characters.
pub proof fn lemma_hex_lower_len(bytes: Seq<u8>)
    ensures
        hex_lower(bytes).len() == 2 * bytes.len(),
    decreases bytes.len(),
{
    if bytes.len() > 0 {
        lemma_hex_lower_len(bytes.drop_last());
    }
}

/// The hexadecimal text of bytes determines the bytes: two byte sequences
/// are written the same only when they are equal.
pub proof fn law_hex_lower_injective(a: Seq<u8>, b: Seq<u8>)
    requires
        hex_lower(a) == hex_lower(b),
    ensures
        a == b,
    decreases a.len(),
{
    lemma_hex_lower_len(a);
    lemma_hex_lower_len(b);
    if a.len() > 0 {
        let ha = hex_lower(a.drop_last());
        let hb = hex_lower(b.drop_last());
        lemma_hex_lower_len(a.drop_last());
        lemma_hex_lower_len(b.drop_last());
        let n = ha.len() as int;
        assert(hex_lower(a)[n] == hex_digit(a.last() / 16));
        assert(hex_lower(b)[n] == hex_digit(b.last() / 16));
        assert(hex_lower(a)[n + 1] == hex_digit(a.last() % 16));
        assert(hex_lower(b)[n + 1] == hex_digit(b.last() % 16));
        lemma_hex_digit_injective(a.last() / 16, b.last() / 16);
        lemma_hex_digit_injective(a.last() % 16, b.last() % 16);
        assert(ha =~= hex_lower(a).subrange(0, n));
        assert(hb =~= hex_lower(b).subrange(0, n));
        law_hex_lower_injective(a.drop_last(), b.drop_last());
        assert(a =~= a.drop_last().push(a.last()));
        assert(b =~= b.drop_last().push(b.last()));
    }
}

/// A download always passes the check against its own digest, and passes
/// the check against another download's digest only when the two digests
/// are equal; a SHA-1 digest is written with 40 characters.
pub proof fn law_checksum(data: Seq<u8>, other: Seq<u8>)
    ensures
        checksum_accepts(data, Some(hex_lower(sha1_digest(data)))),
        checksum_accepts(data, Some(hex_lower(sha1_digest(other))))
            ==> sha1_digest(data) == sha1_digest(other),
        sha1_digest(data).len() == 20 ==> hex_lower(sha1_digest(data)).len() == 40,
{
    lemma_hex_lower_len(sha1_digest(data));
    if checksum_accepts(data, Some(hex_lower(sha1_digest(other)))) {
        law_hex_lower_injective(sha1_digest(data), sha1_digest(other));
    }
}

} // verus!
