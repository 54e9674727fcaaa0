//! Digests, encodings and randomness: the calls into `sha2`, `hex`, `base64` and `rand`, each
//! behind a small trusted wrapper whose contract says what the outside function computes.

use base64::Engine;
use rand::RngCore;
use sha2::Digest;
use vstd::prelude::*;

use crate::text::string_of;

verus! {

/// The SHA-256 digest of `data`, as computed by the `sha2` crate.
pub uninterp spec fn sha256_spec(data: Seq<u8>) -> Seq<u8>;

/// `sha2::Sha256::digest`: trusted to return the SHA-256 digest of `data`, which is 32 bytes long.
#[verifier::external_body]
pub(crate) fn sha256(data: &[u8]) -> (r: Vec<u8>)
    ensures
        r@ == sha256_spec(data@),
        r@.len() == 32,
{
    sha2::Sha256::digest(data).to_vec()
}

/// The lowercase hex digit for a value below 16.
pub open spec fn hex_digit(v: int) -> char {
    if v < 10 {
        (('0' as int) + v) as char
    } else {
        (('a' as int) + v - 10) as char
    }
}

/// Lowercase hexadecimal: two digits per byte, high nibble first.
pub open spec fn hex_lower_spec(bytes: Seq<u8>) -> Seq<char>
    decreases bytes.len(),
{
    if bytes.len() == 0 {
        Seq::empty()
    } else {
        seq![hex_digit(bytes[0] as int / 16), hex_digit(bytes[0] as int % 16)] + hex_lower_spec(bytes.drop_first())
    }
}

proof fn lemma_hex_lower_append(a: Seq<u8>, b: Seq<u8>)
    ensures
        hex_lower_spec(a + b) == hex_lower_spec(a) + hex_lower_spec(b),
    decreases a.len(),
{
    if a.len() == 0 {
        assert(a + b =~= b);
        assert(hex_lower_spec(a) + hex_lower_spec(b) =~= hex_lower_spec(b));
    } else {
        lemma_hex_lower_append(a.drop_first(), b);
        assert((a + b).drop_first() =~= a.drop_first() + b);
        assert((a + b)[0] == a[0]);
        let d = seq![hex_digit(a[0] as int / 16), hex_digit(a[0] as int % 16)];
        assert(d + (hex_lower_spec(a.drop_first()) + hex_lower_spec(b)) =~= (d + hex_lower_spec(a.drop_first()))
            + hex_lower_spec(b));
    }
}

fn hex_char(v: u8) -> (c: char)
    requires
        v < 16,
    ensures
        c == hex_digit(v as int),
{
    if v < 10 {
        ((48 + v) as u8) as char
    } else {
        ((87 + v) as u8) as char
    }
}

/// Lowercase hexadecimal of bytes, two digits per byte, high nibble first (what `hex::encode`
/// writes).
pub(crate) fn hex_encode(bytes: &[u8]) -> (r: String)
    ensures
        r@ == hex_lower_spec(bytes@),
{
    let mut out: Vec<char> = Vec::new();
    let mut i: usize = 0;
    while i < bytes.len()
        invariant
            i <= bytes@.len(),
            out@ == hex_lower_spec(bytes@.subrange(0, i as int)),
        decreases bytes@.len() - i,
    {
        let b = bytes[i];
        proof {
            let one = seq![b];
            lemma_hex_lower_append(bytes@.subrange(0, i as int), one);
            assert(bytes@.subrange(0, i + 1) =~= bytes@.subrange(0, i as int) + one);
            assert(one.drop_first() =~= Seq::<u8>::empty());
            assert(hex_lower_spec(Seq::<u8>::empty()) =~= Seq::<char>::empty());
            assert(hex_lower_spec(one.drop_first()) =~= Seq::<char>::empty());
            assert(one[0] == b);
            assert(hex_lower_spec(one) =~= seq![hex_digit(b as int / 16), hex_digit(b as int % 16)]);
        }
        out.push(hex_char(b / 16));
        out.push(hex_char(b % 16));
        i = i + 1;
    }
    assert(bytes@.subrange(0, bytes@.len() as int) =~= bytes@);
    string_of(&out)
}

pub proof fn lemma_hex_len(bytes: Seq<u8>)
    ensures
        hex_lower_spec(bytes).len() == 2 * bytes.len(),
    decreases bytes.len(),
{
    if bytes.len() > 0 {
        lemma_hex_len(bytes.drop_first());
    }
}

/// The URL-safe base64 alphabet (RFC 4648, section 5) value for a 6-bit group.
pub open spec fn b64url_char(v: int) -> char {
    if v < 26 {
        (('A' as int) + v) as char
    } else if v < 52 {
        (('a' as int) + v - 26) as char
    } else if v < 62 {
        (('0' as int) + v - 52) as char
    } else if v == 62 {
        '-'
    } else {
        '_'
    }
}

/// URL-safe base64 without padding: each 3 bytes become 4 characters; a final group of 2 bytes
/// becomes 3 characters and a final single byte 2 characters.
pub open spec fn b64url_nopad_spec(bytes: Seq<u8>) -> Seq<char>
    decreases bytes.len(),
{
    if bytes.len() >= 3 {
        let (b0, b1, b2) = (bytes[0] as int, bytes[1] as int, bytes[2] as int);
        seq![
            b64url_char(b0 / 4),
            b64url_char((b0 % 4) * 16 + b1 / 16),
            b64url_char((b1 % 16) * 4 + b2 / 64),
            b64url_char(b2 % 64),
        ] + b64url_nopad_spec(bytes.subrange(3, bytes.len() as int))
    } else if bytes.len() == 2 {
        let (b0, b1) = (bytes[0] as int, bytes[1] as int);
        seq![b64url_char(b0 / 4), b64url_char((b0 % 4) * 16 + b1 / 16), b64url_char((b1 % 16) * 4)]
    } else if bytes.len() == 1 {
        let b0 = bytes[0] as int;
        seq![b64url_char(b0 / 4), b64url_char((b0 % 4) * 16)]
    } else {
        Seq::empty()
    }
}

/// `base64::engine::general_purpose::URL_SAFE_NO_PAD.encode`: trusted to produce RFC 4648
/// URL-safe base64 with the padding left off.
#[verifier::external_body]
pub(crate) fn b64url_nopad_encode(bytes: &[u8]) -> (r: String)
    ensures
        r@ == b64url_nopad_spec(bytes@),
{
    base64::engine::general_purpose::URL_SAFE_NO_PAD.encode(bytes)
}

/// Unpadded base64 of `n` bytes has `ceil(4n / 3)` characters.
pub proof fn lemma_b64url_len(bytes: Seq<u8>)
    ensures
        b64url_nopad_spec(bytes).len() == (4 * bytes.len() + 2) / 3,
    decreases bytes.len(),
{
    if bytes.len() >= 3 {
        lemma_b64url_len(bytes.subrange(3, bytes.len() as int));
    }
}

/// `rand::rng().fill_bytes`: `n` bytes from the thread-local cryptographically secure generator.
/// Nothing is promised of their values.
#[verifier::external_body]
pub(crate) fn random_bytes(n: usize) -> (r: Vec<u8>)
    ensures
        r@.len() == n,
{
    let mut bytes = vec![0u8; n];
    rand::rng().fill_bytes(&mut bytes);
    bytes
}

/// Hex of the SHA-256 digest of a string's UTF-8 bytes: how tokens and codes are stored.
pub open spec fn sha256_hex_spec(text: Seq<char>) -> Seq<char> {
    hex_lower_spec(sha256_spec(vstd::utf8::encode_utf8(text)))
}

/// The stored form of a secret string: the lowercase hex of its SHA-256 digest.
pub fn sha256_hex(text: &str) -> (r: String)
    ensures
        r@ == sha256_hex_spec(text@),
        r@.len() == 64,
{
    let digest = sha256(text.as_bytes());
    proof {
        lemma_hex_len(digest@);
    }
    hex_encode(digest.as_slice())
}

/// The SHA-1 digest of `data`, as computed by the `sha1` crate.
pub uninterp spec fn sha1_spec(data: Seq<u8>) -> Seq<u8>;

/// `sha1::Sha1::digest`: trusted to return the SHA-1 digest of `data`, which is 20 bytes long.
#[verifier::external_body]
pub(crate) fn sha1(data: &[u8]) -> (r: Vec<u8>)
    ensures
        r@ == sha1_spec(data@),
        r@.len() == 20,
{
    sha1::Sha1::digest(data).to_vec()
}

/// The SHA-512 digest of `data`, as computed by the `sha2` crate.
pub uninterp spec fn sha512_spec(data: Seq<u8>) -> Seq<u8>;

/// `sha2::Sha512::digest`: trusted to return the SHA-512 digest of `data`, which is 64 bytes
/// long.
#[verifier::external_body]
pub(crate) fn sha512(data: &[u8]) -> (r: Vec<u8>)
    ensures
        r@ == sha512_spec(data@),
        r@.len() == 64,
{
    sha2::Sha512::digest(data).to_vec()
}

/// The standard base64 alphabet (RFC 4648, section 4) value for a 6-bit group.
pub open spec fn b64std_char(v: int) -> char {
    if v < 26 {
        (('A' as int) + v) as char
    } else if v < 52 {
        (('a' as int) + v - 26) as char
    } else if v < 62 {
        (('0' as int) + v - 52) as char
    } else if v == 62 {
        '+'
    } else {
        '/'
    }
}

/// Standard padded base64: each 3 bytes become 4 characters; a final group of 2 bytes becomes 3
/// characters and `=`, a final single byte 2 characters and `==`.
pub open spec fn b64std_spec(bytes: Seq<u8>) -> Seq<char>
    decreases bytes.len(),
{
    if bytes.len() >= 3 {
        let (b0, b1, b2) = (bytes[0] as int, bytes[1] as int, bytes[2] as int);
        seq![
            b64std_char(b0 / 4),
            b64std_char((b0 % 4) * 16 + b1 / 16),
            b64std_char((b1 % 16) * 4 + b2 / 64),
            b64std_char(b2 % 64),
        ] + b64std_spec(bytes.subrange(3, bytes.len() as int))
    } else if bytes.len() == 2 {
        let (b0, b1) = (bytes[0] as int, bytes[1] as int);
        seq![b64std_char(b0 / 4), b64std_char((b0 % 4) * 16 + b1 / 16), b64std_char((b1 % 16) * 4), '=']
    } else if bytes.len() == 1 {
        let b0 = bytes[0] as int;
        seq![b64std_char(b0 / 4), b64std_char((b0 % 4) * 16), '=', '=']
    } else {
        Seq::empty()
    }
}

/// `base64::engine::general_purpose::STANDARD.encode`: trusted to produce RFC 4648 standard
/// base64 with padding.
#[verifier::external_body]
pub(crate) fn b64std_encode(bytes: &[u8]) -> (r: String)
    ensures
        r@ == b64std_spec(bytes@),
{
    base64::engine::general_purpose::STANDARD.encode(bytes)
}

} // verus!
