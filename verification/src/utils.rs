//! Random strings, and the encodings and the hash that authentication uses.

use base64::engine::general_purpose::STANDARD;
use base64::Engine;
use sha2::{Digest, Sha256};
use vstd::prelude::*;

verus! {

/// The lower-case hexadecimal digit of a number below sixteen.
pub open spec fn hex_digit(n: int) -> char {
    "0123456789abcdef"@[n]
}

/// The bytes as hexadecimal digits, two for each byte, the higher one first.
pub open spec fn hex_text(bytes: Seq<u8>) -> Seq<char> {
    Seq::new(
        2 * bytes.len(),
        |i: int|
            if i % 2 == 0 {
                hex_digit(bytes[i / 2] as int / 16)
            } else {
                hex_digit(bytes[i / 2] as int % 16)
            },
    )
}

/// `hex::encode` is documented to write each byte as two lower-case hexadecimal
/// digits. The text has to fit into memory.
#[verifier::external_body]
fn hex_encode(bytes: &[u8]) -> (r: String)
    requires
        2 * bytes@.len() <= isize::MAX,
    ensures
        r@ == hex_text(bytes@),
{
    hex::encode(bytes)
}

/// `rand::random` gives a random byte, of which nothing is known.
#[verifier::external_body]
fn random_byte() -> (r: u8) {
    rand::random()
}

/// How many bytes a random string is made of.
pub const RANDOM_BYTES: usize = 64;

/// The string that stands for random bytes.
pub fn string_of_bytes(bytes: &[u8]) -> (r: String)
    requires
        2 * bytes@.len() <= isize::MAX,
    ensures
        r@ == hex_text(bytes@),
{
    hex_encode(bytes)
}

/// Whether `s` stands for as many bytes as a random string is made of.
pub open spec fn is_random_string(s: Seq<char>) -> bool {
    exists|bytes: Seq<u8>| bytes.len() == RANDOM_BYTES && s == #[trigger] hex_text(bytes)
}

/// Random bytes as hexadecimal digits.
pub fn random_string() -> (r: String)
    ensures
        is_random_string(r@),
{
    let mut bytes: Vec<u8> = Vec::new();
    while bytes.len() < RANDOM_BYTES
        invariant
            bytes@.len() <= RANDOM_BYTES,
        decreases RANDOM_BYTES - bytes@.len(),
    {
        bytes.push(random_byte());
    }
    string_of_bytes(bytes.as_slice())
}

/// The SHA-256 digest of a message.
pub uninterp spec fn sha256_digest(message: Seq<u8>) -> Seq<u8>;

/// `Sha256` of `sha2`, by `new`, `update` and `finalize`, computes the SHA-256
/// digest of the bytes, which is given a name. It has thirty-two bytes.
#[verifier::external_body]
fn sha256(message: &[u8]) -> (r: Vec<u8>)
    ensures
        r@ == sha256_digest(message@),
        r@.len() == 32,
{
    let mut hasher = Sha256::new();
    hasher.update(message);
    hasher.finalize().to_vec()
}

/// The digit of a number below sixty-four in the standard alphabet of RFC 4648.
pub open spec fn base64_digit(n: int) -> char {
    "ABCDEFGHIJKLMNOPQRSTUVWXYZabcdefghijklmnopqrstuvwxyz0123456789+/"@[n]
}

/// The byte at `i`, or zero behind the last one.
pub open spec fn byte_or_zero(bytes: Seq<u8>, i: int) -> int {
    if i < bytes.len() {
        bytes[i] as int
    } else {
        0
    }
}

/// The bytes in base64 as RFC 4648 defines it: every three bytes as four digits of
/// six bits. A group that is not full has a `=` for each missing byte.
pub open spec fn base64_text(bytes: Seq<u8>) -> Seq<char> {
    Seq::new(
        (bytes.len() + 2) / 3 * 4,
        |i: int|
            {
                let first = i / 4 * 3;
                let group = byte_or_zero(bytes, first) * 65536 + byte_or_zero(bytes, first + 1)
                    * 256 + byte_or_zero(bytes, first + 2);
                if first + i % 4 > bytes.len() {
                    '='
                } else if i % 4 == 0 {
                    base64_digit(group / 262144)
                } else if i % 4 == 1 {
                    base64_digit(group / 4096 % 64)
                } else if i % 4 == 2 {
                    base64_digit(group / 64 % 64)
                } else {
                    base64_digit(group % 64)
                }
            },
    )
}

/// `Engine::encode` of `base64` for the engine `STANDARD` is documented to write
/// the bytes with the standard alphabet and with padding. The text has to fit
/// into memory.
#[verifier::external_body]
fn base64_encode(bytes: &[u8]) -> (r: String)
    requires
        (bytes@.len() + 2) / 3 * 4 <= isize::MAX,
    ensures
        r@ == base64_text(bytes@),
{
    STANDARD.encode(bytes)
}

/// The text that stands for a digest.
pub fn text_of_digest(digest: &[u8]) -> (r: String)
    requires
        (digest@.len() + 2) / 3 * 4 <= isize::MAX,
    ensures
        r@ == base64_text(digest@),
{
    base64_encode(digest)
}

/// The base64 text of the digest of a text.
pub open spec fn text_hash(text: Seq<char>) -> Seq<char> {
    base64_text(sha256_digest(vstd::utf8::encode_utf8(text)))
}

/// The hash of a text: the digest of its bytes, in base64.
pub fn hash_text(text: &str) -> (r: String)
    ensures
        r@ == text_hash(text@),
        r@ == base64_text(sha256_digest(vstd::utf8::encode_utf8(text@))),
        r@.len() == 44,
{
    let digest = sha256(text.as_bytes());
    text_of_digest(digest.as_slice())
}

proof fn lemma_hex_digit(m: int, n: int)
    requires
        0 <= m < 16,
        0 <= n < 16,
    ensures
        "0123456789abcdef"@.contains(hex_digit(m)),
        hex_digit(m) == hex_digit(n) ==> m == n,
{
    reveal_strlit("0123456789abcdef");
    assert("0123456789abcdef"@[m] == hex_digit(m));
}

/// A random string has a hundred and twenty-eight hexadecimal digits.
pub proof fn law_random_string_is_hexadecimal(s: Seq<char>)
    requires
        is_random_string(s),
    ensures
        s.len() == 128,
        forall|i: int| 0 <= i < s.len() ==> "0123456789abcdef"@.contains(#[trigger] s[i]),
{
    let bytes = choose|bytes: Seq<u8>|
        bytes.len() == RANDOM_BYTES && s == #[trigger] hex_text(bytes);
    assert forall|i: int| 0 <= i < s.len() implies "0123456789abcdef"@.contains(
        #[trigger] s[i],
    ) by {
        let byte = bytes[i / 2] as int;
        lemma_hex_digit(byte / 16, 0);
        lemma_hex_digit(byte % 16, 0);
    }
}

/// Different bytes give different strings.
pub proof fn law_hex_text_tells_bytes_apart(bytes1: Seq<u8>, bytes2: Seq<u8>)
    requires
        hex_text(bytes1) == hex_text(bytes2),
    ensures
        bytes1 == bytes2,
{
    assert(hex_text(bytes1).len() == 2 * bytes1.len());
    assert(hex_text(bytes2).len() == 2 * bytes2.len());
    assert forall|i: int| 0 <= i < bytes1.len() implies bytes1[i] == bytes2[i] by {
        let b1 = bytes1[i] as int;
        let b2 = bytes2[i] as int;
        assert(hex_text(bytes1)[2 * i] == hex_digit(b1 / 16));
        assert(hex_text(bytes2)[2 * i] == hex_digit(b2 / 16));
        assert(hex_text(bytes1)[2 * i + 1] == hex_digit(b1 % 16));
        assert(hex_text(bytes2)[2 * i + 1] == hex_digit(b2 % 16));
        lemma_hex_digit(b1 / 16, b2 / 16);
        lemma_hex_digit(b1 % 16, b2 % 16);
    }
    assert(bytes1 =~= bytes2);
}

} // verus!
