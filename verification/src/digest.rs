//! Stable short names for identities that may hold any text.

use sha2::{Digest, Sha256};
use vstd::prelude::*;
use vstd::string::*;
use vstd::utf8::*;

verus! {

/// The SHA-256 digest of bytes, as `sha2::Sha256::digest` computes it.
pub uninterp spec fn sha256(bytes: Seq<u8>) -> Seq<u8>;

/// Calls `sha2::Sha256::digest`. The digest has thirty-two bytes and depends
/// on the input alone; which bytes they are is left to the crate.
#[verifier::external_body]
pub(crate) fn sha256_digest(bytes: &[u8]) -> (digest: Vec<u8>)
    ensures
        digest@ == sha256(bytes@),
        digest@.len() == 32,
{
    Sha256::digest(bytes).to_vec()
}

/// The lower-case hexadecimal digit of a number below sixteen.
pub open spec fn hex_digit(n: int) -> char {
    if n < 10 {
        (48 + n) as char
    } else {
        (87 + n) as char
    }
}

/// Bytes in lower-case hexadecimal: two digits each.
pub open spec fn hex_text(bytes: Seq<u8>) -> Seq<char> {
    Seq::new(
        2 * bytes.len(),
        |i: int|
            if i % 2 == 0 {
                hex_digit((bytes[i / 2] / 16) as int)
            } else {
                hex_digit((bytes[i / 2] % 16) as int)
            },
    )
}

fn hex_char(n: u8) -> (digit: char)
    requires
        n < 16,
    ensures
        digit == hex_digit(n as int),
{
    if n < 10 {
        (48 + n) as char
    } else {
        (87 + n) as char
    }
}

/// Bytes in lower-case hexadecimal.
pub fn hex(bytes: &[u8]) -> (text: String)
    ensures
        text@ == hex_text(bytes@),
{
    let mut text = String::new();
    let mut i: usize = 0;
    while i < bytes.len()
        invariant
            i <= bytes.len(),
            text@ == hex_text(bytes@).take(2 * i),
        decreases bytes.len() - i,
    {
        let byte: u8 = bytes[i];
        text.push(hex_char(byte / 16));
        text.push(hex_char(byte % 16));
        proof {
            let whole = hex_text(bytes@);
            assert(whole[2 * i] == hex_digit((byte / 16) as int)) by {
                assert((2 * i) % 2 == 0 && (2 * i) / 2 == i);
            }
            assert(whole[2 * i + 1] == hex_digit((byte % 16) as int)) by {
                assert((2 * i + 1) % 2 == 1 && (2 * i + 1) / 2 == i);
            }
            assert(text@ =~= whole.take(2 * i + 2));
        }
        i = i + 1;
    }
    assert(hex_text(bytes@).take(2 * i) =~= hex_text(bytes@));
    text
}

/// Whether a character is a lower-case hexadecimal digit.
pub open spec fn is_hex_char(c: char) -> bool {
    '0' <= c <= '9' || 'a' <= c <= 'f'
}

/// Hexadecimal text has two digits for each byte and no other character.
pub proof fn lemma_hex_shape(bytes: Seq<u8>)
    ensures
        hex_text(bytes).len() == 2 * bytes.len(),
        forall|i: int| 0 <= i < hex_text(bytes).len() ==> is_hex_char(#[trigger] hex_text(bytes)[i]),
{
}

proof fn lemma_hex_digit_injective(m: int, n: int)
    requires
        0 <= m < 16,
        0 <= n < 16,
        hex_digit(m) == hex_digit(n),
    ensures
        m == n,
{
    assert(hex_digit(m) as int == if m < 10 {
        48 + m
    } else {
        87 + m
    });
    assert(hex_digit(n) as int == if n < 10 {
        48 + n
    } else {
        87 + n
    });
}

proof fn lemma_hex_at(bytes: Seq<u8>, i: int)
    requires
        0 <= i < bytes.len(),
    ensures
        hex_text(bytes)[2 * i] == hex_digit((bytes[i] / 16) as int),
        hex_text(bytes)[2 * i + 1] == hex_digit((bytes[i] % 16) as int),
{
    assert((2 * i) / 2 == i && (2 * i) % 2 == 0);
    assert((2 * i + 1) / 2 == i && (2 * i + 1) % 2 == 1);
}

/// Different bytes have different hexadecimal texts.
pub proof fn lemma_hex_injective(a: Seq<u8>, b: Seq<u8>)
    requires
        hex_text(a) == hex_text(b),
    ensures
        a == b,
{
    lemma_hex_shape(a);
    lemma_hex_shape(b);
    assert forall|i: int| 0 <= i < a.len() implies a[i] == b[i] by {
        lemma_hex_at(a, i);
        lemma_hex_at(b, i);
        lemma_hex_digit_injective((a[i] / 16) as int, (b[i] / 16) as int);
        lemma_hex_digit_injective((a[i] % 16) as int, (b[i] % 16) as int);
    }
    assert(a =~= b);
}

/// The first digits of the SHA-256 digest of a text.
pub open spec fn digest_name(value: Seq<char>, length: int) -> Seq<char> {
    hex_text(sha256(encode_utf8(value))).take(length)
}

/// The first digits of the SHA-256 digest of a text.
pub fn digest_prefix(value: &str, length: usize) -> (prefix: String)
    requires
        length <= 64,
    ensures
        prefix@ == digest_name(value@, length as int),
        prefix@.len() == length,
        forall|i: int| 0 <= i < length ==> is_hex_char(#[trigger] prefix@[i]),
{
    let digest = sha256_digest(value.as_bytes());
    let text = hex(digest.as_slice());
    proof {
        lemma_hex_shape(digest@);
    }
    let prefix = text.as_str().substring_char(0, length);
    assert(prefix@ =~= text@.take(length as int));
    String::from_str(prefix)
}

} // verus!
