//! Digests and encodings of bytes.
use base64::Engine;
use ed25519_dalek::pkcs8::DecodePrivateKey;
use sha2::Digest;
use vstd::prelude::*;

verus! {

/// The SHA-256 digest of bytes, as the `sha2` crate computes it.
pub uninterp spec fn sha256_of(data: Seq<u8>) -> Seq<u8>;

/// `sha2::Sha256::digest`: the SHA-256 digest of the bytes, which is 32
/// bytes long and depends on the bytes alone.
#[verifier::external_body]
pub(crate) fn sha256(data: &Vec<u8>) -> (d: Vec<u8>)
    ensures
        d@ == sha256_of(data@),
        d@.len() == 32,
{
    sha2::Sha256::digest(data.as_slice()).to_vec()
}

/// One lower-case hexadecimal digit.
pub open spec fn nibble(d: int) -> char {
    crate::node::hex_digit(d as nat)
}

/// Two lower-case hexadecimal digits for each byte.
pub open spec fn to_hex(b: Seq<u8>) -> Seq<char> {
    Seq::new(
        (2 * b.len()) as nat,
        |i: int|
            if i % 2 == 0 {
                nibble(b[i / 2] as int / 16)
            } else {
                nibble(b[i / 2] as int % 16)
            },
    )
}

/// `hex::encode`: two lower-case hexadecimal digits for each byte, the high
/// half first.
#[verifier::external_body]
pub(crate) fn hex_encode(b: &Vec<u8>) -> (s: String)
    ensures
        s@ == to_hex(b@),
{
    hex::encode(b)
}

/// One digit of base64, which stands for six bits.
pub open spec fn sextet(d: int) -> char {
    "ABCDEFGHIJKLMNOPQRSTUVWXYZabcdefghijklmnopqrstuvwxyz0123456789+/"@[d]
}

/// Standard base64 with padding: four digits for every three bytes, the high
/// bits first; a last group of one or two bytes is filled up with zero bits,
/// and the digits that no byte reaches are `=`.
pub open spec fn base64_of(b: Seq<u8>) -> Seq<char> {
    Seq::new(
        (4 * ((b.len() + 2) / 3)) as nat,
        |i: int|
            {
                let k = 3 * (i / 4);
                let second = if k + 1 < b.len() { b[k + 1] as int } else { 0 };
                let third = if k + 2 < b.len() { b[k + 2] as int } else { 0 };
                if i % 4 == 0 {
                    sextet(b[k] as int / 4)
                } else if i % 4 == 1 {
                    sextet((b[k] as int % 4) * 16 + second / 16)
                } else if k + i % 4 - 1 >= b.len() {
                    '='
                } else if i % 4 == 2 {
                    sextet((second % 16) * 4 + third / 64)
                } else {
                    sextet(third % 64)
                }
            },
    )
}

/// `base64::engine::general_purpose::STANDARD.encode`: the bytes in standard
/// base64 with padding.
#[verifier::external_body]
pub(crate) fn base64_encode(b: &Vec<u8>) -> (s: String)
    ensures
        s@ == base64_of(b@),
{
    base64::engine::general_purpose::STANDARD.encode(b)
}

/// The public key behind a PKCS#8 document, where the `ed25519-dalek` crate
/// reads a signing key from it.
pub uninterp spec fn ed25519_public_of(document: Seq<u8>) -> Option<Seq<u8>>;

/// `ed25519_dalek::SigningKey::from_pkcs8_der` and, of the key it reads,
/// `verifying_key().to_bytes()`: the 32 bytes of the public key, or nothing
/// where the document holds no signing key. Both depend on the document
/// alone.
#[verifier::external_body]
pub(crate) fn ed25519_public(document: &Vec<u8>) -> (r: Option<Vec<u8>>)
    ensures
        match r {
            Some(key) => ed25519_public_of(document@) == Some(key@) && key@.len() == 32,
            None => ed25519_public_of(document@) is None,
        },
{
    let key = ed25519_dalek::SigningKey::from_pkcs8_der(document.as_slice()).ok()?;
    Some(key.verifying_key().to_bytes().to_vec())
}

} // verus!
