//! Cryptographic primitives and text encodings of outside crates.
//!
//! What a primitive computes is named, not spelled out: equal arguments give
//! equal results, and nothing more is assumed but what is said at each.

use aes_gcm::aead::{Aead, Payload};
use aes_gcm::KeyInit;
use base64::Engine;
use hmac::Mac;
use sha2::Digest;
use vstd::prelude::*;

verus! {

/// The bytes of an optional vector.
pub open spec fn opt_bytes(o: Option<Vec<u8>>) -> Option<Seq<u8>> {
    match o {
        Some(v) => Some(v@),
        None => None,
    }
}

/// The SHA-256 digest of a message.
pub uninterp spec fn sha256(data: Seq<u8>) -> Seq<u8>;

/// HMAC-SHA-256 of a message under a key.
pub uninterp spec fn hmac_sha256(key: Seq<u8>, data: Seq<u8>) -> Seq<u8>;

/// The first 32 bytes that HKDF-SHA-256 derives: what is extracted under the
/// salt is the key of the one block that is expanded.
pub open spec fn hkdf_sha256(salt: Seq<u8>, ikm: Seq<u8>, info: Seq<u8>) -> Seq<u8> {
    hmac_sha256(hmac_sha256(salt, ikm), info.push(1))
}

/// The secret that X25519 makes of a private and a public key.
pub uninterp spec fn x25519(private: Seq<u8>, public: Seq<u8>) -> Seq<u8>;

/// What AES-128-GCM seals a message into.
pub uninterp spec fn aes128_gcm_sealed(
    key: Seq<u8>,
    nonce: Seq<u8>,
    msg: Seq<u8>,
    aad: Seq<u8>,
) -> Option<Seq<u8>>;

/// What AES-128-GCM opens a sealed message to.
pub uninterp spec fn aes128_gcm_opened(
    key: Seq<u8>,
    nonce: Seq<u8>,
    msg: Seq<u8>,
    aad: Seq<u8>,
) -> Option<Seq<u8>>;

/// What AES-256-GCM opens a sealed message to.
pub uninterp spec fn aes256_gcm_opened(
    key: Seq<u8>,
    nonce: Seq<u8>,
    msg: Seq<u8>,
    aad: Seq<u8>,
) -> Option<Seq<u8>>;

/// What ChaCha20-Poly1305 opens a sealed message to.
pub uninterp spec fn chacha20_poly1305_opened(
    key: Seq<u8>,
    nonce: Seq<u8>,
    msg: Seq<u8>,
    aad: Seq<u8>,
) -> Option<Seq<u8>>;

/// What a text holds in base64 with the standard alphabet and padding.
pub uninterp spec fn base64_standard(text: Seq<char>) -> Option<Seq<u8>>;

/// What a text holds in base64 with the URL-safe alphabet and no padding.
pub uninterp spec fn base64_url_safe(text: Seq<char>) -> Option<Seq<u8>>;

/// The value of a hexadecimal digit.
pub open spec fn hex_digit(c: char) -> Option<nat> {
    if '0' <= c <= '9' {
        Some((c as nat - '0' as nat) as nat)
    } else if 'a' <= c <= 'f' {
        Some((c as nat - 'a' as nat + 10) as nat)
    } else if 'A' <= c <= 'F' {
        Some((c as nat - 'A' as nat + 10) as nat)
    } else {
        None
    }
}

/// What a text holds in hexadecimal: two digits, of either case, to the
/// byte.
pub open spec fn hex_of(text: Seq<char>) -> Option<Seq<u8>> {
    if text.len() % 2 == 0 && forall|i: int|
        0 <= i < text.len() ==> hex_digit(#[trigger] text[i]) is Some {
        Some(
            Seq::new(
                text.len() / 2,
                |i: int| (16 * hex_digit(text[2 * i])->0 + hex_digit(text[2 * i + 1])->0) as u8,
            ),
        )
    } else {
        None
    }
}

/// `Sha256::digest` of the `sha2` crate: the digest of the whole message, 32
/// bytes.
#[verifier::external_body]
pub(crate) fn sha256_digest(data: &[u8]) -> (d: [u8; 32])
    ensures
        d@ == sha256(data@),
{
    sha2::Sha256::digest(data).into()
}

/// `Hmac<Sha256>` of the `hmac` crate, keyed once and fed the whole message:
/// a tag of 32 bytes. A key of any length is taken.
#[verifier::external_body]
pub(crate) fn hmac_sha256_tag(key: &[u8], data: &[u8]) -> (tag: [u8; 32])
    ensures
        tag@ == hmac_sha256(key@, data@),
{
    let mut mac = <hmac::Hmac<sha2::Sha256> as Mac>::new_from_slice(key).expect("hmac key");
    mac.update(data);
    mac.finalize().into_bytes().into()
}

/// `Hkdf<Sha256>` of the `hkdf` crate: extraction with a salt, then expansion
/// to 32 bytes, which is one block and a length that is never refused.
#[verifier::external_body]
pub(crate) fn hkdf_sha256_key(salt: &[u8], ikm: &[u8], info: &[u8]) -> (key: [u8; 32])
    ensures
        key@ == hkdf_sha256(salt@, ikm@, info@),
{
    let mut key = [0u8; 32];
    hkdf::Hkdf::<sha2::Sha256>::new(Some(salt), ikm).expand(info, &mut key).expect("hkdf length");
    key
}

/// `StaticSecret::diffie_hellman` of the `x25519-dalek` crate, on the bytes
/// of the two keys.
#[verifier::external_body]
pub(crate) fn x25519_dh(server_private: &[u8; 32], client_public: &[u8; 32]) -> (shared: [u8; 32])
    ensures
        shared@ == x25519(server_private@, client_public@),
{
    let secret = x25519_dalek::StaticSecret::from(*server_private);
    let public = x25519_dalek::PublicKey::from(*client_public);
    secret.diffie_hellman(&public).to_bytes()
}

/// `Aes128Gcm` of the `aes-gcm` crate, sealing: a message and associated data
/// of these lengths are never refused, the result is as long as the message
/// and 16 bytes of tag, and opening it under the same key, nonce and
/// associated data gives the message back.
#[verifier::external_body]
pub(crate) fn aes128_gcm_seal(
    key: &[u8; 16],
    nonce: &[u8; 12],
    msg: &[u8],
    aad: &[u8],
) -> (r: Option<Vec<u8>>)
    requires
        msg@.len() <= 0xffff,
        aad@.len() <= 0xffff,
    ensures
        opt_bytes(r) == aes128_gcm_sealed(key@, nonce@, msg@, aad@),
        r is Some,
        r->0@.len() == msg@.len() + 16,
        aes128_gcm_opened(key@, nonce@, r->0@, aad@) == Some(msg@),
{
    let cipher = aes_gcm::Aes128Gcm::new_from_slice(key).ok()?;
    cipher.encrypt(aes_gcm::Nonce::from_slice(nonce), Payload { msg, aad }).ok()
}

/// `Aes128Gcm` of the `aes-gcm` crate, opening: `None` where the message was
/// not sealed under this key, nonce and associated data, and else without the
/// 16 bytes of its tag.
#[verifier::external_body]
pub(crate) fn aes128_gcm_open(
    key: &[u8; 16],
    nonce: &[u8; 12],
    msg: &[u8],
    aad: &[u8],
) -> (r: Option<Vec<u8>>)
    ensures
        opt_bytes(r) == aes128_gcm_opened(key@, nonce@, msg@, aad@),
        r is Some ==> msg@.len() == r->0@.len() + 16,
{
    let cipher = aes_gcm::Aes128Gcm::new_from_slice(key).ok()?;
    cipher.decrypt(aes_gcm::Nonce::from_slice(nonce), Payload { msg, aad }).ok()
}

/// `Aes256Gcm` of the `aes-gcm` crate, opening: `None` where the message was
/// not sealed under this key, nonce and associated data, and else without the
/// 16 bytes of its tag.
#[verifier::external_body]
pub(crate) fn aes256_gcm_open(
    key: &[u8; 32],
    nonce: &[u8; 12],
    msg: &[u8],
    aad: &[u8],
) -> (r: Option<Vec<u8>>)
    ensures
        opt_bytes(r) == aes256_gcm_opened(key@, nonce@, msg@, aad@),
        r is Some ==> msg@.len() == r->0@.len() + 16,
{
    let cipher = aes_gcm::Aes256Gcm::new_from_slice(key).ok()?;
    cipher.decrypt(aes_gcm::Nonce::from_slice(nonce), Payload { msg, aad }).ok()
}

/// `ChaCha20Poly1305` of the `chacha20poly1305` crate, opening: `None` where
/// the message was not sealed under this key, nonce and associated data, and
/// else without the 16 bytes of its tag.
#[verifier::external_body]
pub(crate) fn chacha20_poly1305_open(
    key: &[u8; 32],
    nonce: &[u8; 12],
    msg: &[u8],
    aad: &[u8],
) -> (r: Option<Vec<u8>>)
    ensures
        opt_bytes(r) == chacha20_poly1305_opened(key@, nonce@, msg@, aad@),
        r is Some ==> msg@.len() == r->0@.len() + 16,
{
    let cipher = chacha20poly1305::ChaCha20Poly1305::new_from_slice(key).ok()?;
    cipher.decrypt(chacha20poly1305::Nonce::from_slice(nonce), Payload { msg, aad }).ok()
}

/// `STANDARD.decode` of the `base64` crate: `None` where the text is not in
/// that encoding.
#[verifier::external_body]
pub(crate) fn base64_standard_decode(text: &str) -> (r: Option<Vec<u8>>)
    ensures
        opt_bytes(r) == base64_standard(text@),
{
    base64::engine::general_purpose::STANDARD.decode(text).ok()
}

/// `URL_SAFE_NO_PAD.decode` of the `base64` crate: `None` where the text is
/// not in that encoding.
#[verifier::external_body]
pub(crate) fn base64_url_safe_decode(text: &str) -> (r: Option<Vec<u8>>)
    ensures
        opt_bytes(r) == base64_url_safe(text@),
{
    base64::engine::general_purpose::URL_SAFE_NO_PAD.decode(text).ok()
}

/// `hex::decode`: two hexadecimal digits to the byte, `None` where the text
/// is anything else.
#[verifier::external_body]
pub(crate) fn hex_decode(text: &str) -> (r: Option<Vec<u8>>)
    ensures
        opt_bytes(r) == hex_of(text@),
{
    hex::decode(text).ok()
}

/// Two hexadecimal digits are the byte that they count.
pub proof fn law_hex_digits(a: char, b: char)
    ensures
        '0' <= a <= '9' ==> hex_digit(a) == Some((a as nat - 48) as nat),
        'a' <= a <= 'f' ==> hex_digit(a) == Some((a as nat - 87) as nat),
        'A' <= a <= 'F' ==> hex_digit(a) == Some((a as nat - 55) as nat),
        hex_digit(a) is Some ==> '0' <= a <= '9' || 'a' <= a <= 'f' || 'A' <= a <= 'F',
        hex_of(seq![a, b]) == if hex_digit(a) is Some && hex_digit(b) is Some {
            Some(seq![(16 * hex_digit(a)->0 + hex_digit(b)->0) as u8])
        } else {
            None
        },
{
    let s = seq![a, b];
    assert(s[0] == a && s[1] == b);
    if hex_digit(a) is Some && hex_digit(b) is Some {
        assert(hex_of(s)->0 =~= seq![(16 * hex_digit(a)->0 + hex_digit(b)->0) as u8]);
    }
}

/// Hexadecimal is read two digits at a time: what a text holds is what its
/// first two digits hold and then what the rest holds. Nothing holds no bytes,
/// and a single digit is no text of hexadecimal.
pub proof fn law_hex_goes_by_pairs(a: char, b: char, rest: Seq<char>)
    ensures
        hex_of(Seq::<char>::empty()) == Some(Seq::<u8>::empty()),
        hex_of(seq![a]) is None,
        hex_of(seq![a, b] + rest) == match (hex_of(seq![a, b]), hex_of(rest)) {
            (Some(x), Some(y)) => Some(x + y),
            _ => None,
        },
{
    let s = seq![a, b] + rest;
    law_hex_digits(a, b);
    assert(hex_of(Seq::<char>::empty())->0 =~= Seq::<u8>::empty());
    assert(s[0] == a && s[1] == b);
    assert forall|i: int| 0 <= i < rest.len() implies s[i + 2] == #[trigger] rest[i] by {}
    if hex_of(s) is Some {
        assert forall|i: int| 0 <= i < rest.len() implies hex_digit(#[trigger] rest[i]) is Some by {
            assert(hex_digit(s[i + 2]) is Some);
        }
        let all = hex_of(s)->0;
        let x = hex_of(seq![a, b])->0;
        let y = hex_of(rest)->0;
        assert(all =~= x + y) by {
            assert forall|i: int| 0 <= i < all.len() implies all[i] == (x + y)[i] by {
                if i > 0 {
                    assert(s[2 * i] == rest[2 * (i - 1)]);
                    assert(s[2 * i + 1] == rest[2 * (i - 1) + 1]);
                }
            }
        }
    } else if hex_of(seq![a, b]) is Some && hex_of(rest) is Some {
        assert forall|i: int| 0 <= i < s.len() implies hex_digit(#[trigger] s[i]) is Some by {
            if i >= 2 {
                assert(s[i] == rest[i - 2]);
            }
        }
    }
}

/// A key is derived in two steps, each one a code of what went before under a
/// key: of the secret under the salt, then of the information and a one.
pub proof fn law_key_derivation(salt: Seq<u8>, ikm: Seq<u8>, info: Seq<u8>)
    ensures
        hkdf_sha256(salt, ikm, info) == hmac_sha256(hmac_sha256(salt, ikm), info + seq![1u8]),
{
    assert(info.push(1) =~= info + seq![1u8]);
}

/// Bytes that may be missing are seen as what they are.
pub proof fn law_bytes_are_seen(v: Vec<u8>)
    ensures
        opt_bytes(Some(v)) == Some(v@),
        opt_bytes(None) is None,
{
}

} // verus!
