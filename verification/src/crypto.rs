//! The cryptographic primitives, called from the crates that implement them.
//!
//! Each primitive is named by a function without a definition; the wrapper that
//! makes the call says that it computes the named function and states the few
//! facts about it that the protocol layers rest on.

use aes_gcm::aead::{Aead, KeyInit, Payload};
use base64::Engine;
use hmac::Mac;
use rand_core::RngCore;
use rsa::signature::Verifier;
use sha2::Digest;
use vstd::arithmetic::power2::pow2;
use vstd::prelude::*;
use vstd::utf8::encode_utf8;

use crate::schedule::{expanded, HashAlg};

verus! {

/// Longest message and longest additional data that AES-GCM takes: 2^36 bytes.
pub const GCM_MAX: u64 = 0x10_0000_0000;

/// Longest message that ChaCha20-Poly1305 takes: 2^32 - 2 blocks of 64 bytes.
pub const CHACHA_MAX: u64 = 0x3F_FFFF_FF80;

/// Shortest message that ChaCha20-Poly1305 refuses: 2^32 - 1 blocks of 64 bytes.
/// Between the two limits its keystream runs out.
pub const CHACHA_OVER: u64 = 0x3F_FFFF_FFC0;

/// AEAD tag length, the same for every suite.
pub const TAG_LEN: usize = 16;

// ---------------------------------------------------------------------------
// Hashes and MACs
// ---------------------------------------------------------------------------

/// SHA-256 of a message.
pub uninterp spec fn sha256_of(data: Seq<u8>) -> Seq<u8>;

/// SHA-384 of a message.
pub uninterp spec fn sha384_of(data: Seq<u8>) -> Seq<u8>;

/// HMAC-SHA256 of a message under a key.
pub uninterp spec fn hmac_sha256_of(key: Seq<u8>, data: Seq<u8>) -> Seq<u8>;

/// HMAC-SHA384 of a message under a key.
pub uninterp spec fn hmac_sha384_of(key: Seq<u8>, data: Seq<u8>) -> Seq<u8>;

/// HMAC-SHA512 of a message under a key.
pub uninterp spec fn hmac_sha512_of(key: Seq<u8>, data: Seq<u8>) -> Seq<u8>;

/// HKDF-SHA256 (RFC 5869): extract with `salt` from `ikm`, then expand with
/// `info` to `len` bytes.
pub open spec fn hkdf_sha256_of(salt: Seq<u8>, ikm: Seq<u8>, info: Seq<u8>, len: int) -> Seq<u8> {
    expanded(HashAlg::S256, hmac_sha256_of(salt, ikm), info, len)
}

/// `sha2::Sha256::digest`: the 32-byte SHA-256 hash of the data.
#[verifier::external_body]
pub(crate) fn sha256(data: &[u8]) -> (r: [u8; 32])
    ensures
        r@ == sha256_of(data@),
{
    sha2::Sha256::digest(data).into()
}

/// `sha2::Sha384::digest`: the 48-byte SHA-384 hash of the data.
#[verifier::external_body]
pub(crate) fn sha384(data: &[u8]) -> (r: [u8; 48])
    ensures
        r@ == sha384_of(data@),
{
    sha2::Sha384::digest(data).into()
}

/// `hmac::Hmac<Sha256>`: the 32-byte MAC of the data. Every key length is
/// accepted.
#[verifier::external_body]
pub(crate) fn hmac_sha256(key: &[u8], data: &[u8]) -> (r: [u8; 32])
    ensures
        r@ == hmac_sha256_of(key@, data@),
{
    let mut m = <hmac::Hmac<sha2::Sha256> as Mac>::new_from_slice(key).expect("any key length");
    m.update(data);
    m.finalize().into_bytes().into()
}

/// `hmac::Hmac<Sha384>`: the 48-byte MAC of the data. Every key length is
/// accepted.
#[verifier::external_body]
pub(crate) fn hmac_sha384(key: &[u8], data: &[u8]) -> (r: [u8; 48])
    ensures
        r@ == hmac_sha384_of(key@, data@),
{
    let mut m = <hmac::Hmac<sha2::Sha384> as Mac>::new_from_slice(key).expect("any key length");
    m.update(data);
    m.finalize().into_bytes().into()
}

/// `hmac::Hmac<Sha512>`: the 64-byte MAC of the data. Every key length is
/// accepted.
#[verifier::external_body]
pub(crate) fn hmac_sha512(key: &[u8], data: &[u8]) -> (r: [u8; 64])
    ensures
        r@ == hmac_sha512_of(key@, data@),
{
    let mut m = <hmac::Hmac<sha2::Sha512> as Mac>::new_from_slice(key).expect("any key length");
    m.update(data);
    m.finalize().into_bytes().into()
}

/// `hkdf::Hkdf::<Sha256>::new` and `expand`: the extracted key is the HMAC of
/// `ikm` under `salt`, and the output is the first `len` bytes of its expansion
/// with `info`. The expansion is limited to 255 hash lengths.
#[verifier::external_body]
pub(crate) fn hkdf_sha256(salt: &[u8], ikm: &[u8], info: &[u8], len: usize) -> (r: Vec<u8>)
    requires
        len <= 255 * 32,
    ensures
        r@ == hkdf_sha256_of(salt@, ikm@, info@, len as int),
        r@.len() == len,
{
    let mut out = vec![0u8; len];
    hkdf::Hkdf::<sha2::Sha256>::new(Some(salt), ikm).expand(info, &mut out).expect("length");
    out
}

// ---------------------------------------------------------------------------
// AEADs
// ---------------------------------------------------------------------------

/// The bytes of an optional buffer.
pub open spec fn opt_bytes(v: Option<Vec<u8>>) -> Option<Seq<u8>> {
    match v {
        Some(b) => Some(b@),
        None => None,
    }
}

/// AES-128-GCM encryption; nothing when a length is over the limit.
pub uninterp spec fn aes128_gcm_seal_of(
    key: Seq<u8>,
    nonce: Seq<u8>,
    aad: Seq<u8>,
    msg: Seq<u8>,
) -> Option<Seq<u8>>;

/// AES-128-GCM decryption; nothing when the tag does not fit.
pub uninterp spec fn aes128_gcm_open_of(
    key: Seq<u8>,
    nonce: Seq<u8>,
    aad: Seq<u8>,
    sealed: Seq<u8>,
) -> Option<Seq<u8>>;

/// AES-256-GCM encryption; nothing when a length is over the limit.
pub uninterp spec fn aes256_gcm_seal_of(
    key: Seq<u8>,
    nonce: Seq<u8>,
    aad: Seq<u8>,
    msg: Seq<u8>,
) -> Option<Seq<u8>>;

/// AES-256-GCM decryption; nothing when the tag does not fit.
pub uninterp spec fn aes256_gcm_open_of(
    key: Seq<u8>,
    nonce: Seq<u8>,
    aad: Seq<u8>,
    sealed: Seq<u8>,
) -> Option<Seq<u8>>;

/// ChaCha20-Poly1305 encryption; nothing when the message is over the limit.
pub uninterp spec fn chacha_seal_of(
    key: Seq<u8>,
    nonce: Seq<u8>,
    aad: Seq<u8>,
    msg: Seq<u8>,
) -> Option<Seq<u8>>;

/// ChaCha20-Poly1305 decryption; nothing when the tag does not fit.
pub uninterp spec fn chacha_open_of(
    key: Seq<u8>,
    nonce: Seq<u8>,
    aad: Seq<u8>,
    sealed: Seq<u8>,
) -> Option<Seq<u8>>;

/// `aes_gcm::Aes128Gcm::encrypt`: fails exactly when the message or the
/// additional data is over 2^36 bytes; otherwise the result is 16 bytes longer
/// than the message and decrypts to it.
#[verifier::external_body]
pub(crate) fn aes128_gcm_seal(key: &[u8], nonce: &[u8], aad: &[u8], msg: &[u8]) -> (r: Option<
    Vec<u8>,
>)
    requires
        key@.len() == 16,
        nonce@.len() == 12,
    ensures
        opt_bytes(r) == aes128_gcm_seal_of(key@, nonce@, aad@, msg@),
        r is Some == (msg@.len() <= GCM_MAX && aad@.len() <= GCM_MAX),
        r matches Some(c) ==> (c@.len() == msg@.len() + TAG_LEN && aes128_gcm_open_of(
            key@,
            nonce@,
            aad@,
            c@,
        ) == Some(msg@)),
{
    let cipher = aes_gcm::Aes128Gcm::new_from_slice(key).expect("16-byte key");
    cipher.encrypt(nonce.into(), Payload { msg, aad }).ok()
}

/// `aes_gcm::Aes128Gcm::decrypt`: what it opens is 16 bytes shorter than what
/// was sealed.
/// That a changed byte is refused rests on the strength of the tag and is not
/// stated.
#[verifier::external_body]
pub(crate) fn aes128_gcm_open(key: &[u8], nonce: &[u8], aad: &[u8], sealed: &[u8]) -> (r: Option<
    Vec<u8>,
>)
    requires
        key@.len() == 16,
        nonce@.len() == 12,
    ensures
        opt_bytes(r) == aes128_gcm_open_of(key@, nonce@, aad@, sealed@),
        r matches Some(m) ==> m@.len() + TAG_LEN == sealed@.len(),
{
    let cipher = aes_gcm::Aes128Gcm::new_from_slice(key).expect("16-byte key");
    cipher.decrypt(nonce.into(), Payload { msg: sealed, aad }).ok()
}

/// `aes_gcm::Aes256Gcm::encrypt`: fails exactly when the message or the
/// additional data is over 2^36 bytes; otherwise the result is 16 bytes longer
/// than the message and decrypts to it.
#[verifier::external_body]
pub(crate) fn aes256_gcm_seal(key: &[u8], nonce: &[u8], aad: &[u8], msg: &[u8]) -> (r: Option<
    Vec<u8>,
>)
    requires
        key@.len() == 32,
        nonce@.len() == 12,
    ensures
        opt_bytes(r) == aes256_gcm_seal_of(key@, nonce@, aad@, msg@),
        r is Some == (msg@.len() <= GCM_MAX && aad@.len() <= GCM_MAX),
        r matches Some(c) ==> (c@.len() == msg@.len() + TAG_LEN && aes256_gcm_open_of(
            key@,
            nonce@,
            aad@,
            c@,
        ) == Some(msg@)),
{
    let cipher = aes_gcm::Aes256Gcm::new_from_slice(key).expect("32-byte key");
    cipher.encrypt(nonce.into(), Payload { msg, aad }).ok()
}

/// `aes_gcm::Aes256Gcm::decrypt`: what it opens is 16 bytes shorter than what
/// was sealed.
/// That a changed byte is refused rests on the strength of the tag and is not
/// stated.
#[verifier::external_body]
pub(crate) fn aes256_gcm_open(key: &[u8], nonce: &[u8], aad: &[u8], sealed: &[u8]) -> (r: Option<
    Vec<u8>,
>)
    requires
        key@.len() == 32,
        nonce@.len() == 12,
    ensures
        opt_bytes(r) == aes256_gcm_open_of(key@, nonce@, aad@, sealed@),
        r matches Some(m) ==> m@.len() + TAG_LEN == sealed@.len(),
{
    let cipher = aes_gcm::Aes256Gcm::new_from_slice(key).expect("32-byte key");
    cipher.decrypt(nonce.into(), Payload { msg: sealed, aad }).ok()
}

/// Whether ChaCha20-Poly1305 answers for a message of this length.
pub open spec fn chacha_answers(len: int) -> bool {
    len <= CHACHA_MAX || len >= CHACHA_OVER
}

/// `chacha20poly1305::ChaCha20Poly1305::encrypt`: fails exactly when the message
/// is over the limit; otherwise the result is 16 bytes longer than the message
/// and decrypts to it.
#[verifier::external_body]
pub(crate) fn chacha_seal(key: &[u8], nonce: &[u8], aad: &[u8], msg: &[u8]) -> (r: Option<Vec<u8>>)
    requires
        key@.len() == 32,
        nonce@.len() == 12,
        chacha_answers(msg@.len() as int),
    ensures
        opt_bytes(r) == chacha_seal_of(key@, nonce@, aad@, msg@),
        r is Some == (msg@.len() <= CHACHA_MAX),
        r matches Some(c) ==> (c@.len() == msg@.len() + TAG_LEN && chacha_open_of(
            key@,
            nonce@,
            aad@,
            c@,
        ) == Some(msg@)),
{
    let cipher = chacha20poly1305::ChaCha20Poly1305::new_from_slice(key).expect("32-byte key");
    cipher.encrypt(nonce.into(), Payload { msg, aad }).ok()
}

/// `chacha20poly1305::ChaCha20Poly1305::decrypt`: what it opens is 16 bytes
/// shorter than what was sealed.
/// That a changed byte is refused rests on the strength of the tag and is not
/// stated.
#[verifier::external_body]
pub(crate) fn chacha_open(key: &[u8], nonce: &[u8], aad: &[u8], sealed: &[u8]) -> (r: Option<
    Vec<u8>,
>)
    requires
        key@.len() == 32,
        nonce@.len() == 12,
        chacha_answers(sealed@.len() - TAG_LEN),
    ensures
        opt_bytes(r) == chacha_open_of(key@, nonce@, aad@, sealed@),
        r matches Some(m) ==> m@.len() + TAG_LEN == sealed@.len(),
{
    let cipher = chacha20poly1305::ChaCha20Poly1305::new_from_slice(key).expect("32-byte key");
    cipher.decrypt(nonce.into(), Payload { msg: sealed, aad }).ok()
}

// ---------------------------------------------------------------------------
// Key agreement
// ---------------------------------------------------------------------------

/// `x25519_dalek::StaticSecret`: 32 secret bytes, which are wiped from memory
/// when the value is dropped.
#[verifier::external_type_specification]
#[verifier::external_body]
pub struct ExStaticSecret(x25519_dalek::StaticSecret);

/// The bytes that a secret holds, which `x25519_dalek::StaticSecret::to_bytes`
/// returns.
pub uninterp spec fn secret_bytes_of(secret: x25519_dalek::StaticSecret) -> Seq<u8>;

/// The X25519 public key of a secret.
pub uninterp spec fn x25519_public_of(secret: Seq<u8>) -> Seq<u8>;

/// The X25519 shared secret of a secret and a public key.
pub uninterp spec fn x25519_shared_of(secret: Seq<u8>, peer: Seq<u8>) -> Seq<u8>;

/// `x25519_dalek::StaticSecret::from`: a secret that holds the given bytes.
#[verifier::external_body]
pub(crate) fn secret_from(bytes: [u8; 32]) -> (r: x25519_dalek::StaticSecret)
    ensures
        secret_bytes_of(r) == bytes@,
{
    x25519_dalek::StaticSecret::from(bytes)
}

/// `x25519_dalek::StaticSecret::clone`: a second secret that holds the same
/// bytes.
#[verifier::external_body]
pub(crate) fn secret_clone(secret: &x25519_dalek::StaticSecret) -> (r: x25519_dalek::StaticSecret)
    ensures
        secret_bytes_of(r) == secret_bytes_of(*secret),
{
    secret.clone()
}

/// `x25519_dalek::PublicKey::from(&StaticSecret)`: the public key of the
/// secret.
#[verifier::external_body]
pub(crate) fn x25519_public(secret: &x25519_dalek::StaticSecret) -> (r: [u8; 32])
    ensures
        r@ == x25519_public_of(secret_bytes_of(*secret)),
{
    x25519_dalek::PublicKey::from(secret).to_bytes()
}

/// `x25519_dalek::StaticSecret::diffie_hellman`: the shared secret. Both sides
/// of an agreement compute the same one: when the peer's key is the public key
/// of some secret, that secret with our public key gives the same value.
#[verifier::external_body]
pub(crate) fn x25519_shared(secret: &x25519_dalek::StaticSecret, peer: &[u8; 32]) -> (r: [u8; 32])
    ensures
        r@ == x25519_shared_of(secret_bytes_of(*secret), peer@),
        forall|other: Seq<u8>|
            other.len() == 32 && #[trigger] x25519_public_of(other) == peer@ ==> r@
                == x25519_shared_of(other, x25519_public_of(secret_bytes_of(*secret))),
{
    secret.diffie_hellman(&x25519_dalek::PublicKey::from(*peer)).to_bytes()
}

// ---------------------------------------------------------------------------
// RSA signatures
// ---------------------------------------------------------------------------

/// The number that big-endian bytes stand for.
pub open spec fn be_value(s: Seq<u8>) -> nat
    decreases s.len(),
{
    if s.len() == 0 {
        0
    } else {
        be_value(s.drop_last()) * 256 + s.last() as nat
    }
}

/// Law: a byte in front of others counts 256 for each of them, and a byte alone
/// is its own value; so a leading zero changes nothing.
pub proof fn law_be_value(b: u8, rest: Seq<u8>, last: u8)
    ensures
        be_value(Seq::empty()) == 0,
        be_value(seq![b]) == b,
        be_value(rest.push(last)) == 256 * be_value(rest) + last,
        be_value(seq![0u8] + rest) == be_value(rest),
    decreases rest.len(),
{
    assert(seq![b].drop_last() =~= Seq::<u8>::empty());
    assert(be_value(Seq::<u8>::empty()) == 0);
    assert(rest.push(last).drop_last() =~= rest);
    if rest.len() == 0 {
        assert(seq![0u8] + rest =~= seq![0u8]);
        assert(seq![0u8].drop_last() =~= Seq::<u8>::empty());
    } else {
        law_be_value(b, rest.drop_last(), last);
        assert((seq![0u8] + rest).drop_last() =~= seq![0u8] + rest.drop_last());
    }
}

/// Whether a modulus and an exponent make an acceptable RSA public key: both
/// odd, at most 4096 bits of modulus, the exponent from 2 up to 2^33 - 1 and
/// below the modulus.
pub open spec fn rsa_key_ok(n: Seq<u8>, e: Seq<u8>) -> bool {
    &&& be_value(n) < pow2(4096)
    &&& be_value(e) < be_value(n)
    &&& be_value(n) % 2 == 1
    &&& be_value(e) % 2 == 1
    &&& 2 <= be_value(e) < 0x2_0000_0000
}

/// Whether a PSS signature with SHA-256 is valid.
pub uninterp spec fn pss_sha256_ok(n: Seq<u8>, e: Seq<u8>, sig: Seq<u8>, msg: Seq<u8>) -> bool;

/// Whether a PSS signature with SHA-384 is valid.
pub uninterp spec fn pss_sha384_ok(n: Seq<u8>, e: Seq<u8>, sig: Seq<u8>, msg: Seq<u8>) -> bool;

/// Whether a PSS signature with SHA-512 is valid.
pub uninterp spec fn pss_sha512_ok(n: Seq<u8>, e: Seq<u8>, sig: Seq<u8>, msg: Seq<u8>) -> bool;

/// Whether a PKCS#1 v1.5 signature with SHA-256 is valid.
pub uninterp spec fn pkcs1_sha256_ok(n: Seq<u8>, e: Seq<u8>, sig: Seq<u8>, msg: Seq<u8>) -> bool;

/// Whether a PKCS#1 v1.5 signature with SHA-384 is valid.
pub uninterp spec fn pkcs1_sha384_ok(n: Seq<u8>, e: Seq<u8>, sig: Seq<u8>, msg: Seq<u8>) -> bool;

/// Whether a PKCS#1 v1.5 signature with SHA-512 is valid.
pub uninterp spec fn pkcs1_sha512_ok(n: Seq<u8>, e: Seq<u8>, sig: Seq<u8>, msg: Seq<u8>) -> bool;

/// `rsa::RsaPublicKey::new` over two big-endian integers: whether it accepts
/// them as a public key.
#[verifier::external_body]
pub(crate) fn rsa_key_check(n: &[u8], e: &[u8]) -> (r: bool)
    ensures
        r == rsa_key_ok(n@, e@),
{
    let n = rsa::BigUint::from_bytes_be(n);
    rsa::RsaPublicKey::new(n, rsa::BigUint::from_bytes_be(e)).is_ok()
}

/// `verify` of `rsa::pss::VerifyingKey<Sha256>`: whether the signature over the
/// message is valid under the key.
#[verifier::external_body]
pub(crate) fn pss_sha256(n: &[u8], e: &[u8], sig: &[u8], msg: &[u8]) -> (r: bool)
    requires
        rsa_key_ok(n@, e@),
    ensures
        r == pss_sha256_ok(n@, e@, sig@, msg@),
{
    let (n, e) = (rsa::BigUint::from_bytes_be(n), rsa::BigUint::from_bytes_be(e));
    let key = rsa::RsaPublicKey::new(n, e).expect("accepted key");
    let sig = rsa::pss::Signature::try_from(sig).expect("any bytes");
    rsa::pss::VerifyingKey::<sha2::Sha256>::new(key).verify(msg, &sig).is_ok()
}

/// `verify` of `rsa::pss::VerifyingKey<Sha384>`: whether the signature over the
/// message is valid under the key.
#[verifier::external_body]
pub(crate) fn pss_sha384(n: &[u8], e: &[u8], sig: &[u8], msg: &[u8]) -> (r: bool)
    requires
        rsa_key_ok(n@, e@),
    ensures
        r == pss_sha384_ok(n@, e@, sig@, msg@),
{
    let (n, e) = (rsa::BigUint::from_bytes_be(n), rsa::BigUint::from_bytes_be(e));
    let key = rsa::RsaPublicKey::new(n, e).expect("accepted key");
    let sig = rsa::pss::Signature::try_from(sig).expect("any bytes");
    rsa::pss::VerifyingKey::<sha2::Sha384>::new(key).verify(msg, &sig).is_ok()
}

/// `verify` of `rsa::pss::VerifyingKey<Sha512>`: whether the signature over the
/// message is valid under the key.
#[verifier::external_body]
pub(crate) fn pss_sha512(n: &[u8], e: &[u8], sig: &[u8], msg: &[u8]) -> (r: bool)
    requires
        rsa_key_ok(n@, e@),
    ensures
        r == pss_sha512_ok(n@, e@, sig@, msg@),
{
    let (n, e) = (rsa::BigUint::from_bytes_be(n), rsa::BigUint::from_bytes_be(e));
    let key = rsa::RsaPublicKey::new(n, e).expect("accepted key");
    let sig = rsa::pss::Signature::try_from(sig).expect("any bytes");
    rsa::pss::VerifyingKey::<sha2::Sha512>::new(key).verify(msg, &sig).is_ok()
}

/// `verify` of `rsa::pkcs1v15::VerifyingKey<Sha256>`: whether the signature over the
/// message is valid under the key.
#[verifier::external_body]
pub(crate) fn pkcs1_sha256(n: &[u8], e: &[u8], sig: &[u8], msg: &[u8]) -> (r: bool)
    requires
        rsa_key_ok(n@, e@),
    ensures
        r == pkcs1_sha256_ok(n@, e@, sig@, msg@),
{
    let (n, e) = (rsa::BigUint::from_bytes_be(n), rsa::BigUint::from_bytes_be(e));
    let key = rsa::RsaPublicKey::new(n, e).expect("accepted key");
    let sig = rsa::pkcs1v15::Signature::try_from(sig).expect("any bytes");
    rsa::pkcs1v15::VerifyingKey::<sha2::Sha256>::new(key).verify(msg, &sig).is_ok()
}

/// `verify` of `rsa::pkcs1v15::VerifyingKey<Sha384>`: whether the signature over the
/// message is valid under the key.
#[verifier::external_body]
pub(crate) fn pkcs1_sha384(n: &[u8], e: &[u8], sig: &[u8], msg: &[u8]) -> (r: bool)
    requires
        rsa_key_ok(n@, e@),
    ensures
        r == pkcs1_sha384_ok(n@, e@, sig@, msg@),
{
    let (n, e) = (rsa::BigUint::from_bytes_be(n), rsa::BigUint::from_bytes_be(e));
    let key = rsa::RsaPublicKey::new(n, e).expect("accepted key");
    let sig = rsa::pkcs1v15::Signature::try_from(sig).expect("any bytes");
    rsa::pkcs1v15::VerifyingKey::<sha2::Sha384>::new(key).verify(msg, &sig).is_ok()
}

/// `verify` of `rsa::pkcs1v15::VerifyingKey<Sha512>`: whether the signature over the
/// message is valid under the key.
#[verifier::external_body]
pub(crate) fn pkcs1_sha512(n: &[u8], e: &[u8], sig: &[u8], msg: &[u8]) -> (r: bool)
    requires
        rsa_key_ok(n@, e@),
    ensures
        r == pkcs1_sha512_ok(n@, e@, sig@, msg@),
{
    let (n, e) = (rsa::BigUint::from_bytes_be(n), rsa::BigUint::from_bytes_be(e));
    let key = rsa::RsaPublicKey::new(n, e).expect("accepted key");
    let sig = rsa::pkcs1v15::Signature::try_from(sig).expect("any bytes");
    rsa::pkcs1v15::VerifyingKey::<sha2::Sha512>::new(key).verify(msg, &sig).is_ok()
}

// ---------------------------------------------------------------------------
// Text encodings
// ---------------------------------------------------------------------------

/// Standard base64 with padding.
pub uninterp spec fn base64_encode_of(data: Seq<u8>) -> Seq<char>;

/// What standard base64 text stands for; nothing when it is malformed.
pub uninterp spec fn base64_decode_of(text: Seq<u8>) -> Option<Seq<u8>>;

/// What URL-safe base64 text without padding stands for; nothing when it is
/// malformed.
pub uninterp spec fn base64_url_decode_of(text: Seq<u8>) -> Option<Seq<u8>>;

/// `base64::engine::general_purpose::STANDARD.encode`: the text decodes to the
/// data again.
#[verifier::external_body]
pub(crate) fn base64_encode(data: &[u8]) -> (r: String)
    ensures
        r@ == base64_encode_of(data@),
        base64_decode_of(encode_utf8(r@)) == Some(data@),
{
    base64::engine::general_purpose::STANDARD.encode(data)
}

/// `base64::engine::general_purpose::STANDARD.decode`.
#[verifier::external_body]
pub(crate) fn base64_decode(text: &[u8]) -> (r: Option<Vec<u8>>)
    ensures
        opt_bytes(r) == base64_decode_of(text@),
{
    base64::engine::general_purpose::STANDARD.decode(text).ok()
}

/// `base64::engine::general_purpose::URL_SAFE_NO_PAD.decode`.
#[verifier::external_body]
pub(crate) fn base64_url_decode(text: &[u8]) -> (r: Option<Vec<u8>>)
    ensures
        opt_bytes(r) == base64_url_decode_of(text@),
{
    base64::engine::general_purpose::URL_SAFE_NO_PAD.decode(text).ok()
}

/// The value of a hexadecimal digit in either case.
pub open spec fn hex_digit(c: u8) -> Option<int> {
    if 0x30 <= c <= 0x39 {
        Some(c - 0x30)
    } else if 0x41 <= c <= 0x46 {
        Some(c - 0x41 + 10)
    } else if 0x61 <= c <= 0x66 {
        Some(c - 0x61 + 10)
    } else {
        None
    }
}

/// Whether the text is an even number of hexadecimal digits.
pub open spec fn is_hex(text: Seq<u8>) -> bool {
    text.len() % 2 == 0 && forall|i: int|
        0 <= i < text.len() ==> hex_digit(#[trigger] text[i]) is Some
}

/// The bytes that pairs of hexadecimal digits stand for.
pub open spec fn hex_bytes(text: Seq<u8>) -> Seq<u8> {
    Seq::new(
        text.len() / 2,
        |i: int| (hex_digit(text[2 * i])->0 * 16 + hex_digit(text[2 * i + 1])->0) as u8,
    )
}

/// The lower-case hexadecimal digit of a number below 16.
pub open spec fn digit_text(n: int) -> u8 {
    "0123456789abcdef"@[n] as u8
}

/// The upper-case hexadecimal digit of a number below 16.
pub open spec fn upper_digit_text(n: int) -> u8 {
    "0123456789ABCDEF"@[n] as u8
}

/// The hexadecimal text of bytes: two lower-case digits for each, high one
/// first.
pub open spec fn hex_text(bytes: Seq<u8>) -> Seq<u8> {
    Seq::new(
        2 * bytes.len(),
        |i: int|
            if i % 2 == 0 {
                digit_text(bytes[i / 2] as int / 16)
            } else {
                digit_text(bytes[i / 2] as int % 16)
            },
    )
}

/// Law: the sixteen digits have their values, in either case.
pub proof fn law_hex_digits(n: int)
    requires
        0 <= n < 16,
    ensures
        hex_digit(digit_text(n)) == Some(n),
        hex_digit(upper_digit_text(n)) == Some(n),
        digit_text(n) != 0x2d && upper_digit_text(n) != 0x2d,
{
    reveal_strlit("0123456789abcdef");
    reveal_strlit("0123456789ABCDEF");
}

/// Law: a byte that is none of the digits has no value.
pub proof fn law_other_bytes_are_no_digits(c: u8)
    requires
        forall|n: int| 0 <= n < 16 ==> #[trigger] digit_text(n) != c && upper_digit_text(n) != c,
    ensures
        hex_digit(c) is None,
{
    reveal_strlit("0123456789abcdef");
    reveal_strlit("0123456789ABCDEF");
    if 0x30 <= c <= 0x39 {
        assert(digit_text(c - 0x30) == c);
    } else if 0x41 <= c <= 0x46 {
        assert(digit_text(c - 0x41 + 10) != c);
        assert(upper_digit_text(c - 0x41 + 10) == c);
    } else if 0x61 <= c <= 0x66 {
        assert(digit_text(c - 0x61 + 10) == c);
    }
}

/// Law: the hexadecimal text of bytes stands for the bytes, and text of an odd
/// length or with anything but digits stands for none.
pub proof fn law_hex_round_trip(bytes: Seq<u8>, text: Seq<u8>)
    ensures
        is_hex(hex_text(bytes)),
        hex_bytes(hex_text(bytes)) == bytes,
        text.len() % 2 == 1 ==> !is_hex(text),
        (exists|i: int| 0 <= i < text.len() && hex_digit(#[trigger] text[i]) is None) ==> !is_hex(
            text,
        ),
{
    let t = hex_text(bytes);
    assert forall|i: int| 0 <= i < t.len() implies hex_digit(#[trigger] t[i]) is Some by {
        law_hex_digits(bytes[i / 2] as int / 16);
        law_hex_digits(bytes[i / 2] as int % 16);
    }
    assert forall|i: int| 0 <= i < bytes.len() implies hex_bytes(t)[i] == bytes[i] by {
        law_hex_digits(bytes[i] as int / 16);
        law_hex_digits(bytes[i] as int % 16);
        assert(t[2 * i] == digit_text(bytes[i] as int / 16));
        assert(t[2 * i + 1] == digit_text(bytes[i] as int % 16));
    }
    assert(hex_bytes(t) =~= bytes);
}

/// `hex::decode`: the bytes that pairs of digits stand for, exactly when the
/// text is an even number of hexadecimal digits.
#[verifier::external_body]
pub(crate) fn hex_decode(text: &[u8]) -> (r: Option<Vec<u8>>)
    ensures
        r is Some == is_hex(text@),
        r matches Some(v) ==> v@ == hex_bytes(text@),
{
    hex::decode(text).ok()
}

/// `hex::decode_to_slice` into 16 bytes: the bytes that 32 digits stand for,
/// exactly when the text is 32 hexadecimal digits.
#[verifier::external_body]
pub(crate) fn hex_decode_16(text: &[u8]) -> (r: Option<[u8; 16]>)
    ensures
        r is Some == (text@.len() == 32 && is_hex(text@)),
        r matches Some(v) ==> v@ == hex_bytes(text@),
{
    let mut out = [0u8; 16];
    hex::decode_to_slice(text, &mut out).ok().map(|_| out)
}

// ---------------------------------------------------------------------------
// Randomness and time
// ---------------------------------------------------------------------------

/// `x25519_dalek::StaticSecret::random_from_rng` over `rand_core::OsRng`: a
/// fresh secret of 32 bytes. Nothing else is known of them.
#[verifier::external_body]
pub(crate) fn random_secret() -> (r: x25519_dalek::StaticSecret)
    ensures
        secret_bytes_of(r).len() == 32,
{
    x25519_dalek::StaticSecret::random_from_rng(rand_core::OsRng)
}

/// `rand_core::OsRng.next_u64`: a fresh number. Nothing is known of its value.
#[verifier::external_body]
pub(crate) fn random_u64() -> (r: u64) {
    rand_core::OsRng.next_u64()
}

/// `std::time::SystemTime::now`, in whole seconds since the Unix epoch; nothing
/// when the clock stands before it.
#[verifier::external_body]
pub(crate) fn unix_seconds() -> (r: Option<u64>) {
    let now = std::time::SystemTime::now();
    now.duration_since(std::time::UNIX_EPOCH).ok().map(|d| d.as_secs())
}

} // verus!
