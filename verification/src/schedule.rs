//! TLS 1.3 key schedule and record protection (RFC 8446, sections 5 and 7).

use vstd::prelude::*;
use vstd::utf8::encode_utf8;

use crate::bytes::{
    ascii, be16, be64, copy_slice, lemma_be64_injective, low16, low8, push_u16, push_u64, zeros,
};
use crate::crypto::{
    aes128_gcm_open, aes128_gcm_open_of, aes128_gcm_seal, aes128_gcm_seal_of, aes256_gcm_open,
    aes256_gcm_open_of, aes256_gcm_seal, aes256_gcm_seal_of, chacha_answers, chacha_open,
    chacha_open_of, chacha_seal, chacha_seal_of, hmac_sha256, hmac_sha256_of, hmac_sha384,
    hmac_sha384_of, sha256, sha256_of, sha384, sha384_of, CHACHA_MAX, GCM_MAX, TAG_LEN,
};
use crate::tls13::Tls13Error;

verus! {

/// TLS 1.3 record IV length.
pub const IV_LEN: usize = 12;

/// The prefix of every key schedule label: the bytes of `tls13 `.
pub const LABEL_PREFIX: [u8; 6] = [0x74, 0x6c, 0x73, 0x31, 0x33, 0x20];

/// The cipher suites that can be negotiated.
#[derive(Debug, Clone, Copy, PartialEq, Eq, Structural)]
pub enum CipherSuite {
    /// 0x1301
    Aes128GcmSha256,
    /// 0x1302
    Aes256GcmSha384,
    /// 0x1303
    ChaCha20Poly1305Sha256,
}

/// The two hashes TLS 1.3 key schedules use.
#[derive(Debug, Clone, Copy, PartialEq, Eq, Structural)]
pub enum HashAlg {
    S256,
    S384,
}

/// The suite of a code point.
pub open spec fn suite_of(v: int) -> Option<CipherSuite> {
    if v == 0x1301 {
        Some(CipherSuite::Aes128GcmSha256)
    } else if v == 0x1302 {
        Some(CipherSuite::Aes256GcmSha384)
    } else if v == 0x1303 {
        Some(CipherSuite::ChaCha20Poly1305Sha256)
    } else {
        None
    }
}

impl CipherSuite {
    /// The hash of the suite.
    pub open spec fn alg(self) -> HashAlg {
        match self {
            CipherSuite::Aes256GcmSha384 => HashAlg::S384,
            _ => HashAlg::S256,
        }
    }

    /// The AEAD key length of the suite.
    pub open spec fn key_size(self) -> int {
        match self {
            CipherSuite::Aes128GcmSha256 => 16,
            _ => 32,
        }
    }

    /// The suite of a code point.
    pub fn from_u16(v: u16) -> (r: Option<CipherSuite>)
        ensures
            r == suite_of(v as int),
    {
        match v {
            0x1301 => Some(CipherSuite::Aes128GcmSha256),
            0x1302 => Some(CipherSuite::Aes256GcmSha384),
            0x1303 => Some(CipherSuite::ChaCha20Poly1305Sha256),
            _ => None,
        }
    }

    /// The hash of the suite.
    pub fn hash(self) -> (r: HashAlg)
        ensures
            r == self.alg(),
    {
        match self {
            CipherSuite::Aes256GcmSha384 => HashAlg::S384,
            _ => HashAlg::S256,
        }
    }

    /// The AEAD key length of the suite.
    pub fn key_len(self) -> (r: usize)
        ensures
            r == self.key_size(),
    {
        match self {
            CipherSuite::Aes128GcmSha256 => 16,
            _ => 32,
        }
    }
}

impl HashAlg {
    /// The output length of the hash.
    pub open spec fn size(self) -> int {
        match self {
            HashAlg::S256 => 32,
            HashAlg::S384 => 48,
        }
    }

    /// The output length of the hash.
    pub fn len(self) -> (r: usize)
        ensures
            r == self.size(),
    {
        match self {
            HashAlg::S256 => 32,
            HashAlg::S384 => 48,
        }
    }

    /// The hash of the empty string.
    pub fn empty_hash(self) -> (r: Vec<u8>)
        ensures
            r@ == digest_of(self, Seq::empty()),
            r@.len() == self.size(),
    {
        let empty: Vec<u8> = Vec::new();
        assert(empty@ =~= Seq::empty());
        digest(self, &empty)
    }
}

/// The hash of a message.
pub open spec fn digest_of(h: HashAlg, data: Seq<u8>) -> Seq<u8> {
    match h {
        HashAlg::S256 => sha256_of(data),
        HashAlg::S384 => sha384_of(data),
    }
}

/// The MAC of a message.
pub open spec fn mac_of(h: HashAlg, key: Seq<u8>, data: Seq<u8>) -> Seq<u8> {
    match h {
        HashAlg::S256 => hmac_sha256_of(key, data),
        HashAlg::S384 => hmac_sha384_of(key, data),
    }
}

/// The hash of a message.
pub fn digest(h: HashAlg, data: &[u8]) -> (r: Vec<u8>)
    ensures
        r@ == digest_of(h, data@),
        r@.len() == h.size(),
{
    match h {
        HashAlg::S256 => copy_slice(&sha256(data)),
        HashAlg::S384 => copy_slice(&sha384(data)),
    }
}

/// The MAC of a message.
pub fn hmac_hash(h: HashAlg, key: &[u8], data: &[u8]) -> (r: Vec<u8>)
    ensures
        r@ == mac_of(h, key@, data@),
        r@.len() == h.size(),
{
    match h {
        HashAlg::S256 => copy_slice(&hmac_sha256(key, data)),
        HashAlg::S384 => copy_slice(&hmac_sha384(key, data)),
    }
}

/// HKDF-Extract.
pub fn hkdf_extract(h: HashAlg, salt: &[u8], ikm: &[u8]) -> (r: Vec<u8>)
    ensures
        r@ == mac_of(h, salt@, ikm@),
        r@.len() == h.size(),
{
    hmac_hash(h, salt, ikm)
}

// ---------------------------------------------------------------------------
// Expansion
// ---------------------------------------------------------------------------

/// Block number `i` of HKDF-Expand: T(0) is empty, and T(i) is the MAC of
/// T(i - 1), the info and the block number.
pub open spec fn expand_block(h: HashAlg, prk: Seq<u8>, info: Seq<u8>, i: int) -> Seq<u8>
    decreases i,
{
    if i <= 0 {
        Seq::empty()
    } else {
        mac_of(h, prk, expand_block(h, prk, info, i - 1) + info + seq![i as u8])
    }
}

/// Blocks 1 up to `n`, one after the other.
pub open spec fn expand_blocks(h: HashAlg, prk: Seq<u8>, info: Seq<u8>, n: int) -> Seq<u8>
    decreases n,
{
    if n <= 0 {
        Seq::empty()
    } else {
        expand_blocks(h, prk, info, n - 1) + expand_block(h, prk, info, n)
    }
}

/// HKDF-Expand (RFC 5869) to `len` bytes.
pub open spec fn expanded(h: HashAlg, prk: Seq<u8>, info: Seq<u8>, len: int) -> Seq<u8> {
    expand_blocks(h, prk, info, (len + h.size() - 1) / h.size()).take(len)
}

/// HKDF-Expand to `len` bytes. The block counter is one byte.
pub fn hkdf_expand(h: HashAlg, prk: &[u8], info: &[u8], len: usize) -> (r: Vec<u8>)
    requires
        len <= 254 * h.size(),
    ensures
        r@ == expanded(h, prk@, info@, len as int),
        r@.len() == len,
{
    let mut okm: Vec<u8> = Vec::new();
    let mut t: Vec<u8> = Vec::new();
    let mut done: u8 = 0;
    while okm.len() < len
        invariant
            len <= 254 * h.size(),
            okm@.len() == done as int * h.size(),
            done as int * h.size() < len + h.size(),
            okm@ == expand_blocks(h, prk@, info@, done as int),
            t@ == expand_block(h, prk@, info@, done as int),
        decreases len + h.size() - okm@.len(),
    {
        assert(done < 254) by (nonlinear_arith)
            requires
                done as int * h.size() < len,
                len <= 254 * h.size(),
                h.size() > 0,
        ;
        let mut input: Vec<u8> = copy_slice(&t);
        input.extend_from_slice(info);
        input.push(done + 1);
        assert(input@ =~= t@ + info@ + seq![(done + 1) as u8]);
        t = hmac_hash(h, prk, &input);
        okm.extend_from_slice(&t);
        assert((done as int + 1) * h.size() == done as int * h.size() + h.size())
            by (nonlinear_arith);
        done = done + 1;
    }
    proof {
        let n = h.size();
        let d = done as int;
        assert(d == (len + n - 1) / n) by {
            match h {
                HashAlg::S256 => {},
                HashAlg::S384 => {},
            }
        }
    }
    okm.truncate(len);
    assert(okm@ =~= expanded(h, prk@, info@, len as int));
    okm
}

/// The info of HKDF-Expand-Label (RFC 8446, section 7.1).
pub open spec fn label_info(label: Seq<u8>, context: Seq<u8>, len: int) -> Seq<u8> {
    be16(len) + seq![((6 + label.len()) % 256) as u8] + LABEL_PREFIX@ + label + seq![
        (context.len() % 256) as u8,
    ] + context
}

/// HKDF-Expand-Label.
pub open spec fn label_expanded(
    h: HashAlg,
    secret: Seq<u8>,
    label: Seq<char>,
    context: Seq<u8>,
    len: int,
) -> Seq<u8> {
    expanded(h, secret, label_info(encode_utf8(label), context, len), len)
}

/// Derive-Secret over a transcript hash.
pub open spec fn derived(h: HashAlg, secret: Seq<u8>, label: Seq<char>, th: Seq<u8>) -> Seq<u8> {
    label_expanded(h, secret, label, th, h.size())
}

/// HKDF-Expand-Label (RFC 8446, section 7.1).
pub fn hkdf_expand_label(
    h: HashAlg,
    secret: &[u8],
    label: &str,
    context: &[u8],
    len: usize,
) -> (r: Vec<u8>)
    requires
        len <= 254 * h.size(),
    ensures
        r@ == label_expanded(h, secret@, label@, context@, len as int),
        r@.len() == len,
{
    let mut full_label: Vec<u8> = Vec::new();
    full_label.extend_from_slice(&LABEL_PREFIX);
    full_label.extend_from_slice(label.as_bytes());
    let mut info: Vec<u8> = Vec::new();
    push_u16(&mut info, low16(len));
    info.push(low8(full_label.len()));
    info.extend_from_slice(&full_label);
    info.push(low8(context.len()));
    info.extend_from_slice(context);
    assert(info@ =~= label_info(encode_utf8(label@), context@, len as int));
    hkdf_expand(h, secret, &info, len)
}

/// Derive-Secret(secret, label, transcript hash).
pub fn derive_secret(h: HashAlg, secret: &[u8], label: &str, transcript_hash: &[u8]) -> (r: Vec<u8>)
    ensures
        r@ == derived(h, secret@, label@, transcript_hash@),
        r@.len() == h.size(),
{
    hkdf_expand_label(h, secret, label, transcript_hash, h.len())
}

/// The Finished key of a traffic secret.
pub open spec fn finished_key_of(h: HashAlg, secret: Seq<u8>) -> Seq<u8> {
    label_expanded(h, secret, "finished"@, Seq::empty(), h.size())
}

/// The Finished verify data over a transcript hash.
pub open spec fn finished_of(h: HashAlg, secret: Seq<u8>, th: Seq<u8>) -> Seq<u8> {
    mac_of(h, finished_key_of(h, secret), th)
}

/// The Finished key of a traffic secret.
pub fn finished_key(h: HashAlg, secret: &[u8]) -> (r: Vec<u8>)
    ensures
        r@ == finished_key_of(h, secret@),
        r@.len() == h.size(),
{
    let empty: Vec<u8> = Vec::new();
    assert(empty@ =~= Seq::empty());
    hkdf_expand_label(h, secret, "finished", &empty, h.len())
}

// ---------------------------------------------------------------------------
// Record protection
// ---------------------------------------------------------------------------

/// Per-record nonce (RFC 8446, section 5.3): the static IV with the sequence
/// number folded into its last 8 bytes.
pub open spec fn record_nonce_of(iv: Seq<u8>, seq: u64) -> Seq<u8> {
    let base = iv.len() - 8;
    Seq::new(
        iv.len(),
        |i: int|
            if i < base {
                iv[i]
            } else {
                iv[i] ^ be64(seq as int)[i - base]
            },
    )
}

/// Per-record nonce: static IV XOR sequence number.
pub fn record_nonce(iv: &[u8], seq: u64) -> (r: Vec<u8>)
    requires
        iv@.len() >= 8,
    ensures
        r@ == record_nonce_of(iv@, seq),
        r@.len() == iv@.len(),
{
    let mut s: Vec<u8> = Vec::new();
    push_u64(&mut s, seq);
    assert(s@ =~= be64(seq as int));
    let base: usize = iv.len() - 8;
    let mut n: Vec<u8> = Vec::new();
    let mut i: usize = 0;
    while i < iv.len()
        invariant
            i <= iv@.len(),
            base == iv@.len() - 8,
            s@ == be64(seq as int),
            s@.len() == 8,
            n@.len() == i,
            forall|k: int| 0 <= k < i ==> n@[k] == record_nonce_of(iv@, seq)[k],
        decreases iv@.len() - i,
    {
        if i < base {
            n.push(iv[i]);
        } else {
            n.push(iv[i] ^ s[i - base]);
        }
        i += 1;
    }
    assert(n@ =~= record_nonce_of(iv@, seq));
    n
}

/// Law: the nonce of record 0 is the IV itself; every nonce keeps the IV in
/// front of its last 8 bytes; and two records never share a nonce.
pub proof fn law_record_nonces(iv: Seq<u8>, a: u64, b: u64)
    requires
        iv.len() >= 8,
    ensures
        record_nonce_of(iv, 0) == iv,
        record_nonce_of(iv, a).len() == iv.len(),
        record_nonce_of(iv, a).take(iv.len() - 8) == iv.take(iv.len() - 8),
        record_nonce_of(iv, a) == record_nonce_of(iv, b) ==> a == b,
{
    let base = iv.len() - 8;
    let na = record_nonce_of(iv, a);
    let nb = record_nonce_of(iv, b);
    assert(record_nonce_of(iv, 0) =~= iv) by {
        assert forall|i: int| base <= i < iv.len() implies iv[i] ^ be64(0)[i - base] == iv[i] by {
            let x = iv[i];
            assert(x ^ 0u8 == x) by (bit_vector);
            assert(be64(0) =~= zeros(8));
        }
    }
    assert(na.take(base) =~= iv.take(base));
    if na == nb {
        let sa = be64(a as int);
        let sb = be64(b as int);
        assert forall|j: int| 0 <= j < 8 implies sa[j] == sb[j] by {
            let x = iv[base + j];
            let p = sa[j];
            let q = sb[j];
            assert(na[base + j] == x ^ p);
            assert(nb[base + j] == x ^ q);
            assert(x ^ p == x ^ q ==> p == q) by (bit_vector);
        }
        assert(sa =~= sb);
        lemma_be64_injective(a as int, b as int);
    }
}

/// AEAD encryption under a suite.
pub open spec fn seal_of(
    suite: CipherSuite,
    key: Seq<u8>,
    nonce: Seq<u8>,
    aad: Seq<u8>,
    msg: Seq<u8>,
) -> Option<Seq<u8>> {
    match suite {
        CipherSuite::Aes128GcmSha256 => aes128_gcm_seal_of(key, nonce, aad, msg),
        CipherSuite::Aes256GcmSha384 => aes256_gcm_seal_of(key, nonce, aad, msg),
        CipherSuite::ChaCha20Poly1305Sha256 => chacha_seal_of(key, nonce, aad, msg),
    }
}

/// AEAD decryption under a suite.
pub open spec fn open_of(
    suite: CipherSuite,
    key: Seq<u8>,
    nonce: Seq<u8>,
    aad: Seq<u8>,
    sealed: Seq<u8>,
) -> Option<Seq<u8>> {
    match suite {
        CipherSuite::Aes128GcmSha256 => aes128_gcm_open_of(key, nonce, aad, sealed),
        CipherSuite::Aes256GcmSha384 => aes256_gcm_open_of(key, nonce, aad, sealed),
        CipherSuite::ChaCha20Poly1305Sha256 => chacha_open_of(key, nonce, aad, sealed),
    }
}

/// Whether a suite seals a message of this length with this much additional
/// data.
pub open spec fn sealable(suite: CipherSuite, msg_len: int, aad_len: int) -> bool {
    match suite {
        CipherSuite::ChaCha20Poly1305Sha256 => msg_len <= CHACHA_MAX,
        _ => msg_len <= GCM_MAX && aad_len <= GCM_MAX,
    }
}

/// Whether a suite answers for a message of this length at all.
pub open spec fn suite_answers(suite: CipherSuite, msg_len: int) -> bool {
    suite == CipherSuite::ChaCha20Poly1305Sha256 ==> chacha_answers(msg_len)
}

/// One AEAD instance: a key bound to a suite.
pub struct RecordCipher {
    suite: CipherSuite,
    key: Vec<u8>,
}

impl RecordCipher {
    #[verifier::type_invariant]
    spec fn inv(&self) -> bool {
        self.key@.len() == self.suite.key_size()
    }

    /// The suite of the cipher.
    pub closed spec fn suite_view(&self) -> CipherSuite {
        self.suite
    }

    /// The key of the cipher.
    pub closed spec fn key_view(&self) -> Seq<u8> {
        self.key@
    }

    /// Seals a record. What is sealed opens again to the plaintext.
    pub fn seal(&self, nonce: &[u8], plaintext: &[u8], aad: &[u8]) -> (r: Result<
        Vec<u8>,
        Tls13Error,
    >)
        requires
            nonce@.len() == IV_LEN,
            suite_answers(self.suite_view(), plaintext@.len() as int),
        ensures
            match r {
                Ok(c) => {
                    &&& sealable(self.suite_view(), plaintext@.len() as int, aad@.len() as int)
                    &&& Some(c@) == seal_of(
                        self.suite_view(),
                        self.key_view(),
                        nonce@,
                        aad@,
                        plaintext@,
                    )
                    &&& c@.len() == plaintext@.len() + TAG_LEN
                    &&& open_of(self.suite_view(), self.key_view(), nonce@, aad@, c@) == Some(
                        plaintext@,
                    )
                },
                Err(e) => e == Tls13Error::DecryptFailed && !sealable(
                    self.suite_view(),
                    plaintext@.len() as int,
                    aad@.len() as int,
                ),
            },
    {
        proof {
            use_type_invariant(self);
        }
        let sealed = match self.suite {
            CipherSuite::Aes128GcmSha256 => aes128_gcm_seal(&self.key, nonce, aad, plaintext),
            CipherSuite::Aes256GcmSha384 => aes256_gcm_seal(&self.key, nonce, aad, plaintext),
            CipherSuite::ChaCha20Poly1305Sha256 => chacha_seal(&self.key, nonce, aad, plaintext),
        };
        sealed.ok_or(Tls13Error::DecryptFailed)
    }

    /// Opens a record.
    pub fn open(&self, nonce: &[u8], ciphertext: &[u8], aad: &[u8]) -> (r: Result<
        Vec<u8>,
        Tls13Error,
    >)
        requires
            nonce@.len() == IV_LEN,
            suite_answers(self.suite_view(), ciphertext@.len() - TAG_LEN),
        ensures
            match r {
                Ok(m) => open_of(self.suite_view(), self.key_view(), nonce@, aad@, ciphertext@)
                    == Some(m@) && m@.len() + TAG_LEN == ciphertext@.len(),
                Err(e) => e == Tls13Error::DecryptFailed && open_of(
                    self.suite_view(),
                    self.key_view(),
                    nonce@,
                    aad@,
                    ciphertext@,
                ) is None,
            },
    {
        proof {
            use_type_invariant(self);
        }
        let opened = match self.suite {
            CipherSuite::Aes128GcmSha256 => aes128_gcm_open(&self.key, nonce, aad, ciphertext),
            CipherSuite::Aes256GcmSha384 => aes256_gcm_open(&self.key, nonce, aad, ciphertext),
            CipherSuite::ChaCha20Poly1305Sha256 => chacha_open(&self.key, nonce, aad, ciphertext),
        };
        opened.ok_or(Tls13Error::DecryptFailed)
    }
}

/// Binds a key to a suite; a key of another length is refused.
pub fn cipher_from_key(suite: CipherSuite, key: &[u8]) -> (r: Result<RecordCipher, Tls13Error>)
    ensures
        match r {
            Ok(c) => key@.len() == suite.key_size() && c.suite_view() == suite && c.key_view()
                == key@,
            Err(e) => e == Tls13Error::BadCipherSuite && key@.len() != suite.key_size(),
        },
{
    if key.len() != suite.key_len() {
        return Err(Tls13Error::BadCipherSuite);
    }
    Ok(RecordCipher { suite, key: copy_slice(key) })
}

/// The record key of a traffic secret (RFC 8446, section 7.3).
pub open spec fn traffic_key(suite: CipherSuite, secret: Seq<u8>) -> Seq<u8> {
    label_expanded(suite.alg(), secret, "key"@, Seq::empty(), suite.key_size())
}

/// The record IV of a traffic secret (RFC 8446, section 7.3).
pub open spec fn traffic_iv(suite: CipherSuite, secret: Seq<u8>) -> Seq<u8> {
    label_expanded(suite.alg(), secret, "iv"@, Seq::empty(), IV_LEN as int)
}

/// (key, iv) from a traffic secret.
pub fn key_iv_from_secret(suite: CipherSuite, secret: &[u8]) -> (r: (Vec<u8>, Vec<u8>))
    ensures
        r.0@ == traffic_key(suite, secret@),
        r.0@.len() == suite.key_size(),
        r.1@ == traffic_iv(suite, secret@),
        r.1@.len() == IV_LEN,
{
    let h = suite.hash();
    let empty: Vec<u8> = Vec::new();
    assert(empty@ =~= Seq::empty());
    let key = hkdf_expand_label(h, secret, "key", &empty, suite.key_len());
    let iv = hkdf_expand_label(h, secret, "iv", &empty, IV_LEN);
    (key, iv)
}

/// Handshake transcript over the negotiated hash.
pub struct Transcript {
    pub alg: HashAlg,
    /// The handshake messages so far.
    pub messages: Vec<u8>,
}

impl Transcript {
    /// The hash of the messages so far.
    pub open spec fn hash_view(&self) -> Seq<u8> {
        digest_of(self.alg, self.messages@)
    }

    /// An empty transcript over the hash of a suite.
    pub fn new(suite: CipherSuite) -> (r: Transcript)
        ensures
            r.alg == suite.alg(),
            r.messages@ == Seq::<u8>::empty(),
    {
        Transcript { alg: suite.hash(), messages: Vec::new() }
    }

    /// Appends a handshake message.
    pub fn update(&mut self, data: &[u8])
        ensures
            final(self).alg == old(self).alg,
            final(self).messages@ == old(self).messages@ + data@,
    {
        self.messages.extend_from_slice(data);
        assert(self.messages@ =~= old(self).messages@ + data@);
    }

    /// The hash of the messages so far.
    pub fn hash_of(&self) -> (r: Vec<u8>)
        ensures
            r@ == self.hash_view(),
            r@.len() == self.alg.size(),
    {
        digest(self.alg, &self.messages)
    }
}

/// The content type and payload of a decrypted record: the last byte that is
/// not zero, and everything in front of it.
pub open spec fn inner_of(plain: Seq<u8>) -> Option<(u8, Seq<u8>)>
    decreases plain.len(),
{
    if plain.len() == 0 {
        None
    } else if plain.last() != 0 {
        Some((plain.last(), plain.drop_last()))
    } else {
        inner_of(plain.drop_last())
    }
}

/// Strips the trailing content-type byte and zero padding from a decrypted TLS
/// 1.3 inner plaintext. Returns (content type, payload).
pub fn strip_inner_padding(plain: &[u8]) -> (r: Result<(u8, &[u8]), Tls13Error>)
    ensures
        match r {
            Ok((ct, payload)) => inner_of(plain@) == Some((ct, payload@)),
            Err(e) => e == Tls13Error::BadRecord && inner_of(plain@) is None,
        },
{
    let mut end: usize = plain.len();
    assert(plain@.take(end as int) =~= plain@);
    while end > 0 && plain[end - 1] == 0
        invariant
            end <= plain@.len(),
            inner_of(plain@) == inner_of(plain@.take(end as int)),
        decreases end,
    {
        assert(plain@.take(end as int).drop_last() =~= plain@.take(end - 1));
        end -= 1;
    }
    if end == 0 {
        return Err(Tls13Error::BadRecord);
    }
    assert(plain@.take(end as int).drop_last() =~= plain@.subrange(0, end - 1));
    Ok((plain[end - 1], &plain[0..end - 1]))
}

/// Law: an inner plaintext gives back its payload and content type, however
/// many padding bytes follow.
pub proof fn law_inner_round_trip(payload: Seq<u8>, content_type: u8, padding: nat)
    requires
        content_type != 0,
    ensures
        inner_of(payload.push(content_type) + zeros(padding as int)) == Some(
            (content_type, payload),
        ),
    decreases padding,
{
    let s = payload.push(content_type) + zeros(padding as int);
    if padding == 0 {
        assert(s =~= payload.push(content_type));
        assert(s.drop_last() =~= payload);
    } else {
        law_inner_round_trip(payload, content_type, (padding - 1) as nat);
        assert(s.drop_last() =~= payload.push(content_type) + zeros(padding - 1));
    }
}

/// Law: the suites. Each of the three code points stands for its cipher, with
/// its hash and key length, and no other code point stands for any.
pub proof fn law_suites(v: int)
    ensures
        suite_of(0x1301) == Some(CipherSuite::Aes128GcmSha256),
        suite_of(0x1302) == Some(CipherSuite::Aes256GcmSha384),
        suite_of(0x1303) == Some(CipherSuite::ChaCha20Poly1305Sha256),
        v != 0x1301 && v != 0x1302 && v != 0x1303 ==> suite_of(v) is None,
        CipherSuite::Aes128GcmSha256.alg() == HashAlg::S256,
        CipherSuite::Aes256GcmSha384.alg() == HashAlg::S384,
        CipherSuite::ChaCha20Poly1305Sha256.alg() == HashAlg::S256,
        CipherSuite::Aes128GcmSha256.key_size() == 16,
        CipherSuite::Aes256GcmSha384.key_size() == 32,
        CipherSuite::ChaCha20Poly1305Sha256.key_size() == 32,
        HashAlg::S256.size() == 32,
        HashAlg::S384.size() == 48,
{
}

/// Law: the hash, the MAC and the AEAD of a suite are the ones that its name
/// says.
pub proof fn law_suite_primitives(key: Seq<u8>, nonce: Seq<u8>, aad: Seq<u8>, data: Seq<u8>)
    ensures
        digest_of(HashAlg::S256, data) == sha256_of(data),
        digest_of(HashAlg::S384, data) == sha384_of(data),
        mac_of(HashAlg::S256, key, data) == hmac_sha256_of(key, data),
        mac_of(HashAlg::S384, key, data) == hmac_sha384_of(key, data),
        seal_of(CipherSuite::Aes128GcmSha256, key, nonce, aad, data) == aes128_gcm_seal_of(
            key,
            nonce,
            aad,
            data,
        ),
        seal_of(CipherSuite::Aes256GcmSha384, key, nonce, aad, data) == aes256_gcm_seal_of(
            key,
            nonce,
            aad,
            data,
        ),
        seal_of(CipherSuite::ChaCha20Poly1305Sha256, key, nonce, aad, data) == chacha_seal_of(
            key,
            nonce,
            aad,
            data,
        ),
        open_of(CipherSuite::Aes128GcmSha256, key, nonce, aad, data) == aes128_gcm_open_of(
            key,
            nonce,
            aad,
            data,
        ),
        open_of(CipherSuite::Aes256GcmSha384, key, nonce, aad, data) == aes256_gcm_open_of(
            key,
            nonce,
            aad,
            data,
        ),
        open_of(CipherSuite::ChaCha20Poly1305Sha256, key, nonce, aad, data) == chacha_open_of(
            key,
            nonce,
            aad,
            data,
        ),
{
}

/// Law: every record that TLS can frame is sealed, whatever the suite.
pub proof fn law_records_are_sealable(suite: CipherSuite, len: int)
    requires
        0 <= len <= 0x1_0000,
    ensures
        sealable(suite, len, 5),
        suite_answers(suite, len),
{
}

/// Whether blocks are chained as HKDF-Expand chains them (RFC 5869, section
/// 2.3): the first is the MAC of the info and the byte 1, and each later one the
/// MAC of the block in front of it, the info and its own number.
pub open spec fn chained_blocks(
    h: HashAlg,
    prk: Seq<u8>,
    info: Seq<u8>,
    blocks: Seq<Seq<u8>>,
) -> bool {
    &&& blocks.len() <= 255
    &&& blocks.len() > 0 ==> blocks[0] == mac_of(h, prk, info + seq![1u8])
    &&& forall|i: int|
        0 < i < blocks.len() ==> #[trigger] blocks[i] == mac_of(
            h,
            prk,
            blocks[i - 1] + info + seq![(i + 1) as u8],
        )
}

/// Law: HKDF-Expand gives the first bytes of its chained blocks, of as many as
/// are needed.
pub proof fn law_expansion_chains_blocks(
    h: HashAlg,
    prk: Seq<u8>,
    info: Seq<u8>,
    blocks: Seq<Seq<u8>>,
    len: int,
)
    requires
        chained_blocks(h, prk, info, blocks),
        h == HashAlg::S256 ==> 32 * (blocks.len() - 1) < len <= 32 * blocks.len(),
        h == HashAlg::S384 ==> 48 * (blocks.len() - 1) < len <= 48 * blocks.len(),
    ensures
        expanded(h, prk, info, len) == blocks.flatten().take(len),
{
    let n = blocks.len() as int;
    assert(blocks.take(n) =~= blocks);
    lemma_chained(h, prk, info, blocks, n);
    blocks.lemma_flatten_and_flatten_alt_are_equivalent();
    match h {
        HashAlg::S256 => {
            assert((len + 31) / 32 == n);
        },
        HashAlg::S384 => {
            assert((len + 47) / 48 == n);
        },
    }
}

proof fn lemma_chained(h: HashAlg, prk: Seq<u8>, info: Seq<u8>, blocks: Seq<Seq<u8>>, n: int)
    requires
        chained_blocks(h, prk, info, blocks),
        0 <= n <= blocks.len(),
    ensures
        expand_blocks(h, prk, info, n) == blocks.take(n).flatten_alt(),
        n > 0 ==> expand_block(h, prk, info, n) == blocks[n - 1],
    decreases n,
{
    if n > 0 {
        lemma_chained(h, prk, info, blocks, n - 1);
        assert(blocks.take(n).drop_last() =~= blocks.take(n - 1));
        assert(blocks.take(n).last() == blocks[n - 1]);
        if n == 1 {
            assert(Seq::<u8>::empty() + info =~= info);
            assert(expand_block(h, prk, info, 0) =~= Seq::<u8>::empty());
        }
    }
}

/// Law: HKDF-Expand-Label expands with the output length in two bytes, the label
/// behind `tls13 ` with its length in one byte, and the context with its length
/// in one byte (RFC 8446, section 7.1).
pub proof fn law_label_layout(
    h: HashAlg,
    secret: Seq<u8>,
    label: Seq<char>,
    context: Seq<u8>,
    len: int,
)
    requires
        encode_utf8(label).len() < 250,
        context.len() < 256,
        0 <= len < 0x1_0000,
    ensures
        label_expanded(h, secret, label, context, len) == expanded(
            h,
            secret,
            seq![(len / 256) as u8, (len % 256) as u8, (6 + encode_utf8(label).len()) as u8]
                + ascii("tls13 "@) + encode_utf8(label) + seq![context.len() as u8] + context,
            len,
        ),
{
    reveal_strlit("tls13 ");
    assert(LABEL_PREFIX@ =~= ascii("tls13 "@));
    assert(label_info(encode_utf8(label), context, len) =~= seq![
        (len / 256) as u8,
        (len % 256) as u8,
        (6 + encode_utf8(label).len()) as u8,
    ] + ascii("tls13 "@) + encode_utf8(label) + seq![context.len() as u8] + context);
}

/// Law: a derived secret is as long as the hash, over the label and the
/// transcript hash; the Finished key, the record key and the record IV are
/// expanded under the labels `finished`, `key` and `iv` with no context, to the
/// lengths of the hash, the cipher key and 12 bytes; Finished data is the MAC of
/// the transcript hash under the Finished key.
pub proof fn law_traffic_derivations(
    suite: CipherSuite,
    secret: Seq<u8>,
    label: Seq<char>,
    th: Seq<u8>,
)
    ensures
        ({
            let h = suite.alg();
            let size: int = if suite == CipherSuite::Aes256GcmSha384 {
                48
            } else {
                32
            };
            let key_len: int = if suite == CipherSuite::Aes128GcmSha256 {
                16
            } else {
                32
            };
            let none = Seq::<u8>::empty();
            &&& derived(h, secret, label, th) == label_expanded(h, secret, label, th, size)
            &&& finished_key_of(h, secret) == label_expanded(h, secret, "finished"@, none, size)
            &&& finished_of(h, secret, th) == mac_of(
                h,
                label_expanded(h, secret, "finished"@, none, size),
                th,
            )
            &&& traffic_key(suite, secret) == label_expanded(h, secret, "key"@, none, key_len)
            &&& traffic_iv(suite, secret) == label_expanded(h, secret, "iv"@, none, 12)
        }),
{
}

/// Law: the nonce of a record is the IV with the eight bytes of the sequence,
/// high byte first, folded into its last eight bytes by exclusive or.
pub proof fn law_record_nonce_bytes(iv: Seq<u8>, seq: u64, i: int)
    requires
        iv.len() == 12,
        0 <= i < 12,
    ensures
        record_nonce_of(iv, seq).len() == 12,
        i < 4 ==> record_nonce_of(iv, seq)[i] == iv[i],
        i >= 4 ==> record_nonce_of(iv, seq)[i] == iv[i] ^ be64(seq as int)[i - 4],
{
}

/// Law: a decrypted record that is not all zero ends with its content type and
/// zeros: the content type is not zero, and payload, content type and padding
/// make up the plaintext.
pub proof fn law_inner_is_a_split(plain: Seq<u8>)
    ensures
        match inner_of(plain) {
            Some((content_type, payload)) => content_type != 0 && payload.len() < plain.len()
                && plain == payload + seq![content_type] + Seq::new(
                (plain.len() - payload.len() - 1) as nat,
                |i: int| 0u8,
            ),
            None => plain == Seq::new(plain.len(), |i: int| 0u8),
        },
    decreases plain.len(),
{
    if plain.len() == 0 {
        assert(plain =~= Seq::new(plain.len(), |i: int| 0u8));
    } else if plain.last() != 0 {
        assert(plain =~= plain.drop_last() + seq![plain.last()] + Seq::new(0, |i: int| 0u8));
    } else {
        let head = plain.drop_last();
        law_inner_is_a_split(head);
        match inner_of(head) {
            Some((content_type, payload)) => {
                assert(plain =~= head.push(0));
                assert(plain =~= payload + seq![content_type] + Seq::new(
                    (plain.len() - payload.len() - 1) as nat,
                    |i: int| 0u8,
                ));
            },
            None => {
                assert(plain =~= head.push(0));
                assert(plain =~= Seq::new(plain.len(), |i: int| 0u8));
            },
        }
    }
}

} // verus!
