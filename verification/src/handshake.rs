//! REALITY handshake state machine.
//!
//! 1. The client hello is a real TLS 1.3 ClientHello record whose `key_share`
//!    carries an ephemeral X25519 key; the AuthKey is HKDF-SHA256 over
//!    X25519(ephemeral, server static), salted by `random[..20]`.
//! 2. The legacy session id carries an AES-256-GCM seal of the client version,
//!    the unix time and the short id, keyed by AuthKey.
//! 3. The server answers with a temporary trusted certificate, a fresh X25519
//!    key share and a sealed confirmation. The client verifies the certificate,
//!    derives forward-secret record keys bound to the session, and fixes them
//!    once the confirmation opens.
//!
//! No secret is ever formatted into an error string.

use vstd::prelude::*;
use x25519_dalek::StaticSecret;

use crate::bytes::{
    all_zero, array12, array32, ascii, be32, be64, copy_range, lemma_be64_injective, push_u64, zeros,
};
use crate::crypto::{
    aes256_gcm_open, aes256_gcm_open_of, aes256_gcm_seal, aes256_gcm_seal_of, base64_decode,
    base64_decode_of, base64_url_decode, base64_url_decode_of, hex_bytes, hex_decode, hkdf_sha256,
    hkdf_sha256_of, is_hex, opt_bytes, random_secret, secret_bytes_of, secret_clone, secret_from,
    sha256, sha256_of, unix_seconds, x25519_public, x25519_public_of, x25519_shared,
    x25519_shared_of, GCM_MAX, TAG_LEN,
};
use crate::reality;
use crate::tls;
use vstd::utf8::encode_utf8;

verus! {

/// HKDF salt: the bytes of `shadevpn-reality-hkdf-salt-v1`.
pub const HKDF_SALT: [u8; 29] = [
    0x73, 0x68, 0x61, 0x64, 0x65, 0x76, 0x70, 0x6e, 0x2d, 0x72, 0x65, 0x61, 0x6c, 0x69, 0x74, 0x79,
    0x2d, 0x68, 0x6b, 0x64, 0x66, 0x2d, 0x73, 0x61, 0x6c, 0x74, 0x2d, 0x76, 0x31,
];

/// HKDF info of the record keys: the bytes of `shadevpn-record-keys-v1`.
pub const KEY_INFO: [u8; 23] = [
    0x73, 0x68, 0x61, 0x64, 0x65, 0x76, 0x70, 0x6e, 0x2d, 0x72, 0x65, 0x63, 0x6f, 0x72, 0x64, 0x2d,
    0x6b, 0x65, 0x79, 0x73, 0x2d, 0x76, 0x31,
];

/// HKDF info of the hello random: the bytes of `shadevpn-hello-random-v1`.
pub const RANDOM_INFO: [u8; 24] = [
    0x73, 0x68, 0x61, 0x64, 0x65, 0x76, 0x70, 0x6e, 0x2d, 0x68, 0x65, 0x6c, 0x6c, 0x6f, 0x2d, 0x72,
    0x61, 0x6e, 0x64, 0x6f, 0x6d, 0x2d, 0x76, 0x31,
];

/// Nonce domain of client records: the bytes of `shadevpn-nonce-client-v1`.
pub const NONCE_DOMAIN_CLIENT: [u8; 24] = [
    0x73, 0x68, 0x61, 0x64, 0x65, 0x76, 0x70, 0x6e, 0x2d, 0x6e, 0x6f, 0x6e, 0x63, 0x65, 0x2d, 0x63,
    0x6c, 0x69, 0x65, 0x6e, 0x74, 0x2d, 0x76, 0x31,
];

/// Nonce domain of server records: the bytes of `shadevpn-nonce-server-v1`.
pub const NONCE_DOMAIN_SERVER: [u8; 24] = [
    0x73, 0x68, 0x61, 0x64, 0x65, 0x76, 0x70, 0x6e, 0x2d, 0x6e, 0x6f, 0x6e, 0x63, 0x65, 0x2d, 0x73,
    0x65, 0x72, 0x76, 0x65, 0x72, 0x2d, 0x76, 0x31,
];

/// Nonce purpose of the server response confirmation: the bytes of `shadevpn-purpose-response-v1`.
pub const NONCE_PURPOSE_RESPONSE: [u8; 28] = [
    0x73, 0x68, 0x61, 0x64, 0x65, 0x76, 0x70, 0x6e, 0x2d, 0x70, 0x75, 0x72, 0x70, 0x6f, 0x73, 0x65,
    0x2d, 0x72, 0x65, 0x73, 0x70, 0x6f, 0x6e, 0x73, 0x65, 0x2d, 0x76, 0x31,
];

/// Nonce purpose of data records: the bytes of `shadevpn-purpose-data-v1`.
pub const NONCE_PURPOSE_DATA: [u8; 24] = [
    0x73, 0x68, 0x61, 0x64, 0x65, 0x76, 0x70, 0x6e, 0x2d, 0x70, 0x75, 0x72, 0x70, 0x6f, 0x73, 0x65,
    0x2d, 0x64, 0x61, 0x74, 0x61, 0x2d, 0x76, 0x31,
];

/// Length of an AEAD nonce.
pub const NONCE_LEN: usize = 12;

/// Client version bytes reported in the sealed session id: `SV` and the
/// protocol revision.
pub const CLIENT_VERSION: [u8; 3] = [0x53, 0x56, 0x01];

/// Length of the server key share in the response.
pub const SERVER_SHARE_LEN: usize = 32;

/// Shortest server response: a 96-byte temporary certificate, a 32-byte server
/// share and the tag of a sealed confirmation.
pub const SERVER_RESPONSE_MIN: usize = 144;

/// Offset of the sealed confirmation in the server response.
pub const CONFIRMATION_OFFSET: usize = 128;

/// Structured, secret-free handshake failure reasons.
#[derive(Debug, Clone, Copy, PartialEq, Eq, Structural)]
pub enum HandshakeError {
    BadServerKey,
    BadShortId,
    SessionAuthRejected,
    SealFailed,
    EphemeralKeyFailed,
}

impl HandshakeError {
    /// The text of each error.
    pub open spec fn text(self) -> Seq<char> {
        match self {
            HandshakeError::BadServerKey =>
                "server Reality public key is not a valid Curve25519 point"@,
            HandshakeError::BadShortId => "short ID must be 1-8 bytes"@,
            HandshakeError::SessionAuthRejected => "session authentication rejected"@,
            HandshakeError::SealFailed => "AEAD seal failed"@,
            HandshakeError::EphemeralKeyFailed => "ephemeral key generation failed"@,
        }
    }

    /// A fixed description that reveals no key material.
    pub fn reason(&self) -> (r: &'static str)
        ensures
            r@ == self.text(),
    {
        match self {
            HandshakeError::BadServerKey =>
                "server Reality public key is not a valid Curve25519 point",
            HandshakeError::BadShortId => "short ID must be 1-8 bytes",
            HandshakeError::SessionAuthRejected => "session authentication rejected",
            HandshakeError::SealFailed => "AEAD seal failed",
            HandshakeError::EphemeralKeyFailed => "ephemeral key generation failed",
        }
    }
}

/// Server-side REALITY parameters needed for the client handshake. Only
/// validation material is retained.
#[derive(Debug, Clone)]
pub struct HandshakeParams {
    pub server_address: String,
    pub server_port: u16,
    pub sni: String,
    pub server_public_key: [u8; 32],
    pub short_id: Vec<u8>,
    /// Browser TLS fingerprint to mimic; reserved for the on-device TLS
    /// camouflage layer.
    pub fingerprint: Option<String>,
}

/// Which side produced a record. Direction and sequence together pick the nonce
/// domain, so a client record and a server record at the same sequence never
/// share one.
#[derive(Debug, Clone, Copy, PartialEq, Eq, Structural)]
pub enum Direction {
    Client,
    Server,
}

/// Record keys, fixed once the server response is authenticated.
struct RecordKeys {
    send: [u8; 32],
    recv: [u8; 32],
}

/// Client-side handshake state.
pub struct HandshakeState {
    /// Kept for the post-handshake key agreement; never leaves this struct, and
    /// is wiped when it is dropped.
    ephemeral: StaticSecret,
    /// REALITY AuthKey for this session.
    auth_key: [u8; 32],
    /// The wire hello with the sealed session id in place.
    wire_hello: Vec<u8>,
    /// The sealed session id; nonces bind to it so records cannot be replayed
    /// across sessions.
    sealed_session_id: [u8; 32],
    /// Record keys, fixed only after the server response authenticates.
    record_keys: Option<RecordKeys>,
}

/// The mathematical content of a [`HandshakeState`].
#[verifier::ext_equal]
pub struct HandshakeView {
    pub ephemeral: Seq<u8>,
    pub auth_key: Seq<u8>,
    pub hello: Seq<u8>,
    pub session_id: Seq<u8>,
    /// The send key and the receive key.
    pub keys: Option<(Seq<u8>, Seq<u8>)>,
}

impl View for HandshakeState {
    type V = HandshakeView;

    closed spec fn view(&self) -> HandshakeView {
        HandshakeView {
            ephemeral: secret_bytes_of(self.ephemeral),
            auth_key: self.auth_key@,
            hello: self.wire_hello@,
            session_id: self.sealed_session_id@,
            keys: match self.record_keys {
                Some(k) => Some((k.send@, k.recv@)),
                None => None,
            },
        }
    }
}

// ---------------------------------------------------------------------------
// Nonces
// ---------------------------------------------------------------------------

/// The nonce domain of a direction.
pub open spec fn nonce_domain(direction: Direction) -> Seq<u8> {
    match direction {
        Direction::Client => NONCE_DOMAIN_CLIENT@,
        Direction::Server => NONCE_DOMAIN_SERVER@,
    }
}

/// What is hashed into a nonce.
pub open spec fn nonce_input(
    session_id: Seq<u8>,
    seq: u64,
    direction: Direction,
    purpose: Seq<u8>,
) -> Seq<u8> {
    nonce_domain(direction) + purpose + session_id + be64(seq as int)
}

/// The nonce of a record: the first 12 bytes of the hash.
pub open spec fn nonce_of(
    session_id: Seq<u8>,
    seq: u64,
    direction: Direction,
    purpose: Seq<u8>,
) -> Seq<u8> {
    sha256_of(nonce_input(session_id, seq, direction, purpose)).take(NONCE_LEN as int)
}

/// Law: no two records share what is hashed into their nonces. Records that
/// differ in direction, in purpose, in sequence or in session hash different
/// inputs.
pub proof fn law_nonce_inputs_distinct(
    session_a: Seq<u8>,
    seq_a: u64,
    direction_a: Direction,
    purpose_a: Seq<u8>,
    session_b: Seq<u8>,
    seq_b: u64,
    direction_b: Direction,
    purpose_b: Seq<u8>,
)
    requires
        session_a.len() == 32,
        session_b.len() == 32,
        purpose_a == NONCE_PURPOSE_RESPONSE@ || purpose_a == NONCE_PURPOSE_DATA@,
        purpose_b == NONCE_PURPOSE_RESPONSE@ || purpose_b == NONCE_PURPOSE_DATA@,
        nonce_input(session_a, seq_a, direction_a, purpose_a) == nonce_input(
            session_b,
            seq_b,
            direction_b,
            purpose_b,
        ),
    ensures
        session_a == session_b,
        seq_a == seq_b,
        direction_a == direction_b,
        purpose_a == purpose_b,
{
    let a = nonce_input(session_a, seq_a, direction_a, purpose_a);
    let b = nonce_input(session_b, seq_b, direction_b, purpose_b);
    let n = purpose_a.len() as int;
    assert(purpose_a.len() == purpose_b.len());
    assert(a.take(24) =~= nonce_domain(direction_a));
    assert(b.take(24) =~= nonce_domain(direction_b));
    assert(NONCE_DOMAIN_CLIENT@[15] != NONCE_DOMAIN_SERVER@[15]);
    assert(a.subrange(24 + n, 56 + n) =~= session_a);
    assert(b.subrange(24 + n, 56 + n) =~= session_b);
    assert(a.skip(56 + n) =~= be64(seq_a as int));
    assert(b.skip(56 + n) =~= be64(seq_b as int));
    lemma_be64_injective(seq_a as int, seq_b as int);
}

/// Law: the domains, purposes, salts and infos are the bytes of fixed texts.
pub proof fn law_protocol_texts()
    ensures
        HKDF_SALT@ == ascii("shadevpn-reality-hkdf-salt-v1"@),
        KEY_INFO@ == ascii("shadevpn-record-keys-v1"@),
        RANDOM_INFO@ == ascii("shadevpn-hello-random-v1"@),
        NONCE_DOMAIN_CLIENT@ == ascii("shadevpn-nonce-client-v1"@),
        NONCE_DOMAIN_SERVER@ == ascii("shadevpn-nonce-server-v1"@),
        NONCE_PURPOSE_RESPONSE@ == ascii("shadevpn-purpose-response-v1"@),
        NONCE_PURPOSE_DATA@ == ascii("shadevpn-purpose-data-v1"@),
{
    reveal_strlit("shadevpn-reality-hkdf-salt-v1");
    reveal_strlit("shadevpn-record-keys-v1");
    reveal_strlit("shadevpn-hello-random-v1");
    reveal_strlit("shadevpn-nonce-client-v1");
    reveal_strlit("shadevpn-nonce-server-v1");
    reveal_strlit("shadevpn-purpose-response-v1");
    reveal_strlit("shadevpn-purpose-data-v1");
    assert(HKDF_SALT@ =~= ascii("shadevpn-reality-hkdf-salt-v1"@));
    assert(KEY_INFO@ =~= ascii("shadevpn-record-keys-v1"@));
    assert(RANDOM_INFO@ =~= ascii("shadevpn-hello-random-v1"@));
    assert(NONCE_DOMAIN_CLIENT@ =~= ascii("shadevpn-nonce-client-v1"@));
    assert(NONCE_DOMAIN_SERVER@ =~= ascii("shadevpn-nonce-server-v1"@));
    assert(NONCE_PURPOSE_RESPONSE@ =~= ascii("shadevpn-purpose-response-v1"@));
    assert(NONCE_PURPOSE_DATA@ =~= ascii("shadevpn-purpose-data-v1"@));
}

/// Law: the nonce of a record is the first 12 bytes of the SHA-256 of the
/// direction's domain, the purpose, the session id and all eight bytes of the
/// record's own sequence, high byte first.
pub proof fn law_nonce_hashes_whole_sequence(session_id: Seq<u8>, seq: u64, purpose: Seq<u8>)
    ensures
        nonce_of(session_id, seq, Direction::Client, purpose) == sha256_of(
            ascii("shadevpn-nonce-client-v1"@) + purpose + session_id + be64(seq as int),
        ).take(12),
        nonce_of(session_id, seq, Direction::Server, purpose) == sha256_of(
            ascii("shadevpn-nonce-server-v1"@) + purpose + session_id + be64(seq as int),
        ).take(12),
{
    law_protocol_texts();
}

/// Law: two data records of one session and direction with different sequences
/// are sealed under hashes of different strings.
pub proof fn law_sequences_have_their_own_nonces(
    session_id: Seq<u8>,
    a: u64,
    b: u64,
    direction: Direction,
    purpose: Seq<u8>,
)
    requires
        a != b,
    ensures
        ({
            let domain = match direction {
                Direction::Client => NONCE_DOMAIN_CLIENT@,
                Direction::Server => NONCE_DOMAIN_SERVER@,
            };
            let hashed_a = domain + purpose + session_id + be64(a as int);
            let hashed_b = domain + purpose + session_id + be64(b as int);
            &&& nonce_of(session_id, a, direction, purpose) == sha256_of(hashed_a).take(12)
            &&& nonce_of(session_id, b, direction, purpose) == sha256_of(hashed_b).take(12)
            &&& hashed_a != hashed_b
        }),
{
    let head = nonce_domain(direction) + purpose + session_id;
    let hashed_a = head + be64(a as int);
    let hashed_b = head + be64(b as int);
    let n = head.len() as int;
    assert(hashed_a.skip(n) =~= be64(a as int));
    assert(hashed_b.skip(n) =~= be64(b as int));
    if be64(a as int) == be64(b as int) {
        lemma_be64_injective(a as int, b as int);
    }
}

/// Deterministic nonce from the session id, direction, purpose and record
/// sequence.
pub fn derive_nonce(
    session_id: &[u8; 32],
    seq: u64,
    direction: Direction,
    purpose: &[u8],
) -> (r: [u8; 12])
    ensures
        r@ == nonce_of(session_id@, seq, direction, purpose@),
        r@ == sha256_of(
            (match direction {
                Direction::Client => NONCE_DOMAIN_CLIENT@,
                Direction::Server => NONCE_DOMAIN_SERVER@,
            }) + purpose@ + session_id@ + be64(seq as int),
        ).take(12),
{
    let mut data: Vec<u8> = Vec::new();
    match direction {
        Direction::Client => data.extend_from_slice(&NONCE_DOMAIN_CLIENT),
        Direction::Server => data.extend_from_slice(&NONCE_DOMAIN_SERVER),
    }
    data.extend_from_slice(purpose);
    data.extend_from_slice(session_id);
    push_u64(&mut data, seq);
    assert(data@ =~= nonce_input(session_id@, seq, direction, purpose@));
    let hash = sha256(&data);
    let head = copy_range(&hash, 0, NONCE_LEN);
    assert(head@ =~= hash@.take(12));
    array12(&head)
}

/// HKDF-SHA256 to `out_len` bytes.
pub fn hkdf_expand(salt: &[u8], ikm: &[u8], info: &[u8], out_len: usize) -> (r: Vec<u8>)
    requires
        out_len <= 255 * 32,
    ensures
        r@ == hkdf_sha256_of(salt@, ikm@, info@, out_len as int),
        r@.len() == out_len,
{
    hkdf_sha256(salt, ikm, info, out_len)
}

// ---------------------------------------------------------------------------
// The client hello
// ---------------------------------------------------------------------------

/// The hello random of a shared secret.
pub open spec fn random_of(shared: Seq<u8>) -> Seq<u8> {
    hkdf_sha256_of(HKDF_SALT@, shared, RANDOM_INFO@, 32)
}

/// The AuthKey of a shared secret.
pub open spec fn session_auth_key(shared: Seq<u8>) -> Seq<u8> {
    reality::auth_key_of(shared, random_of(shared))
}

/// The hello of a client secret for a host, with a given session id.
pub open spec fn client_hello_record(
    sni: Seq<char>,
    secret: Seq<u8>,
    shared: Seq<u8>,
    session_id: Seq<u8>,
) -> Seq<u8> {
    tls::hello_record(
        Some(encode_utf8(sni)),
        x25519_public_of(secret),
        random_of(shared),
        session_id,
    )
}

/// What the session id carries.
pub open spec fn session_fields(unix_time: u32, short_id: Seq<u8>) -> reality::SidView {
    reality::SidView {
        client_version: CLIENT_VERSION@,
        unix_time,
        short_id: reality::padded_short_id(short_id),
    }
}

/// The first check that a set of parameters fails, before any secret is drawn.
pub open spec fn params_error(short_id: Seq<u8>, server_public_key: Seq<u8>) -> Option<
    HandshakeError,
> {
    if short_id.len() == 0 || short_id.len() > reality::SID_SHORT_ID_LEN {
        Some(HandshakeError::BadShortId)
    } else if server_public_key == zeros(32) {
        Some(HandshakeError::BadServerKey)
    } else {
        None
    }
}

/// The session a server holding `server_secret` reads out of a hello: parse it,
/// agree on the shared secret, and open the session id.
pub open spec fn server_reads(server_secret: Seq<u8>, hello: Seq<u8>) -> Result<
    reality::SidView,
    reality::RealityError,
> {
    match tls::parse_hello(hello) {
        Err(_) => Err(reality::RealityError::Layout),
        Ok(h) => reality::unsealed(
            reality::auth_key_of(x25519_shared_of(server_secret, h.ephemeral_public), h.random),
            h.random,
            tls::with_session_id(hello, zeros(32)),
            h.session_id,
        ),
    }
}

/// What a handshake started with a given secret and time comes to.
pub open spec fn initiated(
    params: HandshakeParams,
    secret: Seq<u8>,
    unix_time: u32,
    r: Result<HandshakeState, HandshakeError>,
) -> bool {
    let shared = x25519_shared_of(secret, params.server_public_key@);
    match params_error(params.short_id@, params.server_public_key@) {
        Some(e) => r == Err::<HandshakeState, _>(e),
        None => if shared == zeros(32) {
            r == Err::<HandshakeState, _>(HandshakeError::EphemeralKeyFailed)
        } else if tls::hello_error(Some(encode_utf8(params.sni@)), 32) is Some {
            r == Err::<HandshakeState, _>(HandshakeError::SealFailed)
        } else {
            r matches Ok(s) && session_started(params, secret, unix_time, s@)
        },
    }
}

/// A handshake state fresh from a secret and a time.
pub open spec fn session_started(
    params: HandshakeParams,
    secret: Seq<u8>,
    unix_time: u32,
    s: HandshakeView,
) -> bool {
    let shared = x25519_shared_of(secret, params.server_public_key@);
    &&& s.ephemeral == secret
    &&& s.auth_key == session_auth_key(shared)
    &&& s.keys is None
    &&& s.session_id.len() == 32
    &&& Some(s.session_id) == aes256_gcm_seal_of(
        s.auth_key,
        reality::hello_nonce(random_of(shared)),
        client_hello_record(params.sni@, secret, shared, zeros(32)),
        reality::sid_plain(CLIENT_VERSION@, unix_time, params.short_id@),
    )
    &&& s.hello == client_hello_record(params.sni@, secret, shared, s.session_id)
    &&& s.hello.len() == tls::hello_len(Some(encode_utf8(params.sni@)), 32)
    &&& tls::parse_hello(s.hello) == Ok::<_, tls::TlsError>(
        tls::HelloView {
            sni: Some(params.sni@),
            random: random_of(shared),
            session_id: s.session_id,
            ephemeral_public: x25519_public_of(secret),
            tls13_negotiable: true,
        },
    )
    &&& forall|server: Seq<u8>|
        server.len() == 32 && #[trigger] x25519_public_of(server) == params.server_public_key@
            ==> server_reads(server, s.hello) == Ok::<_, reality::RealityError>(
            session_fields(unix_time, params.short_id@),
        )
}

/// The low 32 bits of a clock reading; zero when the clock gives none.
pub fn clock_field(seconds: Option<u64>) -> (r: u32)
    ensures
        r == (match seconds {
            Some(s) => s as int % 0x1_0000_0000,
            None => 0,
        }),
{
    match seconds {
        Some(s) => (s % 0x1_0000_0000) as u32,
        None => 0,
    }
}

// ---------------------------------------------------------------------------
// The server response and records
// ---------------------------------------------------------------------------

/// The send key and the receive key that an agreed secret gives a session.
pub open spec fn record_keys_of(session_id: Seq<u8>, ecdhe: Seq<u8>) -> (Seq<u8>, Seq<u8>) {
    let okm = hkdf_sha256_of(HKDF_SALT@, sha256_of(session_id + ecdhe), KEY_INFO@, 64);
    (okm.take(32), okm.skip(32))
}

/// The record keys that a server response establishes; nothing unless the
/// certificate is the temporary trusted one, the key share is usable and the
/// confirmation opens.
pub open spec fn accepted_keys(s: HandshakeView, response: Seq<u8>) -> Option<(Seq<u8>, Seq<u8>)> {
    let ecdhe = x25519_shared_of(s.ephemeral, response.subrange(96, 128));
    let keys = record_keys_of(s.session_id, ecdhe);
    if response.len() < SERVER_RESPONSE_MIN {
        None
    } else if !reality::certificate_ok(s.auth_key, response.take(96)) {
        None
    } else if ecdhe == zeros(32) {
        None
    } else if aes256_gcm_open_of(
        keys.1,
        nonce_of(s.session_id, 0, Direction::Server, NONCE_PURPOSE_RESPONSE@),
        Seq::empty(),
        response.skip(128),
    ) is None {
        None
    } else {
        Some(keys)
    }
}

/// What a sealed data record is.
pub open spec fn sealed_record(s: HandshakeView, seq: u64, plaintext: Seq<u8>) -> Option<Seq<u8>> {
    aes256_gcm_seal_of(
        (s.keys->0).0,
        nonce_of(s.session_id, seq, Direction::Client, NONCE_PURPOSE_DATA@),
        Seq::empty(),
        plaintext,
    )
}

/// What a received data record opens to.
pub open spec fn opened_record(s: HandshakeView, seq: u64, ciphertext: Seq<u8>) -> Option<Seq<u8>> {
    aes256_gcm_open_of(
        (s.keys->0).1,
        nonce_of(s.session_id, seq, Direction::Server, NONCE_PURPOSE_DATA@),
        Seq::empty(),
        ciphertext,
    )
}

/// What a peer that receives under `key` opens a client record to.
pub open spec fn peer_opens(
    key: Seq<u8>,
    session_id: Seq<u8>,
    seq: u64,
    ciphertext: Seq<u8>,
) -> Option<Seq<u8>> {
    aes256_gcm_open_of(
        key,
        nonce_of(session_id, seq, Direction::Client, NONCE_PURPOSE_DATA@),
        Seq::empty(),
        ciphertext,
    )
}

/// Law: how the keys of a session are derived. The hello random and the record
/// keys are HKDF-SHA256 under the fixed salt, the AuthKey is salted by the first
/// 20 bytes of the random; the record keys are bound to the session id by a
/// hash, and the first half of their 64 bytes is the send key.
pub proof fn law_session_key_derivation(shared: Seq<u8>, session_id: Seq<u8>, ecdhe: Seq<u8>)
    ensures
        ({
            let salt = ascii("shadevpn-reality-hkdf-salt-v1"@);
            let random = hkdf_sha256_of(salt, shared, ascii("shadevpn-hello-random-v1"@), 32);
            let okm = hkdf_sha256_of(
                salt,
                sha256_of(session_id + ecdhe),
                ascii("shadevpn-record-keys-v1"@),
                64,
            );
            &&& random_of(shared) == random
            &&& session_auth_key(shared) == hkdf_sha256_of(
                random.take(20),
                shared,
                ascii("REALITY"@),
                32,
            )
            &&& record_keys_of(session_id, ecdhe) == (okm.take(32), okm.skip(32))
        }),
{
    law_protocol_texts();
    reveal_strlit("REALITY");
    assert(reality::REALITY_INFO@ =~= ascii("REALITY"@));
}

/// Law: a data record is sealed under the send key and opened under the receive
/// key, with no additional data; the nonce of a sealed record is the hash of the
/// client domain and that of an opened one the hash of the server domain, both
/// with the data purpose, the session id and the record's own sequence.
pub proof fn law_data_record_construction(
    s: HandshakeView,
    send: Seq<u8>,
    recv: Seq<u8>,
    seq: u64,
    bytes: Seq<u8>,
)
    requires
        s.keys == Some((send, recv)),
    ensures
        sealed_record(s, seq, bytes) == aes256_gcm_seal_of(
            send,
            sha256_of(
                ascii("shadevpn-nonce-client-v1"@) + ascii("shadevpn-purpose-data-v1"@)
                    + s.session_id + be64(seq as int),
            ).take(12),
            Seq::empty(),
            bytes,
        ),
        opened_record(s, seq, bytes) == aes256_gcm_open_of(
            recv,
            sha256_of(
                ascii("shadevpn-nonce-server-v1"@) + ascii("shadevpn-purpose-data-v1"@)
                    + s.session_id + be64(seq as int),
            ).take(12),
            Seq::empty(),
            bytes,
        ),
        peer_opens(send, s.session_id, seq, bytes) == aes256_gcm_open_of(
            send,
            sha256_of(
                ascii("shadevpn-nonce-client-v1"@) + ascii("shadevpn-purpose-data-v1"@)
                    + s.session_id + be64(seq as int),
            ).take(12),
            Seq::empty(),
            bytes,
        ),
{
    law_protocol_texts();
}

/// Law: a session id is sealed under the AuthKey and the last 12 bytes of the
/// hello random, over the hello as it is sent but with the 32 bytes of the
/// session id zero; it carries the bytes `SV`, 1 and 0, the unix time high byte
/// first, and the short id with zeros behind it.
#[verifier::spinoff_prover]
#[verifier::rlimit(60)]
pub proof fn law_started_session_seals_its_identity(
    params: HandshakeParams,
    secret: Seq<u8>,
    unix_time: u32,
    s: HandshakeView,
)
    requires
        session_started(params, secret, unix_time, s),
        params.short_id@.len() <= 8,
    ensures
        ({
            let random = random_of(x25519_shared_of(secret, params.server_public_key@));
            &&& s.ephemeral == secret
            &&& s.keys is None
            &&& s.session_id == s.hello.subrange(44, 76)
            &&& Some(s.session_id) == aes256_gcm_seal_of(
                s.auth_key,
                random.skip(20),
                s.hello.take(44) + zeros(32) + s.hello.skip(76),
                seq![0x53u8, 0x56u8, 0x01u8, 0x00u8] + be32(unix_time as int) + params.short_id@
                    + zeros(8 - params.short_id@.len()),
            )
        }),
{
    lemma_started_parts(params, secret, unix_time, s);
    lemma_identity_seal(params, secret, unix_time, s);
}

proof fn lemma_started_parts(
    params: HandshakeParams,
    secret: Seq<u8>,
    unix_time: u32,
    s: HandshakeView,
)
    requires
        session_started(params, secret, unix_time, s),
    ensures
        ({
            let shared = x25519_shared_of(secret, params.server_public_key@);
            &&& s.ephemeral == secret
            &&& s.keys is None
            &&& s.session_id.len() == 32
            &&& random_of(shared).len() == 32
            &&& Some(s.session_id) == aes256_gcm_seal_of(
                s.auth_key,
                reality::hello_nonce(random_of(shared)),
                client_hello_record(params.sni@, secret, shared, zeros(32)),
                reality::sid_plain(CLIENT_VERSION@, unix_time, params.short_id@),
            )
            &&& s.hello == client_hello_record(params.sni@, secret, shared, s.session_id)
        }),
{
    tls::lemma_parsed_random(s.hello);
}

proof fn lemma_identity_seal(
    params: HandshakeParams,
    secret: Seq<u8>,
    unix_time: u32,
    s: HandshakeView,
)
    requires
        params.short_id@.len() <= 8,
        s.session_id.len() == 32,
        random_of(x25519_shared_of(secret, params.server_public_key@)).len() == 32,
        s.hello == client_hello_record(
            params.sni@,
            secret,
            x25519_shared_of(secret, params.server_public_key@),
            s.session_id,
        ),
    ensures
        ({
            let shared = x25519_shared_of(secret, params.server_public_key@);
            &&& s.session_id == s.hello.subrange(44, 76)
            &&& reality::hello_nonce(random_of(shared)) == random_of(shared).skip(20)
            &&& client_hello_record(params.sni@, secret, shared, zeros(32)) == s.hello.take(44)
                + zeros(32) + s.hello.skip(76)
            &&& reality::sid_plain(CLIENT_VERSION@, unix_time, params.short_id@) == seq![
                0x53u8,
                0x56u8,
                0x01u8,
                0x00u8,
            ] + be32(unix_time as int) + params.short_id@ + zeros(8 - params.short_id@.len())
        }),
{
    let random = random_of(x25519_shared_of(secret, params.server_public_key@));
    lemma_slot_of_hello(
        Some(encode_utf8(params.sni@)),
        x25519_public_of(secret),
        random,
        s.session_id,
    );
    assert(random.skip(20) =~= random.subrange(20, 32));
    let plain = reality::sid_plain(CLIENT_VERSION@, unix_time, params.short_id@);
    assert(plain =~= seq![0x53u8, 0x56u8, 0x01u8, 0x00u8] + be32(unix_time as int)
        + params.short_id@ + zeros(8 - params.short_id@.len()));
}

/// The session id stands at its slot in a hello, and zeroing the slot gives the
/// hello with a zero session id.
proof fn lemma_slot_of_hello(
    host: Option<Seq<u8>>,
    public: Seq<u8>,
    random: Seq<u8>,
    session_id: Seq<u8>,
)
    requires
        random.len() == 32,
        session_id.len() == 32,
    ensures
        ({
            let w = tls::hello_record(host, public, random, session_id);
            &&& w.subrange(44, 76) == session_id
            &&& w.take(44) + zeros(32) + w.skip(76) == tls::hello_record(
                host,
                public,
                random,
                zeros(32),
            )
        }),
{
    let w = tls::hello_record(host, public, random, session_id);
    tls::law_session_id_slot(host, public, random, session_id, zeros(32));
    tls::law_session_id_slot(host, public, random, session_id, session_id);
    let same = tls::with_session_id(w, session_id);
    assert(same.subrange(44, 76) =~= session_id);
}

/// Law: when a handshake starts. A short id of one to eight bytes, a server key
/// that is not all zero, a usable shared secret and a host that fits a hello
/// give a session; anything else gives the error of the first of these that
/// fails.
pub proof fn law_initiation_outcomes(
    params: HandshakeParams,
    secret: Seq<u8>,
    unix_time: u32,
    r: Result<HandshakeState, HandshakeError>,
)
    requires
        initiated(params, secret, unix_time, r),
    ensures
        ({
            let short_ok = 1 <= params.short_id@.len() <= 8;
            let key_ok = params.server_public_key@ != Seq::new(32, |i: int| 0u8);
            let shared_ok = x25519_shared_of(secret, params.server_public_key@) != Seq::new(
                32,
                |i: int| 0u8,
            );
            let host_ok = tls::hello_error(Some(encode_utf8(params.sni@)), 32) is None;
            &&& r is Ok == (short_ok && key_ok && shared_ok && host_ok)
            &&& (r matches Ok(s) ==> session_started(params, secret, unix_time, s@))
            &&& (!short_ok ==> r == Err::<HandshakeState, _>(HandshakeError::BadShortId))
            &&& (short_ok && !key_ok ==> r == Err::<HandshakeState, _>(
                HandshakeError::BadServerKey,
            ))
            &&& (short_ok && key_ok && !shared_ok ==> r == Err::<HandshakeState, _>(
                HandshakeError::EphemeralKeyFailed,
            ))
            &&& (short_ok && key_ok && shared_ok && !host_ok ==> r == Err::<HandshakeState, _>(
                HandshakeError::SealFailed,
            ))
        }),
{
    assert(zeros(32) =~= Seq::new(32, |i: int| 0u8));
}

/// Law: an accepted response is authentic, from end to end: it is at least 144
/// bytes long, its first 96 bytes are a public key with its HMAC-SHA512 under
/// the AuthKey, the next 32 a key share that agrees on a secret that is not
/// zero, and the rest opens, under the receive key that this secret gives and
/// the nonce of the response; the session's keys are the ones that this secret
/// gives.
pub proof fn law_accepted_response_is_authentic(s: HandshakeView, response: Seq<u8>)
    requires
        accepted_keys(s, response) is Some,
    ensures
        response.len() >= 144,
        response.subrange(32, 96) == crate::crypto::hmac_sha512_of(
            s.auth_key,
            response.subrange(0, 32),
        ),
        ({
            let ecdhe = x25519_shared_of(s.ephemeral, response.subrange(96, 128));
            let keys = record_keys_of(s.session_id, ecdhe);
            &&& ecdhe != Seq::new(32, |i: int| 0u8)
            &&& accepted_keys(s, response) == Some(keys)
            &&& aes256_gcm_open_of(
                keys.1,
                sha256_of(
                    ascii("shadevpn-nonce-server-v1"@) + ascii("shadevpn-purpose-response-v1"@)
                        + s.session_id + zeros(8),
                ).take(12),
                Seq::empty(),
                response.skip(128),
            ) is Some
        }),
{
    law_protocol_texts();
    assert(zeros(32) =~= Seq::new(32, |i: int| 0u8));
    assert(be64(0) =~= zeros(8));
    let cert = response.take(96);
    assert(cert.skip(32) =~= response.subrange(32, 96));
    assert(cert.take(32) =~= response.subrange(0, 32));
}

/// Law: the response of an honest server is accepted: a certificate issued
/// under the session's AuthKey, a usable key share, and a confirmation that
/// opens under the keys that the share gives.
pub proof fn law_honest_response_is_accepted(
    s: HandshakeView,
    cert_public: Seq<u8>,
    share: Seq<u8>,
    confirmation: Seq<u8>,
)
    requires
        cert_public.len() == 32,
        crate::crypto::hmac_sha512_of(s.auth_key, cert_public).len() == 64,
        share.len() == 32,
        x25519_shared_of(s.ephemeral, share) != zeros(32),
        confirmation.len() >= TAG_LEN,
        aes256_gcm_open_of(
            record_keys_of(s.session_id, x25519_shared_of(s.ephemeral, share)).1,
            nonce_of(s.session_id, 0, Direction::Server, NONCE_PURPOSE_RESPONSE@),
            Seq::empty(),
            confirmation,
        ) is Some,
    ensures
        accepted_keys(
            s,
            reality::certificate_of(s.auth_key, cert_public) + share + confirmation,
        ) == Some(record_keys_of(s.session_id, x25519_shared_of(s.ephemeral, share))),
{
    let cert = reality::certificate_of(s.auth_key, cert_public);
    let response = cert + share + confirmation;
    reality::law_issued_certificate_is_ok(s.auth_key, cert_public);
    assert(response.take(96) =~= cert);
    assert(response.subrange(96, 128) =~= share);
    assert(response.skip(128) =~= confirmation);
}

/// Law: a response whose certificate was not issued under this session's
/// AuthKey for the public key it carries is never accepted, whatever follows
/// the certificate.
pub proof fn law_foreign_certificate_is_refused(s: HandshakeView, response: Seq<u8>)
    requires
        response.len() >= 96,
        response.take(96) != reality::certificate_of(s.auth_key, response.take(32)),
    ensures
        accepted_keys(s, response) is None,
{
    if reality::certificate_ok(s.auth_key, response.take(96)) {
        reality::law_accepted_certificate_is_issued(s.auth_key, response.take(96));
        assert(response.take(96).take(32) =~= response.take(32));
    }
}

impl HandshakeState {
    /// Performs the client-side REALITY key agreement with a fresh secret and
    /// builds the hello. The returned state holds the sealed session id and
    /// every input needed to authenticate the server response later.
    pub fn initiate(params: &HandshakeParams) -> (r: Result<HandshakeState, HandshakeError>)
        ensures
            exists|secret: Seq<u8>, unix_time: u32|
                secret.len() == 32 && #[trigger] initiated(*params, secret, unix_time, r),
    {
        let secret = random_secret();
        let unix_time: u32 = clock_field(unix_seconds());
        HandshakeState::begin(params, secret, unix_time)
    }

    /// Performs the key agreement with a given secret and clock reading.
    pub fn initiate_with(params: &HandshakeParams, secret: [u8; 32], unix_time: u32) -> (r: Result<
        HandshakeState,
        HandshakeError,
    >)
        ensures
            initiated(*params, secret@, unix_time, r),
    {
        HandshakeState::begin(params, secret_from(secret), unix_time)
    }

    /// Performs the key agreement around a secret.
    fn begin(params: &HandshakeParams, secret: StaticSecret, unix_time: u32) -> (r: Result<
        HandshakeState,
        HandshakeError,
    >)
        ensures
            initiated(*params, secret_bytes_of(secret), unix_time, r),
    {
        if params.short_id.len() == 0 || params.short_id.len() > reality::SID_SHORT_ID_LEN {
            return Err(HandshakeError::BadShortId);
        }
        if all_zero(&params.server_public_key) {
            return Err(HandshakeError::BadServerKey);
        }
        let public = x25519_public(&secret);
        let shared = x25519_shared(&secret, &params.server_public_key);
        if all_zero(&shared) {
            return Err(HandshakeError::EphemeralKeyFailed);
        }
        let random = array32(&hkdf_sha256(&HKDF_SALT, &shared, &RANDOM_INFO, 32));
        let auth_key = reality::auth_key(&shared, &random);

        let zero_id = [0u8; 32];
        assert(zero_id@ =~= zeros(32));
        let hello_zeroed = match tls::build_client_hello(
            Some(params.sni.as_str()),
            &public,
            &random,
            &zero_id,
        ) {
            Ok(h) => h,
            Err(_) => return Err(HandshakeError::SealFailed),
        };
        let ghost host = Some(encode_utf8(params.sni@));
        proof {
            tls::law_session_id_slot(host, public@, random@, zeros(32), zeros(32));
        }
        let sealed_session_id = match reality::seal_session_id(
            &auth_key,
            &random,
            &hello_zeroed,
            CLIENT_VERSION,
            unix_time,
            &params.short_id,
        ) {
            Ok(id) => id,
            Err(_) => return Err(HandshakeError::SealFailed),
        };
        let mut wire_hello = copy_range(&hello_zeroed, 0, tls::SESSION_ID_OFFSET);
        wire_hello.extend_from_slice(&sealed_session_id);
        wire_hello.extend_from_slice(
            &hello_zeroed[tls::SESSION_ID_OFFSET + 32..hello_zeroed.len()],
        );
        let state = HandshakeState {
            ephemeral: secret,
            auth_key,
            wire_hello,
            sealed_session_id,
            record_keys: None,
        };
        proof {
            let sid = sealed_session_id@;
            let w = state@.hello;
            assert(w =~= tls::with_session_id(hello_zeroed@, sid));
            tls::law_session_id_slot(host, public@, random@, zeros(32), sid);
            tls::law_session_id_slot(host, public@, random@, sid, zeros(32));
            assert(tls::with_session_id(w, zeros(32)) == hello_zeroed@);
            tls::law_hello_record_len(host, public@, random@, sid);
            tls::law_hello_round_trip(Some(params.sni@), public@, random@, sid);
        }
        Ok(state)
    }

    /// The TLS 1.3 ClientHello record to write to the socket.
    pub fn client_hello(&self) -> (r: &[u8])
        ensures
            r@ == self@.hello,
    {
        self.wire_hello.as_slice()
    }

    /// Verifies the server's response and completes the handshake.
    ///
    /// Wire layout: 96-byte temporary trusted certificate, 32-byte server key
    /// share, sealed confirmation. A certificate that is not the temporary
    /// trusted one is the real certificate of the target site (redirection or
    /// interception) and the session is rejected. Completion is single-use, and
    /// a rejected response leaves the state as it was. A server that holds the
    /// secret of its key share derives the same keys.
    pub fn complete(&mut self, server_response: &[u8]) -> (r: Result<(), HandshakeError>)
        ensures
            old(self)@.keys is None && accepted_keys(old(self)@, server_response@) is Some ==> r
                == Ok::<(), HandshakeError>(()) && final(self)@ == (HandshakeView {
                keys: accepted_keys(old(self)@, server_response@),
                ..old(self)@
            }),
            old(self)@.keys is Some || accepted_keys(old(self)@, server_response@) is None ==> r
                == Err::<(), _>(HandshakeError::SessionAuthRejected) && *final(self) == *old(self),
            r is Ok ==> forall|server: Seq<u8>|
                server.len() == 32 && #[trigger] x25519_public_of(server)
                    == server_response@.subrange(96, 128) ==> final(self)@.keys == Some(
                    record_keys_of(
                        old(self)@.session_id,
                        x25519_shared_of(server, x25519_public_of(old(self)@.ephemeral)),
                    ),
                ),
    {
        if self.record_keys.is_some() {
            return Err(HandshakeError::SessionAuthRejected);
        }
        if server_response.len() < SERVER_RESPONSE_MIN {
            return Err(HandshakeError::SessionAuthRejected);
        }
        let certificate = copy_range(server_response, 0, reality::CERT_LEN);
        assert(certificate@ =~= server_response@.take(96));
        if reality::verify_temporary_certificate(&self.auth_key, &certificate).is_err() {
            return Err(HandshakeError::SessionAuthRejected);
        }
        let server_share = array32(
            &server_response[reality::CERT_LEN..reality::CERT_LEN + SERVER_SHARE_LEN],
        );
        let ecdhe = x25519_shared(&self.ephemeral, &server_share);
        if all_zero(&ecdhe) {
            return Err(HandshakeError::SessionAuthRejected);
        }
        let binding = reality::session_identity(&self.sealed_session_id, &ecdhe);
        let okm = hkdf_sha256(&HKDF_SALT, &binding, &KEY_INFO, 64);
        let send = array32(&copy_range(&okm, 0, 32));
        let recv = array32(&copy_range(&okm, 32, 64));
        assert(send@ =~= okm@.take(32));
        assert(recv@ =~= okm@.skip(32));
        let nonce = derive_nonce(
            &self.sealed_session_id,
            0,
            Direction::Server,
            &NONCE_PURPOSE_RESPONSE,
        );
        let confirmation = copy_range(
            server_response,
            CONFIRMATION_OFFSET,
            server_response.len(),
        );
        assert(confirmation@ =~= server_response@.skip(128));
        let no_aad: Vec<u8> = Vec::new();
        match aes256_gcm_open(&recv, &nonce, &no_aad, &confirmation) {
            None => Err(HandshakeError::SessionAuthRejected),
            Some(_) => {
                self.record_keys = Some(RecordKeys { send, recv });
                Ok(())
            },
        }
    }

    /// A second handle on the same session, for the data path.
    pub fn duplicate(&self) -> (r: HandshakeState)
        ensures
            r@ == self@,
    {
        let record_keys = match &self.record_keys {
            Some(k) => Some(RecordKeys { send: k.send, recv: k.recv }),
            None => None,
        };
        let mut wire_hello: Vec<u8> = Vec::new();
        wire_hello.extend_from_slice(self.wire_hello.as_slice());
        let r = HandshakeState {
            ephemeral: secret_clone(&self.ephemeral),
            auth_key: self.auth_key,
            wire_hello,
            sealed_session_id: self.sealed_session_id,
            record_keys,
        };
        assert(r@ =~= self@);
        r
    }

    /// Whether the server response has been authenticated.
    pub fn is_completed(&self) -> (r: bool)
        ensures
            r == (self@.keys is Some),
    {
        self.record_keys.is_some()
    }

    /// Seals a data record for the server. A peer that receives under our send
    /// key opens it to the plaintext.
    pub fn seal_record(&self, seq: u64, plaintext: &[u8]) -> (r: Result<Vec<u8>, HandshakeError>)
        ensures
            match r {
                Ok(c) => {
                    &&& self@.keys is Some
                    &&& plaintext@.len() <= GCM_MAX
                    &&& Some(c@) == sealed_record(self@, seq, plaintext@)
                    &&& c@.len() == plaintext@.len() + TAG_LEN
                    &&& peer_opens((self@.keys->0).0, self@.session_id, seq, c@) == Some(plaintext@)
                    &&& aes256_gcm_open_of(
                        (self@.keys->0).0,
                        sha256_of(
                            NONCE_DOMAIN_CLIENT@ + NONCE_PURPOSE_DATA@ + self@.session_id + be64(
                                seq as int,
                            ),
                        ).take(12),
                        Seq::empty(),
                        c@,
                    ) == Some(plaintext@)
                },
                Err(HandshakeError::SessionAuthRejected) => self@.keys is None,
                Err(HandshakeError::SealFailed) => self@.keys is Some && plaintext@.len() > GCM_MAX,
                Err(_) => false,
            },
    {
        match &self.record_keys {
            None => Err(HandshakeError::SessionAuthRejected),
            Some(keys) => {
                let nonce = derive_nonce(
                    &self.sealed_session_id,
                    seq,
                    Direction::Client,
                    &NONCE_PURPOSE_DATA,
                );
                let no_aad: Vec<u8> = Vec::new();
                assert(no_aad@ =~= Seq::empty());
                aes256_gcm_seal(&keys.send, &nonce, &no_aad, plaintext).ok_or(
                    HandshakeError::SealFailed,
                )
            },
        }
    }

    /// Opens a data record from the server.
    pub fn open_record(&self, seq: u64, ciphertext: &[u8]) -> (r: Result<Vec<u8>, HandshakeError>)
        ensures
            match r {
                Ok(m) => self@.keys is Some && opened_record(self@, seq, ciphertext@) == Some(m@)
                    && m@.len() + TAG_LEN == ciphertext@.len(),
                Err(e) => e == HandshakeError::SessionAuthRejected && (self@.keys is None
                    || opened_record(self@, seq, ciphertext@) is None),
            },
    {
        match &self.record_keys {
            None => Err(HandshakeError::SessionAuthRejected),
            Some(keys) => {
                let nonce = derive_nonce(
                    &self.sealed_session_id,
                    seq,
                    Direction::Server,
                    &NONCE_PURPOSE_DATA,
                );
                let no_aad: Vec<u8> = Vec::new();
                assert(no_aad@ =~= Seq::empty());
                aes256_gcm_open(&keys.recv, &nonce, &no_aad, ciphertext).ok_or(
                    HandshakeError::SessionAuthRejected,
                )
            },
        }
    }
}

// ---------------------------------------------------------------------------
// Profile material
// ---------------------------------------------------------------------------

/// Profile fields as text: the base64 server public key and the hex short id
/// beside the address.
pub struct HandshakeMaterial {
    pub server_address: String,
    pub server_port: u16,
    pub sni: String,
    pub server_public_key_b64: String,
    pub short_id_hex: String,
}

/// The server key of a profile: URL-safe base64 without padding, or else
/// standard base64.
pub open spec fn material_key(text: Seq<char>) -> Option<Seq<u8>> {
    match base64_url_decode_of(encode_utf8(text)) {
        Some(k) => Some(k),
        None => base64_decode_of(encode_utf8(text)),
    }
}

/// What profile material comes to, given what its key text decodes to.
pub open spec fn material_outcome(
    m: HandshakeMaterial,
    key: Option<Seq<u8>>,
    r: Result<HandshakeParams, HandshakeError>,
) -> bool {
    let hex = encode_utf8(m.short_id_hex@);
    if key is None || key->0.len() != 32 {
        r == Err::<HandshakeParams, _>(HandshakeError::BadServerKey)
    } else if !is_hex(hex) || hex.len() == 0 {
        r == Err::<HandshakeParams, _>(HandshakeError::BadShortId)
    } else {
        &&& r is Ok
        &&& r->Ok_0.server_address == m.server_address
        &&& r->Ok_0.server_port == m.server_port
        &&& r->Ok_0.sni == m.sni
        &&& r->Ok_0.server_public_key@ == key->0
        &&& r->Ok_0.short_id@ == hex_bytes(hex)
        &&& r->Ok_0.fingerprint is None
    }
}

/// Law: what profile material comes to. The key text is read as URL-safe base64,
/// and as standard base64 only where that fails; a key of 32 bytes and a
/// non-empty hex short id give parameters that carry every field over, and
/// anything else gives the error of the first of the two that fails.
pub proof fn law_material_outcomes(
    m: HandshakeMaterial,
    text: Seq<u8>,
    r: Result<HandshakeParams, HandshakeError>,
)
    requires
        text == encode_utf8(m.server_public_key_b64@),
        material_outcome(m, material_key(m.server_public_key_b64@), r),
    ensures
        ({
            let key = if base64_url_decode_of(text) is Some {
                base64_url_decode_of(text)
            } else {
                base64_decode_of(text)
            };
            let hex = encode_utf8(m.short_id_hex@);
            let key_ok = key is Some && key->0.len() == 32;
            let short_ok = is_hex(hex) && hex.len() > 0;
            &&& (!key_ok ==> r == Err::<HandshakeParams, _>(HandshakeError::BadServerKey))
            &&& (key_ok && !short_ok ==> r == Err::<HandshakeParams, _>(
                HandshakeError::BadShortId,
            ))
            &&& r is Ok == (key_ok && short_ok)
            &&& (r matches Ok(p) ==> p.server_public_key@ == key->0 && p.short_id@ == hex_bytes(
                hex,
            ) && p.sni == m.sni && p.server_address == m.server_address && p.server_port
                == m.server_port && p.fingerprint is None)
        }),
{
}

impl HandshakeMaterial {
    /// Builds handshake parameters from profile material.
    pub fn into_params(self) -> (r: Result<HandshakeParams, HandshakeError>)
        ensures
            material_outcome(self, material_key(self.server_public_key_b64@), r),
    {
        let text = self.server_public_key_b64.as_str().as_bytes();
        let key = match base64_url_decode(text) {
            Some(k) => Some(k),
            None => base64_decode(text),
        };
        self.into_params_with(key)
    }

    /// Builds handshake parameters, given what the key text decodes to.
    pub fn into_params_with(self, key: Option<Vec<u8>>) -> (r: Result<
        HandshakeParams,
        HandshakeError,
    >)
        ensures
            material_outcome(self, opt_bytes(key), r),
    {
        let key_bytes = key.ok_or(HandshakeError::BadServerKey)?;
        if key_bytes.len() != 32 {
            return Err(HandshakeError::BadServerKey);
        }
        let server_public_key = array32(&key_bytes);
        let short_id = hex_decode(self.short_id_hex.as_str().as_bytes()).ok_or(
            HandshakeError::BadShortId,
        )?;
        if short_id.len() == 0 {
            return Err(HandshakeError::BadShortId);
        }
        Ok(
            HandshakeParams {
                server_address: self.server_address,
                server_port: self.server_port,
                sni: self.sni,
                server_public_key,
                short_id,
                fingerprint: None,
            },
        )
    }
}

/// Law: how a server reads a hello: it agrees on the shared secret with the key in
/// the hello, derives the AuthKey from it and the hello random, and opens the
/// session id with the hello, its session id zeroed, as additional data.
pub proof fn law_server_reads_hello(server_secret: Seq<u8>, hello: Seq<u8>, h: tls::HelloView)
    requires
        tls::parse_hello(hello) == Ok::<_, tls::TlsError>(h),
    ensures
        server_reads(server_secret, hello) == reality::unsealed(
            hkdf_sha256_of(
                h.random.take(20),
                x25519_shared_of(server_secret, h.ephemeral_public),
                ascii("REALITY"@),
                32,
            ),
            h.random,
            hello.take(44) + zeros(32) + hello.skip(76),
            h.session_id,
        ),
{
    reveal_strlit("REALITY");
    assert(reality::REALITY_INFO@ =~= ascii("REALITY"@));
}

/// Law: a server that holds the secret of the key in a client's profile reads,
/// out of the client's hello, the version `SV` 1, the unix time and the short id
/// with zeros behind it.
pub proof fn law_server_recognizes_client(
    params: HandshakeParams,
    secret: Seq<u8>,
    unix_time: u32,
    s: HandshakeView,
    server: Seq<u8>,
)
    requires
        session_started(params, secret, unix_time, s),
        params.short_id@.len() <= 8,
        server.len() == 32,
        x25519_public_of(server) == params.server_public_key@,
    ensures
        server_reads(server, s.hello) == Ok::<_, reality::RealityError>(
            reality::SidView {
                client_version: seq![0x53u8, 0x56u8, 0x01u8],
                unix_time,
                short_id: params.short_id@ + zeros(8 - params.short_id@.len()),
            },
        ),
{
    assert(CLIENT_VERSION@ =~= seq![0x53u8, 0x56u8, 0x01u8]);
}

} // verus!
