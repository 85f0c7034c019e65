//! REALITY protocol material following the XTLS constructions.
//!
//! - `AuthKey`: 32 bytes of HKDF-SHA256, IKM = X25519(ephemeral, static),
//!   salt = the first 20 bytes of the hello's `random` field, info = `REALITY`.
//! - `session_id`: the hello's 32-byte legacy session id. Plaintext is
//!   [3 bytes client version][1 reserved][4 bytes unix time][short id padded to
//!   8], sealed with AES-256-GCM under AuthKey with nonce = random[20..32] and
//!   AAD = the hello with the session id zeroed.
//! - Temporary trusted certificate: a public key followed by
//!   HMAC-SHA512(AuthKey, public key). The client accepts no other certificate.
//!
//! No secret is ever formatted into an error string.

use vstd::prelude::*;
use x25519_dalek::StaticSecret;

use crate::bytes::{array32, ascii, be32, copy_range, push_u32, u32_at, zeros};
use crate::crypto::{
    aes256_gcm_open, aes256_gcm_open_of, aes256_gcm_seal, aes256_gcm_seal_of, hkdf_sha256,
    hkdf_sha256_of, hmac_sha512, hmac_sha512_of, random_secret, secret_bytes_of, secret_from,
    sha256, sha256_of, x25519_public, x25519_public_of, x25519_shared, x25519_shared_of, GCM_MAX,
};
use crate::tls::SESSION_ID_OFFSET;

verus! {

/// HKDF info label: the bytes of `REALITY`.
pub const REALITY_INFO: [u8; 7] = [0x52, 0x45, 0x41, 0x4c, 0x49, 0x54, 0x59];

/// Length of the client version in the session-id plaintext.
pub const SID_VERSION_LEN: usize = 3;

/// Length of the reserved field in the session-id plaintext.
pub const SID_RESERVED_LEN: usize = 1;

/// Length of the unix time in the session-id plaintext.
pub const SID_TIME_LEN: usize = 4;

/// The short id occupies the final 8 bytes (zero padded).
pub const SID_SHORT_ID_LEN: usize = 8;

/// Length of the session-id plaintext.
pub const SID_PLAIN_LEN: usize = SID_VERSION_LEN + SID_RESERVED_LEN + SID_TIME_LEN
    + SID_SHORT_ID_LEN;

/// Length of the session id on the wire.
pub const SID_WIRE_LEN: usize = 32;

/// Salt window: the first 20 bytes of `random`; the nonce is the rest.
pub const RANDOM_SALT_LEN: usize = 20;

/// Length of a temporary certificate.
pub const CERT_LEN: usize = 96;

/// Why REALITY material was refused.
#[derive(Debug, Clone, Copy, PartialEq, Eq, Structural)]
pub enum RealityError {
    /// A length in the profile exceeded the fixed protocol layout.
    ShortIdTooLong,
    /// Session-id AEAD open failed: wrong key material or tampered hello.
    SessionIdRejected,
    /// The certificate failed the temporary-trusted verification.
    CertRejected,
    /// A value was outside the fixed layout bounds.
    Layout,
}

impl RealityError {
    /// The text of each error.
    pub open spec fn text(self) -> Seq<char> {
        match self {
            RealityError::ShortIdTooLong => "short id exceeds 8 bytes"@,
            RealityError::SessionIdRejected => "session id rejected"@,
            RealityError::CertRejected => "certificate rejected"@,
            RealityError::Layout => "fixed-layout overflow"@,
        }
    }

    /// A fixed description that reveals no key material.
    pub fn reason(&self) -> (r: &'static str)
        ensures
            r@ == self.text(),
    {
        match self {
            RealityError::ShortIdTooLong => "short id exceeds 8 bytes",
            RealityError::SessionIdRejected => "session id rejected",
            RealityError::CertRejected => "certificate rejected",
            RealityError::Layout => "fixed-layout overflow",
        }
    }
}

/// Decrypted session-id plaintext.
#[derive(Debug, Clone, Copy, PartialEq, Eq)]
pub struct SessionIdPlain {
    pub client_version: [u8; 3],
    pub unix_time: u32,
    /// Zero padded to 8 bytes; compare against the allowlist directly.
    pub short_id: [u8; 8],
}

/// The mathematical content of a [`SessionIdPlain`].
#[verifier::ext_equal]
pub struct SidView {
    pub client_version: Seq<u8>,
    pub unix_time: u32,
    pub short_id: Seq<u8>,
}

impl View for SessionIdPlain {
    type V = SidView;

    open spec fn view(&self) -> SidView {
        SidView {
            client_version: self.client_version@,
            unix_time: self.unix_time,
            short_id: self.short_id@,
        }
    }
}

// ---------------------------------------------------------------------------
// Constructions
// ---------------------------------------------------------------------------

/// The REALITY AuthKey of a shared secret and a hello random.
pub open spec fn auth_key_of(shared: Seq<u8>, random: Seq<u8>) -> Seq<u8> {
    hkdf_sha256_of(random.take(RANDOM_SALT_LEN as int), shared, REALITY_INFO@, 32)
}

/// A short id zero padded to 8 bytes.
pub open spec fn padded_short_id(short_id: Seq<u8>) -> Seq<u8> {
    short_id + zeros(SID_SHORT_ID_LEN - short_id.len())
}

/// The session-id plaintext: version, a zero byte, time, padded short id.
pub open spec fn sid_plain(version: Seq<u8>, unix_time: u32, short_id: Seq<u8>) -> Seq<u8> {
    version + seq![0u8] + be32(unix_time as int) + padded_short_id(short_id)
}

/// The fields of a session-id plaintext. The reserved byte is not looked at.
pub open spec fn sid_fields(plain: Seq<u8>) -> SidView {
    SidView {
        client_version: plain.take(3),
        unix_time: u32_at(plain, 4) as u32,
        short_id: plain.subrange(8, 16),
    }
}

/// The AEAD nonce of a hello: the last 12 bytes of its random.
pub open spec fn hello_nonce(random: Seq<u8>) -> Seq<u8> {
    random.subrange(20, 32)
}

/// What a received session id opens to.
pub open spec fn unsealed(
    key: Seq<u8>,
    random: Seq<u8>,
    hello: Seq<u8>,
    session_id: Seq<u8>,
) -> Result<SidView, RealityError> {
    if hello.len() < SESSION_ID_OFFSET + SID_WIRE_LEN {
        Err(RealityError::Layout)
    } else {
        match aes256_gcm_open_of(key, hello_nonce(random), hello, session_id) {
            None => Err(RealityError::SessionIdRejected),
            Some(plain) => Ok(sid_fields(plain)),
        }
    }
}

/// A certificate: a public key and its HMAC under the AuthKey.
pub open spec fn certificate_of(key: Seq<u8>, public: Seq<u8>) -> Seq<u8> {
    public + hmac_sha512_of(key, public)
}

/// Whether a certificate is the server's temporary trusted one.
pub open spec fn certificate_ok(key: Seq<u8>, certificate: Seq<u8>) -> bool {
    certificate.len() == CERT_LEN && certificate.skip(32) == hmac_sha512_of(
        key,
        certificate.take(32),
    )
}

/// Law: the fields of a session-id plaintext are the ones that went in.
pub proof fn law_sid_plain_round_trip(version: Seq<u8>, unix_time: u32, short_id: Seq<u8>)
    requires
        version.len() == SID_VERSION_LEN,
        short_id.len() <= SID_SHORT_ID_LEN,
    ensures
        sid_plain(version, unix_time, short_id).len() == SID_PLAIN_LEN,
        sid_fields(sid_plain(version, unix_time, short_id)) == (SidView {
            client_version: version,
            unix_time,
            short_id: padded_short_id(short_id),
        }),
{
    let p = sid_plain(version, unix_time, short_id);
    let t = be32(unix_time as int);
    crate::bytes::lemma_be32_round_trip(unix_time as int);
    assert(p.take(3) =~= version);
    assert(p[4] == t[0] && p[5] == t[1] && p[6] == t[2] && p[7] == t[3]);
    assert(u32_at(p, 4) == u32_at(t, 0));
    assert(p.subrange(8, 16) =~= padded_short_id(short_id));
}

/// Law: the AuthKey is 32 bytes of HKDF-SHA256 over the shared secret, salted by
/// the first 20 bytes of the hello random, with the info `REALITY`.
pub proof fn law_auth_key_construction(shared: Seq<u8>, random: Seq<u8>)
    requires
        random.len() == 32,
    ensures
        auth_key_of(shared, random) == hkdf_sha256_of(
            random.subrange(0, 20),
            shared,
            ascii("REALITY"@),
            32,
        ),
{
    reveal_strlit("REALITY");
    assert(REALITY_INFO@ =~= ascii("REALITY"@));
    assert(random.take(20) =~= random.subrange(0, 20));
}

/// Law: the session-id plaintext is sixteen bytes: the client version, a zero,
/// the unix time high byte first, and the short id with zeros behind it.
pub proof fn law_session_id_layout(version: Seq<u8>, unix_time: u32, short_id: Seq<u8>)
    requires
        version.len() == 3,
        short_id.len() <= 8,
    ensures
        ({
            let p = sid_plain(version, unix_time, short_id);
            &&& p.len() == 16
            &&& p.subrange(0, 3) == version
            &&& p[3] == 0
            &&& p[4] * 0x100_0000 + p[5] * 0x1_0000 + p[6] * 0x100 + p[7] == unix_time
            &&& p.subrange(8, 8 + short_id.len() as int) == short_id
            &&& forall|i: int| 8 + short_id.len() <= i < 16 ==> p[i] == 0
        }),
{
    let p = sid_plain(version, unix_time, short_id);
    let t = be32(unix_time as int);
    crate::bytes::law_big_endian(unix_time as int);
    assert(p[4] == t[0] && p[5] == t[1] && p[6] == t[2] && p[7] == t[3]);
    assert(p.subrange(0, 3) =~= version);
    assert(p.subrange(8, 8 + short_id.len() as int) =~= short_id);
}

/// Law: opening a session id gives the fields of the plaintext that the AEAD
/// gives under the last 12 bytes of the hello random, with the zeroed hello as
/// additional data; a session id that does not open is rejected, and a hello too
/// short to hold one is a layout error.
pub proof fn law_session_id_opening(
    key: Seq<u8>,
    random: Seq<u8>,
    hello: Seq<u8>,
    session_id: Seq<u8>,
)
    requires
        random.len() == 32,
    ensures
        hello.len() < 76 ==> unsealed(key, random, hello, session_id) == Err::<SidView, _>(
            RealityError::Layout,
        ),
        hello.len() >= 76 ==> match aes256_gcm_open_of(key, random.skip(20), hello, session_id) {
            None => unsealed(key, random, hello, session_id) == Err::<SidView, _>(
                RealityError::SessionIdRejected,
            ),
            Some(p) => p.len() == 16 ==> (unsealed(key, random, hello, session_id) matches Ok(f)
                && f.client_version == p.subrange(0, 3) && f.unix_time == p[4] * 0x100_0000 + p[5]
                * 0x1_0000 + p[6] * 0x100 + p[7] && f.short_id == p.subrange(8, 16)),
        },
{
    assert(random.skip(20) =~= random.subrange(20, 32));
    if let Some(p) = aes256_gcm_open_of(key, random.skip(20), hello, session_id) {
        if p.len() == 16 {
            assert(p.take(3) =~= p.subrange(0, 3));
        }
    }
}

/// Law: the certificates accepted under a key are exactly the 32-byte public
/// keys with their 64-byte HMAC-SHA512 under the key behind them.
pub proof fn law_trusted_certificates(key: Seq<u8>, public: Seq<u8>, tag: Seq<u8>)
    requires
        public.len() == 32,
        tag.len() == 64,
    ensures
        certificate_ok(key, public + tag) == (tag == hmac_sha512_of(key, public)),
{
    assert((public + tag).take(32) =~= public);
    assert((public + tag).skip(32) =~= tag);
}

/// Law: nothing that is not 96 bytes long is a trusted certificate, and one that
/// is issued is the public key with its HMAC behind it.
pub proof fn law_certificate_layout(key: Seq<u8>, public: Seq<u8>, certificate: Seq<u8>)
    ensures
        certificate_ok(key, certificate) ==> certificate.len() == 96,
        certificate_of(key, public) == public + hmac_sha512_of(key, public),
{
}

/// Law: a certificate issued under a key is accepted under that key.
pub proof fn law_issued_certificate_is_ok(key: Seq<u8>, public: Seq<u8>)
    requires
        public.len() == 32,
        hmac_sha512_of(key, public).len() == 64,
    ensures
        certificate_ok(key, certificate_of(key, public)),
{
    let c = certificate_of(key, public);
    assert(c.take(32) =~= public);
    assert(c.skip(32) =~= hmac_sha512_of(key, public));
}

/// Law: a certificate accepted under a key is the one issued under it for the
/// public key it carries, so a change to its signature half is refused.
pub proof fn law_accepted_certificate_is_issued(key: Seq<u8>, certificate: Seq<u8>)
    requires
        certificate_ok(key, certificate),
    ensures
        certificate == certificate_of(key, certificate.take(32)),
{
    assert(certificate =~= certificate.take(32) + certificate.skip(32));
}

/// Derives the REALITY AuthKey from the raw ECDH shared secret and the hello's
/// random field.
pub fn auth_key(shared_secret: &[u8; 32], random: &[u8; 32]) -> (r: [u8; 32])
    ensures
        r@ == auth_key_of(shared_secret@, random@),
{
    let salt = copy_range(random, 0, RANDOM_SALT_LEN);
    assert(salt@ =~= random@.take(20));
    array32(&hkdf_sha256(&salt, shared_secret, &REALITY_INFO, 32))
}

/// Seals the session id into the hello's 32-byte legacy session id slot.
///
/// `hello_with_zeroed_sid` is the full ClientHello record with the 32 bytes at
/// [`SESSION_ID_OFFSET`] set to zero: exactly what the server re-derives as
/// additional data.
pub fn seal_session_id(
    aead_key: &[u8; 32],
    random: &[u8; 32],
    hello_with_zeroed_sid: &[u8],
    version: [u8; 3],
    unix_time: u32,
    short_id: &[u8],
) -> (r: Result<[u8; 32], RealityError>)
    ensures
        match r {
            Ok(sealed) => {
                &&& short_id@.len() <= SID_SHORT_ID_LEN
                &&& SESSION_ID_OFFSET + SID_WIRE_LEN <= hello_with_zeroed_sid@.len() <= GCM_MAX
                &&& Some(sealed@) == aes256_gcm_seal_of(
                    aead_key@,
                    hello_nonce(random@),
                    hello_with_zeroed_sid@,
                    sid_plain(version@, unix_time, short_id@),
                )
                &&& unsealed(aead_key@, random@, hello_with_zeroed_sid@, sealed@) == Ok::<
                    _,
                    RealityError,
                >(
                    SidView {
                        client_version: version@,
                        unix_time,
                        short_id: padded_short_id(short_id@),
                    },
                )
            },
            Err(RealityError::ShortIdTooLong) => short_id@.len() > SID_SHORT_ID_LEN,
            Err(RealityError::Layout) => short_id@.len() <= SID_SHORT_ID_LEN
                && hello_with_zeroed_sid@.len() < SESSION_ID_OFFSET + SID_WIRE_LEN,
            Err(RealityError::SessionIdRejected) => short_id@.len() <= SID_SHORT_ID_LEN
                && hello_with_zeroed_sid@.len() > GCM_MAX,
            Err(RealityError::CertRejected) => false,
        },
{
    if short_id.len() > SID_SHORT_ID_LEN {
        return Err(RealityError::ShortIdTooLong);
    }
    if hello_with_zeroed_sid.len() < SESSION_ID_OFFSET + SID_WIRE_LEN {
        return Err(RealityError::Layout);
    }
    let mut plain: Vec<u8> = Vec::new();
    plain.extend_from_slice(&version);
    plain.push(0);
    push_u32(&mut plain, unix_time);
    plain.extend_from_slice(short_id);
    let missing: usize = SID_SHORT_ID_LEN - short_id.len();
    let padding: Vec<u8> = vec![0u8; missing];
    plain.extend_from_slice(&padding);
    assert(plain@ =~= sid_plain(version@, unix_time, short_id@));
    proof {
        law_sid_plain_round_trip(version@, unix_time, short_id@);
    }
    let nonce = copy_range(random, RANDOM_SALT_LEN, 32);
    match aes256_gcm_seal(aead_key, &nonce, hello_with_zeroed_sid, &plain) {
        Some(sealed) => Ok(array32(&sealed)),
        None => Err(RealityError::SessionIdRejected),
    }
}

/// Opens a session id received from the wire. The additional data is the
/// received hello with the session id zeroed, exactly as sealed.
pub fn unseal_session_id(
    aead_key: &[u8; 32],
    random: &[u8; 32],
    hello_with_zeroed_sid: &[u8],
    session_id: &[u8; 32],
) -> (r: Result<SessionIdPlain, RealityError>)
    ensures
        match r {
            Ok(plain) => unsealed(aead_key@, random@, hello_with_zeroed_sid@, session_id@) == Ok::<
                _,
                RealityError,
            >(plain@),
            Err(e) => unsealed(aead_key@, random@, hello_with_zeroed_sid@, session_id@) == Err::<
                SidView,
                _,
            >(e),
        },
{
    if hello_with_zeroed_sid.len() < SESSION_ID_OFFSET + SID_WIRE_LEN {
        return Err(RealityError::Layout);
    }
    let nonce = copy_range(random, RANDOM_SALT_LEN, 32);
    match aes256_gcm_open(aead_key, &nonce, hello_with_zeroed_sid, session_id) {
        None => Err(RealityError::SessionIdRejected),
        Some(plain) => {
            let hi: u32 = plain[4] as u32 * 256 + plain[5] as u32;
            let lo: u32 = plain[6] as u32 * 256 + plain[7] as u32;
            let out = SessionIdPlain {
                client_version: [plain[0], plain[1], plain[2]],
                unix_time: hi * 0x1_0000 + lo,
                short_id: [
                    plain[8],
                    plain[9],
                    plain[10],
                    plain[11],
                    plain[12],
                    plain[13],
                    plain[14],
                    plain[15],
                ],
            };
            assert(out.client_version@ =~= plain@.take(3));
            assert(out.short_id@ =~= plain@.subrange(8, 16));
            Ok(out)
        },
    }
}

/// Builds the server's temporary trusted certificate for one session, around a
/// fresh key.
///
/// Wire shape: a 32-byte public key, then the 64-byte HMAC-SHA512 of it under
/// the AuthKey, standing in for the signature.
pub fn temporary_certificate(auth_key_bytes: &[u8; 32]) -> (r: [u8; 96])
    ensures
        certificate_ok(auth_key_bytes@, r@),
        exists|secret: Seq<u8>|
            secret.len() == 32 && r@ == certificate_of(
                auth_key_bytes@,
                #[trigger] x25519_public_of(secret),
            ),
{
    let secret = random_secret();
    certificate_around(auth_key_bytes, &secret)
}

/// The temporary trusted certificate around a given signing secret.
pub fn temporary_certificate_with(auth_key_bytes: &[u8; 32], secret: &[u8; 32]) -> (r: [u8; 96])
    ensures
        r@ == certificate_of(auth_key_bytes@, x25519_public_of(secret@)),
        certificate_ok(auth_key_bytes@, r@),
{
    let signing = secret_from(*secret);
    certificate_around(auth_key_bytes, &signing)
}

/// The temporary trusted certificate around a signing secret.
fn certificate_around(auth_key_bytes: &[u8; 32], secret: &StaticSecret) -> (r: [u8; 96])
    ensures
        r@ == certificate_of(auth_key_bytes@, x25519_public_of(secret_bytes_of(*secret))),
        certificate_ok(auth_key_bytes@, r@),
{
    let public = x25519_public(secret);
    let tag = hmac_sha512(auth_key_bytes, &public);
    let mut out = [0u8; 96];
    let mut i: usize = 0;
    while i < 96
        invariant
            i <= 96,
            forall|k: int|
                0 <= k < i ==> out@[k] == (if k < 32 {
                    public@[k]
                } else {
                    tag@[k - 32]
                }),
        decreases 96 - i,
    {
        out[i] = if i < 32 {
            public[i]
        } else {
            tag[i - 32]
        };
        i += 1;
    }
    assert(out@ =~= certificate_of(auth_key_bytes@, public@));
    proof {
        law_issued_certificate_is_ok(auth_key_bytes@, public@);
    }
    out
}

/// Client-side check that a certificate is the server's temporary trusted one:
/// HMAC-SHA512(AuthKey, public key) must equal the claimed signature.
pub fn verify_temporary_certificate(auth_key_bytes: &[u8; 32], certificate: &[u8]) -> (r: Result<
    (),
    RealityError,
>)
    ensures
        r == (if certificate_ok(auth_key_bytes@, certificate@) {
            Ok::<(), RealityError>(())
        } else {
            Err(RealityError::CertRejected)
        }),
{
    if certificate.len() != CERT_LEN {
        return Err(RealityError::CertRejected);
    }
    let public = copy_range(certificate, 0, 32);
    let tag = hmac_sha512(auth_key_bytes, &public);
    let claimed = copy_range(certificate, 32, CERT_LEN);
    assert(public@ =~= certificate@.take(32));
    assert(claimed@ =~= certificate@.skip(32));
    // Folded compare over the fixed 64-byte tag: every byte is looked at.
    let mut ok = true;
    let mut i: usize = 0;
    while i < 64
        invariant
            i <= 64,
            claimed@.len() == 64,
            ok == forall|k: int| 0 <= k < i ==> tag@[k] == claimed@[k],
        decreases 64 - i,
    {
        if tag[i] != claimed[i] {
            ok = false;
        }
        i += 1;
    }
    assert(ok == (claimed@ =~= tag@));
    if ok {
        Ok(())
    } else {
        Err(RealityError::CertRejected)
    }
}

/// The server's ephemeral TLS key share, fresh per connection, so record keys
/// get forward secrecy.
pub struct ServerEphemeral {
    secret: StaticSecret,
    pub public: [u8; 32],
}

impl ServerEphemeral {
    /// The secret half of the share.
    pub closed spec fn secret_bytes(&self) -> Seq<u8> {
        secret_bytes_of(self.secret)
    }

    /// The public half of the share.
    pub closed spec fn public_bytes(&self) -> Seq<u8> {
        self.public@
    }

    /// The public half belongs to the secret half.
    pub open spec fn wf(&self) -> bool {
        self.secret_bytes().len() == 32 && self.public_bytes() == x25519_public_of(
            self.secret_bytes(),
        )
    }

    /// A fresh key share.
    pub fn generate() -> (r: ServerEphemeral)
        ensures
            r.wf(),
    {
        ServerEphemeral::around(random_secret())
    }

    /// The key share of a given secret.
    pub fn from_secret(secret: [u8; 32]) -> (r: ServerEphemeral)
        ensures
            r.wf(),
            r.secret_bytes() == secret@,
    {
        ServerEphemeral::around(secret_from(secret))
    }

    /// The key share around a secret.
    fn around(secret: StaticSecret) -> (r: ServerEphemeral)
        requires
            secret_bytes_of(secret).len() == 32,
        ensures
            r.wf(),
            r.secret_bytes() == secret_bytes_of(secret),
    {
        let public = x25519_public(&secret);
        ServerEphemeral { secret, public }
    }

    /// The public half of the share, to be sent to the client.
    pub fn public_key(&self) -> (r: [u8; 32])
        ensures
            r@ == self.public_bytes(),
    {
        self.public
    }

    /// The shared secret X25519(server_ephemeral, client_ephemeral). A client
    /// that holds the secret of its share computes the same one from the public
    /// half of this share.
    pub fn shared_secret(&self, client_ephemeral: &[u8; 32]) -> (r: [u8; 32])
        ensures
            r@ == x25519_shared_of(self.secret_bytes(), client_ephemeral@),
            self.wf() ==> forall|client: Seq<u8>|
                client.len() == 32 && #[trigger] x25519_public_of(client) == client_ephemeral@
                    ==> r@ == x25519_shared_of(client, self.public_bytes()),
    {
        x25519_shared(&self.secret, client_ephemeral)
    }
}

/// Identity hash over the session: SHA-256 over the sealed session id and the
/// shared secret. It binds record keys to the authenticated session.
pub fn session_identity(session_id: &[u8; 32], shared_secret: &[u8; 32]) -> (r: [u8; 32])
    ensures
        r@ == sha256_of(session_id@ + shared_secret@),
{
    let mut data: Vec<u8> = Vec::new();
    data.extend_from_slice(session_id);
    data.extend_from_slice(shared_secret);
    assert(data@ =~= session_id@ + shared_secret@);
    sha256(&data)
}

} // verus!
