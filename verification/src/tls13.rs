//! A TLS 1.3 client core: enough of RFC 8446 to complete a handshake with a
//! genuine TLS 1.3 server and exchange application data.
//!
//! - handshake transcript hash and key schedule for both directions
//! - ServerHello parsing (x25519 key share, negotiated suite)
//! - the encrypted server flight: EncryptedExtensions, Certificate,
//!   CertificateVerify with RSA signatures, Finished
//! - client Finished and application-data records
//!
//! Out of scope: session resumption, client certificates, KeyUpdate,
//! HelloRetryRequest, ECDSA CertificateVerify, and web-PKI verification.

use vstd::prelude::*;

use crate::bytes::{
    array32, ascii, be16, be24, bytes_eq, copy_range, copy_slice, law_big_endian, lemma_be16_sum, low16, low8, push_u16, u16_at,
    u24_at, zeros, Reader,
};
use crate::crypto::{opt_bytes, TAG_LEN};
use crate::schedule::{
    cipher_from_key, derive_secret, derived, digest_of, finished_key, finished_of, hkdf_extract,
    hmac_hash, inner_of, key_iv_from_secret, law_inner_round_trip, mac_of, open_of, record_nonce,
    record_nonce_of, seal_of, sealable, strip_inner_padding, suite_answers, suite_of, traffic_iv,
    traffic_key, CipherSuite, HashAlg, RecordCipher, Transcript, IV_LEN,
};
use crate::tls::{opt_array, EXT_KEY_SHARE, GROUP_X25519};
use crate::x509::{
    cert_chain, chain_view, parse_certificate_entry_bodies, verified, verify_certificate_verify,
};

verus! {

/// Record content type: handshake.
pub const CONTENT_HANDSHAKE: u8 = 0x16;

/// Record content type: application data.
pub const CONTENT_APPDATA: u8 = 0x17;

/// Record content type: alert.
pub const CONTENT_ALERT: u8 = 0x15;

/// Record content type: ChangeCipherSpec.
pub const CONTENT_CHANGE_CIPHER_SPEC: u8 = 0x14;

/// Handshake message type: ServerHello.
pub const HS_SERVER_HELLO: u8 = 0x02;

/// Handshake message type: EncryptedExtensions.
pub const HS_ENCRYPTED_EXTENSIONS: u8 = 0x08;

/// Handshake message type: Certificate.
pub const HS_CERTIFICATE: u8 = 0x0b;

/// Handshake message type: CertificateVerify.
pub const HS_CERTIFICATE_VERIFY: u8 = 0x0f;

/// Handshake message type: Finished.
pub const HS_FINISHED: u8 = 0x14;

/// The context of a server signature: the bytes of
/// `TLS 1.3, server CertificateVerify` and a zero byte.
pub const VERIFY_CONTEXT: [u8; 34] = [
    0x54, 0x4c, 0x53, 0x20, 0x31, 0x2e, 0x33, 0x2c, 0x20, 0x73, 0x65, 0x72, 0x76, 0x65, 0x72, 0x20,
    0x43, 0x65, 0x72, 0x74, 0x69, 0x66, 0x69, 0x63, 0x61, 0x74, 0x65, 0x56, 0x65, 0x72, 0x69, 0x66,
    0x79, 0x00,
];

/// Why a TLS 1.3 step failed.
#[derive(Debug, Clone, Copy, PartialEq, Eq, Structural)]
pub enum Tls13Error {
    Truncated,
    BadRecord,
    BadHandshake,
    /// ServerHello offered no x25519 key share.
    NoKeyShare,
    /// Server negotiated a suite we do not support.
    BadCipherSuite,
    /// AEAD open failed: wrong keys or tampering.
    DecryptFailed,
    /// Server Finished did not match the transcript.
    FinishedMismatch,
    /// CertificateVerify signature did not verify.
    CertVerifyRejected,
    /// Signature scheme or key type unsupported.
    BadScheme,
    /// A record type appeared where it cannot.
    UnexpectedRecord,
}

impl Tls13Error {
    /// The text of each error.
    pub open spec fn text(self) -> Seq<char> {
        match self {
            Tls13Error::Truncated => "TLS record is truncated"@,
            Tls13Error::BadRecord => "malformed TLS record"@,
            Tls13Error::BadHandshake => "malformed TLS handshake message"@,
            Tls13Error::NoKeyShare => "server offered no x25519 key share"@,
            Tls13Error::BadCipherSuite => "server negotiated an unsupported suite"@,
            Tls13Error::DecryptFailed => "record failed to decrypt"@,
            Tls13Error::FinishedMismatch => "server Finished verification failed"@,
            Tls13Error::CertVerifyRejected => "certificate signature rejected"@,
            Tls13Error::BadScheme => "unsupported signature scheme"@,
            Tls13Error::UnexpectedRecord => "unexpected record type"@,
        }
    }

    /// A fixed description.
    pub fn message(&self) -> (r: &'static str)
        ensures
            r@ == self.text(),
    {
        match self {
            Tls13Error::Truncated => "TLS record is truncated",
            Tls13Error::BadRecord => "malformed TLS record",
            Tls13Error::BadHandshake => "malformed TLS handshake message",
            Tls13Error::NoKeyShare => "server offered no x25519 key share",
            Tls13Error::BadCipherSuite => "server negotiated an unsupported suite",
            Tls13Error::DecryptFailed => "record failed to decrypt",
            Tls13Error::FinishedMismatch => "server Finished verification failed",
            Tls13Error::CertVerifyRejected => "certificate signature rejected",
            Tls13Error::BadScheme => "unsupported signature scheme",
            Tls13Error::UnexpectedRecord => "unexpected record type",
        }
    }
}

// ---------------------------------------------------------------------------
// ServerHello
// ---------------------------------------------------------------------------

/// What a ServerHello record holds.
#[verifier::ext_equal]
pub struct ServerHelloView {
    pub suite: CipherSuite,
    pub share: Option<Seq<u8>>,
    /// The handshake message, which enters the transcript.
    pub message: Seq<u8>,
}

/// The share after a key_share extension: a single entry, without a list around
/// it.
pub open spec fn server_share_in(data: Seq<u8>, share: Option<Seq<u8>>) -> Option<
    Option<Seq<u8>>,
> {
    if data.len() < 4 || data.len() < 4 + u16_at(data, 2) {
        None
    } else if u16_at(data, 0) == GROUP_X25519 && u16_at(data, 2) == 32 {
        Some(Some(data.subrange(4, 36)))
    } else {
        Some(share)
    }
}

/// The x25519 share among `left` bytes of ServerHello extensions; the last one
/// counts.
pub open spec fn server_extensions(s: Seq<u8>, left: int, share: Option<Seq<u8>>) -> Option<
    Option<Seq<u8>>,
>
    decreases s.len(),
{
    if left <= 0 {
        Some(share)
    } else if s.len() < 4 || s.len() < 4 + u16_at(s, 2) {
        None
    } else {
        let n = u16_at(s, 2);
        let next = if u16_at(s, 0) == EXT_KEY_SHARE {
            server_share_in(s.subrange(4, 4 + n), share)
        } else {
            Some(share)
        };
        match next {
            None => None,
            Some(found) => server_extensions(s.skip(4 + n), left - 4 - n, found),
        }
    }
}

/// What a ServerHello message holds, behind its type and length.
pub open spec fn server_hello_fields(message: Seq<u8>) -> Result<ServerHelloView, Tls13Error> {
    let s = message.skip(4);
    if message.len() < 4 || s.len() < 35 || s.len() < 37 + s[34] {
        Err(Tls13Error::Truncated)
    } else {
        let at = 35 + s[34] as int;
        match suite_of(u16_at(s, at)) {
            None => Err(Tls13Error::BadCipherSuite),
            Some(suite) => if s.len() < at + 5 {
                Err(Tls13Error::Truncated)
            } else {
                match server_extensions(s.skip(at + 5), u16_at(s, at + 3), None) {
                    None => Err(Tls13Error::Truncated),
                    Some(share) => Ok(ServerHelloView { suite, share, message }),
                }
            },
        }
    }
}

/// What a ServerHello record holds, or the first thing wrong with it.
pub open spec fn server_hello_of(wire: Seq<u8>) -> Result<ServerHelloView, Tls13Error> {
    if wire.len() < 5 || wire[0] != CONTENT_HANDSHAKE {
        Err(Tls13Error::BadRecord)
    } else if wire.len() < 5 + u16_at(wire, 3) {
        Err(Tls13Error::Truncated)
    } else {
        let body = wire.subrange(5, 5 + u16_at(wire, 3));
        if body.len() == 0 || body[0] != HS_SERVER_HELLO {
            Err(Tls13Error::BadHandshake)
        } else {
            server_hello_fields(body)
        }
    }
}

/// A parsed ServerHello.
struct ServerHello {
    suite: CipherSuite,
    share: Option<[u8; 32]>,
    message: Vec<u8>,
}

/// Reads a single key share entry.
fn read_server_share(data: &[u8], share: Option<[u8; 32]>) -> (r: Result<
    Option<[u8; 32]>,
    Tls13Error,
>)
    ensures
        match r {
            Ok(s) => server_share_in(data@, opt_array(share)) == Some(opt_array(s)),
            Err(e) => e == Tls13Error::Truncated && server_share_in(data@, opt_array(share)) is None,
        },
{
    let mut ks = Reader::new(data);
    let group = ks.u16().ok_or(Tls13Error::Truncated)?;
    let klen = ks.u16().ok_or(Tls13Error::Truncated)? as usize;
    let key = ks.take(klen).ok_or(Tls13Error::Truncated)?;
    if group == GROUP_X25519 && klen == 32 {
        assert(key@ =~= data@.subrange(4, 36));
        return Ok(Some(array32(key)));
    }
    Ok(share)
}

/// Reads a ServerHello record.
fn read_server_hello(wire: &[u8]) -> (r: Result<ServerHello, Tls13Error>)
    ensures
        match r {
            Ok(h) => server_hello_of(wire@) == Ok::<_, Tls13Error>(
                ServerHelloView {
                    suite: h.suite,
                    share: opt_array(h.share),
                    message: h.message@,
                },
            ),
            Err(e) => server_hello_of(wire@) == Err::<ServerHelloView, _>(e),
        },
{
    if wire.len() < 5 || wire[0] != CONTENT_HANDSHAKE {
        return Err(Tls13Error::BadRecord);
    }
    let rec_len: usize = wire[3] as usize * 256 + wire[4] as usize;
    if wire.len() - 5 < rec_len {
        return Err(Tls13Error::Truncated);
    }
    let message = copy_range(wire, 5, 5 + rec_len);
    if message.len() == 0 || message[0] != HS_SERVER_HELLO {
        return Err(Tls13Error::BadHandshake);
    }
    if message.len() < 4 {
        return Err(Tls13Error::Truncated);
    }
    let mut sh = Reader { buf: message.as_slice(), pos: 4 };
    let ghost s = message@.skip(4);
    let _legacy_version = sh.take(2).ok_or(Tls13Error::Truncated)?;
    let _random = sh.take(32).ok_or(Tls13Error::Truncated)?;
    let sid_len = sh.u8().ok_or(Tls13Error::Truncated)? as usize;
    assert(sid_len == s[34]);
    let _session_id = sh.take(sid_len).ok_or(Tls13Error::Truncated)?;
    let negotiated = sh.u16().ok_or(Tls13Error::Truncated)?;
    let ghost at = 35 + sid_len as int;
    assert(negotiated == u16_at(s, at));
    let suite = CipherSuite::from_u16(negotiated).ok_or(Tls13Error::BadCipherSuite)?;
    let _compression = sh.u8().ok_or(Tls13Error::Truncated)?;
    let ext_total = sh.u16().ok_or(Tls13Error::Truncated)? as usize;
    assert(ext_total == u16_at(s, at + 3));
    assert(sh.rest() =~= s.skip(at + 5));
    let mut read: usize = 0;
    let mut share: Option<[u8; 32]> = None;
    let ghost whole = server_extensions(sh.rest(), ext_total as int, None);
    assert(server_hello_of(wire@) == (match whole {
        None => Err(Tls13Error::Truncated),
        Some(found) => Ok(ServerHelloView { suite, share: found, message: message@ }),
    }));
    while read < ext_total
        invariant
            sh.wf(),
            ext_total < 0x1_0000,
            read <= ext_total + 0x1_0004,
            whole == server_extensions(sh.rest(), ext_total - read, opt_array(share)),
            server_hello_of(wire@) == (match whole {
                None => Err(Tls13Error::Truncated),
                Some(found) => Ok(ServerHelloView { suite, share: found, message: message@ }),
            }),
        decreases sh.rest().len(),
    {
        let ghost rest = sh.rest();
        let t = sh.u16().ok_or(Tls13Error::Truncated)?;
        let l = sh.u16().ok_or(Tls13Error::Truncated)? as usize;
        let data = sh.take(l).ok_or(Tls13Error::Truncated)?;
        assert(data@ =~= rest.subrange(4, 4 + l as int));
        assert(sh.rest() =~= rest.skip(4 + l as int));
        read += 4 + l;
        if t == EXT_KEY_SHARE {
            share = read_server_share(data, share)?;
        }
    }
    Ok(ServerHello { suite, share, message })
}

// ---------------------------------------------------------------------------
// Protected records
// ---------------------------------------------------------------------------

/// One direction of record protection: key, IV and the next sequence number.
#[verifier::ext_equal]
pub struct KeyView {
    pub suite: CipherSuite,
    pub key: Seq<u8>,
    pub iv: Seq<u8>,
    pub seq: u64,
}

/// The record protection of a traffic secret, at its start.
pub open spec fn traffic_keys(suite: CipherSuite, secret: Seq<u8>) -> KeyView {
    KeyView { suite, key: traffic_key(suite, secret), iv: traffic_iv(suite, secret), seq: 0 }
}

/// The same protection one record later.
pub open spec fn advanced(k: KeyView) -> KeyView {
    KeyView { seq: (k.seq + 1) as u64, ..k }
}

/// The header of a protected record around `inner_len` bytes.
pub open spec fn record_header(inner_len: int) -> Seq<u8> {
    seq![CONTENT_APPDATA, 3, 3] + be16(inner_len)
}

/// The content type and payload of a protected record. The header is the
/// additional data.
pub open spec fn opened(k: KeyView, wire: Seq<u8>) -> Result<(u8, Seq<u8>), Tls13Error> {
    match open_of(
        k.suite,
        k.key,
        record_nonce_of(k.iv, k.seq),
        wire.take(5),
        wire.subrange(5, 5 + u16_at(wire, 3)),
    ) {
        None => Err(Tls13Error::DecryptFailed),
        Some(plain) => match inner_of(plain) {
            None => Err(Tls13Error::BadRecord),
            Some(inner) => Ok(inner),
        },
    }
}

/// A protected record around a payload and its content type.
pub open spec fn sealed_record(k: KeyView, payload: Seq<u8>, content_type: u8) -> Option<Seq<u8>> {
    let header = record_header(payload.len() + 1 + TAG_LEN);
    match seal_of(
        k.suite,
        k.key,
        record_nonce_of(k.iv, k.seq),
        header,
        payload.push(content_type),
    ) {
        None => None,
        Some(sealed) => Some(header + sealed),
    }
}

/// One direction of record protection.
struct RecordKey {
    cipher: RecordCipher,
    iv: Vec<u8>,
    seq: u64,
}

impl RecordKey {
    #[verifier::type_invariant]
    spec fn inv(&self) -> bool {
        self.iv@.len() == IV_LEN
    }

    spec fn key_view(&self) -> KeyView {
        KeyView {
            suite: self.cipher.suite_view(),
            key: self.cipher.key_view(),
            iv: self.iv@,
            seq: self.seq,
        }
    }

    /// The record protection of a traffic secret.
    fn from_secret(suite: CipherSuite, secret: &[u8]) -> (r: Result<RecordKey, Tls13Error>)
        ensures
            r matches Ok(k) && k.key_view() == traffic_keys(suite, secret@),
    {
        let (key, iv) = key_iv_from_secret(suite, secret);
        let cipher = cipher_from_key(suite, &key)?;
        Ok(RecordKey { cipher, iv, seq: 0 })
    }

    /// Opens the record that the header of `wire` declares.
    fn open_next(&mut self, wire: &[u8]) -> (r: Result<(u8, Vec<u8>), Tls13Error>)
        requires
            wire@.len() >= 5,
            wire@.len() >= 5 + u16_at(wire@, 3),
            old(self).seq < u64::MAX,
        ensures
            final(self).key_view() == advanced(old(self).key_view()),
            match r {
                Ok((ct, payload)) => opened(old(self).key_view(), wire@) == Ok::<_, Tls13Error>(
                    (ct, payload@),
                ),
                Err(e) => opened(old(self).key_view(), wire@) == Err::<(u8, Seq<u8>), _>(e),
            },
    {
        proof {
            use_type_invariant(&*self);
        }
        let rec_len: usize = wire[3] as usize * 256 + wire[4] as usize;
        let aad = &wire[0..5];
        assert(aad@ =~= wire@.take(5));
        let inner = &wire[5..5 + rec_len];
        let nonce = record_nonce(&self.iv, self.seq);
        self.seq = self.seq + 1;
        let plain = self.cipher.open(&nonce, inner, aad)?;
        let (ct, payload) = strip_inner_padding(&plain)?;
        Ok((ct, copy_slice(payload)))
    }

    /// Seals one record. Whoever holds the same protection opens it to the
    /// payload, as long as the record length fits its field.
    fn seal_next(&mut self, payload: &[u8], content_type: u8) -> (r: Result<Vec<u8>, Tls13Error>)
        requires
            old(self).seq < u64::MAX,
            suite_answers(old(self).key_view().suite, payload@.len() as int + 1),
        ensures
            final(self).key_view() == advanced(old(self).key_view()),
            match r {
                Ok(record) => {
                    &&& sealable(old(self).key_view().suite, payload@.len() as int + 1, 5)
                    &&& Some(record@) == sealed_record(
                        old(self).key_view(),
                        payload@,
                        content_type,
                    )
                    &&& payload@.len() + 17 <= 0xFFFF && content_type != 0 ==> opened(
                        old(self).key_view(),
                        record@,
                    ) == Ok::<_, Tls13Error>((content_type, payload@))
                },
                Err(e) => e == Tls13Error::DecryptFailed && !sealable(
                    old(self).key_view().suite,
                    payload@.len() as int + 1,
                    5,
                ),
            },
    {
        proof {
            use_type_invariant(&*self);
        }
        let mut record = header_for(payload.len());
        let ghost header = record@;
        let mut inner = copy_slice(payload);
        inner.push(content_type);
        let nonce = record_nonce(&self.iv, self.seq);
        self.seq = self.seq + 1;
        let sealed = self.cipher.seal(&nonce, &inner, &record)?;
        record.extend_from_slice(&sealed);
        proof {
            assert(record@ =~= header + sealed@);
            if payload@.len() + 17 <= 0xFFFF && content_type != 0 {
                lemma_sealed_opens(old(self).key_view(), sealed@, payload@, content_type);
            }
        }
        Ok(record)
    }
}

/// The header of a protected record around a payload of this length.
fn header_for(payload_len: usize) -> (r: Vec<u8>)
    ensures
        r@ == record_header(payload_len + 1 + TAG_LEN),
        r@.len() == 5,
{
    let mut record: Vec<u8> = Vec::new();
    record.push(CONTENT_APPDATA);
    record.push(0x03);
    record.push(0x03);
    push_u16(&mut record, low16(payload_len % 0x1_0000 + 1 + TAG_LEN));
    proof {
        lemma_be16_sum(payload_len as int, 17);
    }
    assert(record@ =~= record_header(payload_len + 1 + TAG_LEN));
    record
}

/// A record around a sealed payload opens to the payload.
proof fn lemma_sealed_opens(k: KeyView, sealed: Seq<u8>, payload: Seq<u8>, content_type: u8)
    requires
        content_type != 0,
        payload.len() + 17 <= 0xFFFF,
        sealed.len() == payload.len() + 17,
        open_of(
            k.suite,
            k.key,
            record_nonce_of(k.iv, k.seq),
            record_header(payload.len() + 1 + TAG_LEN),
            sealed,
        ) == Some(payload.push(content_type)),
    ensures
        opened(k, record_header(payload.len() + 1 + TAG_LEN) + sealed) == Ok::<_, Tls13Error>(
            (content_type, payload),
        ),
{
    let n = payload.len() as int + 17;
    let header = record_header(n);
    let w = header + sealed;
    assert(header[3] == be16(n)[0] && header[4] == be16(n)[1]);
    assert(w[3] == header[3] && w[4] == header[4]);
    assert(u16_at(w, 3) == n);
    assert(w.take(5) =~= header);
    assert(w.subrange(5, 5 + n) =~= sealed);
    law_inner_round_trip(payload, content_type, 0);
    assert(payload.push(content_type) + zeros(0) =~= payload.push(content_type));
}

// ---------------------------------------------------------------------------
// The server flight
// ---------------------------------------------------------------------------

/// A CertificateVerify message: scheme, signature, and what was signed.
#[verifier::ext_equal]
pub struct VerifyView {
    pub scheme: u16,
    pub sig: Seq<u8>,
    pub tbs: Seq<u8>,
}

/// What a flight has gathered.
#[verifier::ext_equal]
pub struct FlightView {
    /// Handshake bytes not taken yet.
    pub pending: Seq<u8>,
    pub chain: Seq<Seq<u8>>,
    pub verify: Option<VerifyView>,
    pub finished: bool,
}

/// A flight before its first record.
pub open spec fn empty_flight() -> FlightView {
    FlightView { pending: Seq::empty(), chain: Seq::empty(), verify: None, finished: false }
}

/// Whether a whole handshake message is pending.
pub open spec fn message_ready(pending: Seq<u8>) -> bool {
    pending.len() >= 4 && pending.len() >= 4 + u24_at(pending, 1)
}

/// What the server signs: 64 spaces, the context, and the transcript hash.
pub open spec fn signed_bytes(th: Seq<u8>) -> Seq<u8> {
    Seq::new(64, |i: int| 0x20u8) + VERIFY_CONTEXT@ + th
}

/// A CertificateVerify body over a transcript hash.
pub open spec fn verify_message(body: Seq<u8>, th: Seq<u8>) -> Option<VerifyView> {
    if body.len() < 4 || body.len() < 4 + u16_at(body, 2) {
        None
    } else {
        Some(
            VerifyView {
                scheme: u16_at(body, 0) as u16,
                sig: body.subrange(4, 4 + u16_at(body, 2)),
                tbs: signed_bytes(th),
            },
        )
    }
}

/// What one handshake message does to a flight. `th` is the transcript hash in
/// front of the message, `expected` the Finished data that fits it. Message
/// types that are not interpreted are skipped.
pub open spec fn handled(
    f: FlightView,
    kind: u8,
    body: Seq<u8>,
    th: Seq<u8>,
    expected: Option<Seq<u8>>,
) -> Result<FlightView, Tls13Error> {
    if kind == HS_CERTIFICATE {
        match cert_chain(body) {
            None => Err(Tls13Error::Truncated),
            Some(chain) => Ok(FlightView { chain, ..f }),
        }
    } else if kind == HS_CERTIFICATE_VERIFY {
        match verify_message(body, th) {
            None => Err(Tls13Error::BadHandshake),
            Some(v) => Ok(FlightView { verify: Some(v), ..f }),
        }
    } else if kind == HS_FINISHED {
        match expected {
            None => Err(Tls13Error::BadHandshake),
            Some(data) => if body == data {
                Ok(FlightView { finished: true, ..f })
            } else {
                Err(Tls13Error::FinishedMismatch)
            },
        }
    } else {
        Ok(f)
    }
}

/// A CertificateVerify message.
pub struct VerifyMessage {
    pub scheme: u16,
    pub sig: Vec<u8>,
    pub tbs: Vec<u8>,
}

/// What a server flight has gathered so far.
pub struct Flight {
    pub pending: Vec<u8>,
    pub chain: Vec<Vec<u8>>,
    pub verify: Option<VerifyMessage>,
    pub finished: bool,
}

impl View for Flight {
    type V = FlightView;

    open spec fn view(&self) -> FlightView {
        FlightView {
            pending: self.pending@,
            chain: chain_view(self.chain@),
            verify: match self.verify {
                Some(v) => Some(VerifyView { scheme: v.scheme, sig: v.sig@, tbs: v.tbs@ }),
                None => None,
            },
            finished: self.finished,
        }
    }
}

impl Flight {
    /// A flight before its first record.
    pub fn new() -> (r: Flight)
        ensures
            r@ == empty_flight(),
    {
        let r = Flight { pending: Vec::new(), chain: Vec::new(), verify: None, finished: false };
        assert(r@ =~= empty_flight());
        r
    }

    /// Whether a whole handshake message is pending.
    pub fn ready(&self) -> (r: bool)
        ensures
            r == message_ready(self@.pending),
    {
        self.pending.len() >= 4 && self.pending.len() - 4 >= self.pending[1] as usize * 0x1_0000
            + self.pending[2] as usize * 256 + self.pending[3] as usize
    }

    /// Takes the content of one record in.
    pub fn absorb(&mut self, content_type: u8, payload: &[u8]) -> (r: Result<(), Tls13Error>)
        ensures
            content_type == CONTENT_HANDSHAKE ==> r == Ok::<(), Tls13Error>(()) && final(self)@ == (
            FlightView { pending: old(self)@.pending + payload@, ..old(self)@ }),
            content_type != CONTENT_HANDSHAKE ==> r == Err::<(), _>(Tls13Error::UnexpectedRecord)
                && *final(self) == *old(self),
    {
        if content_type != CONTENT_HANDSHAKE {
            return Err(Tls13Error::UnexpectedRecord);
        }
        self.pending.extend_from_slice(payload);
        assert(self.pending@ =~= old(self)@.pending + payload@);
        Ok(())
    }

    /// Takes the next whole handshake message off the pending bytes, with its
    /// type and length in front.
    pub fn take_message(&mut self) -> (r: Option<Vec<u8>>)
        ensures
            match r {
                None => !message_ready(old(self)@.pending) && *final(self) == *old(self),
                Some(m) => {
                    let n = 4 + u24_at(old(self)@.pending, 1);
                    &&& message_ready(old(self)@.pending)
                    &&& m@ == old(self)@.pending.take(n)
                    &&& final(self)@ == (FlightView {
                        pending: old(self)@.pending.skip(n),
                        ..old(self)@
                    })
                },
            },
    {
        if !self.ready() {
            return None;
        }
        let n: usize = 4 + (self.pending[1] as usize * 0x1_0000 + self.pending[2] as usize * 256
            + self.pending[3] as usize);
        let message = copy_range(&self.pending, 0, n);
        let rest = copy_range(&self.pending, n, self.pending.len());
        assert(message@ =~= self.pending@.take(n as int));
        assert(rest@ =~= self.pending@.skip(n as int));
        self.pending = rest;
        Some(message)
    }

    /// Applies one handshake message. A message that is refused leaves the
    /// flight as it was.
    pub fn handle(
        &mut self,
        kind: u8,
        body: &[u8],
        transcript_hash: &[u8],
        expected: Option<Vec<u8>>,
    ) -> (r: Result<(), Tls13Error>)
        ensures
            match handled(
                old(self)@,
                kind,
                body@,
                transcript_hash@,
                opt_bytes(expected),
            ) {
                Ok(f) => r == Ok::<(), Tls13Error>(()) && final(self)@ == f,
                Err(e) => r == Err::<(), _>(e) && *final(self) == *old(self),
            },
    {
        if kind == HS_CERTIFICATE {
            self.chain = parse_certificate_entry_bodies(body)?;
        } else if kind == HS_CERTIFICATE_VERIFY {
            if body.len() < 4 {
                return Err(Tls13Error::BadHandshake);
            }
            let scheme: u16 = body[0] as u16 * 256 + body[1] as u16;
            let sig_len: usize = body[2] as usize * 256 + body[3] as usize;
            if body.len() - 4 < sig_len {
                return Err(Tls13Error::BadHandshake);
            }
            let sig = copy_range(body, 4, 4 + sig_len);
            let mut tbs: Vec<u8> = vec![0x20u8; 64];
            tbs.extend_from_slice(&VERIFY_CONTEXT);
            tbs.extend_from_slice(transcript_hash);
            assert(tbs@ =~= signed_bytes(transcript_hash@));
            self.verify = Some(VerifyMessage { scheme, sig, tbs });
        } else if kind == HS_FINISHED {
            let data = expected.ok_or(Tls13Error::BadHandshake)?;
            if !bytes_eq(body, &data) {
                return Err(Tls13Error::FinishedMismatch);
            }
            self.finished = true;
        }
        Ok(())
    }
}

// ---------------------------------------------------------------------------
// The client
// ---------------------------------------------------------------------------

/// A handshake transcript: its hash and its messages.
#[verifier::ext_equal]
pub struct TranscriptView {
    pub alg: HashAlg,
    pub messages: Seq<u8>,
}

impl TranscriptView {
    /// The hash of the messages.
    pub open spec fn hash(self) -> Seq<u8> {
        digest_of(self.alg, self.messages)
    }

    /// The transcript with a message more.
    pub open spec fn with(self, message: Seq<u8>) -> TranscriptView {
        TranscriptView { messages: self.messages + message, ..self }
    }
}

/// The state of a client.
#[verifier::ext_equal]
pub struct ClientView {
    pub suite: Option<CipherSuite>,
    pub transcript: Option<TranscriptView>,
    pub hello: Option<Seq<u8>>,
    pub early_secret: Option<Seq<u8>>,
    pub handshake_secret: Option<Seq<u8>>,
    pub master_secret: Option<Seq<u8>>,
    pub chts: Option<Seq<u8>>,
    pub shts: Option<Seq<u8>>,
    pub cets: Option<Seq<u8>>,
    pub sets: Option<Seq<u8>>,
    pub hs_read: Option<KeyView>,
    pub hs_write: Option<KeyView>,
    pub app_read: Option<KeyView>,
    pub app_write: Option<KeyView>,
}

impl ClientView {
    /// Once a suite is negotiated there are a transcript and an early secret.
    pub open spec fn wf(self) -> bool {
        self.suite is Some ==> self.transcript is Some && self.early_secret is Some
    }
}

/// A client before its hello.
pub open spec fn new_client() -> ClientView {
    ClientView {
        suite: None,
        transcript: None,
        hello: None,
        early_secret: None,
        handshake_secret: None,
        master_secret: None,
        chts: None,
        shts: None,
        cets: None,
        sets: None,
        hs_read: None,
        hs_write: None,
        app_read: None,
        app_write: None,
    }
}

/// The state behind a ServerHello: the transcript starts with the ClientHello
/// message, without its record header, and the ServerHello message.
pub open spec fn after_server_hello(c: ClientView, h: ServerHelloView) -> ClientView {
    let alg = h.suite.alg();
    ClientView {
        suite: Some(h.suite),
        transcript: Some(TranscriptView { alg, messages: c.hello->0.skip(5) + h.message }),
        early_secret: Some(mac_of(alg, zeros(alg.size()), zeros(alg.size()))),
        ..c
    }
}

/// What a ServerHello record does to a client.
pub open spec fn server_hello_step(c: ClientView, wire: Seq<u8>) -> (
    ClientView,
    Result<Seq<u8>, Tls13Error>,
) {
    match server_hello_of(wire) {
        Err(e) => (c, Err(e)),
        Ok(h) => if c.hello is None || c.hello->0.len() < 5 {
            (c, Err(Tls13Error::BadHandshake))
        } else {
            match h.share {
                Some(key) => (after_server_hello(c, h), Ok(key)),
                None => (after_server_hello(c, h), Err(Tls13Error::NoKeyShare)),
            }
        },
    }
}

/// The handshake secret of a key schedule (RFC 8446, section 7.1).
pub open spec fn handshake_secret_of(alg: HashAlg, early: Seq<u8>, shared: Seq<u8>) -> Seq<u8> {
    mac_of(alg, derived(alg, early, "derived"@, digest_of(alg, Seq::empty())), shared)
}

/// The master secret of a key schedule (RFC 8446, section 7.1).
pub open spec fn master_secret_of(alg: HashAlg, handshake: Seq<u8>) -> Seq<u8> {
    mac_of(
        alg,
        derived(alg, handshake, "derived"@, digest_of(alg, Seq::empty())),
        zeros(alg.size()),
    )
}

/// The state once the shared secret is known: handshake traffic secrets over
/// the transcript through ServerHello, and record protection for both
/// directions.
pub open spec fn with_handshake_keys(c: ClientView, shared: Seq<u8>) -> ClientView {
    let suite = c.suite->0;
    let alg = suite.alg();
    let hs = handshake_secret_of(alg, c.early_secret->0, shared);
    let th = c.transcript->0.hash();
    let shts = derived(alg, hs, "s hs traffic"@, th);
    let chts = derived(alg, hs, "c hs traffic"@, th);
    ClientView {
        handshake_secret: Some(hs),
        master_secret: Some(master_secret_of(alg, hs)),
        shts: Some(shts),
        chts: Some(chts),
        hs_read: Some(traffic_keys(suite, shts)),
        hs_write: Some(traffic_keys(suite, chts)),
        ..c
    }
}

/// What one record of the handshake phase does to a client.
pub open spec fn hs_record_step(c: ClientView, wire: Seq<u8>) -> (
    ClientView,
    Result<(u8, Seq<u8>), Tls13Error>,
) {
    if wire.len() < 5 || wire[0] != CONTENT_APPDATA {
        (c, Err(Tls13Error::BadRecord))
    } else if wire.len() < 5 + u16_at(wire, 3) {
        (c, Err(Tls13Error::Truncated))
    } else {
        match c.hs_read {
            None => (c, Err(Tls13Error::BadRecord)),
            Some(k) => (ClientView { hs_read: Some(advanced(k)), ..c }, opened(k, wire)),
        }
    }
}

/// What one record of the application phase does to a client.
pub open spec fn app_record_step(c: ClientView, wire: Seq<u8>) -> (
    ClientView,
    Result<(u8, Seq<u8>), Tls13Error>,
) {
    if wire.len() < 5 || wire[0] != CONTENT_APPDATA {
        (c, Err(Tls13Error::UnexpectedRecord))
    } else if wire.len() < 5 + u16_at(wire, 3) {
        (c, Err(Tls13Error::Truncated))
    } else {
        match c.app_read {
            None => (c, Err(Tls13Error::UnexpectedRecord)),
            Some(k) => (ClientView { app_read: Some(advanced(k)), ..c }, opened(k, wire)),
        }
    }
}

/// The Finished data a server must send over a transcript hash.
pub open spec fn expected_finished(c: ClientView, th: Seq<u8>) -> Option<Seq<u8>> {
    match c.shts {
        Some(secret) => Some(finished_of(c.suite->0.alg(), secret, th)),
        None => None,
    }
}

/// The flight up to the server Finished: whole messages are taken off the
/// pending bytes and enter the transcript; when none is whole the next record
/// is opened. ChangeCipherSpec records are skipped.
pub open spec fn flight_steps(c: ClientView, f: FlightView, rest: Seq<u8>) -> (
    ClientView,
    Result<FlightView, Tls13Error>,
)
    decreases rest.len(), f.pending.len(),
{
    if f.finished {
        (c, Ok(f))
    } else if message_ready(f.pending) {
        let n = 4 + u24_at(f.pending, 1);
        let message = f.pending.take(n);
        let th = c.transcript->0.hash();
        let next = ClientView { transcript: Some(c.transcript->0.with(message)), ..c };
        match handled(
            FlightView { pending: f.pending.skip(n), ..f },
            message[0],
            message.skip(4),
            th,
            expected_finished(c, th),
        ) {
            Err(e) => (next, Err(e)),
            Ok(g) => flight_steps(next, g, rest),
        }
    } else if rest.len() < 5 || rest.len() < 5 + u16_at(rest, 3) {
        (c, Err(Tls13Error::Truncated))
    } else {
        let n = 5 + u16_at(rest, 3);
        let record = rest.take(n);
        if record[0] == CONTENT_CHANGE_CIPHER_SPEC {
            flight_steps(c, f, rest.skip(n))
        } else {
            let (next, content) = hs_record_step(c, record);
            match content {
                Err(e) => (next, Err(e)),
                Ok((kind, payload)) => if kind != CONTENT_HANDSHAKE {
                    (next, Err(Tls13Error::UnexpectedRecord))
                } else {
                    flight_steps(
                        next,
                        FlightView { pending: f.pending + payload, ..f },
                        rest.skip(n),
                    )
                },
            }
        }
    }
}

/// What a caller gets from a completed server flight.
#[verifier::ext_equal]
pub struct OutcomeView {
    pub suite: CipherSuite,
    pub chain: Seq<Seq<u8>>,
    pub server_app_secret: Seq<u8>,
    pub client_app_secret: Seq<u8>,
}

/// The state with the application traffic keys, over the transcript through the
/// server Finished.
pub open spec fn with_app_keys(c: ClientView) -> ClientView {
    let suite = c.suite->0;
    let alg = suite.alg();
    let th = c.transcript->0.hash();
    let cets = derived(alg, c.master_secret->0, "c ap traffic"@, th);
    let sets = derived(alg, c.master_secret->0, "s ap traffic"@, th);
    ClientView {
        cets: Some(cets),
        sets: Some(sets),
        app_write: Some(traffic_keys(suite, cets)),
        app_read: Some(traffic_keys(suite, sets)),
        ..c
    }
}

/// What a finished flight comes to: the CertificateVerify signature must verify
/// against the leaf of the chain.
pub open spec fn flight_verdict(c: ClientView, f: FlightView) -> (
    ClientView,
    Result<OutcomeView, Tls13Error>,
) {
    if f.verify is None || f.chain.len() == 0 {
        (c, Err(Tls13Error::BadHandshake))
    } else {
        let v = f.verify->0;
        match verified(v.scheme, f.chain[0], v.sig, v.tbs) {
            Err(e) => (c, Err(e)),
            Ok(_) => if c.master_secret is None {
                (c, Err(Tls13Error::BadHandshake))
            } else {
                let done = with_app_keys(c);
                (
                    done,
                    Ok(
                        OutcomeView {
                            suite: c.suite->0,
                            chain: f.chain,
                            server_app_secret: done.sets->0,
                            client_app_secret: done.cets->0,
                        },
                    ),
                )
            },
        }
    }
}

/// What a server flight does to a client.
pub open spec fn flight_step(c: ClientView, records: Seq<u8>) -> (
    ClientView,
    Result<OutcomeView, Tls13Error>,
) {
    if c.suite is None {
        (c, Err(Tls13Error::BadHandshake))
    } else {
        match flight_steps(c, empty_flight(), records) {
            (next, Err(e)) => (next, Err(e)),
            (next, Ok(f)) => flight_verdict(next, f),
        }
    }
}

/// A Finished message around its verify data.
pub open spec fn finished_message(data: Seq<u8>) -> Seq<u8> {
    seq![HS_FINISHED, 0u8, 0, (data.len() % 256) as u8] + data
}

/// The Finished message of a client over its transcript.
pub open spec fn client_finished_message(c: ClientView) -> Seq<u8> {
    finished_message(finished_of(c.suite->0.alg(), c.chts->0, c.transcript->0.hash()))
}

/// What sending the client Finished does to a client: the message enters the
/// transcript and is sealed under the handshake write key.
pub open spec fn client_finished_step(c: ClientView) -> (ClientView, Result<Seq<u8>, Tls13Error>) {
    if c.suite is None || c.chts is None {
        (c, Err(Tls13Error::BadHandshake))
    } else {
        let message = client_finished_message(c);
        let next = ClientView { transcript: Some(c.transcript->0.with(message)), ..c };
        match c.hs_write {
            None => (next, Err(Tls13Error::BadHandshake)),
            Some(k) => (
                ClientView { hs_write: Some(advanced(k)), ..next },
                Ok(sealed_record(k, message, CONTENT_HANDSHAKE)->0),
            ),
        }
    }
}

/// Everything a caller needs from a completed server flight.
pub struct Tls13Outcome {
    /// The negotiated suite.
    pub suite: CipherSuite,
    /// Raw DER bodies of the server certificate chain.
    pub server_chain: Vec<Vec<u8>>,
    /// The server's application traffic secret (server to client records).
    pub server_app_secret: Vec<u8>,
    /// The client's application traffic secret (client to server records).
    pub client_app_secret: Vec<u8>,
}

impl View for Tls13Outcome {
    type V = OutcomeView;

    open spec fn view(&self) -> OutcomeView {
        OutcomeView {
            suite: self.suite,
            chain: chain_view(self.server_chain@),
            server_app_secret: self.server_app_secret@,
            client_app_secret: self.client_app_secret@,
        }
    }
}

/// The client-side TLS 1.3 handshake state machine.
pub struct Tls13Client {
    suite: Option<CipherSuite>,
    transcript: Option<Transcript>,
    /// The ClientHello record we put on the wire, replayed into the transcript
    /// once the suite, and therefore the hash, is known.
    client_hello: Option<Vec<u8>>,
    early_secret: Option<Vec<u8>>,
    handshake_secret: Option<Vec<u8>>,
    master_secret: Option<Vec<u8>>,
    chts: Option<Vec<u8>>,
    shts: Option<Vec<u8>>,
    cets: Option<Vec<u8>>,
    sets: Option<Vec<u8>>,
    hs_read: Option<RecordKey>,
    hs_write: Option<RecordKey>,
    app_read: Option<RecordKey>,
    app_write: Option<RecordKey>,
}

/// The content of an optional record key.
spec fn opt_key(k: Option<RecordKey>) -> Option<KeyView> {
    match k {
        Some(key) => Some(key.key_view()),
        None => None,
    }
}

impl View for Tls13Client {
    type V = ClientView;

    closed spec fn view(&self) -> ClientView {
        ClientView {
            suite: self.suite,
            transcript: match self.transcript {
                Some(t) => Some(TranscriptView { alg: t.alg, messages: t.messages@ }),
                None => None,
            },
            hello: opt_bytes(self.client_hello),
            early_secret: opt_bytes(self.early_secret),
            handshake_secret: opt_bytes(self.handshake_secret),
            master_secret: opt_bytes(self.master_secret),
            chts: opt_bytes(self.chts),
            shts: opt_bytes(self.shts),
            cets: opt_bytes(self.cets),
            sets: opt_bytes(self.sets),
            hs_read: opt_key(self.hs_read),
            hs_write: opt_key(self.hs_write),
            app_read: opt_key(self.app_read),
            app_write: opt_key(self.app_write),
        }
    }
}

impl Tls13Client {
    #[verifier::type_invariant]
    spec fn inv(&self) -> bool {
        self@.wf()
    }

    /// A client before its hello.
    pub fn new() -> (r: Tls13Client)
        ensures
            r@ == new_client(),
    {
        Tls13Client {
            suite: None,
            transcript: None,
            client_hello: None,
            early_secret: None,
            handshake_secret: None,
            master_secret: None,
            chts: None,
            shts: None,
            cets: None,
            sets: None,
            hs_read: None,
            hs_write: None,
            app_read: None,
            app_write: None,
        }
    }

    /// Feeds the ClientHello record we actually sent. The suite is not known
    /// until ServerHello, so the transcript starts there.
    pub fn set_client_hello(&mut self, record: &[u8])
        ensures
            final(self)@ == (ClientView { hello: Some(record@), ..old(self)@ }),
    {
        proof {
            use_type_invariant(&*self);
        }
        self.client_hello = Some(copy_slice(record));
    }

    /// Processes the server's unprotected ServerHello record. Returns the
    /// server's x25519 public key share.
    pub fn process_server_hello(&mut self, wire: &[u8]) -> (r: Result<[u8; 32], Tls13Error>)
        ensures
            final(self)@ == server_hello_step(old(self)@, wire@).0,
            match r {
                Ok(key) => server_hello_step(old(self)@, wire@).1 == Ok::<_, Tls13Error>(key@),
                Err(e) => server_hello_step(old(self)@, wire@).1 == Err::<Seq<u8>, _>(e),
            },
    {
        proof {
            use_type_invariant(&*self);
        }
        let parsed = read_server_hello(wire)?;
        let ghost h = ServerHelloView {
            suite: parsed.suite,
            share: opt_array(parsed.share),
            message: parsed.message@,
        };
        let mut transcript = Transcript::new(parsed.suite);
        match &self.client_hello {
            None => return Err(Tls13Error::BadHandshake),
            Some(hello) => {
                if hello.len() < 5 {
                    return Err(Tls13Error::BadHandshake);
                }
                let message = copy_range(hello, 5, hello.len());
                assert(message@ =~= hello@.skip(5));
                transcript.update(&message);
            },
        }
        transcript.update(&parsed.message);
        assert(transcript.messages@ =~= old(self)@.hello->0.skip(5) + parsed.message@);
        let alg = parsed.suite.hash();
        let n: usize = alg.len();
        let zero_bytes: Vec<u8> = vec![0u8; n];
        assert(zero_bytes@ =~= zeros(alg.size()));
        self.transcript = Some(transcript);
        self.early_secret = Some(hkdf_extract(alg, &zero_bytes, &zero_bytes));
        self.suite = Some(parsed.suite);
        assert(self@ =~= after_server_hello(old(self)@, h));
        parsed.share.ok_or(Tls13Error::NoKeyShare)
    }

    /// Completes the key schedule after the key agreement and switches to
    /// handshake-phase record protection. `shared_secret` is the raw x25519
    /// shared secret between our hello key share and the server's.
    pub fn derive_handshake_keys(&mut self, shared_secret: &[u8]) -> (r: Result<(), Tls13Error>)
        ensures
            old(self)@.suite is None ==> r == Err::<(), _>(Tls13Error::BadHandshake)
                && *final(self) == *old(self),
            old(self)@.suite is Some ==> r == Ok::<(), Tls13Error>(()) && final(self)@
                == with_handshake_keys(old(self)@, shared_secret@),
    {
        proof {
            use_type_invariant(&*self);
        }
        let suite = self.suite.ok_or(Tls13Error::BadHandshake)?;
        let h = suite.hash();
        let early = match &self.early_secret {
            Some(e) => copy_slice(e),
            None => return Err(Tls13Error::BadHandshake),
        };
        let th = match &self.transcript {
            Some(t) => t.hash_of(),
            None => return Err(Tls13Error::BadHandshake),
        };
        let n: usize = h.len();
        let zero_bytes: Vec<u8> = vec![0u8; n];
        assert(zero_bytes@ =~= zeros(h.size()));
        let derived1 = derive_secret(h, &early, "derived", &h.empty_hash());
        let hs = hkdf_extract(h, &derived1, shared_secret);
        let derived2 = derive_secret(h, &hs, "derived", &h.empty_hash());
        let master = hkdf_extract(h, &derived2, &zero_bytes);
        let shts = derive_secret(h, &hs, "s hs traffic", &th);
        let chts = derive_secret(h, &hs, "c hs traffic", &th);
        let read_key = RecordKey::from_secret(suite, &shts)?;
        let write_key = RecordKey::from_secret(suite, &chts)?;
        self.handshake_secret = Some(hs);
        self.master_secret = Some(master);
        self.shts = Some(shts);
        self.chts = Some(chts);
        self.hs_read = Some(read_key);
        self.hs_write = Some(write_key);
        assert(self@ =~= with_handshake_keys(old(self)@, shared_secret@));
        Ok(())
    }

    /// Decrypts one record from the server during the handshake phase. Returns
    /// the inner (content type, payload).
    fn open_hs_record(&mut self, wire: &[u8]) -> (r: Result<(u8, Vec<u8>), Tls13Error>)
        requires
            old(self)@.hs_read matches Some(k) ==> k.seq < u64::MAX,
        ensures
            final(self)@ == hs_record_step(old(self)@, wire@).0,
            match r {
                Ok((ct, payload)) => hs_record_step(old(self)@, wire@).1 == Ok::<_, Tls13Error>(
                    (ct, payload@),
                ),
                Err(e) => hs_record_step(old(self)@, wire@).1 == Err::<(u8, Seq<u8>), _>(e),
            },
    {
        proof {
            use_type_invariant(&*self);
        }
        if wire.len() < 5 || wire[0] != CONTENT_APPDATA {
            return Err(Tls13Error::BadRecord);
        }
        if wire.len() - 5 < wire[3] as usize * 256 + wire[4] as usize {
            return Err(Tls13Error::Truncated);
        }
        let mut held: Option<RecordKey> = None;
        std::mem::swap(&mut held, &mut self.hs_read);
        match held {
            None => Err(Tls13Error::BadRecord),
            Some(key) => {
                let mut key = key;
                let r = key.open_next(wire);
                self.hs_read = Some(key);
                r
            },
        }
    }

    /// Takes the flight up to the server Finished.
    fn gather_flight(&mut self, suite: CipherSuite, records: &[u8]) -> (r: Result<
        Flight,
        Tls13Error,
    >)
        requires
            old(self)@.suite == Some(suite),
            old(self)@.hs_read matches Some(k) ==> k.seq + records@.len() / 5 <= u64::MAX,
        ensures
            final(self)@ == flight_steps(old(self)@, empty_flight(), records@).0,
            final(self)@.suite == Some(suite),
            match r {
                Ok(f) => flight_steps(old(self)@, empty_flight(), records@).1 == Ok::<
                    _,
                    Tls13Error,
                >(f@),
                Err(e) => flight_steps(old(self)@, empty_flight(), records@).1 == Err::<
                    FlightView,
                    _,
                >(e),
            },
    {
        proof {
            use_type_invariant(&*self);
        }
        let mut flight = Flight::new();
        let mut at: usize = 0;
        let ghost whole = flight_steps(self@, flight@, records@);
        assert(records@.skip(0) =~= records@);
        while !flight.finished
            invariant
                at <= records@.len(),
                self@.wf(),
                self@.suite == Some(suite),
                self@.hs_read matches Some(k) ==> k.seq + (records@.len() - at) / 5 <= u64::MAX,
                whole == flight_steps(old(self)@, empty_flight(), records@),
                whole == flight_steps(self@, flight@, records@.skip(at as int)),
            decreases records@.len() - at, flight@.pending.len(),
        {
            let ghost before = self@;
            let ghost f = flight@;
            let ghost rest = records@.skip(at as int);
            match flight.take_message() {
                Some(message) => {
                    let th = self.absorb_message(&message);
                    let expected = match &self.shts {
                        Some(secret) => if message[0] == HS_FINISHED {
                            Some(hmac_hash(suite.hash(), &finished_key(suite.hash(), secret), &th))
                        } else {
                            None
                        },
                        None => None,
                    };
                    let body = copy_range(&message, 4, message.len());
                    assert(body@ =~= message@.skip(4));
                    flight.handle(message[0], &body, &th, expected)?;
                },
                None => {
                    if records.len() - at < 5 {
                        return Err(Tls13Error::Truncated);
                    }
                    let rec_len: usize = records[at + 3] as usize * 256 + records[at + 4] as usize;
                    assert(rest[3] == records@[at + 3] && rest[4] == records@[at + 4]);
                    if records.len() - at - 5 < rec_len {
                        return Err(Tls13Error::Truncated);
                    }
                    let record = copy_range(records, at, at + 5 + rec_len);
                    assert(record@ =~= rest.take(5 + rec_len as int));
                    at = at + 5 + rec_len;
                    assert(records@.skip(at as int) =~= rest.skip(5 + rec_len as int));
                    if record[0] != CONTENT_CHANGE_CIPHER_SPEC {
                        let (ct, payload) = self.open_hs_record(&record)?;
                        flight.absorb(ct, &payload)?;
                    }
                },
            }
        }
        Ok(flight)
    }

    /// Appends a handshake message to the transcript; returns the hash in front
    /// of it.
    fn absorb_message(&mut self, message: &[u8]) -> (r: Vec<u8>)
        requires
            old(self)@.transcript is Some,
        ensures
            r@ == old(self)@.transcript->0.hash(),
            final(self)@ == (ClientView {
                transcript: Some(old(self)@.transcript->0.with(message@)),
                ..old(self)@
            }),
    {
        proof {
            use_type_invariant(&*self);
        }
        let mut held = Some(Transcript { alg: HashAlg::S256, messages: Vec::new() });
        std::mem::swap(&mut held, &mut self.transcript);
        match held {
            None => Vec::new(),
            Some(t) => {
                let mut t = t;
                let th = t.hash_of();
                t.update(message);
                self.transcript = Some(t);
                assert(self@ =~= (ClientView {
                    transcript: Some(old(self)@.transcript->0.with(message@)),
                    ..old(self)@
                }));
                th
            },
        }
    }

    /// Derives the application traffic keys.
    fn derive_app_keys(&mut self, suite: CipherSuite, server_chain: Vec<Vec<u8>>) -> (r: Result<
        Tls13Outcome,
        Tls13Error,
    >)
        requires
            old(self)@.suite == Some(suite),
        ensures
            old(self)@.master_secret is None ==> final(self)@ == old(self)@ && r == Err::<
                Tls13Outcome,
                _,
            >(Tls13Error::BadHandshake),
            old(self)@.master_secret is Some ==> final(self)@ == with_app_keys(old(self)@)
                && r is Ok && r->Ok_0@ == (OutcomeView {
                suite,
                chain: chain_view(server_chain@),
                server_app_secret: with_app_keys(old(self)@).sets->0,
                client_app_secret: with_app_keys(old(self)@).cets->0,
            }) && r->Ok_0@.server_app_secret.len() == suite.alg().size()
                && r->Ok_0@.client_app_secret.len() == suite.alg().size(),
    {
        proof {
            use_type_invariant(&*self);
        }
        let h = suite.hash();
        let th = match &self.transcript {
            Some(t) => t.hash_of(),
            None => return Err(Tls13Error::BadHandshake),
        };
        let master = match &self.master_secret {
            Some(m) => copy_slice(m),
            None => return Err(Tls13Error::BadHandshake),
        };
        let cets = derive_secret(h, &master, "c ap traffic", &th);
        let sets = derive_secret(h, &master, "s ap traffic", &th);
        let write_key = RecordKey::from_secret(suite, &cets)?;
        let read_key = RecordKey::from_secret(suite, &sets)?;
        self.cets = Some(copy_slice(&cets));
        self.sets = Some(copy_slice(&sets));
        self.app_write = Some(write_key);
        self.app_read = Some(read_key);
        assert(self@ =~= with_app_keys(old(self)@));
        Ok(
            Tls13Outcome {
                suite,
                server_chain,
                server_app_secret: sets,
                client_app_secret: cets,
            },
        )
    }

    /// Processes the full encrypted server flight (EncryptedExtensions,
    /// Certificate, CertificateVerify, Finished), verifies it, and derives the
    /// application traffic keys.
    pub fn process_server_flight(&mut self, records: &[u8]) -> (r: Result<Tls13Outcome, Tls13Error>)
        requires
            old(self)@.hs_read matches Some(k) ==> k.seq + records@.len() / 5 <= u64::MAX,
        ensures
            final(self)@ == flight_step(old(self)@, records@).0,
            match r {
                Ok(o) => flight_step(old(self)@, records@).1 == Ok::<_, Tls13Error>(o@)
                    && o@.server_app_secret.len() == o@.suite.alg().size()
                    && o@.client_app_secret.len() == o@.suite.alg().size(),
                Err(e) => flight_step(old(self)@, records@).1 == Err::<OutcomeView, _>(e),
            },
    {
        proof {
            use_type_invariant(&*self);
        }
        let suite = self.suite.ok_or(Tls13Error::BadHandshake)?;
        let flight = self.gather_flight(suite, records)?;
        let verify = flight.verify.ok_or(Tls13Error::BadHandshake)?;
        if flight.chain.len() == 0 {
            return Err(Tls13Error::BadHandshake);
        }
        verify_certificate_verify(verify.scheme, &flight.chain[0], &verify.sig, &verify.tbs)?;
        self.derive_app_keys(suite, flight.chain)
    }

    /// Seals the client Finished handshake message under the client handshake
    /// keys. Returns the full record to send.
    pub fn client_finished_record(&mut self) -> (r: Result<Vec<u8>, Tls13Error>)
        requires
            old(self)@.hs_write matches Some(k) ==> k.seq < u64::MAX,
        ensures
            final(self)@ == client_finished_step(old(self)@).0,
            match r {
                Ok(record) => client_finished_step(old(self)@).1 == Ok::<_, Tls13Error>(record@)
                    && opened(old(self)@.hs_write->0, record@) == Ok::<_, Tls13Error>(
                    (CONTENT_HANDSHAKE, client_finished_message(old(self)@)),
                ),
                Err(e) => e == Tls13Error::BadHandshake && client_finished_step(old(self)@).1
                    == Err::<Seq<u8>, _>(e),
            },
    {
        proof {
            use_type_invariant(&*self);
        }
        let suite = self.suite.ok_or(Tls13Error::BadHandshake)?;
        let h = suite.hash();
        let fk = match &self.chts {
            Some(secret) => finished_key(h, secret),
            None => return Err(Tls13Error::BadHandshake),
        };
        let th = match &self.transcript {
            Some(t) => t.hash_of(),
            None => return Err(Tls13Error::BadHandshake),
        };
        let verify = hmac_hash(h, &fk, &th);
        let mut message: Vec<u8> = Vec::new();
        message.push(HS_FINISHED);
        message.push(0);
        message.push(0);
        message.push(low8(verify.len()));
        message.extend_from_slice(&verify);
        assert(message@ =~= client_finished_message(old(self)@));
        let _th = self.absorb_message(&message);
        let mut held: Option<RecordKey> = None;
        std::mem::swap(&mut held, &mut self.hs_write);
        match held {
            None => Err(Tls13Error::BadHandshake),
            Some(key) => {
                let mut key = key;
                let r = key.seal_next(&message, CONTENT_HANDSHAKE);
                self.hs_write = Some(key);
                r
            },
        }
    }

    /// Seals an application-data record under the client application keys.
    pub fn seal_app_record(&mut self, data: &[u8]) -> (r: Result<Vec<u8>, Tls13Error>)
        requires
            old(self)@.app_write matches Some(k) ==> k.seq < u64::MAX && suite_answers(
                k.suite,
                data@.len() as int + 1,
            ),
        ensures
            match old(self)@.app_write {
                None => r == Err::<Vec<u8>, _>(Tls13Error::UnexpectedRecord) && final(self)@ == old(
                    self,
                )@,
                Some(k) => {
                    &&& final(self)@ == (ClientView { app_write: Some(advanced(k)), ..old(self)@ })
                    &&& !sealable(k.suite, data@.len() as int + 1, 5) ==> r == Err::<Vec<u8>, _>(
                        Tls13Error::DecryptFailed,
                    )
                    &&& sealable(k.suite, data@.len() as int + 1, 5) ==> r is Ok && Some(
                        r->Ok_0@,
                    ) == sealed_record(k, data@, CONTENT_APPDATA)
                    &&& data@.len() + 17 <= 0xFFFF ==> r is Ok && opened(k, r->Ok_0@) == Ok::<
                        _,
                        Tls13Error,
                    >((CONTENT_APPDATA, data@))
                },
            },
    {
        proof {
            use_type_invariant(&*self);
        }
        let mut held: Option<RecordKey> = None;
        std::mem::swap(&mut held, &mut self.app_write);
        match held {
            None => Err(Tls13Error::UnexpectedRecord),
            Some(key) => {
                let mut key = key;
                let r = key.seal_next(data, CONTENT_APPDATA);
                self.app_write = Some(key);
                r
            },
        }
    }

    /// Opens one server record during the application phase. Returns (inner
    /// content type, payload) so callers can skip post-handshake messages.
    pub fn open_record(&mut self, wire: &[u8]) -> (r: Result<(u8, Vec<u8>), Tls13Error>)
        requires
            old(self)@.app_read matches Some(k) ==> k.seq < u64::MAX,
        ensures
            final(self)@ == app_record_step(old(self)@, wire@).0,
            match r {
                Ok((ct, payload)) => app_record_step(old(self)@, wire@).1 == Ok::<_, Tls13Error>(
                    (ct, payload@),
                ),
                Err(e) => app_record_step(old(self)@, wire@).1 == Err::<(u8, Seq<u8>), _>(e),
            },
    {
        proof {
            use_type_invariant(&*self);
        }
        if wire.len() < 5 || wire[0] != CONTENT_APPDATA {
            return Err(Tls13Error::UnexpectedRecord);
        }
        if wire.len() - 5 < wire[3] as usize * 256 + wire[4] as usize {
            return Err(Tls13Error::Truncated);
        }
        let mut held: Option<RecordKey> = None;
        std::mem::swap(&mut held, &mut self.app_read);
        match held {
            None => Err(Tls13Error::UnexpectedRecord),
            Some(key) => {
                let mut key = key;
                let r = key.open_next(wire);
                self.app_read = Some(key);
                r
            },
        }
    }

    /// Opens one application-data record, rejecting other inner content.
    pub fn open_app_record(&mut self, wire: &[u8]) -> (r: Result<Vec<u8>, Tls13Error>)
        requires
            old(self)@.app_read matches Some(k) ==> k.seq < u64::MAX,
        ensures
            final(self)@ == app_record_step(old(self)@, wire@).0,
            match app_record_step(old(self)@, wire@).1 {
                Err(e) => r == Err::<Vec<u8>, _>(e),
                Ok((ct, payload)) => if ct == CONTENT_APPDATA {
                    r is Ok && r->Ok_0@ == payload
                } else {
                    r == Err::<Vec<u8>, _>(Tls13Error::UnexpectedRecord)
                },
            },
    {
        let (ct, payload) = self.open_record(wire)?;
        if ct != CONTENT_APPDATA {
            return Err(Tls13Error::UnexpectedRecord);
        }
        Ok(payload)
    }
}

impl Default for Tls13Client {
    /// A client before its hello.
    fn default() -> (r: Self)
        ensures
            r@ == new_client(),
    {
        Self::new()
    }
}

// ---------------------------------------------------------------------------
// Laws
// ---------------------------------------------------------------------------

/// The steps of a flight touch the transcript and the handshake read sequence
/// alone, and end well only with a Finished that fits the transcript.
proof fn lemma_flight_steps(c: ClientView, f: FlightView, rest: Seq<u8>)
    ensures
        flight_steps(c, f, rest).0 == (ClientView {
            transcript: flight_steps(c, f, rest).0.transcript,
            hs_read: flight_steps(c, f, rest).0.hs_read,
            ..c
        }),
        flight_steps(c, f, rest).1 matches Ok(g) ==> g.finished,
    decreases rest.len(), f.pending.len(),
{
    if f.finished {
    } else if message_ready(f.pending) {
        let n = 4 + u24_at(f.pending, 1);
        let message = f.pending.take(n);
        let th = c.transcript->0.hash();
        let next = ClientView { transcript: Some(c.transcript->0.with(message)), ..c };
        match handled(
            FlightView { pending: f.pending.skip(n), ..f },
            message[0],
            message.skip(4),
            th,
            expected_finished(c, th),
        ) {
            Err(_) => {},
            Ok(g) => {
                lemma_flight_steps(next, g, rest);
            },
        }
    } else if rest.len() < 5 || rest.len() < 5 + u16_at(rest, 3) {
    } else {
        let n = 5 + u16_at(rest, 3);
        let record = rest.take(n);
        if record[0] == CONTENT_CHANGE_CIPHER_SPEC {
            lemma_flight_steps(c, f, rest.skip(n));
        } else {
            let (next, content) = hs_record_step(c, record);
            match content {
                Err(_) => {},
                Ok((kind, payload)) => {
                    if kind == CONTENT_HANDSHAKE {
                        lemma_flight_steps(
                            next,
                            FlightView { pending: f.pending + payload, ..f },
                            rest.skip(n),
                        );
                    }
                },
            }
        }
    }
}

/// Law: a flight that is refused, for whatever reason, gives no application
/// keys: the application protection of the client is what it was. One that is
/// accepted sets fresh application keys for both directions, starting at record
/// zero, and keeps the negotiated suite.
pub proof fn law_refused_flight_gives_no_keys(c: ClientView, records: Seq<u8>)
    ensures
        ({
            let (next, r) = flight_step(c, records);
            &&& next.suite == c.suite
            &&& r is Err ==> next.app_read == c.app_read && next.app_write == c.app_write
            &&& r matches Ok(o) ==> {
                &&& next.app_read == Some(traffic_keys(c.suite->0, o.server_app_secret))
                &&& next.app_write == Some(traffic_keys(c.suite->0, o.client_app_secret))
                &&& o.chain.len() > 0
            }
        }),
{
    lemma_flight_steps(c, empty_flight(), records);
}

/// Law: a ServerHello that is refused for its content leaves the client as it
/// was, and none of them touches record protection.
pub proof fn law_server_hello_keeps_keys(c: ClientView, wire: Seq<u8>)
    ensures
        ({
            let (next, r) = server_hello_step(c, wire);
            &&& next.hs_read == c.hs_read && next.hs_write == c.hs_write
            &&& next.app_read == c.app_read && next.app_write == c.app_write
            &&& r is Err && r->Err_0 != Tls13Error::NoKeyShare ==> next == c
        }),
{
}

/// A handshake message: its type, its length and its body.
pub open spec fn handshake_message(kind: u8, body: Seq<u8>) -> Seq<u8> {
    seq![kind] + be24(body.len() as int) + body
}

/// The handshake bytes that a run of records carries; nothing when one of them
/// does not open to handshake bytes. ChangeCipherSpec records carry none.
pub open spec fn carried(k: KeyView, records: Seq<u8>) -> Option<Seq<u8>>
    decreases records.len(),
{
    if records.len() == 0 {
        Some(Seq::empty())
    } else if records.len() < 5 || records.len() < 5 + u16_at(records, 3) {
        None
    } else {
        let n = 5 + u16_at(records, 3);
        let record = records.take(n);
        if record[0] == CONTENT_CHANGE_CIPHER_SPEC {
            carried(k, records.skip(n))
        } else if record[0] != CONTENT_APPDATA {
            None
        } else {
            match opened(k, record) {
                Err(_) => None,
                Ok((kind, payload)) => match carried(advanced(k), records.skip(n)) {
                    None => None,
                    Some(later) => if kind == CONTENT_HANDSHAKE {
                        Some(payload + later)
                    } else {
                        None
                    },
                },
            }
        }
    }
}

/// Without a record to open, the read protection does not matter.
proof fn lemma_steps_without_records(c: ClientView, k: Option<KeyView>, f: FlightView)
    ensures
        ({
            let d = ClientView { hs_read: k, ..c };
            let none = Seq::<u8>::empty();
            &&& flight_steps(d, f, none).1 == flight_steps(c, f, none).1
            &&& flight_steps(d, f, none).0.transcript == flight_steps(c, f, none).0.transcript
        }),
    decreases f.pending.len(),
{
    if !f.finished && message_ready(f.pending) {
        let n = 4 + u24_at(f.pending, 1);
        let message = f.pending.take(n);
        let th = c.transcript->0.hash();
        let next = ClientView { transcript: Some(c.transcript->0.with(message)), ..c };
        let step = handled(
            FlightView { pending: f.pending.skip(n), ..f },
            message[0],
            message.skip(4),
            th,
            expected_finished(c, th),
        );
        if step is Ok {
            lemma_steps_without_records(next, k, step->Ok_0);
        }
    }
}

/// A flight that ends well when all its bytes are pending ends the same way when
/// they come in records, however they are cut.
proof fn lemma_steps_with_records(
    c: ClientView,
    k: KeyView,
    f: FlightView,
    records: Seq<u8>,
    bytes: Seq<u8>,
)
    requires
        c.hs_read == Some(k),
        carried(k, records) == Some(bytes),
        flight_steps(c, FlightView { pending: f.pending + bytes, ..f }, Seq::empty()).1 is Ok,
    ensures
        ({
            let whole = FlightView { pending: f.pending + bytes, ..f };
            let (at_once, all) = flight_steps(c, whole, Seq::empty());
            let (cut, got) = flight_steps(c, f, records);
            &&& got is Ok
            &&& got->Ok_0.chain == all->Ok_0.chain && got->Ok_0.verify == all->Ok_0.verify
            &&& cut.transcript == at_once.transcript
        }),
    decreases records.len(), f.pending.len(),
{
    let whole = FlightView { pending: f.pending + bytes, ..f };
    if f.finished {
    } else if message_ready(f.pending) {
        let n = 4 + u24_at(f.pending, 1);
        let message = f.pending.take(n);
        assert(whole.pending.take(n) =~= message);
        assert(whole.pending.skip(n) =~= f.pending.skip(n) + bytes);
        assert(u24_at(whole.pending, 1) == u24_at(f.pending, 1));
        let th = c.transcript->0.hash();
        let next = ClientView { transcript: Some(c.transcript->0.with(message)), ..c };
        let step = handled(
            FlightView { pending: f.pending.skip(n), ..f },
            message[0],
            message.skip(4),
            th,
            expected_finished(c, th),
        );
        let step_whole = handled(
            FlightView { pending: whole.pending.skip(n), ..whole },
            message[0],
            message.skip(4),
            th,
            expected_finished(c, th),
        );
        assert(step is Ok == step_whole is Ok);
        assert(step_whole->Ok_0 =~= FlightView {
            pending: step->Ok_0.pending + bytes,
            ..step->Ok_0
        });
        lemma_steps_with_records(next, k, step->Ok_0, records, bytes);
    } else if records.len() == 0 {
        assert(f.pending + bytes =~= f.pending);
    } else {
        let n = 5 + u16_at(records, 3);
        let record = records.take(n);
        if record[0] == CONTENT_CHANGE_CIPHER_SPEC {
            lemma_steps_with_records(c, k, f, records.skip(n), bytes);
        } else {
            let payload = (opened(k, record)->Ok_0).1;
            let later = carried(advanced(k), records.skip(n))->0;
            assert(u16_at(record, 3) == u16_at(records, 3));
            let next = ClientView { hs_read: Some(advanced(k)), ..c };
            let longer = FlightView { pending: f.pending + payload, ..f };
            assert(longer.pending + later =~= f.pending + bytes);
            lemma_steps_without_records(c, Some(advanced(k)), whole);
            lemma_steps_with_records(next, advanced(k), longer, records.skip(n), later);
        }
    }
}

/// A whole message in front of the pending bytes is the next one handled.
proof fn lemma_next_message(c: ClientView, f: FlightView, kind: u8, body: Seq<u8>, rest: Seq<u8>)
    requires
        !f.finished,
        body.len() < 0x100_0000,
        f.pending == handshake_message(kind, body) + rest,
    ensures
        ({
            let th = c.transcript->0.hash();
            let next = ClientView {
                transcript: Some(c.transcript->0.with(handshake_message(kind, body))),
                ..c
            };
            flight_steps(c, f, Seq::empty()) == (match handled(
                FlightView { pending: rest, ..f },
                kind,
                body,
                th,
                expected_finished(c, th),
            ) {
                Err(e) => (next, Err(e)),
                Ok(g) => flight_steps(next, g, Seq::empty()),
            })
        }),
{
    let m = handshake_message(kind, body);
    let p = f.pending;
    let len = be24(body.len() as int);
    assert(p[1] == len[0] && p[2] == len[1] && p[3] == len[2]);
    assert(u24_at(p, 1) == body.len());
    assert(p.take(4 + body.len() as int) =~= m);
    assert(p.skip(4 + body.len() as int) =~= rest);
    assert(m.skip(4) =~= body);
    assert(m[0] == kind);
}

/// The transcript of a flight with these message bodies: in front of the
/// CertificateVerify, in front of the Finished, and behind it.
pub open spec fn flight_transcripts(
    c: ClientView,
    extensions: Seq<u8>,
    certificate: Seq<u8>,
    verify: Seq<u8>,
) -> (TranscriptView, TranscriptView, TranscriptView) {
    let signed = c.transcript->0.with(
        handshake_message(HS_ENCRYPTED_EXTENSIONS, extensions),
    ).with(handshake_message(HS_CERTIFICATE, certificate));
    let last = signed.with(handshake_message(HS_CERTIFICATE_VERIFY, verify));
    let data = finished_of(c.suite->0.alg(), c.shts->0, last.hash());
    (signed, last, last.with(handshake_message(HS_FINISHED, data)))
}

/// The bytes of a flight with these message bodies.
pub open spec fn honest_flight(
    c: ClientView,
    extensions: Seq<u8>,
    certificate: Seq<u8>,
    verify: Seq<u8>,
) -> Seq<u8> {
    let last = flight_transcripts(c, extensions, certificate, verify).1;
    handshake_message(HS_ENCRYPTED_EXTENSIONS, extensions) + (handshake_message(
        HS_CERTIFICATE,
        certificate,
    ) + (handshake_message(HS_CERTIFICATE_VERIFY, verify) + (handshake_message(
        HS_FINISHED,
        finished_of(c.suite->0.alg(), c.shts->0, last.hash()),
    ) + Seq::empty())))
}

/// Law: an honest server flight is accepted, however it is cut into records and
/// with or without ChangeCipherSpec records between them: a certificate chain, a
/// signature over the transcript through it that verifies under the leaf, and
/// the Finished data that fits the transcript. The client then holds the
/// application keys over the whole transcript.
pub proof fn law_honest_flight_is_accepted(
    c: ClientView,
    k: KeyView,
    records: Seq<u8>,
    extensions: Seq<u8>,
    certificate: Seq<u8>,
    verify: Seq<u8>,
    chain: Seq<Seq<u8>>,
)
    requires
        c.wf(),
        c.suite is Some && c.shts is Some && c.master_secret is Some,
        c.hs_read == Some(k),
        extensions.len() < 0x100_0000,
        certificate.len() < 0x100_0000,
        verify.len() < 0x100_0000,
        finished_of(
            c.suite->0.alg(),
            c.shts->0,
            flight_transcripts(c, extensions, certificate, verify).1.hash(),
        ).len() < 0x100_0000,
        cert_chain(certificate) == Some(chain) && chain.len() > 0,
        verify_message(
            verify,
            flight_transcripts(c, extensions, certificate, verify).0.hash(),
        ) matches Some(v) && verified(v.scheme, chain[0], v.sig, v.tbs) is Ok,
        carried(k, records) == Some(honest_flight(c, extensions, certificate, verify)),
    ensures
        ({
            let (next, r) = flight_step(c, records);
            let through = flight_transcripts(c, extensions, certificate, verify).2;
            &&& r is Ok
            &&& r->Ok_0.chain == chain && r->Ok_0.suite == c.suite->0
            &&& next.transcript == Some(through)
            &&& r->Ok_0.client_app_secret == derived(
                c.suite->0.alg(),
                c.master_secret->0,
                "c ap traffic"@,
                through.hash(),
            )
            &&& r->Ok_0.server_app_secret == derived(
                c.suite->0.alg(),
                c.master_secret->0,
                "s ap traffic"@,
                through.hash(),
            )
        }),
{
    let (signed, last, through) = flight_transcripts(c, extensions, certificate, verify);
    let data = finished_of(c.suite->0.alg(), c.shts->0, last.hash());
    let b4 = handshake_message(HS_FINISHED, data) + Seq::<u8>::empty();
    let b3 = handshake_message(HS_CERTIFICATE_VERIFY, verify) + b4;
    let b2 = handshake_message(HS_CERTIFICATE, certificate) + b3;
    let bytes = honest_flight(c, extensions, certificate, verify);
    let f0 = empty_flight();
    assert(f0.pending + bytes =~= bytes);
    let f1 = FlightView { pending: bytes, ..f0 };
    let f2 = FlightView { pending: b2, ..f0 };
    let f3 = FlightView { pending: b3, chain, ..f0 };
    let v = verify_message(verify, signed.hash());
    let f4 = FlightView { pending: b4, chain, verify: v, ..f0 };
    let f5 = FlightView { pending: Seq::empty(), chain, verify: v, finished: true };
    let t1 = c.transcript->0.with(handshake_message(HS_ENCRYPTED_EXTENSIONS, extensions));
    let c1 = ClientView { transcript: Some(t1), ..c };
    let c2 = ClientView { transcript: Some(signed), ..c };
    let c3 = ClientView { transcript: Some(last), ..c };
    let c4 = ClientView { transcript: Some(through), ..c };
    let none = Seq::<u8>::empty();
    lemma_next_message(c, f1, HS_ENCRYPTED_EXTENSIONS, extensions, b2);
    assert(flight_steps(c, f1, none) == flight_steps(c1, f2, none));
    lemma_next_message(c1, f2, HS_CERTIFICATE, certificate, b3);
    assert(flight_steps(c1, f2, none) == flight_steps(c2, f3, none));
    lemma_next_message(c2, f3, HS_CERTIFICATE_VERIFY, verify, b4);
    assert(flight_steps(c2, f3, none) == flight_steps(c3, f4, none));
    lemma_next_message(c3, f4, HS_FINISHED, data, none);
    assert(flight_steps(c3, f4, none) == flight_steps(c4, f5, none));
    lemma_steps_with_records(c, k, f0, records, bytes);
    lemma_flight_steps(c, f0, records);
}

/// An extension of a hello: its type and its body.
pub struct HelloExtension {
    pub kind: u16,
    pub body: Seq<u8>,
}

/// Extensions on the wire, in order (RFC 8446, section 4.2).
pub open spec fn extension_list(list: Seq<HelloExtension>) -> Seq<u8>
    decreases list.len(),
{
    if list.len() == 0 {
        Seq::empty()
    } else {
        be16(list[0].kind as int) + be16(list[0].body.len() as int) + list[0].body
            + extension_list(list.skip(1))
    }
}

/// A ServerHello message (RFC 8446, section 4.1.3): type and length, the legacy
/// version, the random, the echoed session id, the suite, the compression method
/// and the extensions with their exact length in front.
pub open spec fn server_hello_message(
    version: Seq<u8>,
    random: Seq<u8>,
    session_id: Seq<u8>,
    suite: u16,
    compression: u8,
    list: Seq<HelloExtension>,
) -> Seq<u8> {
    let exts = extension_list(list);
    handshake_message(
        0x02,
        version + random + seq![session_id.len() as u8] + session_id + be16(suite as int) + seq![
            compression,
        ] + be16(exts.len() as int) + exts,
    )
}

/// A record of the handshake content type around a message.
pub open spec fn plain_record(version: Seq<u8>, message: Seq<u8>) -> Seq<u8> {
    seq![0x16u8] + version + be16(message.len() as int) + message
}

/// The extension that carries an x25519 key share of a server: group 29, a
/// length of 32 and the key.
pub open spec fn x25519_share_extension(key: Seq<u8>) -> HelloExtension {
    HelloExtension { kind: 0x0033, body: seq![0x00u8, 0x1du8, 0x00u8, 0x20u8] + key }
}

/// Whether the extensions fit their length fields, and each key share among them
/// holds a whole entry.
pub open spec fn extensions_fit(list: Seq<HelloExtension>) -> bool {
    forall|i: int|
        0 <= i < list.len() ==> {
            let e = #[trigger] list[i];
            &&& e.body.len() < 0x1_0000
            &&& e.kind == 0x0033 ==> e.body.len() >= 4 && e.body.len() >= 4 + e.body[2] * 0x100
                + e.body[3]
        }
}

/// Whether none of the extensions is a key share.
pub open spec fn without_key_share(list: Seq<HelloExtension>) -> bool {
    forall|i: int| 0 <= i < list.len() ==> (#[trigger] list[i]).kind != 0x0033
}

/// Law: the client finds the server's key share wherever it stands. A ServerHello
/// of any random, session id and supported suite whose extensions are `before`,
/// the x25519 share of a key, and `after`, in which no other key share follows,
/// is read as exactly that suite, that key and that message, whatever the other
/// extensions are and whatever follows the record.
#[verifier::spinoff_prover]
#[verifier::rlimit(50)]
pub proof fn law_server_hello_gives_share(
    record_version: Seq<u8>,
    version: Seq<u8>,
    random: Seq<u8>,
    session_id: Seq<u8>,
    suite: u16,
    compression: u8,
    before: Seq<HelloExtension>,
    key: Seq<u8>,
    after: Seq<HelloExtension>,
    rest: Seq<u8>,
)
    requires
        record_version.len() == 2,
        version.len() == 2,
        random.len() == 32,
        session_id.len() <= 255,
        suite == 0x1301 || suite == 0x1302 || suite == 0x1303,
        key.len() == 32,
        extensions_fit(before),
        extensions_fit(after),
        without_key_share(after),
        server_hello_message(
            version,
            random,
            session_id,
            suite,
            compression,
            before + seq![x25519_share_extension(key)] + after,
        ).len() < 0x1_0000,
    ensures
        ({
            let message = server_hello_message(
                version,
                random,
                session_id,
                suite,
                compression,
                before + seq![x25519_share_extension(key)] + after,
            );
            server_hello_of(plain_record(record_version, message) + rest) == Ok::<_, Tls13Error>(
                ServerHelloView {
                    suite: if suite == 0x1301 {
                        CipherSuite::Aes128GcmSha256
                    } else if suite == 0x1302 {
                        CipherSuite::Aes256GcmSha384
                    } else {
                        CipherSuite::ChaCha20Poly1305Sha256
                    },
                    share: Some(key),
                    message,
                },
            )
        }),
{
    let share = x25519_share_extension(key);
    let list = before + seq![share] + after;
    let tail = seq![share] + after;
    assert(list =~= before + tail);
    lemma_hello_fields(record_version, version, random, session_id, suite, compression, list, rest);
    assert(tail.skip(1) =~= after);
    lemma_scan_before(before, tail, None);
    let got = scanned(before, None);
    lemma_extension_step(share, after, got);
    assert(share.body.subrange(4, 36) =~= key);
    lemma_scan_without_share(after, Some(key));
}

/// The share that a scan of whole extensions ends with.
spec fn scanned(list: Seq<HelloExtension>, share: Option<Seq<u8>>) -> Option<Seq<u8>>
    decreases list.len(),
{
    if list.len() == 0 {
        share
    } else {
        scanned(
            list.skip(1),
            if list[0].kind == 0x0033 {
                server_share_in(list[0].body, share)->0
            } else {
                share
            },
        )
    }
}

proof fn lemma_extension_step(
    e: HelloExtension,
    after: Seq<HelloExtension>,
    share: Option<Seq<u8>>,
)
    requires
        e.body.len() < 0x1_0000,
        e.kind == 0x0033 ==> e.body.len() >= 4 && e.body.len() >= 4 + e.body[2] * 0x100 + e.body[3],
    ensures
        ({
            let list = seq![e] + after;
            let s = extension_list(list);
            server_extensions(s, s.len() as int, share) == server_extensions(
                extension_list(after),
                extension_list(after).len() as int,
                if e.kind == 0x0033 {
                    server_share_in(e.body, share)->0
                } else {
                    share
                },
            )
        }),
{
    let list = seq![e] + after;
    let s = extension_list(list);
    let n = e.body.len() as int;
    assert(list.skip(1) =~= after);
    assert(list[0] == e);
    let a = be16(e.kind as int);
    let b = be16(n);
    law_big_endian(e.kind as int);
    law_big_endian(n);
    assert(s[0] == a[0] && s[1] == a[1] && s[2] == b[0] && s[3] == b[1]);
    assert(s.subrange(4, 4 + n) =~= e.body);
    assert(s.skip(4 + n) =~= extension_list(after));
}

proof fn lemma_scan_before(
    before: Seq<HelloExtension>,
    tail: Seq<HelloExtension>,
    share: Option<Seq<u8>>,
)
    requires
        extensions_fit(before),
    ensures
        ({
            let s = extension_list(before + tail);
            let t = extension_list(tail);
            server_extensions(s, s.len() as int, share) == server_extensions(
                t,
                t.len() as int,
                scanned(before, share),
            )
        }),
    decreases before.len(),
{
    if before.len() == 0 {
        assert(before + tail =~= tail);
    } else {
        let e = before[0];
        let more = before.skip(1);
        assert(before + tail =~= seq![e] + (more + tail));
        assert forall|i: int| 0 <= i < more.len() implies {
            let e = #[trigger] more[i];
            &&& e.body.len() < 0x1_0000
            &&& e.kind == 0x0033 ==> e.body.len() >= 4 && e.body.len() >= 4 + e.body[2] * 0x100
                + e.body[3]
        } by {
            assert(more[i] == before[i + 1]);
        }
        lemma_extension_step(e, more + tail, share);
        lemma_scan_before(
            more,
            tail,
            if e.kind == 0x0033 {
                server_share_in(e.body, share)->0
            } else {
                share
            },
        );
    }
}

proof fn lemma_scan_without_share(list: Seq<HelloExtension>, share: Option<Seq<u8>>)
    requires
        extensions_fit(list),
        without_key_share(list),
    ensures
        ({
            let s = extension_list(list);
            server_extensions(s, s.len() as int, share) == Some(share)
        }),
    decreases list.len(),
{
    if list.len() > 0 {
        let e = list[0];
        let more = list.skip(1);
        assert(list =~= seq![e] + more);
        assert forall|i: int| 0 <= i < more.len() implies {
            let e = #[trigger] more[i];
            &&& e.body.len() < 0x1_0000
            &&& e.kind == 0x0033 ==> e.body.len() >= 4 && e.body.len() >= 4 + e.body[2] * 0x100
                + e.body[3]
        } by {
            assert(more[i] == list[i + 1]);
        }
        assert forall|i: int| 0 <= i < more.len() implies (#[trigger] more[i]).kind != 0x0033 by {
            assert(more[i] == list[i + 1]);
        }
        lemma_extension_step(e, more, share);
        lemma_scan_without_share(more, share);
    }
}

/// A ServerHello record is read field by field.
#[verifier::spinoff_prover]
#[verifier::rlimit(50)]
proof fn lemma_hello_fields(
    record_version: Seq<u8>,
    version: Seq<u8>,
    random: Seq<u8>,
    session_id: Seq<u8>,
    suite: u16,
    compression: u8,
    list: Seq<HelloExtension>,
    rest: Seq<u8>,
)
    requires
        record_version.len() == 2,
        version.len() == 2,
        random.len() == 32,
        session_id.len() <= 255,
        server_hello_message(version, random, session_id, suite, compression, list).len()
            < 0x1_0000,
    ensures
        ({
            let message = server_hello_message(
                version,
                random,
                session_id,
                suite,
                compression,
                list,
            );
            let exts = extension_list(list);
            server_hello_of(plain_record(record_version, message) + rest) == (match suite_of(
                suite as int,
            ) {
                None => Err(Tls13Error::BadCipherSuite),
                Some(found) => match server_extensions(exts, exts.len() as int, None) {
                    None => Err(Tls13Error::Truncated),
                    Some(share) => Ok(ServerHelloView { suite: found, share, message }),
                },
            })
        }),
{
    let exts = extension_list(list);
    let message = server_hello_message(version, random, session_id, suite, compression, list);
    let wire = plain_record(record_version, message) + rest;
    let m = message.len() as int;
    law_big_endian(m);
    let l = be16(m);
    assert(wire[0] == 0x16);
    assert(wire[3] == l[0] && wire[4] == l[1]);
    assert(wire.subrange(5, 5 + m) =~= message);
    let s = message.skip(4);
    let n = session_id.len() as int;
    let at = 35 + n;
    law_big_endian(suite as int);
    law_big_endian(exts.len() as int);
    let c = be16(suite as int);
    let x = be16(exts.len() as int);
    assert(message[0] == 0x02);
    assert(s =~= version + random + seq![session_id.len() as u8] + session_id + c + seq![
        compression,
    ] + x + exts);
    assert(s[34] == n);
    assert(s[at] == c[0] && s[at + 1] == c[1]);
    assert(s[at + 3] == x[0] && s[at + 4] == x[1]);
    assert(s.skip(at + 5) =~= exts);
}

/// Law: a ServerHello without a key share offers none, and one with a suite that
/// is not supported is refused for it.
pub proof fn law_server_hello_without_share(
    record_version: Seq<u8>,
    version: Seq<u8>,
    random: Seq<u8>,
    session_id: Seq<u8>,
    suite: u16,
    compression: u8,
    list: Seq<HelloExtension>,
    rest: Seq<u8>,
)
    requires
        record_version.len() == 2,
        version.len() == 2,
        random.len() == 32,
        session_id.len() <= 255,
        extensions_fit(list),
        server_hello_message(version, random, session_id, suite, compression, list).len()
            < 0x1_0000,
    ensures
        ({
            let message = server_hello_message(
                version,
                random,
                session_id,
                suite,
                compression,
                list,
            );
            let r = server_hello_of(plain_record(record_version, message) + rest);
            let supported = suite == 0x1301 || suite == 0x1302 || suite == 0x1303;
            &&& !supported ==> r == Err::<ServerHelloView, _>(Tls13Error::BadCipherSuite)
            &&& supported && without_key_share(list) ==> r is Ok && r->Ok_0.share is None
                && r->Ok_0.message == message
        }),
{
    lemma_hello_fields(record_version, version, random, session_id, suite, compression, list, rest);
    if without_key_share(list) {
        lemma_scan_without_share(list, None);
    }
}

/// Law: a ServerHello that is cut off is refused, as is a record of another
/// content type and a message of another type.
pub proof fn law_broken_server_hello_is_refused(wire: Seq<u8>)
    ensures
        wire.len() < 5 || wire[0] != 0x16 ==> server_hello_of(wire) == Err::<ServerHelloView, _>(
            Tls13Error::BadRecord,
        ),
        wire.len() >= 5 && wire[0] == 0x16 && wire.len() - 5 < wire[3] * 0x100 + wire[4]
            ==> server_hello_of(wire) == Err::<ServerHelloView, _>(Tls13Error::Truncated),
        wire.len() >= 6 && wire[0] == 0x16 && wire.len() - 5 >= wire[3] * 0x100 + wire[4] > 0
            && wire[5] != 0x02 ==> server_hello_of(wire) == Err::<ServerHelloView, _>(
            Tls13Error::BadHandshake,
        ),
{
}

/// Law: what a ServerHello does to a client that has sent a hello. With a key
/// share it gives the key; the client keeps the suite, starts its transcript
/// over the hash of the suite with its own hello, without the record header, and
/// the server's message, and derives the early secret from zeros. Nothing else
/// changes.
pub proof fn law_server_hello_starts_transcript(c: ClientView, wire: Seq<u8>, h: ServerHelloView)
    requires
        server_hello_of(wire) == Ok::<_, Tls13Error>(h),
        c.hello matches Some(sent) && sent.len() >= 5,
    ensures
        ({
            let (next, r) = server_hello_step(c, wire);
            let hash = if h.suite == CipherSuite::Aes256GcmSha384 {
                HashAlg::S384
            } else {
                HashAlg::S256
            };
            let size: int = if h.suite == CipherSuite::Aes256GcmSha384 {
                48
            } else {
                32
            };
            let sent = c.hello->0;
            &&& h.share matches Some(key) ==> r == Ok::<_, Tls13Error>(key)
            &&& h.share is None ==> r == Err::<Seq<u8>, _>(Tls13Error::NoKeyShare)
            &&& next.suite == Some(h.suite)
            &&& next.transcript == Some(
                TranscriptView {
                    alg: hash,
                    messages: sent.subrange(5, sent.len() as int) + h.message,
                },
            )
            &&& next.early_secret == Some(
                mac_of(
                    hash,
                    Seq::new(size as nat, |i: int| 0u8),
                    Seq::new(size as nat, |i: int| 0u8),
                ),
            )
            &&& next == (ClientView {
                suite: next.suite,
                transcript: next.transcript,
                early_secret: next.early_secret,
                ..c
            })
        }),
{
    let sent = c.hello->0;
    let next = server_hello_step(c, wire).0;
    assert(sent.skip(5) =~= sent.subrange(5, sent.len() as int));
    assert(zeros(32) =~= Seq::new(32, |i: int| 0u8));
    assert(zeros(48) =~= Seq::new(48, |i: int| 0u8));
    assert(next =~= ClientView {
        suite: next.suite,
        transcript: next.transcript,
        early_secret: next.early_secret,
        ..c
    });
}

/// Law: without a hello of its own a client does not accept a ServerHello.
pub proof fn law_server_hello_needs_client_hello(c: ClientView, wire: Seq<u8>)
    requires
        server_hello_of(wire) is Ok,
        c.hello matches Some(sent) ==> sent.len() < 5,
    ensures
        server_hello_step(c, wire) == (c, Err::<Seq<u8>, _>(Tls13Error::BadHandshake)),
{
}

/// Law: the handshake keys. The handshake secret is extracted from the shared
/// secret under a secret derived from the early one, the master secret from
/// zeros under a secret derived from the handshake secret; both traffic secrets
/// are derived over the transcript so far, the server's to read with and the
/// client's to write with.
pub proof fn law_handshake_keys(c: ClientView, shared: Seq<u8>, suite: CipherSuite, early: Seq<u8>)
    requires
        c.suite == Some(suite),
        c.early_secret == Some(early),
    ensures
        ({
            let next = with_handshake_keys(c, shared);
            let alg = suite.alg();
            let none = digest_of(alg, Seq::empty());
            let th = digest_of(c.transcript->0.alg, c.transcript->0.messages);
            let hs = mac_of(alg, derived(alg, early, "derived"@, none), shared);
            let master = mac_of(
                alg,
                derived(alg, hs, "derived"@, none),
                Seq::new(alg.size() as nat, |i: int| 0u8),
            );
            let server = derived(alg, hs, "s hs traffic"@, th);
            let client = derived(alg, hs, "c hs traffic"@, th);
            &&& next.handshake_secret == Some(hs)
            &&& next.master_secret == Some(master)
            &&& next.shts == Some(server)
            &&& next.chts == Some(client)
            &&& next.hs_read == Some(
                KeyView {
                    suite,
                    key: traffic_key(suite, server),
                    iv: traffic_iv(suite, server),
                    seq: 0,
                },
            )
            &&& next.hs_write == Some(
                KeyView {
                    suite,
                    key: traffic_key(suite, client),
                    iv: traffic_iv(suite, client),
                    seq: 0,
                },
            )
            &&& next.suite == c.suite && next.transcript == c.transcript && next.hello == c.hello
            &&& next.app_read == c.app_read && next.app_write == c.app_write
        }),
{
    assert(zeros(suite.alg().size()) =~= Seq::new(suite.alg().size() as nat, |i: int| 0u8));
}

/// Law: the application keys. Both application secrets are derived from the
/// master secret over the transcript through the server Finished, the server's
/// to read with and the client's to write with, from record zero.
pub proof fn law_application_keys(c: ClientView, suite: CipherSuite, master: Seq<u8>)
    requires
        c.suite == Some(suite),
        c.master_secret == Some(master),
    ensures
        ({
            let next = with_app_keys(c);
            let th = digest_of(c.transcript->0.alg, c.transcript->0.messages);
            let server = derived(suite.alg(), master, "s ap traffic"@, th);
            let client = derived(suite.alg(), master, "c ap traffic"@, th);
            &&& next.sets == Some(server)
            &&& next.cets == Some(client)
            &&& next.app_read == Some(
                KeyView {
                    suite,
                    key: traffic_key(suite, server),
                    iv: traffic_iv(suite, server),
                    seq: 0,
                },
            )
            &&& next.app_write == Some(
                KeyView {
                    suite,
                    key: traffic_key(suite, client),
                    iv: traffic_iv(suite, client),
                    seq: 0,
                },
            )
            &&& next.suite == c.suite && next.transcript == c.transcript
            &&& next.hs_read == c.hs_read && next.hs_write == c.hs_write
        }),
{
}

/// Law: a protected record is read as what its ciphertext opens to. The first
/// five bytes are its header and the additional data, their last two the length
/// of the ciphertext; the nonce is that of the next record. The last byte that
/// is not zero is the content type, and what stands in front of it the payload,
/// however many zeros pad it; bytes behind the record do not matter.
pub proof fn law_record_opens(
    k: KeyView,
    header: Seq<u8>,
    sealed: Seq<u8>,
    payload: Seq<u8>,
    content_type: u8,
    padding: nat,
    rest: Seq<u8>,
)
    requires
        header.len() == 5,
        header[3] * 0x100 + header[4] == sealed.len(),
        content_type != 0,
        open_of(k.suite, k.key, record_nonce_of(k.iv, k.seq), header, sealed) == Some(
            payload + seq![content_type] + Seq::new(padding, |i: int| 0u8),
        ),
    ensures
        opened(k, header + sealed + rest) == Ok::<_, Tls13Error>((content_type, payload)),
{
    let wire = header + sealed + rest;
    assert(wire.take(5) =~= header);
    assert(wire.subrange(5, 5 + sealed.len() as int) =~= sealed);
    assert(payload + seq![content_type] + Seq::new(padding, |i: int| 0u8) =~= payload.push(
        content_type,
    ) + zeros(padding as int));
    law_inner_round_trip(payload, content_type, padding);
}

/// Law: a record whose ciphertext does not open is a decryption failure, and one
/// that opens to nothing but zeros is a bad record.
pub proof fn law_record_does_not_open(
    k: KeyView,
    header: Seq<u8>,
    sealed: Seq<u8>,
    padding: nat,
    rest: Seq<u8>,
)
    requires
        header.len() == 5,
        header[3] * 0x100 + header[4] == sealed.len(),
    ensures
        open_of(k.suite, k.key, record_nonce_of(k.iv, k.seq), header, sealed) is None ==> opened(
            k,
            header + sealed + rest,
        ) == Err::<(u8, Seq<u8>), _>(Tls13Error::DecryptFailed),
        open_of(k.suite, k.key, record_nonce_of(k.iv, k.seq), header, sealed) == Some(
            Seq::new(padding, |i: int| 0u8),
        ) ==> opened(k, header + sealed + rest) == Err::<(u8, Seq<u8>), _>(Tls13Error::BadRecord),
{
    let wire = header + sealed + rest;
    assert(wire.take(5) =~= header);
    assert(wire.subrange(5, 5 + sealed.len() as int) =~= sealed);
    assert(zeros(padding as int) =~= Seq::new(padding, |i: int| 0u8));
    lemma_zeros_hold_nothing(padding);
}

proof fn lemma_zeros_hold_nothing(n: nat)
    ensures
        inner_of(zeros(n as int)) is None,
    decreases n,
{
    if n > 0 {
        assert(zeros(n as int).drop_last() =~= zeros(n - 1));
        lemma_zeros_hold_nothing((n - 1) as nat);
    }
}

/// Law: a record of the application phase moves the read sequence by one and
/// changes nothing else, whether it opens or not; what it gives is what it opens
/// to. A record that is not protected, a cut one and one before there are keys
/// change nothing.
pub proof fn law_application_record(c: ClientView, wire: Seq<u8>)
    requires
        c.app_read matches Some(k) ==> k.seq < u64::MAX,
    ensures
        ({
            let (next, r) = app_record_step(c, wire);
            let whole = wire.len() >= 5 && wire.len() - 5 >= wire[3] * 0x100 + wire[4];
            &&& wire.len() < 5 || wire[0] != 0x17 ==> r == Err::<(u8, Seq<u8>), _>(
                Tls13Error::UnexpectedRecord,
            ) && next == c
            &&& wire.len() >= 5 && wire[0] == 0x17 && !whole ==> r == Err::<(u8, Seq<u8>), _>(
                Tls13Error::Truncated,
            ) && next == c
            &&& whole && wire[0] == 0x17 && c.app_read is None ==> r == Err::<(u8, Seq<u8>), _>(
                Tls13Error::UnexpectedRecord,
            ) && next == c
            &&& whole && wire[0] == 0x17 ==> (c.app_read matches Some(k) ==> r == opened(k, wire)
                && next.app_read == Some(KeyView { seq: (k.seq + 1) as u64, ..k }) && next == (
            ClientView { app_read: next.app_read, ..c }))
        }),
{
    let next = app_record_step(c, wire).0;
    assert(next =~= ClientView { app_read: next.app_read, ..c });
}

/// Law: a record of the handshake phase does the same with the handshake read
/// key; what it refuses, it refuses as a bad record.
pub proof fn law_handshake_record(c: ClientView, wire: Seq<u8>)
    requires
        c.hs_read matches Some(k) ==> k.seq < u64::MAX,
    ensures
        ({
            let (next, r) = hs_record_step(c, wire);
            let whole = wire.len() >= 5 && wire.len() - 5 >= wire[3] * 0x100 + wire[4];
            &&& wire.len() < 5 || wire[0] != 0x17 ==> r == Err::<(u8, Seq<u8>), _>(
                Tls13Error::BadRecord,
            ) && next == c
            &&& wire.len() >= 5 && wire[0] == 0x17 && !whole ==> r == Err::<(u8, Seq<u8>), _>(
                Tls13Error::Truncated,
            ) && next == c
            &&& whole && wire[0] == 0x17 && c.hs_read is None ==> r == Err::<(u8, Seq<u8>), _>(
                Tls13Error::BadRecord,
            ) && next == c
            &&& whole && wire[0] == 0x17 ==> (c.hs_read matches Some(k) ==> r == opened(k, wire)
                && next.hs_read == Some(KeyView { seq: (k.seq + 1) as u64, ..k }) && next == (
            ClientView { hs_read: next.hs_read, ..c }))
        }),
{
    let next = hs_record_step(c, wire).0;
    assert(next =~= ClientView { hs_read: next.hs_read, ..c });
}

/// Law: a sealed record is the five header bytes 23, 3, 3 and the length of the
/// ciphertext, which is the payload, its content type and the tag, and then the
/// ciphertext of payload and content type, with the header as additional data.
pub proof fn law_record_sealing(k: KeyView, payload: Seq<u8>, content_type: u8)
    requires
        payload.len() + 17 < 0x1_0000,
    ensures
        ({
            let n = payload.len() + 17;
            let header = seq![0x17u8, 0x03u8, 0x03u8, (n / 256) as u8, (n % 256) as u8];
            sealed_record(k, payload, content_type) == (match seal_of(
                k.suite,
                k.key,
                record_nonce_of(k.iv, k.seq),
                header,
                payload + seq![content_type],
            ) {
                Some(sealed) => Some(header + sealed),
                None => None,
            })
        }),
{
    let n = payload.len() + 17;
    let header = seq![0x17u8, 0x03u8, 0x03u8, (n / 256) as u8, (n % 256) as u8];
    assert(record_header(n as int) =~= header);
    assert(payload.push(content_type) =~= payload + seq![content_type]);
}

/// Law: a CertificateVerify message is a scheme and a signature, each of two
/// bytes and the latter with its length in front; it signs 64 spaces, the text
/// `TLS 1.3, server CertificateVerify`, a zero byte and the transcript hash.
#[verifier::spinoff_prover]
#[verifier::rlimit(50)]
pub proof fn law_certificate_verify_message(
    scheme: u16,
    sig: Seq<u8>,
    rest: Seq<u8>,
    th: Seq<u8>,
)
    requires
        sig.len() < 0x1_0000,
    ensures
        verify_message(be16(scheme as int) + be16(sig.len() as int) + sig + rest, th) == Some(
            VerifyView {
                scheme,
                sig,
                tbs: Seq::new(64, |i: int| 0x20u8) + ascii("TLS 1.3, server CertificateVerify"@)
                    + seq![0u8] + th,
            },
        ),
{
    let body = be16(scheme as int) + be16(sig.len() as int) + sig + rest;
    let a = be16(scheme as int);
    let b = be16(sig.len() as int);
    law_big_endian(scheme as int);
    law_big_endian(sig.len() as int);
    assert(body[0] == a[0] && body[1] == a[1] && body[2] == b[0] && body[3] == b[1]);
    assert(body.subrange(4, 4 + sig.len() as int) =~= sig);
    lemma_verify_context();
    assert(signed_bytes(th) =~= Seq::new(64, |i: int| 0x20u8) + ascii(
        "TLS 1.3, server CertificateVerify"@,
    ) + seq![0u8] + th);
}

proof fn lemma_verify_context()
    ensures
        VERIFY_CONTEXT@ == ascii("TLS 1.3, server CertificateVerify"@) + seq![0u8],
{
    reveal_strlit("TLS 1.3, server CertificateVerify");
    assert(VERIFY_CONTEXT@ =~= ascii("TLS 1.3, server CertificateVerify"@) + seq![0u8]);
}

/// Law: what a handshake message does to a flight, by its type. A Certificate
/// (11) sets the chain, a CertificateVerify (15) the signature to be checked, a
/// Finished (20) ends the flight exactly if it holds the expected data, and any
/// other type changes nothing. What cannot be read is refused.
pub proof fn law_flight_messages(
    f: FlightView,
    kind: u8,
    body: Seq<u8>,
    th: Seq<u8>,
    expected: Seq<u8>,
)
    ensures
        kind == 11 ==> handled(f, kind, body, th, Some(expected)) == (match cert_chain(body) {
            Some(chain) => Ok(FlightView { chain, ..f }),
            None => Err(Tls13Error::Truncated),
        }),
        kind == 15 ==> handled(f, kind, body, th, Some(expected)) == (match verify_message(
            body,
            th,
        ) {
            Some(v) => Ok(FlightView { verify: Some(v), ..f }),
            None => Err(Tls13Error::BadHandshake),
        }),
        kind == 20 && body == expected ==> handled(f, kind, body, th, Some(expected)) == Ok::<
            _,
            Tls13Error,
        >(FlightView { finished: true, ..f }),
        kind == 20 && body != expected ==> handled(f, kind, body, th, Some(expected)) == Err::<
            FlightView,
            _,
        >(Tls13Error::FinishedMismatch),
        kind != 11 && kind != 15 && kind != 20 ==> handled(f, kind, body, th, Some(expected))
            == Ok::<_, Tls13Error>(f),
{
}

/// Law: the Finished data of a server is the HMAC of the transcript hash under
/// the Finished key of its handshake secret.
pub proof fn law_expected_finished(c: ClientView, secret: Seq<u8>, suite: CipherSuite, th: Seq<u8>)
    requires
        c.shts == Some(secret),
        c.suite == Some(suite),
    ensures
        expected_finished(c, th) == Some(
            mac_of(
                suite.alg(),
                crate::schedule::label_expanded(
                    suite.alg(),
                    secret,
                    "finished"@,
                    Seq::empty(),
                    suite.alg().size(),
                ),
                th,
            ),
        ),
{
}

/// Law: records carry handshake bytes in order: a record that opens to handshake
/// bytes carries them in front of what the later records carry, under the next
/// sequence; a ChangeCipherSpec record carries nothing and uses no sequence; any
/// other record breaks the run.
pub proof fn law_records_carry_bytes(
    k: KeyView,
    header: Seq<u8>,
    body: Seq<u8>,
    payload: Seq<u8>,
    kind: u8,
    later: Seq<u8>,
)
    requires
        k.seq < u64::MAX,
        header.len() == 5,
        header[3] * 0x100 + header[4] == body.len(),
    ensures
        header[0] == 0x14 ==> carried(k, header + body + later) == carried(k, later),
        header[0] != 0x14 && header[0] != 0x17 ==> carried(k, header + body + later) is None,
        header[0] == 0x17 && opened(k, header + body) == Ok::<_, Tls13Error>((kind, payload))
            && kind == 0x16 ==> carried(k, header + body + later) == (match carried(
            KeyView { seq: (k.seq + 1) as u64, ..k },
            later,
        ) {
            Some(more) => Some(payload + more),
            None => None,
        }),
        header[0] == 0x17 && opened(k, header + body) == Ok::<_, Tls13Error>((kind, payload))
            && kind != 0x16 ==> carried(k, header + body + later) is None,
        header[0] == 0x17 && opened(k, header + body) is Err ==> carried(k, header + body + later)
            is None,
        carried(k, Seq::empty()) == Some(Seq::<u8>::empty()),
{
    let wire = header + body + later;
    let n = 5 + body.len() as int;
    assert(wire[3] == header[3] && wire[4] == header[4]);
    assert(wire.take(n) =~= header + body);
    assert(wire.skip(n) =~= later);
}

/// Law: an accepted flight is authentic. The signature that the leaf certificate
/// verified covers the client's transcript and some of the flight behind it, and
/// the transcript ends with a Finished message whose data is the server's
/// Finished over everything in front of it.
#[verifier::spinoff_prover]
#[verifier::rlimit(50)]
pub proof fn law_accepted_flight_is_authentic(c: ClientView, records: Seq<u8>)
    requires
        c.transcript is Some,
        c.shts is Some,
        flight_step(c, records).1 is Ok,
    ensures
        exists|signed: Seq<u8>, scheme: u16, sig: Seq<u8>|
            (#[trigger] verified(
                scheme,
                flight_step(c, records).1->Ok_0.chain[0],
                sig,
                signed_bytes(signed),
            )) is Ok && exists|flight: Seq<u8>|
                signed == #[trigger] digest_of(
                    c.transcript->0.alg,
                    c.transcript->0.messages + flight,
                ),
        exists|flight: Seq<u8>, finished: Seq<u8>|
            {
                &&& flight_step(c, records).0.transcript->0.messages == #[trigger] (
                c.transcript->0.messages + flight + finished)
                &&& finished.len() >= 4 && finished[0] == 20
                &&& finished.skip(4) == finished_of(
                    c.suite->0.alg(),
                    c.shts->0,
                    digest_of(c.transcript->0.alg, c.transcript->0.messages + flight),
                )
            },
{
    let (next, r) = flight_steps(c, empty_flight(), records);
    let f = r->Ok_0;
    let none = Seq::<u8>::empty();
    assert(c.transcript->0.messages + none =~= c.transcript->0.messages);
    lemma_flight_steps(c, empty_flight(), records);
    let (signed, flight, finished) = lemma_flight_is_bound(c, c, empty_flight(), records, none, none);
    let v = f.verify->0;
    let th = digest_of(c.transcript->0.alg, c.transcript->0.messages + signed);
    let chain = flight_step(c, records).1->Ok_0.chain;
    assert(chain == f.chain);
    assert(verified(v.scheme, chain[0], v.sig, signed_bytes(th)) is Ok);
    assert(th == digest_of(c.transcript->0.alg, c.transcript->0.messages + signed));
    assert(next.transcript->0.messages == c.transcript->0.messages + flight + finished);
}

#[verifier::spinoff_prover]
#[verifier::rlimit(50)]
proof fn lemma_flight_is_bound(
    base: ClientView,
    c: ClientView,
    f: FlightView,
    rest: Seq<u8>,
    done: Seq<u8>,
    signed: Seq<u8>,
) -> (w: (Seq<u8>, Seq<u8>, Seq<u8>))
    requires
        !f.finished,
        base.transcript is Some && base.shts is Some,
        c.transcript is Some,
        c.suite == base.suite && c.shts == base.shts,
        c.transcript->0.alg == base.transcript->0.alg,
        c.transcript->0.messages == base.transcript->0.messages + done,
        f.verify matches Some(v) ==> v.tbs == signed_bytes(
            digest_of(base.transcript->0.alg, base.transcript->0.messages + signed),
        ),
    ensures
        flight_steps(c, f, rest).1 matches Ok(g) ==> {
            let t = base.transcript->0;
            &&& (g.verify matches Some(v) ==> v.tbs == signed_bytes(
                digest_of(t.alg, t.messages + w.0),
            ))
            &&& flight_steps(c, f, rest).0.transcript is Some
            &&& flight_steps(c, f, rest).0.transcript->0.messages == t.messages + w.1 + w.2
            &&& w.2.len() >= 4 && w.2[0] == 20
            &&& w.2.skip(4) == finished_of(
                base.suite->0.alg(),
                base.shts->0,
                digest_of(t.alg, t.messages + w.1),
            )
        },
    decreases rest.len(), f.pending.len(),
{
    let t = base.transcript->0;
    if message_ready(f.pending) {
        let n = 4 + u24_at(f.pending, 1);
        let message = f.pending.take(n);
        let th = c.transcript->0.hash();
        let next = ClientView { transcript: Some(c.transcript->0.with(message)), ..c };
        let step = handled(
            FlightView { pending: f.pending.skip(n), ..f },
            message[0],
            message.skip(4),
            th,
            expected_finished(c, th),
        );
        match step {
            Err(_) => (signed, done, message),
            Ok(g) => {
                if g.finished {
                    assert(flight_steps(next, g, rest) == (next, Ok::<_, Tls13Error>(g)));
                    (signed, done, message)
                } else {
                    let now = if message[0] == HS_CERTIFICATE_VERIFY {
                        done
                    } else {
                        signed
                    };
                    assert(t.messages + done + message =~= t.messages + (done + message));
                    lemma_flight_is_bound(base, next, g, rest, done + message, now)
                }
            },
        }
    } else if rest.len() < 5 || rest.len() < 5 + u16_at(rest, 3) {
        (signed, done, done)
    } else {
        let n = 5 + u16_at(rest, 3);
        let record = rest.take(n);
        if record[0] == CONTENT_CHANGE_CIPHER_SPEC {
            lemma_flight_is_bound(base, c, f, rest.skip(n), done, signed)
        } else {
            let (next, content) = hs_record_step(c, record);
            match content {
                Err(_) => (signed, done, done),
                Ok((kind, payload)) => if kind == CONTENT_HANDSHAKE {
                    lemma_flight_is_bound(
                        base,
                        next,
                        FlightView { pending: f.pending + payload, ..f },
                        rest.skip(n),
                        done,
                        signed,
                    )
                } else {
                    (signed, done, done)
                },
            }
        }
    }
}

/// Law: the client Finished is a message of type 20 around the HMAC of the
/// transcript hash under the Finished key of the client's handshake secret. It
/// is sealed as handshake content under the handshake write key, which moves by
/// one, and enters the transcript; nothing else changes.
pub proof fn law_client_finished(
    c: ClientView,
    suite: CipherSuite,
    secret: Seq<u8>,
    k: KeyView,
    t: TranscriptView,
)
    requires
        c.suite == Some(suite),
        c.chts == Some(secret),
        c.hs_write == Some(k),
        c.transcript == Some(t),
        k.seq < u64::MAX,
        finished_of(suite.alg(), secret, digest_of(t.alg, t.messages)).len() < 256,
    ensures
        ({
            let (next, r) = client_finished_step(c);
            let data = finished_of(suite.alg(), secret, digest_of(t.alg, t.messages));
            let message = handshake_message(20, data);
            &&& r == Ok::<_, Tls13Error>(sealed_record(k, message, 0x16)->0)
            &&& next.transcript == Some(
                TranscriptView { alg: t.alg, messages: t.messages + message },
            )
            &&& next.hs_write == Some(KeyView { seq: (k.seq + 1) as u64, ..k })
            &&& next == (ClientView {
                transcript: next.transcript,
                hs_write: next.hs_write,
                ..c
            })
        }),
{
    let data = finished_of(suite.alg(), secret, digest_of(t.alg, t.messages));
    assert(finished_message(data) =~= handshake_message(20, data));
    let next = client_finished_step(c).0;
    assert(next =~= ClientView { transcript: next.transcript, hs_write: next.hs_write, ..c });
}

/// Law: a key share of another group, or of another length than 32, is none.
pub proof fn law_foreign_group_is_no_share(
    record_version: Seq<u8>,
    version: Seq<u8>,
    random: Seq<u8>,
    session_id: Seq<u8>,
    suite: u16,
    compression: u8,
    before: Seq<HelloExtension>,
    share: HelloExtension,
    after: Seq<HelloExtension>,
    rest: Seq<u8>,
)
    requires
        record_version.len() == 2,
        version.len() == 2,
        random.len() == 32,
        session_id.len() <= 255,
        suite == 0x1301 || suite == 0x1302 || suite == 0x1303,
        extensions_fit(before) && without_key_share(before),
        extensions_fit(seq![share]) && share.kind == 0x0033,
        share.body[0] * 0x100 + share.body[1] != 29 || share.body[2] * 0x100 + share.body[3] != 32,
        extensions_fit(after) && without_key_share(after),
        server_hello_message(
            version,
            random,
            session_id,
            suite,
            compression,
            before + seq![share] + after,
        ).len() < 0x1_0000,
    ensures
        ({
            let message = server_hello_message(
                version,
                random,
                session_id,
                suite,
                compression,
                before + seq![share] + after,
            );
            let r = server_hello_of(plain_record(record_version, message) + rest);
            r is Ok && r->Ok_0.share is None
        }),
{
    let list = before + seq![share] + after;
    let tail = seq![share] + after;
    assert(list =~= before + tail);
    assert(seq![share][0] == share);
    lemma_hello_fields(record_version, version, random, session_id, suite, compression, list, rest);
    lemma_scan_before(before, tail, None);
    lemma_scanned_nothing(before);
    lemma_extension_step(share, after, None);
    lemma_scan_without_share(after, None);
}

proof fn lemma_scanned_nothing(list: Seq<HelloExtension>)
    requires
        without_key_share(list),
    ensures
        scanned(list, None) is None,
    decreases list.len(),
{
    if list.len() > 0 {
        let more = list.skip(1);
        assert(list[0].kind != 0x0033);
        assert forall|i: int| 0 <= i < more.len() implies (#[trigger] more[i]).kind != 0x0033 by {
            assert(more[i] == list[i + 1]);
        }
        lemma_scanned_nothing(more);
    }
}

/// Law: extensions that end before their declared length are refused as
/// truncated, wherever they are cut.
pub proof fn law_cut_server_extensions_are_refused(
    list: Seq<HelloExtension>,
    have: int,
    share: Option<Seq<u8>>,
)
    requires
        extensions_fit(list),
        0 <= have < extension_list(list).len(),
    ensures
        server_extensions(extension_list(list).take(have), extension_list(list).len() as int, share)
            is None,
    decreases list.len(),
{
    let s = extension_list(list);
    let part = s.take(have);
    let e = list[0];
    let more = list.skip(1);
    let n = e.body.len() as int;
    let a = be16(e.kind as int);
    let b = be16(n);
    law_big_endian(e.kind as int);
    law_big_endian(n);
    assert(s[0] == a[0] && s[1] == a[1] && s[2] == b[0] && s[3] == b[1]);
    if have >= 4 + n {
        assert(part[0] == s[0] && part[1] == s[1] && part[2] == s[2] && part[3] == s[3]);
        assert(part.subrange(4, 4 + n) =~= e.body);
        assert(part.skip(4 + n) =~= extension_list(more).take(have - 4 - n));
        assert forall|i: int| 0 <= i < more.len() implies {
            let e = #[trigger] more[i];
            &&& e.body.len() < 0x1_0000
            &&& e.kind == 0x0033 ==> e.body.len() >= 4 && e.body.len() >= 4 + e.body[2] * 0x100
                + e.body[3]
        } by {
            assert(more[i] == list[i + 1]);
        }
        law_cut_server_extensions_are_refused(
            more,
            have - 4 - n,
            if e.kind == 0x0033 {
                server_share_in(e.body, share)->0
            } else {
                share
            },
        );
    } else if have >= 4 {
        assert(part[2] == s[2] && part[3] == s[3]);
    }
}

/// Law: how a flight goes on when no whole message is pending. The next record is
/// taken: a ChangeCipherSpec (20) is skipped, any other is opened, and handshake
/// content (22) is appended to the pending bytes. A record that is not whole, does
/// not open or holds other content ends the flight with its error.
pub proof fn law_flight_takes_records(
    c: ClientView,
    f: FlightView,
    header: Seq<u8>,
    body: Seq<u8>,
    later: Seq<u8>,
    short: Seq<u8>,
)
    requires
        !f.finished,
        f.pending.len() < 4 || f.pending.len() < 4 + f.pending[1] * 0x1_0000 + f.pending[2] * 0x100
            + f.pending[3],
        header.len() == 5,
        header[3] * 0x100 + header[4] == body.len(),
        short.len() < 5 || short.len() < 5 + short[3] * 0x100 + short[4],
    ensures
        flight_steps(c, f, short) == (c, Err::<FlightView, _>(Tls13Error::Truncated)),
        header[0] == 20 ==> flight_steps(c, f, header + body + later) == flight_steps(c, f, later),
        header[0] != 20 ==> ({
            let (next, content) = hs_record_step(c, header + body);
            flight_steps(c, f, header + body + later) == (match content {
                Err(e) => (next, Err(e)),
                Ok((kind, payload)) => if kind == 22 {
                    flight_steps(next, FlightView { pending: f.pending + payload, ..f }, later)
                } else {
                    (next, Err(Tls13Error::UnexpectedRecord))
                },
            })
        }),
{
    let wire = header + body + later;
    let n = 5 + body.len() as int;
    assert(wire[3] == header[3] && wire[4] == header[4]);
    assert(wire.take(n) =~= header + body);
    assert(wire.skip(n) =~= later);
}

/// Law: how a flight goes on when a whole message is pending: the message enters
/// the transcript and is handled against the hash of what stands in front of it;
/// one that is refused ends the flight.
pub proof fn law_flight_takes_messages(
    c: ClientView,
    f: FlightView,
    kind: u8,
    body: Seq<u8>,
    more: Seq<u8>,
    rest: Seq<u8>,
)
    requires
        !f.finished,
        body.len() < 0x100_0000,
        f.pending == handshake_message(kind, body) + more,
    ensures
        ({
            let t = c.transcript->0;
            let th = digest_of(t.alg, t.messages);
            let next = ClientView {
                transcript: Some(
                    TranscriptView {
                        alg: t.alg,
                        messages: t.messages + handshake_message(kind, body),
                    },
                ),
                ..c
            };
            flight_steps(c, f, rest) == (match handled(
                FlightView { pending: more, ..f },
                kind,
                body,
                th,
                expected_finished(c, th),
            ) {
                Err(e) => (next, Err(e)),
                Ok(g) => flight_steps(next, g, rest),
            })
        }),
{
    let m = handshake_message(kind, body);
    let p = f.pending;
    let len = be24(body.len() as int);
    law_big_endian(body.len() as int);
    assert(p[1] == len[0] && p[2] == len[1] && p[3] == len[2]);
    assert(p.take(4 + body.len() as int) =~= m);
    assert(p.skip(4 + body.len() as int) =~= more);
    assert(m.skip(4) =~= body);
    assert(m[0] == kind);
}

/// Law: a handshake message is its type, its length in three bytes, high byte
/// first, and its body.
pub proof fn law_handshake_message_layout(kind: u8, body: Seq<u8>)
    requires
        body.len() < 0x100_0000,
    ensures
        ({
            let m = handshake_message(kind, body);
            &&& m.len() == 4 + body.len()
            &&& m[0] == kind
            &&& m[1] * 0x1_0000 + m[2] * 0x100 + m[3] == body.len()
            &&& m.skip(4) == body
        }),
{
    let m = handshake_message(kind, body);
    let len = be24(body.len() as int);
    law_big_endian(body.len() as int);
    assert(m[1] == len[0] && m[2] == len[1] && m[3] == len[2]);
    assert(m.skip(4) =~= body);
}

/// Law: what a finished flight comes to: without a certificate or without a
/// CertificateVerify it is no handshake; a signature that does not verify under
/// the first certificate refuses it with that verdict; one that does gives the
/// application keys, the chain and both application secrets.
pub proof fn law_flight_verdict(c: ClientView, f: FlightView)
    ensures
        f.verify is None || f.chain.len() == 0 ==> flight_verdict(c, f) == (
            c,
            Err::<OutcomeView, _>(Tls13Error::BadHandshake),
        ),
        f.verify is Some && f.chain.len() > 0 ==> {
            let v = f.verify->0;
            let verdict = verified(v.scheme, f.chain[0], v.sig, v.tbs);
            let (next, r) = flight_verdict(c, f);
            &&& verdict is Err ==> next == c && r == Err::<OutcomeView, _>(verdict->Err_0)
            &&& verdict is Ok && c.master_secret is None ==> next == c && r == Err::<
                OutcomeView,
                _,
            >(Tls13Error::BadHandshake)
            &&& verdict is Ok && c.master_secret is Some ==> {
                &&& next == with_app_keys(c)
                &&& r is Ok
                &&& r->Ok_0.chain == f.chain
                &&& r->Ok_0.suite == c.suite->0
                &&& r->Ok_0.server_app_secret == next.sets->0
                &&& r->Ok_0.client_app_secret == next.cets->0
            }
        },
{
}

/// Law: a fresh client holds nothing, and steps that come too early are refused
/// and change nothing: a flight and a Finished before a suite is negotiated.
pub proof fn law_steps_in_order(c: ClientView, records: Seq<u8>)
    ensures
        ({
            let n = new_client();
            &&& n.suite is None && n.transcript is None && n.hello is None
            &&& n.hs_read is None && n.hs_write is None
            &&& n.app_read is None && n.app_write is None
            &&& n.shts is None && n.chts is None && n.master_secret is None
        }),
        c.suite is None ==> flight_step(c, records) == (
            c,
            Err::<OutcomeView, _>(Tls13Error::BadHandshake),
        ),
        c.suite is None || c.chts is None ==> client_finished_step(c) == (
            c,
            Err::<Seq<u8>, _>(Tls13Error::BadHandshake),
        ),
        c.hs_write is None ==> client_finished_step(c).1 == Err::<Seq<u8>, _>(
            Tls13Error::BadHandshake,
        ),
{
}

} // verus!
