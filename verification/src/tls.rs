//! TLS 1.3 ClientHello records: build and parse.
//!
//! The REALITY hello is a byte-exact, legal TLS 1.3 ClientHello record, so the
//! first thing on the wire looks like a browser handshake to a passive
//! observer. REALITY material rides in standard TLS fields:
//!
//! - ephemeral X25519 public key: `key_share` extension (group x25519)
//! - key-derivation salt and AEAD nonce: the 32-byte `random` field
//! - sealed session material: `legacy_session_id`
//! - host name: `server_name` extension
//!
//! Extension order, cipher order and padding follow one fixed browser profile,
//! so the hello is deterministic for given inputs.

use vstd::prelude::*;
use vstd::utf8::{decode_utf8, encode_utf8, valid_utf8};

use crate::bytes::{
    array32, ascii, be16, be24, copy_slice, law_big_endian, low16, push_u16, push_u24, u16_at, u24_at, zeros, Reader,
};
use crate::text::string_from_utf8;

verus! {

/// TLS content type: handshake.
pub const CONTENT_HANDSHAKE: u8 = 0x16;

/// Handshake message type: ClientHello.
pub const HS_CLIENT_HELLO: u8 = 0x01;

/// Extension type: server_name.
pub const EXT_SERVER_NAME: u16 = 0x0000;

/// Extension type: padding (RFC 7685).
pub const EXT_PADDING: u16 = 0x0015;

/// Extension type: supported_groups.
pub const EXT_SUPPORTED_GROUPS: u16 = 0x000a;

/// Extension type: signature_algorithms.
pub const EXT_SIGNATURE_ALGORITHMS: u16 = 0x000d;

/// Extension type: key_share.
pub const EXT_KEY_SHARE: u16 = 0x0033;

/// Extension type: supported_versions.
pub const EXT_SUPPORTED_VERSIONS: u16 = 0x002b;

/// Extension type: psk_key_exchange_modes.
pub const EXT_PSK_MODES: u16 = 0x002d;

/// Extension type: extended_master_secret.
pub const EXT_EMS: u16 = 0x0017;

/// Extension type: renegotiation_info.
pub const EXT_RENEGOTIATION_INFO: u16 = 0xff01;

/// Extension type: application_layer_protocol_negotiation.
pub const EXT_ALPN: u16 = 0x0010;

/// Extension type: status_request (OCSP stapling).
pub const EXT_STATUS_REQUEST: u16 = 0x0005;

/// Extension type: signature_algorithms_cert.
pub const EXT_SIGNATURE_ALGORITHMS_CERT: u16 = 0x0032;

/// Extension type: signed_certificate_timestamp.
pub const EXT_SCT: u16 = 0x0012;

/// Extension type: compress_certificate (RFC 8879).
pub const EXT_COMPRESS_CERT: u16 = 0x001b;

/// Extension type: application_settings (draft codepoint).
pub const EXT_ALPS: u16 = 0x4469;

/// Extension type: application_settings (final codepoint).
pub const EXT_ALPS_V2: u16 = 0x44cd;

/// Extension type: delegated_credentials.
pub const EXT_DELEGATED_CREDENTIALS: u16 = 0x001f;

/// Extension type: session_ticket.
pub const EXT_SESSION_TICKET: u16 = 0x0023;

/// Extension type: encrypt_then_mac.
pub const EXT_ETM: u16 = 0x0016;

/// Named group: x25519.
pub const GROUP_X25519: u16 = 0x001d;

/// Named group: secp256r1.
pub const GROUP_SECP256R1: u16 = 0x0017;

/// Named group: secp384r1.
pub const GROUP_SECP384R1: u16 = 0x0018;

/// Named group: GREASE placeholder.
pub const GROUP_GREASE: u16 = 0x0a0a;

/// GREASE extension type (RFC 8701); one fixed value per profile.
pub const GREASE_EXT: u16 = 0x1a1a;

/// GREASE key-share group.
pub const GREASE_KEY_SHARE_GROUP: u16 = 0x3a3a;

/// legacy_session_id is capped at 32 bytes by RFC 8446.
pub const MAX_SESSION_ID_LEN: usize = 32;

/// Length of an X25519 public key.
pub const X25519_PK_LEN: usize = 32;

/// Byte offset of the legacy session id inside the full ClientHello record:
/// record header (5), handshake header (4), legacy version (2), random (32)
/// and the 1-byte session-id length prefix. The REALITY layer zeroes the
/// session id at this offset when computing the AEAD additional data.
pub const SESSION_ID_OFFSET: usize = 44;

/// ALPN body: a 12-byte list holding `h2` and `http/1.1`.
pub const ALPN_BODY: [u8; 14] = [
    0x00, 0x0c, 0x02, 0x68, 0x32, 0x08, 0x68, 0x74, 0x74, 0x70, 0x2f, 0x31, 0x2e, 0x31,
];

/// Signature scheme list: a 16-byte list of eight schemes
/// (ecdsa_secp256r1_sha256, rsa_pss_rsae_sha256, rsa_pkcs1_sha256,
/// ecdsa_secp384r1_sha384, rsa_pss_rsae_sha384, rsa_pkcs1_sha384,
/// rsa_pss_rsae_sha512, rsa_pkcs1_sha512).
pub const SIGNATURE_SCHEMES: [u8; 18] = [
    0x00, 0x10, 0x04, 0x03, 0x08, 0x04, 0x04, 0x01, 0x05, 0x03, 0x08, 0x05, 0x05, 0x01, 0x08, 0x06,
    0x06, 0x01,
];

/// status_request body: OCSP with empty responder and extension lists.
pub const STATUS_REQUEST_BODY: [u8; 5] = [0x01, 0x00, 0x00, 0x00, 0x00];

/// compress_certificate body: brotli only.
pub const COMPRESS_CERT_BODY: [u8; 3] = [0x02, 0x00, 0x02];

/// The offered cipher suites, GREASE first.
pub const CIPHER_SUITES: [u8; 32] = [
    0x0a, 0x0a, 0x13, 0x01, 0x13, 0x02, 0x13, 0x03, 0xc0, 0x2b, 0xc0, 0x2f, 0xc0, 0x2c, 0xc0, 0x30,
    0xc0, 0x32, 0xc0, 0x2d, 0xc0, 0x27, 0xc0, 0x13, 0x00, 0x9c, 0x00, 0x9d, 0x00, 0x2f, 0x00, 0x35,
];

/// Why a ClientHello could not be built or parsed.
#[derive(Debug, Clone, Copy, PartialEq, Eq, Structural)]
pub enum TlsError {
    /// Record or message ended before all declared fields were present.
    Truncated,
    /// Record content type is not a handshake, or message type is not a
    /// ClientHello.
    BadRecordType,
    /// Record version outside the legacy range real clients use.
    BadRecordVersion,
    /// A declared length disagrees with the bytes actually present, or could not
    /// be declared in its field.
    LengthMismatch,
    /// Bytes remain after the ClientHello body that the extensions block
    /// does not account for.
    TrailingBytes,
    /// The server_name extension is present but malformed.
    BadServerName,
    /// legacy_session_id exceeds the RFC 8446 cap.
    ShortIdTooLong,
    /// No x25519 share was offered.
    NoX25519KeyShare,
}

impl TlsError {
    /// The text of each error.
    pub open spec fn text(self) -> Seq<char> {
        match self {
            TlsError::Truncated => "TLS record is truncated"@,
            TlsError::BadRecordType => "not a TLS ClientHello record"@,
            TlsError::BadRecordVersion => "unexpected legacy record version"@,
            TlsError::LengthMismatch => "declared length does not match payload"@,
            TlsError::TrailingBytes => "trailing bytes after ClientHello"@,
            TlsError::BadServerName => "malformed server_name extension"@,
            TlsError::ShortIdTooLong => "session id exceeds 32 bytes"@,
            TlsError::NoX25519KeyShare => "no x25519 share offered"@,
        }
    }

    /// A fixed description that reveals no key material.
    pub fn message(&self) -> (r: &'static str)
        ensures
            r@ == self.text(),
    {
        match self {
            TlsError::Truncated => "TLS record is truncated",
            TlsError::BadRecordType => "not a TLS ClientHello record",
            TlsError::BadRecordVersion => "unexpected legacy record version",
            TlsError::LengthMismatch => "declared length does not match payload",
            TlsError::TrailingBytes => "trailing bytes after ClientHello",
            TlsError::BadServerName => "malformed server_name extension",
            TlsError::ShortIdTooLong => "session id exceeds 32 bytes",
            TlsError::NoX25519KeyShare => "no x25519 share offered",
        }
    }
}

/// A parsed ClientHello: exactly the fields the REALITY server needs.
#[derive(Debug, Clone, PartialEq, Eq)]
pub struct ParsedClientHello {
    /// Host from the server_name extension, if offered.
    pub sni: Option<String>,
    /// The 32-byte `random` field: REALITY salt and nonce source.
    pub random: [u8; 32],
    /// legacy_session_id bytes: the sealed REALITY session material.
    pub session_id: Vec<u8>,
    /// X25519 public key from the key_share extension.
    pub ephemeral_public: [u8; 32],
    /// Whether the client offered TLS 1.3 in supported_versions.
    pub tls13_negotiable: bool,
}

/// The mathematical content of a [`ParsedClientHello`].
#[verifier::ext_equal]
pub struct HelloView {
    pub sni: Option<Seq<char>>,
    pub random: Seq<u8>,
    pub session_id: Seq<u8>,
    pub ephemeral_public: Seq<u8>,
    pub tls13_negotiable: bool,
}

impl View for ParsedClientHello {
    type V = HelloView;

    open spec fn view(&self) -> HelloView {
        HelloView {
            sni: match self.sni {
                Some(s) => Some(s@),
                None => None,
            },
            random: self.random@,
            session_id: self.session_id@,
            ephemeral_public: self.ephemeral_public@,
            tls13_negotiable: self.tls13_negotiable,
        }
    }
}

// ---------------------------------------------------------------------------
// The record that is built
// ---------------------------------------------------------------------------

/// One extension: its type and its body.
#[verifier::ext_equal]
pub struct Extension {
    pub kind: u16,
    pub body: Seq<u8>,
}

/// An extension on the wire: type, 16-bit length, body.
pub open spec fn extension_bytes(e: Extension) -> Seq<u8> {
    be16(e.kind as int) + be16(e.body.len() as int) + e.body
}

/// A list of extensions on the wire, in order.
pub open spec fn extensions_bytes(list: Seq<Extension>) -> Seq<u8>
    decreases list.len(),
{
    if list.len() == 0 {
        Seq::empty()
    } else {
        extensions_bytes(list.drop_last()) + extension_bytes(list.last())
    }
}

/// server_name body: a list holding one host name.
pub open spec fn server_name_body(host: Seq<u8>) -> Seq<u8> {
    be16(3 + host.len() as int) + seq![0u8] + be16(host.len() as int) + host
}

/// supported_groups body. The length field counts three groups.
pub open spec fn groups_body() -> Seq<u8> {
    be16(6) + be16(GROUP_GREASE as int) + be16(GROUP_X25519 as int) + be16(GROUP_SECP256R1 as int)
        + be16(GROUP_SECP384R1 as int)
}

/// supported_versions body: GREASE, TLS 1.3, TLS 1.2.
pub open spec fn versions_body() -> Seq<u8> {
    seq![0x06u8, 0x0a, 0x0a, 0x03, 0x04, 0x03, 0x03]
}

/// key_share body: a one-byte GREASE share, then the real x25519 share.
pub open spec fn key_share_body(key: Seq<u8>) -> Seq<u8> {
    be16(5 + 4 + key.len() as int) + be16(GREASE_KEY_SHARE_GROUP as int) + be16(1) + seq![0u8]
        + be16(GROUP_X25519 as int) + be16(key.len() as int) + key
}

/// The server_name extension, present only when a host is offered.
pub open spec fn sni_extension(sni: Option<Seq<u8>>) -> Seq<Extension> {
    match sni {
        Some(host) => seq![Extension { kind: EXT_SERVER_NAME, body: server_name_body(host) }],
        None => seq![],
    }
}

/// The fixed extensions between server_name and key_share.
pub open spec fn fixed_extensions() -> Seq<Extension> {
    seq![
        Extension { kind: EXT_EMS, body: seq![] },
        Extension { kind: EXT_RENEGOTIATION_INFO, body: seq![0u8] },
        Extension { kind: EXT_SUPPORTED_GROUPS, body: groups_body() },
        Extension { kind: EXT_ALPN, body: ALPN_BODY@ },
        Extension { kind: EXT_SIGNATURE_ALGORITHMS, body: SIGNATURE_SCHEMES@ },
        Extension { kind: EXT_STATUS_REQUEST, body: STATUS_REQUEST_BODY@ },
        Extension { kind: EXT_COMPRESS_CERT, body: COMPRESS_CERT_BODY@ },
        Extension { kind: EXT_SCT, body: seq![] },
        Extension { kind: EXT_PSK_MODES, body: seq![1u8, 1] },
        Extension { kind: EXT_SIGNATURE_ALGORITHMS_CERT, body: SIGNATURE_SCHEMES@ },
        Extension { kind: EXT_DELEGATED_CREDENTIALS, body: SIGNATURE_SCHEMES@ },
        Extension { kind: EXT_ALPS, body: seq![0u8, 0] },
        Extension { kind: EXT_ALPS_V2, body: seq![0u8, 0] },
        Extension { kind: EXT_SESSION_TICKET, body: seq![] },
        Extension { kind: EXT_ETM, body: seq![] },
        Extension { kind: EXT_SUPPORTED_VERSIONS, body: versions_body() },
    ]
}

/// Every extension but the padding, in wire order.
pub open spec fn unpadded_extensions(sni: Option<Seq<u8>>, key: Seq<u8>) -> Seq<Extension> {
    seq![Extension { kind: GREASE_EXT, body: seq![] }] + sni_extension(sni) + fixed_extensions()
        + seq![Extension { kind: EXT_KEY_SHARE, body: key_share_body(key) }]
}

/// What the host name adds to the length that is padded.
pub open spec fn sni_overhead(sni: Option<Seq<u8>>) -> int {
    match sni {
        Some(host) => 9 + host.len() as int,
        None => 0,
    }
}

/// Zero bytes in the padding extension: the extensions, the host overhead and
/// the padding header reach 512 bytes together. There are none where the header
/// alone leaves no room.
pub open spec fn padding_len(unpadded: int, overhead: int) -> int {
    if unpadded + overhead < 508 {
        508 - (unpadded + overhead)
    } else {
        0
    }
}

/// Every extension of the hello, in wire order. A padding extension that would
/// be empty is left out.
pub open spec fn hello_extensions(sni: Option<Seq<u8>>, key: Seq<u8>) -> Seq<Extension> {
    let list = unpadded_extensions(sni, key);
    let pad = padding_len(extensions_bytes(list).len() as int, sni_overhead(sni));
    if pad > 0 {
        list.push(Extension { kind: EXT_PADDING, body: zeros(pad) })
    } else {
        list
    }
}

/// The ClientHello body up to its extensions.
pub open spec fn hello_head(random: Seq<u8>, session_id: Seq<u8>) -> Seq<u8> {
    seq![3u8, 3] + random + seq![session_id.len() as u8] + session_id + be16(32) + CIPHER_SUITES@
        + seq![1u8, 0]
}

/// The ClientHello body around its extension block.
pub open spec fn hello_body(random: Seq<u8>, session_id: Seq<u8>, exts: Seq<u8>) -> Seq<u8> {
    hello_head(random, session_id) + be16(exts.len() as int) + exts
}

/// A handshake message of type ClientHello inside one TLS record.
pub open spec fn hello_frame(body: Seq<u8>) -> Seq<u8> {
    seq![CONTENT_HANDSHAKE, 3, 1] + be16(4 + body.len() as int) + seq![HS_CLIENT_HELLO] + be24(
        body.len() as int,
    ) + body
}

/// The complete ClientHello record.
pub open spec fn hello_record(
    sni: Option<Seq<u8>>,
    key: Seq<u8>,
    random: Seq<u8>,
    session_id: Seq<u8>,
) -> Seq<u8> {
    hello_frame(hello_body(random, session_id, extensions_bytes(hello_extensions(sni, key))))
}

/// The UTF-8 bytes of an offered host name.
pub open spec fn sni_bytes(sni: Option<Seq<char>>) -> Option<Seq<u8>> {
    match sni {
        Some(host) => Some(encode_utf8(host)),
        None => None,
    }
}

/// The text of an optional string slice.
pub open spec fn opt_text(s: Option<&str>) -> Option<Seq<char>> {
    match s {
        Some(host) => Some(host@),
        None => None,
    }
}

/// The length of a hello. Hosts of up to 137 bytes are padded; longer ones leave
/// no room for the padding extension, and the hello grows with them.
pub open spec fn hello_len(sni: Option<Seq<u8>>, session_id_len: int) -> int {
    82 + session_id_len + match sni {
        None => 512int,
        Some(host) => if host.len() <= 137 {
            503 - host.len()
        } else {
            224 + host.len() as int
        },
    }
}

/// Why a hello cannot be built, if it cannot: a session id over its cap, or a
/// host name with which the record length passes its 16-bit field.
pub open spec fn hello_error(sni: Option<Seq<u8>>, session_id_len: int) -> Option<TlsError> {
    if session_id_len > MAX_SESSION_ID_LEN {
        Some(TlsError::ShortIdTooLong)
    } else if hello_len(sni, session_id_len) - 5 > 0xFFFF {
        Some(TlsError::LengthMismatch)
    } else {
        None
    }
}

fn push_extension(out: &mut Vec<u8>, ext_type: u16, data: &[u8])
    ensures
        final(out)@ == old(out)@ + extension_bytes((Extension { kind: ext_type, body: data@ })),
        final(out)@.len() == old(out)@.len() + 4 + data@.len(),
{
    push_u16(out, ext_type);
    push_u16(out, low16(data.len()));
    out.extend_from_slice(data);
    assert(out@ =~= old(out)@ + extension_bytes((Extension { kind: ext_type, body: data@ })));
}

proof fn lemma_extensions_push(list: Seq<Extension>, e: Extension)
    ensures
        extensions_bytes(list.push(e)) == extensions_bytes(list) + extension_bytes(e),
{
    assert(list.push(e).drop_last() =~= list);
}

/// Concatenated lists are concatenated on the wire.
proof fn lemma_extensions_concat(a: Seq<Extension>, b: Seq<Extension>)
    ensures
        extensions_bytes(a + b) == extensions_bytes(a) + extensions_bytes(b),
    decreases b.len(),
{
    if b.len() == 0 {
        assert(a + b =~= a);
        assert(extensions_bytes(a) + extensions_bytes(b) =~= extensions_bytes(a));
    } else {
        assert((a + b).drop_last() =~= a + b.drop_last());
        lemma_extensions_concat(a, b.drop_last());
        assert((a + b).last() == b.last());
        assert(extensions_bytes(a + b) =~= extensions_bytes(a) + extensions_bytes(b));
    }
}

/// Appends extension number `i` of `list` behind the ones before it.
fn push_listed(
    out: &mut Vec<u8>,
    ext_type: u16,
    data: &[u8],
    Ghost(list): Ghost<Seq<Extension>>,
    Ghost(i): Ghost<int>,
)
    requires
        0 <= i < list.len(),
        list[i].kind == ext_type,
        list[i].body =~= data@,
        old(out)@ == extensions_bytes(list.take(i)),
    ensures
        final(out)@ == extensions_bytes(list.take(i + 1)),
        final(out)@.len() == old(out)@.len() + 4 + data@.len(),
{
    push_extension(out, ext_type, data);
    proof {
        lemma_extensions_push(list.take(i), list[i]);
        assert(list.take(i).push(list[i]) =~= list.take(i + 1));
    }
}

fn groups_bytes() -> (r: Vec<u8>)
    ensures
        r@ == groups_body(),
        r@.len() == 10,
{
    let mut groups: Vec<u8> = Vec::new();
    push_u16(&mut groups, 6);
    push_u16(&mut groups, GROUP_GREASE);
    push_u16(&mut groups, GROUP_X25519);
    push_u16(&mut groups, GROUP_SECP256R1);
    push_u16(&mut groups, GROUP_SECP384R1);
    assert(groups@ =~= groups_body());
    groups
}

/// The fixed extensions, concatenated.
fn fixed_extension_bytes() -> (r: Vec<u8>)
    ensures
        r@ == extensions_bytes(fixed_extensions()),
        r@.len() == 164,
{
    let mut exts: Vec<u8> = Vec::new();
    let groups = groups_bytes();
    let versions: [u8; 7] = [0x06, 0x0a, 0x0a, 0x03, 0x04, 0x03, 0x03];
    let ghost list = fixed_extensions();
    assert(versions@ =~= versions_body());
    assert(exts@ =~= extensions_bytes(list.take(0)));
    push_listed(&mut exts, EXT_EMS, &[], Ghost(list), Ghost(0));
    push_listed(&mut exts, EXT_RENEGOTIATION_INFO, &[0x00], Ghost(list), Ghost(1));
    push_listed(&mut exts, EXT_SUPPORTED_GROUPS, &groups, Ghost(list), Ghost(2));
    push_listed(&mut exts, EXT_ALPN, &ALPN_BODY, Ghost(list), Ghost(3));
    push_listed(&mut exts, EXT_SIGNATURE_ALGORITHMS, &SIGNATURE_SCHEMES, Ghost(list), Ghost(4));
    push_listed(&mut exts, EXT_STATUS_REQUEST, &STATUS_REQUEST_BODY, Ghost(list), Ghost(5));
    push_listed(&mut exts, EXT_COMPRESS_CERT, &COMPRESS_CERT_BODY, Ghost(list), Ghost(6));
    push_listed(&mut exts, EXT_SCT, &[], Ghost(list), Ghost(7));
    push_listed(&mut exts, EXT_PSK_MODES, &[0x01, 0x01], Ghost(list), Ghost(8));
    push_listed(&mut exts, EXT_SIGNATURE_ALGORITHMS_CERT, &SIGNATURE_SCHEMES, Ghost(list), Ghost(9));
    push_listed(&mut exts, EXT_DELEGATED_CREDENTIALS, &SIGNATURE_SCHEMES, Ghost(list), Ghost(10));
    push_listed(&mut exts, EXT_ALPS, &[0x00, 0x00], Ghost(list), Ghost(11));
    push_listed(&mut exts, EXT_ALPS_V2, &[0x00, 0x00], Ghost(list), Ghost(12));
    push_listed(&mut exts, EXT_SESSION_TICKET, &[], Ghost(list), Ghost(13));
    push_listed(&mut exts, EXT_ETM, &[], Ghost(list), Ghost(14));
    push_listed(&mut exts, EXT_SUPPORTED_VERSIONS, &versions, Ghost(list), Ghost(15));
    assert(list.take(16) =~= list);
    exts
}

/// Every extension but the padding.
fn unpadded_extension_bytes(sni: Option<&str>, key: &[u8; 32]) -> (r: Vec<u8>)
    requires
        sni matches Some(h) ==> encode_utf8(h@).len() <= 0xFF_FFFF,
    ensures
        r@ == extensions_bytes(unpadded_extensions(sni_bytes(opt_text(sni)), key@)),
        sni is None ==> r@.len() == 215,
        sni matches Some(h) ==> r@.len() == 224 + encode_utf8(h@).len(),
{
    let ghost host = sni_bytes(opt_text(sni));
    let ghost grease = Extension { kind: GREASE_EXT, body: seq![] };
    let ghost share = Extension { kind: EXT_KEY_SHARE, body: key_share_body(key@) };
    let mut exts: Vec<u8> = Vec::new();
    let ghost mut done: Seq<Extension> = Seq::empty();

    push_extension(&mut exts, GREASE_EXT, &[]);
    proof {
        lemma_extensions_push(done, grease);
        done = done.push(grease);
        assert(grease.body =~= Seq::<u8>::empty());
        assert(exts@ =~= extensions_bytes(done));
    }

    if let Some(h) = sni {
        let mut body: Vec<u8> = Vec::new();
        push_u16(&mut body, low16(3 + h.len()));
        body.push(0u8);
        push_u16(&mut body, low16(h.len()));
        body.extend_from_slice(h.as_bytes());
        let ghost hb = encode_utf8(h@);
        assert(body@ =~= server_name_body(hb));
        push_extension(&mut exts, EXT_SERVER_NAME, &body);
        proof {
            let e = Extension { kind: EXT_SERVER_NAME, body: body@ };
            lemma_extensions_push(done, e);
            done = done.push(e);
        }
    }
    assert(done =~= seq![grease] + sni_extension(host));

    let fixed = fixed_extension_bytes();
    exts.extend_from_slice(&fixed);
    proof {
        lemma_extensions_concat(done, fixed_extensions());
        done = done + fixed_extensions();
        assert(exts@ =~= extensions_bytes(done));
    }

    let mut shares: Vec<u8> = Vec::new();
    push_u16(&mut shares, (5 + 4 + X25519_PK_LEN) as u16);
    push_u16(&mut shares, GREASE_KEY_SHARE_GROUP);
    push_u16(&mut shares, 1);
    shares.push(0x00);
    push_u16(&mut shares, GROUP_X25519);
    push_u16(&mut shares, X25519_PK_LEN as u16);
    shares.extend_from_slice(key);
    assert(shares@ =~= key_share_body(key@));
    push_extension(&mut exts, EXT_KEY_SHARE, &shares);
    proof {
        lemma_extensions_push(done, share);
        assert(done.push(share) =~= unpadded_extensions(host, key@));
    }
    exts
}

/// Builds a complete TLS 1.3 ClientHello record.
///
/// `random` is the real hello random: the REALITY layer salts its key
/// derivation with `random[..20]` and uses `random[20..32]` as the AEAD nonce
/// for the session-id seal. `session_id` is the sealed 32-byte legacy session
/// id, or zeros before sealing. `sni = None` omits the server_name extension
/// entirely, which is still legal TLS. A host name whose length the record could
/// not declare is refused, so every hello parses back to what it was built from.
pub fn build_client_hello(
    sni: Option<&str>,
    ephemeral_public: &[u8; 32],
    random: &[u8; 32],
    session_id: &[u8],
) -> (r: Result<Vec<u8>, TlsError>)
    ensures
        match hello_error(sni_bytes(opt_text(sni)), session_id@.len() as int) {
            Some(e) => r == Err::<Vec<u8>, _>(e),
            None => {
                &&& r is Ok
                &&& r->Ok_0@ == hello_record(
                    sni_bytes(opt_text(sni)),
                    ephemeral_public@,
                    random@,
                    session_id@,
                )
                &&& r->Ok_0@.len() == hello_len(
                    sni_bytes(opt_text(sni)),
                    session_id@.len() as int,
                )
                &&& parse_hello(r->Ok_0@) == Ok::<_, TlsError>(
                    HelloView {
                        sni: opt_text(sni),
                        random: random@,
                        session_id: session_id@,
                        ephemeral_public: ephemeral_public@,
                        tls13_negotiable: true,
                    },
                )
            },
        },
{
    if session_id.len() > MAX_SESSION_ID_LEN {
        return Err(TlsError::ShortIdTooLong);
    }
    let ghost host = sni_bytes(opt_text(sni));
    if let Some(h) = sni {
        if h.as_bytes().len() > 0xFFFF - 301 - session_id.len() {
            return Err(TlsError::LengthMismatch);
        }
    }
    let mut exts = unpadded_extension_bytes(sni, ephemeral_public);
    let ghost list = unpadded_extensions(host, ephemeral_public@);
    let overhead: usize = match sni {
        Some(h) => 9 + h.len(),
        None => 0,
    };
    let total: usize = exts.len() + overhead;
    let pad: usize = if total < 508 {
        508 - total
    } else {
        0
    };
    assert(pad == padding_len(exts@.len() as int, sni_overhead(host)));
    if pad > 0 {
        let zero_bytes: Vec<u8> = vec![0u8; pad];
        assert(zero_bytes@ =~= zeros(pad as int));
        push_extension(&mut exts, EXT_PADDING, &zero_bytes);
        proof {
            lemma_extensions_push(list, Extension { kind: EXT_PADDING, body: zeros(pad as int) });
        }
    }
    assert(exts@ == extensions_bytes(hello_extensions(host, ephemeral_public@)));

    let mut body: Vec<u8> = Vec::new();
    body.push(0x03);
    body.push(0x03);
    body.extend_from_slice(random);
    body.push(session_id.len() as u8);
    body.extend_from_slice(session_id);
    push_u16(&mut body, 32);
    body.extend_from_slice(&CIPHER_SUITES);
    body.push(0x01);
    body.push(0x00);
    assert(body@ =~= hello_head(random@, session_id@));
    push_u16(&mut body, low16(exts.len()));
    body.extend_from_slice(&exts);
    assert(body@ =~= hello_body(random@, session_id@, exts@));

    let mut record: Vec<u8> = Vec::new();
    record.push(CONTENT_HANDSHAKE);
    record.push(0x03);
    record.push(0x01);
    push_u16(&mut record, low16(4 + body.len()));
    record.push(HS_CLIENT_HELLO);
    push_u24(&mut record, body.len());
    record.extend_from_slice(&body);
    assert(record@ =~= hello_frame(body@));
    proof {
        law_hello_record_len(host, ephemeral_public@, random@, session_id@);
        law_hello_round_trip(opt_text(sni), ephemeral_public@, random@, session_id@);
    }
    Ok(record)
}

// ---------------------------------------------------------------------------
// Parsing
// ---------------------------------------------------------------------------

/// What the extensions seen so far have given.
#[verifier::ext_equal]
pub struct HelloScan {
    pub sni: Option<Seq<char>>,
    pub key: Option<Seq<u8>>,
    pub tls13: bool,
}

/// The host name of a server_name body.
pub open spec fn parse_server_name(s: Seq<u8>) -> Result<Seq<char>, TlsError> {
    if s.len() < 5 {
        Err(TlsError::Truncated)
    } else if s[2] != 0 || u16_at(s, 0) != 3 + u16_at(s, 3) {
        Err(TlsError::BadServerName)
    } else if s.len() - 5 < u16_at(s, 3) {
        Err(TlsError::Truncated)
    } else if s.len() - 5 != u16_at(s, 3) || !valid_utf8(s.skip(5)) {
        Err(TlsError::BadServerName)
    } else {
        Ok(decode_utf8(s.skip(5)))
    }
}

/// The first 32-byte x25519 share among `left` bytes of shares, unless `key`
/// holds one already. The shares must fill the body exactly.
pub open spec fn parse_shares(s: Seq<u8>, left: int, key: Option<Seq<u8>>) -> Result<
    Option<Seq<u8>>,
    TlsError,
>
    decreases s.len(),
{
    if left <= 0 {
        if s.len() == 0 {
            Ok(key)
        } else {
            Err(TlsError::LengthMismatch)
        }
    } else if s.len() < 4 || s.len() - 4 < u16_at(s, 2) {
        Err(TlsError::Truncated)
    } else {
        let n = u16_at(s, 2);
        let found = if u16_at(s, 0) == GROUP_X25519 && n == X25519_PK_LEN && key is None {
            Some(s.subrange(4, 4 + n))
        } else {
            key
        };
        parse_shares(s.skip(4 + n), left - 4 - n, found)
    }
}

/// The x25519 share after a key_share body.
pub open spec fn parse_key_share(s: Seq<u8>, key: Option<Seq<u8>>) -> Result<
    Option<Seq<u8>>,
    TlsError,
> {
    if s.len() < 2 {
        Err(TlsError::Truncated)
    } else {
        parse_shares(s.skip(2), u16_at(s, 0), key)
    }
}

/// Whether the first `n` versions after the length byte hold TLS 1.3.
pub open spec fn offers_tls13(s: Seq<u8>, n: int) -> bool {
    exists|i: int| 0 <= i < n && #[trigger] u16_at(s, 1 + 2 * i) == 0x0304
}

/// Whether a supported_versions body offers TLS 1.3.
pub open spec fn parse_versions(s: Seq<u8>) -> Result<bool, TlsError> {
    if s.len() < 1 {
        Err(TlsError::Truncated)
    } else if s[0] % 2 != 0 {
        Err(TlsError::LengthMismatch)
    } else if s.len() - 1 < s[0] {
        Err(TlsError::Truncated)
    } else if s.len() - 1 != s[0] {
        Err(TlsError::LengthMismatch)
    } else {
        Ok(offers_tls13(s, s[0] as int / 2))
    }
}

/// What one extension adds. Extensions that are not interpreted add nothing.
pub open spec fn parse_extension(kind: int, body: Seq<u8>, acc: HelloScan) -> Result<
    HelloScan,
    TlsError,
> {
    if kind == EXT_SERVER_NAME {
        match parse_server_name(body) {
            Ok(name) => Ok(HelloScan { sni: Some(name), ..acc }),
            Err(e) => Err(e),
        }
    } else if kind == EXT_KEY_SHARE {
        match parse_key_share(body, acc.key) {
            Ok(key) => Ok(HelloScan { key, ..acc }),
            Err(e) => Err(e),
        }
    } else if kind == EXT_SUPPORTED_VERSIONS {
        match parse_versions(body) {
            Ok(offered) => Ok(HelloScan { tls13: acc.tls13 || offered, ..acc }),
            Err(e) => Err(e),
        }
    } else {
        Ok(acc)
    }
}

/// Scans `left` bytes of extensions; gives the bytes behind them and what they
/// held.
pub open spec fn parse_extensions(s: Seq<u8>, left: int, acc: HelloScan) -> Result<
    (Seq<u8>, HelloScan),
    TlsError,
>
    decreases left,
{
    if left <= 0 {
        Ok((s, acc))
    } else if s.len() < 4 {
        Err(TlsError::Truncated)
    } else {
        let n = u16_at(s, 2);
        if 4 + n > left {
            Err(TlsError::LengthMismatch)
        } else if s.len() - 4 < n {
            Err(TlsError::Truncated)
        } else {
            match parse_extension(u16_at(s, 0), s.subrange(4, 4 + n), acc) {
                Ok(next) => parse_extensions(s.skip(4 + n), left - 4 - n, next),
                Err(e) => Err(e),
            }
        }
    }
}

/// What a scan of nothing gives.
pub open spec fn empty_scan() -> HelloScan {
    HelloScan { sni: None, key: None, tls13: false }
}

/// The hello that a scanned extension block completes.
pub open spec fn finish_hello(
    random: Seq<u8>,
    session_id: Seq<u8>,
    scan: Result<(Seq<u8>, HelloScan), TlsError>,
) -> Result<HelloView, TlsError> {
    match scan {
        Err(e) => Err(e),
        Ok((rest, found)) => if rest.len() != 0 {
            Err(TlsError::TrailingBytes)
        } else {
            match found.key {
                None => Err(TlsError::NoX25519KeyShare),
                Some(key) => Ok(
                    HelloView {
                        sni: found.sni,
                        random,
                        session_id,
                        ephemeral_public: key,
                        tls13_negotiable: found.tls13,
                    },
                ),
            }
        },
    }
}

/// What a ClientHello body holds, read behind the two length headers. `w` is
/// the whole record; the body starts at offset 9.
pub open spec fn parse_hello_body(w: Seq<u8>) -> Result<HelloView, TlsError> {
    if w.len() < 44 {
        Err(TlsError::Truncated)
    } else if w[43] > MAX_SESSION_ID_LEN {
        Err(TlsError::ShortIdTooLong)
    } else {
        let ciphers_at = 44 + w[43] as int;
        if w.len() < ciphers_at + 2 {
            Err(TlsError::Truncated)
        } else if u16_at(w, ciphers_at) % 2 != 0 {
            Err(TlsError::LengthMismatch)
        } else {
            let methods_at = ciphers_at + 2 + u16_at(w, ciphers_at);
            if w.len() < methods_at + 1 {
                Err(TlsError::Truncated)
            } else {
                let exts_at = methods_at + 1 + w[methods_at] as int;
                if w.len() < exts_at + 2 {
                    Err(TlsError::Truncated)
                } else {
                    finish_hello(
                        w.subrange(11, 43),
                        w.subrange(44, ciphers_at),
                        parse_extensions(w.skip(exts_at + 2), u16_at(w, exts_at), empty_scan()),
                    )
                }
            }
        }
    }
}

/// What a ClientHello record holds, or the first thing wrong with it.
pub open spec fn parse_hello(w: Seq<u8>) -> Result<HelloView, TlsError> {
    if w.len() < 1 {
        Err(TlsError::Truncated)
    } else if w[0] != CONTENT_HANDSHAKE {
        Err(TlsError::BadRecordType)
    } else if w.len() < 3 {
        Err(TlsError::Truncated)
    } else if w[1] != 3 || w[2] > 3 {
        Err(TlsError::BadRecordVersion)
    } else if w.len() < 5 {
        Err(TlsError::Truncated)
    } else if w.len() - 5 != u16_at(w, 3) {
        Err(TlsError::LengthMismatch)
    } else if w.len() < 6 {
        Err(TlsError::Truncated)
    } else if w[5] != HS_CLIENT_HELLO {
        Err(TlsError::BadRecordType)
    } else if w.len() < 9 {
        Err(TlsError::Truncated)
    } else if w.len() - 9 != u24_at(w, 6) {
        Err(TlsError::LengthMismatch)
    } else {
        parse_hello_body(w)
    }
}

/// The random of a parsed hello is 32 bytes long.
pub proof fn lemma_parsed_random(w: Seq<u8>)
    ensures
        parse_hello(w) matches Ok(h) ==> h.random.len() == 32,
{
}

/// Reads the host name of a server_name body.
fn read_server_name(body: &[u8]) -> (r: Result<String, TlsError>)
    ensures
        match r {
            Ok(name) => parse_server_name(body@) == Ok::<_, TlsError>(name@),
            Err(e) => parse_server_name(body@) == Err::<Seq<char>, _>(e),
        },
{
    let mut er = Reader::new(body);
    let list_len = er.u16().ok_or(TlsError::Truncated)?;
    let name_type = er.u8().ok_or(TlsError::Truncated)?;
    let name_len = er.u16().ok_or(TlsError::Truncated)?;
    if name_type != 0 || list_len as u32 != 3 + name_len as u32 {
        return Err(TlsError::BadServerName);
    }
    let name = er.take(name_len as usize).ok_or(TlsError::Truncated)?;
    if !er.exhausted() {
        return Err(TlsError::BadServerName);
    }
    assert(name@ =~= body@.skip(5));
    string_from_utf8(copy_slice(name)).ok_or(TlsError::BadServerName)
}

/// Reads the x25519 share of a key_share body.
fn read_key_share(body: &[u8], key: Option<[u8; 32]>) -> (r: Result<Option<[u8; 32]>, TlsError>)
    ensures
        match r {
            Ok(k) => parse_key_share(body@, opt_array(key)) == Ok::<_, TlsError>(opt_array(k)),
            Err(e) => parse_key_share(body@, opt_array(key)) == Err::<Option<Seq<u8>>, _>(e),
        },
{
    let mut er = Reader::new(body);
    let shares_len = er.u16().ok_or(TlsError::Truncated)? as usize;
    let mut read: usize = 0;
    let mut found = key;
    while read < shares_len
        invariant
            er.wf(),
            er.buf@.len() == body@.len(),
            er.buf == body,
            shares_len < 0x1_0000,
            parse_key_share(body@, opt_array(key)) == parse_shares(
                er.rest(),
                shares_len - read,
                opt_array(found),
            ),
            read <= shares_len + 0x1_0004,
        decreases er.rest().len(),
    {
        let ghost rest = er.rest();
        let group = er.u16().ok_or(TlsError::Truncated)?;
        let klen = er.u16().ok_or(TlsError::Truncated)? as usize;
        let share = er.take(klen).ok_or(TlsError::Truncated)?;
        assert(share@ =~= rest.subrange(4, 4 + klen as int));
        assert(er.rest() =~= rest.skip(4 + klen as int));
        read += 4 + klen;
        if group == GROUP_X25519 && klen == X25519_PK_LEN && found.is_none() {
            found = Some(array32(share));
        }
    }
    if !er.exhausted() {
        return Err(TlsError::LengthMismatch);
    }
    Ok(found)
}

/// The bytes of an optional key.
pub open spec fn opt_array(key: Option<[u8; 32]>) -> Option<Seq<u8>> {
    match key {
        Some(k) => Some(k@),
        None => None,
    }
}

/// Reads whether a supported_versions body offers TLS 1.3.
fn read_versions(body: &[u8]) -> (r: Result<bool, TlsError>)
    ensures
        r == parse_versions(body@),
{
    let mut er = Reader::new(body);
    let list_bytes = er.u8().ok_or(TlsError::Truncated)?;
    if list_bytes % 2 != 0 {
        return Err(TlsError::LengthMismatch);
    }
    let count: u8 = list_bytes / 2;
    let mut i: u8 = 0;
    let mut offered = false;
    while i < count
        invariant
            er.wf(),
            er.buf == body,
            body@.len() >= 1,
            body@[0] == 2 * count,
            i <= count,
            er.pos == 1 + 2 * i,
            offered == offers_tls13(body@, i as int),
        decreases count - i,
    {
        let v = er.u16().ok_or(TlsError::Truncated)?;
        assert(v == u16_at(body@, 1 + 2 * (i as int)));
        if v == 0x0304 {
            offered = true;
        }
        i += 1;
    }
    if !er.exhausted() {
        return Err(TlsError::LengthMismatch);
    }
    Ok(offered)
}

/// Checks the record and handshake headers and their declared lengths.
fn check_headers(wire: &[u8]) -> (r: Result<(), TlsError>)
    ensures
        match r {
            Ok(()) => wire@.len() >= 9 && parse_hello(wire@) == parse_hello_body(wire@),
            Err(e) => parse_hello(wire@) == Err::<HelloView, _>(e),
        },
{
    let mut r = Reader::new(wire);
    if r.u8().ok_or(TlsError::Truncated)? != CONTENT_HANDSHAKE {
        return Err(TlsError::BadRecordType);
    }
    let version = r.take(2).ok_or(TlsError::Truncated)?;
    if version[0] != 0x03 || version[1] > 0x03 {
        return Err(TlsError::BadRecordVersion);
    }
    let record_len = r.u16().ok_or(TlsError::Truncated)? as usize;
    if r.remaining() != record_len {
        return Err(TlsError::LengthMismatch);
    }
    if r.u8().ok_or(TlsError::Truncated)? != HS_CLIENT_HELLO {
        return Err(TlsError::BadRecordType);
    }
    let body_len = r.u24().ok_or(TlsError::Truncated)?;
    if r.remaining() != body_len {
        return Err(TlsError::LengthMismatch);
    }
    Ok(())
}

/// The fields of a ClientHello body in front of its extension block.
struct HelloHead {
    random: [u8; 32],
    session_id: Vec<u8>,
    ext_total: usize,
    exts_at: usize,
}

/// Reads the ClientHello body up to its extension block.
#[verifier::spinoff_prover]
#[verifier::rlimit(50)]
fn read_head(wire: &[u8]) -> (r: Result<HelloHead, TlsError>)
    requires
        wire@.len() >= 9,
    ensures
        match r {
            Ok(head) => head.exts_at <= wire@.len() && head.ext_total < 0x1_0000
                && parse_hello_body(wire@) == finish_hello(
                head.random@,
                head.session_id@,
                parse_extensions(
                    wire@.skip(head.exts_at as int),
                    head.ext_total as int,
                    empty_scan(),
                ),
            ),
            Err(e) => parse_hello_body(wire@) == Err::<HelloView, _>(e),
        },
{
    let mut r = Reader { buf: wire, pos: 9 };
    let _legacy_version = r.take(2).ok_or(TlsError::Truncated)?;
    let random_bytes = r.take(32).ok_or(TlsError::Truncated)?;
    let random = array32(random_bytes);
    let sid_len = r.u8().ok_or(TlsError::Truncated)? as usize;
    if sid_len > MAX_SESSION_ID_LEN {
        return Err(TlsError::ShortIdTooLong);
    }
    let session_id = copy_slice(r.take(sid_len).ok_or(TlsError::Truncated)?);
    assert(random@ =~= wire@.subrange(11, 43));
    assert(session_id@ =~= wire@.subrange(44, 44 + sid_len as int));
    let cipher_len = r.u16().ok_or(TlsError::Truncated)? as usize;
    if cipher_len % 2 != 0 {
        return Err(TlsError::LengthMismatch);
    }
    let _ciphers = r.take(cipher_len).ok_or(TlsError::Truncated)?;
    let comp_len = r.u8().ok_or(TlsError::Truncated)? as usize;
    let _methods = r.take(comp_len).ok_or(TlsError::Truncated)?;
    let ext_total = r.u16().ok_or(TlsError::Truncated)? as usize;
    Ok(HelloHead { random, session_id, ext_total, exts_at: r.pos })
}

/// Parses a complete TLS 1.3 ClientHello record from raw wire bytes.
pub fn parse_client_hello(wire: &[u8]) -> (r: Result<ParsedClientHello, TlsError>)
    ensures
        match r {
            Ok(hello) => parse_hello(wire@) == Ok::<_, TlsError>(hello@),
            Err(e) => parse_hello(wire@) == Err::<HelloView, _>(e),
        },
{
    check_headers(wire)?;
    let head = read_head(wire)?;
    let mut r = Reader { buf: wire, pos: head.exts_at };
    let ghost scan = parse_extensions(r.rest(), head.ext_total as int, empty_scan());
    let mut sni: Option<String> = None;
    let mut key: Option<[u8; 32]> = None;
    let mut tls13 = false;
    let mut read: usize = 0;
    while read < head.ext_total
        invariant
            r.wf(),
            read <= head.ext_total < 0x1_0000,
            scan == parse_extensions(
                r.rest(),
                head.ext_total - read,
                HelloScan { sni: opt_string(sni), key: opt_array(key), tls13 },
            ),
            parse_hello(wire@) == finish_hello(head.random@, head.session_id@, scan),
        decreases head.ext_total - read,
    {
        let ghost rest = r.rest();
        let ext_type = r.u16().ok_or(TlsError::Truncated)?;
        let ext_len = r.u16().ok_or(TlsError::Truncated)? as usize;
        if read + 4 + ext_len > head.ext_total {
            return Err(TlsError::LengthMismatch);
        }
        let body = r.take(ext_len).ok_or(TlsError::Truncated)?;
        assert(body@ =~= rest.subrange(4, 4 + ext_len as int));
        assert(r.rest() =~= rest.skip(4 + ext_len as int));
        if ext_type == EXT_SERVER_NAME {
            sni = Some(read_server_name(body)?);
        } else if ext_type == EXT_KEY_SHARE {
            key = read_key_share(body, key)?;
        } else if ext_type == EXT_SUPPORTED_VERSIONS {
            if read_versions(body)? {
                tls13 = true;
            }
        }
        read += 4 + ext_len;
    }
    if !r.exhausted() {
        return Err(TlsError::TrailingBytes);
    }
    let ephemeral_public = key.ok_or(TlsError::NoX25519KeyShare)?;
    Ok(
        ParsedClientHello {
            sni,
            random: head.random,
            session_id: head.session_id,
            ephemeral_public,
            tls13_negotiable: tls13,
        },
    )
}

/// The text of an optional string.
pub open spec fn opt_string(s: Option<String>) -> Option<Seq<char>> {
    match s {
        Some(t) => Some(t@),
        None => None,
    }
}

// ---------------------------------------------------------------------------
// Laws
// ---------------------------------------------------------------------------

/// What a list of extensions gives, one after the other.
spec fn parse_list(list: Seq<Extension>, acc: HelloScan) -> Result<HelloScan, TlsError>
    decreases list.len(),
{
    if list.len() == 0 {
        Ok(acc)
    } else {
        match parse_extension(list[0].kind as int, list[0].body, acc) {
            Ok(next) => parse_list(list.drop_first(), next),
            Err(e) => Err(e),
        }
    }
}

/// Whether the parser looks inside extensions of this type.
spec fn interpreted(kind: u16) -> bool {
    kind == EXT_SERVER_NAME || kind == EXT_KEY_SHARE || kind == EXT_SUPPORTED_VERSIONS
}

proof fn lemma_extensions_first(list: Seq<Extension>)
    requires
        list.len() > 0,
    ensures
        extensions_bytes(list) == extension_bytes(list[0]) + extensions_bytes(list.drop_first()),
{
    assert(list =~= seq![list[0]] + list.drop_first());
    lemma_extensions_concat(seq![list[0]], list.drop_first());
    lemma_extensions_push(Seq::empty(), list[0]);
    assert(Seq::<Extension>::empty().push(list[0]) =~= seq![list[0]]);
    assert(extensions_bytes(seq![list[0]]) =~= extension_bytes(list[0]));
}

/// The fields of one extension, read at the front of the bytes that hold it.
proof fn lemma_extension_fields(e: Extension, t: Seq<u8>)
    requires
        e.body.len() < 0x1_0000,
    ensures
        ({
            let s = extension_bytes(e) + t;
            let n = e.body.len() as int;
            &&& s.len() == 4 + n + t.len()
            &&& u16_at(s, 0) == e.kind
            &&& u16_at(s, 2) == n
            &&& s.subrange(4, 4 + n) == e.body
            &&& s.skip(4 + n) == t
        }),
{
    let s = extension_bytes(e) + t;
    let n = e.body.len() as int;
    let eb = extension_bytes(e);
    assert(eb[0] == be16(e.kind as int)[0] && eb[1] == be16(e.kind as int)[1]);
    assert(eb[2] == be16(n)[0] && eb[3] == be16(n)[1]);
    assert(s[0] == eb[0] && s[1] == eb[1] && s[2] == eb[2] && s[3] == eb[3]);
    assert(s.subrange(4, 4 + n) =~= e.body);
    assert(s.skip(4 + n) =~= t);
}

/// Parsing the bytes of a list is parsing the list.
proof fn lemma_parse_list(list: Seq<Extension>, tail: Seq<u8>, acc: HelloScan)
    requires
        extensions_bytes(list).len() < 0x1_0000,
    ensures
        parse_extensions(
            extensions_bytes(list) + tail,
            extensions_bytes(list).len() as int,
            acc,
        ) == (match parse_list(list, acc) {
            Ok(next) => Ok::<(Seq<u8>, HelloScan), TlsError>((tail, next)),
            Err(e) => Err(e),
        }),
    decreases list.len(),
{
    let all = extensions_bytes(list);
    if list.len() == 0 {
        assert(all + tail =~= tail);
    } else {
        let e = list[0];
        let rest = list.drop_first();
        lemma_extensions_first(list);
        let t = extensions_bytes(rest) + tail;
        assert(all + tail =~= extension_bytes(e) + t);
        assert(e.body.len() < 0x1_0000);
        lemma_extension_fields(e, t);
        match parse_extension(e.kind as int, e.body, acc) {
            Ok(next) => {
                lemma_parse_list(rest, tail, next);
            },
            Err(_) => {},
        }
    }
}

proof fn lemma_parse_list_concat(a: Seq<Extension>, b: Seq<Extension>, acc: HelloScan)
    ensures
        parse_list(a + b, acc) == (match parse_list(a, acc) {
            Ok(next) => parse_list(b, next),
            Err(e) => Err(e),
        }),
    decreases a.len(),
{
    if a.len() == 0 {
        assert(a + b =~= b);
    } else {
        assert((a + b).drop_first() =~= a.drop_first() + b);
        match parse_extension(a[0].kind as int, a[0].body, acc) {
            Ok(next) => {
                lemma_parse_list_concat(a.drop_first(), b, next);
            },
            Err(_) => {},
        }
    }
}

proof fn lemma_parse_list_skips(list: Seq<Extension>, acc: HelloScan)
    requires
        forall|i: int| 0 <= i < list.len() ==> !interpreted(#[trigger] list[i].kind),
    ensures
        parse_list(list, acc) == Ok::<HelloScan, TlsError>(acc),
    decreases list.len(),
{
    if list.len() > 0 {
        assert(!interpreted(list[0].kind));
        assert forall|i: int| 0 <= i < list.drop_first().len() implies !interpreted(
            #[trigger] list.drop_first()[i].kind,
        ) by {
            assert(list.drop_first()[i] == list[i + 1]);
        }
        lemma_parse_list_skips(list.drop_first(), acc);
    }
}

proof fn lemma_parse_list_one(e: Extension, acc: HelloScan)
    ensures
        parse_list(seq![e], acc) == parse_extension(e.kind as int, e.body, acc),
{
    assert(seq![e].drop_first() =~= Seq::<Extension>::empty());
    reveal_with_fuel(parse_list, 2);
}

#[verifier::spinoff_prover]
#[verifier::rlimit(50)]
proof fn lemma_server_name_round_trip(host: Seq<char>)
    requires
        encode_utf8(host).len() <= 0xFFFF - 3,
    ensures
        parse_server_name(server_name_body(encode_utf8(host))) == Ok::<_, TlsError>(host),
{
    let h = encode_utf8(host);
    let n = h.len() as int;
    let s = server_name_body(h);
    assert(s[0] == be16(3 + n)[0] && s[1] == be16(3 + n)[1]);
    assert(s[2] == 0);
    assert(s[3] == be16(n)[0] && s[4] == be16(n)[1]);
    assert(s.skip(5) =~= h);
    assert(u16_at(s, 0) == 3 + n);
    assert(u16_at(s, 3) == n);
    assert(s.len() == 5 + n);
    vstd::utf8::encode_utf8_valid_utf8(host);
    vstd::utf8::encode_utf8_decode_utf8(host);
}

proof fn lemma_key_share_round_trip(key: Seq<u8>)
    requires
        key.len() == X25519_PK_LEN,
    ensures
        parse_key_share(key_share_body(key), None) == Ok::<_, TlsError>(Some(key)),
{
    let s = key_share_body(key);
    assert(s.len() == 43);
    assert(u16_at(s, 0) == 41);
    let t = s.skip(2);
    assert(u16_at(t, 0) == GREASE_KEY_SHARE_GROUP);
    assert(u16_at(t, 2) == 1);
    let u = t.skip(5);
    assert(u16_at(u, 0) == GROUP_X25519);
    assert(u16_at(u, 2) == 32);
    assert(u.subrange(4, 36) =~= key);
    assert(u.skip(36) =~= Seq::<u8>::empty());
    assert(parse_shares(u.skip(36), 0, Some(key)) == Ok::<_, TlsError>(Some(key)));
    assert(parse_shares(u, 36, None) == Ok::<_, TlsError>(Some(key)));
    assert(parse_shares(t, 41, None) == parse_shares(u, 36, None));
}

proof fn lemma_versions_body()
    ensures
        parse_versions(versions_body()) == Ok::<_, TlsError>(true),
{
    let s = versions_body();
    assert(u16_at(s, 1 + 2 * 1int) == 0x0304);
}

/// The extensions of a built hello give back the host name, the key and that
/// TLS 1.3 is offered.
proof fn lemma_hello_list(sni: Option<Seq<char>>, key: Seq<u8>)
    requires
        key.len() == X25519_PK_LEN,
        sni matches Some(h) ==> encode_utf8(h).len() <= 0xFFFF - 3,
    ensures
        parse_list(hello_extensions(sni_bytes(sni), key), empty_scan()) == Ok::<_, TlsError>(
            HelloScan { sni, key: Some(key), tls13: true },
        ),
{
    let host = sni_bytes(sni);
    let a = seq![Extension { kind: GREASE_EXT, body: seq![] }];
    let b = sni_extension(host);
    let c = fixed_extensions().drop_last();
    let v = fixed_extensions().last();
    let k = Extension { kind: EXT_KEY_SHARE, body: key_share_body(key) };
    let list = unpadded_extensions(host, key);
    let full = hello_extensions(host, key);
    let s0 = empty_scan();
    let s1 = HelloScan { sni, ..s0 };
    let s2 = HelloScan { tls13: true, ..s1 };
    let s3 = HelloScan { key: Some(key), ..s2 };

    lemma_parse_list_skips(a, s0);
    lemma_parse_list_concat(a, b, s0);
    match sni {
        Some(h) => {
            lemma_server_name_round_trip(h);
            lemma_parse_list_one(b[0], s0);
            assert(b =~= seq![b[0]]);
        },
        None => {
            assert(s1 == s0);
        },
    }
    assert(parse_list(a + b, s0) == Ok::<_, TlsError>(s1));
    lemma_parse_list_skips(c, s1);
    lemma_versions_body();
    lemma_parse_list_one(v, s1);
    lemma_parse_list_concat(c, seq![v], s1);
    assert(fixed_extensions() =~= c + seq![v]);
    lemma_parse_list_concat(a + b, fixed_extensions(), s0);
    lemma_key_share_round_trip(key);
    lemma_parse_list_one(k, s2);
    lemma_parse_list_concat(a + b + fixed_extensions(), seq![k], s0);
    assert(parse_list(list, s0) == Ok::<_, TlsError>(s3));
    if full != list {
        assert(full =~= list + seq![full.last()]);
        lemma_parse_list_skips(seq![full.last()], s3);
        lemma_parse_list_concat(list, seq![full.last()], s0);
    }
}

/// The bytes of the host name are shorter than the extensions that hold them.
proof fn lemma_host_in_extensions(host: Seq<u8>, key: Seq<u8>)
    ensures
        host.len() + 9 <= extensions_bytes(hello_extensions(Some(host), key)).len(),
{
    let a = seq![Extension { kind: GREASE_EXT, body: seq![] }];
    let b = sni_extension(Some(host));
    let list = unpadded_extensions(Some(host), key);
    let tail = fixed_extensions() + seq![
        Extension { kind: EXT_KEY_SHARE, body: key_share_body(key) },
    ];
    assert(list =~= (a + b) + tail);
    lemma_extensions_concat(a + b, tail);
    lemma_extensions_concat(a, b);
    lemma_extensions_push(Seq::empty(), b[0]);
    assert(Seq::<Extension>::empty().push(b[0]) =~= b);
    let pad = padding_len(extensions_bytes(list).len() as int, sni_overhead(Some(host)));
    lemma_extensions_push(list, Extension { kind: EXT_PADDING, body: zeros(pad) });
}

/// The record and handshake headers around a ClientHello body.
proof fn lemma_frame_layout(body: Seq<u8>)
    requires
        4 + body.len() <= 0xFFFF,
    ensures
        ({
            let w = hello_frame(body);
            &&& w.len() == 9 + body.len()
            &&& w[0] == CONTENT_HANDSHAKE && w[1] == 3 && w[2] == 1
            &&& u16_at(w, 3) == w.len() - 5
            &&& w[5] == HS_CLIENT_HELLO
            &&& u24_at(w, 6) == w.len() - 9
            &&& w.skip(9) == body
        }),
{
    let w = hello_frame(body);
    let m = body.len() as int;
    assert(w[3] == be16(4 + m)[0] && w[4] == be16(4 + m)[1]);
    assert(w[6] == be24(m)[0] && w[7] == be24(m)[1] && w[8] == be24(m)[2]);
    assert(w.skip(9) =~= body);
}

/// The fields of a ClientHello body.
proof fn lemma_body_layout(random: Seq<u8>, session_id: Seq<u8>, exts: Seq<u8>)
    requires
        random.len() == 32,
        session_id.len() <= MAX_SESSION_ID_LEN,
        exts.len() <= 0xFFFF,
    ensures
        ({
            let b = hello_body(random, session_id, exts);
            let n = session_id.len() as int;
            &&& b.len() == 73 + n + exts.len()
            &&& b.subrange(2, 34) == random
            &&& b[34] == n
            &&& b.subrange(35, 35 + n) == session_id
            &&& u16_at(b, 35 + n) == 32
            &&& b.subrange(37 + n, 69 + n) == CIPHER_SUITES@
            &&& b[69 + n] == 1 && b[70 + n] == 0
            &&& u16_at(b, 71 + n) == exts.len()
            &&& b.skip(73 + n) == exts
        }),
{
    let b = hello_body(random, session_id, exts);
    let n = session_id.len() as int;
    assert(b.subrange(2, 34) =~= random);
    assert(b.subrange(35, 35 + n) =~= session_id);
    assert(b[35 + n] == be16(32)[0] && b[36 + n] == be16(32)[1]);
    assert(b.subrange(37 + n, 69 + n) =~= CIPHER_SUITES@);
    assert(b[71 + n] == be16(exts.len() as int)[0] && b[72 + n] == be16(exts.len() as int)[1]);
    assert(b.skip(73 + n) =~= exts);
}

/// Law: where the fields of a built hello stand. The record header declares
/// exactly the bytes behind it, the random starts at offset 11, and the session
/// id at [`SESSION_ID_OFFSET`].
#[verifier::spinoff_prover]
#[verifier::rlimit(50)]
pub proof fn law_hello_layout(
    sni: Option<Seq<u8>>,
    key: Seq<u8>,
    random: Seq<u8>,
    session_id: Seq<u8>,
)
    requires
        random.len() == 32,
        session_id.len() <= MAX_SESSION_ID_LEN,
        hello_record(sni, key, random, session_id).len() - 5 <= 0xFFFF,
    ensures
        ({
            let w = hello_record(sni, key, random, session_id);
            let exts = extensions_bytes(hello_extensions(sni, key));
            let n = session_id.len() as int;
            &&& w.len() == 82 + n + exts.len()
            &&& w[0] == CONTENT_HANDSHAKE && w[1] == 3 && w[2] == 1
            &&& u16_at(w, 3) == w.len() - 5
            &&& w[5] == HS_CLIENT_HELLO
            &&& u24_at(w, 6) == w.len() - 9
            &&& w.subrange(11, 43) == random
            &&& w[43] == n
            &&& w.subrange(SESSION_ID_OFFSET as int, SESSION_ID_OFFSET + n) == session_id
            &&& u16_at(w, 44 + n) == 32
            &&& w.subrange(46 + n, 78 + n) == CIPHER_SUITES@
            &&& w[78 + n] == 1 && w[79 + n] == 0
            &&& u16_at(w, 80 + n) == exts.len()
            &&& w.skip(82 + n) == exts
        }),
{
    let w = hello_record(sni, key, random, session_id);
    let exts = extensions_bytes(hello_extensions(sni, key));
    let n = session_id.len() as int;
    let b = hello_body(random, session_id, exts);
    assert(w.len() == 9 + b.len());
    lemma_frame_layout(b);
    assert(b.len() >= exts.len());
    lemma_body_layout(random, session_id, exts);
    assert(b == w.skip(9));
    assert(w.subrange(11, 43) =~= b.subrange(2, 34));
    assert(w[43] == b[34]);
    assert(w.subrange(44, 44 + n) =~= b.subrange(35, 35 + n));
    assert(w[44 + n] == b[35 + n] && w[45 + n] == b[36 + n]);
    assert(w.subrange(46 + n, 78 + n) =~= b.subrange(37 + n, 69 + n));
    assert(w[78 + n] == b[69 + n] && w[79 + n] == b[70 + n]);
    assert(w[80 + n] == b[71 + n] && w[81 + n] == b[72 + n]);
    assert(w.skip(82 + n) =~= b.skip(73 + n));
}

/// Law: parsing a hello that can be built gives back every REALITY field,
/// whatever the host, the key, the random and the session id.
#[verifier::spinoff_prover]
#[verifier::rlimit(50)]
pub proof fn law_hello_round_trip(
    sni: Option<Seq<char>>,
    key: Seq<u8>,
    random: Seq<u8>,
    session_id: Seq<u8>,
)
    requires
        key.len() == X25519_PK_LEN,
        random.len() == 32,
        hello_error(sni_bytes(sni), session_id.len() as int) is None,
    ensures
        parse_hello(hello_record(sni_bytes(sni), key, random, session_id)) == Ok::<_, TlsError>(
            HelloView {
                sni,
                random,
                session_id,
                ephemeral_public: key,
                tls13_negotiable: true,
            },
        ),
{
    let host = sni_bytes(sni);
    let w = hello_record(host, key, random, session_id);
    let list = hello_extensions(host, key);
    let exts = extensions_bytes(list);
    let n = session_id.len() as int;
    law_hello_record_len(host, key, random, session_id);
    law_hello_layout(host, key, random, session_id);
    if let Some(h) = sni {
        lemma_host_in_extensions(encode_utf8(h), key);
    }
    lemma_hello_list(sni, key);
    lemma_parse_list(list, Seq::empty(), empty_scan());
    assert(exts + Seq::<u8>::empty() =~= exts);
    assert(parse_hello(w) == parse_hello_body(w));
    assert(w.subrange(44, 44 + n) == session_id);
}

/// A hello with its 32-byte session id replaced.
pub open spec fn with_session_id(hello: Seq<u8>, session_id: Seq<u8>) -> Seq<u8> {
    hello.take(SESSION_ID_OFFSET as int) + session_id + hello.skip(SESSION_ID_OFFSET + 32)
}

/// Law: two hellos that differ in their 32-byte session ids alone differ in
/// exactly those bytes at [`SESSION_ID_OFFSET`].
#[verifier::spinoff_prover]
#[verifier::rlimit(50)]
pub proof fn law_session_id_slot(
    sni: Option<Seq<u8>>,
    key: Seq<u8>,
    random: Seq<u8>,
    first: Seq<u8>,
    second: Seq<u8>,
)
    requires
        random.len() == 32,
        first.len() == 32,
        second.len() == 32,
    ensures
        hello_record(sni, key, random, first).len() >= 76,
        with_session_id(hello_record(sni, key, random, first), second) == hello_record(
            sni,
            key,
            random,
            second,
        ),
{
    let exts = extensions_bytes(hello_extensions(sni, key));
    let h1 = hello_head(random, first);
    let h2 = hello_head(random, second);
    assert(h2 =~= h1.take(35) + second + h1.skip(67));
    let b1 = hello_body(random, first, exts);
    let b2 = hello_body(random, second, exts);
    assert(b1.take(35) =~= h1.take(35));
    assert(b1.skip(67) =~= h1.skip(67) + be16(exts.len() as int) + exts);
    assert(b2 =~= b1.take(35) + second + b1.skip(67));
    let w1 = hello_frame(b1);
    let w2 = hello_frame(b2);
    let prefix = seq![CONTENT_HANDSHAKE, 3, 1] + be16(4 + b1.len() as int) + seq![HS_CLIENT_HELLO]
        + be24(b1.len() as int);
    assert(w1 =~= prefix + b1);
    assert(w2 =~= prefix + b2);
    assert(w1.take(44) =~= prefix + b1.take(35));
    assert(w1.skip(76) =~= b1.skip(67));
    assert(w2 =~= w1.take(44) + second + w1.skip(76));
}

/// Law: the length of a hello depends on the lengths of the host name and of the
/// session id alone.
pub proof fn law_hello_record_len(sni: Option<Seq<u8>>, key: Seq<u8>, random: Seq<u8>, session_id: Seq<u8>)
    requires
        key.len() == X25519_PK_LEN,
        random.len() == 32,
        session_id.len() <= MAX_SESSION_ID_LEN,
    ensures
        hello_record(sni, key, random, session_id).len() == hello_len(
            sni,
            session_id.len() as int,
        ),
{
    let a = seq![Extension { kind: GREASE_EXT, body: seq![] }];
    let b = sni_extension(sni);
    let k = Extension { kind: EXT_KEY_SHARE, body: key_share_body(key) };
    let list = unpadded_extensions(sni, key);
    lemma_extensions_concat(a + b + fixed_extensions(), seq![k]);
    lemma_extensions_concat(a + b, fixed_extensions());
    lemma_extensions_concat(a, b);
    lemma_extensions_one(a[0]);
    lemma_extensions_one(k);
    if sni is Some {
        lemma_extensions_one(b[0]);
        assert(b =~= seq![b[0]]);
    }
    lemma_fixed_len();
    let pad = padding_len(extensions_bytes(list).len() as int, sni_overhead(sni));
    lemma_extensions_push(list, Extension { kind: EXT_PADDING, body: zeros(pad) });
}

proof fn lemma_extensions_one(e: Extension)
    ensures
        extensions_bytes(seq![e]) == extension_bytes(e),
{
    lemma_extensions_push(Seq::empty(), e);
    assert(Seq::<Extension>::empty().push(e) =~= seq![e]);
    assert(extensions_bytes(seq![e]) =~= extension_bytes(e));
}

proof fn lemma_take_len(list: Seq<Extension>, i: int)
    requires
        0 <= i < list.len(),
    ensures
        extensions_bytes(list.take(i + 1)).len() == extensions_bytes(list.take(i)).len() + 4
            + list[i].body.len(),
{
    lemma_extensions_push(list.take(i), list[i]);
    assert(list.take(i).push(list[i]) =~= list.take(i + 1));
}

proof fn lemma_fixed_len()
    ensures
        extensions_bytes(fixed_extensions()).len() == 164,
{
    let list = fixed_extensions();
    assert(list.take(0) =~= Seq::empty());
    assert(list.take(16) =~= list);
    lemma_take_len(list, 0);
    lemma_take_len(list, 1);
    lemma_take_len(list, 2);
    lemma_take_len(list, 3);
    lemma_take_len(list, 4);
    lemma_take_len(list, 5);
    lemma_take_len(list, 6);
    lemma_take_len(list, 7);
    lemma_take_len(list, 8);
    lemma_take_len(list, 9);
    lemma_take_len(list, 10);
    lemma_take_len(list, 11);
    lemma_take_len(list, 12);
    lemma_take_len(list, 13);
    lemma_take_len(list, 14);
    lemma_take_len(list, 15);
}

/// Law: a record whose length is not the declared one never parses: a proper
/// prefix of a hello is truncated while its header is incomplete and has a wrong
/// length otherwise, and a hello with bytes appended has a wrong length.
pub proof fn law_hello_length_is_exact(w: Seq<u8>, cut: int, tail: Seq<u8>)
    requires
        parse_hello(w) is Ok,
        0 <= cut < w.len(),
        tail.len() > 0,
    ensures
        parse_hello(w.take(cut)) == Err::<HelloView, _>(
            if cut < 5 {
                TlsError::Truncated
            } else {
                TlsError::LengthMismatch
            },
        ),
        parse_hello(w + tail) == Err::<HelloView, _>(TlsError::LengthMismatch),
{
    let a = w.take(cut);
    let b = w + tail;
    if cut >= 5 {
        assert(u16_at(a, 3) == u16_at(w, 3));
    }
    assert(u16_at(b, 3) == u16_at(w, 3));
}

/// Law: a hello that is padded at all is padded to the 512-byte boundary: the
/// extension block and the host overhead take 512 bytes together.
pub proof fn law_padding_reaches_boundary(sni: Option<Seq<u8>>, key: Seq<u8>)
    requires
        extensions_bytes(unpadded_extensions(sni, key)).len() + sni_overhead(sni) < 508,
    ensures
        extensions_bytes(hello_extensions(sni, key)).len() + sni_overhead(sni) == 512,
        hello_extensions(sni, key).last().kind == EXT_PADDING,
        hello_extensions(sni, key).last().body == zeros(
            hello_extensions(sni, key).last().body.len() as int,
        ),
{
    let list = unpadded_extensions(sni, key);
    let pad = padding_len(extensions_bytes(list).len() as int, sni_overhead(sni));
    lemma_extensions_push(list, Extension { kind: EXT_PADDING, body: zeros(pad) });
}

/// Law: an extension stands on the wire as its type, the length of its body and
/// its body, each number in two bytes, high byte first, and extensions stand one
/// behind the other.
pub proof fn law_extension_wire(e: Extension, rest: Seq<Extension>)
    requires
        e.body.len() < 0x1_0000,
    ensures
        extensions_bytes(seq![e] + rest) == seq![
            (e.kind / 256) as u8,
            (e.kind % 256) as u8,
            (e.body.len() / 256) as u8,
            (e.body.len() % 256) as u8,
        ] + e.body + extensions_bytes(rest),
        extensions_bytes(Seq::empty()) == Seq::<u8>::empty(),
{
    let list = seq![e] + rest;
    lemma_extensions_first(list);
    assert(list.drop_first() =~= rest);
    assert(extension_bytes(e) =~= seq![
        (e.kind / 256) as u8,
        (e.kind % 256) as u8,
        (e.body.len() / 256) as u8,
        (e.body.len() % 256) as u8,
    ] + e.body);
}

/// Law: the extensions of a hello, in order. A GREASE extension leads; the host
/// name follows, if one is offered; then come sixteen fixed extensions of one
/// browser profile and the key share, behind a one-byte GREASE share.
#[verifier::spinoff_prover]
#[verifier::rlimit(50)]
pub proof fn law_browser_profile(host: Seq<u8>, key: Seq<u8>)
    requires
        host.len() + 3 < 0x1_0000,
        key.len() == 32,
    ensures
        ({
            let schemes = seq![0x00u8, 0x10u8, 0x04u8, 0x03u8, 0x08u8, 0x04u8, 0x04u8, 0x01u8, 0x05u8, 0x03u8, 0x08u8, 0x05u8, 0x05u8, 0x01u8, 0x08u8, 0x06u8, 0x06u8, 0x01u8];
            let named = unpadded_extensions(Some(host), key);
            let unnamed = unpadded_extensions(None, key);
            &&& named.len() == 19 && unnamed.len() == 18
            &&& named[0] == (Extension { kind: 0x1a1a, body: Seq::empty() })
            &&& named[1].kind == 0x0000 && named[1].body == seq![
                ((host.len() + 3) / 256) as u8,
                ((host.len() + 3) % 256) as u8,
                0u8,
                (host.len() / 256) as u8,
                (host.len() % 256) as u8,
            ] + host
            &&& named[2] == (Extension { kind: 0x0017, body: Seq::empty() })
            &&& named[3] == (Extension { kind: 0xff01, body: seq![0x00u8] })
            &&& named[4] == (Extension {
                kind: 0x000a,
                body: seq![
                    0x00u8,
                    0x06u8,
                    0x0au8,
                    0x0au8,
                    0x00u8,
                    0x1du8,
                    0x00u8,
                    0x17u8,
                    0x00u8,
                    0x18u8,
                ],
            })
            &&& named[5] == (Extension {
                kind: 0x0010,
                body: seq![0x00u8, 0x0cu8, 0x02u8] + ascii("h2"@) + seq![0x08u8] + ascii(
                    "http/1.1"@,
                ),
            })
            &&& named[6] == (Extension { kind: 0x000d, body: schemes })
            &&& named[7] == (Extension {
                kind: 0x0005,
                body: seq![0x01u8, 0x00u8, 0x00u8, 0x00u8, 0x00u8],
            })
            &&& named[8] == (Extension { kind: 0x001b, body: seq![0x02u8, 0x00u8, 0x02u8] })
            &&& named[9] == (Extension { kind: 0x0012, body: Seq::empty() })
            &&& named[10] == (Extension { kind: 0x002d, body: seq![0x01u8, 0x01u8] })
            &&& named[11] == (Extension { kind: 0x0032, body: schemes })
            &&& named[12] == (Extension { kind: 0x001f, body: schemes })
            &&& named[13] == (Extension { kind: 0x4469, body: seq![0x00u8, 0x00u8] })
            &&& named[14] == (Extension { kind: 0x44cd, body: seq![0x00u8, 0x00u8] })
            &&& named[15] == (Extension { kind: 0x0023, body: Seq::empty() })
            &&& named[16] == (Extension { kind: 0x0016, body: Seq::empty() })
            &&& named[17] == (Extension {
                kind: 0x002b,
                body: seq![0x06u8, 0x0au8, 0x0au8, 0x03u8, 0x04u8, 0x03u8, 0x03u8],
            })
            &&& named[18].kind == 0x0033 && named[18].body == seq![
                0x00u8,
                0x29u8,
                0x3au8,
                0x3au8,
                0x00u8,
                0x01u8,
                0x00u8,
                0x00u8,
                0x1du8,
                0x00u8,
                0x20u8,
            ] + key
            &&& unnamed == named.remove(1)
        }),
{
    let named = unpadded_extensions(Some(host), key);
    let unnamed = unpadded_extensions(None, key);
    let a = seq![Extension { kind: GREASE_EXT, body: Seq::<u8>::empty() }];
    let b = sni_extension(Some(host));
    let c = fixed_extensions();
    assert(b.len() == 1 && c.len() == 16);
    assert(forall|i: int| 0 <= i < 16 ==> named[2 + i] == c[i]);
    assert(named[0] == a[0] && named[1] == b[0]);
    lemma_profile_bodies();
    assert(server_name_body(host) =~= seq![
        ((host.len() + 3) / 256) as u8,
        ((host.len() + 3) % 256) as u8,
        0u8,
        (host.len() / 256) as u8,
        (host.len() % 256) as u8,
    ] + host);
    assert(key_share_body(key) =~= seq![
        0x00u8,
        0x29u8,
        0x3au8,
        0x3au8,
        0x00u8,
        0x01u8,
        0x00u8,
        0x00u8,
        0x1du8,
        0x00u8,
        0x20u8,
    ] + key);
    assert(unnamed =~= named.remove(1));
}

proof fn lemma_profile_bodies()
    ensures
        SIGNATURE_SCHEMES@ == seq![0x00u8, 0x10u8, 0x04u8, 0x03u8, 0x08u8, 0x04u8, 0x04u8, 0x01u8, 0x05u8, 0x03u8, 0x08u8, 0x05u8, 0x05u8, 0x01u8, 0x08u8, 0x06u8, 0x06u8, 0x01u8],
        groups_body() == seq![
            0x00u8,
            0x06u8,
            0x0au8,
            0x0au8,
            0x00u8,
            0x1du8,
            0x00u8,
            0x17u8,
            0x00u8,
            0x18u8,
        ],
        ALPN_BODY@ == seq![0x00u8, 0x0cu8, 0x02u8] + ascii("h2"@) + seq![0x08u8] + ascii(
            "http/1.1"@,
        ),
        STATUS_REQUEST_BODY@ == seq![0x01u8, 0x00u8, 0x00u8, 0x00u8, 0x00u8],
        COMPRESS_CERT_BODY@ == seq![0x02u8, 0x00u8, 0x02u8],
{
    reveal_strlit("h2");
    reveal_strlit("http/1.1");
    assert(SIGNATURE_SCHEMES@ =~= seq![0x00u8, 0x10u8, 0x04u8, 0x03u8, 0x08u8, 0x04u8, 0x04u8, 0x01u8, 0x05u8, 0x03u8, 0x08u8, 0x05u8, 0x05u8, 0x01u8, 0x08u8, 0x06u8, 0x06u8, 0x01u8]);
    assert(groups_body() =~= seq![
        0x00u8,
        0x06u8,
        0x0au8,
        0x0au8,
        0x00u8,
        0x1du8,
        0x00u8,
        0x17u8,
        0x00u8,
        0x18u8,
    ]);
    assert(ALPN_BODY@ =~= seq![0x00u8, 0x0cu8, 0x02u8] + ascii("h2"@) + seq![0x08u8] + ascii(
        "http/1.1"@,
    ));
    assert(STATUS_REQUEST_BODY@ =~= seq![0x01u8, 0x00u8, 0x00u8, 0x00u8, 0x00u8]);
    assert(COMPRESS_CERT_BODY@ =~= seq![0x02u8, 0x00u8, 0x02u8]);
}

/// Law: the wire of a hello, from its record header to its extensions: record
/// type 22 and version 3.1, message type 1, version 3.3, the random, the session
/// id, sixteen suites, GREASE first, one null compression method, and the
/// extensions; each length counts exactly what follows it.
#[verifier::spinoff_prover]
#[verifier::rlimit(50)]
pub proof fn law_hello_wire(
    sni: Option<Seq<u8>>,
    key: Seq<u8>,
    random: Seq<u8>,
    session_id: Seq<u8>,
)
    requires
        random.len() == 32,
        session_id.len() <= 32,
        hello_record(sni, key, random, session_id).len() - 5 <= 0xFFFF,
    ensures
        ({
            let exts = extensions_bytes(hello_extensions(sni, key));
            let body = seq![0x03u8, 0x03u8] + random + seq![session_id.len() as u8] + session_id
                + seq![0x00u8, 0x20u8] + seq![0x0au8, 0x0au8, 0x13u8, 0x01u8, 0x13u8, 0x02u8, 0x13u8, 0x03u8, 0xc0u8, 0x2bu8, 0xc0u8, 0x2fu8, 0xc0u8, 0x2cu8, 0xc0u8, 0x30u8, 0xc0u8, 0x32u8, 0xc0u8, 0x2du8, 0xc0u8, 0x27u8, 0xc0u8, 0x13u8, 0x00u8, 0x9cu8, 0x00u8, 0x9du8, 0x00u8, 0x2fu8, 0x00u8, 0x35u8] + seq![0x01u8, 0x00u8] + seq![
                (exts.len() / 256) as u8,
                (exts.len() % 256) as u8,
            ] + exts;
            hello_record(sni, key, random, session_id) == seq![
                0x16u8,
                0x03u8,
                0x01u8,
                ((4 + body.len()) / 256) as u8,
                ((4 + body.len()) % 256) as u8,
                0x01u8,
                0x00u8,
                (body.len() / 256) as u8,
                (body.len() % 256) as u8,
            ] + body
        }),
{
    let exts = extensions_bytes(hello_extensions(sni, key));
    let w = hello_record(sni, key, random, session_id);
    let body = hello_body(random, session_id, exts);
    let n = body.len();
    let cipher = seq![0x0au8, 0x0au8, 0x13u8, 0x01u8, 0x13u8, 0x02u8, 0x13u8, 0x03u8, 0xc0u8, 0x2bu8, 0xc0u8, 0x2fu8, 0xc0u8, 0x2cu8, 0xc0u8, 0x30u8, 0xc0u8, 0x32u8, 0xc0u8, 0x2du8, 0xc0u8, 0x27u8, 0xc0u8, 0x13u8, 0x00u8, 0x9cu8, 0x00u8, 0x9du8, 0x00u8, 0x2fu8, 0x00u8, 0x35u8];
    assert(CIPHER_SUITES@ =~= cipher);
    assert(w.len() == 9 + body.len());
    assert(exts.len() < 0x1_0000);
    assert(body =~= seq![0x03u8, 0x03u8] + random + seq![session_id.len() as u8] + session_id
        + seq![0x00u8, 0x20u8] + cipher + seq![0x01u8, 0x00u8] + seq![
        (exts.len() / 256) as u8,
        (exts.len() % 256) as u8,
    ] + exts);
    assert(w =~= seq![
        0x16u8,
        0x03u8,
        0x01u8,
        ((4 + n) / 256) as u8,
        ((4 + n) % 256) as u8,
        0x01u8,
        0x00u8,
        (n / 256) as u8,
        (n % 256) as u8,
    ] + body);
}

/// Law: how long a hello is, and when it cannot be built. Without a host it is
/// 594 bytes and the session id long; a host of up to 137 bytes shortens the
/// padding, which is counted for the host twice, and a longer one leaves none.
/// Only a session id over 32 bytes, or a host that takes the record over its
/// length field, is refused.
pub proof fn law_hello_sizes(host: Seq<u8>, session_id_len: int)
    requires
        0 <= session_id_len,
    ensures
        hello_len(None, session_id_len) == 594 + session_id_len,
        host.len() <= 137 ==> hello_len(Some(host), session_id_len) == 585 - host.len()
            + session_id_len,
        host.len() > 137 ==> hello_len(Some(host), session_id_len) == 306 + host.len()
            + session_id_len,
        session_id_len > 32 ==> hello_error(Some(host), session_id_len) == Some(
            TlsError::ShortIdTooLong,
        ) && hello_error(None, session_id_len) == Some(TlsError::ShortIdTooLong),
        session_id_len <= 32 ==> hello_error(None, session_id_len) is None,
        session_id_len <= 32 && host.len() + session_id_len > 65234 ==> hello_error(
            Some(host),
            session_id_len,
        ) == Some(TlsError::LengthMismatch),
        session_id_len <= 32 && host.len() + session_id_len <= 65234 ==> hello_error(
            Some(host),
            session_id_len,
        ) is None,
{
}

/// Law: the extensions are padded by zeros, in an extension of type 21 behind
/// all others, that fill the extensions and the host overhead to 512 bytes; where
/// no zero byte would be left for it, there is none.
pub proof fn law_hello_padding(sni: Option<Seq<u8>>, key: Seq<u8>)
    ensures
        ({
            let list = unpadded_extensions(sni, key);
            let used_len = extensions_bytes(list).len() + (match sni {
                Some(host) => 9 + host.len(),
                None => 0,
            });
            &&& used_len >= 508 ==> hello_extensions(sni, key) == list
            &&& used_len < 508 ==> hello_extensions(sni, key) == list.push(
                Extension { kind: 0x0015, body: Seq::new((508 - used_len) as nat, |i: int| 0u8) },
            )
        }),
{
    let list = unpadded_extensions(sni, key);
    let pad = padding_len(extensions_bytes(list).len() as int, sni_overhead(sni));
    if pad > 0 {
        assert(zeros(pad) =~= Seq::new(pad as nat, |i: int| 0u8));
    }
}

/// A ClientHello body of any client (RFC 8446, section 4.1.2).
pub open spec fn foreign_body(
    version: Seq<u8>,
    random: Seq<u8>,
    session_id: Seq<u8>,
    ciphers: Seq<u8>,
    methods: Seq<u8>,
    exts: Seq<u8>,
) -> Seq<u8> {
    version + random + seq![session_id.len() as u8] + session_id + be16(ciphers.len() as int)
        + ciphers + seq![methods.len() as u8] + methods + be16(exts.len() as int) + exts
}

/// A ClientHello message in a record of any version 3.x.
pub open spec fn foreign_frame(record_minor: u8, body: Seq<u8>) -> Seq<u8> {
    seq![0x16u8, 0x03u8, record_minor] + be16(4 + body.len() as int) + seq![0x01u8] + be24(
        body.len() as int,
    ) + body
}

/// A ClientHello record of any client.
pub open spec fn foreign_hello(
    record_minor: u8,
    version: Seq<u8>,
    random: Seq<u8>,
    session_id: Seq<u8>,
    ciphers: Seq<u8>,
    methods: Seq<u8>,
    list: Seq<Extension>,
) -> Seq<u8> {
    foreign_frame(
        record_minor,
        foreign_body(version, random, session_id, ciphers, methods, extensions_bytes(list)),
    )
}

/// Whether an extension is one of the three that a parser interprets.
pub open spec fn is_interpreted(e: Extension) -> bool {
    e.kind == 0x0000 || e.kind == 0x0033 || e.kind == 0x002b
}

/// A server_name body around a host name.
pub open spec fn host_body(host: Seq<u8>) -> Seq<u8> {
    seq![
        ((host.len() + 3) / 256) as u8,
        ((host.len() + 3) % 256) as u8,
        0u8,
        (host.len() / 256) as u8,
        (host.len() % 256) as u8,
    ] + host
}

/// One key share: its group and its key.
pub struct KeyShare {
    pub group: u16,
    pub key: Seq<u8>,
}

/// Key shares on the wire, in order.
pub open spec fn shares_wire(shares: Seq<KeyShare>) -> Seq<u8>
    decreases shares.len(),
{
    if shares.len() == 0 {
        Seq::empty()
    } else {
        be16(shares[0].group as int) + be16(shares[0].key.len() as int) + shares[0].key
            + shares_wire(shares.skip(1))
    }
}

/// A supported_versions body around a list of versions.
pub open spec fn versions_wire(versions: Seq<u16>) -> Seq<u8> {
    seq![(2 * versions.len()) as u8] + Seq::new(
        2 * versions.len(),
        |i: int|
            if i % 2 == 0 {
                (versions[i / 2] / 256) as u8
            } else {
                (versions[i / 2] % 256) as u8
            },
    )
}

/// Law: the host name of a server_name extension is read as it was written, and
/// a name that is not a host name, or not text, is refused.
#[verifier::spinoff_prover]
#[verifier::rlimit(50)]
pub proof fn law_server_name_is_read(host: Seq<char>, bytes: Seq<u8>, name_type: u8)
    requires
        encode_utf8(host).len() + 3 < 0x1_0000,
        bytes.len() + 3 < 0x1_0000,
    ensures
        parse_server_name(host_body(encode_utf8(host))) == Ok::<_, TlsError>(host),
        !valid_utf8(bytes) ==> parse_server_name(host_body(bytes)) == Err::<Seq<char>, _>(
            TlsError::BadServerName,
        ),
        name_type != 0 ==> parse_server_name(host_body(bytes).update(2, name_type)) == Err::<
            Seq<char>,
            _,
        >(TlsError::BadServerName),
{
    let h = encode_utf8(host);
    assert(host_body(h) =~= server_name_body(h));
    lemma_server_name_round_trip(host);
    let s = host_body(bytes);
    assert(s.skip(5) =~= bytes);
    assert(s[0] * 256 + s[1] == bytes.len() + 3);
    assert(s[3] * 256 + s[4] == bytes.len());
}

/// Law: of a list of key shares, the first x25519 share of 32 bytes is the key,
/// whatever stands in front of it and behind it; a list without one gives none;
/// and a key that an earlier list gave stays.
#[verifier::spinoff_prover]
#[verifier::rlimit(50)]
pub proof fn law_key_share_is_found(
    before: Seq<KeyShare>,
    key: Seq<u8>,
    after: Seq<KeyShare>,
    earlier: Seq<u8>,
)
    requires
        key.len() == 32,
        forall|i: int|
            0 <= i < before.len() ==> (#[trigger] before[i]).key.len() < 0x1_0000 && !(
            before[i].group == 0x001d && before[i].key.len() == 32),
        forall|i: int| 0 <= i < after.len() ==> (#[trigger] after[i]).key.len() < 0x1_0000,
        shares_wire(before + seq![KeyShare { group: 0x001d, key }] + after).len() < 0x1_0000,
    ensures
        ({
            let wire = shares_wire(before + seq![KeyShare { group: 0x001d, key }] + after);
            parse_key_share(be16(wire.len() as int) + wire, None) == Ok::<_, TlsError>(Some(key))
        }),
        ({
            let wire = shares_wire(before);
            wire.len() < 0x1_0000 ==> parse_key_share(be16(wire.len() as int) + wire, None)
                == Ok::<Option<Seq<u8>>, TlsError>(None)
        }),
        ({
            let wire = shares_wire(after);
            wire.len() < 0x1_0000 ==> parse_key_share(
                be16(wire.len() as int) + wire,
                Some(earlier),
            ) == Ok::<_, TlsError>(Some(earlier))
        }),
{
    let later = shares_wire(after);
    law_big_endian(later.len() as int);
    lemma_shares_after(after, earlier);
    assert((be16(later.len() as int) + later).skip(2) =~= later);
    let share = KeyShare { group: 0x001d, key };
    let all = before + seq![share] + after;
    let tail = seq![share] + after;
    assert(all =~= before + tail);
    lemma_shares_before(before, tail);
    assert(tail.skip(1) =~= after);
    lemma_share_step(tail, None);
    assert(tail[0] == share);
    lemma_shares_after(after, key);
    let wire = shares_wire(all);
    law_big_endian(wire.len() as int);
    let body = be16(wire.len() as int) + wire;
    assert(body.skip(2) =~= wire);
    let alone = shares_wire(before);
    let none = Seq::<KeyShare>::empty();
    assert(before + none =~= before);
    lemma_shares_before(before, none);
    law_big_endian(alone.len() as int);
    let short = be16(alone.len() as int) + alone;
    assert(short.skip(2) =~= alone);
    assert(shares_wire(none) =~= Seq::<u8>::empty());
    assert(parse_shares(shares_wire(none), 0, None) == Ok::<Option<Seq<u8>>, TlsError>(None));
}

proof fn lemma_share_step(shares: Seq<KeyShare>, key: Option<Seq<u8>>)
    requires
        shares.len() > 0,
        shares[0].key.len() < 0x1_0000,
    ensures
        ({
            let w = shares_wire(shares);
            let rest = shares_wire(shares.skip(1));
            &&& w.len() == 4 + shares[0].key.len() + rest.len()
            &&& parse_shares(w, w.len() as int, key) == parse_shares(
                rest,
                rest.len() as int,
                if shares[0].group == 0x001d && shares[0].key.len() == 32 && key is None {
                    Some(shares[0].key)
                } else {
                    key
                },
            )
        }),
{
    let w = shares_wire(shares);
    let n = shares[0].key.len() as int;
    let a = be16(shares[0].group as int);
    let b = be16(n);
    law_big_endian(shares[0].group as int);
    law_big_endian(n);
    assert(w[0] == a[0] && w[1] == a[1] && w[2] == b[0] && w[3] == b[1]);
    assert(w.subrange(4, 4 + n) =~= shares[0].key);
    assert(w.skip(4 + n) =~= shares_wire(shares.skip(1)));
}

proof fn lemma_shares_before(before: Seq<KeyShare>, tail: Seq<KeyShare>)
    requires
        forall|i: int|
            0 <= i < before.len() ==> (#[trigger] before[i]).key.len() < 0x1_0000 && !(
            before[i].group == 0x001d && before[i].key.len() == 32),
    ensures
        ({
            let w = shares_wire(before + tail);
            let t = shares_wire(tail);
            parse_shares(w, w.len() as int, None) == parse_shares(t, t.len() as int, None)
        }),
    decreases before.len(),
{
    if before.len() == 0 {
        assert(before + tail =~= tail);
    } else {
        let all = before + tail;
        let more = before.skip(1);
        assert(all.skip(1) =~= more + tail);
        assert(all[0] == before[0]);
        assert forall|i: int| 0 <= i < more.len() implies (#[trigger] more[i]).key.len()
            < 0x1_0000 && !(more[i].group == 0x001d && more[i].key.len() == 32) by {
            assert(more[i] == before[i + 1]);
        }
        lemma_share_step(all, None);
        lemma_shares_before(more, tail);
    }
}

proof fn lemma_shares_after(after: Seq<KeyShare>, key: Seq<u8>)
    requires
        forall|i: int| 0 <= i < after.len() ==> (#[trigger] after[i]).key.len() < 0x1_0000,
    ensures
        ({
            let w = shares_wire(after);
            parse_shares(w, w.len() as int, Some(key)) == Ok::<_, TlsError>(Some(key))
        }),
    decreases after.len(),
{
    if after.len() > 0 {
        let more = after.skip(1);
        assert forall|i: int| 0 <= i < more.len() implies (#[trigger] more[i]).key.len()
            < 0x1_0000 by {
            assert(more[i] == after[i + 1]);
        }
        lemma_share_step(after, Some(key));
        lemma_shares_after(more, key);
    }
}

/// Law: a list of supported versions offers TLS 1.3 exactly if 3.4 is among
/// them.
pub proof fn law_versions_are_read(versions: Seq<u16>)
    requires
        versions.len() <= 127,
    ensures
        parse_versions(versions_wire(versions)) == Ok::<_, TlsError>(versions.contains(0x0304)),
{
    let s = versions_wire(versions);
    let n = versions.len() as int;
    assert(s[0] == 2 * n);
    assert forall|i: int| 0 <= i < n implies #[trigger] u16_at(s, 1 + 2 * i) == versions[i] by {
        assert(s[1 + 2 * i] == (versions[i] / 256) as u8);
        assert(s[2 + 2 * i] == (versions[i] % 256) as u8);
    }
    if versions.contains(0x0304) {
        let i = choose|i: int| 0 <= i < n && versions[i] == 0x0304;
        assert(u16_at(s, 1 + 2 * i) == 0x0304);
    }
    assert(s[0] as int / 2 == n);
}

/// Law: a ClientHello of any client is read by its contents, in whatever order
/// its extensions come and whatever other extensions it has. If at most one
/// server_name, one key_share that holds an x25519 key, and at most one
/// supported_versions extension are among them, at the places `at_name`,
/// `at_share` and `at_versions`, the hello has that host name, that key, the
/// random and session id on the wire, and offers TLS 1.3 exactly if 3.4 is among
/// the versions.
#[verifier::spinoff_prover]
#[verifier::rlimit(50)]
pub proof fn law_foreign_hello_is_read(
    record_minor: u8,
    version: Seq<u8>,
    random: Seq<u8>,
    session_id: Seq<u8>,
    ciphers: Seq<u8>,
    methods: Seq<u8>,
    list: Seq<Extension>,
    at_name: int,
    host: Seq<char>,
    at_share: int,
    key: Seq<u8>,
    at_versions: int,
    versions: Seq<u16>,
)
    requires
        record_minor <= 3,
        version.len() == 2,
        random.len() == 32,
        session_id.len() <= 32,
        ciphers.len() % 2 == 0,
        methods.len() <= 255,
        foreign_hello(record_minor, version, random, session_id, ciphers, methods, list).len() - 5
            < 0x1_0000,
        0 <= at_share < list.len(),
        list[at_share].kind == 0x0033,
        parse_key_share(list[at_share].body, None) == Ok::<_, TlsError>(Some(key)),
        0 <= at_name < list.len() ==> list[at_name].kind == 0x0000 && list[at_name].body
            == host_body(encode_utf8(host)) && encode_utf8(host).len() + 3 < 0x1_0000,
        0 <= at_versions < list.len() ==> list[at_versions].kind == 0x002b
            && list[at_versions].body == versions_wire(versions) && versions.len() <= 127,
        forall|i: int|
            0 <= i < list.len() && i != at_name && i != at_share && i != at_versions
                ==> !is_interpreted(#[trigger] list[i]),
    ensures
        parse_hello(
            foreign_hello(record_minor, version, random, session_id, ciphers, methods, list),
        ) == Ok::<_, TlsError>(
            HelloView {
                sni: if 0 <= at_name < list.len() {
                    Some(host)
                } else {
                    None
                },
                random,
                session_id,
                ephemeral_public: key,
                tls13_negotiable: 0 <= at_versions < list.len() && versions.contains(0x0304),
            },
        ),
{
    let exts = extensions_bytes(list);
    lemma_foreign_fields(record_minor, version, random, session_id, ciphers, methods, list);
    lemma_scan_prefix(
        list,
        at_name,
        host,
        at_share,
        key,
        at_versions,
        versions,
        list.len() as int,
    );
    assert(list.take(list.len() as int) =~= list);
    lemma_parse_list(list, Seq::empty(), empty_scan());
    assert(exts + Seq::<u8>::empty() =~= exts);
}

/// The fields of a foreign hello stand where the parser looks for them.
#[verifier::spinoff_prover]
#[verifier::rlimit(50)]
proof fn lemma_foreign_fields(
    record_minor: u8,
    version: Seq<u8>,
    random: Seq<u8>,
    session_id: Seq<u8>,
    ciphers: Seq<u8>,
    methods: Seq<u8>,
    list: Seq<Extension>,
)
    requires
        record_minor <= 3,
        version.len() == 2,
        random.len() == 32,
        session_id.len() <= 32,
        ciphers.len() % 2 == 0,
        methods.len() <= 255,
        foreign_hello(record_minor, version, random, session_id, ciphers, methods, list).len() - 5
            < 0x1_0000,
    ensures
        ({
            let exts = extensions_bytes(list);
            &&& exts.len() < 0x1_0000
            &&& parse_hello(
                foreign_hello(record_minor, version, random, session_id, ciphers, methods, list),
            ) == finish_hello(
                random,
                session_id,
                parse_extensions(exts, exts.len() as int, empty_scan()),
            )
        }),
{
    let exts = extensions_bytes(list);
    let w = foreign_hello(record_minor, version, random, session_id, ciphers, methods, list);
    let body = foreign_body(version, random, session_id, ciphers, methods, exts);
    let n = session_id.len() as int;
    let c = ciphers.len() as int;
    let m = methods.len() as int;
    lemma_foreign_frame(record_minor, body);
    lemma_foreign_body(version, random, session_id, ciphers, methods, exts);
    assert(w == foreign_frame(record_minor, body));
    lemma_shifted(w, body, 35 + n);
    lemma_shifted(w, body, 38 + n + c + m);
    assert(w[43] == body[34]);
    assert(w[46 + n + c] == body[37 + n + c]);
    assert(w.subrange(11, 43) =~= body.subrange(2, 34));
    assert(w.subrange(44, 44 + n) =~= body.subrange(35, 35 + n));
    assert(w.skip(49 + n + c + m) =~= body.skip(40 + n + c + m));
}

proof fn lemma_shifted(w: Seq<u8>, body: Seq<u8>, i: int)
    requires
        w.len() == 9 + body.len(),
        w.skip(9) == body,
        0 <= i,
        i + 1 < body.len(),
    ensures
        u16_at(w, 9 + i) == u16_at(body, i),
{
    assert(w.skip(9)[i] == w[9 + i]);
    assert(w.skip(9)[i + 1] == w[10 + i]);
}

proof fn lemma_foreign_frame(record_minor: u8, body: Seq<u8>)
    requires
        4 + body.len() < 0x1_0000,
    ensures
        ({
            let w = foreign_frame(record_minor, body);
            &&& w.len() == 9 + body.len()
            &&& w[0] == 0x16 && w[1] == 3 && w[2] == record_minor && w[5] == 1
            &&& u16_at(w, 3) == w.len() - 5
            &&& u24_at(w, 6) == w.len() - 9
            &&& w.skip(9) == body
            &&& forall|i: int| 0 <= i < body.len() ==> w[9 + i] == #[trigger] body[i]
        }),
{
    let w = foreign_frame(record_minor, body);
    let l = body.len() as int;
    law_big_endian(4 + l);
    law_big_endian(l);
    let a = be16(4 + l);
    let b = be24(l);
    assert(w[3] == a[0] && w[4] == a[1]);
    assert(w[6] == b[0] && w[7] == b[1] && w[8] == b[2]);
    assert(w.skip(9) =~= body);
}

proof fn lemma_foreign_body(
    version: Seq<u8>,
    random: Seq<u8>,
    session_id: Seq<u8>,
    ciphers: Seq<u8>,
    methods: Seq<u8>,
    exts: Seq<u8>,
)
    requires
        version.len() == 2,
        random.len() == 32,
        session_id.len() <= 32,
        methods.len() <= 255,
        foreign_body(version, random, session_id, ciphers, methods, exts).len() < 0x1_0000,
    ensures
        ({
            let body = foreign_body(version, random, session_id, ciphers, methods, exts);
            let n = session_id.len() as int;
            let c = ciphers.len() as int;
            let m = methods.len() as int;
            &&& body.len() == 40 + n + c + m + exts.len()
            &&& body.subrange(2, 34) == random
            &&& body[34] == n
            &&& body.subrange(35, 35 + n) == session_id
            &&& u16_at(body, 35 + n) == c
            &&& body[37 + n + c] == m
            &&& u16_at(body, 38 + n + c + m) == exts.len()
            &&& body.skip(40 + n + c + m) == exts
        }),
{
    let body = foreign_body(version, random, session_id, ciphers, methods, exts);
    let n = session_id.len() as int;
    let c = ciphers.len() as int;
    let m = methods.len() as int;
    let x = exts.len() as int;
    assert(body.len() == 40 + n + c + m + x);
    law_big_endian(c);
    law_big_endian(x);
    assert(body.subrange(2, 34) =~= random);
    assert(body.subrange(35, 35 + n) =~= session_id);
    assert(body[35 + n] == be16(c)[0] && body[36 + n] == be16(c)[1]);
    assert(body[38 + n + c + m] == be16(x)[0] && body[39 + n + c + m] == be16(x)[1]);
    assert(body.skip(40 + n + c + m) =~= exts);
}

#[verifier::spinoff_prover]
#[verifier::rlimit(50)]
proof fn lemma_scan_prefix(
    list: Seq<Extension>,
    at_name: int,
    host: Seq<char>,
    at_share: int,
    key: Seq<u8>,
    at_versions: int,
    versions: Seq<u16>,
    n: int,
)
    requires
        0 <= n <= list.len(),
        0 <= at_share < list.len(),
        list[at_share].kind == 0x0033,
        parse_key_share(list[at_share].body, None) == Ok::<_, TlsError>(Some(key)),
        0 <= at_name < list.len() ==> list[at_name].kind == 0x0000 && list[at_name].body
            == host_body(encode_utf8(host)) && encode_utf8(host).len() + 3 < 0x1_0000,
        0 <= at_versions < list.len() ==> list[at_versions].kind == 0x002b
            && list[at_versions].body == versions_wire(versions) && versions.len() <= 127,
        forall|i: int|
            0 <= i < list.len() && i != at_name && i != at_share && i != at_versions
                ==> !is_interpreted(#[trigger] list[i]),
    ensures
        parse_list(list.take(n), empty_scan()) == Ok::<_, TlsError>(
            HelloScan {
                sni: if 0 <= at_name < n {
                    Some(host)
                } else {
                    None
                },
                key: if at_share < n {
                    Some(key)
                } else {
                    None
                },
                tls13: 0 <= at_versions < n && versions.contains(0x0304),
            },
        ),
    decreases n,
{
    if n == 0 {
        assert(list.take(0) =~= Seq::<Extension>::empty());
    } else {
        let i = n - 1;
        lemma_scan_prefix(list, at_name, host, at_share, key, at_versions, versions, i);
        let acc = parse_list(list.take(i), empty_scan())->Ok_0;
        assert(list.take(n) =~= list.take(i) + seq![list[i]]);
        lemma_parse_list_concat(list.take(i), seq![list[i]], empty_scan());
        lemma_parse_list_one(list[i], acc);
        if i == at_name {
            law_server_name_is_read(host, Seq::empty(), 0);
        } else if i == at_share {
        } else if i == at_versions {
            law_versions_are_read(versions);
        } else {
            assert(!is_interpreted(list[i]));
        }
    }
}

/// Law: a hello without an x25519 key share is refused for that, whatever else
/// it has.
pub proof fn law_hello_without_share_is_refused(
    record_minor: u8,
    version: Seq<u8>,
    random: Seq<u8>,
    session_id: Seq<u8>,
    ciphers: Seq<u8>,
    methods: Seq<u8>,
    list: Seq<Extension>,
)
    requires
        record_minor <= 3,
        version.len() == 2,
        random.len() == 32,
        session_id.len() <= 32,
        ciphers.len() % 2 == 0,
        methods.len() <= 255,
        foreign_hello(record_minor, version, random, session_id, ciphers, methods, list).len() - 5
            < 0x1_0000,
        forall|i: int| 0 <= i < list.len() ==> !is_interpreted(#[trigger] list[i]),
    ensures
        parse_hello(
            foreign_hello(record_minor, version, random, session_id, ciphers, methods, list),
        ) == Err::<HelloView, _>(TlsError::NoX25519KeyShare),
{
    let exts = extensions_bytes(list);
    lemma_foreign_fields(record_minor, version, random, session_id, ciphers, methods, list);
    assert forall|i: int| 0 <= i < list.len() implies !interpreted(#[trigger] list[i].kind) by {
        assert(!is_interpreted(list[i]));
    }
    lemma_parse_list_skips(list, empty_scan());
    lemma_parse_list(list, Seq::empty(), empty_scan());
    assert(exts + Seq::<u8>::empty() =~= exts);
}

/// Law: what is wrong with the frame of a record decides how it is refused: its
/// type, its version, its length, the type of its message and the length of its
/// message, in this order.
pub proof fn law_broken_hello_is_refused(w: Seq<u8>)
    requires
        w.len() >= 9,
    ensures
        ({
            let typed = w[0] == 0x16;
            let versioned = w[1] == 3 && w[2] <= 3;
            let framed = w[3] * 0x100 + w[4] == w.len() - 5;
            let hello = w[5] == 0x01;
            let sized = w[6] * 0x1_0000 + w[7] * 0x100 + w[8] == w.len() - 9;
            &&& !typed ==> parse_hello(w) == Err::<HelloView, _>(TlsError::BadRecordType)
            &&& typed && !versioned ==> parse_hello(w) == Err::<HelloView, _>(
                TlsError::BadRecordVersion,
            )
            &&& typed && versioned && !framed ==> parse_hello(w) == Err::<HelloView, _>(
                TlsError::LengthMismatch,
            )
            &&& typed && versioned && framed && !hello ==> parse_hello(w) == Err::<HelloView, _>(
                TlsError::BadRecordType,
            )
            &&& typed && versioned && framed && hello && !sized ==> parse_hello(w) == Err::<
                HelloView,
                _,
            >(TlsError::LengthMismatch)
            &&& typed && versioned && framed && hello && sized && w.len() >= 44 && w[43] > 32
                ==> parse_hello(w) == Err::<HelloView, _>(TlsError::ShortIdTooLong)
        }),
{
}

/// Law: a server_name body must fit together exactly: shorter than five bytes, or
/// than the name it announces, it is truncated; with another name type, another
/// list length or bytes behind the name it is no server name.
pub proof fn law_server_name_must_fit(s: Seq<u8>)
    ensures
        s.len() < 5 ==> parse_server_name(s) == Err::<Seq<char>, _>(TlsError::Truncated),
        s.len() >= 5 ==> {
            let listed = s[0] * 0x100 + s[1];
            let named = s[3] * 0x100 + s[4];
            &&& s[2] != 0 || listed != named + 3 ==> parse_server_name(s) == Err::<Seq<char>, _>(
                TlsError::BadServerName,
            )
            &&& s[2] == 0 && listed == named + 3 && s.len() < 5 + named ==> parse_server_name(s)
                == Err::<Seq<char>, _>(TlsError::Truncated)
            &&& s[2] == 0 && listed == named + 3 && s.len() > 5 + named ==> parse_server_name(s)
                == Err::<Seq<char>, _>(TlsError::BadServerName)
        },
{
}

/// Law: a supported_versions body must fit together exactly: it is truncated when
/// it is empty or shorter than it announces, and has a wrong length when that is
/// odd or too small.
pub proof fn law_versions_must_fit(s: Seq<u8>)
    ensures
        s.len() == 0 ==> parse_versions(s) == Err::<bool, _>(TlsError::Truncated),
        s.len() > 0 && s[0] % 2 == 1 ==> parse_versions(s) == Err::<bool, _>(
            TlsError::LengthMismatch,
        ),
        s.len() > 0 && s[0] % 2 == 0 && s.len() < 1 + s[0] ==> parse_versions(s) == Err::<bool, _>(
            TlsError::Truncated,
        ),
        s.len() > 0 && s[0] % 2 == 0 && s.len() > 1 + s[0] ==> parse_versions(s) == Err::<bool, _>(
            TlsError::LengthMismatch,
        ),
{
}

/// Law: an interpreted extension that is malformed refuses the whole hello with
/// its error, whatever uninterpreted extensions stand in front of it and whatever
/// follows it.
pub proof fn law_malformed_extension_is_refused(
    record_minor: u8,
    version: Seq<u8>,
    random: Seq<u8>,
    session_id: Seq<u8>,
    ciphers: Seq<u8>,
    methods: Seq<u8>,
    before: Seq<Extension>,
    bad: Extension,
    after: Seq<Extension>,
    e: TlsError,
)
    requires
        record_minor <= 3,
        version.len() == 2,
        random.len() == 32,
        session_id.len() <= 32,
        ciphers.len() % 2 == 0,
        methods.len() <= 255,
        foreign_hello(
            record_minor,
            version,
            random,
            session_id,
            ciphers,
            methods,
            before + seq![bad] + after,
        ).len() - 5 < 0x1_0000,
        forall|i: int| 0 <= i < before.len() ==> !is_interpreted(#[trigger] before[i]),
        (bad.kind == 0x0000 && parse_server_name(bad.body) == Err::<Seq<char>, _>(e)) || (bad.kind
            == 0x002b && parse_versions(bad.body) == Err::<bool, _>(e)) || (bad.kind == 0x0033
            && parse_key_share(bad.body, None) == Err::<Option<Seq<u8>>, _>(e)),
    ensures
        parse_hello(
            foreign_hello(
                record_minor,
                version,
                random,
                session_id,
                ciphers,
                methods,
                before + seq![bad] + after,
            ),
        ) == Err::<HelloView, _>(e),
{
    let list = before + seq![bad] + after;
    let tail = seq![bad] + after;
    let exts = extensions_bytes(list);
    lemma_foreign_fields(record_minor, version, random, session_id, ciphers, methods, list);
    assert(list =~= before + tail);
    assert forall|i: int| 0 <= i < before.len() implies !interpreted(#[trigger] before[i].kind) by {
        assert(!is_interpreted(before[i]));
    }
    lemma_parse_list_skips(before, empty_scan());
    lemma_parse_list_concat(before, tail, empty_scan());
    assert(tail[0] == bad);
    lemma_parse_list(list, Seq::empty(), empty_scan());
    assert(exts + Seq::<u8>::empty() =~= exts);
}

/// Law: the extensions must fill the block that is declared for them: an
/// extension that passes its end has a wrong length, and bytes behind the block
/// are trailing.
pub proof fn law_extension_block_must_fit(
    kind: u16,
    len: int,
    left: int,
    rest: Seq<u8>,
    random: Seq<u8>,
    session_id: Seq<u8>,
    extra: Seq<u8>,
    found: HelloScan,
)
    requires
        0 <= len < 0x1_0000,
        0 < left < 4 + len,
        extra.len() > 0,
    ensures
        parse_extensions(be16(kind as int) + be16(len) + rest, left, empty_scan()) == Err::<
            (Seq<u8>, HelloScan),
            _,
        >(TlsError::LengthMismatch),
        finish_hello(random, session_id, Ok((extra, found))) == Err::<HelloView, _>(
            TlsError::TrailingBytes,
        ),
{
    let s = be16(kind as int) + be16(len) + rest;
    law_big_endian(len);
    assert(s[2] == be16(len)[0] && s[3] == be16(len)[1]);
}

} // verus!
