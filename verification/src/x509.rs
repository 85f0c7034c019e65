//! Just enough DER to reach the RSA key of a leaf certificate and check the
//! CertificateVerify signature made with it.

use vstd::prelude::*;

use crate::bytes::{
    be16, be24, be32, bytes_eq, copy_slice, law_big_endian, u16_at, u24_at, Reader,
};
use crate::crypto::{
    pkcs1_sha256, pkcs1_sha256_ok, pkcs1_sha384, pkcs1_sha384_ok, pkcs1_sha512, pkcs1_sha512_ok,
    pss_sha256, pss_sha256_ok, pss_sha384, pss_sha384_ok, pss_sha512, pss_sha512_ok, rsa_key_check,
    rsa_key_ok,
};
use crate::tls13::Tls13Error;

verus! {

/// DER tag: SEQUENCE.
pub const TAG_SEQUENCE: u8 = 0x30;

/// DER tag: INTEGER.
pub const TAG_INTEGER: u8 = 0x02;

/// DER tag: BIT STRING.
pub const TAG_BIT_STRING: u8 = 0x03;

/// DER tag: OBJECT IDENTIFIER.
pub const TAG_OID: u8 = 0x06;

/// DER tag of the optional certificate version.
pub const TAG_VERSION: u8 = 0xa0;

/// The object identifier rsaEncryption (1.2.840.113549.1.1.1).
pub const RSA_OID: [u8; 9] = [0x2a, 0x86, 0x48, 0x86, 0xf7, 0x0d, 0x01, 0x01, 0x01];

/// An RSA public key: modulus and exponent, big-endian.
#[derive(Debug, Clone, PartialEq, Eq)]
pub struct RsaKey {
    pub n: Vec<u8>,
    pub e: Vec<u8>,
}

// ---------------------------------------------------------------------------
// TLV walking
// ---------------------------------------------------------------------------

/// One DER element: its tag, its content, and its length on the wire.
#[verifier::ext_equal]
pub struct Tlv {
    pub tag: u8,
    pub content: Seq<u8>,
    pub size: int,
}

/// The big-endian number in the first `n` bytes of `s`.
pub open spec fn be_prefix(s: Seq<u8>, n: int) -> int
    decreases n,
{
    if n <= 0 {
        0
    } else {
        be_prefix(s, n - 1) * 256 + s[n - 1] as int
    }
}

/// The element whose content of `len` bytes starts at offset `at`.
pub open spec fn tlv_body(s: Seq<u8>, at: int, len: int) -> Option<Tlv> {
    if at + len > s.len() {
        None
    } else {
        Some(Tlv { tag: s[0], content: s.subrange(at, at + len), size: at + len })
    }
}

/// The DER element at the front of `s`. A length byte above 0x80 gives the
/// number of length bytes that follow, at most four.
pub open spec fn tlv_of(s: Seq<u8>) -> Option<Tlv> {
    if s.len() < 2 {
        None
    } else if s[1] > 0x80 {
        let n = s[1] - 0x80;
        if n > 4 || 2 + n > s.len() {
            None
        } else {
            tlv_body(s, 2 + n, be_prefix(s.skip(2), n))
        }
    } else {
        tlv_body(s, 2, s[1] as int)
    }
}

/// The element at the front of `s` if it has this tag.
pub open spec fn tagged(s: Seq<u8>, tag: u8) -> Option<Tlv> {
    match tlv_of(s) {
        Some(t) => if t.tag == tag {
            Some(t)
        } else {
            None
        },
        None => None,
    }
}

/// What follows `n` elements with this tag.
pub open spec fn skip_tagged(s: Seq<u8>, tag: u8, n: int) -> Option<Seq<u8>>
    decreases n,
{
    if n <= 0 {
        Some(s)
    } else {
        match tagged(s, tag) {
            Some(t) => skip_tagged(s.skip(t.size), tag, n - 1),
            None => None,
        }
    }
}

/// One DER element read off the front of a buffer.
pub struct DerElement<'a> {
    pub tag: u8,
    pub content: &'a [u8],
    /// The element itself, with tag and length.
    pub full: &'a [u8],
    /// What follows the element.
    pub rest: &'a [u8],
}

/// Reads the DER element at the front of `buf`.
pub fn tlv<'a>(buf: &'a [u8]) -> (r: Option<DerElement<'a>>)
    ensures
        r is Some == tlv_of(buf@) is Some,
        r matches Some(d) ==> ({
            let t = tlv_of(buf@)->0;
            &&& d.tag == t.tag
            &&& d.content@ == t.content
            &&& d.full@ == buf@.take(t.size)
            &&& d.rest@ == buf@.skip(t.size)
            &&& 2 <= t.size <= buf@.len()
        }),
{
    if buf.len() < 2 {
        return None;
    }
    let tag = buf[0];
    let first = buf[1];
    let mut at: usize = 2;
    let mut len: u64 = first as u64;
    if first > 0x80 {
        let n: usize = (first - 0x80) as usize;
        if n > 4 || n > buf.len() - 2 {
            return None;
        }
        len = 0;
        let ghost tail = buf@.skip(2);
        let mut i: usize = 0;
        while i < n
            invariant
                i <= n <= 4,
                n <= buf@.len() - 2,
                tail == buf@.skip(2),
                len == be_prefix(tail, i as int),
                i == 0 ==> len == 0,
                i == 1 ==> len < 0x100,
                i == 2 ==> len < 0x1_0000,
                i == 3 ==> len < 0x100_0000,
                i == 4 ==> len < 0x1_0000_0000,
            decreases n - i,
        {
            assert(tail[i as int] == buf@[2 + i]);
            len = len * 256 + buf[2 + i] as u64;
            i += 1;
        }
        at = 2 + n;
    }
    if len > (buf.len() - at) as u64 {
        return None;
    }
    let end: usize = at + len as usize;
    let full = &buf[0..end];
    let rest = &buf[end..buf.len()];
    assert(full@ =~= buf@.take(end as int));
    assert(rest@ =~= buf@.skip(end as int));
    Some(DerElement { tag, content: &buf[at..end], full, rest })
}

/// Reads the DER element at the front of `buf` if it has this tag.
pub fn tlv_tagged<'a>(buf: &'a [u8], tag: u8) -> (r: Option<DerElement<'a>>)
    ensures
        r is Some == tagged(buf@, tag) is Some,
        r matches Some(d) ==> ({
            let t = tagged(buf@, tag)->0;
            &&& d.tag == t.tag
            &&& d.content@ == t.content
            &&& d.full@ == buf@.take(t.size)
            &&& d.rest@ == buf@.skip(t.size)
            &&& 2 <= t.size <= buf@.len()
        }),
{
    match tlv(buf) {
        Some(d) => if d.tag == tag {
            Some(d)
        } else {
            None
        },
        None => None,
    }
}

// ---------------------------------------------------------------------------
// Certificates and keys
// ---------------------------------------------------------------------------

/// The SubjectPublicKeyInfo of a certificate: the first element behind the
/// optional version, the serial number, and the signature, issuer, validity and
/// subject of its first part.
pub open spec fn cert_spki(der: Seq<u8>) -> Option<Seq<u8>> {
    match tagged(der, TAG_SEQUENCE) {
        None => None,
        Some(cert) => match tagged(cert.content, TAG_SEQUENCE) {
            None => None,
            Some(tbs) => tbs_spki(tbs.content),
        },
    }
}

/// The SubjectPublicKeyInfo of the first part of a certificate.
pub open spec fn tbs_spki(tbs: Seq<u8>) -> Option<Seq<u8>> {
    match tlv_of(tbs) {
        None => None,
        Some(first) => {
            let s = if first.tag == TAG_VERSION {
                tbs.skip(first.size)
            } else {
                tbs
            };
            match skip_tagged(s, TAG_INTEGER, 1) {
                None => None,
                Some(names) => match skip_tagged(names, TAG_SEQUENCE, 4) {
                    None => None,
                    Some(at) => match tagged(at, TAG_SEQUENCE) {
                        None => None,
                        Some(spki) => Some(at.take(spki.size)),
                    },
                },
            }
        },
    }
}

/// Locates the SubjectPublicKeyInfo inside a full X.509 certificate.
pub fn parse_cert_spki(der: &[u8]) -> (r: Option<&[u8]>)
    ensures
        match r {
            Some(s) => cert_spki(der@) == Some(s@),
            None => cert_spki(der@) is None,
        },
{
    let cert = tlv_tagged(der, TAG_SEQUENCE)?;
    let tbs = tlv_tagged(cert.content, TAG_SEQUENCE)?;
    let first = tlv(tbs.content)?;
    let s = if first.tag == TAG_VERSION {
        first.rest
    } else {
        tbs.content
    };
    let ghost start = s@;
    assert(skip_tagged(start, TAG_INTEGER, 1) == (match tagged(start, TAG_INTEGER) {
        Some(t) => Some(start.skip(t.size)),
        None => None,
    })) by {
        reveal_with_fuel(skip_tagged, 2);
    }
    let serial = tlv_tagged(s, TAG_INTEGER)?;
    let mut at = serial.rest;
    let ghost names = at@;
    let mut i: u8 = 0;
    while i < 4
        invariant
            i <= 4,
            skip_tagged(names, TAG_SEQUENCE, 4) == skip_tagged(at@, TAG_SEQUENCE, 4 - i),
            cert_spki(der@) == (match skip_tagged(names, TAG_SEQUENCE, 4) {
                None => None,
                Some(at) => match tagged(at, TAG_SEQUENCE) {
                    None => None,
                    Some(spki) => Some(at.take(spki.size)),
                },
            }),
        decreases 4 - i,
    {
        let next = tlv_tagged(at, TAG_SEQUENCE)?;
        at = next.rest;
        i += 1;
    }
    let spki = tlv_tagged(at, TAG_SEQUENCE)?;
    Some(spki.full)
}

/// A DER integer without its sign placeholder, a single leading zero byte.
pub open spec fn unsigned(s: Seq<u8>) -> Seq<u8> {
    if s.len() > 0 && s[0] == 0 {
        s.skip(1)
    } else {
        s
    }
}

/// The modulus and exponent of an RSA key structure.
pub open spec fn rsa_parts(key: Seq<u8>) -> Option<(Seq<u8>, Seq<u8>)> {
    match tagged(key, TAG_SEQUENCE) {
        None => None,
        Some(pair) => match tagged(pair.content, TAG_INTEGER) {
            None => None,
            Some(n) => match tagged(pair.content.skip(n.size), TAG_INTEGER) {
                None => None,
                Some(e) => Some((unsigned(n.content), unsigned(e.content))),
            },
        },
    }
}

/// Whether an algorithm identifier names RSA.
pub open spec fn is_rsa_algorithm(alg: Seq<u8>) -> bool {
    match tagged(alg, TAG_OID) {
        None => false,
        Some(oid) => oid.content == RSA_OID@,
    }
}

/// The key inside a SubjectPublicKeyInfo whose algorithm is RSA: modulus and
/// exponent.
pub open spec fn spki_parts(der: Seq<u8>) -> Option<(Seq<u8>, Seq<u8>)> {
    match tagged(der, TAG_SEQUENCE) {
        None => None,
        Some(spki) => match tagged(spki.content, TAG_SEQUENCE) {
            None => None,
            Some(alg) => match tagged(spki.content.skip(alg.size), TAG_BIT_STRING) {
                None => None,
                Some(bits) => if bits.content.len() == 0 || bits.content[0] != 0
                    || !is_rsa_algorithm(alg.content) {
                    None
                } else {
                    rsa_parts(bits.content.skip(1))
                },
            },
        },
    }
}

/// The acceptable RSA key inside a SubjectPublicKeyInfo.
pub open spec fn spki_rsa_key(der: Seq<u8>) -> Option<(Seq<u8>, Seq<u8>)> {
    match spki_parts(der) {
        Some((n, e)) => if rsa_key_ok(n, e) {
            Some((n, e))
        } else {
            None
        },
        None => None,
    }
}

/// A DER integer without its sign placeholder.
fn strip_sign(s: &[u8]) -> (r: &[u8])
    ensures
        r@ == unsigned(s@),
{
    if s.len() > 0 && s[0] == 0 {
        let r = &s[1..s.len()];
        assert(r@ =~= s@.skip(1));
        r
    } else {
        s
    }
}

/// Extracts an RSA public key from a DER SubjectPublicKeyInfo.
pub fn parse_rsa_spki(der: &[u8]) -> (r: Option<RsaKey>)
    ensures
        match r {
            Some(k) => spki_rsa_key(der@) == Some((k.n@, k.e@)),
            None => spki_rsa_key(der@) is None,
        },
{
    let spki = tlv_tagged(der, TAG_SEQUENCE)?;
    let alg = tlv_tagged(spki.content, TAG_SEQUENCE)?;
    let bits = tlv_tagged(alg.rest, TAG_BIT_STRING)?;
    if bits.content.len() == 0 || bits.content[0] != 0 {
        return None;
    }
    let oid = tlv_tagged(alg.content, TAG_OID)?;
    if !bytes_eq(oid.content, &RSA_OID) {
        return None;
    }
    let key_der = &bits.content[1..bits.content.len()];
    assert(key_der@ =~= bits.content@.skip(1));
    let pair = tlv_tagged(key_der, TAG_SEQUENCE)?;
    let n = tlv_tagged(pair.content, TAG_INTEGER)?;
    let e = tlv_tagged(n.rest, TAG_INTEGER)?;
    let n_bytes = strip_sign(n.content);
    let e_bytes = strip_sign(e.content);
    if !rsa_key_check(n_bytes, e_bytes) {
        return None;
    }
    Some(RsaKey { n: copy_slice(n_bytes), e: copy_slice(e_bytes) })
}

// ---------------------------------------------------------------------------
// CertificateVerify
// ---------------------------------------------------------------------------

/// Whether a signature scheme is one of the six that are checked:
/// rsa_pss_rsae and rsa_pkcs1 with SHA-256, SHA-384 and SHA-512.
pub open spec fn scheme_known(scheme: u16) -> bool {
    scheme == 0x0804 || scheme == 0x0805 || scheme == 0x0806 || scheme == 0x0401 || scheme == 0x0501
        || scheme == 0x0601
}

/// Whether a signature is valid under a scheme.
pub open spec fn signature_ok(
    scheme: u16,
    n: Seq<u8>,
    e: Seq<u8>,
    sig: Seq<u8>,
    tbs: Seq<u8>,
) -> bool {
    if scheme == 0x0804 {
        pss_sha256_ok(n, e, sig, tbs)
    } else if scheme == 0x0805 {
        pss_sha384_ok(n, e, sig, tbs)
    } else if scheme == 0x0806 {
        pss_sha512_ok(n, e, sig, tbs)
    } else if scheme == 0x0401 {
        pkcs1_sha256_ok(n, e, sig, tbs)
    } else if scheme == 0x0501 {
        pkcs1_sha384_ok(n, e, sig, tbs)
    } else {
        pkcs1_sha512_ok(n, e, sig, tbs)
    }
}

/// What a CertificateVerify comes to, given whether the signature is valid.
pub open spec fn verdict(key_found: bool, scheme: u16, valid: bool) -> Result<(), Tls13Error> {
    if !key_found || !scheme_known(scheme) {
        Err(Tls13Error::BadScheme)
    } else if !valid {
        Err(Tls13Error::CertVerifyRejected)
    } else {
        Ok(())
    }
}

/// The RSA key of a leaf certificate.
pub open spec fn leaf_key(leaf: Seq<u8>) -> Option<(Seq<u8>, Seq<u8>)> {
    match cert_spki(leaf) {
        Some(spki) => spki_rsa_key(spki),
        None => None,
    }
}

/// What a CertificateVerify signature over `tbs` comes to.
pub open spec fn verified(scheme: u16, leaf: Seq<u8>, sig: Seq<u8>, tbs: Seq<u8>) -> Result<
    (),
    Tls13Error,
> {
    match leaf_key(leaf) {
        None => verdict(false, scheme, false),
        Some((n, e)) => verdict(true, scheme, signature_ok(scheme, n, e, sig, tbs)),
    }
}

/// What a CertificateVerify comes to, given whether a key was found and whether
/// the signature is valid.
pub fn signature_verdict(key_found: bool, scheme: u16, valid: bool) -> (r: Result<(), Tls13Error>)
    ensures
        r == verdict(key_found, scheme, valid),
{
    if !key_found {
        return Err(Tls13Error::BadScheme);
    }
    match scheme {
        0x0804 | 0x0805 | 0x0806 | 0x0401 | 0x0501 | 0x0601 => if valid {
            Ok(())
        } else {
            Err(Tls13Error::CertVerifyRejected)
        },
        _ => Err(Tls13Error::BadScheme),
    }
}

/// Verifies the CertificateVerify signature over the to-be-signed bytes, with
/// the RSA key of the leaf certificate.
pub fn verify_certificate_verify(scheme: u16, leaf_der: &[u8], sig: &[u8], tbs: &[u8]) -> (r:
    Result<(), Tls13Error>)
    ensures
        r == verified(scheme, leaf_der@, sig@, tbs@),
{
    let spki = match parse_cert_spki(leaf_der) {
        Some(s) => s,
        None => return signature_verdict(false, scheme, false),
    };
    let key = match parse_rsa_spki(spki) {
        Some(k) => k,
        None => return signature_verdict(false, scheme, false),
    };
    let valid = match scheme {
        0x0804 => pss_sha256(&key.n, &key.e, sig, tbs),
        0x0805 => pss_sha384(&key.n, &key.e, sig, tbs),
        0x0806 => pss_sha512(&key.n, &key.e, sig, tbs),
        0x0401 => pkcs1_sha256(&key.n, &key.e, sig, tbs),
        0x0501 => pkcs1_sha384(&key.n, &key.e, sig, tbs),
        0x0601 => pkcs1_sha512(&key.n, &key.e, sig, tbs),
        _ => false,
    };
    signature_verdict(true, scheme, valid)
}

// ---------------------------------------------------------------------------
// The Certificate message
// ---------------------------------------------------------------------------

/// The bytes of a chain.
pub open spec fn chain_view(chain: Seq<Vec<u8>>) -> Seq<Seq<u8>> {
    chain.map_values(|v: Vec<u8>| v@)
}

/// The certificates of a list: each entry is a 24-bit length, the certificate,
/// a 16-bit length and extensions, which are skipped.
pub open spec fn cert_entries(s: Seq<u8>) -> Option<Seq<Seq<u8>>>
    decreases s.len(),
{
    if s.len() == 0 {
        Some(Seq::empty())
    } else if s.len() < 3 || s.len() < 5 + u24_at(s, 0) {
        None
    } else {
        let n = u24_at(s, 0);
        let size = 5 + n + u16_at(s, 3 + n);
        if s.len() < size {
            None
        } else {
            match cert_entries(s.skip(size)) {
                None => None,
                Some(rest) => Some(seq![s.subrange(3, 3 + n)] + rest),
            }
        }
    }
}

/// The chain of a Certificate message: a request context with a one-byte
/// length, then a list with a 24-bit length. Bytes behind the list are ignored.
pub open spec fn cert_chain(body: Seq<u8>) -> Option<Seq<Seq<u8>>> {
    if body.len() < 1 || body.len() < 4 + body[0] {
        None
    } else {
        let at = 4 + body[0] as int;
        let n = u24_at(body, at - 3);
        if body.len() < at + n {
            None
        } else {
            cert_entries(body.subrange(at, at + n))
        }
    }
}

/// Parses a TLS 1.3 Certificate message into the raw DER bodies of the chain.
pub fn parse_certificate_entry_bodies(body: &[u8]) -> (r: Result<Vec<Vec<u8>>, Tls13Error>)
    ensures
        match r {
            Ok(chain) => cert_chain(body@) == Some(chain_view(chain@)),
            Err(e) => e == Tls13Error::Truncated && cert_chain(body@) is None,
        },
{
    let mut r = Reader::new(body);
    let ctx_len = r.u8().ok_or(Tls13Error::Truncated)? as usize;
    let _context = r.take(ctx_len).ok_or(Tls13Error::Truncated)?;
    let list_len = r.u24().ok_or(Tls13Error::Truncated)?;
    let list = r.take(list_len).ok_or(Tls13Error::Truncated)?;
    let mut lr = Reader::new(list);
    let mut out: Vec<Vec<u8>> = Vec::new();
    let ghost whole = cert_entries(list@);
    assert(list@ =~= body@.subrange(4 + ctx_len as int, 4 + ctx_len + list_len as int));
    assert(cert_chain(body@) == whole);
    assert(chain_view(out@) =~= Seq::<Seq<u8>>::empty());
    assert(whole is Some ==> chain_view(out@) + whole->0 =~= whole->0);
    while !lr.exhausted()
        invariant
            lr.wf(),
            cert_chain(body@) == whole,
            whole == (match cert_entries(lr.rest()) {
                None => None,
                Some(rest) => Some(chain_view(out@) + rest),
            }),
        decreases lr.rest().len(),
    {
        let ghost rest = lr.rest();
        let ghost before = out@;
        let cert_len = lr.u24().ok_or(Tls13Error::Truncated)?;
        let cert = copy_slice(lr.take(cert_len).ok_or(Tls13Error::Truncated)?);
        let ext_len = lr.u16().ok_or(Tls13Error::Truncated)? as usize;
        let _exts = lr.take(ext_len).ok_or(Tls13Error::Truncated)?;
        assert(cert@ =~= rest.subrange(3, 3 + cert_len as int));
        assert(lr.rest() =~= rest.skip(5 + cert_len + ext_len as int));
        out.push(cert);
        assert(chain_view(out@) =~= chain_view(before) + seq![cert@]);
        proof {
            if let Some(tail) = cert_entries(lr.rest()) {
                assert(chain_view(before) + (seq![cert@] + tail) =~= chain_view(out@) + tail);
            }
        }
    }
    assert(chain_view(out@) + Seq::<Seq<u8>>::empty() =~= chain_view(out@));
    Ok(out)
}

// ---------------------------------------------------------------------------
// Laws
// ---------------------------------------------------------------------------

/// The length field of a DER element (X.690, section 8.1.3): one byte below 128,
/// or else 128 plus the number of length bytes, and the length in as few bytes
/// as hold it, high byte first.
pub open spec fn der_length(len: int) -> Seq<u8> {
    if len < 0x80 {
        seq![len as u8]
    } else if len < 0x100 {
        seq![0x81u8, len as u8]
    } else if len < 0x1_0000 {
        seq![0x82u8] + be16(len)
    } else if len < 0x100_0000 {
        seq![0x83u8] + be24(len)
    } else {
        seq![0x84u8] + be32(len)
    }
}

/// A DER element: its tag, the length of its content, and the content.
#[verifier::opaque]
pub open spec fn der(tag: u8, content: Seq<u8>) -> Seq<u8> {
    seq![tag] + der_length(content.len() as int) + content
}

/// The value of one to four length bytes, high byte first.
pub open spec fn length_value(l: Seq<u8>) -> int {
    if l.len() == 1 {
        l[0] as int
    } else if l.len() == 2 {
        l[0] * 0x100 + l[1]
    } else if l.len() == 3 {
        l[0] * 0x1_0000 + l[1] * 0x100 + l[2]
    } else {
        l[0] * 0x100_0000 + l[1] * 0x1_0000 + l[2] * 0x100 + l[3]
    }
}

proof fn lemma_be_prefix(s: Seq<u8>, l: Seq<u8>)
    requires
        1 <= l.len() <= 4,
        s.len() >= l.len(),
        s.take(l.len() as int) == l,
    ensures
        be_prefix(s, l.len() as int) == length_value(l),
{
    reveal_with_fuel(be_prefix, 5);
    assert forall|i: int| 0 <= i < l.len() implies s[i] == l[i] by {
        assert(s.take(l.len() as int)[i] == l[i]);
    }
}

/// Law: an element with a long length field, of one to four length bytes, is
/// read as its tag and its content, whatever follows it.
pub proof fn law_long_length_is_read(tag: u8, length: Seq<u8>, content: Seq<u8>, rest: Seq<u8>)
    requires
        1 <= length.len() <= 4,
        length_value(length) == content.len(),
    ensures
        tlv_of(seq![tag, (0x80 + length.len()) as u8] + length + content + rest) == Some(
            Tlv { tag, content, size: (2 + length.len() + content.len()) as int },
        ),
{
    let n = length.len() as int;
    let s = seq![tag, (0x80 + length.len()) as u8] + length + content + rest;
    assert(s[0] == tag && s[1] == 0x80 + n);
    assert(s.skip(2).take(n) =~= length);
    lemma_be_prefix(s.skip(2), length);
    assert(s.subrange(2 + n, 2 + n + content.len()) =~= content);
}

/// Law: an element with a one-byte length field, of up to 128, is read as its
/// tag and its content, whatever follows it.
pub proof fn law_short_length_is_read(tag: u8, content: Seq<u8>, rest: Seq<u8>)
    requires
        content.len() <= 0x80,
    ensures
        tlv_of(seq![tag, content.len() as u8] + content + rest) == Some(
            Tlv { tag, content, size: (2 + content.len()) as int },
        ),
{
    let s = seq![tag, content.len() as u8] + content + rest;
    assert(s.subrange(2, 2 + content.len() as int) =~= content);
}

/// Law: reading undoes writing: a DER element of any content below 2^32 bytes,
/// with anything behind it, is read as its tag, its content and its length.
#[verifier::spinoff_prover]
#[verifier::rlimit(50)]
pub proof fn law_der_round_trip(tag: u8, content: Seq<u8>, rest: Seq<u8>)
    requires
        content.len() < 0x1_0000_0000,
    ensures
        tlv_of(der(tag, content) + rest) == Some(
            Tlv { tag, content, size: der(tag, content).len() as int },
        ),
        tagged(der(tag, content) + rest, tag) == tlv_of(der(tag, content) + rest),
        (der(tag, content) + rest).take(der(tag, content).len() as int) == der(tag, content),
        (der(tag, content) + rest).skip(der(tag, content).len() as int) == rest,
{
    reveal(der);
    let n = content.len() as int;
    let s = der(tag, content) + rest;
    law_big_endian(n);
    if n < 0x80 {
        law_short_length_is_read(tag, content, rest);
        assert(s =~= seq![tag, n as u8] + content + rest);
    } else {
        let l = if n < 0x100 {
            seq![n as u8]
        } else if n < 0x1_0000 {
            be16(n)
        } else if n < 0x100_0000 {
            be24(n)
        } else {
            be32(n)
        };
        law_long_length_is_read(tag, l, content, rest);
        assert(s =~= seq![tag, (0x80 + l.len()) as u8] + l + content + rest);
    }
    assert(s.take(der(tag, content).len() as int) =~= der(tag, content));
    assert(s.skip(der(tag, content).len() as int) =~= rest);
}

proof fn lemma_der_len(tag: u8, content: Seq<u8>)
    ensures
        der(tag, content).len() >= 2 + content.len(),
{
    reveal(der);
}

/// Stepping over one element.
proof fn lemma_skip_one(item: DerItem, rest: Seq<u8>, tag: u8, n: int)
    requires
        item.content.len() < 0x1_0000_0000,
        n > 0,
    ensures
        skip_tagged(der_item(item) + rest, tag, n) == (if item.tag == tag {
            skip_tagged(rest, tag, n - 1)
        } else {
            None
        }),
{
    law_der_round_trip(item.tag, item.content, rest);
}

/// Law: an element that is cut off anywhere is not read.
pub proof fn law_cut_element_is_refused(tag: u8, content: Seq<u8>, have: int)
    requires
        content.len() < 0x1_0000_0000,
        0 <= have < der(tag, content).len(),
    ensures
        tlv_of(der(tag, content).take(have)) is None,
{
    reveal(der);
    let n = content.len() as int;
    let whole = der(tag, content);
    let s = whole.take(have);
    law_big_endian(n);
    if s.len() >= 2 {
        assert(s[1] == whole[1]);
        if n >= 0x80 {
            let l = if n < 0x100 {
                seq![n as u8]
            } else if n < 0x1_0000 {
                be16(n)
            } else if n < 0x100_0000 {
                be24(n)
            } else {
                be32(n)
            };
            assert(whole =~= seq![tag, (0x80 + l.len()) as u8] + l + content);
            if s.len() >= 2 + l.len() {
                assert(s.skip(2).take(l.len() as int) =~= l);
                lemma_be_prefix(s.skip(2), l);
            }
        }
    }
}

/// One element of a DER structure.
pub struct DerItem {
    pub tag: u8,
    pub content: Seq<u8>,
}

/// An element on the wire.
pub open spec fn der_item(i: DerItem) -> Seq<u8> {
    der(i.tag, i.content)
}

/// A tbsCertificate of these parts: the version, if there is one, the serial
/// number, four elements (signature algorithm, issuer, validity and subject),
/// the SubjectPublicKeyInfo, and anything behind it.
pub open spec fn der_tbs(
    version: Option<Seq<u8>>,
    serial: DerItem,
    a: DerItem,
    b: DerItem,
    c: DerItem,
    d: DerItem,
    spki: DerItem,
    rest: Seq<u8>,
) -> Seq<u8> {
    (match version {
        Some(v) => der(0xa0, v),
        None => Seq::empty(),
    }) + (der_item(serial) + (der_item(a) + (der_item(b) + (der_item(c) + (der_item(d) + (der_item(
        spki,
    ) + rest))))))
}

/// Law: the SubjectPublicKeyInfo of a certificate is the element that follows
/// the subject, whole, whatever the elements in front of it hold and whatever
/// follows. It is found exactly if the serial number is an INTEGER and the
/// signature algorithm, issuer, validity, subject and SubjectPublicKeyInfo are
/// SEQUENCEs; the version may be missing.
pub proof fn law_certificate_spki(
    version: Option<Seq<u8>>,
    serial: DerItem,
    a: DerItem,
    b: DerItem,
    c: DerItem,
    d: DerItem,
    spki: DerItem,
    rest: Seq<u8>,
    behind: Seq<u8>,
    after: Seq<u8>,
)
    requires
        der(0x30, der_tbs(version, serial, a, b, c, d, spki, rest)).len() + behind.len()
            < 0x1_0000_0000,
        version is None ==> serial.tag != 0xa0,
    ensures
        cert_spki(
            der(0x30, der(0x30, der_tbs(version, serial, a, b, c, d, spki, rest)) + behind) + after,
        ) == (if serial.tag == 0x02 && a.tag == 0x30 && b.tag == 0x30 && c.tag == 0x30 && d.tag
            == 0x30 && spki.tag == 0x30 {
            Some(der_item(spki))
        } else {
            None
        }),
{
    let tbs = der_tbs(version, serial, a, b, c, d, spki, rest);
    let cert = der(0x30, tbs) + behind;
    lemma_der_len(0x30, tbs);
    law_der_round_trip(0x30, cert, after);
    law_der_round_trip(0x30, tbs, behind);
    lemma_tbs_spki(version, serial, a, b, c, d, spki, rest);
}

#[verifier::spinoff_prover]
#[verifier::rlimit(50)]
proof fn lemma_tbs_spki(
    version: Option<Seq<u8>>,
    serial: DerItem,
    a: DerItem,
    b: DerItem,
    c: DerItem,
    d: DerItem,
    spki: DerItem,
    rest: Seq<u8>,
)
    requires
        der_tbs(version, serial, a, b, c, d, spki, rest).len() < 0x1_0000_0000,
        version is None ==> serial.tag != 0xa0,
    ensures
        tbs_spki(der_tbs(version, serial, a, b, c, d, spki, rest)) == (if serial.tag == 0x02
            && a.tag == 0x30 && b.tag == 0x30 && c.tag == 0x30 && d.tag == 0x30 && spki.tag
            == 0x30 {
            Some(der_item(spki))
        } else {
            None
        }),
{
    let tbs = der_tbs(version, serial, a, b, c, d, spki, rest);
    let s6 = der_item(spki) + rest;
    let s5 = der_item(d) + s6;
    let s4 = der_item(c) + s5;
    let s3 = der_item(b) + s4;
    let s2 = der_item(a) + s3;
    let s1 = der_item(serial) + s2;
    lemma_der_len(serial.tag, serial.content);
    lemma_der_len(a.tag, a.content);
    lemma_der_len(b.tag, b.content);
    lemma_der_len(c.tag, c.content);
    lemma_der_len(d.tag, d.content);
    lemma_der_len(spki.tag, spki.content);
    lemma_skip_one(serial, s2, TAG_INTEGER, 1);
    lemma_skip_one(a, s3, TAG_SEQUENCE, 4);
    lemma_skip_one(b, s4, TAG_SEQUENCE, 3);
    lemma_skip_one(c, s5, TAG_SEQUENCE, 2);
    lemma_skip_one(d, s6, TAG_SEQUENCE, 1);
    assert(skip_tagged(s2, TAG_INTEGER, 0) == Some(s2));
    assert(skip_tagged(s6, TAG_SEQUENCE, 0) == Some(s6));
    law_der_round_trip(spki.tag, spki.content, rest);
    match version {
        Some(v) => {
            lemma_der_len(0xa0, v);
            law_der_round_trip(0xa0, v, s1);
            assert(tbs =~= der(0xa0, v) + s1);
        },
        None => {
            law_der_round_trip(serial.tag, serial.content, s2);
            assert(tbs =~= s1);
        },
    }
}

/// The bytes of a DER INTEGER without its sign placeholder: one leading zero
/// byte is left out.
pub open spec fn magnitude(n: Seq<u8>) -> Seq<u8> {
    if n.len() > 0 && n[0] == 0 {
        n.subrange(1, n.len() as int)
    } else {
        n
    }
}

/// The SubjectPublicKeyInfo of an RSA key: the algorithm, which starts with an
/// object identifier, and a BIT STRING with a count of unused bits in front of a
/// SEQUENCE of modulus and exponent. Anything may follow in each SEQUENCE.
pub open spec fn der_spki(
    oid: Seq<u8>,
    parameters: Seq<u8>,
    unused: u8,
    n: Seq<u8>,
    e: Seq<u8>,
    more: Seq<u8>,
    rest: Seq<u8>,
) -> Seq<u8> {
    der(
        0x30,
        der(0x30, der(0x06, oid) + parameters) + (der(
            0x03,
            seq![unused] + der(0x30, der(0x02, n) + (der(0x02, e) + more)),
        ) + rest),
    )
}

/// Law: the key of a SubjectPublicKeyInfo is its modulus and its exponent, each
/// without the sign placeholder, if the algorithm is rsaEncryption and no bits
/// are unused; any other one gives no key.
#[verifier::spinoff_prover]
#[verifier::rlimit(50)]
pub proof fn law_spki_key(
    oid: Seq<u8>,
    parameters: Seq<u8>,
    unused: u8,
    n: Seq<u8>,
    e: Seq<u8>,
    more: Seq<u8>,
    rest: Seq<u8>,
)
    requires
        der_spki(oid, parameters, unused, n, e, more, rest).len() < 0x1_0000_0000,
    ensures
        spki_parts(der_spki(oid, parameters, unused, n, e, more, rest)) == (if unused == 0 && oid
            == seq![0x2au8, 0x86u8, 0x48u8, 0x86u8, 0xf7u8, 0x0du8, 0x01u8, 0x01u8, 0x01u8] {
            Some((magnitude(n), magnitude(e)))
        } else {
            None
        }),
{
    let key = der(0x02, n) + (der(0x02, e) + more);
    let bits = seq![unused] + der(0x30, key);
    let alg = der(0x06, oid) + parameters;
    let inner = der(0x30, alg) + (der(0x03, bits) + rest);
    let whole = der(0x30, inner);
    let none = Seq::<u8>::empty();
    assert(whole + none =~= whole);
    lemma_der_len(0x30, inner);
    lemma_der_len(0x30, alg);
    lemma_der_len(0x03, bits);
    lemma_der_len(0x06, oid);
    lemma_der_len(0x30, key);
    law_der_round_trip(0x30, inner, none);
    law_der_round_trip(0x30, alg, der(0x03, bits) + rest);
    law_der_round_trip(0x03, bits, rest);
    law_der_round_trip(0x06, oid, parameters);
    assert(bits.skip(1) =~= der(0x30, key));
    lemma_rsa_parts(n, e, more);
    assert(RSA_OID@ =~= seq![
        0x2au8,
        0x86u8,
        0x48u8,
        0x86u8,
        0xf7u8,
        0x0du8,
        0x01u8,
        0x01u8,
        0x01u8,
    ]);
}

proof fn lemma_rsa_parts(n: Seq<u8>, e: Seq<u8>, more: Seq<u8>)
    requires
        (der(0x02, n) + (der(0x02, e) + more)).len() < 0x1_0000_0000,
    ensures
        rsa_parts(der(0x30, der(0x02, n) + (der(0x02, e) + more))) == Some(
            (magnitude(n), magnitude(e)),
        ),
{
    let key = der(0x02, n) + (der(0x02, e) + more);
    let none = Seq::<u8>::empty();
    lemma_der_len(0x02, n);
    lemma_der_len(0x02, e);
    assert(der(0x30, key) + none =~= der(0x30, key));
    law_der_round_trip(0x30, key, none);
    law_der_round_trip(0x02, n, der(0x02, e) + more);
    law_der_round_trip(0x02, e, more);
    assert(unsigned(n) =~= magnitude(n));
    assert(unsigned(e) =~= magnitude(e));
}

/// Law: a real RSA certificate decides a CertificateVerify by its own key. For a
/// certificate of any version, serial number, signature algorithm, issuer,
/// validity and subject around the SubjectPublicKeyInfo of an acceptable RSA
/// key, the signature is checked under that modulus and exponent, with the
/// algorithm of its scheme; an unknown scheme is refused as such.
#[verifier::spinoff_prover]
#[verifier::rlimit(50)]
pub proof fn law_certificate_verify_uses_leaf_key(
    version: Option<Seq<u8>>,
    serial: Seq<u8>,
    names: Seq<Seq<u8>>,
    parameters: Seq<u8>,
    n: Seq<u8>,
    e: Seq<u8>,
    rest: Seq<u8>,
    behind: Seq<u8>,
    scheme: u16,
    sig: Seq<u8>,
    tbs: Seq<u8>,
    leaf: Seq<u8>,
)
    requires
        names.len() == 4,
        rsa_key_ok(magnitude(n), magnitude(e)),
        leaf == ({
            let oid = seq![
                0x2au8,
                0x86u8,
                0x48u8,
                0x86u8,
                0xf7u8,
                0x0du8,
                0x01u8,
                0x01u8,
                0x01u8,
            ];
            let none = Seq::<u8>::empty();
            let key = seq![0u8] + der(0x30, der(0x02, n) + (der(0x02, e) + none));
            let spki = der(0x30, der(0x06, oid) + parameters) + (der(0x03, key) + none);
            der(
                0x30,
                der(
                    0x30,
                    der_tbs(
                        version,
                        DerItem { tag: 0x02, content: serial },
                        DerItem { tag: 0x30, content: names[0] },
                        DerItem { tag: 0x30, content: names[1] },
                        DerItem { tag: 0x30, content: names[2] },
                        DerItem { tag: 0x30, content: names[3] },
                        DerItem { tag: 0x30, content: spki },
                        rest,
                    ),
                ) + behind,
            )
        }),
        leaf.len() < 0x1_0000_0000,
    ensures
        leaf_key(leaf) == Some((magnitude(n), magnitude(e))),
        ({
            let m = magnitude(n);
            let x = magnitude(e);
            let known = scheme == 0x0804 || scheme == 0x0805 || scheme == 0x0806 || scheme
                == 0x0401 || scheme == 0x0501 || scheme == 0x0601;
            let valid = (scheme == 0x0804 && pss_sha256_ok(m, x, sig, tbs)) || (scheme == 0x0805
                && pss_sha384_ok(m, x, sig, tbs)) || (scheme == 0x0806 && pss_sha512_ok(
                m,
                x,
                sig,
                tbs,
            )) || (scheme == 0x0401 && pkcs1_sha256_ok(m, x, sig, tbs)) || (scheme == 0x0501
                && pkcs1_sha384_ok(m, x, sig, tbs)) || (scheme == 0x0601 && pkcs1_sha512_ok(
                m,
                x,
                sig,
                tbs,
            ));
            &&& valid ==> verified(scheme, leaf, sig, tbs) == Ok::<(), Tls13Error>(())
            &&& known && !valid ==> verified(scheme, leaf, sig, tbs) == Err::<(), _>(
                Tls13Error::CertVerifyRejected,
            )
            &&& !known ==> verified(scheme, leaf, sig, tbs) == Err::<(), _>(Tls13Error::BadScheme)
        }),
{
    let oid = seq![0x2au8, 0x86u8, 0x48u8, 0x86u8, 0xf7u8, 0x0du8, 0x01u8, 0x01u8, 0x01u8];
    let none = Seq::<u8>::empty();
    let key = seq![0u8] + der(0x30, der(0x02, n) + (der(0x02, e) + none));
    let inner = der(0x30, der(0x06, oid) + parameters) + (der(0x03, key) + none);
    let spki = DerItem { tag: 0x30, content: inner };
    assert(leaf + none =~= leaf);
    let tbs_der = der_tbs(
        version,
        DerItem { tag: 0x02, content: serial },
        DerItem { tag: 0x30, content: names[0] },
        DerItem { tag: 0x30, content: names[1] },
        DerItem { tag: 0x30, content: names[2] },
        DerItem { tag: 0x30, content: names[3] },
        spki,
        rest,
    );
    lemma_der_len(0x30, der(0x30, tbs_der) + behind);
    lemma_der_len(0x30, tbs_der);
    law_certificate_spki(
        version,
        DerItem { tag: 0x02, content: serial },
        DerItem { tag: 0x30, content: names[0] },
        DerItem { tag: 0x30, content: names[1] },
        DerItem { tag: 0x30, content: names[2] },
        DerItem { tag: 0x30, content: names[3] },
        spki,
        rest,
        behind,
        none,
    );
    assert(der_item(spki) == der_spki(oid, parameters, 0, n, e, none, none));
    law_spki_key(oid, parameters, 0, n, e, none, none);
}

/// Law: a certificate without an acceptable RSA key decides nothing: whatever
/// the signature, the scheme is refused.
pub proof fn law_no_key_no_verdict(scheme: u16, leaf: Seq<u8>, sig: Seq<u8>, tbs: Seq<u8>)
    requires
        cert_spki(leaf) is None || spki_parts(cert_spki(leaf)->0) is None || !rsa_key_ok(
            (spki_parts(cert_spki(leaf)->0)->0).0,
            (spki_parts(cert_spki(leaf)->0)->0).1,
        ),
    ensures
        verified(scheme, leaf, sig, tbs) == Err::<(), _>(Tls13Error::BadScheme),
{
}

/// One entry of a Certificate message: a certificate and its extensions.
pub struct ChainEntry {
    pub certificate: Seq<u8>,
    pub extensions: Seq<u8>,
}

/// The entries of a Certificate message on the wire (RFC 8446, section 4.4.2).
pub open spec fn chain_bytes(entries: Seq<ChainEntry>) -> Seq<u8>
    decreases entries.len(),
{
    if entries.len() == 0 {
        Seq::empty()
    } else {
        be24(entries[0].certificate.len() as int) + entries[0].certificate + be16(
            entries[0].extensions.len() as int,
        ) + entries[0].extensions + chain_bytes(entries.skip(1))
    }
}

/// Law: a Certificate message gives the certificates of its entries, all of
/// them, in order, whatever the request context, the extensions and the bytes
/// behind the list.
pub proof fn law_certificate_message_round_trip(
    context: Seq<u8>,
    entries: Seq<ChainEntry>,
    rest: Seq<u8>,
)
    requires
        context.len() <= 255,
        chain_bytes(entries).len() < 0x100_0000,
        forall|i: int|
            0 <= i < entries.len() ==> (#[trigger] entries[i]).certificate.len() < 0x100_0000
                && entries[i].extensions.len() < 0x1_0000,
    ensures
        cert_chain(
            seq![context.len() as u8] + context + be24(chain_bytes(entries).len() as int)
                + chain_bytes(entries) + rest,
        ) == Some(entries.map_values(|e: ChainEntry| e.certificate)),
{
    let list = chain_bytes(entries);
    let body = seq![context.len() as u8] + context + be24(list.len() as int) + list + rest;
    let at = 4 + context.len() as int;
    law_big_endian(list.len() as int);
    let l = be24(list.len() as int);
    assert(body[at - 3] == l[0] && body[at - 2] == l[1] && body[at - 1] == l[2]);
    assert(body.subrange(at, at + list.len()) =~= list);
    lemma_chain_entries(entries);
}

proof fn lemma_chain_entries(entries: Seq<ChainEntry>)
    requires
        forall|i: int|
            0 <= i < entries.len() ==> (#[trigger] entries[i]).certificate.len() < 0x100_0000
                && entries[i].extensions.len() < 0x1_0000,
    ensures
        cert_entries(chain_bytes(entries)) == Some(
            entries.map_values(|e: ChainEntry| e.certificate),
        ),
    decreases entries.len(),
{
    let out = entries.map_values(|e: ChainEntry| e.certificate);
    if entries.len() == 0 {
        assert(out =~= Seq::<Seq<u8>>::empty());
    } else {
        let head = entries[0];
        let tail = entries.skip(1);
        let n = head.certificate.len() as int;
        let m = head.extensions.len() as int;
        assert forall|i: int| 0 <= i < tail.len() implies (#[trigger] tail[i]).certificate.len()
            < 0x100_0000 && tail[i].extensions.len() < 0x1_0000 by {
            assert(tail[i] == entries[i + 1]);
        }
        lemma_chain_entries(tail);
        let s = chain_bytes(entries);
        let a = be24(n);
        let b = be16(m);
        law_big_endian(n);
        law_big_endian(m);
        assert(s[0] == a[0] && s[1] == a[1] && s[2] == a[2]);
        assert(s[3 + n] == b[0] && s[4 + n] == b[1]);
        assert(s.subrange(3, 3 + n) =~= head.certificate);
        assert(s.skip(5 + n + m) =~= chain_bytes(tail));
        assert(out =~= seq![head.certificate] + tail.map_values(
            |e: ChainEntry| e.certificate,
        ));
    }
}

/// Law: a Certificate message that is cut off, or whose list ends inside an
/// entry, is refused as a whole.
#[verifier::spinoff_prover]
#[verifier::rlimit(50)]
pub proof fn law_cut_certificate_message_is_refused(
    context: Seq<u8>,
    entries: Seq<ChainEntry>,
    last: ChainEntry,
    have: int,
    rest: Seq<u8>,
    cut: int,
)
    requires
        context.len() <= 255,
        chain_bytes(entries).len() + have < 0x100_0000,
        forall|i: int|
            0 <= i < entries.len() ==> (#[trigger] entries[i]).certificate.len() < 0x100_0000
                && entries[i].extensions.len() < 0x1_0000,
        last.certificate.len() < 0x100_0000,
        last.extensions.len() < 0x1_0000,
        0 < have < chain_bytes(seq![last]).len(),
        0 <= cut < 4 + context.len() + chain_bytes(entries).len(),
    ensures
        cert_chain(
            seq![context.len() as u8] + context + be24(
                chain_bytes(entries).len() + have,
            ) + (chain_bytes(entries) + chain_bytes(seq![last]).take(have)) + rest,
        ) is None,
        cert_chain(
            (seq![context.len() as u8] + context + be24(chain_bytes(entries).len() as int)
                + chain_bytes(entries)).take(cut),
        ) is None,
{
    let list = chain_bytes(entries) + chain_bytes(seq![last]).take(have);
    let body = seq![context.len() as u8] + context + be24(list.len() as int) + list + rest;
    let at = 4 + context.len() as int;
    law_big_endian(list.len() as int);
    let l = be24(list.len() as int);
    assert(body[at - 3] == l[0] && body[at - 2] == l[1] && body[at - 1] == l[2]);
    assert(body.subrange(at, at + list.len()) =~= list);
    lemma_cut_entry(entries, last, have);
    let whole = chain_bytes(entries);
    let full = seq![context.len() as u8] + context + be24(whole.len() as int) + whole;
    let short = full.take(cut);
    law_big_endian(whole.len() as int);
    let m = be24(whole.len() as int);
    assert(full[at - 3] == m[0] && full[at - 2] == m[1] && full[at - 1] == m[2]);
    if cut >= 1 {
        assert(short[0] == full[0]);
    }
    if cut >= at {
        assert(short[at - 3] == m[0] && short[at - 2] == m[1] && short[at - 1] == m[2]);
    }
}

#[verifier::spinoff_prover]
#[verifier::rlimit(50)]
proof fn lemma_cut_entry(entries: Seq<ChainEntry>, last: ChainEntry, have: int)
    requires
        forall|i: int|
            0 <= i < entries.len() ==> (#[trigger] entries[i]).certificate.len() < 0x100_0000
                && entries[i].extensions.len() < 0x1_0000,
        last.certificate.len() < 0x100_0000,
        last.extensions.len() < 0x1_0000,
        0 < have < chain_bytes(seq![last]).len(),
    ensures
        cert_entries(chain_bytes(entries) + chain_bytes(seq![last]).take(have)) is None,
    decreases entries.len(),
{
    let part = chain_bytes(seq![last]).take(have);
    let s = chain_bytes(entries) + part;
    if entries.len() == 0 {
        let n = last.certificate.len() as int;
        let m = last.extensions.len() as int;
        let one = chain_bytes(seq![last]);
        assert(seq![last].skip(1) =~= Seq::<ChainEntry>::empty());
        assert(chain_bytes(seq![last].skip(1)) =~= Seq::<u8>::empty());
        law_big_endian(n);
        law_big_endian(m);
        let a = be24(n);
        let b = be16(m);
        assert(one.len() == 5 + n + m);
        assert(one[0] == a[0] && one[1] == a[1] && one[2] == a[2]);
        assert(one[3 + n] == b[0] && one[4 + n] == b[1]);
        assert(s =~= part);
        assert(forall|i: int| 0 <= i < have ==> s[i] == one[i]);
    } else {
        let head = entries[0];
        let tail = entries.skip(1);
        let n = head.certificate.len() as int;
        let m = head.extensions.len() as int;
        assert forall|i: int| 0 <= i < tail.len() implies (#[trigger] tail[i]).certificate.len()
            < 0x100_0000 && tail[i].extensions.len() < 0x1_0000 by {
            assert(tail[i] == entries[i + 1]);
        }
        lemma_cut_entry(tail, last, have);
        let a = be24(n);
        let b = be16(m);
        law_big_endian(n);
        law_big_endian(m);
        assert(s[0] == a[0] && s[1] == a[1] && s[2] == a[2]);
        assert(s[3 + n] == b[0] && s[4 + n] == b[1]);
        assert(s.skip(5 + n + m) =~= chain_bytes(tail) + part);
    }
}

/// Law: a length field that asks for more than four length bytes, or is not
/// there, is not read.
pub proof fn law_huge_length_is_refused(s: Seq<u8>)
    ensures
        s.len() < 2 ==> tlv_of(s) is None,
        s.len() >= 2 && s[1] > 0x84 ==> tlv_of(s) is None,
{
}

/// Law: a certificate is a SEQUENCE that starts with a SEQUENCE; anything else
/// has no SubjectPublicKeyInfo.
pub proof fn law_certificate_is_a_sequence(
    tag: u8,
    content: Seq<u8>,
    behind: Seq<u8>,
    after: Seq<u8>,
)
    requires
        tag != 0x30,
        der(tag, content).len() + behind.len() < 0x1_0000_0000,
    ensures
        cert_spki(der(tag, content) + after) is None,
        cert_spki(der(0x30, der(tag, content) + behind) + after) is None,
{
    lemma_der_len(tag, content);
    law_der_round_trip(tag, content, after);
    law_der_round_trip(0x30, der(tag, content) + behind, after);
    law_der_round_trip(tag, content, behind);
}

/// Law: every element of a SubjectPublicKeyInfo must have its tag: the whole and
/// the algorithm are SEQUENCEs, the key is a BIT STRING around a SEQUENCE of two
/// INTEGERs, and the algorithm starts with an OBJECT IDENTIFIER.
#[verifier::spinoff_prover]
#[verifier::rlimit(50)]
pub proof fn law_spki_tags(
    tags: Seq<u8>,
    oid: Seq<u8>,
    parameters: Seq<u8>,
    n: Seq<u8>,
    e: Seq<u8>,
    more: Seq<u8>,
    rest: Seq<u8>,
)
    requires
        tags.len() == 7,
        tags != seq![0x30u8, 0x30u8, 0x06u8, 0x03u8, 0x30u8, 0x02u8, 0x02u8],
        der(
            tags[0],
            der(tags[1], der(tags[2], oid) + parameters) + (der(
                tags[3],
                seq![0u8] + der(tags[4], der(tags[5], n) + (der(tags[6], e) + more)),
            ) + rest),
        ).len() < 0x1_0000_0000,
    ensures
        spki_parts(
            der(
                tags[0],
                der(tags[1], der(tags[2], oid) + parameters) + (der(
                    tags[3],
                    seq![0u8] + der(tags[4], der(tags[5], n) + (der(tags[6], e) + more)),
                ) + rest),
            ),
        ) is None,
{
    let key = der(tags[5], n) + (der(tags[6], e) + more);
    let bits = seq![0u8] + der(tags[4], key);
    let alg = der(tags[2], oid) + parameters;
    let inner = der(tags[1], alg) + (der(tags[3], bits) + rest);
    let whole = der(tags[0], inner);
    let none = Seq::<u8>::empty();
    lemma_der_len(tags[0], inner);
    lemma_der_len(tags[1], alg);
    lemma_der_len(tags[3], bits);
    lemma_der_len(tags[2], oid);
    lemma_der_len(tags[4], key);
    assert(whole + none =~= whole);
    lemma_tagged(tags[0], inner, none, TAG_SEQUENCE);
    lemma_tagged(tags[1], alg, der(tags[3], bits) + rest, TAG_SEQUENCE);
    lemma_tagged(tags[3], bits, rest, TAG_BIT_STRING);
    lemma_tagged(tags[2], oid, parameters, TAG_OID);
    assert(bits.skip(1) =~= der(tags[4], key));
    lemma_key_tags(tags[4], tags[5], tags[6], n, e, more);
    if spki_parts(whole) is Some {
        assert(tags[0] == 0x30 && tags[1] == 0x30 && tags[2] == 0x06 && tags[3] == 0x03);
        assert(tags =~= seq![0x30u8, 0x30u8, 0x06u8, 0x03u8, 0x30u8, 0x02u8, 0x02u8]);
    }
}

/// What reading an element with a wanted tag gives.
proof fn lemma_tagged(tag: u8, content: Seq<u8>, rest: Seq<u8>, wanted: u8)
    requires
        content.len() < 0x1_0000_0000,
    ensures
        tagged(der(tag, content) + rest, wanted) == (if tag == wanted {
            Some(Tlv { tag, content, size: der(tag, content).len() as int })
        } else {
            None
        }),
        (der(tag, content) + rest).skip(der(tag, content).len() as int) == rest,
{
    law_der_round_trip(tag, content, rest);
}

proof fn lemma_key_tags(outer: u8, first: u8, second: u8, n: Seq<u8>, e: Seq<u8>, more: Seq<u8>)
    requires
        (der(first, n) + (der(second, e) + more)).len() < 0x1_0000_0000,
    ensures
        rsa_parts(der(outer, der(first, n) + (der(second, e) + more))) is Some ==> outer == 0x30
            && first == 0x02 && second == 0x02,
{
    let key = der(first, n) + (der(second, e) + more);
    let none = Seq::<u8>::empty();
    lemma_der_len(first, n);
    lemma_der_len(second, e);
    assert(der(outer, key) + none =~= der(outer, key));
    lemma_tagged(outer, key, none, TAG_SEQUENCE);
    lemma_tagged(first, n, der(second, e) + more, TAG_INTEGER);
    lemma_tagged(second, e, more, TAG_INTEGER);
}

} // verus!
