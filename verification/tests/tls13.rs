//! The TLS 1.3 client core against a server made of the same primitives.

use chacha20poly1305::aead::{Aead, KeyInit, Payload};
use rsa::signature::{RandomizedSigner, SignatureEncoding, Signer};
use shadevpn_native::schedule::{
    cipher_from_key, derive_secret, digest, finished_key, hkdf_expand, hkdf_expand_label,
    hkdf_extract, hmac_hash, key_iv_from_secret, record_nonce, strip_inner_padding, CipherSuite,
    HashAlg,
};
use shadevpn_native::tls::build_client_hello;
use shadevpn_native::tls13::{
    Flight, Tls13Client, Tls13Error, CONTENT_ALERT, CONTENT_APPDATA, CONTENT_HANDSHAKE,
    HS_CERTIFICATE, HS_CERTIFICATE_VERIFY, HS_ENCRYPTED_EXTENSIONS, HS_FINISHED, HS_SERVER_HELLO,
};
use shadevpn_native::x509::{
    parse_cert_spki, parse_certificate_entry_bodies, parse_rsa_spki, signature_verdict, tlv,
    verify_certificate_verify,
};
use x25519_dalek::{PublicKey, StaticSecret};

    fn chrome_hello(secret: &StaticSecret) -> Vec<u8> {
        let mut random = [0u8; 32];
        random[..17].copy_from_slice(b"tls13-test-random");
        let session_id = vec![7u8; 32];
        build_client_hello(
            Some("localhost"),
            PublicKey::from(secret).as_bytes(),
            &random,
            &session_id,
        )
        .expect("hello")
    }

    #[test]
    fn hkdf_expand_label_matches_rfc8448_shape() {
        // Self-consistency: expand twice with the same inputs is stable, and
        // different labels produce different output.
        let secret = [3u8; 32];
        let a = hkdf_expand_label(HashAlg::S256, &secret, "key", &[], 16);
        let b = hkdf_expand_label(HashAlg::S256, &secret, "key", &[], 16);
        let c = hkdf_expand_label(HashAlg::S256, &secret, "iv", &[], 16);
        assert_eq!(a, b);
        assert_ne!(a, c);
        assert_eq!(a.len(), 16);
    }

    #[test]
    fn record_nonce_xor_is_deterministic_and_seq_dependent() {
        let iv = [0x11u8; 12];
        let n0 = record_nonce(&iv, 0);
        let n1 = record_nonce(&iv, 1);
        let n_big = record_nonce(&iv, u64::MAX);
        assert_eq!(n0, iv.to_vec());
        assert_ne!(n0, n1);
        assert_ne!(n1, n_big);
        // XOR only touches the last 8 bytes.
        assert_eq!(&n1[..4], &iv[..4]);
    }

    #[test]
    fn certificate_message_yields_chain_bodies() {
        // Two fake 3-byte certs with no extensions.
        let mut body = vec![0u8]; // empty request context
        body.extend_from_slice(&[
            0x00, 0x00, 0x0f, // list length: 3 + 4 + 2 + 3 + 4 + 2 - 3? compute below
        ]);
        // Build properly instead: cert1 (3 bytes) + ext(0) + cert2 (3 bytes) + ext(0)
        let mut inner = Vec::new();
        inner.extend_from_slice(&3u32.to_be_bytes()[1..]);
        inner.extend_from_slice(b"abc");
        inner.extend_from_slice(&0u16.to_be_bytes());
        inner.extend_from_slice(&3u32.to_be_bytes()[1..]);
        inner.extend_from_slice(b"def");
        inner.extend_from_slice(&0u16.to_be_bytes());
        body = vec![0u8];
        body.extend_from_slice(&(inner.len() as u32).to_be_bytes()[1..]);
        body.extend_from_slice(&inner);
        let chain = parse_certificate_entry_bodies(&body).expect("parse");
        assert_eq!(chain, vec![b"abc".to_vec(), b"def".to_vec()]);
    }

    #[test]
    fn truncated_flight_is_rejected() {
        let mut client = Tls13Client::new();
        let secret = StaticSecret::random_from_rng(rand_core::OsRng);
        client.set_client_hello(&chrome_hello(&secret));
        // Never got a ServerHello: flight processing must fail cleanly.
        let err = client.process_server_flight(&[0x17, 0x03, 0x03, 0x00, 0x05, 1, 2, 3, 4, 5]);
        assert!(matches!(err, Err(Tls13Error::BadHandshake)));
    }

    
// ---------------------------------------------------------------------------
// Key schedule
// ---------------------------------------------------------------------------

#[test]
fn key_schedule_matches_the_published_constants() {
    // RFC 8448: early secret without a key, and the secret derived from it.
    let early = hkdf_extract(HashAlg::S256, &[0u8; 32], &[0u8; 32]);
    assert_eq!(
        hex::encode(&early),
        "33ad0a1c607ec03b09e6cd9893680ce210adf300aa1f2660e1b22e10f170f92a"
    );
    assert_eq!(
        hex::encode(derive_secret(HashAlg::S256, &early, "derived", &HashAlg::S256.empty_hash())),
        "6f2615a108c702c5678f54fc9dbab69716c076189c48250cebeac3576c3611ba"
    );
    let early = hkdf_extract(HashAlg::S384, &[0u8; 48], &[0u8; 48]);
    assert_eq!(
        hex::encode(derive_secret(HashAlg::S384, &early, "derived", &HashAlg::S384.empty_hash())),
        "1591dac5cbbf0330a4a84de9c753330e92d01f0a88214b4464972fd668049e93e52f2b16fad922fdc0584478428f282b"
    );
    assert_eq!(
        hex::encode(hkdf_expand(HashAlg::S384, &[3u8; 48], b"info", 100)),
        "e3ebfed0e4302388da2384b0faa7b4ab1e77189153bf1e0f8296342ee26eaa38a4f314a810a3c9294fc973a6\
         93a54ff47b6885301e6eb3b8dd9f47e237a933a79e381f1fb81502576ef4023f240231935bdba5a3287923dc\
         5965c0934252f788d7bfc984"
    );
    assert_eq!(hkdf_expand(HashAlg::S256, &[3u8; 32], b"info", 0), Vec::<u8>::new());
}

#[test]
fn expand_label_values_are_exact() {
    let (key, iv) = key_iv_from_secret(CipherSuite::Aes128GcmSha256, &[3u8; 32]);
    assert_eq!(hex::encode(key), "6e1dee0168d52967394634af10fd1c55");
    assert_eq!(hex::encode(iv), "60943fa89976d16ef7ad7120");
}

#[test]
fn hashes_and_macs_match_known_values() {
    assert_eq!(
        hex::encode(digest(HashAlg::S384, b"abc")),
        "cb00753f45a35e8bb5a03d699ac65007272c32ab0eded1631a8b605a43ff5bed8086072ba1e7cc2358baeca134c825a7"
    );
    assert_eq!(
        hex::encode(hmac_hash(HashAlg::S256, b"key", b"data")),
        "5031fe3d989c6d1537a013fa6e739da23463fdaec3b70137d828e36ace221bd0"
    );
    assert_eq!(
        hex::encode(hmac_hash(HashAlg::S384, b"key", b"data")),
        "c5f97ad9fd1020c174d7dc02cf83c4c1bf15ee20ec555b690ad58e62da8a00ee44ccdb65cb8c80acfd127ebee568958a"
    );
}

// ---------------------------------------------------------------------------
// Record protection
// ---------------------------------------------------------------------------

const SUITES: [CipherSuite; 3] = [
    CipherSuite::Aes128GcmSha256,
    CipherSuite::Aes256GcmSha384,
    CipherSuite::ChaCha20Poly1305Sha256,
];

#[test]
fn aead_vectors_are_exact() {
    // The zero-key vectors of the GCM specification.
    let c = cipher_from_key(CipherSuite::Aes128GcmSha256, &[0u8; 16]).ok().unwrap();
    assert_eq!(
        hex::encode(c.seal(&[0u8; 12], &[0u8; 16], &[]).unwrap()),
        "0388dace60b6a392f328c2b971b2fe78ab6e47d42cec13bdf53a67b21257bddf"
    );
    let c = cipher_from_key(CipherSuite::Aes256GcmSha384, &[0u8; 32]).ok().unwrap();
    assert_eq!(
        hex::encode(c.seal(&[0u8; 12], &[0u8; 16], &[]).unwrap()),
        "cea7403d4d606b6e074ec5d3baf39d18d0d1c8a799996bf0265b98b5d48ab919"
    );
    let c = cipher_from_key(CipherSuite::ChaCha20Poly1305Sha256, &[0u8; 32]).ok().unwrap();
    let sealed = c.seal(&[0u8; 12], b"message", b"header").unwrap();
    let want = {
        chacha20poly1305::ChaCha20Poly1305::new_from_slice(&[0u8; 32])
            .unwrap()
            .encrypt(
                &[0u8; 12].into(),
                Payload {
                    msg: b"message",
                    aad: b"header",
                },
            )
            .unwrap()
    };
    assert_eq!(sealed, want);
}

#[test]
fn every_suite_opens_what_it_seals_and_nothing_else() {
    for suite in SUITES {
        let c = cipher_from_key(suite, &vec![7u8; suite.key_len()]).ok().unwrap();
        let sealed = c.seal(&[1u8; 12], b"payload", b"aad").unwrap();
        assert_eq!(sealed.len(), 7 + 16);
        assert_eq!(c.open(&[1u8; 12], &sealed, b"aad").unwrap(), b"payload".to_vec());
        assert_eq!(c.open(&[2u8; 12], &sealed, b"aad"), Err(Tls13Error::DecryptFailed));
        assert_eq!(c.open(&[1u8; 12], &sealed, b"aae"), Err(Tls13Error::DecryptFailed));
        assert_eq!(c.open(&[1u8; 12], &sealed[1..], b"aad"), Err(Tls13Error::DecryptFailed));
        assert_eq!(c.open(&[1u8; 12], &[], b"aad"), Err(Tls13Error::DecryptFailed));
        assert!(matches!(
            cipher_from_key(suite, &[0u8; 17]),
            Err(Tls13Error::BadCipherSuite)
        ));
    }
}

#[test]
fn inner_padding_is_stripped() {
    assert_eq!(strip_inner_padding(&[1, 2, 0x17]), Ok((0x17, &[1u8, 2][..])));
    assert_eq!(strip_inner_padding(&[1, 0, 0x16, 0, 0]), Ok((0x16, &[1u8, 0][..])));
    assert_eq!(strip_inner_padding(&[0x15]), Ok((0x15, &[][..])));
    assert_eq!(strip_inner_padding(&[0, 0]), Err(Tls13Error::BadRecord));
    assert_eq!(strip_inner_padding(&[]), Err(Tls13Error::BadRecord));
}

#[test]
fn record_nonces_are_exact() {
    let iv: Vec<u8> = (0u8..12).collect();
    assert_eq!(
        record_nonce(&iv, 0x0102030405060708),
        vec![0, 1, 2, 3, 4 ^ 1, 5 ^ 2, 6 ^ 3, 7 ^ 4, 8 ^ 5, 9 ^ 6, 10 ^ 7, 11 ^ 8]
    );
}

// ---------------------------------------------------------------------------
// Certificates and signatures
// ---------------------------------------------------------------------------

const PRIME_P: &str = "e189725eddf8ccb3c467ab3a006acdf7c7f69cb8c57e630f683e7fcc3898a002e92c721464fa1e50db517e266b0c15bc716d239de20732c7c82e25af581825a1791ffe2d364719e4bf73814b7bf6fe14686e62c9e375661d958ca74fe2a455a18aadc1799d493a6e01369d6bebcfd19b98c9e3737faecc8bfec673c1b07d4997";
const PRIME_Q: &str = "c0715fb1f57d7fbab484d4455c4eb318f3bd9de860457421ec67aa5e0dbccff84fdeab882e4b9c0a77e0e8aceb8e08cbcc0e81af0dad5c52fceffee56132cce444ef741d4f68e4b758e0fca37c39259705ba76d603aef22fe33cbd4cd340a3cf22f5a6615110a769e4e3ef75fa7534a986d6e4fe87df48df34aa600377f21035";

fn signing_key() -> rsa::RsaPrivateKey {
    let p = rsa::BigUint::from_bytes_be(&hex::decode(PRIME_P).unwrap());
    let q = rsa::BigUint::from_bytes_be(&hex::decode(PRIME_Q).unwrap());
    rsa::RsaPrivateKey::from_p_q(p, q, rsa::BigUint::from(65537u32)).expect("key")
}

fn modulus() -> Vec<u8> {
    let p = rsa::BigUint::from_bytes_be(&hex::decode(PRIME_P).unwrap());
    let q = rsa::BigUint::from_bytes_be(&hex::decode(PRIME_Q).unwrap());
    (p * q).to_bytes_be()
}

fn der(tag: u8, content: &[u8]) -> Vec<u8> {
    let mut out = vec![tag];
    if content.len() < 0x80 {
        out.push(content.len() as u8);
    } else {
        out.push(0x82);
        out.extend_from_slice(&(content.len() as u16).to_be_bytes());
    }
    out.extend_from_slice(content);
    out
}

fn spki(n: &[u8], e: &[u8]) -> Vec<u8> {
    let mut padded = vec![0u8];
    padded.extend_from_slice(n);
    let pair = [der(0x02, &padded), der(0x02, e)].concat();
    let mut bits = vec![0u8];
    bits.extend_from_slice(&der(0x30, &pair));
    let oid = der(0x06, &[0x2a, 0x86, 0x48, 0x86, 0xf7, 0x0d, 0x01, 0x01, 0x01]);
    let alg = [oid, der(0x05, &[])].concat();
    der(0x30, &[der(0x30, &alg), der(0x03, &bits)].concat())
}

fn certificate(with_version: bool) -> Vec<u8> {
    let mut tbs = Vec::new();
    if with_version {
        tbs.extend_from_slice(&der(0xa0, &der(0x02, &[2])));
    }
    tbs.extend_from_slice(&der(0x02, &[1, 2, 3]));
    for _ in 0..4 {
        tbs.extend_from_slice(&der(0x30, &[]));
    }
    tbs.extend_from_slice(&spki(&modulus(), &[1, 0, 1]));
    der(0x30, &[der(0x30, &tbs), der(0x30, &[])].concat())
}

#[test]
fn der_elements_are_walked() {
    let d = tlv(&[0x30, 0x03, 1, 2, 3, 9]).unwrap();
    assert_eq!((d.tag, d.content, d.full, d.rest), (
        0x30,
        &[1u8, 2, 3][..],
        &[0x30u8, 3, 1, 2, 3][..],
        &[9u8][..]
    ));
    let mut long = vec![0x04, 0x81, 0x80];
    long.extend_from_slice(&[7u8; 0x80]);
    assert_eq!(tlv(&long).unwrap().content.len(), 0x80);
    for bad in [
        &[0x30u8][..],
        &[0x30, 5, 1],
        &[0x30, 0x85, 0, 0, 0, 0, 0],
        &[0x30, 0x82, 1],
        &[0x30, 0x84, 0xff, 0xff, 0xff, 0xff],
    ] {
        assert!(tlv(bad).is_none());
    }
}

#[test]
fn certificates_yield_their_rsa_key() {
    for with_version in [true, false] {
        let cert = certificate(with_version);
        let found = parse_cert_spki(&cert).expect("spki");
        assert_eq!(found, &spki(&modulus(), &[1, 0, 1])[..]);
        let key = parse_rsa_spki(found).expect("key");
        assert_eq!(key.n, modulus());
        assert_eq!(key.e, vec![1, 0, 1]);
    }
    assert!(parse_cert_spki(&[0x30, 0]).is_none());
    // Keys that are refused: an even exponent, an even modulus, too many bits.
    assert!(parse_rsa_spki(&spki(&modulus(), &[2])).is_none());
    let mut even = modulus();
    *even.last_mut().unwrap() ^= 1;
    assert!(parse_rsa_spki(&spki(&even, &[1, 0, 1])).is_none());
    assert!(parse_rsa_spki(&spki(&[0xff; 513], &[1, 0, 1])).is_none());
    assert!(parse_rsa_spki(&spki(&modulus(), &[1])).is_none());
    assert!(parse_rsa_spki(&spki(&modulus(), &[2, 0, 0, 0, 1])).is_none());
    let mut other_oid = spki(&modulus(), &[1, 0, 1]);
    let at = other_oid.windows(3).position(|w| w == [0x2a, 0x86, 0x48]).unwrap();
    other_oid[at] ^= 1;
    assert!(parse_rsa_spki(&other_oid).is_none());
}

fn signature(scheme: u16, tbs: &[u8]) -> Vec<u8> {
    let key = signing_key();
    let mut rng = rand_core::OsRng;
    match scheme {
        0x0804 => rsa::pss::SigningKey::<sha2::Sha256>::new(key).sign_with_rng(&mut rng, tbs).to_vec(),
        0x0805 => rsa::pss::SigningKey::<sha2::Sha384>::new(key).sign_with_rng(&mut rng, tbs).to_vec(),
        0x0806 => rsa::pss::SigningKey::<sha2::Sha512>::new(key).sign_with_rng(&mut rng, tbs).to_vec(),
        0x0401 => rsa::pkcs1v15::SigningKey::<sha2::Sha256>::new(key).sign(tbs).to_vec(),
        0x0501 => rsa::pkcs1v15::SigningKey::<sha2::Sha384>::new(key).sign(tbs).to_vec(),
        _ => rsa::pkcs1v15::SigningKey::<sha2::Sha512>::new(key).sign(tbs).to_vec(),
    }
}

#[test]
fn pss_signatures_are_verified() {
    let leaf = certificate(true);
    for scheme in [0x0804u16, 0x0805, 0x0806] {
        let sig = signature(scheme, b"signed");
        assert_eq!(verify_certificate_verify(scheme, &leaf, &sig, b"signed"), Ok(()));
        assert_eq!(
            verify_certificate_verify(scheme, &leaf, &sig, b"other"),
            Err(Tls13Error::CertVerifyRejected)
        );
        assert_eq!(
            verify_certificate_verify(scheme, &leaf, &sig[1..], b"signed"),
            Err(Tls13Error::CertVerifyRejected)
        );
        assert_eq!(
            verify_certificate_verify(scheme ^ 1, &leaf, &sig, b"signed").is_ok(),
            false
        );
    }
}

#[test]
fn pkcs1_signatures_are_verified() {
    let leaf = certificate(true);
    for scheme in [0x0401u16, 0x0501, 0x0601] {
        let sig = signature(scheme, b"signed");
        assert_eq!(verify_certificate_verify(scheme, &leaf, &sig, b"signed"), Ok(()));
        assert_eq!(
            verify_certificate_verify(scheme, &leaf, &sig, b"other"),
            Err(Tls13Error::CertVerifyRejected)
        );
        assert_eq!(
            verify_certificate_verify(scheme, &leaf, &[], b"signed"),
            Err(Tls13Error::CertVerifyRejected)
        );
    }
}

#[test]
fn unknown_schemes_and_keys_are_refused() {
    let leaf = certificate(true);
    assert_eq!(
        verify_certificate_verify(0x0403, &leaf, &[], b""),
        Err(Tls13Error::BadScheme)
    );
    assert_eq!(
        verify_certificate_verify(0x0804, b"not a certificate", &[], b""),
        Err(Tls13Error::BadScheme)
    );
    assert_eq!(signature_verdict(true, 0x0804, true), Ok(()));
    assert_eq!(signature_verdict(true, 0x0804, false), Err(Tls13Error::CertVerifyRejected));
    assert_eq!(signature_verdict(false, 0x0804, true), Err(Tls13Error::BadScheme));
    assert_eq!(signature_verdict(true, 0x0403, true), Err(Tls13Error::BadScheme));
}

#[test]
fn certificate_messages_are_bounds_checked() {
    assert_eq!(parse_certificate_entry_bodies(&[0, 0, 0, 0]), Ok(Vec::new()));
    assert_eq!(
        parse_certificate_entry_bodies(&[1, 9, 0, 0, 6, 0, 0, 1, 0x77, 0, 0]),
        Ok(vec![vec![0x77]])
    );
    for bad in [&[][..], &[1], &[0, 0, 0, 1], &[0, 0, 0, 2, 0, 0], &[0, 0, 0, 5, 0, 0, 1, 7, 0]] {
        assert_eq!(parse_certificate_entry_bodies(bad), Err(Tls13Error::Truncated));
    }
}

// ---------------------------------------------------------------------------
// A whole handshake
// ---------------------------------------------------------------------------

/// One direction of the server's record protection.
struct ServerKey {
    suite: CipherSuite,
    secret: Vec<u8>,
    seq: u64,
}

impl ServerKey {
    fn new(suite: CipherSuite, secret: &[u8]) -> ServerKey {
        ServerKey {
            suite,
            secret: secret.to_vec(),
            seq: 0,
        }
    }

    fn seal(&mut self, payload: &[u8], content_type: u8, padding: usize) -> Vec<u8> {
        let (key, iv) = key_iv_from_secret(self.suite, &self.secret);
        let mut inner = payload.to_vec();
        inner.push(content_type);
        inner.resize(inner.len() + padding, 0);
        let mut record = vec![0x17, 3, 3];
        record.extend_from_slice(&((inner.len() + 16) as u16).to_be_bytes());
        let nonce = record_nonce(&iv, self.seq);
        self.seq += 1;
        let cipher = cipher_from_key(self.suite, &key).ok().unwrap();
        let sealed = cipher.seal(&nonce, &inner, &record).unwrap();
        record.extend_from_slice(&sealed);
        record
    }

    fn open(&mut self, record: &[u8]) -> (u8, Vec<u8>) {
        let (key, iv) = key_iv_from_secret(self.suite, &self.secret);
        let nonce = record_nonce(&iv, self.seq);
        self.seq += 1;
        let cipher = cipher_from_key(self.suite, &key).ok().unwrap();
        let plain = cipher.open(&nonce, &record[5..], &record[..5]).unwrap();
        let (ct, payload) = strip_inner_padding(&plain).unwrap();
        (ct, payload.to_vec())
    }
}

fn message(kind: u8, body: &[u8]) -> Vec<u8> {
    let mut out = vec![kind];
    out.extend_from_slice(&(body.len() as u32).to_be_bytes()[1..]);
    out.extend_from_slice(body);
    out
}

fn server_hello(suite: u16, share: Option<&[u8; 32]>) -> Vec<u8> {
    let mut body = vec![3u8, 3];
    body.extend_from_slice(&[0x5a; 32]);
    body.push(32);
    body.extend_from_slice(&[7u8; 32]);
    body.extend_from_slice(&suite.to_be_bytes());
    body.push(0);
    let mut exts = vec![0x00, 0x2b, 0x00, 0x02, 0x03, 0x04];
    if let Some(key) = share {
        exts.extend_from_slice(&[0x00, 0x33, 0x00, 36, 0x00, 0x1d, 0x00, 32]);
        exts.extend_from_slice(key);
    }
    body.extend_from_slice(&(exts.len() as u16).to_be_bytes());
    body.extend_from_slice(&exts);
    let msg = message(HS_SERVER_HELLO, &body);
    let mut record = vec![CONTENT_HANDSHAKE, 3, 3];
    record.extend_from_slice(&(msg.len() as u16).to_be_bytes());
    record.extend_from_slice(&msg);
    record
}

/// A client behind its ServerHello and the server's side of the schedule.
struct Setup {
    client: Tls13Client,
    suite: CipherSuite,
    transcript: Vec<u8>,
    handshake_secret: Vec<u8>,
    shts: Vec<u8>,
    chts: Vec<u8>,
}

fn setup(suite: CipherSuite) -> Setup {
    let code = match suite {
        CipherSuite::Aes128GcmSha256 => 0x1301u16,
        CipherSuite::Aes256GcmSha384 => 0x1302,
        CipherSuite::ChaCha20Poly1305Sha256 => 0x1303,
    };
    let h = suite.hash();
    let eph = StaticSecret::from([0x11u8; 32]);
    let server = StaticSecret::from([0x22u8; 32]);
    let hello = chrome_hello(&eph);
    let mut client = Tls13Client::new();
    client.set_client_hello(&hello);
    let public = PublicKey::from(&server);
    let sh = server_hello(code, Some(public.as_bytes()));
    assert_eq!(client.process_server_hello(&sh), Ok(*public.as_bytes()));
    let shared = eph.diffie_hellman(&public);
    client.derive_handshake_keys(shared.as_bytes()).expect("keys");

    let transcript = [&hello[5..], &sh[5..]].concat();
    let zero = vec![0u8; h.len()];
    let early = hkdf_extract(h, &zero, &zero);
    let salt = derive_secret(h, &early, "derived", &h.empty_hash());
    let handshake_secret = hkdf_extract(h, &salt, shared.as_bytes());
    let th = digest(h, &transcript);
    let shts = derive_secret(h, &handshake_secret, "s hs traffic", &th);
    let chts = derive_secret(h, &handshake_secret, "c hs traffic", &th);
    Setup {
        client,
        suite,
        transcript,
        handshake_secret,
        shts,
        chts,
    }
}

/// The four messages of the server flight.
fn flight_messages(s: &mut Setup, scheme: u16) -> Vec<Vec<u8>> {
    let h = s.suite.hash();
    let ee = message(HS_ENCRYPTED_EXTENSIONS, &[0, 0]);
    let leaf = certificate(true);
    let mut entry = (leaf.len() as u32).to_be_bytes()[1..].to_vec();
    entry.extend_from_slice(&leaf);
    entry.extend_from_slice(&[0, 0]);
    let mut list = vec![0u8];
    list.extend_from_slice(&(entry.len() as u32).to_be_bytes()[1..]);
    list.extend_from_slice(&entry);
    let cert = message(HS_CERTIFICATE, &list);
    s.transcript.extend_from_slice(&ee);
    s.transcript.extend_from_slice(&cert);

    let mut tbs = vec![0x20u8; 64];
    tbs.extend_from_slice(b"TLS 1.3, server CertificateVerify\0");
    tbs.extend_from_slice(&digest(h, &s.transcript));
    let sig = signature(scheme, &tbs);
    let mut cv = scheme.to_be_bytes().to_vec();
    cv.extend_from_slice(&(sig.len() as u16).to_be_bytes());
    cv.extend_from_slice(&sig);
    let cv = message(HS_CERTIFICATE_VERIFY, &cv);
    s.transcript.extend_from_slice(&cv);

    let verify = hmac_hash(h, &finished_key(h, &s.shts), &digest(h, &s.transcript));
    let fin = message(HS_FINISHED, &verify);
    s.transcript.extend_from_slice(&fin);
    vec![ee, cert, cv, fin]
}

fn run_handshake(suite: CipherSuite, scheme: u16) {
    let mut s = setup(suite);
    let h = suite.hash();
    let all = flight_messages(&mut s, scheme).concat();
    let mut key = ServerKey::new(suite, &s.shts);
    // A ChangeCipherSpec, then the flight cut into two padded records.
    let mut records = vec![0x14, 3, 3, 0, 1, 1];
    let cut = all.len() / 3;
    records.extend_from_slice(&key.seal(&all[..cut], CONTENT_HANDSHAKE, 9));
    records.extend_from_slice(&key.seal(&all[cut..], CONTENT_HANDSHAKE, 0));
    let outcome = s.client.process_server_flight(&records).ok().expect("flight");
    assert_eq!(outcome.suite, suite);
    assert_eq!(outcome.server_chain, vec![certificate(true)]);

    let salt = derive_secret(h, &s.handshake_secret, "derived", &h.empty_hash());
    let master = hkdf_extract(h, &salt, &vec![0u8; h.len()]);
    let th = digest(h, &s.transcript);
    let cets = derive_secret(h, &master, "c ap traffic", &th);
    let sets = derive_secret(h, &master, "s ap traffic", &th);
    assert_eq!(outcome.client_app_secret, cets);
    assert_eq!(outcome.server_app_secret, sets);

    // The client Finished.
    let fin = s.client.client_finished_record().expect("finished");
    let (ct, msg) = ServerKey::new(suite, &s.chts).open(&fin);
    assert_eq!(ct, CONTENT_HANDSHAKE);
    let verify = hmac_hash(h, &finished_key(h, &s.chts), &th);
    assert_eq!(msg, message(HS_FINISHED, &verify));

    // Application data both ways.
    let mut to_server = ServerKey::new(suite, &cets);
    for n in [0usize, 1, 1000, 16_000] {
        let data = vec![n as u8; n];
        let record = s.client.seal_app_record(&data).expect("seal");
        assert_eq!(record.len(), 5 + n + 17);
        assert_eq!(to_server.open(&record), (CONTENT_APPDATA, data));
    }
    let mut to_client = ServerKey::new(suite, &sets);
    let ticket = to_client.seal(&[4, 0, 0, 0], CONTENT_HANDSHAKE, 3);
    assert_eq!(s.client.open_record(&ticket), Ok((CONTENT_HANDSHAKE, vec![4, 0, 0, 0])));
    let echo = to_client.seal(b"echo", CONTENT_APPDATA, 0);
    assert_eq!(s.client.open_app_record(&echo), Ok(b"echo".to_vec()));
    // Replayed, mistyped, cut off.
    assert_eq!(s.client.open_app_record(&echo), Err(Tls13Error::DecryptFailed));
    assert_eq!(s.client.open_record(&echo[..10]), Err(Tls13Error::Truncated));
    assert_eq!(
        s.client.open_record(&[CONTENT_ALERT, 3, 3, 0, 0]),
        Err(Tls13Error::UnexpectedRecord)
    );
    to_client.seq = 3;
    let alert = to_client.seal(&[1, 0], CONTENT_ALERT, 0);
    assert_eq!(s.client.open_app_record(&alert), Err(Tls13Error::UnexpectedRecord));
}

#[test]
fn handshake_completes_with_aes_128() {
    run_handshake(CipherSuite::Aes128GcmSha256, 0x0804);
}

#[test]
fn handshake_completes_with_aes_256() {
    run_handshake(CipherSuite::Aes256GcmSha384, 0x0501);
}

#[test]
fn handshake_completes_with_chacha() {
    run_handshake(CipherSuite::ChaCha20Poly1305Sha256, 0x0806);
}

/// Runs a flight whose messages a test has changed.
fn flight_error(change: impl Fn(&mut Vec<Vec<u8>>)) -> Tls13Error {
    let mut s = setup(CipherSuite::Aes128GcmSha256);
    let mut messages = flight_messages(&mut s, 0x0804);
    change(&mut messages);
    let mut key = ServerKey::new(s.suite, &s.shts);
    let records = key.seal(&messages.concat(), CONTENT_HANDSHAKE, 0);
    let err = s.client.process_server_flight(&records).err().expect("refused");
    // No application keys.
    assert_eq!(s.client.seal_app_record(b"x"), Err(Tls13Error::UnexpectedRecord));
    assert_eq!(
        s.client.open_record(&[0x17, 3, 3, 0, 0]),
        Err(Tls13Error::UnexpectedRecord)
    );
    err
}

#[test]
fn tampered_flights_are_refused() {
    assert_eq!(
        flight_error(|m| {
            let last = m[3].len() - 1;
            m[3][last] ^= 1;
        }),
        Tls13Error::FinishedMismatch
    );
    // A changed certificate changes the transcript under the Finished.
    assert_eq!(flight_error(|m| m[1][60] ^= 1), Tls13Error::FinishedMismatch);
    assert_eq!(flight_error(|m| m[1][5] ^= 0x7f), Tls13Error::Truncated);
    assert_eq!(flight_error(|m| m[2][6] = 0xff), Tls13Error::BadHandshake);
    assert_eq!(flight_error(|m| m.truncate(3)), Tls13Error::Truncated);
}

/// A flight whose Finished fits whatever messages come before it.
fn refinished(messages: Vec<Vec<u8>>) -> Tls13Error {
    let mut s = setup(CipherSuite::Aes128GcmSha256);
    let h = s.suite.hash();
    let mut all = messages.concat();
    let th = digest(h, &[&s.transcript[..], &all[..]].concat());
    all.extend_from_slice(&message(HS_FINISHED, &hmac_hash(h, &finished_key(h, &s.shts), &th)));
    let mut key = ServerKey::new(s.suite, &s.shts);
    let records = key.seal(&all, CONTENT_HANDSHAKE, 0);
    s.client.process_server_flight(&records).err().expect("refused")
}

#[test]
fn flights_without_a_valid_signature_are_refused() {
    let mut s = setup(CipherSuite::Aes128GcmSha256);
    let m = flight_messages(&mut s, 0x0804);
    // No CertificateVerify; no Certificate; an empty chain; a wrong signature.
    assert_eq!(refinished(vec![m[0].clone(), m[1].clone()]), Tls13Error::BadHandshake);
    assert_eq!(refinished(vec![m[0].clone(), m[2].clone()]), Tls13Error::BadHandshake);
    let empty = message(HS_CERTIFICATE, &[0, 0, 0, 0]);
    assert_eq!(refinished(vec![empty, m[2].clone()]), Tls13Error::BadHandshake);
    let mut wrong = m[2].clone();
    wrong[20] ^= 1;
    assert_eq!(
        refinished(vec![m[0].clone(), m[1].clone(), wrong]),
        Tls13Error::CertVerifyRejected
    );
    let mut scheme = m[2].clone();
    scheme[5] = 0x03;
    scheme[4] = 0x04;
    assert_eq!(
        refinished(vec![m[0].clone(), m[1].clone(), scheme]),
        Tls13Error::BadScheme
    );
}

#[test]
fn flight_records_must_be_protected_handshake_records() {
    let mut s = setup(CipherSuite::Aes128GcmSha256);
    let mut key = ServerKey::new(s.suite, &s.shts);
    let appdata = key.seal(b"early", CONTENT_APPDATA, 0);
    assert_eq!(
        s.client.process_server_flight(&appdata).err(),
        Some(Tls13Error::UnexpectedRecord)
    );
    // The record used a sequence number, so the same one does not open again.
    assert_eq!(
        s.client.process_server_flight(&appdata).err(),
        Some(Tls13Error::DecryptFailed)
    );
    assert_eq!(
        s.client.process_server_flight(&[0x16, 3, 3, 0, 0]).err(),
        Some(Tls13Error::BadRecord)
    );
    assert_eq!(
        s.client.process_server_flight(&[0x17, 3, 3, 0]).err(),
        Some(Tls13Error::Truncated)
    );
}

#[test]
fn server_hello_errors_are_reported() {
    let share = [9u8; 32];
    let mut fresh = Tls13Client::default();
    assert_eq!(
        fresh.process_server_hello(&server_hello(0x1301, Some(&share))),
        Err(Tls13Error::BadHandshake)
    );
    assert_eq!(fresh.derive_handshake_keys(&[0u8; 32]), Err(Tls13Error::BadHandshake));
    assert_eq!(fresh.client_finished_record(), Err(Tls13Error::BadHandshake));

    let mut client = Tls13Client::new();
    client.set_client_hello(&chrome_hello(&StaticSecret::from([1u8; 32])));
    let good = server_hello(0x1302, Some(&share));
    assert_eq!(client.process_server_hello(&good[..4]), Err(Tls13Error::BadRecord));
    assert_eq!(client.process_server_hello(&good[..50]), Err(Tls13Error::Truncated));
    for len in 1u8..4 {
        let mut short = vec![CONTENT_HANDSHAKE, 3, 3, 0, len];
        short.extend_from_slice(&good[5..5 + len as usize]);
        assert_eq!(client.process_server_hello(&short), Err(Tls13Error::Truncated));
    }
    let mut other = good.clone();
    other[5] = 1;
    assert_eq!(client.process_server_hello(&other), Err(Tls13Error::BadHandshake));
    assert_eq!(
        client.process_server_hello(&server_hello(0x1304, Some(&share))),
        Err(Tls13Error::BadCipherSuite)
    );
    // Without a share the suite is negotiated all the same.
    assert_eq!(
        client.process_server_hello(&server_hello(0x1302, None)),
        Err(Tls13Error::NoKeyShare)
    );
    assert_eq!(client.derive_handshake_keys(&[1u8; 32]), Ok(()));
    assert_eq!(client.process_server_hello(&good), Ok(share));
}

#[test]
fn flight_steps_work_on_plain_values() {
    let mut f = Flight::new();
    assert!(!f.ready());
    assert_eq!(f.absorb(CONTENT_ALERT, &[1]), Err(Tls13Error::UnexpectedRecord));
    assert_eq!(f.absorb(CONTENT_HANDSHAKE, &[8, 0, 0]), Ok(()));
    assert!(!f.ready());
    assert_eq!(f.absorb(CONTENT_HANDSHAKE, &[1, 7, 20]), Ok(()));
    assert!(f.ready());
    assert_eq!(f.take_message(), Some(vec![8, 0, 0, 1, 7]));
    assert_eq!(f.pending, vec![20]);
    assert_eq!(f.take_message(), None);
    assert_eq!(f.handle(99, &[1, 2], &[], None), Ok(()));
    assert_eq!(
        f.handle(HS_FINISHED, &[1], &[], None),
        Err(Tls13Error::BadHandshake)
    );
    assert_eq!(
        f.handle(HS_FINISHED, &[1], &[], Some(vec![2])),
        Err(Tls13Error::FinishedMismatch)
    );
    assert!(!f.finished);
    assert_eq!(f.handle(HS_FINISHED, &[2], &[], Some(vec![2])), Ok(()));
    assert!(f.finished);
    assert_eq!(f.handle(HS_CERTIFICATE_VERIFY, &[8, 4, 0, 1, 0xaa], &[5], None), Ok(()));
    let v = f.verify.as_ref().unwrap();
    assert_eq!((v.scheme, v.sig.clone()), (0x0804, vec![0xaa]));
    assert_eq!(v.tbs.len(), 64 + 34 + 1);
    assert_eq!(&v.tbs[64..97], b"TLS 1.3, server CertificateVerify");
}

#[test]
fn tls13_error_texts_are_fixed() {
    assert_eq!(Tls13Error::Truncated.message(), "TLS record is truncated");
    assert_eq!(Tls13Error::UnexpectedRecord.message(), "unexpected record type");
}
