//! The REALITY handshake against an honest server.

use aes_gcm::aead::{Aead, KeyInit};
use aes_gcm::{Aes256Gcm, Key, Nonce};
use base64::Engine;
use shadevpn_native::handshake::{
    clock_field, derive_nonce, hkdf_expand, Direction, HandshakeError, HandshakeMaterial,
    HandshakeParams, HandshakeState, CLIENT_VERSION, HKDF_SALT, KEY_INFO, NONCE_PURPOSE_DATA,
    NONCE_PURPOSE_RESPONSE, SERVER_RESPONSE_MIN,
};
use shadevpn_native::reality;
use shadevpn_native::tls;
use x25519_dalek::{PublicKey, StaticSecret};

/// The sealed session id that a client put on the wire.
fn session_id_of(client: &HandshakeState) -> [u8; 32] {
    tls::parse_client_hello(client.client_hello())
        .expect("own hello")
        .session_id
        .try_into()
        .expect("32 bytes")
}

fn test_params() -> HandshakeParams {
    // Fixed test server static key (NOT a production secret).
    let server_secret = StaticSecret::from([7u8; 32]);
    let server_public = PublicKey::from(&server_secret);
    HandshakeParams {
        server_address: "127.0.0.1".into(),
        server_port: 443,
        sni: "cdn.example.com".into(),
        server_public_key: *server_public.as_bytes(),
        short_id: vec![0xab, 0xcd],
        fingerprint: Some("chrome".into()),
    }
}

fn b64(bytes: &[u8]) -> String {
    base64::engine::general_purpose::URL_SAFE_NO_PAD.encode(bytes)
}

#[test]
fn initiates_and_builds_tls_hello() {
    let state = HandshakeState::initiate(&test_params()).expect("initiate");
    let hello = state.client_hello();
    // A real TLS record: handshake content type, then a ClientHello
    // message large enough to carry random (32) + key_share (32).
    assert_eq!(hello[0], 0x16);
    assert_eq!(hello[5], 0x01);
    assert!(hello.len() >= 5 + 4 + 2 + 32 + 32);
    assert!(!state.is_completed());
}

#[test]
fn rejects_empty_short_id() {
    let mut p = test_params();
    p.short_id.clear();
    assert_eq!(
        HandshakeState::initiate(&p).err(),
        Some(HandshakeError::BadShortId)
    );
}

#[test]
fn rejects_invalid_server_key() {
    let mut p = test_params();
    p.server_public_key = [0u8; 32];
    assert_eq!(
        HandshakeState::initiate(&p).err(),
        Some(HandshakeError::BadServerKey)
    );
}

/// Simulate the honest server entirely from the wire hello bytes: unseal
/// the session id, issue the temp certificate, and derive the fresh ECDHE
/// record keys. Returns the response plus both server-side record keys
/// (recv = client->server, send = server->client) for cross-verification.
fn simulate_honest_server(
    hello_bytes: &[u8],
    server_secret: &StaticSecret,
) -> (Vec<u8>, [u8; 32], [u8; 32]) {
    let hello = tls::parse_client_hello(hello_bytes).expect("parse TLS hello");
    let shared = server_secret.diffie_hellman(&PublicKey::from(hello.ephemeral_public));
    let auth_key = reality::auth_key(shared.as_bytes(), &hello.random);
    let mut aad = hello_bytes.to_vec();
    let off = tls::SESSION_ID_OFFSET;
    aad[off..off + 32].fill(0);
    let sid: [u8; 32] = hello.session_id.clone().try_into().unwrap();
    let plain =
        reality::unseal_session_id(&auth_key, &hello.random, &aad, &sid).expect("unseal");
    assert_eq!(plain.client_version, CLIENT_VERSION);

    let server_eph = reality::ServerEphemeral::generate();
    let ecdhe = server_eph.shared_secret(&hello.ephemeral_public);
    let binding = reality::session_identity(&sid, &ecdhe);
    let keys = hkdf_expand(&HKDF_SALT, &binding, &KEY_INFO, 64);

    let mut response = Vec::new();
    response.extend_from_slice(&reality::temporary_certificate(&auth_key));
    response.extend_from_slice(&server_eph.public);
    let cipher = Aes256Gcm::new(Key::<Aes256Gcm>::from_slice(&keys[32..]));
    let sealed = cipher
        .encrypt(
            Nonce::from_slice(&derive_nonce(
                &sid,
                0,
                Direction::Server,
                &NONCE_PURPOSE_RESPONSE,
            )),
            b"shadevpn-server-ok".as_ref(),
        )
        .expect("server seals");
    response.extend_from_slice(&sealed);
    (
        response,
        keys[..32].try_into().unwrap(),
        keys[32..].try_into().unwrap(),
    )
}

fn completed_pair() -> (
    HandshakeState,
    [u8; 32], // server recv key (client->server)
    [u8; 32], // server send key (server->client)
) {
    let server_secret = StaticSecret::from([7u8; 32]);
    let mut params = test_params();
    params.server_public_key = *PublicKey::from(&server_secret).as_bytes();
    let mut client = HandshakeState::initiate(&params).expect("initiate");
    let (response, recv, send) = simulate_honest_server(client.client_hello(), &server_secret);
    client.complete(&response).expect("complete");
    (client, recv, send)
}

#[test]
fn records_fail_before_completion() {
    let state = HandshakeState::initiate(&test_params()).expect("initiate");
    assert!(state.seal_record(0, b"x").is_err());
    assert!(state.open_record(0, &[0u8; 16]).is_err());
    assert!(!state.is_completed());
}

#[test]
fn record_seal_open_roundtrip_across_parties() {
    let (client, server_recv, _server_send) = completed_pair();
    let plaintext = b"vless frame bytes";
    let sealed = client.seal_record(0, plaintext).expect("seal");
    assert_ne!(sealed, plaintext);
    // The server opens it with ITS recv key under the client nonce domain.
    let opened = Aes256Gcm::new(Key::<Aes256Gcm>::from_slice(&server_recv))
        .decrypt(
            Nonce::from_slice(&derive_nonce(
                &session_id_of(&client),
                0,
                Direction::Client,
                &NONCE_PURPOSE_DATA,
            )),
            sealed.as_ref(),
        )
        .expect("server opens client record");
    assert_eq!(opened, plaintext);
}

#[test]
fn record_nonce_differs_per_seq() {
    let (client, _recv, _send) = completed_pair();
    let pt = b"same plaintext";
    let s0 = client.seal_record(0, pt).unwrap();
    let s1 = client.seal_record(1, pt).unwrap();
    assert_ne!(s0, s1, "nonce reuse would make these identical");
}

#[test]
fn tampered_record_fails_to_open() {
    let (client, server_recv, _send) = completed_pair();
    let mut sealed = client.seal_record(0, b"hello").unwrap();
    let last = sealed.len() - 1;
    sealed[last] ^= 0x01;
    assert!(Aes256Gcm::new(Key::<Aes256Gcm>::from_slice(&server_recv))
        .decrypt(
            Nonce::from_slice(&derive_nonce(
                &session_id_of(&client),
                0,
                Direction::Client,
                &NONCE_PURPOSE_DATA,
            )),
            sealed.as_ref(),
        )
        .is_err());
}

#[test]
fn completes_against_honest_server_and_rejects_impostor() {
    let server_secret = StaticSecret::from([7u8; 32]);
    let mut params = test_params();
    params.server_public_key = *PublicKey::from(&server_secret).as_bytes();

    let mut client = HandshakeState::initiate(&params).expect("client initiate");
    let wire_hello = client.client_hello().to_vec();

    // Wire truth before any response: the sealed session id is inside the
    // legacy session id field, and the short id is nowhere in the clear.
    let hello = tls::parse_client_hello(&wire_hello).expect("parse TLS hello");
    assert_eq!(hello.sni.as_deref(), Some(params.sni.as_str()));
    assert_eq!(hello.session_id.len(), 32);
    assert!(
        !wire_hello.windows(2).any(|w| w == [0xabu8, 0xcd]),
        "short id must not appear in the clear"
    );

    let (server_response, _recv, _send) = simulate_honest_server(&wire_hello, &server_secret);
    assert!(client.complete(&server_response).is_ok());
    assert!(client.is_completed());

    // The session is single-use: a replayed response cannot re-complete.
    assert!(client.complete(&server_response).is_err());

    // Impostor: one flipped byte in the temp certificate (wrong key or
    // wrong HMAC) must be rejected.
    let mut bad_client = HandshakeState::initiate(&test_params()).unwrap();
    let mut forged = server_response.clone();
    forged[40] ^= 0xff;
    assert!(bad_client.complete(&forged).is_err());
    assert!(!bad_client.is_completed());
}

#[test]
fn rejects_certificate_from_a_different_session() {
    let server_secret = StaticSecret::from([7u8; 32]);
    let mut params = test_params();
    params.server_public_key = *PublicKey::from(&server_secret).as_bytes();
    let mut client = HandshakeState::initiate(&params).expect("initiate");

    // A cert issued under a DIFFERENT AuthKey (e.g. a replayed cert from
    // another session, or a cert for a different client) must fail.
    let other_auth_key = [0x5au8; 32];
    let mut response = Vec::new();
    response.extend_from_slice(&reality::temporary_certificate(&other_auth_key));
    response.extend_from_slice(&[0u8; 32]); // server share
    response.extend_from_slice(&[0u8; 16]); // confirm placeholder
    assert!(client.complete(&response).is_err());
    assert!(!client.is_completed());
}

#[test]
fn rejects_short_id_over_eight_bytes() {
    let mut p = test_params();
    p.short_id = vec![0u8; 9];
    assert_eq!(
        HandshakeState::initiate(&p).err(),
        Some(HandshakeError::BadShortId)
    );
}

#[test]
fn material_parses_base64_key_and_hex_short_id() {
    let server_secret = StaticSecret::from([9u8; 32]);
    let pk_b64 = b64(PublicKey::from(&server_secret).as_bytes());
    let material = HandshakeMaterial {
        server_address: "10.0.0.1".into(),
        server_port: 8443,
        sni: "x.example.com".into(),
        server_public_key_b64: pk_b64,
        short_id_hex: "0a1b".into(),
    };
    let params = material.into_params().expect("material");
    assert_eq!(params.server_port, 8443);
    assert_eq!(params.short_id, vec![0x0a, 0x1b]);
}

#[test]
fn material_rejects_bad_key_length() {
    let material = HandshakeMaterial {
        server_address: "10.0.0.1".into(),
        server_port: 8443,
        sni: "x.example.com".into(),
        server_public_key_b64: b64(b"tooshort"),
        short_id_hex: "0a1b".into(),
    };
    assert_eq!(
        material.into_params().unwrap_err(),
        HandshakeError::BadServerKey
    );
}

#[test]
fn no_secrets_in_error_reasons() {
    for e in [
        HandshakeError::BadServerKey,
        HandshakeError::BadShortId,
        HandshakeError::SessionAuthRejected,
        HandshakeError::SealFailed,
        HandshakeError::EphemeralKeyFailed,
    ] {
        assert!(!e.reason().contains("secret"));
        assert!(!e.reason().contains("key material"));
    }
}

#[test]
fn given_secret_and_clock_make_the_hello_deterministic() {
    let params = test_params();
    let a = HandshakeState::initiate_with(&params, [3u8; 32], 77).unwrap();
    let b = HandshakeState::initiate_with(&params, [3u8; 32], 77).unwrap();
    assert_eq!(a.client_hello(), b.client_hello());
    let c = HandshakeState::initiate_with(&params, [3u8; 32], 78).unwrap();
    assert_ne!(a.client_hello(), c.client_hello());
    // Fresh secrets differ.
    let d = HandshakeState::initiate(&params).unwrap();
    let e = HandshakeState::initiate(&params).unwrap();
    assert_ne!(d.client_hello(), e.client_hello());

    // The server holding the static secret reads the session out of the hello.
    let hello = tls::parse_client_hello(a.client_hello()).unwrap();
    let shared = StaticSecret::from([7u8; 32]).diffie_hellman(&PublicKey::from(hello.ephemeral_public));
    let mut random = [0u8; 32];
    random.copy_from_slice(&hkdf_expand(
        &HKDF_SALT,
        shared.as_bytes(),
        b"shadevpn-hello-random-v1",
        32,
    ));
    assert_eq!(hello.random, random);
    let key = reality::auth_key(shared.as_bytes(), &hello.random);
    let mut aad = a.client_hello().to_vec();
    aad[44..76].fill(0);
    let sid: [u8; 32] = hello.session_id.try_into().unwrap();
    let plain = reality::unseal_session_id(&key, &hello.random, &aad, &sid).unwrap();
    assert_eq!(plain.client_version, CLIENT_VERSION);
    assert_eq!(plain.unix_time, 77);
    assert_eq!(plain.short_id, [0xab, 0xcd, 0, 0, 0, 0, 0, 0]);
}

#[test]
fn the_clock_reaches_the_session_id() {
    let before = std::time::SystemTime::now()
        .duration_since(std::time::UNIX_EPOCH)
        .unwrap()
        .as_secs() as u32;
    let client = HandshakeState::initiate(&test_params()).unwrap();
    let hello = tls::parse_client_hello(client.client_hello()).unwrap();
    let shared = StaticSecret::from([7u8; 32]).diffie_hellman(&PublicKey::from(hello.ephemeral_public));
    let key = reality::auth_key(shared.as_bytes(), &hello.random);
    let mut aad = client.client_hello().to_vec();
    aad[44..76].fill(0);
    let sid: [u8; 32] = hello.session_id.try_into().unwrap();
    let plain = reality::unseal_session_id(&key, &hello.random, &aad, &sid).unwrap();
    assert!(plain.unix_time.wrapping_sub(before) < 60);
    assert_eq!(clock_field(None), 0);
    assert_eq!(clock_field(Some(0x1_0000_0005)), 5);
}

#[test]
fn a_low_order_server_key_is_refused() {
    // The point of order one gives the all-zero shared secret.
    let mut params = test_params();
    params.server_public_key = [0u8; 32];
    params.server_public_key[0] = 1;
    assert_eq!(
        HandshakeState::initiate(&params).err(),
        Some(HandshakeError::EphemeralKeyFailed)
    );
}

#[test]
fn keys_are_fixed_only_when_the_confirmation_opens() {
    let server_secret = StaticSecret::from([7u8; 32]);
    let mut client = HandshakeState::initiate(&test_params()).unwrap();
    let (response, _recv, _send) = simulate_honest_server(client.client_hello(), &server_secret);
    let mut tampered = response.clone();
    let last = tampered.len() - 1;
    tampered[last] ^= 1;
    assert_eq!(
        client.complete(&tampered),
        Err(HandshakeError::SessionAuthRejected)
    );
    assert!(!client.is_completed());
    assert_eq!(
        client.seal_record(0, b"x"),
        Err(HandshakeError::SessionAuthRejected)
    );
    assert_eq!(
        client.complete(&response[..SERVER_RESPONSE_MIN - 1]),
        Err(HandshakeError::SessionAuthRejected)
    );
    assert_eq!(client.complete(&response), Ok(()));
    assert!(client.is_completed());
}

#[test]
fn server_records_open_on_the_client() {
    let (client, _recv, send) = completed_pair();
    let nonce = derive_nonce(&session_id_of(&client), 5, Direction::Server, &NONCE_PURPOSE_DATA);
    let sealed = Aes256Gcm::new(Key::<Aes256Gcm>::from_slice(&send))
        .encrypt(Nonce::from_slice(&nonce), b"from the server".as_ref())
        .unwrap();
    assert_eq!(client.open_record(5, &sealed).unwrap(), b"from the server".to_vec());
    assert_eq!(
        client.open_record(6, &sealed),
        Err(HandshakeError::SessionAuthRejected)
    );
    let twin = client.duplicate();
    assert_eq!(twin.client_hello(), client.client_hello());
    assert_eq!(twin.open_record(5, &sealed).unwrap(), b"from the server".to_vec());
}

#[test]
fn nonces_separate_direction_purpose_sequence_and_session() {
    let sid = [1u8; 32];
    let base = derive_nonce(&sid, 0, Direction::Client, &NONCE_PURPOSE_DATA);
    for other in [
        derive_nonce(&sid, 0, Direction::Server, &NONCE_PURPOSE_DATA),
        derive_nonce(&sid, 0, Direction::Client, &NONCE_PURPOSE_RESPONSE),
        derive_nonce(&sid, 1, Direction::Client, &NONCE_PURPOSE_DATA),
        derive_nonce(&[2u8; 32], 0, Direction::Client, &NONCE_PURPOSE_DATA),
    ] {
        assert_ne!(base, other);
    }
    let mut input = b"shadevpn-nonce-client-v1shadevpn-purpose-data-v1".to_vec();
    input.extend_from_slice(&sid);
    input.extend_from_slice(&[0u8; 8]);
    let hash = <sha2::Sha256 as sha2::Digest>::digest(&input);
    assert_eq!(&base[..], &hash[..12]);
}

#[test]
fn hkdf_matches_the_published_vector() {
    // RFC 5869, test case 1.
    let salt: Vec<u8> = (0u8..13).collect();
    let info: Vec<u8> = (0xf0u8..0xfa).collect();
    assert_eq!(
        hex::encode(hkdf_expand(&salt, &[0x0b; 22], &info, 42)),
        "3cb25f25faacd57a90434f64d0362f2a2d2d0a90cf1a5a4c5db02d56ecc4c5bf34007208d5b887185865"
    );
}

fn material(key: &str, short_id: &str) -> HandshakeMaterial {
    HandshakeMaterial {
        server_address: "10.0.0.1".into(),
        server_port: 8443,
        sni: "x.example.com".into(),
        server_public_key_b64: key.into(),
        short_id_hex: short_id.into(),
    }
}

#[test]
fn material_accepts_both_base64_alphabets() {
    let key = [0xfbu8; 32];
    let url = base64::engine::general_purpose::URL_SAFE_NO_PAD.encode(key);
    let standard = base64::engine::general_purpose::STANDARD.encode(key);
    assert_ne!(url, standard);
    for text in [url, standard] {
        let params = material(&text, "FfA0").into_params().unwrap();
        assert_eq!(params.server_public_key, key);
        assert_eq!(params.short_id, vec![0xff, 0xa0]);
        assert_eq!(params.server_address, "10.0.0.1");
        assert_eq!(params.sni, "x.example.com");
        assert!(params.fingerprint.is_none());
    }
}

#[test]
fn material_errors_are_reported() {
    let key = b64(&[9u8; 32]);
    for short_id in ["", "0", "0g", "zz"] {
        assert_eq!(
            material(&key, short_id).into_params().unwrap_err(),
            HandshakeError::BadShortId,
            "{short_id}"
        );
    }
    assert_eq!(
        material("!!!", "00").into_params().unwrap_err(),
        HandshakeError::BadServerKey
    );
    assert_eq!(
        material(&key, "00").into_params_with(None).unwrap_err(),
        HandshakeError::BadServerKey
    );
    assert_eq!(
        material(&key, "00").into_params_with(Some(vec![1; 31])).unwrap_err(),
        HandshakeError::BadServerKey
    );
    let given = material("", "00").into_params_with(Some(vec![1; 32])).unwrap();
    assert_eq!(given.server_public_key, [1u8; 32]);
}

#[test]
fn every_host_that_fits_is_offered_and_longer_ones_are_refused() {
    let mut params = test_params();
    // The longest host leaves a record of 65535 bytes behind its header.
    let most = 0xFFFF - 301 - 32;
    for len in [0usize, 137, 138, 139, 140, most] {
        params.sni = "a".repeat(len);
        let state = HandshakeState::initiate(&params).unwrap();
        let hello = tls::parse_client_hello(state.client_hello()).unwrap();
        assert_eq!(hello.sni.as_deref(), Some(params.sni.as_str()));
    }
    params.sni = "a".repeat(most + 1);
    assert_eq!(
        HandshakeState::initiate(&params).err(),
        Some(HandshakeError::SealFailed)
    );
    params.short_id = Vec::new();
    assert_eq!(
        HandshakeState::initiate(&params).err(),
        Some(HandshakeError::BadShortId)
    );
}
