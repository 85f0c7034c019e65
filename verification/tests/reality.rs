//! REALITY session ids, certificates and key shares.

use hmac::Mac;
use rand_core::OsRng;
use sha2::Digest;
use shadevpn_native::reality::{
    auth_key, seal_session_id, session_identity, temporary_certificate,
    temporary_certificate_with, unseal_session_id, verify_temporary_certificate, RealityError,
    ServerEphemeral, REALITY_INFO, SID_PLAIN_LEN,
};
use shadevpn_native::tls::{build_client_hello, SESSION_ID_OFFSET};
use x25519_dalek::{PublicKey, StaticSecret};

fn test_hello_and_random() -> (Vec<u8>, [u8; 32], [u8; 32]) {
    let mut random = [0u8; 32];
    for (i, b) in random.iter_mut().enumerate() {
        *b = (i as u8) ^ 0x3c;
    }
    let mut share = [0u8; 32];
    for (i, b) in share.iter_mut().enumerate() {
        *b = (i as u8) ^ 0x77;
    }
    let hello =
        build_client_hello(Some("x.example.com"), &share, &random, &[0u8; 32]).expect("build");
    (hello, random, share)
}

fn zero_sid(hello: &[u8]) -> Vec<u8> {
    let mut out = hello.to_vec();
    let off = SESSION_ID_OFFSET;
    out[off..off + 32].fill(0);
    out
}

#[test]
fn session_id_round_trips_through_seal_and_unseal() {
    let (hello, random, _) = test_hello_and_random();
    let hello_zeroed = zero_sid(&hello);
    let key = [9u8; 32];
    let sealed = seal_session_id(
        &key,
        &random,
        &hello_zeroed,
        [1, 2, 3],
        1_700_000_000,
        &[0xab, 0xcd],
    )
    .expect("seal");
    let opened = unseal_session_id(&key, &random, &hello_zeroed, &sealed).expect("unseal");
    assert_eq!(opened.client_version, [1, 2, 3]);
    assert_eq!(opened.unix_time, 1_700_000_000);
    assert_eq!(opened.short_id[..2], [0xab, 0xcd]);
    assert_eq!(opened.short_id[2..], [0u8; 6]);
}

#[test]
fn sealed_session_id_is_random_looking() {
    let (hello, random, _) = test_hello_and_random();
    let key = [9u8; 32];
    let sealed = seal_session_id(
        &key,
        &random,
        &zero_sid(&hello),
        [1, 2, 3],
        1_700_000_000,
        &[0xab, 0xcd],
    )
    .expect("seal");
    // The sealed session id must not leak the short id or the timestamp
    // prefix in the clear.
    assert!(!sealed.windows(2).any(|w| w == [0xab, 0xcd]));
    assert_ne!(&sealed[..4], &[1u8, 2, 3, 0]);
}

#[test]
fn tampered_session_id_is_rejected() {
    let (hello, random, _) = test_hello_and_random();
    let key = [9u8; 32];
    let mut sealed = seal_session_id(
        &key,
        &random,
        &zero_sid(&hello),
        [1, 2, 3],
        1_700_000_000,
        &[0xab],
    )
    .unwrap();
    sealed[0] ^= 0xff;
    assert_eq!(
        unseal_session_id(&key, &random, &zero_sid(&hello), &sealed).err(),
        Some(RealityError::SessionIdRejected)
    );
}

#[test]
fn wrong_aad_is_rejected() {
    let (hello, random, _) = test_hello_and_random();
    let key = [9u8; 32];
    let sealed =
        seal_session_id(&key, &random, &zero_sid(&hello), [1, 2, 3], 1, &[0xab]).unwrap();
    let mut other = zero_sid(&hello);
    other[5] ^= 0x01;
    assert_eq!(
        unseal_session_id(&key, &random, &other, &sealed).err(),
        Some(RealityError::SessionIdRejected)
    );
}

#[test]
fn temp_certificate_round_trip_and_rejection() {
    let key = [4u8; 32];
    let cert = temporary_certificate(&key);
    assert_eq!(cert.len(), 96);
    assert!(verify_temporary_certificate(&key, &cert).is_ok());
    let wrong = [5u8; 32];
    assert!(verify_temporary_certificate(&wrong, &cert).is_err());
    let mut flipped = cert;
    flipped[95] ^= 0x01;
    assert!(verify_temporary_certificate(&key, &flipped).is_err());
}

#[test]
fn server_ephemeral_shared_secret_matches_client_side_computation() {
    let server = ServerEphemeral::generate();
    let client_secret = StaticSecret::random_from_rng(OsRng);
    let client_public = PublicKey::from(&client_secret);
    let from_server = server.shared_secret(client_public.as_bytes());
    let from_client = *client_secret
        .diffie_hellman(&PublicKey::from(server.public))
        .as_bytes();
    assert_eq!(from_server, from_client);
}

#[test]
fn reality_error_reasons_leak_no_material() {
    for e in [
        RealityError::ShortIdTooLong,
        RealityError::SessionIdRejected,
        RealityError::CertRejected,
        RealityError::Layout,
    ] {
        assert!(!e.reason().contains("secret"));
        assert!(!e.reason().contains("AuthKey"));
    }
}

#[test]
fn auth_key_is_hkdf_over_the_salted_secret() {
    let mut random = [0u8; 32];
    for (i, b) in random.iter_mut().enumerate() {
        *b = i as u8;
    }
    assert_eq!(&REALITY_INFO, b"REALITY");
    let mut want = [0u8; 32];
    hkdf::Hkdf::<sha2::Sha256>::new(Some(&random[..20]), &[3u8; 32])
        .expand(b"REALITY", &mut want)
        .unwrap();
    assert_eq!(auth_key(&[3u8; 32], &random), want);
    // Only the first 20 bytes of the random salt the key.
    let mut other = random;
    other[31] ^= 1;
    assert_eq!(auth_key(&[3u8; 32], &other), want);
    other[0] ^= 1;
    assert_ne!(auth_key(&[3u8; 32], &other), want);
}

#[test]
fn session_id_layout_errors_are_reported() {
    let (hello, random, _) = test_hello_and_random();
    let key = [9u8; 32];
    assert_eq!(SID_PLAIN_LEN, 16);
    assert_eq!(
        seal_session_id(&key, &random, &hello, [0; 3], 0, &[0u8; 9]),
        Err(RealityError::ShortIdTooLong)
    );
    assert_eq!(
        seal_session_id(&key, &random, &hello[..75], [0; 3], 0, &[0u8; 8]),
        Err(RealityError::Layout)
    );
    assert!(seal_session_id(&key, &random, &hello[..76], [0; 3], 0, &[0u8; 8]).is_ok());
    assert_eq!(
        unseal_session_id(&key, &random, &hello[..75], &[0u8; 32]),
        Err(RealityError::Layout)
    );
    assert_eq!(
        verify_temporary_certificate(&key, &[0u8; 95]),
        Err(RealityError::CertRejected)
    );
}

#[test]
fn session_id_round_trips_for_every_short_id_length() {
    let (hello, random, _) = test_hello_and_random();
    let aad = zero_sid(&hello);
    let key = [9u8; 32];
    for n in 0..=8usize {
        let id: Vec<u8> = (0..n).map(|i| 0xf0 | i as u8).collect();
        let sealed = seal_session_id(&key, &random, &aad, [9, 8, 7], u32::MAX, &id).unwrap();
        let plain = unseal_session_id(&key, &random, &aad, &sealed).unwrap();
        assert_eq!(plain.client_version, [9, 8, 7]);
        assert_eq!(plain.unix_time, u32::MAX);
        assert_eq!(&plain.short_id[..n], &id[..]);
        assert!(plain.short_id[n..].iter().all(|&b| b == 0));
    }
}

#[test]
fn certificates_are_the_key_and_its_mac() {
    let cert = temporary_certificate_with(&[4u8; 32], &[7u8; 32]);
    let public = PublicKey::from(&StaticSecret::from([7u8; 32]));
    assert_eq!(&cert[..32], public.as_bytes());
    let mut mac = <hmac::Hmac<sha2::Sha512> as Mac>::new_from_slice(&[4u8; 32]).unwrap();
    mac.update(public.as_bytes());
    assert_eq!(&cert[32..], mac.finalize().into_bytes().as_slice());
    assert_eq!(verify_temporary_certificate(&[4u8; 32], &cert), Ok(()));
    // Fresh certificates differ.
    assert_ne!(temporary_certificate(&[4u8; 32]), temporary_certificate(&[4u8; 32]));
}

#[test]
fn key_shares_are_fresh_and_agree() {
    let a = ServerEphemeral::from_secret([1u8; 32]);
    let b = ServerEphemeral::from_secret([2u8; 32]);
    assert_eq!(&a.public, PublicKey::from(&StaticSecret::from([1u8; 32])).as_bytes());
    let unhex = |s: &str| -> [u8; 32] { hex::decode(s).unwrap().try_into().unwrap() };
    assert_eq!(
        a.public,
        unhex("a4e09292b651c278b9772c569f5fa9bb13d906b46ab68c9df9dc2b4409f8a209")
    );
    assert_eq!(
        a.shared_secret(&b.public),
        unhex("2ed76ab549b1e73c031eb49c9448f0798aea81b698279a0c3dc3e49fbfc4b953")
    );
    assert_eq!(a.shared_secret(&b.public), b.shared_secret(&a.public));
    assert_eq!(a.public_key(), a.public);
    assert_ne!(a.shared_secret(&b.public), b.public);
    assert_ne!(ServerEphemeral::generate().public, ServerEphemeral::generate().public);
}

#[test]
fn session_identity_is_a_hash_over_both() {
    let mut hasher = sha2::Sha256::new();
    hasher.update([1u8; 32]);
    hasher.update([2u8; 32]);
    let want: [u8; 32] = hasher.finalize().into();
    assert_eq!(session_identity(&[1u8; 32], &[2u8; 32]), want);
    assert_ne!(session_identity(&[2u8; 32], &[1u8; 32]), want);
}
