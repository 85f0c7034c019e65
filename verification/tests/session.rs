//! Profiles and the session they lead to.

use aes_gcm::aead::{Aead, KeyInit};
use shadevpn_native::handshake::{
    derive_nonce, hkdf_expand, Direction, HandshakeError, HandshakeParams, HandshakeState,
    HKDF_SALT, KEY_INFO, NONCE_PURPOSE_DATA, NONCE_PURPOSE_RESPONSE,
};
use shadevpn_native::pump::{PumpAction, PumpConfig};
use shadevpn_native::reality;
use shadevpn_native::session::{
    eq_ignore_ascii_case, prepare_connect, response_text, ConnectError, LaneError, RealityProfile,
    Session, SessionError, PROBE,
};
use shadevpn_native::tls;
use x25519_dalek::{PublicKey, StaticSecret};

fn aead(key: &[u8]) -> aes_gcm::Aes256Gcm {
    aes_gcm::Aes256Gcm::new_from_slice(key).unwrap()
}

/// A started client, the honest response, and the server's keys: client records,
/// server records, session id.
fn started() -> (HandshakeState, Vec<u8>, Vec<u8>, Vec<u8>, [u8; 32]) {
    let server = StaticSecret::from([7u8; 32]);
    let params = HandshakeParams {
        server_address: "127.0.0.1".into(),
        server_port: 443,
        sni: "tunnel.example.com".into(),
        server_public_key: *PublicKey::from(&server).as_bytes(),
        short_id: vec![1],
        fingerprint: None,
    };
    let client = HandshakeState::initiate(&params).unwrap();
    let hello = tls::parse_client_hello(client.client_hello()).unwrap();
    let shared = server.diffie_hellman(&PublicKey::from(hello.ephemeral_public));
    let auth = reality::auth_key(shared.as_bytes(), &hello.random);
    let sid: [u8; 32] = hello.session_id.try_into().unwrap();
    let eph = reality::ServerEphemeral::generate();
    let binding = reality::session_identity(&sid, &eph.shared_secret(&hello.ephemeral_public));
    let keys = hkdf_expand(&HKDF_SALT, &binding, &KEY_INFO, 64);
    let mut response = reality::temporary_certificate(&auth).to_vec();
    response.extend_from_slice(&eph.public);
    let nonce = derive_nonce(&sid, 0, Direction::Server, &NONCE_PURPOSE_RESPONSE);
    response.extend_from_slice(&aead(&keys[32..]).encrypt(&nonce.into(), b"ok".as_ref()).unwrap());
    (client, response, keys[..32].to_vec(), keys[32..].to_vec(), sid)
}


fn profile() -> RealityProfile {
    RealityProfile {
        server_address: "10.0.0.1".into(),
        server_port: 443,
        security: "Reality".into(),
        network: "tcp".into(),
        sni: Some("x.example.com".into()),
        public_key_present: true,
        short_id_present: true,
        public_key: Some("AQEBAQEBAQEBAQEBAQEBAQEBAQEBAQEBAQEBAQEBAQE".into()),
        short_id: Some("ab".into()),
    }
}

#[test]
fn session_state_initializes_lazily() {
    let s = Session::new();
    assert!(!s.has_handshake());
    assert!(!s.pump().is_running());
    assert_eq!(s.next_out_seq(), 0);
    assert!(!s.has_socket());
}

#[test]
fn lanes_are_checked_in_order() {
    assert_eq!(profile().check_lane(), Ok(()));
    for network in ["tcp", "ws", "xhttp"] {
        let mut p = profile();
        p.network = network.into();
        assert_eq!(p.check_lane(), Ok(()));
    }
    let mut p = profile();
    p.public_key_present = false;
    assert_eq!(p.check_lane(), Err(LaneError::KeysRequired));
    p.sni = Some(String::new());
    assert_eq!(p.check_lane(), Err(LaneError::SniRequired));
    p.sni = None;
    assert_eq!(p.check_lane(), Err(LaneError::SniRequired));
    p.network = "TCP".into();
    assert_eq!(p.check_lane(), Err(LaneError::UnsupportedNetwork));
    p.security = "tls".into();
    assert_eq!(p.check_lane(), Err(LaneError::NotReality));
    assert_eq!(LaneError::NotReality.reason(), "only Reality profiles are accepted");
}

#[test]
fn profiles_are_validated() {
    assert_eq!(profile().validate(), (true, "Reality profile parsed"));
    let mut p = profile();
    p.network = "quic".into();
    assert_eq!(p.validate(), (true, "Reality profile parsed"));
    p.short_id_present = false;
    assert_eq!(p.validate(), (false, "Reality profile parsed"));
    p.security = "none".into();
    assert_eq!(p.validate(), (false, "security must be Reality"));
}

#[test]
fn security_ignores_ascii_case_only() {
    assert!(eq_ignore_ascii_case("REALITY", "reality"));
    assert!(eq_ignore_ascii_case("", ""));
    assert!(!eq_ignore_ascii_case("reality ", "reality"));
    assert!(!eq_ignore_ascii_case("rea1ity", "reality"));
    assert!(!eq_ignore_ascii_case("@", "`"));
}

#[test]
fn connections_are_prepared() {
    let params = prepare_connect(profile()).unwrap();
    assert_eq!(params.server_public_key, [1u8; 32]);
    assert_eq!(params.short_id, vec![0xab]);
    assert_eq!(params.sni, "x.example.com");
    let mut p = profile();
    p.sni = None;
    p.short_id = None;
    assert_eq!(
        prepare_connect(p).unwrap_err(),
        ConnectError::Material(HandshakeError::BadShortId)
    );
    let mut p = profile();
    p.public_key = None;
    assert_eq!(
        prepare_connect(p).unwrap_err(),
        ConnectError::Material(HandshakeError::BadServerKey)
    );
    let mut p = profile();
    p.public_key_present = false;
    let e = prepare_connect(p).unwrap_err();
    assert_eq!(e, ConnectError::KeysMissing);
    assert_eq!(e.reason(), "publicKey and shortId are required");
}

#[test]
fn a_session_runs_from_connect_to_pump() {
    let (client, response, client_key, server_key, sid) = started();
    let mut s = Session::new();
    assert_eq!(s.seal_probe(), Err(SessionError::NotCompleted));
    assert_eq!(s.complete_text("AAAA"), Err(SessionError::NoHandshake));
    s.connected(client);
    assert!(s.has_handshake() && s.has_socket());
    assert_eq!(s.seal_probe(), Err(SessionError::NotCompleted));
    assert_eq!(s.start_pump().err(), Some(SessionError::NotCompleted));
    let text = response_text(&response);
    assert_eq!(s.complete_text(&text), Ok(()));

    // The probe, mirrored by the server.
    let sealed = s.seal_probe().unwrap();
    let nonce = derive_nonce(&sid, 0, Direction::Client, &NONCE_PURPOSE_DATA);
    let opened = aead(&client_key).decrypt(&nonce.into(), sealed.as_ref()).unwrap();
    assert_eq!(opened, b"shadevpn-dataplane-probe".to_vec());
    assert_eq!(&PROBE, b"shadevpn-dataplane-probe");
    assert_eq!((s.next_out_seq(), s.next_in_seq()), (1, 0));
    let nonce = derive_nonce(&sid, 0, Direction::Server, &NONCE_PURPOSE_DATA);
    let wrong = aead(&server_key).encrypt(&nonce.into(), b"other".as_ref()).unwrap();
    assert_eq!(s.check_probe(&wrong), Err(SessionError::ProbeMismatch));
    assert_eq!(
        s.check_probe(&[0u8; 20]),
        Err(SessionError::Handshake(HandshakeError::SessionAuthRejected))
    );
    let echo = aead(&server_key).encrypt(&nonce.into(), opened.as_ref()).unwrap();
    assert_eq!(s.check_probe(&echo), Ok(()));
    assert_eq!((s.next_out_seq(), s.next_in_seq()), (1, 1));

    // The pump continues behind the probe.
    let handle = s.start_pump().ok().expect("start");
    assert!(s.pump().is_running());
    assert_eq!(s.start_pump().err(), Some(SessionError::PumpRunning));
    assert!(handle.is_completed());

    s.teardown();
    assert!(!s.has_handshake() && !s.has_socket());
    assert_eq!((s.next_out_seq(), s.next_in_seq()), (0, 0));
    assert!(s.pump().stopping());
}

#[test]
fn a_rejected_response_tears_the_session_down() {
    let (client, mut response, _, _, _) = started();
    let mut s = Session::new();
    s.connected(client);
    response[40] ^= 1;
    assert_eq!(
        s.complete(Some(response)),
        Err(SessionError::Handshake(HandshakeError::SessionAuthRejected))
    );
    assert!(!s.has_handshake() && !s.has_socket());
    assert_eq!(s.seal_probe(), Err(SessionError::NotCompleted));
}

#[test]
fn completion_is_single_use() {
    let (client, response, _, _, _) = started();
    let mut s = Session::new();
    s.connected(client);
    assert_eq!(s.complete(Some(response.clone())), Ok(()));
    assert!(s.complete(Some(response)).is_err());
    assert!(!s.has_handshake());
}

#[test]
fn response_text_is_standard_base64() {
    assert_eq!(response_text(&[0xfb, 0xff, 0x00, 0x01]), "+/8AAQ==");
    assert_eq!(SessionError::BadBase64.reason(), "response is not valid base64");
}

#[test]
fn probes_and_pump_records_use_increasing_sequences() {
    let (client, response, client_key, _, sid) = started();
    let mut s = Session::new();
    s.connected(client);
    s.complete(Some(response)).unwrap();
    let mut records = Vec::new();
    for _ in 0..2 {
        records.push((PROBE.to_vec(), s.seal_probe().unwrap()));
    }
    let handle = s.start_pump().ok().expect("start");
    let config = PumpConfig { block_ipv6: true };
    for packet in [vec![0x45, 1], vec![0x60, 2], vec![0x45, 3]] {
        if let PumpAction::Send(sealed) = s.pump_mut().outbound_packet(config, &handle, &packet) {
            s.pump_mut().outbound_sent(sealed.len(), true);
            records.push((packet, sealed));
        }
    }
    // A probe beside the running pump, a record that cannot be sent, and a second
    // run of the pump all go on behind the records before them.
    records.push((PROBE.to_vec(), s.seal_probe().unwrap()));
    let lost = vec![0x45, 9];
    match s.pump_mut().outbound_packet(config, &handle, &lost) {
        PumpAction::Send(sealed) => {
            s.pump_mut().outbound_sent(sealed.len(), false);
            records.push((lost, sealed));
        }
        _ => panic!("must send"),
    }
    s.pump_mut().launch();
    s.pump_mut().half_finished();
    s.pump_mut().half_finished();
    records.push((PROBE.to_vec(), s.seal_probe().unwrap()));
    let handle = s.start_pump().ok().expect("second run");
    match s.pump_mut().outbound_packet(config, &handle, &[0x45, 10]) {
        PumpAction::Send(sealed) => records.push((vec![0x45, 10], sealed)),
        _ => panic!("must send"),
    }
    assert_eq!(records.len(), 8);
    assert_eq!(s.next_out_seq(), 8);
    for (seq, (plain, sealed)) in records.iter().enumerate() {
        let nonce = derive_nonce(&sid, seq as u64, Direction::Client, &NONCE_PURPOSE_DATA);
        let opened = aead(&client_key).decrypt(&nonce.into(), sealed.as_ref()).unwrap();
        assert_eq!(&opened, plain);
    }
}

#[test]
fn a_response_that_is_not_base64_tears_the_session_down() {
    let (client, response, _, _, _) = started();
    let mut s = Session::new();
    s.connected(client);
    assert_eq!(s.complete_text("not base64!"), Err(SessionError::BadBase64));
    assert!(!s.has_handshake() && !s.has_socket());
    assert_eq!((s.next_out_seq(), s.next_in_seq()), (0, 0));
    assert!(s.pump().stopping());
    assert_eq!(
        s.complete_text(&response_text(&response)),
        Err(SessionError::NoHandshake)
    );
}

#[test]
fn a_mirrored_probe_beside_the_pump_uses_its_sequence() {
    let (client, response, _, server_key, sid) = started();
    let mut s = Session::new();
    s.connected(client);
    s.complete(Some(response)).unwrap();
    let handle = s.start_pump().ok().expect("start");
    let seal = |seq: u64, m: &[u8]| {
        let nonce = derive_nonce(&sid, seq, Direction::Server, &NONCE_PURPOSE_DATA);
        aead(&server_key).encrypt(&nonce.into(), m).unwrap()
    };
    assert!(matches!(
        s.pump_mut().inbound_frame(&handle, &seal(0, b"packet")),
        PumpAction::Deliver(_)
    ));
    assert_eq!(s.check_probe(&seal(1, &PROBE)), Ok(()));
    assert_eq!(s.next_in_seq(), 2);
    assert!(matches!(
        s.pump_mut().inbound_frame(&handle, &seal(2, b"packet")),
        PumpAction::Deliver(_)
    ));
    // A new connection starts over on the session's own counters.
    s.teardown();
    assert_eq!((s.next_out_seq(), s.next_in_seq()), (0, 0));
}
