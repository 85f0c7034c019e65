//! The decisions of the tunnel pump.

use aes_gcm::aead::{Aead, KeyInit};
use shadevpn_native::handshake::{
    derive_nonce, hkdf_expand, Direction, HandshakeParams, HandshakeState, HKDF_SALT, KEY_INFO,
    NONCE_PURPOSE_DATA, NONCE_PURPOSE_RESPONSE,
};
use shadevpn_native::pump::{ip_version, PumpAction, PumpConfig, PumpError, PumpStats, TunnelPump};
use shadevpn_native::reality;
use shadevpn_native::tls;
use x25519_dalek::{PublicKey, StaticSecret};

fn aead(key: &[u8]) -> aes_gcm::Aes256Gcm {
    aes_gcm::Aes256Gcm::new_from_slice(key).unwrap()
}

/// A completed client and the server's keys: client records, server records,
/// session id.
fn completed() -> (HandshakeState, Vec<u8>, Vec<u8>, [u8; 32]) {
    let server = StaticSecret::from([7u8; 32]);
    let params = HandshakeParams {
        server_address: "127.0.0.1".into(),
        server_port: 443,
        sni: "tunnel.example.com".into(),
        server_public_key: *PublicKey::from(&server).as_bytes(),
        short_id: vec![1],
        fingerprint: None,
    };
    let mut client = HandshakeState::initiate(&params).unwrap();
    let hello = tls::parse_client_hello(client.client_hello()).unwrap();
    let shared = server.diffie_hellman(&PublicKey::from(hello.ephemeral_public));
    let auth = reality::auth_key(shared.as_bytes(), &hello.random);
    let sid: [u8; 32] = hello.session_id.try_into().unwrap();
    let eph = reality::ServerEphemeral::generate();
    let binding = reality::session_identity(&sid, &eph.shared_secret(&hello.ephemeral_public));
    let keys = hkdf_expand(&HKDF_SALT, &binding, &KEY_INFO, 64);
    let mut response = reality::temporary_certificate(&auth).to_vec();
    response.extend_from_slice(&eph.public);
    let nonce = derive_nonce(&sid, 0, Direction::Server, &NONCE_PURPOSE_RESPONSE);
    response.extend_from_slice(&aead(&keys[32..]).encrypt(&nonce.into(), b"ok".as_ref()).unwrap());
    client.complete(&response).unwrap();
    (client, keys[..32].to_vec(), keys[32..].to_vec(), sid)
}

#[test]
fn stats_default_zeroed() {
    let pump = TunnelPump::new();
    let s = pump.stats();
    assert_eq!(s.packets_in, 0);
    assert_eq!(s.packets_out, 0);
    assert_eq!(s.delivered_packets, 0);
    assert!(!pump.is_running());
}

#[test]
fn ip_version_detects_v4_and_v6() {
    assert_eq!(ip_version(&[0x45, 0, 0]), 4);
    assert_eq!(ip_version(&[0x60, 0, 0]), 6);
    assert_eq!(ip_version(&[]), 0);
}

#[test]
fn a_running_pump_is_not_restarted() {
    let mut pump = TunnelPump::default();
    assert_eq!(pump.start(3, 4), Ok(()));
    assert!(pump.is_running());
    assert_eq!(pump.start(0, 0), Err(PumpError::AlreadyRunning));
    assert_eq!(PumpError::AlreadyRunning.reason(), "tunnel pump already running");
    pump.launch();
    pump.stop();
    assert!(pump.stopping() && pump.is_running());
    assert!(matches!(pump.half_finished(), PumpAction::Halt));
    assert!(pump.is_running());
    assert!(matches!(pump.half_finished(), PumpAction::Halt));
    assert!(!pump.is_running());
    assert_eq!(pump.start(0, 0), Ok(()));
    assert!(!pump.stopping());
}

#[test]
fn packets_are_sealed_in_sequence_and_ipv6_is_blackholed() {
    let (client, client_key, _, sid) = completed();
    let mut pump = TunnelPump::new();
    pump.start(1, 1).unwrap();
    let config = PumpConfig { block_ipv6: true };
    for seq in 1u64..4 {
        assert!(matches!(
            pump.outbound_packet(config, &client, &[0x60, 1, 2]),
            PumpAction::Continue
        ));
        let packet = [0x45, seq as u8];
        let sealed = match pump.outbound_packet(config, &client, &packet) {
            PumpAction::Send(s) => s,
            _ => panic!("must send"),
        };
        let nonce = derive_nonce(&sid, seq, Direction::Client, &NONCE_PURPOSE_DATA);
        assert_eq!(
            aead(&client_key).decrypt(&nonce.into(), sealed.as_ref()).unwrap(),
            packet.to_vec()
        );
        assert!(matches!(pump.outbound_sent(sealed.len(), true), PumpAction::Continue));
    }
    assert_eq!(
        pump.stats(),
        PumpStats {
            packets_in: 6,
            bytes_in: 15,
            packets_out: 3,
            bytes_out: 54,
            dropped_packets: 3,
            ..PumpStats::default()
        }
    );
    // Without the shield IPv6 flows.
    assert!(matches!(
        pump.outbound_packet(PumpConfig::default(), &client, &[0x60]),
        PumpAction::Send(_)
    ));
}

#[test]
fn a_failed_send_halts_and_uses_its_sequence_up() {
    let (client, client_key, _, sid) = completed();
    let mut pump = TunnelPump::new();
    pump.start(9, 0).unwrap();
    let config = PumpConfig::default();
    let first = match pump.outbound_packet(config, &client, b"same") {
        PumpAction::Send(s) => s,
        _ => panic!("must send"),
    };
    assert!(matches!(pump.outbound_sent(first.len(), false), PumpAction::Halt));
    match pump.outbound_packet(config, &client, b"same") {
        PumpAction::Send(s) => {
            let nonce = derive_nonce(&sid, 10, Direction::Client, &NONCE_PURPOSE_DATA);
            assert_eq!(
                aead(&client_key).decrypt(&nonce.into(), s.as_ref()).unwrap(),
                b"same".to_vec()
            );
        }
        _ => panic!("must send"),
    }
    assert_eq!(pump.stats().packets_out, 0);
    assert_eq!(pump.next_out(), 11);
}

#[test]
fn frames_are_opened_in_sequence() {
    let (client, _, server_key, sid) = completed();
    let mut pump = TunnelPump::new();
    pump.start(0, 5).unwrap();
    let seal = |seq: u64, packet: &[u8]| {
        let nonce = derive_nonce(&sid, seq, Direction::Server, &NONCE_PURPOSE_DATA);
        aead(&server_key).encrypt(&nonce.into(), packet).unwrap()
    };
    assert!(matches!(pump.inbound_frame(&client, &[]), PumpAction::Continue));
    // The wrong sequence does not open and uses none up.
    assert!(matches!(
        pump.inbound_frame(&client, &seal(6, b"later")),
        PumpAction::Continue
    ));
    assert_eq!(pump.stats().open_errors, 1);
    for seq in 5u64..8 {
        match pump.inbound_frame(&client, &seal(seq, b"packet")) {
            PumpAction::Deliver(p) => assert_eq!(p, b"packet".to_vec()),
            _ => panic!("must deliver"),
        }
        assert!(matches!(pump.inbound_delivered(6, true), PumpAction::Continue));
    }
    assert_eq!(pump.stats().delivered_packets, 3);
    assert_eq!(pump.stats().delivered_bytes, 18);
    // A packet that cannot be delivered halts the pump and frees its sequence.
    assert!(matches!(
        pump.inbound_frame(&client, &seal(8, b"gone")),
        PumpAction::Deliver(_)
    ));
    assert!(matches!(pump.inbound_delivered(4, false), PumpAction::Halt));
    assert!(matches!(
        pump.inbound_frame(&client, &seal(8, b"gone")),
        PumpAction::Deliver(_)
    ));
}

#[test]
fn an_uncompleted_session_counts_errors() {
    let server = StaticSecret::from([7u8; 32]);
    let params = HandshakeParams {
        server_address: String::new(),
        server_port: 1,
        sni: "x".into(),
        server_public_key: *PublicKey::from(&server).as_bytes(),
        short_id: vec![1],
        fingerprint: None,
    };
    let client = HandshakeState::initiate(&params).unwrap();
    let mut pump = TunnelPump::new();
    pump.start(0, 0).unwrap();
    assert!(pump.has_room(1500));
    assert!(matches!(
        pump.outbound_packet(PumpConfig::default(), &client, &[0x45]),
        PumpAction::Continue
    ));
    assert!(matches!(pump.inbound_frame(&client, &[1, 2, 3]), PumpAction::Continue));
    assert_eq!(pump.stats().seal_errors, 1);
    assert_eq!(pump.stats().open_errors, 1);
}

#[test]
fn either_half_takes_the_other_down() {
    let mut pump = TunnelPump::new();
    pump.start(0, 0).unwrap();
    pump.launch();
    assert!(!pump.stopping());
    // The TUN ends: the socket is to be shut down and the other half to stop.
    assert!(matches!(pump.half_finished(), PumpAction::Halt));
    assert!(pump.stopping() && pump.is_running());
    assert!(matches!(pump.half_finished(), PumpAction::Halt));
    assert!(!pump.is_running());
    assert_eq!(pump.start(4, 5), Ok(()));
    assert_eq!((pump.next_out(), pump.next_in()), (4, 5));
}

#[test]
fn sequences_can_be_taken_beside_the_pump() {
    let mut pump = TunnelPump::new();
    pump.start(u64::MAX, 7).unwrap();
    pump.take_out();
    pump.take_in();
    assert_eq!((pump.next_out(), pump.next_in()), (0, 8));
}
