//! VLESS headers and session streams, and the Vision framing under them.

use shadevpn_native::vision::{
    frames_needed, VisionReader, VisionWriter, BUF_SIZE, MAX_FRAME_BODY, PADDING_CONTINUE,
    PADDING_DIRECT, PADDING_END, TESTSEED,
};
use shadevpn_native::vless::{
    build_request_header, build_response_header, decode_varint, encode_varint,
    parse_request_header, parse_response_header, parse_uuid, request_header_len, Address, VlessError, VlessIn, VlessOut, ATYP_DOMAIN, ATYP_IPV4,
    ATYP_IPV6, CMD_MUX, CMD_TCP, CMD_UDP, VERSION,
};

fn uuid() -> [u8; 16] {
    [
        0x00, 0x01, 0x02, 0x03, 0x04, 0x05, 0x06, 0x07, 0x08, 0x09, 0x0a, 0x0b, 0x0c, 0x0d,
        0x0e, 0x0f,
    ]
}

#[test]
fn request_header_round_trips_domain() {
    let header = build_request_header(
        &uuid(),
        Some("xtls-rprx-vision"),
        CMD_TCP,
        &Address::Domain("example.com".into()),
        443,
    )
    .expect("build");
    let parsed = parse_request_header(&header).expect("parse");
    assert_eq!(parsed.uuid, uuid());
    assert_eq!(parsed.flow.as_deref(), Some("xtls-rprx-vision"));
    assert_eq!(parsed.command, CMD_TCP);
    assert_eq!(parsed.address, Address::Domain("example.com".into()));
    assert_eq!(parsed.port, 443);
    assert_eq!(parsed.port.to_be_bytes(), [0x01, 0xbb]);
}

#[test]
fn request_header_round_trips_ipv4_and_ipv6() {
    for (address, wire_addr) in [
        (Address::Ipv4([1, 2, 3, 4]), vec![0x01, 1, 2, 3, 4]),
        (Address::Ipv6([0x20; 16]), {
            let mut v = vec![0x03u8];
            v.extend_from_slice(&[0x20u8; 16]);
            v
        }),
    ] {
        let header = build_request_header(&uuid(), None, CMD_TCP, &address, 80).expect("build");
        let parsed = parse_request_header(&header).expect("parse");
        assert_eq!(parsed.address, address);
        assert_eq!(parsed.port, 80);
        // Empty flow is the canonical `0x0a 0x01 0x00` addons.
        assert!(header.windows(3).any(|w| w == [0x0a, 0x01, 0x00]));
        let _ = wire_addr;
    }
}

#[test]
fn request_header_port_then_address_order() {
    // PortThenAddress: 2-byte BE port comes BEFORE the address bytes.
    let header =
        build_request_header(&uuid(), None, CMD_TCP, &Address::Ipv4([9, 8, 7, 6]), 0x1234)
            .expect("build");
    let at = header
        .windows(2)
        .position(|w| w == [0x12, 0x34])
        .expect("port bytes present");
    assert_eq!(header[at + 2], ATYP_IPV4);
}

#[test]
fn request_header_with_flow_sets_padding_addon() {
    let header = build_request_header(
        &uuid(),
        Some("xtls-rprx-vision"),
        CMD_TCP,
        &Address::Ipv4([1, 2, 3, 4]),
        443,
    )
    .expect("build");
    // Addons must contain the padding subfield `0x01 <len>`.
    let parsed = parse_request_header(&header).expect("parse");
    assert_eq!(parsed.flow.as_deref(), Some("xtls-rprx-vision"));
}

#[test]
fn response_header_round_trips() {
    let response = build_response_header();
    assert_eq!(response, vec![0, 0x0a, 0x01, 0x00]);
    assert!(parse_response_header(&response, VERSION).is_ok());
    assert!(parse_response_header(&response, 1).is_err());
}

#[test]
fn truncated_request_header_is_rejected() {
    let header = build_request_header(
        &uuid(),
        None,
        CMD_TCP,
        &Address::Domain("example.com".into()),
        443,
    )
    .expect("build");
    for cut in [0, 1, 17, 20, header.len() - 1] {
        assert!(
            parse_request_header(&header[..cut]).is_err(),
            "cut at {cut} must fail"
        );
    }
}

#[test]
fn padded_round_trip_carries_payload_exactly() {
    let mut writer = VisionWriter::new(uuid());
    let mut reader = VisionReader::new(uuid());
    let payloads: Vec<Vec<u8>> = vec![
        b"GET / HTTP/1.1\r\nHost: example.com\r\n\r\n".to_vec(),
        vec![0x17, 0x03, 0x03, 0x00, 0x10, 0x07, 0x00, 0x00],
        vec![0u8; 292],
        vec![0u8; 0], // empty frame still legal
    ];
    for payload in payloads {
        let frame = writer.pad(&payload, true, true);
        let opened = reader.unpad(&frame).expect("unpad");
        assert_eq!(opened, payload);
    }
}

#[test]
fn uuid_rides_only_on_the_first_frame() {
    let mut writer = VisionWriter::new(uuid());
    let frame1 = writer.pad(b"first", true, false);
    let frame2 = writer.pad(b"second", false, true);
    assert!(frame1.starts_with(&uuid()));
    assert!(!frame2.starts_with(&uuid()));
    // Both must open cleanly.
    let mut reader = VisionReader::new(uuid());
    assert_eq!(reader.unpad(&frame1).unwrap(), b"first".to_vec());
    assert_eq!(reader.unpad(&frame2).unwrap(), b"second".to_vec());
}

#[test]
fn large_payload_is_reshaped_into_bounded_frames() {
    let mut writer = VisionWriter::new(uuid());
    let payload = vec![0xabu8; MAX_FRAME_BODY * 2 + 17];
    let frames = writer.pad(&payload, false, true);
    // Every frame stays within Xray's buf.Size bound.
    assert!(frames.len() <= 3 * BUF_SIZE);
    let mut reader = VisionReader::new(uuid());
    let opened = reader.unpad(&frames).expect("unpad");
    assert_eq!(opened, payload);
}

#[test]
fn wrong_uuid_passes_through_untouched() {
    let mut other = uuid();
    other[0] ^= 0xff;
    let mut reader = VisionReader::new(other);
    // Non-padding traffic (e.g. a plain HTTP response before padding
    // starts) passes through byte-identical.
    let raw = b"HTTP/1.1 200 OK\r\n\r\n".to_vec();
    assert_eq!(reader.unpad(&raw).unwrap(), raw);
}

#[test]
fn uuid_mismatch_inside_padding_stream_is_rejected() {
    let mut writer = VisionWriter::new(uuid());
    let frame = writer.pad(b"data", false, true);
    let mut other = uuid();
    other[5] ^= 0x11;
    let mut reader = VisionReader::new(other);
    // The first buffer is large enough to be a padding frame but does
    // not carry THIS reader's prefix: a peer claiming framing it cannot
    // produce. Reject instead of copying it through.
    let mut tampered = frame;
    tampered[0] ^= 0xff;
    assert!(matches!(
        reader.unpad(&tampered),
        Err(VlessError::UuidMismatch)
    ));
    assert!(!reader.within_padding_buffers());
}

#[test]
fn session_stream_round_trip_header_and_payload() {
    let uuid = uuid();
    let mut out = VlessOut::new(
        uuid,
        Some("xtls-rprx-vision"),
        CMD_TCP,
        &Address::Domain("example.com".into()),
        443,
    )
    .expect("build vless out");
    let mut input = VlessIn::new(uuid);

    // First payload: request header + data, long-padded Vision stream.
    let wire1 = out.wrap(b"first-payload");
    assert!(wire1.starts_with(&uuid));

    // Honest server leg: unpad, split the request header, respond with
    // the VLESS response header followed by the data.
    let mut server_reader = VisionReader::new(uuid);
    let opened = server_reader.unpad(&wire1).expect("server unpads");
    let hlen = request_header_len(&opened).expect("header len");
    let request = parse_request_header(&opened[..hlen]).expect("parse request");
    assert_eq!(request.flow.as_deref(), Some("xtls-rprx-vision"));
    assert_eq!(request.port, 443);
    let server_out = opened[hlen..].to_vec();
    let mut server_writer = VisionWriter::new(uuid);
    let mut reply = build_response_header();
    reply.extend_from_slice(&server_out);
    let wire_reply = server_writer.pad(&reply, true, true);

    // Client unwraps the server's first record: response header stripped.
    let got1 = input.unwrap(&wire_reply).expect("unwrap 1");
    assert_eq!(got1, b"first-payload".to_vec());

    // Later payloads: direct copy, no identity prefix.
    let wire2 = out.wrap(b"second");
    assert!(!wire2.starts_with(&uuid));
    let mut server_reader2 = VisionReader::new(uuid);
    let opened2 = server_reader2.unpad(&wire2).expect("server unpads 2");
    let got2 = input.unwrap(&opened2).expect("unwrap 2");
    assert_eq!(got2, b"second".to_vec());
}

#[test]
fn session_stream_survives_frame_reshaping() {
    let uuid = uuid();
    let mut out = VlessOut::new(
        uuid,
        Some("xtls-rprx-vision"),
        CMD_TCP,
        &Address::Ipv4([10, 0, 0, 1]),
        8443,
    )
    .expect("build vless out");
    let mut input = VlessIn::new(uuid);

    // A payload large enough to force multi-frame reshaping under the
    // header must survive the server leg and unwrap to exactly the
    // payload.
    let big = vec![0xcdu8; MAX_FRAME_BODY * 2 + 5];
    let wire = out.wrap(&big);

    let mut server_reader = VisionReader::new(uuid);
    let opened = server_reader.unpad(&wire).expect("server unpads big");
    let hlen = request_header_len(&opened).expect("header len");
    assert_eq!(&opened[hlen..], &big[..]);

    let mut server_writer = VisionWriter::new(uuid);
    let mut reply = build_response_header();
    reply.extend_from_slice(&big);
    let wire_reply = server_writer.pad(&reply, false, true);
    let got = input.unwrap(&wire_reply).expect("unwrap big");
    assert_eq!(got, big);
}

#[test]
fn request_header_len_matches_parse() {
    let header = build_request_header(
        &uuid(),
        Some("xtls-rprx-vision"),
        CMD_TCP,
        &Address::Domain("example.com".into()),
        443,
    )
    .expect("build");
    assert_eq!(request_header_len(&header).expect("len"), header.len());

    let parsed = parse_request_header(&header).expect("parse");
    assert_eq!(parsed.address, Address::Domain("example.com".into()));

    // A payload appended after the header must not shift the length.
    let mut with_payload = header.clone();
    with_payload.extend_from_slice(b"trailing");
    assert_eq!(
        request_header_len(&with_payload).expect("len2"),
        header.len()
    );
}

#[test]
fn parse_uuid_accepts_hyphenated_and_hex() {
    let raw = "00000000-0000-0000-0000-000000000001";
    let got = parse_uuid(raw).expect("hyphenated");
    assert_eq!(got[15], 0x01);
    assert_eq!(parse_uuid("000102030405060708090a0b0c0d0e0f"), Some(uuid()));
    assert!(parse_uuid("tooshort").is_none());
    assert!(parse_uuid("zz000000-0000-0000-0000-000000000000").is_none());
}

#[test]
fn short_unpadded_response_passes_through_then_padding_locks_on() {
    // Server->client shape: an unpadded response header first (shorter
    // than any padding frame), then a prefixed padding phase.
    let mut writer = VisionWriter::new(uuid());
    let mut reader = VisionReader::new(uuid());
    let header = b"HTTP/1.1 200 OK\r\n\r\n";
    assert_eq!(reader.unpad(header.as_ref()).unwrap(), header.to_vec());
    assert!(!reader.within_padding_buffers());
    let body = writer.pad(b"body-bytes", true, true);
    assert_eq!(reader.unpad(&body).unwrap(), b"body-bytes".to_vec());
}

#[test]
fn tampered_content_length_is_rejected() {
    let mut writer = VisionWriter::new(uuid());
    let mut frame = writer.pad(b"payload", false, true);
    // content length lives at offset 16 (uuid) + 1 (command).
    frame[17] = 0xff;
    frame[18] = 0xff;
    let mut reader = VisionReader::new(uuid());
    assert!(matches!(reader.unpad(&frame), Err(VlessError::BadFrame)));
}

#[test]
fn long_padding_hides_the_header_length() {
    // Two pads of identical 0-byte content with long padding must differ
    // in size with overwhelming probability (random padding draw).
    let mut writer = VisionWriter::new(uuid());
    let a = writer.pad(&[], true, false);
    let b = writer.pad(&[], true, false);
    // Both are valid frames the reader accepts.
    let mut reader = VisionReader::new(uuid());
    assert_eq!(reader.unpad(&a).unwrap(), Vec::<u8>::new());
    assert_eq!(reader.unpad(&b).unwrap(), Vec::<u8>::new());
    // The long-padding draw starts at 900-content; empty content means
    // the frame is at least 900 bytes of camouflage.
    assert!(a.len() >= 900 && b.len() >= 900);
}

#[test]
fn vless_error_reasons_leak_no_material() {
    for e in [
        VlessError::Layout,
        VlessError::BadResponse,
        VlessError::UuidMismatch,
        VlessError::BadFrame,
    ] {
        assert!(!e.reason().contains("uuid"));
        assert!(!e.reason().contains("secret"));
    }
}

#[test]
fn request_header_bytes_are_exact() {
    let header = build_request_header(
        &uuid(),
        Some("ab"),
        CMD_UDP,
        &Address::Domain("x.y".into()),
        0x1f90,
    )
    .unwrap();
    let mut want = vec![VERSION];
    want.extend_from_slice(&uuid());
    want.extend_from_slice(&[0x0a, 4, 1, 2, b'a', b'b', CMD_UDP, 0x1f, 0x90]);
    want.extend_from_slice(&[ATYP_DOMAIN, 3, b'x', b'.', b'y']);
    assert_eq!(header, want);

    let v6 = build_request_header(&uuid(), None, CMD_TCP, &Address::Ipv6([9; 16]), 1).unwrap();
    assert_eq!(v6.len(), 1 + 16 + 3 + 1 + 2 + 17);
    assert_eq!(v6[23], ATYP_IPV6);
}

#[test]
fn long_flow_names_use_a_two_byte_length() {
    let name = "f".repeat(200);
    let header =
        build_request_header(&uuid(), Some(&name), CMD_TCP, &Address::Ipv4([1, 2, 3, 4]), 443)
            .unwrap();
    // 202 = 0x4a + 1 * 128, so the length takes two bytes.
    assert_eq!(&header[17..20], &[0x0a, 0x80 | 0x4a, 0x01]);
    let parsed = parse_request_header(&header).unwrap();
    assert_eq!(parsed.flow.as_deref(), Some(name.as_str()));
    assert_eq!(request_header_len(&header), Ok(header.len()));
}

#[test]
fn mux_requests_carry_no_destination() {
    let header =
        build_request_header(&uuid(), None, CMD_MUX, &Address::Ipv4([1, 2, 3, 4]), 443).unwrap();
    assert_eq!(header.len(), 21);
    assert_eq!(request_header_len(&header), Ok(21));
    let parsed = parse_request_header(&header).unwrap();
    assert_eq!(parsed.address, Address::Domain("v1.mux.cool".into()));
    assert_eq!(parsed.port, 0);
    assert_eq!(parsed.command, CMD_MUX);
}

#[test]
fn malformed_requests_are_refused() {
    let good =
        build_request_header(&uuid(), None, CMD_TCP, &Address::Ipv4([1, 2, 3, 4]), 443).unwrap();
    let mut version = good.clone();
    version[0] = 1;
    assert_eq!(parse_request_header(&version), Err(VlessError::BadResponse));
    let mut tag = good.clone();
    tag[17] = 0x0b;
    assert_eq!(parse_request_header(&tag), Err(VlessError::Layout));
    assert_eq!(request_header_len(&tag), Err(VlessError::Layout));
    let mut atyp = good.clone();
    atyp[23] = 9;
    assert_eq!(parse_request_header(&atyp), Err(VlessError::Layout));
    assert_eq!(request_header_len(&atyp), Err(VlessError::Layout));

    // A varint of eleven bytes, and lengths no buffer can hold.
    let mut endless = good[..18].to_vec();
    endless.extend_from_slice(&[0x80; 12]);
    assert_eq!(parse_request_header(&endless), Err(VlessError::Layout));
    let mut huge = good[..18].to_vec();
    huge.extend_from_slice(&[0xff, 0xff, 0xff, 0xff, 0xff, 0xff, 0xff, 0xff, 0xff, 0x01]);
    huge.extend_from_slice(&[0; 8]);
    assert_eq!(parse_request_header(&huge), Err(VlessError::Layout));
    assert_eq!(request_header_len(&huge), Err(VlessError::Layout));

    // A domain that is not text.
    let mut text = good[..21].to_vec();
    text.extend_from_slice(&[0, 80, ATYP_DOMAIN, 1, 0xff]);
    assert_eq!(parse_request_header(&text), Err(VlessError::Layout));
    // The declared length passes the end when the address is cut off.
    let mut cut = good[..21].to_vec();
    cut.extend_from_slice(&[0, 80, ATYP_DOMAIN, 50]);
    assert_eq!(request_header_len(&cut), Ok(21 + 2 + 2 + 50));
}

#[test]
fn varints_past_64_bits_drop_the_high_bits() {
    // Ten bytes whose value is 2^64 + 1: the low 64 bits count.
    let mut wire = vec![VERSION];
    wire.extend_from_slice(&uuid());
    wire.push(0x0a);
    wire.extend_from_slice(&[0x81, 0x80, 0x80, 0x80, 0x80, 0x80, 0x80, 0x80, 0x80, 0x02]);
    wire.push(0x00);
    wire.extend_from_slice(&[CMD_TCP, 0, 80, ATYP_IPV4, 1, 2, 3, 4]);
    let parsed = parse_request_header(&wire).unwrap();
    assert_eq!(parsed.port, 80);
    assert_eq!(parsed.address, Address::Ipv4([1, 2, 3, 4]));
    assert_eq!(request_header_len(&wire), Ok(wire.len()));
}

#[test]
fn padding_lengths_follow_the_draws() {
    assert_eq!(TESTSEED, [900, 500, 900, 256]);
    // Long padding: 777 % 500 + 900 - 5.
    let mut w = VisionWriter::new(uuid());
    let frame = w.pad_with(b"hello", true, false, &[777]);
    assert_eq!(frame.len(), 16 + 5 + 5 + 277 + 900 - 5);
    assert_eq!(&frame[16..21], &[PADDING_CONTINUE, 0, 5, 0x04, 0x94]);
    assert!(frame[26..].iter().all(|&b| b == 0));
    // Regular padding: 777 % 256.
    let frame = w.pad_with(b"hello", false, true, &[777]);
    assert_eq!(frame.len(), 5 + 5 + 9);
    assert_eq!(&frame[..5], &[PADDING_END, 0, 5, 0, 9]);
    assert!(!w.is_padding());
    // After END payloads are copied.
    assert_eq!(w.pad_with(b"raw", true, true, &[1]), b"raw".to_vec());
    // The cap: content and padding fill one buffer.
    let mut w = VisionWriter::new(uuid());
    let frame = w.pad_with(&[1u8; MAX_FRAME_BODY - 3], false, true, &[255]);
    assert_eq!(frame.len(), BUF_SIZE);
}

#[test]
fn payloads_are_cut_into_full_frames() {
    assert_eq!(frames_needed(0), 1);
    assert_eq!(frames_needed(MAX_FRAME_BODY), 1);
    assert_eq!(frames_needed(MAX_FRAME_BODY + 1), 2);
    let payload: Vec<u8> = (0..MAX_FRAME_BODY * 2 + 1).map(|i| i as u8).collect();
    let mut w = VisionWriter::new(uuid());
    let wire = w.pad_with(&payload, false, false, &[0, 0, 3]);
    assert_eq!(wire.len(), 16 + 3 * 5 + payload.len() + 3);
    assert!(w.is_padding());
    let mut r = VisionReader::new(uuid());
    assert_eq!(r.unpad(&wire).unwrap(), payload);
    assert!(r.within_padding_buffers());
}

#[test]
fn any_cut_into_buffers_gives_the_same_payload() {
    let mut w = VisionWriter::new(uuid());
    let mut wire = w.pad_with(b"one", true, false, &[5]);
    wire.extend_from_slice(&w.pad_with(b"two", false, true, &[6]));
    wire.extend_from_slice(&w.pad_with(b"three", false, false, &[7]));
    for cut in 21..wire.len() {
        let mut r = VisionReader::new(uuid());
        let mut got = r.unpad(&wire[..cut]).unwrap();
        got.extend_from_slice(&r.unpad(&wire[cut..]).unwrap());
        assert_eq!(got, b"onetwothree".to_vec(), "cut at {cut}");
    }
}

#[test]
fn direct_command_ends_padding_and_unknown_commands_are_refused() {
    let frame = |command: u8| {
        let mut f = uuid().to_vec();
        f.extend_from_slice(&[command, 0, 1, 0, 1, b'x', 0]);
        f
    };
    let mut r = VisionReader::new(uuid());
    assert_eq!(r.unpad(&frame(PADDING_DIRECT)).unwrap(), b"x".to_vec());
    assert!(!r.within_padding_buffers());
    assert_eq!(r.unpad(b"raw bytes").unwrap(), b"raw bytes".to_vec());
    let mut r = VisionReader::new(uuid());
    assert_eq!(r.unpad(&frame(3)), Err(VlessError::BadFrame));
}

#[test]
fn session_refuses_a_bad_response_header() {
    let mut server = VisionWriter::new(uuid());
    let mut input = VlessIn::new(uuid());
    let wire = server.pad(&[1, 0x0a, 1, 0, 9], true, true);
    assert_eq!(input.unwrap(&wire), Err(VlessError::BadResponse));
    // The header counts as seen; what follows is payload.
    assert_eq!(input.unwrap(b"later").unwrap(), b"later".to_vec());
}

#[test]
fn wrapping_with_given_draws_is_exact() {
    let mut out =
        VlessOut::new(uuid(), None, CMD_TCP, &Address::Ipv4([1, 2, 3, 4]), 443).unwrap();
    let header =
        build_request_header(&uuid(), None, CMD_TCP, &Address::Ipv4([1, 2, 3, 4]), 443).unwrap();
    let first = out.wrap_with(b"abc", &[10]);
    let mut content = header.clone();
    content.extend_from_slice(b"abc");
    let mut want = VisionWriter::new(uuid());
    assert_eq!(first, want.pad_with(&content, true, true, &[10]));
    assert_eq!(out.wrap_with(b"next", &[11]), b"next".to_vec());
}

#[test]
fn addon_lengths_are_shortest_varints() {
    let flow = "f".repeat(200);
    let address = Address::Ipv4([1, 2, 3, 4]);
    let header = build_request_header(&uuid(), Some(&flow), CMD_TCP, &address, 443).unwrap();
    // 202 bytes of addons: two base-128 digits, the last one not zero.
    assert_eq!(&header[17..20], &[0x0a, 0xca, 0x01]);
    assert_eq!(request_header_len(&header), Ok(header.len()));
    // A length cut off in the middle is no length.
    assert_eq!(request_header_len(&header[..19]), Err(VlessError::Layout));
    assert_eq!(request_header_len(&header[..18]), Err(VlessError::Layout));
}

#[test]
fn varints_round_trip_and_their_prefixes_are_refused() {
    for value in [0usize, 1, 127, 128, 300, 16_383, 16_384, usize::MAX] {
        let mut e = Vec::new();
        encode_varint(value, &mut e);
        assert!(value == 0 || *e.last().unwrap() != 0);
        let mut wire = e.clone();
        wire.extend_from_slice(&[0xff, 0x00]);
        assert_eq!(decode_varint(&wire), Ok((value as u64, e.len())));
        for cut in 0..e.len() {
            assert_eq!(decode_varint(&e[..cut]), Err(VlessError::Layout));
        }
    }
    assert_eq!(decode_varint(&[0x80; 11]), Err(VlessError::Layout));
}

#[test]
fn names_over_one_length_byte_are_refused() {
    let ip = Address::Ipv4([1, 2, 3, 4]);
    let domain = |len: usize| Address::Domain("d".repeat(len));
    let build = |flow: usize, command: u8, address: &Address| {
        build_request_header(&uuid(), Some(&"f".repeat(flow)), command, address, 1)
    };
    assert_eq!(build(256, CMD_TCP, &ip), Err(VlessError::Layout));
    assert_eq!(build(0, CMD_TCP, &domain(256)), Err(VlessError::Layout));
    assert!(VlessOut::new(uuid(), None, CMD_UDP, &domain(256), 1).is_err());
    // A multiplexed request writes no address.
    assert!(build(0, CMD_MUX, &domain(256)).is_ok());
    let header = build(255, CMD_TCP, &domain(255)).unwrap();
    let parsed = parse_request_header(&header).unwrap();
    assert_eq!(parsed.flow, Some("f".repeat(255)));
    assert_eq!(parsed.address, domain(255));
}
