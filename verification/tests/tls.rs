//! ClientHello build and parse.

use shadevpn_native::tls::{
    build_client_hello, parse_client_hello, TlsError, CONTENT_HANDSHAKE, EXT_ALPN,
    EXT_COMPRESS_CERT, EXT_EMS, EXT_KEY_SHARE, EXT_PADDING, EXT_PSK_MODES, EXT_RENEGOTIATION_INFO,
    EXT_SCT, EXT_SERVER_NAME, EXT_SIGNATURE_ALGORITHMS, EXT_STATUS_REQUEST, EXT_SUPPORTED_GROUPS,
    EXT_SUPPORTED_VERSIONS, GREASE_EXT, GREASE_KEY_SHARE_GROUP, GROUP_GREASE, GROUP_SECP256R1,
    GROUP_SECP384R1, GROUP_X25519, HS_CLIENT_HELLO, SESSION_ID_OFFSET, X25519_PK_LEN,
};

fn sample_inputs() -> (&'static str, [u8; 32], [u8; 32], Vec<u8>) {
    let mut pk = [0u8; 32];
    for (i, b) in pk.iter_mut().enumerate() {
        *b = (i as u8) ^ 0x5a;
    }
    let mut tag = [0u8; 32];
    for (i, b) in tag.iter_mut().enumerate() {
        *b = (i as u8) ^ 0xa5;
    }
    ("tunnel.example.com", pk, tag, vec![0x01, 0x02])
}

#[test]
fn round_trip_preserves_all_reality_fields() {
    let (sni, pk, random, sid) = sample_inputs();
    let record = build_client_hello(Some(sni), &pk, &random, &sid).expect("build");
    let parsed = parse_client_hello(&record).expect("parse");
    assert_eq!(parsed.sni.as_deref(), Some(sni));
    assert_eq!(parsed.ephemeral_public, pk);
    assert_eq!(parsed.random, random);
    assert_eq!(parsed.session_id, sid);
    assert!(parsed.tls13_negotiable);
}

#[test]
fn record_opens_with_handshake_type_and_legacy_version() {
    let (_, pk, tag, short_id) = sample_inputs();
    let record = build_client_hello(Some("x.example.com"), &pk, &tag, &short_id).unwrap();
    assert_eq!(record[0], CONTENT_HANDSHAKE, "record content type");
    assert_eq!(&record[1..3], &[0x03, 0x01], "legacy record version");
    assert_eq!(record[5], HS_CLIENT_HELLO, "handshake message type");
    // Record length must cover exactly the handshake message.
    let record_len = u16::from_be_bytes([record[3], record[4]]) as usize;
    assert_eq!(record.len(), 5 + record_len);
}

#[test]
fn random_field_rides_at_the_documented_offset() {
    let (_, pk, random, sid) = sample_inputs();
    let record = build_client_hello(Some("x.example.com"), &pk, &random, &sid).unwrap();
    // random starts after: record(5) + hs header(4) + legacy_version(2)
    assert_eq!(&record[11..43], random.as_slice());
    // The session id bytes start after random AND the 1-byte length
    // prefix — the offset the REALITY layer uses for its AAD window.
    assert_eq!(SESSION_ID_OFFSET, 44);
    assert_eq!(
        &record[SESSION_ID_OFFSET..SESSION_ID_OFFSET + sid.len()],
        sid.as_slice()
    );
}

#[test]
fn key_share_carries_ephemeral_public_key() {
    let (_, pk, tag, short_id) = sample_inputs();
    let record = build_client_hello(Some("x.example.com"), &pk, &tag, &short_id).unwrap();
    let parsed = parse_client_hello(&record).unwrap();
    assert_eq!(parsed.ephemeral_public, pk);
}

#[test]
fn hello_without_sni_is_still_valid_tls() {
    let (_, pk, tag, short_id) = sample_inputs();
    let record = build_client_hello(None, &pk, &tag, &short_id).expect("build");
    let parsed = parse_client_hello(&record).expect("parse");
    assert_eq!(parsed.sni, None);
    assert_eq!(parsed.ephemeral_public, pk);
}

/// Walk the extensions block of a built hello and return the (type,
/// body) pairs in wire order.
fn extensions_of(record: &[u8]) -> Vec<(u16, Vec<u8>)> {
    let parsed = parse_client_hello(record).expect("parse for ext walk");
    let _ = parsed;
    // Walk from the end of the fixed header: record(5) + hs header(4) +
    // legacy_version(2) + random(32) + sid_len(1) + sid + cs_len(2) + cs
    // + comp_len(1) + comp, then extensions.
    let mut pos = SESSION_ID_OFFSET;
    let sid_len = record[pos - 1] as usize;
    pos += sid_len;
    let cs_len = u16::from_be_bytes([record[pos], record[pos + 1]]) as usize;
    pos += 2 + cs_len;
    let comp_len = record[pos] as usize;
    pos += 1 + comp_len;
    let ext_total = u16::from_be_bytes([record[pos], record[pos + 1]]) as usize;
    pos += 2;
    let end = pos + ext_total;
    let mut out = Vec::new();
    while pos < end {
        let t = u16::from_be_bytes([record[pos], record[pos + 1]]);
        let l = u16::from_be_bytes([record[pos + 2], record[pos + 3]]) as usize;
        out.push((t, record[pos + 4..pos + 4 + l].to_vec()));
        pos += 4 + l;
    }
    assert_eq!(pos, end, "extension walk must consume the block exactly");
    out
}

#[test]
fn hello_carries_the_chrome_fingerprint_shape() {
    let (_, pk, tag, short_id) = sample_inputs();
    let record = build_client_hello(Some("x.example.com"), &pk, &tag, &short_id).unwrap();
    let exts = extensions_of(&record);
    let types: Vec<u16> = exts.iter().map(|(t, _)| *t).collect();

    // GREASE extension leads; padding trails (Chrome's placement).
    assert_eq!(types[0], GREASE_EXT, "GREASE must lead the extension list");
    assert_eq!(*types.last().unwrap(), EXT_PADDING, "padding must trail");

    // Chrome's signature extensions must all be present, in order.
    for want in [
        EXT_SERVER_NAME,
        EXT_EMS,
        EXT_RENEGOTIATION_INFO,
        EXT_SUPPORTED_GROUPS,
        EXT_ALPN,
        EXT_SIGNATURE_ALGORITHMS,
        EXT_STATUS_REQUEST,
        EXT_COMPRESS_CERT,
        EXT_SCT,
        EXT_PSK_MODES,
        EXT_SUPPORTED_VERSIONS,
        EXT_KEY_SHARE,
    ] {
        assert!(types.contains(&want), "missing extension {want:#x}");
    }

    // ALPN body: h2 then http/1.1 (Chrome's exact list).
    let alpn = &exts.iter().find(|(t, _)| *t == EXT_ALPN).unwrap().1;
    assert_eq!(&alpn[..6], &[0x00, 0x0c, 0x02, b'h', b'2', 0x08]);
    assert_eq!(&alpn[6..], b"http/1.1");

    // key_share carries the GREASE dummy share then the real x25519 key.
    let ks = &exts.iter().find(|(t, _)| *t == EXT_KEY_SHARE).unwrap().1;
    let shares_len = u16::from_be_bytes([ks[0], ks[1]]) as usize;
    assert_eq!(ks[2..4], GREASE_KEY_SHARE_GROUP.to_be_bytes());
    assert_eq!(ks[4..6], 1u16.to_be_bytes()); // GREASE dummy share: 1-byte body
    assert_eq!(&ks[7..9], &GROUP_X25519.to_be_bytes());
    assert_eq!(&ks[9..11], &(X25519_PK_LEN as u16).to_be_bytes());
    assert_eq!(ks[11..43], pk, "x25519 share must be the ephemeral key");
    assert_eq!(2 + shares_len, ks.len());
}

#[test]
fn cipher_list_leads_with_grease_and_offers_chrome_suites() {
    let (_, pk, tag, short_id) = sample_inputs();
    let record = build_client_hello(Some("x.example.com"), &pk, &tag, &short_id).unwrap();
    // Cipher list begins right after the session id.
    let mut pos = SESSION_ID_OFFSET + short_id.len();
    let cs_len = u16::from_be_bytes([record[pos], record[pos + 1]]) as usize;
    pos += 2;
    let cs = &record[pos..pos + cs_len];
    assert_eq!(cs_len % 2, 0);
    assert_eq!(
        &cs[..2],
        &0x0a0au16.to_be_bytes(),
        "GREASE cipher first"
    );
    // TLS 1.3 suites follow immediately, in Chrome's order.
    assert_eq!(&cs[2..8], &[0x13, 0x01, 0x13, 0x02, 0x13, 0x03]);
}

#[test]
fn padding_brings_the_chrome_hello_to_the_512_byte_boundary() {
    let (_, pk, tag, short_id) = sample_inputs();
    let record = build_client_hello(Some("x.example.com"), &pk, &tag, &short_id).unwrap();
    // Chrome pads so the hello (through the SNI) reaches the 512-byte
    // boundary; the full record must land within [512, 512+64). With the
    // GREASE dummy share + full extension set this is deterministic.
    let body_len = record.len() - 5; // minus record header
    assert!(
        (512..576).contains(&body_len),
        "hello body {body_len} outside Chrome's padded range"
    );
    // Padding extension body is all zeros.
    let exts = extensions_of(&record);
    let pad = &exts.iter().find(|(t, _)| *t == EXT_PADDING).unwrap().1;
    assert!(pad.iter().all(|&b| b == 0));
}

#[test]
fn supported_versions_offers_grease_tls13_and_tls12() {
    let (_, pk, tag, short_id) = sample_inputs();
    let record = build_client_hello(Some("x.example.com"), &pk, &tag, &short_id).unwrap();
    let exts = extensions_of(&record);
    let sv = &exts
        .iter()
        .find(|(t, _)| *t == EXT_SUPPORTED_VERSIONS)
        .unwrap()
        .1;
    assert_eq!(sv[0], 0x06); // 3 versions x 2 bytes
    assert_eq!(&sv[1..3], &0x0a0au16.to_be_bytes());
    assert_eq!(&sv[3..5], &[0x03, 0x04]); // TLS 1.3
    assert_eq!(&sv[5..7], &[0x03, 0x03]); // TLS 1.2
                                          // The parser still reports TLS 1.3 negotiability.
    let parsed = parse_client_hello(&record).unwrap();
    assert!(parsed.tls13_negotiable);
}

#[test]
fn groups_lead_with_grease_then_modern_curves() {
    let (_, pk, tag, short_id) = sample_inputs();
    let record = build_client_hello(Some("x.example.com"), &pk, &tag, &short_id).unwrap();
    let exts = extensions_of(&record);
    let g = &exts
        .iter()
        .find(|(t, _)| *t == EXT_SUPPORTED_GROUPS)
        .unwrap()
        .1;
    assert_eq!(&g[..2], &6u16.to_be_bytes()); // 3 groups
    assert_eq!(&g[2..4], &GROUP_GREASE.to_be_bytes());
    assert_eq!(&g[4..6], &GROUP_X25519.to_be_bytes());
    assert_eq!(&g[6..8], &GROUP_SECP256R1.to_be_bytes());
    assert_eq!(&g[8..10], &GROUP_SECP384R1.to_be_bytes());
}

#[test]
fn short_id_over_32_bytes_is_rejected() {
    let (_, pk, random, _) = sample_inputs();
    let long = vec![0u8; 33];
    assert_eq!(
        build_client_hello(Some("x.example.com"), &pk, &random, &long),
        Err(TlsError::ShortIdTooLong)
    );
}

#[test]
fn truncated_records_are_rejected() {
    let (sni, pk, tag, short_id) = sample_inputs();
    let record = build_client_hello(Some(sni), &pk, &tag, &short_id).unwrap();
    for cut in [1usize, 5, 6, 11, 40, record.len() / 2, record.len() - 1] {
        assert!(
            parse_client_hello(&record[..cut]).is_err(),
            "cut at {cut} must not parse"
        );
    }
}

#[test]
fn trailing_bytes_after_the_hello_are_rejected() {
    let (sni, pk, tag, short_id) = sample_inputs();
    let mut record = build_client_hello(Some(sni), &pk, &tag, &short_id).unwrap();
    record.push(0x00);
    assert!(parse_client_hello(&record).is_err());
}

#[test]
fn non_handshake_record_type_is_rejected() {
    let (sni, pk, tag, short_id) = sample_inputs();
    let mut record = build_client_hello(Some(sni), &pk, &tag, &short_id).unwrap();
    record[0] = 0x15; // alert
    assert!(parse_client_hello(&record).is_err());
}

#[test]
fn record_length_mismatch_is_rejected() {
    let (sni, pk, tag, short_id) = sample_inputs();
    let mut record = build_client_hello(Some(sni), &pk, &tag, &short_id).unwrap();
    // Claim one byte less than present.
    let declared = u16::from_be_bytes([record[3], record[4]]);
    let shorter = declared - 1;
    record[3..5].copy_from_slice(&shorter.to_be_bytes());
    assert!(parse_client_hello(&record).is_err());
}

#[test]
fn truncated_body_length_is_rejected() {
    let (sni, pk, tag, short_id) = sample_inputs();
    let mut record = build_client_hello(Some(sni), &pk, &tag, &short_id).unwrap();
    // Handshake length is a 3-byte field at record[6..9]; claim one less.
    record[8] = record[8].saturating_sub(1);
    assert!(parse_client_hello(&record).is_err());
}

#[test]
fn error_strings_reveal_no_material() {
    for e in [
        TlsError::Truncated,
        TlsError::BadRecordType,
        TlsError::BadRecordVersion,
        TlsError::LengthMismatch,
        TlsError::TrailingBytes,
        TlsError::BadServerName,
        TlsError::ShortIdTooLong,
        TlsError::NoX25519KeyShare,
    ] {
        assert!(!e.message().contains("secret"));
        assert!(!e.message().contains("key"));
    }
}

/// A hand-made hello around the given extension block.
fn hello_with_extensions(exts: &[u8]) -> Vec<u8> {
    let mut body = vec![3u8, 3];
    body.extend_from_slice(&[9u8; 32]);
    body.push(0);
    body.extend_from_slice(&[0, 2, 0x13, 0x01, 1, 0]);
    body.extend_from_slice(&(exts.len() as u16).to_be_bytes());
    body.extend_from_slice(exts);
    let mut record = vec![0x16, 3, 1];
    record.extend_from_slice(&(4 + body.len() as u16).to_be_bytes());
    record.push(1);
    record.extend_from_slice(&(body.len() as u32).to_be_bytes()[1..]);
    record.extend_from_slice(&body);
    record
}

fn extension(kind: u16, body: &[u8]) -> Vec<u8> {
    let mut out = kind.to_be_bytes().to_vec();
    out.extend_from_slice(&(body.len() as u16).to_be_bytes());
    out.extend_from_slice(body);
    out
}

fn x25519_share(key: &[u8; 32]) -> Vec<u8> {
    let mut body = vec![0, 36, 0, 0x1d, 0, 32];
    body.extend_from_slice(key);
    extension(EXT_KEY_SHARE, &body)
}

#[test]
fn hello_round_trips_for_many_host_lengths() {
    let (_, pk, random, sid) = sample_inputs();
    for n in [1usize, 13, 100, 137, 140, 141, 255, 1000, 40_000] {
        let host = "h".repeat(n);
        let record = build_client_hello(Some(&host), &pk, &random, &sid).expect("build");
        let parsed = parse_client_hello(&record).expect("parse");
        assert_eq!(parsed.sni.as_deref(), Some(host.as_str()));
        assert_eq!(parsed.session_id, sid);
        assert_eq!(parsed.ephemeral_public, pk);
    }
}

#[test]
fn hello_lengths_are_exact() {
    let (_, pk, random, _) = sample_inputs();
    // 215 bytes of extensions without a host, padded with a 4-byte header.
    let bare = build_client_hello(None, &pk, &random, &[0u8; 32]).unwrap();
    assert_eq!(bare.len(), 82 + 32 + 512);
    // The host overhead counts toward the boundary.
    let hosted = build_client_hello(Some("x.example.com"), &pk, &random, &[0u8; 32]).unwrap();
    assert_eq!(hosted.len(), 82 + 32 + 512 - 9 - 13);
    // Past the boundary nothing is padded.
    let long = "h".repeat(200);
    let record = build_client_hello(Some(&long), &pk, &random, &[0u8; 32]).unwrap();
    assert_eq!(record.len(), 82 + 32 + 224 + 200);
    let last = extensions_of(&record).last().unwrap().0;
    assert_eq!(last, EXT_KEY_SHARE);
}

#[test]
fn session_ids_differ_only_in_their_slot() {
    let (_, pk, random, _) = sample_inputs();
    let a = build_client_hello(Some("x.example.com"), &pk, &random, &[0u8; 32]).unwrap();
    let b = build_client_hello(Some("x.example.com"), &pk, &random, &[7u8; 32]).unwrap();
    assert_eq!(a.len(), b.len());
    for i in 0..a.len() {
        let inside = (SESSION_ID_OFFSET..SESSION_ID_OFFSET + 32).contains(&i);
        assert_eq!(a[i] != b[i], inside, "byte {i}");
    }
}

#[test]
fn international_hosts_round_trip() {
    let (_, pk, random, sid) = sample_inputs();
    let host = "b\u{fc}cher.example";
    let record = build_client_hello(Some(host), &pk, &random, &sid).unwrap();
    assert_eq!(parse_client_hello(&record).unwrap().sni.as_deref(), Some(host));
}

#[test]
fn each_parse_error_is_reported() {
    let (sni, pk, random, sid) = sample_inputs();
    let good = build_client_hello(Some(sni), &pk, &random, &sid).unwrap();
    assert_eq!(parse_client_hello(&[]), Err(TlsError::Truncated));
    assert_eq!(parse_client_hello(&good[..4]), Err(TlsError::Truncated));
    assert_eq!(parse_client_hello(&good[..40]), Err(TlsError::LengthMismatch));

    let mut other = good.clone();
    other[0] = 0x15;
    assert_eq!(parse_client_hello(&other), Err(TlsError::BadRecordType));
    let mut other = good.clone();
    other[5] = 0x02;
    assert_eq!(parse_client_hello(&other), Err(TlsError::BadRecordType));
    let mut other = good.clone();
    other[2] = 0x04;
    assert_eq!(parse_client_hello(&other), Err(TlsError::BadRecordVersion));
    let mut other = good.clone();
    other[43] = 33;
    assert_eq!(parse_client_hello(&other), Err(TlsError::ShortIdTooLong));

    let key = [5u8; 32];
    assert_eq!(
        parse_client_hello(&hello_with_extensions(&[])),
        Err(TlsError::NoX25519KeyShare)
    );
    let bad_name = extension(EXT_SERVER_NAME, &[0, 4, 1, 0, 1, b'x']);
    assert_eq!(
        parse_client_hello(&hello_with_extensions(&bad_name)),
        Err(TlsError::BadServerName)
    );
    let not_text = extension(EXT_SERVER_NAME, &[0, 4, 0, 0, 1, 0xff]);
    assert_eq!(
        parse_client_hello(&hello_with_extensions(&not_text)),
        Err(TlsError::BadServerName)
    );
    let mut over = x25519_share(&key);
    over[2] = 0xff;
    assert_eq!(
        parse_client_hello(&hello_with_extensions(&over)),
        Err(TlsError::LengthMismatch)
    );
    let odd = extension(EXT_SUPPORTED_VERSIONS, &[3, 3, 4, 3]);
    assert_eq!(
        parse_client_hello(&hello_with_extensions(&odd)),
        Err(TlsError::LengthMismatch)
    );

    // Bytes behind the extension block.
    let mut trailing = hello_with_extensions(&x25519_share(&key));
    let n = trailing.len();
    let block = (n - 52 - 2) as u16;
    trailing[52..54].copy_from_slice(&block.to_be_bytes());
    trailing.push(0);
    trailing[3..5].copy_from_slice(&((n + 1 - 5) as u16).to_be_bytes());
    trailing[6..9].copy_from_slice(&((n + 1 - 9) as u32).to_be_bytes()[1..]);
    assert_eq!(parse_client_hello(&trailing), Err(TlsError::TrailingBytes));
}

#[test]
fn first_x25519_share_counts_and_tls13_may_be_missing() {
    let first = [5u8; 32];
    let mut exts = x25519_share(&first);
    exts.extend_from_slice(&x25519_share(&[6u8; 32]));
    let parsed = parse_client_hello(&hello_with_extensions(&exts)).unwrap();
    assert_eq!(parsed.ephemeral_public, first);
    assert_eq!(parsed.random, [9u8; 32]);
    assert_eq!(parsed.sni, None);
    assert!(!parsed.tls13_negotiable);
}

#[test]
fn hosts_without_room_for_padding_are_left_unpadded() {
    for len in [136usize, 137, 138, 139, 140, 200] {
        let host = "a".repeat(len);
        let record = build_client_hello(Some(&host), &[1u8; 32], &[2u8; 32], &[0u8; 32]).unwrap();
        let padded = len <= 137;
        let block = if padded { 503 - len } else { 224 + len };
        assert_eq!(record.len(), 82 + 32 + block);
        let types: Vec<u16> = extensions_of(&record).iter().map(|(t, _)| *t).collect();
        assert_eq!(types.contains(&EXT_PADDING), padded);
        assert_eq!(parse_client_hello(&record).unwrap().sni, Some(host));
    }
}

#[test]
fn hosts_that_no_record_can_declare_are_refused() {
    let build = |len: usize, sid: &[u8]| {
        build_client_hello(Some(&"a".repeat(len)), &[1u8; 32], &[2u8; 32], sid)
    };
    let most = 0xFFFF - 301;
    let record = build(most, &[]).unwrap();
    assert_eq!(record.len(), 5 + 0xFFFF);
    assert_eq!(parse_client_hello(&record).unwrap().sni.unwrap().len(), most);
    assert_eq!(build(most + 1, &[]), Err(TlsError::LengthMismatch));
    assert_eq!(build(most - 31, &[0u8; 32]), Err(TlsError::LengthMismatch));
    assert!(build(most - 32, &[0u8; 32]).is_ok());
    assert_eq!(build(most + 1, &[0u8; 33]), Err(TlsError::ShortIdTooLong));
}

#[test]
fn cut_and_extended_hellos_are_told_apart() {
    let record = build_client_hello(Some("a.example"), &[1u8; 32], &[2u8; 32], &[]).unwrap();
    for cut in 0..record.len() {
        let want = if cut < 5 {
            TlsError::Truncated
        } else {
            TlsError::LengthMismatch
        };
        assert_eq!(parse_client_hello(&record[..cut]), Err(want));
    }
    let mut longer = record.clone();
    longer.push(0);
    assert_eq!(parse_client_hello(&longer), Err(TlsError::LengthMismatch));
}
