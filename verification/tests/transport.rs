//! Length-prefixed frames.

use shadevpn_native::transport::{
    frame_payload, frame_prefix, read_frame, write_frame, FrameCursor, FrameError, PrefixRead,
    MAX_FRAME_LEN,
};

#[test]
fn frame_round_trips_in_memory() {
    let mut buf = Vec::new();
    write_frame(&mut buf, b"hello world").unwrap();
    write_frame(&mut buf, b"").unwrap();
    let mut cursor = FrameCursor::new(buf);
    assert_eq!(
        read_frame(&mut cursor).unwrap(),
        Some(b"hello world".to_vec())
    );
    assert_eq!(read_frame(&mut cursor).unwrap(), Some(Vec::new()));
    assert_eq!(read_frame(&mut cursor).unwrap(), None);
}

#[test]
fn oversized_frame_length_is_rejected_on_read() {
    let mut buf = Vec::new();
    buf.extend_from_slice(&(MAX_FRAME_LEN + 1).to_be_bytes());
    let mut cursor = FrameCursor::new(buf);
    assert!(matches!(
        read_frame(&mut cursor),
        Err(FrameError::TooLarge(_))
    ));
}

#[test]
fn oversized_payload_is_rejected_on_write() {
    let mut sink = Vec::new();
    let big = vec![0u8; MAX_FRAME_LEN as usize + 1];
    assert!(matches!(
        write_frame(&mut sink, &big),
        Err(FrameError::TooLarge(_))
    ));
}

#[test]
fn clean_eof_at_boundary_is_none() {
    let mut cursor = FrameCursor::new(Vec::<u8>::new());
    assert_eq!(read_frame(&mut cursor).unwrap(), None);
}

#[test]
fn truncated_payload_is_detected() {
    let mut buf = Vec::new();
    buf.extend_from_slice(&100u32.to_be_bytes());
    buf.extend_from_slice(b"short");
    let mut cursor = FrameCursor::new(buf);
    assert!(matches!(
        read_frame(&mut cursor),
        Err(FrameError::ClosedMidFrame)
    ));
}

#[test]
fn frame_bytes_are_exact() {
    let mut out = vec![0xee];
    write_frame(&mut out, &[1, 2, 3]).unwrap();
    assert_eq!(out, vec![0xee, 0, 0, 0, 3, 1, 2, 3]);
    let mut out = Vec::new();
    write_frame(&mut out, &vec![0u8; MAX_FRAME_LEN as usize]).unwrap();
    assert_eq!(&out[..4], &[0x00, 0x01, 0x11, 0x70]);
    // A refused payload writes nothing.
    let mut out = Vec::new();
    assert_eq!(
        write_frame(&mut out, &vec![0u8; 70_001]),
        Err(FrameError::TooLarge(70_001))
    );
    assert!(out.is_empty());
}

#[test]
fn many_frames_read_back_in_order() {
    let payloads: Vec<Vec<u8>> = (0..20usize).map(|n| vec![n as u8; n * 137]).collect();
    let mut wire = Vec::new();
    for p in &payloads {
        write_frame(&mut wire, p).unwrap();
    }
    let mut cursor = FrameCursor::new(wire);
    for p in &payloads {
        assert_eq!(read_frame(&mut cursor).unwrap().as_ref(), Some(p));
    }
    assert_eq!(read_frame(&mut cursor).unwrap(), None);
}

#[test]
fn a_cut_anywhere_inside_a_frame_is_detected() {
    let mut wire = Vec::new();
    write_frame(&mut wire, b"payload").unwrap();
    for cut in 1..wire.len() {
        let mut cursor = FrameCursor::new(wire[..cut].to_vec());
        assert_eq!(read_frame(&mut cursor), Err(FrameError::ClosedMidFrame), "cut at {cut}");
    }
}

#[test]
fn prefixes_and_payloads_are_judged_step_by_step() {
    assert_eq!(frame_prefix(PrefixRead::Failed), Err(FrameError::Io));
    assert_eq!(frame_prefix(PrefixRead::Ended(0)), Ok(None));
    assert_eq!(frame_prefix(PrefixRead::Ended(3)), Err(FrameError::ClosedMidFrame));
    assert_eq!(frame_prefix(PrefixRead::Complete([0, 0, 1, 2])), Ok(Some(258)));
    assert_eq!(
        frame_prefix(PrefixRead::Complete([0xff; 4])),
        Err(FrameError::TooLarge(u32::MAX))
    );
    assert_eq!(frame_payload(3, vec![1, 2]), Err(FrameError::ClosedMidFrame));
    assert_eq!(frame_payload(3, vec![1, 2, 3]), Ok(vec![1, 2, 3]));
}
