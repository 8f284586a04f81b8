//! Byte-level framing: CRC, round trips, corruption, stalling, garbage.

use ppproto::crc::crc16;
use ppproto::frame_reader::FrameReader;
use ppproto::frame_writer::FrameWriter;

/// Encodes one frame carrying `payload` under `asyncmap`.
fn encode(payload: &[u8], asyncmap: u32) -> Vec<u8> {
    let mut w = FrameWriter::new_with_asyncmap(4096, asyncmap);
    w.start().unwrap();
    w.append(payload).unwrap();
    w.finish().unwrap();
    w.get()
}

/// Feeds `bytes` to a fresh reader; returns the decoded frame content (the
/// exposed range) when one completes, and how many bytes were consumed.
fn decode(bytes: &[u8], cap: usize) -> (Option<Vec<u8>>, usize) {
    let mut r = FrameReader::new();
    let mut buf = vec![0u8; cap];
    let n = r.consume(&mut buf, bytes);
    match r.receive() {
        Some(range) => (Some(buf[range].to_vec()), n),
        None => (None, n),
    }
}

#[test]
fn crc16_of_address_byte_is_00ff() {
    // Folding the address byte from the transmit seed gives the receive
    // seed: the two sides agree on the rest of the frame.
    assert_eq!(crc16(0xFFFF, &[0xFF]), 0x00FF);
    assert_eq!(crc16(0x00FF, &[0x03]), crc16(0xFFFF, &[0xFF, 0x03]));
}

#[test]
fn crc16_residue_on_known_vector() {
    // The frame of the minimal LCP Configure-Req: control byte, payload,
    // FCS; folding over all of it lands on the residue.
    let content = [0x03, 0xC0, 0x21, 0x01, 0x01, 0x00, 0x04, 0xD1, 0xB5];
    assert_eq!(crc16(0x00FF, &content), 0xF0B8);
}

#[test]
fn round_trip_simple_payload() {
    let payload = [0xC0, 0x21, 0x01, 0x01, 0x00, 0x04];
    for &map in &[0u32, 0xFFFFFFFF, 0x000A0001] {
        let enc = encode(&payload, map);
        let (frame, n) = decode(&enc, 128);
        assert_eq!(n, enc.len());
        assert_eq!(frame.as_deref(), Some(&payload[..]));
    }
}

#[test]
fn round_trip_all_byte_values() {
    let payload: Vec<u8> = (0u8..=255).collect();
    for &map in &[0u32, 0xFFFFFFFF] {
        let enc = encode(&payload, map);
        let (frame, n) = decode(&enc, 1024);
        assert_eq!(n, enc.len());
        assert_eq!(frame.as_deref(), Some(&payload[..]));
    }
}

#[test]
fn round_trip_empty_payload() {
    let enc = encode(&[], 0xFFFFFFFF);
    let (frame, n) = decode(&enc, 64);
    assert_eq!(n, enc.len());
    assert_eq!(frame.as_deref(), Some(&[][..]));
}

#[test]
fn single_byte_corruption_is_dropped() {
    let payload = [0xC0, 0x21, 0x01, 0x01, 0x00, 0x04];
    let enc = encode(&payload, 0xFFFFFFFF);
    // Flip one bit in every non-flag position; the decoder must never
    // complete a frame.
    for i in 1..enc.len() - 1 {
        let mut bad = enc.clone();
        bad[i] ^= 0x01;
        let (frame, n) = decode(&bad, 128);
        assert_eq!(n, bad.len());
        assert_eq!(frame, None, "corrupted byte {} was accepted", i);
    }
}

#[test]
fn reader_stalls_after_complete_frame() {
    let payload = [0xC0, 0x21, 0x01, 0x01, 0x00, 0x04];
    let enc = encode(&payload, 0xFFFFFFFF);
    let mut more = enc.clone();
    more.extend_from_slice(&[0x55, 0x66, 0x77]);
    let mut r = FrameReader::new();
    let mut buf = vec![0u8; 128];
    // The first consume stops exactly at the end of the frame.
    let n = r.consume(&mut buf, &more);
    assert_eq!(n, enc.len());
    assert!(n < more.len());
    // Until the frame is drained, not a single further byte is accepted.
    let n2 = r.consume(&mut buf, &more[n..]);
    assert_eq!(n2, 0);
    let range = r.receive().unwrap();
    assert_eq!(&buf[range], &payload[..]);
    // Afterwards consumption resumes.
    let n3 = r.consume(&mut buf, &more[n..]);
    assert_eq!(n3, more.len() - n);
}

#[test]
fn garbage_before_first_flag_is_discarded() {
    let payload = [0xC0, 0x21, 0x01, 0x01, 0x00, 0x04];
    let enc = encode(&payload, 0xFFFFFFFF);
    let mut stream = vec![0x00, 0x55, 0xAA, 0x13, 0x42];
    stream.extend_from_slice(&enc);
    let (frame, n) = decode(&stream, 128);
    assert_eq!(n, stream.len());
    assert_eq!(frame.as_deref(), Some(&payload[..]));
}

#[test]
fn garbage_alone_yields_no_frame() {
    let (frame, n) = decode(&[0x01, 0x02, 0x55, 0xAA, 0x10, 0x33], 128);
    assert_eq!(n, 6);
    assert_eq!(frame, None);
}

#[test]
fn escaping_follows_asyncmap() {
    // Under an all-set map every control byte is stuffed.
    let enc = encode(&[0x00, 0x11, 0x1F], 0xFFFFFFFF);
    let body = &enc[2..enc.len() - 1];
    assert!(body.starts_with(&[0x7D, 0x23])); // control byte 0x03 stuffed
    assert!(body[2..].starts_with(&[0x7D, 0x20, 0x7D, 0x31, 0x7D, 0x3F]));
    // Under a clear map the same bytes travel literally.
    let enc0 = encode(&[0x00, 0x11, 0x1F], 0);
    let body0 = &enc0[2..enc0.len() - 1];
    assert!(body0.starts_with(&[0x03, 0x00, 0x11, 0x1F]));
    // The flag and escape bytes are stuffed under any map.
    let enc1 = encode(&[0x7E, 0x7D], 0);
    let body1 = &enc1[2..enc1.len() - 1];
    assert!(body1.starts_with(&[0x03, 0x7D, 0x5E, 0x7D, 0x5D]));
}

#[test]
fn writer_reports_full_buffer() {
    let mut w = FrameWriter::new(4);
    assert!(w.start().is_ok()); // 7E FF 7D 23 fills all four bytes
    assert!(w.finish().is_err());
    let mut w2 = FrameWriter::new(2);
    assert!(w2.start().is_err());
}

#[test]
fn two_frames_back_to_back() {
    let mut w = FrameWriter::new(4096);
    w.start().unwrap();
    w.append(&[0xAA, 0xBB]).unwrap();
    w.finish().unwrap();
    w.start().unwrap();
    w.append(&[0xCC]).unwrap();
    w.finish().unwrap();
    let bytes = w.get();
    let mut r = FrameReader::new();
    let mut buf = vec![0u8; 128];
    let n1 = r.consume(&mut buf, &bytes);
    let range1 = r.receive().unwrap();
    assert_eq!(&buf[range1], &[0xAA, 0xBB]);
    let n2 = r.consume(&mut buf, &bytes[n1..]);
    assert_eq!(n1 + n2, bytes.len());
    let range2 = r.receive().unwrap();
    assert_eq!(&buf[range2], &[0xCC]);
}
