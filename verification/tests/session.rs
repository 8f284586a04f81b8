//! End-to-end sessions over the PPPoS facade, driven with literal frames.

use ppproto::frame_reader::FrameReader;
use ppproto::frame_writer::FrameWriter;
use ppproto::ppp::{Config, Phase};
use ppproto::pppos::{PPPoS, PPPoSAction};

fn config() -> Config {
    Config { username: b"user".to_vec(), password: b"pass".to_vec() }
}

fn connection() -> PPPoS {
    let mut ppp = PPPoS::new(config());
    ppp.put_rx_buf(vec![0u8; 2048]);
    ppp
}

/// Frames `payload` as the peer would before sending it to us.
fn peer_frame(payload: &[u8]) -> Vec<u8> {
    let mut w = FrameWriter::new(4096);
    w.start().unwrap();
    w.append(payload).unwrap();
    w.finish().unwrap();
    w.get()
}

/// Feeds a byte stream fully, polling between stalls; every frame content
/// we transmit in response is appended to `tx_log`.
fn feed(ppp: &mut PPPoS, stream: &[u8], tx_log: &mut Vec<Vec<u8>>) {
    let mut data = stream;
    loop {
        let n = ppp.consume(data);
        data = &data[n..];
        let mut tx = Vec::new();
        match ppp.poll(&mut tx) {
            PPPoSAction::Transmit(n) => {
                tx_log.extend(decode_all(&tx[..n]));
            },
            PPPoSAction::Idle => {},
            PPPoSAction::Received(..) => panic!("unexpected IPv4 packet"),
        }
        if data.is_empty() {
            break;
        }
    }
}

/// Splits a transmitted byte stream back into frame contents.
fn decode_all(mut bytes: &[u8]) -> Vec<Vec<u8>> {
    let mut r = FrameReader::new();
    let mut buf = vec![0u8; 4096];
    let mut frames = Vec::new();
    while !bytes.is_empty() {
        let n = r.consume(&mut buf, bytes);
        bytes = &bytes[n..];
        if let Some(range) = r.receive() {
            frames.push(buf[range].to_vec());
        } else {
            assert!(bytes.is_empty(), "undecodable transmitted bytes");
        }
    }
    frames
}

#[test]
fn open_only_from_dead() {
    let mut ppp = connection();
    assert_eq!(ppp.status().phase, Phase::Dead);
    ppp.open().unwrap();
    assert_eq!(ppp.status().phase, Phase::Establish);
    assert!(ppp.open().is_err());
}

#[test]
fn decode_minimal_lcp_configure_req() {
    // The literal on-wire frame of an empty LCP Configure-Req.
    let wire = [0x7E, 0xFF, 0x03, 0xC0, 0x21, 0x01, 0x01, 0x00, 0x04, 0xD1, 0xB5, 0x7E];
    // Decoded alone, it exposes exactly the PPP packet.
    let mut r = FrameReader::new();
    let mut buf = vec![0u8; 128];
    assert_eq!(r.consume(&mut buf, &wire), wire.len());
    let range = r.receive().unwrap();
    assert_eq!(&buf[range], &[0xC0, 0x21, 0x01, 0x01, 0x00, 0x04]);
    // Through the facade it is control traffic: no IPv4 packet surfaces.
    let mut ppp = connection();
    assert_eq!(ppp.consume(&wire), wire.len());
    let mut tx = Vec::new();
    match ppp.poll(&mut tx) {
        PPPoSAction::Received(..) => panic!("an LCP frame is not an IPv4 packet"),
        _ => {},
    }
}

#[test]
fn full_no_auth_bring_up() {
    let mut ppp = connection();
    ppp.open().unwrap();
    let mut phases = vec![ppp.status().phase];
    let mut log = Vec::new();

    // First poll sends our LCP Configure-Req (asyncmap 0), id 2.
    let mut tx = Vec::new();
    match ppp.poll(&mut tx) {
        PPPoSAction::Transmit(n) => {
            let frames = decode_all(&tx[..n]);
            assert_eq!(
                frames,
                vec![vec![0xC0, 0x21, 0x01, 0x02, 0x00, 0x0A, 0x02, 0x06, 0, 0, 0, 0]]
            );
        },
        _ => panic!("expected our Configure-Req"),
    }
    phases.push(ppp.status().phase);

    // Peer requests nothing: we Ack it.
    feed(&mut ppp, &peer_frame(&[0xC0, 0x21, 0x01, 0x01, 0x00, 0x04]), &mut log);
    assert_eq!(log.last().unwrap(), &vec![0xC0, 0x21, 0x02, 0x01, 0x00, 0x04]);
    phases.push(ppp.status().phase);

    // Peer acks our request: LCP opens, no auth, so IPv4CP starts and the
    // phase reaches Network.
    feed(
        &mut ppp,
        &peer_frame(&[0xC0, 0x21, 0x02, 0x02, 0x00, 0x0A, 0x02, 0x06, 0, 0, 0, 0]),
        &mut log,
    );
    assert_eq!(ppp.status().phase, Phase::Network);
    // Our IPv4CP request asks for address and both DNS servers.
    assert_eq!(
        log.last().unwrap(),
        &vec![
            0x80, 0x21, 0x01, 0x02, 0x00, 0x16, 0x03, 0x06, 0, 0, 0, 0, 0x81, 0x06, 0, 0, 0, 0,
            0x83, 0x06, 0, 0, 0, 0
        ]
    );
    phases.push(ppp.status().phase);

    // Peer assigns us 10.0.0.2 by nacking: we adopt it and re-request.
    feed(
        &mut ppp,
        &peer_frame(&[0x80, 0x21, 0x03, 0x02, 0x00, 0x0A, 0x03, 0x06, 10, 0, 0, 2]),
        &mut log,
    );
    assert_eq!(
        log.last().unwrap(),
        &vec![
            0x80, 0x21, 0x01, 0x03, 0x00, 0x16, 0x03, 0x06, 10, 0, 0, 2, 0x81, 0x06, 0, 0, 0, 0,
            0x83, 0x06, 0, 0, 0, 0
        ]
    );
    phases.push(ppp.status().phase);

    // Peer acks our renewed request and sends its own, which we ack:
    // IPv4CP opens and the phase reaches Open.
    feed(
        &mut ppp,
        &peer_frame(&[
            0x80, 0x21, 0x02, 0x03, 0x00, 0x16, 0x03, 0x06, 10, 0, 0, 2, 0x81, 0x06, 0, 0, 0, 0,
            0x83, 0x06, 0, 0, 0, 0,
        ]),
        &mut log,
    );
    feed(
        &mut ppp,
        &peer_frame(&[0x80, 0x21, 0x01, 0x01, 0x00, 0x0A, 0x03, 0x06, 10, 0, 0, 1]),
        &mut log,
    );
    assert_eq!(ppp.status().phase, Phase::Open);
    phases.push(ppp.status().phase);

    let st = ppp.status().ipv4.unwrap();
    assert_eq!(st.address.unwrap().octets(), [10, 0, 0, 2]);
    assert_eq!(st.peer_address.unwrap().octets(), [10, 0, 0, 1]);
    assert_eq!(st.dns_servers[0], None);
    assert_eq!(st.dns_servers[1], None);

    // Observed phases never move backwards during bring-up.
    for w in phases.windows(2) {
        assert!(w[0] <= w[1]);
    }
}

#[test]
fn pap_path_reaches_network() {
    let mut ppp = connection();
    ppp.open().unwrap();
    let mut tx = Vec::new();
    ppp.poll(&mut tx); // our LCP Configure-Req
    let mut log = Vec::new();

    // Peer demands PAP: we ack its request.
    feed(
        &mut ppp,
        &peer_frame(&[0xC0, 0x21, 0x01, 0x01, 0x00, 0x08, 0x03, 0x04, 0xC0, 0x23]),
        &mut log,
    );
    assert_eq!(
        log.last().unwrap(),
        &vec![0xC0, 0x21, 0x02, 0x01, 0x00, 0x08, 0x03, 0x04, 0xC0, 0x23]
    );
    // Peer acks ours: LCP opens and we send the Authenticate-Request.
    feed(
        &mut ppp,
        &peer_frame(&[0xC0, 0x21, 0x02, 0x02, 0x00, 0x0A, 0x02, 0x06, 0, 0, 0, 0]),
        &mut log,
    );
    assert_eq!(ppp.status().phase, Phase::Auth);
    assert_eq!(
        log.last().unwrap(),
        &vec![
            0xC0, 0x23, 0x01, 0x02, 0x00, 0x0E, 4, b'u', b's', b'e', b'r', 4, b'p', b'a', b's',
            b's'
        ]
    );
    // Peer accepts the credentials: the phase advances to Network.
    feed(&mut ppp, &peer_frame(&[0xC0, 0x23, 0x02, 0x02, 0x00, 0x04]), &mut log);
    assert_eq!(ppp.status().phase, Phase::Network);
}

#[test]
fn unknown_protocol_draws_protocol_reject() {
    let mut ppp = connection();
    ppp.open().unwrap();
    let mut tx = Vec::new();
    ppp.poll(&mut tx); // our LCP Configure-Req, id 2
    let phase_before = ppp.status().phase;

    let mut log = Vec::new();
    feed(&mut ppp, &peer_frame(&[0x80, 0x57, 0x01, 0x01, 0x00, 0x04]), &mut log);
    // An LCP Protocol-Reject wrapping the original packet, under the next
    // LCP identifier.
    assert_eq!(
        log.last().unwrap(),
        &vec![0xC0, 0x21, 0x08, 0x03, 0x00, 0x0A, 0x80, 0x57, 0x01, 0x01, 0x00, 0x04]
    );
    assert_eq!(ppp.status().phase, phase_before);
}

#[test]
fn echo_request_is_echoed_with_code_flipped() {
    let mut ppp = connection();
    ppp.open().unwrap();
    let mut tx = Vec::new();
    ppp.poll(&mut tx);
    let mut log = Vec::new();
    // Bring LCP to Opened.
    feed(&mut ppp, &peer_frame(&[0xC0, 0x21, 0x01, 0x01, 0x00, 0x04]), &mut log);
    feed(&mut ppp, &peer_frame(&[0xC0, 0x21, 0x02, 0x02, 0x00, 0x0A, 0x02, 0x06, 0, 0, 0, 0]), &mut log);
    // Echo-Request: identical reply but for the code byte.
    feed(
        &mut ppp,
        &peer_frame(&[0xC0, 0x21, 0x09, 0x07, 0x00, 0x08, 0x11, 0x22, 0x33, 0x44]),
        &mut log,
    );
    assert_eq!(
        log.last().unwrap(),
        &vec![0xC0, 0x21, 0x0A, 0x07, 0x00, 0x08, 0x11, 0x22, 0x33, 0x44]
    );
}

#[test]
fn garbage_before_frames_is_tolerated() {
    let mut ppp = connection();
    ppp.open().unwrap();
    let mut tx = Vec::new();
    ppp.poll(&mut tx);
    let mut log = Vec::new();
    let mut stream = vec![0x13, 0x55, 0xAA, 0x00, 0x42];
    stream.extend_from_slice(&peer_frame(&[0xC0, 0x21, 0x01, 0x01, 0x00, 0x04]));
    feed(&mut ppp, &stream, &mut log);
    // Exactly one response: the Ack to the one real frame.
    assert_eq!(log, vec![vec![0xC0, 0x21, 0x02, 0x01, 0x00, 0x04]]);
}

#[test]
fn ipv4_packet_is_surfaced_with_buffer() {
    let mut ppp = connection();
    ppp.open().unwrap();
    let ip_pkt = [0x45, 0x00, 0x00, 0x04, 0xDE, 0xAD, 0xBE, 0xEF];
    let mut payload = vec![0x00, 0x21];
    payload.extend_from_slice(&ip_pkt);
    assert_eq!(ppp.has_rx_buf(), true);
    let frame = peer_frame(&payload);
    assert_eq!(ppp.consume(&frame), frame.len());
    let mut tx = Vec::new();
    match ppp.poll(&mut tx) {
        PPPoSAction::Received(buf, range) => {
            assert_eq!(&buf[range], &ip_pkt);
        },
        _ => panic!("expected a surfaced IPv4 packet"),
    }
    // The buffer was handed back to us; returning it resumes reception.
    assert_eq!(ppp.has_rx_buf(), false);
    ppp.put_rx_buf(vec![0u8; 2048]);
    assert_eq!(ppp.has_rx_buf(), true);
}

#[test]
fn send_escapes_by_negotiated_asyncmap() {
    let mut ppp = connection();
    ppp.open().unwrap();
    let ip_pkt = [0x00, 0x1F, 0x7D, 0x7E, 0x45];
    // Before negotiation the remote asyncmap is all ones: every control
    // byte is stuffed.
    let mut tx = vec![0u8; 256];
    let n = ppp.send(&ip_pkt, &mut tx).unwrap();
    let body = &tx[..n];
    let expected_conservative = [
        0x7E, 0xFF, 0x7D, 0x23, 0x7D, 0x20, 0x21, 0x7D, 0x20, 0x7D, 0x3F, 0x7D, 0x5D, 0x7D, 0x5E,
        0x45,
    ];
    assert_eq!(&body[..expected_conservative.len()], &expected_conservative);
    // The peer negotiates a zero asyncmap; control bytes then travel
    // literally, while the flag and escape bytes stay stuffed.
    let mut log = Vec::new();
    let mut txp = Vec::new();
    ppp.poll(&mut txp);
    feed(
        &mut ppp,
        &peer_frame(&[0xC0, 0x21, 0x01, 0x01, 0x00, 0x0A, 0x02, 0x06, 0, 0, 0, 0]),
        &mut log,
    );
    let mut tx2 = vec![0u8; 256];
    let n2 = ppp.send(&ip_pkt, &mut tx2).unwrap();
    let body2 = &tx2[..n2];
    let expected_literal =
        [0x7E, 0xFF, 0x03, 0x00, 0x21, 0x00, 0x1F, 0x7D, 0x5D, 0x7D, 0x5E, 0x45];
    assert_eq!(&body2[..expected_literal.len()], &expected_literal);
}

#[test]
fn send_reports_buffer_full() {
    let mut ppp = connection();
    let mut tiny = vec![0u8; 4];
    assert!(ppp.send(&[1, 2, 3, 4, 5, 6, 7, 8], &mut tiny).is_err());
    assert_eq!(tiny, vec![0u8; 4]);
    let mut big = vec![0u8; 256];
    assert!(ppp.send(&[1, 2, 3], &mut big).is_ok());
}

#[test]
fn lcp_termination_regresses_to_dead_and_allows_reopen() {
    let mut ppp = connection();
    ppp.open().unwrap();
    let mut tx = Vec::new();
    ppp.poll(&mut tx);
    let mut log = Vec::new();
    // Bring LCP to Opened.
    feed(&mut ppp, &peer_frame(&[0xC0, 0x21, 0x01, 0x01, 0x00, 0x04]), &mut log);
    feed(&mut ppp, &peer_frame(&[0xC0, 0x21, 0x02, 0x02, 0x00, 0x0A, 0x02, 0x06, 0, 0, 0, 0]), &mut log);
    assert_eq!(ppp.status().phase, Phase::Network);
    // The peer terminates the link: we ack and fall back to Dead.
    feed(&mut ppp, &peer_frame(&[0xC0, 0x21, 0x05, 0x09, 0x00, 0x04]), &mut log);
    assert_eq!(log.last().unwrap(), &vec![0xC0, 0x21, 0x06, 0x09, 0x00, 0x04]);
    assert_eq!(ppp.status().phase, Phase::Dead);
    // A dead session can be opened again.
    ppp.open().unwrap();
    assert_eq!(ppp.status().phase, Phase::Establish);
    let mut tx2 = Vec::new();
    match ppp.poll(&mut tx2) {
        PPPoSAction::Transmit(n) => {
            let frames = decode_all(&tx2[..n]);
            assert_eq!(frames.len(), 1);
            // A fresh Configure-Req under the next identifier.
            assert_eq!(frames[0][2], 0x01);
        },
        _ => panic!("expected a fresh Configure-Req"),
    }
}

#[test]
fn maximum_size_ipv4_packet_is_surfaced() {
    let mut ppp = PPPoS::new(config());
    ppp.put_rx_buf(vec![0u8; 70000]);
    ppp.open().unwrap();
    // An IPv4 datagram near the 16-bit maximum still surfaces whole.
    let mut payload = vec![0x00u8, 0x21];
    let ip_pkt: Vec<u8> = (0..65535u32).map(|i| (i % 251) as u8).collect();
    payload.extend_from_slice(&ip_pkt);
    let mut w = FrameWriter::new(200000);
    w.start().unwrap();
    w.append(&payload).unwrap();
    w.finish().unwrap();
    let frame = w.get();
    let mut data = &frame[..];
    loop {
        let n = ppp.consume(data);
        data = &data[n..];
        if data.is_empty() {
            break;
        }
        let mut tx = Vec::new();
        assert!(matches!(ppp.poll(&mut tx), PPPoSAction::Idle));
    }
    let mut tx = Vec::new();
    match ppp.poll(&mut tx) {
        PPPoSAction::Received(buf, range) => {
            assert_eq!(&buf[range], &ip_pkt[..]);
        },
        _ => panic!("expected the large IPv4 packet"),
    }
}

#[test]
fn oversized_control_frame_is_dropped() {
    let mut ppp = PPPoS::new(config());
    ppp.put_rx_buf(vec![0u8; 70000]);
    ppp.open().unwrap();
    let mut tx = Vec::new();
    ppp.poll(&mut tx); // our LCP Configure-Req
    // A control frame too large for any control packet's length field is
    // dropped without a response or a state change.
    let mut payload = vec![0xC0u8, 0x21, 0x01, 0x01, 0x00, 0x04];
    payload.resize(66000, 0xAA);
    let mut w = FrameWriter::new(200000);
    w.start().unwrap();
    w.append(&payload).unwrap();
    w.finish().unwrap();
    let frame = w.get();
    let mut data = &frame[..];
    loop {
        let n = ppp.consume(data);
        data = &data[n..];
        let mut tx2 = Vec::new();
        assert!(matches!(ppp.poll(&mut tx2), PPPoSAction::Idle));
        if data.is_empty() {
            break;
        }
    }
    assert_eq!(ppp.status().phase, Phase::Establish);
}
