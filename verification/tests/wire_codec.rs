//! The wire model: TLV options, packet emission, verdict folding, and the
//! control packet builder.

use ppproto::frame_reader::FrameReader;
use ppproto::frame_writer::FrameWriter;
use ppproto::option_fsm::{build_response, Verdict};
use ppproto::packet_writer::PacketWriter;
use ppproto::wire::{
    parse_options, Code, OptionVal, Options, PPPPayload, Packet, Payload, ProtocolType,
};

#[test]
fn protocol_and_code_round_trip() {
    for v in [0x0000u16, 0xC021, 0xC023, 0x0021, 0x8021, 0x8057] {
        let p = ProtocolType::from_u16(v);
        if v == 0x8057 || v == 0 {
            assert_eq!(p, ProtocolType::Unknown);
        } else {
            assert_eq!(p.to_u16(), v);
        }
    }
    for v in 1u8..=11 {
        assert_eq!(Code::from_u8(v).to_u8(), v);
    }
    assert_eq!(Code::from_u8(0), Code::Unknown);
    assert_eq!(Code::from_u8(12), Code::Unknown);
}

#[test]
fn option_emits_tlv() {
    let o = OptionVal::new(2, &[0x00, 0x0A, 0x00, 0x00]);
    assert_eq!(o.buffer_len(), 6);
    let mut buf = Vec::new();
    o.emit(&mut buf);
    assert_eq!(buf, vec![0x02, 0x06, 0x00, 0x0A, 0x00, 0x00]);
}

#[test]
fn options_emit_in_insertion_order() {
    let opts = Options(vec![OptionVal::new(3, &[1, 2, 3, 4]), OptionVal::new(129, &[9, 9, 9, 9])]);
    assert_eq!(opts.buffer_len(), 12);
    let mut buf = Vec::new();
    opts.emit(&mut buf);
    assert_eq!(buf, vec![0x03, 0x06, 1, 2, 3, 4, 0x81, 0x06, 9, 9, 9, 9]);
}

#[test]
fn packet_emit_matches_wire_layout() {
    let pkt = Packet {
        proto: ProtocolType::LCP,
        payload: Payload::PPP(
            Code::ConfigureReq,
            0x2A,
            PPPPayload::Options(Options(vec![OptionVal::new(2, &[0, 0, 0, 0])])),
        ),
    };
    assert_eq!(pkt.buffer_len(), 12);
    let mut buf = Vec::new();
    pkt.emit(&mut buf);
    assert_eq!(
        buf,
        vec![0xC0, 0x21, 0x01, 0x2A, 0x00, 0x0A, 0x02, 0x06, 0x00, 0x00, 0x00, 0x00]
    );
}

#[test]
fn pap_payload_emit() {
    let pkt = Packet {
        proto: ProtocolType::PAP,
        payload: Payload::PPP(
            Code::ConfigureReq,
            1,
            PPPPayload::PAP(b"user".to_vec(), b"pw".to_vec()),
        ),
    };
    let mut buf = Vec::new();
    pkt.emit(&mut buf);
    assert_eq!(
        buf,
        vec![0xC0, 0x23, 0x01, 0x01, 0x00, 0x0C, 4, b'u', b's', b'e', b'r', 2, b'p', b'w']
    );
}

#[test]
fn parse_options_reads_in_order() {
    let stream = [0x02, 0x06, 0, 0, 0, 0, 0x03, 0x04, 0xC0, 0x23];
    let opts = parse_options(&stream).unwrap();
    assert_eq!(opts.len(), 2);
    assert_eq!(opts[0].code, 2);
    assert_eq!(opts[0].data, vec![0, 0, 0, 0]);
    assert_eq!(opts[1].code, 3);
    assert_eq!(opts[1].data, vec![0xC0, 0x23]);
}

#[test]
fn parse_options_empty_stream() {
    assert_eq!(parse_options(&[]).unwrap(), Vec::new());
}

#[test]
fn parse_options_rejects_truncation() {
    assert!(parse_options(&[0x02]).is_err());
    assert!(parse_options(&[0x02, 0x06, 0, 0]).is_err());
    assert!(parse_options(&[0x02, 0x01, 0x05]).is_err()); // length below header
}

#[test]
fn verdict_precedence_rej_wins() {
    // Every arrangement of {Ack, Nack, Rej} answers with a Reject carrying
    // only the rejected option.
    let opts = vec![
        OptionVal::new(1, &[7]),
        OptionVal::new(2, &[8]),
        OptionVal::new(3, &[9]),
    ];
    let orders: [[usize; 3]; 6] =
        [[0, 1, 2], [0, 2, 1], [1, 0, 2], [1, 2, 0], [2, 0, 1], [2, 1, 0]];
    for order in orders {
        let mut vs = vec![Verdict::Ack, Verdict::Ack, Verdict::Ack];
        vs[order[0]] = Verdict::Ack;
        vs[order[1]] = Verdict::Nack(vec![0x55]);
        vs[order[2]] = Verdict::Rej;
        let (code, kept) = build_response(&opts, &vs);
        assert_eq!(code, Code::ConfigureRej);
        assert_eq!(kept.len(), 1);
        assert_eq!(kept[0].code, opts[order[2]].code);
        assert_eq!(kept[0].data, opts[order[2]].data);
    }
}

#[test]
fn verdict_precedence_nack_over_ack() {
    let opts = vec![OptionVal::new(1, &[7]), OptionVal::new(2, &[8])];
    let vs = vec![Verdict::Ack, Verdict::Nack(vec![0xAA, 0xBB])];
    let (code, kept) = build_response(&opts, &vs);
    assert_eq!(code, Code::ConfigureNack);
    // A nacked option carries the suggested bytes, not the received ones.
    assert_eq!(kept.len(), 1);
    assert_eq!(kept[0].code, 2);
    assert_eq!(kept[0].data, vec![0xAA, 0xBB]);
}

#[test]
fn verdict_precedence_all_acks() {
    let opts = vec![OptionVal::new(1, &[7]), OptionVal::new(2, &[8])];
    let vs = vec![Verdict::Ack, Verdict::Ack];
    let (code, kept) = build_response(&opts, &vs);
    assert_eq!(code, Code::ConfigureAck);
    assert_eq!(kept.len(), 2);
    assert_eq!(kept[0].code, 1);
    assert_eq!(kept[1].code, 2);
}

#[test]
fn packet_writer_builds_and_frames() {
    let mut p = PacketWriter::new();
    p.append_option(2, &[0, 0, 0, 0]).unwrap();
    assert_eq!(p.get_buf(), &[0x02, 0x06, 0, 0, 0, 0]);
    let mut w = FrameWriter::new(4096);
    p.write(&mut w, ProtocolType::LCP, Code::ConfigureReq, 7).unwrap();
    let bytes = w.get();
    // Decode the frame back and check the control packet layout.
    let mut r = FrameReader::new();
    let mut buf = vec![0u8; 128];
    assert_eq!(r.consume(&mut buf, &bytes), bytes.len());
    let range = r.receive().unwrap();
    assert_eq!(
        &buf[range],
        &[0xC0, 0x21, 0x01, 0x07, 0x00, 0x0A, 0x02, 0x06, 0, 0, 0, 0]
    );
}

#[test]
fn packet_writer_reset_and_overflow() {
    let mut p = PacketWriter::new();
    p.append(&[0u8; 200]).unwrap();
    assert!(p.append(&[0u8; 100]).is_err());
    assert_eq!(p.get_buf().len(), 200);
    p.reset();
    assert_eq!(p.get_buf(), &[] as &[u8]);
    p.append(&[1, 2, 3]).unwrap();
    assert_eq!(p.get_buf(), &[1, 2, 3]);
}
