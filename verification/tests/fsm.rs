//! The option negotiation automaton against the RFC 1661 table, and PAP.

use ppproto::ipv4cp::IPv4CP;
use ppproto::lcp::{AuthType, LCP};
use ppproto::option_fsm::{OptionFsm, State};
use ppproto::pap;
use ppproto::wire::{Code, PPPPayload, Packet, Payload};

/// The code/id/body triple of an emitted control packet.
fn header_of(p: &Packet) -> (Code, u8) {
    match &p.payload {
        Payload::PPP(code, id, _) => (*code, *id),
        Payload::Raw(_) => panic!("raw payload where a control packet was expected"),
    }
}

/// The option list of an emitted control packet.
fn options_of(p: &Packet) -> Vec<(u8, Vec<u8>)> {
    match &p.payload {
        Payload::PPP(_, _, PPPPayload::Options(o)) => {
            o.0.iter().map(|v| (v.code, v.data.clone())).collect()
        },
        _ => panic!("no options where options were expected"),
    }
}

/// An LCP control packet as the automaton receives it: protocol field,
/// code, identifier, derived length, body.
fn lcp_pkt(code: u8, id: u8, body: &[u8]) -> Vec<u8> {
    let len = (body.len() + 4) as u16;
    let mut v = vec![0xC0, 0x21, code, id, (len >> 8) as u8, len as u8];
    v.extend_from_slice(body);
    v
}

#[test]
fn open_moves_closed_to_req_sent() {
    let mut fsm = OptionFsm::new(LCP::new());
    assert_eq!(fsm.state(), State::Closed);
    let req = fsm.open();
    assert_eq!(fsm.state(), State::ReqSent);
    let (code, id) = header_of(&req);
    assert_eq!(code, Code::ConfigureReq);
    assert_eq!(id, 2);
    assert_eq!(options_of(&req), vec![(2, vec![0, 0, 0, 0])]);
}

#[test]
fn acceptable_req_then_ack_opens_whatever_the_ids() {
    let mut fsm = OptionFsm::new(LCP::new());
    fsm.open();
    // Peer request with an acceptable asyncmap option, under an arbitrary
    // identifier.
    let out = fsm.handle(&lcp_pkt(1, 0xF0, &[0x02, 0x06, 0, 0, 0, 1]));
    assert_eq!(fsm.state(), State::AckSent);
    assert_eq!(out.len(), 1);
    let (code, id) = header_of(&out[0]);
    assert_eq!(code, Code::ConfigureAck);
    assert_eq!(id, 0xF0);
    assert_eq!(fsm.proto().asyncmap_remote, 1);
    // The peer acknowledges our request: the protocol opens.
    let out = fsm.handle(&lcp_pkt(2, 0x2A, &[]));
    assert_eq!(fsm.state(), State::Opened);
    assert!(out.is_empty());
}

#[test]
fn ids_wrap_through_zero_without_collision() {
    let mut fsm = OptionFsm::new(LCP::new());
    let mut ids = Vec::new();
    for _ in 0..256 {
        let req = fsm.open();
        ids.push(header_of(&req).1);
        fsm.close();
    }
    // 256 requests use all 256 identifiers exactly once...
    let mut seen = [false; 256];
    for &id in &ids {
        assert!(!seen[id as usize], "identifier {} repeated", id);
        seen[id as usize] = true;
    }
    assert!(ids.contains(&0));
    // ... and the 257th is the first one again.
    let req = fsm.open();
    assert_eq!(header_of(&req).1, ids[0]);
}

#[test]
fn echo_request_in_opened_is_answered_verbatim() {
    let mut fsm = OptionFsm::new(LCP::new());
    fsm.open();
    fsm.handle(&lcp_pkt(1, 1, &[]));
    fsm.handle(&lcp_pkt(2, 2, &[]));
    assert_eq!(fsm.state(), State::Opened);
    let out = fsm.handle(&lcp_pkt(9, 0x07, &[0x11, 0x22, 0x33, 0x44]));
    assert_eq!(out.len(), 1);
    let mut bytes = Vec::new();
    out[0].emit(&mut bytes);
    // Identical to the request except the code byte.
    assert_eq!(bytes, lcp_pkt(10, 0x07, &[0x11, 0x22, 0x33, 0x44]));
    assert_eq!(fsm.state(), State::Opened);
}

#[test]
fn echo_request_outside_opened_is_ignored() {
    let mut fsm = OptionFsm::new(LCP::new());
    fsm.open();
    let out = fsm.handle(&lcp_pkt(9, 1, &[0, 0, 0, 0]));
    assert!(out.is_empty());
    assert_eq!(fsm.state(), State::ReqSent);
}

#[test]
fn closed_state_answers_terminate_ack() {
    let mut fsm = OptionFsm::new(LCP::new());
    let out = fsm.handle(&lcp_pkt(1, 0x33, &[]));
    assert_eq!(fsm.state(), State::Closed);
    assert_eq!(out.len(), 1);
    assert_eq!(header_of(&out[0]), (Code::TerminateAck, 0x33));
}

#[test]
fn terminate_request_closes_an_open_link() {
    let mut fsm = OptionFsm::new(LCP::new());
    fsm.open();
    fsm.handle(&lcp_pkt(1, 1, &[]));
    fsm.handle(&lcp_pkt(2, 2, &[]));
    assert_eq!(fsm.state(), State::Opened);
    let out = fsm.handle(&lcp_pkt(5, 0x09, &[]));
    assert_eq!(fsm.state(), State::Closed);
    assert_eq!(out.len(), 1);
    assert_eq!(header_of(&out[0]), (Code::TerminateAck, 0x09));
}

#[test]
fn nack_adopts_suggested_asyncmap() {
    let mut fsm = OptionFsm::new(LCP::new());
    fsm.open();
    let out = fsm.handle(&lcp_pkt(3, 2, &[0x02, 0x06, 0xAA, 0xBB, 0xCC, 0xDD]));
    assert_eq!(fsm.state(), State::ReqSent);
    assert_eq!(fsm.proto().asyncmap, 0xAABBCCDD);
    assert_eq!(out.len(), 1);
    let (code, _) = header_of(&out[0]);
    assert_eq!(code, Code::ConfigureReq);
    assert_eq!(options_of(&out[0]), vec![(2, vec![0xAA, 0xBB, 0xCC, 0xDD])]);
}

#[test]
fn reject_retires_the_asyncmap_option() {
    let mut fsm = OptionFsm::new(LCP::new());
    fsm.open();
    let out = fsm.handle(&lcp_pkt(4, 2, &[0x02, 0x06, 0, 0, 0, 0]));
    assert!(fsm.proto().asyncmap_rej);
    assert_eq!(out.len(), 1);
    assert!(options_of(&out[0]).is_empty());
}

#[test]
fn malformed_option_stream_drops_the_request() {
    let mut fsm = OptionFsm::new(LCP::new());
    fsm.open();
    // An option whose length field overruns the packet.
    let out = fsm.handle(&lcp_pkt(1, 5, &[0x02, 0x30, 0, 0]));
    assert!(out.is_empty());
    assert_eq!(fsm.state(), State::ReqSent);
}

#[test]
fn short_and_inconsistent_headers_are_dropped() {
    let mut fsm = OptionFsm::new(LCP::new());
    fsm.open();
    assert!(fsm.handle(&[0xC0, 0x21, 0x01]).is_empty());
    // Declared length larger than the packet.
    assert!(fsm.handle(&[0xC0, 0x21, 0x01, 0x01, 0x00, 0x20]).is_empty());
    // Declared length below the header size.
    assert!(fsm.handle(&[0xC0, 0x21, 0x01, 0x01, 0x00, 0x02]).is_empty());
    assert_eq!(fsm.state(), State::ReqSent);
}

#[test]
fn auth_option_pap_is_accepted_other_nacked() {
    let mut fsm = OptionFsm::new(LCP::new());
    fsm.open();
    // CHAP (0xC223) suggested: nacked back to PAP.
    let out = fsm.handle(&lcp_pkt(1, 1, &[0x03, 0x04, 0xC2, 0x23]));
    assert_eq!(fsm.state(), State::ReqSent);
    let (code, id) = header_of(&out[0]);
    assert_eq!((code, id), (Code::ConfigureNack, 1));
    assert_eq!(options_of(&out[0]), vec![(3, vec![0xC0, 0x23])]);
    assert_eq!(fsm.proto().auth, AuthType::NoAuth);
    // PAP offered: accepted.
    let out = fsm.handle(&lcp_pkt(1, 2, &[0x03, 0x04, 0xC0, 0x23]));
    assert_eq!(header_of(&out[0]), (Code::ConfigureAck, 2));
    assert_eq!(fsm.proto().auth, AuthType::PAP);
}

#[test]
fn ipv4cp_records_peer_address_and_rejects_unknown() {
    let mut fsm = OptionFsm::new(IPv4CP::new());
    fsm.open();
    let pkt = {
        let body = [0x03, 0x06, 10, 0, 0, 1, 0x05, 0x04, 1, 2];
        let len = (body.len() + 4) as u16;
        let mut v = vec![0x80, 0x21, 0x01, 0x01, (len >> 8) as u8, len as u8];
        v.extend_from_slice(&body);
        v
    };
    let out = fsm.handle(&pkt);
    // The unknown option wins a Reject that carries only it.
    let (code, id) = header_of(&out[0]);
    assert_eq!((code, id), (Code::ConfigureRej, 1));
    assert_eq!(options_of(&out[0]), vec![(5, vec![1, 2])]);
    // The peer address was still recorded while judging.
    let st = fsm.proto().status();
    assert_eq!(st.peer_address.unwrap().octets(), [10, 0, 0, 1]);
}

#[test]
fn ipv4cp_requests_retire_on_reject() {
    let mut fsm = OptionFsm::new(IPv4CP::new());
    let req = fsm.open();
    assert_eq!(
        options_of(&req),
        vec![(3, vec![0, 0, 0, 0]), (129, vec![0, 0, 0, 0]), (131, vec![0, 0, 0, 0])]
    );
    // The peer rejects both DNS options: they are not requested again.
    let body = [0x81, 0x06, 0, 0, 0, 0, 0x83, 0x06, 0, 0, 0, 0];
    let len = (body.len() + 4) as u16;
    let mut pkt = vec![0x80, 0x21, 0x04, 0x02, (len >> 8) as u8, len as u8];
    pkt.extend_from_slice(&body);
    let out = fsm.handle(&pkt);
    assert_eq!(options_of(&out[0]), vec![(3, vec![0, 0, 0, 0])]);
}

#[test]
fn pap_opens_on_ack_and_resends_on_nak() {
    let mut p = pap::PAP::new(b"user", b"pass");
    assert_eq!(p.state(), pap::State::Closed);
    let req = p.open();
    assert_eq!(p.state(), pap::State::ReqSent);
    let mut bytes = Vec::new();
    req.emit(&mut bytes);
    assert_eq!(
        bytes,
        vec![
            0xC0, 0x23, 0x01, 0x02, 0x00, 0x0E, 4, b'u', b's', b'e', b'r', 4, b'p', b'a', b's',
            b's'
        ]
    );
    // A Nak makes it resend under a fresh identifier.
    let out = p.handle(&[0xC0, 0x23, 0x03, 0x02, 0x00, 0x04]);
    assert_eq!(p.state(), pap::State::ReqSent);
    let resent = out.unwrap();
    assert_eq!(header_of(&resent), (Code::ConfigureReq, 3));
    // An Ack opens it.
    let out = p.handle(&[0xC0, 0x23, 0x02, 0x03, 0x00, 0x04]);
    assert!(out.is_none());
    assert_eq!(p.state(), pap::State::Opened);
}

#[test]
fn pap_ignores_packets_outside_req_sent() {
    let mut p = pap::PAP::new(b"u", b"p");
    assert!(p.handle(&[0xC0, 0x23, 0x02, 0x01, 0x00, 0x04]).is_none());
    assert_eq!(p.state(), pap::State::Closed);
}
