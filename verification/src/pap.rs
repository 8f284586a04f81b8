//! The Password Authentication Protocol automaton: a three-state machine
//! that sends an Authenticate-Request carrying username and password,
//! resends it on a Nak, and opens on an Ack.

use vstd::prelude::*;

use crate::option_fsm::next_id_spec;
use crate::util::{be16, read_be16};
use crate::wire::{packet_wf, Code, Packet, Payload, PPPPayload, ProtocolType};

verus! {

/// Where PAP authentication stands.
#[derive(Debug, Clone, Copy, PartialEq, Eq, Structural)]
pub enum State {
    /// Not authenticating.
    Closed,
    /// Our Authenticate-Request is out.
    ReqSent,
    /// The peer acknowledged our credentials.
    Opened,
}

/// An Authenticate-Request carrying the credentials under identifier `id`.
pub open spec fn is_auth_request(p: Packet, id: u8, user: Seq<u8>, pass: Seq<u8>) -> bool {
    match p.payload {
        Payload::PPP(c, pid, PPPPayload::PAP(u, pw)) => p.proto == ProtocolType::PAP && c
            == Code::ConfigureReq && pid == id && u@ == user && pw@ == pass && packet_wf(p),
        _ => false,
    }
}

/// Everything `handle` does, as a relation between the automaton before
/// and after one received packet and the optional packet sent in response:
/// an Ack while our request is out opens authentication, a Nak draws a
/// fresh request, and everything else changes nothing.
pub open spec fn pap_handle_rel(pre: PAP, post: PAP, pkt: Seq<u8>, r: Option<Packet>) -> bool {
    let ok = pkt.len() >= 6 && 6 <= be16(pkt[4], pkt[5]) + 2 && be16(pkt[4], pkt[5]) + 2
        <= pkt.len();
    let code = Code::spec_from_u8(pkt[2]);
    if ok && code == Code::ConfigureAck && pre.spec_state() == State::ReqSent {
        post.spec_state() == State::Opened && post.spec_id() == pre.spec_id() && r is None
    } else if ok && code == Code::ConfigureNack && pre.spec_state() == State::ReqSent {
        post.spec_state() == State::ReqSent && post.spec_id() == next_id_spec(pre.spec_id())
            && match r {
            Some(p) => is_auth_request(p, post.spec_id(), pre.spec_username(), pre.spec_password()),
            None => false,
        }
    } else {
        post.spec_state() == pre.spec_state() && post.spec_id() == pre.spec_id() && r is None
    }
}

/// The PAP automaton with its credentials.
pub struct PAP {
    state: State,
    id: u8,
    username: Vec<u8>,
    password: Vec<u8>,
}

impl PAP {
    pub closed spec fn spec_state(self) -> State {
        self.state
    }

    pub closed spec fn spec_id(self) -> u8 {
        self.id
    }

    pub closed spec fn spec_username(self) -> Seq<u8> {
        self.username@
    }

    pub closed spec fn spec_password(self) -> Seq<u8> {
        self.password@
    }

    /// Credentials must fit the one-byte length fields of the request.
    pub open spec fn wf(self) -> bool {
        self.spec_username().len() <= 255 && self.spec_password().len() <= 255
    }

    pub fn new(username: &[u8], password: &[u8]) -> (r: PAP)
        requires
            username@.len() <= 255,
            password@.len() <= 255,
        ensures
            r.wf(),
            r.spec_state() == State::Closed,
            r.spec_id() == 1,
            r.spec_username() == username@,
            r.spec_password() == password@,
    {
        let mut u: Vec<u8> = Vec::new();
        crate::util::push_all(&mut u, username);
        let mut p: Vec<u8> = Vec::new();
        crate::util::push_all(&mut p, password);
        PAP { state: State::Closed, id: 1, username: u, password: p }
    }

    pub fn state(&self) -> (r: State)
        ensures
            r == self.spec_state(),
    {
        self.state
    }

    /// Starts authenticating: only from `Closed`, sending the request.
    pub fn open(&mut self) -> (r: Packet)
        requires
            old(self).wf(),
            old(self).spec_state() == State::Closed,
        ensures
            final(self).wf(),
            final(self).spec_state() == State::ReqSent,
            final(self).spec_id() == next_id_spec(old(self).spec_id()),
            final(self).spec_username() == old(self).spec_username(),
            final(self).spec_password() == old(self).spec_password(),
            is_auth_request(
                r,
                final(self).spec_id(),
                old(self).spec_username(),
                old(self).spec_password(),
            ),
    {
        self.state = State::ReqSent;
        self.send_auth_request()
    }

    /// Abandons authentication unconditionally.
    pub fn close(&mut self)
        requires
            old(self).wf(),
        ensures
            final(self).wf(),
            final(self).spec_state() == State::Closed,
            final(self).spec_id() == old(self).spec_id(),
            final(self).spec_username() == old(self).spec_username(),
            final(self).spec_password() == old(self).spec_password(),
    {
        self.state = State::Closed;
    }

    /// Dispatches one received PAP packet: an Ack while our request is out
    /// opens authentication; a Nak makes us resend the request; everything
    /// else, and every packet with a bad header, is ignored.
    pub fn handle(&mut self, pkt: &[u8]) -> (r: Option<Packet>)
        requires
            old(self).wf(),
        ensures
            final(self).wf(),
            final(self).spec_username() == old(self).spec_username(),
            final(self).spec_password() == old(self).spec_password(),
            pap_handle_rel(*old(self), *final(self), pkt@, r),
    {
        if pkt.len() < 6 {
            return None;
        }
        let declared = read_be16(pkt[4], pkt[5]) as usize;
        if declared + 2 > pkt.len() || declared + 2 < 6 {
            return None;
        }
        let code = Code::from_u8(pkt[2]);
        match (code, self.state) {
            (Code::ConfigureAck, State::ReqSent) => {
                self.state = State::Opened;
                None
            },
            (Code::ConfigureNack, State::ReqSent) => Some(self.send_auth_request()),
            _ => None,
        }
    }

    fn next_id(&mut self) -> (r: u8)
        requires
            old(self).wf(),
        ensures
            final(self).wf(),
            final(self).spec_state() == old(self).spec_state(),
            final(self).spec_username() == old(self).spec_username(),
            final(self).spec_password() == old(self).spec_password(),
            final(self).spec_id() == next_id_spec(old(self).spec_id()),
            r == final(self).spec_id(),
    {
        if self.id == 255 {
            self.id = 0;
        } else {
            self.id = self.id + 1;
        }
        self.id
    }

    /// Builds the Authenticate-Request under a fresh identifier.
    fn send_auth_request(&mut self) -> (r: Packet)
        requires
            old(self).wf(),
        ensures
            final(self).wf(),
            final(self).spec_state() == old(self).spec_state(),
            final(self).spec_username() == old(self).spec_username(),
            final(self).spec_password() == old(self).spec_password(),
            final(self).spec_id() == next_id_spec(old(self).spec_id()),
            is_auth_request(
                r,
                final(self).spec_id(),
                old(self).spec_username(),
                old(self).spec_password(),
            ),
    {
        let id = self.next_id();
        let mut u: Vec<u8> = Vec::new();
        crate::util::push_all(&mut u, self.username.as_slice());
        let mut p: Vec<u8> = Vec::new();
        crate::util::push_all(&mut p, self.password.as_slice());
        Packet {
            proto: ProtocolType::PAP,
            payload: Payload::PPP(Code::ConfigureReq, id, PPPPayload::PAP(u, p)),
        }
    }
}

} // verus!
