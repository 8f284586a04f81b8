//! The session orchestrator: sequences LCP, then PAP when LCP negotiated
//! it, then IPv4CP, and finally the open, datagram-carrying phase. Each
//! `poll` re-evaluates the phase from the sub-automata; the resulting phase
//! is a function of the previous phase and their states, and it never moves
//! backwards except to `Dead` when the link fell apart.

use vstd::prelude::*;

use crate::ipv4cp::{IPv4CP, Ipv4Status};
use crate::lcp::{AuthType, LCP};
use crate::option_fsm::{is_configure_request, next_id_spec, OptionFsm, Protocol, State};
use crate::pap::{is_auth_request, State as PapState, PAP};
use crate::util::be16;
use crate::wire::{packet_bytes, packet_wf, Packet, ProtocolType};
use crate::InvalidStateError;

verus! {

/// The credentials a session authenticates with.
#[derive(Debug, Clone)]
pub struct Config {
    /// Username for PAP.
    pub username: Vec<u8>,
    /// Password for PAP.
    pub password: Vec<u8>,
}

/// Phase of the PPP connection.
#[derive(Debug, Clone, Copy, PartialEq, Eq, Structural, PartialOrd, Ord)]
pub enum Phase {
    /// Dead, not connected.
    Dead,
    /// Establishing the link with LCP.
    Establish,
    /// Authenticating with PAP.
    Auth,
    /// Negotiating network parameters with IPv4CP.
    Network,
    /// All layers are up; IPv4 datagrams flow.
    Open,
}

/// The phases in their bring-up order.
pub open spec fn phase_rank(p: Phase) -> int {
    match p {
        Phase::Dead => 0,
        Phase::Establish => 1,
        Phase::Auth => 2,
        Phase::Network => 3,
        Phase::Open => 4,
    }
}

/// Status of the PPP connection.
#[derive(Debug, Clone, Copy, PartialEq, Eq)]
pub struct Status {
    /// Current phase.
    pub phase: Phase,
    /// IPv4 parameters, present once IPv4CP has opened.
    pub ipv4: Option<Ipv4Status>,
}

/// Where one `poll` leaves the phase, given the phase and the sub-automata
/// states it started from: the forward step by the bring-up order, then
/// the regression to `Dead` when LCP ends up closed with no open pending.
pub open spec fn poll_next_phase(
    phase: Phase,
    lcp_st: State,
    auth: AuthType,
    pap_st: PapState,
    ipv4_st: State,
    opening: bool,
) -> Phase {
    let mid = match phase {
        Phase::Dead => Phase::Dead,
        Phase::Establish => if lcp_st == State::Opened {
            if auth == AuthType::PAP {
                Phase::Auth
            } else {
                Phase::Network
            }
        } else {
            Phase::Establish
        },
        Phase::Auth => if pap_st == PapState::Opened {
            Phase::Network
        } else {
            Phase::Auth
        },
        Phase::Network => if ipv4_st == State::Opened {
            Phase::Open
        } else {
            Phase::Network
        },
        Phase::Open => Phase::Open,
    };
    let lcp_fin = if phase == Phase::Establish && lcp_st == State::Closed {
        State::ReqSent
    } else {
        lcp_st
    };
    let opening_fin = if phase == Phase::Establish && lcp_st == State::Closed {
        false
    } else {
        opening
    };
    if lcp_fin == State::Closed && !opening_fin {
        Phase::Dead
    } else {
        mid
    }
}

/// Where one `poll` leaves PAP.
pub open spec fn poll_next_pap(
    phase: Phase,
    lcp_st: State,
    auth: AuthType,
    pap_st: PapState,
) -> PapState {
    if phase == Phase::Establish {
        if lcp_st == State::Opened {
            if auth == AuthType::PAP && pap_st == PapState::Closed {
                PapState::ReqSent
            } else {
                pap_st
            }
        } else {
            PapState::Closed
        }
    } else {
        pap_st
    }
}

/// Where one `poll` leaves IPv4CP.
pub open spec fn poll_next_ipv4(
    phase: Phase,
    lcp_st: State,
    auth: AuthType,
    pap_st: PapState,
    ipv4_st: State,
) -> State {
    if phase == Phase::Establish {
        if lcp_st == State::Opened {
            if auth == AuthType::NoAuth && ipv4_st == State::Closed {
                State::ReqSent
            } else {
                ipv4_st
            }
        } else {
            State::Closed
        }
    } else if phase == Phase::Auth {
        if pap_st == PapState::Opened {
            if ipv4_st == State::Closed {
                State::ReqSent
            } else {
                ipv4_st
            }
        } else {
            State::Closed
        }
    } else {
        ipv4_st
    }
}

/// Phase monotonicity: across one `poll` the phase never moves backwards
/// in the bring-up order, except to `Dead` when LCP is closed and no open
/// is pending.
pub proof fn lemma_phase_monotone(
    phase: Phase,
    lcp_st: State,
    auth: AuthType,
    pap_st: PapState,
    ipv4_st: State,
    opening: bool,
)
    ensures
        ({
            let next = poll_next_phase(phase, lcp_st, auth, pap_st, ipv4_st, opening);
            phase_rank(next) >= phase_rank(phase) || next == Phase::Dead
        }),
{
}

/// Everything `received` does: the frame goes to the automaton that owns
/// its protocol, which evolves per its own `handle` relation while the
/// other two stand still; an unknown protocol draws an LCP Protocol-Reject
/// under a fresh identifier. The phase and the pending-open flag are never
/// touched.
pub open spec fn received_rel(pre: PPP, post: PPP, pkt: Seq<u8>, r: Seq<Packet>) -> bool {
    let proto = ProtocolType::spec_from_u16(be16(pkt[0], pkt[1]));
    &&& post.spec_phase() == pre.spec_phase()
    &&& post.spec_opening() == pre.spec_opening()
    &&& (proto == ProtocolType::LCP ==> post.spec_pap() == pre.spec_pap() && post.spec_ipv4cp()
        == pre.spec_ipv4cp() && crate::option_fsm::handle_rel(
        pre.spec_lcp(),
        post.spec_lcp(),
        pkt,
        r,
    ))
    &&& (proto == ProtocolType::PAP ==> post.spec_lcp() == pre.spec_lcp() && post.spec_ipv4cp()
        == pre.spec_ipv4cp() && r.len() <= 1 && crate::pap::pap_handle_rel(
        pre.spec_pap(),
        post.spec_pap(),
        pkt,
        if r.len() == 1 {
            Some(r[0])
        } else {
            None
        },
    ))
    &&& (proto == ProtocolType::IPv4CP ==> post.spec_lcp() == pre.spec_lcp() && post.spec_pap()
        == pre.spec_pap() && crate::option_fsm::handle_rel(
        pre.spec_ipv4cp(),
        post.spec_ipv4cp(),
        pkt,
        r,
    ))
    &&& (proto == ProtocolType::Unknown ==> post.spec_pap() == pre.spec_pap() && post.spec_ipv4cp()
        == pre.spec_ipv4cp() && post.spec_lcp().spec_state() == pre.spec_lcp().spec_state()
        && post.spec_lcp().spec_proto() == pre.spec_lcp().spec_proto()
        && post.spec_lcp().spec_id() == next_id_spec(pre.spec_lcp().spec_id()) && r.len() == 1
        && crate::option_fsm::is_protocol_reject(
        r[0],
        ProtocolType::LCP,
        post.spec_lcp().spec_id(),
        pkt,
    ))
}

/// Everything `poll` does: the phase and each sub-automaton move to the
/// spec-level next values, at most one packet goes out, and it goes out
/// exactly in the cases the orchestrator owes one: the opening LCP
/// request, the IPv4CP or PAP request when their predecessor opened.
pub open spec fn poll_rel(pre: PPP, post: PPP, r: Seq<Packet>) -> bool {
    &&& r.len() <= 1
    &&& post.spec_pap().spec_username() == pre.spec_pap().spec_username()
    &&& post.spec_pap().spec_password() == pre.spec_pap().spec_password()
    &&& ({

                let phase = pre.spec_phase();
                let lcp_st = pre.spec_lcp().spec_state();
                let auth = pre.spec_lcp().spec_proto().auth;
                let pap_st = pre.spec_pap().spec_state();
                let ipv4_st = pre.spec_ipv4cp().spec_state();
                let opening = pre.spec_opening();
                &&& post.spec_phase() == poll_next_phase(
                    phase,
                    lcp_st,
                    auth,
                    pap_st,
                    ipv4_st,
                    opening,
                )
                &&& post.spec_lcp().spec_state() == (if phase == Phase::Establish && lcp_st
                    == State::Closed {
                    State::ReqSent
                } else {
                    lcp_st
                })
                &&& post.spec_pap().spec_state() == poll_next_pap(
                    phase,
                    lcp_st,
                    auth,
                    pap_st,
                )
                &&& post.spec_ipv4cp().spec_state() == poll_next_ipv4(
                    phase,
                    lcp_st,
                    auth,
                    pap_st,
                    ipv4_st,
                )
                &&& (phase == Phase::Establish && lcp_st == State::Closed ==> r.len() == 1
                    && is_configure_request(
                    r[0],
                    ProtocolType::LCP,
                    post.spec_lcp().spec_id(),
                    pre.spec_lcp().spec_proto().own_options_spec(),
                ) && post.spec_lcp().spec_id() == next_id_spec(
                    pre.spec_lcp().spec_id(),
                ) && post.spec_opening() == false)
                &&& (phase == Phase::Establish && lcp_st == State::Opened && auth
                    == AuthType::NoAuth && ipv4_st == State::Closed ==> r.len() == 1
                    && is_configure_request(
                    r[0],
                    ProtocolType::IPv4CP,
                    post.spec_ipv4cp().spec_id(),
                    pre.spec_ipv4cp().spec_proto().own_options_spec(),
                ))
                &&& (phase == Phase::Establish && lcp_st == State::Opened && auth == AuthType::PAP
                    && pap_st == PapState::Closed ==> r.len() == 1 && is_auth_request(
                    r[0],
                    post.spec_pap().spec_id(),
                    pre.spec_pap().spec_username(),
                    pre.spec_pap().spec_password(),
                ))
                &&& (phase == Phase::Auth && pap_st == PapState::Opened && ipv4_st
                    == State::Closed ==> r.len() == 1 && is_configure_request(
                    r[0],
                    ProtocolType::IPv4CP,
                    post.spec_ipv4cp().spec_id(),
                    pre.spec_ipv4cp().spec_proto().own_options_spec(),
                ))
                &&& (!(phase == Phase::Establish && lcp_st == State::Closed) && !(phase
                    == Phase::Establish && lcp_st == State::Opened && auth == AuthType::NoAuth
                    && ipv4_st == State::Closed) && !(phase == Phase::Establish && lcp_st
                    == State::Opened && auth == AuthType::PAP && pap_st == PapState::Closed) && !(
                phase == Phase::Auth && pap_st == PapState::Opened && ipv4_st == State::Closed)
                    ==> r.len() == 0)
                })
}

/// The orchestrator and its three sub-automata.
pub struct PPP {
    phase: Phase,
    opening: bool,
    pub(crate) lcp: OptionFsm<LCP>,
    pub(crate) pap: PAP,
    pub(crate) ipv4cp: OptionFsm<IPv4CP>,
}

impl PPP {
    pub closed spec fn spec_phase(self) -> Phase {
        self.phase
    }

    pub closed spec fn spec_opening(self) -> bool {
        self.opening
    }

    pub closed spec fn spec_lcp(self) -> OptionFsm<LCP> {
        self.lcp
    }

    pub closed spec fn spec_pap(self) -> PAP {
        self.pap
    }

    pub closed spec fn spec_ipv4cp(self) -> OptionFsm<IPv4CP> {
        self.ipv4cp
    }

    pub open spec fn inv(self) -> bool {
        self.spec_lcp().inv() && self.spec_pap().wf() && self.spec_ipv4cp().inv()
    }

    /// The LCP automaton, for reading negotiated link parameters.
    pub fn lcp(&self) -> (r: &OptionFsm<LCP>)
        ensures
            *r == self.spec_lcp(),
    {
        &self.lcp
    }

    pub fn new(config: Config) -> (r: PPP)
        requires
            config.username@.len() <= 255,
            config.password@.len() <= 255,
        ensures
            r.inv(),
            r.spec_phase() == Phase::Dead,
            r.spec_opening() == false,
            r.spec_lcp().spec_state() == State::Closed,
            r.spec_pap().spec_state() == PapState::Closed,
            r.spec_pap().spec_username() == config.username@,
            r.spec_pap().spec_password() == config.password@,
            r.spec_ipv4cp().spec_state() == State::Closed,
    {
        PPP {
            phase: Phase::Dead,
            opening: false,
            lcp: OptionFsm::new(LCP::new()),
            pap: PAP::new(config.username.as_slice(), config.password.as_slice()),
            ipv4cp: OptionFsm::new(IPv4CP::new()),
        }
    }

    /// The phase, and the IPv4 parameters once IPv4CP has opened.
    pub fn status(&self) -> (r: Status)
        ensures
            r.phase == self.spec_phase(),
            self.spec_ipv4cp().spec_state() == State::Opened ==> r.ipv4 == Some(
                self.spec_ipv4cp().spec_proto().spec_status(),
            ),
            self.spec_ipv4cp().spec_state() != State::Opened ==> r.ipv4 is None,
    {
        Status {
            phase: self.phase,
            ipv4: if self.ipv4cp.state() == State::Opened {
                Some(self.ipv4cp.proto().status())
            } else {
                None
            },
        }
    }

    /// Requests connection bring-up: only from `Dead`.
    pub fn open(&mut self) -> (r: Result<(), InvalidStateError>)
        requires
            old(self).inv(),
        ensures
            final(self).inv(),
            old(self).spec_phase() == Phase::Dead ==> r is Ok && final(self).spec_phase()
                == Phase::Establish && final(self).spec_opening() == true && final(self).spec_lcp()
                == old(self).spec_lcp() && final(self).spec_pap() == old(self).spec_pap() && final(self).spec_ipv4cp() == old(self).spec_ipv4cp(),
            old(self).spec_phase() != Phase::Dead ==> r is Err && *final(self) == *old(self),
    {
        match self.phase {
            Phase::Dead => {
                self.phase = Phase::Establish;
                self.opening = true;
                Ok(())
            },
            _ => Err(InvalidStateError),
        }
    }

    /// Dispatches a received frame (protocol field included) to the
    /// automaton that owns its protocol; a frame of an unknown protocol
    /// draws an LCP Protocol-Reject. Never touches the phase.
    pub fn received(&mut self, pkt: &[u8]) -> (r: Vec<Packet>)
        requires
            old(self).inv(),
            2 <= pkt@.len() <= 65531,
            ProtocolType::spec_from_u16(be16(pkt@[0], pkt@[1])) != ProtocolType::IPv4,
        ensures
            final(self).inv(),
            forall|k: int| 0 <= k < r@.len() ==> packet_wf(#[trigger] r@[k]),
            forall|k: int| 0 <= k < r@.len() ==> packet_bytes(#[trigger] r@[k]).len() <= 65537,
            r@.len() <= 2,
            received_rel(*old(self), *final(self), pkt@, r@),
    {
        let proto = crate::util::read_be16(pkt[0], pkt[1]);
        match ProtocolType::from_u16(proto) {
            ProtocolType::LCP => self.lcp.handle(pkt),
            ProtocolType::PAP => {
                let mut out: Vec<Packet> = Vec::new();
                match self.pap.handle(pkt) {
                    Some(p) => {
                        proof {
                            crate::wire::lemma_packet_bytes_bound(p);
                        }
                        out.push(p);
                    },
                    None => {},
                }
                out
            },
            ProtocolType::IPv4CP => self.ipv4cp.handle(pkt),
            _ => {
                let mut out: Vec<Packet> = Vec::new();
                let p = self.lcp.send_protocol_reject(pkt);
                proof {
                    crate::wire::lemma_packet_bytes_bound(p);
                }
                out.push(p);
                out
            },
        }
    }

    /// Re-evaluates the phase: opens LCP when establishment begins, starts
    /// PAP or IPv4CP as their predecessors open, closes them while the
    /// link is down, and falls back to `Dead` when LCP closed for good.
    pub fn poll(&mut self) -> (r: Vec<Packet>)
        requires
            old(self).inv(),
        ensures
            final(self).inv(),
            forall|k: int| 0 <= k < r@.len() ==> packet_wf(#[trigger] r@[k]),
            forall|k: int| 0 <= k < r@.len() ==> packet_bytes(#[trigger] r@[k]).len() <= 65537,
            poll_rel(*old(self), *final(self), r@),
    {
        let mut out: Vec<Packet> = Vec::new();
        match self.phase {
            Phase::Dead => {},
            Phase::Establish => {
                if self.lcp.state() == State::Closed {
                    let p = self.lcp.open();
                    out.push(p);
                    self.opening = false;
                }
                if self.lcp.state() == State::Opened {
                    match self.lcp.proto().auth {
                        AuthType::NoAuth => {
                            if self.ipv4cp.state() == State::Closed {
                                let p = self.ipv4cp.open();
                                out.push(p);
                            }
                            self.phase = Phase::Network;
                        },
                        AuthType::PAP => {
                            if self.pap.state() == PapState::Closed {
                                let p = self.pap.open();
                                out.push(p);
                            }
                            self.phase = Phase::Auth;
                        },
                    }
                } else {
                    if self.pap.state() != PapState::Closed {
                        self.pap.close();
                    }
                    if self.ipv4cp.state() != State::Closed {
                        self.ipv4cp.close();
                    }
                }
            },
            Phase::Auth => {
                if self.pap.state() == PapState::Opened {
                    self.phase = Phase::Network;
                    if self.ipv4cp.state() == State::Closed {
                        let p = self.ipv4cp.open();
                        out.push(p);
                    }
                } else {
                    if self.ipv4cp.state() != State::Closed {
                        self.ipv4cp.close();
                    }
                }
            },
            Phase::Network => {
                if self.ipv4cp.state() == State::Opened {
                    self.phase = Phase::Open;
                }
            },
            Phase::Open => {},
        }
        if self.lcp.state() == State::Closed && !self.opening {
            self.phase = Phase::Dead;
        }
        out
    }
}

} // verus!
