//! The IPv4 Control Protocol capability: negotiates our address and two
//! DNS servers (the peer assigns them by nacking our requests with the
//! values to use) and records the address the peer claims for itself.

use vstd::prelude::*;

use crate::option_fsm::{Judgement, Protocol, Verdict};
use crate::wire::{opts_pairs, OptionVal, ProtocolType};

verus! {

/// An IPv4 address as four plain octets.
#[derive(Debug, Clone, Copy, PartialEq, Eq, Structural)]
pub struct Ipv4Address {
    pub o0: u8,
    pub o1: u8,
    pub o2: u8,
    pub o3: u8,
}

impl Ipv4Address {
    /// The four octets, most significant first.
    pub open spec fn spec_octets(self) -> Seq<u8> {
        seq![self.o0, self.o1, self.o2, self.o3]
    }

    /// The address the four bytes of `d` name.
    pub open spec fn from_seq(d: Seq<u8>) -> Ipv4Address
        recommends
            d.len() == 4,
    {
        Ipv4Address { o0: d[0], o1: d[1], o2: d[2], o3: d[3] }
    }

    /// The all-zero address, used as "not assigned".
    pub open spec fn spec_is_unspecified(self) -> bool {
        self.o0 == 0 && self.o1 == 0 && self.o2 == 0 && self.o3 == 0
    }

    pub fn unspecified() -> (r: Ipv4Address)
        ensures
            r.spec_is_unspecified(),
    {
        Ipv4Address { o0: 0, o1: 0, o2: 0, o3: 0 }
    }

    pub fn is_unspecified(&self) -> (r: bool)
        ensures
            r == self.spec_is_unspecified(),
    {
        self.o0 == 0 && self.o1 == 0 && self.o2 == 0 && self.o3 == 0
    }

    /// An address from four wire bytes.
    pub fn from_bytes(data: &[u8]) -> (r: Ipv4Address)
        requires
            data@.len() == 4,
        ensures
            r == Ipv4Address::from_seq(data@),
    {
        Ipv4Address { o0: data[0], o1: data[1], o2: data[2], o3: data[3] }
    }

    /// The four octets as an array, most significant first.
    pub fn octets(&self) -> (r: [u8; 4])
        ensures
            r@ == self.spec_octets(),
    {
        let r = [self.o0, self.o1, self.o2, self.o3];
        proof {
            assert(r@ =~= self.spec_octets());
        }
        r
    }
}

/// One negotiable address-valued option.
#[derive(Debug, Clone, Copy, PartialEq, Eq, Structural)]
pub struct IpOption {
    pub address: Ipv4Address,
    pub is_rejected: bool,
}

/// The negotiated value an option exposes: an address only when the option
/// was not rejected and an address was assigned.
pub open spec fn ip_option_get(o: IpOption) -> Option<Ipv4Address> {
    if o.is_rejected || o.address.spec_is_unspecified() {
        None
    } else {
        Some(o.address)
    }
}

/// Where the peer's answer to our request leaves one option: a rejection,
/// or a suggestion that is not four bytes, retires it; a four-byte
/// suggestion is adopted as the assigned address.
pub open spec fn ip_option_nacked(o: IpOption, data: Seq<u8>, is_rej: bool) -> IpOption {
    if is_rej {
        IpOption { address: o.address, is_rejected: true }
    } else if data.len() == 4 {
        IpOption { address: Ipv4Address::from_seq(data), is_rejected: o.is_rejected }
    } else {
        IpOption { address: o.address, is_rejected: true }
    }
}

impl IpOption {
    pub fn new() -> (r: IpOption)
        ensures
            r.address.spec_is_unspecified(),
            r.is_rejected == false,
    {
        IpOption { address: Ipv4Address::unspecified(), is_rejected: false }
    }

    pub fn get(&self) -> (r: Option<Ipv4Address>)
        ensures
            r == ip_option_get(*self),
    {
        if self.is_rejected || self.address.is_unspecified() {
            None
        } else {
            Some(self.address)
        }
    }

    /// Applies the peer's answer to our request for this option.
    pub fn nacked(&mut self, data: &[u8], is_rej: bool)
        ensures
            *final(self) == ip_option_nacked(*old(self), data@, is_rej),
    {
        if is_rej {
            self.is_rejected = true;
        } else {
            if data.len() == 4 {
                self.address = Ipv4Address::from_bytes(data);
            } else {
                self.is_rejected = true;
            }
        }
    }
}

/// What IPv4CP has negotiated so far.
#[derive(Debug, Clone, Copy, PartialEq, Eq)]
pub struct Ipv4Status {
    /// Our address, as assigned by the peer.
    pub address: Option<Ipv4Address>,
    /// The address the peer claims for itself.
    pub peer_address: Option<Ipv4Address>,
    /// DNS servers provided by the peer.
    pub dns_servers: [Option<Ipv4Address>; 2],
}

/// IPv4CP option codes this capability understands.
pub open spec fn ipv4cp_opt_address() -> u8 {
    3
}

pub open spec fn ipv4cp_opt_dns1() -> u8 {
    129
}

pub open spec fn ipv4cp_opt_dns2() -> u8 {
    131
}

/// The IPv4CP capability's negotiable state.
#[derive(Debug, Clone, Copy, PartialEq, Eq, Structural)]
pub struct IPv4CP {
    pub peer_address: Ipv4Address,
    pub address: IpOption,
    pub dns_server_1: IpOption,
    pub dns_server_2: IpOption,
}

impl IPv4CP {
    pub fn new() -> (r: IPv4CP)
        ensures
            r.peer_address.spec_is_unspecified(),
            r.address.address.spec_is_unspecified() && !r.address.is_rejected,
            r.dns_server_1.address.spec_is_unspecified() && !r.dns_server_1.is_rejected,
            r.dns_server_2.address.spec_is_unspecified() && !r.dns_server_2.is_rejected,
    {
        IPv4CP {
            peer_address: Ipv4Address::unspecified(),
            address: IpOption::new(),
            dns_server_1: IpOption::new(),
            dns_server_2: IpOption::new(),
        }
    }

    /// What this capability would report to the caller right now.
    pub open spec fn spec_status(self) -> Ipv4Status {
        Ipv4Status {
            address: ip_option_get(self.address),
            peer_address: if self.peer_address.spec_is_unspecified() {
                None
            } else {
                Some(self.peer_address)
            },
            dns_servers: [ip_option_get(self.dns_server_1), ip_option_get(self.dns_server_2)],
        }
    }

    pub fn status(&self) -> (r: Ipv4Status)
        ensures
            r == self.spec_status(),
    {
        let peer_address = if self.peer_address.is_unspecified() {
            None
        } else {
            Some(self.peer_address)
        };
        let r = Ipv4Status {
            address: self.address.get(),
            peer_address,
            dns_servers: [self.dns_server_1.get(), self.dns_server_2.get()],
        };
        proof {
            assert(r.dns_servers@ =~= self.spec_status().dns_servers@);
            assert(r.dns_servers =~= self.spec_status().dns_servers);
        }
        r
    }
}

impl Protocol for IPv4CP {
    open spec fn inv(&self) -> bool {
        true
    }

    open spec fn spec_protocol(&self) -> ProtocolType {
        ProtocolType::IPv4CP
    }

    /// We request address and DNS servers, skipping retired options.
    open spec fn own_options_spec(&self) -> Seq<(u8, Seq<u8>)> {
        let a: Seq<(u8, Seq<u8>)> = if !self.address.is_rejected {
            seq![(ipv4cp_opt_address(), self.address.address.spec_octets())]
        } else {
            Seq::empty()
        };
        let d1: Seq<(u8, Seq<u8>)> = if !self.dns_server_1.is_rejected {
            seq![(ipv4cp_opt_dns1(), self.dns_server_1.address.spec_octets())]
        } else {
            Seq::empty()
        };
        let d2: Seq<(u8, Seq<u8>)> = if !self.dns_server_2.is_rejected {
            seq![(ipv4cp_opt_dns2(), self.dns_server_2.address.spec_octets())]
        } else {
            Seq::empty()
        };
        a + d1 + d2
    }

    /// The peer's answer goes to the option it concerns.
    open spec fn nacked_spec(&self, code: u8, data: Seq<u8>, is_rej: bool) -> IPv4CP {
        if code == ipv4cp_opt_address() {
            IPv4CP { address: ip_option_nacked(self.address, data, is_rej), ..*self }
        } else if code == ipv4cp_opt_dns1() {
            IPv4CP { dns_server_1: ip_option_nacked(self.dns_server_1, data, is_rej), ..*self }
        } else if code == ipv4cp_opt_dns2() {
            IPv4CP { dns_server_2: ip_option_nacked(self.dns_server_2, data, is_rej), ..*self }
        } else {
            *self
        }
    }

    /// Judging a peer request changes nothing up front.
    open spec fn start_spec(&self) -> IPv4CP {
        *self
    }

    /// A four-byte peer address is acceptable; everything else is
    /// rejected.
    open spec fn judge_spec(&self, code: u8, data: Seq<u8>) -> Judgement {
        if code == ipv4cp_opt_address() && data.len() == 4 {
            Judgement::Ack
        } else {
            Judgement::Rej
        }
    }

    /// An accepted peer address is recorded.
    open spec fn judged_spec(&self, code: u8, data: Seq<u8>) -> IPv4CP {
        if code == ipv4cp_opt_address() && data.len() == 4 {
            IPv4CP { peer_address: Ipv4Address::from_seq(data), ..*self }
        } else {
            *self
        }
    }

    fn protocol(&self) -> (r: ProtocolType) {
        ProtocolType::IPv4CP
    }

    fn own_options(&mut self) -> (r: Vec<OptionVal>) {
        let mut r: Vec<OptionVal> = Vec::new();
        if !self.address.is_rejected {
            r.push(OptionVal::new(3, self.address.address.octets().as_slice()));
        }
        if !self.dns_server_1.is_rejected {
            r.push(OptionVal::new(129, self.dns_server_1.address.octets().as_slice()));
        }
        if !self.dns_server_2.is_rejected {
            r.push(OptionVal::new(131, self.dns_server_2.address.octets().as_slice()));
        }
        proof {
            assert(opts_pairs(r@) =~= self.own_options_spec());
        }
        r
    }

    fn own_option_nacked(&mut self, code: u8, data: &[u8], is_rej: bool) {
        if code == 3 {
            self.address.nacked(data, is_rej);
        } else if code == 129 {
            self.dns_server_1.nacked(data, is_rej);
        } else if code == 131 {
            self.dns_server_2.nacked(data, is_rej);
        }
    }

    fn peer_options_start(&mut self) {
    }

    fn peer_option_received(&mut self, code: u8, data: &[u8]) -> (r: Verdict) {
        if code == 3 && data.len() == 4 {
            self.peer_address = Ipv4Address::from_bytes(data);
            Verdict::Ack
        } else {
            Verdict::Rej
        }
    }
}

} // verus!
