//! The Link Control Protocol capability: negotiates the async control
//! character map in both directions and the authentication protocol, of
//! which only PAP is supported.

use vstd::prelude::*;

use crate::option_fsm::{Judgement, Protocol, Verdict};
use crate::util::{be32, read_be32, u32_be, write_be32};
use crate::wire::{opts_pairs, OptionVal, ProtocolType};

verus! {

/// The authentication the peer asked us to perform.
#[derive(Debug, Clone, Copy, PartialEq, Eq, Structural)]
pub enum AuthType {
    /// No authentication.
    NoAuth,
    /// Password Authentication Protocol (RFC 1334).
    PAP,
}

/// LCP option codes this capability understands.
pub open spec fn lcp_opt_asyncmap() -> u8 {
    2
}

pub open spec fn lcp_opt_auth() -> u8 {
    3
}

/// The LCP capability's negotiable state.
pub struct LCP {
    /// The authentication the peer's Configure-Request demanded.
    pub auth: AuthType,
    /// The asyncmap the peer asked us to apply to what we send it.
    pub asyncmap_remote: u32,
    /// The asyncmap we request the peer to apply towards us.
    pub asyncmap: u32,
    /// The peer refused to negotiate our asyncmap.
    pub asyncmap_rej: bool,
}

impl LCP {
    pub fn new() -> (r: LCP)
        ensures
            r.auth == AuthType::NoAuth,
            r.asyncmap_remote == 0xFFFFFFFFu32,
            r.asyncmap == 0u32,
            r.asyncmap_rej == false,
    {
        LCP { auth: AuthType::NoAuth, asyncmap_remote: 0xFFFFFFFF, asyncmap: 0, asyncmap_rej: false }
    }
}

impl Protocol for LCP {
    open spec fn inv(&self) -> bool {
        true
    }

    open spec fn spec_protocol(&self) -> ProtocolType {
        ProtocolType::LCP
    }

    /// We request our asyncmap, unless the peer rejected the option.
    open spec fn own_options_spec(&self) -> Seq<(u8, Seq<u8>)> {
        if !self.asyncmap_rej {
            seq![(lcp_opt_asyncmap(), u32_be(self.asyncmap))]
        } else {
            Seq::empty()
        }
    }

    /// A suggested asyncmap is adopted; a rejection, or a suggestion that
    /// is not four bytes, retires the option; other codes change nothing.
    open spec fn nacked_spec(&self, code: u8, data: Seq<u8>, is_rej: bool) -> LCP {
        if code == lcp_opt_asyncmap() {
            if !is_rej && data.len() == 4 {
                LCP {
                    auth: self.auth,
                    asyncmap_remote: self.asyncmap_remote,
                    asyncmap: be32(data),
                    asyncmap_rej: self.asyncmap_rej,
                }
            } else {
                LCP {
                    auth: self.auth,
                    asyncmap_remote: self.asyncmap_remote,
                    asyncmap: self.asyncmap,
                    asyncmap_rej: true,
                }
            }
        } else {
            *self
        }
    }

    /// Each round of peer options starts from no authentication.
    open spec fn start_spec(&self) -> LCP {
        LCP {
            auth: AuthType::NoAuth,
            asyncmap_remote: self.asyncmap_remote,
            asyncmap: self.asyncmap,
            asyncmap_rej: self.asyncmap_rej,
        }
    }

    /// A four-byte asyncmap is acceptable; an auth option is acceptable
    /// only for PAP, anything else drawing a Nack that suggests PAP; all
    /// other options are rejected.
    open spec fn judge_spec(&self, code: u8, data: Seq<u8>) -> Judgement {
        if code == lcp_opt_asyncmap() {
            if data.len() == 4 {
                Judgement::Ack
            } else {
                Judgement::Rej
            }
        } else if code == lcp_opt_auth() {
            if data == seq![0xc0u8, 0x23u8] {
                Judgement::Ack
            } else {
                Judgement::Nack(seq![0xc0u8, 0x23u8])
            }
        } else {
            Judgement::Rej
        }
    }

    /// An accepted asyncmap is recorded as the peer's; an accepted PAP
    /// demand is recorded as the authentication to perform.
    open spec fn judged_spec(&self, code: u8, data: Seq<u8>) -> LCP {
        if code == lcp_opt_asyncmap() && data.len() == 4 {
            LCP {
                auth: self.auth,
                asyncmap_remote: be32(data),
                asyncmap: self.asyncmap,
                asyncmap_rej: self.asyncmap_rej,
            }
        } else if code == lcp_opt_auth() && data == seq![0xc0u8, 0x23u8] {
            LCP {
                auth: AuthType::PAP,
                asyncmap_remote: self.asyncmap_remote,
                asyncmap: self.asyncmap,
                asyncmap_rej: self.asyncmap_rej,
            }
        } else {
            *self
        }
    }

    fn protocol(&self) -> (r: ProtocolType) {
        ProtocolType::LCP
    }

    fn own_options(&mut self) -> (r: Vec<OptionVal>) {
        let mut r: Vec<OptionVal> = Vec::new();
        if !self.asyncmap_rej {
            let bytes = write_be32(self.asyncmap);
            r.push(OptionVal::new(2, bytes.as_slice()));
            proof {
                assert(opts_pairs(r@) =~= seq![(lcp_opt_asyncmap(), u32_be(self.asyncmap))]);
            }
        } else {
            proof {
                assert(opts_pairs(r@) =~= Seq::<(u8, Seq<u8>)>::empty());
            }
        }
        r
    }

    fn own_option_nacked(&mut self, code: u8, data: &[u8], is_rej: bool) {
        if code == 2 {
            if !is_rej && data.len() == 4 {
                self.asyncmap = read_be32(data);
            } else {
                self.asyncmap_rej = true;
            }
        }
    }

    fn peer_options_start(&mut self) {
        self.auth = AuthType::NoAuth;
    }

    fn peer_option_received(&mut self, code: u8, data: &[u8]) -> (r: Verdict) {
        if code == 2 {
            if data.len() == 4 {
                self.asyncmap_remote = read_be32(data);
                Verdict::Ack
            } else {
                Verdict::Rej
            }
        } else if code == 3 {
            if data.len() == 2 && data[0] == 0xc0 && data[1] == 0x23 {
                proof {
                    assert(data@ =~= seq![0xc0u8, 0x23u8]);
                }
                self.auth = AuthType::PAP;
                Verdict::Ack
            } else {
                let mut d: Vec<u8> = Vec::new();
                d.push(0xc0);
                d.push(0x23);
                proof {
                    assert(d@ =~= seq![0xc0u8, 0x23u8]);
                    if data@.len() == 2 && data@[0] == 0xc0 && data@[1] == 0x23 {
                        assert(data@ =~= seq![0xc0u8, 0x23u8]);
                    }
                }
                Verdict::Nack(d)
            }
        } else {
            Verdict::Rej
        }
    }
}

} // verus!
