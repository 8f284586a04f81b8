//! A PPP (point-to-point protocol) core for serial links: HDLC-like framing
//! with byte stuffing and a CRC-16 frame check sequence, the RFC 1661 option
//! negotiation state machine instantiated for LCP and IPv4CP, a PAP
//! authentication state machine, and a session orchestrator that sequences
//! the phases of a connection. The crate performs no I/O of its own: bytes
//! in and bytes out travel through caller-supplied buffers.

use vstd::prelude::*;

pub mod crc;
pub mod frame_reader;
pub mod frame_writer;
pub mod framing;
pub mod ipv4cp;
pub mod lcp;
pub mod option_fsm;
pub mod packet_writer;
pub mod pap;
pub mod ppp;
pub mod pppos;
pub mod util;
pub mod wire;

verus! {

/// An operation was attempted in a phase that does not allow it.
#[derive(Debug, PartialEq, Eq, Structural, Clone, Copy)]
pub struct InvalidStateError;

} // verus!
