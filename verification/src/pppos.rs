//! PPP over a serial byte stream: couples the frame receiver, the frame
//! transmitter and the session orchestrator. The caller feeds raw serial
//! bytes through `consume`, drives the machine with `poll`, and ships IPv4
//! datagrams with `send`; every outbound control packet produced by one
//! `poll` is framed back to back into the transmit buffer.

use vstd::prelude::*;

use core::ops::Range;

use crate::frame_reader::{rx_no_complete, rx_run, FrameReader, State as RxState};
use crate::frame_writer::{escape_bytes, fcs_bytes, frame_bytes, lemma_escape_bytes_append,
    lemma_escape_bytes_singleton, lemma_frame_bytes_len, lemma_frame_bytes_longer_than_header,
    lemma_frame_bytes_parts, BufferFullError, FrameWriter};
use crate::ppp::{phase_rank, Config, Phase, Status, PPP};
use crate::util::{be16, read_be16};
use crate::wire::{packet_bytes, packet_wf, Packet, ProtocolType};
use crate::InvalidStateError;

verus! {

/// What the caller must do after a `poll`.
pub enum PPPoSAction {
    /// Nothing to do.
    Idle,
    /// An IPv4 packet arrived: it sits in the returned receive buffer at
    /// the returned range, and the buffer is handed back to the caller. A
    /// buffer must be put back before the next `consume` or `poll`.
    Received(Vec<u8>, Range<usize>),
    /// The first so many bytes of the transmit buffer must be sent over
    /// the serial connection.
    Transmit(usize),
}

/// A PPP connection over a serial byte stream.
pub struct PPPoS {
    frame_reader: FrameReader,
    rx_buf: Option<Vec<u8>>,
    ppp: PPP,
}

impl PPPoS {
    pub closed spec fn spec_reader(self) -> FrameReader {
        self.frame_reader
    }

    pub closed spec fn spec_rx_buf(self) -> Option<Vec<u8>> {
        self.rx_buf
    }

    pub closed spec fn spec_ppp(self) -> PPP {
        self.ppp
    }

    pub open spec fn inv(self) -> bool {
        &&& self.spec_ppp().inv()
        &&& self.spec_reader().wf()
    }

    /// A connection in phase `Dead`, with no receive buffer yet.
    pub fn new(config: Config) -> (r: PPPoS)
        requires
            config.username@.len() <= 255,
            config.password@.len() <= 255,
        ensures
            r.inv(),
            r.spec_rx_buf() is None,
            r.spec_ppp().spec_phase() == Phase::Dead,
            r.spec_reader().spec_state() == RxState::Start,
    {
        PPPoS { frame_reader: FrameReader::new(), rx_buf: None, ppp: PPP::new(config) }
    }

    /// The phase, and the IPv4 parameters once negotiated.
    pub fn status(&self) -> (r: Status)
        ensures
            r.phase == self.spec_ppp().spec_phase(),
            self.spec_ppp().spec_ipv4cp().spec_state() == crate::option_fsm::State::Opened
                ==> r.ipv4 == Some(self.spec_ppp().spec_ipv4cp().spec_proto().spec_status()),
            self.spec_ppp().spec_ipv4cp().spec_state() != crate::option_fsm::State::Opened
                ==> r.ipv4 is None,
    {
        self.ppp.status()
    }

    /// Starts connecting; an error unless the connection is `Dead`.
    pub fn open(&mut self) -> (r: Result<(), InvalidStateError>)
        requires
            old(self).inv(),
        ensures
            final(self).inv(),
            final(self).spec_rx_buf() == old(self).spec_rx_buf(),
            final(self).spec_reader() == old(self).spec_reader(),
            old(self).spec_ppp().spec_phase() == Phase::Dead ==> r is Ok && final(self).spec_ppp().spec_phase() == Phase::Establish,
            old(self).spec_ppp().spec_phase() != Phase::Dead ==> r is Err && *final(self) == *old(self),
    {
        self.ppp.open()
    }

    /// Whether a receive buffer is available.
    pub fn has_rx_buf(&self) -> (r: bool)
        ensures
            r == (self.spec_rx_buf() is Some),
    {
        self.rx_buf.is_some()
    }

    /// Makes a buffer available for receiving. Only when none is held.
    pub fn put_rx_buf(&mut self, rx_buf: Vec<u8>)
        requires
            old(self).inv(),
            old(self).spec_rx_buf() is None,
        ensures
            final(self).inv(),
            final(self).spec_rx_buf() == Some(rx_buf),
            final(self).spec_reader() == old(self).spec_reader(),
            final(self).spec_ppp() == old(self).spec_ppp(),
    {
        self.rx_buf = Some(rx_buf);
    }

    /// Feeds received serial bytes to the frame receiver, decoding into
    /// the held receive buffer; returns how many bytes were taken. Fewer
    /// than offered are taken exactly when a frame completed: the rest
    /// must be offered again once `poll` has drained the frame.
    pub fn consume(&mut self, data: &[u8]) -> (n: usize)
        requires
            old(self).inv(),
            old(self).spec_rx_buf() is Some,
        ensures
            final(self).inv(),
            final(self).spec_ppp() == old(self).spec_ppp(),
            final(self).spec_rx_buf() is Some,
            n <= data@.len(),
            ({
                let r0 = old(self).spec_reader();
                let b0 = old(self).spec_rx_buf().unwrap()@;
                let (s1, e1, l1, b1) = rx_run(
                    r0.spec_state(),
                    r0.spec_escape(),
                    r0.spec_len(),
                    b0,
                    data@.take(n as int),
                );
                &&& final(self).spec_reader().spec_state() == s1
                &&& final(self).spec_reader().spec_escape() == e1
                &&& final(self).spec_reader().spec_len() == l1
                &&& final(self).spec_rx_buf().unwrap()@ == b1
                &&& rx_no_complete(
                    r0.spec_state(),
                    r0.spec_escape(),
                    r0.spec_len(),
                    b0,
                    data@.take(n as int),
                )
                &&& (n < data@.len() ==> s1 == RxState::Complete)
            }),
    {
        let n = match &mut self.rx_buf {
            Some(b) => self.frame_reader.consume(b, data),
            None => vstd::pervasive::unreached(),
        };
        proof {
            let r0 = old(self).spec_reader();
            let b0 = old(self).spec_rx_buf().unwrap()@;
            crate::frame_reader::lemma_rx_run_buf_len(
                r0.spec_state(),
                r0.spec_escape(),
                r0.spec_len(),
                b0,
                data@.take(n as int),
            );
        }
        n
    }

    /// Sends one IPv4 datagram: frames it under the asyncmap the peer
    /// negotiated and places it in `tx_buf`, whose length at entry is the
    /// capacity. Succeeds with the encoded length exactly when the encoded
    /// frame fits; on failure the buffer is unchanged.
    pub fn send(&mut self, pkt: &[u8], tx_buf: &mut Vec<u8>) -> (r: Result<usize, BufferFullError>)
        requires
            old(self).inv(),
        ensures
            final(self).inv(),
            *final(self) == *old(self),
            ({
                let map = old(self).spec_ppp().spec_lcp().spec_proto().asyncmap_remote;
                let enc = frame_bytes(map, seq![0x00u8, 0x21u8] + pkt@);
                &&& (r is Ok <==> enc.len() <= old(tx_buf)@.len())
                &&& (r is Ok ==> final(tx_buf)@ == enc && r.unwrap() == enc.len())
                &&& (r is Err ==> final(tx_buf)@ == old(tx_buf)@)
            }),
    {
        let map = self.ppp.lcp().proto().asyncmap_remote;
        let mut w = FrameWriter::new_with_asyncmap(tx_buf.len(), map);
        let mut proto_bytes: Vec<u8> = Vec::new();
        proto_bytes.push(0x00);
        proto_bytes.push(0x21);
        proof {
            assert(proto_bytes@ =~= seq![0x00u8, 0x21u8]);
            lemma_frame_bytes_parts(map, seq![0x00u8, 0x21u8], pkt@);
            lemma_frame_bytes_longer_than_header(map, seq![0x00u8, 0x21u8] + pkt@);
            crate::frame_writer::lemma_escape_bytes_singleton(map, 0x03);
        }
        if w.start().is_err() {
            return Err(BufferFullError);
        }
        if w.append(proto_bytes.as_slice()).is_err() {
            return Err(BufferFullError);
        }
        if w.append(pkt).is_err() {
            return Err(BufferFullError);
        }
        proof {
            assert((Seq::<u8>::empty() + proto_bytes@) + pkt@ =~= seq![0x00u8, 0x21u8] + pkt@);
        }
        if w.finish().is_err() {
            return Err(BufferFullError);
        }
        proof {
            assert(Seq::<u8>::empty() + frame_bytes(map, seq![0x00u8, 0x21u8] + pkt@)
                =~= frame_bytes(map, seq![0x00u8, 0x21u8] + pkt@));
            w.lemma_bytes_within_cap();
        }
        let n = w.len();
        let out = w.get();
        *tx_buf = out;
        Ok(n)
    }

    /// Drains a completed frame if one is waiting: an IPv4 frame of any
    /// size is handed back to the caller with the receive buffer; a
    /// control frame goes to the automaton that owns its protocol, unless
    /// it exceeds what a control packet's 16-bit length field can answer,
    /// in which case it is dropped. The orchestrator then advances the
    /// phase, and everything the automata emitted stands in `tx_buf` as
    /// back-to-back conservatively escaped frames, replacing its contents.
    ///
    /// A completed frame whose protocol bytes are IPv4 is always surfaced
    /// as `Received`; otherwise `Transmit` comes back exactly when bytes
    /// were written. The phase never moves backwards in the bring-up
    /// order, except to `Dead` when the link fell apart.
    #[verifier::rlimit(100)]
    pub fn poll(&mut self, tx_buf: &mut Vec<u8>) -> (r: PPPoSAction)
        requires
            old(self).inv(),
            old(self).spec_rx_buf() is Some,
        ensures
            final(self).inv(),
            phase_rank(final(self).spec_ppp().spec_phase()) >= phase_rank(
                old(self).spec_ppp().spec_phase(),
            ) || final(self).spec_ppp().spec_phase() == Phase::Dead,
            ({
                let complete = old(self).spec_reader().spec_state() == RxState::Complete;
                let l0 = old(self).spec_reader().spec_len();
                let b0 = old(self).spec_rx_buf().unwrap()@;
                let frame = b0.subrange(1, l0 - 2);
                let viewable = complete && l0 - 2 <= b0.len() && frame.len() >= 2;
                let ipv4 = viewable && ProtocolType::spec_from_u16(be16(frame[0], frame[1]))
                    == ProtocolType::IPv4;
                &&& (complete ==> final(self).spec_reader().spec_state() == RxState::Address
                    && final(self).spec_reader().spec_len() == 0)
                &&& (!complete ==> final(self).spec_reader() == old(self).spec_reader())
                &&& (r is Received <==> ipv4)
                &&& match r {
                    PPPoSAction::Received(buf, rng) => {
                        &&& final(self).spec_rx_buf() is None
                        &&& buf == old(self).spec_rx_buf().unwrap()
                        &&& rng == (Range { start: 3usize, end: (l0 - 2) as usize })
                        &&& final(self).spec_ppp() == old(self).spec_ppp()
                        &&& final(tx_buf)@.len() == 0
                    },
                    PPPoSAction::Transmit(n) => {
                        &&& final(self).spec_rx_buf() == old(self).spec_rx_buf()
                        &&& n == final(tx_buf)@.len()
                        &&& n > 0
                    },
                    PPPoSAction::Idle => {
                        &&& final(self).spec_rx_buf() == old(self).spec_rx_buf()
                        &&& final(tx_buf)@.len() == 0
                    },
                }
                &&& (!ipv4 ==> poll_dispatch(
                    old(self).spec_ppp(),
                    final(self).spec_ppp(),
                    if viewable && frame.len() <= 65531 {
                        Some(frame)
                    } else {
                        None
                    },
                    final(tx_buf)@,
                ))
            }),
    {
        let mut w = FrameWriter::new(usize::MAX);
        let ghost pre_ppp = self.ppp;
        let ghost complete0 = self.spec_reader().spec_state() == RxState::Complete;
        let ghost l0 = self.spec_reader().spec_len();
        let ghost b0 = self.spec_rx_buf().unwrap()@;
        let ghost frame0 = b0.subrange(1, l0 - 2);
        let ghost viewable0 = complete0 && l0 - 2 <= b0.len() && frame0.len() >= 2;
        let ghost mut r1: Seq<Packet> = Seq::empty();
        let ghost mut cf: Option<Seq<u8>> = None;

        match self.frame_reader.receive() {
            None => {
                proof {
                    assert(!viewable0);
                }
            },
            Some(range) => {
                proof {
                    assert(range.start == 1 && range.end == (l0 - 2) as usize);
                }
                match &self.rx_buf {
                    None => vstd::pervasive::unreached(),
                    Some(b) => {
                        if range.start <= range.end && range.end <= b.len() {
                            proof {
                                assert(b@ == b0);
                            }
                            // Copy the frame out of the receive buffer.
                            let mut frame: Vec<u8> = Vec::new();
                            let mut i: usize = range.start;
                            proof {
                                assert(frame@ =~= b@.subrange(
                                    range.start as int,
                                    range.start as int,
                                ));
                            }
                            while i < range.end
                                invariant
                                    range.start <= i <= range.end,
                                    range.end <= b@.len(),
                                    frame@ == b@.subrange(range.start as int, i as int),
                                decreases range.end - i,
                            {
                                frame.push(b[i]);
                                i = i + 1;
                                proof {
                                    assert(frame@ =~= b@.subrange(range.start as int, i as int));
                                }
                            }
                            proof {
                                assert(range.end as int == l0 - 2);
                                assert(frame@ == frame0);
                            }
                            if 2 <= frame.len() {
                                proof {
                                    assert(viewable0);
                                }
                                let proto = read_be16(frame[0], frame[1]);
                                match ProtocolType::from_u16(proto) {
                                    ProtocolType::IPv4 => {
                                        let buf = match self.rx_buf.take() {
                                            Some(bb) => bb,
                                            None => vstd::pervasive::unreached(),
                                        };
                                        proof {
                                            assert(buf@[1] == frame@[0] && buf@[2] == frame@[1]);
                                        }
                                        tx_buf.clear();
                                        return PPPoSAction::Received(
                                            buf,
                                            (range.start + 2)..range.end,
                                        );
                                    },
                                    _ => if frame.len() <= 65531 {
                                        let pkts = self.ppp.received(frame.as_slice());
                                        proof {
                                            r1 = pkts@;
                                            cf = Some(frame0);
                                        }
                                        let mut k: usize = 0;
                                        proof {
                                            assert(pkts@.take(0) =~= Seq::<Packet>::empty());
                                            assert(frames_bytes(Seq::<Packet>::empty())
                                                =~= Seq::<u8>::empty());
                                        }
                                        while k < pkts.len()
                                            invariant
                                                k <= pkts@.len(),
                                                pkts@.len() <= 2,
                                                w.wf(),
                                                !w.is_started(),
                                                w.spec_cap() == usize::MAX,
                                                w.spec_asyncmap() == 0xFFFFFFFFu32,
                                                w.bytes() == frames_bytes(pkts@.take(k as int)),
                                                w.bytes().len() <= 131083 * k,
                                                forall|j: int|
                                                    0 <= j < pkts@.len() ==> packet_wf(
                                                        #[trigger] pkts@[j],
                                                    ),
                                                forall|j: int|
                                                    0 <= j < pkts@.len() ==> packet_bytes(
                                                        #[trigger] pkts@[j],
                                                    ).len() <= 65537,
                                            decreases pkts@.len() - k,
                                        {
                                            proof {
                                                lemma_frame_bytes_len(
                                                    w.spec_asyncmap(),
                                                    packet_bytes(pkts@[k as int]),
                                                );
                                            }
                                            write_frame(&mut w, &pkts[k]);
                                            k = k + 1;
                                            proof {
                                                lemma_frames_bytes_take_step(pkts@, k - 1);
                                            }
                                        }
                                        proof {
                                            assert(pkts@.take(pkts@.len() as int) =~= pkts@);
                                        }
                                    },
                                }
                            } else {
                                proof {
                                    assert(!viewable0 || frame0.len() > 65531);
                                }
                            }
                        } else {
                            proof {
                                assert(!viewable0);
                            }
                        }
                    },
                }
            },
        }

        let ghost mid_ppp = self.ppp;
        let pkts2 = self.ppp.poll();
        proof {
            crate::ppp::lemma_phase_monotone(
                mid_ppp.spec_phase(),
                mid_ppp.spec_lcp().spec_state(),
                mid_ppp.spec_lcp().spec_proto().auth,
                mid_ppp.spec_pap().spec_state(),
                mid_ppp.spec_ipv4cp().spec_state(),
                mid_ppp.spec_opening(),
            );
        }
        let mut k: usize = 0;
        proof {
            assert(pkts2@.take(0) =~= Seq::<Packet>::empty());
            assert(frames_bytes(Seq::<Packet>::empty()) =~= Seq::<u8>::empty());
            assert(frames_bytes(r1) + frames_bytes(pkts2@.take(0)) =~= frames_bytes(r1));
        }
        while k < pkts2.len()
            invariant
                k <= pkts2@.len(),
                pkts2@.len() <= 1,
                w.wf(),
                !w.is_started(),
                w.spec_cap() == usize::MAX,
                w.spec_asyncmap() == 0xFFFFFFFFu32,
                w.bytes() == frames_bytes(r1) + frames_bytes(pkts2@.take(k as int)),
                w.bytes().len() <= 131083 * (2 + k),
                forall|j: int| 0 <= j < pkts2@.len() ==> packet_wf(#[trigger] pkts2@[j]),
                forall|j: int|
                    0 <= j < pkts2@.len() ==> packet_bytes(#[trigger] pkts2@[j]).len() <= 65537,
            decreases pkts2@.len() - k,
        {
            proof {
                lemma_frame_bytes_len(w.spec_asyncmap(), packet_bytes(pkts2@[k as int]));
            }
            write_frame(&mut w, &pkts2[k]);
            k = k + 1;
            proof {
                lemma_frames_bytes_take_step(pkts2@, k - 1);
                assert(frames_bytes(r1) + (frames_bytes(pkts2@.take(k - 1)) + frame_bytes(
                    0xFFFFFFFFu32,
                    packet_bytes(pkts2@[k - 1]),
                )) =~= (frames_bytes(r1) + frames_bytes(pkts2@.take(k - 1))) + frame_bytes(
                    0xFFFFFFFFu32,
                    packet_bytes(pkts2@[k - 1]),
                ));
            }
        }
        proof {
            assert(pkts2@.take(pkts2@.len() as int) =~= pkts2@);
        }
        let n = w.len();
        let out = w.get();
        *tx_buf = out;
        proof {
            lemma_frames_bytes_append(r1, pkts2@);
            assert(cf == (if viewable0 && frame0.len() <= 65531 && ProtocolType::spec_from_u16(
                be16(frame0[0], frame0[1]),
            ) != ProtocolType::IPv4 {
                Some(frame0)
            } else {
                Option::<Seq<u8>>::None
            }));
            assert(poll_dispatch(pre_ppp, self.ppp, cf, tx_buf@)) by {
                assert(poll_dispatch_for(pre_ppp, self.ppp, cf, tx_buf@, mid_ppp, r1, pkts2@));
            }
        }
        if n == 0 {
            PPPoSAction::Idle
        } else {
            PPPoSAction::Transmit(n)
        }
    }
}

/// The back-to-back encoding of a packet sequence as conservatively
/// escaped frames, in order.
pub open spec fn frames_bytes(ps: Seq<Packet>) -> Seq<u8>
    decreases ps.len(),
{
    if ps.len() == 0 {
        Seq::empty()
    } else {
        frames_bytes(ps.drop_last()) + frame_bytes(0xFFFFFFFFu32, packet_bytes(ps.last()))
    }
}

/// Framing one more packet appends that packet's frame.
pub proof fn lemma_frames_bytes_take_step(ps: Seq<Packet>, i: int)
    requires
        0 <= i < ps.len(),
    ensures
        frames_bytes(ps.take(i + 1)) == frames_bytes(ps.take(i)) + frame_bytes(
            0xFFFFFFFFu32,
            packet_bytes(ps[i]),
        ),
{
    assert(ps.take(i + 1).drop_last() =~= ps.take(i));
    assert(ps.take(i + 1).last() == ps[i]);
}

/// Framing distributes over concatenation.
pub proof fn lemma_frames_bytes_append(a: Seq<Packet>, b: Seq<Packet>)
    ensures
        frames_bytes(a + b) == frames_bytes(a) + frames_bytes(b),
    decreases b.len(),
{
    if b.len() == 0 {
        assert(a + b =~= a);
        assert(frames_bytes(b) =~= Seq::<u8>::empty());
        assert(frames_bytes(a) + frames_bytes(b) =~= frames_bytes(a));
    } else {
        lemma_frames_bytes_append(a, b.drop_last());
        assert((a + b).drop_last() =~= a + b.drop_last());
        assert((a + b).last() == b.last());
        assert(frames_bytes(a) + (frames_bytes(b.drop_last()) + frame_bytes(
            0xFFFFFFFFu32,
            packet_bytes(b.last()),
        )) =~= (frames_bytes(a) + frames_bytes(b.drop_last())) + frame_bytes(
            0xFFFFFFFFu32,
            packet_bytes(b.last()),
        ));
    }
}

/// One round of `poll` past the receive step, explained by the automaton
/// in the middle and the packets the two steps emitted: the dispatch of
/// the completed control frame (when one was there), the orchestrator's
/// phase step, and the transmit bytes as exactly their framed packets.
pub open spec fn poll_dispatch_for(
    pre: PPP,
    post: PPP,
    cf: Option<Seq<u8>>,
    tx: Seq<u8>,
    mid: PPP,
    r1: Seq<Packet>,
    r2: Seq<Packet>,
) -> bool {
    &&& match cf {
        Some(f) => crate::ppp::received_rel(pre, mid, f, r1),
        None => mid == pre && r1 == Seq::<Packet>::empty(),
    }
    &&& crate::ppp::poll_rel(mid, post, r2)
    &&& tx == frames_bytes(r1 + r2)
}

/// Some middle state and packet sequences explain the round.
pub open spec fn poll_dispatch(pre: PPP, post: PPP, cf: Option<Seq<u8>>, tx: Seq<u8>) -> bool {
    exists|mid: PPP, r1: Seq<Packet>, r2: Seq<Packet>| poll_dispatch_for(
        pre,
        post,
        cf,
        tx,
        mid,
        r1,
        r2,
    )
}

/// Frames one packet into the writer, which must have room for it: the
/// writer gains exactly the frame of the packet's bytes.
fn write_frame(w: &mut FrameWriter, p: &Packet)
    requires
        old(w).wf(),
        !old(w).is_started(),
        packet_wf(*p),
        old(w).bytes().len() + frame_bytes(old(w).spec_asyncmap(), packet_bytes(*p)).len() <= old(
            w,
        ).spec_cap(),
    ensures
        final(w).wf(),
        !final(w).is_started(),
        final(w).spec_cap() == old(w).spec_cap(),
        final(w).spec_asyncmap() == old(w).spec_asyncmap(),
        final(w).bytes() == old(w).bytes() + frame_bytes(
            old(w).spec_asyncmap(),
            packet_bytes(*p),
        ),
{
    let ghost map = w.spec_asyncmap();
    let mut pb: Vec<u8> = Vec::new();
    p.emit(&mut pb);
    proof {
        assert(pb@ =~= packet_bytes(*p));
        let whole = seq![0x03u8] + pb@ + fcs_bytes(pb@);
        assert(whole =~= (seq![0x03u8] + pb@) + fcs_bytes(pb@));
        lemma_escape_bytes_append(map, seq![0x03u8] + pb@, fcs_bytes(pb@));
        lemma_escape_bytes_append(map, seq![0x03u8], pb@);
        lemma_escape_bytes_singleton(map, 0x03);
    }
    if w.start().is_err() {
        vstd::pervasive::unreached()
    }
    if w.append(pb.as_slice()).is_err() {
        vstd::pervasive::unreached()
    }
    proof {
        assert(Seq::<u8>::empty() + pb@ =~= pb@);
    }
    if w.finish().is_err() {
        vstd::pervasive::unreached()
    }
}

} // verus!
