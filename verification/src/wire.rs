//! The PPP wire model: protocol numbers, control packet codes, option
//! TLVs, and the in-memory `Packet` that the state machines emit. Every
//! emitted structure has a byte-level specification (`packet_bytes` and its
//! helpers), and `emit` is proved to produce exactly those bytes.

use vstd::prelude::*;

use crate::util::{be16, push_all, read_be16, split_hi, split_lo, u16_hi, u16_lo};

verus! {

/// A PPP protocol number, as carried in the two bytes after the frame
/// header.
#[derive(Debug, Clone, Copy, PartialEq, Eq, Structural)]
pub enum ProtocolType {
    /// Any protocol this implementation does not handle.
    Unknown,
    /// Link Control Protocol (RFC 1661).
    LCP,
    /// Password Authentication Protocol (RFC 1334).
    PAP,
    /// Internet Protocol version 4.
    IPv4,
    /// IPv4 Control Protocol (RFC 1332).
    IPv4CP,
}

impl ProtocolType {
    /// The wire value of this protocol number.
    pub open spec fn spec_to_u16(self) -> u16 {
        match self {
            ProtocolType::Unknown => 0,
            ProtocolType::LCP => 0xc021,
            ProtocolType::PAP => 0xc023,
            ProtocolType::IPv4 => 0x0021,
            ProtocolType::IPv4CP => 0x8021,
        }
    }

    /// The protocol a wire value names, `Unknown` for all others.
    pub open spec fn spec_from_u16(v: u16) -> ProtocolType {
        if v == 0xc021 {
            ProtocolType::LCP
        } else if v == 0xc023 {
            ProtocolType::PAP
        } else if v == 0x0021 {
            ProtocolType::IPv4
        } else if v == 0x8021 {
            ProtocolType::IPv4CP
        } else {
            ProtocolType::Unknown
        }
    }

    pub fn to_u16(self) -> (r: u16)
        ensures
            r == self.spec_to_u16(),
    {
        match self {
            ProtocolType::Unknown => 0,
            ProtocolType::LCP => 0xc021,
            ProtocolType::PAP => 0xc023,
            ProtocolType::IPv4 => 0x0021,
            ProtocolType::IPv4CP => 0x8021,
        }
    }

    pub fn from_u16(v: u16) -> (r: ProtocolType)
        ensures
            r == ProtocolType::spec_from_u16(v),
    {
        if v == 0xc021 {
            ProtocolType::LCP
        } else if v == 0xc023 {
            ProtocolType::PAP
        } else if v == 0x0021 {
            ProtocolType::IPv4
        } else if v == 0x8021 {
            ProtocolType::IPv4CP
        } else {
            ProtocolType::Unknown
        }
    }
}

/// A PPP control packet code (RFC 1661 section 5).
#[derive(Debug, Clone, Copy, PartialEq, Eq, Structural)]
pub enum Code {
    /// Any code this implementation does not know.
    Unknown,
    ConfigureReq,
    ConfigureAck,
    ConfigureNack,
    ConfigureRej,
    TerminateReq,
    TerminateAck,
    CodeRej,
    ProtocolRej,
    EchoReq,
    EchoReply,
    DiscardReq,
}

impl Code {
    /// The wire value of this code (`Unknown` emits 0).
    pub open spec fn spec_to_u8(self) -> u8 {
        match self {
            Code::Unknown => 0,
            Code::ConfigureReq => 1,
            Code::ConfigureAck => 2,
            Code::ConfigureNack => 3,
            Code::ConfigureRej => 4,
            Code::TerminateReq => 5,
            Code::TerminateAck => 6,
            Code::CodeRej => 7,
            Code::ProtocolRej => 8,
            Code::EchoReq => 9,
            Code::EchoReply => 10,
            Code::DiscardReq => 11,
        }
    }

    /// The code a wire value names, `Unknown` for all others.
    pub open spec fn spec_from_u8(v: u8) -> Code {
        if v == 1 {
            Code::ConfigureReq
        } else if v == 2 {
            Code::ConfigureAck
        } else if v == 3 {
            Code::ConfigureNack
        } else if v == 4 {
            Code::ConfigureRej
        } else if v == 5 {
            Code::TerminateReq
        } else if v == 6 {
            Code::TerminateAck
        } else if v == 7 {
            Code::CodeRej
        } else if v == 8 {
            Code::ProtocolRej
        } else if v == 9 {
            Code::EchoReq
        } else if v == 10 {
            Code::EchoReply
        } else if v == 11 {
            Code::DiscardReq
        } else {
            Code::Unknown
        }
    }

    pub fn to_u8(self) -> (r: u8)
        ensures
            r == self.spec_to_u8(),
    {
        match self {
            Code::Unknown => 0,
            Code::ConfigureReq => 1,
            Code::ConfigureAck => 2,
            Code::ConfigureNack => 3,
            Code::ConfigureRej => 4,
            Code::TerminateReq => 5,
            Code::TerminateAck => 6,
            Code::CodeRej => 7,
            Code::ProtocolRej => 8,
            Code::EchoReq => 9,
            Code::EchoReply => 10,
            Code::DiscardReq => 11,
        }
    }

    pub fn from_u8(v: u8) -> (r: Code)
        ensures
            r == Code::spec_from_u8(v),
    {
        if v == 1 {
            Code::ConfigureReq
        } else if v == 2 {
            Code::ConfigureAck
        } else if v == 3 {
            Code::ConfigureNack
        } else if v == 4 {
            Code::ConfigureRej
        } else if v == 5 {
            Code::TerminateReq
        } else if v == 6 {
            Code::TerminateAck
        } else if v == 7 {
            Code::CodeRej
        } else if v == 8 {
            Code::ProtocolRej
        } else if v == 9 {
            Code::EchoReq
        } else if v == 10 {
            Code::EchoReply
        } else if v == 11 {
            Code::DiscardReq
        } else {
            Code::Unknown
        }
    }
}

/// One negotiation option: a code and its value bytes.
#[derive(Debug, Clone, PartialEq, Eq)]
pub struct OptionVal {
    pub code: u8,
    pub data: Vec<u8>,
}

/// The value bytes must leave room for the two TLV header bytes in the
/// option's own length field.
pub open spec fn opt_wf(o: OptionVal) -> bool {
    o.data@.len() + 2 <= 255
}

/// The TLV encoding of one option: code, total length, value.
pub open spec fn opt_bytes(o: OptionVal) -> Seq<u8> {
    seq![o.code, (o.data@.len() + 2) as u8] + o.data@
}

impl OptionVal {
    pub fn new(code: u8, data: &[u8]) -> (r: OptionVal)
        requires
            data@.len() + 2 <= 255,
        ensures
            r.code == code,
            r.data@ == data@,
            opt_wf(r),
    {
        let mut d: Vec<u8> = Vec::new();
        push_all(&mut d, data);
        OptionVal { code, data: d }
    }

    pub fn buffer_len(&self) -> (r: usize)
        requires
            opt_wf(*self),
        ensures
            r == opt_bytes(*self).len(),
    {
        2 + self.data.len()
    }

    /// Appends the TLV encoding of this option to `buf`.
    pub fn emit(&self, buf: &mut Vec<u8>)
        requires
            opt_wf(*self),
        ensures
            final(buf)@ == old(buf)@ + opt_bytes(*self),
    {
        buf.push(self.code);
        buf.push((self.data.len() + 2) as u8);
        push_all(buf, self.data.as_slice());
        proof {
            assert(buf@ =~= old(buf)@ + opt_bytes(*self));
        }
    }
}

/// An ordered list of negotiation options, emitted in insertion order.
#[derive(Debug, Clone, PartialEq, Eq)]
pub struct Options(pub Vec<OptionVal>);

/// Each option in the list is itself well formed.
pub open spec fn opts_wf(s: Seq<OptionVal>) -> bool {
    forall|i: int| 0 <= i < s.len() ==> opt_wf(#[trigger] s[i])
}

/// The concatenated TLV encodings of the options, in order.
pub open spec fn opts_bytes(s: Seq<OptionVal>) -> Seq<u8>
    decreases s.len(),
{
    if s.len() == 0 {
        Seq::empty()
    } else {
        opts_bytes(s.drop_last()) + opt_bytes(s.last())
    }
}

impl Options {
    pub fn buffer_len(&self) -> (r: usize)
        requires
            opts_bytes(self.0@).len() <= usize::MAX,
        ensures
            r == opts_bytes(self.0@).len(),
    {
        let mut total: usize = 0;
        let mut i: usize = 0;
        while i < self.0.len()
            invariant
                i <= self.0@.len(),
                opts_bytes(self.0@).len() <= usize::MAX,
                total == opts_bytes(self.0@.take(i as int)).len(),
            decreases self.0@.len() - i,
        {
            proof {
                lemma_opts_bytes_take_step(self.0@, i as int);
                lemma_opts_bytes_len_monotone(self.0@, i + 1);
            }
            total = total + (2 + self.0[i].data.len());
            i = i + 1;
        }
        proof {
            assert(self.0@.take(self.0@.len() as int) =~= self.0@);
        }
        total
    }

    /// Appends the encodings of all options to `buf`.
    pub fn emit(&self, buf: &mut Vec<u8>)
        requires
            opts_wf(self.0@),
        ensures
            final(buf)@ == old(buf)@ + opts_bytes(self.0@),
    {
        let mut i: usize = 0;
        while i < self.0.len()
            invariant
                i <= self.0@.len(),
                opts_wf(self.0@),
                buf@ == old(buf)@ + opts_bytes(self.0@.take(i as int)),
            decreases self.0@.len() - i,
        {
            self.0[i].emit(buf);
            proof {
                lemma_opts_bytes_take_step(self.0@, i as int);
            }
            i = i + 1;
        }
        proof {
            assert(self.0@.take(self.0@.len() as int) =~= self.0@);
        }
    }
}

/// Extending the prefix by one option appends that option's bytes.
pub proof fn lemma_opts_bytes_take_step(s: Seq<OptionVal>, i: int)
    requires
        0 <= i < s.len(),
    ensures
        opts_bytes(s.take(i + 1)) == opts_bytes(s.take(i)) + opt_bytes(s[i]),
{
    assert(s.take(i + 1).drop_last() =~= s.take(i));
    assert(s.take(i + 1).last() == s[i]);
}

/// A prefix never encodes to more bytes than the whole.
pub proof fn lemma_opts_bytes_len_monotone(s: Seq<OptionVal>, i: int)
    requires
        0 <= i <= s.len(),
    ensures
        opts_bytes(s.take(i)).len() <= opts_bytes(s).len(),
    decreases s.len() - i,
{
    if i == s.len() {
        assert(s.take(i) =~= s);
    } else {
        lemma_opts_bytes_take_step(s, i);
        lemma_opts_bytes_len_monotone(s, i + 1);
    }
}

/// The body of a PPP control packet.
#[derive(Debug, Clone, PartialEq, Eq)]
pub enum PPPPayload {
    /// Already formed bytes, starting at the Code byte's position.
    Raw(Vec<u8>),
    /// A PAP authenticate-request body: username and password.
    PAP(Vec<u8>, Vec<u8>),
    /// A list of negotiation options.
    Options(Options),
}

/// The body bytes of a control packet.
pub open spec fn ppp_payload_bytes(p: PPPPayload) -> Seq<u8> {
    match p {
        PPPPayload::Raw(d) => d@,
        PPPPayload::PAP(user, pass) => seq![user@.len() as u8] + user@ + seq![pass@.len() as u8]
            + pass@,
        PPPPayload::Options(o) => opts_bytes(o.0@),
    }
}

/// Bounds that keep the control packet's 16-bit length field honest.
pub open spec fn ppp_payload_wf(p: PPPPayload) -> bool {
    match p {
        PPPPayload::Raw(d) => d@.len() + 4 <= 65535,
        PPPPayload::PAP(user, pass) => user@.len() <= 255 && pass@.len() <= 255,
        PPPPayload::Options(o) => opts_wf(o.0@) && opts_bytes(o.0@).len() + 4 <= 65535,
    }
}

impl PPPPayload {
    pub fn buffer_len(&self) -> (r: usize)
        requires
            ppp_payload_wf(*self),
        ensures
            r == ppp_payload_bytes(*self).len(),
    {
        match self {
            PPPPayload::Raw(d) => d.len(),
            PPPPayload::PAP(user, pass) => {
                proof {
                    assert(ppp_payload_bytes(*self).len() == 2 + user@.len() + pass@.len());
                }
                1 + user.len() + 1 + pass.len()
            },
            PPPPayload::Options(o) => o.buffer_len(),
        }
    }

    /// Appends the body bytes to `buf`.
    pub fn emit(&self, buf: &mut Vec<u8>)
        requires
            ppp_payload_wf(*self),
        ensures
            final(buf)@ == old(buf)@ + ppp_payload_bytes(*self),
    {
        match self {
            PPPPayload::Raw(d) => {
                push_all(buf, d.as_slice());
            },
            PPPPayload::PAP(user, pass) => {
                buf.push(user.len() as u8);
                push_all(buf, user.as_slice());
                buf.push(pass.len() as u8);
                push_all(buf, pass.as_slice());
                proof {
                    assert(buf@ =~= old(buf)@ + ppp_payload_bytes(*self));
                }
            },
            PPPPayload::Options(o) => {
                o.emit(buf);
            },
        }
    }
}

/// A control packet's payload: either raw bytes or a code/id/body triple.
#[derive(Debug, Clone, PartialEq, Eq)]
pub enum Payload {
    /// Bytes emitted verbatim after the protocol field.
    Raw(Vec<u8>),
    /// Code, identifier and body; the 16-bit length field is derived.
    PPP(Code, u8, PPPPayload),
}

/// The bytes following the protocol field.
pub open spec fn payload_bytes(p: Payload) -> Seq<u8> {
    match p {
        Payload::Raw(d) => d@,
        Payload::PPP(code, id, body) => {
            let b = ppp_payload_bytes(body);
            seq![code.spec_to_u8(), id, u16_hi((b.len() + 4) as u16), u16_lo((b.len() + 4) as u16)]
                + b
        },
    }
}

pub open spec fn payload_wf(p: Payload) -> bool {
    match p {
        Payload::Raw(_) => true,
        Payload::PPP(_, _, body) => ppp_payload_wf(body),
    }
}

impl Payload {
    pub fn buffer_len(&self) -> (r: usize)
        requires
            payload_wf(*self),
        ensures
            r == payload_bytes(*self).len(),
    {
        match self {
            Payload::Raw(d) => d.len(),
            Payload::PPP(_code, _id, body) => 1 + 1 + 2 + body.buffer_len(),
        }
    }

    /// Appends the payload bytes to `buf`.
    pub fn emit(&self, buf: &mut Vec<u8>)
        requires
            payload_wf(*self),
        ensures
            final(buf)@ == old(buf)@ + payload_bytes(*self),
    {
        match self {
            Payload::Raw(d) => {
                push_all(buf, d.as_slice());
            },
            Payload::PPP(code, id, body) => {
                let body_len = body.buffer_len();
                let len16 = (body_len + 4) as u16;
                buf.push(code.to_u8());
                buf.push(*id);
                buf.push(split_hi(len16));
                buf.push(split_lo(len16));
                body.emit(buf);
                proof {
                    assert(buf@ =~= old(buf)@ + payload_bytes(*self));
                }
            },
        }
    }
}

/// One logical outbound PPP unit: a protocol number and a payload.
#[derive(Debug, Clone, PartialEq, Eq)]
pub struct Packet {
    pub proto: ProtocolType,
    pub payload: Payload,
}

/// The full encoding of the packet: protocol field, then payload.
pub open spec fn packet_bytes(p: Packet) -> Seq<u8> {
    seq![u16_hi(p.proto.spec_to_u16()), u16_lo(p.proto.spec_to_u16())] + payload_bytes(p.payload)
}

pub open spec fn packet_wf(p: Packet) -> bool {
    payload_wf(p.payload)
}

impl Packet {
    pub fn buffer_len(&self) -> (r: usize)
        requires
            packet_wf(*self),
            packet_bytes(*self).len() <= usize::MAX,
        ensures
            r == packet_bytes(*self).len(),
    {
        2 + self.payload.buffer_len()
    }

    /// Appends the packet's encoding to `buf`.
    pub fn emit(&self, buf: &mut Vec<u8>)
        requires
            packet_wf(*self),
        ensures
            final(buf)@ == old(buf)@ + packet_bytes(*self),
    {
        let proto = self.proto.to_u16();
        buf.push(split_hi(proto));
        buf.push(split_lo(proto));
        self.payload.emit(buf);
        proof {
            assert(buf@ =~= old(buf)@ + packet_bytes(*self));
        }
    }
}

/// A spec-level picture of one option: its code and value bytes.
pub open spec fn opt_pair(o: OptionVal) -> (u8, Seq<u8>) {
    (o.code, o.data@)
}

/// The spec-level picture of an option list.
pub open spec fn opts_pairs(s: Seq<OptionVal>) -> Seq<(u8, Seq<u8>)> {
    s.map_values(|o: OptionVal| opt_pair(o))
}

/// The TLV encoding of a spec-level option.
pub open spec fn pair_bytes(p: (u8, Seq<u8>)) -> Seq<u8> {
    seq![p.0, (p.1.len() + 2) as u8] + p.1
}

/// The concatenated TLV encodings of spec-level options.
pub open spec fn pairs_bytes(s: Seq<(u8, Seq<u8>)>) -> Seq<u8>
    decreases s.len(),
{
    if s.len() == 0 {
        Seq::empty()
    } else {
        pairs_bytes(s.drop_last()) + pair_bytes(s.last())
    }
}

/// An option list and its spec-level picture encode to the same bytes.
pub proof fn lemma_opts_bytes_pairs(s: Seq<OptionVal>)
    ensures
        opts_bytes(s) == pairs_bytes(opts_pairs(s)),
    decreases s.len(),
{
    if s.len() == 0 {
        assert(opts_pairs(s) =~= Seq::<(u8, Seq<u8>)>::empty());
    } else {
        lemma_opts_bytes_pairs(s.drop_last());
        assert(opts_pairs(s).drop_last() =~= opts_pairs(s.drop_last()));
        assert(opts_pairs(s).last() == opt_pair(s.last()));
        assert(pair_bytes(opt_pair(s.last())) == opt_bytes(s.last()));
    }
}

/// A well-formed control packet encodes within the 16-bit length field
/// plus the protocol field and its own header.
pub proof fn lemma_packet_bytes_bound(p: Packet)
    requires
        packet_wf(p),
        p.payload is PPP,
    ensures
        packet_bytes(p).len() <= 65537,
{
}

/// Each well-formed option encodes to at most 257 bytes, so a bounded list
/// stays well under the 16-bit length field.
pub proof fn lemma_opts_bytes_len_bound(s: Seq<OptionVal>)
    requires
        opts_wf(s),
    ensures
        opts_bytes(s).len() <= s.len() * 257,
    decreases s.len(),
{
    if s.len() > 0 {
        assert(opts_wf(s.drop_last())) by {
            assert(forall|i: int|
                0 <= i < s.len() - 1 ==> s.drop_last()[i] == #[trigger] s[i]);
        }
        lemma_opts_bytes_len_bound(s.drop_last());
        assert(opt_bytes(s.last()).len() <= 257);
    }
}

/// A stream of options is either a well-formed TLV sequence, read here in
/// order, or malformed.
pub open spec fn parse_opts(p: Seq<u8>) -> Option<Seq<(u8, Seq<u8>)>>
    decreases p.len(),
{
    if p.len() == 0 {
        Some(Seq::empty())
    } else if p.len() < 2 {
        None
    } else {
        let len = p[1] as int;
        if p.len() < len || len < 2 {
            None
        } else {
            match parse_opts(p.skip(len)) {
                None => None,
                Some(rest) => Some(seq![(p[0], p.subrange(2, len))] + rest),
            }
        }
    }
}

/// The option stream is malformed: an entry is truncated or its length
/// field is shorter than the TLV header.
#[derive(Debug, PartialEq, Eq, Structural, Clone, Copy)]
pub struct MalformedError;

/// Reads the TLV option stream of a control packet body, in order.
/// Returns the options exactly when the stream parses, the error exactly
/// when it does not.
pub fn parse_options(pkt: &[u8]) -> (r: Result<Vec<OptionVal>, MalformedError>)
    ensures
        match r {
            Ok(v) => parse_opts(pkt@) == Some(opts_pairs(v@)) && opts_wf(v@) && 2 * v@.len()
                <= pkt@.len(),
            Err(_) => parse_opts(pkt@) is None,
        },
{
    let mut out: Vec<OptionVal> = Vec::new();
    let mut off: usize = 0;
    let total = pkt.len();
    proof {
        assert(pkt@.len() == total);
        assert(pkt@.skip(0) =~= pkt@);
        if parse_opts(pkt@) is Some {
            assert(opts_pairs(out@) + parse_opts(pkt@).unwrap() =~= parse_opts(pkt@).unwrap());
        }
    }
    while off < total
        invariant
            total == pkt@.len(),
            off <= pkt@.len(),
            pkt@.len() <= usize::MAX,
            opts_wf(out@),
            2 * out@.len() <= off,
            ({
                let whole = parse_opts(pkt@);
                let rest = parse_opts(pkt@.skip(off as int));
                match rest {
                    Some(tail) => whole == Some(opts_pairs(out@) + tail),
                    None => whole is None,
                }
            }),
        decreases pkt@.len() - off,
    {
        if total - off < 2 {
            return Err(MalformedError);
        }
        let code = pkt[off];
        let len = pkt[off + 1] as usize;
        if total - off < len || len < 2 {
            return Err(MalformedError);
        }
        let mut data: Vec<u8> = Vec::new();
        let mut j: usize = 2;
        while j < len
            invariant
                2 <= j <= len,
                off + len <= pkt@.len(),
                pkt@.len() <= usize::MAX,
                data@ == pkt@.subrange(off + 2, off + j),
            decreases len - j,
        {
            data.push(pkt[off + j]);
            j = j + 1;
            proof {
                assert(data@ =~= pkt@.subrange(off as int + 2, off + j));
            }
        }
        let ghost prev = out@;
        let ghost sub = pkt@.skip(off as int);
        out.push(OptionVal { code, data });
        proof {
            assert(sub[1] == pkt@[off + 1]);
            assert(sub[0] == pkt@[off as int]);
            assert(sub.subrange(2, len as int) =~= pkt@.subrange(off + 2, off + len));
            assert(sub.skip(len as int) =~= pkt@.skip(off + len));
            assert(opts_pairs(out@) =~= opts_pairs(prev) + seq![(code, pkt@.subrange(off + 2, off + len))]);
            assert(parse_opts(sub) == match parse_opts(pkt@.skip(off + len)) {
                None => None::<Seq<(u8, Seq<u8>)>>,
                Some(rest) => Some(seq![(code, pkt@.subrange(off + 2, off + len))] + rest),
            });
            assert(forall|tail: Seq<(u8, Seq<u8>)>|
                opts_pairs(prev) + (seq![(code, pkt@.subrange(off + 2, off + len))] + tail)
                    =~= opts_pairs(out@) + tail);
        }
        off = off + len;
    }
    proof {
        assert(pkt@.skip(off as int) =~= Seq::<u8>::empty());
        assert(parse_opts(Seq::<u8>::empty()) == Some(Seq::<(u8, Seq<u8>)>::empty()));
        assert(opts_pairs(out@) + Seq::<(u8, Seq<u8>)>::empty() =~= opts_pairs(out@));
    }
    Ok(out)
}

/// The bytes of a whole control packet: protocol field, code, identifier,
/// the 16-bit length covering header and body, then the body.
pub open spec fn control_packet_bytes(
    proto: ProtocolType,
    code: Code,
    id: u8,
    body: Seq<u8>,
) -> Seq<u8> {
    seq![
        u16_hi(proto.spec_to_u16()),
        u16_lo(proto.spec_to_u16()),
        code.spec_to_u8(),
        id,
        u16_hi((body.len() + 4) as u16),
        u16_lo((body.len() + 4) as u16),
    ] + body
}

/// A packet with a code/id/body payload encodes to `control_packet_bytes`.
pub proof fn lemma_control_packet_bytes(p: Packet)
    requires
        p.payload is PPP,
    ensures
        ({
            let (code, id, body) = match p.payload {
                Payload::PPP(c, i, b) => (c, i, ppp_payload_bytes(b)),
                _ => arbitrary(),
            };
            packet_bytes(p) == control_packet_bytes(p.proto, code, id, body)
        }),
{
    match p.payload {
        Payload::PPP(c, i, b) => {
            assert(packet_bytes(p) =~= control_packet_bytes(p.proto, c, i, ppp_payload_bytes(b)));
        },
        _ => {},
    }
}

} // verus!
