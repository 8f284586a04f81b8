//! The RFC 1661 option negotiation state machine, shared by LCP and
//! IPv4CP. A capability object supplies the protocol-specific judgement on
//! options; the machine owns the state, the outbound identifier, and the
//! response discipline: every (code, state) pair of the RFC 1661 table is
//! covered, and a received Configure-Request is answered with the worst
//! verdict over its options, carrying exactly the options that earned it.

use vstd::prelude::*;

use crate::util::{be16, read_be16};
use crate::wire::{opts_pairs, opts_wf, packet_bytes, packet_wf, pair_bytes, pairs_bytes,
    parse_options,
    parse_opts, Code, Options,
    OptionVal, Packet, Payload, PPPPayload, ProtocolType};

verus! {

/// The capability's judgement on one option of a peer's Configure-Request.
#[derive(Debug, Clone, PartialEq, Eq)]
pub enum Verdict {
    /// The option is acceptable as sent.
    Ack,
    /// The option is recognised but these value bytes are wanted instead.
    Nack(Vec<u8>),
    /// The option is not negotiable.
    Rej,
}

/// A verdict as the contracts speak of it: the suggested bytes of a Nack
/// as a sequence.
pub enum Judgement {
    Ack,
    Nack(Seq<u8>),
    Rej,
}

/// The judgement a verdict value stands for.
pub open spec fn judgement_of(v: Verdict) -> Judgement {
    match v {
        Verdict::Ack => Judgement::Ack,
        Verdict::Nack(d) => Judgement::Nack(d@),
        Verdict::Rej => Judgement::Rej,
    }
}

/// The judgements of a verdict sequence, in order.
pub open spec fn judgements_seq(vs: Seq<Verdict>) -> Seq<Judgement> {
    vs.map_values(|v: Verdict| judgement_of(v))
}

/// Suggested value bytes must fit an option's length field.
pub open spec fn judgement_wf(j: Judgement) -> bool {
    match j {
        Judgement::Nack(d) => d.len() + 2 <= 255,
        _ => true,
    }
}

/// The response code a judgement asks for.
pub open spec fn judgement_code(j: Judgement) -> Code {
    match j {
        Judgement::Ack => Code::ConfigureAck,
        Judgement::Nack(_) => Code::ConfigureNack,
        Judgement::Rej => Code::ConfigureRej,
    }
}

/// The worst judgement over a sequence, under Ack < Nack < Rej; Ack when
/// the sequence is empty.
pub open spec fn worst_code(js: Seq<Judgement>) -> Code
    decreases js.len(),
{
    if js.len() == 0 {
        Code::ConfigureAck
    } else {
        let w = worst_code(js.drop_last());
        if judgement_code(js.last()).spec_to_u8() > w.spec_to_u8() {
            judgement_code(js.last())
        } else {
            w
        }
    }
}

/// The worst judgement is an Ack, Nack or Reject code.
pub proof fn lemma_worst_code_range(js: Seq<Judgement>)
    ensures
        worst_code(js) == Code::ConfigureAck || worst_code(js) == Code::ConfigureNack
            || worst_code(js) == Code::ConfigureRej,
    decreases js.len(),
{
    if js.len() > 0 {
        lemma_worst_code_range(js.drop_last());
    }
}

/// The option carried back for one judged option: the received bytes for
/// Ack and Rej, the suggested bytes for Nack.
pub open spec fn respond_pair(o: (u8, Seq<u8>), j: Judgement) -> (u8, Seq<u8>) {
    match j {
        Judgement::Nack(d) => (o.0, d),
        _ => o,
    }
}

/// The options a response carries: those whose judgement is the winning
/// code `w`, in order, each with its judgement's bytes.
pub open spec fn response_pairs(opts: Seq<(u8, Seq<u8>)>, js: Seq<Judgement>, w: Code) -> Seq<
    (u8, Seq<u8>),
>
    decreases opts.len(),
{
    if opts.len() == 0 || js.len() != opts.len() {
        Seq::empty()
    } else {
        let rest = response_pairs(opts.drop_last(), js.drop_last(), w);
        if judgement_code(js.last()) == w {
            rest.push(respond_pair(opts.last(), js.last()))
        } else {
            rest
        }
    }
}

/// Verdict precedence: one Rej anywhere makes the response a Reject; Nacks
/// without a Rej make it a Nack; Acks alone make it an Ack.
pub proof fn lemma_verdict_precedence(js: Seq<Judgement>)
    ensures
        (exists|i: int| 0 <= i < js.len() && js[i] is Rej) ==> worst_code(js)
            == Code::ConfigureRej,
        !(exists|i: int| 0 <= i < js.len() && js[i] is Rej) && (exists|i: int|
            0 <= i < js.len() && js[i] is Nack) ==> worst_code(js) == Code::ConfigureNack,
        (forall|i: int| 0 <= i < js.len() ==> js[i] is Ack) ==> worst_code(js)
            == Code::ConfigureAck,
    decreases js.len(),
{
    if js.len() > 0 {
        lemma_verdict_precedence(js.drop_last());
        if exists|i: int| 0 <= i < js.len() && js[i] is Rej {
            let i = choose|i: int| 0 <= i < js.len() && js[i] is Rej;
            if i < js.len() - 1 {
                assert(js.drop_last()[i] is Rej);
            }
        }
        if exists|i: int| 0 <= i < js.len() && js[i] is Nack {
            let i = choose|i: int| 0 <= i < js.len() && js[i] is Nack;
            if i < js.len() - 1 {
                assert(js.drop_last()[i] is Nack);
            }
        }
        assert(forall|i: int|
            0 <= i < js.len() - 1 ==> js.drop_last()[i] == #[trigger] js[i]);
    }
}

/// Every option in a response corresponds to a judged option whose
/// judgement is the winning code.
pub proof fn lemma_response_options_match(
    opts: Seq<(u8, Seq<u8>)>,
    js: Seq<Judgement>,
    w: Code,
    k: int,
)
    requires
        js.len() == opts.len(),
        0 <= k < response_pairs(opts, js, w).len(),
    ensures
        exists|i: int|
            0 <= i < opts.len() && judgement_code(js[i]) == w && response_pairs(opts, js, w)[k]
                == respond_pair(opts[i], js[i]),
    decreases opts.len(),
{
    if opts.len() > 0 {
        let rest = response_pairs(opts.drop_last(), js.drop_last(), w);
        if k < rest.len() {
            lemma_response_options_match(opts.drop_last(), js.drop_last(), w, k);
            let i = choose|i: int|
                0 <= i < opts.len() - 1 && judgement_code(js.drop_last()[i]) == w && rest[k]
                    == respond_pair(opts.drop_last()[i], js.drop_last()[i]);
            assert(judgement_code(js[i]) == w && response_pairs(opts, js, w)[k] == respond_pair(
                opts[i],
                js[i],
            ));
        } else {
            assert(judgement_code(js[opts.len() - 1]) == w && response_pairs(opts, js, w)[k]
                == respond_pair(opts[opts.len() - 1], js[opts.len() - 1]));
        }
    }
}


/// Each answered option takes at most 255 bytes in the response: the
/// received bytes for Ack and Rej, a well-formed suggestion for Nack.
proof fn lemma_response_pairs_bytes_bound(opts: Seq<(u8, Seq<u8>)>, js: Seq<Judgement>, w: Code)
    requires
        js.len() == opts.len(),
        forall|i: int| 0 <= i < opts.len() ==> (#[trigger] opts[i]).1.len() + 2 <= 255,
        forall|i: int| 0 <= i < js.len() ==> judgement_wf(#[trigger] js[i]),
    ensures
        pairs_bytes(response_pairs(opts, js, w)).len() <= 255 * opts.len(),
    decreases opts.len(),
{
    if opts.len() > 0 {
        assert(forall|i: int|
            0 <= i < opts.len() - 1 ==> opts.drop_last()[i] == #[trigger] opts[i]);
        assert(forall|i: int| 0 <= i < js.len() - 1 ==> js.drop_last()[i] == #[trigger] js[i]);
        lemma_response_pairs_bytes_bound(opts.drop_last(), js.drop_last(), w);
        let rest = response_pairs(opts.drop_last(), js.drop_last(), w);
        if judgement_code(js.last()) == w {
            let kept = respond_pair(opts.last(), js.last());
            assert(rest.push(kept).drop_last() =~= rest);
            assert(pair_bytes(kept).len() <= 255);
        }
    }
}

/// A well-formed Configure-Request of at most 255 options is never dropped
/// for the size of its response: every judged option answers in at most
/// 255 bytes, so the response always fits the 16-bit length field.
pub proof fn lemma_small_request_always_answered(opts: Seq<(u8, Seq<u8>)>, js: Seq<Judgement>)
    requires
        js.len() == opts.len(),
        opts.len() <= 255,
        forall|i: int| 0 <= i < opts.len() ==> (#[trigger] opts[i]).1.len() + 2 <= 255,
        forall|i: int| 0 <= i < js.len() ==> judgement_wf(#[trigger] js[i]),
    ensures
        pairs_bytes(response_pairs(opts, js, worst_code(js))).len() <= 65531,
{
    lemma_response_pairs_bytes_bound(opts, js, worst_code(js));
}

/// The five states of the negotiation automaton.
#[derive(Debug, Clone, Copy, PartialEq, Eq, Structural)]
pub enum State {
    /// Negotiation is not running.
    Closed,
    /// Our Configure-Request is out, nothing agreed yet.
    ReqSent,
    /// The peer acknowledged our request; its own is pending.
    AckReceived,
    /// We acknowledged the peer's request; ours is pending.
    AckSent,
    /// Both sides acknowledged: the protocol is up.
    Opened,
}

/// The identifier that follows `id` on the next outbound request.
pub open spec fn next_id_spec(id: u8) -> u8 {
    if id == 255 {
        0
    } else {
        (id + 1) as u8
    }
}

/// `n` outbound requests advance the identifier `n` times.
pub open spec fn iter_next_id(id: u8, n: nat) -> u8
    decreases n,
{
    if n == 0 {
        id
    } else {
        iter_next_id(next_id_spec(id), (n - 1) as nat)
    }
}

proof fn lemma_iter_next_id_mod(id: u8, n: nat)
    ensures
        iter_next_id(id, n) == ((id + n) % 256) as u8,
    decreases n,
{
    if n == 0 {
        assert(id < 256);
        assert((id + 0) % 256 == id);
    } else {
        lemma_iter_next_id_mod(next_id_spec(id), (n - 1) as nat);
        assert((next_id_spec(id) + (n - 1)) % 256 == (id + n) % 256);
    }
}

/// Identifier wraparound: after 256 outbound requests the identifier is
/// back where it started, having passed through every value once.
pub proof fn lemma_id_wraparound(id: u8)
    ensures
        iter_next_id(id, 256) == id,
        forall|m: nat, n: nat|
            m < n <= 256 && #[trigger] iter_next_id(id, m) == #[trigger] iter_next_id(id, n)
                ==> n == 256 && m == 0,
{
    lemma_iter_next_id_mod(id, 256);
    assert forall|m: nat, n: nat|
        m < n <= 256 && #[trigger] iter_next_id(id, m) == #[trigger] iter_next_id(id, n)
        implies n == 256 && m == 0 by {
        lemma_iter_next_id_mod(id, m);
        lemma_iter_next_id_mod(id, n);
    }
}

/// Where a Configure-Request moves the automaton, by whether we acked it.
pub open spec fn cfg_req_next(s: State, acked: bool) -> State {
    match (acked, s) {
        (true, State::ReqSent) => State::AckSent,
        (true, State::AckReceived) => State::Opened,
        (true, State::AckSent) => State::AckSent,
        (true, State::Opened) => State::AckSent,
        (false, State::AckSent) => State::ReqSent,
        (false, State::Opened) => State::ReqSent,
        (_, x) => x,
    }
}

/// Where a Configure-Ack moves the automaton.
pub open spec fn cfg_ack_next(s: State) -> State {
    match s {
        State::ReqSent => State::AckReceived,
        State::AckSent => State::Opened,
        State::AckReceived => State::ReqSent,
        State::Opened => State::ReqSent,
        State::Closed => State::Closed,
    }
}

/// Where a Configure-Nack or Configure-Reject moves the automaton.
pub open spec fn cfg_nack_next(s: State) -> State {
    match s {
        State::AckSent => State::AckSent,
        _ => State::ReqSent,
    }
}

/// Where a Terminate-Request moves the automaton.
pub open spec fn term_req_next(s: State) -> State {
    match s {
        State::Opened => State::Closed,
        _ => State::ReqSent,
    }
}

/// Negotiation monotonicity: from `Closed`, opening sends a request and
/// moves to `ReqSent`; a peer request we fully acknowledge moves to
/// `AckSent`; the peer's acknowledgment then opens the protocol. No
/// identifier takes part in these transitions.
pub proof fn lemma_fsm_opens()
    ensures
        cfg_req_next(State::ReqSent, true) == State::AckSent,
        cfg_ack_next(State::AckSent) == State::Opened,
        cfg_ack_next(cfg_req_next(State::ReqSent, true)) == State::Opened,
{
}

/// What a protocol capability provides to the negotiation machine. The
/// spec functions pin every executable method: the machine's contracts
/// speak of the capability's evolution through them.
pub trait Protocol: Sized {
    /// The capability's own well-formedness.
    spec fn inv(&self) -> bool;

    /// The protocol number the capability negotiates for.
    spec fn spec_protocol(&self) -> ProtocolType;

    /// The options this capability currently requests.
    spec fn own_options_spec(&self) -> Seq<(u8, Seq<u8>)>;

    /// The capability after the peer answered our option `code` with
    /// `data` (a suggestion, or a rejection when `is_rej`).
    spec fn nacked_spec(&self, code: u8, data: Seq<u8>, is_rej: bool) -> Self;

    /// The capability at the start of judging a peer Configure-Request.
    spec fn start_spec(&self) -> Self;

    /// The judgement one option of a peer Configure-Request draws.
    spec fn judge_spec(&self, code: u8, data: Seq<u8>) -> Judgement;

    /// The capability after judging that option.
    spec fn judged_spec(&self, code: u8, data: Seq<u8>) -> Self;

    fn protocol(&self) -> (r: ProtocolType)
        ensures
            r == self.spec_protocol(),
    ;

    /// The options we wish to request, at most six, each well formed:
    /// exactly `own_options_spec`, leaving the capability unchanged.
    fn own_options(&mut self) -> (r: Vec<OptionVal>)
        requires
            old(self).inv(),
        ensures
            *final(self) == *old(self),
            final(self).inv(),
            r@.len() <= 6,
            opts_wf(r@),
            opts_pairs(r@) == old(self).own_options_spec(),
    ;

    /// The peer nacked or rejected one of our options.
    fn own_option_nacked(&mut self, code: u8, data: &[u8], is_rej: bool)
        requires
            old(self).inv(),
        ensures
            final(self).inv(),
            final(self).spec_protocol() == old(self).spec_protocol(),
            *final(self) == old(self).nacked_spec(code, data@, is_rej),
    ;

    /// A peer Configure-Request is about to be judged option by option.
    fn peer_options_start(&mut self)
        requires
            old(self).inv(),
        ensures
            final(self).inv(),
            final(self).spec_protocol() == old(self).spec_protocol(),
            *final(self) == old(self).start_spec(),
    ;

    /// Judge one option of the peer's Configure-Request.
    fn peer_option_received(&mut self, code: u8, data: &[u8]) -> (r: Verdict)
        requires
            old(self).inv(),
        ensures
            final(self).inv(),
            final(self).spec_protocol() == old(self).spec_protocol(),
            *final(self) == old(self).judged_spec(code, data@),
            judgement_of(r) == old(self).judge_spec(code, data@),
            judgement_wf(judgement_of(r)),
    ;
}

/// The capability after judging a sequence of options in order.
pub open spec fn proto_after<P: Protocol>(p: P, opts: Seq<(u8, Seq<u8>)>) -> P
    decreases opts.len(),
{
    if opts.len() == 0 {
        p
    } else {
        proto_after(p.judged_spec(opts[0].0, opts[0].1), opts.skip(1))
    }
}

/// The judgements a sequence of options draws, in order, as the capability
/// evolves under them.
pub open spec fn judgements_of<P: Protocol>(p: P, opts: Seq<(u8, Seq<u8>)>) -> Seq<Judgement>
    decreases opts.len(),
{
    if opts.len() == 0 {
        Seq::empty()
    } else {
        seq![p.judge_spec(opts[0].0, opts[0].1)] + judgements_of(
            p.judged_spec(opts[0].0, opts[0].1),
            opts.skip(1),
        )
    }
}

/// The capability after the peer answered our request's options in order.
pub open spec fn nacked_after<P: Protocol>(p: P, opts: Seq<(u8, Seq<u8>)>, is_rej: bool) -> P
    decreases opts.len(),
{
    if opts.len() == 0 {
        p
    } else {
        nacked_after(p.nacked_spec(opts[0].0, opts[0].1, is_rej), opts.skip(1), is_rej)
    }
}

/// Judging one more option is one more step of the capability.
pub proof fn lemma_proto_after_snoc<P: Protocol>(p: P, opts: Seq<(u8, Seq<u8>)>, i: int)
    requires
        0 <= i < opts.len(),
    ensures
        proto_after(p, opts.take(i + 1)) == proto_after(p, opts.take(i)).judged_spec(
            opts[i].0,
            opts[i].1,
        ),
        judgements_of(p, opts.take(i + 1)) == judgements_of(p, opts.take(i)).push(
            proto_after(p, opts.take(i)).judge_spec(opts[i].0, opts[i].1),
        ),
    decreases i,
{
    if i == 0 {
        let p1 = p.judged_spec(opts[0].0, opts[0].1);
        assert(opts.take(0) =~= Seq::<(u8, Seq<u8>)>::empty());
        assert(opts.take(1) =~= seq![opts[0]]);
        assert(seq![opts[0]].skip(1) =~= Seq::<(u8, Seq<u8>)>::empty());
        assert(proto_after(p1, Seq::<(u8, Seq<u8>)>::empty()) == p1);
        assert(judgements_of(p1, Seq::<(u8, Seq<u8>)>::empty()) =~= Seq::<Judgement>::empty());
        assert(judgements_of(p, opts.take(1)) =~= seq![p.judge_spec(opts[0].0, opts[0].1)]);
        assert(seq![p.judge_spec(opts[0].0, opts[0].1)] =~= Seq::<Judgement>::empty().push(
            p.judge_spec(opts[0].0, opts[0].1),
        ));
    } else {
        let p1 = p.judged_spec(opts[0].0, opts[0].1);
        let rest = opts.skip(1);
        assert(opts.take(i)[0] == opts[0]);
        assert(opts.take(i).skip(1) =~= rest.take(i - 1));
        assert(opts.take(i + 1)[0] == opts[0]);
        assert(opts.take(i + 1).skip(1) =~= rest.take(i));
        assert(rest[i - 1] == opts[i]);
        lemma_proto_after_snoc(p1, rest, i - 1);
        assert(seq![p.judge_spec(opts[0].0, opts[0].1)] + judgements_of(p1, rest.take(i))
            =~= (seq![p.judge_spec(opts[0].0, opts[0].1)] + judgements_of(p1, rest.take(i - 1))).push(
            proto_after(p1, rest.take(i - 1)).judge_spec(opts[i].0, opts[i].1),
        ));
    }
}

/// Answering one more option is one more step of the capability.
pub proof fn lemma_nacked_after_snoc<P: Protocol>(
    p: P,
    opts: Seq<(u8, Seq<u8>)>,
    is_rej: bool,
    i: int,
)
    requires
        0 <= i < opts.len(),
    ensures
        nacked_after(p, opts.take(i + 1), is_rej) == nacked_after(p, opts.take(i), is_rej)
            .nacked_spec(opts[i].0, opts[i].1, is_rej),
    decreases i,
{
    if i == 0 {
        let p1 = p.nacked_spec(opts[0].0, opts[0].1, is_rej);
        assert(opts.take(0) =~= Seq::<(u8, Seq<u8>)>::empty());
        assert(opts.take(1) =~= seq![opts[0]]);
        assert(seq![opts[0]].skip(1) =~= Seq::<(u8, Seq<u8>)>::empty());
        assert(nacked_after(p1, Seq::<(u8, Seq<u8>)>::empty(), is_rej) == p1);
    } else {
        let p1 = p.nacked_spec(opts[0].0, opts[0].1, is_rej);
        let rest = opts.skip(1);
        assert(opts.take(i)[0] == opts[0]);
        assert(opts.take(i).skip(1) =~= rest.take(i - 1));
        assert(opts.take(i + 1)[0] == opts[0]);
        assert(opts.take(i + 1).skip(1) =~= rest.take(i));
        assert(rest[i - 1] == opts[i]);
        lemma_nacked_after_snoc(p1, rest, is_rej, i - 1);
    }
}

/// A valid control packet header: six bytes at least, and a length field
/// that, with the protocol field, fits the packet and covers its own
/// header.
pub open spec fn hdr_ok(h: Seq<u8>) -> bool {
    &&& h.len() >= 6
    &&& 6 <= be16(h[4], h[5]) + 2
    &&& be16(h[4], h[5]) + 2 <= h.len()
}

/// The packet cut down to its declared length.
pub open spec fn truncated(h: Seq<u8>) -> Seq<u8> {
    h.take(be16(h[4], h[5]) + 2)
}

/// An empty Terminate-Ack under the peer's identifier.
pub open spec fn is_terminate_ack(p: Packet, proto: ProtocolType, id: u8) -> bool {
    match p.payload {
        Payload::PPP(c, pid, PPPPayload::Raw(d)) => p.proto == proto && c == Code::TerminateAck
            && pid == id && d@.len() == 0,
        _ => false,
    }
}

/// A Configure-Request carrying exactly the options `opts` (ours, as the
/// capability currently requests them) under identifier `id`.
pub open spec fn is_configure_request(
    p: Packet,
    proto: ProtocolType,
    id: u8,
    opts: Seq<(u8, Seq<u8>)>,
) -> bool {
    match p.payload {
        Payload::PPP(c, pid, PPPPayload::Options(o)) => p.proto == proto && c
            == Code::ConfigureReq && pid == id && o.0@.len() <= 6 && opts_pairs(o.0@) == opts
            && packet_wf(p),
        _ => false,
    }
}

/// The inbound packet `t` echoed back with its code flipped to EchoReply.
pub open spec fn is_echo_reply_of(p: Packet, proto: ProtocolType, t: Seq<u8>) -> bool {
    match p.payload {
        Payload::Raw(d) => p.proto == proto && d@ == t.skip(2).update(
            0,
            Code::EchoReply.spec_to_u8(),
        ),
        _ => false,
    }
}

/// A Protocol-Reject wrapping the offending packet verbatim.
pub open spec fn is_protocol_reject(p: Packet, proto: ProtocolType, id: u8, orig: Seq<u8>) -> bool {
    match p.payload {
        Payload::PPP(c, pid, PPPPayload::Raw(d)) => p.proto == proto && c == Code::ProtocolRej
            && pid == id && d@ == orig,
        _ => false,
    }
}

/// The response to a Configure-Request whose options drew the judgements
/// `js`: the worst code wins, the peer's identifier is kept, and exactly
/// the options matching the winning judgement are carried.
pub open spec fn is_configure_response_for(
    p: Packet,
    proto: ProtocolType,
    id: u8,
    opts: Seq<(u8, Seq<u8>)>,
    js: Seq<Judgement>,
) -> bool {
    match p.payload {
        Payload::PPP(c, pid, PPPPayload::Options(o)) => p.proto == proto && pid == id && js.len()
            == opts.len() && c == worst_code(js) && opts_pairs(o.0@) == response_pairs(
            opts,
            js,
            worst_code(js),
        ) && packet_wf(p),
        _ => false,
    }
}

/// One negotiation automaton, owning its state, its outbound identifier,
/// and its protocol capability.
pub struct OptionFsm<P> {
    id: u8,
    state: State,
    proto: P,
}

impl<P: Protocol> OptionFsm<P> {
    /// The automaton's current state.
    pub closed spec fn spec_state(self) -> State {
        self.state
    }

    /// The identifier of the last outbound request.
    pub closed spec fn spec_id(self) -> u8 {
        self.id
    }

    /// The capability.
    pub closed spec fn spec_proto(self) -> P {
        self.proto
    }

    /// The capability's well-formedness, threaded through every method.
    pub open spec fn inv(self) -> bool {
        self.spec_proto().inv()
    }

    /// The protocol number this automaton negotiates for.
    pub open spec fn proto_type(self) -> ProtocolType {
        self.spec_proto().spec_protocol()
    }

    /// State and identifier agree (the capability may still differ).
    pub open spec fn same_core(self, other: OptionFsm<P>) -> bool {
        self.spec_state() == other.spec_state() && self.spec_id() == other.spec_id()
    }

    pub fn new(proto: P) -> (r: OptionFsm<P>)
        requires
            proto.inv(),
        ensures
            r.inv(),
            r.spec_state() == State::Closed,
            r.spec_id() == 1,
            r.spec_proto() == proto,
    {
        OptionFsm { id: 1, state: State::Closed, proto }
    }

    pub fn state(&self) -> (r: State)
        ensures
            r == self.spec_state(),
    {
        self.state
    }

    pub fn proto(&self) -> (r: &P)
        ensures
            *r == self.spec_proto(),
    {
        &self.proto
    }

    /// Starts negotiation: only from `Closed`, sending a Configure-Request
    /// with a fresh identifier and moving to `ReqSent`.
    pub fn open(&mut self) -> (r: Packet)
        requires
            old(self).inv(),
            old(self).spec_state() == State::Closed,
        ensures
            final(self).inv(),
            final(self).proto_type() == old(self).proto_type(),
            final(self).spec_state() == State::ReqSent,
            final(self).spec_id() == next_id_spec(old(self).spec_id()),
            final(self).spec_proto() == old(self).spec_proto(),
            is_configure_request(
                r,
                old(self).proto_type(),
                final(self).spec_id(),
                old(self).spec_proto().own_options_spec(),
            ),
    {
        self.state = State::ReqSent;
        self.send_configure_request()
    }

    /// Abandons negotiation unconditionally.
    pub fn close(&mut self)
        requires
            old(self).inv(),
        ensures
            final(self).inv(),
            final(self).spec_state() == State::Closed,
            final(self).spec_id() == old(self).spec_id(),
            final(self).spec_proto() == old(self).spec_proto(),
    {
        self.state = State::Closed;
    }

    fn next_id(&mut self) -> (r: u8)
        requires
            old(self).inv(),
        ensures
            final(self).inv(),
            final(self).spec_proto() == old(self).spec_proto(),
            final(self).spec_state() == old(self).spec_state(),
            final(self).spec_id() == next_id_spec(old(self).spec_id()),
            r == final(self).spec_id(),
    {
        if self.id == 255 {
            self.id = 0;
        } else {
            self.id = self.id + 1;
        }
        self.id
    }

    /// Emits a Configure-Request with our current options under a fresh
    /// identifier.
    fn send_configure_request(&mut self) -> (r: Packet)
        requires
            old(self).inv(),
        ensures
            final(self).inv(),
            final(self).proto_type() == old(self).proto_type(),
            final(self).spec_state() == old(self).spec_state(),
            final(self).spec_id() == next_id_spec(old(self).spec_id()),
            final(self).spec_proto() == old(self).spec_proto(),
            is_configure_request(
                r,
                old(self).proto_type(),
                final(self).spec_id(),
                old(self).spec_proto().own_options_spec(),
            ),
    {
        let opts = self.proto.own_options();
        let id = self.next_id();
        let r = Packet {
            proto: self.proto.protocol(),
            payload: Payload::PPP(Code::ConfigureReq, id, PPPPayload::Options(Options(opts))),
        };
        proof {
            crate::wire::lemma_opts_bytes_len_bound(opts@);
        }
        r
    }

    /// Emits an empty Terminate-Ack under the peer's identifier.
    fn send_terminate_ack(&mut self, id: u8) -> (r: Packet)
        requires
            old(self).inv(),
        ensures
            *final(self) == *old(self),
            is_terminate_ack(r, old(self).proto_type(), id),
            packet_wf(r),
    {
        Packet {
            proto: self.proto.protocol(),
            payload: Payload::PPP(Code::TerminateAck, id, PPPPayload::Raw(Vec::new())),
        }
    }

    /// Echoes the request back with the code flipped to EchoReply; the
    /// identifier and everything after it are kept verbatim.
    fn send_echo_response(&mut self, pkt: &[u8]) -> (r: Packet)
        requires
            old(self).inv(),
            pkt@.len() >= 3,
        ensures
            *final(self) == *old(self),
            is_echo_reply_of(r, old(self).proto_type(), pkt@),
            packet_wf(r),
    {
        let mut d: Vec<u8> = Vec::new();
        d.push(Code::EchoReply.to_u8());
        crate::util::push_all(&mut d, slice_skip(pkt, 3));
        proof {
            assert(d@ =~= pkt@.skip(2).update(0, Code::EchoReply.spec_to_u8()));
        }
        Packet { proto: self.proto.protocol(), payload: Payload::Raw(d) }
    }

    /// Wraps a packet of an unsupported protocol in a Protocol-Reject
    /// under a fresh identifier.
    pub fn send_protocol_reject(&mut self, pkt: &[u8]) -> (r: Packet)
        requires
            old(self).inv(),
            pkt@.len() + 4 <= 65535,
        ensures
            final(self).inv(),
            final(self).proto_type() == old(self).proto_type(),
            final(self).spec_state() == old(self).spec_state(),
            final(self).spec_id() == next_id_spec(old(self).spec_id()),
            final(self).spec_proto() == old(self).spec_proto(),
            is_protocol_reject(r, old(self).proto_type(), final(self).spec_id(), pkt@),
            packet_wf(r),
    {
        let mut d: Vec<u8> = Vec::new();
        crate::util::push_all(&mut d, pkt);
        let id = self.next_id();
        Packet {
            proto: self.proto.protocol(),
            payload: Payload::PPP(Code::ProtocolRej, id, PPPPayload::Raw(d)),
        }
    }

    /// Judges the options of a peer Configure-Request and builds the
    /// response: worst judgement wins, the peer's identifier is kept, and
    /// the options matching the winning judgement are carried. A request is
    /// dropped exactly when its option stream is malformed or (after the
    /// capability has judged it) the response cannot fit a control packet's
    /// length field.
    fn received_configure_req(&mut self, pkt: &[u8]) -> (r: Option<Packet>)
        requires
            old(self).inv(),
            6 <= pkt@.len() <= 65537,
        ensures
            final(self).inv(),
            final(self).proto_type() == old(self).proto_type(),
            final(self).spec_state() == old(self).spec_state(),
            final(self).spec_id() == old(self).spec_id(),
            ({
                let p1 = old(self).spec_proto().start_spec();
                match parse_opts(pkt@.skip(6)) {
                    None => final(self).spec_proto() == p1 && r is None,
                    Some(opts) => {
                        let js = judgements_of(p1, opts);
                        &&& final(self).spec_proto() == proto_after(p1, opts)
                        &&& (r is Some <==> pairs_bytes(
                            response_pairs(opts, js, worst_code(js)),
                        ).len() <= 65531)
                        &&& (r is Some ==> is_configure_response_for(
                            r.unwrap(),
                            old(self).proto_type(),
                            pkt@[3],
                            opts,
                            js,
                        ))
                    },
                }
            }),
    {
        let id = pkt[3];
        self.proto.peer_options_start();
        let ghost p1 = self.spec_proto();
        let opts = match parse_options(slice_skip(pkt, 6)) {
            Ok(o) => o,
            Err(_) => {
                return None;
            },
        };
        let ghost pairs = opts_pairs(opts@);
        let mut vs: Vec<Verdict> = Vec::new();
        let mut i: usize = 0;
        proof {
            assert(pairs.take(0) =~= Seq::<(u8, Seq<u8>)>::empty());
            assert(judgements_seq(vs@) =~= judgements_of(p1, pairs.take(0)));
        }
        while i < opts.len()
            invariant
                i <= opts@.len(),
                vs@.len() == i,
                pairs == opts_pairs(opts@),
                forall|k: int| 0 <= k < vs@.len() ==> judgement_wf(judgement_of(#[trigger] vs@[k])),
                self.inv(),
                self.spec_proto().spec_protocol() == old(self).proto_type(),
                self.spec_state() == old(self).spec_state(),
                self.spec_id() == old(self).spec_id(),
                opts_wf(opts@),
                self.spec_proto() == proto_after(p1, pairs.take(i as int)),
                judgements_seq(vs@) == judgements_of(p1, pairs.take(i as int)),
            decreases opts@.len() - i,
        {
            let o = &opts[i];
            let v = self.proto.peer_option_received(o.code, o.data.as_slice());
            vs.push(v);
            i = i + 1;
            proof {
                lemma_proto_after_snoc(p1, pairs, i - 1);
                assert(pairs[i - 1] == (o.code, o.data@));
                assert(judgements_seq(vs@) =~= judgements_of(p1, pairs.take(i as int)));
            }
        }
        proof {
            assert(pairs.take(opts@.len() as int) =~= pairs);
        }
        let (code, ropts) = build_response(&opts, &vs);
        proof {
            crate::wire::lemma_opts_bytes_len_bound(ropts@);
            crate::wire::lemma_opts_bytes_pairs(ropts@);
        }
        let resp_opts = Options(ropts);
        let total = resp_opts.buffer_len();
        if total > 65531 {
            return None;
        }
        let p = Packet {
            proto: self.proto.protocol(),
            payload: Payload::PPP(code, id, PPPPayload::Options(resp_opts)),
        };
        Some(p)
    }
}

/// A response never carries more options than were judged, and each of its
/// options encodes within the TLV bound.
pub proof fn lemma_response_pairs_len(opts: Seq<(u8, Seq<u8>)>, js: Seq<Judgement>, w: Code)
    ensures
        response_pairs(opts, js, w).len() <= opts.len(),
    decreases opts.len(),
{
    if opts.len() > 0 && js.len() == opts.len() {
        lemma_response_pairs_len(opts.drop_last(), js.drop_last(), w);
    }
}

/// Folds the verdicts over the judged options into the response code and
/// option list: the worst verdict wins; on an upgrade the options kept so
/// far are discarded; an option is kept when its verdict matches the
/// current worst, carrying the verdict's bytes.
pub fn build_response(opts: &Vec<OptionVal>, vs: &Vec<Verdict>) -> (r: (Code, Vec<OptionVal>))
    requires
        vs@.len() == opts@.len(),
        opts_wf(opts@),
        forall|k: int| 0 <= k < vs@.len() ==> judgement_wf(judgement_of(#[trigger] vs@[k])),
    ensures
        r.0 == worst_code(judgements_seq(vs@)),
        opts_pairs(r.1@) == response_pairs(opts_pairs(opts@), judgements_seq(vs@), r.0),
        opts_wf(r.1@),
        r.1@.len() <= opts@.len(),
{
    let ghost js = judgements_seq(vs@);
    let mut code = Code::ConfigureAck;
    let mut list: Vec<OptionVal> = Vec::new();
    let mut i: usize = 0;
    proof {
        assert(js.take(0) =~= Seq::<Judgement>::empty());
        assert(opts_pairs(opts@).take(0) =~= Seq::<(u8, Seq<u8>)>::empty());
        assert(opts_pairs(list@) =~= Seq::<(u8, Seq<u8>)>::empty());
    }
    while i < opts.len()
        invariant
            i <= opts@.len(),
            vs@.len() == opts@.len(),
            js == judgements_seq(vs@),
            opts_wf(opts@),
            forall|k: int| 0 <= k < vs@.len() ==> judgement_wf(judgement_of(#[trigger] vs@[k])),
            code == worst_code(js.take(i as int)),
            code == Code::ConfigureAck || code == Code::ConfigureNack || code
                == Code::ConfigureRej,
            opts_pairs(list@) == response_pairs(
                opts_pairs(opts@).take(i as int),
                js.take(i as int),
                code,
            ),
            opts_wf(list@),
            list@.len() <= i,
        decreases opts@.len() - i,
    {
        let ghost pre_code = code;
        let ghost pre_list = list@;
        let o = &opts[i];
        let v = &vs[i];
        let vcode = match v {
            Verdict::Ack => Code::ConfigureAck,
            Verdict::Nack(_) => Code::ConfigureNack,
            Verdict::Rej => Code::ConfigureRej,
        };
        if code.to_u8() < vcode.to_u8() {
            code = vcode;
            list.clear();
            proof {
                lemma_response_pairs_low(
                    opts_pairs(opts@).take(i as int),
                    js.take(i as int),
                    code,
                );
            }
        }
        if code.to_u8() == vcode.to_u8() {
            let kept = match v {
                Verdict::Nack(d) => OptionVal::new(o.code, d.as_slice()),
                _ => OptionVal::new(o.code, o.data.as_slice()),
            };
            list.push(kept);
        }
        i = i + 1;
        proof {
            assert(js.take(i as int).drop_last() =~= js.take(i - 1));
            assert(opts_pairs(opts@).take(i as int).drop_last() =~= opts_pairs(opts@).take(i - 1));
            assert(js.take(i as int).last() == judgement_of(vs@[i - 1]));
            assert(opts_pairs(opts@).take(i as int).last() == opt_pair_of(opts@[i - 1]));
            assert(opts_pairs(list@) =~= response_pairs(
                opts_pairs(opts@).take(i as int),
                js.take(i as int),
                code,
            ));
        }
    }
    proof {
        assert(js.take(vs@.len() as int) =~= js);
        assert(opts_pairs(opts@).take(opts@.len() as int) =~= opts_pairs(opts@));
    }
    (code, list)
}

/// When every judgement so far ranks below `w`, nothing is kept for `w`.
proof fn lemma_response_pairs_low(opts: Seq<(u8, Seq<u8>)>, js: Seq<Judgement>, w: Code)
    requires
        js.len() == opts.len(),
        worst_code(js).spec_to_u8() < w.spec_to_u8(),
    ensures
        response_pairs(opts, js, w) == Seq::<(u8, Seq<u8>)>::empty(),
    decreases opts.len(),
{
    if opts.len() > 0 {
        lemma_response_pairs_low(opts.drop_last(), js.drop_last(), w);
    }
}

/// `opt_pair` of a concrete option, for use under triggers.
pub open spec fn opt_pair_of(o: OptionVal) -> (u8, Seq<u8>) {
    crate::wire::opt_pair(o)
}

/// The tail of a slice from position `n` on.
fn slice_skip(s: &[u8], n: usize) -> (r: &[u8])
    requires
        n <= s@.len(),
    ensures
        r@ == s@.skip(n as int),
{
    let r = vstd::slice::slice_subrange(s, n, s.len());
    proof {
        assert(s@.subrange(n as int, s@.len() as int) =~= s@.skip(n as int));
    }
    r
}

/// Everything `handle` does, as a relation between the automaton before
/// and after one received packet and the packets sent in response: invalid
/// headers are dropped with nothing touched; otherwise the state moves per
/// the RFC 1661 table for (code, state), the capability evolves through
/// its spec functions, and the table's responses come back in order. In
/// particular a well-formed Configure-Request whose response fits a
/// control packet is always answered.
pub open spec fn handle_rel<P: Protocol>(
    pre: OptionFsm<P>,
    post: OptionFsm<P>,
    pkt: Seq<u8>,
    r: Seq<Packet>,
) -> bool {
    &&& (!hdr_ok(pkt) ==> post.same_core(pre) && post.spec_proto() == pre.spec_proto() && r.len()
        == 0)
    &&& (hdr_ok(pkt) ==> ({
        let t = truncated(pkt);
        let code = Code::spec_from_u8(pkt[2]);
        let id = pkt[3];
        let st0 = pre.spec_state();
        let proto = pre.proto_type();
        &&& (code == Code::EchoReq && st0 == State::Opened ==> post.same_core(pre)
            && post.spec_proto() == pre.spec_proto() && r.len() == 1 && is_echo_reply_of(
            r[0],
            proto,
            t,
        ))
        &&& (code == Code::EchoReq && st0 != State::Opened ==> post.same_core(pre)
            && post.spec_proto() == pre.spec_proto() && r.len() == 0)
        &&& (code == Code::DiscardReq ==> post.same_core(pre) && post.spec_proto()
            == pre.spec_proto() && r.len() == 0)
        &&& (code != Code::EchoReq && code != Code::DiscardReq && st0 == State::Closed
            ==> post.same_core(pre) && post.spec_proto() == pre.spec_proto() && r.len() == 1
            && is_terminate_ack(r[0], proto, id))
        &&& (st0 != State::Closed && code == Code::ConfigureReq ==> ({
            let p1 = pre.spec_proto().start_spec();
            match parse_opts(t.skip(6)) {
                None => post.same_core(pre) && post.spec_proto() == p1 && r.len() == 0,
                Some(opts) => {
                    let js = judgements_of(p1, opts);
                    let fits = pairs_bytes(response_pairs(opts, js, worst_code(js))).len()
                        <= 65531;
                    &&& post.spec_proto() == proto_after(p1, opts)
                    &&& (!fits ==> post.same_core(pre) && r.len() == 0)
                    &&& (fits ==> {
                        let acked = worst_code(js) == Code::ConfigureAck;
                        &&& r.len() >= 1
                        &&& is_configure_response_for(r[0], proto, id, opts, js)
                        &&& post.spec_state() == cfg_req_next(st0, acked)
                        &&& (st0 == State::Opened ==> r.len() == 2 && post.spec_id()
                            == next_id_spec(pre.spec_id()) && is_configure_request(
                            r[1],
                            proto,
                            post.spec_id(),
                            proto_after(p1, opts).own_options_spec(),
                        ))
                        &&& (st0 != State::Opened ==> r.len() == 1 && post.spec_id()
                            == pre.spec_id())
                    })
                },
            }
        }))
        &&& (st0 != State::Closed && code == Code::ConfigureAck ==> post.spec_state()
            == cfg_ack_next(st0) && post.spec_proto() == pre.spec_proto() && ({
            if st0 == State::AckReceived || st0 == State::Opened {
                r.len() == 1 && post.spec_id() == next_id_spec(pre.spec_id())
                    && is_configure_request(
                    r[0],
                    proto,
                    post.spec_id(),
                    pre.spec_proto().own_options_spec(),
                )
            } else {
                r.len() == 0 && post.spec_id() == pre.spec_id()
            }
        }))
        &&& (st0 != State::Closed && (code == Code::ConfigureNack || code == Code::ConfigureRej)
            ==> ({
            let is_rej = code == Code::ConfigureRej;
            match parse_opts(t.skip(6)) {
                None => post.same_core(pre) && post.spec_proto() == pre.spec_proto() && r.len()
                    == 0,
                Some(opts) => {
                    let pn = nacked_after(pre.spec_proto(), opts, is_rej);
                    &&& post.spec_proto() == pn
                    &&& post.spec_state() == cfg_nack_next(st0)
                    &&& post.spec_id() == next_id_spec(pre.spec_id())
                    &&& r.len() == 1
                    &&& is_configure_request(r[0], proto, post.spec_id(), pn.own_options_spec())
                },
            }
        }))
        &&& (st0 != State::Closed && code == Code::TerminateReq ==> post.spec_state()
            == term_req_next(st0) && post.spec_id() == pre.spec_id() && post.spec_proto()
            == pre.spec_proto() && r.len() == 1 && is_terminate_ack(r[0], proto, id))
        &&& (st0 != State::Closed && (code == Code::Unknown || code == Code::TerminateAck || code
            == Code::CodeRej || code == Code::ProtocolRej || code == Code::EchoReply)
            ==> post.same_core(pre) && post.spec_proto() == pre.spec_proto() && r.len() == 0)
    }))
}

impl<P: Protocol> OptionFsm<P> {
    /// Dispatches one received control packet per the RFC 1661 table.
    ///
    /// A packet whose header is invalid, whose option stream is malformed
    /// where options matter, or whose response cannot be built, is dropped
    /// without any state change. Otherwise the state moves exactly as the
    /// table says for (code, state), and the returned packets are the
    /// responses the table calls for, in order.
    pub fn handle(&mut self, pkt: &[u8]) -> (r: Vec<Packet>)
        requires
            old(self).inv(),
        ensures
            final(self).inv(),
            final(self).proto_type() == old(self).proto_type(),
            forall|k: int| 0 <= k < r@.len() ==> packet_wf(#[trigger] r@[k]),
            forall|k: int| 0 <= k < r@.len() ==> packet_bytes(#[trigger] r@[k]).len() <= 65537,
            r@.len() <= 2,
            handle_rel(*old(self), *final(self), pkt@, r@),
    {
        let mut out: Vec<Packet> = Vec::new();
        if pkt.len() < 6 {
            return out;
        }
        let declared = read_be16(pkt[4], pkt[5]) as usize;
        if declared + 2 > pkt.len() || declared + 2 < 6 {
            return out;
        }
        let code = Code::from_u8(pkt[2]);
        let id = pkt[3];
        let t = vstd::slice::slice_subrange(pkt, 0, declared + 2);
        proof {
            assert(t@ == truncated(pkt@));
            assert(t@[2] == pkt@[2] && t@[3] == pkt@[3]);
        }
        match (code, self.state) {
            (Code::EchoReq, State::Opened) => {
                let p = self.send_echo_response(t);
                out.push(p);
            },
            (Code::EchoReq, _) => {},
            (Code::DiscardReq, _) => {},
            (_, State::Closed) => {
                let p = self.send_terminate_ack(id);
                out.push(p);
            },
            (Code::ConfigureReq, _) => {
                match self.received_configure_req(t) {
                    None => {},
                    Some(resp) => {
                        let acked = match &resp.payload {
                            Payload::PPP(c, _, _) => c.to_u8() == 2,
                            _ => false,
                        };
                        proof {
                            let p1 = old(self).spec_proto().start_spec();
                            let opts = parse_opts(t@.skip(6)).unwrap();
                            lemma_worst_code_range(judgements_of(p1, opts));
                            crate::wire::lemma_packet_bytes_bound(resp);
                        }
                        out.push(resp);
                        match (acked, self.state) {
                            (true, State::ReqSent) => {
                                self.state = State::AckSent;
                            },
                            (true, State::AckReceived) => {
                                self.state = State::Opened;
                            },
                            (true, State::AckSent) => {},
                            (true, State::Opened) => {
                                self.state = State::AckSent;
                                let p = self.send_configure_request();
                                out.push(p);
                            },
                            (false, State::AckSent) => {
                                self.state = State::ReqSent;
                            },
                            (false, State::Opened) => {
                                self.state = State::ReqSent;
                                let p = self.send_configure_request();
                                out.push(p);
                            },
                            (false, _) => {},
                            (true, _) => {},
                        }
                    },
                }
            },
            (Code::ConfigureAck, State::ReqSent) => {
                self.state = State::AckReceived;
            },
            (Code::ConfigureAck, State::AckSent) => {
                self.state = State::Opened;
            },
            (Code::ConfigureAck, _) => {
                self.state = State::ReqSent;
                let p = self.send_configure_request();
                out.push(p);
            },
            (Code::ConfigureNack, _) | (Code::ConfigureRej, _) => {
                let is_rej = match code {
                    Code::ConfigureRej => true,
                    _ => false,
                };
                match parse_options(slice_skip(t, 6)) {
                    Err(_) => {},
                    Ok(opts) => {
                        let ghost p0 = self.spec_proto();
                        let ghost pairs = opts_pairs(opts@);
                        let mut i: usize = 0;
                        proof {
                            assert(pairs.take(0) =~= Seq::<(u8, Seq<u8>)>::empty());
                        }
                        while i < opts.len()
                            invariant
                                i <= opts@.len(),
                                pairs == opts_pairs(opts@),
                                self.inv(),
                                self.spec_proto().spec_protocol() == old(self).proto_type(),
                                self.spec_state() == old(self).spec_state(),
                                self.spec_id() == old(self).spec_id(),
                                self.spec_proto() == nacked_after(p0, pairs.take(i as int), is_rej),
                            decreases opts@.len() - i,
                        {
                            let o = &opts[i];
                            self.proto.own_option_nacked(o.code, o.data.as_slice(), is_rej);
                            i = i + 1;
                            proof {
                                lemma_nacked_after_snoc(p0, pairs, is_rej, i - 1);
                                assert(pairs[i - 1] == (o.code, o.data@));
                            }
                        }
                        proof {
                            assert(pairs.take(opts@.len() as int) =~= pairs);
                        }
                        match self.state {
                            State::AckSent => {},
                            _ => {
                                self.state = State::ReqSent;
                            },
                        }
                        let p = self.send_configure_request();
                        out.push(p);
                    },
                }
            },
            (Code::TerminateReq, State::Opened) => {
                self.state = State::Closed;
                let p = self.send_terminate_ack(id);
                out.push(p);
            },
            (Code::TerminateReq, _) => {
                self.state = State::ReqSent;
                let p = self.send_terminate_ack(id);
                out.push(p);
            },
            _ => {},
        }
        out
    }
}

} // verus!
