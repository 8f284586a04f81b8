//! Laws tying the frame transmitter and the frame receiver together: a
//! frame encoded by the writer is decoded back to exactly its payload with
//! every encoded byte consumed, and a frame whose content was corrupted in
//! any single byte is dropped by the receiver's check.

use vstd::prelude::*;

use crate::crc::{crc16_spec, crc16_step, lemma_crc16_append, lemma_crc16_residue,
    lemma_crc16_single_byte_change};
use crate::frame_reader::{rx_no_complete, rx_run, rx_step, State};
use crate::frame_writer::{escape_byte, escape_bytes, fcs_bytes, frame_bytes,
    lemma_escape_bytes_append, lemma_escape_bytes_singleton, needs_escape};

verus! {

/// Running the receiver over a concatenation runs it over the parts in
/// turn.
proof fn lemma_rx_run_append(s: State, e: bool, l: nat, b: Seq<u8>, x: Seq<u8>, y: Seq<u8>)
    ensures
        ({
            let m = rx_run(s, e, l, b, x);
            rx_run(s, e, l, b, x + y) == rx_run(m.0, m.1, m.2, m.3, y)
        }),
    decreases x.len(),
{
    if x.len() == 0 {
        assert(x + y =~= y);
    } else {
        let (s1, e1, l1, b1) = rx_step(s, e, l, b, x[0]);
        assert((x + y)[0] == x[0]);
        assert((x + y).skip(1) =~= x.skip(1) + y);
        lemma_rx_run_append(s1, e1, l1, b1, x.skip(1), y);
    }
}

/// `rx_no_complete` over a concatenation splits at the joint.
proof fn lemma_rx_nc_append(s: State, e: bool, l: nat, b: Seq<u8>, x: Seq<u8>, y: Seq<u8>)
    requires
        rx_no_complete(s, e, l, b, x),
        ({
            let m = rx_run(s, e, l, b, x);
            rx_no_complete(m.0, m.1, m.2, m.3, y)
        }),
    ensures
        rx_no_complete(s, e, l, b, x + y),
    decreases x.len(),
{
    if x.len() == 0 {
        assert(x + y =~= y);
    } else {
        let (s1, e1, l1, b1) = rx_step(s, e, l, b, x[0]);
        assert((x + y)[0] == x[0]);
        assert((x + y).skip(1) =~= x.skip(1) + y);
        lemma_rx_nc_append(s1, e1, l1, b1, x.skip(1), y);
    }
}

/// One byte runs as one step.
proof fn lemma_rx_run_one(s: State, e: bool, l: nat, b: Seq<u8>, x: u8)
    ensures
        rx_run(s, e, l, b, seq![x]) == rx_step(s, e, l, b, x),
        rx_no_complete(s, e, l, b, seq![x]) == (s != State::Complete),
{
    let (s1, e1, l1, b1) = rx_step(s, e, l, b, x);
    assert(seq![x].skip(1) =~= Seq::<u8>::empty());
    assert(rx_run(s1, e1, l1, b1, Seq::<u8>::empty()) == (s1, e1, l1, b1));
    assert(rx_no_complete(s1, e1, l1, b1, Seq::<u8>::empty()));
}

/// In the `Data` state with no pending escape, consuming the escaped form
/// of `xs` writes `xs` itself into the buffer, stays in `Data`, and never
/// completes a frame along the way.
proof fn lemma_rx_consume_escaped(map: u32, xs: Seq<u8>, l: nat, b: Seq<u8>)
    requires
        l + xs.len() <= b.len(),
    ensures
        ({
            let r = rx_run(State::Data, false, l, b, escape_bytes(map, xs));
            &&& r.0 == State::Data
            &&& r.1 == false
            &&& r.2 == l + xs.len()
            &&& r.3.len() == b.len()
            &&& forall|k: int|
                0 <= k < b.len() ==> r.3[k] == (if l <= k < l + xs.len() {
                    xs[k - l]
                } else {
                    b[k]
                })
            &&& rx_no_complete(State::Data, false, l, b, escape_bytes(map, xs))
        }),
    decreases xs.len(),
{
    if xs.len() == 0 {
        assert(escape_bytes(map, xs) =~= Seq::<u8>::empty());
        assert(rx_run(State::Data, false, l, b, Seq::<u8>::empty()) == (
            State::Data,
            false,
            l,
            b,
        ));
        assert(rx_no_complete(State::Data, false, l, b, Seq::<u8>::empty()));
    } else {
        let x0 = xs[0];
        let rest = xs.skip(1);
        assert(xs =~= seq![x0] + rest);
        lemma_escape_bytes_append(map, seq![x0], rest);
        lemma_escape_bytes_singleton(map, x0);
        let e0 = escape_byte(map, x0);
        let b1 = b.update(l as int, x0);
        if needs_escape(map, x0) {
            assert((x0 == 0x7d || x0 == 0x7e || x0 <= 0x1f) ==> ((x0 ^ 0x20) != 0x7e && (x0
                ^ 0x20) != 0x7d && ((x0 ^ 0x20) ^ 0x20) == x0)) by (bit_vector);
            assert(e0 =~= seq![0x7du8] + seq![x0 ^ 0x20]);
            lemma_rx_run_one(State::Data, false, l, b, 0x7d);
            lemma_rx_run_one(State::Data, true, l, b, x0 ^ 0x20);
            lemma_rx_run_append(State::Data, false, l, b, seq![0x7du8], seq![x0 ^ 0x20]);
            assert(rx_run(State::Data, false, l, b, e0) == (State::Data, false, (l + 1) as nat, b1));
            lemma_rx_nc_append(State::Data, false, l, b, seq![0x7du8], seq![x0 ^ 0x20]);
        } else {
            assert(e0 =~= seq![x0]);
            lemma_rx_run_one(State::Data, false, l, b, x0);
            assert(rx_run(State::Data, false, l, b, e0) == (State::Data, false, (l + 1) as nat, b1));
        }
        lemma_rx_consume_escaped(map, rest, (l + 1) as nat, b1);
        lemma_rx_run_append(State::Data, false, l, b, e0, escape_bytes(map, rest));
        assert(escape_bytes(map, xs) == e0 + escape_bytes(map, rest));
        lemma_rx_nc_append(State::Data, false, l, b, e0, escape_bytes(map, rest));
        assert forall|k: int| 0 <= k < b.len() implies rx_run(
            State::Data,
            false,
            l,
            b,
            escape_bytes(map, xs),
        ).3[k] == (if l <= k < l + xs.len() {
            xs[k - l]
        } else {
            b[k]
        }) by {
            let r = rx_run(State::Data, false, l, b, escape_bytes(map, xs));
            if l <= k < l + xs.len() {
                if k == l {
                    assert(r.3[k] == b1[k]);
                } else {
                    assert(r.3[k] == rest[k - (l + 1)]);
                    assert(rest[k - (l + 1)] == xs[k - l]);
                }
            }
        }
    }
}

/// The receiver's acceptance condition on a buffered frame content.
pub open spec fn frame_content_valid(content: Seq<u8>) -> bool {
    &&& content.len() >= 3
    &&& content[0] == 0x03
    &&& crc16_spec(0x00FF, content) == 0xf0b8
}

/// Folding from `0xFFFF` over the address byte gives `0x00FF`, so the
/// transmitter's CRC and the receiver's agree on control byte and payload.
proof fn lemma_crc_seeds_agree(p: Seq<u8>)
    ensures
        crc16_spec(0xFFFF, seq![0xffu8, 0x03u8] + p) == crc16_spec(0x00FF, seq![0x03u8] + p),
{
    let rest = seq![0x03u8] + p;
    assert(seq![0xffu8, 0x03u8] + p =~= seq![0xffu8] + rest);
    lemma_crc16_append(0xFFFF, seq![0xffu8], rest);
    assert(seq![0xffu8].drop_last() =~= Seq::<u8>::empty());
    assert(crc16_spec(0xFFFF, Seq::<u8>::empty()) == 0xFFFF);
    assert(crc16_spec(0xFFFF, seq![0xffu8]) == crc16_step(0xFFFF, 0xff));
    assert(crc16_step(0xFFFF, 0xff) == 0x00FF) by (bit_vector);
}

/// The content a frame's payload is framed around satisfies the receiver's
/// check: the control byte leads and the CRC over content and FCS lands on
/// the residue.
pub proof fn lemma_frame_content_valid(p: Seq<u8>)
    ensures
        frame_content_valid(seq![0x03u8] + p + fcs_bytes(p)),
{
    let head = seq![0x03u8] + p;
    let content = seq![0x03u8] + p + fcs_bytes(p);
    assert(content =~= head + fcs_bytes(p));
    lemma_crc16_append(0x00FF, head, fcs_bytes(p));
    lemma_crc_seeds_agree(p);
    let c = crc16_spec(0x00FF, head);
    lemma_crc16_residue(c);
    assert(fcs_bytes(p) == seq![(c ^ 0xFFFF) as u8, (((c ^ 0xFFFF) as u16) >> 8) as u8]);
    assert(content[0] == 0x03);
}

/// Frame round trip: from the hunt for a frame boundary, the receiver run
/// over the complete encoding of payload `p` ends with a completed frame
/// whose exposed content is exactly `p`, never stalling before the final
/// flag, provided the collecting buffer has room for content and FCS.
pub proof fn lemma_frame_round_trip(map: u32, p: Seq<u8>, b: Seq<u8>)
    requires
        p.len() + 3 <= b.len(),
    ensures
        ({
            let r = rx_run(State::Start, false, 0, b, frame_bytes(map, p));
            &&& r.0 == State::Complete
            &&& r.2 == p.len() + 3
            &&& r.3.subrange(1, p.len() as int + 1) == p
            &&& r.3.take((p.len() + 3) as int) == seq![0x03u8] + p + fcs_bytes(p)
            &&& rx_no_complete(State::Start, false, 0, b, frame_bytes(map, p))
        }),
{
    let content = seq![0x03u8] + p + fcs_bytes(p);
    let esc = escape_bytes(map, content);
    let enc = frame_bytes(map, p);
    let hdr = seq![0x7eu8, 0xffu8];
    assert(enc =~= (hdr + esc) + seq![0x7eu8]);
    assert(hdr =~= seq![0x7eu8] + seq![0xffu8]);

    // Header: Start -> Address -> Data.
    lemma_rx_run_one(State::Start, false, 0, b, 0x7e);
    lemma_rx_run_one(State::Address, false, 0, b, 0xff);
    lemma_rx_run_append(State::Start, false, 0, b, seq![0x7eu8], seq![0xffu8]);
    assert(rx_run(State::Start, false, 0, b, hdr) == (State::Data, false, 0nat, b));
    lemma_rx_nc_append(State::Start, false, 0, b, seq![0x7eu8], seq![0xffu8]);

    // Escaped content fills the buffer.
    lemma_rx_consume_escaped(map, content, 0, b);
    let m = rx_run(State::Data, false, 0, b, esc);
    lemma_rx_run_append(State::Start, false, 0, b, hdr, esc);
    lemma_rx_nc_append(State::Start, false, 0, b, hdr, esc);
    assert(rx_run(State::Start, false, 0, b, hdr + esc) == m);
    assert(m.3.take(content.len() as int) =~= content);

    // Closing flag: the check passes.
    lemma_frame_content_valid(p);
    assert(m.3.take(content.len() as int) == content);
    lemma_rx_run_one(State::Data, false, m.2, m.3, 0x7e);
    let f = rx_step(State::Data, false, m.2, m.3, 0x7e);
    assert(f.0 == State::Complete);
    lemma_rx_run_append(State::Start, false, 0, b, hdr + esc, seq![0x7eu8]);
    lemma_rx_nc_append(State::Start, false, 0, b, hdr + esc, seq![0x7eu8]);

    let r = rx_run(State::Start, false, 0, b, enc);
    assert(r == f);
    assert(r.3.subrange(1, p.len() as int + 1) =~= p);
}

/// Corrupting any single byte of a valid frame content, control byte and
/// FCS included, makes the receiver's acceptance check fail.
pub proof fn lemma_corrupt_content_rejected(c: Seq<u8>, c2: Seq<u8>, j: int)
    requires
        frame_content_valid(c),
        c2.len() == c.len(),
        0 <= j < c.len(),
        c[j] != c2[j],
        forall|i: int| 0 <= i < c.len() && i != j ==> c[i] == c2[i],
    ensures
        !frame_content_valid(c2),
{
    if c2[0] == 0x03 {
        lemma_crc16_single_byte_change(0x00FF, c, c2, j);
    }
}

/// While the receiver never stood in `Complete`, no proper prefix of the
/// input left it in `Complete` either.
proof fn lemma_rx_nc_prefix(s: State, e: bool, l: nat, b: Seq<u8>, data: Seq<u8>, i: int)
    requires
        rx_no_complete(s, e, l, b, data),
        0 <= i < data.len(),
    ensures
        rx_run(s, e, l, b, data.take(i)).0 != State::Complete,
    decreases i,
{
    if i == 0 {
        assert(data.take(0) =~= Seq::<u8>::empty());
        assert(rx_run(s, e, l, b, Seq::<u8>::empty()) == (s, e, l, b));
    } else {
        let (s1, e1, l1, b1) = rx_step(s, e, l, b, data[0]);
        let rest = data.skip(1);
        assert(data.take(i)[0] == data[0]);
        assert(data.take(i).skip(1) =~= rest.take(i - 1));
        lemma_rx_nc_prefix(s1, e1, l1, b1, rest, i - 1);
    }
}

/// Consumption completeness: the contract of the receiver's `consume`
/// leaves only one possible count for a complete encoded frame offered to
/// a hunting receiver: every encoded byte is taken, and the frame stands
/// completed in the buffer.
pub proof fn lemma_consume_takes_whole_frame(map: u32, p: Seq<u8>, b: Seq<u8>, n: int)
    requires
        p.len() + 3 <= b.len(),
        0 <= n <= frame_bytes(map, p).len(),
        rx_no_complete(State::Start, false, 0, b, frame_bytes(map, p).take(n)),
        n < frame_bytes(map, p).len() ==> rx_run(
            State::Start,
            false,
            0,
            b,
            frame_bytes(map, p).take(n),
        ).0 == State::Complete,
    ensures
        n == frame_bytes(map, p).len(),
        rx_run(State::Start, false, 0, b, frame_bytes(map, p)).0 == State::Complete,
        rx_run(State::Start, false, 0, b, frame_bytes(map, p)).3.subrange(1, p.len() as int + 1)
            == p,
{
    lemma_frame_round_trip(map, p, b);
    let enc = frame_bytes(map, p);
    if n < enc.len() {
        lemma_rx_nc_prefix(State::Start, false, 0, b, enc, n);
    } else {
        assert(enc.take(n) =~= enc);
    }
}

} // verus!
