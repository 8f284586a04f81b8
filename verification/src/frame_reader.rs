//! The HDLC-like frame receiver. It consumes an arbitrary byte stream,
//! unstuffing escaped bytes into a caller-owned buffer, and completes a
//! frame when the closing flag arrives over content whose CRC folds to the
//! FCS residue. While a completed frame waits to be taken with `receive`,
//! `consume` accepts no further bytes.
//!
//! The whole receiver is modelled by the transition function `rx_step`; the
//! contract of `consume` says that the reader and the buffer after the call
//! are exactly the fold of `rx_step` over the accepted bytes.

use vstd::prelude::*;
use vstd::pervasive::VecAdditionalExecFns;

use core::ops::Range;

use crate::crc::crc16_spec;

verus! {

/// Where the receiver stands in the byte stream.
#[derive(Debug, Clone, Copy, PartialEq, Eq, Structural)]
pub enum State {
    /// Waiting for an opening flag.
    Start,
    /// Flag seen; waiting for the address byte.
    Address,
    /// Collecting unstuffed frame content.
    Data,
    /// A valid frame is buffered and must be drained with `receive`.
    Complete,
}

/// The receiver's full configuration between two bytes: state, pending
/// escape, bytes collected, and the collecting buffer's contents.
pub open spec fn rx_step(s: State, esc: bool, len: nat, buf: Seq<u8>, b: u8) -> (
    State,
    bool,
    nat,
    Seq<u8>,
) {
    match (s, b) {
        (State::Start, 0x7e) => (State::Address, esc, len, buf),
        (State::Start, _) => (State::Start, esc, len, buf),
        (State::Address, 0xff) => (State::Data, esc, len, buf),
        (State::Address, 0x7e) => (State::Address, esc, len, buf),
        (State::Address, _) => (State::Start, esc, len, buf),
        (State::Data, 0x7e) => {
            if 3 <= len && len <= buf.len() && buf[0] == 0x03 && crc16_spec(
                0x00FF,
                buf.take(len as int),
            ) == 0xf0b8 {
                (State::Complete, esc, len, buf)
            } else {
                (State::Address, esc, len, buf)
            }
        },
        (State::Data, 0x7d) => (State::Data, true, len, buf),
        (State::Data, _) => {
            let b2 = if esc {
                b ^ 0x20
            } else {
                b
            };
            if len >= buf.len() {
                (State::Start, false, 0, buf)
            } else {
                (State::Data, false, (len + 1) as nat, buf.update(len as int, b2))
            }
        },
        (State::Complete, _) => (State::Complete, esc, len, buf),
    }
}

/// The fold of `rx_step` over `data`, first byte first.
pub open spec fn rx_run(s: State, esc: bool, len: nat, buf: Seq<u8>, data: Seq<u8>) -> (
    State,
    bool,
    nat,
    Seq<u8>,
)
    decreases data.len(),
{
    if data.len() == 0 {
        (s, esc, len, buf)
    } else {
        let (s1, e1, l1, b1) = rx_step(s, esc, len, buf, data[0]);
        rx_run(s1, e1, l1, b1, data.skip(1))
    }
}

/// True when the receiver never stands in `Complete` while one of the
/// bytes of `data` is about to be consumed.
pub open spec fn rx_no_complete(s: State, esc: bool, len: nat, buf: Seq<u8>, data: Seq<u8>) -> bool
    decreases data.len(),
{
    if data.len() == 0 {
        true
    } else {
        s != State::Complete && {
            let (s1, e1, l1, b1) = rx_step(s, esc, len, buf, data[0]);
            rx_no_complete(s1, e1, l1, b1, data.skip(1))
        }
    }
}

/// Reader stall: while a completed frame is waiting to be drained, the
/// receiver accepts not a single byte; any accepted prefix that satisfies
/// `consume`'s contract is empty, so `consume` returns less than the data
/// offered.
pub proof fn lemma_reader_stall(s: State, esc: bool, len: nat, buf: Seq<u8>, data: Seq<u8>, n: int)
    requires
        s == State::Complete,
        0 <= n <= data.len(),
        rx_no_complete(s, esc, len, buf, data.take(n)),
    ensures
        n == 0,
{
    if n > 0 {
        assert(data.take(n).len() == n);
    }
}

/// The receiver never changes the collecting buffer's length.
pub proof fn lemma_rx_run_buf_len(s: State, esc: bool, len: nat, buf: Seq<u8>, data: Seq<u8>)
    ensures
        rx_run(s, esc, len, buf, data).3.len() == buf.len(),
    decreases data.len(),
{
    if data.len() > 0 {
        let (s1, e1, l1, b1) = rx_step(s, esc, len, buf, data[0]);
        lemma_rx_run_buf_len(s1, e1, l1, b1, data.skip(1));
    }
}

/// Running one more byte is one more step.
pub proof fn lemma_rx_run_snoc(s: State, esc: bool, len: nat, buf: Seq<u8>, data: Seq<u8>, i: int)
    requires
        0 <= i < data.len(),
    ensures
        ({
            let (s1, e1, l1, b1) = rx_run(s, esc, len, buf, data.take(i));
            rx_run(s, esc, len, buf, data.take(i + 1)) == rx_step(s1, e1, l1, b1, data[i])
        }),
    decreases i,
{
    if i == 0 {
        let (s1, e1, l1, b1) = rx_step(s, esc, len, buf, data[0]);
        assert(data.take(0) =~= Seq::<u8>::empty());
        assert(data.take(1) =~= seq![data[0]]);
        assert(seq![data[0]].skip(1) =~= Seq::<u8>::empty());
        assert(rx_run(s1, e1, l1, b1, Seq::<u8>::empty()) == (s1, e1, l1, b1));
        assert(data.take(1)[0] == data[0]);
    } else {
        let (s1, e1, l1, b1) = rx_step(s, esc, len, buf, data[0]);
        let rest = data.skip(1);
        assert(data.take(i)[0] == data[0]);
        assert(data.take(i).skip(1) =~= rest.take(i - 1));
        assert(data.take(i + 1)[0] == data[0]);
        assert(data.take(i + 1).skip(1) =~= rest.take(i));
        assert(rest[i - 1] == data[i]);
        lemma_rx_run_snoc(s1, e1, l1, b1, rest, i - 1);
    }
}

/// `rx_no_complete` extends by one byte when the state reached is not
/// `Complete`.
pub proof fn lemma_rx_nc_snoc(s: State, esc: bool, len: nat, buf: Seq<u8>, data: Seq<u8>, i: int)
    requires
        0 <= i < data.len(),
        rx_no_complete(s, esc, len, buf, data.take(i)),
        rx_run(s, esc, len, buf, data.take(i)).0 != State::Complete,
    ensures
        rx_no_complete(s, esc, len, buf, data.take(i + 1)),
    decreases i,
{
    if i == 0 {
        let (s1, e1, l1, b1) = rx_step(s, esc, len, buf, data[0]);
        assert(data.take(0) =~= Seq::<u8>::empty());
        assert(data.take(1) =~= seq![data[0]]);
        assert(seq![data[0]].skip(1) =~= Seq::<u8>::empty());
        assert(rx_no_complete(s1, e1, l1, b1, Seq::<u8>::empty()));
        assert(data.take(1)[0] == data[0]);
    } else {
        let (s1, e1, l1, b1) = rx_step(s, esc, len, buf, data[0]);
        let rest = data.skip(1);
        assert(data.take(i)[0] == data[0]);
        assert(data.take(i).skip(1) =~= rest.take(i - 1));
        assert(data.take(i + 1)[0] == data[0]);
        assert(data.take(i + 1).skip(1) =~= rest.take(i));
        lemma_rx_nc_snoc(s1, e1, l1, b1, rest, i - 1);
    }
}

/// Decodes frames from a byte stream into a caller-owned buffer.
pub struct FrameReader {
    state: State,
    escape: bool,
    len: usize,
}

impl FrameReader {
    pub closed spec fn spec_state(self) -> State {
        self.state
    }

    pub closed spec fn spec_escape(self) -> bool {
        self.escape
    }

    pub closed spec fn spec_len(self) -> nat {
        self.len as nat
    }

    /// The collected count fits the machine word, and a completed frame
    /// always holds at least the control byte and the two FCS bytes.
    pub open spec fn wf(self) -> bool {
        &&& self.spec_len() <= usize::MAX
        &&& (self.spec_state() == State::Complete ==> self.spec_len() >= 3)
    }

    pub fn new() -> (r: FrameReader)
        ensures
            r.wf(),
            r.spec_state() == State::Start,
            r.spec_escape() == false,
            r.spec_len() == 0,
    {
        FrameReader { state: State::Start, escape: false, len: 0 }
    }

    /// Takes the completed frame, if one is buffered: the range of `buf`
    /// holding the content between the control byte and the FCS. The
    /// reader then resumes at the next frame boundary.
    pub fn receive(&mut self) -> (r: Option<Range<usize>>)
        requires
            old(self).wf(),
        ensures
            final(self).wf(),
            old(self).spec_state() == State::Complete ==> r == Some(
                Range { start: 1usize, end: (old(self).spec_len() - 2) as usize },
            ) && final(self).spec_state() == State::Address && final(self).spec_len() == 0
                && final(self).spec_escape() == old(self).spec_escape(),
            old(self).spec_state() != State::Complete ==> r is None && *final(self) == *old(self),
    {
        match self.state {
            State::Complete => {
                let len = self.len;
                self.len = 0;
                self.state = State::Address;
                Some(1..len - 2)
            },
            _ => None,
        }
    }

    /// Feeds `data` to the receiver, unstuffing into `buf`, and returns
    /// how many bytes were accepted. The reader and buffer afterwards are
    /// the fold of `rx_step` over the accepted prefix; fewer bytes than
    /// offered are taken exactly when a frame completed and stalled the
    /// reader.
    pub fn consume(&mut self, buf: &mut Vec<u8>, data: &[u8]) -> (n: usize)
        requires
            old(self).wf(),
        ensures
            n <= data@.len(),
            final(self).wf(),
            ({
                let (s1, e1, l1, b1) = rx_run(
                    old(self).spec_state(),
                    old(self).spec_escape(),
                    old(self).spec_len(),
                    old(buf)@,
                    data@.take(n as int),
                );
                &&& final(self).spec_state() == s1
                &&& final(self).spec_escape() == e1
                &&& final(self).spec_len() == l1
                &&& final(buf)@ == b1
                &&& rx_no_complete(
                    old(self).spec_state(),
                    old(self).spec_escape(),
                    old(self).spec_len(),
                    old(buf)@,
                    data@.take(n as int),
                )
                &&& (n < data@.len() ==> s1 == State::Complete)
            }),
    {
        let ghost s0 = self.state;
        let ghost e0 = self.escape;
        let ghost l0 = self.len as nat;
        let ghost b0 = buf@;
        let mut i: usize = 0;
        while i < data.len()
            invariant
                i <= data@.len(),
                s0 == old(self).spec_state(),
                e0 == old(self).spec_escape(),
                l0 == old(self).spec_len(),
                b0 == old(buf)@,
                buf@.len() == b0.len(),
                self.wf(),
                ({
                    let (s1, e1, l1, b1) = rx_run(s0, e0, l0, b0, data@.take(i as int));
                    self.state == s1 && self.escape == e1 && self.len as nat == l1 && buf@ == b1
                }),
                rx_no_complete(s0, e0, l0, b0, data@.take(i as int)),
            decreases data@.len() - i,
        {
            let b = data[i];
            proof {
                lemma_rx_run_snoc(s0, e0, l0, b0, data@, i as int);
            }
            match (self.state, b) {
                (State::Start, 0x7e) => {
                    self.state = State::Address;
                },
                (State::Start, _) => {},
                (State::Address, 0xff) => {
                    self.state = State::Data;
                },
                (State::Address, 0x7e) => {},
                (State::Address, _) => {
                    self.state = State::Start;
                },
                (State::Data, 0x7e) => {
                    let ok = 3 <= self.len && self.len <= buf.len() && buf[0] == 0x03
                        && crate::crc::crc16(0x00FF, slice_take(buf.as_slice(), self.len))
                        == 0xf0b8;
                    self.state = if ok {
                        State::Complete
                    } else {
                        State::Address
                    };
                },
                (State::Data, 0x7d) => {
                    self.escape = true;
                },
                (State::Data, _) => {
                    let b2 = if self.escape {
                        b ^ 0x20
                    } else {
                        b
                    };
                    self.escape = false;
                    if self.len >= buf.len() {
                        self.state = State::Start;
                        self.len = 0;
                    } else {
                        buf.set(self.len, b2);
                        self.len = self.len + 1;
                    }
                },
                (State::Complete, _) => {
                    return i;
                },
            }
            proof {
                lemma_rx_nc_snoc(s0, e0, l0, b0, data@, i as int);
            }
            i = i + 1;
        }
        proof {
            assert(data@.take(data@.len() as int) =~= data@);
        }
        data.len()
    }
}

/// The first `n` bytes of a slice.
fn slice_take(s: &[u8], n: usize) -> (r: &[u8])
    requires
        n <= s@.len(),
    ensures
        r@ == s@.take(n as int),
{
    vstd::slice::slice_subrange(s, 0, n)
}

} // verus!
