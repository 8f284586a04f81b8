//! The HDLC-like frame transmitter. A frame is opened with `start` (flag,
//! address, escaped control byte), grown with `append` (payload bytes,
//! escaped according to the async control character map, folded into the
//! running CRC), and closed with `finish` (escaped FCS, closing flag). One
//! writer may emit several frames back to back into its buffer, which is
//! bounded by the capacity given at construction; an operation that would
//! overrun it fails with `BufferFullError` and leaves the writer unchanged.

use vstd::prelude::*;

use crate::crc::{crc16, crc16_spec};

verus! {

/// The writer's buffer has no room for the bytes of this operation.
#[derive(Debug, PartialEq, Eq, Structural, Clone, Copy)]
pub struct BufferFullError;

/// True when the transmitter must stuff byte `b` under asyncmap `map`:
/// always for the flag and escape bytes, and for control-range bytes whose
/// bit is set in the map.
pub open spec fn needs_escape(map: u32, b: u8) -> bool {
    b == 0x7d || b == 0x7e || (b <= 0x1f && map & (1u32 << (b as u32)) != 0)
}

/// The on-wire form of one byte: stuffed as `0x7D, b ^ 0x20`, or literal.
pub open spec fn escape_byte(map: u32, b: u8) -> Seq<u8> {
    if needs_escape(map, b) {
        seq![0x7du8, b ^ 0x20]
    } else {
        seq![b]
    }
}

/// The on-wire form of a byte sequence.
pub open spec fn escape_bytes(map: u32, data: Seq<u8>) -> Seq<u8>
    decreases data.len(),
{
    if data.len() == 0 {
        Seq::empty()
    } else {
        escape_bytes(map, data.drop_last()) + escape_byte(map, data.last())
    }
}

/// Escaping distributes over concatenation.
pub proof fn lemma_escape_bytes_append(map: u32, a: Seq<u8>, b: Seq<u8>)
    ensures
        escape_bytes(map, a + b) == escape_bytes(map, a) + escape_bytes(map, b),
    decreases b.len(),
{
    if b.len() == 0 {
        assert(a + b =~= a);
        assert(escape_bytes(map, b) =~= Seq::<u8>::empty());
        assert(escape_bytes(map, a) + escape_bytes(map, b) =~= escape_bytes(map, a));
    } else {
        lemma_escape_bytes_append(map, a, b.drop_last());
        assert((a + b).drop_last() =~= a + b.drop_last());
        assert((a + b).last() == b.last());
        assert(escape_bytes(map, a) + (escape_bytes(map, b.drop_last()) + escape_byte(map, b.last()))
            =~= (escape_bytes(map, a) + escape_bytes(map, b.drop_last())) + escape_byte(map, b.last()));
    }
}

/// A singleton escapes to its one byte's form.
pub proof fn lemma_escape_bytes_singleton(map: u32, b: u8)
    ensures
        escape_bytes(map, seq![b]) == escape_byte(map, b),
{
    assert(seq![b].drop_last() =~= Seq::<u8>::empty());
    assert(seq![b].last() == b);
    assert(escape_bytes(map, Seq::<u8>::empty()) =~= Seq::<u8>::empty());
    assert(Seq::<u8>::empty() + escape_byte(map, b) =~= escape_byte(map, b));
    assert(escape_bytes(map, seq![b]) =~= escape_byte(map, b));
}

/// Asyncmap application: a control-range byte travels literally when its
/// bit is clear, as under the all-clear map, and stuffed when its bit is
/// set, as under the all-set map; the flag and escape bytes are always
/// stuffed.
pub proof fn lemma_asyncmap_escaping(b: u8)
    ensures
        b <= 0x1f ==> escape_byte(0u32, b) == seq![b],
        b <= 0x1f ==> escape_byte(0xFFFFFFFFu32, b) == seq![0x7du8, b ^ 0x20],
        b == 0x7d || b == 0x7e ==> escape_byte(0u32, b) == seq![0x7du8, b ^ 0x20],
{
    assert(0u32 & (1u32 << (b as u32)) == 0) by (bit_vector);
    assert(b <= 0x1f ==> 0xFFFFFFFFu32 & (1u32 << (b as u32)) != 0) by (bit_vector);
}

/// Escaping at most doubles a sequence.
pub proof fn lemma_escape_bytes_len(map: u32, d: Seq<u8>)
    ensures
        escape_bytes(map, d).len() <= 2 * d.len(),
    decreases d.len(),
{
    if d.len() > 0 {
        lemma_escape_bytes_len(map, d.drop_last());
    }
}

/// The FCS a transmitter appends after payload `p`: the complement of the
/// CRC over the address and control bytes and the payload.
pub open spec fn frame_fcs(p: Seq<u8>) -> u16 {
    crc16_spec(0xFFFF, seq![0xffu8, 0x03u8] + p) ^ 0xFFFF
}

/// The FCS on the wire, low byte first.
pub open spec fn fcs_bytes(p: Seq<u8>) -> Seq<u8> {
    seq![frame_fcs(p) as u8, (frame_fcs(p) >> 8) as u8]
}

/// The complete encoding of one frame with payload `p` under asyncmap
/// `map`: opening flag, raw address byte, then the control byte, payload
/// and FCS all escaped, then the closing flag.
pub open spec fn frame_bytes(map: u32, p: Seq<u8>) -> Seq<u8> {
    seq![0x7eu8, 0xffu8] + escape_bytes(map, seq![0x03u8] + p + fcs_bytes(p)) + seq![0x7eu8]
}

/// Writes frames into an internal buffer bounded by `cap`.
pub struct FrameWriter {
    buf: Vec<u8>,
    cap: usize,
    crc: u16,
    asyncmap: u32,
    base_len: usize,
    started: Ghost<bool>,
    base: Ghost<Seq<u8>>,
    payload: Ghost<Seq<u8>>,
}

impl FrameWriter {
    /// All bytes written so far, completed frames and the open one.
    pub closed spec fn bytes(self) -> Seq<u8> {
        self.buf@
    }

    /// The buffer bound given at construction.
    pub closed spec fn spec_cap(self) -> usize {
        self.cap
    }

    /// The async control character map this writer escapes with.
    pub closed spec fn spec_asyncmap(self) -> u32 {
        self.asyncmap
    }

    /// True between `start` and `finish`.
    pub closed spec fn is_started(self) -> bool {
        self.started@
    }

    /// The bytes written before the currently open frame.
    pub closed spec fn spec_base(self) -> Seq<u8> {
        self.base@
    }

    /// The unescaped payload appended to the open frame so far.
    pub closed spec fn spec_payload(self) -> Seq<u8> {
        self.payload@
    }

    /// Two writers agree in every observable respect.
    pub open spec fn same_state(self, other: FrameWriter) -> bool {
        &&& self.bytes() == other.bytes()
        &&& self.spec_cap() == other.spec_cap()
        &&& self.spec_asyncmap() == other.spec_asyncmap()
        &&& self.is_started() == other.is_started()
        &&& self.spec_base() == other.spec_base()
        &&& self.spec_payload() == other.spec_payload()
        &&& self.spec_crc() == other.spec_crc()
    }

    /// The CRC accumulated over the open frame so far.
    pub closed spec fn spec_crc(self) -> u16 {
        self.crc
    }

    /// The writer's internal coherence: the buffer never exceeds the
    /// capacity, and it always holds the finished frames followed, when a
    /// frame is open, by its header and the escaped payload, with the CRC
    /// tracking the unescaped bytes.
    pub closed spec fn wf(self) -> bool {
        &&& self.buf@.len() <= self.cap
        &&& self.base_len == self.base@.len()
        &&& if self.started@ {
            self.buf@ == self.base@ + seq![0x7eu8, 0xffu8] + escape_bytes(
                self.asyncmap,
                seq![0x03u8] + self.payload@,
            ) && self.crc == crc16_spec(0xFFFF, seq![0xffu8, 0x03u8] + self.payload@)
        } else {
            self.buf@ == self.base@
        }
    }

    /// A writer for control frames: everything escapable is escaped.
    pub fn new(cap: usize) -> (r: FrameWriter)
        ensures
            r.wf(),
            !r.is_started(),
            r.bytes() == Seq::<u8>::empty(),
            r.spec_base() == Seq::<u8>::empty(),
            r.spec_cap() == cap,
            r.spec_asyncmap() == 0xFFFFFFFFu32,
    {
        FrameWriter {
            buf: Vec::new(),
            cap,
            crc: 0,
            asyncmap: 0xFFFFFFFF,
            base_len: 0,
            started: Ghost(false),
            base: Ghost(Seq::empty()),
            payload: Ghost(Seq::empty()),
        }
    }

    /// A writer that escapes control-range bytes per `asyncmap`.
    pub fn new_with_asyncmap(cap: usize, asyncmap: u32) -> (r: FrameWriter)
        ensures
            r.wf(),
            !r.is_started(),
            r.bytes() == Seq::<u8>::empty(),
            r.spec_base() == Seq::<u8>::empty(),
            r.spec_cap() == cap,
            r.spec_asyncmap() == asyncmap,
    {
        FrameWriter {
            buf: Vec::new(),
            cap,
            crc: 0,
            asyncmap,
            base_len: 0,
            started: Ghost(false),
            base: Ghost(Seq::empty()),
            payload: Ghost(Seq::empty()),
        }
    }

    /// How many bytes have been written.
    pub fn len(&self) -> (r: usize)
        ensures
            r == self.bytes().len(),
    {
        self.buf.len()
    }

    /// Hands the written bytes out, consuming the writer.
    pub fn get(self) -> (r: Vec<u8>)
        ensures
            r@ == self.bytes(),
    {
        self.buf
    }

    /// Pushes one byte if the capacity allows.
    fn try_push(&mut self, b: u8) -> (ok: bool)
        requires
            old(self).buf@.len() <= old(self).cap,
        ensures
            final(self).cap == old(self).cap,
            final(self).crc == old(self).crc,
            final(self).asyncmap == old(self).asyncmap,
            final(self).base_len == old(self).base_len,
            final(self).started == old(self).started,
            final(self).base == old(self).base,
            final(self).payload == old(self).payload,
            final(self).buf@.len() <= final(self).cap,
            ok ==> final(self).buf@ == old(self).buf@.push(b),
            !ok ==> final(self).buf@ == old(self).buf@ && old(self).buf@.len() + 1 > old(self).cap,
    {
        if self.buf.len() < self.cap {
            self.buf.push(b);
            true
        } else {
            false
        }
    }

    /// Pushes the escaped form of `b` if the capacity allows.
    fn push_escaped(&mut self, b: u8) -> (ok: bool)
        requires
            old(self).buf@.len() <= old(self).cap,
        ensures
            final(self).cap == old(self).cap,
            final(self).crc == old(self).crc,
            final(self).asyncmap == old(self).asyncmap,
            final(self).base_len == old(self).base_len,
            final(self).started == old(self).started,
            final(self).base == old(self).base,
            final(self).payload == old(self).payload,
            final(self).buf@.len() <= final(self).cap,
            ok ==> final(self).buf@ == old(self).buf@ + escape_byte(old(self).asyncmap, b),
            !ok ==> final(self).buf@ == old(self).buf@ && old(self).buf@.len() + escape_byte(
                old(self).asyncmap,
                b,
            ).len() > old(self).cap,
    {
        let escape = b == 0x7d || b == 0x7e || (b <= 0x1f && self.asyncmap & (1u32 << (b as u32))
            != 0);
        if escape {
            if self.cap - self.buf.len() >= 2 {
                self.buf.push(0x7d);
                self.buf.push(b ^ 0x20);
                proof {
                    assert(self.buf@ =~= old(self).buf@ + escape_byte(old(self).asyncmap, b));
                }
                true
            } else {
                false
            }
        } else {
            if self.cap - self.buf.len() >= 1 {
                self.buf.push(b);
                proof {
                    assert(self.buf@ =~= old(self).buf@ + escape_byte(old(self).asyncmap, b));
                }
                true
            } else {
                false
            }
        }
    }

    /// Pushes the escaped form of every byte of `data`, or rolls the
    /// buffer back and reports how it failed.
    fn push_all_escaped(&mut self, data: &[u8]) -> (ok: bool)
        requires
            old(self).buf@.len() <= old(self).cap,
        ensures
            final(self).cap == old(self).cap,
            final(self).crc == old(self).crc,
            final(self).asyncmap == old(self).asyncmap,
            final(self).base_len == old(self).base_len,
            final(self).started == old(self).started,
            final(self).base == old(self).base,
            final(self).payload == old(self).payload,
            final(self).buf@.len() <= final(self).cap,
            ok ==> final(self).buf@ == old(self).buf@ + escape_bytes(old(self).asyncmap, data@),
            !ok ==> final(self).buf@ == old(self).buf@ && old(self).buf@.len() + escape_bytes(
                old(self).asyncmap,
                data@,
            ).len() > old(self).cap,
    {
        let ghost map = self.asyncmap;
        let base_len = self.buf.len();
        let mut i: usize = 0;
        while i < data.len()
            invariant
                i <= data@.len(),
                base_len == old(self).buf@.len(),
                self.base_len == old(self).base_len,
                self.cap == old(self).cap,
                self.crc == old(self).crc,
                self.asyncmap == old(self).asyncmap,
                self.started == old(self).started,
                self.base == old(self).base,
                self.payload == old(self).payload,
                map == self.asyncmap,
                self.buf@ == old(self).buf@ + escape_bytes(map, data@.take(i as int)),
                self.buf@.len() <= self.cap,
            decreases data@.len() - i,
        {
            let b = data[i];
            let ok = self.push_escaped(b);
            proof {
                lemma_escape_take_step(map, data@, i as int);
            }
            if !ok {
                proof {
                    lemma_escape_len_monotone(map, data@, i + 1);
                }
                self.buf.truncate(base_len);
                proof {
                    assert(self.buf@ =~= old(self).buf@);
                }
                return false;
            }
            i = i + 1;
            proof {
                assert(self.buf@ =~= old(self).buf@ + escape_bytes(map, data@.take(i as int)));
            }
        }
        proof {
            assert(data@.take(data@.len() as int) =~= data@);
        }
        true
    }

    /// Opens a frame: flag and address raw, control byte escaped.
    pub fn start(&mut self) -> (r: Result<(), BufferFullError>)
        requires
            old(self).wf(),
            !old(self).is_started(),
        ensures
            final(self).wf(),
            final(self).spec_cap() == old(self).spec_cap(),
            final(self).spec_asyncmap() == old(self).spec_asyncmap(),
            r is Ok ==> final(self).is_started() && final(self).spec_base() == old(self).bytes()
                && final(self).spec_payload() == Seq::<u8>::empty() && final(self).bytes() == old(self).bytes() + seq![0x7eu8, 0xffu8] + escape_bytes(old(self).spec_asyncmap(), seq![0x03u8]),
            r is Err ==> final(self).same_state(*old(self)) && old(self).bytes().len() + 2
                + escape_byte(old(self).spec_asyncmap(), 0x03).len() > old(self).spec_cap(),
    {
        let ghost saved = *self;
        let base_len = self.buf.len();
        if !self.try_push(0x7e) {
            return Err(BufferFullError);
        }
        if !self.try_push(0xff) {
            self.buf.truncate(base_len);
            proof {
                assert(self.buf@ =~= saved.buf@);
            }
            return Err(BufferFullError);
        }
        if !self.push_escaped(0x03) {
            self.buf.truncate(base_len);
            proof {
                assert(self.buf@ =~= saved.buf@);
            }
            return Err(BufferFullError);
        }
        self.crc = crc16(0xFFFF, &[0xFF, 0x03]);
        self.base_len = base_len;
        proof {
            self.started = Ghost(true);
            self.base = Ghost(saved.buf@);
            self.payload = Ghost(Seq::empty());
            assert(seq![0x03u8] + self.payload@ =~= seq![0x03u8]);
            lemma_escape_bytes_singleton(self.asyncmap, 0x03);
            assert(self.buf@ =~= saved.buf@ + seq![0x7eu8, 0xffu8] + escape_bytes(
                self.asyncmap,
                seq![0x03u8] + self.payload@,
            ));
            assert([0xFFu8, 0x03u8]@ =~= seq![0xffu8, 0x03u8] + self.payload@);
        }
        Ok(())
    }

    /// Appends payload bytes to the open frame: escaped on the wire, raw
    /// into the CRC.
    pub fn append(&mut self, data: &[u8]) -> (r: Result<(), BufferFullError>)
        requires
            old(self).wf(),
            old(self).is_started(),
        ensures
            final(self).wf(),
            final(self).spec_cap() == old(self).spec_cap(),
            final(self).spec_asyncmap() == old(self).spec_asyncmap(),
            r is Ok ==> final(self).is_started() && final(self).spec_base() == old(self).spec_base() && final(self).spec_payload() == old(self).spec_payload() + data@
                && final(self).bytes() == old(self).bytes() + escape_bytes(
                old(self).spec_asyncmap(),
                data@,
            ),
            r is Err ==> final(self).same_state(*old(self)) && old(self).bytes().len()
                + escape_bytes(old(self).spec_asyncmap(), data@).len() > old(self).spec_cap(),
    {
        let ghost saved = *self;
        if !self.push_all_escaped(data) {
            return Err(BufferFullError);
        }
        self.crc = crc16(self.crc, data);
        proof {
            self.payload = Ghost(saved.payload@ + data@);
            lemma_escape_bytes_append(
                self.asyncmap,
                seq![0x03u8] + saved.payload@,
                data@,
            );
            assert(seq![0x03u8] + self.payload@ =~= (seq![0x03u8] + saved.payload@) + data@);
            assert(self.buf@ =~= self.base@ + seq![0x7eu8, 0xffu8] + escape_bytes(
                self.asyncmap,
                seq![0x03u8] + self.payload@,
            ));
            crate::crc::lemma_crc16_append(0xFFFF, seq![0xffu8, 0x03u8] + saved.payload@, data@);
            assert(seq![0xffu8, 0x03u8] + self.payload@ =~= (seq![0xffu8, 0x03u8] + saved.payload@)
                + data@);
        }
        Ok(())
    }

    /// Closes the frame: escaped FCS, low byte first, then the flag. On
    /// success the buffer holds the previous contents followed by the
    /// complete encoding of the appended payload.
    pub fn finish(&mut self) -> (r: Result<(), BufferFullError>)
        requires
            old(self).wf(),
            old(self).is_started(),
        ensures
            final(self).wf(),
            final(self).spec_cap() == old(self).spec_cap(),
            final(self).spec_asyncmap() == old(self).spec_asyncmap(),
            r is Ok ==> !final(self).is_started() && final(self).bytes() == old(self).spec_base()
                + frame_bytes(old(self).spec_asyncmap(), old(self).spec_payload()) && final(self).spec_base() == final(self).bytes(),
            r is Err ==> final(self).same_state(*old(self)) && old(self).bytes().len()
                + escape_bytes(
                old(self).spec_asyncmap(),
                fcs_bytes(old(self).spec_payload()),
            ).len() + 1 > old(self).spec_cap(),
    {
        let ghost saved = *self;
        let fcs = self.crc ^ 0xFFFF;
        let fcs_lo = (fcs % 256) as u8;
        let fcs_hi = (fcs / 256) as u8;
        proof {
            assert(fcs_lo == fcs as u8 && fcs_hi == (fcs >> 8) as u8) by (bit_vector)
                requires
                    fcs_lo == (fcs % 256) as u8 && fcs_hi == (fcs / 256) as u8,
            ;
        }
        proof {
            lemma_escape_bytes_append(saved.asyncmap, seq![fcs as u8], seq![(fcs >> 8) as u8]);
            lemma_escape_bytes_singleton(saved.asyncmap, fcs as u8);
            lemma_escape_bytes_singleton(saved.asyncmap, (fcs >> 8) as u8);
            assert(fcs_bytes(saved.payload@) =~= seq![fcs as u8] + seq![(fcs >> 8) as u8]);
        }
        let base_len = self.buf.len();
        if !self.push_escaped(fcs_lo) {
            return Err(BufferFullError);
        }
        if !self.push_escaped(fcs_hi) {
            self.buf.truncate(base_len);
            proof {
                assert(self.buf@ =~= saved.buf@);
            }
            return Err(BufferFullError);
        }
        if !self.try_push(0x7e) {
            self.buf.truncate(base_len);
            proof {
                assert(self.buf@ =~= saved.buf@);
            }
            return Err(BufferFullError);
        }
        proof {
            self.started = Ghost(false);
            self.payload = Ghost(Seq::empty());
            let map = saved.asyncmap;
            let p = saved.payload@;
            assert(fcs == frame_fcs(p));
            lemma_escape_bytes_append(map, seq![0x03u8] + p, fcs_bytes(p));
            lemma_escape_bytes_append(map, seq![fcs as u8], seq![(fcs >> 8) as u8]);
            lemma_escape_bytes_singleton(map, fcs as u8);
            lemma_escape_bytes_singleton(map, (fcs >> 8) as u8);
            assert(fcs_bytes(p) =~= seq![fcs as u8] + seq![(fcs >> 8) as u8]);
            assert(seq![0x03u8] + p + fcs_bytes(p) =~= (seq![0x03u8] + p) + fcs_bytes(p));
            assert(self.buf@ =~= saved.base@ + frame_bytes(map, p));
            self.base = Ghost(self.buf@);
        }
        self.base_len = self.buf.len();
        Ok(())
    }
}

impl FrameWriter {
    /// A coherent writer never holds more bytes than its capacity.
    pub proof fn lemma_bytes_within_cap(self)
        requires
            self.wf(),
        ensures
            self.bytes().len() <= self.spec_cap(),
    {
    }
}

/// Discards the open frame, if any: the buffer is cut back to the
/// completed frames and the writer is idle again.
impl FrameWriter {
    pub fn abort(&mut self)
        requires
            old(self).wf(),
        ensures
            final(self).wf(),
            !final(self).is_started(),
            final(self).bytes() == old(self).spec_base(),
            final(self).spec_base() == old(self).spec_base(),
            final(self).spec_cap() == old(self).spec_cap(),
            final(self).spec_asyncmap() == old(self).spec_asyncmap(),
    {
        self.buf.truncate(self.base_len);
        proof {
            assert(self.buf@ =~= self.base@);
            self.started = Ghost(false);
            self.payload = Ghost(Seq::empty());
        }
    }
}

/// Extending the unescaped prefix by one byte appends that byte's escaped
/// form.
pub proof fn lemma_escape_take_step(map: u32, s: Seq<u8>, i: int)
    requires
        0 <= i < s.len(),
    ensures
        escape_bytes(map, s.take(i + 1)) == escape_bytes(map, s.take(i)) + escape_byte(map, s[i]),
{
    assert(s.take(i + 1).drop_last() =~= s.take(i));
    assert(s.take(i + 1).last() == s[i]);
}

/// A prefix never escapes to more bytes than the whole.
pub proof fn lemma_escape_len_monotone(map: u32, s: Seq<u8>, i: int)
    requires
        0 <= i <= s.len(),
    ensures
        escape_bytes(map, s.take(i)).len() <= escape_bytes(map, s).len(),
    decreases s.len() - i,
{
    if i == s.len() {
        assert(s.take(i) =~= s);
    } else {
        lemma_escape_take_step(map, s, i);
        lemma_escape_len_monotone(map, s, i + 1);
    }
}

/// A frame encodes to at most twice its payload plus the fixed framing
/// bytes: flags, address, control and FCS, each possibly stuffed.
pub proof fn lemma_frame_bytes_len(map: u32, p: Seq<u8>)
    ensures
        frame_bytes(map, p).len() <= 2 * p.len() + 9,
{
    lemma_escape_bytes_len(map, seq![0x03u8] + p + fcs_bytes(p));
}

/// A frame is never shorter than its header, so a failed `start` already
/// means the whole frame would not have fit.
pub proof fn lemma_frame_bytes_longer_than_header(map: u32, p: Seq<u8>)
    ensures
        frame_bytes(map, p).len() >= 2 + escape_byte(map, 0x03).len(),
        frame_bytes(map, p).len() == 3 + escape_bytes(
            map,
            seq![0x03u8] + p + fcs_bytes(p),
        ).len(),
        escape_bytes(map, seq![0x03u8] + p + fcs_bytes(p))
            .len() >= escape_byte(map, 0x03).len(),
{
    let whole = seq![0x03u8] + p + fcs_bytes(p);
    assert(whole =~= seq![0x03u8] + (p + fcs_bytes(p)));
    lemma_escape_bytes_append(
        map,
        seq![0x03u8],
        p + fcs_bytes(p),
    );
    lemma_escape_bytes_singleton(map, 0x03);
}

/// The escaped pieces of a finished frame add up: header, protocol field,
/// payload, FCS and flags.
pub proof fn lemma_frame_bytes_parts(map: u32, proto: Seq<u8>, pkt: Seq<u8>)
    ensures
        ({
            let p = proto + pkt;
            let whole = seq![0x03u8] + p + fcs_bytes(p);
            frame_bytes(map, p).len() == 3 + escape_bytes(map, whole).len()
                && escape_bytes(map, whole) == escape_byte(
                map,
                0x03,
            ) + escape_bytes(map, proto) + escape_bytes(
                map,
                pkt,
            ) + escape_bytes(map, fcs_bytes(p))
        }),
{
    let p = proto + pkt;
    let whole = seq![0x03u8] + p + fcs_bytes(p);
    assert(whole =~= ((seq![0x03u8] + proto) + pkt) + fcs_bytes(p));
    lemma_escape_bytes_append(
        map,
        (seq![0x03u8] + proto) + pkt,
        fcs_bytes(p),
    );
    lemma_escape_bytes_append(map, seq![0x03u8] + proto, pkt);
    lemma_escape_bytes_append(map, seq![0x03u8], proto);
    lemma_escape_bytes_singleton(map, 0x03);
}

} // verus!
