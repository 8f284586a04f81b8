//! A small builder for control packet bodies: bytes and options are
//! appended into a bounded scratch buffer, and `write` frames the finished
//! body, with its protocol, code, identifier and derived length field,
//! through a frame transmitter.

use vstd::prelude::*;

use crate::frame_writer::{frame_bytes, lemma_frame_bytes_longer_than_header,
    lemma_frame_bytes_parts, BufferFullError, FrameWriter};
use crate::util::{split_hi, split_lo};
use crate::wire::{control_packet_bytes, pair_bytes, Code, ProtocolType};

verus! {

/// Builds one control packet body, at most 256 bytes.
pub struct PacketWriter {
    buf: Vec<u8>,
}

impl PacketWriter {
    /// The body bytes collected so far.
    pub closed spec fn bytes(self) -> Seq<u8> {
        self.buf@
    }

    /// The body stays within the scratch bound.
    pub open spec fn wf(self) -> bool {
        self.bytes().len() <= 256
    }

    pub fn new() -> (r: PacketWriter)
        ensures
            r.wf(),
            r.bytes() == Seq::<u8>::empty(),
    {
        PacketWriter { buf: Vec::new() }
    }

    /// Discards the collected body.
    pub fn reset(&mut self)
        ensures
            final(self).wf(),
            final(self).bytes() == Seq::<u8>::empty(),
    {
        self.buf.clear();
    }

    /// Appends raw bytes; fails, changing nothing, exactly when the bound
    /// would be passed.
    pub fn append(&mut self, data: &[u8]) -> (r: Result<(), BufferFullError>)
        requires
            old(self).wf(),
        ensures
            final(self).wf(),
            r is Ok <==> old(self).bytes().len() + data@.len() <= 256,
            r is Ok ==> final(self).bytes() == old(self).bytes() + data@,
            r is Err ==> final(self).bytes() == old(self).bytes(),
    {
        if data.len() <= 256 - self.buf.len() {
            crate::util::push_all(&mut self.buf, data);
            Ok(())
        } else {
            Err(BufferFullError)
        }
    }

    /// Appends one option in TLV form; fails, changing nothing, exactly
    /// when the bound would be passed.
    pub fn append_option(&mut self, code: u8, data: &[u8]) -> (r: Result<(), BufferFullError>)
        requires
            old(self).wf(),
            data@.len() + 2 <= 255,
        ensures
            final(self).wf(),
            r is Ok <==> old(self).bytes().len() + 2 + data@.len() <= 256,
            r is Ok ==> final(self).bytes() == old(self).bytes() + pair_bytes((code, data@)),
            r is Err ==> final(self).bytes() == old(self).bytes(),
    {
        if 2 + data.len() <= 256 - self.buf.len() {
            self.buf.push(code);
            self.buf.push((data.len() + 2) as u8);
            crate::util::push_all(&mut self.buf, data);
            proof {
                assert(self.buf@ =~= old(self).bytes() + pair_bytes((code, data@)));
            }
            Ok(())
        } else {
            Err(BufferFullError)
        }
    }

    /// The collected body.
    pub fn get_buf(&self) -> (r: &[u8])
        ensures
            r@ == self.bytes(),
    {
        self.buf.as_slice()
    }

    /// Frames the whole control packet around the collected body: succeeds
    /// with the frame appended to the transmitter exactly when it fits the
    /// transmitter's capacity, and leaves the transmitter untouched when
    /// it does not.
    pub fn write(&mut self, w: &mut FrameWriter, proto: ProtocolType, code: Code, id: u8) -> (r:
        Result<(), BufferFullError>)
        requires
            old(self).wf(),
            old(w).wf(),
            !old(w).is_started(),
        ensures
            final(self).wf(),
            final(self).bytes() == old(self).bytes(),
            final(w).wf(),
            !final(w).is_started(),
            final(w).spec_cap() == old(w).spec_cap(),
            final(w).spec_asyncmap() == old(w).spec_asyncmap(),
            ({
                let body = control_packet_bytes(proto, code, id, old(self).bytes());
                let enc = frame_bytes(old(w).spec_asyncmap(), body);
                &&& (r is Ok <==> old(w).bytes().len() + enc.len() <= old(w).spec_cap())
                &&& (r is Ok ==> final(w).bytes() == old(w).bytes() + enc)
                &&& (r is Err ==> final(w).bytes() == old(w).bytes())
            }),
    {
        let ghost map = w.spec_asyncmap();
        let proto16 = proto.to_u16();
        let len16 = (self.buf.len() + 4) as u16;
        let mut head: Vec<u8> = Vec::new();
        head.push(split_hi(proto16));
        head.push(split_lo(proto16));
        head.push(code.to_u8());
        head.push(id);
        head.push(split_hi(len16));
        head.push(split_lo(len16));
        let ghost body = control_packet_bytes(proto, code, id, self.buf@);
        proof {
            assert(head@ + self.buf@ =~= body);
            lemma_frame_bytes_parts(map, head@, self.buf@);
            lemma_frame_bytes_longer_than_header(map, body);
            crate::frame_writer::lemma_escape_bytes_singleton(map, 0x03);
        }
        if w.start().is_err() {
            return Err(BufferFullError);
        }
        if w.append(head.as_slice()).is_err() {
            w.abort();
            return Err(BufferFullError);
        }
        if w.append(self.buf.as_slice()).is_err() {
            w.abort();
            return Err(BufferFullError);
        }
        proof {
            assert((Seq::<u8>::empty() + head@) + self.buf@ =~= body);
        }
        if w.finish().is_err() {
            w.abort();
            return Err(BufferFullError);
        }
        proof {
            w.lemma_bytes_within_cap();
        }
        Ok(())
    }
}

} // verus!
