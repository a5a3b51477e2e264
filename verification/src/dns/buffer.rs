//! The packet buffer: bytes behind a cursor, with reads and writes that check
//! their bounds and the reading and writing of domain names.

use crate::dns::bytes::{be16, be32, wire16, wire32};
use crate::dns::error::ProtocolError;
use crate::dns::name::{
    append_range, encode_name, join, labels_fit, lemma_join_assoc, name_wire, parse_name, DOT,
    MAX_JUMPS, MAX_LABEL, POINTER_TAG,
};
use vstd::prelude::*;

verus! {

/// What a packet buffer is to its callers: the bytes it holds, the cursor, and
/// the size it may not grow beyond.
pub struct BufferState {
    pub bytes: Seq<u8>,
    pub pos: int,
    pub limit: int,
}

/// `bytes` with `data` laid over it from offset `at` on, longer where `data`
/// runs past its end.
pub open spec fn overwrite(bytes: Seq<u8>, at: int, data: Seq<u8>) -> Seq<u8> {
    bytes.take(at) + data + if at + data.len() < bytes.len() {
        bytes.skip(at + data.len())
    } else {
        Seq::empty()
    }
}

/// The 16-bit value that stands at `at` in `bytes`.
pub open spec fn u16_at(bytes: Seq<u8>, at: int) -> u16 {
    be16(bytes[at], bytes[at + 1])
}

/// The 32-bit value that stands at `at` in `bytes`.
pub open spec fn u32_at(bytes: Seq<u8>, at: int) -> u32 {
    be32(bytes[at], bytes[at + 1], bytes[at + 2], bytes[at + 3])
}

impl BufferState {
    /// The cursor stands within the bytes, and the bytes within the limit,
    /// which is a size the machine can hold.
    pub open spec fn wf(self) -> bool {
        0 <= self.pos <= self.bytes.len() <= self.limit <= usize::MAX
    }

    /// `n` more bytes can be read at the cursor.
    pub open spec fn readable(self, n: int) -> bool {
        self.pos + n <= self.bytes.len()
    }

    /// `n` more bytes can be written at the cursor.
    pub open spec fn writable(self, n: int) -> bool {
        self.pos + n <= self.limit
    }

    /// The same buffer with its cursor at `pos`.
    pub open spec fn moved_to(self, pos: int) -> BufferState {
        BufferState { pos, ..self }
    }

    /// The buffer after `data` was written at the cursor.
    pub open spec fn written(self, data: Seq<u8>) -> BufferState {
        BufferState {
            bytes: overwrite(self.bytes, self.pos, data),
            pos: self.pos + data.len(),
            limit: self.limit,
        }
    }
}

/// Writing `a` and then `b` is writing `a + b`.
pub proof fn lemma_written_twice(s: BufferState, a: Seq<u8>, b: Seq<u8>)
    requires
        s.wf(),
    ensures
        s.written(a).written(b) == s.written(a + b),
{
    assert(s.written(a).written(b).bytes =~= s.written(a + b).bytes);
}

/// Writing nothing leaves the buffer as it is.
pub proof fn lemma_written_nothing(s: BufferState)
    requires
        s.wf(),
    ensures
        s.written(Seq::empty()) == s,
{
    assert(s.written(Seq::empty()).bytes =~= s.bytes);
}

/// A byte sequence behind a cursor. Made from received bytes it has a fixed
/// capacity; made empty with a limit it grows as it is written, up to that
/// limit. No access leaves the bytes it holds.
pub struct PacketBuffer {
    buf: Vec<u8>,
    pos: usize,
    limit: usize,
}

impl View for PacketBuffer {
    type V = BufferState;

    closed spec fn view(&self) -> BufferState {
        BufferState { bytes: self.buf@, pos: self.pos as int, limit: self.limit as int }
    }
}

/// The part of `parse_name` that a reader has behind it: the labels read so
/// far and, once a pointer was followed, the offset at which reading resumes.
pub open spec fn resumed(
    prefix: Seq<u8>,
    resume: Option<usize>,
    tail: Result<(Seq<u8>, int), ProtocolError>,
) -> Result<(Seq<u8>, int), ProtocolError> {
    match tail {
        Ok((rest, end)) => Ok(
            (
                join(prefix, rest),
                match resume {
                    Some(r) => r as int,
                    None => end,
                },
            ),
        ),
        Err(e) => Err(e),
    }
}

impl PacketBuffer {
    /// A buffer of fixed capacity over received bytes, with the cursor at
    /// their start.
    pub fn from_bytes(data: Vec<u8>) -> (b: PacketBuffer)
        ensures
            b@ == (BufferState { bytes: data@, pos: 0, limit: data@.len() as int }),
            b@.wf(),
    {
        let limit = data.len();
        PacketBuffer { buf: data, pos: 0, limit }
    }

    /// An empty buffer that grows as it is written, up to `limit` bytes.
    pub fn with_limit(limit: usize) -> (b: PacketBuffer)
        ensures
            b@ == (BufferState { bytes: Seq::empty(), pos: 0, limit: limit as int }),
            b@.wf(),
    {
        PacketBuffer { buf: Vec::new(), pos: 0, limit }
    }

    /// The cursor.
    pub fn pos(&self) -> (p: usize)
        ensures
            p == self@.pos,
    {
        self.pos
    }

    /// The number of bytes held.
    pub fn len(&self) -> (n: usize)
        ensures
            n == self@.bytes.len(),
    {
        self.buf.len()
    }

    /// The size the buffer may not grow beyond.
    pub fn limit(&self) -> (n: usize)
        ensures
            n == self@.limit,
    {
        self.limit
    }

    /// The bytes held.
    pub fn as_slice(&self) -> (s: &[u8])
        ensures
            s@ == self@.bytes,
    {
        self.buf.as_slice()
    }

    /// Moves the cursor to `pos`, which may be the end of the bytes held.
    pub fn seek(&mut self, pos: usize) -> (r: Result<(), ProtocolError>)
        requires
            old(self)@.wf(),
        ensures
            final(self)@.wf(),
            match r {
                Ok(_) => pos <= old(self)@.bytes.len() && final(self)@ == old(self)@.moved_to(
                    pos as int,
                ),
                Err(e) => pos > old(self)@.bytes.len() && e == ProtocolError::EndOfBuffer
                    && final(self)@ == old(self)@,
            },
    {
        if pos > self.buf.len() {
            return Err(ProtocolError::EndOfBuffer);
        }
        self.pos = pos;
        Ok(())
    }

    /// The byte at `pos`; the cursor stays.
    pub fn get(&self, pos: usize) -> (r: Result<u8, ProtocolError>)
        ensures
            match r {
                Ok(v) => pos < self@.bytes.len() && v == self@.bytes[pos as int],
                Err(e) => pos >= self@.bytes.len() && e == ProtocolError::EndOfBuffer,
            },
    {
        if pos >= self.buf.len() {
            return Err(ProtocolError::EndOfBuffer);
        }
        Ok(self.buf[pos])
    }

    /// The `len` bytes from `start` on; the cursor stays.
    pub fn get_range(&self, start: usize, len: usize) -> (r: Result<Vec<u8>, ProtocolError>)
        ensures
            match r {
                Ok(v) => start + len <= self@.bytes.len() && v@ == self@.bytes.subrange(
                    start as int,
                    start + len,
                ),
                Err(e) => start + len > self@.bytes.len() && e == ProtocolError::EndOfBuffer,
            },
    {
        if start > self.buf.len() || len > self.buf.len() - start {
            return Err(ProtocolError::EndOfBuffer);
        }
        let mut out: Vec<u8> = Vec::new();
        append_range(&mut out, self.buf.as_slice(), start, start + len);
        Ok(out)
    }

    /// Reads the byte at the cursor and steps over it.
    pub fn read_u8(&mut self) -> (r: Result<u8, ProtocolError>)
        requires
            old(self)@.wf(),
        ensures
            final(self)@.wf(),
            match r {
                Ok(v) => old(self)@.readable(1) && v == old(self)@.bytes[old(self)@.pos]
                    && final(self)@ == old(self)@.moved_to(old(self)@.pos + 1),
                Err(e) => !old(self)@.readable(1) && e == ProtocolError::EndOfBuffer
                    && final(self)@ == old(self)@,
            },
    {
        if self.pos >= self.buf.len() {
            return Err(ProtocolError::EndOfBuffer);
        }
        let v = self.buf[self.pos];
        self.pos = self.pos + 1;
        Ok(v)
    }

    /// Reads the big-endian 16-bit value at the cursor and steps over it.
    pub fn read_u16(&mut self) -> (r: Result<u16, ProtocolError>)
        requires
            old(self)@.wf(),
        ensures
            final(self)@.wf(),
            match r {
                Ok(v) => old(self)@.readable(2) && v == u16_at(old(self)@.bytes, old(self)@.pos)
                    && final(self)@ == old(self)@.moved_to(old(self)@.pos + 2),
                Err(e) => !old(self)@.readable(2) && e == ProtocolError::EndOfBuffer
                    && final(self)@ == old(self)@,
            },
    {
        if self.buf.len() - self.pos < 2 {
            return Err(ProtocolError::EndOfBuffer);
        }
        let hi: u16 = self.buf[self.pos] as u16;
        let lo: u16 = self.buf[self.pos + 1] as u16;
        self.pos = self.pos + 2;
        Ok(hi * 256 + lo)
    }

    /// Reads the big-endian 32-bit value at the cursor and steps over it.
    pub fn read_u32(&mut self) -> (r: Result<u32, ProtocolError>)
        requires
            old(self)@.wf(),
        ensures
            final(self)@.wf(),
            match r {
                Ok(v) => old(self)@.readable(4) && v == u32_at(old(self)@.bytes, old(self)@.pos)
                    && final(self)@ == old(self)@.moved_to(old(self)@.pos + 4),
                Err(e) => !old(self)@.readable(4) && e == ProtocolError::EndOfBuffer
                    && final(self)@ == old(self)@,
            },
    {
        if self.buf.len() - self.pos < 4 {
            return Err(ProtocolError::EndOfBuffer);
        }
        let b0: u32 = self.buf[self.pos] as u32;
        let b1: u32 = self.buf[self.pos + 1] as u32;
        let b2: u32 = self.buf[self.pos + 2] as u32;
        let b3: u32 = self.buf[self.pos + 3] as u32;
        self.pos = self.pos + 4;
        Ok(b0 * 16777216 + b1 * 65536 + b2 * 256 + b3)
    }

    /// Writes `data` at the cursor and steps over it, or writes nothing: the
    /// bytes from the cursor on are replaced, and the buffer grows where
    /// `data` runs past its end, as long as it stays within its limit.
    pub fn write_all(&mut self, data: &[u8]) -> (r: Result<(), ProtocolError>)
        requires
            old(self)@.wf(),
        ensures
            final(self)@.wf(),
            match r {
                Ok(_) => old(self)@.writable(data@.len() as int)
                    && final(self)@ == old(self)@.written(data@),
                Err(e) => !old(self)@.writable(data@.len() as int) && e
                    == ProtocolError::EndOfBuffer && final(self)@ == old(self)@,
            },
    {
        if data.len() > self.limit - self.pos {
            return Err(ProtocolError::EndOfBuffer);
        }
        let mut i: usize = 0;
        proof {
            lemma_written_nothing(old(self)@);
            assert(data@.take(0) =~= Seq::empty());
        }
        while i < data.len()
            invariant
                i <= data@.len(),
                old(self)@.wf(),
                old(self)@.writable(data@.len() as int),
                self@.wf(),
                self@ == old(self)@.written(data@.take(i as int)),
            decreases data@.len() - i,
        {
            let ghost before = self@;
            if self.pos < self.buf.len() {
                self.buf[self.pos] = data[i];
            } else {
                self.buf.push(data[i]);
            }
            self.pos = self.pos + 1;
            i = i + 1;
            proof {
                assert(self@.bytes =~= before.written(seq![data@[i - 1]]).bytes);
                lemma_written_twice(old(self)@, data@.take(i - 1), seq![data@[i - 1]]);
                assert(data@.take(i as int) =~= data@.take(i - 1) + seq![data@[i - 1]]);
            }
        }
        assert(data@.take(data@.len() as int) =~= data@);
        Ok(())
    }

    /// Writes one byte at the cursor and steps over it.
    pub fn write_u8(&mut self, val: u8) -> (r: Result<(), ProtocolError>)
        requires
            old(self)@.wf(),
        ensures
            final(self)@.wf(),
            match r {
                Ok(_) => old(self)@.writable(1) && final(self)@ == old(self)@.written(seq![val]),
                Err(e) => !old(self)@.writable(1) && e == ProtocolError::EndOfBuffer
                    && final(self)@ == old(self)@,
            },
    {
        let data: [u8; 1] = [val];
        assert(data@ =~= seq![val]);
        self.write_all(data.as_slice())
    }

    /// Writes a 16-bit value at the cursor, most significant byte first, and
    /// steps over it.
    pub fn write_u16(&mut self, val: u16) -> (r: Result<(), ProtocolError>)
        requires
            old(self)@.wf(),
        ensures
            final(self)@.wf(),
            match r {
                Ok(_) => old(self)@.writable(2) && final(self)@ == old(self)@.written(wire16(val)),
                Err(e) => !old(self)@.writable(2) && e == ProtocolError::EndOfBuffer
                    && final(self)@ == old(self)@,
            },
    {
        let data: [u8; 2] = [(val / 256) as u8, (val % 256) as u8];
        assert(data@ =~= wire16(val));
        self.write_all(data.as_slice())
    }

    /// Writes a 32-bit value at the cursor, most significant byte first, and
    /// steps over it.
    pub fn write_u32(&mut self, val: u32) -> (r: Result<(), ProtocolError>)
        requires
            old(self)@.wf(),
        ensures
            final(self)@.wf(),
            match r {
                Ok(_) => old(self)@.writable(4) && final(self)@ == old(self)@.written(wire32(val)),
                Err(e) => !old(self)@.writable(4) && e == ProtocolError::EndOfBuffer
                    && final(self)@ == old(self)@,
            },
    {
        let data: [u8; 4] = [
            (val / 16777216) as u8,
            ((val / 65536) % 256) as u8,
            ((val / 256) % 256) as u8,
            (val % 256) as u8,
        ];
        assert(data@ =~= wire32(val));
        self.write_all(data.as_slice())
    }

    /// Reads the domain name at the cursor, following compression pointers,
    /// and moves the cursor behind what stands there: behind the name where
    /// it is written out, behind the first pointer where it is not. More than
    /// `MAX_JUMPS` pointers in a chain fail with `TooManyJumps`, a length byte
    /// between 64 and 191 with `Malformed`, a label or pointer that leaves the
    /// bytes held with `EndOfBuffer`.
    pub fn read_qname(&mut self) -> (r: Result<Vec<u8>, ProtocolError>)
        requires
            old(self)@.wf(),
        ensures
            final(self)@.wf(),
            match parse_name(old(self)@.bytes, old(self)@.pos, MAX_JUMPS as nat) {
                Ok((name, end)) => r is Ok && r->Ok_0@ == name
                    && final(self)@ == old(self)@.moved_to(end),
                Err(e) => r is Err && r->Err_0 == e && final(self)@ == old(self)@,
            },
    {
        let mut name: Vec<u8> = Vec::new();
        let mut at: usize = self.pos;
        let mut jumps: usize = MAX_JUMPS;
        let mut resume: Option<usize> = None;
        let ghost bytes = self.buf@;
        let ghost goal = parse_name(bytes, self.pos as int, MAX_JUMPS as nat);
        proof {
            assert(forall|rest: Seq<u8>| join(Seq::empty(), rest) == rest);
        }
        loop
            invariant
                *self == *old(self),
                self@.wf(),
                bytes == self.buf@,
                jumps <= MAX_JUMPS,
                match resume {
                    Some(r) => r <= bytes.len(),
                    None => true,
                },
                goal == parse_name(old(self)@.bytes, old(self)@.pos, MAX_JUMPS as nat),
                goal == resumed(name@, resume, parse_name(bytes, at as int, jumps as nat)),
            decreases jumps, bytes.len() - at,
        {
            if at >= self.buf.len() {
                return Err(ProtocolError::EndOfBuffer);
            }
            let len: u8 = self.buf[at];
            if len >= POINTER_TAG {
                if at + 1 >= self.buf.len() {
                    return Err(ProtocolError::EndOfBuffer);
                }
                if jumps == 0 {
                    return Err(ProtocolError::TooManyJumps);
                }
                let second: u8 = self.buf[at + 1];
                if resume.is_none() {
                    resume = Some(at + 2);
                }
                at = (len - POINTER_TAG) as usize * 256 + second as usize;
                jumps = jumps - 1;
            } else if len as usize > MAX_LABEL {
                return Err(ProtocolError::Malformed);
            } else if len == 0 {
                let end: usize = match resume {
                    Some(r) => r,
                    None => at + 1,
                };
                proof {
                    assert(join(name@, Seq::empty()) =~= name@);
                }
                self.pos = end;
                return Ok(name);
            } else {
                let n: usize = len as usize;
                if n > self.buf.len() - at - 1 {
                    return Err(ProtocolError::EndOfBuffer);
                }
                let ghost prefix = name@;
                let ghost label = bytes.subrange(at + 1, at + 1 + n);
                if name.len() > 0 {
                    name.push(DOT);
                }
                append_range(&mut name, self.buf.as_slice(), at + 1, at + 1 + n);
                proof {
                    assert(name@ =~= join(prefix, label));
                    assert forall|rest: Seq<u8>|
                        join(prefix, #[trigger] join(label, rest)) == join(name@, rest) by {
                        lemma_join_assoc(prefix, label, rest);
                    }
                }
                at = at + 1 + n;
            }
        }
    }

    /// Writes a dotted name at the cursor in its uncompressed wire form and
    /// steps over it, or writes nothing: a label of more than `MAX_LABEL`
    /// bytes fails with `LabelTooLong`, a name that does not fit within the
    /// limit with `EndOfBuffer`.
    pub fn write_qname(&mut self, name: &[u8]) -> (r: Result<(), ProtocolError>)
        requires
            old(self)@.wf(),
        ensures
            final(self)@.wf(),
            match r {
                Ok(_) => labels_fit(name@) && old(self)@.writable(name_wire(name@).len() as int)
                    && final(self)@ == old(self)@.written(name_wire(name@)),
                Err(e) => final(self)@ == old(self)@ && if labels_fit(name@) {
                    !old(self)@.writable(name_wire(name@).len() as int) && e
                        == ProtocolError::EndOfBuffer
                } else {
                    e == ProtocolError::LabelTooLong
                },
            },
    {
        match encode_name(name) {
            Ok(wire) => self.write_all(wire.as_slice()),
            Err(e) => Err(e),
        }
    }
}

} // verus!
