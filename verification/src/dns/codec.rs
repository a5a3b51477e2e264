//! Reading messages from a packet buffer and writing them to one.

use crate::dns::buffer::PacketBuffer;
use crate::dns::bytes::{push_u128, push_u16, push_u32, wire16};
use crate::dns::error::ProtocolError;
use crate::dns::name::{append_range, encode_name, labels_fit};
use crate::dns::protocol::{
    question_views, record_views, DnsHeader, DnsPacket, DnsQuestion, DnsRecord, PacketView,
    QueryType, QuestionView, RecordView, ResultCode, SectionCounts,
};
use crate::dns::ttl::TransientTtl;
use crate::dns::wire::{
    fit_count, flags_hi, flags_lo, header_fits, header_wire, message_budget, names_fit,
    packet_encoding, parse_header, parse_packet, parse_question, parse_questions, parse_rdata,
    parse_record, parse_records, question_wire, questions_fit, questions_wire, rdata_wire,
    record_encoding, record_wire, records_wire, written_counts, written_header, written_records,
    Written, CLASS_IN, HEADER_LEN, MAX_COUNT,
};
use vstd::prelude::*;

verus! {

/// Puts the cursor back to `start` and fails with `e`.
fn fail<T>(buffer: &mut PacketBuffer, start: usize, e: ProtocolError) -> (r: Result<
    T,
    ProtocolError,
>)
    requires
        old(buffer)@.wf(),
        start <= old(buffer)@.bytes.len(),
    ensures
        r == Err::<T, ProtocolError>(e),
        final(buffer)@ == old(buffer)@.moved_to(start as int),
{
    let _ = buffer.seek(start);
    Err(e)
}

impl DnsHeader {
    /// The twelve bytes of the header with the given section counts. It
    /// fails, with `Overflow`, exactly when the opcode does not fit in four
    /// bits.
    pub fn to_bytes(&self, counts: SectionCounts) -> (r: Result<Vec<u8>, ProtocolError>)
        ensures
            match r {
                Ok(bytes) => header_fits(*self) && bytes@ == header_wire(*self, counts)
                    && bytes@.len() == HEADER_LEN,
                Err(e) => !header_fits(*self) && e == ProtocolError::Overflow,
            },
    {
        reveal(header_wire);
        if self.opcode >= 16 {
            return Err(ProtocolError::Overflow);
        }
        let mut out: Vec<u8> = Vec::new();
        push_u16(&mut out, self.id);
        let mut hi: u8 = self.opcode * 8;
        if self.response {
            hi = hi + 128;
        }
        if self.authoritative_answer {
            hi = hi + 4;
        }
        if self.truncated_message {
            hi = hi + 2;
        }
        if self.recursion_desired {
            hi = hi + 1;
        }
        let mut lo: u8 = self.rescode.to_num();
        if self.recursion_available {
            lo = lo + 128;
        }
        if self.z {
            lo = lo + 64;
        }
        if self.authed_data {
            lo = lo + 32;
        }
        if self.checking_disabled {
            lo = lo + 16;
        }
        out.push(hi);
        out.push(lo);
        assert(out@ =~= wire16(self.id) + seq![
            flags_hi(*self) as u8,
            flags_lo(*self) as u8,
        ]);
        push_u16(&mut out, counts.questions);
        push_u16(&mut out, counts.answers);
        push_u16(&mut out, counts.authoritative_entries);
        push_u16(&mut out, counts.resource_entries);
        Ok(out)
    }

    /// Writes the header with the given section counts at the cursor, or
    /// writes nothing.
    pub fn write(&self, counts: SectionCounts, buffer: &mut PacketBuffer) -> (r: Result<
        (),
        ProtocolError,
    >)
        requires
            old(buffer)@.wf(),
        ensures
            final(buffer)@.wf(),
            match r {
                Ok(_) => header_fits(*self) && old(buffer)@.writable(HEADER_LEN as int)
                    && final(buffer)@ == old(buffer)@.written(header_wire(*self, counts)),
                Err(e) => final(buffer)@ == old(buffer)@ && if header_fits(*self) {
                    !old(buffer)@.writable(HEADER_LEN as int) && e == ProtocolError::EndOfBuffer
                } else {
                    e == ProtocolError::Overflow
                },
            },
    {
        match self.to_bytes(counts) {
            Ok(bytes) => buffer.write_all(bytes.as_slice()),
            Err(e) => Err(e),
        }
    }

    /// Reads the header and the section counts at the cursor and steps over
    /// them. Fewer than twelve bytes fail with `EndOfBuffer`, a result code
    /// above 5 with `Malformed`.
    pub fn read(buffer: &mut PacketBuffer) -> (r: Result<(DnsHeader, SectionCounts), ProtocolError>)
        requires
            old(buffer)@.wf(),
        ensures
            final(buffer)@.wf(),
            match parse_header(old(buffer)@.bytes, old(buffer)@.pos) {
                Ok(parsed) => r == Ok::<(DnsHeader, SectionCounts), ProtocolError>(parsed)
                    && final(buffer)@ == old(buffer)@.moved_to(old(buffer)@.pos + HEADER_LEN),
                Err(e) => r == Err::<(DnsHeader, SectionCounts), ProtocolError>(e)
                    && final(buffer)@ == old(buffer)@,
            },
    {
        reveal(parse_header);
        let start = buffer.pos();
        if buffer.len() - start < HEADER_LEN {
            return Err(ProtocolError::EndOfBuffer);
        }
        let id = buffer.read_u16()?;
        let hi = buffer.read_u8()?;
        let lo = buffer.read_u8()?;
        let rescode = match ResultCode::from_num(lo % 16) {
            Some(code) => code,
            None => {
                return fail(buffer, start, ProtocolError::Malformed);
            },
        };
        let questions = buffer.read_u16()?;
        let answers = buffer.read_u16()?;
        let authoritative_entries = buffer.read_u16()?;
        let resource_entries = buffer.read_u16()?;
        Ok(
            (
                DnsHeader {
                    id,
                    recursion_desired: hi % 2 == 1,
                    truncated_message: (hi / 2) % 2 == 1,
                    authoritative_answer: (hi / 4) % 2 == 1,
                    opcode: (hi / 8) % 16,
                    response: (hi / 128) % 2 == 1,
                    rescode,
                    checking_disabled: (lo / 16) % 2 == 1,
                    authed_data: (lo / 32) % 2 == 1,
                    z: (lo / 64) % 2 == 1,
                    recursion_available: (lo / 128) % 2 == 1,
                },
                SectionCounts { questions, answers, authoritative_entries, resource_entries },
            ),
        )
    }
}

impl DnsQuestion {
    /// A question for `name` and `qtype`.
    pub fn new(name: Vec<u8>, qtype: QueryType) -> (q: DnsQuestion)
        ensures
            q.name == name,
            q.qtype == qtype,
    {
        DnsQuestion { name, qtype }
    }

    /// The bytes of the question. It fails, with `LabelTooLong`, exactly when
    /// a label of its name has more than 63 bytes.
    pub fn to_bytes(&self) -> (r: Result<Vec<u8>, ProtocolError>)
        ensures
            match r {
                Ok(bytes) => labels_fit(self@.name) && bytes@ == question_wire(
                    self@,
                ),
                Err(e) => !labels_fit(self@.name) && e
                    == ProtocolError::LabelTooLong,
            },
    {
        reveal(question_wire);
        let mut out = encode_name(self.name.as_slice())?;
        push_u16(&mut out, self.qtype.to_num());
        push_u16(&mut out, CLASS_IN);
        Ok(out)
    }

    /// Writes the question at the cursor and steps over it, or writes
    /// nothing.
    pub fn write(&self, buffer: &mut PacketBuffer) -> (r: Result<(), ProtocolError>)
        requires
            old(buffer)@.wf(),
        ensures
            final(buffer)@.wf(),
            match r {
                Ok(_) => labels_fit(self@.name) && old(buffer)@.writable(
                    question_wire(self@).len() as int,
                ) && final(buffer)@ == old(buffer)@.written(question_wire(self@)),
                Err(e) => final(buffer)@ == old(buffer)@ && if labels_fit(
                    self@.name,
                ) {
                    !old(buffer)@.writable(question_wire(self@).len() as int) && e
                        == ProtocolError::EndOfBuffer
                } else {
                    e == ProtocolError::LabelTooLong
                },
            },
    {
        match self.to_bytes() {
            Ok(bytes) => buffer.write_all(bytes.as_slice()),
            Err(e) => Err(e),
        }
    }

    /// Reads the question at the cursor and steps over it.
    pub fn read(buffer: &mut PacketBuffer) -> (r: Result<DnsQuestion, ProtocolError>)
        requires
            old(buffer)@.wf(),
        ensures
            final(buffer)@.wf(),
            match parse_question(old(buffer)@.bytes, old(buffer)@.pos) {
                Ok((q, end)) => r is Ok && r->Ok_0@ == q
                    && final(buffer)@ == old(buffer)@.moved_to(end),
                Err(e) => r is Err && r->Err_0 == e && final(buffer)@ == old(buffer)@,
            },
    {
        reveal(parse_question);
        let start = buffer.pos();
        let name = buffer.read_qname()?;
        let code = match buffer.read_u16() {
            Ok(v) => v,
            Err(e) => {
                return fail(buffer, start, e);
            },
        };
        let _class = match buffer.read_u16() {
            Ok(v) => v,
            Err(e) => {
                return fail(buffer, start, e);
            },
        };
        Ok(DnsQuestion { name, qtype: QueryType::from_num(code) })
    }
}

impl DnsRecord {
    /// The payload of the record as its type lays it out. It fails, with
    /// `LabelTooLong`, exactly when a label of a name in the payload has more
    /// than 63 bytes.
    fn rdata_bytes(&self) -> (r: Result<Vec<u8>, ProtocolError>)
        ensures
            match r {
                Ok(bytes) => bytes@ == rdata_wire(self@) && (labels_fit(
                    self@.domain(),
                ) ==> names_fit(self@)),
                Err(e) => !names_fit(self@) && e == ProtocolError::LabelTooLong,
            },
    {
        reveal(rdata_wire);
        reveal(names_fit);
        let mut out: Vec<u8> = Vec::new();
        match self {
            DnsRecord::UNKNOWN { data, .. } => {
                append_range(&mut out, data.as_slice(), 0, data.len());
                assert(data@.subrange(0, data@.len() as int) =~= data@);
            },
            DnsRecord::A { addr, .. } => {
                push_u32(&mut out, *addr);
            },
            DnsRecord::NS { host, .. } => {
                out = encode_name(host.as_slice())?;
            },
            DnsRecord::CNAME { host, .. } => {
                out = encode_name(host.as_slice())?;
            },
            DnsRecord::SOA { m_name, r_name, serial, refresh, retry, expire, minimum, .. } => {
                out = encode_name(m_name.as_slice())?;
                let second = encode_name(r_name.as_slice())?;
                append_range(&mut out, second.as_slice(), 0, second.len());
                assert(second@.subrange(0, second@.len() as int) =~= second@);
                push_u32(&mut out, *serial);
                push_u32(&mut out, *refresh);
                push_u32(&mut out, *retry);
                push_u32(&mut out, *expire);
                push_u32(&mut out, *minimum);
            },
            DnsRecord::MX { priority, host, .. } => {
                push_u16(&mut out, *priority);
                let name = encode_name(host.as_slice())?;
                append_range(&mut out, name.as_slice(), 0, name.len());
                assert(name@.subrange(0, name@.len() as int) =~= name@);
            },
            DnsRecord::TXT { data, .. } => {
                append_range(&mut out, data.as_slice(), 0, data.len());
                assert(data@.subrange(0, data@.len() as int) =~= data@);
            },
            DnsRecord::AAAA { addr, .. } => {
                push_u128(&mut out, *addr);
            },
        }
        assert(out@ =~= rdata_wire(self@));
        Ok(out)
    }

    /// The name the record belongs to.
    pub fn domain(&self) -> (d: &Vec<u8>)
        ensures
            d@ == self@.domain(),
    {
        match self {
            DnsRecord::UNKNOWN { domain, .. } => domain,
            DnsRecord::A { domain, .. } => domain,
            DnsRecord::NS { domain, .. } => domain,
            DnsRecord::CNAME { domain, .. } => domain,
            DnsRecord::SOA { domain, .. } => domain,
            DnsRecord::MX { domain, .. } => domain,
            DnsRecord::TXT { domain, .. } => domain,
            DnsRecord::AAAA { domain, .. } => domain,
        }
    }

    /// The record's type.
    pub fn get_querytype(&self) -> (t: QueryType)
        ensures
            t == self@.qtype(),
    {
        match self {
            DnsRecord::UNKNOWN { qtype, .. } => QueryType::UNKNOWN(*qtype),
            DnsRecord::A { .. } => QueryType::A,
            DnsRecord::NS { .. } => QueryType::NS,
            DnsRecord::CNAME { .. } => QueryType::CNAME,
            DnsRecord::SOA { .. } => QueryType::SOA,
            DnsRecord::MX { .. } => QueryType::MX,
            DnsRecord::TXT { .. } => QueryType::TXT,
            DnsRecord::AAAA { .. } => QueryType::AAAA,
        }
    }

    /// The record's time to live in seconds.
    pub fn get_ttl(&self) -> (ttl: u32)
        ensures
            ttl == self@.ttl(),
    {
        match self {
            DnsRecord::UNKNOWN { ttl, .. } => ttl.0,
            DnsRecord::A { ttl, .. } => ttl.0,
            DnsRecord::NS { ttl, .. } => ttl.0,
            DnsRecord::CNAME { ttl, .. } => ttl.0,
            DnsRecord::SOA { ttl, .. } => ttl.0,
            DnsRecord::MX { ttl, .. } => ttl.0,
            DnsRecord::TXT { ttl, .. } => ttl.0,
            DnsRecord::AAAA { ttl, .. } => ttl.0,
        }
    }

    /// The bytes of the record. It fails with `LabelTooLong` when a label of
    /// one of its names has more than 63 bytes, else with `Overflow` when its
    /// payload is longer than 65535 bytes, and in no other case.
    pub fn to_bytes(&self) -> (r: Result<Vec<u8>, ProtocolError>)
        ensures
            match record_encoding(self@) {
                Ok(bytes) => r is Ok && r->Ok_0@ == bytes,
                Err(e) => r is Err && r->Err_0 == e,
            },
    {
        reveal(record_encoding);
        reveal(record_wire);
        reveal(names_fit);
        let mut out = encode_name(self.domain().as_slice())?;
        let rdata = self.rdata_bytes()?;
        if rdata.len() > MAX_COUNT {
            return Err(ProtocolError::Overflow);
        }
        push_u16(&mut out, self.get_querytype().to_num());
        push_u16(&mut out, CLASS_IN);
        push_u32(&mut out, self.get_ttl());
        push_u16(&mut out, rdata.len() as u16);
        append_range(&mut out, rdata.as_slice(), 0, rdata.len());
        assert(rdata@.subrange(0, rdata@.len() as int) =~= rdata@);
        assert(out@ =~= record_wire(self@));
        Ok(out)
    }

    /// Writes the record at the cursor and steps over it, or writes nothing.
    /// It returns the number of bytes written. A record that cannot be
    /// written fails as `to_bytes` does, one that does not fit within the
    /// buffer's limit with `EndOfBuffer`.
    pub fn write(&self, buffer: &mut PacketBuffer) -> (r: Result<usize, ProtocolError>)
        requires
            old(buffer)@.wf(),
        ensures
            final(buffer)@.wf(),
            match record_encoding(self@) {
                Ok(bytes) => if old(buffer)@.writable(bytes.len() as int) {
                    r == Ok::<usize, ProtocolError>(bytes.len() as usize)
                        && final(buffer)@ == old(buffer)@.written(bytes)
                } else {
                    r == Err::<usize, ProtocolError>(ProtocolError::EndOfBuffer) && final(buffer)@
                        == old(buffer)@
                },
                Err(e) => r == Err::<usize, ProtocolError>(e) && final(buffer)@ == old(buffer)@,
            },
    {
        let bytes = self.to_bytes()?;
        buffer.write_all(bytes.as_slice())?;
        Ok(bytes.len())
    }

    /// Reads the payload of `len` bytes at the cursor as that of a record of
    /// the given name, type code and time to live.
    fn read_rdata(buffer: &mut PacketBuffer, domain: Vec<u8>, code: u16, ttl: u32, len: usize) -> (r:
        Result<DnsRecord, ProtocolError>)
        requires
            old(buffer)@.wf(),
            old(buffer)@.pos + len <= old(buffer)@.bytes.len(),
        ensures
            final(buffer)@.wf(),
            final(buffer)@.bytes == old(buffer)@.bytes,
            final(buffer)@.limit == old(buffer)@.limit,
            match parse_rdata(old(buffer)@.bytes, old(buffer)@.pos, len as int, domain@, code, ttl) {
                Ok(rec) => r is Ok && r->Ok_0@ == rec && final(buffer)@.pos == old(buffer)@.pos
                    + len,
                Err(e) => r is Err && r->Err_0 == e,
            },
    {
        reveal(parse_rdata);
        let data = buffer.pos();
        let ttl = TransientTtl(ttl);
        match QueryType::from_num(code) {
            QueryType::A => {
                if len != 4 {
                    return Err(ProtocolError::Malformed);
                }
                let addr = buffer.read_u32()?;
                Ok(DnsRecord::A { domain, addr, ttl })
            },
            QueryType::AAAA => {
                if len != 16 {
                    return Err(ProtocolError::Malformed);
                }
                let w0 = buffer.read_u32()?;
                let w1 = buffer.read_u32()?;
                let w2 = buffer.read_u32()?;
                let w3 = buffer.read_u32()?;
                let addr: u128 = ((w0 as u128 * 0x1_0000_0000 + w1 as u128) * 0x1_0000_0000
                    + w2 as u128) * 0x1_0000_0000 + w3 as u128;
                Ok(DnsRecord::AAAA { domain, addr, ttl })
            },
            QueryType::NS => {
                let host = buffer.read_qname()?;
                if buffer.pos() != data + len {
                    return Err(ProtocolError::Malformed);
                }
                Ok(DnsRecord::NS { domain, host, ttl })
            },
            QueryType::CNAME => {
                let host = buffer.read_qname()?;
                if buffer.pos() != data + len {
                    return Err(ProtocolError::Malformed);
                }
                Ok(DnsRecord::CNAME { domain, host, ttl })
            },
            QueryType::MX => {
                if len < 2 {
                    return Err(ProtocolError::Malformed);
                }
                let priority = buffer.read_u16()?;
                let host = buffer.read_qname()?;
                if buffer.pos() != data + len {
                    return Err(ProtocolError::Malformed);
                }
                Ok(DnsRecord::MX { domain, priority, host, ttl })
            },
            QueryType::SOA => {
                let m_name = buffer.read_qname()?;
                let r_name = buffer.read_qname()?;
                if data + len < 20 || buffer.pos() != data + len - 20 {
                    return Err(ProtocolError::Malformed);
                }
                let serial = buffer.read_u32()?;
                let refresh = buffer.read_u32()?;
                let retry = buffer.read_u32()?;
                let expire = buffer.read_u32()?;
                let minimum = buffer.read_u32()?;
                Ok(
                    DnsRecord::SOA {
                        domain,
                        m_name,
                        r_name,
                        serial,
                        refresh,
                        retry,
                        expire,
                        minimum,
                        ttl,
                    },
                )
            },
            QueryType::TXT => {
                let payload = buffer.get_range(data, len)?;
                buffer.seek(data + len)?;
                Ok(DnsRecord::TXT { domain, data: payload, ttl })
            },
            QueryType::UNKNOWN(qtype) => {
                let payload = buffer.get_range(data, len)?;
                buffer.seek(data + len)?;
                Ok(DnsRecord::UNKNOWN { domain, qtype, data: payload, ttl })
            },
        }
    }

    /// Reads the record at the cursor and steps over it. A type without a
    /// variant of its own is read as `UNKNOWN` with its payload; a payload
    /// that leaves the buffer fails with `EndOfBuffer`, one that its type
    /// does not fill exactly with `Malformed`.
    pub fn read(buffer: &mut PacketBuffer) -> (r: Result<DnsRecord, ProtocolError>)
        requires
            old(buffer)@.wf(),
        ensures
            final(buffer)@.wf(),
            match parse_record(old(buffer)@.bytes, old(buffer)@.pos) {
                Ok((rec, end)) => r is Ok && r->Ok_0@ == rec
                    && final(buffer)@ == old(buffer)@.moved_to(end),
                Err(e) => r is Err && r->Err_0 == e && final(buffer)@ == old(buffer)@,
            },
    {
        reveal(parse_record);
        let start = buffer.pos();
        let domain = buffer.read_qname()?;
        let code = match buffer.read_u16() {
            Ok(v) => v,
            Err(e) => {
                return fail(buffer, start, e);
            },
        };
        let _class = match buffer.read_u16() {
            Ok(v) => v,
            Err(e) => {
                return fail(buffer, start, e);
            },
        };
        let ttl = match buffer.read_u32() {
            Ok(v) => v,
            Err(e) => {
                return fail(buffer, start, e);
            },
        };
        let len = match buffer.read_u16() {
            Ok(v) => v as usize,
            Err(e) => {
                return fail(buffer, start, e);
            },
        };
        if len > buffer.len() - buffer.pos() {
            return fail(buffer, start, ProtocolError::EndOfBuffer);
        }
        match DnsRecord::read_rdata(buffer, domain, code, ttl, len) {
            Ok(rec) => Ok(rec),
            Err(e) => fail(buffer, start, e),
        }
    }
}

/// Five parts put together are the same bytes however they are grouped.
proof fn lemma_concat_parts(a: Seq<u8>, b: Seq<u8>, c: Seq<u8>, d: Seq<u8>, e: Seq<u8>)
    ensures
        a + (((b + c) + d) + e) == (((a + b) + c) + d) + e,
{
    assert(a + (((b + c) + d) + e) =~= (((a + b) + c) + d) + e);
}

/// What a reader of a section has behind it: the items read so far, in
/// front of what the rest of the section reads as.
pub open spec fn behind<T>(done: Seq<T>, rest: Result<(Seq<T>, int), ProtocolError>) -> Result<
    (Seq<T>, int),
    ProtocolError,
> {
    match rest {
        Ok((items, end)) => Ok((done + items, end)),
        Err(e) => Err(e),
    }
}

/// Reads `count` questions one behind the other. When it fails the cursor
/// stands where the failing question starts.
fn read_questions(buffer: &mut PacketBuffer, count: u16) -> (r: Result<
    Vec<DnsQuestion>,
    ProtocolError,
>)
    requires
        old(buffer)@.wf(),
    ensures
        final(buffer)@.wf(),
        final(buffer)@.bytes == old(buffer)@.bytes,
        final(buffer)@.limit == old(buffer)@.limit,
        match parse_questions(old(buffer)@.bytes, old(buffer)@.pos, count as nat) {
            Ok((questions, end)) => r is Ok && question_views(r->Ok_0@) == questions
                && final(buffer)@.pos == end,
            Err(e) => r is Err && r->Err_0 == e,
        },
{
    let mut questions: Vec<DnsQuestion> = Vec::new();
    let mut i: u16 = 0;
    let ghost bytes = buffer@.bytes;
    let ghost goal = parse_questions(bytes, buffer@.pos, count as nat);
    assert(question_views(questions@) =~= Seq::empty());
    assert(forall|items: Seq<QuestionView>|
        Seq::empty() + items =~= items);
    while i < count
        invariant
            i <= count,
            buffer@.wf(),
            buffer@.bytes == bytes,
            bytes == old(buffer)@.bytes,
            buffer@.limit == old(buffer)@.limit,
            goal == parse_questions(old(buffer)@.bytes, old(buffer)@.pos, count as nat),
            goal == behind(
                question_views(questions@),
                parse_questions(bytes, buffer@.pos, (count - i) as nat),
            ),
        decreases count - i,
    {
        let ghost done = question_views(questions@);
        let q = DnsQuestion::read(buffer)?;
        proof {
            assert forall|items: Seq<QuestionView>|
                done + (seq![q@] + items) == #[trigger] (done.push(q@) + items) by {
                assert(done + (seq![q@] + items) =~= done.push(q@) + items);
            }
        }
        questions.push(q);
        i = i + 1;
        assert(question_views(questions@) =~= done.push(q@));
    }
    proof {
        assert(question_views(questions@) + Seq::empty() =~= question_views(questions@));
    }
    Ok(questions)
}

/// Reads `count` records one behind the other. When it fails the cursor
/// stands where the failing record starts.
fn read_records(buffer: &mut PacketBuffer, count: u16) -> (r: Result<Vec<DnsRecord>, ProtocolError>)
    requires
        old(buffer)@.wf(),
    ensures
        final(buffer)@.wf(),
        final(buffer)@.bytes == old(buffer)@.bytes,
        final(buffer)@.limit == old(buffer)@.limit,
        match parse_records(old(buffer)@.bytes, old(buffer)@.pos, count as nat) {
            Ok((records, end)) => r is Ok && record_views(r->Ok_0@) == records
                && final(buffer)@.pos == end,
            Err(e) => r is Err && r->Err_0 == e,
        },
{
    let mut records: Vec<DnsRecord> = Vec::new();
    let mut i: u16 = 0;
    let ghost bytes = buffer@.bytes;
    let ghost goal = parse_records(bytes, buffer@.pos, count as nat);
    assert(record_views(records@) =~= Seq::empty());
    assert(forall|items: Seq<RecordView>| Seq::empty() + items =~= items);
    while i < count
        invariant
            i <= count,
            buffer@.wf(),
            buffer@.bytes == bytes,
            bytes == old(buffer)@.bytes,
            buffer@.limit == old(buffer)@.limit,
            goal == parse_records(old(buffer)@.bytes, old(buffer)@.pos, count as nat),
            goal == behind(
                record_views(records@),
                parse_records(bytes, buffer@.pos, (count - i) as nat),
            ),
        decreases count - i,
    {
        let ghost done = record_views(records@);
        let rec = DnsRecord::read(buffer)?;
        proof {
            assert forall|items: Seq<RecordView>|
                done + (seq![rec@] + items) == #[trigger] (done.push(rec@) + items) by {
                assert(done + (seq![rec@] + items) =~= done.push(rec@) + items);
            }
        }
        records.push(rec);
        i = i + 1;
        assert(record_views(records@) =~= done.push(rec@));
    }
    proof {
        assert(record_views(records@) + Seq::empty() =~= record_views(records@));
    }
    Ok(records)
}

/// The bytes of the questions, one behind the other. It fails, with
/// `LabelTooLong`, exactly when a label of one of their names has more than
/// 63 bytes.
fn questions_bytes(questions: &Vec<DnsQuestion>) -> (r: Result<Vec<u8>, ProtocolError>)
    ensures
        match r {
            Ok(bytes) => questions_fit(question_views(questions@)) && bytes@ == questions_wire(
                question_views(questions@),
                questions@.len() as int,
            ),
            Err(e) => !questions_fit(question_views(questions@)) && e
                == ProtocolError::LabelTooLong,
        },
{
    let ghost views = question_views(questions@);
    let mut body: Vec<u8> = Vec::new();
    let mut i: usize = 0;
    while i < questions.len()
        invariant
            i <= questions@.len(),
            views == question_views(questions@),
            body@ == questions_wire(views, i as int),
            forall|j: int| 0 <= j < i ==> labels_fit(#[trigger] views[j].name),
        decreases questions@.len() - i,
    {
        let bytes = match questions[i].to_bytes() {
            Ok(bytes) => bytes,
            Err(e) => {
                assert(!labels_fit(views[i as int].name));
                return Err(e);
            },
        };
        append_range(&mut body, bytes.as_slice(), 0, bytes.len());
        assert(bytes@.subrange(0, bytes@.len() as int) =~= bytes@);
        i = i + 1;
    }
    Ok(body)
}

/// Appends to `body` the leading records of a section, as many as can be
/// written and keep the message, header included, within `budget` bytes. It
/// returns how many those are.
fn append_records(records: &Vec<DnsRecord>, body: &mut Vec<u8>, budget: usize) -> (n: usize)
    requires
        HEADER_LEN + old(body)@.len() <= usize::MAX,
    ensures
        n <= records@.len(),
        n == fit_count(record_views(records@), 0, HEADER_LEN + old(body)@.len(), budget as int),
        final(body)@ == old(body)@ + records_wire(record_views(records@), n as int),
        n > 0 ==> HEADER_LEN + final(body)@.len() <= budget,
        n == 0 ==> final(body)@ == old(body)@,
{
    let ghost views = record_views(records@);
    let ghost base = HEADER_LEN + body@.len();
    let mut used: usize = HEADER_LEN + body.len();
    let mut n: usize = 0;
    assert(body@ + records_wire(views, 0) =~= body@);
    while n < records.len()
        invariant
            n <= records@.len(),
            views == record_views(records@),
            base == HEADER_LEN + old(body)@.len(),
            used == HEADER_LEN + body@.len(),
            n > 0 ==> used <= budget,
            n == 0 ==> body@ == old(body)@,
            body@ == old(body)@ + records_wire(views, n as int),
            fit_count(views, 0, base, budget as int) == fit_count(
                views,
                n as int,
                used as int,
                budget as int,
            ),
        decreases records@.len() - n,
    {
        reveal(record_encoding);
        assert(views[n as int] == records@[n as int]@);
        let bytes = match records[n].to_bytes() {
            Ok(bytes) => bytes,
            Err(_) => {
                return n;
            },
        };
        assert(record_encoding(views[n as int]) == Ok::<Seq<u8>, ProtocolError>(bytes@));
        assert(bytes@ == record_wire(views[n as int]));
        if used > budget || bytes.len() > budget - used {
            return n;
        }
        append_range(body, bytes.as_slice(), 0, bytes.len());
        used = used + bytes.len();
        n = n + 1;
        proof {
            assert(bytes@.subrange(0, bytes@.len() as int) =~= bytes@);
            assert(records_wire(views, n as int) == records_wire(views, n - 1) + bytes@);
            assert(body@ =~= old(body)@ + records_wire(views, n as int));
        }
    }
    n
}

impl DnsPacket {
    /// The view of a message with a fresh header and empty sections.
    pub open spec fn fresh() -> PacketView {
        PacketView {
            header: DnsHeader::fresh(),
            questions: Seq::empty(),
            answers: Seq::empty(),
            authorities: Seq::empty(),
            resources: Seq::empty(),
        }
    }

    /// A message with a fresh header and empty sections.
    pub fn new() -> (p: DnsPacket)
        ensures
            p@ == DnsPacket::fresh(),
    {
        let p = DnsPacket {
            header: DnsHeader::new(),
            questions: Vec::new(),
            answers: Vec::new(),
            authorities: Vec::new(),
            resources: Vec::new(),
        };
        assert(p@.questions =~= Seq::empty());
        assert(p@.answers =~= Seq::empty());
        assert(p@.authorities =~= Seq::empty());
        assert(p@.resources =~= Seq::empty());
        p
    }

    /// Reads the message at the cursor and steps over it: the header, then as
    /// many questions, answers, authorities and additional records as the
    /// header counts. The first error ends the reading, and the buffer is
    /// then as it was.
    pub fn from_buffer(buffer: &mut PacketBuffer) -> (r: Result<DnsPacket, ProtocolError>)
        requires
            old(buffer)@.wf(),
        ensures
            final(buffer)@.wf(),
            match parse_packet(old(buffer)@.bytes, old(buffer)@.pos) {
                Ok((packet, end)) => r is Ok && r->Ok_0@ == packet
                    && final(buffer)@ == old(buffer)@.moved_to(end),
                Err(e) => r is Err && r->Err_0 == e && final(buffer)@ == old(buffer)@,
            },
    {
        let start = buffer.pos();
        let (header, counts) = DnsHeader::read(buffer)?;
        let questions = match read_questions(buffer, counts.questions) {
            Ok(v) => v,
            Err(e) => {
                return fail(buffer, start, e);
            },
        };
        let answers = match read_records(buffer, counts.answers) {
            Ok(v) => v,
            Err(e) => {
                return fail(buffer, start, e);
            },
        };
        let authorities = match read_records(buffer, counts.authoritative_entries) {
            Ok(v) => v,
            Err(e) => {
                return fail(buffer, start, e);
            },
        };
        let resources = match read_records(buffer, counts.resource_entries) {
            Ok(v) => v,
            Err(e) => {
                return fail(buffer, start, e);
            },
        };
        Ok(DnsPacket { header, questions, answers, authorities, resources })
    }

    /// Appends to `body`, which holds the questions, the records of the three
    /// sections that are written within `budget` bytes, and returns how many
    /// of each section those are.
    fn append_sections(&self, body: &mut Vec<u8>, budget: usize) -> (n: (usize, usize, usize))
        requires
            old(body)@ == questions_wire(self@.questions, self@.questions.len() as int),
            HEADER_LEN + old(body)@.len() <= usize::MAX,
        ensures
            written_records(self@, budget as int) == (Written {
                answers: n.0 as int,
                authorities: n.1 as int,
                resources: n.2 as int,
            }),
            n.0 <= self.answers@.len(),
            n.1 <= self.authorities@.len(),
            n.2 <= self.resources@.len(),
            final(body)@.len() == old(body)@.len() || HEADER_LEN + final(body)@.len() <= budget,
            final(body)@ == old(body)@ + records_wire(self@.answers, n.0 as int) + records_wire(
                self@.authorities,
                n.1 as int,
            ) + records_wire(self@.resources, n.2 as int),
    {
        let ghost view = self@;
        let answers = append_records(&self.answers, body, budget);
        let ghost body1 = body@;
        let authorities = if answers == self.answers.len() {
            append_records(&self.authorities, body, budget)
        } else {
            0
        };
        let ghost body2 = body@;
        let resources = if answers == self.answers.len() && authorities == self.authorities.len() {
            append_records(&self.resources, body, budget)
        } else {
            0
        };
        proof {
            assert(records_wire(view.authorities, 0) =~= Seq::empty());
            assert(body2 =~= body1 + records_wire(view.authorities, authorities as int));
            assert(records_wire(view.resources, 0) =~= Seq::empty());
            assert(body@ =~= body2 + records_wire(view.resources, resources as int));
        }
        (answers, authorities, resources)
    }

    /// The bytes of the message as it is written into `room` bytes with a
    /// message size of at most `max_size`, and the number of records among
    /// them. The header and the questions are always written; records are
    /// written in the order of their sections as long as each can be written
    /// and the message stays within both sizes. Behind the first record left
    /// out nothing is written, the header's counts are those of the records
    /// written, and its truncation flag is set.
    pub fn to_bytes(&self, max_size: usize, room: usize) -> (r: Result<
        (Vec<u8>, usize),
        ProtocolError,
    >)
        ensures
            match packet_encoding(self@, max_size as int, room as int) {
                Ok(bytes) => r is Ok && (r->Ok_0).0@ == bytes && bytes.len() <= room && ({
                    let w = written_records(self@, message_budget(max_size as int, room as int));
                    (r->Ok_0).1 == w.answers + w.authorities + w.resources
                }),
                Err(e) => r is Err && r->Err_0 == e,
            },
    {
        if self.header.opcode >= 16 || self.questions.len() > MAX_COUNT || self.answers.len()
            > MAX_COUNT || self.authorities.len() > MAX_COUNT || self.resources.len() > MAX_COUNT {
            return Err(ProtocolError::Overflow);
        }
        let ghost view = self@;
        let mut body = questions_bytes(&self.questions)?;
        if room < HEADER_LEN || body.len() > room - HEADER_LEN {
            return Err(ProtocolError::EndOfBuffer);
        }
        let budget = if max_size < room {
            max_size
        } else {
            room
        };
        let ghost questions = body@;
        let ghost w = written_records(view, budget as int);
        let (answers, authorities, resources) = self.append_sections(&mut body, budget);
        let written = answers + authorities + resources;
        let cut = written < self.answers.len() + self.authorities.len() + self.resources.len();
        let header = DnsHeader {
            truncated_message: self.header.truncated_message || cut,
            ..self.header
        };
        let counts = SectionCounts {
            questions: self.questions.len() as u16,
            answers: answers as u16,
            authoritative_entries: authorities as u16,
            resource_entries: resources as u16,
        };
        let mut out = header.to_bytes(counts)?;
        proof {
            assert(header == written_header(view, w));
            assert(counts == written_counts(view, w));
            assert(body@ == questions + records_wire(view.answers, w.answers) + records_wire(
                view.authorities,
                w.authorities,
            ) + records_wire(view.resources, w.resources));
            lemma_concat_parts(
                out@,
                questions,
                records_wire(view.answers, w.answers),
                records_wire(view.authorities, w.authorities),
                records_wire(view.resources, w.resources),
            );
        }
        append_range(&mut out, body.as_slice(), 0, body.len());
        assert(body@.subrange(0, body@.len() as int) =~= body@);
        Ok((out, written))
    }

    /// Writes the message at the cursor and steps over it, or writes nothing:
    /// the bytes that `to_bytes` gives for the room left in the buffer. It
    /// returns the number of records written.
    pub fn write(&self, buffer: &mut PacketBuffer, max_size: usize) -> (r: Result<
        usize,
        ProtocolError,
    >)
        requires
            old(buffer)@.wf(),
        ensures
            final(buffer)@.wf(),
            match packet_encoding(
                self@,
                max_size as int,
                old(buffer)@.limit - old(buffer)@.pos,
            ) {
                Ok(bytes) => r is Ok && final(buffer)@ == old(buffer)@.written(bytes) && ({
                    let w = written_records(
                        self@,
                        message_budget(max_size as int, old(buffer)@.limit - old(buffer)@.pos),
                    );
                    r->Ok_0 == w.answers + w.authorities + w.resources
                }),
                Err(e) => r is Err && r->Err_0 == e && final(buffer)@ == old(buffer)@,
            },
    {
        let room = buffer.limit() - buffer.pos();
        let (bytes, written) = self.to_bytes(max_size, room)?;
        buffer.write_all(bytes.as_slice())?;
        Ok(written)
    }
}

} // verus!
