//! The wire format of a message, stated in both directions: the bytes that a
//! model value is written as, and the model value that bytes are read as.

use crate::dns::buffer::{u16_at, u32_at};
use crate::dns::bytes::{be128, wire128, wire16, wire32};
use crate::dns::error::ProtocolError;
use crate::dns::name::{labels_fit, name_wire, parse_name, MAX_JUMPS};
use crate::dns::protocol::{
    DnsHeader, PacketView, QueryType, QuestionView, RecordView, ResultCode, SectionCounts,
};
use vstd::prelude::*;

verus! {

/// The class of the Internet, the only one written.
pub const CLASS_IN: u16 = 1;

/// The length of a header on the wire.
pub const HEADER_LEN: usize = 12;

/// The largest value of a 16-bit count or length.
pub const MAX_COUNT: usize = 65535;

/// A flag's share of the byte it is packed into.
pub open spec fn bit(flag: bool, weight: int) -> int {
    if flag {
        weight
    } else {
        0
    }
}

/// Whether the bit of weight `weight` is set in `byte`.
pub open spec fn bit_of(byte: u8, weight: int) -> bool {
    (byte as int / weight) % 2 == 1
}

/// The first byte of a header's flags: response, opcode, authoritative,
/// truncated, recursion desired.
pub open spec fn flags_hi(h: DnsHeader) -> int {
    bit(h.response, 128) + h.opcode * 8 + bit(h.authoritative_answer, 4) + bit(
        h.truncated_message,
        2,
    ) + bit(h.recursion_desired, 1)
}

/// The second byte of a header's flags: recursion available, the reserved
/// bit, authentic data, checking disabled, the result code.
pub open spec fn flags_lo(h: DnsHeader) -> int {
    bit(h.recursion_available, 128) + bit(h.z, 64) + bit(h.authed_data, 32) + bit(
        h.checking_disabled,
        16,
    ) + h.rescode.code()
}

/// The header can be written: its opcode fits in four bits.
pub open spec fn header_fits(h: DnsHeader) -> bool {
    h.opcode < 16
}

/// The twelve bytes of a header with its section counts.
#[verifier::opaque]
pub open spec fn header_wire(h: DnsHeader, c: SectionCounts) -> Seq<u8> {
    wire16(h.id) + seq![flags_hi(h) as u8, flags_lo(h) as u8] + wire16(c.questions) + wire16(
        c.answers,
    ) + wire16(c.authoritative_entries) + wire16(c.resource_entries)
}

/// The header and section counts that stand at `pos` in `buf`.
#[verifier::opaque]
pub open spec fn parse_header(buf: Seq<u8>, pos: int) -> Result<
    (DnsHeader, SectionCounts),
    ProtocolError,
> {
    if pos < 0 || pos + HEADER_LEN > buf.len() {
        Err(ProtocolError::EndOfBuffer)
    } else {
        let hi = buf[pos + 2];
        let lo = buf[pos + 3];
        match ResultCode::of_code(lo % 16) {
            None => Err(ProtocolError::Malformed),
            Some(rescode) => Ok(
                (
                    DnsHeader {
                        id: u16_at(buf, pos),
                        recursion_desired: bit_of(hi, 1),
                        truncated_message: bit_of(hi, 2),
                        authoritative_answer: bit_of(hi, 4),
                        opcode: (hi / 8) % 16,
                        response: bit_of(hi, 128),
                        rescode,
                        checking_disabled: bit_of(lo, 16),
                        authed_data: bit_of(lo, 32),
                        z: bit_of(lo, 64),
                        recursion_available: bit_of(lo, 128),
                    },
                    SectionCounts {
                        questions: u16_at(buf, pos + 4),
                        answers: u16_at(buf, pos + 6),
                        authoritative_entries: u16_at(buf, pos + 8),
                        resource_entries: u16_at(buf, pos + 10),
                    },
                ),
            ),
        }
    }
}

/// The bytes of a question: its name, its type, the class.
#[verifier::opaque]
pub open spec fn question_wire(q: QuestionView) -> Seq<u8> {
    name_wire(q.name) + wire16(q.qtype.code()) + wire16(CLASS_IN)
}

/// The question that stands at `pos` in `buf`, and the offset behind it. The
/// class is read and not kept.
#[verifier::opaque]
pub open spec fn parse_question(buf: Seq<u8>, pos: int) -> Result<
    (QuestionView, int),
    ProtocolError,
> {
    match parse_name(buf, pos, MAX_JUMPS as nat) {
        Err(e) => Err(e),
        Ok((name, at)) => if at + 4 > buf.len() {
            Err(ProtocolError::EndOfBuffer)
        } else {
            Ok((QuestionView { name, qtype: QueryType::of_code(u16_at(buf, at)) }, at + 4))
        },
    }
}

/// The 128-bit value that stands at `at` in `bytes`.
pub open spec fn u128_at(bytes: Seq<u8>, at: int) -> u128 {
    be128(u32_at(bytes, at), u32_at(bytes, at + 4), u32_at(bytes, at + 8), u32_at(bytes, at + 12))
}

/// The payload of a record as its type lays it out.
#[verifier::opaque]
pub open spec fn rdata_wire(r: RecordView) -> Seq<u8> {
    match r {
        RecordView::UNKNOWN { data, .. } => data,
        RecordView::A { addr, .. } => wire32(addr),
        RecordView::NS { host, .. } => name_wire(host),
        RecordView::CNAME { host, .. } => name_wire(host),
        RecordView::SOA { m_name, r_name, serial, refresh, retry, expire, minimum, .. } => {
            name_wire(m_name) + name_wire(r_name) + wire32(serial) + wire32(refresh) + wire32(retry)
                + wire32(expire) + wire32(minimum)
        },
        RecordView::MX { priority, host, .. } => wire16(priority) + name_wire(host),
        RecordView::TXT { data, .. } => data,
        RecordView::AAAA { addr, .. } => wire128(addr),
    }
}

/// Every label of every name in the record can be written.
#[verifier::opaque]
pub open spec fn names_fit(r: RecordView) -> bool {
    labels_fit(r.domain()) && match r {
        RecordView::NS { host, .. } => labels_fit(host),
        RecordView::CNAME { host, .. } => labels_fit(host),
        RecordView::SOA { m_name, r_name, .. } => labels_fit(m_name) && labels_fit(r_name),
        RecordView::MX { host, .. } => labels_fit(host),
        _ => true,
    }
}

/// The bytes of a record: its name, type, class and time to live, the length
/// of its payload, and the payload.
#[verifier::opaque]
pub open spec fn record_wire(r: RecordView) -> Seq<u8> {
    name_wire(r.domain()) + wire16(r.qtype().code()) + wire16(CLASS_IN) + wire32(r.ttl()) + wire16(
        rdata_wire(r).len() as u16,
    ) + rdata_wire(r)
}

/// The bytes a record is written as, or why it cannot be written: a label is
/// too long, or the payload does not fit the 16 bits of its length.
#[verifier::opaque]
pub open spec fn record_encoding(r: RecordView) -> Result<Seq<u8>, ProtocolError> {
    if !names_fit(r) {
        Err(ProtocolError::LabelTooLong)
    } else if rdata_wire(r).len() > MAX_COUNT {
        Err(ProtocolError::Overflow)
    } else {
        Ok(record_wire(r))
    }
}

/// The record whose payload of `len` bytes stands at `data` in `buf`, for a
/// record of the given name, type code and time to live. A payload that its
/// type does not fill exactly is malformed.
#[verifier::opaque]
pub open spec fn parse_rdata(
    buf: Seq<u8>,
    data: int,
    len: int,
    domain: Seq<u8>,
    code: u16,
    ttl: u32,
) -> Result<RecordView, ProtocolError> {
    match QueryType::of_code(code) {
        QueryType::A => if len != 4 {
            Err(ProtocolError::Malformed)
        } else {
            Ok(RecordView::A { domain, addr: u32_at(buf, data), ttl })
        },
        QueryType::AAAA => if len != 16 {
            Err(ProtocolError::Malformed)
        } else {
            Ok(RecordView::AAAA { domain, addr: u128_at(buf, data), ttl })
        },
        QueryType::NS => match parse_name(buf, data, MAX_JUMPS as nat) {
            Err(e) => Err(e),
            Ok((host, end)) => if end != data + len {
                Err(ProtocolError::Malformed)
            } else {
                Ok(RecordView::NS { domain, host, ttl })
            },
        },
        QueryType::CNAME => match parse_name(buf, data, MAX_JUMPS as nat) {
            Err(e) => Err(e),
            Ok((host, end)) => if end != data + len {
                Err(ProtocolError::Malformed)
            } else {
                Ok(RecordView::CNAME { domain, host, ttl })
            },
        },
        QueryType::MX => if len < 2 {
            Err(ProtocolError::Malformed)
        } else {
            match parse_name(buf, data + 2, MAX_JUMPS as nat) {
                Err(e) => Err(e),
                Ok((host, end)) => if end != data + len {
                    Err(ProtocolError::Malformed)
                } else {
                    Ok(RecordView::MX { domain, priority: u16_at(buf, data), host, ttl })
                },
            }
        },
        QueryType::SOA => match parse_name(buf, data, MAX_JUMPS as nat) {
            Err(e) => Err(e),
            Ok((m_name, at)) => match parse_name(buf, at, MAX_JUMPS as nat) {
                Err(e) => Err(e),
                Ok((r_name, end)) => if end + 20 != data + len {
                    Err(ProtocolError::Malformed)
                } else {
                    Ok(
                        RecordView::SOA {
                            domain,
                            m_name,
                            r_name,
                            serial: u32_at(buf, end),
                            refresh: u32_at(buf, end + 4),
                            retry: u32_at(buf, end + 8),
                            expire: u32_at(buf, end + 12),
                            minimum: u32_at(buf, end + 16),
                            ttl,
                        },
                    )
                },
            },
        },
        QueryType::TXT => Ok(RecordView::TXT { domain, data: buf.subrange(data, data + len), ttl }),
        QueryType::UNKNOWN(qtype) => Ok(
            RecordView::UNKNOWN { domain, qtype, data: buf.subrange(data, data + len), ttl },
        ),
    }
}

/// The record that stands at `pos` in `buf`, and the offset behind it. A
/// payload whose declared length leaves the buffer is out of bounds.
#[verifier::opaque]
pub open spec fn parse_record(buf: Seq<u8>, pos: int) -> Result<(RecordView, int), ProtocolError> {
    match parse_name(buf, pos, MAX_JUMPS as nat) {
        Err(e) => Err(e),
        Ok((domain, at)) => if at + 10 > buf.len() {
            Err(ProtocolError::EndOfBuffer)
        } else {
            let len = u16_at(buf, at + 8) as int;
            if at + 10 + len > buf.len() {
                Err(ProtocolError::EndOfBuffer)
            } else {
                match parse_rdata(buf, at + 10, len, domain, u16_at(buf, at), u32_at(buf, at + 4)) {
                    Err(e) => Err(e),
                    Ok(r) => Ok((r, at + 10 + len)),
                }
            }
        },
    }
}

/// The `count` questions that stand one behind the other from `pos` on, and
/// the offset behind the last.
pub open spec fn parse_questions(buf: Seq<u8>, pos: int, count: nat) -> Result<
    (Seq<QuestionView>, int),
    ProtocolError,
>
    decreases count,
{
    if count == 0 {
        Ok((Seq::empty(), pos))
    } else {
        match parse_question(buf, pos) {
            Err(e) => Err(e),
            Ok((q, next)) => match parse_questions(buf, next, (count - 1) as nat) {
                Err(e) => Err(e),
                Ok((rest, end)) => Ok((seq![q] + rest, end)),
            },
        }
    }
}

/// The `count` records that stand one behind the other from `pos` on, and the
/// offset behind the last.
pub open spec fn parse_records(buf: Seq<u8>, pos: int, count: nat) -> Result<
    (Seq<RecordView>, int),
    ProtocolError,
>
    decreases count,
{
    if count == 0 {
        Ok((Seq::empty(), pos))
    } else {
        match parse_record(buf, pos) {
            Err(e) => Err(e),
            Ok((r, next)) => match parse_records(buf, next, (count - 1) as nat) {
                Err(e) => Err(e),
                Ok((rest, end)) => Ok((seq![r] + rest, end)),
            },
        }
    }
}

/// The message that stands at `pos` in `buf`, and the offset behind it: the
/// header, then as many questions, answers, authorities and additional
/// records as the header counts, in that order.
pub open spec fn parse_packet(buf: Seq<u8>, pos: int) -> Result<(PacketView, int), ProtocolError> {
    match parse_header(buf, pos) {
        Err(e) => Err(e),
        Ok((header, counts)) => match parse_questions(
            buf,
            pos + HEADER_LEN,
            counts.questions as nat,
        ) {
            Err(e) => Err(e),
            Ok((questions, step1)) => match parse_records(buf, step1, counts.answers as nat) {
                Err(e) => Err(e),
                Ok((answers, step2)) => match parse_records(
                    buf,
                    step2,
                    counts.authoritative_entries as nat,
                ) {
                    Err(e) => Err(e),
                    Ok((authorities, step3)) => match parse_records(
                        buf,
                        step3,
                        counts.resource_entries as nat,
                    ) {
                        Err(e) => Err(e),
                        Ok((resources, end)) => Ok(
                            (PacketView { header, questions, answers, authorities, resources }, end),
                        ),
                    },
                },
            },
        },
    }
}

/// Every question's name can be written.
pub open spec fn questions_fit(questions: Seq<QuestionView>) -> bool {
    forall|i: int| 0 <= i < questions.len() ==> labels_fit(#[trigger] questions[i].name)
}

/// The bytes of the first `n` questions, one behind the other.
pub open spec fn questions_wire(questions: Seq<QuestionView>, n: int) -> Seq<u8>
    decreases n,
{
    if n <= 0 {
        Seq::empty()
    } else {
        questions_wire(questions, n - 1) + question_wire(questions[n - 1])
    }
}

/// The bytes of the first `n` records, one behind the other.
pub open spec fn records_wire(records: Seq<RecordView>, n: int) -> Seq<u8>
    decreases n,
{
    if n <= 0 {
        Seq::empty()
    } else {
        records_wire(records, n - 1) + record_wire(records[n - 1])
    }
}

/// How many records of a section are written when those before `from` took
/// the message to `used` bytes: writing stops at the first record that cannot
/// be written or that would take the message beyond `budget` bytes.
pub open spec fn fit_count(records: Seq<RecordView>, from: int, used: int, budget: int) -> int
    decreases records.len() - from,
{
    if from < 0 || from >= records.len() {
        from
    } else {
        match record_encoding(records[from]) {
            Ok(w) => if used + w.len() <= budget {
                fit_count(records, from + 1, used + w.len(), budget)
            } else {
                from
            },
            Err(_) => from,
        }
    }
}

/// How many records of each section are written.
pub struct Written {
    pub answers: int,
    pub authorities: int,
    pub resources: int,
}

/// How many records of each section of `p` are written into a message that
/// may take `budget` bytes: the sections are written in their order, and
/// nothing is written behind the first record that is left out.
pub open spec fn written_records(p: PacketView, budget: int) -> Written {
    let base = HEADER_LEN + questions_wire(p.questions, p.questions.len() as int).len();
    let answers = fit_count(p.answers, 0, base, budget);
    let used1 = base + records_wire(p.answers, answers).len();
    let authorities = if answers == p.answers.len() {
        fit_count(p.authorities, 0, used1, budget)
    } else {
        0
    };
    let used2 = used1 + records_wire(p.authorities, authorities).len();
    let resources = if answers == p.answers.len() && authorities == p.authorities.len() {
        fit_count(p.resources, 0, used2, budget)
    } else {
        0
    };
    Written { answers, authorities, resources }
}

/// Whether records of `p` are left out.
pub open spec fn is_truncated(p: PacketView, w: Written) -> bool {
    w.answers + w.authorities + w.resources < p.answers.len() + p.authorities.len()
        + p.resources.len()
}

/// The message that is written for `p` when only the counted records fit: the
/// leading records of each section, and the truncation flag set when any is
/// left out.
pub open spec fn truncated(p: PacketView, w: Written) -> PacketView {
    PacketView {
        header: written_header(p, w),
        questions: p.questions,
        answers: p.answers.take(w.answers),
        authorities: p.authorities.take(w.authorities),
        resources: p.resources.take(w.resources),
    }
}

/// The header that is written for `p` when the counted records are: that of
/// `p`, with the truncation flag set when a record is left out.
pub open spec fn written_header(p: PacketView, w: Written) -> DnsHeader {
    DnsHeader { truncated_message: p.header.truncated_message || is_truncated(p, w), ..p.header }
}

/// The section counts that are written for `p` when the counted records are.
pub open spec fn written_counts(p: PacketView, w: Written) -> SectionCounts {
    SectionCounts {
        questions: p.questions.len() as u16,
        answers: w.answers as u16,
        authoritative_entries: w.authorities as u16,
        resource_entries: w.resources as u16,
    }
}

/// The bytes of `p` with the counted records of each section: the header,
/// the questions, and those records.
pub open spec fn packet_bytes(p: PacketView, w: Written) -> Seq<u8> {
    header_wire(written_header(p, w), written_counts(p, w)) + questions_wire(
        p.questions,
        p.questions.len() as int,
    ) + records_wire(p.answers, w.answers) + records_wire(p.authorities, w.authorities)
        + records_wire(p.resources, w.resources)
}

/// The size a message may take that is written into `room` bytes of buffer
/// and may not be longer than `max_size`.
pub open spec fn message_budget(max_size: int, room: int) -> int {
    if max_size < room {
        max_size
    } else {
        room
    }
}

/// The bytes that `p` is written as into `room` bytes of buffer with a
/// message size of at most `max_size`, or why it cannot be written. The
/// header and the questions are written whatever `max_size` is; records are
/// written as long as they can be and fit both, and the header tells what was
/// written.
pub open spec fn packet_encoding(p: PacketView, max_size: int, room: int) -> Result<
    Seq<u8>,
    ProtocolError,
> {
    if !header_fits(p.header) || p.questions.len() > MAX_COUNT || p.answers.len() > MAX_COUNT
        || p.authorities.len() > MAX_COUNT || p.resources.len() > MAX_COUNT {
        Err(ProtocolError::Overflow)
    } else if !questions_fit(p.questions) {
        Err(ProtocolError::LabelTooLong)
    } else if HEADER_LEN + questions_wire(p.questions, p.questions.len() as int).len() > room {
        Err(ProtocolError::EndOfBuffer)
    } else {
        Ok(packet_bytes(p, written_records(p, message_budget(max_size, room))))
    }
}

} // verus!
