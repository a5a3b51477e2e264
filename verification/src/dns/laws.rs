//! What holds of the wire format as a whole: that reading gives back what was
//! written, that a compressed name reads as the name it points to, and that
//! reading stays within the bytes and ends.

use crate::dns::buffer::{u16_at, u32_at};
use crate::dns::bytes::{
    lemma_wire16_value, lemma_wire32_value, lemma_words128_value, wire128, wire16, wire32,
    words128,
};
use crate::dns::error::ProtocolError;
use crate::dns::name::{
    join, label_len, labels_fit, lemma_label_len, lemma_label_len_bounds, name_wire, parse_name,
    pointer_target, valid_name, DOT, MAX_JUMPS, MAX_LABEL, POINTER_TAG,
};
use crate::dns::protocol::{
    DnsHeader, PacketView, QuestionView, RecordView, ResultCode, SectionCounts,
};
use crate::dns::wire::{
    bit, bit_of, fit_count, flags_hi, flags_lo, header_fits, header_wire, is_truncated,
    message_budget, names_fit, packet_bytes, packet_encoding, parse_header, parse_packet,
    parse_question, parse_questions, parse_rdata, parse_record, parse_records, question_wire,
    questions_fit, questions_wire, rdata_wire, record_encoding, record_wire, records_wire,
    truncated, u128_at, written_counts, written_header, written_records, Written, CLASS_IN,
    HEADER_LEN, MAX_COUNT,
};
use vstd::prelude::*;

verus! {

/// The bytes of `data` stand in `buf` from `pos` on.
pub open spec fn holds_at(buf: Seq<u8>, pos: int, data: Seq<u8>) -> bool {
    0 <= pos && pos + data.len() <= buf.len() && buf.subrange(pos, pos + data.len()) == data
}

/// Where two parts stand one behind the other, each stands at its place, and
/// the other way round.
pub proof fn lemma_holds_parts(buf: Seq<u8>, pos: int, a: Seq<u8>, b: Seq<u8>)
    ensures
        holds_at(buf, pos, a + b) <==> holds_at(buf, pos, a) && holds_at(buf, pos + a.len(), b),
{
    if holds_at(buf, pos, a + b) {
        assert(buf.subrange(pos, pos + a.len()) =~= (a + b).subrange(0, a.len() as int));
        assert((a + b).subrange(0, a.len() as int) =~= a);
        assert(buf.subrange(pos + a.len(), pos + a.len() + b.len()) =~= (a + b).subrange(
            a.len() as int,
            (a + b).len() as int,
        ));
        assert((a + b).subrange(a.len() as int, (a + b).len() as int) =~= b);
    }
    if holds_at(buf, pos, a) && holds_at(buf, pos + a.len(), b) {
        assert(buf.subrange(pos, pos + (a + b).len()) =~= buf.subrange(pos, pos + a.len())
            + buf.subrange(pos + a.len(), pos + a.len() + b.len()));
    }
}

/// The bytes that stand at a place are the bytes of the buffer there.
pub proof fn lemma_holds_index(buf: Seq<u8>, pos: int, data: Seq<u8>, i: int)
    requires
        holds_at(buf, pos, data),
        0 <= i < data.len(),
    ensures
        buf[pos + i] == data[i],
{
    assert(buf.subrange(pos, pos + data.len())[i] == buf[pos + i]);
}

/// A 16-bit value that was written is the value read.
pub proof fn lemma_u16_written(buf: Seq<u8>, pos: int, v: u16)
    requires
        holds_at(buf, pos, wire16(v)),
    ensures
        u16_at(buf, pos) == v,
{
    lemma_wire16_value(v);
    lemma_holds_index(buf, pos, wire16(v), 0);
    lemma_holds_index(buf, pos, wire16(v), 1);
}

/// A 32-bit value that was written is the value read.
pub proof fn lemma_u32_written(buf: Seq<u8>, pos: int, v: u32)
    requires
        holds_at(buf, pos, wire32(v)),
    ensures
        u32_at(buf, pos) == v,
{
    lemma_wire32_value(v);
    lemma_holds_index(buf, pos, wire32(v), 0);
    lemma_holds_index(buf, pos, wire32(v), 1);
    lemma_holds_index(buf, pos, wire32(v), 2);
    lemma_holds_index(buf, pos, wire32(v), 3);
}

/// A 128-bit value that was written is the value read.
pub proof fn lemma_u128_written(buf: Seq<u8>, pos: int, v: u128)
    requires
        holds_at(buf, pos, wire128(v)),
    ensures
        u128_at(buf, pos) == v,
{
    let w = words128(v);
    lemma_words128_value(v);
    lemma_wire32_value(w.0);
    lemma_wire32_value(w.1);
    lemma_wire32_value(w.2);
    lemma_wire32_value(w.3);
    lemma_holds_parts(buf, pos, wire32(w.0) + wire32(w.1) + wire32(w.2), wire32(w.3));
    lemma_holds_parts(buf, pos, wire32(w.0) + wire32(w.1), wire32(w.2));
    lemma_holds_parts(buf, pos, wire32(w.0), wire32(w.1));
    lemma_u32_written(buf, pos, w.0);
    lemma_u32_written(buf, pos + 4, w.1);
    lemma_u32_written(buf, pos + 8, w.2);
    lemma_u32_written(buf, pos + 12, w.3);
}

/// A valid name that was written out is the name read, whatever number of
/// pointers the reader may follow, and the reader ends behind it.
pub proof fn lemma_name_written(buf: Seq<u8>, pos: int, name: Seq<u8>, jumps: nat)
    requires
        valid_name(name),
        holds_at(buf, pos, name_wire(name)),
    ensures
        parse_name(buf, pos, jumps) == Ok::<(Seq<u8>, int), ProtocolError>(
            (name, pos + name_wire(name).len()),
        ),
    decreases name.len(),
{
    let wire = name_wire(name);
    lemma_holds_index(buf, pos, wire, 0);
    if name.len() == 0 {
        assert(name =~= Seq::empty());
    } else {
        lemma_label_len_bounds(name);
        let n = label_len(name) as int;
        let label = name.take(n);
        let tail = if n < name.len() {
            name_wire(name.skip(n + 1))
        } else {
            seq![0u8]
        };
        assert(wire == seq![n as u8] + label + tail);
        assert(wire[0] == n as u8);
        assert(buf[pos] == n);
        assert(wire.len() == 1 + n + tail.len());
        lemma_holds_parts(buf, pos, seq![n as u8] + label, tail);
        lemma_holds_parts(buf, pos, seq![n as u8], label);
        assert(buf.subrange(pos + 1, pos + 1 + n) == label);
        assert(holds_at(buf, pos + 1 + n, tail));
        if n < name.len() {
            let rest = name.skip(n + 1);
            lemma_name_written(buf, pos + 1 + n, rest, jumps);
            assert(name[n] == DOT);
            assert(rest.len() > 0);
            assert(label.len() > 0);
            assert(join(label, rest) =~= name);
            assert(parse_name(buf, pos + 1 + n, jumps) == Ok::<(Seq<u8>, int), ProtocolError>(
                (rest, pos + 1 + n + tail.len()),
            ));
        } else {
            lemma_holds_index(buf, pos + 1 + n, tail, 0);
            assert(label =~= name);
            assert(parse_name(buf, pos + 1 + n, jumps) == Ok::<(Seq<u8>, int), ProtocolError>(
                (Seq::empty(), pos + 2 + n),
            ));
        }
    }
}

/// A compression pointer reads as the name it points to: where the name at
/// `target` reads with `jumps` pointers, a pointer to `target` reads as the
/// same name with one pointer more, and the reader ends behind the pointer.
pub proof fn lemma_pointer_reads_target(buf: Seq<u8>, at: int, target: int, jumps: nat)
    requires
        0 <= at,
        at + 1 < buf.len(),
        buf[at] >= POINTER_TAG,
        pointer_target(buf[at], buf[at + 1]) == target,
        parse_name(buf, target, jumps) is Ok,
    ensures
        parse_name(buf, at, jumps + 1) == Ok::<(Seq<u8>, int), ProtocolError>(
            (parse_name(buf, target, jumps)->Ok_0.0, at + 2),
        ),
{
}

/// Labels in front of a name are read in front of it: where a label of `n`
/// bytes stands at `at` and the name behind it reads as `rest`, the whole
/// reads as the label joined to `rest`.
pub proof fn lemma_label_reads_in_front(buf: Seq<u8>, at: int, jumps: nat)
    requires
        0 <= at < buf.len(),
        1 <= buf[at] <= MAX_LABEL,
        at + 1 + buf[at] <= buf.len(),
        parse_name(buf, at + 1 + buf[at], jumps) is Ok,
    ensures
        parse_name(buf, at, jumps) == Ok::<(Seq<u8>, int), ProtocolError>(
            (
                join(
                    buf.subrange(at + 1, at + 1 + buf[at]),
                    parse_name(buf, at + 1 + buf[at], jumps)->Ok_0.0,
                ),
                parse_name(buf, at + 1 + buf[at], jumps)->Ok_0.1,
            ),
        ),
{
}

/// A name written with a pointer to an earlier name reads as that name does
/// where it is written out: if `name` stands written out at `target`, a
/// pointer to `target` anywhere in the buffer reads as `name`.
pub proof fn lemma_compressed_name(buf: Seq<u8>, at: int, target: int, name: Seq<u8>)
    requires
        valid_name(name),
        holds_at(buf, target, name_wire(name)),
        0 <= at,
        at + 1 < buf.len(),
        buf[at] >= POINTER_TAG,
        pointer_target(buf[at], buf[at + 1]) == target,
    ensures
        parse_name(buf, target, MAX_JUMPS as nat) == Ok::<(Seq<u8>, int), ProtocolError>(
            (name, target + name_wire(name).len()),
        ),
        parse_name(buf, at, MAX_JUMPS as nat) == Ok::<(Seq<u8>, int), ProtocolError>(
            (name, at + 2),
        ),
{
    lemma_name_written(buf, target, name, MAX_JUMPS as nat);
    lemma_name_written(buf, target, name, (MAX_JUMPS - 1) as nat);
    lemma_pointer_reads_target(buf, at, target, (MAX_JUMPS - 1) as nat);
}

/// A set of offsets is closed under pointers in `buf`: at each of them stands
/// a compression pointer to one of them.
pub open spec fn pointer_cycle(buf: Seq<u8>, offsets: Set<int>) -> bool {
    forall|at: int| #[trigger]
        offsets.contains(at) ==> 0 <= at && at + 1 < buf.len() && buf[at] >= POINTER_TAG
            && offsets.contains(pointer_target(buf[at], buf[at + 1]))
}

/// Pointers that lead back to themselves, directly or through others, do not
/// keep the reader going: a name that starts at an offset of a pointer cycle
/// fails with `TooManyJumps`, whatever number of pointers may be followed.
pub proof fn lemma_pointer_cycle_fails(buf: Seq<u8>, offsets: Set<int>, at: int, jumps: nat)
    requires
        pointer_cycle(buf, offsets),
        offsets.contains(at),
    ensures
        parse_name(buf, at, jumps) == Err::<(Seq<u8>, int), ProtocolError>(
            ProtocolError::TooManyJumps,
        ),
    decreases jumps,
{
    if jumps > 0 {
        lemma_pointer_cycle_fails(
            buf,
            offsets,
            pointer_target(buf[at], buf[at + 1]),
            (jumps - 1) as nat,
        );
    }
}

/// A name that is read lies within the buffer: the reader ends behind `pos`
/// and not behind the end of the bytes.
pub proof fn lemma_parse_name_in_bounds(buf: Seq<u8>, pos: int, jumps: nat)
    ensures
        match parse_name(buf, pos, jumps) {
            Ok((_, end)) => 0 <= pos < end <= buf.len(),
            Err(_) => true,
        },
    decreases jumps, buf.len() - pos,
{
    if pos < 0 || pos >= buf.len() {
    } else if buf[pos] >= POINTER_TAG {
        if pos + 1 < buf.len() && jumps > 0 {
            lemma_parse_name_in_bounds(
                buf,
                pointer_target(buf[pos], buf[pos + 1]),
                (jumps - 1) as nat,
            );
        }
    } else if buf[pos] > MAX_LABEL || buf[pos] == 0 || pos + 1 + buf[pos] > buf.len() {
    } else {
        lemma_parse_name_in_bounds(buf, pos + 1 + buf[pos], jumps);
    }
}

/// A name of at most `MAX_LABEL` bytes can be written: none of its labels
/// is longer than the name.
pub proof fn lemma_short_name_fits(name: Seq<u8>)
    requires
        name.len() <= MAX_LABEL,
    ensures
        labels_fit(name),
    decreases name.len(),
{
    if name.len() > 0 {
        lemma_label_len_bounds(name);
        let n = label_len(name) as int;
        if n < name.len() {
            lemma_short_name_fits(name.skip(n + 1));
        }
    }
}

/// Two names that can be written can be written joined.
pub proof fn lemma_join_fits(head: Seq<u8>, tail: Seq<u8>)
    requires
        labels_fit(head),
        labels_fit(tail),
    ensures
        labels_fit(join(head, tail)),
    decreases head.len(),
{
    if head.len() > 0 && tail.len() > 0 {
        let whole = head + seq![DOT] + tail;
        lemma_label_len_bounds(head);
        let n = label_len(head) as int;
        assert forall|i: int| 0 <= i < n implies whole[i] != DOT by {
            assert(whole[i] == head[i]);
        }
        assert(whole[n] == DOT);
        lemma_label_len(whole, n);
        if n < head.len() {
            let rest = head.skip(n + 1);
            if rest.len() == 0 {
                let dotted = seq![DOT] + tail;
                assert(whole.skip(n + 1) =~= dotted);
                lemma_label_len(dotted, 0);
                assert(dotted.skip(1) =~= tail);
                assert(labels_fit(dotted));
            } else {
                assert(whole.skip(n + 1) =~= join(rest, tail));
                lemma_join_fits(rest, tail);
            }
        } else {
            assert(whole.skip(n + 1) =~= tail);
        }
        assert(labels_fit(whole.skip(n + 1)));
        assert(label_len(whole) == n);
        assert(n <= MAX_LABEL);
        assert(labels_fit(whole));
    }
}

/// The length that a name read with `jumps` pointers from a buffer of `len`
/// bytes cannot exceed: each pointer may lead through the buffer once more.
pub open spec fn name_bound(len: int, jumps: nat) -> int {
    (jumps + 1) * len
}

/// A name that is read can be written again, and is no longer than the
/// pointers it may follow let it be.
pub proof fn lemma_parsed_name_fits(buf: Seq<u8>, pos: int, jumps: nat)
    ensures
        match parse_name(buf, pos, jumps) {
            Ok((name, _)) => labels_fit(name) && name.len() + pos <= name_bound(
                buf.len() as int,
                jumps,
            ),
            Err(_) => true,
        },
    decreases jumps, buf.len() - pos,
{
    let len = buf.len() as int;
    if pos < 0 || pos >= buf.len() {
    } else if buf[pos] >= POINTER_TAG {
        if pos + 1 < buf.len() && jumps > 0 {
            let target = pointer_target(buf[pos], buf[pos + 1]);
            lemma_parsed_name_fits(buf, target, (jumps - 1) as nat);
            assert((jumps + 1) * len == jumps * len + len) by (nonlinear_arith);
            assert(name_bound(len, (jumps - 1) as nat) == jumps * len);
        }
    } else if buf[pos] > MAX_LABEL {
    } else if buf[pos] == 0 {
        assert((jumps + 1) * len >= len) by (nonlinear_arith)
            requires
                len >= 0,
                jumps >= 0,
        ;
    } else if pos + 1 + buf[pos] > buf.len() {
    } else {
        let label = buf.subrange(pos + 1, pos + 1 + buf[pos]);
        lemma_parsed_name_fits(buf, pos + 1 + buf[pos], jumps);
        match parse_name(buf, pos + 1 + buf[pos], jumps) {
            Ok((rest, _)) => {
                lemma_short_name_fits(label);
                lemma_join_fits(label, rest);
            },
            Err(_) => {},
        }
    }
}

/// The wire form of a name is at most two bytes longer than the name.
pub proof fn lemma_name_wire_bound(name: Seq<u8>)
    ensures
        1 <= name_wire(name).len() <= name.len() + 2,
    decreases name.len(),
{
    if name.len() > 0 {
        lemma_label_len_bounds(name);
        let n = label_len(name) as int;
        if n < name.len() {
            lemma_name_wire_bound(name.skip(n + 1));
        }
    }
}

/// Questions that are read can be written again, and their names are no
/// longer than `MAX_JUMPS` pointers let them be.
pub proof fn lemma_parsed_questions_fit(buf: Seq<u8>, pos: int, count: nat)
    ensures
        match parse_questions(buf, pos, count) {
            Ok((questions, _)) => questions.len() == count && forall|i: int|
                0 <= i < questions.len() ==> labels_fit(#[trigger] questions[i].name)
                    && questions[i].name.len() <= name_bound(buf.len() as int, MAX_JUMPS as nat),
            Err(_) => true,
        },
    decreases count,
{
    reveal(parse_question);
    if count > 0 {
        lemma_parsed_name_fits(buf, pos, MAX_JUMPS as nat);
        lemma_parse_name_in_bounds(buf, pos, MAX_JUMPS as nat);
        match parse_question(buf, pos) {
            Ok((q, next)) => {
                lemma_parsed_questions_fit(buf, next, (count - 1) as nat);
                match parse_questions(buf, next, (count - 1) as nat) {
                    Ok((rest, _)) => {
                        let all = seq![q] + rest;
                        assert forall|i: int| 0 <= i < all.len() implies labels_fit(
                            #[trigger] all[i].name,
                        ) && all[i].name.len() <= name_bound(buf.len() as int, MAX_JUMPS as nat) by {
                            if i > 0 {
                                assert(all[i] == rest[i - 1]);
                            }
                        }
                    },
                    Err(_) => {},
                }
            },
            Err(_) => {},
        }
    }
}

/// A valid name can be written: none of its labels is too long.
pub proof fn lemma_valid_name_fits(name: Seq<u8>)
    requires
        valid_name(name),
    ensures
        labels_fit(name),
    decreases name.len(),
{
    if name.len() > 0 {
        let n = label_len(name) as int;
        if n < name.len() {
            lemma_valid_name_fits(name.skip(n + 1));
        }
    }
}

/// A question that reading gives back as it is: its name is valid and its
/// type is the one its code stands for.
pub open spec fn valid_question(q: QuestionView) -> bool {
    valid_name(q.name) && q.qtype.canonical()
}

/// A record that reading gives back as it is: its names are valid, its type
/// is the one its code stands for, and its payload fits the 16 bits of its
/// length.
pub open spec fn valid_record(r: RecordView) -> bool {
    valid_name(r.domain()) && r.qtype().canonical() && rdata_wire(r).len() <= MAX_COUNT && match r {
        RecordView::NS { host, .. } => valid_name(host),
        RecordView::CNAME { host, .. } => valid_name(host),
        RecordView::SOA { m_name, r_name, .. } => valid_name(m_name) && valid_name(r_name),
        RecordView::MX { host, .. } => valid_name(host),
        _ => true,
    }
}

/// A header that was written is the header read, with its counts.
pub proof fn lemma_header_written(buf: Seq<u8>, pos: int, h: DnsHeader, c: SectionCounts)
    requires
        header_fits(h),
        holds_at(buf, pos, header_wire(h, c)),
    ensures
        header_wire(h, c).len() == HEADER_LEN,
        parse_header(buf, pos) == Ok::<(DnsHeader, SectionCounts), ProtocolError>((h, c)),
{
    reveal(header_wire);
    reveal(parse_header);
    let flags = seq![flags_hi(h) as u8, flags_lo(h) as u8];
    let w = header_wire(h, c);
    lemma_wire16_value(h.id);
    lemma_wire16_value(c.questions);
    lemma_wire16_value(c.answers);
    lemma_wire16_value(c.authoritative_entries);
    lemma_wire16_value(c.resource_entries);
    let a = wire16(h.id);
    let b = a + flags;
    let d = b + wire16(c.questions);
    let e = d + wire16(c.answers);
    let f = e + wire16(c.authoritative_entries);
    lemma_holds_parts(buf, pos, f, wire16(c.resource_entries));
    lemma_holds_parts(buf, pos, e, wire16(c.authoritative_entries));
    lemma_holds_parts(buf, pos, d, wire16(c.answers));
    lemma_holds_parts(buf, pos, b, wire16(c.questions));
    lemma_holds_parts(buf, pos, a, flags);
    lemma_u16_written(buf, pos, h.id);
    lemma_u16_written(buf, pos + 4, c.questions);
    lemma_u16_written(buf, pos + 6, c.answers);
    lemma_u16_written(buf, pos + 8, c.authoritative_entries);
    lemma_u16_written(buf, pos + 10, c.resource_entries);
    lemma_holds_index(buf, pos + 2, flags, 0);
    lemma_holds_index(buf, pos + 2, flags, 1);
    lemma_flags_read_back(h);
}

/// The two flag bytes of a header hold each flag and field at its place.
pub proof fn lemma_flags_read_back(h: DnsHeader)
    requires
        header_fits(h),
    ensures
        0 <= flags_hi(h) < 256,
        0 <= flags_lo(h) < 256,
        (flags_hi(h) / 8) % 16 == h.opcode,
        bit_of(flags_hi(h) as u8, 1) == h.recursion_desired,
        bit_of(flags_hi(h) as u8, 2) == h.truncated_message,
        bit_of(flags_hi(h) as u8, 4) == h.authoritative_answer,
        bit_of(flags_hi(h) as u8, 128) == h.response,
        flags_lo(h) % 16 == h.rescode.code(),
        ResultCode::of_code(h.rescode.code()) == Some(h.rescode),
        bit_of(flags_lo(h) as u8, 16) == h.checking_disabled,
        bit_of(flags_lo(h) as u8, 32) == h.authed_data,
        bit_of(flags_lo(h) as u8, 64) == h.z,
        bit_of(flags_lo(h) as u8, 128) == h.recursion_available,
{
}

/// A valid question that was written is the question read, and the reader
/// ends behind it.
pub proof fn lemma_question_written(buf: Seq<u8>, pos: int, q: QuestionView)
    requires
        valid_question(q),
        holds_at(buf, pos, question_wire(q)),
    ensures
        parse_question(buf, pos) == Ok::<(QuestionView, int), ProtocolError>(
            (q, pos + question_wire(q).len()),
        ),
{
    reveal(question_wire);
    reveal(parse_question);
    let n = name_wire(q.name);
    lemma_holds_parts(buf, pos, n + wire16(q.qtype.code()), wire16(CLASS_IN));
    lemma_holds_parts(buf, pos, n, wire16(q.qtype.code()));
    lemma_name_written(buf, pos, q.name, MAX_JUMPS as nat);
    lemma_u16_written(buf, pos + n.len(), q.qtype.code());
    lemma_wire16_value(q.qtype.code());
    lemma_wire16_value(CLASS_IN);
}

/// The payload of a valid record that was written is read as the payload
/// of that record.
pub proof fn lemma_rdata_written(buf: Seq<u8>, data: int, r: RecordView)
    requires
        valid_record(r),
        holds_at(buf, data, rdata_wire(r)),
    ensures
        parse_rdata(buf, data, rdata_wire(r).len() as int, r.domain(), r.qtype().code(), r.ttl())
            == Ok::<RecordView, ProtocolError>(r),
{
    reveal(rdata_wire);
    reveal(parse_rdata);
    let jumps = MAX_JUMPS as nat;
    match r {
        RecordView::UNKNOWN { .. } => {},
        RecordView::A { addr, .. } => {
            lemma_wire32_value(addr);
            lemma_u32_written(buf, data, addr);
        },
        RecordView::NS { host, .. } => {
            lemma_name_written(buf, data, host, jumps);
        },
        RecordView::CNAME { host, .. } => {
            lemma_name_written(buf, data, host, jumps);
        },
        RecordView::SOA { m_name, r_name, serial, refresh, retry, expire, minimum, .. } => {
            let m = name_wire(m_name);
            let n = name_wire(r_name);
            let step1 = m + n;
            let step2 = step1 + wire32(serial);
            let step3 = step2 + wire32(refresh);
            let step4 = step3 + wire32(retry);
            let step5 = step4 + wire32(expire);
            lemma_wire32_value(serial);
            lemma_wire32_value(refresh);
            lemma_wire32_value(retry);
            lemma_wire32_value(expire);
            lemma_wire32_value(minimum);
            lemma_holds_parts(buf, data, step5, wire32(minimum));
            lemma_holds_parts(buf, data, step4, wire32(expire));
            lemma_holds_parts(buf, data, step3, wire32(retry));
            lemma_holds_parts(buf, data, step2, wire32(refresh));
            lemma_holds_parts(buf, data, step1, wire32(serial));
            lemma_holds_parts(buf, data, m, n);
            lemma_name_written(buf, data, m_name, jumps);
            lemma_name_written(buf, data + m.len(), r_name, jumps);
            let end = data + m.len() + n.len();
            lemma_u32_written(buf, end, serial);
            lemma_u32_written(buf, end + 4, refresh);
            lemma_u32_written(buf, end + 8, retry);
            lemma_u32_written(buf, end + 12, expire);
            lemma_u32_written(buf, end + 16, minimum);
        },
        RecordView::MX { priority, host, .. } => {
            lemma_wire16_value(priority);
            lemma_holds_parts(buf, data, wire16(priority), name_wire(host));
            lemma_u16_written(buf, data, priority);
            lemma_name_written(buf, data + 2, host, jumps);
        },
        RecordView::TXT { .. } => {},
        RecordView::AAAA { addr, .. } => {
            lemma_words128_value(addr);
            lemma_u128_written(buf, data, addr);
        },
    }
}

/// A valid record can be written, and is written as its bytes.
pub proof fn lemma_valid_record_encoding(r: RecordView)
    requires
        valid_record(r),
    ensures
        record_encoding(r) == Ok::<Seq<u8>, ProtocolError>(record_wire(r)),
{
    reveal(record_encoding);
    reveal(names_fit);
    lemma_valid_name_fits(r.domain());
    match r {
        RecordView::NS { host, .. } => {
            lemma_valid_name_fits(host);
        },
        RecordView::CNAME { host, .. } => {
            lemma_valid_name_fits(host);
        },
        RecordView::SOA { m_name, r_name, .. } => {
            lemma_valid_name_fits(m_name);
            lemma_valid_name_fits(r_name);
        },
        RecordView::MX { host, .. } => {
            lemma_valid_name_fits(host);
        },
        _ => {},
    }
}

/// A valid record that was written is the record read, and the reader ends
/// behind it.
pub proof fn lemma_record_written(buf: Seq<u8>, pos: int, r: RecordView)
    requires
        valid_record(r),
        holds_at(buf, pos, record_wire(r)),
    ensures
        parse_record(buf, pos) == Ok::<(RecordView, int), ProtocolError>(
            (r, pos + record_wire(r).len()),
        ),
{
    reveal(record_wire);
    reveal(parse_record);
    let code = r.qtype().code();
    let rdata = rdata_wire(r);
    let len = rdata.len() as u16;
    let step0 = name_wire(r.domain());
    let step1 = step0 + wire16(code);
    let step2 = step1 + wire16(CLASS_IN);
    let step3 = step2 + wire32(r.ttl());
    let step4 = step3 + wire16(len);
    lemma_wire16_value(code);
    lemma_wire16_value(CLASS_IN);
    lemma_wire32_value(r.ttl());
    lemma_wire16_value(len);
    lemma_holds_parts(buf, pos, step4, rdata);
    lemma_holds_parts(buf, pos, step3, wire16(len));
    lemma_holds_parts(buf, pos, step2, wire32(r.ttl()));
    lemma_holds_parts(buf, pos, step1, wire16(CLASS_IN));
    lemma_holds_parts(buf, pos, step0, wire16(code));
    lemma_name_written(buf, pos, r.domain(), MAX_JUMPS as nat);
    let at = pos + step0.len();
    lemma_u16_written(buf, at, code);
    lemma_u32_written(buf, at + 4, r.ttl());
    lemma_u16_written(buf, at + 8, len);
    lemma_rdata_written(buf, at + 10, r);
}

/// A declared length that leaves the buffer fails the reading with
/// `EndOfBuffer`: that of a label in a name, that of a record's payload, and
/// that of the header itself where fewer than twelve bytes are left.
pub proof fn lemma_length_past_end_fails(buf: Seq<u8>, pos: int, jumps: nat)
    ensures
        0 <= pos < buf.len() && 1 <= buf[pos] <= MAX_LABEL && pos + 1 + buf[pos] > buf.len()
            ==> parse_name(buf, pos, jumps) == Err::<(Seq<u8>, int), ProtocolError>(
            ProtocolError::EndOfBuffer,
        ),
        match parse_name(buf, pos, MAX_JUMPS as nat) {
            Ok((_, at)) => at + 10 <= buf.len() && at + 10 + u16_at(buf, at + 8) > buf.len()
                ==> parse_record(buf, pos) == Err::<(RecordView, int), ProtocolError>(
                ProtocolError::EndOfBuffer,
            ),
            Err(_) => true,
        },
        pos + HEADER_LEN > buf.len() ==> parse_packet(buf, pos) == Err::<
            (PacketView, int),
            ProtocolError,
        >(ProtocolError::EndOfBuffer),
{
    reveal(parse_record);
    reveal(parse_header);
}

/// A question that is read lies within the buffer.
pub proof fn lemma_parse_question_in_bounds(buf: Seq<u8>, pos: int)
    ensures
        match parse_question(buf, pos) {
            Ok((_, end)) => 0 <= pos < end <= buf.len(),
            Err(_) => true,
        },
{
    reveal(parse_question);
    lemma_parse_name_in_bounds(buf, pos, MAX_JUMPS as nat);
}

/// A record that is read lies within the buffer, its payload of the declared
/// length included.
pub proof fn lemma_parse_record_in_bounds(buf: Seq<u8>, pos: int)
    ensures
        match parse_record(buf, pos) {
            Ok((_, end)) => 0 <= pos < end <= buf.len() && match parse_name(
                buf,
                pos,
                MAX_JUMPS as nat,
            ) {
                Ok((_, at)) => end == at + 10 + u16_at(buf, at + 8),
                Err(_) => false,
            },
            Err(_) => true,
        },
{
    reveal(parse_record);
    lemma_parse_name_in_bounds(buf, pos, MAX_JUMPS as nat);
}

/// Questions that are read lie within the buffer.
pub proof fn lemma_parse_questions_in_bounds(buf: Seq<u8>, pos: int, count: nat)
    requires
        0 <= pos <= buf.len(),
    ensures
        match parse_questions(buf, pos, count) {
            Ok((questions, end)) => pos <= end <= buf.len() && questions.len() == count,
            Err(_) => true,
        },
    decreases count,
{
    if count > 0 {
        lemma_parse_question_in_bounds(buf, pos);
        match parse_question(buf, pos) {
            Ok((_, next)) => {
                lemma_parse_questions_in_bounds(buf, next, (count - 1) as nat);
            },
            Err(_) => {},
        }
    }
}

/// Records that are read lie within the buffer.
pub proof fn lemma_parse_records_in_bounds(buf: Seq<u8>, pos: int, count: nat)
    requires
        0 <= pos <= buf.len(),
    ensures
        match parse_records(buf, pos, count) {
            Ok((records, end)) => pos <= end <= buf.len() && records.len() == count,
            Err(_) => true,
        },
    decreases count,
{
    if count > 0 {
        lemma_parse_record_in_bounds(buf, pos);
        match parse_record(buf, pos) {
            Ok((_, next)) => {
                lemma_parse_records_in_bounds(buf, next, (count - 1) as nat);
            },
            Err(_) => {},
        }
    }
}

/// Bounds. A message that is read lies within the buffer: the reader ends
/// behind the header and not behind the end of the bytes, and each section
/// holds as many entries as the header counted.
pub proof fn lemma_parse_packet_in_bounds(buf: Seq<u8>, pos: int)
    ensures
        match parse_packet(buf, pos) {
            Ok((p, end)) => 0 <= pos && pos + HEADER_LEN <= end <= buf.len() && match parse_header(
                buf,
                pos,
            ) {
                Ok((_, counts)) => p.questions.len() == counts.questions && p.answers.len()
                    == counts.answers && p.authorities.len() == counts.authoritative_entries
                    && p.resources.len() == counts.resource_entries,
                Err(_) => false,
            },
            Err(_) => true,
        },
{
    reveal(parse_header);
    match parse_header(buf, pos) {
        Ok((_, counts)) => {
            let step0 = pos + HEADER_LEN;
            lemma_parse_questions_in_bounds(buf, step0, counts.questions as nat);
            match parse_questions(buf, step0, counts.questions as nat) {
                Ok((_, step1)) => {
                    lemma_parse_records_in_bounds(buf, step1, counts.answers as nat);
                    match parse_records(buf, step1, counts.answers as nat) {
                        Ok((_, step2)) => {
                            lemma_parse_records_in_bounds(
                                buf,
                                step2,
                                counts.authoritative_entries as nat,
                            );
                            match parse_records(buf, step2, counts.authoritative_entries as nat) {
                                Ok((_, step3)) => {
                                    lemma_parse_records_in_bounds(
                                        buf,
                                        step3,
                                        counts.resource_entries as nat,
                                    );
                                },
                                Err(_) => {},
                            }
                        },
                        Err(_) => {},
                    }
                },
                Err(_) => {},
            }
        },
        Err(_) => {},
    }
}

/// The bytes of the first `n` questions are those of the first question and
/// then those of the others.
pub proof fn lemma_questions_wire_front(questions: Seq<QuestionView>, n: int)
    requires
        1 <= n <= questions.len(),
    ensures
        questions_wire(questions, n) == question_wire(questions[0]) + questions_wire(
            questions.skip(1),
            n - 1,
        ),
    decreases n,
{
    let rest = questions.skip(1);
    if n == 1 {
        assert(questions_wire(questions, 0) =~= Seq::empty());
        assert(questions_wire(rest, 0) =~= Seq::empty());
        assert(Seq::<u8>::empty() + question_wire(questions[0]) =~= question_wire(questions[0])
            + Seq::<u8>::empty());
    } else {
        lemma_questions_wire_front(questions, n - 1);
        assert(rest[n - 2] == questions[n - 1]);
        assert((question_wire(questions[0]) + questions_wire(rest, n - 2)) + question_wire(
            questions[n - 1],
        ) =~= question_wire(questions[0]) + (questions_wire(rest, n - 2) + question_wire(
            rest[n - 2],
        )));
    }
}

/// The bytes of the first `n` records are those of the first record and then
/// those of the others.
pub proof fn lemma_records_wire_front(records: Seq<RecordView>, n: int)
    requires
        1 <= n <= records.len(),
    ensures
        records_wire(records, n) == record_wire(records[0]) + records_wire(records.skip(1), n - 1),
    decreases n,
{
    let rest = records.skip(1);
    if n == 1 {
        assert(records_wire(records, 0) =~= Seq::empty());
        assert(records_wire(rest, 0) =~= Seq::empty());
        assert(Seq::<u8>::empty() + record_wire(records[0]) =~= record_wire(records[0])
            + Seq::<u8>::empty());
    } else {
        lemma_records_wire_front(records, n - 1);
        assert(rest[n - 2] == records[n - 1]);
        assert((record_wire(records[0]) + records_wire(rest, n - 2)) + record_wire(records[n - 1])
            =~= record_wire(records[0]) + (records_wire(rest, n - 2) + record_wire(rest[n - 2])));
    }
}

/// Valid questions that were written one behind the other are the questions
/// read, in their order, and the reader ends behind the last.
pub proof fn lemma_questions_written(buf: Seq<u8>, pos: int, questions: Seq<QuestionView>, n: int)
    requires
        0 <= n <= questions.len(),
        forall|i: int| 0 <= i < n ==> valid_question(#[trigger] questions[i]),
        holds_at(buf, pos, questions_wire(questions, n)),
    ensures
        parse_questions(buf, pos, n as nat) == Ok::<(Seq<QuestionView>, int), ProtocolError>(
            (questions.take(n), pos + questions_wire(questions, n).len()),
        ),
    decreases n,
{
    if n == 0 {
        assert(questions.take(0) =~= Seq::empty());
    } else {
        let rest = questions.skip(1);
        lemma_questions_wire_front(questions, n);
        lemma_holds_parts(buf, pos, question_wire(questions[0]), questions_wire(rest, n - 1));
        lemma_question_written(buf, pos, questions[0]);
        assert forall|i: int| 0 <= i < n - 1 implies valid_question(#[trigger] rest[i]) by {
            assert(rest[i] == questions[i + 1]);
        }
        lemma_questions_written(buf, pos + question_wire(questions[0]).len(), rest, n - 1);
        assert(seq![questions[0]] + rest.take(n - 1) =~= questions.take(n));
    }
}

/// Valid records that were written one behind the other are the records
/// read, in their order, and the reader ends behind the last.
pub proof fn lemma_records_written(buf: Seq<u8>, pos: int, records: Seq<RecordView>, n: int)
    requires
        0 <= n <= records.len(),
        forall|i: int| 0 <= i < n ==> valid_record(#[trigger] records[i]),
        holds_at(buf, pos, records_wire(records, n)),
    ensures
        parse_records(buf, pos, n as nat) == Ok::<(Seq<RecordView>, int), ProtocolError>(
            (records.take(n), pos + records_wire(records, n).len()),
        ),
    decreases n,
{
    if n == 0 {
        assert(records.take(0) =~= Seq::empty());
    } else {
        let rest = records.skip(1);
        lemma_records_wire_front(records, n);
        lemma_holds_parts(buf, pos, record_wire(records[0]), records_wire(rest, n - 1));
        lemma_record_written(buf, pos, records[0]);
        assert forall|i: int| 0 <= i < n - 1 implies valid_record(#[trigger] rest[i]) by {
            assert(rest[i] == records[i + 1]);
        }
        lemma_records_written(buf, pos + record_wire(records[0]).len(), rest, n - 1);
        assert(seq![records[0]] + rest.take(n - 1) =~= records.take(n));
    }
}

/// A message that reading gives back as it is: its opcode fits in four bits,
/// no section has more than 65535 entries, and its questions and records are
/// valid.
pub open spec fn valid_packet(p: PacketView) -> bool {
    &&& header_fits(p.header)
    &&& p.questions.len() <= MAX_COUNT
    &&& p.answers.len() <= MAX_COUNT
    &&& p.authorities.len() <= MAX_COUNT
    &&& p.resources.len() <= MAX_COUNT
    &&& forall|i: int| 0 <= i < p.questions.len() ==> valid_question(#[trigger] p.questions[i])
    &&& forall|i: int| 0 <= i < p.answers.len() ==> valid_record(#[trigger] p.answers[i])
    &&& forall|i: int| 0 <= i < p.authorities.len() ==> valid_record(#[trigger] p.authorities[i])
    &&& forall|i: int| 0 <= i < p.resources.len() ==> valid_record(#[trigger] p.resources[i])
}

/// The counts of a message whose records are all written.
pub open spec fn whole(p: PacketView) -> Written {
    Written {
        answers: p.answers.len() as int,
        authorities: p.authorities.len() as int,
        resources: p.resources.len() as int,
    }
}

/// The bytes of a message whose records are all written.
pub open spec fn packet_wire(p: PacketView) -> Seq<u8> {
    packet_bytes(p, whole(p))
}

/// The counts are those of leading records of the sections of `p`.
pub open spec fn counts_within(p: PacketView, w: Written) -> bool {
    0 <= w.answers <= p.answers.len() && 0 <= w.authorities <= p.authorities.len() && 0
        <= w.resources <= p.resources.len()
}

/// A valid message written with the leading records of its sections reads as
/// the message with those records: where the bytes of `p` with the counted
/// records stand in a buffer, reading gives `p` cut to those records, with
/// the truncation flag set if any was left out, and ends behind the bytes.
pub proof fn lemma_packet_written(buf: Seq<u8>, pos: int, p: PacketView, w: Written)
    requires
        valid_packet(p),
        counts_within(p, w),
        holds_at(buf, pos, packet_bytes(p, w)),
    ensures
        parse_packet(buf, pos) == Ok::<(PacketView, int), ProtocolError>(
            (truncated(p, w), pos + packet_bytes(p, w).len()),
        ),
{
    let header = written_header(p, w);
    let counts = written_counts(p, w);
    let hw = header_wire(header, counts);
    let qw = questions_wire(p.questions, p.questions.len() as int);
    let aw = records_wire(p.answers, w.answers);
    let nw = records_wire(p.authorities, w.authorities);
    let rw = records_wire(p.resources, w.resources);
    lemma_holds_parts(buf, pos, hw + qw + aw + nw, rw);
    lemma_holds_parts(buf, pos, hw + qw + aw, nw);
    lemma_holds_parts(buf, pos, hw + qw, aw);
    lemma_holds_parts(buf, pos, hw, qw);
    lemma_header_written(buf, pos, header, counts);
    let step1 = pos + HEADER_LEN;
    lemma_questions_written(buf, step1, p.questions, p.questions.len() as int);
    assert(p.questions.take(p.questions.len() as int) =~= p.questions);
    let step2 = step1 + qw.len();
    lemma_records_written(buf, step2, p.answers, w.answers);
    let step3 = step2 + aw.len();
    lemma_records_written(buf, step3, p.authorities, w.authorities);
    let step4 = step3 + nw.len();
    lemma_records_written(buf, step4, p.resources, w.resources);
}

/// The bytes of more records are at least as many.
pub proof fn lemma_records_wire_grows(records: Seq<RecordView>, m: int, n: int)
    requires
        0 <= m <= n,
    ensures
        records_wire(records, m).len() <= records_wire(records, n).len(),
    decreases n - m,
{
    if m < n {
        lemma_records_wire_grows(records, m, n - 1);
    }
}

/// What the count of written records says. The records counted are leading
/// records of the section; each can be written; with them the message stays
/// within the budget; and the first record not counted, if there is one,
/// cannot be written or would take the message beyond the budget.
pub proof fn lemma_fit_count(records: Seq<RecordView>, from: int, used: int, budget: int)
    requires
        0 <= from <= records.len(),
    ensures
        from <= fit_count(records, from, used, budget) <= records.len(),
        forall|i: int|
            from <= i < fit_count(records, from, used, budget) ==> (#[trigger] record_encoding(
                records[i],
            )) == Ok::<Seq<u8>, ProtocolError>(record_wire(records[i])),
        from < fit_count(records, from, used, budget) ==> used + records_wire(
            records,
            fit_count(records, from, used, budget),
        ).len() - records_wire(records, from).len() <= budget,
        fit_count(records, from, used, budget) < records.len() ==> {
            let k = fit_count(records, from, used, budget);
            match record_encoding(records[k]) {
                Ok(bytes) => used + records_wire(records, k).len() - records_wire(
                    records,
                    from,
                ).len() + bytes.len() > budget,
                Err(_) => true,
            }
        },
    decreases records.len() - from,
{
    reveal(record_encoding);
    if from < records.len() {
        match record_encoding(records[from]) {
            Ok(bytes) => {
                if used + bytes.len() <= budget {
                    lemma_fit_count(records, from + 1, used + bytes.len(), budget);
                    let k = fit_count(records, from, used, budget);
                    lemma_records_wire_grows(records, from + 1, k);
                    assert(records_wire(records, from + 1) == records_wire(records, from)
                        + record_wire(records[from]));
                }
            },
            Err(_) => {},
        }
    }
}

/// Where all records of a section are valid and fit, all are written.
pub proof fn lemma_fit_count_whole(records: Seq<RecordView>, from: int, base: int, budget: int)
    requires
        0 <= from <= records.len(),
        forall|i: int| 0 <= i < records.len() ==> valid_record(#[trigger] records[i]),
        base + records_wire(records, records.len() as int).len() <= budget,
    ensures
        fit_count(records, from, base + records_wire(records, from).len(), budget)
            == records.len(),
    decreases records.len() - from,
{
    if from < records.len() {
        lemma_valid_record_encoding(records[from]);
        lemma_records_wire_grows(records, from + 1, records.len() as int);
        assert(records_wire(records, from + 1) == records_wire(records, from) + record_wire(
            records[from],
        ));
        lemma_fit_count_whole(records, from + 1, base, budget);
    }
}

/// The counts of written records are those of leading records.
pub proof fn lemma_written_within(p: PacketView, budget: int)
    ensures
        counts_within(p, written_records(p, budget)),
{
    let base = HEADER_LEN + questions_wire(p.questions, p.questions.len() as int).len();
    let w = written_records(p, budget);
    lemma_fit_count(p.answers, 0, base, budget);
    let used1 = base + records_wire(p.answers, w.answers).len();
    lemma_fit_count(p.authorities, 0, used1, budget);
    let used2 = used1 + records_wire(p.authorities, w.authorities).len();
    lemma_fit_count(p.resources, 0, used2, budget);
}

/// The questions of a valid message can be written.
pub proof fn lemma_valid_questions_fit(p: PacketView)
    requires
        valid_packet(p),
    ensures
        questions_fit(p.questions),
{
    assert forall|i: int| 0 <= i < p.questions.len() implies labels_fit(
        #[trigger] p.questions[i].name,
    ) by {
        assert(valid_question(p.questions[i]));
        lemma_valid_name_fits(p.questions[i].name);
    }
}

/// Round trip. A valid message that is written with room and size enough for
/// all of it reads back as the same message: the header with its flags, the
/// questions and every record of every section, field by field. Written into
/// `room` bytes with at most `max_size`, it is written as `packet_wire`
/// gives it, and where those bytes stand in a buffer the message read there
/// is `p`, and the reader ends behind them.
pub proof fn lemma_round_trip(buf: Seq<u8>, pos: int, p: PacketView, max_size: int, room: int)
    requires
        valid_packet(p),
        packet_wire(p).len() <= max_size,
        packet_wire(p).len() <= room,
        holds_at(buf, pos, packet_wire(p)),
    ensures
        packet_encoding(p, max_size, room) == Ok::<Seq<u8>, ProtocolError>(packet_wire(p)),
        parse_packet(buf, pos) == Ok::<(PacketView, int), ProtocolError>(
            (p, pos + packet_wire(p).len()),
        ),
{
    let budget = message_budget(max_size, room);
    lemma_whole_fits(p, budget);
    lemma_valid_questions_fit(p);
    lemma_packet_written(buf, pos, p, whole(p));
    lemma_whole_is_all(p);
    lemma_header_len(written_header(p, whole(p)), written_counts(p, whole(p)));
    assert(packet_wire(p).len() >= HEADER_LEN + questions_wire(
        p.questions,
        p.questions.len() as int,
    ).len());
}

/// A message cut to all of its records is the message.
pub proof fn lemma_whole_is_all(p: PacketView)
    ensures
        !is_truncated(p, whole(p)),
        truncated(p, whole(p)) == p,
{
    assert(p.answers.take(p.answers.len() as int) =~= p.answers);
    assert(p.authorities.take(p.authorities.len() as int) =~= p.authorities);
    assert(p.resources.take(p.resources.len() as int) =~= p.resources);
}

/// Where all of a valid message fits the budget, all its records are written.
pub proof fn lemma_whole_fits(p: PacketView, budget: int)
    requires
        valid_packet(p),
        packet_wire(p).len() <= budget,
    ensures
        written_records(p, budget) == whole(p),
{
    let qw = questions_wire(p.questions, p.questions.len() as int);
    let aw = records_wire(p.answers, p.answers.len() as int);
    let nw = records_wire(p.authorities, p.authorities.len() as int);
    let rw = records_wire(p.resources, p.resources.len() as int);
    let hw = header_wire(written_header(p, whole(p)), written_counts(p, whole(p)));
    lemma_header_len(written_header(p, whole(p)), written_counts(p, whole(p)));
    assert(packet_wire(p) == hw + qw + aw + nw + rw);
    let base = HEADER_LEN + qw.len();
    assert(records_wire(p.answers, 0) =~= Seq::empty());
    assert(records_wire(p.authorities, 0) =~= Seq::empty());
    assert(records_wire(p.resources, 0) =~= Seq::empty());
    lemma_fit_count_whole(p.answers, 0, base, budget);
    lemma_fit_count_whole(p.authorities, 0, base + aw.len(), budget);
    lemma_fit_count_whole(p.resources, 0, base + aw.len() + nw.len(), budget);
}

/// A header takes twelve bytes.
pub proof fn lemma_header_len(h: DnsHeader, c: SectionCounts)
    ensures
        header_wire(h, c).len() == HEADER_LEN,
{
    reveal(header_wire);
    lemma_wire16_value(h.id);
    lemma_wire16_value(c.questions);
    lemma_wire16_value(c.answers);
    lemma_wire16_value(c.authoritative_entries);
    lemma_wire16_value(c.resource_entries);
}

/// Truncation. A valid message that is written into `room` bytes with at
/// most `max_size` reads back as its leading records: where the bytes
/// written stand in a buffer, the message read there holds the questions
/// and, of each section, the records that were written, its counts are those
/// of the records written and not of the records there were, and its
/// truncation flag is set if a record was left out. A record is left out
/// whenever the message has records and all of it would not fit.
pub proof fn lemma_truncation(buf: Seq<u8>, pos: int, p: PacketView, max_size: int, room: int)
    requires
        valid_packet(p),
        packet_encoding(p, max_size, room) is Ok,
        holds_at(buf, pos, packet_encoding(p, max_size, room)->Ok_0),
    ensures
        ({
            let w = written_records(p, message_budget(max_size, room));
            let bytes = packet_encoding(p, max_size, room)->Ok_0;
            &&& counts_within(p, w)
            &&& parse_packet(buf, pos) == Ok::<(PacketView, int), ProtocolError>(
                (truncated(p, w), pos + bytes.len()),
            )
            &&& truncated(p, w).answers.len() == w.answers
            &&& truncated(p, w).authorities.len() == w.authorities
            &&& truncated(p, w).resources.len() == w.resources
            &&& is_truncated(p, w) ==> truncated(p, w).header.truncated_message
            &&& p.answers.len() + p.authorities.len() + p.resources.len() > 0 && packet_wire(
                p,
            ).len() > message_budget(max_size, room) ==> is_truncated(p, w)
        }),
{
    let budget = message_budget(max_size, room);
    let w = written_records(p, budget);
    lemma_written_within(p, budget);
    lemma_packet_written(buf, pos, p, w);
    if !is_truncated(p, w) && p.answers.len() + p.authorities.len() + p.resources.len() > 0 {
        let qw = questions_wire(p.questions, p.questions.len() as int);
        let aw = records_wire(p.answers, p.answers.len() as int);
        let nw = records_wire(p.authorities, p.authorities.len() as int);
        let rw = records_wire(p.resources, p.resources.len() as int);
        let hw = header_wire(written_header(p, whole(p)), written_counts(p, whole(p)));
        lemma_header_len(written_header(p, whole(p)), written_counts(p, whole(p)));
        assert(packet_wire(p) == hw + qw + aw + nw + rw);
        assert(w == whole(p));
        let base = HEADER_LEN + qw.len();
        assert(records_wire(p.answers, 0) =~= Seq::empty());
        assert(records_wire(p.authorities, 0) =~= Seq::empty());
        assert(records_wire(p.resources, 0) =~= Seq::empty());
        lemma_fit_count(p.answers, 0, base, budget);
        lemma_fit_count(p.authorities, 0, base + aw.len(), budget);
        lemma_fit_count(p.resources, 0, base + aw.len() + nw.len(), budget);
    }
}

} // verus!
