//! IPv4 addresses in dotted-decimal text.

use crate::dns::bytes::{be32, lemma_wire32_value, wire32};
use crate::dns::name::{label_len, lemma_label_len, lemma_label_len_bounds, DOT};
use vstd::prelude::*;

verus! {

/// The byte `-`.
pub const HYPHEN: u8 = 0x2d;

/// The byte `0`.
pub const ZERO: u8 = 0x30;

/// `b` is a decimal digit.
pub open spec fn is_digit(b: u8) -> bool {
    ZERO <= b <= ZERO + 9
}

/// Every byte of `part` is a decimal digit.
pub open spec fn all_digits(part: Seq<u8>) -> bool {
    forall|i: int| 0 <= i < part.len() ==> is_digit(#[trigger] part[i])
}

/// The number that the digits of `part` write in base ten.
pub open spec fn decimal(part: Seq<u8>) -> int
    decreases part.len(),
{
    if part.len() == 0 {
        0
    } else {
        decimal(part.drop_last()) * 10 + (part.last() - ZERO)
    }
}

/// The octet that `part` writes: one to three decimal digits, without a zero
/// in front of another digit, of a value up to 255.
#[verifier::opaque]
pub open spec fn octet_of(part: Seq<u8>) -> Option<u8> {
    if 1 <= part.len() <= 3 && all_digits(part) && (part.len() == 1 || part[0] != ZERO) && decimal(
        part,
    ) <= 255 {
        Some(decimal(part) as u8)
    } else {
        None
    }
}

/// The four parts of `text` between its dots, where it holds exactly three
/// dots.
pub open spec fn split_quad(text: Seq<u8>) -> Option<(Seq<u8>, Seq<u8>, Seq<u8>, Seq<u8>)> {
    let n0 = label_len(text) as int;
    let r1 = text.skip(n0 + 1);
    let n1 = label_len(r1) as int;
    let r2 = r1.skip(n1 + 1);
    let n2 = label_len(r2) as int;
    let r3 = r2.skip(n2 + 1);
    if n0 < text.len() && n1 < r1.len() && n2 < r2.len() && label_len(r3) == r3.len() {
        Some((text.take(n0), r1.take(n1), r2.take(n2), r3))
    } else {
        None
    }
}

/// The address that `text` writes in dotted decimal: exactly four octets
/// with one dot between neighbours, the first octet the most significant.
pub open spec fn dotted_quad(text: Seq<u8>) -> Option<u32> {
    match split_quad(text) {
        Some((a, b, c, d)) => match (octet_of(a), octet_of(b), octet_of(c), octet_of(d)) {
            (Some(a), Some(b), Some(c), Some(d)) => Some(be32(a, b, c, d)),
            _ => None,
        },
        None => None,
    }
}

/// `text` with a dot in place of every hyphen.
pub open spec fn hyphens_to_dots(text: Seq<u8>) -> Seq<u8> {
    Seq::new(
        text.len(),
        |i: int|
            if text[i] == HYPHEN {
                DOT
            } else {
                text[i]
            },
    )
}

/// Where the label that starts at `from` ends: at the first dot from there
/// on, or at the end of `text`.
pub fn label_end(text: &[u8], from: usize) -> (end: usize)
    requires
        from <= text@.len(),
    ensures
        from <= end <= text@.len(),
        end - from == label_len(text@.skip(from as int)),
        forall|i: int| from <= i < end ==> text@[i] != DOT,
        end < text@.len() ==> text@[end as int] == DOT,
{
    let mut end: usize = from;
    while end < text.len() && text[end] != DOT
        invariant
            from <= end <= text@.len(),
            forall|i: int| from <= i < end ==> text@[i] != DOT,
        decreases text@.len() - end,
    {
        end = end + 1;
    }
    proof {
        lemma_label_len(text@.skip(from as int), end - from);
    }
    end
}

/// The octet that the bytes of `text` from `from` up to `to` write, if they
/// write one.
pub fn parse_octet(text: &[u8], from: usize, to: usize) -> (r: Option<u8>)
    requires
        from <= to <= text@.len(),
    ensures
        r == octet_of(text@.subrange(from as int, to as int)),
{
    reveal(octet_of);
    let ghost part = text@.subrange(from as int, to as int);
    if to - from < 1 || to - from > 3 {
        return None;
    }
    if to - from > 1 && text[from] == ZERO {
        assert(part[0] == ZERO);
        return None;
    }
    let mut value: u16 = 0;
    let mut i: usize = from;
    assert(part.take(0) =~= Seq::empty());
    while i < to
        invariant
            from <= i <= to <= text@.len(),
            to - from <= 3,
            part == text@.subrange(from as int, to as int),
            all_digits(part.take(i - from)),
            value == decimal(part.take(i - from)),
            value <= 999,
            i - from <= 2 ==> value <= 99,
            i - from <= 1 ==> value <= 9,
            i == from ==> value == 0,
        decreases to - i,
    {
        let b = text[i];
        if b < ZERO || b > ZERO + 9 {
            reveal(octet_of);
            assert(!is_digit(part[i - from]));
            return None;
        }
        proof {
            let next = part.take(i - from + 1);
            assert(next.drop_last() =~= part.take(i - from));
            assert(next.last() == b);
        }
        value = value * 10 + (b - ZERO) as u16;
        i = i + 1;
    }
    assert(part.take(to - from) =~= part);
    if value > 255 {
        return None;
    }
    Some(value as u8)
}

/// Reads an IPv4 address in dotted decimal. It returns the address, first
/// octet in the most significant byte, exactly when `text` is four octets
/// with dots between them and nothing else.
pub fn parse_ipv4(text: &[u8]) -> (r: Option<u32>)
    ensures
        r == dotted_quad(text@),
{
    let ghost r0 = text@;
    assert(r0.skip(0) =~= r0);
    let e0 = label_end(text, 0);
    if e0 >= text.len() {
        return None;
    }
    let ghost r1 = r0.skip(e0 + 1);
    let e1 = label_end(text, e0 + 1);
    if e1 >= text.len() {
        return None;
    }
    let ghost r2 = r1.skip(e1 - e0);
    assert(r2 =~= r0.skip(e1 + 1));
    let e2 = label_end(text, e1 + 1);
    if e2 >= text.len() {
        return None;
    }
    let ghost r3 = r2.skip(e2 - e1);
    assert(r3 =~= r0.skip(e2 + 1));
    let e3 = label_end(text, e2 + 1);
    if e3 != text.len() {
        return None;
    }
    proof {
        let a = r0.subrange(0, e0 as int);
        let b = r0.subrange(e0 + 1, e1 as int);
        let c = r0.subrange(e1 + 1, e2 as int);
        let d = r0.subrange(e2 + 1, r0.len() as int);
        assert(r0.take(e0 as int) =~= a);
        assert(r1.take(e1 - e0 - 1) =~= b);
        assert(r2.take(e2 - e1 - 1) =~= c);
        assert(r3 =~= d);
        assert(split_quad(r0) == Some((a, b, c, d)));
    }
    let a = parse_octet(text, 0, e0);
    let b = parse_octet(text, e0 + 1, e1);
    let c = parse_octet(text, e1 + 1, e2);
    let d = parse_octet(text, e2 + 1, e3);
    match (a, b, c, d) {
        (Some(a), Some(b), Some(c), Some(d)) => Some(
            a as u32 * 16777216 + b as u32 * 65536 + c as u32 * 256 + d as u32,
        ),
        _ => None,
    }
}

/// The decimal text of an octet, without a zero in front of another digit.
pub open spec fn octet_text(v: u8) -> Seq<u8> {
    if v < 10 {
        seq![(ZERO + v) as u8]
    } else if v < 100 {
        seq![(ZERO + v / 10) as u8, (ZERO + v % 10) as u8]
    } else {
        seq![(ZERO + v / 100) as u8, (ZERO + (v / 10) % 10) as u8, (ZERO + v % 10) as u8]
    }
}

/// The dotted-decimal text of an address: its four octets, the most
/// significant first, with a dot between neighbours.
pub open spec fn address_text(addr: u32) -> Seq<u8> {
    let octets = wire32(addr);
    octet_text(octets[0]) + seq![DOT] + octet_text(octets[1]) + seq![DOT] + octet_text(octets[2])
        + seq![DOT] + octet_text(octets[3])
}

/// The number that one, two or three digits write.
proof fn lemma_decimal_digits(part: Seq<u8>)
    requires
        1 <= part.len() <= 3,
    ensures
        part.len() == 1 ==> decimal(part) == part[0] - ZERO,
        part.len() == 2 ==> decimal(part) == (part[0] - ZERO) * 10 + (part[1] - ZERO),
        part.len() == 3 ==> decimal(part) == (part[0] - ZERO) * 100 + (part[1] - ZERO) * 10 + (
        part[2] - ZERO),
{
    reveal_with_fuel(decimal, 4);
    let two = part.drop_last();
    if part.len() >= 2 {
        let one = two.drop_last();
        assert(two.last() == part[part.len() - 2]);
        if part.len() == 3 {
            assert(one.last() == part[0]);
        }
    }
}

/// The text of an octet is read as the octet, and holds no dot.
pub proof fn lemma_octet_text_reads(v: u8)
    ensures
        octet_of(octet_text(v)) == Some(v),
        1 <= octet_text(v).len() <= 3,
        forall|i: int| 0 <= i < octet_text(v).len() ==> octet_text(v)[i] != DOT,
{
    reveal(octet_of);
    lemma_decimal_digits(octet_text(v));
}

/// What is read as an octet is the text of that octet.
pub proof fn lemma_octet_read_is_text(part: Seq<u8>)
    ensures
        match octet_of(part) {
            Some(v) => part == octet_text(v),
            None => true,
        },
{
    reveal(octet_of);
    if octet_of(part) is Some {
        lemma_decimal_digits(part);
        let v = octet_of(part)->Some_0;
        assert(is_digit(part[0]));
        if part.len() >= 2 {
            assert(is_digit(part[1]));
        }
        if part.len() == 3 {
            assert(is_digit(part[2]));
        }
        assert(part =~= octet_text(v));
    }
}

/// The text of an address is read as the address.
pub proof fn lemma_address_text_reads(addr: u32)
    ensures
        dotted_quad(address_text(addr)) == Some(addr),
{
    let octets = wire32(addr);
    lemma_wire32_value(addr);
    let a = octet_text(octets[0]);
    let b = octet_text(octets[1]);
    let c = octet_text(octets[2]);
    let d = octet_text(octets[3]);
    lemma_octet_text_reads(octets[0]);
    lemma_octet_text_reads(octets[1]);
    lemma_octet_text_reads(octets[2]);
    lemma_octet_text_reads(octets[3]);
    let text = address_text(addr);
    let r1 = b + seq![DOT] + c + seq![DOT] + d;
    let r2 = c + seq![DOT] + d;
    assert(text =~= a + seq![DOT] + r1);
    assert(r1 =~= b + seq![DOT] + r2);
    lemma_label_len(text, a.len() as int);
    assert(text.skip(a.len() as int + 1) =~= r1);
    assert(text.take(a.len() as int) =~= a);
    lemma_label_len(r1, b.len() as int);
    assert(r1.skip(b.len() as int + 1) =~= r2);
    assert(r1.take(b.len() as int) =~= b);
    lemma_label_len(r2, c.len() as int);
    assert(r2.skip(c.len() as int + 1) =~= d);
    assert(r2.take(c.len() as int) =~= c);
    lemma_label_len(d, d.len() as int);
}

/// A name with a dot is its first label, the dot, and the rest.
proof fn lemma_split_at_dot(text: Seq<u8>)
    requires
        label_len(text) < text.len(),
    ensures
        text
            == text.take(label_len(text) as int) + seq![DOT] + text.skip(label_len(text) as int + 1),
{
    lemma_label_len_bounds(text);
    let n = label_len(text) as int;
    assert(text =~= text.take(n) + seq![DOT] + text.skip(n + 1));
}

/// Four parts with a separator between them are the same bytes whether they
/// are put together from the front or from the back.
proof fn lemma_four_parts(a: Seq<u8>, b: Seq<u8>, c: Seq<u8>, d: Seq<u8>, dot: Seq<u8>)
    ensures
        a + dot + (b + dot + (c + dot + d)) == a + dot + b + dot + c + dot + d,
{
    assert(a + dot + (b + dot + (c + dot + d)) =~= a + dot + b + dot + c + dot + d);
}

/// A text that splits into four parts is those parts with dots between
/// them.
proof fn lemma_split_quad_joins(text: Seq<u8>)
    ensures
        match split_quad(text) {
            Some((a, b, c, d)) => text == a + seq![DOT] + b + seq![DOT] + c + seq![DOT] + d,
            None => true,
        },
{
    if split_quad(text) is Some {
        let n0 = label_len(text) as int;
        let r1 = text.skip(n0 + 1);
        let n1 = label_len(r1) as int;
        let r2 = r1.skip(n1 + 1);
        let n2 = label_len(r2) as int;
        let r3 = r2.skip(n2 + 1);
        lemma_split_at_dot(text);
        lemma_split_at_dot(r1);
        lemma_split_at_dot(r2);
        lemma_four_parts(text.take(n0), r1.take(n1), r2.take(n2), r3, seq![DOT]);
    }
}

/// What is read as an address is the text of that address: only the text of
/// an address is read as one.
pub proof fn lemma_address_read_is_text(text: Seq<u8>)
    ensures
        match dotted_quad(text) {
            Some(addr) => text == address_text(addr),
            None => true,
        },
{
    match split_quad(text) {
        Some((first, second, third, fourth)) => {
            lemma_split_quad_joins(text);
            lemma_octet_read_is_text(first);
            lemma_octet_read_is_text(second);
            lemma_octet_read_is_text(third);
            lemma_octet_read_is_text(fourth);
            match (octet_of(first), octet_of(second), octet_of(third), octet_of(fourth)) {
                (Some(a), Some(b), Some(c), Some(d)) => {
                    lemma_octets_of_address(a, b, c, d);
                },
                _ => {},
            }
        },
        None => {},
    }
}

/// The octets of the address that four octets make are those octets.
proof fn lemma_octets_of_address(a: u8, b: u8, c: u8, d: u8)
    ensures
        wire32(be32(a, b, c, d)) == seq![a, b, c, d],
{
    let low = b * 65536 + c * 256 + d;
    let v = a * 16777216 + low;
    assert(0 <= low < 16777216);
    assert(v / 16777216 == a && v % 16777216 == low) by (nonlinear_arith)
        requires
            v == a * 16777216 + low,
            0 <= low < 16777216,
    ;
    let mid = c * 256 + d;
    assert(v / 65536 == a * 256 + b && v % 65536 == mid) by (nonlinear_arith)
        requires
            v == (a * 256 + b) * 65536 + mid,
            0 <= mid < 65536,
    ;
    assert(v / 256 == a * 65536 + b * 256 + c && v % 256 == d) by (nonlinear_arith)
        requires
            v == (a * 65536 + b * 256 + c) * 256 + d,
            0 <= d < 256,
    ;
    assert(be32(a, b, c, d) == v);
    assert(wire32(be32(a, b, c, d)) =~= seq![a, b, c, d]);
}

} // verus!
