//! Big-endian integers as they stand on the wire.

use vstd::prelude::*;

verus! {

/// The 16-bit value of two bytes in network order.
pub open spec fn be16(hi: u8, lo: u8) -> u16 {
    (hi * 256 + lo) as u16
}

/// The 32-bit value of four bytes in network order.
pub open spec fn be32(b0: u8, b1: u8, b2: u8, b3: u8) -> u32 {
    (b0 * 16777216 + b1 * 65536 + b2 * 256 + b3) as u32
}

/// The two bytes of a 16-bit value, most significant first.
pub open spec fn wire16(v: u16) -> Seq<u8> {
    seq![(v / 256) as u8, (v % 256) as u8]
}

/// The four bytes of a 32-bit value, most significant first.
pub open spec fn wire32(v: u32) -> Seq<u8> {
    seq![
        (v / 16777216) as u8,
        ((v / 65536) % 256) as u8,
        ((v / 256) % 256) as u8,
        (v % 256) as u8,
    ]
}

/// Reading back the bytes of a 16-bit value gives the value.
pub proof fn lemma_wire16_value(v: u16)
    ensures
        wire16(v).len() == 2,
        be16(wire16(v)[0], wire16(v)[1]) == v,
{
}

/// Reading back the bytes of a 32-bit value gives the value.
pub proof fn lemma_wire32_value(v: u32)
    ensures
        wire32(v).len() == 4,
        be32(wire32(v)[0], wire32(v)[1], wire32(v)[2], wire32(v)[3]) == v,
{
}

/// The 128-bit value of four 32-bit words, most significant first.
pub open spec fn be128(w0: u32, w1: u32, w2: u32, w3: u32) -> u128 {
    (((w0 * 0x1_0000_0000 + w1) * 0x1_0000_0000 + w2) * 0x1_0000_0000 + w3) as u128
}

/// The four 32-bit words of a 128-bit value, most significant first.
pub open spec fn words128(v: u128) -> (u32, u32, u32, u32) {
    let q1 = v / 0x1_0000_0000;
    let q2 = q1 / 0x1_0000_0000;
    (
        (q2 / 0x1_0000_0000) as u32,
        (q2 % 0x1_0000_0000) as u32,
        (q1 % 0x1_0000_0000) as u32,
        (v % 0x1_0000_0000) as u32,
    )
}

/// The sixteen bytes of a 128-bit value, most significant first.
pub open spec fn wire128(v: u128) -> Seq<u8> {
    let w = words128(v);
    wire32(w.0) + wire32(w.1) + wire32(w.2) + wire32(w.3)
}

/// Putting the words of a 128-bit value together again gives the value.
pub proof fn lemma_words128_value(v: u128)
    ensures
        be128(words128(v).0, words128(v).1, words128(v).2, words128(v).3) == v,
        wire128(v).len() == 16,
{
}

/// Appends the two bytes of `v`, most significant first.
pub fn push_u16(out: &mut Vec<u8>, v: u16)
    ensures
        final(out)@ == old(out)@ + wire16(v),
{
    out.push((v / 256) as u8);
    out.push((v % 256) as u8);
    assert(out@ =~= old(out)@ + wire16(v));
}

/// Appends the four bytes of `v`, most significant first.
pub fn push_u32(out: &mut Vec<u8>, v: u32)
    ensures
        final(out)@ == old(out)@ + wire32(v),
{
    out.push((v / 16777216) as u8);
    out.push(((v / 65536) % 256) as u8);
    out.push(((v / 256) % 256) as u8);
    out.push((v % 256) as u8);
    assert(out@ =~= old(out)@ + wire32(v));
}

/// Appends the sixteen bytes of `v`, most significant first.
pub fn push_u128(out: &mut Vec<u8>, v: u128)
    ensures
        final(out)@ == old(out)@ + wire128(v),
{
    let q1: u128 = v / 0x1_0000_0000;
    let q2: u128 = q1 / 0x1_0000_0000;
    push_u32(out, (q2 / 0x1_0000_0000) as u32);
    push_u32(out, (q2 % 0x1_0000_0000) as u32);
    push_u32(out, (q1 % 0x1_0000_0000) as u32);
    push_u32(out, (v % 0x1_0000_0000) as u32);
    assert(out@ =~= old(out)@ + wire128(v));
}

/// A copy of `bytes`.
pub fn copy_bytes(bytes: &[u8]) -> (copy: Vec<u8>)
    ensures
        copy@ == bytes@,
{
    let mut copy: Vec<u8> = Vec::new();
    let mut i: usize = 0;
    while i < bytes.len()
        invariant
            i <= bytes@.len(),
            copy@ == bytes@.take(i as int),
        decreases bytes@.len() - i,
    {
        copy.push(bytes[i]);
        i = i + 1;
        assert(copy@ =~= bytes@.take(i as int));
    }
    assert(bytes@.take(bytes@.len() as int) =~= bytes@);
    copy
}

/// Whether the bytes of `text` from `from` on are those of `other`.
pub fn tail_equals(text: &[u8], from: usize, other: &[u8]) -> (r: bool)
    requires
        from <= text@.len(),
    ensures
        r == (text@.skip(from as int) == other@),
{
    if text.len() - from != other.len() {
        return false;
    }
    let mut i: usize = 0;
    while i < other.len()
        invariant
            i <= other@.len(),
            from + other@.len() == text@.len() <= usize::MAX,
            forall|j: int| 0 <= j < i ==> text@[from + j] == other@[j],
        decreases other@.len() - i,
    {
        if text[from + i] != other[i] {
            assert(text@.skip(from as int)[i as int] != other@[i as int]);
            return false;
        }
        i = i + 1;
    }
    assert(text@.skip(from as int) =~= other@);
    true
}

/// Whether `a` and `b` hold the same bytes.
pub fn bytes_equal(a: &[u8], b: &[u8]) -> (r: bool)
    ensures
        r == (a@ == b@),
{
    assert(a@.skip(0) =~= a@);
    tail_equals(a, 0, b)
}

} // verus!
