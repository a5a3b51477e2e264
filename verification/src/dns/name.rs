//! Domain names: the dotted form the library holds, the label form on the
//! wire, and how one is read as the other.

use crate::dns::error::ProtocolError;
use vstd::prelude::*;

verus! {

/// The byte that separates labels in a dotted name.
pub const DOT: u8 = 0x2e;

/// The longest label the wire format can carry.
pub const MAX_LABEL: usize = 63;

/// How many compression pointers one name may follow.
pub const MAX_JUMPS: usize = 5;

/// The smallest length byte that marks a compression pointer.
pub const POINTER_TAG: u8 = 0xc0;

/// The number of bytes before the first dot of `name`, or its length when it
/// holds no dot: the length of its first label.
pub open spec fn label_len(name: Seq<u8>) -> nat
    decreases name.len(),
{
    if name.len() == 0 || name[0] == DOT {
        0
    } else {
        1 + label_len(name.skip(1))
    }
}

/// Every label of `name` can be written: none is longer than `MAX_LABEL`.
pub open spec fn labels_fit(name: Seq<u8>) -> bool
    decreases name.len(),
{
    name.len() == 0 || {
        let n = label_len(name) as int;
        n <= MAX_LABEL && (n >= name.len() || labels_fit(name.skip(n + 1)))
    }
}

/// `name` is the empty name of the root, or labels of 1 to `MAX_LABEL` bytes
/// with one dot between neighbours: the names that the wire form keeps apart.
pub open spec fn valid_name(name: Seq<u8>) -> bool
    decreases name.len(),
{
    name.len() == 0 || {
        let n = label_len(name) as int;
        1 <= n <= MAX_LABEL && (n == name.len() || (n + 1 < name.len() && valid_name(
            name.skip(n + 1),
        )))
    }
}

/// The uncompressed wire form of a dotted name: each label behind its length,
/// then the zero length that ends the name. The empty name is the root.
pub open spec fn name_wire(name: Seq<u8>) -> Seq<u8>
    decreases name.len(),
{
    if name.len() == 0 {
        seq![0u8]
    } else {
        let n = label_len(name) as int;
        seq![n as u8] + name.take(n) + if n < name.len() {
            name_wire(name.skip(n + 1))
        } else {
            seq![0u8]
        }
    }
}

/// Two dotted names put together: a dot stands between them when neither is
/// empty.
pub open spec fn join(head: Seq<u8>, tail: Seq<u8>) -> Seq<u8> {
    if head.len() == 0 {
        tail
    } else if tail.len() == 0 {
        head
    } else {
        head + seq![DOT] + tail
    }
}

/// The offset that the two bytes of a compression pointer name.
pub open spec fn pointer_target(first: u8, second: u8) -> int {
    (first - POINTER_TAG) * 256 + second
}

/// The name that starts at `pos` in `buf`, read with at most `jumps`
/// compression pointers, and the offset behind what stands at `pos`: behind
/// the zero length where the name is written out, behind the first pointer
/// where it is not.
pub open spec fn parse_name(buf: Seq<u8>, pos: int, jumps: nat) -> Result<
    (Seq<u8>, int),
    ProtocolError,
>
    decreases jumps, buf.len() - pos,
{
    if pos < 0 || pos >= buf.len() {
        Err(ProtocolError::EndOfBuffer)
    } else if buf[pos] >= POINTER_TAG {
        if pos + 1 >= buf.len() {
            Err(ProtocolError::EndOfBuffer)
        } else if jumps == 0 {
            Err(ProtocolError::TooManyJumps)
        } else {
            match parse_name(buf, pointer_target(buf[pos], buf[pos + 1]), (jumps - 1) as nat) {
                Ok((name, _)) => Ok((name, pos + 2)),
                Err(e) => Err(e),
            }
        }
    } else if buf[pos] > MAX_LABEL {
        Err(ProtocolError::Malformed)
    } else if buf[pos] == 0 {
        Ok((Seq::empty(), pos + 1))
    } else if pos + 1 + buf[pos] > buf.len() {
        Err(ProtocolError::EndOfBuffer)
    } else {
        match parse_name(buf, pos + 1 + buf[pos], jumps) {
            Ok((rest, end)) => Ok((join(buf.subrange(pos + 1, pos + 1 + buf[pos]), rest), end)),
            Err(e) => Err(e),
        }
    }
}

/// The first label of `name` ends where the first dot stands.
pub proof fn lemma_label_len(name: Seq<u8>, n: int)
    requires
        0 <= n <= name.len(),
        forall|i: int| 0 <= i < n ==> name[i] != DOT,
        n == name.len() || name[n] == DOT,
    ensures
        label_len(name) == n,
    decreases n,
{
    if n > 0 {
        lemma_label_len(name.skip(1), n - 1);
    }
}

/// The first label is a prefix of the name, free of dots, and a dot follows
/// it unless the name ends there.
pub proof fn lemma_label_len_bounds(name: Seq<u8>)
    ensures
        label_len(name) <= name.len(),
        forall|i: int| 0 <= i < label_len(name) ==> name[i] != DOT,
        label_len(name) < name.len() ==> name[label_len(name) as int] == DOT,
    decreases name.len(),
{
    if name.len() == 0 || name[0] == DOT {
    } else {
        let rest = name.skip(1);
        lemma_label_len_bounds(rest);
        assert forall|i: int| 0 <= i < label_len(name) implies name[i] != DOT by {
            if i > 0 {
                assert(name[i] == rest[i - 1]);
            }
        }
        if label_len(name) < name.len() {
            assert(name[label_len(name) as int] == rest[label_len(rest) as int]);
        }
    }
}

/// Joining is associative.
pub proof fn lemma_join_assoc(a: Seq<u8>, b: Seq<u8>, c: Seq<u8>)
    ensures
        join(join(a, b), c) == join(a, join(b, c)),
{
    assert(join(join(a, b), c) =~= join(a, join(b, c)));
}

/// Appends the bytes of `src` from `from` up to `to` to `dst`.
pub fn append_range(dst: &mut Vec<u8>, src: &[u8], from: usize, to: usize)
    requires
        from <= to <= src@.len(),
    ensures
        final(dst)@ == old(dst)@ + src@.subrange(from as int, to as int),
{
    let mut i: usize = from;
    while i < to
        invariant
            from <= i <= to <= src@.len(),
            dst@ == old(dst)@ + src@.subrange(from as int, i as int),
        decreases to - i,
    {
        dst.push(src[i]);
        i = i + 1;
        assert(dst@ =~= old(dst)@ + src@.subrange(from as int, i as int));
    }
}

/// Writes a dotted name out in its uncompressed wire form. It fails, with
/// `LabelTooLong`, exactly when a label has more than `MAX_LABEL` bytes.
pub fn encode_name(name: &[u8]) -> (r: Result<Vec<u8>, ProtocolError>)
    ensures
        match r {
            Ok(wire) => labels_fit(name@) && wire@ == name_wire(name@),
            Err(e) => !labels_fit(name@) && e == ProtocolError::LabelTooLong,
        },
{
    let mut wire: Vec<u8> = Vec::new();
    let mut from: usize = 0;
    assert(name@.skip(0) =~= name@);
    while from < name.len()
        invariant
            from <= name@.len(),
            labels_fit(name@) == labels_fit(name@.skip(from as int)),
            0 < from ==> name@.len() > 0,
            from == 0 ==> wire@.len() == 0,
            0 < from < name@.len() ==> name_wire(name@) == wire@ + name_wire(
                name@.skip(from as int),
            ),
            0 < from == name@.len() ==> name_wire(name@) == wire@,
        decreases name@.len() - from,
    {
        let ghost rest = name@.skip(from as int);
        let mut end: usize = from;
        while end < name.len() && name[end] != DOT
            invariant
                from <= end <= name@.len(),
                forall|i: int| from <= i < end ==> name@[i] != DOT,
            decreases name@.len() - end,
        {
            end = end + 1;
        }
        let n: usize = end - from;
        proof {
            lemma_label_len(rest, n as int);
            assert(rest.take(n as int) =~= name@.subrange(from as int, end as int));
            if end < name@.len() {
                assert(rest.skip(n + 1) =~= name@.skip(end + 1));
            }
            if from == 0 {
                assert(rest =~= name@);
            }
        }
        if n > MAX_LABEL {
            return Err(ProtocolError::LabelTooLong);
        }
        wire.push(n as u8);
        append_range(&mut wire, name, from, end);
        if end == name.len() {
            wire.push(0u8);
            from = end;
            proof {
                assert(name_wire(rest) =~= seq![n as u8] + rest.take(n as int) + seq![0u8]);
                assert(wire@ =~= name_wire(name@));
                assert(labels_fit(name@.skip(from as int)));
            }
        } else {
            from = end + 1;
            proof {
                let tail = name@.skip(from as int);
                assert(name_wire(rest) =~= seq![n as u8] + rest.take(n as int) + name_wire(tail));
                if from == name@.len() {
                    assert(name_wire(tail) =~= seq![0u8]);
                }
            }
            if from == name.len() {
                wire.push(0u8);
            }
        }
    }
    if name.len() == 0 {
        wire.push(0u8);
        assert(wire@ =~= seq![0u8]);
    }
    Ok(wire)
}

} // verus!
