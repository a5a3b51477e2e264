use wildcard_dns::dns::buffer::PacketBuffer;
use wildcard_dns::dns::error::ProtocolError;
use wildcard_dns::dns::name::encode_name;

#[test]
fn read_scalars_are_big_endian() {
    let mut buffer = PacketBuffer::from_bytes(vec![0x12, 0x34, 0x56, 0x78, 0x9a, 0xbc, 0xde]);
    assert_eq!(buffer.read_u8(), Ok(0x12));
    assert_eq!(buffer.read_u16(), Ok(0x3456));
    assert_eq!(buffer.read_u32(), Ok(0x789a_bcde));
    assert_eq!(buffer.pos(), 7);
}

#[test]
fn read_past_the_end_fails_and_keeps_the_cursor() {
    let mut buffer = PacketBuffer::from_bytes(vec![1, 2, 3]);
    assert_eq!(buffer.read_u32(), Err(ProtocolError::EndOfBuffer));
    assert_eq!(buffer.pos(), 0);
    assert_eq!(buffer.read_u16(), Ok(0x0102));
    assert_eq!(buffer.read_u16(), Err(ProtocolError::EndOfBuffer));
    assert_eq!(buffer.pos(), 2);
    assert_eq!(buffer.read_u8(), Ok(3));
    assert_eq!(buffer.read_u8(), Err(ProtocolError::EndOfBuffer));
    assert_eq!(buffer.pos(), 3);
}

#[test]
fn write_scalars_are_big_endian() {
    let mut buffer = PacketBuffer::with_limit(16);
    assert_eq!(buffer.write_u8(0xab), Ok(()));
    assert_eq!(buffer.write_u16(0x0102), Ok(()));
    assert_eq!(buffer.write_u32(0xdead_beef), Ok(()));
    assert_eq!(buffer.as_slice(), &[0xab, 0x01, 0x02, 0xde, 0xad, 0xbe, 0xef]);
    assert_eq!(buffer.pos(), 7);
    assert_eq!(buffer.len(), 7);
    assert_eq!(buffer.limit(), 16);
}

#[test]
fn write_past_the_limit_fails_and_writes_nothing() {
    let mut buffer = PacketBuffer::with_limit(3);
    assert_eq!(buffer.write_u16(0x0102), Ok(()));
    assert_eq!(buffer.write_u16(0x0304), Err(ProtocolError::EndOfBuffer));
    assert_eq!(buffer.write_u32(1), Err(ProtocolError::EndOfBuffer));
    assert_eq!(buffer.as_slice(), &[1, 2]);
    assert_eq!(buffer.pos(), 2);
    assert_eq!(buffer.write_u8(5), Ok(()));
    assert_eq!(buffer.write_u8(6), Err(ProtocolError::EndOfBuffer));
    assert_eq!(buffer.as_slice(), &[1, 2, 5]);
}

#[test]
fn fixed_buffer_is_overwritten_in_place_and_does_not_grow() {
    let mut buffer = PacketBuffer::from_bytes(vec![9, 9, 9, 9]);
    assert_eq!(buffer.seek(1), Ok(()));
    assert_eq!(buffer.write_u16(0x0a0b), Ok(()));
    assert_eq!(buffer.as_slice(), &[9, 0x0a, 0x0b, 9]);
    assert_eq!(buffer.write_u16(0x0c0d), Err(ProtocolError::EndOfBuffer));
    assert_eq!(buffer.as_slice(), &[9, 0x0a, 0x0b, 9]);
    assert_eq!(buffer.pos(), 3);
}

#[test]
fn write_all_over_the_end_replaces_and_extends() {
    let mut buffer = PacketBuffer::with_limit(8);
    assert_eq!(buffer.write_all(&[1, 2, 3]), Ok(()));
    assert_eq!(buffer.seek(2), Ok(()));
    assert_eq!(buffer.write_all(&[7, 8, 9]), Ok(()));
    assert_eq!(buffer.as_slice(), &[1, 2, 7, 8, 9]);
    assert_eq!(buffer.pos(), 5);
    assert_eq!(buffer.write_all(&[0, 0, 0, 0]), Err(ProtocolError::EndOfBuffer));
    assert_eq!(buffer.as_slice(), &[1, 2, 7, 8, 9]);
}

#[test]
fn seek_get_and_get_range_check_their_bounds() {
    let mut buffer = PacketBuffer::from_bytes(vec![10, 20, 30, 40]);
    assert_eq!(buffer.get(0), Ok(10));
    assert_eq!(buffer.get(3), Ok(40));
    assert_eq!(buffer.get(4), Err(ProtocolError::EndOfBuffer));
    assert_eq!(buffer.get_range(1, 2), Ok(vec![20, 30]));
    assert_eq!(buffer.get_range(0, 4), Ok(vec![10, 20, 30, 40]));
    assert_eq!(buffer.get_range(4, 0), Ok(vec![]));
    assert_eq!(buffer.get_range(2, 3), Err(ProtocolError::EndOfBuffer));
    assert_eq!(buffer.get_range(5, 0), Err(ProtocolError::EndOfBuffer));
    assert_eq!(buffer.get_range(1, usize::MAX), Err(ProtocolError::EndOfBuffer));
    assert_eq!(buffer.pos(), 0);
    assert_eq!(buffer.seek(4), Ok(()));
    assert_eq!(buffer.pos(), 4);
    assert_eq!(buffer.seek(5), Err(ProtocolError::EndOfBuffer));
    assert_eq!(buffer.pos(), 4);
}

#[test]
fn encode_name_writes_labels_behind_their_lengths() {
    assert_eq!(
        encode_name(b"www.example.com"),
        Ok(vec![
            3, b'w', b'w', b'w', 7, b'e', b'x', b'a', b'm', b'p', b'l', b'e', 3, b'c', b'o', b'm', 0
        ])
    );
    assert_eq!(encode_name(b""), Ok(vec![0]));
    assert_eq!(encode_name(b"a"), Ok(vec![1, b'a', 0]));
    assert_eq!(encode_name(b"a."), Ok(vec![1, b'a', 0]));
    assert_eq!(encode_name(b"a..b"), Ok(vec![1, b'a', 0, 1, b'b', 0]));
}

#[test]
fn encode_name_rejects_a_label_of_64_bytes() {
    let long = vec![b'x'; 64];
    assert_eq!(encode_name(&long), Err(ProtocolError::LabelTooLong));
    let ok = vec![b'x'; 63];
    let mut expected = vec![63u8];
    expected.extend_from_slice(&ok);
    expected.push(0);
    assert_eq!(encode_name(&ok), Ok(expected));
    let mut second = b"ok.".to_vec();
    second.extend_from_slice(&long);
    assert_eq!(encode_name(&second), Err(ProtocolError::LabelTooLong));
}

#[test]
fn write_qname_then_read_qname_gives_the_name_back() {
    let mut buffer = PacketBuffer::with_limit(64);
    assert_eq!(buffer.write_qname(b"10-0-0-1.example.com"), Ok(()));
    assert_eq!(buffer.pos(), 22);
    assert_eq!(buffer.seek(0), Ok(()));
    assert_eq!(buffer.read_qname(), Ok(b"10-0-0-1.example.com".to_vec()));
    assert_eq!(buffer.pos(), 22);
}

#[test]
fn write_qname_fails_whole() {
    let mut buffer = PacketBuffer::with_limit(5);
    assert_eq!(buffer.write_qname(b"abcdef"), Err(ProtocolError::EndOfBuffer));
    assert_eq!(buffer.len(), 0);
    assert_eq!(buffer.pos(), 0);
    let long = vec![b'x'; 64];
    assert_eq!(buffer.write_qname(&long), Err(ProtocolError::LabelTooLong));
    assert_eq!(buffer.len(), 0);
    assert_eq!(buffer.write_qname(b"abc"), Ok(()));
    assert_eq!(buffer.as_slice(), &[3, b'a', b'b', b'c', 0]);
}

#[test]
fn read_qname_of_the_root_is_empty() {
    let mut buffer = PacketBuffer::from_bytes(vec![0, 0xff]);
    assert_eq!(buffer.read_qname(), Ok(vec![]));
    assert_eq!(buffer.pos(), 1);
}

#[test]
fn compressed_name_reads_as_the_name_written_out() {
    // offset 0: "example.com" written out; offset 13: "www" and a pointer to 0
    let mut bytes = vec![7, b'e', b'x', b'a', b'm', b'p', b'l', b'e', 3, b'c', b'o', b'm', 0];
    bytes.extend_from_slice(&[3, b'w', b'w', b'w', 0xc0, 0x00]);
    // offset 19: a bare pointer to 0; offset 21: "www.example.com" written out
    bytes.extend_from_slice(&[0xc0, 0x00]);
    bytes.extend_from_slice(&[
        3, b'w', b'w', b'w', 7, b'e', b'x', b'a', b'm', b'p', b'l', b'e', 3, b'c', b'o', b'm', 0,
    ]);
    let mut buffer = PacketBuffer::from_bytes(bytes);
    assert_eq!(buffer.read_qname(), Ok(b"example.com".to_vec()));
    assert_eq!(buffer.pos(), 13);
    assert_eq!(buffer.read_qname(), Ok(b"www.example.com".to_vec()));
    assert_eq!(buffer.pos(), 19);
    assert_eq!(buffer.read_qname(), Ok(b"example.com".to_vec()));
    assert_eq!(buffer.pos(), 21);
    assert_eq!(buffer.read_qname(), Ok(b"www.example.com".to_vec()));
    assert_eq!(buffer.pos(), 38);
}

#[test]
fn pointer_offset_uses_fourteen_bits() {
    let mut bytes = vec![0u8; 0x0123];
    bytes[0] = 0xc1;
    bytes[1] = 0x20;
    bytes[0x0120] = 1;
    bytes[0x0121] = b'z';
    bytes[0x0122] = 0;
    let mut buffer = PacketBuffer::from_bytes(bytes);
    assert_eq!(buffer.read_qname(), Ok(b"z".to_vec()));
    assert_eq!(buffer.pos(), 2);
}

#[test]
fn self_referential_pointer_fails() {
    let mut buffer = PacketBuffer::from_bytes(vec![0xc0, 0x00]);
    assert_eq!(buffer.read_qname(), Err(ProtocolError::TooManyJumps));
    assert_eq!(buffer.pos(), 0);
}

#[test]
fn mutually_referential_pointers_fail() {
    let mut buffer = PacketBuffer::from_bytes(vec![0xc0, 0x02, 0xc0, 0x00]);
    assert_eq!(buffer.read_qname(), Err(ProtocolError::TooManyJumps));
    assert_eq!(buffer.seek(2), Ok(()));
    assert_eq!(buffer.read_qname(), Err(ProtocolError::TooManyJumps));
    assert_eq!(buffer.pos(), 2);
}

#[test]
fn five_pointers_in_a_chain_are_followed_and_six_are_not() {
    // offset 0: "a"; pointers at 3 -> 0, 5 -> 3, 7 -> 5, 9 -> 7, 11 -> 9, 13 -> 11
    let bytes = vec![
        1, b'a', 0, 0xc0, 0, 0xc0, 3, 0xc0, 5, 0xc0, 7, 0xc0, 9, 0xc0, 11,
    ];
    let mut buffer = PacketBuffer::from_bytes(bytes);
    assert_eq!(buffer.seek(11), Ok(()));
    assert_eq!(buffer.read_qname(), Ok(b"a".to_vec()));
    assert_eq!(buffer.pos(), 13);
    assert_eq!(buffer.read_qname(), Err(ProtocolError::TooManyJumps));
    assert_eq!(buffer.pos(), 13);
}

#[test]
fn label_that_leaves_the_buffer_fails() {
    let mut buffer = PacketBuffer::from_bytes(vec![5, b'a', b'b']);
    assert_eq!(buffer.read_qname(), Err(ProtocolError::EndOfBuffer));
    let mut buffer = PacketBuffer::from_bytes(vec![2, b'a', b'b']);
    assert_eq!(buffer.read_qname(), Err(ProtocolError::EndOfBuffer));
    let mut buffer = PacketBuffer::from_bytes(vec![0xc0]);
    assert_eq!(buffer.read_qname(), Err(ProtocolError::EndOfBuffer));
    let mut buffer = PacketBuffer::from_bytes(vec![0xc0, 0x09, 0]);
    assert_eq!(buffer.read_qname(), Err(ProtocolError::EndOfBuffer));
    let mut buffer = PacketBuffer::from_bytes(vec![]);
    assert_eq!(buffer.read_qname(), Err(ProtocolError::EndOfBuffer));
}

#[test]
fn length_byte_between_64_and_191_is_malformed() {
    let mut bytes = vec![64u8];
    bytes.extend_from_slice(&[b'a'; 64]);
    bytes.push(0);
    let mut buffer = PacketBuffer::from_bytes(bytes);
    assert_eq!(buffer.read_qname(), Err(ProtocolError::Malformed));
    let mut buffer = PacketBuffer::from_bytes(vec![0x80, 0x00, 0]);
    assert_eq!(buffer.read_qname(), Err(ProtocolError::Malformed));
    let mut buffer = PacketBuffer::from_bytes(vec![0xbf, 0x00, 0]);
    assert_eq!(buffer.read_qname(), Err(ProtocolError::Malformed));
}
