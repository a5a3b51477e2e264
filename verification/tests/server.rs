use wildcard_dns::dns::buffer::PacketBuffer;
use wildcard_dns::dns::error::ProtocolError;
use wildcard_dns::dns::protocol::{DnsPacket, DnsQuestion, DnsRecord, QueryType, ResultCode};
use wildcard_dns::dns::ttl::TransientTtl;
use wildcard_dns::dns::zone::Zone;
use wildcard_dns::server::Server;

fn example_server() -> Server {
    Server::new(vec![
        Zone::new("example.com", "ns.example.com", "hostmaster.example.com"),
        Zone::new("sub.example.com", "ns.sub.example.com", "hostmaster.sub.example.com"),
        Zone::new("example.net", "ns.example.net", "hostmaster.example.net"),
    ])
}

fn request(id: u16, name: &[u8], qtype: QueryType) -> DnsPacket {
    let mut packet = DnsPacket::new();
    packet.header.id = id;
    packet.questions.push(DnsQuestion::new(name.to_vec(), qtype));
    packet
}

fn assert_reply_header(reply: &DnsPacket, id: u16, rescode: ResultCode) {
    assert_eq!(reply.header.id, id);
    assert!(reply.header.response);
    assert!(reply.header.authoritative_answer);
    assert!(!reply.header.recursion_available);
    assert!(!reply.header.recursion_desired);
    assert!(!reply.header.truncated_message);
    assert_eq!(reply.header.opcode, 0);
    assert_eq!(reply.header.rescode, rescode);
}

#[test]
fn wildcard_name_resolves_to_its_address() {
    let server = example_server();
    let reply = server.query(&request(77, b"10-0-0-1.example.com", QueryType::A));
    assert_reply_header(&reply, 77, ResultCode::NOERROR);
    assert_eq!(reply.questions, vec![DnsQuestion::new(b"10-0-0-1.example.com".to_vec(), QueryType::A)]);
    assert_eq!(reply.answers.len(), 1);
    match &reply.answers[0] {
        DnsRecord::A { domain, addr, ttl } => {
            assert_eq!(domain, &b"10-0-0-1.example.com".to_vec());
            assert_eq!(*addr, 0x0a00_0001);
            assert_eq!(ttl.0, 3600);
        }
        other => panic!("not an A record: {:?}", other),
    }
    assert!(reply.authorities.is_empty());
    assert!(reply.resources.is_empty());
}

#[test]
fn deeper_name_is_nxdomain_with_the_soa_record() {
    let server = Server::new(vec![Zone::new("example.com", "ns.example.com", "hostmaster.example.com")]);
    let reply = server.query(&request(5, b"sub.deeper.example.com", QueryType::A));
    assert_reply_header(&reply, 5, ResultCode::NXDOMAIN);
    assert_eq!(reply.questions.len(), 1);
    assert!(reply.answers.is_empty());
    assert_eq!(reply.authorities.len(), 1);
    match &reply.authorities[0] {
        DnsRecord::SOA { domain, m_name, r_name, serial, refresh, retry, expire, minimum, ttl } => {
            assert_eq!(domain, &b"example.com".to_vec());
            assert_eq!(m_name, &b"ns.example.com".to_vec());
            assert_eq!(r_name, &b"hostmaster.example.com".to_vec());
            assert_eq!((*serial, *refresh, *retry, *expire, *minimum), (0, 3600, 3600, 3600, 3600));
            assert_eq!(ttl.0, 3600);
        }
        other => panic!("not an SOA record: {:?}", other),
    }
    assert!(reply.resources.is_empty());
}

#[test]
fn recursion_desired_is_refused_whatever_is_asked() {
    let server = example_server();
    let mut asked = request(9, b"10-0-0-1.example.com", QueryType::A);
    asked.header.recursion_desired = true;
    let mut empty = DnsPacket::new();
    empty.header.id = 9;
    empty.header.recursion_desired = true;
    let mut outside = request(9, b"example.org", QueryType::SOA);
    outside.header.recursion_desired = true;
    for req in [asked, empty, outside] {
        let reply = server.query(&req);
        assert_reply_header(&reply, 9, ResultCode::REFUSED);
        assert!(reply.questions.is_empty());
        assert!(reply.answers.is_empty());
        assert!(reply.authorities.is_empty());
        assert!(reply.resources.is_empty());
    }
}

#[test]
fn request_without_question_is_a_format_error() {
    let server = example_server();
    let mut req = DnsPacket::new();
    req.header.id = 0xffff;
    req.answers.push(DnsRecord::A { domain: b"1-1-1-1.example.com".to_vec(), addr: 1, ttl: TransientTtl(1) });
    let reply = server.query(&req);
    assert_reply_header(&reply, 0xffff, ResultCode::FORMERR);
    assert!(reply.questions.is_empty());
    assert!(reply.answers.is_empty());
    assert!(reply.authorities.is_empty());
}

#[test]
fn name_outside_every_zone_is_refused() {
    let server = example_server();
    let reply = server.query(&request(3, b"10-0-0-1.example.org", QueryType::A));
    assert_reply_header(&reply, 3, ResultCode::REFUSED);
    assert_eq!(reply.questions, vec![DnsQuestion::new(b"10-0-0-1.example.org".to_vec(), QueryType::A)]);
    assert!(reply.answers.is_empty());
    assert!(reply.authorities.is_empty());
    let none = Server::new(Vec::new());
    let reply = none.query(&request(3, b"10-0-0-1.example.com", QueryType::A));
    assert_reply_header(&reply, 3, ResultCode::REFUSED);
    assert_eq!(reply.questions.len(), 1);
}

#[test]
fn first_matching_zone_answers() {
    let server = example_server();
    // in both example.com and sub.example.com: the first answers, for which the name is too deep
    let reply = server.query(&request(1, b"10-0-0-1.sub.example.com", QueryType::A));
    assert_reply_header(&reply, 1, ResultCode::NXDOMAIN);
    assert_eq!(reply.authorities, vec![Zone::new("example.com", "ns.example.com", "hostmaster.example.com").get_soa_record()]);
    let reply = server.query(&request(1, b"anything.sub.example.com", QueryType::SOA));
    assert_reply_header(&reply, 1, ResultCode::NOERROR);
    assert_eq!(reply.answers, vec![Zone::new("example.com", "ns.example.com", "hostmaster.example.com").get_soa_record()]);
    let reversed = Server::new(vec![
        Zone::new("sub.example.com", "ns.sub.example.com", "hostmaster.sub.example.com"),
        Zone::new("example.com", "ns.example.com", "hostmaster.example.com"),
    ]);
    let reply = reversed.query(&request(1, b"10-0-0-1.sub.example.com", QueryType::A));
    assert_reply_header(&reply, 1, ResultCode::NOERROR);
    assert_eq!(reply.answers.len(), 1);
    let reply = server.query(&request(1, b"7-7-7-7.example.net", QueryType::A));
    assert_reply_header(&reply, 1, ResultCode::NOERROR);
    assert_eq!(
        reply.answers,
        vec![DnsRecord::A { domain: b"7-7-7-7.example.net".to_vec(), addr: 0x0707_0707, ttl: TransientTtl(3600) }]
    );
}

#[test]
fn suffix_match_ignores_label_boundaries() {
    let server = example_server();
    let reply = server.query(&request(2, b"evilexample.com", QueryType::A));
    assert_reply_header(&reply, 2, ResultCode::NXDOMAIN);
    assert_eq!(reply.authorities.len(), 1);
    let reply = server.query(&request(2, b"1-2-3-4.evilexample.com", QueryType::A));
    assert_reply_header(&reply, 2, ResultCode::NXDOMAIN);
}

#[test]
fn other_query_types_are_nxdomain() {
    let server = example_server();
    for qtype in [QueryType::AAAA, QueryType::MX, QueryType::TXT, QueryType::NS, QueryType::UNKNOWN(255)] {
        let reply = server.query(&request(4, b"10-0-0-1.example.com", qtype));
        assert_reply_header(&reply, 4, ResultCode::NXDOMAIN);
        assert!(reply.answers.is_empty());
        assert_eq!(reply.authorities.len(), 1);
    }
}

#[test]
fn only_the_first_question_is_answered() {
    let server = example_server();
    let mut req = request(8, b"10-0-0-1.example.com", QueryType::A);
    req.questions.push(DnsQuestion::new(b"10-0-0-2.example.com".to_vec(), QueryType::A));
    req.questions.push(DnsQuestion::new(b"example.org".to_vec(), QueryType::A));
    let reply = server.query(&req);
    assert_reply_header(&reply, 8, ResultCode::NOERROR);
    assert_eq!(reply.questions, vec![DnsQuestion::new(b"10-0-0-1.example.com".to_vec(), QueryType::A)]);
    assert_eq!(reply.answers.len(), 1);
}

#[test]
fn record_outcome_enters_each_outcome() {
    let zone = Zone::new("example.com", "ns.example.com", "hostmaster.example.com");
    let record = DnsRecord::A { domain: b"x.example.com".to_vec(), addr: 9, ttl: TransientTtl(3600) };

    let mut reply = DnsPacket::new();
    reply.header.rescode = ResultCode::REFUSED;
    Server::record_outcome(&mut reply, &zone, Ok(Some(record.clone())));
    assert_eq!(reply.header.rescode, ResultCode::NOERROR);
    assert_eq!(reply.answers, vec![record]);
    assert!(reply.authorities.is_empty());

    let mut reply = DnsPacket::new();
    Server::record_outcome(&mut reply, &zone, Ok(None));
    assert_eq!(reply.header.rescode, ResultCode::NXDOMAIN);
    assert!(reply.answers.is_empty());
    assert_eq!(reply.authorities, vec![zone.get_soa_record()]);

    for code in [ResultCode::SERVFAIL, ResultCode::NOTIMP, ResultCode::FORMERR] {
        let mut reply = DnsPacket::new();
        Server::record_outcome(&mut reply, &zone, Err(code));
        assert_eq!(reply.header.rescode, code);
        assert!(reply.answers.is_empty());
        assert!(reply.authorities.is_empty());
        assert!(reply.resources.is_empty());
    }
}

#[test]
fn handle_answers_a_datagram_with_a_datagram() {
    let server = example_server();
    let req = request(0xabcd, b"192-168-0-1.example.com", QueryType::A);
    let (datagram, _) = req.to_bytes(512, 512).unwrap();
    let response = server.handle(datagram).unwrap();
    let mut expected = vec![0xab, 0xcd, 0x84, 0x00, 0, 1, 0, 1, 0, 0, 0, 0];
    let name = [
        11, b'1', b'9', b'2', b'-', b'1', b'6', b'8', b'-', b'0', b'-', b'1', 7, b'e', b'x', b'a',
        b'm', b'p', b'l', b'e', 3, b'c', b'o', b'm', 0,
    ];
    expected.extend_from_slice(&name);
    expected.extend_from_slice(&[0, 1, 0, 1]);
    expected.extend_from_slice(&name);
    expected.extend_from_slice(&[0, 1, 0, 1, 0, 0, 0x0e, 0x10, 0, 4, 192, 168, 0, 1]);
    assert_eq!(response, expected);

    let mut buffer = PacketBuffer::from_bytes(response);
    let reply = DnsPacket::from_buffer(&mut buffer).unwrap();
    assert_reply_header(&reply, 0xabcd, ResultCode::NOERROR);
}

#[test]
fn handle_answers_nothing_to_a_bad_datagram() {
    let server = example_server();
    assert_eq!(server.handle(Vec::new()), Err(ProtocolError::EndOfBuffer));
    assert_eq!(server.handle(vec![0; 11]), Err(ProtocolError::EndOfBuffer));
    let mut looped = vec![0u8; 12];
    looped[5] = 1;
    looped.extend_from_slice(&[0xc0, 12, 0, 1, 0, 1]);
    assert_eq!(server.handle(looped), Err(ProtocolError::TooManyJumps));
    let mut bad_code = vec![0u8; 12];
    bad_code[3] = 0x0f;
    assert_eq!(server.handle(bad_code), Err(ProtocolError::Malformed));
    let mut label = vec![0u8; 12];
    label[5] = 1;
    label.extend_from_slice(&[0x40, 0, 0, 1, 0, 1]);
    assert_eq!(server.handle(label), Err(ProtocolError::Malformed));
}

#[test]
fn handle_replies_to_requests_it_refuses() {
    let server = example_server();
    let mut req = request(0x0102, b"10-0-0-1.example.com", QueryType::A);
    req.header.recursion_desired = true;
    let (datagram, _) = req.to_bytes(512, 512).unwrap();
    assert_eq!(server.handle(datagram), Ok(vec![1, 2, 0x84, 0x05, 0, 0, 0, 0, 0, 0, 0, 0]));
    assert_eq!(server.handle(vec![0; 12]), Ok(vec![0, 0, 0x84, 0x01, 0, 0, 0, 0, 0, 0, 0, 0]));
}

#[test]
fn handle_reads_compressed_requests() {
    let server = example_server();
    // two questions; the second is "www" and a pointer into the first
    let mut datagram = vec![0, 9, 0, 0, 0, 2, 0, 0, 0, 0, 0, 0];
    datagram.extend_from_slice(&[7, b'1', b'-', b'2', b'-', b'3', b'-', b'4', 7, b'e', b'x', b'a', b'm', b'p', b'l', b'e', 3, b'c', b'o', b'm', 0, 0, 1, 0, 1]);
    datagram.extend_from_slice(&[3, b'w', b'w', b'w', 0xc0, 20, 0, 1, 0, 1]);
    let mut buffer = PacketBuffer::from_bytes(datagram.clone());
    let req = DnsPacket::from_buffer(&mut buffer).unwrap();
    assert_eq!(req.questions[0].name, b"1-2-3-4.example.com".to_vec());
    assert_eq!(req.questions[1].name, b"www.example.com".to_vec());
    let response = server.handle(datagram).unwrap();
    let mut buffer = PacketBuffer::from_bytes(response);
    let reply = DnsPacket::from_buffer(&mut buffer).unwrap();
    assert_reply_header(&reply, 9, ResultCode::NOERROR);
    assert_eq!(
        reply.answers,
        vec![DnsRecord::A { domain: b"1-2-3-4.example.com".to_vec(), addr: 0x0102_0304, ttl: TransientTtl(3600) }]
    );
}
