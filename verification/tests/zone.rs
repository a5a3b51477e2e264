use wildcard_dns::dns::address::parse_ipv4;
use wildcard_dns::dns::protocol::{DnsQuestion, DnsRecord, QueryType};
use wildcard_dns::dns::ttl::TransientTtl;
use wildcard_dns::dns::zone::Zone;

fn example_zone() -> Zone {
    Zone::new("example.com", "ns.example.com", "hostmaster.example.com")
}

#[test]
fn parse_ipv4_reads_dotted_decimal() {
    assert_eq!(parse_ipv4(b"10.0.0.1"), Some(0x0a00_0001));
    assert_eq!(parse_ipv4(b"1.2.3.4"), Some(0x0102_0304));
    assert_eq!(parse_ipv4(b"0.0.0.0"), Some(0));
    assert_eq!(parse_ipv4(b"255.255.255.255"), Some(0xffff_ffff));
    assert_eq!(parse_ipv4(b"192.168.100.7"), Some(0xc0a8_6407));
}

#[test]
fn parse_ipv4_rejects_what_is_not_an_address() {
    assert_eq!(parse_ipv4(b""), None);
    assert_eq!(parse_ipv4(b"1.2.3"), None);
    assert_eq!(parse_ipv4(b"1.2.3.4.5"), None);
    assert_eq!(parse_ipv4(b"1.2.3."), None);
    assert_eq!(parse_ipv4(b".1.2.3"), None);
    assert_eq!(parse_ipv4(b"1..2.3"), None);
    assert_eq!(parse_ipv4(b"256.0.0.1"), None);
    assert_eq!(parse_ipv4(b"1.2.3.999"), None);
    assert_eq!(parse_ipv4(b"01.2.3.4"), None);
    assert_eq!(parse_ipv4(b"1.2.3.00"), None);
    assert_eq!(parse_ipv4(b"1.2.3.0004"), None);
    assert_eq!(parse_ipv4(b"a.b.c.d"), None);
    assert_eq!(parse_ipv4(b"1.2.3.4 "), None);
    assert_eq!(parse_ipv4(b"-1.2.3.4"), None);
    assert_eq!(parse_ipv4(b"1.2.3.+4"), None);
}

#[test]
fn in_zone_compares_the_bytes_of_the_suffix() {
    let zone = example_zone();
    assert!(zone.in_zone(b"example.com"));
    assert!(zone.in_zone(b"www.example.com"));
    assert!(zone.in_zone(b"10-0-0-1.example.com"));
    assert!(zone.in_zone(b"evilexample.com"));
    assert!(!zone.in_zone(b"example.org"));
    assert!(!zone.in_zone(b"example.com."));
    assert!(!zone.in_zone(b"xample.com"));
    assert!(!zone.in_zone(b"EXAMPLE.COM"));
    assert!(!zone.in_zone(b""));
}

#[test]
fn soa_record_has_the_fixed_timers() {
    let zone = example_zone();
    match zone.get_soa_record() {
        DnsRecord::SOA { domain, m_name, r_name, serial, refresh, retry, expire, minimum, ttl } => {
            assert_eq!(domain, b"example.com".to_vec());
            assert_eq!(m_name, b"ns.example.com".to_vec());
            assert_eq!(r_name, b"hostmaster.example.com".to_vec());
            assert_eq!(serial, 0);
            assert_eq!(refresh, 3600);
            assert_eq!(retry, 3600);
            assert_eq!(expire, 3600);
            assert_eq!(minimum, 3600);
            assert_eq!(ttl.0, 3600);
        }
        other => panic!("not an SOA record: {:?}", other),
    }
}

#[test]
fn answer_to_soa_is_the_soa_record() {
    let zone = example_zone();
    let question = DnsQuestion::new(b"anything.example.com".to_vec(), QueryType::SOA);
    let answer = zone.answer(&question);
    assert_eq!(answer, Ok(Some(zone.get_soa_record())));
    assert_eq!(answer.unwrap().unwrap().get_ttl(), 3600);
}

#[test]
fn answer_to_a_synthesizes_the_address_in_the_label() {
    let zone = example_zone();
    let question = DnsQuestion::new(b"10-0-0-1.example.com".to_vec(), QueryType::A);
    match zone.answer(&question) {
        Ok(Some(DnsRecord::A { domain, addr, ttl })) => {
            assert_eq!(domain, b"10-0-0-1.example.com".to_vec());
            assert_eq!(addr, 0x0a00_0001);
            assert_eq!(ttl.0, 3600);
        }
        other => panic!("not an A record: {:?}", other),
    }
    let question = DnsQuestion::new(b"192-168-1-255.example.com".to_vec(), QueryType::A);
    assert_eq!(
        zone.answer(&question),
        Ok(Some(DnsRecord::A {
            domain: b"192-168-1-255.example.com".to_vec(),
            addr: 0xc0a8_01ff,
            ttl: TransientTtl(3600),
        }))
    );
}

#[test]
fn answer_to_a_is_empty_where_the_name_is_no_address() {
    let zone = example_zone();
    let names: [&[u8]; 9] = [
        b"sub.deeper.example.com",
        b"10-0-0-1.sub.example.com",
        b"www.example.com",
        b"example.com",
        b"10-0-0.example.com",
        b"10-0-0-256.example.com",
        b"10-0-0-01.example.com",
        b"10-0-0-1evilexample.com",
        b"10.0.0.1.example.com",
    ];
    for name in names {
        if zone.in_zone(name) {
            let question = DnsQuestion::new(name.to_vec(), QueryType::A);
            assert_eq!(zone.answer(&question), Ok(None), "{:?}", name);
        }
    }
}

#[test]
fn answer_to_other_types_is_empty() {
    let zone = example_zone();
    for qtype in [
        QueryType::NS,
        QueryType::CNAME,
        QueryType::MX,
        QueryType::TXT,
        QueryType::AAAA,
        QueryType::UNKNOWN(99),
    ] {
        let question = DnsQuestion::new(b"10-0-0-1.example.com".to_vec(), qtype);
        assert_eq!(zone.answer(&question), Ok(None));
    }
}

#[test]
fn ttl_takes_no_part_in_equality() {
    assert_eq!(TransientTtl(1), TransientTtl(2));
    let a = DnsRecord::A { domain: b"a.example.com".to_vec(), addr: 1, ttl: TransientTtl(10) };
    let b = DnsRecord::A { domain: b"a.example.com".to_vec(), addr: 1, ttl: TransientTtl(99) };
    let c = DnsRecord::A { domain: b"a.example.com".to_vec(), addr: 2, ttl: TransientTtl(10) };
    let d = DnsRecord::A { domain: b"b.example.com".to_vec(), addr: 1, ttl: TransientTtl(10) };
    let e = DnsRecord::TXT { domain: b"a.example.com".to_vec(), data: vec![0, 0, 0, 1], ttl: TransientTtl(10) };
    assert_eq!(a, b);
    assert_ne!(a, c);
    assert_ne!(a, d);
    assert_ne!(a, e);
    assert_eq!(a.clone(), a);
    assert_eq!(a.clone().get_ttl(), 10);
}
