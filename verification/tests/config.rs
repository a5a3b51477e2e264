use wildcard_dns::config::{configure_zones, default_mailbox};
use wildcard_dns::dns::protocol::DnsRecord;
use wildcard_dns::dns::ttl::TransientTtl;

fn soa(domain: &[u8], m_name: &[u8], r_name: &[u8]) -> DnsRecord {
    DnsRecord::SOA {
        domain: domain.to_vec(),
        m_name: m_name.to_vec(),
        r_name: r_name.to_vec(),
        serial: 0,
        refresh: 3600,
        retry: 3600,
        expire: 3600,
        minimum: 3600,
        ttl: TransientTtl(3600),
    }
}

#[test]
fn default_mailbox_is_hostmaster_at_the_server() {
    assert_eq!(default_mailbox("ns.example.com"), "hostmaster.ns.example.com");
    assert_eq!(default_mailbox(""), "hostmaster.");
}

#[test]
fn zones_are_configured_in_the_order_of_their_names() {
    let names = vec![String::from("example.com"), String::from("example.net")];
    let zones = configure_zones(&names, "ns.example.org", None);
    assert_eq!(zones.len(), 2);
    assert_eq!(
        zones[0].get_soa_record(),
        soa(b"example.com", b"ns.example.org", b"hostmaster.ns.example.org")
    );
    assert_eq!(
        zones[1].get_soa_record(),
        soa(b"example.net", b"ns.example.org", b"hostmaster.ns.example.org")
    );
    assert!(zones[0].in_zone(b"a.example.com"));
    assert!(!zones[0].in_zone(b"a.example.net"));
    assert!(zones[1].in_zone(b"a.example.net"));
}

#[test]
fn configured_mailbox_replaces_the_default() {
    let names = vec![String::from("example.com")];
    let zones = configure_zones(&names, "ns.example.org", Some(String::from("admin.example.org")));
    assert_eq!(
        zones[0].get_soa_record(),
        soa(b"example.com", b"ns.example.org", b"admin.example.org")
    );
    assert!(configure_zones(&Vec::new(), "ns.example.org", None).is_empty());
}

#[test]
fn zone_names_are_kept_as_their_utf8_bytes() {
    let names = vec![String::from("b\u{fc}cher.example")];
    let zones = configure_zones(&names, "ns", None);
    assert!(zones[0].in_zone(&[b'x', b'.', b'b', 0xc3, 0xbc, b'c', b'h', b'e', b'r', b'.', b'e', b'x', b'a', b'm', b'p', b'l', b'e']));
    assert!(!zones[0].in_zone(b"x.bucher.example"));
}
