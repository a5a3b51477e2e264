//! When two questions, and two records, are the same.

use crate::dns::bytes::bytes_equal;
use crate::dns::protocol::{DnsQuestion, DnsRecord};
use vstd::prelude::*;
use vstd::std_specs::cmp::PartialEqSpecImpl;

verus! {

impl PartialEq for DnsQuestion {
    fn eq(&self, other: &DnsQuestion) -> (r: bool) {
        bytes_equal(self.name.as_slice(), other.name.as_slice()) && self.qtype == other.qtype
    }
}

impl PartialEqSpecImpl for DnsQuestion {
    open spec fn obeys_eq_spec() -> bool {
        true
    }

    /// Two questions are equal when they ask the same type of the same name.
    open spec fn eq_spec(&self, other: &DnsQuestion) -> bool {
        self@ == other@
    }
}

impl PartialEq for DnsRecord {
    fn eq(&self, other: &DnsRecord) -> (r: bool) {
        match (self, other) {
            (
                DnsRecord::UNKNOWN { domain, qtype, data, .. },
                DnsRecord::UNKNOWN { domain: domain2, qtype: qtype2, data: data2, .. },
            ) => {
                let same = bytes_equal(domain.as_slice(), domain2.as_slice()) && *qtype == *qtype2
                    && bytes_equal(data.as_slice(), data2.as_slice());
                same
            },
            (DnsRecord::A { domain, addr, .. }, DnsRecord::A { domain: domain2, addr: addr2, .. }) => {
                let same = bytes_equal(domain.as_slice(), domain2.as_slice()) && *addr == *addr2;
                same
            },
            (DnsRecord::NS { domain, host, .. }, DnsRecord::NS { domain: domain2, host: host2, .. }) => {
                let same = bytes_equal(domain.as_slice(), domain2.as_slice()) && bytes_equal(
                    host.as_slice(),
                    host2.as_slice(),
                );
                same
            },
            (
                DnsRecord::CNAME { domain, host, .. },
                DnsRecord::CNAME { domain: domain2, host: host2, .. },
            ) => {
                let same = bytes_equal(domain.as_slice(), domain2.as_slice()) && bytes_equal(
                    host.as_slice(),
                    host2.as_slice(),
                );
                same
            },
            (
                DnsRecord::SOA { domain, m_name, r_name, serial, refresh, retry, expire, minimum, .. },
                DnsRecord::SOA {
                    domain: domain2,
                    m_name: m_name2,
                    r_name: r_name2,
                    serial: serial2,
                    refresh: refresh2,
                    retry: retry2,
                    expire: expire2,
                    minimum: minimum2,
                    ..
                },
            ) => {
                let same = bytes_equal(domain.as_slice(), domain2.as_slice()) && bytes_equal(
                    m_name.as_slice(),
                    m_name2.as_slice(),
                ) && bytes_equal(r_name.as_slice(), r_name2.as_slice()) && *serial == *serial2
                    && *refresh == *refresh2 && *retry == *retry2 && *expire == *expire2
                    && *minimum == *minimum2;
                same
            },
            (
                DnsRecord::MX { domain, priority, host, .. },
                DnsRecord::MX { domain: domain2, priority: priority2, host: host2, .. },
            ) => {
                let same = bytes_equal(domain.as_slice(), domain2.as_slice()) && *priority
                    == *priority2 && bytes_equal(host.as_slice(), host2.as_slice());
                same
            },
            (DnsRecord::TXT { domain, data, .. }, DnsRecord::TXT { domain: domain2, data: data2, .. }) => {
                let same = bytes_equal(domain.as_slice(), domain2.as_slice()) && bytes_equal(
                    data.as_slice(),
                    data2.as_slice(),
                );
                same
            },
            (
                DnsRecord::AAAA { domain, addr, .. },
                DnsRecord::AAAA { domain: domain2, addr: addr2, .. },
            ) => {
                let same = bytes_equal(domain.as_slice(), domain2.as_slice()) && *addr == *addr2;
                same
            },
            _ => false,
        }
    }
}

impl PartialEqSpecImpl for DnsRecord {
    open spec fn obeys_eq_spec() -> bool {
        true
    }

    /// Two records are equal when they are the same record: the time to live
    /// does not count.
    open spec fn eq_spec(&self, other: &DnsRecord) -> bool {
        self@.same_record(other@)
    }
}

} // verus!
