//! A zone: one authoritative domain, answered by rule and not from a table.

use crate::dns::address::{dotted_quad, hyphens_to_dots, label_end, parse_ipv4, HYPHEN};
use crate::dns::bytes::{copy_bytes, tail_equals};
use crate::dns::name::{label_len, DOT};
use crate::dns::protocol::{
    DnsQuestion, DnsRecord, QueryType, QuestionView, RecordView, ResultCode,
};
use crate::dns::ttl::TransientTtl;
use vstd::prelude::*;
use vstd::string::*;

verus! {

/// The time to live, in seconds, of every record a zone gives out, and the
/// value of the four timers of its SOA record.
pub const ZONE_TTL: u32 = 3600;

/// A zone as contracts see it: its domain and the two names of its SOA
/// record, each as bytes.
pub struct ZoneView {
    pub domain: Seq<u8>,
    pub mname: Seq<u8>,
    pub rname: Seq<u8>,
}

/// `name` ends with the bytes of `suffix`, wherever its labels end.
pub open spec fn ends_with(name: Seq<u8>, suffix: Seq<u8>) -> bool {
    suffix.len() <= name.len() && name.skip(name.len() - suffix.len()) == suffix
}

/// The SOA record of a zone: serial 0, the four timers and the time to live
/// at `ZONE_TTL`.
pub open spec fn soa_record(zone: ZoneView) -> RecordView {
    RecordView::SOA {
        domain: zone.domain,
        m_name: zone.mname,
        r_name: zone.rname,
        serial: 0,
        refresh: ZONE_TTL,
        retry: ZONE_TTL,
        expire: ZONE_TTL,
        minimum: ZONE_TTL,
        ttl: ZONE_TTL,
    }
}

/// The address that `name` stands for in the zone of `domain`: `name` is one
/// label, a dot and `domain`, and the label with its hyphens as dots is an
/// IPv4 address in dotted decimal.
pub open spec fn wildcard_address(domain: Seq<u8>, name: Seq<u8>) -> Option<u32> {
    let n = label_len(name) as int;
    if n < name.len() && name.skip(n + 1) == domain {
        dotted_quad(hyphens_to_dots(name.take(n)))
    } else {
        None
    }
}

/// What a zone answers to a question for a name in it: its SOA record to a
/// query for SOA, an address record to a query for A whose name stands for
/// an address, and nothing otherwise.
pub open spec fn zone_answer(zone: ZoneView, question: QuestionView) -> Option<RecordView> {
    match question.qtype {
        QueryType::SOA => Some(soa_record(zone)),
        QueryType::A => match wildcard_address(zone.domain, question.name) {
            Some(addr) => Some(RecordView::A { domain: question.name, addr, ttl: ZONE_TTL }),
            None => None,
        },
        _ => None,
    }
}

/// One authoritative domain with the names of its SOA record. It holds no
/// records: what it answers is computed from the question.
pub struct Zone {
    domain: Vec<u8>,
    mname: Vec<u8>,
    rname: Vec<u8>,
}

impl View for Zone {
    type V = ZoneView;

    closed spec fn view(&self) -> ZoneView {
        ZoneView { domain: self.domain@, mname: self.mname@, rname: self.rname@ }
    }
}

impl Zone {
    /// A zone for `domain`, with `mname` as its primary server and `rname` as
    /// the mailbox of the person responsible.
    pub fn new(domain: &str, mname: &str, rname: &str) -> (zone: Zone)
        ensures
            zone@ == (ZoneView {
                domain: domain.spec_bytes(),
                mname: mname.spec_bytes(),
                rname: rname.spec_bytes(),
            }),
    {
        Zone {
            domain: domain.as_bytes_vec(),
            mname: mname.as_bytes_vec(),
            rname: rname.as_bytes_vec(),
        }
    }

    /// Whether `domain` ends with the zone's domain. The bytes are compared
    /// as they are, not label by label: `evilexample.com` is in the zone of
    /// `example.com`.
    pub fn in_zone(&self, domain: &[u8]) -> (r: bool)
        ensures
            r == ends_with(domain@, self@.domain),
    {
        if self.domain.len() > domain.len() {
            return false;
        }
        tail_equals(domain, domain.len() - self.domain.len(), self.domain.as_slice())
    }

    /// The zone's SOA record.
    pub fn get_soa_record(&self) -> (record: DnsRecord)
        ensures
            record@ == soa_record(self@),
    {
        DnsRecord::SOA {
            domain: copy_bytes(self.domain.as_slice()),
            m_name: copy_bytes(self.mname.as_slice()),
            r_name: copy_bytes(self.rname.as_slice()),
            serial: 0,
            refresh: ZONE_TTL,
            retry: ZONE_TTL,
            expire: ZONE_TTL,
            minimum: ZONE_TTL,
            ttl: TransientTtl(ZONE_TTL),
        }
    }

    /// The zone's answer to a question for a name in the zone: the record
    /// that answers it, or none where the zone has no such data. It never
    /// fails.
    pub fn answer(&self, question: &DnsQuestion) -> (r: Result<Option<DnsRecord>, ResultCode>)
        requires
            ends_with(question@.name, self@.domain),
        ensures
            match zone_answer(self@, question@) {
                Some(record) => r matches Ok(Some(found)) && found@ == record,
                None => r matches Ok(None),
            },
    {
        match question.qtype {
            QueryType::SOA => Ok(Some(self.get_soa_record())),
            QueryType::A => {
                let name = question.name.as_slice();
                assert(name@.skip(0) =~= name@);
                let n = label_end(name, 0);
                if n >= name.len() || !tail_equals(name, n + 1, self.domain.as_slice()) {
                    return Ok(None);
                }
                let mut host: Vec<u8> = Vec::new();
                let mut i: usize = 0;
                while i < n
                    invariant
                        i <= n <= name@.len(),
                        host@ == hyphens_to_dots(name@.take(i as int)),
                    decreases n - i,
                {
                    let b = name[i];
                    host.push(
                        if b == HYPHEN {
                            DOT
                        } else {
                            b
                        },
                    );
                    i = i + 1;
                    assert(host@ =~= hyphens_to_dots(name@.take(i as int)));
                }
                match parse_ipv4(host.as_slice()) {
                    Some(addr) => Ok(
                        Some(
                            DnsRecord::A {
                                domain: copy_bytes(name),
                                addr,
                                ttl: TransientTtl(ZONE_TTL),
                            },
                        ),
                    ),
                    None => Ok(None),
                }
            },
            _ => Ok(None),
        }
    }
}

} // verus!
