//! The message model: header, question, the closed set of record types and
//! the message that holds them, each with the view its contracts speak of.

use crate::dns::ttl::TransientTtl;
use crate::dns::bytes::copy_bytes;
use vstd::prelude::*;

verus! {

/// The type of a query or of a record, by its code on the wire.
#[derive(Clone, Copy, Debug, PartialEq, Eq, Structural)]
pub enum QueryType {
    /// A type this library has no variant for.
    UNKNOWN(u16),
    /// An IPv4 address, code 1.
    A,
    /// A name server, code 2.
    NS,
    /// An alias, code 5.
    CNAME,
    /// The start of a zone of authority, code 6.
    SOA,
    /// A mail exchange, code 15.
    MX,
    /// Text, code 16.
    TXT,
    /// An IPv6 address, code 28.
    AAAA,
}

impl QueryType {
    /// The type's code on the wire.
    pub open spec fn code(self) -> u16 {
        match self {
            QueryType::UNKNOWN(num) => num,
            QueryType::A => 1,
            QueryType::NS => 2,
            QueryType::CNAME => 5,
            QueryType::SOA => 6,
            QueryType::MX => 15,
            QueryType::TXT => 16,
            QueryType::AAAA => 28,
        }
    }

    /// The type that a code on the wire stands for.
    pub open spec fn of_code(num: u16) -> QueryType {
        if num == 1 {
            QueryType::A
        } else if num == 2 {
            QueryType::NS
        } else if num == 5 {
            QueryType::CNAME
        } else if num == 6 {
            QueryType::SOA
        } else if num == 15 {
            QueryType::MX
        } else if num == 16 {
            QueryType::TXT
        } else if num == 28 {
            QueryType::AAAA
        } else {
            QueryType::UNKNOWN(num)
        }
    }

    /// The type is the one its own code stands for: `UNKNOWN` holds no code
    /// that has a variant.
    pub open spec fn canonical(self) -> bool {
        QueryType::of_code(self.code()) == self
    }

    /// The type's code on the wire.
    pub fn to_num(&self) -> (num: u16)
        ensures
            num == self.code(),
    {
        match *self {
            QueryType::UNKNOWN(num) => num,
            QueryType::A => 1,
            QueryType::NS => 2,
            QueryType::CNAME => 5,
            QueryType::SOA => 6,
            QueryType::MX => 15,
            QueryType::TXT => 16,
            QueryType::AAAA => 28,
        }
    }

    /// The type that a code on the wire stands for.
    pub fn from_num(num: u16) -> (t: QueryType)
        ensures
            t == QueryType::of_code(num),
            t.canonical(),
    {
        match num {
            1 => QueryType::A,
            2 => QueryType::NS,
            5 => QueryType::CNAME,
            6 => QueryType::SOA,
            15 => QueryType::MX,
            16 => QueryType::TXT,
            28 => QueryType::AAAA,
            _ => QueryType::UNKNOWN(num),
        }
    }
}

/// The outcome of a query as the reply's header carries it.
#[derive(Clone, Copy, Debug, PartialEq, Eq, Structural)]
pub enum ResultCode {
    /// Success, code 0.
    NOERROR,
    /// The request could not be interpreted, code 1.
    FORMERR,
    /// The server failed, code 2.
    SERVFAIL,
    /// The name does not exist, code 3.
    NXDOMAIN,
    /// The kind of request is not supported, code 4.
    NOTIMP,
    /// The server refuses to answer, code 5.
    REFUSED,
}

impl ResultCode {
    /// The code in the header's four bits.
    pub open spec fn code(self) -> u8 {
        match self {
            ResultCode::NOERROR => 0,
            ResultCode::FORMERR => 1,
            ResultCode::SERVFAIL => 2,
            ResultCode::NXDOMAIN => 3,
            ResultCode::NOTIMP => 4,
            ResultCode::REFUSED => 5,
        }
    }

    /// The result code that a number stands for, if any.
    pub open spec fn of_code(num: u8) -> Option<ResultCode> {
        if num == 0 {
            Some(ResultCode::NOERROR)
        } else if num == 1 {
            Some(ResultCode::FORMERR)
        } else if num == 2 {
            Some(ResultCode::SERVFAIL)
        } else if num == 3 {
            Some(ResultCode::NXDOMAIN)
        } else if num == 4 {
            Some(ResultCode::NOTIMP)
        } else if num == 5 {
            Some(ResultCode::REFUSED)
        } else {
            None
        }
    }

    /// The code in the header's four bits.
    pub fn to_num(&self) -> (num: u8)
        ensures
            num == self.code(),
            ResultCode::of_code(num) == Some(*self),
    {
        match *self {
            ResultCode::NOERROR => 0,
            ResultCode::FORMERR => 1,
            ResultCode::SERVFAIL => 2,
            ResultCode::NXDOMAIN => 3,
            ResultCode::NOTIMP => 4,
            ResultCode::REFUSED => 5,
        }
    }

    /// The result code that a number stands for; none for 6 and above.
    pub fn from_num(num: u8) -> (code: Option<ResultCode>)
        ensures
            code == ResultCode::of_code(num),
    {
        match num {
            0 => Some(ResultCode::NOERROR),
            1 => Some(ResultCode::FORMERR),
            2 => Some(ResultCode::SERVFAIL),
            3 => Some(ResultCode::NXDOMAIN),
            4 => Some(ResultCode::NOTIMP),
            5 => Some(ResultCode::REFUSED),
            _ => None,
        }
    }
}

/// The header of a message without its four section counts, which are the
/// lengths of the message's sections.
#[derive(Clone, Copy, Debug, PartialEq, Eq, Structural)]
pub struct DnsHeader {
    /// The transaction id.
    pub id: u16,
    /// The sender asks for recursion.
    pub recursion_desired: bool,
    /// The message was cut to fit its transport.
    pub truncated_message: bool,
    /// The sender is an authority for the name.
    pub authoritative_answer: bool,
    /// The kind of query, in four bits.
    pub opcode: u8,
    /// The message is a reply.
    pub response: bool,
    /// The outcome.
    pub rescode: ResultCode,
    /// The sender accepts data that was not checked.
    pub checking_disabled: bool,
    /// The data was checked.
    pub authed_data: bool,
    /// The reserved bit.
    pub z: bool,
    /// The sender offers recursion.
    pub recursion_available: bool,
}

impl DnsHeader {
    /// The header of a new message: id 0, every flag clear, `NOERROR`.
    pub open spec fn fresh() -> DnsHeader {
        DnsHeader {
            id: 0,
            recursion_desired: false,
            truncated_message: false,
            authoritative_answer: false,
            opcode: 0,
            response: false,
            rescode: ResultCode::NOERROR,
            checking_disabled: false,
            authed_data: false,
            z: false,
            recursion_available: false,
        }
    }

    /// A header with id 0, every flag clear and `NOERROR`.
    pub fn new() -> (h: DnsHeader)
        ensures
            h == DnsHeader::fresh(),
    {
        DnsHeader {
            id: 0,
            recursion_desired: false,
            truncated_message: false,
            authoritative_answer: false,
            opcode: 0,
            response: false,
            rescode: ResultCode::NOERROR,
            checking_disabled: false,
            authed_data: false,
            z: false,
            recursion_available: false,
        }
    }
}

/// The four section counts of a header on the wire.
#[derive(Clone, Copy, Debug, PartialEq, Eq, Structural)]
pub struct SectionCounts {
    pub questions: u16,
    pub answers: u16,
    pub authoritative_entries: u16,
    pub resource_entries: u16,
}

/// A question as contracts see it.
pub struct QuestionView {
    pub name: Seq<u8>,
    pub qtype: QueryType,
}

/// A question: a dotted name and the type asked for. The class is always the
/// Internet's.
#[derive(Debug)]
pub struct DnsQuestion {
    pub name: Vec<u8>,
    pub qtype: QueryType,
}

impl View for DnsQuestion {
    type V = QuestionView;

    open spec fn view(&self) -> QuestionView {
        QuestionView { name: self.name@, qtype: self.qtype }
    }
}

impl Clone for DnsQuestion {
    fn clone(&self) -> (copy: DnsQuestion)
        ensures
            copy@ == self@,
    {
        DnsQuestion { name: copy_bytes(self.name.as_slice()), qtype: self.qtype }
    }
}

/// A record as contracts see it.
#[allow(inconsistent_fields)]
pub enum RecordView {
    UNKNOWN { domain: Seq<u8>, qtype: u16, data: Seq<u8>, ttl: u32 },
    A { domain: Seq<u8>, addr: u32, ttl: u32 },
    NS { domain: Seq<u8>, host: Seq<u8>, ttl: u32 },
    CNAME { domain: Seq<u8>, host: Seq<u8>, ttl: u32 },
    SOA {
        domain: Seq<u8>,
        m_name: Seq<u8>,
        r_name: Seq<u8>,
        serial: u32,
        refresh: u32,
        retry: u32,
        expire: u32,
        minimum: u32,
        ttl: u32,
    },
    MX { domain: Seq<u8>, priority: u16, host: Seq<u8>, ttl: u32 },
    TXT { domain: Seq<u8>, data: Seq<u8>, ttl: u32 },
    AAAA { domain: Seq<u8>, addr: u128, ttl: u32 },
}

impl RecordView {
    /// The name the record belongs to.
    pub open spec fn domain(self) -> Seq<u8> {
        match self {
            RecordView::UNKNOWN { domain, .. } => domain,
            RecordView::A { domain, .. } => domain,
            RecordView::NS { domain, .. } => domain,
            RecordView::CNAME { domain, .. } => domain,
            RecordView::SOA { domain, .. } => domain,
            RecordView::MX { domain, .. } => domain,
            RecordView::TXT { domain, .. } => domain,
            RecordView::AAAA { domain, .. } => domain,
        }
    }

    /// The record's time to live.
    pub open spec fn ttl(self) -> u32 {
        match self {
            RecordView::UNKNOWN { ttl, .. } => ttl,
            RecordView::A { ttl, .. } => ttl,
            RecordView::NS { ttl, .. } => ttl,
            RecordView::CNAME { ttl, .. } => ttl,
            RecordView::SOA { ttl, .. } => ttl,
            RecordView::MX { ttl, .. } => ttl,
            RecordView::TXT { ttl, .. } => ttl,
            RecordView::AAAA { ttl, .. } => ttl,
        }
    }

    /// The record's type.
    pub open spec fn qtype(self) -> QueryType {
        match self {
            RecordView::UNKNOWN { qtype, .. } => QueryType::UNKNOWN(qtype),
            RecordView::A { .. } => QueryType::A,
            RecordView::NS { .. } => QueryType::NS,
            RecordView::CNAME { .. } => QueryType::CNAME,
            RecordView::SOA { .. } => QueryType::SOA,
            RecordView::MX { .. } => QueryType::MX,
            RecordView::TXT { .. } => QueryType::TXT,
            RecordView::AAAA { .. } => QueryType::AAAA,
        }
    }

    /// The same record with another time to live.
    pub open spec fn with_ttl(self, ttl: u32) -> RecordView {
        match self {
            RecordView::UNKNOWN { domain, qtype, data, .. } => RecordView::UNKNOWN {
                domain,
                qtype,
                data,
                ttl,
            },
            RecordView::A { domain, addr, .. } => RecordView::A { domain, addr, ttl },
            RecordView::NS { domain, host, .. } => RecordView::NS { domain, host, ttl },
            RecordView::CNAME { domain, host, .. } => RecordView::CNAME { domain, host, ttl },
            RecordView::SOA {
                domain,
                m_name,
                r_name,
                serial,
                refresh,
                retry,
                expire,
                minimum,
                ..
            } => RecordView::SOA {
                domain,
                m_name,
                r_name,
                serial,
                refresh,
                retry,
                expire,
                minimum,
                ttl,
            },
            RecordView::MX { domain, priority, host, .. } => RecordView::MX {
                domain,
                priority,
                host,
                ttl,
            },
            RecordView::TXT { domain, data, .. } => RecordView::TXT { domain, data, ttl },
            RecordView::AAAA { domain, addr, .. } => RecordView::AAAA { domain, addr, ttl },
        }
    }

    /// Two records are the same record: they agree in all but, possibly, the
    /// time to live.
    pub open spec fn same_record(self, other: RecordView) -> bool {
        self.with_ttl(0) == other.with_ttl(0)
    }
}

/// A resource record: the name it belongs to, its time to live, and what its
/// type carries. A type without a variant of its own is kept as `UNKNOWN`
/// with its payload as it stood on the wire.
#[derive(Debug)]
#[allow(inconsistent_fields)]
pub enum DnsRecord {
    UNKNOWN { domain: Vec<u8>, qtype: u16, data: Vec<u8>, ttl: TransientTtl },
    A { domain: Vec<u8>, addr: u32, ttl: TransientTtl },
    NS { domain: Vec<u8>, host: Vec<u8>, ttl: TransientTtl },
    CNAME { domain: Vec<u8>, host: Vec<u8>, ttl: TransientTtl },
    SOA {
        domain: Vec<u8>,
        m_name: Vec<u8>,
        r_name: Vec<u8>,
        serial: u32,
        refresh: u32,
        retry: u32,
        expire: u32,
        minimum: u32,
        ttl: TransientTtl,
    },
    MX { domain: Vec<u8>, priority: u16, host: Vec<u8>, ttl: TransientTtl },
    TXT { domain: Vec<u8>, data: Vec<u8>, ttl: TransientTtl },
    AAAA { domain: Vec<u8>, addr: u128, ttl: TransientTtl },
}

impl View for DnsRecord {
    type V = RecordView;

    open spec fn view(&self) -> RecordView {
        match *self {
            DnsRecord::UNKNOWN { domain, qtype, data, ttl } => RecordView::UNKNOWN {
                domain: domain@,
                qtype,
                data: data@,
                ttl: ttl.0,
            },
            DnsRecord::A { domain, addr, ttl } => RecordView::A { domain: domain@, addr, ttl: ttl.0 },
            DnsRecord::NS { domain, host, ttl } => RecordView::NS {
                domain: domain@,
                host: host@,
                ttl: ttl.0,
            },
            DnsRecord::CNAME { domain, host, ttl } => RecordView::CNAME {
                domain: domain@,
                host: host@,
                ttl: ttl.0,
            },
            DnsRecord::SOA {
                domain,
                m_name,
                r_name,
                serial,
                refresh,
                retry,
                expire,
                minimum,
                ttl,
            } => RecordView::SOA {
                domain: domain@,
                m_name: m_name@,
                r_name: r_name@,
                serial,
                refresh,
                retry,
                expire,
                minimum,
                ttl: ttl.0,
            },
            DnsRecord::MX { domain, priority, host, ttl } => RecordView::MX {
                domain: domain@,
                priority,
                host: host@,
                ttl: ttl.0,
            },
            DnsRecord::TXT { domain, data, ttl } => RecordView::TXT {
                domain: domain@,
                data: data@,
                ttl: ttl.0,
            },
            DnsRecord::AAAA { domain, addr, ttl } => RecordView::AAAA {
                domain: domain@,
                addr,
                ttl: ttl.0,
            },
        }
    }
}

impl Clone for DnsRecord {
    fn clone(&self) -> (copy: DnsRecord)
        ensures
            copy@ == self@,
    {
        match self {
            DnsRecord::UNKNOWN { domain, qtype, data, ttl } => DnsRecord::UNKNOWN {
                domain: copy_bytes(domain.as_slice()),
                qtype: *qtype,
                data: copy_bytes(data.as_slice()),
                ttl: *ttl,
            },
            DnsRecord::A { domain, addr, ttl } => DnsRecord::A {
                domain: copy_bytes(domain.as_slice()),
                addr: *addr,
                ttl: *ttl,
            },
            DnsRecord::NS { domain, host, ttl } => DnsRecord::NS {
                domain: copy_bytes(domain.as_slice()),
                host: copy_bytes(host.as_slice()),
                ttl: *ttl,
            },
            DnsRecord::CNAME { domain, host, ttl } => DnsRecord::CNAME {
                domain: copy_bytes(domain.as_slice()),
                host: copy_bytes(host.as_slice()),
                ttl: *ttl,
            },
            DnsRecord::SOA {
                domain,
                m_name,
                r_name,
                serial,
                refresh,
                retry,
                expire,
                minimum,
                ttl,
            } => DnsRecord::SOA {
                domain: copy_bytes(domain.as_slice()),
                m_name: copy_bytes(m_name.as_slice()),
                r_name: copy_bytes(r_name.as_slice()),
                serial: *serial,
                refresh: *refresh,
                retry: *retry,
                expire: *expire,
                minimum: *minimum,
                ttl: *ttl,
            },
            DnsRecord::MX { domain, priority, host, ttl } => DnsRecord::MX {
                domain: copy_bytes(domain.as_slice()),
                priority: *priority,
                host: copy_bytes(host.as_slice()),
                ttl: *ttl,
            },
            DnsRecord::TXT { domain, data, ttl } => DnsRecord::TXT {
                domain: copy_bytes(domain.as_slice()),
                data: copy_bytes(data.as_slice()),
                ttl: *ttl,
            },
            DnsRecord::AAAA { domain, addr, ttl } => DnsRecord::AAAA {
                domain: copy_bytes(domain.as_slice()),
                addr: *addr,
                ttl: *ttl,
            },
        }
    }
}

/// The views of a sequence of questions.
pub open spec fn question_views(questions: Seq<DnsQuestion>) -> Seq<QuestionView> {
    Seq::new(questions.len(), |i: int| questions[i]@)
}

/// The views of a sequence of records.
pub open spec fn record_views(records: Seq<DnsRecord>) -> Seq<RecordView> {
    Seq::new(records.len(), |i: int| records[i]@)
}

/// A message as contracts see it.
pub struct PacketView {
    pub header: DnsHeader,
    pub questions: Seq<QuestionView>,
    pub answers: Seq<RecordView>,
    pub authorities: Seq<RecordView>,
    pub resources: Seq<RecordView>,
}

/// A message: a header and four sections, each in its order.
#[derive(Debug)]
pub struct DnsPacket {
    pub header: DnsHeader,
    pub questions: Vec<DnsQuestion>,
    pub answers: Vec<DnsRecord>,
    pub authorities: Vec<DnsRecord>,
    pub resources: Vec<DnsRecord>,
}

impl View for DnsPacket {
    type V = PacketView;

    open spec fn view(&self) -> PacketView {
        PacketView {
            header: self.header,
            questions: question_views(self.questions@),
            answers: record_views(self.answers@),
            authorities: record_views(self.authorities@),
            resources: record_views(self.resources@),
        }
    }
}

} // verus!
