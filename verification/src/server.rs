//! The resolver: from a request to the reply of the first zone that holds
//! the name asked for, and from a datagram to the datagram that answers it.

use crate::dns::buffer::PacketBuffer;
use crate::dns::error::ProtocolError;
use crate::dns::protocol::{DnsHeader, DnsPacket, DnsRecord, PacketView, RecordView, ResultCode};
use crate::dns::laws::{lemma_name_wire_bound, lemma_parsed_questions_fit, name_bound};
use crate::dns::name::{labels_fit, MAX_JUMPS};
use crate::dns::wire::{
    packet_encoding, parse_header, parse_packet, question_wire, questions_wire, HEADER_LEN,
    MAX_COUNT,
};
use crate::dns::zone::{ends_with, soa_record, zone_answer, Zone, ZoneView};
use vstd::prelude::*;

verus! {

/// The largest reply, in bytes, that is sent whole.
pub const MAX_DATAGRAM: usize = 512;

/// The views of a sequence of zones.
pub open spec fn zone_views(zones: Seq<Zone>) -> Seq<ZoneView> {
    Seq::new(zones.len(), |i: int| zones[i]@)
}

/// The index of the first zone from `from` on that holds `name`, or the
/// number of zones when none does.
pub open spec fn first_zone(zones: Seq<ZoneView>, name: Seq<u8>, from: int) -> int
    decreases zones.len() - from,
{
    if from < 0 || from >= zones.len() {
        zones.len() as int
    } else if ends_with(name, zones[from].domain) {
        from
    } else {
        first_zone(zones, name, from + 1)
    }
}

/// The header of every reply to `request`: its id, a response, from an
/// authority, without recursion on offer, with the given result code.
pub open spec fn reply_header(request: PacketView, rescode: ResultCode) -> DnsHeader {
    DnsHeader {
        id: request.header.id,
        response: true,
        authoritative_answer: true,
        recursion_available: false,
        rescode,
        ..DnsHeader::fresh()
    }
}

/// A reply to `request` with the given result code and no section filled.
pub open spec fn bare_reply(request: PacketView, rescode: ResultCode) -> PacketView {
    PacketView {
        header: reply_header(request, rescode),
        questions: Seq::empty(),
        answers: Seq::empty(),
        authorities: Seq::empty(),
        resources: Seq::empty(),
    }
}

/// The reply once a zone has given its outcome for the question the reply
/// echoes: an answer is sent with `NOERROR`, no answer as `NXDOMAIN` with the
/// zone's SOA record as authority, and an error code as it is, without a
/// record.
pub open spec fn with_outcome(
    reply: PacketView,
    zone: ZoneView,
    outcome: Result<Option<RecordView>, ResultCode>,
) -> PacketView {
    match outcome {
        Ok(Some(record)) => PacketView {
            header: DnsHeader { rescode: ResultCode::NOERROR, ..reply.header },
            answers: reply.answers.push(record),
            ..reply
        },
        Ok(None) => PacketView {
            header: DnsHeader { rescode: ResultCode::NXDOMAIN, ..reply.header },
            authorities: reply.authorities.push(soa_record(zone)),
            ..reply
        },
        Err(code) => PacketView { header: DnsHeader { rescode: code, ..reply.header }, ..reply },
    }
}

/// The reply to `request` from `zones`, in the order of the rules: a request
/// that asks for recursion is refused; one without a question is a format
/// error; else the first question is echoed and the first zone that holds
/// its name answers it, and where no zone does the request is refused.
pub open spec fn reply_for(zones: Seq<ZoneView>, request: PacketView) -> PacketView {
    if request.header.recursion_desired {
        bare_reply(request, ResultCode::REFUSED)
    } else if request.questions.len() == 0 {
        bare_reply(request, ResultCode::FORMERR)
    } else {
        let question = request.questions[0];
        let echo = PacketView {
            questions: seq![question],
            ..bare_reply(request, ResultCode::REFUSED)
        };
        let found = first_zone(zones, question.name, 0);
        if found >= zones.len() {
            echo
        } else {
            with_outcome(echo, zones[found], Ok(zone_answer(zones[found], question)))
        }
    }
}

/// The view of what a zone gave as its outcome.
pub open spec fn outcome_view(outcome: Result<Option<DnsRecord>, ResultCode>) -> Result<
    Option<RecordView>,
    ResultCode,
> {
    match outcome {
        Ok(Some(record)) => Ok(Some(record@)),
        Ok(None) => Ok(None),
        Err(code) => Err(code),
    }
}

/// What is sent back for a datagram: the bytes of the reply to the request
/// it holds, cut to `MAX_DATAGRAM`, or the error for which nothing is sent.
pub open spec fn response_for(zones: Seq<ZoneView>, datagram: Seq<u8>) -> Result<
    Seq<u8>,
    ProtocolError,
> {
    match parse_packet(datagram, 0) {
        Err(e) => Err(e),
        Ok((request, _)) => packet_encoding(
            reply_for(zones, request),
            MAX_DATAGRAM as int,
            usize::MAX as int,
        ),
    }
}

/// The configured zones, in the order in which they are asked.
pub struct Server {
    zones: Vec<Zone>,
}

impl View for Server {
    type V = Seq<ZoneView>;

    closed spec fn view(&self) -> Seq<ZoneView> {
        zone_views(self.zones@)
    }
}

impl Server {
    /// A server for `zones`; the first zone that holds a name answers for it.
    pub fn new(zones: Vec<Zone>) -> (server: Server)
        ensures
            server@ == zone_views(zones@),
    {
        Server { zones }
    }

    /// The first zone that holds `name`, if any.
    fn find_zone(&self, name: &[u8]) -> (r: Option<&Zone>)
        ensures
            match r {
                Some(zone) => first_zone(self@, name@, 0) < self@.len() && zone@
                    == self@[first_zone(self@, name@, 0)],
                None => first_zone(self@, name@, 0) >= self@.len(),
            },
    {
        let mut i: usize = 0;
        while i < self.zones.len()
            invariant
                i <= self.zones@.len(),
                self@ == zone_views(self.zones@),
                first_zone(self@, name@, 0) == first_zone(self@, name@, i as int),
            decreases self.zones@.len() - i,
        {
            assert(self@[i as int] == self.zones@[i as int]@);
            if self.zones[i].in_zone(name) {
                return Some(&self.zones[i]);
            }
            i = i + 1;
        }
        None
    }

    /// Enters into `reply` what `zone` gave as its outcome: an answer with
    /// `NOERROR`, no answer as `NXDOMAIN` with the zone's SOA record as
    /// authority, an error code as it is.
    pub fn record_outcome(
        reply: &mut DnsPacket,
        zone: &Zone,
        outcome: Result<Option<DnsRecord>, ResultCode>,
    )
        ensures
            final(reply)@ == with_outcome(old(reply)@, zone@, outcome_view(outcome)),
    {
        match outcome {
            Ok(Some(record)) => {
                reply.header.rescode = ResultCode::NOERROR;
                reply.answers.push(record);
                assert(final(reply)@.answers =~= old(reply)@.answers.push(record@));
            },
            Ok(None) => {
                reply.header.rescode = ResultCode::NXDOMAIN;
                let soa = zone.get_soa_record();
                reply.authorities.push(soa);
                assert(final(reply)@.authorities =~= old(reply)@.authorities.push(
                    soa_record(zone@),
                ));
            },
            Err(code) => {
                reply.header.rescode = code;
            },
        }
    }

    /// The reply to `req`. It carries the request's id and is a response
    /// from an authority that offers no recursion. A request that asks for
    /// recursion is refused, whatever it asks; one without a question is a
    /// format error; a question for a name that no zone holds is refused;
    /// else the first question is echoed and answered by the first zone that
    /// holds its name.
    pub fn query(&self, req: &DnsPacket) -> (reply: DnsPacket)
        ensures
            reply@ == reply_for(self@, req@),
            req@.header.recursion_desired ==> reply@.header.rescode == ResultCode::REFUSED,
            !req@.header.recursion_desired && req@.questions.len() == 0 ==> reply@.header.rescode
                == ResultCode::FORMERR,
            req@.questions.len() > 0 && (forall|i: int|
                0 <= i < self@.len() ==> !ends_with(req@.questions[0].name, #[trigger] self@[i].domain))
                ==> reply@.header.rescode == ResultCode::REFUSED,
    {
        let mut packet = DnsPacket::new();
        packet.header.id = req.header.id;
        packet.header.authoritative_answer = true;
        packet.header.recursion_available = false;
        packet.header.response = true;
        proof {
            lemma_no_zone(self@, req@.questions[0].name, 0);
        }
        if req.header.recursion_desired {
            packet.header.rescode = ResultCode::REFUSED;
        } else if req.questions.len() == 0 {
            packet.header.rescode = ResultCode::FORMERR;
        } else {
            let question = &req.questions[0];
            assert(req@.questions[0] == question@);
            packet.questions.push(question.clone());
            packet.header.rescode = ResultCode::REFUSED;
            assert(packet@.questions =~= seq![question@]);
            match self.find_zone(question.name.as_slice()) {
                Some(zone) => {
                    let outcome = zone.answer(question);
                    Server::record_outcome(&mut packet, zone, outcome);
                },
                None => {},
            }
        }
        packet
    }

    /// What to send back for a received datagram, if anything: the request
    /// is read, answered, and the reply written with at most `MAX_DATAGRAM`
    /// bytes of records. An error of the codec means that nothing is sent.
    pub fn handle(&self, datagram: Vec<u8>) -> (r: Result<Vec<u8>, ProtocolError>)
        ensures
            match response_for(self@, datagram@) {
                Ok(bytes) => r is Ok && r->Ok_0@ == bytes,
                Err(e) => r is Err && r->Err_0 == e,
            },
    {
        let mut request_buffer = PacketBuffer::from_bytes(datagram);
        let request = DnsPacket::from_buffer(&mut request_buffer)?;
        let reply = self.query(&request);
        let (bytes, _) = reply.to_bytes(MAX_DATAGRAM, usize::MAX)?;
        Ok(bytes)
    }
}

/// Where no zone from `from` on holds `name`, none is found.
pub proof fn lemma_no_zone(zones: Seq<ZoneView>, name: Seq<u8>, from: int)
    requires
        0 <= from,
    ensures
        (forall|i: int| from <= i < zones.len() ==> !ends_with(name, #[trigger] zones[i].domain))
            ==> first_zone(zones, name, from) >= zones.len(),
        first_zone(zones, name, from) < zones.len() ==> ends_with(
            name,
            zones[first_zone(zones, name, from)].domain,
        ),
    decreases zones.len() - from,
{
    if from < zones.len() {
        lemma_no_zone(zones, name, from + 1);
    }
}

/// Every request that can be read is answered. For a datagram of at most
/// 65535 bytes, nothing is sent back exactly when the datagram cannot be read
/// as a message, and the error is then that of the reading: the reply to a
/// request that was read can always be written.
pub proof fn lemma_every_request_is_answered(zones: Seq<ZoneView>, datagram: Seq<u8>)
    requires
        datagram.len() <= MAX_COUNT,
    ensures
        match parse_packet(datagram, 0) {
            Ok(_) => response_for(zones, datagram) is Ok,
            Err(e) => response_for(zones, datagram) == Err::<Seq<u8>, ProtocolError>(e),
        },
{
    match parse_packet(datagram, 0) {
        Ok((request, _)) => {
            let reply = reply_for(zones, request);
            assert(reply.header.opcode == 0);
            assert(reply.questions.len() <= 1);
            assert(reply.answers.len() <= 1);
            assert(reply.authorities.len() <= 1);
            assert(reply.resources.len() == 0);
            if reply.questions.len() == 0 {
                assert(questions_wire(reply.questions, 0) =~= Seq::empty());
            } else {
                let question = request.questions[0];
                assert(reply.questions =~= seq![question]);
                match parse_header(datagram, 0) {
                    Ok((_, counts)) => {
                        lemma_parsed_questions_fit(
                            datagram,
                            HEADER_LEN as int,
                            counts.questions as nat,
                        );
                    },
                    Err(_) => {},
                }
                assert(labels_fit(question.name));
                assert(name_bound(datagram.len() as int, MAX_JUMPS as nat) == 6 * datagram.len());
                assert(question.name.len() <= 6 * MAX_COUNT);
                lemma_name_wire_bound(question.name);
                reveal(question_wire);
                assert(questions_wire(reply.questions, 1) == questions_wire(reply.questions, 0)
                    + question_wire(question));
                assert(questions_wire(reply.questions, 0) =~= Seq::empty());
            }
        },
        Err(_) => {},
    }
}

} // verus!
