//! Whole DNS messages: header, questions and the three record sections, and the
//! responses built from a request.

use vstd::prelude::*;
use crate::message::header::{header_bytes, request_header, Direction, DNSHeader, ResponseCode};
use crate::message::question::{
    duplicate_questions, question_views, questions_bytes, questions_to_bytes, DNSQuestion, QClass,
    QType,
};
use crate::message::record::{
    rdata_bytes, record_views, records_bytes, records_to_bytes, ARdata, RData, RecordView,
    ResourceRecord, TXTRdata,
};
use crate::net::PeerAddr;
use crate::RequestError;

verus! {

/// The largest message the transport sends without a warning.
pub const MESSAGE_SIZE: usize = 512;

/// A DNS message, request or response by its direction, with the address of the peer it
/// came from or goes to; the address is never part of the wire bytes.
#[derive(Debug)]
pub struct DNSMessage {
    /// Status and request codes, and the counts of the other sections
    pub header: DNSHeader,
    /// Queried names; the same in a request and its response
    pub questions: Vec<DNSQuestion>,
    pub answer_records: Vec<ResourceRecord>,
    pub authority_records: Vec<ResourceRecord>,
    pub additional_records: Vec<ResourceRecord>,
    /// Address of the peer that sent this message, or that it is sent to
    pub peer: PeerAddr,
}

/// The wire bytes of a message: header, questions, then answer, authority and additional records.
pub open spec fn message_bytes(m: DNSMessage) -> Seq<u8> {
    header_bytes(m.header) + questions_bytes(question_views(m.questions@)) + records_bytes(
        record_views(m.answer_records@),
    ) + records_bytes(record_views(m.authority_records@)) + records_bytes(
        record_views(m.additional_records@),
    )
}

/// The header of a response to a request with header `h`: its direction, status and record
/// counts replaced; recursion is marked available when `offer_recursion` holds and the
/// request desired it.
pub open spec fn response_header(h: DNSHeader, code: ResponseCode, answers: u16, offer_recursion: bool) -> DNSHeader {
    DNSHeader {
        direction: Direction::Response,
        response: code,
        answer_record_count: answers,
        authority_record_count: 0,
        additional_record_count: 0,
        recursion_available: if offer_recursion && h.recursion_desired {
            true
        } else {
            h.recursion_available
        },
        ..h
    }
}

/// `r` carries the questions of `m` and goes to the peer of `m`.
pub open spec fn echoes(r: DNSMessage, m: DNSMessage) -> bool {
    &&& question_views(r.questions@) == question_views(m.questions@)
    &&& r.peer == m.peer
}

/// The record that reports a protocol error: an empty TXT record pointing at the first name.
pub open spec fn is_protocol_error_record(r: RecordView) -> bool {
    r == RecordView {
        name_offset: 12,
        answer_type: QType::TXT,
        class: QClass::Internet,
        ttl: 0,
        rd_length: 0,
        data: Seq::<u8>::empty(),
    }
}

impl DNSMessage {
    /// Serialise the message for the wire.
    pub fn to_bytes(&self) -> (r: Vec<u8>)
        ensures
            r@ == message_bytes(*self),
    {
        let header = self.header.to_bytes();
        let mut header_bytes = vstd::slice::slice_to_vec(header.as_slice());
        let mut body_bytes = questions_to_bytes(&self.questions);
        let mut answer_bytes = records_to_bytes(&self.answer_records);
        let mut authority_bytes = records_to_bytes(&self.authority_records);
        let mut additional_bytes = records_to_bytes(&self.additional_records);
        header_bytes.append(&mut body_bytes);
        header_bytes.append(&mut answer_bytes);
        header_bytes.append(&mut authority_bytes);
        header_bytes.append(&mut additional_bytes);
        header_bytes
    }

    /// A request for the IPv4 address of one host name.
    pub fn req_from_hostname(peer: PeerAddr, id: u16, hostname: String) -> (r: DNSMessage)
        ensures
            r.header == request_header(id, 1),
            r.questions@.len() == 1,
            r.questions@[0] == (DNSQuestion { qname: hostname, qtype: QType::A, qclass: QClass::Internet }),
            r.answer_records@.len() == 0,
            r.authority_records@.len() == 0,
            r.additional_records@.len() == 0,
            r.peer == peer,
    {
        DNSMessage {
            header: DNSHeader::new_request(id, None),
            questions: vec![DNSQuestion { qname: hostname, qtype: QType::A, qclass: QClass::Internet }],
            answer_records: Vec::new(),
            authority_records: Vec::new(),
            additional_records: Vec::new(),
            peer,
        }
    }

    /// A request for the IPv4 addresses of several host names, in order.
    pub fn reqs_from_hostnames(peer: PeerAddr, id: u16, hostnames: Vec<String>) -> (r: DNSMessage)
        requires
            hostnames@.len() <= u16::MAX,
        ensures
            r.header == request_header(id, hostnames@.len() as u16),
            r.questions@.len() == hostnames@.len(),
            forall|i: int|
                0 <= i < hostnames@.len() ==> #[trigger] r.questions@[i] == (DNSQuestion {
                    qname: hostnames@[i],
                    qtype: QType::A,
                    qclass: QClass::Internet,
                }),
            r.answer_records@.len() == 0,
            r.authority_records@.len() == 0,
            r.additional_records@.len() == 0,
            r.peer == peer,
    {
        let count = hostnames.len() as u16;
        let mut questions: Vec<DNSQuestion> = Vec::new();
        let mut i: usize = 0;
        while i < hostnames.len()
            invariant
                i <= hostnames@.len(),
                questions@.len() == i,
                forall|j: int|
                    0 <= j < i ==> #[trigger] questions@[j] == (DNSQuestion {
                        qname: hostnames@[j],
                        qtype: QType::A,
                        qclass: QClass::Internet,
                    }),
            decreases hostnames@.len() - i,
        {
            questions.push(
                DNSQuestion { qname: hostnames[i].clone(), qtype: QType::A, qclass: QClass::Internet },
            );
            i = i + 1;
        }
        DNSMessage {
            header: DNSHeader::new_request(id, Some(count)),
            questions,
            answer_records: Vec::new(),
            authority_records: Vec::new(),
            additional_records: Vec::new(),
            peer,
        }
    }

    /// A response answering each question with an A record whose address `ip` gives for it.
    pub fn a_resp_from_request(&self, ip: impl Fn(&DNSQuestion) -> [u8; 4]) -> (r: DNSMessage)
        requires
            forall|q: &DNSQuestion| #[trigger] ip.requires((q,)),
            self.questions@.len() <= u16::MAX,
        ensures
            echoes(r, *self),
            r.header == response_header(self.header, ResponseCode::NoError, self.questions@.len() as u16, true),
            r.answer_records@.len() == self.questions@.len(),
            forall|i: int|
                0 <= i < self.questions@.len() ==> {
                    let a = #[trigger] r.answer_records@[i];
                    &&& a.r_data matches RData::A(x) && ip.ensures((&self.questions@[i],), x.rdata)
                    &&& a.name_offset == 12
                    &&& a.answer_type == self.questions@[i].qtype
                    &&& a.class == self.questions@[i].qclass
                    &&& a.ttl == 0
                    &&& a.rd_length == 4
                },
            r.authority_records@.len() == 0,
            r.additional_records@.len() == 0,
    {
        let mut answers: Vec<ResourceRecord> = Vec::new();
        let mut i: usize = 0;
        while i < self.questions.len()
            invariant
                i <= self.questions@.len(),
                answers@.len() == i,
                forall|q: &DNSQuestion| #[trigger] ip.requires((q,)),
                forall|j: int|
                    0 <= j < i ==> {
                        let a = #[trigger] answers@[j];
                        &&& a.r_data matches RData::A(x) && ip.ensures((&self.questions@[j],), x.rdata)
                        &&& a.name_offset == 12
                        &&& a.answer_type == self.questions@[j].qtype
                        &&& a.class == self.questions@[j].qclass
                        &&& a.ttl == 0
                        &&& a.rd_length == 4
                    },
            decreases self.questions@.len() - i,
        {
            let q = &self.questions[i];
            let addr = ip(q);
            let data = RData::A(ARdata::from(addr));
            proof {
                assert(rdata_bytes(data).len() == 4);
            }
            answers.push(ResourceRecord::from_query(q, 12, data, None));
            i = i + 1;
        }
        let mut header = self.header;
        header.direction = Direction::Response;
        header.response = ResponseCode::NoError;
        header.answer_record_count = answers.len() as u16;
        header.authority_record_count = 0;
        header.additional_record_count = 0;
        if header.recursion_desired {
            header.recursion_available = true;
        }
        DNSMessage {
            header,
            questions: duplicate_questions(&self.questions),
            answer_records: answers,
            authority_records: Vec::new(),
            additional_records: Vec::new(),
            peer: self.peer,
        }
    }

    /// A "not implemented" response that answers nothing, for traffic outside the protocol.
    pub fn dumb_resp_from_request(&self) -> (r: DNSMessage)
        ensures
            echoes(r, *self),
            r.header == response_header(self.header, ResponseCode::NotImplemented, 0, false),
            r.answer_records@.len() == 0,
            r.authority_records@.len() == 0,
            r.additional_records@.len() == 0,
    {
        let mut header = self.header;
        header.direction = Direction::Response;
        header.response = ResponseCode::NotImplemented;
        header.answer_record_count = 0;
        header.authority_record_count = 0;
        header.additional_record_count = 0;
        DNSMessage {
            header,
            questions: duplicate_questions(&self.questions),
            answer_records: Vec::new(),
            authority_records: Vec::new(),
            additional_records: Vec::new(),
            peer: self.peer,
        }
    }

    /// A successful response with no records yet.
    pub fn empty_resp_from_request(&self) -> (r: DNSMessage)
        ensures
            echoes(r, *self),
            r.header == response_header(self.header, ResponseCode::NoError, 0, true),
            r.answer_records@.len() == 0,
            r.authority_records@.len() == 0,
            r.additional_records@.len() == 0,
    {
        let mut header = self.header;
        header.direction = Direction::Response;
        header.response = ResponseCode::NoError;
        header.answer_record_count = 0;
        header.authority_record_count = 0;
        header.additional_record_count = 0;
        if header.recursion_desired {
            header.recursion_available = true;
        }
        DNSMessage {
            header,
            questions: duplicate_questions(&self.questions),
            answer_records: Vec::new(),
            authority_records: Vec::new(),
            additional_records: Vec::new(),
            peer: self.peer,
        }
    }

    /// A server-failure response with one empty TXT answer; the condition itself is not
    /// written on the wire.
    pub fn protocol_error_from_request(&self, _error_code: RequestError) -> (r: DNSMessage)
        ensures
            echoes(r, *self),
            r.header == response_header(self.header, ResponseCode::ServerFailure, 1, false),
            r.answer_records@.len() == 1,
            is_protocol_error_record(r.answer_records@[0]@),
            r.authority_records@.len() == 0,
            r.additional_records@.len() == 0,
    {
        let txt = TXTRdata::from(String::new());
        let record = ResourceRecord {
            name_offset: 12,
            answer_type: QType::TXT,
            class: QClass::Internet,
            ttl: 0,
            rd_length: 0,
            r_data: RData::Txt(txt),
        };
        proof {
            assert(vstd::utf8::encode_utf8(Seq::<char>::empty()) =~= Seq::<u8>::empty()) by {
                reveal_with_fuel(vstd::utf8::encode_utf8, 1);
            }
        }
        let mut header = self.header;
        header.direction = Direction::Response;
        header.response = ResponseCode::ServerFailure;
        header.answer_record_count = 1;
        header.authority_record_count = 0;
        header.additional_record_count = 0;
        DNSMessage {
            header,
            questions: duplicate_questions(&self.questions),
            answer_records: vec![record],
            authority_records: Vec::new(),
            additional_records: Vec::new(),
            peer: self.peer,
        }
    }
}

} // verus!
