//! The fixed 12-byte DNS header: identifier, flag word and four section counts.

use vstd::prelude::*;
use crate::byte::{be16, be16_bytes, two_byte_split};

verus! {

/// Size in bytes of a DNS header.
pub const HEADER_SIZE: usize = 12;

/// Whether the message is a request or the response to one.
#[derive(Clone, Copy, Debug, PartialEq, Eq, Structural, PartialOrd, Ord)]
pub enum Direction {
    Request,
    Response,
}

/// Operation code describing the purpose of the message.
#[derive(Clone, Copy, Debug, PartialEq, Eq, Structural, PartialOrd, Ord)]
pub enum Opcode {
    Query,
    RQuery,
    Status,
    Reserved,
}

impl Opcode {
    /// The four-bit wire code of the operation.
    pub open spec fn spec_code(self) -> u16 {
        match self {
            Opcode::Query => 0,
            Opcode::RQuery => 1,
            Opcode::Status => 2,
            Opcode::Reserved => 3,
        }
    }

    /// The operation with the given wire code, or the code itself when none has it.
    pub open spec fn spec_from_code(v: u16) -> Result<Opcode, u16> {
        if v == 0 {
            Ok(Opcode::Query)
        } else if v == 1 {
            Ok(Opcode::RQuery)
        } else if v == 2 {
            Ok(Opcode::Status)
        } else if v == 3 {
            Ok(Opcode::Reserved)
        } else {
            Err(v)
        }
    }

    #[verifier::when_used_as_spec(spec_code)]
    pub fn code(self) -> (r: u16)
        ensures
            r == self.spec_code(),
    {
        match self {
            Opcode::Query => 0,
            Opcode::RQuery => 1,
            Opcode::Status => 2,
            Opcode::Reserved => 3,
        }
    }

    /// Map a wire code back to an operation; an unknown code is handed back as the error.
    pub fn from_code(v: u16) -> (r: Result<Opcode, u16>)
        ensures
            r == Opcode::spec_from_code(v),
    {
        if v == 0 {
            Ok(Opcode::Query)
        } else if v == 1 {
            Ok(Opcode::RQuery)
        } else if v == 2 {
            Ok(Opcode::Status)
        } else if v == 3 {
            Ok(Opcode::Reserved)
        } else {
            Err(v)
        }
    }
}

/// Status of a request or response, and the nature of the error when there is one.
#[derive(Clone, Copy, Debug, PartialEq, Eq, Structural, PartialOrd, Ord)]
pub enum ResponseCode {
    NoError,
    FormatError,
    ServerFailure,
    NameError,
    NotImplemented,
    Refused,
    YXDomain,
    YXRRSet,
    NXRRSet,
    NotAuth,
    NotZone,
}

impl ResponseCode {
    /// The four-bit wire code of the status.
    pub open spec fn spec_code(self) -> u16 {
        match self {
            ResponseCode::NoError => 0,
            ResponseCode::FormatError => 1,
            ResponseCode::ServerFailure => 2,
            ResponseCode::NameError => 3,
            ResponseCode::NotImplemented => 4,
            ResponseCode::Refused => 5,
            ResponseCode::YXDomain => 6,
            ResponseCode::YXRRSet => 7,
            ResponseCode::NXRRSet => 8,
            ResponseCode::NotAuth => 9,
            ResponseCode::NotZone => 10,
        }
    }

    /// The status with the given wire code, or the code itself when none has it.
    pub open spec fn spec_from_code(v: u16) -> Result<ResponseCode, u16> {
        if v == 0 {
            Ok(ResponseCode::NoError)
        } else if v == 1 {
            Ok(ResponseCode::FormatError)
        } else if v == 2 {
            Ok(ResponseCode::ServerFailure)
        } else if v == 3 {
            Ok(ResponseCode::NameError)
        } else if v == 4 {
            Ok(ResponseCode::NotImplemented)
        } else if v == 5 {
            Ok(ResponseCode::Refused)
        } else if v == 6 {
            Ok(ResponseCode::YXDomain)
        } else if v == 7 {
            Ok(ResponseCode::YXRRSet)
        } else if v == 8 {
            Ok(ResponseCode::NXRRSet)
        } else if v == 9 {
            Ok(ResponseCode::NotAuth)
        } else if v == 10 {
            Ok(ResponseCode::NotZone)
        } else {
            Err(v)
        }
    }

    #[verifier::when_used_as_spec(spec_code)]
    pub fn code(self) -> (r: u16)
        ensures
            r == self.spec_code(),
    {
        match self {
            ResponseCode::NoError => 0,
            ResponseCode::FormatError => 1,
            ResponseCode::ServerFailure => 2,
            ResponseCode::NameError => 3,
            ResponseCode::NotImplemented => 4,
            ResponseCode::Refused => 5,
            ResponseCode::YXDomain => 6,
            ResponseCode::YXRRSet => 7,
            ResponseCode::NXRRSet => 8,
            ResponseCode::NotAuth => 9,
            ResponseCode::NotZone => 10,
        }
    }

    /// Map a wire code back to a status; an unknown code is handed back as the error.
    pub fn from_code(v: u16) -> (r: Result<ResponseCode, u16>)
        ensures
            r == ResponseCode::spec_from_code(v),
    {
        if v == 0 {
            Ok(ResponseCode::NoError)
        } else if v == 1 {
            Ok(ResponseCode::FormatError)
        } else if v == 2 {
            Ok(ResponseCode::ServerFailure)
        } else if v == 3 {
            Ok(ResponseCode::NameError)
        } else if v == 4 {
            Ok(ResponseCode::NotImplemented)
        } else if v == 5 {
            Ok(ResponseCode::Refused)
        } else if v == 6 {
            Ok(ResponseCode::YXDomain)
        } else if v == 7 {
            Ok(ResponseCode::YXRRSet)
        } else if v == 8 {
            Ok(ResponseCode::NXRRSet)
        } else if v == 9 {
            Ok(ResponseCode::NotAuth)
        } else if v == 10 {
            Ok(ResponseCode::NotZone)
        } else {
            Err(v)
        }
    }
}

/// A DNS header: flag fields and record counts.
#[derive(Clone, Copy, Debug, PartialEq, Eq, Structural, PartialOrd, Ord)]
pub struct DNSHeader {
    /// Identifier associating a response with its request
    pub id: u16,
    /// Is the message a request or the associated response
    pub direction: Direction,
    /// What the message does, e.g. query or reverse query
    pub opcode: Opcode,
    pub authoritative: bool,
    pub truncation: bool,
    pub recursion_desired: bool,
    pub recursion_available: bool,
    /// Whether the three reserved flag bits were zero
    pub valid_zeroes: bool,
    /// Status of the request or response
    pub response: ResponseCode,
    /// Number of questions; the same in a request and its response
    pub question_count: u16,
    pub answer_record_count: u16,
    pub authority_record_count: u16,
    pub additional_record_count: u16,
}

/// 1 for a set flag, 0 otherwise.
pub open spec fn bit(b: bool) -> u16 {
    if b {
        1
    } else {
        0
    }
}

/// The 16-bit flag word of a header: direction in bit 15, opcode in bits 11-14,
/// authoritative, truncation, recursion desired and recursion available in bits 10, 9, 8 and 7,
/// response code in bits 0-3.
pub open spec fn flags_word(h: DNSHeader) -> u16 {
    (bit(h.direction == Direction::Response) * 0x8000 + h.opcode.spec_code() * 0x800 + bit(
        h.authoritative,
    ) * 0x400 + bit(h.truncation) * 0x200 + bit(h.recursion_desired) * 0x100 + bit(
        h.recursion_available,
    ) * 0x80 + h.response.spec_code()) as u16
}

/// The 12 wire bytes of a header.
pub open spec fn header_bytes(h: DNSHeader) -> Seq<u8> {
    be16_bytes(h.id) + be16_bytes(flags_word(h)) + be16_bytes(h.question_count) + be16_bytes(
        h.answer_record_count,
    ) + be16_bytes(h.authority_record_count) + be16_bytes(h.additional_record_count)
}

/// Why a header could not be read.
#[derive(Clone, Copy, Debug, PartialEq, Eq, Structural, PartialOrd, Ord)]
pub enum HeaderParseError {
    OpcodeParse(u16),
    ResponseCodeParse(u16),
}

/// The header that 12 wire bytes hold, or why they hold none.
pub open spec fn header_from_bytes(b: Seq<u8>) -> Result<DNSHeader, HeaderParseError> {
    let flags = be16(b[2], b[3]);
    let opcode = Opcode::spec_from_code(((flags / 0x800) % 16) as u16);
    let response = ResponseCode::spec_from_code((flags % 16) as u16);
    if opcode is Err {
        Err(HeaderParseError::OpcodeParse(opcode->Err_0))
    } else if response is Err {
        Err(HeaderParseError::ResponseCodeParse(response->Err_0))
    } else {
        Ok(
            DNSHeader {
                id: be16(b[0], b[1]) as u16,
                direction: if flags / 0x8000 == 1 {
                    Direction::Response
                } else {
                    Direction::Request
                },
                opcode: opcode->Ok_0,
                authoritative: (flags / 0x400) % 2 == 1,
                truncation: (flags / 0x200) % 2 == 1,
                recursion_desired: (flags / 0x100) % 2 == 1,
                recursion_available: (flags / 0x80) % 2 == 1,
                valid_zeroes: (flags / 0x10) % 8 == 0,
                response: response->Ok_0,
                question_count: be16(b[4], b[5]) as u16,
                answer_record_count: be16(b[6], b[7]) as u16,
                authority_record_count: be16(b[8], b[9]) as u16,
                additional_record_count: be16(b[10], b[11]) as u16,
            },
        )
    }
}

fn flag_bit(b: bool) -> (r: u16)
    ensures
        r == bit(b),
{
    if b {
        1
    } else {
        0
    }
}

/// The header of a recursive query request with `count` questions.
pub open spec fn request_header(id: u16, count: u16) -> DNSHeader {
    DNSHeader {
        id,
        direction: Direction::Request,
        opcode: Opcode::Query,
        authoritative: false,
        truncation: false,
        recursion_desired: true,
        recursion_available: false,
        valid_zeroes: true,
        response: ResponseCode::NoError,
        question_count: count,
        answer_record_count: 0,
        authority_record_count: 0,
        additional_record_count: 0,
    }
}

impl DNSHeader {
    /// Serialise the header into its 12 wire bytes.
    pub fn to_bytes(&self) -> (r: [u8; 12])
        ensures
            r@ == header_bytes(*self),
    {
        let d = flag_bit(self.direction == Direction::Response);
        let o = self.opcode.code();
        let a = flag_bit(self.authoritative);
        let t = flag_bit(self.truncation);
        let rd = flag_bit(self.recursion_desired);
        let ra = flag_bit(self.recursion_available);
        let rc = self.response.code();
        let flags: u16 = (d << 15u16) | (o << 11u16) | (a << 10u16) | (t << 9u16) | (rd << 8u16) | (
        ra << 7u16) | rc;
        assert(flags == d * 0x8000 + o * 0x800 + a * 0x400 + t * 0x200 + rd * 0x100 + ra * 0x80 + rc)
            by (bit_vector)
            requires
                d <= 1 && o <= 3 && a <= 1 && t <= 1 && rd <= 1 && ra <= 1 && rc <= 10,
                flags == (d << 15u16) | (o << 11u16) | (a << 10u16) | (t << 9u16) | (rd << 8u16) | (
                ra << 7u16) | rc,
        ;
        let id = two_byte_split(self.id);
        let fl = two_byte_split(flags);
        let qc = two_byte_split(self.question_count);
        let an = two_byte_split(self.answer_record_count);
        let au = two_byte_split(self.authority_record_count);
        let ad = two_byte_split(self.additional_record_count);
        let r = [id.0, id.1, fl.0, fl.1, qc.0, qc.1, an.0, an.1, au.0, au.1, ad.0, ad.1];
        assert(r@ =~= header_bytes(*self));
        r
    }

    /// A recursive query request for `questions` questions (one when none is given).
    pub fn new_request(id: u16, questions: Option<u16>) -> (r: DNSHeader)
        ensures
            r == request_header(
                id,
                match questions {
                    None => 1,
                    Some(v) => v,
                },
            ),
    {
        DNSHeader {
            id,
            direction: Direction::Request,
            opcode: Opcode::Query,
            authoritative: false,
            truncation: false,
            recursion_desired: true,
            recursion_available: false,
            valid_zeroes: true,
            response: ResponseCode::NoError,
            question_count: match questions {
                None => 1,
                Some(v) => v,
            },
            answer_record_count: 0,
            authority_record_count: 0,
            additional_record_count: 0,
        }
    }
}

} // verus!
