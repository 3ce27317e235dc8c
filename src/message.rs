//! DNS message structures: header, questions, resource records and whole messages.

pub mod header;
pub mod message;
pub mod message_parser;
pub mod question;
pub mod record;

pub use header::{Direction, DNSHeader, HEADER_SIZE, HeaderParseError, Opcode, ResponseCode};
pub use message::{DNSMessage, MESSAGE_SIZE};
pub use message_parser::{parse_header, parse_header_to_bytes, parse_message, RequestParseError};
pub use question::{
    questions_from_bytes, questions_to_bytes, DNSQuestion, QClass, QType, QuestionParseError,
};
pub use record::{
    records_from_bytes, records_to_bytes, AAAARdata, ARdata, CnameRdata, DNSAnswer, RData, RawRData,
    RecordParseError, ResourceRecord, TXTRdata,
};
