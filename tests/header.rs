use dnstp::byte::{two_byte_extraction, two_byte_split};
use dnstp::message::{
    parse_header, DNSHeader, Direction, HeaderParseError, Opcode, ResponseCode,
};

fn sample_header() -> DNSHeader {
    DNSHeader {
        id: 100,
        direction: Direction::Response,
        opcode: Opcode::Query,
        authoritative: true,
        truncation: false,
        recursion_desired: true,
        recursion_available: false,
        valid_zeroes: true,
        response: ResponseCode::NoError,

        question_count: 1,
        answer_record_count: 2,
        authority_record_count: 3,
        additional_record_count: 4,
    }
}

fn check_both_ways() {
    let header = sample_header();

    let parsed_bytes = header.to_bytes();

    let header_again = parse_header(&parsed_bytes).unwrap();

    assert_eq!(header.id, header_again.id);
    assert_eq!(header.direction, header_again.direction);
    assert_eq!(header.opcode, header_again.opcode);
    assert_eq!(header.authoritative, header_again.authoritative);
    assert_eq!(header.truncation, header_again.truncation);
    assert_eq!(header.recursion_desired, header_again.recursion_desired);
    assert_eq!(header.recursion_available, header_again.recursion_available);
    assert_eq!(header.valid_zeroes, header_again.valid_zeroes);
    assert_eq!(header.response, header_again.response);
    assert_eq!(header.question_count, header_again.question_count);
    assert_eq!(header.answer_record_count, header_again.answer_record_count);
    assert_eq!(header.authority_record_count, header_again.authority_record_count);
    assert_eq!(header.additional_record_count, header_again.additional_record_count);
}

fn check_extraction() {
    let buffer: [u8; 12] = core::array::from_fn(|i| (i + 1) as u8);

    let value = two_byte_extraction(&buffer, 0);
    assert_eq!(value, 258);

    let value = two_byte_extraction(&buffer, 2);
    assert_eq!(value, 772);
}

fn check_split() {
    let (val1, val2) = two_byte_split(258);
    assert_eq!(val1, 1);
    assert_eq!(val2, 2);

    let (val1, val2) = two_byte_split(772);
    assert_eq!(val1, 3);
    assert_eq!(val2, 4);
}

#[test]
fn message_parser_two_byte_extraction_test() {
    check_extraction();
}

#[test]
fn message_parser_two_byte_split_test() {
    check_split();
}

#[test]
fn message_parser_both_ways_test() {
    check_both_ways();
}

#[test]
fn request_parser_two_byte_extraction_test() {
    check_extraction();
}

#[test]
fn request_parser_two_byte_split_test() {
    check_split();
}

#[test]
fn request_parser_both_ways_test() {
    check_both_ways();
}

#[test]
fn header_wire_layout() {
    let header = DNSHeader {
        id: 0x1234,
        direction: Direction::Response,
        opcode: Opcode::Status,
        authoritative: true,
        truncation: true,
        recursion_desired: true,
        recursion_available: true,
        valid_zeroes: true,
        response: ResponseCode::NotZone,
        question_count: 1,
        answer_record_count: 2,
        authority_record_count: 3,
        additional_record_count: 0x0405,
    };
    // 1 0010 1 1 1 1 000 1010 = 0x978A
    assert_eq!([0x12, 0x34, 0x97, 0x8A, 0, 1, 0, 2, 0, 3, 4, 5], header.to_bytes());
    assert_eq!(header, parse_header(&header.to_bytes()).unwrap());
}

#[test]
fn new_request_header() {
    let h = DNSHeader::new_request(7, None);
    assert_eq!(1, h.question_count);
    assert_eq!(Direction::Request, h.direction);
    assert!(h.recursion_desired);
    assert_eq!(3, DNSHeader::new_request(7, Some(3)).question_count);
}

#[test]
fn unknown_opcode_and_response_code() {
    // opcode 5 in bits 11-14
    let bytes = [0, 0, 0b0010_1000, 0, 0, 0, 0, 0, 0, 0, 0, 0];
    assert_eq!(Err(HeaderParseError::OpcodeParse(5)), parse_header(&bytes));

    // response code 11
    let bytes = [0, 0, 0, 11, 0, 0, 0, 0, 0, 0, 0, 0];
    assert_eq!(Err(HeaderParseError::ResponseCodeParse(11)), parse_header(&bytes));

    // reserved bits set are reported, not rejected
    let bytes = [0, 0, 0, 0b0111_0000, 0, 0, 0, 0, 0, 0, 0, 0];
    assert!(!parse_header(&bytes).unwrap().valid_zeroes);
}
