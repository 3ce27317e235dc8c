//! Reading DNS structures back from the bytes of a network message.

use vstd::prelude::*;
use crate::byte::{be16, be16_bytes, lemma_be16_bytes, two_byte_extraction};
use crate::message::message::{message_bytes, DNSMessage};
use crate::message::question::{lemma_questions_at, lemma_questions_bytes_front, question_bytes, question_views, questions_bytes, questions_from_bytes, questions_parse, QuestionParseError, QuestionView};
use crate::string::is_wire_name;
use crate::message::record::{is_wire_record, lemma_records_at, read_records, record_views, records_bytes, records_read, RecordParseError, RecordView};
use crate::net::NetworkMessage;
use crate::message::header::{
    bit, flags_word, header_bytes, header_from_bytes, Direction, DNSHeader, HeaderParseError,
    Opcode, ResponseCode,
};

verus! {

pub const ID_START: usize = 0;
pub const FLAGS_START: usize = 2;
pub const DIRECTION_SHIFT: usize = 15;
pub const OPCODE_SHIFT: usize = 11;
pub const AUTHORITATIVE_SHIFT: usize = 10;
pub const TRUNCATION_SHIFT: usize = 9;
pub const RECURSION_DESIRED_SHIFT: usize = 8;
pub const RECURSION_AVAILABLE_SHIFT: usize = 7;
pub const ZEROES_SHIFT: usize = 4;
pub const QUESTION_COUNT_START: usize = 4;
pub const ANSWER_RECORD_COUNT_START: usize = 6;
pub const AUTHORITY_RECORD_COUNT_START: usize = 8;
pub const ADDITIONAL_RECORD_COUNT_START: usize = 10;

/// Serialise a header into its 12 wire bytes.
pub fn parse_header_to_bytes(header: &DNSHeader) -> (r: [u8; 12])
    ensures
        r@ == header_bytes(*header),
{
    header.to_bytes()
}

/// Read a header from its 12 wire bytes; an unknown opcode or response code is an error
/// that carries the offending value.
pub fn parse_header(header: &[u8; 12]) -> (r: Result<DNSHeader, HeaderParseError>)
    ensures
        r == header_from_bytes(header@),
{
    let bytes = header.as_slice();
    let id = two_byte_extraction(bytes, ID_START);
    let flags = two_byte_extraction(bytes, FLAGS_START);
    assert(flags & 0x8000 == 0 <==> flags / 0x8000 != 1) by (bit_vector);
    let direction = if flags & 0x8000 == 0 {
        Direction::Request
    } else {
        Direction::Response
    };
    let opcode_bits = (flags & (0b1111u16 << 11u16)) >> 11u16;
    assert((flags & (0b1111u16 << 11u16)) >> 11u16 == (flags / 0x800) % 16) by (bit_vector);
    let opcode = match Opcode::from_code(opcode_bits) {
        Ok(o) => o,
        Err(e) => {
            return Err(HeaderParseError::OpcodeParse(e));
        },
    };
    assert((flags & 0x400 != 0) == ((flags / 0x400) % 2 == 1)) by (bit_vector);
    assert((flags & 0x200 != 0) == ((flags / 0x200) % 2 == 1)) by (bit_vector);
    assert((flags & 0x100 != 0) == ((flags / 0x100) % 2 == 1)) by (bit_vector);
    assert((flags & 0x80 != 0) == ((flags / 0x80) % 2 == 1)) by (bit_vector);
    assert((flags & (0b111u16 << 4u16) == 0) == ((flags / 0x10) % 8 == 0)) by (bit_vector);
    assert(flags & 0b1111 == flags % 16) by (bit_vector);
    let authoritative = (flags & 0x400) != 0;
    let truncation = (flags & 0x200) != 0;
    let recursion_desired = (flags & 0x100) != 0;
    let recursion_available = (flags & 0x80) != 0;
    let zeroes = (flags & (0b111u16 << 4u16)) == 0;
    let response = match ResponseCode::from_code(flags & 0b1111) {
        Ok(c) => c,
        Err(e) => {
            return Err(HeaderParseError::ResponseCodeParse(e));
        },
    };
    let question_count = two_byte_extraction(bytes, QUESTION_COUNT_START);
    let answer_record_count = two_byte_extraction(bytes, ANSWER_RECORD_COUNT_START);
    let authority_record_count = two_byte_extraction(bytes, AUTHORITY_RECORD_COUNT_START);
    let additional_record_count = two_byte_extraction(bytes, ADDITIONAL_RECORD_COUNT_START);
    Ok(
        DNSHeader {
            id,
            direction,
            opcode,
            authoritative,
            truncation,
            recursion_desired,
            recursion_available,
            valid_zeroes: zeroes,
            response,
            question_count,
            answer_record_count,
            authority_record_count,
            additional_record_count,
        },
    )
}

/// Decoding the wire bytes of a header gives that header back, for every header whose
/// reserved flag bits are marked as zero (the encoder always writes them as zero).
pub proof fn lemma_header_round_trip(h: DNSHeader)
    requires
        h.valid_zeroes,
    ensures
        header_from_bytes(header_bytes(h)) == Ok::<DNSHeader, HeaderParseError>(h),
{
    let b = header_bytes(h);
    let f = flags_word(h);
    let d = bit(h.direction == Direction::Response);
    let o = h.opcode.spec_code();
    let a = bit(h.authoritative);
    let t = bit(h.truncation);
    let rd = bit(h.recursion_desired);
    let ra = bit(h.recursion_available);
    let rc = h.response.spec_code();
    assert(f == d * 0x8000 + o * 0x800 + a * 0x400 + t * 0x200 + rd * 0x100 + ra * 0x80 + rc);
    assert({
        &&& f / 0x8000 == d
        &&& (f / 0x800) % 16 == o
        &&& (f / 0x400) % 2 == a
        &&& (f / 0x200) % 2 == t
        &&& (f / 0x100) % 2 == rd
        &&& (f / 0x80) % 2 == ra
        &&& (f / 0x10) % 8 == 0
        &&& f % 16 == rc
    }) by (bit_vector)
        requires
            d <= 1 && o <= 3 && a <= 1 && t <= 1 && rd <= 1 && ra <= 1 && rc <= 10,
            f == d * 0x8000 + o * 0x800 + a * 0x400 + t * 0x200 + rd * 0x100 + ra * 0x80 + rc,
    ;
    lemma_be16_bytes(h.id);
    lemma_be16_bytes(f);
    lemma_be16_bytes(h.question_count);
    lemma_be16_bytes(h.answer_record_count);
    lemma_be16_bytes(h.authority_record_count);
    lemma_be16_bytes(h.additional_record_count);
    assert(b[0] == be16_bytes(h.id)[0] && b[1] == be16_bytes(h.id)[1]);
    assert(b[2] == be16_bytes(f)[0] && b[3] == be16_bytes(f)[1]);
    assert(b[4] == be16_bytes(h.question_count)[0] && b[5] == be16_bytes(h.question_count)[1]);
    assert(b[6] == be16_bytes(h.answer_record_count)[0] && b[7] == be16_bytes(
        h.answer_record_count,
    )[1]);
    assert(b[8] == be16_bytes(h.authority_record_count)[0] && b[9] == be16_bytes(
        h.authority_record_count,
    )[1]);
    assert(b[10] == be16_bytes(h.additional_record_count)[0] && b[11] == be16_bytes(
        h.additional_record_count,
    )[1]);
}

/// Why a received message could not be read.
#[derive(Clone, Copy, Debug, PartialEq, Eq, Structural)]
pub enum RequestParseError {
    HeaderParse(HeaderParseError),
    QuesionsParse(QuestionParseError),
    RecordParse(RecordParseError),
    /// The records read fall short of the sum of the declared counts: (declared, read)
    RecordCount(u32, usize),
}

/// The sections of the message in `buf`: the header from the first 12 bytes, the questions it
/// counts, then its answer, authority and additional records; or why they cannot be read.
pub open spec fn message_sections(buf: Seq<u8>) -> Result<(DNSHeader, Seq<QuestionView>, Seq<RecordView>, Seq<RecordView>, Seq<RecordView>), RequestParseError> {
    match header_from_bytes(buf.subrange(0, 12)) {
        Err(e) => Err(RequestParseError::HeaderParse(e)),
        Ok(h) => match questions_parse(buf.subrange(12, buf.len() as int), h.question_count) {
            Err(e) => Err(RequestParseError::QuesionsParse(e)),
            Ok((qs, rest)) => match records_read(rest, h.answer_record_count) {
                Err(e) => Err(RequestParseError::RecordParse(e)),
                Ok((an, rest2)) => match records_read(rest2, h.authority_record_count) {
                    Err(e) => Err(RequestParseError::RecordParse(e)),
                    Ok((au, rest3)) => match records_read(rest3, h.additional_record_count) {
                        Err(e) => Err(RequestParseError::RecordParse(e)),
                        Ok((ad, _)) => {
                            let declared = h.answer_record_count + h.authority_record_count
                                + h.additional_record_count;
                            let read = an.len() + au.len() + ad.len();
                            if read != declared {
                                Err(RequestParseError::RecordCount(declared as u32, read as usize))
                            } else {
                                Ok((h, qs, an, au, ad))
                            }
                        },
                    },
                },
            },
        },
    }
}

/// Decode a received datagram into a message addressed to the same peer. A declared record
/// count that the bytes do not fill is an error, not silently tolerated.
pub fn parse_message(msg: NetworkMessage) -> (r: Result<DNSMessage, RequestParseError>)
    requires
        msg.buffer@.len() >= 12,
    ensures
        match message_sections(msg.buffer@) {
            Ok((h, qs, an, au, ad)) => r matches Ok(m) && m.header == h && question_views(m.questions@) == qs
                && record_views(m.answer_records@) == an && record_views(m.authority_records@) == au
                && record_views(m.additional_records@) == ad && m.peer == msg.peer,
            Err(e) => r == Err::<DNSMessage, RequestParseError>(e),
        },
{
    let buf = &msg.buffer;
    let head: [u8; 12] = [
        buf[0],
        buf[1],
        buf[2],
        buf[3],
        buf[4],
        buf[5],
        buf[6],
        buf[7],
        buf[8],
        buf[9],
        buf[10],
        buf[11],
    ];
    assert(head@ =~= buf@.subrange(0, 12));
    let header = match parse_header(&head) {
        Err(e) => {
            return Err(RequestParseError::HeaderParse(e));
        },
        Ok(h) => h,
    };
    let mut trimmed: Vec<u8> = Vec::new();
    let mut j: usize = 12;
    while j < buf.len()
        invariant
            12 <= j <= buf@.len(),
            trimmed@ == buf@.subrange(12, j as int),
        decreases buf@.len() - j,
    {
        trimmed.push(buf[j]);
        j = j + 1;
        assert(trimmed@ =~= buf@.subrange(12, j as int));
    }
    let (questions, remaining) = match questions_from_bytes(trimmed, header.question_count) {
        Err(e) => {
            return Err(RequestParseError::QuesionsParse(e));
        },
        Ok(found) => found,
    };
    let (answer_records, rest2) = match read_records(remaining, header.answer_record_count) {
        Err(e) => {
            return Err(RequestParseError::RecordParse(e));
        },
        Ok(found) => found,
    };
    let (authority_records, rest3) = match read_records(rest2, header.authority_record_count) {
        Err(e) => {
            return Err(RequestParseError::RecordParse(e));
        },
        Ok(found) => found,
    };
    let (additional_records, _) = match read_records(rest3, header.additional_record_count) {
        Err(e) => {
            return Err(RequestParseError::RecordParse(e));
        },
        Ok(found) => found,
    };
    let declared: u32 = header.answer_record_count as u32 + header.authority_record_count as u32
        + header.additional_record_count as u32;
    let read = answer_records.len() + authority_records.len() + additional_records.len();
    if read != declared as usize {
        return Err(RequestParseError::RecordCount(declared, read));
    }
    Ok(
        DNSMessage {
            header,
            questions,
            answer_records,
            authority_records,
            additional_records,
            peer: msg.peer,
        },
    )
}

/// Decoding the wire bytes of a message gives back its header and sections, for every
/// message whose header counts its sections, with at least one question, names the wire
/// carries (see `is_wire_name`), records the wire carries (see `is_wire_record`), and the
/// reserved flag bits marked zero.
#[verifier::rlimit(60)]
pub proof fn lemma_message_round_trip(m: DNSMessage)
    requires
        m.header.valid_zeroes,
        m.header.question_count == m.questions@.len() >= 1,
        m.header.answer_record_count == m.answer_records@.len(),
        m.header.authority_record_count == m.authority_records@.len(),
        m.header.additional_record_count == m.additional_records@.len(),
        forall|i: int| 0 <= i < m.questions@.len() ==> is_wire_name((#[trigger] m.questions@[i]).qname@),
        forall|i: int| 0 <= i < m.answer_records@.len() ==> is_wire_record((#[trigger] m.answer_records@[i])@),
        forall|i: int| 0 <= i < m.authority_records@.len() ==> is_wire_record((#[trigger] m.authority_records@[i])@),
        forall|i: int| 0 <= i < m.additional_records@.len() ==> is_wire_record((#[trigger] m.additional_records@[i])@),
    ensures
        message_sections(message_bytes(m)) == Ok::<(DNSHeader, Seq<QuestionView>, Seq<RecordView>, Seq<RecordView>, Seq<RecordView>), RequestParseError>((
            m.header,
            question_views(m.questions@),
            record_views(m.answer_records@),
            record_views(m.authority_records@),
            record_views(m.additional_records@),
        )),
{
    let qs = question_views(m.questions@);
    let an = record_views(m.answer_records@);
    let au = record_views(m.authority_records@);
    let ad = record_views(m.additional_records@);
    let hb = header_bytes(m.header);
    let qb = questions_bytes(qs);
    let ab = records_bytes(an);
    let ub = records_bytes(au);
    let db = records_bytes(ad);
    let buf = message_bytes(m);
    assert(buf =~= hb + (qb + (ab + (ub + db))));
    assert(hb.len() == 12);
    assert(buf.subrange(0, 12) =~= hb);
    lemma_header_round_trip(m.header);
    let body = buf.subrange(12, buf.len() as int);
    assert(body =~= qb + (ab + (ub + db)));
    assert forall|i: int| 0 <= i < qs.len() implies is_wire_name((#[trigger] qs[i]).qname) by {
        assert(qs[i].qname == m.questions@[i].qname@);
    }
    lemma_questions_at(qs, ab + (ub + db), body.len() as usize);
    lemma_questions_bytes_front(qs[0], qs.drop_first());
    assert(qs =~= seq![qs[0]] + qs.drop_first());
    assert(question_bytes(qs[0]).len() >= 4);
    assert(body.subrange(qb.len() as int, body.len() as int) =~= ab + (ub + db));
    assert forall|i: int| 0 <= i < an.len() implies is_wire_record(#[trigger] an[i]) by {
        assert(an[i] == m.answer_records@[i]@);
    }
    assert forall|i: int| 0 <= i < au.len() implies is_wire_record(#[trigger] au[i]) by {
        assert(au[i] == m.authority_records@[i]@);
    }
    assert forall|i: int| 0 <= i < ad.len() implies is_wire_record(#[trigger] ad[i]) by {
        assert(ad[i] == m.additional_records@[i]@);
    }
    let r1 = ab + (ub + db);
    lemma_records_at(an, ub + db);
    assert(r1.subrange(ab.len() as int, r1.len() as int) =~= ub + db);
    let r2 = ub + db;
    lemma_records_at(au, db);
    assert(r2.subrange(ub.len() as int, r2.len() as int) =~= db);
    lemma_records_at(ad, Seq::<u8>::empty());
    assert(db + Seq::<u8>::empty() =~= db);
    assert(db.subrange(db.len() as int, db.len() as int) =~= Seq::<u8>::empty());
    assert(header_from_bytes(buf.subrange(0, 12)) == Ok::<DNSHeader, HeaderParseError>(m.header));
    assert(questions_parse(body, m.header.question_count) == Ok::<(Seq<QuestionView>, Seq<u8>), QuestionParseError>((qs, r1)));
    assert(records_read(r1, m.header.answer_record_count) == Ok::<(Seq<RecordView>, Seq<u8>), RecordParseError>((an, r2)));
    assert(records_read(r2, m.header.authority_record_count) == Ok::<(Seq<RecordView>, Seq<u8>), RecordParseError>((au, db)));
    assert(records_read(db, m.header.additional_record_count) == Ok::<(Seq<RecordView>, Seq<u8>), RecordParseError>((ad, Seq::<u8>::empty())));
}

} // verus!
