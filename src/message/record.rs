//! Resource records: the closed set of record data kinds, the record wire format and its parser.

use vstd::prelude::*;
use vstd::utf8::encode_utf8;
use vstd::slice::slice_to_vec;
use crate::byte::{be16, be16_bytes, be32, be32_bytes, four_byte_combine, four_byte_split, lemma_be16_bytes, lemma_be32_bytes, push_split_bytes, two_byte_combine};
use crate::message::question::{DNSQuestion, QClass, QType};
use crate::string::{encode_domain_name, encoded_name, label_codec_holds};
use crate::text::split_dots;

verus! {

broadcast use vstd::string::group_string_axioms;

/// Opaque record data, kept byte for byte.
#[derive(Clone, Debug)]
pub struct RawRData {
    pub rdata: Vec<u8>,
}

impl RawRData {
    pub fn from(rdata: Vec<u8>) -> (r: RawRData)
        ensures
            r.rdata == rdata,
    {
        RawRData { rdata }
    }

    pub fn to_bytes(&self) -> (r: Vec<u8>)
        ensures
            r@ == self.rdata@,
    {
        slice_to_vec(self.rdata.as_slice())
    }
}

/// An IPv4 address, as its four octets.
#[derive(Clone, Copy, Debug)]
pub struct ARdata {
    pub rdata: [u8; 4],
}

impl ARdata {
    pub fn from(rdata: [u8; 4]) -> (r: ARdata)
        ensures
            r.rdata == rdata,
    {
        ARdata { rdata }
    }

    pub fn to_bytes(&self) -> (r: Vec<u8>)
        ensures
            r@ == self.rdata@,
    {
        slice_to_vec(self.rdata.as_slice())
    }
}

/// An IPv6 address, as its sixteen octets.
#[derive(Clone, Copy, Debug)]
pub struct AAAARdata {
    pub rdata: [u8; 16],
}

impl AAAARdata {
    pub fn from(rdata: [u8; 16]) -> (r: AAAARdata)
        ensures
            r.rdata == rdata,
    {
        AAAARdata { rdata }
    }

    pub fn to_bytes(&self) -> (r: Vec<u8>)
        ensures
            r@ == self.rdata@,
    {
        slice_to_vec(self.rdata.as_slice())
    }
}

/// A host name, written as an encoded domain name.
#[derive(Clone, Debug)]
pub struct CnameRdata {
    pub rdata: String,
}

impl CnameRdata {
    pub fn from(rdata: String) -> (r: CnameRdata)
        ensures
            r.rdata == rdata,
    {
        CnameRdata { rdata }
    }

    pub fn to_bytes(&self) -> (r: Vec<u8>)
        ensures
            r@ == encoded_name(self.rdata@),
            forall|i: int|
                0 <= i < split_dots(self.rdata@).len() ==> label_codec_holds(
                    #[trigger] split_dots(self.rdata@)[i],
                ),
    {
        encode_domain_name(&self.rdata)
    }
}

/// Text, written as its UTF-8 bytes.
#[derive(Clone, Debug)]
pub struct TXTRdata {
    pub rdata: String,
}

impl TXTRdata {
    pub fn from(rdata: String) -> (r: TXTRdata)
        ensures
            r.rdata == rdata,
    {
        TXTRdata { rdata }
    }

    pub fn to_bytes(&self) -> (r: Vec<u8>)
        ensures
            r@ == encode_utf8(self.rdata@),
    {
        slice_to_vec(self.rdata.as_str().as_bytes())
    }
}

/// The data of a resource record: one of a fixed set of kinds, each with its own wire form.
#[derive(Clone, Debug)]
pub enum RData {
    Raw(RawRData),
    A(ARdata),
    AAAA(AAAARdata),
    Cname(CnameRdata),
    Txt(TXTRdata),
}

/// The wire bytes of record data.
pub open spec fn rdata_bytes(d: RData) -> Seq<u8> {
    match d {
        RData::Raw(x) => x.rdata@,
        RData::A(x) => x.rdata@,
        RData::AAAA(x) => x.rdata@,
        RData::Cname(x) => encoded_name(x.rdata@),
        RData::Txt(x) => encode_utf8(x.rdata@),
    }
}

impl RData {
    pub fn to_bytes(&self) -> (r: Vec<u8>)
        ensures
            r@ == rdata_bytes(*self),
    {
        match self {
            RData::Raw(x) => x.to_bytes(),
            RData::A(x) => x.to_bytes(),
            RData::AAAA(x) => x.to_bytes(),
            RData::Cname(x) => x.to_bytes(),
            RData::Txt(x) => x.to_bytes(),
        }
    }
}

/// A resource record: a compressed name pointer, type, class, time to live and data.
#[derive(Clone, Debug)]
pub struct ResourceRecord {
    pub name_offset: u16,
    pub answer_type: QType,
    pub class: QClass,
    pub ttl: u32,
    pub rd_length: u16,
    pub r_data: RData,
}

/// The mathematical value of a resource record, with its data as wire bytes.
pub struct RecordView {
    pub name_offset: u16,
    pub answer_type: QType,
    pub class: QClass,
    pub ttl: u32,
    pub rd_length: u16,
    pub data: Seq<u8>,
}

impl View for ResourceRecord {
    type V = RecordView;

    open spec fn view(&self) -> RecordView {
        RecordView {
            name_offset: self.name_offset,
            answer_type: self.answer_type,
            class: self.class,
            ttl: self.ttl,
            rd_length: self.rd_length,
            data: rdata_bytes(self.r_data),
        }
    }
}

/// The views of a list of records.
pub open spec fn record_views(rs: Seq<ResourceRecord>) -> Seq<RecordView> {
    rs.map_values(|r: ResourceRecord| r@)
}

/// The wire bytes of a record: the name pointer with its two top bits set, type, class,
/// TTL, data length, then the data.
pub open spec fn record_bytes(r: RecordView) -> Seq<u8> {
    be16_bytes(r.name_offset | 0xC000u16) + be16_bytes(r.answer_type.spec_code()) + be16_bytes(
        r.class.spec_code(),
    ) + be32_bytes(r.ttl) + be16_bytes(r.rd_length) + r.data
}

/// The wire bytes of a list of records, one after the other.
pub open spec fn records_bytes(rs: Seq<RecordView>) -> Seq<u8>
    decreases rs.len(),
{
    if rs.len() == 0 {
        Seq::<u8>::empty()
    } else {
        records_bytes(rs.drop_last()) + record_bytes(rs.last())
    }
}

impl ResourceRecord {
    /// Serialise the record for the wire.
    pub fn to_bytes(&self) -> (r: Vec<u8>)
        ensures
            r@ == record_bytes(self@),
    {
        let mut data_bytes = self.r_data.to_bytes();
        let mut ret: Vec<u8> = Vec::new();
        push_split_bytes(&mut ret, self.name_offset | 0xC000u16);
        push_split_bytes(&mut ret, self.answer_type.code());
        push_split_bytes(&mut ret, self.class.code());
        let (ttl_1, ttl_2, ttl_3, ttl_4) = four_byte_split(self.ttl);
        ret.push(ttl_1);
        ret.push(ttl_2);
        ret.push(ttl_3);
        ret.push(ttl_4);
        push_split_bytes(&mut ret, self.rd_length);
        ret.append(&mut data_bytes);
        assert(ret@ =~= record_bytes(self@));
        ret
    }

    /// A record answering `query`, of its type and class, with the given data; the TTL is 0
    /// when none is given.
    pub fn from_query(query: &DNSQuestion, name_offset: u16, data: RData, ttl: Option<u32>) -> (r: ResourceRecord)
        requires
            rdata_bytes(data).len() <= u16::MAX,
        ensures
            r@ == (RecordView {
                name_offset,
                answer_type: query.qtype,
                class: query.qclass,
                ttl: match ttl {
                    Some(t) => t,
                    None => 0,
                },
                rd_length: rdata_bytes(data).len() as u16,
                data: rdata_bytes(data),
            }),
            r.r_data == data,
    {
        let len = data.to_bytes().len();
        ResourceRecord {
            name_offset,
            answer_type: query.qtype,
            class: query.qclass,
            ttl: match ttl {
                Some(t) => t,
                None => 0,
            },
            rd_length: len as u16,
            r_data: data,
        }
    }
}

/// Serialise a list of records for the wire.
pub fn records_to_bytes(answers: &Vec<ResourceRecord>) -> (r: Vec<u8>)
    ensures
        r@ == records_bytes(record_views(answers@)),
{
    let mut ret: Vec<u8> = Vec::new();
    let mut i: usize = 0;
    while i < answers.len()
        invariant
            i <= answers@.len(),
            ret@ == records_bytes(record_views(answers@.take(i as int))),
        decreases answers@.len() - i,
    {
        let mut b = answers[i].to_bytes();
        ret.append(&mut b);
        i = i + 1;
        assert(record_views(answers@.take(i as int)).drop_last() =~= record_views(
            answers@.take(i - 1),
        ));
    }
    assert(answers@.take(i as int) =~= answers@);
    ret
}

/// An answer that carries its owner name in full rather than as a pointer.
#[derive(Clone, Debug)]
pub struct DNSAnswer {
    pub name: String,
    pub answer_type: QType,
    pub class: QClass,
    pub ttl: u32,
    pub rd_length: u16,
    pub r_data: Vec<u8>,
}

impl DNSAnswer {
    /// Serialise the answer: its encoded name, type, class, TTL, data length, then the data.
    pub fn to_bytes(&self) -> (r: Vec<u8>)
        ensures
            r@ == encoded_name(self.name@) + be16_bytes(self.answer_type.spec_code()) + be16_bytes(
                self.class.spec_code(),
            ) + be32_bytes(self.ttl) + be16_bytes(self.rd_length) + self.r_data@,
    {
        let mut ret = encode_domain_name(&self.name);
        push_split_bytes(&mut ret, self.answer_type.code());
        push_split_bytes(&mut ret, self.class.code());
        let (ttl_1, ttl_2, ttl_3, ttl_4) = four_byte_split(self.ttl);
        ret.push(ttl_1);
        ret.push(ttl_2);
        ret.push(ttl_3);
        ret.push(ttl_4);
        push_split_bytes(&mut ret, self.rd_length);
        let mut data = slice_to_vec(self.r_data.as_slice());
        ret.append(&mut data);
        ret
    }
}

/// Why a record section could not be read.
#[derive(Clone, Copy, Debug, PartialEq, Eq, Structural, PartialOrd, Ord)]
pub enum RecordParseError {
    ShortLength(usize),
    QTypeParse(u16),
    QClassParse(u16),
}

/// The record at the start of `b` and how many bytes it takes; none when the bytes end
/// before its data does.
#[verifier::opaque]
pub open spec fn record_at(b: Seq<u8>) -> Option<Result<(RecordView, int), RecordParseError>> {
    if b.len() < 12 {
        None
    } else {
        let n = 12 + be16(b[10], b[11]);
        if n > b.len() {
            None
        } else {
            match QType::spec_from_code(be16(b[2], b[3]) as u16) {
                Err(v) => Some(Err(RecordParseError::QTypeParse(v))),
                Ok(answer_type) => match QClass::spec_from_code(be16(b[4], b[5]) as u16) {
                    Err(v) => Some(Err(RecordParseError::QClassParse(v))),
                    Ok(class) => Some(
                        Ok(
                            (
                                RecordView {
                                    name_offset: (be16(b[0], b[1]) % 0x4000) as u16,
                                    answer_type,
                                    class,
                                    ttl: be32(b[6], b[7], b[8], b[9]) as u32,
                                    rd_length: be16(b[10], b[11]) as u16,
                                    data: b.subrange(12, n),
                                },
                                n,
                            ),
                        ),
                    ),
                },
            }
        }
    }
}

/// Up to `count` records from the start of `b` and how many bytes were consumed, or the
/// first error; reading stops, consuming the rest, at a record whose bytes run out.
pub open spec fn records_at(b: Seq<u8>, count: nat) -> Result<(Seq<RecordView>, int), RecordParseError>
    decreases count,
{
    if count == 0 {
        Ok((Seq::<RecordView>::empty(), 0))
    } else {
        match record_at(b) {
            None => Ok((Seq::<RecordView>::empty(), b.len() as int)),
            Some(Err(e)) => Err(e),
            Some(Ok((r, n))) => match records_at(b.subrange(n, b.len() as int), (count - 1) as nat) {
                Ok((rs, m)) => Ok((seq![r] + rs, n + m)),
                Err(e) => Err(e),
            },
        }
    }
}

/// The records read from `bytes` until `total_answers` are read or the bytes run out, and
/// the bytes after them.
pub open spec fn records_read(bytes: Seq<u8>, total_answers: u16) -> Result<(Seq<RecordView>, Seq<u8>), RecordParseError> {
    match records_at(bytes, total_answers as nat) {
        Ok((rs, n)) => Ok((rs, bytes.subrange(n, bytes.len() as int))),
        Err(e) => Err(e),
    }
}

/// The `total_answers` records read from `bytes` and the bytes after them; bytes that run out
/// before the last record is complete are a `ShortLength` error carrying their number.
pub open spec fn records_parse(bytes: Seq<u8>, total_answers: u16) -> Result<(Seq<RecordView>, Seq<u8>), RecordParseError> {
    match records_read(bytes, total_answers) {
        Ok((rs, rest)) => if rs.len() == total_answers {
            Ok((rs, rest))
        } else {
            Err(RecordParseError::ShortLength(bytes.len() as usize))
        },
        Err(e) => Err(e),
    }
}

proof fn lemma_record_at_bounds(b: Seq<u8>)
    ensures
        match record_at(b) {
            Some(Ok((_, n))) => 12 <= n <= b.len(),
            _ => true,
        },
{
    reveal(record_at);
}

/// Read the record that starts at `pos`.
fn read_record(bytes: &Vec<u8>, pos: usize) -> (r: Option<Result<(ResourceRecord, usize), RecordParseError>>)
    requires
        pos <= bytes@.len(),
    ensures
        match record_at(bytes@.subrange(pos as int, bytes@.len() as int)) {
            None => r is None,
            Some(Err(e)) => r == Some(Err::<(ResourceRecord, usize), RecordParseError>(e)),
            Some(Ok((rec, n))) => r matches Some(Ok((x, end))) && x@ == rec && end == pos + n
                && x.r_data is Raw,
        },
{
    proof {
        reveal(record_at);
    }
    let len = bytes.len();
    let ghost b = bytes@.subrange(pos as int, len as int);
    if len - pos < 12 {
        return None;
    }
    let rd_length = two_byte_combine(bytes[pos + 10], bytes[pos + 11]);
    if rd_length as usize > len - pos - 12 {
        return None;
    }
    let end = pos + 12 + rd_length as usize;
    let answer_type = match QType::from_code(two_byte_combine(bytes[pos + 2], bytes[pos + 3])) {
        Err(v) => {
            return Some(Err(RecordParseError::QTypeParse(v)));
        },
        Ok(t) => t,
    };
    let class = match QClass::from_code(two_byte_combine(bytes[pos + 4], bytes[pos + 5])) {
        Err(v) => {
            return Some(Err(RecordParseError::QClassParse(v)));
        },
        Ok(c) => c,
    };
    let pointer = two_byte_combine(bytes[pos], bytes[pos + 1]);
    assert(pointer & 0x3FFFu16 == pointer % 0x4000) by (bit_vector);
    let ttl = four_byte_combine(bytes[pos + 6], bytes[pos + 7], bytes[pos + 8], bytes[pos + 9]);
    let mut data: Vec<u8> = Vec::new();
    let mut j: usize = pos + 12;
    while j < end
        invariant
            pos + 12 <= j <= end <= len == bytes@.len(),
            data@ == bytes@.subrange(pos + 12, j as int),
        decreases end - j,
    {
        data.push(bytes[j]);
        j = j + 1;
        assert(data@ =~= bytes@.subrange(pos + 12, j as int));
    }
    assert(data@ =~= b.subrange(12, 12 + rd_length as int));
    Some(
        Ok(
            (
                ResourceRecord {
                    name_offset: pointer & 0x3FFFu16,
                    answer_type,
                    class,
                    ttl,
                    rd_length,
                    r_data: RData::Raw(RawRData { rdata: data }),
                },
                end,
            ),
        ),
    )
}

/// Read records from the start of `bytes` until `total_answers` are read or the bytes run out,
/// each as its fixed fields and then exactly as many data bytes as its data length says, kept
/// as raw data; the bytes after them are handed back.
pub fn read_records(bytes: Vec<u8>, total_answers: u16) -> (r: Result<(Vec<ResourceRecord>, Vec<u8>), RecordParseError>)
    ensures
        match records_read(bytes@, total_answers) {
            Ok((rs, rest)) => r is Ok && record_views((r->Ok_0).0@) == rs && (r->Ok_0).1@ == rest
                && forall|i: int| 0 <= i < (r->Ok_0).0@.len() ==> (#[trigger] (r->Ok_0).0@[i]).r_data is Raw,
            Err(e) => r == Err::<(Vec<ResourceRecord>, Vec<u8>), RecordParseError>(e),
        },
        r is Ok ==> (r->Ok_0).0@.len() <= total_answers,
{
    let len = bytes.len();
    let mut records: Vec<ResourceRecord> = Vec::new();
    let mut pos: usize = 0;
    let mut k: u16 = 0;
    assert(bytes@.subrange(0, len as int) =~= bytes@);
    while k < total_answers
        invariant
            k <= total_answers,
            records@.len() == k,
            pos <= len == bytes@.len(),
            forall|i: int| 0 <= i < records@.len() ==> (#[trigger] records@[i]).r_data is Raw,
            records_at(bytes@, total_answers as nat) == match records_at(
                bytes@.subrange(pos as int, len as int),
                (total_answers - k) as nat,
            ) {
                Ok((rs, m)) => Ok((record_views(records@) + rs, pos + m)),
                Err(e) => Err(e),
            },
        decreases total_answers - k,
    {
        let ghost b = bytes@.subrange(pos as int, len as int);
        match read_record(&bytes, pos) {
            None => {
                proof {
                    assert(record_views(records@) + Seq::<RecordView>::empty() =~= record_views(records@));
                    assert(bytes@.subrange(pos + b.len(), len as int) =~= Seq::<u8>::empty());
                }
                return Ok((records, Vec::new()));
            },
            Some(Err(e)) => {
                assert(records_at(b, (total_answers - k) as nat) == Err::<(Seq<RecordView>, int), RecordParseError>(e));
                return Err(e);
            },
            Some(Ok((rec, next))) => {
                proof {
                    lemma_record_at_bounds(b);
                    let n = next - pos;
                    assert(b.subrange(n, b.len() as int) =~= bytes@.subrange(next as int, len as int));
                    let nr = records@.push(rec);
                    assert(record_views(nr) =~= record_views(records@).push(rec@));
                    match records_at(bytes@.subrange(next as int, len as int), (total_answers - k - 1) as nat) {
                        Ok((rs, m)) => {
                            assert(record_views(records@) + (seq![rec@] + rs) =~= record_views(nr) + rs);
                        },
                        Err(_) => {},
                    }
                }
                records.push(rec);
                pos = next;
                k = k + 1;
            },
        }
    }
    let mut remaining: Vec<u8> = Vec::new();
    let mut j: usize = pos;
    while j < len
        invariant
            pos <= j <= len == bytes@.len(),
            remaining@ == bytes@.subrange(pos as int, j as int),
        decreases len - j,
    {
        remaining.push(bytes[j]);
        j = j + 1;
        assert(remaining@ =~= bytes@.subrange(pos as int, j as int));
    }
    proof {
        if k == total_answers {
            assert(record_views(records@) + Seq::<RecordView>::empty() =~= record_views(records@));
        }
    }
    Ok((records, remaining))
}

/// Read `total_answers` records from the start of `bytes`, as `read_records` does; bytes that
/// run out before the last record is complete are a `ShortLength` error carrying their number.
pub fn records_from_bytes(bytes: Vec<u8>, total_answers: u16) -> (r: Result<(Vec<ResourceRecord>, Vec<u8>), RecordParseError>)
    ensures
        match records_parse(bytes@, total_answers) {
            Ok((rs, rest)) => r is Ok && record_views((r->Ok_0).0@) == rs && (r->Ok_0).1@ == rest
                && forall|i: int| 0 <= i < (r->Ok_0).0@.len() ==> (#[trigger] (r->Ok_0).0@[i]).r_data is Raw,
            Err(e) => r == Err::<(Vec<ResourceRecord>, Vec<u8>), RecordParseError>(e),
        },
        r is Ok ==> (r->Ok_0).0@.len() == total_answers,
{
    let len = bytes.len();
    match read_records(bytes, total_answers) {
        Err(e) => Err(e),
        Ok((records, rest)) => {
            if records.len() != total_answers as usize {
                return Err(RecordParseError::ShortLength(len));
            }
            Ok((records, rest))
        },
    }
}

/// A record the wire format carries unchanged: its name pointer fits in the 14 bits left
/// beside the two marker bits, and its data length is the length of its data.
pub open spec fn is_wire_record(r: RecordView) -> bool {
    r.name_offset < 0x4000 && r.rd_length == r.data.len()
}

/// Every wire code names the type or class it was written from.
pub proof fn lemma_type_class_codes(t: QType, c: QClass)
    ensures
        QType::spec_from_code(t.spec_code()) == Ok::<QType, u16>(t),
        QClass::spec_from_code(c.spec_code()) == Ok::<QClass, u16>(c),
{
}

proof fn lemma_records_bytes_front(r: RecordView, rest: Seq<RecordView>)
    ensures
        records_bytes(seq![r] + rest) == record_bytes(r) + records_bytes(rest),
    decreases rest.len(),
{
    if rest.len() == 0 {
        assert(seq![r] + rest =~= seq![r]);
        assert(seq![r].drop_last() =~= Seq::<RecordView>::empty());
        assert(record_bytes(r) + Seq::<u8>::empty() =~= record_bytes(r));
        assert(records_bytes(seq![r]) == records_bytes(Seq::<RecordView>::empty()) + record_bytes(r));
        assert(Seq::<u8>::empty() + record_bytes(r) =~= record_bytes(r));
    } else {
        lemma_records_bytes_front(r, rest.drop_last());
        assert((seq![r] + rest).drop_last() =~= seq![r] + rest.drop_last());
        assert((seq![r] + rest).last() == rest.last());
        assert(record_bytes(r) + records_bytes(rest.drop_last()) + record_bytes(rest.last())
            =~= record_bytes(r) + (records_bytes(rest.drop_last()) + record_bytes(rest.last())));
    }
}

proof fn lemma_record_at(r: RecordView, t: Seq<u8>)
    requires
        is_wire_record(r),
    ensures
        record_at(record_bytes(r) + t) == Some(Ok::<(RecordView, int), RecordParseError>((r, record_bytes(r).len() as int))),
        record_bytes(r).len() == 12 + r.data.len(),
{
    reveal(record_at);
    let b = record_bytes(r) + t;
    let p = r.name_offset | 0xC000u16;
    lemma_be16_bytes(p);
    lemma_be16_bytes(r.answer_type.spec_code());
    lemma_be16_bytes(r.class.spec_code());
    lemma_be32_bytes(r.ttl);
    lemma_be16_bytes(r.rd_length);
    lemma_type_class_codes(r.answer_type, r.class);
    let off = r.name_offset;
    assert(off < 0x4000 ==> (off | 0xC000u16) % 0x4000 == off) by (bit_vector);
    assert(b[0] == be16_bytes(p)[0] && b[1] == be16_bytes(p)[1]);
    assert(b[2] == be16_bytes(r.answer_type.spec_code())[0] && b[3] == be16_bytes(r.answer_type.spec_code())[1]);
    assert(b[4] == be16_bytes(r.class.spec_code())[0] && b[5] == be16_bytes(r.class.spec_code())[1]);
    assert(b[6] == be32_bytes(r.ttl)[0] && b[7] == be32_bytes(r.ttl)[1] && b[8] == be32_bytes(r.ttl)[2] && b[9] == be32_bytes(r.ttl)[3]);
    assert(b[10] == be16_bytes(r.rd_length)[0] && b[11] == be16_bytes(r.rd_length)[1]);
    assert(b.subrange(12, 12 + r.data.len() as int) =~= r.data);
}

pub proof fn lemma_records_at(rs: Seq<RecordView>, t: Seq<u8>)
    requires
        forall|i: int| 0 <= i < rs.len() ==> is_wire_record(#[trigger] rs[i]),
    ensures
        records_at(records_bytes(rs) + t, rs.len()) == Ok::<(Seq<RecordView>, int), RecordParseError>((rs, records_bytes(rs).len() as int)),
    decreases rs.len(),
{
    if rs.len() > 0 {
        let r = rs[0];
        let rest = rs.drop_first();
        assert(rs =~= seq![r] + rest);
        lemma_records_bytes_front(r, rest);
        let tail = records_bytes(rest) + t;
        let b = records_bytes(rs) + t;
        assert(b =~= record_bytes(r) + tail);
        lemma_record_at(r, tail);
        let n = record_bytes(r).len() as int;
        assert(b.subrange(n, b.len() as int) =~= tail);
        assert forall|i: int| 0 <= i < rest.len() implies is_wire_record(#[trigger] rest[i]) by {
            assert(rest[i] == rs[i + 1]);
        }
        lemma_records_at(rest, t);
        let m = records_bytes(rest).len() as int;
        assert(records_at(tail, rest.len()) == Ok::<(Seq<RecordView>, int), RecordParseError>((rest, m)));
        assert(record_at(b) == Some(Ok::<(RecordView, int), RecordParseError>((r, n))));
        assert(records_at(b, rs.len()) == Ok::<(Seq<RecordView>, int), RecordParseError>((seq![r] + rest, n + m)));
        assert(records_bytes(rs) == record_bytes(r) + records_bytes(rest));
        assert(records_bytes(rs).len() == n + m);
    } else {
        assert(rs =~= Seq::<RecordView>::empty());
    }
}

/// Reading the bytes of a list of records back, with the list's length as the count, gives
/// the same records and no bytes left over.
pub proof fn lemma_records_round_trip(rs: Seq<RecordView>)
    requires
        rs.len() <= u16::MAX,
        forall|i: int| 0 <= i < rs.len() ==> is_wire_record(#[trigger] rs[i]),
    ensures
        records_parse(records_bytes(rs), rs.len() as u16) == Ok::<(Seq<RecordView>, Seq<u8>), RecordParseError>((rs, Seq::<u8>::empty())),
{
    lemma_records_at(rs, Seq::<u8>::empty());
    let b = records_bytes(rs);
    assert(b + Seq::<u8>::empty() =~= b);
    assert(b.subrange(b.len() as int, b.len() as int) =~= Seq::<u8>::empty());
}

} // verus!
