use dnstp::message::{
    records_from_bytes, records_to_bytes, ARdata, CnameRdata, QClass, QType, RData, RawRData,
    RecordParseError, ResourceRecord, TXTRdata, DNSQuestion,
};

fn assert_record_eq(left: &ResourceRecord, right: &ResourceRecord) {
    assert_eq!(left.name_offset, right.name_offset);
    assert_eq!(left.answer_type, right.answer_type);
    assert_eq!(left.class, right.class);
    assert_eq!(left.ttl, right.ttl);
    assert_eq!(left.rd_length, right.rd_length);
    assert_eq!(left.r_data.to_bytes(), right.r_data.to_bytes());
}

fn raw_record(answer_type: QType, data: Vec<u8>) -> ResourceRecord {
    ResourceRecord {
        name_offset: 12,
        answer_type,
        class: QClass::Internet,
        ttl: 0,
        rd_length: data.len() as u16,
        r_data: RData::Raw(RawRData::from(data)),
    }
}

#[test]
fn tests_one_answer_back_and_forth() {
    let q = ResourceRecord {
        name_offset: 12,
        answer_type: QType::A,
        class: QClass::Internet,
        ttl: 0,
        rd_length: 1,
        r_data: RData::Raw(RawRData::from(vec![1])),
    };

    let mut q_bytes = q.to_bytes();
    q_bytes.append(&mut vec![0, 0, 0, 0, 0, 0]);

    let (q_reconstructed, q_remaining) = records_from_bytes(q_bytes, 1).unwrap();

    assert_record_eq(&q, &q_reconstructed[0]);
    assert_eq!(vec![0, 0, 0, 0, 0, 0], q_remaining);
}

#[test]
fn tests_two_answers_back_and_forth() {
    let q = ResourceRecord {
        name_offset: 12,
        answer_type: QType::A,
        class: QClass::Internet,
        ttl: 0,
        rd_length: 1,
        r_data: RData::Raw(RawRData::from(vec![1])),
    };

    let q_2 = ResourceRecord {
        name_offset: 12,
        answer_type: QType::AAAA,
        class: QClass::Internet,
        ttl: 0,
        rd_length: 3,
        r_data: RData::Raw(RawRData::from(vec![1, 2, 3])),
    };

    let mut q_bytes = q.to_bytes();
    q_bytes.append(&mut q_2.to_bytes());
    q_bytes.append(&mut vec![0, 0, 0, 0, 0, 0]);

    let (q_reconstructed, _) = records_from_bytes(q_bytes, 2).unwrap();

    assert_record_eq(&q, &q_reconstructed[0]);
    assert_record_eq(&q_2, &q_reconstructed[1]);
}

#[test]
fn zero_length_data_round_trips() {
    let q = raw_record(QType::A, vec![]);
    let q_2 = raw_record(QType::AAAA, vec![1, 2, 3]);

    let mut q_bytes = q.to_bytes();
    q_bytes.append(&mut q_2.to_bytes());
    q_bytes.append(&mut vec![7, 7]);

    let (back, rest) = records_from_bytes(q_bytes, 2).unwrap();
    assert_record_eq(&q, &back[0]);
    assert_record_eq(&q_2, &back[1]);
    assert_eq!(vec![7, 7], rest);
}

#[test]
fn record_wire_bytes() {
    let r = ResourceRecord {
        name_offset: 0x0102,
        answer_type: QType::TXT,
        class: QClass::Internet,
        ttl: 0x0A0B0C0D,
        rd_length: 2,
        r_data: RData::Txt(TXTRdata::from("hi".to_string())),
    };
    assert_eq!(
        vec![0xC1, 0x02, 0, 16, 0, 1, 0x0A, 0x0B, 0x0C, 0x0D, 0, 2, b'h', b'i'],
        r.to_bytes()
    );
    let (back, _) = records_from_bytes(r.to_bytes(), 1).unwrap();
    assert_eq!(0x0102, back[0].name_offset);
    assert_eq!(0x0A0B0C0D, back[0].ttl);
    assert_eq!(vec![b'h', b'i'], back[0].r_data.to_bytes());
}

#[test]
fn records_list_round_trip() {
    let rs = vec![raw_record(QType::A, vec![1, 2, 3, 4]), raw_record(QType::MX, vec![9])];
    let (back, rest) = records_from_bytes(records_to_bytes(&rs), 2).unwrap();
    assert_eq!(2, back.len());
    assert_record_eq(&rs[0], &back[0]);
    assert_record_eq(&rs[1], &back[1]);
    assert!(rest.is_empty());
}

#[test]
fn rdata_kinds_to_bytes() {
    assert_eq!(vec![127, 0, 0, 1], RData::A(ARdata::from([127, 0, 0, 1])).to_bytes());
    assert_eq!(
        vec![3, b'w', b'w', b'w', 1, b'x', 0],
        RData::Cname(CnameRdata::from("www.x".to_string())).to_bytes()
    );
    assert_eq!(vec![b'o', b'k'], RData::Txt(TXTRdata::from("ok".to_string())).to_bytes());
    let q = DNSQuestion::new("a".to_string(), QType::AAAA, QClass::Chaos);
    let r = ResourceRecord::from_query(&q, 12, RData::A(ARdata::from([1, 2, 3, 4])), None);
    assert_eq!(4, r.rd_length);
    assert_eq!(QType::AAAA, r.answer_type);
    assert_eq!(QClass::Chaos, r.class);
    assert_eq!(0, r.ttl);
}

#[test]
fn truncated_record_is_short_length() {
    let mut bytes = raw_record(QType::A, vec![1]).to_bytes();
    bytes.append(&mut vec![0xC0, 12, 0, 1]);
    let len = bytes.len();
    assert_eq!(Err(RecordParseError::ShortLength(len)), records_from_bytes(bytes, 2).map(|_| ()));
    assert_eq!(Err(RecordParseError::ShortLength(0)), records_from_bytes(vec![], 1).map(|_| ()));
    assert_eq!(0, records_from_bytes(vec![], 0).unwrap().0.len());
}

#[test]
fn unknown_record_type_and_class_are_reported() {
    let mut r = raw_record(QType::A, vec![1]).to_bytes();
    r[3] = 3;
    assert_eq!(Err(RecordParseError::QTypeParse(3)), records_from_bytes(r, 1).map(|_| ()));
    let mut r = raw_record(QType::A, vec![1]).to_bytes();
    r[5] = 2;
    assert_eq!(Err(RecordParseError::QClassParse(2)), records_from_bytes(r, 1).map(|_| ()));
}
