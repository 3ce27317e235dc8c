use dnstp::message::{
    questions_from_bytes, questions_to_bytes, DNSQuestion, QClass, QType, QuestionParseError,
};
use dnstp::string::DomainDecodeError;

fn assert_questions_eq(left: &DNSQuestion, right: &DNSQuestion) {
    assert_eq!(left.qname, right.qname);
    assert_eq!(left.qclass, right.qclass);
    assert_eq!(left.qtype, right.qtype);
}

fn google() -> DNSQuestion {
    DNSQuestion { qname: "google.com".to_string(), qclass: QClass::Internet, qtype: QType::A }
}

fn duck() -> DNSQuestion {
    DNSQuestion { qname: "duck.com".to_string(), qclass: QClass::Internet, qtype: QType::AAAA }
}

fn facebook() -> DNSQuestion {
    DNSQuestion { qname: "facebook.com".to_string(), qclass: QClass::Hesiod, qtype: QType::CNAME }
}

#[test]
fn dns_question_one_question_back_and_forth() {
    let q = google();

    let q_bytes = q.to_bytes();

    let (q_reconstructed, _) = questions_from_bytes(q_bytes, 1).unwrap();

    assert_eq!(q.qname, q_reconstructed[0].qname);
    assert_eq!(q.qclass, q_reconstructed[0].qclass);
    assert_eq!(q.qtype, q_reconstructed[0].qtype);
}

#[test]
fn dns_question_two_questions_back_and_forth() {
    let q = google();
    let q2 = duck();

    let mut q_bytes = q.to_bytes();
    let mut q2_bytes = q2.to_bytes();

    q_bytes.append(&mut q2_bytes);

    let (q_reconstructed, _) = questions_from_bytes(q_bytes, 2).unwrap();

    assert_eq!(q.qname, q_reconstructed[0].qname);
    assert_eq!(q.qclass, q_reconstructed[0].qclass);
    assert_eq!(q.qtype, q_reconstructed[0].qtype);

    assert_eq!(q2.qname, q_reconstructed[1].qname);
    assert_eq!(q2.qclass, q_reconstructed[1].qclass);
    assert_eq!(q2.qtype, q_reconstructed[1].qtype);
}

/// Asked for two questions, the decoder stops after the second and hands the third back
/// undecoded; reading those bytes as one more question recovers it.
#[test]
fn dns_question_three_questions_back_and_forth() {
    let q = google();
    let q2 = duck();
    let q3 = facebook();

    let mut q_bytes = q.to_bytes();
    let mut q2_bytes = q2.to_bytes();
    let mut q3_bytes = q3.to_bytes();

    q_bytes.append(&mut q2_bytes);
    q_bytes.append(&mut q3_bytes);

    let (q_reconstructed, remaining) = questions_from_bytes(q_bytes, 2).unwrap();

    assert_eq!(q.qname, q_reconstructed[0].qname);
    assert_eq!(q.qclass, q_reconstructed[0].qclass);
    assert_eq!(q.qtype, q_reconstructed[0].qtype);

    assert_eq!(q2.qname, q_reconstructed[1].qname);
    assert_eq!(q2.qclass, q_reconstructed[1].qclass);
    assert_eq!(q2.qtype, q_reconstructed[1].qtype);

    assert_eq!(2, q_reconstructed.len());
    let (third, rest) = questions_from_bytes(remaining, 1).unwrap();

    assert_eq!(q3.qname, third[0].qname);
    assert_eq!(q3.qclass, third[0].qclass);
    assert_eq!(q3.qtype, third[0].qtype);
    assert!(rest.is_empty());
}

#[test]
fn tests_one_question_back_and_forth() {
    let q = google();

    let mut q_bytes = q.to_bytes();
    q_bytes.append(&mut vec![0, 0, 0, 0, 0, 0]);

    let (q_reconstructed, q_remaining) = questions_from_bytes(q_bytes, 1).unwrap();

    assert_questions_eq(&q, &q_reconstructed[0]);
    assert_eq!(vec![0, 0, 0, 0, 0, 0], q_remaining);
}

#[test]
fn tests_two_questions_back_and_forth() {
    let q = google();
    let q2 = duck();

    let mut q_bytes = q.to_bytes();
    let mut q2_bytes = q2.to_bytes();

    q_bytes.append(&mut q2_bytes);

    let (q_reconstructed, _) = questions_from_bytes(q_bytes, 2).unwrap();

    assert_questions_eq(&q, &q_reconstructed[0]);
    assert_questions_eq(&q2, &q_reconstructed[1]);
}

#[test]
fn tests_three_questions_back_and_forth() {
    let q = google();
    let q2 = duck();
    let q3 = facebook();

    let mut q_bytes = q.to_bytes();
    let mut q2_bytes = q2.to_bytes();
    let mut q3_bytes = q3.to_bytes();

    q_bytes.append(&mut q2_bytes);
    q_bytes.append(&mut q3_bytes);

    let (q_reconstructed, _) = questions_from_bytes(q_bytes, 3).unwrap();

    assert_questions_eq(&q, &q_reconstructed[0]);
    assert_questions_eq(&q2, &q_reconstructed[1]);
    assert_questions_eq(&q3, &q_reconstructed[2]);
}

#[test]
fn question_wire_bytes() {
    let q = DNSQuestion::new("a b.c".to_string(), QType::TXT, QClass::Chaos);
    // "a b" is percent-encoded to "a%20b"
    assert_eq!(
        vec![5, b'a', b'%', b'2', b'0', b'b', 1, b'c', 0, 0, 16, 0, 3],
        q.to_bytes()
    );
    let (back, rest) = questions_from_bytes(q.to_bytes(), 1).unwrap();
    assert_eq!("a b.c", back[0].qname);
    assert!(rest.is_empty());
}

#[test]
fn questions_list_round_trip() {
    let qs = vec![google(), duck(), facebook()];
    let bytes = questions_to_bytes(&qs);
    let (back, rest) = questions_from_bytes(bytes, 3).unwrap();
    assert_eq!(qs, back);
    assert!(rest.is_empty());
}

#[test]
fn every_type_and_class_round_trips() {
    let types = [
        QType::A, QType::NS, QType::CNAME, QType::SOA, QType::WKS, QType::PTR, QType::HINFO,
        QType::MINFO, QType::MX, QType::TXT, QType::RP, QType::AAAA, QType::SRV, QType::OPT,
        QType::ANY,
    ];
    for t in types {
        for c in [QClass::Internet, QClass::Chaos, QClass::Hesiod] {
            let q = DNSQuestion::new("x.y".to_string(), t, c);
            let (back, _) = questions_from_bytes(q.to_bytes(), 1).unwrap();
            assert_eq!(q, back[0]);
        }
    }
}

#[test]
fn leading_empty_label_round_trips() {
    let q = DNSQuestion::new(".com".to_string(), QType::A, QClass::Internet);
    let (back, _) = questions_from_bytes(q.to_bytes(), 1).unwrap();
    assert_eq!(".com", back[0].qname);
}

#[test]
fn too_few_bytes_is_short_length() {
    assert_eq!(Err(QuestionParseError::ShortLength(3)), questions_from_bytes(vec![1, 2, 3], 1));
    assert_eq!(Err(QuestionParseError::ShortLength(0)), questions_from_bytes(vec![], 0));
    // the second question is missing
    let bytes = google().to_bytes();
    let len = bytes.len();
    assert_eq!(Err(QuestionParseError::ShortLength(len)), questions_from_bytes(bytes, 2));
}

#[test]
fn unknown_type_and_class_are_reported() {
    assert_eq!(
        Err(QuestionParseError::QTypeParse(3)),
        questions_from_bytes(vec![1, b'a', 0, 0, 3, 0, 1], 1)
    );
    assert_eq!(
        Err(QuestionParseError::QClassParse(2)),
        questions_from_bytes(vec![1, b'a', 0, 0, 1, 0, 2], 1)
    );
}

#[test]
fn undecodable_names_are_reported() {
    assert_eq!(
        Err(QuestionParseError::QNameParse(DomainDecodeError::UTF8Parse)),
        questions_from_bytes(vec![1, 0xff, 0, 0, 1, 0, 1], 1)
    );
    assert_eq!(
        Err(QuestionParseError::QNameParse(DomainDecodeError::URLDecode)),
        questions_from_bytes(vec![3, b'%', b'F', b'F', 0, 0, 1, 0, 1], 1)
    );
}
