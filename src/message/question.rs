//! DNS questions: query type and class codes, the question wire format and its parser.

use vstd::prelude::*;
use crate::byte::{be16, be16_bytes, push_split_bytes, two_byte_combine};
use crate::byte::lemma_be16_bytes;
use crate::string::{
    decode_label, decoded_label, encode_domain_name, encoded_label, encoded_labels, encoded_name,
    is_wire_name, label_codec_holds, lemma_decoded_label, lemma_encode_utf8_nonempty,
    lemma_encoded_labels_front, url_encoded, DomainDecodeError,
};
use crate::text::{join_dots, lemma_join_split_dots, lemma_split_dots_nonempty, split_dots};
use vstd::utf8::encode_utf8;

verus! {

/// Query type of a question or record.
#[derive(Clone, Copy, Debug, PartialEq, Eq, Structural, PartialOrd, Ord)]
pub enum QType {
    A,
    NS,
    CNAME,
    SOA,
    WKS,
    PTR,
    HINFO,
    MINFO,
    MX,
    TXT,
    RP,
    AAAA,
    SRV,
    OPT,
    ANY,
}

impl QType {
    /// The 16-bit wire code of the type.
    pub open spec fn spec_code(self) -> u16 {
        match self {
            QType::A => 1,
            QType::NS => 2,
            QType::CNAME => 5,
            QType::SOA => 6,
            QType::WKS => 11,
            QType::PTR => 12,
            QType::HINFO => 13,
            QType::MINFO => 14,
            QType::MX => 15,
            QType::TXT => 16,
            QType::RP => 17,
            QType::AAAA => 28,
            QType::SRV => 33,
            QType::OPT => 41,
            QType::ANY => 255,
        }
    }

    /// The type with the given wire code, or the code itself when none has it.
    pub open spec fn spec_from_code(v: u16) -> Result<QType, u16> {
        if v == 1 {
            Ok(QType::A)
        } else if v == 2 {
            Ok(QType::NS)
        } else if v == 5 {
            Ok(QType::CNAME)
        } else if v == 6 {
            Ok(QType::SOA)
        } else if v == 11 {
            Ok(QType::WKS)
        } else if v == 12 {
            Ok(QType::PTR)
        } else if v == 13 {
            Ok(QType::HINFO)
        } else if v == 14 {
            Ok(QType::MINFO)
        } else if v == 15 {
            Ok(QType::MX)
        } else if v == 16 {
            Ok(QType::TXT)
        } else if v == 17 {
            Ok(QType::RP)
        } else if v == 28 {
            Ok(QType::AAAA)
        } else if v == 33 {
            Ok(QType::SRV)
        } else if v == 41 {
            Ok(QType::OPT)
        } else if v == 255 {
            Ok(QType::ANY)
        } else {
            Err(v)
        }
    }

    #[verifier::when_used_as_spec(spec_code)]
    pub fn code(self) -> (r: u16)
        ensures
            r == self.spec_code(),
    {
        match self {
            QType::A => 1,
            QType::NS => 2,
            QType::CNAME => 5,
            QType::SOA => 6,
            QType::WKS => 11,
            QType::PTR => 12,
            QType::HINFO => 13,
            QType::MINFO => 14,
            QType::MX => 15,
            QType::TXT => 16,
            QType::RP => 17,
            QType::AAAA => 28,
            QType::SRV => 33,
            QType::OPT => 41,
            QType::ANY => 255,
        }
    }

    /// Map a wire code back to a type; an unknown code is handed back as the error.
    pub fn from_code(v: u16) -> (r: Result<QType, u16>)
        ensures
            r == QType::spec_from_code(v),
    {
        if v == 1 {
            Ok(QType::A)
        } else if v == 2 {
            Ok(QType::NS)
        } else if v == 5 {
            Ok(QType::CNAME)
        } else if v == 6 {
            Ok(QType::SOA)
        } else if v == 11 {
            Ok(QType::WKS)
        } else if v == 12 {
            Ok(QType::PTR)
        } else if v == 13 {
            Ok(QType::HINFO)
        } else if v == 14 {
            Ok(QType::MINFO)
        } else if v == 15 {
            Ok(QType::MX)
        } else if v == 16 {
            Ok(QType::TXT)
        } else if v == 17 {
            Ok(QType::RP)
        } else if v == 28 {
            Ok(QType::AAAA)
        } else if v == 33 {
            Ok(QType::SRV)
        } else if v == 41 {
            Ok(QType::OPT)
        } else if v == 255 {
            Ok(QType::ANY)
        } else {
            Err(v)
        }
    }
}

/// Class of a question or record.
#[derive(Clone, Copy, Debug, PartialEq, Eq, Structural, PartialOrd, Ord)]
pub enum QClass {
    Internet,
    Chaos,
    Hesiod,
}

impl QClass {
    /// The 16-bit wire code of the class.
    pub open spec fn spec_code(self) -> u16 {
        match self {
            QClass::Internet => 1,
            QClass::Chaos => 3,
            QClass::Hesiod => 4,
        }
    }

    /// The class with the given wire code, or the code itself when none has it.
    pub open spec fn spec_from_code(v: u16) -> Result<QClass, u16> {
        if v == 1 {
            Ok(QClass::Internet)
        } else if v == 3 {
            Ok(QClass::Chaos)
        } else if v == 4 {
            Ok(QClass::Hesiod)
        } else {
            Err(v)
        }
    }

    #[verifier::when_used_as_spec(spec_code)]
    pub fn code(self) -> (r: u16)
        ensures
            r == self.spec_code(),
    {
        match self {
            QClass::Internet => 1,
            QClass::Chaos => 3,
            QClass::Hesiod => 4,
        }
    }

    /// Map a wire code back to a class; an unknown code is handed back as the error.
    pub fn from_code(v: u16) -> (r: Result<QClass, u16>)
        ensures
            r == QClass::spec_from_code(v),
    {
        if v == 1 {
            Ok(QClass::Internet)
        } else if v == 3 {
            Ok(QClass::Chaos)
        } else if v == 4 {
            Ok(QClass::Hesiod)
        } else {
            Err(v)
        }
    }
}

/// A question: a dot-separated name with a query type and class.
#[derive(Clone, Debug, PartialEq, Eq)]
pub struct DNSQuestion {
    pub qname: String,
    pub qtype: QType,
    pub qclass: QClass,
}

/// The mathematical value of a question.
pub struct QuestionView {
    pub qname: Seq<char>,
    pub qtype: QType,
    pub qclass: QClass,
}

impl View for DNSQuestion {
    type V = QuestionView;

    open spec fn view(&self) -> QuestionView {
        QuestionView { qname: self.qname@, qtype: self.qtype, qclass: self.qclass }
    }
}

/// The views of a list of questions.
pub open spec fn question_views(qs: Seq<DNSQuestion>) -> Seq<QuestionView> {
    qs.map_values(|q: DNSQuestion| q@)
}

/// The wire bytes of a question: its encoded name, then type and class as 16-bit big-endian values.
pub open spec fn question_bytes(q: QuestionView) -> Seq<u8> {
    encoded_name(q.qname) + be16_bytes(q.qtype.spec_code()) + be16_bytes(q.qclass.spec_code())
}

/// The wire bytes of a list of questions, one after the other.
pub open spec fn questions_bytes(qs: Seq<QuestionView>) -> Seq<u8>
    decreases qs.len(),
{
    if qs.len() == 0 {
        Seq::<u8>::empty()
    } else {
        questions_bytes(qs.drop_last()) + question_bytes(qs.last())
    }
}

impl DNSQuestion {
    pub fn new(qname: String, qtype: QType, qclass: QClass) -> (r: DNSQuestion)
        ensures
            r == (DNSQuestion { qname, qtype, qclass }),
    {
        DNSQuestion { qname, qtype, qclass }
    }

    /// A copy of the question.
    pub fn duplicate(&self) -> (r: DNSQuestion)
        ensures
            r@ == self@,
    {
        DNSQuestion { qname: self.qname.clone(), qtype: self.qtype, qclass: self.qclass }
    }

    /// Serialise the question for the wire.
    pub fn to_bytes(&self) -> (r: Vec<u8>)
        ensures
            r@ == question_bytes(self@),
            forall|i: int|
                0 <= i < split_dots(self.qname@).len() ==> label_codec_holds(
                    #[trigger] split_dots(self.qname@)[i],
                ),
    {
        let mut ret = encode_domain_name(&self.qname);
        push_split_bytes(&mut ret, self.qtype.code());
        push_split_bytes(&mut ret, self.qclass.code());
        ret
    }
}

/// Copies of a list of questions.
pub fn duplicate_questions(questions: &Vec<DNSQuestion>) -> (r: Vec<DNSQuestion>)
    ensures
        question_views(r@) == question_views(questions@),
{
    let mut r: Vec<DNSQuestion> = Vec::new();
    let mut i: usize = 0;
    while i < questions.len()
        invariant
            i <= questions@.len(),
            question_views(r@) == question_views(questions@.take(i as int)),
        decreases questions@.len() - i,
    {
        let q = questions[i].duplicate();
        let ghost old_r = r@;
        r.push(q);
        proof {
            assert(questions@.take(i + 1) =~= questions@.take(i as int).push(questions@[i as int]));
            assert(question_views(r@) =~= question_views(old_r).push(q@));
            assert(question_views(questions@.take(i + 1)) =~= question_views(
                questions@.take(i as int),
            ).push(questions@[i as int]@));
        }
        i = i + 1;
    }
    assert(questions@.take(i as int) =~= questions@);
    r
}

/// The names of a list of questions all have the percent-encoding facts of their labels.
pub open spec fn names_encode_back(qs: Seq<QuestionView>) -> bool {
    forall|k: int, i: int|
        0 <= k < qs.len() && 0 <= i < split_dots(qs[k].qname).len() ==> label_codec_holds(
            #[trigger] split_dots(qs[k].qname)[i],
        )
}

/// Serialise a list of questions for the wire.
pub fn questions_to_bytes(questions: &Vec<DNSQuestion>) -> (r: Vec<u8>)
    ensures
        r@ == questions_bytes(question_views(questions@)),
        names_encode_back(question_views(questions@)),
{
    let mut ret: Vec<u8> = Vec::new();
    let mut i: usize = 0;
    while i < questions.len()
        invariant
            i <= questions@.len(),
            ret@ == questions_bytes(question_views(questions@.take(i as int))),
            forall|k: int, j: int|
                0 <= k < i && 0 <= j < split_dots(questions@[k].qname@).len() ==> label_codec_holds(
                    #[trigger] split_dots(questions@[k].qname@)[j],
                ),
        decreases questions@.len() - i,
    {
        let mut b = questions[i].to_bytes();
        ret.append(&mut b);
        i = i + 1;
        assert(question_views(questions@.take(i as int)).drop_last() =~= question_views(
            questions@.take(i - 1),
        ));
    }
    assert(questions@.take(i as int) =~= questions@);
    assert forall|k: int, j: int|
        0 <= k < question_views(questions@).len() && 0 <= j < split_dots(question_views(questions@)[k].qname).len()
        implies label_codec_holds(#[trigger] split_dots(question_views(questions@)[k].qname)[j]) by {
        assert(question_views(questions@)[k].qname == questions@[k].qname@);
    }
    ret
}

/// Why the question section could not be read.
#[derive(Clone, Copy, Debug, PartialEq, Eq, Structural, PartialOrd, Ord)]
pub enum QuestionParseError {
    /// The bytes ran out; carries how many there were
    ShortLength(usize),
    QTypeParse(u16),
    QClassParse(u16),
    /// A label of the name was not valid UTF-8 or percent-encoding
    QNameParse(DomainDecodeError),
}

/// The labels that follow the first one of a name, as raw bytes, and how many bytes they take
/// up to and including the zero length byte that ends the name; none when the bytes run out.
pub open spec fn more_labels(b: Seq<u8>) -> Option<(Seq<Seq<u8>>, int)>
    decreases b.len(),
{
    if b.len() == 0 {
        None
    } else if b[0] == 0 {
        Some((Seq::<Seq<u8>>::empty(), 1))
    } else {
        let n = 1 + b[0];
        if n > b.len() {
            None
        } else {
            match more_labels(b.subrange(n, b.len() as int)) {
                Some((ls, e)) => Some((seq![b.subrange(1, n)] + ls, n + e)),
                None => None,
            }
        }
    }
}

/// The labels of a name at the start of `b`, and how many bytes the name takes. The first
/// length byte always opens a label, even when it is zero; after it a zero length ends the name.
pub open spec fn name_labels(b: Seq<u8>) -> Option<(Seq<Seq<u8>>, int)> {
    if b.len() == 0 {
        None
    } else {
        let n = 1 + b[0];
        if n > b.len() {
            None
        } else {
            match more_labels(b.subrange(n, b.len() as int)) {
                Some((ls, e)) => Some((seq![b.subrange(1, n)] + ls, n + e)),
                None => None,
            }
        }
    }
}

/// The text of each raw label, or the error of the first that does not decode.
pub open spec fn decoded_labels(ls: Seq<Seq<u8>>) -> Result<Seq<Seq<char>>, DomainDecodeError>
    decreases ls.len(),
{
    if ls.len() == 0 {
        Ok(Seq::<Seq<char>>::empty())
    } else {
        match decoded_label(ls[0]) {
            Err(e) => Err(e),
            Ok(t) => match decoded_labels(ls.drop_first()) {
                Ok(ts) => Ok(seq![t] + ts),
                Err(e) => Err(e),
            },
        }
    }
}

/// The question at the start of `b` and how many bytes it takes, or why there is none;
/// `total` is the length of the whole section, reported when the bytes run out.
pub open spec fn question_at(b: Seq<u8>, total: usize) -> Result<(QuestionView, int), QuestionParseError> {
    match name_labels(b) {
        None => Err(QuestionParseError::ShortLength(total)),
        Some((ls, e)) => if e + 4 > b.len() {
            Err(QuestionParseError::ShortLength(total))
        } else {
            match QType::spec_from_code(be16(b[e], b[e + 1]) as u16) {
                Err(v) => Err(QuestionParseError::QTypeParse(v)),
                Ok(qtype) => match QClass::spec_from_code(be16(b[e + 2], b[e + 3]) as u16) {
                    Err(v) => Err(QuestionParseError::QClassParse(v)),
                    Ok(qclass) => match decoded_labels(ls) {
                        Err(de) => Err(QuestionParseError::QNameParse(de)),
                        Ok(ts) => Ok((QuestionView { qname: join_dots(ts), qtype, qclass }, e + 4)),
                    },
                },
            }
        },
    }
}

/// `count` questions from the start of `b`, and how many bytes they take, or the first error.
pub open spec fn questions_at(b: Seq<u8>, count: nat, total: usize) -> Result<(Seq<QuestionView>, int), QuestionParseError>
    decreases count,
{
    if count == 0 {
        Ok((Seq::<QuestionView>::empty(), 0))
    } else {
        match question_at(b, total) {
            Err(e) => Err(e),
            Ok((q, n)) => match questions_at(b.subrange(n, b.len() as int), (count - 1) as nat, total) {
                Ok((qs, m)) => Ok((seq![q] + qs, n + m)),
                Err(e) => Err(e),
            },
        }
    }
}

/// The question section read from `bytes`: the questions and the bytes after them.
pub open spec fn questions_parse(bytes: Seq<u8>, total_questions: u16) -> Result<(Seq<QuestionView>, Seq<u8>), QuestionParseError> {
    if bytes.len() < 4 {
        Err(QuestionParseError::ShortLength(bytes.len() as usize))
    } else {
        match questions_at(bytes, total_questions as nat, bytes.len() as usize) {
            Ok((qs, n)) => Ok((qs, bytes.subrange(n, bytes.len() as int))),
            Err(e) => Err(e),
        }
    }
}

proof fn lemma_more_labels_bounds(b: Seq<u8>)
    ensures
        match more_labels(b) {
            Some((_, e)) => 1 <= e <= b.len(),
            None => true,
        },
    decreases b.len(),
{
    if b.len() > 0 && b[0] != 0 {
        let n = 1 + b[0];
        if n <= b.len() {
            lemma_more_labels_bounds(b.subrange(n, b.len() as int));
        }
    }
}

proof fn lemma_name_labels_bounds(b: Seq<u8>)
    ensures
        match name_labels(b) {
            Some((_, e)) => 1 <= e <= b.len(),
            None => true,
        },
{
    if b.len() > 0 {
        let n = 1 + b[0];
        if n <= b.len() {
            lemma_more_labels_bounds(b.subrange(n, b.len() as int));
        }
    }
}

proof fn lemma_question_at_bounds(b: Seq<u8>, total: usize)
    ensures
        match question_at(b, total) {
            Ok((_, n)) => 4 < n <= b.len(),
            Err(_) => true,
        },
{
    lemma_name_labels_bounds(b);
}

/// The raw bytes of `bytes[from..to]`.
fn copy_range(bytes: &Vec<u8>, from: usize, to: usize) -> (r: Vec<u8>)
    requires
        from <= to <= bytes@.len(),
    ensures
        r@ == bytes@.subrange(from as int, to as int),
{
    let mut r: Vec<u8> = Vec::new();
    let mut j: usize = from;
    while j < to
        invariant
            from <= j <= to <= bytes@.len(),
            r@ == bytes@.subrange(from as int, j as int),
        decreases to - j,
    {
        r.push(bytes[j]);
        j = j + 1;
        assert(r@ =~= bytes@.subrange(from as int, j as int));
    }
    r
}

/// Labels `acc` followed by those of `rest`, whose bytes start `off` bytes later.
pub open spec fn after_labels(acc: Seq<Seq<u8>>, off: int, rest: Option<(Seq<Seq<u8>>, int)>) -> Option<(Seq<Seq<u8>>, int)> {
    match rest {
        Some((ls, e)) => Some((acc + ls, off + e)),
        None => None,
    }
}

/// Find the labels of the name starting at `pos`, and the position right after it.
fn scan_name(bytes: &Vec<u8>, pos: usize) -> (r: Option<(Vec<Vec<u8>>, usize)>)
    requires
        pos <= bytes@.len(),
    ensures
        match name_labels(bytes@.subrange(pos as int, bytes@.len() as int)) {
            Some((ls, e)) => r is Some && (r->0).0@.map_values(|l: Vec<u8>| l@) == ls && (r->0).1 == pos + e,
            None => r is None,
        },
{
    let len = bytes.len();
    let ghost b = bytes@.subrange(pos as int, len as int);
    if pos >= len {
        return None;
    }
    let first = bytes[pos] as usize;
    if first > len - pos - 1 {
        return None;
    }
    let mut labels: Vec<Vec<u8>> = Vec::new();
    labels.push(copy_range(bytes, pos + 1, pos + 1 + first));
    let mut p: usize = pos + 1 + first;
    let ghost start = p;
    assert(b.subrange(1 + first, b.len() as int) =~= bytes@.subrange(start as int, len as int));
    assert(b.subrange(1, 1 + first) =~= bytes@.subrange(pos + 1, start as int));
    loop
        invariant
            pos < start <= p <= len == bytes@.len(),
            b == bytes@.subrange(pos as int, len as int),
            labels@.len() >= 1,
            labels@[0]@ == b.subrange(1, start - pos),
            more_labels(bytes@.subrange(start as int, len as int)) == after_labels(
                labels@.drop_first().map_values(|l: Vec<u8>| l@),
                p - start,
                more_labels(bytes@.subrange(p as int, len as int)),
            ),
            name_labels(b) == after_labels(
                seq![b.subrange(1, start - pos)],
                start - pos,
                more_labels(bytes@.subrange(start as int, len as int)),
            ),
        decreases len - p,
    {
        let ghost rest = bytes@.subrange(p as int, len as int);
        if p >= len {
            return None;
        }
        let l = bytes[p] as usize;
        if l == 0 {
            proof {
                let acc = labels@.drop_first().map_values(|l: Vec<u8>| l@);
                assert(acc + Seq::<Seq<u8>>::empty() =~= acc);
                assert(seq![b.subrange(1, start - pos)] + acc =~= labels@.map_values(|l: Vec<u8>| l@));
            }
            return Some((labels, p + 1));
        }
        if l > len - p - 1 {
            return None;
        }
        let next = p + 1 + l;
        let ghost old_labels = labels@;
        labels.push(copy_range(bytes, p + 1, next));
        proof {
            assert(rest.subrange(1 + l, rest.len() as int) =~= bytes@.subrange(next as int, len as int));
            assert(rest.subrange(1, 1 + l) =~= bytes@.subrange(p + 1, next as int));
            let acc = old_labels.drop_first().map_values(|l: Vec<u8>| l@);
            let acc2 = labels@.drop_first().map_values(|l: Vec<u8>| l@);
            assert(acc2 =~= acc + seq![bytes@.subrange(p + 1, next as int)]);
            match more_labels(bytes@.subrange(next as int, len as int)) {
                Some((ls, e)) => {
                    assert(acc + (seq![bytes@.subrange(p + 1, next as int)] + ls) =~= acc2 + ls);
                },
                None => {},
            }
        }
        p = next;
    }
}

/// Decode raw labels and join them with dots.
fn decode_name(labels: Vec<Vec<u8>>) -> (r: Result<String, DomainDecodeError>)
    ensures
        match decoded_labels(labels@.map_values(|l: Vec<u8>| l@)) {
            Ok(ts) => r is Ok && r->Ok_0@ == join_dots(ts),
            Err(e) => r == Err::<String, DomainDecodeError>(e),
        },
{
    let ghost all = labels@.map_values(|l: Vec<u8>| l@);
    let mut text = String::new();
    let mut i: usize = 0;
    let ghost mut done: Seq<Seq<char>> = Seq::empty();
    proof {
        assert(all.skip(0) =~= all);
        match decoded_labels(all) {
            Ok(ts) => {
                assert(Seq::<Seq<char>>::empty() + ts =~= ts);
            },
            Err(_) => {},
        }
    }
    while i < labels.len()
        invariant
            i <= labels@.len(),
            all == labels@.map_values(|l: Vec<u8>| l@),
            done.len() == i,
            text@ == join_dots(done),
            decoded_labels(all) == match decoded_labels(all.skip(i as int)) {
                Ok(ts) => Ok(done + ts),
                Err(e) => Err(e),
            },
        decreases labels@.len() - i,
    {
        let ghost tail = all.skip(i as int);
        assert(tail.drop_first() =~= all.skip(i + 1));
        assert(tail[0] == labels@[i as int]@);
        match decode_label(labels[i].clone()) {
            Err(e) => {
                return Err(e);
            },
            Ok(t) => {
                if i > 0 {
                    text.append(".");
                    proof {
                        reveal_strlit(".");
                    }
                }
                text.append(t.as_str());
                proof {
                    let nd = done.push(t@);
                    assert(nd.drop_last() =~= done);
                    match decoded_labels(all.skip(i + 1)) {
                        Ok(ts) => {
                            assert(done + (seq![t@] + ts) =~= nd + ts);
                        },
                        Err(_) => {},
                    }
                    done = nd;
                }
                i = i + 1;
            },
        }
    }
    assert(all.skip(i as int) =~= Seq::<Seq<u8>>::empty());
    assert(done + Seq::<Seq<char>>::empty() =~= done);
    Ok(text)
}

/// Read the question that starts at `pos`, and the position right after it.
fn read_question(bytes: &Vec<u8>, pos: usize) -> (r: Result<(DNSQuestion, usize), QuestionParseError>)
    requires
        pos <= bytes@.len(),
    ensures
        match question_at(bytes@.subrange(pos as int, bytes@.len() as int), bytes@.len() as usize) {
            Ok((q, n)) => r is Ok && (r->Ok_0).0@ == q && (r->Ok_0).1 == pos + n,
            Err(e) => r == Err::<(DNSQuestion, usize), QuestionParseError>(e),
        },
{
    let len = bytes.len();
    let ghost b = bytes@.subrange(pos as int, len as int);
    let (labels, end) = match scan_name(bytes, pos) {
        None => {
            return Err(QuestionParseError::ShortLength(len));
        },
        Some(found) => found,
    };
    proof {
        lemma_name_labels_bounds(b);
    }
    if len < 4 || end > len - 4 {
        return Err(QuestionParseError::ShortLength(len));
    }
    let e = end - pos;
    assert(b[e as int] == bytes@[end as int] && b[e + 1] == bytes@[end + 1]);
    assert(b[e + 2] == bytes@[end + 2] && b[e + 3] == bytes@[end + 3]);
    let qtype = match QType::from_code(two_byte_combine(bytes[end], bytes[end + 1])) {
        Err(v) => {
            return Err(QuestionParseError::QTypeParse(v));
        },
        Ok(t) => t,
    };
    let qclass = match QClass::from_code(two_byte_combine(bytes[end + 2], bytes[end + 3])) {
        Err(v) => {
            return Err(QuestionParseError::QClassParse(v));
        },
        Ok(c) => c,
    };
    match decode_name(labels) {
        Err(de) => Err(QuestionParseError::QNameParse(de)),
        Ok(qname) => Ok((DNSQuestion { qname, qtype, qclass }, end + 4)),
    }
}

/// Read `total_questions` questions from the start of `bytes`; the bytes after them are handed
/// back for the record sections. Fewer than four bytes, or bytes that run out before the last
/// question, are a `ShortLength` error carrying the number of bytes.
pub fn questions_from_bytes(bytes: Vec<u8>, total_questions: u16) -> (r: Result<(Vec<DNSQuestion>, Vec<u8>), QuestionParseError>)
    ensures
        match questions_parse(bytes@, total_questions) {
            Ok((qs, rest)) => r is Ok && question_views((r->Ok_0).0@) == qs && (r->Ok_0).1@ == rest,
            Err(e) => r == Err::<(Vec<DNSQuestion>, Vec<u8>), QuestionParseError>(e),
        },
{
    let len = bytes.len();
    if len < 4 {
        return Err(QuestionParseError::ShortLength(len));
    }
    let mut questions: Vec<DNSQuestion> = Vec::new();
    let mut pos: usize = 0;
    let mut k: u16 = 0;
    assert(bytes@.subrange(0, len as int) =~= bytes@);
    while k < total_questions
        invariant
            k <= total_questions,
            len >= 4,
            pos <= len == bytes@.len(),
            questions@.len() == k,
            questions_at(bytes@, total_questions as nat, len as usize) == match questions_at(
                bytes@.subrange(pos as int, len as int),
                (total_questions - k) as nat,
                len as usize,
            ) {
                Ok((qs, m)) => Ok((question_views(questions@) + qs, pos + m)),
                Err(e) => Err(e),
            },
        decreases total_questions - k,
    {
        let ghost b = bytes@.subrange(pos as int, len as int);
        match read_question(&bytes, pos) {
            Err(e) => {
                assert(questions_at(b, (total_questions - k) as nat, len as usize) == Err::<
                    (Seq<QuestionView>, int),
                    QuestionParseError,
                >(e));
                assert(questions_at(bytes@, total_questions as nat, len as usize) == Err::<
                    (Seq<QuestionView>, int),
                    QuestionParseError,
                >(e));
                assert(bytes@.len() >= 4);
                assert(questions_parse(bytes@, total_questions) == Err::<
                    (Seq<QuestionView>, Seq<u8>),
                    QuestionParseError,
                >(e));
                return Err(e);
            },
            Ok((q, next)) => {
                proof {
                    lemma_question_at_bounds(b, len as usize);
                    let n = next - pos;
                    assert(b.subrange(n, b.len() as int) =~= bytes@.subrange(next as int, len as int));
                    let nq = questions@.push(q);
                    assert(question_views(nq) =~= question_views(questions@).push(q@));
                    match questions_at(bytes@.subrange(next as int, len as int), (total_questions - k - 1) as nat, len as usize) {
                        Ok((qs, m)) => {
                            assert(question_views(questions@) + (seq![q@] + qs) =~= question_views(nq) + qs);
                        },
                        Err(_) => {},
                    }
                }
                questions.push(q);
                pos = next;
                k = k + 1;
            },
        }
    }
    let mut remaining: Vec<u8> = Vec::new();
    let mut j: usize = pos;
    while j < len
        invariant
            pos <= j <= len == bytes@.len(),
            remaining@ == bytes@.subrange(pos as int, j as int),
        decreases len - j,
    {
        remaining.push(bytes[j]);
        j = j + 1;
        assert(remaining@ =~= bytes@.subrange(pos as int, j as int));
    }
    proof {
        assert(question_views(questions@) + Seq::<QuestionView>::empty() =~= question_views(questions@));
    }
    Ok((questions, remaining))
}

/// The wire bytes of each label's encoding.
pub open spec fn label_bytes(ls: Seq<Seq<char>>) -> Seq<Seq<u8>> {
    ls.map_values(|l: Seq<char>| encode_utf8(url_encoded(l)))
}

proof fn lemma_more_labels_encoded(ms: Seq<Seq<char>>, t: Seq<u8>)
    requires
        forall|i: int| 0 <= i < ms.len() ==> label_codec_holds(#[trigger] ms[i]),
        forall|i: int| 0 <= i < ms.len() ==> encode_utf8(url_encoded(#[trigger] ms[i])).len() <= 255,
        forall|i: int| 0 <= i < ms.len() ==> (#[trigger] ms[i]).len() > 0,
    ensures
        more_labels(encoded_labels(ms).push(0) + t) == Some((label_bytes(ms), encoded_labels(ms).len() + 1int)),
    decreases ms.len(),
{
    let b = encoded_labels(ms).push(0) + t;
    if ms.len() == 0 {
        assert(b[0] == 0);
        assert(label_bytes(ms) =~= Seq::<Seq<u8>>::empty());
    } else {
        let l = ms[0];
        let rest = ms.drop_first();
        assert(ms =~= seq![l] + rest);
        lemma_encoded_labels_front(l, rest);
        let e = encode_utf8(url_encoded(l));
        lemma_encode_utf8_nonempty(url_encoded(l));
        let tail = encoded_labels(rest).push(0) + t;
        assert(b =~= seq![(e.len() % 256) as u8] + e + tail);
        let n = 1 + e.len();
        assert(b[0] == e.len());
        assert(b.subrange(1, n as int) =~= e);
        assert(b.subrange(n as int, b.len() as int) =~= tail);
        assert forall|i: int| 0 <= i < rest.len() implies label_codec_holds(#[trigger] rest[i])
            && encode_utf8(url_encoded(rest[i])).len() <= 255 && rest[i].len() > 0 by {
            assert(rest[i] == ms[i + 1]);
        }
        lemma_more_labels_encoded(rest, t);
        assert(seq![e] + label_bytes(rest) =~= label_bytes(ms));
        assert(encoded_labels(ms).len() == encoded_label(l).len() + encoded_labels(rest).len());
    }
}

proof fn lemma_name_labels_encoded(s: Seq<char>, t: Seq<u8>)
    requires
        is_wire_name(s),
    ensures
        name_labels(encoded_name(s) + t) == Some((label_bytes(split_dots(s)), encoded_name(s).len() as int)),
{
    let ls = split_dots(s);
    lemma_split_dots_nonempty(s);
    let l = ls[0];
    let rest = ls.drop_first();
    assert(ls =~= seq![l] + rest);
    lemma_encoded_labels_front(l, rest);
    let e = encode_utf8(url_encoded(l));
    let tail = encoded_labels(rest).push(0) + t;
    let b = encoded_name(s) + t;
    assert(b =~= seq![(e.len() % 256) as u8] + e + tail);
    let n = 1 + e.len();
    assert(b[0] == e.len());
    assert(b.subrange(1, n as int) =~= e);
    assert(b.subrange(n as int, b.len() as int) =~= tail);
    assert forall|i: int| 0 <= i < rest.len() implies label_codec_holds(#[trigger] rest[i])
        && encode_utf8(url_encoded(rest[i])).len() <= 255 && rest[i].len() > 0 by {
        assert(rest[i] == ls[i + 1]);
    }
    lemma_more_labels_encoded(rest, t);
    assert(seq![e] + label_bytes(rest) =~= label_bytes(ls));
}

proof fn lemma_decoded_labels(ls: Seq<Seq<char>>)
    requires
        forall|i: int| 0 <= i < ls.len() ==> label_codec_holds(#[trigger] ls[i]),
    ensures
        decoded_labels(label_bytes(ls)) == Ok::<Seq<Seq<char>>, DomainDecodeError>(ls),
    decreases ls.len(),
{
    if ls.len() > 0 {
        let rest = ls.drop_first();
        assert forall|i: int| 0 <= i < rest.len() implies label_codec_holds(#[trigger] rest[i]) by {
            assert(rest[i] == ls[i + 1]);
        }
        lemma_decoded_labels(rest);
        lemma_decoded_label(ls[0]);
        assert(label_bytes(ls).drop_first() =~= label_bytes(rest));
        assert(seq![ls[0]] + rest =~= ls);
    } else {
        assert(ls =~= Seq::<Seq<char>>::empty());
    }
}

proof fn lemma_question_at(q: QuestionView, t: Seq<u8>, total: usize)
    requires
        is_wire_name(q.qname),
    ensures
        question_at(question_bytes(q) + t, total) == Ok::<(QuestionView, int), QuestionParseError>((q, question_bytes(q).len() as int)),
{
    let nb = encoded_name(q.qname);
    let tc = be16_bytes(q.qtype.spec_code());
    let cc = be16_bytes(q.qclass.spec_code());
    let b = question_bytes(q) + t;
    assert(b =~= nb + (tc + cc + t));
    lemma_name_labels_encoded(q.qname, tc + cc + t);
    let e = nb.len() as int;
    lemma_be16_bytes(q.qtype.spec_code());
    lemma_be16_bytes(q.qclass.spec_code());
    assert(b[e] == tc[0] && b[e + 1] == tc[1] && b[e + 2] == cc[0] && b[e + 3] == cc[1]);
    lemma_decoded_labels(split_dots(q.qname));
    lemma_join_split_dots(q.qname);
    assert(QType::spec_from_code(q.qtype.spec_code()) == Ok::<QType, u16>(q.qtype));
    assert(QClass::spec_from_code(q.qclass.spec_code()) == Ok::<QClass, u16>(q.qclass));
}

pub proof fn lemma_questions_bytes_front(q: QuestionView, rest: Seq<QuestionView>)
    ensures
        questions_bytes(seq![q] + rest) == question_bytes(q) + questions_bytes(rest),
    decreases rest.len(),
{
    if rest.len() == 0 {
        assert(seq![q] + rest =~= seq![q]);
        assert(seq![q].drop_last() =~= Seq::<QuestionView>::empty());
        assert(questions_bytes(seq![q]) == questions_bytes(Seq::<QuestionView>::empty()) + question_bytes(q));
        assert(Seq::<u8>::empty() + question_bytes(q) =~= question_bytes(q));
        assert(question_bytes(q) + Seq::<u8>::empty() =~= question_bytes(q));
    } else {
        lemma_questions_bytes_front(q, rest.drop_last());
        assert((seq![q] + rest).drop_last() =~= seq![q] + rest.drop_last());
        assert((seq![q] + rest).last() == rest.last());
        assert(question_bytes(q) + questions_bytes(rest.drop_last()) + question_bytes(rest.last())
            =~= question_bytes(q) + (questions_bytes(rest.drop_last()) + question_bytes(rest.last())));
    }
}

pub proof fn lemma_questions_at(qs: Seq<QuestionView>, t: Seq<u8>, total: usize)
    requires
        forall|i: int| 0 <= i < qs.len() ==> is_wire_name((#[trigger] qs[i]).qname),
    ensures
        questions_at(questions_bytes(qs) + t, qs.len(), total) == Ok::<(Seq<QuestionView>, int), QuestionParseError>((qs, questions_bytes(qs).len() as int)),
    decreases qs.len(),
{
    if qs.len() > 0 {
        let q = qs[0];
        let rest = qs.drop_first();
        assert(qs =~= seq![q] + rest);
        lemma_questions_bytes_front(q, rest);
        let tail = questions_bytes(rest) + t;
        let b = questions_bytes(qs) + t;
        assert(b =~= question_bytes(q) + tail);
        lemma_question_at(q, tail, total);
        let n = question_bytes(q).len() as int;
        assert(b.subrange(n, b.len() as int) =~= tail);
        assert forall|i: int| 0 <= i < rest.len() implies is_wire_name((#[trigger] rest[i]).qname) by {
            assert(rest[i] == qs[i + 1]);
        }
        lemma_questions_at(rest, t, total);
        let m = questions_bytes(rest).len() as int;
        assert(questions_at(b, qs.len(), total) == Ok::<(Seq<QuestionView>, int), QuestionParseError>((seq![q] + rest, n + m)));
        assert(questions_bytes(qs) == question_bytes(q) + questions_bytes(rest));
    } else {
        assert(qs =~= Seq::<QuestionView>::empty());
    }
}

/// Reading the bytes of a non-empty list of questions back, with the list's length as the
/// count, gives the same questions and no bytes left over, when every name is one the wire
/// carries (see `is_wire_name`, whose encoding facts `encode_domain_name` states).
pub proof fn lemma_questions_round_trip(qs: Seq<QuestionView>)
    requires
        1 <= qs.len() <= u16::MAX,
        forall|i: int| 0 <= i < qs.len() ==> is_wire_name((#[trigger] qs[i]).qname),
    ensures
        questions_parse(questions_bytes(qs), qs.len() as u16) == Ok::<(Seq<QuestionView>, Seq<u8>), QuestionParseError>((qs, Seq::<u8>::empty())),
{
    let b = questions_bytes(qs);
    lemma_questions_at(qs, Seq::<u8>::empty(), b.len() as usize);
    assert(b + Seq::<u8>::empty() =~= b);
    lemma_questions_bytes_front(qs[0], qs.drop_first());
    assert(qs =~= seq![qs[0]] + qs.drop_first());
    assert(question_bytes(qs[0]).len() >= 4);
    assert(b.subrange(b.len() as int, b.len() as int) =~= Seq::<u8>::empty());
}

} // verus!
