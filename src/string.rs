//! Domain names on the wire: percent-encoded, length-prefixed labels, and the
//! public-key-in-a-domain transforms.

use vstd::prelude::*;
use vstd::utf8::{decode_utf8, encode_utf8, valid_utf8};
use vstd::slice::slice_to_vec;
use std::string::FromUtf8Error;
use crate::text::{chars_of, dot_join, join_dots, lemma_join_split_dots, lemma_split_dots_nonempty, split_dots, string_of, string_of_range};
use crate::crypto::{fatten_public_key, fattened_key, is_base64_char, is_pem_public_key, is_trimmed_key, trimmed_key};

verus! {

broadcast use vstd::string::group_string_axioms;

#[verifier::external_type_specification]
#[verifier::external_body]
pub struct ExFromUtf8Error(FromUtf8Error);

/// An unreserved byte, which percent-encoding keeps: an ASCII letter or digit, `-`, `.`, `_`
/// or `~`.
pub open spec fn is_unreserved_byte(b: u8) -> bool {
    (48 <= b <= 57) || (65 <= b <= 90) || (97 <= b <= 122) || b == 45 || b == 46 || b == 95 || b
        == 126
}

/// The uppercase hex digit of a value below 16.
pub open spec fn hex_digit(v: u8) -> char {
    seq!['0', '1', '2', '3', '4', '5', '6', '7', '8', '9', 'A', 'B', 'C', 'D', 'E', 'F'][v as int]
}

/// The text of one byte: the byte itself when unreserved, else `%` and two uppercase hex digits.
pub open spec fn percent_byte(b: u8) -> Seq<char> {
    if is_unreserved_byte(b) {
        seq![b as char]
    } else {
        seq!['%', hex_digit(b / 16), hex_digit(b % 16)]
    }
}

/// Percent-encoding of bytes, one byte at a time.
pub open spec fn percent_encoded(b: Seq<u8>) -> Seq<char>
    decreases b.len(),
{
    if b.len() == 0 {
        Seq::<char>::empty()
    } else {
        percent_encoded(b.drop_last()) + percent_byte(b.last())
    }
}

/// What `urlencoding::encode` makes of a string: its UTF-8 bytes, percent-encoded.
#[verifier::opaque]
pub open spec fn url_encoded(s: Seq<char>) -> Seq<char> {
    percent_encoded(encode_utf8(s))
}

proof fn lemma_percent_encoded_len(b: Seq<u8>)
    ensures
        percent_encoded(b).len() <= 3 * b.len(),
    decreases b.len(),
{
    if b.len() > 0 {
        lemma_percent_encoded_len(b.drop_last());
    }
}

/// A label's encoding takes at most three bytes for each UTF-8 byte of the label.
pub proof fn lemma_encoded_label_len(l: Seq<char>)
    requires
        label_codec_holds(l),
    ensures
        encode_utf8(url_encoded(l)).len() == url_encoded(l).len(),
        url_encoded(l).len() <= 3 * encode_utf8(l).len(),
{
    reveal(url_encoded);
    lemma_percent_encoded_len(encode_utf8(l));
    let e = url_encoded(l);
    assert(vstd::utf8::is_ascii_chars(e)) by {
        assert forall|i: int| 0 <= i < e.len() implies '\0' <= #[trigger] e[i] <= '\u{7f}' by {
            assert(is_url_safe_char(e[i]));
        }
    }
    vstd::utf8::is_ascii_chars_encode_utf8(e);
}

/// What `urlencoding::decode` makes of a string: the decoded text, or none when the
/// decoded bytes are not UTF-8.
pub uninterp spec fn url_decoded(s: Seq<char>) -> Option<Seq<char>>;

/// A character that percent-encoding leaves in its output: an ASCII letter or digit,
/// one of `-`, `.`, `_`, `~`, or the escape character `%`.
pub open spec fn is_url_safe_char(c: char) -> bool {
    ('0' <= c <= '9') || ('A' <= c <= 'Z') || ('a' <= c <= 'z') || c == '-' || c == '.' || c
        == '_' || c == '~' || c == '%'
}

/// Relies on urlencoding::encode, which percent-encodes every UTF-8 byte except ASCII
/// letters, digits and `-`, `.`, `_`, `~` as `%` and two hex digits.
#[verifier::external_body]
fn url_encode(s: &str) -> (r: String)
    ensures
        r@ == url_encoded(s@),
        forall|i: int| 0 <= i < r@.len() ==> is_url_safe_char(#[trigger] r@[i]),
        s@.len() == 0 <==> r@.len() == 0,
        url_decoded(r@) == Some(s@),
{
    urlencoding::encode(s).into_owned()
}

/// Relies on urlencoding::decode, which turns each `%` and two hex digits back into the
/// byte and fails when the bytes are not UTF-8; it undoes urlencoding::encode.
#[verifier::external_body]
fn url_decode(s: &str) -> (r: Result<String, FromUtf8Error>)
    ensures
        r is Ok <==> url_decoded(s@) is Some,
        r is Ok ==> r->Ok_0@ == url_decoded(s@)->0,
        forall|t: Seq<char>| s@ == #[trigger] url_encoded(t) ==> r is Ok && r->Ok_0@ == t,
{
    match urlencoding::decode(s) {
        Ok(d) => Ok(d.into_owned()),
        Err(e) => Err(e),
    }
}

/// Relies on String::from_utf8: it succeeds exactly on valid UTF-8 and returns the
/// characters the bytes encode.
#[verifier::external_body]
pub(crate) fn string_from_utf8(v: Vec<u8>) -> (r: Result<String, FromUtf8Error>)
    ensures
        r is Ok <==> valid_utf8(v@),
        r is Ok ==> r->Ok_0@ == decode_utf8(v@),
{
    String::from_utf8(v)
}

/// The wire bytes of one label: its encoded length (truncated to a byte), then the
/// UTF-8 bytes of its percent-encoding.
pub open spec fn encoded_label(l: Seq<char>) -> Seq<u8> {
    let e = encode_utf8(url_encoded(l));
    seq![(e.len() % 256) as u8] + e
}

/// The wire bytes of a sequence of labels, one after the other.
pub open spec fn encoded_labels(ls: Seq<Seq<char>>) -> Seq<u8>
    decreases ls.len(),
{
    if ls.len() == 0 {
        Seq::<u8>::empty()
    } else {
        encoded_labels(ls.drop_last()) + encoded_label(ls.last())
    }
}

/// The wire bytes of a dot-separated name: each label, then a zero byte.
pub open spec fn encoded_name(s: Seq<char>) -> Seq<u8> {
    encoded_labels(split_dots(s)).push(0)
}

/// What percent-encoding gives one label: an encoding that decodes back to the label, is
/// empty only when the label is, and is made of URL-safe characters.
pub open spec fn label_codec_holds(l: Seq<char>) -> bool {
    &&& url_decoded(url_encoded(l)) == Some(l)
    &&& (l.len() == 0 <==> url_encoded(l).len() == 0)
    &&& forall|i: int| 0 <= i < url_encoded(l).len() ==> is_url_safe_char(#[trigger] url_encoded(l)[i])
}

/// Percent-encode one label and append its length byte and bytes to `ret`.
fn push_label(ret: &mut Vec<u8>, label: &Vec<char>)
    ensures
        final(ret)@ == old(ret)@ + encoded_label(label@),
        label_codec_holds(label@),
{
    let text = string_of(label.as_slice());
    let enc = url_encode(text.as_str());
    let bytes = enc.as_str().as_bytes();
    let n = bytes.len();
    ret.push((n % 256) as u8);
    let mut tail = slice_to_vec(bytes);
    ret.append(&mut tail);
}

/// Encode a dot-separated name as length-prefixed, percent-encoded labels ending in a zero byte.
pub fn encode_domain_name(name: &String) -> (r: Vec<u8>)
    ensures
        r@ == encoded_name(name@),
        forall|i: int| 0 <= i < split_dots(name@).len() ==> label_codec_holds(#[trigger] split_dots(name@)[i]),
{
    let chars = chars_of(name.as_str());
    let mut ret: Vec<u8> = Vec::new();
    let mut cur: Vec<char> = Vec::new();
    let mut i: usize = 0;
    while i < chars.len()
        invariant
            i <= chars@.len(),
            chars@ == name@,
            split_dots(chars@.take(i as int)).len() >= 1,
            ret@ == encoded_labels(split_dots(chars@.take(i as int)).drop_last()),
            cur@ == split_dots(chars@.take(i as int)).last(),
            forall|j: int|
                0 <= j < split_dots(chars@.take(i as int)).len() - 1 ==> label_codec_holds(
                    #[trigger] split_dots(chars@.take(i as int))[j],
                ),
        decreases chars@.len() - i,
    {
        let c = chars[i];
        let ghost prev = split_dots(chars@.take(i as int));
        assert(chars@.take(i + 1).drop_last() =~= chars@.take(i as int));
        if c == '.' {
            push_label(&mut ret, &cur);
            cur = Vec::new();
            assert(split_dots(chars@.take(i + 1)).drop_last() =~= prev);
            assert forall|j: int| 0 <= j < split_dots(chars@.take(i + 1)).len() - 1 implies label_codec_holds(
                #[trigger] split_dots(chars@.take(i + 1))[j],
            ) by {
                assert(split_dots(chars@.take(i + 1))[j] == prev[j]);
            }
        } else {
            cur.push(c);
            assert(split_dots(chars@.take(i + 1)).drop_last() =~= prev.drop_last());
            assert forall|j: int| 0 <= j < split_dots(chars@.take(i + 1)).len() - 1 implies label_codec_holds(
                #[trigger] split_dots(chars@.take(i + 1))[j],
            ) by {
                assert(split_dots(chars@.take(i + 1))[j] == prev[j]);
            }
        }
        i = i + 1;
        proof {
            lemma_split_dots_nonempty(chars@.take(i as int));
        }
    }
    assert(chars@.take(i as int) =~= name@);
    push_label(&mut ret, &cur);
    assert(split_dots(name@).drop_last().push(split_dots(name@).last()) =~= split_dots(name@));
    ret.push(0);
    assert forall|j: int| 0 <= j < split_dots(name@).len() implies label_codec_holds(#[trigger] split_dots(name@)[j]) by {
        if j < split_dots(name@).len() - 1 {
            assert(split_dots(chars@.take(i as int))[j] == split_dots(name@)[j]);
        }
    }
    ret
}

/// Why a domain name could not be decoded.
#[derive(Clone, Copy, Debug, PartialEq, Eq, Structural, PartialOrd, Ord)]
pub enum DomainDecodeError {
    UTF8Parse,
    URLDecode,
}

/// The text of one label's bytes: UTF-8 decoded, then percent-decoded.
pub open spec fn decoded_label(bytes: Seq<u8>) -> Result<Seq<char>, DomainDecodeError> {
    if !valid_utf8(bytes) {
        Err(DomainDecodeError::UTF8Parse)
    } else {
        match url_decoded(decode_utf8(bytes)) {
            Some(t) => Ok(t),
            None => Err(DomainDecodeError::URLDecode),
        }
    }
}

/// Decode the bytes of one label.
pub fn decode_label(bytes: Vec<u8>) -> (r: Result<String, DomainDecodeError>)
    ensures
        match decoded_label(bytes@) {
            Ok(t) => r is Ok && r->Ok_0@ == t,
            Err(e) => r == Err::<String, DomainDecodeError>(e),
        },
{
    match string_from_utf8(bytes) {
        Ok(text) => match url_decode(text.as_str()) {
            Ok(d) => Ok(d),
            Err(_) => Err(DomainDecodeError::URLDecode),
        },
        Err(_) => Err(DomainDecodeError::UTF8Parse),
    }
}

/// `text` followed by what `rest` holds, or the error of `rest`.
pub open spec fn prefixed(
    text: Seq<char>,
    rest: Result<Seq<char>, DomainDecodeError>,
) -> Result<Seq<char>, DomainDecodeError> {
    match rest {
        Ok(r) => Ok(text + r),
        Err(e) => Err(e),
    }
}

/// The name that the labels from the length byte at `pos` on spell. A label counts once the
/// next length byte follows it; a dot follows a label when that next length is not zero.
pub open spec fn domain_from(bytes: Seq<u8>, pos: int) -> Result<Seq<char>, DomainDecodeError>
    decreases bytes.len() - pos,
{
    if pos < 0 || pos >= bytes.len() {
        Ok(Seq::<char>::empty())
    } else {
        let next = pos + 1 + bytes[pos];
        if next >= bytes.len() {
            Ok(Seq::<char>::empty())
        } else {
            match decoded_label(bytes.subrange(pos + 1, next)) {
                Err(e) => Err(e),
                Ok(t) => prefixed(
                    t + if bytes[next] != 0 {
                        seq!['.']
                    } else {
                        Seq::<char>::empty()
                    },
                    domain_from(bytes, next),
                ),
            }
        }
    }
}

/// Decode length-prefixed, percent-encoded labels back into a dot-separated name.
pub fn decode_domain_name(name: Vec<u8>) -> (r: Result<String, DomainDecodeError>)
    ensures
        match domain_from(name@, 0) {
            Ok(t) => r is Ok && r->Ok_0@ == t,
            Err(e) => r == Err::<String, DomainDecodeError>(e),
        },
{
    let mut full_domain = String::new();
    let mut pos: usize = 0;
    while pos < name.len()
        invariant
            domain_from(name@, 0) == prefixed(full_domain@, domain_from(name@, pos as int)),
        decreases name@.len() - pos,
    {
        let len = name[pos] as usize;
        if len >= name.len() - pos - 1 {
            assert(domain_from(name@, pos as int) == Ok::<Seq<char>, DomainDecodeError>(Seq::<char>::empty()));
            assert(full_domain@ + Seq::<char>::empty() =~= full_domain@);
            return Ok(full_domain);
        }
        let next = pos + 1 + len;
        let mut label: Vec<u8> = Vec::new();
        let mut j: usize = pos + 1;
        while j < next
            invariant
                pos + 1 <= j <= next < name@.len(),
                label@ == name@.subrange(pos + 1, j as int),
            decreases next - j,
        {
            label.push(name[j]);
            j = j + 1;
            assert(label@ =~= name@.subrange(pos + 1, j as int));
        }
        match decode_label(label) {
            Err(e) => {
                return Err(e);
            },
            Ok(t) => {
                let ghost before = full_domain@;
                full_domain.append(t.as_str());
                if name[next] != 0 {
                    full_domain.append(".");
                    proof {
                        reveal_strlit(".");
                    }
                }
                proof {
                    let sep = if name@[next as int] != 0 {
                        seq!['.']
                    } else {
                        Seq::<char>::empty()
                    };
                    assert(full_domain@ =~= before + (t@ + sep));
                    match domain_from(name@, next as int) {
                        Ok(rest) => {
                            assert(before + ((t@ + sep) + rest) =~= full_domain@ + rest);
                        },
                        Err(_) => {},
                    }
                }
                pos = next;
            },
        }
    }
    assert(domain_from(name@, pos as int) == Ok::<Seq<char>, DomainDecodeError>(Seq::<char>::empty()));
    assert(full_domain@ + Seq::<char>::empty() =~= full_domain@);
    Ok(full_domain)
}

/// The position of the last dot in `s[..end]`, or -1 when there is none.
pub open spec fn last_dot_before(s: Seq<char>, end: int) -> int
    decreases end,
{
    if end <= 0 {
        -1
    } else if s[end - 1] == '.' {
        end - 1
    } else {
        last_dot_before(s, end - 1)
    }
}

/// Where the base domain starts in a key name: at the second-to-last dot, at the only dot
/// when there is one, and at the end when there is none.
pub open spec fn base_domain_start(s: Seq<char>) -> int {
    let last = last_dot_before(s, s.len() as int);
    if last < 0 {
        s.len() as int
    } else {
        let before = last_dot_before(s, last);
        if before < 0 {
            last
        } else {
            before
        }
    }
}

proof fn lemma_last_dot_bounds(s: Seq<char>, end: int)
    requires
        0 <= end <= s.len(),
    ensures
        -1 <= last_dot_before(s, end) < end,
        last_dot_before(s, end) >= 0 ==> s[last_dot_before(s, end)] == '.',
    decreases end,
{
    if end > 0 && s[end - 1] != '.' {
        lemma_last_dot_bounds(s, end - 1);
    }
}

/// The position of the last dot in `chars[..end]`.
fn find_last_dot(chars: &Vec<char>, end: usize) -> (r: Option<usize>)
    requires
        end <= chars@.len(),
    ensures
        match r {
            Some(i) => i == last_dot_before(chars@, end as int),
            None => last_dot_before(chars@, end as int) == -1,
        },
{
    let mut i: usize = end;
    while i > 0
        invariant
            i <= end <= chars@.len(),
            last_dot_before(chars@, end as int) == last_dot_before(chars@, i as int),
        decreases i,
    {
        if chars[i - 1] == '.' {
            return Some(i - 1);
        }
        i = i - 1;
    }
    None
}

/// Split a key name into the key and the base domain, which keeps its leading dot: the split
/// is at the second-to-last dot, or at the only dot; without a dot the base domain is empty.
pub fn strip_base_domain_from_key(public_key: &String) -> (r: (String, String))
    ensures
        r.0@ == public_key@.subrange(0, base_domain_start(public_key@)),
        r.1@ == public_key@.subrange(base_domain_start(public_key@), public_key@.len() as int),
{
    let chars = chars_of(public_key.as_str());
    let len = chars.len();
    proof {
        lemma_last_dot_bounds(chars@, len as int);
    }
    let split = match find_last_dot(&chars, len) {
        None => len,
        Some(last) => {
            proof {
                lemma_last_dot_bounds(chars@, last as int);
            }
            match find_last_dot(&chars, last) {
                None => last,
                Some(before) => before,
            }
        },
    };
    (string_of_range(&chars, 0, split), string_of_range(&chars, split, len))
}

/// The PEM key that a key name carries: the part before its base domain, fattened.
pub open spec fn carried_key(name: Seq<char>) -> Seq<char> {
    fattened_key(name.subrange(0, base_domain_start(name)))
}

/// The base domain at the end of a key name, with its leading dot.
pub open spec fn carried_base(name: Seq<char>) -> Seq<char> {
    name.subrange(base_domain_start(name), name.len() as int)
}

/// A domain with exactly one dot, such as `example.com`.
pub open spec fn has_one_dot(s: Seq<char>) -> bool {
    exists|d: int| 0 <= d < s.len() && s[d] == '.' && forall|j: int| 0 <= j < s.len() && j != d ==> #[trigger] s[j] != '.'
}

proof fn lemma_last_dot_skip(s: Seq<char>, lo: int, end: int)
    requires
        0 <= lo <= end <= s.len(),
        forall|j: int| lo <= j < end ==> #[trigger] s[j] != '.',
    ensures
        last_dot_before(s, end) == last_dot_before(s, lo),
    decreases end - lo,
{
    if end > lo {
        lemma_last_dot_skip(s, lo, end - 1);
    }
}

/// A trimmed key followed by a dot and a one-dot base domain splits back into the two.
pub proof fn lemma_key_name_parts(t: Seq<char>, b: Seq<char>)
    requires
        is_trimmed_key(t),
        has_one_dot(b),
    ensures
        carried_key(t + seq!['.'] + b) == fattened_key(t),
        carried_base(t + seq!['.'] + b) == seq!['.'] + b,
{
    let n = t + seq!['.'] + b;
    let d = choose|d: int| 0 <= d < b.len() && b[d] == '.' && forall|j: int| 0 <= j < b.len() && j != d ==> #[trigger] b[j] != '.';
    assert forall|j: int| 126 + d + 1 <= j < n.len() implies #[trigger] n[j] != '.' by {
        assert(n[j] == b[j - 126]);
    }
    lemma_last_dot_skip(n, 126 + d + 1, n.len() as int);
    assert(n[126 + d] == '.');
    assert(last_dot_before(n, 126 + d + 1) == 126 + d);
    assert forall|j: int| 126 <= j < 126 + d implies #[trigger] n[j] != '.' by {
        assert(n[j] == b[j - 126]);
    }
    lemma_last_dot_skip(n, 126, 126 + d);
    assert(n[125] == '.');
    assert(last_dot_before(n, 126) == 125);
    assert(base_domain_start(n) == 125);
    assert(n.subrange(0, 125) =~= t);
    assert(n.subrange(125, n.len() as int) =~= seq!['.'] + b);
}

/// The trimmed key, a dot, then the base domain. When the key is a trimmed P-256 key and the
/// base domain has one dot, the name gives both back.
pub fn append_base_domain_to_key(trimmed_key: String, base_domain: &String) -> (r: String)
    ensures
        r@ == trimmed_key@ + seq!['.'] + base_domain@,
        is_trimmed_key(trimmed_key@) && has_one_dot(base_domain@) ==> carried_key(r@) == fattened_key(
            trimmed_key@,
        ) && carried_base(r@) == seq!['.'] + base_domain@,
{
    let r = dot_join(trimmed_key.as_str(), base_domain.as_str());
    proof {
        if is_trimmed_key(trimmed_key@) && has_one_dot(base_domain@) {
            lemma_key_name_parts(trimmed_key@, base_domain@);
        }
    }
    r
}

/// The PEM public key carried in a key name, and the base domain that followed it.
pub fn get_fattened_public_key(key_question: &String) -> (r: (String, String))
    ensures
        r.0@ == fattened_key(key_question@.subrange(0, base_domain_start(key_question@))),
        r.1@ == key_question@.subrange(base_domain_start(key_question@), key_question@.len() as int),
{
    let (trimmed_public_key, base_domain) = strip_base_domain_from_key(key_question);
    (fatten_public_key(&trimmed_public_key), base_domain)
}

/// A name whose labels percent-encoding leaves decodable, each encoded in at most 255
/// bytes, with no empty label but possibly the first: no doubled or trailing dot.
pub open spec fn is_wire_name(s: Seq<char>) -> bool {
    let ls = split_dots(s);
    &&& forall|i: int| 0 <= i < ls.len() ==> label_codec_holds(#[trigger] ls[i])
    &&& forall|i: int| 0 <= i < ls.len() ==> encode_utf8(url_encoded(#[trigger] ls[i])).len() <= 255
    &&& forall|i: int| 1 <= i < ls.len() ==> (#[trigger] ls[i]).len() > 0
}

/// The labels joined with dots, read from the front.
pub open spec fn join_front(ls: Seq<Seq<char>>) -> Seq<char>
    decreases ls.len(),
{
    if ls.len() == 0 {
        Seq::<char>::empty()
    } else if ls.len() == 1 {
        ls[0]
    } else {
        ls[0] + seq!['.'] + join_front(ls.drop_first())
    }
}

pub proof fn lemma_join_front(ls: Seq<Seq<char>>)
    ensures
        join_front(ls) == join_dots(ls),
    decreases ls.len(),
{
    if ls.len() > 2 {
        let f = ls.drop_first();
        let d = ls.drop_last();
        let m = f.drop_last();
        lemma_join_front(f);
        lemma_join_front(d);
        lemma_join_front(m);
        assert(m =~= d.drop_first());
        assert(f.last() == ls.last());
        assert(d[0] == ls[0]);
        assert(join_front(d) == d[0] + seq!['.'] + join_front(d.drop_first()));
        assert(join_dots(f) == join_dots(m) + seq!['.'] + f.last());
        assert(join_dots(ls) == join_dots(d) + seq!['.'] + ls.last());
        assert(join_front(ls) == ls[0] + seq!['.'] + join_front(f));
        assert(ls[0] + seq!['.'] + (join_dots(m) + seq!['.'] + ls.last()) =~= (ls[0] + seq!['.'] + join_dots(m)) + seq!['.'] + ls.last());
        assert(join_front(ls) == join_dots(ls));
    } else if ls.len() == 2 {
        assert(ls.drop_first() =~= seq![ls[1]]);
        assert(ls.drop_last() =~= seq![ls[0]]);
        assert(join_front(ls.drop_first()) == ls[1]);
        assert(join_dots(ls.drop_last()) == ls[0]);
        assert(join_front(ls) == join_dots(ls));
    }
}

pub proof fn lemma_encoded_labels_front(l: Seq<char>, rest: Seq<Seq<char>>)
    ensures
        encoded_labels(seq![l] + rest) == encoded_label(l) + encoded_labels(rest),
    decreases rest.len(),
{
    if rest.len() == 0 {
        assert(seq![l] + rest =~= seq![l]);
        assert(seq![l].drop_last() =~= Seq::<Seq<char>>::empty());
        assert(encoded_labels(seq![l]) == encoded_labels(Seq::<Seq<char>>::empty()) + encoded_label(l));
        assert(Seq::<u8>::empty() + encoded_label(l) =~= encoded_label(l));
        assert(encoded_label(l) + Seq::<u8>::empty() =~= encoded_label(l));
    } else {
        lemma_encoded_labels_front(l, rest.drop_last());
        assert((seq![l] + rest).drop_last() =~= seq![l] + rest.drop_last());
        assert((seq![l] + rest).last() == rest.last());
        assert(encoded_label(l) + encoded_labels(rest.drop_last()) + encoded_label(rest.last())
            =~= encoded_label(l) + (encoded_labels(rest.drop_last()) + encoded_label(rest.last())));
    }
}

/// Decoding at an offset of `p + q` is decoding `q`.
proof fn lemma_domain_from_shift(p: Seq<u8>, q: Seq<u8>, pos: int)
    requires
        0 <= pos,
    ensures
        domain_from(p + q, p.len() + pos) == domain_from(q, pos),
    decreases q.len() - pos,
{
    let b = p + q;
    let at = p.len() + pos;
    if pos < q.len() {
        assert(b[at] == q[pos]);
        let next = pos + 1 + q[pos];
        if next < q.len() {
            assert(b.subrange(at + 1, p.len() + next) =~= q.subrange(pos + 1, next));
            assert(b[p.len() + next] == q[next]);
            lemma_domain_from_shift(p, q, next);
        }
    }
}

/// The bytes of a label's encoding decode back to the label.
pub proof fn lemma_decoded_label(l: Seq<char>)
    requires
        label_codec_holds(l),
    ensures
        decoded_label(encode_utf8(url_encoded(l))) == Ok::<Seq<char>, DomainDecodeError>(l),
{
    vstd::utf8::encode_utf8_valid_utf8(url_encoded(l));
    vstd::utf8::encode_utf8_decode_utf8(url_encoded(l));
}

pub proof fn lemma_encode_utf8_nonempty(c: Seq<char>)
    requires
        c.len() > 0,
    ensures
        encode_utf8(c).len() > 0,
{
}

proof fn lemma_domain_from_labels(ls: Seq<Seq<char>>)
    requires
        ls.len() >= 1,
        forall|i: int| 0 <= i < ls.len() ==> label_codec_holds(#[trigger] ls[i]),
        forall|i: int| 0 <= i < ls.len() ==> encode_utf8(url_encoded(#[trigger] ls[i])).len() <= 255,
        forall|i: int| 1 <= i < ls.len() ==> (#[trigger] ls[i]).len() > 0,
    ensures
        domain_from(encoded_labels(ls).push(0), 0) == Ok::<Seq<char>, DomainDecodeError>(join_front(ls)),
    decreases ls.len(),
{
    let l = ls[0];
    let rest = ls.drop_first();
    assert(ls =~= seq![l] + rest);
    lemma_encoded_labels_front(l, rest);
    let e = encode_utf8(url_encoded(l));
    let tail = encoded_labels(rest).push(0);
    let b = encoded_labels(ls).push(0);
    assert(b =~= seq![(e.len() % 256) as u8] + e + tail);
    let next = 1 + e.len();
    assert(b[0] == e.len());
    assert(b.subrange(1, next as int) =~= e);
    lemma_decoded_label(l);
    if rest.len() == 0 {
        assert(tail =~= seq![0u8]);
        assert(b[next as int] == 0);
        assert(domain_from(b, next as int) == Ok::<Seq<char>, DomainDecodeError>(Seq::<char>::empty()));
        assert(l + Seq::<char>::empty() + Seq::<char>::empty() =~= l);
    } else {
        let l1 = rest[0];
        assert(l1 == ls[1]);
        lemma_encode_utf8_nonempty(url_encoded(l1));
        lemma_encoded_labels_front(l1, rest.drop_first());
        assert(rest =~= seq![l1] + rest.drop_first());
        let e1 = encode_utf8(url_encoded(l1));
        assert(tail[0] == (e1.len() % 256) as u8);
        assert(b[next as int] == tail[0]);
        assert forall|i: int| 0 <= i < rest.len() implies label_codec_holds(#[trigger] rest[i]) && encode_utf8(url_encoded(rest[i])).len() <= 255 by {
            assert(rest[i] == ls[i + 1]);
        }
        assert forall|i: int| 1 <= i < rest.len() implies (#[trigger] rest[i]).len() > 0 by {
            assert(rest[i] == ls[i + 1]);
        }
        lemma_domain_from_labels(rest);
        let head = seq![(e.len() % 256) as u8] + e;
        assert(b =~= head + tail);
        lemma_domain_from_shift(head, tail, 0);
        assert(l + seq!['.'] + join_front(rest) =~= (l + seq!['.']) + join_front(rest));
    }
}

/// Decoding the wire bytes of a name gives the name back, for every name without a doubled
/// or trailing dot whose labels each encode in at most 255 bytes, given what percent-encoding
/// guarantees of its labels (which `encode_domain_name` states for every name it encodes).
pub proof fn lemma_domain_name_round_trip(s: Seq<char>)
    requires
        is_wire_name(s),
    ensures
        domain_from(encoded_name(s), 0) == Ok::<Seq<char>, DomainDecodeError>(s),
{
    lemma_split_dots_nonempty(s);
    lemma_domain_from_labels(split_dots(s));
    lemma_join_front(split_dots(s));
    lemma_join_split_dots(s);
}

/// The text the decoder makes of labels: each label, with a dot after it when the next label
/// is not empty.
pub open spec fn domain_text(ls: Seq<Seq<char>>) -> Seq<char>
    decreases ls.len(),
{
    if ls.len() == 0 {
        Seq::<char>::empty()
    } else if ls.len() == 1 {
        ls[0]
    } else {
        ls[0] + (if ls[1].len() > 0 {
            seq!['.']
        } else {
            Seq::<char>::empty()
        }) + domain_text(ls.drop_first())
    }
}

/// Decoding the wire bytes of any labels, empty ones included, gives the labels with a dot
/// before each non-empty label but the first.
pub proof fn lemma_domain_from_any_labels(ls: Seq<Seq<char>>)
    requires
        ls.len() >= 1,
        forall|i: int| 0 <= i < ls.len() ==> label_codec_holds(#[trigger] ls[i]),
        forall|i: int| 0 <= i < ls.len() ==> encode_utf8(url_encoded(#[trigger] ls[i])).len() <= 255,
    ensures
        domain_from(encoded_labels(ls).push(0), 0) == Ok::<Seq<char>, DomainDecodeError>(domain_text(ls)),
    decreases ls.len(),
{
    let l = ls[0];
    let rest = ls.drop_first();
    assert(ls =~= seq![l] + rest);
    lemma_encoded_labels_front(l, rest);
    let e = encode_utf8(url_encoded(l));
    let tail = encoded_labels(rest).push(0);
    let b = encoded_labels(ls).push(0);
    assert(b =~= seq![(e.len() % 256) as u8] + e + tail);
    let next = 1 + e.len();
    assert(b[0] == e.len());
    assert(b.subrange(1, next as int) =~= e);
    lemma_decoded_label(l);
    if rest.len() == 0 {
        assert(tail =~= seq![0u8]);
        assert(b[next as int] == 0);
        assert(domain_from(b, next as int) == Ok::<Seq<char>, DomainDecodeError>(Seq::<char>::empty()));
        assert(l + Seq::<char>::empty() + Seq::<char>::empty() =~= l);
    } else {
        let l1 = rest[0];
        assert(l1 == ls[1]);
        lemma_encoded_labels_front(l1, rest.drop_first());
        assert(rest =~= seq![l1] + rest.drop_first());
        let e1 = encode_utf8(url_encoded(l1));
        if l1.len() > 0 {
            lemma_encode_utf8_nonempty(url_encoded(l1));
        } else {
            assert(url_encoded(l1) =~= Seq::<char>::empty());
            assert(e1 =~= Seq::<u8>::empty());
        }
        assert(tail[0] == (e1.len() % 256) as u8);
        assert(b[next as int] == tail[0]);
        assert forall|i: int| 0 <= i < rest.len() implies label_codec_holds(#[trigger] rest[i]) && encode_utf8(url_encoded(rest[i])).len() <= 255 by {
            assert(rest[i] == ls[i + 1]);
        }
        lemma_domain_from_any_labels(rest);
        let head = seq![(e.len() % 256) as u8] + e;
        assert(b =~= head + tail);
        lemma_domain_from_shift(head, tail, 0);
        let sep = if l1.len() > 0 {
            seq!['.']
        } else {
            Seq::<char>::empty()
        };
        assert(l + sep + domain_text(rest) =~= (l + sep) + domain_text(rest));
    }
}

proof fn lemma_split_no_dot(x: Seq<char>)
    requires
        forall|i: int| 0 <= i < x.len() ==> #[trigger] x[i] != '.',
    ensures
        split_dots(x) == seq![x],
    decreases x.len(),
{
    if x.len() > 0 {
        lemma_split_no_dot(x.drop_last());
        assert(x.drop_last().push(x.last()) =~= x);
    } else {
        assert(x =~= Seq::<char>::empty());
    }
}

/// Splitting `x`, a dot, `y` gives the segments of `x` then those of `y`.
proof fn lemma_split_concat(x: Seq<char>, y: Seq<char>)
    ensures
        split_dots(x + seq!['.'] + y) == split_dots(x) + split_dots(y),
    decreases y.len(),
{
    lemma_split_dots_nonempty(x);
    if y.len() == 0 {
        assert((x + seq!['.'] + y).drop_last() =~= x);
        assert(x + seq!['.'] + y =~= x.push('.'));
        assert(split_dots(y) =~= seq![Seq::<char>::empty()]);
    } else {
        lemma_split_concat(x, y.drop_last());
        lemma_split_dots_nonempty(y.drop_last());
        let z = x + seq!['.'] + y;
        assert(z.drop_last() =~= x + seq!['.'] + y.drop_last());
        assert(z.last() == y.last());
        let p = split_dots(x);
        let q = split_dots(y.drop_last());
        if y.last() == '.' {
            assert((p + q).push(Seq::<char>::empty()) =~= p + q.push(Seq::<char>::empty()));
        } else {
            assert((p + q).update((p + q).len() - 1, (p + q).last().push(y.last())) =~= p + q.update(
                q.len() - 1,
                q.last().push(y.last()),
            ));
        }
    }
}

proof fn lemma_reply_labels(t: Seq<char>, base: Seq<char>) -> (r: (Seq<char>, Seq<char>, Seq<char>, Seq<char>))
    requires
        is_trimmed_key(t),
        has_one_dot(base),
        base.len() > 0 && base[0] != '.' && base.last() != '.',
    ensures
        split_dots(t + seq!['.'] + (seq!['.'] + base)) == seq![r.0, r.1, Seq::<char>::empty(), r.2, r.3],
        t == r.0 + seq!['.'] + r.1,
        r.0 == t.subrange(0, 64) && r.1 == t.subrange(65, 125),
        base == r.2 + seq!['.'] + r.3,
        split_dots(base) == seq![r.2, r.3],
        r.1.len() > 0 && r.2.len() > 0 && r.3.len() > 0,
{
    let t1 = t.subrange(0, 64);
    let t2 = t.subrange(65, 125);
    assert(t =~= t1 + seq!['.'] + t2);
    assert forall|i: int| 0 <= i < t1.len() implies #[trigger] t1[i] != '.' by {
        assert(t1[i] == t[i]);
    }
    assert forall|i: int| 0 <= i < t2.len() implies #[trigger] t2[i] != '.' by {
        assert(t2[i] == t[i + 65]);
    }
    lemma_split_no_dot(t1);
    lemma_split_no_dot(t2);
    lemma_split_concat(t1, t2);
    let d = choose|d: int| 0 <= d < base.len() && base[d] == '.' && forall|j: int| 0 <= j < base.len() && j != d ==> #[trigger] base[j] != '.';
    let a = base.subrange(0, d);
    let b = base.subrange(d + 1, base.len() as int);
    assert(base =~= a + seq!['.'] + b);
    assert forall|i: int| 0 <= i < a.len() implies #[trigger] a[i] != '.' by {
        assert(a[i] == base[i]);
    }
    assert forall|i: int| 0 <= i < b.len() implies #[trigger] b[i] != '.' by {
        assert(b[i] == base[i + d + 1]);
    }
    lemma_split_no_dot(a);
    lemma_split_no_dot(b);
    lemma_split_concat(a, b);
    lemma_split_concat(Seq::<char>::empty(), base);
    lemma_split_no_dot(Seq::<char>::empty());
    assert(seq!['.'] + base =~= Seq::<char>::empty() + seq!['.'] + base);
    lemma_split_concat(t, seq!['.'] + base);
    assert(split_dots(t + seq!['.'] + (seq!['.'] + base)) =~= seq![t1, t2, Seq::<char>::empty(), a, b]);
    assert(split_dots(base) =~= seq![a, b]);
    assert(a.len() > 0);
    assert(b.len() > 0);
    (t1, t2, a, b)
}

proof fn lemma_domain_text_reply(t1: Seq<char>, t2: Seq<char>, a: Seq<char>, b: Seq<char>)
    requires
        t2.len() > 0 && a.len() > 0 && b.len() > 0,
    ensures
        domain_text(seq![t1, t2, Seq::<char>::empty(), a, b]) == t1 + seq!['.'] + t2 + seq!['.'] + (a
            + seq!['.'] + b),
{
    let ls = seq![t1, t2, Seq::<char>::empty(), a, b];
    assert(ls.drop_first() =~= seq![t2, Seq::<char>::empty(), a, b]);
    assert(ls.drop_first().drop_first() =~= seq![Seq::<char>::empty(), a, b]);
    assert(ls.drop_first().drop_first().drop_first() =~= seq![a, b]);
    assert(ls.drop_first().drop_first().drop_first().drop_first() =~= seq![b]);
    assert(domain_text(seq![b]) == b);
    assert(domain_text(seq![a, b]) == a + seq!['.'] + b);
    assert(domain_text(seq![Seq::<char>::empty(), a, b]) =~= seq!['.'] + a + seq!['.'] + b);
    assert(domain_text(ls.drop_first()) =~= t2 + seq!['.'] + a + seq!['.'] + b);
    assert(domain_text(ls) =~= t1 + seq!['.'] + t2 + seq!['.'] + (a + seq!['.'] + b));
}

/// The name the server answers a handshake with: a trimmed key, two dots (its own and the
/// one the base domain kept), then a one-dot base domain. Decoding its wire bytes drops the
/// empty label and gives the key name back, which carries the key.
#[verifier::rlimit(80)]
pub proof fn lemma_reply_key_name(t: Seq<char>, base: Seq<char>)
    requires
        is_trimmed_key(t),
        has_one_dot(base),
        base.len() > 0 && base[0] != '.' && base.last() != '.',
        forall|i: int|
            0 <= i < split_dots(t + seq!['.'] + (seq!['.'] + base)).len() ==> label_codec_holds(
                #[trigger] split_dots(t + seq!['.'] + (seq!['.'] + base))[i],
            ),
        forall|i: int|
            0 <= i < split_dots(t + seq!['.'] + (seq!['.'] + base)).len() ==> encode_utf8(
                url_encoded(#[trigger] split_dots(t + seq!['.'] + (seq!['.'] + base))[i]),
            ).len() <= 255,
    ensures
        domain_from(encoded_name(t + seq!['.'] + (seq!['.'] + base)), 0) == Ok::<Seq<char>, DomainDecodeError>(
            t + seq!['.'] + base,
        ),
        carried_key(t + seq!['.'] + base) == fattened_key(t),
{
    let name = t + seq!['.'] + (seq!['.'] + base);
    let (t1, t2, a, b) = lemma_reply_labels(t, base);
    let ls = split_dots(name);
    lemma_domain_from_any_labels(ls);
    lemma_domain_text_reply(t1, t2, a, b);
    lemma_key_name_parts(t, base);
}

proof fn lemma_base64_label_fits(l: Seq<char>)
    requires
        l.len() <= 64,
        forall|i: int| 0 <= i < l.len() ==> is_base64_char(#[trigger] l[i]),
        label_codec_holds(l),
    ensures
        encode_utf8(url_encoded(l)).len() <= 255,
{
    lemma_encoded_label_len(l);
    assert(vstd::utf8::is_ascii_chars(l)) by {
        assert forall|i: int| 0 <= i < l.len() implies '\0' <= #[trigger] l[i] <= '\u{7f}' by {
            assert(is_base64_char(l[i]));
        }
    }
    vstd::utf8::is_ascii_chars_encode_utf8(l);
}

/// The name a server answers a handshake with, built from its PEM key and a one-dot base
/// domain (kept with its leading dot), decodes back to a name carrying that key, given what
/// the encoder states of its labels and that the base domain's two labels each encode in at
/// most 255 bytes.
pub proof fn lemma_server_key_name_decodes(server_public: Seq<char>, base: Seq<char>)
    requires
        is_pem_public_key(server_public),
        has_one_dot(base),
        base.len() > 0 && base[0] != '.' && base.last() != '.',
        forall|i: int|
            0 <= i < split_dots(trimmed_key(server_public) + seq!['.'] + (seq!['.'] + base)).len()
                ==> label_codec_holds(
                #[trigger] split_dots(trimmed_key(server_public) + seq!['.'] + (seq!['.'] + base))[i],
            ),
        forall|i: int| 0 <= i < split_dots(base).len() ==> encode_utf8(url_encoded(#[trigger] split_dots(base)[i])).len() <= 255,
    ensures
        domain_from(encoded_name(trimmed_key(server_public) + seq!['.'] + (seq!['.'] + base)), 0) == Ok::<Seq<char>, DomainDecodeError>(
            trimmed_key(server_public) + seq!['.'] + base,
        ),
        carried_key(trimmed_key(server_public) + seq!['.'] + base) == server_public,
{
    let t = trimmed_key(server_public);
    crate::crypto::lemma_trimmed_shape_pub(server_public);
    crate::crypto::lemma_pem_round_trip(server_public);
    let name = t + seq!['.'] + (seq!['.'] + base);
    let (t1, t2, a, b) = lemma_reply_labels(t, base);
    let ls = split_dots(name);
    assert(ls[0] == t1 && ls[1] == t2 && ls[2] == Seq::<char>::empty() && ls[3] == a && ls[4] == b);
    assert forall|i: int| 0 <= i < t1.len() implies is_base64_char(#[trigger] t1[i]) by {
        assert(t1[i] == t[i]);
    }
    assert forall|i: int| 0 <= i < t2.len() implies is_base64_char(#[trigger] t2[i]) by {
        assert(t2[i] == t[i + 65]);
    }
    lemma_base64_label_fits(t1);
    lemma_base64_label_fits(t2);
    assert(url_encoded(Seq::<char>::empty()) =~= Seq::<char>::empty());
    assert(split_dots(base)[0] == a && split_dots(base)[1] == b);
    assert forall|i: int| 0 <= i < ls.len() implies encode_utf8(url_encoded(#[trigger] ls[i])).len() <= 255 by {
        if i == 2 {
            assert(encode_utf8(Seq::<char>::empty()) =~= Seq::<u8>::empty());
        }
    }
    lemma_reply_key_name(t, base);
}

} // verus!
