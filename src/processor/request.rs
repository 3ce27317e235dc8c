//! The server side of the protocol: classify each decoded request and produce its outcome.

use vstd::prelude::*;
use vstd::utf8::{decode_utf8, valid_utf8};
use crate::config::{fq_key_endpoint, DomainConfig};
use crate::crypto::{
    asym_to_sym_key, base64_decoded, base64_of, decode_base64, decrypt, get_random_asym_pair,
    get_shared_asym_secret, opened, pem_key_parses, sealed, trim_public_key, trimmed_key, KEY_SIZE,
    MAX_PLAINTEXT, NONCE_SIZE, PrivateKey,
};
use crate::message::header::ResponseCode;
use crate::message::message::{echoes, is_protocol_error_record, response_header, DNSMessage};
use crate::message::question::{question_bytes, QClass, QType};
use crate::message::record::{ARdata, CnameRdata, RData, RecordView, ResourceRecord};
use crate::session::clients::{later, Client, ClientView, Clients};
use crate::string::{
    append_base_domain_to_key, carried_base, carried_key, encode_domain_name, encoded_name,
    label_codec_holds, string_from_utf8,
};
use crate::text::split_dots;

pub use crate::string::get_fattened_public_key;
use crate::crypto::{ecdh_secret, fattened_key, is_pem_public_key, public_pem_of};
use crate::text::chars_of;
use crate::RequestError;

verus! {

broadcast use vstd::string::group_string_axioms;

/// Result of a client's handshake: the new session, the response, and both public keys.
pub struct KeySwapContext {
    /// New session, with the derived shared key and when it was seen
    pub new_client: Client,
    /// Response carrying the server's public key
    pub response: DNSMessage,
    /// Public key of the server's key pair, as PEM
    pub server_public: String,
    /// The name the client's public key came in, which identifies its session
    pub client_public: String,
}

/// Why a handshake request was refused.
#[derive(Clone, Copy, Debug, PartialEq, Eq, Structural)]
pub enum KeyDecodeError {
    QuestionCount(usize),
    FirstQuestionNotA(QType),
    SecondQuestionNotA(QType),
    SharedSecretDerivation,
}

/// Why the handshake request `m` is refused, if it is: it must hold two type A questions,
/// the second a key name whose key parses.
pub open spec fn key_request_error(m: DNSMessage) -> Option<KeyDecodeError> {
    let qs = m.questions@;
    if qs.len() != 2 {
        Some(KeyDecodeError::QuestionCount(qs.len() as usize))
    } else if qs[0].qtype != QType::A {
        Some(KeyDecodeError::FirstQuestionNotA(qs[0].qtype))
    } else if qs[1].qtype != QType::A {
        Some(KeyDecodeError::SecondQuestionNotA(qs[1].qtype))
    } else if !pem_key_parses(carried_key(qs[1].qname@)) {
        Some(KeyDecodeError::SharedSecretDerivation)
    } else {
        None
    }
}

/// The name the server's key goes back in: the trimmed key, a dot, and the base domain of
/// the client's key name (which keeps its own leading dot).
pub open spec fn server_key_name(server_public: Seq<char>, m: DNSMessage) -> Seq<char> {
    trimmed_key(server_public) + seq!['.'] + carried_base(m.questions@[1].qname@)
}

/// `r` answers the handshake request `m` with the server key `server_public`: a plain A
/// record for the key endpoint, then a CNAME record holding the server's key name, pointing
/// at the second question.
pub open spec fn is_handshake_response(r: DNSMessage, m: DNSMessage, server_public: Seq<char>) -> bool {
    let name = server_key_name(server_public, m);
    &&& echoes(r, m)
    &&& r.header == response_header(m.header, ResponseCode::NoError, 2, true)
    &&& r.answer_records@.len() == 2
    &&& r.answer_records@[0]@ == RecordView {
        name_offset: 12,
        answer_type: QType::A,
        class: QClass::Internet,
        ttl: 0,
        rd_length: 4,
        data: seq![127u8, 0, 0, 1],
    }
    &&& r.answer_records@[1].r_data matches RData::Cname(c) && c.rdata@ == name
    &&& r.answer_records@[1]@ == RecordView {
        name_offset: ((12 + question_bytes(m.questions@[0]@).len()) % 0x10000) as u16,
        answer_type: QType::CNAME,
        class: QClass::Internet,
        ttl: 0,
        rd_length: (encoded_name(name).len() % 0x10000) as u16,
        data: encoded_name(name),
    }
    &&& r.authority_records@.len() == 0
    &&& r.additional_records@.len() == 0
}

/// `key` is the session key of handshake request `m` answered with the server key
/// `server_public`: 32 bytes, the secret of the server's private key with the client's key,
/// and so, when the client's key is the public key of `b`, the secret of `b` with the server's
/// key.
pub open spec fn is_handshake_key(m: DNSMessage, server_public: Seq<char>, key: Seq<u8>) -> bool {
    let client_key = carried_key(m.questions@[1].qname@);
    &&& key.len() == KEY_SIZE
    &&& exists|sp: PrivateKey| #[trigger] public_pem_of(sp) == server_public && key == ecdh_secret(sp, client_key)
    &&& forall|b: PrivateKey| client_key == #[trigger] public_pem_of(b) ==> key == ecdh_secret(b, server_public)
}

/// Client and server end a handshake with the same key: the server's session key for a
/// request whose key name carries the client's public key equals the key the client derives
/// from a reply name that carries the server's public key.
pub proof fn lemma_handshake_keys_agree(m: DNSMessage, server_public: Seq<char>, server_key: Seq<u8>, client: PrivateKey, reply_name: Seq<char>)
    requires
        is_handshake_key(m, server_public, server_key),
        carried_key(m.questions@[1].qname@) == public_pem_of(client),
        carried_key(reply_name) == server_public,
    ensures
        server_key == ecdh_secret(client, carried_key(reply_name)),
{
}

/// A fresh key pair, with the public key as a name under `base_domain`.
pub fn get_key_request_with_base_domain(base_domain: String) -> (r: (PrivateKey, String))
    ensures
        r.1@ == trimmed_key(public_pem_of(r.0)) + seq!['.'] + base_domain@,
        is_pem_public_key(public_pem_of(r.0)),
{
    let (private, public) = get_random_asym_pair();
    let name = append_base_domain_to_key(trim_public_key(&public), &base_domain);
    (private, name)
}

/// Take a client's handshake request, generate the server's key pair, derive the shared key
/// and prepare the response. `now` is when the request came in.
pub fn decode_key_request(message: &DNSMessage, now: u64) -> (r: Result<KeySwapContext, KeyDecodeError>)
    ensures
        match key_request_error(*message) {
            Some(e) => r == Err::<KeySwapContext, KeyDecodeError>(e),
            None => r matches Ok(ctx) && ctx.client_public@ == message.questions@[1].qname@
                && ctx.new_client@.first_seen == now && ctx.new_client@.last_seen == now
                && is_handshake_key(*message, ctx.server_public@, ctx.new_client@.shared_key)
                && is_pem_public_key(ctx.server_public@) && pem_key_parses(ctx.server_public@)
                && (forall|i: int| 0 <= i < split_dots(server_key_name(ctx.server_public@, *message)).len()
                    ==> label_codec_holds(#[trigger] split_dots(server_key_name(ctx.server_public@, *message))[i]))
                && is_handshake_response(ctx.response, *message, ctx.server_public@),
        },
{
    if message.questions.len() != 2 {
        return Err(KeyDecodeError::QuestionCount(message.questions.len()));
    }
    if message.questions[0].qtype != QType::A {
        return Err(KeyDecodeError::FirstQuestionNotA(message.questions[0].qtype));
    }
    let key_question = &message.questions[1];
    if key_question.qtype != QType::A {
        return Err(KeyDecodeError::SecondQuestionNotA(key_question.qtype));
    }
    let (fattened_public_key, base_domain) = get_fattened_public_key(&key_question.qname);
    let (server_private, server_public) = get_random_asym_pair();
    match get_shared_asym_secret(&server_private, &fattened_public_key) {
        Err(_) => Err(KeyDecodeError::SharedSecretDerivation),
        Ok(secret) => {
            proof {
                assert(public_pem_of(server_private) == server_public@);
            }
            let sym_key = asym_to_sym_key(&secret);
            let new_client = Client::new(sym_key, now);
            let mut response = message.empty_resp_from_request();
            let first_record = ResourceRecord {
                name_offset: 12,
                answer_type: QType::A,
                class: QClass::Internet,
                ttl: 0,
                rd_length: 4,
                r_data: RData::A(ARdata::from([127, 0, 0, 1])),
            };
            let server_public_domain = append_base_domain_to_key(trim_public_key(&server_public), &base_domain);
            let first_len = message.questions[0].to_bytes().len();
            let name_len = encode_domain_name(&server_public_domain).len();
            let second_record = ResourceRecord {
                name_offset: ((first_len % 0x10000 + 12) % 0x10000) as u16,
                answer_type: QType::CNAME,
                class: QClass::Internet,
                ttl: 0,
                rd_length: (name_len % 0x10000) as u16,
                r_data: RData::Cname(CnameRdata::from(server_public_domain)),
            };
            response.header.answer_record_count = 2;
            response.answer_records = vec![first_record, second_record];
            proof {
                assert(first_record.r_data->A_0.rdata@ =~= seq![127u8, 0, 0, 1]);
                assert((first_len % 0x10000 + 12) % 0x10000 == (12 + first_len) % 0x10000);
            }
            Ok(
                KeySwapContext {
                    new_client,
                    response,
                    server_public,
                    client_public: key_question.qname.clone(),
                },
            )
        },
    }
}

/// The names of an upload request: an optional encrypted key, the encrypted value and the
/// nonce, all base64. Three questions carry no key, four carry one.
pub struct UploadValue {
    pub key: Option<String>,
    pub value: String,
    pub nonce: String,
}

/// The (key, value, nonce) names of an upload request with three or four questions.
pub open spec fn upload_names_of(m: DNSMessage) -> Option<(Option<Seq<char>>, Seq<char>, Seq<char>)> {
    let qs = m.questions@;
    if qs.len() == 3 {
        Some((None, qs[1].qname@, qs[2].qname@))
    } else if qs.len() == 4 {
        Some((Some(qs[1].qname@), qs[2].qname@, qs[3].qname@))
    } else {
        None
    }
}

/// The plaintext text of an encrypted, base64 name under `key` and `nonce`, if it decodes,
/// authenticates and is UTF-8.
pub open spec fn opened_text(key: Seq<u8>, nonce: Seq<u8>, name: Seq<char>) -> Option<Seq<char>> {
    match base64_decoded(name) {
        None => None,
        Some(c) => match opened(key, nonce, c) {
            Some(p) => if valid_utf8(p) {
                Some(decode_utf8(p))
            } else {
                None
            },
            None => None,
        },
    }
}

/// What an upload request yields under the session key: the optional key text and the value
/// text. Nothing comes of a request whose value, key or nonce is not base64, whose nonce is
/// not 12 bytes, or whose value or key does not decrypt to UTF-8.
pub open spec fn upload_outcome(m: DNSMessage, key: Seq<u8>) -> Option<(Option<Seq<char>>, Seq<char>)> {
    match upload_names_of(m) {
        None => None,
        Some((k, v, n)) => match (base64_decoded(v), base64_decoded(n)) {
            (Some(_), Some(nonce)) => if nonce.len() != NONCE_SIZE {
                None
            } else {
                match opened_text(key, nonce, v) {
                    None => None,
                    Some(value) => match k {
                        None => Some((None, value)),
                        Some(kn) => match opened_text(key, nonce, kn) {
                            None => None,
                            Some(kt) => Some((Some(kt), value)),
                        },
                    },
                }
            },
            _ => None,
        },
    }
}

impl UploadValue {
    /// The names of an upload request, when it has three or four questions.
    pub fn from(r: &DNSMessage) -> (u: Option<UploadValue>)
        ensures
            match upload_names_of(*r) {
                None => u is None,
                Some((k, v, n)) => u matches Some(x) && x.value@ == v && x.nonce@ == n && match k {
                    None => x.key is None,
                    Some(kn) => x.key matches Some(y) && y@ == kn,
                },
            },
    {
        if r.questions.len() == 3 {
            Some(UploadValue { key: None, value: r.questions[1].qname.clone(), nonce: r.questions[2].qname.clone() })
        } else if r.questions.len() == 4 {
            Some(
                UploadValue {
                    key: Some(r.questions[1].qname.clone()),
                    value: r.questions[2].qname.clone(),
                    nonce: r.questions[3].qname.clone(),
                },
            )
        } else {
            None
        }
    }

    /// The nonce bytes, if the nonce is base64.
    pub fn get_decoded_nonce(&self) -> (r: Option<Vec<u8>>)
        ensures
            r is Some <==> base64_decoded(self.nonce@) is Some,
            r is Some ==> r->0@ == base64_decoded(self.nonce@)->0,
            forall|b: Seq<u8>| self.nonce@ == #[trigger] base64_of(b) ==> r is Some && r->0@ == b,
    {
        decode_base64(&self.nonce)
    }

    /// The encrypted key bytes, if there is a key and it is base64.
    pub fn get_decoded_encrypted_key(&self) -> (r: Option<Vec<u8>>)
        ensures
            match self.key {
                None => r is None,
                Some(k) => (r is Some <==> base64_decoded(k@) is Some) && (r is Some ==> r->0@
                    == base64_decoded(k@)->0) && forall|b: Seq<u8>|
                    k@ == #[trigger] base64_of(b) ==> r is Some && r->0@ == b,
            },
    {
        match &self.key {
            None => None,
            Some(k) => decode_base64(k),
        }
    }

    /// The encrypted value bytes, if the value is base64.
    pub fn get_decoded_encrypted_value(&self) -> (r: Option<Vec<u8>>)
        ensures
            r is Some <==> base64_decoded(self.value@) is Some,
            r is Some ==> r->0@ == base64_decoded(self.value@)->0,
            forall|b: Seq<u8>| self.value@ == #[trigger] base64_of(b) ==> r is Some && r->0@ == b,
    {
        decode_base64(&self.value)
    }
}

/// A decrypted upload: the optional key and the value.
pub struct DecryptedUpload {
    pub key: Option<String>,
    pub value: String,
}

/// Decrypt one base64 name, and read the plaintext as UTF-8.
fn open_text(key: &Vec<u8>, nonce: &Vec<u8>, encrypted: Option<Vec<u8>>) -> (r: Option<String>)
    requires
        key@.len() == KEY_SIZE,
        nonce@.len() == NONCE_SIZE,
        encrypted is Some,
    ensures
        match opened(key@, nonce@, encrypted->0@) {
            Some(p) => if valid_utf8(p) {
                r matches Some(t) && t@ == decode_utf8(p)
            } else {
                r is None
            },
            None => r is None,
        },
        forall|m: Seq<u8>|
            m.len() <= MAX_PLAINTEXT && encrypted->0@ == #[trigger] sealed(key@, nonce@, m) ==> opened(
                key@,
                nonce@,
                encrypted->0@,
            ) == Some(m),
{
    let c = match encrypted {
        Some(c) => c,
        None => {
            return None;
        },
    };
    match decrypt(key, nonce, &c) {
        Err(_) => None,
        Ok(p) => match string_from_utf8(p) {
            Ok(t) => Some(t),
            Err(_) => None,
        },
    }
}

/// `m` is an upload of `value` as the client builds it: three questions, the second the
/// base64 of the value's UTF-8 bytes encrypted with `key` and the 12-byte `nonce`, the third
/// the base64 of the nonce.
pub open spec fn made_by_encryption(m: DNSMessage, key: Seq<u8>, value: Seq<char>, nonce: Seq<u8>) -> bool {
    &&& m.questions@.len() == 3
    &&& nonce.len() == NONCE_SIZE
    &&& vstd::utf8::encode_utf8(value).len() <= MAX_PLAINTEXT
    &&& m.questions@[1].qname@ == base64_of(sealed(key, nonce, vstd::utf8::encode_utf8(value)))
    &&& m.questions@[2].qname@ == base64_of(nonce)
}

/// Decrypt an upload request with the shared key of its session.
pub fn decrypt_upload(r: &DNSMessage, shared_key: &Vec<u8>) -> (u: Option<DecryptedUpload>)
    requires
        shared_key@.len() == KEY_SIZE,
    ensures
        match upload_outcome(*r, shared_key@) {
            None => u is None,
            Some((k, v)) => u matches Some(x) && x.value@ == v && match k {
                None => x.key is None,
                Some(kt) => x.key matches Some(y) && y@ == kt,
            },
        },
        forall|value: Seq<char>, nonce: Seq<u8>|
            #[trigger] made_by_encryption(*r, shared_key@, value, nonce) ==> (u matches Some(x) && x.key
                is None && x.value@ == value),
{
    let value_context = match UploadValue::from(r) {
        None => {
            return None;
        },
        Some(v) => v,
    };
    let encrypted_value = value_context.get_decoded_encrypted_value();
    let decoded_nonce = value_context.get_decoded_nonce();
    proof {
        assert forall|val: Seq<char>, n: Seq<u8>| #[trigger] made_by_encryption(*r, shared_key@, val, n) implies {
            &&& decoded_nonce matches Some(dn) && dn@ == n
            &&& encrypted_value matches Some(c) && c@ == sealed(
                shared_key@,
                n,
                vstd::utf8::encode_utf8(val),
            )
        } by {
            assert(value_context.nonce@ == base64_of(n));
            assert(value_context.value@ == base64_of(sealed(shared_key@, n, vstd::utf8::encode_utf8(val))));
        }
    }
    let nonce = match decoded_nonce {
        None => {
            return None;
        },
        Some(n) => n,
    };
    if encrypted_value.is_none() {
        return None;
    }
    if nonce.len() != NONCE_SIZE {
        return None;
    }
    let ghost enc = encrypted_value->0@;
    let value = match open_text(shared_key, &nonce, encrypted_value) {
        None => {
            proof {
                assert forall|val: Seq<char>, n: Seq<u8>| #[trigger] made_by_encryption(*r, shared_key@, val, n) implies false by {
                    vstd::utf8::encode_utf8_valid_utf8(val);
                    assert(enc == sealed(shared_key@, nonce@, vstd::utf8::encode_utf8(val)));
                }
            }
            return None;
        },
        Some(v) => v,
    };
    proof {
        assert forall|val: Seq<char>, n: Seq<u8>| #[trigger] made_by_encryption(*r, shared_key@, val, n) implies value@ == val by {
            vstd::utf8::encode_utf8_decode_utf8(val);
            vstd::utf8::encode_utf8_valid_utf8(val);
            assert(enc == sealed(shared_key@, nonce@, vstd::utf8::encode_utf8(val)));
        }
    }
    if value_context.key.is_none() {
        return Some(DecryptedUpload { key: None, value });
    }
    match value_context.get_decoded_encrypted_key() {
        None => None,
        Some(k) => match open_text(shared_key, &nonce, Some(k)) {
            None => None,
            Some(kt) => Some(DecryptedUpload { key: Some(kt), value }),
        },
    }
}

/// A session first and last seen at `now`, with `key`.
pub open spec fn fresh_session(now: u64, key: Seq<u8>) -> ClientView {
    ClientView { first_seen: now, last_seen: now, shared_key: key }
}

/// The session of a known client: seen now, unless it was seen later; nothing else changes.
pub open spec fn bumped(clients: Map<Seq<char>, ClientView>, id: Seq<char>, now: u64) -> Map<Seq<char>, ClientView> {
    if clients.contains_key(id) {
        clients.insert(id, ClientView { last_seen: later(clients[id].last_seen, now), ..clients[id] })
    } else {
        clients
    }
}

/// What an upload yields for the session `id`: nothing for an unknown session or one whose
/// key is not 32 bytes, otherwise the upload decrypted under its key.
pub open spec fn session_upload(m: DNSMessage, clients: Map<Seq<char>, ClientView>, id: Seq<char>) -> Option<(Option<Seq<char>>, Seq<char>)> {
    if clients.contains_key(id) && clients[id].shared_key.len() == KEY_SIZE {
        upload_outcome(m, clients[id].shared_key)
    } else {
        None
    }
}

/// `u` is what `upload` describes.
pub open spec fn upload_matches(u: Option<DecryptedUpload>, upload: Option<(Option<Seq<char>>, Seq<char>)>) -> bool {
    match upload {
        None => u is None,
        Some((k, v)) => u matches Some(x) && x.value@ == v && match k {
            None => x.key is None,
            Some(kt) => x.key matches Some(y) && y@ == kt,
        },
    }
}

/// Handle an upload from a known client: mark it seen now and decrypt what it sent.
pub fn handle_upload_request(r: &DNSMessage, clients: &mut Clients, now: u64) -> (u: Option<DecryptedUpload>)
    requires
        old(clients).wf(),
        r.questions@.len() >= 1,
    ensures
        final(clients).wf(),
        final(clients)@ == bumped(old(clients)@, r.questions@[0].qname@, now),
        upload_matches(u, session_upload(*r, old(clients)@, r.questions@[0].qname@)),
        forall|value: Seq<char>, nonce: Seq<u8>|
            old(clients)@.contains_key(r.questions@[0].qname@) && old(clients)@[r.questions@[0].qname@].shared_key.len()
                == KEY_SIZE && #[trigger] made_by_encryption(
                *r,
                old(clients)@[r.questions@[0].qname@].shared_key,
                value,
                nonce,
            ) ==> (u matches Some(x) && x.key is None && x.value@ == value),
{
    let client_id = &r.questions[0].qname;
    let _ = clients.bump_last_seen(client_id, now);
    let key = match clients.get_shared_key(client_id) {
        None => {
            return None;
        },
        Some(k) => k,
    };
    if key.len() != KEY_SIZE {
        return None;
    }
    proof {
        assert(old(clients)@[r.questions@[0].qname@].shared_key == key@);
    }
    decrypt_upload(r, key)
}

/// Handle a download poll from a known client: mark it seen now. No data is returned yet.
pub fn handle_download_request(r: &DNSMessage, clients: &mut Clients, now: u64)
    requires
        old(clients).wf(),
        r.questions@.len() >= 1,
    ensures
        final(clients).wf(),
        final(clients)@ == bumped(old(clients)@, r.questions@[0].qname@, now),
{
    let _ = clients.bump_last_seen(&r.questions[0].qname, now);
}

/// `s` ends with `suffix`.
pub open spec fn ends_with(s: Seq<char>, suffix: Seq<char>) -> bool {
    s.len() >= suffix.len() && s.subrange(s.len() - suffix.len(), s.len() as int) == suffix
}

/// The code of a character with ASCII capitals folded to small letters.
pub open spec fn ascii_fold(c: char) -> u32 {
    let v = c as u32;
    if 65 <= v <= 90 {
        (v + 32) as u32
    } else {
        v
    }
}

/// `a` and `b` are equal but for the case of ASCII letters.
pub open spec fn eq_ignore_ascii_case(a: Seq<char>, b: Seq<char>) -> bool {
    a.len() == b.len() && forall|i: int| 0 <= i < a.len() ==> ascii_fold(#[trigger] a[i]) == ascii_fold(b[i])
}

fn fold_char(c: char) -> (r: u32)
    ensures
        r == ascii_fold(c),
{
    let v = c as u32;
    if 65 <= v && v <= 90 {
        v + 32
    } else {
        v
    }
}

fn names_equal_ignoring_case(a: &String, b: &String) -> (r: bool)
    ensures
        r == eq_ignore_ascii_case(a@, b@),
{
    let x = chars_of(a.as_str());
    let y = chars_of(b.as_str());
    if x.len() != y.len() {
        return false;
    }
    let mut i: usize = 0;
    while i < x.len()
        invariant
            i <= x@.len() == y@.len(),
            x@ == a@,
            y@ == b@,
            forall|j: int| 0 <= j < i ==> ascii_fold(#[trigger] x@[j]) == ascii_fold(y@[j]),
        decreases x@.len() - i,
    {
        if fold_char(x[i]) != fold_char(y[i]) {
            return false;
        }
        i = i + 1;
    }
    true
}

fn name_ends_with(name: &String, suffix: &Vec<char>) -> (r: bool)
    ensures
        r == ends_with(name@, suffix@),
{
    let x = chars_of(name.as_str());
    if x.len() < suffix.len() {
        return false;
    }
    let off = x.len() - suffix.len();
    let mut i: usize = 0;
    while i < suffix.len()
        invariant
            off + suffix@.len() == x@.len(),
            x@.len() <= usize::MAX,
            x@ == name@,
            i <= suffix@.len(),
            forall|j: int| 0 <= j < i ==> x@[off + j] == suffix@[j],
        decreases suffix@.len() - i,
    {
        if x[off + i] != suffix[i] {
            assert(x@.subrange(off as int, x@.len() as int)[i as int] != suffix@[i as int]);
            return false;
        }
        i = i + 1;
    }
    assert(x@.subrange(off as int, x@.len() as int) =~= suffix@);
    true
}

/// The states an inbound request can put the server in.
#[derive(Clone, Copy, Debug, PartialEq, Eq, Structural)]
pub enum RequestKind {
    /// No question is under the base domain: ordinary DNS traffic
    NotOurDomain,
    /// The first question asks for the key endpoint
    Handshake,
    /// The first question names no handshaken client
    UnknownClient,
    /// A known client sent other than three or four questions
    WrongNumberOfQuestions,
    /// A known client sent a value: the second question is type A
    Upload,
    /// A known client polls for data: the second question is type CNAME
    Download,
    /// A known client sent three or four questions of no recognised kind
    Ignored,
}

/// How the server classifies request `m`, in order: traffic outside the base domain, a
/// handshake for the key endpoint, an unknown client, a question count other than three (an
/// upload without a key) or four (with one), then upload or download by the type of the
/// second question.
pub open spec fn request_kind(m: DNSMessage, base_domain: Seq<char>, key_endpoint: Seq<char>, clients: Map<Seq<char>, ClientView>) -> RequestKind {
    let qs = m.questions@;
    if !(exists|i: int| 0 <= i < qs.len() && ends_with(#[trigger] qs[i].qname@, seq!['.'] + base_domain)) {
        RequestKind::NotOurDomain
    } else if eq_ignore_ascii_case(qs[0].qname@, key_endpoint) {
        RequestKind::Handshake
    } else if !clients.contains_key(qs[0].qname@) {
        RequestKind::UnknownClient
    } else if qs.len() != 3 && qs.len() != 4 {
        RequestKind::WrongNumberOfQuestions
    } else if qs[1].qtype == QType::A {
        RequestKind::Upload
    } else if qs[1].qtype == QType::CNAME {
        RequestKind::Download
    } else {
        RequestKind::Ignored
    }
}

/// Classify a request against the base domain, the fully-qualified key endpoint and the
/// sessions.
pub fn classify_request(m: &DNSMessage, base_domain: &String, key_endpoint: &String, clients: &Clients) -> (r: RequestKind)
    requires
        clients.wf(),
    ensures
        r == request_kind(*m, base_domain@, key_endpoint@, clients@),
{
    let mut suffix: Vec<char> = Vec::new();
    suffix.push('.');
    let base = chars_of(base_domain.as_str());
    let mut j: usize = 0;
    while j < base.len()
        invariant
            j <= base@.len(),
            base@ == base_domain@,
            suffix@ == seq!['.'] + base@.take(j as int),
        decreases base@.len() - j,
    {
        suffix.push(base[j]);
        j = j + 1;
        assert(suffix@ =~= seq!['.'] + base@.take(j as int));
    }
    assert(base@.take(j as int) =~= base@);
    let mut found = false;
    let mut i: usize = 0;
    while i < m.questions.len()
        invariant
            i <= m.questions@.len(),
            suffix@ == seq!['.'] + base_domain@,
            found == exists|k: int| 0 <= k < i && ends_with(#[trigger] m.questions@[k].qname@, suffix@),
        decreases m.questions@.len() - i,
    {
        if name_ends_with(&m.questions[i].qname, &suffix) {
            found = true;
        }
        i = i + 1;
    }
    if !found {
        return RequestKind::NotOurDomain;
    }
    let first = &m.questions[0].qname;
    if names_equal_ignoring_case(first, key_endpoint) {
        return RequestKind::Handshake;
    }
    if !clients.client_is_connected(first) {
        return RequestKind::UnknownClient;
    }
    if m.questions.len() != 3 && m.questions.len() != 4 {
        return RequestKind::WrongNumberOfQuestions;
    }
    if m.questions[1].qtype == QType::A {
        RequestKind::Upload
    } else if m.questions[1].qtype == QType::CNAME {
        RequestKind::Download
    } else {
        RequestKind::Ignored
    }
}

/// What the server does with one request.
pub enum RequestOutcome {
    /// Send this response to the peer
    Reply(DNSMessage),
    /// A handshake was refused for this reason; send the protocol-error response to the peer
    HandshakeRefused(DNSMessage, KeyDecodeError),
    /// A value was uploaded and decrypted; nothing is sent back
    Upload(DecryptedUpload),
    /// Nothing to send
    Silent,
}

/// `r` is the protocol-error response to `m`: its questions, a server-failure status and one
/// empty TXT answer.
pub open spec fn is_protocol_error_response(r: DNSMessage, m: DNSMessage) -> bool {
    &&& echoes(r, m)
    &&& r.header == response_header(m.header, ResponseCode::ServerFailure, 1, false)
    &&& r.answer_records@.len() == 1
    &&& is_protocol_error_record(r.answer_records@[0]@)
    &&& r.authority_records@.len() == 0
    &&& r.additional_records@.len() == 0
}

/// `r` is the "not implemented" response to `m`: its questions and no records.
pub open spec fn is_dumb_response(r: DNSMessage, m: DNSMessage) -> bool {
    &&& echoes(r, m)
    &&& r.header == response_header(m.header, ResponseCode::NotImplemented, 0, false)
    &&& r.answer_records@.len() == 0
    &&& r.authority_records@.len() == 0
    &&& r.additional_records@.len() == 0
}

/// The server's protocol state: its domain configuration and the sessions of handshaken
/// clients.
pub struct RequestProcesor {
    domain_config: DomainConfig,
    encryption_endpoint: String,
    clients: Clients,
}

impl RequestProcesor {
    /// The registry is well formed and the key endpoint is the configured one.
    pub closed spec fn wf(&self) -> bool {
        &&& self.clients.wf()
        &&& self.encryption_endpoint@ == fq_key_endpoint(self.domain_config)
    }

    /// The sessions, by key name.
    pub closed spec fn sessions(&self) -> Map<Seq<char>, ClientView> {
        self.clients@
    }

    /// The domain configuration.
    pub closed spec fn config(&self) -> DomainConfig {
        self.domain_config
    }

    /// A server for the given domains, with no sessions yet.
    pub fn new(domain_config: DomainConfig) -> (r: RequestProcesor)
        ensures
            r.wf(),
            r.sessions() == Map::<Seq<char>, ClientView>::empty(),
            r.config() == domain_config,
    {
        let fq_key_endpoint = domain_config.get_fq_key_endpoint();
        RequestProcesor { domain_config, encryption_endpoint: fq_key_endpoint, clients: Clients::new() }
    }

    /// The registry of sessions.
    pub fn clients(&self) -> (r: &Clients)
        requires
            self.wf(),
        ensures
            r.wf(),
            r@ == self.sessions(),
    {
        &self.clients
    }

    /// Classify a decoded request and act on it at time `now`: answer unrelated traffic with
    /// "not implemented", run a handshake, take an upload (three questions, or four with a
    /// key) or a download poll from a known client, and answer an unknown client or a wrong
    /// question count with a protocol error.
    pub fn handle_request(&mut self, message: &DNSMessage, now: u64) -> (r: RequestOutcome)
        requires
            old(self).wf(),
        ensures
            final(self).wf(),
            final(self).config() == old(self).config(),
            match request_kind(
                *message,
                old(self).config().base_domain@,
                fq_key_endpoint(old(self).config()),
                old(self).sessions(),
            ) {
                RequestKind::NotOurDomain => r matches RequestOutcome::Reply(resp) && is_dumb_response(resp, *message)
                    && final(self).sessions() == old(self).sessions(),
                RequestKind::Handshake => match key_request_error(*message) {
                    Some(e) => r matches RequestOutcome::HandshakeRefused(resp, reason) && reason == e
                        && is_protocol_error_response(resp, *message) && final(self).sessions() == old(self).sessions(),
                    None => r matches RequestOutcome::Reply(resp) && exists|server_public: Seq<char>, key: Seq<u8>|
                        is_handshake_key(*message, server_public, key) && #[trigger] is_handshake_response(resp, *message, server_public)
                        && final(self).sessions() == old(self).sessions().insert(
                            message.questions@[1].qname@,
                            #[trigger] fresh_session(now, key),
                        ),
                },
                RequestKind::UnknownClient | RequestKind::WrongNumberOfQuestions => r matches RequestOutcome::Reply(resp)
                    && is_protocol_error_response(resp, *message) && final(self).sessions() == old(self).sessions(),
                RequestKind::Upload => final(self).sessions() == bumped(old(self).sessions(), message.questions@[0].qname@, now)
                    && match session_upload(*message, old(self).sessions(), message.questions@[0].qname@) {
                        None => r is Silent,
                        Some(_) => r matches RequestOutcome::Upload(u) && upload_matches(
                            Some(u),
                            session_upload(*message, old(self).sessions(), message.questions@[0].qname@),
                        ),
                    },
                RequestKind::Download => r is Silent && final(self).sessions() == bumped(
                    old(self).sessions(),
                    message.questions@[0].qname@,
                    now,
                ),
                RequestKind::Ignored => r is Silent && final(self).sessions() == old(self).sessions(),
            },
    {
        let kind = classify_request(message, &self.domain_config.base_domain, &self.encryption_endpoint, &self.clients);
        match kind {
            RequestKind::NotOurDomain => RequestOutcome::Reply(message.dumb_resp_from_request()),
            RequestKind::Handshake => match decode_key_request(message, now) {
                Ok(context) => {
                    let ghost key = context.new_client@.shared_key;
                    let ghost sp = context.server_public@;
                    self.clients.add(context.client_public, context.new_client);
                    assert(is_handshake_response(context.response, *message, sp));
                    assert(self.clients@ == old(self).clients@.insert(message.questions@[1].qname@, fresh_session(now, key)));
                    RequestOutcome::Reply(context.response)
                },
                Err(reason) => RequestOutcome::HandshakeRefused(
                    message.protocol_error_from_request(RequestError::CryptoFailure),
                    reason,
                ),
            },
            RequestKind::UnknownClient => RequestOutcome::Reply(
                message.protocol_error_from_request(RequestError::NoHandshake),
            ),
            RequestKind::WrongNumberOfQuestions => RequestOutcome::Reply(
                message.protocol_error_from_request(RequestError::WrongNumberOfQuestions),
            ),
            RequestKind::Upload => match handle_upload_request(message, &mut self.clients, now) {
                Some(u) => RequestOutcome::Upload(u),
                None => RequestOutcome::Silent,
            },
            RequestKind::Download => {
                handle_download_request(message, &mut self.clients, now);
                RequestOutcome::Silent
            },
            RequestKind::Ignored => RequestOutcome::Silent,
        }
    }
}

} // verus!
