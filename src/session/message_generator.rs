//! The requests a client sends: the key-exchange handshake and encrypted uploads.

use vstd::prelude::*;
use vstd::utf8::encode_utf8;
use rand_core::OsRng;
use crate::config::{fq_key_endpoint, DomainConfig};
use crate::crypto::{
    base64_of, encode_base64, encrypt, generate_aes_nonce, next_random_u32, sealed, trimmed_key,
    KEY_SIZE, MAX_PLAINTEXT, NONCE_SIZE,
};
use crate::message::header::{Direction, DNSHeader, Opcode, ResponseCode};
use crate::message::message::DNSMessage;
use crate::message::question::{DNSQuestion, QClass, QType};
use crate::net::PeerAddr;
use crate::session::client_crypto_context::ClientCryptoContext;

verus! {

broadcast use vstd::string::group_string_axioms;

/// The header of a non-recursive query with `count` questions.
pub open spec fn query_header(id: u16, count: u16) -> DNSHeader {
    DNSHeader {
        id,
        direction: Direction::Request,
        opcode: Opcode::Query,
        authoritative: false,
        truncation: false,
        recursion_desired: false,
        recursion_available: false,
        valid_zeroes: true,
        response: ResponseCode::NoError,
        question_count: count,
        answer_record_count: 0,
        authority_record_count: 0,
        additional_record_count: 0,
    }
}

/// `m` is a request with no records, with the header of a non-recursive query for its
/// questions, all of them type A and class Internet, named as `names` says.
pub open spec fn is_a_query(m: DNSMessage, id: u16, names: Seq<Seq<char>>, peer: PeerAddr) -> bool {
    &&& m.header == query_header(id, names.len() as u16)
    &&& m.questions@.len() == names.len()
    &&& forall|i: int|
        0 <= i < names.len() ==> (#[trigger] m.questions@[i]).qname@ == names[i]
            && m.questions@[i].qtype == QType::A && m.questions@[i].qclass == QClass::Internet
    &&& m.answer_records@.len() == 0
    &&& m.authority_records@.len() == 0
    &&& m.additional_records@.len() == 0
    &&& m.peer == peer
}

fn a_question(qname: String) -> (r: DNSQuestion)
    ensures
        r.qname == qname,
        r.qtype == QType::A,
        r.qclass == QClass::Internet,
{
    DNSQuestion { qname, qtype: QType::A, qclass: QClass::Internet }
}

/// The handshake request: the key endpoint's name, then the client's public key as a name.
pub fn get_client_handshake_message(msg_id: u16, key_domain: String, public_key_domain: String, peer: PeerAddr) -> (r: DNSMessage)
    ensures
        is_a_query(r, msg_id, seq![key_domain@, public_key_domain@], peer),
{
    let r = DNSMessage {
        header: DNSHeader {
            id: msg_id,
            direction: Direction::Request,
            opcode: Opcode::Query,
            authoritative: false,
            truncation: false,
            recursion_desired: false,
            recursion_available: false,
            valid_zeroes: true,
            response: ResponseCode::NoError,
            question_count: 2,
            answer_record_count: 0,
            authority_record_count: 0,
            additional_record_count: 0,
        },
        questions: vec![a_question(key_domain), a_question(public_key_domain)],
        answer_records: Vec::new(),
        authority_records: Vec::new(),
        additional_records: Vec::new(),
        peer,
    };
    r
}

/// The handshake request for this client under a random message identifier.
pub fn generate_client_handshake_message(rand: &mut OsRng, domain_config: &DomainConfig, crypto_context: &ClientCryptoContext, peer: PeerAddr) -> (r: DNSMessage)
    requires
        crypto_context.client_public@.len() >= 152,
    ensures
        exists|id: u16|
            is_a_query(
                r,
                id,
                seq![
                    fq_key_endpoint(*domain_config),
                    trimmed_key(crypto_context.client_public@) + seq!['.'] + domain_config.base_domain@,
                ],
                peer,
            ),
{
    let id = (next_random_u32(rand) & 0xffff) as u16;
    let r = get_client_handshake_message(
        id,
        domain_config.get_fq_key_endpoint(),
        crypto_context.get_public_key_domain(&domain_config.base_domain),
        peer,
    );
    assert(is_a_query(
        r,
        id,
        seq![
            fq_key_endpoint(*domain_config),
            trimmed_key(crypto_context.client_public@) + seq!['.'] + domain_config.base_domain@,
        ],
        peer,
    ));
    r
}

/// The upload request: the client's key name, the encrypted value and the nonce, both base64.
pub fn get_string_encryption_message(msg_id: u16, public_key_domain: String, encrypted_string: String, nonce_string: String, peer: PeerAddr) -> (r: DNSMessage)
    ensures
        is_a_query(r, msg_id, seq![public_key_domain@, encrypted_string@, nonce_string@], peer),
{
    DNSMessage {
        header: DNSHeader {
            id: msg_id,
            direction: Direction::Request,
            opcode: Opcode::Query,
            authoritative: false,
            truncation: false,
            recursion_desired: false,
            recursion_available: false,
            valid_zeroes: true,
            response: ResponseCode::NoError,
            question_count: 3,
            answer_record_count: 0,
            authority_record_count: 0,
            additional_record_count: 0,
        },
        questions: vec![
            a_question(public_key_domain),
            a_question(encrypted_string),
            a_question(nonce_string),
        ],
        answer_records: Vec::new(),
        authority_records: Vec::new(),
        additional_records: Vec::new(),
        peer,
    }
}

/// The names of an upload request: the client's key name, the base64 of the value's UTF-8
/// bytes encrypted with the shared key and the nonce, and the base64 of the nonce.
pub open spec fn upload_names(c: ClientCryptoContext, d: DomainConfig, value: Seq<char>, nonce: Seq<u8>) -> Seq<Seq<char>> {
    seq![
        trimmed_key(c.client_public@) + seq!['.'] + d.base_domain@,
        base64_of(sealed(c.shared_key->0@, nonce, encode_utf8(value))),
        base64_of(nonce),
    ]
}

/// An upload of `value` encrypted under a fresh random nonce with the shared key. It fails
/// when the handshake has not given a shared key of the right size, and on a value too long
/// to encrypt.
pub fn generate_string_encryption_message(value: String, rand: &mut OsRng, domain_config: &DomainConfig, crypto_context: &ClientCryptoContext, peer: PeerAddr) -> (r: Result<DNSMessage, ()>)
    requires
        crypto_context.client_public@.len() >= 152,
    ensures
        r is Ok <==> (crypto_context.shared_key matches Some(k) && k@.len() == KEY_SIZE
            && encode_utf8(value@).len() <= MAX_PLAINTEXT),
        r is Ok ==> exists|id: u16, nonce: Seq<u8>|
            nonce.len() == NONCE_SIZE && #[trigger] is_a_query(
                r->Ok_0,
                id,
                upload_names(*crypto_context, *domain_config, value@, nonce),
                peer,
            ),
{
    let key = match &crypto_context.shared_key {
        None => {
            return Err(());
        },
        Some(k) => k,
    };
    if key.len() != KEY_SIZE {
        return Err(());
    }
    let nonce = generate_aes_nonce();
    let plaintext = vstd::slice::slice_to_vec(value.as_str().as_bytes());
    match encrypt(key, &nonce, &plaintext) {
        Err(_) => Err(()),
        Ok(e) => {
            let encrypted_string = encode_base64(&e);
            let nonce_string = encode_base64(&nonce);
            let id = (next_random_u32(rand) & 0xffff) as u16;
            let m = get_string_encryption_message(
                id,
                crypto_context.get_public_key_domain(&domain_config.base_domain),
                encrypted_string,
                nonce_string,
                peer,
            );
            assert(is_a_query(m, id, upload_names(*crypto_context, *domain_config, value@, nonce@), peer));
            let r: Result<DNSMessage, ()> = Ok(m);
            assert(nonce@.len() == NONCE_SIZE && is_a_query(r->Ok_0, id, upload_names(*crypto_context, *domain_config, value@, nonce@), peer));
            r
        },
    }
}

/// The keyed upload request: the client's key name, the encrypted key, the encrypted value and
/// the nonce, the last three base64.
pub fn get_key_string_encryption_message(msg_id: u16, public_key_domain: String, encrypted_key: String, encrypted_string: String, nonce_string: String, peer: PeerAddr) -> (r: DNSMessage)
    ensures
        is_a_query(r, msg_id, seq![public_key_domain@, encrypted_key@, encrypted_string@, nonce_string@], peer),
{
    DNSMessage {
        header: DNSHeader {
            id: msg_id,
            direction: Direction::Request,
            opcode: Opcode::Query,
            authoritative: false,
            truncation: false,
            recursion_desired: false,
            recursion_available: false,
            valid_zeroes: true,
            response: ResponseCode::NoError,
            question_count: 4,
            answer_record_count: 0,
            authority_record_count: 0,
            additional_record_count: 0,
        },
        questions: vec![
            a_question(public_key_domain),
            a_question(encrypted_key),
            a_question(encrypted_string),
            a_question(nonce_string),
        ],
        answer_records: Vec::new(),
        authority_records: Vec::new(),
        additional_records: Vec::new(),
        peer,
    }
}

/// The names of a keyed upload request: the client's key name, then the base64 of the key's
/// and of the value's UTF-8 bytes, each encrypted with the shared key and the one nonce, then
/// the base64 of the nonce.
pub open spec fn keyed_upload_names(c: ClientCryptoContext, d: DomainConfig, key: Seq<char>, value: Seq<char>, nonce: Seq<u8>) -> Seq<Seq<char>> {
    seq![
        trimmed_key(c.client_public@) + seq!['.'] + d.base_domain@,
        base64_of(sealed(c.shared_key->0@, nonce, encode_utf8(key))),
        base64_of(sealed(c.shared_key->0@, nonce, encode_utf8(value))),
        base64_of(nonce),
    ]
}

/// An upload of `value` under `key`, both encrypted under one fresh random nonce with the
/// shared key. It fails when the handshake has not given a shared key of the right size, and
/// on a key or value too long to encrypt.
pub fn generate_key_string_encryption_message(key: String, value: String, rand: &mut OsRng, domain_config: &DomainConfig, crypto_context: &ClientCryptoContext, peer: PeerAddr) -> (r: Result<DNSMessage, ()>)
    requires
        crypto_context.client_public@.len() >= 152,
    ensures
        r is Ok <==> (crypto_context.shared_key matches Some(k) && k@.len() == KEY_SIZE
            && encode_utf8(key@).len() <= MAX_PLAINTEXT && encode_utf8(value@).len() <= MAX_PLAINTEXT),
        r is Ok ==> exists|id: u16, nonce: Seq<u8>|
            nonce.len() == NONCE_SIZE && #[trigger] is_a_query(
                r->Ok_0,
                id,
                keyed_upload_names(*crypto_context, *domain_config, key@, value@, nonce),
                peer,
            ),
{
    let shared = match &crypto_context.shared_key {
        None => {
            return Err(());
        },
        Some(k) => k,
    };
    if shared.len() != KEY_SIZE {
        return Err(());
    }
    let nonce = generate_aes_nonce();
    let key_bytes = vstd::slice::slice_to_vec(key.as_str().as_bytes());
    let value_bytes = vstd::slice::slice_to_vec(value.as_str().as_bytes());
    let encrypted_key = match encrypt(shared, &nonce, &key_bytes) {
        Err(_) => {
            return Err(());
        },
        Ok(e) => e,
    };
    let encrypted_value = match encrypt(shared, &nonce, &value_bytes) {
        Err(_) => {
            return Err(());
        },
        Ok(e) => e,
    };
    let id = (next_random_u32(rand) & 0xffff) as u16;
    let m = get_key_string_encryption_message(
        id,
        crypto_context.get_public_key_domain(&domain_config.base_domain),
        encode_base64(&encrypted_key),
        encode_base64(&encrypted_value),
        encode_base64(&nonce),
        peer,
    );
    assert(is_a_query(m, id, keyed_upload_names(*crypto_context, *domain_config, key@, value@, nonce@), peer));
    let r: Result<DNSMessage, ()> = Ok(m);
    assert(nonce@.len() == NONCE_SIZE && is_a_query(r->Ok_0, id, keyed_upload_names(*crypto_context, *domain_config, key@, value@, nonce@), peer));
    r
}

/// The uploads to send for some values and, optionally, keys: each value with the key at its
/// position, if any. None when there are more keys than values.
pub fn pair_uploads(keys: Option<Vec<String>>, values: Vec<String>) -> (r: Option<Vec<(Option<String>, String)>>)
    ensures
        match keys {
            Some(ks) => r is None <==> ks@.len() > values@.len(),
            None => r is Some,
        },
        r is Some ==> r->0@.len() == values@.len() && forall|i: int|
            0 <= i < values@.len() ==> (#[trigger] r->0@[i]).1 == values@[i] && match keys {
                Some(ks) => if i < ks@.len() {
                    r->0@[i].0 == Some(ks@[i])
                } else {
                    r->0@[i].0 is None
                },
                None => r->0@[i].0 is None,
            },
{
    let ks = match keys {
        Some(ks) => ks,
        None => Vec::new(),
    };
    if ks.len() > values.len() {
        return None;
    }
    let mut pairs: Vec<(Option<String>, String)> = Vec::new();
    let mut i: usize = 0;
    while i < values.len()
        invariant
            i <= values@.len(),
            ks@.len() <= values@.len(),
            keys is None ==> ks@.len() == 0,
            keys matches Some(k0) ==> ks == k0,
            pairs@.len() == i,
            forall|j: int|
                0 <= j < i ==> (#[trigger] pairs@[j]).1 == values@[j] && if j < ks@.len() {
                    pairs@[j].0 == Some(ks@[j])
                } else {
                    pairs@[j].0 is None
                },
        decreases values@.len() - i,
    {
        let key = if i < ks.len() {
            Some(ks[i].clone())
        } else {
            None
        };
        pairs.push((key, values[i].clone()));
        i = i + 1;
    }
    Some(pairs)
}

} // verus!
