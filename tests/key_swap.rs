use dnstp::crypto::{
    asym_to_sym_key, decrypt, encode_base64, encrypt, generate_aes_nonce, get_random_asym_pair,
    get_shared_asym_secret, trim_public_key,
};
use dnstp::message::QClass::Internet;
use dnstp::message::QType::A;
use dnstp::message::{
    parse_message, DNSHeader, DNSMessage, DNSQuestion, QType, RequestParseError,
    ResponseCode,
};
use dnstp::net::{NetworkMessage, PeerAddr};
use dnstp::processor::request::{decode_key_request, KeyDecodeError};
use dnstp::processor::{decode_key_response, RequestOutcome, RequestProcesor};
use dnstp::session::{
    generate_key_string_encryption_message, generate_string_encryption_message,
    get_client_handshake_message, get_key_string_encryption_message, pair_uploads,
    ClientCryptoContext,
};
use dnstp::string::{append_base_domain_to_key, decode_domain_name, get_fattened_public_key};
use dnstp::DomainConfig;
use rand_core::OsRng;

fn local_peer() -> PeerAddr {
    PeerAddr::V4 { octets: [127, 0, 0, 1], port: 5000 }
}

fn config() -> DomainConfig {
    DomainConfig { base_domain: "sarsoo.xyz".to_string(), key_endpoint: "static".to_string() }
}

/// Put a message on the wire and read it back, as the other side would.
fn over_the_wire(m: &DNSMessage) -> DNSMessage {
    parse_message(NetworkMessage { buffer: m.to_bytes(), peer: m.peer }).unwrap()
}

fn reply(outcome: RequestOutcome) -> DNSMessage {
    match outcome {
        RequestOutcome::Reply(m) => m,
        _ => panic!("expected a reply"),
    }
}

#[test]
fn test_key_swap() {
    let (client_private, client_public) = get_random_asym_pair();

    let serialised_client_public =
        append_base_domain_to_key(trim_public_key(&client_public), &"sarsoo.xyz".to_string());

    let message = DNSMessage {
        header: DNSHeader::new_request(1, Some(1)),
        questions: vec![
            DNSQuestion { qname: "static.sarsoo.xyz".to_string(), qtype: A, qclass: Internet },
            DNSQuestion { qname: serialised_client_public, qtype: A, qclass: Internet },
        ],
        answer_records: vec![],
        authority_records: vec![],
        additional_records: vec![],
        peer: local_peer(),
    };

    let question_count = message.questions.len();
    let resp = decode_key_request(&message, 0).unwrap();

    assert_eq!(question_count, resp.response.questions.len());
    assert_eq!(question_count, resp.response.answer_records.len());

    let shared_secret_client =
        asym_to_sym_key(&get_shared_asym_secret(&client_private, &resp.server_public).unwrap());

    let nonce = generate_aes_nonce();
    let payload = "hello world!".to_string();

    let encrypted = encrypt(&shared_secret_client, &nonce, &payload.clone().into_bytes()).unwrap();

    let decrypted = decrypt(&resp.new_client.shared_key, &nonce, &encrypted).unwrap();

    let decrypted_payload = String::from_utf8(decrypted).unwrap();

    assert_eq!(payload, decrypted_payload);
}

#[test]
fn client_and_server_agree_on_a_key() {
    let config = config();
    let mut server = RequestProcesor::new(config.clone());
    let mut client = ClientCryptoContext::new();
    let client_id = client.get_public_key_domain(&config.base_domain);

    let hello = get_client_handshake_message(
        9,
        config.get_fq_key_endpoint(),
        client_id.clone(),
        local_peer(),
    );
    let response = reply(server.handle_request(&over_the_wire(&hello), 1_000));
    assert!(!client.is_complete());
    decode_key_response(&over_the_wire(&response), &mut client).unwrap();

    assert!(client.is_complete());
    let server_key = server.clients().get_shared_key(&client_id).unwrap();
    assert_eq!(client.shared_key.as_ref().unwrap(), server_key);
    let session = server.clients().get(&client_id).unwrap();
    assert_eq!(1_000, session.first_seen);
    assert_eq!(1_000, session.last_seen);
}

#[test]
fn handshake_response_carries_the_server_key() {
    let (client_private, client_public) = get_random_asym_pair();
    let name = append_base_domain_to_key(trim_public_key(&client_public), &"sarsoo.xyz".to_string());
    let request = get_client_handshake_message(3, "static.sarsoo.xyz".to_string(), name, local_peer());
    assert_eq!(2, request.header.question_count);

    let mut server = RequestProcesor::new(config());
    let response = over_the_wire(&reply(server.handle_request(&over_the_wire(&request), 5)));

    assert_eq!(2, response.header.answer_record_count);
    assert_eq!(ResponseCode::NoError, response.header.response);
    assert_eq!(QType::A, response.answer_records[0].answer_type);
    assert_eq!(QType::CNAME, response.answer_records[1].answer_type);

    let domain = decode_domain_name(response.answer_records[1].r_data.to_bytes()).unwrap();
    let (server_key, base) = get_fattened_public_key(&domain);
    assert_eq!(".sarsoo.xyz", base);
    assert!(get_shared_asym_secret(&client_private, &server_key).is_ok());
}

#[test]
fn upload_after_handshake_is_decrypted() {
    let config = config();
    let mut server = RequestProcesor::new(config.clone());
    let mut client = ClientCryptoContext::new();
    let client_id = client.get_public_key_domain(&config.base_domain);

    let hello = get_client_handshake_message(1, config.get_fq_key_endpoint(), client_id.clone(), local_peer());
    let response = reply(server.handle_request(&over_the_wire(&hello), 100));
    decode_key_response(&over_the_wire(&response), &mut client).unwrap();

    let upload = generate_string_encryption_message(
        "secret".to_string(),
        &mut OsRng,
        &config,
        &client,
        local_peer(),
    )
    .unwrap();
    match server.handle_request(&over_the_wire(&upload), 250) {
        RequestOutcome::Upload(u) => {
            assert_eq!("secret", u.value);
            assert!(u.key.is_none());
        }
        _ => panic!("expected a decrypted upload"),
    }
    let session = server.clients().get(&client_id).unwrap();
    assert_eq!(100, session.first_seen);
    assert_eq!(250, session.last_seen);
}

#[test]
fn upload_from_unknown_client_fails() {
    let config = config();
    let mut server = RequestProcesor::new(config.clone());
    let stranger = ClientCryptoContext::new();
    let id = stranger.get_public_key_domain(&config.base_domain);
    let upload = get_client_handshake_message(4, id.clone(), "AAAA".to_string(), local_peer());

    let response = reply(server.handle_request(&over_the_wire(&upload), 7));
    assert_eq!(ResponseCode::ServerFailure, response.header.response);
    assert_eq!(1, response.answer_records.len());
    assert_eq!(QType::TXT, response.answer_records[0].answer_type);
    assert!(!server.clients().client_is_connected(&id));
    assert!(server.clients().get(&id).is_none());
}

#[test]
fn unrelated_traffic_gets_not_implemented() {
    let mut server = RequestProcesor::new(config());
    let m = DNSMessage::req_from_hostname(local_peer(), 77, "example.com".to_string());
    let response = reply(server.handle_request(&m, 0));
    assert_eq!(ResponseCode::NotImplemented, response.header.response);
    assert_eq!(77, response.header.id);
    assert_eq!(0, response.answer_records.len());
}

#[test]
fn bad_handshakes_are_protocol_errors() {
    let mut server = RequestProcesor::new(config());
    // one question only
    let m = DNSMessage::req_from_hostname(local_peer(), 1, "static.sarsoo.xyz".to_string());
    match server.handle_request(&m, 0) {
        RequestOutcome::HandshakeRefused(response, reason) => {
            assert_eq!(ResponseCode::ServerFailure, response.header.response);
            assert_eq!(KeyDecodeError::QuestionCount(1), reason);
        }
        _ => panic!("expected a refused handshake"),
    }
    // a key that does not parse
    let m = get_client_handshake_message(2, "STATIC.sarsoo.xyz".to_string(), "junk.sarsoo.xyz".to_string(), local_peer());
    match server.handle_request(&m, 0) {
        RequestOutcome::HandshakeRefused(response, reason) => {
            assert_eq!(ResponseCode::ServerFailure, response.header.response);
            assert_eq!(KeyDecodeError::SharedSecretDerivation, reason);
        }
        _ => panic!("expected a refused handshake"),
    }
    assert!(!server.clients().client_is_connected(&"junk.sarsoo.xyz".to_string()));
}

#[test]
fn key_request_errors() {
    let one = DNSMessage::req_from_hostname(local_peer(), 1, "static.sarsoo.xyz".to_string());
    assert_eq!(Some(KeyDecodeError::QuestionCount(1)), decode_key_request(&one, 0).err());
    let mut two = get_client_handshake_message(1, "a".to_string(), "b".to_string(), local_peer());
    two.questions[0].qtype = QType::MX;
    assert_eq!(Some(KeyDecodeError::FirstQuestionNotA(QType::MX)), decode_key_request(&two, 0).err());
    two.questions[0].qtype = QType::A;
    two.questions[1].qtype = QType::TXT;
    assert_eq!(Some(KeyDecodeError::SecondQuestionNotA(QType::TXT)), decode_key_request(&two, 0).err());
    two.questions[1].qtype = QType::A;
    assert_eq!(Some(KeyDecodeError::SharedSecretDerivation), decode_key_request(&two, 0).err());
}

#[test]
fn declared_records_must_be_present() {
    let mut m = DNSMessage::req_from_hostname(local_peer(), 1, "a.b".to_string());
    m.header.answer_record_count = 2;
    let parsed = parse_message(NetworkMessage { buffer: m.to_bytes(), peer: m.peer });
    assert_eq!(Some(RequestParseError::RecordCount(2, 0)), parsed.err());
}

/// Handshake a fresh client with `server` at time `now`; the client's id and context.
fn handshaken(server: &mut RequestProcesor, config: &DomainConfig, now: u64) -> (String, ClientCryptoContext) {
    let mut client = ClientCryptoContext::new();
    let client_id = client.get_public_key_domain(&config.base_domain);
    let hello = get_client_handshake_message(1, config.get_fq_key_endpoint(), client_id.clone(), local_peer());
    let response = reply(server.handle_request(&over_the_wire(&hello), now));
    decode_key_response(&over_the_wire(&response), &mut client).unwrap();
    (client_id, client)
}

#[test]
fn keyed_upload_is_decrypted() {
    let config = config();
    let mut server = RequestProcesor::new(config.clone());
    let (_, client) = handshaken(&mut server, &config, 10);
    let upload = generate_key_string_encryption_message(
        "colour".to_string(),
        "blue".to_string(),
        &mut OsRng,
        &config,
        &client,
        local_peer(),
    )
    .unwrap();
    assert_eq!(4, upload.questions.len());
    match server.handle_request(&over_the_wire(&upload), 20) {
        RequestOutcome::Upload(u) => {
            assert_eq!("blue", u.value);
            assert_eq!(Some("colour".to_string()), u.key);
        }
        _ => panic!("expected a decrypted upload"),
    }
}

#[test]
fn upload_with_malformed_key_yields_nothing() {
    let config = config();
    let mut server = RequestProcesor::new(config.clone());
    let (client_id, client) = handshaken(&mut server, &config, 10);
    let key = client.shared_key.clone().unwrap();
    let nonce = generate_aes_nonce();
    let value = encrypt(&key, &nonce, &b"secret".to_vec()).unwrap();
    let upload = get_key_string_encryption_message(
        2,
        client_id.clone(),
        "*not base64*".to_string(),
        encode_base64(&value),
        encode_base64(&nonce),
        local_peer(),
    );
    assert!(matches!(server.handle_request(&over_the_wire(&upload), 30), RequestOutcome::Silent));
    assert_eq!(30, server.clients().get(&client_id).unwrap().last_seen);
}

#[test]
fn last_seen_never_goes_back() {
    let config = config();
    let mut server = RequestProcesor::new(config.clone());
    let (client_id, client) = handshaken(&mut server, &config, 500);
    let upload = generate_string_encryption_message("x".to_string(), &mut OsRng, &config, &client, local_peer()).unwrap();
    server.handle_request(&over_the_wire(&upload), 100);
    let session = server.clients().get(&client_id).unwrap();
    assert_eq!(500, session.first_seen);
    assert_eq!(500, session.last_seen);
}

#[test]
fn uploads_pair_values_with_keys() {
    let pairs = pair_uploads(Some(vec!["k".to_string()]), vec!["a".to_string(), "b".to_string()]).unwrap();
    assert_eq!(vec![(Some("k".to_string()), "a".to_string()), (None, "b".to_string())], pairs);
    assert_eq!(None, pair_uploads(Some(vec!["k".to_string(), "l".to_string()]), vec!["a".to_string()]));
    assert_eq!(Some(vec![(None, "a".to_string())]), pair_uploads(None, vec!["a".to_string()]));
}

#[test]
fn records_short_of_the_declared_count() {
    let mut m = DNSMessage::req_from_hostname(local_peer(), 1, "a.b".to_string());
    m.header.answer_record_count = 1;
    m.header.additional_record_count = 1;
    let mut bytes = m.to_bytes();
    // one complete record, then the bytes end
    bytes.extend_from_slice(&[0xC0, 12, 0, 1, 0, 1, 0, 0, 0, 0, 0, 1, 9]);
    let parsed = parse_message(NetworkMessage { buffer: bytes, peer: m.peer });
    assert_eq!(Some(RequestParseError::RecordCount(2, 1)), parsed.err());
}
