use dnstp::string::{
    append_base_domain_to_key, decode_domain_name, encode_domain_name, get_fattened_public_key,
    strip_base_domain_from_key, DomainDecodeError,
};
use dnstp::DomainConfig;

#[test]
fn test_encode() {
    let payload = "google.com";

    let encoded = encode_domain_name(&payload.to_string());

    assert_eq!(encoded.len(), "google".len() + "com".len() + 1 + 1 + 1);
    assert_eq!(encoded[0], "google".len() as u8);
}

#[test]
fn test_encode_decode() {
    let payload = "google.com";

    let encoded = encode_domain_name(&payload.to_string());
    let decoded = decode_domain_name(encoded).unwrap();

    assert_eq!(payload, decoded);
}

#[test]
fn test_encode_decode_two() {
    let payload = "sub.domain.com";

    let encoded = encode_domain_name(&payload.to_string());
    let decoded = decode_domain_name(encoded).unwrap();

    assert_eq!(payload, decoded);
}

#[test]
fn percent_encoded_labels_round_trip() {
    let payload = "a+b/c=.x y.~ok";
    let encoded = encode_domain_name(&payload.to_string());
    assert_eq!(
        vec![
            12, b'a', b'%', b'2', b'B', b'b', b'%', b'2', b'F', b'c', b'%', b'3', b'D', 5, b'x',
            b'%', b'2', b'0', b'y', 3, b'~', b'o', b'k', 0
        ],
        encoded
    );
    assert_eq!(payload, decode_domain_name(encoded).unwrap());
}

#[test]
fn empty_name_encodes_to_two_zero_bytes() {
    assert_eq!(vec![0, 0], encode_domain_name(&String::new()));
    assert_eq!("", decode_domain_name(vec![0, 0]).unwrap());
}

#[test]
fn decode_failures() {
    assert_eq!(Err(DomainDecodeError::UTF8Parse), decode_domain_name(vec![1, 0xff, 0]));
    assert_eq!(Err(DomainDecodeError::URLDecode), decode_domain_name(vec![3, b'%', b'F', b'F', 0]));
    // a label counts once the next length byte follows it; "x" never completes
    assert_eq!("ab.", decode_domain_name(vec![2, b'a', b'b', 0, 5, b'x']).unwrap());
}

#[test]
fn base_domain_split_and_join() {
    let (key, base) = strip_base_domain_from_key(&"abc.def.sarsoo.xyz".to_string());
    assert_eq!("abc.def", key);
    assert_eq!(".sarsoo.xyz", base);

    let (key, base) = strip_base_domain_from_key(&"abc.xyz".to_string());
    assert_eq!("abc", key);
    assert_eq!(".xyz", base);

    let (key, base) = strip_base_domain_from_key(&"abc".to_string());
    assert_eq!("abc", key);
    assert_eq!("", base);

    assert_eq!("k.sarsoo.xyz", append_base_domain_to_key("k".to_string(), &"sarsoo.xyz".to_string()));
}

#[test]
fn fattened_key_from_name() {
    let (key, base) = get_fattened_public_key(&"AB.CD.sarsoo.xyz".to_string());
    assert_eq!("-----BEGIN PUBLIC KEY-----\nAB\nCD\n-----END PUBLIC KEY-----\n", key);
    assert_eq!(".sarsoo.xyz", base);
}

#[test]
fn fully_qualified_key_endpoint() {
    let config = DomainConfig { base_domain: "sarsoo.xyz".to_string(), key_endpoint: "static".to_string() };
    assert_eq!("static.sarsoo.xyz", config.get_fq_key_endpoint());
}
