use dnstp::crypto::{
    asym_to_sym_key, decode_base64, decrypt, encode_base64, encrypt, fatten_public_key,
    generate_aes_nonce, get_random_asym_pair, get_shared_asym_secret, trim_public_key,
};
use dnstp::processor::request::get_key_request_with_base_domain;
use dnstp::string::encode_domain_name;

#[test]
fn matching_shared_secrets() {
    let (secret_alice, point_alice) = get_random_asym_pair();
    let (secret_bob, point_bob) = get_random_asym_pair();

    let shared_alice = get_shared_asym_secret(&secret_alice, &point_bob).unwrap();
    let shared_bob = get_shared_asym_secret(&secret_bob, &point_alice).unwrap();

    assert_eq!(shared_alice, shared_bob);
}

#[test]
fn arbitrary_string_back_and_forth() {
    let data = String::from("hello world!");
    let nonce = generate_aes_nonce();

    let (secret_alice, point_alice) = get_random_asym_pair();
    let (secret_bob, point_bob) = get_random_asym_pair();

    let shared_alice = get_shared_asym_secret(&secret_alice, &point_bob).unwrap();
    let shared_bob = get_shared_asym_secret(&secret_bob, &point_alice).unwrap();

    assert_eq!(shared_alice, shared_bob);

    let sym_key = asym_to_sym_key(&shared_alice);

    let cipher_text = encrypt(&sym_key, &nonce, &data.clone().into_bytes()).unwrap();
    let plain_text = decrypt(&sym_key, &nonce, &cipher_text).unwrap();

    let result = String::from_utf8(plain_text).unwrap();

    assert_eq!(data, result);
}

#[test]
fn encryption() {
    let (_private, public) = get_key_request_with_base_domain(String::from("sarsoo.xyz"));

    let encoded = encode_domain_name(&public);
    assert!(public.ends_with(".sarsoo.xyz"));
    assert!(!encoded.is_empty());
}

#[test]
fn public_key_pem_shape_and_round_trip() {
    let (_secret, pem) = get_random_asym_pair();
    assert_eq!(178, pem.len());
    assert!(pem.starts_with("-----BEGIN PUBLIC KEY-----\n"));
    let trimmed = trim_public_key(&pem);
    assert_eq!(125, trimmed.len());
    assert!(!trimmed.contains('\n'));
    assert_eq!(pem, fatten_public_key(&trimmed));
}

#[test]
fn nonces_are_twelve_random_bytes() {
    let a = generate_aes_nonce();
    let b = generate_aes_nonce();
    assert_eq!(12, a.len());
    assert_ne!(a, b);
}

#[test]
fn wrong_key_or_nonce_fails_to_decrypt() {
    let key = vec![7u8; 32];
    let other_key = vec![8u8; 32];
    let nonce = vec![1u8; 12];
    let other_nonce = vec![2u8; 12];
    let message = b"attack at dawn".to_vec();
    let sealed = encrypt(&key, &nonce, &message).unwrap();
    assert_eq!(message.len() + 16, sealed.len());
    assert_ne!(message, sealed[..message.len()].to_vec());
    assert_eq!(message, decrypt(&key, &nonce, &sealed).unwrap());
    assert_eq!(Err(()), decrypt(&other_key, &nonce, &sealed));
    assert_eq!(Err(()), decrypt(&key, &other_nonce, &sealed));
    assert_eq!(Err(()), decrypt(&key, &nonce, &vec![0u8; 4]));
}

#[test]
fn unparsable_public_key_is_an_error() {
    let (secret, _) = get_random_asym_pair();
    assert_eq!(Err(()), get_shared_asym_secret(&secret, &"not a key".to_string()));
}

#[test]
fn base64_both_ways() {
    let bytes = vec![0u8, 1, 2, 253, 254, 255];
    let text = encode_base64(&bytes);
    assert_eq!("AAEC/f7/", text);
    assert_eq!(Some(bytes), decode_base64(&text));
    assert_eq!(None, decode_base64(&"*not base64*".to_string()));
}

#[test]
fn both_sides_of_a_key_exchange_agree() {
    let (a, a_pub) = get_random_asym_pair();
    let (b, b_pub) = get_random_asym_pair();
    let (c, _) = get_random_asym_pair();
    let ab = get_shared_asym_secret(&a, &b_pub).unwrap();
    assert_eq!(ab, get_shared_asym_secret(&b, &a_pub).unwrap());
    assert_ne!(ab, get_shared_asym_secret(&c, &a_pub).unwrap());
    assert_ne!(vec![0u8; 32], ab);
}
