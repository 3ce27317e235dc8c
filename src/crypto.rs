//! Key exchange and symmetric encryption: P-256 ephemeral Diffie-Hellman, AES-256-GCM-SIV
//! with the raw shared secret as key, base64 for carrying bytes in names, and the transforms
//! that fit a PEM public key into a domain name and back.
//!
//! The shared secret and the AEAD key are kept as plain bytes (32 of them), and a nonce as
//! 12 bytes; the cipher is set up from them for each call.

use vstd::prelude::*;
use aes_gcm_siv::aead::generic_array::GenericArray;
use aes_gcm_siv::aead::{Aead, AeadCore, KeyInit};
use aes_gcm_siv::Aes256GcmSiv;
use base64::Engine;
use p256::ecdh::EphemeralSecret;
use p256::pkcs8::{EncodePublicKey, LineEnding};
use rand_core::{OsRng, RngCore};
use std::str::FromStr;
use crate::text::{chars_of, string_of};

verus! {

broadcast use vstd::string::group_string_axioms;

/// A P-256 ephemeral private key. Verus cannot declare p256's key types, whose
/// generic bound it does not resolve, so the key is held here out of its sight.
#[verifier::external_body]
pub struct PrivateKey {
    secret: EphemeralSecret,
}

/// A parsed P-256 public key, held out of Verus's sight for the same reason.
#[verifier::external_body]
pub struct PeerPublicKey {
    key: p256::PublicKey,
}

#[verifier::external_type_specification]
#[verifier::external_body]
pub struct ExCurveError(p256::elliptic_curve::Error);

#[verifier::external_type_specification]
#[verifier::external_body]
pub struct ExAeadError(aes_gcm_siv::aead::Error);

#[verifier::external_type_specification]
#[verifier::external_body]
pub struct ExDecodeError(base64::DecodeError);

#[verifier::external_type_specification]
#[verifier::external_body]
pub struct ExOsRng(OsRng);

/// Length in bytes of an AES-256-GCM-SIV key, and of a P-256 shared secret.
pub const KEY_SIZE: usize = 32;

/// Length in bytes of an AES-GCM-SIV nonce.
pub const NONCE_SIZE: usize = 12;

/// Length in bytes of the authentication tag appended to a ciphertext.
pub const TAG_SIZE: usize = 16;

/// The longest plaintext AES-GCM-SIV encrypts, in bytes.
pub const MAX_PLAINTEXT: u64 = 0x10_0000_0000;

/// The PEM text of the public key of a private key, as `to_public_key_pem` writes it with LF
/// line endings.
pub uninterp spec fn public_pem_of(secret: PrivateKey) -> Seq<char>;

/// The public key that `p256::PublicKey::from_str` reads from a text.
pub uninterp spec fn parsed_key(s: Seq<char>) -> PeerPublicKey;

/// The raw ECDH shared secret of a private key and a public key.
pub uninterp spec fn ecdh_of(secret: PrivateKey, peer: PeerPublicKey) -> Seq<u8>;

/// The raw ECDH shared secret of a private key and the public key a PEM text holds.
pub open spec fn ecdh_secret(secret: PrivateKey, peer_pem: Seq<char>) -> Seq<u8> {
    ecdh_of(secret, parsed_key(peer_pem))
}

/// Whether `p256::PublicKey::from_str` accepts the text as a PEM-encoded public key.
pub uninterp spec fn pem_key_parses(s: Seq<char>) -> bool;

/// What AES-256-GCM-SIV encryption with the key and nonce makes of a plaintext: ciphertext and tag.
pub uninterp spec fn sealed(key: Seq<u8>, nonce: Seq<u8>, plaintext: Seq<u8>) -> Seq<u8>;

/// What AES-256-GCM-SIV decryption with the key and nonce makes of a ciphertext: the
/// plaintext, or none when the tag does not authenticate it.
pub uninterp spec fn opened(key: Seq<u8>, nonce: Seq<u8>, ciphertext: Seq<u8>) -> Option<Seq<u8>>;

/// The standard, padded base64 text of some bytes.
pub uninterp spec fn base64_of(b: Seq<u8>) -> Seq<char>;

/// The bytes that standard, padded base64 text stands for, or none when it is not such text.
pub uninterp spec fn base64_decoded(s: Seq<char>) -> Option<Seq<u8>>;

/// Relies on EphemeralSecret::random, drawing from the operating system's generator.
#[verifier::external_body]
fn random_secret() -> PrivateKey {
    PrivateKey { secret: EphemeralSecret::random(&mut OsRng) }
}

/// Relies on EphemeralSecret::public_key and EncodePublicKey::to_public_key_pem with LF line
/// endings (what PublicKey's `to_string` writes on Unix), whose text
/// `p256::PublicKey::from_str` parses back. The SubjectPublicKeyInfo of an uncompressed P-256
/// point is 91 DER bytes, 124 base64 characters in a line of 64 and a line of 60, between the
/// boundary lines. Encoding a valid point does not fail, as in `to_string`.
#[verifier::external_body]
fn public_key_pem(secret: &PrivateKey) -> (r: String)
    ensures
        r@ == public_pem_of(*secret),
        is_pem_public_key(r@),
        pem_key_parses(r@),
{
    secret.secret.public_key().to_public_key_pem(LineEnding::LF).expect("PEM encoding error")
}

/// Relies on `p256::PublicKey::from_str`, which parses a PEM-encoded public key; the key it
/// gives depends on the text alone.
#[verifier::external_body]
fn parse_public_key(s: &str) -> (r: Result<PeerPublicKey, p256::elliptic_curve::Error>)
    ensures
        r is Ok <==> pem_key_parses(s@),
        r is Ok ==> r->Ok_0 == parsed_key(s@),
{
    match p256::PublicKey::from_str(s) {
        Ok(key) => Ok(PeerPublicKey { key }),
        Err(e) => Err(e),
    }
}

/// Relies on EphemeralSecret::diffie_hellman, whose raw shared secret is 32 bytes and is the
/// same from either side: a secret with the other's public key, or the other's secret with
/// this one's public key.
#[verifier::external_body]
fn diffie_hellman_bytes(secret: &PrivateKey, peer: &PeerPublicKey) -> (r: Vec<u8>)
    ensures
        r@ == ecdh_of(*secret, *peer),
        r@.len() == KEY_SIZE,
        forall|b: PrivateKey|
            *peer == parsed_key(#[trigger] public_pem_of(b)) ==> r@ == ecdh_of(
                b,
                parsed_key(public_pem_of(*secret)),
            ),
{
    secret.secret.diffie_hellman(&peer.key).raw_secret_bytes().to_vec()
}

/// Relies on AeadCore::generate_nonce for AES-256-GCM-SIV, drawing 12 bytes from the
/// operating system's generator.
#[verifier::external_body]
pub fn generate_aes_nonce() -> (r: Vec<u8>)
    ensures
        r@.len() == NONCE_SIZE,
{
    Aes256GcmSiv::generate_nonce(OsRng).to_vec()
}

/// Relies on Aead::encrypt of AES-256-GCM-SIV, keyed with the 32 bytes by KeyInit::new; it
/// fails only on a plaintext longer than 2^36 bytes.
#[verifier::external_body]
fn aead_seal(key: &[u8], nonce: &[u8], plaintext: &[u8]) -> (r: Result<Vec<u8>, aes_gcm_siv::aead::Error>)
    requires
        key@.len() == KEY_SIZE,
        nonce@.len() == NONCE_SIZE,
    ensures
        r is Ok <==> plaintext@.len() <= MAX_PLAINTEXT,
        r is Ok ==> r->Ok_0@ == sealed(key@, nonce@, plaintext@),
        r is Ok ==> r->Ok_0@.len() == plaintext@.len() + TAG_SIZE,
{
    Aes256GcmSiv::new(GenericArray::from_slice(key)).encrypt(GenericArray::from_slice(nonce), plaintext)
}

/// Relies on Aead::decrypt of AES-256-GCM-SIV, keyed with the 32 bytes by KeyInit::new; it
/// gives back the plaintext of what encryption with the same key and nonce produced, and
/// fails on text it cannot authenticate.
#[verifier::external_body]
fn aead_open(key: &[u8], nonce: &[u8], ciphertext: &[u8]) -> (r: Result<Vec<u8>, aes_gcm_siv::aead::Error>)
    requires
        key@.len() == KEY_SIZE,
        nonce@.len() == NONCE_SIZE,
    ensures
        r is Ok <==> opened(key@, nonce@, ciphertext@) is Some,
        r is Ok ==> r->Ok_0@ == opened(key@, nonce@, ciphertext@)->0,
        forall|m: Seq<u8>|
            m.len() <= MAX_PLAINTEXT && ciphertext@ == #[trigger] sealed(key@, nonce@, m) ==> r is Ok
                && r->Ok_0@ == m,
{
    Aes256GcmSiv::new(GenericArray::from_slice(key)).decrypt(GenericArray::from_slice(nonce), ciphertext)
}

/// Relies on the standard base64 engine's `encode`.
#[verifier::external_body]
fn base64_encode(b: &[u8]) -> (r: String)
    ensures
        r@ == base64_of(b@),
{
    base64::engine::general_purpose::STANDARD.encode(b)
}

/// Relies on the standard base64 engine's `decode`, which undoes its `encode`.
#[verifier::external_body]
fn base64_decode(s: &str) -> (r: Result<Vec<u8>, base64::DecodeError>)
    ensures
        r is Ok <==> base64_decoded(s@) is Some,
        r is Ok ==> r->Ok_0@ == base64_decoded(s@)->0,
        forall|b: Seq<u8>| s@ == #[trigger] base64_of(b) ==> r is Ok && r->Ok_0@ == b,
{
    base64::engine::general_purpose::STANDARD.decode(s)
}

/// Relies on RngCore::next_u32 of the operating system's generator.
#[verifier::external_body]
pub(crate) fn next_random_u32(rng: &mut OsRng) -> u32 {
    rng.next_u32()
}

/// Generate a fresh key pair: the secret and its public key as PEM text.
pub fn get_random_asym_pair() -> (r: (PrivateKey, String))
    ensures
        r.1@ == public_pem_of(r.0),
        is_pem_public_key(r.1@),
        pem_key_parses(r.1@),
{
    let secret = random_secret();
    let public_point = public_key_pem(&secret);
    (secret, public_point)
}

/// Combine one private key with the other side's PEM public key into the raw shared secret;
/// fails exactly when the text does not parse as a public key. Both sides of an exchange get
/// the same secret: when the text is the public key of `b`, the secret is also what `b` gets
/// with this key's public key.
pub fn get_shared_asym_secret(secret: &PrivateKey, opposing_public_key: &String) -> (r: Result<Vec<u8>, ()>)
    ensures
        r is Ok <==> pem_key_parses(opposing_public_key@),
        r is Ok ==> r->Ok_0@ == ecdh_secret(*secret, opposing_public_key@),
        r is Ok ==> r->Ok_0@.len() == KEY_SIZE,
        r is Ok ==> forall|b: PrivateKey|
            opposing_public_key@ == #[trigger] public_pem_of(b) ==> r->Ok_0@ == ecdh_secret(
                b,
                public_pem_of(*secret),
            ),
{
    match parse_public_key(opposing_public_key.as_str()) {
        Ok(other_public) => Ok(diffie_hellman_bytes(secret, &other_public)),
        Err(_) => Err(()),
    }
}

/// Take the raw shared secret as the symmetric key, byte for byte.
pub fn asym_to_sym_key(secret: &Vec<u8>) -> (r: Vec<u8>)
    ensures
        r@ == secret@,
{
    vstd::slice::slice_to_vec(secret.as_slice())
}

/// Encrypt bytes with a shared key and nonce; fails only on a plaintext longer than 2^36
/// bytes. The ciphertext is the plaintext's length plus the 16-byte tag.
pub fn encrypt(key: &Vec<u8>, nonce: &Vec<u8>, bytes: &Vec<u8>) -> (r: Result<Vec<u8>, ()>)
    requires
        key@.len() == KEY_SIZE,
        nonce@.len() == NONCE_SIZE,
    ensures
        r is Ok <==> bytes@.len() <= MAX_PLAINTEXT,
        r is Ok ==> r->Ok_0@ == sealed(key@, nonce@, bytes@),
        r is Ok ==> r->Ok_0@.len() == bytes@.len() + TAG_SIZE,
{
    match aead_seal(key.as_slice(), nonce.as_slice(), bytes.as_slice()) {
        Ok(c) => Ok(c),
        Err(_) => Err(()),
    }
}

/// Decrypt bytes with a shared key and the nonce used to encrypt them. What `encrypt` made
/// with the same key and nonce decrypts to the plaintext it was made from.
pub fn decrypt(key: &Vec<u8>, nonce: &Vec<u8>, bytes: &Vec<u8>) -> (r: Result<Vec<u8>, ()>)
    requires
        key@.len() == KEY_SIZE,
        nonce@.len() == NONCE_SIZE,
    ensures
        r is Ok <==> opened(key@, nonce@, bytes@) is Some,
        r is Ok ==> r->Ok_0@ == opened(key@, nonce@, bytes@)->0,
        forall|m: Seq<u8>|
            m.len() <= MAX_PLAINTEXT && bytes@ == #[trigger] sealed(key@, nonce@, m) ==> r is Ok
                && r->Ok_0@ == m,
{
    match aead_open(key.as_slice(), nonce.as_slice(), bytes.as_slice()) {
        Ok(p) => Ok(p),
        Err(_) => Err(()),
    }
}

/// Base64 text of bytes.
pub fn encode_base64(b: &Vec<u8>) -> (r: String)
    ensures
        r@ == base64_of(b@),
{
    base64_encode(b.as_slice())
}

/// The bytes that base64 text stands for, or none when it is not base64.
pub fn decode_base64(s: &String) -> (r: Option<Vec<u8>>)
    ensures
        r is Some <==> base64_decoded(s@) is Some,
        r is Some ==> r->0@ == base64_decoded(s@)->0,
        forall|b: Seq<u8>| s@ == #[trigger] base64_of(b) ==> r is Some && r->0@ == b,
{
    match base64_decode(s.as_str()) {
        Ok(b) => Some(b),
        Err(_) => None,
    }
}

pub const PUBLIC_KEY_OPENING: &'static str = "-----BEGIN PUBLIC KEY-----\n";

pub const PUBLIC_KEY_CLOSING: &'static str = "\n-----END PUBLIC KEY-----\n";

/// `c`, with `from` replaced by `to`.
pub open spec fn swap_char(c: char, from: char, to: char) -> char {
    if c == from {
        to
    } else {
        c
    }
}

/// Every `from` in `s` replaced by `to`.
pub open spec fn replaced(s: Seq<char>, from: char, to: char) -> Seq<char> {
    s.map_values(|c: char| swap_char(c, from, to))
}

/// The body of a PEM key between its 27-character opening line and the closing line,
/// with each newline turned into a dot so that it reads as domain labels.
pub open spec fn trimmed_key(pem: Seq<char>) -> Seq<char> {
    replaced(pem.subrange(27, 152), '\n', '.')
}

/// The PEM envelope put back around a trimmed key, with each dot turned back into a newline.
pub open spec fn fattened_key(trimmed: Seq<char>) -> Seq<char> {
    replaced(PUBLIC_KEY_OPENING@ + trimmed + PUBLIC_KEY_CLOSING@, '.', '\n')
}

/// A base64 character: an ASCII letter or digit, `+`, `/` or the padding `=`.
pub open spec fn is_base64_char(c: char) -> bool {
    ('0' <= c <= '9') || ('A' <= c <= 'Z') || ('a' <= c <= 'z') || c == '+' || c == '/' || c == '='
}

/// A PEM public key of the shape P-256 keys take: the opening line, a 125-character body of
/// base64 in a line of 64 and a line of 60, the closing line.
pub open spec fn is_pem_public_key(k: Seq<char>) -> bool {
    &&& k.len() == 178
    &&& k.subrange(0, 27) == PUBLIC_KEY_OPENING@
    &&& k.subrange(152, 178) == PUBLIC_KEY_CLOSING@
    &&& k[91] == '\n'
    &&& forall|i: int| 27 <= i < 152 && i != 91 ==> is_base64_char(#[trigger] k[i])
}

/// A trimmed P-256 key: 125 characters, a dot at 64 where the line break was, no other dot.
pub open spec fn is_trimmed_key(t: Seq<char>) -> bool {
    &&& t.len() == 125
    &&& t[64] == '.'
    &&& forall|i: int| 0 <= i < 125 && i != 64 ==> #[trigger] t[i] != '.'
    &&& forall|i: int| 0 <= i < 125 && i != 64 ==> is_base64_char(#[trigger] t[i])
}

/// Replace each `from` in the characters with `to`.
fn replace_chars(v: &Vec<char>, from: char, to: char) -> (r: Vec<char>)
    ensures
        r@ == replaced(v@, from, to),
{
    let mut r: Vec<char> = Vec::new();
    let mut i: usize = 0;
    while i < v.len()
        invariant
            i <= v@.len(),
            r@ == replaced(v@.take(i as int), from, to),
        decreases v@.len() - i,
    {
        let c = v[i];
        r.push(if c == from {
            to
        } else {
            c
        });
        i = i + 1;
        assert(r@ =~= replaced(v@.take(i as int), from, to));
    }
    assert(v@.take(i as int) =~= v@);
    r
}

/// Strip the PEM opening and closing lines from a public key and turn its newlines into
/// dots, so that it fits in domain labels.
pub fn trim_public_key(public: &String) -> (r: String)
    requires
        public@.len() >= 152,
    ensures
        r@ == trimmed_key(public@),
        is_pem_public_key(public@) ==> is_trimmed_key(r@) && fattened_key(r@) == public@,
{
    proof {
        if is_pem_public_key(public@) {
            lemma_pem_round_trip(public@);
            lemma_trimmed_shape(public@);
        }
    }
    let chars = chars_of(public.as_str());
    let mut body: Vec<char> = Vec::new();
    let mut i: usize = 27;
    while i < 152
        invariant
            27 <= i <= 152,
            chars@ == public@,
            chars@.len() >= 152,
            body@ == chars@.subrange(27, i as int),
        decreases 152 - i,
    {
        body.push(chars[i]);
        i = i + 1;
        assert(body@ =~= chars@.subrange(27, i as int));
    }
    let replaced_body = replace_chars(&body, '\n', '.');
    string_of(replaced_body.as_slice())
}

/// Put the PEM opening and closing lines back around a trimmed key and turn its dots back
/// into newlines.
pub fn fatten_public_key(public: &String) -> (r: String)
    ensures
        r@ == fattened_key(public@),
{
    let mut fattened = <String as vstd::string::StringExecFns>::from_str(PUBLIC_KEY_OPENING);
    fattened.append(public.as_str());
    fattened.append(PUBLIC_KEY_CLOSING);
    let chars = chars_of(fattened.as_str());
    let swapped = replace_chars(&chars, '.', '\n');
    string_of(swapped.as_slice())
}

/// The trimmed form of a P-256 PEM key is a trimmed key.
pub proof fn lemma_trimmed_shape_pub(k: Seq<char>)
    requires
        is_pem_public_key(k),
    ensures
        is_trimmed_key(trimmed_key(k)),
{
    lemma_trimmed_shape(k);
}

proof fn lemma_trimmed_shape(k: Seq<char>)
    requires
        is_pem_public_key(k),
    ensures
        is_trimmed_key(trimmed_key(k)),
{
    let t = trimmed_key(k);
    assert(t[64] == swap_char(k[91], '\n', '.'));
    assert forall|i: int| 0 <= i < 125 && i != 64 implies #[trigger] t[i] != '.' && is_base64_char(t[i]) by {
        assert(t[i] == swap_char(k[27 + i], '\n', '.'));
        assert(is_base64_char(k[27 + i]));
    }
}

/// Trimming the envelope off a P-256 PEM public key and putting it back gives the key back.
pub proof fn lemma_pem_round_trip(k: Seq<char>)
    requires
        is_pem_public_key(k),
    ensures
        fattened_key(trimmed_key(k)) == k,
{
    reveal_strlit("-----BEGIN PUBLIC KEY-----\n");
    reveal_strlit("\n-----END PUBLIC KEY-----\n");
    let t = trimmed_key(k);
    let whole = PUBLIC_KEY_OPENING@ + t + PUBLIC_KEY_CLOSING@;
    assert(k =~= k.subrange(0, 27) + k.subrange(27, 152) + k.subrange(152, 178));
    assert forall|i: int| 0 <= i < 178 implies #[trigger] replaced(whole, '.', '\n')[i] == k[i] by {
        if i < 27 {
            assert(whole[i] == k[i]);
        } else if i < 152 {
            assert(whole[i] == t[i - 27]);
            if i != 91 {
                assert(is_base64_char(k[i]));
            }
        } else {
            assert(whole[i] == k[i]);
        }
    }
    assert(replaced(whole, '.', '\n') =~= k);
}

} // verus!
