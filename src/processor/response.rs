//! The client side of the protocol: take in the server's handshake response.

use vstd::prelude::*;
use crate::crypto::{asym_to_sym_key, ecdh_secret, get_shared_asym_secret, pem_key_parses, KEY_SIZE};
use crate::message::message::DNSMessage;
use crate::message::record::rdata_bytes;
use crate::session::client_crypto_context::ClientCryptoContext;
use crate::string::{carried_key, decode_domain_name, domain_from, get_fattened_public_key, DomainDecodeError};

verus! {

/// Why the server's handshake response could not be used.
#[derive(Clone, Copy, Debug, PartialEq, Eq, Structural)]
pub enum DecodeKeyResponseError {
    DomainDecode(DomainDecodeError),
    KeyDerivation,
}

/// Take the server's handshake response: the second answer's data is a name carrying the
/// server's public key. On success the context holds the server's key and the shared key;
/// on failure, and for a response without exactly two answers, it is left as it was.
pub fn decode_key_response(message: &DNSMessage, client_crypto_context: &mut ClientCryptoContext) -> (r: Result<(), DecodeKeyResponseError>)
    ensures
        if message.answer_records@.len() != 2 {
            r is Ok && *final(client_crypto_context) == *old(client_crypto_context)
        } else {
            match domain_from(rdata_bytes(message.answer_records@[1].r_data), 0) {
                Err(e) => r == Err::<(), DecodeKeyResponseError>(DecodeKeyResponseError::DomainDecode(e))
                    && *final(client_crypto_context) == *old(client_crypto_context),
                Ok(name) => if !pem_key_parses(carried_key(name)) {
                    r == Err::<(), DecodeKeyResponseError>(DecodeKeyResponseError::KeyDerivation)
                        && *final(client_crypto_context) == *old(client_crypto_context)
                } else {
                    &&& r is Ok
                    &&& final(client_crypto_context).server_public matches Some(s) && s@ == carried_key(name)
                    &&& final(client_crypto_context).shared_key matches Some(k) && k@.len() == KEY_SIZE
                        && k@ == ecdh_secret(old(client_crypto_context).client_private, carried_key(name))
                    &&& final(client_crypto_context).client_public == old(client_crypto_context).client_public
                    &&& final(client_crypto_context).client_private == old(client_crypto_context).client_private
                },
            }
        },
{
    if message.answer_records.len() != 2 {
        return Ok(());
    }
    let key_answer = &message.answer_records[1];
    match decode_domain_name(key_answer.r_data.to_bytes()) {
        Err(e) => Err(DecodeKeyResponseError::DomainDecode(e)),
        Ok(domain_name) => {
            let (fattened_public_key, _) = get_fattened_public_key(&domain_name);
            match get_shared_asym_secret(&client_crypto_context.client_private, &fattened_public_key) {
                Ok(k) => {
                    client_crypto_context.server_public = Some(fattened_public_key);
                    client_crypto_context.shared_key = Some(asym_to_sym_key(&k));
                    Ok(())
                },
                Err(_) => Err(DecodeKeyResponseError::KeyDerivation),
            }
        },
    }
}

} // verus!
