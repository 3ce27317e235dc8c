//! The server as a client sees it: the client's own key pair, and the server's key and
//! the shared key once the handshake has completed.

use vstd::prelude::*;
use crate::crypto::{get_random_asym_pair, is_pem_public_key, pem_key_parses, public_pem_of, trim_public_key, trimmed_key, PrivateKey};
use crate::string::{carried_base, carried_key, has_one_dot};
use crate::string::append_base_domain_to_key;

verus! {

/// A client's crypto state for one server.
pub struct ClientCryptoContext {
    pub shared_key: Option<Vec<u8>>,
    pub client_private: PrivateKey,
    pub client_public: String,
    pub server_public: Option<String>,
}

impl ClientCryptoContext {
    /// A fresh key pair, before any handshake.
    pub fn new() -> (r: Self)
        ensures
            r.shared_key is None,
            r.server_public is None,
            r.client_public@ == public_pem_of(r.client_private),
            is_pem_public_key(r.client_public@),
            pem_key_parses(r.client_public@),
    {
        let (client_private, client_public) = get_random_asym_pair();
        ClientCryptoContext { shared_key: None, client_private, client_public, server_public: None }
    }

    /// Whether the handshake has completed: the server's key and the shared key are both known.
    pub fn is_complete(&self) -> (r: bool)
        ensures
            r == (self.server_public is Some && self.shared_key is Some),
    {
        self.server_public.is_some() && self.shared_key.is_some()
    }

    /// The client's public key as a name under the base domain: the trimmed key, a dot,
    /// then the base domain.
    pub fn get_public_key_domain(&self, base_domain: &String) -> (r: String)
        requires
            self.client_public@.len() >= 152,
        ensures
            r@ == trimmed_key(self.client_public@) + seq!['.'] + base_domain@,
            is_pem_public_key(self.client_public@) && has_one_dot(base_domain@) ==> carried_key(r@)
                == self.client_public@ && carried_base(r@) == seq!['.'] + base_domain@,
    {
        append_base_domain_to_key(trim_public_key(&self.client_public), base_domain)
    }
}

} // verus!
