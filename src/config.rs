//! The domain configuration shared by the server and the client.

use vstd::prelude::*;
use crate::text::dot_join;

verus! {

/// The base domain the protocol operates under, and the sub-domain reserved for handshakes.
#[derive(Clone, Debug)]
pub struct DomainConfig {
    pub base_domain: String,
    pub key_endpoint: String,
}

/// The fully-qualified handshake domain: the key endpoint, a dot, the base domain.
pub open spec fn fq_key_endpoint(c: DomainConfig) -> Seq<char> {
    c.key_endpoint@ + seq!['.'] + c.base_domain@
}

impl DomainConfig {
    pub fn get_fq_key_endpoint(&self) -> (r: String)
        ensures
            r@ == fq_key_endpoint(*self),
    {
        dot_join(self.key_endpoint.as_str(), self.base_domain.as_str())
    }
}

} // verus!
