//! DNS tunnelling transport: a DNS wire codec, the key exchange and
//! symmetric encryption built on top of it, and the server-side dispatch of
//! handshake, upload and download requests against a session registry.

pub mod byte;
pub mod config;
pub mod crypto;
pub mod message;
pub mod net;
pub mod processor;
pub mod session;
pub mod string;
pub mod text;

pub use config::DomainConfig;

use vstd::prelude::*;

verus! {

/// Why a protocol request was refused.
#[derive(Clone, Copy, Debug, PartialEq, Eq, Structural)]
pub enum RequestError {
    /// An operation was tried without a handshake first
    NoHandshake,
    WrongNumberOfQuestions,
    CryptoFailure,
}

} // verus!
