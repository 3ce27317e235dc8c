//! Protocol processing of decoded messages: the server's dispatch of handshake, upload and
//! download requests, and the client's handling of the handshake response.

pub mod request;
pub mod response;

pub use request::{RequestKind, RequestOutcome, RequestProcesor};
pub use response::{decode_key_response, DecodeKeyResponseError};
