//! Session state on both sides: the server's registry of handshaken clients, the client's
//! crypto context, and the messages a client sends.

pub mod client_crypto_context;
pub mod clients;
pub mod message_generator;

pub use client_crypto_context::ClientCryptoContext;
pub use clients::{Client, Clients};
pub use message_generator::{
    generate_client_handshake_message, generate_key_string_encryption_message,
    generate_string_encryption_message, get_client_handshake_message,
    get_key_string_encryption_message, get_string_encryption_message, pair_uploads,
};
