//! Keeps a local secrets file in step with one field of a remote secret record.
//!
//! The local file is a text whose lines may include three header lines:
//! the version, the name of the remote secret, and the name of the field
//! inside that secret. The field holds the same text, encrypted. Which of
//! the two carries the higher version decides which way the text travels.

pub mod config;
pub mod crypto;
pub mod error;
pub mod header;
pub mod secret;
pub mod sync;
pub mod text;

pub use config::EnvFile;
pub use crypto::Encryption;
pub use error::CliError;
pub use secret::AWSSecret;
