//! The failures that end a run.

use crate::header::HeaderKind;
use vstd::prelude::*;

verus! {

/// `std::io::Error`, carried through untouched from where a read or write failed.
#[verifier::external_type_specification]
#[verifier::external_body]
pub struct ExIoError(std::io::Error);

/// Why a run stopped. Every failure is final: nothing is retried.
#[derive(Debug)]
pub enum CliError {
    /// Reading or writing the local file failed.
    IoError(std::io::Error),
    /// Encrypting a non-empty text gave nothing.
    EncryptionError(String),
    /// The ciphertext was rejected, or decrypted to nothing.
    DecryptionError(String),
    /// The store refused the caller's identity.
    AwsAuthError(String),
    /// The store could not fetch, list or put.
    AwsSecretsManagerError(String),
    /// The secret's payload is not an object of strings, or lacks the field asked for.
    AwsSecretsFormatError(String),
    /// A header line of the secrets file is malformed, or a required one is missing.
    InvalidEnvFileError(String),
}

/// A failure as contracts see it: the kind, and the message as a sequence of characters.
pub enum Failure {
    Io,
    Encryption(Seq<char>),
    Decryption(Seq<char>),
    AwsAuth(Seq<char>),
    AwsSecretsManager(Seq<char>),
    AwsSecretsFormat(Seq<char>),
    InvalidEnvFile(Seq<char>),
}

impl View for CliError {
    type V = Failure;

    open spec fn view(&self) -> Failure {
        match self {
            CliError::IoError(_) => Failure::Io,
            CliError::EncryptionError(m) => Failure::Encryption(m@),
            CliError::DecryptionError(m) => Failure::Decryption(m@),
            CliError::AwsAuthError(m) => Failure::AwsAuth(m@),
            CliError::AwsSecretsManagerError(m) => Failure::AwsSecretsManager(m@),
            CliError::AwsSecretsFormatError(m) => Failure::AwsSecretsFormat(m@),
            CliError::InvalidEnvFileError(m) => Failure::InvalidEnvFile(m@),
        }
    }
}

/// Why an operation of this library stops. Each cause is reported by one
/// kind of error; all but two fix the message as well.
pub enum Cause {
    /// A header line of this kind has no value, or its version is no number.
    Header(HeaderKind),
    /// The headers cannot be written: the document has no secret id.
    SecretIdNotSet,
    /// The headers cannot be written: the document has no version.
    VersionNotSet,
    /// The document names no secret.
    NoSecretId,
    /// The document names no field.
    NoFieldId,
    /// The secret has no field of this name.
    NoSuchField(Seq<char>),
    /// The payload is no JSON object of strings. The message is the JSON reader's.
    BadPayload,
    /// The cipher rejected the text. The message is the cipher's.
    Rejected,
    /// The text decrypted to nothing.
    EmptyText,
    /// Encrypting a non-empty text gave nothing.
    Unencryptable,
}

impl Cause {
    /// Whether `failure` is an error that reports this cause.
    pub open spec fn describes(self, failure: Failure) -> bool {
        match self {
            Cause::Header(kind) => failure == Failure::InvalidEnvFile(kind.fault()),
            Cause::SecretIdNotSet => failure == Failure::InvalidEnvFile("Secret ID is not set"@),
            Cause::VersionNotSet => failure == Failure::InvalidEnvFile("Version is not set"@),
            Cause::NoSecretId => failure == Failure::InvalidEnvFile(
                "The secret file does not contain a secret ID."@,
            ),
            Cause::NoFieldId => failure == Failure::InvalidEnvFile(
                "The secret file does not contain a field ID."@,
            ),
            Cause::NoSuchField(name) => failure == Failure::AwsSecretsFormat(
                "Field '"@ + name + "' not found"@,
            ),
            Cause::BadPayload => failure is AwsSecretsFormat,
            Cause::Rejected => failure is Decryption,
            Cause::EmptyText => failure == Failure::Decryption("Decrypted content is empty"@),
            Cause::Unencryptable => failure == Failure::Encryption("Encrypted content is empty"@),
        }
    }
}

} // verus!
