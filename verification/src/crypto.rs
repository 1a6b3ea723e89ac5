//! The cipher that protects a field's text: AES-256 under a key made from a
//! password, with the ciphertext written in base64.

use crate::error::{Cause, CliError};
use magic_crypt::{MagicCrypt256, MagicCryptError, MagicCryptTrait};
use vstd::prelude::*;

verus! {

/// `magic_crypt::MagicCryptError`: why a ciphertext was rejected.
#[verifier::external_type_specification]
#[verifier::external_body]
pub struct ExMagicCryptError(MagicCryptError);

/// The base64 text that `MagicCrypt256::encrypt_str_to_base64` gives for
/// `plain` under the key made from `password`.
pub uninterp spec fn sealed_text(password: Seq<char>, plain: Seq<char>) -> Seq<char>;

/// The text that `MagicCrypt256::decrypt_base64_to_string` gives for
/// `sealed` under the key made from `password`; `None` where it rejects
/// `sealed`.
pub uninterp spec fn opened_text(password: Seq<char>, sealed: Seq<char>) -> Option<Seq<char>>;

/// Calls `MagicCrypt256::encrypt_str_to_base64` with the key that
/// `MagicCrypt256::new` makes from `password` alone. Not proved: that the
/// result is a function of the password and the text, that it is not empty
/// (the padding always fills at least one block of sixteen bytes, which
/// base64 writes as 24 characters), and that `decrypt_base64_to_string`
/// under the same password gives the text back.
#[verifier::external_body]
fn seal(password: &str, plain: &str) -> (res: String)
    ensures
        res@ == sealed_text(password@, plain@),
        res@.len() > 0,
        opened_text(password@, res@) == Some(plain@),
{
    MagicCrypt256::new(password, None::<&[u8]>).encrypt_str_to_base64(plain)
}

/// Calls `MagicCrypt256::decrypt_base64_to_string` with the key that
/// `MagicCrypt256::new` makes from `password` alone. Not proved: that the
/// outcome is a function of the password and the ciphertext.
#[verifier::external_body]
fn unseal(password: &str, sealed: &str) -> (res: Result<String, MagicCryptError>)
    ensures
        match res {
            Ok(plain) => opened_text(password@, sealed@) == Some(plain@),
            Err(_) => opened_text(password@, sealed@) is None,
        },
{
    MagicCrypt256::new(password, None::<&[u8]>).decrypt_base64_to_string(sealed)
}

/// The message of a `MagicCryptError`, as its `Display` writes it. Nothing
/// is claimed of the text.
#[verifier::external_body]
fn rejection_text(e: &MagicCryptError) -> String {
    e.to_string()
}

/// What `encrypt` comes to for `data` under `password`: the empty text for
/// the empty text, else the sealed text, which must not be empty.
pub open spec fn encrypted(password: Seq<char>, data: Seq<char>) -> Result<Seq<char>, Cause> {
    if data.len() == 0 {
        Ok(Seq::<char>::empty())
    } else if sealed_text(password, data).len() == 0 {
        Err(Cause::Unencryptable)
    } else {
        Ok(sealed_text(password, data))
    }
}

/// What `decrypt` comes to for `data` under `password`: the empty text for
/// the empty text, else the opened text, which must not be empty.
pub open spec fn decrypted(password: Seq<char>, data: Seq<char>) -> Result<Seq<char>, Cause> {
    if data.len() == 0 {
        Ok(Seq::<char>::empty())
    } else {
        match opened_text(password, data) {
            Some(plain) => if plain.len() == 0 {
                Err(Cause::EmptyText)
            } else {
                Ok(plain)
            },
            None => Err(Cause::Rejected),
        }
    }
}

/// Symmetric encryption under a password.
pub struct Encryption {
    password: String,
}

impl Encryption {
    /// The password that the key is made from.
    pub closed spec fn password(&self) -> Seq<char> {
        self.password@
    }

    /// A cipher for `password`.
    pub fn new(password: String) -> (res: Self)
        ensures
            res.password() == password@,
    {
        Encryption { password }
    }

    /// Accepts what sealing a non-empty text gave, unless it is empty.
    pub fn check_encrypted(sealed: String) -> (res: Result<String, CliError>)
        ensures
            sealed@.len() > 0 ==> res == Ok::<String, CliError>(sealed),
            sealed@.len() == 0 ==> (res matches Err(e) && Cause::Unencryptable.describes(e@)),
    {
        if sealed.as_str().is_empty() {
            Err(CliError::EncryptionError("Encrypted content is empty".to_string()))
        } else {
            Ok(sealed)
        }
    }

    /// Accepts what opening a non-empty ciphertext gave, unless it is empty.
    pub fn check_decrypted(plain: String) -> (res: Result<String, CliError>)
        ensures
            plain@.len() > 0 ==> res == Ok::<String, CliError>(plain),
            plain@.len() == 0 ==> (res matches Err(e) && Cause::EmptyText.describes(e@)),
    {
        if plain.as_str().is_empty() {
            Err(CliError::DecryptionError("Decrypted content is empty".to_string()))
        } else {
            Ok(plain)
        }
    }

    /// Encrypts `data`. The empty text stays empty and is not sealed at all.
    /// This always succeeds, and what comes back decrypts, under the same
    /// password, to `data`.
    pub fn encrypt(&self, data: String) -> (res: Result<String, CliError>)
        ensures
            res is Ok,
            match encrypted(self.password(), data@) {
                Ok(sealed) => res matches Ok(out) && out@ == sealed,
                Err(cause) => res matches Err(e) && cause.describes(e@),
            },
            res matches Ok(out) ==> decrypted(self.password(), out@) == Ok::<Seq<char>, Cause>(
                data@,
            ),
    {
        if data.as_str().is_empty() {
            assert(data@ == Seq::<char>::empty());
            return Ok(String::new());
        }
        let sealed = seal(self.password.as_str(), data.as_str());
        Self::check_encrypted(sealed)
    }

    /// Decrypts `data`. The empty text stays empty and is not opened at all.
    /// A ciphertext that is rejected, or that opens to the empty text, is an
    /// error.
    pub fn decrypt(&self, data: String) -> (res: Result<String, CliError>)
        ensures
            match decrypted(self.password(), data@) {
                Ok(plain) => res matches Ok(out) && out@ == plain,
                Err(cause) => res matches Err(e) && cause.describes(e@),
            },
    {
        if data.as_str().is_empty() {
            assert(data@ == Seq::<char>::empty());
            return Ok(String::new());
        }
        match unseal(self.password.as_str(), data.as_str()) {
            Ok(plain) => Self::check_decrypted(plain),
            Err(e) => Err(CliError::DecryptionError(rejection_text(&e))),
        }
    }
}

} // verus!
