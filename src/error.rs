use vstd::prelude::*;
use argon2::password_hash::Error as PasswordHashError;
use base64::DecodeError;
use chacha20poly1305::Error as AeadError;
use serde_json::Error as JsonError;
use sled::Error as SledError;
use std::string::FromUtf8Error;

verus! {

/// Declared so that the error of `String::from_utf8` can be carried.
#[verifier::external_type_specification]
#[verifier::external_body]
pub struct ExFromUtf8Error(FromUtf8Error);

/// Declared so that the error of serde_json's readers can be carried.
#[verifier::external_type_specification]
#[verifier::external_body]
pub struct ExJsonError(JsonError);

/// Declared so that the error of base64's decoder can be carried.
#[verifier::external_type_specification]
#[verifier::external_body]
pub struct ExDecodeError(DecodeError);

/// Declared so that the error of the password-hash parser and hasher can be carried.
#[verifier::external_type_specification]
#[verifier::external_body]
pub struct ExPasswordHashError(PasswordHashError);

/// Declared so that the AEAD error of chacha20poly1305 can be carried.
#[verifier::external_type_specification]
#[verifier::external_body]
pub struct ExAeadError(AeadError);

/// The errors of the record layer.
#[derive(Debug)]
pub enum Error {
    /// Decrypted key bytes are not UTF-8.
    Utf8Error(FromUtf8Error),
    /// The envelope document is not a JSON object of strings.
    SerdeError(JsonError),
    /// A field of the envelope document is not base64.
    DecodeError(DecodeError),
    /// The password hash could not be computed.
    Argon2Error(PasswordHashError),
    /// The stored password hash could not be parsed.
    DeriveKeyError(PasswordHashError),
    /// The embedded store failed.
    SledError(SledError),
    /// Authentication or encryption failed.
    CipherError(AeadError),
    /// The envelope document lacks one of its fields.
    MissingField,
    /// The envelope's nonce does not have the cipher's nonce length.
    InvalidNonce,
    InvalidPassword,
    VersionMismatch,
    PasswordMismatch,
    PasswordEmpty,
    NoSuchDirectory,
    NotFound,
}

/// The text that describes an error of the record layer's own; errors of an outside crate are
/// described by that crate.
pub open spec fn own_message(e: Error) -> Option<Seq<char>> {
    match e {
        Error::MissingField => Some("Envelope is missing a field"@),
        Error::InvalidNonce => Some("Envelope nonce has the wrong length"@),
        Error::InvalidPassword => Some("Invalid password"@),
        Error::VersionMismatch => Some("Version mismatch"@),
        Error::PasswordMismatch => Some("Passwords do not match"@),
        Error::PasswordEmpty => Some("Password is empty"@),
        Error::NoSuchDirectory => Some("No such directory"@),
        Error::NotFound => Some("Not found"@),
        _ => None,
    }
}

impl Error {
    /// The description of an error of the record layer's own, or `None` for an error that an
    /// outside crate describes.
    pub fn message(&self) -> (r: Option<String>)
        ensures
            r matches Some(s) ==> own_message(*self) == Some(s@),
            r is None <==> own_message(*self) is None,
    {
        let text: &str = match self {
            Error::MissingField => "Envelope is missing a field",
            Error::InvalidNonce => "Envelope nonce has the wrong length",
            Error::InvalidPassword => "Invalid password",
            Error::VersionMismatch => "Version mismatch",
            Error::PasswordMismatch => "Passwords do not match",
            Error::PasswordEmpty => "Password is empty",
            Error::NoSuchDirectory => "No such directory",
            Error::NotFound => "Not found",
            _ => return None,
        };
        Some(text.to_owned())
    }
}

} // verus!
