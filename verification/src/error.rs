//! The failure taxonomy of the core: structural, cryptographic, text and
//! policy failures. Every operation returns a value or one of these; there
//! are no partial successes and no silent retries.
use vstd::prelude::*;

use crate::textutil::{dec_chars, u64_to_string};

verus! {

/// A typed failure condition of the container codec or the encoding
/// resolver.
#[derive(Clone, Copy, Debug, PartialEq, Eq, Structural)]
pub enum CoreError {
    /// The buffer is shorter than a header plus an authentication tag.
    TooSmall,
    /// The buffer does not open with the container magic.
    BadMagic,
    /// The version byte is not a recognized format revision.
    UnsupportedVersion(u8),
    /// Key derivation could not run; a configuration defect, not a
    /// user-facing retryable condition.
    KeyDerivationFailed,
    /// Wrong password or tampered data; the two are indistinguishable by
    /// design.
    AuthenticationFailed,
    /// The plaintext payload is not valid UTF-8 text.
    NotUtf8,
    /// The buffer is a container but no password was supplied.
    PasswordRequired,
    /// A strictly decoded encoding reported malformed input.
    EncodingDecodeError,
}

impl CoreError {
    /// A descriptive, user-presentable message for this failure.
    pub fn message(&self) -> (r: String)
        ensures
            r@.len() > 0,
            self is TooSmall ==> r@ == "File is too small to be a valid encrypted file"@,
            self is BadMagic ==> r@ == "Not a valid SREF encrypted file"@,
            self matches CoreError::UnsupportedVersion(v) ==> r@
                == "Unsupported SREF version: "@ + dec_chars(v as nat),
            self is KeyDerivationFailed ==> r@ == "Key derivation error"@,
            self is AuthenticationFailed ==> r@
                == "Decryption failed - wrong password or corrupted file"@,
            self is NotUtf8 ==> r@ == "File content is not valid UTF-8"@,
            self is PasswordRequired ==> r@
                == "This file is encrypted - a password is required"@,
            self is EncodingDecodeError ==> r@ == "Encoding decode error"@,
    {
        proof {
            reveal_strlit("File is too small to be a valid encrypted file");
            reveal_strlit("Not a valid SREF encrypted file");
            reveal_strlit("Unsupported SREF version: ");
            reveal_strlit("Key derivation error");
            reveal_strlit("Decryption failed - wrong password or corrupted file");
            reveal_strlit("File content is not valid UTF-8");
            reveal_strlit("This file is encrypted - a password is required");
            reveal_strlit("Encoding decode error");
        }
        match self {
            CoreError::TooSmall => "File is too small to be a valid encrypted file".to_owned(),
            CoreError::BadMagic => "Not a valid SREF encrypted file".to_owned(),
            CoreError::UnsupportedVersion(v) => {
                let mut s = "Unsupported SREF version: ".to_owned();
                let digits = u64_to_string(*v as u64);
                s.append(digits.as_str());
                s
            },
            CoreError::KeyDerivationFailed => "Key derivation error".to_owned(),
            CoreError::AuthenticationFailed => {
                "Decryption failed - wrong password or corrupted file".to_owned()
            },
            CoreError::NotUtf8 => "File content is not valid UTF-8".to_owned(),
            CoreError::PasswordRequired => {
                "This file is encrypted - a password is required".to_owned()
            },
            CoreError::EncodingDecodeError => "Encoding decode error".to_owned(),
        }
    }
}

} // verus!
