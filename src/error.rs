use vstd::prelude::*;

verus! {

/// Declares `data_encoding::DecodeError` so that a decoding failure can be
/// carried inside the library's own error.
#[verifier::external_type_specification]
#[verifier::external_body]
pub struct ExDecodeError(data_encoding::DecodeError);

/// The failures of this library.
#[derive(Debug)]
pub enum Error {
    /// The secret is not an unpadded base32 string.
    KeyDecode { key: String, cause: Box<data_encoding::DecodeError> },
    /// The text has no envelope header, or its framing is malformed.
    FileNotEncrypted,
    /// The password does not match the one the envelope was made with.
    WrongPassword,
    /// The sealed data did not authenticate.
    DecryptionError,
    /// Sealing failed, or no random bytes could be drawn for it.
    EncryptionError,
}

} // verus!
