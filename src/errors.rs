use vstd::prelude::*;

verus! {

/// Every way a vault operation can fail.
#[derive(Debug, Clone, Copy, PartialEq, Eq, Structural)]
pub enum PasswordError {
    /// The ciphertext has a bad length or bad padding (wrong passphrase or damaged data).
    DecryptionError,
    /// The key or the IV handed to the cipher has the wrong length.
    EncryptionError,
    /// No record carries the requested name.
    NotFoundError,
    /// A record with the requested name already exists.
    ConflictError,
    /// A name or a secret value was empty.
    EmptyValueError,
    /// The container is too short, or the decrypted payload is not a record collection.
    InvalidFormat,
    /// The operating system could not supply random bytes.
    Io,
}

impl PasswordError {
    /// A short human-readable description of the error.
    pub fn message(&self) -> (r: &'static str)
        ensures
            match self {
                PasswordError::DecryptionError => r@ == "decryption error"@,
                PasswordError::EncryptionError => r@ == "encryption error"@,
                PasswordError::NotFoundError => r@ == "password not found"@,
                PasswordError::ConflictError => r@ == "password already exists"@,
                PasswordError::EmptyValueError => r@ == "password can't be empty"@,
                PasswordError::InvalidFormat => r@ == "invalid vault format"@,
                PasswordError::Io => r@ == "i/o error"@,
            },
    {
        match self {
            PasswordError::DecryptionError => "decryption error",
            PasswordError::EncryptionError => "encryption error",
            PasswordError::NotFoundError => "password not found",
            PasswordError::ConflictError => "password already exists",
            PasswordError::EmptyValueError => "password can't be empty",
            PasswordError::InvalidFormat => "invalid vault format",
            PasswordError::Io => "i/o error",
        }
    }
}

} // verus!
