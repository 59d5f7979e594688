//! The error type of the library.
use crate::text::concat2;
use vstd::prelude::*;

verus! {

/// Everything that can go wrong.
#[derive(Debug)]
pub enum LazarusError {
    Io(String),
    Storage(String),
    EncryptionError(String),
    DatabaseError(String),
    SerializationError(String),
    VerificationFailed(String),
    Unknown,
}

impl LazarusError {
    /// The text that the error carries.
    pub open spec fn detail(self) -> Seq<char> {
        match self {
            LazarusError::Io(m) => m@,
            LazarusError::Storage(m) => m@,
            LazarusError::EncryptionError(m) => m@,
            LazarusError::DatabaseError(m) => m@,
            LazarusError::SerializationError(m) => m@,
            LazarusError::VerificationFailed(m) => m@,
            LazarusError::Unknown => Seq::empty(),
        }
    }

    /// What stands before that text in a message.
    pub open spec fn heading(self) -> Seq<char> {
        match self {
            LazarusError::Io(_) => "I/O error: "@,
            LazarusError::Storage(_) => "Storage backend error: "@,
            LazarusError::EncryptionError(_) => "Encryption error: "@,
            LazarusError::DatabaseError(_) => "Database error: "@,
            LazarusError::SerializationError(_) => "Serialization error: "@,
            LazarusError::VerificationFailed(_) => "Verification failed: "@,
            LazarusError::Unknown => "Unknown error"@,
        }
    }

    /// The message for a reader.
    pub fn describe(&self) -> (out: String)
        ensures
            out@ == self.heading() + self.detail(),
    {
        match self {
            LazarusError::Io(m) => concat2("I/O error: ", m.as_str()),
            LazarusError::Storage(m) => concat2("Storage backend error: ", m.as_str()),
            LazarusError::EncryptionError(m) => concat2("Encryption error: ", m.as_str()),
            LazarusError::DatabaseError(m) => concat2("Database error: ", m.as_str()),
            LazarusError::SerializationError(m) => concat2("Serialization error: ", m.as_str()),
            LazarusError::VerificationFailed(m) => concat2("Verification failed: ", m.as_str()),
            LazarusError::Unknown => {
                let empty = String::new();
                concat2("Unknown error", empty.as_str())
            },
        }
    }
}

/// How each kind of error begins when it is shown.
pub proof fn errors_are_headed(m: String)
    ensures
        LazarusError::Io(m).heading() == "I/O error: "@,
        LazarusError::Storage(m).heading() == "Storage backend error: "@,
        LazarusError::EncryptionError(m).heading() == "Encryption error: "@,
        LazarusError::DatabaseError(m).heading() == "Database error: "@,
        LazarusError::SerializationError(m).heading() == "Serialization error: "@,
        LazarusError::VerificationFailed(m).heading() == "Verification failed: "@,
        LazarusError::Unknown.heading() == "Unknown error"@,
        LazarusError::Io(m).detail() == m@,
        LazarusError::Storage(m).detail() == m@,
        LazarusError::EncryptionError(m).detail() == m@,
        LazarusError::DatabaseError(m).detail() == m@,
        LazarusError::SerializationError(m).detail() == m@,
        LazarusError::VerificationFailed(m).detail() == m@,
{
}

} // verus!
