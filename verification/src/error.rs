//! Failures of a reconciliation run.

use vstd::prelude::*;
use vstd::std_specs::convert::FromSpecImpl;
use vstd::string::to_string_from_display_ensures;
use vstd::string::StringExecFns;

verus! {

/// `std::io::Error`, carried through untouched: nothing here looks inside it.
#[verifier::external_type_specification]
#[verifier::external_body]
pub struct ExIoError(std::io::Error);

/// A failure inside the storage backend, kept as the message the backend's
/// own error displays.
#[derive(Debug)]
pub struct AdapterError {
    message: String,
}

impl AdapterError {
    /// The message as the wrapped error displayed it.
    pub closed spec fn shown(&self) -> String {
        self.message
    }

    /// The characters of the message.
    pub open spec fn text(&self) -> Seq<char> {
        self.shown()@
    }

    /// Wraps any error a backend raises, keeping what it displays.
    pub fn new<E>(err: E) -> (wrapped: Self) where E: std::error::Error + Send + Sync + 'static
        ensures
            to_string_from_display_ensures::<E>(&err, wrapped.shown()),
    {
        let message = err.to_string();
        Self { message }
    }

    /// The message of the wrapped error.
    pub fn message(&self) -> (text: String)
        ensures
            text@ == self.text(),
    {
        self.message.clone()
    }
}

/// Why a reconciliation run stopped.
#[derive(Debug)]
pub enum MigrationError {
    /// The backend failed.
    Adapter(AdapterError),
    /// The migrations directory or one of its files could not be read.
    Io(std::io::Error),
    /// A file that was already applied has changed since: its name, the
    /// checksum on record, the checksum of the file as it is now.
    ChecksumMismatch(String, String, String),
    /// A pending file, by name, whose bytes are not text.
    ReadFile(String),
}

impl MigrationError {
    /// The text of the message for a changed file.
    pub open spec fn mismatch_text(name: Seq<char>, expected: Seq<char>, found: Seq<char>) -> Seq<
        char,
    > {
        "Checksum mismatch for migration "@ + name + ". Expected "@ + expected + ", found "@
            + found
    }

    /// The human-readable message of the error.
    pub fn message(&self) -> (text: String)
        ensures
            self matches MigrationError::Adapter(e) ==> text@ == "Adapter error: "@ + e.text(),
            self matches MigrationError::Io(e) ==> exists|shown: String|
                #[trigger] to_string_from_display_ensures::<std::io::Error>(e, shown) && text@
                    == "I/O error: "@ + shown@,
            self matches MigrationError::ChecksumMismatch(name, expected, found) ==> text@
                == Self::mismatch_text(name@, expected@, found@),
            self matches MigrationError::ReadFile(name) ==> text@
                == "Failed to read migration file "@ + name@,
    {
        match self {
            MigrationError::Adapter(e) => {
                let inner = e.message();
                String::from_str("Adapter error: ").concat(inner.as_str())
            },
            MigrationError::Io(e) => {
                let inner = e.to_string();
                String::from_str("I/O error: ").concat(inner.as_str())
            },
            MigrationError::ChecksumMismatch(name, expected, found) => {
                let mut text = String::from_str("Checksum mismatch for migration ");
                text.append(name.as_str());
                text.append(". Expected ");
                text.append(expected.as_str());
                text.append(", found ");
                text.append(found.as_str());
                text
            },
            MigrationError::ReadFile(name) => {
                String::from_str("Failed to read migration file ").concat(name.as_str())
            },
        }
    }
}

impl From<AdapterError> for MigrationError {
    fn from(err: AdapterError) -> (wrapped: Self) {
        MigrationError::Adapter(err)
    }
}

impl FromSpecImpl<AdapterError> for MigrationError {
    open spec fn obeys_from_spec() -> bool {
        true
    }

    open spec fn from_spec(err: AdapterError) -> Self {
        MigrationError::Adapter(err)
    }
}

impl From<std::io::Error> for MigrationError {
    fn from(err: std::io::Error) -> (wrapped: Self) {
        MigrationError::Io(err)
    }
}

impl FromSpecImpl<std::io::Error> for MigrationError {
    open spec fn obeys_from_spec() -> bool {
        true
    }

    open spec fn from_spec(err: std::io::Error) -> Self {
        MigrationError::Io(err)
    }
}

} // verus!
