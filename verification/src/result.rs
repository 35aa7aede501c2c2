//! Errors of the embedded SDK.

use vstd::prelude::*;

verus! {

/// `std::io::Error`, carried through the library without being inspected.
#[verifier::external_type_specification]
#[verifier::external_body]
pub struct ExIoError(std::io::Error);

/// SDK result type.
pub type SdkResult<T> = Result<T, SdkError>;

/// SDK error types: clean, user-friendly errors.
#[derive(Debug)]
pub enum SdkError {
    /// Database file not found
    DatabaseNotFound(String),
    /// Database already exists
    DatabaseAlreadyExists(String),
    /// Table not found
    TableNotFound(String),
    /// Table already exists
    TableAlreadyExists(String),
    /// Document/record not found
    DocumentNotFound(String),
    /// Invalid SQL query
    InvalidQuery(String),
    /// I/O error (file operations)
    IoError(std::io::Error),
    /// Serialization/deserialization error
    SerializationError(String),
    /// Constraint violation (unique, foreign key, etc.)
    ConstraintViolation(String),
    /// Transaction error
    TransactionError(String),
    /// Database is closed
    DatabaseClosed,
    /// Internal engine error
    Internal(String),
    /// A request was refused for security reasons (unsafe query parameter, missing key, ...)
    SecurityError(String),
    /// A backup could not be written
    BackupError(String),
}

/// The text of an I/O error, as its `Display` writes it.
#[verifier::external_body]
pub(crate) fn io_error_text(e: &std::io::Error) -> String {
    e.to_string()
}

/// `a` followed by `b`.
pub fn concat_str(a: &str, b: &str) -> (r: String)
    ensures
        r@ == a@ + b@,
{
    let mut s = String::from_str(a);
    s.append(b);
    s
}

impl SdkError {
    /// The prefix of the message of a variant that carries text, and that text.
    pub open spec fn text_parts(&self) -> Option<(Seq<char>, Seq<char>)> {
        match self {
            SdkError::DatabaseNotFound(p) => Some(("Database not found: "@, p@)),
            SdkError::DatabaseAlreadyExists(p) => Some(("Database already exists: "@, p@)),
            SdkError::TableNotFound(t) => Some(("Table not found: "@, t@)),
            SdkError::TableAlreadyExists(t) => Some(("Table already exists: "@, t@)),
            SdkError::DocumentNotFound(id) => Some(("Document not found: "@, id@)),
            SdkError::InvalidQuery(q) => Some(("Invalid query: "@, q@)),
            SdkError::SerializationError(e) => Some(("Serialization error: "@, e@)),
            SdkError::ConstraintViolation(c) => Some(("Constraint violation: "@, c@)),
            SdkError::TransactionError(e) => Some(("Transaction error: "@, e@)),
            SdkError::Internal(e) => Some(("Internal error: "@, e@)),
            SdkError::SecurityError(e) => Some(("Security error: "@, e@)),
            SdkError::BackupError(e) => Some(("Backup error: "@, e@)),
            _ => None,
        }
    }

    /// The user-facing message of this error.
    /// For an I/O error it is `I/O error: ` followed by the I/O error's own text.
    pub fn message(&self) -> (r: String)
        ensures
            self.text_parts() matches Some((p, t)) ==> r@ == p + t,
            self is DatabaseClosed ==> r@ == "Database is closed"@,
            self is IoError ==> "I/O error: "@.is_prefix_of(r@),
    {
        match self {
            SdkError::DatabaseNotFound(p) => concat_str("Database not found: ", p.as_str()),
            SdkError::DatabaseAlreadyExists(p) => concat_str(
                "Database already exists: ",
                p.as_str(),
            ),
            SdkError::TableNotFound(t) => concat_str("Table not found: ", t.as_str()),
            SdkError::TableAlreadyExists(t) => concat_str("Table already exists: ", t.as_str()),
            SdkError::DocumentNotFound(id) => concat_str("Document not found: ", id.as_str()),
            SdkError::InvalidQuery(q) => concat_str("Invalid query: ", q.as_str()),
            SdkError::IoError(e) => {
                let t = io_error_text(e);
                let r = concat_str("I/O error: ", t.as_str());
                assert("I/O error: "@.is_prefix_of(r@)) by {
                    assert(r@.subrange(0, "I/O error: "@.len() as int) =~= "I/O error: "@);
                }
                r
            },
            SdkError::SerializationError(e) => concat_str("Serialization error: ", e.as_str()),
            SdkError::ConstraintViolation(c) => concat_str("Constraint violation: ", c.as_str()),
            SdkError::TransactionError(e) => concat_str("Transaction error: ", e.as_str()),
            SdkError::DatabaseClosed => String::from_str("Database is closed"),
            SdkError::Internal(e) => concat_str("Internal error: ", e.as_str()),
            SdkError::SecurityError(e) => concat_str("Security error: ", e.as_str()),
            SdkError::BackupError(e) => concat_str("Backup error: ", e.as_str()),
        }
    }
}

impl From<std::io::Error> for SdkError {
    fn from(e: std::io::Error) -> (r: Self) {
        SdkError::IoError(e)
    }
}

impl vstd::std_specs::convert::FromSpecImpl<std::io::Error> for SdkError {
    open spec fn obeys_from_spec() -> bool {
        true
    }

    open spec fn from_spec(e: std::io::Error) -> Self {
        SdkError::IoError(e)
    }
}

impl From<serde_json::Error> for SdkError {
    /// A JSON error becomes a `SerializationError` carrying the JSON error's text.
    fn from(e: serde_json::Error) -> (r: Self)
        ensures
            r is SerializationError,
    {
        SdkError::SerializationError(crate::client::errors::json_error_text(&e))
    }
}

impl vstd::std_specs::convert::FromSpecImpl<serde_json::Error> for SdkError {
    /// The text of a JSON error is not modelled, so `from` is described on the impl above.
    open spec fn obeys_from_spec() -> bool {
        false
    }

    open spec fn from_spec(e: serde_json::Error) -> Self {
        arbitrary()
    }
}

} // verus!
