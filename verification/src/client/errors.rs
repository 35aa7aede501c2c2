//! Errors of the client SDK and their classification.

use vstd::prelude::*;
use vstd::std_specs::convert::IntoSpec;
use crate::result::{concat_str, io_error_text};
use crate::text::{decimal, usize_to_text};

verus! {

/// `serde_json::Error`, carried through the library without being inspected.
#[verifier::external_type_specification]
#[verifier::external_body]
pub struct ExJsonError(serde_json::Error);

/// The text of a JSON error, as its `Display` writes it.
#[verifier::external_body]
pub(crate) fn json_error_text(e: &serde_json::Error) -> String {
    e.to_string()
}

/// What a failed C-string conversion reports: where the NUL byte was, and the bytes.
#[derive(Debug, Clone)]
pub struct NulByteError {
    /// Position of the first NUL byte
    pub nul_position: usize,
    /// The bytes that held it
    pub bytes: Vec<u8>,
}

/// Result type alias
pub type Result<T> = core::result::Result<T, OverDriveError>;

/// OverDrive-DB error types
#[derive(Debug)]
pub enum OverDriveError {
    /// Database operation error
    DatabaseError(String),
    /// Query execution error
    QueryError(String),
    /// Transaction error
    TransactionError(String),
    /// Authentication/authorization error
    AuthError(String),
    /// Table operation error
    TableError(String),
    /// I/O error
    IoError(String),
    /// Native library loading error
    LibraryError(String),
    /// JSON serialization/deserialization error
    JsonError(serde_json::Error),
    /// String conversion error
    StringError(NulByteError),
    /// Invalid parameter error
    InvalidParameter(String),
    /// Connection error
    ConnectionError(String),
    /// Timeout error
    TimeoutError(String),
    /// Constraint violation error
    ConstraintError(String),
    /// Index error
    IndexError(String),
    /// Encryption/decryption error
    EncryptionError(String),
    /// Version mismatch error
    VersionError(String),
    /// Generic error
    Other(String),
}

/// Whether `e` carries the text that `msg` converts into.
pub open spec fn carries<S: Into<String>>(text: String, msg: S) -> bool {
    S::obeys_into_spec() ==> text == msg.into_spec()
}

impl OverDriveError {
    /// Create a database error
    pub fn database<S: Into<String>>(msg: S) -> (r: Self)
        ensures
            r matches OverDriveError::DatabaseError(t) && carries(t, msg),
    {
        OverDriveError::DatabaseError(msg.into())
    }

    /// Create a query error
    pub fn query<S: Into<String>>(msg: S) -> (r: Self)
        ensures
            r matches OverDriveError::QueryError(t) && carries(t, msg),
    {
        OverDriveError::QueryError(msg.into())
    }

    /// Create a transaction error
    pub fn transaction<S: Into<String>>(msg: S) -> (r: Self)
        ensures
            r matches OverDriveError::TransactionError(t) && carries(t, msg),
    {
        OverDriveError::TransactionError(msg.into())
    }

    /// Create an authentication error
    pub fn auth<S: Into<String>>(msg: S) -> (r: Self)
        ensures
            r matches OverDriveError::AuthError(t) && carries(t, msg),
    {
        OverDriveError::AuthError(msg.into())
    }

    /// Create a table error
    pub fn table<S: Into<String>>(msg: S) -> (r: Self)
        ensures
            r matches OverDriveError::TableError(t) && carries(t, msg),
    {
        OverDriveError::TableError(msg.into())
    }

    /// Create an I/O error
    pub fn io<S: Into<String>>(msg: S) -> (r: Self)
        ensures
            r matches OverDriveError::IoError(t) && carries(t, msg),
    {
        OverDriveError::IoError(msg.into())
    }

    /// Create a library error
    pub fn library<S: Into<String>>(msg: S) -> (r: Self)
        ensures
            r matches OverDriveError::LibraryError(t) && carries(t, msg),
    {
        OverDriveError::LibraryError(msg.into())
    }

    /// Create an invalid parameter error
    pub fn invalid_parameter<S: Into<String>>(msg: S) -> (r: Self)
        ensures
            r matches OverDriveError::InvalidParameter(t) && carries(t, msg),
    {
        OverDriveError::InvalidParameter(msg.into())
    }

    /// Create a connection error
    pub fn connection<S: Into<String>>(msg: S) -> (r: Self)
        ensures
            r matches OverDriveError::ConnectionError(t) && carries(t, msg),
    {
        OverDriveError::ConnectionError(msg.into())
    }

    /// Create a timeout error
    pub fn timeout<S: Into<String>>(msg: S) -> (r: Self)
        ensures
            r matches OverDriveError::TimeoutError(t) && carries(t, msg),
    {
        OverDriveError::TimeoutError(msg.into())
    }

    /// Create a constraint error
    pub fn constraint<S: Into<String>>(msg: S) -> (r: Self)
        ensures
            r matches OverDriveError::ConstraintError(t) && carries(t, msg),
    {
        OverDriveError::ConstraintError(msg.into())
    }

    /// Create an index error
    pub fn index<S: Into<String>>(msg: S) -> (r: Self)
        ensures
            r matches OverDriveError::IndexError(t) && carries(t, msg),
    {
        OverDriveError::IndexError(msg.into())
    }

    /// Create an encryption error
    pub fn encryption<S: Into<String>>(msg: S) -> (r: Self)
        ensures
            r matches OverDriveError::EncryptionError(t) && carries(t, msg),
    {
        OverDriveError::EncryptionError(msg.into())
    }

    /// Create a version error
    pub fn version<S: Into<String>>(msg: S) -> (r: Self)
        ensures
            r matches OverDriveError::VersionError(t) && carries(t, msg),
    {
        OverDriveError::VersionError(msg.into())
    }

    /// Create a generic error
    pub fn other<S: Into<String>>(msg: S) -> (r: Self)
        ensures
            r matches OverDriveError::Other(t) && carries(t, msg),
    {
        OverDriveError::Other(msg.into())
    }

    /// The category of an error.
    pub open spec fn spec_category(&self) -> ErrorCategory {
        match self {
            OverDriveError::DatabaseError(_) => ErrorCategory::Database,
            OverDriveError::QueryError(_) => ErrorCategory::Query,
            OverDriveError::TransactionError(_) => ErrorCategory::Transaction,
            OverDriveError::AuthError(_) => ErrorCategory::Authentication,
            OverDriveError::TableError(_) => ErrorCategory::Table,
            OverDriveError::IoError(_) => ErrorCategory::Io,
            OverDriveError::LibraryError(_) => ErrorCategory::Library,
            OverDriveError::JsonError(_) => ErrorCategory::Serialization,
            OverDriveError::StringError(_) => ErrorCategory::Serialization,
            OverDriveError::InvalidParameter(_) => ErrorCategory::Parameter,
            OverDriveError::ConnectionError(_) => ErrorCategory::Connection,
            OverDriveError::TimeoutError(_) => ErrorCategory::Timeout,
            OverDriveError::ConstraintError(_) => ErrorCategory::Constraint,
            OverDriveError::IndexError(_) => ErrorCategory::Index,
            OverDriveError::EncryptionError(_) => ErrorCategory::Encryption,
            OverDriveError::VersionError(_) => ErrorCategory::Version,
            OverDriveError::Other(_) => ErrorCategory::Other,
        }
    }

    /// Get error category
    pub fn category(&self) -> (r: ErrorCategory)
        ensures
            r == self.spec_category(),
    {
        match self {
            OverDriveError::DatabaseError(_) => ErrorCategory::Database,
            OverDriveError::QueryError(_) => ErrorCategory::Query,
            OverDriveError::TransactionError(_) => ErrorCategory::Transaction,
            OverDriveError::AuthError(_) => ErrorCategory::Authentication,
            OverDriveError::TableError(_) => ErrorCategory::Table,
            OverDriveError::IoError(_) => ErrorCategory::Io,
            OverDriveError::LibraryError(_) => ErrorCategory::Library,
            OverDriveError::JsonError(_) => ErrorCategory::Serialization,
            OverDriveError::StringError(_) => ErrorCategory::Serialization,
            OverDriveError::InvalidParameter(_) => ErrorCategory::Parameter,
            OverDriveError::ConnectionError(_) => ErrorCategory::Connection,
            OverDriveError::TimeoutError(_) => ErrorCategory::Timeout,
            OverDriveError::ConstraintError(_) => ErrorCategory::Constraint,
            OverDriveError::IndexError(_) => ErrorCategory::Index,
            OverDriveError::EncryptionError(_) => ErrorCategory::Encryption,
            OverDriveError::VersionError(_) => ErrorCategory::Version,
            OverDriveError::Other(_) => ErrorCategory::Other,
        }
    }

    /// Whether an error may go away when the operation is retried.
    pub open spec fn spec_is_recoverable(&self) -> bool {
        self is TimeoutError || self is ConnectionError || self is TransactionError
            || self is ConstraintError
    }

    /// Whether an error is temporary.
    pub open spec fn spec_is_temporary(&self) -> bool {
        self is TimeoutError || self is ConnectionError
    }

    /// Check if error is recoverable
    pub fn is_recoverable(&self) -> (r: bool)
        ensures
            r == self.spec_is_recoverable(),
    {
        match self {
            OverDriveError::TimeoutError(_) => true,
            OverDriveError::ConnectionError(_) => true,
            OverDriveError::TransactionError(_) => true,
            OverDriveError::ConstraintError(_) => true,
            _ => false,
        }
    }

    /// Check if error is temporary
    pub fn is_temporary(&self) -> (r: bool)
        ensures
            r == self.spec_is_temporary(),
    {
        match self {
            OverDriveError::TimeoutError(_) => true,
            OverDriveError::ConnectionError(_) => true,
            _ => false,
        }
    }

    /// The prefix and text of the message of a variant that carries text.
    pub open spec fn text_parts(&self) -> Option<(Seq<char>, Seq<char>)> {
        match self {
            OverDriveError::DatabaseError(s) => Some(("Database error: "@, s@)),
            OverDriveError::QueryError(s) => Some(("Query error: "@, s@)),
            OverDriveError::TransactionError(s) => Some(("Transaction error: "@, s@)),
            OverDriveError::AuthError(s) => Some(("Authentication error: "@, s@)),
            OverDriveError::TableError(s) => Some(("Table error: "@, s@)),
            OverDriveError::IoError(s) => Some(("I/O error: "@, s@)),
            OverDriveError::LibraryError(s) => Some(("Library error: "@, s@)),
            OverDriveError::StringError(e) => Some(
                (
                    "String conversion error: "@,
                    "nul byte found in provided data at position: "@ + decimal(
                        e.nul_position as nat,
                    ),
                ),
            ),
            OverDriveError::InvalidParameter(s) => Some(("Invalid parameter: "@, s@)),
            OverDriveError::ConnectionError(s) => Some(("Connection error: "@, s@)),
            OverDriveError::TimeoutError(s) => Some(("Operation timed out: "@, s@)),
            OverDriveError::ConstraintError(s) => Some(("Constraint violation: "@, s@)),
            OverDriveError::IndexError(s) => Some(("Index error: "@, s@)),
            OverDriveError::EncryptionError(s) => Some(("Encryption error: "@, s@)),
            OverDriveError::VersionError(s) => Some(("Version mismatch: "@, s@)),
            OverDriveError::Other(s) => Some(("Error: "@, s@)),
            OverDriveError::JsonError(_) => None,
        }
    }

    /// The user-facing message of this error (what the client's error displays); for a
    /// JSON error it is `JSON error: ` followed by the JSON error's own text.
    pub fn message(&self) -> (r: String)
        ensures
            self.text_parts() matches Some((p, t)) ==> r@ == p + t,
            self is JsonError ==> "JSON error: "@.is_prefix_of(r@),
    {
        match self {
            OverDriveError::DatabaseError(s) => concat_str("Database error: ", s.as_str()),
            OverDriveError::QueryError(s) => concat_str("Query error: ", s.as_str()),
            OverDriveError::TransactionError(s) => concat_str("Transaction error: ", s.as_str()),
            OverDriveError::AuthError(s) => concat_str("Authentication error: ", s.as_str()),
            OverDriveError::TableError(s) => concat_str("Table error: ", s.as_str()),
            OverDriveError::IoError(s) => concat_str("I/O error: ", s.as_str()),
            OverDriveError::LibraryError(s) => concat_str("Library error: ", s.as_str()),
            OverDriveError::JsonError(e) => {
                let t = json_error_text(e);
                let r = concat_str("JSON error: ", t.as_str());
                assert(r@.subrange(0, "JSON error: "@.len() as int) =~= "JSON error: "@);
                r
            },
            OverDriveError::StringError(e) => {
                let pos = usize_to_text(e.nul_position);
                let detail = concat_str(
                    "nul byte found in provided data at position: ",
                    pos.as_str(),
                );
                concat_str("String conversion error: ", detail.as_str())
            },
            OverDriveError::InvalidParameter(s) => concat_str("Invalid parameter: ", s.as_str()),
            OverDriveError::ConnectionError(s) => concat_str("Connection error: ", s.as_str()),
            OverDriveError::TimeoutError(s) => concat_str("Operation timed out: ", s.as_str()),
            OverDriveError::ConstraintError(s) => concat_str("Constraint violation: ", s.as_str()),
            OverDriveError::IndexError(s) => concat_str("Index error: ", s.as_str()),
            OverDriveError::EncryptionError(s) => concat_str("Encryption error: ", s.as_str()),
            OverDriveError::VersionError(s) => concat_str("Version mismatch: ", s.as_str()),
            OverDriveError::Other(s) => concat_str("Error: ", s.as_str()),
        }
    }
}

/// Error categories for classification
#[derive(Debug, Clone, Copy, PartialEq, Eq, Structural)]
pub enum ErrorCategory {
    /// Database-level errors
    Database,
    /// Query execution errors
    Query,
    /// Transaction errors
    Transaction,
    /// Authentication/authorization errors
    Authentication,
    /// Table operation errors
    Table,
    /// I/O errors
    Io,
    /// Native library errors
    Library,
    /// Serialization errors
    Serialization,
    /// Parameter validation errors
    Parameter,
    /// Connection errors
    Connection,
    /// Timeout errors
    Timeout,
    /// Constraint violation errors
    Constraint,
    /// Index errors
    Index,
    /// Encryption errors
    Encryption,
    /// Version compatibility errors
    Version,
    /// Other errors
    Other,
}

impl ErrorCategory {
    /// The name of a category.
    pub open spec fn name(&self) -> Seq<char> {
        match self {
            ErrorCategory::Database => "database"@,
            ErrorCategory::Query => "query"@,
            ErrorCategory::Transaction => "transaction"@,
            ErrorCategory::Authentication => "authentication"@,
            ErrorCategory::Table => "table"@,
            ErrorCategory::Io => "io"@,
            ErrorCategory::Library => "library"@,
            ErrorCategory::Serialization => "serialization"@,
            ErrorCategory::Parameter => "parameter"@,
            ErrorCategory::Connection => "connection"@,
            ErrorCategory::Timeout => "timeout"@,
            ErrorCategory::Constraint => "constraint"@,
            ErrorCategory::Index => "index"@,
            ErrorCategory::Encryption => "encryption"@,
            ErrorCategory::Version => "version"@,
            ErrorCategory::Other => "other"@,
        }
    }

    /// Get category name as string
    pub fn as_str(&self) -> (r: &'static str)
        ensures
            r@ == self.name(),
    {
        match self {
            ErrorCategory::Database => "database",
            ErrorCategory::Query => "query",
            ErrorCategory::Transaction => "transaction",
            ErrorCategory::Authentication => "authentication",
            ErrorCategory::Table => "table",
            ErrorCategory::Io => "io",
            ErrorCategory::Library => "library",
            ErrorCategory::Serialization => "serialization",
            ErrorCategory::Parameter => "parameter",
            ErrorCategory::Connection => "connection",
            ErrorCategory::Timeout => "timeout",
            ErrorCategory::Constraint => "constraint",
            ErrorCategory::Index => "index",
            ErrorCategory::Encryption => "encryption",
            ErrorCategory::Version => "version",
            ErrorCategory::Other => "other",
        }
    }
}

impl From<serde_json::Error> for OverDriveError {
    fn from(e: serde_json::Error) -> (r: Self) {
        OverDriveError::JsonError(e)
    }
}

impl vstd::std_specs::convert::FromSpecImpl<serde_json::Error> for OverDriveError {
    open spec fn obeys_from_spec() -> bool {
        true
    }

    open spec fn from_spec(e: serde_json::Error) -> Self {
        OverDriveError::JsonError(e)
    }
}

impl From<NulByteError> for OverDriveError {
    fn from(e: NulByteError) -> (r: Self) {
        OverDriveError::StringError(e)
    }
}

impl vstd::std_specs::convert::FromSpecImpl<NulByteError> for OverDriveError {
    open spec fn obeys_from_spec() -> bool {
        true
    }

    open spec fn from_spec(e: NulByteError) -> Self {
        OverDriveError::StringError(e)
    }
}

impl From<std::io::Error> for OverDriveError {
    /// An I/O error becomes an `IoError` carrying the I/O error's text.
    fn from(e: std::io::Error) -> (r: Self)
        ensures
            r is IoError,
    {
        OverDriveError::IoError(io_error_text(&e))
    }
}

impl vstd::std_specs::convert::FromSpecImpl<std::io::Error> for OverDriveError {
    /// What `from` gives is stated on the impl itself: the text of an I/O error is not
    /// modelled.
    open spec fn obeys_from_spec() -> bool {
        false
    }

    open spec fn from_spec(e: std::io::Error) -> Self {
        arbitrary()
    }
}

/// A temporary error is always one worth retrying.
pub proof fn law_temporary_is_recoverable(e: OverDriveError)
    ensures
        e.spec_is_temporary() ==> e.spec_is_recoverable(),
{
}

/// Distinct categories have distinct names.
pub proof fn law_category_names_distinct(a: ErrorCategory, b: ErrorCategory)
    ensures
        a.name() == b.name() ==> a == b,
{
    reveal_strlit("database");
    reveal_strlit("query");
    reveal_strlit("transaction");
    reveal_strlit("authentication");
    reveal_strlit("table");
    reveal_strlit("io");
    reveal_strlit("library");
    reveal_strlit("serialization");
    reveal_strlit("parameter");
    reveal_strlit("connection");
    reveal_strlit("timeout");
    reveal_strlit("constraint");
    reveal_strlit("index");
    reveal_strlit("encryption");
    reveal_strlit("version");
    reveal_strlit("other");
    if a.name() == b.name() {
        let n = a.name();
        assert(n.len() == b.name().len() && n[0] == b.name()[0]);
        if n.len() == 10 {
            assert(n[3] == b.name()[3]);
        }
    }
}

} // verus!
