//! The single structured error of the engine: a kind plus a
//! human-readable message.

use vstd::prelude::*;
use vstd::string::StringExecFns;

verus! {

/// Everything that can go wrong, from malformed source bytes to a
/// failing pipeline step.  The first failing operation aborts the rest
/// of a pipeline; no partial result is ever returned.
#[derive(Debug, Clone)]
pub enum DoubledeckerError {
    // File upload errors
    FileUpload(String),
    MultipartError(String),
    InvalidFilePath,
    S3Error(String),
    // Source and table errors
    ParseError(String),
    ColumnNotFound(String),
    TableNotFound(String),
    // Query errors
    TypeError(String),
    QueryExecution(String),
    InvalidQuery(String),
    SerializationError(String),
    // Database errors
    DatabaseError(String),
    AuthenticationError(String),
    NotFound(String),
    Unauthorized,
    // General errors
    Internal(String),
    BadRequest(String),
}

/// The message an error renders to.
pub open spec fn spec_message(e: DoubledeckerError) -> Seq<char> {
    match e {
        DoubledeckerError::FileUpload(m) => "File upload error: "@ + m@,
        DoubledeckerError::MultipartError(m) => "Multipart error: "@ + m@,
        DoubledeckerError::InvalidFilePath => "Invalid file path"@,
        DoubledeckerError::S3Error(m) => "S3 error: "@ + m@,
        DoubledeckerError::ParseError(m) => "Parse error: "@ + m@,
        DoubledeckerError::ColumnNotFound(m) => "Column not found: "@ + m@,
        DoubledeckerError::TableNotFound(m) => "Table not found: "@ + m@,
        DoubledeckerError::TypeError(m) => "Type error: "@ + m@,
        DoubledeckerError::QueryExecution(m) => "Query execution error: "@ + m@,
        DoubledeckerError::InvalidQuery(m) => "Invalid query: "@ + m@,
        DoubledeckerError::SerializationError(m) => "Serialization error: "@ + m@,
        DoubledeckerError::DatabaseError(m) => "Database error: "@ + m@,
        DoubledeckerError::AuthenticationError(m) => "Authentication error: "@ + m@,
        DoubledeckerError::NotFound(m) => "Not found: "@ + m@,
        DoubledeckerError::Unauthorized => "Unauthorized"@,
        DoubledeckerError::Internal(m) => "Internal error: "@ + m@,
        DoubledeckerError::BadRequest(m) => "Bad request: "@ + m@,
    }
}

impl DoubledeckerError {
    /// Get the error message.
    pub fn message(&self) -> (r: String)
        ensures
            r@ == spec_message(*self),
    {
        match self {
            DoubledeckerError::FileUpload(m) => prefixed("File upload error: ", m),
            DoubledeckerError::MultipartError(m) => prefixed("Multipart error: ", m),
            DoubledeckerError::InvalidFilePath => ("Invalid file path").to_owned(),
            DoubledeckerError::S3Error(m) => prefixed("S3 error: ", m),
            DoubledeckerError::ParseError(m) => prefixed("Parse error: ", m),
            DoubledeckerError::ColumnNotFound(m) => prefixed("Column not found: ", m),
            DoubledeckerError::TableNotFound(m) => prefixed("Table not found: ", m),
            DoubledeckerError::TypeError(m) => prefixed("Type error: ", m),
            DoubledeckerError::QueryExecution(m) => prefixed("Query execution error: ", m),
            DoubledeckerError::InvalidQuery(m) => prefixed("Invalid query: ", m),
            DoubledeckerError::SerializationError(m) => prefixed("Serialization error: ", m),
            DoubledeckerError::DatabaseError(m) => prefixed("Database error: ", m),
            DoubledeckerError::AuthenticationError(m) => prefixed("Authentication error: ", m),
            DoubledeckerError::NotFound(m) => prefixed("Not found: ", m),
            DoubledeckerError::Unauthorized => ("Unauthorized").to_owned(),
            DoubledeckerError::Internal(m) => prefixed("Internal error: ", m),
            DoubledeckerError::BadRequest(m) => prefixed("Bad request: ", m),
        }
    }
}

/// A prefix followed by a message.
fn prefixed(prefix: &str, msg: &String) -> (r: String)
    ensures
        r@ == prefix@ + msg@,
{
    let mut s = prefix.to_owned();
    s.append(msg.as_str());
    s
}

} // verus!
