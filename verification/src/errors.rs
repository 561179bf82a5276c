//! Error taxonomy with structured, actionable messages.

use vstd::prelude::*;

verus! {

/// Every failure the transfer engine reports.
#[derive(Debug)]
pub enum SeyfrError {
    Io { details: String },
    InvalidTicket { details: String },
    Network { details: String },
    Store { details: String },
    Cancelled,
    FileNotFound { path: String },
    NotADirectory { path: String },
    EmptyFolder { path: String },
    Timeout,
    Internal { details: String },
    PathTraversal { path: String, details: String },
    InvalidPath { details: String },
}

/// The mathematical model of an error: the same variants, with texts as
/// character sequences.
pub enum ErrorModel {
    Io { details: Seq<char> },
    InvalidTicket { details: Seq<char> },
    Network { details: Seq<char> },
    Store { details: Seq<char> },
    Cancelled,
    FileNotFound { path: Seq<char> },
    NotADirectory { path: Seq<char> },
    EmptyFolder { path: Seq<char> },
    Timeout,
    Internal { details: Seq<char> },
    PathTraversal { path: Seq<char>, details: Seq<char> },
    InvalidPath { details: Seq<char> },
}

impl View for SeyfrError {
    type V = ErrorModel;

    open spec fn view(&self) -> ErrorModel {
        match self {
            SeyfrError::Io { details } => ErrorModel::Io { details: details@ },
            SeyfrError::InvalidTicket { details } => ErrorModel::InvalidTicket { details: details@ },
            SeyfrError::Network { details } => ErrorModel::Network { details: details@ },
            SeyfrError::Store { details } => ErrorModel::Store { details: details@ },
            SeyfrError::Cancelled => ErrorModel::Cancelled,
            SeyfrError::FileNotFound { path } => ErrorModel::FileNotFound { path: path@ },
            SeyfrError::NotADirectory { path } => ErrorModel::NotADirectory { path: path@ },
            SeyfrError::EmptyFolder { path } => ErrorModel::EmptyFolder { path: path@ },
            SeyfrError::Timeout => ErrorModel::Timeout,
            SeyfrError::Internal { details } => ErrorModel::Internal { details: details@ },
            SeyfrError::PathTraversal { path, details } => ErrorModel::PathTraversal {
                path: path@,
                details: details@,
            },
            SeyfrError::InvalidPath { details } => ErrorModel::InvalidPath { details: details@ },
        }
    }
}

/// A result whose value and error are both taken by their views.
pub open spec fn view_result<T: View>(r: Result<T, SeyfrError>) -> Result<T::V, ErrorModel> {
    match r {
        Ok(v) => Ok(v@),
        Err(e) => Err(e@),
    }
}

/// The stable numeric code of each kind of error.
pub open spec fn error_code(e: ErrorModel) -> u16 {
    match e {
        ErrorModel::Io { .. } => 1001,
        ErrorModel::InvalidTicket { .. } => 2001,
        ErrorModel::Network { .. } => 3001,
        ErrorModel::Store { .. } => 4001,
        ErrorModel::Cancelled => 5001,
        ErrorModel::FileNotFound { .. } => 1002,
        ErrorModel::NotADirectory { .. } => 1003,
        ErrorModel::EmptyFolder { .. } => 1004,
        ErrorModel::Timeout => 3002,
        ErrorModel::Internal { .. } => 9001,
        ErrorModel::PathTraversal { .. } => 1005,
        ErrorModel::InvalidPath { .. } => 1006,
    }
}

/// The position of the variant in the declaration, which names its kind.
pub open spec fn error_kind(e: ErrorModel) -> int {
    match e {
        ErrorModel::Io { .. } => 0,
        ErrorModel::InvalidTicket { .. } => 1,
        ErrorModel::Network { .. } => 2,
        ErrorModel::Store { .. } => 3,
        ErrorModel::Cancelled => 4,
        ErrorModel::FileNotFound { .. } => 5,
        ErrorModel::NotADirectory { .. } => 6,
        ErrorModel::EmptyFolder { .. } => 7,
        ErrorModel::Timeout => 8,
        ErrorModel::Internal { .. } => 9,
        ErrorModel::PathTraversal { .. } => 10,
        ErrorModel::InvalidPath { .. } => 11,
    }
}

/// The human-readable text of an error, as shown to the user.
pub open spec fn error_message(e: ErrorModel) -> Seq<char> {
    match e {
        ErrorModel::Io { details } => "io error: "@ + details,
        ErrorModel::InvalidTicket { details } => "invalid ticket: "@ + details,
        ErrorModel::Network { details } => "network error: "@ + details,
        ErrorModel::Store { details } => "store error: "@ + details,
        ErrorModel::Cancelled => "transfer cancelled"@,
        ErrorModel::FileNotFound { path } => "file not found: "@ + path,
        ErrorModel::NotADirectory { path } => "not a directory: "@ + path,
        ErrorModel::EmptyFolder { path } => "empty folder: "@ + path,
        ErrorModel::Timeout => "transfer timeout"@,
        ErrorModel::Internal { details } => "internal error: "@ + details,
        ErrorModel::PathTraversal { path, details } =>
            "path traversal attempt: "@ + path + " - "@ + details,
        ErrorModel::InvalidPath { details } => "invalid path: "@ + details,
    }
}

/// Text made of a fixed prefix and a detail string.
fn prefixed(prefix: &str, rest: &String) -> (r: String)
    ensures
        r@ == prefix@ + rest@,
{
    let mut s = String::from_str(prefix);
    s.append(rest.as_str());
    s
}

impl SeyfrError {
    /// The numeric code of this error.
    pub fn code(&self) -> (r: u16)
        ensures
            r == error_code(self@),
    {
        match self {
            SeyfrError::Io { .. } => 1001,
            SeyfrError::InvalidTicket { .. } => 2001,
            SeyfrError::Network { .. } => 3001,
            SeyfrError::Store { .. } => 4001,
            SeyfrError::Cancelled => 5001,
            SeyfrError::FileNotFound { .. } => 1002,
            SeyfrError::NotADirectory { .. } => 1003,
            SeyfrError::EmptyFolder { .. } => 1004,
            SeyfrError::Timeout => 3002,
            SeyfrError::Internal { .. } => 9001,
            SeyfrError::PathTraversal { .. } => 1005,
            SeyfrError::InvalidPath { .. } => 1006,
        }
    }

    /// The human-readable text of this error.
    pub fn message(&self) -> (r: String)
        ensures
            r@ == error_message(self@),
    {
        match self {
            SeyfrError::Io { details } => prefixed("io error: ", details),
            SeyfrError::InvalidTicket { details } => prefixed("invalid ticket: ", details),
            SeyfrError::Network { details } => prefixed("network error: ", details),
            SeyfrError::Store { details } => prefixed("store error: ", details),
            SeyfrError::Cancelled => String::from_str("transfer cancelled"),
            SeyfrError::FileNotFound { path } => prefixed("file not found: ", path),
            SeyfrError::NotADirectory { path } => prefixed("not a directory: ", path),
            SeyfrError::EmptyFolder { path } => prefixed("empty folder: ", path),
            SeyfrError::Timeout => String::from_str("transfer timeout"),
            SeyfrError::Internal { details } => prefixed("internal error: ", details),
            SeyfrError::PathTraversal { path, details } => {
                let mut s = prefixed("path traversal attempt: ", path);
                s.append(" - ");
                s.append(details.as_str());
                s
            },
            SeyfrError::InvalidPath { details } => prefixed("invalid path: ", details),
        }
    }
}

/// Error codes tell kinds apart: two errors with the same code are of the same kind.
pub proof fn lemma_code_identifies_kind(a: ErrorModel, b: ErrorModel)
    ensures
        error_code(a) == error_code(b) <==> error_kind(a) == error_kind(b),
{
}

} // verus!
