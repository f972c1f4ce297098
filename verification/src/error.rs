//! The errors of the service and the responses they turn into.
use vstd::prelude::*;
use vstd::string::*;
use crate::operation::{ot_error_text, OtError};

verus! {

/// A failure of the document database, with what a response reports of it.
#[derive(Debug)]
pub enum DbError {
    System,
    /// A database error, with its details.
    Database(String),
    DataConflict,
    DataNotFound,
    InvalidParameters,
    Serialize,
    /// A document that could not be read, with the error's text.
    Deserialize(String),
    Network,
    Transaction,
    Cache,
}

/// The kinds of errors the service can hit.
#[derive(Debug)]
pub enum AppError {
    /// An operation failed.
    Ot(OtError),
    /// The database failed.
    Firestore(DbError),
    /// A query failed.
    Query(String),
    /// Content could not be read as the expected type.
    ParseError(String),
    /// No session was found.
    NoSession(),
    NotAuthorized(),
    Passport(String),
}

pub const INTERNAL_SERVER_ERROR: u16 = 500;

pub const NOT_FOUND: u16 = 404;

pub const BAD_REQUEST: u16 = 400;

/// The status code and error message of the response to an error.
pub open spec fn response_of(e: AppError) -> (u16, Seq<char>) {
    match e {
        AppError::Firestore(d) => match d {
            DbError::System => (INTERNAL_SERVER_ERROR, "firestore system error"@),
            DbError::Database(m) => (INTERNAL_SERVER_ERROR, "database error: "@ + m@),
            DbError::DataConflict => (INTERNAL_SERVER_ERROR, "data conflict error"@),
            DbError::DataNotFound => (INTERNAL_SERVER_ERROR, "data not found error"@),
            DbError::InvalidParameters => (INTERNAL_SERVER_ERROR, "invalid params error"@),
            DbError::Serialize => (INTERNAL_SERVER_ERROR, "serialization error"@),
            DbError::Deserialize(m) => (INTERNAL_SERVER_ERROR, m@),
            DbError::Network => (INTERNAL_SERVER_ERROR, "network error"@),
            DbError::Transaction => (INTERNAL_SERVER_ERROR, "transaction error"@),
            DbError::Cache => (INTERNAL_SERVER_ERROR, "cache error"@),
        },
        AppError::Ot(o) => (NOT_FOUND, "OT failure: "@ + ot_error_text(o@)),
        AppError::Query(m) => (BAD_REQUEST, "Query issue: "@ + m@),
        AppError::ParseError(m) => (INTERNAL_SERVER_ERROR, "parse error: "@ + m@),
        AppError::NoSession() => (NOT_FOUND, "session not found"@),
        AppError::NotAuthorized() => (BAD_REQUEST, "not authorized"@),
        AppError::Passport(m) => (BAD_REQUEST, "passport failure: "@ + m@),
    }
}

fn text(s: &str) -> (r: String)
    ensures
        r@ == s@,
{
    String::from_str(s)
}

fn prefixed(p: &str, s: &str) -> (r: String)
    ensures
        r@ == p@ + s@,
{
    String::from_str(p).concat(s)
}

impl AppError {
    /// The status code and error message of the response to the error.
    pub fn status_and_message(&self) -> (r: (u16, String))
        ensures
            (r.0, r.1@) == response_of(*self),
    {
        match self {
            AppError::Firestore(d) => match d {
                DbError::System => (INTERNAL_SERVER_ERROR, text("firestore system error")),
                DbError::Database(m) => (
                    INTERNAL_SERVER_ERROR,
                    prefixed("database error: ", m.as_str()),
                ),
                DbError::DataConflict => (INTERNAL_SERVER_ERROR, text("data conflict error")),
                DbError::DataNotFound => (INTERNAL_SERVER_ERROR, text("data not found error")),
                DbError::InvalidParameters => (INTERNAL_SERVER_ERROR, text("invalid params error")),
                DbError::Serialize => (INTERNAL_SERVER_ERROR, text("serialization error")),
                DbError::Deserialize(m) => (INTERNAL_SERVER_ERROR, m.clone()),
                DbError::Network => (INTERNAL_SERVER_ERROR, text("network error")),
                DbError::Transaction => (INTERNAL_SERVER_ERROR, text("transaction error")),
                DbError::Cache => (INTERNAL_SERVER_ERROR, text("cache error")),
            },
            AppError::Ot(e) => (NOT_FOUND, prefixed("OT failure: ", e.to_string().as_str())),
            AppError::Query(e) => (BAD_REQUEST, prefixed("Query issue: ", e.as_str())),
            AppError::ParseError(e) => (
                INTERNAL_SERVER_ERROR,
                prefixed("parse error: ", e.as_str()),
            ),
            AppError::NoSession() => (NOT_FOUND, text("session not found")),
            AppError::NotAuthorized() => (BAD_REQUEST, text("not authorized")),
            AppError::Passport(e) => (BAD_REQUEST, prefixed("passport failure: ", e.as_str())),
        }
    }

    /// The error of the service for an operation that failed.
    pub fn from_ot(inner: OtError) -> (r: AppError)
        ensures
            r == AppError::Ot(inner),
    {
        AppError::Ot(inner)
    }

    /// The error of the service for a database failure.
    pub fn from_db(inner: DbError) -> (r: AppError)
        ensures
            r == AppError::Firestore(inner),
    {
        AppError::Firestore(inner)
    }
}

} // verus!
