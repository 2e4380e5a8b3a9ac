//! The errors of the request handlers and of the repositories.

use vstd::prelude::*;
use vstd::string::StringExecFns;

verus! {

/// What a request handler answers when it cannot do what was asked.
#[derive(Debug)]
pub enum ApiError {
    /// No order has the identifier.
    NotFound,
    /// The request makes no sense; the text says why.
    BadRequest(String),
    /// The store failed.
    Internal,
}

impl ApiError {
    /// The HTTP status that stands for the error: 404, 400 or 500.
    pub open spec fn status(self) -> u16 {
        match self {
            ApiError::NotFound => 404,
            ApiError::BadRequest(_) => 400,
            ApiError::Internal => 500,
        }
    }

    /// The HTTP status that stands for the error.
    pub fn status_code(&self) -> (code: u16)
        ensures
            code == self.status(),
    {
        match self {
            ApiError::NotFound => 404,
            ApiError::BadRequest(_) => 400,
            ApiError::Internal => 500,
        }
    }

    /// The error in words.
    pub open spec fn text(self) -> Seq<char> {
        match self {
            ApiError::NotFound => "not found"@,
            ApiError::BadRequest(why) => "bad request: "@ + why@,
            ApiError::Internal => "internal"@,
        }
    }

    /// The error in words.
    pub fn message(&self) -> (m: String)
        ensures
            m@ == self.text(),
    {
        match self {
            ApiError::NotFound => "not found".to_owned(),
            ApiError::BadRequest(why) => "bad request: ".to_owned().concat(why.as_str()),
            ApiError::Internal => "internal".to_owned(),
        }
    }
}

/// Why a repository refuses an operation.
#[derive(Debug, Clone, Copy, PartialEq, Eq, Structural)]
pub enum RepoErr {
    /// No order has the identifier.
    NotFound,
    /// The order is not in the state the operation expects.
    PreconditionFailed,
    /// Another order already carries the client's order identifier.
    DuplicateClientOrderId,
}

impl RepoErr {
    /// The error in words.
    pub open spec fn text(self) -> Seq<char> {
        match self {
            RepoErr::NotFound => "not found"@,
            RepoErr::PreconditionFailed => "precondition failed"@,
            RepoErr::DuplicateClientOrderId => "duplicate client_order_id"@,
        }
    }

    /// The error in words.
    pub fn message(&self) -> (m: String)
        ensures
            m@ == self.text(),
    {
        match self {
            RepoErr::NotFound => "not found".to_owned(),
            RepoErr::PreconditionFailed => "precondition failed".to_owned(),
            RepoErr::DuplicateClientOrderId => "duplicate client_order_id".to_owned(),
        }
    }
}

} // verus!
