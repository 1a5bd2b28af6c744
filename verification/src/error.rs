//! The errors of the HTTP interface, and how each is answered.

use vstd::prelude::*;

verus! {

/// An error that ends a request.
#[derive(Clone, Copy, Debug, PartialEq, Eq, Structural)]
pub enum Error {
    /// The request carries no valid credential.
    Unauthorized,
    /// The caller may not perform the action.
    Forbidden,
    /// There is no such resource.
    NotFound,
    /// The store failed on a query.
    StoreUnavailable,
    /// Any other fault on the server's side.
    Internal,
}

impl Error {
    /// The status of an error, as a value.
    pub open spec fn status(&self) -> u16 {
        match *self {
            Error::Unauthorized => 401u16,
            Error::Forbidden => 403u16,
            Error::NotFound => 404u16,
            Error::StoreUnavailable => 500u16,
            Error::Internal => 500u16,
        }
    }

    /// The HTTP status that answers the error.
    pub fn status_code(&self) -> (code: u16)
        ensures
            code == self.status(),
    {
        match self {
            Error::Unauthorized => 401,
            Error::Forbidden => 403,
            Error::NotFound => 404,
            Error::StoreUnavailable | Error::Internal => 500,
        }
    }

    /// The text that the caller is given. A fault on the server's side is
    /// named without detail.
    pub fn message(&self) -> (text: &'static str)
        ensures
            text@ == match *self {
                Error::Unauthorized => "authentication required"@,
                Error::Forbidden => "user may not perform that action"@,
                Error::NotFound => "resource not found"@,
                Error::StoreUnavailable => "error on database query"@,
                Error::Internal => "an internal server error occured"@,
            },
    {
        match self {
            Error::Unauthorized => "authentication required",
            Error::Forbidden => "user may not perform that action",
            Error::NotFound => "resource not found",
            Error::StoreUnavailable => "error on database query",
            Error::Internal => "an internal server error occured",
        }
    }

    /// Whether the error is a fault on the server's side, which is recorded
    /// in full before the caller is answered.
    pub fn is_fault(&self) -> (fault: bool)
        ensures
            fault == (*self == Error::StoreUnavailable || *self == Error::Internal),
            fault == (self.status() == 500),
    {
        match self {
            Error::StoreUnavailable | Error::Internal => true,
            _ => false,
        }
    }
}

} // verus!
