//! What can go wrong between the two services.
use vstd::prelude::*;

use crate::asana::AsanaError;
use crate::pco::client::PcoError;

verus! {

/// Why a request to one of the two services came to nothing.
#[derive(Debug)]
pub enum ApiError {
    /// The task service answered with errors.
    Asana(Vec<AsanaError>),
    /// The calendar service answered with errors.
    Pco(Vec<PcoError>),
    /// The calendar service sent several objects where one was asked for.
    UnexpectedMultipleItems,
    /// The calendar service did not send a list where one was asked for.
    UnexpectedSingleItem,
    /// A list does not say how long it is.
    MissingTotalCount,
    /// What a list says of its length is not a number.
    TotalCountNotANumber,
    /// The calendar service kept refusing a request because of too many requests.
    RetriesExceeded,
}

/// The message of an error.
pub open spec fn error_message(error: ApiError) -> Seq<char> {
    match error {
        ApiError::Asana(_) => "asana error"@,
        ApiError::Pco(_) => "asana error"@,
        ApiError::UnexpectedMultipleItems => "unexpected multi-item response"@,
        ApiError::UnexpectedSingleItem => "unexpected single-item response"@,
        ApiError::MissingTotalCount => "missing total count"@,
        ApiError::TotalCountNotANumber => "total count is not a number"@,
        ApiError::RetriesExceeded => "exceeded max request retry count"@,
    }
}

impl ApiError {
    /// The message of the error.
    pub fn message(&self) -> (text: &'static str)
        ensures
            text@ == error_message(*self),
    {
        match self {
            ApiError::Asana(_) => "asana error",
            ApiError::Pco(_) => "asana error",
            ApiError::UnexpectedMultipleItems => "unexpected multi-item response",
            ApiError::UnexpectedSingleItem => "unexpected single-item response",
            ApiError::MissingTotalCount => "missing total count",
            ApiError::TotalCountNotANumber => "total count is not a number",
            ApiError::RetriesExceeded => "exceeded max request retry count",
        }
    }
}

} // verus!
