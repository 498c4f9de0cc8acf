//! The replies of the edit action.
use vstd::prelude::*;

verus! {

/// An error that the API reports: its code and its explanation.
#[derive(Debug, Clone, PartialEq)]
pub struct ApiError {
    pub code: String,
    pub text: String,
}

/// The result of a successful edit: the outcome and the page's title.
#[derive(Debug, Clone, PartialEq)]
pub struct Response {
    pub result: String,
    pub title: String,
}

/// The reply to an edit: the edit's result, or the errors that the API reported.
#[derive(Debug, Clone, PartialEq)]
pub enum Edit {
    Succes { edit: Response },
    Failure { errors: Vec<ApiError> },
}

} // verus!
