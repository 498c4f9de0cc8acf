//! The errors of the wiki client.
use vstd::prelude::*;

verus! {

/// What can go wrong while talking to the wiki.
#[derive(Debug)]
pub enum ClientError {
    /// The HTTP client could not be built.
    BuildFailed { source: reqwest::Error },
    /// A request could not be sent or got no response.
    RequestFailed { source: reqwest::Error },
    /// A response body could not be read as text.
    TextConversionFailed { source: reqwest::Error },
    /// A response body could not be read as JSON.
    JsonConversionFailed { source: reqwest::Error },
    /// A reply did not hold the token that was asked for; the payload is the reply.
    TokenNotFound(String),
    /// The wiki refused the login; the payload is the reason.
    LoginFailed(String),
}

/// Why the text of an API reply could not be used.
#[derive(Debug, PartialEq, Eq, Structural)]
pub enum ReplyError {
    /// The text is not JSON.
    NotJson,
    /// The text is JSON, but not of the shape that the request answers with.
    Unexpected,
}

} // verus!
