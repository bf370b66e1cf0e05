//! The ways in which decoding can fail.

use vstd::prelude::*;

verus! {

/// The error with which `bodyparser` reports that a request body could not
/// be read. The library carries such a value from the caller to the error
/// it returns and never looks inside it.
#[verifier::external_type_specification]
#[verifier::external_body]
pub struct ExBodyError(bodyparser::BodyError);

/// Why a query string or a request body could not be decoded.
#[derive(Debug)]
pub enum UrlDecodingError {
    /// The request body could not be read in the first place.
    BodyError(bodyparser::BodyError),
    /// There was nothing to decode: no query string, or an empty one.
    EmptyQuery,
    /// The data, once its percent escapes are resolved, is not UTF-8 text.
    MalformedQuery,
}

/// What `bodyparser`'s error says of itself, by its `description`.
///
/// Trusted, and nothing is claimed of the text.
#[verifier::external_body]
fn body_error_description(error: &bodyparser::BodyError) -> (text: &str) {
    #[allow(deprecated)]
    std::error::Error::description(error)
}

impl UrlDecodingError {
    /// A short account of the error. For a body that could not be read it
    /// is the account that the underlying error gives of itself.
    pub fn description(&self) -> (text: &str)
        ensures
            *self is EmptyQuery ==> text@ == "Expected query, found empty string."@,
            *self is MalformedQuery ==> text@ == "Malformed query string"@,
    {
        match self {
            UrlDecodingError::BodyError(error) => body_error_description(error),
            UrlDecodingError::EmptyQuery => "Expected query, found empty string.",
            UrlDecodingError::MalformedQuery => "Malformed query string",
        }
    }

    /// The failure to read the body that lies behind this error, if any.
    pub fn cause(&self) -> (cause: Option<&bodyparser::BodyError>)
        ensures
            cause == match *self {
                UrlDecodingError::BodyError(error) => Some(&error),
                _ => None,
            },
    {
        match self {
            UrlDecodingError::BodyError(error) => Some(error),
            _ => None,
        }
    }
}

} // verus!
