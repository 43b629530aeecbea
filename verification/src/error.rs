//! The errors of the mailbox.

use vstd::prelude::*;
use vstd::std_specs::convert::FromSpecImpl;

verus! {

#[verifier::external_type_specification]
#[verifier::external_body]
pub struct ExJsonError(serde_json::Error);

#[verifier::external_type_specification]
#[verifier::external_body]
pub struct ExUrlParseError(url::ParseError);

#[derive(Debug)]
pub enum MailboxError {
    /// The address is malformed.
    InvalidAddress(String),
    /// No provider serves the scheme.
    ProviderNotFound(String),
    /// A provider failed; the text says how.
    ProviderError(String),
    /// A payload could not be encoded or decoded.
    SerializationError(serde_json::Error),
    /// An address could not be parsed.
    UrlParseError(url::ParseError),
    Unknown(String),
}

impl From<serde_json::Error> for MailboxError {
    fn from(error: serde_json::Error) -> (wrapped: MailboxError) {
        MailboxError::SerializationError(error)
    }
}

impl FromSpecImpl<serde_json::Error> for MailboxError {
    open spec fn obeys_from_spec() -> bool {
        true
    }

    open spec fn from_spec(error: serde_json::Error) -> MailboxError {
        MailboxError::SerializationError(error)
    }
}

impl From<url::ParseError> for MailboxError {
    fn from(error: url::ParseError) -> (wrapped: MailboxError) {
        MailboxError::UrlParseError(error)
    }
}

impl FromSpecImpl<url::ParseError> for MailboxError {
    open spec fn obeys_from_spec() -> bool {
        true
    }

    open spec fn from_spec(error: url::ParseError) -> MailboxError {
        MailboxError::UrlParseError(error)
    }
}

} // verus!
