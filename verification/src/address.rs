//! Mailbox addresses: a scheme, an optional principal, a host and a path.

use vstd::prelude::*;
use crate::error::MailboxError;

verus! {

/// An address: its text, and the components by which mail is routed.
#[derive(Debug)]
pub struct Address {
    /// The address as it was written.
    pub text: String,
    pub scheme: String,
    /// The principal; empty where the address names none.
    pub username: String,
    pub host: Option<String>,
    pub path: String,
}

pub struct AddressView {
    pub text: Seq<char>,
    pub scheme: Seq<char>,
    pub username: Seq<char>,
    pub host: Option<Seq<char>>,
    pub path: Seq<char>,
}

impl View for Address {
    type V = AddressView;

    open spec fn view(&self) -> AddressView {
        AddressView {
            text: self.text@,
            scheme: self.scheme@,
            username: self.username@,
            host: match self.host {
                Some(host) => Some(host@),
                None => None,
            },
            path: self.path@,
        }
    }
}

impl Clone for Address {
    fn clone(&self) -> (copy: Self)
        ensures
            copy@ == self@,
    {
        Address {
            text: self.text.clone(),
            scheme: self.scheme.clone(),
            username: self.username.clone(),
            host: match &self.host {
                Some(host) => Some(host.clone()),
                None => None,
            },
            path: self.path.clone(),
        }
    }
}

impl AddressView {
    /// The components by which mail is routed: all but the text.
    pub open spec fn components(self) -> Components {
        Components { scheme: self.scheme, username: self.username, host: self.host, path: self.path }
    }
}

/// The scheme, the principal (empty where there is none), the host and the
/// path of an address.
pub struct Components {
    pub scheme: Seq<char>,
    pub username: Seq<char>,
    pub host: Option<Seq<char>>,
    pub path: Seq<char>,
}

struct UrlParts {
    scheme: String,
    username: String,
    host: Option<String>,
    path: String,
}

/// The components that the URL parser finds in a text, where it accepts the text.
pub uninterp spec fn url_components(input: Seq<char>) -> Option<Components>;

/// `url::Url::parse`, and of the URL it yields `scheme`, `username`,
/// `host_str` and `path`, each copied into a `String`. The parser is a
/// function of the text alone; what it finds goes by the name
/// `url_components`.
#[verifier::external_body]
fn parse_url(input: &str) -> (parsed: Result<UrlParts, url::ParseError>)
    ensures
        match parsed {
            Ok(parts) => url_components(input@) == Some(
                Components {
                    scheme: parts.scheme@,
                    username: parts.username@,
                    host: match parts.host {
                        Some(host) => Some(host@),
                        None => None,
                    },
                    path: parts.path@,
                },
            ),
            Err(_) => url_components(input@) is None,
        },
{
    let url = url::Url::parse(input)?;
    Ok(
        UrlParts {
            scheme: url.scheme().to_string(),
            username: url.username().to_string(),
            host: url.host_str().map(str::to_string),
            path: url.path().to_string(),
        },
    )
}

impl Address {
    /// Reads an address from its text form. A text that is no absolute URL is refused.
    pub fn parse(input: &str) -> (parsed: Result<Address, MailboxError>)
        ensures
            match parsed {
                Ok(address) => address@.text == input@ && url_components(input@) == Some(
                    address@.components(),
                ),
                Err(error) => url_components(input@) is None && error is UrlParseError,
            },
    {
        match parse_url(input) {
            Ok(parts) => Ok(
                Address {
                    text: input.to_owned(),
                    scheme: parts.scheme,
                    username: parts.username,
                    host: parts.host,
                    path: parts.path,
                },
            ),
            Err(error) => Err(MailboxError::from(error)),
        }
    }
}

} // verus!
