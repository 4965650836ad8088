//! Errors of requests and their URLs.

use vstd::prelude::*;

verus! {

/// The ways a request's URL can be refused, or its body cut short.
#[derive(Debug, PartialEq, Eq)]
pub enum UrlError {
    /// The request was already consumed after an error.
    InvalidRequest,
    /// The URL does not parse.
    InvalidUrl,
    /// The URL's scheme is not one this request serves.
    InvalidScheme(String),
    /// The body ended early.
    PartialFile,
    /// A redirect's `Location` does not parse against the current URL.
    InvalidRedirectUrl(String),
    /// A redirect would change the scheme, to the one given.
    RedirectForbidden(String),
    /// A DNS query timed out.
    DnsTimedOut,
}

} // verus!
