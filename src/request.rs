//! The URL of a request, parsed and checked once.

use vstd::prelude::*;

use crate::error::UrlError;

verus! {

/// A URL's parts, as values.
pub struct UrlView {
    pub text: Seq<char>,
    pub scheme: Seq<char>,
    pub host: Option<Seq<char>>,
    pub port: Option<u16>,
    pub path: Seq<char>,
}

/// A parsed URL: its full text, scheme, host, explicit port, and path with
/// query.
#[derive(Debug)]
pub struct UrlParts {
    pub text: String,
    pub scheme: String,
    pub host: Option<String>,
    pub port: Option<u16>,
    pub path: String,
}

impl View for UrlParts {
    type V = UrlView;

    open spec fn view(&self) -> UrlView {
        UrlView {
            text: self.text@,
            scheme: self.scheme@,
            host: match self.host {
                Some(h) => Some(h@),
                None => None,
            },
            port: self.port,
            path: self.path@,
        }
    }
}

impl UrlParts {
    pub fn copy(&self) -> (r: UrlParts)
        ensures
            r@ == self@,
    {
        UrlParts {
            text: self.text.clone(),
            scheme: self.scheme.clone(),
            host: match &self.host {
                Some(h) => Some(h.clone()),
                None => None,
            },
            port: self.port,
            path: self.path.clone(),
        }
    }
}

/// What `url::Url::parse` makes of a text: a function of the text alone.
pub uninterp spec fn parsed_url(s: Seq<char>) -> Option<UrlView>;

/// What `url::Url::join` makes of a base URL's text and a reference: a
/// function of the two texts alone.
pub uninterp spec fn joined_url(base: Seq<char>, reference: Seq<char>) -> Option<UrlView>;

/// Relies on `url::Url::parse` (WHATWG URL parsing) and the accessors of
/// `url::Url`: the parts are those of the parsed URL, a function of the text.
#[verifier::external_body]
fn parse_url(s: &str) -> (r: Option<UrlParts>)
    ensures
        r is Some <==> parsed_url(s@) is Some,
        r matches Some(u) ==> parsed_url(s@) == Some(u@),
{
    let u = url::Url::parse(s).ok()?;
    Some(UrlParts {
        text: u.as_str().to_string(),
        scheme: u.scheme().to_string(),
        host: u.host_str().map(|h| h.to_string()),
        port: u.port(),
        path: u[url::Position::BeforePath..url::Position::AfterQuery].to_string(),
    })
}

/// Relies on `url::Url::parse` (of the base) and `url::Url::join`: the
/// reference resolved against the base, a function of the two texts.
#[verifier::external_body]
fn join_url(base: &str, reference: &str) -> (r: Option<UrlParts>)
    ensures
        r is Some <==> joined_url(base@, reference@) is Some,
        r matches Some(u) ==> joined_url(base@, reference@) == Some(u@),
{
    let u = url::Url::parse(base).ok()?.join(reference).ok()?;
    Some(UrlParts {
        text: u.as_str().to_string(),
        scheme: u.scheme().to_string(),
        host: u.host_str().map(|h| h.to_string()),
        port: u.port(),
        path: u[url::Position::BeforePath..url::Position::AfterQuery].to_string(),
    })
}

/// Whether `scheme` is one of `allowed`.
pub open spec fn scheme_in(scheme: Seq<char>, allowed: Seq<&str>) -> bool {
    exists|i: int| 0 <= i < allowed.len() && allowed[i]@ == scheme
}

/// The URL of a request, or the error that it met.
#[derive(Debug)]
pub struct RequestBase {
    pub url: Result<UrlParts, UrlError>,
}

impl RequestBase {
    /// Parses `url` and checks that its scheme is one of `allowed`.
    pub fn new(url: &str, allowed: &[&str]) -> (r: RequestBase)
        ensures
            parsed_url(url@) is None ==> r.url matches Err(UrlError::InvalidUrl),
            parsed_url(url@) matches Some(u) ==> if scheme_in(u.scheme, allowed@) {
                r.url matches Ok(p) && p@ == u
            } else {
                r.url matches Err(UrlError::InvalidScheme(s)) && s@ == u.scheme
            },
    {
        match parse_url(url) {
            None => RequestBase { url: Err(UrlError::InvalidUrl) },
            Some(p) => RequestBase { url: RequestBase::check_scheme(p, allowed) },
        }
    }

    /// Keeps a parsed URL whose scheme is one of `allowed`.
    pub fn check_scheme(parts: UrlParts, allowed: &[&str]) -> (r: Result<UrlParts, UrlError>)
        ensures
            if scheme_in(parts.scheme@, allowed@) {
                r matches Ok(p) && p@ == parts@
            } else {
                r matches Err(UrlError::InvalidScheme(s)) && s@ == parts.scheme@
            },
    {
        let mut i: usize = 0;
        while i < allowed.len()
            invariant
                i <= allowed@.len(),
                forall|j: int| 0 <= j < i ==> allowed@[j]@ != parts.scheme@,
            decreases allowed@.len() - i,
        {
            let a: String = allowed[i].to_string();
            if a == parts.scheme {
                return Ok(parts);
            }
            i = i + 1;
        }
        let scheme = parts.scheme;
        Err(UrlError::InvalidScheme(scheme))
    }

    /// Marks the request as failed with `error`.
    pub fn fail(&mut self, error: UrlError)
        ensures
            final(self).url == Err::<UrlParts, UrlError>(error),
    {
        self.url = Err(error);
    }

    /// The URL, unless the request has failed.
    pub fn url(&self) -> (r: Option<&UrlParts>)
        ensures
            r is Some <==> self.url is Ok,
            r matches Some(u) ==> self.url matches Ok(p) && u@ == p@,
    {
        match &self.url {
            Ok(u) => Some(u),
            Err(_) => None,
        }
    }

    /// The URL to send the request to, or the error the request met; that
    /// error is handed out once, and the request is then marked consumed.
    pub fn finalize(&mut self) -> (r: Result<UrlParts, UrlError>)
        ensures
            old(self).url matches Ok(p) ==> ((r matches Ok(u) && u@ == p@) && (final(self).url matches Ok(q) && q@ == p@)),
            old(self).url is Err ==> r == old(self).url && final(self).url == Err::<UrlParts, UrlError>(UrlError::InvalidRequest),
    {
        match &self.url {
            Ok(u) => Ok(u.copy()),
            Err(_) => {
                let mut taken: Result<UrlParts, UrlError> = Err(UrlError::InvalidRequest);
                std::mem::swap(&mut taken, &mut self.url);
                taken
            },
        }
    }

    /// Resolves a redirect's `location` against `current`; the redirect is
    /// refused when it does not parse, or when it would leave the scheme of
    /// the original request.
    pub fn redirect_target(current: &UrlParts, original_scheme: &String, location: &str) -> (r: Result<UrlParts, UrlError>)
        ensures
            joined_url(current.text@, location@) is None ==> (r matches Err(UrlError::InvalidRedirectUrl(l)) && l@ == location@),
            joined_url(current.text@, location@) matches Some(u) ==> if u.scheme == original_scheme@ {
                r matches Ok(p) && p@ == u
            } else {
                r matches Err(UrlError::RedirectForbidden(s)) && s@ == u.scheme
            },
    {
        match join_url(current.text.as_str(), location) {
            None => Err(UrlError::InvalidRedirectUrl(location.to_string())),
            Some(u) => RequestBase::keep_scheme(u, original_scheme),
        }
    }

    /// Keeps a redirect target whose scheme is the original request's.
    pub fn keep_scheme(target: UrlParts, original_scheme: &String) -> (r: Result<UrlParts, UrlError>)
        ensures
            if target.scheme@ == original_scheme@ {
                r matches Ok(p) && p@ == target@
            } else {
                r matches Err(UrlError::RedirectForbidden(s)) && s@ == target.scheme@
            },
    {
        if target.scheme == *original_scheme {
            Ok(target)
        } else {
            Err(UrlError::RedirectForbidden(target.scheme))
        }
    }
}

} // verus!
