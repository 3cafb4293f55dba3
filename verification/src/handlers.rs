//! The HTTP edge of the URL-shortener: the errors a handler answers
//! with, the response body for a fresh shortening, and the error
//! report format used when a failure is logged with its chain of
//! causes. The web framework itself stays outside the library; these
//! are the decisions it serves.

use vstd::prelude::*;
use vstd::string::StringExecFns;
use crate::short_url::RepositoryShortUrlError;
use crate::short_url::ShortUrlResponse;
use crate::short_url::WebUrl;

verus! {

/// What a shortening request can fail with at the HTTP edge.
#[derive(Debug)]
pub enum CreateShortUrlError {
    /// The request's URL did not parse.
    MalformedUrl,
    /// Anything else, carrying the underlying store failure.
    UnexpectedError(RepositoryShortUrlError),
}

impl CreateShortUrlError {
    /// How a store failure surfaces to the caller: a malformed URL is
    /// the caller's fault, everything else is the service's.
    pub fn from_repository(value: RepositoryShortUrlError) -> (r: CreateShortUrlError)
        ensures
            r == match value {
                RepositoryShortUrlError::UrlBadlyFormatted => CreateShortUrlError::MalformedUrl,
                err => CreateShortUrlError::UnexpectedError(err),
            },
    {
        match value {
            RepositoryShortUrlError::UrlBadlyFormatted => CreateShortUrlError::MalformedUrl,
            err => CreateShortUrlError::UnexpectedError(err),
        }
    }

    /// The HTTP status code the error is answered with.
    pub fn status_code(&self) -> (c: u16)
        ensures
            c == match self {
                CreateShortUrlError::MalformedUrl => 400u16,
                CreateShortUrlError::UnexpectedError(_) => 500u16,
            },
    {
        match self {
            CreateShortUrlError::MalformedUrl => 400,
            CreateShortUrlError::UnexpectedError(_) => 500,
        }
    }
}

/// What a deletion request can fail with at the HTTP edge.
#[derive(Debug)]
pub enum DeleteShortUrlError {
    /// Nothing is stored under the given key.
    ShortUrlNotFound,
    /// Anything else, carrying the underlying store failure.
    UnexpectedError(RepositoryShortUrlError),
}

impl DeleteShortUrlError {
    pub fn from_repository(value: RepositoryShortUrlError) -> (r: DeleteShortUrlError)
        ensures
            r == match value {
                RepositoryShortUrlError::ShortUrlNotFound => DeleteShortUrlError::ShortUrlNotFound,
                err => DeleteShortUrlError::UnexpectedError(err),
            },
    {
        match value {
            RepositoryShortUrlError::ShortUrlNotFound => DeleteShortUrlError::ShortUrlNotFound,
            err => DeleteShortUrlError::UnexpectedError(err),
        }
    }

    /// The HTTP status code the error is answered with.
    pub fn status_code(&self) -> (c: u16)
        ensures
            c == match self {
                DeleteShortUrlError::ShortUrlNotFound => 404u16,
                DeleteShortUrlError::UnexpectedError(_) => 500u16,
            },
    {
        match self {
            DeleteShortUrlError::ShortUrlNotFound => 404,
            DeleteShortUrlError::UnexpectedError(_) => 500,
        }
    }
}

/// The body answered to a successful shortening: the short URL and the
/// long URL it stands for.
#[derive(Debug, PartialEq, Eq)]
pub struct CreateShortUrlResponse {
    pub short_url: WebUrl,
    pub long_url: WebUrl,
}

impl CreateShortUrlResponse {
    pub fn from(value: ShortUrlResponse) -> (r: Self)
        ensures
            r.short_url == value.short_url,
            r.long_url == value.long_url,
    {
        Self { short_url: value.short_url, long_url: value.long_url }
    }

    pub fn short_url(&self) -> (r: &WebUrl)
        ensures
            *r == self.short_url,
    {
        &self.short_url
    }

    pub fn long_url(&self) -> (r: &WebUrl)
        ensures
            *r == self.long_url,
    {
        &self.long_url
    }
}

/// The lines appended for a chain of causes, one per cause, in order.
pub open spec fn spec_cause_lines(causes: Seq<Seq<char>>) -> Seq<char>
    decreases causes.len(),
{
    if causes.len() == 0 {
        Seq::empty()
    } else {
        spec_cause_lines(causes.drop_last()) + "Caused by:\n\t"@ + causes.last() + "\n"@
    }
}

/// The full error report: the error's own message, a blank line, then
/// every cause in the chain on a line of its own.
pub open spec fn spec_error_chain(message: Seq<char>, causes: Seq<Seq<char>>) -> Seq<char> {
    message + "\n\n"@ + spec_cause_lines(causes)
}

/// Render an error report: the error's message followed by each cause
/// in its chain, outermost first.
pub fn error_chain_fmt(message: &str, causes: &Vec<String>) -> (r: String)
    ensures
        r@ == spec_error_chain(message@, causes@.map_values(|c: String| c@)),
{
    let ghost cause_views = causes@.map_values(|c: String| c@);
    let mut r = message.to_owned();
    r.append("\n\n");
    let mut i: usize = 0;
    while i < causes.len()
        invariant
            i <= causes@.len(),
            cause_views == causes@.map_values(|c: String| c@),
            cause_views.len() == causes@.len(),
            r@ == message@ + "\n\n"@ + spec_cause_lines(cause_views.take(i as int)),
        decreases causes@.len() - i,
    {
        r.append("Caused by:\n\t");
        r.append(causes[i].as_str());
        r.append("\n");
        proof {
            assert(cause_views.take(i + 1).drop_last() =~= cause_views.take(i as int));
            assert(cause_views.take(i + 1).last() == cause_views[i as int]);
            assert(r@ =~= message@ + "\n\n"@ + spec_cause_lines(cause_views.take(i + 1)));
        }
        i += 1;
    }
    proof {
        assert(cause_views.take(causes@.len() as int) =~= cause_views);
    }
    r
}

} // verus!
