//! The URL-shortener's domain model: validated URLs, six-character
//! short-URL keys, the stored entity, and the responses handed back to
//! callers. URL validation is the `url` crate's work and key
//! generation is the `nanoid` crate's; both sit behind small trusted
//! wrappers, and everything built on top of them is verified.

use vstd::prelude::*;
use vstd::string::StrSliceExecFns;
use vstd::string::StringExecFns;

verus! {

/// What `url::Url::parse` makes of a string: `None` when the string is
/// not an absolute URL, otherwise the parsed URL's normalized
/// serialization.
pub uninterp spec fn spec_parse_url(s: Seq<char>) -> Option<Seq<char>>;

/// A validated absolute URL, held in its normalized serialization.
#[derive(Debug, PartialEq, Eq, PartialOrd, Ord, Hash)]
pub struct WebUrl {
    text: String,
}

impl View for WebUrl {
    type V = Seq<char>;

    closed spec fn view(&self) -> Seq<char> {
        self.text@
    }
}

impl Clone for WebUrl {
    fn clone(&self) -> (res: WebUrl)
        ensures
            res == *self,
    {
        WebUrl { text: self.text.clone() }
    }
}

impl WebUrl {
    /// Relies on url::Url::parse: whether a string parses as an
    /// absolute URL, and the parsed URL's serialization, depend on the
    /// string alone.
    #[verifier::external_body]
    pub fn parse(s: &str) -> (r: Option<WebUrl>)
        ensures
            r matches Some(u) ==> spec_parse_url(s@) == Some(u@),
            r is None ==> spec_parse_url(s@) is None,
    {
        match url::Url::parse(s) {
            Ok(u) => Some(WebUrl { text: u.as_str().to_owned() }),
            Err(_) => None,
        }
    }

    pub fn as_str(&self) -> (r: &str)
        ensures
            r@ == self@,
    {
        self.text.as_str()
    }
}

/// Failure to assemble or validate a URL.
#[derive(Debug, Clone, Copy, PartialEq, Eq)]
pub struct ParseUrlError;

/// The six-character key under which a long URL is stored.
#[derive(Debug, PartialEq, Eq, PartialOrd, Ord, Hash)]
pub struct ShortUrlId {
    key: String,
}

impl View for ShortUrlId {
    type V = Seq<char>;

    closed spec fn view(&self) -> Seq<char> {
        self.key@
    }
}

impl Clone for ShortUrlId {
    fn clone(&self) -> (res: ShortUrlId)
        ensures
            res == *self,
    {
        ShortUrlId { key: self.key.clone() }
    }
}

impl ShortUrlId {
    /// Relies on nanoid::format over the URL-safe alphabet: whatever
    /// bytes the generator draws, the id that comes back is exactly as
    /// many characters as asked for, here six.
    #[verifier::external_body]
    pub fn new() -> (r: ShortUrlId)
        ensures
            r@.len() == 6,
    {
        ShortUrlId { key: nanoid::format(nanoid::rngs::default, &nanoid::alphabet::SAFE, 6) }
    }

    pub fn as_str(&self) -> (r: &str)
        ensures
            r@ == self@,
    {
        self.key.as_str()
    }
}

impl Default for ShortUrlId {
    fn default() -> (r: ShortUrlId)
        ensures
            r@.len() == 6,
    {
        ShortUrlId::new()
    }
}

/// A stored shortening: the key and the long URL it stands for.
#[derive(Debug, PartialEq, Eq)]
pub struct ShortUrl {
    pub key: ShortUrlId,
    pub long_url: WebUrl,
}

impl Clone for ShortUrl {
    fn clone(&self) -> (res: ShortUrl)
        ensures
            res == *self,
    {
        ShortUrl { key: self.key.clone(), long_url: self.long_url.clone() }
    }
}

impl ShortUrl {
    pub fn new(key: ShortUrlId, long_url: WebUrl) -> (r: Result<Self, ParseUrlError>)
        ensures
            r matches Ok(su) && su.key == key && su.long_url == long_url,
    {
        Ok(Self { key, long_url })
    }

    /// A fresh shortening of the given URL, under a newly drawn key.
    pub fn from_long_url(long_url: &WebUrl) -> (r: Result<Self, ParseUrlError>)
        ensures
            r matches Ok(su) && su.long_url == *long_url && su.key@.len() == 6,
    {
        let key = ShortUrlId::new();
        Self::new(key, long_url.clone())
    }

    pub fn key(&self) -> (r: &ShortUrlId)
        ensures
            *r == self.key,
    {
        &self.key
    }

    pub fn long_url(&self) -> (r: &WebUrl)
        ensures
            *r == self.long_url,
    {
        &self.long_url
    }
}

/// A shortening request: the long URL to shorten.
#[derive(Debug, PartialEq, Eq)]
pub struct CreateShortUrlRequest {
    pub long_url: WebUrl,
}

impl CreateShortUrlRequest {
    pub fn new(long_url: WebUrl) -> (r: Self)
        ensures
            r.long_url == long_url,
    {
        Self { long_url }
    }

    pub fn long_url(&self) -> (r: &WebUrl)
        ensures
            *r == self.long_url,
    {
        &self.long_url
    }
}

/// What a lookup or a shortening answers with: the key, the long URL,
/// and the full short URL under the service's base address.
#[derive(Debug, PartialEq, Eq)]
pub struct ShortUrlResponse {
    pub key: ShortUrlId,
    pub long_url: WebUrl,
    pub short_url: WebUrl,
}

impl ShortUrlResponse {
    pub fn new(key: ShortUrlId, long_url: WebUrl, short_url: WebUrl) -> (r: ShortUrlResponse)
        ensures
            r.key == key,
            r.long_url == long_url,
            r.short_url == short_url,
    {
        Self { key, long_url, short_url }
    }

    /// Build the response for a stored shortening: the short URL is
    /// the base URL with the key appended, revalidated as a URL.
    pub fn from(short_url: ShortUrl, base_url: String) -> (r: Result<
        ShortUrlResponse,
        ParseUrlError,
    >)
        ensures
            match r {
                Ok(resp) => resp.key == short_url.key && resp.long_url == short_url.long_url
                    && spec_parse_url(base_url@ + short_url.key@) == Some(resp.short_url@),
                Err(_) => spec_parse_url(base_url@ + short_url.key@) is None,
            },
    {
        let mut shortened = base_url;
        shortened.append(short_url.key.as_str());
        match WebUrl::parse(shortened.as_str()) {
            Some(u) => Ok(Self {
                key: short_url.key,
                long_url: short_url.long_url,
                short_url: u,
            }),
            None => Err(ParseUrlError),
        }
    }

    pub fn key(&self) -> (r: &ShortUrlId)
        ensures
            *r == self.key,
    {
        &self.key
    }

    pub fn long_url(&self) -> (r: &WebUrl)
        ensures
            *r == self.long_url,
    {
        &self.long_url
    }

    pub fn short_url(&self) -> (r: &WebUrl)
        ensures
            *r == self.short_url,
    {
        &self.short_url
    }
}

/// Why a repository operation failed.
#[derive(Debug, PartialEq, Eq)]
pub enum RepositoryShortUrlError {
    /// The key drawn for a new shortening is already taken.
    Duplicate { short_url_id: ShortUrlId },
    /// A URL assembled for the answer did not validate.
    UrlBadlyFormatted,
    /// No shortening is stored under the given key.
    ShortUrlNotFound,
    /// Any other store failure, carried as its report.
    Unknown(String),
}

impl Clone for RepositoryShortUrlError {
    fn clone(&self) -> (res: RepositoryShortUrlError)
        ensures
            res == *self,
    {
        match self {
            RepositoryShortUrlError::Duplicate { short_url_id } => {
                RepositoryShortUrlError::Duplicate { short_url_id: short_url_id.clone() }
            },
            RepositoryShortUrlError::UrlBadlyFormatted => RepositoryShortUrlError::UrlBadlyFormatted,
            RepositoryShortUrlError::ShortUrlNotFound => RepositoryShortUrlError::ShortUrlNotFound,
            RepositoryShortUrlError::Unknown(msg) => RepositoryShortUrlError::Unknown(msg.clone()),
        }
    }
}

impl RepositoryShortUrlError {
    /// The message each failure reports.
    pub open spec fn spec_message(self) -> Seq<char> {
        match self {
            RepositoryShortUrlError::Duplicate { short_url_id } => "short_url with id "@
                + short_url_id@ + " already exists"@,
            RepositoryShortUrlError::UrlBadlyFormatted => "short_url malformed"@,
            RepositoryShortUrlError::ShortUrlNotFound => "short_url not found"@,
            RepositoryShortUrlError::Unknown(msg) => msg@,
        }
    }

    pub fn message(&self) -> (r: String)
        ensures
            r@ == self.spec_message(),
    {
        match self {
            RepositoryShortUrlError::Duplicate { short_url_id } => {
                let mut r = "short_url with id ".to_owned();
                r.append(short_url_id.as_str());
                r.append(" already exists");
                r
            },
            RepositoryShortUrlError::UrlBadlyFormatted => "short_url malformed".to_owned(),
            RepositoryShortUrlError::ShortUrlNotFound => "short_url not found".to_owned(),
            RepositoryShortUrlError::Unknown(msg) => msg.clone(),
        }
    }
}

} // verus!
