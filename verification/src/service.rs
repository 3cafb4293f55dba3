//! The URL-shortener's domain service: shorten a URL, look one up,
//! delete one. The service talks to its store through the
//! `UrlsRepository` port, which the surrounding program implements
//! over a real document store and the tests implement in memory; the
//! service's own decisions — reusing an existing shortening, retrying
//! a duplicate key a bounded number of times, assembling the response
//! — are verified for every behaviour of the port.

use vstd::prelude::*;
use vstd::string::StringExecFns;
use crate::short_url::CreateShortUrlRequest;
use crate::short_url::RepositoryShortUrlError;
use crate::short_url::ShortUrl;
use crate::short_url::ShortUrlId;
use crate::short_url::ShortUrlResponse;
use crate::short_url::WebUrl;
use crate::short_url::spec_parse_url;

verus! {

/// The store port: what the service asks of its repository. The
/// repository is outside the verified core, so nothing is assumed of
/// what these return.
pub trait UrlsRepository {
    fn create_short_url(&self, short_url: ShortUrl) -> Result<ShortUrl, RepositoryShortUrlError>;

    fn find_short_url_by_long_url(&self, long_url: WebUrl) -> Result<
        Option<ShortUrl>,
        RepositoryShortUrlError,
    >;

    fn find_short_url_by_short_url(&self, short_url: WebUrl) -> Result<
        Option<ShortUrl>,
        RepositoryShortUrlError,
    >;

    fn find_short_url_by_key(&self, key: ShortUrlId) -> Result<
        Option<ShortUrl>,
        RepositoryShortUrlError,
    >;

    fn delete_short_url_by_key(&self, key: ShortUrlId) -> Result<(), RepositoryShortUrlError>;
}

/// The service's settings: how often a duplicate key is retried and
/// the base under which short URLs are served.
#[derive(Debug, PartialEq, Eq)]
pub struct ServiceConfig {
    pub retries: u8,
    pub base_url: String,
}

impl Clone for ServiceConfig {
    fn clone(&self) -> (res: ServiceConfig)
        ensures
            res == *self,
    {
        ServiceConfig { retries: self.retries, base_url: self.base_url.clone() }
    }
}

impl ServiceConfig {
    pub fn new(retries: u8, base_url: &str) -> (r: Self)
        ensures
            r.retries == retries,
            r.base_url@ == base_url@,
    {
        Self { retries, base_url: base_url.to_owned() }
    }

    pub fn retries(&self) -> (r: &u8)
        ensures
            *r == self.retries,
    {
        &self.retries
    }
}

/// A response built for the stored shortening `su`: the key and long
/// URL are the stored ones, and the short URL is the service's base
/// URL with the key appended, as the URL parser normalizes it.
pub open spec fn spec_response_of(resp: ShortUrlResponse, su: ShortUrl, base: Seq<char>) -> bool {
    resp.key == su.key && resp.long_url == su.long_url && spec_parse_url(base + su.key@) == Some(
        resp.short_url@,
    )
}

/// A well-formed answer: what every `Ok` answer of the service is —
/// the response built for some stored shortening under the service's
/// base URL.
pub open spec fn spec_valid_response(resp: ShortUrlResponse, base: Seq<char>) -> bool {
    exists|su: ShortUrl| spec_response_of(resp, su, base)
}

/// The URL-shortening service over a repository `R`.
#[derive(Debug)]
pub struct Service<R> where R: UrlsRepository {
    pub repo: R,
    pub config: ServiceConfig,
}

impl<R> Service<R> where R: UrlsRepository {
    pub fn new(repo: R, config: ServiceConfig) -> (r: Self)
        ensures
            r.config == config,
    {
        Self { repo, config }
    }

    /// Shorten a URL: answer with the shortening already stored for
    /// it, if the store has one, and otherwise store a fresh one,
    /// drawing a new key after each duplicate-key failure, up to the
    /// configured number of retries. Whatever the repository did,
    /// every successful answer is a well-formed response under the
    /// service's base URL.
    pub fn create_short_url(&self, req: &CreateShortUrlRequest) -> (r: Result<
        ShortUrlResponse,
        RepositoryShortUrlError,
    >)
        ensures
            r is Ok ==> spec_valid_response(r.unwrap(), self.config.base_url@),
    {
        let found = match self.repo.find_short_url_by_long_url(req.long_url.clone()) {
            Ok(v) => v,
            Err(e) => {
                return Err(e);
            },
        };
        if let Some(short_url) = found {
            let mut shortened = self.config.base_url.clone();
            shortened.append(short_url.key.as_str());
            return match WebUrl::parse(shortened.as_str()) {
                Some(u) => {
                    let resp = ShortUrlResponse::new(
                        short_url.key.clone(),
                        short_url.long_url.clone(),
                        u,
                    );
                    proof {
                        assert(spec_response_of(resp, short_url, self.config.base_url@));
                        assert(spec_valid_response(resp, self.config.base_url@));
                    }
                    Ok(resp)
                },
                None => Err(RepositoryShortUrlError::UrlBadlyFormatted),
            };
        }
        let mut retries = self.config.retries;
        loop
            decreases retries,
        {
            let short_url = match ShortUrl::from_long_url(&req.long_url) {
                Ok(su) => su,
                Err(_) => unreached(),
            };
            match self.repo.create_short_url(short_url) {
                Ok(value) => {
                    let ghost stored = value;
                    return match ShortUrlResponse::from(value, self.config.base_url.clone()) {
                        Ok(resp) => {
                            proof {
                                assert(spec_response_of(resp, stored, self.config.base_url@));
                                assert(spec_valid_response(resp, self.config.base_url@));
                            }
                            Ok(resp)
                        },
                        Err(_) => Err(RepositoryShortUrlError::UrlBadlyFormatted),
                    };
                },
                Err(e) => {
                    let is_duplicate = match &e {
                        RepositoryShortUrlError::Duplicate { .. } => true,
                        _ => false,
                    };
                    if is_duplicate && retries > 0 {
                        retries = retries - 1;
                    } else {
                        return Err(e);
                    }
                },
            }
        }
    }

    /// Look a key up: `Ok(None)` when the store has nothing under it,
    /// and otherwise a well-formed response for what it has.
    pub fn retrieve_short_url(&self, key: ShortUrlId) -> (r: Result<
        Option<ShortUrlResponse>,
        RepositoryShortUrlError,
    >)
        ensures
            r is Ok && r.unwrap() is Some ==> spec_valid_response(
                r.unwrap().unwrap(),
                self.config.base_url@,
            ),
    {
        let found = match self.repo.find_short_url_by_key(key) {
            Ok(v) => v,
            Err(e) => {
                return Err(e);
            },
        };
        match found {
            None => Ok(None),
            Some(sh) => {
                let ghost stored = sh;
                match ShortUrlResponse::from(sh, self.config.base_url.clone()) {
                    Ok(resp) => {
                        proof {
                            assert(spec_response_of(resp, stored, self.config.base_url@));
                            assert(spec_valid_response(resp, self.config.base_url@));
                        }
                        Ok(Some(resp))
                    },
                    Err(_) => Err(RepositoryShortUrlError::UrlBadlyFormatted),
                }
            },
        }
    }

    /// Delete the shortening under a key; the repository's verdict is
    /// the service's.
    pub fn delete_short_url(&self, key: ShortUrlId) -> Result<(), RepositoryShortUrlError> {
        match self.repo.delete_short_url_by_key(key) {
            Ok(_) => Ok(()),
            Err(e) => Err(e),
        }
    }
}

} // verus!
