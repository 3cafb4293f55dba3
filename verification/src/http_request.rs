//! The file server's request model: the method and path taken from the
//! first line of an incoming HTTP request.

use vstd::prelude::*;
use vstd::string::StrSliceExecFns;
use crate::text::str_eq;

verus! {

/// The request methods the parser recognises.
#[derive(Debug, Clone, Copy, PartialEq, Eq)]
pub enum Method {
    CONNECT,
    GET,
    HEAD,
    DELETE,
    OPTIONS,
    PATCH,
    POST,
    PUT,
    TRACE,
}

impl Method {
    /// Which method a token names, if any.
    pub open spec fn spec_from_str(s: Seq<char>) -> Option<Method> {
        if s == "CONNECT"@ {
            Some(Method::CONNECT)
        } else if s == "GET"@ {
            Some(Method::GET)
        } else if s == "HEAD"@ {
            Some(Method::HEAD)
        } else if s == "DELETE"@ {
            Some(Method::DELETE)
        } else if s == "OPTIONS"@ {
            Some(Method::OPTIONS)
        } else if s == "PATCH"@ {
            Some(Method::PATCH)
        } else if s == "POST"@ {
            Some(Method::POST)
        } else if s == "PUT"@ {
            Some(Method::PUT)
        } else if s == "TRACE"@ {
            Some(Method::TRACE)
        } else {
            None
        }
    }

    /// Parse a method token; any unknown token is rejected.
    pub fn from_str(s: &str) -> (r: Option<Method>)
        ensures
            r == Method::spec_from_str(s@),
    {
        if str_eq(s, "CONNECT") {
            Some(Method::CONNECT)
        } else if str_eq(s, "GET") {
            Some(Method::GET)
        } else if str_eq(s, "HEAD") {
            Some(Method::HEAD)
        } else if str_eq(s, "DELETE") {
            Some(Method::DELETE)
        } else if str_eq(s, "OPTIONS") {
            Some(Method::OPTIONS)
        } else if str_eq(s, "PATCH") {
            Some(Method::PATCH)
        } else if str_eq(s, "POST") {
            Some(Method::POST)
        } else if str_eq(s, "PUT") {
            Some(Method::PUT)
        } else if str_eq(s, "TRACE") {
            Some(Method::TRACE)
        } else {
            None
        }
    }
}

/// Why a request line was rejected.
#[derive(Debug, Clone, Copy, PartialEq, Eq)]
pub enum RequestError {
    InvalidMethod,
}

/// The two pieces of the request line this server cares about.
#[derive(Debug, PartialEq, Eq)]
pub struct HttpRequest {
    pub method: Method,
    pub path: String,
}

/// The position of the first space at or after `from`, if any.
pub open spec fn first_space_from(s: Seq<char>, from: int) -> Option<int>
    decreases s.len() - from,
{
    if from >= s.len() {
        None
    } else if s[from] == ' ' {
        Some(from)
    } else {
        first_space_from(s, from + 1)
    }
}

proof fn lemma_first_space_at(s: Seq<char>, from: int, k: int)
    requires
        0 <= from <= k < s.len(),
        s[k] == ' ',
        forall|j: int| from <= j < k ==> s[j] != ' ',
    ensures
        first_space_from(s, from) == Some(k),
    decreases s.len() - from,
{
    if from < k {
        lemma_first_space_at(s, from + 1, k);
    }
}

/// Find the first space at or after `from`, walking the characters.
fn find_space(s: &str, from: usize) -> (r: Option<usize>)
    requires
        from <= s@.len(),
    ensures
        match r {
            Some(i) => first_space_from(s@, from as int) == Some(i as int) && from <= i
                < s@.len(),
            None => first_space_from(s@, from as int) is None,
        },
{
    let len = s.unicode_len();
    let mut i = from;
    while i < len
        invariant
            from <= i <= len,
            len == s@.len(),
            forall|j: int| from <= j < i ==> s@[j] != ' ',
        decreases len - i,
    {
        if s.get_char(i) == ' ' {
            proof {
                lemma_first_space_at(s@, from as int, i as int);
            }
            return Some(i);
        }
        i += 1;
    }
    proof {
        lemma_space_missing(s@, from as int);
    }
    None
}

proof fn lemma_space_missing(s: Seq<char>, from: int)
    requires
        0 <= from,
        forall|j: int| from <= j < s.len() ==> s[j] != ' ',
    ensures
        first_space_from(s, from) is None,
    decreases s.len() - from,
{
    if from < s.len() {
        lemma_space_missing(s, from + 1);
    }
}

impl HttpRequest {
    /// What parsing a request line yields: the token before the first
    /// space names the method, and the path runs from just after that
    /// space to the next space or, failing one, to the end of the
    /// line. A line without any space is not a request line at all:
    /// the parser is never handed one.
    pub fn from_str(s: &str) -> (r: Result<HttpRequest, RequestError>)
        requires
            first_space_from(s@, 0) is Some,
        ensures
            ({
                let i = first_space_from(s@, 0).unwrap();
                let method_text = s@.take(i);
                let path_end = match first_space_from(s@, i + 1) {
                    Some(j) => j,
                    None => s@.len() as int,
                };
                let path_text = s@.subrange(i + 1, path_end);
                match r {
                    Ok(req) => Method::spec_from_str(method_text) == Some(req.method)
                        && req.path@ == path_text,
                    Err(e) => Method::spec_from_str(method_text) is None && e
                        == RequestError::InvalidMethod,
                }
            }),
    {
        let space = match find_space(s, 0) {
            Some(i) => i,
            None => unreached(),
        };
        let method_text = s.substring_char(0, space);
        proof {
            assert(s@.subrange(0, space as int) =~= s@.take(space as int));
        }
        let method = match Method::from_str(method_text) {
            Some(m) => m,
            None => {
                return Err(RequestError::InvalidMethod);
            },
        };
        let len = s.unicode_len();
        let path_end = match find_space(s, space + 1) {
            Some(j) => j,
            None => len,
        };
        let path = s.substring_char(space + 1, path_end).to_owned();
        Ok(HttpRequest { method, path })
    }
}

} // verus!
