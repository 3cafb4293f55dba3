//! The file server's request handling decision. Reading the file from
//! disk is I/O and happens outside the library; the decision takes the
//! load's outcome and produces the response: the file's content with
//! `200 OK` for a `GET` that found one, `404 Not Found` for anything
//! else.

use vstd::prelude::*;
use crate::http_request::Method;
use crate::http_response::HttpResponse;
use crate::http_response::StatusCodes;

verus! {

/// Decide the response for a request: `loaded` is what loading the
/// requested path yielded, `None` both when the file was missing and
/// when no load was attempted because the method is not `GET`.
pub fn handle_request(method: Method, loaded: Option<String>) -> (r: HttpResponse)
    ensures
        method == Method::GET && loaded is Some ==> r.status_code == StatusCodes::OK
            && r.content@ == loaded.unwrap()@,
        !(method == Method::GET && loaded is Some) ==> r.status_code == StatusCodes::NotFound
            && r.content@ == Seq::<char>::empty(),
{
    match method {
        Method::GET => match loaded {
            Some(content) => HttpResponse::new(StatusCodes::OK, Some(content)),
            None => HttpResponse::new(StatusCodes::NotFound, None),
        },
        _ => HttpResponse::new(StatusCodes::NotFound, None),
    }
}

} // verus!
