//! The file server's HTTP response model: a status code, an optional
//! body, and the exact HTTP/1.1 response text written back to the
//! client.

use vstd::prelude::*;
use vstd::string::StringExecFns;
use vstd::utf8::encode_utf8;
use crate::text::decimal;
use crate::text::u64_to_string;

verus! {

/// The status codes the file server can answer with.
#[derive(Debug, Clone, Copy, PartialEq, Eq)]
pub enum StatusCodes {
    OK,
    Created,
    Accepted,
    NoContent,
    NotFound,
    InternalServerError,
}

impl StatusCodes {
    /// The status text on the response's first line.
    pub open spec fn spec_status_line(self) -> Seq<char> {
        match self {
            StatusCodes::OK => "200 OK"@,
            StatusCodes::Created => "201 Created"@,
            StatusCodes::Accepted => "202 Accepted"@,
            StatusCodes::NoContent => "204 No Content"@,
            StatusCodes::NotFound => "404 Not Found"@,
            StatusCodes::InternalServerError => "500 Internal Server Error"@,
        }
    }

    pub fn status_line(&self) -> (r: String)
        ensures
            r@ == self.spec_status_line(),
    {
        match self {
            StatusCodes::OK => "200 OK".to_owned(),
            StatusCodes::Created => "201 Created".to_owned(),
            StatusCodes::Accepted => "202 Accepted".to_owned(),
            StatusCodes::NoContent => "204 No Content".to_owned(),
            StatusCodes::NotFound => "404 Not Found".to_owned(),
            StatusCodes::InternalServerError => "500 Internal Server Error".to_owned(),
        }
    }
}

/// One response: a status code and the body it carries (empty when the
/// request supplied none).
#[derive(Debug, PartialEq, Eq)]
pub struct HttpResponse {
    pub status_code: StatusCodes,
    pub content: String,
}

impl HttpResponse {
    pub fn new(status_code: StatusCodes, content: Option<String>) -> (r: Self)
        ensures
            r.status_code == status_code,
            r.content@ == match content {
                Some(c) => c@,
                None => Seq::<char>::empty(),
            },
    {
        let body = match content {
            Some(c) => c,
            None => String::new(),
        };
        HttpResponse { status_code, content: body }
    }

    /// The full HTTP/1.1 response text: status line, a Content-Length
    /// header carrying the body's byte length, a blank line, the body,
    /// and a final line break.
    pub open spec fn spec_response_string(self) -> Seq<char> {
        "HTTP/1.1 "@ + self.status_code.spec_status_line() + "\r\n"@ + "Content-Length: "@
            + decimal(encode_utf8(self.content@).len() as nat) + "\r\n\r\n"@ + self.content@
            + "\r\n"@
    }

    pub fn response_string(&self) -> (r: String)
        ensures
            r@ == self.spec_response_string(),
    {
        let byte_len = self.content.as_str().as_bytes().len();
        let mut r = "HTTP/1.1 ".to_owned();
        let status = self.status_code.status_line();
        r.append(status.as_str());
        r.append("\r\n");
        r.append("Content-Length: ");
        let len_text = u64_to_string(byte_len as u64);
        r.append(len_text.as_str());
        r.append("\r\n\r\n");
        r.append(self.content.as_str());
        r.append("\r\n");
        proof {
            assert(r@ =~= self.spec_response_string());
        }
        r
    }
}

} // verus!
