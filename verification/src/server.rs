//! The demo backend's request decision: the greeting on the root
//! path, `OK` on the health-check path, not found for everything
//! else. The HTTP server around it lives outside the library.

use vstd::prelude::*;
use vstd::string::StringExecFns;
use crate::http_request::Method;
use crate::text::str_eq;

verus! {

/// The body answered on the root path.
pub open spec fn spec_greeting(name: Seq<char>) -> Seq<char> {
    "Hello from server "@ + name + "\n"@
}

/// Decide the backend's reply to a request: its status code and body.
pub fn request_handler(method: &Method, path: &str, name: &str) -> (r: (u16, String))
    ensures
        *method == Method::GET && path@ == "/"@ ==> r.0 == 200 && r.1@ == spec_greeting(name@),
        *method == Method::GET && path@ == "/private/status"@ ==> r.0 == 200 && r.1@ == "OK\n"@,
        !(*method == Method::GET && (path@ == "/"@ || path@ == "/private/status"@)) ==> r.0 == 404
            && r.1@ == Seq::<char>::empty(),
{
    proof {
        reveal_strlit("/");
        reveal_strlit("/private/status");
        assert(("/"@).len() == 1);
        assert(("/private/status"@).len() == 15);
        assert("/"@ != "/private/status"@);
    }
    let is_get = match method {
        Method::GET => true,
        _ => false,
    };
    if is_get && str_eq(path, "/") {
        let mut body = "Hello from server ".to_owned();
        body.append(name);
        body.append("\n");
        (200, body)
    } else if is_get && str_eq(path, "/private/status") {
        (200, "OK\n".to_owned())
    } else {
        (404, String::new())
    }
}

} // verus!
