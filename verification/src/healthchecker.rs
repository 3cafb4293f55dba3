//! The simpler health-check loop's decision core: every probe's
//! classification is stored unconditionally and a status line is
//! reported after every iteration, change or not. The loop that issues
//! the probe and sleeps between iterations lives outside the library.

use vstd::prelude::*;
use vstd::string::StringExecFns;
use crate::healthchecks::ProbeOutcome;
use crate::models::Server;

verus! {

/// Per-target health checker that logs its verdict on every iteration.
pub struct Healthchecker {}

impl Healthchecker {
    /// Store the fresh probe classification in the server's health
    /// flag, leaving the address untouched.
    pub fn record_probe(server: &mut Server, outcome: &ProbeOutcome)
        ensures
            final(server).uri == old(server).uri,
            final(server).healthy == outcome.spec_healthy(),
    {
        let healthy = match outcome {
            ProbeOutcome::Status(code) => 200 <= *code && *code < 300,
            ProbeOutcome::Failed => false,
        };
        server.healthy = healthy;
    }

    /// The status line reported after a probe iteration.
    pub open spec fn spec_status_line(server: Server) -> Seq<char> {
        "Server "@ + server.uri.spec_text() + " health is "@ + (if server.healthy {
            "true"@
        } else {
            "false"@
        })
    }

    pub fn status_line(server: &Server) -> (r: String)
        ensures
            r@ == Self::spec_status_line(*server),
    {
        let mut r = "Server ".to_owned();
        let addr = server.uri.to_text();
        r.append(addr.as_str());
        r.append(" health is ");
        if server.healthy {
            r.append("true");
        } else {
            r.append("false");
        }
        r
    }
}

} // verus!
